use logcat::log::{LogLevel, LogLine, MISSING_TAG};
use logcat::parse::{
    parse_log_line_in_year, parse_log_line_now, LogcatParser, ParseError, ParseErrorKind,
    ParseWarning,
};
use logcat::timestamp::Timestamp;

fn moment(
    year: i32,
    month: u8,
    day: u8,
    hour: u8,
    minute: u8,
    second: u8,
    milli: u16,
) -> Timestamp {
    Timestamp::new(year, month, day, hour, minute, second, milli).unwrap()
}

fn this_year() -> i32 {
    time::UtcDateTime::now().year()
}

/// The same record, its time stamp moved to another year.
fn in_year(line: &LogLine, year: i32) -> LogLine {
    match line {
        LogLine::Header(name) => LogLine::Header(name.clone()),
        LogLine::Entry(entry) => {
            let mut entry = entry.clone();
            entry.datetime.year = year;
            LogLine::Entry(entry)
        }
    }
}

/// Checks a line against what it is read as in 2025, and against what the
/// parser makes of it in the year that the clock shows.
fn assert_reads_as(line: &str, expected: &LogLine) {
    let result = parse_log_line_in_year(line, 2025).unwrap();
    assert_eq!(&result.line, expected);

    let result = LogcatParser::new().parse_log_line(line).unwrap();
    assert_eq!(result, in_year(expected, this_year()));
}

const ALL_LEVELS: [LogLevel; 7] = [
    LogLevel::Silent,
    LogLevel::Verbose,
    LogLevel::Debug,
    LogLevel::Info,
    LogLevel::Warning,
    LogLevel::Error,
    LogLevel::Fatal,
];

#[test]
fn parse_test_parse_logcat_header() {
    let test_case =
        |header: &str| (format!("--------- beginning of {header}"), LogLine::header(header));
    let headers = vec!["main", "system", "radio"];
    let parser = LogcatParser::new();

    for header in headers {
        let (line, expected) = test_case(header);
        let result = parser.parse_log_line(&line).unwrap();

        assert_eq!(result, expected);
    }
}

#[test]
fn parse_test_parse_log_line_sanity() {
    let line = r"10-01 12:10:45.848  1515  1971 I MiuiNetworkPolicy: removeUidState uid = 10147";

    let expected = LogLine::entry(
        moment(2025, 10, 1, 12, 10, 45, 848),
        1515,
        1971,
        LogLevel::Info,
        "MiuiNetworkPolicy".to_owned(),
        "removeUidState uid = 10147".to_owned(),
    );

    assert_reads_as(line, &expected);
}

#[test]
fn test_parse_log_line_with_missing_tag() {
    let line = r"10-01 12:10:45.588 14344 14376 E Finsky [89] AU2 RequiredVehicleState is missing.";

    let expected = LogLine::entry(
        moment(2025, 10, 1, 12, 10, 45, 588),
        14344,
        14376,
        LogLevel::Error,
        MISSING_TAG.to_owned(),
        "Finsky [89] AU2 RequiredVehicleState is missing.".to_owned(),
    );

    assert_reads_as(line, &expected);
}

#[test]
fn parse_test_parse_log_line_with_padded_tag() {
    let line =
        r"10-01 12:10:45.588 14344 14376 E Finsky  : [89] AU2: RequiredVehicleState is missing.";

    let expected = LogLine::entry(
        moment(2025, 10, 1, 12, 10, 45, 588),
        14344,
        14376,
        LogLevel::Error,
        "Finsky".to_owned(),
        "[89] AU2: RequiredVehicleState is missing.".to_owned(),
    );

    assert_reads_as(line, &expected);
}

#[test]
fn parse_test_parse_log_line_with_dots_in_tag_and_long_message() {
    let line = r"10-01 12:10:45.853 11472 11487 I com.xiaomi.xmsf: oneway function results for code 3 on binder at 0xb400007d87527a00 will be dropped but finished with status UNKNOWN_TRANSACTION";

    let expected = LogLine::entry(
        moment(2025, 10, 1, 12, 10, 45, 853),
        11472,
        11487,
        LogLevel::Info,
        "com.xiaomi.xmsf".to_owned(),
        "oneway function results for code 3 on binder at 0xb400007d87527a00 will be dropped but finished with status UNKNOWN_TRANSACTION".to_owned(),
    );

    assert_reads_as(line, &expected);
}

#[test]
fn parse_test_parse_log_line_with_colons_in_tag_and_complex_message() {
    let line = r#"10-01 12:10:45.813  4375  4375 W binder:4375_3: type=1400 audit(0.0:1427): avc: denied { read } for name="u:object_r:system_adbd_prop:s0" dev="tmpfs" ino=1260 scontext=u:r:gmscore_app:s0:c512,c768 tcontext=u:object_r:system_adbd_prop:s0 tclass=file permissive=0 app=com.google.android.gms"#;

    let expected = LogLine::entry(
        moment(2025, 10, 1, 12, 10, 45, 813),
        4375,
        4375,
        LogLevel::Warning,
        "binder:4375_3".to_owned(),
        r#"type=1400 audit(0.0:1427): avc: denied { read } for name="u:object_r:system_adbd_prop:s0" dev="tmpfs" ino=1260 scontext=u:r:gmscore_app:s0:c512,c768 tcontext=u:object_r:system_adbd_prop:s0 tclass=file permissive=0 app=com.google.android.gms"#.to_owned(),
    );

    assert_reads_as(line, &expected);
}

#[test]
fn parse_test_parse_log_line_with_all_log_levels() {
    let test_case = |log_level: LogLevel| {
        (
            format!(
                "10-01 12:10:45.100  1000  1000 {} TestTag: verbose message",
                log_level.to_letter()
            ),
            LogLine::entry(
                moment(2025, 10, 1, 12, 10, 45, 100),
                1000,
                1000,
                log_level,
                "TestTag".to_owned(),
                "verbose message".to_owned(),
            ),
        )
    };

    for log_level in ALL_LEVELS {
        let (line, expected) = test_case(log_level);
        assert_reads_as(&line, &expected);
    }
}

#[test]
fn parse_test_parse_log_line_with_invalid_log_lines() {
    let invalid_lines = vec![
        "invalid log line",
        "--------- beginning of ",                         // missing header
        "-------- beginning of main",                      // invalid header
        "10-01 12:10:45.100",                              // incomplete
        "10-01 12:10:45.100 1000",                         // missing fields
        "10-01 12:10:45.100 1000 1000 X TestTag: message", // invalid level
    ];
    let parser = LogcatParser::new();

    for line in invalid_lines {
        let result = parser.parse_log_line(line);

        assert!(result.is_err(), "Expected error for: {line}");
    }
}

fn error_of(line: &str) -> ParseError {
    parse_log_line_in_year(line, 2025).unwrap_err()
}

#[test]
fn errors_name_the_first_character_that_does_not_fit() {
    let at = |position, kind| ParseError { position, kind };

    assert_eq!(error_of("invalid log line"), at(0, ParseErrorKind::LineStart));
    assert_eq!(error_of(""), at(0, ParseErrorKind::LineStart));
    assert_eq!(error_of("-------- beginning of main"), at(8, ParseErrorKind::HeaderPrefix));
    assert_eq!(error_of("--------- beginning of "), at(23, ParseErrorKind::SectionName));
    assert_eq!(error_of("--------- beginning of 2main"), at(23, ParseErrorKind::SectionName));
    assert_eq!(error_of("--------- beginning of main system"), at(27, ParseErrorKind::LineEnd));
    assert_eq!(error_of("--------- beginning of main\n\n"), at(28, ParseErrorKind::LineEnd));
    assert_eq!(error_of("10-01 12:10:45.100"), at(18, ParseErrorKind::Stamp));
    assert_eq!(error_of("10-01 12:1x:45.100 1 1 I t: m"), at(10, ParseErrorKind::Stamp));
    assert_eq!(error_of("13-01 12:10:45.100 1 1 I t: m"), at(0, ParseErrorKind::Moment));
    assert_eq!(error_of("10-01 12:10:45.100 "), at(19, ParseErrorKind::Number));
    assert_eq!(error_of("10-01 12:10:45.100 x 1 I t: m"), at(19, ParseErrorKind::Number));
    assert_eq!(
        error_of("10-01 12:10:45.100 4294967296 1 I t: m"),
        at(19, ParseErrorKind::SmallerNumber)
    );
    assert_eq!(error_of("10-01 12:10:45.100 01000 I t: m"), at(20, ParseErrorKind::Space));
    assert_eq!(error_of("10-01 12:10:45.100 1000"), at(23, ParseErrorKind::Space));
    assert_eq!(error_of("10-01 12:10:45.100 1000 "), at(24, ParseErrorKind::Number));
    assert_eq!(
        error_of("10-01 12:10:45.100 1 99999999999 I t: m"),
        at(21, ParseErrorKind::SmallerNumber)
    );
    assert_eq!(error_of("10-01 12:10:45.100 1000 1000I t: m"), at(28, ParseErrorKind::Space));
    assert_eq!(error_of("10-01 12:10:45.100 1000 1000"), at(28, ParseErrorKind::Space));
    assert_eq!(error_of("10-01 12:10:45.100 1000 1000 "), at(29, ParseErrorKind::Level));
    assert_eq!(
        error_of("10-01 12:10:45.100 1000 1000 X TestTag: message"),
        at(29, ParseErrorKind::Level)
    );
    assert_eq!(error_of("10-01 12:10:45.100 1000 1000 ITag: m"), at(30, ParseErrorKind::Space));
    assert_eq!(error_of("10-01 12:10:45.100 1 1 I t: m\nmore"), at(30, ParseErrorKind::LineEnd));
}

#[test]
fn an_error_says_what_was_expected_and_where() {
    let error = error_of("10-01 12:10:45.100 1000 1000 X TestTag: message");

    assert_eq!(
        error.message(),
        "failed to parse log line: expected a level letter at character 29"
    );
}

#[test]
fn a_line_terminator_is_tolerated() {
    let expected = LogLine::entry(
        moment(2025, 10, 1, 12, 10, 45, 100),
        1,
        2,
        LogLevel::Debug,
        "t".to_owned(),
        "m".to_owned(),
    );

    for end in ["", "\n", "\r\n", "\r"] {
        let line = format!("10-01 12:10:45.100 1 2 D t: m{end}");
        assert_eq!(parse_log_line_in_year(&line, 2025).unwrap().line, expected);

        let line = format!("--------- beginning of main{end}");
        assert_eq!(parse_log_line_in_year(&line, 2025).unwrap().line, LogLine::header("main"));
    }
}

#[test]
fn a_missing_separator_is_a_warning_and_no_error() {
    let parsed =
        parse_log_line_in_year("10-01 12:10:45.100 1000 1000 I NoColon other text", 2025).unwrap();

    let expected = LogLine::entry(
        moment(2025, 10, 1, 12, 10, 45, 100),
        1000,
        1000,
        LogLevel::Info,
        MISSING_TAG.to_owned(),
        "NoColon other text".to_owned(),
    );
    assert_eq!(parsed.line, expected);
    assert_eq!(parsed.warning, Some(ParseWarning::MissingSeparator));
    assert_eq!(
        ParseWarning::MissingSeparator.message(),
        "missing ': ' to separate tag and message"
    );

    let parsed =
        parse_log_line_in_year("10-01 12:10:45.100 1000 1000 I Tag: other text", 2025).unwrap();
    assert_eq!(parsed.warning, None);
}

#[test]
fn tag_and_message_are_trimmed() {
    let parsed =
        parse_log_line_in_year("10-01 12:10:45.100 1 2 E   Tag  :    at a.b.C(D.java:1)  ", 2025)
            .unwrap();

    let expected = LogLine::entry(
        moment(2025, 10, 1, 12, 10, 45, 100),
        1,
        2,
        LogLevel::Error,
        "Tag".to_owned(),
        "at a.b.C(D.java:1)".to_owned(),
    );
    assert_eq!(parsed.line, expected);
}

#[test]
fn an_entry_may_end_with_its_level() {
    let parsed = parse_log_line_in_year("10-01 12:10:45.100 1 2 F", 2025).unwrap();

    let expected = LogLine::entry(
        moment(2025, 10, 1, 12, 10, 45, 100),
        1,
        2,
        LogLevel::Fatal,
        MISSING_TAG.to_owned(),
        String::new(),
    );
    assert_eq!(parsed.line, expected);
    assert_eq!(parsed.warning, Some(ParseWarning::MissingSeparator));
}

#[test]
fn the_year_decides_whether_a_day_exists() {
    let line = "02-29 00:00:00.000 1 2 I t: m";

    assert!(parse_log_line_in_year(line, 2024).is_ok());
    assert_eq!(
        parse_log_line_in_year(line, 2025),
        Err(ParseError { position: 0, kind: ParseErrorKind::Moment })
    );
    assert!(parse_log_line_in_year(line, 2000).is_ok());
    assert!(parse_log_line_in_year(line, 1900).is_err());
}

#[test]
fn the_largest_numbers_are_read() {
    let parsed =
        parse_log_line_in_year("12-31 23:59:59.999 4294967295 0 V t: m", 2025).unwrap();

    let expected = LogLine::entry(
        moment(2025, 12, 31, 23, 59, 59, 999),
        4294967295,
        0,
        LogLevel::Verbose,
        "t".to_owned(),
        "m".to_owned(),
    );
    assert_eq!(parsed.line, expected);
}

#[test]
fn reading_does_not_depend_on_what_was_read_before() {
    let good = "10-01 12:10:45.100 1000 1000 I Tag: message";
    let bad = "10-01 12:10:45.100 1000 1000 X TestTag: message";

    let first = parse_log_line_in_year(good, 2025);
    assert!(parse_log_line_in_year(bad, 2025).is_err());
    let second = parse_log_line_in_year(good, 2025);

    assert!(first.is_ok());
    assert_eq!(first, second);
}

#[test]
fn the_warning_comes_with_the_line_in_the_present_year() {
    let line = "10-01 12:10:45.100 1000 1000 I NoColon other text";
    let expected = LogLine::entry(
        moment(this_year(), 10, 1, 12, 10, 45, 100),
        1000,
        1000,
        LogLevel::Info,
        MISSING_TAG.to_owned(),
        "NoColon other text".to_owned(),
    );

    let parsed = parse_log_line_now(line).unwrap();
    assert_eq!(parsed.line, expected);
    assert_eq!(parsed.warning, Some(ParseWarning::MissingSeparator));

    let parsed = LogcatParser::new().parse_log_line_now(line).unwrap();
    assert_eq!(parsed.line, expected);
    assert_eq!(parsed.warning, Some(ParseWarning::MissingSeparator));

    let parsed = parse_log_line_now("10-01 12:10:45.100 1000 1000 I Tag: text").unwrap();
    assert_eq!(parsed.warning, None);

    let bad = "10-01 12:10:45.100 1000 1000 X TestTag: message";
    assert_eq!(
        parse_log_line_now(bad),
        Err(ParseError { position: 29, kind: ParseErrorKind::Level })
    );
}

#[test]
fn a_line_is_read_in_the_present_year_as_in_any_other() {
    let line = "03-01 00:00:00.000 1 2 W Tag: message";

    let now = parse_log_line_now(line).unwrap();
    for year in [-9999, -1, 0, 1900, 2000, 2024, 2025, 9999] {
        let then = parse_log_line_in_year(line, year).unwrap();
        assert_eq!(then.line, in_year(&now.line, year));
        assert_eq!(then.warning, now.warning);
    }
    for year in [-10000, 10000, i32::MIN, i32::MAX] {
        assert_eq!(
            parse_log_line_in_year(line, year),
            Err(ParseError { position: 0, kind: ParseErrorKind::Moment })
        );
    }
}
