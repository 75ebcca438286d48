use logcat::format::colors::{color_of_level, Color};
use logcat::format::formatter::{
    LogcatFormatter, MAX_TAG_LENGTH, STACKTRACE_CAUSE_START, STACKTRACE_ENTRY_START,
};
use logcat::format::log_line::{FormattedLogLine, StyledText};
use logcat::log::{LogEntry, LogLevel, LogLine, MISSING_TAG};
use logcat::timestamp::Timestamp;
use nonempty_collections::NEVec;

fn entry(level: LogLevel, tag: &str, message: &str) -> LogEntry {
    LogEntry::new(
        Timestamp::new(2025, 10, 1, 12, 10, 45, 848).unwrap(),
        1515,
        1971,
        level,
        tag.to_owned(),
        message.to_owned(),
    )
}

fn parts(line: &FormattedLogLine) -> Vec<StyledText> {
    (0..line.len()).map(|i| line.part(i).unwrap().clone()).collect()
}

fn colored(text: &str, color: Color) -> StyledText {
    StyledText::colored(text.to_owned(), color)
}

#[test]
fn a_header_is_one_muted_segment() {
    let mut formatter = LogcatFormatter::new();

    let line = formatter.format_log_line(&LogLine::header("main"));

    assert_eq!(parts(&line), vec![colored("--------- beginning of main", Color::BrightBlack)]);
    assert_eq!(line.plain_text(), "--------- beginning of main");
    assert_eq!(formatter.tag_length(), 0);
}

#[test]
fn an_entry_is_laid_out_in_six_segments() {
    let mut formatter = LogcatFormatter::new();
    let e = entry(LogLevel::Info, "MiuiNetworkPolicy", "removeUidState uid = 10147");

    let line = formatter.format_log_line(&LogLine::Entry(e));

    assert_eq!(
        parts(&line),
        vec![
            colored("10-01 12:10:45.848", Color::Magenta),
            colored(" 1515", Color::BrightBlack),
            colored(" 1971", Color::BrightBlack),
            colored(" I ", Color::BrightWhite).on_color(Color::Green).bold(),
            colored("MiuiNetworkPolicy", Color::White),
            colored("removeUidState uid = 10147", Color::Green),
        ]
    );
    assert_eq!(
        line.plain_text(),
        "10-01 12:10:45.848  1515  1971  I  MiuiNetworkPolicy removeUidState uid = 10147"
    );
}

#[test]
fn numbers_stand_at_the_right_of_their_columns() {
    assert_eq!(LogcatFormatter::format_pid(7).text, "    7");
    assert_eq!(LogcatFormatter::format_pid(0).text, "    0");
    assert_eq!(LogcatFormatter::format_pid(12345).text, "12345");
    assert_eq!(LogcatFormatter::format_tid(123456).text, "123456");
    assert_eq!(LogcatFormatter::format_tid(4294967295).text, "4294967295");
}

#[test]
fn a_moment_is_shown_without_its_year() {
    let moment = Timestamp::new(2024, 2, 29, 3, 4, 5, 6).unwrap();

    assert_eq!(LogcatFormatter::format_datetime(&moment).text, "02-29 03:04:05.006");
}

#[test]
fn each_level_has_its_badge_and_its_colour() {
    let expected = [
        (LogLevel::Silent, " S ", Color::BrightBlack),
        (LogLevel::Verbose, " V ", Color::Cyan),
        (LogLevel::Debug, " D ", Color::Blue),
        (LogLevel::Info, " I ", Color::Green),
        (LogLevel::Warning, " W ", Color::Yellow),
        (LogLevel::Error, " E ", Color::Red),
        (LogLevel::Fatal, " F ", Color::BrightRed),
    ];

    for (level, badge, color) in expected {
        assert_eq!(color_of_level(level), color);
        assert_eq!(
            LogcatFormatter::format_log_level(level),
            colored(badge, Color::BrightWhite).on_color(color).bold()
        );
        assert_eq!(LogcatFormatter::format_message("m", level), colored("m", color));
    }
}

#[test]
fn the_tag_column_grows_up_to_its_limit_and_never_shrinks() {
    let mut formatter = LogcatFormatter::new();
    assert_eq!(formatter.tag_length(), 0);

    assert_eq!(formatter.format_tag("").text, "");
    assert_eq!(formatter.tag_length(), 0);

    assert_eq!(formatter.format_tag("LongerTag").text, "LongerTag");
    assert_eq!(formatter.tag_length(), MAX_TAG_LENGTH);

    assert_eq!(formatter.format_tag("").text, " ".repeat(MAX_TAG_LENGTH));
    assert_eq!(formatter.tag_length(), MAX_TAG_LENGTH);

    assert_eq!(formatter.format_tag("T").text, "T");
    assert_eq!(formatter.tag_length(), MAX_TAG_LENGTH);
}

#[test]
fn a_missing_tag_is_set_apart() {
    let mut formatter = LogcatFormatter::new();

    assert_eq!(
        formatter.format_tag(MISSING_TAG),
        colored(MISSING_TAG, Color::BrightBlack).italic()
    );
    assert_eq!(formatter.format_tag("Tag"), colored("Tag", Color::White));
}

#[test]
fn a_stack_frame_is_an_indented_dimmed_continuation() {
    let mut formatter = LogcatFormatter::new();
    let first = entry(LogLevel::Error, "AndroidRuntime", "java.lang.IllegalStateException: no");
    let frame = entry(LogLevel::Error, "AndroidRuntime", "    at com.foo.Bar.baz(Bar.java:10)");

    let shown = formatter.format_log_line(&LogLine::Entry(first));
    assert_eq!(shown.len(), 6);
    let width = formatter.tag_length();

    let shown = formatter.format_log_line(&LogLine::Entry(frame));
    let indent = " ".repeat(41 + "AndroidRuntime".len());
    assert_eq!(
        parts(&shown),
        vec![colored(&format!("{indent}at com.foo.Bar.baz(Bar.java:10)"), Color::Red).dimmed()]
    );
    assert_eq!(STACKTRACE_ENTRY_START, " ".repeat(41));
    assert_eq!(formatter.tag_length(), width);
}

#[test]
fn frames_are_known_by_how_they_start() {
    let is_frame = |message: &str| {
        LogcatFormatter::is_stacktrace_entry(&entry(LogLevel::Error, "t", message))
    };

    assert!(is_frame("    at com.foo.Bar.baz(Bar.java:10)"));
    assert!(is_frame("at com.foo.Bar.baz(Bar.java:10)"));
    assert!(is_frame("\t... 12 more"));
    assert!(is_frame("... 12 more"));
    assert!(!is_frame("at"));
    assert!(!is_frame("attention"));
    assert!(!is_frame("..."));
    assert!(!is_frame(".. 12 more"));
    assert!(!is_frame("look at this"));
    assert!(!is_frame(""));
    assert!(!is_frame("Caused by: java.io.IOException"));
}

#[test]
fn a_cause_stands_out_from_the_frames() {
    let mut formatter = LogcatFormatter::new();
    let cause = entry(LogLevel::Warning, "Tag", "  Caused by: java.io.IOException: gone");

    assert!(LogcatFormatter::is_stacktrace_cause(&cause));
    assert!(!LogcatFormatter::is_stacktrace_entry(&cause));
    let shown = formatter.format_log_line(&LogLine::Entry(cause));

    let indent = " ".repeat(35 + 3);
    assert_eq!(
        parts(&shown),
        vec![colored(&format!("{indent}Caused by: java.io.IOException: gone"), Color::Yellow)]
    );
    assert_eq!(STACKTRACE_CAUSE_START, " ".repeat(35));
    assert_eq!(formatter.tag_length(), 0);

    let other = entry(LogLevel::Warning, "Tag", "Caused by:nothing");
    assert!(!LogcatFormatter::is_stacktrace_cause(&other));
}

#[test]
fn segments_are_joined_by_single_spaces() {
    let mut line = FormattedLogLine::single(colored("a", Color::Red));
    assert_eq!(line.len(), 1);
    assert_eq!(line.plain_text(), "a");

    line.push(colored("", Color::Green));
    line.push(colored("c d", Color::Blue));
    assert_eq!(line.len(), 3);
    assert_eq!(line.plain_text(), "a  c d");
    assert_eq!(line.part(2), Some(&colored("c d", Color::Blue)));
    assert_eq!(line.part(3), None);
}

#[test]
fn a_line_can_be_made_of_a_vector_of_segments() {
    let mut segments = NEVec::new(colored("first", Color::Red));
    segments.push(colored("second", Color::Green));

    let line = FormattedLogLine::new(segments);

    assert_eq!(line.len(), 2);
    assert_eq!(line.part(0), Some(&colored("first", Color::Red)));
    assert_eq!(line.part(1), Some(&colored("second", Color::Green)));
    assert_eq!(line.plain_text(), "first second");
}

#[test]
fn styles_add_up() {
    let text = colored("t", Color::Cyan).on_color(Color::Black).bold().dimmed().italic();

    assert_eq!(
        text,
        StyledText {
            text: "t".to_owned(),
            foreground: Some(Color::Cyan),
            background: Some(Color::Black),
            bold: true,
            dimmed: true,
            italic: true,
        }
    );
}
