use logcat::filter::{
    AndFilter, AnyFilter, LevelFilter, LogFilter, MessageFilter, NotFilter, OrFilter,
    PatternField, PidFilter, TagFilter, TidFilter,
};
use logcat::log::{LogEntry, LogLevel};
use logcat::timestamp::Timestamp;

fn entry(pid: u32, tid: u32, level: LogLevel, tag: &str, message: &str) -> LogEntry {
    LogEntry::new(
        Timestamp::new(2025, 10, 1, 12, 10, 45, 100).unwrap(),
        pid,
        tid,
        level,
        tag.to_owned(),
        message.to_owned(),
    )
}

fn plain(level: LogLevel) -> LogEntry {
    entry(1000, 2000, level, "Tag", "message")
}

const ALL_LEVELS: [LogLevel; 7] = [
    LogLevel::Silent,
    LogLevel::Verbose,
    LogLevel::Debug,
    LogLevel::Info,
    LogLevel::Warning,
    LogLevel::Error,
    LogLevel::Fatal,
];

#[test]
fn levels_stand_in_order_of_severity() {
    for pair in ALL_LEVELS.windows(2) {
        assert!(pair[0] < pair[1]);
        assert!(pair[0].severity() < pair[1].severity());
        assert!(pair[1].at_least(pair[0]));
        assert!(!pair[0].at_least(pair[1]));
    }
    for level in ALL_LEVELS {
        assert!(level.at_least(level));
        assert_eq!(LogLevel::from_letter(level.to_letter()), Some(level));
    }
    assert_eq!(LogLevel::from_letter('X'), None);
    assert_eq!(LogLevel::from_letter('i'), None);

    for a in ALL_LEVELS {
        for b in ALL_LEVELS {
            assert_eq!(a.partial_cmp(&b), Some(a.cmp(&b)));
            assert_eq!(a.cmp(&b), a.severity().cmp(&b.severity()));
            assert_eq!(a >= b, a.at_least(b));
        }
    }
    assert!(LogLevel::Silent < LogLevel::Verbose);
    assert!(LogLevel::Verbose < LogLevel::Debug);
    assert!(LogLevel::Debug < LogLevel::Info);
    assert!(LogLevel::Info < LogLevel::Warning);
    assert!(LogLevel::Warning < LogLevel::Error);
    assert!(LogLevel::Error < LogLevel::Fatal);
}

#[test]
fn a_level_is_named_by_its_letter() {
    assert_eq!(LogLevel::parse("I"), Some(LogLevel::Info));
    assert_eq!(LogLevel::parse("F"), Some(LogLevel::Fatal));
    assert_eq!(LogLevel::parse("S"), Some(LogLevel::Silent));
    assert_eq!(LogLevel::parse(""), None);
    assert_eq!(LogLevel::parse("i"), None);
    assert_eq!(LogLevel::parse("II"), None);
    assert_eq!(LogLevel::parse("Info"), None);
    for level in ALL_LEVELS {
        assert_eq!(LogLevel::parse(level.as_str()), Some(level));
        assert_eq!(level.as_str(), level.to_letter().to_string());
    }
}

#[test]
fn a_level_filter_lets_the_level_and_the_more_severe_through() {
    let filter = LevelFilter(LogLevel::Warning);

    for level in [LogLevel::Warning, LogLevel::Error, LogLevel::Fatal] {
        assert!(filter.include_entry(&plain(level)));
    }
    for level in [LogLevel::Silent, LogLevel::Verbose, LogLevel::Debug, LogLevel::Info] {
        assert!(!filter.include_entry(&plain(level)));
    }
}

#[test]
fn pid_and_tid_filters_ask_for_the_same_number() {
    let e = entry(1515, 1971, LogLevel::Info, "Tag", "message");

    assert!(PidFilter(1515).include_entry(&e));
    assert!(!PidFilter(1971).include_entry(&e));
    assert!(TidFilter(1971).include_entry(&e));
    assert!(!TidFilter(1515).include_entry(&e));
}

#[test]
fn a_tag_filter_matches_the_whole_tag() {
    let tag = TagFilter::new("Tag").unwrap();
    assert!(tag.include_entry(&entry(1, 1, LogLevel::Info, "Tag", "m")));
    assert!(!tag.include_entry(&entry(1, 1, LogLevel::Info, "TagExtra", "m")));
    assert!(!tag.include_entry(&entry(1, 1, LogLevel::Info, "MyTag", "m")));

    let any = TagFilter::new("Tag.*").unwrap();
    assert!(any.include_entry(&entry(1, 1, LogLevel::Info, "Tag", "m")));
    assert!(any.include_entry(&entry(1, 1, LogLevel::Info, "TagExtra", "m")));
    assert!(!any.include_entry(&entry(1, 1, LogLevel::Info, "MyTag", "m")));

    let digit = TagFilter::new(r"Tag\d").unwrap();
    assert!(digit.include_entry(&entry(1, 1, LogLevel::Info, "Tag1", "m")));
    assert!(!digit.include_entry(&entry(1, 1, LogLevel::Info, "Tag", "m")));
    assert!(!digit.include_entry(&entry(1, 1, LogLevel::Info, "Tag12", "m")));
}

#[test]
fn a_tag_filter_matches_the_whole_tag_whatever_the_pattern() {
    let tag = |t: &str| entry(1, 1, LogLevel::Info, t, "m");

    let either = TagFilter::new("Tag|Other").unwrap();
    assert!(either.include_entry(&tag("Tag")));
    assert!(either.include_entry(&tag("Other")));
    assert!(!either.include_entry(&tag("TagExtra")));
    assert!(!either.include_entry(&tag("MyOther")));
    assert!(!either.include_entry(&tag("xTag")));
    assert!(!either.include_entry(&tag("Others")));

    let empty_or = TagFilter::new("|Tag").unwrap();
    assert!(empty_or.include_entry(&tag("")));
    assert!(empty_or.include_entry(&tag("Tag")));
    assert!(!empty_or.include_entry(&tag("T")));

    // a flag inside the pattern does not loosen the ends
    let lines = TagFilter::new("(?m)Tag$").unwrap();
    assert!(lines.include_entry(&tag("Tag")));
    assert!(!lines.include_entry(&tag("Tag\nExtra")));
    let lines = TagFilter::new("(?m)^b").unwrap();
    assert!(!lines.include_entry(&tag("a\nb")));
    let any_case = TagFilter::new("(?i)tag").unwrap();
    assert!(any_case.include_entry(&tag("TAG")));
    assert!(!any_case.include_entry(&tag("TAGS")));

    // what the user anchors stays anchored
    let anchored = TagFilter::new("^Tag$").unwrap();
    assert!(anchored.include_entry(&tag("Tag")));
    assert!(!anchored.include_entry(&tag("TagExtra")));
}

#[test]
fn what_is_no_pattern_by_itself_is_no_tag_pattern() {
    // between the marks these would compile, and match a part of a tag
    for broken in ["a)|(b", "a)|(?:b", ")", "a)(?m)(?:b"] {
        let error = TagFilter::new(broken).unwrap_err();
        assert_eq!(error.pattern, broken);
        assert_eq!(error.field, PatternField::Tag);
    }

    // a pattern by itself that cannot stand between the marks
    let error = TagFilter::new("(?x)Tag # the tag").unwrap_err();
    assert_eq!(error.pattern, r"\A(?:(?x)Tag # the tag)\z");
    assert_eq!(error.field, PatternField::Tag);
}

#[test]
fn a_tag_filter_is_refused_with_its_pattern() {
    let error = TagFilter::new("Tag(").unwrap_err();

    assert_eq!(error.pattern, "Tag(");
    assert_eq!(error.field, PatternField::Tag);
    assert!(matches!(error.cause, regex::Error::Syntax(_)));
    assert_eq!(error.message(), format!("failed to compile regex: {}", error.cause));
    assert!(error.message().starts_with("failed to compile regex: "));
    assert!(error.message().len() > "failed to compile regex: ".len());
}

#[test]
fn a_message_filter_is_made_of_a_pattern_as_it_is() {
    let word = MessageFilter::new("Wo+rd").unwrap();
    assert!(word.include_entry(&entry(1, 1, LogLevel::Info, "Tag", "a Woord here")));
    assert!(!word.include_entry(&entry(1, 1, LogLevel::Info, "Tag", "a Wrd here")));

    let error = MessageFilter::new("Wo(rd").unwrap_err();
    assert_eq!(error.pattern, "Wo(rd");
    assert_eq!(error.field, PatternField::Message);
    assert!(matches!(error.cause, regex::Error::Syntax(_)));
    assert_eq!(error.message(), error.cause.to_string());
}

#[test]
fn a_message_filter_matches_anywhere() {
    let word = MessageFilter(regex::Regex::new("Word").unwrap());
    assert!(word.include_entry(&entry(1, 1, LogLevel::Info, "Tag", "a Word here")));
    assert!(word.include_entry(&entry(1, 1, LogLevel::Info, "Tag", "Word")));
    assert!(!word.include_entry(&entry(1, 1, LogLevel::Info, "Word", "nothing")));

    let start = MessageFilter(regex::Regex::new("^Word").unwrap());
    assert!(start.include_entry(&entry(1, 1, LogLevel::Info, "Tag", "Word here")));
    assert!(!start.include_entry(&entry(1, 1, LogLevel::Info, "Tag", "a Word here")));
}

#[test]
fn and_asks_for_all_and_or_for_one() {
    let e = entry(1, 2, LogLevel::Info, "Tag", "message");
    let yes = || AnyFilter::Pid(PidFilter(1));
    let no = || AnyFilter::Tid(TidFilter(1));

    assert!(AndFilter(vec![]).include_entry(&e));
    assert!(AndFilter(vec![yes(), yes()]).include_entry(&e));
    assert!(!AndFilter(vec![yes(), no()]).include_entry(&e));
    assert!(!AndFilter(vec![no(), yes()]).include_entry(&e));

    assert!(!OrFilter(vec![]).include_entry(&e));
    assert!(OrFilter(vec![no(), yes()]).include_entry(&e));
    assert!(OrFilter(vec![yes(), no()]).include_entry(&e));
    assert!(!OrFilter(vec![no(), no()]).include_entry(&e));

    assert!(!NotFilter(Box::new(yes())).include_entry(&e));
    assert!(NotFilter(Box::new(no())).include_entry(&e));
}

#[test]
fn filters_nest() {
    let e = entry(1, 2, LogLevel::Error, "Tag", "message");
    let filter = AnyFilter::And(AndFilter(vec![
        AnyFilter::Level(LevelFilter(LogLevel::Warning)),
        AnyFilter::Or(OrFilter(vec![
            AnyFilter::Tag(TagFilter::new("Other").unwrap()),
            AnyFilter::Not(NotFilter(Box::new(AnyFilter::Pid(PidFilter(7))))),
        ])),
        AnyFilter::Message(MessageFilter(regex::Regex::new("ess").unwrap())),
    ]));

    assert!(filter.include_entry(&e));
    assert!(!filter.include_entry(&entry(7, 2, LogLevel::Error, "Tag", "message")));
    assert!(filter.include_entry(&entry(7, 2, LogLevel::Error, "Other", "message")));
    assert!(!filter.include_entry(&entry(1, 2, LogLevel::Info, "Tag", "message")));
    assert!(!filter.include_entry(&entry(1, 2, LogLevel::Error, "Tag", "text")));
}
