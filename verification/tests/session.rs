use ct_snooper::report::Report;
use ct_snooper::session::{
    display_file_name, log_file_name, rule_width, title_sequence, DEFAULT_COLUMNS, WINDOW_TITLE,
};

#[test]
fn a_file_is_reported_under_its_own_name() {
    assert_eq!(display_file_name(Some("table.ct")), "table.ct");
    assert_eq!(display_file_name(Some("")), "");
}

#[test]
fn a_file_without_a_name_gets_a_stand_in() {
    assert_eq!(display_file_name(None), "Unknown file");
}

#[test]
fn the_log_is_named_after_the_file() {
    assert_eq!(log_file_name("table.ct"), "table.ct_log.txt");
    assert_eq!(log_file_name("Unknown file"), "Unknown file_log.txt");
}

#[test]
fn the_rule_is_one_column_short_of_the_terminal() {
    assert_eq!(rule_width(Some((120, 40))), 119);
    assert_eq!(rule_width(Some((1, 1))), 0);
    assert_eq!(rule_width(Some((u16::MAX, 0))), 65534);
}

#[test]
fn an_unknown_terminal_counts_as_eighty_columns_wide() {
    assert_eq!(DEFAULT_COLUMNS, 80);
    assert_eq!(rule_width(None), 79);
}

#[test]
fn a_terminal_without_columns_gets_no_rule() {
    assert_eq!(rule_width(Some((0, 24))), 0);
}

#[test]
fn the_title_goes_between_escape_and_bell() {
    assert_eq!(WINDOW_TITLE, "CT Snooper: made in Rust");
    assert_eq!(title_sequence(WINDOW_TITLE), "\x1b]0;CT Snooper: made in Rust\x07");
    assert_eq!(title_sequence(""), "\x1b]0;\x07");
}

#[test]
fn a_report_begins_with_the_local_time_of_its_moment() {
    let report = Report::begin(0, 0, Some("table.ct")).expect("the epoch is a date");
    assert_eq!(report.timestamp(), "1970-01-01 00:00:00");
    assert_eq!(report.file_name(), "table.ct");
    assert_eq!(report.line_count(), 0);
    let later = Report::begin(1_700_000_000, 3600, None).expect("2023 is a date");
    assert_eq!(later.timestamp(), "2023-11-14 23:13:20");
    assert_eq!(later.file_name(), "Unknown file");
    let west = Report::begin(86_399, -86_399, None).expect("1970 is a date");
    assert_eq!(west.timestamp(), "1970-01-01 00:00:00");
    let early = Report::begin(-1, 0, None).expect("1969 is a date");
    assert_eq!(early.timestamp(), "1969-12-31 23:59:59");
}

#[test]
fn a_moment_out_of_range_begins_no_report() {
    assert!(Report::begin(i64::MAX, 0, None).is_none());
    assert!(Report::begin(i64::MIN, 0, None).is_none());
    assert!(Report::begin(0, 86_400, None).is_none());
    assert!(Report::begin(0, -86_400, None).is_none());
}
