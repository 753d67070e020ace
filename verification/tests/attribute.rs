use ct_snooper::attribute::{Attribute, SuffixError};
use ct_snooper::attribute_value;
use ct_snooper::chars::to_chars;

#[test]
fn value_in_quotes_keeps_what_follows_the_closing_quote() {
    let line = "<?xml version=\"1.0\" encoding=\"utf-8\"?>";
    assert_eq!(attribute_value(line, "encoding"), Some("utf-8\"?>".to_string()));
    assert_eq!(attribute_value(line, "version"), Some("1.0".to_string()));
}

#[test]
fn value_without_quotes_ends_at_white_space() {
    assert_eq!(attribute_value("a StructVersion=2 b", "StructVersion"), Some("2".to_string()));
    assert_eq!(attribute_value("StructVersion=2\tb", "StructVersion"), Some("2".to_string()));
    assert_eq!(attribute_value("StructVersion=2", "StructVersion"), Some("2".to_string()));
}

#[test]
fn absent_attribute_gives_nothing() {
    assert_eq!(attribute_value("<CheatTable>", "encoding"), None);
    assert_eq!(attribute_value("", "encoding"), None);
    assert_eq!(attribute_value("encoding", "encoding"), None);
    assert_eq!(attribute_value("Encoding=1", "encoding"), None);
}

#[test]
fn white_space_before_the_value_is_passed_over() {
    assert_eq!(attribute_value("encoding=  abc def", "encoding"), Some("abc".to_string()));
}

#[test]
fn no_word_after_the_name_gives_nothing() {
    assert_eq!(attribute_value("encoding=", "encoding"), None);
    assert_eq!(attribute_value("encoding=   ", "encoding"), None);
}

#[test]
fn every_quote_at_the_two_ends_is_taken_off() {
    assert_eq!(attribute_value("a=\"\"x\"y\"\"", "a"), Some("x\"y".to_string()));
    assert_eq!(attribute_value("a=\"\"", "a"), Some(String::new()));
}

#[test]
fn only_the_first_occurrence_counts() {
    assert_eq!(attribute_value("a=1 a=2", "a"), Some("1".to_string()));
    assert_eq!(attribute_value("a=  a=2", "a"), Some("a=2".to_string()));
}

#[test]
fn a_name_inside_other_text_is_found_too() {
    assert_eq!(attribute_value("xencoding=7 y", "encoding"), Some("7".to_string()));
}

#[test]
fn names_suffixes_and_labels() {
    assert_eq!(Attribute::Encoding.name_text(), "encoding");
    assert_eq!(Attribute::TableVersion.name_text(), "CheatEngineTableVersion");
    assert_eq!(Attribute::StructureVersion.name_text(), "StructVersion");
    assert_eq!(Attribute::Encoding.suffix(), 3);
    assert_eq!(Attribute::TableVersion.suffix(), 2);
    assert_eq!(Attribute::StructureVersion.suffix(), 2);
    assert_eq!(Attribute::Encoding.label_text(), "Encoding: ");
    assert_eq!(Attribute::TableVersion.label_text(), "CT Version: v");
    assert_eq!(Attribute::StructureVersion.label_text(), "Structures Version: v");
}

#[test]
fn read_takes_the_suffix_from_the_value() {
    let line = to_chars("<?xml version=\"1.0\" encoding=\"utf-8\"?>");
    assert_eq!(Attribute::Encoding.read(&line, 1), Ok(Some("utf-8".to_string())));
    let table = to_chars("<CheatTable CheatEngineTableVersion=\"45\">");
    assert_eq!(Attribute::TableVersion.read(&table, 2), Ok(Some("45".to_string())));
    let structures = to_chars("<Structures StructVersion=\"2\">");
    assert_eq!(Attribute::StructureVersion.read(&structures, 3), Ok(Some("2".to_string())));
}

#[test]
fn read_gives_nothing_for_a_line_without_the_attribute() {
    assert_eq!(Attribute::Encoding.read(&to_chars("<CheatTable>"), 1), Ok(None));
    assert_eq!(Attribute::TableVersion.read(&to_chars("encoding=abcd"), 1), Ok(None));
}

#[test]
fn read_counts_characters_not_bytes() {
    assert_eq!(Attribute::Encoding.read(&to_chars("encoding=üüéé"), 1), Ok(Some("ü".to_string())));
}

#[test]
fn a_value_as_long_as_its_suffix_is_empty_without_it() {
    assert_eq!(Attribute::Encoding.read(&to_chars("encoding=abc"), 1), Ok(Some(String::new())));
    assert_eq!(Attribute::TableVersion.read(&to_chars("CheatEngineTableVersion=ab"), 1), Ok(Some(String::new())));
}

#[test]
fn a_value_shorter_than_its_suffix_is_an_error() {
    assert_eq!(
        Attribute::Encoding.read(&to_chars("encoding=ab"), 7),
        Err(SuffixError { attribute: Attribute::Encoding, line: 7, length: 2 })
    );
    assert_eq!(
        Attribute::TableVersion.read(&to_chars("CheatEngineTableVersion=\"\""), 8),
        Err(SuffixError { attribute: Attribute::TableVersion, line: 8, length: 0 })
    );
    assert_eq!(
        Attribute::StructureVersion.read(&to_chars("StructVersion=1 2 3"), 9),
        Err(SuffixError { attribute: Attribute::StructureVersion, line: 9, length: 1 })
    );
}

#[test]
fn the_error_says_where_and_what() {
    let error = SuffixError { attribute: Attribute::Encoding, line: 12, length: 2 };
    assert_eq!(
        error.describe(),
        "line 12: the value of encoding has 2 characters, fewer than the 3 that are taken from its end"
    );
}
