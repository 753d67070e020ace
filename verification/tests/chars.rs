use ct_snooper::chars::{
    leading_run, push_chars, to_chars, trailing_run, trim_range, whitespace, word_range, CharClass,
};

#[test]
fn whitespace_agrees_with_the_standard_library_on_every_character() {
    let mut code: u32 = 0;
    while code <= 0x10FFFF {
        if let Some(c) = char::from_u32(code) {
            assert_eq!(whitespace(c), c.is_whitespace(), "U+{:04X}", code);
        }
        code += 1;
    }
}

#[test]
fn to_chars_keeps_every_character_in_order() {
    assert_eq!(to_chars("aé\u{3000}z"), vec!['a', 'é', '\u{3000}', 'z']);
    assert_eq!(to_chars(""), Vec::<char>::new());
}

#[test]
fn push_chars_appends_the_range_and_nothing_else() {
    let chars = to_chars("0123456");
    let mut text = String::from("x");
    push_chars(&mut text, &chars, 2, 5);
    assert_eq!(text, "x234");
    push_chars(&mut text, &chars, 3, 3);
    assert_eq!(text, "x234");
}

#[test]
fn class_membership() {
    assert!(CharClass::Whitespace.holds('\t'));
    assert!(!CharClass::Whitespace.holds('a'));
    assert!(CharClass::Visible.holds('a'));
    assert!(!CharClass::Visible.holds('\u{2028}'));
    assert!(CharClass::Quote.holds('"'));
    assert!(!CharClass::Quote.holds('\''));
}

#[test]
fn leading_run_stops_at_the_first_character_outside_the_class() {
    let chars = to_chars("  \tab  ");
    assert_eq!(leading_run(&chars, 0, chars.len(), CharClass::Whitespace), 3);
    assert_eq!(leading_run(&chars, 3, chars.len(), CharClass::Whitespace), 0);
    assert_eq!(leading_run(&chars, 3, chars.len(), CharClass::Visible), 2);
    assert_eq!(leading_run(&chars, 0, 2, CharClass::Whitespace), 2);
    assert_eq!(leading_run(&chars, 4, 4, CharClass::Visible), 0);
}

#[test]
fn trailing_run_stops_at_the_last_character_outside_the_class() {
    let chars = to_chars("\"\"a\"\"\"");
    assert_eq!(trailing_run(&chars, 0, chars.len(), CharClass::Quote), 3);
    assert_eq!(trailing_run(&chars, 0, 3, CharClass::Quote), 0);
    assert_eq!(trailing_run(&chars, 0, 2, CharClass::Quote), 2);
}

#[test]
fn word_range_passes_over_white_space_and_ends_before_the_next() {
    let chars = to_chars("  ab cd");
    assert_eq!(word_range(&chars, 0, chars.len()), (2, 4));
    assert_eq!(word_range(&chars, 4, chars.len()), (5, 7));
    assert_eq!(word_range(&chars, 0, 2), (2, 2));
    let blank = to_chars(" \n ");
    assert_eq!(word_range(&blank, 0, blank.len()), (3, 3));
}

#[test]
fn trim_range_takes_every_character_of_the_class_from_both_ends() {
    let chars = to_chars("\"\"a\"b\"\"");
    assert_eq!(trim_range(&chars, 0, chars.len(), CharClass::Quote), (2, 5));
    let quotes = to_chars("\"\"\"");
    let (start, end) = trim_range(&quotes, 0, quotes.len(), CharClass::Quote);
    assert_eq!(start, end);
    let spaced = to_chars(" y \n");
    assert_eq!(trim_range(&spaced, 0, spaced.len(), CharClass::Whitespace), (1, 2));
}
