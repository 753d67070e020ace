use ct_snooper::chars::to_chars;
use ct_snooper::search::{contains, find, matches_at};

#[test]
fn find_gives_the_leftmost_position() {
    assert_eq!(find(&to_chars("abcabc"), &to_chars("bc")), Some(1));
    assert_eq!(find(&to_chars("abcabc"), &to_chars("abcabc")), Some(0));
    assert_eq!(find(&to_chars("aab"), &to_chars("ab")), Some(1));
    assert_eq!(find(&to_chars("xxab"), &to_chars("ab")), Some(2));
}

#[test]
fn find_gives_nothing_where_the_pattern_does_not_stand() {
    assert_eq!(find(&to_chars("abcabc"), &to_chars("cb")), None);
    assert_eq!(find(&to_chars("ab"), &to_chars("abc")), None);
    assert_eq!(find(&to_chars(""), &to_chars("a")), None);
}

#[test]
fn the_empty_pattern_stands_at_the_start() {
    assert_eq!(find(&to_chars("abc"), &to_chars("")), Some(0));
    assert_eq!(find(&to_chars(""), &to_chars("")), Some(0));
}

#[test]
fn find_counts_characters_not_bytes() {
    assert_eq!(find(&to_chars("ééab"), &to_chars("ab")), Some(2));
}

#[test]
fn find_agrees_with_the_standard_library_on_plain_text() {
    let texts = ["", "a", "<Code>", "x<LuaScript>y", "Structure Name=\"a\"", "aaaa", "abab"];
    let patterns = ["", "a", "ab", "<Code", "<LuaScript", "Structure Name", "aa", "ba"];
    for text in texts {
        for pattern in patterns {
            assert_eq!(find(&to_chars(text), &to_chars(pattern)), text.find(pattern));
            assert_eq!(contains(&to_chars(text), &to_chars(pattern)), text.contains(pattern));
        }
    }
}

#[test]
fn matches_at_looks_at_one_position_only() {
    let text = to_chars("abcabc");
    let pattern = to_chars("bc");
    assert!(matches_at(&text, &pattern, 1));
    assert!(matches_at(&text, &pattern, 4));
    assert!(!matches_at(&text, &pattern, 0));
    assert!(!matches_at(&text, &pattern, 5));
    assert!(!matches_at(&text, &pattern, 6));
    assert!(!matches_at(&text, &pattern, usize::MAX));
    assert!(matches_at(&text, &to_chars(""), 6));
    assert!(!matches_at(&text, &to_chars(""), 7));
}
