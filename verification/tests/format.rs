use ct_snooper::format::{centered_text, digit_char, push_decimal, push_repeated};

fn decimal_text(n: u64) -> String {
    let mut text = String::new();
    push_decimal(&mut text, n);
    text
}

#[test]
fn push_decimal_writes_the_number_as_the_standard_library_does() {
    let numbers = [0u64, 1, 7, 9, 10, 11, 45, 99, 100, 101, 1234567890, u64::MAX - 1, u64::MAX];
    for n in numbers {
        assert_eq!(decimal_text(n), n.to_string());
    }
}

#[test]
fn push_decimal_of_forty_five() {
    assert_eq!(decimal_text(45), "45");
    assert_eq!(decimal_text(0), "0");
    assert_eq!(decimal_text(1000), "1000");
}

#[test]
fn push_decimal_keeps_what_was_there() {
    let mut text = String::from("line ");
    push_decimal(&mut text, 120);
    assert_eq!(text, "line 120");
}

#[test]
fn digit_char_gives_the_ten_digits() {
    let digits = ['0', '1', '2', '3', '4', '5', '6', '7', '8', '9'];
    for d in 0u8..10 {
        assert_eq!(digit_char(d), digits[d as usize]);
    }
}

#[test]
fn push_repeated_appends_that_many_copies() {
    let mut text = String::from("a");
    push_repeated(&mut text, '-', 3);
    assert_eq!(text, "a---");
    push_repeated(&mut text, '-', 0);
    assert_eq!(text, "a---");
}

#[test]
fn centered_text_puts_the_odd_column_on_the_right() {
    assert_eq!(centered_text("ab", 5, '-'), "-ab--");
    assert_eq!(centered_text("ab", 6, '-'), "--ab--");
    assert_eq!(centered_text("Summary", 10, '-'), "-Summary--");
}

#[test]
fn centered_text_leaves_a_text_that_fills_the_width() {
    assert_eq!(centered_text("Summary", 7, '-'), "Summary");
    assert_eq!(centered_text("Summary", 3, '-'), "Summary");
    assert_eq!(centered_text("Summary", 0, '-'), "Summary");
    assert_eq!(centered_text("", 0, '-'), "");
}

#[test]
fn centered_text_agrees_with_the_standard_formatter() {
    let texts = ["", "-", "Summary", "2024-05-06 07:08:09", "né"];
    for text in texts {
        for width in 0usize..30 {
            assert_eq!(centered_text(text, width, '-'), format!("{:-^width$}", text));
        }
    }
}
