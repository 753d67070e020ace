//! The question that follows a scan which found structures, and the answers
//! to it.

use vstd::prelude::*;
use vstd::string::StringExecFns;
use crate::chars::{texts, to_chars, trim_range, trimmed, CharClass};
use crate::format::{centered, centered_text};

verus! {

/// What the user answered.
#[derive(Clone, Copy, Debug, PartialEq, Eq, Structural)]
pub enum Answer {
    /// Nothing but white space.
    Empty,
    /// The letter `y`, with or without white space around it.
    Yes,
    /// Anything else.
    Other,
}

/// The question, under a rule of `width` characters.
pub open spec fn prompt(width: nat) -> Seq<Seq<char>> {
    seq![centered("-"@, width, '-'), "Would you like to see all found structures? [y/n]"@]
}

/// The answer that `input` gives, white space at its two ends set aside.
pub open spec fn answer_of(input: Seq<char>) -> Answer {
    let answer = trimmed(input, CharClass::Whitespace);
    if answer.len() == 0 {
        Answer::Empty
    } else if answer == seq!['y'] {
        Answer::Yes
    } else {
        Answer::Other
    }
}

/// The lines that ask the question.
pub fn prompt_lines(width: usize) -> (lines: Vec<String>)
    ensures
        texts(lines@) == prompt(width as nat),
{
    let mut lines: Vec<String> = Vec::new();
    lines.push(centered_text("-", width, '-'));
    lines.push(String::from_str("Would you like to see all found structures? [y/n]"));
    assert(texts(lines@) =~= prompt(width as nat));
    lines
}

/// The answer that the line `input` gives.
pub fn read_answer(input: &str) -> (answer: Answer)
    ensures
        answer == answer_of(input@),
{
    let chars = to_chars(input);
    assert(chars@.subrange(0, chars@.len() as int) =~= input@);
    let (start, end) = trim_range(chars.as_slice(), 0, chars.len(), CharClass::Whitespace);
    let ghost answer = chars@.subrange(start as int, end as int);
    if start == end {
        Answer::Empty
    } else if end - start == 1 && chars[start] == 'y' {
        assert(answer =~= seq!['y']);
        Answer::Yes
    } else {
        assert(answer != seq!['y']) by {
            if answer.len() == 1 {
                assert(answer[0] == chars@[start as int]);
                assert(seq!['y'][0] == 'y');
            }
        }
        Answer::Other
    }
}

} // verus!
