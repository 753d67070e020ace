//! Header attributes: `name=value` pairs that a line may declare.

use vstd::prelude::*;
use crate::chars::{CharClass, first_word, push_chars, to_chars, trim_range, trimmed, word_range};
use crate::search::{find, first_occurrence};

verus! {

/// The value that `line` gives to `attribute`.
///
/// Only the leftmost `attribute=` counts. The value is the first word after
/// it, without the double quotes at its two ends; there is none when no word
/// follows.
pub open spec fn attribute_text(line: Seq<char>, attribute: Seq<char>) -> Option<Seq<char>> {
    let pattern = attribute.push('=');
    match first_occurrence(line, pattern) {
        Some(at) => {
            let word = first_word(line.skip(at + pattern.len()));
            if word.len() > 0 {
                Some(trimmed(word, CharClass::Quote))
            } else {
                None
            }
        },
        None => None,
    }
}

/// Where in `line` the value of the attribute `name` starts and ends.
fn value_range(line: &[char], name: &[char]) -> (range: Option<(usize, usize)>)
    ensures
        match range {
            Some((start, end)) => {
                &&& start <= end <= line@.len()
                &&& attribute_text(line@, name@) == Some(
                    line@.subrange(start as int, end as int),
                )
            },
            None => attribute_text(line@, name@) is None,
        },
{
    let mut pattern: Vec<char> = Vec::new();
    let mut i: usize = 0;
    while i < name.len()
        invariant
            i <= name@.len(),
            pattern@ == name@.take(i as int),
        decreases name@.len() - i,
    {
        pattern.push(name[i]);
        i += 1;
    }
    pattern.push('=');
    assert(pattern@ == name@.push('=')) by {
        assert(name@.take(name@.len() as int) =~= name@);
    }
    let total: usize = line.len();
    match find(line, pattern.as_slice()) {
        None => None,
        Some(at) => {
            let after: usize = at + pattern.len();
            assert(line@.skip(after as int) =~= line@.subrange(after as int, total as int));
            let (word_start, word_end) = word_range(line, after, total);
            if word_start == word_end {
                None
            } else {
                Some(trim_range(line, word_start, word_end, CharClass::Quote))
            }
        },
    }
}

/// The value that `line` gives to `attribute`, if it declares one.
pub fn attribute_value(line: &str, attribute: &str) -> (value: Option<String>)
    ensures
        match value {
            Some(text) => attribute_text(line@, attribute@) == Some(text@),
            None => attribute_text(line@, attribute@) is None,
        },
{
    let chars = to_chars(line);
    let name = to_chars(attribute);
    match value_range(chars.as_slice(), name.as_slice()) {
        Some((start, end)) => {
            let mut text = String::new();
            push_chars(&mut text, chars.as_slice(), start, end);
            Some(text)
        },
        None => None,
    }
}

/// The header attributes that the scanner reports.
#[derive(Clone, Copy, Debug, PartialEq, Eq, Structural)]
pub enum Attribute {
    /// The text encoding that the file declares.
    Encoding,
    /// The version of the table format.
    TableVersion,
    /// The version of the structure schema.
    StructureVersion,
}

/// A value that is shorter than the suffix which has to be taken from it.
#[derive(Clone, Copy, Debug, PartialEq, Eq, Structural)]
pub struct SuffixError {
    /// The attribute whose value is too short.
    pub attribute: Attribute,
    /// The number of the line that declares it, counted from one.
    pub line: u64,
    /// How many characters the value has.
    pub length: usize,
}

/// What a line says of one attribute.
pub enum Declaration {
    /// The line does not declare the attribute.
    Absent,
    /// The declared value, without its suffix.
    Value(Seq<char>),
    /// The declared value has only this many characters, fewer than its suffix.
    Short(nat),
}

/// `value` without its last `length` characters, where it has that many.
pub open spec fn without_suffix(value: Seq<char>, length: nat) -> Option<Seq<char>> {
    if value.len() >= length {
        Some(value.take(value.len() - length))
    } else {
        None
    }
}

impl Attribute {
    /// The name under which a line declares the attribute.
    pub open spec fn name(self) -> Seq<char> {
        match self {
            Attribute::Encoding => "encoding"@,
            Attribute::TableVersion => "CheatEngineTableVersion"@,
            Attribute::StructureVersion => "StructVersion"@,
        }
    }

    /// How many characters follow the value proper in the word that holds it:
    /// the closing quote and what closes the tag.
    pub open spec fn suffix_len(self) -> nat {
        match self {
            Attribute::Encoding => 3,
            Attribute::TableVersion => 2,
            Attribute::StructureVersion => 2,
        }
    }

    /// What the report puts before the value.
    pub open spec fn label(self) -> Seq<char> {
        match self {
            Attribute::Encoding => "Encoding: "@,
            Attribute::TableVersion => "CT Version: v"@,
            Attribute::StructureVersion => "Structures Version: v"@,
        }
    }

    /// What `line` says of the attribute.
    pub open spec fn declared(self, line: Seq<char>) -> Declaration {
        match attribute_text(line, self.name()) {
            None => Declaration::Absent,
            Some(value) => match without_suffix(value, self.suffix_len()) {
                Some(short) => Declaration::Value(short),
                None => Declaration::Short(value.len()),
            },
        }
    }

    /// The name under which a line declares the attribute.
    pub fn name_text(self) -> (text: &'static str)
        ensures
            text@ == self.name(),
    {
        match self {
            Attribute::Encoding => "encoding",
            Attribute::TableVersion => "CheatEngineTableVersion",
            Attribute::StructureVersion => "StructVersion",
        }
    }

    /// The length of the suffix that is taken from the value.
    pub fn suffix(self) -> (length: usize)
        ensures
            length == self.suffix_len(),
    {
        match self {
            Attribute::Encoding => 3,
            Attribute::TableVersion => 2,
            Attribute::StructureVersion => 2,
        }
    }

    /// What the report puts before the value.
    pub fn label_text(self) -> (text: &'static str)
        ensures
            text@ == self.label(),
    {
        match self {
            Attribute::Encoding => "Encoding: ",
            Attribute::TableVersion => "CT Version: v",
            Attribute::StructureVersion => "Structures Version: v",
        }
    }

    /// Reads the attribute from line number `number`: its value without the
    /// suffix, nothing where the line does not declare it, and an error where
    /// the value is shorter than the suffix.
    pub fn read(self, line: &[char], number: u64) -> (found: Result<Option<String>, SuffixError>)
        ensures
            match self.declared(line@) {
                Declaration::Absent => found == Ok::<Option<String>, SuffixError>(None),
                Declaration::Value(value) => found matches Ok(Some(text)) && text@ == value,
                Declaration::Short(length) => found == Err::<Option<String>, SuffixError>(
                    SuffixError { attribute: self, line: number, length: length as usize },
                ),
            },
    {
        let name = to_chars(self.name_text());
        match value_range(line, name.as_slice()) {
            None => Ok(None),
            Some((start, end)) => {
                let length: usize = end - start;
                if length < self.suffix() {
                    Err(SuffixError { attribute: self, line: number, length })
                } else {
                    let mut text = String::new();
                    push_chars(&mut text, line, start, end - self.suffix());
                    assert(text@ =~= line@.subrange(start as int, end as int).take(
                        length - self.suffix_len(),
                    ));
                    Ok(Some(text))
                }
            },
        }
    }
}

} // verus!
