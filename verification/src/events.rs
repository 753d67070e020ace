//! What the scan of one line reports, and the text of each report.

use vstd::prelude::*;
use vstd::string::StringExecFns;
use crate::attribute::{Attribute, Declaration, SuffixError};
use crate::chars::texts;
use crate::format::{decimal, push_decimal};
use crate::tags::{tag_of, ScriptKind, Tag};

verus! {

/// One finding of the scan.
pub enum Event {
    /// A line declares an attribute.
    Declared { attribute: Attribute, value: Seq<char> },
    /// Line number `line` opens a script block.
    Script { kind: ScriptKind, line: nat },
    /// Line number `line` names a structure, the `ordinal`-th of the scan.
    Structure { ordinal: nat, line: nat },
}

impl Event {
    /// The message that reports the finding.
    pub open spec fn message(self) -> Seq<char> {
        match self {
            Event::Declared { attribute, value } => attribute.label() + value,
            Event::Script { kind, line } => "Found "@ + kind.name() + " on line "@ + decimal(line),
            Event::Structure { ordinal, line } => "Found Structure no. "@ + decimal(ordinal)
                + " on line "@ + decimal(line),
        }
    }
}

/// The messages of `events`, one for one.
pub open spec fn messages(events: Seq<Event>) -> Seq<Seq<char>> {
    Seq::new(events.len(), |i: int| events[i].message())
}

/// A message that is added for a finding keeps messages and findings in step.
pub proof fn lemma_message_added(strings: Seq<String>, events: Seq<Event>, text: String, event: Event)
    requires
        texts(strings) == messages(events),
        text@ == event.message(),
    ensures
        texts(strings.push(text)) == messages(events.push(event)),
{
    assert(texts(strings).len() == strings.len());
    assert(messages(events).len() == events.len());
    assert forall|i: int| 0 <= i < strings.len() + 1 implies texts(strings.push(text))[i]
        == messages(events.push(event))[i] by {
        if i < strings.len() {
            assert(texts(strings)[i] == strings[i]@);
            assert(messages(events)[i] == events[i].message());
        }
    }
    assert(texts(strings.push(text)) =~= messages(events.push(event)));
}

/// Messages that are added for findings keep messages and findings in step.
pub proof fn lemma_messages_added(
    strings: Seq<String>,
    events: Seq<Event>,
    more_strings: Seq<String>,
    more_events: Seq<Event>,
)
    requires
        texts(strings) == messages(events),
        texts(more_strings) == messages(more_events),
    ensures
        texts(strings + more_strings) == messages(events + more_events),
{
    assert(texts(strings).len() == strings.len());
    assert(messages(events).len() == events.len());
    assert(texts(more_strings).len() == more_strings.len());
    assert(messages(more_events).len() == more_events.len());
    assert forall|i: int| 0 <= i < strings.len() + more_strings.len() implies texts(
        strings + more_strings,
    )[i] == messages(events + more_events)[i] by {
        if i < strings.len() {
            assert(texts(strings)[i] == strings[i]@);
            assert(messages(events)[i] == events[i].message());
        } else {
            let j = i - strings.len();
            assert(texts(more_strings)[j] == more_strings[j]@);
            assert(messages(more_events)[j] == more_events[j].message());
        }
    }
    assert(texts(strings + more_strings) =~= messages(events + more_events));
}

/// What the scan of one line comes to: its findings in the order in which
/// they are reported, and the error that ended it, if one did.
pub struct LineOutcome {
    /// The findings, in the order in which they are reported.
    pub events: Seq<Event>,
    /// The error that ended the scan of the line.
    pub failure: Option<SuffixError>,
}

/// The attributes in the order in which a line is read for them.
pub open spec fn attribute_order() -> Seq<Attribute> {
    seq![Attribute::Encoding, Attribute::TableVersion, Attribute::StructureVersion]
}

/// What line number `number` declares of the attributes of `order`, taken in
/// turn. A value that is too short ends the reading: the attributes before it
/// are reported, those after it are not looked at.
pub open spec fn declarations(line: Seq<char>, number: nat, order: Seq<Attribute>) -> LineOutcome
    decreases order.len(),
{
    if order.len() == 0 {
        LineOutcome { events: seq![], failure: None }
    } else {
        match order[0].declared(line) {
            Declaration::Short(length) => LineOutcome {
                events: seq![],
                failure: Some(
                    SuffixError { attribute: order[0], line: number as u64, length: length as usize },
                ),
            },
            Declaration::Absent => declarations(line, number, order.drop_first()),
            Declaration::Value(value) => {
                let rest = declarations(line, number, order.drop_first());
                LineOutcome {
                    events: seq![Event::Declared { attribute: order[0], value }] + rest.events,
                    failure: rest.failure,
                }
            },
        }
    }
}

/// The finding that the tag of line number `number` makes, where
/// `structures` structures were found before it.
pub open spec fn tagging(line: Seq<char>, number: nat, structures: nat) -> Seq<Event> {
    match tag_of(line) {
        None => seq![],
        Some(Tag::Script(kind)) => seq![Event::Script { kind, line: number }],
        Some(Tag::Structure) => seq![Event::Structure { ordinal: structures + 1, line: number }],
    }
}

/// The scan of line number `number`, where `structures` structures were found
/// before it: the attributes first, then the tag, unless a value was too short.
pub open spec fn line_outcome(line: Seq<char>, number: nat, structures: nat) -> LineOutcome {
    let declared = declarations(line, number, attribute_order());
    if declared.failure is Some {
        declared
    } else {
        LineOutcome { events: declared.events + tagging(line, number, structures), failure: None }
    }
}

/// The message that reports the value of an attribute.
pub fn declared_message(attribute: Attribute, value: &str) -> (text: String)
    ensures
        text@ == (Event::Declared { attribute, value: value@ }).message(),
{
    let mut text = String::from_str(attribute.label_text());
    text.append(value);
    text
}

/// The message that reports a script block on line number `line`.
pub fn script_message(kind: ScriptKind, line: u64) -> (text: String)
    ensures
        text@ == (Event::Script { kind, line: line as nat }).message(),
{
    let mut text = String::from_str("Found ");
    text.append(kind.name_text());
    text.append(" on line ");
    push_decimal(&mut text, line);
    text
}

/// The message that reports the `ordinal`-th structure on line number `line`.
pub fn structure_message(ordinal: u64, line: u64) -> (text: String)
    ensures
        text@ == (Event::Structure { ordinal: ordinal as nat, line: line as nat }).message(),
{
    let mut text = String::from_str("Found Structure no. ");
    push_decimal(&mut text, ordinal);
    text.append(" on line ");
    push_decimal(&mut text, line);
    text
}

impl SuffixError {
    /// The description of the error.
    pub open spec fn description(self) -> Seq<char> {
        "line "@ + decimal(self.line as nat) + ": the value of "@ + self.attribute.name() + " has "@
            + decimal(self.length as nat) + " characters, fewer than the "@ + decimal(
            self.attribute.suffix_len(),
        ) + " that are taken from its end"@
    }

    /// Describes the error: the line, the attribute, the length of its value
    /// and the length that was needed.
    pub fn describe(&self) -> (text: String)
        ensures
            text@ == self.description(),
    {
        let mut text = String::from_str("line ");
        push_decimal(&mut text, self.line);
        text.append(": the value of ");
        text.append(self.attribute.name_text());
        text.append(" has ");
        push_decimal(&mut text, self.length as u64);
        text.append(" characters, fewer than the ");
        push_decimal(&mut text, self.attribute.suffix() as u64);
        text.append(" that are taken from its end");
        text
    }
}

} // verus!
