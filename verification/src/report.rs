//! The report of a scan as the program keeps it.

use vstd::prelude::*;
use vstd::string::StringExecFns;
use crate::attribute::{Attribute, SuffixError};
use crate::chars::{text_of, texts, to_chars};
use crate::clock::{format_local_time, local_time_text};
use crate::events::{
    attribute_order, declarations, declared_message, lemma_message_added, lemma_messages_added,
    messages, script_message, structure_message, tagging, Event,
};
use crate::format::{centered_text, push_decimal};
use crate::laws::{lemma_scan_counts, lemma_scan_stops};
use crate::model::{ReportView, ScanOutcome, TABLE_VERSION};
use crate::prompt::{read_answer, Answer};
use crate::session::{display_file_name, display_name};
use crate::tags::{classify, Tag};

verus! {

/// What a scan hands out: the messages to report, in order, and the error
/// that ended it, if one did.
pub struct Scan {
    /// The messages, in the order in which they are to be reported.
    pub messages: Vec<String>,
    /// The error that ended the scan.
    pub failure: Option<SuffixError>,
}

/// The report of one scan.
pub struct Report {
    timestamp: String,
    file_name: String,
    encoding: Option<String>,
    table_version: Option<String>,
    structure_version: Option<String>,
    line_count: u64,
    structures: Vec<String>,
    scripts: Vec<String>,
}

impl View for Report {
    type V = ReportView;

    closed spec fn view(&self) -> ReportView {
        ReportView {
            timestamp: self.timestamp@,
            file_name: self.file_name@,
            encoding: text_of(self.encoding),
            table_version: text_of(self.table_version),
            structure_version: text_of(self.structure_version),
            line_count: self.line_count as nat,
            structures: texts(self.structures@),
            scripts: texts(self.scripts@),
        }
    }
}

impl Report {
    #[verifier::type_invariant]
    spec fn well_formed(self) -> bool {
        self.structures@.len() + self.scripts@.len() <= self.line_count
    }

    /// A report with no line read yet.
    pub fn new(timestamp: &str, file_name: &str) -> (report: Report)
        ensures
            report@ == ReportView::start(timestamp@, file_name@),
    {
        let report = Report {
            timestamp: String::from_str(timestamp),
            file_name: String::from_str(file_name),
            encoding: None,
            table_version: None,
            structure_version: None,
            line_count: 0,
            structures: Vec::new(),
            scripts: Vec::new(),
        };
        assert(report@.structures =~= seq![]);
        assert(report@.scripts =~= seq![]);
        report
    }

    /// The report of a scan that begins at the given moment: `unix_seconds`
    /// seconds after the start of 1970 in universal time, where the clocks
    /// are `utc_offset_seconds` seconds ahead of it. The report carries the
    /// local time of the moment and the name under which the file is shown.
    /// There is none where the moment cannot be written as a date and a time.
    pub fn begin(unix_seconds: i64, utc_offset_seconds: i32, file_name: Option<&str>) -> (report:
        Option<Report>)
        ensures
            match local_time_text(unix_seconds, utc_offset_seconds) {
                Some(timestamp) => report matches Some(begun) && begun@ == ReportView::start(
                    timestamp,
                    display_name(
                        match file_name {
                            Some(name) => Some(name@),
                            None => None,
                        },
                    ),
                ),
                None => report is None,
            },
    {
        match format_local_time(unix_seconds, utc_offset_seconds) {
            Some(timestamp) => {
                let name = display_file_name(file_name);
                Some(Report::new(timestamp.as_str(), name.as_str()))
            },
            None => None,
        }
    }

    /// How many lines were read. No line is counted twice, so the two lists
    /// together are no longer than that.
    pub fn line_count(&self) -> (count: u64)
        ensures
            count == self@.line_count,
            self@.consistent(),
    {
        proof {
            use_type_invariant(self);
        }
        self.line_count
    }

    /// How many lines name a structure.
    pub fn structure_count(&self) -> (count: usize)
        ensures
            count == self@.structures.len(),
    {
        self.structures.len()
    }

    /// How many lines open a script block.
    pub fn script_count(&self) -> (count: usize)
        ensures
            count == self@.scripts.len(),
    {
        self.scripts.len()
    }

    /// The lines that name a structure, in the order in which they were read.
    pub fn structures(&self) -> (lines: &Vec<String>)
        ensures
            texts(lines@) == self@.structures,
    {
        &self.structures
    }

    /// The lines that open a script block, in the order in which they were read.
    pub fn scripts(&self) -> (lines: &Vec<String>)
        ensures
            texts(lines@) == self@.scripts,
    {
        &self.scripts
    }

    /// The moment of the scan, as the report shows it.
    pub fn timestamp(&self) -> (text: &str)
        ensures
            text@ == self@.timestamp,
    {
        self.timestamp.as_str()
    }

    /// The name of the file that is scanned.
    pub fn file_name(&self) -> (text: &str)
        ensures
            text@ == self@.file_name,
    {
        self.file_name.as_str()
    }

    /// The declared value of `attribute`, if a line declared one.
    pub fn declared(&self, attribute: Attribute) -> (value: Option<&String>)
        ensures
            match value {
                Some(text) => self@.declared(attribute) == Some(text@),
                None => self@.declared(attribute) is None,
            },
    {
        match attribute {
            Attribute::Encoding => self.encoding.as_ref(),
            Attribute::TableVersion => self.table_version.as_ref(),
            Attribute::StructureVersion => self.structure_version.as_ref(),
        }
    }

    /// Whether the user is asked if the structures shall be listed.
    pub fn asks(&self) -> (b: bool)
        ensures
            b == self@.asks(),
    {
        self.structures.len() > 0
    }

    /// The lines that open the report, for a rule of `width` characters.
    pub fn header(&self, width: usize) -> (lines: Vec<String>)
        ensures
            texts(lines@) == self@.header(width as nat),
    {
        let mut lines: Vec<String> = Vec::new();
        lines.push(centered_text(self.timestamp.as_str(), width, '-'));
        let mut name = String::from_str("Filename: ");
        name.append(self.file_name.as_str());
        lines.push(name);
        let mut made = String::from_str("Made for CT Version ");
        push_decimal(&mut made, TABLE_VERSION);
        lines.push(made);
        assert(texts(lines@) =~= self@.header(width as nat));
        lines
    }

    /// The lines that close the report, for a rule of `width` characters.
    pub fn summary(&self, width: usize) -> (lines: Vec<String>)
        ensures
            texts(lines@) == self@.summary(width as nat),
    {
        let mut lines: Vec<String> = Vec::new();
        lines.push(centered_text("Summary", width, '-'));
        let mut checked = String::from_str("Total lines checked: ");
        push_decimal(&mut checked, self.line_count);
        lines.push(checked);
        let mut structures = String::from_str("Total amount of Structures found: ");
        push_decimal(&mut structures, self.structures.len() as u64);
        lines.push(structures);
        let mut scripts = String::from_str("Total amount of Scripts/Code found: ");
        push_decimal(&mut scripts, self.scripts.len() as u64);
        lines.push(scripts);
        if self.structures.len() == 0 {
            lines.push(String::from_str("No structures found."));
        }
        assert(texts(lines@) =~= self@.summary(width as nat));
        lines
    }

    /// What is printed in reply to the answer `input`.
    pub fn reply(&self, input: &str) -> (lines: Vec<String>)
        ensures
            texts(lines@) == self@.reply(input@),
    {
        let mut lines: Vec<String> = Vec::new();
        match read_answer(input) {
            Answer::Empty => {
                lines.push(String::from_str("Input was empty, return"));
                assert(texts(lines@) =~= self@.reply(input@));
            },
            Answer::Yes => {
                let mut i: usize = 0;
                while i < self.structures.len()
                    invariant
                        i <= self.structures@.len(),
                        lines@.len() == i,
                        texts(lines@) == texts(self.structures@).take(i as int),
                    decreases self.structures@.len() - i,
                {
                    let ghost before = lines@;
                    lines.push(self.structures[i].clone());
                    i += 1;
                    assert forall|k: int| 0 <= k < i implies texts(lines@)[k] == texts(
                        self.structures@,
                    ).take(i as int)[k] by {
                        if k < i - 1 {
                            assert(texts(before)[k] == texts(self.structures@).take(i - 1)[k]);
                        }
                    }
                    assert(texts(lines@) =~= texts(self.structures@).take(i as int));
                }
                assert(texts(self.structures@).take(i as int) =~= texts(self.structures@));
            },
            Answer::Other => {
                assert(texts(lines@) =~= self@.reply(input@));
            },
        }
        lines
    }

    /// Scans `lines` as the next lines of the input, one after the other,
    /// and stops after the first that fails. Hands out the messages of all
    /// the lines that were scanned, and the error if there was one.
    pub fn scan_lines(&mut self, lines: &[String]) -> (scan: Scan)
        requires
            old(self)@.line_count + lines@.len() <= u64::MAX,
        ensures
            final(self)@ == old(self)@.scan(texts(lines@)).report,
            texts(scan.messages@) == messages(old(self)@.scan(texts(lines@)).events),
            scan.failure == old(self)@.scan(texts(lines@)).failure,
    {
        let ghost input = texts(lines@);
        let mut all: Vec<String> = Vec::new();
        let ghost mut events: Seq<Event> = seq![];
        assert(input.take(0) =~= Seq::<Seq<char>>::empty());
        assert(texts(all@) =~= messages(events));
        let mut i: usize = 0;
        while i < lines.len()
            invariant
                i <= lines@.len(),
                input == texts(lines@),
                old(self)@.line_count + lines@.len() <= u64::MAX,
                old(self)@.scan(input.take(i as int)) == (ScanOutcome {
                    report: self@,
                    events,
                    failure: None,
                }),
                texts(all@) == messages(events),
            decreases lines@.len() - i,
        {
            let ghost before = self@;
            proof {
                lemma_scan_counts(old(self)@, input.take(i as int));
                assert(input.take(i + 1).drop_last() =~= input.take(i as int));
                assert(input.take(i + 1).last() == lines@[i as int]@);
            }
            let scan = self.scan_line(lines[i].as_str());
            let mut batch = scan.messages;
            proof {
                lemma_messages_added(all@, events, batch@, before.next_outcome(lines@[i as int]@).events);
                events = events + before.next_outcome(lines@[i as int]@).events;
            }
            all.append(&mut batch);
            if scan.failure.is_some() {
                proof {
                    lemma_scan_stops(old(self)@, input, i + 1);
                }
                return Scan { messages: all, failure: scan.failure };
            }
            i += 1;
        }
        assert(input.take(i as int) =~= input);
        Scan { messages: all, failure: None }
    }

    /// Takes down the declared value of `attribute`.
    fn declare(&mut self, attribute: Attribute, value: String)
        ensures
            forall|line: Seq<char>|
                final(self)@ == #[trigger] old(self)@.record(
                    Event::Declared { attribute, value: value@ },
                    line,
                ),
            final(self).structures == old(self).structures,
            final(self).scripts == old(self).scripts,
            final(self).line_count == old(self).line_count,
    {
        proof {
            use_type_invariant(&*self);
        }
        match attribute {
            Attribute::Encoding => {
                self.encoding = Some(value);
            },
            Attribute::TableVersion => {
                self.table_version = Some(value);
            },
            Attribute::StructureVersion => {
                self.structure_version = Some(value);
            },
        }
    }

    /// Scans `line` as the next line of the input: counts it, takes down what
    /// it declares and what it is counted as, and hands out the messages that
    /// say so. Where a declared value is too short, the scan of the line ends
    /// there, with the messages up to that point and the error.
    pub fn scan_line(&mut self, line: &str) -> (scan: Scan)
        requires
            old(self)@.line_count < u64::MAX,
        ensures
            final(self)@ == old(self)@.after_line(line@),
            texts(scan.messages@) == messages(old(self)@.next_outcome(line@).events),
            scan.failure == old(self)@.next_outcome(line@).failure,
    {
        proof {
            use_type_invariant(&*self);
        }
        let chars = to_chars(line);
        let number: u64 = self.line_count + 1;
        self.line_count = number;
        let mut told: Vec<String> = Vec::new();
        let ghost mut events: Seq<Event> = seq![];
        let order: [Attribute; 3] = [
            Attribute::Encoding,
            Attribute::TableVersion,
            Attribute::StructureVersion,
        ];
        assert(order@ =~= attribute_order());
        assert(order@.skip(0) =~= order@);
        assert(texts(told@) =~= messages(events));
        let mut i: usize = 0;
        while i < 3
            invariant
                i <= 3,
                order@ == attribute_order(),
                chars@ == line@,
                number == old(self)@.line_count + 1,
                self@ == old(self)@.counted().record_all(events, line@),
                self.structures@ == old(self).structures@,
                self.scripts@ == old(self).scripts@,
                self.line_count == number,
                old(self).well_formed(),
                texts(told@) == messages(events),
                ({
                    let rest = declarations(line@, number as nat, order@.skip(i as int));
                    let whole = declarations(line@, number as nat, order@);
                    whole.events == events + rest.events && whole.failure == rest.failure
                }),
            decreases 3 - i,
        {
            assert(order@.skip(i as int).drop_first() =~= order@.skip(i + 1));
            match order[i].read(chars.as_slice(), number) {
                Err(error) => {
                    assert(events + Seq::<Event>::empty() =~= events);
                    return Scan { messages: told, failure: Some(error) };
                },
                Ok(None) => {},
                Ok(Some(value)) => {
                    let ghost event = Event::Declared { attribute: order[i as int], value: value@ };
                    let ghost before = self@;
                    let message = declared_message(order[i], value.as_str());
                    proof {
                        lemma_message_added(told@, events, message, event);
                    }
                    told.push(message);
                    self.declare(order[i], value);
                    proof {
                        assert(self@ == before.record(event, line@));
                        let rest = declarations(line@, number as nat, order@.skip(i + 1));
                        assert(events + (seq![event] + rest.events) =~= events.push(event)
                            + rest.events);
                        assert(events.push(event).drop_last() =~= events);
                        events = events.push(event);
                    }
                },
            }
            i += 1;
        }
        let ghost declared = events;
        let ghost before = self@;
        assert(declared + Seq::<Event>::empty() =~= declared);
        match classify(chars.as_slice()) {
            None => {},
            Some(Tag::Script(kind)) => {
                let message = script_message(kind, number);
                proof {
                    lemma_message_added(
                        told@,
                        events,
                        message,
                        Event::Script { kind, line: number as nat },
                    );
                }
                told.push(message);
                let mut scripts: Vec<String> = Vec::new();
                std::mem::swap(&mut scripts, &mut self.scripts);
                scripts.push(String::from_str(line));
                self.scripts = scripts;
                proof {
                    let event = Event::Script { kind, line: number as nat };
                    events = events.push(event);
                    assert(events.drop_last() =~= declared);
                    assert(self@.scripts =~= before.scripts.push(line@));
                    assert(self@ == before.record(event, line@));
                }
            },
            Some(Tag::Structure) => {
                let ordinal: u64 = self.structures.len() as u64 + 1;
                let message = structure_message(ordinal, number);
                proof {
                    lemma_message_added(
                        told@,
                        events,
                        message,
                        Event::Structure { ordinal: ordinal as nat, line: number as nat },
                    );
                }
                told.push(message);
                let mut structures: Vec<String> = Vec::new();
                std::mem::swap(&mut structures, &mut self.structures);
                structures.push(String::from_str(line));
                self.structures = structures;
                proof {
                    let event = Event::Structure { ordinal: ordinal as nat, line: number as nat };
                    events = events.push(event);
                    assert(events.drop_last() =~= declared);
                    assert(self@.structures =~= before.structures.push(line@));
                    assert(self@ == before.record(event, line@));
                }
            },
        }
        proof {
            assert(events =~= declared + tagging(
                line@,
                number as nat,
                old(self)@.structures.len(),
            ));
        }
        Scan { messages: told, failure: None }
    }
}

} // verus!
