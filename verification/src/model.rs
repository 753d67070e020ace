//! The report of a scan as a value, and how scanning changes it.

use vstd::prelude::*;
use crate::attribute::{Attribute, SuffixError};
use crate::events::{line_outcome, Event, LineOutcome};
use crate::format::{centered, decimal};
use crate::prompt::{answer_of, Answer};
use crate::tags::Category;

verus! {

/// The version of the table format that the scanner was made for.
pub const TABLE_VERSION: u64 = 45;

/// The report as a value: what was declared, how many lines were read, and
/// the lines that were counted, in the order in which they were read.
pub struct ReportView {
    /// The moment of the scan.
    pub timestamp: Seq<char>,
    /// The name under which the file is shown.
    pub file_name: Seq<char>,
    /// The encoding that was declared last.
    pub encoding: Option<Seq<char>>,
    /// The version of the table format that was declared last.
    pub table_version: Option<Seq<char>>,
    /// The version of the structure schema that was declared last.
    pub structure_version: Option<Seq<char>>,
    /// How many lines were read.
    pub line_count: nat,
    /// The lines that name a structure.
    pub structures: Seq<Seq<char>>,
    /// The lines that open a script block.
    pub scripts: Seq<Seq<char>>,
}

impl ReportView {
    /// The report before the first line.
    pub open spec fn start(timestamp: Seq<char>, file_name: Seq<char>) -> ReportView {
        ReportView {
            timestamp,
            file_name,
            encoding: None,
            table_version: None,
            structure_version: None,
            line_count: 0,
            structures: seq![],
            scripts: seq![],
        }
    }

    /// No line is counted twice: the lists together are no longer than the
    /// number of lines read.
    pub open spec fn consistent(self) -> bool {
        self.structures.len() + self.scripts.len() <= self.line_count
    }

    /// The report with one more line read.
    pub open spec fn counted(self) -> ReportView {
        ReportView { line_count: self.line_count + 1, ..self }
    }

    /// The report once `event`, found on `line`, is taken down: a declared
    /// value takes the place of an earlier one, a counted line goes to the
    /// end of its list.
    pub open spec fn record(self, event: Event, line: Seq<char>) -> ReportView {
        match event {
            Event::Declared { attribute: Attribute::Encoding, value } => ReportView {
                encoding: Some(value),
                ..self
            },
            Event::Declared { attribute: Attribute::TableVersion, value } => ReportView {
                table_version: Some(value),
                ..self
            },
            Event::Declared { attribute: Attribute::StructureVersion, value } => ReportView {
                structure_version: Some(value),
                ..self
            },
            Event::Script { .. } => ReportView { scripts: self.scripts.push(line), ..self },
            Event::Structure { .. } => ReportView {
                structures: self.structures.push(line),
                ..self
            },
        }
    }

    /// The report once each of `events`, found on `line`, is taken down in turn.
    pub open spec fn record_all(self, events: Seq<Event>, line: Seq<char>) -> ReportView
        decreases events.len(),
    {
        if events.len() == 0 {
            self
        } else {
            self.record_all(events.drop_last(), line).record(events.last(), line)
        }
    }

    /// What the scan of `line` as the next line comes to.
    pub open spec fn next_outcome(self, line: Seq<char>) -> LineOutcome {
        line_outcome(line, self.line_count + 1, self.structures.len())
    }

    /// The report after `line` was scanned as the next line.
    pub open spec fn after_line(self, line: Seq<char>) -> ReportView {
        self.counted().record_all(self.next_outcome(line).events, line)
    }

    /// The scan of `lines` as the next lines, one after the other, up to the
    /// end or to the first line that fails.
    pub open spec fn scan(self, lines: Seq<Seq<char>>) -> ScanOutcome
        decreases lines.len(),
    {
        if lines.len() == 0 {
            ScanOutcome { report: self, events: seq![], failure: None }
        } else {
            let before = self.scan(lines.drop_last());
            if before.failure is Some {
                before
            } else {
                let outcome = before.report.next_outcome(lines.last());
                ScanOutcome {
                    report: before.report.after_line(lines.last()),
                    events: before.events + outcome.events,
                    failure: outcome.failure,
                }
            }
        }
    }

    /// The declared value of `attribute`: the one that was declared last.
    pub open spec fn declared(self, attribute: Attribute) -> Option<Seq<char>> {
        match attribute {
            Attribute::Encoding => self.encoding,
            Attribute::TableVersion => self.table_version,
            Attribute::StructureVersion => self.structure_version,
        }
    }

    /// One of the two lists.
    pub open spec fn list(self, category: Category) -> Seq<Seq<char>> {
        match category {
            Category::Scripts => self.scripts,
            Category::Structures => self.structures,
        }
    }

    /// Whether the user is asked if the structures shall be listed: only
    /// where there is one to list.
    pub open spec fn asks(self) -> bool {
        self.structures.len() > 0
    }

    /// What is printed in reply to the answer `input`: a remark on an empty
    /// answer, the lines of the structures on a yes, nothing otherwise.
    pub open spec fn reply(self, input: Seq<char>) -> Seq<Seq<char>> {
        match answer_of(input) {
            Answer::Empty => seq!["Input was empty, return"@],
            Answer::Yes => self.structures,
            Answer::Other => seq![],
        }
    }

    /// The lines that open the report, for a rule of `width` characters.
    pub open spec fn header(self, width: nat) -> Seq<Seq<char>> {
        seq![
            centered(self.timestamp, width, '-'),
            "Filename: "@ + self.file_name,
            "Made for CT Version "@ + decimal(TABLE_VERSION as nat),
        ]
    }

    /// The lines that close the report, for a rule of `width` characters.
    /// The last of them is there only when no structure was found.
    pub open spec fn summary(self, width: nat) -> Seq<Seq<char>> {
        let counts = seq![
            centered("Summary"@, width, '-'),
            "Total lines checked: "@ + decimal(self.line_count),
            "Total amount of Structures found: "@ + decimal(self.structures.len()),
            "Total amount of Scripts/Code found: "@ + decimal(self.scripts.len()),
        ];
        if self.structures.len() == 0 {
            counts.push("No structures found."@)
        } else {
            counts
        }
    }
}

/// What a scan of several lines comes to: the report after it, its findings
/// in the order in which they are reported, and the error that ended it, if
/// one did.
pub struct ScanOutcome {
    /// The report after the scan.
    pub report: ReportView,
    /// The findings, in the order in which they are reported.
    pub events: Seq<Event>,
    /// The error that ended the scan.
    pub failure: Option<SuffixError>,
}

impl ScanOutcome {
    /// How many lines were scanned to their end, in a scan that set out from
    /// the report `from`: all that were read, less the one that failed.
    pub open spec fn completed(self, from: ReportView) -> int {
        self.report.line_count - from.line_count - if self.failure is Some {
            1int
        } else {
            0int
        }
    }
}

} // verus!
