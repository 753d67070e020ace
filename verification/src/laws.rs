//! What holds of every scan.

use vstd::prelude::*;
use crate::attribute::{Attribute, Declaration};
use crate::events::{attribute_order, declarations, line_outcome, tagging, Event};
use crate::model::ReportView;
use crate::search::occurs;
use crate::tags::{category_of, first_tag, precedence, tag_of, Category, ScriptKind, Tag};

verus! {

/// Every finding among `events` is a declared value.
pub open spec fn all_declared(events: Seq<Event>) -> bool {
    forall|i: int| 0 <= i < events.len() ==> #[trigger] events[i] is Declared
}

/// Reading a line for attributes finds declared values and nothing else.
pub proof fn lemma_declarations_declare(line: Seq<char>, number: nat, order: Seq<Attribute>)
    ensures
        all_declared(declarations(line, number, order).events),
    decreases order.len(),
{
    if order.len() > 0 {
        lemma_declarations_declare(line, number, order.drop_first());
    }
}

/// Taking down declared values changes neither the count of lines nor the
/// two lists, nor what heads the report.
pub proof fn lemma_record_declared(report: ReportView, events: Seq<Event>, line: Seq<char>)
    requires
        all_declared(events),
    ensures
        report.record_all(events, line).line_count == report.line_count,
        report.record_all(events, line).structures == report.structures,
        report.record_all(events, line).scripts == report.scripts,
        report.record_all(events, line).timestamp == report.timestamp,
        report.record_all(events, line).file_name == report.file_name,
    decreases events.len(),
{
    if events.len() > 0 {
        let before = events.drop_last();
        assert forall|i: int| 0 <= i < before.len() implies #[trigger] before[i] is Declared by {
            assert(before[i] == events[i]);
        }
        lemma_record_declared(report, before, line);
        assert(events.last() == events[events.len() - 1]);
    }
}

/// One line more: the count of lines grows by one; the line goes to the end
/// of the list of its tag, and to no other, unless a value on it was too
/// short, in which case both lists stay as they are.
pub proof fn lemma_after_line(report: ReportView, line: Seq<char>)
    ensures
        report.after_line(line).line_count == report.line_count + 1,
        report.after_line(line).timestamp == report.timestamp,
        report.after_line(line).file_name == report.file_name,
        report.after_line(line).structures == if report.next_outcome(line).failure is None
            && category_of(line) == Some(Category::Structures) {
            report.structures.push(line)
        } else {
            report.structures
        },
        report.after_line(line).scripts == if report.next_outcome(line).failure is None
            && category_of(line) == Some(Category::Scripts) {
            report.scripts.push(line)
        } else {
            report.scripts
        },
{
    let number = report.line_count + 1;
    let declared = declarations(line, number, attribute_order());
    lemma_declarations_declare(line, number, attribute_order());
    lemma_record_declared(report.counted(), declared.events, line);
    if declared.failure is None {
        let tagged = tagging(line, number, report.structures.len());
        let events = declared.events + tagged;
        if tagged.len() == 0 {
            assert(events =~= declared.events);
        } else {
            assert(events.drop_last() =~= declared.events);
            assert(events.last() == tagged[0]);
        }
    }
}

/// A scan reads each line once: without a failure the count of lines grows
/// by the number of lines, with one it grows by the number of lines up to and
/// with the one that failed. What heads the report stays.
pub proof fn lemma_scan_counts(report: ReportView, lines: Seq<Seq<char>>)
    ensures
        report.line_count <= report.scan(lines).report.line_count <= report.line_count + lines.len(),
        report.scan(lines).failure is None ==> report.scan(lines).report.line_count
            == report.line_count + lines.len(),
        report.scan(lines).failure is Some ==> report.scan(lines).report.line_count
            > report.line_count,
        report.scan(lines).report.timestamp == report.timestamp,
        report.scan(lines).report.file_name == report.file_name,
    decreases lines.len(),
{
    if lines.len() > 0 {
        lemma_scan_counts(report, lines.drop_last());
        let before = report.scan(lines.drop_last());
        if before.failure is None {
            lemma_after_line(before.report, lines.last());
        }
    }
}

/// A scan that has failed reads no further: the lines after the one that
/// failed change nothing.
pub proof fn lemma_scan_stops(report: ReportView, lines: Seq<Seq<char>>, read: int)
    requires
        0 <= read <= lines.len(),
        report.scan(lines.take(read)).failure is Some,
    ensures
        report.scan(lines) == report.scan(lines.take(read)),
    decreases lines.len(),
{
    if read < lines.len() {
        assert(lines.drop_last().take(read) =~= lines.take(read));
        lemma_scan_stops(report, lines.drop_last(), read);
    } else {
        assert(lines.take(read) =~= lines);
    }
}

/// The tags are tried in one order, and the first that fits is taken: a Lua
/// script before a block of code, that before an assembler script, and any
/// of them before a structure.
pub proof fn lemma_tag_precedence(line: Seq<char>)
    ensures
        tag_of(line) == if occurs(line, Tag::Script(ScriptKind::Lua).marker()) {
            Some(Tag::Script(ScriptKind::Lua))
        } else if occurs(line, Tag::Script(ScriptKind::Code).marker()) {
            Some(Tag::Script(ScriptKind::Code))
        } else if occurs(line, Tag::Script(ScriptKind::Assembler).marker()) {
            Some(Tag::Script(ScriptKind::Assembler))
        } else if occurs(line, Tag::Structure.marker()) {
            Some(Tag::Structure)
        } else {
            None
        },
{
    reveal_with_fuel(first_tag, 5);
    let order = precedence();
    assert(order.drop_first() =~= seq![
        Tag::Script(ScriptKind::Code),
        Tag::Script(ScriptKind::Assembler),
        Tag::Structure,
    ]);
    assert(order.drop_first().drop_first() =~= seq![
        Tag::Script(ScriptKind::Assembler),
        Tag::Structure,
    ]);
    assert(order.drop_first().drop_first().drop_first() =~= seq![Tag::Structure]);
    assert(order.drop_first().drop_first().drop_first().drop_first() =~= Seq::<Tag>::empty());
}

/// A line that holds the marker of a script block is counted as a script,
/// also where it holds the marker of a structure: it goes to the list of
/// scripts alone.
pub proof fn lemma_script_marker_wins(line: Seq<char>, kind: ScriptKind)
    requires
        occurs(line, Tag::Script(kind).marker()),
    ensures
        tag_of(line) matches Some(Tag::Script(_)),
        category_of(line) == Some(Category::Scripts),
{
    lemma_tag_precedence(line);
}

/// No line is counted twice: one line makes the two lists together longer by
/// one entry at most, and a line with the marker of a script block leaves the
/// list of structures as it is.
pub proof fn lemma_counted_once(report: ReportView, line: Seq<char>)
    ensures
        report.after_line(line).structures.len() + report.after_line(line).scripts.len()
            <= report.structures.len() + report.scripts.len() + 1,
        report.consistent() ==> report.after_line(line).consistent(),
        forall|kind: ScriptKind| #[trigger]
            occurs(line, Tag::Script(kind).marker()) ==> report.after_line(line).structures
                == report.structures,
{
    lemma_after_line(report, line);
    assert forall|kind: ScriptKind| #[trigger]
        occurs(line, Tag::Script(kind).marker()) implies report.after_line(line).structures
        == report.structures by {
        lemma_script_marker_wins(line, kind);
    }
}

/// Lines without a marker leave both lists as they are.
pub proof fn lemma_no_markers(report: ReportView, lines: Seq<Seq<char>>)
    requires
        forall|i: int, tag: Tag|
            0 <= i < lines.len() ==> !#[trigger] occurs(lines[i], tag.marker()),
    ensures
        report.scan(lines).report.structures == report.structures,
        report.scan(lines).report.scripts == report.scripts,
    decreases lines.len(),
{
    if lines.len() > 0 {
        let init = lines.drop_last();
        assert forall|i: int, tag: Tag| 0 <= i < init.len() implies !#[trigger] occurs(
            init[i],
            tag.marker(),
        ) by {
            assert(init[i] == lines[i]);
        }
        lemma_no_markers(report, init);
        let before = report.scan(init);
        if before.failure is None {
            let line = lines.last();
            assert(line == lines[lines.len() - 1]);
            lemma_tag_precedence(line);
            assert(!occurs(line, Tag::Script(ScriptKind::Lua).marker()));
            assert(!occurs(line, Tag::Script(ScriptKind::Code).marker()));
            assert(!occurs(line, Tag::Script(ScriptKind::Assembler).marker()));
            assert(!occurs(line, Tag::Structure.marker()));
            lemma_after_line(before.report, line);
        }
    }
}

/// A scan of lines without a marker, begun with a new report, finds nothing:
/// both lists are empty at its end, and so both counts are zero.
pub proof fn lemma_nothing_found(timestamp: Seq<char>, file_name: Seq<char>, lines: Seq<Seq<char>>)
    requires
        forall|i: int, tag: Tag|
            0 <= i < lines.len() ==> !#[trigger] occurs(lines[i], tag.marker()),
    ensures
        ReportView::start(timestamp, file_name).scan(lines).report.structures.len() == 0,
        ReportView::start(timestamp, file_name).scan(lines).report.scripts.len() == 0,
        !ReportView::start(timestamp, file_name).scan(lines).report.asks(),
{
    lemma_no_markers(ReportView::start(timestamp, file_name), lines);
}

/// Where in `lines` the lines of `category` stand, from the first to the last.
pub open spec fn positions(lines: Seq<Seq<char>>, category: Category) -> Seq<int>
    decreases lines.len(),
{
    if lines.len() == 0 {
        seq![]
    } else {
        let before = positions(lines.drop_last(), category);
        if category_of(lines.last()) == Some(category) {
            before.push(lines.len() - 1)
        } else {
            before
        }
    }
}

/// The lines that stand at `places` in `lines`, in the order of `places`.
pub open spec fn lines_at(lines: Seq<Seq<char>>, places: Seq<int>) -> Seq<Seq<char>> {
    Seq::new(places.len(), |k: int| lines[places[k]])
}

/// The positions of a category are places in the input at which a line of
/// the category stands; they rise from one to the next; and none is left out.
pub proof fn lemma_positions(lines: Seq<Seq<char>>, category: Category)
    ensures
        forall|k: int|
            0 <= k < positions(lines, category).len() ==> {
                &&& 0 <= #[trigger] positions(lines, category)[k] < lines.len()
                &&& category_of(lines[positions(lines, category)[k]]) == Some(category)
            },
        forall|j: int, k: int|
            0 <= j < k < positions(lines, category).len() ==> positions(lines, category)[j]
                < positions(lines, category)[k],
        forall|i: int|
            0 <= i < lines.len() && category_of(#[trigger] lines[i]) == Some(category)
                ==> positions(lines, category).contains(i),
    decreases lines.len(),
{
    if lines.len() > 0 {
        let init = lines.drop_last();
        let before = positions(init, category);
        let all = positions(lines, category);
        lemma_positions(init, category);
        assert forall|k: int| 0 <= k < all.len() implies {
            &&& 0 <= #[trigger] all[k] < lines.len()
            &&& category_of(lines[all[k]]) == Some(category)
        } by {
            if k < before.len() {
                assert(all[k] == before[k]);
                assert(init[before[k]] == lines[before[k]]);
            }
        }
        assert forall|j: int, k: int| 0 <= j < k < all.len() implies all[j] < all[k] by {
            assert(all[j] == before[j]);
            if k < before.len() {
                assert(all[k] == before[k]);
            }
        }
        assert forall|i: int|
            0 <= i < lines.len() && category_of(#[trigger] lines[i]) == Some(
                category,
            ) implies all.contains(i) by {
            if i < init.len() {
                assert(init[i] == lines[i]);
                assert(before.contains(i));
                let k = choose|k: int| 0 <= k < before.len() && before[k] == i;
                assert(all[k] == i);
            } else {
                assert(all[all.len() - 1] == i);
            }
        }
    }
}

/// Each list holds its lines in the order of the input: a scan puts the
/// lines of a category that it scanned to their end behind those that the
/// list held before, each line where it stands among them in the input.
pub proof fn lemma_lists_follow_input(
    report: ReportView,
    lines: Seq<Seq<char>>,
    category: Category,
)
    ensures
        0 <= report.scan(lines).completed(report) <= lines.len(),
        report.scan(lines).failure is None ==> report.scan(lines).completed(report) == lines.len(),
        ({
            let done = lines.take(report.scan(lines).completed(report));
            report.scan(lines).report.list(category) == report.list(category) + lines_at(
                done,
                positions(done, category),
            )
        }),
    decreases lines.len(),
{
    lemma_scan_counts(report, lines);
    if lines.len() == 0 {
        assert(lines.take(0) =~= lines);
        assert(report.list(category) + lines_at(lines, positions(lines, category))
            =~= report.list(category));
    } else {
        let init = lines.drop_last();
        let line = lines.last();
        let before = report.scan(init);
        lemma_lists_follow_input(report, init, category);
        lemma_scan_counts(report, init);
        let read = before.completed(report);
        if before.failure is Some {
            assert(lines.take(read) =~= init.take(read));
        } else {
            assert(init.take(read) =~= init);
            lemma_after_line(before.report, line);
            if before.report.next_outcome(line).failure is Some {
                assert(lines.take(read) =~= init);
            } else {
                assert(lines.take(read + 1) =~= lines);
                lemma_positions(init, category);
                let places = positions(init, category);
                assert forall|k: int| 0 <= k < places.len() implies lines_at(init, places)[k]
                    == lines[places[k]] by {
                    assert(init[places[k]] == lines[places[k]]);
                }
                if category_of(line) == Some(category) {
                    assert(lines_at(lines, positions(lines, category)) =~= lines_at(
                        init,
                        places,
                    ).push(line));
                    assert(report.list(category) + lines_at(init, places).push(line) =~= (
                    report.list(category) + lines_at(init, places)).push(line));
                } else {
                    assert(lines_at(lines, positions(lines, category)) =~= lines_at(init, places));
                }
            }
        }
    }
}

/// The findings of structures among `events`, in their order.
pub open spec fn structure_events(events: Seq<Event>) -> Seq<Event>
    decreases events.len(),
{
    if events.len() == 0 {
        seq![]
    } else if events.last() is Structure {
        structure_events(events.drop_last()).push(events.last())
    } else {
        structure_events(events.drop_last())
    }
}

/// The structures among findings put one behind the other are those of the
/// first, then those of the second.
pub proof fn lemma_structure_events_joined(events: Seq<Event>, more: Seq<Event>)
    ensures
        structure_events(events + more) == structure_events(events) + structure_events(more),
    decreases more.len(),
{
    if more.len() == 0 {
        assert(events + more =~= events);
        assert(structure_events(events) + structure_events(more) =~= structure_events(events));
    } else {
        assert((events + more).drop_last() =~= events + more.drop_last());
        assert((events + more).last() == more.last());
        lemma_structure_events_joined(events, more.drop_last());
        assert((structure_events(events) + structure_events(more.drop_last())).push(more.last())
            =~= structure_events(events) + structure_events(more.drop_last()).push(more.last()));
    }
}

/// Declared values hold no finding of a structure.
pub proof fn lemma_structure_events_declared(events: Seq<Event>)
    requires
        all_declared(events),
    ensures
        structure_events(events) == Seq::<Event>::empty(),
    decreases events.len(),
{
    if events.len() > 0 {
        let before = events.drop_last();
        assert forall|i: int| 0 <= i < before.len() implies #[trigger] before[i] is Declared by {
            assert(before[i] == events[i]);
        }
        lemma_structure_events_declared(before);
        assert(events.last() == events[events.len() - 1]);
    }
}

/// The structures are numbered as they come: the findings of structures in a
/// scan carry the ordinals that follow the number of structures found before
/// it, one by one and in the order of the input, each with the number of its
/// line; and the list of structures grows by as many entries. In a scan begun
/// with a new report the ordinals are 1, 2, and so on up to the final number
/// of structures.
pub proof fn lemma_structure_ordinals(report: ReportView, lines: Seq<Seq<char>>)
    ensures
        ({
            let scan = report.scan(lines);
            let done = lines.take(scan.completed(report));
            let found = structure_events(scan.events);
            let places = positions(done, Category::Structures);
            &&& found.len() == places.len()
            &&& scan.report.structures.len() == report.structures.len() + found.len()
            &&& forall|k: int|
                0 <= k < found.len() ==> #[trigger] found[k] == (Event::Structure {
                    ordinal: (report.structures.len() + k + 1) as nat,
                    line: (report.line_count + places[k] + 1) as nat,
                })
        }),
    decreases lines.len(),
{
    lemma_scan_counts(report, lines);
    lemma_lists_follow_input(report, lines, Category::Structures);
    if lines.len() == 0 {
        assert(lines.take(0) =~= lines);
    } else {
        let init = lines.drop_last();
        let line = lines.last();
        let before = report.scan(init);
        lemma_structure_ordinals(report, init);
        lemma_scan_counts(report, init);
        lemma_lists_follow_input(report, init, Category::Structures);
        let read = before.completed(report);
        if before.failure is Some {
            assert(lines.take(read) =~= init.take(read));
        } else {
            assert(init.take(read) =~= init);
            lemma_after_line(before.report, line);
            let number = before.report.line_count + 1;
            let outcome = before.report.next_outcome(line);
            let declared = declarations(line, number, attribute_order());
            lemma_declarations_declare(line, number, attribute_order());
            lemma_structure_events_declared(declared.events);
            lemma_structure_events_joined(before.events, outcome.events);
            if outcome.failure is Some {
                assert(lines.take(read) =~= init);
                assert(structure_events(before.events) + Seq::<Event>::empty()
                    =~= structure_events(before.events));
            } else {
                assert(lines.take(read + 1) =~= lines);
                let tagged = tagging(line, number, before.report.structures.len());
                lemma_structure_events_joined(declared.events, tagged);
                assert(Seq::<Event>::empty() + structure_events(tagged) =~= structure_events(
                    tagged,
                ));
                reveal_with_fuel(structure_events, 2);
                if tag_of(line) == Some(Tag::Structure) {
                    assert(tagged.drop_last() =~= Seq::<Event>::empty());
                    assert(tagged.last() == tagged[0]);
                    assert(structure_events(tagged) =~= tagged);
                } else {
                    if tagged.len() > 0 {
                        assert(tagged.drop_last() =~= Seq::<Event>::empty());
                        assert(tagged.last() == tagged[0]);
                    }
                    assert(structure_events(tagged) =~= Seq::<Event>::empty());
                    assert(structure_events(before.events) + Seq::<Event>::empty()
                        =~= structure_events(before.events));
                }
            }
        }
    }
}

} // verus!
