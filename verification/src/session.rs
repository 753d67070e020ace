//! What surrounds a scan: the names of the files, the width of the rules and
//! the title of the window.

use vstd::prelude::*;
use vstd::string::StringExecFns;

verus! {

/// The title that the scanner gives to the window it runs in.
pub const WINDOW_TITLE: &'static str = "CT Snooper: made in Rust";

/// The width that is assumed where the terminal does not tell its own.
pub const DEFAULT_COLUMNS: u16 = 80;

/// The name under which a file is reported: its own, or a stand-in where it
/// has none that can be shown.
pub open spec fn display_name(base: Option<Seq<char>>) -> Seq<char> {
    match base {
        Some(name) => name,
        None => "Unknown file"@,
    }
}

/// The width of the rules for a terminal of the size `detected`, given as
/// columns and rows: one column less than the terminal has, or than the
/// default where its size is not known; nothing where it has no column.
pub open spec fn rule_columns(detected: Option<(u16, u16)>) -> nat {
    let columns = match detected {
        Some((columns, _)) => columns,
        None => DEFAULT_COLUMNS,
    };
    if columns > 0 {
        (columns - 1) as nat
    } else {
        0
    }
}

/// What sets the title of the terminal window to `title`: an operating
/// system command that starts with escape and ends with bell.
pub open spec fn title_command(title: Seq<char>) -> Seq<char> {
    seq!['\u{1b}', ']', '0', ';'] + title + seq!['\u{7}']
}

/// The name under which the file is reported.
pub fn display_file_name(base: Option<&str>) -> (name: String)
    ensures
        name@ == display_name(
            match base {
                Some(text) => Some(text@),
                None => None,
            },
        ),
{
    match base {
        Some(text) => String::from_str(text),
        None => String::from_str("Unknown file"),
    }
}

/// The name of the log of the file that is reported as `file_name`.
pub fn log_file_name(file_name: &str) -> (name: String)
    ensures
        name@ == file_name@ + "_log.txt"@,
{
    let mut name = String::from_str(file_name);
    name.append("_log.txt");
    name
}

/// The width of the rules for a terminal of the size `detected`.
pub fn rule_width(detected: Option<(u16, u16)>) -> (width: usize)
    ensures
        width == rule_columns(detected),
{
    let columns: u16 = match detected {
        Some((columns, _)) => columns,
        None => DEFAULT_COLUMNS,
    };
    if columns > 0 {
        (columns - 1) as usize
    } else {
        0
    }
}

/// The text that, written to a terminal, sets the title of its window.
pub fn title_sequence(title: &str) -> (text: String)
    ensures
        text@ == title_command(title@),
{
    let mut text = String::new();
    text.push('\u{1b}');
    text.push(']');
    text.push('0');
    text.push(';');
    text.append(title);
    text.push('\u{7}');
    assert(text@ =~= title_command(title@));
    text
}

} // verus!
