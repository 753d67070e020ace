//! Text building: decimal numbers and centred rule lines.

use vstd::prelude::*;
use vstd::string::{StrSliceExecFns, StringExecFns};

verus! {

/// The character that stands for the digit `d`.
pub open spec fn digit(d: nat) -> char
    recommends
        d < 10,
{
    (48 + d) as char
}

/// `n` written in decimal, without a sign and without leading zeros.
pub open spec fn decimal(n: nat) -> Seq<char>
    decreases n,
{
    if n < 10 {
        seq![digit(n)]
    } else {
        decimal(n / 10).push(digit(n % 10))
    }
}

/// `count` copies of `c`.
pub open spec fn repeated(c: char, count: nat) -> Seq<char> {
    Seq::new(count, |i: int| c)
}

/// `text` centred in a line of `width` characters, the room on both sides
/// filled with `fill`. Where the room is odd, the right side gets the one
/// more. A text of `width` characters or more is left as it is.
pub open spec fn centered(text: Seq<char>, width: nat, fill: char) -> Seq<char> {
    if text.len() >= width {
        text
    } else {
        let room = (width - text.len()) as nat;
        repeated(fill, room / 2) + text + repeated(fill, (room - room / 2) as nat)
    }
}

/// The character that stands for the digit `d`.
pub fn digit_char(d: u8) -> (c: char)
    requires
        d < 10,
    ensures
        c == digit(d as nat),
{
    (48u8 + d) as char
}

/// Appends `n` in decimal to `text`.
pub fn push_decimal(text: &mut String, n: u64)
    ensures
        final(text)@ == old(text)@ + decimal(n as nat),
{
    let mut low: Vec<char> = Vec::new();
    let mut rest: u64 = n;
    while rest >= 10
        invariant
            decimal(n as nat) == decimal(rest as nat) + Seq::new(
                low@.len(),
                |i: int| low@[low@.len() - 1 - i],
            ),
        decreases rest,
    {
        let ghost before = low@;
        low.push(digit_char((rest % 10) as u8));
        proof {
            let tail = Seq::new(before.len(), |i: int| before[before.len() - 1 - i]);
            let grown = Seq::new(low@.len(), |i: int| low@[low@.len() - 1 - i]);
            assert(grown =~= seq![digit((rest % 10) as nat)] + tail);
            assert(decimal(rest as nat) == decimal((rest / 10) as nat).push(
                digit((rest % 10) as nat),
            ));
            assert(decimal((rest / 10) as nat).push(digit((rest % 10) as nat)) + tail
                =~= decimal((rest / 10) as nat) + grown);
        }
        rest = rest / 10;
    }
    text.push(digit_char(rest as u8));
    let mut left: usize = low.len();
    while left > 0
        invariant
            left <= low@.len(),
            text@ == old(text)@ + decimal(rest as nat) + Seq::new(
                (low@.len() - left) as nat,
                |i: int| low@[low@.len() - 1 - i],
            ),
        decreases left,
    {
        left -= 1;
        let ghost before = text@;
        text.push(low[left]);
        assert(text@ =~= old(text)@ + decimal(rest as nat) + Seq::new(
            (low@.len() - left) as nat,
            |i: int| low@[low@.len() - 1 - i],
        ));
    }
    assert(text@ =~= old(text)@ + decimal(n as nat));
}

/// Appends `count` copies of `c` to `text`.
pub fn push_repeated(text: &mut String, c: char, count: usize)
    ensures
        final(text)@ == old(text)@ + repeated(c, count as nat),
{
    let mut done: usize = 0;
    while done < count
        invariant
            done <= count,
            text@ == old(text)@ + repeated(c, done as nat),
        decreases count - done,
    {
        text.push(c);
        done += 1;
        assert(text@ =~= old(text)@ + repeated(c, done as nat));
    }
}

/// `text` centred in a line of `width` characters, with `fill` on both sides.
pub fn centered_text(text: &str, width: usize, fill: char) -> (line: String)
    ensures
        line@ == centered(text@, width as nat, fill),
{
    let length: usize = text.unicode_len();
    let mut line = String::new();
    if length >= width {
        line.append(text);
        assert(line@ =~= text@);
    } else {
        let room: usize = width - length;
        push_repeated(&mut line, fill, room / 2);
        line.append(text);
        push_repeated(&mut line, fill, room - room / 2);
        assert(line@ =~= centered(text@, width as nat, fill));
    }
    line
}

} // verus!
