//! Conversions between strings and sequences of characters, and the
//! character classes that the scanner tells apart.

use vstd::prelude::*;

verus! {

/// `String::push` appends one character to the end of the string.
pub assume_specification[ String::push ](text: &mut String, c: char)
    ensures
        final(text)@ == old(text)@.push(c),
;

/// What each of `strings` holds, one for one.
pub open spec fn texts(strings: Seq<String>) -> Seq<Seq<char>> {
    Seq::new(strings.len(), |i: int| strings[i]@)
}

/// What a text holds, where there is one.
pub open spec fn text_of(string: Option<String>) -> Option<Seq<char>> {
    match string {
        Some(text) => Some(text@),
        None => None,
    }
}

/// The characters of `text`, in order.
pub fn to_chars(text: &str) -> (chars: Vec<char>)
    ensures
        chars@ == text@,
{
    let mut chars: Vec<char> = Vec::new();
    for c in it: text.chars()
        invariant
            chars@ == it.seq().take(it.index()),
            it.seq() == text@,
    {
        chars.push(c);
    }
    chars
}

/// Appends `chars[from..to]` to `text`.
pub fn push_chars(text: &mut String, chars: &[char], from: usize, to: usize)
    requires
        from <= to <= chars@.len(),
    ensures
        final(text)@ == old(text)@ + chars@.subrange(from as int, to as int),
{
    let mut i: usize = from;
    while i < to
        invariant
            from <= i <= to <= chars@.len(),
            text@ == old(text)@ + chars@.subrange(from as int, i as int),
        decreases to - i,
    {
        text.push(chars[i]);
        i += 1;
    }
}

/// Unicode white space: the characters with the `White_Space` property.
pub open spec fn is_whitespace(c: char) -> bool {
    let u = c as u32;
    ||| 0x09 <= u <= 0x0D
    ||| u == 0x20
    ||| u == 0x85
    ||| u == 0xA0
    ||| u == 0x1680
    ||| 0x2000 <= u <= 0x200A
    ||| u == 0x2028
    ||| u == 0x2029
    ||| u == 0x202F
    ||| u == 0x205F
    ||| u == 0x3000
}

/// Whether `c` is Unicode white space.
pub fn whitespace(c: char) -> (b: bool)
    ensures
        b == is_whitespace(c),
{
    let u: u32 = c as u32;
    (0x09 <= u && u <= 0x0D) || u == 0x20 || u == 0x85 || u == 0xA0 || u == 0x1680 || (0x2000 <= u
        && u <= 0x200A) || u == 0x2028 || u == 0x2029 || u == 0x202F || u == 0x205F || u == 0x3000
}

/// A class of characters that a run of text is made of.
#[derive(Clone, Copy, Debug, PartialEq, Eq, Structural)]
pub enum CharClass {
    /// Unicode white space.
    Whitespace,
    /// Everything but white space.
    Visible,
    /// The double quote.
    Quote,
}

impl CharClass {
    /// Whether `c` belongs to the class.
    pub open spec fn has(self, c: char) -> bool {
        match self {
            CharClass::Whitespace => is_whitespace(c),
            CharClass::Visible => !is_whitespace(c),
            CharClass::Quote => c == '"',
        }
    }

    /// Whether `c` belongs to the class.
    pub fn holds(self, c: char) -> (b: bool)
        ensures
            b == self.has(c),
    {
        match self {
            CharClass::Whitespace => whitespace(c),
            CharClass::Visible => !whitespace(c),
            CharClass::Quote => c == '"',
        }
    }
}

/// How many characters at the start of `s` belong to `class` without a break.
pub open spec fn leading(s: Seq<char>, class: CharClass) -> nat
    decreases s.len(),
{
    if s.len() > 0 && class.has(s[0]) {
        1 + leading(s.drop_first(), class)
    } else {
        0
    }
}

/// How many characters at the end of `s` belong to `class` without a break.
pub open spec fn trailing(s: Seq<char>, class: CharClass) -> nat
    decreases s.len(),
{
    if s.len() > 0 && class.has(s.last()) {
        1 + trailing(s.drop_last(), class)
    } else {
        0
    }
}

/// A run at the start of `s` is as long as `leading` says when it is made of
/// `class` and either reaches the end or is followed by a character outside it.
pub proof fn lemma_leading(s: Seq<char>, class: CharClass, n: nat)
    requires
        n <= s.len(),
        forall|i: int| 0 <= i < n ==> class.has(#[trigger] s[i]),
        n == s.len() || !class.has(s[n as int]),
    ensures
        leading(s, class) == n,
    decreases n,
{
    if n > 0 {
        let rest = s.drop_first();
        assert forall|i: int| 0 <= i < n - 1 implies class.has(#[trigger] rest[i]) by {
            assert(rest[i] == s[i + 1]);
        }
        if n < s.len() {
            assert(rest[n - 1] == s[n as int]);
        }
        lemma_leading(rest, class, (n - 1) as nat);
    }
}

/// A run at the end of `s` is as long as `trailing` says when it is made of
/// `class` and either reaches the start or follows a character outside it.
pub proof fn lemma_trailing(s: Seq<char>, class: CharClass, n: nat)
    requires
        n <= s.len(),
        forall|i: int| s.len() - n <= i < s.len() ==> class.has(#[trigger] s[i]),
        n == s.len() || !class.has(s[s.len() - n - 1]),
    ensures
        trailing(s, class) == n,
    decreases n,
{
    if n > 0 {
        let rest = s.drop_last();
        assert forall|i: int| rest.len() - (n - 1) <= i < rest.len() implies class.has(
            #[trigger] rest[i],
        ) by {
            assert(rest[i] == s[i]);
        }
        if n < s.len() {
            assert(rest[rest.len() - (n - 1) - 1] == s[s.len() - n - 1]);
        }
        lemma_trailing(rest, class, (n - 1) as nat);
    }
}

/// The length of the run of `class` that starts at `from` in `chars[from..to]`.
pub fn leading_run(chars: &[char], from: usize, to: usize, class: CharClass) -> (n: usize)
    requires
        from <= to <= chars@.len(),
    ensures
        n == leading(chars@.subrange(from as int, to as int), class),
        from + n <= to,
{
    let ghost s = chars@.subrange(from as int, to as int);
    let mut i: usize = from;
    while i < to && class.holds(chars[i])
        invariant
            from <= i <= to <= chars@.len(),
            s == chars@.subrange(from as int, to as int),
            forall|k: int| 0 <= k < i - from ==> class.has(#[trigger] s[k]),
        decreases to - i,
    {
        i += 1;
    }
    proof {
        lemma_leading(s, class, (i - from) as nat);
    }
    i - from
}

/// The length of the run of `class` that ends at `to` in `chars[from..to]`.
pub fn trailing_run(chars: &[char], from: usize, to: usize, class: CharClass) -> (n: usize)
    requires
        from <= to <= chars@.len(),
    ensures
        n == trailing(chars@.subrange(from as int, to as int), class),
        from + n <= to,
{
    let ghost s = chars@.subrange(from as int, to as int);
    let mut i: usize = to;
    while i > from && class.holds(chars[i - 1])
        invariant
            from <= i <= to <= chars@.len(),
            s == chars@.subrange(from as int, to as int),
            forall|k: int| i - from <= k < to - from ==> class.has(#[trigger] s[k]),
        decreases i - from,
    {
        i -= 1;
    }
    proof {
        lemma_trailing(s, class, (to - i) as nat);
    }
    to - i
}

/// The first run of visible characters in `s`: white space before it is
/// passed over, and it ends before the next white space. Empty when `s`
/// holds nothing but white space.
pub open spec fn first_word(s: Seq<char>) -> Seq<char> {
    let rest = s.skip(leading(s, CharClass::Whitespace) as int);
    rest.take(leading(rest, CharClass::Visible) as int)
}

/// `s` without the characters of `class` at its two ends.
pub open spec fn trimmed(s: Seq<char>, class: CharClass) -> Seq<char> {
    let rest = s.skip(leading(s, class) as int);
    rest.take(rest.len() - trailing(rest, class))
}

/// Where the first word of `chars[from..to]` starts and ends.
pub fn word_range(chars: &[char], from: usize, to: usize) -> (range: (usize, usize))
    requires
        from <= to <= chars@.len(),
    ensures
        from <= range.0 <= range.1 <= to,
        range.0 == from + leading(chars@.subrange(from as int, to as int), CharClass::Whitespace),
        range.1 == range.0 + first_word(chars@.subrange(from as int, to as int)).len(),
        chars@.subrange(range.0 as int, range.1 as int) == first_word(
            chars@.subrange(from as int, to as int),
        ),
{
    let start: usize = from + leading_run(chars, from, to, CharClass::Whitespace);
    let end: usize = start + leading_run(chars, start, to, CharClass::Visible);
    proof {
        let s = chars@.subrange(from as int, to as int);
        let rest = s.skip(leading(s, CharClass::Whitespace) as int);
        assert(rest =~= chars@.subrange(start as int, to as int));
        assert(rest.take(end - start) =~= chars@.subrange(start as int, end as int));
    }
    (start, end)
}

/// Where `chars[from..to]` starts and ends once the characters of `class`
/// are taken from its two ends.
pub fn trim_range(chars: &[char], from: usize, to: usize, class: CharClass) -> (range: (
    usize,
    usize,
))
    requires
        from <= to <= chars@.len(),
    ensures
        from <= range.0 <= range.1 <= to,
        range.0 == from + leading(chars@.subrange(from as int, to as int), class),
        range.1 == range.0 + trimmed(chars@.subrange(from as int, to as int), class).len(),
        chars@.subrange(range.0 as int, range.1 as int) == trimmed(
            chars@.subrange(from as int, to as int),
            class,
        ),
{
    let start: usize = from + leading_run(chars, from, to, class);
    let end: usize = to - trailing_run(chars, start, to, class);
    proof {
        let s = chars@.subrange(from as int, to as int);
        let rest = s.skip(leading(s, class) as int);
        assert(rest =~= chars@.subrange(start as int, to as int));
        assert(rest.take(end - start) =~= chars@.subrange(start as int, end as int));
    }
    (start, end)
}

} // verus!
