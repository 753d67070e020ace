//! The markers that make a line a script block or a structure definition.

use vstd::prelude::*;
use crate::chars::to_chars;
use crate::search::{contains, occurs};

verus! {

/// The kinds of script block that a table embeds.
#[derive(Clone, Copy, Debug, PartialEq, Eq, Structural)]
pub enum ScriptKind {
    /// A Lua script.
    Lua,
    /// A block of generic code.
    Code,
    /// An assembler script.
    Assembler,
}

impl ScriptKind {
    /// The element name that opens a block of this kind.
    pub open spec fn name(self) -> Seq<char> {
        match self {
            ScriptKind::Lua => "LuaScript"@,
            ScriptKind::Code => "Code"@,
            ScriptKind::Assembler => "AssemblerScript"@,
        }
    }

    /// The element name that opens a block of this kind.
    pub fn name_text(self) -> (text: &'static str)
        ensures
            text@ == self.name(),
    {
        match self {
            ScriptKind::Lua => "LuaScript",
            ScriptKind::Code => "Code",
            ScriptKind::Assembler => "AssemblerScript",
        }
    }
}

/// What a line is counted as.
#[derive(Clone, Copy, Debug, PartialEq, Eq, Structural)]
pub enum Tag {
    /// The line opens a script block.
    Script(ScriptKind),
    /// The line names a structure.
    Structure,
}

/// The two lists that a report keeps.
#[derive(Clone, Copy, Debug, PartialEq, Eq, Structural)]
pub enum Category {
    /// The lines that open a script block, of whatever kind.
    Scripts,
    /// The lines that name a structure.
    Structures,
}

impl Tag {
    /// The list that a line with this tag goes to.
    pub open spec fn category(self) -> Category {
        match self {
            Tag::Script(_) => Category::Scripts,
            Tag::Structure => Category::Structures,
        }
    }

    /// The text that a line holds to be counted under this tag: `<` and the
    /// element name for a script block, `Structure Name` for a structure.
    pub open spec fn marker(self) -> Seq<char> {
        match self {
            Tag::Script(kind) => seq!['<'] + kind.name(),
            Tag::Structure => "Structure Name"@,
        }
    }

    /// The marker of this tag.
    pub fn marker_chars(self) -> (chars: Vec<char>)
        ensures
            chars@ == self.marker(),
    {
        match self {
            Tag::Script(kind) => {
                let name = to_chars(kind.name_text());
                let mut chars: Vec<char> = Vec::new();
                chars.push('<');
                let mut i: usize = 0;
                while i < name.len()
                    invariant
                        i <= name@.len(),
                        chars@ == seq!['<'] + name@.take(i as int),
                    decreases name@.len() - i,
                {
                    chars.push(name[i]);
                    i += 1;
                }
                assert(name@.take(name@.len() as int) =~= name@);
                chars
            },
            Tag::Structure => to_chars("Structure Name"),
        }
    }
}

/// The tags in the order in which a line is tried against them.
pub open spec fn precedence() -> Seq<Tag> {
    seq![
        Tag::Script(ScriptKind::Lua),
        Tag::Script(ScriptKind::Code),
        Tag::Script(ScriptKind::Assembler),
        Tag::Structure,
    ]
}

/// The first tag of `order` whose marker stands in `line`.
pub open spec fn first_tag(line: Seq<char>, order: Seq<Tag>) -> Option<Tag>
    decreases order.len(),
{
    if order.len() == 0 {
        None
    } else if occurs(line, order[0].marker()) {
        Some(order[0])
    } else {
        first_tag(line, order.drop_first())
    }
}

/// What `line` is counted as: the first tag in order of precedence whose
/// marker it holds, so that it is counted once at most.
pub open spec fn tag_of(line: Seq<char>) -> Option<Tag> {
    first_tag(line, precedence())
}

/// The list that `line` goes to, if it is counted.
pub open spec fn category_of(line: Seq<char>) -> Option<Category> {
    match tag_of(line) {
        Some(tag) => Some(tag.category()),
        None => None,
    }
}

/// What `line` is counted as.
pub fn classify(line: &[char]) -> (tag: Option<Tag>)
    ensures
        tag == tag_of(line@),
{
    let order: [Tag; 4] = [
        Tag::Script(ScriptKind::Lua),
        Tag::Script(ScriptKind::Code),
        Tag::Script(ScriptKind::Assembler),
        Tag::Structure,
    ];
    assert(order@ =~= precedence());
    assert(order@.skip(0) =~= order@);
    let mut i: usize = 0;
    while i < 4
        invariant
            i <= 4,
            order@ == precedence(),
            tag_of(line@) == first_tag(line@, order@.skip(i as int)),
        decreases 4 - i,
    {
        let marker = order[i].marker_chars();
        if contains(line, marker.as_slice()) {
            return Some(order[i]);
        }
        assert(order@.skip(i as int).drop_first() =~= order@.skip(i + 1));
        i += 1;
    }
    None
}

} // verus!
