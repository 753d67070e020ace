use ct_snooper::chars::to_chars;
use ct_snooper::tags::{classify, ScriptKind, Tag};

#[test]
fn each_marker_gives_its_tag() {
    assert_eq!(classify(&to_chars("  <LuaScript>print(1)")), Some(Tag::Script(ScriptKind::Lua)));
    assert_eq!(classify(&to_chars("<CodeEntry>")), Some(Tag::Script(ScriptKind::Code)));
    assert_eq!(
        classify(&to_chars("<AssemblerScript>[ENABLE]")),
        Some(Tag::Script(ScriptKind::Assembler))
    );
    assert_eq!(classify(&to_chars("<Structure Name=\"Player\">")), Some(Tag::Structure));
}

#[test]
fn a_line_without_marker_has_no_tag() {
    assert_eq!(classify(&to_chars("<CheatEntry>")), None);
    assert_eq!(classify(&to_chars("")), None);
    assert_eq!(classify(&to_chars("LuaScript Code AssemblerScript")), None);
    assert_eq!(classify(&to_chars("structure name")), None);
}

#[test]
fn a_script_marker_goes_before_a_structure() {
    assert_eq!(
        classify(&to_chars("Structure Name=\"a\" <Code>")),
        Some(Tag::Script(ScriptKind::Code))
    );
    assert_eq!(
        classify(&to_chars("<AssemblerScript> Structure Name")),
        Some(Tag::Script(ScriptKind::Assembler))
    );
}

#[test]
fn the_script_markers_are_tried_in_their_order() {
    assert_eq!(
        classify(&to_chars("<AssemblerScript><Code><LuaScript>")),
        Some(Tag::Script(ScriptKind::Lua))
    );
    assert_eq!(
        classify(&to_chars("<AssemblerScript><Code>")),
        Some(Tag::Script(ScriptKind::Code))
    );
}

#[test]
fn markers_and_names() {
    assert_eq!(Tag::Script(ScriptKind::Lua).marker_chars(), to_chars("<LuaScript"));
    assert_eq!(Tag::Script(ScriptKind::Code).marker_chars(), to_chars("<Code"));
    assert_eq!(Tag::Script(ScriptKind::Assembler).marker_chars(), to_chars("<AssemblerScript"));
    assert_eq!(Tag::Structure.marker_chars(), to_chars("Structure Name"));
    assert_eq!(ScriptKind::Lua.name_text(), "LuaScript");
    assert_eq!(ScriptKind::Code.name_text(), "Code");
    assert_eq!(ScriptKind::Assembler.name_text(), "AssemblerScript");
}
