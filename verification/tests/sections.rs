use obsidian_notes::Note;
use obsidian_notes::NoteError;
use obsidian_notes::Section;
use obsidian_notes::buffer::TextBuffer;

const DOC: &str = "# A\n\n## B\ntext b\n\n## C\ntext c\n";

fn note(contents: &str) -> Note {
    Note::from_text(String::from("note.md"), contents)
}

#[test]
fn resolve_b_under_root() {
    let n = note(DOC);
    assert_eq!(n.body(Some("B")).unwrap(), "\ntext b\n\n");
}

#[test]
fn resolve_c_under_root_runs_to_buffer_end() {
    let n = note(DOC);
    assert_eq!(n.body(Some("C")).unwrap(), "\ntext c\n");
}

#[test]
fn resolve_at_end_of_document_extends_to_buffer_end() {
    let buf = TextBuffer::from_text(DOC);
    let root = Section::root(&buf);
    let c = root.subsection(&buf, "C").unwrap();
    assert_eq!(c.end, DOC.len());
    assert_eq!(c.weight, 2);
}

#[test]
fn append_to_section() {
    let mut n = note("# A\n\n## B\ntext b\n\n## C\ntext c\n\n");
    n.append("bing bong", Some("C")).unwrap();
    assert_eq!(n.body(Some("C")).unwrap(), "\ntext c\n\nbing bong");
}

#[test]
fn append_round_trip() {
    let mut n = note(DOC);
    let before = n.body(Some("B")).unwrap();
    n.append("- note to self\n", Some("B")).unwrap();
    let after = n.body(Some("B")).unwrap();
    assert_eq!(after, format!("{before}- note to self\n"));
}

#[test]
fn append_to_root_extends_document() {
    let mut n = note("just a line\n");
    n.append("and another\n", None).unwrap();
    assert_eq!(n.to_string(), "just a line\nand another\n");
}

#[test]
fn missing_name_is_absent_not_an_error() {
    let buf = TextBuffer::from_text(DOC);
    let root = Section::root(&buf);
    assert!(root.subsection(&buf, "Missing").is_none());
}

#[test]
fn missing_name_becomes_section_not_found() {
    let n = note(DOC);
    match n.body(Some("Missing")) {
        Err(NoteError::SectionNotFound { section }) => assert_eq!(section, "Missing"),
        other => panic!("expected SectionNotFound, got {other:?}"),
    }
}

#[test]
fn shallower_heading_is_not_a_child() {
    // a level-1 heading named X inside a level-2 scope must not resolve
    let text = "# X\nstuff\n";
    let buf = TextBuffer::from_text(text);
    let scope = Section::new(2, 0, text.len());
    assert!(scope.subsection(&buf, "X").is_none());
}

#[test]
fn child_may_be_deeper_than_parent_plus_one() {
    let text = "#### Deep\nbody\n";
    let buf = TextBuffer::from_text(text);
    let root = Section::root(&buf);
    let deep = root.subsection(&buf, "Deep").unwrap();
    assert_eq!(deep.weight, 4);
    assert_eq!(deep.body(&buf), "\nbody\n");
}

#[test]
fn same_or_shallower_heading_closes_a_section() {
    let text = "## Two\nbody\n# One\nrest\n";
    let buf = TextBuffer::from_text(text);
    let root = Section::root(&buf);
    let two = root.subsection(&buf, "Two").unwrap();
    assert_eq!(two.body(&buf), "\nbody\n");
}

#[test]
fn name_matching_is_case_insensitive() {
    let n = note("## Shopping List\nmilk\n");
    assert_eq!(n.body(Some("shopping list")).unwrap(), "\nmilk\n");
    assert_eq!(n.body(Some("SHOPPING LIST")).unwrap(), "\nmilk\n");
}

#[test]
fn first_of_two_equally_named_headings_wins() {
    let n = note("## Twin\nfirst\n\n## Twin\nsecond\n");
    assert_eq!(n.body(Some("Twin")).unwrap(), "\nfirst\n\n");
}

#[test]
fn heading_without_closing_line_break_is_absent() {
    let n = note("## Open");
    assert!(n.body(Some("Open")).is_err());
}

#[test]
fn heading_needs_space_after_markers() {
    let n = note("##Tight\nbody\n");
    assert!(n.body(Some("Tight")).is_err());
}

#[test]
fn nested_resolution_stays_in_parent_range() {
    let text = "# Top\n\n## Inner\ndeep text\n\n# Next\n## Inner\nother\n";
    let buf = TextBuffer::from_text(text);
    let root = Section::root(&buf);
    let top = root.subsection(&buf, "Top").unwrap();
    assert_eq!(top.weight, 1);
    let inner = top.subsection(&buf, "Inner").unwrap();
    assert_eq!(inner.body(&buf), "\ndeep text\n\n");
}

#[test]
fn root_body_is_whole_document() {
    let n = note(DOC);
    assert_eq!(n.body(None).unwrap(), DOC);
    assert_eq!(n.to_string(), DOC);
}

#[test]
fn multibyte_text_resolves_and_appends() {
    let mut n = note("## T\u{e9}l\u{e9}\ncaf\u{e9}\n");
    assert_eq!(n.body(Some("t\u{e9}l\u{e9}")).unwrap(), "\ncaf\u{e9}\n");
    n.append("\u{263a}", Some("T\u{e9}l\u{e9}")).unwrap();
    assert_eq!(n.body(Some("T\u{e9}l\u{e9}")).unwrap(), "\ncaf\u{e9}\n\u{263a}");
}

#[test]
fn note_keeps_its_path() {
    let n = note(DOC);
    assert_eq!(n.path().as_str(), "note.md");
}

#[test]
fn error_messages_name_their_subject() {
    let e = NoteError::SectionNotFound { section: String::from("todo") };
    assert_eq!(e.message(), "section 'todo' not found");
    let o = NoteError::Open {
        path: String::from("a.md"),
        cause: String::from("missing"),
    };
    assert_eq!(o.message(), "failed to open note a.md");
    let s = NoteError::Save {
        path: String::from("a.md"),
        cause: String::from("read-only"),
    };
    assert_eq!(s.message(), "failed to save note: a.md");
}
