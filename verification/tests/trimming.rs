use obsidian_notes::Note;
use obsidian_notes::Section;
use obsidian_notes::buffer::TextBuffer;

fn note(contents: &str) -> Note {
    Note::from_text(String::from("note.md"), contents)
}

#[test]
fn trim_strips_to_the_boundary_line_break() {
    // the body "\ntext c\n\n" loses everything past its last content
    // byte except the final line break, which stays just behind the
    // trimmed section's shrunk range
    let mut buf = TextBuffer::from_text("# A\n\n## B\ntext b\n\n## C\ntext c\n\n");
    let mut c = Section::root(&buf).subsection(&buf, "C").unwrap();
    assert_eq!(c.body(&buf), "\ntext c\n\n");
    c.trim_end(&mut buf);
    assert_eq!(c.body(&buf), "\ntext c");
    assert_eq!(
        Section::root(&buf).body(&buf),
        "# A\n\n## B\ntext b\n\n## C\ntext c\n"
    );
}

#[test]
fn trim_through_a_note_keeps_the_boundary_break_in_place() {
    let mut n = note("# A\n\n## B\ntext b\n\n## C\ntext c\n\n");
    n.trim_end(Some("C")).unwrap();
    assert_eq!(n.to_string(), "# A\n\n## B\ntext b\n\n## C\ntext c\n");
    // resolving the name afresh finds the retained line break at the
    // new end of the document, inside the recomputed range
    assert_eq!(n.body(Some("C")).unwrap(), "\ntext c\n");
}

#[test]
fn trim_is_idempotent() {
    let mut buf_once = TextBuffer::from_text("## C\ntext c   \n\n\n");
    let mut once = Section::root(&buf_once).subsection(&buf_once, "C").unwrap();
    once.trim_end(&mut buf_once);
    let mut buf_twice = TextBuffer::from_text("## C\ntext c   \n\n\n");
    let mut twice = Section::root(&buf_twice).subsection(&buf_twice, "C").unwrap();
    twice.trim_end(&mut buf_twice);
    twice.trim_end(&mut buf_twice);
    assert_eq!(once.body(&buf_once), twice.body(&buf_twice));
    assert_eq!(twice.body(&buf_twice), "\ntext c");
    assert_eq!(
        Section::root(&buf_once).body(&buf_once),
        Section::root(&buf_twice).body(&buf_twice)
    );
}

#[test]
fn trim_of_whitespace_only_body_keeps_one_line_break() {
    let text = "## Blank\n\n\n\n";
    let mut buf = TextBuffer::from_text(text);
    let root = Section::root(&buf);
    let mut sec = root.subsection(&buf, "Blank").unwrap();
    let start = sec.start;
    sec.trim_end(&mut buf);
    assert_eq!(sec.start, start);
    assert_eq!(sec.end, sec.start);
    assert_eq!(sec.body(&buf), "");
    assert_eq!(buf.len(), "## Blank\n".len());
}

#[test]
fn trim_with_single_trailing_break_is_a_no_op() {
    let mut n = note("## C\ntext c\n");
    n.trim_end(Some("C")).unwrap();
    assert_eq!(n.body(Some("C")).unwrap(), "\ntext c\n");
    assert_eq!(n.to_string(), "## C\ntext c\n");
}

#[test]
fn trim_without_trailing_whitespace_is_a_no_op() {
    let mut n = note("## C\ntext c");
    n.trim_end(Some("C")).unwrap();
    assert_eq!(n.body(Some("C")).unwrap(), "\ntext c");
}

#[test]
fn trim_keeps_interior_whitespace() {
    let mut buf = TextBuffer::from_text("## C\n\nline one\n\nline two\n\n\n");
    let mut c = Section::root(&buf).subsection(&buf, "C").unwrap();
    c.trim_end(&mut buf);
    assert_eq!(c.body(&buf), "\n\nline one\n\nline two");
}

#[test]
fn trim_root_of_whitespace_document() {
    let mut buf = TextBuffer::from_text("\n\n\n");
    let mut root = Section::root(&buf);
    root.trim_end(&mut buf);
    assert_eq!(root.body(&buf), "");
    assert_eq!(root.start, root.end);
    assert_eq!(buf.len(), 1);
}
