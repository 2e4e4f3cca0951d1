//! A note: a markdown document held in a text buffer, together with the
//! path it was read from.
//!
//! Reading and writing the file itself is left to the caller; a note
//! wraps text that was already read and hands back text to be written.

use vstd::prelude::*;
use vstd::string::StringExecFns;
use vstd::string::StringSliceAdditionalSpecFns;
use vstd::utf8::encode_utf8;
use vstd::utf8::valid_utf8;
use crate::buffer::TextBuffer;
use crate::buffer::buf_bytes;
use crate::markdown::ToMarkdown;
use crate::section::Section;
use crate::section::resolve_spec;
use crate::section::trim_new_bytes;
use crate::section::trim_new_end;

verus! {

/// What can go wrong when handling a note.
#[derive(Debug)]
pub enum NoteError {
    /// The note's file could not be read.
    Open { path: String, cause: String },
    /// The note's file could not be written.
    Save { path: String, cause: String },
    /// A named section does not exist under the given scope.
    SectionNotFound { section: String },
}

impl NoteError {
    /// A short description of the error.
    pub fn message(&self) -> (m: String)
        ensures
            match self {
                NoteError::Open { path, .. } => m@ == "failed to open note "@ + path@,
                NoteError::Save { path, .. } => m@ == "failed to save note: "@ + path@,
                NoteError::SectionNotFound { section } => m@ == "section '"@ + section@
                    + "' not found"@,
            },
    {
        match self {
            NoteError::Open { path, .. } => {
                let mut m = String::from_str("failed to open note ");
                m.append(path.as_str());
                m
            },
            NoteError::Save { path, .. } => {
                let mut m = String::from_str("failed to save note: ");
                m.append(path.as_str());
                m
            },
            NoteError::SectionNotFound { section } => {
                let mut m = String::from_str("section '");
                m.append(section.as_str());
                m.append("' not found");
                m
            },
        }
    }
}

/// The section a request resolves to on a document: the root section
/// when no name is given, else the named child of the root.
pub open spec fn requested_section(b: Seq<u8>, name: Option<Seq<char>>) -> Option<(int, int, int)> {
    match name {
        None => Some((0int, 0int, b.len() as int)),
        Some(nm) => resolve_spec(b, 0, 0, b.len() as int, nm),
    }
}

/// The view of an optional section name.
pub open spec fn opt_name_view(name: Option<&str>) -> Option<Seq<char>> {
    match name {
        None => None,
        Some(s) => Some(s@),
    }
}

/// Low-level structure wrapping a markdown note.
pub struct Note {
    buf: TextBuffer,
    path: String,
}

impl Note {
    /// The note's full text, as its UTF-8 bytes.
    pub closed spec fn text(&self) -> Seq<u8> {
        buf_bytes(&self.buf)
    }

    /// The path the note was read from.
    pub closed spec fn spec_path(&self) -> Seq<char> {
        self.path@
    }

    /// The note's text is valid UTF-8.
    pub closed spec fn wf(&self) -> bool {
        valid_utf8(self.text())
    }

    /// Wraps text read from `path` in a note.
    pub fn from_text(path: String, contents: &str) -> (n: Note)
        ensures
            n.text() == contents.spec_bytes(),
            n.spec_path() == path@,
            n.wf(),
    {
        let buf = TextBuffer::from_text(contents);
        proof {
            vstd::utf8::encode_utf8_valid_utf8(contents@);
        }
        Note { buf, path }
    }

    /// The path the note belongs to.
    pub fn path(&self) -> (p: &String)
        ensures
            p@ == self.spec_path(),
    {
        &self.path
    }

    /// The note's full text, to be written back to its file.
    pub fn to_string(&self) -> (s: String)
        requires
            self.wf(),
        ensures
            encode_utf8(s@) == self.text(),
    {
        let root = Section::root(&self.buf);
        let s = root.body(&self.buf);
        proof {
            assert(self.text().subrange(0, self.text().len() as int) =~= self.text());
        }
        s
    }

    /// Resolves the root section, or a named section under the root.
    fn resolve(&self, name: Option<&str>) -> (r: Option<Section>)
        requires
            self.wf(),
        ensures
            match r {
                None => opt_name_view(name) is Some && requested_section(
                    self.text(),
                    opt_name_view(name),
                ) is None,
                Some(s) => {
                    &&& requested_section(self.text(), opt_name_view(name)) == Some(
                        (s.weight as int, s.start as int, s.end as int),
                    )
                    &&& s.wf(&self.buf)
                },
            },
    {
        let root = Section::root(&self.buf);
        match name {
            Some(nm) => root.subsection(&self.buf, nm),
            None => Some(root),
        }
    }

    /// Gets the body of the note, or of the named section.
    ///
    /// # Errors
    /// Returns `SectionNotFound` if a section name is given and no such
    /// section exists.
    pub fn body(&self, section: Option<&str>) -> (r: Result<String, NoteError>)
        requires
            self.wf(),
        ensures
            match r {
                Ok(s) => ({
                    let q = requested_section(self.text(), opt_name_view(section));
                    &&& q is Some
                    &&& encode_utf8(s@) == self.text().subrange(q.unwrap().1, q.unwrap().2)
                }),
                Err(e) => {
                    &&& requested_section(self.text(), opt_name_view(section)) is None
                    &&& section is Some
                    &&& e matches NoteError::SectionNotFound { section: nm } && nm@
                        == section.unwrap()@
                },
            },
    {
        match self.resolve(section) {
            None => Err(
                NoteError::SectionNotFound { section: String::from_str(section.unwrap()) },
            ),
            Some(sec) => Ok(sec.body(&self.buf)),
        }
    }

    /// Appends rendered markdown to the end of the note, or of the named
    /// section.
    ///
    /// # Errors
    /// Returns `SectionNotFound` if a section name is given and no such
    /// section exists; the note is then unchanged.
    pub fn append<T: ToMarkdown>(&mut self, data: T, section: Option<&str>) -> (r: Result<
        (),
        NoteError,
    >)
        requires
            old(self).wf(),
        ensures
            final(self).spec_path() == old(self).spec_path(),
            final(self).wf(),
            match r {
                Ok(_) => ({
                    let q = requested_section(old(self).text(), opt_name_view(section));
                    &&& q is Some
                    &&& final(self).text() == old(self).text().subrange(0, q.unwrap().2)
                        + encode_utf8(data.md_view()) + old(self).text().subrange(
                        q.unwrap().2,
                        old(self).text().len() as int,
                    )
                }),
                Err(e) => {
                    &&& final(self).text() == old(self).text()
                    &&& requested_section(old(self).text(), opt_name_view(section)) is None
                    &&& section is Some
                    &&& e matches NoteError::SectionNotFound { section: nm } && nm@
                        == section.unwrap()@
                },
            },
    {
        match self.resolve(section) {
            None => Err(
                NoteError::SectionNotFound { section: String::from_str(section.unwrap()) },
            ),
            Some(mut sec) => {
                sec.append(&mut self.buf, data);
                Ok(())
            },
        }
    }

    /// Trims whitespace at the end of the note, or of the named section,
    /// keeping the final line break in place.
    ///
    /// # Errors
    /// Returns `SectionNotFound` if a section name is given and no such
    /// section exists; the note is then unchanged.
    pub fn trim_end(&mut self, section: Option<&str>) -> (r: Result<(), NoteError>)
        requires
            old(self).wf(),
        ensures
            final(self).spec_path() == old(self).spec_path(),
            final(self).wf(),
            match r {
                Ok(_) => ({
                    let q = requested_section(old(self).text(), opt_name_view(section));
                    &&& q is Some
                    &&& final(self).text() == trim_new_bytes(
                        old(self).text(),
                        q.unwrap().1,
                        q.unwrap().2,
                    )
                }),
                Err(e) => {
                    &&& final(self).text() == old(self).text()
                    &&& requested_section(old(self).text(), opt_name_view(section)) is None
                    &&& section is Some
                    &&& e matches NoteError::SectionNotFound { section: nm } && nm@
                        == section.unwrap()@
                },
            },
    {
        match self.resolve(section) {
            None => Err(
                NoteError::SectionNotFound { section: String::from_str(section.unwrap()) },
            ),
            Some(mut sec) => {
                sec.trim_end(&mut self.buf);
                Ok(())
            },
        }
    }
}

} // verus!
