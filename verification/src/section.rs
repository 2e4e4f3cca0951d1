//! Sections of a note.
//!
//! A section is a view over a byte range of the shared text buffer,
//! tagged with the heading depth it was found at.  It supports body
//! extraction, resolution of a named subsection, appending rendered
//! markdown, and trimming trailing whitespace.
//!
//! A section's range is valid only relative to the buffer state at the
//! time it was computed: a structural edit made through one section view
//! updates that view's own range but leaves every other view over the
//! same buffer stale.  Stale views must not be reused.  Mutation is
//! exclusive by construction: editing through a section takes the
//! buffer by exclusive reference, so no read or second mutation can
//! overlap it.

use vstd::prelude::*;
use vstd::string::StringSliceAdditionalSpecFns;
use vstd::utf8::encode_utf8;
use vstd::utf8::is_char_boundary;
use vstd::utf8::is_char_boundary_iff_not_is_continuation_byte;
use vstd::utf8::is_char_boundary_start_end_of_seq;
use vstd::utf8::valid_utf8;
use vstd::utf8::valid_utf8_concat;
use vstd::utf8::valid_utf8_split;
use crate::buffer::TextBuffer;
use crate::buffer::buf_bytes;
use crate::headings::NEWLINE;
use crate::headings::SPACE;
use crate::headings::first_heading_from;
use crate::headings::first_terminator_from;
use crate::headings::hash_run;
use crate::headings::heading_at;
use crate::headings::lemma_boundary_after_ascii;
use crate::headings::lemma_first_heading_is_match;
use crate::headings::lemma_line_end_props;
use crate::headings::lemma_no_heading_range;
use crate::headings::lemma_no_terminator_range;
use crate::headings::line_end_from;
use crate::headings::scan_heading;
use crate::headings::terminator_at;
use crate::headings::scan_terminator;
use crate::markdown::ToMarkdown;

verus! {

/// The section a name resolves to inside a parent scope of depth
/// `weight` spanning `[start, end)` of the document bytes `b`: the
/// child's own depth and the byte range of its body.
///
/// The child's heading is the first one in the parent's range matching
/// `name` strictly deeper than `weight`; its body opens with the line
/// break closing that heading line and runs to the next heading line at
/// the child's depth or shallower, or to the end of the document.
pub open spec fn resolve_spec(
    b: Seq<u8>,
    weight: int,
    start: int,
    end: int,
    name: Seq<char>,
) -> Option<(int, int, int)>
    recommends
        0 <= start <= end <= b.len(),
{
    let t = b.subrange(start, end);
    match first_heading_from(t, weight + 1, name, 0) {
        None => None,
        Some(i) => {
            let run = hash_run(t, i);
            let le = line_end_from(t, i + run + 1);
            let body_start = start + le;
            let rest = b.subrange(body_start, b.len() as int);
            match first_terminator_from(rest, run, 0) {
                None => Some((run, body_start, b.len() as int)),
                Some(j) => Some((run, body_start, body_start + j)),
            }
        },
    }
}

/// A named, bounded region of a document: a view over the byte range
/// `[start, end)` of the shared buffer, holding the section's body, at
/// heading depth `weight` (0 for the document root).
#[derive(Clone, Copy, Debug, PartialEq, Eq, Structural)]
pub struct Section {
    /// The heading depth the section was found at.
    pub weight: usize,
    /// The byte offset where the section's body begins.
    pub start: usize,
    /// The byte offset just past the section's body.
    pub end: usize,
}

impl Section {
    /// The section's range lies on codepoint boundaries of the buffer's
    /// valid UTF-8 contents.
    pub open spec fn wf(&self, buf: &TextBuffer) -> bool {
        &&& valid_utf8(buf_bytes(buf))
        &&& self.start <= self.end <= buf_bytes(buf).len()
        &&& is_char_boundary(buf_bytes(buf), self.start as int)
        &&& is_char_boundary(buf_bytes(buf), self.end as int)
        &&& self.weight < usize::MAX
    }

    /// Creates a section view from a depth and a byte range.
    pub fn new(weight: usize, start: usize, end: usize) -> (s: Section)
        ensures
            s == (Section { weight, start, end }),
    {
        Section { weight, start, end }
    }

    /// The root section: depth 0, spanning the whole buffer.
    pub fn root(buf: &TextBuffer) -> (s: Section)
        requires
            valid_utf8(buf_bytes(buf)),
        ensures
            s.weight == 0 && s.start == 0 && s.end == buf_bytes(buf).len(),
            s.wf(buf),
    {
        let n = buf.len();
        proof {
            is_char_boundary_start_end_of_seq(buf_bytes(buf));
        }
        Section::new(0, 0, n)
    }

    /// Returns the verbatim text of the section's body, interior blank
    /// lines and whitespace included.
    pub fn body(&self, buf: &TextBuffer) -> (r: String)
        requires
            self.wf(buf),
        ensures
            encode_utf8(r@) == buf_bytes(buf).subrange(self.start as int, self.end as int),
    {
        buf.slice_string(self.start, self.end)
    }

    /// Finds a section by name inside this one.
    ///
    /// The name is matched case-insensitively, only against headings
    /// strictly deeper than this section's depth; when several match,
    /// the first wins (names are assumed unique within their scope).
    /// The child's body opens with the line break closing its heading
    /// line and runs to the next heading at its depth or shallower, or
    /// to the end of the buffer; a heading line that no line break
    /// closes is not matched.  Absence is a normal outcome, not an
    /// error.
    pub fn subsection(&self, buf: &TextBuffer, name: &str) -> (r: Option<Section>)
        requires
            self.wf(buf),
        ensures
            match r {
                None => resolve_spec(
                    buf_bytes(buf),
                    self.weight as int,
                    self.start as int,
                    self.end as int,
                    name@,
                ) is None,
                Some(child) => {
                    &&& resolve_spec(
                        buf_bytes(buf),
                        self.weight as int,
                        self.start as int,
                        self.end as int,
                        name@,
                    ) == Some((child.weight as int, child.start as int, child.end as int))
                    &&& child.wf(buf)
                    &&& child.weight > self.weight
                },
            },
    {
        let ghost b = buf_bytes(buf);
        let blen = buf.len();
        let parent_text = buf.slice_string(self.start, self.end);
        let ghost t = b.subrange(self.start as int, self.end as int);
        let found = scan_heading(&parent_text, self.weight + 1, name);
        match found {
            None => None,
            Some((i, run, le)) => {
                proof {
                    lemma_first_heading_is_match(t, self.weight as int + 1, name@, 0);
                    lemma_line_end_props(t, i as int + run as int + 1);
                    // the heading's closing line break makes the position
                    // after it a codepoint boundary
                    assert(t[le as int] == NEWLINE);
                    assert(b[self.start as int + le as int] == NEWLINE);
                    is_char_boundary_iff_not_is_continuation_byte(b, self.start as int + le as int);
                    is_char_boundary_start_end_of_seq(b);
                }
                let body_start = self.start + le;
                let rest_text = buf.slice_string(body_start, blen);
                let ghost rest = b.subrange(body_start as int, b.len() as int);
                let term = scan_terminator(&rest_text, run);
                let child_end: usize = match term {
                    None => blen,
                    Some(j) => body_start + j,
                };
                proof {
                    assert(run < t.len());
                    if term is Some {
                        let j = term.unwrap() as int;
                        if j > 0 {
                            assert(rest[j - 1] == NEWLINE);
                            assert(b[body_start + j - 1] == NEWLINE);
                            lemma_boundary_after_ascii(b, body_start as int + j);
                        }
                    }
                }
                Some(Section::new(run, body_start, child_end))
            },
        }
    }
}

/// True of the bytes the trailing-whitespace trim removes: ASCII
/// whitespace.
pub open spec fn ws_byte(b: u8) -> bool {
    b == SPACE || b == 9 || b == NEWLINE || b == 13 || b == 12
}

/// The position the backward whitespace scan stops at: everything from
/// it up to `end` is whitespace, and what precedes it (if anything at or
/// after `start` does) is not.
pub open spec fn trim_stop(t: Seq<u8>, start: int, end: int) -> int
    decreases end - start,
{
    if end <= start {
        end
    } else if ws_byte(t[end - 1]) {
        trim_stop(t, start, end - 1)
    } else {
        end
    }
}

/// The section's end offset after trimming: unchanged when at most one
/// whitespace byte trails the last content byte, else pulled back to
/// just past the last content byte.
pub open spec fn trim_new_end(b: Seq<u8>, start: int, end: int) -> int {
    let p = trim_stop(b, start, end);
    if p + 1 >= end {
        end
    } else {
        p
    }
}

/// The document bytes after trimming a section's trailing whitespace:
/// the whitespace between the last content byte and the section's final
/// byte is deleted, so the final byte - ordinarily the section's closing
/// line break - survives.
pub open spec fn trim_new_bytes(b: Seq<u8>, start: int, end: int) -> Seq<u8> {
    let p = trim_stop(b, start, end);
    if p + 1 >= end {
        b
    } else {
        b.subrange(0, p) + b.subrange(end - 1, b.len() as int)
    }
}

/// The whitespace scan stops inside the range, only whitespace follows
/// the stop, and nothing but content precedes it.
pub proof fn lemma_trim_stop_props(t: Seq<u8>, start: int, end: int)
    requires
        0 <= start <= end <= t.len(),
    ensures
        start <= trim_stop(t, start, end) <= end,
        forall|m: int| trim_stop(t, start, end) <= m < end ==> ws_byte(t[m]),
        trim_stop(t, start, end) > start ==> !ws_byte(t[trim_stop(t, start, end) - 1]),
    decreases end - start,
{
    if end > start && ws_byte(t[end - 1]) {
        lemma_trim_stop_props(t, start, end - 1);
    }
}

/// The whitespace scan over a slice of the document stops where the scan
/// over the document itself does.
pub proof fn lemma_trim_stop_local(b: Seq<u8>, start: int, end: int, k: int)
    requires
        0 <= start <= end <= b.len(),
        0 <= k <= end - start,
    ensures
        trim_stop(b.subrange(start, end), 0, k) == trim_stop(b, start, start + k) - start,
    decreases k,
{
    if k > 0 && ws_byte(b.subrange(start, end)[k - 1]) {
        lemma_trim_stop_local(b, start, end, k - 1);
    }
}

/// Whether `b` is an ASCII whitespace byte.
fn is_ws(b: u8) -> (r: bool)
    ensures
        r == ws_byte(b),
{
    b == SPACE || b == 9 || b == NEWLINE || b == 13 || b == 12
}

impl Section {
    /// Appends rendered markdown at the end of the section.
    ///
    /// The fragment is inserted immediately before whatever currently
    /// follows the section, and the section's own range grows to cover
    /// it.  Surrounding whitespace is not reformatted: any separating
    /// line break belongs to the rendered fragment.  Other section views
    /// over the same buffer whose ranges lie at or after the insertion
    /// point become stale.
    pub fn append<T: ToMarkdown>(&mut self, buf: &mut TextBuffer, data: T)
        requires
            old(self).wf(old(buf)),
        ensures
            buf_bytes(final(buf)) == buf_bytes(old(buf)).subrange(0, old(self).end as int)
                + encode_utf8(data.md_view()) + buf_bytes(old(buf)).subrange(
                old(self).end as int,
                buf_bytes(old(buf)).len() as int,
            ),
            final(self).start == old(self).start,
            final(self).weight == old(self).weight,
            final(self).end as int == old(self).end + encode_utf8(data.md_view()).len(),
            final(self).wf(final(buf)),
    {
        let ghost b = buf_bytes(old(buf));
        let fragment = data.to_markdown();
        let ghost enc = encode_utf8(fragment@);
        let old_len = buf.len();
        let tail = old_len - self.end;
        buf.edit(self.end, self.end, fragment.as_str());
        let new_len = buf.len();
        proof {
            vstd::utf8::encode_utf8_valid_utf8(fragment@);
            valid_utf8_split(b, self.end as int);
            valid_utf8_concat(enc, b.subrange(self.end as int, b.len() as int));
            valid_utf8_concat(
                b.subrange(0, self.end as int),
                enc + b.subrange(self.end as int, b.len() as int),
            );
            assert(b.subrange(0, self.end as int) + enc + b.subrange(
                b.len() as int - tail as int,
                b.len() as int,
            ) =~= b.subrange(0, self.end as int) + (enc + b.subrange(
                b.len() as int - tail as int,
                b.len() as int,
            )));
        }
        self.end = new_len - tail;
        proof {
            let bn = buf_bytes(buf);
            assert(bn.len() == b.len() + enc.len());
            assert(self.end as int == old(self).end + enc.len());
            // the new range still lies on codepoint boundaries
            if (self.start as int) < b.len() {
                if self.start < old(self).end {
                    assert(bn[self.start as int] == b[self.start as int]);
                    is_char_boundary_iff_not_is_continuation_byte(b, self.start as int);
                    is_char_boundary_iff_not_is_continuation_byte(bn, self.start as int);
                } else {
                    assert(self.start == old(self).end);
                    lemma_boundary_at_suffix(b, bn, enc, old(self).end as int);
                }
            } else {
                assert(self.start as int == b.len());
                if enc.len() == 0 {
                    is_char_boundary_start_end_of_seq(bn);
                } else {
                    lemma_boundary_at_suffix(b, bn, enc, old(self).end as int);
                }
            }
            if (self.end as int) < bn.len() {
                assert(bn[self.end as int] == b[old(self).end as int]);
                is_char_boundary_iff_not_is_continuation_byte(b, old(self).end as int);
                is_char_boundary_iff_not_is_continuation_byte(bn, self.end as int);
            } else {
                is_char_boundary_start_end_of_seq(bn);
            }
        }
    }

    /// Trims trailing whitespace from the section's body.
    ///
    /// The whitespace between the last content byte and the section's
    /// final byte is deleted, so the final byte - ordinarily the line
    /// break separating the body from the next heading or the end of the
    /// document - stays in place, just outside the shrunk body.  Nothing
    /// changes when at most one whitespace byte trails the content.
    pub fn trim_end(&mut self, buf: &mut TextBuffer)
        requires
            old(self).wf(old(buf)),
        ensures
            buf_bytes(final(buf)) == trim_new_bytes(
                buf_bytes(old(buf)),
                old(self).start as int,
                old(self).end as int,
            ),
            final(self).end as int == trim_new_end(
                buf_bytes(old(buf)),
                old(self).start as int,
                old(self).end as int,
            ),
            final(self).start == old(self).start,
            final(self).weight == old(self).weight,
            final(self).start <= final(self).end,
            final(self).wf(final(buf)),
    {
        let ghost b = buf_bytes(old(buf));
        let body = buf.slice_string(self.start, self.end);
        let tb: Vec<u8> = body.as_str().as_bytes_vec();
        let len = tb.len();
        let mut p = len;
        while p > 0 && is_ws(tb[p - 1])
            invariant
                p <= len,
                len == tb@.len(),
                tb@ == b.subrange(old(self).start as int, old(self).end as int),
                trim_stop(tb@, 0, len as int) == trim_stop(tb@, 0, p as int),
            decreases p,
        {
            p = p - 1;
        }
        proof {
            assert(trim_stop(tb@, 0, p as int) == p);
            lemma_trim_stop_local(b, self.start as int, self.end as int, len as int);
            lemma_trim_stop_props(b, self.start as int, self.end as int);
        }
        let ghost stop = trim_stop(b, old(self).start as int, old(self).end as int);
        if len - p >= 2 {
            let cut_from = self.start + p;
            let cut_to = self.end - 1;
            proof {
                // the range removed holds only ASCII whitespace, so its
                // ends are codepoint boundaries
                assert(ws_byte(b[cut_from as int]));
                assert(ws_byte(b[cut_to as int]));
                is_char_boundary_iff_not_is_continuation_byte(b, cut_from as int);
                is_char_boundary_iff_not_is_continuation_byte(b, cut_to as int);
            }
            buf.edit(cut_from, cut_to, "");
            self.end = cut_from;
            proof {
                reveal_strlit("");
                assert("".spec_bytes() =~= Seq::<u8>::empty());
                let bn = buf_bytes(buf);
                assert(bn =~= b.subrange(0, stop) + b.subrange(
                    old(self).end - 1,
                    b.len() as int,
                ));
                assert(bn == trim_new_bytes(b, old(self).start as int, old(self).end as int));
                // the shrunk range still lies on codepoint boundaries
                valid_utf8_split(b, cut_from as int);
                valid_utf8_split(b, cut_to as int);
                valid_utf8_concat(
                    b.subrange(0, cut_from as int),
                    b.subrange(cut_to as int, b.len() as int),
                );
                assert(bn[self.end as int] == b[cut_to as int]);
                is_char_boundary_iff_not_is_continuation_byte(bn, self.end as int);
                if self.start < self.end {
                    assert(bn[self.start as int] == b[old(self).start as int]);
                    is_char_boundary_iff_not_is_continuation_byte(b, old(self).start as int);
                    is_char_boundary_iff_not_is_continuation_byte(bn, self.start as int);
                }
            }
        }
    }
}

/// At the seam of a prefix kept from `b` and an inserted valid UTF-8
/// fragment, the combined text has a codepoint boundary.
proof fn lemma_boundary_at_suffix(b: Seq<u8>, bn: Seq<u8>, enc: Seq<u8>, at: int)
    requires
        valid_utf8(bn),
        0 <= at <= b.len(),
        bn == b.subrange(0, at) + enc + b.subrange(at, b.len() as int),
        valid_utf8(enc),
        valid_utf8(b),
        is_char_boundary(b, at),
    ensures
        is_char_boundary(bn, at),
{
    if at == bn.len() {
        is_char_boundary_start_end_of_seq(bn);
    } else if enc.len() > 0 {
        assert(bn[at] == enc[0]);
        assert(vstd::utf8::valid_first_scalar(enc));
        assert(vstd::utf8::valid_leading_and_continuation_bytes_first_codepoint(enc));
        assert(!vstd::utf8::is_continuation_byte(enc[0]));
        is_char_boundary_iff_not_is_continuation_byte(bn, at);
    } else {
        assert(bn[at] == b[at]);
        assert(at < b.len());
        is_char_boundary_iff_not_is_continuation_byte(b, at);
        is_char_boundary_iff_not_is_continuation_byte(bn, at);
    }
}

/// No heading line of depth `run` or shallower follows `body_start` in
/// the document.
pub open spec fn no_closing_heading_after(b: Seq<u8>, run: int, body_start: int) -> bool {
    forall|j: int|
        0 <= j < b.len() - body_start ==> !#[trigger] terminator_at(
            b.subrange(body_start, b.len() as int),
            run,
            j,
        )
}

/// A name that no heading in the parent's range matches resolves to
/// absent.  Absence is the resolution's only negative outcome; it has no
/// error to return.
pub proof fn lemma_absent_name(b: Seq<u8>, weight: int, start: int, end: int, name: Seq<char>)
    requires
        0 <= start <= end <= b.len(),
        forall|i: int|
            0 <= i < end - start ==> !#[trigger] heading_at(
                b.subrange(start, end),
                weight + 1,
                name,
                i,
            ),
    ensures
        resolve_spec(b, weight, start, end, name) is None,
{
    let t = b.subrange(start, end);
    lemma_no_heading_range(t, weight + 1, name, 0, t.len() as int);
}

/// A name resolves only among headings strictly deeper than the current
/// scope: the resolved child's depth always exceeds the parent's, so a
/// shallower heading of the right name is never taken for a child.
pub proof fn lemma_child_strictly_deeper(
    b: Seq<u8>,
    weight: int,
    start: int,
    end: int,
    name: Seq<char>,
)
    requires
        0 <= start <= end <= b.len(),
        resolve_spec(b, weight, start, end, name) is Some,
    ensures
        resolve_spec(b, weight, start, end, name).unwrap().0 > weight,
{
    let t = b.subrange(start, end);
    lemma_first_heading_is_match(t, weight + 1, name, 0);
}

/// Round trip: right after a fragment is appended to a section, the
/// section's grown body reads as its previous body followed by the
/// fragment.
pub proof fn lemma_append_round_trip(b: Seq<u8>, start: int, end: int, fragment: Seq<u8>)
    requires
        0 <= start <= end <= b.len(),
    ensures
        (b.subrange(0, end) + fragment + b.subrange(end, b.len() as int)).subrange(
            start,
            end + fragment.len(),
        ) == b.subrange(start, end) + fragment,
{
    assert((b.subrange(0, end) + fragment + b.subrange(end, b.len() as int)).subrange(
        start,
        end + fragment.len(),
    ) =~= b.subrange(start, end) + fragment);
}

/// Trimming a section's trailing whitespace twice in a row gives what
/// trimming it once gives: the second trim changes nothing.
pub proof fn lemma_trim_idempotent(b: Seq<u8>, start: int, end: int)
    requires
        0 <= start <= end <= b.len(),
    ensures
        trim_new_bytes(trim_new_bytes(b, start, end), start, trim_new_end(b, start, end))
            == trim_new_bytes(b, start, end),
        trim_new_end(trim_new_bytes(b, start, end), start, trim_new_end(b, start, end))
            == trim_new_end(b, start, end),
{
    let p = trim_stop(b, start, end);
    lemma_trim_stop_props(b, start, end);
    if p + 1 < end {
        let b1 = trim_new_bytes(b, start, end);
        assert(trim_stop(b1, start, p) == p) by {
            if p > start {
                assert(b1[p - 1] == b[p - 1]);
            }
        }
    }
}

/// A body that is whitespace through and through trims down to the
/// empty body just before its final byte - the retained line break -
/// and the trimmed range never outruns its own start.
pub proof fn lemma_trim_all_whitespace(b: Seq<u8>, start: int, end: int)
    requires
        0 <= start <= end <= b.len(),
        forall|m: int| start <= m < end ==> ws_byte(b[m]),
    ensures
        start <= trim_new_end(b, start, end) <= end,
        end - start >= 2 ==> trim_new_end(b, start, end) == start && trim_new_bytes(b, start, end)
            == b.subrange(0, start) + b.subrange(end - 1, b.len() as int),
        end - start < 2 ==> trim_new_bytes(b, start, end) == b && trim_new_end(b, start, end)
            == end,
{
    lemma_trim_stop_props(b, start, end);
    assert(trim_stop(b, start, end) == start);
}

/// A section resolved with no closing heading anywhere after it runs to
/// the very end of the document.
pub proof fn lemma_extends_to_end(b: Seq<u8>, weight: int, start: int, end: int, name: Seq<char>)
    requires
        0 <= start <= end <= b.len(),
        resolve_spec(b, weight, start, end, name) is Some,
        no_closing_heading_after(
            b,
            resolve_spec(b, weight, start, end, name).unwrap().0,
            resolve_spec(b, weight, start, end, name).unwrap().1,
        ),
    ensures
        resolve_spec(b, weight, start, end, name).unwrap().2 == b.len(),
{
    let t = b.subrange(start, end);
    lemma_first_heading_is_match(t, weight + 1, name, 0);
    let i = first_heading_from(t, weight + 1, name, 0).unwrap();
    let run = hash_run(t, i);
    lemma_line_end_props(t, i + run + 1);
    let le = line_end_from(t, i + run + 1);
    let body_start = start + le;
    let rest = b.subrange(body_start, b.len() as int);
    lemma_no_terminator_range(rest, run, 0, rest.len() as int);
}

} // verus!
