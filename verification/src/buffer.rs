//! The editable text buffer backing a note.
//!
//! The buffer is a rope, so edits and slices cost O(log n) on large
//! documents.  Its contents are modelled as the sequence of UTF-8 bytes it
//! holds; all offsets taken and returned by this module are byte offsets.

use vstd::prelude::*;
use vstd::string::StringSliceAdditionalSpecFns;
use vstd::utf8::is_char_boundary;

verus! {

/// An editable character buffer addressed by byte offsets.
///
/// The rope type it holds cannot be declared to the verifier (its
/// declaration needs a bound on an outside trait), so the whole struct is
/// opaque and its contents are reached through `buf_bytes`.
#[verifier::external_body]
pub struct TextBuffer {
    rope: xi_rope::rope::Rope,
}

/// The bytes held by the buffer's rope.
pub uninterp spec fn buf_bytes(buf: &TextBuffer) -> Seq<u8>;

impl View for TextBuffer {
    type V = Seq<u8>;

    open spec fn view(&self) -> Seq<u8> {
        buf_bytes(self)
    }
}

impl TextBuffer {
    /// Relies on xi_rope's `Rope::from`, which builds a rope holding
    /// exactly the given text.
    #[verifier::external_body]
    pub fn from_text(text: &str) -> (buf: TextBuffer)
        ensures
            buf_bytes(&buf) == text.spec_bytes(),
    {
        TextBuffer { rope: xi_rope::rope::Rope::from(text) }
    }

    /// Relies on xi_rope's `Node::len`, which returns the length in bytes
    /// of the rope's contents.
    #[verifier::external_body]
    pub fn len(&self) -> (n: usize)
        ensures
            n == buf_bytes(self).len(),
    {
        self.rope.len()
    }

    /// Relies on xi_rope's `Rope::slice_to_cow`, which returns the text of
    /// the given byte range; the range must lie on codepoint boundaries.
    #[verifier::external_body]
    pub fn slice_string(&self, start: usize, end: usize) -> (s: String)
        requires
            start <= end <= buf_bytes(self).len(),
            is_char_boundary(buf_bytes(self), start as int),
            is_char_boundary(buf_bytes(self), end as int),
        ensures
            vstd::utf8::encode_utf8(s@) == buf_bytes(self).subrange(start as int, end as int),
    {
        self.rope.slice_to_cow(start..end).into_owned()
    }

    /// Relies on xi_rope's `Node::edit`, which replaces the given byte
    /// range of the rope with the new text; the range must lie on
    /// codepoint boundaries.
    #[verifier::external_body]
    pub fn edit(&mut self, start: usize, end: usize, new_text: &str)
        requires
            start <= end <= buf_bytes(old(self)).len(),
            is_char_boundary(buf_bytes(old(self)), start as int),
            is_char_boundary(buf_bytes(old(self)), end as int),
        ensures
            buf_bytes(final(self)) == buf_bytes(old(self)).subrange(0, start as int)
                + new_text.spec_bytes() + buf_bytes(old(self)).subrange(
                end as int,
                buf_bytes(old(self)).len() as int,
            ),
    {
        self.rope.edit(start..end, new_text)
    }
}

} // verus!
