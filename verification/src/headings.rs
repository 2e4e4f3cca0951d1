//! Heading discovery.
//!
//! A heading line consists of a run of `#` markers, one space, and the
//! heading text, closed by a line break; the length of the marker run is
//! the heading's depth.  This module defines that line grammar over the
//! byte sequence of a document and the two searches section resolution
//! needs: the first heading matching a name at a depth strictly below a
//! scope, and the first heading shallow enough to close a section.

use vstd::prelude::*;
use vstd::string::StringSliceAdditionalSpecFns;
use vstd::string::StrSliceExecFns;
use vstd::utf8::decode_utf8;
use vstd::utf8::encode_utf8;
use vstd::utf8::is_char_boundary;
use vstd::utf8::is_char_boundary_iff_not_is_continuation_byte;
use vstd::utf8::is_char_boundary_start_end_of_seq;
use vstd::utf8::valid_utf8;
use vstd::utf8::valid_utf8_split;
use crate::casefold::lower_of;
use crate::casefold::lowercase;

verus! {

/// The line-break byte `\n`.
pub const NEWLINE: u8 = 10;

/// The heading-marker byte `#`.
pub const MARKER: u8 = 35;

/// The space byte separating a heading's markers from its text.
pub const SPACE: u8 = 32;

/// True when `i` starts a line of `t`: it is the start of the text or is
/// preceded by a line break.
pub open spec fn is_line_start(t: Seq<u8>, i: int) -> bool {
    i == 0 || t[i - 1] == NEWLINE
}

/// The offset of the line break closing the line that runs from `i`, or
/// the end of the text when no line break follows.
pub open spec fn line_end_from(t: Seq<u8>, i: int) -> int
    decreases t.len() - i,
{
    if i < 0 || i >= t.len() {
        t.len() as int
    } else if t[i] == NEWLINE {
        i
    } else {
        line_end_from(t, i + 1)
    }
}

/// The number of consecutive `#` marker bytes running from `i`.
pub open spec fn hash_run(t: Seq<u8>, i: int) -> int
    decreases t.len() - i,
{
    if i < 0 || i >= t.len() || t[i] != MARKER {
        0
    } else {
        1 + hash_run(t, i + 1)
    }
}

/// Case-insensitive equality of a heading's text, given by its UTF-8
/// bytes, with a requested name.
pub open spec fn name_matches(text_bytes: Seq<u8>, name: Seq<char>) -> bool {
    valid_utf8(text_bytes) && lower_of(decode_utf8(text_bytes)) == lower_of(name)
}

/// True when a heading matching `name` starts at `i`: `i` starts a line
/// made of at least `min_run` markers, one space, and text equal to
/// `name` up to case, closed by a line break.
pub open spec fn heading_at(t: Seq<u8>, min_run: int, name: Seq<char>, i: int) -> bool {
    let run = hash_run(t, i);
    let text_start = i + run + 1;
    let le = line_end_from(t, text_start);
    &&& is_line_start(t, i)
    &&& run >= min_run
    &&& i + run < t.len()
    &&& t[i + run] == SPACE
    &&& le < t.len()
    &&& name_matches(t.subrange(text_start, le), name)
}

/// The first position at or after `i` where a heading matching `name` at
/// depth at least `min_run` starts.
pub open spec fn first_heading_from(t: Seq<u8>, min_run: int, name: Seq<char>, i: int) -> Option<
    int,
>
    decreases t.len() - i,
{
    if i < 0 || i >= t.len() {
        None
    } else if heading_at(t, min_run, name, i) {
        Some(i)
    } else {
        first_heading_from(t, min_run, name, i + 1)
    }
}

/// True when the line starting at `i` is a heading line of depth at most
/// `max_run`, and so closes any section of depth `max_run`.
pub open spec fn terminator_at(t: Seq<u8>, max_run: int, i: int) -> bool {
    let run = hash_run(t, i);
    &&& is_line_start(t, i)
    &&& 1 <= run <= max_run
    &&& i + run < t.len()
    &&& t[i + run] == SPACE
}

/// The first position at or after `i` where a heading line of depth at
/// most `max_run` starts.
pub open spec fn first_terminator_from(t: Seq<u8>, max_run: int, i: int) -> Option<int>
    decreases t.len() - i,
{
    if i < 0 || i >= t.len() {
        None
    } else if terminator_at(t, max_run, i) {
        Some(i)
    } else {
        first_terminator_from(t, max_run, i + 1)
    }
}

/// The marker run is made of markers, runs to the first non-marker byte,
/// and stays within the text.
pub proof fn lemma_hash_run_props(t: Seq<u8>, i: int)
    requires
        0 <= i <= t.len(),
    ensures
        0 <= hash_run(t, i),
        i + hash_run(t, i) <= t.len(),
        forall|m: int| i <= m < i + hash_run(t, i) ==> t[m] == MARKER,
        i + hash_run(t, i) < t.len() ==> t[i + hash_run(t, i)] != MARKER,
    decreases t.len() - i,
{
    if i < t.len() && t[i] == MARKER {
        lemma_hash_run_props(t, i + 1);
    }
}

/// The line end lies at or after `i`, carries a line break unless it is
/// the end of the text, and no line break comes before it.
pub proof fn lemma_line_end_props(t: Seq<u8>, i: int)
    requires
        0 <= i <= t.len(),
    ensures
        i <= line_end_from(t, i) <= t.len(),
        line_end_from(t, i) < t.len() ==> t[line_end_from(t, i)] == NEWLINE,
        forall|m: int| i <= m < line_end_from(t, i) ==> t[m] != NEWLINE,
    decreases t.len() - i,
{
    if i < t.len() && t[i] != NEWLINE {
        lemma_line_end_props(t, i + 1);
    }
}

/// A search that starts anywhere in a stretch free of matching headings
/// finds the same heading.
pub proof fn lemma_no_heading_range(t: Seq<u8>, min_run: int, name: Seq<char>, a: int, b: int)
    requires
        0 <= a <= b <= t.len(),
        forall|m: int| a <= m < b ==> !heading_at(t, min_run, name, m),
    ensures
        first_heading_from(t, min_run, name, a) == first_heading_from(t, min_run, name, b),
    decreases b - a,
{
    if a < b {
        lemma_no_heading_range(t, min_run, name, a + 1, b);
    }
}

/// The position a heading search returns carries a matching heading, and
/// nothing before it does.
pub proof fn lemma_first_heading_is_match(t: Seq<u8>, min_run: int, name: Seq<char>, a: int)
    requires
        0 <= a,
        first_heading_from(t, min_run, name, a) is Some,
    ensures
        a <= first_heading_from(t, min_run, name, a).unwrap() < t.len(),
        heading_at(t, min_run, name, first_heading_from(t, min_run, name, a).unwrap()),
        forall|m: int|
            a <= m < first_heading_from(t, min_run, name, a).unwrap() ==> !heading_at(
                t,
                min_run,
                name,
                m,
            ),
    decreases t.len() - a,
{
    if a < t.len() && !heading_at(t, min_run, name, a) {
        lemma_first_heading_is_match(t, min_run, name, a + 1);
    }
}

/// A search that starts anywhere in a stretch free of closing headings
/// finds the same closing heading.
pub proof fn lemma_no_terminator_range(t: Seq<u8>, max_run: int, a: int, b: int)
    requires
        0 <= a <= b <= t.len(),
        forall|m: int| a <= m < b ==> !terminator_at(t, max_run, m),
    ensures
        first_terminator_from(t, max_run, a) == first_terminator_from(t, max_run, b),
    decreases b - a,
{
    if a < b {
        lemma_no_terminator_range(t, max_run, a + 1, b);
    }
}

/// The position a terminator search returns carries a closing heading,
/// and nothing before it does.
pub proof fn lemma_first_terminator_is_match(t: Seq<u8>, max_run: int, a: int)
    requires
        0 <= a,
        first_terminator_from(t, max_run, a) is Some,
    ensures
        a <= first_terminator_from(t, max_run, a).unwrap() < t.len(),
        terminator_at(t, max_run, first_terminator_from(t, max_run, a).unwrap()),
        forall|m: int|
            a <= m < first_terminator_from(t, max_run, a).unwrap() ==> !terminator_at(
                t,
                max_run,
                m,
            ),
    decreases t.len() - a,
{
    if a < t.len() && !terminator_at(t, max_run, a) {
        lemma_first_terminator_is_match(t, max_run, a + 1);
    }
}

/// In valid UTF-8, the position right after an ASCII byte lies on a
/// codepoint boundary.
pub proof fn lemma_boundary_after_ascii(t: Seq<u8>, p: int)
    requires
        valid_utf8(t),
        1 <= p <= t.len(),
        t[p - 1] < 0x80,
    ensures
        is_char_boundary(t, p),
{
    if p == t.len() {
        is_char_boundary_start_end_of_seq(t);
    } else {
        is_char_boundary_iff_not_is_continuation_byte(t, p - 1);
        valid_utf8_split(t, p - 1);
        let s2 = t.subrange(p - 1, t.len() as int);
        assert(vstd::utf8::is_leading_byte_width_1(s2[0]));
        assert(vstd::utf8::length_of_first_scalar(s2) == 1);
        let tail = vstd::utf8::pop_first_scalar(s2);
        assert(valid_utf8(tail));
        assert(tail.len() > 0);
        assert(tail[0] == t[p]);
        assert(vstd::utf8::valid_first_scalar(tail));
        assert(!vstd::utf8::is_continuation_byte(t[p]));
        is_char_boundary_iff_not_is_continuation_byte(t, p);
    }
}

/// The text of the byte range `[start, end)` of `s`, which must lie on
/// codepoint boundaries.
fn substr<'a>(s: &'a str, start: usize, end: usize) -> (r: &'a str)
    requires
        start <= end <= s.spec_bytes().len(),
        valid_utf8(s.spec_bytes()),
        is_char_boundary(s.spec_bytes(), start as int),
        is_char_boundary(s.spec_bytes(), end as int),
    ensures
        r.spec_bytes() == s.spec_bytes().subrange(start as int, end as int),
{
    let (_, rest) = s.split_at(start);
    proof {
        valid_utf8_split(s.spec_bytes(), start as int);
        if (end as int) < s.spec_bytes().len() {
            is_char_boundary_iff_not_is_continuation_byte(s.spec_bytes(), end as int);
            assert(rest.spec_bytes()[end - start] == s.spec_bytes()[end as int]);
            is_char_boundary_iff_not_is_continuation_byte(
                rest.spec_bytes(),
                end as int - start as int,
            );
        } else {
            is_char_boundary_start_end_of_seq(rest.spec_bytes());
        }
    }
    let (head, _) = rest.split_at(end - start);
    proof {
        assert(head.spec_bytes() =~= s.spec_bytes().subrange(start as int, end as int));
    }
    head
}

/// Counts the `#` markers running from `i`.
fn count_hash_run(t: &Vec<u8>, i: usize) -> (run: usize)
    requires
        i <= t@.len(),
    ensures
        run == hash_run(t@, i as int),
        i + run <= t@.len(),
{
    let n = t.len();
    let mut j = i;
    while j < n && t[j] == MARKER
        invariant
            i <= j <= n,
            n == t@.len(),
            hash_run(t@, i as int) == j - i + hash_run(t@, j as int),
        decreases n - j,
    {
        j = j + 1;
    }
    assert(hash_run(t@, j as int) == 0);
    j - i
}

/// Finds the line break closing the line that runs from `i`.
fn find_line_end(t: &Vec<u8>, i: usize) -> (le: usize)
    requires
        i <= t@.len(),
    ensures
        le == line_end_from(t@, i as int),
        i <= le <= t@.len(),
{
    let n = t.len();
    let mut j = i;
    while j < n && t[j] != NEWLINE
        invariant
            i <= j <= n,
            n == t@.len(),
            line_end_from(t@, i as int) == line_end_from(t@, j as int),
        decreases n - j,
    {
        j = j + 1;
    }
    j
}

/// Scans `text` for the first heading matching `name` at depth at least
/// `min_run`, returning its offset, marker run, and line end.
pub(crate) fn scan_heading(text: &String, min_run: usize, name: &str) -> (r: Option<
    (usize, usize, usize),
>)
    ensures
        ({
            let t = encode_utf8(text@);
            match r {
                None => first_heading_from(t, min_run as int, name@, 0) is None,
                Some((i, run, le)) => {
                    &&& first_heading_from(t, min_run as int, name@, 0) == Some(i as int)
                    &&& run == hash_run(t, i as int)
                    &&& le as int == line_end_from(t, i as int + run as int + 1)
                    &&& i + run < le < t.len()
                },
            }
        }),
{
    let ghost t = encode_utf8(text@);
    proof {
        vstd::utf8::encode_utf8_valid_utf8(text@);
    }
    let tb: Vec<u8> = text.as_str().as_bytes_vec();
    let low_name = lowercase(name);
    let n = tb.len();
    let mut i: usize = 0;
    while i < n
        invariant
            t == encode_utf8(text@),
            valid_utf8(t),
            tb@ == t,
            n == t.len(),
            i <= n,
            i < n ==> is_line_start(t, i as int),
            low_name@ == lower_of(name@),
            first_heading_from(t, min_run as int, name@, 0) == first_heading_from(
                t,
                min_run as int,
                name@,
                i as int,
            ),
        decreases n - i,
    {
        let run = count_hash_run(&tb, i);
        proof {
            lemma_hash_run_props(t, i as int);
        }
        if run >= min_run && i + run < n && tb[i + run] == SPACE {
            let text_start = i + run + 1;
            let le = find_line_end(&tb, text_start);
            proof {
                lemma_line_end_props(t, text_start as int);
            }
            if le < n {
                proof {
                    lemma_boundary_after_ascii(t, text_start as int);
                    is_char_boundary_iff_not_is_continuation_byte(t, le as int);
                }
                let hstr = substr(text.as_str(), text_start, le);
                let lh = lowercase(hstr);
                let matched = lh == low_name;
                proof {
                    vstd::utf8::encode_utf8_valid_utf8(hstr@);
                    vstd::utf8::encode_utf8_decode_utf8(hstr@);
                    assert(t.subrange(text_start as int, le as int) == hstr.spec_bytes());
                    assert(name_matches(t.subrange(text_start as int, le as int), name@)
                        == (lower_of(hstr@) == lower_of(name@)));
                }
                if matched {
                    proof {
                        assert(heading_at(t, min_run as int, name@, i as int));
                    }
                    return Some((i, run, le));
                } else {
                    proof {
                        assert(!heading_at(t, min_run as int, name@, i as int));
                        assert forall|m: int| i < m < le + 1 implies !heading_at(
                            t,
                            min_run as int,
                            name@,
                            m,
                        ) by {
                            assert(t[m - 1] != NEWLINE);
                        }
                        lemma_no_heading_range(t, min_run as int, name@, i as int, le as int + 1);
                    }
                    i = le + 1;
                }
            } else {
                proof {
                    assert(!heading_at(t, min_run as int, name@, i as int));
                    assert forall|m: int| i < m < n implies !heading_at(
                        t,
                        min_run as int,
                        name@,
                        m,
                    ) by {
                        assert(t[m - 1] != NEWLINE);
                    }
                    lemma_no_heading_range(t, min_run as int, name@, i as int, n as int);
                }
                return None;
            }
        } else {
            let le = find_line_end(&tb, i);
            proof {
                lemma_line_end_props(t, i as int);
            }
            if le < n {
                proof {
                    assert(!heading_at(t, min_run as int, name@, i as int));
                    assert forall|m: int| i < m < le + 1 implies !heading_at(
                        t,
                        min_run as int,
                        name@,
                        m,
                    ) by {
                        assert(t[m - 1] != NEWLINE);
                    }
                    lemma_no_heading_range(t, min_run as int, name@, i as int, le as int + 1);
                }
                i = le + 1;
            } else {
                proof {
                    assert(!heading_at(t, min_run as int, name@, i as int));
                    assert forall|m: int| i < m < n implies !heading_at(
                        t,
                        min_run as int,
                        name@,
                        m,
                    ) by {
                        assert(t[m - 1] != NEWLINE);
                    }
                    lemma_no_heading_range(t, min_run as int, name@, i as int, n as int);
                }
                return None;
            }
        }
    }
    None
}

/// Scans `text` for the first heading line of depth at most `max_run`.
pub(crate) fn scan_terminator(text: &String, max_run: usize) -> (r: Option<usize>)
    ensures
        ({
            let t = encode_utf8(text@);
            match r {
                None => first_terminator_from(t, max_run as int, 0) is None,
                Some(j) => {
                    &&& first_terminator_from(t, max_run as int, 0) == Some(j as int)
                    &&& j <= t.len()
                    &&& is_line_start(t, j as int)
                },
            }
        }),
{
    let ghost t = encode_utf8(text@);
    proof {
        vstd::utf8::encode_utf8_valid_utf8(text@);
    }
    let tb: Vec<u8> = text.as_str().as_bytes_vec();
    let n = tb.len();
    let mut i: usize = 0;
    while i < n
        invariant
            t == encode_utf8(text@),
            tb@ == t,
            n == t.len(),
            i <= n,
            i < n ==> is_line_start(t, i as int),
            first_terminator_from(t, max_run as int, 0) == first_terminator_from(
                t,
                max_run as int,
                i as int,
            ),
        decreases n - i,
    {
        let run = count_hash_run(&tb, i);
        proof {
            lemma_hash_run_props(t, i as int);
        }
        if 1 <= run && run <= max_run && i + run < n && tb[i + run] == SPACE {
            proof {
                assert(terminator_at(t, max_run as int, i as int));
            }
            return Some(i);
        } else {
            let le = find_line_end(&tb, i);
            proof {
                lemma_line_end_props(t, i as int);
            }
            if le < n {
                proof {
                    assert(!terminator_at(t, max_run as int, i as int));
                    assert forall|m: int| i < m < le + 1 implies !terminator_at(
                        t,
                        max_run as int,
                        m,
                    ) by {
                        assert(t[m - 1] != NEWLINE);
                    }
                    lemma_no_terminator_range(t, max_run as int, i as int, le as int + 1);
                }
                i = le + 1;
            } else {
                proof {
                    assert(!terminator_at(t, max_run as int, i as int));
                    assert forall|m: int| i < m < n implies !terminator_at(
                        t,
                        max_run as int,
                        m,
                    ) by {
                        assert(t[m - 1] != NEWLINE);
                    }
                    lemma_no_terminator_range(t, max_run as int, i as int, n as int);
                }
                return None;
            }
        }
    }
    None
}

} // verus!
