//! Text helpers for HTTP heads: lines split on CRLF, runs split on one
//! byte, std's Unicode `trim`, and ASCII case folding.

use vstd::prelude::*;
use vstd::string::*;
use vstd::utf8::*;
use crate::origin;
use crate::text;

verus! {

broadcast use vstd::utf8::group_utf8_lib;

// ── whitespace ──────────────────────────────────────────────────────────

/// `char::is_whitespace`: the Unicode `White_Space` property — tab through
/// carriage return, space, NEL, no-break space, ogham space mark, the
/// en quad through hair space, line and paragraph separators, narrow
/// no-break space, medium mathematical space, ideographic space.
pub open spec fn is_white_space(c: char) -> bool {
    ('\u{9}' <= c <= '\u{d}') || c == ' ' || c == '\u{85}' || c == '\u{a0}' || c == '\u{1680}'
        || ('\u{2000}' <= c <= '\u{200a}') || c == '\u{2028}' || c == '\u{2029}' || c
        == '\u{202f}' || c == '\u{205f}' || c == '\u{3000}'
}

/// Leading white space removed.
pub open spec fn trim_start_chars(s: Seq<char>) -> Seq<char>
    decreases s.len(),
{
    if s.len() > 0 && is_white_space(s[0]) {
        trim_start_chars(s.drop_first())
    } else {
        s
    }
}

/// Trailing white space removed.
pub open spec fn trim_end_chars(s: Seq<char>) -> Seq<char>
    decreases s.len(),
{
    if s.len() > 0 && is_white_space(s.last()) {
        trim_end_chars(s.drop_last())
    } else {
        s
    }
}

/// Leading and trailing white space removed.
pub open spec fn trim_chars(s: Seq<char>) -> Seq<char> {
    trim_end_chars(trim_start_chars(s))
}

/// `str::trim`: the text with leading and trailing white space removed,
/// white space being what `char::is_whitespace` reports (std documents it
/// as the Unicode `White_Space` property).
#[verifier::external_body]
pub(crate) fn trim(s: &str) -> (r: &str)
    ensures
        r@ == trim_chars(s@),
{
    s.trim()
}

// ── ASCII case ──────────────────────────────────────────────────────────

/// `u8::to_ascii_lowercase`.
pub open spec fn lower(b: u8) -> u8 {
    if 65 <= b <= 90 {
        (b + 32) as u8
    } else {
        b
    }
}

/// `eq_ignore_ascii_case` on bytes: the same length, and equal byte for
/// byte once ASCII letters are folded to lowercase.
pub open spec fn eq_ignore_case(a: Seq<u8>, b: Seq<u8>) -> bool {
    a.len() == b.len() && forall|i: int| 0 <= i < a.len() ==> lower(#[trigger] a[i]) == lower(b[i])
}

/// Equality ignoring ASCII case.
pub fn eq_ignore_ascii_case(a: &[u8], b: &[u8]) -> (r: bool)
    ensures
        r == eq_ignore_case(a@, b@),
{
    if a.len() != b.len() {
        return false;
    }
    let mut i: usize = 0;
    while i < a.len()
        invariant
            0 <= i <= a@.len(),
            a@.len() == b@.len(),
            forall|j: int| 0 <= j < i ==> lower(#[trigger] a@[j]) == lower(b@[j]),
        decreases a@.len() - i,
    {
        let x = if 65 <= a[i] && a[i] <= 90 {
            a[i] + 32
        } else {
            a[i]
        };
        let y = if 65 <= b[i] && b[i] <= 90 {
            b[i] + 32
        } else {
            b[i]
        };
        if x != y {
            return false;
        }
        i = i + 1;
    }
    true
}

/// Every byte folded to ASCII lowercase.
pub open spec fn lowered(b: Seq<u8>) -> Seq<u8> {
    Seq::new(b.len(), |i: int| lower(b[i]))
}

/// `to_ascii_lowercase` on bytes.
pub fn ascii_lowercase(b: &[u8]) -> (r: Vec<u8>)
    ensures
        r@ == lowered(b@),
{
    let mut out: Vec<u8> = Vec::new();
    let mut i: usize = 0;
    while i < b.len()
        invariant
            0 <= i <= b@.len(),
            out@ == lowered(b@.take(i as int)),
        decreases b@.len() - i,
    {
        let c = if 65 <= b[i] && b[i] <= 90 {
            b[i] + 32
        } else {
            b[i]
        };
        out.push(c);
        assert(out@ =~= lowered(b@.take(i + 1)));
        i = i + 1;
    }
    assert(b@.take(i as int) =~= b@);
    out
}

/// `needle` occurs in `hay` at `i`.
pub open spec fn occurs_at(hay: Seq<u8>, needle: Seq<u8>, i: int) -> bool {
    0 <= i && i + needle.len() <= hay.len() && hay.subrange(i, i + needle.len()) == needle
}

/// `needle` occurs somewhere in `hay`.
pub open spec fn contains_run(hay: Seq<u8>, needle: Seq<u8>) -> bool {
    exists|i: int| occurs_at(hay, needle, i)
}

/// Whether `needle` occurs in `hay`.
pub fn contains_bytes(hay: &[u8], needle: &[u8]) -> (r: bool)
    ensures
        r == contains_run(hay@, needle@),
{
    if needle.len() > hay.len() {
        assert forall|i: int| !occurs_at(hay@, needle@, i) by {}
        return false;
    }
    let n = hay.len();
    let last = n - needle.len();
    let mut i: usize = 0;
    loop
        invariant
            needle@.len() <= hay@.len(),
            n == hay@.len(),
            last == hay@.len() - needle@.len(),
            0 <= i <= last,
            forall|j: int| 0 <= j < i ==> !occurs_at(hay@, needle@, j),
        decreases last - i,
    {
        let w = text::slice_range(hay, i, i + needle.len());
        if text::bytes_eq(w, needle) {
            assert(occurs_at(hay@, needle@, i as int));
            return true;
        }
        if i == last {
            assert forall|j: int| !occurs_at(hay@, needle@, j) by {
                if 0 <= j && j + needle@.len() <= hay@.len() {
                    assert(j <= i);
                    if j == i {
                        assert(hay@.subrange(j, j + needle@.len()) == w@);
                    }
                }
            }
            return false;
        }
        i = i + 1;
    }
}

// ── lines and runs ──────────────────────────────────────────────────────

/// The first `\r\n` in `b`.
pub open spec fn first_crlf(b: Seq<u8>) -> Option<int>
    decreases b.len(),
{
    if b.len() < 2 {
        None
    } else if b[0] == 13u8 && b[1] == 10u8 {
        Some(0)
    } else {
        match first_crlf(b.drop_first()) {
            Some(i) => Some(i + 1),
            None => None,
        }
    }
}

proof fn lemma_first_crlf(b: Seq<u8>)
    ensures
        first_crlf(b) matches Some(i) ==> 0 <= i && i + 2 <= b.len() && b[i] == 13u8 && b[i + 1]
            == 10u8,
    decreases b.len(),
{
    if b.len() >= 2 && !(b[0] == 13u8 && b[1] == 10u8) {
        lemma_first_crlf(b.drop_first());
    }
}

/// std's `str::split("\r\n")`: the lines, at least one.
pub open spec fn crlf_lines(b: Seq<u8>) -> Seq<Seq<u8>>
    decreases b.len(),
{
    match first_crlf(b) {
        Some(i) => if 0 <= i && i + 2 <= b.len() {
            seq![b.take(i)] + crlf_lines(b.skip(i + 2))
        } else {
            seq![b]
        },
        None => seq![b],
    }
}

fn find_crlf(b: &[u8]) -> (r: Option<usize>)
    ensures
        r matches Some(i) ==> first_crlf(b@) == Some(i as int),
        r is None ==> first_crlf(b@) is None,
{
    proof {
        lemma_first_crlf(b@);
    }
    let mut i: usize = 0;
    assert(b@.skip(0) =~= b@);
    while b.len() > 1 && i < b.len() - 1
        invariant
            0 <= i <= b@.len(),
            first_crlf(b@) == (match first_crlf(b@.skip(i as int)) {
                Some(j) => Some(j + i),
                None => None::<int>,
            }),
        decreases b@.len() - i,
    {
        if b[i] == 13u8 && b[i + 1] == 10u8 {
            return Some(i);
        }
        assert(b@.skip(i as int).drop_first() =~= b@.skip(i + 1));
        i = i + 1;
    }
    None
}

/// The first line of `s`, and the text after its `\r\n` if there is one.
pub fn next_line(s: &str) -> (r: (&str, Option<&str>))
    ensures
        match first_crlf(s.spec_bytes()) {
            Some(i) => r.0.spec_bytes() == s.spec_bytes().take(i) && (r.1 matches Some(t)
                && t.spec_bytes() == s.spec_bytes().skip(i + 2)),
            None => r.0.spec_bytes() == s.spec_bytes() && r.1 is None,
        },
        crlf_lines(s.spec_bytes()) == (match r.1 {
            Some(t) => seq![r.0.spec_bytes()] + crlf_lines(t.spec_bytes()),
            None => seq![r.0.spec_bytes()],
        }),
{
    proof {
        lemma_first_crlf(s.spec_bytes());
    }
    match find_crlf(s.as_bytes()) {
        None => (s, None),
        Some(i) => {
            let (line, rest) = text::split_around(s, i);
            proof {
                assert(rest.spec_bytes()[0] == 10u8);
            }
            let tail = text::skip_ascii(rest, 1);
            assert(tail.spec_bytes() =~= s.spec_bytes().skip(i + 2));
            (line, Some(tail))
        },
    }
}

/// The run of `s` before its first `sep`, and the text after it if there
/// is one.
pub fn next_run(s: &str, sep: u8) -> (r: (&str, Option<&str>))
    requires
        sep < 128,
    ensures
        match origin::first_index(s.spec_bytes(), sep) {
            Some(i) => r.0.spec_bytes() == s.spec_bytes().take(i) && (r.1 matches Some(t)
                && t.spec_bytes() == s.spec_bytes().skip(i + 1)),
            None => r.0.spec_bytes() == s.spec_bytes() && r.1 is None,
        },
{
    proof {
        origin::lemma_first_index_bounds(s.spec_bytes(), sep);
    }
    match origin::find_byte(s.as_bytes(), sep) {
        None => (s, None),
        Some(i) => {
            let (a, b) = text::split_around(s, i);
            (a, Some(b))
        },
    }
}

} // verus!
