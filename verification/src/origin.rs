//! Canonical web origins: `scheme://host[:port]`, lowercase, no path, no
//! trailing slash, the scheme's default port OMITTED. `Origin::parse`
//! admits ONLY the canonical text, so `parse(s).as_str() == s` for every
//! admitted `s`, and the loopback defaults are built as text this parse
//! admits.

use vstd::prelude::*;
use vstd::string::*;
use crate::text;

verus! {

broadcast use vstd::utf8::group_utf8_lib;

// ── the grammar, on bytes ───────────────────────────────────────────────

/// `http://`
pub open spec fn http_prefix() -> Seq<u8> {
    seq![104u8, 116u8, 116u8, 112u8, 58u8, 47u8, 47u8]
}

/// `https://`
pub open spec fn https_prefix() -> Seq<u8> {
    seq![104u8, 116u8, 116u8, 112u8, 115u8, 58u8, 47u8, 47u8]
}

pub open spec fn has_prefix(b: Seq<u8>, p: Seq<u8>) -> bool {
    p.len() <= b.len() && b.take(p.len() as int) == p
}

/// The scheme, stripped: `Some((https, rest))`.
pub open spec fn split_scheme(b: Seq<u8>) -> Option<(bool, Seq<u8>)> {
    if has_prefix(b, http_prefix()) {
        Some((false, b.skip(7)))
    } else if has_prefix(b, https_prefix()) {
        Some((true, b.skip(8)))
    } else {
        None
    }
}

/// The first index of `c` in `s`.
pub open spec fn first_index(s: Seq<u8>, c: u8) -> Option<int>
    decreases s.len(),
{
    if s.len() == 0 {
        None
    } else if s[0] == c {
        Some(0)
    } else {
        match first_index(s.drop_first(), c) {
            Some(i) => Some(i + 1),
            None => None,
        }
    }
}

/// The authority split into the host and the port text, if any: a
/// bracketed IPv6 host runs to its first `]`, which ends the text or is
/// followed by `:` and the port; any other host runs to the first `:`.
pub open spec fn split_host_port(rest: Seq<u8>) -> Option<(Seq<u8>, Option<Seq<u8>>)> {
    if rest.len() > 0 && rest[0] == 91u8 {
        let after = rest.drop_first();
        match first_index(after, 93u8) {
            None => None,
            Some(close) => {
                let host = rest.take(close + 2);
                let tail = after.skip(close + 1);
                if tail.len() == 0 {
                    Some((host, None))
                } else if tail[0] == 58u8 {
                    Some((host, Some(tail.drop_first())))
                } else {
                    None
                }
            },
        }
    } else {
        match first_index(rest, 58u8) {
            Some(i) => Some((rest.take(i), Some(rest.skip(i + 1)))),
            None => Some((rest, None)),
        }
    }
}

/// Lowercase letters, digits, `.`, `-`, and the bracketed-IPv6 alphabet
/// (`[`, `]`, `:`).
pub open spec fn host_byte_ok(b: u8) -> bool {
    (97 <= b <= 122) || (48 <= b <= 57) || b == 46u8 || b == 45u8 || b == 91u8 || b == 93u8
        || b == 58u8
}

pub open spec fn host_canonical(h: Seq<u8>) -> bool {
    forall|i: int| 0 <= i < h.len() ==> host_byte_ok(#[trigger] h[i])
}

/// A port text as canonical: no leading zero, digits alone, in `u16`
/// range, and not the scheme's default.
pub open spec fn port_ok(p: Seq<u8>, https: bool) -> bool {
    &&& !(p.len() > 0 && p[0] == 48u8)
    &&& text::all_digits(p)
    &&& text::std_parse_unsigned(p, 65535) is Some
    &&& text::std_parse_unsigned(p, 65535)->0 != (if https {
        443nat
    } else {
        80nat
    })
}

/// The canonical-origin grammar: `Some((https, host))` exactly for the
/// canonical texts.
pub open spec fn origin_spec(b: Seq<u8>) -> Option<(bool, Seq<u8>)> {
    match split_scheme(b) {
        None => None,
        Some((https, rest)) => match split_host_port(rest) {
            None => None,
            Some((host, port)) => {
                if host.len() == 0 || !host_canonical(host) {
                    None
                } else {
                    match port {
                        None => Some((https, host)),
                        Some(p) => if port_ok(p, https) {
                            Some((https, host))
                        } else {
                            None
                        },
                    }
                }
            },
        },
    }
}

// ── the exec grammar ────────────────────────────────────────────────────

pub fn find_byte(s: &[u8], c: u8) -> (r: Option<usize>)
    ensures
        r matches Some(i) ==> first_index(s@, c) == Some(i as int),
        r is None ==> first_index(s@, c) is None,
{
    let mut i: usize = 0;
    while i < s.len()
        invariant
            0 <= i <= s@.len(),
            forall|j: int| 0 <= j < i ==> s@[j] != c,
        decreases s@.len() - i,
    {
        if s[i] == c {
            proof {
                lemma_first_index_at(s@, c, i as int);
            }
            return Some(i);
        }
        i = i + 1;
    }
    proof {
        lemma_first_index_none(s@, c);
    }
    None
}

proof fn lemma_first_index_at(s: Seq<u8>, c: u8, i: int)
    requires
        0 <= i < s.len(),
        s[i] == c,
        forall|j: int| 0 <= j < i ==> s[j] != c,
    ensures
        first_index(s, c) == Some(i),
    decreases i,
{
    if i > 0 {
        lemma_first_index_at(s.drop_first(), c, i - 1);
    }
}

proof fn lemma_first_index_none(s: Seq<u8>, c: u8)
    requires
        forall|j: int| 0 <= j < s.len() ==> s[j] != c,
    ensures
        first_index(s, c) is None,
    decreases s.len(),
{
    if s.len() > 0 {
        lemma_first_index_none(s.drop_first(), c);
    }
}

pub proof fn lemma_first_index_bounds(s: Seq<u8>, c: u8)
    ensures
        first_index(s, c) matches Some(i) ==> 0 <= i < s.len() && s[i] == c && forall|j: int|
            0 <= j < i ==> s[j] != c,
        first_index(s, c) is None ==> forall|j: int| 0 <= j < s.len() ==> s[j] != c,
    decreases s.len(),
{
    if s.len() > 0 {
        lemma_first_index_bounds(s.drop_first(), c);
        if s[0] != c {
            assert forall|j: int| 0 < j < s.len() implies s[j] == s.drop_first()[j - 1] by {}
        }
    }
}

/// Host canonicality: uppercase anywhere refuses — canonical-only admission
/// is what makes `parse` the already-canonical check.
pub fn host_is_canonical(host: &[u8]) -> (r: bool)
    ensures
        r == host_canonical(host@),
{
    let mut i: usize = 0;
    while i < host.len()
        invariant
            0 <= i <= host@.len(),
            forall|j: int| 0 <= j < i ==> host_byte_ok(#[trigger] host@[j]),
        decreases host@.len() - i,
    {
        let b = host[i];
        let ok = (97 <= b && b <= 122) || (48 <= b && b <= 57) || b == 46 || b == 45 || b == 91
            || b == 93 || b == 58;
        if !ok {
            return false;
        }
        i = i + 1;
    }
    true
}

fn all_digit_bytes(p: &[u8]) -> (r: bool)
    ensures
        r == text::all_digits(p@),
{
    let mut i: usize = 0;
    while i < p.len()
        invariant
            0 <= i <= p@.len(),
            forall|j: int| 0 <= j < i ==> text::is_digit(#[trigger] p@[j]),
        decreases p@.len() - i,
    {
        if p[i] < 48 || p[i] > 57 {
            return false;
        }
        i = i + 1;
    }
    true
}

fn check_port(p: &[u8], https: bool) -> (r: bool)
    ensures
        r == port_ok(p@, https),
{
    if p.len() > 0 && p[0] == 48 {
        return false;
    }
    if !all_digit_bytes(p) {
        return false;
    }
    match text::parse_unsigned(p, 65535) {
        None => false,
        Some(v) => {
            let default: u64 = if https {
                443
            } else {
                80
            };
            v != default
        },
    }
}

fn http_bytes() -> (r: [u8; 7])
    ensures
        r@ == http_prefix(),
{
    let r: [u8; 7] = [104, 116, 116, 112, 58, 47, 47];
    assert(r@ =~= http_prefix());
    r
}

fn https_bytes() -> (r: [u8; 8])
    ensures
        r@ == https_prefix(),
{
    let r: [u8; 8] = [104, 116, 116, 112, 115, 58, 47, 47];
    assert(r@ =~= https_prefix());
    r
}

/// The grammar over bytes: `Some((https, host))` for a canonical text.
fn parse_parts(b: &[u8]) -> (r: Option<(bool, Vec<u8>)>)
    ensures
        r matches Some((https, host)) ==> origin_spec(b@) == Some((https, host@)),
        r is None ==> origin_spec(b@) is None,
{
    let http = http_bytes();
    let https_p = https_bytes();
    let (https, rest) = if text::starts_with(b, http.as_slice()) {
        (false, text::slice_from(b, 7))
    } else if text::starts_with(b, https_p.as_slice()) {
        (true, text::slice_from(b, 8))
    } else {
        return None;
    };
    assert(split_scheme(b@) == Some((https, rest@)));
    let (host, port): (&[u8], Option<&[u8]>) = if rest.len() > 0 && rest[0] == 91 {
        let after = text::slice_from(rest, 1);
        assert(after@ =~= rest@.drop_first());
        let close = match find_byte(after, 93) {
            Some(c) => c,
            None => return None,
        };
        proof {
            lemma_first_index_bounds(after@, 93u8);
        }
        let host = text::slice_range(rest, 0, close + 2);
        assert(host@ =~= rest@.take(close + 2));
        let tail = text::slice_from(after, close + 1);
        assert(tail@ =~= after@.skip(close + 1));
        if tail.len() == 0 {
            (host, None)
        } else if tail[0] == 58 {
            let p = text::slice_from(tail, 1);
            assert(p@ =~= tail@.drop_first());
            (host, Some(p))
        } else {
            return None;
        }
    } else {
        match find_byte(rest, 58) {
            Some(i) => {
                proof {
                    lemma_first_index_bounds(rest@, 58u8);
                }
                let h = text::slice_range(rest, 0, i);
                let p = text::slice_from(rest, i + 1);
                assert(h@ =~= rest@.take(i as int));
                assert(p@ =~= rest@.skip(i + 1));
                (h, Some(p))
            },
            None => (rest, None),
        }
    };
    assert(split_host_port(rest@) == Some((host@, match port {
        Some(p) => Some(p@),
        None => None,
    })));
    if host.len() == 0 || !host_is_canonical(host) {
        return None;
    }
    match port {
        None => {},
        Some(p) => {
            if !check_port(p, https) {
                return None;
            }
        },
    }
    Some((https, slice_to_vec(host)))
}

fn slice_to_vec(s: &[u8]) -> (v: Vec<u8>)
    ensures
        v@ == s@,
{
    let mut v: Vec<u8> = Vec::new();
    v.extend_from_slice(s);
    assert(v@ =~= s@);
    v
}

/// Every canonical text is ASCII.
pub proof fn lemma_origin_ascii(b: Seq<u8>)
    requires
        origin_spec(b) is Some,
    ensures
        text::all_ascii(b),
{
    let (https, rest) = split_scheme(b)->0;
    let k: int = if https {
        8
    } else {
        7
    };
    assert(b.take(k) == (if https {
        https_prefix()
    } else {
        http_prefix()
    }));
    assert(rest =~= b.skip(k));
    let (host, port) = split_host_port(rest)->0;
    if rest.len() > 0 && rest[0] == 91u8 {
        let after = rest.drop_first();
        lemma_first_index_bounds(after, 93u8);
        let close = first_index(after, 93u8)->0;
        let tail = after.skip(close + 1);
        assert forall|i: int| 0 <= i < b.len() implies #[trigger] b[i] < 128 by {
            if i < k {
                assert(b[i] == b.take(k)[i]);
            } else if i < k + close + 2 {
                assert(b[i] == host[i - k]);
                assert(host_byte_ok(host[i - k]));
            } else if i == k + close + 2 {
                assert(b[i] == tail[0]);
            } else {
                let p = port->0;
                assert(b[i] == p[i - k - close - 3]);
                assert(text::is_digit(p[i - k - close - 3]));
            }
        }
    } else {
        lemma_first_index_bounds(rest, 58u8);
        assert forall|i: int| 0 <= i < b.len() implies #[trigger] b[i] < 128 by {
            if i < k {
                assert(b[i] == b.take(k)[i]);
            } else {
                match first_index(rest, 58u8) {
                    Some(c) => {
                        if i < k + c {
                            assert(b[i] == host[i - k]);
                            assert(host_byte_ok(host[i - k]));
                        } else if i == k + c {
                            assert(b[i] == rest[c]);
                        } else {
                            let p = port->0;
                            assert(b[i] == p[i - k - c - 1]);
                            assert(text::is_digit(p[i - k - c - 1]));
                        }
                    },
                    None => {
                        assert(b[i] == host[i - k]);
                        assert(host_byte_ok(host[i - k]));
                    },
                }
            }
        }
    }
}

pub proof fn lemma_host_ascii(h: Seq<u8>)
    requires
        host_canonical(h),
    ensures
        text::all_ascii(h),
{
    assert forall|i: int| 0 <= i < h.len() implies #[trigger] h[i] < 128 by {
        assert(host_byte_ok(h[i]));
    }
}

// ── the value ───────────────────────────────────────────────────────────

/// One canonical web origin. The canonical text is the whole value; `https`
/// and `host` sit beside it because they tell a loopback-host origin.
#[derive(Debug, PartialEq, Eq, Hash)]
pub struct Origin {
    canonical: String,
    https: bool,
    host: String,
}

impl View for Origin {
    type V = Seq<u8>;

    /// The canonical text's bytes.
    closed spec fn view(&self) -> Seq<u8> {
        vstd::utf8::encode_utf8(self.canonical@)
    }
}

impl Origin {
    /// The parts the canonical text parses to.
    pub closed spec fn parts(&self) -> (bool, Seq<u8>) {
        (self.https, vstd::utf8::encode_utf8(self.host@))
    }

    #[verifier::type_invariant]
    closed spec fn wf(&self) -> bool {
        origin_spec(self@) == Some(self.parts())
    }

    /// What every origin carries: its text parses to its parts, and is
    /// ASCII. Costs nothing at run time.
    pub fn canonical_facts(&self)
        ensures
            origin_spec(self@) == Some(self.parts()),
            text::all_ascii(self@),
    {
        proof {
            use_type_invariant(self);
            lemma_origin_ascii(self@);
        }
    }

    /// Parse a canonical origin; `None` for anything else — uppercase, a
    /// path, a trailing slash, `null`, an explicit default port, a
    /// zero-padded port.
    pub fn parse(s: &str) -> (r: Option<Origin>)
        ensures
            r matches Some(o) ==> o@ == s.spec_bytes() && origin_spec(s.spec_bytes()) == Some(
                o.parts(),
            ),
            r is None ==> origin_spec(s.spec_bytes()) is None,
    {
        let b = s.as_bytes();
        match parse_parts(b) {
            None => None,
            Some((https, host_bytes)) => {
                proof {
                    text::lemma_ascii_utf8(host_bytes@);
                    lemma_host_ascii(host_bytes@);
                    text::lemma_ascii_utf8(host_bytes@);
                }
                let host = text::ascii_string(host_bytes);
                let canonical = s.to_owned();
                Some(Origin { canonical, https, host })
            },
        }
    }

    /// The canonical text — what the wire carries and what health publishes.
    pub fn as_str(&self) -> (r: &str)
        ensures
            r.spec_bytes() == self@,
    {
        self.canonical.as_str()
    }

    /// Plain HTTP?
    pub fn is_https(&self) -> (r: bool)
        ensures
            r == self.parts().0,
    {
        self.https
    }

    /// The host text's bytes.
    pub fn host_bytes(&self) -> (r: &[u8])
        ensures
            r@ == self.parts().1,
    {
        self.host.as_str().as_bytes()
    }

    /// A second value of the same origin.
    pub fn duplicate(&self) -> (r: Origin)
        ensures
            r@ == self@,
            r.parts() == self.parts(),
    {
        proof {
            use_type_invariant(self);
        }
        Origin { canonical: self.canonical.clone(), https: self.https, host: self.host.clone() }
    }
}

/// `Origin::parse` refused: the text is not a canonical origin.
#[derive(Debug, Clone, Copy, PartialEq, Eq, Hash)]
pub struct NotCanonical;

impl NotCanonical {
    /// The refusal's one-line text.
    pub fn text(&self) -> (s: String)
        ensures
            s@ == "not a canonical origin (scheme://host[:port], lowercase, the scheme's default port omitted)"@,
    {
        "not a canonical origin (scheme://host[:port], lowercase, the scheme's default port omitted)".to_owned()
    }
}

impl std::str::FromStr for Origin {
    type Err = NotCanonical;

    fn from_str(s: &str) -> (r: Result<Origin, NotCanonical>)
        ensures
            match origin_spec(s.spec_bytes()) {
                Some(_) => r matches Ok(o) && o@ == s.spec_bytes(),
                None => r is Err,
            },
    {
        match Origin::parse(s) {
            Some(o) => Ok(o),
            None => Err(NotCanonical),
        }
    }
}

/// A port is ALREADY BOUND. Carries that port — the number every live
/// session's origin set was established against — not the one offered.
#[derive(Debug, Clone, Copy, PartialEq, Eq, Hash)]
pub struct PortAlreadyBound(pub u16);

impl PortAlreadyBound {
    /// The port already bound.
    pub fn port(self) -> (p: u16)
        ensures
            p == self.0,
    {
        self.0
    }

    /// The refusal's one-line text.
    pub fn text(&self) -> (s: String)
        ensures
            s@ == "the auth port is already bound to "@ + text::ascii_text(
                text::decimal(self.0 as nat),
            ),
    {
        let mut s = "the auth port is already bound to ".to_owned();
        let n = text::u64_to_string(self.0 as u64);
        s.append(n.as_str());
        s
    }
}

} // verus!
