//! Hex: the crate's one lowercase encoding (`{"hex"}`, `{"atom_hex"}`,
//! nonces, tokens, chains) and the decoders that read it back — the strict
//! lowercase one the wire tokens rest on, and the case-free ones of the
//! content forms and the signature field.

use vstd::prelude::*;
use vstd::string::*;
use crate::text;

verus! {

/// The lowercase hex digit of a nibble.
pub open spec fn hex_char(n: u8) -> u8 {
    if n < 10 {
        (48 + n) as u8
    } else {
        (87 + n) as u8
    }
}

/// Lowercase hex of a byte sequence: two digits per byte, high nibble first.
pub open spec fn hex_encode(b: Seq<u8>) -> Seq<u8> {
    Seq::new(
        2 * b.len(),
        |i: int|
            if i % 2 == 0 {
                hex_char(b[i / 2] >> 4)
            } else {
                hex_char(b[i / 2] & 15)
            },
    )
}

/// A LOWERCASE hex digit's value.
pub open spec fn lower_nibble(c: u8) -> Option<u8> {
    if 48 <= c <= 57 {
        Some((c - 48) as u8)
    } else if 97 <= c <= 102 {
        Some((c - 87) as u8)
    } else {
        None
    }
}

/// A hex digit's value in either case.
pub open spec fn any_nibble(c: u8) -> Option<u8> {
    if 65 <= c <= 70 {
        Some((c - 55) as u8)
    } else {
        lower_nibble(c)
    }
}

/// Exactly `n` bytes spelled in LOWERCASE hex, or `None`.
pub open spec fn lower_hex_decode(t: Seq<u8>, n: nat) -> Option<Seq<u8>> {
    if t.len() == 2 * n && (forall|i: int| 0 <= i < t.len() ==> (#[trigger] lower_nibble(t[i])) is Some) {
        Some(
            Seq::new(
                n,
                |i: int|
                    (lower_nibble(t[2 * i])->0 * 16 + lower_nibble(t[2 * i + 1])->0) as u8,
            ),
        )
    } else {
        None
    }
}

/// Hex of either case, two digits per byte, or `None`.
pub open spec fn any_hex_decode(t: Seq<u8>) -> Option<Seq<u8>> {
    if t.len() % 2 == 0 && (forall|i: int| 0 <= i < t.len() ==> (#[trigger] any_nibble(t[i])) is Some) {
        Some(
            Seq::new(
                t.len() / 2,
                |i: int| (any_nibble(t[2 * i])->0 * 16 + any_nibble(t[2 * i + 1])->0) as u8,
            ),
        )
    } else {
        None
    }
}

proof fn lemma_hex_char(n: u8)
    requires
        n < 16,
    ensures
        lower_nibble(hex_char(n)) == Some(n),
        hex_char(n) < 128,
{
}

pub proof fn lemma_hex_encode_ascii(b: Seq<u8>)
    ensures
        text::all_ascii(hex_encode(b)),
        forall|i: int| 0 <= i < hex_encode(b).len() ==> (#[trigger] lower_nibble(hex_encode(b)[i])) is Some,
{
    let e = hex_encode(b);
    assert forall|i: int| 0 <= i < e.len() implies e[i] < 128 && (#[trigger] lower_nibble(e[i])) is Some by {
        let x = b[i / 2];
        assert(x >> 4 < 16) by (bit_vector);
        assert(x & 15 < 16) by (bit_vector);
        lemma_hex_char(x >> 4);
        lemma_hex_char(x & 15);
    }
    assert forall|i: int| 0 <= i < e.len() implies #[trigger] e[i] < 128 by {
        assert(e[i] < 128 && lower_nibble(e[i]) is Some);
    }
}

/// Decoding lowercase hex undoes the encoding, so the encoding is injective:
/// `parse` admits exactly what `to_hex` emits.
pub proof fn lemma_hex_round_trip(b: Seq<u8>)
    ensures
        lower_hex_decode(hex_encode(b), b.len()) == Some(b),
{
    lemma_hex_encode_ascii(b);
    let e = hex_encode(b);
    let d = lower_hex_decode(e, b.len())->0;
    assert forall|i: int| 0 <= i < b.len() implies #[trigger] d[i] == b[i] by {
        let x = b[i];
        assert((2 * i) / 2 == i);
        assert((2 * i + 1) / 2 == i);
        assert((2 * i) % 2 == 0);
        assert((2 * i + 1) % 2 == 1);
        assert(x >> 4 < 16) by (bit_vector);
        assert(x & 15 < 16) by (bit_vector);
        lemma_hex_char(x >> 4);
        lemma_hex_char(x & 15);
        assert(((x >> 4) * 16 + (x & 15)) as u8 == x) by (bit_vector);
    }
    assert(d =~= b);
}

/// The byte `b` as lowercase hex.
fn hex_digit_of(n: u8) -> (c: u8)
    requires
        n < 16,
    ensures
        c == hex_char(n),
{
    if n < 10 {
        48 + n
    } else {
        87 + n
    }
}

/// Lowercase hex — the encoding behind `{"hex"}`, `{"atom_hex"}`, the
/// nonce and token wire forms, and the head record's chains.
pub fn hex_string(b: &[u8]) -> (s: String)
    ensures
        s@ == text::ascii_text(hex_encode(b@)),
{
    let out = hex_bytes(b);
    proof {
        lemma_hex_encode_ascii(b@);
    }
    text::ascii_string(out)
}

/// Lowercase hex, as bytes.
pub fn hex_bytes(b: &[u8]) -> (out: Vec<u8>)
    ensures
        out@ == hex_encode(b@),
{
    let mut out: Vec<u8> = Vec::new();
    let mut i: usize = 0;
    while i < b.len()
        invariant
            0 <= i <= b@.len(),
            out@ == hex_encode(b@.take(i as int)),
        decreases b@.len() - i,
    {
        let x = b[i];
        assert(x >> 4 < 16) by (bit_vector);
        assert(x & 15 < 16) by (bit_vector);
        let ghost before = out@;
        out.push(hex_digit_of(x >> 4));
        out.push(hex_digit_of(x & 15));
        proof {
            let t = b@.take(i + 1);
            assert(t =~= b@.take(i as int).push(x));
            assert forall|k: int| 0 <= k < 2 * t.len() implies #[trigger] out@[k] == hex_encode(t)[k] by {
                if k < 2 * i {
                    assert(k / 2 < i);
                    assert(t[k / 2] == b@.take(i as int)[k / 2]);
                } else if k == 2 * i {
                    assert(k / 2 == i);
                    assert(k % 2 == 0);
                } else {
                    assert(k == 2 * i + 1);
                    assert(k / 2 == i);
                    assert(k % 2 == 1);
                }
            }
            assert(out@ =~= hex_encode(t));
        }
        i = i + 1;
    }
    assert(b@.take(i as int) =~= b@);
    out
}

/// One LOWERCASE hex digit's value — the crate's one hex mapping; case is
/// refused here, in the byte it is handed.
pub fn hex_nibble(c: u8) -> (r: Option<u8>)
    ensures
        r == lower_nibble(c),
{
    if 48 <= c && c <= 57 {
        Some(c - 48)
    } else if 97 <= c && c <= 102 {
        Some(c - 87)
    } else {
        None
    }
}

/// One hex digit of either case.
pub(crate) fn any_hex_nibble(c: u8) -> (r: Option<u8>)
    ensures
        r == any_nibble(c),
{
    if 65 <= c && c <= 70 {
        Some(c - 55)
    } else {
        hex_nibble(c)
    }
}

/// Exactly `n` bytes of LOWERCASE hex, or `None` — the admission rule both
/// wire tokens rest on. Each `parse` admits only what its own emitter
/// produces, so an uppercase value is refused rather than normalized.
pub fn parse_lower_hex(s: &str, n: usize) -> (r: Option<Vec<u8>>)
    ensures
        r matches Some(v) ==> lower_hex_decode(s.spec_bytes(), n as nat) == Some(v@),
        r is None ==> lower_hex_decode(s.spec_bytes(), n as nat) is None,
{
    let t = s.as_bytes();
    let len = t.len();
    if n > usize::MAX / 2 {
        assert(2 * n > usize::MAX);
        assert(t@.len() == len);
        return None;
    }
    if t.len() != n * 2 {
        return None;
    }
    let mut out: Vec<u8> = Vec::new();
    let mut i: usize = 0;
    while i < n
        invariant
            0 <= i <= n,
            n <= usize::MAX / 2,
            t@.len() == 2 * n,
            t@ == s.spec_bytes(),
            out@.len() == i,
            forall|j: int| 0 <= j < 2 * i ==> (#[trigger] lower_nibble(t@[j])) is Some,
            forall|j: int|
                0 <= j < i ==> #[trigger] out@[j] == (lower_nibble(t@[2 * j])->0 * 16
                    + lower_nibble(t@[2 * j + 1])->0) as u8,
        decreases n - i,
    {
        let hi = hex_nibble(t[2 * i]);
        let lo = hex_nibble(t[2 * i + 1]);
        match (hi, lo) {
            (Some(h), Some(l)) => {
                assert(h < 16 && l < 16);
                out.push(h * 16 + l);
            },
            _ => {
                return None;
            },
        }
        i = i + 1;
    }
    let ghost d = lower_hex_decode(t@, n as nat);
    assert(d is Some);
    assert(out@ =~= d->0);
    Some(out)
}

/// Hex of either case — the content forms' decode. The odd-length refusal
/// comes FIRST; a bad digit is named as the byte it is, read as a `char`.
pub fn p_hex(s: &str) -> (r: Result<Vec<u8>, String>)
    ensures
        r matches Ok(v) ==> any_hex_decode(s.spec_bytes()) == Some(v@),
        r is Err ==> any_hex_decode(s.spec_bytes()) is None,
        r matches Err(e) ==> (s.spec_bytes().len() % 2 != 0 ==> e@ == "hex string has odd length"@),
{
    let t = s.as_bytes();
    if t.len() % 2 != 0 {
        return Err("hex string has odd length".to_string());
    }
    let mut out: Vec<u8> = Vec::new();
    let mut i: usize = 0;
    while i < t.len() / 2
        invariant
            0 <= i <= t@.len() / 2,
            t@.len() % 2 == 0,
            t@ == s.spec_bytes(),
            out@.len() == i,
            forall|j: int| 0 <= j < 2 * i ==> (#[trigger] any_nibble(t@[j])) is Some,
            forall|j: int|
                0 <= j < i ==> #[trigger] out@[j] == (any_nibble(t@[2 * j])->0 * 16 + any_nibble(
                    t@[2 * j + 1],
                )->0) as u8,
        decreases t@.len() / 2 - i,
    {
        let hi = hex_digit(t[2 * i]);
        let hi = match hi {
            Ok(h) => h,
            Err(e) => return Err(e),
        };
        let lo = hex_digit(t[2 * i + 1]);
        let lo = match lo {
            Ok(l) => l,
            Err(e) => return Err(e),
        };
        out.push(hi * 16 + lo);
        i = i + 1;
    }
    let ghost d = any_hex_decode(t@);
    assert(d is Some);
    assert(out@ =~= d->0);
    Ok(out)
}

/// `c`, read as the `char` of the same value, as text.
#[verifier::external_body]
pub(crate) fn byte_as_char_string(c: u8) -> (s: String)
    ensures
        s@ == seq![c as char],
{
    (c as char).to_string()
}

/// One hex digit of either case, or the refusal naming it.
pub fn hex_digit(c: u8) -> (r: Result<u8, String>)
    ensures
        r matches Ok(v) ==> any_nibble(c) == Some(v),
        r matches Err(e) ==> any_nibble(c) is None && e@ == "invalid hex digit '"@ + seq![
            c as char,
        ] + "'"@,
{
    match any_hex_nibble(c) {
        Some(v) => Ok(v),
        None => {
            let mut e = "invalid hex digit '".to_string();
            let ch = byte_as_char_string(c);
            e.append(ch.as_str());
            e.append("'");
            Err(e)
        },
    }
}

} // verus!
