//! Byte-level text helpers shared by every parser and marshaler in the
//! crate: ASCII text as `String`, decimal rendering and parsing of unsigned
//! integers (std's `Display`/`FromStr` forms), and the lexicographic byte
//! order `String`'s `Ord` uses.

use vstd::prelude::*;
use vstd::string::*;
use vstd::utf8::*;

verus! {

broadcast use vstd::utf8::group_utf8_lib;

/// The characters an ASCII byte sequence spells, one per byte.
pub open spec fn ascii_text(b: Seq<u8>) -> Seq<char> {
    Seq::new(b.len(), |i: int| b[i] as char)
}

/// Every byte is below 0x80.
pub open spec fn all_ascii(b: Seq<u8>) -> bool {
    forall|i: int| 0 <= i < b.len() ==> #[trigger] b[i] < 128
}

/// ASCII bytes are valid UTF-8 and decode to the characters they spell.
pub proof fn lemma_ascii_utf8(b: Seq<u8>)
    requires
        all_ascii(b),
    ensures
        is_ascii_chars(ascii_text(b)),
        encode_utf8(ascii_text(b)) == b,
        valid_utf8(b),
        decode_utf8(b) == ascii_text(b),
{
    let c = ascii_text(b);
    assert(is_ascii_chars(c)) by {
        assert forall|i: int| 0 <= i < c.len() implies '\0' <= #[trigger] c[i] <= '\u{7f}' by {
            assert(b[i] < 128);
        }
    }
    is_ascii_chars_encode_utf8(c);
    assert forall|i: int| 0 <= i < b.len() implies encode_utf8(c)[i] == b[i] by {
        assert(c[i] as u8 == encode_utf8(c)[i]);
        assert(b[i] < 128);
        assert((b[i] as char) as u8 == b[i]);
    }
    assert(encode_utf8(c) =~= b);
    encode_utf8_valid_utf8(c);
    encode_utf8_decode_utf8(c);
}

/// `String::from_utf8`: `Some` exactly when the bytes are valid UTF-8
/// (std documents the `Err` case as "not UTF-8"), holding the characters
/// they decode to.
#[verifier::external_body]
pub(crate) fn string_from_utf8(bytes: Vec<u8>) -> (r: Option<String>)
    ensures
        r is Some <==> valid_utf8(bytes@),
        r matches Some(s) ==> s@ == decode_utf8(bytes@),
{
    String::from_utf8(bytes).ok()
}

/// `std::str::from_utf8`: `Some` exactly when the bytes are valid UTF-8,
/// borrowing them as the text they decode to.
#[verifier::external_body]
pub(crate) fn str_from_utf8(bytes: &[u8]) -> (r: Option<&str>)
    ensures
        r is Some <==> valid_utf8(bytes@),
        r matches Some(s) ==> s.spec_bytes() == bytes@ && s@ == decode_utf8(bytes@),
{
    std::str::from_utf8(bytes).ok()
}

/// ASCII bytes as the `String` they spell.
pub fn ascii_string(bytes: Vec<u8>) -> (s: String)
    requires
        all_ascii(bytes@),
    ensures
        s@ == ascii_text(bytes@),
{
    proof {
        lemma_ascii_utf8(bytes@);
    }
    string_from_utf8(bytes).unwrap()
}

// ── decimal rendering ───────────────────────────────────────────────────

/// The ASCII digit for `d < 10`.
pub open spec fn digit_byte(d: nat) -> u8 {
    (48 + d) as u8
}

/// Shortest decimal of `n` — std's `Display` for unsigned integers.
pub open spec fn decimal(n: nat) -> Seq<u8>
    decreases n,
{
    if n < 10 {
        seq![digit_byte(n)]
    } else {
        decimal(n / 10).push(digit_byte(n % 10))
    }
}

pub proof fn lemma_decimal_ascii(n: nat)
    ensures
        all_ascii(decimal(n)),
        decimal(n).len() >= 1,
    decreases n,
{
    if n >= 10 {
        lemma_decimal_ascii(n / 10);
    }
}

/// Ten to the `k`.
pub open spec fn pow10(k: nat) -> nat
    decreases k,
{
    if k == 0 {
        1
    } else {
        10 * pow10((k - 1) as nat)
    }
}

/// A number below ten to the `k` renders in at most `k` digits.
pub proof fn lemma_decimal_short(n: nat, k: nat)
    requires
        k >= 1,
        n < pow10(k),
    ensures
        decimal(n).len() <= k,
    decreases n,
{
    if n >= 10 {
        let j = (k - 1) as nat;
        if j == 0 {
            assert(pow10(k) == 10 * pow10(0));
        }
        assert(j >= 1);
        assert(pow10(k) == 10 * pow10(j));
        assert(n / 10 < pow10(j)) by (nonlinear_arith)
            requires
                n < 10 * pow10(j),
        ;
        lemma_decimal_short(n / 10, j);
    }
}

/// A `u64` renders in at most twenty digits.
pub proof fn lemma_decimal_len_bound(n: nat)
    requires
        n <= u64::MAX,
    ensures
        decimal(n).len() <= 20,
{
    reveal_with_fuel(pow10, 21);
    assert(pow10(20) == 100000000000000000000nat);
    lemma_decimal_short(n, 20);
}

/// A rendering is digits alone, with no leading zero unless it is `0`
/// itself, and reads back as the number it renders.
pub proof fn lemma_decimal_digits(n: nat)
    ensures
        all_digits(decimal(n)),
        digits_value(decimal(n)) == n,
        n > 0 ==> decimal(n)[0] != 48u8,
        decimal(n).len() > 0,
    decreases n,
{
    if n >= 10 {
        lemma_decimal_digits(n / 10);
        let d = decimal(n);
        assert(d.drop_last() =~= decimal(n / 10));
        assert(d[0] == decimal(n / 10)[0]);
        assert(d.last() == digit_byte(n % 10));
        assert((d.last() - 48) as nat == n % 10);
        assert(digits_value(d) == digits_value(decimal(n / 10)) * 10 + (d.last() - 48) as nat);
        assert(n == (n / 10) * 10 + n % 10);
    } else {
        let d = decimal(n);
        assert(d.drop_last() =~= Seq::<u8>::empty());
        assert(digits_value(d.drop_last()) == 0);
    }
}

/// A rendering parses back through std's `FromStr` wherever it is in range.
pub proof fn lemma_decimal_parses(n: nat, max: nat)
    requires
        n <= max,
    ensures
        std_parse_unsigned(decimal(n), max) == Some(n),
{
    lemma_decimal_digits(n);
    assert(is_digit(decimal(n)[0]));
}

/// `n` in shortest decimal, as bytes.
pub fn u64_decimal(n: u64) -> (r: Vec<u8>)
    ensures
        r@ == decimal(n as nat),
    decreases n,
{
    if n < 10 {
        let mut v: Vec<u8> = Vec::new();
        v.push((48 + n) as u8);
        v
    } else {
        let mut v = u64_decimal(n / 10);
        v.push((48 + n % 10) as u8);
        v
    }
}

/// `n` in shortest decimal, as a `String`.
pub fn u64_to_string(n: u64) -> (s: String)
    ensures
        s@ == ascii_text(decimal(n as nat)),
{
    proof {
        lemma_decimal_ascii(n as nat);
    }
    ascii_string(u64_decimal(n))
}

// ── decimal parsing ─────────────────────────────────────────────────────

pub open spec fn is_digit(b: u8) -> bool {
    48 <= b <= 57
}

pub open spec fn all_digits(b: Seq<u8>) -> bool {
    forall|i: int| 0 <= i < b.len() ==> is_digit(#[trigger] b[i])
}

/// The value a digit run spells.
pub open spec fn digits_value(b: Seq<u8>) -> nat
    decreases b.len(),
{
    if b.len() == 0 {
        0
    } else {
        digits_value(b.drop_last()) * 10 + (b.last() - 48) as nat
    }
}

/// std's `FromStr` for an unsigned integer type whose largest value is
/// `max`: an optional `+`, then one or more ASCII digits, and the value in
/// range.
pub open spec fn std_parse_unsigned(b: Seq<u8>, max: nat) -> Option<nat> {
    let d = if b.len() > 0 && b[0] == 43u8 {
        b.drop_first()
    } else {
        b
    };
    if d.len() > 0 && all_digits(d) && digits_value(d) <= max {
        Some(digits_value(d))
    } else {
        None
    }
}

proof fn lemma_digits_value_prefix(b: Seq<u8>, i: int)
    requires
        0 <= i <= b.len(),
        all_digits(b),
    ensures
        digits_value(b.take(i)) <= digits_value(b),
    decreases b.len(),
{
    if i < b.len() {
        assert(b.drop_last().take(i) =~= b.take(i));
        lemma_digits_value_prefix(b.drop_last(), i);
        assert(digits_value(b.drop_last()) <= digits_value(b.drop_last()) * 10) by (nonlinear_arith);
    } else {
        assert(b.take(i) =~= b);
    }
}

/// The digit run `d` read as a value no larger than `max`, or `None`.
fn parse_digits(d: &[u8], max: u64) -> (r: Option<u64>)
    ensures
        r is Some <==> (d@.len() > 0 && all_digits(d@) && digits_value(d@) <= max),
        r matches Some(v) ==> v == digits_value(d@),
{
    if d.len() == 0 {
        return None;
    }
    let mut i: usize = 0;
    let mut v: u64 = 0;
    while i < d.len()
        invariant
            0 <= i <= d@.len(),
            all_digits(d@.take(i as int)),
            v == digits_value(d@.take(i as int)),
            v <= max,
        decreases d@.len() - i,
    {
        let c = d[i];
        if c < 48 || c > 57 {
            return None;
        }
        let digit: u64 = (c - 48) as u64;
        if digit > max || v > (max - digit) / 10 {
            proof {
                if digit <= max {
                    assert(v * 10 + digit > max) by (nonlinear_arith)
                        requires
                            v > (max - digit) / 10,
                            digit <= max,
                    ;
                }
                assert(d@.take(i + 1).drop_last() =~= d@.take(i as int));
                if all_digits(d@) {
                    lemma_digits_value_prefix(d@, i + 1);
                }
            }
            return None;
        }
        proof {
            assert(v * 10 + digit <= max) by (nonlinear_arith)
                requires
                    v <= (max - digit) / 10,
                    digit <= max,
            ;
            assert(d@.take(i + 1).drop_last() =~= d@.take(i as int));
        }
        v = v * 10 + digit;
        i = i + 1;
    }
    assert(d@.take(i as int) =~= d@);
    Some(v)
}

/// std's `u64::from_str` over the text's bytes.
pub fn parse_u64(s: &str) -> (r: Option<u64>)
    ensures
        r matches Some(v) ==> std_parse_unsigned(s.spec_bytes(), u64::MAX as nat) == Some(v as nat),
        r is None ==> std_parse_unsigned(s.spec_bytes(), u64::MAX as nat) is None,
{
    parse_unsigned(s.as_bytes(), u64::MAX)
}

/// std's `FromStr` for an unsigned type whose largest value is `max`.
pub fn parse_unsigned(b: &[u8], max: u64) -> (r: Option<u64>)
    ensures
        r matches Some(v) ==> std_parse_unsigned(b@, max as nat) == Some(v as nat),
        r is None ==> std_parse_unsigned(b@, max as nat) is None,
{
    if b.len() > 0 && b[0] == 43u8 {
        let rest = slice_from(b, 1);
        assert(rest@ =~= b@.drop_first());
        parse_digits(rest, max)
    } else {
        parse_digits(b, max)
    }
}

/// `&b[from..]`.
pub fn slice_from(b: &[u8], from: usize) -> (r: &[u8])
    requires
        from <= b@.len(),
    ensures
        r@ == b@.subrange(from as int, b@.len() as int),
{
    &b[from..b.len()]
}

/// `&b[from..to]`.
pub fn slice_range(b: &[u8], from: usize, to: usize) -> (r: &[u8])
    requires
        from <= to <= b@.len(),
    ensures
        r@ == b@.subrange(from as int, to as int),
{
    &b[from..to]
}

// ── byte order ──────────────────────────────────────────────────────────

/// Lexicographic `<` on bytes — the order `str`'s `Ord` is.
pub open spec fn lex_lt(a: Seq<u8>, b: Seq<u8>) -> bool
    decreases a.len(),
{
    if a.len() == 0 {
        b.len() > 0
    } else if b.len() == 0 {
        false
    } else if a[0] != b[0] {
        a[0] < b[0]
    } else {
        lex_lt(a.drop_first(), b.drop_first())
    }
}

pub proof fn lemma_lex_irreflexive(a: Seq<u8>)
    ensures
        !lex_lt(a, a),
    decreases a.len(),
{
    if a.len() > 0 {
        lemma_lex_irreflexive(a.drop_first());
    }
}

pub proof fn lemma_lex_trichotomy(a: Seq<u8>, b: Seq<u8>)
    ensures
        lex_lt(a, b) || lex_lt(b, a) || a == b,
        !(lex_lt(a, b) && lex_lt(b, a)),
    decreases a.len(),
{
    if a.len() > 0 && b.len() > 0 {
        lemma_lex_trichotomy(a.drop_first(), b.drop_first());
        if a[0] == b[0] && a.drop_first() == b.drop_first() {
            assert(a =~= seq![a[0]] + a.drop_first());
            assert(b =~= seq![b[0]] + b.drop_first());
        }
    } else if a.len() == 0 && b.len() == 0 {
        assert(a =~= b);
    }
}

pub proof fn lemma_lex_transitive(a: Seq<u8>, b: Seq<u8>, c: Seq<u8>)
    requires
        lex_lt(a, b),
        lex_lt(b, c),
    ensures
        lex_lt(a, c),
    decreases a.len(),
{
    if a.len() > 0 && b.len() > 0 && c.len() > 0 {
        if a[0] == b[0] && b[0] == c[0] {
            lemma_lex_transitive(a.drop_first(), b.drop_first(), c.drop_first());
        }
    }
}

/// Lexicographic comparison of two byte runs.
pub fn bytes_lt(a: &[u8], b: &[u8]) -> (r: bool)
    ensures
        r == lex_lt(a@, b@),
{
    let mut i: usize = 0;
    assert(a@.skip(0) =~= a@);
    assert(b@.skip(0) =~= b@);
    while i < a.len() && i < b.len()
        invariant
            0 <= i <= a@.len(),
            i <= b@.len(),
            a@.take(i as int) == b@.take(i as int),
            lex_lt(a@, b@) == lex_lt(a@.skip(i as int), b@.skip(i as int)),
        decreases a@.len() - i,
    {
        if a[i] != b[i] {
            return a[i] < b[i];
        }
        proof {
            assert(a@.skip(i as int).drop_first() =~= a@.skip(i + 1));
            assert(b@.skip(i as int).drop_first() =~= b@.skip(i + 1));
            assert(a@.take(i + 1) =~= a@.take(i as int).push(a@[i as int]));
            assert(b@.take(i + 1) =~= b@.take(i as int).push(b@[i as int]));
        }
        i = i + 1;
    }
    i == a.len() && i < b.len()
}

/// Byte-wise equality.
pub fn bytes_eq(a: &[u8], b: &[u8]) -> (r: bool)
    ensures
        r == (a@ == b@),
{
    if a.len() != b.len() {
        return false;
    }
    let mut i: usize = 0;
    while i < a.len()
        invariant
            0 <= i <= a@.len(),
            a@.len() == b@.len(),
            a@.take(i as int) == b@.take(i as int),
        decreases a@.len() - i,
    {
        if a[i] != b[i] {
            return false;
        }
        proof {
            assert(a@.take(i + 1) =~= a@.take(i as int).push(a@[i as int]));
            assert(b@.take(i + 1) =~= b@.take(i as int).push(b@[i as int]));
        }
        i = i + 1;
    }
    assert(a@ =~= a@.take(i as int));
    assert(b@ =~= b@.take(i as int));
    true
}

/// `b` begins with `prefix`.
pub fn starts_with(b: &[u8], prefix: &[u8]) -> (r: bool)
    ensures
        r == (prefix@.len() <= b@.len() && b@.take(prefix@.len() as int) == prefix@),
{
    if prefix.len() > b.len() {
        return false;
    }
    let head = slice_range(b, 0, prefix.len());
    assert(head@ =~= b@.take(prefix@.len() as int));
    bytes_eq(head, prefix)
}

/// Append the bytes of `s` to `v`.
pub fn push_str_bytes(v: &mut Vec<u8>, s: &str)
    ensures
        final(v)@ == old(v)@ + s.spec_bytes(),
{
    v.extend_from_slice(s.as_bytes());
}


// ── text slices ─────────────────────────────────────────────────────────

/// Text equality, by characters.
pub fn str_eq(a: &str, b: &str) -> (r: bool)
    ensures
        r == (a@ == b@),
{
    let r = bytes_eq(a.as_bytes(), b.as_bytes());
    proof {
        assert(decode_utf8(a.spec_bytes()) == a@);
        assert(decode_utf8(b.spec_bytes()) == b@);
    }
    r
}

proof fn lemma_ascii_boundary(b: Seq<u8>, i: int)
    requires
        valid_utf8(b),
        0 <= i < b.len(),
        b[i] < 128,
    ensures
        is_char_boundary(b, i),
        is_char_boundary(b, i + 1),
{
    assert(!is_continuation_byte(b[i]));
    if i + 1 < b.len() {
        let tail = b.subrange(i, b.len() as int);
        valid_utf8_split(b, i);
        assert(tail[0] == b[i]);
        reveal_with_fuel(is_char_boundary, 2);
        assert(length_of_first_scalar(tail) == 1);
        assert(is_char_boundary(tail, 1));
        if is_continuation_byte(b[i + 1]) {
            assert(tail[1] == b[i + 1]);
            assert(!is_char_boundary(tail, 1)) by {
                is_char_boundary_iff_not_is_continuation_byte(tail, 1);
            }
        }
        is_char_boundary_iff_not_is_continuation_byte(b, i + 1);
    }
}

/// `s` around the ASCII byte at `i`: the text before it, and the text after.
pub fn split_around(s: &str, i: usize) -> (r: (&str, &str))
    requires
        i < s.spec_bytes().len(),
        s.spec_bytes()[i as int] < 128,
    ensures
        r.0.spec_bytes() == s.spec_bytes().take(i as int),
        r.1.spec_bytes() == s.spec_bytes().skip(i + 1),
{
    proof {
        lemma_ascii_boundary(s.spec_bytes(), i as int);
    }
    let (head, rest) = s.split_at(i);
    let ghost b = s.spec_bytes();
    proof {
        assert(rest.spec_bytes() == b.subrange(i as int, b.len() as int));
        assert(rest.spec_bytes()[0] == b[i as int]);
        lemma_ascii_boundary(rest.spec_bytes(), 0);
    }
    let (_, tail) = rest.split_at(1);
    assert(head.spec_bytes() =~= b.take(i as int));
    assert(tail.spec_bytes() =~= b.skip(i + 1));
    (head, tail)
}

/// The text after its first `n` bytes, which end on an ASCII byte.
pub fn skip_ascii(s: &str, n: usize) -> (r: &str)
    requires
        0 < n <= s.spec_bytes().len(),
        s.spec_bytes()[n - 1] < 128,
    ensures
        r.spec_bytes() == s.spec_bytes().skip(n as int),
{
    let (_, tail) = split_around(s, n - 1);
    tail
}

} // verus!
