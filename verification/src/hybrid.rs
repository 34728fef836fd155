//! The hybrid signature's byte-level values beside the daemon's verify:
//! the two half seeds one seed derives, the verifier's fault vocabulary,
//! the random streams a signer draws from — OS entropy, and a
//! deterministic SHA-256 counter-mode stream for fixtures — and the
//! lowercase hex keys are spelled in.

use vstd::prelude::*;
use vstd::string::*;
use crate::hex as hexenc;
use crate::text;

verus! {

/// The two half seeds one 32-byte seed derives under one tag.
#[derive(Clone, Copy, PartialEq, Eq)]
pub struct HalfSeeds {
    /// The Ed25519 half's seed.
    pub ed25519: [u8; 32],
    /// The post-quantum half's seed.
    pub pq: [u8; 32],
}

/// Why a hybrid signature did not verify — the cause a verifier can tell
/// from the bytes in hand and nothing else.
#[derive(Debug, Clone, Copy, PartialEq, Eq, Structural)]
pub enum HybridFault {
    /// The tag names no row, or the key is not that row's.
    WrongRow,
    /// The blob is not the tag's fixed width.
    Malformed,
    /// A half did not verify — which one is deliberately not said.
    Rejected,
}

/// Lowercase hex — the spelling public keys are read in.
pub fn hex(bytes: &[u8]) -> (s: String)
    ensures
        s@ == text::ascii_text(hexenc::hex_encode(bytes@)),
{
    hexenc::hex_string(bytes)
}

// ── byte orders ─────────────────────────────────────────────────────────

/// The `k` low base-256 digits of `n`, most significant first.
pub open spec fn be_bytes(n: nat, k: nat) -> Seq<u8>
    decreases k,
{
    if k == 0 {
        Seq::empty()
    } else {
        be_bytes(n / 256, (k - 1) as nat).push((n % 256) as u8)
    }
}

/// The value of bytes read least significant first.
pub open spec fn le_value(b: Seq<u8>) -> nat
    decreases b.len(),
{
    if b.len() == 0 {
        0
    } else {
        b[0] as nat + 256 * le_value(b.drop_first())
    }
}

/// `u64::to_be_bytes`.
fn be8(n: u64) -> (r: [u8; 8])
    ensures
        r@ == be_bytes(n as nat, 8),
{
    let mut out = [0u8; 8];
    let mut m = n;
    let mut i: usize = 8;
    proof {
        assert(pow256(0) == 1);
        assert((n as nat) / 1 == n as nat);
    }
    while i > 0
        invariant
            0 <= i <= 8,
            out@.len() == 8,
            m as nat == (n as nat) / pow256((8 - i) as nat),
            out@.subrange(i as int, 8) == be_bytes(n as nat, (8 - i) as nat),
        decreases i,
    {
        proof {
            lemma_be_prepend(n as nat, (8 - i) as nat);
            lemma_pow256_div(n as nat, (8 - i) as nat);
        }
        i = i - 1;
        out[i] = (m % 256) as u8;
        m = m / 256;
        assert(out@.subrange(i as int, 8) =~= be_bytes(n as nat, (8 - i) as nat));
    }
    assert(out@ =~= out@.subrange(0, 8));
    out
}

proof fn lemma_be_prepend(n: nat, k: nat)
    ensures
        be_bytes(n, k + 1) == seq![((n / pow256(k)) % 256) as u8] + be_bytes(n, k),
    decreases k,
{
    if k == 0 {
        assert(be_bytes(n, 0) =~= Seq::<u8>::empty());
        assert(be_bytes(n / 256, 0) =~= Seq::<u8>::empty());
        assert(be_bytes(n, 1) =~= seq![(n % 256) as u8]);
        assert(pow256(0) == 1);
        assert(n / 1 == n);
    } else {
        lemma_be_prepend(n / 256, (k - 1) as nat);
        lemma_pow256_pos((k - 1) as nat);
        vstd::arithmetic::div_mod::lemma_div_denominator(n as int, 256, pow256((k - 1) as nat) as int);
        assert(pow256(k) == 256 * pow256((k - 1) as nat));
        assert((n / 256) / pow256((k - 1) as nat) == n / pow256(k));
        assert(be_bytes(n, k + 1) =~= seq![((n / pow256(k)) % 256) as u8] + be_bytes(n, k));
    }
}

/// `256` to the `k`.
pub open spec fn pow256(k: nat) -> nat
    decreases k,
{
    if k == 0 {
        1
    } else {
        256 * pow256((k - 1) as nat)
    }
}

proof fn lemma_pow256_pos(k: nat)
    ensures
        pow256(k) >= 1,
    decreases k,
{
    if k > 0 {
        lemma_pow256_pos((k - 1) as nat);
    }
}

proof fn lemma_pow256_mono(a: nat, b: nat)
    requires
        a <= b,
    ensures
        pow256(a) <= pow256(b),
    decreases b,
{
    if a < b {
        lemma_pow256_mono(a, (b - 1) as nat);
        lemma_pow256_pos((b - 1) as nat);
    }
}

proof fn lemma_pow256_div(n: nat, k: nat)
    ensures
        n / pow256(k + 1) == (n / pow256(k)) / 256,
{
    lemma_pow256_pos(k);
    assert(pow256(k + 1) == 256 * pow256(k));
    vstd::arithmetic::div_mod::lemma_div_denominator(n as int, pow256(k) as int, 256);
    assert(pow256(k) * 256 == 256 * pow256(k)) by (nonlinear_arith);
}

// ── the streams ─────────────────────────────────────────────────────────

/// A name for SHA-256: the 32-byte digest of a byte sequence.
pub uninterp spec fn sha256(data: Seq<u8>) -> Seq<u8>;

/// `sha2::Sha256::digest`: the digest of `data`, 32 bytes — a function of
/// the bytes alone, named rather than restated.
#[verifier::external_body]
fn sha256_digest(data: &[u8]) -> (r: [u8; 32])
    ensures
        r@ == sha256(data@),
{
    <sha2::Sha256 as sha2::Digest>::digest(data).into()
}

/// Block `counter` of the stream over `seed`: SHA-256 of the seed and the
/// counter, big-endian.
pub open spec fn block(seed: Seq<u8>, counter: u64) -> Seq<u8> {
    sha256(seed + be_bytes(counter as nat, 8))
}

/// `n` bytes drawn from a stream whose current block has `pending` left
/// and whose next block is `counter`: the bytes, and the counter and
/// pending bytes after.
pub open spec fn drawn(seed: Seq<u8>, counter: u64, pending: Seq<u8>, n: nat) -> (
    Seq<u8>,
    u64,
    Seq<u8>,
)
    decreases n,
{
    if n == 0 {
        (Seq::empty(), counter, pending)
    } else {
        let (c1, p1) = if pending.len() == 0 {
            ((counter + 1) as u64, block(seed, counter))
        } else {
            (counter, pending)
        };
        let (rest, c2, p2) = drawn(seed, c1, p1.drop_first(), (n - 1) as nat);
        (seq![p1[0]] + rest, c2, p2)
    }
}

proof fn lemma_drawn_len(seed: Seq<u8>, counter: u64, pending: Seq<u8>, n: nat)
    ensures
        drawn(seed, counter, pending, n).0.len() == n,
    decreases n,
{
    if n > 0 {
        let (c1, p1) = if pending.len() == 0 {
            ((counter + 1) as u64, block(seed, counter))
        } else {
            (counter, pending)
        };
        lemma_drawn_len(seed, c1, p1.drop_first(), (n - 1) as nat);
    }
}

/// The stream does not depend on how its draws are chunked: drawing `n`
/// bytes and then `m` more hands out exactly the bytes, and leaves exactly
/// the state, of drawing `n + m` at once.
pub proof fn law_draws_compose(seed: Seq<u8>, counter: u64, pending: Seq<u8>, n: nat, m: nat)
    ensures
        ({
            let (a, c1, p1) = drawn(seed, counter, pending, n);
            let (b, c2, p2) = drawn(seed, c1, p1, m);
            drawn(seed, counter, pending, n + m) == (a + b, c2, p2)
        }),
    decreases n,
{
    if n > 0 {
        let (c1, p1) = if pending.len() == 0 {
            ((counter + 1) as u64, block(seed, counter))
        } else {
            (counter, pending)
        };
        law_draws_compose(seed, c1, p1.drop_first(), (n - 1) as nat, m);
        let (rest, _, _) = drawn(seed, c1, p1.drop_first(), (n - 1) as nat);
        let (a, c3, p3) = drawn(seed, counter, pending, n);
        let (b, _, _) = drawn(seed, c3, p3, m);
        assert((n + m - 1) as nat == (n - 1) as nat + m);
        assert(seq![p1[0]] + (rest + b) =~= (seq![p1[0]] + rest) + b);
    } else {
        let (b, _, _) = drawn(seed, counter, pending, m);
        assert(Seq::<u8>::empty() + b =~= b);
    }
}

/// A DETERMINISTIC stream for fixtures — SHA-256 in counter mode over a
/// seed — so a randomized signature is byte-stable in a golden. A test
/// seam; not for production use.
pub struct SeededRng06 {
    seed: [u8; 32],
    counter: u64,
    buf: Vec<u8>,
}

impl SeededRng06 {
    /// The seed.
    pub closed spec fn seed_bytes(&self) -> Seq<u8> {
        self.seed@
    }

    /// The next block's counter.
    pub closed spec fn next_block(&self) -> u64 {
        self.counter
    }

    /// What is left of the current block, in the order it is handed out.
    pub closed spec fn pending(&self) -> Seq<u8> {
        self.buf@.reverse()
    }

    /// A stream at the start of block 0.
    pub fn new(seed: [u8; 32]) -> (r: SeededRng06)
        ensures
            r.seed_bytes() == seed@,
            r.next_block() == 0,
            r.pending().len() == 0,
    {
        SeededRng06 { seed, counter: 0, buf: Vec::new() }
    }

    /// The next `n` bytes of the stream.
    pub fn fill_bytes(&mut self, n: usize) -> (out: Vec<u8>)
        requires
            old(self).next_block() + n < u64::MAX,
            old(self).pending().len() <= 32,
        ensures
            final(self).seed_bytes() == old(self).seed_bytes(),
            (out@, final(self).next_block(), final(self).pending()) == drawn(
                old(self).seed_bytes(),
                old(self).next_block(),
                old(self).pending(),
                n as nat,
            ),
            final(self).pending().len() <= 32,
            final(self).next_block() <= old(self).next_block() + n,
    {
        let ghost seed = self.seed@;
        let ghost c0 = self.counter;
        let ghost p0 = self.buf@.reverse();
        let mut out: Vec<u8> = Vec::new();
        let mut i: usize = 0;
        while i < n
            invariant
                0 <= i <= n,
                self.seed@ == seed,
                c0 + n < u64::MAX,
                self.counter <= c0 + i,
                self.buf@.len() <= 32,
                drawn(seed, c0, p0, n as nat) == ({
                    let (rest, c2, p2) = drawn(
                        seed,
                        self.counter,
                        self.buf@.reverse(),
                        (n - i) as nat,
                    );
                    (out@ + rest, c2, p2)
                }),
            decreases n - i,
        {
            let ghost before = out@;
            if self.buf.len() == 0 {
                let mut input: Vec<u8> = Vec::new();
                input.extend_from_slice(self.seed.as_slice());
                let be = be8(self.counter);
                input.extend_from_slice(be.as_slice());
                let digest = sha256_digest(input.as_slice());
                let mut rev: Vec<u8> = Vec::new();
                let mut j: usize = 32;
                while j > 0
                    invariant
                        0 <= j <= 32,
                        digest@.len() == 32,
                        rev@ == digest@.subrange(j as int, 32).reverse(),
                    decreases j,
                {
                    j = j - 1;
                    rev.push(digest[j]);
                    assert(rev@ =~= digest@.subrange(j as int, 32).reverse());
                }
                proof {
                    assert(input@ =~= seed + be_bytes(self.counter as nat, 8));
                    assert(rev@.reverse() =~= digest@);
                }
                self.counter = self.counter + 1;
                self.buf = rev;
            }
            let ghost p = self.buf@.reverse();
            let b = self.buf.pop().unwrap();
            proof {
                assert(p[0] == b);
                assert(self.buf@.reverse() =~= p.drop_first());
            }
            out.push(b);
            proof {
                let (rest, c2, p2) = drawn(seed, self.counter, self.buf@.reverse(), (n - i - 1) as nat);
                assert(before + (seq![b] + rest) =~= out@ + rest);
            }
            i = i + 1;
        }
        out
    }

    /// The next four bytes, least significant first.
    pub fn next_u32(&mut self) -> (r: u32)
        requires
            old(self).next_block() + 4 < u64::MAX,
            old(self).pending().len() <= 32,
        ensures
            final(self).seed_bytes() == old(self).seed_bytes(),
            ({
                let (b, c, p) = drawn(
                    old(self).seed_bytes(),
                    old(self).next_block(),
                    old(self).pending(),
                    4,
                );
                &&& r as nat == le_value(b)
                &&& final(self).next_block() == c
                &&& final(self).pending() == p
            }),
    {
        let b = self.fill_bytes(4);
        proof {
            lemma_drawn_len(old(self).seed_bytes(), old(self).next_block(), old(self).pending(), 4);
        }
        le_u32(&b)
    }

    /// The next eight bytes, least significant first.
    pub fn next_u64(&mut self) -> (r: u64)
        requires
            old(self).next_block() + 8 < u64::MAX,
            old(self).pending().len() <= 32,
        ensures
            final(self).seed_bytes() == old(self).seed_bytes(),
            ({
                let (b, c, p) = drawn(
                    old(self).seed_bytes(),
                    old(self).next_block(),
                    old(self).pending(),
                    8,
                );
                &&& r as nat == le_value(b)
                &&& final(self).next_block() == c
                &&& final(self).pending() == p
            }),
    {
        let b = self.fill_bytes(8);
        proof {
            lemma_drawn_len(old(self).seed_bytes(), old(self).next_block(), old(self).pending(), 8);
        }
        le_u64(&b)
    }
}

proof fn lemma_le_bound(b: Seq<u8>)
    ensures
        le_value(b) < pow256(b.len()),
    decreases b.len(),
{
    if b.len() > 0 {
        lemma_le_bound(b.drop_first());
        assert(pow256(b.len()) == 256 * pow256((b.len() - 1) as nat));
        assert(b[0] as nat + 256 * le_value(b.drop_first()) < 256 * pow256((b.len() - 1) as nat))
            by (nonlinear_arith)
            requires
                b[0] < 256,
                le_value(b.drop_first()) < pow256((b.len() - 1) as nat),
        ;
    }
}

/// `u32::from_le_bytes`.
fn le_u32(b: &Vec<u8>) -> (r: u32)
    requires
        b@.len() == 4,
    ensures
        r as nat == le_value(b@),
{
    proof {
        lemma_le_bound(b@);
        reveal_with_fuel(pow256, 5);
        assert(pow256(4) == 4294967296);
    }
    let mut v: u64 = 0;
    let mut i: usize = 4;
    while i > 0
        invariant
            0 <= i <= 4,
            b@.len() == 4,
            v as nat == le_value(b@.subrange(i as int, 4)),
            le_value(b@.subrange(i as int, 4)) < pow256((4 - i) as nat),
        decreases i,
    {
        i = i - 1;
        let ghost s = b@.subrange(i as int, 4);
        assert(s.drop_first() =~= b@.subrange(i + 1, 4));
        proof {
            lemma_le_bound(s);
            lemma_pow256_mono((4 - i) as nat, 4);
            reveal_with_fuel(pow256, 5);
        }
        v = b[i] as u64 + 256 * v;
    }
    assert(b@.subrange(0, 4) =~= b@);
    v as u32
}

/// `u64::from_le_bytes`.
fn le_u64(b: &Vec<u8>) -> (r: u64)
    requires
        b@.len() == 8,
    ensures
        r as nat == le_value(b@),
{
    proof {
        lemma_le_bound(b@);
        reveal_with_fuel(pow256, 9);
        assert(pow256(8) == 18446744073709551616);
    }
    let mut v: u128 = 0;
    let mut i: usize = 8;
    while i > 0
        invariant
            0 <= i <= 8,
            b@.len() == 8,
            v as nat == le_value(b@.subrange(i as int, 8)),
            le_value(b@.subrange(i as int, 8)) < pow256((8 - i) as nat),
        decreases i,
    {
        i = i - 1;
        let ghost s = b@.subrange(i as int, 8);
        assert(s.drop_first() =~= b@.subrange(i + 1, 8));
        proof {
            lemma_le_bound(s);
            lemma_pow256_mono((8 - i) as nat, 8);
            reveal_with_fuel(pow256, 9);
        }
        v = b[i] as u128 + 256 * v;
    }
    assert(b@.subrange(0, 8) =~= b@);
    v as u64
}

/// An entropy source that yields EXACTLY the bytes it was given and then
/// refuses more: a key generation fed through it draws precisely its seed,
/// and a longer draw is a caller's error, never a silent extension.
pub struct ExactBytes {
    bytes: Vec<u8>,
    taken: usize,
}

impl ExactBytes {
    /// The bytes given.
    pub closed spec fn given(&self) -> Seq<u8> {
        self.bytes@
    }

    /// How many have been drawn.
    pub closed spec fn used(&self) -> nat {
        self.taken as nat
    }

    #[verifier::type_invariant]
    closed spec fn within(&self) -> bool {
        self.taken <= self.bytes@.len()
    }

    /// A source of exactly `bytes`, none drawn.
    pub fn new(bytes: Vec<u8>) -> (r: ExactBytes)
        ensures
            r.given() == bytes@,
            r.used() == 0,
    {
        ExactBytes { bytes, taken: 0 }
    }

    /// The next `n` of the bytes given.
    pub fn fill_bytes(&mut self, n: usize) -> (out: Vec<u8>)
        requires
            old(self).used() + n <= old(self).given().len(),
        ensures
            out@ == old(self).given().subrange(old(self).used() as int, old(self).used() + n),
            final(self).given() == old(self).given(),
            final(self).used() == old(self).used() + n,
    {
        proof {
            use_type_invariant(&*self);
        }
        let start = self.taken;
        let len = self.bytes.len();
        assert(start + n <= len);
        let end = start + n;
        let mut out: Vec<u8> = Vec::new();
        let mut i: usize = start;
        while i < end
            invariant
                start <= i <= end,
                end <= self.bytes@.len(),
                out@ == self.bytes@.subrange(start as int, i as int),
            decreases end - i,
        {
            out.push(self.bytes[i]);
            i = i + 1;
            assert(out@ =~= self.bytes@.subrange(start as int, i as int));
        }
        self.taken = end;
        out
    }

    /// Four of the bytes given, least significant first.
    pub fn next_u32(&mut self) -> (r: u32)
        requires
            old(self).used() + 4 <= old(self).given().len(),
        ensures
            r as nat == le_value(old(self).given().subrange(old(self).used() as int, old(self).used() + 4int)),
            final(self).given() == old(self).given(),
            final(self).used() == old(self).used() + 4,
    {
        let b = self.fill_bytes(4);
        le_u32(&b)
    }

    /// Eight of the bytes given, least significant first.
    pub fn next_u64(&mut self) -> (r: u64)
        requires
            old(self).used() + 8 <= old(self).given().len(),
        ensures
            r as nat == le_value(old(self).given().subrange(old(self).used() as int, old(self).used() + 8int)),
            final(self).given() == old(self).given(),
            final(self).used() == old(self).used() + 8,
    {
        let b = self.fill_bytes(8);
        le_u64(&b)
    }
}

/// `getrandom::fill`: `n` bytes of OS entropy, or `None` where the OS
/// refused. What the bytes are is the OS's; only their count is stated.
#[verifier::external_body]
pub(crate) fn os_entropy(n: usize) -> (r: Option<Vec<u8>>)
    ensures
        r matches Some(v) ==> v@.len() == n,
{
    let mut v = vec![0u8; n];
    match getrandom::fill(v.as_mut_slice()) {
        Ok(()) => Some(v),
        Err(_) => None,
    }
}

/// The OS entropy `getrandom` supplies, as a stream.
pub struct OsRng06;

impl OsRng06 {
    /// `n` bytes of OS entropy, or `None` where the OS has none to give.
    pub fn fill_bytes(&mut self, n: usize) -> (r: Option<Vec<u8>>)
        ensures
            r matches Some(v) ==> v@.len() == n,
    {
        os_entropy(n)
    }

    /// Four bytes of entropy, least significant first.
    pub fn next_u32(&mut self) -> (r: Option<u32>)
    {
        match os_entropy(4) {
            Some(b) => Some(le_u32(&b)),
            None => None,
        }
    }

    /// Eight bytes of entropy, least significant first.
    pub fn next_u64(&mut self) -> (r: Option<u64>)
    {
        match os_entropy(8) {
            Some(b) => Some(le_u64(&b)),
            None => None,
        }
    }
}

} // verus!
