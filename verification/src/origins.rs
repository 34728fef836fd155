//! The origin sets: a sorted, duplicate-free set of canonical origins (the
//! order `BTreeSet<Origin>` iterates in), the bound port's three loopback
//! defaults, the auth configuration, the board's mode, the bare and signed
//! arms' sets, the config-lockout warnings, and the bare-bind rule.

use vstd::prelude::*;
use vstd::string::*;
use crate::origin::{self, Origin};
use crate::session::Peer;
use crate::text;

verus! {

broadcast use vstd::utf8::group_utf8_lib;

/// The canonical texts of a sequence of origins.
pub open spec fn views(s: Seq<Origin>) -> Seq<Seq<u8>> {
    Seq::new(s.len(), |i: int| s[i]@)
}

/// Strictly ascending by canonical text — sorted, and no text twice.
pub open spec fn strictly_sorted(s: Seq<Seq<u8>>) -> bool {
    forall|i: int, j: int| 0 <= i < j < s.len() ==> text::lex_lt(#[trigger] s[i], #[trigger] s[j])
}

/// A set of canonical origins, kept in ascending canonical order with no
/// text twice — the order, and the membership, of `BTreeSet<Origin>`.
pub struct OriginSet {
    members: Vec<Origin>,
}

impl View for OriginSet {
    type V = Seq<Seq<u8>>;

    /// The members' canonical texts, in ascending order.
    closed spec fn view(&self) -> Seq<Seq<u8>> {
        views(self.members@)
    }
}

impl OriginSet {
    #[verifier::type_invariant]
    closed spec fn sorted(&self) -> bool {
        strictly_sorted(views(self.members@))
    }

    /// Every set is ascending with no text twice.
    pub fn sorted_facts(&self)
        ensures
            strictly_sorted(self@),
    {
        proof {
            use_type_invariant(self);
        }
    }

    /// The empty set.
    pub fn new() -> (s: OriginSet)
        ensures
            s@ == Seq::<Seq<u8>>::empty(),
    {
        let s = OriginSet { members: Vec::new() };
        assert(views(s.members@) =~= Seq::<Seq<u8>>::empty());
        s
    }

    /// The number of members.
    pub fn len(&self) -> (n: usize)
        ensures
            n == self@.len(),
    {
        self.members.len()
    }

    /// The `i`th member in ascending order.
    pub fn get(&self, i: usize) -> (o: &Origin)
        requires
            i < self@.len(),
        ensures
            o@ == self@[i as int],
    {
        &self.members[i]
    }

    /// Membership, by canonical text.
    pub fn contains(&self, o: &Origin) -> (r: bool)
        ensures
            r == self@.contains(o@),
    {
        let mut i: usize = 0;
        while i < self.members.len()
            invariant
                0 <= i <= self.members@.len(),
                forall|j: int| 0 <= j < i ==> views(self.members@)[j] != o@,
            decreases self.members@.len() - i,
        {
            if text::bytes_eq(self.members[i].as_str().as_bytes(), o.as_str().as_bytes()) {
                assert(views(self.members@)[i as int] == o@);
                return true;
            }
            i = i + 1;
        }
        false
    }

    /// Add one origin; a member already there is kept as it is.
    pub fn insert(&mut self, o: Origin)
        ensures
            final(self)@.to_set() == old(self)@.to_set().insert(o@),
            old(self)@.contains(o@) ==> final(self)@ == old(self)@,
    {
        proof {
            use_type_invariant(&*self);
        }
        let ghost before = views(self.members@);
        let mut i: usize = 0;
        while i < self.members.len() && text::bytes_lt(
            self.members[i].as_str().as_bytes(),
            o.as_str().as_bytes(),
        )
            invariant
                0 <= i <= self.members@.len(),
                views(self.members@) == before,
                strictly_sorted(before),
                forall|j: int| 0 <= j < i ==> text::lex_lt(#[trigger] before[j], o@),
            decreases self.members@.len() - i,
        {
            i = i + 1;
        }
        if i < self.members.len() && text::bytes_eq(
            self.members[i].as_str().as_bytes(),
            o.as_str().as_bytes(),
        ) {
            proof {
                assert(before[i as int] == o@);
                assert(before.contains(o@));
                assert(before.to_set().insert(o@) =~= before.to_set());
            }
            return;
        }
        proof {
            if i < before.len() {
                text::lemma_lex_trichotomy(before[i as int], o@);
            }
            assert forall|j: int| i <= j < before.len() implies text::lex_lt(o@, #[trigger] before[j]) by {
                if j > i {
                    text::lemma_lex_transitive(o@, before[i as int], before[j]);
                }
            }
            assert(!before.contains(o@)) by {
                if before.contains(o@) {
                    let k = choose|k: int| 0 <= k < before.len() && before[k] == o@;
                    if k < i {
                        text::lemma_lex_irreflexive(o@);
                    } else {
                        text::lemma_lex_irreflexive(o@);
                    }
                }
            }
        }
        let ghost ov = o@;
        let mut members: Vec<Origin> = Vec::new();
        std::mem::swap(&mut members, &mut self.members);
        members.insert(i, o);
        proof {
            let after = views(members@);
            assert(after =~= before.insert(i as int, ov));
            assert forall|a: int, b: int| 0 <= a < b < after.len() implies text::lex_lt(
                #[trigger] after[a],
                #[trigger] after[b],
            ) by {
                if b < i {
                } else if a < i && b == i {
                } else if a < i && b > i {
                    assert(after[b] == before[b - 1]);
                } else if a == i {
                    assert(after[b] == before[b - 1]);
                } else {
                    assert(after[a] == before[a - 1]);
                    assert(after[b] == before[b - 1]);
                }
            }
            assert(after.to_set() =~= before.to_set().insert(ov)) by {
                assert forall|x: Seq<u8>| after.to_set().contains(x) <==> before.to_set().insert(ov).contains(x) by {
                    if after.contains(x) {
                        let k = choose|k: int| 0 <= k < after.len() && after[k] == x;
                        if k < i {
                            assert(before[k] == x);
                        } else if k > i {
                            assert(before[k - 1] == x);
                        }
                    }
                    if before.contains(x) {
                        let k = choose|k: int| 0 <= k < before.len() && before[k] == x;
                        if k < i {
                            assert(after[k] == x);
                        } else {
                            assert(after[k + 1] == x);
                        }
                    }
                    if x == ov {
                        assert(after[i as int] == x);
                    }
                }
            }
        }
        self.members = members;
    }

    /// A second value of the same set.
    pub fn duplicate(&self) -> (r: OriginSet)
        ensures
            r@ == self@,
    {
        proof {
            use_type_invariant(self);
        }
        let mut members: Vec<Origin> = Vec::new();
        let mut i: usize = 0;
        while i < self.members.len()
            invariant
                0 <= i <= self.members@.len(),
                members@.len() == i,
                views(members@) == views(self.members@).take(i as int),
            decreases self.members@.len() - i,
        {
            let o = self.members[i].duplicate();
            let ghost prev = members@;
            members.push(o);
            proof {
                assert(views(members@)[i as int] == views(self.members@)[i as int]);
                assert forall|k: int| 0 <= k < i implies views(members@)[k] == views(prev)[k] by {}
                assert(views(members@) =~= views(self.members@).take(i + 1));
            }
            i = i + 1;
        }
        assert(views(self.members@).take(i as int) =~= views(self.members@));
        OriginSet { members }
    }
}


// ── the loopback defaults ───────────────────────────────────────────────

/// The three loopback-host names in ascending order — the whole defaults
/// set, deliberately CLOSED at these three: `127.0.0.1`, `[::1]`,
/// `localhost`.
pub open spec fn loopback_host(k: int) -> Seq<u8> {
    if k == 0 {
        seq![49u8, 50u8, 55u8, 46u8, 48u8, 46u8, 48u8, 46u8, 49u8]
    } else if k == 1 {
        seq![91u8, 58u8, 58u8, 49u8, 93u8]
    } else {
        seq![108u8, 111u8, 99u8, 97u8, 108u8, 104u8, 111u8, 115u8, 116u8]
    }
}

/// `:<port>`, or nothing at the scheme's default.
pub open spec fn port_suffix(port: u16) -> Seq<u8> {
    if port == 80 {
        Seq::empty()
    } else {
        seq![58u8] + text::decimal(port as nat)
    }
}

/// The canonical text of loopback host `k` at `port` over plain HTTP.
pub open spec fn loopback_text(k: int, port: u16) -> Seq<u8> {
    origin::http_prefix() + loopback_host(k) + port_suffix(port)
}

proof fn lemma_first_index_skip(a: Seq<u8>, b: Seq<u8>, c: u8)
    requires
        forall|j: int| 0 <= j < a.len() ==> a[j] != c,
    ensures
        origin::first_index(a + b, c) == (match origin::first_index(b, c) {
            Some(i) => Some(i + a.len()),
            None => None::<int>,
        }),
    decreases a.len(),
{
    if a.len() > 0 {
        assert((a + b).drop_first() =~= a.drop_first() + b);
        lemma_first_index_skip(a.drop_first(), b, c);
    } else {
        assert(a + b =~= b);
    }
}

/// Every text the defaults are built from is one `Origin::parse` admits:
/// the loopback host, over plain HTTP, at any port but zero.
pub proof fn law_loopback_text_is_canonical(k: int, port: u16)
    requires
        0 <= k < 3,
        port != 0,
    ensures
        origin::origin_spec(loopback_text(k, port)) == Some((false, loopback_host(k))),
{
    let h = loopback_host(k);
    let t = loopback_text(k, port);
    let rest = h + port_suffix(port);
    assert(t.take(7) =~= origin::http_prefix());
    assert(t.skip(7) =~= rest);
    assert(!origin::has_prefix(t, origin::http_prefix()) ==> false);
    assert(origin::split_scheme(t) == Some((false, rest)));
    text::lemma_decimal_digits(port as nat);
    if port != 80 {
        text::lemma_decimal_parses(port as nat, 65535);
        assert(origin::port_ok(text::decimal(port as nat), false));
    }
    assert(origin::host_canonical(h)) by {
        assert forall|i: int| 0 <= i < h.len() implies origin::host_byte_ok(#[trigger] h[i]) by {}
    }
    if k == 1 {
        let after = rest.drop_first();
        let inner = seq![58u8, 58u8, 49u8];
        assert(after =~= inner + (seq![93u8] + port_suffix(port)));
        lemma_first_index_skip(inner, seq![93u8] + port_suffix(port), 93u8);
        assert(origin::first_index(after, 93u8) == Some(3int));
        assert(rest.take(5) =~= h);
        let tail = after.skip(4);
        assert(tail =~= port_suffix(port));
        if port != 80 {
            assert(tail.drop_first() =~= text::decimal(port as nat));
        }
    } else {
        assert forall|j: int| 0 <= j < h.len() implies h[j] != 58u8 by {}
        lemma_first_index_skip(h, port_suffix(port), 58u8);
        if port == 80 {
            assert(rest =~= h);
        } else {
            assert(origin::first_index(port_suffix(port), 58u8) == Some(0int));
            assert(rest.take(h.len() as int) =~= h);
            assert(rest.skip(h.len() as int + 1) =~= text::decimal(port as nat));
        }
    }
}

proof fn lemma_lex_at(a: Seq<u8>, b: Seq<u8>, k: int)
    requires
        0 <= k < a.len(),
        k < b.len(),
        a.take(k) == b.take(k),
        a[k] < b[k],
    ensures
        text::lex_lt(a, b),
    decreases k,
{
    if k > 0 {
        assert(a[0] == a.take(k)[0]);
        assert(b[0] == b.take(k)[0]);
        assert(a.drop_first().take(k - 1) =~= a.take(k).drop_first());
        assert(b.drop_first().take(k - 1) =~= b.take(k).drop_first());
        lemma_lex_at(a.drop_first(), b.drop_first(), k - 1);
    }
}

/// The three default texts are in ascending order.
proof fn lemma_loopback_sorted(port: u16)
    ensures
        text::lex_lt(loopback_text(0, port), loopback_text(1, port)),
        text::lex_lt(loopback_text(1, port), loopback_text(2, port)),
        text::lex_lt(loopback_text(0, port), loopback_text(2, port)),
{
    let a = loopback_text(0, port);
    let b = loopback_text(1, port);
    let c = loopback_text(2, port);
    assert(a.take(7) =~= b.take(7));
    assert(b.take(7) =~= c.take(7));
    assert(a[7] == 49u8);
    assert(b[7] == 91u8);
    assert(c[7] == 108u8);
    lemma_lex_at(a, b, 7);
    lemma_lex_at(b, c, 7);
    lemma_lex_at(a, c, 7);
}

fn loopback_host_bytes(k: usize) -> (v: Vec<u8>)
    requires
        k < 3,
    ensures
        v@ == loopback_host(k as int),
{
    let v: Vec<u8> = if k == 0 {
        vec![49u8, 50, 55, 46, 48, 46, 48, 46, 49]
    } else if k == 1 {
        vec![91u8, 58, 58, 49, 93]
    } else {
        vec![108u8, 111, 99, 97, 108, 104, 111, 115, 116]
    };
    assert(v@ =~= loopback_host(k as int));
    v
}

/// Loopback host `k` at `port` — built as text and admitted by the one
/// front door, which the law above says it always is.
fn loopback_origin(k: usize, port: u16) -> (o: Origin)
    requires
        k < 3,
        port != 0,
    ensures
        o@ == loopback_text(k as int, port),
        o.parts() == (false, loopback_host(k as int)),
{
    let mut t: Vec<u8> = vec![104u8, 116, 116, 112, 58, 47, 47];
    assert(t@ =~= origin::http_prefix());
    let h = loopback_host_bytes(k);
    t.extend_from_slice(h.as_slice());
    if port != 80 {
        t.push(58u8);
        let d = text::u64_decimal(port as u64);
        t.extend_from_slice(d.as_slice());
    }
    assert(t@ =~= loopback_text(k as int, port));
    proof {
        law_loopback_text_is_canonical(k as int, port);
        origin::lemma_origin_ascii(t@);
        text::lemma_ascii_utf8(t@);
    }
    let s = text::ascii_string(t);
    let r = Origin::parse(s.as_str());
    r.unwrap()
}

/// The bound port's three loopback origins, DERIVED from the port — never
/// configured, never stored. An unbound config has no port, so it has no
/// defaults: the set is empty rather than three members at a port nothing
/// can serve on.
pub fn loopback_defaults(port: Option<u16>) -> (s: OriginSet)
    requires
        port != Some(0u16),
    ensures
        port is None ==> s@ == Seq::<Seq<u8>>::empty(),
        port matches Some(p) ==> s@ == seq![
            loopback_text(0, p),
            loopback_text(1, p),
            loopback_text(2, p),
        ],
{
    match port {
        None => OriginSet::new(),
        Some(p) => {
            proof {
                lemma_loopback_sorted(p);
            }
            let mut members: Vec<Origin> = Vec::new();
            members.push(loopback_origin(0, p));
            members.push(loopback_origin(1, p));
            members.push(loopback_origin(2, p));
            let s = OriginSet { members };
            assert(views(s.members@) =~= seq![
                loopback_text(0, p),
                loopback_text(1, p),
                loopback_text(2, p),
            ]);
            s
        },
    }
}

} // verus!
