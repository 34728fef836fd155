//! The challenge store: a map from nonce to the principal it was issued
//! for and its expiry, plus a FIFO of insertion order; the oldest past the
//! cap is evicted, and a burn is SINGLE-USE — it removes the nonce from
//! both whether or not it validates.

use vstd::prelude::*;
use crate::hybrid;
use crate::session::{Nonce, CHALLENGE_TTL_MILLIS};
use crate::text;

verus! {

/// The most live challenges the daemon's store keeps; the oldest past it
/// is evicted.
pub const MAX_LIVE_NONCES: usize = 4096;

/// One live challenge: the nonce, the principal it names, and its expiry
/// on the caller's monotonic millisecond clock.
pub struct Entry {
    pub nonce: Nonce,
    pub principal: u64,
    pub expires: u64,
}

/// The live challenges' map view.
pub open spec fn entry_map(e: Seq<Entry>) -> Map<Seq<u8>, (u64, u64)>
    decreases e.len(),
{
    if e.len() == 0 {
        Map::empty()
    } else {
        entry_map(e.drop_last()).insert(e.last().nonce@, (e.last().principal, e.last().expires))
    }
}

/// No nonce twice among the entries.
pub open spec fn distinct_nonces(e: Seq<Entry>) -> bool {
    forall|i: int, j: int| 0 <= i < j < e.len() ==> (#[trigger] e[i]).nonce@ != (#[trigger] e[j]).nonce@
}

/// The nonces of the order queue.
pub open spec fn nonce_views(o: Seq<Nonce>) -> Seq<Seq<u8>> {
    Seq::new(o.len(), |i: int| o[i]@)
}

/// Drop the queue's front while it is longer than `cap`, removing each
/// dropped nonce from the map: the eviction of the oldest.
pub open spec fn evicted(m: Map<Seq<u8>, (u64, u64)>, o: Seq<Seq<u8>>, cap: nat) -> (
    Map<Seq<u8>, (u64, u64)>,
    Seq<Seq<u8>>,
)
    decreases o.len(),
{
    if o.len() <= cap {
        (m, o)
    } else {
        evicted(m.remove(o[0]), o.drop_first(), cap)
    }
}

/// The queue with every occurrence of `n` dropped.
pub open spec fn without(q: Seq<Seq<u8>>, n: Seq<u8>) -> Seq<Seq<u8>> {
    q.filter(|x: Seq<u8>| x != n)
}

/// Whether a removed entry validates: it was there, names `principal`, and
/// has not expired at `now`.
pub open spec fn validates(entry: Option<(u64, u64)>, principal: u64, now: u64) -> bool {
    match entry {
        Some((p, expires)) => p == principal && now < expires,
        None => false,
    }
}

proof fn lemma_entry_map(e: Seq<Entry>)
    requires
        distinct_nonces(e),
    ensures
        forall|k: Seq<u8>|
            entry_map(e).dom().contains(k) <==> exists|i: int| 0 <= i < e.len() && #[trigger] e[i].nonce@ == k,
        forall|i: int|
            0 <= i < e.len() ==> entry_map(e)[#[trigger] e[i].nonce@] == (e[i].principal, e[i].expires),
    decreases e.len(),
{
    if e.len() > 0 {
        let p = e.drop_last();
        assert(distinct_nonces(p));
        lemma_entry_map(p);
        assert forall|k: Seq<u8>|
            entry_map(e).dom().contains(k) <==> exists|i: int| 0 <= i < e.len() && #[trigger] e[i].nonce@ == k by {
            if entry_map(e).dom().contains(k) {
                if k == e.last().nonce@ {
                    assert(e[e.len() - 1].nonce@ == k);
                } else {
                    assert(entry_map(p).dom().contains(k));
                    let i = choose|i: int| 0 <= i < p.len() && #[trigger] p[i].nonce@ == k;
                    assert(e[i] == p[i]);
                }
            }
            if exists|i: int| 0 <= i < e.len() && #[trigger] e[i].nonce@ == k {
                let i = choose|i: int| 0 <= i < e.len() && #[trigger] e[i].nonce@ == k;
                if i < p.len() {
                    assert(e[i] == p[i]);
                    assert(p[i].nonce@ == k);
                }
            }
        }
        assert forall|i: int| 0 <= i < e.len() implies entry_map(e)[#[trigger] e[i].nonce@] == (
            e[i].principal,
            e[i].expires,
        ) by {
            if i < p.len() {
                assert(e[i] == p[i]);
                assert(e[i].nonce@ != e[e.len() - 1].nonce@);
            }
        }
    }
}

/// The store's standing invariant over its two views: the issue queue
/// names no nonce twice, names exactly the live nonces, and never holds
/// more than the cap.
pub open spec fn consistent_view(live: Map<Seq<u8>, (u64, u64)>, queue: Seq<Seq<u8>>, cap: nat) -> bool {
    &&& queue.no_duplicates()
    &&& queue.to_set() == live.dom()
    &&& queue.len() <= cap
}

proof fn lemma_evicted(m: Map<Seq<u8>, (u64, u64)>, o: Seq<Seq<u8>>, cap: nat)
    requires
        o.no_duplicates(),
        o.to_set() == m.dom(),
    ensures
        ({
            let (m2, o2) = evicted(m, o, cap);
            &&& o2.no_duplicates()
            &&& o2.to_set() == m2.dom()
            &&& o2.len() == if o.len() <= cap { o.len() } else { cap }
            &&& o2 == o.skip(o.len() - o2.len())
            &&& forall|k: Seq<u8>| #[trigger] m2.dom().contains(k) ==> m2[k] == m[k]
        }),
    decreases o.len(),
{
    if o.len() <= cap {
        assert(o.skip(0) =~= o);
    } else {
        let m1 = m.remove(o[0]);
        let o1 = o.drop_first();
        assert(o1.no_duplicates()) by {
            assert forall|i: int, j: int| 0 <= i < o1.len() && 0 <= j < o1.len() && i != j implies o1[i] != o1[j] by {
                assert(o1[i] == o[i + 1] && o1[j] == o[j + 1]);
            }
        }
        assert(o1.to_set() =~= m1.dom()) by {
            assert forall|k: Seq<u8>| o1.to_set().contains(k) <==> m1.dom().contains(k) by {
                if o1.to_set().contains(k) {
                    let i = choose|i: int| 0 <= i < o1.len() && o1[i] == k;
                    assert(o[i + 1] == k);
                    assert(o.contains(k));
                    assert(k != o[0]);
                }
                if m1.dom().contains(k) {
                    assert(o.to_set().contains(k));
                    let i = choose|i: int| 0 <= i < o.len() && o[i] == k;
                    assert(i != 0);
                    assert(o1[i - 1] == k);
                    assert(o1.contains(k));
                }
            }
        }
        lemma_evicted(m1, o1, cap);
        let (m2, o2) = evicted(m1, o1, cap);
        assert(evicted(m, o, cap) == (m2, o2));
        assert(o1.skip(o1.len() - o2.len()) =~= o.skip(o.len() - o2.len()));
    }
}

/// A FRESH nonce issued into a consistent store is live for its principal
/// with the whole TTL ahead of it (for any cap of one or more), and the
/// store stays consistent: the oldest are evicted first, never the newest.
pub proof fn law_a_fresh_issue_is_live(
    live: Map<Seq<u8>, (u64, u64)>,
    queue: Seq<Seq<u8>>,
    cap: nat,
    n: Seq<u8>,
    entry: (u64, u64),
)
    requires
        consistent_view(live, queue, cap),
        !live.dom().contains(n),
    ensures
        ({
            let (m2, o2) = evicted(live.insert(n, entry), queue.push(n), cap);
            &&& consistent_view(m2, o2, cap)
            &&& cap >= 1 ==> m2.dom().contains(n) && m2[n] == entry
        }),
{
    let m1 = live.insert(n, entry);
    let o1 = queue.push(n);
    assert(o1.no_duplicates()) by {
        assert forall|i: int, j: int| 0 <= i < o1.len() && 0 <= j < o1.len() && i != j implies o1[i] != o1[j] by {
            if i == queue.len() as int {
                assert(queue.contains(o1[j]));
                assert(queue.to_set().contains(o1[j]));
            } else if j == queue.len() as int {
                assert(queue.contains(o1[i]));
                assert(queue.to_set().contains(o1[i]));
            } else {
                assert(o1[i] == queue[i] && o1[j] == queue[j]);
            }
        }
    }
    assert(o1.to_set() =~= m1.dom()) by {
        assert forall|k: Seq<u8>| o1.to_set().contains(k) <==> m1.dom().contains(k) by {
            if o1.to_set().contains(k) {
                let i = choose|i: int| 0 <= i < o1.len() && o1[i] == k;
                if i < queue.len() {
                    assert(queue[i] == k);
                    assert(queue.contains(k));
                }
            }
            if m1.dom().contains(k) {
                if k == n {
                    assert(o1[queue.len() as int] == k);
                } else {
                    assert(queue.to_set().contains(k));
                    let i = choose|i: int| 0 <= i < queue.len() && queue[i] == k;
                    assert(o1[i] == k);
                }
                assert(o1.contains(k));
            }
        }
    }
    lemma_evicted(m1, o1, cap);
    let (m2, o2) = evicted(m1, o1, cap);
    if cap >= 1 {
        assert(o2.len() >= 1);
        assert(o2[o2.len() - 1] == o1[o1.len() - 1]);
        assert(o2.contains(n));
        assert(o2.to_set().contains(n));
    }
}

proof fn lemma_without(q: Seq<Seq<u8>>, n: Seq<u8>)
    ensures
        forall|x: Seq<u8>| #[trigger] without(q, n).contains(x) <==> q.contains(x) && x != n,
        without(q, n).len() <= q.len(),
        q.no_duplicates() ==> without(q, n).no_duplicates(),
    decreases q.len(),
{
    reveal(Seq::filter);
    if q.len() > 0 {
        let p = q.drop_last();
        lemma_without(p, n);
        assert(without(q, n) == if q.last() != n { without(p, n).push(q.last()) } else { without(p, n) });
        assert forall|x: Seq<u8>| #[trigger] without(q, n).contains(x) <==> q.contains(x) && x != n by {
            if q.contains(x) && x != n {
                let i = choose|i: int| 0 <= i < q.len() && q[i] == x;
                if i < p.len() {
                    assert(p[i] == x);
                    assert(p.contains(x));
                } else {
                    assert(without(q, n)[without(q, n).len() - 1] == x);
                }
            }
            if without(q, n).contains(x) {
                if q.last() != n {
                    let w = without(p, n);
                    let i = choose|i: int| 0 <= i < w.push(q.last()).len() && w.push(q.last())[i] == x;
                    if i < w.len() {
                        assert(w[i] == x);
                        assert(w.contains(x));
                        let j = choose|j: int| 0 <= j < p.len() && p[j] == x;
                        assert(q[j] == x);
                    } else {
                        assert(q[q.len() - 1] == x);
                    }
                } else {
                    let j = choose|j: int| 0 <= j < p.len() && p[j] == x;
                    assert(q[j] == x);
                }
            }
        }
        if q.no_duplicates() {
            assert(p.no_duplicates()) by {
                assert forall|i: int, j: int| 0 <= i < p.len() && 0 <= j < p.len() && i != j implies p[i] != p[j] by {
                    assert(p[i] == q[i] && p[j] == q[j]);
                }
            }
            if q.last() != n {
                let w = without(p, n);
                assert(!w.contains(q.last())) by {
                    if w.contains(q.last()) {
                        let j = choose|j: int| 0 <= j < p.len() && p[j] == q.last();
                        assert(q[j] == q[q.len() - 1]);
                    }
                }
                assert(w.push(q.last()).no_duplicates()) by {
                    let v = w.push(q.last());
                    assert forall|i: int, j: int| 0 <= i < v.len() && 0 <= j < v.len() && i != j implies v[i] != v[j] by {
                        if i == w.len() as int {
                            assert(w.contains(v[j]));
                        } else if j == w.len() as int {
                            assert(w.contains(v[i]));
                        } else {
                            assert(v[i] == w[i] && v[j] == w[j]);
                        }
                    }
                }
            }
        }
    }
}

/// A burn keeps a consistent store consistent: the nonce leaves the queue
/// and the live map together.
pub proof fn law_a_burn_keeps_the_store_consistent(
    live: Map<Seq<u8>, (u64, u64)>,
    queue: Seq<Seq<u8>>,
    cap: nat,
    n: Seq<u8>,
)
    requires
        consistent_view(live, queue, cap),
    ensures
        consistent_view(live.remove(n), without(queue, n), cap),
{
    lemma_without(queue, n);
    assert(without(queue, n).to_set() =~= live.remove(n).dom()) by {
        assert forall|k: Seq<u8>| without(queue, n).to_set().contains(k) <==> live.remove(n).dom().contains(k) by {
            assert(without(queue, n).to_set().contains(k) == without(queue, n).contains(k));
            assert(queue.to_set().contains(k) == queue.contains(k));
        }
    }
}

/// One operation on the store's two views: an issue of a nonce with its
/// principal and expiry, or a burn.
pub enum StoreOp {
    Issue(Seq<u8>, (u64, u64)),
    Burn(Seq<u8>),
}

/// What one operation does to the live map and the issue queue — what
/// `Challenges::issue` and `Challenges::burn` state of their own effect.
pub open spec fn store_step(
    s: (Map<Seq<u8>, (u64, u64)>, Seq<Seq<u8>>),
    cap: nat,
    op: StoreOp,
) -> (Map<Seq<u8>, (u64, u64)>, Seq<Seq<u8>>) {
    match op {
        StoreOp::Issue(n, e) => evicted(s.0.insert(n, e), s.1.push(n), cap),
        StoreOp::Burn(n) => (s.0.remove(n), without(s.1, n)),
    }
}

/// The store a run of operations reaches from a new one.
pub open spec fn store_run(cap: nat, ops: Seq<StoreOp>) -> (Map<Seq<u8>, (u64, u64)>, Seq<Seq<u8>>)
    decreases ops.len(),
{
    if ops.len() == 0 {
        (Map::empty(), Seq::empty())
    } else {
        store_step(store_run(cap, ops.drop_last()), cap, ops.last())
    }
}

/// Every issue in the run draws a nonce that is not live when it is issued.
pub open spec fn fresh_issues(cap: nat, ops: Seq<StoreOp>) -> bool
    decreases ops.len(),
{
    if ops.len() == 0 {
        true
    } else {
        fresh_issues(cap, ops.drop_last()) && match ops.last() {
            StoreOp::Issue(n, _) => !store_run(cap, ops.drop_last()).0.dom().contains(n),
            StoreOp::Burn(_) => true,
        }
    }
}

/// Every store reachable from a new one by issues of fresh nonces and by
/// burns is consistent: its queue names each live nonce once, and no more
/// than the cap of them.
pub proof fn law_every_reachable_store_is_consistent(cap: nat, ops: Seq<StoreOp>)
    requires
        fresh_issues(cap, ops),
    ensures
        consistent_view(store_run(cap, ops).0, store_run(cap, ops).1, cap),
    decreases ops.len(),
{
    if ops.len() == 0 {
        assert(Seq::<Seq<u8>>::empty().to_set() =~= Map::<Seq<u8>, (u64, u64)>::empty().dom());
    } else {
        let p = ops.drop_last();
        law_every_reachable_store_is_consistent(cap, p);
        let s = store_run(cap, p);
        match ops.last() {
            StoreOp::Issue(n, e) => {
                law_a_fresh_issue_is_live(s.0, s.1, cap, n, e);
            },
            StoreOp::Burn(n) => {
                law_a_burn_keeps_the_store_consistent(s.0, s.1, cap, n);
            },
        }
    }
}

/// The daemon's production entropy: every draw comes from the OS, so a
/// nonce is never a function of process state.
pub struct OsEntropy;

impl OsEntropy {
    /// `n` bytes of OS entropy, or `None` where the OS has none to give.
    pub fn fill_bytes(&mut self, n: usize) -> (r: Option<Vec<u8>>)
        ensures
            r matches Some(v) ==> v@.len() == n,
    {
        hybrid::os_entropy(n)
    }
}

/// The challenge store.
pub struct Challenges {
    entries: Vec<Entry>,
    order: Vec<Nonce>,
    cap: usize,
}

fn same_nonce(a: &Nonce, b: &Nonce) -> (r: bool)
    ensures
        r == (a@ == b@),
{
    let x = a.bytes();
    let y = b.bytes();
    text::bytes_eq(x.as_slice(), y.as_slice())
}

impl Challenges {
    /// The live challenges: nonce to principal and expiry.
    pub closed spec fn live(&self) -> Map<Seq<u8>, (u64, u64)> {
        entry_map(self.entries@)
    }

    /// The issue order, oldest first.
    pub closed spec fn queue(&self) -> Seq<Seq<u8>> {
        nonce_views(self.order@)
    }

    /// The most live challenges kept.
    pub closed spec fn limit(&self) -> nat {
        self.cap as nat
    }

    /// The queue and the live map agree, without repeats, within the cap.
    pub open spec fn consistent(&self) -> bool {
        consistent_view(self.live(), self.queue(), self.limit())
    }

    #[verifier::type_invariant]
    closed spec fn distinct(&self) -> bool {
        distinct_nonces(self.entries@)
    }

    /// An empty store keeping at most `cap` challenges.
    pub fn new(cap: usize) -> (c: Challenges)
        ensures
            c.live() == Map::<Seq<u8>, (u64, u64)>::empty(),
            c.queue().len() == 0,
            c.limit() == cap,
            c.consistent(),
    {
        let c = Challenges { entries: Vec::new(), order: Vec::new(), cap };
        assert(nonce_views(c.order@) =~= Seq::<Seq<u8>>::empty());
        assert(c.queue().to_set() =~= c.live().dom());
        c
    }

    /// Remove `n` from the map, answering what it held.
    fn take(&mut self, n: &Nonce) -> (r: Option<(u64, u64)>)
        ensures
            r == (if old(self).live().dom().contains(n@) {
                Some(old(self).live()[n@])
            } else {
                None::<(u64, u64)>
            }),
            final(self).live() == old(self).live().remove(n@),
            final(self).queue() == old(self).queue(),
            final(self).limit() == old(self).limit(),
    {
        proof {
            use_type_invariant(&*self);
            lemma_entry_map(self.entries@);
        }
        let ghost before = self.entries@;
        let mut i: usize = 0;
        while i < self.entries.len()
            invariant
                0 <= i <= self.entries@.len(),
                self.entries@ == before,
                before == old(self).entries@,
                distinct_nonces(before),
                self.order@ == old(self).order@,
                self.cap == old(self).cap,
                forall|j: int| 0 <= j < i ==> before[j].nonce@ != n@,
            decreases self.entries@.len() - i,
        {
            if same_nonce(&self.entries[i].nonce, n) {
                let mut entries: Vec<Entry> = Vec::new();
                std::mem::swap(&mut entries, &mut self.entries);
                let e = entries.remove(i);
                proof {
                    lemma_entry_map(before);
                    assert(before[i as int].nonce@ == n@);
                    let after = entries@;
                    assert(after =~= before.remove(i as int));
                    assert(distinct_nonces(after)) by {
                        assert forall|a: int, b: int| 0 <= a < b < after.len() implies (#[trigger] after[a]).nonce@
                            != (#[trigger] after[b]).nonce@ by {
                            let a0 = if a < i { a } else { a + 1 };
                            let b0 = if b < i { b } else { b + 1 };
                            assert(after[a] == before[a0]);
                            assert(after[b] == before[b0]);
                        }
                    }
                    lemma_entry_map(after);
                    assert(entry_map(after) =~= entry_map(before).remove(n@)) by {
                        assert forall|k: Seq<u8>| #[trigger] entry_map(after).dom().contains(k) <==> entry_map(before).remove(n@).dom().contains(k) by {
                            if exists|j: int| 0 <= j < after.len() && #[trigger] after[j].nonce@ == k {
                                let j = choose|j: int| 0 <= j < after.len() && #[trigger] after[j].nonce@ == k;
                                let j0 = if j < i { j } else { j + 1 };
                                assert(after[j] == before[j0]);
                                if j0 < i {
                                    assert(before[j0].nonce@ != before[i as int].nonce@);
                                } else {
                                    assert(before[i as int].nonce@ != before[j0].nonce@);
                                }
                            }
                            if entry_map(before).remove(n@).dom().contains(k) {
                                assert(entry_map(before).dom().contains(k));
                                assert(k != n@);
                                let j = choose|j: int| 0 <= j < before.len() && #[trigger] before[j].nonce@ == k;
                                assert(j != i);
                                let j1 = if j < i { j } else { j - 1 };
                                assert(after[j1] == before[j]);
                            }
                        }
                        assert forall|k: Seq<u8>| #[trigger] entry_map(after).dom().contains(k) implies entry_map(after)[k] == entry_map(before).remove(n@)[k] by {
                            let j = choose|j: int| 0 <= j < after.len() && #[trigger] after[j].nonce@ == k;
                            let j0 = if j < i { j } else { j + 1 };
                            assert(after[j] == before[j0]);
                        }
                    }
                }
                self.entries = entries;
                proof {
                    assert(entry_map(before)[before[i as int].nonce@] == (e.principal, e.expires));
                }
                return Some((e.principal, e.expires));
            }
            i = i + 1;
        }
        proof {
            assert(!entry_map(before).dom().contains(n@));
            assert(entry_map(before).remove(n@) =~= entry_map(before));
        }
        None
    }

    /// Issue the nonce `raw` for any principal (nothing is secret),
    /// expiring the TTL after `now`; evict the oldest past the cap. The
    /// bytes are drawn by the caller from its entropy source.
    pub fn issue(&mut self, principal: u64, now: u64, raw: [u8; 32]) -> (n: Nonce)
        requires
            now <= u64::MAX - CHALLENGE_TTL_MILLIS,
        ensures
            n@ == raw@,
            final(self).limit() == old(self).limit(),
            (final(self).live(), final(self).queue()) == evicted(
                old(self).live().insert(raw@, (principal, (now + CHALLENGE_TTL_MILLIS) as u64)),
                old(self).queue().push(raw@),
                old(self).limit(),
            ),
            (final(self).live(), final(self).queue()) == store_step(
                (old(self).live(), old(self).queue()),
                old(self).limit(),
                StoreOp::Issue(raw@, (principal, (now + CHALLENGE_TTL_MILLIS) as u64)),
            ),
            old(self).consistent() && !old(self).live().dom().contains(raw@) ==> {
                &&& final(self).consistent()
                &&& old(self).limit() >= 1 ==> final(self).live().dom().contains(raw@)
                    && final(self).live()[raw@] == (principal, (now + CHALLENGE_TTL_MILLIS) as u64)
            },
    {
        proof {
            if old(self).consistent() && !old(self).live().dom().contains(raw@) {
                law_a_fresh_issue_is_live(
                    old(self).live(),
                    old(self).queue(),
                    old(self).limit(),
                    raw@,
                    (principal, (now + CHALLENGE_TTL_MILLIS) as u64),
                );
            }
        }
        let nonce = Nonce::from_bytes(raw);
        let _ = self.take(&nonce);
        let ghost m0 = self.live();
        proof {
            use_type_invariant(&*self);
            lemma_entry_map(self.entries@);
            assert(!m0.dom().contains(nonce@));
        }
        let mut entries: Vec<Entry> = Vec::new();
        std::mem::swap(&mut entries, &mut self.entries);
        let ghost before = entries@;
        entries.push(Entry { nonce, principal, expires: now + CHALLENGE_TTL_MILLIS });
        proof {
            assert(entries@.drop_last() =~= before);
            assert(distinct_nonces(entries@)) by {
                assert forall|a: int, b: int| 0 <= a < b < entries@.len() implies (#[trigger] entries@[a]).nonce@
                    != (#[trigger] entries@[b]).nonce@ by {
                    if b == entries@.len() - 1 {
                        assert(entries@[a] == before[a]);
                        assert(entry_map(before).dom().contains(before[a].nonce@));
                    } else {
                        assert(entries@[a] == before[a]);
                        assert(entries@[b] == before[b]);
                    }
                }
            }
        }
        self.entries = entries;
        proof {
            assert(self.live() =~= old(self).live().insert(raw@, (principal, (now + CHALLENGE_TTL_MILLIS) as u64)));
        }
        let mut order: Vec<Nonce> = Vec::new();
        std::mem::swap(&mut order, &mut self.order);
        let ghost q0 = nonce_views(order@);
        order.push(nonce);
        assert(nonce_views(order@) =~= q0.push(raw@));
        while order.len() > self.cap
            invariant
                evicted(self.live(), nonce_views(order@), self.limit()) == evicted(
                    old(self).live().insert(raw@, (principal, (now + CHALLENGE_TTL_MILLIS) as u64)),
                    old(self).queue().push(raw@),
                    old(self).limit(),
                ),
                self.limit() == old(self).limit(),
            decreases order@.len(),
        {
            let ghost q = nonce_views(order@);
            let old_nonce = order.remove(0);
            assert(nonce_views(order@) =~= q.drop_first());
            let _ = self.take(&old_nonce);
        }
        proof {
            use_type_invariant(&*self);
        }
        self.order = order;
        nonce
    }

    /// Issue a nonce of 32 bytes drawn from `rng`, as [`Challenges::issue`]
    /// does with the bytes it is given. `None`, the store unchanged, where
    /// the OS had no entropy to give: no nonce is minted from anything
    /// weaker.
    pub fn issue_drawn(&mut self, principal: u64, now: u64, rng: &mut OsEntropy) -> (r: Option<Nonce>)
        requires
            now <= u64::MAX - CHALLENGE_TTL_MILLIS,
        ensures
            final(self).limit() == old(self).limit(),
            match r {
                Some(n) => n@.len() == 32 && (final(self).live(), final(self).queue()) == evicted(
                    old(self).live().insert(n@, (principal, (now + CHALLENGE_TTL_MILLIS) as u64)),
                    old(self).queue().push(n@),
                    old(self).limit(),
                ) && (old(self).consistent() && !old(self).live().dom().contains(n@) ==> {
                    &&& final(self).consistent()
                    &&& old(self).limit() >= 1 ==> final(self).live().dom().contains(n@)
                        && final(self).live()[n@] == (principal, (now + CHALLENGE_TTL_MILLIS) as u64)
                }),
                None => final(self).live() == old(self).live() && final(self).queue() == old(self).queue(),
            },
    {
        match rng.fill_bytes(32) {
            Some(v) => {
                let mut raw = [0u8; 32];
                let mut i: usize = 0;
                while i < 32
                    invariant
                        0 <= i <= 32,
                        v@.len() == 32,
                        raw@.len() == 32,
                        forall|j: int| 0 <= j < i ==> raw@[j] == v@[j],
                    decreases 32 - i,
                {
                    raw[i] = v[i];
                    i = i + 1;
                }
                let n = self.issue(principal, now, raw);
                Some(n)
            },
            None => None,
        }
    }

    /// SINGLE-USE: the burn removes the nonce from BOTH structures whether
    /// or not it validates; `true` iff it was present, unexpired at `now`,
    /// and issued for `principal`.
    pub fn burn(&mut self, nonce: &Nonce, principal: u64, now: u64) -> (r: bool)
        ensures
            r == validates(
                if old(self).live().dom().contains(nonce@) {
                    Some(old(self).live()[nonce@])
                } else {
                    None
                },
                principal,
                now,
            ),
            final(self).live() == old(self).live().remove(nonce@),
            final(self).queue() == without(old(self).queue(), nonce@),
            final(self).limit() == old(self).limit(),
            (final(self).live(), final(self).queue()) == store_step(
                (old(self).live(), old(self).queue()),
                old(self).limit(),
                StoreOp::Burn(nonce@),
            ),
            old(self).consistent() ==> final(self).consistent(),
    {
        proof {
            if old(self).consistent() {
                law_a_burn_keeps_the_store_consistent(old(self).live(), old(self).queue(), old(self).limit(), nonce@);
            }
        }
        let entry = self.take(nonce);
        let ghost q = self.queue();
        let mut kept: Vec<Nonce> = Vec::new();
        let mut i: usize = 0;
        while i < self.order.len()
            invariant
                0 <= i <= self.order@.len(),
                q == nonce_views(self.order@),
                nonce_views(kept@) == nonce_views(self.order@).take(i as int).filter(|x: Seq<u8>| x != nonce@),
            decreases self.order@.len() - i,
        {
            let n = self.order[i];
            proof {
                let t = nonce_views(self.order@).take(i + 1);
                assert(t.drop_last() =~= nonce_views(self.order@).take(i as int));
                reveal(Seq::filter);
            }
            if !same_nonce(&n, nonce) {
                let ghost before = nonce_views(kept@);
                kept.push(n);
                assert(nonce_views(kept@) =~= before.push(n@));
            }
            i = i + 1;
        }
        assert(nonce_views(self.order@).take(i as int) =~= q);
        proof {
            use_type_invariant(&*self);
        }
        self.order = kept;
        match entry {
            Some((p, expires)) => p == principal && now < expires,
            None => false,
        }
    }
}

/// A burn is single-use: once burned, a nonce validates no second time —
/// whoever presents it, whenever.
pub proof fn law_burn_is_single_use(live: Map<Seq<u8>, (u64, u64)>, n: Seq<u8>, principal: u64, now: u64)
    ensures
        !validates(
            if live.remove(n).dom().contains(n) {
                Some(live.remove(n)[n])
            } else {
                None
            },
            principal,
            now,
        ),
{
}

/// The store never holds more than its cap in its order queue once an
/// issue has evicted.
pub proof fn law_eviction_keeps_the_cap(m: Map<Seq<u8>, (u64, u64)>, o: Seq<Seq<u8>>, cap: nat)
    ensures
        evicted(m, o, cap).1.len() <= cap || o.len() <= cap,
        o.len() > cap ==> evicted(m, o, cap).1.len() == cap,
        o.len() <= cap ==> evicted(m, o, cap).1 == o,
    decreases o.len(),
{
    if o.len() > cap {
        law_eviction_keeps_the_cap(m.remove(o[0]), o.drop_first(), cap);
    }
}

} // verus!
