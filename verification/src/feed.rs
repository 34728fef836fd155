//! The change feed's candidate sources: a list narrowed to the positions at
//! or above a fence, the K-way merge of ascending sources, deduplicated by
//! position across the whole merge, and the index the feed opens with —
//! the masked positions, the published stream that is their complement,
//! and the per-owner streams.

use vstd::prelude::*;

verus! {

/// Ascending (repeats allowed).
pub open spec fn ascending(s: Seq<u64>) -> bool {
    forall|a: int, b: int| 0 <= a <= b < s.len() ==> s[a] <= s[b]
}

/// Strictly ascending: ascending with no position twice.
pub open spec fn strictly_ascending(s: Seq<u64>) -> bool {
    forall|a: int, b: int| 0 <= a < b < s.len() ==> s[a] < s[b]
}

/// A list's positions at or above `start`: the suffix from the first such
/// member. On an ascending list this is exactly the members `>= start`, in
/// order; on a list that lost its order it is some suffix, and no fence.
pub fn at_or_above(positions: &[u64], start: u64) -> (r: &[u64])
    ensures
        exists|i: int|
            0 <= i <= positions@.len() && r@ == positions@.subrange(i, positions@.len() as int),
        ascending(positions@) ==> r@ == positions@.filter(|p: u64| p >= start),
{
    let mut lo: usize = 0;
    let mut hi: usize = positions.len();
    while lo < hi
        invariant
            0 <= lo <= hi <= positions@.len(),
            ascending(positions@) ==> forall|k: int| 0 <= k < lo ==> positions@[k] < start,
            ascending(positions@) ==> forall|k: int| hi <= k < positions@.len() ==> positions@[k]
                >= start,
        decreases hi - lo,
    {
        let mid = lo + (hi - lo) / 2;
        if positions[mid] < start {
            lo = mid + 1;
        } else {
            hi = mid;
        }
    }
    let r = &positions[lo..positions.len()];
    proof {
        if ascending(positions@) {
            lemma_filter_split(positions@, start, lo as int);
        }
    }
    r
}

proof fn lemma_filter_split(s: Seq<u64>, start: u64, i: int)
    requires
        0 <= i <= s.len(),
        forall|k: int| 0 <= k < i ==> s[k] < start,
        forall|k: int| i <= k < s.len() ==> s[k] >= start,
    ensures
        s.subrange(i, s.len() as int) == s.filter(|p: u64| p >= start),
    decreases s.len(),
{
    let f = |p: u64| p >= start;
    reveal(Seq::filter);
    if s.len() == 0 {
        assert(s.subrange(0, 0) =~= s.filter(f));
    } else if i == s.len() {
        lemma_filter_split(s.drop_last(), start, i - 1);
        assert(s.drop_last().subrange(i - 1, i - 1) =~= Seq::<u64>::empty());
        assert(s.filter(f) == s.drop_last().filter(f)) by {
            assert(s =~= s.drop_last().push(s.last()));
        }
        assert(s.subrange(i, s.len() as int) =~= Seq::<u64>::empty());
    } else {
        lemma_filter_split(s.drop_last(), start, i);
        assert(s =~= s.drop_last().push(s.last()));
        assert(s.subrange(i, s.len() as int) =~= s.drop_last().subrange(
            i,
            s.len() - 1,
        ).push(s.last()));
    }
}

// ── the merge ───────────────────────────────────────────────────────────

/// The K-way merge of ascending position sources, deduplicated by position
/// across the whole merge: each call of [`Merge::next`] gives the least
/// position any source still holds, and takes it from every source.
pub struct Merge {
    sources: Vec<Vec<u64>>,
    cursors: Vec<usize>,
}

/// The positions sources `0..n` hold at or past their cursors.
pub open spec fn pending(s: Seq<Seq<u64>>, c: Seq<usize>, n: int) -> nat
    decreases n,
{
    if n <= 0 {
        0
    } else {
        (s[n - 1].len() - c[n - 1]) as nat + pending(s, c, n - 1)
    }
}

proof fn lemma_pending_drops(s: Seq<Seq<u64>>, c: Seq<usize>, d: Seq<usize>, n: int, k: int)
    requires
        0 <= k < n <= s.len(),
        n <= c.len(),
        n <= d.len(),
        forall|i: int| 0 <= i < n ==> c[i] <= #[trigger] d[i] <= s[i].len(),
        c[k] < d[k],
    ensures
        pending(s, d, n) < pending(s, c, n),
    decreases n,
{
    if n - 1 > k {
        lemma_pending_drops(s, c, d, n - 1, k);
    } else {
        lemma_pending_le(s, c, d, n - 1);
    }
}

proof fn lemma_pending_le(s: Seq<Seq<u64>>, c: Seq<usize>, d: Seq<usize>, n: int)
    requires
        0 <= n <= s.len(),
        n <= c.len(),
        n <= d.len(),
        forall|i: int| 0 <= i < n ==> c[i] <= #[trigger] d[i] <= s[i].len(),
    ensures
        pending(s, d, n) <= pending(s, c, n),
    decreases n,
{
    if n > 0 {
        lemma_pending_le(s, c, d, n - 1);
    }
}

/// The positions of a list of position vectors.
pub open spec fn source_views(v: Seq<Vec<u64>>) -> Seq<Seq<u64>> {
    v.map_values(|x: Vec<u64>| x@)
}

/// Some source holds `x` at or past its cursor.
pub open spec fn held_at(s: Seq<Seq<u64>>, c: Seq<usize>, x: u64) -> bool {
    exists|i: int, j: int| 0 <= i < s.len() && c[i] <= j < s[i].len() && #[trigger] s[i][j] == x
}

/// Some source holds `x` anywhere.
pub open spec fn in_sources(s: Seq<Seq<u64>>, x: u64) -> bool {
    exists|i: int, j: int| 0 <= i < s.len() && 0 <= j < s[i].len() && #[trigger] s[i][j] == x
}

impl Merge {
    /// The sources' positions.
    pub closed spec fn srcs(&self) -> Seq<Seq<u64>> {
        source_views(self.sources@)
    }

    /// The positions still to come: every position some source holds at or
    /// past its cursor.
    pub closed spec fn remaining(&self) -> Set<u64> {
        Set::new(|x: u64| held_at(self.srcs(), self.cursors@, x))
    }

    /// How many source entries are still unread — the merge's measure.
    pub closed spec fn unread(&self) -> nat {
        pending(self.srcs(), self.cursors@, self.sources@.len() as int)
    }

    /// Every source ascending, and every cursor within its source.
    pub closed spec fn wf(&self) -> bool {
        &&& self.cursors@.len() == self.sources@.len()
        &&& forall|i: int| 0 <= i < self.sources@.len() ==> ascending(#[trigger] self.srcs()[i])
        &&& forall|i: int|
            0 <= i < self.sources@.len() ==> #[trigger] self.cursors@[i] <= self.srcs()[i].len()
    }

    /// The merge of these sources, each ascending.
    pub fn new(sources: Vec<Vec<u64>>) -> (m: Merge)
        requires
            forall|i: int| 0 <= i < sources@.len() ==> ascending(#[trigger] sources@[i]@),
        ensures
            m.wf(),
            m.srcs() == source_views(sources@),
            m.remaining() == Set::new(|x: u64| in_sources(source_views(sources@), x)),
    {
        let mut cursors: Vec<usize> = Vec::new();
        let mut i: usize = 0;
        while i < sources.len()
            invariant
                0 <= i <= sources@.len(),
                cursors@.len() == i,
                forall|k: int| 0 <= k < i ==> cursors@[k] == 0,
            decreases sources@.len() - i,
        {
            cursors.push(0);
            i = i + 1;
        }
        let m = Merge { sources, cursors };
        let ghost s = m.srcs();
        assert forall|x: u64| held_at(s, m.cursors@, x) <==> in_sources(s, x) by {
            if in_sources(s, x) {
                let (a, b) = choose|a: int, b: int|
                    0 <= a < s.len() && 0 <= b < s[a].len() && #[trigger] s[a][b] == x;
                assert(m.cursors@[a] <= b);
            }
        }
        assert(m.remaining() =~= Set::new(|x: u64| in_sources(source_views(m.sources@), x)));
        m
    }

    /// The next position, each emitted exactly once: the least position
    /// still to come, taken from every source that holds it. `None` once
    /// every source is spent.
    pub fn next(&mut self) -> (r: Option<u64>)
        requires
            old(self).wf(),
        ensures
            final(self).wf(),
            final(self).srcs() == old(self).srcs(),
            match r {
                None => old(self).remaining() == Set::<u64>::empty() && final(self).remaining()
                    == old(self).remaining(),
                Some(m) => {
                    &&& old(self).remaining().contains(m)
                    &&& forall|x: u64| old(self).remaining().contains(x) ==> m <= x
                    &&& final(self).remaining() == old(self).remaining().remove(m)
                    &&& final(self).unread() < old(self).unread()
                },
            },
    {
        let ghost s = self.srcs();
        let ghost osrc = self.sources@;
        let n = self.sources.len();
        let mut best: Option<u64> = None;
        let mut at: usize = 0;
        let mut i: usize = 0;
        while i < n
            invariant
                n == s.len(),
                self.sources@ == osrc,
                s == self.srcs(),
                self.wf(),
                0 <= i <= n,
                best is None ==> forall|k: int| 0 <= k < i ==> self.cursors@[k] == s[k].len(),
                best matches Some(b) ==> {
                    &&& at < i
                    &&& self.cursors@[at as int] < s[at as int].len()
                    &&& s[at as int][self.cursors@[at as int] as int] == b
                    &&& forall|k: int|
                        0 <= k < i && self.cursors@[k] < s[k].len() ==> b <= s[k][self.cursors@[k] as int]
                },
            decreases n - i,
        {
            let c = self.cursors[i];
            assert(s[i as int] == self.sources@[i as int]@);
            if c < self.sources[i].len() {
                let h = self.sources[i][c];
                let better = match best {
                    None => true,
                    Some(b) => h < b,
                };
                if better {
                    best = Some(h);
                    at = i;
                }
            }
            i = i + 1;
        }
        let ghost oc = self.cursors@;
        let ghost before = self.remaining();
        let m = match best {
            None => {
                assert(before =~= Set::<u64>::empty()) by {
                    assert forall|x: u64| !before.contains(x) by {
                        if before.contains(x) {
                            let (a, b) = choose|a: int, b: int|
                                0 <= a < s.len() && oc[a] <= b < s[a].len() && #[trigger] s[a][b] == x;
                            assert(oc[a] == s[a].len());
                        }
                    }
                }
                return None;
            },
            Some(b) => b,
        };
        proof {
            let c = oc[at as int] as int;
            assert(s[at as int][c] == m);
            assert(held_at(s, oc, m));
            assert forall|x: u64| before.contains(x) implies m <= x by {
                let (a, b) = choose|a: int, b: int|
                    0 <= a < s.len() && oc[a] <= b < s[a].len() && #[trigger] s[a][b] == x;
                let c = oc[a] as int;
                assert(ascending(s[a]));
                assert(s[a][c] <= s[a][b]);
            }
        }
        let mut i: usize = 0;
        while i < n
            invariant
                n == s.len(),
                self.sources@ == osrc,
                s == self.srcs(),
                self.wf(),
                0 <= i <= n,
                oc.len() == n,
                forall|k: int| 0 <= k < n ==> oc[k] <= s[k].len(),
                forall|k: int| i <= k < n ==> #[trigger] self.cursors@[k] == oc[k],
                forall|k: int| 0 <= k < i ==> oc[k] <= #[trigger] self.cursors@[k],
                forall|k: int, j: int|
                    0 <= k < i && oc[k] <= j < self.cursors@[k] ==> #[trigger] s[k][j] == m,
                forall|k: int|
                    0 <= k < i && #[trigger] self.cursors@[k] < s[k].len() ==> s[k][self.cursors@[k] as int] != m,
                at < n,
                i > at ==> self.cursors@[at as int] > oc[at as int],
                oc[at as int] < s[at as int].len(),
                s[at as int][oc[at as int] as int] == m,
            decreases n - i,
        {
            let mut c = self.cursors[i];
            let len = self.sources[i].len();
            assert(s[i as int] == self.sources@[i as int]@);
            while c < len && self.sources[i][c] == m
                invariant
                    n == s.len(),
                    self.sources@ == osrc,
                    s == self.srcs(),
                    i < n,
                    s[i as int] == self.sources@[i as int]@,
                    len == s[i as int].len(),
                    oc[i as int] <= c <= len,
                    forall|j: int| oc[i as int] <= j < c ==> #[trigger] s[i as int][j] == m,
                decreases len - c,
            {
                c = c + 1;
            }
            self.cursors.set(i, c);
            i = i + 1;
        }
        proof {
            let after = self.remaining();
            let nc = self.cursors@;
            assert forall|x: u64| after.contains(x) <==> before.remove(m).contains(x) by {
                if after.contains(x) {
                    let (a, b) = choose|a: int, b: int|
                        0 <= a < s.len() && nc[a] <= b < s[a].len() && #[trigger] s[a][b] == x;
                    let c = nc[a] as int;
                    assert(s[a][c] != m);
                    assert(ascending(s[a]));
                    assert(s[a][c] <= s[a][b]);
                    assert(held_at(s, oc, s[a][c]));
                    assert(held_at(s, oc, x));
                }
                if before.contains(x) && x != m {
                    let (a, b) = choose|a: int, b: int|
                        0 <= a < s.len() && oc[a] <= b < s[a].len() && #[trigger] s[a][b] == x;
                    assert(nc[a] <= b);
                    assert(held_at(s, nc, x));
                }
            }
            assert(after =~= before.remove(m));
            lemma_pending_drops(s, oc, nc, n as int, at as int);
        }
        Some(m)
    }

    /// Every position still to come, in order: strictly ascending, each
    /// once, and exactly the positions the sources hold past their cursors.
    pub fn into_vec(self) -> (out: Vec<u64>)
        requires
            self.wf(),
        ensures
            strictly_ascending(out@),
            out@.to_set() == self.remaining(),
    {
        let mut m = self;
        let ghost all = m.remaining();
        let mut out: Vec<u64> = Vec::new();
        loop
            invariant
                m.wf(),
                all == self.remaining(),
                strictly_ascending(out@),
                out@.to_set() + m.remaining() == all,
                forall|k: int, x: u64| 0 <= k < out@.len() && m.remaining().contains(x) ==> out@[k] < x,
                forall|k: int| 0 <= k < out@.len() ==> !m.remaining().contains(#[trigger] out@[k]),
            decreases m.unread(),
        {
            let ghost prev = out@;
            let ghost rem = m.remaining();
            match m.next() {
                None => {
                    assert(out@.to_set() + rem =~= out@.to_set());
                    return out;
                },
                Some(p) => {
                    out.push(p);
                    proof {
                        assert forall|k: int| 0 <= k < out@.len() - 1 implies out@[k] < p by {
                            assert(prev[k] == out@[k]);
                        }
                        assert(out@.to_set() =~= prev.to_set().insert(p)) by {
                            assert forall|x: u64| out@.to_set().contains(x) <==> prev.to_set().insert(p).contains(x) by {
                                if out@.contains(x) {
                                    let k = choose|k: int| 0 <= k < out@.len() && out@[k] == x;
                                    if k < prev.len() {
                                        assert(prev[k] == x);
                                    }
                                }
                                if prev.contains(x) {
                                    let k = choose|k: int| 0 <= k < prev.len() && prev[k] == x;
                                    assert(out@[k] == x);
                                }
                                if x == p {
                                    assert(out@[prev.len() as int] == x);
                                }
                            }
                        }
                        assert(out@.to_set() + m.remaining() =~= all);
                        assert forall|k: int, x: u64|
                            0 <= k < out@.len() && m.remaining().contains(x) implies out@[k] < x by {
                            if k < prev.len() {
                                assert(prev[k] == out@[k]);
                            }
                        }
                        assert forall|k: int| 0 <= k < out@.len() implies !m.remaining().contains(
                            #[trigger] out@[k],
                        ) by {
                            if k < prev.len() {
                                assert(prev[k] == out@[k]);
                            }
                        }
                    }
                },
            }
        }
    }
}

/// The merge's whole output is the sorted, deduplicated union of its
/// sources: every position of every source, each once, ascending.
pub fn merge_all(sources: Vec<Vec<u64>>) -> (out: Vec<u64>)
    requires
        forall|i: int| 0 <= i < sources@.len() ==> ascending(#[trigger] sources@[i]@),
    ensures
        strictly_ascending(out@),
        forall|x: u64| out@.contains(x) <==> in_sources(source_views(sources@), x),
{
    let ghost src = source_views(sources@);
    let m = Merge::new(sources);
    let out = m.into_vec();
    proof {
        assert forall|x: u64| out@.contains(x) <==> in_sources(src, x) by {
            assert(out@.to_set().contains(x) == out@.contains(x));
        }
    }
    out
}


// ── the index the feed opens with ───────────────────────────────────────

/// Whether `s` holds `x`.
fn holds_u64(s: &Vec<u64>, x: u64) -> (r: bool)
    ensures
        r == s@.contains(x),
{
    let mut i: usize = 0;
    while i < s.len()
        invariant
            0 <= i <= s@.len(),
            forall|k: int| 0 <= k < i ==> s@[k] != x,
        decreases s@.len() - i,
    {
        if s[i] == x {
            assert(s@[i as int] == x);
            return true;
        }
        i = i + 1;
    }
    false
}

/// Put `x` into a strictly ascending list, which stays strictly ascending
/// and gains `x` and nothing else.
fn insert_sorted(v: &mut Vec<u64>, x: u64)
    requires
        strictly_ascending(old(v)@),
    ensures
        strictly_ascending(final(v)@),
        forall|e: u64| final(v)@.contains(e) <==> (old(v)@.contains(e) || e == x),
{
    let ghost s = v@;
    let mut i: usize = 0;
    while i < v.len() && v[i] < x
        invariant
            0 <= i <= v@.len(),
            v@ == s,
            strictly_ascending(s),
            forall|k: int| 0 <= k < i ==> s[k] < x,
        decreases v@.len() - i,
    {
        i = i + 1;
    }
    if i < v.len() && v[i] == x {
        return;
    }
    v.insert(i, x);
    proof {
        let t = s.insert(i as int, x);
        assert(v@ == t);
        assert forall|a: int, b: int| 0 <= a < b < t.len() implies t[a] < t[b] by {
            if i < s.len() {
                assert(s[i as int] > x);
            }
            if b < i {
            } else if b == i {
            } else if a < i {
                assert(s[a] < x);
            } else if a == i {
                assert(s[i as int] > x);
                assert(s[i as int] <= s[b - 1]);
            } else {
            }
        }
        assert forall|e: u64| t.contains(e) <==> (s.contains(e) || e == x) by {
            if t.contains(e) {
                let k = choose|k: int| 0 <= k < t.len() && t[k] == e;
                if k < i {
                    assert(s[k] == e);
                } else if k > i {
                    assert(s[k - 1] == e);
                }
            }
            if s.contains(e) {
                let k = choose|k: int| 0 <= k < s.len() && s[k] == e;
                if k < i {
                    assert(t[k] == e);
                } else {
                    assert(t[k + 1] == e);
                }
            }
            if e == x {
                assert(t[i as int] == x);
            }
        }
    }
}

/// The lines of the owner-stream record with each owner list as a sequence.
pub open spec fn line_views(v: Seq<(u64, Vec<u64>)>) -> Seq<(u64, Seq<u64>)> {
    Seq::new(v.len(), |i: int| (v[i].0, v[i].1@))
}

/// Whether position `p` belongs in owner `o`'s stream: `p` is in the log,
/// and some line at `p` names `o`.
pub open spec fn in_stream(positions: Seq<u64>, lines: Seq<(u64, Seq<u64>)>, o: u64, p: u64) -> bool {
    positions.contains(p) && exists|j: int|
        0 <= j < lines.len() && (#[trigger] lines[j]).0 == p && lines[j].1.contains(o)
}

/// Whether the built streams put `p` in `o`'s stream.
pub open spec fn stream_holds(s: Seq<(u64, Seq<u64>)>, o: u64, p: u64) -> bool {
    exists|k: int| 0 <= k < s.len() && (#[trigger] s[k]).0 == o && s[k].1.contains(p)
}

/// Owners strictly ascending, each stream strictly ascending and non-empty.
pub open spec fn streams_ordered(s: Seq<(u64, Seq<u64>)>) -> bool {
    &&& forall|a: int, b: int| 0 <= a < b < s.len() ==> (#[trigger] s[a]).0 < (#[trigger] s[b]).0
    &&& forall|k: int| 0 <= k < s.len() ==> strictly_ascending((#[trigger] s[k]).1) && s[k].1.len() > 0
}

proof fn lemma_grow_stream(s: Seq<(u64, Seq<u64>)>, k: int, l2: Seq<u64>, at: u64)
    requires
        0 <= k < s.len(),
        streams_ordered(s),
        strictly_ascending(l2),
        forall|e: u64| l2.contains(e) <==> (s[k].1.contains(e) || e == at),
    ensures
        streams_ordered(s.update(k, (s[k].0, l2))),
        forall|o: u64, p: u64|
            stream_holds(s.update(k, (s[k].0, l2)), o, p) <==> (stream_holds(s, o, p) || (o == s[k].0
                && p == at)),
{
    let t = s.update(k, (s[k].0, l2));
    assert(l2.contains(at));
    assert(l2.len() > 0);
    assert forall|a: int, b: int| 0 <= a < b < t.len() implies (#[trigger] t[a]).0 < (#[trigger] t[b]).0 by {
        assert(s[a].0 < s[b].0);
    }
    assert forall|o: u64, p: u64|
        stream_holds(t, o, p) <==> (stream_holds(s, o, p) || (o == s[k].0 && p == at)) by {
        if stream_holds(t, o, p) {
            let q = choose|q: int| 0 <= q < t.len() && (#[trigger] t[q]).0 == o && t[q].1.contains(p);
            if q != k {
                assert(s[q] == t[q]);
            } else if p != at {
                assert(s[k].0 == o && s[k].1.contains(p));
            }
        }
        if stream_holds(s, o, p) {
            let q = choose|q: int| 0 <= q < s.len() && (#[trigger] s[q]).0 == o && s[q].1.contains(p);
            assert(t[q].0 == o && t[q].1.contains(p));
        }
        if o == s[k].0 && p == at {
            assert(t[k].0 == o && t[k].1.contains(p));
        }
    }
}

proof fn lemma_new_stream(s: Seq<(u64, Seq<u64>)>, k: int, o0: u64, at: u64)
    requires
        0 <= k <= s.len(),
        streams_ordered(s),
        forall|q: int| 0 <= q < k ==> (#[trigger] s[q]).0 < o0,
        forall|q: int| k <= q < s.len() ==> (#[trigger] s[q]).0 > o0,
    ensures
        streams_ordered(s.insert(k, (o0, seq![at]))),
        forall|o: u64, p: u64|
            stream_holds(s.insert(k, (o0, seq![at])), o, p) <==> (stream_holds(s, o, p) || (o == o0
                && p == at)),
{
    let t = s.insert(k, (o0, seq![at]));
    assert forall|a: int, b: int| 0 <= a < b < t.len() implies (#[trigger] t[a]).0 < (#[trigger] t[b]).0 by {
        if b < k {
        } else if b == k {
            assert(t[a] == s[a]);
        } else if a < k {
            assert(t[a] == s[a] && t[b] == s[b - 1]);
        } else if a == k {
            assert(t[b] == s[b - 1]);
        } else {
            assert(t[a] == s[a - 1] && t[b] == s[b - 1]);
        }
    }
    assert forall|q: int| 0 <= q < t.len() implies strictly_ascending((#[trigger] t[q]).1) && t[q].1.len() > 0 by {
        if q < k {
            assert(t[q] == s[q]);
        } else if q > k {
            assert(t[q] == s[q - 1]);
        }
    }
    assert forall|o: u64, p: u64|
        stream_holds(t, o, p) <==> (stream_holds(s, o, p) || (o == o0 && p == at)) by {
        if stream_holds(t, o, p) {
            let q = choose|q: int| 0 <= q < t.len() && (#[trigger] t[q]).0 == o && t[q].1.contains(p);
            if q < k {
                assert(s[q] == t[q]);
            } else if q > k {
                assert(s[q - 1] == t[q]);
            } else {
                assert(seq![at][0] == at);
            }
        }
        if stream_holds(s, o, p) {
            let q = choose|q: int| 0 <= q < s.len() && (#[trigger] s[q]).0 == o && s[q].1.contains(p);
            if q < k {
                assert(t[q] == s[q]);
            } else {
                assert(t[q + 1] == s[q]);
            }
        }
        if o == o0 && p == at {
            assert(t[k].1[0] == at);
        }
    }
}

/// What the feed opens with, from the log's positions and its replayed
/// records: the masked positions, their complement the published stream,
/// and each owner's stream of positions, the owners ascending.
pub struct FeedIndex {
    pub masked: Vec<u64>,
    pub published: Vec<u64>,
    pub streams: Vec<(u64, Vec<u64>)>,
}

/// The owner streams with each stream as a sequence.
pub open spec fn stream_views(v: Seq<(u64, Vec<u64>)>) -> Seq<(u64, Seq<u64>)> {
    Seq::new(v.len(), |i: int| (v[i].0, v[i].1@))
}

/// Build the feed's index. `positions` are the log's, ascending; `masked`
/// the positions recorded or re-derived as masked, of which only those the
/// log holds count; each line of `lines` is a position and the owners its
/// drafts belong to, in record order. The masked and published lists
/// partition the log's positions, both ascending; each owner's stream holds
/// exactly the log's positions whose lines name it, ascending and each
/// once, whatever order the lines came in.
pub fn feed_index(positions: &Vec<u64>, masked: &Vec<u64>, lines: &Vec<(u64, Vec<u64>)>) -> (f: FeedIndex)
    requires
        strictly_ascending(positions@),
    ensures
        strictly_ascending(f.masked@),
        strictly_ascending(f.published@),
        forall|p: u64| f.masked@.contains(p) <==> (positions@.contains(p) && masked@.contains(p)),
        forall|p: u64| f.published@.contains(p) <==> (positions@.contains(p) && !masked@.contains(p)),
        streams_ordered(stream_views(f.streams@)),
        forall|o: u64, p: u64|
            stream_holds(stream_views(f.streams@), o, p) <==> in_stream(positions@, line_views(lines@), o, p),
{
    let mut m: Vec<u64> = Vec::new();
    let mut pb: Vec<u64> = Vec::new();
    let mut i: usize = 0;
    while i < positions.len()
        invariant
            0 <= i <= positions@.len(),
            strictly_ascending(positions@),
            strictly_ascending(m@),
            strictly_ascending(pb@),
            forall|k: int| 0 <= k < m@.len() ==> exists|q: int| 0 <= q < i && positions@[q] == #[trigger] m@[k],
            forall|k: int| 0 <= k < pb@.len() ==> exists|q: int| 0 <= q < i && positions@[q] == #[trigger] pb@[k],
            forall|p: u64| m@.contains(p) <==> (positions@.take(i as int).contains(p) && masked@.contains(p)),
            forall|p: u64| pb@.contains(p) <==> (positions@.take(i as int).contains(p) && !masked@.contains(p)),
        decreases positions@.len() - i,
    {
        let p = positions[i];
        let ghost pre = positions@.take(i as int);
        proof {
            let t1 = positions@.take(i + 1);
            assert forall|e: u64| t1.contains(e) <==> (pre.contains(e) || e == p) by {
                if t1.contains(e) {
                    let k = choose|k: int| 0 <= k < t1.len() && t1[k] == e;
                    if k < i {
                        assert(pre[k] == e);
                    }
                }
                if pre.contains(e) {
                    let k = choose|k: int| 0 <= k < pre.len() && pre[k] == e;
                    assert(t1[k] == e);
                }
                if e == p {
                    assert(t1[i as int] == e);
                }
            }
            assert(!pre.contains(p)) by {
                if pre.contains(p) {
                    let k = choose|k: int| 0 <= k < pre.len() && pre[k] == p;
                    assert(positions@[k] < positions@[i as int]);
                }
            }
        }
        if holds_u64(masked, p) {
            let ghost old_m = m@;
            m.push(p);
            proof {
                assert forall|a: int, b: int| 0 <= a < b < m@.len() implies m@[a] < m@[b] by {
                    if b == m@.len() - 1 {
                        let q = choose|q: int| 0 <= q < i && positions@[q] == m@[a];
                    }
                }
                assert forall|k: int| 0 <= k < m@.len() implies exists|q: int| 0 <= q < i + 1 && positions@[q] == #[trigger] m@[k] by {
                    if k == m@.len() - 1 {
                        assert(positions@[i as int] == m@[k]);
                    } else {
                        assert(m@[k] == old_m[k]);
                    }
                }
                assert forall|k: int| 0 <= k < pb@.len() implies exists|q: int| 0 <= q < i + 1 && positions@[q] == #[trigger] pb@[k] by {
                    let q = choose|q: int| 0 <= q < i && positions@[q] == pb@[k];
                }
                assert forall|e: u64| m@.contains(e) <==> (old_m.contains(e) || e == p) by {
                    if m@.contains(e) {
                        let k = choose|k: int| 0 <= k < m@.len() && m@[k] == e;
                        if k < old_m.len() {
                            assert(old_m[k] == e);
                        }
                    }
                    if old_m.contains(e) {
                        let k = choose|k: int| 0 <= k < old_m.len() && old_m[k] == e;
                        assert(m@[k] == e);
                    }
                    if e == p {
                        assert(m@[m@.len() - 1] == e);
                    }
                }
                assert forall|e: u64| m@.contains(e) <==> (positions@.take(i + 1).contains(e) && masked@.contains(e)) by {
                    assert(m@.contains(e) <==> (old_m.contains(e) || e == p));
                    assert(old_m.contains(e) <==> (pre.contains(e) && masked@.contains(e)));
                    assert(positions@.take(i + 1).contains(e) <==> (pre.contains(e) || e == p));
                }
                assert forall|e: u64| pb@.contains(e) <==> (positions@.take(i + 1).contains(e) && !masked@.contains(e)) by {
                    assert(pre.contains(e) ==> e != p);
                }
            }
        } else {
            let ghost old_pb = pb@;
            pb.push(p);
            proof {
                assert forall|a: int, b: int| 0 <= a < b < pb@.len() implies pb@[a] < pb@[b] by {
                    if b == pb@.len() - 1 {
                        let q = choose|q: int| 0 <= q < i && positions@[q] == pb@[a];
                    }
                }
                assert forall|k: int| 0 <= k < pb@.len() implies exists|q: int| 0 <= q < i + 1 && positions@[q] == #[trigger] pb@[k] by {
                    if k == pb@.len() - 1 {
                        assert(positions@[i as int] == pb@[k]);
                    } else {
                        assert(pb@[k] == old_pb[k]);
                    }
                }
                assert forall|k: int| 0 <= k < m@.len() implies exists|q: int| 0 <= q < i + 1 && positions@[q] == #[trigger] m@[k] by {
                    let q = choose|q: int| 0 <= q < i && positions@[q] == m@[k];
                }
                assert forall|e: u64| pb@.contains(e) <==> (old_pb.contains(e) || e == p) by {
                    if pb@.contains(e) {
                        let k = choose|k: int| 0 <= k < pb@.len() && pb@[k] == e;
                        if k < old_pb.len() {
                            assert(old_pb[k] == e);
                        }
                    }
                    if old_pb.contains(e) {
                        let k = choose|k: int| 0 <= k < old_pb.len() && old_pb[k] == e;
                        assert(pb@[k] == e);
                    }
                    if e == p {
                        assert(pb@[pb@.len() - 1] == e);
                    }
                }
                assert forall|e: u64| m@.contains(e) <==> (positions@.take(i + 1).contains(e) && masked@.contains(e)) by {
                    assert(pre.contains(e) ==> e != p);
                }
                assert forall|e: u64| pb@.contains(e) <==> (positions@.take(i + 1).contains(e) && !masked@.contains(e)) by {
                    assert(pb@.contains(e) <==> (old_pb.contains(e) || e == p));
                    assert(old_pb.contains(e) <==> (pre.contains(e) && !masked@.contains(e)));
                    assert(positions@.take(i + 1).contains(e) <==> (pre.contains(e) || e == p));
                }
            }
        }
        i = i + 1;
    }
    assert(positions@.take(i as int) =~= positions@);
    let mut st: Vec<(u64, Vec<u64>)> = Vec::new();
    let ghost lv = line_views(lines@);
    let mut j: usize = 0;
    while j < lines.len()
        invariant
            0 <= j <= lines@.len(),
            lv == line_views(lines@),
            streams_ordered(stream_views(st@)),
            forall|o: u64, p: u64|
                stream_holds(stream_views(st@), o, p) <==> in_stream(positions@, lv.take(j as int), o, p),
        decreases lines@.len() - j,
    {
        let at = lines[j].0;
        let ghost owners = lv[j as int].1;
        proof {
            assert forall|o: u64, p: u64|
                in_stream(positions@, lv.take(j + 1), o, p) <==> (in_stream(positions@, lv.take(j as int), o, p)
                    || (positions@.contains(p) && p == at && owners.contains(o))) by {
                let t = lv.take(j + 1);
                if in_stream(positions@, t, o, p) {
                    let q = choose|q: int| 0 <= q < t.len() && (#[trigger] t[q]).0 == p && t[q].1.contains(o);
                    if q < j {
                        assert(lv.take(j as int)[q] == t[q]);
                    }
                }
                if in_stream(positions@, lv.take(j as int), o, p) {
                    let q = choose|q: int| 0 <= q < j && (#[trigger] lv.take(j as int)[q]).0 == p && lv.take(j as int)[q].1.contains(o);
                    assert(t[q] == lv.take(j as int)[q]);
                }
                if positions@.contains(p) && p == at && owners.contains(o) {
                    assert(t[j as int] == lv[j as int]);
                }
            }
        }
        if holds_u64(positions, at) {
            let os = &lines[j].1;
            let mut q: usize = 0;
            while q < os.len()
                invariant
                    0 <= q <= os@.len(),
                    os@ == owners,
                    positions@.contains(at),
                    streams_ordered(stream_views(st@)),
                    forall|o: u64, p: u64|
                        stream_holds(stream_views(st@), o, p) <==> (in_stream(positions@, lv.take(j as int), o, p)
                            || (p == at && owners.take(q as int).contains(o))),
                decreases os@.len() - q,
            {
                let o = os[q];
                let ghost before = stream_views(st@);
                proof {
                    let t1 = owners.take(q + 1);
                    let t0 = owners.take(q as int);
                    assert forall|e: u64| t1.contains(e) <==> (t0.contains(e) || e == o) by {
                        if t1.contains(e) {
                            let k = choose|k: int| 0 <= k < t1.len() && t1[k] == e;
                            if k < q {
                                assert(t0[k] == e);
                            }
                        }
                        if t0.contains(e) {
                            let k = choose|k: int| 0 <= k < t0.len() && t0[k] == e;
                            assert(t1[k] == e);
                        }
                        if e == o {
                            assert(t1[q as int] == e);
                        }
                    }
                }
                let mut k: usize = 0;
                while k < st.len() && st[k].0 < o
                    invariant
                        0 <= k <= st@.len(),
                        stream_views(st@) == before,
                        streams_ordered(before),
                        forall|a: int| 0 <= a < k ==> (#[trigger] before[a]).0 < o,
                    decreases st@.len() - k,
                {
                    k = k + 1;
                }
                if k < st.len() && st[k].0 == o {
                    let (ow, mut l) = st.remove(k);
                    assert(l@ == before[k as int].1);
                    assert(strictly_ascending(before[k as int].1));
                    insert_sorted(&mut l, at);
                    st.insert(k, (ow, l));
                    proof {
                        lemma_grow_stream(before, k as int, l@, at);
                        assert(stream_views(st@) =~= before.update(k as int, (before[k as int].0, l@)));
                    }
                } else {
                    proof {
                        assert forall|a: int| k <= a < before.len() implies (#[trigger] before[a]).0 > o by {
                            if a > k {
                                assert(before[k as int].0 < before[a].0);
                            }
                        }
                        lemma_new_stream(before, k as int, o, at);
                    }
                    let nv = vec![at];
                    assert(nv@ =~= seq![at]);
                    let ghost old_st = st@;
                    st.insert(k, (o, nv));
                    proof {
                        let t = before.insert(k as int, (o, seq![at]));
                        assert forall|x: int| 0 <= x < t.len() implies stream_views(st@)[x] == t[x] by {
                            if x < k {
                                assert(st@[x] == old_st[x]);
                            } else if x > k {
                                assert(st@[x] == old_st[x - 1]);
                            }
                        }
                        assert(stream_views(st@) =~= t);
                    }
                }
                assert forall|o2: u64, p2: u64|
                    stream_holds(stream_views(st@), o2, p2) <==> (in_stream(positions@, lv.take(j as int), o2, p2)
                        || (p2 == at && owners.take(q + 1).contains(o2))) by {
                    assert(stream_holds(stream_views(st@), o2, p2) <==> (stream_holds(before, o2, p2) || (o2 == o
                        && p2 == at)));
                    assert(owners.take(q + 1).contains(o2) <==> (owners.take(q as int).contains(o2) || o2 == o));
                }
                q = q + 1;
            }
            assert(owners.take(q as int) =~= owners);
        } else {
            proof {
                assert forall|o: u64, p: u64|
                    in_stream(positions@, lv.take(j + 1), o, p) <==> in_stream(positions@, lv.take(j as int), o, p) by {
                }
            }
        }
        j = j + 1;
    }
    assert(lv.take(j as int) =~= lv);
    FeedIndex { masked: m, published: pb, streams: st }
}

} // verus!
