//! The flat JSON objects this daemon writes for its transport refusals and
//! small answers: keys sorted (the determinism device — the last pair
//! given for a key wins), no whitespace, strings escaped as serde_json
//! escapes them — and, on the reading side, a JSON document's top level
//! as the request grammars here read it.

use vstd::prelude::*;
use vstd::string::*;
use crate::hex;
use crate::text;
use serde_json::Value;

verus! {

broadcast use vstd::utf8::group_utf8_lib;

// ── the byte forms ──────────────────────────────────────────────────────

/// serde_json's escape of one byte of a string's UTF-8: `"` and `\`
/// backslashed, the five named controls by letter, every other control
/// as `\u00XX` in lowercase hex, and every other byte as itself.
pub open spec fn escape_byte(b: u8) -> Seq<u8> {
    if b == 34 {
        seq![92u8, 34u8]
    } else if b == 92 {
        seq![92u8, 92u8]
    } else if b == 8 {
        seq![92u8, 98u8]
    } else if b == 12 {
        seq![92u8, 102u8]
    } else if b == 10 {
        seq![92u8, 110u8]
    } else if b == 13 {
        seq![92u8, 114u8]
    } else if b == 9 {
        seq![92u8, 116u8]
    } else if b < 32 {
        seq![92u8, 117u8, 48u8, 48u8, hex::hex_char(b / 16), hex::hex_char(b % 16)]
    } else {
        seq![b]
    }
}

/// Every byte escaped, in order.
pub open spec fn escaped(t: Seq<u8>) -> Seq<u8>
    decreases t.len(),
{
    if t.len() == 0 {
        Seq::empty()
    } else {
        escaped(t.drop_last()) + escape_byte(t.last())
    }
}

/// A JSON string literal of the UTF-8 text `t`.
pub open spec fn quoted(t: Seq<u8>) -> Seq<u8> {
    seq![34u8] + escaped(t) + seq![34u8]
}

/// `serde_json::to_vec` of a `&str`: the string as a JSON string literal,
/// quoted and escaped by serde_json's escape table (its source: `"` and
/// `\` backslashed; backspace, form feed, newline, carriage return and tab
/// as `\b \f \n \r \t`; every other byte below 0x20 as `\u00` and two
/// lowercase hex digits; every other byte unchanged). Writing into a
/// `Vec` cannot fail, so the error arm is unreachable.
#[verifier::external_body]
pub(crate) fn json_quote(s: &str) -> (r: Vec<u8>)
    ensures
        r@ == quoted(s.spec_bytes()),
{
    match serde_json::to_vec(s) {
        Ok(v) => v,
        Err(_) => Vec::new(),
    }
}

// ── values ──────────────────────────────────────────────────────────────

/// One JSON value of a flat object: a scalar, or a list of strings.
pub enum Scalar {
    Null,
    Bool(bool),
    Number(u64),
    Text(String),
    Texts(Vec<String>),
}

/// A value with its text taken as UTF-8 bytes.
pub enum ScalarView {
    Null,
    Bool(bool),
    Number(nat),
    Text(Seq<u8>),
    Texts(Seq<Seq<u8>>),
}

/// Each string's UTF-8 bytes.
pub open spec fn texts_bytes(v: Seq<String>) -> Seq<Seq<u8>> {
    Seq::new(v.len(), |i: int| vstd::utf8::encode_utf8(v[i]@))
}

impl View for Scalar {
    type V = ScalarView;

    open spec fn view(&self) -> ScalarView {
        match self {
            Scalar::Null => ScalarView::Null,
            Scalar::Bool(b) => ScalarView::Bool(*b),
            Scalar::Number(n) => ScalarView::Number(*n as nat),
            Scalar::Text(s) => ScalarView::Text(vstd::utf8::encode_utf8(s@)),
            Scalar::Texts(v) => ScalarView::Texts(texts_bytes(v@)),
        }
    }
}

/// A value's JSON bytes.
pub open spec fn render_scalar(v: ScalarView) -> Seq<u8> {
    match v {
        ScalarView::Null => seq![110u8, 117u8, 108u8, 108u8],
        ScalarView::Bool(true) => seq![116u8, 114u8, 117u8, 101u8],
        ScalarView::Bool(false) => seq![102u8, 97u8, 108u8, 115u8, 101u8],
        ScalarView::Number(n) => text::decimal(n),
        ScalarView::Text(t) => quoted(t),
        ScalarView::Texts(ts) => seq![91u8] + render_texts(ts) + seq![93u8],
    }
}

/// The strings quoted, comma-separated, in order.
pub open spec fn render_texts(ts: Seq<Seq<u8>>) -> Seq<u8>
    decreases ts.len(),
{
    if ts.len() == 0 {
        Seq::empty()
    } else if ts.len() == 1 {
        quoted(ts[0])
    } else {
        render_texts(ts.drop_last()) + seq![44u8] + quoted(ts.last())
    }
}

/// `"key":value`.
pub open spec fn render_member(k: Seq<u8>, v: ScalarView) -> Seq<u8> {
    quoted(k) + seq![58u8] + render_scalar(v)
}

/// The members, comma-separated, in order.
pub open spec fn render_members(s: Seq<(Seq<u8>, ScalarView)>) -> Seq<u8>
    decreases s.len(),
{
    if s.len() == 0 {
        Seq::empty()
    } else if s.len() == 1 {
        render_member(s[0].0, s[0].1)
    } else {
        render_members(s.drop_last()) + seq![44u8] + render_member(s.last().0, s.last().1)
    }
}

/// An object's JSON bytes: `{`, its members in order, `}`.
pub open spec fn render_object(s: Seq<(Seq<u8>, ScalarView)>) -> Seq<u8> {
    seq![123u8] + render_members(s) + seq![125u8]
}

/// What a list of pairs means as an object: each key bound to the value
/// of its LAST pair.
pub open spec fn pairs_map(s: Seq<(Seq<u8>, ScalarView)>) -> Map<Seq<u8>, ScalarView>
    decreases s.len(),
{
    if s.len() == 0 {
        Map::empty()
    } else {
        pairs_map(s.drop_last()).insert(s.last().0, s.last().1)
    }
}

/// Keys strictly ascending in byte order — sorted, and none twice.
pub open spec fn keys_sorted(s: Seq<(Seq<u8>, ScalarView)>) -> bool {
    forall|i: int, j: int| 0 <= i < j < s.len() ==> text::lex_lt(#[trigger] s[i].0, #[trigger] s[j].0)
}

proof fn lemma_sorted_map(s: Seq<(Seq<u8>, ScalarView)>)
    requires
        keys_sorted(s),
    ensures
        forall|k: Seq<u8>|
            pairs_map(s).dom().contains(k) <==> exists|i: int| 0 <= i < s.len() && #[trigger] s[i].0 == k,
        forall|i: int| 0 <= i < s.len() ==> pairs_map(s)[#[trigger] s[i].0] == s[i].1,
    decreases s.len(),
{
    if s.len() > 0 {
        let p = s.drop_last();
        assert(keys_sorted(p));
        lemma_sorted_map(p);
        assert forall|k: Seq<u8>|
            pairs_map(s).dom().contains(k) <==> exists|i: int| 0 <= i < s.len() && #[trigger] s[i].0 == k by {
            if pairs_map(s).dom().contains(k) {
                if k == s.last().0 {
                    assert(s[s.len() - 1].0 == k);
                } else {
                    assert(pairs_map(p).dom().contains(k));
                    let i = choose|i: int| 0 <= i < p.len() && #[trigger] p[i].0 == k;
                    assert(s[i] == p[i]);
                    assert(s[i].0 == k);
                }
            }
            if exists|i: int| 0 <= i < s.len() && #[trigger] s[i].0 == k {
                let i = choose|i: int| 0 <= i < s.len() && #[trigger] s[i].0 == k;
                if i < p.len() {
                    assert(s[i] == p[i]);
                    assert(p[i].0 == k);
                    assert(pairs_map(p).dom().contains(k));
                }
            }
        }
        assert forall|i: int| 0 <= i < s.len() implies pairs_map(s)[#[trigger] s[i].0] == s[i].1 by {
            if i < p.len() {
                text::lemma_lex_irreflexive(s[i].0);
                assert(s[i] == p[i]);
                assert(text::lex_lt(s[i].0, s[s.len() - 1].0));
                assert(s[i].0 != s.last().0);
                assert(pairs_map(p)[p[i].0] == p[i].1);
            }
        }
    }
}

proof fn lemma_last_is_max(s: Seq<(Seq<u8>, ScalarView)>, k: Seq<u8>)
    requires
        keys_sorted(s),
        s.len() > 0,
        pairs_map(s).dom().contains(k),
        k != s.last().0,
    ensures
        text::lex_lt(k, s.last().0),
{
    lemma_sorted_map(s);
    let i = choose|i: int| 0 <= i < s.len() && #[trigger] s[i].0 == k;
    assert(i != s.len() - 1);
}

/// What an object means fixes its bytes: two sorted pair lists binding the
/// same keys to the same values are the same list — so the marshal is
/// byte-deterministic whatever order the pairs were given in.
pub proof fn law_object_bytes_determined(a: Seq<(Seq<u8>, ScalarView)>, b: Seq<(Seq<u8>, ScalarView)>)
    requires
        keys_sorted(a),
        keys_sorted(b),
        pairs_map(a) == pairs_map(b),
    ensures
        a == b,
        render_object(a) == render_object(b),
    decreases a.len(),
{
    lemma_sorted_map(a);
    lemma_sorted_map(b);
    if a.len() == 0 {
        if b.len() > 0 {
            assert(pairs_map(b).dom().contains(b[0].0));
        }
        assert(a =~= b);
    } else {
        assert(pairs_map(a).dom().contains(a.last().0));
        assert(b.len() > 0);
        assert(pairs_map(b).dom().contains(b.last().0));
        let ka = a.last().0;
        let kb = b.last().0;
        if ka != kb {
            lemma_last_is_max(b, ka);
            lemma_last_is_max(a, kb);
            text::lemma_lex_trichotomy(ka, kb);
        }
        assert(a[a.len() - 1].0 == ka);
        assert(b[b.len() - 1].0 == kb);
        assert(pairs_map(a)[ka] == a.last().1);
        assert(pairs_map(b)[kb] == b.last().1);
        let pa = a.drop_last();
        let pb = b.drop_last();
        assert(keys_sorted(pa));
        assert(keys_sorted(pb));
        lemma_sorted_map(pa);
        lemma_sorted_map(pb);
        assert(!pairs_map(pa).dom().contains(ka)) by {
            if pairs_map(pa).dom().contains(ka) {
                let i = choose|i: int| 0 <= i < pa.len() && #[trigger] pa[i].0 == ka;
                assert(a[i].0 == ka);
                assert(text::lex_lt(a[i].0, a[a.len() - 1].0));
                text::lemma_lex_irreflexive(ka);
            }
        }
        assert(!pairs_map(pb).dom().contains(kb)) by {
            if pairs_map(pb).dom().contains(kb) {
                let i = choose|i: int| 0 <= i < pb.len() && #[trigger] pb[i].0 == kb;
                assert(b[i].0 == kb);
                assert(text::lex_lt(b[i].0, b[b.len() - 1].0));
                text::lemma_lex_irreflexive(kb);
            }
        }
        assert(pairs_map(pa) =~= pairs_map(a).remove(ka));
        assert(pairs_map(pb) =~= pairs_map(b).remove(kb));
        law_object_bytes_determined(pa, pb);
        assert(a =~= pa.push(a.last()));
        assert(b =~= pb.push(b.last()));
    }
}

/// The one sorted pair list that means what `given` means.
pub open spec fn canonical(given: Seq<(Seq<u8>, ScalarView)>) -> Seq<(Seq<u8>, ScalarView)> {
    choose|s: Seq<(Seq<u8>, ScalarView)>| keys_sorted(s) && pairs_map(s) == pairs_map(given)
}

/// A flat JSON object, its keys kept sorted with none twice.
pub struct JsonObject {
    pairs: Vec<(String, Scalar)>,
}

/// The pairs of a vector, with keys and text as bytes.
pub open spec fn pair_views(v: Seq<(String, Scalar)>) -> Seq<(Seq<u8>, ScalarView)> {
    Seq::new(v.len(), |i: int| (vstd::utf8::encode_utf8(v[i].0@), v[i].1@))
}

impl View for JsonObject {
    type V = Seq<(Seq<u8>, ScalarView)>;

    closed spec fn view(&self) -> Seq<(Seq<u8>, ScalarView)> {
        pair_views(self.pairs@)
    }
}

impl JsonObject {
    #[verifier::type_invariant]
    closed spec fn sorted(&self) -> bool {
        keys_sorted(pair_views(self.pairs@))
    }

    /// The empty object.
    pub fn new() -> (o: JsonObject)
        ensures
            o@ == Seq::<(Seq<u8>, ScalarView)>::empty(),
    {
        let o = JsonObject { pairs: Vec::new() };
        assert(pair_views(o.pairs@) =~= Seq::<(Seq<u8>, ScalarView)>::empty());
        o
    }

    /// Every object's keys are ascending with none twice.
    pub fn sorted_facts(&self)
        ensures
            keys_sorted(self@),
    {
        proof {
            use_type_invariant(self);
        }
    }

    /// The value bound to `k`, if the object binds it.
    pub fn get(&self, k: &str) -> (r: Option<&Scalar>)
        ensures
            r.is_some() <==> pairs_map(self@).dom().contains(k.spec_bytes()),
            r.is_some() ==> r.unwrap()@ == pairs_map(self@)[k.spec_bytes()],
    {
        proof {
            use_type_invariant(self);
            lemma_sorted_map(self@);
        }
        let ghost kb = k.spec_bytes();
        let kbytes = k.as_bytes();
        let mut i: usize = 0;
        while i < self.pairs.len()
            invariant
                0 <= i <= self.pairs@.len(),
                kbytes@ == kb,
                kb == k.spec_bytes(),
                forall|j: int| 0 <= j < i ==> #[trigger] self@[j].0 != kb,
            decreases self.pairs@.len() - i,
        {
            if text::bytes_eq(self.pairs[i].0.as_str().as_bytes(), kbytes) {
                proof {
                    use_type_invariant(self);
                    lemma_sorted_map(self@);
                    assert(self@[i as int].0 == kb);
                    assert(self@[i as int].1 == self.pairs@[i as int].1@);
                    assert(pairs_map(self@)[self@[i as int].0] == self@[i as int].1);
                }
                let found: &Scalar = &self.pairs[i].1;
                assert(found@ == pairs_map(self@)[kb]);
                return Some(found);
            }
            i = i + 1;
        }
        None
    }

    /// Bind `k` to `v`, replacing any value `k` had.
    #[verifier::spinoff_prover]
    #[verifier::rlimit(40)]
    pub fn insert(&mut self, k: &str, v: Scalar)
        ensures
            keys_sorted(final(self)@),
            pairs_map(final(self)@) == pairs_map(old(self)@).insert(k.spec_bytes(), v@),
    {
        proof {
            use_type_invariant(&*self);
        }
        let ghost before = pair_views(self.pairs@);
        let ghost kb = k.spec_bytes();
        let ghost vv = v@;
        let kbytes = k.as_bytes();
        let mut i: usize = 0;
        while i < self.pairs.len() && text::bytes_lt(self.pairs[i].0.as_str().as_bytes(), kbytes)
            invariant
                0 <= i <= self.pairs@.len(),
                pair_views(self.pairs@) == before,
                keys_sorted(before),
                kbytes@ == kb,
                forall|j: int| 0 <= j < i ==> text::lex_lt(#[trigger] before[j].0, kb),
            decreases self.pairs@.len() - i,
        {
            i = i + 1;
        }
        proof {
            lemma_sorted_map(before);
        }
        let key = k.to_string();
        let same = i < self.pairs.len() && text::bytes_eq(self.pairs[i].0.as_str().as_bytes(), kbytes);
        let mut pairs: Vec<(String, Scalar)> = Vec::new();
        std::mem::swap(&mut pairs, &mut self.pairs);
        if same {
            pairs.set(i, (key, v));
            proof {
                let after = pair_views(pairs@);
                assert(after =~= before.update(i as int, (kb, vv)));
                assert(keys_sorted(after)) by {
                    assert forall|a: int, b: int| 0 <= a < b < after.len() implies text::lex_lt(
                        #[trigger] after[a].0,
                        #[trigger] after[b].0,
                    ) by {
                        assert(after[a].0 == before[a].0);
                        assert(after[b].0 == before[b].0);
                    }
                }
                lemma_sorted_map(after);
                assert(pairs_map(after) =~= pairs_map(before).insert(kb, vv)) by {
                    assert forall|x: Seq<u8>| #[trigger] pairs_map(after).dom().contains(x) <==> pairs_map(before).insert(kb, vv).dom().contains(x) by {
                        if exists|j: int| 0 <= j < after.len() && #[trigger] after[j].0 == x {
                            let j = choose|j: int| 0 <= j < after.len() && #[trigger] after[j].0 == x;
                            assert(before[j].0 == x);
                        }
                        if exists|j: int| 0 <= j < before.len() && #[trigger] before[j].0 == x {
                            let j = choose|j: int| 0 <= j < before.len() && #[trigger] before[j].0 == x;
                            assert(after[j].0 == x);
                        }
                        if x == kb {
                            assert(after[i as int].0 == x);
                        }
                    }
                    assert forall|x: Seq<u8>| #[trigger] pairs_map(after).dom().contains(x) implies pairs_map(after)[x] == pairs_map(before).insert(kb, vv)[x] by {
                        let j = choose|j: int| 0 <= j < after.len() && #[trigger] after[j].0 == x;
                        if j != i {
                            assert(before[j].0 == x);
                            text::lemma_lex_irreflexive(kb);
                            if j < i {
                                assert(text::lex_lt(before[j].0, before[i as int].0));
                            } else {
                                assert(text::lex_lt(before[i as int].0, before[j].0));
                            }
                            assert(x != kb);
                            assert(pairs_map(before)[before[j].0] == before[j].1);
                        } else {
                            assert(after[i as int].1 == vv);
                        }
                    }
                }
            }
        } else {
            proof {
                if i < before.len() {
                    text::lemma_lex_trichotomy(before[i as int].0, kb);
                }
                assert forall|j: int| i <= j < before.len() implies text::lex_lt(kb, #[trigger] before[j].0) by {
                    if j > i {
                        text::lemma_lex_transitive(kb, before[i as int].0, before[j].0);
                    }
                }
                assert forall|j: int| 0 <= j < before.len() implies #[trigger] before[j].0 != kb by {
                    text::lemma_lex_irreflexive(kb);
                }
            }
            pairs.insert(i, (key, v));
            proof {
                let after = pair_views(pairs@);
                assert(after =~= before.insert(i as int, (kb, vv)));
                assert(keys_sorted(after)) by {
                    assert forall|a: int, b: int| 0 <= a < b < after.len() implies text::lex_lt(
                        #[trigger] after[a].0,
                        #[trigger] after[b].0,
                    ) by {
                        if b < i {
                        } else if a < i && b == i {
                        } else if a < i && b > i {
                            assert(after[b] == before[b - 1]);
                        } else if a == i {
                            assert(after[b] == before[b - 1]);
                        } else {
                            assert(after[a] == before[a - 1]);
                            assert(after[b] == before[b - 1]);
                        }
                    }
                }
                lemma_sorted_map(after);
                assert(pairs_map(after) =~= pairs_map(before).insert(kb, vv)) by {
                    assert forall|x: Seq<u8>| #[trigger] pairs_map(after).dom().contains(x) <==> pairs_map(before).insert(kb, vv).dom().contains(x) by {
                        if exists|j: int| 0 <= j < after.len() && #[trigger] after[j].0 == x {
                            let j = choose|j: int| 0 <= j < after.len() && #[trigger] after[j].0 == x;
                            if j < i {
                                assert(before[j].0 == x);
                            } else if j > i {
                                assert(before[j - 1].0 == x);
                            }
                        }
                        if exists|j: int| 0 <= j < before.len() && #[trigger] before[j].0 == x {
                            let j = choose|j: int| 0 <= j < before.len() && #[trigger] before[j].0 == x;
                            if j < i {
                                assert(after[j].0 == x);
                            } else {
                                assert(after[j + 1].0 == x);
                            }
                        }
                        if x == kb {
                            assert(after[i as int].0 == x);
                        }
                    }
                    assert forall|x: Seq<u8>| #[trigger] pairs_map(after).dom().contains(x) implies pairs_map(after)[x] == pairs_map(before).insert(kb, vv)[x] by {
                        let j = choose|j: int| 0 <= j < after.len() && #[trigger] after[j].0 == x;
                        if j < i {
                            assert(before[j] == after[j]);
                        } else if j > i {
                            assert(before[j - 1] == after[j]);
                        }
                    }
                }
            }
        }
        self.pairs = pairs;
    }

    /// The object's JSON bytes.
    pub fn to_bytes(&self) -> (r: Vec<u8>)
        ensures
            r@ == render_object(self@),
    {
        let mut out: Vec<u8> = Vec::new();
        out.push(123u8);
        let ghost s = self@;
        let mut i: usize = 0;
        while i < self.pairs.len()
            invariant
                0 <= i <= self.pairs@.len(),
                s == pair_views(self.pairs@),
                out@ == seq![123u8] + render_members(s.take(i as int)),
            decreases self.pairs@.len() - i,
        {
            let ghost prev = out@;
            if i > 0 {
                out.push(44u8);
            }
            let k = json_quote(self.pairs[i].0.as_str());
            out.extend_from_slice(k.as_slice());
            out.push(58u8);
            let v = render_scalar_bytes(&self.pairs[i].1);
            out.extend_from_slice(v.as_slice());
            proof {
                let t = s.take(i + 1);
                assert(t.drop_last() =~= s.take(i as int));
                assert(t.last() == s[i as int]);
                if i == 0 {
                    assert(render_members(s.take(0)) =~= Seq::<u8>::empty());
                    assert(t.len() == 1);
                    assert(out@ =~= seq![123u8] + render_members(t));
                } else {
                    assert(out@ =~= seq![123u8] + render_members(t));
                }
            }
            i = i + 1;
        }
        assert(s.take(i as int) =~= s);
        out.push(125u8);
        out
    }
}

/// A value's JSON bytes.
fn render_scalar_bytes(v: &Scalar) -> (r: Vec<u8>)
    ensures
        r@ == render_scalar(v@),
{
    match v {
        Scalar::Null => vec![110u8, 117, 108, 108],
        Scalar::Bool(true) => vec![116u8, 114, 117, 101],
        Scalar::Bool(false) => vec![102u8, 97, 108, 115, 101],
        Scalar::Number(n) => text::u64_decimal(*n),
        Scalar::Text(s) => json_quote(s.as_str()),
        Scalar::Texts(v) => render_texts_bytes(v),
    }
}

/// A list of strings' JSON bytes.
fn render_texts_bytes(v: &Vec<String>) -> (r: Vec<u8>)
    ensures
        r@ == seq![91u8] + render_texts(texts_bytes(v@)) + seq![93u8],
{
    let ghost ts = texts_bytes(v@);
    let mut out: Vec<u8> = Vec::new();
    out.push(91u8);
    let mut i: usize = 0;
    while i < v.len()
        invariant
            0 <= i <= v@.len(),
            ts == texts_bytes(v@),
            out@ == seq![91u8] + render_texts(ts.take(i as int)),
        decreases v@.len() - i,
    {
        if i > 0 {
            out.push(44u8);
        }
        let q = json_quote(v[i].as_str());
        out.extend_from_slice(q.as_slice());
        proof {
            let t = ts.take(i + 1);
            assert(t.drop_last() =~= ts.take(i as int));
            assert(t.last() == ts[i as int]);
            if i == 0 {
                assert(render_texts(ts.take(0)) =~= Seq::<u8>::empty());
                assert(t.len() == 1);
            }
            assert(out@ =~= seq![91u8] + render_texts(t));
        }
        i = i + 1;
    }
    assert(ts.take(i as int) =~= ts);
    out.push(93u8);
    out
}

/// The pairs' keys and values as bytes.
pub open spec fn given_views(v: Seq<(&str, Scalar)>) -> Seq<(Seq<u8>, ScalarView)> {
    Seq::new(v.len(), |i: int| (v[i].0.spec_bytes(), v[i].1@))
}

/// The pairs' JSON bytes as one object, in the order given. Callers that
/// give their keys ascending and none twice get the canonical object.
pub fn render_pairs(pairs: &Vec<(&str, Scalar)>) -> (r: Vec<u8>)
    ensures
        r@ == render_object(given_views(pairs@)),
{
    let ghost s = given_views(pairs@);
    let mut out: Vec<u8> = Vec::new();
    out.push(123u8);
    let mut i: usize = 0;
    while i < pairs.len()
        invariant
            0 <= i <= pairs@.len(),
            s == given_views(pairs@),
            out@ == seq![123u8] + render_members(s.take(i as int)),
        decreases pairs@.len() - i,
    {
        if i > 0 {
            out.push(44u8);
        }
        let k = json_quote(pairs[i].0);
        out.extend_from_slice(k.as_slice());
        out.push(58u8);
        let v = render_scalar_bytes(&pairs[i].1);
        out.extend_from_slice(v.as_slice());
        proof {
            let t = s.take(i + 1);
            assert(t.drop_last() =~= s.take(i as int));
            assert(t.last() == s[i as int]);
            if i == 0 {
                assert(render_members(s.take(0)) =~= Seq::<u8>::empty());
                assert(t.len() == 1);
            }
            assert(out@ =~= seq![123u8] + render_members(t));
        }
        i = i + 1;
    }
    assert(s.take(i as int) =~= s);
    out.push(125u8);
    out
}

/// Build a JSON object with keys sorted — THE determinism device. The last
/// pair given for a key wins.
pub fn obj(pairs: Vec<(&str, Scalar)>) -> (o: JsonObject)
    ensures
        o@ == canonical(given_views(pairs@)),
{
    let ghost given = given_views(pairs@);
    let mut o = JsonObject::new();
    let mut pairs = pairs;
    let mut rest: Vec<(&str, Scalar)> = Vec::new();
    let n = pairs.len();
    // Walk the pairs front to back: move them out in reverse onto `rest`,
    // then pop from it.
    while pairs.len() > 0
        invariant
            rest@.len() + pairs@.len() == n,
            n == given.len(),
            forall|j: int| 0 <= j < pairs@.len() ==> given_views(pairs@)[j] == given[j],
            forall|j: int|
                0 <= j < rest@.len() ==> given_views(rest@)[j] == given[n - 1 - j],
        decreases pairs@.len(),
    {
        let p = pairs.pop().unwrap();
        let ghost prev = rest@;
        rest.push(p);
        proof {
            assert forall|j: int| 0 <= j < rest@.len() implies given_views(rest@)[j] == given[n - 1 - j] by {
                if j < prev.len() {
                    assert(rest@[j] == prev[j]);
                    assert(given_views(prev)[j] == given[n - 1 - j]);
                }
            }
        }
    }
    let mut i: usize = 0;
    while rest.len() > 0
        invariant
            i + rest@.len() == n,
            n == given.len(),
            forall|j: int|
                0 <= j < rest@.len() ==> given_views(rest@)[j] == given[n - 1 - j],
            pairs_map(o@) == pairs_map(given.take(i as int)),
            keys_sorted(o@),
        decreases rest@.len(),
    {
        let ghost before = rest@;
        let (k, v) = rest.pop().unwrap();
        proof {
            assert(given_views(before)[before.len() - 1] == given[i as int]);
        }
        o.insert(k, v);
        proof {
            let t = given.take(i + 1);
            assert(t.drop_last() =~= given.take(i as int));
            assert(forall|j: int| 0 <= j < rest@.len() ==> rest@[j] == before[j]);
            assert forall|j: int| 0 <= j < rest@.len() implies given_views(rest@)[j] == given[n - 1 - j] by {
                assert(given_views(before)[j] == given[n - 1 - j]);
            }
        }
        i = i + 1;
    }
    assert(given.take(n as int) =~= given);
    proof {
        let c = canonical(given);
        law_object_bytes_determined(o@, c);
    }
    o
}

// ── reading ─────────────────────────────────────────────────────────────

/// One member value of a JSON object, as the request grammars read it: a
/// scalar whole (a number as its value where it is an unsigned integer
/// that fits `u64`), a string as its text, a nested array or object by its
/// kind alone.
pub enum Member {
    Null,
    Bool(bool),
    Number(Option<u64>),
    Str(String),
    Array,
    Object,
}

/// A member value with its text as characters.
pub enum MemberView {
    Null,
    Bool(bool),
    Number(Option<u64>),
    Str(Seq<char>),
    Array,
    Object,
}

impl View for Member {
    type V = MemberView;

    open spec fn view(&self) -> MemberView {
        match self {
            Member::Null => MemberView::Null,
            Member::Bool(b) => MemberView::Bool(*b),
            Member::Number(n) => MemberView::Number(*n),
            Member::Str(s) => MemberView::Str(s@),
            Member::Array => MemberView::Array,
            Member::Object => MemberView::Object,
        }
    }
}

/// A JSON document's top level: an object's members, or a value that is no
/// object.
pub enum JsonTop {
    NotObject,
    Object(Vec<(String, Member)>),
}

/// The top level with keys and text as characters.
pub enum JsonTopView {
    NotObject,
    Object(Seq<(Seq<char>, MemberView)>),
}

/// The members' keys and values as characters.
pub open spec fn member_views(v: Seq<(String, Member)>) -> Seq<(Seq<char>, MemberView)> {
    Seq::new(v.len(), |i: int| (v[i].0@, v[i].1@))
}

impl View for JsonTop {
    type V = JsonTopView;

    open spec fn view(&self) -> JsonTopView {
        match self {
            JsonTop::NotObject => JsonTopView::NotObject,
            JsonTop::Object(m) => JsonTopView::Object(member_views(m@)),
        }
    }
}

/// What serde_json reads from `bytes` at the top level: the document, or
/// the text of its error.
pub uninterp spec fn json_read(bytes: Seq<u8>) -> Result<JsonTopView, Seq<char>>;

/// No key twice among the members.
pub open spec fn keys_distinct(m: Seq<(Seq<char>, MemberView)>) -> bool {
    forall|i: int, j: int| 0 <= i < j < m.len() ==> (#[trigger] m[i]).0 != (#[trigger] m[j]).0
}

/// `serde_json::from_slice::<Value>`, its top level read member by
/// member. The result is `json_read` of the bytes; an object's members come
/// in its map's iteration order (the map is a `BTreeMap`, so ascending by
/// key) and, the map holding one value per key (a later duplicate replaces
/// an earlier one), no key comes twice. What the parse itself admits — the
/// JSON grammar — is serde_json's and is not stated here.
#[verifier::external_body]
pub(crate) fn json_top(bytes: &[u8]) -> (r: Result<JsonTop, String>)
    ensures
        match r {
            Ok(t) => json_read(bytes@) == Ok::<JsonTopView, Seq<char>>(t@) && (t@ matches JsonTopView::Object(m) ==> keys_distinct(m)),
            Err(e) => json_read(bytes@) == Err::<JsonTopView, Seq<char>>(e@),
        },
{
    match serde_json::from_slice::<Value>(bytes) {
        Err(e) => Err(e.to_string()),
        Ok(Value::Object(m)) => Ok(JsonTop::Object(m.into_iter().map(|(k, v)| (k, match v {
            Value::Null => Member::Null,
            Value::Bool(b) => Member::Bool(b),
            Value::Number(n) => Member::Number(n.as_u64()),
            Value::String(s) => Member::Str(s),
            Value::Array(_) => Member::Array,
            Value::Object(_) => Member::Object,
        })).collect())),
        Ok(_) => Ok(JsonTop::NotObject),
    }
}

/// The first member named `k`, if any — with no key twice, the one.
pub open spec fn lookup(m: Seq<(Seq<char>, MemberView)>, k: Seq<char>) -> Option<MemberView>
    decreases m.len(),
{
    if m.len() == 0 {
        None
    } else if m[0].0 == k {
        Some(m[0].1)
    } else {
        lookup(m.drop_first(), k)
    }
}

/// The member named `k`, if the object has one.
pub fn member<'a>(m: &'a Vec<(String, Member)>, k: &str) -> (r: Option<&'a Member>)
    ensures
        match lookup(member_views(m@), k@) {
            Some(v) => r matches Some(x) && x@ == v,
            None => r is None,
        },
{
    let ghost all = member_views(m@);
    assert(all.skip(0) =~= all);
    let mut i: usize = 0;
    while i < m.len()
        invariant
            0 <= i <= m@.len(),
            all == member_views(m@),
            lookup(all, k@) == lookup(all.skip(i as int), k@),
        decreases m@.len() - i,
    {
        let ghost rest = all.skip(i as int);
        assert(rest[0] == (m@[i as int].0@, m@[i as int].1@));
        if text::str_eq(m[i].0.as_str(), k) {
            return Some(&m[i].1);
        }
        assert(rest.drop_first() =~= all.skip(i + 1));
        i = i + 1;
    }
    None
}

} // verus!
