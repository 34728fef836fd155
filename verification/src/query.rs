//! The query strings this daemon reads: `k=v` pairs split on `&`, shape
//! checked and nothing else, and the three vocabularies over them — the
//! change feed's `since`/`limit`, the challenge's `principal`, and the
//! dump's `at`. An unknown or repeated parameter is a named refusal.

use vstd::prelude::*;
use vstd::string::*;
use vstd::utf8::*;
use crate::http::{CHANGES_LIMIT_DEFAULT, CHANGES_LIMIT_MAX};
use crate::origin;
use crate::text;

verus! {

broadcast use vstd::utf8::group_utf8_lib;

/// `&`
pub open spec fn amp() -> u8 {
    38u8
}

/// `=`
pub open spec fn eq_sign() -> u8 {
    61u8
}

/// std's `str::split` on one ASCII byte: the runs between separators, at
/// least one.
pub open spec fn pieces(b: Seq<u8>, sep: u8) -> Seq<Seq<u8>>
    decreases b.len(),
{
    match origin::first_index(b, sep) {
        Some(i) => if 0 <= i < b.len() {
            seq![b.take(i)] + pieces(b.skip(i + 1), sep)
        } else {
            seq![b]
        },
        None => seq![b],
    }
}

/// std's `split_once`: around the first `sep`.
pub open spec fn split_once(b: Seq<u8>, sep: u8) -> Option<(Seq<u8>, Seq<u8>)> {
    match origin::first_index(b, sep) {
        Some(i) => Some((b.take(i), b.skip(i + 1))),
        None => None,
    }
}

/// Each piece as its `k=v` pair, or the first piece with no `=`.
pub open spec fn pairs_of(ps: Seq<Seq<u8>>) -> Result<Seq<(Seq<u8>, Seq<u8>)>, Seq<u8>>
    decreases ps.len(),
{
    if ps.len() == 0 {
        Ok(Seq::empty())
    } else {
        match split_once(ps[0], eq_sign()) {
            None => Err(ps[0]),
            Some(p) => match pairs_of(ps.drop_first()) {
                Ok(rest) => Ok(seq![p] + rest),
                Err(e) => Err(e),
            },
        }
    }
}

/// A query's parameter list, or the malformed piece.
pub open spec fn query_pairs_spec(q: Seq<u8>) -> Result<Seq<(Seq<u8>, Seq<u8>)>, Seq<u8>> {
    pairs_of(pieces(q, amp()))
}

/// The pairs' texts as bytes.
pub open spec fn pair_bytes(v: Seq<(&str, &str)>) -> Seq<(Seq<u8>, Seq<u8>)> {
    Seq::new(v.len(), |i: int| (v[i].0.spec_bytes(), v[i].1.spec_bytes()))
}

/// `done`, then what a parse of the rest came to.
pub open spec fn chain(
    done: Seq<(Seq<u8>, Seq<u8>)>,
    r: Result<Seq<(Seq<u8>, Seq<u8>)>, Seq<u8>>,
) -> Result<Seq<(Seq<u8>, Seq<u8>)>, Seq<u8>> {
    match r {
        Ok(rest) => Ok(done + rest),
        Err(e) => Err(e),
    }
}

/// One piece as its pair: the text before its first `=` and after it.
fn piece_pair(p: &str) -> (r: Option<(&str, &str)>)
    ensures
        match split_once(p.spec_bytes(), eq_sign()) {
            Some((k, v)) => r matches Some(kv) && kv.0.spec_bytes() == k && kv.1.spec_bytes() == v,
            None => r is None,
        },
{
    match origin::find_byte(p.as_bytes(), 61u8) {
        None => None,
        Some(j) => {
            proof {
                origin::lemma_first_index_bounds(p.spec_bytes(), 61u8);
            }
            Some(text::split_around(p, j))
        },
    }
}

/// `malformed parameter '<piece>'`
pub open spec fn malformed_message(piece: Seq<u8>) -> Seq<char> {
    "malformed parameter '"@ + decode_utf8(piece) + "'"@
}

/// A query string as its parameter list — `k=v` pairs split on `&`, shape
/// checked and nothing else; the first piece with no `=` is refused by
/// name.
pub fn query_pairs(q: &str) -> (r: Result<Vec<(&str, &str)>, String>)
    ensures
        match query_pairs_spec(q.spec_bytes()) {
            Ok(ps) => r matches Ok(v) && pair_bytes(v@) == ps,
            Err(bad) => r matches Err(e) && e@ == malformed_message(bad),
        },
{
    let mut out: Vec<(&str, &str)> = Vec::new();
    let mut rest: &str = q;
    loop
        invariant
            query_pairs_spec(q.spec_bytes()) == chain(
                pair_bytes(out@),
                pairs_of(pieces(rest.spec_bytes(), amp())),
            ),
        decreases rest.spec_bytes().len(),
    {
        let ghost rb = rest.spec_bytes();
        let ghost before = pair_bytes(out@);
        match origin::find_byte(rest.as_bytes(), 38u8) {
            Some(i) => {
                proof {
                    origin::lemma_first_index_bounds(rb, 38u8);
                }
                let (piece, tail) = text::split_around(rest, i);
                proof {
                    let ps = pieces(rb, amp());
                    assert(ps == seq![rb.take(i as int)] + pieces(rb.skip(i + 1), amp()));
                    assert(ps[0] == piece.spec_bytes());
                    assert(ps.drop_first() =~= pieces(tail.spec_bytes(), amp()));
                }
                match piece_pair(piece) {
                    None => {
                        let mut e = "malformed parameter '".to_string();
                        e.append(piece);
                        e.append("'");
                        return Err(e);
                    },
                    Some(kv) => {
                        out.push(kv);
                        proof {
                            assert(pair_bytes(out@) =~= before + seq![
                                (kv.0.spec_bytes(), kv.1.spec_bytes()),
                            ]);
                            match pairs_of(pieces(tail.spec_bytes(), amp())) {
                                Ok(x) => {
                                    assert(before + (seq![(kv.0.spec_bytes(), kv.1.spec_bytes())]
                                        + x) =~= pair_bytes(out@) + x);
                                },
                                Err(_) => {},
                            }
                        }
                        rest = tail;
                    },
                }
            },
            None => {
                proof {
                    let ps = pieces(rb, amp());
                    assert(ps == seq![rb]);
                    assert(ps.drop_first() =~= Seq::<Seq<u8>>::empty());
                    assert(pairs_of(Seq::<Seq<u8>>::empty()) == Ok::<Seq<(Seq<u8>, Seq<u8>)>, Seq<u8>>(
                        Seq::empty(),
                    ));
                }
                match piece_pair(rest) {
                    None => {
                        let mut e = "malformed parameter '".to_string();
                        e.append(rest);
                        e.append("'");
                        return Err(e);
                    },
                    Some(kv) => {
                        out.push(kv);
                        proof {
                            assert(pair_bytes(out@) =~= before + seq![
                                (kv.0.spec_bytes(), kv.1.spec_bytes()),
                            ]);
                            assert(seq![(kv.0.spec_bytes(), kv.1.spec_bytes())]
                                + Seq::<(Seq<u8>, Seq<u8>)>::empty() =~= seq![
                                (kv.0.spec_bytes(), kv.1.spec_bytes()),
                            ]);
                        }
                        return Ok(out);
                    },
                }
            },
        }
    }
}

// ── the change feed's query ─────────────────────────────────────────────

/// `the required parameter is since=<position>`
pub open spec fn since_required() -> Seq<char> {
    "the required parameter is since=<position>"@
}

/// One `/changes` parameter applied to the `since` and `limit` seen so far.
pub open spec fn changes_step(st: (Option<nat>, Option<nat>), k: Seq<u8>, v: Seq<u8>) -> Result<
    (Option<nat>, Option<nat>),
    Seq<char>,
> {
    let (since, limit) = st;
    if k == "since".spec_bytes() {
        if since is Some {
            Err("duplicate parameter 'since'"@)
        } else {
            match text::std_parse_unsigned(v, u64::MAX as nat) {
                Some(n) => Ok((Some(n), limit)),
                None => Err(
                    "since: '"@ + decode_utf8(v) + "' is not a position (a non-negative integer)"@,
                ),
            }
        }
    } else if k == "limit".spec_bytes() {
        if limit is Some {
            Err("duplicate parameter 'limit'"@)
        } else {
            match text::std_parse_unsigned(v, usize::MAX as nat) {
                Some(n) => if n == 0 || n > CHANGES_LIMIT_MAX {
                    Err("limit: must be 1..=4096"@)
                } else {
                    Ok((since, Some(n)))
                },
                None => Err("limit: '"@ + decode_utf8(v) + "' is not a count"@),
            }
        }
    } else {
        Err("unknown parameter '"@ + decode_utf8(k) + "'"@)
    }
}

/// What the `/changes` parameters so far came to: the `since` and `limit`
/// seen, or the first refusal.
pub open spec fn changes_fold(ps: Seq<(Seq<u8>, Seq<u8>)>) -> Result<
    (Option<nat>, Option<nat>),
    Seq<char>,
>
    decreases ps.len(),
{
    if ps.len() == 0 {
        Ok((None, None))
    } else {
        match changes_fold(ps.drop_last()) {
            Err(e) => Err(e),
            Ok(st) => changes_step(st, ps.last().0, ps.last().1),
        }
    }
}

/// The state as naturals.
pub open spec fn changes_state(since: Option<u64>, limit: Option<usize>) -> (Option<nat>, Option<nat>) {
    (
        match since {
            Some(s) => Some(s as nat),
            None => None,
        },
        match limit {
            Some(l) => Some(l as nat),
            None => None,
        },
    )
}

/// One `/changes` parameter applied.
fn changes_apply(since: Option<u64>, limit: Option<usize>, k: &str, v: &str) -> (r: Result<
    (Option<u64>, Option<usize>),
    String,
>)
    ensures
        match changes_step(changes_state(since, limit), k.spec_bytes(), v.spec_bytes()) {
            Ok(st) => r matches Ok(x) && changes_state(x.0, x.1) == st,
            Err(e) => r matches Err(m) && m@ == e,
        },
{
    proof {
        assert(decode_utf8(v.spec_bytes()) == v@);
        assert(decode_utf8(k.spec_bytes()) == k@);
    }
    if text::str_eq(k, "since") {
        if since.is_some() {
            return Err("duplicate parameter 'since'".to_string());
        }
        match text::parse_u64(v) {
            Some(n) => Ok((Some(n), limit)),
            None => Err(message("since: '", v, "' is not a position (a non-negative integer)")),
        }
    } else if text::str_eq(k, "limit") {
        if limit.is_some() {
            return Err("duplicate parameter 'limit'".to_string());
        }
        match text::parse_unsigned(v.as_bytes(), usize::MAX as u64) {
            Some(n) => {
                if n == 0 || n > CHANGES_LIMIT_MAX as u64 {
                    Err("limit: must be 1..=4096".to_string())
                } else {
                    Ok((since, Some(n as usize)))
                }
            },
            None => Err(message("limit: '", v, "' is not a count")),
        }
    } else {
        Err(message("unknown parameter '", k, "'"))
    }
}

/// The `/changes` query, decided: `since=<position>` (required) plus an
/// optional `limit=<1..=4096>`, the page size 256 when absent.
pub open spec fn changes_spec(query: Option<Seq<u8>>) -> Result<(nat, nat), Seq<char>> {
    match query {
        None => Err(since_required()),
        Some(q) => if q.len() == 0 {
            Err(since_required())
        } else {
            match query_pairs_spec(q) {
                Err(bad) => Err(malformed_message(bad)),
                Ok(ps) => match changes_fold(ps) {
                    Err(e) => Err(e),
                    Ok((None, _)) => Err(since_required()),
                    Ok((Some(s), limit)) => Ok(
                        (
                            s,
                            match limit {
                                Some(l) => l,
                                None => CHANGES_LIMIT_DEFAULT as nat,
                            },
                        ),
                    ),
                },
            }
        },
    }
}

/// A query's bytes, where there is one.
pub open spec fn query_bytes(query: Option<&str>) -> Option<Seq<u8>> {
    match query {
        Some(q) => Some(q.spec_bytes()),
        None => None,
    }
}

/// An error text built of a literal, a piece of the query, and a literal.
fn message(a: &str, mid: &str, b: &str) -> (e: String)
    ensures
        e@ == a@ + mid@ + b@,
{
    let mut e = a.to_string();
    e.append(mid);
    e.append(b);
    e
}

/// The `/changes` query: `since=<position>` (required) plus optional
/// `limit=<1..=4096>`.
pub fn changes_params(query: Option<&str>) -> (r: Result<(u64, usize), String>)
    ensures
        match changes_spec(query_bytes(query)) {
            Ok((s, l)) => r matches Ok(p) && p.0 == s && p.1 == l,
            Err(e) => r matches Err(m) && m@ == e,
        },
{
    let q = match query {
        None => {
            return Err("the required parameter is since=<position>".to_string());
        },
        Some(q) => q,
    };
    if q.as_bytes().len() == 0 {
        let e = "the required parameter is since=<position>".to_string();
        assert(e@ == since_required());
        return Err(e);
    }
    let pairs = match query_pairs(q) {
        Err(e) => {
            return Err(e);
        },
        Ok(p) => p,
    };
    let ghost ps = pair_bytes(pairs@);
    let mut since: Option<u64> = None;
    let mut limit: Option<usize> = None;
    let mut i: usize = 0;
    while i < pairs.len()
        invariant
            0 <= i <= pairs@.len(),
            ps == pair_bytes(pairs@),
            query_bytes(query) == Some(q.spec_bytes()),
            q.spec_bytes().len() > 0,
            query_pairs_spec(q.spec_bytes()) == Ok::<Seq<(Seq<u8>, Seq<u8>)>, Seq<u8>>(ps),
            changes_fold(ps.take(i as int)) == Ok::<(Option<nat>, Option<nat>), Seq<char>>(
                changes_state(since, limit),
            ),
        decreases pairs@.len() - i,
    {
        let (k, v) = pairs[i];
        proof {
            let t = ps.take(i + 1);
            assert(t.drop_last() =~= ps.take(i as int));
            assert(t.last() == (k.spec_bytes(), v.spec_bytes()));
            lemma_fold_prefix_err(ps, i as int + 1);
            assert(changes_fold(t) == changes_step(changes_state(since, limit), k.spec_bytes(), v.spec_bytes()));
        }
        match changes_apply(since, limit, k, v) {
            Err(e) => {
                return Err(e);
            },
            Ok((s, l)) => {
                since = s;
                limit = l;
            },
        }
        i = i + 1;
    }
    assert(ps.take(i as int) =~= ps);
    match since {
        None => Err("the required parameter is since=<position>".to_string()),
        Some(s) => Ok(
            (
                s,
                match limit {
                    Some(l) => l,
                    None => CHANGES_LIMIT_DEFAULT,
                },
            ),
        ),
    }
}

proof fn lemma_fold_prefix_err(ps: Seq<(Seq<u8>, Seq<u8>)>, n: int)
    requires
        0 <= n <= ps.len(),
    ensures
        changes_fold(ps.take(n)) is Err ==> changes_fold(ps) == changes_fold(ps.take(n)),
    decreases ps.len() - n,
{
    if n < ps.len() {
        lemma_fold_prefix_err(ps, n + 1);
        assert(ps.take(n + 1).drop_last() =~= ps.take(n));
    } else {
        assert(ps.take(n) =~= ps);
    }
}


// ── the one-parameter queries ───────────────────────────────────────────

/// One parameter of a query whose whole vocabulary is the one parameter
/// `name`, holding a non-negative integer: a repeat is `dup`, an unparsable
/// value `pre` + the value + `post`, any other parameter `unknown '` + its
/// name + `unknown_post`.
pub open spec fn one_step(
    seen: Option<nat>,
    k: Seq<u8>,
    v: Seq<u8>,
    name: Seq<u8>,
    dup: Seq<char>,
    pre: Seq<char>,
    post: Seq<char>,
    unknown_post: Seq<char>,
) -> Result<Option<nat>, Seq<char>> {
    if k == name {
        if seen is Some {
            Err(dup)
        } else {
            match text::std_parse_unsigned(v, u64::MAX as nat) {
                Some(n) => Ok(Some(n)),
                None => Err(pre + decode_utf8(v) + post),
            }
        }
    } else {
        Err("unknown parameter '"@ + decode_utf8(k) + unknown_post)
    }
}

/// The one parameter's value over the whole list, or the first refusal.
pub open spec fn one_fold(
    ps: Seq<(Seq<u8>, Seq<u8>)>,
    name: Seq<u8>,
    dup: Seq<char>,
    pre: Seq<char>,
    post: Seq<char>,
    unknown_post: Seq<char>,
) -> Result<Option<nat>, Seq<char>>
    decreases ps.len(),
{
    if ps.len() == 0 {
        Ok(None)
    } else {
        match one_fold(ps.drop_last(), name, dup, pre, post, unknown_post) {
            Err(e) => Err(e),
            Ok(seen) => one_step(seen, ps.last().0, ps.last().1, name, dup, pre, post, unknown_post),
        }
    }
}

proof fn lemma_one_fold_prefix_err(
    ps: Seq<(Seq<u8>, Seq<u8>)>,
    n: int,
    name: Seq<u8>,
    dup: Seq<char>,
    pre: Seq<char>,
    post: Seq<char>,
    unknown_post: Seq<char>,
)
    requires
        0 <= n <= ps.len(),
    ensures
        one_fold(ps.take(n), name, dup, pre, post, unknown_post) is Err ==> one_fold(
            ps,
            name,
            dup,
            pre,
            post,
            unknown_post,
        ) == one_fold(ps.take(n), name, dup, pre, post, unknown_post),
    decreases ps.len() - n,
{
    if n < ps.len() {
        lemma_one_fold_prefix_err(ps, n + 1, name, dup, pre, post, unknown_post);
        assert(ps.take(n + 1).drop_last() =~= ps.take(n));
    } else {
        assert(ps.take(n) =~= ps);
    }
}

/// The optional integer.
pub open spec fn opt_nat(o: Option<u64>) -> Option<nat> {
    match o {
        Some(n) => Some(n as nat),
        None => None,
    }
}

fn one_param(
    pairs: &Vec<(&str, &str)>,
    name: &str,
    dup: &str,
    pre: &str,
    post: &str,
    unknown_post: &str,
) -> (r: Result<Option<u64>, String>)
    ensures
        match one_fold(pair_bytes(pairs@), name.spec_bytes(), dup@, pre@, post@, unknown_post@) {
            Ok(o) => r matches Ok(x) && opt_nat(x) == o,
            Err(e) => r matches Err(m) && m@ == e,
        },
{
    let ghost ps = pair_bytes(pairs@);
    let mut seen: Option<u64> = None;
    let mut i: usize = 0;
    while i < pairs.len()
        invariant
            0 <= i <= pairs@.len(),
            ps == pair_bytes(pairs@),
            one_fold(ps.take(i as int), name.spec_bytes(), dup@, pre@, post@, unknown_post@)
                == Ok::<Option<nat>, Seq<char>>(opt_nat(seen)),
        decreases pairs@.len() - i,
    {
        let (k, v) = pairs[i];
        proof {
            let t = ps.take(i + 1);
            assert(t.drop_last() =~= ps.take(i as int));
            assert(t.last() == (k.spec_bytes(), v.spec_bytes()));
            lemma_one_fold_prefix_err(ps, i as int + 1, name.spec_bytes(), dup@, pre@, post@, unknown_post@);
            assert(decode_utf8(v.spec_bytes()) == v@);
            assert(decode_utf8(k.spec_bytes()) == k@);
        }
        if text::str_eq(k, name) {
            if seen.is_some() {
                return Err(dup.to_string());
            }
            match text::parse_u64(v) {
                Some(n) => {
                    seen = Some(n);
                },
                None => {
                    return Err(message(pre, v, post));
                },
            }
        } else {
            return Err(message("unknown parameter '", k, unknown_post));
        }
        i = i + 1;
    }
    assert(ps.take(i as int) =~= ps);
    Ok(seen)
}

/// `the required parameter is principal=<id>`
pub open spec fn principal_required() -> Seq<char> {
    "the required parameter is principal=<id>"@
}

/// The `/challenge` query, decided: exactly `principal=<non-negative
/// integer>`.
pub open spec fn challenge_spec(query: Option<Seq<u8>>) -> Result<nat, Seq<char>> {
    match query {
        None => Err(principal_required()),
        Some(q) => if q.len() == 0 {
            Err(principal_required())
        } else {
            match query_pairs_spec(q) {
                Err(bad) => Err(malformed_message(bad)),
                Ok(ps) => match one_fold(
                    ps,
                    "principal".spec_bytes(),
                    "duplicate parameter 'principal'"@,
                    "principal: '"@,
                    "' is not a non-negative integer"@,
                    "'"@,
                ) {
                    Err(e) => Err(e),
                    Ok(None) => Err(principal_required()),
                    Ok(Some(p)) => Ok(p),
                },
            }
        },
    }
}

/// The `/challenge` query: exactly `principal=<non-negative integer>`.
pub fn challenge_principal(query: Option<&str>) -> (r: Result<u64, String>)
    ensures
        match challenge_spec(query_bytes(query)) {
            Ok(p) => r matches Ok(x) && x == p,
            Err(e) => r matches Err(m) && m@ == e,
        },
{
    let q = match query {
        None => {
            return Err("the required parameter is principal=<id>".to_string());
        },
        Some(q) => q,
    };
    if q.as_bytes().len() == 0 {
        return Err("the required parameter is principal=<id>".to_string());
    }
    let pairs = match query_pairs(q) {
        Err(e) => {
            return Err(e);
        },
        Ok(p) => p,
    };
    match one_param(
        &pairs,
        "principal",
        "duplicate parameter 'principal'",
        "principal: '",
        "' is not a non-negative integer",
        "'",
    ) {
        Err(e) => Err(e),
        Ok(None) => Err("the required parameter is principal=<id>".to_string()),
        Ok(Some(p)) => Ok(p),
    }
}

/// The `/dump` query, decided: nothing, or exactly `at=<decimal position>`.
pub open spec fn dump_at_spec(query: Option<Seq<u8>>) -> Result<Option<nat>, Seq<char>> {
    match query {
        None => Ok(None),
        Some(q) => if q.len() == 0 {
            Ok(None)
        } else {
            match query_pairs_spec(q) {
                Err(bad) => Err(malformed_message(bad)),
                Ok(ps) => one_fold(
                    ps,
                    "at".spec_bytes(),
                    "duplicate parameter 'at'"@,
                    "at: '"@,
                    "' is not a position (a non-negative integer)"@,
                    "'; the one /dump parameter is at=<position>"@,
                ),
            }
        },
    }
}

/// The `/dump` query: nothing, or exactly `at=<decimal position>`.
pub fn dump_at_param(query: Option<&str>) -> (r: Result<Option<u64>, String>)
    ensures
        match dump_at_spec(query_bytes(query)) {
            Ok(o) => r matches Ok(x) && opt_nat(x) == o,
            Err(e) => r matches Err(m) && m@ == e,
        },
{
    let q = match query {
        None => {
            return Ok(None);
        },
        Some(q) => q,
    };
    if q.as_bytes().len() == 0 {
        return Ok(None);
    }
    let pairs = match query_pairs(q) {
        Err(e) => {
            return Err(e);
        },
        Ok(p) => p,
    };
    one_param(
        &pairs,
        "at",
        "duplicate parameter 'at'",
        "at: '",
        "' is not a position (a non-negative integer)",
        "'; the one /dump parameter is at=<position>",
    )
}

} // verus!
