//! The daemon's command line: flags over environment settings over
//! defaults, each refusal named. The environment is read by the caller and
//! handed in as values; what the settings mean, and in which order they
//! win, is decided here.

use vstd::prelude::*;
use vstd::string::*;
use vstd::utf8::*;
use crate::blocked::{self, Address};
use crate::origin::{self, NotCanonical, Origin};
use crate::query;
use crate::text;

verus! {

broadcast use vstd::utf8::group_utf8_lib;

/// The port when neither flag nor environment names one.
pub const DEFAULT_PORT: u16 = 8642;

/// Request worker threads when neither flag nor environment names a count
/// — above the reconstruction budget, so history never holds the whole
/// pool.
pub const DEFAULT_WORKERS: usize = 4;

/// What `--node-prefix` takes, said once for the flag, the variable and
/// the usage text.
pub const NODE_PREFIX_FORM: &'static str = "a node prefix of the form 1.N — the board's node address under the root 1, never the root itself";

// ── the node prefix ─────────────────────────────────────────────────────

/// One component of a node address: a nonzero natural in canonical
/// decimal.
pub open spec fn node_component(c: Seq<u8>) -> bool {
    c.len() > 0 && text::all_digits(c) && c[0] != 48u8
}

/// A node address strictly under the root `1`: dotted decimal, at least two
/// components, the first `1`, none zero.
pub open spec fn node_prefix_ok(b: Seq<u8>) -> bool {
    let cs = query::pieces(b, 46u8);
    &&& cs.len() >= 2
    &&& cs[0] == seq![49u8]
    &&& forall|i: int| 0 <= i < cs.len() ==> node_component(#[trigger] cs[i])
}

/// The board's full node prefix in the registry: a node address strictly
/// under the root `1`, held as the operator spelled it.
pub struct NodePrefix {
    text: String,
}

impl View for NodePrefix {
    type V = Seq<u8>;

    closed spec fn view(&self) -> Seq<u8> {
        encode_utf8(self.text@)
    }
}

/// The parse refused: the text is not a node prefix.
#[derive(Debug, Clone, Copy, PartialEq, Eq, Hash)]
pub struct NotANodePrefix;

impl NotANodePrefix {
    /// The refusal's one-line text.
    pub fn text(&self) -> (s: String)
        ensures
            s@ == "not a node prefix (1.N — a node address strictly under the root 1)"@,
    {
        "not a node prefix (1.N — a node address strictly under the root 1)".to_string()
    }
}

fn node_component_ok(c: &[u8]) -> (r: bool)
    ensures
        r == node_component(c@),
{
    if c.len() == 0 || c[0] == 48u8 {
        return false;
    }
    let mut i: usize = 0;
    while i < c.len()
        invariant
            0 <= i <= c@.len(),
            forall|j: int| 0 <= j < i ==> text::is_digit(#[trigger] c@[j]),
        decreases c@.len() - i,
    {
        if c[i] < 48 || c[i] > 57 {
            return false;
        }
        i = i + 1;
    }
    true
}

impl NodePrefix {
    #[verifier::type_invariant]
    closed spec fn under_root(&self) -> bool {
        node_prefix_ok(self@)
    }

    /// Every prefix is a node address strictly under the root.
    pub fn form_facts(&self)
        ensures
            node_prefix_ok(self@),
    {
        proof {
            use_type_invariant(self);
        }
    }

    /// The one door: a prefix is made only from text of its form.
    pub fn parse(s: &str) -> (r: Result<NodePrefix, NotANodePrefix>)
        ensures
            node_prefix_ok(s.spec_bytes()) ==> (r matches Ok(p) && p@ == s.spec_bytes()),
            !node_prefix_ok(s.spec_bytes()) ==> r is Err,
    {
        let ghost b = s.spec_bytes();
        let ghost cs = query::pieces(b, 46u8);
        let ghost mut done: Seq<Seq<u8>> = Seq::empty();
        let mut rest: &str = s;
        let mut count: usize = 0;
        let mut first_is_one = false;
        let mut more = true;
        while more
            invariant
                b == s.spec_bytes(),
                cs == query::pieces(b, 46u8),
                more ==> cs == done + query::pieces(rest.spec_bytes(), 46u8),
                !more ==> cs == done,
                count == (if done.len() < 2 {
                    done.len() as int
                } else {
                    2
                }),
                count >= 1 ==> (first_is_one == (done[0] == seq![49u8])),
                forall|i: int| 0 <= i < done.len() ==> node_component(#[trigger] done[i]),
            decreases (if more {
                rest.spec_bytes().len() + 1
            } else {
                0
            }),
        {
            let (piece, next) = crate::lines::next_run(rest, 46u8);
            proof {
                origin::lemma_first_index_bounds(rest.spec_bytes(), 46u8);
                let ps = query::pieces(rest.spec_bytes(), 46u8);
                match next {
                    Some(t) => {
                        assert(ps == seq![piece.spec_bytes()] + query::pieces(t.spec_bytes(), 46u8));
                    },
                    None => {
                        assert(ps == seq![piece.spec_bytes()]);
                    },
                }
            }
            if !node_component_ok(piece.as_bytes()) {
                proof {
                    assert(cs[done.len() as int] == piece.spec_bytes());
                    assert(!node_component(cs[done.len() as int]));
                    assert(done.len() < cs.len());
                    assert(!node_prefix_ok(b));
                }
                return Err(NotANodePrefix);
            }
            if count == 0 {
                first_is_one = piece.as_bytes().len() == 1 && piece.as_bytes()[0] == 49u8;
                proof {
                    if first_is_one {
                        assert(piece.spec_bytes() =~= seq![49u8]);
                    }
                }
            }
            proof {
                done = done.push(piece.spec_bytes());
            }
            if count < 2 {
                count = count + 1;
            }
            match next {
                None => {
                    proof {
                        assert(cs =~= done);
                    }
                    more = false;
                },
                Some(t) => {
                    proof {
                        assert(cs =~= done + query::pieces(t.spec_bytes(), 46u8));
                    }
                    rest = t;
                },
            }
        }
        if count < 2 || !first_is_one {
            return Err(NotANodePrefix);
        }
        Ok(NodePrefix { text: s.to_string() })
    }

    /// The prefix as the operator spelled it.
    pub fn as_str(&self) -> (r: &str)
        ensures
            r.spec_bytes() == self@,
            r@ == self.spelled(),
    {
        self.text.as_str()
    }

    /// The prefix as an address — what the off-board test compares.
    pub fn address(&self) -> (a: Address)
        ensures
            a@ == query::pieces(self@, 46u8),
    {
        proof {
            use_type_invariant(self);
            let cs = query::pieces(self@, 46u8);
            assert forall|i: int| 0 <= i < cs.len() implies #[trigger] cs[i].len() > 0 && text::all_digits(cs[i]) by {
                assert(node_component(cs[i]));
            }
            assert(Seq::new(cs.len(), |i: int| blocked::canon(cs[i])) =~= cs) by {
                assert forall|i: int| 0 <= i < cs.len() implies blocked::canon(#[trigger] cs[i]) == cs[i] by {
                    assert(node_component(cs[i]));
                }
            }
        }
        Address::parse(self.as_str()).unwrap()
    }

    /// The prefix in characters, as the operator spelled it.
    pub closed spec fn spelled(&self) -> Seq<char> {
        self.text@
    }

    /// The characters spell the prefix's bytes, so two prefixes with the
    /// same bytes are spelled alike.
    pub proof fn lemma_spelled(&self)
        ensures
            encode_utf8(self.spelled()) == self@,
    {
    }

    /// A second value of the same prefix.
    pub fn duplicate(&self) -> (r: NodePrefix)
        ensures
            r@ == self@,
    {
        proof {
            use_type_invariant(self);
        }
        NodePrefix { text: self.text.clone() }
    }
}

impl std::str::FromStr for NodePrefix {
    type Err = NotANodePrefix;

    fn from_str(s: &str) -> (r: Result<NodePrefix, NotANodePrefix>)
        ensures
            node_prefix_ok(s.spec_bytes()) ==> (r matches Ok(p) && p@ == s.spec_bytes()),
            !node_prefix_ok(s.spec_bytes()) ==> r is Err,
    {
        NodePrefix::parse(s)
    }
}

// ── the environment ─────────────────────────────────────────────────────

/// One environment variable as the caller found it.
pub enum EnvValue {
    Unset,
    /// Set, and not readable as text.
    NotText,
    Text(String),
}

/// The environment settings the command line is seeded from.
pub struct Env {
    /// `SKEPD_DATA_DIR` is set (its value, a path, stays with the caller).
    pub data_dir_set: bool,
    pub port: EnvValue,
    pub workers: EnvValue,
    pub local_trust: EnvValue,
    pub origin: EnvValue,
    /// `SKEPD_BLOCKED_PREFIXES` is set (its value, a path, stays with the
    /// caller).
    pub blocked_prefixes_set: bool,
    pub node_prefix: EnvValue,
}

/// Where a path setting came from: the caller's environment variable, or a
/// flag's value.
pub enum PathSource {
    FromEnv,
    Given(String),
}

/// A path setting's source as text.
pub enum PathView {
    FromEnv,
    Given(Seq<char>),
}

pub open spec fn path_view(p: PathSource) -> PathView {
    match p {
        PathSource::FromEnv => PathView::FromEnv,
        PathSource::Given(s) => PathView::Given(s@),
    }
}

/// `<var>: the value is not UTF-8 text`
pub open spec fn not_text(var: Seq<char>) -> Seq<char> {
    var + ": the value is not UTF-8 text"@
}

/// `<var>: '<v>' is not <expected>`
pub open spec fn not_expected(var: Seq<char>, v: Seq<char>, expected: Seq<char>) -> Seq<char> {
    var + ": '"@ + v + "' is not "@ + expected
}

/// `bool::from_str`: exactly `true` or `false`.
pub open spec fn parse_bool(v: Seq<char>) -> Option<bool> {
    if v == "true"@ {
        Some(true)
    } else if v == "false"@ {
        Some(false)
    } else {
        None
    }
}

/// An unsigned setting from the environment.
pub open spec fn env_unsigned(var: Seq<char>, expected: Seq<char>, max: nat, e: EnvValue) -> Result<
    Option<nat>,
    Seq<char>,
> {
    match e {
        EnvValue::Unset => Ok(None),
        EnvValue::NotText => Err(not_text(var)),
        EnvValue::Text(v) => match text::std_parse_unsigned(encode_utf8(v@), max) {
            Some(n) => Ok(Some(n)),
            None => Err(not_expected(var, v@, expected)),
        },
    }
}

/// An unsigned setting from the environment: `None` when unset.
fn from_env_unsigned(var: &str, expected: &str, max: u64, e: &EnvValue) -> (r: Result<
    Option<u64>,
    String,
>)
    ensures
        match env_unsigned(var@, expected@, max as nat, *e) {
            Ok(o) => r matches Ok(x) && (match x {
                Some(n) => Some(n as nat),
                None => None,
            }) == o,
            Err(m) => r matches Err(s) && s@ == m,
        },
{
    match e {
        EnvValue::Unset => Ok(None),
        EnvValue::NotText => Err(concat2(var, ": the value is not UTF-8 text")),
        EnvValue::Text(v) => {
            let vs = v.as_str();
            assert(vs.spec_bytes() == encode_utf8(v@));
            match text::parse_unsigned(vs.as_bytes(), max) {
                Some(n) => Ok(Some(n)),
                None => Err(refusal(var, v.as_str(), expected)),
            }
        },
    }
}

fn concat2(a: &str, b: &str) -> (s: String)
    ensures
        s@ == a@ + b@,
{
    let mut s = a.to_string();
    s.append(b);
    s
}

fn refusal(var: &str, v: &str, expected: &str) -> (s: String)
    ensures
        s@ == not_expected(var@, v@, expected@),
{
    let mut s = var.to_string();
    s.append(": '");
    s.append(v);
    s.append("' is not ");
    s.append(expected);
    s
}

/// The local-trust setting from the environment.
pub open spec fn env_bool(e: EnvValue) -> Result<Option<bool>, Seq<char>> {
    match e {
        EnvValue::Unset => Ok(None),
        EnvValue::NotText => Err(not_text("SKEPD_LOCAL_TRUST"@)),
        EnvValue::Text(v) => match parse_bool(v@) {
            Some(b) => Ok(Some(b)),
            None => Err(not_expected("SKEPD_LOCAL_TRUST"@, v@, "true or false"@)),
        },
    }
}

fn from_env_bool(e: &EnvValue) -> (r: Result<Option<bool>, String>)
    ensures
        match env_bool(*e) {
            Ok(o) => r == Ok::<Option<bool>, String>(o),
            Err(m) => r matches Err(s) && s@ == m,
        },
{
    match e {
        EnvValue::Unset => Ok(None),
        EnvValue::NotText => Err(concat2("SKEPD_LOCAL_TRUST", ": the value is not UTF-8 text")),
        EnvValue::Text(v) => {
            if text::str_eq(v.as_str(), "true") {
                Ok(Some(true))
            } else if text::str_eq(v.as_str(), "false") {
                Ok(Some(false))
            } else {
                Err(refusal("SKEPD_LOCAL_TRUST", v.as_str(), "true or false"))
            }
        },
    }
}

/// The node prefix setting from the environment.
pub open spec fn env_node_prefix(e: EnvValue) -> Result<Option<Seq<u8>>, Seq<char>> {
    match e {
        EnvValue::Unset => Ok(None),
        EnvValue::NotText => Err(not_text("SKEPD_NODE_PREFIX"@)),
        EnvValue::Text(v) => if node_prefix_ok(encode_utf8(v@)) {
            Ok(Some(encode_utf8(v@)))
        } else {
            Err(not_expected("SKEPD_NODE_PREFIX"@, v@, NODE_PREFIX_FORM@))
        },
    }
}

fn from_env_node_prefix(e: &EnvValue) -> (r: Result<Option<NodePrefix>, String>)
    ensures
        match env_node_prefix(*e) {
            Ok(o) => r matches Ok(x) && (match x {
                Some(p) => Some(p@),
                None => None,
            }) == o,
            Err(m) => r matches Err(s) && s@ == m,
        },
{
    match e {
        EnvValue::Unset => Ok(None),
        EnvValue::NotText => Err(concat2("SKEPD_NODE_PREFIX", ": the value is not UTF-8 text")),
        EnvValue::Text(v) => match NodePrefix::parse(v.as_str()) {
            Ok(p) => Ok(Some(p)),
            Err(_) => Err(refusal("SKEPD_NODE_PREFIX", v.as_str(), NODE_PREFIX_FORM)),
        },
    }
}

/// The refusal text `Origin`'s parse names.
pub open spec fn not_canonical_text() -> Seq<char> {
    "not a canonical origin (scheme://host[:port], lowercase, the scheme's default port omitted)"@
}

/// The origin list from `SKEPD_ORIGIN`'s comma-separated pieces, empty
/// pieces skipped, each a canonical origin.
pub open spec fn origin_list(ps: Seq<Seq<u8>>) -> Result<Seq<Seq<u8>>, Seq<char>>
    decreases ps.len(),
{
    if ps.len() == 0 {
        Ok(Seq::empty())
    } else if ps[0].len() == 0 {
        origin_list(ps.drop_first())
    } else if origin::origin_spec(ps[0]) is None {
        Err("SKEPD_ORIGIN: '"@ + decode_utf8(ps[0]) + "' is "@ + not_canonical_text())
    } else {
        match origin_list(ps.drop_first()) {
            Ok(rest) => Ok(seq![ps[0]] + rest),
            Err(e) => Err(e),
        }
    }
}

/// The origin setting from the environment.
pub open spec fn env_origins(e: EnvValue) -> Result<Seq<Seq<u8>>, Seq<char>> {
    match e {
        EnvValue::Unset => Ok(Seq::empty()),
        EnvValue::NotText => Err(not_text("SKEPD_ORIGIN"@)),
        EnvValue::Text(v) => origin_list(query::pieces(encode_utf8(v@), 44u8)),
    }
}

/// The canonical texts of a list of origins.
pub open spec fn origin_views(v: Seq<Origin>) -> Seq<Seq<u8>> {
    Seq::new(v.len(), |i: int| v[i]@)
}

fn from_env_origins(e: &EnvValue) -> (r: Result<Vec<Origin>, String>)
    ensures
        match env_origins(*e) {
            Ok(o) => r matches Ok(x) && origin_views(x@) == o,
            Err(m) => r matches Err(s) && s@ == m,
        },
{
    let v = match e {
        EnvValue::Unset => {
            assert(origin_views(Seq::<Origin>::empty()) =~= Seq::<Seq<u8>>::empty());
            return Ok(Vec::new());
        },
        EnvValue::NotText => {
            return Err(concat2("SKEPD_ORIGIN", ": the value is not UTF-8 text"));
        },
        EnvValue::Text(v) => v.as_str(),
    };
    let ghost all = query::pieces(v.spec_bytes(), 44u8);
    let mut out: Vec<Origin> = Vec::new();
    let mut rest: &str = v;
    loop
        invariant
            all == query::pieces(v.spec_bytes(), 44u8),
            env_origins(*e) == origin_list(all),
            origin_list(all) == (match origin_list(query::pieces(rest.spec_bytes(), 44u8)) {
                Ok(r) => Ok(origin_views(out@) + r),
                Err(m) => Err(m),
            }),
        decreases rest.spec_bytes().len(),
    {
        let (piece, next) = crate::lines::next_run(rest, 44u8);
        let ghost ps = query::pieces(rest.spec_bytes(), 44u8);
        let ghost tail = match next {
            Some(t) => query::pieces(t.spec_bytes(), 44u8),
            None => Seq::<Seq<u8>>::empty(),
        };
        proof {
            origin::lemma_first_index_bounds(rest.spec_bytes(), 44u8);
            match next {
                Some(t) => {
                    assert(ps == seq![piece.spec_bytes()] + tail);
                },
                None => {
                    assert(ps == seq![piece.spec_bytes()]);
                    assert(tail =~= Seq::<Seq<u8>>::empty());
                    assert(ps == seq![piece.spec_bytes()] + tail);
                },
            }
            assert(ps[0] == piece.spec_bytes());
            assert(ps.drop_first() =~= tail);
            assert(origin_list(Seq::<Seq<u8>>::empty()) == Ok::<Seq<Seq<u8>>, Seq<char>>(Seq::empty()));
        }
        if piece.as_bytes().len() > 0 {
            match Origin::parse(piece) {
                None => {
                    proof {
                        assert(decode_utf8(piece.spec_bytes()) == piece@);
                    }
                    let mut m = "SKEPD_ORIGIN: '".to_string();
                    m.append(piece);
                    m.append("' is ");
                    let t = NotCanonical.text();
                    m.append(t.as_str());
                    return Err(m);
                },
                Some(o) => {
                    let ghost before = origin_views(out@);
                    out.push(o);
                    proof {
                        assert(origin_views(out@) =~= before.push(piece.spec_bytes()));
                        match origin_list(tail) {
                            Ok(r) => {
                                assert(before + (seq![piece.spec_bytes()] + r) =~= origin_views(out@) + r);
                            },
                            Err(_) => {},
                        }
                    }
                },
            }
        }
        match next {
            None => {
                proof {
                    assert(origin_views(out@) + Seq::<Seq<u8>>::empty() =~= origin_views(out@));
                }
                return Ok(out);
            },
            Some(t) => {
                rest = t;
            },
        }
    }
}

// ── the flags ───────────────────────────────────────────────────────────

/// The settings as far as they are known.
pub struct ArgState {
    pub data_dir: Option<PathView>,
    pub port: Option<nat>,
    pub workers: Option<nat>,
    pub local_trust: Option<bool>,
    pub origins: Seq<Seq<u8>>,
    pub blocked_prefixes: Option<PathView>,
    pub node_prefix: Option<Seq<u8>>,
}

/// The flags applied in order, from the environment's seeding: `None` for
/// a request for the usage text, or the first refusal.
pub open spec fn args_fold(argv: Seq<Seq<char>>, st: ArgState) -> Result<Option<ArgState>, Seq<char>>
    decreases argv.len(),
{
    if argv.len() == 0 {
        Ok(Some(st))
    } else {
        let a = argv[0];
        let rest = argv.drop_first();
        if a == "--local-trust"@ {
            args_fold(rest, ArgState { local_trust: Some(true), ..st })
        } else if a == "--no-local-trust"@ {
            args_fold(rest, ArgState { local_trust: Some(false), ..st })
        } else if a == "--help"@ || a == "-h"@ {
            Ok(None)
        } else if a == "--data-dir"@ || a == "--port"@ || a == "--workers"@ || a == "--origin"@ || a
            == "--blocked-prefixes"@ || a == "--node-prefix"@ {
            if rest.len() == 0 {
                Err(a + " needs a value"@)
            } else {
                let v = rest[0];
                let after = rest.drop_first();
                if a == "--data-dir"@ {
                    args_fold(after, ArgState { data_dir: Some(PathView::Given(v)), ..st })
                } else if a == "--port"@ {
                    match text::std_parse_unsigned(encode_utf8(v), 65535) {
                        Some(n) => args_fold(after, ArgState { port: Some(n), ..st }),
                        None => Err("--port: '"@ + v + "' is not a port"@),
                    }
                } else if a == "--workers"@ {
                    match text::std_parse_unsigned(encode_utf8(v), usize::MAX as nat) {
                        Some(n) => args_fold(after, ArgState { workers: Some(n), ..st }),
                        None => Err("--workers: '"@ + v + "' is not a count"@),
                    }
                } else if a == "--origin"@ {
                    if origin::origin_spec(encode_utf8(v)) is Some {
                        args_fold(after, ArgState { origins: st.origins.push(encode_utf8(v)), ..st })
                    } else {
                        Err("--origin: '"@ + v + "' is "@ + not_canonical_text())
                    }
                } else if a == "--blocked-prefixes"@ {
                    args_fold(after, ArgState { blocked_prefixes: Some(PathView::Given(v)), ..st })
                } else {
                    if node_prefix_ok(encode_utf8(v)) {
                        args_fold(after, ArgState { node_prefix: Some(encode_utf8(v)), ..st })
                    } else {
                        Err("--node-prefix: '"@ + v + "' is not "@ + NODE_PREFIX_FORM@)
                    }
                }
            }
        } else {
            Err("unknown argument '"@ + a + "'"@)
        }
    }
}


proof fn lemma_args_fold_concat(argv: Seq<Seq<char>>, tail: Seq<Seq<char>>, st: ArgState)
    ensures
        args_fold(argv, st) matches Ok(Some(s)) ==> args_fold(argv + tail, st) == args_fold(tail, s),
    decreases argv.len(),
{
    if argv.len() == 0 {
        assert(argv + tail =~= tail);
    } else {
        let all = argv + tail;
        assert(all[0] == argv[0]);
        assert(all.drop_first() =~= argv.drop_first() + tail);
        let a = argv[0];
        let rest = argv.drop_first();
        if rest.len() > 0 {
            assert(all.drop_first()[0] == rest[0]);
            assert(all.drop_first().drop_first() =~= rest.drop_first() + tail);
            lemma_args_fold_concat(rest.drop_first(), tail, ArgState { local_trust: Some(true), ..st });
            lemma_args_fold_concat(rest.drop_first(), tail, ArgState { local_trust: Some(false), ..st });
            let v = rest[0];
            lemma_args_fold_concat(rest.drop_first(), tail, ArgState { data_dir: Some(PathView::Given(v)), ..st });
            lemma_args_fold_concat(rest.drop_first(), tail, ArgState { origins: st.origins.push(encode_utf8(v)), ..st });
            lemma_args_fold_concat(rest.drop_first(), tail, ArgState { blocked_prefixes: Some(PathView::Given(v)), ..st });
            lemma_args_fold_concat(rest.drop_first(), tail, ArgState { node_prefix: Some(encode_utf8(v)), ..st });
            match text::std_parse_unsigned(encode_utf8(v), 65535) {
                Some(n) => lemma_args_fold_concat(rest.drop_first(), tail, ArgState { port: Some(n), ..st }),
                None => {},
            }
            match text::std_parse_unsigned(encode_utf8(v), usize::MAX as nat) {
                Some(n) => lemma_args_fold_concat(rest.drop_first(), tail, ArgState { workers: Some(n), ..st }),
                None => {},
            }
        }
        lemma_args_fold_concat(rest, tail, ArgState { local_trust: Some(true), ..st });
        lemma_args_fold_concat(rest, tail, ArgState { local_trust: Some(false), ..st });
    }
}

proof fn lemma_args_fold_keeps_origins(argv: Seq<Seq<char>>, st: ArgState)
    ensures
        args_fold(argv, st) matches Ok(Some(s)) ==> st.origins.is_prefix_of(s.origins),
    decreases argv.len(),
{
    if argv.len() > 0 {
        let rest = argv.drop_first();
        lemma_args_fold_keeps_origins(rest, ArgState { local_trust: Some(true), ..st });
        lemma_args_fold_keeps_origins(rest, ArgState { local_trust: Some(false), ..st });
        if rest.len() > 0 {
            let v = rest[0];
            let after = rest.drop_first();
            lemma_args_fold_keeps_origins(after, ArgState { data_dir: Some(PathView::Given(v)), ..st });
            lemma_args_fold_keeps_origins(after, ArgState { blocked_prefixes: Some(PathView::Given(v)), ..st });
            lemma_args_fold_keeps_origins(after, ArgState { node_prefix: Some(encode_utf8(v)), ..st });
            let pushed = ArgState { origins: st.origins.push(encode_utf8(v)), ..st };
            lemma_args_fold_keeps_origins(after, pushed);
            assert(st.origins.is_prefix_of(pushed.origins)) by {
                assert(pushed.origins.subrange(0, st.origins.len() as int) =~= st.origins);
            }
            match text::std_parse_unsigned(encode_utf8(v), 65535) {
                Some(n) => lemma_args_fold_keeps_origins(after, ArgState { port: Some(n), ..st }),
                None => {},
            }
            match text::std_parse_unsigned(encode_utf8(v), usize::MAX as nat) {
                Some(n) => lemma_args_fold_keeps_origins(after, ArgState { workers: Some(n), ..st }),
                None => {},
            }
            match args_fold(after, pushed) {
                Ok(Some(s)) => {
                    assert(pushed.origins.is_prefix_of(s.origins));
                    assert(s.origins.subrange(0, st.origins.len() as int) =~= pushed.origins.subrange(
                        0,
                        st.origins.len() as int,
                    ));
                },
                _ => {},
            }
        }
    }
}

/// `--origin` accumulates: the flags never drop an origin already decided
/// (the environment's come first, then the flags' in command-line order),
/// and one more `--origin` with a canonical origin after a command line
/// that parses appends exactly that origin, everything else unchanged.
pub proof fn law_origin_flags_accumulate(argv: Seq<Seq<char>>, st: ArgState, v: Seq<char>)
    ensures
        match args_fold(argv, st) {
            Ok(Some(s)) => {
                &&& st.origins.is_prefix_of(s.origins)
                &&& origin::origin_spec(encode_utf8(v)) is Some ==> args_fold(argv + seq!["--origin"@, v], st)
                    == Ok::<Option<ArgState>, Seq<char>>(
                    Some(ArgState { origins: s.origins.push(encode_utf8(v)), ..s }),
                )
            },
            _ => true,
        },
{
    lemma_args_fold_keeps_origins(argv, st);
    lemma_args_fold_concat(argv, seq!["--origin"@, v], st);
    reveal_strlit("--origin");
    reveal_strlit("--local-trust");
    reveal_strlit("--no-local-trust");
    reveal_strlit("--help");
    reveal_strlit("-h");
    reveal_strlit("--data-dir");
    reveal_strlit("--port");
    reveal_strlit("--workers");
    assert("--origin"@.len() == 8);
    assert("--local-trust"@.len() == 13);
    assert("--no-local-trust"@.len() == 16);
    assert("--help"@.len() == 6);
    assert("-h"@.len() == 2);
    assert("--data-dir"@.len() == 10);
    assert("--port"@.len() == 6);
    assert("--workers"@.len() == 9);
    let t = seq!["--origin"@, v];
    assert(t[0] == "--origin"@);
    assert(t.drop_first()[0] == v);
    assert(t.drop_first().drop_first() =~= Seq::<Seq<char>>::empty());
    match args_fold(argv, st) {
        Ok(Some(s)) => {
            let pushed = ArgState { origins: s.origins.push(encode_utf8(v)), ..s };
            assert(args_fold(Seq::<Seq<char>>::empty(), pushed) == Ok::<Option<ArgState>, Seq<char>>(Some(pushed)));
            if origin::origin_spec(encode_utf8(v)) is Some {
                assert(args_fold(t, s) == args_fold(t.drop_first().drop_first(), pushed));
            }
        },
        _ => {},
    }
}

/// The settings as they accumulate over the flags.
pub struct ArgAcc {
    pub data_dir: Option<PathSource>,
    pub port: Option<u16>,
    pub workers: Option<usize>,
    pub local_trust: Option<bool>,
    pub origins: Vec<Origin>,
    pub blocked_prefixes: Option<PathSource>,
    pub node_prefix: Option<NodePrefix>,
}

pub open spec fn opt_path(p: Option<PathSource>) -> Option<PathView> {
    match p {
        Some(x) => Some(path_view(x)),
        None => None,
    }
}

pub open spec fn opt_nat_u16(o: Option<u16>) -> Option<nat> {
    match o {
        Some(n) => Some(n as nat),
        None => None,
    }
}

pub open spec fn opt_nat_usize(o: Option<usize>) -> Option<nat> {
    match o {
        Some(n) => Some(n as nat),
        None => None,
    }
}

pub open spec fn opt_prefix(o: Option<NodePrefix>) -> Option<Seq<u8>> {
    match o {
        Some(p) => Some(p@),
        None => None,
    }
}

/// The accumulated settings as the spec's state.
pub open spec fn acc_view(a: ArgAcc) -> ArgState {
    ArgState {
        data_dir: opt_path(a.data_dir),
        port: opt_nat_u16(a.port),
        workers: opt_nat_usize(a.workers),
        local_trust: a.local_trust,
        origins: origin_views(a.origins@),
        blocked_prefixes: opt_path(a.blocked_prefixes),
        node_prefix: opt_prefix(a.node_prefix),
    }
}

/// The arguments as text.
pub open spec fn argv_view(v: Seq<String>) -> Seq<Seq<char>> {
    Seq::new(v.len(), |i: int| v[i]@)
}

/// One step over the flags: the next index and the settings, the request
/// for usage, or a refusal.
pub enum Step {
    Next(usize, ArgAcc),
    Help,
    Refused(String),
}

fn needs_value(a: &str) -> (r: bool)
    ensures
        r == (a@ == "--data-dir"@ || a@ == "--port"@ || a@ == "--workers"@ || a@ == "--origin"@
            || a@ == "--blocked-prefixes"@ || a@ == "--node-prefix"@),
{
    text::str_eq(a, "--data-dir") || text::str_eq(a, "--port") || text::str_eq(a, "--workers")
        || text::str_eq(a, "--origin") || text::str_eq(a, "--blocked-prefixes") || text::str_eq(
        a,
        "--node-prefix",
    )
}

/// One flag, and its value where it takes one.
fn step(argv: &Vec<String>, i: usize, acc: ArgAcc) -> (r: Step)
    requires
        i < argv@.len(),
    ensures
        match r {
            Step::Next(j, a) => i < j <= argv@.len() && args_fold(
                argv_view(argv@).skip(i as int),
                acc_view(acc),
            ) == args_fold(argv_view(argv@).skip(j as int), acc_view(a)),
            Step::Help => args_fold(argv_view(argv@).skip(i as int), acc_view(acc)) == Ok::<
                Option<ArgState>,
                Seq<char>,
            >(None),
            Step::Refused(m) => args_fold(argv_view(argv@).skip(i as int), acc_view(acc))
                == Err::<Option<ArgState>, Seq<char>>(m@),
        },
{
    let n = argv.len();
    let ghost av = argv_view(argv@);
    let ghost here = av.skip(i as int);
    proof {
        assert(here[0] == argv@[i as int]@);
        assert(here.drop_first() =~= av.skip(i + 1));
    }
    let a = argv[i].as_str();
    let mut acc = acc;
    if text::str_eq(a, "--local-trust") {
        acc.local_trust = Some(true);
        return Step::Next(i + 1, acc);
    }
    if text::str_eq(a, "--no-local-trust") {
        acc.local_trust = Some(false);
        return Step::Next(i + 1, acc);
    }
    if text::str_eq(a, "--help") || text::str_eq(a, "-h") {
        return Step::Help;
    }
    if !needs_value(a) {
        let mut m = "unknown argument '".to_string();
        m.append(a);
        m.append("'");
        return Step::Refused(m);
    }
    if i + 1 >= argv.len() {
        proof {
            assert(here.drop_first().len() == 0);
        }
        return Step::Refused(concat2(a, " needs a value"));
    }
    let v = argv[i + 1].as_str();
    proof {
        assert(here.drop_first()[0] == argv@[i + 1]@);
        assert(here.drop_first().drop_first() =~= av.skip(i + 2));
        assert(v.spec_bytes() == encode_utf8(v@));
    }
    if text::str_eq(a, "--data-dir") {
        acc.data_dir = Some(PathSource::Given(v.to_string()));
        Step::Next(i + 2, acc)
    } else if text::str_eq(a, "--port") {
        match text::parse_unsigned(v.as_bytes(), 65535) {
            Some(n) => {
                acc.port = Some(n as u16);
                Step::Next(i + 2, acc)
            },
            None => Step::Refused(message3("--port: '", v, "' is not a port")),
        }
    } else if text::str_eq(a, "--workers") {
        match text::parse_unsigned(v.as_bytes(), usize::MAX as u64) {
            Some(n) => {
                acc.workers = Some(n as usize);
                Step::Next(i + 2, acc)
            },
            None => Step::Refused(message3("--workers: '", v, "' is not a count")),
        }
    } else if text::str_eq(a, "--origin") {
        match Origin::parse(v) {
            Some(o) => {
                let ghost before = origin_views(acc.origins@);
                acc.origins.push(o);
                assert(origin_views(acc.origins@) =~= before.push(v.spec_bytes()));
                Step::Next(i + 2, acc)
            },
            None => {
                let mut m = message3("--origin: '", v, "' is ");
                let t = NotCanonical.text();
                m.append(t.as_str());
                Step::Refused(m)
            },
        }
    } else if text::str_eq(a, "--blocked-prefixes") {
        acc.blocked_prefixes = Some(PathSource::Given(v.to_string()));
        Step::Next(i + 2, acc)
    } else {
        match NodePrefix::parse(v) {
            Ok(p) => {
                acc.node_prefix = Some(p);
                Step::Next(i + 2, acc)
            },
            Err(_) => {
                let mut m = message3("--node-prefix: '", v, "' is not ");
                m.append(NODE_PREFIX_FORM);
                Step::Refused(m)
            },
        }
    }
}

fn message3(a: &str, b: &str, c: &str) -> (s: String)
    ensures
        s@ == a@ + b@ + c@,
{
    let mut s = a.to_string();
    s.append(b);
    s.append(c);
    s
}

/// The command line, decided.
pub struct Args {
    pub data_dir: PathSource,
    pub port: u16,
    pub workers: usize,
    pub local_trust: bool,
    pub origins: Vec<Origin>,
    pub blocked_prefixes: Option<PathSource>,
    pub node_prefix: Option<NodePrefix>,
}

/// The settings the environment seeds, or its first refusal: the port,
/// the worker count, the local-trust flag, the origin list, and the node
/// prefix, in that order.
pub open spec fn env_seed(env: Env) -> Result<ArgState, Seq<char>> {
    match env_unsigned("SKEPD_PORT"@, "a port"@, 65535, env.port) {
        Err(e) => Err(e),
        Ok(port) => match env_unsigned("SKEPD_WORKERS"@, "a count"@, usize::MAX as nat, env.workers) {
            Err(e) => Err(e),
            Ok(workers) => match env_bool(env.local_trust) {
                Err(e) => Err(e),
                Ok(local_trust) => match env_origins(env.origin) {
                    Err(e) => Err(e),
                    Ok(origins) => match env_node_prefix(env.node_prefix) {
                        Err(e) => Err(e),
                        Ok(node_prefix) => Ok(
                            ArgState {
                                data_dir: if env.data_dir_set {
                                    Some(PathView::FromEnv)
                                } else {
                                    None
                                },
                                port,
                                workers,
                                local_trust,
                                origins,
                                blocked_prefixes: if env.blocked_prefixes_set {
                                    Some(PathView::FromEnv)
                                } else {
                                    None
                                },
                                node_prefix,
                            },
                        ),
                    },
                },
            },
        },
    }
}

/// The command line decided: flags over environment over defaults; the
/// usage text asked for (`None`); or the first refusal. A zero worker
/// count is refused, never repaired; the data dir is required.
pub open spec fn parse_args_spec(argv: Seq<Seq<char>>, env: Env) -> Result<Option<ArgState>, Seq<char>> {
    match env_seed(env) {
        Err(e) => Err(e),
        Ok(seed) => match args_fold(argv, seed) {
            Err(e) => Err(e),
            Ok(None) => Ok(None),
            Ok(Some(st)) => finish(st),
        },
    }
}

/// The decided arguments as the spec's state.
pub open spec fn args_view(a: Args) -> ArgState {
    ArgState {
        data_dir: Some(path_view(a.data_dir)),
        port: Some(a.port as nat),
        workers: Some(a.workers as nat),
        local_trust: Some(a.local_trust),
        origins: origin_views(a.origins@),
        blocked_prefixes: opt_path(a.blocked_prefixes),
        node_prefix: opt_prefix(a.node_prefix),
    }
}

/// The command line, or `None` when the caller asked for the usage text.
/// Parsing decides what was asked for; ending the process is the caller's.
pub fn parse_args(argv: &Vec<String>, env: &Env) -> (r: Result<Option<Args>, String>)
    ensures
        match parse_args_spec(argv_view(argv@), *env) {
            Ok(None) => r matches Ok(None),
            Ok(Some(st)) => r matches Ok(Some(a)) && args_view(a) == st,
            Err(m) => r matches Err(s) && s@ == m,
        },
{
    let port = match from_env_unsigned("SKEPD_PORT", "a port", 65535, &env.port) {
        Err(e) => {
            return Err(e);
        },
        Ok(p) => p,
    };
    let workers = match from_env_unsigned("SKEPD_WORKERS", "a count", usize::MAX as u64, &env.workers) {
        Err(e) => {
            return Err(e);
        },
        Ok(w) => w,
    };
    let local_trust = match from_env_bool(&env.local_trust) {
        Err(e) => {
            return Err(e);
        },
        Ok(b) => b,
    };
    let origins = match from_env_origins(&env.origin) {
        Err(e) => {
            return Err(e);
        },
        Ok(o) => o,
    };
    let node_prefix = match from_env_node_prefix(&env.node_prefix) {
        Err(e) => {
            return Err(e);
        },
        Ok(p) => p,
    };
    let mut acc = ArgAcc {
        data_dir: if env.data_dir_set {
            Some(PathSource::FromEnv)
        } else {
            None
        },
        port: match port {
            Some(p) => Some(p as u16),
            None => None,
        },
        workers: match workers {
            Some(w) => Some(w as usize),
            None => None,
        },
        local_trust,
        origins,
        blocked_prefixes: if env.blocked_prefixes_set {
            Some(PathSource::FromEnv)
        } else {
            None
        },
        node_prefix,
    };
    proof {
        assert(env_seed(*env) == Ok::<ArgState, Seq<char>>(acc_view(acc)));
        assert(argv_view(argv@).skip(0) =~= argv_view(argv@));
    }
    let mut i: usize = 0;
    while i < argv.len()
        invariant
            0 <= i <= argv@.len(),
            env_seed(*env) is Ok,
            parse_args_spec(argv_view(argv@), *env) == (match args_fold(
                argv_view(argv@).skip(i as int),
                acc_view(acc),
            ) {
                Err(e) => Err(e),
                Ok(None) => Ok(None),
                Ok(Some(st)) => finish(st),
            }),
        decreases argv@.len() - i,
    {
        match step(argv, i, acc) {
            Step::Next(j, a) => {
                i = j;
                acc = a;
            },
            Step::Help => {
                return Ok(None);
            },
            Step::Refused(m) => {
                return Err(m);
            },
        }
    }
    proof {
        assert(argv_view(argv@).skip(i as int).len() == 0);
    }
    let workers = match acc.workers {
        Some(w) => w,
        None => DEFAULT_WORKERS,
    };
    if workers == 0 {
        return Err("--workers: a server with no workers serves nothing".to_string());
    }
    let data_dir = match acc.data_dir {
        None => {
            return Err("--data-dir (or SKEPD_DATA_DIR) is required".to_string());
        },
        Some(d) => d,
    };
    let args = Args {
        data_dir,
        port: match acc.port {
            Some(p) => p,
            None => DEFAULT_PORT,
        },
        workers,
        local_trust: match acc.local_trust {
            Some(b) => b,
            None => true,
        },
        origins: acc.origins,
        blocked_prefixes: acc.blocked_prefixes,
        node_prefix: acc.node_prefix,
    };
    Ok(Some(args))
}

/// What the flags' outcome comes to once the defaults are applied.
pub open spec fn finish(st: ArgState) -> Result<Option<ArgState>, Seq<char>> {
    let workers = match st.workers {
        Some(w) => w,
        None => DEFAULT_WORKERS as nat,
    };
    if workers == 0 {
        Err("--workers: a server with no workers serves nothing"@)
    } else if st.data_dir is None {
        Err("--data-dir (or SKEPD_DATA_DIR) is required"@)
    } else {
        Ok(
            Some(
                ArgState {
                    port: Some(
                        match st.port {
                            Some(p) => p,
                            None => DEFAULT_PORT as nat,
                        },
                    ),
                    workers: Some(workers),
                    local_trust: Some(
                        match st.local_trust {
                            Some(b) => b,
                            None => true,
                        },
                    ),
                    ..st
                },
            ),
        )
    }
}


// ── the usage text ──────────────────────────────────────────────────────

/// The usage text before the default port.
pub const USAGE_HEAD: &'static str = "\
usage: skepd --data-dir <DIR> [--port <PORT>] [--workers <N>]
             [--local-trust | --no-local-trust] [--origin <ORIGIN>]...
             [--blocked-prefixes <FILE>] [--node-prefix <PREFIX>]

  --data-dir <DIR>   journal/checkpoint directory (env: SKEPD_DATA_DIR);
                     created if absent, recovered if populated
  --port <PORT>      TCP port on 127.0.0.1 (env: SKEPD_PORT; default ";

/// The usage text between the default port and the default worker count.
pub const USAGE_MIDDLE: &'static str = ";
                     0 picks an ephemeral port)
  --workers <N>      request worker threads (env: SKEPD_WORKERS; default ";

/// The usage text after the default worker count.
pub const USAGE_TAIL: &'static str = ";
                     minimum 1)
  --local-trust      honor bare (unsigned) loopback sessions after the
                     board is claimed (the default — a hosted image must
                     pass --no-local-trust affirmatively)
  --no-local-trust   refuse every bare session once the board is claimed
                     (env: SKEPD_LOCAL_TRUST=true|false)
  --origin <ORIGIN>  a canonical origin this board answers for, e.g.
                     https://board.example — repeatable; the signed
                     session arm accepts ONLY these once the board is
                     claimed (env: SKEPD_ORIGIN, comma-separated)
  --blocked-prefixes <FILE>
                     the blocked-prefix list the operator maintains
                     (env: SKEPD_BLOCKED_PREFIXES): one JSON object,
                     {\"operator\": <account>, \"binding_writer\": <account>,
                      \"entries\": [{\"prefix\": <address>,
                                   \"record\": <address>}, ...]}
                     — the two header fields optional. A session under a
                     listed prefix is refused 403 prefix_blocked and a
                     live one ends. Read at EVERY start (a file that
                     cannot be read, or is not a list, stops the start)
                     and re-read whenever it is REPLACED — write the new
                     list beside it and rename it over; no restart, no
                     signal
  --node-prefix <PREFIX>
                     the board's full node prefix in the registry, 1.N
                     (env: SKEPD_NODE_PREFIX) — an address under the root
                     1, never the root itself. Egress and assertion
                     config, per daemon, supplied at every start and
                     never journaled; a fresh prefix is a reconfigure
                     and restart. What it decides here: the blocked-
                     prefix list's off-board test — whether the list's
                     configured operator account is an account of this
                     board — runs against it. Without it that test is
                     OFF (every operator reads as this board's own): a
                     hosted board must supply one
  --help             this text

The wire protocol is specified in skep/docs/wire.md.";

/// The help text, with each default read from the constant that supplies
/// it — so the program cannot describe a default it does not use.
pub fn usage() -> (s: String)
    ensures
        s@ == USAGE_HEAD@ + text::ascii_text(text::decimal(DEFAULT_PORT as nat)) + USAGE_MIDDLE@
            + text::ascii_text(text::decimal(DEFAULT_WORKERS as nat)) + USAGE_TAIL@,
{
    let mut s = USAGE_HEAD.to_string();
    let p = text::u64_to_string(DEFAULT_PORT as u64);
    s.append(p.as_str());
    s.append(USAGE_MIDDLE);
    let w = text::u64_to_string(DEFAULT_WORKERS as u64);
    s.append(w.as_str());
    s.append(USAGE_TAIL);
    s
}

} // verus!
