//! The blocked-prefix list: the operator's issue of prefixes with the
//! takedown record each cites, the install's verdict on each entry (an
//! entry covering a comparand is INERT), and the one predicate the
//! handshake asks of it — which entry in force covers an account.
//!
//! Addresses are dotted-decimal tumblers held as their components, and
//! containment is by component: `1.0.2` contains `1.0.2.5` and not
//! `1.0.21`.

use vstd::prelude::*;
use vstd::string::*;
use crate::cli::{self, NodePrefix};
use crate::origin;
use crate::query;
use crate::text;

verus! {

broadcast use vstd::utf8::group_utf8_lib;

// ── addresses ───────────────────────────────────────────────────────────

/// A component as a natural reads it: leading zeros dropped, `0` kept.
pub open spec fn canon(c: Seq<u8>) -> Seq<u8>
    decreases c.len(),
{
    if c.len() > 1 && c[0] == 48u8 {
        canon(c.drop_first())
    } else {
        c
    }
}

/// A component in canonical decimal: digits, at least one, no leading zero
/// but in `0` itself.
pub open spec fn canonical_component(c: Seq<u8>) -> bool {
    c.len() > 0 && text::all_digits(c) && (c.len() > 1 ==> c[0] != 48u8)
}

/// The dotted-decimal grammar: nonempty digit runs joined by `.`; the
/// components as naturals, or `None` for text no tumbler spells.
pub open spec fn address_spec(b: Seq<u8>) -> Option<Seq<Seq<u8>>> {
    let ps = query::pieces(b, 46u8);
    if forall|i: int| 0 <= i < ps.len() ==> #[trigger] ps[i].len() > 0 && text::all_digits(ps[i]) {
        Some(Seq::new(ps.len(), |i: int| canon(ps[i])))
    } else {
        None
    }
}

/// Containment by component: `p` is `a` or an ancestor of it.
pub open spec fn prefix_contains(p: Seq<Seq<u8>>, a: Seq<Seq<u8>>) -> bool {
    p.len() <= a.len() && a.take(p.len() as int) == p
}

/// Components joined by `.`.
pub open spec fn render(cs: Seq<Seq<u8>>) -> Seq<u8>
    decreases cs.len(),
{
    if cs.len() == 0 {
        Seq::empty()
    } else if cs.len() == 1 {
        cs[0]
    } else {
        render(cs.drop_last()) + seq![46u8] + cs.last()
    }
}

proof fn lemma_canon(c: Seq<u8>)
    requires
        c.len() > 0,
        text::all_digits(c),
    ensures
        canonical_component(canon(c)),
    decreases c.len(),
{
    if c.len() > 1 && c[0] == 48u8 {
        assert(text::all_digits(c.drop_first())) by {
            assert forall|i: int| 0 <= i < c.drop_first().len() implies text::is_digit(
                #[trigger] c.drop_first()[i],
            ) by {
                assert(c.drop_first()[i] == c[i + 1]);
            }
        }
        lemma_canon(c.drop_first());
    }
}

/// A dotted-decimal address: its components, each a natural in canonical
/// decimal, at least one.
#[derive(Debug, PartialEq, Eq)]
pub struct Address {
    comps: Vec<Vec<u8>>,
}

pub open spec fn comp_views(v: Seq<Vec<u8>>) -> Seq<Seq<u8>> {
    Seq::new(v.len(), |i: int| v[i]@)
}

impl View for Address {
    type V = Seq<Seq<u8>>;

    closed spec fn view(&self) -> Seq<Seq<u8>> {
        comp_views(self.comps@)
    }
}

/// Whether a sequence of components is an address's.
pub open spec fn well_formed(cs: Seq<Seq<u8>>) -> bool {
    cs.len() >= 1 && forall|i: int| 0 <= i < cs.len() ==> canonical_component(#[trigger] cs[i])
}

/// An address's components, or none.
pub open spec fn opt_view(a: Option<Address>) -> Option<Seq<Seq<u8>>> {
    match a {
        Some(x) => Some(x@),
        None => None,
    }
}

/// One component, leading zeros dropped.
fn canon_exec(c: &[u8]) -> (r: Vec<u8>)
    requires
        c@.len() > 0,
    ensures
        r@ == canon(c@),
{
    let mut i: usize = 0;
    assert(c@.skip(0) =~= c@);
    while i < c.len() - 1 && c[i] == 48u8
        invariant
            0 <= i < c@.len(),
            canon(c@) == canon(c@.skip(i as int)),
        decreases c@.len() - i,
    {
        assert(c@.skip(i as int).drop_first() =~= c@.skip(i + 1));
        i = i + 1;
    }
    let mut r: Vec<u8> = Vec::new();
    let mut j: usize = i;
    while j < c.len()
        invariant
            i <= j <= c@.len(),
            r@ == c@.subrange(i as int, j as int),
        decreases c@.len() - j,
    {
        r.push(c[j]);
        j = j + 1;
        assert(r@ =~= c@.subrange(i as int, j as int));
    }
    assert(c@.skip(i as int) =~= c@.subrange(i as int, c@.len() as int));
    r
}

fn digits_only(c: &[u8]) -> (r: bool)
    ensures
        r == (c@.len() > 0 && text::all_digits(c@)),
{
    if c.len() == 0 {
        return false;
    }
    let mut i: usize = 0;
    while i < c.len()
        invariant
            0 <= i <= c@.len(),
            forall|j: int| 0 <= j < i ==> text::is_digit(#[trigger] c@[j]),
        decreases c@.len() - i,
    {
        if c[i] < 48u8 || c[i] > 57u8 {
            return false;
        }
        i = i + 1;
    }
    true
}

fn same_component(a: &Vec<u8>, b: &Vec<u8>) -> (r: bool)
    ensures
        r == (a@ == b@),
{
    text::bytes_eq(a.as_slice(), b.as_slice())
}

impl Address {
    #[verifier::type_invariant]
    closed spec fn canonical(&self) -> bool {
        well_formed(comp_views(self.comps@))
    }

    /// Every address has at least one component, each canonical.
    pub fn form_facts(&self)
        ensures
            well_formed(self@),
    {
        proof {
            use_type_invariant(self);
        }
    }

    /// The dotted-decimal parse: `None` for text no tumbler spells.
    pub fn parse(s: &str) -> (r: Option<Address>)
        ensures
            match address_spec(s.spec_bytes()) {
                Some(v) => r matches Some(a) && a@ == v,
                None => r is None,
            },
    {
        let ghost b = s.spec_bytes();
        let ghost cs = query::pieces(b, 46u8);
        let ghost mut done: Seq<Seq<u8>> = Seq::empty();
        let mut comps: Vec<Vec<u8>> = Vec::new();
        let mut rest: &str = s;
        let mut more = true;
        while more
            invariant
                b == s.spec_bytes(),
                cs == query::pieces(b, 46u8),
                more ==> cs == done + query::pieces(rest.spec_bytes(), 46u8),
                !more ==> cs == done,
                comps@.len() == done.len(),
                forall|i: int| 0 <= i < done.len() ==> #[trigger] done[i].len() > 0 && text::all_digits(done[i]),
                forall|i: int| 0 <= i < done.len() ==> #[trigger] comps@[i]@ == canon(done[i]),
            decreases (if more {
                rest.spec_bytes().len() + 1
            } else {
                0
            }),
        {
            let (piece, next) = crate::lines::next_run(rest, 46u8);
            proof {
                origin::lemma_first_index_bounds(rest.spec_bytes(), 46u8);
                let ps = query::pieces(rest.spec_bytes(), 46u8);
                match next {
                    Some(t) => {
                        assert(ps == seq![piece.spec_bytes()] + query::pieces(t.spec_bytes(), 46u8));
                    },
                    None => {
                        assert(ps == seq![piece.spec_bytes()]);
                    },
                }
            }
            if !digits_only(piece.as_bytes()) {
                proof {
                    assert(cs[done.len() as int] == piece.spec_bytes());
                    assert(done.len() < cs.len());
                }
                return None;
            }
            let c = canon_exec(piece.as_bytes());
            comps.push(c);
            proof {
                done = done.push(piece.spec_bytes());
            }
            match next {
                None => {
                    proof {
                        assert(cs =~= done);
                    }
                    more = false;
                },
                Some(t) => {
                    proof {
                        assert(cs =~= done + query::pieces(t.spec_bytes(), 46u8));
                    }
                    rest = t;
                },
            }
        }
        proof {
            assert(comp_views(comps@) =~= Seq::new(cs.len(), |i: int| canon(cs[i])));
            assert(cs.len() >= 1) by {
                origin::lemma_first_index_bounds(b, 46u8);
            }
            assert forall|i: int| 0 <= i < cs.len() implies canonical_component(
                #[trigger] comp_views(comps@)[i],
            ) by {
                lemma_canon(cs[i]);
            }
        }
        Some(Address { comps })
    }

    /// A second value of the same address.
    pub fn duplicate(&self) -> (r: Address)
        ensures
            r@ == self@,
    {
        proof {
            use_type_invariant(self);
        }
        let mut comps: Vec<Vec<u8>> = Vec::new();
        let mut i: usize = 0;
        while i < self.comps.len()
            invariant
                0 <= i <= self.comps@.len(),
                comps@.len() == i,
                forall|j: int| 0 <= j < i ==> #[trigger] comps@[j]@ == self.comps@[j]@,
            decreases self.comps@.len() - i,
        {
            let c = self.comps[i].clone();
            comps.push(c);
            i = i + 1;
        }
        assert(comp_views(comps@) =~= comp_views(self.comps@));
        Address { comps }
    }

    /// Its number of components.
    pub fn depth(&self) -> (r: usize)
        ensures
            r == self@.len(),
    {
        self.comps.len()
    }

    /// Whether `self` is `a` or an ancestor of it, by component.
    pub fn contains(&self, a: &Address) -> (r: bool)
        ensures
            r == prefix_contains(self@, a@),
    {
        if self.comps.len() > a.comps.len() {
            return false;
        }
        let mut i: usize = 0;
        while i < self.comps.len()
            invariant
                0 <= i <= self.comps@.len() <= a.comps@.len(),
                forall|j: int| 0 <= j < i ==> #[trigger] self.comps@[j]@ == a.comps@[j]@,
            decreases self.comps@.len() - i,
        {
            if !same_component(&self.comps[i], &a.comps[i]) {
                proof {
                    assert(a@.take(self@.len() as int)[i as int] != self@[i as int]);
                }
                return false;
            }
            i = i + 1;
        }
        assert(a@.take(self@.len() as int) =~= self@);
        true
    }

    /// Its dotted-decimal text.
    pub fn to_text(&self) -> (s: String)
        ensures
            s@ == text::ascii_text(render(self@)),
    {
        proof {
            use_type_invariant(self);
        }
        let mut out: Vec<u8> = Vec::new();
        let mut i: usize = 0;
        while i < self.comps.len()
            invariant
                0 <= i <= self.comps@.len(),
                self.comps@.len() >= 1,
                out@ == render(self@.take(i as int)),
                text::all_ascii(out@),
                well_formed(self@),
            decreases self.comps@.len() - i,
        {
            let ghost before = out@;
            if i > 0 {
                out.push(46u8);
            }
            out.extend_from_slice(self.comps[i].as_slice());
            proof {
                let t = self@.take(i + 1);
                assert(t.drop_last() =~= self@.take(i as int));
                assert(t.last() == self.comps@[i as int]@);
                if i == 0 {
                    assert(out@ =~= self.comps@[0]@);
                    assert(render(t) == t[0]);
                } else {
                    assert(out@ =~= before + seq![46u8] + t.last());
                }
                assert(canonical_component(self@[i as int]));
                assert forall|j: int| 0 <= j < out@.len() implies #[trigger] out@[j] < 128 by {
                    if j >= before.len() {
                        if i > 0 && j == before.len() {
                        } else {
                            let k = if i > 0 { j - before.len() - 1 } else { j - before.len() };
                            assert(out@[j] == self@[i as int][k]);
                            assert(text::is_digit(self@[i as int][k]));
                        }
                    }
                }
            }
            i = i + 1;
        }
        assert(self@.take(i as int) =~= self@);
        proof {
            text::lemma_ascii_utf8(out@);
        }
        text::string_from_utf8(out).unwrap()
    }
}

// ── the list ────────────────────────────────────────────────────────────

/// One entry: a prefix, and the takedown record it cites — echoed, never
/// dereferenced.
pub struct BlockedEntry {
    pub prefix: Address,
    pub record: Address,
}

/// The list's two-field header, read from the issue and nowhere else.
pub struct BlockedHeader {
    /// The configured operator account; `None` where the header names none
    /// and the claimant is taken in its place.
    pub operator: Option<Address>,
    /// The board's binding-writing account; `None` where the header omits
    /// it and the claimant is taken in its place.
    pub binding_writer: Option<Address>,
}

/// One issue of the list as the operator supplies it: the header and every
/// entry, in supply order.
pub struct BlockedIssue {
    pub header: BlockedHeader,
    pub entries: Vec<BlockedEntry>,
}

impl BlockedIssue {
    /// A second value of the same issue.
    pub fn duplicate(&self) -> (r: BlockedIssue)
        ensures
            entry_views(r.entries@) == entry_views(self.entries@),
            opt_view(r.header.operator) == opt_view(self.header.operator),
            opt_view(r.header.binding_writer) == opt_view(self.header.binding_writer),
    {
        let operator = match &self.header.operator {
            Some(a) => Some(a.duplicate()),
            None => None,
        };
        let binding_writer = match &self.header.binding_writer {
            Some(a) => Some(a.duplicate()),
            None => None,
        };
        let mut entries: Vec<BlockedEntry> = Vec::new();
        let mut i: usize = 0;
        while i < self.entries.len()
            invariant
                0 <= i <= self.entries@.len(),
                entries@.len() == i,
                forall|j: int|
                    0 <= j < i ==> (#[trigger] entries@[j]).prefix@ == self.entries@[j].prefix@
                        && entries@[j].record@ == self.entries@[j].record@,
            decreases self.entries@.len() - i,
        {
            let e = &self.entries[i];
            entries.push(BlockedEntry { prefix: e.prefix.duplicate(), record: e.record.duplicate() });
            i = i + 1;
        }
        assert(entry_views(entries@) =~= entry_views(self.entries@));
        BlockedIssue { header: BlockedHeader { operator, binding_writer }, entries }
    }
}

/// Which of the install's two inert comparands an entry covers.
#[derive(Debug, Clone, Copy, PartialEq, Eq, Structural)]
pub enum Comparand {
    /// The configured operator account.
    Operator,
    /// The board's binding-writing account — a comparand only where the
    /// operator account is not an account of this board.
    BindingWriter,
}

/// An entry's prefix and record as components.
pub open spec fn entry_views(e: Seq<BlockedEntry>) -> Seq<(Seq<Seq<u8>>, Seq<Seq<u8>>)> {
    Seq::new(e.len(), |i: int| (e[i].prefix@, e[i].record@))
}

/// A prefix covers a comparand that is there.
pub open spec fn covers_comparand(prefix: Seq<Seq<u8>>, c: Option<Seq<Seq<u8>>>) -> bool {
    match c {
        Some(x) => prefix_contains(prefix, x),
        None => false,
    }
}

/// The install's verdict on one entry: inert against the operator account
/// first, then against the binding-writing account, else in force.
pub open spec fn verdict(
    prefix: Seq<Seq<u8>>,
    operator: Option<Seq<Seq<u8>>>,
    binding_writer: Option<Seq<Seq<u8>>>,
) -> Option<Comparand> {
    if covers_comparand(prefix, operator) {
        Some(Comparand::Operator)
    } else if covers_comparand(prefix, binding_writer) {
        Some(Comparand::BindingWriter)
    } else {
        None
    }
}

/// Comparand (a): the header's operator, else the claimant.
pub open spec fn resolved_operator(
    named: Option<Seq<Seq<u8>>>,
    claimant: Option<Seq<Seq<u8>>>,
) -> Option<Seq<Seq<u8>>> {
    if named is Some {
        named
    } else {
        claimant
    }
}

/// THE OFF-BOARD TEST: a NAMED operator account not under the node prefix.
/// With no prefix the test is off; the claimant taken in the header's place
/// is never tested.
pub open spec fn off_board(named: Option<Seq<Seq<u8>>>, node_prefix: Option<Seq<u8>>) -> bool {
    match (named, node_prefix) {
        (Some(n), Some(p)) => !prefix_contains(query::pieces(p, 46u8), n),
        _ => false,
    }
}

/// Comparand (b), live only where the operator account is off-board: the
/// header's binding-writing account, else the claimant.
pub open spec fn resolved_binding_writer(
    named_operator: Option<Seq<Seq<u8>>>,
    named_writer: Option<Seq<Seq<u8>>>,
    claimant: Option<Seq<Seq<u8>>>,
    node_prefix: Option<Seq<u8>>,
) -> Option<Seq<Seq<u8>>> {
    if off_board(named_operator, node_prefix) {
        if named_writer is Some {
            named_writer
        } else {
            claimant
        }
    } else {
        None
    }
}

/// Entry `j` is in force and covers `account`.
pub open spec fn blocks(
    vs: Seq<Option<Comparand>>,
    es: Seq<(Seq<Seq<u8>>, Seq<Seq<u8>>)>,
    account: Seq<Seq<u8>>,
    j: int,
) -> bool {
    vs[j] is None && prefix_contains(es[j].0, account)
}

/// Entry `i` is the longest of the entries that block `account`, and the
/// first of that depth.
pub open spec fn longest_first(
    vs: Seq<Option<Comparand>>,
    es: Seq<(Seq<Seq<u8>>, Seq<Seq<u8>>)>,
    account: Seq<Seq<u8>>,
    i: int,
) -> bool {
    &&& forall|j: int| 0 <= j < es.len() && #[trigger] blocks(vs, es, account, j) ==> es[j].0.len() <= es[i].0.len()
    &&& forall|j: int| 0 <= j < i && #[trigger] blocks(vs, es, account, j) ==> es[j].0.len() < es[i].0.len()
}

/// The record the list answers for `account`: that of the longest entry in
/// force covering it, the first of that depth — or none.
pub open spec fn cover_of(
    vs: Seq<Option<Comparand>>,
    es: Seq<(Seq<Seq<u8>>, Seq<Seq<u8>>)>,
    account: Seq<Seq<u8>>,
) -> Option<Seq<Seq<u8>>> {
    if exists|i: int| 0 <= i < es.len() && #[trigger] blocks(vs, es, account, i) && longest_first(vs, es, account, i) {
        Some(es[choose|i: int| 0 <= i < es.len() && #[trigger] blocks(vs, es, account, i) && longest_first(vs, es, account, i)].1)
    } else {
        None
    }
}

/// At most one entry is the longest-and-first.
proof fn lemma_longest_first_unique(
    vs: Seq<Option<Comparand>>,
    es: Seq<(Seq<Seq<u8>>, Seq<Seq<u8>>)>,
    account: Seq<Seq<u8>>,
    i: int,
    j: int,
)
    requires
        0 <= i < es.len(),
        0 <= j < es.len(),
        blocks(vs, es, account, i),
        blocks(vs, es, account, j),
        longest_first(vs, es, account, i),
        longest_first(vs, es, account, j),
    ensures
        i == j,
{
}

/// The node prefix's bytes, if there is one.
pub open spec fn prefix_view(p: Option<NodePrefix>) -> Option<Seq<u8>> {
    match p {
        Some(n) => Some(n@),
        None => None,
    }
}

/// Entries in force: the verdicts that are none.
pub open spec fn count_in_force(v: Seq<Option<Comparand>>) -> nat
    decreases v.len(),
{
    if v.len() == 0 {
        0
    } else {
        count_in_force(v.drop_last()) + if v.last() is None {
            1nat
        } else {
            0nat
        }
    }
}

// ── the log ─────────────────────────────────────────────────────────────

/// An address's dotted-decimal text.
pub open spec fn addr_text(a: Seq<Seq<u8>>) -> Seq<char> {
    text::ascii_text(render(a))
}

/// A header field as the install resolved it: the header's own, else the
/// claimant taken in its place, else none.
pub open spec fn named_text(
    field: Option<Seq<Seq<u8>>>,
    resolved: Option<Seq<Seq<u8>>>,
    absent: Seq<char>,
) -> Seq<char> {
    match (field, resolved) {
        (Some(a), _) => addr_text(a) + " (the header's)"@,
        (None, Some(a)) => addr_text(a) + " (the claimant — "@ + absent + ")"@,
        (None, None) => "none ("@ + absent + ", and the board is unclaimed)"@,
    }
}

/// What the log says of comparand (b), against the node prefix the test
/// ran with (as spelled), or without one.
pub open spec fn writer_text(
    field: Option<Seq<Seq<u8>>>,
    resolved: Option<Seq<Seq<u8>>>,
    prefix: Option<Seq<char>>,
) -> Seq<char> {
    match (resolved, prefix) {
        (Some(_), Some(p)) => named_text(field, resolved, "the header omits it"@)
            + " — exempt, the operator account being off-board (not under the node prefix "@ + p + ")"@,
        (Some(_), None) => named_text(field, resolved, "the header omits it"@)
            + " — exempt, the operator account being off-board"@,
        (None, Some(p)) => "not a comparand (the operator account is an account of this board — under the node prefix "@
            + p + ", or the claimant taken in the header's place — or there is none)"@,
        (None, None) => "not a comparand (no --node-prefix: the off-board test is off; a hosted board must supply one)"@,
    }
}

/// The log's first line: the count, the header as resolved, and comparand
/// (b)'s standing.
pub open spec fn summary_line(in_force: nat, total: nat, operator: Seq<char>, writer: Seq<char>) -> Seq<char> {
    text::ascii_text(text::decimal(in_force)) + " of "@ + text::ascii_text(text::decimal(total))
        + " entries in force, "@ + text::ascii_text(text::decimal((total - in_force) as nat))
        + " inert; operator account "@ + operator + "; binding-writing account "@ + writer
}

/// The line naming one inert entry and the comparand it covers.
pub open spec fn inert_line(
    prefix: Seq<Seq<u8>>,
    record: Seq<Seq<u8>>,
    c: Comparand,
    operator: Option<Seq<Seq<u8>>>,
    writer: Option<Seq<Seq<u8>>>,
) -> Seq<char> {
    let (covered, exempted) = match c {
        Comparand::Operator => ("the configured operator account"@, operator),
        Comparand::BindingWriter => ("the board's binding-writing account"@, writer),
    };
    let account = match exempted {
        Some(a) => " "@ + addr_text(a),
        None => Seq::empty(),
    };
    "entry "@ + addr_text(prefix) + " (record "@ + addr_text(record) + ") is INERT — it covers "@ + covered
        + account + "; ignored"@
}

/// One line per inert entry, in supply order; entries in force are
/// counted, never listed.
pub open spec fn inert_lines(
    es: Seq<(Seq<Seq<u8>>, Seq<Seq<u8>>)>,
    vs: Seq<Option<Comparand>>,
    operator: Option<Seq<Seq<u8>>>,
    writer: Option<Seq<Seq<u8>>>,
) -> Seq<Seq<char>>
    decreases es.len(),
{
    if es.len() == 0 || vs.len() < es.len() {
        Seq::empty()
    } else {
        let rest = inert_lines(es.drop_last(), vs.take(es.len() - 1), operator, writer);
        match vs[es.len() - 1] {
            Some(c) => rest.push(inert_line(es.last().0, es.last().1, c, operator, writer)),
            None => rest,
        }
    }
}

/// The strings' characters.
pub open spec fn string_views(v: Seq<String>) -> Seq<Seq<char>> {
    Seq::new(v.len(), |i: int| v[i]@)
}

fn named_exec(field: &Option<Address>, resolved: &Option<Address>, absent: &str) -> (s: String)
    ensures
        s@ == named_text(opt_view(*field), opt_view(*resolved), absent@),
{
    match (field, resolved) {
        (Some(a), _) => {
            let mut s = a.to_text();
            s.append(" (the header's)");
            s
        },
        (None, Some(a)) => {
            let mut s = a.to_text();
            s.append(" (the claimant — ");
            s.append(absent);
            s.append(")");
            s
        },
        (None, None) => {
            let mut s = "none (".to_string();
            s.append(absent);
            s.append(", and the board is unclaimed)");
            s
        },
    }
}

/// `l` is the install of the issue with entries `es` and header `header`
/// against `claimant` and the node prefix `prefix`: the issue kept whole,
/// the comparands resolved by the rule, and each entry's verdict the
/// rule's.
pub open spec fn installed_as(
    l: BlockedPrefixes,
    es: Seq<(Seq<Seq<u8>>, Seq<Seq<u8>>)>,
    header: (Option<Seq<Seq<u8>>>, Option<Seq<Seq<u8>>>),
    claimant: Option<Seq<Seq<u8>>>,
    prefix: Option<Seq<u8>>,
) -> bool {
    &&& l.entries() == es
    &&& l.header_view() == header
    &&& l.operator_view() == resolved_operator(header.0, claimant)
    &&& l.binding_writer_view() == resolved_binding_writer(header.0, header.1, claimant, prefix)
    &&& l.prefix_in_force() == prefix
    &&& l.verdicts().len() == es.len()
    &&& forall|i: int|
        0 <= i < es.len() ==> #[trigger] l.verdicts()[i] == verdict(es[i].0, l.operator_view(), l.binding_writer_view())
}

/// The list IN FORCE: one issue, with the install's verdict on each entry
/// beside it. The issue is kept whole, inert entries included.
pub struct BlockedPrefixes {
    issue: BlockedIssue,
    inert: Vec<Option<Comparand>>,
    operator: Option<Address>,
    binding_writer: Option<Address>,
    node_prefix: Option<NodePrefix>,
}

fn dup_opt(a: Option<&Address>) -> (r: Option<Address>)
    ensures
        match a {
            Some(x) => r matches Some(y) && y@ == x@,
            None => r is None,
        },
{
    match a {
        Some(x) => Some(x.duplicate()),
        None => None,
    }
}

fn covers_opt(prefix: &Address, c: &Option<Address>) -> (r: bool)
    ensures
        r == covers_comparand(prefix@, opt_view(*c)),
{
    match c {
        Some(x) => prefix.contains(x),
        None => false,
    }
}

impl BlockedPrefixes {
    /// The issue's entries, prefix and record, in supply order.
    pub closed spec fn entries(&self) -> Seq<(Seq<Seq<u8>>, Seq<Seq<u8>>)> {
        entry_views(self.issue.entries@)
    }

    /// The install's verdict per entry: the comparand it covers, or `None`
    /// for an entry in force.
    pub closed spec fn verdicts(&self) -> Seq<Option<Comparand>> {
        self.inert@
    }

    /// Comparand (a) as the install resolved it.
    pub closed spec fn operator_view(&self) -> Option<Seq<Seq<u8>>> {
        opt_view(self.operator)
    }

    /// Comparand (b) as the install resolved it.
    pub closed spec fn binding_writer_view(&self) -> Option<Seq<Seq<u8>>> {
        opt_view(self.binding_writer)
    }

    /// The node prefix the off-board test ran against.
    pub closed spec fn prefix_in_force(&self) -> Option<Seq<u8>> {
        prefix_view(self.node_prefix)
    }

    /// The header as issued.
    pub closed spec fn header_view(&self) -> (Option<Seq<Seq<u8>>>, Option<Seq<Seq<u8>>>) {
        (opt_view(self.issue.header.operator), opt_view(self.issue.header.binding_writer))
    }

    /// An entry and its verdict are built together: one verdict per entry,
    /// each the install's rule against the resolved comparands.
    #[verifier::type_invariant]
    closed spec fn judged_together(&self) -> bool {
        &&& self.inert@.len() == self.issue.entries@.len()
        &&& forall|i: int|
            0 <= i < self.inert@.len() ==> #[trigger] self.inert@[i] == verdict(
                self.issue.entries@[i].prefix@,
                opt_view(self.operator),
                opt_view(self.binding_writer),
            )
    }

    /// Every verdict is the install's rule on its entry.
    pub fn verdict_facts(&self)
        ensures
            self.verdicts().len() == self.entries().len(),
            forall|i: int|
                0 <= i < self.verdicts().len() ==> #[trigger] self.verdicts()[i] == verdict(
                    self.entries()[i].0,
                    self.operator_view(),
                    self.binding_writer_view(),
                ),
    {
        proof {
            use_type_invariant(self);
        }
    }

    /// No supply: no entry, no comparand, no prefix.
    pub fn empty() -> (l: BlockedPrefixes)
        ensures
            l.entries().len() == 0,
            l.verdicts().len() == 0,
            l.operator_view() is None,
            l.binding_writer_view() is None,
            l.prefix_in_force() is None,
            l.header_view() == (None::<Seq<Seq<u8>>>, None::<Seq<Seq<u8>>>),
    {
        let l = BlockedPrefixes {
            issue: BlockedIssue {
                header: BlockedHeader { operator: None, binding_writer: None },
                entries: Vec::new(),
            },
            inert: Vec::new(),
            operator: None,
            binding_writer: None,
            node_prefix: None,
        };
        assert(entry_views(l.issue.entries@) =~= Seq::empty());
        l
    }

    /// THE INSTALL'S COMPARISON: an entry covering (a) the configured
    /// operator account — the claimant where the header names none — or
    /// (b), where that account is not an account of this board, the
    /// board's binding-writing account — the claimant where the header
    /// omits it — is INERT; every other entry blocks. Cover, never descent:
    /// an entry below a comparand blocks as before.
    pub fn installed_under(
        issue: BlockedIssue,
        claimant: Option<&Address>,
        node_prefix: Option<&NodePrefix>,
    ) -> (l: BlockedPrefixes)
        ensures
            l.entries() == entry_views(issue.entries@),
            l.header_view() == (opt_view(issue.header.operator), opt_view(issue.header.binding_writer)),
            l.operator_view() == resolved_operator(
                opt_view(issue.header.operator),
                match claimant {
                    Some(c) => Some(c@),
                    None => None,
                },
            ),
            l.binding_writer_view() == resolved_binding_writer(
                opt_view(issue.header.operator),
                opt_view(issue.header.binding_writer),
                match claimant {
                    Some(c) => Some(c@),
                    None => None,
                },
                match node_prefix {
                    Some(p) => Some(p@),
                    None => None,
                },
            ),
            l.prefix_in_force() == match node_prefix {
                Some(p) => Some(p@),
                None => None::<Seq<u8>>,
            },
            l.verdicts().len() == issue.entries@.len(),
            forall|i: int|
                0 <= i < l.verdicts().len() ==> #[trigger] l.verdicts()[i] == verdict(
                    issue.entries@[i].prefix@,
                    l.operator_view(),
                    l.binding_writer_view(),
                ),
            installed_as(
                l,
                entry_views(issue.entries@),
                (opt_view(issue.header.operator), opt_view(issue.header.binding_writer)),
                match claimant {
                    Some(c) => Some(c@),
                    None => None,
                },
                match node_prefix {
                    Some(p) => Some(p@),
                    None => None,
                },
            ),
    {
        let operator = match &issue.header.operator {
            Some(a) => Some(a.duplicate()),
            None => dup_opt(claimant),
        };
        let off = match (&issue.header.operator, node_prefix) {
            (Some(named), Some(p)) => {
                let pa = p.address();
                !pa.contains(named)
            },
            _ => false,
        };
        let binding_writer = if off {
            match &issue.header.binding_writer {
                Some(a) => Some(a.duplicate()),
                None => dup_opt(claimant),
            }
        } else {
            None
        };
        let mut inert: Vec<Option<Comparand>> = Vec::new();
        let mut i: usize = 0;
        while i < issue.entries.len()
            invariant
                0 <= i <= issue.entries@.len(),
                inert@.len() == i,
                forall|j: int|
                    0 <= j < i ==> #[trigger] inert@[j] == verdict(
                        issue.entries@[j].prefix@,
                        opt_view(operator),
                        opt_view(binding_writer),
                    ),
            decreases issue.entries@.len() - i,
        {
            let prefix = &issue.entries[i].prefix;
            let v = if covers_opt(prefix, &operator) {
                Some(Comparand::Operator)
            } else if covers_opt(prefix, &binding_writer) {
                Some(Comparand::BindingWriter)
            } else {
                None
            };
            inert.push(v);
            i = i + 1;
        }
        let node_prefix = match node_prefix {
            Some(p) => Some(p.duplicate()),
            None => None,
        };
        BlockedPrefixes { issue, inert, operator, binding_writer, node_prefix }
    }

    /// THE CLAIM FLIP's install: the issue in force compared again, whole,
    /// against the comparands as they now stand — the claimant the header
    /// defers to first exists at the claim. The entries and the header are
    /// the issue's, unchanged.
    pub fn reinstalled_under(&self, claimant: Option<&Address>, node_prefix: Option<&NodePrefix>) -> (l: BlockedPrefixes)
        ensures
            installed_as(
                l,
                self.entries(),
                self.header_view(),
                match claimant {
                    Some(c) => Some(c@),
                    None => None,
                },
                match node_prefix {
                    Some(p) => Some(p@),
                    None => None,
                },
            ),
    {
        let issue = self.issue.duplicate();
        let l = BlockedPrefixes::installed_under(issue, claimant, node_prefix);
        l.verdict_facts();
        l
    }

    /// The one predicate: `Some` iff some entry IN FORCE contains
    /// `account`, carrying the record of the LONGEST covering prefix; two
    /// entries of one depth tie, and the first in supply order answers.
    pub fn covers(&self, account: &Address) -> (r: Option<&Address>)
        ensures
            match r {
                None => forall|j: int|
                    0 <= j < self.entries().len() ==> !#[trigger] blocks(self.verdicts(), self.entries(), account@, j),
                Some(rec) => exists|i: int|
                    #![trigger blocks(self.verdicts(), self.entries(), account@, i)]
                    0 <= i < self.entries().len() && blocks(self.verdicts(), self.entries(), account@, i)
                        && rec@ == self.entries()[i].1 && longest_first(
                        self.verdicts(),
                        self.entries(),
                        account@,
                        i,
                    ),
            },
            match r {
                Some(rec) => cover_of(self.verdicts(), self.entries(), account@) == Some(rec@),
                None => cover_of(self.verdicts(), self.entries(), account@) is None,
            },
    {
        proof {
            use_type_invariant(self);
        }
        let ghost es = self.entries();
        let ghost vs = self.verdicts();
        let ghost acc = account@;
        let n = self.issue.entries.len();
        let mut best: Option<usize> = None;
        let mut i: usize = 0;
        while i < n
            invariant
                0 <= i <= n,
                n == es.len(),
                es == self.entries(),
                vs == self.verdicts(),
                vs.len() == n,
                acc == account@,
                match best {
                    None => forall|j: int| 0 <= j < i ==> !#[trigger] blocks(vs, es, acc, j),
                    Some(b) => b < i && blocks(vs, es, acc, b as int) && longest_first(
                        vs,
                        es.take(i as int),
                        acc,
                        b as int,
                    ),
                },
            decreases n - i,
        {
            let entry = &self.issue.entries[i];
            let here = self.inert[i].is_none() && entry.prefix.contains(account);
            proof {
                assert(es[i as int].0 == entry.prefix@);
                assert(here == blocks(vs, es, acc, i as int));
            }
            let ghost before = best;
            if here {
                match best {
                    None => {
                        best = Some(i);
                    },
                    Some(b) => {
                        let held = &self.issue.entries[b];
                        proof {
                            assert(es[b as int].0 == held.prefix@);
                        }
                        if entry.prefix.depth() > held.prefix.depth() {
                            best = Some(i);
                        }
                    },
                }
            }
            proof {
                let t = es.take(i + 1);
                assert forall|j: int| 0 <= j < t.len() implies #[trigger] t[j] == es[j] by {}
                match best {
                    Some(b) => {
                        assert forall|j: int|
                            0 <= j < t.len() && #[trigger] blocks(vs, t, acc, j) implies t[j].0.len() <= t[b as int].0.len() by {
                            assert(t[j] == es[j]);
                            if j < i {
                                assert(es.take(i as int)[j] == es[j]);
                                assert(blocks(vs, es.take(i as int), acc, j));
                                match before {
                                    Some(b0) => {
                                        assert(es.take(i as int)[b0 as int] == es[b0 as int]);
                                    },
                                    None => {
                                        assert(blocks(vs, es, acc, j));
                                    },
                                }
                            }
                        }
                        assert forall|j: int|
                            0 <= j < b && #[trigger] blocks(vs, t, acc, j) implies t[j].0.len() < t[b as int].0.len() by {
                            assert(t[j] == es[j]);
                            assert(es.take(i as int)[j] == es[j]);
                            assert(blocks(vs, es.take(i as int), acc, j));
                            match before {
                                Some(b0) => {
                                    assert(es.take(i as int)[b0 as int] == es[b0 as int]);
                                },
                                None => {
                                    assert(blocks(vs, es, acc, j));
                                },
                            }
                        }
                        assert(longest_first(vs, t, acc, b as int));
                    },
                    None => {},
                }
            }
            i = i + 1;
        }
        assert(es.take(n as int) =~= es);
        match best {
            Some(b) => {
                let rec = &self.issue.entries[b].record;
                proof {
                    assert(es[b as int].1 == rec@);
                    let j = choose|j: int| 0 <= j < es.len() && #[trigger] blocks(vs, es, acc, j) && longest_first(vs, es, acc, j);
                    lemma_longest_first_unique(vs, es, acc, b as int, j);
                }
                Some(rec)
            },
            None => None,
        }
    }

    /// The header as issued.
    pub fn header(&self) -> (h: &BlockedHeader)
        ensures
            (opt_view(h.operator), opt_view(h.binding_writer)) == self.header_view(),
    {
        &self.issue.header
    }

    /// The install's verdicts, one per entry in supply order.
    pub fn inert(&self) -> (v: &Vec<Option<Comparand>>)
        ensures
            v@ == self.verdicts(),
    {
        &self.inert
    }

    /// The node prefix the off-board test ran against, or `None` where the
    /// test was off.
    pub fn node_prefix(&self) -> (p: Option<&NodePrefix>)
        ensures
            match p {
                Some(x) => self.prefix_in_force() == Some(x@),
                None => self.prefix_in_force() is None,
            },
    {
        match &self.node_prefix {
            Some(p) => Some(p),
            None => None,
        }
    }

    /// The entries in force — every entry of the issue but the inert ones.
    pub fn in_force(&self) -> (n: usize)
        ensures
            n == count_in_force(self.verdicts()),
    {
        let mut n: usize = 0;
        let mut i: usize = 0;
        while i < self.inert.len()
            invariant
                0 <= i <= self.inert@.len(),
                n == count_in_force(self.inert@.take(i as int)),
                n <= i,
            decreases self.inert@.len() - i,
        {
            proof {
                assert(self.inert@.take(i + 1).drop_last() =~= self.inert@.take(i as int));
            }
            if self.inert[i].is_none() {
                n = n + 1;
            }
            i = i + 1;
        }
        assert(self.inert@.take(i as int) =~= self.inert@);
        n
    }

    /// Whether the ISSUE carries no entries — asked of the issue, never of
    /// the entries in force: an all-inert issue has something to say.
    pub fn issue_is_empty(&self) -> (r: bool)
        ensures
            r == (self.entries().len() == 0),
    {
        self.issue.entries.len() == 0
    }
}

impl BlockedPrefixes {
    /// The node prefix the off-board test ran against, as spelled.
    pub closed spec fn prefix_spelled(&self) -> Option<Seq<char>> {
        match self.node_prefix {
            Some(p) => Some(p.spelled()),
            None => None,
        }
    }

    /// THE LOG: one line naming the count, the header as resolved and the
    /// node prefix the off-board test ran against — or that the test was
    /// off — then one line per INERT entry, by name, with the comparand it
    /// covers. Entries in force are counted and not listed.
    pub fn log_lines(&self) -> (lines: Vec<String>)
        ensures
            string_views(lines@) == seq![
                summary_line(
                    count_in_force(self.verdicts()),
                    self.entries().len(),
                    named_text(self.header_view().0, self.operator_view(), "the header names none"@),
                    writer_text(self.header_view().1, self.binding_writer_view(), self.prefix_spelled()),
                ),
            ] + inert_lines(self.entries(), self.verdicts(), self.operator_view(), self.binding_writer_view()),
    {
        proof {
            use_type_invariant(self);
        }
        let operator = named_exec(&self.issue.header.operator, &self.operator, "the header names none");
        let writer = match (&self.binding_writer, &self.node_prefix) {
            (Some(_), Some(prefix)) => {
                let mut s = named_exec(&self.issue.header.binding_writer, &self.binding_writer, "the header omits it");
                s.append(" — exempt, the operator account being off-board (not under the node prefix ");
                s.append(prefix.as_str());
                s.append(")");
                s
            },
            (Some(_), None) => {
                let mut s = named_exec(&self.issue.header.binding_writer, &self.binding_writer, "the header omits it");
                s.append(" — exempt, the operator account being off-board");
                s
            },
            (None, Some(prefix)) => {
                let mut s = "not a comparand (the operator account is an account of this board — under the node prefix ".to_string();
                s.append(prefix.as_str());
                s.append(", or the claimant taken in the header's place — or there is none)");
                s
            },
            (None, None) => "not a comparand (no --node-prefix: the off-board test is off; a hosted board must supply one)".to_string(),
        };
        let in_force = self.in_force();
        let total = self.issue.entries.len();
        proof {
            lemma_count_in_force_bound(self.inert@);
        }
        let mut first = text::u64_to_string(in_force as u64);
        first.append(" of ");
        let t = text::u64_to_string(total as u64);
        first.append(t.as_str());
        first.append(" entries in force, ");
        let k = text::u64_to_string((total - in_force) as u64);
        first.append(k.as_str());
        first.append(" inert; operator account ");
        first.append(operator.as_str());
        first.append("; binding-writing account ");
        first.append(writer.as_str());
        let mut lines: Vec<String> = Vec::new();
        lines.push(first);
        let ghost es = self.entries();
        let ghost vs = self.verdicts();
        let ghost op = self.operator_view();
        let ghost bw = self.binding_writer_view();
        let ghost head = string_views(lines@);
        let mut i: usize = 0;
        while i < total
            invariant
                0 <= i <= total,
                total == es.len(),
                vs.len() == total,
                es == self.entries(),
                vs == self.verdicts(),
                op == self.operator_view(),
                bw == self.binding_writer_view(),
                head.len() == 1,
                string_views(lines@) == head + inert_lines(es.take(i as int), vs.take(i as int), op, bw),
            decreases total - i,
        {
            let entry = &self.issue.entries[i];
            let ghost before = lines@;
            proof {
                let te = es.take(i + 1);
                let tv = vs.take(i + 1);
                assert(te.drop_last() =~= es.take(i as int));
                assert(tv.take(te.len() - 1) =~= vs.take(i as int));
                assert(te.last() == es[i as int]);
                assert(tv[te.len() - 1] == vs[i as int]);
                assert(es[i as int] == (entry.prefix@, entry.record@));
            }
            match self.inert[i] {
                None => {
                    proof {
                        assert(self.inert@[i as int] == vs[i as int]);
                    }
                },
                Some(c) => {
                    let (covered, exempted) = match c {
                        Comparand::Operator => ("the configured operator account", &self.operator),
                        Comparand::BindingWriter => ("the board's binding-writing account", &self.binding_writer),
                    };
                    let mut line = "entry ".to_string();
                    let p = entry.prefix.to_text();
                    line.append(p.as_str());
                    line.append(" (record ");
                    let r = entry.record.to_text();
                    line.append(r.as_str());
                    line.append(") is INERT — it covers ");
                    line.append(covered);
                    match exempted {
                        Some(a) => {
                            line.append(" ");
                            let at = a.to_text();
                            line.append(at.as_str());
                        },
                        None => {},
                    }
                    line.append("; ignored");
                    proof {
                        assert(self.inert@[i as int] == vs[i as int]);
                        assert(line@ == inert_line(entry.prefix@, entry.record@, c, op, bw));
                    }
                    lines.push(line);
                    proof {
                        assert(string_views(lines@) =~= string_views(before).push(lines@.last()@));
                    }
                },
            }
            i = i + 1;
        }
        assert(es.take(total as int) =~= es);
        assert(vs.take(total as int) =~= vs);
        lines
    }
}

proof fn lemma_count_in_force_bound(v: Seq<Option<Comparand>>)
    ensures
        count_in_force(v) <= v.len(),
    decreases v.len(),
{
    if v.len() > 0 {
        lemma_count_in_force_bound(v.drop_last());
    }
}

impl Default for BlockedPrefixes {
    /// No supply: nothing is blocked.
    fn default() -> (l: BlockedPrefixes)
        ensures
            l.entries().len() == 0,
            l.verdicts().len() == 0,
            l.operator_view() is None,
            l.binding_writer_view() is None,
            l.prefix_in_force() is None,
    {
        BlockedPrefixes::empty()
    }
}

/// Cover, never descent: an entry whose prefix lies strictly below every
/// comparand there is covers none of them, and stays in force.
pub proof fn law_below_every_comparand_stays_in_force(
    prefix: Seq<Seq<u8>>,
    operator: Option<Seq<Seq<u8>>>,
    writer: Option<Seq<Seq<u8>>>,
)
    requires
        operator matches Some(o) ==> o.len() < prefix.len(),
        writer matches Some(w) ==> w.len() < prefix.len(),
    ensures
        verdict(prefix, operator, writer) is None,
{
}

/// The claimant taken in the header's place is never tested: where the
/// header names no operator the test is off, comparand (b) is silent, and
/// (a) is the claimant.
pub proof fn law_an_unnamed_operator_is_on_board(
    writer: Option<Seq<Seq<u8>>>,
    claimant: Option<Seq<Seq<u8>>>,
    node_prefix: Option<Seq<u8>>,
)
    ensures
        !off_board(None, node_prefix),
        resolved_binding_writer(None, writer, claimant, node_prefix) is None,
        resolved_operator(None, claimant) == claimant,
{
}

} // verus!
