//! A derived sidecar's bookkeeping: reading its whole lines back as records
//! (trust ends at the first torn line), what replaying them yields (the
//! coverage, the entries that belong to this journal, and whether any line
//! belongs to another), and the coverage claim its appends, fences and
//! rewrites move — stopped for good by the first failed append, so the
//! claim never rises past a position the file lost; the lines an append or
//! a fence writes; and how opening closes each file at the journal's head.

use vstd::prelude::*;
use vstd::string::*;
use crate::json::{
    canonical, given_views, json_read, json_top, lookup, member, obj, render_object, render_pairs, JsonTop,
    JsonTopView, Member, MemberView, Scalar, ScalarView,
};

verus! {

/// One whole line of a derived file: a coverage fence, or an entry for a
/// position.
#[derive(Clone, Copy, Debug, PartialEq, Eq, Structural)]
pub enum Record {
    Fence(u64),
    Entry(u64),
}

/// The position a line speaks of: a fence's coverage or an entry's position.
pub open spec fn record_pos(r: Record) -> u64 {
    match r {
        Record::Fence(n) => n,
        Record::Entry(at) => at,
    }
}

/// The coverage replay reads: the greatest position at or below `head`
/// that any line speaks of, or zero.
pub open spec fn replay_coverage(rs: Seq<Record>, head: u64) -> u64
    decreases rs.len(),
{
    if rs.len() == 0 {
        0
    } else {
        let c = replay_coverage(rs.drop_last(), head);
        let n = record_pos(rs.last());
        if n <= head && n > c {
            n
        } else {
            c
        }
    }
}

/// What replaying a derived file yields.
pub struct Replay {
    /// Every position at or below this is processed into the file.
    pub coverage: u64,
    /// The indices of the entries at or below the head, in file order.
    pub kept: Vec<usize>,
    /// Whether some line speaks of a position past the head — another
    /// journal's, to be purged by a rewrite.
    pub foreign: bool,
}

/// The replayed coverage is the greatest position at or below the head that
/// any line names, fence and entry alike: no such line names more, and a
/// coverage above zero is named by one of them.
pub proof fn law_replay_coverage_is_the_highest_line(rs: Seq<Record>, head: u64)
    ensures
        forall|i: int|
            0 <= i < rs.len() && record_pos(#[trigger] rs[i]) <= head ==> record_pos(rs[i])
                <= replay_coverage(rs, head),
        replay_coverage(rs, head) <= head,
        replay_coverage(rs, head) == 0 || exists|i: int|
            0 <= i < rs.len() && record_pos(#[trigger] rs[i]) == replay_coverage(rs, head),
    decreases rs.len(),
{
    if rs.len() > 0 {
        let p = rs.drop_last();
        law_replay_coverage_is_the_highest_line(p, head);
        assert forall|i: int|
            0 <= i < rs.len() && record_pos(#[trigger] rs[i]) <= head implies record_pos(rs[i])
                <= replay_coverage(rs, head) by {
            if i < p.len() {
                assert(rs[i] == p[i]);
            }
        }
        if replay_coverage(rs, head) != 0 {
            if replay_coverage(rs, head) == replay_coverage(p, head) {
                let i = choose|i: int| 0 <= i < p.len() && record_pos(#[trigger] p[i]) == replay_coverage(p, head);
                assert(rs[i] == p[i]);
            } else {
                assert(record_pos(rs[rs.len() - 1]) == replay_coverage(rs, head));
            }
        }
    }
}

/// Replay a derived file's lines against the journal's `head`.
pub fn replay(rs: &Vec<Record>, head: u64) -> (r: Replay)
    ensures
        r.coverage == replay_coverage(rs@, head),
        r.foreign <==> exists|i: int| 0 <= i < rs@.len() && record_pos(#[trigger] rs@[i]) > head,
        forall|a: int, b: int| 0 <= a < b < r.kept@.len() ==> r.kept@[a] < r.kept@[b],
        forall|i: int|
            0 <= i < rs@.len() ==> (r.kept@.contains(i as usize) <==> (#[trigger] rs@[i] is Entry
                && record_pos(rs@[i]) <= head)),
        forall|k: int| 0 <= k < r.kept@.len() ==> r.kept@[k] < rs@.len(),
{
    let mut coverage: u64 = 0;
    let mut kept: Vec<usize> = Vec::new();
    let mut foreign = false;
    let mut i: usize = 0;
    while i < rs.len()
        invariant
            0 <= i <= rs@.len(),
            coverage == replay_coverage(rs@.take(i as int), head),
            foreign <==> exists|j: int| 0 <= j < i && record_pos(#[trigger] rs@[j]) > head,
            forall|a: int, b: int| 0 <= a < b < kept@.len() ==> kept@[a] < kept@[b],
            forall|k: int| 0 <= k < kept@.len() ==> kept@[k] < i,
            forall|j: int|
                0 <= j < i ==> (kept@.contains(j as usize) <==> (#[trigger] rs@[j] is Entry
                    && record_pos(rs@[j]) <= head)),
        decreases rs@.len() - i,
    {
        let r = rs[i];
        let n = match r {
            Record::Fence(n) => n,
            Record::Entry(at) => at,
        };
        assert(rs@.take(i + 1).drop_last() =~= rs@.take(i as int));
        let ghost old_kept = kept@;
        if n <= head {
            if n > coverage {
                coverage = n;
            }
            if let Record::Entry(_) = r {
                kept.push(i);
                proof {
                    assert forall|j: int| 0 <= j < i + 1 implies (kept@.contains(j as usize) <==> (
                        #[trigger] rs@[j] is Entry && record_pos(rs@[j]) <= head)) by {
                        if kept@.contains(j as usize) {
                            let k = choose|k: int| 0 <= k < kept@.len() && kept@[k] == j as usize;
                            if k < old_kept.len() {
                                assert(old_kept[k] == j as usize);
                            }
                        }
                        if j < i && old_kept.contains(j as usize) {
                            let k = choose|k: int| 0 <= k < old_kept.len() && old_kept[k] == j as usize;
                            assert(kept@[k] == j as usize);
                        }
                        if j == i {
                            assert(kept@[kept@.len() - 1] == i);
                        }
                    }
                }
            } else {
                proof {
                    assert forall|j: int| 0 <= j < i + 1 implies (kept@.contains(j as usize) <==> (
                        #[trigger] rs@[j] is Entry && record_pos(rs@[j]) <= head)) by {
                        if j == i && kept@.contains(j as usize) {
                            let k = choose|k: int| 0 <= k < kept@.len() && kept@[k] == j as usize;
                        }
                    }
                }
            }
        } else {
            foreign = true;
            proof {
                assert forall|j: int| 0 <= j < i + 1 implies (kept@.contains(j as usize) <==> (
                    #[trigger] rs@[j] is Entry && record_pos(rs@[j]) <= head)) by {
                    if j == i && kept@.contains(j as usize) {
                        let k = choose|k: int| 0 <= k < kept@.len() && kept@[k] == j as usize;
                    }
                }
                assert(record_pos(rs@[i as int]) > head);
            }
        }
        i = i + 1;
    }
    assert(rs@.take(i as int) =~= rs@);
    Replay { coverage, kept, foreign }
}


/// The record a line's document is: an object with a `covered` number is
/// a fence; else one with an `at` number is an entry; anything else — no
/// object, a field that is no `u64` — is torn.
pub open spec fn doc_record(t: JsonTopView) -> Option<Record> {
    match t {
        JsonTopView::Object(m) => match lookup(m, "covered"@) {
            Some(MemberView::Number(Some(n))) => Some(Record::Fence(n)),
            Some(_) => None,
            None => match lookup(m, "at"@) {
                Some(MemberView::Number(Some(at))) => Some(Record::Entry(at)),
                _ => None,
            },
        },
        JsonTopView::NotObject => None,
    }
}

/// The record one line's JSON reads as: bytes that are no JSON are torn.
pub open spec fn line_record(read: Result<JsonTopView, Seq<char>>) -> Option<Record> {
    match read {
        Ok(t) => doc_record(t),
        Err(_) => None,
    }
}

/// The first newline at or after `pos`, if any.
pub open spec fn next_newline(b: Seq<u8>, pos: int) -> Option<int>
    decreases b.len() - pos,
{
    if pos < 0 || pos >= b.len() {
        None
    } else if b[pos] == 10u8 {
        Some(pos)
    } else {
        next_newline(b, pos + 1)
    }
}

/// The records of the whole newline-terminated lines from `pos` on, and
/// the offset after the last of them: trust ends at the first line that is
/// torn — unterminated, or no record.
pub open spec fn records_from(b: Seq<u8>, pos: int) -> (Seq<Record>, int)
    decreases b.len() - pos,
{
    if pos < 0 || pos >= b.len() {
        (Seq::empty(), pos)
    } else {
        match next_newline(b, pos) {
            None => (Seq::empty(), pos),
            Some(nl) => if nl < pos || nl >= b.len() {
                (Seq::empty(), pos)
            } else {
                match line_record(json_read(b.subrange(pos, nl))) {
                    None => (Seq::empty(), pos),
                    Some(r) => {
                        let rest = records_from(b, nl + 1);
                        (seq![r] + rest.0, rest.1)
                    },
                }
            },
        }
    }
}

proof fn lemma_next_newline(b: Seq<u8>, pos: int)
    requires
        0 <= pos,
    ensures
        next_newline(b, pos) matches Some(nl) ==> pos <= nl < b.len() && b[nl] == 10u8 && forall|k: int|
            pos <= k < nl ==> b[k] != 10u8,
        next_newline(b, pos) is None ==> forall|k: int| pos <= k < b.len() ==> b[k] != 10u8,
    decreases b.len() - pos,
{
    if pos < b.len() && b[pos] != 10u8 {
        lemma_next_newline(b, pos + 1);
    }
}

/// The record a line's parsed document is.
pub fn record_of(t: &JsonTop) -> (r: Option<Record>)
    ensures
        r == doc_record(t@),
{
    match t {
        JsonTop::NotObject => None,
        JsonTop::Object(m) => match member(m, "covered") {
            Some(Member::Number(Some(n))) => Some(Record::Fence(*n)),
            Some(_) => None,
            None => match member(m, "at") {
                Some(Member::Number(Some(at))) => Some(Record::Entry(*at)),
                _ => None,
            },
        },
    }
}

/// One line's record.
fn parse_line(line: &[u8]) -> (r: Option<Record>)
    ensures
        r == line_record(json_read(line@)),
{
    match json_top(line) {
        Err(_) => None,
        Ok(t) => record_of(&t),
    }
}

/// The records of a derived file's bytes and the offset after the last
/// whole line that read as one — where a torn tail is cut.
pub fn parse_records(bytes: &[u8]) -> (r: (Vec<Record>, usize))
    ensures
        r.0@ == records_from(bytes@, 0).0,
        r.1 as int == records_from(bytes@, 0).1,
{
    let ghost b = bytes@;
    let mut out: Vec<Record> = Vec::new();
    let mut pos: usize = 0;
    loop
        invariant
            0 <= pos <= b.len(),
            b == bytes@,
            records_from(b, 0).0 == out@ + records_from(b, pos as int).0,
            records_from(b, 0).1 == records_from(b, pos as int).1,
        decreases b.len() - pos,
    {
        if pos >= bytes.len() {
            assert(records_from(b, pos as int).0 =~= Seq::<Record>::empty());
            assert(out@ + Seq::<Record>::empty() =~= out@);
            return (out, pos);
        }
        proof {
            lemma_next_newline(b, pos as int);
        }
        let mut nl: usize = pos;
        while nl < bytes.len() && bytes[nl] != 10u8
            invariant
                pos <= nl <= b.len(),
                b == bytes@,
                next_newline(b, pos as int) == next_newline(b, nl as int),
            decreases b.len() - nl,
        {
            nl = nl + 1;
        }
        if nl >= bytes.len() {
            assert(next_newline(b, nl as int) is None);
            assert(records_from(b, pos as int).0 =~= Seq::<Record>::empty());
            assert(out@ + Seq::<Record>::empty() =~= out@);
            return (out, pos);
        }
        assert(next_newline(b, pos as int) == Some(nl as int));
        let line = crate::text::slice_range(bytes, pos, nl);
        match parse_line(line) {
            None => {
                assert(records_from(b, pos as int).0 =~= Seq::<Record>::empty());
                assert(out@ + Seq::<Record>::empty() =~= out@);
                return (out, pos);
            },
            Some(rec) => {
                let ghost before = out@;
                out.push(rec);
                assert(out@ + records_from(b, nl + 1).0 =~= before + (seq![rec] + records_from(b, nl + 1).0));
                pos = nl + 1;
            },
        }
    }
}

/// A record's members: its fields with its position added under `at`,
/// after them, so a field named `at` gives way to the position.
pub open spec fn record_pairs(at: u64, fields: Seq<(Seq<u8>, ScalarView)>) -> Seq<(Seq<u8>, ScalarView)> {
    fields.push(("at".spec_bytes(), ScalarView::Number(at as nat)))
}

/// A record's line: its members as one JSON object, keys sorted and the
/// last pair for a key winning, then a newline.
pub open spec fn record_line(at: u64, fields: Seq<(Seq<u8>, ScalarView)>) -> Seq<u8> {
    render_object(canonical(record_pairs(at, fields))) + seq![10u8]
}

/// A fence's line: `{"covered":N}` and a newline.
pub open spec fn fence_line(covered: u64) -> Seq<u8> {
    render_object(seq![("covered".spec_bytes(), ScalarView::Number(covered as nat))]) + seq![10u8]
}

/// The line that records `at` with the file's own fields — one shape for
/// an appended line and a rewritten one.
pub fn record_bytes(at: u64, fields: Vec<(&str, Scalar)>) -> (r: Vec<u8>)
    ensures
        r@ == record_line(at, given_views(fields@)),
{
    let ghost given = given_views(fields@);
    let mut pairs = fields;
    pairs.push(("at", Scalar::Number(at)));
    assert(given_views(pairs@) =~= record_pairs(at, given));
    let o = obj(pairs);
    let mut r = o.to_bytes();
    r.push(10u8);
    r
}

/// The line of a fence at `covered`.
pub fn fence_bytes(covered: u64) -> (r: Vec<u8>)
    ensures
        r@ == fence_line(covered),
{
    let pairs: Vec<(&str, Scalar)> = vec![("covered", Scalar::Number(covered))];
    assert(given_views(pairs@) =~= seq![("covered".spec_bytes(), ScalarView::Number(covered as nat))]);
    let mut r = render_pairs(&pairs);
    r.push(10u8);
    r
}

/// A derived file's coverage claim and whether a failed append stopped it.
/// The file itself is the caller's; this is what decides what is written
/// and what the file claims.
pub struct DerivedFile {
    coverage: u64,
    stopped: bool,
}

/// The claim as plain values.
pub struct DerivedView {
    pub coverage: u64,
    pub stopped: bool,
}

impl View for DerivedFile {
    type V = DerivedView;

    closed spec fn view(&self) -> DerivedView {
        DerivedView { coverage: self.coverage, stopped: self.stopped }
    }
}

/// An append's effect: a stopped file is left as it is; a failed write
/// stops the file, its coverage where it stood; a written one raises the
/// coverage to the position if it is higher.
pub open spec fn append_spec(s: DerivedView, at: u64, written: bool) -> DerivedView {
    if s.stopped {
        s
    } else if !written {
        DerivedView { coverage: s.coverage, stopped: true }
    } else {
        DerivedView { coverage: if at > s.coverage { at } else { s.coverage }, stopped: false }
    }
}

/// Whether a fence at `covered` is to be written: never on a stopped file,
/// and only where it claims more than the file does.
pub open spec fn fence_wanted(s: DerivedView, covered: u64) -> bool {
    !s.stopped && covered > s.coverage
}

impl DerivedFile {
    /// The claim a replay left, not stopped.
    pub fn open(coverage: u64) -> (f: DerivedFile)
        ensures
            f@ == (DerivedView { coverage: coverage, stopped: false }),
    {
        DerivedFile { coverage, stopped: false }
    }

    /// Every position at or below this is processed into the file.
    pub fn coverage(&self) -> (c: u64)
        ensures
            c == self@.coverage,
    {
        self.coverage
    }

    /// Whether appends are still written: a file a failed append stopped
    /// takes nothing more.
    pub fn takes_appends(&self) -> (b: bool)
        ensures
            b == !self@.stopped,
    {
        !self.stopped
    }

    /// The line an append of `at` writes: none on a stopped file, which
    /// takes nothing more; else the record's line.
    pub fn append_line(&self, at: u64, fields: Vec<(&str, Scalar)>) -> (r: Option<Vec<u8>>)
        ensures
            if self@.stopped {
                r is None
            } else {
                r matches Some(l) && l@ == record_line(at, given_views(fields@))
            },
    {
        if self.stopped {
            None
        } else {
            Some(record_bytes(at, fields))
        }
    }

    /// The line a fence at `covered` writes: none where no fence is wanted
    /// (a stopped file, or one that already claims as much).
    pub fn fence_line(&self, covered: u64) -> (r: Option<Vec<u8>>)
        ensures
            if fence_wanted(self@, covered) {
                r matches Some(l) && l@ == fence_line(covered)
            } else {
                r is None
            },
    {
        if self.stopped || covered <= self.coverage {
            None
        } else {
            Some(fence_bytes(covered))
        }
    }

    /// Record an append of `at` whose write did (`written`) or did not
    /// succeed. Answers whether to report a failure: only the append that
    /// raised it does; a stopped file answers no, since it was reported once.
    pub fn append(&mut self, at: u64, written: bool) -> (failed: bool)
        ensures
            final(self)@ == append_spec(old(self)@, at, written),
            failed <==> (!old(self)@.stopped && !written),
    {
        if self.stopped {
            return false;
        }
        if !written {
            self.stopped = true;
            return true;
        }
        if at > self.coverage {
            self.coverage = at;
        }
        false
    }

    /// Whether a fence at `covered` is to be written.
    pub fn fence_wanted(&self, covered: u64) -> (b: bool)
        ensures
            b == fence_wanted(self@, covered),
    {
        !self.stopped && covered > self.coverage
    }

    /// Record a written fence: the file now claims `covered`.
    pub fn fenced(&mut self, covered: u64)
        requires
            fence_wanted(old(self)@, covered),
        ensures
            final(self)@ == (DerivedView { coverage: covered, stopped: false }),
    {
        self.coverage = covered;
    }

    /// Record a rewrite: the whole file written anew behind a fence at
    /// `covered`, which is then its claim.
    pub fn rewritten(&mut self, covered: u64)
        ensures
            final(self)@ == (DerivedView { coverage: covered, stopped: old(self)@.stopped }),
    {
        self.coverage = covered;
    }
}

/// A fence's effect once written: the claim becomes `covered` where a fence
/// was wanted; elsewhere nothing is written and nothing changes.
pub open spec fn fence_spec(s: DerivedView, covered: u64) -> DerivedView {
    if fence_wanted(s, covered) {
        DerivedView { coverage: covered, stopped: false }
    } else {
        s
    }
}

/// The claim after appending each of `tail`, in order, every write landing.
pub open spec fn append_all(s: DerivedView, tail: Seq<u64>) -> DerivedView
    decreases tail.len(),
{
    if tail.len() == 0 {
        s
    } else {
        append_spec(append_all(s, tail.drop_last()), tail.last(), true)
    }
}

proof fn lemma_append_all_stays_below(s: DerivedView, tail: Seq<u64>, head: u64)
    requires
        !s.stopped,
        s.coverage <= head,
        forall|i: int| 0 <= i < tail.len() ==> tail[i] <= head,
    ensures
        !append_all(s, tail).stopped,
        append_all(s, tail).coverage <= head,
    decreases tail.len(),
{
    if tail.len() > 0 {
        lemma_append_all_stays_below(s, tail.drop_last(), head);
    }
}

/// What opening does to each derived file, whichever way it closes it: a
/// replayed file (its claim at or below the head), its missing tail
/// appended at positions at or below the head, then fenced at the head,
/// claims exactly the head; and so does a file rewritten behind a fence at
/// the head.
pub proof fn law_open_fences_at_the_head(s: DerivedView, tail: Seq<u64>, head: u64)
    requires
        !s.stopped,
        s.coverage <= head,
        forall|i: int| 0 <= i < tail.len() ==> tail[i] <= head,
    ensures
        fence_spec(append_all(s, tail), head).coverage == head,
        !fence_spec(append_all(s, tail), head).stopped,
{
    lemma_append_all_stays_below(s, tail, head);
}

/// How opening closes one derived file: its missing tail appended and a
/// fence at the head, or the whole file rewritten from the resident twin.
#[derive(Clone, Copy, Debug, PartialEq, Eq, Structural)]
pub enum Closing {
    TailThenFence,
    Rewrite,
}

/// The four derived files.
#[derive(Clone, Copy, Debug, PartialEq, Eq, Structural)]
pub enum Sidecar {
    Index,
    Offsets,
    Masked,
    Streams,
}

/// Whether every recorded offset agrees with the log's: each recorded
/// line's offset (absent where the line carries none that reads as a
/// number) equals the log's offset for that position (absent where the log
/// has none).
pub open spec fn offsets_agree_spec(recorded: Seq<(u64, Option<u64>)>, log: Seq<(u64, u64)>) -> bool {
    forall|i: int| 0 <= i < recorded.len() ==> (#[trigger] recorded[i]).1 == offset_of(log, recorded[i].0)
}

/// The log's offset for `at`, if it has one.
pub open spec fn offset_of(log: Seq<(u64, u64)>, at: u64) -> Option<u64>
    decreases log.len(),
{
    if log.len() == 0 {
        None
    } else if log[0].0 == at {
        Some(log[0].1)
    } else {
        offset_of(log.drop_first(), at)
    }
}

/// The log's offset for `at`.
fn offset_lookup(log: &Vec<(u64, u64)>, at: u64) -> (r: Option<u64>)
    ensures
        r == offset_of(log@, at),
{
    let mut i: usize = 0;
    assert(log@.skip(0) =~= log@);
    while i < log.len()
        invariant
            0 <= i <= log@.len(),
            offset_of(log@, at) == offset_of(log@.skip(i as int), at),
        decreases log@.len() - i,
    {
        let ghost rest = log@.skip(i as int);
        assert(rest[0] == log@[i as int]);
        if log[i].0 == at {
            return Some(log[i].1);
        }
        assert(rest.drop_first() =~= log@.skip(i + 1));
        i = i + 1;
    }
    None
}

/// Whether every recorded offset agrees with the log's.
pub fn offsets_agree(recorded: &Vec<(u64, Option<u64>)>, log: &Vec<(u64, u64)>) -> (r: bool)
    ensures
        r == offsets_agree_spec(recorded@, log@),
{
    let mut i: usize = 0;
    while i < recorded.len()
        invariant
            0 <= i <= recorded@.len(),
            forall|k: int| 0 <= k < i ==> (#[trigger] recorded@[k]).1 == offset_of(log@, recorded@[k].0),
        decreases recorded@.len() - i,
    {
        let (at, off) = recorded[i];
        if off != offset_lookup(log, at) {
            return false;
        }
        i = i + 1;
    }
    true
}

/// How opening closes `file`. The offset array is rewritten when the log
/// was rewritten (compaction moved every offset) or when a recorded offset
/// disagrees with the log's; else it takes its tail and its fence. The
/// other three always take their tail and fence, and are rewritten after
/// when the log was compacted.
pub fn closing(file: Sidecar, log_rewritten: bool, agree: bool) -> (c: Vec<Closing>)
    ensures
        file == Sidecar::Offsets ==> c@ == (if !log_rewritten && agree {
            seq![Closing::TailThenFence]
        } else {
            seq![Closing::Rewrite]
        }),
        file != Sidecar::Offsets ==> c@ == (if log_rewritten {
            seq![Closing::TailThenFence, Closing::Rewrite]
        } else {
            seq![Closing::TailThenFence]
        }),
{
    match file {
        Sidecar::Offsets => if !log_rewritten && agree {
            vec![Closing::TailThenFence]
        } else {
            vec![Closing::Rewrite]
        },
        _ => if log_rewritten {
            vec![Closing::TailThenFence, Closing::Rewrite]
        } else {
            vec![Closing::TailThenFence]
        },
    }
}

/// Once an append has failed, no append claims more: a stopped file's
/// claim stays below the position it lost, whatever is appended after, and
/// no fence is wanted of it.
pub proof fn law_a_stopped_file_claims_no_more(s: DerivedView, at: u64, written: bool, covered: u64)
    requires
        s.stopped,
    ensures
        append_spec(s, at, written) == s,
        !fence_wanted(s, covered),
{
}

/// A failed append stops the file with its claim where it stood.
pub proof fn law_a_failed_append_keeps_the_claim(s: DerivedView, at: u64)
    ensures
        append_spec(s, at, false).coverage == s.coverage,
        append_spec(s, at, false).stopped,
{
}

} // verus!
