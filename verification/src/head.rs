//! The published head: the `skep-head` record's bytes, the 32-byte hex its
//! chain values are read back through, the writer's clock seam, and the
//! cadence that decides when a head is due — on the write path, with no
//! clock thread: a head is due when enough commits that are not the
//! writer's own have LANDED since the last head, or the newest retained
//! checkpoint moved, or enough time passed; never while the position has
//! not moved, and never twice for one position.

use vstd::prelude::*;
use vstd::string::*;
use crate::hex;
use crate::text;

verus! {

broadcast use vstd::utf8::group_utf8_lib;

/// The head record's `format` member — the journal stamp in force.
pub const FORMAT_STAMP: &'static str = "SKJ3";

// ── the record ──────────────────────────────────────────────────────────

/// The `base` member: the checkpoint's seq, chain and body hash, or `null`.
pub open spec fn base_bytes(base: Option<(u64, Seq<u8>, Seq<u8>)>) -> Seq<u8> {
    match base {
        Some((seq, ch, bh)) => "{\"seq\":".spec_bytes() + text::decimal(seq as nat)
            + ",\"chain\":\"".spec_bytes() + hex::hex_encode(ch) + "\",\"body_hash\":\"".spec_bytes()
            + hex::hex_encode(bh) + "\"}".spec_bytes(),
        None => "null".spec_bytes(),
    }
}

/// The `prev` member: the previous head's position and chain, or `null`.
pub open spec fn prev_bytes(prev: Option<(u64, Seq<u8>)>) -> Seq<u8> {
    match prev {
        Some((pos, ch)) => "{\"position\":".spec_bytes() + text::decimal(pos as nat)
            + ",\"chain\":\"".spec_bytes() + hex::hex_encode(ch) + "\"}".spec_bytes(),
        None => "null".spec_bytes(),
    }
}

/// The `skep-head` record's bytes in SCHEMA order (`type`, `format`,
/// `position`, `chain`, `base`, `prev`) with no whitespace, unsigned and
/// with no timestamp — two heads of one board at one position are
/// byte-identical.
pub open spec fn head_record(
    position: u64,
    chain: Seq<u8>,
    base: Option<(u64, Seq<u8>, Seq<u8>)>,
    prev: Option<(u64, Seq<u8>)>,
) -> Seq<u8> {
    "{\"type\":\"skep-head\",\"format\":\"".spec_bytes() + FORMAT_STAMP.spec_bytes()
        + "\",\"position\":".spec_bytes() + text::decimal(position as nat)
        + ",\"chain\":\"".spec_bytes() + hex::hex_encode(chain) + "\",\"base\":".spec_bytes()
        + base_bytes(base) + ",\"prev\":".spec_bytes() + prev_bytes(prev) + "}".spec_bytes()
}

/// A checkpoint triple with its hashes as byte sequences.
pub open spec fn base_view(base: Option<(u64, [u8; 32], [u8; 32])>) -> Option<(u64, Seq<u8>, Seq<u8>)> {
    match base {
        Some((s, c, b)) => Some((s, c@, b@)),
        None => None,
    }
}

/// A previous head with its chain as bytes.
pub open spec fn prev_view(prev: Option<(u64, [u8; 32])>) -> Option<(u64, Seq<u8>)> {
    match prev {
        Some((p, c)) => Some((p, c@)),
        None => None,
    }
}

fn push_hex(v: &mut Vec<u8>, b: &[u8; 32])
    ensures
        final(v)@ == old(v)@ + hex::hex_encode(b@),
{
    let h = hex::hex_bytes(b.as_slice());
    v.extend_from_slice(h.as_slice());
}

/// The `skep-head` record's bytes, hand-marshaled in schema order with no
/// whitespace.
pub fn marshal_head(
    position: u64,
    chain: &[u8; 32],
    base: Option<(u64, [u8; 32], [u8; 32])>,
    prev: Option<(u64, [u8; 32])>,
) -> (r: Vec<u8>)
    ensures
        r@ == head_record(position, chain@, base_view(base), prev_view(prev)),
{
    let mut s: Vec<u8> = Vec::new();
    text::push_str_bytes(&mut s, "{\"type\":\"skep-head\",\"format\":\"");
    text::push_str_bytes(&mut s, FORMAT_STAMP);
    text::push_str_bytes(&mut s, "\",\"position\":");
    let p = text::u64_decimal(position);
    s.extend_from_slice(p.as_slice());
    text::push_str_bytes(&mut s, ",\"chain\":\"");
    push_hex(&mut s, chain);
    text::push_str_bytes(&mut s, "\",\"base\":");
    let ghost before_base = s@;
    match base {
        Some((seq, ch, bh)) => {
            text::push_str_bytes(&mut s, "{\"seq\":");
            let d = text::u64_decimal(seq);
            s.extend_from_slice(d.as_slice());
            text::push_str_bytes(&mut s, ",\"chain\":\"");
            push_hex(&mut s, &ch);
            text::push_str_bytes(&mut s, "\",\"body_hash\":\"");
            push_hex(&mut s, &bh);
            text::push_str_bytes(&mut s, "\"}");
        },
        None => {
            text::push_str_bytes(&mut s, "null");
        },
    }
    assert(s@ =~= before_base + base_bytes(base_view(base)));
    text::push_str_bytes(&mut s, ",\"prev\":");
    let ghost before_prev = s@;
    match prev {
        Some((pos, ch)) => {
            text::push_str_bytes(&mut s, "{\"position\":");
            let d = text::u64_decimal(pos);
            s.extend_from_slice(d.as_slice());
            text::push_str_bytes(&mut s, ",\"chain\":\"");
            push_hex(&mut s, &ch);
            text::push_str_bytes(&mut s, "\"}");
        },
        None => {
            text::push_str_bytes(&mut s, "null");
        },
    }
    assert(s@ =~= before_prev + prev_bytes(prev_view(prev)));
    text::push_str_bytes(&mut s, "}");
    assert(s@ =~= head_record(position, chain@, base_view(base), prev_view(prev)));
    s
}

// ── 32 bytes of hex ─────────────────────────────────────────────────────

/// 64 lowercase hex characters into 32 bytes; `None` on any other shape —
/// the form `hex_string` writes a chain in.
pub fn parse_hex32(s: &str) -> (r: Option<[u8; 32]>)
    ensures
        match hex::lower_hex_decode(s.spec_bytes(), 32) {
            Some(v) => r matches Some(a) && a@ == v,
            None => r is None,
        },
{
    let v = match hex::parse_lower_hex(s, 32) {
        Some(v) => v,
        None => {
            return None;
        },
    };
    proof {
        assert(v@.len() == 32);
    }
    let mut out = [0u8; 32];
    let mut i: usize = 0;
    while i < 32
        invariant
            0 <= i <= 32,
            v@.len() == 32,
            out@.len() == 32,
            forall|j: int| 0 <= j < i ==> out@[j] == v@[j],
        decreases 32 - i,
    {
        out[i] = v[i];
        i = i + 1;
    }
    assert(out@ =~= v@);
    Some(out)
}

// ── the clock seam ──────────────────────────────────────────────────────

/// The head writer's own clock: the real monotonic reading since open,
/// unless a fixed test reading overrides it (`u64::MAX` meaning "none").
pub struct Clock {
    test_millis: u64,
}

impl Clock {
    /// The override, `u64::MAX` for none.
    pub closed spec fn fixed(&self) -> u64 {
        self.test_millis
    }

    /// A clock reading real time.
    pub fn new() -> (c: Clock)
        ensures
            c.fixed() == u64::MAX,
    {
        Clock { test_millis: u64::MAX }
    }

    /// The reading: the fixed one where set, else `elapsed_millis`, the real
    /// time since open.
    pub fn now_millis(&self, elapsed_millis: u64) -> (r: u64)
        ensures
            r == (if self.fixed() == u64::MAX {
                elapsed_millis
            } else {
                self.fixed()
            }),
    {
        if self.test_millis == u64::MAX {
            elapsed_millis
        } else {
            self.test_millis
        }
    }

    /// Fix the clock at `millis`, held until changed.
    pub fn set_millis(&mut self, millis: u64)
        ensures
            final(self).fixed() == millis,
    {
        self.test_millis = millis;
    }
}

// ── the cadence ─────────────────────────────────────────────────────────

/// Everything the trigger reads and a head updates.
#[derive(Clone, Copy)]
pub struct HeadState {
    /// The position the most recent head NAMED; `None` before the first.
    pub last_position: Option<u64>,
    /// That head's chain, carried into the next head's `prev`.
    pub last_chain: [u8; 32],
    /// The committed seq as of the writer's last look, so an ack that
    /// landed nothing is told from a commit.
    pub last_seen_position: u64,
    /// Landed commits that are not the writer's own since the last head.
    pub commits_since_head: u64,
    /// The newest retained checkpoint's seq as the last head named it.
    pub last_checkpoint_seq: Option<u64>,
    /// The clock reading at the last head, or at open.
    pub last_head_millis: u64,
}

/// The decision taken, to be acted on: what the head will name.
#[derive(Clone, Copy)]
pub struct Plan {
    pub position: u64,
    pub chain: [u8; 32],
    pub base: Option<(u64, [u8; 32], [u8; 32])>,
    pub prev: Option<(u64, [u8; 32])>,
    pub checkpoint_seq: Option<u64>,
    pub now_millis: u64,
}

/// The position moved past the last head named (past zero before the
/// first head).
pub open spec fn moved(last_position: Option<u64>, position: u64) -> bool {
    match last_position {
        None => position > 0,
        Some(lp) => position > lp,
    }
}

/// `a - b`, stopping at zero.
pub open spec fn sat_sub(a: u64, b: u64) -> u64 {
    if a >= b {
        (a - b) as u64
    } else {
        0
    }
}

/// `a + 1`, stopping at the maximum.
pub open spec fn sat_inc(a: u64) -> u64 {
    if a == u64::MAX {
        a
    } else {
        (a + 1) as u64
    }
}

/// A head is due: enough landed commits, or the newest retained checkpoint
/// moved, or enough time since the last head.
pub open spec fn due(
    commits: u64,
    every_commits: u64,
    checkpoint_seq: Option<u64>,
    last_checkpoint_seq: Option<u64>,
    now: u64,
    last_head_millis: u64,
    max_interval_millis: u64,
) -> bool {
    commits >= every_commits || (checkpoint_seq is Some && checkpoint_seq != last_checkpoint_seq)
        || sat_sub(now, last_head_millis) >= max_interval_millis
}

/// The checkpoint's seq.
pub open spec fn seq_of(checkpoint: Option<(u64, [u8; 32], [u8; 32])>) -> Option<u64> {
    match checkpoint {
        Some((s, _, _)) => Some(s),
        None => None,
    }
}

/// The newest retained checkpoint at or below the named position, else
/// none.
pub open spec fn base_for(checkpoint: Option<(u64, [u8; 32], [u8; 32])>, position: u64) -> Option<
    (u64, [u8; 32], [u8; 32]),
> {
    match checkpoint {
        Some((s, c, b)) => if s <= position {
            Some((s, c, b))
        } else {
            None
        },
        None => None,
    }
}

/// The state once a landed commit at `position` is counted.
pub open spec fn counted(st: HeadState, position: u64) -> HeadState {
    HeadState {
        last_seen_position: position,
        commits_since_head: sat_inc(st.commits_since_head),
        ..st
    }
}

/// The head planned at `position` from state `st`.
pub open spec fn planned(
    st: HeadState,
    position: u64,
    chain: [u8; 32],
    checkpoint: Option<(u64, [u8; 32], [u8; 32])>,
    now: u64,
) -> Plan {
    Plan {
        position,
        chain,
        base: base_for(checkpoint, position),
        prev: match st.last_position {
            Some(lp) => Some((lp, st.last_chain)),
            None => None,
        },
        checkpoint_seq: seq_of(checkpoint),
        now_millis: now,
    }
}

/// The state once the head a plan names has landed and the seq moved to
/// `seen`.
pub open spec fn headed(plan: Plan, seen: u64) -> HeadState {
    HeadState {
        last_position: Some(plan.position),
        last_chain: plan.chain,
        last_seen_position: seen,
        commits_since_head: 0,
        last_checkpoint_seq: plan.checkpoint_seq,
        last_head_millis: plan.now_millis,
    }
}

/// The state with the seq moved to `seen` and nothing else changed.
pub open spec fn seen_at(st: HeadState, seen: u64) -> HeadState {
    HeadState { last_seen_position: seen, ..st }
}

/// The cadence: the state, the re-entrancy flag set while the head's own
/// commits run, and the two cadence constants.
pub struct HeadCadence {
    state: HeadState,
    writing: bool,
    every_commits: u64,
    max_interval_millis: u64,
}

impl HeadCadence {
    /// The counters and the last head's coordinates.
    pub closed spec fn st(&self) -> HeadState {
        self.state
    }

    /// The counters and the last head's coordinates, at run time.
    pub fn state(&self) -> (s: HeadState)
        ensures
            s == self.st(),
    {
        self.state
    }

    /// The head's own commits are running.
    pub closed spec fn is_writing(&self) -> bool {
        self.writing
    }

    /// Landed commits that make a head due.
    pub closed spec fn every(&self) -> u64 {
        self.every_commits
    }

    /// Milliseconds that make a head due.
    pub closed spec fn interval(&self) -> u64 {
        self.max_interval_millis
    }

    /// The cadence resumed from what the head document's latest member
    /// records — its position, chain and base seq — at the committed seq
    /// `seen` and clock reading `now`.
    pub fn open(
        recorded: Option<(u64, [u8; 32], Option<u64>)>,
        seen: u64,
        now: u64,
        every_commits: u64,
        max_interval_millis: u64,
    ) -> (c: HeadCadence)
        ensures
            !c.is_writing(),
            c.every() == every_commits,
            c.interval() == max_interval_millis,
            c.st().last_seen_position == seen,
            c.st().commits_since_head == 0,
            c.st().last_head_millis == now,
            match recorded {
                Some((p, ch, b)) => c.st().last_position == Some(p) && c.st().last_chain == ch
                    && c.st().last_checkpoint_seq == b,
                None => c.st().last_position is None && c.st().last_chain@ == Seq::new(32, |i: int| 0u8)
                    && c.st().last_checkpoint_seq is None,
            },
    {
        let (last_position, last_chain, last_checkpoint_seq) = match recorded {
            Some((p, ch, b)) => (Some(p), ch, b),
            None => (None, [0u8; 32], None),
        };
        HeadCadence {
            state: HeadState {
                last_position,
                last_chain,
                last_seen_position: seen,
                commits_since_head: 0,
                last_checkpoint_seq,
                last_head_millis: now,
            },
            writing: false,
            every_commits,
            max_interval_millis,
        }
    }

    /// Hold the re-entrancy flag for the head's own commits.
    pub fn hold(&mut self)
        ensures
            final(self).is_writing(),
            final(self).st() == old(self).st(),
            final(self).every() == old(self).every(),
            final(self).interval() == old(self).interval(),
    {
        self.writing = true;
    }

    /// Release it, on every exit from the head write.
    pub fn release(&mut self)
        ensures
            !final(self).is_writing(),
            final(self).st() == old(self).st(),
            final(self).every() == old(self).every(),
            final(self).interval() == old(self).interval(),
    {
        self.writing = false;
    }

    /// Evaluated where a committing write records its position: the
    /// kernel's committed `position` and `chain`, the newest retained
    /// `checkpoint`, and the clock reading `now`. The head's own commits
    /// count nothing; an ack whose position did not pass the last look
    /// LANDED nothing and counts nothing; a landed commit is counted and,
    /// when the position moved and a trigger is due, the head to write is
    /// planned.
    pub fn after_commit(
        &mut self,
        position: u64,
        chain: [u8; 32],
        checkpoint: Option<(u64, [u8; 32], [u8; 32])>,
        now: u64,
    ) -> (plan: Option<Plan>)
        ensures
            final(self).is_writing() == old(self).is_writing(),
            final(self).every() == old(self).every(),
            final(self).interval() == old(self).interval(),
            old(self).is_writing() || position <= old(self).st().last_seen_position ==> {
                &&& plan is None
                &&& final(self).st() == old(self).st()
            },
            !old(self).is_writing() && position > old(self).st().last_seen_position ==> {
                &&& final(self).st() == counted(old(self).st(), position)
                &&& (plan is Some) == (moved(old(self).st().last_position, position) && due(
                    sat_inc(old(self).st().commits_since_head),
                    old(self).every(),
                    seq_of(checkpoint),
                    old(self).st().last_checkpoint_seq,
                    now,
                    old(self).st().last_head_millis,
                    old(self).interval(),
                ))
                &&& (plan matches Some(p) ==> p == planned(old(self).st(), position, chain, checkpoint, now))
            },
    {
        if self.writing {
            return None;
        }
        if position <= self.state.last_seen_position {
            return None;
        }
        self.state.last_seen_position = position;
        self.state.commits_since_head = self.state.commits_since_head.saturating_add(1);
        let checkpoint_seq = match checkpoint {
            Some((s, _, _)) => Some(s),
            None => None,
        };
        let moved = match self.state.last_position {
            None => position > 0,
            Some(lp) => position > lp,
        };
        if !moved {
            return None;
        }
        let elapsed = now.saturating_sub(self.state.last_head_millis);
        let ckpt_moved = match (checkpoint_seq, self.state.last_checkpoint_seq) {
            (Some(a), Some(b)) => a != b,
            (Some(_), None) => true,
            (None, _) => false,
        };
        let due = self.state.commits_since_head >= self.every_commits || ckpt_moved || elapsed
            >= self.max_interval_millis;
        if !due {
            return None;
        }
        let base = match checkpoint {
            Some((s, c, b)) => if s <= position {
                Some((s, c, b))
            } else {
                None
            },
            None => None,
        };
        let prev = match self.state.last_position {
            Some(lp) => Some((lp, self.state.last_chain)),
            None => None,
        };
        Some(Plan { position, chain, base, prev, checkpoint_seq, now_millis: now })
    }

    /// After the head write: where both of its commits LANDED, the state
    /// advances to the head it named; either way the head's own commits
    /// moved the seq to `seen`, so the next evaluation measures from there.
    pub fn after_head(&mut self, landed: bool, plan: &Plan, seen: u64)
        ensures
            final(self).is_writing() == old(self).is_writing(),
            final(self).every() == old(self).every(),
            final(self).interval() == old(self).interval(),
            landed ==> final(self).st() == headed(*plan, seen),
            !landed ==> final(self).st() == seen_at(old(self).st(), seen),
    {
        if landed {
            self.state.last_position = Some(plan.position);
            self.state.last_chain = plan.chain;
            self.state.commits_since_head = 0;
            self.state.last_checkpoint_seq = plan.checkpoint_seq;
            self.state.last_head_millis = plan.now_millis;
        }
        self.state.last_seen_position = seen;
    }
}

/// Never twice for one position: once a head naming a position has landed,
/// the state it leaves plans no head at that position or below it —
/// whatever the counters say.
pub proof fn law_never_twice_for_one_position(plan: Plan, seen: u64, q: u64)
    requires
        q <= plan.position,
    ensures
        !moved(headed(plan, seen).last_position, q),
{
}

/// Never while the position has not moved: before the first head, position
/// zero plans nothing; after one, the position it named plans nothing.
pub proof fn law_never_without_movement(last: Option<u64>)
    ensures
        !moved(
            last,
            match last {
                Some(p) => p,
                None => 0,
            },
        ),
{
}

} // verus!
