//! The credential write's ordered refusals: the lock-free op-shape slots,
//! and the precheck's slots that follow the fold's classify verdict — key
//! decodability, the key caps, the anchor gate and the board-state gates —
//! over the facts the identity state and the session's signer supply.

use vstd::prelude::*;
use crate::tags::OpKind;

verus! {

/// The most keys an account's enrolled set may hold after an enrollment.
pub const MAX_ENROLLED_KEYS: usize = 16;

/// The most keys one genesis record may carry.
pub const MAX_GENESIS_KEYS: usize = 16;

/// The most keys the decodability slot decodes: one past the caps, since a
/// record past them is refused whatever the rest decode to.
pub const MAX_DECODED_KEYS: usize = 17;

/// Why a credential write is refused.
#[derive(Debug, PartialEq, Eq)]
pub enum CredentialRefusal {
    /// The fold's own verdict, by its token.
    Inert(String),
    EmitNotMakeLink,
    UndecodableKey,
    NullifyNotRetraction,
    AnchorSessionRequired,
    ResolvedFrom,
    TooManyEnrolled,
    MintHomeFirst,
    SignedSessionRequired,
    ClaimFirst,
}

/// The wire `detail` token of a refusal.
pub open spec fn token_spec(r: CredentialRefusal) -> Seq<char> {
    match r {
        CredentialRefusal::Inert(t) => t@,
        CredentialRefusal::EmitNotMakeLink => "emit_not_make_link"@,
        CredentialRefusal::UndecodableKey => "undecodable_key"@,
        CredentialRefusal::NullifyNotRetraction => "nullify_not_retraction"@,
        CredentialRefusal::AnchorSessionRequired => "anchor_session_required"@,
        CredentialRefusal::ResolvedFrom => "resolved_from"@,
        CredentialRefusal::TooManyEnrolled => "too_many_enrolled"@,
        CredentialRefusal::MintHomeFirst => "mint_home_first"@,
        CredentialRefusal::SignedSessionRequired => "signed_session_required"@,
        CredentialRefusal::ClaimFirst => "claim_first"@,
    }
}

impl CredentialRefusal {
    /// The wire `detail` token: the fold's verdict speaks for itself; the
    /// daemon's own refusals are spelled here.
    pub fn token(&self) -> (t: String)
        ensures
            t@ == token_spec(*self),
    {
        match self {
            CredentialRefusal::Inert(t) => t.clone(),
            CredentialRefusal::EmitNotMakeLink => "emit_not_make_link".to_string(),
            CredentialRefusal::UndecodableKey => "undecodable_key".to_string(),
            CredentialRefusal::NullifyNotRetraction => "nullify_not_retraction".to_string(),
            CredentialRefusal::AnchorSessionRequired => "anchor_session_required".to_string(),
            CredentialRefusal::ResolvedFrom => "resolved_from".to_string(),
            CredentialRefusal::TooManyEnrolled => "too_many_enrolled".to_string(),
            CredentialRefusal::MintHomeFirst => "mint_home_first".to_string(),
            CredentialRefusal::SignedSessionRequired => "signed_session_required".to_string(),
            CredentialRefusal::ClaimFirst => "claim_first".to_string(),
        }
    }
}

/// The op-shape slots, ahead of the write lock: (1) every credential-typed
/// emit; (2) a credential deposit whose `from` or `to` slot resolves
/// content, and every credential edit. `from_resolves` and `to_resolves`
/// say whether a `make_link`'s entity slots are content-resolved.
pub open spec fn op_shape_spec(op: OpKind, from_resolves: bool, to_resolves: bool) -> Option<CredentialRefusal> {
    match op {
        OpKind::Emit => Some(CredentialRefusal::EmitNotMakeLink),
        OpKind::MakeLink => if from_resolves || to_resolves {
            Some(CredentialRefusal::ResolvedFrom)
        } else {
            None
        },
        OpKind::EditLink => Some(CredentialRefusal::ResolvedFrom),
        _ => None,
    }
}

/// Slots (1) and (2), evaluated in that order.
pub fn op_shape_refusal(op: OpKind, from_resolves: bool, to_resolves: bool) -> (r: Option<CredentialRefusal>)
    ensures
        r == op_shape_spec(op, from_resolves, to_resolves),
{
    match op {
        OpKind::Emit => Some(CredentialRefusal::EmitNotMakeLink),
        OpKind::MakeLink => if from_resolves || to_resolves {
            Some(CredentialRefusal::ResolvedFrom)
        } else {
            None
        },
        OpKind::EditLink => Some(CredentialRefusal::ResolvedFrom),
        _ => None,
    }
}

/// What an honored credential deposit would do, as the later slots read
/// it: a genesis with each key's decodability; a claim; an enrollment with
/// each added key's decodability and anchor flag, beside the count the
/// account has enrolled already; a retirement with whether each removed
/// key is one of the account's anchors; or any other effect.
pub enum CredentialEffect {
    Genesis { decodable: Vec<bool> },
    Claim,
    Enroll { added: Vec<(bool, bool)>, enrolled: usize },
    Retire { removed_anchor: Vec<bool> },
    Other,
}

/// The fold's classify preview of the deposit.
pub enum Verdict {
    NotCredential,
    /// Refused by the fold, with its token.
    Inert(String),
    Honored(CredentialEffect),
}

/// Every key the slot decodes — the first `MAX_DECODED_KEYS` — decodes.
pub open spec fn keys_decode(d: Seq<bool>) -> bool {
    forall|i: int| 0 <= i < d.len() && i < MAX_DECODED_KEYS ==> #[trigger] d[i]
}

/// The added keys' decodability.
pub open spec fn added_decodable(a: Seq<(bool, bool)>) -> Seq<bool> {
    Seq::new(a.len(), |i: int| a[i].0)
}

/// The added keys' anchor flags.
pub open spec fn added_anchors(a: Seq<(bool, bool)>) -> Seq<bool> {
    Seq::new(a.len(), |i: int| a[i].1)
}

/// Whether the effect touches an anchor: a retirement of an anchor, or an
/// anchor-flagged enrollment.
pub open spec fn anchor_act(e: CredentialEffect) -> bool {
    match e {
        CredentialEffect::Retire { removed_anchor } => removed_anchor@.contains(true),
        CredentialEffect::Enroll { added, .. } => added_anchors(added@).contains(true),
        _ => false,
    }
}

/// The precheck's refusal of an honored deposit, the slots in order:
/// (4) a decoded key that is no key; (5) an enrollment past the enrolled
/// cap, or a genesis record past its own; (6) an anchor act without a
/// session an anchor of the account established; (7) on a claimed board, a
/// bare session; (8) before the claim, anything but the ceremony's own
/// genesis and claim.
pub open spec fn honored_refusal(
    e: CredentialEffect,
    signed: bool,
    signer_is_anchor: bool,
    claimed: bool,
) -> Option<CredentialRefusal> {
    let keys_ok = match e {
        CredentialEffect::Genesis { decodable } => keys_decode(decodable@),
        CredentialEffect::Enroll { added, .. } => keys_decode(added_decodable(added@)),
        _ => true,
    };
    let over_cap = match e {
        CredentialEffect::Genesis { decodable } => decodable@.len() > MAX_GENESIS_KEYS,
        CredentialEffect::Enroll { added, enrolled } => enrolled + added@.len() > MAX_ENROLLED_KEYS,
        _ => false,
    };
    if !keys_ok {
        Some(CredentialRefusal::UndecodableKey)
    } else if over_cap {
        Some(CredentialRefusal::TooManyEnrolled)
    } else if anchor_act(e) && !signer_is_anchor {
        Some(CredentialRefusal::AnchorSessionRequired)
    } else if claimed {
        if !signed {
            Some(CredentialRefusal::SignedSessionRequired)
        } else {
            None
        }
    } else if !(e is Genesis || e is Claim) {
        Some(CredentialRefusal::ClaimFirst)
    } else {
        None
    }
}

/// The anchor gate: an honored deposit whose keys decode within the caps
/// and that retires an anchor, or enrolls a key flagged as one, is refused
/// for want of an anchor session whenever the signer is no anchor of the
/// account — and no other effect ever meets that refusal.
pub proof fn law_anchor_acts_need_an_anchor_session(
    e: CredentialEffect,
    signed: bool,
    signer_is_anchor: bool,
    claimed: bool,
)
    ensures
        ({
            let touches_anchor = match e {
                CredentialEffect::Enroll { added, .. } => exists|i: int| 0 <= i < added@.len() && (#[trigger] added@[i]).1,
                CredentialEffect::Retire { removed_anchor } => exists|i: int|
                    0 <= i < removed_anchor@.len() && #[trigger] removed_anchor@[i],
                _ => false,
            };
            let keys_pass = match e {
                CredentialEffect::Enroll { added, enrolled } => (forall|i: int|
                    0 <= i < added@.len() ==> (#[trigger] added@[i]).0) && enrolled + added@.len()
                    <= MAX_ENROLLED_KEYS,
                _ => true,
            };
            &&& touches_anchor && keys_pass && !signer_is_anchor ==> honored_refusal(
                e,
                signed,
                signer_is_anchor,
                claimed,
            ) == Some(CredentialRefusal::AnchorSessionRequired)
            &&& honored_refusal(e, signed, signer_is_anchor, claimed) == Some(
                CredentialRefusal::AnchorSessionRequired,
            ) ==> touches_anchor && !signer_is_anchor
        }),
{
    match e {
        CredentialEffect::Enroll { added, enrolled } => {
            if exists|i: int| 0 <= i < added@.len() && (#[trigger] added@[i]).1 {
                let i = choose|i: int| 0 <= i < added@.len() && (#[trigger] added@[i]).1;
                assert(added_anchors(added@)[i]);
            }
            if added_anchors(added@).contains(true) {
                let i = choose|i: int| 0 <= i < added_anchors(added@).len() && added_anchors(added@)[i] == true;
                assert(added@[i].1);
            }
            if forall|i: int| 0 <= i < added@.len() ==> (#[trigger] added@[i]).0 {
                assert forall|i: int| 0 <= i < added_decodable(added@).len() && i < MAX_DECODED_KEYS implies #[trigger] added_decodable(added@)[i] by {
                    assert(added@[i].0);
                }
            }
        },
        CredentialEffect::Retire { removed_anchor } => {
            if exists|i: int| 0 <= i < removed_anchor@.len() && #[trigger] removed_anchor@[i] {
                let i = choose|i: int| 0 <= i < removed_anchor@.len() && #[trigger] removed_anchor@[i];
                assert(removed_anchor@[i] == true);
            }
        },
        _ => {},
    }
}

/// The board-state and cap slots over their inputs: an enrollment whose
/// keys all decode but that would take the set past its cap is refused as
/// too many; so is a genesis record of more keys than its cap; a deposit
/// that passes the earlier slots is refused on a claimed board exactly when
/// the session is bare; and before the claim only a genesis or a claim
/// passes.
pub proof fn law_precheck_later_slots(e: CredentialEffect, signed: bool, signer_is_anchor: bool, claimed: bool)
    ensures
        (e matches CredentialEffect::Enroll { added, enrolled } && (forall|i: int|
            0 <= i < added@.len() ==> (#[trigger] added@[i]).0) && enrolled + added@.len()
            > MAX_ENROLLED_KEYS) ==> honored_refusal(e, signed, signer_is_anchor, claimed) == Some(
            CredentialRefusal::TooManyEnrolled,
        ),
        (e matches CredentialEffect::Genesis { decodable } && (forall|i: int|
            0 <= i < decodable@.len() ==> #[trigger] decodable@[i]) && decodable@.len()
            > MAX_GENESIS_KEYS) ==> honored_refusal(e, signed, signer_is_anchor, claimed) == Some(
            CredentialRefusal::TooManyEnrolled,
        ),
        (e is Claim || e is Other) ==> honored_refusal(e, signed, signer_is_anchor, claimed) == (if claimed {
            if signed {
                None
            } else {
                Some(CredentialRefusal::SignedSessionRequired)
            }
        } else if e is Claim {
            None
        } else {
            Some(CredentialRefusal::ClaimFirst)
        }),
{
    match e {
        CredentialEffect::Enroll { added, enrolled } => {
            if forall|i: int| 0 <= i < added@.len() ==> (#[trigger] added@[i]).0 {
                assert forall|i: int| 0 <= i < added_decodable(added@).len() && i < MAX_DECODED_KEYS implies #[trigger] added_decodable(added@)[i] by {
                    assert(added@[i].0);
                }
            }
        },
        _ => {},
    }
}

fn all_decode(d: &Vec<bool>) -> (r: bool)
    ensures
        r == keys_decode(d@),
{
    let mut i: usize = 0;
    while i < d.len() && i < MAX_DECODED_KEYS
        invariant
            0 <= i <= d@.len(),
            forall|k: int| 0 <= k < i ==> #[trigger] d@[k],
        decreases d@.len() - i,
    {
        if !d[i] {
            return false;
        }
        i = i + 1;
    }
    true
}

fn all_added_decode(a: &Vec<(bool, bool)>) -> (r: bool)
    ensures
        r == keys_decode(added_decodable(a@)),
{
    let mut i: usize = 0;
    while i < a.len() && i < MAX_DECODED_KEYS
        invariant
            0 <= i <= a@.len(),
            forall|k: int| 0 <= k < i ==> #[trigger] added_decodable(a@)[k],
        decreases a@.len() - i,
    {
        if !a[i].0 {
            assert(added_decodable(a@)[i as int] == a@[i as int].0);
            return false;
        }
        i = i + 1;
    }
    true
}

fn any_true(s: &Vec<bool>) -> (r: bool)
    ensures
        r == s@.contains(true),
{
    let mut i: usize = 0;
    while i < s.len()
        invariant
            0 <= i <= s@.len(),
            forall|k: int| 0 <= k < i ==> !s@[k],
        decreases s@.len() - i,
    {
        if s[i] {
            assert(s@[i as int] == true);
            return true;
        }
        i = i + 1;
    }
    false
}

fn any_anchor(a: &Vec<(bool, bool)>) -> (r: bool)
    ensures
        r == added_anchors(a@).contains(true),
{
    let mut i: usize = 0;
    while i < a.len()
        invariant
            0 <= i <= a@.len(),
            forall|k: int| 0 <= k < i ==> !(#[trigger] added_anchors(a@)[k]),
        decreases a@.len() - i,
    {
        if a[i].1 {
            assert(added_anchors(a@)[i as int] == true);
            return true;
        }
        i = i + 1;
    }
    false
}

/// The precheck, slots (3) to (8), under the write lock: the classify
/// verdict first — a deposit the fold does not take as a credential passes
/// with no later slot, one it refuses is refused by its verdict — then the
/// slots of [`honored_refusal`] in order. `signed` says the session has a
/// signer; `signer_is_anchor`, that the signer is an anchor of the account
/// the effect acts on; `claimed`, that the board has a claimant.
pub fn precheck(v: &Verdict, signed: bool, signer_is_anchor: bool, claimed: bool) -> (r: Result<(), CredentialRefusal>)
    ensures
        match *v {
            Verdict::NotCredential => r is Ok,
            Verdict::Inert(t) => r matches Err(CredentialRefusal::Inert(u)) && u@ == t@,
            Verdict::Honored(e) => match honored_refusal(e, signed, signer_is_anchor, claimed) {
                None => r is Ok,
                Some(x) => r == Err::<(), CredentialRefusal>(x),
            },
        },
{
    let e = match v {
        Verdict::NotCredential => {
            return Ok(());
        },
        Verdict::Inert(t) => {
            return Err(CredentialRefusal::Inert(t.clone()));
        },
        Verdict::Honored(e) => e,
    };
    let keys_ok = match e {
        CredentialEffect::Genesis { decodable } => all_decode(decodable),
        CredentialEffect::Enroll { added, .. } => all_added_decode(added),
        _ => true,
    };
    if !keys_ok {
        return Err(CredentialRefusal::UndecodableKey);
    }
    let over_cap = match e {
        CredentialEffect::Genesis { decodable } => decodable.len() > MAX_GENESIS_KEYS,
        CredentialEffect::Enroll { added, enrolled } => *enrolled > MAX_ENROLLED_KEYS || added.len()
            > MAX_ENROLLED_KEYS - *enrolled,
        _ => false,
    };
    if over_cap {
        return Err(CredentialRefusal::TooManyEnrolled);
    }
    let anchor = match e {
        CredentialEffect::Retire { removed_anchor } => any_true(removed_anchor),
        CredentialEffect::Enroll { added, .. } => any_anchor(added),
        _ => false,
    };
    if anchor && !signer_is_anchor {
        return Err(CredentialRefusal::AnchorSessionRequired);
    }
    if claimed {
        if !signed {
            return Err(CredentialRefusal::SignedSessionRequired);
        }
        return Ok(());
    }
    match e {
        CredentialEffect::Genesis { .. } | CredentialEffect::Claim => Ok(()),
        _ => Err(CredentialRefusal::ClaimFirst),
    }
}

} // verus!
