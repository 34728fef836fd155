use skepd::precheck::{
    op_shape_refusal, precheck, CredentialEffect, CredentialRefusal, Verdict, MAX_DECODED_KEYS,
    MAX_ENROLLED_KEYS,
};
use skepd::tags::OpKind;

#[test]
fn op_shape_slots_come_first_and_in_order() {
    assert_eq!(op_shape_refusal(OpKind::Emit, true, true), Some(CredentialRefusal::EmitNotMakeLink));
    assert_eq!(op_shape_refusal(OpKind::MakeLink, false, true), Some(CredentialRefusal::ResolvedFrom));
    assert_eq!(op_shape_refusal(OpKind::MakeLink, true, false), Some(CredentialRefusal::ResolvedFrom));
    assert_eq!(op_shape_refusal(OpKind::MakeLink, false, false), None);
    assert_eq!(op_shape_refusal(OpKind::EditLink, false, false), Some(CredentialRefusal::ResolvedFrom));
    assert_eq!(op_shape_refusal(OpKind::Nullify, true, true), None);
}

#[test]
fn the_verdict_decides_before_any_later_slot() {
    assert_eq!(precheck(&Verdict::NotCredential, false, false, true), Ok(()));
    let r = precheck(&Verdict::Inert("bad_home".to_string()), false, false, false);
    assert_eq!(r, Err(CredentialRefusal::Inert("bad_home".to_string())));
    assert_eq!(r.unwrap_err().token(), "bad_home");
}

#[test]
fn an_undecodable_key_is_refused_ahead_of_the_cap() {
    // Over the cap AND undecodable within the decoded prefix: the decode slot answers.
    let mut added = vec![(true, false); MAX_ENROLLED_KEYS + 4];
    added[3].0 = false;
    let e = Verdict::Honored(CredentialEffect::Enroll { added, enrolled: 0 });
    assert_eq!(precheck(&e, true, true, true), Err(CredentialRefusal::UndecodableKey));
    // An undecodable key past the decoded prefix is never decoded: the cap answers.
    let mut added = vec![(true, false); MAX_DECODED_KEYS + 2];
    added[MAX_DECODED_KEYS] = (false, false);
    let e = Verdict::Honored(CredentialEffect::Enroll { added, enrolled: 0 });
    assert_eq!(precheck(&e, true, true, true), Err(CredentialRefusal::TooManyEnrolled));
}

#[test]
fn the_enrolled_cap_counts_the_set_and_the_record() {
    let at_cap = Verdict::Honored(CredentialEffect::Enroll { added: vec![(true, false); 2], enrolled: 14 });
    assert_eq!(precheck(&at_cap, true, false, true), Ok(()));
    let over = Verdict::Honored(CredentialEffect::Enroll { added: vec![(true, false); 3], enrolled: 14 });
    assert_eq!(precheck(&over, true, false, true), Err(CredentialRefusal::TooManyEnrolled));
    assert_eq!(
        precheck(&Verdict::Honored(CredentialEffect::Genesis { decodable: vec![true; 17] }), true, true, true),
        Err(CredentialRefusal::TooManyEnrolled)
    );
    assert_eq!(
        precheck(&Verdict::Honored(CredentialEffect::Genesis { decodable: vec![true; 16] }), false, false, false),
        Ok(()),
        "the seeding hand's record at its cap, before the claim"
    );
}

#[test]
fn the_anchor_gate_then_the_board_state_gates() {
    let retire = Verdict::Honored(CredentialEffect::Retire { removed_anchor: vec![false, true] });
    assert_eq!(precheck(&retire, true, false, true), Err(CredentialRefusal::AnchorSessionRequired));
    assert_eq!(precheck(&retire, true, true, true), Ok(()));
    let plain = Verdict::Honored(CredentialEffect::Retire { removed_anchor: vec![false] });
    assert_eq!(precheck(&plain, false, false, true), Err(CredentialRefusal::SignedSessionRequired));
    assert_eq!(precheck(&plain, true, false, false), Err(CredentialRefusal::ClaimFirst));
    let genesis = Verdict::Honored(CredentialEffect::Genesis { decodable: vec![true] });
    assert_eq!(precheck(&genesis, false, false, true), Err(CredentialRefusal::SignedSessionRequired), "slot (7) is arm-blind");
    assert_eq!(precheck(&Verdict::Honored(CredentialEffect::Claim), false, false, false), Ok(()));
    assert_eq!(precheck(&Verdict::Honored(CredentialEffect::Other), true, true, false), Err(CredentialRefusal::ClaimFirst));
    assert_eq!(CredentialRefusal::ClaimFirst.token(), "claim_first");
}
