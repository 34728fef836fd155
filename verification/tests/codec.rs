use skepd::codec::{
    check_nat_text, p_tum, tumbler_text, MAX_TUMBLER_COMPONENTS, j_rejection, marshal_envelope, Envelope, j_site, p_string, p_u64, p_usize, p_view, parse_envelope,
    read_envelope, room, ClaimView, FaultSite, JsonCodec, ParseError, Rejection, MAX_INSERT_VALUES,
    MAX_NAT_DIGITS, MAX_REQ_ID_BYTES,
};
use skepd::json::{JsonTop, Member};
use skepd::tags::{
    code_name, disposition_name, fault_name, op_kind_of, op_name, operand_name, Disposition, OpKind,
    Operand, RejectCode, SpecFault,
};

const ALL_KINDS: [OpKind; 38] = [
    OpKind::CreateNewDocument,
    OpKind::Delegate,
    OpKind::RegisterNode,
    OpKind::Fork,
    OpKind::NextAccountPrefix,
    OpKind::PrincipalPrefix,
    OpKind::Insert,
    OpKind::Delete,
    OpKind::Copy,
    OpKind::Rearrange,
    OpKind::Version,
    OpKind::MakeLink,
    OpKind::Emit,
    OpKind::Nullify,
    OpKind::AssertSup,
    OpKind::EditLink,
    OpKind::ReadLink,
    OpKind::FollowLink,
    OpKind::RetrieveV,
    OpKind::RetrieveDocVSpan,
    OpKind::RetrieveDocVSpanSet,
    OpKind::ShowOrigin,
    OpKind::ShowDeletions,
    OpKind::Compare,
    OpKind::FindDocsContaining,
    OpKind::Image,
    OpKind::FindLinksV,
    OpKind::FindLinksFtt,
    OpKind::CountV,
    OpKind::CountFtt,
    OpKind::WindowV,
    OpKind::WindowFtt,
    OpKind::RetrieveEndsets,
    OpKind::Project,
    OpKind::DiscoverableFrom,
    OpKind::DeleteOrphans,
    OpKind::InClaims,
    OpKind::OutClaims,
];

#[test]
fn the_idempotency_id_meets_its_cap_at_both_ends() {
    let frame = |id: &str| format!(r#"{{"op":"fork","id":"{id}"}}"#).into_bytes();
    let at_cap = "k".repeat(MAX_REQ_ID_BYTES);
    let req = match read_envelope(&frame(&at_cap)) {
        Ok(r) => r,
        Err(e) => panic!("an id at the cap parses: {e}"),
    };
    assert_eq!(req.id.map(|b| b.len()), Some(MAX_REQ_ID_BYTES));
    let over = "k".repeat(MAX_REQ_ID_BYTES + 1);
    let e = match read_envelope(&frame(&over)) {
        Err(e) => e,
        Ok(_) => panic!("one byte past the cap must not parse"),
    };
    assert!(e.contains("wire cap"), "the refusal names the cap: {e}");
    assert_eq!(e, "id is 257 bytes, past the 256-byte wire cap");
}

#[test]
fn every_request_kind_reads_back_from_its_tag() {
    for k in ALL_KINDS {
        assert_eq!(op_kind_of(op_name(k)), Some(k), "{}", op_name(k));
    }
    assert_eq!(op_kind_of("unparseable"), None);
    assert_eq!(op_kind_of("Fork"), None);
    assert_eq!(op_kind_of(""), None);
}

#[test]
fn the_name_tables_are_snake_case_of_the_variants() {
    assert_eq!(op_name(OpKind::RetrieveDocVSpanSet), "retrieve_doc_v_span_set");
    assert_eq!(op_name(OpKind::Unparseable), "unparseable");
    assert_eq!(code_name(RejectCode::TxnOverBudget), "txn_over_budget");
    assert_eq!(code_name(RejectCode::NotDescendantOfBootstrap), "not_descendant_of_bootstrap");
    assert_eq!(code_name(RejectCode::DcViolation), "dc_violation");
    assert_eq!(disposition_name(Disposition::Reorder), "reorder");
    assert_eq!(fault_name(SpecFault::StartNotZeroFree), "start_not_zero_free");
    assert_eq!(operand_name(Operand::Second), "second");
}

#[test]
fn an_unparseable_frame_is_a_permanent_malformed_rejection() {
    let r = JsonCodec.unparseable(ParseError { detail: Some("invalid JSON: x".to_string()) });
    assert_eq!(r.op, OpKind::Unparseable);
    assert_eq!(r.code, RejectCode::Malformed);
    assert_eq!(r.disposition, Disposition::Permanent);
    assert!(r.site.is_none());
    assert_eq!(
        j_rejection(&r),
        br#"{"code":"malformed","detail":"invalid JSON: x","disposition":"permanent","op":"unparseable","resp":"rejected"}"#
            .to_vec()
    );
    let bare = JsonCodec.unparseable(ParseError { detail: None });
    assert_eq!(
        j_rejection(&bare),
        br#"{"code":"malformed","disposition":"permanent","op":"unparseable","resp":"rejected"}"#.to_vec(),
        "an absent diagnostic is left out, not written as null"
    );
}

#[test]
fn a_rejection_site_rides_as_a_nested_object_last_in_key_order() {
    let r = Rejection {
        op: OpKind::Compare,
        code: RejectCode::BadRegion,
        disposition: Disposition::Retry,
        site: Some(FaultSite {
            operand: Some(Operand::First),
            region: Some(2),
            index: None,
            fault: Some(SpecFault::NotLevelUniform),
            addr: Some("1.1.0.1".to_string()),
        }),
        detail: None,
    };
    assert_eq!(
        j_rejection(&r),
        br#"{"code":"bad_region","disposition":"retry","op":"compare","resp":"rejected","site":{"addr":"1.1.0.1","fault":"not_level_uniform","operand":"first","region":2}}"#
            .to_vec()
    );
    let empty = FaultSite { operand: None, region: None, index: None, fault: None, addr: None };
    assert_eq!(j_site(&empty), b"{}".to_vec());
    let idx = FaultSite { operand: None, region: None, index: Some(7), fault: None, addr: None };
    assert_eq!(j_site(&idx), br#"{"index":7}"#.to_vec());
}

#[test]
fn the_envelope_refusals_come_in_checking_order() {
    let e = |f: &str| match read_envelope(f.as_bytes()) {
        Err(e) => e,
        Ok(_) => panic!("{f} must not parse"),
    };
    assert!(e("{").starts_with("invalid JSON: "));
    assert_eq!(e("[1]"), "request frame must be a JSON object");
    assert_eq!(e(r#"{"id":"x"}"#), "missing field 'op'");
    assert_eq!(e(r#"{"op":3,"id":7}"#), "field 'op': expected a JSON string");
    assert_eq!(e(r#"{"op":"nope","id":7}"#), "field 'id': expected a JSON string");
    assert_eq!(e(r#"{"op":"nope"}"#), "unknown op 'nope'");
    let long = "z".repeat(70);
    assert_eq!(
        e(&format!(r#"{{"op":"{long}"}}"#)),
        format!("unknown op '{}… (70 bytes)'", "z".repeat(64))
    );
}

#[test]
fn an_envelope_reads_its_kind_and_optional_id() {
    let r = read_envelope(br#"{"op":"delegate","id":null}"#).ok().unwrap();
    assert_eq!(r.op, OpKind::Delegate);
    assert!(r.id.is_none());
    let r = read_envelope(br#"{"id":"abc","op":"window_ftt"}"#).ok().unwrap();
    assert_eq!(r.op, OpKind::WindowFtt);
    assert_eq!(r.id.as_deref(), Some("abc"));
    assert!(parse_envelope(&JsonTop::NotObject).is_err());
}

#[test]
fn every_documented_view_value_reads() {
    for (name, v) in [("audit", ClaimView::Audit), ("active", ClaimView::Active), ("default", ClaimView::Default)] {
        assert_eq!(p_view(&Member::Str(name.to_string())), Ok(v), "'{name}' is a documented view");
    }
    let refusal = "expected \"audit\", \"active\", or \"default\"";
    assert_eq!(p_view(&Member::Str("Audit".to_string())), Err(refusal.to_string()));
    assert_eq!(p_view(&Member::Null), Err(refusal.to_string()));
}

#[test]
fn a_number_with_no_u64_reading_is_no_integer() {
    // A number that is no unsigned integer reads as a number without a u64.
    assert_eq!(p_u64(&Member::Number(None)), Err("expected a non-negative JSON integer".to_string()));
    assert_eq!(p_u64(&Member::Number(Some(7))), Ok(7));
    assert_eq!(p_usize(&Member::Number(Some(7))), Ok(7usize));
    assert_eq!(p_u64(&Member::Str("7".to_string())), Err("expected a non-negative JSON integer".to_string()));
    assert_eq!(p_string(&Member::Str("x".to_string())), Ok("x".to_string()));
    assert_eq!(p_string(&Member::Bool(true)), Err("expected a JSON string".to_string()));
}

#[test]
fn the_insert_cap_is_asked_before_the_mint() {
    assert!(room(0, MAX_INSERT_VALUES).is_ok(), "at the cap");
    assert_eq!(
        room(MAX_INSERT_VALUES, 1),
        Err("values mint more than the 262144-value cap on one insert".to_string())
    );
    assert!(room(usize::MAX, 1).is_err(), "the sum saturates rather than wrapping");
}

#[test]
fn a_component_meets_the_digit_checks_before_conversion() {
    assert!(check_nat_text("0").is_ok());
    assert!(check_nat_text(&"9".repeat(MAX_NAT_DIGITS)).is_ok(), "at the digit cap");
    assert_eq!(
        check_nat_text(&"9".repeat(MAX_NAT_DIGITS + 1)),
        Err("component has 4097 digits, past the 4096-digit wire cap".to_string())
    );
    assert_eq!(check_nat_text(""), Err("'' is not a decimal natural".to_string()));
    assert_eq!(check_nat_text("1a"), Err("'1a' is not a decimal natural".to_string()));
    assert_eq!(check_nat_text("+1"), Err("'+1' is not a decimal natural".to_string()));
    let long = "x".repeat(300);
    assert_eq!(
        check_nat_text(&long),
        Err(format!("'{}… (300 bytes)' is not a decimal natural", "x".repeat(64)))
    );
}

#[test]
fn an_envelope_marshals_canonically_and_reads_back() {
    let e = Envelope { id: Some("k-1".to_string()), op: OpKind::Fork };
    let bytes = marshal_envelope(&e);
    assert_eq!(bytes, br#"{"id":"k-1","op":"fork"}"#.to_vec());
    let back = read_envelope(&bytes).ok().unwrap();
    assert_eq!(back.id, e.id);
    assert_eq!(back.op, e.op);
    for k in ALL_KINDS {
        let bare = Envelope { id: None, op: k };
        let bytes = marshal_envelope(&bare);
        assert_eq!(bytes, format!(r#"{{"op":"{}"}}"#, op_name(k)).into_bytes());
        let back = read_envelope(&bytes).ok().unwrap();
        assert_eq!(back.op, k);
        assert!(back.id.is_none());
    }
}

#[test]
fn only_dot_joined_digit_runs_read_as_tumbler_text() {
    assert_eq!(tumbler_text("1.0.1"), Ok(vec!["1".to_string(), "0".to_string(), "1".to_string()]));
    let big = "18446744073709551616";
    assert_eq!(tumbler_text(big), Ok(vec![big.to_string()]), "magnitude is the constructor's, not capped here");
    for bad in ["", ".", "1..2", "1.", ".1", "1.-2", "1.+2", "1.a", "1 .2"] {
        assert!(tumbler_text(bad).is_err(), "'{bad}' must not read");
    }
    assert_eq!(tumbler_text("1.a"), Err("'a' is not a decimal natural".to_string()));
    assert_eq!(p_tum(&Member::Number(Some(1))), Err("expected a dotted-decimal string".to_string()));
    assert_eq!(p_tum(&Member::Str("2.3".to_string())), Ok(vec!["2".to_string(), "3".to_string()]));
}

#[test]
fn a_tumbler_refusal_names_the_text_without_copying_it() {
    let long = "é".repeat(4096);
    let e = tumbler_text(&long).unwrap_err();
    assert!(e.len() < 300, "the refusal is bounded: {}", e.len());
    assert!(e.contains("ééé"));
    assert!(e.contains(&long.len().to_string()), "naming the length it elided: {e}");
}

#[test]
fn tumbler_digit_and_depth_caps_admit_their_maximum_as_text() {
    let at_cap = "9".repeat(MAX_NAT_DIGITS);
    assert_eq!(tumbler_text(&at_cap), Ok(vec![at_cap.clone()]));
    let over = "9".repeat(MAX_NAT_DIGITS + 1);
    assert_eq!(
        tumbler_text(&over),
        Err("component has 4097 digits, past the 4096-digit wire cap".to_string())
    );
    assert!(tumbler_text(&format!("{at_cap}.{at_cap}")).is_ok(), "the cap is per component");
    let deep = vec!["1"; MAX_TUMBLER_COMPONENTS].join(".");
    assert_eq!(tumbler_text(&deep).unwrap().len(), MAX_TUMBLER_COMPONENTS);
    let deeper = vec!["1"; MAX_TUMBLER_COMPONENTS + 1].join(".");
    assert_eq!(
        tumbler_text(&deeper),
        Err("tumbler has 257 components, past the 256-component wire cap".to_string())
    );
    // The depth is refused before any component is looked at.
    let deep_bad = vec!["x"; MAX_TUMBLER_COMPONENTS + 1].join(".");
    assert!(tumbler_text(&deep_bad).unwrap_err().starts_with("tumbler has 257"));
}
