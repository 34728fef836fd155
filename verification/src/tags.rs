//! The wire's name tables: operation kinds, rejection codes, dispositions
//! and span-shape faults, each with the snake_case name the JSON codec
//! writes, and the parse side of the operation table.

use vstd::prelude::*;
use crate::text;

verus! {

/// The kind of an operation: what a request asks for, and what a rejection names. `Unparseable` is the kind of a frame that named none.
#[derive(Clone, Copy, Debug, PartialEq, Eq, Hash, Structural)]
pub enum OpKind {
    CreateNewDocument,
    Delegate,
    RegisterNode,
    Fork,
    NextAccountPrefix,
    PrincipalPrefix,
    Insert,
    Delete,
    Copy,
    Rearrange,
    Version,
    MakeLink,
    Emit,
    Nullify,
    AssertSup,
    EditLink,
    ReadLink,
    FollowLink,
    RetrieveV,
    RetrieveDocVSpan,
    RetrieveDocVSpanSet,
    ShowOrigin,
    ShowDeletions,
    Compare,
    FindDocsContaining,
    Image,
    FindLinksV,
    FindLinksFtt,
    CountV,
    CountFtt,
    WindowV,
    WindowFtt,
    RetrieveEndsets,
    Project,
    DiscoverableFrom,
    DeleteOrphans,
    InClaims,
    OutClaims,
    Unparseable,
}

/// snake_case of the kind's name — the request tag and the rejection's `op` field, one table for both.
pub open spec fn op_name_spec(k: OpKind) -> Seq<char> {
    match k {
        OpKind::CreateNewDocument => "create_new_document"@,
        OpKind::Delegate => "delegate"@,
        OpKind::RegisterNode => "register_node"@,
        OpKind::Fork => "fork"@,
        OpKind::NextAccountPrefix => "next_account_prefix"@,
        OpKind::PrincipalPrefix => "principal_prefix"@,
        OpKind::Insert => "insert"@,
        OpKind::Delete => "delete"@,
        OpKind::Copy => "copy"@,
        OpKind::Rearrange => "rearrange"@,
        OpKind::Version => "version"@,
        OpKind::MakeLink => "make_link"@,
        OpKind::Emit => "emit"@,
        OpKind::Nullify => "nullify"@,
        OpKind::AssertSup => "assert_sup"@,
        OpKind::EditLink => "edit_link"@,
        OpKind::ReadLink => "read_link"@,
        OpKind::FollowLink => "follow_link"@,
        OpKind::RetrieveV => "retrieve_v"@,
        OpKind::RetrieveDocVSpan => "retrieve_doc_v_span"@,
        OpKind::RetrieveDocVSpanSet => "retrieve_doc_v_span_set"@,
        OpKind::ShowOrigin => "show_origin"@,
        OpKind::ShowDeletions => "show_deletions"@,
        OpKind::Compare => "compare"@,
        OpKind::FindDocsContaining => "find_docs_containing"@,
        OpKind::Image => "image"@,
        OpKind::FindLinksV => "find_links_v"@,
        OpKind::FindLinksFtt => "find_links_ftt"@,
        OpKind::CountV => "count_v"@,
        OpKind::CountFtt => "count_ftt"@,
        OpKind::WindowV => "window_v"@,
        OpKind::WindowFtt => "window_ftt"@,
        OpKind::RetrieveEndsets => "retrieve_endsets"@,
        OpKind::Project => "project"@,
        OpKind::DiscoverableFrom => "discoverable_from"@,
        OpKind::DeleteOrphans => "delete_orphans"@,
        OpKind::InClaims => "in_claims"@,
        OpKind::OutClaims => "out_claims"@,
        OpKind::Unparseable => "unparseable"@,
    }
}

/// The kind's wire name.
pub fn op_name(k: OpKind) -> (n: &'static str)
    ensures
        n@ == op_name_spec(k),
{
    match k {
        OpKind::CreateNewDocument => "create_new_document",
        OpKind::Delegate => "delegate",
        OpKind::RegisterNode => "register_node",
        OpKind::Fork => "fork",
        OpKind::NextAccountPrefix => "next_account_prefix",
        OpKind::PrincipalPrefix => "principal_prefix",
        OpKind::Insert => "insert",
        OpKind::Delete => "delete",
        OpKind::Copy => "copy",
        OpKind::Rearrange => "rearrange",
        OpKind::Version => "version",
        OpKind::MakeLink => "make_link",
        OpKind::Emit => "emit",
        OpKind::Nullify => "nullify",
        OpKind::AssertSup => "assert_sup",
        OpKind::EditLink => "edit_link",
        OpKind::ReadLink => "read_link",
        OpKind::FollowLink => "follow_link",
        OpKind::RetrieveV => "retrieve_v",
        OpKind::RetrieveDocVSpan => "retrieve_doc_v_span",
        OpKind::RetrieveDocVSpanSet => "retrieve_doc_v_span_set",
        OpKind::ShowOrigin => "show_origin",
        OpKind::ShowDeletions => "show_deletions",
        OpKind::Compare => "compare",
        OpKind::FindDocsContaining => "find_docs_containing",
        OpKind::Image => "image",
        OpKind::FindLinksV => "find_links_v",
        OpKind::FindLinksFtt => "find_links_ftt",
        OpKind::CountV => "count_v",
        OpKind::CountFtt => "count_ftt",
        OpKind::WindowV => "window_v",
        OpKind::WindowFtt => "window_ftt",
        OpKind::RetrieveEndsets => "retrieve_endsets",
        OpKind::Project => "project",
        OpKind::DiscoverableFrom => "discoverable_from",
        OpKind::DeleteOrphans => "delete_orphans",
        OpKind::InClaims => "in_claims",
        OpKind::OutClaims => "out_claims",
        OpKind::Unparseable => "unparseable",
    }
}

/// What a client should do with a rejected request.
#[derive(Clone, Copy, Debug, PartialEq, Eq, Hash, Structural)]
pub enum Disposition {
    Permanent,
    Reorder,
    Retry,
    Halt,
}

/// The disposition's wire name.
pub open spec fn disposition_name_spec(k: Disposition) -> Seq<char> {
    match k {
        Disposition::Permanent => "permanent"@,
        Disposition::Reorder => "reorder"@,
        Disposition::Retry => "retry"@,
        Disposition::Halt => "halt"@,
    }
}

/// The disposition's wire name.
pub fn disposition_name(k: Disposition) -> (n: &'static str)
    ensures
        n@ == disposition_name_spec(k),
{
    match k {
        Disposition::Permanent => "permanent",
        Disposition::Reorder => "reorder",
        Disposition::Retry => "retry",
        Disposition::Halt => "halt",
    }
}

/// How a span specification failed its shape check.
#[derive(Clone, Copy, Debug, PartialEq, Eq, Hash, Structural)]
pub enum SpecFault {
    NotOrdinalLevel,
    NotLevelUniform,
    StartNotZeroFree,
    StartTooShallow,
}

/// The fault's wire name.
pub open spec fn fault_name_spec(k: SpecFault) -> Seq<char> {
    match k {
        SpecFault::NotOrdinalLevel => "not_ordinal_level"@,
        SpecFault::NotLevelUniform => "not_level_uniform"@,
        SpecFault::StartNotZeroFree => "start_not_zero_free"@,
        SpecFault::StartTooShallow => "start_too_shallow"@,
    }
}

/// The fault's wire name.
pub fn fault_name(k: SpecFault) -> (n: &'static str)
    ensures
        n@ == fault_name_spec(k),
{
    match k {
        SpecFault::NotOrdinalLevel => "not_ordinal_level",
        SpecFault::NotLevelUniform => "not_level_uniform",
        SpecFault::StartNotZeroFree => "start_not_zero_free",
        SpecFault::StartTooShallow => "start_too_shallow",
    }
}

/// Which operand of a two-operand operation a fault lies in.
#[derive(Clone, Copy, Debug, PartialEq, Eq, Hash, Structural)]
pub enum Operand {
    First,
    Second,
}

/// The operand's wire name.
pub open spec fn operand_name_spec(o: Operand) -> Seq<char> {
    match o {
        Operand::First => "first"@,
        Operand::Second => "second"@,
    }
}

/// The operand's wire name.
pub fn operand_name(o: Operand) -> (n: &'static str)
    ensures
        n@ == operand_name_spec(o),
{
    match o {
        Operand::First => "first",
        Operand::Second => "second",
    }
}

/// Why a request was rejected.
#[derive(Clone, Copy, Debug, PartialEq, Eq, Hash, Structural)]
pub enum RejectCode {
    Unauthenticated,
    Malformed,
    Durability,
    TxnOverBudget,
    Poisoned,
    HomeNotRegistered,
    DocNotRegistered,
    SourceNotRegistered,
    ParentNotRegistered,
    NotRegistered,
    OriginalNotResident,
    EndpointNotResident,
    NotOwner,
    NotAnAccount,
    Gate,
    DelegatorUnknown,
    DuplicateId,
    NotAncestor,
    NotAuthorized,
    NotAccountTier,
    NotTopDown,
    NotNextForm,
    NotValid,
    NotNode,
    TooDeep,
    NotDescendantOfBootstrap,
    NotFresh,
    BadPosition,
    EmptyContent,
    Content,
    EmptySource,
    BadSpan,
    DanglingSource,
    EmptyResult,
    NotArranged,
    OutOfBounds,
    EmptyWidth,
    BadCutCount,
    NotAscending,
    EmptyContentSubspace,
    NotAPrincipal,
    NodeTierCrossOwner,
    NotHomeLink,
    AlreadySeated,
    NotContentSubspace,
    IllFormedSpec,
    SlotTooLarge,
    EmptyTypeResolution,
    ShapeViolation,
    RetractionClass,
    NonAddressDenotingType,
    BadTarget,
    SelfSupersession,
    IllFormedSuccessor,
    DcViolation,
    NoSuchSubspace,
    EmptySubspace,
    DepthIncompatible,
    RangeNotPresent,
    MalformedSpan,
    NotALink,
    BadRegion,
}

/// snake_case of every code — exhaustive, so a new code cannot ship without a wire name.
pub open spec fn code_name_spec(k: RejectCode) -> Seq<char> {
    match k {
        RejectCode::Unauthenticated => "unauthenticated"@,
        RejectCode::Malformed => "malformed"@,
        RejectCode::Durability => "durability"@,
        RejectCode::TxnOverBudget => "txn_over_budget"@,
        RejectCode::Poisoned => "poisoned"@,
        RejectCode::HomeNotRegistered => "home_not_registered"@,
        RejectCode::DocNotRegistered => "doc_not_registered"@,
        RejectCode::SourceNotRegistered => "source_not_registered"@,
        RejectCode::ParentNotRegistered => "parent_not_registered"@,
        RejectCode::NotRegistered => "not_registered"@,
        RejectCode::OriginalNotResident => "original_not_resident"@,
        RejectCode::EndpointNotResident => "endpoint_not_resident"@,
        RejectCode::NotOwner => "not_owner"@,
        RejectCode::NotAnAccount => "not_an_account"@,
        RejectCode::Gate => "gate"@,
        RejectCode::DelegatorUnknown => "delegator_unknown"@,
        RejectCode::DuplicateId => "duplicate_id"@,
        RejectCode::NotAncestor => "not_ancestor"@,
        RejectCode::NotAuthorized => "not_authorized"@,
        RejectCode::NotAccountTier => "not_account_tier"@,
        RejectCode::NotTopDown => "not_top_down"@,
        RejectCode::NotNextForm => "not_next_form"@,
        RejectCode::NotValid => "not_valid"@,
        RejectCode::NotNode => "not_node"@,
        RejectCode::TooDeep => "too_deep"@,
        RejectCode::NotDescendantOfBootstrap => "not_descendant_of_bootstrap"@,
        RejectCode::NotFresh => "not_fresh"@,
        RejectCode::BadPosition => "bad_position"@,
        RejectCode::EmptyContent => "empty_content"@,
        RejectCode::Content => "content"@,
        RejectCode::EmptySource => "empty_source"@,
        RejectCode::BadSpan => "bad_span"@,
        RejectCode::DanglingSource => "dangling_source"@,
        RejectCode::EmptyResult => "empty_result"@,
        RejectCode::NotArranged => "not_arranged"@,
        RejectCode::OutOfBounds => "out_of_bounds"@,
        RejectCode::EmptyWidth => "empty_width"@,
        RejectCode::BadCutCount => "bad_cut_count"@,
        RejectCode::NotAscending => "not_ascending"@,
        RejectCode::EmptyContentSubspace => "empty_content_subspace"@,
        RejectCode::NotAPrincipal => "not_a_principal"@,
        RejectCode::NodeTierCrossOwner => "node_tier_cross_owner"@,
        RejectCode::NotHomeLink => "not_home_link"@,
        RejectCode::AlreadySeated => "already_seated"@,
        RejectCode::NotContentSubspace => "not_content_subspace"@,
        RejectCode::IllFormedSpec => "ill_formed_spec"@,
        RejectCode::SlotTooLarge => "slot_too_large"@,
        RejectCode::EmptyTypeResolution => "empty_type_resolution"@,
        RejectCode::ShapeViolation => "shape_violation"@,
        RejectCode::RetractionClass => "retraction_class"@,
        RejectCode::NonAddressDenotingType => "non_address_denoting_type"@,
        RejectCode::BadTarget => "bad_target"@,
        RejectCode::SelfSupersession => "self_supersession"@,
        RejectCode::IllFormedSuccessor => "ill_formed_successor"@,
        RejectCode::DcViolation => "dc_violation"@,
        RejectCode::NoSuchSubspace => "no_such_subspace"@,
        RejectCode::EmptySubspace => "empty_subspace"@,
        RejectCode::DepthIncompatible => "depth_incompatible"@,
        RejectCode::RangeNotPresent => "range_not_present"@,
        RejectCode::MalformedSpan => "malformed_span"@,
        RejectCode::NotALink => "not_a_link"@,
        RejectCode::BadRegion => "bad_region"@,
    }
}

/// The code's wire name.
pub fn code_name(k: RejectCode) -> (n: &'static str)
    ensures
        n@ == code_name_spec(k),
{
    match k {
        RejectCode::Unauthenticated => "unauthenticated",
        RejectCode::Malformed => "malformed",
        RejectCode::Durability => "durability",
        RejectCode::TxnOverBudget => "txn_over_budget",
        RejectCode::Poisoned => "poisoned",
        RejectCode::HomeNotRegistered => "home_not_registered",
        RejectCode::DocNotRegistered => "doc_not_registered",
        RejectCode::SourceNotRegistered => "source_not_registered",
        RejectCode::ParentNotRegistered => "parent_not_registered",
        RejectCode::NotRegistered => "not_registered",
        RejectCode::OriginalNotResident => "original_not_resident",
        RejectCode::EndpointNotResident => "endpoint_not_resident",
        RejectCode::NotOwner => "not_owner",
        RejectCode::NotAnAccount => "not_an_account",
        RejectCode::Gate => "gate",
        RejectCode::DelegatorUnknown => "delegator_unknown",
        RejectCode::DuplicateId => "duplicate_id",
        RejectCode::NotAncestor => "not_ancestor",
        RejectCode::NotAuthorized => "not_authorized",
        RejectCode::NotAccountTier => "not_account_tier",
        RejectCode::NotTopDown => "not_top_down",
        RejectCode::NotNextForm => "not_next_form",
        RejectCode::NotValid => "not_valid",
        RejectCode::NotNode => "not_node",
        RejectCode::TooDeep => "too_deep",
        RejectCode::NotDescendantOfBootstrap => "not_descendant_of_bootstrap",
        RejectCode::NotFresh => "not_fresh",
        RejectCode::BadPosition => "bad_position",
        RejectCode::EmptyContent => "empty_content",
        RejectCode::Content => "content",
        RejectCode::EmptySource => "empty_source",
        RejectCode::BadSpan => "bad_span",
        RejectCode::DanglingSource => "dangling_source",
        RejectCode::EmptyResult => "empty_result",
        RejectCode::NotArranged => "not_arranged",
        RejectCode::OutOfBounds => "out_of_bounds",
        RejectCode::EmptyWidth => "empty_width",
        RejectCode::BadCutCount => "bad_cut_count",
        RejectCode::NotAscending => "not_ascending",
        RejectCode::EmptyContentSubspace => "empty_content_subspace",
        RejectCode::NotAPrincipal => "not_a_principal",
        RejectCode::NodeTierCrossOwner => "node_tier_cross_owner",
        RejectCode::NotHomeLink => "not_home_link",
        RejectCode::AlreadySeated => "already_seated",
        RejectCode::NotContentSubspace => "not_content_subspace",
        RejectCode::IllFormedSpec => "ill_formed_spec",
        RejectCode::SlotTooLarge => "slot_too_large",
        RejectCode::EmptyTypeResolution => "empty_type_resolution",
        RejectCode::ShapeViolation => "shape_violation",
        RejectCode::RetractionClass => "retraction_class",
        RejectCode::NonAddressDenotingType => "non_address_denoting_type",
        RejectCode::BadTarget => "bad_target",
        RejectCode::SelfSupersession => "self_supersession",
        RejectCode::IllFormedSuccessor => "ill_formed_successor",
        RejectCode::DcViolation => "dc_violation",
        RejectCode::NoSuchSubspace => "no_such_subspace",
        RejectCode::EmptySubspace => "empty_subspace",
        RejectCode::DepthIncompatible => "depth_incompatible",
        RejectCode::RangeNotPresent => "range_not_present",
        RejectCode::MalformedSpan => "malformed_span",
        RejectCode::NotALink => "not_a_link",
        RejectCode::BadRegion => "bad_region",
    }
}

/// The request kind an `op` tag names, if any. `unparseable` names a
/// rejection's kind only, never a request.
pub open spec fn op_kind_spec(name: Seq<char>) -> Option<OpKind> {
    if name == "create_new_document"@ {
        Some(OpKind::CreateNewDocument)
    } else if name == "delegate"@ {
        Some(OpKind::Delegate)
    } else if name == "register_node"@ {
        Some(OpKind::RegisterNode)
    } else if name == "fork"@ {
        Some(OpKind::Fork)
    } else if name == "next_account_prefix"@ {
        Some(OpKind::NextAccountPrefix)
    } else if name == "principal_prefix"@ {
        Some(OpKind::PrincipalPrefix)
    } else if name == "insert"@ {
        Some(OpKind::Insert)
    } else if name == "delete"@ {
        Some(OpKind::Delete)
    } else if name == "copy"@ {
        Some(OpKind::Copy)
    } else if name == "rearrange"@ {
        Some(OpKind::Rearrange)
    } else if name == "version"@ {
        Some(OpKind::Version)
    } else if name == "make_link"@ {
        Some(OpKind::MakeLink)
    } else if name == "emit"@ {
        Some(OpKind::Emit)
    } else if name == "nullify"@ {
        Some(OpKind::Nullify)
    } else if name == "assert_sup"@ {
        Some(OpKind::AssertSup)
    } else if name == "edit_link"@ {
        Some(OpKind::EditLink)
    } else if name == "read_link"@ {
        Some(OpKind::ReadLink)
    } else if name == "follow_link"@ {
        Some(OpKind::FollowLink)
    } else if name == "retrieve_v"@ {
        Some(OpKind::RetrieveV)
    } else if name == "retrieve_doc_v_span"@ {
        Some(OpKind::RetrieveDocVSpan)
    } else if name == "retrieve_doc_v_span_set"@ {
        Some(OpKind::RetrieveDocVSpanSet)
    } else if name == "show_origin"@ {
        Some(OpKind::ShowOrigin)
    } else if name == "show_deletions"@ {
        Some(OpKind::ShowDeletions)
    } else if name == "compare"@ {
        Some(OpKind::Compare)
    } else if name == "find_docs_containing"@ {
        Some(OpKind::FindDocsContaining)
    } else if name == "image"@ {
        Some(OpKind::Image)
    } else if name == "find_links_v"@ {
        Some(OpKind::FindLinksV)
    } else if name == "find_links_ftt"@ {
        Some(OpKind::FindLinksFtt)
    } else if name == "count_v"@ {
        Some(OpKind::CountV)
    } else if name == "count_ftt"@ {
        Some(OpKind::CountFtt)
    } else if name == "window_v"@ {
        Some(OpKind::WindowV)
    } else if name == "window_ftt"@ {
        Some(OpKind::WindowFtt)
    } else if name == "retrieve_endsets"@ {
        Some(OpKind::RetrieveEndsets)
    } else if name == "project"@ {
        Some(OpKind::Project)
    } else if name == "discoverable_from"@ {
        Some(OpKind::DiscoverableFrom)
    } else if name == "delete_orphans"@ {
        Some(OpKind::DeleteOrphans)
    } else if name == "in_claims"@ {
        Some(OpKind::InClaims)
    } else if name == "out_claims"@ {
        Some(OpKind::OutClaims)
    } else {
        None
    }
}

/// The request kind an `op` tag names — the parse side of [`op_name`].
pub fn op_kind_of(name: &str) -> (r: Option<OpKind>)
    ensures
        r == op_kind_spec(name@),
{
    if text::str_eq(name, "create_new_document") {
        return Some(OpKind::CreateNewDocument);
    }
    if text::str_eq(name, "delegate") {
        return Some(OpKind::Delegate);
    }
    if text::str_eq(name, "register_node") {
        return Some(OpKind::RegisterNode);
    }
    if text::str_eq(name, "fork") {
        return Some(OpKind::Fork);
    }
    if text::str_eq(name, "next_account_prefix") {
        return Some(OpKind::NextAccountPrefix);
    }
    if text::str_eq(name, "principal_prefix") {
        return Some(OpKind::PrincipalPrefix);
    }
    if text::str_eq(name, "insert") {
        return Some(OpKind::Insert);
    }
    if text::str_eq(name, "delete") {
        return Some(OpKind::Delete);
    }
    if text::str_eq(name, "copy") {
        return Some(OpKind::Copy);
    }
    if text::str_eq(name, "rearrange") {
        return Some(OpKind::Rearrange);
    }
    if text::str_eq(name, "version") {
        return Some(OpKind::Version);
    }
    if text::str_eq(name, "make_link") {
        return Some(OpKind::MakeLink);
    }
    if text::str_eq(name, "emit") {
        return Some(OpKind::Emit);
    }
    if text::str_eq(name, "nullify") {
        return Some(OpKind::Nullify);
    }
    if text::str_eq(name, "assert_sup") {
        return Some(OpKind::AssertSup);
    }
    if text::str_eq(name, "edit_link") {
        return Some(OpKind::EditLink);
    }
    if text::str_eq(name, "read_link") {
        return Some(OpKind::ReadLink);
    }
    if text::str_eq(name, "follow_link") {
        return Some(OpKind::FollowLink);
    }
    if text::str_eq(name, "retrieve_v") {
        return Some(OpKind::RetrieveV);
    }
    if text::str_eq(name, "retrieve_doc_v_span") {
        return Some(OpKind::RetrieveDocVSpan);
    }
    if text::str_eq(name, "retrieve_doc_v_span_set") {
        return Some(OpKind::RetrieveDocVSpanSet);
    }
    if text::str_eq(name, "show_origin") {
        return Some(OpKind::ShowOrigin);
    }
    if text::str_eq(name, "show_deletions") {
        return Some(OpKind::ShowDeletions);
    }
    if text::str_eq(name, "compare") {
        return Some(OpKind::Compare);
    }
    if text::str_eq(name, "find_docs_containing") {
        return Some(OpKind::FindDocsContaining);
    }
    if text::str_eq(name, "image") {
        return Some(OpKind::Image);
    }
    if text::str_eq(name, "find_links_v") {
        return Some(OpKind::FindLinksV);
    }
    if text::str_eq(name, "find_links_ftt") {
        return Some(OpKind::FindLinksFtt);
    }
    if text::str_eq(name, "count_v") {
        return Some(OpKind::CountV);
    }
    if text::str_eq(name, "count_ftt") {
        return Some(OpKind::CountFtt);
    }
    if text::str_eq(name, "window_v") {
        return Some(OpKind::WindowV);
    }
    if text::str_eq(name, "window_ftt") {
        return Some(OpKind::WindowFtt);
    }
    if text::str_eq(name, "retrieve_endsets") {
        return Some(OpKind::RetrieveEndsets);
    }
    if text::str_eq(name, "project") {
        return Some(OpKind::Project);
    }
    if text::str_eq(name, "discoverable_from") {
        return Some(OpKind::DiscoverableFrom);
    }
    if text::str_eq(name, "delete_orphans") {
        return Some(OpKind::DeleteOrphans);
    }
    if text::str_eq(name, "in_claims") {
        return Some(OpKind::InClaims);
    }
    if text::str_eq(name, "out_claims") {
        return Some(OpKind::OutClaims);
    }
    None
}

/// Every request kind's tag reads back as that kind: the marshal and
/// parse tables agree.
pub proof fn law_op_tag_round_trip(k: OpKind)
    requires
        k != OpKind::Unparseable,
    ensures
        op_kind_spec(op_name_spec(k)) == Some(k),
{
    // Each tag's length and leading characters set it apart from every tag
    // the parse tries before it.
    reveal_strlit("create_new_document");
    assert("create_new_document"@.len() == 19 && "create_new_document"@[0] == 'c');
    reveal_strlit("delegate");
    assert("delegate"@.len() == 8 && "delegate"@[0] == 'd');
    reveal_strlit("register_node");
    assert("register_node"@.len() == 13 && "register_node"@[0] == 'r');
    reveal_strlit("fork");
    assert("fork"@.len() == 4 && "fork"@[0] == 'f');
    reveal_strlit("next_account_prefix");
    assert("next_account_prefix"@.len() == 19 && "next_account_prefix"@[0] == 'n');
    reveal_strlit("principal_prefix");
    assert("principal_prefix"@.len() == 16 && "principal_prefix"@[0] == 'p');
    reveal_strlit("insert");
    assert("insert"@.len() == 6 && "insert"@[0] == 'i');
    reveal_strlit("delete");
    assert("delete"@.len() == 6 && "delete"@[0] == 'd');
    reveal_strlit("copy");
    assert("copy"@.len() == 4 && "copy"@[0] == 'c');
    reveal_strlit("rearrange");
    assert("rearrange"@.len() == 9 && "rearrange"@[0] == 'r' && "rearrange"@[3] == 'r');
    reveal_strlit("version");
    assert("version"@.len() == 7 && "version"@[0] == 'v');
    reveal_strlit("make_link");
    assert("make_link"@.len() == 9 && "make_link"@[0] == 'm');
    reveal_strlit("emit");
    assert("emit"@.len() == 4 && "emit"@[0] == 'e');
    reveal_strlit("nullify");
    assert("nullify"@.len() == 7 && "nullify"@[0] == 'n');
    reveal_strlit("assert_sup");
    assert("assert_sup"@.len() == 10 && "assert_sup"@[0] == 'a');
    reveal_strlit("edit_link");
    assert("edit_link"@.len() == 9 && "edit_link"@[0] == 'e');
    reveal_strlit("read_link");
    assert("read_link"@.len() == 9 && "read_link"@[0] == 'r' && "read_link"@[3] == 'd');
    reveal_strlit("follow_link");
    assert("follow_link"@.len() == 11 && "follow_link"@[0] == 'f');
    reveal_strlit("retrieve_v");
    assert("retrieve_v"@.len() == 10 && "retrieve_v"@[0] == 'r');
    reveal_strlit("retrieve_doc_v_span");
    assert("retrieve_doc_v_span"@.len() == 19 && "retrieve_doc_v_span"@[0] == 'r');
    reveal_strlit("retrieve_doc_v_span_set");
    assert("retrieve_doc_v_span_set"@.len() == 23 && "retrieve_doc_v_span_set"@[0] == 'r');
    reveal_strlit("show_origin");
    assert("show_origin"@.len() == 11 && "show_origin"@[0] == 's');
    reveal_strlit("show_deletions");
    assert("show_deletions"@.len() == 14 && "show_deletions"@[0] == 's');
    reveal_strlit("compare");
    assert("compare"@.len() == 7 && "compare"@[0] == 'c' && "compare"@[2] == 'm');
    reveal_strlit("find_docs_containing");
    assert("find_docs_containing"@.len() == 20 && "find_docs_containing"@[0] == 'f');
    reveal_strlit("image");
    assert("image"@.len() == 5 && "image"@[0] == 'i');
    reveal_strlit("find_links_v");
    assert("find_links_v"@.len() == 12 && "find_links_v"@[0] == 'f');
    reveal_strlit("find_links_ftt");
    assert("find_links_ftt"@.len() == 14 && "find_links_ftt"@[0] == 'f');
    reveal_strlit("count_v");
    assert("count_v"@.len() == 7 && "count_v"@[0] == 'c' && "count_v"@[2] == 'u');
    reveal_strlit("count_ftt");
    assert("count_ftt"@.len() == 9 && "count_ftt"@[0] == 'c');
    reveal_strlit("window_v");
    assert("window_v"@.len() == 8 && "window_v"@[0] == 'w');
    reveal_strlit("window_ftt");
    assert("window_ftt"@.len() == 10 && "window_ftt"@[0] == 'w');
    reveal_strlit("retrieve_endsets");
    assert("retrieve_endsets"@.len() == 16 && "retrieve_endsets"@[0] == 'r');
    reveal_strlit("project");
    assert("project"@.len() == 7 && "project"@[0] == 'p');
    reveal_strlit("discoverable_from");
    assert("discoverable_from"@.len() == 17 && "discoverable_from"@[0] == 'd');
    reveal_strlit("delete_orphans");
    assert("delete_orphans"@.len() == 14 && "delete_orphans"@[0] == 'd');
    reveal_strlit("in_claims");
    assert("in_claims"@.len() == 9 && "in_claims"@[0] == 'i');
    reveal_strlit("out_claims");
    assert("out_claims"@.len() == 10 && "out_claims"@[0] == 'o');
    match k {
        OpKind::CreateNewDocument => {},
        OpKind::Delegate => {},
        OpKind::RegisterNode => {},
        OpKind::Fork => {},
        OpKind::NextAccountPrefix => {},
        OpKind::PrincipalPrefix => {},
        OpKind::Insert => {},
        OpKind::Delete => {},
        OpKind::Copy => {},
        OpKind::Rearrange => {},
        OpKind::Version => {},
        OpKind::MakeLink => {},
        OpKind::Emit => {},
        OpKind::Nullify => {},
        OpKind::AssertSup => {},
        OpKind::EditLink => {},
        OpKind::ReadLink => {},
        OpKind::FollowLink => {},
        OpKind::RetrieveV => {},
        OpKind::RetrieveDocVSpan => {},
        OpKind::RetrieveDocVSpanSet => {},
        OpKind::ShowOrigin => {},
        OpKind::ShowDeletions => {},
        OpKind::Compare => {},
        OpKind::FindDocsContaining => {},
        OpKind::Image => {},
        OpKind::FindLinksV => {},
        OpKind::FindLinksFtt => {},
        OpKind::CountV => {},
        OpKind::CountFtt => {},
        OpKind::WindowV => {},
        OpKind::WindowFtt => {},
        OpKind::RetrieveEndsets => {},
        OpKind::Project => {},
        OpKind::DiscoverableFrom => {},
        OpKind::DeleteOrphans => {},
        OpKind::InClaims => {},
        OpKind::OutClaims => {},
        OpKind::Unparseable => {},
    }
}

/// The wire's name table, entry by entry: each kind's tag is the snake_case
/// name the codec fixes for it, and each request tag parses as its kind.
pub proof fn law_op_tags_are_the_wire_table()
    ensures
        op_name_spec(OpKind::CreateNewDocument) == "create_new_document"@,
        op_name_spec(OpKind::Delegate) == "delegate"@,
        op_name_spec(OpKind::RegisterNode) == "register_node"@,
        op_name_spec(OpKind::Fork) == "fork"@,
        op_name_spec(OpKind::NextAccountPrefix) == "next_account_prefix"@,
        op_name_spec(OpKind::PrincipalPrefix) == "principal_prefix"@,
        op_name_spec(OpKind::Insert) == "insert"@,
        op_name_spec(OpKind::Delete) == "delete"@,
        op_name_spec(OpKind::Copy) == "copy"@,
        op_name_spec(OpKind::Rearrange) == "rearrange"@,
        op_name_spec(OpKind::Version) == "version"@,
        op_name_spec(OpKind::MakeLink) == "make_link"@,
        op_name_spec(OpKind::Emit) == "emit"@,
        op_name_spec(OpKind::Nullify) == "nullify"@,
        op_name_spec(OpKind::AssertSup) == "assert_sup"@,
        op_name_spec(OpKind::EditLink) == "edit_link"@,
        op_name_spec(OpKind::ReadLink) == "read_link"@,
        op_name_spec(OpKind::FollowLink) == "follow_link"@,
        op_name_spec(OpKind::RetrieveV) == "retrieve_v"@,
        op_name_spec(OpKind::RetrieveDocVSpan) == "retrieve_doc_v_span"@,
        op_name_spec(OpKind::RetrieveDocVSpanSet) == "retrieve_doc_v_span_set"@,
        op_name_spec(OpKind::ShowOrigin) == "show_origin"@,
        op_name_spec(OpKind::ShowDeletions) == "show_deletions"@,
        op_name_spec(OpKind::Compare) == "compare"@,
        op_name_spec(OpKind::FindDocsContaining) == "find_docs_containing"@,
        op_name_spec(OpKind::Image) == "image"@,
        op_name_spec(OpKind::FindLinksV) == "find_links_v"@,
        op_name_spec(OpKind::FindLinksFtt) == "find_links_ftt"@,
        op_name_spec(OpKind::CountV) == "count_v"@,
        op_name_spec(OpKind::CountFtt) == "count_ftt"@,
        op_name_spec(OpKind::WindowV) == "window_v"@,
        op_name_spec(OpKind::WindowFtt) == "window_ftt"@,
        op_name_spec(OpKind::RetrieveEndsets) == "retrieve_endsets"@,
        op_name_spec(OpKind::Project) == "project"@,
        op_name_spec(OpKind::DiscoverableFrom) == "discoverable_from"@,
        op_name_spec(OpKind::DeleteOrphans) == "delete_orphans"@,
        op_name_spec(OpKind::InClaims) == "in_claims"@,
        op_name_spec(OpKind::OutClaims) == "out_claims"@,
        op_name_spec(OpKind::Unparseable) == "unparseable"@,
        op_kind_spec("create_new_document"@) == Some(OpKind::CreateNewDocument),
        op_kind_spec("delegate"@) == Some(OpKind::Delegate),
        op_kind_spec("register_node"@) == Some(OpKind::RegisterNode),
        op_kind_spec("fork"@) == Some(OpKind::Fork),
        op_kind_spec("next_account_prefix"@) == Some(OpKind::NextAccountPrefix),
        op_kind_spec("principal_prefix"@) == Some(OpKind::PrincipalPrefix),
        op_kind_spec("insert"@) == Some(OpKind::Insert),
        op_kind_spec("delete"@) == Some(OpKind::Delete),
        op_kind_spec("copy"@) == Some(OpKind::Copy),
        op_kind_spec("rearrange"@) == Some(OpKind::Rearrange),
        op_kind_spec("version"@) == Some(OpKind::Version),
        op_kind_spec("make_link"@) == Some(OpKind::MakeLink),
        op_kind_spec("emit"@) == Some(OpKind::Emit),
        op_kind_spec("nullify"@) == Some(OpKind::Nullify),
        op_kind_spec("assert_sup"@) == Some(OpKind::AssertSup),
        op_kind_spec("edit_link"@) == Some(OpKind::EditLink),
        op_kind_spec("read_link"@) == Some(OpKind::ReadLink),
        op_kind_spec("follow_link"@) == Some(OpKind::FollowLink),
        op_kind_spec("retrieve_v"@) == Some(OpKind::RetrieveV),
        op_kind_spec("retrieve_doc_v_span"@) == Some(OpKind::RetrieveDocVSpan),
        op_kind_spec("retrieve_doc_v_span_set"@) == Some(OpKind::RetrieveDocVSpanSet),
        op_kind_spec("show_origin"@) == Some(OpKind::ShowOrigin),
        op_kind_spec("show_deletions"@) == Some(OpKind::ShowDeletions),
        op_kind_spec("compare"@) == Some(OpKind::Compare),
        op_kind_spec("find_docs_containing"@) == Some(OpKind::FindDocsContaining),
        op_kind_spec("image"@) == Some(OpKind::Image),
        op_kind_spec("find_links_v"@) == Some(OpKind::FindLinksV),
        op_kind_spec("find_links_ftt"@) == Some(OpKind::FindLinksFtt),
        op_kind_spec("count_v"@) == Some(OpKind::CountV),
        op_kind_spec("count_ftt"@) == Some(OpKind::CountFtt),
        op_kind_spec("window_v"@) == Some(OpKind::WindowV),
        op_kind_spec("window_ftt"@) == Some(OpKind::WindowFtt),
        op_kind_spec("retrieve_endsets"@) == Some(OpKind::RetrieveEndsets),
        op_kind_spec("project"@) == Some(OpKind::Project),
        op_kind_spec("discoverable_from"@) == Some(OpKind::DiscoverableFrom),
        op_kind_spec("delete_orphans"@) == Some(OpKind::DeleteOrphans),
        op_kind_spec("in_claims"@) == Some(OpKind::InClaims),
        op_kind_spec("out_claims"@) == Some(OpKind::OutClaims),
{
    law_op_tag_round_trip(OpKind::CreateNewDocument);
    law_op_tag_round_trip(OpKind::Delegate);
    law_op_tag_round_trip(OpKind::RegisterNode);
    law_op_tag_round_trip(OpKind::Fork);
    law_op_tag_round_trip(OpKind::NextAccountPrefix);
    law_op_tag_round_trip(OpKind::PrincipalPrefix);
    law_op_tag_round_trip(OpKind::Insert);
    law_op_tag_round_trip(OpKind::Delete);
    law_op_tag_round_trip(OpKind::Copy);
    law_op_tag_round_trip(OpKind::Rearrange);
    law_op_tag_round_trip(OpKind::Version);
    law_op_tag_round_trip(OpKind::MakeLink);
    law_op_tag_round_trip(OpKind::Emit);
    law_op_tag_round_trip(OpKind::Nullify);
    law_op_tag_round_trip(OpKind::AssertSup);
    law_op_tag_round_trip(OpKind::EditLink);
    law_op_tag_round_trip(OpKind::ReadLink);
    law_op_tag_round_trip(OpKind::FollowLink);
    law_op_tag_round_trip(OpKind::RetrieveV);
    law_op_tag_round_trip(OpKind::RetrieveDocVSpan);
    law_op_tag_round_trip(OpKind::RetrieveDocVSpanSet);
    law_op_tag_round_trip(OpKind::ShowOrigin);
    law_op_tag_round_trip(OpKind::ShowDeletions);
    law_op_tag_round_trip(OpKind::Compare);
    law_op_tag_round_trip(OpKind::FindDocsContaining);
    law_op_tag_round_trip(OpKind::Image);
    law_op_tag_round_trip(OpKind::FindLinksV);
    law_op_tag_round_trip(OpKind::FindLinksFtt);
    law_op_tag_round_trip(OpKind::CountV);
    law_op_tag_round_trip(OpKind::CountFtt);
    law_op_tag_round_trip(OpKind::WindowV);
    law_op_tag_round_trip(OpKind::WindowFtt);
    law_op_tag_round_trip(OpKind::RetrieveEndsets);
    law_op_tag_round_trip(OpKind::Project);
    law_op_tag_round_trip(OpKind::DiscoverableFrom);
    law_op_tag_round_trip(OpKind::DeleteOrphans);
    law_op_tag_round_trip(OpKind::InClaims);
    law_op_tag_round_trip(OpKind::OutClaims);
}

/// The rejection codes' wire names, entry by entry.
pub proof fn law_code_name_table()
    ensures
        code_name_spec(RejectCode::Unauthenticated) == "unauthenticated"@,
        code_name_spec(RejectCode::Malformed) == "malformed"@,
        code_name_spec(RejectCode::Durability) == "durability"@,
        code_name_spec(RejectCode::TxnOverBudget) == "txn_over_budget"@,
        code_name_spec(RejectCode::Poisoned) == "poisoned"@,
        code_name_spec(RejectCode::HomeNotRegistered) == "home_not_registered"@,
        code_name_spec(RejectCode::DocNotRegistered) == "doc_not_registered"@,
        code_name_spec(RejectCode::SourceNotRegistered) == "source_not_registered"@,
        code_name_spec(RejectCode::ParentNotRegistered) == "parent_not_registered"@,
        code_name_spec(RejectCode::NotRegistered) == "not_registered"@,
        code_name_spec(RejectCode::OriginalNotResident) == "original_not_resident"@,
        code_name_spec(RejectCode::EndpointNotResident) == "endpoint_not_resident"@,
        code_name_spec(RejectCode::NotOwner) == "not_owner"@,
        code_name_spec(RejectCode::NotAnAccount) == "not_an_account"@,
        code_name_spec(RejectCode::Gate) == "gate"@,
        code_name_spec(RejectCode::DelegatorUnknown) == "delegator_unknown"@,
        code_name_spec(RejectCode::DuplicateId) == "duplicate_id"@,
        code_name_spec(RejectCode::NotAncestor) == "not_ancestor"@,
        code_name_spec(RejectCode::NotAuthorized) == "not_authorized"@,
        code_name_spec(RejectCode::NotAccountTier) == "not_account_tier"@,
        code_name_spec(RejectCode::NotTopDown) == "not_top_down"@,
        code_name_spec(RejectCode::NotNextForm) == "not_next_form"@,
        code_name_spec(RejectCode::NotValid) == "not_valid"@,
        code_name_spec(RejectCode::NotNode) == "not_node"@,
        code_name_spec(RejectCode::TooDeep) == "too_deep"@,
        code_name_spec(RejectCode::NotDescendantOfBootstrap) == "not_descendant_of_bootstrap"@,
        code_name_spec(RejectCode::NotFresh) == "not_fresh"@,
        code_name_spec(RejectCode::BadPosition) == "bad_position"@,
        code_name_spec(RejectCode::EmptyContent) == "empty_content"@,
        code_name_spec(RejectCode::Content) == "content"@,
        code_name_spec(RejectCode::EmptySource) == "empty_source"@,
        code_name_spec(RejectCode::BadSpan) == "bad_span"@,
        code_name_spec(RejectCode::DanglingSource) == "dangling_source"@,
        code_name_spec(RejectCode::EmptyResult) == "empty_result"@,
        code_name_spec(RejectCode::NotArranged) == "not_arranged"@,
        code_name_spec(RejectCode::OutOfBounds) == "out_of_bounds"@,
        code_name_spec(RejectCode::EmptyWidth) == "empty_width"@,
        code_name_spec(RejectCode::BadCutCount) == "bad_cut_count"@,
        code_name_spec(RejectCode::NotAscending) == "not_ascending"@,
        code_name_spec(RejectCode::EmptyContentSubspace) == "empty_content_subspace"@,
        code_name_spec(RejectCode::NotAPrincipal) == "not_a_principal"@,
        code_name_spec(RejectCode::NodeTierCrossOwner) == "node_tier_cross_owner"@,
        code_name_spec(RejectCode::NotHomeLink) == "not_home_link"@,
        code_name_spec(RejectCode::AlreadySeated) == "already_seated"@,
        code_name_spec(RejectCode::NotContentSubspace) == "not_content_subspace"@,
        code_name_spec(RejectCode::IllFormedSpec) == "ill_formed_spec"@,
        code_name_spec(RejectCode::SlotTooLarge) == "slot_too_large"@,
        code_name_spec(RejectCode::EmptyTypeResolution) == "empty_type_resolution"@,
        code_name_spec(RejectCode::ShapeViolation) == "shape_violation"@,
        code_name_spec(RejectCode::RetractionClass) == "retraction_class"@,
        code_name_spec(RejectCode::NonAddressDenotingType) == "non_address_denoting_type"@,
        code_name_spec(RejectCode::BadTarget) == "bad_target"@,
        code_name_spec(RejectCode::SelfSupersession) == "self_supersession"@,
        code_name_spec(RejectCode::IllFormedSuccessor) == "ill_formed_successor"@,
        code_name_spec(RejectCode::DcViolation) == "dc_violation"@,
        code_name_spec(RejectCode::NoSuchSubspace) == "no_such_subspace"@,
        code_name_spec(RejectCode::EmptySubspace) == "empty_subspace"@,
        code_name_spec(RejectCode::DepthIncompatible) == "depth_incompatible"@,
        code_name_spec(RejectCode::RangeNotPresent) == "range_not_present"@,
        code_name_spec(RejectCode::MalformedSpan) == "malformed_span"@,
        code_name_spec(RejectCode::NotALink) == "not_a_link"@,
        code_name_spec(RejectCode::BadRegion) == "bad_region"@,
{
}

/// The dispositions' wire names, entry by entry.
pub proof fn law_disposition_name_table()
    ensures
        disposition_name_spec(Disposition::Permanent) == "permanent"@,
        disposition_name_spec(Disposition::Reorder) == "reorder"@,
        disposition_name_spec(Disposition::Retry) == "retry"@,
        disposition_name_spec(Disposition::Halt) == "halt"@,
{
}

/// The span faults' wire names, entry by entry.
pub proof fn law_fault_name_table()
    ensures
        fault_name_spec(SpecFault::NotOrdinalLevel) == "not_ordinal_level"@,
        fault_name_spec(SpecFault::NotLevelUniform) == "not_level_uniform"@,
        fault_name_spec(SpecFault::StartNotZeroFree) == "start_not_zero_free"@,
        fault_name_spec(SpecFault::StartTooShallow) == "start_too_shallow"@,
{
}

/// The operands' wire names, entry by entry.
pub proof fn law_operand_name_table()
    ensures
        operand_name_spec(Operand::First) == "first"@,
        operand_name_spec(Operand::Second) == "second"@,
{
}

} // verus!
