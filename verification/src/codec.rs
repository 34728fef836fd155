//! The JSON codec's parts that stand without the operation vocabulary:
//! the codec value itself, its wire caps, the bounded echo of an offending
//! string in a refusal's detail, the strict-keys refusal, the request
//! envelope (the `op` tag and the idempotency `id`), and the rejection as
//! the wire carries it.

use vstd::prelude::*;
use vstd::string::*;
use crate::json::{
    json_top, json_read, lookup, member, JsonTop, JsonTopView, member_views, json_quote, quoted, render_members, render_object, render_pairs, given_views, Member,
    MemberView, Scalar, ScalarView,
};
use crate::tags::{
    code_name, code_name_spec, disposition_name, disposition_name_spec, fault_name, fault_name_spec,
    op_kind_of, op_kind_spec, op_name, op_name_spec, operand_name, operand_name_spec, Disposition, OpKind, Operand, RejectCode,
    SpecFault,
};
use crate::text;

verus! {

/// The most decimal digits one tumbler component may carry on the wire.
pub const MAX_NAT_DIGITS: usize = 4096;

/// The most components one tumbler may carry on the wire.
pub const MAX_TUMBLER_COMPONENTS: usize = 256;

/// The most bytes one frame's idempotency `id` may carry.
pub const MAX_REQ_ID_BYTES: usize = 256;

/// The most characters of an offending string a refusal echoes.
pub const MAX_ECHO_CHARS: usize = 64;

/// The daemon's JSON codec — stateless; one instance serves every client.
#[derive(Clone, Copy, Debug, Default, PartialEq, Eq, Hash)]
pub struct JsonCodec;

/// A string as a refusal echoes it: whole up to the echo cap, else its
/// first characters and its length in bytes.
pub open spec fn bounded_spec(s: Seq<char>, byte_len: nat) -> Seq<char> {
    if s.len() <= MAX_ECHO_CHARS {
        s
    } else {
        s.take(MAX_ECHO_CHARS as int) + "… ("@ + text::ascii_text(text::decimal(byte_len))
            + " bytes)"@
    }
}

/// The offending string, bounded: a refusal never echoes a megabyte back.
pub fn bounded(s: &str) -> (r: String)
    ensures
        r@ == bounded_spec(s@, s.spec_bytes().len()),
{
    if s.unicode_len() <= MAX_ECHO_CHARS {
        return s.to_string();
    }
    let head = s.substring_char(0, MAX_ECHO_CHARS);
    let mut r = head.to_string();
    r.append("… (");
    let n = text::u64_to_string(s.as_bytes().len() as u64);
    r.append(n.as_str());
    r.append(" bytes)");
    assert(head@ =~= s@.take(MAX_ECHO_CHARS as int));
    r
}

/// The allowed keys' characters.
pub open spec fn str_views(v: Seq<&str>) -> Seq<Seq<char>> {
    Seq::new(v.len(), |i: int| v[i]@)
}

/// The first key, in the object's order, that is not allowed.
pub open spec fn first_unknown(m: Seq<(Seq<char>, MemberView)>, allowed: Seq<Seq<char>>) -> Option<Seq<char>>
    decreases m.len(),
{
    if m.len() == 0 {
        None
    } else if !allowed.contains(m[0].0) {
        Some(m[0].0)
    } else {
        first_unknown(m.drop_first(), allowed)
    }
}

/// The strict-keys refusal's text, naming the key bounded.
pub open spec fn unknown_field(k: Seq<char>) -> Seq<char> {
    "unknown field '"@ + bounded_spec(k, vstd::utf8::encode_utf8(k).len()) + "'"@
}

fn allowed_has(allowed: &[&str], k: &str) -> (r: bool)
    ensures
        r == str_views(allowed@).contains(k@),
{
    let mut i: usize = 0;
    while i < allowed.len()
        invariant
            0 <= i <= allowed@.len(),
            forall|j: int| 0 <= j < i ==> #[trigger] allowed@[j]@ != k@,
        decreases allowed@.len() - i,
    {
        if text::str_eq(allowed[i], k) {
            proof {
                assert(str_views(allowed@)[i as int] == k@);
            }
            return true;
        }
        i = i + 1;
    }
    proof {
        if str_views(allowed@).contains(k@) {
            let j = choose|j: int| 0 <= j < str_views(allowed@).len() && str_views(allowed@)[j] == k@;
            assert(allowed@[j]@ == k@);
        }
    }
    false
}

/// Refuse any key outside `allowed` — the never-silent device, applied
/// wherever a JSON object is accepted: a client's typo is a named failure,
/// never a field quietly ignored. The first such key is named, bounded.
pub fn check_keys(m: &Vec<(String, Member)>, allowed: &[&str]) -> (r: Result<(), String>)
    ensures
        match first_unknown(member_views(m@), str_views(allowed@)) {
            None => r is Ok,
            Some(k) => r matches Err(e) && e@ == unknown_field(k),
        },
{
    let ghost all = member_views(m@);
    let ghost al = str_views(allowed@);
    assert(all.skip(0) =~= all);
    let mut i: usize = 0;
    while i < m.len()
        invariant
            0 <= i <= m@.len(),
            all == member_views(m@),
            al == str_views(allowed@),
            first_unknown(all, al) == first_unknown(all.skip(i as int), al),
        decreases m@.len() - i,
    {
        let ghost rest = all.skip(i as int);
        assert(rest[0] == (m@[i as int].0@, m@[i as int].1@));
        let k = m[i].0.as_str();
        if !allowed_has(allowed, k) {
            let mut e = "unknown field '".to_string();
            let b = bounded(k);
            e.append(b.as_str());
            e.append("'");
            return Err(e);
        }
        assert(rest.drop_first() =~= all.skip(i + 1));
        i = i + 1;
    }
    Ok(())
}


// ── rejections ──────────────────────────────────────────────────────────

/// A frame the codec could not read, with what it could say of why.
pub struct ParseError {
    pub detail: Option<String>,
}

/// Where in a request a rejection's fault lies; every part optional. The
/// address rides as its dotted-decimal text.
pub struct FaultSite {
    pub operand: Option<Operand>,
    pub region: Option<usize>,
    pub index: Option<usize>,
    pub fault: Option<SpecFault>,
    pub addr: Option<String>,
}

/// A refused request: the operation's kind, why, what the client should do,
/// and, where there is one, the fault's site and a diagnostic.
pub struct Rejection {
    pub op: OpKind,
    pub code: RejectCode,
    pub disposition: Disposition,
    pub site: Option<FaultSite>,
    pub detail: Option<String>,
}

impl JsonCodec {
    /// The one response a frame that failed to parse still gets: the
    /// `unparseable` rejection, malformed and permanent, carrying the
    /// parse's diagnostic.
    pub fn unparseable(&self, e: ParseError) -> (r: Rejection)
        ensures
            r.op == OpKind::Unparseable,
            r.code == RejectCode::Malformed,
            r.disposition == Disposition::Permanent,
            r.site is None,
            r.detail == e.detail,
    {
        Rejection {
            op: OpKind::Unparseable,
            code: RejectCode::Malformed,
            disposition: Disposition::Permanent,
            site: None,
            detail: e.detail,
        }
    }
}

/// A wire name as a text value.
pub open spec fn name_value(n: Seq<char>) -> ScalarView {
    ScalarView::Text(vstd::utf8::encode_utf8(n))
}

/// The site's `addr` member, if it has an address.
pub open spec fn addr_member(s: FaultSite) -> Seq<(Seq<u8>, ScalarView)> {
    match s.addr {
        Some(a) => seq![("addr".spec_bytes(), name_value(a@))],
        None => Seq::empty(),
    }
}

/// The site's `fault` member, if it names one.
pub open spec fn fault_member(s: FaultSite) -> Seq<(Seq<u8>, ScalarView)> {
    match s.fault {
        Some(f) => seq![("fault".spec_bytes(), name_value(fault_name_spec(f)))],
        None => Seq::empty(),
    }
}

/// The site's `index` member, if it has one.
pub open spec fn index_member(s: FaultSite) -> Seq<(Seq<u8>, ScalarView)> {
    match s.index {
        Some(i) => seq![("index".spec_bytes(), ScalarView::Number(i as nat))],
        None => Seq::empty(),
    }
}

/// The site's `operand` member, if it names one.
pub open spec fn operand_member(s: FaultSite) -> Seq<(Seq<u8>, ScalarView)> {
    match s.operand {
        Some(o) => seq![("operand".spec_bytes(), name_value(operand_name_spec(o)))],
        None => Seq::empty(),
    }
}

/// The site's `region` member, if it has one.
pub open spec fn region_member(s: FaultSite) -> Seq<(Seq<u8>, ScalarView)> {
    match s.region {
        Some(r) => seq![("region".spec_bytes(), ScalarView::Number(r as nat))],
        None => Seq::empty(),
    }
}

/// The site's members, keys ascending; an absent part is left out.
pub open spec fn site_members(s: FaultSite) -> Seq<(Seq<u8>, ScalarView)> {
    addr_member(s) + fault_member(s) + index_member(s) + operand_member(s) + region_member(s)
}

/// A rejection's scalar members, keys ascending: `code`, `detail` where
/// there is one, `disposition`, `op`, and `resp` naming the shape.
pub open spec fn rejection_members(r: Rejection) -> Seq<(Seq<u8>, ScalarView)> {
    seq![("code".spec_bytes(), name_value(code_name_spec(r.code)))] + (match r.detail {
        Some(d) => seq![("detail".spec_bytes(), name_value(d@))],
        None => Seq::empty(),
    }) + seq![
        ("disposition".spec_bytes(), name_value(disposition_name_spec(r.disposition))),
        ("op".spec_bytes(), name_value(op_name_spec(r.op))),
        ("resp".spec_bytes(), name_value("rejected"@)),
    ]
}

/// A rejection's JSON bytes: its scalar members, then the site as a nested
/// object under `site` (last in key order) where there is one. Diagnostic
/// parts that are absent are left out, not written as null.
pub open spec fn rejection_bytes(r: Rejection) -> Seq<u8> {
    match r.site {
        None => render_object(rejection_members(r)),
        Some(s) => seq![123u8] + render_members(rejection_members(r)) + seq![44u8] + quoted(
            "site".spec_bytes(),
        ) + seq![58u8] + render_object(site_members(s)) + seq![125u8],
    }
}

/// The site's JSON object.
pub fn j_site(s: &FaultSite) -> (r: Vec<u8>)
    ensures
        r@ == render_object(site_members(*s)),
{
    let mut pairs: Vec<(&str, Scalar)> = Vec::new();
    if let Some(a) = &s.addr {
        pairs.push(("addr", Scalar::Text(a.clone())));
    }
    assert(given_views(pairs@) =~= addr_member(*s));
    let ghost before = given_views(pairs@);
    if let Some(f) = s.fault {
        pairs.push(("fault", Scalar::Text(fault_name(f).to_string())));
    }
    assert(given_views(pairs@) =~= before + fault_member(*s));
    let ghost before = given_views(pairs@);
    if let Some(i) = s.index {
        pairs.push(("index", Scalar::Number(i as u64)));
    }
    assert(given_views(pairs@) =~= before + index_member(*s));
    let ghost before = given_views(pairs@);
    if let Some(o) = s.operand {
        pairs.push(("operand", Scalar::Text(operand_name(o).to_string())));
    }
    assert(given_views(pairs@) =~= before + operand_member(*s));
    let ghost before = given_views(pairs@);
    if let Some(r) = s.region {
        pairs.push(("region", Scalar::Number(r as u64)));
    }
    assert(given_views(pairs@) =~= before + region_member(*s));
    assert(given_views(pairs@) =~= site_members(*s));
    render_pairs(&pairs)
}

/// A rejection's wire bytes.
pub fn j_rejection(rej: &Rejection) -> (r: Vec<u8>)
    ensures
        r@ == rejection_bytes(*rej),
{
    let mut pairs: Vec<(&str, Scalar)> = Vec::new();
    pairs.push(("code", Scalar::Text(code_name(rej.code).to_string())));
    if let Some(d) = &rej.detail {
        pairs.push(("detail", Scalar::Text(d.clone())));
    }
    pairs.push(("disposition", Scalar::Text(disposition_name(rej.disposition).to_string())));
    pairs.push(("op", Scalar::Text(op_name(rej.op).to_string())));
    pairs.push(("resp", Scalar::Text("rejected".to_string())));
    proof {
        assert(given_views(pairs@) =~= rejection_members(*rej));
    }
    let mut out = render_pairs(&pairs);
    match &rej.site {
        None => out,
        Some(s) => {
            let ghost m = rejection_members(*rej);
            assert(out@ == seq![123u8] + render_members(m) + seq![125u8]);
            out.pop();
            assert(out@ =~= seq![123u8] + render_members(m));
            out.push(44u8);
            let k = json_quote("site");
            out.extend_from_slice(k.as_slice());
            out.push(58u8);
            let v = j_site(s);
            out.extend_from_slice(v.as_slice());
            out.push(125u8);
            assert(out@ =~= rejection_bytes(*rej));
            out
        },
    }
}


// ── the request envelope ────────────────────────────────────────────────

/// What every request frame carries besides its operation's arguments: the
/// optional idempotency `id` and the operation's kind.
pub struct Envelope {
    pub id: Option<String>,
    pub op: OpKind,
}

/// The envelope with the id as characters.
pub struct EnvelopeView {
    pub id: Option<Seq<char>>,
    pub op: OpKind,
}

impl View for Envelope {
    type V = EnvelopeView;

    open spec fn view(&self) -> EnvelopeView {
        EnvelopeView {
            id: match self.id {
                Some(s) => Some(s@),
                None => None,
            },
            op: self.op,
        }
    }
}

/// The refusal of an `op` tag that names no operation, the tag bounded.
pub open spec fn unknown_op(name: Seq<char>) -> Seq<char> {
    "unknown op '"@ + bounded_spec(name, vstd::utf8::encode_utf8(name).len()) + "'"@
}

/// The refusal of an id past the wire cap, naming its length in bytes.
pub open spec fn id_over_cap(n: nat) -> Seq<char> {
    "id is "@ + text::ascii_text(text::decimal(n)) + " bytes, past the 256-byte wire cap"@
}

/// The `id` member read: absent and explicit `null` are the same absence;
/// a string is the id, if it is within the cap in bytes; anything else is
/// refused.
pub open spec fn id_spec(v: Option<MemberView>) -> Result<Option<Seq<char>>, Seq<char>> {
    match v {
        None => Ok(None),
        Some(MemberView::Null) => Ok(None),
        Some(MemberView::Str(s)) => if vstd::utf8::encode_utf8(s).len() > MAX_REQ_ID_BYTES {
            Err(id_over_cap(vstd::utf8::encode_utf8(s).len()))
        } else {
            Ok(Some(s))
        },
        Some(_) => Err("field 'id': expected a JSON string"@),
    }
}

/// The envelope grammar over a read document, in the order it is checked:
/// the frame is an object; its `op` is present and a string; its `id` is
/// absent, null, or a string within the cap; the tag names an operation.
pub open spec fn envelope_spec(t: JsonTopView) -> Result<EnvelopeView, Seq<char>> {
    match t {
        JsonTopView::NotObject => Err("request frame must be a JSON object"@),
        JsonTopView::Object(m) => match lookup(m, "op"@) {
            None => Err("missing field 'op'"@),
            Some(MemberView::Str(name)) => match id_spec(lookup(m, "id"@)) {
                Err(e) => Err(e),
                Ok(id) => match op_kind_spec(name) {
                    None => Err(unknown_op(name)),
                    Some(k) => Ok(EnvelopeView { id: id, op: k }),
                },
            },
            Some(_) => Err("field 'op': expected a JSON string"@),
        },
    }
}

/// The `id` member read.
fn read_id(v: Option<&Member>) -> (r: Result<Option<String>, String>)
    ensures
        match id_spec(match v { Some(x) => Some(x@), None => None }) {
            Ok(id) => r matches Ok(x) && (match x { Some(s) => Some(s@), None => None }) == id,
            Err(e) => r matches Err(x) && x@ == e,
        },
{
    match v {
        None => Ok(None),
        Some(Member::Null) => Ok(None),
        Some(Member::Str(s)) => {
            let n = s.as_str().as_bytes().len();
            if n > MAX_REQ_ID_BYTES {
                let mut e = "id is ".to_string();
                let d = text::u64_to_string(n as u64);
                e.append(d.as_str());
                e.append(" bytes, past the 256-byte wire cap");
                Err(e)
            } else {
                Ok(Some(s.clone()))
            }
        },
        Some(_) => Err("field 'id': expected a JSON string".to_string()),
    }
}

/// The envelope of a read document.
pub fn parse_envelope(t: &JsonTop) -> (r: Result<Envelope, String>)
    ensures
        match envelope_spec(t@) {
            Ok(v) => r matches Ok(x) && x@ == v,
            Err(e) => r matches Err(x) && x@ == e,
        },
{
    match t {
        JsonTop::NotObject => Err("request frame must be a JSON object".to_string()),
        JsonTop::Object(m) => match member(m, "op") {
            None => Err("missing field 'op'".to_string()),
            Some(Member::Str(name)) => {
                let id = match read_id(member(m, "id")) {
                    Err(e) => {
                        return Err(e);
                    },
                    Ok(id) => id,
                };
                match op_kind_of(name.as_str()) {
                    None => {
                        let mut e = "unknown op '".to_string();
                        let b = bounded(name.as_str());
                        e.append(b.as_str());
                        e.append("'");
                        Err(e)
                    },
                    Some(k) => Ok(Envelope { id: id, op: k }),
                }
            },
            Some(_) => Err("field 'op': expected a JSON string".to_string()),
        },
    }
}

/// The envelope's members as a reader meets them: the `id` where there is
/// one, then the `op` tag — keys ascending, as the marshal writes them.
pub open spec fn envelope_members(e: EnvelopeView) -> Seq<(Seq<char>, MemberView)> {
    (match e.id {
        Some(s) => seq![("id"@, MemberView::Str(s))],
        None => Seq::empty(),
    }) + seq![("op"@, MemberView::Str(op_name_spec(e.op)))]
}

/// The envelope's members as the marshal writes them, keys and text as
/// bytes.
pub open spec fn envelope_pairs(e: EnvelopeView) -> Seq<(Seq<u8>, ScalarView)> {
    (match e.id {
        Some(s) => seq![("id".spec_bytes(), name_value(s))],
        None => Seq::empty(),
    }) + seq![("op".spec_bytes(), name_value(op_name_spec(e.op)))]
}

/// The envelope's canonical encoding: a JSON object of its `id`, where
/// there is one, and its `op` tag. For an operation that carries no
/// arguments this is the whole request frame.
pub fn marshal_envelope(e: &Envelope) -> (r: Vec<u8>)
    ensures
        r@ == render_object(envelope_pairs(e@)),
{
    let mut pairs: Vec<(&str, Scalar)> = Vec::new();
    if let Some(s) = &e.id {
        pairs.push(("id", Scalar::Text(s.clone())));
    }
    pairs.push(("op", Scalar::Text(op_name(e.op).to_string())));
    assert(given_views(pairs@) =~= envelope_pairs(e@));
    render_pairs(&pairs)
}

/// What the marshal writes, the envelope grammar reads back: an envelope
/// whose kind names a request and whose id is within the cap comes back
/// whole from its own members.
pub proof fn law_envelope_round_trip(e: EnvelopeView)
    requires
        e.op != OpKind::Unparseable,
        e.id matches Some(s) ==> vstd::utf8::encode_utf8(s).len() <= MAX_REQ_ID_BYTES,
    ensures
        envelope_spec(JsonTopView::Object(envelope_members(e))) == Ok::<EnvelopeView, Seq<char>>(e),
{
    reveal_strlit("id");
    reveal_strlit("op");
    assert("id"@[0] != "op"@[0]);
    crate::tags::law_op_tag_round_trip(e.op);
    let m = envelope_members(e);
    match e.id {
        Some(s) => {
            assert(m[0] == ("id"@, MemberView::Str(s)));
            assert(m.drop_first() =~= seq![("op"@, MemberView::Str(op_name_spec(e.op)))]);
            assert(lookup(m.drop_first(), "op"@) == Some(MemberView::Str(op_name_spec(e.op))));
            assert(lookup(m, "op"@) == Some(MemberView::Str(op_name_spec(e.op))));
            assert(lookup(m, "id"@) == Some(MemberView::Str(s)));
            assert(id_spec(lookup(m, "id"@)) == Ok::<Option<Seq<char>>, Seq<char>>(Some(s)));
            assert(op_kind_spec(op_name_spec(e.op)) == Some(e.op));
            assert(envelope_spec(JsonTopView::Object(m)) == Ok::<EnvelopeView, Seq<char>>(
                EnvelopeView { id: Some(s), op: e.op },
            ));
        },
        None => {
            assert(m =~= seq![("op"@, MemberView::Str(op_name_spec(e.op)))]);
            assert(m.drop_first() =~= Seq::<(Seq<char>, MemberView)>::empty());
            assert(lookup(m, "op"@) == Some(MemberView::Str(op_name_spec(e.op))));
            assert(lookup(m.drop_first(), "id"@) == None::<MemberView>);
            assert(lookup(m, "id"@) == None::<MemberView>);
            assert(op_kind_spec(op_name_spec(e.op)) == Some(e.op));
        },
    }
}

/// The envelope of a request frame: its bytes read as JSON, then the
/// envelope grammar. Bytes that are no JSON are refused with the reader's
/// own diagnostic.
pub fn read_envelope(frame: &[u8]) -> (r: Result<Envelope, String>)
    ensures
        match json_read(frame@) {
            Err(e) => r matches Err(x) && x@ == "invalid JSON: "@ + e,
            Ok(t) => match envelope_spec(t) {
                Ok(v) => r matches Ok(x) && x@ == v,
                Err(e) => r matches Err(x) && x@ == e,
            },
        },
{
    match json_top(frame) {
        Err(e) => {
            let mut m = "invalid JSON: ".to_string();
            m.append(e.as_str());
            Err(m)
        },
        Ok(t) => parse_envelope(&t),
    }
}


// ── leaf readers ────────────────────────────────────────────────────────

/// The most values one `insert` may mint.
pub const MAX_INSERT_VALUES: usize = 262144;

/// Which claims a claims query reads.
#[derive(Clone, Copy, Debug, PartialEq, Eq, Hash, Structural)]
pub enum ClaimView {
    Audit,
    Active,
    Default,
}

/// A string member's text.
pub fn p_string(v: &Member) -> (r: Result<String, String>)
    ensures
        match v@ {
            MemberView::Str(s) => r matches Ok(x) && x@ == s,
            _ => r matches Err(e) && e@ == "expected a JSON string"@,
        },
{
    match v {
        Member::Str(s) => Ok(s.clone()),
        _ => Err("expected a JSON string".to_string()),
    }
}

/// A non-negative integer member that fits `u64`.
pub fn p_u64(v: &Member) -> (r: Result<u64, String>)
    ensures
        match v@ {
            MemberView::Number(Some(n)) => r == Ok::<u64, String>(n),
            _ => r matches Err(e) && e@ == "expected a non-negative JSON integer"@,
        },
{
    match v {
        Member::Number(Some(n)) => Ok(*n),
        _ => Err("expected a non-negative JSON integer".to_string()),
    }
}

/// A non-negative integer member that fits this platform's `usize`.
pub fn p_usize(v: &Member) -> (r: Result<usize, String>)
    ensures
        match v@ {
            MemberView::Number(Some(n)) => if n <= usize::MAX {
                r == Ok::<usize, String>(n as usize)
            } else {
                r matches Err(e) && e@ == "integer exceeds this platform's usize"@
            },
            _ => r matches Err(e) && e@ == "expected a non-negative JSON integer"@,
        },
{
    match p_u64(v) {
        Err(e) => Err(e),
        Ok(n) => if n <= usize::MAX as u64 {
            Ok(n as usize)
        } else {
            Err("integer exceeds this platform's usize".to_string())
        },
    }
}

/// The claims view a member names.
pub fn p_view(v: &Member) -> (r: Result<ClaimView, String>)
    ensures
        match v@ {
            MemberView::Str(s) => if s == "audit"@ {
                r == Ok::<ClaimView, String>(ClaimView::Audit)
            } else if s == "active"@ {
                r == Ok::<ClaimView, String>(ClaimView::Active)
            } else if s == "default"@ {
                r == Ok::<ClaimView, String>(ClaimView::Default)
            } else {
                r matches Err(e) && e@ == "expected \"audit\", \"active\", or \"default\""@
            },
            _ => r matches Err(e) && e@ == "expected \"audit\", \"active\", or \"default\""@,
        },
{
    if let Member::Str(s) = v {
        if text::str_eq(s.as_str(), "audit") {
            return Ok(ClaimView::Audit);
        } else if text::str_eq(s.as_str(), "active") {
            return Ok(ClaimView::Active);
        } else if text::str_eq(s.as_str(), "default") {
            return Ok(ClaimView::Default);
        }
    }
    Err("expected \"audit\", \"active\", or \"default\"".to_string())
}

/// The refusal of a mint past the insert cap.
pub open spec fn over_insert_cap() -> Seq<char> {
    "values mint more than the 262144-value cap on one insert"@
}

/// Room for `adding` more values beside the `minted` already read — asked
/// before the values are minted, so an over-budget element mints nothing.
pub fn room(minted: usize, adding: usize) -> (r: Result<(), String>)
    ensures
        if minted + adding <= MAX_INSERT_VALUES {
            r is Ok
        } else {
            r matches Err(e) && e@ == over_insert_cap()
        },
{
    if minted.saturating_add(adding) > MAX_INSERT_VALUES {
        return Err("values mint more than the 262144-value cap on one insert".to_string());
    }
    Ok(())
}

/// The refusal of a component that is not a decimal natural.
pub open spec fn not_a_natural(s: Seq<char>) -> Seq<char> {
    "'"@ + bounded_spec(s, vstd::utf8::encode_utf8(s).len()) + "' is not a decimal natural"@
}

/// The refusal of a component past the digit cap.
pub open spec fn over_digit_cap(n: nat) -> Seq<char> {
    "component has "@ + text::ascii_text(text::decimal(n)) + " digits, past the 4096-digit wire cap"@
}

/// The checks one decimal component meets before it is converted: a
/// non-empty run of ASCII digits, then at most the digit cap — the cap
/// refused ahead of the conversion, so a hostile digit run is never
/// converted.
pub fn check_nat_text(s: &str) -> (r: Result<(), String>)
    ensures
        if s.spec_bytes().len() == 0 || !text::all_digits(s.spec_bytes()) {
            r matches Err(e) && e@ == not_a_natural(s@)
        } else if s.spec_bytes().len() > MAX_NAT_DIGITS {
            r matches Err(e) && e@ == over_digit_cap(s.spec_bytes().len())
        } else {
            r is Ok
        },
{
    let b = s.as_bytes();
    let mut ok = b.len() > 0;
    let mut i: usize = 0;
    while i < b.len()
        invariant
            0 <= i <= b@.len(),
            b@ == s.spec_bytes(),
            ok <==> (b@.len() > 0 && forall|k: int| 0 <= k < i ==> text::is_digit(#[trigger] b@[k])),
        decreases b@.len() - i,
    {
        if b[i] < 48 || b[i] > 57 {
            ok = false;
        }
        i = i + 1;
    }
    if !ok {
        let mut e = "'".to_string();
        let bs = bounded(s);
        e.append(bs.as_str());
        e.append("' is not a decimal natural");
        return Err(e);
    }
    if b.len() > MAX_NAT_DIGITS {
        let mut e = "component has ".to_string();
        let d = text::u64_to_string(b.len() as u64);
        e.append(d.as_str());
        e.append(" digits, past the 4096-digit wire cap");
        return Err(e);
    }
    Ok(())
}


/// Whether one dotted component passes the checks ahead of its conversion.
pub open spec fn component_ok(c: Seq<u8>) -> bool {
    c.len() > 0 && text::all_digits(c) && c.len() <= MAX_NAT_DIGITS
}

/// The refusal of a component that fails those checks.
pub open spec fn component_refusal(c: Seq<u8>) -> Seq<char> {
    if c.len() == 0 || !text::all_digits(c) {
        not_a_natural(vstd::utf8::decode_utf8(c))
    } else {
        over_digit_cap(c.len())
    }
}

/// The first failing component's refusal, in order, if any fails.
pub open spec fn first_component_refusal(ps: Seq<Seq<u8>>) -> Option<Seq<char>>
    decreases ps.len(),
{
    if ps.len() == 0 {
        None
    } else if !component_ok(ps[0]) {
        Some(component_refusal(ps[0]))
    } else {
        first_component_refusal(ps.drop_first())
    }
}

/// The refusal of a tumbler past the depth cap, naming its depth.
pub open spec fn over_depth_cap(n: nat) -> Seq<char> {
    "tumbler has "@ + text::ascii_text(text::decimal(n)) + " components, past the 256-component wire cap"@
}

/// The dotted-decimal text of a tumbler, read up to its conversion: split
/// on `.`, refused past the depth cap before any component is looked at,
/// then each component checked in order; on success, the components' text.
pub open spec fn tumbler_text_spec(b: Seq<u8>) -> Result<Seq<Seq<u8>>, Seq<char>> {
    let ps = crate::query::pieces(b, 46u8);
    if ps.len() > MAX_TUMBLER_COMPONENTS {
        Err(over_depth_cap(ps.len()))
    } else {
        match first_component_refusal(ps) {
            Some(e) => Err(e),
            None => Ok(ps),
        }
    }
}

/// The components' texts as bytes.
pub open spec fn string_bytes(v: Seq<String>) -> Seq<Seq<u8>> {
    Seq::new(v.len(), |i: int| vstd::utf8::encode_utf8(v[i]@))
}

/// Read a tumbler's dotted-decimal text: its components, each a checked
/// decimal natural, for the tumbler's own constructor to convert.
pub fn tumbler_text(s: &str) -> (r: Result<Vec<String>, String>)
    requires
        s.spec_bytes().len() <= isize::MAX,
    ensures
        match tumbler_text_spec(s.spec_bytes()) {
            Ok(ps) => r matches Ok(v) && string_bytes(v@) == ps,
            Err(e) => r matches Err(x) && x@ == e,
        },
{
    broadcast use vstd::utf8::group_utf8_lib;
    let ghost b = s.spec_bytes();
    let ghost cs = crate::query::pieces(b, 46u8);
    // The depth, counted before any component is converted.
    let mut depth: u64 = 0;
    let mut rest: &str = s;
    let mut more = true;
    while more
        invariant
            b == s.spec_bytes(),
            cs == crate::query::pieces(b, 46u8),
            b.len() <= isize::MAX,
            more ==> cs.len() == depth + crate::query::pieces(rest.spec_bytes(), 46u8).len()
                && rest.spec_bytes().len() + depth <= b.len(),
            !more ==> cs.len() == depth,
        decreases (if more {
            rest.spec_bytes().len() + 1
        } else {
            0
        }),
    {
        let (piece, next) = crate::lines::next_run(rest, 46u8);
        proof {
            crate::origin::lemma_first_index_bounds(rest.spec_bytes(), 46u8);
            let ps = crate::query::pieces(rest.spec_bytes(), 46u8);
            match next {
                Some(t) => {
                    assert(ps == seq![piece.spec_bytes()] + crate::query::pieces(t.spec_bytes(), 46u8));
                },
                None => {
                    assert(ps == seq![piece.spec_bytes()]);
                },
            }
        }
        depth = depth + 1;
        match next {
            None => {
                more = false;
            },
            Some(t) => {
                rest = t;
            },
        }
    }
    if depth > MAX_TUMBLER_COMPONENTS as u64 {
        let mut e = "tumbler has ".to_string();
        let d = text::u64_to_string(depth);
        e.append(d.as_str());
        e.append(" components, past the 256-component wire cap");
        return Err(e);
    }
    let ghost mut done: Seq<Seq<u8>> = Seq::empty();
    assert(cs.skip(0) =~= cs);
    let mut comps: Vec<String> = Vec::new();
    let mut rest: &str = s;
    let mut more = true;
    while more
        invariant
            b == s.spec_bytes(),
            cs == crate::query::pieces(b, 46u8),
            cs.len() <= MAX_TUMBLER_COMPONENTS,
            more ==> cs == done + crate::query::pieces(rest.spec_bytes(), 46u8),
            !more ==> cs == done,
            string_bytes(comps@) == done,
            first_component_refusal(cs) == first_component_refusal(cs.skip(done.len() as int)),
        decreases (if more {
            rest.spec_bytes().len() + 1
        } else {
            0
        }),
    {
        let (piece, next) = crate::lines::next_run(rest, 46u8);
        proof {
            crate::origin::lemma_first_index_bounds(rest.spec_bytes(), 46u8);
            let ps = crate::query::pieces(rest.spec_bytes(), 46u8);
            match next {
                Some(t) => {
                    assert(ps == seq![piece.spec_bytes()] + crate::query::pieces(t.spec_bytes(), 46u8));
                },
                None => {
                    assert(ps == seq![piece.spec_bytes()]);
                },
            }
            assert(cs.skip(done.len() as int) == ps);
            assert(ps[0] == piece.spec_bytes());
            vstd::utf8::encode_utf8_decode_utf8(piece@);
        }
        match check_nat_text(piece) {
            Err(e) => {
                return Err(e);
            },
            Ok(()) => {},
        }
        let ghost before = comps@;
        comps.push(piece.to_string());
        proof {
            let ps = crate::query::pieces(rest.spec_bytes(), 46u8);
            assert(ps.drop_first() =~= cs.skip(done.len() + 1 as int));
            assert(string_bytes(comps@) =~= done.push(piece.spec_bytes()));
            done = done.push(piece.spec_bytes());
        }
        match next {
            None => {
                proof {
                    assert(cs =~= done);
                }
                more = false;
            },
            Some(t) => {
                proof {
                    assert(cs =~= done + crate::query::pieces(t.spec_bytes(), 46u8));
                }
                rest = t;
            },
        }
    }
    proof {
        assert(cs.skip(cs.len() as int) =~= Seq::<Seq<u8>>::empty());
    }
    Ok(comps)
}

/// A tumbler member: a string of dotted-decimal text, read as
/// [`tumbler_text`] reads it.
pub fn p_tum(v: &Member) -> (r: Result<Vec<String>, String>)
    requires
        v@ matches MemberView::Str(s) ==> vstd::utf8::encode_utf8(s).len() <= isize::MAX,
    ensures
        match v@ {
            MemberView::Str(s) => match tumbler_text_spec(vstd::utf8::encode_utf8(s)) {
                Ok(ps) => r matches Ok(x) && string_bytes(x@) == ps,
                Err(e) => r matches Err(x) && x@ == e,
            },
            _ => r matches Err(e) && e@ == "expected a dotted-decimal string"@,
        },
{
    match v {
        Member::Str(s) => tumbler_text(s.as_str()),
        _ => Err("expected a dotted-decimal string".to_string()),
    }
}

} // verus!
