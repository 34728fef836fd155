//! The session layer's wire values: the peer's loopback-ness, the handshake
//! nonce, the opaque session token, the signature field, a session's
//! scope, the session request body's grammar, and the bytes a signed body
//! signs.

use vstd::prelude::*;
use vstd::string::*;
use vstd::utf8::encode_utf8;
use crate::codec;
use crate::hex;
use crate::hybrid;
use crate::json::{self, lookup, JsonTop, JsonTopView, Member, MemberView};
use crate::origin::{self, Origin};
use crate::text;

verus! {

/// The challenge TTL in milliseconds — a pin, not a knob: `ttl_ms` on the
/// wire is a byte pin of this constant.
pub const CHALLENGE_TTL_MILLIS: u64 = 60000;

/// Session-token unpredictability: at least this many bits per token.
pub const SESSION_TOKEN_BITS: usize = 128;

/// The floor met exactly, as the byte width a [`Token`] holds.
pub const SESSION_TOKEN_BYTES: usize = 16;

/// The TCP peer's loopback-ness alone, no address payload. `X-Forwarded-*`
/// is deliberately ignored.
#[derive(Debug, Clone, Copy, PartialEq, Eq, Hash)]
pub enum Peer {
    Loopback,
    Remote,
}

impl Peer {
    pub fn is_loopback(self) -> (r: bool)
        ensures
            r == (self == Peer::Loopback),
    {
        match self {
            Peer::Loopback => true,
            Peer::Remote => false,
        }
    }
}

/// A handshake nonce; wire form 64 LOWERCASE hex.
#[derive(Debug, Clone, Copy, PartialEq, Eq, Hash)]
pub struct Nonce([u8; 32]);

impl View for Nonce {
    type V = Seq<u8>;

    closed spec fn view(&self) -> Seq<u8> {
        self.0@
    }
}

impl Nonce {
    /// The nonce carrying exactly these bytes.
    pub fn from_bytes(raw: [u8; 32]) -> (n: Nonce)
        ensures
            n@ == raw@,
    {
        Nonce(raw)
    }

    /// The nonce's bytes.
    pub fn bytes(&self) -> (b: [u8; 32])
        ensures
            b@ == self@,
    {
        self.0
    }

    /// 64 lowercase hex, always.
    pub fn to_hex(&self) -> (s: String)
        ensures
            s@ == text::ascii_text(hex::hex_encode(self@)),
    {
        hex::hex_string(self.0.as_slice())
    }

    /// ONLY 64 lowercase hex — an uppercase nonce is a syntax fault whose
    /// nonce survives, never a burned one.
    pub fn parse_hex(s: &str) -> (r: Option<Nonce>)
        ensures
            r matches Some(n) ==> hex::lower_hex_decode(s.spec_bytes(), 32) == Some(n@),
            r is None ==> hex::lower_hex_decode(s.spec_bytes(), 32) is None,
    {
        match hex::parse_lower_hex(s, 32) {
            Some(v) => Some(Nonce(bytes_32(&v))),
            None => None,
        }
    }
}

/// The opaque session token: 128 bits of fresh CSPRNG output, wire form 32
/// lowercase hex. `parse` admits ONLY what `to_wire` emits and the pair is
/// injective. Compared exactly, never logged: it has no `Debug` at all.
#[derive(Clone, PartialEq, Eq, Hash)]
pub struct Token([u8; 16]);

impl View for Token {
    type V = Seq<u8>;

    closed spec fn view(&self) -> Seq<u8> {
        self.0@
    }
}

impl Token {
    /// The token carrying exactly these bytes.
    pub fn from_bytes(raw: [u8; 16]) -> (t: Token)
        ensures
            t@ == raw@,
    {
        Token(raw)
    }

    /// 32 lowercase hex.
    pub fn to_wire(&self) -> (s: String)
        ensures
            s@ == text::ascii_text(hex::hex_encode(self@)),
    {
        hex::hex_string(self.0.as_slice())
    }

    /// ONLY 32 lowercase hex; a value this refuses is NO token.
    pub fn parse(s: &str) -> (r: Option<Token>)
        ensures
            r matches Some(t) ==> hex::lower_hex_decode(s.spec_bytes(), 16) == Some(t@),
            r is None ==> hex::lower_hex_decode(s.spec_bytes(), 16) is None,
    {
        match hex::parse_lower_hex(s, 16) {
            Some(v) => Some(Token(bytes_16(&v))),
            None => None,
        }
    }

    /// Exact comparison of two tokens.
    pub fn same(&self, other: &Token) -> (r: bool)
        ensures
            r == (self@ == other@),
    {
        text::bytes_eq(self.0.as_slice(), other.0.as_slice())
    }
}

/// The wire text of bytes is ASCII, so it is exactly the bytes of its own
/// `str`: what `parse` reads back is what `to_hex`/`to_wire` wrote.
pub proof fn lemma_wire_text_bytes(b: Seq<u8>)
    ensures
        vstd::utf8::encode_utf8(text::ascii_text(hex::hex_encode(b))) == hex::hex_encode(b),
{
    hex::lemma_hex_encode_ascii(b);
    text::lemma_ascii_utf8(hex::hex_encode(b));
}

/// A nonce's wire text parses back to that nonce: `parse_hex(to_hex(n))`
/// is `n`, so the encoding is injective.
pub proof fn law_nonce_round_trip(n: Nonce)
    ensures
        hex::lower_hex_decode(vstd::utf8::encode_utf8(text::ascii_text(hex::hex_encode(n@))), 32)
            == Some(n@),
{
    lemma_wire_text_bytes(n@);
    hex::lemma_hex_round_trip(n@);
}

/// A token's wire text parses back to that token.
pub proof fn law_token_round_trip(t: Token)
    ensures
        hex::lower_hex_decode(vstd::utf8::encode_utf8(text::ascii_text(hex::hex_encode(t@))), 16)
            == Some(t@),
{
    lemma_wire_text_bytes(t@);
    hex::lemma_hex_round_trip(t@);
}

fn bytes_32(v: &Vec<u8>) -> (a: [u8; 32])
    requires
        v@.len() == 32,
    ensures
        a@ == v@,
{
    let mut a = [0u8; 32];
    let mut i: usize = 0;
    while i < 32
        invariant
            0 <= i <= 32,
            v@.len() == 32,
            a@.len() == 32,
            forall|j: int| 0 <= j < i ==> a@[j] == v@[j],
        decreases 32 - i,
    {
        a[i] = v[i];
        i = i + 1;
    }
    assert(a@ =~= v@);
    a
}

fn bytes_16(v: &Vec<u8>) -> (a: [u8; 16])
    requires
        v@.len() == 16,
    ensures
        a@ == v@,
{
    let mut a = [0u8; 16];
    let mut i: usize = 0;
    while i < 16
        invariant
            0 <= i <= 16,
            v@.len() == 16,
            a@.len() == 16,
            forall|j: int| 0 <= j < i ==> a@[j] == v@[j],
        decreases 16 - i,
    {
        a[i] = v[i];
        i = i + 1;
    }
    assert(a@ =~= v@);
    a
}

/// `sig`: 128 hex decoding to exactly 64 bytes — case-free (decoded, never
/// framed).
pub fn parse_sig(s: &str) -> (r: Option<[u8; 64]>)
    ensures
        r matches Some(a) ==> s.spec_bytes().len() == 128 && hex::any_hex_decode(s.spec_bytes())
            == Some(a@),
        r is None ==> s.spec_bytes().len() != 128 || hex::any_hex_decode(s.spec_bytes()) is None,
{
    let t = s.as_bytes();
    if t.len() != 128 {
        return None;
    }
    match hex::p_hex(s) {
        Ok(v) => {
            let mut a = [0u8; 64];
            let mut i: usize = 0;
            while i < 64
                invariant
                    0 <= i <= 64,
                    v@.len() == 64,
                    a@.len() == 64,
                    forall|j: int| 0 <= j < i ==> a@[j] == v@[j],
                decreases 64 - i,
            {
                a[i] = v[i];
                i = i + 1;
            }
            assert(a@ =~= v@);
            Some(a)
        },
        Err(_) => None,
    }
}

/// A session's scope: the limit a signed session may declare for itself at
/// its opening, inside its signed bytes. Absence is `Full`.
#[derive(Debug, Clone, Copy, PartialEq, Eq)]
pub enum Scope {
    Full,
    Content,
}

/// The one value a scoped body's `scope` member takes, and the bytes that
/// body signs for it.
pub const SCOPE_CONTENT: &'static str = "content";

/// The bytes of `content`, which a scoped body signs as its scope.
pub open spec fn content_bytes() -> Seq<u8> {
    seq![99u8, 111u8, 110u8, 116u8, 101u8, 110u8, 116u8]
}

/// The unscoped layout's tag.
pub const SESSION_TAG: &'static str = "skep-session-v1";

/// The scoped layout's tag.
pub const SESSION_TAG_V2: &'static str = "skep-session-v2";

// ── the signed bytes ────────────────────────────────────────────────────

/// Fields framed in order, each as its length in four big-endian bytes and
/// then its bytes.
pub open spec fn frame_fields(fields: Seq<Seq<u8>>) -> Seq<u8>
    decreases fields.len(),
{
    if fields.len() == 0 {
        Seq::empty()
    } else {
        frame_fields(fields.drop_last()) + hybrid::be_bytes(fields.last().len(), 4) + fields.last()
    }
}

/// The bytes a session body signs: the unscoped layout frames origin,
/// nonce and principal (shortest decimal) behind its tag; the scoped layout
/// frames the same three and then the scope, behind its own tag.
pub open spec fn payload(origin: Seq<u8>, nonce: Seq<u8>, principal: u64, scope: Scope) -> Seq<u8> {
    let fields = seq![origin, nonce, text::decimal(principal as nat)];
    match scope {
        Scope::Full => SESSION_TAG.spec_bytes() + frame_fields(fields),
        Scope::Content => SESSION_TAG_V2.spec_bytes() + frame_fields(fields.push(content_bytes())),
    }
}

/// A length as four big-endian bytes.
fn be4(n: u32) -> (r: Vec<u8>)
    ensures
        r@ == hybrid::be_bytes(n as nat, 4),
{
    let q1 = n / 256;
    let q2 = q1 / 256;
    let q3 = q2 / 256;
    let r = vec![(q3 % 256) as u8, (q2 % 256) as u8, (q1 % 256) as u8, (n % 256) as u8];
    proof {
        reveal_with_fuel(hybrid::be_bytes, 5);
        assert(r@ =~= hybrid::be_bytes(n as nat, 4));
    }
    r
}

/// Append one framed field.
fn push_field(v: &mut Vec<u8>, f: &[u8])
    requires
        f@.len() <= u32::MAX,
    ensures
        final(v)@ == old(v)@ + hybrid::be_bytes(f@.len(), 4) + f@,
{
    let len = be4(f.len() as u32);
    v.extend_from_slice(len.as_slice());
    v.extend_from_slice(f);
}

/// The signed bytes of a session body, versioned and never extended in
/// place: an unscoped body signs the v1 layout, a scoped body the v2
/// layout, each over the body's own strings.
pub fn session_payload(origin: &Origin, nonce_hex: &str, principal: u64, scope: Scope) -> (r: Vec<u8>)
    requires
        origin@.len() <= u32::MAX,
        nonce_hex.spec_bytes().len() <= u32::MAX,
    ensures
        r@ == payload(origin@, nonce_hex.spec_bytes(), principal, scope),
{
    let p = text::u64_decimal(principal);
    proof {
        text::lemma_decimal_len_bound(principal as nat);
    }
    let mut out: Vec<u8> = Vec::new();
    match scope {
        Scope::Full => text::push_str_bytes(&mut out, SESSION_TAG),
        Scope::Content => text::push_str_bytes(&mut out, SESSION_TAG_V2),
    }
    let ghost tag = out@;
    push_field(&mut out, origin.as_str().as_bytes());
    push_field(&mut out, nonce_hex.as_bytes());
    push_field(&mut out, p.as_slice());
    let ghost three = seq![origin@, nonce_hex.spec_bytes(), text::decimal(principal as nat)];
    proof {
        reveal_with_fuel(frame_fields, 4);
        assert(three.drop_last().drop_last().drop_last() =~= Seq::<Seq<u8>>::empty());
        assert(three.drop_last().drop_last() =~= seq![origin@]);
        assert(three.drop_last() =~= seq![origin@, nonce_hex.spec_bytes()]);
        assert(out@ =~= tag + frame_fields(three));
    }
    match scope {
        Scope::Full => {},
        Scope::Content => {
            let c = [99u8, 111, 110, 116, 101, 110, 116];
            push_field(&mut out, c.as_slice());
            proof {
                let four = three.push(content_bytes());
                assert(c@ =~= content_bytes());
                assert(four.drop_last() =~= three);
                assert(out@ =~= tag + frame_fields(four));
            }
        },
    }
    out
}

// ── the session request body ────────────────────────────────────────────

/// A session request body, parsed: the bare form names a principal alone;
/// the signed form carries the nonce, the origin the client dialed, its
/// scope and the signature.
pub enum SessionBody {
    Bare { principal: u64 },
    Signed { principal: u64, nonce: Nonce, origin: Origin, scope: Scope, sig: [u8; 64] },
}

/// A body with its nonce, origin text and signature as bytes.
pub enum SessionBodyView {
    Bare(u64),
    Signed(u64, Seq<u8>, Seq<u8>, Scope, Seq<u8>),
}

impl View for SessionBody {
    type V = SessionBodyView;

    open spec fn view(&self) -> SessionBodyView {
        match self {
            SessionBody::Bare { principal } => SessionBodyView::Bare(*principal),
            SessionBody::Signed { principal, nonce, origin, scope, sig } => SessionBodyView::Signed(
                *principal,
                nonce@,
                origin@,
                *scope,
                sig@,
            ),
        }
    }
}

/// A parse outcome with the body as its view.
pub open spec fn body_result(r: Result<SessionBody, String>) -> Result<SessionBodyView, Seq<char>> {
    match r {
        Ok(b) => Ok(b@),
        Err(e) => Err(e@),
    }
}

/// A member that is an unsigned integer, as its value.
pub open spec fn member_u64(v: Option<MemberView>) -> Option<u64> {
    match v {
        Some(MemberView::Number(Some(n))) => Some(n),
        _ => None,
    }
}

/// A member that is a string, as its text.
pub open spec fn member_str(v: Option<MemberView>) -> Option<Seq<char>> {
    match v {
        Some(MemberView::Str(t)) => Some(t),
        _ => None,
    }
}

/// The keys a session body may carry.
pub open spec fn session_keys() -> Seq<Seq<char>> {
    seq!["principal"@, "nonce"@, "origin"@, "scope"@, "sig"@]
}

/// How many of the three signed fields are present.
pub open spec fn signed_count(m: Seq<(Seq<char>, MemberView)>) -> int {
    (if lookup(m, "nonce"@) is Some { 1int } else { 0 }) + (if lookup(m, "origin"@) is Some { 1int } else { 0 }) + (
    if lookup(m, "sig"@) is Some {
        1int
    } else {
        0
    })
}

/// The signed form's fields, read in order: the origin (a string, and
/// canonical), the nonce (a string, 64 lowercase hex), the signature (a
/// string, 128 hex), then the scope — absent is FULL, present it is exactly
/// the string `content`.
pub open spec fn signed_body(m: Seq<(Seq<char>, MemberView)>, principal: u64) -> Result<SessionBodyView, Seq<char>> {
    match member_str(lookup(m, "origin"@)) {
        None => Err("field 'origin' must be a string"@),
        Some(ot) => if origin::origin_spec(encode_utf8(ot)) is None {
            Err("field 'origin' is not a canonical origin"@)
        } else {
            match member_str(lookup(m, "nonce"@)) {
                None => Err("field 'nonce' must be a string"@),
                Some(nt) => match hex::lower_hex_decode(encode_utf8(nt), 32) {
                    None => Err("field 'nonce' is not 64 lowercase hex"@),
                    Some(nb) => match member_str(lookup(m, "sig"@)) {
                        None => Err("field 'sig' must be a string"@),
                        Some(st) => if encode_utf8(st).len() != 128 || hex::any_hex_decode(encode_utf8(st)) is None {
                            Err("field 'sig' is not 128 hex characters decoding to 64 bytes"@)
                        } else {
                            let sig = hex::any_hex_decode(encode_utf8(st))->0;
                            match lookup(m, "scope"@) {
                                None => Ok(SessionBodyView::Signed(principal, nb, encode_utf8(ot), Scope::Full, sig)),
                                Some(MemberView::Str(t)) => if t == "content"@ {
                                    Ok(SessionBodyView::Signed(principal, nb, encode_utf8(ot), Scope::Content, sig))
                                } else {
                                    Err("field 'scope' must be exactly \"content\""@)
                                },
                                Some(_) => Err("field 'scope' must be exactly \"content\""@),
                            }
                        },
                    },
                },
            }
        },
    }
}

/// The session body grammar over a parsed document: a JSON object whose
/// `principal` is an unsigned integer and which carries no key but the
/// five; then none of the three signed fields (the bare form, which takes
/// no `scope`) or all three (the signed form).
pub open spec fn session_body_of(top: JsonTopView) -> Result<SessionBodyView, Seq<char>> {
    match top {
        JsonTopView::NotObject => Err("session request must be a JSON object"@),
        JsonTopView::Object(m) => match member_u64(lookup(m, "principal"@)) {
            None => Err("missing or non-integer field 'principal'"@),
            Some(p) => match codec::first_unknown(m, session_keys()) {
                Some(k) => Err(codec::unknown_field(k)),
                None => if signed_count(m) == 0 {
                    if lookup(m, "scope"@) is Some {
                        Err("field 'scope' belongs to the signed session body alone"@)
                    } else {
                        Ok(SessionBodyView::Bare(p))
                    }
                } else if signed_count(m) == 3 {
                    signed_body(m, p)
                } else {
                    Err("a signed session body carries nonce, origin and sig together"@)
                },
            },
        },
    }
}

fn text_of(v: Option<&Member>) -> (r: Option<&str>)
    ensures
        match member_str(
            match v {
                Some(x) => Some(x@),
                None => None,
            },
        ) {
            Some(t) => r matches Some(s) && s@ == t,
            None => r is None,
        },
{
    match v {
        Some(Member::Str(s)) => Some(s.as_str()),
        _ => None,
    }
}

/// The session body grammar over the document serde_json read.
pub fn session_body_from(top: JsonTop) -> (r: Result<SessionBody, String>)
    ensures
        body_result(r) == session_body_of(top@),
{
    let m = match top {
        JsonTop::NotObject => {
            return Err("session request must be a JSON object".to_string());
        },
        JsonTop::Object(m) => m,
    };
    let ghost mv = json::member_views(m@);
    let principal = match json::member(&m, "principal") {
        Some(Member::Number(Some(n))) => *n,
        _ => {
            return Err("missing or non-integer field 'principal'".to_string());
        },
    };
    let keys = ["principal", "nonce", "origin", "scope", "sig"];
    proof {
        assert(codec::str_views(keys@) =~= session_keys());
    }
    match codec::check_keys(&m, keys.as_slice()) {
        Err(e) => {
            return Err(e);
        },
        Ok(()) => {},
    }
    let nonce_m = json::member(&m, "nonce");
    let origin_m = json::member(&m, "origin");
    let sig_m = json::member(&m, "sig");
    let scope_m = json::member(&m, "scope");
    let mut count: usize = 0;
    if nonce_m.is_some() {
        count = count + 1;
    }
    if origin_m.is_some() {
        count = count + 1;
    }
    if sig_m.is_some() {
        count = count + 1;
    }
    if count == 0 {
        if scope_m.is_some() {
            return Err("field 'scope' belongs to the signed session body alone".to_string());
        }
        return Ok(SessionBody::Bare { principal });
    }
    if count != 3 {
        return Err("a signed session body carries nonce, origin and sig together".to_string());
    }
    let origin_text = match text_of(origin_m) {
        Some(t) => t,
        None => {
            return Err("field 'origin' must be a string".to_string());
        },
    };
    let origin = match Origin::parse(origin_text) {
        Some(o) => o,
        None => {
            return Err("field 'origin' is not a canonical origin".to_string());
        },
    };
    let nonce_text = match text_of(nonce_m) {
        Some(t) => t,
        None => {
            return Err("field 'nonce' must be a string".to_string());
        },
    };
    let nonce = match Nonce::parse_hex(nonce_text) {
        Some(n) => n,
        None => {
            return Err("field 'nonce' is not 64 lowercase hex".to_string());
        },
    };
    let sig_text = match text_of(sig_m) {
        Some(t) => t,
        None => {
            return Err("field 'sig' must be a string".to_string());
        },
    };
    let sig = match parse_sig(sig_text) {
        Some(s) => s,
        None => {
            return Err("field 'sig' is not 128 hex characters decoding to 64 bytes".to_string());
        },
    };
    let scope = match scope_m {
        None => Scope::Full,
        Some(Member::Str(t)) => {
            if text::str_eq(t.as_str(), SCOPE_CONTENT) {
                Scope::Content
            } else {
                return Err("field 'scope' must be exactly \"content\"".to_string());
            }
        },
        Some(_) => {
            return Err("field 'scope' must be exactly \"content\"".to_string());
        },
    };
    Ok(SessionBody::Signed { principal, nonce, origin, scope, sig })
}

/// Parse a session request body: the JSON document, then the grammar.
pub fn parse_session_body(body: &[u8]) -> (r: Result<SessionBody, String>)
    ensures
        match json::json_read(body@) {
            Err(e) => r matches Err(s) && s@ == "invalid JSON: "@ + e,
            Ok(t) => body_result(r) == session_body_of(t),
        },
{
    match json::json_top(body) {
        Err(e) => {
            let mut s = "invalid JSON: ".to_string();
            s.append(e.as_str());
            Err(s)
        },
        Ok(t) => session_body_from(t),
    }
}

/// The two layouts never pass for each other: their tags differ in their
/// last byte, so neither payload is a prefix of the other, and no signature
/// over one layout verifies over the other.
pub proof fn law_layouts_are_distinct(origin: Seq<u8>, nonce: Seq<u8>, principal: u64)
    ensures
        ({
            let v1 = payload(origin, nonce, principal, Scope::Full);
            let v2 = payload(origin, nonce, principal, Scope::Content);
            &&& !(v1.len() <= v2.len() && v2.take(v1.len() as int) == v1)
            &&& !(v2.len() <= v1.len() && v1.take(v2.len() as int) == v2)
        }),
{
    reveal_strlit("skep-session-v1");
    reveal_strlit("skep-session-v2");
    let t1 = SESSION_TAG.spec_bytes();
    let t2 = SESSION_TAG_V2.spec_bytes();
    assert(vstd::utf8::is_ascii_chars(SESSION_TAG@));
    assert(vstd::utf8::is_ascii_chars(SESSION_TAG_V2@));
    vstd::string::is_ascii_spec_bytes(SESSION_TAG);
    vstd::string::is_ascii_spec_bytes(SESSION_TAG_V2);
    assert(t1.len() == 15 && t2.len() == 15);
    assert(t1[14] == 49u8 && t2[14] == 50u8);
    let v1 = payload(origin, nonce, principal, Scope::Full);
    let v2 = payload(origin, nonce, principal, Scope::Content);
    assert(v1[14] == t1[14]);
    assert(v2[14] == t2[14]);
}

} // verus!
