//! The sessions store: token → the binding it names. Process-lifetime, no
//! cap, no TTL — a binding is reclaimed at its close, at a presentation that
//! finds it dead, or at restart. A lookup answers one of three arms from
//! ONE home, so no caller can mis-map them, and the resolve maps each arm
//! to the request's actor.

use vstd::prelude::*;
use vstd::string::*;
use crate::auth::{self, AuthConfig, BareBind};
use crate::blocked::{self, Address};
use crate::challenges::OsEntropy;
use crate::hex;
use crate::session::{Peer, Scope, Token};
use crate::text;

verus! {

/// One live session's binding: the session's id, the named principal, the
/// fingerprint of the enrolled key that established it (`None` for a bare
/// bind, which signs nothing), and the scope it declared at its opening.
#[derive(Debug, Clone, Copy, PartialEq, Eq)]
pub struct SessionBinding {
    pub sid: u64,
    pub principal: u64,
    pub signer: Option<[u8; 32]>,
    pub scope: Scope,
}

/// The key testimony a write names: the establishing key's fingerprint in
/// lowercase hex, or `bare`.
pub open spec fn testimony_of(b: SessionBinding) -> Seq<char> {
    match b.signer {
        Some(fp) => text::ascii_text(hex::hex_encode(fp@)),
        None => "bare"@,
    }
}

impl SessionBinding {
    /// The key testimony of a write this session commits: the establishing
    /// key's fingerprint hex, or `bare` for a bare bind.
    pub fn testimony(&self) -> (s: String)
        ensures
            s@ == testimony_of(*self),
    {
        match &self.signer {
            Some(fp) => hex::hex_string(fp.as_slice()),
            None => "bare".to_string(),
        }
    }
}

/// A lookup's three arms.
#[derive(Debug, Clone, Copy, PartialEq, Eq)]
pub enum Lookup {
    NoToken,
    Unknown,
    Found(SessionBinding),
}

/// What a lookup of `t` answers against the bindings `m`: no token
/// presented, a token the store does not hold, or the binding it names.
pub open spec fn looked_up(m: Map<Seq<u8>, SessionBinding>, t: Option<Seq<u8>>) -> Lookup {
    match t {
        None => Lookup::NoToken,
        Some(k) => if m.dom().contains(k) {
            Lookup::Found(m[k])
        } else {
            Lookup::Unknown
        },
    }
}

/// What a close of `t` hands back: the binding it named, if any.
pub open spec fn closed(m: Map<Seq<u8>, SessionBinding>, t: Seq<u8>) -> Option<SessionBinding> {
    if m.dom().contains(t) {
        Some(m[t])
    } else {
        None
    }
}

/// The bindings' map view.
pub open spec fn binding_map(v: Seq<(Token, SessionBinding)>) -> Map<Seq<u8>, SessionBinding>
    decreases v.len(),
{
    if v.len() == 0 {
        Map::empty()
    } else {
        binding_map(v.drop_last()).insert(v.last().0@, v.last().1)
    }
}

/// No token twice.
pub open spec fn distinct_tokens(v: Seq<(Token, SessionBinding)>) -> bool {
    forall|i: int, j: int| 0 <= i < j < v.len() ==> (#[trigger] v[i]).0@ != (#[trigger] v[j]).0@
}

proof fn lemma_binding_map(v: Seq<(Token, SessionBinding)>)
    requires
        distinct_tokens(v),
    ensures
        forall|k: Seq<u8>|
            binding_map(v).dom().contains(k) <==> exists|i: int| 0 <= i < v.len() && #[trigger] v[i].0@ == k,
        forall|i: int| 0 <= i < v.len() ==> binding_map(v)[#[trigger] v[i].0@] == v[i].1,
    decreases v.len(),
{
    if v.len() > 0 {
        let p = v.drop_last();
        assert(distinct_tokens(p));
        lemma_binding_map(p);
        assert forall|k: Seq<u8>|
            binding_map(v).dom().contains(k) <==> exists|i: int| 0 <= i < v.len() && #[trigger] v[i].0@ == k by {
            if binding_map(v).dom().contains(k) {
                if k == v.last().0@ {
                    assert(v[v.len() - 1].0@ == k);
                } else {
                    assert(binding_map(p).dom().contains(k));
                    let i = choose|i: int| 0 <= i < p.len() && #[trigger] p[i].0@ == k;
                    assert(v[i] == p[i]);
                    assert(v[i].0@ == k);
                }
            }
            if exists|i: int| 0 <= i < v.len() && #[trigger] v[i].0@ == k {
                let i = choose|i: int| 0 <= i < v.len() && #[trigger] v[i].0@ == k;
                if i < p.len() {
                    assert(p[i] == v[i]);
                } else {
                    assert(v[i] == v.last());
                }
            }
        }
        assert forall|i: int| 0 <= i < v.len() implies binding_map(v)[#[trigger] v[i].0@] == v[i].1 by {
            if i < p.len() {
                assert(v[i] == p[i]);
                assert(v[i].0@ != v[v.len() - 1].0@);
            }
        }
    }
}

/// The sessions store.
pub struct Sessions {
    bindings: Vec<(Token, SessionBinding)>,
}

impl Sessions {
    /// Token → binding.
    pub closed spec fn map(&self) -> Map<Seq<u8>, SessionBinding> {
        binding_map(self.bindings@)
    }

    #[verifier::type_invariant]
    closed spec fn one_binding_per_token(&self) -> bool {
        distinct_tokens(self.bindings@)
    }

    /// An empty store.
    pub fn new() -> (s: Sessions)
        ensures
            s.map() == Map::<Seq<u8>, SessionBinding>::empty(),
    {
        Sessions { bindings: Vec::new() }
    }

    /// Where `t` sits among the bindings, if it does.
    fn position(&self, t: &Token) -> (r: Option<usize>)
        ensures
            match r {
                Some(i) => i < self.bindings@.len() && self.bindings@[i as int].0@ == t@,
                None => forall|i: int| 0 <= i < self.bindings@.len() ==> #[trigger] self.bindings@[i].0@ != t@,
            },
    {
        let mut i: usize = 0;
        while i < self.bindings.len()
            invariant
                0 <= i <= self.bindings@.len(),
                forall|j: int| 0 <= j < i ==> #[trigger] self.bindings@[j].0@ != t@,
            decreases self.bindings@.len() - i,
        {
            if self.bindings[i].0.same(t) {
                return Some(i);
            }
            i = i + 1;
        }
        None
    }

    /// Bind the token `raw` to `binding`, replacing what it named before.
    pub fn open_with(&mut self, binding: SessionBinding, raw: [u8; 16]) -> (t: Token)
        ensures
            t@ == raw@,
            final(self).map() == old(self).map().insert(raw@, binding),
    {
        proof {
            use_type_invariant(&*self);
            lemma_binding_map(self.bindings@);
        }
        let token = Token::from_bytes(raw);
        let kept = Token::from_bytes(raw);
        let ghost before = self.bindings@;
        match self.position(&token) {
            Some(i) => {
                let mut v: Vec<(Token, SessionBinding)> = Vec::new();
                std::mem::swap(&mut v, &mut self.bindings);
                v.set(i, (kept, binding));
                proof {
                    assert(v@ =~= before.update(i as int, (kept, binding)));
                    assert(distinct_tokens(v@)) by {
                        assert forall|a: int, b: int| 0 <= a < b < v@.len() implies (#[trigger] v@[a]).0@
                            != (#[trigger] v@[b]).0@ by {
                            assert(v@[a].0@ == before[a].0@);
                            assert(v@[b].0@ == before[b].0@);
                        }
                    }
                    lemma_binding_map(v@);
                    assert(binding_map(v@) =~= binding_map(before).insert(raw@, binding)) by {
                        assert forall|k: Seq<u8>|
                            #[trigger] binding_map(v@).dom().contains(k) <==> binding_map(before).insert(
                                raw@,
                                binding,
                            ).dom().contains(k) by {
                            if exists|j: int| 0 <= j < v@.len() && #[trigger] v@[j].0@ == k {
                                let j = choose|j: int| 0 <= j < v@.len() && #[trigger] v@[j].0@ == k;
                                assert(before[j].0@ == k);
                            }
                            if exists|j: int| 0 <= j < before.len() && #[trigger] before[j].0@ == k {
                                let j = choose|j: int| 0 <= j < before.len() && #[trigger] before[j].0@ == k;
                                assert(v@[j].0@ == k);
                            }
                            if k == raw@ {
                                assert(v@[i as int].0@ == k);
                            }
                        }
                        assert forall|k: Seq<u8>| #[trigger] binding_map(v@).dom().contains(k) implies binding_map(
                            v@,
                        )[k] == binding_map(before).insert(raw@, binding)[k] by {
                            let j = choose|j: int| 0 <= j < v@.len() && #[trigger] v@[j].0@ == k;
                            if j != i {
                                assert(before[j] == v@[j]);
                                assert(before[j].0@ != before[i as int].0@);
                            }
                        }
                    }
                }
                self.bindings = v;
            },
            None => {
                let mut v: Vec<(Token, SessionBinding)> = Vec::new();
                std::mem::swap(&mut v, &mut self.bindings);
                v.push((kept, binding));
                proof {
                    assert(v@.drop_last() =~= before);
                    assert(distinct_tokens(v@)) by {
                        assert forall|a: int, b: int| 0 <= a < b < v@.len() implies (
                        #[trigger] v@[a]).0@ != (#[trigger] v@[b]).0@ by {
                            assert(v@[a] == before[a]);
                            if b < before.len() {
                                assert(v@[b] == before[b]);
                            }
                        }
                    }
                }
                self.bindings = v;
            },
        }
        token
    }

    /// Mint a fresh token for `binding`: 128 bits of OS entropy. `None`,
    /// the store unchanged, where the OS has no entropy to give — no
    /// session is ever named by a weaker token.
    pub fn open(&mut self, binding: SessionBinding, rng: &mut OsEntropy) -> (t: Option<Token>)
        ensures
            match t {
                Some(tok) => final(self).map() == old(self).map().insert(tok@, binding),
                None => final(self).map() == old(self).map(),
            },
    {
        match rng.fill_bytes(16) {
            Some(v) => {
                let mut raw = [0u8; 16];
                let mut i: usize = 0;
                while i < 16
                    invariant
                        0 <= i <= 16,
                        v@.len() == 16,
                        raw@.len() == 16,
                    decreases 16 - i,
                {
                    raw[i] = v[i];
                    i = i + 1;
                }
                Some(self.open_with(binding, raw))
            },
            None => None,
        }
    }

    /// No token ⇒ `NoToken`; a miss ⇒ `Unknown`; a hit ⇒ `Found`, by value.
    pub fn lookup(&self, t: Option<&Token>) -> (r: Lookup)
        ensures
            r == looked_up(
                self.map(),
                match t {
                    Some(k) => Some(k@),
                    None => None,
                },
            ),
    {
        proof {
            use_type_invariant(self);
            lemma_binding_map(self.bindings@);
        }
        match t {
            None => Lookup::NoToken,
            Some(tok) => match self.position(tok) {
                Some(i) => Lookup::Found(self.bindings[i].1),
                None => Lookup::Unknown,
            },
        }
    }

    /// Close `t`, handing back the binding it named — the session id the
    /// close needs, with no second lookup.
    pub fn close(&mut self, t: &Token) -> (r: Option<SessionBinding>)
        ensures
            r == closed(old(self).map(), t@),
            final(self).map() == old(self).map().remove(t@),
    {
        proof {
            use_type_invariant(&*self);
            lemma_binding_map(self.bindings@);
        }
        let ghost before = self.bindings@;
        match self.position(t) {
            None => {
                assert(!binding_map(before).dom().contains(t@));
                assert(binding_map(before).remove(t@) =~= binding_map(before));
                None
            },
            Some(i) => {
                let mut v: Vec<(Token, SessionBinding)> = Vec::new();
                std::mem::swap(&mut v, &mut self.bindings);
                let (_, b) = v.remove(i);
                proof {
                    assert(v@ =~= before.remove(i as int));
                    assert(distinct_tokens(v@)) by {
                        assert forall|a: int, c: int| 0 <= a < c < v@.len() implies (#[trigger] v@[a]).0@
                            != (#[trigger] v@[c]).0@ by {
                            let a0 = if a < i { a } else { a + 1 };
                            let c0 = if c < i { c } else { c + 1 };
                            assert(v@[a] == before[a0]);
                            assert(v@[c] == before[c0]);
                        }
                    }
                    lemma_binding_map(v@);
                    assert(binding_map(v@) =~= binding_map(before).remove(t@)) by {
                        assert forall|k: Seq<u8>|
                            #[trigger] binding_map(v@).dom().contains(k) <==> binding_map(before).remove(
                                t@,
                            ).dom().contains(k) by {
                            if exists|j: int| 0 <= j < v@.len() && #[trigger] v@[j].0@ == k {
                                let j = choose|j: int| 0 <= j < v@.len() && #[trigger] v@[j].0@ == k;
                                let j0 = if j < i { j } else { j + 1 };
                                assert(before[j0].0@ == k);
                                assert(j0 != i);
                            }
                            if k != t@ && exists|j: int| 0 <= j < before.len() && #[trigger] before[j].0@ == k {
                                let j = choose|j: int| 0 <= j < before.len() && #[trigger] before[j].0@ == k;
                                assert(j != i);
                                let j1 = if j < i { j } else { j - 1 };
                                assert(v@[j1].0@ == k);
                            }
                        }
                        assert forall|k: Seq<u8>| #[trigger] binding_map(v@).dom().contains(k) implies binding_map(
                            v@,
                        )[k] == binding_map(before).remove(t@)[k] by {
                            let j = choose|j: int| 0 <= j < v@.len() && #[trigger] v@[j].0@ == k;
                            let j0 = if j < i { j } else { j + 1 };
                            assert(v@[j] == before[j0]);
                        }
                    }
                }
                self.bindings = v;
                Some(b)
            },
        }
    }
}

/// What a read gives back of a write: a lookup of the token an open
/// minted finds the binding it was opened with.
pub proof fn law_a_session_reads_back_its_binding(m: Map<Seq<u8>, SessionBinding>, t: Seq<u8>, b: SessionBinding)
    ensures
        looked_up(m.insert(t, b), Some(t)) == Lookup::Found(b),
{
}

/// A closed token is unknown to every later lookup, and the close hands
/// back exactly what a lookup before it found.
pub proof fn law_a_closed_token_is_unknown(m: Map<Seq<u8>, SessionBinding>, t: Seq<u8>)
    ensures
        looked_up(m.remove(t), Some(t)) == Lookup::Unknown,
        match closed(m, t) {
            Some(b) => looked_up(m, Some(t)) == Lookup::Found(b),
            None => looked_up(m, Some(t)) == Lookup::Unknown,
        },
{
}

/// Opening or closing one token leaves every other token's answer as it
/// was.
pub proof fn law_other_tokens_are_untouched(
    m: Map<Seq<u8>, SessionBinding>,
    t: Seq<u8>,
    b: SessionBinding,
    other: Seq<u8>,
)
    requires
        other != t,
    ensures
        looked_up(m.insert(t, b), Some(other)) == looked_up(m, Some(other)),
        looked_up(m.remove(t), Some(other)) == looked_up(m, Some(other)),
{
}

// ── resolve ─────────────────────────────────────────────────────────────

/// Why a request runs as a guest. The glue closes and signals on `Unknown`
/// and `BindingDead` only; `NoToken` has nothing to close, and a
/// `RequestRefused` binding lives untouched.
#[derive(Debug, Clone, Copy, PartialEq, Eq)]
pub enum GuestReason {
    NoToken,
    Unknown,
    BindingDead,
    RequestRefused,
}

/// The resolved actor of one request.
#[derive(Debug, Clone, Copy, PartialEq, Eq)]
pub enum Actor {
    Guest(GuestReason),
    Principal(SessionBinding),
}

/// The lookup's arm, mapped: a found binding meets THE BLOCK first — a
/// binding whose own account the list covers is dead, signed and bare
/// alike — then a signed binding lives while its key is still enrolled,
/// and a bare one by the bare-bind rule (the mode's refusal is death, the
/// request's is this request's alone).
pub open spec fn resolve_spec(
    cfg: AuthConfig,
    vs: Seq<Option<blocked::Comparand>>,
    es: Seq<(Seq<Seq<u8>>, Seq<Seq<u8>>)>,
    lookup: Lookup,
    peer: Peer,
    origin_hdr: Option<Seq<u8>>,
    claimed: bool,
    account: Option<Seq<Seq<u8>>>,
    key_live: bool,
) -> Actor {
    match lookup {
        Lookup::NoToken => Actor::Guest(GuestReason::NoToken),
        Lookup::Unknown => Actor::Guest(GuestReason::Unknown),
        Lookup::Found(b) => if account matches Some(a) && blocked::cover_of(vs, es, a) is Some {
            Actor::Guest(GuestReason::BindingDead)
        } else if b.signer is Some {
            if key_live {
                Actor::Principal(b)
            } else {
                Actor::Guest(GuestReason::BindingDead)
            }
        } else {
            match auth::bare_bind_spec(cfg, peer, origin_hdr, claimed) {
                BareBind::Allowed => Actor::Principal(b),
                BareBind::ModeRefused => Actor::Guest(GuestReason::BindingDead),
                BareBind::RequestRefused => Actor::Guest(GuestReason::RequestRefused),
            }
        },
    }
}

/// THE RESOLVE: the pure `Lookup` → `Actor` map. The caller performs the
/// one store lookup and passes its value; `account` is the binding's own
/// account as the board resolves its principal (`None` for one it does
/// not know), and `key_live` whether the binding's signer is still in its
/// principal's key set — asked only of a signed binding the list does not
/// block.
pub fn resolve(
    cfg: &AuthConfig,
    lookup: Lookup,
    peer: Peer,
    origin_hdr: Option<&str>,
    claimed: bool,
    account: Option<&Address>,
    key_live: bool,
) -> (r: Actor)
    ensures
        r == resolve_spec(
            *cfg,
            cfg.list().verdicts(),
            cfg.list().entries(),
            lookup,
            peer,
            match origin_hdr {
                Some(h) => Some(h.spec_bytes()),
                None => None,
            },
            claimed,
            match account {
                Some(a) => Some(a@),
                None => None,
            },
            key_live,
        ),
{
    match lookup {
        Lookup::NoToken => Actor::Guest(GuestReason::NoToken),
        Lookup::Unknown => Actor::Guest(GuestReason::Unknown),
        Lookup::Found(binding) => {
            let dead = match account {
                Some(own) => cfg.blocked_prefixes().covers(own).is_some(),
                None => false,
            };
            if dead {
                return Actor::Guest(GuestReason::BindingDead);
            }
            match binding.signer {
                Some(_) => {
                    if key_live {
                        Actor::Principal(binding)
                    } else {
                        Actor::Guest(GuestReason::BindingDead)
                    }
                },
                None => match auth::bare_bind_allowed(cfg, peer, origin_hdr, claimed) {
                    BareBind::Allowed => Actor::Principal(binding),
                    BareBind::ModeRefused => Actor::Guest(GuestReason::BindingDead),
                    BareBind::RequestRefused => Actor::Guest(GuestReason::RequestRefused),
                },
            }
        },
    }
}

/// THE BLOCK is arm-blind: a found binding whose own account the list
/// covers is dead, whatever its arm, its key, the peer or the origin.
pub proof fn law_a_blocked_binding_is_dead(
    cfg: AuthConfig,
    vs: Seq<Option<blocked::Comparand>>,
    es: Seq<(Seq<Seq<u8>>, Seq<Seq<u8>>)>,
    b: SessionBinding,
    peer: Peer,
    origin_hdr: Option<Seq<u8>>,
    claimed: bool,
    account: Seq<Seq<u8>>,
    key_live: bool,
)
    requires
        blocked::cover_of(vs, es, account) is Some,
    ensures
        resolve_spec(cfg, vs, es, Lookup::Found(b), peer, origin_hdr, claimed, Some(account), key_live)
            == Actor::Guest(GuestReason::BindingDead),
{
}

} // verus!
