//! The auth configuration and what is derived from it: the bound port, the
//! board's mode, the bare and signed arms' origin sets, the config-lockout
//! warnings, and the bare-bind rule.

use vstd::prelude::*;
use vstd::string::*;
use crate::blocked::{self, Address, BlockedIssue, BlockedPrefixes};
use crate::cli::NodePrefix;
use crate::origin::{self, Origin, PortAlreadyBound};
use crate::origins::{self, OriginSet};
use crate::session::Peer;
use crate::text;

verus! {

broadcast use vstd::utf8::group_utf8_lib;

// ── loopback-host origins ───────────────────────────────────────────────

/// One of the three loopback-host names.
pub open spec fn is_loopback_host(h: Seq<u8>) -> bool {
    h == origins::loopback_host(0) || h == origins::loopback_host(1) || h
        == origins::loopback_host(2)
}

/// A canonical origin text naming a loopback host over plain HTTP, at any
/// port — the shape the defaults are minted in.
pub open spec fn names_loopback(t: Seq<u8>) -> bool {
    match origin::origin_spec(t) {
        Some((https, h)) => !https && is_loopback_host(h),
        None => false,
    }
}

/// The loopback defaults' texts for a bound port, or none while unbound.
pub open spec fn defaults_view(port: Option<u16>) -> Seq<Seq<u8>> {
    match port {
        None => Seq::empty(),
        Some(p) => seq![
            origins::loopback_text(0, p),
            origins::loopback_text(1, p),
            origins::loopback_text(2, p),
        ],
    }
}

impl Origin {
    /// Whether this origin names one of the three loopback hosts over plain
    /// HTTP, whatever port it carries.
    pub fn names_loopback_host(&self) -> (r: bool)
        ensures
            r == names_loopback(self@),
    {
        self.canonical_facts();
        if self.is_https() {
            return false;
        }
        let h = self.host_bytes();
        let a: [u8; 9] = [49u8, 50, 55, 46, 48, 46, 48, 46, 49];
        let b: [u8; 5] = [91u8, 58, 58, 49, 93];
        let c: [u8; 9] = [108u8, 111, 99, 97, 108, 104, 111, 115, 116];
        assert(a@ =~= origins::loopback_host(0));
        assert(b@ =~= origins::loopback_host(1));
        assert(c@ =~= origins::loopback_host(2));
        text::bytes_eq(h, a.as_slice()) || text::bytes_eq(h, b.as_slice()) || text::bytes_eq(
            h,
            c.as_slice(),
        )
    }
}

// ── the configuration ───────────────────────────────────────────────────

/// The auth options a daemon is opened with.
pub struct AuthOptions {
    /// Bare binds honored on loopback after the claim when true; ENFORCING
    /// when false. Pre-claim the flag is not consulted.
    pub local_trust: bool,
    /// The CONFIGURED origin set — the signed arm's whole set once claimed;
    /// unioned with the loopback defaults on the bare arm.
    pub configured: Vec<Origin>,
    /// The board's full node prefix in the registry (`--node-prefix 1.N`),
    /// or `None` for a board that has not been told it.
    pub node_prefix: Option<NodePrefix>,
}

impl AuthOptions {
    /// The defaults: local trust on, nothing configured, no node prefix.
    pub fn default_options() -> (o: AuthOptions)
        ensures
            o.local_trust,
            o.configured@.len() == 0,
            o.node_prefix is None,
    {
        AuthOptions { local_trust: true, configured: Vec::new(), node_prefix: None }
    }
}

impl Default for AuthOptions {
    /// The defaults: local trust on, nothing configured, no node prefix.
    fn default() -> (o: AuthOptions)
        ensures
            o.local_trust,
            o.configured@.len() == 0,
            o.node_prefix is None,
    {
        AuthOptions::default_options()
    }
}

/// A node prefix's bytes, if there is one.
pub open spec fn prefix_bytes(p: Option<NodePrefix>) -> Option<Seq<u8>> {
    match p {
        Some(n) => Some(n@),
        None => None,
    }
}

/// The start-up line that names the node prefix in force, or says that
/// none is and what that turns off.
pub open spec fn prefix_line(p: Option<NodePrefix>) -> Seq<char> {
    match p {
        Some(n) => "node prefix "@ + n.spelled()
            + " (--node-prefix): egress and assertion config, never journaled; the blocked-prefix list's off-board test runs against it"@,
        None => "no --node-prefix: the off-board test is off (every operator account reads as this board's own); a hosted board must supply one"@,
    }
}

/// The resolved configuration the auth surface reads: the options, plus the
/// BOUND port, which exists only once the listener does. Until it is set
/// there is no port and so no loopback defaults.
pub struct AuthConfig {
    local_trust: bool,
    configured: OriginSet,
    port: Option<u16>,
    node_prefix: Option<NodePrefix>,
    blocked: BlockedPrefixes,
}

/// A node prefix's bytes, from a reference to one.
pub open spec fn prefix_of(p: Option<&NodePrefix>) -> Option<Seq<u8>> {
    match p {
        Some(n) => Some(n@),
        None => None,
    }
}

/// An address's components, from a reference to one.
pub open spec fn account_of(a: Option<&Address>) -> Option<Seq<Seq<u8>>> {
    match a {
        Some(x) => Some(x@),
        None => None,
    }
}

impl AuthConfig {
    #[verifier::type_invariant]
    closed spec fn port_nonzero(&self) -> bool {
        self.port != Some(0u16)
    }

    /// The local-trust flag.
    pub closed spec fn trusts_local(&self) -> bool {
        self.local_trust
    }

    /// The configured origins' texts, ascending.
    pub closed spec fn configured_view(&self) -> Seq<Seq<u8>> {
        self.configured@
    }

    /// The bound port, if one is.
    pub closed spec fn bound_port(&self) -> Option<u16> {
        self.port
    }

    /// The node prefix in force, if the daemon was told one.
    pub closed spec fn prefix(&self) -> Option<NodePrefix> {
        self.node_prefix
    }

    /// The configuration of these options, unbound.
    pub fn new(opts: AuthOptions) -> (c: AuthConfig)
        ensures
            c.trusts_local() == opts.local_trust,
            c.configured_view().to_set() == origins::views(opts.configured@).to_set(),
            origins::strictly_sorted(c.configured_view()),
            c.bound_port() is None,
            c.prefix() == opts.node_prefix,
    {
        let AuthOptions { local_trust, configured, node_prefix } = opts;
        let ghost given = origins::views(configured@);
        let mut set = OriginSet::new();
        let mut i: usize = 0;
        while i < configured.len()
            invariant
                0 <= i <= configured@.len(),
                given == origins::views(configured@),
                set@.to_set() == given.take(i as int).to_set(),
            decreases configured@.len() - i,
        {
            let o = configured[i].duplicate();
            set.insert(o);
            proof {
                lemma_take_to_set(given, i as int);
            }
            i = i + 1;
        }
        assert(given.take(i as int) =~= given);
        set.sorted_facts();
        let blocked = BlockedPrefixes::empty();
        AuthConfig { local_trust, configured: set, port: None, node_prefix, blocked }
    }

    /// The blocked-prefix list in force.
    pub closed spec fn list(&self) -> BlockedPrefixes {
        self.blocked
    }

    /// The list in force — a pure read.
    pub fn blocked_prefixes(&self) -> (l: &BlockedPrefixes)
        ensures
            *l == self.list(),
    {
        &self.blocked
    }

    /// One install, whole: the issue compared against the two inert
    /// comparands — the header's, `claimant` taken where it names none,
    /// the off-board test read against the node prefix in force — and the
    /// result put in force. Nothing else of the configuration moves.
    pub fn install_blocked(&mut self, issue: BlockedIssue, claimant: Option<&Address>)
        ensures
            blocked::installed_as(
                final(self).list(),
                blocked::entry_views(issue.entries@),
                (blocked::opt_view(issue.header.operator), blocked::opt_view(issue.header.binding_writer)),
                account_of(claimant),
                blocked::prefix_view(old(self).prefix()),
            ),
            final(self).trusts_local() == old(self).trusts_local(),
            final(self).configured_view() == old(self).configured_view(),
            final(self).bound_port() == old(self).bound_port(),
            final(self).prefix() == old(self).prefix(),
    {
        let list = match &self.node_prefix {
            Some(p) => BlockedPrefixes::installed_under(issue, claimant, Some(p)),
            None => BlockedPrefixes::installed_under(issue, claimant, None),
        };
        proof {
            use_type_invariant(&*self);
        }
        self.blocked = list;
    }

    /// THE CLAIM FLIP's half of the install: the issue in force compared
    /// again at the one transition that sets the claimant — its entries and
    /// header kept, its verdicts re-judged.
    pub fn reinstall_blocked_at_claim(&mut self, claimant: Option<&Address>)
        ensures
            blocked::installed_as(
                final(self).list(),
                old(self).list().entries(),
                old(self).list().header_view(),
                account_of(claimant),
                blocked::prefix_view(old(self).prefix()),
            ),
            final(self).trusts_local() == old(self).trusts_local(),
            final(self).configured_view() == old(self).configured_view(),
            final(self).bound_port() == old(self).bound_port(),
            final(self).prefix() == old(self).prefix(),
    {
        let list = match &self.node_prefix {
            Some(p) => self.blocked.reinstalled_under(claimant, Some(p)),
            None => self.blocked.reinstalled_under(claimant, None),
        };
        proof {
            use_type_invariant(&*self);
        }
        self.blocked = list;
    }

    /// The node prefix in force, or `None` where the daemon was told none.
    pub fn node_prefix(&self) -> (r: Option<&NodePrefix>)
        ensures
            match r {
                Some(p) => self.prefix() == Some(*p),
                None => self.prefix() is None,
            },
    {
        match &self.node_prefix {
            Some(p) => Some(p),
            None => None,
        }
    }

    /// The start-up line's text: the node prefix in force, or its absence.
    pub fn node_prefix_line(&self) -> (s: String)
        ensures
            s@ == prefix_line(self.prefix()),
    {
        match &self.node_prefix {
            Some(p) => {
                let mut s = "node prefix ".to_string();
                s.append(p.as_str());
                s.append(
                    " (--node-prefix): egress and assertion config, never journaled; the blocked-prefix list's off-board test runs against it",
                );
                s
            },
            None => "no --node-prefix: the off-board test is off (every operator account reads as this board's own); a hosted board must supply one".to_string(),
        }
    }

    /// The local-trust flag.
    pub fn local_trust(&self) -> (r: bool)
        ensures
            r == self.trusts_local(),
    {
        self.local_trust
    }

    /// The configured set.
    pub fn configured(&self) -> (r: &OriginSet)
        ensures
            r@ == self.configured_view(),
    {
        &self.configured
    }

    /// Bind the auth port, once. A second bind is refused and names the
    /// port ALREADY bound, leaving the binding where it was. Port 0 is not a
    /// port this daemon can serve on, and is a caller's error.
    pub fn bind_port(&mut self, port: u16) -> (r: Result<(), PortAlreadyBound>)
        requires
            port != 0,
        ensures
            final(self).trusts_local() == old(self).trusts_local(),
            final(self).configured_view() == old(self).configured_view(),
            match old(self).bound_port() {
                None => r is Ok && final(self).bound_port() == Some(port),
                Some(b) => r == Err::<(), PortAlreadyBound>(PortAlreadyBound(b))
                    && final(self).bound_port() == Some(b),
            },
    {
        match self.port {
            Some(b) => Err(PortAlreadyBound(b)),
            None => {
                self.port = Some(port);
                Ok(())
            },
        }
    }

    /// The bound port, or `None` while no listener exists.
    pub fn port(&self) -> (r: Option<u16>)
        ensures
            r == self.bound_port(),
            r != Some(0u16),
    {
        proof {
            use_type_invariant(self);
        }
        self.port
    }
}

proof fn lemma_take_to_set(s: Seq<Seq<u8>>, i: int)
    requires
        0 <= i < s.len(),
    ensures
        s.take(i + 1).to_set() == s.take(i).to_set().insert(s[i]),
{
    let a = s.take(i + 1);
    let b = s.take(i);
    assert forall|x: Seq<u8>| a.to_set().contains(x) <==> b.to_set().insert(s[i]).contains(x) by {
        if a.contains(x) {
            let k = choose|k: int| 0 <= k < a.len() && a[k] == x;
            if k < i {
                assert(b[k] == x);
            }
        }
        if b.contains(x) {
            let k = choose|k: int| 0 <= k < b.len() && b[k] == x;
            assert(a[k] == x);
        }
        if x == s[i] {
            assert(a[i] == x);
        }
    }
    assert(a.to_set() =~= b.to_set().insert(s[i]));
}

// ── the mode ────────────────────────────────────────────────────────────

/// The board's MODE, derived from two facts and never stored: whether the
/// board is claimed, and the local-trust flag.
#[derive(Debug, Clone, Copy, PartialEq, Eq, Structural)]
pub enum Mode {
    Unclaimed,
    ClaimedPermissive,
    Enforcing,
}

/// Pre-claim the flag is not consulted.
pub open spec fn mode_of(local_trust: bool, claimed: bool) -> Mode {
    if !claimed {
        Mode::Unclaimed
    } else if local_trust {
        Mode::ClaimedPermissive
    } else {
        Mode::Enforcing
    }
}

impl Mode {
    /// The mode this config is in at a snapshot whose claim is `claimed`.
    pub fn of(cfg: &AuthConfig, claimed: bool) -> (m: Mode)
        ensures
            m == mode_of(cfg.trusts_local(), claimed),
    {
        if !claimed {
            Mode::Unclaimed
        } else if cfg.local_trust() {
            Mode::ClaimedPermissive
        } else {
            Mode::Enforcing
        }
    }
}

// ── the two arms' origin sets ───────────────────────────────────────────

/// The BARE arm's set: the configured origins and the loopback defaults, in
/// every mode.
pub open spec fn bare_set(cfg: AuthConfig) -> Set<Seq<u8>> {
    defaults_view(cfg.bound_port()).to_set() + cfg.configured_view().to_set()
}

/// The BARE arm's origin set: `configured ∪ loopback_defaults(port)` in
/// every mode — the bare arm is loopback-privileged by design and the
/// defaults never drop from it.
pub fn bare_origins(cfg: &AuthConfig) -> (s: OriginSet)
    ensures
        s@.to_set() == bare_set(*cfg),
        origins::strictly_sorted(s@),
{
    let port = cfg.port();
    let mut set = origins::loopback_defaults(port);
    assert(set@ == defaults_view(port));
    let conf = cfg.configured();
    let ghost cv = conf@;
    let mut i: usize = 0;
    while i < conf.len()
        invariant
            0 <= i <= cv.len(),
            cv == conf@,
            cv == cfg.configured_view(),
            port == cfg.bound_port(),
            set@.to_set() == defaults_view(port).to_set() + cv.take(i as int).to_set(),
        decreases cv.len() - i,
    {
        let o = conf.get(i).duplicate();
        set.insert(o);
        proof {
            lemma_take_to_set(cv, i as int);
            assert(set@.to_set() =~= defaults_view(port).to_set() + cv.take(i + 1).to_set());
        }
        i = i + 1;
    }
    assert(cv.take(i as int) =~= cv);
    set.sorted_facts();
    set
}

/// The SIGNED arm's origin set: `configured` ALONE once claimed — the
/// claim-time drop — else the bare set.
pub fn signed_origins(cfg: &AuthConfig, claimed: bool) -> (s: OriginSet)
    ensures
        claimed ==> s@ == cfg.configured_view(),
        !claimed ==> s@.to_set() == bare_set(*cfg),
        origins::strictly_sorted(s@),
{
    if claimed {
        let s = cfg.configured().duplicate();
        s.sorted_facts();
        s
    } else {
        bare_origins(cfg)
    }
}

// ── startup warnings ────────────────────────────────────────────────────

/// The three config-lockout warnings, evaluated at startup and at the
/// claim flip.
pub enum Warning {
    ClaimedWithLocalTrust,
    ClaimedWithEmptyConfigured,
    /// Carries the OFFENDING configured origin, one arm each.
    ConfiguredLoopbackPortChanged(Origin),
}

/// A warning with its origin taken as its canonical text.
pub enum WarningView {
    ClaimedWithLocalTrust,
    ClaimedWithEmptyConfigured,
    ConfiguredLoopbackPortChanged(Seq<u8>),
}

impl View for Warning {
    type V = WarningView;

    open spec fn view(&self) -> WarningView {
        match self {
            Warning::ClaimedWithLocalTrust => WarningView::ClaimedWithLocalTrust,
            Warning::ClaimedWithEmptyConfigured => WarningView::ClaimedWithEmptyConfigured,
            Warning::ConfiguredLoopbackPortChanged(o) => WarningView::ConfiguredLoopbackPortChanged(
                o@,
            ),
        }
    }
}

impl Warning {
    /// The log line.
    pub fn text(&self) -> (s: String)
        ensures
            match self@ {
                WarningView::ConfiguredLoopbackPortChanged(t) => s@ == "configured origin "@
                    + text::ascii_text(t)
                    + " names a loopback host at a port this daemon is not bound to; re-issue the origin for the bound port (keys enrolled under "@
                    + text::ascii_text(t) + " are stranded until then)"@,
                WarningView::ClaimedWithLocalTrust => s@
                    == "board is claimed with --local-trust still on: any loopback party may write as any principal (CLAIMED-PERMISSIVE)"@,
                WarningView::ClaimedWithEmptyConfigured => s@
                    == "board is claimed with no configured origin: signed_origins is empty and every signed session will be refused"@,
            },
    {
        match self {
            Warning::ClaimedWithLocalTrust => "board is claimed with --local-trust still on: any loopback party may write as any principal (CLAIMED-PERMISSIVE)".to_string(),
            Warning::ClaimedWithEmptyConfigured => "board is claimed with no configured origin: signed_origins is empty and every signed session will be refused".to_string(),
            Warning::ConfiguredLoopbackPortChanged(o) => {
                o.canonical_facts();
                proof {
                    text::lemma_ascii_utf8(o@);
                }
                let mut s = "configured origin ".to_string();
                s.append(o.as_str());
                s.append(
                    " names a loopback host at a port this daemon is not bound to; re-issue the origin for the bound port (keys enrolled under ",
                );
                s.append(o.as_str());
                s.append(" are stranded until then)");
                s
            },
        }
    }
}

/// Arm 3's origins: each configured origin naming a loopback host that is
/// not one of the bound port's defaults, in the configured order.
pub open spec fn moved_loopback(conf: Seq<Seq<u8>>, port: Option<u16>) -> Seq<WarningView>
    decreases conf.len(),
{
    if conf.len() == 0 {
        Seq::empty()
    } else {
        let rest = moved_loopback(conf.drop_last(), port);
        let o = conf.last();
        if names_loopback(o) && !defaults_view(port).contains(o) {
            rest.push(WarningView::ConfiguredLoopbackPortChanged(o))
        } else {
            rest
        }
    }
}

/// The warnings, in order: CLAIMED-PERMISSIVE; claimed with an empty
/// configured set; then one per configured loopback origin at a port this
/// daemon is not bound to.
pub open spec fn warnings_of(cfg: AuthConfig, claimed: bool) -> Seq<WarningView> {
    let a: Seq<WarningView> = if mode_of(cfg.trusts_local(), claimed) == Mode::ClaimedPermissive {
        seq![WarningView::ClaimedWithLocalTrust]
    } else {
        Seq::empty()
    };
    let b: Seq<WarningView> = if claimed && cfg.configured_view().len() == 0 {
        seq![WarningView::ClaimedWithEmptyConfigured]
    } else {
        Seq::empty()
    };
    a + b + moved_loopback(cfg.configured_view(), cfg.bound_port())
}

/// The one pure warnings function: pure set membership over config, one
/// arm per offending origin.
pub fn startup_warnings(cfg: &AuthConfig, claimed: bool) -> (out: Vec<Warning>)
    ensures
        out@.len() == warnings_of(*cfg, claimed).len(),
        forall|i: int| 0 <= i < out@.len() ==> #[trigger] out@[i]@ == warnings_of(*cfg, claimed)[i],
{
    let mut out: Vec<Warning> = Vec::new();
    let ghost head: Seq<WarningView> = Seq::empty();
    if Mode::of(cfg, claimed) == Mode::ClaimedPermissive {
        out.push(Warning::ClaimedWithLocalTrust);
        proof {
            head = head.push(WarningView::ClaimedWithLocalTrust);
        }
    }
    let conf = cfg.configured();
    if claimed && conf.len() == 0 {
        out.push(Warning::ClaimedWithEmptyConfigured);
        proof {
            head = head.push(WarningView::ClaimedWithEmptyConfigured);
        }
    }
    let port = cfg.port();
    let defaults = origins::loopback_defaults(port);
    let ghost cv = conf@;
    let mut i: usize = 0;
    while i < conf.len()
        invariant
            0 <= i <= cv.len(),
            cv == conf@,
            cv == cfg.configured_view(),
            port == cfg.bound_port(),
            defaults@ == defaults_view(port),
            out@.len() == head.len() + moved_loopback(cv.take(i as int), port).len(),
            forall|k: int|
                0 <= k < out@.len() ==> #[trigger] out@[k]@ == (head + moved_loopback(
                    cv.take(i as int),
                    port,
                ))[k],
        decreases cv.len() - i,
    {
        let o = conf.get(i);
        let ghost before = out@;
        assert(cv.take(i + 1).drop_last() =~= cv.take(i as int));
        if o.names_loopback_host() && !defaults.contains(o) {
            out.push(Warning::ConfiguredLoopbackPortChanged(o.duplicate()));
            proof {
                assert forall|k: int| 0 <= k < out@.len() implies #[trigger] out@[k]@ == (head
                    + moved_loopback(cv.take(i + 1), port))[k] by {
                    if k < before.len() {
                        assert(out@[k] == before[k]);
                    }
                }
            }
        } else {
            proof {
                assert(moved_loopback(cv.take(i + 1), port) == moved_loopback(
                    cv.take(i as int),
                    port,
                ));
            }
        }
        i = i + 1;
    }
    assert(cv.take(i as int) =~= cv);
    out
}

// ── the bare-bind rule ──────────────────────────────────────────────────

/// The bare-bind predicate's three-valued answer; the board's MODE is
/// tested FIRST, so a cell where both the mode and the request would refuse
/// answers `ModeRefused`.
#[derive(Debug, Clone, Copy, PartialEq, Eq, Structural)]
pub enum BareBind {
    Allowed,
    ModeRefused,
    RequestRefused,
}

/// The rule: ENFORCING refuses every bare bind; otherwise a loopback peer
/// whose `Origin` header is absent, or parses to a member of the bare set.
pub open spec fn bare_bind_spec(
    cfg: AuthConfig,
    peer: Peer,
    origin_hdr: Option<Seq<u8>>,
    claimed: bool,
) -> BareBind {
    if mode_of(cfg.trusts_local(), claimed) == Mode::Enforcing {
        BareBind::ModeRefused
    } else if peer != Peer::Loopback {
        BareBind::RequestRefused
    } else {
        match origin_hdr {
            None => BareBind::Allowed,
            Some(h) => if origin::origin_spec(h) is Some && bare_set(cfg).contains(h) {
                BareBind::Allowed
            } else {
                BareBind::RequestRefused
            },
        }
    }
}

/// The ONE home of the bare-bind rule: loopback peer, origin header ok
/// (absent ⇒ ok; present ⇒ parses AND is in the BARE set; `null` parses to
/// nothing ⇒ refused), and the board's mode not ENFORCING.
pub fn bare_bind_allowed(
    cfg: &AuthConfig,
    peer: Peer,
    origin_hdr: Option<&str>,
    claimed: bool,
) -> (r: BareBind)
    ensures
        r == bare_bind_spec(
            *cfg,
            peer,
            match origin_hdr {
                Some(h) => Some(h.spec_bytes()),
                None => None,
            },
            claimed,
        ),
{
    if Mode::of(cfg, claimed) == Mode::Enforcing {
        return BareBind::ModeRefused;
    }
    if !peer.is_loopback() {
        return BareBind::RequestRefused;
    }
    let origin_ok = match origin_hdr {
        None => true,
        Some(h) => match Origin::parse(h) {
            None => false,
            Some(o) => {
                let bare = bare_origins(cfg);
                bare.contains(&o)
            },
        },
    };
    if origin_ok {
        BareBind::Allowed
    } else {
        BareBind::RequestRefused
    }
}

} // verus!
