//! The proxy's session bookkeeping.
//!
//! A session pins a client to one Tor exit relay.  Sessions are registered
//! under tokens, and exit addresses that a session has committed to are
//! registered under the address, so that no other session picks the same
//! exit while the address is fresh.  Both registries point at the same
//! session records; a record lives while a registry entry or a running
//! connection (a *holder*) refers to it.
//!
//! Times are milliseconds on a monotonic clock that the caller reads.

use vstd::prelude::*;
use crate::net::Ipv4SocketAddr;
use crate::table::{map_of, lemma_map_of_at, Table, TableKey};
use self::special::{hook_host, Hook};
use self::token::{version_4_uuid, Token, TokenKey};

pub mod builtin;
pub mod special;
pub mod token;
pub mod util;

verus! {

/// Whether the proxy serves connections yet.
#[derive(Clone, Copy, Debug, PartialEq, Eq, Structural)]
pub enum Status {
    Ready,
    Running,
}

/// What a session remembers: the exit it is pinned to, and when it was last
/// used to open a stream.
#[derive(Clone, Copy, Debug)]
pub struct Session {
    pub addr: Option<Ipv4SocketAddr>,
    pub last_used: u64,
}

/// A session and the number of running connections that hold it.
#[derive(Clone, Copy, Debug)]
pub struct SessionRecord {
    pub session: Session,
    pub holders: u64,
}

/// How long sessions and committed exit addresses live, in milliseconds.
#[derive(Clone, Copy, Debug)]
pub struct Preferences {
    pub session_lifetime: u64,
    pub addr_dirtyness: u64,
}

impl Default for Preferences {
    fn default() -> (res: Preferences)
        ensures
            res.session_lifetime == 10_000,
            res.addr_dirtyness == 20_000,
    {
        Preferences { session_lifetime: 10_000, addr_dirtyness: 20_000 }
    }
}

/// Time from `last_used` to `now`; zero when `last_used` is later.
pub open spec fn elapsed(last_used: u64, now: u64) -> nat {
    if now >= last_used {
        (now - last_used) as nat
    } else {
        0
    }
}

/// An entry last used at `last_used` has outlived `lifetime` at `now`.
pub open spec fn expired(last_used: u64, now: u64, lifetime: u64) -> bool {
    elapsed(last_used, now) >= lifetime
}

/// The entries of `map` whose session (looked up in `records`) was used
/// within `lifetime` of `now`.
pub open spec fn keep_fresh<Q>(
    map: Map<Q, u64>,
    records: Map<u64, SessionRecord>,
    now: u64,
    lifetime: u64,
) -> Map<Q, u64> {
    Map::new(
        |k: Q| map.contains_key(k) && !expired(records[map[k]].session.last_used, now, lifetime),
        |k: Q| map[k],
    )
}

/// The registries and session records, as maps.  `issued` counts the
/// session handles handed out so far; it also numbers new sessions.
#[verifier::ext_equal]
pub struct Model {
    pub sessions: Map<TokenKey, u64>,
    pub addrs: Map<Ipv4SocketAddr, u64>,
    pub records: Map<u64, SessionRecord>,
    pub issued: u64,
}

/// A fresh session, first used at `now`, held by one connection.
pub open spec fn new_record(now: u64) -> SessionRecord {
    SessionRecord { session: Session { addr: None, last_used: now }, holders: 1 }
}

impl Model {
    /// Some registry entry refers to session `id`.
    pub open spec fn referenced(self, id: u64) -> bool {
        ||| exists|t: TokenKey| #[trigger] self.sessions.contains_key(t) && self.sessions[t] == id
        ||| exists|a: Ipv4SocketAddr| #[trigger] self.addrs.contains_key(a) && self.addrs[a] == id
    }

    /// Session `id` is still in use: registered, or held by a connection.
    pub open spec fn live(self, id: u64) -> bool {
        self.records.contains_key(id) && (self.referenced(id) || self.records[id].holders > 0)
    }

    /// The model without the records that nothing uses any more.
    pub open spec fn pruned(self) -> Model {
        Model {
            records: Map::new(|id: u64| self.live(id), |id: u64| self.records[id]),
            ..self
        }
    }

    /// Registry entries point at records.
    pub open spec fn refs_ok(self) -> bool {
        &&& forall|t: TokenKey| #[trigger]
            self.sessions.contains_key(t) ==> self.records.contains_key(self.sessions[t])
        &&& forall|a: Ipv4SocketAddr| #[trigger]
            self.addrs.contains_key(a) ==> self.records.contains_key(self.addrs[a])
    }

    /// The invariant of the bookkeeping: registry entries point at records,
    /// every record is in use, ids and holder counts are below `issued`, and
    /// at most one anonymous token is registered.
    pub open spec fn wf(self) -> bool {
        &&& self.refs_ok()
        &&& forall|id: u64| #[trigger] self.records.contains_key(id) ==> self.live(id)
        &&& self.bounds_ok()
        &&& self.anon_ok()
    }

    /// The token that anonymous clients share, if one is registered.
    pub open spec fn anonymous_key(self) -> Option<TokenKey> {
        if exists|t: TokenKey| #[trigger] self.sessions.contains_key(t) && t is Anonymous {
            Some(choose|t: TokenKey| #[trigger] self.sessions.contains_key(t) && t is Anonymous)
        } else {
            None
        }
    }

    /// The token a request is served under: the one it names, else the
    /// anonymous token in use, else a new anonymous token from `fresh`.
    pub open spec fn fetch_key(self, maybe_token: Option<Seq<char>>, fresh: u128) -> TokenKey {
        match maybe_token {
            Some(s) => TokenKey::Session(s),
            None => match self.anonymous_key() {
                Some(t) => t,
                None => TokenKey::Anonymous(fresh),
            },
        }
    }

    /// The session a request is served by.  A registered token keeps its
    /// session; otherwise a new session is registered under it.  Either way
    /// the caller now holds the session.
    pub open spec fn fetch(self, maybe_token: Option<Seq<char>>, now: u64, fresh: u128) -> (
        Model,
        TokenKey,
        u64,
    ) {
        let key = self.fetch_key(maybe_token, fresh);
        let issued = (self.issued + 1) as u64;
        if self.sessions.contains_key(key) {
            let id = self.sessions[key];
            let r = self.records[id];
            (
                Model {
                    records: self.records.insert(
                        id,
                        SessionRecord { holders: (r.holders + 1) as u64, ..r },
                    ),
                    issued,
                    ..self
                },
                key,
                id,
            )
        } else {
            let id = self.issued;
            (
                Model {
                    sessions: self.sessions.insert(key, id),
                    records: self.records.insert(id, new_record(now)),
                    issued,
                    ..self
                },
                key,
                id,
            )
        }
    }

    /// A connection lets go of session `id`.
    pub open spec fn release(self, id: u64) -> Model {
        let r = self.records[id];
        Model {
            records: self.records.insert(id, SessionRecord { holders: (r.holders - 1) as u64, ..r }),
            ..self
        }.pruned()
    }

    /// Whether an exit address is free to be committed to a session.
    pub open spec fn address_free(self, addr: Ipv4SocketAddr) -> bool {
        !self.addrs.contains_key(addr)
    }

    /// A connection of session `id` opened a stream through `exit` at `now`.
    /// A session pinned to an exit is re-pinned to this one; an unpinned
    /// session is pinned to it, and the address committed to the session,
    /// only if no session has committed to it yet.  The flag tells whether
    /// the stream is kept; otherwise the caller retries.
    pub open spec fn settle(self, id: u64, exit: Option<Ipv4SocketAddr>, now: u64) -> (Model, bool) {
        match exit {
            None => (self, false),
            Some(e) => {
                let r = self.records[id];
                let pinned = SessionRecord {
                    session: Session { addr: Some(e), last_used: now },
                    ..r
                };
                match r.session.addr {
                    Some(_) => (Model { records: self.records.insert(id, pinned), ..self }, true),
                    None => if self.addrs.contains_key(e) {
                        (self, false)
                    } else {
                        (
                            Model {
                                addrs: self.addrs.insert(e, id),
                                records: self.records.insert(id, pinned),
                                ..self
                            },
                            true,
                        )
                    },
                }
            },
        }
    }

    /// The registries after the sweep at `now`: sessions unused for the
    /// session lifetime, and addresses whose session was unused for the
    /// address lifetime, are dropped; the records are left as they are.
    pub open spec fn swept(self, now: u64, prefs: Preferences) -> Model {
        Model {
            sessions: keep_fresh(self.sessions, self.records, now, prefs.session_lifetime),
            addrs: keep_fresh(self.addrs, self.records, now, prefs.addr_dirtyness),
            ..self
        }
    }

    /// The registries after the periodic cleanup at `now`: the sweep, then
    /// the records that nothing uses any more are dropped.
    pub open spec fn cleanup(self, now: u64, prefs: Preferences) -> Model {
        self.swept(now, prefs).pruned()
    }

    /// Releases the exit address of the session registered under `key`: the
    /// session is unpinned, and the address stays committed to it (in place
    /// of any other session) until the address lifetime passes.  The flag
    /// tells whether the token is registered; if not, nothing changes.
    pub open spec fn timeout(self, key: TokenKey) -> (Model, bool) {
        if !self.sessions.contains_key(key) {
            (self, false)
        } else {
            let id = self.sessions[key];
            let r = self.records[id];
            match r.session.addr {
                None => (self, true),
                Some(a) => (
                    Model {
                        addrs: self.addrs.insert(a, id),
                        records: self.records.insert(
                            id,
                            SessionRecord { session: Session { addr: None, ..r.session }, ..r },
                        ),
                        ..self
                    }.pruned(),
                    true,
                ),
            }
        }
    }

    /// The session registered under `key` is dropped from the registry.
    pub open spec fn unregister(self, key: TokenKey) -> Model {
        Model { sessions: self.sessions.remove(key), ..self }.pruned()
    }

    /// `r` describes, at `now`, a registered session.
    pub open spec fn reports(self, r: SessionReport, now: u64) -> bool {
        let t = r.token@;
        &&& self.sessions.contains_key(t)
        &&& r.addr == self.records[self.sessions[t]].session.addr
        &&& r.lifetime == elapsed(self.records[self.sessions[t]].session.last_used, now)
    }

    /// `reports` lists every registered session once, as it is at `now`.
    pub open spec fn lists_sessions(self, reports: Seq<SessionReport>, now: u64) -> bool {
        &&& forall|i: int| 0 <= i < reports.len() ==> #[trigger] self.reports(reports[i], now)
        &&& forall|t: TokenKey| #[trigger]
            self.sessions.contains_key(t) ==> exists|i: int|
                0 <= i < reports.len() && (#[trigger] reports[i]).token@ == t
        &&& forall|i: int, j: int|
            0 <= i < reports.len() && 0 <= j < reports.len() && i != j ==> (#[trigger] reports[i]).token@
                != (#[trigger] reports[j]).token@
    }

    /// Record ids are below `issued`, and so are holder counts.
    pub open spec fn bounds_ok(self) -> bool {
        forall|id: u64| #[trigger]
            self.records.contains_key(id) ==> id < self.issued && self.records[id].holders
                <= self.issued
    }

    /// At most one anonymous token is registered.
    pub open spec fn anon_ok(self) -> bool {
        forall|t1: TokenKey, t2: TokenKey|
            #![trigger self.sessions.contains_key(t1), self.sessions.contains_key(t2)]
            self.sessions.contains_key(t1) && self.sessions.contains_key(t2) && t1 is Anonymous
                && t2 is Anonymous ==> t1 == t2
    }
}

/// One session as the `api` hook lists it: its token, the exit it is pinned
/// to, and the time since it was last used, in milliseconds.
#[derive(Debug, Clone)]
pub struct SessionReport {
    pub token: Token,
    pub addr: Option<Ipv4SocketAddr>,
    pub lifetime: u64,
}

/// Where a request is sent.
#[derive(Clone, Copy, Debug, PartialEq, Eq, Structural)]
pub enum Route {
    /// To the hook at this position of the hook list.
    Hook(usize),
    /// Through a tunnel to the target (a `CONNECT` request).
    Tunnel,
    /// Forwarded as a plain HTTP request.
    Forward,
}

/// The text of an optional string slice.
pub open spec fn text_of_str(s: Option<&str>) -> Option<Seq<char>> {
    match s {
        Some(t) => Some(t@),
        None => None,
    }
}

/// Position `i` holds the first hook reached under `host`.
pub open spec fn first_hook(hooks: Seq<Seq<char>>, host: Seq<char>, i: int) -> bool {
    &&& 0 <= i < hooks.len()
    &&& hook_host(hooks[i]) == host
    &&& forall|j: int| 0 <= j < i ==> hook_host(#[trigger] hooks[j]) != host
}

/// Where a request for `host` goes, given the hooks' names.
pub open spec fn spec_route(hooks: Seq<Seq<char>>, host: Option<Seq<char>>, is_connect: bool) -> Route {
    let otherwise = if is_connect {
        Route::Tunnel
    } else {
        Route::Forward
    };
    match host {
        Some(h) => if exists|i: int| first_hook(hooks, h, i) {
            Route::Hook((choose|i: int| first_hook(hooks, h, i)) as usize)
        } else {
            otherwise
        },
        None => otherwise,
    }
}

/// Some hook with host `host` is at or before position `i`, and the first
/// such hook is.
pub proof fn lemma_first_hook_exists(hooks: Seq<Seq<char>>, host: Seq<char>, i: int)
    requires
        0 <= i < hooks.len(),
        hook_host(hooks[i]) == host,
    ensures
        exists|j: int| j <= i && first_hook(hooks, host, j),
    decreases i,
{
    if exists|k: int| 0 <= k < i && hook_host(#[trigger] hooks[k]) == host {
        let k = choose|k: int| 0 <= k < i && hook_host(#[trigger] hooks[k]) == host;
        lemma_first_hook_exists(hooks, host, k);
    } else {
        assert(first_hook(hooks, host, i));
    }
}

/// When some hook's host is the request's host, the request goes to a hook:
/// the first one with that host, which is at or before any other match.
pub proof fn law_route_first_match(hooks: Seq<Seq<char>>, host: Seq<char>, is_connect: bool, i: int)
    requires
        0 <= i < hooks.len() <= usize::MAX,
        hook_host(hooks[i]) == host,
    ensures
        spec_route(hooks, Some(host), is_connect) matches Route::Hook(j) && j <= i && first_hook(
            hooks,
            host,
            j as int,
        ),
{
    lemma_first_hook_exists(hooks, host, i);
    let j = choose|j: int| first_hook(hooks, host, j);
    let w = choose|w: int| w <= i && first_hook(hooks, host, w);
    if j < w {
        assert(hook_host(hooks[j]) != host);
    } else if w < j {
        assert(hook_host(hooks[w]) != host);
    }
    assert(j == w);
    assert((j as usize) as int == j);
}

/// The proxy state: registries, record store, preferences, hooks, status.
pub struct KittyKat {
    sessions: Table<Token, u64>,
    addrs: Table<Ipv4SocketAddr, u64>,
    records: Table<u64, SessionRecord>,
    issued: u64,
    prefs: Preferences,
    hooks: Vec<Hook>,
    status: Status,
}

/// The text of an optional string.
pub open spec fn text_of(s: Option<String>) -> Option<Seq<char>> {
    match s {
        Some(t) => Some(t@),
        None => None,
    }
}

/// The names of a list of hooks.
pub open spec fn hook_names(hooks: Seq<Hook>) -> Seq<Seq<char>> {
    hooks.map_values(|h: Hook| h.name@)
}

impl KittyKat {
    /// The bookkeeping as maps.
    pub closed spec fn state(&self) -> Model {
        Model {
            sessions: self.sessions@,
            addrs: self.addrs@,
            records: self.records@,
            issued: self.issued,
        }
    }

    closed spec fn tables_wf(&self) -> bool {
        &&& self.sessions.wf()
        &&& self.addrs.wf()
        &&& self.records.wf()
    }

    /// The invariant.
    pub closed spec fn wf(&self) -> bool {
        self.tables_wf() && self.state().wf()
    }

    /// The lifetimes in use.
    pub closed spec fn prefs(&self) -> Preferences {
        self.prefs
    }

    /// The names of the hooks, in the order they are tried.
    pub closed spec fn hooks(&self) -> Seq<Seq<char>> {
        hook_names(self.hooks@)
    }

    /// Whether connections are served yet.
    pub closed spec fn status(&self) -> Status {
        self.status
    }

    /// Whether another session handle can be handed out.
    pub closed spec fn can_issue(&self) -> bool {
        self.issued < u64::MAX
    }

    /// A proxy that keeps its invariant has a model that keeps the model's
    /// invariant, and it can hand out a handle exactly when the model's
    /// counter is below the maximum; so the laws over [`Model`] hold of the
    /// states that the methods go through.
    pub proof fn lemma_state(&self)
        ensures
            self.wf() ==> self.state().wf(),
            self.can_issue() == (self.state().issued < u64::MAX),
            self.hooks().len() <= usize::MAX,
    {
        assert(self.hooks().len() == self.hooks@.len());
        assert(self.hooks.len() == self.hooks@.len());
    }

    /// A proxy with no sessions, in the ready state.  Its hooks are the given
    /// ones followed by the built-in `api` hook.
    pub fn new(prefs: Preferences, hooks: Option<Vec<Hook>>) -> (res: KittyKat)
        ensures
            res.wf(),
            res.state().sessions.is_empty(),
            res.state().addrs.is_empty(),
            res.state().records.is_empty(),
            res.can_issue(),
            res.prefs() == prefs,
            res.status() == Status::Ready,
            res.hooks() == match hooks {
                Some(h) => hook_names(h@),
                None => Seq::<Seq<char>>::empty(),
            } + seq![builtin::API_HOOK_NAME@],
    {
        let mut hooks = match hooks {
            Some(h) => h,
            None => Vec::new(),
        };
        let ghost given = hooks@;
        hooks.push(builtin::builtin_api_hook());
        assert(hook_names(hooks@) =~= hook_names(given) + seq![builtin::API_HOOK_NAME@]);
        let res = KittyKat {
            sessions: Table::new(),
            addrs: Table::new(),
            records: Table::new(),
            issued: 0,
            prefs,
            hooks,
            status: Status::Ready,
        };
        assert(res.state().sessions =~= Map::empty());
        res
    }

    /// Moves to the running state.
    pub fn start(&mut self)
        ensures
            final(self).status() == Status::Running,
            final(self).state() == old(self).state(),
            final(self).wf() == old(self).wf(),
            final(self).prefs() == old(self).prefs(),
            final(self).hooks() == old(self).hooks(),
            final(self).can_issue() == old(self).can_issue(),
    {
        self.status = Status::Running;
    }

    /// Whether the proxy is still in the ready state, where it must not
    /// serve connections.
    pub fn is_ready(&self) -> (res: bool)
        ensures
            res == (self.status() == Status::Ready),
    {
        self.status == Status::Ready
    }

    /// Whether another session handle can be handed out.
    pub fn has_capacity(&self) -> (res: bool)
        ensures
            res == self.can_issue(),
    {
        self.issued < u64::MAX
    }

    /// The lifetimes in use.
    pub fn preferences(&self) -> (res: Preferences)
        ensures
            res == self.prefs(),
    {
        self.prefs
    }

    /// Whether some registry entry refers to session `id`.
    fn is_referenced(&self, id: u64) -> (res: bool)
        requires
            self.tables_wf(),
        ensures
            res == self.state().referenced(id),
    {
        let in_sessions = self.sessions.contains_value(id);
        let in_addrs = self.addrs.contains_value(id);
        proof {
            let m = self.state();
            if in_sessions {
                let k = choose|k: TokenKey| #[trigger] self.sessions@.contains_key(k) && self.sessions@[k] == id;
                assert(m.sessions.contains_key(k) && m.sessions[k] == id);
            } else {
                assert forall|k: TokenKey| #[trigger] m.sessions.contains_key(k) implies m.sessions[k] != id by {
                    assert(self.sessions@.contains_key(k));
                }
            }
            if in_addrs {
                let k = choose|k: Ipv4SocketAddr| #[trigger] self.addrs@.contains_key(k) && self.addrs@[k] == id;
                assert(m.addrs.contains_key(k) && m.addrs[k] == id);
            } else {
                assert forall|k: Ipv4SocketAddr| #[trigger] m.addrs.contains_key(k) implies m.addrs[k] != id by {
                    assert(self.addrs@.contains_key(k));
                }
            }
        }
        in_sessions || in_addrs
    }

    /// Drops the records that nothing uses any more.
    fn prune(&mut self)
        requires
            old(self).tables_wf(),
        ensures
            final(self).tables_wf(),
            final(self).state() == old(self).state().pruned(),
            final(self).prefs == old(self).prefs,
            final(self).hooks == old(self).hooks,
            final(self).status == old(self).status,
    {
        let ghost m = self.state();
        let ghost entries = self.records.entries();
        let mut kept: Table<u64, SessionRecord> = Table::new();
        let n = self.records.len();
        let mut i: usize = 0;
        while i < n
            invariant
                i <= n == entries.len(),
                self.tables_wf(),
                self.state() == m,
                self.records.entries() == entries,
                kept.wf(),
                forall|id: u64| #[trigger]
                    kept@.contains_key(id) <==> (m.live(id) && exists|j: int|
                        0 <= j < i && (#[trigger] entries[j]).0 == id),
                forall|id: u64| #[trigger] kept@.contains_key(id) ==> kept@[id] == m.records[id],
            decreases n - i,
        {
            let (id, rec) = *self.records.entry(i);
            proof {
                lemma_map_of_at(entries, i as int);
            }
            if rec.holders > 0 || self.is_referenced(id) {
                kept.insert(id, rec);
            }
            i = i + 1;
            proof {
                assert forall|x: u64| #[trigger]
                    kept@.contains_key(x) <==> (m.live(x) && exists|j: int|
                        0 <= j < i && (#[trigger] entries[j]).0 == x) by {
                    if m.live(x) && exists|j: int| 0 <= j < i && (#[trigger] entries[j]).0 == x {
                        let j = choose|j: int| 0 <= j < i && (#[trigger] entries[j]).0 == x;
                        if j < i - 1 {
                            assert(exists|j: int| 0 <= j < i - 1 && (#[trigger] entries[j]).0 == x);
                        }
                    }
                    if kept@.contains_key(x) && x != id {
                        let j = choose|j: int| 0 <= j < i - 1 && (#[trigger] entries[j]).0 == x;
                        assert(0 <= j < i && entries[j].0 == x);
                    }
                }
            }
        }
        proof {
            assert forall|id: u64| #[trigger] kept@.contains_key(id) == m.pruned().records.contains_key(id) by {
                if m.live(id) {
                    let j = choose|j: int| crate::table::holds_key(entries, j, id);
                    assert(0 <= j < n && entries[j].0 == id);
                }
            }
            assert(kept@ =~= m.pruned().records);
        }
        self.records = kept;
    }

    /// The anonymous token in use, if any.
    fn anonymous_token(&self) -> (res: Option<Token>)
        requires
            self.wf(),
        ensures
            match res {
                Some(t) => self.state().anonymous_key() == Some(t@),
                None => self.state().anonymous_key() is None,
            },
    {
        let ghost entries = self.sessions.entries();
        let n = self.sessions.len();
        let mut i: usize = 0;
        while i < n
            invariant
                i <= n == entries.len(),
                self.sessions.entries() == entries,
                self.wf(),
                forall|j: int| 0 <= j < i ==> !((#[trigger] entries[j]).0@ is Anonymous),
            decreases n - i,
        {
            let entry = self.sessions.entry(i);
            match &entry.0 {
                Token::Anonymous(u) => {
                    let t = Token::Anonymous(*u);
                    proof {
                        lemma_map_of_at(entries, i as int);
                        let k = t@;
                        assert(self.state().sessions.contains_key(k) && k is Anonymous);
                        let c = choose|c: TokenKey| #[trigger] self.state().sessions.contains_key(c) && c is Anonymous;
                        assert(self.state().sessions.contains_key(c));
                    }
                    return Some(t);
                },
                Token::Session(_) => {},
            }
            i = i + 1;
        }
        proof {
            assert forall|t: TokenKey| #[trigger] self.state().sessions.contains_key(t) implies !(t is Anonymous) by {
                let j = choose|j: int| crate::table::holds_key(entries, j, t);
                assert(entries[j].0@ == t);
            }
        }
        None
    }

    /// Finds or registers the session for a request that carries
    /// `maybe_token`, at time `now`; `fresh` identifies a new anonymous token
    /// if one is needed.  The caller holds the returned session until it
    /// calls [`KittyKat::release_session`].
    pub fn fetch_session_with(&mut self, maybe_token: Option<String>, now: u64, fresh: u128) -> (res: (Token, u64))
        requires
            old(self).wf(),
            old(self).can_issue(),
        ensures
            final(self).wf(),
            ({
                let (m, key, id) = old(self).state().fetch(text_of(maybe_token), now, fresh);
                final(self).state() == m && res.0@ == key && res.1 == id
            }),
            final(self).prefs() == old(self).prefs(),
            final(self).hooks() == old(self).hooks(),
            final(self).status() == old(self).status(),
    {
        let ghost m = self.state();
        let ghost mt = text_of(maybe_token);
        let token = match maybe_token {
            Some(s) => Token::Session(s),
            None => match self.anonymous_token() {
                Some(t) => t,
                None => Token::Anonymous(fresh),
            },
        };
        assert(token@ == m.fetch_key(mt, fresh));
        let id = match self.sessions.get(&token) {
            Some(id) => {
                let id = *id;
                let rec = match self.records.get(&id) {
                    Some(r) => *r,
                    None => {
                        assert(false);
                        return (token, id);
                    },
                };
                self.records.insert(
                    id,
                    SessionRecord { session: rec.session, holders: rec.holders + 1 },
                );
                id
            },
            None => {
                let id = self.issued;
                self.sessions.insert(token.duplicate(), id);
                self.records.insert(
                    id,
                    SessionRecord { session: Session { addr: None, last_used: now }, holders: 1 },
                );
                id
            },
        };
        self.issued = self.issued + 1;
        proof {
            let (m2, key, id2) = m.fetch(mt, now, fresh);
            assert(self.state().sessions =~= m2.sessions);
            assert(self.state().records =~= m2.records);
            assert(self.state() =~= m2);
            lemma_fetch_wf(m, mt, now, fresh);
        }
        (token, id)
    }

    /// [`KittyKat::fetch_session_with`], with a random version-4 UUID as
    /// identifier for a new anonymous token.
    pub fn fetch_session(&mut self, maybe_token: Option<String>, now: u64) -> (res: (Token, u64))
        requires
            old(self).wf(),
            old(self).can_issue(),
        ensures
            final(self).wf(),
            exists|fresh: u128| {
                let (m, key, id) = #[trigger] old(self).state().fetch(text_of(maybe_token), now, fresh);
                version_4_uuid(fresh) && final(self).state() == m && res.0@ == key && res.1 == id
            },
            final(self).prefs() == old(self).prefs(),
            final(self).hooks() == old(self).hooks(),
            final(self).status() == old(self).status(),
    {
        // A named token does not use the identifier: any version-4 value serves.
        let fresh: u128 = if maybe_token.is_none() {
            match Token::anonymous() {
                Token::Anonymous(u) => u,
                Token::Session(_) => 0x4000_8000_0000_0000_0000,
            }
        } else {
            0x4000_8000_0000_0000_0000
        };
        assert(version_4_uuid(0x4000_8000_0000_0000_0000u128)) by (bit_vector);
        self.fetch_session_with(maybe_token, now, fresh)
    }

    /// Whether no session has committed to `addr`.
    pub fn commit_address(&self, addr: Ipv4SocketAddr) -> (res: bool)
        requires
            self.wf(),
        ensures
            res == self.state().address_free(addr),
    {
        !self.addrs.contains(&addr)
    }

    /// Records that a connection holding session `id` opened a stream whose
    /// exit is `exit` (`None` when no IPv4 exit address is known), at `now`.
    /// Returns whether the stream is kept.
    pub fn settle_exit(&mut self, id: u64, exit: Option<Ipv4SocketAddr>, now: u64) -> (res: bool)
        requires
            old(self).wf(),
            old(self).state().records.contains_key(id),
        ensures
            final(self).wf(),
            (final(self).state(), res) == old(self).state().settle(id, exit, now),
            final(self).prefs() == old(self).prefs(),
            final(self).hooks() == old(self).hooks(),
            final(self).status() == old(self).status(),
            final(self).can_issue() == old(self).can_issue(),
    {
        let ghost m = self.state();
        proof {
            lemma_settle_wf(m, id, exit, now);
        }
        let e = match exit {
            Some(e) => e,
            None => {
                return false;
            },
        };
        let rec = match self.records.get(&id) {
            Some(r) => *r,
            None => {
                assert(false);
                return false;
            },
        };
        let pinned = SessionRecord {
            session: Session { addr: Some(e), last_used: now },
            holders: rec.holders,
        };
        match rec.session.addr {
            Some(_) => {
                self.records.insert(id, pinned);
                assert(self.state() =~= m.settle(id, exit, now).0);
                true
            },
            None => {
                if self.commit_address(e) {
                    self.addrs.insert(e, id);
                    self.records.insert(id, pinned);
                    assert(self.state() =~= m.settle(id, exit, now).0);
                    true
                } else {
                    false
                }
            },
        }
    }

    /// The periodic cleanup at `now`.
    pub fn cleanup(&mut self, now: u64)
        requires
            old(self).wf(),
        ensures
            final(self).wf(),
            final(self).state() == old(self).state().cleanup(now, old(self).prefs()),
            final(self).prefs() == old(self).prefs(),
            final(self).hooks() == old(self).hooks(),
            final(self).status() == old(self).status(),
            final(self).can_issue() == old(self).can_issue(),
    {
        let ghost m = self.state();
        proof {
            assert(self.state().refs_ok());
            assert(self.sessions@ == m.sessions && self.addrs@ == m.addrs);
        }
        let sessions = self.fresh_entries(&self.sessions, now, self.prefs.session_lifetime);
        let addrs = self.fresh_entries(&self.addrs, now, self.prefs.addr_dirtyness);
        self.sessions = sessions;
        self.addrs = addrs;
        assert(self.state() =~= m.swept(now, self.prefs));
        self.prune();
        proof {
            lemma_cleanup_wf(m, now, self.prefs);
        }
    }

    /// The last use of the session that registry entry value `id` names.
    fn last_used_of(&self, id: u64) -> (res: u64)
        requires
            self.tables_wf(),
            self.state().records.contains_key(id),
        ensures
            res == self.state().records[id].session.last_used,
    {
        match self.records.get(&id) {
            Some(r) => r.session.last_used,
            None => 0,
        }
    }

    /// The entries of `table` whose session was used within `lifetime` of
    /// `now`.
    fn fresh_entries<K: TableKey>(
        &self,
        table: &Table<K, u64>,
        now: u64,
        lifetime: u64,
    ) -> (res: Table<K, u64>)
        requires
            self.tables_wf(),
            table.wf(),
            forall|k: K::Key| #[trigger]
                table@.contains_key(k) ==> self.state().records.contains_key(table@[k]),
        ensures
            res.wf(),
            res@ == keep_fresh(table@, self.state().records, now, lifetime),
    {
        let ghost records = self.state().records;
        let ghost entries = table.entries();
        let ghost goal = keep_fresh(table@, records, now, lifetime);
        let mut kept: Table<K, u64> = Table::new();
        let n = table.len();
        let mut i: usize = 0;
        while i < n
            invariant
                i <= n == entries.len(),
                self.tables_wf(),
                table.wf(),
                table.entries() == entries,
                self.state().records == records,
                goal == keep_fresh(table@, records, now, lifetime),
                forall|k: K::Key| #[trigger]
                    table@.contains_key(k) ==> records.contains_key(table@[k]),
                kept.wf(),
                forall|k: K::Key| #[trigger]
                    kept@.contains_key(k) <==> (goal.contains_key(k) && exists|j: int|
                        0 <= j < i && (#[trigger] entries[j]).0.key() == k),
                forall|k: K::Key| #[trigger] kept@.contains_key(k) ==> kept@[k] == table@[k],
            decreases n - i,
        {
            let entry = table.entry(i);
            let id = entry.1;
            proof {
                lemma_map_of_at(entries, i as int);
                assert(table@.contains_key(entries[i as int].0.key()));
            }
            let last = self.last_used_of(id);
            let gone = if now >= last { now - last >= lifetime } else { 0 >= lifetime };
            if !gone {
                kept.insert(entry.0.copy_key(), id);
            }
            i = i + 1;
            proof {
                let ki = entries[i - 1].0.key();
                assert forall|k: K::Key| #[trigger]
                    kept@.contains_key(k) <==> (goal.contains_key(k) && exists|j: int|
                        0 <= j < i && (#[trigger] entries[j]).0.key() == k) by {
                    if exists|j: int| 0 <= j < i && (#[trigger] entries[j]).0.key() == k {
                        let j = choose|j: int| 0 <= j < i && (#[trigger] entries[j]).0.key() == k;
                        if j < i - 1 {
                            assert(exists|j: int| 0 <= j < i - 1 && (#[trigger] entries[j]).0.key() == k);
                        }
                    }
                    if kept@.contains_key(k) && k != ki {
                        let j = choose|j: int| 0 <= j < i - 1 && (#[trigger] entries[j]).0.key() == k;
                        assert(0 <= j < i && entries[j].0.key() == k);
                    }
                }
            }
        }
        proof {
            assert forall|k: K::Key| #[trigger] kept@.contains_key(k) == goal.contains_key(k) by {
                if table@.contains_key(k) {
                    let j = choose|j: int| crate::table::holds_key(entries, j, k);
                    assert(0 <= j < n && entries[j].0.key() == k);
                }
            }
            assert(kept@ =~= goal);
        }
        kept
    }

    /// Releases the exit address of the session registered under `token`
    /// (see [`Model::timeout`]).  Returns whether the token is registered.
    pub fn release_address(&mut self, token: &Token) -> (res: bool)
        requires
            old(self).wf(),
        ensures
            final(self).wf(),
            (final(self).state(), res) == old(self).state().timeout(token@),
            final(self).prefs() == old(self).prefs(),
            final(self).hooks() == old(self).hooks(),
            final(self).status() == old(self).status(),
            final(self).can_issue() == old(self).can_issue(),
    {
        let ghost m = self.state();
        proof {
            lemma_timeout_wf(m, token@);
        }
        let id = match self.sessions.get(token) {
            Some(id) => *id,
            None => {
                return false;
            },
        };
        let rec = match self.records.get(&id) {
            Some(r) => *r,
            None => {
                assert(false);
                return false;
            },
        };
        match rec.session.addr {
            None => true,
            Some(a) => {
                self.addrs.insert(a, id);
                self.records.insert(
                    id,
                    SessionRecord {
                        session: Session { addr: None, last_used: rec.session.last_used },
                        holders: rec.holders,
                    },
                );
                self.prune();
                true
            },
        }
    }

    /// Drops the session registered under `token` from the registry.
    pub fn unregister(&mut self, token: &Token)
        requires
            old(self).wf(),
        ensures
            final(self).wf(),
            final(self).state() == old(self).state().unregister(token@),
            final(self).prefs() == old(self).prefs(),
            final(self).hooks() == old(self).hooks(),
            final(self).status() == old(self).status(),
            final(self).can_issue() == old(self).can_issue(),
    {
        proof {
            lemma_unregister_wf(self.state(), token@);
        }
        self.sessions.remove(token);
        self.prune();
    }

    /// What is known of each registered session at `now`.
    pub fn session_reports(&self, now: u64) -> (res: Vec<SessionReport>)
        requires
            self.wf(),
        ensures
            self.state().lists_sessions(res@, now),
    {
        let ghost m = self.state();
        let ghost entries = self.sessions.entries();
        let mut res: Vec<SessionReport> = Vec::new();
        let n = self.sessions.len();
        let mut i: usize = 0;
        while i < n
            invariant
                i <= n == entries.len(),
                self.wf(),
                self.state() == m,
                self.sessions.entries() == entries,
                res@.len() == i,
                forall|j: int| 0 <= j < i ==> (#[trigger] res@[j]).token@ == entries[j].0@,
                forall|j: int| 0 <= j < i ==> #[trigger] m.reports(res@[j], now),
            decreases n - i,
        {
            let entry = self.sessions.entry(i);
            let id = entry.1;
            proof {
                lemma_map_of_at(entries, i as int);
                assert(m.sessions.contains_key(entries[i as int].0@));
            }
            let rec = match self.records.get(&id) {
                Some(r) => *r,
                None => {
                    assert(false);
                    return res;
                },
            };
            let last = rec.session.last_used;
            let lifetime = if now >= last { now - last } else { 0 };
            res.push(SessionReport { token: entry.0.duplicate(), addr: rec.session.addr, lifetime });
            i = i + 1;
        }
        proof {
            assert forall|t: TokenKey| #[trigger] m.sessions.contains_key(t) implies exists|i: int|
                0 <= i < res@.len() && (#[trigger] res@[i]).token@ == t by {
                let j = choose|j: int| crate::table::holds_key(entries, j, t);
                assert(res@[j].token@ == t);
            }
        }
        res
    }

    /// Where a request goes: to the first hook whose host is the request's
    /// host, else through a tunnel for `CONNECT`, else forwarded.
    pub fn route(&self, host: Option<&str>, is_connect: bool) -> (res: Route)
        ensures
            res == spec_route(self.hooks(), text_of_str(host), is_connect),
    {
        if let Some(h) = host {
            let mut i: usize = 0;
            while i < self.hooks.len()
                invariant
                    i <= self.hooks@.len(),
                    host == Some(h),
                    self.hooks().len() == self.hooks@.len(),
                    forall|j: int| 0 <= j < i ==> hook_host(#[trigger] self.hooks()[j]) != h@,
                decreases self.hooks@.len() - i,
            {
                assert(self.hooks()[i as int] == self.hooks@[i as int].name@);
                if self.hooks[i].match_host(h) {
                    assert(first_hook(self.hooks(), h@, i as int));
                    proof {
                        let k = choose|k: int| first_hook(self.hooks(), h@, k);
                        if k < i {
                            assert(hook_host(self.hooks()[k]) != h@);
                        } else if k > i {
                            assert(hook_host(self.hooks()[i as int]) != h@);
                        }
                        assert(k == i);
                        assert(text_of_str(host) == Some(h@));
                        assert(exists|i: int| first_hook(self.hooks(), h@, i));
                        assert(spec_route(self.hooks(), Some(h@), is_connect) == Route::Hook(k as usize));
                    }
                    return Route::Hook(i);
                }
                i = i + 1;
            }
            assert forall|k: int| !first_hook(self.hooks(), h@, k) by {
                if 0 <= k < self.hooks().len() {
                    assert(hook_host(self.hooks()[k]) != h@);
                }
            }
        }
        if is_connect {
            Route::Tunnel
        } else {
            Route::Forward
        }
    }

    /// Whether session `id` is still in use (registered or held).
    pub fn is_live(&self, id: u64) -> (res: bool)
        requires
            self.wf(),
        ensures
            res == self.state().records.contains_key(id),
    {
        self.records.contains(&id)
    }

    /// A connection lets go of session `id`.
    pub fn release_session(&mut self, id: u64)
        requires
            old(self).wf(),
            old(self).state().records.contains_key(id),
            old(self).state().records[id].holders > 0,
        ensures
            final(self).wf(),
            final(self).state() == old(self).state().release(id),
            final(self).prefs() == old(self).prefs(),
            final(self).hooks() == old(self).hooks(),
            final(self).status() == old(self).status(),
    {
        let ghost m = self.state();
        let rec = match self.records.get(&id) {
            Some(r) => *r,
            None => {
                assert(false);
                return;
            },
        };
        self.records.insert(id, SessionRecord { session: rec.session, holders: rec.holders - 1 });
        self.prune();
        proof {
            lemma_release_wf(m, id);
        }
    }
}

/// Whether a record is referenced depends on the registries alone.
pub proof fn lemma_referenced_same(m1: Model, m2: Model, id: u64)
    requires
        m1.sessions == m2.sessions,
        m1.addrs == m2.addrs,
    ensures
        m1.referenced(id) == m2.referenced(id),
{
    if exists|t: TokenKey| #[trigger] m1.sessions.contains_key(t) && m1.sessions[t] == id {
        let t = choose|t: TokenKey| #[trigger] m1.sessions.contains_key(t) && m1.sessions[t] == id;
        assert(m2.sessions.contains_key(t) && m2.sessions[t] == id);
    }
    if exists|a: Ipv4SocketAddr| #[trigger] m1.addrs.contains_key(a) && m1.addrs[a] == id {
        let a = choose|a: Ipv4SocketAddr| #[trigger] m1.addrs.contains_key(a) && m1.addrs[a] == id;
        assert(m2.addrs.contains_key(a) && m2.addrs[a] == id);
    }
}

/// Dropping the unused records of a model whose registries point at records
/// yields the invariant.
pub proof fn lemma_pruned_wf(m: Model)
    requires
        m.refs_ok(),
        m.bounds_ok(),
        m.anon_ok(),
    ensures
        m.pruned().wf(),
{
    let m2 = m.pruned();
    assert forall|t: TokenKey| #[trigger] m2.sessions.contains_key(t) implies m2.records.contains_key(m2.sessions[t]) by {
        assert(m.referenced(m.sessions[t]));
    }
    assert forall|a: Ipv4SocketAddr| #[trigger] m2.addrs.contains_key(a) implies m2.records.contains_key(m2.addrs[a]) by {
        assert(m.referenced(m.addrs[a]));
    }
    assert forall|x: u64| #[trigger] m2.records.contains_key(x) implies m2.live(x) by {
        lemma_referenced_same(m, m2, x);
    }
}

/// Settling a stream keeps the invariant.
pub proof fn lemma_settle_wf(m: Model, id: u64, exit: Option<Ipv4SocketAddr>, now: u64)
    requires
        m.wf(),
        m.records.contains_key(id),
    ensures
        m.settle(id, exit, now).0.wf(),
{
    let m2 = m.settle(id, exit, now).0;
    assert forall|x: u64| #[trigger] m2.records.contains_key(x) implies m2.live(x) by {
        assert(m.live(x));
        if m.referenced(x) {
            if exists|t: TokenKey| #[trigger] m.sessions.contains_key(t) && m.sessions[t] == x {
                let t = choose|t: TokenKey| #[trigger] m.sessions.contains_key(t) && m.sessions[t] == x;
                assert(m2.sessions.contains_key(t) && m2.sessions[t] == x);
            } else {
                let a = choose|a: Ipv4SocketAddr| #[trigger] m.addrs.contains_key(a) && m.addrs[a] == x;
                if exit is Some && m.records[id].session.addr is None && !m.addrs.contains_key(exit->0) {
                    assert(a != exit->0);
                }
                assert(m2.addrs.contains_key(a) && m2.addrs[a] == x);
            }
        }
    }
}

/// The cleanup keeps the invariant.
pub proof fn lemma_cleanup_wf(m: Model, now: u64, prefs: Preferences)
    requires
        m.wf(),
    ensures
        m.cleanup(now, prefs).wf(),
{
    let m1 = m.swept(now, prefs);
    assert forall|t1: TokenKey, t2: TokenKey|
        m1.sessions.contains_key(t1) && m1.sessions.contains_key(t2) && t1 is Anonymous
            && t2 is Anonymous implies t1 == t2 by {
        assert(m.sessions.contains_key(t1) && m.sessions.contains_key(t2));
    }
    lemma_pruned_wf(m1);
}

/// Releasing an exit address keeps the invariant.
pub proof fn lemma_timeout_wf(m: Model, key: TokenKey)
    requires
        m.wf(),
    ensures
        m.timeout(key).0.wf(),
{
    if m.sessions.contains_key(key) {
        let id = m.sessions[key];
        let r = m.records[id];
        if let Some(a) = r.session.addr {
            let m1 = Model {
                addrs: m.addrs.insert(a, id),
                records: m.records.insert(
                    id,
                    SessionRecord { session: Session { addr: None, ..r.session }, ..r },
                ),
                ..m
            };
            assert(m1.pruned() == m.timeout(key).0);
            lemma_pruned_wf(m1);
        }
    }
}

/// Unregistering a token keeps the invariant.
pub proof fn lemma_unregister_wf(m: Model, key: TokenKey)
    requires
        m.wf(),
    ensures
        m.unregister(key).wf(),
{
    let m1 = Model { sessions: m.sessions.remove(key), ..m };
    lemma_pruned_wf(m1);
}

/// A registered token keeps its session: fetching a session for it returns
/// the registered one, unchanged but for one more holder.
pub proof fn law_token_keeps_session(m: Model, s: Seq<char>, now: u64, fresh: u128)
    requires
        m.wf(),
        m.issued < u64::MAX,
        m.sessions.contains_key(TokenKey::Session(s)),
    ensures
        ({
            let (m1, key, id) = m.fetch(Some(s), now, fresh);
            &&& key == TokenKey::Session(s)
            &&& id == m.sessions[key]
            &&& m1.sessions == m.sessions
            &&& m1.addrs == m.addrs
            &&& m1.records[id].session == m.records[id].session
        }),
{
}

/// A client that authenticates with the same token is served through the
/// same exit: once a stream of its session is kept through exit `e`, the
/// next request with that token gets the same session, pinned to `e`.
pub proof fn law_same_token_same_exit(
    m: Model,
    s: Seq<char>,
    now1: u64,
    fresh1: u128,
    e: Ipv4SocketAddr,
    now2: u64,
    now3: u64,
    fresh3: u128,
)
    requires
        m.wf(),
        m.issued < u64::MAX - 1,
    ensures
        ({
            let (m1, k1, id1) = m.fetch(Some(s), now1, fresh1);
            let (m2, kept) = m1.settle(id1, Some(e), now2);
            let (m3, k3, id3) = m2.fetch(Some(s), now3, fresh3);
            kept ==> {
                &&& k3 == k1
                &&& id3 == id1
                &&& m3.records[id3].session.addr == Some(e)
            }
        }),
{
    let (m1, k1, id1) = m.fetch(Some(s), now1, fresh1);
    lemma_fetch_wf(m, Some(s), now1, fresh1);
    assert(m1.sessions.contains_key(k1) && m1.sessions[k1] == id1);
    let (m2, kept) = m1.settle(id1, Some(e), now2);
    assert(m2.sessions == m1.sessions);
}

/// Tokens are isolated from each other: a token that is not registered yet
/// gets a session that no registry entry refers to and that no exit is
/// pinned to.
pub proof fn law_new_token_new_session(m: Model, s: Seq<char>, now: u64, fresh: u128)
    requires
        m.wf(),
        m.issued < u64::MAX,
        !m.sessions.contains_key(TokenKey::Session(s)),
    ensures
        ({
            let (m1, key, id) = m.fetch(Some(s), now, fresh);
            &&& !m.records.contains_key(id)
            &&& !m.referenced(id)
            &&& m1.sessions[key] == id
            &&& m1.records[id] == new_record(now)
        }),
{
    let id = m.issued;
    if m.referenced(id) {
        if exists|t: TokenKey| #[trigger] m.sessions.contains_key(t) && m.sessions[t] == id {
            let t = choose|t: TokenKey| #[trigger] m.sessions.contains_key(t) && m.sessions[t] == id;
            assert(m.records.contains_key(m.sessions[t]));
        } else {
            let a = choose|a: Ipv4SocketAddr| #[trigger] m.addrs.contains_key(a) && m.addrs[a] == id;
            assert(m.records.contains_key(m.addrs[a]));
        }
    }
}

/// Clients without a token share one anonymous session: two requests
/// without a token are served by the same session.
pub proof fn law_anonymous_share_session(m: Model, now1: u64, fresh1: u128, now2: u64, fresh2: u128)
    requires
        m.wf(),
        m.issued < u64::MAX - 1,
    ensures
        ({
            let (m1, k1, id1) = m.fetch(None, now1, fresh1);
            let (m2, k2, id2) = m1.fetch(None, now2, fresh2);
            &&& k1 is Anonymous
            &&& k2 == k1
            &&& id2 == id1
        }),
{
    let (m1, k1, id1) = m.fetch(None, now1, fresh1);
    lemma_fetch_wf(m, None, now1, fresh1);
    if m.anonymous_key() is Some {
        let c = choose|t: TokenKey| #[trigger] m.sessions.contains_key(t) && t is Anonymous;
        assert(m.sessions.contains_key(c));
    }
    assert(m1.sessions.contains_key(k1) && k1 is Anonymous);
    let c1 = choose|t: TokenKey| #[trigger] m1.sessions.contains_key(t) && t is Anonymous;
    assert(m1.sessions.contains_key(c1) && m1.sessions.contains_key(k1));
}

/// An exit that some session has committed to is not given to an unpinned
/// session: its stream is refused and nothing changes.  A stream that is
/// kept for an unpinned session commits its exit to that session.
pub proof fn law_committed_exit_is_exclusive(m: Model, id: u64, e: Ipv4SocketAddr, now: u64)
    requires
        m.wf(),
        m.records.contains_key(id),
        m.records[id].session.addr is None,
    ensures
        m.addrs.contains_key(e) ==> m.settle(id, Some(e), now) == (m, false),
        !m.addrs.contains_key(e) ==> {
            let (m1, kept) = m.settle(id, Some(e), now);
            &&& kept
            &&& m1.addrs[e] == id
            &&& m1.records[id].session == (Session { addr: Some(e), last_used: now })
            &&& m1.sessions == m.sessions
            &&& m1.addrs == m.addrs.insert(e, id)
            &&& m1.issued == m.issued
            &&& m1.records == m.records.insert(
                id,
                SessionRecord {
                    session: Session { addr: Some(e), last_used: now },
                    holders: m.records[id].holders,
                },
            )
        },
{
}

/// A session that is already pinned keeps every stream it opens: the stream
/// is kept whatever its exit, the session is re-pinned to that exit and its
/// last use becomes `now`; the registries and the other sessions do not
/// change.  A stream without a known exit is never kept.
pub proof fn law_pinned_session_keeps_stream(m: Model, id: u64, e: Ipv4SocketAddr, now: u64)
    requires
        m.wf(),
        m.records.contains_key(id),
        m.records[id].session.addr is Some,
    ensures
        ({
            let (m1, kept) = m.settle(id, Some(e), now);
            &&& kept
            &&& m1.sessions == m.sessions
            &&& m1.addrs == m.addrs
            &&& m1.issued == m.issued
            &&& m1.records == m.records.insert(
                id,
                SessionRecord {
                    session: Session { addr: Some(e), last_used: now },
                    holders: m.records[id].holders,
                },
            )
        }),
        m.settle(id, None, now) == (m, false),
{
}

/// A token's session reuses its exit: once a stream of the session is kept
/// through exit `e`, the next request with the same token gets the same
/// session, and its stream through `e` is kept again, pinned to `e` and
/// last used at the later time.
pub proof fn law_same_token_reuses_exit(
    m: Model,
    s: Seq<char>,
    now1: u64,
    fresh1: u128,
    e: Ipv4SocketAddr,
    now2: u64,
    now3: u64,
    fresh3: u128,
    now4: u64,
)
    requires
        m.wf(),
        m.issued < u64::MAX - 1,
    ensures
        ({
            let (m1, k1, id1) = m.fetch(Some(s), now1, fresh1);
            let (m2, kept) = m1.settle(id1, Some(e), now2);
            let (m3, k3, id3) = m2.fetch(Some(s), now3, fresh3);
            let (m4, kept_again) = m3.settle(id3, Some(e), now4);
            kept ==> {
                &&& id3 == id1
                &&& kept_again
                &&& m4.records[id3].session == (Session { addr: Some(e), last_used: now4 })
            }
        }),
{
    let (m1, k1, id1) = m.fetch(Some(s), now1, fresh1);
    lemma_fetch_wf(m, Some(s), now1, fresh1);
    assert(m1.sessions.contains_key(k1) && m1.sessions[k1] == id1);
    let (m2, kept) = m1.settle(id1, Some(e), now2);
    lemma_settle_wf(m1, id1, Some(e), now2);
    assert(m2.sessions == m1.sessions);
    law_same_token_same_exit(m, s, now1, fresh1, e, now2, now3, fresh3);
    let (m3, k3, id3) = m2.fetch(Some(s), now3, fresh3);
    lemma_fetch_wf(m2, Some(s), now3, fresh3);
    if kept {
        assert(m3.sessions.contains_key(k3) && m3.sessions[k3] == id3);
        assert(m3.records.contains_key(id3));
        law_pinned_session_keeps_stream(m3, id3, e, now4);
    }
}

/// Releasing the exit of a registered session unpins the session and keeps
/// the address committed to it, so that no other session takes the address
/// before the address lifetime passes.
pub proof fn law_timeout_unpins(m: Model, key: TokenKey)
    requires
        m.wf(),
        m.sessions.contains_key(key),
    ensures
        ({
            let id = m.sessions[key];
            let (m1, found) = m.timeout(key);
            &&& found
            &&& m1.sessions == m.sessions
            &&& m1.records.contains_key(id)
            &&& m1.records[id].session.addr is None
            &&& m1.records[id].session.last_used == m.records[id].session.last_used
            &&& (m.records[id].session.addr matches Some(a) ==> m1.addrs.contains_key(a)
                && m1.addrs[a] == id)
        }),
{
    let id = m.sessions[key];
    let r = m.records[id];
    if let Some(a) = r.session.addr {
        let m1 = Model {
            addrs: m.addrs.insert(a, id),
            records: m.records.insert(
                id,
                SessionRecord { session: Session { addr: None, ..r.session }, ..r },
            ),
            ..m
        };
        assert(m1.sessions.contains_key(key) && m1.sessions[key] == id);
        assert(m1.live(id));
    }
}

/// The cleanup drops exactly the idle entries: a session stays registered
/// if and only if it was used within the session lifetime, and an address
/// stays committed if and only if its session was used within the address
/// lifetime; what stays keeps its session.
pub proof fn law_cleanup_drops_idle(m: Model, now: u64, prefs: Preferences)
    requires
        m.wf(),
    ensures
        ({
            let m1 = m.cleanup(now, prefs);
            &&& forall|t: TokenKey| #[trigger]
                m1.sessions.contains_key(t) <==> m.sessions.contains_key(t) && !expired(
                    m.records[m.sessions[t]].session.last_used,
                    now,
                    prefs.session_lifetime,
                )
            &&& forall|a: Ipv4SocketAddr| #[trigger]
                m1.addrs.contains_key(a) <==> m.addrs.contains_key(a) && !expired(
                    m.records[m.addrs[a]].session.last_used,
                    now,
                    prefs.addr_dirtyness,
                )
            &&& forall|t: TokenKey| #[trigger]
                m1.sessions.contains_key(t) ==> m1.sessions[t] == m.sessions[t]
                    && m1.records[m1.sessions[t]] == m.records[m.sessions[t]]
        }),
{
    lemma_cleanup_wf(m, now, prefs);
}

/// Cleaning up twice at the same time is cleaning up once.
pub proof fn law_cleanup_idempotent(m: Model, now: u64, prefs: Preferences)
    requires
        m.wf(),
    ensures
        m.cleanup(now, prefs).cleanup(now, prefs) == m.cleanup(now, prefs),
{
    let m1 = m.cleanup(now, prefs);
    lemma_cleanup_wf(m, now, prefs);
    let m2 = m1.cleanup(now, prefs);
    assert forall|t: TokenKey| #[trigger] m1.sessions.contains_key(t) implies m1.records[m1.sessions[t]]
        == m.records[m.sessions[t]] by {
        assert(m1.records.contains_key(m1.sessions[t]));
    }
    assert forall|a: Ipv4SocketAddr| #[trigger] m1.addrs.contains_key(a) implies m1.records[m1.addrs[a]]
        == m.records[m.addrs[a]] by {
        assert(m1.records.contains_key(m1.addrs[a]));
    }
    assert(m2.sessions =~= m1.sessions);
    assert(m2.addrs =~= m1.addrs);
    assert forall|id: u64| #[trigger] m2.records.contains_key(id) == m1.records.contains_key(id) by {
        lemma_referenced_same(m2, m1, id);
    }
    assert(m2.records =~= m1.records);
}

/// Fetching a session keeps the invariant.
pub proof fn lemma_fetch_wf(m: Model, maybe_token: Option<Seq<char>>, now: u64, fresh: u128)
    requires
        m.wf(),
        m.issued < u64::MAX,
    ensures
        m.fetch(maybe_token, now, fresh).0.wf(),
{
    let (m2, key, id) = m.fetch(maybe_token, now, fresh);
    assert forall|x: u64| #[trigger] m2.records.contains_key(x) implies m2.live(x) by {
        if x == id {
            assert(m2.records[x].holders > 0);
        } else {
            assert(m.live(x));
            if m.referenced(x) {
                if exists|t: TokenKey| #[trigger] m.sessions.contains_key(t) && m.sessions[t] == x {
                    let t = choose|t: TokenKey| #[trigger] m.sessions.contains_key(t) && m.sessions[t] == x;
                    assert(m2.sessions.contains_key(t) && m2.sessions[t] == x);
                } else {
                    let a = choose|a: Ipv4SocketAddr| #[trigger] m.addrs.contains_key(a) && m.addrs[a] == x;
                    assert(m2.addrs.contains_key(a) && m2.addrs[a] == x);
                }
            }
        }
    }
    if !m.sessions.contains_key(key) && key is Anonymous {
        assert(maybe_token is None);
        assert(m.anonymous_key() is None);
        assert forall|t: TokenKey| #[trigger] m.sessions.contains_key(t) implies !(t is Anonymous) by {}
    }
}

/// Releasing a held session keeps the invariant.
pub proof fn lemma_release_wf(m: Model, id: u64)
    requires
        m.wf(),
        m.records.contains_key(id),
        m.records[id].holders > 0,
    ensures
        m.release(id).wf(),
{
    let r = m.records[id];
    let m1 = Model {
        records: m.records.insert(id, SessionRecord { holders: (r.holders - 1) as u64, ..r }),
        ..m
    };
    let m2 = m1.pruned();
    assert forall|t: TokenKey| #[trigger] m2.sessions.contains_key(t) implies m2.records.contains_key(m2.sessions[t]) by {
        assert(m1.referenced(m1.sessions[t]));
    }
    assert forall|a: Ipv4SocketAddr| #[trigger] m2.addrs.contains_key(a) implies m2.records.contains_key(m2.addrs[a]) by {
        assert(m1.referenced(m1.addrs[a]));
    }
    assert forall|x: u64| #[trigger] m2.records.contains_key(x) implies {
        &&& m2.live(x)
        &&& x < m2.issued
        &&& m2.records[x].holders <= m2.issued
    } by {
        assert(m1.live(x));
        assert(m.records.contains_key(x));
        lemma_referenced_same(m1, m2, x);
    }
}

/// An address of a relay, as far as choosing an exit goes.
#[derive(Clone, Copy, Debug)]
pub enum RelayAddr {
    V4(Ipv4SocketAddr),
    V6,
}

/// The first IPv4 address in `addrs`.
pub open spec fn first_v4(addrs: Seq<RelayAddr>) -> Option<Ipv4SocketAddr>
    decreases addrs.len(),
{
    if addrs.len() == 0 {
        None
    } else {
        match addrs[0] {
            RelayAddr::V4(a) => Some(a),
            RelayAddr::V6 => first_v4(addrs.drop_first()),
        }
    }
}

/// The exit of an address list is its first IPv4 address: if position `i`
/// holds the IPv4 address `a` and every address before it is IPv6, the exit
/// is `a`; a list with no IPv4 address has no exit.
pub proof fn law_first_v4_is_first(addrs: Seq<RelayAddr>, i: int, a: Ipv4SocketAddr)
    ensures
        0 <= i < addrs.len() && addrs[i] == RelayAddr::V4(a) && (forall|j: int|
            0 <= j < i ==> #[trigger] addrs[j] is V6) ==> first_v4(addrs) == Some(a),
        (forall|j: int| 0 <= j < addrs.len() ==> #[trigger] addrs[j] is V6) ==> first_v4(addrs)
            is None,
    decreases addrs.len(),
{
    if addrs.len() > 0 {
        let rest = addrs.drop_first();
        if 0 < i < addrs.len() && addrs[i] == RelayAddr::V4(a) && (forall|j: int|
            0 <= j < i ==> #[trigger] addrs[j] is V6) {
            assert(addrs[0] is V6);
            assert(rest[i - 1] == addrs[i]);
            assert forall|j: int| 0 <= j < i - 1 implies #[trigger] rest[j] is V6 by {
                assert(rest[j] == addrs[j + 1]);
            }
        }
        law_first_v4_is_first(rest, i - 1, a);
        if forall|j: int| 0 <= j < addrs.len() ==> #[trigger] addrs[j] is V6 {
            assert(addrs[0] is V6);
            assert forall|j: int| 0 <= j < rest.len() implies #[trigger] rest[j] is V6 by {
                assert(rest[j] == addrs[j + 1]);
            }
        }
    }
}

/// The exit address of a stream: the first IPv4 address of the last hop of
/// its circuit.  `last_hop` holds the socket addresses of the last hop, or
/// is `None` when the circuit has no hops or the last hop is not reached
/// directly.
pub fn get_stream_address(last_hop: Option<&Vec<RelayAddr>>) -> (res: Option<Ipv4SocketAddr>)
    ensures
        res == match last_hop {
            None => None,
            Some(a) => first_v4(a@),
        },
{
    let addrs = match last_hop {
        Some(a) => a,
        None => {
            return None;
        },
    };
    let mut i: usize = 0;
    assert(addrs@.skip(0) =~= addrs@);
    while i < addrs.len()
        invariant
            i <= addrs@.len(),
            last_hop == Some(addrs),
            first_v4(addrs@) == first_v4(addrs@.skip(i as int)),
        decreases addrs@.len() - i,
    {
        assert(addrs@.skip(i as int).drop_first() =~= addrs@.skip(i + 1));
        assert(addrs@.skip(i as int)[0] == addrs@[i as int]);
        match addrs[i] {
            RelayAddr::V4(a) => {
                return Some(a);
            },
            RelayAddr::V6 => {},
        }
        i = i + 1;
    }
    None
}

/// The port of a target: the one given, else 443 for a tunnel and 80 for a
/// forwarded request.
pub fn target_port(port: Option<u16>, tunnel: bool) -> (res: u16)
    ensures
        res == match port {
            Some(p) => p,
            None => if tunnel {
                443u16
            } else {
                80u16
            },
        },
{
    match port {
        Some(p) => p,
        None => if tunnel {
            443
        } else {
            80
        },
    }
}

/// The path a forwarded request asks the target for: the request's path and
/// query, or `/`.
pub fn forward_path(path_and_query: Option<&str>) -> (res: &str)
    ensures
        res@ == match path_and_query {
            Some(p) => p@,
            None => "/"@,
        },
{
    match path_and_query {
        Some(p) => p,
        None => "/",
    }
}

/// The body of the answer when no Tor connection to the target could be made.
pub fn bad_gateway_body(err: &str) -> (res: String)
    ensures
        res@ == "Tor connection failed: "@ + err@ + "\n"@,
{
    crate::text::join3("Tor connection failed: ", err, "\n")
}

/// The number of tasks that serve connections at once: two per processor,
/// and one more.
pub fn task_pool_bound(cpus: usize) -> (res: usize)
    requires
        cpus <= (usize::MAX - 1) / 2,
    ensures
        res == 2 * cpus + 1,
{
    cpus * 2 + 1
}

/// Where a series of attempts to open a stream stands.
#[derive(Clone, Copy, Debug, PartialEq, Eq, Structural)]
pub enum ConnectStep {
    /// Make another attempt; this many attempts are left, this one included.
    Attempt(u32),
    /// The last attempt opened a stream that is kept.
    Kept,
    /// No attempt is left: give up.
    Exhausted,
}

/// Before the first attempt, when at most `max_retries` attempts are made.
pub fn first_attempt(max_retries: u32) -> (res: ConnectStep)
    ensures
        res == if max_retries > 0 {
            ConnectStep::Attempt(max_retries)
        } else {
            ConnectStep::Exhausted
        },
{
    if max_retries > 0 {
        ConnectStep::Attempt(max_retries)
    } else {
        ConnectStep::Exhausted
    }
}

/// After an attempt made with `remaining` attempts left (it included), whose
/// stream was kept or not.
pub fn after_attempt(remaining: u32, kept: bool) -> (res: ConnectStep)
    requires
        remaining > 0,
    ensures
        res == if kept {
            ConnectStep::Kept
        } else if remaining > 1 {
            ConnectStep::Attempt((remaining - 1) as u32)
        } else {
            ConnectStep::Exhausted
        },
{
    if kept {
        ConnectStep::Kept
    } else if remaining > 1 {
        ConnectStep::Attempt(remaining - 1)
    } else {
        ConnectStep::Exhausted
    }
}

/// Header entries (lower-case name, value) as values.
pub open spec fn headers_view(hs: Seq<(String, Vec<u8>)>) -> Seq<(Seq<char>, Seq<u8>)> {
    hs.map_values(|h: (String, Vec<u8>)| (h.0@, h.1@))
}

/// The headers of a forwarded request: those of the client's request, with
/// the value of `host` replaced by the target's host.  The first `host`
/// entry takes the new value in its place and later ones are dropped; with
/// no `host` entry, one is added at the end.  `seen` tells whether a `host`
/// entry came before `hs`.
pub open spec fn forwarded_headers(hs: Seq<(Seq<char>, Seq<u8>)>, host: Seq<u8>, seen: bool) -> Seq<
    (Seq<char>, Seq<u8>),
>
    decreases hs.len(),
{
    if hs.len() == 0 {
        if seen {
            Seq::empty()
        } else {
            seq![("host"@, host)]
        }
    } else if hs[0].0 == "host"@ {
        if seen {
            forwarded_headers(hs.drop_first(), host, true)
        } else {
            seq![("host"@, host)] + forwarded_headers(hs.drop_first(), host, true)
        }
    } else {
        seq![hs[0]] + forwarded_headers(hs.drop_first(), host, seen)
    }
}

/// The headers of a forwarded request (see [`forwarded_headers`]).
pub fn forward_headers(headers: &Vec<(String, Vec<u8>)>, host: &Vec<u8>) -> (res: Vec<(String, Vec<u8>)>)
    ensures
        headers_view(res@) == forwarded_headers(headers_view(headers@), host@, false),
{
    let ghost all = headers_view(headers@);
    let mut res: Vec<(String, Vec<u8>)> = Vec::new();
    let mut seen = false;
    let mut i: usize = 0;
    assert(all.skip(0) =~= all);
    while i < headers.len()
        invariant
            i <= headers@.len(),
            all == headers_view(headers@),
            headers_view(res@) + forwarded_headers(all.skip(i as int), host@, seen)
                == forwarded_headers(all, host@, false),
        decreases headers@.len() - i,
    {
        let ghost rest = all.skip(i as int);
        let ghost before = headers_view(res@);
        assert(rest.drop_first() =~= all.skip(i + 1));
        assert(rest[0] == (headers@[i as int].0@, headers@[i as int].1@));
        let is_host = crate::text::same_text(headers[i].0.as_str(), "host");
        if is_host {
            if !seen {
                let value = host.clone();
                res.push(("host".to_owned(), value));
                proof {
                    assert(headers_view(res@) =~= before + seq![("host"@, host@)]);
                    assert(before + seq![("host"@, host@)] + forwarded_headers(all.skip(i + 1), host@, true)
                        =~= before + (seq![("host"@, host@)] + forwarded_headers(all.skip(i + 1), host@, true)));
                }
                seen = true;
            }
        } else {
            let name = headers[i].0.clone();
            let value = headers[i].1.clone();
            res.push((name, value));
            proof {
                assert(headers_view(res@) =~= before + seq![rest[0]]);
                assert(before + seq![rest[0]] + forwarded_headers(all.skip(i + 1), host@, seen)
                    =~= before + (seq![rest[0]] + forwarded_headers(all.skip(i + 1), host@, seen)));
            }
        }
        i = i + 1;
    }
    if !seen {
        let ghost before = headers_view(res@);
        let value = host.clone();
        res.push(("host".to_owned(), value));
        assert(headers_view(res@) =~= before + seq![("host"@, host@)]);
    }
    assert(all.skip(headers@.len() as int).len() == 0);
    assert(headers_view(res@) =~= forwarded_headers(all, host@, false));
    res
}

} // verus!
