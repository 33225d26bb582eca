//! The sessions the picker knows of: what Zellij reported, reconciled with
//! the listing the CLI printed, and the session waiting for its deletion to
//! be confirmed.

use vstd::prelude::*;
use crate::new_session_info::{opt_view, LayoutEntry};
use crate::picker::{is_live, live_names};
use crate::session::listing::{dead_view, live_view, ListingView, SessionListing};
use crate::session::types::Elapsed;
use crate::session_name::{answered, first_free_increment, increment_candidate, str_eq, validation, with_suffix};
use crate::strings::{chars_of, string_from_chars, sub_chars};

verus! {

broadcast use vstd::string::group_string_axioms;

/// A live session as the picker reads it: its name, whether the plugin runs
/// in it, and the layouts it offers to new sessions.
#[derive(Debug)]
pub struct LiveSession {
    pub name: String,
    pub is_current: bool,
    pub layouts: Vec<LayoutEntry>,
}

/// A live session as values.
pub type SessionView = (Seq<char>, bool, Seq<LayoutEntry>);

/// A resurrectable session as values: its name and age.
pub type DeadView = (Seq<char>, (u64, u32));

impl View for LiveSession {
    type V = SessionView;

    open spec fn view(&self) -> SessionView {
        (self.name@, self.is_current, self.layouts@)
    }
}

/// A copy of some layouts.
pub(crate) fn clone_layouts(v: &Vec<LayoutEntry>) -> (r: Vec<LayoutEntry>)
    ensures
        r@ == v@,
{
    let mut r: Vec<LayoutEntry> = Vec::new();
    let mut i: usize = 0;
    while i < v.len()
        invariant
            i <= v.len(),
            r@ == v@.take(i as int),
        decreases v.len() - i,
    {
        r.push(v[i].clone());
        i = i + 1;
    }
    assert(v@.take(v.len() as int) == v@);
    r
}

impl Clone for LiveSession {
    fn clone(&self) -> (r: Self)
        ensures
            r@ == self@,
    {
        LiveSession {
            name: self.name.clone(),
            is_current: self.is_current,
            layouts: clone_layouts(&self.layouts),
        }
    }
}

/// Some live sessions as values.
pub open spec fn sessions_view(v: Seq<LiveSession>) -> Seq<SessionView> {
    v.map_values(|s: LiveSession| s@)
}

/// Some live sessions by name, with whether each is the current one.
pub open spec fn name_flags(v: Seq<SessionView>) -> Seq<(Seq<char>, bool)> {
    v.map_values(|s: SessionView| (s.0, s.1))
}

/// The names of some live sessions.
pub open spec fn session_names(v: Seq<SessionView>) -> Seq<Seq<char>> {
    v.map_values(|s: SessionView| s.0)
}

/// The names of some resurrectable sessions.
pub open spec fn dead_names(v: Seq<DeadView>) -> Seq<Seq<char>> {
    v.map_values(|d: DeadView| d.0)
}

/// Whether a session named `name` exists, live or resurrectable.
pub open spec fn is_taken(live: Seq<SessionView>, dead: Seq<DeadView>, name: Seq<char>) -> bool {
    session_names(live).contains(name) || dead_names(dead).contains(name)
}

/// Whether session `p` outlives a metadata scan that omits it: the current
/// session always, a peer when the CLI listing names it.
pub open spec fn confirmed(p: SessionView, listing: Option<ListingView>) -> bool {
    p.1 || (listing matches Some(l) && live_names(l.0).contains(p.0))
}

/// The fresh sessions, then each earlier session the scan omitted that is
/// confirmed, every name once.
pub open spec fn kept(fresh: Seq<SessionView>, prev: Seq<SessionView>, listing: Option<ListingView>) -> Seq<
    SessionView,
>
    decreases prev.len(),
{
    if prev.len() == 0 {
        fresh
    } else {
        let r = kept(fresh, prev.drop_last(), listing);
        let p = prev.last();
        if confirmed(p, listing) && !session_names(r).contains(p.0) {
            r.push(p)
        } else {
            r
        }
    }
}

/// Where the first session named `name` is, from `from` on.
pub open spec fn first_named(v: Seq<SessionView>, name: Seq<char>, from: nat) -> Option<nat>
    decreases v.len() - from,
{
    if from >= v.len() {
        None
    } else if v[from as int].0 == name {
        Some(from)
    } else {
        first_named(v, name, from + 1)
    }
}

/// The listed live sessions, each with the layouts of the first known
/// session of its name.
pub open spec fn reconciled(prev: Seq<SessionView>, live: Seq<(Seq<char>, bool)>) -> Seq<SessionView> {
    live.map_values(
        |x: (Seq<char>, bool)|
            (
                x.0,
                x.1,
                match first_named(prev, x.0, 0) {
                    Some(i) => prev[i as int].2,
                    None => Seq::empty(),
                },
            ),
    )
}

/// The live and resurrectable sessions once the CLI listing, if there is
/// one, decides membership.
pub open spec fn with_listing(live: Seq<SessionView>, dead: Seq<DeadView>, listing: Option<ListingView>) -> (
    Seq<SessionView>,
    Seq<DeadView>,
) {
    match listing {
        Some(l) => (reconciled(live, l.0), l.1),
        None => (live, dead),
    }
}

/// The sessions after a passive notification: each current session in
/// `fresh` replaces the first known session of its name, or joins the end.
pub open spec fn notified(v: Seq<SessionView>, fresh: Seq<SessionView>) -> Seq<SessionView>
    decreases fresh.len(),
{
    if fresh.len() == 0 {
        v
    } else {
        let r = notified(v, fresh.drop_last());
        let f = fresh.last();
        if !f.1 {
            r
        } else {
            match first_named(r, f.0, 0) {
                Some(i) => r.update(i as int, f),
                None => r.push(f),
            }
        }
    }
}

/// The first free name of the series from the `k`-th candidate on, up to
/// the thousandth.
pub open spec fn first_free_from(
    live: Seq<SessionView>,
    dead: Seq<DeadView>,
    base: Seq<char>,
    separator: Seq<char>,
    k: nat,
) -> Option<Seq<char>>
    decreases 1001 - k,
{
    if k > 1000 {
        None
    } else if !is_taken(live, dead, increment_candidate(base, separator, k)) {
        Some(increment_candidate(base, separator, k))
    } else {
        first_free_from(live, dead, base, separator, k + 1)
    }
}

/// The first free name of the series `base`, `base<sep>2` … `base<sep>1000`.
pub open spec fn free_in_series(live: Seq<SessionView>, dead: Seq<DeadView>, base: Seq<char>, separator: Seq<char>) -> Option<
    Seq<char>,
> {
    if !is_taken(live, dead, base) {
        Some(base)
    } else {
        first_free_from(live, dead, base, separator, 2)
    }
}

/// Whether `t` is a UUID as the `uuid` crate writes it: 32 lower-case
/// hexadecimal digits in groups of 8, 4, 4, 4 and 12, joined by hyphens.
pub open spec fn uuid_text(t: Seq<char>) -> bool {
    &&& t.len() == 36
    &&& forall|i: int|
        0 <= i < 36 ==> if i == 8 || i == 13 || i == 18 || i == 23 {
            #[trigger] t[i] == '-'
        } else {
            ('0' <= t[i] <= '9') || ('a' <= t[i] <= 'f')
        }
}

/// The name made from a random fragment when the series is exhausted: the
/// base, the separator and the fragment if that is a valid name, else the
/// fragment alone.
pub open spec fn suffixed_or_bare(base: Seq<char>, separator: Seq<char>, fragment: Seq<char>) -> Seq<char> {
    if validation(base + separator + fragment) is Ok {
        base + separator + fragment
    } else {
        fragment
    }
}

/// Whether `name` is what naming a new session after `base` gives: the
/// first free name of the series, else, the series being exhausted, the base
/// with a random fragment of eight hexadecimal digits, or the fragment alone.
pub open spec fn incremented_name(
    live: Seq<SessionView>,
    dead: Seq<DeadView>,
    base: Seq<char>,
    separator: Seq<char>,
    name: Seq<char>,
) -> bool {
    match free_in_series(live, dead, base, separator) {
        Some(n) => name == n,
        None => exists|u: Seq<char>| uuid_text(u) && name == suffixed_or_bare(base, separator, #[trigger] u.take(8)),
    }
}

/// `uuid::Uuid::new_v4`, written out with `Display`: a random UUID as
/// text. The contract states its format only.
#[verifier::external_body]
pub(crate) fn new_uuid() -> (r: String)
    ensures
        uuid_text(r@),
{
    uuid::Uuid::new_v4().to_string()
}

/// A copy of some live sessions.
pub fn clone_sessions(v: &[LiveSession]) -> (r: Vec<LiveSession>)
    ensures
        sessions_view(r@) == sessions_view(v@),
{
    let mut r: Vec<LiveSession> = Vec::new();
    let mut i: usize = 0;
    while i < v.len()
        invariant
            i <= v.len(),
            sessions_view(r@) == sessions_view(v@).take(i as int),
        decreases v.len() - i,
    {
        let copy = v[i].clone();
        assert(sessions_view(r@).len() == r@.len());
        assert(sessions_view(v@).take(i as int).len() == i);
        r.push(copy);
        assert(sessions_view(r@)[i as int] == sessions_view(v@)[i as int]);
        assert(sessions_view(r@) =~= sessions_view(v@).take(i + 1));
        i = i + 1;
    }
    assert(sessions_view(v@).take(v.len() as int) =~= sessions_view(v@));
    r
}

/// Where the first current session is.
pub open spec fn first_current(v: Seq<SessionView>, from: nat) -> Option<nat>
    decreases v.len() - from,
{
    if from >= v.len() {
        None
    } else if v[from as int].1 {
        Some(from)
    } else {
        first_current(v, from + 1)
    }
}

/// Where the first current session of `v` is.
pub fn find_current(v: &[LiveSession]) -> (r: Option<usize>)
    ensures
        match r {
            Some(i) => i < v.len() && first_current(sessions_view(v@), 0) == Some(i as nat),
            None => first_current(sessions_view(v@), 0) is None,
        },
{
    let ghost s = sessions_view(v@);
    let mut i: usize = 0;
    while i < v.len()
        invariant
            i <= v.len(),
            s == sessions_view(v@),
            first_current(s, 0) == first_current(s, i as nat),
        decreases v.len() - i,
    {
        if v[i].is_current {
            return Some(i);
        }
        i = i + 1;
    }
    None
}

/// Whether one of `v` is named `name`.
fn has_session(v: &[LiveSession], name: &str) -> (r: bool)
    ensures
        r == session_names(sessions_view(v@)).contains(name@),
{
    match find_session(v, name) {
        Some(_) => true,
        None => false,
    }
}

/// Where the first of `v` named `name` is.
fn find_session(v: &[LiveSession], name: &str) -> (r: Option<usize>)
    ensures
        match r {
            Some(i) => i < v.len() && first_named(sessions_view(v@), name@, 0) == Some(i as nat),
            None => first_named(sessions_view(v@), name@, 0) is None,
        },
        r is Some <==> session_names(sessions_view(v@)).contains(name@),
{
    let ghost s = sessions_view(v@);
    let mut i: usize = 0;
    while i < v.len()
        invariant
            i <= v.len(),
            s == sessions_view(v@),
            first_named(s, name@, 0) == first_named(s, name@, i as nat),
            forall|j: int| 0 <= j < i ==> s[j].0 != name@,
        decreases v.len() - i,
    {
        if str_eq(v[i].name.as_str(), name) {
            assert(session_names(s)[i as int] == name@);
            return Some(i);
        }
        i = i + 1;
    }
    assert(!session_names(s).contains(name@)) by {
        if session_names(s).contains(name@) {
            let j = choose|j: int| 0 <= j < session_names(s).len() && session_names(s)[j] == name@;
            assert(s[j].0 == name@);
        }
    }
    None
}

/// Whether one of `v` is named `name`.
fn has_dead(v: &[(String, Elapsed)], name: &str) -> (r: bool)
    ensures
        r == dead_names(dead_view(v@)).contains(name@),
{
    let ghost s = dead_view(v@);
    let mut i: usize = 0;
    while i < v.len()
        invariant
            i <= v.len(),
            s == dead_view(v@),
            forall|j: int| 0 <= j < i ==> s[j].0 != name@,
        decreases v.len() - i,
    {
        if str_eq(v[i].0.as_str(), name) {
            assert(dead_names(s)[i as int] == name@);
            return true;
        }
        i = i + 1;
    }
    assert(!dead_names(s).contains(name@)) by {
        if dead_names(s).contains(name@) {
            let j = choose|j: int| 0 <= j < dead_names(s).len() && dead_names(s)[j] == name@;
            assert(s[j].0 == name@);
        }
    }
    false
}

/// A copy of some resurrectable sessions.
fn clone_dead(v: &[(String, Elapsed)]) -> (r: Vec<(String, Elapsed)>)
    ensures
        dead_view(r@) == dead_view(v@),
{
    let mut r: Vec<(String, Elapsed)> = Vec::new();
    let mut i: usize = 0;
    while i < v.len()
        invariant
            i <= v.len(),
            dead_view(r@) == dead_view(v@).take(i as int),
        decreases v.len() - i,
    {
        let name = v[i].0.clone();
        let age = v[i].1;
        assert(name@ == v@[i as int].0@ && age@ == v@[i as int].1@);
        assert(dead_view(r@).len() == r@.len());
        assert(dead_view(v@).take(i as int).len() == i);
        assert(r@.len() == i);
        let ghost before = r@;
        r.push((name, age));
        assert(r@ == before.push((name, age)));
        assert(r@[i as int] == (name, age));
        assert(r@.len() == i + 1);
        assert(dead_view(r@)[i as int] == dead_view(v@)[i as int]);
        assert(dead_view(r@) =~= dead_view(v@).take(i + 1));
        i = i + 1;
    }
    assert(dead_view(v@).take(v.len() as int) =~= dead_view(v@));
    r
}

/// Manages session operations and state
pub struct SessionManager {
    /// Currently known sessions from Zellij
    sessions: Vec<LiveSession>,
    /// Session name pending deletion confirmation
    pending_deletion: Option<String>,
    /// Resurrectable sessions
    resurrectable_sessions: Vec<(String, Elapsed)>,
    listing: Option<SessionListing>,
}

impl SessionManager {
    /// The live sessions.
    pub closed spec fn known(self) -> Seq<SessionView> {
        sessions_view(self.sessions@)
    }

    /// The resurrectable sessions.
    pub closed spec fn dead(self) -> Seq<DeadView> {
        dead_view(self.resurrectable_sessions@)
    }

    /// The session waiting for its deletion to be confirmed.
    pub closed spec fn pending(self) -> Option<Seq<char>> {
        opt_view(self.pending_deletion)
    }

    /// The last listing the CLI printed, if any.
    pub closed spec fn listed(self) -> Option<ListingView> {
        match self.listing {
            Some(l) => Some((live_view(l.live@), dead_view(l.resurrectable@))),
            None => None,
        }
    }

    /// Let the listing, if there is one, decide which sessions exist.
    fn reconcile_listing(&mut self)
        ensures
            (final(self).known(), final(self).dead()) == with_listing(
                old(self).known(),
                old(self).dead(),
                old(self).listed(),
            ),
            final(self).listed() == old(self).listed(),
            final(self).pending() == old(self).pending(),
    {
        let update = match &self.listing {
            None => None,
            Some(listing) => {
                let ghost prev = sessions_view(self.sessions@);
                let ghost live = live_view(listing.live@);
                let mut next: Vec<LiveSession> = Vec::new();
                let mut i: usize = 0;
                while i < listing.live.len()
                    invariant
                        i <= listing.live.len(),
                        prev == sessions_view(self.sessions@),
                        live == live_view(listing.live@),
                        sessions_view(next@) == reconciled(prev, live).take(i as int),
                    decreases listing.live.len() - i,
                {
                    let (name, is_current) = &listing.live[i];
                    let layouts = match find_session(&self.sessions, name.as_str()) {
                        Some(k) => clone_layouts(&self.sessions[k].layouts),
                        None => Vec::new(),
                    };
                    let entry = LiveSession { name: name.clone(), is_current: *is_current, layouts };
                    assert(live[i as int] == (name@, *is_current));
                    assert(entry@ == reconciled(prev, live)[i as int]);
                    assert(sessions_view(next@).len() == next@.len());
                    assert(reconciled(prev, live).take(i as int).len() == i);
                    next.push(entry);
                    assert(sessions_view(next@)[i as int] == entry@);
                    assert(sessions_view(next@) =~= reconciled(prev, live).take(i + 1));
                    i = i + 1;
                }
                assert(reconciled(prev, live).take(listing.live.len() as int) =~= reconciled(prev, live));
                Some((next, clone_dead(&listing.resurrectable)))
            },
        };
        if let Some((next, dead)) = update {
            self.sessions = next;
            self.resurrectable_sessions = dead;
        }
    }

    /// Update the session list with new session information
    pub fn update_sessions(&mut self, sessions: Vec<LiveSession>)
        ensures
            (final(self).known(), final(self).dead()) == with_listing(
                kept(sessions_view(sessions@), old(self).known(), old(self).listed()),
                old(self).dead(),
                old(self).listed(),
            ),
            final(self).listed() == old(self).listed(),
            final(self).pending() == old(self).pending(),
    {
        // A metadata scan can omit even our own session. Keep its fresh event
        // data (layouts in particular), and details for socket-confirmed peers.
        let ghost fresh = sessions_view(sessions@);
        let ghost prev = self.known();
        let ghost listed = self.listed();
        let mut next = sessions;
        let mut i: usize = 0;
        assert(prev.take(0).len() == 0);
        assert(prev.take(0) == Seq::<SessionView>::empty());
        while i < self.sessions.len()
            invariant
                i <= self.sessions.len(),
                prev == sessions_view(self.sessions@),
                listed == self.listed(),
                sessions_view(next@) == kept(fresh, prev.take(i as int), listed),
            decreases self.sessions.len() - i,
        {
            assert(prev.take(i + 1).drop_last() == prev.take(i as int));
            assert(prev.take(i + 1).last() == prev[i as int]);
            let previous = &self.sessions[i];
            let in_listing = match &self.listing {
                Some(listing) => is_live(listing.live.as_slice(), previous.name.as_str()),
                None => false,
            };
            let confirmed = previous.is_current || in_listing;
            if confirmed && !has_session(next.as_slice(), previous.name.as_str()) {
                let copy = previous.clone();
                next.push(copy);
                assert(sessions_view(next@) =~= kept(fresh, prev.take(i as int), listed).push(prev[i as int]));
            }
            i = i + 1;
        }
        assert(prev.take(self.sessions.len() as int) == prev);
        self.sessions = next;
        self.reconcile_listing();
    }

    /// Take in the listing the CLI printed; it decides which sessions exist.
    pub fn update_listing(&mut self, listing: SessionListing)
        ensures
            final(self).listed() == Some((live_view(listing.live@), dead_view(listing.resurrectable@))),
            (final(self).known(), final(self).dead()) == with_listing(
                old(self).known(),
                old(self).dead(),
                final(self).listed(),
            ),
            final(self).pending() == old(self).pending(),
    {
        self.listing = Some(listing);
        self.reconcile_listing();
    }

    /// Passive notifications use Zellij's peer cache. Only the current session
    /// is fresh; membership is reconciled by explicit full snapshots instead.
    pub fn update_current_session(&mut self, sessions: Vec<LiveSession>)
        ensures
            final(self).known() == notified(old(self).known(), sessions_view(sessions@)),
            final(self).dead() == old(self).dead(),
            final(self).listed() == old(self).listed(),
            final(self).pending() == old(self).pending(),
    {
        let ghost start = self.known();
        let ghost fresh = sessions_view(sessions@);
        let mut i: usize = 0;
        assert(fresh.take(0) == Seq::<SessionView>::empty());
        while i < sessions.len()
            invariant
                i <= sessions.len(),
                fresh == sessions_view(sessions@),
                self.known() == notified(start, fresh.take(i as int)),
                self.dead() == old(self).dead(),
                self.listed() == old(self).listed(),
                self.pending() == old(self).pending(),
            decreases sessions.len() - i,
        {
            assert(fresh.take(i + 1).drop_last() == fresh.take(i as int));
            assert(fresh.take(i + 1).last() == fresh[i as int]);
            if sessions[i].is_current {
                let copy = sessions[i].clone();
                match find_session(self.sessions.as_slice(), sessions[i].name.as_str()) {
                    Some(k) => {
                        self.sessions.set(k, copy);
                        assert(self.known() =~= notified(start, fresh.take(i as int)).update(k as int, fresh[i as int]));
                    },
                    None => {
                        self.sessions.push(copy);
                        assert(self.known() =~= notified(start, fresh.take(i as int)).push(fresh[i as int]));
                    },
                }
            }
            i = i + 1;
        }
        assert(fresh.take(sessions.len() as int) == fresh);
    }

    /// Update the resurrectable sessions
    pub fn update_resurrectable_sessions(&mut self, resurrectable_sessions: Vec<(String, Elapsed)>)
        ensures
            (final(self).known(), final(self).dead()) == with_listing(
                old(self).known(),
                dead_view(resurrectable_sessions@),
                old(self).listed(),
            ),
            final(self).listed() == old(self).listed(),
            final(self).pending() == old(self).pending(),
    {
        self.resurrectable_sessions = resurrectable_sessions;
        self.reconcile_listing();
    }

    /// Get all sessions
    pub fn sessions(&self) -> (r: &[LiveSession])
        ensures
            sessions_view(r@) == self.known(),
    {
        self.sessions.as_slice()
    }

    /// The live sessions by name, with whether each is the current one.
    pub fn live(&self) -> (r: Vec<(String, bool)>)
        ensures
            live_view(r@) == name_flags(self.known()),
    {
        let mut r: Vec<(String, bool)> = Vec::new();
        let mut i: usize = 0;
        while i < self.sessions.len()
            invariant
                i <= self.sessions.len(),
                live_view(r@) == name_flags(self.known()).take(i as int),
            decreases self.sessions.len() - i,
        {
            let name = self.sessions[i].name.clone();
            let current = self.sessions[i].is_current;
            assert((name@, current) == name_flags(self.known())[i as int]);
            assert(live_view(r@).len() == r@.len());
            assert(name_flags(self.known()).take(i as int).len() == i);
            r.push((name, current));
            assert(live_view(r@)[i as int] == (name@, current));
            assert(live_view(r@) =~= name_flags(self.known()).take(i + 1));
            i = i + 1;
        }
        assert(name_flags(self.known()).take(self.sessions.len() as int)
            =~= name_flags(self.known()));
        r
    }

    /// Get all resurrectable sessions
    pub fn resurrectable_sessions(&self) -> (r: &[(String, Elapsed)])
        ensures
            dead_view(r@) == self.dead(),
    {
        self.resurrectable_sessions.as_slice()
    }

    /// Whether killing `name` means deleting a resurrectable session rather
    /// than killing a live one.
    pub fn deletes_dead_session(&self, name: &str) -> (r: bool)
        ensures
            r == (!session_names(self.known()).contains(name@) && dead_names(self.dead()).contains(name@)),
    {
        !has_session(self.sessions.as_slice(), name) && has_dead(self.resurrectable_sessions.as_slice(), name)
    }

    /// Start session deletion confirmation
    pub fn start_deletion(&mut self, session_name: String)
        ensures
            final(self).pending() == Some(session_name@),
            final(self).known() == old(self).known(),
            final(self).dead() == old(self).dead(),
            final(self).listed() == old(self).listed(),
    {
        self.pending_deletion = Some(session_name);
    }

    /// Confirm session deletion: the session to kill, if one was waiting.
    pub fn confirm_deletion(&mut self) -> (r: Option<String>)
        ensures
            opt_view(r) == old(self).pending(),
            old(self).pending() is None ==> *final(self) == *old(self),
            final(self).pending() is None,
            final(self).known() == old(self).known(),
            final(self).dead() == old(self).dead(),
            final(self).listed() == old(self).listed(),
    {
        let mut taken: Option<String> = None;
        std::mem::swap(&mut taken, &mut self.pending_deletion);
        taken
    }

    /// Cancel session deletion
    pub fn cancel_deletion(&mut self)
        ensures
            final(self).pending() is None,
            final(self).known() == old(self).known(),
            final(self).dead() == old(self).dead(),
            final(self).listed() == old(self).listed(),
    {
        self.pending_deletion = None;
    }

    /// Get session pending deletion
    pub fn pending_deletion(&self) -> (r: Option<&str>)
        ensures
            match self.pending() {
                Some(n) => r matches Some(s) && s@ == n,
                None => r is None,
            },
    {
        match &self.pending_deletion {
            Some(s) => Some(s.as_str()),
            None => None,
        }
    }

    /// Whether a session of this name exists, live or resurrectable.
    pub fn name_taken(&self, name: &str) -> (r: bool)
        ensures
            r == is_taken(self.known(), self.dead(), name@),
    {
        has_session(self.sessions.as_slice(), name) || has_dead(self.resurrectable_sessions.as_slice(), name)
    }
}

/// The series' scan from the `m`-th candidate finds the `k`-th when every
/// candidate in between is taken and the `k`-th is free.
proof fn lemma_first_free_finds(
    live: Seq<SessionView>,
    dead: Seq<DeadView>,
    base: Seq<char>,
    sep: Seq<char>,
    m: nat,
    k: nat,
)
    requires
        m <= k <= 1000,
        !is_taken(live, dead, increment_candidate(base, sep, k)),
        forall|j: nat| m <= j < k ==> is_taken(live, dead, #[trigger] increment_candidate(base, sep, j)),
    ensures
        first_free_from(live, dead, base, sep, m) == Some(increment_candidate(base, sep, k)),
    decreases k - m,
{
    if m < k {
        lemma_first_free_finds(live, dead, base, sep, m + 1, k);
    }
}

/// The series' scan from the `m`-th candidate finds nothing when every
/// candidate from there to the thousandth is taken.
proof fn lemma_first_free_exhausted(live: Seq<SessionView>, dead: Seq<DeadView>, base: Seq<char>, sep: Seq<char>, m: nat)
    requires
        m >= 2,
        forall|j: nat| m <= j <= 1000 ==> is_taken(live, dead, #[trigger] increment_candidate(base, sep, j)),
    ensures
        first_free_from(live, dead, base, sep, m) is None,
    decreases 1001 - m,
{
    if m <= 1000 {
        lemma_first_free_exhausted(live, dead, base, sep, m + 1);
    }
}

impl SessionManager {
    /// Generate incremented session name for a base name: the first free
    /// name of the series, else the base with a random fragment, else the
    /// fragment alone.
    pub fn generate_incremented_name(&self, base_name: &str, separator: &str) -> (r: String)
        ensures
            incremented_name(self.known(), self.dead(), base_name@, separator@, r@),
    {
        let ghost live = self.known();
        let ghost dead = self.dead();
        let taken = |name: &str| -> (t: bool)
            ensures
                t == is_taken(self.known(), self.dead(), name@),
            { self.name_taken(name) };
        let found = first_free_increment(base_name, separator, taken);
        proof {
            let b = base_name@;
            let s = separator@;
            assert forall|t: Seq<char>, a: bool| #[trigger] answered(taken, t, a) implies a == is_taken(live, dead, t) by {
                let w = choose|w: &str| w@ == t && call_ensures(taken, (w,), a);
            }
            match &found {
                Some(name) => {
                    if name@ != b || !answered(taken, b, false) {
                        let k = choose|k: nat|
                            2 <= k <= 1000 && name@ == #[trigger] increment_candidate(b, s, k) && answered(
                                taken,
                                name@,
                                false,
                            ) && forall|j: nat|
                                2 <= j < k ==> answered(taken, #[trigger] increment_candidate(b, s, j), true);
                        assert forall|j: nat| 2 <= j < k implies is_taken(live, dead, #[trigger] increment_candidate(b, s, j)) by {
                            assert(answered(taken, increment_candidate(b, s, j), true));
                        }
                        lemma_first_free_finds(live, dead, b, s, 2, k);
                    }
                },
                None => {
                    assert forall|j: nat| 2 <= j <= 1000 implies is_taken(live, dead, #[trigger] increment_candidate(b, s, j)) by {
                        assert(answered(taken, increment_candidate(b, s, j), true));
                    }
                    lemma_first_free_exhausted(live, dead, b, s, 2);
                },
            }
        }
        match found {
            Some(name) => name,
            None => {
                let unique = new_uuid();
                let cs = chars_of(unique.as_str());
                let fragment = string_from_chars(sub_chars(cs.as_slice(), 0, 8).as_slice());
                assert(fragment@ == unique@.take(8));
                // A separator can itself be invalid or larger than the budget.
                // The UUID fragment remains a safe name on its own.
                match with_suffix(base_name, separator, fragment.as_str()) {
                    Some(name) => name,
                    None => fragment,
                }
            },
        }
    }
}


/// The session `first_named` finds is named so.
proof fn lemma_first_named(v: Seq<SessionView>, name: Seq<char>, from: nat)
    ensures
        first_named(v, name, from) matches Some(i) ==> from <= i < v.len() && v[i as int].0 == name,
    decreases v.len() - from,
{
    if from < v.len() && v[from as int].0 != name {
        lemma_first_named(v, name, from + 1);
    }
}

/// The scan of the series from the `k`-th candidate finds only free names.
proof fn lemma_first_free_from_is_free(live: Seq<SessionView>, dead: Seq<DeadView>, base: Seq<char>, sep: Seq<char>, k: nat)
    ensures
        first_free_from(live, dead, base, sep, k) matches Some(n) ==> !is_taken(live, dead, n),
    decreases 1001 - k,
{
    if k <= 1000 && is_taken(live, dead, increment_candidate(base, sep, k)) {
        lemma_first_free_from_is_free(live, dead, base, sep, k + 1);
    }
}

/// A name the series offers is free: no live session and no resurrectable
/// session has it, so switching to it creates a fresh session instead of
/// resurrecting an old one.
pub proof fn lemma_series_name_is_free(live: Seq<SessionView>, dead: Seq<DeadView>, base: Seq<char>, separator: Seq<char>)
    ensures
        free_in_series(live, dead, base, separator) matches Some(n) ==> !is_taken(live, dead, n),
{
    lemma_first_free_from_is_free(live, dead, base, separator, 2);
}

/// A notification never drops a session: every session known before is
/// known after, stale peer caches notwithstanding.
pub proof fn lemma_notifications_keep_sessions(v: Seq<SessionView>, fresh: Seq<SessionView>)
    ensures
        forall|n: Seq<char>| session_names(v).contains(n) ==> session_names(notified(v, fresh)).contains(n),
    decreases fresh.len(),
{
    if fresh.len() > 0 {
        lemma_notifications_keep_sessions(v, fresh.drop_last());
        let r = notified(v, fresh.drop_last());
        let f = fresh.last();
        lemma_first_named(r, f.0, 0);
        assert forall|n: Seq<char>| session_names(v).contains(n) implies session_names(notified(v, fresh)).contains(n) by {
            assert(session_names(r).contains(n));
            let i = choose|i: int| 0 <= i < session_names(r).len() && session_names(r)[i] == n;
            if f.1 {
                match first_named(r, f.0, 0) {
                    Some(k) => {
                        assert(session_names(r.update(k as int, f))[i] == n);
                    },
                    None => {
                        assert(session_names(r.push(f))[i] == n);
                    },
                }
            }
        }
    }
}

/// A notification brings in no session but a current one it reports: it
/// cannot restore a peer that was removed.
pub proof fn lemma_notifications_add_only_current(v: Seq<SessionView>, fresh: Seq<SessionView>)
    ensures
        forall|n: Seq<char>|
            session_names(notified(v, fresh)).contains(n) ==> session_names(v).contains(n) || exists|i: int|
                0 <= i < fresh.len() && fresh[i].1 && #[trigger] fresh[i].0 == n,
    decreases fresh.len(),
{
    if fresh.len() > 0 {
        let head = fresh.drop_last();
        lemma_notifications_add_only_current(v, head);
        let r = notified(v, head);
        let f = fresh.last();
        lemma_first_named(r, f.0, 0);
        assert forall|n: Seq<char>| session_names(notified(v, fresh)).contains(n) implies session_names(v).contains(n)
            || exists|i: int| 0 <= i < fresh.len() && fresh[i].1 && #[trigger] fresh[i].0 == n by {
            let out = notified(v, fresh);
            let j = choose|j: int| 0 <= j < session_names(out).len() && session_names(out)[j] == n;
            if f.1 && out[j] == f {
                assert(fresh[fresh.len() - 1].0 == n);
            } else {
                assert(session_names(r).contains(n)) by {
                    if f.1 {
                        match first_named(r, f.0, 0) {
                            Some(k) => {
                                if j == k {
                                    assert(r[k as int].0 == f.0);
                                    assert(session_names(r)[k as int] == n);
                                } else {
                                    assert(session_names(r)[j] == n);
                                }
                            },
                            None => {
                                assert(session_names(r)[j] == n);
                            },
                        }
                    } else {
                        assert(session_names(r)[j] == n);
                    }
                }
                if !session_names(v).contains(n) {
                    let i = choose|i: int| 0 <= i < head.len() && head[i].1 && #[trigger] head[i].0 == n;
                    assert(fresh[i] == head[i]);
                }
            }
        }
    }
}

/// Once the CLI has listed the sessions, its listing alone decides which
/// exist: the live ones are the listed ones, in the listed order and with
/// the listed current flags, and the resurrectable ones are those it lists.
pub proof fn lemma_listing_decides_membership(live: Seq<SessionView>, dead: Seq<DeadView>, listing: ListingView)
    ensures
        name_flags(with_listing(live, dead, Some(listing)).0) == listing.0,
        with_listing(live, dead, Some(listing)).1 == listing.1,
{
    assert(name_flags(with_listing(live, dead, Some(listing)).0) =~= listing.0);
}

impl Default for SessionManager {
    fn default() -> (r: Self)
        ensures
            r.known().len() == 0,
            r.dead().len() == 0,
            r.pending() is None,
            r.listed() is None,
    {
        SessionManager {
            sessions: Vec::new(),
            pending_deletion: None,
            resurrectable_sessions: Vec::new(),
            listing: None,
        }
    }
}

} // verus!
