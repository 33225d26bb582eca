//! The rows of the picker: live sessions, resurrectable sessions and zoxide
//! directories, and the actions taken on sessions.

use vstd::prelude::*;
use crate::strings::{chars_of, push_char, push_chars};

verus! {

broadcast use vstd::string::group_string_axioms;

/// A span of time, in whole seconds and the nanoseconds beyond them.
#[derive(Clone, Copy, Debug, PartialEq, Eq)]
pub struct Elapsed {
    secs: u64,
    nanos: u32,
}

impl Elapsed {
    #[verifier::type_invariant]
    spec fn valid(self) -> bool {
        self.nanos < 1_000_000_000
    }
}

impl View for Elapsed {
    type V = (u64, u32);

    closed spec fn view(&self) -> (u64, u32) {
        (self.secs, self.nanos)
    }
}

impl Elapsed {
    /// `secs` whole seconds.
    pub fn from_secs(secs: u64) -> (r: Elapsed)
        ensures
            r@ == (secs, 0u32),
    {
        Elapsed { secs, nanos: 0 }
    }

    /// `secs` seconds and `nanos` nanoseconds, if `nanos` is below a second.
    pub fn from_parts(secs: u64, nanos: u32) -> (r: Option<Elapsed>)
        ensures
            r is Some <==> nanos < 1_000_000_000,
            r matches Some(e) ==> e@ == (secs, nanos),
    {
        if nanos < 1_000_000_000 {
            Some(Elapsed { secs, nanos })
        } else {
            None
        }
    }

    /// The whole seconds.
    pub fn secs(&self) -> (r: u64)
        ensures
            r == self@.0,
    {
        self.secs
    }

    /// The nanoseconds beyond the whole seconds, always below a second.
    pub fn subsec_nanos(&self) -> (r: u32)
        ensures
            r == self@.1,
            r < 1_000_000_000,
    {
        proof {
            use_type_invariant(self);
        }
        self.nanos
    }
}

/// What `humantime::format_duration` writes for a duration of `secs`
/// seconds and `nanos` nanoseconds.
pub uninterp spec fn humantime_text(secs: u64, nanos: u32) -> Seq<char>;

/// `humantime::format_duration`, as text: the duration in years, months,
/// days, hours, minutes, seconds and smaller units, `0s` when it is zero.
#[verifier::external_body]
fn format_elapsed(secs: u64, nanos: u32) -> (r: String)
    requires
        nanos < 1_000_000_000,
    ensures
        r@ == humantime_text(secs, nanos),
        secs == 0 && nanos == 0 ==> r@ == seq!['0', 's'],
{
    humantime::format_duration(std::time::Duration::new(secs, nanos)).to_string()
}

/// Represents different types of items that can be displayed in the session list
pub enum SessionItem {
    /// An existing Zellij session
    ExistingSession { name: String, directory: String, is_current: bool },
    /// A resurrectable session that can be restored
    ResurrectableSession { name: String, duration: Elapsed },
    /// A zoxide directory that can be used to create a new session
    Directory { path: String, session_name: String, pinned: bool },
}

/// Actions that can be performed on sessions
pub enum SessionAction {
    /// Switch to an existing session
    Switch(String),
    /// Kill an existing session
    Kill(String),
}

/// The marker in front of a session row: filled for the current session.
pub open spec fn session_marker(is_current: bool) -> Seq<char> {
    if is_current {
        seq!['\u{25cf}', ' ']
    } else {
        seq!['\u{25cb}', ' ']
    }
}

/// The row text of an item, before it is shortened to fit the pane.
pub open spec fn item_text(item: SessionItem) -> Seq<char> {
    match item {
        SessionItem::ExistingSession { name, directory, is_current } => if directory@.len() == 0 {
            session_marker(is_current) + name@
        } else {
            session_marker(is_current) + name@ + seq![' ', '('] + directory@ + seq![')']
        },
        SessionItem::ResurrectableSession { name, duration } => seq!['\u{21ba}', ' '] + name@
            + " (created "@ + humantime_text(duration@.0, duration@.1) + " ago)"@,
        SessionItem::Directory { path, .. } => path@,
    }
}

/// The name of the session an item stands for; directories have none.
pub open spec fn item_session_name(item: SessionItem) -> Option<Seq<char>> {
    match item {
        SessionItem::ExistingSession { name, .. } => Some(name@),
        SessionItem::ResurrectableSession { name, .. } => Some(name@),
        SessionItem::Directory { .. } => None,
    }
}

/// Whether two items stand for the same row across a refresh: directories
/// by path, sessions by name.
pub open spec fn same_item(a: SessionItem, b: SessionItem) -> bool {
    match (a, b) {
        (SessionItem::Directory { path: p, .. }, SessionItem::Directory { path: q, .. }) => p@ == q@,
        _ => item_session_name(a) is Some && item_session_name(a) == item_session_name(b),
    }
}

/// Appends the characters of `text` to `s`.
fn push_text(s: &mut String, text: &str)
    ensures
        final(s)@ == old(s)@ + text@,
{
    push_chars(s, chars_of(text).as_slice());
}

impl Clone for SessionItem {
    fn clone(&self) -> (r: Self)
        ensures
            r == *self,
    {
        match self {
            SessionItem::ExistingSession { name, directory, is_current } => {
                SessionItem::ExistingSession {
                    name: name.clone(),
                    directory: directory.clone(),
                    is_current: *is_current,
                }
            },
            SessionItem::ResurrectableSession { name, duration } => {
                SessionItem::ResurrectableSession { name: name.clone(), duration: *duration }
            },
            SessionItem::Directory { path, session_name, pinned } => SessionItem::Directory {
                path: path.clone(),
                session_name: session_name.clone(),
                pinned: *pinned,
            },
        }
    }
}

impl SessionItem {
    /// Check if this is an existing session
    pub fn is_session(&self) -> (r: bool)
        ensures
            r == (*self is ExistingSession),
    {
        match self {
            SessionItem::ExistingSession { .. } => true,
            _ => false,
        }
    }

    /// Check if this is a session that can be resurrected
    pub fn is_resurrectable_session(&self) -> (r: bool)
        ensures
            r == (*self is ResurrectableSession),
    {
        match self {
            SessionItem::ResurrectableSession { .. } => true,
            _ => false,
        }
    }

    /// Whether this is a pinned directory.
    pub fn is_pinned(&self) -> (r: bool)
        ensures
            r == (*self matches SessionItem::Directory { pinned, .. } && pinned),
    {
        match self {
            SessionItem::Directory { pinned, .. } => *pinned,
            _ => false,
        }
    }

    /// The name of the session this item stands for; directories have none.
    pub fn session_name(&self) -> (r: Option<&str>)
        ensures
            match item_session_name(*self) {
                Some(n) => r matches Some(s) && s@ == n,
                None => r is None,
            },
    {
        match self {
            SessionItem::ExistingSession { name, .. } => Some(name.as_str()),
            SessionItem::ResurrectableSession { name, .. } => Some(name.as_str()),
            SessionItem::Directory { .. } => None,
        }
    }

    /// Whether `other` stands for the same row as this item.
    pub fn same_identity(&self, other: &SessionItem) -> (r: bool)
        ensures
            r == same_item(*self, *other),
    {
        match (self, other) {
            (SessionItem::Directory { path: p, .. }, SessionItem::Directory { path: q, .. }) => {
                crate::session_name::str_eq(p.as_str(), q.as_str())
            },
            _ => match (self.session_name(), other.session_name()) {
                (Some(a), Some(b)) => crate::session_name::str_eq(a, b),
                _ => false,
            },
        }
    }

    /// The row text for this item, before it is shortened to fit the pane.
    ///
    /// Both the renderer and the search engine go through this, so fuzzy match
    /// indices always address the string that is actually drawn.
    pub fn display_text(&self) -> (r: String)
        ensures
            r@ == item_text(*self),
    {
        let mut s = String::new();
        match self {
            SessionItem::ExistingSession { name, directory, is_current } => {
                push_char(&mut s, if *is_current { '\u{25cf}' } else { '\u{25cb}' });
                push_char(&mut s, ' ');
                push_text(&mut s, name.as_str());
                // Sessions with no matching zoxide directory have an empty
                // directory: drop the "()" rather than render it empty.
                if !directory.as_str().is_empty() {
                    push_char(&mut s, ' ');
                    push_char(&mut s, '(');
                    push_text(&mut s, directory.as_str());
                    push_char(&mut s, ')');
                }
            },
            SessionItem::ResurrectableSession { name, duration } => {
                push_char(&mut s, '\u{21ba}');
                push_char(&mut s, ' ');
                push_text(&mut s, name.as_str());
                push_text(&mut s, " (created ");
                let age = format_elapsed(duration.secs(), duration.subsec_nanos());
                push_text(&mut s, age.as_str());
                push_text(&mut s, " ago)");
            },
            SessionItem::Directory { path, .. } => {
                push_text(&mut s, path.as_str());
            },
        }
        s
    }
}

} // verus!
