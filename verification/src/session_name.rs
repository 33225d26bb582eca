//! Validation for session names the user can influence.
//!
//! Zellij session names end up inside a Unix-domain-socket path, which is
//! capped at 108 bytes. The socket directory is not knowable from inside the
//! WASM sandbox, so generated names aim well below the cap (see the naming
//! module) while this module enforces the hard limits that apply to *any*
//! name, including one typed by hand.

use vstd::prelude::*;
use crate::strings::{byte_len, byte_len_at_least, chars_of, decimal, push_chars, push_decimal};

verus! {

broadcast use vstd::string::group_string_axioms;

/// Hard upper bound on a session name, from the 108-byte socket path limit.
pub const MAX_SESSION_NAME_BYTES: usize = 108;

/// Highest increment tried before the caller falls back to a random suffix.
const MAX_INCREMENT: u32 = 1000;

/// The result of checking `name` against the limits Zellij imposes.
pub open spec fn validation(name: Seq<char>) -> Result<(), &'static str> {
    if byte_len(name) >= MAX_SESSION_NAME_BYTES {
        Err("Session name must be shorter than 108 bytes")
    } else if name.contains('/') {
        Err("Session name cannot contain '/'")
    } else {
        Ok(())
    }
}

/// The result of checking `name` against the limits and against the
/// session the plugin runs in.
pub open spec fn validation_against_current(name: Seq<char>, current: Option<Seq<char>>) -> Result<
    (),
    &'static str,
> {
    if validation(name) is Err {
        validation(name)
    } else if name.len() > 0 && current == Some(name) {
        Err("Cannot create session with same name as current session")
    } else {
        Ok(())
    }
}

/// Whether `c` occurs in `cs`.
pub fn chars_contain(cs: &[char], c: char) -> (r: bool)
    ensures
        r == cs@.contains(c),
{
    let mut i: usize = 0;
    while i < cs.len()
        invariant
            i <= cs.len(),
            forall|j: int| 0 <= j < i ==> cs@[j] != c,
        decreases cs.len() - i,
    {
        if cs[i] == c {
            assert(cs@[i as int] == c);
            return true;
        }
        i = i + 1;
    }
    false
}

/// Whether two strings hold the same characters.
pub fn str_eq(a: &str, b: &str) -> (r: bool)
    ensures
        r == (a@ == b@),
{
    let x = chars_of(a);
    let y = chars_of(b);
    if x.len() != y.len() {
        return false;
    }
    let mut i: usize = 0;
    while i < x.len()
        invariant
            i <= x.len(),
            x.len() == y.len(),
            x@ == a@,
            y@ == b@,
            forall|j: int| 0 <= j < i ==> x@[j] == y@[j],
        decreases x.len() - i,
    {
        if x[i] != y[i] {
            assert(x@[i as int] != y@[i as int]);
            return false;
        }
        i = i + 1;
    }
    assert(x@ =~= y@);
    true
}

/// Check a session name against the limits Zellij imposes.
///
/// An empty name is accepted: every caller maps it to "let Zellij pick a
/// random name".
pub fn validate(name: &str) -> (r: Result<(), &'static str>)
    ensures
        r == validation(name@),
{
    let cs = chars_of(name);
    if byte_len_at_least(&cs, MAX_SESSION_NAME_BYTES) {
        return Err("Session name must be shorter than 108 bytes");
    }
    if chars_contain(&cs, '/') {
        return Err("Session name cannot contain '/'");
    }
    Ok(())
}

/// Check a requested name against the session the plugin is running in.
///
/// Zellij cannot switch a session to itself. Refusing silently looks like a
/// dropped key press, so this reports a message the caller can surface.
pub fn validate_against_current(name: &str, current: Option<&str>) -> (r: Result<(), &'static str>)
    ensures
        r == validation_against_current(
            name@,
            match current {
                Some(c) => Some(c@),
                None => None,
            },
        ),
{
    validate(name)?;
    if !name.is_empty() {
        if let Some(current) = current {
            if str_eq(name, current) {
                return Err("Cannot create session with same name as current session");
            }
        }
    }
    Ok(())
}

/// The `counter`-th name in the series `base`, `base<sep>2`, `base<sep>3`.
pub open spec fn increment_candidate(base: Seq<char>, separator: Seq<char>, counter: nat) -> Seq<
    char,
> {
    base + separator + decimal(counter)
}

/// `is_taken` answered `answer` for some text equal to `text`.
pub open spec fn answered<F: Fn(&str) -> bool>(is_taken: F, text: Seq<char>, answer: bool) -> bool {
    exists|s: &str| s@ == text && call_ensures(is_taken, (s,), answer)
}

/// Pick the first unused name in the series `base`, `base<sep>2`, `base<sep>3`.
///
/// `is_taken` must report live *and* resurrectable sessions. Switching to the
/// name of a dead session resurrects it instead of creating a fresh one, so
/// the requested directory and layout would be silently ignored.
///
/// Returns `None` when every candidate up to 1000 is taken, leaving the
/// caller to invent a unique suffix.
pub fn first_free_increment(base: &str, separator: &str, is_taken: impl Fn(&str) -> bool) -> (r:
    Option<String>)
    requires
        forall|s: &str| call_requires(is_taken, (s,)),
    ensures
        match r {
            None => answered(is_taken, base@, true) && forall|k: nat|
                2 <= k <= 1000 ==> answered(
                    is_taken,
                    #[trigger] increment_candidate(base@, separator@, k),
                    true,
                ),
            Some(name) => (name@ == base@ && answered(is_taken, base@, false)) || (answered(
                is_taken,
                base@,
                true,
            ) && exists|k: nat|
                2 <= k <= 1000 && name@ == #[trigger] increment_candidate(base@, separator@, k)
                    && answered(is_taken, name@, false) && forall|j: nat|
                    2 <= j < k ==> answered(
                        is_taken,
                        #[trigger] increment_candidate(base@, separator@, j),
                        true,
                    )),
        },
{
    if !is_taken(base) {
        let mut s = String::new();
        push_chars(&mut s, &chars_of(base));
        return Some(s);
    }
    let b = chars_of(base);
    let sep = chars_of(separator);
    let mut counter: u32 = 2;
    while counter <= MAX_INCREMENT
        invariant
            2 <= counter <= MAX_INCREMENT + 1,
            b@ == base@,
            sep@ == separator@,
            forall|s: &str| call_requires(is_taken, (s,)),
            answered(is_taken, base@, true),
            forall|j: nat|
                2 <= j < counter ==> answered(
                    is_taken,
                    #[trigger] increment_candidate(base@, separator@, j),
                    true,
                ),
        decreases MAX_INCREMENT + 1 - counter,
    {
        let mut candidate = String::new();
        push_chars(&mut candidate, &b);
        push_chars(&mut candidate, &sep);
        push_decimal(&mut candidate, counter as u128);
        assert(candidate@ == increment_candidate(base@, separator@, counter as nat));
        let taken = is_taken(candidate.as_str());
        if !taken {
            return Some(candidate);
        }
        counter = counter + 1;
    }
    None
}

/// The result of checking a name for a new session: the limits, the
/// session the plugin runs in, and then the sessions that exist.
pub open spec fn creation_validation(name: Seq<char>, current: Option<Seq<char>>, taken: bool) -> Result<
    (),
    &'static str,
> {
    if validation_against_current(name, current) is Err {
        validation_against_current(name, current)
    } else if name.len() > 0 && taken {
        Err("A session with this name already exists")
    } else {
        Ok(())
    }
}

/// Check a name for a new session. An empty name asks Zellij for a random
/// one and is not looked up; any other name must not belong to a live or
/// resurrectable session, which `is_taken` reports.
pub fn validate_for_creation(name: &str, current: Option<&str>, is_taken: impl FnOnce(&str) -> bool) -> (r:
    Result<(), &'static str>)
    requires
        call_requires(is_taken, (name,)),
    ensures
        validation_against_current(
            name@,
            match current {
                Some(c) => Some(c@),
                None => None,
            },
        ) is Err ==> r == validation_against_current(
            name@,
            match current {
                Some(c) => Some(c@),
                None => None,
            },
        ),
        validation_against_current(
            name@,
            match current {
                Some(c) => Some(c@),
                None => None,
            },
        ) is Ok ==> (name@.len() == 0 ==> r is Ok) && (name@.len() > 0 ==> exists|taken: bool|
            call_ensures(is_taken, (name,), taken) && r == creation_validation(
                name@,
                match current {
                    Some(c) => Some(c@),
                    None => None,
                },
                taken,
            )),
{
    validate_against_current(name, current)?;
    if !name.is_empty() && is_taken(name) {
        return Err("A session with this name already exists");
    }
    Ok(())
}

/// `base`, the separator and `suffix` as one name, if that name is valid.
pub fn with_suffix(base: &str, separator: &str, suffix: &str) -> (r: Option<String>)
    ensures
        r is Some <==> validation(base@ + separator@ + suffix@) is Ok,
        r matches Some(s) ==> s@ == base@ + separator@ + suffix@,
{
    let mut name = String::new();
    push_chars(&mut name, chars_of(base).as_slice());
    push_chars(&mut name, chars_of(separator).as_slice());
    push_chars(&mut name, chars_of(suffix).as_slice());
    match validate(name.as_str()) {
        Ok(()) => Some(name),
        Err(_) => None,
    }
}

} // verus!
