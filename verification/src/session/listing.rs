//! The session listing the Zellij CLI prints.
//!
//! The CLI probes session sockets; unlike the plugin API's session list, it
//! does not need session metadata to exist or parse for a live session.
//! Each row reads `<name> [Created <age> ago]<status>`, where the status is
//! empty, `(current)`, or `(EXITED - attach to resurrect)`. A name may itself
//! contain ` [Created `, so a row is cut at the last one.

use vstd::prelude::*;
use crate::session::types::Elapsed;
use crate::strings::{
    char_rows, chars_of, is_digit, is_whitespace, keep_non_empty, lines_of, non_empty, push_chars,
    string_from_chars, sub_chars, text_lines, white_space,
};

verus! {

broadcast use vstd::string::group_string_axioms;

/// The sessions of one listing.
#[derive(Debug)]
pub struct SessionListing {
    /// Live sessions, with whether each is the current one.
    pub live: Vec<(String, bool)>,
    /// Exited sessions that can be resurrected, with their age.
    pub resurrectable: Vec<(String, Elapsed)>,
}

/// The live sessions, by name.
pub open spec fn live_view(v: Seq<(String, bool)>) -> Seq<(Seq<char>, bool)> {
    v.map_values(|x: (String, bool)| (x.0@, x.1))
}

/// The resurrectable sessions, by name and age.
pub open spec fn dead_view(v: Seq<(String, Elapsed)>) -> Seq<(Seq<char>, (u64, u32))> {
    v.map_values(|x: (String, Elapsed)| (x.0@, x.1@))
}

/// Whether `p` occurs in `s` at `i`.
pub open spec fn matches_at(s: Seq<char>, p: Seq<char>, i: int) -> bool {
    0 <= i && i + p.len() <= s.len() && s.subrange(i, i + p.len()) == p
}

/// The first occurrence of `p` in `s` at or after `i`.
pub open spec fn first_match_from(s: Seq<char>, p: Seq<char>, i: nat) -> Option<nat>
    decreases s.len() + 1 - i,
{
    if i + p.len() > s.len() {
        None
    } else if matches_at(s, p, i as int) {
        Some(i)
    } else {
        first_match_from(s, p, i + 1)
    }
}

/// The first occurrence of `p` in `s`, as `str::split_once` finds it.
pub open spec fn first_match(s: Seq<char>, p: Seq<char>) -> Option<nat> {
    first_match_from(s, p, 0)
}

/// The last occurrence of `p` in `s` starting before `n`.
pub open spec fn last_match_below(s: Seq<char>, p: Seq<char>, n: nat) -> Option<nat>
    decreases n,
{
    if n == 0 {
        None
    } else if matches_at(s, p, n - 1) {
        Some((n - 1) as nat)
    } else {
        last_match_below(s, p, (n - 1) as nat)
    }
}

/// The last occurrence of `p` in `s`, as `str::rsplit_once` finds it.
pub open spec fn last_match(s: Seq<char>, p: Seq<char>) -> Option<nat> {
    if p.len() > s.len() {
        None
    } else {
        last_match_below(s, p, (s.len() - p.len() + 1) as nat)
    }
}

/// `s` without leading white space.
pub open spec fn trim_start_ws(s: Seq<char>) -> Seq<char>
    decreases s.len(),
{
    if s.len() > 0 && white_space(s[0]) {
        trim_start_ws(s.drop_first())
    } else {
        s
    }
}

/// `s` without trailing white space.
pub open spec fn trim_end_ws(s: Seq<char>) -> Seq<char>
    decreases s.len(),
{
    if s.len() > 0 && white_space(s.last()) {
        trim_end_ws(s.drop_last())
    } else {
        s
    }
}

/// `s` without white space at either end, as `str::trim` gives it.
pub open spec fn trim_ws(s: Seq<char>) -> Seq<char> {
    trim_end_ws(trim_start_ws(s))
}

/// What `humantime::parse_duration` makes of `text`: seconds and
/// nanoseconds, or the text of its error.
pub uninterp spec fn humantime_parse(text: Seq<char>) -> Result<(u64, u32), Seq<char>>;

/// The number of decimal digits in `s`.
pub open spec fn digit_count(s: Seq<char>) -> nat
    decreases s.len(),
{
    if s.len() == 0 {
        0
    } else {
        digit_count(s.drop_last()) + if is_digit(s.last()) {
            1nat
        } else {
            0nat
        }
    }
}

/// The most digits an age may hold. Each span of an age is its number times
/// at most a year's 31 557 600 seconds, so eleven digits keep every total
/// below `u64::MAX` seconds, where `humantime` would panic carrying a full
/// second of nanoseconds.
pub const MAX_AGE_DIGITS: usize = 11;

/// Whether `age` is short enough to read.
pub open spec fn age_in_range(age: Seq<char>) -> bool {
    digit_count(age) <= MAX_AGE_DIGITS
}

/// The number of decimal digits in `s`.
fn count_digits(s: &[char]) -> (r: usize)
    ensures
        r == digit_count(s@),
{
    let mut count: usize = 0;
    let mut i: usize = 0;
    while i < s.len()
        invariant
            i <= s.len(),
            count <= i,
            count == digit_count(s@.take(i as int)),
        decreases s.len() - i,
    {
        assert(s@.take(i + 1).drop_last() == s@.take(i as int));
        if '0' <= s[i] && s[i] <= '9' {
            count = count + 1;
        }
        i = i + 1;
    }
    assert(s@.take(s.len() as int) == s@);
    count
}

/// `humantime::parse_duration`, as seconds and nanoseconds, its error as
/// text. Its parser adds the spans up with checked arithmetic but builds the
/// final `Duration` unchecked, which panics when the seconds reach
/// `u64::MAX` together with a full second of nanoseconds; `requires` keeps
/// the total far from that.
#[verifier::external_body]
fn parse_elapsed(text: &str) -> (r: Result<(u64, u32), String>)
    requires
        age_in_range(text@),
    ensures
        match (r, humantime_parse(text@)) {
            (Ok(a), Ok(b)) => a == b,
            (Err(e), Err(f)) => e@ == f,
            _ => false,
        },
        r matches Ok((_, n)) ==> n < 1_000_000_000,
{
    match humantime::parse_duration(text) {
        Ok(d) => Ok((d.as_secs(), d.subsec_nanos())),
        Err(error) => Err(error.to_string()),
    }
}

/// The message for an age with more digits than `MAX_AGE_DIGITS`.
pub open spec fn age_out_of_range(age: Seq<char>) -> Seq<char> {
    "Session age out of range: "@ + age
}

/// The message for a row that does not have the listing's shape.
pub open spec fn unrecognized_row(line: Seq<char>) -> Seq<char> {
    "Unrecognized session list row: "@ + line
}

/// The live and resurrectable sessions read so far.
pub type ListingView = (Seq<(Seq<char>, bool)>, Seq<(Seq<char>, (u64, u32))>);

/// `sessions` with the row `line` read in, or the error the row causes.
pub open spec fn add_row(sessions: ListingView, line: Seq<char>) -> Result<ListingView, Seq<char>> {
    match last_match(line, " [Created "@) {
        None => Err(unrecognized_row(line)),
        Some(i) => {
            let name = line.take(i as int);
            let details = line.skip((i + 10) as int);
            match first_match(details, " ago]"@) {
                None => Err(unrecognized_row(line)),
                Some(j) => {
                    let age = details.take(j as int);
                    let status = details.skip((j + 5) as int);
                    if name.len() == 0 {
                        Err("Session list contained an empty name"@)
                    } else if trim_ws(status).len() == 0 {
                        Ok((sessions.0.push((name, false)), sessions.1))
                    } else if trim_ws(status) == "(current)"@ {
                        Ok((sessions.0.push((name, true)), sessions.1))
                    } else if trim_ws(status) == "(EXITED - attach to resurrect)"@ {
                        if !age_in_range(age) {
                            Err(age_out_of_range(age))
                        } else {
                            match humantime_parse(age) {
                                Ok(d) => Ok((sessions.0, sessions.1.push((name, d)))),
                                Err(e) => Err(e),
                            }
                        }
                    } else {
                        Err("Unrecognized session status: "@ + status)
                    }
                },
            }
        },
    }
}

/// The sessions `rows` list, or the error of the first bad row.
pub open spec fn read_rows(rows: Seq<Seq<char>>) -> Result<ListingView, Seq<char>>
    decreases rows.len(),
{
    if rows.len() == 0 {
        Ok((Seq::empty(), Seq::empty()))
    } else {
        match read_rows(rows.drop_last()) {
            Err(e) => Err(e),
            Ok(sessions) => add_row(sessions, rows.last()),
        }
    }
}

/// What a listing reads as: its non-empty lines, each a row.
pub open spec fn read_listing(output: Seq<char>) -> Result<ListingView, Seq<char>> {
    read_rows(non_empty(text_lines(output)))
}

/// Whether `p` occurs in `s` at `i`.
fn matches_here(s: &[char], p: &[char], i: usize) -> (r: bool)
    requires
        i + p.len() <= s.len(),
    ensures
        r == matches_at(s@, p@, i as int),
{
    let mut k: usize = 0;
    while k < p.len()
        invariant
            k <= p.len(),
            i + p.len() <= s.len(),
            forall|j: int| 0 <= j < k ==> s@[i + j] == p@[j],
        decreases p.len() - k,
    {
        if s[i + k] != p[k] {
            assert(s@.subrange(i as int, i + p.len())[k as int] != p@[k as int]);
            return false;
        }
        k = k + 1;
    }
    assert(s@.subrange(i as int, i + p.len()) =~= p@);
    true
}

/// The first occurrence of `p` in `s`.
fn find_first(s: &[char], p: &[char]) -> (r: Option<usize>)
    ensures
        match r {
            Some(i) => first_match(s@, p@) == Some(i as nat) && i + p.len() <= s.len(),
            None => first_match(s@, p@) is None,
        },
{
    if p.len() > s.len() {
        return None;
    }
    let last = s.len() - p.len();
    let mut i: usize = 0;
    loop
        invariant
            i <= last,
            last == s.len() - p.len(),
            first_match(s@, p@) == first_match_from(s@, p@, i as nat),
        decreases last - i,
    {
        if matches_here(s, p, i) {
            return Some(i);
        }
        if i == last {
            assert(first_match_from(s@, p@, (i + 1) as nat) is None);
            return None;
        }
        i = i + 1;
    }
}

/// The last occurrence of `p` in `s`.
fn find_last(s: &[char], p: &[char]) -> (r: Option<usize>)
    ensures
        match r {
            Some(i) => last_match(s@, p@) == Some(i as nat) && i + p.len() <= s.len(),
            None => last_match(s@, p@) is None,
        },
{
    if p.len() > s.len() {
        return None;
    }
    let mut k: usize = s.len() - p.len();
    loop
        invariant
            k <= s.len() - p.len(),
            p.len() <= s.len(),
            last_match(s@, p@) == last_match_below(s@, p@, (k + 1) as nat),
        decreases k,
    {
        if matches_here(s, p, k) {
            return Some(k);
        }
        if k == 0 {
            assert(last_match_below(s@, p@, 0) is None);
            return None;
        }
        k = k - 1;
    }
}

/// `s[from..to]` without white space at either end.
pub(crate) fn trimmed(s: &[char]) -> (r: Vec<char>)
    ensures
        r@ == trim_ws(s@),
{
    let mut a: usize = 0;
    assert(s@.skip(0) == s@);
    while a < s.len() && is_whitespace(s[a])
        invariant
            a <= s.len(),
            trim_start_ws(s@) == trim_start_ws(s@.skip(a as int)),
        decreases s.len() - a,
    {
        assert(s@.skip(a as int).drop_first() == s@.skip(a + 1));
        a = a + 1;
    }
    assert(trim_start_ws(s@.skip(a as int)) == s@.skip(a as int));
    let mut b: usize = s.len();
    assert(s@.skip(a as int) == s@.subrange(a as int, b as int));
    while b > a && is_whitespace(s[b - 1])
        invariant
            a <= b <= s.len(),
            trim_ws(s@) == trim_end_ws(s@.subrange(a as int, b as int)),
        decreases b,
    {
        assert(s@.subrange(a as int, b as int).drop_last() == s@.subrange(a as int, b - 1));
        b = b - 1;
    }
    assert(trim_end_ws(s@.subrange(a as int, b as int)) == s@.subrange(a as int, b as int));
    sub_chars(s, a, b)
}

/// A string holding `text` and then `more`.
pub(crate) fn joined(text: &str, more: &[char]) -> (r: String)
    ensures
        r@ == text@ + more@,
{
    let mut r = String::new();
    push_chars(&mut r, chars_of(text).as_slice());
    push_chars(&mut r, more);
    r
}

/// Whether `s` holds exactly the characters of `t`.
fn same_chars(s: &[char], t: &str) -> (r: bool)
    ensures
        r == (s@ == t@),
{
    crate::strings::chars_equal(s, chars_of(t).as_slice())
}

/// An error of one row is the error of every longer listing.
proof fn lemma_read_rows_error(rows: Seq<Seq<char>>, k: nat)
    requires
        k <= rows.len(),
        read_rows(rows.take(k as int)) is Err,
    ensures
        read_rows(rows) == read_rows(rows.take(k as int)),
    decreases rows.len() - k,
{
    if k < rows.len() {
        assert(rows.take((k + 1) as int).drop_last() == rows.take(k as int));
        lemma_read_rows_error(rows, k + 1);
    } else {
        assert(rows.take(k as int) == rows);
    }
}

/// The resurrectable session `name`, aged by what reading its age gave, or
/// the error reading the age gave.
pub fn resurrectable_entry(name: String, parsed: Result<(u64, u32), String>) -> (r: Result<
    (String, Elapsed),
    String,
>)
    requires
        parsed matches Ok((_, n)) ==> n < 1_000_000_000,
    ensures
        match parsed {
            Ok(d) => r matches Ok(e) && e.0@ == name@ && e.1@ == d,
            Err(m) => r matches Err(x) && x@ == m@,
        },
{
    match parsed {
        Ok((secs, nanos)) => {
            let elapsed = Elapsed::from_parts(secs, nanos).unwrap();
            Ok((name, elapsed))
        },
        Err(message) => Err(message),
    }
}

/// Reads one row into `live` and `dead`.
fn read_row(line: &Vec<char>, live: &mut Vec<(String, bool)>, dead: &mut Vec<(String, Elapsed)>) -> (r:
    Result<(), String>)
    ensures
        match add_row((live_view(old(live)@), dead_view(old(dead)@)), line@) {
            Ok(v) => r is Ok && live_view(final(live)@) == v.0 && dead_view(final(dead)@) == v.1,
            Err(e) => r matches Err(m) && m@ == e,
        },
{
    let created = chars_of(" [Created ");
    let ago = chars_of(" ago]");
    proof {
        reveal_strlit(" [Created ");
        reveal_strlit(" ago]");
    }
    assert(created@.len() == 10);
    assert(ago@.len() == 5);
    let cut = match find_last(line.as_slice(), created.as_slice()) {
        Some(k) => k,
        None => {
            return Err(joined("Unrecognized session list row: ", line.as_slice()));
        },
    };
    let name = sub_chars(line.as_slice(), 0, cut);
    let details = sub_chars(line.as_slice(), cut + 10, line.len());
    assert(name@ == line@.take(cut as int));
    assert(details@ == line@.skip(cut + 10));
    let end = match find_first(details.as_slice(), ago.as_slice()) {
        Some(k) => k,
        None => {
            return Err(joined("Unrecognized session list row: ", line.as_slice()));
        },
    };
    let age = sub_chars(details.as_slice(), 0, end);
    let status = sub_chars(details.as_slice(), end + 5, details.len());
    assert(age@ == details@.take(end as int));
    assert(status@ == details@.skip(end + 5));
    if name.len() == 0 {
        return Err(string_from_chars(chars_of("Session list contained an empty name").as_slice()));
    }
    let state = trimmed(status.as_slice());
    if state.len() == 0 {
        live.push((string_from_chars(name.as_slice()), false));
    } else if same_chars(state.as_slice(), "(current)") {
        live.push((string_from_chars(name.as_slice()), true));
    } else if same_chars(state.as_slice(), "(EXITED - attach to resurrect)") {
        if count_digits(age.as_slice()) > MAX_AGE_DIGITS {
            return Err(joined("Session age out of range: ", age.as_slice()));
        }
        let age_text = string_from_chars(age.as_slice());
        let parsed = parse_elapsed(age_text.as_str());
        match resurrectable_entry(string_from_chars(name.as_slice()), parsed) {
            Ok(entry) => {
                dead.push(entry);
            },
            Err(message) => {
                return Err(message);
            },
        }
    } else {
        return Err(joined("Unrecognized session status: ", status.as_slice()));
    }
    proof {
        assert(live_view(live@) =~= live_view(old(live)@) + live_view(live@).skip(
            old(live)@.len() as int,
        ));
    }
    Ok(())
}

impl SessionListing {
    /// The sessions listed by `output`, or why it could not be read. A row of
    /// an unknown shape or status fails the whole listing rather than being
    /// dropped.
    pub fn parse(output: &str) -> (r: Result<SessionListing, String>)
        ensures
            match read_listing(output@) {
                Ok(v) => r matches Ok(l) && live_view(l.live@) == v.0 && dead_view(l.resurrectable@)
                    == v.1,
                Err(e) => r matches Err(m) && m@ == e,
            },
    {
        let rows = keep_non_empty(lines_of(chars_of(output).as_slice()));
        let ghost all = char_rows(rows@);
        let mut live: Vec<(String, bool)> = Vec::new();
        let mut dead: Vec<(String, Elapsed)> = Vec::new();
        let mut i: usize = 0;
        assert(all.take(0) == Seq::<Seq<char>>::empty());
        assert(live_view(live@) =~= Seq::<(Seq<char>, bool)>::empty());
        assert(dead_view(dead@) =~= Seq::<(Seq<char>, (u64, u32))>::empty());
        while i < rows.len()
            invariant
                i <= rows.len(),
                all == char_rows(rows@),
                all == non_empty(text_lines(output@)),
                read_rows(all.take(i as int)) == Ok::<ListingView, Seq<char>>(
                    (live_view(live@), dead_view(dead@)),
                ),
            decreases rows.len() - i,
        {
            assert(all.take(i + 1).drop_last() == all.take(i as int));
            assert(all.take(i + 1).last() == rows@[i as int]@);
            match read_row(&rows[i], &mut live, &mut dead) {
                Ok(()) => {},
                Err(message) => {
                    proof {
                        lemma_read_rows_error(all, (i + 1) as nat);
                    }
                    return Err(message);
                },
            }
            i = i + 1;
        }
        assert(all.take(rows.len() as int) == all);
        Ok(SessionListing { live, resurrectable: dead })
    }
}

impl Default for SessionListing {
    fn default() -> (r: Self)
        ensures
            r.live@.len() == 0,
            r.resurrectable@.len() == 0,
    {
        SessionListing { live: Vec::new(), resurrectable: Vec::new() }
    }
}

} // verus!
