//! Session visits shared between instances on the same host.
//!
//! Every instance appends a line `<timestamp> <encoded name>` per visit to a
//! host-wide history and merges the history back in; a name keeps its most
//! recent visit, so lines may arrive late, twice or out of order.

use vstd::prelude::*;
use std::cmp::Ordering;
use crate::records::{decode, decoded, encode, encoded, lemma_decode_encode_roundtrip, lemma_encoded_chars};
use crate::session_name::str_eq;
use crate::strings::{
    char_rows, chars_lt, chars_of, decimal, find_char, find_either, is_digit,
    lemma_decimal_digits, lemma_find_either, lemma_lex_lt_asymmetric, lemma_lex_lt_irreflexive,
    lemma_lex_lt_total, lemma_lex_lt_transitive, lemma_parse_decimal, lex_lt, lines_of,
    parse_u128, parse_u128_chars, push_char, push_chars, push_decimal, string_from_chars,
    sub_chars, text_lines,
};

verus! {

broadcast use vstd::string::group_string_axioms;

/// How many sessions the history remembers; the least recent are forgotten.
pub const MAX_SESSIONS: usize = 4096;

/// When each session was last visited.
pub struct SessionUsage {
    entries: Vec<(String, u128)>,
}

/// No name occurs twice.
pub open spec fn names_distinct(entries: Seq<(String, u128)>) -> bool {
    forall|i: int, j: int|
        #![trigger entries[i], entries[j]]
        0 <= i < j < entries.len() ==> entries[i].0@ != entries[j].0@
}

/// The visits held by `entries`, by name.
pub open spec fn entries_map(entries: Seq<(String, u128)>) -> Map<Seq<char>, u128> {
    Map::new(
        |k: Seq<char>| exists|i: int| 0 <= i < entries.len() && (#[trigger] entries[i]).0@ == k,
        |k: Seq<char>|
            entries[choose|i: int| 0 <= i < entries.len() && (#[trigger] entries[i]).0@ == k].1,
    )
}

/// The names held by `entries`, in order.
pub open spec fn entry_names(entries: Seq<(String, u128)>) -> Seq<Seq<char>> {
    entries.map_values(|e: (String, u128)| e.0@)
}

impl View for SessionUsage {
    type V = Map<Seq<char>, u128>;

    closed spec fn view(&self) -> Map<Seq<char>, u128> {
        entries_map(self.entries@)
    }
}

impl SessionUsage {
    #[verifier::type_invariant]
    spec fn well_formed(self) -> bool {
        names_distinct(self.entries@)
    }
}

/// The last visit of `name`, if any.
pub open spec fn last_visit(m: Map<Seq<char>, u128>, name: Seq<char>) -> Option<u128> {
    if m.dom().contains(name) {
        Some(m[name])
    } else {
        None
    }
}

/// `m` after a visit of `name` at `t`: the later of the two visits stays.
pub open spec fn remembered(m: Map<Seq<char>, u128>, name: Seq<char>, t: u128) -> Map<
    Seq<char>,
    u128,
> {
    if m.dom().contains(name) && m[name] >= t {
        m
    } else {
        m.insert(name, t)
    }
}

/// Every entry of distinct `entries` is found under its name.
proof fn lemma_entries_map(entries: Seq<(String, u128)>)
    requires
        names_distinct(entries),
    ensures
        forall|i: int|
            0 <= i < entries.len() ==> entries_map(entries).dom().contains(
                (#[trigger] entries[i]).0@,
            ) && entries_map(entries)[entries[i].0@] == entries[i].1,
{
    assert forall|i: int| 0 <= i < entries.len() implies entries_map(entries).dom().contains(
        (#[trigger] entries[i]).0@,
    ) && entries_map(entries)[entries[i].0@] == entries[i].1 by {
        let k = entries[i].0@;
        let j = choose|j: int| 0 <= j < entries.len() && (#[trigger] entries[j]).0@ == k;
        assert(0 <= j < entries.len() && entries[j].0@ == k);
        if j < i {
            assert(entries[j].0@ != entries[i].0@);
        } else if i < j {
            assert(entries[i].0@ != entries[j].0@);
        }
    }
}

/// The names of distinct `entries` form the domain, which is finite.
proof fn lemma_entries_map_len(entries: Seq<(String, u128)>)
    requires
        names_distinct(entries),
    ensures
        entries_map(entries).dom() == entry_names(entries).to_set(),
        entries_map(entries).dom().finite(),
        entries_map(entries).dom().len() == entries.len(),
{
    let names = entry_names(entries);
    assert forall|k: Seq<char>| entries_map(entries).dom().contains(k) <==> names.contains(k) by {
        if entries_map(entries).dom().contains(k) {
            let i = choose|i: int| 0 <= i < entries.len() && (#[trigger] entries[i]).0@ == k;
            assert(names[i] == k);
        }
        if names.contains(k) {
            let i = choose|i: int| 0 <= i < names.len() && names[i] == k;
            assert(entries[i].0@ == k);
        }
    }
    assert(entries_map(entries).dom() =~= names.to_set());
    assert(names.no_duplicates()) by {
        assert forall|i: int, j: int| 0 <= i < names.len() && 0 <= j < names.len() && i != j implies names[i]
            != names[j] by {
            if i < j {
                assert(entries[i].0@ != entries[j].0@);
            } else {
                assert(entries[j].0@ != entries[i].0@);
            }
        }
    }
    names.unique_seq_to_set();
    vstd::seq_lib::seq_to_set_is_finite(names);
}

/// Where `name` is held in `entries`, if anywhere.
fn position(entries: &Vec<(String, u128)>, name: &str) -> (r: Option<usize>)
    ensures
        match r {
            Some(i) => i < entries.len() && entries@[i as int].0@ == name@,
            None => forall|i: int| 0 <= i < entries.len() ==> (#[trigger] entries@[i]).0@ != name@,
        },
{
    let mut i: usize = 0;
    while i < entries.len()
        invariant
            i <= entries.len(),
            forall|j: int| 0 <= j < i ==> (#[trigger] entries@[j]).0@ != name@,
        decreases entries.len() - i,
    {
        if str_eq(entries[i].0.as_str(), name) {
            return Some(i);
        }
        i = i + 1;
    }
    None
}

/// `entries` after a visit of `name` at `timestamp`.
fn remember(entries: Vec<(String, u128)>, name: String, timestamp: u128) -> (r: Vec<(String, u128)>)
    requires
        names_distinct(entries@),
    ensures
        names_distinct(r@),
        entries_map(r@) == remembered(entries_map(entries@), name@, timestamp),
{
    let mut entries = entries;
    let ghost old_entries = entries@;
    proof {
        lemma_entries_map(old_entries);
    }
    match position(&entries, name.as_str()) {
        Some(i) => {
            let previous = entries[i].1;
            if previous >= timestamp {
                return entries;
            }
            entries.set(i, (name, timestamp));
            proof {
                assert forall|a: int, b: int|
                    0 <= a < b < entries@.len() implies #[trigger] entries@[a].0@
                    != #[trigger] entries@[b].0@ by {
                    assert(old_entries[a].0@ != old_entries[b].0@);
                }
                lemma_entries_map(entries@);
                let m = entries_map(old_entries);
                let n = entries_map(entries@);
                assert forall|k: Seq<char>| n.dom().contains(k) <==> m.insert(
                    name@,
                    timestamp,
                ).dom().contains(k) by {
                    if k == name@ {
                        assert(entries@[i as int].0@ == name@);
                    }
                    if n.dom().contains(k) {
                        let j = choose|j: int| 0 <= j < entries@.len() && (#[trigger] entries@[j]).0@ == k;
                        if j != i {
                            assert(old_entries[j] == entries@[j]);
                        }
                    }
                    if m.dom().contains(k) {
                        let j = choose|j: int| 0 <= j < old_entries.len() && (#[trigger] old_entries[j]).0@ == k;
                        if j != i {
                            assert(old_entries[j] == entries@[j]);
                        }
                    }
                }
                assert forall|k: Seq<char>| #[trigger] n.dom().contains(k) implies n[k] == m.insert(
                    name@,
                    timestamp,
                )[k] by {
                    let j = choose|j: int| 0 <= j < entries@.len() && (#[trigger] entries@[j]).0@ == k;
                    if j != i {
                        assert(old_entries[j] == entries@[j]);
                    }
                }
                assert(n =~= m.insert(name@, timestamp));
            }
            entries
        },
        None => {
            entries.push((name, timestamp));
            proof {
                assert forall|a: int, b: int|
                    0 <= a < b < entries@.len() implies #[trigger] entries@[a].0@
                    != #[trigger] entries@[b].0@ by {
                    if b < old_entries.len() {
                        assert(old_entries[a].0@ != old_entries[b].0@);
                    } else {
                        assert(entries@[a] == old_entries[a]);
                    }
                }
                lemma_entries_map(entries@);
                let m = entries_map(old_entries);
                let n = entries_map(entries@);
                assert(!m.dom().contains(name@)) by {
                    if m.dom().contains(name@) {
                        let j = choose|j: int| 0 <= j < old_entries.len() && (#[trigger] old_entries[j]).0@ == name@;
                        assert(old_entries[j].0@ != name@);
                    }
                }
                assert forall|k: Seq<char>| n.dom().contains(k) <==> m.insert(
                    name@,
                    timestamp,
                ).dom().contains(k) by {
                    if k == name@ {
                        assert(entries@[old_entries.len() as int].0@ == name@);
                    }
                    if n.dom().contains(k) {
                        let j = choose|j: int| 0 <= j < entries@.len() && (#[trigger] entries@[j]).0@ == k;
                        if j < old_entries.len() {
                            assert(old_entries[j] == entries@[j]);
                        }
                    }
                    if m.dom().contains(k) {
                        let j = choose|j: int| 0 <= j < old_entries.len() && (#[trigger] old_entries[j]).0@ == k;
                        assert(old_entries[j] == entries@[j]);
                    }
                }
                assert forall|k: Seq<char>| #[trigger] n.dom().contains(k) implies n[k] == m.insert(
                    name@,
                    timestamp,
                )[k] by {
                    let j = choose|j: int| 0 <= j < entries@.len() && (#[trigger] entries@[j]).0@ == k;
                    if j < old_entries.len() {
                        assert(old_entries[j] == entries@[j]);
                    }
                }
                assert(n =~= m.insert(name@, timestamp));
            }
            entries
        },
    }
}

/// `a` was visited after `b`, or at the same time with a name that sorts
/// first.
pub open spec fn outranks(m: Map<Seq<char>, u128>, a: Seq<char>, b: Seq<char>) -> bool {
    m[a] > m[b] || (m[a] == m[b] && lex_lt(a, b))
}

/// The names that outrank `k`.
pub open spec fn outranking(m: Map<Seq<char>, u128>, k: Seq<char>) -> spec_fn(Seq<char>) -> bool {
    |j: Seq<char>| outranks(m, j, k)
}

/// How many sessions of `m` outrank `k`.
pub open spec fn rank(m: Map<Seq<char>, u128>, k: Seq<char>) -> nat {
    m.dom().filter(outranking(m, k)).len()
}

/// Whether `k` is among the `MAX_SESSIONS` sessions of `m` visited last.
pub open spec fn among_latest(m: Map<Seq<char>, u128>) -> spec_fn(Seq<char>) -> bool {
    |k: Seq<char>| rank(m, k) < MAX_SESSIONS
}

/// `m` cut down to the `MAX_SESSIONS` sessions visited last, ties going to
/// the name that sorts first.
pub open spec fn pruned(m: Map<Seq<char>, u128>) -> Map<Seq<char>, u128> {
    if m.dom().len() <= MAX_SESSIONS {
        m
    } else {
        m.filter_keys(among_latest(m))
    }
}

/// How many items of `s` satisfy `p`.
pub open spec fn count_where<A>(s: Seq<A>, p: spec_fn(A) -> bool) -> nat
    decreases s.len(),
{
    if s.len() == 0 {
        0
    } else {
        count_where(s.drop_last(), p) + if p(s.last()) {
            1nat
        } else {
            0nat
        }
    }
}

/// Counting the items of a sequence without repeats counts its set.
proof fn lemma_count_where_set<A>(s: Seq<A>, p: spec_fn(A) -> bool)
    requires
        s.no_duplicates(),
    ensures
        s.to_set().filter(p).finite(),
        s.to_set().filter(p).len() == count_where(s, p),
    decreases s.len(),
{
    broadcast use vstd::set::group_set_axioms;

    if s.len() == 0 {
        assert(s.to_set().filter(p) =~= Set::empty());
    } else {
        let r = s.drop_last();
        let x = s.last();
        assert(r.no_duplicates()) by {
            assert forall|i: int, j: int| 0 <= i < r.len() && 0 <= j < r.len() && i != j implies r[i]
                != r[j] by {
                assert(r[i] == s[i] && r[j] == s[j]);
            }
        }
        lemma_count_where_set(r, p);
        assert(!r.contains(x)) by {
            if r.contains(x) {
                let i = choose|i: int| 0 <= i < r.len() && r[i] == x;
                assert(s[i] == s[s.len() - 1]);
            }
        }
        assert forall|a: A| #[trigger] s.contains(a) <==> (r.contains(a) || a == x) by {
            if s.contains(a) {
                let i = choose|i: int| 0 <= i < s.len() && s[i] == a;
                if i < s.len() - 1 {
                    assert(r[i] == a);
                }
            }
            if r.contains(a) {
                let i = choose|i: int| 0 <= i < r.len() && r[i] == a;
                assert(s[i] == a);
            }
            if a == x {
                assert(s[s.len() - 1] == a);
            }
        }
        if p(x) {
            assert(s.to_set().filter(p) =~= r.to_set().filter(p).insert(x));
        } else {
            assert(s.to_set().filter(p) =~= r.to_set().filter(p));
        }
    }
}

/// Whether `entries[j]` outranks `entries[i]`; `names` holds their names.
fn outranks_at(entries: &Vec<(String, u128)>, names: &Vec<Vec<char>>, j: usize, i: usize) -> (r:
    bool)
    requires
        i < entries.len(),
        j < entries.len(),
        names.len() == entries.len(),
        forall|k: int| 0 <= k < entries.len() ==> (#[trigger] names@[k])@ == entries@[k].0@,
    ensures
        r == (entries@[j as int].1 > entries@[i as int].1 || (entries@[j as int].1
            == entries@[i as int].1 && lex_lt(entries@[j as int].0@, entries@[i as int].0@))),
{
    let a = entries[j].1;
    let b = entries[i].1;
    assert(names@[j as int]@ == entries@[j as int].0@);
    assert(names@[i as int]@ == entries@[i as int].0@);
    a > b || (a == b && chars_lt(names[j].as_slice(), names[i].as_slice()))
}

/// The `MAX_SESSIONS` entries visited last, in their original order.
fn prune(entries: Vec<(String, u128)>) -> (r: Vec<(String, u128)>)
    requires
        names_distinct(entries@),
    ensures
        names_distinct(r@),
        entries_map(r@) == pruned(entries_map(entries@)),
{
    proof {
        lemma_entries_map(entries@);
        lemma_entries_map_len(entries@);
    }
    if entries.len() <= MAX_SESSIONS {
        return entries;
    }
    let ghost m = entries_map(entries@);
    let ghost names = entry_names(entries@);
    assert(names.no_duplicates()) by {
        assert forall|i: int, j: int| 0 <= i < names.len() && 0 <= j < names.len() && i != j implies names[i]
            != names[j] by {
            if i < j {
                assert(entries@[i].0@ != entries@[j].0@);
            } else {
                assert(entries@[j].0@ != entries@[i].0@);
            }
        }
    }
    let mut texts: Vec<Vec<char>> = Vec::new();
    let mut t: usize = 0;
    while t < entries.len()
        invariant
            t <= entries.len(),
            texts.len() == t,
            forall|k: int| 0 <= k < t ==> (#[trigger] texts@[k])@ == entries@[k].0@,
        decreases entries.len() - t,
    {
        texts.push(chars_of(entries[t].0.as_str()));
        t = t + 1;
    }
    let mut kept: Vec<(String, u128)> = Vec::new();
    let ghost mut src: Seq<int> = Seq::empty();
    let mut i: usize = 0;
    while i < entries.len()
        invariant
            i <= entries.len(),
            entries.len() > MAX_SESSIONS,
            m == entries_map(entries@),
            names == entry_names(entries@),
            names.no_duplicates(),
            names_distinct(entries@),
            m.dom() == names.to_set(),
            forall|k: int|
                0 <= k < entries.len() ==> m.dom().contains((#[trigger] entries@[k]).0@)
                    && m[entries@[k].0@] == entries@[k].1,
            texts.len() == entries.len(),
            forall|k: int| 0 <= k < entries.len() ==> (#[trigger] texts@[k])@ == entries@[k].0@,
            kept.len() == src.len(),
            forall|a: int|
                0 <= a < src.len() ==> 0 <= #[trigger] src[a] < i && kept@[a] == entries@[src[a]]
                    && rank(m, names[src[a]]) < MAX_SESSIONS,
            forall|a: int, b: int| 0 <= a < b < src.len() ==> #[trigger] src[a] < #[trigger] src[b],
            forall|b: int|
                0 <= b < i && rank(m, #[trigger] names[b]) < MAX_SESSIONS ==> exists|a: int|
                    0 <= a < src.len() && src[a] == b,
        decreases entries.len() - i,
    {
        let ghost p = outranking(m, names[i as int]);
        let mut better: usize = 0;
        let mut j: usize = 0;
        while j < entries.len()
            invariant
                j <= entries.len(),
                i < entries.len(),
                better <= j,
                better == count_where(names.take(j as int), p),
                p == outranking(m, names[i as int]),
                names == entry_names(entries@),
                forall|k: int|
                    0 <= k < entries.len() ==> m.dom().contains((#[trigger] entries@[k]).0@)
                        && m[entries@[k].0@] == entries@[k].1,
                texts.len() == entries.len(),
                forall|k: int| 0 <= k < entries.len() ==> (#[trigger] texts@[k])@ == entries@[k].0@,
            decreases entries.len() - j,
        {
            assert(names.take(j + 1).drop_last() == names.take(j as int));
            assert(names.take(j + 1).last() == names[j as int]);
            let o = outranks_at(&entries, &texts, j, i);
            assert(o == p(names[j as int])) by {
                assert(names[j as int] == entries@[j as int].0@);
                assert(names[i as int] == entries@[i as int].0@);
            }
            if o {
                better = better + 1;
            }
            j = j + 1;
        }
        proof {
            assert(names.take(entries.len() as int) == names);
            lemma_count_where_set(names, p);
            assert(better == rank(m, names[i as int]));
        }
        let ghost old_src = src;
        if better < MAX_SESSIONS {
            let name = entries[i].0.clone();
            kept.push((name, entries[i].1));
            proof {
                src = src.push(i as int);
                assert(kept@[kept.len() - 1] == entries@[i as int]);
            }
        }
        proof {
            assert forall|b: int|
                0 <= b < i + 1 && rank(m, #[trigger] names[b]) < MAX_SESSIONS implies exists|a: int|
                0 <= a < src.len() && src[a] == b by {
                if b == i {
                    assert(src[src.len() - 1] == b);
                } else {
                    let a = choose|a: int| 0 <= a < old_src.len() && old_src[a] == b;
                    assert(src[a] == b);
                }
            }
        }
        i = i + 1;
    }
    proof {
        assert forall|a: int, b: int|
            0 <= a < b < kept@.len() implies #[trigger] kept@[a].0@ != #[trigger] kept@[b].0@ by {
            assert(src[a] < src[b]);
            assert(entries@[src[a]].0@ != entries@[src[b]].0@);
        }
        lemma_entries_map(kept@);
        let n = entries_map(kept@);
        let q = pruned(m);
        assert(m.dom().len() > MAX_SESSIONS);
        assert(q == m.filter_keys(among_latest(m)));
        assert forall|k: Seq<char>| n.dom().contains(k) <==> q.dom().contains(k) by {
            if n.dom().contains(k) {
                let a = choose|a: int| 0 <= a < kept@.len() && (#[trigger] kept@[a]).0@ == k;
                assert(names[src[a]] == entries@[src[a]].0@);
                assert(m.dom().contains(entries@[src[a]].0@));
            }
            if q.dom().contains(k) {
                assert(m.dom().contains(k));
                assert(names.to_set().contains(k));
                let b = choose|b: int| 0 <= b < names.len() && names[b] == k;
                assert(rank(m, names[b]) < MAX_SESSIONS);
                let a = choose|a: int| 0 <= a < src.len() && src[a] == b;
                assert(kept@[a].0@ == k);
            }
        }
        assert forall|k: Seq<char>| #[trigger] n.dom().contains(k) implies n[k] == q[k] by {
            let a = choose|a: int| 0 <= a < kept@.len() && (#[trigger] kept@[a]).0@ == k;
            assert(kept@[a] == entries@[src[a]]);
        }
        assert(n =~= q);
    }
    kept
}

/// The history line that records a visit of `name` at `t`.
pub open spec fn visit_line(name: Seq<char>, t: u128) -> Seq<char> {
    decimal(t as nat) + seq![' '] + encoded(name)
}

/// The visit a history line records: a timestamp and, after the first
/// space, the encoding of a non-empty name.
pub open spec fn line_visit(line: Seq<char>) -> Option<(Seq<char>, u128)> {
    let k = find_either(line, ' ', ' ');
    if k >= line.len() {
        None
    } else {
        match (parse_u128(line.take(k as int)), decoded(line.skip((k + 1) as int))) {
            (Some(t), Some(name)) => if name.len() > 0 {
                Some((name, t))
            } else {
                None
            },
            _ => None,
        }
    }
}

/// `m` after the visits recorded by `lines`, corrupt lines skipped.
pub open spec fn remember_all(m: Map<Seq<char>, u128>, lines: Seq<Seq<char>>) -> Map<
    Seq<char>,
    u128,
>
    decreases lines.len(),
{
    if lines.len() == 0 {
        m
    } else {
        let before = remember_all(m, lines.drop_last());
        match line_visit(lines.last()) {
            Some((name, t)) => remembered(before, name, t),
            None => before,
        }
    }
}

/// Reads the visit on one history line.
fn read_visit(line: &Vec<char>) -> (r: Option<(String, u128)>)
    ensures
        match line_visit(line@) {
            Some((name, t)) => r matches Some((s, u)) && s@ == name && u == t,
            None => r is None,
        },
{
    let k = find_char(line.as_slice(), ' ');
    if k >= line.len() {
        return None;
    }
    let head = sub_chars(line.as_slice(), 0, k);
    let tail = string_from_chars(sub_chars(line.as_slice(), k + 1, line.len()).as_slice());
    assert(head@ == line@.take(k as int));
    assert(tail@ == line@.skip(k + 1));
    let t = match parse_u128_chars(head.as_slice()) {
        Some(t) => t,
        None => {
            return None;
        },
    };
    let name = match decode(tail.as_str()) {
        Some(name) => name,
        None => {
            return None;
        },
    };
    if name.as_str().is_empty() {
        return None;
    }
    Some((name, t))
}

impl SessionUsage {
    /// Records a visit of `name` at `timestamp`, returning the history line
    /// that shares it with other instances.
    pub fn record(&mut self, name: &str, timestamp: u128) -> (line: String)
        ensures
            line@ == visit_line(name@, timestamp),
            final(self)@ == pruned(remembered(old(self)@, name@, timestamp)),
            old(self)@.dom().finite(),
            final(self)@.dom().finite(),
    {
        proof {
            use_type_invariant(&*self);
            lemma_entries_map_len(self.entries@);
        }
        proof {
            use_type_invariant(&*self);
        }
        let mut entries: Vec<(String, u128)> = Vec::new();
        std::mem::swap(&mut entries, &mut self.entries);
        let owned = string_from_chars(chars_of(name).as_slice());
        let entries = remember(entries, owned, timestamp);
        // Hex keeps arbitrary session names on one line and out of shell syntax.
        let encoded_name = encode(name);
        self.entries = prune(entries);
        proof {
            use_type_invariant(&*self);
            lemma_entries_map_len(self.entries@);
        }
        let mut line = String::new();
        push_decimal(&mut line, timestamp);
        push_char(&mut line, ' ');
        push_chars(&mut line, chars_of(encoded_name.as_str()).as_slice());
        line
    }

    /// Takes in the visits recorded by a history; unreadable lines are
    /// skipped.
    pub fn merge(&mut self, history: &str)
        ensures
            final(self)@ == pruned(remember_all(old(self)@, text_lines(history@))),
            old(self)@.dom().finite(),
            final(self)@.dom().finite(),
    {
        proof {
            use_type_invariant(&*self);
            lemma_entries_map_len(self.entries@);
        }
        proof {
            use_type_invariant(&*self);
        }
        let ghost start = self@;
        let mut entries: Vec<(String, u128)> = Vec::new();
        std::mem::swap(&mut entries, &mut self.entries);
        let lines = lines_of(chars_of(history).as_slice());
        let ghost rows = char_rows(lines@);
        let mut i: usize = 0;
        assert(rows.take(0) == Seq::<Seq<char>>::empty());
        while i < lines.len()
            invariant
                i <= lines.len(),
                rows == char_rows(lines@),
                names_distinct(entries@),
                entries_map(entries@) == remember_all(start, rows.take(i as int)),
            decreases lines.len() - i,
        {
            assert(rows.take(i + 1).drop_last() == rows.take(i as int));
            assert(rows.take(i + 1).last() == lines@[i as int]@);
            match read_visit(&lines[i]) {
                Some((name, t)) => {
                    entries = remember(entries, name, t);
                },
                None => {},
            }
            i = i + 1;
        }
        assert(rows.take(lines.len() as int) == rows);
        self.entries = prune(entries);
        proof {
            use_type_invariant(&*self);
            lemma_entries_map_len(self.entries@);
        }
    }

    /// The number of sessions with a recorded visit.
    pub fn len(&self) -> (n: usize)
        ensures
            n == self@.dom().len(),
            self@.dom().finite(),
    {
        proof {
            use_type_invariant(self);
            lemma_entries_map_len(self.entries@);
        }
        self.entries.len()
    }

    /// The last recorded visit of `name`.
    pub fn last_used(&self, name: &str) -> (r: Option<u128>)
        ensures
            r == last_visit(self@, name@),
            self@.dom().finite(),
    {
        proof {
            use_type_invariant(self);
            lemma_entries_map(self.entries@);
            lemma_entries_map_len(self.entries@);
        }
        match position(&self.entries, name) {
            Some(i) => Some(self.entries[i].1),
            None => {
                assert(!self@.dom().contains(name@)) by {
                    if self@.dom().contains(name@) {
                        let j = choose|j: int|
                            0 <= j < self.entries@.len() && (#[trigger] self.entries@[j]).0@
                                == name@;
                        assert(self.entries@[j].0@ != name@);
                    }
                }
                None
            },
        }
    }
}

impl Default for SessionUsage {
    fn default() -> (r: Self)
        ensures
            r@ == Map::<Seq<char>, u128>::empty(),
            r@.dom().finite(),
    {
        let r = SessionUsage { entries: Vec::new() };
        assert(entries_map(r.entries@) =~= Map::<Seq<char>, u128>::empty());
        r
    }
}

/// How two optional visits compare, no visit before any visit.
pub open spec fn visit_order(x: Option<u128>, y: Option<u128>) -> Ordering {
    match (x, y) {
        (None, None) => Ordering::Equal,
        (None, Some(_)) => Ordering::Less,
        (Some(_), None) => Ordering::Greater,
        (Some(p), Some(q)) => if p < q {
            Ordering::Less
        } else if p == q {
            Ordering::Equal
        } else {
            Ordering::Greater
        },
    }
}

/// How two names compare, by code point.
pub open spec fn name_order(a: Seq<char>, b: Seq<char>) -> Ordering {
    if a == b {
        Ordering::Equal
    } else if lex_lt(a, b) {
        Ordering::Less
    } else {
        Ordering::Greater
    }
}

/// The listing order of two sessions: the one visited last first, sessions
/// without a visit after all others, and names breaking ties.
pub open spec fn usage_order(m: Map<Seq<char>, u128>, a: Seq<char>, b: Seq<char>) -> Ordering {
    match visit_order(last_visit(m, b), last_visit(m, a)) {
        Ordering::Equal => name_order(a, b),
        other => other,
    }
}

/// `name_order` on strings.
fn names_ordered(a: &str, b: &str) -> (r: Ordering)
    ensures
        r == name_order(a@, b@),
{
    if str_eq(a, b) {
        Ordering::Equal
    } else if chars_lt(chars_of(a).as_slice(), chars_of(b).as_slice()) {
        Ordering::Less
    } else {
        Ordering::Greater
    }
}

impl SessionUsage {
    /// Most recently visited first; names make sessions without history
    /// stable.
    pub fn compare(&self, a: &str, b: &str) -> (r: Ordering)
        ensures
            r == usage_order(self@, a@, b@),
    {
        let by_visit = match (self.last_used(b), self.last_used(a)) {
            (None, None) => Ordering::Equal,
            (None, Some(_)) => Ordering::Less,
            (Some(_), None) => Ordering::Greater,
            (Some(p), Some(q)) => if p < q {
                Ordering::Less
            } else if p == q {
                Ordering::Equal
            } else {
                Ordering::Greater
            },
        };
        match by_visit {
            Ordering::Equal => names_ordered(a, b),
            other => other,
        }
    }
}

/// The line `record` returns reads back, in a merge anywhere, as exactly the
/// visit it recorded.
pub proof fn lemma_visit_line_reads_back(m: Map<Seq<char>, u128>, name: Seq<char>, t: u128)
    requires
        name.len() > 0,
    ensures
        text_lines(visit_line(name, t)) == seq![visit_line(name, t)],
        line_visit(visit_line(name, t)) == Some((name, t)),
        remember_all(m, text_lines(visit_line(name, t))) == remembered(m, name, t),
{
    let d = decimal(t as nat);
    let e = encoded(name);
    let line = visit_line(name, t);
    lemma_decimal_digits(t as nat);
    lemma_encoded_chars(name);
    lemma_parse_decimal(t);
    lemma_decode_encode_roundtrip(name);
    assert forall|i: int| 0 <= i < line.len() implies line[i] != '\n' by {
        if i < d.len() {
            assert(line[i] == d[i]);
            assert(is_digit(d[i]));
        } else if i > d.len() {
            assert(line[i] == e[i - d.len() - 1]);
        }
    }
    lemma_find_either(line, '\n', '\n', line.len());
    assert forall|i: int| 0 <= i < d.len() implies line[i] != ' ' by {
        assert(line[i] == d[i]);
        assert(is_digit(d[i]));
    }
    lemma_find_either(line, ' ', ' ', d.len());
    assert(line.take(d.len() as int) == d);
    assert(line.skip((d.len() + 1) as int) == e);
    let lines = seq![line];
    assert(lines.drop_last() == Seq::<Seq<char>>::empty());
    assert(lines.last() == line);
    assert(remember_all(m, lines.drop_last()) == m);
    assert(text_lines(line) == lines);
}

/// A visit no later than the one already known changes nothing, so stale
/// history lines are harmless.
pub proof fn lemma_stale_visit_changes_nothing(m: Map<Seq<char>, u128>, name: Seq<char>, t: u128)
    requires
        m.dom().contains(name),
        t <= m[name],
    ensures
        remembered(m, name, t) == m,
{
}

/// Visits may arrive in any order: two visits taken in either order give
/// the same result.
pub proof fn lemma_visits_commute(
    m: Map<Seq<char>, u128>,
    a: Seq<char>,
    s: u128,
    b: Seq<char>,
    t: u128,
)
    ensures
        remembered(remembered(m, a, s), b, t) == remembered(remembered(m, b, t), a, s),
{
    let x = remembered(remembered(m, a, s), b, t);
    let y = remembered(remembered(m, b, t), a, s);
    assert(x =~= y);
}

/// Merging a history never forgets a session and never moves a visit back
/// in time.
pub proof fn lemma_merge_only_advances(m: Map<Seq<char>, u128>, lines: Seq<Seq<char>>)
    ensures
        forall|k: Seq<char>|
            #![trigger remember_all(m, lines).dom().contains(k)]
            m.dom().contains(k) ==> remember_all(m, lines).dom().contains(k) && remember_all(
                m,
                lines,
            )[k] >= m[k],
    decreases lines.len(),
{
    if lines.len() > 0 {
        lemma_merge_only_advances(m, lines.drop_last());
        let before = remember_all(m, lines.drop_last());
        assert forall|k: Seq<char>| m.dom().contains(k) implies remember_all(
            m,
            lines,
        ).dom().contains(k) && remember_all(m, lines)[k] >= m[k] by {
            assert(before.dom().contains(k));
        }
    }
}

/// `outranks` is a strict total order on names.
pub proof fn lemma_outranks_order(m: Map<Seq<char>, u128>, a: Seq<char>, b: Seq<char>, c: Seq<char>)
    ensures
        !outranks(m, a, a),
        a != b ==> (outranks(m, a, b) || outranks(m, b, a)),
        !(outranks(m, a, b) && outranks(m, b, a)),
        outranks(m, a, b) && outranks(m, b, c) ==> outranks(m, a, c),
{
    lemma_lex_lt_irreflexive(a, 0);
    lemma_lex_lt_asymmetric(a, b, 0);
    if a != b {
        assert(a.skip(0) == a && b.skip(0) == b);
        lemma_lex_lt_total(a, b, 0);
    }
    if lex_lt(a, b) && lex_lt(b, c) {
        lemma_lex_lt_transitive(a, b, c, 0);
    }
}

/// A session that outranks another has a smaller rank.
proof fn lemma_rank_strict(m: Map<Seq<char>, u128>, j: Seq<char>, k: Seq<char>)
    requires
        m.dom().finite(),
        m.dom().contains(j),
        outranks(m, j, k),
    ensures
        rank(m, j) < rank(m, k),
{
    broadcast use vstd::set::group_set_axioms;

    let above_j = m.dom().filter(outranking(m, j));
    let above_k = m.dom().filter(outranking(m, k));
    assert forall|x: Seq<char>| above_j.contains(x) implies above_k.contains(x) by {
        lemma_outranks_order(m, x, j, k);
    }
    lemma_outranks_order(m, j, j, k);
    vstd::set_lib::lemma_len_subset(above_k, m.dom());
    vstd::set_lib::lemma_len_subset(above_j.insert(j), above_k);
    vstd::set_lib::lemma_len_subset(above_j, m.dom());
}

/// Pruning keeps sessions visited after every session it drops.
pub proof fn lemma_pruned_keeps_the_latest(m: Map<Seq<char>, u128>, kept: Seq<char>, dropped: Seq<
    char,
>)
    requires
        m.dom().finite(),
        pruned(m).dom().contains(kept),
        m.dom().contains(dropped),
        !pruned(m).dom().contains(dropped),
    ensures
        outranks(m, kept, dropped),
        m[kept] >= m[dropped],
{
    assert(m.dom().len() > MAX_SESSIONS);
    assert(rank(m, kept) < MAX_SESSIONS);
    assert(rank(m, dropped) >= MAX_SESSIONS);
    lemma_outranks_order(m, kept, dropped, kept);
    if !outranks(m, kept, dropped) {
        lemma_rank_strict(m, dropped, kept);
    }
}

/// Pruning keeps at most `MAX_SESSIONS` sessions, each with its visit.
pub proof fn lemma_pruned_bounded(m: Map<Seq<char>, u128>)
    requires
        m.dom().finite(),
    ensures
        pruned(m).dom().len() <= MAX_SESSIONS,
        pruned(m).dom().finite(),
        forall|k: Seq<char>| #[trigger] pruned(m).dom().contains(k) ==> m.dom().contains(k) && pruned(m)[k] == m[k],
{
    if m.dom().len() > MAX_SESSIONS {
        let kept = pruned(m).dom();
        assert(kept == m.dom().filter(among_latest(m)));
        vstd::set_lib::lemma_len_subset(kept, m.dom());
        let f = |k: Seq<char>| rank(m, k) as int;
        assert forall|x: Seq<char>, y: Seq<char>|
            kept.contains(x) && kept.contains(y) && #[trigger] f(x) == #[trigger] f(y) implies x == y by {
            if x != y {
                lemma_outranks_order(m, x, y, x);
                if outranks(m, x, y) {
                    lemma_rank_strict(m, x, y);
                } else {
                    lemma_rank_strict(m, y, x);
                }
            }
        }
        vstd::set_lib::lemma_map_size(kept, kept.map(f), f);
        vstd::set_lib::lemma_int_range(0, MAX_SESSIONS as int);
        assert forall|r: int| kept.map(f).contains(r) implies vstd::set_lib::set_int_range(
            0,
            MAX_SESSIONS as int,
        ).contains(r) by {
            let k = choose|k: Seq<char>| kept.contains(k) && f(k) == r;
        }
        vstd::set_lib::lemma_len_subset(kept.map(f), vstd::set_lib::set_int_range(0, MAX_SESSIONS as int));
    }
}

/// The listing order is a strict total order on names, whatever the visits.
pub proof fn lemma_usage_order_total(m: Map<Seq<char>, u128>, a: Seq<char>, b: Seq<char>, c: Seq<char>)
    ensures
        usage_order(m, a, b) == Ordering::Equal <==> a == b,
        usage_order(m, a, b) == Ordering::Less <==> usage_order(m, b, a) == Ordering::Greater,
        usage_order(m, a, b) == Ordering::Less && usage_order(m, b, c) == Ordering::Less
            ==> usage_order(m, a, c) == Ordering::Less,
{
    lemma_lex_lt_irreflexive(a, 0);
    lemma_lex_lt_asymmetric(a, b, 0);
    if a != b {
        assert(a.skip(0) == a && b.skip(0) == b);
        lemma_lex_lt_total(a, b, 0);
    }
    if lex_lt(a, b) && lex_lt(b, c) {
        lemma_lex_lt_transitive(a, b, c, 0);
    }
}


/// The names of the readable visits of `lines`.
pub open spec fn visit_names(lines: Seq<Seq<char>>) -> Set<Seq<char>>
    decreases lines.len(),
{
    if lines.len() == 0 {
        Set::empty()
    } else {
        match line_visit(lines.last()) {
            Some((name, _)) => visit_names(lines.drop_last()).insert(name),
            None => visit_names(lines.drop_last()),
        }
    }
}

/// Whether `m` already knows every readable visit of `lines`, at that time
/// or later.
pub open spec fn knows_all(m: Map<Seq<char>, u128>, lines: Seq<Seq<char>>) -> bool {
    forall|q: int|
        0 <= q < lines.len() ==> match #[trigger] line_visit(lines[q]) {
            Some((name, t)) => m.dom().contains(name) && m[name] >= t,
            None => true,
        }
}

/// One visit may be taken before or after a whole history.
proof fn lemma_visit_commutes_with_lines(
    m: Map<Seq<char>, u128>,
    name: Seq<char>,
    t: u128,
    lines: Seq<Seq<char>>,
)
    ensures
        remember_all(remembered(m, name, t), lines) == remembered(remember_all(m, lines), name, t),
    decreases lines.len(),
{
    if lines.len() > 0 {
        lemma_visit_commutes_with_lines(m, name, t, lines.drop_last());
        if let Some((n, u)) = line_visit(lines.last()) {
            lemma_visits_commute(remember_all(m, lines.drop_last()), name, t, n, u);
        }
    }
}

/// Two histories merged in either order give the same visits.
proof fn lemma_histories_commute(m: Map<Seq<char>, u128>, a: Seq<Seq<char>>, b: Seq<Seq<char>>)
    ensures
        remember_all(remember_all(m, a), b) == remember_all(remember_all(m, b), a),
    decreases a.len(),
{
    if a.len() > 0 {
        lemma_histories_commute(m, a.drop_last(), b);
        if let Some((n, u)) = line_visit(a.last()) {
            lemma_visit_commutes_with_lines(remember_all(m, a.drop_last()), n, u, b);
        }
    }
}

/// A history whose visits are all known changes nothing.
proof fn lemma_known_history_changes_nothing(m: Map<Seq<char>, u128>, lines: Seq<Seq<char>>)
    requires
        knows_all(m, lines),
    ensures
        remember_all(m, lines) == m,
    decreases lines.len(),
{
    if lines.len() > 0 {
        let rest = lines.drop_last();
        assert forall|q: int| 0 <= q < rest.len() implies match #[trigger] line_visit(rest[q]) {
            Some((name, t)) => m.dom().contains(name) && m[name] >= t,
            None => true,
        } by {
            assert(rest[q] == lines[q]);
        }
        lemma_known_history_changes_nothing(m, rest);
        assert(line_visit(lines[lines.len() - 1]) == line_visit(lines.last()));
    }
}

/// After a history, every one of its visits is known; so are the names
/// known before, and no others.
proof fn lemma_history_known(m: Map<Seq<char>, u128>, lines: Seq<Seq<char>>)
    ensures
        knows_all(remember_all(m, lines), lines),
        remember_all(m, lines).dom() == m.dom() + visit_names(lines),
        visit_names(lines).finite(),
    decreases lines.len(),
{
    if lines.len() > 0 {
        let rest = lines.drop_last();
        lemma_history_known(m, rest);
        let before = remember_all(m, rest);
        let after = remember_all(m, lines);
        assert forall|q: int| 0 <= q < lines.len() implies match #[trigger] line_visit(lines[q]) {
            Some((name, t)) => after.dom().contains(name) && after[name] >= t,
            None => true,
        } by {
            if q < rest.len() {
                assert(rest[q] == lines[q]);
                assert(match line_visit(rest[q]) {
                    Some((name, t)) => before.dom().contains(name) && before[name] >= t,
                    None => true,
                });
            } else {
                assert(lines[q] == lines.last());
            }
        }
        assert(after.dom() =~= m.dom() + visit_names(lines));
    }
}

/// Merging the same history twice gives what merging it once gives.
pub proof fn lemma_merge_twice_is_merge_once(m: Map<Seq<char>, u128>, history: Seq<char>)
    requires
        m.dom().finite(),
        (m.dom() + visit_names(text_lines(history))).len() <= MAX_SESSIONS,
    ensures
        pruned(remember_all(pruned(remember_all(m, text_lines(history))), text_lines(history)))
            == pruned(remember_all(m, text_lines(history))),
{
    let lines = text_lines(history);
    lemma_history_known(m, lines);
    let once = remember_all(m, lines);
    assert(pruned(once) == once);
    lemma_known_history_changes_nothing(once, lines);
}

/// While the sessions involved fit the history, two histories merged in
/// either order leave the same visits, each session at the latest of its
/// visits, and merging never holds more than `MAX_SESSIONS` sessions.
pub proof fn lemma_merges_commute(m: Map<Seq<char>, u128>, a: Seq<char>, b: Seq<char>)
    requires
        m.dom().finite(),
        (m.dom() + visit_names(text_lines(a)) + visit_names(text_lines(b))).len() <= MAX_SESSIONS,
    ensures
        pruned(remember_all(pruned(remember_all(m, text_lines(a))), text_lines(b))) == pruned(
            remember_all(pruned(remember_all(m, text_lines(b))), text_lines(a)),
        ),
        pruned(remember_all(pruned(remember_all(m, text_lines(a))), text_lines(b))) == remember_all(
            m,
            text_lines(a) + text_lines(b),
        ),
        pruned(remember_all(pruned(remember_all(m, text_lines(a))), text_lines(b))).dom().len()
            <= MAX_SESSIONS,
{
    let la = text_lines(a);
    let lb = text_lines(b);
    let all = m.dom() + visit_names(la) + visit_names(lb);
    lemma_history_known(m, la);
    lemma_history_known(m, lb);
    let ma = remember_all(m, la);
    let mb = remember_all(m, lb);
    vstd::set_lib::lemma_len_subset(ma.dom(), all);
    vstd::set_lib::lemma_len_subset(mb.dom(), all);
    assert(pruned(ma) == ma);
    assert(pruned(mb) == mb);
    lemma_history_known(ma, lb);
    lemma_history_known(mb, la);
    let mab = remember_all(ma, lb);
    let mba = remember_all(mb, la);
    assert(mab.dom() =~= all);
    assert(mba.dom() =~= m.dom() + visit_names(lb) + visit_names(la));
    vstd::set_lib::lemma_len_subset(mab.dom(), all);
    vstd::set_lib::lemma_len_subset(mba.dom(), all);
    lemma_histories_commute(m, la, lb);
    lemma_remember_all_concat(m, la, lb);
}

/// A history in two parts is merged part after part.
proof fn lemma_remember_all_concat(m: Map<Seq<char>, u128>, a: Seq<Seq<char>>, b: Seq<Seq<char>>)
    ensures
        remember_all(m, a + b) == remember_all(remember_all(m, a), b),
    decreases b.len(),
{
    if b.len() == 0 {
        assert(a + b == a);
    } else {
        lemma_remember_all_concat(m, a, b.drop_last());
        assert((a + b).drop_last() == a + b.drop_last());
        assert((a + b).last() == b.last());
    }
}

/// Recording a visit while fewer than `MAX_SESSIONS` sessions are known
/// forgets nothing: the session keeps the later of its visits, every other
/// session keeps its own, and the line `record` returns, merged into an
/// empty history, gives back exactly that one visit.
pub proof fn lemma_record_keeps_others(m: Map<Seq<char>, u128>, name: Seq<char>, t: u128)
    requires
        m.dom().finite(),
        m.dom().len() < MAX_SESSIONS,
        name.len() > 0,
    ensures
        pruned(remembered(m, name, t)).dom() == m.dom().insert(name),
        pruned(remembered(m, name, t))[name] == (if m.dom().contains(name) && m[name] >= t {
            m[name]
        } else {
            t
        }),
        forall|k: Seq<char>|
            k != name && #[trigger] m.dom().contains(k) ==> pruned(remembered(m, name, t))[k] == m[k],
        pruned(remember_all(Map::empty(), text_lines(visit_line(name, t)))) == Map::<
            Seq<char>,
            u128,
        >::empty().insert(name, t),
{
    let r = remembered(m, name, t);
    assert(r.dom() =~= m.dom().insert(name));
    assert(r.dom().len() <= m.dom().len() + 1);
    assert(pruned(r) == r);
    lemma_visit_line_reads_back(Map::empty(), name, t);
    let one = Map::<Seq<char>, u128>::empty().insert(name, t);
    assert(remembered(Map::empty(), name, t) == one);
    assert(one.dom() =~= Set::<Seq<char>>::empty().insert(name));
    assert(one.dom().len() == 1);
}

} // verus!
