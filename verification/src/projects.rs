//! Persistent project pins and explicit session-directory associations.
//!
//! Timestamped unpin/clear records are retained so late command responses
//! cannot bring back a removed pin or a previous directory association.
//!
//! A record line is `<timestamp> <encoded key> <encoded value>`; the keys are
//! `pin:<path>` with value `1` or `0`, and `session:<name>` with a directory
//! (empty when the association was cleared). Per key the record written last
//! wins; ties go to the larger encoded value, as the host compactor does.

use vstd::prelude::*;
use crate::records::{decode, decoded, encode, encoded, lemma_decode_encode_roundtrip, lemma_encoded_chars};
use crate::session_name::str_eq;
use crate::strings::{
    char_rows, chars_equal, chars_lt, chars_of, decimal, has_prefix, is_digit, lemma_decimal_digits,
    lemma_find_either, lemma_lex_lt_asymmetric, lemma_lex_lt_irreflexive, lemma_lex_lt_total,
    lemma_lex_lt_transitive, lemma_parse_decimal, lex_lt, lex_lt_from, lines_of, parse_u128,
    parse_u128_chars, push_char, push_chars, push_decimal, starts_with, string_from_chars,
    text_lines, white_space, white_space_fields, white_space_pieces, white_space_split,
    find_white_space, lemma_find_white_space, non_empty, find_either, sub_chars,
};

verus! {

broadcast use vstd::string::group_string_axioms;

/// Pins and session directories, each with the time it was written.
pub struct Projects {
    records: Vec<(String, (u128, String))>,
}

/// Keys in strictly increasing order, as a sorted map keeps them.
pub open spec fn keys_sorted(rs: Seq<(String, (u128, String))>) -> bool {
    forall|i: int, j: int| #![trigger rs[i], rs[j]] 0 <= i < j < rs.len() ==> lex_lt(rs[i].0@, rs[j].0@)
}

/// The value of a stored record.
pub open spec fn stored(e: (String, (u128, String))) -> (u128, Seq<char>) {
    (e.1.0, e.1.1@)
}

/// The records held by `rs`, by key.
pub open spec fn records_map(rs: Seq<(String, (u128, String))>) -> Map<Seq<char>, (u128, Seq<char>)> {
    Map::new(
        |k: Seq<char>| exists|i: int| 0 <= i < rs.len() && (#[trigger] rs[i]).0@ == k,
        |k: Seq<char>| stored(rs[choose|i: int| 0 <= i < rs.len() && (#[trigger] rs[i]).0@ == k]),
    )
}

impl View for Projects {
    type V = Map<Seq<char>, (u128, Seq<char>)>;

    closed spec fn view(&self) -> Map<Seq<char>, (u128, Seq<char>)> {
        records_map(self.records@)
    }
}

impl Projects {
    #[verifier::type_invariant]
    spec fn well_formed(self) -> bool {
        keys_sorted(self.records@)
    }
}

/// `pin:`
pub open spec fn pin_prefix() -> Seq<char> {
    seq!['p', 'i', 'n', ':']
}

/// `session:`
pub open spec fn session_prefix() -> Seq<char> {
    seq!['s', 'e', 's', 's', 'i', 'o', 'n', ':']
}

/// The key of the pin of `path`.
pub open spec fn pin_key(path: Seq<char>) -> Seq<char> {
    pin_prefix() + path
}

/// The key of the directory of `session`.
pub open spec fn session_key(session: Seq<char>) -> Seq<char> {
    session_prefix() + session
}

/// The value of a pin record.
pub open spec fn pin_value(pinned: bool) -> Seq<char> {
    if pinned {
        seq!['1']
    } else {
        seq!['0']
    }
}

/// Whether a record of `key` with `value` belongs in the store: a pin set
/// to `0` or `1`, or a session directory.
pub open spec fn accepted(key: Seq<char>, value: Seq<char>) -> bool {
    (starts_with(key, pin_prefix()) && (value == seq!['0'] || value == seq!['1'])) || starts_with(
        key,
        session_prefix(),
    )
}

/// The record a line holds: three white-space separated fields, a
/// timestamp and two encoded texts forming an accepted record.
pub open spec fn line_record(line: Seq<char>) -> Option<(Seq<char>, (u128, Seq<char>))> {
    let f = white_space_fields(line);
    if f.len() != 3 {
        None
    } else {
        match (parse_u128(f[0]), decoded(f[1]), decoded(f[2])) {
            (Some(t), Some(k), Some(v)) => if accepted(k, v) {
                Some((k, (t, v)))
            } else {
                None
            },
            _ => None,
        }
    }
}

/// `a` replaces `b`: it was written later, or at the same time with a
/// larger encoded value.
pub open spec fn supersedes(a: (u128, Seq<char>), b: (u128, Seq<char>)) -> bool {
    a.0 > b.0 || (a.0 == b.0 && lex_lt(encoded(b.1), encoded(a.1)))
}

/// The record of `key`, or the empty record written at time zero.
pub open spec fn current(m: Map<Seq<char>, (u128, Seq<char>)>, key: Seq<char>) -> (u128, Seq<char>) {
    if m.dom().contains(key) {
        m[key]
    } else {
        (0, Seq::empty())
    }
}

/// The newer of two records.
pub open spec fn newer(a: (u128, Seq<char>), b: (u128, Seq<char>)) -> (u128, Seq<char>) {
    if supersedes(a, b) {
        a
    } else {
        b
    }
}

/// `m` after a record `r` of `key` arrives.
pub open spec fn applied(m: Map<Seq<char>, (u128, Seq<char>)>, key: Seq<char>, r: (u128, Seq<char>)) -> Map<
    Seq<char>,
    (u128, Seq<char>),
> {
    m.insert(key, newer(r, current(m, key)))
}

/// `m` after the records of `lines` arrive, unreadable lines skipped.
pub open spec fn apply_lines(m: Map<Seq<char>, (u128, Seq<char>)>, lines: Seq<Seq<char>>) -> Map<
    Seq<char>,
    (u128, Seq<char>),
>
    decreases lines.len(),
{
    if lines.len() == 0 {
        m
    } else {
        let before = apply_lines(m, lines.drop_last());
        match line_record(lines.last()) {
            Some((k, r)) => applied(before, k, r),
            None => before,
        }
    }
}

/// The line recording `value` for `key` at `t`.
pub open spec fn record_line(t: u128, key: Seq<char>, value: Seq<char>) -> Seq<char> {
    decimal(t as nat) + seq![' '] + encoded(key) + seq![' '] + encoded(value)
}

/// The timestamp a new record of `key` gets: `now`, but always after the
/// record it replaces.
pub open spec fn next_stamp(m: Map<Seq<char>, (u128, Seq<char>)>, key: Seq<char>, now: u128) -> u128 {
    if m.dom().contains(key) {
        let bumped = if m[key].0 == u128::MAX {
            u128::MAX
        } else {
            (m[key].0 + 1) as u128
        };
        if now >= bumped {
            now
        } else {
            bumped
        }
    } else {
        now
    }
}

/// Whether `path` is pinned in `m`.
pub open spec fn pinned_in(m: Map<Seq<char>, (u128, Seq<char>)>, path: Seq<char>) -> bool {
    m.dom().contains(pin_key(path)) && m[pin_key(path)].1 == seq!['1']
}

/// The directory associated with `session` in `m`, if it is not cleared.
pub open spec fn directory_in(m: Map<Seq<char>, (u128, Seq<char>)>, session: Seq<char>) -> Option<
    Seq<char>,
> {
    if m.dom().contains(session_key(session)) && m[session_key(session)].1.len() > 0 {
        Some(m[session_key(session)].1)
    } else {
        None
    }
}

/// Every record of sorted `rs` is found under its key.
proof fn lemma_records_map(rs: Seq<(String, (u128, String))>)
    requires
        keys_sorted(rs),
    ensures
        forall|i: int|
            0 <= i < rs.len() ==> records_map(rs).dom().contains((#[trigger] rs[i]).0@)
                && records_map(rs)[rs[i].0@] == stored(rs[i]),
{
    assert forall|i: int| 0 <= i < rs.len() implies records_map(rs).dom().contains(
        (#[trigger] rs[i]).0@,
    ) && records_map(rs)[rs[i].0@] == stored(rs[i]) by {
        let k = rs[i].0@;
        let j = choose|j: int| 0 <= j < rs.len() && (#[trigger] rs[j]).0@ == k;
        lemma_lex_lt_irreflexive(k, 0);
        if j < i {
            assert(lex_lt(rs[j].0@, rs[i].0@));
        } else if i < j {
            assert(lex_lt(rs[i].0@, rs[j].0@));
        }
    }
}

/// Inserting a record where its key belongs keeps the keys sorted and adds
/// the record to the map.
proof fn lemma_insert_sorted(rs: Seq<(String, (u128, String))>, p: int, e: (String, (u128, String)))
    requires
        keys_sorted(rs),
        0 <= p <= rs.len(),
        forall|i: int| 0 <= i < p ==> lex_lt((#[trigger] rs[i]).0@, e.0@),
        p < rs.len() ==> lex_lt(e.0@, rs[p].0@),
    ensures
        keys_sorted(rs.insert(p, e)),
        records_map(rs.insert(p, e)) == records_map(rs).insert(e.0@, stored(e)),
{
    let ns = rs.insert(p, e);
    assert forall|i: int, j: int| 0 <= i < j < ns.len() implies lex_lt(
        (#[trigger] ns[i]).0@,
        (#[trigger] ns[j]).0@,
    ) by {
        if j < p {
            assert(ns[i] == rs[i] && ns[j] == rs[j]);
        } else if j == p {
            assert(ns[i] == rs[i]);
        } else if i < p {
            assert(ns[i] == rs[i] && ns[j] == rs[j - 1]);
            if j - 1 > i {
                assert(lex_lt(rs[i].0@, rs[j - 1].0@));
            }
        } else if i == p {
            assert(ns[j] == rs[j - 1]);
            if j - 1 > p {
                assert(lex_lt(rs[p].0@, rs[j - 1].0@));
                lemma_lex_lt_transitive(e.0@, rs[p].0@, rs[j - 1].0@, 0);
            }
        } else {
            assert(ns[i] == rs[i - 1] && ns[j] == rs[j - 1]);
        }
    }
    lemma_records_map(rs);
    lemma_records_map(ns);
    let m = records_map(rs);
    let n = records_map(ns);
    let q = m.insert(e.0@, stored(e));
    assert forall|k: Seq<char>| n.dom().contains(k) <==> q.dom().contains(k) by {
        if k == e.0@ {
            assert(ns[p] == e);
        }
        if n.dom().contains(k) {
            let j = choose|j: int| 0 <= j < ns.len() && (#[trigger] ns[j]).0@ == k;
            if j < p {
                assert(ns[j] == rs[j]);
            } else if j > p {
                assert(ns[j] == rs[j - 1]);
            }
        }
        if m.dom().contains(k) {
            let j = choose|j: int| 0 <= j < rs.len() && (#[trigger] rs[j]).0@ == k;
            if j < p {
                assert(ns[j] == rs[j]);
            } else {
                assert(ns[j + 1] == rs[j]);
            }
        }
    }
    assert forall|k: Seq<char>| #[trigger] n.dom().contains(k) implies n[k] == q[k] by {
        let j = choose|j: int| 0 <= j < ns.len() && (#[trigger] ns[j]).0@ == k;
        if j < p {
            assert(ns[j] == rs[j]);
            lemma_lex_lt_irreflexive(k, 0);
        } else if j > p {
            assert(ns[j] == rs[j - 1]);
            lemma_lex_lt_irreflexive(k, 0);
            if j - 1 > p {
                assert(lex_lt(rs[p].0@, rs[j - 1].0@));
                lemma_lex_lt_transitive(e.0@, rs[p].0@, rs[j - 1].0@, 0);
            }
        }
    }
    assert(n =~= q);
}

/// Replacing a record by one of the same key keeps the keys sorted and
/// replaces the record in the map.
proof fn lemma_update_sorted(rs: Seq<(String, (u128, String))>, p: int, e: (String, (u128, String)))
    requires
        keys_sorted(rs),
        0 <= p < rs.len(),
        rs[p].0@ == e.0@,
    ensures
        keys_sorted(rs.update(p, e)),
        records_map(rs.update(p, e)) == records_map(rs).insert(e.0@, stored(e)),
{
    let ns = rs.update(p, e);
    assert forall|i: int, j: int| 0 <= i < j < ns.len() implies lex_lt(
        (#[trigger] ns[i]).0@,
        (#[trigger] ns[j]).0@,
    ) by {
        assert(lex_lt(rs[i].0@, rs[j].0@));
    }
    lemma_records_map(rs);
    lemma_records_map(ns);
    let m = records_map(rs);
    let n = records_map(ns);
    let q = m.insert(e.0@, stored(e));
    assert forall|k: Seq<char>| n.dom().contains(k) <==> q.dom().contains(k) by {
        if k == e.0@ {
            assert(ns[p] == e);
        }
        if n.dom().contains(k) {
            let j = choose|j: int| 0 <= j < ns.len() && (#[trigger] ns[j]).0@ == k;
            if j != p {
                assert(ns[j] == rs[j]);
            }
        }
        if m.dom().contains(k) {
            let j = choose|j: int| 0 <= j < rs.len() && (#[trigger] rs[j]).0@ == k;
            if j != p {
                assert(ns[j] == rs[j]);
            }
        }
    }
    assert forall|k: Seq<char>| #[trigger] n.dom().contains(k) implies n[k] == q[k] by {
        let j = choose|j: int| 0 <= j < ns.len() && (#[trigger] ns[j]).0@ == k;
        if j != p {
            assert(ns[j] == rs[j]);
        }
    }
    assert(n =~= q);
}

/// Where `key` is, or belongs, among sorted records, and whether it is there.
fn locate(records: &Vec<(String, (u128, String))>, key: &[char]) -> (r: (usize, bool))
    requires
        keys_sorted(records@),
    ensures
        r.0 <= records.len(),
        forall|i: int| 0 <= i < r.0 ==> lex_lt((#[trigger] records@[i]).0@, key@),
        r.1 ==> r.0 < records.len() && records@[r.0 as int].0@ == key@,
        !r.1 ==> r.0 == records.len() || lex_lt(key@, records@[r.0 as int].0@),
        r.1 == records_map(records@).dom().contains(key@),
{
    let mut p: usize = 0;
    while p < records.len() && chars_lt(chars_of(records[p].0.as_str()).as_slice(), key)
        invariant
            p <= records.len(),
            forall|i: int| 0 <= i < p ==> lex_lt((#[trigger] records@[i]).0@, key@),
        decreases records.len() - p,
    {
        p = p + 1;
    }
    proof {
        lemma_records_map(records@);
    }
    if p < records.len() {
        let here = chars_of(records[p].0.as_str());
        if chars_equal(here.as_slice(), key) {
            return (p, true);
        }
        proof {
            assert(records@[p as int].0@.skip(0) == records@[p as int].0@ && key@.skip(0) == key@);
            lemma_lex_lt_total(records@[p as int].0@, key@, 0);
        }
    }
    proof {
        let m = records_map(records@);
        if m.dom().contains(key@) {
            let j = choose|j: int| 0 <= j < records.len() && (#[trigger] records@[j]).0@ == key@;
            lemma_lex_lt_irreflexive(key@, 0);
            if j >= p {
                if j > p {
                    assert(lex_lt(records@[p as int].0@, records@[j].0@));
                    lemma_lex_lt_transitive(key@, records@[p as int].0@, records@[j].0@, 0);
                }
            }
        }
    }
    (p, false)
}

/// Whether the record `(t, value)` replaces `(t0, value0)`.
fn supersedes_record(t: u128, value: &String, t0: u128, value0: &String) -> (r: bool)
    ensures
        r == supersedes((t, value@), (t0, value0@)),
{
    if t > t0 {
        true
    } else if t < t0 {
        false
    } else {
        let a = encode(value0.as_str());
        let b = encode(value.as_str());
        chars_lt(chars_of(a.as_str()).as_slice(), chars_of(b.as_str()).as_slice())
    }
}

/// `records` after the record `(t, value)` of `key` arrives.
fn apply_record(records: Vec<(String, (u128, String))>, key: String, t: u128, value: String) -> (r:
    Vec<(String, (u128, String))>)
    requires
        keys_sorted(records@),
    ensures
        keys_sorted(r@),
        records_map(r@) == applied(records_map(records@), key@, (t, value@)),
{
    let mut records = records;
    proof {
        lemma_records_map(records@);
    }
    let kc = chars_of(key.as_str());
    let (p, found) = locate(&records, kc.as_slice());
    let t0: u128 = if found {
        records[p].1.0
    } else {
        0
    };
    let v0: String = if found {
        records[p].1.1.clone()
    } else {
        String::new()
    };
    let ghost m = records_map(records@);
    assert((t0, v0@) == current(m, key@));
    let wins = supersedes_record(t, &value, t0, &v0);
    let chosen = if wins {
        (t, value)
    } else {
        (t0, v0)
    };
    let ghost old_records = records@;
    if found {
        proof {
            lemma_update_sorted(old_records, p as int, (key, chosen));
        }
        records.set(p, (key, chosen));
    } else {
        proof {
            lemma_insert_sorted(old_records, p as int, (key, chosen));
        }
        records.insert(p, (key, chosen));
    }
    records
}

/// `s` as a vector of characters, with `prefix` in front.
fn prefixed(prefix: &[char], s: &str) -> (r: Vec<char>)
    ensures
        r@ == prefix@ + s@,
{
    let mut r: Vec<char> = Vec::new();
    let mut i: usize = 0;
    while i < prefix.len()
        invariant
            i <= prefix.len(),
            r@ == prefix@.take(i as int),
        decreases prefix.len() - i,
    {
        r.push(prefix[i]);
        i = i + 1;
    }
    assert(prefix@.take(prefix.len() as int) == prefix@);
    let cs = chars_of(s);
    let mut j: usize = 0;
    while j < cs.len()
        invariant
            j <= cs.len(),
            r@ == prefix@ + cs@.take(j as int),
        decreases cs.len() - j,
    {
        r.push(cs[j]);
        j = j + 1;
    }
    assert(cs@.take(cs.len() as int) == cs@);
    r
}

/// The characters of `pin:`.
fn pin_prefix_chars() -> (r: Vec<char>)
    ensures
        r@ == pin_prefix(),
{
    let mut r: Vec<char> = Vec::new();
    r.push('p');
    r.push('i');
    r.push('n');
    r.push(':');
    assert(r@ == pin_prefix());
    r
}

/// The characters of `session:`.
fn session_prefix_chars() -> (r: Vec<char>)
    ensures
        r@ == session_prefix(),
{
    let mut r: Vec<char> = Vec::new();
    r.push('s');
    r.push('e');
    r.push('s');
    r.push('s');
    r.push('i');
    r.push('o');
    r.push('n');
    r.push(':');
    assert(r@ == session_prefix());
    r
}

/// Whether `value` is the one-character text `c`.
fn is_single(value: &str, c: char) -> (r: bool)
    ensures
        r == (value@ == seq![c]),
{
    let cs = chars_of(value);
    let r = cs.len() == 1 && cs[0] == c;
    if r {
        assert(cs@ == seq![c]);
    }
    r
}

/// Whether a record of `key` with `value` belongs in the store.
fn is_accepted(key: &str, value: &str) -> (r: bool)
    ensures
        r == accepted(key@, value@),
{
    let kc = chars_of(key);
    let pin = pin_prefix_chars();
    let session = session_prefix_chars();
    assert(pin@.take(4) == pin@);
    assert(session@.take(8) == session@);
    let is_pin = has_prefix(kc.as_slice(), pin.as_slice(), 4);
    let is_session = has_prefix(kc.as_slice(), session.as_slice(), 8);
    (is_pin && (is_single(value, '0') || is_single(value, '1'))) || is_session
}

/// Reads the record on one line.
fn read_record(line: &Vec<char>) -> (r: Option<(String, u128, String)>)
    ensures
        match line_record(line@) {
            Some((k, (t, v))) => r matches Some((ks, u, vs)) && ks@ == k && u == t && vs@ == v,
            None => r is None,
        },
{
    let fields = white_space_split(line.as_slice());
    if fields.len() != 3 {
        return None;
    }
    assert(fields@[0]@ == white_space_fields(line@)[0]);
    assert(fields@[1]@ == white_space_fields(line@)[1]);
    assert(fields@[2]@ == white_space_fields(line@)[2]);
    let t = match parse_u128_chars(fields[0].as_slice()) {
        Some(t) => t,
        None => {
            return None;
        },
    };
    let key = match decode(string_from_chars(fields[1].as_slice()).as_str()) {
        Some(k) => k,
        None => {
            return None;
        },
    };
    let value = match decode(string_from_chars(fields[2].as_slice()).as_str()) {
        Some(v) => v,
        None => {
            return None;
        },
    };
    if !is_accepted(key.as_str(), value.as_str()) {
        return None;
    }
    Some((key, t, value))
}

/// A text without white space is one piece.
proof fn lemma_single_piece(x: Seq<char>)
    requires
        forall|i: int| 0 <= i < x.len() ==> !white_space(#[trigger] x[i]),
    ensures
        white_space_pieces(x) == seq![x],
{
    lemma_find_white_space(x, x.len());
}

/// `x`, a space and `rest` split into `x` and the pieces of `rest`, when `x`
/// holds no white space.
proof fn lemma_piece_then_rest(x: Seq<char>, rest: Seq<char>)
    requires
        forall|i: int| 0 <= i < x.len() ==> !white_space(#[trigger] x[i]),
    ensures
        white_space_pieces(x + seq![' '] + rest) == seq![x] + white_space_pieces(rest),
{
    let s = x + seq![' '] + rest;
    assert forall|i: int| 0 <= i < x.len() implies !white_space(s[i]) by {
        assert(s[i] == x[i]);
    }
    lemma_find_white_space(s, x.len());
    assert(s.take(x.len() as int) == x);
    assert(s.skip((x.len() + 1) as int) == rest);
}

/// Three non-empty texts without white space, joined by single spaces, are
/// three fields.
proof fn lemma_three_fields(a: Seq<char>, b: Seq<char>, c: Seq<char>)
    requires
        a.len() > 0,
        b.len() > 0,
        c.len() > 0,
        forall|i: int| 0 <= i < a.len() ==> !white_space(#[trigger] a[i]),
        forall|i: int| 0 <= i < b.len() ==> !white_space(#[trigger] b[i]),
        forall|i: int| 0 <= i < c.len() ==> !white_space(#[trigger] c[i]),
    ensures
        white_space_fields(a + seq![' '] + b + seq![' '] + c) == seq![a, b, c],
{
    let rest = b + seq![' '] + c;
    assert(a + seq![' '] + b + seq![' '] + c == a + seq![' '] + rest);
    lemma_piece_then_rest(a, rest);
    lemma_piece_then_rest(b, c);
    lemma_single_piece(c);
    let pieces = seq![a, b, c];
    assert(white_space_pieces(a + seq![' '] + rest) == pieces);
    assert(non_empty(Seq::<Seq<char>>::empty()) == Seq::<Seq<char>>::empty());
    assert(seq![a].drop_last() == Seq::<Seq<char>>::empty());
    assert(non_empty(seq![a]) == seq![a]);
    assert(seq![a, b].drop_last() == seq![a]);
    assert(non_empty(seq![a, b]) == seq![a, b]);
    assert(pieces.drop_last() == seq![a, b]);
    assert(non_empty(pieces) == pieces);
}

/// The line `record_line` writes reads back as exactly the record it holds.
pub proof fn lemma_record_line_reads_back(
    m: Map<Seq<char>, (u128, Seq<char>)>,
    t: u128,
    key: Seq<char>,
    value: Seq<char>,
)
    requires
        accepted(key, value),
    ensures
        text_lines(record_line(t, key, value)) == seq![record_line(t, key, value)],
        line_record(record_line(t, key, value)) == Some((key, (t, value))),
        apply_lines(m, text_lines(record_line(t, key, value))) == applied(m, key, (t, value)),
{
    let d = decimal(t as nat);
    let ek = encoded(key);
    let ev = encoded(value);
    let line = record_line(t, key, value);
    lemma_decimal_digits(t as nat);
    lemma_encoded_chars(key);
    lemma_encoded_chars(value);
    lemma_parse_decimal(t);
    lemma_decode_encode_roundtrip(key);
    lemma_decode_encode_roundtrip(value);
    assert forall|i: int| 0 <= i < d.len() implies !white_space(#[trigger] d[i]) && d[i] != '\n' by {
        assert(is_digit(d[i]));
    }
    assert forall|i: int| 0 <= i < ek.len() implies !white_space(#[trigger] ek[i]) by {
        assert(crate::records::is_field_char(ek[i]));
    }
    assert forall|i: int| 0 <= i < ev.len() implies !white_space(#[trigger] ev[i]) by {
        assert(crate::records::is_field_char(ev[i]));
    }
    assert forall|i: int| 0 <= i < line.len() implies line[i] != '\n' by {
        if i < d.len() {
            assert(line[i] == d[i]);
        } else if d.len() < i < d.len() + 1 + ek.len() {
            assert(line[i] == ek[i - d.len() - 1]);
            assert(!white_space(ek[i - d.len() - 1]));
        } else if i > d.len() + 1 + ek.len() {
            assert(line[i] == ev[i - d.len() - 2 - ek.len()]);
            assert(!white_space(ev[i - d.len() - 2 - ek.len()]));
        }
    }
    lemma_find_either(line, '\n', '\n', line.len());
    let lines = seq![line];
    assert(lines.drop_last() == Seq::<Seq<char>>::empty());
    assert(text_lines(line) == lines);
    lemma_three_fields(d, ek, ev);
    assert(white_space_fields(line) == seq![d, ek, ev]);
    assert(apply_lines(m, lines.drop_last()) == m);
}

/// A record stamped by `next_stamp` replaces the one it follows, unless
/// that one carries the largest timestamp.
pub proof fn lemma_own_write_wins(
    m: Map<Seq<char>, (u128, Seq<char>)>,
    key: Seq<char>,
    value: Seq<char>,
    now: u128,
)
    requires
        !m.dom().contains(key) || m[key].0 < u128::MAX,
    ensures
        applied(m, key, (next_stamp(m, key, now), value)) == m.insert(
            key,
            (next_stamp(m, key, now), value),
        ),
{
    let r = (next_stamp(m, key, now), value);
    if !m.dom().contains(key) {
        if !supersedes(r, current(m, key)) {
            // the empty record at time zero; a value that encodes no higher is empty
            lemma_encoded_chars(value);
            assert(encoded(Seq::<char>::empty()) == seq!['-']);
            if value.len() > 0 {
                let c = encoded(value)[0];
                assert(c != '-');
                assert(crate::records::is_field_char(c));
                assert(('-' as u32) < (c as u32));
                assert(lex_lt(seq!['-'], encoded(value)));
            }
            assert(value =~= Seq::<char>::empty());
        }
    }
}

impl Projects {
    /// Takes in the records of `data`, one per line; unreadable or foreign
    /// lines are skipped.
    pub fn merge(&mut self, data: &str)
        ensures
            final(self)@ == apply_lines(old(self)@, text_lines(data@)),
    {
        proof {
            use_type_invariant(&*self);
        }
        let ghost start = self@;
        let mut records: Vec<(String, (u128, String))> = Vec::new();
        std::mem::swap(&mut records, &mut self.records);
        let lines = lines_of(chars_of(data).as_slice());
        let ghost rows = char_rows(lines@);
        let mut i: usize = 0;
        assert(rows.take(0) == Seq::<Seq<char>>::empty());
        while i < lines.len()
            invariant
                i <= lines.len(),
                rows == char_rows(lines@),
                keys_sorted(records@),
                records_map(records@) == apply_lines(start, rows.take(i as int)),
            decreases lines.len() - i,
        {
            assert(rows.take(i + 1).drop_last() == rows.take(i as int));
            assert(rows.take(i + 1).last() == lines@[i as int]@);
            match read_record(&lines[i]) {
                Some((key, t, value)) => {
                    records = apply_record(records, key, t, value);
                },
                None => {},
            }
            i = i + 1;
        }
        assert(rows.take(lines.len() as int) == rows);
        self.records = records;
    }

    /// Writes `value` for `key`, stamped after any record it replaces, and
    /// returns the line that shares it.
    fn record(&mut self, key: &[char], value: &str, now: u128) -> (line: String)
        ensures
            line@ == record_line(next_stamp(old(self)@, key@, now), key@, value@),
            final(self)@ == apply_lines(old(self)@, text_lines(line@)),
    {
        proof {
            use_type_invariant(&*self);
            lemma_records_map(self.records@);
        }
        let (p, found) = locate(&self.records, key);
        let stamp: u128 = if found {
            let bumped = self.records[p].1.0.saturating_add(1);
            if now >= bumped {
                now
            } else {
                bumped
            }
        } else {
            now
        };
        let key_text = string_from_chars(key);
        let mut line = String::new();
        push_decimal(&mut line, stamp);
        push_char(&mut line, ' ');
        push_chars(&mut line, chars_of(encode(key_text.as_str()).as_str()).as_slice());
        push_char(&mut line, ' ');
        push_chars(&mut line, chars_of(encode(value).as_str()).as_slice());
        self.merge(line.as_str());
        line
    }

    /// Pins or unpins `path`, returning the record line to persist.
    pub fn set_pinned(&mut self, path: &str, pinned: bool, now: u128) -> (line: String)
        ensures
            line@ == record_line(
                next_stamp(old(self)@, pin_key(path@), now),
                pin_key(path@),
                pin_value(pinned),
            ),
            final(self)@ == applied(
                old(self)@,
                pin_key(path@),
                (next_stamp(old(self)@, pin_key(path@), now), pin_value(pinned)),
            ),
            (!old(self)@.dom().contains(pin_key(path@)) || old(self)@[pin_key(path@)].0 < u128::MAX)
                ==> pinned_in(final(self)@, path@) == pinned,
    {
        let key = prefixed(pin_prefix_chars().as_slice(), path);
        let mut value = String::new();
        push_char(&mut value, if pinned { '1' } else { '0' });
        assert(value@ == pin_value(pinned));
        let line = self.record(key.as_slice(), value.as_str(), now);
        proof {
            let k = pin_key(path@);
            assert(key@ == k);
            assert(starts_with(k, pin_prefix())) by {
                assert(k.take(4) == pin_prefix());
            }
            lemma_record_line_reads_back(old(self)@, next_stamp(old(self)@, k, now), k, pin_value(pinned));
            if !old(self)@.dom().contains(k) || old(self)@[k].0 < u128::MAX {
                lemma_own_write_wins(old(self)@, k, pin_value(pinned), now);
            }
        }
        line
    }

    /// Associates `session` with `path`, or clears its association, returning
    /// the record line to persist.
    pub fn set_directory(&mut self, session: &str, path: Option<&str>, now: u128) -> (line: String)
        ensures
            ({
                let k = session_key(session@);
                let v = match path {
                    Some(p) => p@,
                    None => Seq::empty(),
                };
                let t = next_stamp(old(self)@, k, now);
                &&& line@ == record_line(t, k, v)
                &&& final(self)@ == applied(old(self)@, k, (t, v))
                &&& (!old(self)@.dom().contains(k) || old(self)@[k].0 < u128::MAX) ==> directory_in(
                    final(self)@,
                    session@,
                ) == (if v.len() > 0 {
                    Some(v)
                } else {
                    None
                })
            }),
    {
        let key = prefixed(session_prefix_chars().as_slice(), session);
        let none = String::new();
        let line = match path {
            Some(p) => self.record(key.as_slice(), p, now),
            None => self.record(key.as_slice(), none.as_str(), now),
        };
        proof {
            let k = session_key(session@);
            let v = match path {
                Some(p) => p@,
                None => Seq::empty(),
            };
            assert(key@ == k);
            assert(starts_with(k, session_prefix())) by {
                assert(k.take(8) == session_prefix());
            }
            lemma_record_line_reads_back(old(self)@, next_stamp(old(self)@, k, now), k, v);
            if !old(self)@.dom().contains(k) || old(self)@[k].0 < u128::MAX {
                lemma_own_write_wins(old(self)@, k, v, now);
            }
        }
        line
    }

    /// Whether `path` is pinned.
    pub fn is_pinned(&self, path: &str) -> (r: bool)
        ensures
            r == pinned_in(self@, path@),
    {
        proof {
            use_type_invariant(self);
            lemma_records_map(self.records@);
        }
        let key = prefixed(pin_prefix_chars().as_slice(), path);
        let (p, found) = locate(&self.records, key.as_slice());
        found && is_single(self.records[p].1.1.as_str(), '1')
    }

    /// The directory associated with `session`, unless it was cleared.
    pub fn directory(&self, session: &str) -> (r: Option<&str>)
        ensures
            match directory_in(self@, session@) {
                Some(d) => r matches Some(s) && s@ == d,
                None => r is None,
            },
    {
        proof {
            use_type_invariant(self);
            lemma_records_map(self.records@);
        }
        let key = prefixed(session_prefix_chars().as_slice(), session);
        let (p, found) = locate(&self.records, key.as_slice());
        if found && !self.records[p].1.1.as_str().is_empty() {
            Some(self.records[p].1.1.as_str())
        } else {
            None
        }
    }
}

impl Default for Projects {
    fn default() -> (r: Self)
        ensures
            r@ == Map::<Seq<char>, (u128, Seq<char>)>::empty(),
    {
        let r = Projects { records: Vec::new() };
        assert(records_map(r.records@) =~= Map::<Seq<char>, (u128, Seq<char>)>::empty());
        r
    }
}

/// A record that makes a pinned path: a `pin:` key with value `1`.
pub open spec fn is_pin_record(e: (String, (u128, String))) -> bool {
    starts_with(e.0@, pin_prefix()) && e.1.1@ == seq!['1']
}

impl Projects {
    /// The pinned paths, in increasing order.
    pub fn pinned_paths(&self) -> (r: Vec<String>)
        ensures
            forall|a: int, b: int| 0 <= a < b < r.len() ==> lex_lt(#[trigger] r@[a]@, #[trigger] r@[b]@),
            forall|p: Seq<char>|
                pinned_in(self@, p) <==> exists|a: int| 0 <= a < r.len() && #[trigger] r@[a]@ == p,
    {
        proof {
            use_type_invariant(self);
            lemma_records_map(self.records@);
        }
        let records = &self.records;
        let pin = pin_prefix_chars();
        assert(pin@.take(4) == pin@);
        let mut out: Vec<String> = Vec::new();
        let ghost mut src: Seq<int> = Seq::empty();
        let mut i: usize = 0;
        while i < records.len()
            invariant
                i <= records.len(),
                pin@ == pin_prefix(),
                keys_sorted(records@),
                out.len() == src.len(),
                forall|a: int|
                    0 <= a < src.len() ==> 0 <= #[trigger] src[a] < i && is_pin_record(records@[src[a]])
                        && out@[a]@ == records@[src[a]].0@.skip(4),
                forall|a: int, b: int| 0 <= a < b < src.len() ==> #[trigger] src[a] < #[trigger] src[b],
                forall|b: int|
                    0 <= b < i && is_pin_record(#[trigger] records@[b]) ==> exists|a: int|
                        0 <= a < src.len() && src[a] == b,
            decreases records.len() - i,
        {
            let kc = chars_of(records[i].0.as_str());
            let ghost old_src = src;
            assert(pin@.take(4) == pin@);
            let qualifies = has_prefix(kc.as_slice(), pin.as_slice(), 4) && is_single(
                records[i].1.1.as_str(),
                '1',
            );
            assert(qualifies == is_pin_record(records@[i as int]));
            if qualifies {
                let path = string_from_chars(sub_chars(kc.as_slice(), 4, kc.len()).as_slice());
                out.push(path);
                proof {
                    src = src.push(i as int);
                    assert(kc@.subrange(4, kc@.len() as int) == records@[i as int].0@.skip(4));
                }
            }
            proof {
                assert forall|b: int|
                    0 <= b < i + 1 && is_pin_record(#[trigger] records@[b]) implies exists|a: int|
                    0 <= a < src.len() && src[a] == b by {
                    if b == i {
                        assert(src[src.len() - 1] == b);
                    } else {
                        let a = choose|a: int| 0 <= a < old_src.len() && old_src[a] == b;
                        assert(src[a] == b);
                    }
                }
            }
            i = i + 1;
        }
        proof {
            assert forall|a: int, b: int| 0 <= a < b < out.len() implies lex_lt(
                #[trigger] out@[a]@,
                #[trigger] out@[b]@,
            ) by {
                let ka = records@[src[a]].0@;
                let kb = records@[src[b]].0@;
                assert(src[a] < src[b]);
                assert(lex_lt(ka, kb));
                assert(ka == pin_prefix() + ka.skip(4)) by {
                    assert(ka.take(4) == pin_prefix());
                    assert(ka =~= ka.take(4) + ka.skip(4));
                }
                assert(kb == pin_prefix() + kb.skip(4)) by {
                    assert(kb.take(4) == pin_prefix());
                    assert(kb =~= kb.take(4) + kb.skip(4));
                }
                crate::strings::lemma_lex_lt_common_prefix(pin_prefix(), ka.skip(4), kb.skip(4));
            }
            let m = records_map(records@);
            assert forall|p: Seq<char>| pinned_in(m, p) <==> exists|a: int|
                0 <= a < out.len() && #[trigger] out@[a]@ == p by {
                if pinned_in(m, p) {
                    let k = pin_key(p);
                    let b = choose|b: int| 0 <= b < records.len() && (#[trigger] records@[b]).0@ == k;
                    assert(k.take(4) == pin_prefix());
                    assert(is_pin_record(records@[b]));
                    let a = choose|a: int| 0 <= a < src.len() && src[a] == b;
                    assert(k.skip(4) == p);
                    assert(out@[a]@ == p);
                }
                if exists|a: int| 0 <= a < out.len() && #[trigger] out@[a]@ == p {
                    let a = choose|a: int| 0 <= a < out.len() && #[trigger] out@[a]@ == p;
                    let k = records@[src[a]].0@;
                    assert(k.take(4) == pin_prefix());
                    assert(k =~= k.take(4) + k.skip(4));
                    assert(k == pin_key(p));
                    assert(m.dom().contains(k) && m[k] == stored(records@[src[a]]));
                }
            }
        }
        out
    }
}

/// Records of one key arriving in either order leave the same store, and so
/// do records of different keys: the store does not depend on the order in
/// which record lines arrive.
pub proof fn lemma_applied_commutes(
    m: Map<Seq<char>, (u128, Seq<char>)>,
    k1: Seq<char>,
    r1: (u128, Seq<char>),
    k2: Seq<char>,
    r2: (u128, Seq<char>),
)
    ensures
        applied(applied(m, k1, r1), k2, r2) == applied(applied(m, k2, r2), k1, r1),
{
    let x = applied(applied(m, k1, r1), k2, r2);
    let y = applied(applied(m, k2, r2), k1, r1);
    if k1 == k2 {
        let c = current(m, k1);
        lemma_supersedes_order(r1, r2, c);
        lemma_supersedes_order(r2, r1, c);
        lemma_supersedes_order(r1, c, r2);
        lemma_supersedes_order(c, r1, r2);
        lemma_supersedes_order(r2, c, r1);
        lemma_supersedes_order(c, r2, r1);
    }
    assert(x =~= y);
}

/// `supersedes` is a strict total order on records.
pub proof fn lemma_supersedes_order(a: (u128, Seq<char>), b: (u128, Seq<char>), c: (u128, Seq<char>))
    ensures
        !supersedes(a, a),
        a != b ==> (supersedes(a, b) || supersedes(b, a)),
        !(supersedes(a, b) && supersedes(b, a)),
        supersedes(a, b) && supersedes(b, c) ==> supersedes(a, c),
{
    let ea = encoded(a.1);
    let eb = encoded(b.1);
    let ec = encoded(c.1);
    lemma_lex_lt_irreflexive(ea, 0);
    lemma_lex_lt_asymmetric(ea, eb, 0);
    if ea != eb {
        assert(ea.skip(0) == ea && eb.skip(0) == eb);
        lemma_lex_lt_total(ea, eb, 0);
    } else {
        lemma_decode_encode_roundtrip(a.1);
        lemma_decode_encode_roundtrip(b.1);
    }
    if lex_lt(eb, ea) && lex_lt(ec, eb) {
        lemma_lex_lt_transitive(ec, eb, ea, 0);
    }
}

/// Merging never replaces a record by an older one and never forgets a key:
/// a late line cannot bring back a removed pin or association.
pub proof fn lemma_merge_never_regresses(m: Map<Seq<char>, (u128, Seq<char>)>, lines: Seq<Seq<char>>)
    ensures
        forall|k: Seq<char>|
            #![trigger apply_lines(m, lines).dom().contains(k)]
            m.dom().contains(k) ==> apply_lines(m, lines).dom().contains(k) && (apply_lines(
                m,
                lines,
            )[k] == m[k] || supersedes(apply_lines(m, lines)[k], m[k])),
    decreases lines.len(),
{
    if lines.len() > 0 {
        lemma_merge_never_regresses(m, lines.drop_last());
        let before = apply_lines(m, lines.drop_last());
        let after = apply_lines(m, lines);
        assert forall|k: Seq<char>| m.dom().contains(k) implies after.dom().contains(k) && (after[k]
            == m[k] || supersedes(after[k], m[k])) by {
            assert(before.dom().contains(k));
            if let Some((key, r)) = line_record(lines.last()) {
                if key == k {
                    lemma_supersedes_order(r, before[k], m[k]);
                    lemma_supersedes_order(before[k], before[k], m[k]);
                }
            }
        }
    }
}


/// Whether `m` already holds every readable record of `lines`, or a record
/// that supersedes it.
pub open spec fn holds_all(m: Map<Seq<char>, (u128, Seq<char>)>, lines: Seq<Seq<char>>) -> bool {
    forall|q: int|
        0 <= q < lines.len() ==> match #[trigger] line_record(lines[q]) {
            Some((k, r)) => m.dom().contains(k) && (m[k] == r || supersedes(m[k], r)),
            None => true,
        }
}

/// One record may arrive before or after a whole file of them.
proof fn lemma_record_commutes_with_lines(
    m: Map<Seq<char>, (u128, Seq<char>)>,
    key: Seq<char>,
    r: (u128, Seq<char>),
    lines: Seq<Seq<char>>,
)
    ensures
        apply_lines(applied(m, key, r), lines) == applied(apply_lines(m, lines), key, r),
    decreases lines.len(),
{
    if lines.len() > 0 {
        lemma_record_commutes_with_lines(m, key, r, lines.drop_last());
        if let Some((k, u)) = line_record(lines.last()) {
            lemma_applied_commutes(apply_lines(m, lines.drop_last()), key, r, k, u);
        }
    }
}

/// A file whose records are all held, or superseded, changes nothing.
proof fn lemma_held_lines_change_nothing(m: Map<Seq<char>, (u128, Seq<char>)>, lines: Seq<Seq<char>>)
    requires
        holds_all(m, lines),
    ensures
        apply_lines(m, lines) == m,
    decreases lines.len(),
{
    if lines.len() > 0 {
        let rest = lines.drop_last();
        assert forall|q: int| 0 <= q < rest.len() implies match #[trigger] line_record(rest[q]) {
            Some((k, r)) => m.dom().contains(k) && (m[k] == r || supersedes(m[k], r)),
            None => true,
        } by {
            assert(rest[q] == lines[q]);
        }
        lemma_held_lines_change_nothing(m, rest);
        assert(line_record(lines[lines.len() - 1]) == line_record(lines.last()));
        if let Some((k, r)) = line_record(lines.last()) {
            lemma_supersedes_order(m[k], r, m[k]);
            assert(newer(r, current(m, k)) == m[k]);
            assert(applied(m, k, r) =~= m);
        }
    }
}

/// After a file of records, each of them is held or superseded.
proof fn lemma_lines_held(m: Map<Seq<char>, (u128, Seq<char>)>, lines: Seq<Seq<char>>)
    ensures
        holds_all(apply_lines(m, lines), lines),
    decreases lines.len(),
{
    if lines.len() > 0 {
        let rest = lines.drop_last();
        lemma_lines_held(m, rest);
        let before = apply_lines(m, rest);
        let after = apply_lines(m, lines);
        assert forall|q: int| 0 <= q < lines.len() implies match #[trigger] line_record(lines[q]) {
            Some((k, r)) => after.dom().contains(k) && (after[k] == r || supersedes(after[k], r)),
            None => true,
        } by {
            if q < rest.len() {
                assert(rest[q] == lines[q]);
                if let Some((k, r)) = line_record(lines[q]) {
                    assert(before.dom().contains(k) && (before[k] == r || supersedes(before[k], r)));
                    if let Some((k2, r2)) = line_record(lines.last()) {
                        if k2 == k {
                            lemma_supersedes_order(r2, before[k], r);
                            lemma_supersedes_order(before[k], r2, r);
                            lemma_supersedes_order(r2, r, before[k]);
                        }
                    }
                }
            } else {
                assert(lines[q] == lines.last());
                if let Some((k, r)) = line_record(lines.last()) {
                    lemma_supersedes_order(r, current(before, k), r);
                    lemma_supersedes_order(current(before, k), r, r);
                }
            }
        }
    }
}

/// Two files merged in either order leave the same store, and merging a
/// file a second time changes nothing: the store depends only on which
/// records arrived, each key at its newest record.
pub proof fn lemma_merges_commute(m: Map<Seq<char>, (u128, Seq<char>)>, a: Seq<char>, b: Seq<char>)
    ensures
        apply_lines(apply_lines(m, text_lines(a)), text_lines(b)) == apply_lines(
            apply_lines(m, text_lines(b)),
            text_lines(a),
        ),
        apply_lines(apply_lines(m, text_lines(a)), text_lines(a)) == apply_lines(m, text_lines(a)),
{
    lemma_files_commute(m, text_lines(a), text_lines(b));
    lemma_lines_held(m, text_lines(a));
    lemma_held_lines_change_nothing(apply_lines(m, text_lines(a)), text_lines(a));
}

/// Two files of records applied in either order give the same store.
proof fn lemma_files_commute(m: Map<Seq<char>, (u128, Seq<char>)>, a: Seq<Seq<char>>, b: Seq<Seq<char>>)
    ensures
        apply_lines(apply_lines(m, a), b) == apply_lines(apply_lines(m, b), a),
    decreases a.len(),
{
    if a.len() > 0 {
        lemma_files_commute(m, a.drop_last(), b);
        if let Some((k, u)) = line_record(a.last()) {
            lemma_record_commutes_with_lines(apply_lines(m, a.drop_last()), k, u, b);
        }
    }
}

/// The pin key of one path is the pin key of no other path and the key of
/// no session.
proof fn lemma_keys_distinct(path: Seq<char>, other: Seq<char>, session: Seq<char>)
    ensures
        other != path ==> pin_key(other) != pin_key(path),
        session_key(session) != pin_key(path),
{
    if other != path && pin_key(other) == pin_key(path) {
        assert(pin_key(other).skip(4) == other);
        assert(pin_key(path).skip(4) == path);
    }
    assert(session_key(session)[0] == 's');
    assert(pin_key(path)[0] == 'p');
}

/// Pinning or unpinning `path` touches no other pin and no session
/// directory, and the line it returns, merged into any store whose record
/// of the pin is no newer than the one replaced, leaves `path` pinned or
/// unpinned as asked.
pub proof fn lemma_pin_is_local(
    m: Map<Seq<char>, (u128, Seq<char>)>,
    q: Map<Seq<char>, (u128, Seq<char>)>,
    path: Seq<char>,
    pinned: bool,
    now: u128,
)
    requires
        !m.dom().contains(pin_key(path)) || m[pin_key(path)].0 < u128::MAX,
        !q.dom().contains(pin_key(path)) || (m.dom().contains(pin_key(path)) && (q[pin_key(path)]
            == m[pin_key(path)] || supersedes(m[pin_key(path)], q[pin_key(path)]))),
    ensures
        ({
            let k = pin_key(path);
            let t = next_stamp(m, k, now);
            let after = applied(m, k, (t, pin_value(pinned)));
            &&& forall|x: Seq<char>| x != path ==> #[trigger] pinned_in(after, x) == pinned_in(m, x)
            &&& forall|s: Seq<char>| #[trigger] directory_in(after, s) == directory_in(m, s)
            &&& pinned_in(apply_lines(q, text_lines(record_line(t, k, pin_value(pinned)))), path)
                == pinned
        }),
{
    let k = pin_key(path);
    let t = next_stamp(m, k, now);
    let v = pin_value(pinned);
    let after = applied(m, k, (t, v));
    assert forall|x: Seq<char>| x != path implies #[trigger] pinned_in(after, x) == pinned_in(m, x) by {
        lemma_keys_distinct(path, x, Seq::empty());
    }
    assert forall|s: Seq<char>| #[trigger] directory_in(after, s) == directory_in(m, s) by {
        lemma_keys_distinct(path, path, s);
    }
    assert(starts_with(k, pin_prefix())) by {
        assert(k.take(4) == pin_prefix());
    }
    lemma_record_line_reads_back(q, t, k, v);
    if !q.dom().contains(k) && !m.dom().contains(k) {
        lemma_own_write_wins(q, k, v, now);
    } else if !q.dom().contains(k) {
        assert(t >= 1);
        assert(supersedes((t, v), current(q, k)));
    } else {
        assert(q[k].0 <= m[k].0);
        assert(supersedes((t, v), current(q, k)));
    }
}

/// Setting or clearing the directory of `session` touches no other
/// session's directory and no pin.
pub proof fn lemma_directory_is_local(
    m: Map<Seq<char>, (u128, Seq<char>)>,
    session: Seq<char>,
    value: Seq<char>,
    now: u128,
)
    ensures
        ({
            let k = session_key(session);
            let after = applied(m, k, (next_stamp(m, k, now), value));
            &&& forall|s: Seq<char>| s != session ==> #[trigger] directory_in(after, s) == directory_in(m, s)
            &&& forall|x: Seq<char>| #[trigger] pinned_in(after, x) == pinned_in(m, x)
        }),
{
    let k = session_key(session);
    let after = applied(m, k, (next_stamp(m, k, now), value));
    assert forall|s: Seq<char>| s != session implies #[trigger] directory_in(after, s) == directory_in(m, s) by {
        if session_key(s) == k {
            assert(session_key(s).skip(8) == s);
            assert(k.skip(8) == session);
        }
    }
    assert forall|x: Seq<char>| #[trigger] pinned_in(after, x) == pinned_in(m, x) by {
        lemma_keys_distinct(x, x, session);
    }
}

impl Clone for Projects {
    fn clone(&self) -> (r: Self)
        ensures
            r@ == self@,
    {
        proof {
            use_type_invariant(self);
        }
        let mut records: Vec<(String, (u128, String))> = Vec::new();
        let mut i: usize = 0;
        while i < self.records.len()
            invariant
                i <= self.records.len(),
                records@ == self.records@.take(i as int),
            decreases self.records.len() - i,
        {
            let e = &self.records[i];
            records.push((e.0.clone(), (e.1.0, e.1.1.clone())));
            assert(records@ =~= self.records@.take(i + 1));
            i = i + 1;
        }
        assert(self.records@.take(self.records.len() as int) == self.records@);
        Projects { records }
    }
}

} // verus!
