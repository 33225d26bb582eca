//! Smart session naming for zoxide directories.
//!
//! A directory becomes a session name by taking its basename, then adding just
//! enough leading path context to tell it apart from the other directories
//! that share that basename. Directories sitting inside another zoxide
//! directory start with more context, so `src` under a known project reads as
//! `project.src` rather than a bare `src` that could be anything.

use vstd::prelude::*;
use std::path::Path;
use crate::config::Config;
use crate::session_name::MAX_SESSION_NAME_BYTES;
use crate::strings::{
    chars_equal,
    char_rows, chars_of, find_either, join, join_from, keep_non_empty, lemma_find_either,
    non_empty, split_chars, split_either, split_on, starts_with, has_prefix, trim_end_char,
    trim_end_len, trim_start_char, trim_start_from, push_chars, push_char,
};
use crate::text::{truncate_bytes, truncate_chars, truncated_to_bytes, truncated_to_chars};

verus! {

broadcast use vstd::string::group_string_axioms;

/// Character budget for a generated name.
///
/// Zellij session names live inside a platform-dependent Unix-domain-socket
/// path, and the socket directory is not knowable from inside the WASM sandbox.
/// Generated names therefore aim for the conservative byte budget enforced by
/// `MAX_SESSION_NAME_BYTES`.
pub const MAX_GENERATED_NAME_LEN: usize = 29;

/// Byte budget for a generated name: the longest name `validate` accepts,
/// which must stay under `MAX_SESSION_NAME_BYTES`.
pub const MAX_GENERATED_NAME_BYTES: usize = MAX_SESSION_NAME_BYTES - 1;

/// Leading segments a directory nested inside another one starts with.
pub const NESTED_CONTEXT_SEGMENTS: usize = 3;

/// What `Path::file_name` gives for `path`, or nothing when it has none.
pub uninterp spec fn path_file_name(path: Seq<char>) -> Seq<char>;

/// What `Path::ancestors` lists for `path`: the path itself, then its
/// ancestors, nearest first.
pub uninterp spec fn path_ancestor_list(path: Seq<char>) -> Seq<Seq<char>>;

/// The strict ancestors of `path`: what `Path::ancestors` lists after the
/// path itself.
pub open spec fn path_ancestors(path: Seq<char>) -> Seq<Seq<char>> {
    let all = path_ancestor_list(path);
    if all.len() > 0 {
        all.skip(1)
    } else {
        all
    }
}

/// Whether `char::is_alphabetic` holds of `c` (the Unicode Alphabetic property).
pub uninterp spec fn char_is_alphabetic(c: char) -> bool;

/// The basename of `path` (`Path::file_name`), or an empty string if it has
/// none (`/`).
#[verifier::external_body]
fn basename(path: &str) -> (r: String)
    ensures
        r@ == path_file_name(path@),
{
    match Path::new(path).file_name() {
        Some(name) => name.to_string_lossy().into_owned(),
        None => String::new(),
    }
}

/// `Path::ancestors`, as strings: the path itself, then its ancestors.
#[verifier::external_body]
fn ancestors(path: &str) -> (r: Vec<String>)
    ensures
        r@.map_values(|a: String| a@) == path_ancestor_list(path@),
{
    Path::new(path).ancestors().map(|a| a.to_string_lossy().into_owned()).collect()
}

/// `char::is_alphabetic`.
#[verifier::external_body]
fn is_alphabetic(c: char) -> (r: bool)
    ensures
        r == char_is_alphabetic(c),
{
    c.is_alphabetic()
}

// ----- specification -----

/// The non-empty `/`-separated components of `path`.
pub open spec fn path_segments(path: Seq<char>) -> Seq<Seq<char>> {
    non_empty(split_on(path, '/'))
}

/// The last `count` entries of `segments` (all of them if there are fewer).
pub open spec fn tail_of(segments: Seq<Seq<char>>, count: nat) -> Seq<Seq<char>> {
    if count >= segments.len() {
        segments
    } else {
        segments.skip(segments.len() - count)
    }
}

/// The last `count` segments, joined with `separator`.
pub open spec fn join_tail(segments: Seq<Seq<char>>, count: nat, separator: Seq<char>) -> Seq<
    char,
> {
    join(tail_of(segments, count), separator)
}

/// The longest of `bases[..k]` (with trailing `/` trimmed) that `path` starts
/// with on a component boundary; a later one of the same length wins.
pub open spec fn longest_base(path: Seq<char>, bases: Seq<Seq<char>>, k: nat) -> Option<Seq<char>>
    decreases k,
{
    if k == 0 || k > bases.len() {
        None
    } else {
        let prev = longest_base(path, bases, (k - 1) as nat);
        let base = trim_end_char(bases[k - 1], '/');
        let on_boundary = path.len() == base.len() || (path.len() > base.len() && path[base.len() as int] == '/');
        let prev_len: nat = match prev {
            Some(p) => p.len(),
            None => 0,
        };
        if starts_with(path, base) && on_boundary && prev_len <= base.len() {
            Some(base)
        } else {
            prev
        }
    }
}

/// `path` with the longest matching base path stripped. A path that *is* a
/// base path keeps its full form.
pub open spec fn normalized_path(path: Seq<char>, bases: Seq<Seq<char>>) -> Seq<char> {
    match longest_base(path, bases, bases.len()) {
        Some(base) => if path.len() > base.len() {
            trim_start_char(path.skip(base.len() as int), '/')
        } else {
            path
        },
        None => path,
    }
}

/// The first `n` alphabetic characters of `s`.
pub open spec fn alphabetic_take(s: Seq<char>, n: nat) -> Seq<char>
    decreases s.len(),
{
    if n == 0 || s.len() == 0 {
        Seq::empty()
    } else if char_is_alphabetic(s[0]) {
        seq![s[0]] + alphabetic_take(s.drop_first(), (n - 1) as nat)
    } else {
        alphabetic_take(s.drop_first(), n)
    }
}

/// The first characters of the non-empty pieces of `s` between `-` and `_`,
/// joined with `-`.
pub open spec fn initials(s: Seq<char>) -> Seq<char> {
    join(
        non_empty(split_either(s, '-', '_')).map_values(|p: Seq<char>| seq![p[0]]),
        seq!['-'],
    )
}

/// One path segment, abbreviated: `lobster-watcher` becomes `l-w`; a plain
/// word keeps its first character plus the next two letters.
pub open spec fn abbreviation(s: Seq<char>) -> Seq<char> {
    if s.len() <= 3 {
        s
    } else if (s.contains('-') || s.contains('_')) && split_either(s, '-', '_').len() > 1 {
        initials(s)
    } else {
        let a = seq![s[0]] + alphabetic_take(s.drop_first(), 2);
        if a.len() < 2 {
            a.push(s[1])
        } else {
            a
        }
    }
}

/// Drop leading segments while the joined name is over the budget and more
/// than one segment is left.
pub open spec fn drop_leading(kept: Seq<Seq<char>>, separator: Seq<char>) -> Seq<Seq<char>>
    decreases kept.len(),
{
    if join(kept, separator).len() > MAX_GENERATED_NAME_LEN && kept.len() > 1 {
        drop_leading(kept.drop_first(), separator)
    } else {
        kept
    }
}

/// Add abbreviated context back from the left, from `segments[m - 1]` down,
/// while it fits.
pub open spec fn extend_left(
    kept: Seq<Seq<char>>,
    segments: Seq<Seq<char>>,
    m: nat,
    separator: Seq<char>,
) -> Seq<Seq<char>>
    decreases m,
{
    if m == 0 || m > segments.len() {
        kept
    } else {
        let extended = seq![abbreviation(segments[m - 1])] + kept;
        if join(extended, separator).len() > MAX_GENERATED_NAME_LEN {
            kept
        } else {
            extend_left(extended, segments, (m - 1) as nat, separator)
        }
    }
}

/// A name kept inside the byte budget for the socket name.
pub open spec fn within_limit(name: Seq<char>) -> Seq<char> {
    truncated_to_bytes(name, MAX_GENERATED_NAME_BYTES as nat)
}

/// An over-long name brought inside `MAX_GENERATED_NAME_LEN`: the required
/// segments abbreviated, then dropped from the left, then cut; then
/// abbreviated context added back from the left while it fits.
pub open spec fn shortened(segments: Seq<Seq<char>>, required: nat, separator: Seq<char>) -> Seq<
    char,
> {
    let abbreviated = tail_of(segments, required).map_values(|s: Seq<char>| abbreviation(s));
    let dropped = drop_leading(abbreviated, separator);
    let cut = if join(dropped, separator).len() > MAX_GENERATED_NAME_LEN {
        seq![truncated_to_chars(dropped[0], MAX_GENERATED_NAME_LEN as nat)]
    } else {
        dropped
    };
    let m: nat = if segments.len() >= required { (segments.len() - required) as nat } else { 0 };
    within_limit(join(extend_left(cut, segments, m, separator), separator))
}

/// Whether path `j` is a rival of path `i`: another path with the same basename.
pub open spec fn rivals(paths: Seq<Seq<char>>, i: int, j: int) -> bool {
    0 <= j < paths.len() && j != i && path_file_name(paths[j]) == path_file_name(paths[i])
}

/// Whether the last `length` segments of path `i` read the same as those of a rival.
pub open spec fn clashes(
    paths: Seq<Seq<char>>,
    bases: Seq<Seq<char>>,
    separator: Seq<char>,
    i: int,
    length: nat,
) -> bool {
    exists|j: int|
        #![trigger rivals(paths, i, j)]
        rivals(paths, i, j) && path_segments(normalized_path(paths[j], bases)).len() >= length
            && join_tail(path_segments(normalized_path(paths[j], bases)), length, separator)
            == join_tail(path_segments(normalized_path(paths[i], bases)), length, separator)
}

/// The fewest segments, from `length` up, that tell path `i` apart from its
/// rivals; all of them when nothing does.
pub open spec fn required_segments(
    paths: Seq<Seq<char>>,
    bases: Seq<Seq<char>>,
    separator: Seq<char>,
    i: int,
    length: nat,
) -> nat
    decreases path_segments(normalized_path(paths[i], bases)).len() + 1 - length,
{
    let n = path_segments(normalized_path(paths[i], bases)).len();
    if length > n {
        n
    } else if !clashes(paths, bases, separator, i, length) {
        length
    } else {
        required_segments(paths, bases, separator, i, length + 1)
    }
}

/// Whether path `i`, normalised, sits strictly inside another normalised path.
pub open spec fn nested(paths: Seq<Seq<char>>, bases: Seq<Seq<char>>, i: int) -> bool {
    exists|a: int, j: int|
        #![trigger path_ancestors(normalized_path(paths[i], bases))[a], paths[j]]
        0 <= a < path_ancestors(normalized_path(paths[i], bases)).len() && 0 <= j < paths.len()
            && path_ancestors(normalized_path(paths[i], bases))[a].len() > 0 && path_ancestors(
            normalized_path(paths[i], bases),
        )[a] == normalized_path(paths[j], bases)
}

/// The fewest segments the name of path `i` starts from: up to
/// `NESTED_CONTEXT_SEGMENTS` for a path inside another one, else one.
pub open spec fn context_minimum(paths: Seq<Seq<char>>, bases: Seq<Seq<char>>, i: int) -> nat {
    let segments = path_segments(normalized_path(paths[i], bases));
    if nested(paths, bases, i) {
        if segments.len() < NESTED_CONTEXT_SEGMENTS {
            segments.len()
        } else {
            NESTED_CONTEXT_SEGMENTS as nat
        }
    } else {
        1
    }
}

/// The session name generated for path `i` of `paths`.
pub open spec fn generated_name(
    paths: Seq<Seq<char>>,
    bases: Seq<Seq<char>>,
    separator: Seq<char>,
    i: int,
) -> Seq<char> {
    let segments = path_segments(normalized_path(paths[i], bases));
    if segments.len() == 0 {
        seq!['r', 'o', 'o', 't']
    } else {
        let minimum = context_minimum(paths, bases, i);
        let required = required_segments(paths, bases, separator, i, minimum);
        let name = join_tail(segments, required, separator);
        if name.len() > MAX_GENERATED_NAME_LEN {
            shortened(segments, required, separator)
        } else {
            within_limit(name)
        }
    }
}

/// The paths' character sequences.
pub open spec fn path_views(paths: Seq<&str>) -> Seq<Seq<char>> {
    paths.map_values(|p: &str| p@)
}

/// The character sequences of some strings.
pub open spec fn string_views(v: Seq<String>) -> Seq<Seq<char>> {
    v.map_values(|a: String| a@)
}

/// The character sequences of some lists of strings.
pub open spec fn string_list_views(v: Seq<Vec<String>>) -> Seq<Seq<Seq<char>>> {
    v.map_values(|a: Vec<String>| string_views(a@))
}

/// What follows the path itself in a list `Path::ancestors` gave.
pub open spec fn strict_of(list: Seq<Seq<char>>) -> Seq<Seq<char>> {
    if list.len() > 0 {
        list.skip(1)
    } else {
        list
    }
}

/// Whether path `j` is a rival of path `i` when path `k` has basename
/// `names[k]`.
pub open spec fn rival_by(names: Seq<Seq<char>>, i: int, j: int) -> bool {
    0 <= j < names.len() && j != i && names[j] == names[i]
}

/// `clashes`, with the basenames given as `names`.
pub open spec fn clashes_by(
    paths: Seq<Seq<char>>,
    names: Seq<Seq<char>>,
    bases: Seq<Seq<char>>,
    separator: Seq<char>,
    i: int,
    length: nat,
) -> bool {
    exists|j: int|
        #![trigger rival_by(names, i, j)]
        rival_by(names, i, j) && path_segments(normalized_path(paths[j], bases)).len() >= length
            && join_tail(path_segments(normalized_path(paths[j], bases)), length, separator)
            == join_tail(path_segments(normalized_path(paths[i], bases)), length, separator)
}

/// `required_segments`, with the basenames given as `names`.
pub open spec fn required_by(
    paths: Seq<Seq<char>>,
    names: Seq<Seq<char>>,
    bases: Seq<Seq<char>>,
    separator: Seq<char>,
    i: int,
    length: nat,
) -> nat
    decreases path_segments(normalized_path(paths[i], bases)).len() + 1 - length,
{
    let n = path_segments(normalized_path(paths[i], bases)).len();
    if length > n {
        n
    } else if !clashes_by(paths, names, bases, separator, i, length) {
        length
    } else {
        required_by(paths, names, bases, separator, i, length + 1)
    }
}

/// `nested`, with what `Path::ancestors` lists for normalised path `k`
/// given as `lists[k]`.
pub open spec fn nested_by(
    paths: Seq<Seq<char>>,
    lists: Seq<Seq<Seq<char>>>,
    bases: Seq<Seq<char>>,
    i: int,
) -> bool {
    exists|a: int, j: int|
        #![trigger strict_of(lists[i])[a], paths[j]]
        0 <= a < strict_of(lists[i]).len() && 0 <= j < paths.len() && strict_of(lists[i])[a].len()
            > 0 && strict_of(lists[i])[a] == normalized_path(paths[j], bases)
}

/// The name of path `i` given each path's basename `names[k]` and what
/// `Path::ancestors` lists for it, normalised, `lists[k]`: `generated_name`
/// with those results in place of the calls.
pub open spec fn name_by(
    paths: Seq<Seq<char>>,
    names: Seq<Seq<char>>,
    lists: Seq<Seq<Seq<char>>>,
    bases: Seq<Seq<char>>,
    separator: Seq<char>,
    i: int,
) -> Seq<char> {
    let segments = path_segments(normalized_path(paths[i], bases));
    if segments.len() == 0 {
        seq!['r', 'o', 'o', 't']
    } else {
        let minimum: nat = if nested_by(paths, lists, bases, i) {
            if segments.len() < NESTED_CONTEXT_SEGMENTS {
                segments.len()
            } else {
                NESTED_CONTEXT_SEGMENTS as nat
            }
        } else {
            1
        };
        let required = required_by(paths, names, bases, separator, i, minimum);
        let name = join_tail(segments, required, separator);
        if name.len() > MAX_GENERATED_NAME_LEN {
            shortened(segments, required, separator)
        } else {
            within_limit(name)
        }
    }
}

/// Whether `names` and `lists` hold what `Path::file_name` gives for each
/// path and what `Path::ancestors` lists for each normalised path.
pub open spec fn path_facts(
    paths: Seq<Seq<char>>,
    names: Seq<Seq<char>>,
    lists: Seq<Seq<Seq<char>>>,
    bases: Seq<Seq<char>>,
) -> bool {
    &&& names.len() == paths.len()
    &&& lists.len() == paths.len()
    &&& forall|j: int| 0 <= j < paths.len() ==> #[trigger] names[j] == path_file_name(paths[j])
    &&& forall|j: int|
        0 <= j < paths.len() ==> #[trigger] lists[j] == path_ancestor_list(
            normalized_path(paths[j], bases),
        )
}

// ----- implementation -----

/// The abbreviation of a segment, on characters.
fn abbreviate(segment: &[char]) -> (r: Vec<char>)
    ensures
        r@ == abbreviation(segment@),
{
    let n = segment.len();
    if n <= 3 {
        let mut r: Vec<char> = Vec::new();
        let mut i: usize = 0;
        while i < n
            invariant
                i <= n == segment.len(),
                r@ == segment@.take(i as int),
            decreases n - i,
        {
            r.push(segment[i]);
            assert(segment@.take(i + 1) == segment@.take(i as int).push(segment@[i as int]));
            i = i + 1;
        }
        assert(segment@.take(n as int) == segment@);
        return r;
    }
    let has_dash = crate::session_name::chars_contain(segment, '-');
    let has_underscore = crate::session_name::chars_contain(segment, '_');
    if has_dash || has_underscore {
        let parts = split_chars(segment, '-', '_');
        if parts.len() > 1 {
            let pieces = keep_non_empty(parts);
            proof {
                lemma_non_empty_entries(char_rows(parts@));
                assert forall|t: int| 0 <= t < pieces@.len() implies (#[trigger] pieces@[t])@.len() > 0 by {
                    assert(char_rows(pieces@)[t] == pieces@[t]@);
                }
            }
            let mut singles: Vec<Vec<char>> = Vec::new();
            let mut k: usize = 0;
            while k < pieces.len()
                invariant
                    k <= pieces.len(),
                    forall|t: int| 0 <= t < pieces@.len() ==> (#[trigger] pieces@[t])@.len() > 0,
                    char_rows(singles@) == char_rows(pieces@).take(k as int).map_values(
                        |p: Seq<char>| seq![p[0]],
                    ),
                decreases pieces.len() - k,
            {
                let first = pieces[k][0];
                let single = vec![first];
                assert(single@ == seq![first]);
                let ghost before = char_rows(singles@);
                singles.push(single);
                assert(char_rows(singles@) == before.push(seq![first]));
                assert(char_rows(pieces@).take(k + 1) == char_rows(pieces@).take(k as int).push(
                    pieces@[k as int]@,
                ));
                assert(char_rows(singles@) =~= char_rows(pieces@).take(k + 1).map_values(
                    |p: Seq<char>| seq![p[0]],
                ));
                k = k + 1;
            }
            proof {
                assert(char_rows(pieces@).take(pieces.len() as int) == char_rows(pieces@));
                assert(char_rows(singles@).skip(0) == char_rows(singles@));
            }
            let dash: Vec<char> = vec!['-'];
            assert(dash@ == seq!['-']);
            return join_from(&singles, 0, dash.as_slice());
        }
    }
    let mut a: Vec<char> = Vec::new();
    a.push(segment[0]);
    let mut i: usize = 1;
    assert(segment@.drop_first() == segment@.skip(1));
    assert(a@.skip(1) == Seq::<char>::empty());
    while i < n && a.len() < 3
        invariant
            1 <= i <= n == segment.len(),
            1 <= a.len() <= 3,
            a@[0] == segment@[0],
            alphabetic_take(segment@.drop_first(), 2) == a@.skip(1) + alphabetic_take(
                segment@.skip(i as int),
                (3 - a.len()) as nat,
            ),
        decreases n - i,
    {
        let c = segment[i];
        assert(segment@.skip(i as int)[0] == c);
        assert(segment@.skip(i as int).drop_first() == segment@.skip(i + 1));
        if is_alphabetic(c) {
            a.push(c);
            assert(a@.skip(1) == a@.drop_last().skip(1).push(c));
        }
        i = i + 1;
    }
    if i >= n {
        assert(segment@.skip(i as int) == Seq::<char>::empty());
    }
    assert(a@ == seq![segment@[0]] + a@.skip(1));
    if a.len() < 2 {
        a.push(segment[1]);
    }
    a
}

/// Entries kept by `non_empty` are non-empty.
proof fn lemma_non_empty_entries(ps: Seq<Seq<char>>)
    ensures
        forall|t: int| 0 <= t < non_empty(ps).len() ==> (#[trigger] non_empty(ps)[t]).len() > 0,
    decreases ps.len(),
{
    if ps.len() > 0 {
        lemma_non_empty_entries(ps.drop_last());
        let r = non_empty(ps.drop_last());
        assert forall|t: int| 0 <= t < non_empty(ps).len() implies (#[trigger] non_empty(ps)[t]).len() > 0 by {
            if ps.last().len() > 0 {
                assert(non_empty(ps) == r.push(ps.last()));
                if t < r.len() {
                    assert(non_empty(ps)[t] == r[t]);
                }
            }
        }
    }
}

/// Abbreviate one path segment.
///
/// `lobster-watcher` becomes `l-w`; a plain word keeps its first character
/// plus the next two letters.
pub fn abbreviate_segment(segment: &str) -> (r: String)
    ensures
        r@ == abbreviation(segment@),
{
    let cs = chars_of(segment);
    let a = abbreviate(cs.as_slice());
    let mut r = String::new();
    push_chars(&mut r, a.as_slice());
    r
}

/// `normalized_path` on characters.
fn normalize(path: &[char], bases: &Vec<Vec<char>>) -> (r: Vec<char>)
    ensures
        r@ == normalized_path(path@, char_rows(bases@)),
{
    let mut best: Option<usize> = None;
    let mut k: usize = 0;
    while k < bases.len()
        invariant
            k <= bases.len(),
            best matches Some(l) ==> l <= path@.len(),
            longest_base(path@, char_rows(bases@), k as nat) == match best {
                Some(l) => Some(path@.take(l as int)),
                None => None,
            },
        decreases bases.len() - k,
    {
        let base = &bases[k];
        let blen = trim_end_len(base.as_slice(), '/');
        proof {
            assert(char_rows(bases@)[k as int] == base@);
        }
        if has_prefix(path, base.as_slice(), blen) {
            let on_boundary = path.len() == blen || (path.len() > blen && path[blen] == '/');
            let prev_len: usize = match best {
                Some(l) => l,
                None => 0,
            };
            if on_boundary && prev_len <= blen {
                best = Some(blen);
            }
        }
        k = k + 1;
    }
    proof {
        assert(char_rows(bases@).len() == bases.len());
    }
    match best {
        Some(l) => if path.len() > l {
            trim_start_from(path, l, '/')
        } else {
            vstd::slice::slice_to_vec(path)
        },
        None => vstd::slice::slice_to_vec(path),
    }
}

/// Strip the longest configured `base_path` from `path`.
///
/// A path that *is* a base path keeps its full form: stripping it would leave
/// nothing to name the session after.
pub fn normalize_path(path: &str, config: &Config) -> (r: String)
    ensures
        r@ == normalized_path(path@, config.base_paths_view()),
{
    let bases = base_chars(config);
    let cs = chars_of(path);
    let n = normalize(cs.as_slice(), &bases);
    let mut r = String::new();
    push_chars(&mut r, n.as_slice());
    r
}

/// The base paths of `config`, as characters.
fn base_chars(config: &Config) -> (r: Vec<Vec<char>>)
    ensures
        char_rows(r@) == config.base_paths_view(),
{
    let mut r: Vec<Vec<char>> = Vec::new();
    let mut k: usize = 0;
    while k < config.base_paths.len()
        invariant
            k <= config.base_paths.len(),
            char_rows(r@) == config.base_paths_view().take(k as int),
        decreases config.base_paths.len() - k,
    {
        let row = chars_of(config.base_paths[k].as_str());
        let ghost before = char_rows(r@);
        r.push(row);
        assert(char_rows(r@) == before.push(config.base_paths@[k as int]@));
        assert(config.base_paths_view().take(k + 1) == config.base_paths_view().take(k as int).push(
            config.base_paths@[k as int]@,
        ));
        assert(char_rows(r@) =~= config.base_paths_view().take(k + 1));
        k = k + 1;
    }
    assert(config.base_paths_view().take(config.base_paths.len() as int) == config.base_paths_view());
    r
}

/// `join_tail`, computed.
fn join_tail_of(segments: &Vec<Vec<char>>, count: usize, separator: &[char]) -> (r: Vec<char>)
    ensures
        r@ == join_tail(char_rows(segments@), count as nat, separator@),
{
    let start = if count >= segments.len() { 0 } else { segments.len() - count };
    let r = join_from(segments, start, separator);
    proof {
        if count >= segments.len() {
            assert(char_rows(segments@).skip(0) == char_rows(segments@));
        }
    }
    r
}

/// `name` kept inside the byte budget for the socket name.
fn within_hard_limit(name: Vec<char>) -> (r: Vec<char>)
    ensures
        r@ == within_limit(name@),
{
    proof {
        crate::text::lemma_truncated_to_bytes_fits(name@, MAX_GENERATED_NAME_BYTES as nat);
    }
    if !crate::strings::byte_len_at_least(name.as_slice(), MAX_SESSION_NAME_BYTES) {
        return name;
    }
    let mut s = String::new();
    push_chars(&mut s, name.as_slice());
    let t = truncate_bytes(s.as_str(), MAX_GENERATED_NAME_BYTES);
    chars_of(t.as_str())
}

/// Bring an over-long name inside `MAX_GENERATED_NAME_LEN`.
///
/// The required segments are abbreviated first, then dropped from the left,
/// and only cut mid-segment as a last resort. Any budget left over is spent
/// adding abbreviated context back from the left.
fn shorten(segments: &Vec<Vec<char>>, required: usize, separator: &[char]) -> (r: Vec<char>)
    requires
        1 <= required <= segments.len(),
    ensures
        r@ == shortened(char_rows(segments@), required as nat, separator@),
{
    let ghost segs = char_rows(segments@);
    let start = segments.len() - required;
    let mut kept: Vec<Vec<char>> = Vec::new();
    let mut i: usize = start;
    while i < segments.len()
        invariant
            start <= i <= segments.len(),
            segs == char_rows(segments@),
            char_rows(kept@) == segs.subrange(start as int, i as int).map_values(
                |x: Seq<char>| abbreviation(x),
            ),
        decreases segments.len() - i,
    {
        let a = abbreviate(segments[i].as_slice());
        let ghost before = char_rows(kept@);
        kept.push(a);
        assert(char_rows(kept@) == before.push(abbreviation(segs[i as int])));
        assert(segs.subrange(start as int, i + 1) == segs.subrange(start as int, i as int).push(
            segs[i as int],
        ));
        assert(char_rows(kept@) =~= segs.subrange(start as int, i + 1).map_values(
            |x: Seq<char>| abbreviation(x),
        ));
        i = i + 1;
    }
    let ghost abbreviated = tail_of(segs, required as nat).map_values(|x: Seq<char>| abbreviation(x));
    proof {
        if required >= segments.len() {
            assert(segs.subrange(0, segs.len() as int) == segs);
        } else {
            assert(segs.subrange(start as int, segs.len() as int) == segs.skip(start as int));
        }
        assert(char_rows(kept@) == abbreviated);
    }
    // Drop from the left while too wide.
    while join_from(&kept, 0, separator).len() > MAX_GENERATED_NAME_LEN && kept.len() > 1
        invariant
            drop_leading(abbreviated, separator@) == drop_leading(char_rows(kept@), separator@),
            kept.len() >= 1,
        decreases kept.len(),
    {
        proof {
            assert(char_rows(kept@).skip(0) == char_rows(kept@));
            assert(char_rows(kept@.remove(0)) == char_rows(kept@).drop_first());
        }
        kept.remove(0);
    }
    proof {
        assert(char_rows(kept@).skip(0) == char_rows(kept@));
    }
    let ghost dropped = drop_leading(abbreviated, separator@);
    assert(dropped == char_rows(kept@));
    if join_from(&kept, 0, separator).len() > MAX_GENERATED_NAME_LEN {
        let mut first = String::new();
        push_chars(&mut first, kept[0].as_slice());
        let cut = truncate_chars(first.as_str(), MAX_GENERATED_NAME_LEN);
        let mut only: Vec<Vec<char>> = Vec::new();
        only.push(chars_of(cut.as_str()));
        assert(char_rows(only@) =~= seq![truncated_to_chars(dropped[0], MAX_GENERATED_NAME_LEN as nat)]);
        kept = only;
    }
    let ghost cut_segments = char_rows(kept@);
    // Add abbreviated context back from the left while it fits.
    let mut m: usize = start;
    let mut done = false;
    while m > 0 && !done
        invariant
            m <= start <= segments.len(),
            segs == char_rows(segments@),
            extend_left(cut_segments, segs, start as nat, separator@) == (if done {
                char_rows(kept@)
            } else {
                extend_left(char_rows(kept@), segs, m as nat, separator@)
            }),
        decreases m + (if done { 0nat } else { 1nat }),
    {
        let mut extended: Vec<Vec<char>> = Vec::new();
        extended.push(abbreviate(segments[m - 1].as_slice()));
        let mut k: usize = 0;
        let ghost head = char_rows(extended@);
        while k < kept.len()
            invariant
                k <= kept.len(),
                extended@.len() == k + 1,
                char_rows(extended@) == head + char_rows(kept@).take(k as int),
            decreases kept.len() - k,
        {
            let ghost before = char_rows(extended@);
            extended.push(kept[k].clone());
            assert(char_rows(extended@) == before.push(kept@[k as int]@));
            assert(char_rows(kept@).take(k + 1) == char_rows(kept@).take(k as int).push(
                kept@[k as int]@,
            ));
            k = k + 1;
        }
        assert(char_rows(kept@).take(kept.len() as int) == char_rows(kept@));
        assert(char_rows(extended@) == seq![abbreviation(segs[m - 1])] + char_rows(kept@));
        assert(char_rows(extended@).skip(0) == char_rows(extended@));
        if join_from(&extended, 0, separator).len() > MAX_GENERATED_NAME_LEN {
            done = true;
        } else {
            kept = extended;
            m = m - 1;
        }
    }
    proof {
        if !done {
            assert(m == 0);
        }
        assert(char_rows(kept@).skip(0) == char_rows(kept@));
    }
    let joined = join_from(&kept, 0, separator);
    within_hard_limit(joined)
}

/// What naming works out once per path: its normalised form and its
/// segments.
struct Prepared {
    normalized: Vec<Vec<char>>,
    segments: Vec<Vec<Vec<char>>>,
}

impl Prepared {
    spec fn matches(&self, paths: Seq<Seq<char>>, bases: Seq<Seq<char>>) -> bool {
        &&& self.normalized@.len() == paths.len()
        &&& self.segments@.len() == paths.len()
        &&& forall|j: int|
            0 <= j < paths.len() ==> (#[trigger] self.normalized@[j])@ == normalized_path(
                paths[j],
                bases,
            )
        &&& forall|j: int|
            0 <= j < paths.len() ==> char_rows((#[trigger] self.segments@[j])@) == path_segments(
                normalized_path(paths[j], bases),
            )
    }
}

fn prepare(paths: &[&str], bases: &Vec<Vec<char>>) -> (p: Prepared)
    ensures
        p.matches(path_views(paths@), char_rows(bases@)),
{
    let mut normalized: Vec<Vec<char>> = Vec::new();
    let mut segments: Vec<Vec<Vec<char>>> = Vec::new();
    let mut j: usize = 0;
    while j < paths.len()
        invariant
            j <= paths.len(),
            normalized@.len() == j,
            segments@.len() == j,
            forall|t: int|
                0 <= t < j ==> (#[trigger] normalized@[t])@ == normalized_path(
                    path_views(paths@)[t],
                    char_rows(bases@),
                ),
            forall|t: int|
                0 <= t < j ==> char_rows((#[trigger] segments@[t])@) == path_segments(
                    normalized_path(path_views(paths@)[t], char_rows(bases@)),
                ),
        decreases paths.len() - j,
    {
        let cs = chars_of(paths[j]);
        let n = normalize(cs.as_slice(), bases);
        let segs = keep_non_empty(split_chars(n.as_slice(), '/', '/'));
        normalized.push(n);
        segments.push(segs);
        j = j + 1;
    }
    Prepared { normalized, segments }
}

/// Whether the last `length` segments of path `i` read the same as those of a rival.
fn clashes_at(
    p: &Prepared,
    names: &Vec<String>,
    i: usize,
    length: usize,
    separator: &[char],
    Ghost(paths): Ghost<Seq<Seq<char>>>,
    Ghost(bases): Ghost<Seq<Seq<char>>>,
) -> (r: bool)
    requires
        p.matches(paths, bases),
        names.len() == paths.len(),
        i < paths.len(),
    ensures
        r == clashes_by(paths, string_views(names@), bases, separator@, i as int, length as nat),
{
    let ghost nm = string_views(names@);
    let candidate = join_tail_of(&p.segments[i], length, separator);
    let mut j: usize = 0;
    while j < p.segments.len()
        invariant
            j <= p.segments.len(),
            p.matches(paths, bases),
            names.len() == paths.len(),
            nm == string_views(names@),
            i < paths.len(),
            candidate@ == join_tail(path_segments(normalized_path(paths[i as int], bases)), length as nat, separator@),
            forall|t: int|
                #![trigger rival_by(nm, i as int, t)]
                0 <= t < j ==> !(rival_by(nm, i as int, t) && path_segments(
                    normalized_path(paths[t], bases),
                ).len() >= length && join_tail(
                    path_segments(normalized_path(paths[t], bases)),
                    length as nat,
                    separator@,
                ) == join_tail(path_segments(normalized_path(paths[i as int], bases)), length as nat, separator@)),
        decreases p.segments.len() - j,
    {
        assert(char_rows(p.segments@[j as int]@) == path_segments(normalized_path(paths[j as int], bases)));
        assert(nm[j as int] == names@[j as int]@);
        assert(nm[i as int] == names@[i as int]@);
        if j != i && crate::session_name::str_eq(names[j].as_str(), names[i].as_str())
            && p.segments[j].len() >= length {
            let other = join_tail_of(&p.segments[j], length, separator);
            if chars_equal(other.as_slice(), candidate.as_slice()) {
                assert(rival_by(nm, i as int, j as int));
                return true;
            }
        }
        j = j + 1;
    }
    false
}

/// The fewest segments, from `minimum` up, that tell path `i` apart.
fn required_from(
    p: &Prepared,
    names: &Vec<String>,
    i: usize,
    minimum: usize,
    separator: &[char],
    Ghost(paths): Ghost<Seq<Seq<char>>>,
    Ghost(bases): Ghost<Seq<Seq<char>>>,
) -> (r: usize)
    requires
        p.matches(paths, bases),
        names.len() == paths.len(),
        i < paths.len(),
        1 <= minimum <= p.segments@[i as int]@.len(),
    ensures
        r == required_by(paths, string_views(names@), bases, separator@, i as int, minimum as nat),
        minimum <= r <= p.segments@[i as int]@.len(),
{
    let ghost nm = string_views(names@);
    let n = p.segments[i].len();
    assert(char_rows(p.segments@[i as int]@) == path_segments(normalized_path(paths[i as int], bases)));
    let mut length = minimum;
    while length < n
        invariant
            minimum <= length <= n,
            n == p.segments@[i as int]@.len(),
            n == path_segments(normalized_path(paths[i as int], bases)).len(),
            p.matches(paths, bases),
            names.len() == paths.len(),
            nm == string_views(names@),
            i < paths.len(),
            required_by(paths, nm, bases, separator@, i as int, minimum as nat)
                == required_by(paths, nm, bases, separator@, i as int, length as nat),
        decreases n - length,
    {
        if !clashes_at(p, names, i, length, separator, Ghost(paths), Ghost(bases)) {
            return length;
        }
        length = length + 1;
    }
    assert(required_by(paths, nm, bases, separator@, i as int, (n + 1) as nat) == n);
    n
}

/// Whether path `i`, normalised, sits strictly inside another one, given
/// what `Path::ancestors` lists for it.
fn is_nested(
    p: &Prepared,
    list: &Vec<String>,
    i: usize,
    Ghost(paths): Ghost<Seq<Seq<char>>>,
    Ghost(lists): Ghost<Seq<Seq<Seq<char>>>>,
    Ghost(bases): Ghost<Seq<Seq<char>>>,
) -> (r: bool)
    requires
        p.matches(paths, bases),
        i < paths.len(),
        lists.len() == paths.len(),
        string_views(list@) == lists[i as int],
    ensures
        r == nested_by(paths, lists, bases, i as int),
{
    let ghost anc = strict_of(lists[i as int]);
    let mut a: usize = 1;
    if list.len() == 0 {
        assert(anc.len() == 0);
        return false;
    }
    while a < list.len()
        invariant
            1 <= a <= list.len(),
            p.matches(paths, bases),
            i < paths.len(),
            lists.len() == paths.len(),
            string_views(list@) == lists[i as int],
            anc == strict_of(lists[i as int]),
            forall|x: int, j: int|
                #![trigger anc[x], paths[j]]
                0 <= x < a - 1 && 0 <= j < paths.len() ==> !(anc[x].len() > 0 && anc[x]
                    == normalized_path(paths[j], bases)),
        decreases list.len() - a,
    {
        let ac = chars_of(list[a].as_str());
        assert(ac@ == anc[a - 1]);
        if ac.len() > 0 {
            let mut j: usize = 0;
            while j < p.normalized.len()
                invariant
                    j <= p.normalized.len(),
                    p.matches(paths, bases),
                    i < paths.len(),
                    1 <= a < list.len(),
                    lists.len() == paths.len(),
                    anc == strict_of(lists[i as int]),
                    string_views(list@) == lists[i as int],
                    ac@ == anc[a - 1],
                    ac@.len() > 0,
                    forall|t: int| 0 <= t < j ==> anc[a - 1] != normalized_path(#[trigger] paths[t], bases),
                decreases p.normalized.len() - j,
            {
                assert(p.normalized@[j as int]@ == normalized_path(paths[j as int], bases));
                if chars_equal(ac.as_slice(), p.normalized[j].as_slice()) {
                    assert(anc[a - 1] == normalized_path(paths[j as int], bases));
                    assert(strict_of(lists[i as int])[a - 1] == normalized_path(paths[j as int], bases));
                    assert(0 <= a - 1 < strict_of(lists[i as int]).len());
                    return true;
                }
                j = j + 1;
            }
        }
        a = a + 1;
    }
    false
}

/// Name the path at `i`, adding the fewest leading segments that tell it
/// apart from the other paths that share its basename.
fn context_aware_name(
    p: &Prepared,
    names: &Vec<String>,
    list: &Vec<String>,
    i: usize,
    separator: &[char],
    Ghost(paths): Ghost<Seq<Seq<char>>>,
    Ghost(lists): Ghost<Seq<Seq<Seq<char>>>>,
    Ghost(bases): Ghost<Seq<Seq<char>>>,
) -> (r: Vec<char>)
    requires
        p.matches(paths, bases),
        names.len() == paths.len(),
        lists.len() == paths.len(),
        string_views(list@) == lists[i as int],
        i < paths.len(),
    ensures
        r@ == name_by(paths, string_views(names@), lists, bases, separator@, i as int),
{
    let segments = &p.segments[i];
    assert(char_rows(segments@) == path_segments(normalized_path(paths[i as int], bases)));
    if segments.len() == 0 {
        let r: Vec<char> = vec!['r', 'o', 'o', 't'];
        assert(r@ == seq!['r', 'o', 'o', 't']);
        return r;
    }
    let nested_here = is_nested(p, list, i, Ghost(paths), Ghost(lists), Ghost(bases));
    let minimum = if nested_here {
        if segments.len() < NESTED_CONTEXT_SEGMENTS {
            segments.len()
        } else {
            NESTED_CONTEXT_SEGMENTS
        }
    } else {
        1
    };
    let required = required_from(p, names, i, minimum, separator, Ghost(paths), Ghost(bases));
    let name = join_tail_of(segments, required, separator);
    if name.len() > MAX_GENERATED_NAME_LEN {
        return shorten(segments, required, separator);
    }
    within_hard_limit(name)
}

/// Name each of `paths`, in the same order, given the basename of each
/// (`basenames[k]`, as `Path::file_name` gives it) and what
/// `Path::ancestors` lists for each path once normalised (`ancestor_lists[k]`,
/// the path itself first).
pub fn names_from_parts(
    paths: &[&str],
    basenames: &Vec<String>,
    ancestor_lists: &Vec<Vec<String>>,
    config: &Config,
) -> (r: Vec<String>)
    requires
        basenames.len() == paths.len(),
        ancestor_lists.len() == paths.len(),
    ensures
        r@.len() == paths@.len(),
        forall|i: int|
            0 <= i < paths@.len() ==> (#[trigger] r@[i])@ == name_by(
                path_views(paths@),
                string_views(basenames@),
                string_list_views(ancestor_lists@),
                config.base_paths_view(),
                config.separator_view(),
                i,
            ),
{
    let bases = base_chars(config);
    let separator = chars_of(config.session_separator.as_str());
    let p = prepare(paths, &bases);
    let ghost pv = path_views(paths@);
    let ghost lists = string_list_views(ancestor_lists@);
    let mut names: Vec<String> = Vec::new();
    let mut i: usize = 0;
    while i < paths.len()
        invariant
            i <= paths.len(),
            p.matches(pv, config.base_paths_view()),
            pv == path_views(paths@),
            lists == string_list_views(ancestor_lists@),
            basenames.len() == paths.len(),
            ancestor_lists.len() == paths.len(),
            char_rows(bases@) == config.base_paths_view(),
            separator@ == config.separator_view(),
            names@.len() == i,
            forall|t: int|
                0 <= t < i ==> (#[trigger] names@[t])@ == name_by(
                    pv,
                    string_views(basenames@),
                    lists,
                    config.base_paths_view(),
                    config.separator_view(),
                    t,
                ),
        decreases paths.len() - i,
    {
        let name = context_aware_name(
            &p,
            basenames,
            &ancestor_lists[i],
            i,
            separator.as_slice(),
            Ghost(pv),
            Ghost(lists),
            Ghost(config.base_paths_view()),
        );
        let mut s = String::new();
        push_chars(&mut s, name.as_slice());
        names.push(s);
        i = i + 1;
    }
    names
}

/// Generate a session name for each of `paths`, in the same order.
pub fn session_names(paths: &[&str], config: &Config) -> (r: Vec<String>)
    ensures
        r@.len() == paths@.len(),
        forall|i: int|
            0 <= i < paths@.len() ==> (#[trigger] r@[i])@ == generated_name(
                path_views(paths@),
                config.base_paths_view(),
                config.separator_view(),
                i,
            ),
{
    let ghost pv = path_views(paths@);
    let ghost bv = config.base_paths_view();
    let mut basenames: Vec<String> = Vec::new();
    let mut lists: Vec<Vec<String>> = Vec::new();
    let mut j: usize = 0;
    while j < paths.len()
        invariant
            j <= paths.len(),
            pv == path_views(paths@),
            bv == config.base_paths_view(),
            basenames@.len() == j,
            lists@.len() == j,
            forall|t: int| 0 <= t < j ==> (#[trigger] basenames@[t])@ == path_file_name(pv[t]),
            forall|t: int|
                0 <= t < j ==> string_views((#[trigger] lists@[t])@) == path_ancestor_list(
                    normalized_path(pv[t], bv),
                ),
        decreases paths.len() - j,
    {
        basenames.push(basename(paths[j]));
        let normalized = normalize_path(paths[j], config);
        let list = ancestors(normalized.as_str());
        assert(string_views(list@) == list@.map_values(|a: String| a@));
        lists.push(list);
        j = j + 1;
    }
    proof {
        assert(path_facts(pv, string_views(basenames@), string_list_views(lists@), bv));
    }
    let r = names_from_parts(paths, &basenames, &lists, config);
    proof {
        assert forall|i: int| 0 <= i < paths@.len() implies (#[trigger] r@[i])@ == generated_name(
            pv,
            bv,
            config.separator_view(),
            i,
        ) by {
            lemma_name_by_generated(pv, string_views(basenames@), string_list_views(lists@), bv, config.separator_view(), i);
        }
    }
    r
}

/// With the outside results as `Path::file_name` and `Path::ancestors`
/// give them, `name_by` is `generated_name`.
proof fn lemma_name_by_generated(
    paths: Seq<Seq<char>>,
    names: Seq<Seq<char>>,
    lists: Seq<Seq<Seq<char>>>,
    bases: Seq<Seq<char>>,
    separator: Seq<char>,
    i: int,
)
    requires
        0 <= i < paths.len(),
        path_facts(paths, names, lists, bases),
    ensures
        name_by(paths, names, lists, bases, separator, i) == generated_name(paths, bases, separator, i),
{
    assert(strict_of(lists[i]) == path_ancestors(normalized_path(paths[i], bases)));
    assert(nested_by(paths, lists, bases, i) == nested(paths, bases, i)) by {
        if nested_by(paths, lists, bases, i) {
            let (a, j) = choose|a: int, j: int|
                #![trigger strict_of(lists[i])[a], paths[j]]
                0 <= a < strict_of(lists[i]).len() && 0 <= j < paths.len() && strict_of(lists[i])[a].len()
                    > 0 && strict_of(lists[i])[a] == normalized_path(paths[j], bases);
            assert(path_ancestors(normalized_path(paths[i], bases))[a] == strict_of(lists[i])[a]);
        }
        if nested(paths, bases, i) {
            let (a, j) = choose|a: int, j: int|
                #![trigger path_ancestors(normalized_path(paths[i], bases))[a], paths[j]]
                0 <= a < path_ancestors(normalized_path(paths[i], bases)).len() && 0 <= j < paths.len()
                    && path_ancestors(normalized_path(paths[i], bases))[a].len() > 0 && path_ancestors(
                    normalized_path(paths[i], bases),
                )[a] == normalized_path(paths[j], bases);
            assert(strict_of(lists[i])[a] == path_ancestors(normalized_path(paths[i], bases))[a]);
        }
    }
    let segments = path_segments(normalized_path(paths[i], bases));
    if segments.len() > 0 {
        let minimum: nat = if nested(paths, bases, i) {
            if segments.len() < NESTED_CONTEXT_SEGMENTS {
                segments.len()
            } else {
                NESTED_CONTEXT_SEGMENTS as nat
            }
        } else {
            1
        };
        lemma_required_by_same(paths, names, bases, separator, i, minimum);
    }
}

/// With the basenames `Path::file_name` gives, `required_by` is
/// `required_segments`.
proof fn lemma_required_by_same(
    paths: Seq<Seq<char>>,
    names: Seq<Seq<char>>,
    bases: Seq<Seq<char>>,
    separator: Seq<char>,
    i: int,
    length: nat,
)
    requires
        0 <= i < paths.len(),
        names.len() == paths.len(),
        forall|j: int| 0 <= j < paths.len() ==> #[trigger] names[j] == path_file_name(paths[j]),
    ensures
        required_by(paths, names, bases, separator, i, length) == required_segments(
            paths,
            bases,
            separator,
            i,
            length,
        ),
    decreases path_segments(normalized_path(paths[i], bases)).len() + 1 - length,
{
    assert(clashes_by(paths, names, bases, separator, i, length) == clashes(
        paths,
        bases,
        separator,
        i,
        length,
    )) by {
        assert forall|j: int| #[trigger] rival_by(names, i, j) == rivals(paths, i, j) by {
            if 0 <= j < paths.len() {
                assert(names[j] == path_file_name(paths[j]));
                assert(names[i] == path_file_name(paths[i]));
            }
        }
        if clashes_by(paths, names, bases, separator, i, length) {
            let j = choose|j: int|
                #![trigger rival_by(names, i, j)]
                rival_by(names, i, j) && path_segments(normalized_path(paths[j], bases)).len() >= length
                    && join_tail(path_segments(normalized_path(paths[j], bases)), length, separator)
                    == join_tail(path_segments(normalized_path(paths[i], bases)), length, separator);
            assert(rivals(paths, i, j));
        }
        if clashes(paths, bases, separator, i, length) {
            let j = choose|j: int|
                #![trigger rivals(paths, i, j)]
                rivals(paths, i, j) && path_segments(normalized_path(paths[j], bases)).len() >= length
                    && join_tail(path_segments(normalized_path(paths[j], bases)), length, separator)
                    == join_tail(path_segments(normalized_path(paths[i], bases)), length, separator);
            assert(rival_by(names, i, j));
        }
    }
    let n = path_segments(normalized_path(paths[i], bases)).len();
    if length <= n && clashes(paths, bases, separator, i, length) {
        lemma_required_by_same(paths, names, bases, separator, i, length + 1);
    }
}

// ----- laws -----

proof fn lemma_find_either_avoids(s: Seq<char>, a: char, b: char)
    ensures
        find_either(s, a, b) <= s.len(),
        forall|i: int| 0 <= i < find_either(s, a, b) ==> s[i] != a && s[i] != b,
        find_either(s, a, b) < s.len() ==> (s[find_either(s, a, b) as int] == a || s[
            find_either(s, a, b) as int
        ] == b),
    decreases s.len(),
{
    if s.len() > 0 && s[0] != a && s[0] != b {
        lemma_find_either_avoids(s.drop_first(), a, b);
        assert forall|i: int| 0 <= i < find_either(s, a, b) implies s[i] != a && s[i] != b by {
            if i > 0 {
                assert(s[i] == s.drop_first()[i - 1]);
            }
        }
    }
}

/// No piece of a split holds a separator, nor a character `s` lacks.
proof fn lemma_split_pieces_avoid(s: Seq<char>, a: char, b: char, c: char)
    ensures
        forall|k: int|
            0 <= k < split_either(s, a, b).len() ==> !(#[trigger] split_either(s, a, b)[k]).contains(
                a,
            ) && !split_either(s, a, b)[k].contains(b) && (!s.contains(c)
                ==> !split_either(s, a, b)[k].contains(c)),
    decreases s.len(),
{
    lemma_find_either_avoids(s, a, b);
    let f = find_either(s, a, b);
    let first = s.take(f as int);
    assert(!first.contains(a) && !first.contains(b)) by {
        assert forall|i: int| 0 <= i < first.len() implies first[i] != a && first[i] != b by {
            assert(first[i] == s[i]);
        }
    }
    assert(!s.contains(c) ==> !first.contains(c)) by {
        if !s.contains(c) {
            assert forall|i: int| 0 <= i < first.len() implies first[i] != c by {
                assert(first[i] == s[i]);
            }
        }
    }
    if f < s.len() {
        let rest = s.skip((f + 1) as int);
        lemma_split_pieces_avoid(rest, a, b, c);
        assert(!s.contains(c) ==> !rest.contains(c)) by {
            if !s.contains(c) {
                assert forall|i: int| 0 <= i < rest.len() implies rest[i] != c by {
                    assert(rest[i] == s[i + f + 1]);
                }
            }
        }
        let all = split_either(s, a, b);
        assert(all == seq![first] + split_either(rest, a, b));
        assert forall|k: int| 0 <= k < all.len() implies !(#[trigger] all[k]).contains(a)
            && !all[k].contains(b) && (!s.contains(c) ==> !all[k].contains(c)) by {
            if k > 0 {
                assert(all[k] == split_either(rest, a, b)[k - 1]);
            }
        }
    } else {
        assert(first == s);
    }
}

/// `non_empty` keeps a property every entry has.
proof fn lemma_non_empty_avoids(ps: Seq<Seq<char>>, c: char)
    requires
        forall|k: int| 0 <= k < ps.len() ==> !(#[trigger] ps[k]).contains(c),
    ensures
        forall|k: int| 0 <= k < non_empty(ps).len() ==> !(#[trigger] non_empty(ps)[k]).contains(c),
    decreases ps.len(),
{
    if ps.len() > 0 {
        lemma_non_empty_avoids(ps.drop_last(), c);
        let r = non_empty(ps.drop_last());
        assert(!ps.last().contains(c));
        assert forall|k: int| 0 <= k < non_empty(ps).len() implies !(#[trigger] non_empty(ps)[k]).contains(c) by {
            if ps.last().len() > 0 {
                assert(non_empty(ps) == r.push(ps.last()));
                if k < r.len() {
                    assert(non_empty(ps)[k] == r[k]);
                }
            }
        }
    }
}

/// No segment holds a `/`.
proof fn lemma_segments_avoid_slash(path: Seq<char>)
    ensures
        forall|k: int|
            0 <= k < path_segments(path).len() ==> !(#[trigger] path_segments(path)[k]).contains('/'),
{
    lemma_split_pieces_avoid(path, '/', '/', '/');
    lemma_non_empty_avoids(split_on(path, '/'), '/');
}

proof fn lemma_alphabetic_take_avoids(s: Seq<char>, n: nat, c: char)
    requires
        !s.contains(c),
    ensures
        !alphabetic_take(s, n).contains(c),
    decreases s.len(),
{
    if n > 0 && s.len() > 0 {
        let rest = s.drop_first();
        assert(!rest.contains(c)) by {
            assert forall|i: int| 0 <= i < rest.len() implies rest[i] != c by {
                assert(rest[i] == s[i + 1]);
            }
        }
        if char_is_alphabetic(s[0]) {
            lemma_alphabetic_take_avoids(rest, (n - 1) as nat, c);
            let t = alphabetic_take(rest, (n - 1) as nat);
            assert(s[0] != c);
            assert forall|i: int| 0 <= i < t.len() + 1 implies (seq![s[0]] + t)[i] != c by {
                if i > 0 {
                    assert((seq![s[0]] + t)[i] == t[i - 1]);
                }
            }
        } else {
            lemma_alphabetic_take_avoids(rest, n, c);
        }
    }
}

/// An abbreviation holds no `/` when its segment holds none.
proof fn lemma_abbreviation_avoids_slash(s: Seq<char>)
    requires
        !s.contains('/'),
    ensures
        !abbreviation(s).contains('/'),
{
    if s.len() > 3 {
        if (s.contains('-') || s.contains('_')) && split_either(s, '-', '_').len() > 1 {
            lemma_split_pieces_avoid(s, '-', '_', '/');
            let ps = non_empty(split_either(s, '-', '_'));
            lemma_non_empty_avoids(split_either(s, '-', '_'), '/');
            lemma_non_empty_entries(split_either(s, '-', '_'));
            let singles = ps.map_values(|p: Seq<char>| seq![p[0]]);
            assert forall|k: int| 0 <= k < singles.len() implies !(#[trigger] singles[k]).contains('/') by {
                assert(singles[k] == seq![ps[k][0]]);
                assert(ps[k].len() > 0);
                assert(ps[k][0] != '/');
            }
            crate::strings::lemma_join_avoids(singles, seq!['-'], '/');
        } else {
            lemma_alphabetic_take_avoids(s.drop_first(), 2, '/');
            let a = seq![s[0]] + alphabetic_take(s.drop_first(), 2);
            assert(s[0] != '/');
            assert(s[1] != '/');
            assert(!a.contains('/')) by {
                assert forall|i: int| 0 <= i < a.len() implies a[i] != '/' by {
                    if i > 0 {
                        assert(a[i] == alphabetic_take(s.drop_first(), 2)[i - 1]);
                    }
                }
            }
            if a.len() < 2 {
                assert forall|i: int| 0 <= i < a.push(s[1]).len() implies a.push(s[1])[i] != '/' by {
                    if i < a.len() {
                        assert(a.push(s[1])[i] == a[i]);
                    }
                }
            }
        }
    }
}

/// A prefix holds no `c` when the whole holds none.
proof fn lemma_take_avoids(s: Seq<char>, k: int, c: char)
    requires
        !s.contains(c),
        0 <= k <= s.len(),
    ensures
        !s.take(k).contains(c),
{
    assert forall|i: int| 0 <= i < s.take(k).len() implies s.take(k)[i] != c by {
        assert(s.take(k)[i] == s[i]);
    }
}

proof fn lemma_drop_leading_shape(kept: Seq<Seq<char>>, separator: Seq<char>)
    requires
        kept.len() >= 1,
    ensures
        1 <= drop_leading(kept, separator).len() <= kept.len(),
        drop_leading(kept, separator) == kept.skip(kept.len() - drop_leading(kept, separator).len()),
        drop_leading(kept, separator).len() > 1 ==> join(drop_leading(kept, separator), separator).len()
            <= MAX_GENERATED_NAME_LEN,
    decreases kept.len(),
{
    if join(kept, separator).len() > MAX_GENERATED_NAME_LEN && kept.len() > 1 {
        lemma_drop_leading_shape(kept.drop_first(), separator);
        let d = drop_leading(kept.drop_first(), separator);
        assert(kept.drop_first().skip(kept.drop_first().len() - d.len()) =~= kept.skip(kept.len() - d.len()));
    } else {
        assert(kept.skip(0) == kept);
    }
}

proof fn lemma_extend_left_fits(
    kept: Seq<Seq<char>>,
    segments: Seq<Seq<char>>,
    m: nat,
    separator: Seq<char>,
)
    requires
        join(kept, separator).len() <= MAX_GENERATED_NAME_LEN,
    ensures
        join(extend_left(kept, segments, m, separator), separator).len() <= MAX_GENERATED_NAME_LEN,
    decreases m,
{
    if m > 0 && m <= segments.len() {
        let extended = seq![abbreviation(segments[m - 1])] + kept;
        if join(extended, separator).len() <= MAX_GENERATED_NAME_LEN {
            lemma_extend_left_fits(extended, segments, (m - 1) as nat, separator);
        }
    }
}

proof fn lemma_extend_left_avoids(
    kept: Seq<Seq<char>>,
    segments: Seq<Seq<char>>,
    m: nat,
    separator: Seq<char>,
)
    requires
        forall|k: int| 0 <= k < kept.len() ==> !(#[trigger] kept[k]).contains('/'),
        forall|k: int| 0 <= k < segments.len() ==> !(#[trigger] segments[k]).contains('/'),
    ensures
        forall|k: int|
            0 <= k < extend_left(kept, segments, m, separator).len() ==> !(#[trigger] extend_left(
                kept,
                segments,
                m,
                separator,
            )[k]).contains('/'),
    decreases m,
{
    if m > 0 && m <= segments.len() {
        let extended = seq![abbreviation(segments[m - 1])] + kept;
        if join(extended, separator).len() <= MAX_GENERATED_NAME_LEN {
            lemma_abbreviation_avoids_slash(segments[m - 1]);
            assert forall|k: int| 0 <= k < extended.len() implies !(#[trigger] extended[k]).contains('/') by {
                if k > 0 {
                    assert(extended[k] == kept[k - 1]);
                }
            }
            lemma_extend_left_avoids(extended, segments, (m - 1) as nat, separator);
            assert(extend_left(kept, segments, m, separator) == extend_left(
                extended,
                segments,
                (m - 1) as nat,
                separator,
            ));
        } else {
            assert(extend_left(kept, segments, m, separator) == kept);
        }
    } else {
        assert(extend_left(kept, segments, m, separator) == kept);
    }
}

proof fn lemma_required_bounds(
    paths: Seq<Seq<char>>,
    bases: Seq<Seq<char>>,
    separator: Seq<char>,
    i: int,
    length: nat,
)
    requires
        length <= path_segments(normalized_path(paths[i], bases)).len(),
    ensures
        length <= required_segments(paths, bases, separator, i, length) <= path_segments(
            normalized_path(paths[i], bases),
        ).len(),
    decreases path_segments(normalized_path(paths[i], bases)).len() + 1 - length,
{
    let n = path_segments(normalized_path(paths[i], bases)).len();
    if length < n && clashes(paths, bases, separator, i, length) {
        lemma_required_bounds(paths, bases, separator, i, length + 1);
    } else if length == n && clashes(paths, bases, separator, i, length) {
        assert(required_segments(paths, bases, separator, i, length + 1) == n);
    }
}

/// Facts about the shortened name used by the laws below.
proof fn lemma_shortened_facts(segments: Seq<Seq<char>>, required: nat, separator: Seq<char>)
    requires
        1 <= required <= segments.len(),
    ensures
        shortened(segments, required, separator).len() <= MAX_GENERATED_NAME_LEN,
        !separator.contains('/') && (forall|k: int|
            0 <= k < segments.len() ==> !(#[trigger] segments[k]).contains('/')) ==> !shortened(
            segments,
            required,
            separator,
        ).contains('/'),
{
    let abbreviated = tail_of(segments, required).map_values(|s: Seq<char>| abbreviation(s));
    assert(abbreviated.len() >= 1);
    lemma_drop_leading_shape(abbreviated, separator);
    let dropped = drop_leading(abbreviated, separator);
    let cut = if join(dropped, separator).len() > MAX_GENERATED_NAME_LEN {
        seq![truncated_to_chars(dropped[0], MAX_GENERATED_NAME_LEN as nat)]
    } else {
        dropped
    };
    let m: nat = (segments.len() - required) as nat;
    assert(join(cut, separator).len() <= MAX_GENERATED_NAME_LEN);
    lemma_extend_left_fits(cut, segments, m, separator);
    let joined = join(extend_left(cut, segments, m, separator), separator);
    crate::text::lemma_truncated_to_bytes_fits(joined, MAX_GENERATED_NAME_BYTES as nat);
    if !separator.contains('/') && (forall|k: int|
        0 <= k < segments.len() ==> !(#[trigger] segments[k]).contains('/')) {
        let t = tail_of(segments, required);
        assert forall|k: int| 0 <= k < abbreviated.len() implies !(#[trigger] abbreviated[k]).contains('/') by {
            assert(abbreviated[k] == abbreviation(t[k]));
            if required >= segments.len() {
                assert(t[k] == segments[k]);
            } else {
                assert(t[k] == segments[k + segments.len() - required]);
            }
            lemma_abbreviation_avoids_slash(t[k]);
        }
        assert forall|k: int| 0 <= k < cut.len() implies !(#[trigger] cut[k]).contains('/') by {
            if join(dropped, separator).len() > MAX_GENERATED_NAME_LEN {
                assert(!dropped[0].contains('/')) by {
                    assert(dropped[0] == abbreviated[abbreviated.len() - dropped.len()]);
                }
                if dropped[0].len() > MAX_GENERATED_NAME_LEN {
                    lemma_take_avoids(dropped[0], MAX_GENERATED_NAME_LEN as int, '/');
                }
            } else {
                assert(dropped[k] == abbreviated[k + abbreviated.len() - dropped.len()]);
            }
        }
        lemma_extend_left_avoids(cut, segments, m, separator);
        crate::strings::lemma_join_avoids(extend_left(cut, segments, m, separator), separator, '/');
        lemma_take_avoids(joined, crate::text::byte_fit(joined, MAX_GENERATED_NAME_BYTES as nat) as int, '/');
    }
}

/// Every generated name fits the character budget and stays under the
/// socket byte limit, and holds no `/` unless the separator does: with a
/// separator free of `/`, every generated name passes `validate`.
pub proof fn lemma_generated_names_fit(
    paths: Seq<Seq<char>>,
    bases: Seq<Seq<char>>,
    separator: Seq<char>,
    i: int,
)
    requires
        0 <= i < paths.len(),
    ensures
        generated_name(paths, bases, separator, i).len() <= MAX_GENERATED_NAME_LEN,
        crate::strings::byte_len(generated_name(paths, bases, separator, i)) < MAX_SESSION_NAME_BYTES,
        !separator.contains('/') ==> !generated_name(paths, bases, separator, i).contains('/'),
        !separator.contains('/') ==> crate::session_name::validation(
            generated_name(paths, bases, separator, i),
        ) is Ok,
{
    let segments = path_segments(normalized_path(paths[i], bases));
    let name = generated_name(paths, bases, separator, i);
    lemma_segments_avoid_slash(normalized_path(paths[i], bases));
    if segments.len() == 0 {
        crate::strings::lemma_byte_len_bounds(name);
        assert(!name.contains('/')) by {
            assert forall|k: int| 0 <= k < name.len() implies name[k] != '/' by {}
        }
    } else {
        let minimum: nat = if nested(paths, bases, i) {
            if segments.len() < NESTED_CONTEXT_SEGMENTS {
                segments.len()
            } else {
                NESTED_CONTEXT_SEGMENTS as nat
            }
        } else {
            1
        };
        lemma_required_bounds(paths, bases, separator, i, minimum);
        let required = required_segments(paths, bases, separator, i, minimum);
        let joined = join_tail(segments, required, separator);
        if joined.len() > MAX_GENERATED_NAME_LEN {
            lemma_shortened_facts(segments, required, separator);
            crate::text::lemma_truncated_to_bytes_fits(
                join(
                    extend_left(
                        {
                            let abbreviated = tail_of(segments, required).map_values(
                                |s: Seq<char>| abbreviation(s),
                            );
                            let dropped = drop_leading(abbreviated, separator);
                            if join(dropped, separator).len() > MAX_GENERATED_NAME_LEN {
                                seq![truncated_to_chars(dropped[0], MAX_GENERATED_NAME_LEN as nat)]
                            } else {
                                dropped
                            }
                        },
                        segments,
                        (segments.len() - required) as nat,
                        separator,
                    ),
                    separator,
                ),
                MAX_GENERATED_NAME_BYTES as nat,
            );
        } else {
            crate::text::lemma_truncated_to_bytes_fits(joined, MAX_GENERATED_NAME_BYTES as nat);
            if !separator.contains('/') {
                let t = tail_of(segments, required);
                assert forall|k: int| 0 <= k < t.len() implies !(#[trigger] t[k]).contains('/') by {
                    if required < segments.len() {
                        assert(t[k] == segments[k + segments.len() - required]);
                    }
                }
                crate::strings::lemma_join_avoids(t, separator, '/');
                lemma_take_avoids(
                    joined,
                    crate::text::byte_fit(joined, MAX_GENERATED_NAME_BYTES as nat) as int,
                    '/',
                );
            }
        }
    }
}

/// A directory whose basename no other directory shares, and that sits
/// inside no other one, is named after its last segment alone when that
/// segment fits the budgets.
pub proof fn lemma_unique_basename_names_itself(
    paths: Seq<Seq<char>>,
    bases: Seq<Seq<char>>,
    separator: Seq<char>,
    i: int,
)
    requires
        0 <= i < paths.len(),
        forall|j: int| !(#[trigger] rivals(paths, i, j)),
        !nested(paths, bases, i),
        path_segments(normalized_path(paths[i], bases)).len() > 0,
        path_segments(normalized_path(paths[i], bases)).last().len() <= MAX_GENERATED_NAME_LEN,
        crate::strings::byte_len(path_segments(normalized_path(paths[i], bases)).last())
            < MAX_SESSION_NAME_BYTES,
    ensures
        generated_name(paths, bases, separator, i) == path_segments(
            normalized_path(paths[i], bases),
        ).last(),
{
    let segments = path_segments(normalized_path(paths[i], bases));
    assert(!clashes(paths, bases, separator, i, 1));
    let t = tail_of(segments, 1);
    if segments.len() > 1 {
        assert(t == seq![segments.last()]);
    } else {
        assert(t == seq![segments.last()]);
    }
    crate::strings::lemma_join_single(segments.last(), separator);
    crate::text::lemma_truncated_to_bytes_fits(segments.last(), MAX_GENERATED_NAME_BYTES as nat);
}


/// Whether `perm` lists each index below `n` exactly once.
pub open spec fn is_permutation(perm: Seq<int>, n: nat) -> bool {
    &&& perm.len() == n
    &&& forall|k: int| 0 <= k < n ==> 0 <= #[trigger] perm[k] < n
    &&& forall|a: int, b: int| 0 <= a < b < n ==> #[trigger] perm[a] != #[trigger] perm[b]
}

/// `paths` in the order `perm` gives: entry `k` is `paths[perm[k]]`.
pub open spec fn reordered(paths: Seq<Seq<char>>, perm: Seq<int>) -> Seq<Seq<char>> {
    Seq::new(perm.len(), |k: int| paths[perm[k]])
}

/// Every index below `n` is listed by a permutation.
proof fn lemma_permutation_onto(perm: Seq<int>, n: nat, j: int)
    requires
        is_permutation(perm, n),
        0 <= j < n,
    ensures
        exists|k: int| 0 <= k < n && perm[k] == j,
{
    broadcast use vstd::set::group_set_axioms, vstd::seq_lib::seq_to_set_is_finite;

    assert(perm.no_duplicates()) by {
        assert forall|a: int, b: int| 0 <= a < perm.len() && 0 <= b < perm.len() && a != b implies perm[a]
            != perm[b] by {
            if a < b {
                assert(perm[a] != perm[b]);
            } else {
                assert(perm[b] != perm[a]);
            }
        }
    }
    perm.unique_seq_to_set();
    let range = vstd::set_lib::set_int_range(0, n as int);
    vstd::set_lib::lemma_int_range(0, n as int);
    assert forall|x: int| perm.to_set().contains(x) implies range.contains(x) by {
        let k = choose|k: int| 0 <= k < perm.len() && perm[k] == x;
    }
    vstd::set_lib::lemma_subset_equality(perm.to_set(), range);
    assert(range.contains(j));
    assert(perm.to_set().contains(j));
    assert(perm.contains(j));
}

/// Each name depends on the set of paths, not on their order: reordering
/// the paths reorders their names alike.
pub proof fn lemma_names_follow_paths(
    paths: Seq<Seq<char>>,
    perm: Seq<int>,
    bases: Seq<Seq<char>>,
    separator: Seq<char>,
    k: int,
)
    requires
        is_permutation(perm, paths.len()),
        0 <= k < paths.len(),
    ensures
        generated_name(reordered(paths, perm), bases, separator, k) == generated_name(
            paths,
            bases,
            separator,
            perm[k],
        ),
{
    let q = reordered(paths, perm);
    let i = perm[k];
    assert(q[k] == paths[i]);
    assert(nested(q, bases, k) == nested(paths, bases, i)) by {
        let anc = path_ancestors(normalized_path(paths[i], bases));
        if nested(q, bases, k) {
            let (a, j) = choose|a: int, j: int|
                #![trigger path_ancestors(normalized_path(q[k], bases))[a], q[j]]
                0 <= a < path_ancestors(normalized_path(q[k], bases)).len() && 0 <= j < q.len()
                    && path_ancestors(normalized_path(q[k], bases))[a].len() > 0 && path_ancestors(
                    normalized_path(q[k], bases),
                )[a] == normalized_path(q[j], bases);
            assert(q[j] == paths[perm[j]]);
            assert(anc[a] == normalized_path(paths[perm[j]], bases));
        }
        if nested(paths, bases, i) {
            let (a, j) = choose|a: int, j: int|
                #![trigger anc[a], paths[j]]
                0 <= a < anc.len() && 0 <= j < paths.len() && anc[a].len() > 0 && anc[a]
                    == normalized_path(paths[j], bases);
            lemma_permutation_onto(perm, paths.len(), j);
            let jj = choose|jj: int| 0 <= jj < paths.len() && perm[jj] == j;
            assert(q[jj] == paths[j]);
            assert(path_ancestors(normalized_path(q[k], bases))[a] == normalized_path(q[jj], bases));
        }
    }
    let segments = path_segments(normalized_path(paths[i], bases));
    if segments.len() > 0 {
        let minimum: nat = if nested(paths, bases, i) {
            if segments.len() < NESTED_CONTEXT_SEGMENTS {
                segments.len()
            } else {
                NESTED_CONTEXT_SEGMENTS as nat
            }
        } else {
            1
        };
        lemma_required_follows_paths(paths, perm, bases, separator, k, minimum);
    }
}

/// Reordering the paths does not change how many segments tell a path
/// apart from its rivals.
proof fn lemma_required_follows_paths(
    paths: Seq<Seq<char>>,
    perm: Seq<int>,
    bases: Seq<Seq<char>>,
    separator: Seq<char>,
    k: int,
    length: nat,
)
    requires
        is_permutation(perm, paths.len()),
        0 <= k < paths.len(),
    ensures
        required_segments(reordered(paths, perm), bases, separator, k, length) == required_segments(
            paths,
            bases,
            separator,
            perm[k],
            length,
        ),
    decreases path_segments(normalized_path(paths[perm[k]], bases)).len() + 1 - length,
{
    let q = reordered(paths, perm);
    let i = perm[k];
    assert(q[k] == paths[i]);
    let own = join_tail(path_segments(normalized_path(paths[i], bases)), length, separator);
    assert(clashes(q, bases, separator, k, length) == clashes(paths, bases, separator, i, length)) by {
        if clashes(q, bases, separator, k, length) {
            let j = choose|j: int|
                #![trigger rivals(q, k, j)]
                rivals(q, k, j) && path_segments(normalized_path(q[j], bases)).len() >= length
                    && join_tail(path_segments(normalized_path(q[j], bases)), length, separator)
                    == join_tail(path_segments(normalized_path(q[k], bases)), length, separator);
            assert(q[j] == paths[perm[j]]);
            if j < k {
                assert(perm[j] != perm[k]);
            } else {
                assert(perm[k] != perm[j]);
            }
            assert(rivals(paths, i, perm[j]));
        }
        if clashes(paths, bases, separator, i, length) {
            let j = choose|j: int|
                #![trigger rivals(paths, i, j)]
                rivals(paths, i, j) && path_segments(normalized_path(paths[j], bases)).len() >= length
                    && join_tail(path_segments(normalized_path(paths[j], bases)), length, separator)
                    == join_tail(path_segments(normalized_path(paths[i], bases)), length, separator);
            lemma_permutation_onto(perm, paths.len(), j);
            let jj = choose|jj: int| 0 <= jj < paths.len() && perm[jj] == j;
            assert(q[jj] == paths[j]);
            assert(rivals(q, k, jj));
        }
    }
    let n = path_segments(normalized_path(paths[i], bases)).len();
    if length <= n && clashes(paths, bases, separator, i, length) {
        lemma_required_follows_paths(paths, perm, bases, separator, k, length + 1);
    }
}


/// Whether path `j` is another path with the same basename as path `i`
/// that has at least `l` segments and ends in the same `l` segments.
pub open spec fn ends_alike(
    paths: Seq<Seq<char>>,
    bases: Seq<Seq<char>>,
    separator: Seq<char>,
    i: int,
    j: int,
    l: nat,
) -> bool {
    &&& 0 <= j < paths.len()
    &&& j != i
    &&& path_file_name(paths[j]) == path_file_name(paths[i])
    &&& path_segments(normalized_path(paths[j], bases)).len() >= l
    &&& join_tail(path_segments(normalized_path(paths[j], bases)), l, separator) == join_tail(
        path_segments(normalized_path(paths[i], bases)),
        l,
        separator,
    )
}

/// Whether some other path with the same basename ends in the same last
/// `l` segments as path `i`.
pub open spec fn shared_ending(
    paths: Seq<Seq<char>>,
    bases: Seq<Seq<char>>,
    separator: Seq<char>,
    i: int,
    l: nat,
) -> bool {
    exists|j: int| #[trigger] ends_alike(paths, bases, separator, i, j, l)
}

/// How many segments, from `length` up, tell path `i` apart: the first
/// count whose ending no rival shares, every smaller count from `length`
/// being shared; all the segments when no count tells it apart.
proof fn lemma_required_separates(
    paths: Seq<Seq<char>>,
    bases: Seq<Seq<char>>,
    separator: Seq<char>,
    i: int,
    length: nat,
)
    requires
        0 <= i < paths.len(),
        length <= path_segments(normalized_path(paths[i], bases)).len(),
    ensures
        length <= required_segments(paths, bases, separator, i, length) <= path_segments(
            normalized_path(paths[i], bases),
        ).len(),
        required_segments(paths, bases, separator, i, length) < path_segments(
            normalized_path(paths[i], bases),
        ).len() ==> !shared_ending(
            paths,
            bases,
            separator,
            i,
            required_segments(paths, bases, separator, i, length),
        ),
        forall|l: nat|
            length <= l < required_segments(paths, bases, separator, i, length) ==> #[trigger] shared_ending(
                paths,
                bases,
                separator,
                i,
                l,
            ),
    decreases path_segments(normalized_path(paths[i], bases)).len() - length,
{
    let n = path_segments(normalized_path(paths[i], bases)).len();
    assert(clashes(paths, bases, separator, i, length) == shared_ending(paths, bases, separator, i, length)) by {
        if clashes(paths, bases, separator, i, length) {
            let j = choose|j: int|
                #![trigger rivals(paths, i, j)]
                rivals(paths, i, j) && path_segments(normalized_path(paths[j], bases)).len() >= length
                    && join_tail(path_segments(normalized_path(paths[j], bases)), length, separator)
                    == join_tail(path_segments(normalized_path(paths[i], bases)), length, separator);
            assert(ends_alike(paths, bases, separator, i, j, length));
        }
        if shared_ending(paths, bases, separator, i, length) {
            let j = choose|j: int| #[trigger] ends_alike(paths, bases, separator, i, j, length);
            assert(rivals(paths, i, j));
        }
    }
    if clashes(paths, bases, separator, i, length) {
        if length < n {
            lemma_required_separates(paths, bases, separator, i, length + 1);
        } else {
            assert(required_segments(paths, bases, separator, i, length + 1) == n);
        }
    }
}

/// Names tell rivals apart. A path's name is built from its last `r`
/// segments, `r` the fewest from its context minimum up whose ending no
/// other path with the same basename shares (all of them when every count
/// is shared): when `r` is below the segment count, no rival with at least
/// `r` segments ends in the same `r` segments; every smaller count is
/// shared by some rival; and a name that fits the budgets is exactly those
/// segments joined.
pub proof fn lemma_names_separate_rivals(
    paths: Seq<Seq<char>>,
    bases: Seq<Seq<char>>,
    separator: Seq<char>,
    i: int,
)
    requires
        0 <= i < paths.len(),
        path_segments(normalized_path(paths[i], bases)).len() > 0,
    ensures
        ({
            let segments = path_segments(normalized_path(paths[i], bases));
            let r = required_segments(paths, bases, separator, i, context_minimum(paths, bases, i));
            &&& 1 <= context_minimum(paths, bases, i) <= r <= segments.len()
            &&& r < segments.len() ==> forall|j: int| !#[trigger] ends_alike(paths, bases, separator, i, j, r)
            &&& forall|l: nat|
                context_minimum(paths, bases, i) <= l < r ==> #[trigger] shared_ending(
                    paths,
                    bases,
                    separator,
                    i,
                    l,
                )
            &&& join_tail(segments, r, separator).len() <= MAX_GENERATED_NAME_LEN
                && crate::strings::byte_len(join_tail(segments, r, separator)) < MAX_SESSION_NAME_BYTES
                ==> generated_name(paths, bases, separator, i) == join_tail(segments, r, separator)
        }),
{
    let segments = path_segments(normalized_path(paths[i], bases));
    let m = context_minimum(paths, bases, i);
    lemma_required_separates(paths, bases, separator, i, m);
    let r = required_segments(paths, bases, separator, i, m);
    crate::text::lemma_truncated_to_bytes_fits(join_tail(segments, r, separator), MAX_GENERATED_NAME_BYTES as nat);
}

} // verus!
