//! The lines `zoxide query -l -s` prints: a score, a space, and a path.

use vstd::prelude::*;
use crate::session::listing::{trim_ws, trimmed};
use crate::strings::{char_rows, chars_of, find_char, find_either, lines_of, string_from_chars, sub_chars, text_lines};

verus! {

broadcast use vstd::string::group_string_axioms;

/// The score text and path of each line that holds both: the line without
/// the white space around it, cut at its first space. Other lines, blank
/// ones among them, are skipped.
pub open spec fn scored_lines(lines: Seq<Seq<char>>) -> Seq<(Seq<char>, Seq<char>)>
    decreases lines.len(),
{
    if lines.len() == 0 {
        Seq::empty()
    } else {
        let rest = scored_lines(lines.drop_last());
        let t = trim_ws(lines.last());
        let k = find_either(t, ' ', ' ');
        if k < t.len() {
            rest.push((t.take(k as int), t.skip((k + 1) as int)))
        } else {
            rest
        }
    }
}

/// Some pairs of strings as character sequences.
pub open spec fn pairs_view(v: Seq<(String, String)>) -> Seq<(Seq<char>, Seq<char>)> {
    v.map_values(|p: (String, String)| (p.0@, p.1@))
}

/// The score text and path of each line of `output`, in order.
pub fn scored_paths(output: &str) -> (r: Vec<(String, String)>)
    ensures
        pairs_view(r@) == scored_lines(text_lines(output@)),
{
    let lines = lines_of(chars_of(output).as_slice());
    let ghost rows = char_rows(lines@);
    let mut r: Vec<(String, String)> = Vec::new();
    let mut i: usize = 0;
    assert(rows.take(0) =~= Seq::<Seq<char>>::empty());
    while i < lines.len()
        invariant
            i <= lines.len(),
            rows == char_rows(lines@),
            rows == text_lines(output@),
            pairs_view(r@) == scored_lines(rows.take(i as int)),
        decreases lines.len() - i,
    {
        assert(rows.take(i + 1).drop_last() =~= rows.take(i as int));
        assert(rows.take(i + 1).last() == lines@[i as int]@);
        let t = trimmed(lines[i].as_slice());
        let k = find_char(t.as_slice(), ' ');
        if k < t.len() {
            let score = string_from_chars(sub_chars(t.as_slice(), 0, k).as_slice());
            let path = string_from_chars(sub_chars(t.as_slice(), k + 1, t.len()).as_slice());
            assert(score@ == t@.take(k as int));
            assert(path@ == t@.skip((k + 1) as int));
            assert(pairs_view(r@).len() == r@.len());
            r.push((score, path));
            assert(pairs_view(r@) =~= scored_lines(rows.take(i as int)).push((t@.take(k as int), t@.skip((k + 1) as int))));
        }
        i = i + 1;
    }
    assert(rows.take(lines.len() as int) =~= rows);
    r
}

} // verus!
