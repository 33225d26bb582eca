//! Terminal-column-aware text fitting with grapheme-safe cuts. Highlight
//! indices remain Unicode scalar positions, as required by Zellij Text.
//!
//! Text is cut only between the extended grapheme clusters that
//! `unicode-segmentation` finds, and measured with `unicode-width`. The width
//! of a piece of text is taken as the sum of the widths of its clusters, each
//! measured on its own, exactly as the fitting loops add them up.

use vstd::prelude::*;
use unicode_segmentation::UnicodeSegmentation;
use unicode_width::UnicodeWidthStr;
use crate::strings::{byte_len, char_byte_len, char_len_utf8, chars_of, lemma_byte_len_push, push_char, push_char_range};

verus! {

broadcast use vstd::string::group_string_axioms, vstd::seq_lib::group_seq_properties;

/// The extended grapheme clusters that `unicode-segmentation` splits `text` into.
pub uninterp spec fn grapheme_clusters(text: Seq<char>) -> Seq<Seq<char>>;

/// The displayed width in columns that `unicode-width` gives `text`.
pub uninterp spec fn str_width(text: Seq<char>) -> usize;

/// The character sequences held by some strings.
pub open spec fn views(gs: Seq<String>) -> Seq<Seq<char>> {
    gs.map_values(|g: String| g@)
}

/// `UnicodeSegmentation::graphemes(text, true)`: the extended grapheme
/// clusters of `text`, in order, as owned strings. The crate yields
/// consecutive non-empty slices of `text` from its start to its end, so the
/// clusters concatenate back to `text`; which boundaries it picks is left to
/// the name `grapheme_clusters`.
#[verifier::external_body]
fn graphemes(text: &str) -> (gs: Vec<String>)
    ensures
        views(gs@) == grapheme_clusters(text@),
        views(gs@).flatten() == text@,
        forall|i: int| 0 <= i < gs@.len() ==> (#[trigger] gs@[i])@.len() > 0,
{
    text.graphemes(true).map(String::from).collect()
}

/// `UnicodeWidthStr::width(text)`: the displayed width of `text` in
/// columns. The crate folds the characters of `text` starting from 0, so the
/// empty string has width 0; everything else is left to the name `str_width`.
#[verifier::external_body]
pub fn display_width(text: &str) -> (w: usize)
    ensures
        w == str_width(text@),
        text@.len() == 0 ==> w == 0,
{
    UnicodeWidthStr::width(text)
}

/// The widths of the clusters of `text`, each measured on its own.
pub open spec fn cluster_widths(text: Seq<char>) -> Seq<usize> {
    grapheme_clusters(text).map_values(|g: Seq<char>| str_width(g))
}

/// The total of some widths.
pub open spec fn width_sum(ws: Seq<usize>) -> nat
    decreases ws.len(),
{
    if ws.len() == 0 {
        0
    } else {
        width_sum(ws.drop_last()) + ws.last() as nat
    }
}

/// How many leading entries of `ws` fit in `budget` when added up from the
/// front; the first one that does not fit stops the count.
pub open spec fn fit_count(ws: Seq<usize>, budget: nat) -> nat
    decreases ws.len(),
{
    if ws.len() == 0 {
        0
    } else if ws[0] > budget {
        0
    } else {
        1 + fit_count(ws.drop_first(), (budget - ws[0]) as nat)
    }
}

/// How many trailing entries of `ws` fit in `budget` when added up from the
/// back; the first one that does not fit stops the count.
pub open spec fn fit_count_back(ws: Seq<usize>, budget: nat) -> nat
    decreases ws.len(),
{
    if ws.len() == 0 {
        0
    } else if ws.last() > budget {
        0
    } else {
        1 + fit_count_back(ws.drop_last(), (budget - ws.last()) as nat)
    }
}

/// The number of leading clusters of `text` that fit in `columns`.
pub open spec fn prefix_clusters(text: Seq<char>, columns: nat) -> nat {
    if columns == 0 {
        0
    } else {
        fit_count(cluster_widths(text), columns)
    }
}

/// The first `k` clusters of `text`, joined.
pub open spec fn cluster_prefix(text: Seq<char>, k: nat) -> Seq<char> {
    grapheme_clusters(text).take(k as int).flatten()
}

/// The clusters of `text` from the `k`-th on, joined.
pub open spec fn cluster_suffix(text: Seq<char>, k: nat) -> Seq<char> {
    grapheme_clusters(text).skip(k as int).flatten()
}

proof fn lemma_fit_count_bounds(ws: Seq<usize>, budget: nat)
    ensures
        fit_count(ws, budget) <= ws.len(),
        width_sum(ws.take(fit_count(ws, budget) as int)) <= budget,
    decreases ws.len(),
{
    if ws.len() > 0 && ws[0] <= budget {
        let rest = ws.drop_first();
        lemma_fit_count_bounds(rest, (budget - ws[0]) as nat);
        let k = fit_count(rest, (budget - ws[0]) as nat);
        lemma_width_sum_front(ws.take((k + 1) as int));
        assert(ws.take((k + 1) as int).drop_first() == rest.take(k as int));
    } else {
        assert(ws.take(0) == Seq::<usize>::empty());
    }
}

proof fn lemma_fit_count_back_bounds(ws: Seq<usize>, budget: nat)
    ensures
        fit_count_back(ws, budget) <= ws.len(),
        width_sum(ws.skip(ws.len() - fit_count_back(ws, budget))) <= budget,
    decreases ws.len(),
{
    if ws.len() > 0 && ws.last() <= budget {
        let rest = ws.drop_last();
        lemma_fit_count_back_bounds(rest, (budget - ws.last()) as nat);
        let k = fit_count_back(rest, (budget - ws.last()) as nat);
        let tail = ws.skip(ws.len() - (k + 1));
        assert(tail.drop_last() == rest.skip(rest.len() - k));
        assert(tail.last() == ws.last());
    } else {
        assert(ws.skip(ws.len() as int) == Seq::<usize>::empty());
    }
}

/// Adding up from the front gives the same total.
proof fn lemma_width_sum_front(ws: Seq<usize>)
    requires
        ws.len() > 0,
    ensures
        width_sum(ws) == ws[0] + width_sum(ws.drop_first()),
    decreases ws.len(),
{
    if ws.len() > 1 {
        lemma_width_sum_front(ws.drop_last());
        assert(ws.drop_last().drop_first() == ws.drop_first().drop_last());
    } else {
        assert(ws.drop_first() == Seq::<usize>::empty());
    }
}

/// Splitting a list of clusters splits their concatenation.
proof fn lemma_flatten_split(gs: Seq<Seq<char>>, k: int)
    requires
        0 <= k <= gs.len(),
    ensures
        gs.flatten() == gs.take(k).flatten() + gs.skip(k).flatten(),
{
    vstd::seq_lib::lemma_flatten_concat(gs.take(k), gs.skip(k));
    assert(gs.take(k) + gs.skip(k) == gs);
}

/// The widths of some clusters, measured one by one.
fn cluster_widths_of(gs: &Vec<String>) -> (ws: Vec<usize>)
    ensures
        ws@ == views(gs@).map_values(|g: Seq<char>| str_width(g)),
{
    let mut ws: Vec<usize> = Vec::new();
    let mut i: usize = 0;
    while i < gs.len()
        invariant
            i <= gs.len(),
            ws@ == views(gs@).take(i as int).map_values(|g: Seq<char>| str_width(g)),
        decreases gs.len() - i,
    {
        let w = display_width(gs[i].as_str());
        ws.push(w);
        i = i + 1;
        assert(ws@ =~= views(gs@).take(i as int).map_values(|g: Seq<char>| str_width(g)));
    }
    assert(views(gs@).take(gs.len() as int) == views(gs@));
    ws
}

/// How many leading entries of `ws` fit in `budget`, added up from the
/// front; the first one that does not fit stops the count.
pub fn fit(ws: &Vec<usize>, budget: usize) -> (k: usize)
    ensures
        k == fit_count(ws@, budget as nat),
{
    let mut used: usize = 0;
    let mut i: usize = 0;
    while i < ws.len()
        invariant
            i <= ws.len(),
            used <= budget,
            fit_count(ws@, budget as nat) == i + fit_count(ws@.skip(i as int), (budget - used) as nat),
        decreases ws.len() - i,
    {
        assert(ws@.skip(i as int)[0] == ws@[i as int]);
        assert(ws@.skip(i as int).drop_first() == ws@.skip(i + 1));
        if ws[i] > budget - used {
            return i;
        }
        used = used + ws[i];
        i = i + 1;
    }
    i
}

/// How many trailing entries of `ws`, among those from `from` on, fit in
/// `budget`, added up from the back; the first one that does not fit stops
/// the count.
pub fn fit_back(ws: &Vec<usize>, from: usize, budget: usize) -> (k: usize)
    requires
        from <= ws.len(),
    ensures
        k == fit_count_back(ws@.skip(from as int), budget as nat),
{
    let mut used: usize = 0;
    let mut j: usize = ws.len();
    while j > from
        invariant
            from <= j <= ws.len(),
            used <= budget,
            fit_count_back(ws@.skip(from as int), budget as nat) == (ws.len() - j)
                + fit_count_back(ws@.subrange(from as int, j as int), (budget - used) as nat),
        decreases j - from,
    {
        let w = ws[j - 1];
        assert(ws@.subrange(from as int, j as int).last() == w);
        assert(ws@.subrange(from as int, j as int).drop_last() == ws@.subrange(
            from as int,
            j - 1,
        ));
        if w > budget - used {
            return ws.len() - j;
        }
        used = used + w;
        j = j - 1;
    }
    assert(ws@.subrange(from as int, from as int) == Seq::<usize>::empty());
    ws.len() - j
}

/// Appends the clusters `gs[from..to]` to `out`.
fn push_clusters(out: &mut String, gs: &Vec<String>, from: usize, to: usize)
    requires
        from <= to <= gs.len(),
    ensures
        final(out)@ == old(out)@ + views(gs@).subrange(from as int, to as int).flatten(),
{
    let ghost start = out@;
    let mut i: usize = from;
    while i < to
        invariant
            from <= i <= to,
            to <= gs.len(),
            out@ == start + views(gs@).subrange(from as int, i as int).flatten(),
        decreases to - i,
    {
        out.append(gs[i].as_str());
        proof {
            let part = views(gs@).subrange(from as int, i as int);
            part.lemma_flatten_push(gs@[i as int]@);
            assert(views(gs@).subrange(from as int, i + 1) == part.push(gs@[i as int]@));
        }
        i = i + 1;
    }
}

/// Keep as many whole leading clusters of `text` as fit in `columns`.
pub open spec fn truncated_to_columns(text: Seq<char>, columns: nat) -> Seq<char> {
    cluster_prefix(text, prefix_clusters(text, columns))
}

pub fn truncate_columns(text: &str, columns: usize) -> (r: String)
    ensures
        r@ == truncated_to_columns(text@, columns as nat),
{
    let mut out = String::new();
    if columns == 0 {
        assert(grapheme_clusters(text@).take(0) == Seq::<Seq<char>>::empty());
        return out;
    }
    let gs = graphemes(text);
    let ws = cluster_widths_of(&gs);
    let k = fit(&ws, columns);
    proof {
        lemma_fit_count_bounds(ws@, columns as nat);
    }
    push_clusters(&mut out, &gs, 0, k);
    assert(views(gs@).subrange(0, k as int) == views(gs@).take(k as int));
    out
}

/// The first `max_chars` characters of `text`.
pub open spec fn truncated_to_chars(text: Seq<char>, max_chars: nat) -> Seq<char> {
    if text.len() <= max_chars {
        text
    } else {
        text.take(max_chars as int)
    }
}

/// Truncate `text` to at most `max_chars` characters, dropping the tail.
pub fn truncate_chars(text: &str, max_chars: usize) -> (r: String)
    ensures
        r@ == truncated_to_chars(text@, max_chars as nat),
{
    let cs = chars_of(text);
    let end = if cs.len() <= max_chars { cs.len() } else { max_chars };
    let mut out = String::new();
    push_char_range(&mut out, cs.as_slice(), 0, end);
    assert(cs@.subrange(0, end as int) == truncated_to_chars(text@, max_chars as nat));
    out
}

/// How many leading characters of `s` fit in `budget` bytes of UTF-8.
pub open spec fn byte_fit(s: Seq<char>, budget: nat) -> nat
    decreases s.len(),
{
    if s.len() == 0 {
        0
    } else if char_byte_len(s[0]) > budget {
        0
    } else {
        1 + byte_fit(s.drop_first(), (budget - char_byte_len(s[0])) as nat)
    }
}

/// The longest character-aligned prefix of `text` within `max_bytes` bytes.
pub open spec fn truncated_to_bytes(text: Seq<char>, max_bytes: nat) -> Seq<char> {
    text.take(byte_fit(text, max_bytes) as int)
}

/// Truncate `text` to at most `max_bytes` bytes, cutting on a character
/// boundary so the result stays valid UTF-8.
///
/// Session names are limited in *bytes* by the socket path, so a character
/// budget alone is not enough for multi-byte names.
pub fn truncate_bytes(text: &str, max_bytes: usize) -> (r: String)
    ensures
        r@ == truncated_to_bytes(text@, max_bytes as nat),
{
    let cs = chars_of(text);
    let k = byte_fit_of(&cs, max_bytes);
    proof {
        lemma_truncated_to_bytes_fits(cs@, max_bytes as nat);
    }
    let mut out = String::new();
    push_char_range(&mut out, cs.as_slice(), 0, k);
    assert(cs@.subrange(0, k as int) == cs@.take(k as int));
    out
}

/// `byte_fit`, computed.
fn byte_fit_of(cs: &Vec<char>, max_bytes: usize) -> (k: usize)
    ensures
        k == byte_fit(cs@, max_bytes as nat),
{
    let mut used: usize = 0;
    let mut i: usize = 0;
    while i < cs.len()
        invariant
            i <= cs.len(),
            used <= max_bytes,
            byte_fit(cs@, max_bytes as nat) == i + byte_fit(cs@.skip(i as int), (max_bytes - used) as nat),
        decreases cs.len() - i,
    {
        assert(cs@.skip(i as int)[0] == cs@[i as int]);
        assert(cs@.skip(i as int).drop_first() == cs@.skip(i + 1));
        let w = char_len_utf8(cs[i]);
        if w > max_bytes - used {
            return i;
        }
        used = used + w;
        i = i + 1;
    }
    i
}

/// The result of `truncate_bytes` is a prefix within the budget, and no
/// longer character-aligned prefix is.
pub proof fn lemma_truncated_to_bytes_fits(text: Seq<char>, max_bytes: nat)
    ensures
        byte_len(truncated_to_bytes(text, max_bytes)) <= max_bytes,
        byte_fit(text, max_bytes) < text.len() ==> byte_len(
            text.take((byte_fit(text, max_bytes) + 1) as int),
        ) > max_bytes,
        byte_len(text) <= max_bytes ==> truncated_to_bytes(text, max_bytes) == text,
        byte_fit(text, max_bytes) <= text.len(),
    decreases text.len(),
{
    let k = byte_fit(text, max_bytes);
    if text.len() == 0 {
        assert(text.take(0) == text);
    } else if char_byte_len(text[0]) > max_bytes {
        assert(text.take(0) == Seq::<char>::empty());
        assert(text.take(1) == seq![text[0]]);
        lemma_byte_len_push(Seq::<char>::empty(), text[0]);
        assert(Seq::<char>::empty().push(text[0]) == seq![text[0]]);
        lemma_byte_len_split_first(text);
        crate::strings::lemma_byte_len_bounds(text.drop_first());
    } else {
        let rest = text.drop_first();
        let c = char_byte_len(text[0]);
        lemma_truncated_to_bytes_fits(rest, (max_bytes - c) as nat);
        lemma_byte_len_split_first(text.take(k as int));
        assert(text.take(k as int).drop_first() == rest.take((k - 1) as int));
        assert(text.take(k as int)[0] == text[0]);
        if k < text.len() {
            lemma_byte_len_split_first(text.take((k + 1) as int));
            assert(text.take((k + 1) as int).drop_first() == rest.take(k as int));
            assert(text.take((k + 1) as int)[0] == text[0]);
        }
        lemma_byte_len_split_first(text);
    }
}

proof fn lemma_byte_len_split_first(s: Seq<char>)
    requires
        s.len() > 0,
    ensures
        byte_len(s) == char_byte_len(s[0]) + byte_len(s.drop_first()),
{
    crate::strings::lemma_byte_len_concat(seq![s[0]], s.drop_first());
    assert(seq![s[0]] + s.drop_first() == s);
    lemma_byte_len_push(Seq::<char>::empty(), s[0]);
    assert(Seq::<char>::empty().push(s[0]) == seq![s[0]]);
}

/// Width set aside for the `...` marker.
const ELLIPSIS_WIDTH: usize = 3;

/// Most columns the kept head may take in a middle elision.
const HEAD_WIDTH: usize = 10;

/// The marker that stands for the elided part.
pub open spec fn ellipsis() -> Seq<char> {
    seq!['.', '.', '.']
}

/// Whether a text of width `total` elided to `columns` gets the `...`
/// marker between head and tail.
pub open spec fn planned_marker(total: nat, columns: nat) -> bool {
    columns > 3 && total > columns
}

/// The number of leading clusters kept, for clusters of widths `ws` making
/// up a text of width `total`.
pub open spec fn planned_head(ws: Seq<usize>, total: nat, columns: nat, keep_head: bool) -> nat {
    if columns == 0 {
        0
    } else if total <= columns {
        ws.len()
    } else if columns <= 3 {
        fit_count(ws, columns)
    } else if keep_head {
        let budget = (columns - 3) as nat;
        fit_count(ws, if budget < 10 { budget } else { 10 })
    } else {
        0
    }
}

/// The index of the first kept trailing cluster, once `head` clusters of
/// width `head_width` are kept in front.
pub open spec fn planned_tail(
    ws: Seq<usize>,
    total: nat,
    columns: nat,
    head: nat,
    head_width: nat,
) -> nat {
    if !planned_marker(total, columns) {
        ws.len()
    } else {
        (ws.len() - fit_count_back(ws.skip(head as int), (columns - 3 - head_width) as nat)) as nat
    }
}

/// The number of leading clusters an elision keeps.
pub open spec fn elision_head(text: Seq<char>, columns: nat, keep_head: bool) -> nat {
    planned_head(cluster_widths(text), str_width(text) as nat, columns, keep_head)
}

/// The width the kept head is measured at when the tail budget is worked out.
pub open spec fn elision_head_width(text: Seq<char>, columns: nat, keep_head: bool) -> nat {
    let h = elision_head(text, columns, keep_head);
    if h == 0 {
        0
    } else {
        str_width(cluster_prefix(text, h)) as nat
    }
}

/// Whether the elision is defined: the measured head must fit in the budget
/// left after the marker.
pub open spec fn elision_defined(text: Seq<char>, columns: nat, keep_head: bool) -> bool {
    columns == 0 || str_width(text) <= columns || columns <= 3 || elision_head_width(
        text,
        columns,
        keep_head,
    ) <= columns - 3
}

/// Whether an elision puts the `...` marker between head and tail.
pub open spec fn elision_marked(text: Seq<char>, columns: nat) -> bool {
    planned_marker(str_width(text) as nat, columns)
}

/// The index of the first cluster of the kept tail.
pub open spec fn elision_tail(text: Seq<char>, columns: nat, keep_head: bool) -> nat {
    planned_tail(
        cluster_widths(text),
        str_width(text) as nat,
        columns,
        elision_head(text, columns, keep_head),
        elision_head_width(text, columns, keep_head),
    )
}

/// The text an elision renders: the kept head, the marker if anything was
/// cut from the middle, and the kept tail.
pub open spec fn elided(text: Seq<char>, columns: nat, keep_head: bool) -> Seq<char> {
    cluster_prefix(text, elision_head(text, columns, keep_head)) + (if elision_marked(
        text,
        columns,
    ) {
        ellipsis()
    } else {
        Seq::empty()
    }) + cluster_suffix(text, elision_tail(text, columns, keep_head))
}

/// Where character `index` of `text` lands in the elided text, if it survives.
pub open spec fn remapped_index(text: Seq<char>, columns: nat, keep_head: bool, index: nat) -> Option<
    nat,
> {
    let head_chars = cluster_prefix(text, elision_head(text, columns, keep_head)).len();
    let tail_char_start = cluster_prefix(text, elision_tail(text, columns, keep_head)).len();
    let marker_chars: nat = if elision_marked(text, columns) { 3 } else { 0 };
    if index >= text.len() {
        None
    } else if index < head_chars {
        Some(index)
    } else if index >= tail_char_start {
        Some((head_chars + marker_chars + index - tail_char_start) as nat)
    } else {
        None
    }
}

/// The surviving highlight positions, in order, at their new places.
pub open spec fn remapped_indices(
    text: Seq<char>,
    columns: nat,
    keep_head: bool,
    indices: Seq<usize>,
) -> Seq<usize>
    decreases indices.len(),
{
    if indices.len() == 0 {
        Seq::empty()
    } else {
        let rest = remapped_indices(text, columns, keep_head, indices.drop_last());
        match remapped_index(text, columns, keep_head, indices.last() as nat) {
            Some(j) => rest.push(j as usize),
            None => rest,
        }
    }
}

/// A plan for shortening one text: keep `head` leading clusters and the
/// clusters from `tail` on, with the `...` marker between them if `marker`.
struct Elision {
    clusters: Vec<String>,
    text_len: usize,
    head: usize,
    tail: usize,
    head_chars: usize,
    tail_char_start: usize,
    marker: bool,
}

impl Elision {
    /// The plan describes the elision of `text` at `columns`.
    spec fn describes(&self, text: Seq<char>, columns: nat, keep_head: bool) -> bool {
        &&& views(self.clusters@) == grapheme_clusters(text)
        &&& views(self.clusters@).flatten() == text
        &&& self.text_len == text.len()
        &&& self.head == elision_head(text, columns, keep_head)
        &&& self.tail == elision_tail(text, columns, keep_head)
        &&& self.head <= self.tail <= self.clusters@.len()
        &&& self.marker == elision_marked(text, columns)
        &&& self.head_chars == cluster_prefix(text, self.head as nat).len()
        &&& self.tail_char_start == cluster_prefix(text, self.tail as nat).len()
    }

    fn new(text: &str, columns: usize, keep_head: bool) -> (e: Self)
        requires
            elision_defined(text@, columns as nat, keep_head),
        ensures
            e.describes(text@, columns as nat, keep_head),
    {
        let chars = chars_of(text);
        let clusters = graphemes(text);
        let n = clusters.len();
        let (head, tail, marker) = Self::plan(text, &clusters, columns, keep_head);
        let head_chars = char_count(&clusters, head, chars.len());
        let tail_char_start = char_count(&clusters, tail, chars.len());
        Elision { clusters, text_len: chars.len(), head, tail, head_chars, tail_char_start, marker }
    }

    fn plan(text: &str, clusters: &Vec<String>, columns: usize, keep_head: bool) -> (r: (
        usize,
        usize,
        bool,
    ))
        requires
            views(clusters@) == grapheme_clusters(text@),
            elision_defined(text@, columns as nat, keep_head),
        ensures
            r.0 == elision_head(text@, columns as nat, keep_head),
            r.1 == elision_tail(text@, columns as nat, keep_head),
            r.2 == elision_marked(text@, columns as nat),
            r.0 <= r.1 <= clusters@.len(),
    {
        let n = clusters.len();
        let total = display_width(text);
        let ws = cluster_widths_of(clusters);
        proof {
            assert(ws@ == cluster_widths(text@));
        }
        let head = elision_head_count(&ws, total, columns, keep_head);
        if !(columns > ELLIPSIS_WIDTH && total > columns) {
            return (head, n, false);
        }
        let mut head_text = String::new();
        push_clusters(&mut head_text, clusters, 0, head);
        assert(views(clusters@).subrange(0, head as int) == views(clusters@).take(head as int));
        let head_width = display_width(head_text.as_str());
        proof {
            if head == 0 {
                assert(views(clusters@).take(0) == Seq::<Seq<char>>::empty());
            }
        }
        let tail = elision_tail_start(&ws, total, columns, head, head_width);
        (head, tail, true)
    }
}

/// How many leading clusters an elision to `columns` keeps, for clusters of
/// widths `widths` making up a text `total_width` columns wide: all of them
/// when the text fits, as many as fit when the marker does not, up to ten
/// columns of them before the marker when `keep_head`, else none.
pub fn elision_head_count(widths: &Vec<usize>, total_width: usize, columns: usize, keep_head: bool) -> (h: usize)
    ensures
        h == planned_head(widths@, total_width as nat, columns as nat, keep_head),
        h <= widths.len(),
{
    if columns == 0 {
        return 0;
    }
    if total_width <= columns {
        return widths.len();
    }
    if columns <= ELLIPSIS_WIDTH {
        proof {
            lemma_fit_count_bounds(widths@, columns as nat);
        }
        return fit(widths, columns);
    }
    if !keep_head {
        return 0;
    }
    let budget = columns - ELLIPSIS_WIDTH;
    let limit = if budget < HEAD_WIDTH { budget } else { HEAD_WIDTH };
    proof {
        lemma_fit_count_bounds(widths@, limit as nat);
    }
    fit(widths, limit)
}

/// The index of the first trailing cluster an elision to `columns` keeps,
/// once `head` clusters `head_width` columns wide are kept in front: past
/// the end when no marker is needed, else after as many trailing clusters
/// as fit in what the head and the marker leave.
pub fn elision_tail_start(
    widths: &Vec<usize>,
    total_width: usize,
    columns: usize,
    head: usize,
    head_width: usize,
) -> (t: usize)
    requires
        head <= widths.len(),
        planned_marker(total_width as nat, columns as nat) ==> head_width + 3 <= columns,
    ensures
        t == planned_tail(widths@, total_width as nat, columns as nat, head as nat, head_width as nat),
        head <= t <= widths.len(),
{
    if !(columns > ELLIPSIS_WIDTH && total_width > columns) {
        return widths.len();
    }
    let k = fit_back(widths, head, columns - ELLIPSIS_WIDTH - head_width);
    proof {
        lemma_fit_count_back_bounds(widths@.skip(head as int), (columns - 3 - head_width) as nat);
    }
    widths.len() - k
}

impl Elision {
    #[verifier::spinoff_prover]
    #[verifier::rlimit(30)]
    fn render(&self, Ghost(text): Ghost<Seq<char>>, Ghost(columns): Ghost<nat>, Ghost(keep_head): Ghost<bool>) -> (r: String)
        requires
            self.describes(text, columns, keep_head),
        ensures
            r@ == elided(text, columns, keep_head),
    {
        let mut out = String::new();
        push_clusters(&mut out, &self.clusters, 0, self.head);
        if self.marker {
            push_char(&mut out, '.');
            push_char(&mut out, '.');
            push_char(&mut out, '.');
        }
        push_clusters(&mut out, &self.clusters, self.tail, self.clusters.len());
        assert(views(self.clusters@).subrange(0, self.head as int) == views(self.clusters@).take(
            self.head as int,
        ));
        assert(views(self.clusters@).subrange(self.tail as int, self.clusters@.len() as int)
            == views(self.clusters@).skip(self.tail as int));
        out
    }

    fn remap(&self, indices: &[usize], Ghost(text): Ghost<Seq<char>>, Ghost(columns): Ghost<nat>, Ghost(keep_head): Ghost<bool>) -> (r: Vec<usize>)
        requires
            self.describes(text, columns, keep_head),
            text.len() + 3 <= usize::MAX,
        ensures
            r@ == remapped_indices(text, columns, keep_head, indices@),
    {
        let marker_chars: usize = if self.marker { 3 } else { 0 };
        proof {
            lemma_flatten_split(views(self.clusters@), self.head as int);
            lemma_flatten_split(views(self.clusters@), self.tail as int);
            lemma_flatten_split(views(self.clusters@).take(self.tail as int), self.head as int);
            assert(views(self.clusters@).take(self.tail as int).take(self.head as int)
                == views(self.clusters@).take(self.head as int));
        }
        let mut out: Vec<usize> = Vec::new();
        let mut i: usize = 0;
        while i < indices.len()
            invariant
                i <= indices.len(),
                self.describes(text, columns, keep_head),
                text.len() + 3 <= usize::MAX,
                marker_chars == (if self.marker { 3nat } else { 0nat }),
                self.head_chars <= self.tail_char_start <= self.text_len,
                out@ == remapped_indices(text, columns, keep_head, indices@.take(i as int)),
            decreases indices.len() - i,
        {
            let index = indices[i];
            assert(indices@.take(i + 1).drop_last() == indices@.take(i as int));
            assert(indices@.take(i + 1).last() == index);
            if index >= self.text_len {
            } else if index < self.head_chars {
                out.push(index);
            } else if index >= self.tail_char_start {
                out.push(self.head_chars + marker_chars + (index - self.tail_char_start));
            }
            i = i + 1;
        }
        assert(indices@.take(indices.len() as int) == indices@);
        out
    }
}

impl Elision {
    proof fn lemma_fits_whole(&self, text: Seq<char>, columns: nat, keep_head: bool)
        requires
            self.describes(text, columns, keep_head),
        ensures
            columns > 0 && str_width(text) <= columns ==> elided(text, columns, keep_head) == text,
    {
        let g = grapheme_clusters(text);
        assert(g.take(g.len() as int) == g);
        assert(g.skip(g.len() as int) == Seq::<Seq<char>>::empty());
    }

    #[verifier::spinoff_prover]
    #[verifier::rlimit(40)]
    proof fn lemma_highlights(&self, text: Seq<char>, columns: nat, keep_head: bool)
        requires
            self.describes(text, columns, keep_head),
        ensures
            forall|i: nat|
                #![trigger remapped_index(text, columns, keep_head, i)]
                remapped_index(text, columns, keep_head, i) matches Some(j) ==> j < elided(
                    text,
                    columns,
                    keep_head,
                ).len() && elided(text, columns, keep_head)[j as int] == text[i as int],
    {
        let g = grapheme_clusters(text);
        let h = self.head as int;
        let t = self.tail as int;
        lemma_flatten_split(g, h);
        lemma_flatten_split(g, t);
        let head = g.take(h).flatten();
        let tail = g.skip(t).flatten();
        let prefix_t = g.take(t).flatten();
        assert(head == text.take(head.len() as int));
        assert(tail == text.skip(prefix_t.len() as int));
        lemma_flatten_split(g.take(t), h);
        assert(g.take(t).take(h) == g.take(h));
        let marker: Seq<char> = if self.marker { ellipsis() } else { Seq::empty() };
        let out = elided(text, columns, keep_head);
        assert(out == head + marker + tail);
        assert forall|i: nat|
            #![trigger remapped_index(text, columns, keep_head, i)]
            remapped_index(text, columns, keep_head, i) is Some implies remapped_index(
                text,
                columns,
                keep_head,
                i,
            )->0 < out.len() && out[remapped_index(text, columns, keep_head, i)->0 as int]
                == text[i as int] by {
            if i < text.len() && i >= head.len() && i >= prefix_t.len() {
                let j = head.len() + marker.len() + i - prefix_t.len();
                assert(out[j] == tail[i - prefix_t.len()]);
            }
        }
    }
}

/// The number of characters in the first `k` clusters.
fn char_count(clusters: &Vec<String>, k: usize, total: usize) -> (r: usize)
    requires
        k <= clusters@.len(),
        views(clusters@).flatten().len() == total,
    ensures
        r == views(clusters@).take(k as int).flatten().len(),
{
    let mut count: usize = 0;
    let mut i: usize = 0;
    while i < k
        invariant
            i <= k <= clusters@.len(),
            views(clusters@).flatten().len() == total,
            count == views(clusters@).take(i as int).flatten().len(),
        decreases k - i,
    {
        proof {
            views(clusters@).take(i as int).lemma_flatten_push(clusters@[i as int]@);
            assert(views(clusters@).take(i + 1) == views(clusters@).take(i as int).push(
                clusters@[i as int]@,
            ));
            lemma_flatten_split(views(clusters@), i + 1);
        }
        count = count + clusters[i].as_str().unicode_len();
        i = i + 1;
    }
    count
}


/// A longer run of leading clusters holds at least as many characters.
proof fn lemma_prefix_len_monotone(gs: Seq<Seq<char>>, h: int, t: int)
    requires
        0 <= h <= t <= gs.len(),
    ensures
        gs.take(h).flatten().len() <= gs.take(t).flatten().len(),
{
    lemma_flatten_split(gs.take(t), h);
    assert(gs.take(t).take(h) == gs.take(h));
}

/// The remapped positions are no more than the given ones, and each is
/// where one of the given positions lands.
proof fn lemma_remapped_from_given(text: Seq<char>, columns: nat, keep_head: bool, indices: Seq<usize>)
    requires
        text.len() + 3 <= usize::MAX,
        cluster_prefix(text, elision_head(text, columns, keep_head)).len() <= cluster_prefix(
            text,
            elision_tail(text, columns, keep_head),
        ).len(),
    ensures
        remapped_indices(text, columns, keep_head, indices).len() <= indices.len(),
        forall|p: int|
            #![trigger remapped_indices(text, columns, keep_head, indices)[p]]
            0 <= p < remapped_indices(text, columns, keep_head, indices).len() ==> exists|q: int|
                0 <= q < indices.len() && #[trigger] remapped_index(text, columns, keep_head, indices[q] as nat)
                    == Some(remapped_indices(text, columns, keep_head, indices)[p] as nat),
    decreases indices.len(),
{
    if indices.len() > 0 {
        let rest = indices.drop_last();
        lemma_remapped_from_given(text, columns, keep_head, rest);
        let before = remapped_indices(text, columns, keep_head, rest);
        let out = remapped_indices(text, columns, keep_head, indices);
        assert forall|p: int| #![trigger out[p]] 0 <= p < out.len() implies exists|q: int|
            0 <= q < indices.len() && #[trigger] remapped_index(text, columns, keep_head, indices[q] as nat)
                == Some(out[p] as nat) by {
            if p < before.len() {
                assert(out[p] == before[p]);
                let q = choose|q: int|
                    0 <= q < rest.len() && #[trigger] remapped_index(text, columns, keep_head, rest[q] as nat)
                        == Some(before[p] as nat);
                assert(indices[q] == rest[q]);
            } else {
                let q = indices.len() - 1;
                assert(indices[q] == indices.last());
                let j = remapped_index(text, columns, keep_head, indices.last() as nat)->0;
                assert(j < text.len() + 3);
                assert(out[p] == j as usize);
            }
        }
    }
}

/// Keep the tail of a directory path within a terminal-column budget.
pub fn elide_start(text: &str, columns: usize) -> (r: String)
    ensures
        r@ == elided(text@, columns as nat, false),
        columns > 0 && str_width(text@) <= columns ==> r@ == text@,
{
    let e = Elision::new(text, columns, false);
    proof {
        e.lemma_fits_whole(text@, columns as nat, false);
    }
    e.render(Ghost(text@), Ghost(columns as nat), Ghost(false))
}

/// Keep both the leading session name/marker and the tail of its path.
pub fn elide_middle(text: &str, columns: usize) -> (r: String)
    requires
        elision_defined(text@, columns as nat, true),
    ensures
        r@ == elided(text@, columns as nat, true),
        columns > 0 && str_width(text@) <= columns ==> r@ == text@,
{
    let e = Elision::new(text, columns, true);
    proof {
        e.lemma_fits_whole(text@, columns as nat, true);
    }
    e.render(Ghost(text@), Ghost(columns as nat), Ghost(true))
}

/// Move highlight positions onto the text `elide_start` renders.
pub fn remap_indices_after_elide_start(text: &str, columns: usize, indices: &[usize]) -> (r: Vec<
    usize,
>)
    requires
        text@.len() + 3 <= usize::MAX,
    ensures
        r@ == remapped_indices(text@, columns as nat, false, indices@),
        forall|i: nat|
            #![trigger remapped_index(text@, columns as nat, false, i)]
            remapped_index(text@, columns as nat, false, i) matches Some(j) ==> j < elided(
                text@,
                columns as nat,
                false,
            ).len() && elided(text@, columns as nat, false)[j as int] == text@[i as int],
        r@.len() <= indices@.len(),
        forall|p: int|
            #![trigger r@[p]]
            0 <= p < r@.len() ==> exists|q: int|
                0 <= q < indices@.len() && #[trigger] remapped_index(
                    text@,
                    columns as nat,
                    false,
                    indices@[q] as nat,
                ) == Some(r@[p] as nat),
{
    let e = Elision::new(text, columns, false);
    proof {
        e.lemma_highlights(text@, columns as nat, false);
        lemma_prefix_len_monotone(grapheme_clusters(text@), e.head as int, e.tail as int);
        lemma_remapped_from_given(text@, columns as nat, false, indices@);
    }
    e.remap(indices, Ghost(text@), Ghost(columns as nat), Ghost(false))
}

/// Move highlight positions onto the text `elide_middle` renders.
pub fn remap_indices_after_elide_middle(text: &str, columns: usize, indices: &[usize]) -> (r: Vec<
    usize,
>)
    requires
        elision_defined(text@, columns as nat, true),
        text@.len() + 3 <= usize::MAX,
    ensures
        r@ == remapped_indices(text@, columns as nat, true, indices@),
        forall|i: nat|
            #![trigger remapped_index(text@, columns as nat, true, i)]
            remapped_index(text@, columns as nat, true, i) matches Some(j) ==> j < elided(
                text@,
                columns as nat,
                true,
            ).len() && elided(text@, columns as nat, true)[j as int] == text@[i as int],
        r@.len() <= indices@.len(),
        forall|p: int|
            #![trigger r@[p]]
            0 <= p < r@.len() ==> exists|q: int|
                0 <= q < indices@.len() && #[trigger] remapped_index(
                    text@,
                    columns as nat,
                    true,
                    indices@[q] as nat,
                ) == Some(r@[p] as nat),
{
    let e = Elision::new(text, columns, true);
    proof {
        e.lemma_highlights(text@, columns as nat, true);
        lemma_prefix_len_monotone(grapheme_clusters(text@), e.head as int, e.tail as int);
        lemma_remapped_from_given(text@, columns as nat, true, indices@);
    }
    e.remap(indices, Ghost(text@), Ghost(columns as nat), Ghost(true))
}


/// What each elision costs in columns, counted cluster by cluster: with the
/// marker, the measured head, the marker and the kept tail fit in `columns`;
/// without it, the kept head alone fits.
pub proof fn lemma_elision_fits(text: Seq<char>, columns: nat, keep_head: bool)
    ensures
        columns == 0 ==> elided(text, columns, keep_head) == Seq::<char>::empty(),
        elision_marked(text, columns) ==> elision_head_width(text, columns, keep_head) > columns - 3
            || elision_head_width(text, columns, keep_head) + 3 + width_sum(
            cluster_widths(text).skip(elision_tail(text, columns, keep_head) as int),
        ) <= columns,
        elision_marked(text, columns) && keep_head ==> width_sum(
            cluster_widths(text).take(elision_head(text, columns, keep_head) as int),
        ) <= 10,
        elision_marked(text, columns) && !keep_head ==> elision_head(text, columns, keep_head)
            == 0,
        0 < columns <= 3 && str_width(text) > columns ==> elided(text, columns, keep_head)
            == cluster_prefix(text, elision_head(text, columns, keep_head)) && width_sum(
            cluster_widths(text).take(elision_head(text, columns, keep_head) as int),
        ) <= columns,
{
    let g = grapheme_clusters(text);
    let ws = cluster_widths(text);
    assert(g.skip(g.len() as int) == Seq::<Seq<char>>::empty());
    if columns == 0 {
        assert(g.take(0) == Seq::<Seq<char>>::empty());
    }
    if elision_marked(text, columns) {
        let budget = (columns - 3) as nat;
        let h = elision_head(text, columns, keep_head);
        if keep_head {
            lemma_fit_count_bounds(ws, if budget < 10 { budget } else { 10 });
        }
        let hw = elision_head_width(text, columns, keep_head);
        if hw <= budget {
            lemma_fit_count_back_bounds(ws.skip(h as int), (budget - hw) as nat);
            assert(ws.skip(h as int).skip(
                ws.skip(h as int).len() - fit_count_back(ws.skip(h as int), (budget - hw) as nat),
            ) == ws.skip(elision_tail(text, columns, keep_head) as int));
        }
    }
    if 0 < columns <= 3 && str_width(text) > columns {
        lemma_fit_count_bounds(ws, columns);
    }
}

/// Whether `elide_middle` is defined on `text` at `columns`.
fn middle_elision_defined(text: &str, columns: usize) -> (r: bool)
    ensures
        r == elision_defined(text@, columns as nat, true),
{
    if columns <= ELLIPSIS_WIDTH {
        return true;
    }
    if display_width(text) <= columns {
        return true;
    }
    let clusters = graphemes(text);
    let ws = cluster_widths_of(&clusters);
    let budget = columns - ELLIPSIS_WIDTH;
    let h = fit(&ws, if budget < HEAD_WIDTH { budget } else { HEAD_WIDTH });
    proof {
        lemma_fit_count_bounds(ws@, (if budget < HEAD_WIDTH { budget } else { HEAD_WIDTH }) as nat);
    }
    let mut head_text = String::new();
    push_clusters(&mut head_text, &clusters, 0, h);
    assert(views(clusters@).subrange(0, h as int) == views(clusters@).take(h as int));
    let head_width = display_width(head_text.as_str());
    proof {
        if h == 0 {
            assert(views(clusters@).take(0) == Seq::<Seq<char>>::empty());
        }
    }
    head_width <= budget
}

/// `elide_middle`, or `None` where the head it would keep measures wider
/// than the columns left beside the marker.
pub fn try_elide_middle(text: &str, columns: usize) -> (r: Option<String>)
    ensures
        r is Some <==> elision_defined(text@, columns as nat, true),
        r matches Some(s) ==> s@ == elided(text@, columns as nat, true),
{
    if middle_elision_defined(text, columns) {
        Some(elide_middle(text, columns))
    } else {
        None
    }
}

/// `remap_indices_after_elide_middle`, or `None` where `elide_middle` is
/// not defined.
pub fn try_remap_indices_after_elide_middle(text: &str, columns: usize, indices: &[usize]) -> (r:
    Option<Vec<usize>>)
    requires
        text@.len() + 3 <= usize::MAX,
    ensures
        r is Some <==> elision_defined(text@, columns as nat, true),
        r matches Some(v) ==> v@ == remapped_indices(text@, columns as nat, true, indices@),
{
    if middle_elision_defined(text, columns) {
        Some(remap_indices_after_elide_middle(text, columns, indices))
    } else {
        None
    }
}

/// Wrapping state: finished lines, their widths, the open line and its width.
pub type WrapState = (Seq<Seq<char>>, Seq<nat>, Seq<char>, nat);

/// One cluster `g` of width `w` passing through the wrapper.
pub open spec fn wrap_step(st: WrapState, g: Seq<char>, w: nat, columns: nat) -> WrapState {
    let newline = g == seq!['\n'];
    let broken: WrapState = if newline || st.3 + w > columns {
        (st.0.push(st.2), st.1.push(st.3), Seq::empty(), 0)
    } else {
        st
    };
    if !newline && w <= columns {
        (broken.0, broken.1, broken.2 + g, broken.3 + w)
    } else {
        broken
    }
}

/// The state after the first `k` clusters of `text`.
pub open spec fn wrap_state(text: Seq<char>, columns: nat, k: nat) -> WrapState
    decreases k,
{
    if k == 0 {
        (Seq::empty(), Seq::empty(), Seq::empty(), 0)
    } else {
        wrap_step(
            wrap_state(text, columns, (k - 1) as nat),
            grapheme_clusters(text)[k - 1],
            cluster_widths(text)[k - 1] as nat,
            columns,
        )
    }
}

/// The lines `wrap_columns` produces.
pub open spec fn wrapped(text: Seq<char>, columns: nat) -> Seq<Seq<char>> {
    if columns == 0 {
        Seq::empty()
    } else {
        let st = wrap_state(text, columns, grapheme_clusters(text).len());
        if st.2.len() > 0 {
            st.0.push(st.2)
        } else {
            st.0
        }
    }
}

/// The width, counted cluster by cluster, of each line `wrap_columns` produces.
pub open spec fn wrapped_widths(text: Seq<char>, columns: nat) -> Seq<nat> {
    if columns == 0 {
        Seq::empty()
    } else {
        let st = wrap_state(text, columns, grapheme_clusters(text).len());
        if st.2.len() > 0 {
            st.1.push(st.3)
        } else {
            st.1
        }
    }
}

/// No wrapped line is wider than the pane.
pub proof fn lemma_wrapped_lines_fit(text: Seq<char>, columns: nat)
    ensures
        wrapped_widths(text, columns).len() == wrapped(text, columns).len(),
        forall|i: int|
            0 <= i < wrapped_widths(text, columns).len() ==> #[trigger] wrapped_widths(text, columns)[i]
                <= columns,
{
    lemma_wrap_state_fits(text, columns, grapheme_clusters(text).len());
}

proof fn lemma_wrap_state_fits(text: Seq<char>, columns: nat, k: nat)
    ensures
        wrap_state(text, columns, k).0.len() == wrap_state(text, columns, k).1.len(),
        wrap_state(text, columns, k).3 <= columns,
        forall|i: int|
            0 <= i < wrap_state(text, columns, k).1.len() ==> #[trigger] wrap_state(
                text,
                columns,
                k,
            ).1[i] <= columns,
    decreases k,
{
    if k > 0 {
        lemma_wrap_state_fits(text, columns, (k - 1) as nat);
    }
}

/// The first `k` clusters of `text` that wrapping keeps, joined: all but
/// the clusters that are a line feed on their own and those wider than the
/// pane.
pub open spec fn kept_clusters(text: Seq<char>, columns: nat, k: nat) -> Seq<char>
    decreases k,
{
    if k == 0 {
        Seq::empty()
    } else {
        let g = grapheme_clusters(text)[k - 1];
        kept_clusters(text, columns, (k - 1) as nat) + if g != seq!['\n'] && cluster_widths(text)[k
            - 1] as nat <= columns {
            g
        } else {
            Seq::empty()
        }
    }
}

/// Wrapping only breaks the text into lines: joined back together, the
/// lines are the clusters of `text` in order, without the clusters that are
/// a line feed on their own and those too wide for the pane. So no lone
/// line feed is left in any line.
pub proof fn lemma_wrapped_lines_join_to_text(text: Seq<char>, columns: nat)
    requires
        columns > 0,
    ensures
        wrapped(text, columns).flatten() == kept_clusters(text, columns, grapheme_clusters(text).len()),
{
    let n = grapheme_clusters(text).len();
    lemma_wrap_state_joins(text, columns, n);
    let st = wrap_state(text, columns, n);
    st.0.lemma_flatten_push(st.2);
    if st.2.len() == 0 {
        assert(st.0.flatten() + st.2 == st.0.flatten());
    }
}

proof fn lemma_wrap_state_joins(text: Seq<char>, columns: nat, k: nat)
    ensures
        wrap_state(text, columns, k).0.flatten() + wrap_state(text, columns, k).2 == kept_clusters(
            text,
            columns,
            k,
        ),
    decreases k,
{
    if k == 0 {
        assert(Seq::<Seq<char>>::empty().flatten() + Seq::<char>::empty() =~= Seq::<char>::empty());
    } else {
        lemma_wrap_state_joins(text, columns, (k - 1) as nat);
        let st = wrap_state(text, columns, (k - 1) as nat);
        st.0.lemma_flatten_push(st.2);
        assert(st.0.push(st.2).flatten() + Seq::<char>::empty() =~= st.0.flatten() + st.2);
        let g = grapheme_clusters(text)[k - 1];
        assert(st.0.flatten() + st.2 + g =~= st.0.flatten() + (st.2 + g));
        assert(st.0.push(st.2).flatten() + Seq::<char>::empty() + g =~= st.0.push(st.2).flatten() + g);
        assert(kept_clusters(text, columns, (k - 1) as nat) + Seq::<char>::empty() =~= kept_clusters(
            text,
            columns,
            (k - 1) as nat,
        ));
    }
}

/// Whether a cluster is a line feed on its own.
fn is_line_feed(g: &String) -> (r: bool)
    ensures
        r == (g@ == seq!['\n']),
{
    let s = g.as_str();
    if s.unicode_len() != 1 {
        return false;
    }
    let c = s.get_char(0);
    if c == '\n' {
        assert(g@ =~= seq!['\n']);
        true
    } else {
        false
    }
}

/// Wrap messages without splitting a grapheme. An individual cluster wider
/// than the whole pane is omitted because it cannot be displayed intact.
pub fn wrap_columns(text: &str, columns: usize) -> (r: Vec<String>)
    ensures
        views(r@) == wrapped(text@, columns as nat),
{
    if columns == 0 {
        return Vec::new();
    }
    let clusters = graphemes(text);
    let mut lines: Vec<String> = Vec::new();
    let mut line = String::new();
    let mut width: usize = 0;
    let mut i: usize = 0;
    let ghost mut widths: Seq<nat> = Seq::empty();
    while i < clusters.len()
        invariant
            i <= clusters.len(),
            views(clusters@) == grapheme_clusters(text@),
            columns > 0,
            width <= columns,
            wrap_state(text@, columns as nat, i as nat) == (views(lines@), widths, line@, width as nat),
        decreases clusters.len() - i,
    {
        proof {
            lemma_wrap_state_fits(text@, columns as nat, i as nat);
        }
        let g = &clusters[i];
        let w = display_width(g.as_str());
        let newline = is_line_feed(g);
        if newline || w > columns - width {
            let finished = line;
            proof {
                widths = widths.push(width as nat);
            }
            lines.push(finished);
            line = String::new();
            width = 0;
        }
        if !newline && w <= columns {
            line.append(g.as_str());
            width = width + w;
        }
        i = i + 1;
        proof {
            assert(views(lines@) =~= views(lines@));
        }
    }
    if line.unicode_len() > 0 {
        lines.push(line);
    }
    proof {
        assert(views(lines@) =~= wrapped(text@, columns as nat));
    }
    lines
}

} // verus!
