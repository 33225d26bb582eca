//! Fuzzy search across sessions and directories.
//!
//! Matching sessions stay in the order they were listed (last used first);
//! matching directories follow, pinned ones first, each group by score.

use vstd::prelude::*;
use fuzzy_matcher::skim::SkimMatcherV2;
use fuzzy_matcher::FuzzyMatcher;
use crate::list::{as_nat_option, next_index, previous_index, select_next, select_previous};
use crate::session::types::{item_session_name, item_text, same_item, SessionItem};
use crate::strings::{chars_of, string_from_chars, sub_chars};

verus! {

broadcast use vstd::string::group_string_axioms;

/// A search result: the matched item, its fuzzy score and the character
/// positions of its row text that matched the search term.
pub struct SearchResult {
    /// The matched item
    pub item: SessionItem,
    /// Fuzzy match score
    pub score: i64,
    /// Character indices that matched the search term
    pub indices: Vec<usize>,
}

/// A result as a value: item, score and matched positions.
pub type MatchView = (SessionItem, i64, Seq<usize>);

/// The value of a result.
pub open spec fn result_view(r: SearchResult) -> MatchView {
    (r.item, r.score, r.indices@)
}

/// The values of some results.
pub open spec fn results_view(rs: Seq<SearchResult>) -> Seq<MatchView> {
    rs.map_values(|r: SearchResult| result_view(r))
}

/// What the skim fuzzy matcher (`SkimMatcherV2`, default settings) finds of
/// `pattern` in `choice`: a score and the matched character positions, or
/// nothing when `pattern` does not match.
pub uninterp spec fn skim_match(choice: Seq<char>, pattern: Seq<char>) -> Option<(i64, Seq<usize>)>;

/// `SkimMatcherV2::fuzzy_indices` with the default settings. An empty
/// pattern matches everything with score 0 and no positions.
#[verifier::external_body]
pub(crate) fn fuzzy_indices(choice: &str, pattern: &str) -> (r: Option<(i64, Vec<usize>)>)
    ensures
        match (r, skim_match(choice@, pattern@)) {
            (Some((s, v)), Some((t, w))) => s == t && v@ == w,
            (None, None) => true,
            _ => false,
        },
        pattern@.len() == 0 ==> r is Some && (r->0).0 == 0 && (r->0).1@.len() == 0,
{
    FuzzyMatcher::fuzzy_indices(&SkimMatcherV2::default().use_cache(true), choice, pattern)
}

/// The items of `items` whose row text matches `term`, in order.
pub open spec fn matches_of(items: Seq<SessionItem>, term: Seq<char>) -> Seq<MatchView>
    decreases items.len(),
{
    if items.len() == 0 {
        Seq::empty()
    } else {
        let before = matches_of(items.drop_last(), term);
        match skim_match(item_text(items.last()), term) {
            Some((score, positions)) => before.push((items.last(), score, positions)),
            None => before,
        }
    }
}

/// Whether an item is a session, live or resurrectable.
pub open spec fn is_session_item(item: SessionItem) -> bool {
    item is ExistingSession || item is ResurrectableSession
}

/// Whether an item is a pinned directory.
pub open spec fn item_pinned(item: SessionItem) -> bool {
    item matches SessionItem::Directory { pinned, .. } && pinned
}

/// The session matches of `ms`, in order.
pub open spec fn session_matches(ms: Seq<MatchView>) -> Seq<MatchView>
    decreases ms.len(),
{
    if ms.len() == 0 {
        Seq::empty()
    } else if is_session_item(ms.last().0) {
        session_matches(ms.drop_last()).push(ms.last())
    } else {
        session_matches(ms.drop_last())
    }
}

/// The directory matches of `ms`, in order.
pub open spec fn directory_matches(ms: Seq<MatchView>) -> Seq<MatchView>
    decreases ms.len(),
{
    if ms.len() == 0 {
        Seq::empty()
    } else if !is_session_item(ms.last().0) {
        directory_matches(ms.drop_last()).push(ms.last())
    } else {
        directory_matches(ms.drop_last())
    }
}

/// Directory match `a` ranks above `b`: pinned before unpinned, then the
/// higher score.
pub open spec fn ranks_above(a: MatchView, b: MatchView) -> bool {
    (item_pinned(a.0) && !item_pinned(b.0)) || (item_pinned(a.0) == item_pinned(b.0) && a.1 > b.1)
}

/// Where `m` goes in `sorted`: before the first entry it ranks above, so
/// that equal ranks keep their order.
pub open spec fn insertion_point(sorted: Seq<MatchView>, m: MatchView) -> nat
    decreases sorted.len(),
{
    if sorted.len() == 0 {
        0
    } else if ranks_above(m, sorted[0]) {
        0
    } else {
        1 + insertion_point(sorted.drop_first(), m)
    }
}

/// `ms` in rank order, as a stable sort leaves them.
pub open spec fn rank_sorted(ms: Seq<MatchView>) -> Seq<MatchView>
    decreases ms.len(),
{
    if ms.len() == 0 {
        Seq::empty()
    } else {
        let sorted = rank_sorted(ms.drop_last());
        sorted.insert(insertion_point(sorted, ms.last()) as int, ms.last())
    }
}

/// The results of a search: matching sessions in their order, then
/// matching directories in rank order.
pub open spec fn ordered_matches(ms: Seq<MatchView>) -> Seq<MatchView> {
    session_matches(ms) + rank_sorted(directory_matches(ms))
}

/// The selection after results of length `len` replace the old ones: none
/// without results, the first row without a selection, and a selection past
/// the end pulled back to the last row.
pub open spec fn refreshed_selection(selected: Option<usize>, len: nat) -> Option<nat> {
    if len == 0 {
        None
    } else {
        match selected {
            Some(i) => if i >= len {
                Some((len - 1) as nat)
            } else {
                Some(i as nat)
            },
            None => Some(0),
        }
    }
}

/// The first result standing for the same row as `item`.
pub open spec fn position_of_item(results: Seq<MatchView>, item: SessionItem, from: nat) -> Option<nat>
    decreases results.len() - from,
{
    if from >= results.len() {
        None
    } else if same_item(results[from as int].0, item) {
        Some(from)
    } else {
        position_of_item(results, item, from + 1)
    }
}

/// Handles fuzzy searching across sessions and directories
pub struct SearchEngine {
    search_term: String,
    results: Vec<SearchResult>,
    selected_index: Option<usize>,
    is_searching: bool,
}

impl SearchEngine {
    /// The search is active exactly when there is a term, and a selection
    /// points at a result.
    pub closed spec fn wf(self) -> bool {
        &&& self.is_searching == (self.search_term@.len() > 0)
        &&& self.selected_index matches Some(i) ==> i < self.results@.len()
    }

    /// The current search term.
    pub closed spec fn term(self) -> Seq<char> {
        self.search_term@
    }

    /// The current results.
    pub closed spec fn found(self) -> Seq<MatchView> {
        results_view(self.results@)
    }

    /// The selected result, if any.
    pub closed spec fn selection(self) -> Option<usize> {
        self.selected_index
    }

    /// Whether a search is active.
    pub closed spec fn active(self) -> bool {
        self.is_searching
    }

    /// The item of the selected result.
    pub open spec fn selected_match(self) -> Option<SessionItem> {
        match self.selection() {
            Some(i) => if i < self.found().len() {
                Some(self.found()[i as int].0)
            } else {
                None
            },
            None => None,
        }
    }
}

/// The state after a search for `term` over `items`, from a search for
/// `old_term` with `old_selected` selected among `old_results`: the
/// results, and the selection.
pub open spec fn searched_selection(
    old_term: Seq<char>,
    old_selected: Option<SessionItem>,
    old_index: Option<usize>,
    term: Seq<char>,
    results: Seq<MatchView>,
) -> Option<nat> {
    let base = refreshed_selection(
        if term == old_term {
            old_index
        } else {
            None
        },
        results.len(),
    );
    if term == old_term {
        match old_selected {
            Some(item) => match position_of_item(results, item, 0) {
                Some(k) => Some(k),
                None => base,
            },
            None => base,
        }
    } else {
        base
    }
}

/// Whether match `a` ranks above `b`.
fn result_ranks_above(a: &SearchResult, b: &SearchResult) -> (r: bool)
    ensures
        r == ranks_above(result_view(*a), result_view(*b)),
{
    let pa = a.item.is_pinned();
    let pb = b.item.is_pinned();
    (pa && !pb) || (pa == pb && a.score > b.score)
}

/// Inserts `r` into rank-ordered `sorted` after every entry it does not rank
/// above.
fn insert_ranked(sorted: &mut Vec<SearchResult>, r: SearchResult)
    ensures
        results_view(final(sorted)@) == results_view(old(sorted)@).insert(
            insertion_point(results_view(old(sorted)@), result_view(r)) as int,
            result_view(r),
        ),
{
    let ghost s = results_view(sorted@);
    let ghost m = result_view(r);
    let mut k: usize = 0;
    assert(s.skip(0) == s);
    while k < sorted.len() && !result_ranks_above(&r, &sorted[k])
        invariant
            k <= sorted.len(),
            s == results_view(sorted@),
            m == result_view(r),
            insertion_point(s, m) == k + insertion_point(s.skip(k as int), m),
        decreases sorted.len() - k,
    {
        assert(s.skip(k as int).drop_first() == s.skip(k + 1));
        assert(s.skip(k as int)[0] == s[k as int]);
        k = k + 1;
    }
    if k < sorted.len() {
        assert(s.skip(k as int)[0] == s[k as int]);
    }
    sorted.insert(k, r);
    assert(results_view(sorted@) =~= s.insert(k as int, m));
}

/// A copy of `r`.
fn copy_result(r: &SearchResult) -> (c: SearchResult)
    ensures
        result_view(c) == result_view(*r),
{
    let indices = r.indices.clone();
    assert(indices@ =~= r.indices@);
    SearchResult { item: r.item.clone(), score: r.score, indices }
}

/// The results a search shows for the matches `found`, given in the order
/// of the searched items: the session matches in that order, then the
/// directory matches, pinned ones first and higher scores first, equal
/// ranks in their given order.
pub fn rank_matches(found: &Vec<SearchResult>) -> (r: Vec<SearchResult>)
    ensures
        results_view(r@) == ordered_matches(results_view(found@)),
{
    let ghost all = results_view(found@);
    let mut sessions: Vec<SearchResult> = Vec::new();
    let mut directories: Vec<SearchResult> = Vec::new();
    let mut i: usize = 0;
    assert(all.take(0) == Seq::<MatchView>::empty());
    while i < found.len()
        invariant
            i <= found.len(),
            all == results_view(found@),
            results_view(sessions@) == session_matches(all.take(i as int)),
            results_view(directories@) == rank_sorted(directory_matches(all.take(i as int))),
        decreases found.len() - i,
    {
        let ghost before = all.take(i as int);
        let ghost after = all.take(i + 1);
        let m = copy_result(&found[i]);
        assert(after.drop_last() == before);
        assert(after.last() == result_view(m));
        if m.item.is_session() || m.item.is_resurrectable_session() {
            sessions.push(m);
            assert(results_view(sessions@) =~= session_matches(before).push(after.last()));
            assert(directory_matches(after) == directory_matches(before));
        } else {
            let ghost mv = result_view(m);
            insert_ranked(&mut directories, m);
            let ghost ds = directory_matches(before);
            assert(directory_matches(after) == ds.push(mv));
            assert(ds.push(mv).drop_last() == ds);
            assert(ds.push(mv).last() == mv);
            assert(session_matches(after) == session_matches(before));
        }
        i = i + 1;
    }
    assert(all.take(found.len() as int) == all);
    let ghost ordered = results_view(sessions@) + results_view(directories@);
    sessions.append(&mut directories);
    assert(results_view(sessions@) =~= ordered);
    sessions
}

impl SearchEngine {
    /// Recomputes the results for the current term.
    fn perform_search(&mut self, items: &[SessionItem])
        requires
            old(self).search_term@.len() > 0,
            old(self).is_searching,
        ensures
            final(self).wf(),
            final(self).search_term == old(self).search_term,
            final(self).is_searching == old(self).is_searching,
            results_view(final(self).results@) == ordered_matches(
                matches_of(items@, old(self).search_term@),
            ),
            as_nat_option(final(self).selected_index) == refreshed_selection(
                old(self).selected_index,
                final(self).results@.len(),
            ),
    {
        let ghost term = self.search_term@;
        let mut found: Vec<SearchResult> = Vec::new();
        let mut i: usize = 0;
        assert(items@.take(0) == Seq::<SessionItem>::empty());
        while i < items.len()
            invariant
                i <= items.len(),
                term == self.search_term@,
                results_view(found@) == matches_of(items@.take(i as int), term),
            decreases items.len() - i,
        {
            let ghost before = matches_of(items@.take(i as int), term);
            assert(items@.take(i + 1).drop_last() == items@.take(i as int));
            assert(items@.take(i + 1).last() == items@[i as int]);
            let item = &items[i];
            // Match against the same text the renderer draws, so the returned
            // indices can be mapped straight onto the rendered row.
            let text = item.display_text();
            match fuzzy_indices(text.as_str(), self.search_term.as_str()) {
                Some((score, indices)) => {
                    let m = SearchResult { item: item.clone(), score, indices };
                    found.push(m);
                    assert(results_view(found@) =~= before.push(result_view(m)));
                },
                None => {},
            }
            i = i + 1;
        }
        assert(items@.take(items.len() as int) == items@);
        self.results = rank_matches(&found);
        if self.results.len() == 0 {
            self.selected_index = None;
        } else {
            match self.selected_index {
                Some(idx) => {
                    if idx >= self.results.len() {
                        self.selected_index = Some(self.results.len() - 1);
                    }
                },
                None => {
                    self.selected_index = Some(0);
                },
            }
        }
    }
}

/// Where a result stands for the same row as `item`.
fn position_in(results: &Vec<SearchResult>, item: &SessionItem) -> (r: Option<usize>)
    ensures
        as_nat_option(r) == position_of_item(results_view(results@), *item, 0),
        r matches Some(k) ==> k < results.len(),
{
    let ghost rv = results_view(results@);
    let mut i: usize = 0;
    while i < results.len()
        invariant
            i <= results.len(),
            rv == results_view(results@),
            position_of_item(rv, *item, 0) == position_of_item(rv, *item, i as nat),
        decreases results.len() - i,
    {
        assert(rv[i as int].0 == results@[i as int].item);
        if results[i].item.same_identity(item) {
            return Some(i);
        }
        i = i + 1;
    }
    None
}

impl SearchEngine {
    /// Update search term and perform search
    pub fn update_search(&mut self, term: String, items: &[SessionItem])
        requires
            old(self).wf(),
        ensures
            final(self).wf(),
            final(self).term() == term@,
            final(self).active() == (term@.len() > 0),
            term@.len() > 0 ==> final(self).found() == ordered_matches(matches_of(items@, term@)),
            term@.len() > 0 ==> as_nat_option(final(self).selection()) == searched_selection(
                old(self).term(),
                old(self).selected_match(),
                old(self).selection(),
                term@,
                final(self).found(),
            ),
            term@.len() == 0 ==> final(self).found().len() == 0 && final(self).selection() is None,
    {
        let same = crate::session_name::str_eq(term.as_str(), self.search_term.as_str());
        let selected: Option<SessionItem> = if same {
            match self.selected_item() {
                Some(item) => Some(item.clone()),
                None => None,
            }
        } else {
            self.selected_index = None;
            None
        };
        self.search_term = term;
        self.is_searching = !self.search_term.as_str().is_empty();
        if self.is_searching {
            self.perform_search(items);
            if let Some(item) = selected {
                if let Some(index) = position_in(&self.results, &item) {
                    self.selected_index = Some(index);
                }
            }
        } else {
            self.results.clear();
            self.selected_index = None;
        }
    }

    /// Add character to search term
    pub fn add_char(&mut self, c: char, items: &[SessionItem])
        requires
            old(self).wf(),
        ensures
            final(self).wf(),
            final(self).term() == old(self).term().push(c),
            final(self).active(),
            final(self).found() == ordered_matches(matches_of(items@, old(self).term().push(c))),
            as_nat_option(final(self).selection()) == searched_selection(
                old(self).term(),
                old(self).selected_match(),
                old(self).selection(),
                old(self).term().push(c),
                final(self).found(),
            ),
    {
        let mut term = string_from_chars(chars_of(self.search_term.as_str()).as_slice());
        crate::strings::push_char(&mut term, c);
        self.update_search(term, items);
    }

    /// Remove last character from search term
    pub fn backspace(&mut self, items: &[SessionItem])
        requires
            old(self).wf(),
        ensures
            ({
                let term = if old(self).term().len() > 0 {
                    old(self).term().drop_last()
                } else {
                    old(self).term()
                };
                &&& final(self).wf()
                &&& final(self).term() == term
                &&& final(self).active() == (term.len() > 0)
                &&& term.len() > 0 ==> final(self).found() == ordered_matches(matches_of(items@, term))
                &&& term.len() > 0 ==> as_nat_option(final(self).selection()) == searched_selection(
                    old(self).term(),
                    old(self).selected_match(),
                    old(self).selection(),
                    term,
                    final(self).found(),
                )
                &&& term.len() == 0 ==> final(self).found().len() == 0 && final(self).selection() is None
            }),
    {
        let cs = chars_of(self.search_term.as_str());
        let keep = if cs.len() > 0 {
            cs.len() - 1
        } else {
            0
        };
        let term = string_from_chars(sub_chars(cs.as_slice(), 0, keep).as_slice());
        assert(cs@.len() > 0 ==> cs@.subrange(0, keep as int) == cs@.drop_last());
        assert(cs@.len() == 0 ==> cs@.subrange(0, keep as int) == cs@);
        self.update_search(term, items);
    }

    /// Clear search term
    pub fn clear(&mut self)
        ensures
            final(self).wf(),
            final(self).term().len() == 0,
            final(self).found().len() == 0,
            final(self).selection() is None,
            !final(self).active(),
    {
        self.search_term = String::new();
        self.results.clear();
        self.selected_index = None;
        self.is_searching = false;
    }

    /// Get current search term
    pub fn search_term(&self) -> (r: &str)
        ensures
            r@ == self.term(),
    {
        self.search_term.as_str()
    }

    /// Check if currently searching
    pub fn is_searching(&self) -> (r: bool)
        ensures
            r == self.active(),
    {
        self.is_searching
    }

    /// Get search results
    pub fn results(&self) -> (r: &[SearchResult])
        ensures
            results_view(r@) == self.found(),
    {
        self.results.as_slice()
    }

    /// Get selected index
    pub fn selected_index(&self) -> (r: Option<usize>)
        ensures
            r == self.selection(),
    {
        self.selected_index
    }

    /// Move selection up, wrapping at the top.
    pub fn move_selection_up(&mut self)
        requires
            old(self).wf(),
        ensures
            final(self).wf(),
            final(self).term() == old(self).term(),
            final(self).found() == old(self).found(),
            final(self).active() == old(self).active(),
            as_nat_option(final(self).selection()) == previous_index(
                old(self).selection(),
                old(self).found().len(),
            ),
    {
        self.selected_index = select_previous(self.selected_index, self.results.len());
    }

    /// Move selection down, wrapping at the end.
    pub fn move_selection_down(&mut self)
        requires
            old(self).wf(),
        ensures
            final(self).wf(),
            final(self).term() == old(self).term(),
            final(self).found() == old(self).found(),
            final(self).active() == old(self).active(),
            as_nat_option(final(self).selection()) == next_index(
                old(self).selection(),
                old(self).found().len(),
            ),
    {
        self.selected_index = select_next(self.selected_index, self.results.len());
    }

    /// Get currently selected item
    pub fn selected_item(&self) -> (r: Option<&SessionItem>)
        ensures
            match self.selected_match() {
                Some(item) => r matches Some(x) && *x == item,
                None => r is None,
            },
    {
        match self.selected_index {
            Some(i) => if i < self.results.len() {
                Some(&self.results[i].item)
            } else {
                None
            },
            None => None,
        }
    }
}

impl Default for SearchEngine {
    fn default() -> (r: Self)
        ensures
            r.wf(),
            r.term().len() == 0,
            r.found().len() == 0,
            r.selection() is None,
            !r.active(),
    {
        SearchEngine {
            search_term: String::new(),
            results: Vec::new(),
            selected_index: None,
            is_searching: false,
        }
    }
}

/// No later entry ranks above an earlier one.
pub open spec fn rank_ordered(s: Seq<MatchView>) -> bool {
    forall|a: int, b: int| 0 <= a < b < s.len() ==> !ranks_above(#[trigger] s[b], #[trigger] s[a])
}

/// Ranking is a strict weak order.
proof fn lemma_ranks_above_order(x: MatchView, y: MatchView, z: MatchView)
    ensures
        !ranks_above(x, x),
        ranks_above(x, y) ==> !ranks_above(y, x),
        ranks_above(x, y) && ranks_above(y, z) ==> ranks_above(x, z),
        !ranks_above(x, y) && !ranks_above(y, z) ==> !ranks_above(x, z),
{
}

/// Where the insertion point lies.
proof fn lemma_insertion_point(s: Seq<MatchView>, m: MatchView)
    ensures
        insertion_point(s, m) <= s.len(),
        forall|j: int| 0 <= j < insertion_point(s, m) ==> !ranks_above(m, #[trigger] s[j]),
        insertion_point(s, m) < s.len() ==> ranks_above(m, s[insertion_point(s, m) as int]),
    decreases s.len(),
{
    if s.len() > 0 && !ranks_above(m, s[0]) {
        let t = s.drop_first();
        lemma_insertion_point(t, m);
        assert forall|j: int| 0 <= j < insertion_point(s, m) implies !ranks_above(m, #[trigger] s[j]) by {
            if j > 0 {
                assert(s[j] == t[j - 1]);
            }
        }
        if insertion_point(s, m) < s.len() {
            assert(s[insertion_point(s, m) as int] == t[insertion_point(t, m) as int]);
        }
    }
}

/// A stable sort by rank leaves the matches in rank order, all of them.
pub proof fn lemma_rank_sorted(ms: Seq<MatchView>)
    ensures
        rank_ordered(rank_sorted(ms)),
        rank_sorted(ms).len() == ms.len(),
        forall|m: MatchView| ms.contains(m) <==> rank_sorted(ms).contains(m),
    decreases ms.len(),
{
    if ms.len() > 0 {
        let s = rank_sorted(ms.drop_last());
        let x = ms.last();
        lemma_rank_sorted(ms.drop_last());
        lemma_insertion_point(s, x);
        let k = insertion_point(s, x) as int;
        let t = s.insert(k, x);
        assert(rank_sorted(ms) == t);
        assert forall|a: int, b: int| 0 <= a < b < t.len() implies !ranks_above(
            #[trigger] t[b],
            #[trigger] t[a],
        ) by {
            if b < k {
                assert(t[a] == s[a] && t[b] == s[b]);
            } else if b == k {
                assert(t[a] == s[a] && t[b] == x);
            } else if a < k {
                assert(t[a] == s[a] && t[b] == s[b - 1]);
            } else if a == k {
                assert(t[a] == x && t[b] == s[b - 1]);
                lemma_ranks_above_order(s[b - 1], x, s[k]);
                if b - 1 > k {
                    assert(!ranks_above(s[b - 1], s[k]));
                }
            } else {
                assert(t[a] == s[a - 1] && t[b] == s[b - 1]);
            }
        }
        assert forall|m: MatchView| ms.contains(m) <==> t.contains(m) by {
            if ms.contains(m) {
                let i = choose|i: int| 0 <= i < ms.len() && ms[i] == m;
                if i < ms.len() - 1 {
                    assert(ms.drop_last()[i] == m);
                    assert(ms.drop_last().contains(m));
                    assert(s.contains(m));
                    let j = choose|j: int| 0 <= j < s.len() && s[j] == m;
                    if j < k {
                        assert(t[j] == m);
                    } else {
                        assert(t[j + 1] == m);
                    }
                } else {
                    assert(t[k] == m);
                }
            }
            if t.contains(m) {
                let i = choose|i: int| 0 <= i < t.len() && t[i] == m;
                if i == k {
                    assert(ms[ms.len() - 1] == m);
                } else {
                    let j = if i < k {
                        i
                    } else {
                        i - 1
                    };
                    assert(s[j] == m);
                    assert(ms.drop_last().contains(m));
                    let l = choose|l: int| 0 <= l < ms.drop_last().len() && ms.drop_last()[l] == m;
                    assert(ms[l] == m);
                }
            }
        }
    }
}

/// The session matches are sessions and the directory matches directories.
#[verifier::spinoff_prover]
proof fn lemma_groups(ms: Seq<MatchView>)
    ensures
        forall|a: int|
            0 <= a < session_matches(ms).len() ==> is_session_item(#[trigger] session_matches(ms)[a].0),
        forall|a: int|
            0 <= a < directory_matches(ms).len() ==> !is_session_item(
                #[trigger] directory_matches(ms)[a].0,
            ),
        session_matches(ms).len() + directory_matches(ms).len() == ms.len(),
        forall|m: MatchView| ms.contains(m) <==> (session_matches(ms).contains(m) || directory_matches(ms).contains(m)),
    decreases ms.len(),
{
    if ms.len() > 0 {
        let r = ms.drop_last();
        lemma_groups(r);
        let x = ms.last();
        assert forall|m: MatchView| ms.contains(m) <==> (r.contains(m) || m == x) by {
            if ms.contains(m) {
                let i = choose|i: int| 0 <= i < ms.len() && ms[i] == m;
                if i < ms.len() - 1 {
                    assert(r[i] == m);
                }
            }
            if r.contains(m) {
                let i = choose|i: int| 0 <= i < r.len() && r[i] == m;
                assert(ms[i] == m);
            }
            if m == x {
                assert(ms[ms.len() - 1] == m);
            }
        }
        let sr = session_matches(r);
        let dr = directory_matches(r);
        if is_session_item(x.0) {
            assert(session_matches(ms) == sr.push(x));
            assert forall|m: MatchView| sr.push(x).contains(m) <==> (sr.contains(m) || m == x) by {
                if sr.push(x).contains(m) {
                    let i = choose|i: int| 0 <= i < sr.push(x).len() && sr.push(x)[i] == m;
                    if i < sr.len() {
                        assert(sr[i] == m);
                    }
                }
                if sr.contains(m) {
                    let i = choose|i: int| 0 <= i < sr.len() && sr[i] == m;
                    assert(sr.push(x)[i] == m);
                }
                if m == x {
                    assert(sr.push(x)[sr.len() as int] == m);
                }
            }
        } else {
            assert(directory_matches(ms) == dr.push(x));
            assert forall|m: MatchView| dr.push(x).contains(m) <==> (dr.contains(m) || m == x) by {
                if dr.push(x).contains(m) {
                    let i = choose|i: int| 0 <= i < dr.push(x).len() && dr.push(x)[i] == m;
                    if i < dr.len() {
                        assert(dr[i] == m);
                    }
                }
                if dr.contains(m) {
                    let i = choose|i: int| 0 <= i < dr.len() && dr[i] == m;
                    assert(dr.push(x)[i] == m);
                }
                if m == x {
                    assert(dr.push(x)[dr.len() as int] == m);
                }
            }
        }
    }
}

/// Search results list every match once: matching sessions first, in the
/// order they were given, then matching directories with pinned ones before
/// the rest and, among directories alike in being pinned or not, higher
/// scores first.
pub proof fn lemma_search_order(ms: Seq<MatchView>)
    ensures
        ordered_matches(ms).len() == ms.len(),
        forall|m: MatchView| ms.contains(m) <==> ordered_matches(ms).contains(m),
        forall|a: int|
            0 <= a < session_matches(ms).len() ==> is_session_item(#[trigger] ordered_matches(ms)[a].0),
        forall|a: int|
            session_matches(ms).len() <= a < ms.len() ==> !is_session_item(
                #[trigger] ordered_matches(ms)[a].0,
            ),
        forall|a: int, b: int|
            session_matches(ms).len() <= a < b < ms.len() ==> !ranks_above(
                #[trigger] ordered_matches(ms)[b],
                #[trigger] ordered_matches(ms)[a],
            ),
        forall|a: int, b: int|
            session_matches(ms).len() <= a < b < ms.len() ==> {
                let x = #[trigger] ordered_matches(ms)[a];
                let y = #[trigger] ordered_matches(ms)[b];
                &&& item_pinned(y.0) ==> item_pinned(x.0)
                &&& item_pinned(x.0) == item_pinned(y.0) ==> x.1 >= y.1
            },
{
    lemma_groups(ms);
    let sm = session_matches(ms);
    let dm = directory_matches(ms);
    lemma_rank_sorted(dm);
    let rs = rank_sorted(dm);
    let o = ordered_matches(ms);
    assert(o == sm + rs);
    assert forall|a: int| sm.len() <= a < ms.len() implies !is_session_item(#[trigger] o[a].0) by {
        assert(o[a] == rs[a - sm.len()]);
        assert(rs.contains(rs[a - sm.len()]));
        assert(dm.contains(rs[a - sm.len()]));
        let j = choose|j: int| 0 <= j < dm.len() && dm[j] == rs[a - sm.len()];
        assert(!is_session_item(dm[j].0));
    }
    assert forall|a: int, b: int| sm.len() <= a < b < ms.len() implies !ranks_above(
        #[trigger] o[b],
        #[trigger] o[a],
    ) by {
        assert(o[a] == rs[a - sm.len()]);
        assert(o[b] == rs[b - sm.len()]);
    }
    assert forall|m: MatchView| ms.contains(m) <==> o.contains(m) by {
        if sm.contains(m) {
            let i = choose|i: int| 0 <= i < sm.len() && sm[i] == m;
            assert(o[i] == m);
        }
        if rs.contains(m) {
            let i = choose|i: int| 0 <= i < rs.len() && rs[i] == m;
            assert(o[sm.len() + i] == m);
        }
        if o.contains(m) {
            let i = choose|i: int| 0 <= i < o.len() && o[i] == m;
            if i < sm.len() {
                assert(sm[i] == m);
            } else {
                assert(rs[i - sm.len()] == m);
            }
        }
    }
}

} // verus!
