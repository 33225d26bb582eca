//! The rows of the picker: sessions ordered by their last visit, then
//! directories with pinned ones first.

use vstd::prelude::*;
use std::cmp::Ordering;
use crate::config::Config;
use crate::naming::{generated_name, path_views, session_names};
use crate::projects::{directory_in, pinned_in, Projects};
use crate::session::listing::{dead_view, live_view};
use crate::session::types::{item_session_name, Elapsed, SessionItem};
use crate::session_name::str_eq;
use crate::session_usage::{usage_order, SessionUsage};
use crate::strings::{chars_of, string_from_chars};

verus! {

broadcast use vstd::string::group_string_axioms;

/// The name an item is ordered by: its session name, or nothing.
pub open spec fn listed_name(item: SessionItem) -> Seq<char> {
    match item_session_name(item) {
        Some(n) => n,
        None => Seq::empty(),
    }
}

/// `item` is the row of live session `name`.
pub open spec fn is_live_row(item: SessionItem, name: Seq<char>, directory: Seq<char>, is_current: bool) -> bool {
    item matches SessionItem::ExistingSession { name: n, directory: d, is_current: c } && n@ == name
        && d@ == directory && c == is_current
}

/// `item` is the row of resurrectable session `name`.
pub open spec fn is_dead_row(item: SessionItem, name: Seq<char>, age: (u64, u32)) -> bool {
    item matches SessionItem::ResurrectableSession { name: n, duration: d } && n@ == name && d@ == age
}

/// `item` is the row of directory `path`.
pub open spec fn is_directory_row(item: SessionItem, path: Seq<char>, name: Seq<char>, pinned: bool) -> bool {
    item matches SessionItem::Directory { path: p, session_name: n, pinned: f } && p@ == path && n@
        == name && f == pinned
}

/// The directory explicitly associated with a session, or nothing.
pub open spec fn association(m: Map<Seq<char>, (u128, Seq<char>)>, session: Seq<char>) -> Seq<char> {
    match directory_in(m, session) {
        Some(d) => d,
        None => Seq::empty(),
    }
}

/// The names of the live sessions.
pub open spec fn live_names(live: Seq<(Seq<char>, bool)>) -> Seq<Seq<char>> {
    live.map_values(|x: (Seq<char>, bool)| x.0)
}

/// The resurrectable sessions without a live session of the same name.
pub open spec fn unlisted(dead: Seq<(Seq<char>, (u64, u32))>, live: Seq<(Seq<char>, bool)>) -> Seq<
    (Seq<char>, (u64, u32)),
>
    decreases dead.len(),
{
    if dead.len() == 0 {
        Seq::empty()
    } else {
        let rest = unlisted(dead.drop_last(), live);
        if live_names(live).contains(dead.last().0) {
            rest
        } else {
            rest.push(dead.last())
        }
    }
}

/// `a` is listed strictly before `b`.
pub open spec fn precedes(m: Map<Seq<char>, u128>, a: SessionItem, b: SessionItem) -> bool {
    usage_order(m, listed_name(a), listed_name(b)) == Ordering::Less
}

/// Where `x` goes in `sorted`: before the first entry it precedes.
pub open spec fn visit_point(m: Map<Seq<char>, u128>, sorted: Seq<SessionItem>, x: SessionItem) -> nat
    decreases sorted.len(),
{
    if sorted.len() == 0 {
        0
    } else if precedes(m, x, sorted[0]) {
        0
    } else {
        1 + visit_point(m, sorted.drop_first(), x)
    }
}

/// `items` ordered by last visit, as a stable sort leaves them.
pub open spec fn visit_sorted(m: Map<Seq<char>, u128>, items: Seq<SessionItem>) -> Seq<SessionItem>
    decreases items.len(),
{
    if items.len() == 0 {
        Seq::empty()
    } else {
        let sorted = visit_sorted(m, items.drop_last());
        sorted.insert(visit_point(m, sorted, items.last()) as int, items.last())
    }
}

/// The pinned directories missing from `listed`, in order.
pub open spec fn missing_pins(pins: Seq<Seq<char>>, listed: Seq<Seq<char>>) -> Seq<Seq<char>>
    decreases pins.len(),
{
    if pins.len() == 0 {
        Seq::empty()
    } else {
        let rest = missing_pins(pins.drop_last(), listed);
        if listed.contains(pins.last()) {
            rest
        } else {
            rest.push(pins.last())
        }
    }
}

/// The indices below `n` of the paths whose pin is `pinned`, in order.
pub open spec fn pin_group(m: Map<Seq<char>, (u128, Seq<char>)>, paths: Seq<Seq<char>>, pinned: bool, n: nat) -> Seq<
    int,
>
    decreases n,
{
    if n == 0 {
        Seq::empty()
    } else {
        let rest = pin_group(m, paths, pinned, (n - 1) as nat);
        if pinned_in(m, paths[n - 1]) == pinned {
            rest.push(n - 1)
        } else {
            rest
        }
    }
}

/// The order of the directory rows: pinned paths first, each group in
/// listed order.
pub open spec fn pinned_first(m: Map<Seq<char>, (u128, Seq<char>)>, paths: Seq<Seq<char>>) -> Seq<int> {
    pin_group(m, paths, true, paths.len()) + pin_group(m, paths, false, paths.len())
}

/// The strings' characters.
pub open spec fn texts(v: Seq<String>) -> Seq<Seq<char>> {
    v.map_values(|s: String| s@)
}

/// Whether `item` is listed strictly before `other`.
fn item_precedes(usage: &SessionUsage, item: &SessionItem, other: &SessionItem) -> (r: bool)
    ensures
        r == precedes(usage@, *item, *other),
{
    let none = String::new();
    let a = match item.session_name() {
        Some(n) => n,
        None => none.as_str(),
    };
    let b = match other.session_name() {
        Some(n) => n,
        None => none.as_str(),
    };
    assert(a@ == listed_name(*item));
    assert(b@ == listed_name(*other));
    match usage.compare(a, b) {
        Ordering::Less => true,
        _ => false,
    }
}

/// Inserts `x` into `sorted` after every row it does not precede.
fn insert_by_visit(sorted: &mut Vec<SessionItem>, x: SessionItem, usage: &SessionUsage)
    ensures
        final(sorted)@ == old(sorted)@.insert(visit_point(usage@, old(sorted)@, x) as int, x),
{
    let ghost s = sorted@;
    let mut k: usize = 0;
    assert(s.skip(0) == s);
    while k < sorted.len() && !item_precedes(usage, &x, &sorted[k])
        invariant
            k <= sorted.len(),
            s == sorted@,
            visit_point(usage@, s, x) == k + visit_point(usage@, s.skip(k as int), x),
        decreases sorted.len() - k,
    {
        assert(s.skip(k as int).drop_first() == s.skip(k + 1));
        assert(s.skip(k as int)[0] == s[k as int]);
        k = k + 1;
    }
    if k < sorted.len() {
        assert(s.skip(k as int)[0] == s[k as int]);
    }
    sorted.insert(k, x);
}

/// The session rows, ordered by last visit, a stable sort.
pub fn sort_by_visits(items: Vec<SessionItem>, usage: &SessionUsage) -> (r: Vec<SessionItem>)
    ensures
        r@ == visit_sorted(usage@, items@),
{
    let mut sorted: Vec<SessionItem> = Vec::new();
    let mut rest = items;
    let ghost all = rest@;
    let mut i: usize = 0;
    assert(all.take(0) == Seq::<SessionItem>::empty());
    while i < rest.len()
        invariant
            i <= rest.len(),
            rest@ == all,
            sorted@ == visit_sorted(usage@, all.take(i as int)),
        decreases rest.len() - i,
    {
        assert(all.take(i + 1).drop_last() == all.take(i as int));
        assert(all.take(i + 1).last() == all[i as int]);
        let x = rest[i].clone();
        insert_by_visit(&mut sorted, x, usage);
        i = i + 1;
    }
    assert(all.take(rest.len() as int) == all);
    sorted
}

/// Whether a live session is named `name`.
pub(crate) fn is_live(sessions: &[(String, bool)], name: &str) -> (r: bool)
    ensures
        r == live_names(live_view(sessions@)).contains(name@),
{
    let ghost names = live_names(live_view(sessions@));
    let mut i: usize = 0;
    while i < sessions.len()
        invariant
            i <= sessions.len(),
            names == live_names(live_view(sessions@)),
            forall|j: int| 0 <= j < i ==> names[j] != name@,
        decreases sessions.len() - i,
    {
        assert(names[i as int] == sessions@[i as int].0@);
        if str_eq(sessions[i].0.as_str(), name) {
            return true;
        }
        i = i + 1;
    }
    false
}

/// The rows of the live sessions `live`, each with the directory explicitly
/// associated with it in `projects`, then, when `show` holds, the
/// resurrectable sessions that are not live.
pub open spec fn session_rows_spec(
    r: Seq<SessionItem>,
    live: Seq<(Seq<char>, bool)>,
    resurrectable: Seq<(Seq<char>, (u64, u32))>,
    show: bool,
    projects: Map<Seq<char>, (u128, Seq<char>)>,
) -> bool {
    let dead = if show {
        unlisted(resurrectable, live)
    } else {
        Seq::empty()
    };
    &&& r.len() == live.len() + dead.len()
    &&& forall|i: int|
        0 <= i < live.len() ==> is_live_row(#[trigger] r[i], live[i].0, association(projects, live[i].0), live[i].1)
    &&& forall|j: int| 0 <= j < dead.len() ==> is_dead_row(#[trigger] r[live.len() + j], dead[j].0, dead[j].1)
}

/// The directory rows: the zoxide directories, then the pinned directories
/// zoxide no longer lists, each named as `session_names` names them among
/// all of these, pinned rows first, each group in listed order.
pub open spec fn directory_rows_spec(
    r: Seq<SessionItem>,
    zoxide: Seq<Seq<char>>,
    pinned: Seq<Seq<char>>,
    projects: Map<Seq<char>, (u128, Seq<char>)>,
    base_paths: Seq<Seq<char>>,
    separator: Seq<char>,
) -> bool {
    let all = zoxide + missing_pins(pinned, zoxide);
    let order = pinned_first(projects, all);
    &&& r.len() == all.len()
    &&& forall|k: int|
        0 <= k < all.len() ==> is_directory_row(
            #[trigger] r[k],
            all[order[k]],
            generated_name(all, base_paths, separator, order[k]),
            pinned_in(projects, all[order[k]]),
        )
}

/// The rows of the live sessions, each with the directory explicitly
/// associated with it, then, when they are shown, the resurrectable sessions
/// that are not live.
pub fn session_rows(
    sessions: &[(String, bool)],
    resurrectable: &[(String, Elapsed)],
    show_resurrectable: bool,
    projects: &Projects,
) -> (r: Vec<SessionItem>)
    ensures
        session_rows_spec(r@, live_view(sessions@), dead_view(resurrectable@), show_resurrectable, projects@),
{
    let ghost live = live_view(sessions@);
    let mut rows: Vec<SessionItem> = Vec::new();
    let mut i: usize = 0;
    while i < sessions.len()
        invariant
            i <= sessions.len(),
            live == live_view(sessions@),
            rows@.len() == i,
            forall|k: int|
                0 <= k < i ==> is_live_row(
                    #[trigger] rows@[k],
                    live[k].0,
                    association(projects@, live[k].0),
                    live[k].1,
                ),
        decreases sessions.len() - i,
    {
        let name = &sessions[i].0;
        let directory = match projects.directory(name.as_str()) {
            Some(d) => string_from_chars(chars_of(d).as_slice()),
            None => String::new(),
        };
        rows.push(
            SessionItem::ExistingSession {
                name: name.clone(),
                directory,
                is_current: sessions[i].1,
            },
        );
        i = i + 1;
    }
    if !show_resurrectable {
        return rows;
    }
    let ghost dead = dead_view(resurrectable@);
    let mut j: usize = 0;
    assert(dead.take(0) == Seq::<(Seq<char>, (u64, u32))>::empty());
    while j < resurrectable.len()
        invariant
            j <= resurrectable.len(),
            live == live_view(sessions@),
            dead == dead_view(resurrectable@),
            rows@.len() == live.len() + unlisted(dead.take(j as int), live).len(),
            forall|k: int|
                0 <= k < live.len() ==> is_live_row(
                    #[trigger] rows@[k],
                    live[k].0,
                    association(projects@, live[k].0),
                    live[k].1,
                ),
            forall|k: int|
                0 <= k < unlisted(dead.take(j as int), live).len() ==> is_dead_row(
                    #[trigger] rows@[live.len() + k],
                    unlisted(dead.take(j as int), live)[k].0,
                    unlisted(dead.take(j as int), live)[k].1,
                ),
        decreases resurrectable.len() - j,
    {
        let ghost before = unlisted(dead.take(j as int), live);
        assert(dead.take(j + 1).drop_last() == dead.take(j as int));
        assert(dead.take(j + 1).last() == dead[j as int]);
        let name = &resurrectable[j].0;
        let ghost rows_before = rows@;
        if !is_live(sessions, name.as_str()) {
            rows.push(
                SessionItem::ResurrectableSession { name: name.clone(), duration: resurrectable[j].1 },
            );
            assert(unlisted(dead.take(j + 1), live) == before.push(dead[j as int]));
            assert forall|k: int|
                0 <= k < unlisted(dead.take(j + 1), live).len() implies is_dead_row(
                #[trigger] rows@[live.len() + k],
                unlisted(dead.take(j + 1), live)[k].0,
                unlisted(dead.take(j + 1), live)[k].1,
            ) by {
                if k < before.len() {
                    assert(rows@[live.len() + k] == rows_before[live.len() + k]);
                }
            }
        }
        j = j + 1;
    }
    assert(dead.take(resurrectable.len() as int) == dead);
    rows
}

/// Whether `path` is among `paths`.
fn listed(paths: &[String], path: &str) -> (r: bool)
    ensures
        r == texts(paths@).contains(path@),
{
    let ghost t = texts(paths@);
    let mut i: usize = 0;
    while i < paths.len()
        invariant
            i <= paths.len(),
            t == texts(paths@),
            forall|j: int| 0 <= j < i ==> t[j] != path@,
        decreases paths.len() - i,
    {
        assert(t[i as int] == paths@[i as int]@);
        if str_eq(paths[i].as_str(), path) {
            return true;
        }
        i = i + 1;
    }
    false
}

/// The two pin groups together hold every index once.
proof fn lemma_pin_groups_len(m: Map<Seq<char>, (u128, Seq<char>)>, paths: Seq<Seq<char>>, n: nat)
    ensures
        pin_group(m, paths, true, n).len() + pin_group(m, paths, false, n).len() == n,
    decreases n,
{
    if n > 0 {
        lemma_pin_groups_len(m, paths, (n - 1) as nat);
    }
}

/// The directory rows: the zoxide directories, then the pinned directories
/// zoxide no longer lists (pins outlive zoxide's memory), each named as
/// `session_names` names them among all of these; pinned rows come first,
/// each group in listed order.
pub fn directory_rows(zoxide: &[String], pinned: &[String], projects: &Projects, config: &Config) -> (r:
    Vec<SessionItem>)
    ensures
        directory_rows_spec(
            r@,
            texts(zoxide@),
            texts(pinned@),
            projects@,
            config.base_paths_view(),
            config.separator_view(),
        ),
{
    let ghost zv = texts(zoxide@);
    let ghost pv = texts(pinned@);
    let mut all: Vec<String> = Vec::new();
    let mut i: usize = 0;
    while i < zoxide.len()
        invariant
            i <= zoxide.len(),
            zv == texts(zoxide@),
            texts(all@) == zv.take(i as int),
        decreases zoxide.len() - i,
    {
        let ghost before = all@;
        all.push(zoxide[i].clone());
        assert(texts(all@) =~= texts(before).push(zv[i as int]));
        assert(zv.take(i + 1) =~= zv.take(i as int).push(zv[i as int]));
        i = i + 1;
    }
    assert(zv.take(zoxide.len() as int) == zv);
    let mut j: usize = 0;
    assert(pv.take(0) == Seq::<Seq<char>>::empty());
    while j < pinned.len()
        invariant
            j <= pinned.len(),
            zv == texts(zoxide@),
            pv == texts(pinned@),
            texts(all@) == zv + missing_pins(pv.take(j as int), zv),
        decreases pinned.len() - j,
    {
        assert(pv.take(j + 1).drop_last() == pv.take(j as int));
        assert(pv.take(j + 1).last() == pinned@[j as int]@);
        let ghost before = all@;
        if !listed(zoxide, pinned[j].as_str()) {
            all.push(pinned[j].clone());
            assert(texts(all@) =~= texts(before).push(pv[j as int]));
            assert(missing_pins(pv.take(j + 1), zv) == missing_pins(pv.take(j as int), zv).push(
                pv[j as int],
            ));
            assert(texts(all@) =~= zv + missing_pins(pv.take(j + 1), zv));
        }
        j = j + 1;
    }
    assert(pv.take(pinned.len() as int) == pv);
    let ghost allv = texts(all@);
    let mut paths: Vec<&str> = Vec::new();
    let mut k: usize = 0;
    while k < all.len()
        invariant
            k <= all.len(),
            allv == texts(all@),
            path_views(paths@) == allv.take(k as int),
        decreases all.len() - k,
    {
        let ghost before = paths@;
        paths.push(all[k].as_str());
        assert(path_views(paths@) =~= path_views(before).push(allv[k as int]));
        assert(allv.take(k + 1) =~= allv.take(k as int).push(allv[k as int]));
        k = k + 1;
    }
    assert(allv.take(all.len() as int) == allv);
    let names = session_names(paths.as_slice(), config);
    let ghost m = projects@;
    let mut rows: Vec<SessionItem> = Vec::new();
    let mut pass: usize = 0;
    while pass < 2
        invariant
            pass <= 2,
            allv == texts(all@),
            allv == path_views(paths@),
            names@.len() == all@.len(),
            forall|t: int|
                0 <= t < all@.len() ==> (#[trigger] names@[t])@ == generated_name(
                    allv,
                    config.base_paths_view(),
                    config.separator_view(),
                    t,
                ),
            m == projects@,
            pass == 0 ==> rows@.len() == 0,
            pass >= 1 ==> rows@.len() >= pin_group(m, allv, true, allv.len()).len(),
            pass >= 1 ==> forall|q: int|
                0 <= q < pin_group(m, allv, true, allv.len()).len() ==> is_directory_row(
                    #[trigger] rows@[q],
                    allv[pin_group(m, allv, true, allv.len())[q]],
                    generated_name(
                        allv,
                        config.base_paths_view(),
                        config.separator_view(),
                        pin_group(m, allv, true, allv.len())[q],
                    ),
                    true,
                ),
            pass == 1 ==> rows@.len() == pin_group(m, allv, true, allv.len()).len(),
            pass == 2 ==> rows@.len() == pin_group(m, allv, true, allv.len()).len() + pin_group(
                m,
                allv,
                false,
                allv.len(),
            ).len(),
            pass == 2 ==> forall|q: int|
                0 <= q < pin_group(m, allv, false, allv.len()).len() ==> is_directory_row(
                    #[trigger] rows@[pin_group(m, allv, true, allv.len()).len() + q],
                    allv[pin_group(m, allv, false, allv.len())[q]],
                    generated_name(
                        allv,
                        config.base_paths_view(),
                        config.separator_view(),
                        pin_group(m, allv, false, allv.len())[q],
                    ),
                    false,
                ),
        decreases 2 - pass,
    {
        let want = pass == 0;
        let base = rows.len();
        let ghost rows_start = rows@;
        let mut t: usize = 0;
        while t < all.len()
            invariant
                t <= all.len(),
                allv == texts(all@),
                names@.len() == all@.len(),
                forall|u: int|
                    0 <= u < all@.len() ==> (#[trigger] names@[u])@ == generated_name(
                        allv,
                        config.base_paths_view(),
                        config.separator_view(),
                        u,
                    ),
                m == projects@,
                base == rows_start.len(),
                rows@.len() == base + pin_group(m, allv, want, t as nat).len(),
                forall|q: int| 0 <= q < base ==> #[trigger] rows@[q] == rows_start[q],
                forall|q: int|
                    0 <= q < pin_group(m, allv, want, t as nat).len() ==> is_directory_row(
                        #[trigger] rows@[base + q],
                        allv[pin_group(m, allv, want, t as nat)[q]],
                        generated_name(
                            allv,
                            config.base_paths_view(),
                            config.separator_view(),
                            pin_group(m, allv, want, t as nat)[q],
                        ),
                        want,
                    ),
            decreases all.len() - t,
        {
            let flag = projects.is_pinned(all[t].as_str());
            assert(allv[t as int] == all@[t as int]@);
            if flag == want {
                let ghost before = rows@;
                rows.push(
                    SessionItem::Directory {
                        path: all[t].clone(),
                        session_name: names[t].clone(),
                        pinned: flag,
                    },
                );
                assert forall|q: int| 0 <= q < base implies #[trigger] rows@[q] == rows_start[q] by {
                    assert(rows@[q] == before[q]);
                }
                assert forall|q: int|
                    0 <= q < pin_group(m, allv, want, (t + 1) as nat).len() implies is_directory_row(
                    #[trigger] rows@[base + q],
                    allv[pin_group(m, allv, want, (t + 1) as nat)[q]],
                    generated_name(
                        allv,
                        config.base_paths_view(),
                        config.separator_view(),
                        pin_group(m, allv, want, (t + 1) as nat)[q],
                    ),
                    want,
                ) by {
                    if q < pin_group(m, allv, want, t as nat).len() {
                        assert(rows@[base + q] == before[base + q]);
                    }
                }
            }
            t = t + 1;
        }
        proof {
            let pt = pin_group(m, allv, true, allv.len());
            if pass == 0 {
                assert forall|q: int| 0 <= q < pt.len() implies is_directory_row(
                    #[trigger] rows@[q],
                    allv[pt[q]],
                    generated_name(allv, config.base_paths_view(), config.separator_view(), pt[q]),
                    true,
                ) by {
                    assert(rows@[q] == rows@[base + q]);
                }
            } else {
                assert forall|q: int| 0 <= q < pt.len() implies is_directory_row(
                    #[trigger] rows@[q],
                    allv[pt[q]],
                    generated_name(allv, config.base_paths_view(), config.separator_view(), pt[q]),
                    true,
                ) by {
                    assert(rows@[q] == rows_start[q]);
                }
            }
        }
        pass = pass + 1;
    }
    proof {
        lemma_pin_groups_len(m, allv, allv.len());
        let order = pinned_first(m, allv);
        let pt = pin_group(m, allv, true, allv.len());
        let pf = pin_group(m, allv, false, allv.len());
        assert forall|q: int| 0 <= q < allv.len() implies is_directory_row(
            #[trigger] rows@[q],
            allv[order[q]],
            generated_name(allv, config.base_paths_view(), config.separator_view(), order[q]),
            pinned_in(m, allv[order[q]]),
        ) by {
            if q < pt.len() {
                assert(order[q] == pt[q]);
                lemma_pin_group_entries(m, allv, true, allv.len());
            } else {
                assert(order[q] == pf[q - pt.len()]);
                assert(rows@[q] == rows@[pt.len() + (q - pt.len())]);
                lemma_pin_group_entries(m, allv, false, allv.len());
            }
        }
    }
    rows
}

/// The entries of a pin group have that pin.
proof fn lemma_pin_group_entries(m: Map<Seq<char>, (u128, Seq<char>)>, paths: Seq<Seq<char>>, pinned: bool, n: nat)
    ensures
        forall|q: int|
            0 <= q < pin_group(m, paths, pinned, n).len() ==> 0 <= #[trigger] pin_group(m, paths, pinned, n)[q] < n
                && pinned_in(m, paths[pin_group(m, paths, pinned, n)[q]]) == pinned,
    decreases n,
{
    if n > 0 {
        lemma_pin_group_entries(m, paths, pinned, (n - 1) as nat);
        let rest = pin_group(m, paths, pinned, (n - 1) as nat);
        let all = pin_group(m, paths, pinned, n);
        assert forall|q: int| 0 <= q < all.len() implies 0 <= #[trigger] all[q] < n && pinned_in(
            m,
            paths[all[q]],
        ) == pinned by {
            if q < rest.len() {
                assert(all[q] == rest[q]);
            }
        }
    }
}


/// Every index below `n` whose path has the pin `pinned` is in that group.
proof fn lemma_pin_group_covers(m: Map<Seq<char>, (u128, Seq<char>)>, paths: Seq<Seq<char>>, pinned: bool, n: nat)
    ensures
        forall|i: int| 0 <= i < n && pinned_in(m, paths[i]) == pinned ==> #[trigger] pin_group(m, paths, pinned, n).contains(i),
    decreases n,
{
    if n > 0 {
        lemma_pin_group_covers(m, paths, pinned, (n - 1) as nat);
        let rest = pin_group(m, paths, pinned, (n - 1) as nat);
        let all = pin_group(m, paths, pinned, n);
        assert forall|i: int| 0 <= i < n && pinned_in(m, paths[i]) == pinned implies #[trigger] all.contains(i) by {
            if i < n - 1 {
                assert(rest.contains(i));
                let q = choose|q: int| 0 <= q < rest.len() && rest[q] == i;
                assert(all[q] == i);
            } else {
                assert(all[all.len() - 1] == i);
            }
        }
    }
}

/// The pins `missing_pins` keeps are the pins not listed.
proof fn lemma_missing_pins_members(pins: Seq<Seq<char>>, listed: Seq<Seq<char>>)
    ensures
        forall|p: Seq<char>|
            pins.contains(p) && !listed.contains(p) ==> #[trigger] missing_pins(pins, listed).contains(p),
    decreases pins.len(),
{
    if pins.len() > 0 {
        lemma_missing_pins_members(pins.drop_last(), listed);
        let rest = missing_pins(pins.drop_last(), listed);
        assert forall|p: Seq<char>| pins.contains(p) && !listed.contains(p) implies #[trigger] missing_pins(
            pins,
            listed,
        ).contains(p) by {
            let i = choose|i: int| 0 <= i < pins.len() && pins[i] == p;
            if i < pins.len() - 1 {
                assert(pins.drop_last()[i] == p);
                assert(rest.contains(p));
                let q = choose|q: int| 0 <= q < rest.len() && rest[q] == p;
                if !listed.contains(pins.last()) {
                    assert(rest.push(pins.last())[q] == p);
                }
            } else {
                assert(missing_pins(pins, listed) == rest.push(p));
                assert(rest.push(p)[rest.len() as int] == p);
            }
        }
    }
}

/// Every zoxide directory and every pinned path has a directory row: pins
/// outlive zoxide's memory.
pub proof fn lemma_pins_stay_listed(
    r: Seq<SessionItem>,
    zoxide: Seq<Seq<char>>,
    pinned: Seq<Seq<char>>,
    projects: Map<Seq<char>, (u128, Seq<char>)>,
    base_paths: Seq<Seq<char>>,
    separator: Seq<char>,
)
    requires
        directory_rows_spec(r, zoxide, pinned, projects, base_paths, separator),
    ensures
        forall|p: Seq<char>|
            zoxide.contains(p) || pinned.contains(p) ==> exists|k: int|
                0 <= k < r.len() && (#[trigger] r[k] matches SessionItem::Directory { path, .. } && path@ == p),
{
    let all = zoxide + missing_pins(pinned, zoxide);
    let n = all.len();
    let order = pinned_first(projects, all);
    lemma_missing_pins_members(pinned, zoxide);
    lemma_pin_groups_len(projects, all, n);
    lemma_pin_group_covers(projects, all, true, n);
    lemma_pin_group_covers(projects, all, false, n);
    assert forall|p: Seq<char>| zoxide.contains(p) || pinned.contains(p) implies exists|k: int|
        0 <= k < r.len() && (#[trigger] r[k] matches SessionItem::Directory { path, .. } && path@ == p) by {
        let i: int = if zoxide.contains(p) {
            let z = choose|z: int| 0 <= z < zoxide.len() && zoxide[z] == p;
            z
        } else {
            assert(missing_pins(pinned, zoxide).contains(p));
            let z = choose|z: int| 0 <= z < missing_pins(pinned, zoxide).len() && missing_pins(pinned, zoxide)[z] == p;
            zoxide.len() + z
        };
        assert(all[i] == p);
        let g = pinned_in(projects, all[i]);
        let group_t = pin_group(projects, all, true, n);
        let group_f = pin_group(projects, all, false, n);
        let k: int = if g {
            assert(group_t.contains(i));
            let q = choose|q: int| 0 <= q < group_t.len() && group_t[q] == i;
            assert(order[q] == i);
            q
        } else {
            assert(group_f.contains(i));
            let q = choose|q: int| 0 <= q < group_f.len() && group_f[q] == i;
            assert(order[group_t.len() + q] == i);
            group_t.len() + q
        };
        assert(0 <= k < r.len());
        assert(is_directory_row(r[k], all[order[k]], generated_name(all, base_paths, separator, order[k]), pinned_in(projects, all[order[k]])));
    }
}

/// The resurrectable sessions `unlisted` keeps have no live namesake.
proof fn lemma_unlisted_not_live(dead: Seq<(Seq<char>, (u64, u32))>, live: Seq<(Seq<char>, bool)>)
    ensures
        forall|j: int|
            0 <= j < unlisted(dead, live).len() ==> !live_names(live).contains(#[trigger] unlisted(dead, live)[j].0),
    decreases dead.len(),
{
    if dead.len() > 0 {
        lemma_unlisted_not_live(dead.drop_last(), live);
        let rest = unlisted(dead.drop_last(), live);
        assert forall|j: int| 0 <= j < unlisted(dead, live).len() implies !live_names(live).contains(
            #[trigger] unlisted(dead, live)[j].0,
        ) by {
            if j < rest.len() {
                assert(unlisted(dead, live)[j] == rest[j]);
            }
        }
    }
}

/// No resurrectable row repeats a live session: a live session listed by
/// both is shown once, as live.
pub proof fn lemma_no_dead_row_repeats_a_live_session(
    r: Seq<SessionItem>,
    live: Seq<(Seq<char>, bool)>,
    dead: Seq<(Seq<char>, (u64, u32))>,
    show: bool,
    projects: Map<Seq<char>, (u128, Seq<char>)>,
)
    requires
        session_rows_spec(r, live, dead, show, projects),
    ensures
        forall|j: int|
            live.len() <= j < r.len() ==> (#[trigger] r[j] matches SessionItem::ResurrectableSession { name, .. }
                && !live_names(live).contains(name@)),
{
    lemma_unlisted_not_live(dead, live);
    let shown = if show {
        unlisted(dead, live)
    } else {
        Seq::empty()
    };
    assert forall|j: int| live.len() <= j < r.len() implies (#[trigger] r[j] matches SessionItem::ResurrectableSession {
        name,
        ..
    } && !live_names(live).contains(name@)) by {
        let d = j - live.len();
        assert(is_dead_row(r[live.len() + d], shown[d].0, shown[d].1));
        assert(show);
        assert(!live_names(live).contains(unlisted(dead, live)[d].0));
    }
}

/// Where an item goes in a sorted list is within it.
proof fn lemma_visit_point_bound(m: Map<Seq<char>, u128>, sorted: Seq<SessionItem>, x: SessionItem)
    ensures
        visit_point(m, sorted, x) <= sorted.len(),
    decreases sorted.len(),
{
    if sorted.len() > 0 {
        lemma_visit_point_bound(m, sorted.drop_first(), x);
    }
}

/// Ordering by last visit keeps the rows: as many, and each one of them.
pub proof fn lemma_visit_sorted_keeps_rows(m: Map<Seq<char>, u128>, items: Seq<SessionItem>)
    ensures
        visit_sorted(m, items).len() == items.len(),
        forall|i: int| 0 <= i < items.len() ==> exists|j: int| 0 <= j < items.len() && #[trigger] visit_sorted(m, items)[i] == items[j],
    decreases items.len(),
{
    if items.len() > 0 {
        let head = items.drop_last();
        lemma_visit_sorted_keeps_rows(m, head);
        let sorted = visit_sorted(m, head);
        let p = visit_point(m, sorted, items.last());
        lemma_visit_point_bound(m, sorted, items.last());
        let out = visit_sorted(m, items);
        assert(out == sorted.insert(p as int, items.last()));
        assert forall|i: int| 0 <= i < items.len() implies exists|j: int| 0 <= j < items.len() && #[trigger] out[i] == items[j] by {
            if i < p {
                assert(out[i] == sorted[i]);
                let j = choose|j: int| 0 <= j < head.len() && sorted[i] == head[j];
                assert(items[j] == head[j]);
            } else if i == p {
                assert(out[i] == items[items.len() - 1]);
            } else {
                assert(out[i] == sorted[i - 1]);
                let j = choose|j: int| 0 <= j < head.len() && sorted[i - 1] == head[j];
                assert(items[j] == head[j]);
            }
        }
    }
}

} // verus!
