//! What holds of the launcher over several inputs.

use vstd::prelude::*;

use crate::launcher::apps::AppEntryView;
use crate::launcher::pins::{
    lemma_empty_end, names_of, pin_name, pins_of, without_empty_end, MAX_PINNED,
};
use crate::launcher::state::{
    app_pinned, dropped_on_grid, dropped_on_slot, exchanged, filtered_by, free_slot, hovered, initial,
    is_shown, last_pinned, launched, law_grid_shows_the_matches, lemma_exchanged_contains,
    lemma_shown_wf, moved_down, moved_left, moved_right, moved_up, next_pinned, pin_moved_left,
    pin_moved_right, pinned_selected, pins_differ, pins_reordered, shown, slot_activated, slot_of,
    unpinned_selected, LauncherView, Selection, COLUMNS,
};
use crate::search::{first_where, lemma_first_from, lemma_is_first, lemma_none_first};
use crate::text::{holds, occurs_at};

verus! {

proof fn lemma_next_pinned(pinned: Seq<Option<usize>>, from: int)
    requires
        0 <= from,
    ensures
        match next_pinned(pinned, from) {
            Some(k) => from <= k < pinned.len() && pinned[k] is Some,
            None => forall|j: int| from <= j < pinned.len() ==> #[trigger] pinned[j] is None,
        },
{
    let p = |p: Option<usize>| p is Some;
    lemma_first_from(pinned, p, from);
    if next_pinned(pinned, from) is None {
        assert forall|j: int| from <= j < pinned.len() implies #[trigger] pinned[j] is None by {
            assert(!p(pinned[j]));
        }
    }
}

proof fn lemma_last_pinned(pinned: Seq<Option<usize>>, n: int)
    requires
        n <= pinned.len(),
    ensures
        match last_pinned(pinned, n) {
            Some(k) => 0 <= k < n && pinned[k] is Some,
            None => forall|j: int| 0 <= j < n ==> #[trigger] pinned[j] is None,
        },
    decreases n,
{
    if n > 0 && pinned[n - 1] is None {
        lemma_last_pinned(pinned, n - 1);
    }
}

/// Moving the selection changes nothing else, and neither saves nor starts anything.
pub proof fn law_moving_only_selects(v: LauncherView)
    ensures
        moved_up(v).0 == v.with_selected(moved_up(v).0.selected),
        moved_down(v).0 == v.with_selected(moved_down(v).0.selected),
        moved_left(v).0 == v.with_selected(moved_left(v).0.selected),
        moved_right(v).0 == v.with_selected(moved_right(v).0.selected),
        moved_up(v).1.save is None && moved_up(v).1.command is None,
        moved_down(v).1.save is None && moved_down(v).1.command is None,
        moved_left(v).1.save is None && moved_left(v).1.command is None,
        moved_right(v).1.save is None && moved_right(v).1.command is None,
{
}

/// The selection does not leave the applications: where one is selected, one is selected after any
/// move.
pub proof fn law_moving_keeps_a_choice(v: LauncherView)
    requires
        v.wf(),
        v.selected_app() is Some,
    ensures
        moved_up(v).0.selected_app() is Some,
        moved_down(v).0.selected_app() is Some,
        moved_left(v).0.selected_app() is Some,
        moved_right(v).0.selected_app() is Some,
{
    match v.selected {
        Selection::Grid(i) => {
            if i < COLUMNS {
                lemma_last_pinned(v.pinned, i + 1);
                lemma_next_pinned(v.pinned, i + 1);
            }
            lemma_last_pinned(v.pinned, MAX_PINNED as int);
        },
        Selection::Pinned(i) => {
            lemma_last_pinned(v.pinned, i as int);
            lemma_next_pinned(v.pinned, i + 1);
        },
    }
}

/// Going up after going down in the grid leads back.
pub proof fn law_moving_back_in_the_grid(v: LauncherView, i: usize)
    requires
        v.selected == Selection::Grid(i),
        v.filtered.len() <= usize::MAX,
    ensures
        i + COLUMNS < v.filtered.len() ==> moved_up(moved_down(v).0).0 == v,
{
}

proof fn lemma_is_next_pinned(pinned: Seq<Option<usize>>, from: int, k: int)
    requires
        0 <= from <= k < pinned.len(),
        pinned[k] is Some,
        forall|j: int| from <= j < k ==> #[trigger] pinned[j] is None,
    ensures
        next_pinned(pinned, from) == Some(k),
{
    let p = |p: Option<usize>| p is Some;
    assert forall|j: int| from <= j < k implies !p(#[trigger] pinned[j]) by {}
    lemma_is_first(pinned, p, from, k);
}

proof fn lemma_no_next_pinned(pinned: Seq<Option<usize>>, from: int)
    requires
        0 <= from,
        forall|j: int| from <= j < pinned.len() ==> #[trigger] pinned[j] is None,
    ensures
        next_pinned(pinned, from) is None,
{
    let p = |p: Option<usize>| p is Some;
    assert forall|j: int| from <= j < pinned.len() implies !p(#[trigger] pinned[j]) by {}
    lemma_none_first(pinned, p, from);
}

proof fn lemma_is_last_pinned(pinned: Seq<Option<usize>>, n: int, k: int)
    requires
        0 <= k < n <= pinned.len(),
        pinned[k] is Some,
        forall|j: int| k < j < n ==> #[trigger] pinned[j] is None,
    ensures
        last_pinned(pinned, n) == Some(k),
    decreases n,
{
    if k < n - 1 {
        assert(pinned[n - 1] is None);
        lemma_is_last_pinned(pinned, n - 1, k);
    }
}

proof fn lemma_next_is_nearest(pinned: Seq<Option<usize>>, from: int)
    requires
        0 <= from,
    ensures
        next_pinned(pinned, from) matches Some(k) ==> forall|j: int|
            from <= j < k ==> #[trigger] pinned[j] is None,
{
    let p = |p: Option<usize>| p is Some;
    lemma_first_from(pinned, p, from);
    if let Some(k) = next_pinned(pinned, from) {
        assert forall|j: int| from <= j < k implies #[trigger] pinned[j] is None by {
            assert(!p(pinned[j]));
        }
    }
}

proof fn lemma_last_is_nearest(pinned: Seq<Option<usize>>, n: int)
    requires
        n <= pinned.len(),
    ensures
        last_pinned(pinned, n) matches Some(k) ==> forall|j: int|
            k < j < n ==> #[trigger] pinned[j] is None,
    decreases n,
{
    if n > 0 && pinned[n - 1] is None {
        lemma_last_is_nearest(pinned, n - 1);
    }
}

/// Going left after right, and right after left, leads back from every application, in the grid, in
/// the pinned row and between the two, wherever the first step leads anywhere.
pub proof fn law_left_and_right_undo_each_other(v: LauncherView)
    requires
        v.wf(),
        v.filtered.len() <= usize::MAX,
        v.selected_app() is Some,
    ensures
        moved_right(v).0.selected != v.selected ==> moved_left(moved_right(v).0).0 == v,
        moved_left(v).0.selected != v.selected ==> moved_right(moved_left(v).0).0 == v,
{
    let pinned = v.pinned;
    match v.selected {
        Selection::Pinned(p) => {
            lemma_next_pinned(pinned, p + 1);
            lemma_next_is_nearest(pinned, p + 1);
            match next_pinned(pinned, p + 1) {
                Some(k) => {
                    lemma_is_last_pinned(pinned, k, p as int);
                },
                None => {
                    lemma_is_last_pinned(pinned, MAX_PINNED as int, p as int);
                },
            }
            lemma_last_pinned(pinned, p as int);
            lemma_last_is_nearest(pinned, p as int);
            if let Some(k) = last_pinned(pinned, p as int) {
                lemma_is_next_pinned(pinned, k + 1, p as int);
            }
        },
        Selection::Grid(i) => {
            if i == 0 {
                lemma_last_pinned(pinned, MAX_PINNED as int);
                lemma_last_is_nearest(pinned, MAX_PINNED as int);
                if let Some(k) = last_pinned(pinned, MAX_PINNED as int) {
                    lemma_no_next_pinned(pinned, k + 1);
                }
            }
        },
    }
}

/// Going up after going down from a pinned application leads back, where the grid reaches below it.
pub proof fn law_up_undoes_down_from_the_row(v: LauncherView, slot: usize)
    requires
        v.wf(),
        v.selected == Selection::Pinned(slot),
        v.pinned[slot as int] is Some,
        slot < v.filtered.len(),
    ensures
        moved_up(moved_down(v).0).0 == v,
{
    lemma_is_last_pinned(v.pinned, slot + 1, slot as int);
}

/// Moving a pinned application to one side and back restores the slots and the selection.
pub proof fn law_moving_a_pin_back(v: LauncherView, slot: usize)
    requires
        v.wf(),
        v.selected == Selection::Pinned(slot),
        v.pinned[slot as int] is Some,
    ensures
        slot > 0 ==> pin_moved_right(pin_moved_left(v).0).0 == v,
        slot + 1 < MAX_PINNED ==> pin_moved_left(pin_moved_right(v).0).0 == v,
{
    if slot > 0 {
        let w = pin_moved_left(v).0;
        assert(exchanged(w.pinned, slot - 1, slot as int) =~= v.pinned);
    }
    if slot + 1 < MAX_PINNED {
        let w = pin_moved_right(v).0;
        assert(exchanged(w.pinned, slot + 1, slot as int) =~= v.pinned);
    }
}

proof fn lemma_exchange_differs(pinned: Seq<Option<usize>>, a: int, b: int)
    requires
        pins_differ(pinned),
        0 <= a < pinned.len(),
        0 <= b < pinned.len(),
    ensures
        pins_differ(exchanged(pinned, a, b)),
{
    let after = exchanged(pinned, a, b);
    assert forall|i: int, j: int| 0 <= i < j < after.len() && #[trigger] after[i] is Some implies after[i]
        != #[trigger] after[j] by {
        let x = if i == a { b } else if i == b { a } else { i };
        let y = if j == a { b } else if j == b { a } else { j };
        assert(after[i] == pinned[x] && after[j] == pinned[y]);
        assert(x != y);
        if x < y {
            assert(pinned[x] != pinned[y]);
        } else if pinned[y] is Some {
            assert(pinned[y] != pinned[x]);
        }
    }
}

proof fn lemma_clear_differs(pinned: Seq<Option<usize>>, slot: int)
    requires
        pins_differ(pinned),
        0 <= slot < pinned.len(),
    ensures
        pins_differ(pinned.update(slot, None)),
{
    let after = pinned.update(slot, None);
    assert forall|i: int, j: int| 0 <= i < j < after.len() && #[trigger] after[i] is Some implies after[i]
        != #[trigger] after[j] by {
        assert(after[i] == pinned[i]);
        if j != slot {
            assert(pinned[i] != pinned[j]);
        }
    }
}

proof fn lemma_set_differs(pinned: Seq<Option<usize>>, slot: int, app: usize)
    requires
        pins_differ(pinned),
        !pinned.contains(Some(app)),
        0 <= slot < pinned.len(),
    ensures
        pins_differ(pinned.update(slot, Some(app))),
{
    let after = pinned.update(slot, Some(app));
    assert forall|i: int, j: int| 0 <= i < j < after.len() && #[trigger] after[i] is Some implies after[i]
        != #[trigger] after[j] by {
        if i == slot {
            assert(pinned[j] != Some(app));
        } else if j == slot {
            assert(pinned[i] != Some(app));
        } else {
            assert(pinned[i] != pinned[j]);
        }
    }
}

proof fn lemma_slot_of(pinned: Seq<Option<usize>>, app: usize)
    ensures
        slot_of(pinned, app) matches Some(k) ==> 0 <= k < pinned.len(),
{
    lemma_first_from(pinned, |p: Option<usize>| p == Some(app), 0);
}

/// No input pins an application twice: where the pinned applications differ, they differ after it.
pub proof fn law_pins_stay_distinct(v: LauncherView, app: usize, slot: usize, query: Seq<char>)
    requires
        v.wf(),
        pins_differ(v.pinned),
        app < v.apps.len(),
        slot < MAX_PINNED,
    ensures
        pins_differ(pin_moved_left(v).0.pinned),
        pins_differ(pin_moved_right(v).0.pinned),
        pins_differ(pinned_selected(v, query).0.pinned),
        pins_differ(unpinned_selected(v, query).0.pinned),
        pins_differ(app_pinned(v, app, slot, query).0.pinned),
        pins_differ(pins_reordered(v, app, slot).0.pinned),
        pins_differ(dropped_on_slot(v, app, slot, query).0.pinned),
        pins_differ(dropped_on_grid(v, app, query).0.pinned),
{
    match v.selected {
        Selection::Pinned(s) => {
            if s > 0 {
                lemma_exchange_differs(v.pinned, s as int, s - 1);
            }
            if s + 1 < MAX_PINNED {
                lemma_exchange_differs(v.pinned, s as int, s + 1);
            }
            lemma_clear_differs(v.pinned, s as int);
        },
        Selection::Grid(place) => {
            if place < v.filtered.len() && free_slot(v.pinned) is Some {
                lemma_first_from(v.pinned, |p: Option<usize>| p is None, 0);
                lemma_set_differs(v.pinned, free_slot(v.pinned)->0, v.filtered[place as int]);
            }
        },
    }
    if !v.pinned.contains(Some(app)) {
        lemma_set_differs(v.pinned, slot as int, app);
    }
    lemma_slot_of(v.pinned, app);
    if let Some(k) = slot_of(v.pinned, app) {
        lemma_exchange_differs(v.pinned, k, slot as int);
        lemma_clear_differs(v.pinned, k);
    }
}

/// Unpinning an application right after pinning it restores the slots, the grid and the selection.
pub proof fn law_unpinning_undoes_pinning(v: LauncherView, place: usize, query: Seq<char>)
    requires
        v.wf(),
        v.selected == Selection::Grid(place),
        place < v.filtered.len(),
        v.filtered == shown(v.apps, v.pinned, query),
        free_slot(v.pinned) is Some,
    ensures
        unpinned_selected(pinned_selected(v, query).0, query).0 == v,
{
    let app = v.filtered[place as int];
    let p = |p: Option<usize>| p is None;
    lemma_first_from(v.pinned, p, 0);
    let slot = free_slot(v.pinned)->0;
    let w = pinned_selected(v, query).0;
    assert(w.pinned == v.pinned.update(slot, Some(app)));
    assert(w.selected == Selection::Pinned(slot as usize));
    assert(w.selected_app() == Some(app));
    assert(w.pinned.update(slot, None) =~= v.pinned);
    let q = |i: usize| i == app;
    assert forall|j: int| 0 <= j < place implies !q(#[trigger] v.filtered[j]) by {
        assert(v.filtered[j] < v.filtered[place as int]);
    }
    lemma_is_first(v.filtered, q, 0, place as int);
}

/// An application that is pinned leaves the grid, and one that is dropped on the grid comes back to
/// it where its name holds the query.
pub proof fn law_pinning_moves_between_row_and_grid(
    v: LauncherView,
    app: usize,
    slot: usize,
    query: Seq<char>,
)
    requires
        v.wf(),
        pins_differ(v.pinned),
        app < v.apps.len(),
        slot < MAX_PINNED,
        is_shown(v.apps, Seq::empty(), query, app as int),
    ensures
        !v.pinned.contains(Some(app)) ==> {
            let w = app_pinned(v, app, slot, query).0;
            &&& w.pinned.contains(Some(app))
            &&& !w.filtered.contains(app)
        },
        v.pinned.contains(Some(app)) ==> {
            let w = dropped_on_grid(v, app, query).0;
            &&& !w.pinned.contains(Some(app))
            &&& w.filtered.contains(app)
        },
{
    if !v.pinned.contains(Some(app)) {
        let w = app_pinned(v, app, slot, query).0;
        assert(w.pinned[slot as int] == Some(app));
        law_grid_shows_the_matches(w.apps, w.pinned, query, app);
    } else {
        let p = |p: Option<usize>| p == Some(app);
        lemma_first_from(v.pinned, p, 0);
        let i = choose|i: int| 0 <= i < v.pinned.len() && v.pinned[i] == Some(app);
        assert(p(v.pinned[i]));
        let k = slot_of(v.pinned, app)->0;
        let w = dropped_on_grid(v, app, query).0;
        assert(w.pinned == v.pinned.update(k, None));
        assert forall|j: int| 0 <= j < w.pinned.len() implies #[trigger] w.pinned[j] != Some(app) by {
            if j != k {
                assert(w.pinned[j] == v.pinned[j]);
                if j < k {
                    assert(!p(v.pinned[j]));
                } else {
                    assert(v.pinned[k] is Some);
                    assert(v.pinned[k] != v.pinned[j]);
                }
            }
        }
        law_grid_shows_the_matches(w.apps, w.pinned, query, app);
    }
}

// ---------------------------------------------------------------------------
// What the grid shows
// ---------------------------------------------------------------------------

/// The search finds what holds the query in one piece: an application is in the grid exactly if no
/// slot holds it and its name in lower case has the query, letter after letter, at some position. An
/// empty query finds every application.
pub proof fn law_search_finds_the_query_in_one_piece(
    apps: Seq<AppEntryView>,
    pinned: Seq<Option<usize>>,
    query: Seq<char>,
    i: usize,
)
    requires
        apps.len() <= usize::MAX,
        i < apps.len(),
    ensures
        shown(apps, pinned, query).contains(i) <==> {
            let name = apps[i as int].name_lowercase;
            &&& forall|s: int| 0 <= s < pinned.len() ==> #[trigger] pinned[s] != Some(i)
            &&& query.len() == 0 || exists|p: int|
                0 <= p <= name.len() - query.len() && #[trigger] name.subrange(p, p + query.len())
                    == query
        },
{
    law_grid_shows_the_matches(apps, pinned, query, i);
    let name = apps[i as int].name_lowercase;
    if holds(name, query) {
        let p = choose|p: int| occurs_at(name, query, p);
        assert(name.subrange(p, p + query.len()) == query);
    }
    if exists|p: int|
        0 <= p <= name.len() - query.len() && #[trigger] name.subrange(p, p + query.len()) == query {
        let p = choose|p: int|
            0 <= p <= name.len() - query.len() && #[trigger] name.subrange(p, p + query.len())
                == query;
        assert(occurs_at(name, query, p));
    }
}

/// The grid keeps the order of the list and shows nothing else.
pub proof fn law_grid_keeps_the_order(
    apps: Seq<AppEntryView>,
    pinned: Seq<Option<usize>>,
    query: Seq<char>,
    j: int,
    k: int,
)
    requires
        apps.len() <= usize::MAX,
        0 <= j < k < shown(apps, pinned, query).len(),
    ensures
        shown(apps, pinned, query)[j] < shown(apps, pinned, query)[k] < apps.len(),
{
    lemma_shown_wf(apps, pinned, query);
}

/// A longer query finds no more: what holds a text holds each piece of it.
pub proof fn law_longer_query_finds_no_more(
    apps: Seq<AppEntryView>,
    pinned: Seq<Option<usize>>,
    query: Seq<char>,
    before: Seq<char>,
    after: Seq<char>,
    i: usize,
)
    requires
        apps.len() <= usize::MAX,
        i < apps.len(),
        shown(apps, pinned, before + query + after).contains(i),
    ensures
        shown(apps, pinned, query).contains(i),
{
    let long = before + query + after;
    let name = apps[i as int].name_lowercase;
    law_grid_shows_the_matches(apps, pinned, long, i);
    law_grid_shows_the_matches(apps, pinned, query, i);
    if query.len() > 0 {
        let p = choose|p: int| occurs_at(name, long, p);
        let q = p + before.len();
        assert(name.subrange(q, q + query.len()) =~= query) by {
            assert forall|x: int| 0 <= x < query.len() implies name.subrange(q, q + query.len())[x]
                == query[x] by {
                assert(name.subrange(p, p + long.len())[before.len() + x] == long[before.len() + x]);
            }
        }
        assert(occurs_at(name, query, q));
    }
}

// ---------------------------------------------------------------------------
// What each input does
// ---------------------------------------------------------------------------

/// A launcher starts with the first pinned application selected, or without any with the first place
/// of the grid, and shows every application that is not pinned.
pub proof fn law_start(apps: Seq<AppEntryView>, pinned: Seq<Option<usize>>, i: usize)
    requires
        apps.len() <= usize::MAX,
        pinned.len() == 8,
        i < apps.len(),
    ensures
        initial(apps, pinned).apps == apps,
        initial(apps, pinned).pinned == pinned,
        initial(apps, pinned).filtered.contains(i) <==> forall|s: int|
            0 <= s < 8 ==> #[trigger] pinned[s] != Some(i),
        match initial(apps, pinned).selected {
            Selection::Pinned(slot) => slot < 8 && pinned[slot as int] is Some && forall|s: int|
                0 <= s < slot ==> #[trigger] pinned[s] is None,
            Selection::Grid(place) => place == 0 && forall|s: int|
                0 <= s < 8 ==> #[trigger] pinned[s] is None,
        },
{
    law_search_finds_the_query_in_one_piece(apps, pinned, Seq::empty(), i);
    lemma_next_pinned(pinned, 0);
    lemma_next_is_nearest(pinned, 0);
}

/// A query shows what it finds from the start of the grid; without one the selection goes back to the
/// first pinned application, where there is one. Nothing is saved or started.
pub proof fn law_filtering(v: LauncherView, query: Seq<char>, i: usize)
    requires
        v.wf(),
        i < v.apps.len(),
    ensures
        ({
            let (w, outcome) = filtered_by(v, query);
            let name = v.apps[i as int].name_lowercase;
            &&& w.apps == v.apps && w.pinned == v.pinned
            &&& w.filtered.contains(i) <==> {
                &&& forall|s: int| 0 <= s < 8 ==> #[trigger] v.pinned[s] != Some(i)
                &&& query.len() == 0 || exists|p: int|
                    0 <= p <= name.len() - query.len() && #[trigger] name.subrange(
                        p,
                        p + query.len(),
                    ) == query
            }
            &&& outcome.notify && !outcome.quit && outcome.save is None && outcome.command is None
            &&& query.len() > 0 ==> w.selected == Selection::Grid(0) && outcome.scroll_to == Some(
                0usize,
            )
            &&& query.len() == 0 ==> match w.selected {
                Selection::Pinned(slot) => slot < 8 && v.pinned[slot as int] is Some && forall|s: int|
                    0 <= s < slot ==> #[trigger] v.pinned[s] is None,
                Selection::Grid(place) => place == 0 && outcome.scroll_to == Some(0usize) && forall|s: int|
                    0 <= s < 8 ==> #[trigger] v.pinned[s] is None,
            }
        }),
{
    law_search_finds_the_query_in_one_piece(v.apps, v.pinned, query, i);
    lemma_next_pinned(v.pinned, 0);
    lemma_next_is_nearest(v.pinned, 0);
}

/// Going up in the grid keeps the column and goes one row up, and the grid scrolls to that row. From
/// the first row it goes to the nearest pinned application at or before the column, or else to the
/// nearest after it, and stays where none is pinned.
pub proof fn law_going_up(v: LauncherView, i: usize)
    requires
        v.wf(),
        v.selected == Selection::Grid(i),
    ensures
        ({
            let (w, outcome) = moved_up(v);
            &&& outcome.notify && !outcome.quit
            &&& i >= 8 ==> (w.selected matches Selection::Grid(j) && j % 8 == i % 8 && j / 8 == i / 8
                - 1 && outcome.scroll_to == Some((j / 8) as usize))
            &&& i < 8 ==> outcome.scroll_to is None && match w.selected {
                Selection::Pinned(s) => {
                    &&& s < 8 && v.pinned[s as int] is Some
                    &&& s <= i ==> forall|t: int| s < t <= i ==> #[trigger] v.pinned[t] is None
                    &&& s > i ==> forall|t: int| 0 <= t < s ==> #[trigger] v.pinned[t] is None
                },
                Selection::Grid(j) => j == i && forall|t: int|
                    0 <= t < 8 ==> #[trigger] v.pinned[t] is None,
            }
        }),
{
    if i < 8 {
        lemma_last_pinned(v.pinned, i + 1);
        lemma_last_is_nearest(v.pinned, i + 1);
        lemma_next_pinned(v.pinned, i + 1);
        lemma_next_is_nearest(v.pinned, i + 1);
    }
}

/// Going down in the grid keeps the column and goes one row down, where that place is taken; from the
/// row of pins it goes to the place below, or to the last one. The grid scrolls to the row.
pub proof fn law_going_down(v: LauncherView)
    requires
        v.wf(),
        v.filtered.len() <= usize::MAX,
    ensures
        ({
            let (w, outcome) = moved_down(v);
            let n = v.filtered.len();
            &&& outcome.notify && !outcome.quit
            &&& match v.selected {
                Selection::Grid(i) => if i + 8 < n {
                    w.selected matches Selection::Grid(j) && j % 8 == i % 8 && j / 8 == i / 8 + 1
                        && outcome.scroll_to == Some((j / 8) as usize)
                } else {
                    w.selected == v.selected && outcome.scroll_to is None
                },
                Selection::Pinned(s) => if n == 0 {
                    w.selected == v.selected && outcome.scroll_to is None
                } else {
                    w.selected matches Selection::Grid(j) && j < n && (s < n ==> j == s) && (s >= n
                        ==> j == n - 1) && outcome.scroll_to == Some((j / 8) as usize)
                },
            }
        }),
{
}

/// Going left goes one place back in the grid and to the nearest pinned application before; from the
/// first place it goes to the last pinned application.
pub proof fn law_going_left(v: LauncherView)
    requires
        v.wf(),
    ensures
        ({
            let (w, outcome) = moved_left(v);
            &&& outcome.notify && !outcome.quit
            &&& match v.selected {
                Selection::Grid(i) => if i > 0 {
                    w.selected == Selection::Grid((i - 1) as usize) && outcome.scroll_to == Some(
                        ((i - 1) / 8) as usize,
                    )
                } else {
                    match w.selected {
                        Selection::Pinned(s) => s < 8 && v.pinned[s as int] is Some && forall|t: int|
                            s < t < 8 ==> #[trigger] v.pinned[t] is None,
                        Selection::Grid(j) => j == 0 && forall|t: int|
                            0 <= t < 8 ==> #[trigger] v.pinned[t] is None,
                    }
                },
                Selection::Pinned(s) => match w.selected {
                    Selection::Pinned(r) => if r == s {
                        forall|t: int| 0 <= t < s ==> #[trigger] v.pinned[t] is None
                    } else {
                        r < s && v.pinned[r as int] is Some && forall|t: int|
                            r < t < s ==> #[trigger] v.pinned[t] is None
                    },
                    Selection::Grid(_) => false,
                },
            }
        }),
{
    match v.selected {
        Selection::Grid(_) => {
            lemma_last_pinned(v.pinned, 8);
            lemma_last_is_nearest(v.pinned, 8);
        },
        Selection::Pinned(s) => {
            lemma_last_pinned(v.pinned, s as int);
            lemma_last_is_nearest(v.pinned, s as int);
        },
    }
}

/// Going right goes one place on in the grid and to the nearest pinned application after; from the
/// last pinned application it goes to the first place of the grid.
pub proof fn law_going_right(v: LauncherView)
    requires
        v.wf(),
        v.filtered.len() <= usize::MAX,
    ensures
        ({
            let (w, outcome) = moved_right(v);
            let n = v.filtered.len();
            &&& outcome.notify && !outcome.quit
            &&& match v.selected {
                Selection::Grid(i) => if i + 1 < n {
                    w.selected == Selection::Grid((i + 1) as usize) && outcome.scroll_to == Some(
                        ((i + 1) / 8) as usize,
                    )
                } else {
                    w.selected == v.selected
                },
                Selection::Pinned(s) => match w.selected {
                    Selection::Pinned(r) => if r == s {
                        n == 0 && forall|t: int| s < t < 8 ==> #[trigger] v.pinned[t] is None
                    } else {
                        s < r < 8 && v.pinned[r as int] is Some && forall|t: int|
                            s < t < r ==> #[trigger] v.pinned[t] is None
                    },
                    Selection::Grid(j) => {
                        &&& j == 0 && n > 0 && outcome.scroll_to == Some(0usize)
                        &&& forall|t: int| s < t < 8 ==> #[trigger] v.pinned[t] is None
                    },
                },
            }
        }),
{
    if let Selection::Pinned(s) = v.selected {
        lemma_next_pinned(v.pinned, s + 1);
        lemma_next_is_nearest(v.pinned, s + 1);
    }
}

/// Starting runs the command of the application that is selected and closes the launcher; where none
/// is selected nothing happens.
pub proof fn law_launching(v: LauncherView)
    requires
        v.wf(),
    ensures
        ({
            let outcome = launched(v);
            let app = match v.selected {
                Selection::Pinned(s) => v.pinned[s as int],
                Selection::Grid(i) => if i < v.filtered.len() {
                    Some(v.filtered[i as int])
                } else {
                    None
                },
            };
            &&& outcome.quit == (app is Some)
            &&& outcome.command == (match app {
                Some(a) => Some(v.apps[a as int].command),
                None => None,
            })
            &&& outcome.save is None && !outcome.notify && outcome.scroll_to is None
        }),
{
}

/// Calling on a slot selects its application, and calling on it again starts it; an empty slot does
/// nothing.
pub proof fn law_calling_on_a_slot(v: LauncherView, slot: usize)
    requires
        v.wf(),
        slot < 8,
        v.selected != Selection::Pinned(slot),
    ensures
        ({
            let (w, first) = slot_activated(v, slot);
            let (u, second) = slot_activated(w, slot);
            match v.pinned[slot as int] {
                Some(app) => {
                    &&& w.selected == Selection::Pinned(slot) && first.command is None && first.notify
                        && !first.quit
                    &&& u == w && second.command == Some(v.apps[app as int].command) && second.quit
                    &&& w.pinned == v.pinned && w.filtered == v.filtered && w.apps == v.apps
                },
                None => w == v && first.command is None && !first.quit && !first.notify,
            }
        }),
{
}

/// The pointer selects what it is over.
pub proof fn law_hovering(v: LauncherView, over: Selection)
    ensures
        hovered(v, over).0.selected == over,
        hovered(v, over).0.pinned == v.pinned,
        hovered(v, over).0.filtered == v.filtered,
        hovered(v, over).0.apps == v.apps,
        hovered(v, over).1.notify == (v.selected != over),
        hovered(v, over).1.command is None && hovered(v, over).1.save is None && !hovered(
            v,
            over,
        ).1.quit,
{
}

// ---------------------------------------------------------------------------
// Pins
// ---------------------------------------------------------------------------

/// What is saved is the row: each saved slot has the name of the application in it, no slot after the
/// last saved one holds any, and the last saved one does.
pub proof fn law_saved_names_are_the_row(apps: Seq<AppEntryView>, pinned: Seq<Option<usize>>)
    ensures
        names_of(apps, pinned).len() <= pinned.len(),
        forall|s: int|
            0 <= s < names_of(apps, pinned).len() ==> #[trigger] names_of(apps, pinned)[s] == (
            match pinned[s] {
                Some(app) => if app < apps.len() {
                    Some(apps[app as int].name)
                } else {
                    None
                },
                None => None,
            }),
        forall|s: int|
            names_of(apps, pinned).len() <= s < pinned.len() ==> (#[trigger] pinned[s] is None
                || pinned[s]->0 >= apps.len()),
        names_of(apps, pinned).len() > 0 ==> names_of(apps, pinned).last() is Some,
{
    let slots = Seq::new(pinned.len(), |i: int| pin_name(apps, pinned[i]));
    lemma_empty_end(slots);
    lemma_full_end(slots);
    let names = names_of(apps, pinned);
    assert forall|s: int| 0 <= s < names.len() implies #[trigger] names[s] == (match pinned[s] {
        Some(app) => if app < apps.len() {
            Some(apps[app as int].name)
        } else {
            None
        },
        None => None,
    }) by {
        assert(names[s] == slots[s]);
    }
    assert forall|s: int| names.len() <= s < pinned.len() implies (#[trigger] pinned[s] is None
        || pinned[s]->0 >= apps.len()) by {
        assert(slots[s] is None);
    }
}

proof fn lemma_full_end(slots: Seq<Option<Seq<char>>>)
    ensures
        without_empty_end(slots).len() > 0 ==> without_empty_end(slots).last() is Some,
    decreases slots.len(),
{
    if slots.len() > 0 && slots.last() is None {
        lemma_full_end(slots.drop_last());
    }
}

/// A slot is loaded with the first application of the name that was saved for it, and stays empty
/// where no application has the name or none was saved.
pub proof fn law_loaded_row_has_the_names(
    apps: Seq<AppEntryView>,
    names: Seq<Option<Seq<char>>>,
    slot: int,
)
    requires
        apps.len() <= usize::MAX,
        0 <= slot < 8,
    ensures
        pins_of(apps, names).len() == 8,
        match pins_of(apps, names)[slot] {
            Some(app) => {
                &&& slot < names.len()
                &&& app < apps.len()
                &&& names[slot] == Some(apps[app as int].name)
                &&& forall|j: int| 0 <= j < app ==> (#[trigger] apps[j]).name != apps[app as int].name
            },
            None => slot < names.len() && names[slot] is Some ==> forall|j: int|
                0 <= j < apps.len() ==> (#[trigger] apps[j]).name != names[slot]->0,
        },
{
    if slot < names.len() && names[slot] is Some {
        let name = names[slot]->0;
        let p = |a: AppEntryView| a.name == name;
        lemma_first_from(apps, p, 0);
        match first_where(apps, p) {
            Some(k) => {
                assert(p(apps[k]));
                assert forall|j: int| 0 <= j < k implies (#[trigger] apps[j]).name != name by {
                    assert(!p(apps[j]));
                }
            },
            None => {
                assert forall|j: int| 0 <= j < apps.len() implies (#[trigger] apps[j]).name != name by {
                    assert(!p(apps[j]));
                }
            },
        }
    }
}

proof fn lemma_slot_of_is_first(pinned: Seq<Option<usize>>, app: usize)
    ensures
        match slot_of(pinned, app) {
            Some(k) => 0 <= k < pinned.len() && pinned[k] == Some(app) && forall|j: int|
                0 <= j < k ==> #[trigger] pinned[j] != Some(app),
            None => !pinned.contains(Some(app)),
        },
{
    let p = |p: Option<usize>| p == Some(app);
    lemma_first_from(pinned, p, 0);
    match slot_of(pinned, app) {
        Some(k) => {
            assert forall|j: int| 0 <= j < k implies #[trigger] pinned[j] != Some(app) by {
                assert(!p(pinned[j]));
            }
        },
        None => {
            assert forall|j: int| 0 <= j < pinned.len() implies #[trigger] pinned[j] != Some(app) by {
                assert(!p(pinned[j]));
            }
        },
    }
}

/// Reordering keeps every pin: the application stands in the slot, what stood there stands where the
/// application was, every other slot is as before, so that the row has the same applications; and the
/// row is saved.
pub proof fn law_reordering_keeps_every_pin(v: LauncherView, app: usize, slot: usize, from: int, x: usize)
    requires
        v.wf(),
        slot < 8,
        0 <= from < 8,
        v.pinned[from] == Some(app),
        forall|j: int| 0 <= j < from ==> #[trigger] v.pinned[j] != Some(app),
    ensures
        ({
            let (w, outcome) = pins_reordered(v, app, slot);
            &&& w.pinned.len() == 8
            &&& w.pinned[slot as int] == Some(app)
            &&& w.pinned[from] == v.pinned[slot as int]
            &&& forall|s: int| 0 <= s < 8 && s != slot && s != from ==> #[trigger] w.pinned[s] == v.pinned[s]
            &&& w.pinned.contains(Some(x)) == v.pinned.contains(Some(x))
            &&& w.apps == v.apps && w.filtered == v.filtered && w.selected == v.selected
            &&& outcome.save == Some(names_of(w.apps, w.pinned)) && outcome.notify && !outcome.quit
            &&& dropped_on_slot(v, app, slot, Seq::empty()) == (w, outcome)
        }),
{
    lemma_slot_of_is_first(v.pinned, app);
    assert(v.pinned.contains(Some(app)));
    let k = slot_of(v.pinned, app)->0;
    assert(k == from);
    lemma_exchanged_contains(v.pinned, from, slot as int);
}

/// Moving a pinned application sideways exchanges it with its neighbour and takes the selection along;
/// the row keeps its applications and is saved.
pub proof fn law_moving_a_pin_exchanges_neighbours(v: LauncherView, slot: usize, x: usize)
    requires
        v.wf(),
        v.selected == Selection::Pinned(slot),
        v.pinned[slot as int] is Some,
    ensures
        slot > 0 ==> {
            let (w, outcome) = pin_moved_left(v);
            &&& w.pinned.len() == 8
            &&& w.pinned[slot - 1] == v.pinned[slot as int] && w.pinned[slot as int] == v.pinned[slot - 1]
            &&& forall|s: int| 0 <= s < 8 && s != slot && s != slot - 1 ==> #[trigger] w.pinned[s] == v.pinned[s]
            &&& w.pinned.contains(Some(x)) == v.pinned.contains(Some(x))
            &&& w.selected == Selection::Pinned((slot - 1) as usize)
            &&& w.filtered == v.filtered && w.apps == v.apps
            &&& outcome.save == Some(names_of(w.apps, w.pinned)) && outcome.notify
        },
        slot < 7 ==> {
            let (w, outcome) = pin_moved_right(v);
            &&& w.pinned.len() == 8
            &&& w.pinned[slot + 1] == v.pinned[slot as int] && w.pinned[slot as int] == v.pinned[slot + 1]
            &&& forall|s: int| 0 <= s < 8 && s != slot && s != slot + 1 ==> #[trigger] w.pinned[s] == v.pinned[s]
            &&& w.pinned.contains(Some(x)) == v.pinned.contains(Some(x))
            &&& w.selected == Selection::Pinned((slot + 1) as usize)
            &&& w.filtered == v.filtered && w.apps == v.apps
            &&& outcome.save == Some(names_of(w.apps, w.pinned)) && outcome.notify
        },
        slot == 0 ==> pin_moved_left(v).0 == v && pin_moved_left(v).1.save is None,
        slot == 7 ==> pin_moved_right(v).0 == v && pin_moved_right(v).1.save is None,
{
    if slot > 0 {
        lemma_exchanged_contains(v.pinned, slot as int, slot - 1);
    }
    if slot < 7 {
        lemma_exchanged_contains(v.pinned, slot as int, slot + 1);
    }
}

/// Pinning the selected application puts it in the first free slot, leaves every other slot as it is,
/// selects it there, takes it from the grid and saves the row. A full row stays as it is.
pub proof fn law_pinning(v: LauncherView, place: usize, query: Seq<char>)
    requires
        v.wf(),
        v.selected == Selection::Grid(place),
        place < v.filtered.len(),
    ensures
        ({
            let (w, outcome) = pinned_selected(v, query);
            let app = v.filtered[place as int];
            match w.selected {
                Selection::Pinned(slot) => {
                    &&& slot < 8 && v.pinned[slot as int] is None && w.pinned[slot as int] == Some(app)
                    &&& forall|s: int| 0 <= s < slot ==> #[trigger] v.pinned[s] is Some
                    &&& w.pinned.len() == 8 && forall|s: int|
                        0 <= s < 8 && s != slot ==> #[trigger] w.pinned[s] == v.pinned[s]
                    &&& !w.filtered.contains(app)
                    &&& outcome.save == Some(names_of(w.apps, w.pinned)) && outcome.notify
                    &&& w.apps == v.apps
                },
                Selection::Grid(_) => {
                    &&& w == v && outcome.save is None && !outcome.notify
                    &&& forall|s: int| 0 <= s < 8 ==> #[trigger] v.pinned[s] is Some
                },
            }
        }),
{
    let p = |p: Option<usize>| p is None;
    lemma_first_from(v.pinned, p, 0);
    let (w, outcome) = pinned_selected(v, query);
    let app = v.filtered[place as int];
    match free_slot(v.pinned) {
        Some(k) => {
            assert forall|s: int| 0 <= s < k implies #[trigger] v.pinned[s] is Some by {
                assert(!p(v.pinned[s]));
            }
            assert(w.pinned == v.pinned.update(k, Some(app)));
            assert(w.pinned[k] == Some(app));
            law_grid_shows_the_matches(w.apps, w.pinned, query, app);
        },
        None => {
            assert forall|s: int| 0 <= s < 8 implies #[trigger] v.pinned[s] is Some by {
                assert(!p(v.pinned[s]));
            }
        },
    }
}

/// Unpinning empties the selected slot and no other, and saves the row.
pub proof fn law_unpinning(v: LauncherView, slot: usize, query: Seq<char>)
    requires
        v.wf(),
        v.selected == Selection::Pinned(slot),
        v.pinned[slot as int] is Some,
    ensures
        ({
            let (w, outcome) = unpinned_selected(v, query);
            let app = v.pinned[slot as int]->0;
            &&& w.apps == v.apps && w.pinned.len() == 8
            &&& w.pinned[slot as int] is None
            &&& forall|s: int| 0 <= s < 8 && s != slot ==> #[trigger] w.pinned[s] == v.pinned[s]
            &&& outcome.save == Some(names_of(w.apps, w.pinned)) && outcome.notify && !outcome.quit
            &&& w.filtered.contains(app) ==> (w.selected matches Selection::Grid(place) && place
                < w.filtered.len() && w.filtered[place as int] == app && outcome.scroll_to == Some(
                (place / 8) as usize,
            ))
            &&& !w.filtered.contains(app) ==> outcome.scroll_to is None && match w.selected {
                Selection::Pinned(first) => first < 8 && w.pinned[first as int] is Some && forall|s: int|
                    0 <= s < first ==> #[trigger] w.pinned[s] is None,
                Selection::Grid(place) => place == 0 && forall|s: int|
                    0 <= s < 8 ==> #[trigger] w.pinned[s] is None,
            }
        }),
{
    let (w, outcome) = unpinned_selected(v, query);
    let app = v.pinned[slot as int]->0;
    let q = |i: usize| i == app;
    lemma_shown_wf(v.apps, w.pinned, query);
    lemma_first_from(w.filtered, q, 0);
    lemma_next_pinned(w.pinned, 0);
    lemma_next_is_nearest(w.pinned, 0);
    if w.filtered.contains(app) {
        let i = choose|i: int| 0 <= i < w.filtered.len() && w.filtered[i] == app;
        assert(q(w.filtered[i]));
    }
}

/// An application dropped on a slot takes it, and no other slot changes; the row is saved. One dropped
/// on the grid leaves its slot, and no other slot changes.
pub proof fn law_dropping(v: LauncherView, app: usize, slot: usize, query: Seq<char>)
    requires
        v.wf(),
        app < v.apps.len(),
        slot < 8,
    ensures
        (forall|s: int| 0 <= s < 8 ==> #[trigger] v.pinned[s] != Some(app)) ==> {
            let (w, outcome) = dropped_on_slot(v, app, slot, query);
            &&& w.pinned.len() == 8 && w.pinned[slot as int] == Some(app)
            &&& forall|s: int| 0 <= s < 8 && s != slot ==> #[trigger] w.pinned[s] == v.pinned[s]
            &&& w.apps == v.apps
            &&& outcome.save == Some(names_of(w.apps, w.pinned)) && outcome.notify
            &&& app_pinned(v, app, slot, query) == (w, outcome)
            &&& dropped_on_grid(v, app, query).0 == v
        },
        forall|from: int|
            0 <= from < 8 && #[trigger] v.pinned[from] == Some(app) && (forall|j: int|
                0 <= j < from ==> #[trigger] v.pinned[j] != Some(app)) ==> {
                let (w, outcome) = dropped_on_grid(v, app, query);
                &&& w.pinned.len() == 8 && w.pinned[from] is None
                &&& forall|s: int| 0 <= s < 8 && s != from ==> #[trigger] w.pinned[s] == v.pinned[s]
                &&& w.apps == v.apps && w.selected == Selection::Grid(0)
                &&& outcome.save == Some(names_of(w.apps, w.pinned)) && outcome.notify
                &&& outcome.scroll_to == Some(0usize)
                &&& app_pinned(v, app, slot, query).0 == v
            },
{
    lemma_slot_of_is_first(v.pinned, app);
    if v.pinned.contains(Some(app)) {
        let i = choose|i: int| 0 <= i < v.pinned.len() && v.pinned[i] == Some(app);
        assert(v.pinned[i] == Some(app));
    }
}

/// No application is lost: one that is in the row, or in the grid where its name holds the query, is in
/// one of them after every input.
pub proof fn law_no_application_is_lost(
    v: LauncherView,
    query: Seq<char>,
    app: usize,
    slot: usize,
    x: usize,
    p: int,
)
    requires
        v.wf(),
        app < v.apps.len(),
        slot < 8,
        x < v.apps.len(),
        0 <= p <= v.apps[x as int].name_lowercase.len() - query.len(),
        v.apps[x as int].name_lowercase.subrange(p, p + query.len()) == query,
        v.pinned.contains(Some(x)) || v.filtered.contains(x),
    ensures
        ({
            let w = filtered_by(v, query).0;
            w.pinned.contains(Some(x)) || w.filtered.contains(x)
        }),
        ({
            let w = pin_moved_left(v).0;
            w.pinned.contains(Some(x)) || w.filtered.contains(x)
        }),
        ({
            let w = pin_moved_right(v).0;
            w.pinned.contains(Some(x)) || w.filtered.contains(x)
        }),
        ({
            let w = pinned_selected(v, query).0;
            w.pinned.contains(Some(x)) || w.filtered.contains(x)
        }),
        ({
            let w = unpinned_selected(v, query).0;
            w.pinned.contains(Some(x)) || w.filtered.contains(x)
        }),
        ({
            let w = app_pinned(v, app, slot, query).0;
            w.pinned.contains(Some(x)) || w.filtered.contains(x)
        }),
        ({
            let w = pins_reordered(v, app, slot).0;
            w.pinned.contains(Some(x)) || w.filtered.contains(x)
        }),
        ({
            let w = dropped_on_slot(v, app, slot, query).0;
            w.pinned.contains(Some(x)) || w.filtered.contains(x)
        }),
        ({
            let w = dropped_on_grid(v, app, query).0;
            w.pinned.contains(Some(x)) || w.filtered.contains(x)
        }),
{
    assert(occurs_at(v.apps[x as int].name_lowercase, query, p));
    law_grid_shows_the_matches(v.apps, v.pinned, query, x);
    law_grid_shows_the_matches(v.apps, pinned_selected(v, query).0.pinned, query, x);
    law_grid_shows_the_matches(v.apps, unpinned_selected(v, query).0.pinned, query, x);
    law_grid_shows_the_matches(v.apps, app_pinned(v, app, slot, query).0.pinned, query, x);
    law_grid_shows_the_matches(v.apps, dropped_on_grid(v, app, query).0.pinned, query, x);
    lemma_slot_of_is_first(v.pinned, app);
    if let Some(k) = slot_of(v.pinned, app) {
        lemma_exchanged_contains(v.pinned, k, slot as int);
    }
    if let Selection::Pinned(s) = v.selected {
        if s > 0 {
            lemma_exchanged_contains(v.pinned, s as int, s - 1);
        }
        if s < 7 {
            lemma_exchanged_contains(v.pinned, s as int, s + 1);
        }
    }
}

/// Whenever the row gains or loses an application, the grid is that of the new row and the query; else
/// nothing changes and nothing is saved.
pub proof fn law_grid_follows_the_row(v: LauncherView, app: usize, slot: usize, query: Seq<char>)
    requires
        v.wf(),
        app < v.apps.len(),
        slot < 8,
    ensures
        ({
            let (w, outcome) = pinned_selected(v, query);
            &&& w.pinned != v.pinned ==> w.filtered == shown(v.apps, w.pinned, query)
            &&& w.pinned == v.pinned ==> w == v && outcome.save is None && !outcome.notify
            &&& !outcome.quit && outcome.command is None && outcome.scroll_to is None
        }),
        ({
            let (w, outcome) = unpinned_selected(v, query);
            &&& w.pinned != v.pinned ==> w.filtered == shown(v.apps, w.pinned, query)
            &&& w.pinned == v.pinned ==> w == v && outcome.save is None && !outcome.notify
            &&& !outcome.quit && outcome.command is None
        }),
        ({
            let (w, outcome) = app_pinned(v, app, slot, query);
            &&& w.pinned != v.pinned ==> w.filtered == shown(v.apps, w.pinned, query)
            &&& w.pinned == v.pinned ==> w == v && outcome.save is None && !outcome.notify
            &&& !outcome.quit && outcome.command is None && outcome.scroll_to is None
            &&& w.filtered.len() > 0 ==> w.selected == v.selected
        }),
        ({
            let (w, outcome) = dropped_on_grid(v, app, query);
            &&& w.pinned != v.pinned ==> w.filtered == shown(v.apps, w.pinned, query)
            &&& w.pinned == v.pinned ==> w == v && outcome.save is None && !outcome.notify
            &&& !outcome.quit && outcome.command is None
        }),
        ({
            let (w, outcome) = pins_reordered(v, app, slot);
            &&& !v.pinned.contains(Some(app)) ==> w == v && outcome.save is None && !outcome.notify
            &&& !outcome.quit && outcome.command is None && outcome.scroll_to is None
        }),
        pin_moved_left(v).1.command is None && !pin_moved_left(v).1.quit && pin_moved_left(
            v,
        ).1.scroll_to is None,
        pin_moved_right(v).1.command is None && !pin_moved_right(v).1.quit && pin_moved_right(
            v,
        ).1.scroll_to is None,
        v.selected is Grid ==> pin_moved_left(v).0 == v && pin_moved_right(v).0 == v
            && unpinned_selected(v, query).0 == v,
        v.selected is Pinned ==> pinned_selected(v, query).0 == v,
{
    let p = |p: Option<usize>| p is None;
    lemma_first_from(v.pinned, p, 0);
    lemma_slot_of_is_first(v.pinned, app);
    if let Some(k) = free_slot(v.pinned) {
        assert(p(v.pinned[k]));
        assert forall|a: usize| #[trigger] v.pinned.update(k, Some(a)) != v.pinned by {
            assert(v.pinned.update(k, Some(a))[k] == Some(a));
        }
    }
    if let Selection::Pinned(s) = v.selected {
        assert(v.pinned.update(s as int, None)[s as int] is None);
    }
    if !v.pinned.contains(Some(app)) {
        assert(v.pinned.update(slot as int, Some(app))[slot as int] == Some(app));
    }
    if let Some(k) = slot_of(v.pinned, app) {
        assert(v.pinned.update(k, None)[k] is None);
    }
}

} // verus!
