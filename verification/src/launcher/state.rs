//! The state of the launcher: which applications are shown, which are pinned, and which is selected.

use vstd::prelude::*;

use crate::launcher::apps::{app_views, AppEntry, AppEntryView};
use crate::launcher::pins::{
    load_pinned_apps, names_of, pins_of, save_pinned_apps, slot_names, LauncherConfig, MAX_PINNED,
};
use crate::search::{first_from, first_where, lemma_first_from, lemma_is_first, lemma_none_first};
use crate::text::{contains, holds, lowercase, occurs_at, to_lowercase};

verus! {

/// The number of columns of the grid.
pub const COLUMNS: usize = 8;

/// What is selected: a slot of the pinned row, or a place in the grid.
#[derive(Clone, Copy, Debug, PartialEq, Eq, Structural)]
pub enum Selection {
    Pinned(usize),
    Grid(usize),
}

/// What is to be done after an input.
#[derive(Debug, PartialEq)]
pub struct Outcome {
    /// Draw the launcher anew.
    pub notify: bool,
    /// Close the launcher.
    pub quit: bool,
    /// Scroll the grid to this row.
    pub scroll_to: Option<usize>,
    /// Save this configuration.
    pub save: Option<LauncherConfig>,
    /// Start this command.
    pub command: Option<String>,
}

/// What an outcome holds.
pub struct OutcomeView {
    pub notify: bool,
    pub quit: bool,
    pub scroll_to: Option<usize>,
    pub save: Option<Seq<Option<Seq<char>>>>,
    pub command: Option<Seq<char>>,
}

impl View for Outcome {
    type V = OutcomeView;

    open spec fn view(&self) -> OutcomeView {
        OutcomeView {
            notify: self.notify,
            quit: self.quit,
            scroll_to: self.scroll_to,
            save: match self.save {
                Some(config) => Some(slot_names(config.pinned@)),
                None => None,
            },
            command: crate::ipc::text_view(self.command),
        }
    }
}

/// Nothing is to be done.
pub open spec fn nothing() -> OutcomeView {
    OutcomeView { notify: false, quit: false, scroll_to: None, save: None, command: None }
}

/// The launcher is to be drawn anew.
pub open spec fn redraw() -> OutcomeView {
    OutcomeView { notify: true, ..nothing() }
}

/// The launcher is to be drawn anew, with the grid at a row.
pub open spec fn redraw_at(row: usize) -> OutcomeView {
    OutcomeView { notify: true, scroll_to: Some(row), ..nothing() }
}

fn nothing_to_do() -> (r: Outcome)
    ensures
        r@ == nothing(),
{
    Outcome { notify: false, quit: false, scroll_to: None, save: None, command: None }
}

fn drawn() -> (r: Outcome)
    ensures
        r@ == redraw(),
{
    Outcome { notify: true, quit: false, scroll_to: None, save: None, command: None }
}

fn drawn_at(row: usize) -> (r: Outcome)
    ensures
        r@ == redraw_at(row),
{
    Outcome { notify: true, quit: false, scroll_to: Some(row), save: None, command: None }
}

// ---------------------------------------------------------------------------
// Queries
// ---------------------------------------------------------------------------

/// What the search field asks for: its text in lower case, as names are compared in lower case.
pub struct Query {
    pub text: String,
}

impl View for Query {
    type V = Seq<char>;

    open spec fn view(&self) -> Seq<char> {
        self.text@
    }
}

impl Query {
    /// What a text in the search field asks for. An empty field asks for nothing.
    pub fn new(text: &str) -> (r: Self)
        ensures
            r@ == lowercase(text@),
            text@.len() == 0 ==> r@.len() == 0,
    {
        Query { text: to_lowercase(text) }
    }
}

// ---------------------------------------------------------------------------
// What is shown
// ---------------------------------------------------------------------------

/// Whether the grid shows an application: it is not pinned, and its name holds the query.
pub open spec fn is_shown(
    apps: Seq<AppEntryView>,
    pinned: Seq<Option<usize>>,
    query: Seq<char>,
    i: int,
) -> bool {
    &&& !pinned.contains(Some(i as usize))
    &&& query.len() == 0 || holds(apps[i].name_lowercase, query)
}

/// Those of the first `n` applications that the grid shows, in order.
pub open spec fn shown_below(
    apps: Seq<AppEntryView>,
    pinned: Seq<Option<usize>>,
    query: Seq<char>,
    n: nat,
) -> Seq<usize>
    decreases n,
{
    if n == 0 {
        Seq::empty()
    } else {
        let before = shown_below(apps, pinned, query, (n - 1) as nat);
        if is_shown(apps, pinned, query, n - 1) {
            before.push((n - 1) as usize)
        } else {
            before
        }
    }
}

/// The applications that the grid shows, in order.
pub open spec fn shown(
    apps: Seq<AppEntryView>,
    pinned: Seq<Option<usize>>,
    query: Seq<char>,
) -> Seq<usize> {
    shown_below(apps, pinned, query, apps.len())
}

proof fn lemma_shown_below(
    apps: Seq<AppEntryView>,
    pinned: Seq<Option<usize>>,
    query: Seq<char>,
    n: nat,
)
    requires
        n <= usize::MAX,
    ensures
        forall|k: int|
            0 <= k < shown_below(apps, pinned, query, n).len() ==> {
                &&& #[trigger] shown_below(apps, pinned, query, n)[k] < n
                &&& is_shown(apps, pinned, query, shown_below(apps, pinned, query, n)[k] as int)
            },
        forall|j: int, k: int|
            0 <= j < k < shown_below(apps, pinned, query, n).len() ==> #[trigger] shown_below(
                apps,
                pinned,
                query,
                n,
            )[j] < #[trigger] shown_below(apps, pinned, query, n)[k],
        forall|i: usize|
            i < n && is_shown(apps, pinned, query, i as int) ==> #[trigger] shown_below(
                apps,
                pinned,
                query,
                n,
            ).contains(i),
        shown_below(apps, pinned, query, n).len() <= n,
    decreases n,
{
    if n > 0 {
        let m = (n - 1) as nat;
        lemma_shown_below(apps, pinned, query, m);
        let before = shown_below(apps, pinned, query, m);
        let after = shown_below(apps, pinned, query, n);
        assert forall|i: usize|
            i < n && is_shown(apps, pinned, query, i as int) implies #[trigger] after.contains(i) by {
            if i < m {
                assert(before.contains(i));
                let k = choose|k: int| 0 <= k < before.len() && before[k] == i;
                assert(after[k] == i);
            } else {
                assert(after[after.len() - 1] == i);
            }
        }
    }
}

/// The grid shows an application exactly if it is not pinned and its name holds the query, and shows
/// it once, in the order of the list.
pub proof fn law_grid_shows_the_matches(
    apps: Seq<AppEntryView>,
    pinned: Seq<Option<usize>>,
    query: Seq<char>,
    i: usize,
)
    requires
        apps.len() <= usize::MAX,
        i < apps.len(),
    ensures
        shown(apps, pinned, query).contains(i) == is_shown(apps, pinned, query, i as int),
        shown(apps, pinned, query).no_duplicates(),
{
    lemma_shown_below(apps, pinned, query, apps.len());
}

/// Without a query every application is in one place: in the pinned row or in the grid, and not in
/// both.
pub proof fn law_every_application_is_somewhere(
    apps: Seq<AppEntryView>,
    pinned: Seq<Option<usize>>,
    i: usize,
)
    requires
        apps.len() <= usize::MAX,
        i < apps.len(),
    ensures
        pinned.contains(Some(i)) != shown(apps, pinned, Seq::empty()).contains(i),
{
    law_grid_shows_the_matches(apps, pinned, Seq::empty(), i);
}

// ---------------------------------------------------------------------------
// Slots
// ---------------------------------------------------------------------------

/// The first slot that holds an application, not before `from`.
pub open spec fn next_pinned(pinned: Seq<Option<usize>>, from: int) -> Option<int> {
    first_from(pinned, |p: Option<usize>| p is Some, from)
}

/// The last of the first `n` slots that holds an application.
pub open spec fn last_pinned(pinned: Seq<Option<usize>>, n: int) -> Option<int>
    decreases n,
{
    if n <= 0 {
        None
    } else if pinned[n - 1] is Some {
        Some(n - 1)
    } else {
        last_pinned(pinned, n - 1)
    }
}

/// The first empty slot.
pub open spec fn free_slot(pinned: Seq<Option<usize>>) -> Option<int> {
    first_where(pinned, |p: Option<usize>| p is None)
}

/// The first slot that holds the application.
pub open spec fn slot_of(pinned: Seq<Option<usize>>, app: usize) -> Option<int> {
    first_where(pinned, |p: Option<usize>| p == Some(app))
}

/// Two slots exchanged.
pub open spec fn exchanged(pinned: Seq<Option<usize>>, a: int, b: int) -> Seq<Option<usize>> {
    pinned.update(a, pinned[b]).update(b, pinned[a])
}

/// Whether no application is pinned twice.
pub open spec fn pins_differ(pinned: Seq<Option<usize>>) -> bool {
    forall|i: int, j: int|
        0 <= i < j < pinned.len() && #[trigger] pinned[i] is Some ==> pinned[i]
            != #[trigger] pinned[j]
}

fn find_next(pinned: &[Option<usize>; MAX_PINNED], from: usize) -> (r: Option<usize>)
    ensures
        match r {
            Some(k) => next_pinned(pinned@, from as int) == Some(k as int) && k < MAX_PINNED,
            None => next_pinned(pinned@, from as int) is None,
        },
{
    let ghost p = |p: Option<usize>| p is Some;
    let mut i: usize = from;
    while i < MAX_PINNED
        invariant
            from <= i,
            pinned@.len() == MAX_PINNED,
            p == (|p: Option<usize>| p is Some),
            forall|j: int| from <= j < i && j < MAX_PINNED ==> !p(#[trigger] pinned@[j]),
        decreases MAX_PINNED - i,
    {
        if pinned[i].is_some() {
            proof {
                lemma_is_first(pinned@, p, from as int, i as int);
            }
            return Some(i);
        }
        i += 1;
    }
    proof {
        lemma_none_first(pinned@, p, from as int);
    }
    None
}

fn find_last(pinned: &[Option<usize>; MAX_PINNED], n: usize) -> (r: Option<usize>)
    requires
        n <= MAX_PINNED,
    ensures
        match r {
            Some(k) => last_pinned(pinned@, n as int) == Some(k as int) && k < n,
            None => last_pinned(pinned@, n as int) is None,
        },
{
    let mut i: usize = n;
    while i > 0
        invariant
            i <= n <= MAX_PINNED,
            pinned@.len() == MAX_PINNED,
            last_pinned(pinned@, n as int) == last_pinned(pinned@, i as int),
        decreases i,
    {
        if pinned[i - 1].is_some() {
            return Some(i - 1);
        }
        i -= 1;
    }
    None
}

fn find_free(pinned: &[Option<usize>; MAX_PINNED]) -> (r: Option<usize>)
    ensures
        match r {
            Some(k) => free_slot(pinned@) == Some(k as int) && k < MAX_PINNED && pinned@[k as int] is None,
            None => free_slot(pinned@) is None,
        },
{
    let ghost p = |p: Option<usize>| p is None;
    let mut i: usize = 0;
    while i < MAX_PINNED
        invariant
            i <= MAX_PINNED,
            pinned@.len() == MAX_PINNED,
            p == (|p: Option<usize>| p is None),
            forall|j: int| 0 <= j < i ==> !p(#[trigger] pinned@[j]),
        decreases MAX_PINNED - i,
    {
        if pinned[i].is_none() {
            proof {
                lemma_is_first(pinned@, p, 0, i as int);
            }
            return Some(i);
        }
        i += 1;
    }
    proof {
        lemma_none_first(pinned@, p, 0);
    }
    None
}

fn find_slot(pinned: &[Option<usize>; MAX_PINNED], app: usize) -> (r: Option<usize>)
    ensures
        match r {
            Some(k) => {
                &&& slot_of(pinned@, app) == Some(k as int)
                &&& k < MAX_PINNED
                &&& pinned@[k as int] == Some(app)
                &&& pinned@.contains(Some(app))
            },
            None => slot_of(pinned@, app) is None && !pinned@.contains(Some(app)),
        },
{
    let ghost p = |p: Option<usize>| p == Some(app);
    let mut i: usize = 0;
    while i < MAX_PINNED
        invariant
            i <= MAX_PINNED,
            pinned@.len() == MAX_PINNED,
            p == (|p: Option<usize>| p == Some(app)),
            forall|j: int| 0 <= j < i ==> !p(#[trigger] pinned@[j]),
        decreases MAX_PINNED - i,
    {
        if let Some(here) = pinned[i] {
            if here == app {
                proof {
                    lemma_is_first(pinned@, p, 0, i as int);
                }
                return Some(i);
            }
        }
        i += 1;
    }
    proof {
        lemma_none_first(pinned@, p, 0);
        assert forall|j: int| 0 <= j < pinned@.len() implies #[trigger] pinned@[j] != Some(app) by {
            assert(!p(pinned@[j]));
        }
    }
    None
}

// ---------------------------------------------------------------------------
// The launcher
// ---------------------------------------------------------------------------

/// The launcher.
pub struct Launcher {
    apps: Vec<AppEntry>,
    filtered: Vec<usize>,
    pinned: [Option<usize>; MAX_PINNED],
    selected: Selection,
}

/// What a launcher holds.
pub struct LauncherView {
    pub apps: Seq<AppEntryView>,
    pub filtered: Seq<usize>,
    pub pinned: Seq<Option<usize>>,
    pub selected: Selection,
}

impl View for Launcher {
    type V = LauncherView;

    closed spec fn view(&self) -> LauncherView {
        LauncherView {
            apps: app_views(self.apps@),
            filtered: self.filtered@,
            pinned: self.pinned@,
            selected: self.selected,
        }
    }
}

/// Slots and places of the grid hold applications of the list, the grid in their order, and no
/// application of the grid is pinned.
pub open spec fn is_sound(
    apps: Seq<AppEntryView>,
    filtered: Seq<usize>,
    pinned: Seq<Option<usize>>,
) -> bool {
    &&& apps.len() <= usize::MAX
    &&& pinned.len() == MAX_PINNED
    &&& forall|i: int|
        0 <= i < pinned.len() && #[trigger] pinned[i] is Some ==> pinned[i]->0 < apps.len()
    &&& forall|k: int| 0 <= k < filtered.len() ==> #[trigger] filtered[k] < apps.len()
    &&& forall|k: int|
        0 <= k < filtered.len() ==> !pinned.contains(Some(#[trigger] filtered[k]))
    &&& forall|j: int, k: int|
        0 <= j < k < filtered.len() ==> #[trigger] filtered[j] < #[trigger] filtered[k]
}

impl LauncherView {
    /// The slots and the grid are sound, and a selected slot is a slot.
    pub open spec fn wf(self) -> bool {
        &&& is_sound(self.apps, self.filtered, self.pinned)
        &&& match self.selected {
            Selection::Pinned(slot) => slot < MAX_PINNED,
            Selection::Grid(_) => true,
        }
    }

    /// The launcher with another selection.
    pub open spec fn with_selected(self, selected: Selection) -> Self {
        LauncherView { selected, ..self }
    }

    /// The launcher with the grid for its pinned applications and the query. An
    /// empty grid leaves the selection to the pinned row.
    pub open spec fn rebuilt(self, query: Seq<char>) -> Self {
        let filtered = shown(self.apps, self.pinned, query);
        let selected = if filtered.len() == 0 {
            match next_pinned(self.pinned, 0) {
                Some(first) => Selection::Pinned(first as usize),
                None => self.selected,
            }
        } else {
            self.selected
        };
        LauncherView { filtered, selected, ..self }
    }

    /// What saving the pinned applications writes.
    pub open spec fn saved(self) -> OutcomeView {
        OutcomeView { save: Some(names_of(self.apps, self.pinned)), ..redraw() }
    }

    /// The application that is selected.
    pub open spec fn selected_app(self) -> Option<usize> {
        match self.selected {
            Selection::Pinned(slot) => self.pinned[slot as int],
            Selection::Grid(place) => if place < self.filtered.len() {
                Some(self.filtered[place as int])
            } else {
                None
            },
        }
    }

    /// What starting an application does.
    pub open spec fn started(self, app: usize) -> OutcomeView {
        OutcomeView { quit: true, command: Some(self.apps[app as int].command), ..nothing() }
    }
}

/// The launcher at its start: with the applications that are not pinned in the grid, and the first
/// pinned one selected.
pub open spec fn initial(apps: Seq<AppEntryView>, pinned: Seq<Option<usize>>) -> LauncherView {
    LauncherView {
        apps,
        filtered: shown(apps, pinned, Seq::empty()),
        pinned,
        selected: match next_pinned(pinned, 0) {
            Some(first) => Selection::Pinned(first as usize),
            None => Selection::Grid(0),
        },
    }
}

/// What a changed query does: the grid is rebuilt, and the selection goes to its start, or
/// without a query to the first pinned application.
pub open spec fn filtered_by(v: LauncherView, query: Seq<char>) -> (LauncherView, OutcomeView) {
    let w = LauncherView { filtered: shown(v.apps, v.pinned, query), ..v };
    if query.len() > 0 || next_pinned(v.pinned, 0) is None {
        (w.with_selected(Selection::Grid(0)), redraw_at(0))
    } else {
        (w.with_selected(Selection::Pinned(next_pinned(v.pinned, 0)->0 as usize)), redraw())
    }
}

/// The pinned slot that is reached by going up from a column of the first row: the nearest to the
/// left, or else the nearest to the right.
pub open spec fn slot_above(pinned: Seq<Option<usize>>, column: int) -> Option<int> {
    match last_pinned(pinned, column + 1) {
        Some(slot) => Some(slot),
        None => next_pinned(pinned, column + 1),
    }
}

/// What going up does.
pub open spec fn moved_up(v: LauncherView) -> (LauncherView, OutcomeView) {
    match v.selected {
        Selection::Grid(i) => if i >= COLUMNS {
            (
                v.with_selected(Selection::Grid((i - COLUMNS) as usize)),
                redraw_at(((i - COLUMNS) / COLUMNS as int) as usize),
            )
        } else {
            match slot_above(v.pinned, i as int) {
                Some(slot) => (v.with_selected(Selection::Pinned(slot as usize)), redraw()),
                None => (v, redraw()),
            }
        },
        Selection::Pinned(_) => (v, redraw()),
    }
}

/// What going down does.
pub open spec fn moved_down(v: LauncherView) -> (LauncherView, OutcomeView) {
    let n = v.filtered.len();
    match v.selected {
        Selection::Pinned(i) => if n > 0 {
            let place = if i < n {
                i
            } else {
                (n - 1) as usize
            };
            (
                v.with_selected(Selection::Grid(place)),
                redraw_at((place as int / COLUMNS as int) as usize),
            )
        } else {
            (v, redraw())
        },
        Selection::Grid(i) => if i + COLUMNS < n {
            (
                v.with_selected(Selection::Grid((i + COLUMNS) as usize)),
                redraw_at(((i + COLUMNS) / COLUMNS as int) as usize),
            )
        } else {
            (v, redraw())
        },
    }
}

/// What going left does.
pub open spec fn moved_left(v: LauncherView) -> (LauncherView, OutcomeView) {
    match v.selected {
        Selection::Pinned(i) => match last_pinned(v.pinned, i as int) {
            Some(slot) => (v.with_selected(Selection::Pinned(slot as usize)), redraw()),
            None => (v, redraw()),
        },
        Selection::Grid(i) => if i > 0 {
            (
                v.with_selected(Selection::Grid((i - 1) as usize)),
                redraw_at(((i - 1) / COLUMNS as int) as usize),
            )
        } else {
            match last_pinned(v.pinned, MAX_PINNED as int) {
                Some(slot) => (v.with_selected(Selection::Pinned(slot as usize)), redraw()),
                None => (v, redraw()),
            }
        },
    }
}

/// What going right does.
pub open spec fn moved_right(v: LauncherView) -> (LauncherView, OutcomeView) {
    match v.selected {
        Selection::Pinned(i) => match next_pinned(v.pinned, i + 1) {
            Some(slot) => (v.with_selected(Selection::Pinned(slot as usize)), redraw()),
            None => if v.filtered.len() > 0 {
                (v.with_selected(Selection::Grid(0)), redraw_at(0))
            } else {
                (v, redraw())
            },
        },
        Selection::Grid(i) => if i + 1 < v.filtered.len() {
            (
                v.with_selected(Selection::Grid((i + 1) as usize)),
                redraw_at(((i + 1) / COLUMNS as int) as usize),
            )
        } else {
            (v, redraw())
        },
    }
}

/// What starting the selected application does.
pub open spec fn launched(v: LauncherView) -> OutcomeView {
    match v.selected_app() {
        Some(app) => v.started(app),
        None => nothing(),
    }
}

/// What exchanging the selected slot, if it holds an application, with slot `to` does.
pub open spec fn pin_moved(v: LauncherView, slot: usize, to: usize) -> (LauncherView, OutcomeView) {
    if v.pinned[slot as int] is Some {
        let w = LauncherView {
            pinned: exchanged(v.pinned, slot as int, to as int),
            selected: Selection::Pinned(to),
            ..v
        };
        (w, w.saved())
    } else {
        (v, nothing())
    }
}

/// What moving the selected pinned application to the left does.
pub open spec fn pin_moved_left(v: LauncherView) -> (LauncherView, OutcomeView) {
    match v.selected {
        Selection::Pinned(slot) if slot > 0 => pin_moved(v, slot, (slot - 1) as usize),
        _ => (v, nothing()),
    }
}

/// What moving the selected pinned application to the right does.
pub open spec fn pin_moved_right(v: LauncherView) -> (LauncherView, OutcomeView) {
    match v.selected {
        Selection::Pinned(slot) if slot + 1 < MAX_PINNED => pin_moved(v, slot, (slot + 1) as usize),
        _ => (v, nothing()),
    }
}

/// What pinning the selected application of the grid does: it goes to the first free slot, if there
/// is one.
pub open spec fn pinned_selected(v: LauncherView, query: Seq<char>) -> (LauncherView, OutcomeView) {
    match (v.selected, v.selected_app(), free_slot(v.pinned)) {
        (Selection::Grid(_), Some(app), Some(slot)) => {
            let w = LauncherView { pinned: v.pinned.update(slot, Some(app)), ..v }.rebuilt(query);
            (w.with_selected(Selection::Pinned(slot as usize)), w.saved())
        },
        _ => (v, nothing()),
    }
}

/// What unpinning the selected application does: it is selected in the grid, if it is shown there.
pub open spec fn unpinned_selected(v: LauncherView, query: Seq<char>) -> (LauncherView, OutcomeView) {
    match (v.selected, v.selected_app()) {
        (Selection::Pinned(slot), Some(app)) => {
            let w = LauncherView { pinned: v.pinned.update(slot as int, None), ..v }.rebuilt(query);
            match first_where(w.filtered, |i: usize| i == app) {
                Some(place) => (
                    w.with_selected(Selection::Grid(place as usize)),
                    OutcomeView {
                        scroll_to: Some((place / COLUMNS as int) as usize),
                        ..w.saved()
                    },
                ),
                None => match next_pinned(w.pinned, 0) {
                    Some(first) => (
                        w.with_selected(Selection::Pinned(first as usize)),
                        w.saved(),
                    ),
                    None => (w.with_selected(Selection::Grid(0)), w.saved()),
                },
            }
        },
        _ => (v, nothing()),
    }
}

/// What calling on a slot does: the first time its application is selected, the second time started.
pub open spec fn slot_activated(v: LauncherView, slot: usize) -> (LauncherView, OutcomeView) {
    match v.pinned[slot as int] {
        Some(app) => if v.selected == Selection::Pinned(slot) {
            (v, v.started(app))
        } else {
            (v.with_selected(Selection::Pinned(slot)), redraw())
        },
        None => (v, nothing()),
    }
}

/// What pinning an application in a slot does. An application that is pinned stays where it is.
pub open spec fn app_pinned(v: LauncherView, app: usize, slot: usize, query: Seq<char>) -> (
    LauncherView,
    OutcomeView,
) {
    if v.pinned.contains(Some(app)) || slot >= MAX_PINNED {
        (v, nothing())
    } else {
        let w = LauncherView { pinned: v.pinned.update(slot as int, Some(app)), ..v }.rebuilt(query);
        (w, w.saved())
    }
}

/// What moving a pinned application to a slot does: the two slots are exchanged.
pub open spec fn pins_reordered(v: LauncherView, app: usize, slot: usize) -> (
    LauncherView,
    OutcomeView,
) {
    match slot_of(v.pinned, app) {
        Some(old_slot) => {
            let w = LauncherView { pinned: exchanged(v.pinned, old_slot, slot as int), ..v };
            (w, w.saved())
        },
        None => (v, nothing()),
    }
}

/// What dropping an application on a slot does.
pub open spec fn dropped_on_slot(v: LauncherView, app: usize, slot: usize, query: Seq<char>) -> (
    LauncherView,
    OutcomeView,
) {
    if v.pinned.contains(Some(app)) {
        pins_reordered(v, app, slot)
    } else {
        app_pinned(v, app, slot, query)
    }
}

/// What dropping an application on the grid does: it is no longer pinned.
pub open spec fn dropped_on_grid(v: LauncherView, app: usize, query: Seq<char>) -> (
    LauncherView,
    OutcomeView,
) {
    match slot_of(v.pinned, app) {
        Some(slot) => {
            let w = LauncherView { pinned: v.pinned.update(slot, None), ..v }.rebuilt(query);
            (
                w.with_selected(Selection::Grid(0)),
                OutcomeView { scroll_to: Some(0), ..w.saved() },
            )
        },
        None => (v, nothing()),
    }
}

/// What moving the pointer over a cell does.
pub open spec fn hovered(v: LauncherView, over: Selection) -> (LauncherView, OutcomeView) {
    if v.selected == over {
        (v, nothing())
    } else {
        (v.with_selected(over), redraw())
    }
}

/// What the grid shows is sound.
pub proof fn lemma_shown_wf(apps: Seq<AppEntryView>, pinned: Seq<Option<usize>>, query: Seq<char>)
    requires
        apps.len() <= usize::MAX,
    ensures
        ({
            let filtered = shown(apps, pinned, query);
            &&& filtered.len() <= usize::MAX
            &&& forall|k: int| 0 <= k < filtered.len() ==> #[trigger] filtered[k] < apps.len()
            &&& forall|k: int|
                0 <= k < filtered.len() ==> !pinned.contains(Some(#[trigger] filtered[k]))
            &&& forall|j: int, k: int|
                0 <= j < k < filtered.len() ==> #[trigger] filtered[j] < #[trigger] filtered[k]
        }),
{
    lemma_shown_below(apps, pinned, query, apps.len());
    let filtered = shown(apps, pinned, query);
    assert forall|k: int| 0 <= k < filtered.len() implies !pinned.contains(
        Some(#[trigger] filtered[k]),
    ) by {
        assert(is_shown(apps, pinned, query, filtered[k] as int));
    }
}

/// The applications that the grid shows, in order.
pub fn build_filtered(apps: &Vec<AppEntry>, pinned: &[Option<usize>; MAX_PINNED], query: &str) -> (r: Vec<
    usize,
>)
    ensures
        r@ == shown(app_views(apps@), pinned@, query@),
        forall|i: usize| #[trigger]
            r@.contains(i) <==> {
                &&& i < apps@.len()
                &&& forall|s: int| 0 <= s < pinned@.len() ==> #[trigger] pinned@[s] != Some(i)
                &&& query@.len() == 0 || exists|p: int|
                    0 <= p <= apps@[i as int].name_lowercase@.len() - query@.len()
                        && #[trigger] apps@[i as int].name_lowercase@.subrange(p, p + query@.len())
                        == query@
            },
        forall|j: int, k: int| 0 <= j < k < r@.len() ==> #[trigger] r@[j] < #[trigger] r@[k],
{
    let ghost all = app_views(apps@);
    let empty = query.is_empty();
    let mut r: Vec<usize> = Vec::new();
    let mut i: usize = 0;
    while i < apps.len()
        invariant
            i <= apps@.len(),
            all == app_views(apps@),
            empty == (query@.len() == 0),
            r@ == shown_below(all, pinned@, query@, i as nat),
        decreases apps@.len() - i,
    {
        let is_pinned = find_slot(pinned, i).is_some();
        if !is_pinned && (empty || contains(apps[i].name_lowercase.as_str(), query)) {
            r.push(i);
        }
        i += 1;
    }
    proof {
        lemma_shown_wf(all, pinned@, query@);
        assert forall|i: usize| #[trigger] r@.contains(i) <==> {
            &&& i < apps@.len()
            &&& forall|s: int| 0 <= s < pinned@.len() ==> #[trigger] pinned@[s] != Some(i)
            &&& query@.len() == 0 || exists|p: int|
                0 <= p <= apps@[i as int].name_lowercase@.len() - query@.len()
                    && #[trigger] apps@[i as int].name_lowercase@.subrange(p, p + query@.len())
                    == query@
        } by {
            if i < apps@.len() {
                law_grid_shows_the_matches(all, pinned@, query@, i);
                let name = apps@[i as int].name_lowercase@;
                assert(all[i as int].name_lowercase == name);
                if holds(name, query@) {
                    let p = choose|p: int| occurs_at(name, query@, p);
                    assert(name.subrange(p, p + query@.len()) == query@);
                }
                if exists|p: int|
                    0 <= p <= name.len() - query@.len() && #[trigger] name.subrange(
                        p,
                        p + query@.len(),
                    ) == query@ {
                    let p = choose|p: int|
                        0 <= p <= name.len() - query@.len() && #[trigger] name.subrange(
                            p,
                            p + query@.len(),
                        ) == query@;
                    assert(occurs_at(name, query@, p));
                }
            } else if r@.contains(i) {
                let k = choose|k: int| 0 <= k < r@.len() && r@[k] == i;
                assert(shown(all, pinned@, query@)[k] < all.len());
            }
        }
    }
    r
}

impl Launcher {
    /// The launcher for the applications and a configuration.
    pub fn new(apps: Vec<AppEntry>, config: &LauncherConfig) -> (r: Self)
        ensures
            r@.wf(),
            r@ == initial(
                app_views(apps@),
                pins_of(app_views(apps@), slot_names(config.pinned@)),
            ),
    {
        let _count: usize = apps.len();
        let pinned = load_pinned_apps(&apps, config);
        let filtered = build_filtered(&apps, &pinned, "");
        let selected = match find_next(&pinned, 0) {
            Some(first) => Selection::Pinned(first),
            None => Selection::Grid(0),
        };
        proof {
            reveal_strlit("");
            assert(""@ =~= Seq::<char>::empty());
            lemma_shown_wf(app_views(apps@), pinned@, Seq::empty());
        }
        Launcher { apps, filtered, pinned, selected }
    }

    /// The applications.
    pub fn apps(&self) -> (r: &Vec<AppEntry>)
        ensures
            app_views(r@) == self@.apps,
    {
        &self.apps
    }

    /// The applications that the grid shows, in order.
    pub fn filtered(&self) -> (r: &Vec<usize>)
        ensures
            r@ == self@.filtered,
    {
        &self.filtered
    }

    /// The pinned applications by their slots.
    pub fn pinned(&self) -> (r: &[Option<usize>; MAX_PINNED])
        ensures
            r@ == self@.pinned,
    {
        &self.pinned
    }

    /// What is selected.
    pub fn selected(&self) -> (r: Selection)
        ensures
            r == self@.selected,
    {
        self.selected
    }

    /// Takes in a changed query.
    pub fn filter(&mut self, query: &Query) -> (r: Outcome)
        requires
            old(self)@.wf(),
        ensures
            final(self)@.wf(),
            (final(self)@, r@) == filtered_by(old(self)@, query@),
    {
        self.filtered = build_filtered(&self.apps, &self.pinned, query.text.as_str());
        proof {
            lemma_shown_wf(self@.apps, self@.pinned, query@);
        }
        if !query.text.as_str().is_empty() {
            self.selected = Selection::Grid(0);
            return drawn_at(0);
        }
        match find_next(&self.pinned, 0) {
            Some(first) => {
                self.selected = Selection::Pinned(first);
                drawn()
            },
            None => {
                self.selected = Selection::Grid(0);
                drawn_at(0)
            },
        }
    }

    /// Whether an application is pinned.
    pub fn has_pinned(&self) -> (r: bool)
        ensures
            r == exists|i: int| 0 <= i < self@.pinned.len() && (#[trigger] self@.pinned[i]) is Some,
    {
        let r = find_next(&self.pinned, 0).is_some();
        proof {
            lemma_first_from(self@.pinned, |p: Option<usize>| p is Some, 0);
            let p = |p: Option<usize>| p is Some;
            if !r {
                assert forall|i: int| 0 <= i < self@.pinned.len() implies (
                #[trigger] self@.pinned[i]) is None by {
                    assert(!p(self@.pinned[i]));
                }
            } else {
                let k = next_pinned(self@.pinned, 0)->0;
                assert(self@.pinned[k] is Some);
            }
        }
        r
    }

    /// Goes up.
    pub fn move_up(&mut self) -> (r: Outcome)
        requires
            old(self)@.wf(),
        ensures
            final(self)@.wf(),
            (final(self)@, r@) == moved_up(old(self)@),
    {
        if let Selection::Grid(index) = self.selected {
            if index >= COLUMNS {
                self.selected = Selection::Grid(index - COLUMNS);
                return drawn_at((index - COLUMNS) / COLUMNS);
            }
            if let Some(slot) = find_last(&self.pinned, index + 1) {
                self.selected = Selection::Pinned(slot);
            } else if let Some(slot) = find_next(&self.pinned, index + 1) {
                self.selected = Selection::Pinned(slot);
            }
        }
        drawn()
    }

    /// Goes down.
    pub fn move_down(&mut self) -> (r: Outcome)
        requires
            old(self)@.wf(),
        ensures
            final(self)@.wf(),
            (final(self)@, r@) == moved_down(old(self)@),
    {
        let n: usize = self.filtered.len();
        match self.selected {
            Selection::Pinned(index) => {
                if n > 0 {
                    let place: usize = if index < n {
                        index
                    } else {
                        n - 1
                    };
                    self.selected = Selection::Grid(place);
                    return drawn_at(place / COLUMNS);
                }
            },
            Selection::Grid(index) => {
                if n > COLUMNS && index < n - COLUMNS {
                    self.selected = Selection::Grid(index + COLUMNS);
                    return drawn_at((index + COLUMNS) / COLUMNS);
                }
            },
        }
        drawn()
    }

    /// Goes left.
    pub fn move_left(&mut self) -> (r: Outcome)
        requires
            old(self)@.wf(),
        ensures
            final(self)@.wf(),
            (final(self)@, r@) == moved_left(old(self)@),
    {
        match self.selected {
            Selection::Pinned(index) => {
                if let Some(slot) = find_last(&self.pinned, index) {
                    self.selected = Selection::Pinned(slot);
                }
            },
            Selection::Grid(index) => {
                if index > 0 {
                    self.selected = Selection::Grid(index - 1);
                    return drawn_at((index - 1) / COLUMNS);
                }
                if let Some(slot) = find_last(&self.pinned, MAX_PINNED) {
                    self.selected = Selection::Pinned(slot);
                }
            },
        }
        drawn()
    }

    /// Goes right.
    pub fn move_right(&mut self) -> (r: Outcome)
        requires
            old(self)@.wf(),
        ensures
            final(self)@.wf(),
            (final(self)@, r@) == moved_right(old(self)@),
    {
        let n: usize = self.filtered.len();
        match self.selected {
            Selection::Pinned(index) => {
                if let Some(slot) = find_next(&self.pinned, index + 1) {
                    self.selected = Selection::Pinned(slot);
                } else if n > 0 {
                    self.selected = Selection::Grid(0);
                    return drawn_at(0);
                }
            },
            Selection::Grid(index) => {
                if n > 1 && index < n - 1 {
                    self.selected = Selection::Grid(index + 1);
                    return drawn_at((index + 1) / COLUMNS);
                }
            },
        }
        drawn()
    }

    fn start(&self, app: usize) -> (r: Outcome)
        requires
            app < self.apps@.len(),
        ensures
            r@ == self@.started(app),
    {
        Outcome {
            notify: false,
            quit: true,
            scroll_to: None,
            save: None,
            command: Some(self.apps[app].command.clone()),
        }
    }

    fn chosen(&self) -> (r: Option<usize>)
        requires
            self@.wf(),
        ensures
            r == self@.selected_app(),
            r matches Some(app) ==> app < self.apps@.len(),
    {
        match self.selected {
            Selection::Pinned(index) => {
                proof {
                    assert(self@.pinned[index as int] == self.pinned@[index as int]);
                }
                self.pinned[index]
            },
            Selection::Grid(index) => if index < self.filtered.len() {
                proof {
                    assert(self@.filtered[index as int] < self@.apps.len());
                }
                Some(self.filtered[index])
            } else {
                None
            },
        }
    }

    /// Starts the selected application.
    pub fn launch(&self) -> (r: Outcome)
        requires
            self@.wf(),
        ensures
            r@ == launched(self@),
    {
        match self.chosen() {
            Some(app) => self.start(app),
            None => nothing_to_do(),
        }
    }

    /// Closes the launcher.
    pub fn dismiss(&self) -> (r: Outcome)
        ensures
            r@ == (OutcomeView { quit: true, ..nothing() }),
    {
        Outcome { notify: false, quit: true, scroll_to: None, save: None, command: None }
    }

    /// What saving the pinned applications writes.
    fn save(&self) -> (r: Outcome)
        ensures
            r@ == self@.saved(),
    {
        Outcome {
            notify: true,
            quit: false,
            scroll_to: None,
            save: Some(save_pinned_apps(&self.apps, &self.pinned)),
            command: None,
        }
    }

    fn rebuild_filtered(&mut self, query: &Query)
        requires
            old(self)@.apps.len() <= usize::MAX,
            forall|i: int|
                0 <= i < MAX_PINNED && #[trigger] old(self)@.pinned[i] is Some ==> old(
                    self,
                )@.pinned[i]->0 < old(self)@.apps.len(),
            old(self)@.selected matches Selection::Pinned(i) ==> i < MAX_PINNED,
        ensures
            final(self)@.wf(),
            final(self)@ == old(self)@.rebuilt(query@),
    {
        self.filtered = build_filtered(&self.apps, &self.pinned, query.text.as_str());
        proof {
            lemma_shown_wf(self@.apps, self@.pinned, query@);
        }
        if self.filtered.len() == 0 {
            if let Some(first) = find_next(&self.pinned, 0) {
                self.selected = Selection::Pinned(first);
            }
        }
    }

    fn exchange(&mut self, a: usize, b: usize)
        requires
            old(self)@.wf(),
            a < MAX_PINNED,
            b < MAX_PINNED,
        ensures
            final(self)@.wf(),
            final(self)@ == (LauncherView {
                pinned: exchanged(old(self)@.pinned, a as int, b as int),
                ..old(self)@
            }),
    {
        let ghost before = self@.pinned;
        let kept = self.pinned[a];
        self.pinned[a] = self.pinned[b];
        self.pinned[b] = kept;
        proof {
            let after = self@.pinned;
            assert(after =~= exchanged(before, a as int, b as int));
            lemma_exchanged_contains(before, a as int, b as int);
            assert forall|i: int| 0 <= i < after.len() && #[trigger] after[i] is Some implies after[i]->0
                < self@.apps.len() by {
                if i == a {
                    assert(after[i] == before[b as int]);
                } else if i == b {
                    assert(after[i] == before[a as int]);
                } else {
                    assert(after[i] == before[i]);
                }
            }
        }
    }

    /// Moves the selected pinned application one slot to the left.
    pub fn move_pinned_left(&mut self) -> (r: Outcome)
        requires
            old(self)@.wf(),
        ensures
            final(self)@.wf(),
            (final(self)@, r@) == pin_moved_left(old(self)@),
    {
        if let Selection::Pinned(slot) = self.selected {
            if slot > 0 && self.pinned[slot].is_some() {
                self.exchange(slot, slot - 1);
                self.selected = Selection::Pinned(slot - 1);
                return self.save();
            }
        }
        nothing_to_do()
    }

    /// Moves the selected pinned application one slot to the right.
    pub fn move_pinned_right(&mut self) -> (r: Outcome)
        requires
            old(self)@.wf(),
        ensures
            final(self)@.wf(),
            (final(self)@, r@) == pin_moved_right(old(self)@),
    {
        if let Selection::Pinned(slot) = self.selected {
            if slot + 1 < MAX_PINNED && self.pinned[slot].is_some() {
                self.exchange(slot, slot + 1);
                self.selected = Selection::Pinned(slot + 1);
                return self.save();
            }
        }
        nothing_to_do()
    }

    /// Pins the selected application of the grid. `query` is what the search field asks for.
    pub fn pin(&mut self, query: &Query) -> (r: Outcome)
        requires
            old(self)@.wf(),
        ensures
            final(self)@.wf(),
            (final(self)@, r@) == pinned_selected(old(self)@, query@),
    {
        if let Selection::Grid(_) = self.selected {
            if let Some(app) = self.chosen() {
                if let Some(slot) = find_free(&self.pinned) {
                    self.pinned[slot] = Some(app);
                    self.rebuild_filtered(query);
                    self.selected = Selection::Pinned(slot);
                    return self.save();
                }
            }
        }
        nothing_to_do()
    }

    /// Unpins the selected application. `query` is what the search field asks for.
    pub fn unpin(&mut self, query: &Query) -> (r: Outcome)
        requires
            old(self)@.wf(),
        ensures
            final(self)@.wf(),
            (final(self)@, r@) == unpinned_selected(old(self)@, query@),
    {
        if let Selection::Pinned(slot) = self.selected {
            if let Some(app) = self.chosen() {
                self.pinned[slot] = None;
                self.rebuild_filtered(query);
                let mut r = self.save();
                if let Some(place) = find_index(&self.filtered, app) {
                    self.selected = Selection::Grid(place);
                    r.scroll_to = Some(place / COLUMNS);
                } else if let Some(first) = find_next(&self.pinned, 0) {
                    self.selected = Selection::Pinned(first);
                } else {
                    self.selected = Selection::Grid(0);
                }
                return r;
            }
        }
        nothing_to_do()
    }

    /// Calls on a slot: selects its application, or starts it where it is selected.
    pub fn activate_pinned(&mut self, slot: usize) -> (r: Outcome)
        requires
            old(self)@.wf(),
            slot < MAX_PINNED,
        ensures
            final(self)@.wf(),
            (final(self)@, r@) == slot_activated(old(self)@, slot),
    {
        match self.pinned[slot] {
            Some(app) => {
                proof {
                    assert(self@.pinned[slot as int] is Some);
                }
                if self.selected == Selection::Pinned(slot) {
                    self.start(app)
                } else {
                    self.selected = Selection::Pinned(slot);
                    drawn()
                }
            },
            None => nothing_to_do(),
        }
    }

    /// Pins an application in a slot. `query` is what the search field asks for.
    pub fn pin_app(&mut self, app: usize, slot: usize, query: &Query) -> (r: Outcome)
        requires
            old(self)@.wf(),
            app < old(self)@.apps.len(),
        ensures
            final(self)@.wf(),
            (final(self)@, r@) == app_pinned(old(self)@, app, slot, query@),
    {
        if find_slot(&self.pinned, app).is_some() || slot >= MAX_PINNED {
            return nothing_to_do();
        }
        self.pinned[slot] = Some(app);
        self.rebuild_filtered(query);
        self.save()
    }

    /// Moves a pinned application to a slot.
    pub fn reorder_pinned(&mut self, app: usize, slot: usize) -> (r: Outcome)
        requires
            old(self)@.wf(),
            slot < MAX_PINNED,
        ensures
            final(self)@.wf(),
            (final(self)@, r@) == pins_reordered(old(self)@, app, slot),
    {
        if let Some(old_slot) = find_slot(&self.pinned, app) {
            self.exchange(old_slot, slot);
            return self.save();
        }
        nothing_to_do()
    }

    /// Takes in an application that was dropped on a slot. `query` is what the search field asks for.
    pub fn drop_on_slot(&mut self, app: usize, slot: usize, query: &Query) -> (r: Outcome)
        requires
            old(self)@.wf(),
            app < old(self)@.apps.len(),
            slot < MAX_PINNED,
        ensures
            final(self)@.wf(),
            (final(self)@, r@) == dropped_on_slot(old(self)@, app, slot, query@),
    {
        if find_slot(&self.pinned, app).is_some() {
            self.reorder_pinned(app, slot)
        } else {
            self.pin_app(app, slot, query)
        }
    }

    /// Takes in an application that was dropped on the grid. `query` is what the search field asks for.
    pub fn drop_on_grid(&mut self, app: usize, query: &Query) -> (r: Outcome)
        requires
            old(self)@.wf(),
        ensures
            final(self)@.wf(),
            (final(self)@, r@) == dropped_on_grid(old(self)@, app, query@),
    {
        if let Some(slot) = find_slot(&self.pinned, app) {
            self.pinned[slot] = None;
            self.rebuild_filtered(query);
            let mut r = self.save();
            self.selected = Selection::Grid(0);
            r.scroll_to = Some(0);
            return r;
        }
        nothing_to_do()
    }

    /// Takes in that the pointer moves over a cell.
    pub fn hover(&mut self, over: Selection) -> (r: Outcome)
        requires
            old(self)@.wf(),
            over matches Selection::Pinned(slot) ==> slot < MAX_PINNED,
        ensures
            final(self)@.wf(),
            (final(self)@, r@) == hovered(old(self)@, over),
    {
        if self.selected == over {
            nothing_to_do()
        } else {
            self.selected = over;
            drawn()
        }
    }

    /// Takes in a click on a cell that shows an application.
    pub fn click(&self, app: usize) -> (r: Outcome)
        requires
            app < self@.apps.len(),
        ensures
            r@ == self@.started(app),
    {
        self.start(app)
    }
}

fn find_index(filtered: &Vec<usize>, app: usize) -> (r: Option<usize>)
    ensures
        match r {
            Some(k) => first_where(filtered@, |i: usize| i == app) == Some(k as int),
            None => first_where(filtered@, |i: usize| i == app) is None,
        },
{
    let ghost p = |i: usize| i == app;
    let mut i: usize = 0;
    while i < filtered.len()
        invariant
            i <= filtered@.len(),
            p == (|i: usize| i == app),
            forall|j: int| 0 <= j < i ==> !p(#[trigger] filtered@[j]),
        decreases filtered@.len() - i,
    {
        if filtered[i] == app {
            proof {
                lemma_is_first(filtered@, p, 0, i as int);
            }
            return Some(i);
        }
        i += 1;
    }
    proof {
        lemma_none_first(filtered@, p, 0);
    }
    None
}

/// Exchanging two slots keeps the applications of the row.
pub proof fn lemma_exchanged_contains(pinned: Seq<Option<usize>>, a: int, b: int)
    requires
        0 <= a < pinned.len(),
        0 <= b < pinned.len(),
    ensures
        forall|p: Option<usize>| #[trigger]
            exchanged(pinned, a, b).contains(p) == pinned.contains(p),
{
    let after = exchanged(pinned, a, b);
    assert forall|p: Option<usize>| #[trigger] after.contains(p) == pinned.contains(p) by {
        if after.contains(p) {
            let i = choose|i: int| 0 <= i < after.len() && after[i] == p;
            if i == a {
                assert(pinned[b] == p);
            } else if i == b {
                assert(pinned[a] == p);
            } else {
                assert(pinned[i] == p);
            }
        }
        if pinned.contains(p) {
            let i = choose|i: int| 0 <= i < pinned.len() && pinned[i] == p;
            if i == a {
                assert(after[b] == p);
            } else if i == b {
                assert(after[a] == p);
            } else {
                assert(after[i] == p);
            }
        }
    }
}

} // verus!
