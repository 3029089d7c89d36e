//! The status of River: which objects were bound, and what the outputs report.

use std::collections::{HashMap, HashSet};

use vstd::prelude::*;

use crate::river::provider::{RiverSnapshot, RiverSnapshotView};
use crate::search::{kept, lemma_kept_contains, lemma_kept_no_duplicates, lemma_kept_step};
use crate::text::same;

verus! {

broadcast use vstd::std_specs::hash::group_hash_axioms;

/// The newest version of the status protocol that is used.
pub const MAX_MANAGER_VERSION: u32 = 2;

/// How a global object is bound.
#[derive(Clone, Copy, Debug, PartialEq, Eq, Structural)]
pub enum Binding {
    /// As the manager of the status objects, in this version.
    Manager { version: u32 },
    /// As a seat.
    Seat,
    /// As an output.
    Output,
    /// Not at all.
    Ignored,
}

/// How a global object of an interface is bound. `supported` is the newest version of the status
/// protocol that the program knows.
pub open spec fn binding_of(interface: Seq<char>, version: u32, supported: u32) -> Binding {
    if interface == "zriver_status_manager_v1"@ {
        let limit = if supported < MAX_MANAGER_VERSION {
            supported
        } else {
            MAX_MANAGER_VERSION
        };
        Binding::Manager {
            version: if version < limit {
                version
            } else {
                limit
            },
        }
    } else if interface == "wl_seat"@ {
        Binding::Seat
    } else if interface == "wl_output"@ {
        Binding::Output
    } else {
        Binding::Ignored
    }
}

/// How a global object of an interface is bound. `supported` is the newest version of the status
/// protocol that the program knows.
pub fn bind_global(interface: &str, version: u32, supported: u32) -> (r: Binding)
    ensures
        r == binding_of(interface@, version, supported),
{
    if same(interface, "zriver_status_manager_v1") {
        let limit: u32 = if supported < MAX_MANAGER_VERSION {
            supported
        } else {
            MAX_MANAGER_VERSION
        };
        let chosen: u32 = if version < limit {
            version
        } else {
            limit
        };
        Binding::Manager { version: chosen }
    } else if same(interface, "wl_seat") {
        Binding::Seat
    } else if same(interface, "wl_output") {
        Binding::Output
    } else {
        Binding::Ignored
    }
}

/// What an output reports.
#[derive(Debug)]
pub struct OutputState {
    pub focused_tags: u32,
    pub view_tags: u32,
    pub layout: String,
}

/// What the state of an output holds.
pub struct OutputStateView {
    pub focused_tags: u32,
    pub view_tags: u32,
    pub layout: Seq<char>,
}

impl View for OutputState {
    type V = OutputStateView;

    open spec fn view(&self) -> OutputStateView {
        OutputStateView {
            focused_tags: self.focused_tags,
            view_tags: self.view_tags,
            layout: self.layout@,
        }
    }
}

/// The state of an output that has reported nothing.
pub open spec fn silent() -> OutputStateView {
    OutputStateView { focused_tags: 0, view_tags: 0, layout: Seq::empty() }
}

impl Default for OutputState {
    fn default() -> (r: Self)
        ensures
            r@ == silent(),
    {
        let r = OutputState { focused_tags: 0, view_tags: 0, layout: String::new() };
        proof {
            assert(r@.layout =~= Seq::empty());
        }
        r
    }
}

/// What the bar shows of an output: where no tag is focused, the first one counts as focused.
pub open spec fn snapshot_of(state: OutputStateView) -> RiverSnapshotView {
    RiverSnapshotView {
        focused_tags: if state.focused_tags == 0 {
            1
        } else {
            state.focused_tags
        },
        view_tags: state.view_tags,
        layout: state.layout,
    }
}

/// The status objects that are to be asked for.
#[derive(Debug, PartialEq)]
pub struct StatusRequests {
    /// That of the seat.
    pub seat: bool,
    /// Those of these outputs.
    pub outputs: Vec<u64>,
}

/// What an output status reports.
pub enum OutputEvent {
    FocusedTags(u32),
    ViewTags(u32),
    UrgentTags,
    LayoutName(String),
    LayoutNameClear,
}

/// What is known of the status objects. Outputs are known by numbers that the caller gives them.
pub struct RiverStatusState {
    manager_global_name: Option<u32>,
    seat_global_name: Option<u32>,
    seat_status: bool,
    outputs: Vec<u64>,
    output_global_names: HashMap<u32, u64>,
    output_statuses: HashSet<u64>,
    output_state: HashMap<u64, OutputState>,
    focused_output: Option<u64>,
}

/// What is known of the status objects.
pub struct RiverStatusView {
    /// The global name of the manager.
    pub manager: Option<u32>,
    /// The global name of the seat.
    pub seat: Option<u32>,
    /// Whether the status of the seat was asked for.
    pub seat_status: bool,
    /// The outputs, as they came.
    pub outputs: Seq<u64>,
    /// The outputs by their global names.
    pub names: Map<u32, u64>,
    /// The outputs whose status was asked for.
    pub statuses: Set<u64>,
    /// What the outputs reported.
    pub states: Map<u64, OutputStateView>,
    /// The output that has the focus.
    pub focused: Option<u64>,
}

impl View for RiverStatusState {
    type V = RiverStatusView;

    closed spec fn view(&self) -> RiverStatusView {
        RiverStatusView {
            manager: self.manager_global_name,
            seat: self.seat_global_name,
            seat_status: self.seat_status,
            outputs: self.outputs@,
            names: self.output_global_names@,
            statuses: self.output_statuses@,
            states: self.output_state@.map_values(|s: OutputState| s@),
            focused: self.focused_output,
        }
    }
}

impl RiverStatusView {
    /// No output is listed twice, an output whose status was asked for has a state, and while there
    /// is a manager the status of every output and of the seat was asked for.
    pub open spec fn wf(self) -> bool {
        &&& self.outputs.no_duplicates()
        &&& forall|id: u64| #[trigger] self.statuses.contains(id) ==> self.states.contains_key(id)
        &&& self.manager is Some ==> forall|id: u64| #[trigger]
            self.outputs.contains(id) ==> self.statuses.contains(id)
        &&& self.manager is Some && self.seat is Some ==> self.seat_status
    }

    /// Whether the status of the seat is to be asked for.
    pub open spec fn seat_missing(self) -> bool {
        self.manager is Some && self.seat is Some && !self.seat_status
    }

    /// The outputs whose status is to be asked for.
    pub open spec fn outputs_missing(self) -> Seq<u64> {
        if self.manager is Some {
            kept(self.outputs, |id: u64| !self.statuses.contains(id))
        } else {
            Seq::empty()
        }
    }

    /// What is known once the missing status objects were asked for.
    pub open spec fn completed(self) -> Self {
        if self.manager is Some {
            RiverStatusView {
                seat_status: self.seat_status || self.seat is Some,
                statuses: self.statuses.union(self.outputs.to_set()),
                states: with_silent(
                    self.states,
                    self.outputs.to_set().difference(self.statuses),
                ),
                ..self
            }
        } else {
            self
        }
    }

    /// What is known after an output came.
    pub open spec fn with_output(self, name: u32, id: u64) -> Self {
        RiverStatusView {
            outputs: if self.outputs.contains(id) {
                self.outputs
            } else {
                self.outputs.push(id)
            },
            names: self.names.insert(name, id),
            ..self
        }
    }

    /// What is known after a global object left.
    pub open spec fn without(self, name: u32) -> Self {
        let seat_left = self.seat == Some(name);
        let v = RiverStatusView {
            manager: if self.manager == Some(name) {
                None
            } else {
                self.manager
            },
            seat: if seat_left {
                None
            } else {
                self.seat
            },
            seat_status: !seat_left && self.seat_status,
            ..self
        };
        if self.names.contains_key(name) {
            let id = self.names[name];
            RiverStatusView {
                outputs: kept(v.outputs, |o: u64| o != id),
                names: v.names.remove(name),
                statuses: v.statuses.remove(id),
                states: v.states.remove(id),
                focused: if v.focused == Some(id) {
                    None
                } else {
                    v.focused
                },
                ..v
            }
        } else {
            v
        }
    }

    /// Whether the status of an output is to be asked for when it gets the focus.
    pub open spec fn status_missing(self, id: u64) -> bool {
        self.manager is Some && !self.statuses.contains(id)
    }

    /// What is known after an output got the focus.
    pub open spec fn focusing(self, id: u64) -> Self {
        let v = if self.status_missing(id) {
            RiverStatusView {
                statuses: self.statuses.insert(id),
                states: with_silent(self.states, set![id]),
                ..self
            }
        } else {
            self
        };
        RiverStatusView { focused: Some(id), ..v }
    }

    /// What is known after an output lost the focus.
    pub open spec fn unfocusing(self, id: u64) -> Self {
        if self.focused == Some(id) {
            RiverStatusView { focused: None, ..self }
        } else {
            self
        }
    }

    /// What an output reported.
    pub open spec fn state(self, id: u64) -> OutputStateView {
        if self.states.contains_key(id) {
            self.states[id]
        } else {
            silent()
        }
    }

    /// What is known after a report of an output.
    pub open spec fn reporting(self, id: u64, event: OutputEvent) -> Self {
        let state = self.state(id);
        let after = match event {
            OutputEvent::FocusedTags(tags) => OutputStateView { focused_tags: tags, ..state },
            OutputEvent::ViewTags(tags) => OutputStateView { view_tags: tags, ..state },
            OutputEvent::UrgentTags => state,
            OutputEvent::LayoutName(name) => OutputStateView { layout: name@, ..state },
            OutputEvent::LayoutNameClear => OutputStateView { layout: Seq::empty(), ..state },
        };
        RiverStatusView { states: self.states.insert(id, after), ..self }
    }

    /// Whether `r` is what the bar is to show: the output that has the focus, or, where that is not
    /// known, any output.
    pub open spec fn shows(self, r: Option<RiverSnapshotView>) -> bool {
        if self.focused is Some && self.states.contains_key(self.focused->0) {
            r == Some(snapshot_of(self.states[self.focused->0]))
        } else {
            match r {
                Some(s) => exists|id: u64| #[trigger]
                    self.states.contains_key(id) && s == snapshot_of(self.states[id]),
                None => forall|id: u64| !#[trigger] self.states.contains_key(id),
            }
        }
    }
}

/// States with silent ones for those of `ids` that have none.
pub open spec fn with_silent(states: Map<u64, OutputStateView>, ids: Set<u64>) -> Map<
    u64,
    OutputStateView,
> {
    Map::new(
        |id: u64| states.contains_key(id) || ids.contains(id),
        |id: u64|
            if states.contains_key(id) {
                states[id]
            } else {
                silent()
            },
    )
}

/// What a snapshot holds, if there is one.
pub open spec fn snapshot_view(r: Option<RiverSnapshot>) -> Option<RiverSnapshotView> {
    match r {
        Some(s) => Some(s@),
        None => None,
    }
}

impl RiverStatusState {
    /// Nothing is known yet.
    pub fn new() -> (r: Self)
        ensures
            r@.wf(),
            r@ == (RiverStatusView {
                manager: None,
                seat: None,
                seat_status: false,
                outputs: Seq::empty(),
                names: Map::empty(),
                statuses: Set::empty(),
                states: Map::empty(),
                focused: None,
            }),
    {
        let r = RiverStatusState {
            manager_global_name: None,
            seat_global_name: None,
            seat_status: false,
            outputs: Vec::new(),
            output_global_names: HashMap::new(),
            output_statuses: HashSet::new(),
            output_state: HashMap::new(),
            focused_output: None,
        };
        proof {
            assert(r@.states =~= Map::empty());
        }
        r
    }

    fn ensure_state(&mut self, id: u64)
        ensures
            final(self)@ == (RiverStatusView {
                states: with_silent(old(self)@.states, set![id]),
                ..old(self)@
            }),
    {
        let ghost before = self@.states;
        if !self.output_state.contains_key(&id) {
            self.output_state.insert(id, OutputState::default());
        }
        proof {
            assert(self@.states =~= with_silent(before, set![id]));
        }
    }

    fn bind_status_objects(&mut self) -> (r: StatusRequests)
        requires
            old(self)@.outputs.no_duplicates(),
        ensures
            final(self)@ == old(self)@.completed(),
            r.seat == old(self)@.seat_missing(),
            r.outputs@ == old(self)@.outputs_missing(),
    {
        let mut outputs: Vec<u64> = Vec::new();
        if self.manager_global_name.is_none() {
            return StatusRequests { seat: false, outputs };
        }
        let ghost before = self@;
        let seat = !self.seat_status && self.seat_global_name.is_some();
        if seat {
            self.seat_status = true;
        }
        let ghost p = |id: u64| !before.statuses.contains(id);
        let n: usize = self.outputs.len();
        let mut i: usize = 0;
        proof {
            assert(before.outputs.take(0) =~= Seq::empty());
            assert(before.outputs.take(0).to_set() =~= Set::empty());
            assert(before.statuses.union(before.outputs.take(0).to_set()) =~= before.statuses);
            assert(with_silent(
                before.states,
                before.outputs.take(0).to_set().difference(before.statuses),
            ) =~= before.states);
        }
        while i < n
            invariant
                n == before.outputs.len(),
                i <= n,
                before.outputs.no_duplicates(),
                before.manager is Some,
                p == (|id: u64| !before.statuses.contains(id)),
                outputs@ == kept(before.outputs.take(i as int), p),
                self@ == (RiverStatusView {
                    seat_status: before.seat_status || before.seat is Some,
                    statuses: before.statuses.union(before.outputs.take(i as int).to_set()),
                    states: with_silent(
                        before.states,
                        before.outputs.take(i as int).to_set().difference(before.statuses),
                    ),
                    ..before
                }),
            decreases n - i,
        {
            let id: u64 = self.outputs[i];
            let ghost done = before.outputs.take(i as int);
            let ghost more = before.outputs.take(i + 1);
            proof {
                lemma_kept_step(before.outputs, p, i as int);
                assert(more =~= done.push(id));
                assert(!done.contains(id)) by {
                    if done.contains(id) {
                        let j = choose|j: int| 0 <= j < done.len() && done[j] == id;
                        assert(before.outputs[j] == before.outputs[i as int]);
                    }
                }
                assert forall|x: u64| more.contains(x) == (done.contains(x) || x == id) by {
                    if more.contains(x) {
                        let j = choose|j: int| 0 <= j < more.len() && more[j] == x;
                        if j < done.len() {
                            assert(done[j] == x);
                        }
                    }
                    if done.contains(x) {
                        let j = choose|j: int| 0 <= j < done.len() && done[j] == x;
                        assert(more[j] == x);
                    }
                    assert(more[i as int] == id);
                }
                assert(more.to_set() =~= done.to_set().insert(id));
                assert(!done.to_set().contains(id));
            }
            if !self.output_statuses.contains(&id) {
                self.output_statuses.insert(id);
                self.ensure_state(id);
                outputs.push(id);
            }
            proof {
                assert(self@.statuses =~= before.statuses.union(more.to_set()));
                assert(self@.states =~= with_silent(
                    before.states,
                    more.to_set().difference(before.statuses),
                ));
            }
            i += 1;
        }
        proof {
            assert(before.outputs.take(i as int) =~= before.outputs);
        }
        StatusRequests { seat, outputs }
    }

    /// Notes that the manager was bound. Says which status objects are to be asked for.
    pub fn bound_manager(&mut self, name: u32) -> (r: StatusRequests)
        requires
            old(self)@.wf(),
        ensures
            final(self)@.wf(),
            ({
                let v = RiverStatusView { manager: Some(name), ..old(self)@ };
                &&& final(self)@ == v.completed()
                &&& r.seat == v.seat_missing()
                &&& r.outputs@ == v.outputs_missing()
            }),
    {
        self.manager_global_name = Some(name);
        let ghost v = self@;
        let r = self.bind_status_objects();
        proof {
            lemma_completed(v);
        }
        r
    }

    /// Notes that a seat was bound. Says which status objects are to be asked for.
    pub fn bound_seat(&mut self, name: u32) -> (r: StatusRequests)
        requires
            old(self)@.wf(),
        ensures
            final(self)@.wf(),
            ({
                let v = RiverStatusView { seat: Some(name), ..old(self)@ };
                &&& final(self)@ == v.completed()
                &&& r.seat == v.seat_missing()
                &&& r.outputs@ == v.outputs_missing()
            }),
    {
        self.seat_global_name = Some(name);
        let ghost v = self@;
        let r = self.bind_status_objects();
        proof {
            lemma_completed(v);
        }
        r
    }

    /// Notes that an output was bound. Says which status objects are to be asked for.
    pub fn bound_output(&mut self, name: u32, id: u64) -> (r: StatusRequests)
        requires
            old(self)@.wf(),
        ensures
            final(self)@.wf(),
            ({
                let v = old(self)@.with_output(name, id);
                &&& final(self)@ == v.completed()
                &&& r.seat == v.seat_missing()
                &&& r.outputs@ == v.outputs_missing()
            }),
    {
        let ghost before = self@;
        let known = self.has_output(id);
        if !known {
            self.outputs.push(id);
            proof {
                let all = self@.outputs;
                assert forall|i: int, j: int|
                    0 <= i < all.len() && 0 <= j < all.len() && i != j implies all[i] != all[j] by {
                    if i == all.len() - 1 {
                        assert(before.outputs[j] != id);
                    } else if j == all.len() - 1 {
                        assert(before.outputs[i] != id);
                    } else {
                        assert(before.outputs[i] != before.outputs[j]);
                    }
                }
            }
        }
        self.output_global_names.insert(name, id);
        let ghost v = self@;
        proof {
            assert(v == before.with_output(name, id));
        }
        let r = self.bind_status_objects();
        proof {
            lemma_completed(v);
        }
        r
    }

    fn has_output(&self, id: u64) -> (r: bool)
        ensures
            r == self@.outputs.contains(id),
    {
        let mut i: usize = 0;
        while i < self.outputs.len()
            invariant
                i <= self.outputs@.len(),
                forall|j: int| 0 <= j < i ==> #[trigger] self@.outputs[j] != id,
            decreases self.outputs@.len() - i,
        {
            if self.outputs[i] == id {
                proof {
                    assert(self@.outputs[i as int] == id);
                }
                return true;
            }
            i += 1;
        }
        false
    }

    fn drop_output(&mut self, id: u64)
        ensures
            final(self)@ == (RiverStatusView {
                outputs: kept(old(self)@.outputs, |o: u64| o != id),
                ..old(self)@
            }),
    {
        let ghost all = self@.outputs;
        let ghost p = |o: u64| o != id;
        let n: usize = self.outputs.len();
        let mut rest: Vec<u64> = Vec::new();
        let mut i: usize = 0;
        proof {
            assert(all.take(0) =~= Seq::empty());
        }
        while i < n
            invariant
                n == all.len(),
                i <= n,
                all == self.outputs@,
                p == (|o: u64| o != id),
                rest@ == kept(all.take(i as int), p),
            decreases n - i,
        {
            proof {
                lemma_kept_step(all, p, i as int);
            }
            let o: u64 = self.outputs[i];
            if o != id {
                rest.push(o);
            }
            i += 1;
        }
        proof {
            assert(all.take(i as int) =~= all);
        }
        self.outputs = rest;
    }

    /// Takes in that a global object left. Gives what the bar is to show, where an output left.
    pub fn global_removed(&mut self, name: u32) -> (r: Option<RiverSnapshot>)
        requires
            old(self)@.wf(),
        ensures
            final(self)@.wf(),
            final(self)@ == old(self)@.without(name),
            if old(self)@.names.contains_key(name) {
                final(self)@.shows(snapshot_view(r))
            } else {
                r is None
            },
    {
        let ghost before = self@;
        if self.manager_global_name == Some(name) {
            self.manager_global_name = None;
        }
        if self.seat_global_name == Some(name) {
            self.seat_global_name = None;
            self.seat_status = false;
        }
        match self.output_global_names.remove(&name) {
            Some(id) => {
                self.drop_output(id);
                self.output_statuses.remove(&id);
                let ghost states = self@.states;
                self.output_state.remove(&id);
                proof {
                    assert(self@.states =~= states.remove(id));
                }
                if self.focused_output == Some(id) {
                    self.focused_output = None;
                }
                proof {
                    assert(self@ == before.without(name));
                    lemma_without(before, name);
                }
                self.snapshot()
            },
            None => {
                proof {
                    assert(self@.names =~= before.names);
                    assert(self@ == before.without(name));
                }
                None
            },
        }
    }

    /// Takes in that an output got the focus. Says whether its status is to be asked for, and gives
    /// what the bar is to show.
    pub fn focused_output(&mut self, id: u64) -> (r: (bool, Option<RiverSnapshot>))
        requires
            old(self)@.wf(),
        ensures
            final(self)@.wf(),
            final(self)@ == old(self)@.focusing(id),
            r.0 == old(self)@.status_missing(id),
            final(self)@.shows(snapshot_view(r.1)),
    {
        let missing = self.manager_global_name.is_some() && !self.output_statuses.contains(&id);
        if missing {
            self.output_statuses.insert(id);
            self.ensure_state(id);
        }
        self.focused_output = Some(id);
        let snapshot = self.snapshot();
        (missing, snapshot)
    }

    /// Takes in that an output lost the focus. Gives what the bar is to show, where it had it.
    pub fn unfocused_output(&mut self, id: u64) -> (r: Option<RiverSnapshot>)
        requires
            old(self)@.wf(),
        ensures
            final(self)@.wf(),
            final(self)@ == old(self)@.unfocusing(id),
            if old(self)@.focused == Some(id) {
                final(self)@.shows(snapshot_view(r))
            } else {
                r is None
            },
    {
        if self.focused_output == Some(id) {
            self.focused_output = None;
            self.snapshot()
        } else {
            None
        }
    }

    /// Takes in a report of an output. Gives what the bar is to show, except after a report of urgent
    /// tags.
    pub fn output_event(&mut self, id: u64, event: OutputEvent) -> (r: Option<RiverSnapshot>)
        requires
            old(self)@.wf(),
        ensures
            final(self)@.wf(),
            final(self)@ == old(self)@.reporting(id, event),
            if event is UrgentTags {
                r is None
            } else {
                final(self)@.shows(snapshot_view(r))
            },
    {
        let ghost before = self@;
        let mut state = match self.output_state.remove(&id) {
            Some(state) => state,
            None => OutputState::default(),
        };
        proof {
            assert(state@ == before.state(id));
        }
        let mut urgent = false;
        let ghost given = event;
        match event {
            OutputEvent::FocusedTags(tags) => {
                state.focused_tags = tags;
            },
            OutputEvent::ViewTags(tags) => {
                state.view_tags = tags;
            },
            OutputEvent::UrgentTags => {
                urgent = true;
            },
            OutputEvent::LayoutName(name) => {
                state.layout = name;
            },
            OutputEvent::LayoutNameClear => {
                state.layout = String::new();
                proof {
                    assert(state@.layout =~= Seq::empty());
                }
            },
        }
        let ghost after = state@;
        self.output_state.insert(id, state);
        proof {
            assert(self@.states =~= before.states.insert(id, after));
            assert(self@ == before.reporting(id, given));
        }
        if urgent {
            None
        } else {
            self.snapshot()
        }
    }

    fn snapshot(&self) -> (r: Option<RiverSnapshot>)
        ensures
            self@.shows(snapshot_view(r)),
    {
        if let Some(id) = self.focused_output {
            if let Some(state) = self.output_state.get(&id) {
                let r = Some(taken(state));
                proof {
                    assert(self@.states[id] == state@);
                }
                return r;
            }
        }
        for (id, state) in it: self.output_state.iter()
            invariant
                forall|k: u64| #[trigger]
                    self.output_state@.contains_key(k) ==> it.seq().contains(
                        (&k, &self.output_state@[k]),
                    ),
                forall|i: int|
                    0 <= i < it.seq().len() ==> self.output_state@.contains_key(
                        *(#[trigger] it.seq()[i]).0,
                    ) && self.output_state@[*it.seq()[i].0] == *it.seq()[i].1,
                it.index() == 0,
                !(self@.focused is Some && self@.states.contains_key(self@.focused->0)),
        {
            proof {
                assert(it.seq()[it.index() as int] == (id, state));
            }
            let r = Some(taken(state));
            proof {
                assert(self@.states.contains_key(*id));
                assert(self@.states[*id] == state@);
            }
            return r;
        }
        proof {
            assert forall|id: u64| !#[trigger] self@.states.contains_key(id) by {
                assert(!self.output_state@.contains_key(id));
            }
        }
        None
    }
}

fn taken(state: &OutputState) -> (r: RiverSnapshot)
    ensures
        r@ == snapshot_of(state@),
{
    let focused_tags: u32 = if state.focused_tags == 0 {
        1
    } else {
        state.focused_tags
    };
    RiverSnapshot { focused_tags, view_tags: state.view_tags, layout: state.layout.clone() }
}

proof fn lemma_completed(v: RiverStatusView)
    requires
        v.outputs.no_duplicates(),
        forall|id: u64| #[trigger] v.statuses.contains(id) ==> v.states.contains_key(id),
    ensures
        v.completed().wf(),
{
    let w = v.completed();
    if v.manager is Some {
        assert forall|id: u64| #[trigger] w.outputs.contains(id) implies w.statuses.contains(id) by {
            assert(v.outputs.to_set().contains(id));
        }
        assert forall|id: u64| #[trigger] w.statuses.contains(id) implies w.states.contains_key(id) by {
            if v.statuses.contains(id) {
                assert(v.states.contains_key(id));
            } else {
                assert(v.outputs.to_set().contains(id));
            }
        }
    }
}

proof fn lemma_without(v: RiverStatusView, name: u32)
    requires
        v.wf(),
    ensures
        v.without(name).wf(),
{
    let w = v.without(name);
    if v.names.contains_key(name) {
        let gone = v.names[name];
        let p = |o: u64| o != gone;
        lemma_kept_no_duplicates(v.outputs, p);
        assert forall|id: u64| #[trigger] w.outputs.contains(id) implies v.outputs.contains(id) && id
            != gone by {
            lemma_kept_contains(v.outputs, p, id);
        }
    }
}

/// An output that left is forgotten: it is neither listed nor known by its name, has no state, and
/// does not have the focus. All other outputs stay.
pub proof fn law_output_that_left_is_forgotten(v: RiverStatusView, name: u32, other: u64)
    requires
        v.wf(),
        v.names.contains_key(name),
    ensures
        ({
            let id = v.names[name];
            let w = v.without(name);
            &&& !w.outputs.contains(id)
            &&& !w.names.contains_key(name)
            &&& !w.statuses.contains(id)
            &&& !w.states.contains_key(id)
            &&& w.focused != Some(id)
            &&& other != id ==> w.outputs.contains(other) == v.outputs.contains(other)
            &&& other != id && v.states.contains_key(other) ==> w.states.contains_key(other)
                && w.states[other] == v.states[other]
        }),
{
    let id = v.names[name];
    let p = |o: u64| o != id;
    lemma_kept_contains(v.outputs, p, id);
    lemma_kept_contains(v.outputs, p, other);
}

/// The status of an output is asked for once: after the missing status objects were asked for, none
/// is missing.
pub proof fn law_nothing_is_asked_for_twice(v: RiverStatusView)
    requires
        v.wf(),
    ensures
        v.manager is Some ==> v.outputs_missing().len() == 0 && !v.seat_missing(),
        v.manager is Some ==> v.completed() == v,
{
    if v.manager is Some {
        let p = |id: u64| !v.statuses.contains(id);
        if v.outputs_missing().len() > 0 {
            let id = v.outputs_missing()[0];
            assert(v.outputs_missing().contains(id));
            lemma_kept_contains(v.outputs, p, id);
            assert(v.outputs.contains(id));
        }
        assert(v.statuses.union(v.outputs.to_set()) =~= v.statuses) by {
            assert forall|id: u64| v.outputs.to_set().contains(id) implies v.statuses.contains(id) by {
                assert(v.outputs.contains(id));
            }
        }
        assert(with_silent(v.states, v.outputs.to_set().difference(v.statuses)) =~= v.states) by {
            assert forall|id: u64|
                v.outputs.to_set().difference(v.statuses).contains(id) implies false by {
                assert(v.outputs.contains(id));
            }
        }
    }
}

/// What an output reports reaches the bar while it has the focus.
pub proof fn law_report_of_the_focused_output_is_shown(
    v: RiverStatusView,
    id: u64,
    event: OutputEvent,
    r: RiverSnapshotView,
)
    requires
        v.focused == Some(id),
        v.reporting(id, event).shows(Some(r)),
    ensures
        match event {
            OutputEvent::FocusedTags(tags) => r.focused_tags == (if tags == 0 {
                1
            } else {
                tags
            }),
            OutputEvent::ViewTags(tags) => r.view_tags == tags,
            OutputEvent::UrgentTags => true,
            OutputEvent::LayoutName(name) => r.layout == name@,
            OutputEvent::LayoutNameClear => r.layout.len() == 0,
        },
        r.focused_tags != 0,
{
}

/// Global objects are bound by their interface: the manager in the newest version that River, the
/// protocol description and this program know, a seat, an output, and nothing else.
pub proof fn law_bindings(interface: Seq<char>, version: u32, supported: u32)
    ensures
        interface == "zriver_status_manager_v1"@ ==> (binding_of(interface, version, supported) matches Binding::Manager {
            version: v,
        } && v <= version && v <= supported && v <= 2 && (v == version || v == supported || v == 2)),
        binding_of(interface, version, supported) is Manager <==> interface
            == "zriver_status_manager_v1"@,
        binding_of(interface, version, supported) is Seat <==> interface == "wl_seat"@,
        binding_of(interface, version, supported) is Output <==> interface == "wl_output"@,
{
    reveal_strlit("zriver_status_manager_v1");
    reveal_strlit("wl_seat");
    reveal_strlit("wl_output");
    assert("zriver_status_manager_v1"@[0] == 'z');
    assert("wl_seat"@.len() != "wl_output"@.len());
    assert("wl_seat"@[0] == 'w' && "wl_output"@[0] == 'w');
}

/// A report changes what it is about on its own output, and nothing else anywhere.
pub proof fn law_reports_change_what_they_are_about(v: RiverStatusView, id: u64, event: OutputEvent, other: u64)
    ensures
        ({
            let w = v.reporting(id, event);
            &&& w.manager == v.manager && w.seat == v.seat && w.seat_status == v.seat_status
            &&& w.outputs == v.outputs && w.names == v.names && w.statuses == v.statuses
            &&& w.focused == v.focused
            &&& w.states.contains_key(id)
            &&& other != id ==> w.states.contains_key(other) == v.states.contains_key(other)
                && w.states[other] == v.states[other]
            &&& w.states[id].focused_tags == (match event {
                OutputEvent::FocusedTags(tags) => tags,
                _ => v.state(id).focused_tags,
            })
            &&& w.states[id].view_tags == (match event {
                OutputEvent::ViewTags(tags) => tags,
                _ => v.state(id).view_tags,
            })
            &&& event matches OutputEvent::LayoutName(name) ==> w.states[id].layout == name@
            &&& event is LayoutNameClear ==> w.states[id].layout.len() == 0
            &&& !(event is LayoutName || event is LayoutNameClear) ==> w.states[id].layout == v.state(
                id,
            ).layout
        }),
        !v.states.contains_key(id) ==> v.state(id).focused_tags == 0 && v.state(id).view_tags == 0
            && v.state(id).layout.len() == 0,
        v.states.contains_key(id) ==> v.state(id) == v.states[id],
{
}

/// What is shown is the state of one output, that which has the focus where it is known; without any
/// focused tag the first one counts as focused.
pub proof fn law_shown_output(v: RiverStatusView, id: u64, r: RiverSnapshotView)
    requires
        v.shows(Some(r)),
        v.focused == Some(id),
        v.states.contains_key(id),
    ensures
        r.view_tags == v.states[id].view_tags,
        r.layout == v.states[id].layout,
        v.states[id].focused_tags != 0 ==> r.focused_tags == v.states[id].focused_tags,
        v.states[id].focused_tags == 0 ==> r.focused_tags == 1,
{
}

/// The focus is where it was put last: an output gets it, and loses it only by being told so itself.
pub proof fn law_focus(v: RiverStatusView, id: u64, other: u64)
    ensures
        v.focusing(id).focused == Some(id),
        v.focusing(id).unfocusing(id).focused is None,
        other != id ==> v.focusing(id).unfocusing(other).focused == Some(id),
        v.focusing(id).outputs == v.outputs && v.focusing(id).names == v.names,
        v.focusing(id).manager == v.manager && v.focusing(id).seat == v.seat,
        v.states.contains_key(other) ==> v.focusing(id).states.contains_key(other) && v.focusing(
            id,
        ).states[other] == v.states[other],
        v.unfocusing(id).states == v.states && v.unfocusing(id).outputs == v.outputs,
        v.status_missing(id) <==> v.manager is Some && !v.statuses.contains(id),
        v.manager is Some ==> v.focusing(id).statuses.contains(id),
{
}

/// While there is a manager, the status of every output and of the seat is asked for, once, and each
/// output whose status is asked for has a state.
pub proof fn law_statuses_are_asked_for(v: RiverStatusView, id: u64)
    requires
        v.manager is Some,
    ensures
        v.outputs_missing().contains(id) <==> v.outputs.contains(id) && !v.statuses.contains(id),
        v.seat_missing() <==> v.seat is Some && !v.seat_status,
        v.completed().statuses.contains(id) <==> v.statuses.contains(id) || v.outputs.contains(id),
        v.outputs.contains(id) && !v.statuses.contains(id) ==> v.completed().states.contains_key(id),
        v.states.contains_key(id) ==> v.completed().states.contains_key(id)
            && v.completed().states[id] == v.states[id],
        v.completed().seat_status <==> v.seat_status || v.seat is Some,
        v.completed().outputs == v.outputs && v.completed().names == v.names && v.completed().focused
            == v.focused,
        (RiverStatusView { manager: None, ..v }).completed() == (RiverStatusView { manager: None, ..v }),
        (RiverStatusView { manager: None, ..v }).outputs_missing().len() == 0,
{
    lemma_kept_contains(v.outputs, |id: u64| !v.statuses.contains(id), id);
}

/// A global object that leaves takes only itself along: the manager, the seat with its status, or an
/// output.
pub proof fn law_leaving_takes_only_itself(v: RiverStatusView, name: u32)
    ensures
        v.without(name).manager == (if v.manager == Some(name) {
            None
        } else {
            v.manager
        }),
        v.without(name).seat == (if v.seat == Some(name) {
            None
        } else {
            v.seat
        }),
        v.without(name).seat_status <==> v.seat_status && v.seat != Some(name),
        !v.names.contains_key(name) ==> v.without(name).outputs == v.outputs && v.without(name).states
            == v.states && v.without(name).statuses == v.statuses && v.without(name).focused
            == v.focused,
        v.names.contains_key(name) && v.focused != Some(v.names[name]) ==> v.without(name).focused
            == v.focused,
{
}

/// An output that comes is listed once and known by its name; all others stay as they are.
pub proof fn law_outputs_come(v: RiverStatusView, name: u32, id: u64, other: u64)
    ensures
        v.with_output(name, id).outputs.contains(id),
        other != id ==> v.with_output(name, id).outputs.contains(other) == v.outputs.contains(other),
        v.with_output(name, id).names.contains_key(name) && v.with_output(name, id).names[name] == id,
        v.with_output(name, id).states == v.states && v.with_output(name, id).statuses == v.statuses,
        v.with_output(name, id).focused == v.focused && v.with_output(name, id).manager == v.manager,
{
    let all = v.with_output(name, id).outputs;
    if !v.outputs.contains(id) {
        assert(all[all.len() - 1] == id);
    }
    if v.outputs.contains(other) {
        let i = choose|i: int| 0 <= i < v.outputs.len() && v.outputs[i] == other;
        assert(all[i] == other);
    }
    if all.contains(other) && other != id {
        let i = choose|i: int| 0 <= i < all.len() && all[i] == other;
        assert(v.outputs[i] == other);
    }
}

/// Something is shown as soon as an output has a state, and then it is what one of the outputs reported.
pub proof fn law_something_is_shown(v: RiverStatusView, r: Option<RiverSnapshotView>)
    requires
        v.shows(r),
    ensures
        r is Some <==> exists|id: u64| #[trigger] v.states.contains_key(id),
        r matches Some(s) ==> exists|id: u64| #[trigger]
            v.states.contains_key(id) && s.view_tags == v.states[id].view_tags && s.layout
                == v.states[id].layout && (s.focused_tags == v.states[id].focused_tags
                || v.states[id].focused_tags == 0 && s.focused_tags == 1),
{
    if v.focused is Some && v.states.contains_key(v.focused->0) {
        assert(v.states.contains_key(v.focused->0));
    }
}

} // verus!
