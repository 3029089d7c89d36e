//! The Niri compositor: its workspaces and keyboard layouts, and what is asked of it.

use vstd::prelude::*;

use crate::ipc::{
    BarProvider, Choice, Effect, EffectView, LauncherProvider, NoopBarProvider, NoopSpawner,
    WorkspaceState,
};
use crate::order::{is_sorted_by, is_stable_order, law_sorting_keeps_the_items, ranks, sort_by};
use crate::shell::{command_line, command_words};
use crate::text::{to_uppercase, uppercase, views};

verus! {

/// What is asked of Niri.
#[derive(Debug, PartialEq)]
pub enum Request {
    EventStream,
    Action(Action),
}

/// What Niri is to do.
#[derive(Debug, PartialEq)]
pub enum Action {
    FocusWorkspace { reference: WorkspaceReference },
    Spawn { command: Vec<String> },
}

/// What an action holds.
pub enum ActionView {
    FocusWorkspace { reference: WorkspaceReference },
    Spawn { command: Seq<Seq<char>> },
}

impl View for Action {
    type V = ActionView;

    open spec fn view(&self) -> ActionView {
        match *self {
            Action::FocusWorkspace { reference } => ActionView::FocusWorkspace { reference },
            Action::Spawn { command } => ActionView::Spawn { command: views(command@) },
        }
    }
}

/// How a workspace is named.
#[derive(Clone, Copy, Debug, PartialEq, Eq, Structural)]
pub enum WorkspaceReference {
    Id(u64),
}

/// What Niri answers.
#[derive(Clone, Copy, Debug, PartialEq, Eq, Structural)]
pub enum Response {
    Handled,
    Other,
}

/// An answer of Niri, with its refusal as a message.
pub fn check_reply(reply: Result<Response, String>) -> (r: Result<Response, String>)
    ensures
        match reply {
            Ok(response) => r == Ok::<Response, String>(response),
            Err(error) => r is Err && r->Err_0@ == "niri error: "@ + error@,
        },
{
    match reply {
        Ok(response) => Ok(response),
        Err(error) => {
            let mut message = "niri error: ".to_owned();
            message.append(error.as_str());
            Err(message)
        },
    }
}

/// A workspace, as Niri reports it.
#[derive(Clone, Copy, Debug, PartialEq, Eq, Structural)]
pub struct Workspace {
    pub id: u64,
    pub index: u8,
    pub is_focused: bool,
}

/// The workspaces are now these.
pub struct WorkspacesChangedEvent {
    pub workspaces: Vec<Workspace>,
}

/// A workspace became the active one of its output.
pub struct WorkspaceActivatedEvent {
    pub id: u64,
    pub focused: bool,
}

/// The keyboard layouts, and which of them is in use.
pub struct KeyboardLayouts {
    pub names: Vec<String>,
    pub current_idx: u8,
}

/// The keyboard layouts are now these.
pub struct KeyboardLayoutsChangedEvent {
    pub keyboard_layouts: KeyboardLayouts,
}

/// Another keyboard layout is in use.
pub struct KeyboardLayoutSwitchedEvent {
    pub idx: u8,
}

/// What Niri reports.
#[allow(inconsistent_fields)]
pub enum Event {
    WorkspacesChanged { data: WorkspacesChangedEvent },
    WorkspaceActivated { data: WorkspaceActivatedEvent },
    KeyboardLayoutsChanged { data: KeyboardLayoutsChangedEvent },
    KeyboardLayoutSwitched { data: KeyboardLayoutSwitchedEvent },
    Other,
}

/// A workspace, as the shell keeps it.
#[derive(Clone, Copy, Debug, PartialEq, Eq, Structural)]
pub struct NiriWorkspace {
    pub id: u64,
    pub index: u8,
    pub active: bool,
}

/// The workspaces that a report stands for, in its order.
pub open spec fn reported(workspaces: Seq<Workspace>) -> Seq<NiriWorkspace> {
    Seq::new(
        workspaces.len(),
        |i: int|
            NiriWorkspace {
                id: workspaces[i].id,
                index: workspaces[i].index,
                active: workspaces[i].is_focused,
            },
    )
}

/// The indices of workspaces.
pub open spec fn indices(workspaces: Seq<NiriWorkspace>) -> Seq<u64> {
    Seq::new(workspaces.len(), |i: int| workspaces[i].index as u64)
}

/// The workspaces that a report stands for, in the order of their indices.
pub fn build_workspace_states(workspaces: &Vec<Workspace>) -> (r: Vec<NiriWorkspace>)
    ensures
        is_sorted_by(reported(workspaces@), indices(reported(workspaces@)), r@),
{
    let mut states: Vec<NiriWorkspace> = Vec::new();
    let mut keys: Vec<u64> = Vec::new();
    let mut i: usize = 0;
    while i < workspaces.len()
        invariant
            i <= workspaces@.len(),
            states@ =~= reported(workspaces@).take(i as int),
            keys@ =~= indices(reported(workspaces@)).take(i as int),
        decreases workspaces@.len() - i,
    {
        let w = workspaces[i];
        states.push(NiriWorkspace { id: w.id, index: w.index, active: w.is_focused });
        keys.push(w.index as u64);
        i += 1;
    }
    proof {
        assert(states@ =~= reported(workspaces@));
        assert(keys@ =~= indices(reported(workspaces@)));
    }
    sort_by(&states, &keys)
}

/// The workspaces with another one active.
pub open spec fn activated(workspaces: Seq<NiriWorkspace>, id: u64) -> Seq<NiriWorkspace> {
    Seq::new(
        workspaces.len(),
        |i: int| NiriWorkspace { active: workspaces[i].id == id, ..workspaces[i] },
    )
}

/// The label of the keyboard layout that is in use: its name in upper case, or nothing where there
/// is no such layout.
pub open spec fn layout_label(names: Seq<Seq<char>>, index: u8) -> Seq<char> {
    uppercase(
        if index < names.len() {
            names[index as int]
        } else {
            ""@
        },
    )
}

/// The label of the keyboard layout that is in use: its name in upper case, or nothing where there
/// is no such layout.
pub fn current_layout_label(names: &Vec<String>, index: u8) -> (r: String)
    ensures
        r@ == layout_label(views(names@), index),
        index >= names@.len() ==> r@.len() == 0,
{
    let at: usize = index as usize;
    if at < names.len() {
        to_uppercase(names[at].as_str())
    } else {
        proof {
            reveal_strlit("");
        }
        to_uppercase("")
    }
}

/// What is known of Niri.
pub struct NiriIpc {
    pub workspaces: Vec<NiriWorkspace>,
    pub layout: String,
    pub layout_names: Vec<String>,
    pub socket_path: String,
}

/// What is known of Niri.
pub struct NiriIpcView {
    pub workspaces: Seq<NiriWorkspace>,
    pub layout: Seq<char>,
    pub layout_names: Seq<Seq<char>>,
    pub socket_path: Seq<char>,
}

impl View for NiriIpc {
    type V = NiriIpcView;

    open spec fn view(&self) -> NiriIpcView {
        NiriIpcView {
            workspaces: self.workspaces@,
            layout: self.layout@,
            layout_names: views(self.layout_names@),
            socket_path: self.socket_path@,
        }
    }
}

/// Whether an event leads from one state of knowledge to another.
pub open spec fn follows(before: NiriIpcView, event: Event, after: NiriIpcView) -> bool {
    match event {
        Event::WorkspacesChanged { data } => {
            let states = reported(data.workspaces@);
            &&& is_sorted_by(states, indices(states), after.workspaces)
            &&& after == NiriIpcView { workspaces: after.workspaces, ..before }
        },
        Event::WorkspaceActivated { data } => if data.focused {
            after == NiriIpcView { workspaces: activated(before.workspaces, data.id), ..before }
        } else {
            after == before
        },
        Event::KeyboardLayoutsChanged { data } => {
            let names = views(data.keyboard_layouts.names@);
            after == NiriIpcView {
                layout_names: names,
                layout: layout_label(names, data.keyboard_layouts.current_idx),
                ..before
            }
        },
        Event::KeyboardLayoutSwitched { data } => after == NiriIpcView {
            layout: layout_label(before.layout_names, data.idx),
            ..before
        },
        Event::Other => after == before,
    }
}

impl NiriIpc {
    /// Nothing is known yet.
    pub fn new(socket_path: &str) -> (r: Self)
        ensures
            r@ == (NiriIpcView {
                workspaces: Seq::empty(),
                layout: Seq::empty(),
                layout_names: Seq::empty(),
                socket_path: socket_path@,
            }),
    {
        let r = NiriIpc {
            workspaces: Vec::new(),
            layout: String::new(),
            layout_names: Vec::new(),
            socket_path: socket_path.to_owned(),
        };
        proof {
            assert(r@.layout_names =~= Seq::empty());
            assert(r@.layout =~= Seq::empty());
        }
        r
    }

    /// Takes in an event. Says whether what is shown may have changed.
    pub fn apply(&mut self, event: Event) -> (r: bool)
        ensures
            follows(old(self)@, event, final(self)@),
            r == match event {
                Event::WorkspaceActivated { data } => data.focused,
                Event::Other => false,
                _ => true,
            },
    {
        match event {
            Event::WorkspacesChanged { data } => {
                self.workspaces = build_workspace_states(&data.workspaces);
                true
            },
            Event::WorkspaceActivated { data } => {
                if data.focused {
                    self.activate(data.id);
                }
                data.focused
            },
            Event::KeyboardLayoutsChanged { data } => {
                self.layout_names = data.keyboard_layouts.names;
                self.layout = current_layout_label(
                    &self.layout_names,
                    data.keyboard_layouts.current_idx,
                );
                true
            },
            Event::KeyboardLayoutSwitched { data } => {
                self.layout = current_layout_label(&self.layout_names, data.idx);
                true
            },
            Event::Other => false,
        }
    }

    fn activate(&mut self, id: u64)
        ensures
            final(self)@ == (NiriIpcView {
                workspaces: activated(old(self)@.workspaces, id),
                ..old(self)@
            }),
    {
        let n: usize = self.workspaces.len();
        let mut states: Vec<NiriWorkspace> = Vec::new();
        let mut i: usize = 0;
        while i < n
            invariant
                n == self.workspaces@.len(),
                i <= n,
                states@ =~= activated(self.workspaces@, id).take(i as int),
            decreases n - i,
        {
            let w = self.workspaces[i];
            states.push(NiriWorkspace { id: w.id, index: w.index, active: w.id == id });
            i += 1;
        }
        proof {
            assert(states@ =~= activated(self.workspaces@, id));
        }
        self.workspaces = states;
    }

    /// The workspaces, as the bar shows them.
    pub fn workspaces(&self) -> (r: Vec<WorkspaceState>)
        ensures
            r@ == Seq::new(
                self@.workspaces.len(),
                |i: int|
                    WorkspaceState {
                        id: self@.workspaces[i].id,
                        index: self@.workspaces[i].index as u32,
                        active: self@.workspaces[i].active,
                        occupied: true,
                    },
            ),
    {
        let mut r: Vec<WorkspaceState> = Vec::new();
        let mut i: usize = 0;
        while i < self.workspaces.len()
            invariant
                i <= self.workspaces@.len(),
                r@.len() == i,
                forall|j: int|
                    0 <= j < i ==> #[trigger] r@[j] == (WorkspaceState {
                        id: self@.workspaces[j].id,
                        index: self@.workspaces[j].index as u32,
                        active: self@.workspaces[j].active,
                        occupied: true,
                    }),
            decreases self.workspaces@.len() - i,
        {
            let w = self.workspaces[i];
            r.push(
                WorkspaceState { id: w.id, index: w.index as u32, active: w.active, occupied: true },
            );
            i += 1;
        }
        r
    }

    /// The label of the keyboard layout.
    pub fn layout(&self) -> (r: &str)
        ensures
            r@ == self@.layout,
    {
        self.layout.as_str()
    }
}

impl BarProvider for NiriIpc {
    open spec fn switching(&self, id: u64) -> EffectView {
        EffectView::Niri {
            socket_path: self@.socket_path,
            action: ActionView::FocusWorkspace { reference: WorkspaceReference::Id(id) },
        }
    }

    fn switch_workspace(&self, id: u64) -> (r: Effect) {
        Effect::Niri {
            socket_path: self.socket_path.clone(),
            action: Action::FocusWorkspace { reference: WorkspaceReference::Id(id) },
        }
    }
}

/// The provider for the bar, and whether empty workspaces are shown. Without a socket there is no
/// compositor.
pub fn create_bar_provider(socket_path: Option<&str>) -> (r: (Choice<NiriIpc, NoopBarProvider>, bool))
    ensures
        r.1,
        match socket_path {
            Some(path) => r.0 matches Choice::Compositor(ipc) && ipc@ == (NiriIpcView {
                workspaces: Seq::empty(),
                layout: Seq::empty(),
                layout_names: Seq::empty(),
                socket_path: path@,
            }),
            None => r.0 is Noop,
        },
{
    match socket_path {
        Some(path) => (Choice::Compositor(NiriIpc::new(path)), true),
        None => (Choice::Noop(NoopBarProvider), true),
    }
}

/// Starts commands through Niri.
pub struct NiriSpawner {
    pub socket_path: String,
}

impl LauncherProvider for NiriSpawner {
    open spec fn spawning(&self, command: Seq<char>) -> EffectView {
        EffectView::Niri {
            socket_path: self.socket_path@,
            action: ActionView::Spawn { command: command_words(command) },
        }
    }

    fn spawn(&self, command: &str) -> (r: Effect) {
        Effect::Niri {
            socket_path: self.socket_path.clone(),
            action: Action::Spawn { command: command_line(command) },
        }
    }
}

/// The provider for the launcher. Without a socket there is no compositor.
pub fn create_launcher_provider(socket_path: Option<&str>) -> (r: Choice<NiriSpawner, NoopSpawner>)
    ensures
        match socket_path {
            Some(path) => r matches Choice::Compositor(spawner) && spawner.socket_path@ == path@,
            None => r is Noop,
        },
{
    match socket_path {
        Some(path) => Choice::Compositor(NiriSpawner { socket_path: path.to_owned() }),
        None => Choice::Noop(NoopSpawner),
    }
}

/// A report of workspaces loses none of them: a workspace is kept exactly if it was reported.
pub proof fn law_report_is_kept(workspaces: Seq<Workspace>, states: Seq<NiriWorkspace>, w: Workspace)
    requires
        workspaces.len() <= usize::MAX,
        is_sorted_by(reported(workspaces), indices(reported(workspaces)), states),
    ensures
        states.len() == workspaces.len(),
        states.contains(
            NiriWorkspace { id: w.id, index: w.index, active: w.is_focused },
        ) == workspaces.contains(w),
{
    let s = NiriWorkspace { id: w.id, index: w.index, active: w.is_focused };
    law_sorting_keeps_the_items(reported(workspaces), indices(reported(workspaces)), states, s);
    if workspaces.contains(w) {
        let i = choose|i: int| 0 <= i < workspaces.len() && workspaces[i] == w;
        assert(reported(workspaces)[i] == s);
    }
    if reported(workspaces).contains(s) {
        let i = choose|i: int| 0 <= i < workspaces.len() && reported(workspaces)[i] == s;
        assert(workspaces[i] == w);
    }
}

/// After a workspace was activated, exactly the workspaces of its number are active.
pub proof fn law_one_workspace_is_active(workspaces: Seq<NiriWorkspace>, id: u64, i: int)
    requires
        0 <= i < workspaces.len(),
    ensures
        activated(workspaces, id)[i].active == (workspaces[i].id == id),
        activated(workspaces, id)[i].id == workspaces[i].id,
        activated(workspaces, id)[i].index == workspaces[i].index,
{
}

/// The workspaces are kept in the order of their indices.
pub proof fn law_workspaces_are_in_order(workspaces: Seq<Workspace>, states: Seq<NiriWorkspace>, i: int, j: int)
    requires
        is_sorted_by(reported(workspaces), indices(reported(workspaces)), states),
        0 <= i < j < states.len(),
    ensures
        states[i].index <= states[j].index,
{
    let all = reported(workspaces);
    let keys = indices(all);
    let order = choose|order: Seq<usize>| #[trigger]
        is_stable_order(keys, order) && states == Seq::new(order.len(), |i: int| all[order[i] as int]);
    assert(ranks(keys, order[i], order[j]));
    assert(keys[order[i] as int] == states[i].index);
    assert(keys[order[j] as int] == states[j].index);
}

/// Each event changes what it is about and nothing else.
pub proof fn law_events_change_what_they_are_about(before: NiriIpcView, event: Event, after: NiriIpcView)
    requires
        follows(before, event, after),
    ensures
        after.socket_path == before.socket_path,
        !(event is WorkspacesChanged || event is WorkspaceActivated) ==> after.workspaces
            == before.workspaces,
        !(event is KeyboardLayoutsChanged || event is KeyboardLayoutSwitched) ==> after.layout
            == before.layout,
        !(event is KeyboardLayoutsChanged) ==> after.layout_names == before.layout_names,
        event matches Event::WorkspaceActivated { data } ==> {
            &&& !data.focused ==> after.workspaces == before.workspaces
            &&& data.focused ==> after.workspaces.len() == before.workspaces.len() && forall|i: int|
                0 <= i < before.workspaces.len() ==> (#[trigger] after.workspaces[i]).active == (
                before.workspaces[i].id == data.id) && after.workspaces[i].id == before.workspaces[i].id
                    && after.workspaces[i].index == before.workspaces[i].index
        },
        event matches Event::KeyboardLayoutsChanged { data } ==> after.layout_names == views(
            data.keyboard_layouts.names@,
        ),
        event matches Event::WorkspacesChanged { data } ==> after.workspaces.len()
            == data.workspaces@.len() || data.workspaces@.len() > usize::MAX,
{
    if let Event::WorkspacesChanged { data } = event {
        let n = data.workspaces@.len();
        if n <= usize::MAX && n > 0 {
            law_report_is_kept(data.workspaces@, after.workspaces, data.workspaces@[0]);
        } else if n == 0 {
            let all = reported(data.workspaces@);
            let order = choose|order: Seq<usize>| #[trigger]
                is_stable_order(indices(all), order) && after.workspaces == Seq::new(
                    order.len(),
                    |i: int| all[order[i] as int],
                );
            assert(order.len() == 0);
        }
    }
}

/// The label is the name of the layout in use, in upper case, after a change of the layouts and after a
/// switch between them alike.
pub proof fn law_layout_label(before: NiriIpcView, event: Event, after: NiriIpcView)
    requires
        follows(before, event, after),
    ensures
        event matches Event::KeyboardLayoutsChanged { data } ==> {
            let index = data.keyboard_layouts.current_idx as int;
            &&& index < after.layout_names.len() ==> after.layout == uppercase(
                after.layout_names[index],
            )
            &&& index >= after.layout_names.len() ==> after.layout == uppercase(""@)
        },
        event matches Event::KeyboardLayoutSwitched { data } ==> {
            let index = data.idx as int;
            &&& index < before.layout_names.len() ==> after.layout == uppercase(
                before.layout_names[index],
            )
            &&& index >= before.layout_names.len() ==> after.layout == uppercase(""@)
        },
{
}

/// What is asked of Niri goes to its socket: to focus the workspace of the number, or to start the words
/// of the command.
pub proof fn law_actions(ipc: NiriIpc, spawner: NiriSpawner, id: u64, command: Seq<char>)
    ensures
        ipc.switching(id) == (EffectView::Niri {
            socket_path: ipc.socket_path@,
            action: ActionView::FocusWorkspace { reference: WorkspaceReference::Id(id) },
        }),
        spawner.spawning(command) == (EffectView::Niri {
            socket_path: spawner.socket_path@,
            action: ActionView::Spawn { command: command_words(command) },
        }),
{
}

} // verus!
