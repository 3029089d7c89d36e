//! The Hyprland compositor: its workspaces and keyboard layout, and what is asked of it.

use vstd::prelude::*;

use crate::ipc::{
    BarProvider, Choice, Effect, EffectView, LauncherProvider, NoopBarProvider, NoopSpawner,
    WorkspaceState,
};
use crate::number::{decimal, decimal_text};
use crate::order::{is_sorted_by, is_stable_order, law_sorting_keeps_the_items, ranks, sort_by};
use crate::search::{
    first_where, kept, lemma_is_first, lemma_kept_contains, lemma_kept_len, lemma_kept_step,
    lemma_none_first,
};
use crate::text::{cut, join_path, path_join, same, split_once};

verus! {

/// A workspace, as Hyprland reports it.
#[derive(Clone, Copy, Debug, PartialEq, Eq, Structural)]
pub struct Workspace {
    pub id: i32,
    pub windows: u32,
}

/// The workspace that is in use.
#[derive(Clone, Copy, Debug, PartialEq, Eq, Structural)]
pub struct ActiveWorkspace {
    pub id: i32,
}

/// A keyboard.
pub struct Keyboard {
    pub name: String,
    pub active_keymap: String,
}

/// The input devices.
pub struct Devices {
    pub keyboards: Vec<Keyboard>,
}

/// A workspace, as the shell keeps it.
#[derive(Clone, Copy, Debug, PartialEq, Eq, Structural)]
pub struct HyprlandWorkspace {
    pub id: u32,
    pub active: bool,
    pub occupied: bool,
}

// ---------------------------------------------------------------------------
// Workspaces
// ---------------------------------------------------------------------------

/// The workspaces that have an ordinary number. The others are special.
pub open spec fn numbered(workspaces: Seq<Workspace>) -> Seq<Workspace> {
    kept(workspaces, |w: Workspace| w.id > 0)
}

/// The state of a workspace, where `active` is in use.
pub open spec fn state_of(w: Workspace, active: i32) -> HyprlandWorkspace {
    HyprlandWorkspace { id: w.id as u32, active: w.id == active, occupied: w.windows > 0 }
}

/// The states of the numbered workspaces, in the order in which they were reported.
pub open spec fn reported(workspaces: Seq<Workspace>, active: i32) -> Seq<HyprlandWorkspace> {
    Seq::new(numbered(workspaces).len(), |i: int| state_of(numbered(workspaces)[i], active))
}

/// The numbers of workspaces.
pub open spec fn numbers(states: Seq<HyprlandWorkspace>) -> Seq<u64> {
    Seq::new(states.len(), |i: int| states[i].id as u64)
}

/// Whether `states` are those of the numbered workspaces, in the order of their numbers.
pub open spec fn are_states(
    workspaces: Seq<Workspace>,
    active: i32,
    states: Seq<HyprlandWorkspace>,
) -> bool {
    is_sorted_by(reported(workspaces, active), numbers(reported(workspaces, active)), states)
}

/// The states of the numbered workspaces, in the order of their numbers.
pub fn build_workspace_states(workspaces: &Vec<Workspace>, active: &ActiveWorkspace) -> (r: Vec<
    HyprlandWorkspace,
>)
    ensures
        are_states(workspaces@, active.id, r@),
{
    let ghost all = workspaces@;
    let ghost p = |w: Workspace| w.id > 0;
    let mut states: Vec<HyprlandWorkspace> = Vec::new();
    let mut keys: Vec<u64> = Vec::new();
    let mut i: usize = 0;
    proof {
        assert(all.take(0) =~= Seq::empty());
    }
    while i < workspaces.len()
        invariant
            i <= all.len(),
            all == workspaces@,
            p == (|w: Workspace| w.id > 0),
            states@.len() == kept(all.take(i as int), p).len(),
            keys@.len() == states@.len(),
            forall|j: int|
                0 <= j < states@.len() ==> #[trigger] states@[j] == state_of(
                    kept(all.take(i as int), p)[j],
                    active.id,
                ),
            forall|j: int| 0 <= j < states@.len() ==> #[trigger] keys@[j] == states@[j].id,
        decreases all.len() - i,
    {
        let w = workspaces[i];
        proof {
            lemma_kept_step(all, p, i as int);
        }
        if w.id > 0 {
            states.push(
                HyprlandWorkspace {
                    id: w.id as u32,
                    active: w.id == active.id,
                    occupied: w.windows > 0,
                },
            );
            keys.push(w.id as u64);
        }
        i += 1;
    }
    proof {
        assert(all.take(i as int) =~= all);
        assert(states@ =~= reported(all, active.id));
        assert(keys@ =~= numbers(reported(all, active.id)));
    }
    sort_by(&states, &keys)
}

/// The workspaces are kept in the order of their positive numbers, a workspace that was reported
/// under one is among them, and exactly the one in use is active.
pub proof fn law_numbered_workspaces_are_kept(
    workspaces: Seq<Workspace>,
    active: i32,
    states: Seq<HyprlandWorkspace>,
    w: Workspace,
)
    requires
        workspaces.len() <= usize::MAX,
        are_states(workspaces, active, states),
    ensures
        forall|i: int, j: int|
            0 <= i < j < states.len() ==> (#[trigger] states[i]).id <= (#[trigger] states[j]).id,
        forall|i: int|
            0 <= i < states.len() ==> (#[trigger] states[i]).id > 0 && states[i].active == (
            states[i].id == active),
        w.id > 0 && workspaces.contains(w) ==> states.contains(state_of(w, active)),
{
    let all = reported(workspaces, active);
    let keys = numbers(all);
    let p = |w: Workspace| w.id > 0;
    lemma_kept_len(workspaces, p);
    let order = choose|order: Seq<usize>| #[trigger]
        is_stable_order(keys, order) && states == Seq::new(
            order.len(),
            |i: int| all[order[i] as int],
        );
    assert forall|i: int, j: int| 0 <= i < j < states.len() implies (#[trigger] states[i]).id <= (
    #[trigger] states[j]).id by {
        assert(ranks(keys, order[i], order[j]));
        assert(keys[order[i] as int] == states[i].id);
        assert(keys[order[j] as int] == states[j].id);
    }
    assert forall|i: int| 0 <= i < states.len() implies (#[trigger] states[i]).id > 0
        && states[i].active == (states[i].id == active) by {
        let k = order[i] as int;
        let source = numbered(workspaces)[k];
        lemma_kept_contains(workspaces, p, source);
        assert(numbered(workspaces).contains(source));
        assert(p(source));
    }
    if w.id > 0 && workspaces.contains(w) {
        lemma_kept_contains(workspaces, p, w);
        let k = choose|k: int| 0 <= k < numbered(workspaces).len() && numbered(workspaces)[k] == w;
        assert(all[k] == state_of(w, active));
        law_sorting_keeps_the_items(all, keys, states, state_of(w, active));
    }
}

// ---------------------------------------------------------------------------
// The keyboard layout
// ---------------------------------------------------------------------------

/// The keyboard whose layout is shown: that of the computer itself, or else the first.
pub open spec fn main_keyboard(keyboards: Seq<Keyboard>) -> Option<int> {
    match first_where(keyboards, |k: Keyboard| k.name@ == "at-translated-set-2-keyboard"@) {
        Some(i) => Some(i),
        None => if keyboards.len() > 0 {
            Some(0)
        } else {
            None
        },
    }
}

/// The layout that is shown.
pub open spec fn shown_layout(keyboards: Seq<Keyboard>) -> Seq<char> {
    match main_keyboard(keyboards) {
        Some(i) => keyboards[i].active_keymap@,
        None => Seq::empty(),
    }
}

/// The layout that is shown.
pub fn keyboard_layout(devices: &Devices) -> (r: String)
    ensures
        r@ == shown_layout(devices.keyboards@),
{
    let ghost all = devices.keyboards@;
    let ghost p = |k: Keyboard| k.name@ == "at-translated-set-2-keyboard"@;
    let mut i: usize = 0;
    while i < devices.keyboards.len()
        invariant
            i <= all.len(),
            all == devices.keyboards@,
            p == (|k: Keyboard| k.name@ == "at-translated-set-2-keyboard"@),
            forall|j: int| 0 <= j < i ==> !p(#[trigger] all[j]),
        decreases all.len() - i,
    {
        if same(devices.keyboards[i].name.as_str(), "at-translated-set-2-keyboard") {
            proof {
                lemma_is_first(all, p, 0, i as int);
            }
            return devices.keyboards[i].active_keymap.clone();
        }
        i += 1;
    }
    proof {
        lemma_none_first(all, p, 0);
    }
    if devices.keyboards.len() > 0 {
        devices.keyboards[0].active_keymap.clone()
    } else {
        let r = String::new();
        proof {
            assert(r@ =~= Seq::empty());
        }
        r
    }
}

// ---------------------------------------------------------------------------
// Events
// ---------------------------------------------------------------------------

/// The events after which the workspaces are fetched again.
pub open spec fn is_workspace_event(name: Seq<char>) -> bool {
    ||| name == "workspace"@
    ||| name == "workspacev2"@
    ||| name == "createworkspace"@
    ||| name == "createworkspacev2"@
    ||| name == "destroyworkspace"@
    ||| name == "destroyworkspacev2"@
    ||| name == "moveworkspace"@
    ||| name == "moveworkspacev2"@
    ||| name == "renameworkspace"@
}

fn workspace_event(name: &str) -> (r: bool)
    ensures
        r == is_workspace_event(name@),
{
    same(name, "workspace") || same(name, "workspacev2") || same(name, "createworkspace") || same(
        name,
        "createworkspacev2",
    ) || same(name, "destroyworkspace") || same(name, "destroyworkspacev2") || same(
        name,
        "moveworkspace",
    ) || same(name, "moveworkspacev2") || same(name, "renameworkspace")
}

/// What a line of the event stream asks for.
#[derive(Debug, PartialEq)]
pub enum LineEvent {
    /// Nothing.
    Nothing,
    /// The workspaces are to be fetched again.
    Refresh,
    /// The keyboard layout is now this.
    Layout(String),
}

/// What a line holds.
pub enum LineEventView {
    Nothing,
    Refresh,
    Layout(Seq<char>),
}

impl View for LineEvent {
    type V = LineEventView;

    open spec fn view(&self) -> LineEventView {
        match *self {
            LineEvent::Nothing => LineEventView::Nothing,
            LineEvent::Refresh => LineEventView::Refresh,
            LineEvent::Layout(layout) => LineEventView::Layout(layout@),
        }
    }
}

/// What a line of the event stream asks for: a name and data around `>>`. The data of a change of
/// layout are the keyboard and the layout around a comma.
pub open spec fn line_event(line: Seq<char>) -> LineEventView {
    match cut(line, ">>"@) {
        Some((name, data)) => if is_workspace_event(name) {
            LineEventView::Refresh
        } else if name == "activelayout"@ {
            match cut(data, ","@) {
                Some((_, layout)) => LineEventView::Layout(layout),
                None => LineEventView::Nothing,
            }
        } else {
            LineEventView::Nothing
        },
        None => LineEventView::Nothing,
    }
}

/// What a line of the event stream asks for.
pub fn read_line(line: &str) -> (r: LineEvent)
    ensures
        r@ == line_event(line@),
{
    match split_once(line, ">>") {
        Some((name, data)) => {
            if workspace_event(name.as_str()) {
                LineEvent::Refresh
            } else if same(name.as_str(), "activelayout") {
                match split_once(data.as_str(), ",") {
                    Some((_, layout)) => LineEvent::Layout(layout),
                    None => LineEvent::Nothing,
                }
            } else {
                LineEvent::Nothing
            }
        },
        None => LineEvent::Nothing,
    }
}

// ---------------------------------------------------------------------------
// The compositor
// ---------------------------------------------------------------------------

/// The directory of the sockets.
pub open spec fn socket_directory(runtime_dir: Seq<char>, signature: Seq<char>) -> Seq<char> {
    path_join(path_join(runtime_dir, "hypr"@), signature)
}

fn sockets_of(runtime_dir: &str, signature: &str) -> (r: String)
    ensures
        r@ == socket_directory(runtime_dir@, signature@),
{
    join_path(join_path(runtime_dir, "hypr").as_str(), signature)
}

/// The socket that takes commands.
pub fn command_path(socket_dir: &str) -> (r: String)
    ensures
        r@ == path_join(socket_dir@, ".socket.sock"@),
{
    join_path(socket_dir, ".socket.sock")
}

/// The socket that reports events.
pub fn event_path(socket_dir: &str) -> (r: String)
    ensures
        r@ == path_join(socket_dir@, ".socket2.sock"@),
{
    join_path(socket_dir, ".socket2.sock")
}

/// What is known of Hyprland.
pub struct HyprlandIpc {
    pub workspaces: Vec<HyprlandWorkspace>,
    pub layout: String,
    pub socket_dir: String,
}

/// What is known of Hyprland.
pub struct HyprlandIpcView {
    pub workspaces: Seq<HyprlandWorkspace>,
    pub layout: Seq<char>,
    pub socket_dir: Seq<char>,
}

impl View for HyprlandIpc {
    type V = HyprlandIpcView;

    open spec fn view(&self) -> HyprlandIpcView {
        HyprlandIpcView {
            workspaces: self.workspaces@,
            layout: self.layout@,
            socket_dir: self.socket_dir@,
        }
    }
}

impl HyprlandIpc {
    /// Nothing is known yet.
    pub fn new(socket_dir: String) -> (r: Self)
        ensures
            r@ == (HyprlandIpcView {
                workspaces: Seq::empty(),
                layout: Seq::empty(),
                socket_dir: socket_dir@,
            }),
    {
        let r = HyprlandIpc { workspaces: Vec::new(), layout: String::new(), socket_dir };
        proof {
            assert(r@.layout =~= Seq::empty());
        }
        r
    }

    /// Takes in the workspaces.
    pub fn update_workspaces(&mut self, workspaces: &Vec<Workspace>, active: &ActiveWorkspace)
        ensures
            are_states(workspaces@, active.id, final(self)@.workspaces),
            final(self)@ == (HyprlandIpcView {
                workspaces: final(self)@.workspaces,
                ..old(self)@
            }),
    {
        self.workspaces = build_workspace_states(workspaces, active);
    }

    /// Takes in the input devices.
    pub fn update_layout(&mut self, devices: &Devices)
        ensures
            final(self)@ == (HyprlandIpcView {
                layout: shown_layout(devices.keyboards@),
                ..old(self)@
            }),
    {
        self.layout = keyboard_layout(devices);
    }

    /// Takes in a line of the event stream. A change of the layout is taken over here; whether it is
    /// one, and whether the workspaces are to be fetched again, is returned.
    pub fn handle_line(&mut self, line: &str) -> (r: LineEvent)
        ensures
            r@ == line_event(line@),
            final(self)@ == match line_event(line@) {
                LineEventView::Layout(layout) => HyprlandIpcView { layout, ..old(self)@ },
                _ => old(self)@,
            },
    {
        let event = read_line(line);
        if let LineEvent::Layout(layout) = &event {
            self.layout = layout.clone();
        }
        event
    }

    /// The workspaces, as the bar shows them.
    pub fn workspaces(&self) -> (r: Vec<WorkspaceState>)
        ensures
            r@ == Seq::new(
                self@.workspaces.len(),
                |i: int|
                    WorkspaceState {
                        id: self@.workspaces[i].id as u64,
                        index: self@.workspaces[i].id,
                        active: self@.workspaces[i].active,
                        occupied: self@.workspaces[i].occupied,
                    },
            ),
    {
        let mut r: Vec<WorkspaceState> = Vec::new();
        let mut i: usize = 0;
        while i < self.workspaces.len()
            invariant
                i <= self.workspaces@.len(),
                r@.len() == i,
                forall|j: int|
                    0 <= j < i ==> #[trigger] r@[j] == (WorkspaceState {
                        id: self@.workspaces[j].id as u64,
                        index: self@.workspaces[j].id,
                        active: self@.workspaces[j].active,
                        occupied: self@.workspaces[j].occupied,
                    }),
            decreases self.workspaces@.len() - i,
        {
            let w = self.workspaces[i];
            r.push(
                WorkspaceState {
                    id: w.id as u64,
                    index: w.id,
                    active: w.active,
                    occupied: w.occupied,
                },
            );
            i += 1;
        }
        r
    }

    /// The keyboard layout.
    pub fn layout(&self) -> (r: &str)
        ensures
            r@ == self@.layout,
    {
        self.layout.as_str()
    }
}

impl BarProvider for HyprlandIpc {
    open spec fn switching(&self, id: u64) -> EffectView {
        EffectView::Hyprland {
            socket_path: path_join(self@.socket_dir, ".socket.sock"@),
            command: "dispatch workspace "@ + decimal_text(id as nat),
        }
    }

    fn switch_workspace(&self, id: u64) -> (r: Effect) {
        let mut command = "dispatch workspace ".to_owned();
        command.append(decimal(id).as_str());
        Effect::Hyprland { socket_path: command_path(self.socket_dir.as_str()), command }
    }
}

/// The provider for the bar, and whether empty workspaces are shown. Without the signature of the
/// compositor or the runtime directory there is no compositor.
pub fn create_bar_provider(signature: Option<&str>, runtime_dir: Option<&str>) -> (r: (
    Choice<HyprlandIpc, NoopBarProvider>,
    bool,
))
    ensures
        !r.1,
        match (signature, runtime_dir) {
            (Some(s), Some(d)) => r.0 matches Choice::Compositor(ipc) && ipc@ == (HyprlandIpcView {
                workspaces: Seq::empty(),
                layout: Seq::empty(),
                socket_dir: socket_directory(d@, s@),
            }),
            _ => r.0 is Noop,
        },
{
    match (signature, runtime_dir) {
        (Some(s), Some(d)) => (Choice::Compositor(HyprlandIpc::new(sockets_of(d, s))), false),
        _ => (Choice::Noop(NoopBarProvider), false),
    }
}

/// Starts commands through Hyprland.
pub struct HyprlandSpawner {
    pub socket_dir: String,
}

impl LauncherProvider for HyprlandSpawner {
    open spec fn spawning(&self, command: Seq<char>) -> EffectView {
        EffectView::Hyprland {
            socket_path: path_join(self.socket_dir@, ".socket.sock"@),
            command: "dispatch exec "@ + command,
        }
    }

    fn spawn(&self, command: &str) -> (r: Effect) {
        let mut line = "dispatch exec ".to_owned();
        line.append(command);
        Effect::Hyprland { socket_path: command_path(self.socket_dir.as_str()), command: line }
    }
}

/// The provider for the launcher. Without the signature of the compositor or the runtime directory
/// there is no compositor.
pub fn create_launcher_provider(signature: Option<&str>, runtime_dir: Option<&str>) -> (r: Choice<
    HyprlandSpawner,
    NoopSpawner,
>)
    ensures
        match (signature, runtime_dir) {
            (Some(s), Some(d)) => r matches Choice::Compositor(spawner) && spawner.socket_dir@
                == socket_directory(d@, s@),
            _ => r is Noop,
        },
{
    match (signature, runtime_dir) {
        (Some(s), Some(d)) => Choice::Compositor(HyprlandSpawner { socket_dir: sockets_of(d, s) }),
        _ => Choice::Noop(NoopSpawner),
    }
}

/// A workspace is kept with its number, is active exactly if it is the one in use, and is occupied
/// exactly if it has windows; and every state is that of a workspace that was reported so.
pub proof fn law_states_say_what_was_reported(
    workspaces: Seq<Workspace>,
    active: i32,
    states: Seq<HyprlandWorkspace>,
    w: Workspace,
    i: int,
)
    requires
        workspaces.len() <= usize::MAX,
        are_states(workspaces, active, states),
    ensures
        w.id > 0 && workspaces.contains(w) ==> exists|k: int|
            0 <= k < states.len() && (#[trigger] states[k]).id == w.id && states[k].active == (w.id
                == active) && states[k].occupied == (w.windows > 0),
        0 <= i < states.len() ==> exists|k: int|
            0 <= k < workspaces.len() && (#[trigger] workspaces[k]).id > 0 && workspaces[k].id
                == states[i].id && states[i].active == (workspaces[k].id == active)
                && states[i].occupied == (workspaces[k].windows > 0),
{
    let all = reported(workspaces, active);
    let keys = numbers(all);
    let p = |w: Workspace| w.id > 0;
    lemma_kept_len(workspaces, p);
    if w.id > 0 && workspaces.contains(w) {
        lemma_kept_contains(workspaces, p, w);
        let k = choose|k: int| 0 <= k < numbered(workspaces).len() && numbered(workspaces)[k] == w;
        assert(all[k] == state_of(w, active));
        law_sorting_keeps_the_items(all, keys, states, state_of(w, active));
        let m = choose|m: int| 0 <= m < states.len() && states[m] == state_of(w, active);
        assert(states[m].id == w.id);
    }
    if 0 <= i < states.len() {
        law_sorting_keeps_the_items(all, keys, states, states[i]);
        assert(states.contains(states[i]));
        let m = choose|m: int| 0 <= m < all.len() && all[m] == states[i];
        let source = numbered(workspaces)[m];
        lemma_kept_contains(workspaces, p, source);
        assert(numbered(workspaces).contains(source));
        let k = choose|k: int| 0 <= k < workspaces.len() && workspaces[k] == source;
        assert(workspaces[k].id > 0);
    }
}

/// Only workspaces of numbers up to zero are left out, each of the others once.
pub proof fn law_special_workspaces_are_left_out(a: Seq<Workspace>, b: Seq<Workspace>, w: Workspace)
    ensures
        numbered(a + b) == numbered(a) + numbered(b),
        numbered(seq![w]) == (if w.id > 0 {
            seq![w]
        } else {
            Seq::<Workspace>::empty()
        }),
    decreases b.len(),
{
    let p = |w: Workspace| w.id > 0;
    let one = seq![w];
    assert(one.drop_last() =~= Seq::empty());
    assert(kept(one.drop_last(), p) =~= Seq::empty());
    assert(one.last() == w);
    assert(numbered(one) =~= (if w.id > 0 {
        seq![w]
    } else {
        Seq::<Workspace>::empty()
    }));
    if b.len() == 0 {
        assert(a + b =~= a);
        assert(numbered(b) =~= Seq::empty());
        assert(numbered(a) + numbered(b) =~= numbered(a));
    } else {
        law_special_workspaces_are_left_out(a, b.drop_last(), w);
        assert((a + b).drop_last() =~= a + b.drop_last());
        assert((a + b).last() == b.last());
        assert(numbered(a + b) =~= numbered(a) + numbered(b));
    }
}

/// The layout that is shown is that of the first keyboard of the computer itself; where there is none,
/// that of the first keyboard, and without any keyboard it is empty.
pub proof fn law_layout_of_the_main_keyboard(keyboards: Seq<Keyboard>, i: int)
    requires
        0 <= i < keyboards.len(),
    ensures
        keyboards[i].name@ == "at-translated-set-2-keyboard"@ && (forall|j: int|
            0 <= j < i ==> (#[trigger] keyboards[j]).name@ != "at-translated-set-2-keyboard"@)
            ==> shown_layout(keyboards) == keyboards[i].active_keymap@,
        (forall|j: int|
            0 <= j < keyboards.len() ==> (#[trigger] keyboards[j]).name@
                != "at-translated-set-2-keyboard"@) ==> shown_layout(keyboards)
            == keyboards[0].active_keymap@,
        shown_layout(Seq::empty()).len() == 0,
{
    let p = |k: Keyboard| k.name@ == "at-translated-set-2-keyboard"@;
    if p(keyboards[i]) && forall|j: int|
        0 <= j < i ==> (#[trigger] keyboards[j]).name@ != "at-translated-set-2-keyboard"@ {
        assert forall|j: int| 0 <= j < i implies !p(#[trigger] keyboards[j]) by {}
        lemma_is_first(keyboards, p, 0, i);
    }
    if forall|j: int|
        0 <= j < keyboards.len() ==> (#[trigger] keyboards[j]).name@
            != "at-translated-set-2-keyboard"@ {
        assert forall|j: int| 0 <= j < keyboards.len() implies !p(#[trigger] keyboards[j]) by {}
        lemma_none_first(keyboards, p, 0);
    }
}

/// The workspaces are fetched again after exactly these events.
pub proof fn law_workspace_events(line: Seq<char>, name: Seq<char>, data: Seq<char>)
    requires
        cut(line, ">>"@) == Some((name, data)),
    ensures
        line_event(line) is Refresh <==> {
            ||| name == "workspace"@
            ||| name == "workspacev2"@
            ||| name == "createworkspace"@
            ||| name == "createworkspacev2"@
            ||| name == "destroyworkspace"@
            ||| name == "destroyworkspacev2"@
            ||| name == "moveworkspace"@
            ||| name == "moveworkspacev2"@
            ||| name == "renameworkspace"@
        },
{
}

/// The layout changes after exactly one event, to what follows the first comma of its data.
pub proof fn law_layout_events(line: Seq<char>, name: Seq<char>, data: Seq<char>)
    requires
        cut(line, ">>"@) == Some((name, data)),
    ensures
        line_event(line) is Layout <==> name == "activelayout"@ && cut(data, ","@) is Some,
        line_event(line) matches LineEventView::Layout(layout) ==> (cut(data, ","@) matches Some(
            (keyboard, rest),
        ) && layout == rest),
{
    reveal_strlit("activelayout");
    reveal_strlit("workspace");
    reveal_strlit("workspacev2");
    reveal_strlit("createworkspace");
    reveal_strlit("createworkspacev2");
    reveal_strlit("destroyworkspace");
    reveal_strlit("destroyworkspacev2");
    reveal_strlit("moveworkspace");
    reveal_strlit("moveworkspacev2");
    reveal_strlit("renameworkspace");
    assert("activelayout"@[0] == 'a');
    assert("workspace"@[0] == 'w' && "workspacev2"@[0] == 'w' && "createworkspace"@[0] == 'c'
        && "createworkspacev2"@[0] == 'c' && "destroyworkspace"@[0] == 'd' && "destroyworkspacev2"@[0]
        == 'd' && "moveworkspace"@[0] == 'm' && "moveworkspacev2"@[0] == 'm' && "renameworkspace"@[0]
        == 'r');
}

/// A line without the sign between name and data means nothing.
pub proof fn law_other_lines(line: Seq<char>)
    requires
        cut(line, ">>"@) is None,
    ensures
        line_event(line) is Nothing,
{
}

/// What is asked of Hyprland goes to its command socket below the runtime directory and the signature,
/// as the command to switch to the workspace or to start the program.
pub proof fn law_commands(ipc: HyprlandIpc, spawner: HyprlandSpawner, id: u64, command: Seq<char>)
    ensures
        ipc.switching(id) == (EffectView::Hyprland {
            socket_path: path_join(ipc.socket_dir@, ".socket.sock"@),
            command: "dispatch workspace "@ + decimal_text(id as nat),
        }),
        spawner.spawning(command) == (EffectView::Hyprland {
            socket_path: path_join(spawner.socket_dir@, ".socket.sock"@),
            command: "dispatch exec "@ + command,
        }),
        forall|d: Seq<char>, s: Seq<char>| #[trigger]
            socket_directory(d, s) == path_join(path_join(d, "hypr"@), s),
{
}

} // verus!
