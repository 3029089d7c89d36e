//! What is known of River, and what is asked of it.

use vstd::prelude::*;

use crate::ipc::{
    BarProvider, Choice, Effect, EffectView, LauncherProvider, NoopBarProvider, NoopSpawner,
    WorkspaceState,
};
use crate::number::{decimal, decimal_text};
use crate::river::tags::{
    tag_mask, tags_to_workspace_states, workspace_at, workspace_id_to_tag_mask, WORKSPACES,
};
use crate::text::views;

verus! {

/// What the bar shows of River.
#[derive(Debug, PartialEq)]
pub struct RiverSnapshot {
    pub focused_tags: u32,
    pub view_tags: u32,
    pub layout: String,
}

/// What a snapshot holds.
pub struct RiverSnapshotView {
    pub focused_tags: u32,
    pub view_tags: u32,
    pub layout: Seq<char>,
}

impl View for RiverSnapshot {
    type V = RiverSnapshotView;

    open spec fn view(&self) -> RiverSnapshotView {
        RiverSnapshotView {
            focused_tags: self.focused_tags,
            view_tags: self.view_tags,
            layout: self.layout@,
        }
    }
}

/// What is shown before River reports anything: the first workspace, and nothing on any.
pub open spec fn first_snapshot() -> RiverSnapshotView {
    RiverSnapshotView { focused_tags: 1, view_tags: 0, layout: Seq::empty() }
}

impl Default for RiverSnapshot {
    fn default() -> (r: Self)
        ensures
            r@ == first_snapshot(),
    {
        let r = RiverSnapshot { focused_tags: 1, view_tags: 0, layout: String::new() };
        proof {
            assert(r@.layout =~= Seq::empty());
        }
        r
    }
}

/// What is known of River.
pub struct RiverIpc {
    pub snapshot: RiverSnapshot,
}

impl RiverIpc {
    /// Nothing is known yet.
    pub fn new() -> (r: Self)
        ensures
            r.snapshot@ == first_snapshot(),
    {
        RiverIpc { snapshot: RiverSnapshot::default() }
    }

    /// Takes in the snapshots that have come since the last time, the oldest first. Says whether
    /// there were any.
    pub fn receive(&mut self, snapshots: Vec<RiverSnapshot>) -> (r: bool)
        ensures
            r == (snapshots@.len() > 0),
            final(self).snapshot@ == (if snapshots@.len() > 0 {
                snapshots@.last()@
            } else {
                old(self).snapshot@
            }),
    {
        let mut snapshots = snapshots;
        match snapshots.pop() {
            Some(last) => {
                self.snapshot = last;
                true
            },
            None => false,
        }
    }

    /// The workspaces, as the bar shows them.
    pub fn workspaces(&self) -> (r: Vec<WorkspaceState>)
        ensures
            r@ == Seq::new(
                WORKSPACES as nat,
                |bit: int|
                    workspace_at(self.snapshot.focused_tags, self.snapshot.view_tags, bit),
            ),
    {
        tags_to_workspace_states(self.snapshot.focused_tags, self.snapshot.view_tags)
    }

    /// The name of the layout.
    pub fn layout(&self) -> (r: &str)
        ensures
            r@ == self.snapshot@.layout,
    {
        self.snapshot.layout.as_str()
    }
}

fn riverctl(subcommand: &str, argument: String) -> (r: Effect)
    ensures
        r@ == (EffectView::Run {
            program: "riverctl"@,
            arguments: seq![subcommand@, argument@],
        }),
{
    let ghost expected = seq![subcommand@, argument@];
    let mut arguments: Vec<String> = Vec::new();
    arguments.push(subcommand.to_owned());
    arguments.push(argument);
    proof {
        assert(views(arguments@) =~= expected);
    }
    Effect::Run { program: "riverctl".to_owned(), arguments }
}

impl BarProvider for RiverIpc {
    open spec fn switching(&self, id: u64) -> EffectView {
        match tag_mask(id) {
            Some(tags) => EffectView::Run {
                program: "riverctl"@,
                arguments: seq!["set-focused-tags"@, decimal_text(tags as nat)],
            },
            None => EffectView::Nothing,
        }
    }

    fn switch_workspace(&self, id: u64) -> (r: Effect) {
        match workspace_id_to_tag_mask(id) {
            Some(tags) => riverctl("set-focused-tags", decimal(tags as u64)),
            None => Effect::Nothing,
        }
    }
}

/// The provider for the bar, and whether empty workspaces are shown. Without a display there is no
/// compositor.
pub fn create_bar_provider(wayland_display: Option<&str>) -> (r: (
    Choice<RiverIpc, NoopBarProvider>,
    bool,
))
    ensures
        match wayland_display {
            Some(_) => !r.1 && (r.0 matches Choice::Compositor(ipc) && ipc.snapshot@
                == first_snapshot()),
            None => r.1 && r.0 is Noop,
        },
{
    match wayland_display {
        Some(_) => (Choice::Compositor(RiverIpc::new()), false),
        None => (Choice::Noop(NoopBarProvider), true),
    }
}

/// Starts commands through River.
pub struct RiverSpawner;

impl LauncherProvider for RiverSpawner {
    open spec fn spawning(&self, command: Seq<char>) -> EffectView {
        EffectView::Run { program: "riverctl"@, arguments: seq!["spawn"@, command] }
    }

    fn spawn(&self, command: &str) -> (r: Effect) {
        riverctl("spawn", command.to_owned())
    }
}

/// The provider for the launcher. Without a display there is no compositor.
pub fn create_launcher_provider(wayland_display: Option<&str>) -> (r: Choice<
    RiverSpawner,
    NoopSpawner,
>)
    ensures
        wayland_display is Some <==> r is Compositor,
{
    match wayland_display {
        Some(_) => Choice::Compositor(RiverSpawner),
        None => Choice::Noop(NoopSpawner),
    }
}

/// What is asked of River goes through its control program: the tag of the workspace as a number, or
/// the command as it is. A workspace without a tag is not asked for.
pub proof fn law_control_program(ipc: RiverIpc, spawner: RiverSpawner, id: u64, command: Seq<char>)
    ensures
        1 <= id <= 32 ==> (ipc.switching(id) matches EffectView::Run { program, arguments } && program
            == "riverctl"@ && arguments.len() == 2 && arguments[0] == "set-focused-tags"@
            && arguments[1] == decimal_text((1u32 << ((id - 1) as u32)) as nat)),
        !(1 <= id <= 32) ==> ipc.switching(id) is Nothing,
        spawner.spawning(command) matches EffectView::Run { program, arguments } && program
            == "riverctl"@ && arguments.len() == 2 && arguments[0] == "spawn"@ && arguments[1]
            == command,
{
}

/// Before River reports anything the first workspace is shown as active and none as occupied.
pub proof fn law_first_snapshot()
    ensures
        first_snapshot().focused_tags == 1,
        first_snapshot().view_tags == 0,
        first_snapshot().layout.len() == 0,
{
}

} // verus!
