//! What holds of the bridge over any sequence of events.

use vstd::prelude::*;

use crate::search::lemma_first_from;
use crate::xembed::bridge::{
    all_windows, entry_of, follows, requested_dock, strayed, BridgeEvent, BridgeModel, BridgeStep,
    DockedWindow,
};

verus! {

/// Whether the icons that were captured from windows have pixels. `capture_icon` gives no others.
pub open spec fn captures_have_pixels(step: BridgeStep) -> bool {
    match step {
        BridgeStep::Message { docked: Some((_, _, Some(icon))), .. } => icon.has_pixels(),
        BridgeStep::Captured { icon, .. } => icon.has_pixels(),
        BridgeStep::Round { icon, .. } => icon.has_pixels(),
        _ => true,
    }
}

/// The window that a step docks: a message asked for it, and docking it succeeded.
pub open spec fn docked_window(step: BridgeStep) -> Option<u32> {
    match step {
        BridgeStep::Message { opcode, window, docked: Some(_), .. } => requested_dock(opcode, window),
        _ => None,
    }
}

/// The entry whose icon a step brings.
pub open spec fn icon_entry(docked: Seq<DockedWindow>, step: BridgeStep) -> Option<int> {
    match step {
        BridgeStep::Captured { window, .. } => entry_of(docked, window),
        BridgeStep::Round { k, .. } => Some(k),
        _ => None,
    }
}

/// The entry that a step gives up.
pub open spec fn lost_entry(docked: Seq<DockedWindow>, step: BridgeStep) -> Option<int> {
    match step {
        BridgeStep::Destroyed { window } => entry_of(docked, window),
        BridgeStep::Reparented { window, parent } => strayed(docked, window, parent),
        _ => None,
    }
}

proof fn lemma_entries(docked: Seq<DockedWindow>, window: u32, parent: u32)
    ensures
        entry_of(docked, window) matches Some(k) ==> 0 <= k < docked.len()
            && docked[k].client_window == window,
        strayed(docked, window, parent) matches Some(k) ==> 0 <= k < docked.len()
            && docked[k].client_window == window,
{
    lemma_first_from(docked, |d: DockedWindow| d.client_window == window, 0);
    lemma_first_from(
        docked,
        |d: DockedWindow| d.client_window == window && parent != d.container_window,
        0,
    );
}

proof fn lemma_step_entries(docked: Seq<DockedWindow>, step: BridgeStep)
    ensures
        step is Captured ==> (icon_entry(docked, step) matches Some(k) ==> 0 <= k < docked.len()),
        lost_entry(docked, step) matches Some(k) ==> 0 <= k < docked.len(),
{
    match step {
        BridgeStep::Captured { window, .. } => {
            lemma_entries(docked, window, 0);
        },
        BridgeStep::Destroyed { window } => {
            lemma_entries(docked, window, 0);
        },
        BridgeStep::Reparented { window, parent } => {
            lemma_entries(docked, window, parent);
        },
        _ => {},
    }
}

/// No step docks a window of the number zero.
pub proof fn law_docked_windows_are_windows(
    before: BridgeModel,
    step: BridgeStep,
    after: BridgeModel,
    event: Option<BridgeEvent>,
)
    requires
        all_windows(before.docked),
        follows(before, step, after, event),
    ensures
        all_windows(after.docked),
{
    lemma_step_entries(before.docked, step);
}

/// A message that asks for no window, and a window that could not be docked, change nothing, and
/// nothing is told of them.
pub proof fn law_refused_docking_changes_nothing(
    before: BridgeModel,
    step: BridgeStep,
    after: BridgeModel,
    event: Option<BridgeEvent>,
)
    requires
        follows(before, step, after, event),
        step is Message,
        docked_window(step) is None,
    ensures
        after == before,
        event is None,
{
}

/// A window is announced only with an icon to show: it is a window, the store holds an icon with
/// pixels for it, and it was docked in this step or by an entry that was not announced before and is
/// from now on.
pub proof fn law_announced_with_an_icon(
    before: BridgeModel,
    step: BridgeStep,
    after: BridgeModel,
    w: u32,
)
    requires
        all_windows(before.docked),
        captures_have_pixels(step),
        follows(before, step, after, Some(BridgeEvent::Docked(w))),
    ensures
        w != 0,
        after.icons.contains_key(w),
        after.icons[w].pixels@.len() > 0,
        docked_window(step) == Some(w) || exists|k: int|
            {
                &&& icon_entry(before.docked, step) == Some(k)
                &&& 0 <= k < before.docked.len()
                &&& (#[trigger] before.docked[k]).client_window == w
                &&& !before.docked[k].registered
                &&& after.docked[k].registered
            },
{
    lemma_step_entries(before.docked, step);
    if let Some(k) = icon_entry(before.docked, step) {
        assert(before.docked[k].client_window == w);
    }
}

// ---------------------------------------------------------------------------
// Runs
// ---------------------------------------------------------------------------

/// A run of the bridge: what happened, the states before, between and after, and what the status
/// notifier side was told of each step.
pub struct Run {
    pub steps: Seq<BridgeStep>,
    pub states: Seq<BridgeModel>,
    pub events: Seq<Option<BridgeEvent>>,
}

impl Run {
    /// Whether the run starts with nothing, and each step leads to the next state.
    pub open spec fn wf(self) -> bool {
        &&& self.states.len() == self.steps.len() + 1
        &&& self.events.len() == self.steps.len()
        &&& self.states[0].docked.len() == 0
        &&& self.states[0].icons == Map::<u32, crate::xembed::bridge::IconState>::empty()
        &&& forall|i: int|
            0 <= i < self.steps.len() ==> {
                &&& captures_have_pixels(#[trigger] self.steps[i])
                &&& follows(self.states[i], self.steps[i], self.states[i + 1], self.events[i])
            }
    }

    /// The dockings that the entries stem from after `n` steps, each known by its step.
    pub open spec fn dockings(self, n: nat) -> Seq<int>
        decreases n,
    {
        if n == 0 {
            Seq::empty()
        } else {
            let last = n - 1;
            let before = self.dockings((n - 1) as nat);
            if docked_window(self.steps[last]) is Some {
                before.push(last)
            } else {
                match lost_entry(self.states[last].docked, self.steps[last]) {
                    Some(k) => before.remove(k),
                    None => before,
                }
            }
        }
    }

    /// Whether the status notifier side is told in step `i` that a window is docked.
    pub open spec fn announces(self, i: int) -> bool {
        self.events[i] is Some && self.events[i]->0 is Docked
    }

    /// The docking that step `i` announces.
    pub open spec fn announced_docking(self, i: int) -> int {
        if docked_window(self.steps[i]) is Some {
            i
        } else {
            self.dockings(i as nat)[icon_entry(self.states[i].docked, self.steps[i])->0]
        }
    }

    /// After `n` steps each entry stems from its own docking of its window, and is marked where that
    /// docking was announced.
    spec fn in_step(self, n: nat) -> bool {
        let docked = self.states[n as int].docked;
        let from = self.dockings(n);
        &&& all_windows(docked)
        &&& from.len() == docked.len()
        &&& from.no_duplicates()
        &&& forall|k: int|
            0 <= k < from.len() ==> {
                &&& 0 <= #[trigger] from[k] < n
                &&& docked_window(self.steps[from[k]]) == Some(docked[k].client_window)
            }
        &&& forall|i: int, k: int|
            0 <= i < n && 0 <= k < from.len() && #[trigger] self.announces(i)
                && self.announced_docking(i) == #[trigger] from[k] ==> docked[k].registered
        &&& forall|i: int| 0 <= i < n && #[trigger] self.announces(i) ==> self.announced_docking(i) <= i
    }
}

proof fn lemma_in_step(run: Run, n: nat)
    requires
        run.wf(),
        n <= run.steps.len(),
    ensures
        run.in_step(n),
    decreases n,
{
    if n > 0 {
        let m = (n - 1) as nat;
        let l = n - 1;
        lemma_in_step(run, m);
        let step = run.steps[l];
        let before = run.states[l];
        let after = run.states[n as int];
        let event = run.events[l];
        let earlier = run.dockings(m);
        let later = run.dockings(n);
        assert(follows(before, step, after, event));
        lemma_step_entries(before.docked, step);
        law_docked_windows_are_windows(before, step, after, event);
        if docked_window(step) is Some {
            assert(later == earlier.push(l));
            assert forall|i: int, k: int|
                0 <= i < n && 0 <= k < later.len() && #[trigger] run.announces(i)
                    && run.announced_docking(i) == #[trigger] later[k] implies after.docked[k].registered by {
                if k < earlier.len() {
                    assert(later[k] == earlier[k]);
                    assert(after.docked[k] == before.docked[k]);
                }
            }
        } else {
            match lost_entry(before.docked, step) {
                Some(gone) => {
                    assert(later == earlier.remove(gone));
                    assert(after.docked == before.docked.remove(gone));
                    assert(!run.announces(l));
                    assert forall|k: int| 0 <= k < later.len() implies {
                        &&& 0 <= #[trigger] later[k] < n
                        &&& docked_window(run.steps[later[k]]) == Some(after.docked[k].client_window)
                    } by {
                        let j = if k < gone { k } else { k + 1 };
                        assert(later[k] == earlier[j]);
                        assert(after.docked[k] == before.docked[j]);
                    }
                    assert forall|i: int, k: int|
                        0 <= i < n && 0 <= k < later.len() && #[trigger] run.announces(i)
                            && run.announced_docking(i) == #[trigger] later[k] implies after.docked[k].registered by {
                        let j = if k < gone { k } else { k + 1 };
                        assert(later[k] == earlier[j]);
                        assert(after.docked[k] == before.docked[j]);
                    }
                    assert(later.no_duplicates()) by {
                        assert forall|a: int, b: int|
                            0 <= a < later.len() && 0 <= b < later.len() && a != b implies later[a]
                            != later[b] by {
                            let x = if a < gone { a } else { a + 1 };
                            let y = if b < gone { b } else { b + 1 };
                            assert(earlier[x] != earlier[y]);
                        }
                    }
                },
                None => {
                    assert(later == earlier);
                    assert(after.docked.len() == before.docked.len());
                    assert forall|k: int| 0 <= k < earlier.len() implies {
                        &&& (#[trigger] after.docked[k]).client_window == before.docked[k].client_window
                        &&& before.docked[k].registered ==> after.docked[k].registered
                    } by {}
                    assert forall|i: int, k: int|
                        0 <= i < n && 0 <= k < later.len() && #[trigger] run.announces(i)
                            && run.announced_docking(i) == #[trigger] later[k] implies after.docked[k].registered by {
                        if i == l {
                            let e = icon_entry(before.docked, step)->0;
                            assert(earlier[e] == earlier[k]);
                            assert(e == k);
                        } else {
                            assert(before.docked[k].registered);
                            assert(after.docked[k].client_window == before.docked[k].client_window);
                        }
                    }
                    assert forall|k: int| 0 <= k < later.len() implies {
                        &&& 0 <= #[trigger] later[k] < n
                        &&& docked_window(run.steps[later[k]]) == Some(after.docked[k].client_window)
                    } by {
                        assert(earlier[k] < m);
                        assert(after.docked[k].client_window == before.docked[k].client_window);
                    }
                },
            }
        }
        assert forall|i: int| 0 <= i < n && #[trigger] run.announces(i) implies run.announced_docking(i)
            <= i by {
            if i == l && docked_window(step) is None {
                let e = icon_entry(before.docked, step)->0;
                assert(0 <= e < earlier.len());
                assert(earlier[e] < m);
            }
        }
    }
}

/// Whatever happens, a window is announced only with an icon to show: when the status notifier side
/// is told that it is docked, it is a window, an earlier or the same step docked it, and the store
/// holds an icon with pixels for it.
pub proof fn law_every_announcement_has_an_icon(run: Run, i: int, w: u32)
    requires
        run.wf(),
        0 <= i < run.steps.len(),
        run.events[i] == Some(BridgeEvent::Docked(w)),
    ensures
        w != 0,
        run.states[i + 1].icons.contains_key(w),
        run.states[i + 1].icons[w].pixels@.len() > 0,
        0 <= run.announced_docking(i) <= i,
        docked_window(run.steps[run.announced_docking(i)]) == Some(w),
{
    lemma_in_step(run, i as nat);
    let step = run.steps[i];
    let before = run.states[i];
    assert(follows(before, step, run.states[i + 1], run.events[i]));
    assert(captures_have_pixels(step));
    law_announced_with_an_icon(before, step, run.states[i + 1], w);
    if docked_window(step) is None {
        let k = icon_entry(before.docked, step)->0;
        assert(before.docked[k].client_window == w);
        assert(0 <= run.dockings(i as nat)[k] < i);
    }
}

/// Whatever happens, no docking is announced twice.
pub proof fn law_no_docking_is_announced_twice(run: Run, i: int, j: int)
    requires
        run.wf(),
        0 <= i < j < run.steps.len(),
        run.announces(i),
        run.announces(j),
    ensures
        run.announced_docking(i) != run.announced_docking(j),
{
    lemma_in_step(run, j as nat);
    let step = run.steps[j];
    let before = run.states[j];
    let w = run.events[j]->0->Docked_0;
    assert(run.events[j] == Some(BridgeEvent::Docked(w)));
    assert(follows(before, step, run.states[j + 1], run.events[j]));
    assert(captures_have_pixels(step));
    law_announced_with_an_icon(before, step, run.states[j + 1], w);
    assert(run.announced_docking(i) <= i);
    if docked_window(step) is None {
        let k = icon_entry(before.docked, step)->0;
        assert(!before.docked[k].registered);
        assert(run.announced_docking(j) == run.dockings(j as nat)[k]);
    }
}

} // verus!
