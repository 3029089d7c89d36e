//! The docked windows of the tray and their icons: what to do on each event of the X server.

use std::collections::HashMap;

use vstd::prelude::*;

use crate::search::{first_from, first_where, lemma_first_from};
use crate::xembed::capture::{CapturedIcon, EMBED_SIZE};

verus! {

broadcast use vstd::std_specs::hash::group_hash_axioms;

/// How many icons are kept.
pub const MAX_ICON_ENTRIES: usize = 256;

/// The request of a client to be docked in the tray.
pub const SYSTEM_TRAY_REQUEST_DOCK: u32 = 0;

/// For how long after docking icons are captured often, in nanoseconds.
pub const FAST_PERIOD: u64 = 2_000_000_000;

/// The time between two captures while a window is new, in nanoseconds.
pub const FAST_INTERVAL: u64 = 200_000_000;

/// The time between two captures otherwise, in nanoseconds.
pub const SLOW_INTERVAL: u64 = 2_000_000_000;

// ---------------------------------------------------------------------------
// Icons
// ---------------------------------------------------------------------------

/// The last icon captured from a window, and when, in nanoseconds.
pub struct IconState {
    pub width: u16,
    pub height: u16,
    pub pixels: Vec<u8>,
    pub last_updated: u64,
}

/// The icons by window.
pub struct IconStore {
    pub icons: HashMap<u32, IconState>,
}

impl View for IconStore {
    type V = Map<u32, IconState>;

    open spec fn view(&self) -> Map<u32, IconState> {
        self.icons@
    }
}

/// The state that a captured icon becomes.
pub open spec fn icon_state(icon: CapturedIcon, now: u64) -> IconState {
    IconState { width: icon.width, height: icon.height, pixels: icon.pixels, last_updated: now }
}

/// Whether no icon is older than that of `window`.
pub open spec fn is_oldest(icons: Map<u32, IconState>, window: u32) -> bool {
    &&& icons.contains_key(window)
    &&& forall|w: u32| #[trigger]
        icons.contains_key(w) ==> icons[window].last_updated <= icons[w].last_updated
}

/// What keeping an icon does: a full store first gives up an icon that is as old as any.
pub open spec fn stored(
    before: Map<u32, IconState>,
    after: Map<u32, IconState>,
    window: u32,
    state: IconState,
) -> bool {
    if before.len() < MAX_ICON_ENTRIES {
        after == before.insert(window, state)
    } else {
        exists|oldest: u32| #[trigger]
            is_oldest(before, oldest) && after == before.remove(oldest).insert(window, state)
    }
}

/// Whether `pixels` differ from those kept for `window`, if there are any.
pub open spec fn icon_changed(icons: Map<u32, IconState>, window: u32, pixels: Seq<u8>) -> bool {
    !icons.contains_key(window) || icons[window].pixels@ != pixels
}

fn same_bytes(a: &Vec<u8>, b: &Vec<u8>) -> (r: bool)
    ensures
        r == (a@ == b@),
{
    if a.len() != b.len() {
        return false;
    }
    let mut i: usize = 0;
    while i < a.len()
        invariant
            i <= a@.len() == b@.len(),
            forall|j: int| 0 <= j < i ==> a@[j] == b@[j],
        decreases a@.len() - i,
    {
        if a[i] != b[i] {
            return false;
        }
        i += 1;
    }
    proof {
        assert(a@ =~= b@);
    }
    true
}

impl IconStore {
    /// Whether the store is within its limit.
    pub open spec fn wf(&self) -> bool {
        self@.len() <= MAX_ICON_ENTRIES
    }

    /// A store without icons.
    pub fn new() -> (r: Self)
        ensures
            r.wf(),
            r@ == Map::<u32, IconState>::empty(),
    {
        IconStore { icons: HashMap::new() }
    }

    fn oldest(&self) -> (r: Option<u32>)
        ensures
            match r {
                Some(w) => is_oldest(self@, w),
                None => self@.len() == 0,
            },
    {
        let mut best: Option<(u32, u64)> = None;
        for (window, state) in it: self.icons.iter()
            invariant
                forall|k: u32| #[trigger] self@.contains_key(k) ==> it.seq().contains((&k, &self@[k])),
                forall|i: int|
                    0 <= i < it.seq().len() ==> self@.contains_key(*(#[trigger] it.seq()[i]).0)
                        && self@[*it.seq()[i].0] == *it.seq()[i].1,
                it.seq().len() == self@.len(),
                match best {
                    Some((w, t)) => self@.contains_key(w) && self@[w].last_updated == t && forall|
                        i: int,
                    |
                        0 <= i < it.index() ==> t <= (#[trigger] it.seq()[i]).1.last_updated,
                    None => it.index() == 0,
                },
        {
            proof {
                assert(it.seq()[it.index() as int] == (window, state));
            }
            let older = match best {
                Some((_, t)) => state.last_updated < t,
                None => true,
            };
            if older {
                best = Some((*window, state.last_updated));
            }
        }
        match best {
            Some((w, _)) => Some(w),
            None => None,
        }
    }

    /// Keeps an icon of `window`, captured at the time `now`. A full store first gives up the
    /// oldest of its icons.
    pub fn store_icon_state(&mut self, window: u32, captured: CapturedIcon, now: u64)
        ensures
            stored(old(self)@, final(self)@, window, icon_state(captured, now)),
            old(self).wf() ==> final(self).wf(),
    {
        if self.icons.len() >= MAX_ICON_ENTRIES {
            match self.oldest() {
                Some(oldest) => {
                    self.icons.remove(&oldest);
                },
                None => {},
            }
        }
        let state = IconState {
            width: captured.width,
            height: captured.height,
            pixels: captured.pixels,
            last_updated: now,
        };
        self.icons.insert(window, state);
    }

    /// Whether the pixels of an icon differ from those kept for `window`.
    pub fn is_changed(&self, window: u32, captured: &CapturedIcon) -> (r: bool)
        ensures
            r == icon_changed(self@, window, captured.pixels@),
    {
        match self.icons.get(&window) {
            Some(state) => !same_bytes(&state.pixels, &captured.pixels),
            None => true,
        }
    }

    /// Gives up the icon of `window`.
    pub fn forget(&mut self, window: u32)
        ensures
            final(self)@ == old(self)@.remove(window),
            old(self).wf() ==> final(self).wf(),
    {
        self.icons.remove(&window);
    }
}

// ---------------------------------------------------------------------------
// Docked windows
// ---------------------------------------------------------------------------

/// A docked icon window and the container it was put into. The time is in nanoseconds.
#[derive(Clone, Copy)]
pub struct DockedWindow {
    pub client_window: u32,
    pub container_window: u32,
    pub damage_id: u32,
    pub dock_time: u64,
    /// Whether the window was announced as a status notifier item.
    pub registered: bool,
}

/// What the status notifier side is told.
#[derive(Clone, Copy, Debug, PartialEq, Eq, Structural)]
pub enum BridgeEvent {
    Docked(u32),
    Undocked(u32),
    IconUpdated(u32),
}

/// What is left to do for a window that has gone: its damage object and its container are to be
/// destroyed, and the status notifier side is told where it knew of the window.
#[derive(Clone, Copy, Debug, PartialEq, Eq, Structural)]
pub struct Undocking {
    pub damage_id: u32,
    pub container_window: u32,
    pub event: Option<BridgeEvent>,
}

/// A click on a status notifier item, to be passed on to the window behind it.
#[derive(Clone, Copy, Debug, PartialEq, Eq, Structural)]
pub struct ClickEvent {
    pub window_id: u32,
    pub button: u8,
    pub x_position: i32,
    pub y_position: i32,
}

/// Where to send a click.
#[derive(Clone, Copy, Debug, PartialEq, Eq, Structural)]
pub struct ClickTarget {
    pub client_window: u32,
    pub container_window: u32,
}

/// The docked windows, in the order in which they came, and the time of the last round of captures.
pub struct Bridge {
    docked: Vec<DockedWindow>,
    last_capture: u64,
}

/// What a bridge holds.
pub struct BridgeView {
    pub docked: Seq<DockedWindow>,
    pub last_capture: u64,
}

impl View for Bridge {
    type V = BridgeView;

    closed spec fn view(&self) -> BridgeView {
        BridgeView { docked: self.docked@, last_capture: self.last_capture }
    }
}

/// The window that a tray message asks to dock, if it does and names one.
pub open spec fn requested_dock(opcode: u32, window: u32) -> Option<u32> {
    if opcode == SYSTEM_TRAY_REQUEST_DOCK && window != 0 {
        Some(window)
    } else {
        None
    }
}

/// The window that a tray message asks to dock, if it does and names one.
pub fn dock_request(opcode: u32, window: u32) -> (r: Option<u32>)
    ensures
        r == requested_dock(opcode, window),
{
    if opcode == SYSTEM_TRAY_REQUEST_DOCK && window != 0 {
        Some(window)
    } else {
        None
    }
}

/// Whether a tray message ends the turn, so that no round of captures follows it: it asked to dock a
/// window, and none was docked.
pub fn ends_turn(opcode: u32, docked: bool) -> (r: bool)
    ensures
        r == (opcode == SYSTEM_TRAY_REQUEST_DOCK && !docked),
{
    opcode == SYSTEM_TRAY_REQUEST_DOCK && !docked
}

/// The position of the first entry for a client window.
pub open spec fn entry_of(docked: Seq<DockedWindow>, window: u32) -> Option<int> {
    first_where(docked, |d: DockedWindow| d.client_window == window)
}

/// The position of the first entry for a client window that is no longer in its container.
pub open spec fn strayed(docked: Seq<DockedWindow>, window: u32, parent: u32) -> Option<int> {
    first_where(
        docked,
        |d: DockedWindow| d.client_window == window && parent != d.container_window,
    )
}

/// The entry for a window that has just been docked. It is announced at once only with an icon.
pub open spec fn docked_entry(
    client: u32,
    container: u32,
    damage: u32,
    has_icon: bool,
    now: u64,
) -> DockedWindow {
    DockedWindow {
        client_window: client,
        container_window: container,
        damage_id: damage,
        dock_time: now,
        registered: has_icon,
    }
}

/// What a new icon of entry `k` does to the entries: a first icon announces the window.
pub open spec fn entries_after_icon(docked: Seq<DockedWindow>, k: int) -> Seq<DockedWindow> {
    docked.update(k, DockedWindow { registered: true, ..docked[k] })
}

/// What the status notifier side is told of a new icon of an entry.
pub open spec fn icon_event(entry: DockedWindow) -> BridgeEvent {
    if entry.registered {
        BridgeEvent::IconUpdated(entry.client_window)
    } else {
        BridgeEvent::Docked(entry.client_window)
    }
}

/// What is left to do for an entry that is given up.
pub open spec fn undocking(entry: DockedWindow) -> Undocking {
    Undocking {
        damage_id: entry.damage_id,
        container_window: entry.container_window,
        event: if entry.registered {
            Some(BridgeEvent::Undocked(entry.client_window))
        } else {
            None
        },
    }
}

/// The time from `then` to `now`, none if the clock went back.
pub open spec fn elapsed(now: u64, then: u64) -> int {
    if now > then {
        now - then
    } else {
        0
    }
}

/// Whether some window was docked so recently that its icon may still be missing.
pub open spec fn any_recent(docked: Seq<DockedWindow>, now: u64) -> bool {
    exists|i: int|
        0 <= i < docked.len() && elapsed(now, (#[trigger] docked[i]).dock_time) < FAST_PERIOD
}

/// The time between two rounds of captures.
pub open spec fn interval(docked: Seq<DockedWindow>, now: u64) -> int {
    if any_recent(docked, now) {
        FAST_INTERVAL as int
    } else {
        SLOW_INTERVAL as int
    }
}

/// For how many milliseconds to wait for the X server: until the next round, but at least ten and
/// at most a whole interval.
pub open spec fn wait_ms(docked: Seq<DockedWindow>, last_capture: u64, now: u64) -> int {
    let whole = interval(docked, now);
    let passed = elapsed(now, last_capture);
    let remaining = if passed < whole {
        (whole - passed) / 1_000_000
    } else {
        0
    };
    if remaining < 10 {
        10
    } else {
        remaining
    }
}

/// The docked windows and the icons that are kept.
pub struct BridgeModel {
    pub docked: Seq<DockedWindow>,
    pub icons: Map<u32, IconState>,
}

/// Whether every docked window is one: none has the number zero, which names no window.
pub open spec fn all_windows(docked: Seq<DockedWindow>) -> bool {
    forall|i: int| 0 <= i < docked.len() ==> (#[trigger] docked[i]).client_window != 0
}

/// What a bridge and a store hold.
pub open spec fn model(bridge: Bridge, store: IconStore) -> BridgeModel {
    BridgeModel { docked: bridge@.docked, icons: store@ }
}

/// What happens to the bridge.
pub enum BridgeStep {
    /// A tray message came. `docked` is what docking the window gave, where it succeeded: the
    /// container, the damage object, and the icon that could be captured at once.
    Message { opcode: u32, window: u32, docked: Option<(u32, u32, Option<CapturedIcon>)>, now: u64 },
    /// A window was destroyed.
    Destroyed { window: u32 },
    /// A window got a new parent.
    Reparented { window: u32, parent: u32 },
    /// The contents of a window changed, and its icon was captured.
    Captured { window: u32, icon: CapturedIcon, now: u64 },
    /// The icon of entry `k` was captured in a round of captures.
    Round { k: int, icon: CapturedIcon, now: u64 },
    /// The icon property or the hints of a window changed, and an icon was found.
    Property { window: u32, icon: CapturedIcon, now: u64 },
}

/// What a new icon of entry `k` does.
pub open spec fn takes_icon(
    before: BridgeModel,
    k: int,
    icon: CapturedIcon,
    now: u64,
    after: BridgeModel,
    event: Option<BridgeEvent>,
) -> bool {
    let entry = before.docked[k];
    if icon_changed(before.icons, entry.client_window, icon.pixels@) {
        &&& event == Some(icon_event(entry))
        &&& after.docked == entries_after_icon(before.docked, k)
        &&& stored(before.icons, after.icons, entry.client_window, icon_state(icon, now))
    } else {
        event is None && after == before
    }
}

/// What giving up entry `k`, if there is one, does.
pub open spec fn gives_up(
    before: BridgeModel,
    k: Option<int>,
    after: BridgeModel,
    event: Option<BridgeEvent>,
) -> bool {
    match k {
        Some(k) => {
            &&& event == undocking(before.docked[k]).event
            &&& after.docked == before.docked.remove(k)
            &&& after.icons == before.icons.remove(before.docked[k].client_window)
        },
        None => event is None && after == before,
    }
}

/// What docking a window does.
pub open spec fn docks(
    before: BridgeModel,
    client: u32,
    container: u32,
    damage: u32,
    captured: Option<CapturedIcon>,
    now: u64,
    after: BridgeModel,
    event: Option<BridgeEvent>,
) -> bool {
    &&& after.docked == before.docked.push(
        docked_entry(client, container, damage, captured is Some, now),
    )
    &&& match captured {
        Some(icon) => event == Some(BridgeEvent::Docked(client)) && stored(
            before.icons,
            after.icons,
            client,
            icon_state(icon, now),
        ),
        None => event is None && after.icons == before.icons,
    }
}

/// Whether a step leads from one state to another, with what the status notifier side is told of it. A
/// message that asks for no window, and a window that could not be docked, change nothing.
pub open spec fn follows(
    before: BridgeModel,
    step: BridgeStep,
    after: BridgeModel,
    event: Option<BridgeEvent>,
) -> bool {
    match step {
        BridgeStep::Message { opcode, window, docked, now } => match (
            requested_dock(opcode, window),
            docked,
        ) {
            (Some(client), Some((container, damage, captured))) => docks(
                before,
                client,
                container,
                damage,
                captured,
                now,
                after,
                event,
            ),
            _ => event is None && after == before,
        },
        BridgeStep::Destroyed { window } => gives_up(
            before,
            entry_of(before.docked, window),
            after,
            event,
        ),
        BridgeStep::Reparented { window, parent } => gives_up(
            before,
            strayed(before.docked, window, parent),
            after,
            event,
        ),
        BridgeStep::Captured { window, icon, now } => match entry_of(before.docked, window) {
            Some(k) => takes_icon(before, k, icon, now, after, event),
            None => event is None && after == before,
        },
        BridgeStep::Round { k, icon, now } => 0 <= k < before.docked.len() && takes_icon(
            before,
            k,
            icon,
            now,
            after,
            event,
        ),
        BridgeStep::Property { window, icon, now } => {
            &&& after.docked == before.docked
            &&& if entry_of(before.docked, window) is Some && icon_changed(
                before.icons,
                window,
                icon.pixels@,
            ) {
                event == Some(BridgeEvent::IconUpdated(window)) && stored(
                    before.icons,
                    after.icons,
                    window,
                    icon_state(icon, now),
                )
            } else {
                event is None && after.icons == before.icons
            }
        },
    }
}

/// What the status notifier side is told of an undocking.
pub open spec fn told(undocking: Option<Undocking>) -> Option<BridgeEvent> {
    match undocking {
        Some(u) => u.event,
        None => None,
    }
}

impl Bridge {
    /// Whether every docked window is one.
    pub open spec fn wf(&self) -> bool {
        all_windows(self@.docked)
    }

    /// No docked windows; the first round of captures is counted from `now`.
    pub fn new(now: u64) -> (r: Self)
        ensures
            r@.docked == Seq::<DockedWindow>::empty(),
            r@.last_capture == now,
            r.wf(),
    {
        Bridge { docked: Vec::new(), last_capture: now }
    }

    /// The docked windows, in the order in which they came.
    pub fn docked(&self) -> (r: &Vec<DockedWindow>)
        ensures
            r@ == self@.docked,
    {
        &self.docked
    }

    fn find(&self, window: u32) -> (r: Option<usize>)
        ensures
            match r {
                Some(k) => k < self@.docked.len() && entry_of(self@.docked, window) == Some(k as int)
                    && self@.docked[k as int].client_window == window,
                None => entry_of(self@.docked, window) is None,
            },
    {
        let ghost p = |d: DockedWindow| d.client_window == window;
        let mut i: usize = 0;
        while i < self.docked.len()
            invariant
                i <= self@.docked.len(),
                p == (|d: DockedWindow| d.client_window == window),
                entry_of(self@.docked, window) == first_from(self@.docked, p, i as int),
            decreases self@.docked.len() - i,
        {
            if self.docked[i].client_window == window {
                return Some(i);
            }
            i += 1;
        }
        None
    }

    fn find_strayed(&self, window: u32, parent: u32) -> (r: Option<usize>)
        ensures
            match r {
                Some(k) => k < self@.docked.len() && strayed(self@.docked, window, parent) == Some(
                    k as int,
                ) && self@.docked[k as int].client_window == window,
                None => strayed(self@.docked, window, parent) is None,
            },
    {
        let ghost p = |d: DockedWindow| d.client_window == window && parent != d.container_window;
        let mut i: usize = 0;
        while i < self.docked.len()
            invariant
                i <= self@.docked.len(),
                p == (|d: DockedWindow|
                    d.client_window == window && parent != d.container_window),
                strayed(self@.docked, window, parent) == first_from(self@.docked, p, i as int),
            decreases self@.docked.len() - i,
        {
            if self.docked[i].client_window == window && parent != self.docked[i].container_window {
                return Some(i);
            }
            i += 1;
        }
        None
    }

    /// Takes note of a window that was docked at the time `now`, with the icon that could be
    /// captured at once. Without an icon the window is announced later.
    pub fn dock(
        &mut self,
        store: &mut IconStore,
        client: u32,
        container: u32,
        damage: u32,
        captured: Option<CapturedIcon>,
        now: u64,
    ) -> (r: Option<BridgeEvent>)
        ensures
            final(self)@.docked == old(self)@.docked.push(
                docked_entry(client, container, damage, captured is Some, now),
            ),
            final(self)@.last_capture == old(self)@.last_capture,
            match captured {
                Some(icon) => r == Some(BridgeEvent::Docked(client)) && stored(
                    old(store)@,
                    final(store)@,
                    client,
                    icon_state(icon, now),
                ),
                None => r is None && final(store)@ == old(store)@,
            },
            old(store).wf() ==> final(store).wf(),
            old(self).wf() && client != 0 ==> final(self).wf(),
            docks(
                model(*old(self), *old(store)),
                client,
                container,
                damage,
                captured,
                now,
                model(*final(self), *final(store)),
                r,
            ),
    {
        let registered: bool = captured.is_some();
        let mut event: Option<BridgeEvent> = None;
        if let Some(icon) = captured {
            store.store_icon_state(client, icon, now);
            event = Some(BridgeEvent::Docked(client));
        }
        self.docked.push(
            DockedWindow {
                client_window: client,
                container_window: container,
                damage_id: damage,
                dock_time: now,
                registered,
            },
        );
        event
    }

    fn give_up(&mut self, store: &mut IconStore, k: usize) -> (r: Undocking)
        requires
            k < old(self)@.docked.len(),
        ensures
            final(self)@.docked == old(self)@.docked.remove(k as int),
            final(self)@.last_capture == old(self)@.last_capture,
            final(store)@ == old(store)@.remove(old(self)@.docked[k as int].client_window),
            old(store).wf() ==> final(store).wf(),
            r == undocking(old(self)@.docked[k as int]),
    {
        let entry: DockedWindow = self.docked.remove(k);
        store.forget(entry.client_window);
        Undocking {
            damage_id: entry.damage_id,
            container_window: entry.container_window,
            event: if entry.registered {
                Some(BridgeEvent::Undocked(entry.client_window))
            } else {
                None
            },
        }
    }

    /// A window was destroyed. Its first entry and its icon are given up.
    pub fn destroyed(&mut self, store: &mut IconStore, window: u32) -> (r: Option<Undocking>)
        ensures
            final(self)@.last_capture == old(self)@.last_capture,
            old(store).wf() ==> final(store).wf(),
            old(self).wf() ==> final(self).wf(),
            follows(
                model(*old(self), *old(store)),
                (BridgeStep::Destroyed { window }),
                model(*final(self), *final(store)),
                told(r),
            ),
            match entry_of(old(self)@.docked, window) {
                Some(k) => final(self)@.docked == old(self)@.docked.remove(k) && final(store)@
                    == old(store)@.remove(window) && r == Some(undocking(old(self)@.docked[k])),
                None => r is None && final(self)@.docked == old(self)@.docked && final(store)@
                    == old(store)@,
            },
    {
        match self.find(window) {
            Some(k) => Some(self.give_up(store, k)),
            None => None,
        }
    }

    /// A window got a new parent. The first entry whose container that is not is given up, and the
    /// icon with it.
    pub fn reparented(&mut self, store: &mut IconStore, window: u32, parent: u32) -> (r: Option<
        Undocking,
    >)
        ensures
            final(self)@.last_capture == old(self)@.last_capture,
            old(store).wf() ==> final(store).wf(),
            old(self).wf() ==> final(self).wf(),
            follows(
                model(*old(self), *old(store)),
                (BridgeStep::Reparented { window, parent }),
                model(*final(self), *final(store)),
                told(r),
            ),
            match strayed(old(self)@.docked, window, parent) {
                Some(k) => final(self)@.docked == old(self)@.docked.remove(k) && final(store)@
                    == old(store)@.remove(window) && r == Some(undocking(old(self)@.docked[k])),
                None => r is None && final(self)@.docked == old(self)@.docked && final(store)@
                    == old(store)@,
            },
    {
        match self.find_strayed(window, parent) {
            Some(k) => Some(self.give_up(store, k)),
            None => None,
        }
    }

    /// The damage object of a docked window.
    pub fn damage_of(&self, window: u32) -> (r: Option<u32>)
        ensures
            r == (match entry_of(self@.docked, window) {
                Some(k) => Some(self@.docked[k].damage_id),
                None => None,
            }),
    {
        match self.find(window) {
            Some(k) => Some(self.docked[k].damage_id),
            None => None,
        }
    }

    /// Whether a window is docked.
    pub fn is_docked(&self, window: u32) -> (r: bool)
        ensures
            r == (entry_of(self@.docked, window) is Some),
            r == exists|i: int|
                0 <= i < self@.docked.len() && (#[trigger] self@.docked[i]).client_window == window,
    {
        proof {
            lemma_first_from(self@.docked, |d: DockedWindow| d.client_window == window, 0);
        }
        let found = self.find(window);
        proof {
            if found is Some {
                assert(self@.docked[found->0 as int].client_window == window);
            }
        }
        found.is_some()
    }

    /// Whether a changed property of a window may be the icon of a docked one: it is the icon
    /// property or the hints.
    pub fn is_icon_property(&self, window: u32, atom: u32, icon_atom: u32, hints_atom: u32) -> (r: bool)
        ensures
            r == (entry_of(self@.docked, window) is Some && (atom == icon_atom || atom
                == hints_atom)),
    {
        (atom == icon_atom || atom == hints_atom) && self.is_docked(window)
    }

    /// Where to send a click, if the window is docked.
    pub fn click_target(&self, click: &ClickEvent) -> (r: Option<ClickTarget>)
        ensures
            r == (match entry_of(self@.docked, click.window_id) {
                Some(k) => Some(
                    ClickTarget {
                        client_window: click.window_id,
                        container_window: self@.docked[k].container_window,
                    },
                ),
                None => None,
            }),
    {
        match self.find(click.window_id) {
            Some(k) => Some(
                ClickTarget {
                    client_window: self.docked[k].client_window,
                    container_window: self.docked[k].container_window,
                },
            ),
            None => None,
        }
    }

    /// An icon of entry `k` was captured at the time `now`. An icon that is not new changes nothing;
    /// the first new icon announces the window, a later one tells of an update.
    pub fn captured_at(
        &mut self,
        store: &mut IconStore,
        k: usize,
        captured: CapturedIcon,
        now: u64,
    ) -> (r: Option<BridgeEvent>)
        requires
            k < old(self)@.docked.len(),
        ensures
            final(self)@.last_capture == old(self)@.last_capture,
            old(store).wf() ==> final(store).wf(),
            old(self).wf() ==> final(self).wf(),
            follows(
                model(*old(self), *old(store)),
                (BridgeStep::Round { k: k as int, icon: captured, now }),
                model(*final(self), *final(store)),
                r,
            ),
            ({
                let entry = old(self)@.docked[k as int];
                if icon_changed(old(store)@, entry.client_window, captured.pixels@) {
                    &&& r == Some(icon_event(entry))
                    &&& final(self)@.docked == entries_after_icon(old(self)@.docked, k as int)
                    &&& stored(
                        old(store)@,
                        final(store)@,
                        entry.client_window,
                        icon_state(captured, now),
                    )
                } else {
                    &&& r is None
                    &&& final(self)@.docked == old(self)@.docked
                    &&& final(store)@ == old(store)@
                }
            }),
    {
        let mut entry: DockedWindow = self.docked[k];
        if !store.is_changed(entry.client_window, &captured) {
            return None;
        }
        store.store_icon_state(entry.client_window, captured, now);
        if entry.registered {
            proof {
                assert(entries_after_icon(self@.docked, k as int) =~= self@.docked);
            }
            Some(BridgeEvent::IconUpdated(entry.client_window))
        } else {
            entry.registered = true;
            self.docked.set(k, entry);
            Some(BridgeEvent::Docked(entry.client_window))
        }
    }

    /// An icon of a window was captured after its contents changed.
    pub fn captured(
        &mut self,
        store: &mut IconStore,
        window: u32,
        captured: CapturedIcon,
        now: u64,
    ) -> (r: Option<BridgeEvent>)
        ensures
            final(self)@.last_capture == old(self)@.last_capture,
            old(store).wf() ==> final(store).wf(),
            old(self).wf() ==> final(self).wf(),
            follows(
                model(*old(self), *old(store)),
                (BridgeStep::Captured { window, icon: captured, now }),
                model(*final(self), *final(store)),
                r,
            ),
            match entry_of(old(self)@.docked, window) {
                Some(k) => if icon_changed(old(store)@, window, captured.pixels@) {
                    &&& r == Some(icon_event(old(self)@.docked[k]))
                    &&& final(self)@.docked == entries_after_icon(old(self)@.docked, k)
                    &&& stored(old(store)@, final(store)@, window, icon_state(captured, now))
                } else {
                    &&& r is None
                    &&& final(self)@.docked == old(self)@.docked
                    &&& final(store)@ == old(store)@
                },
                None => r is None && final(self)@.docked == old(self)@.docked && final(store)@
                    == old(store)@,
            },
    {
        match self.find(window) {
            Some(k) => self.captured_at(store, k, captured, now),
            None => None,
        }
    }

    /// An icon of a window was captured after its icon property or its hints changed. It tells of an
    /// update whether or not the window was announced.
    pub fn icon_property_changed(
        &self,
        store: &mut IconStore,
        window: u32,
        captured: CapturedIcon,
        now: u64,
    ) -> (r: Option<BridgeEvent>)
        ensures
            old(store).wf() ==> final(store).wf(),
            follows(
                model(*self, *old(store)),
                (BridgeStep::Property { window, icon: captured, now }),
                model(*self, *final(store)),
                r,
            ),
            if entry_of(self@.docked, window) is Some && icon_changed(
                old(store)@,
                window,
                captured.pixels@,
            ) {
                r == Some(BridgeEvent::IconUpdated(window)) && stored(
                    old(store)@,
                    final(store)@,
                    window,
                    icon_state(captured, now),
                )
            } else {
                r is None && final(store)@ == old(store)@
            },
    {
        if !self.is_docked(window) || !store.is_changed(window, &captured) {
            return None;
        }
        store.store_icon_state(window, captured, now);
        Some(BridgeEvent::IconUpdated(window))
    }

    /// Whether some window was docked so recently that its icon may still be missing.
    pub fn needs_fast_capture(&self, now: u64) -> (r: bool)
        ensures
            r == any_recent(self@.docked, now),
    {
        let mut i: usize = 0;
        while i < self.docked.len()
            invariant
                i <= self@.docked.len(),
                forall|j: int|
                    0 <= j < i ==> elapsed(now, (#[trigger] self@.docked[j]).dock_time)
                        >= FAST_PERIOD,
            decreases self@.docked.len() - i,
        {
            if now.saturating_sub(self.docked[i].dock_time) < FAST_PERIOD {
                proof {
                    assert(elapsed(now, self@.docked[i as int].dock_time) < FAST_PERIOD);
                }
                return true;
            }
            i += 1;
        }
        false
    }

    /// The time between two rounds of captures, in nanoseconds.
    pub fn capture_interval(&self, now: u64) -> (r: u64)
        ensures
            r == interval(self@.docked, now),
    {
        if self.needs_fast_capture(now) {
            FAST_INTERVAL
        } else {
            SLOW_INTERVAL
        }
    }

    /// For how many milliseconds to wait for the X server when it has no event.
    pub fn poll_timeout(&self, now: u64) -> (r: i32)
        ensures
            r == wait_ms(self@.docked, self@.last_capture, now),
            10 <= r <= 2000,
    {
        let whole: u64 = self.capture_interval(now);
        let remaining: u64 = whole.saturating_sub(now.saturating_sub(self.last_capture));
        let ms: u64 = remaining / 1_000_000;
        if ms < 10 {
            10
        } else {
            ms as i32
        }
    }

    /// Whether a round of captures is due. If it is, the next is counted from `now`.
    pub fn capture_due(&mut self, now: u64) -> (r: bool)
        ensures
            final(self)@.docked == old(self)@.docked,
            r == (elapsed(now, old(self)@.last_capture) >= interval(old(self)@.docked, now)),
            final(self)@.last_capture == (if r {
                now
            } else {
                old(self)@.last_capture
            }),
    {
        if now.saturating_sub(self.last_capture) >= self.capture_interval(now) {
            self.last_capture = now;
            true
        } else {
            false
        }
    }
}

// ---------------------------------------------------------------------------
// Clicks
// ---------------------------------------------------------------------------

/// How a click is carried out: the container is moved so that the middle of the icon is under the
/// click, the pointer is put there, and a button is pressed at the click.
#[derive(Clone, Copy, Debug, PartialEq, Eq, Structural)]
pub struct ClickPlan {
    pub container_x: i32,
    pub container_y: i32,
    /// The middle of the icon window.
    pub center: i16,
    pub pointer_x: i16,
    pub pointer_y: i16,
}

/// Whether a click has a place.
pub fn has_place(x: i32, y: i32) -> (r: bool)
    ensures
        r == (x > 0 || y > 0),
{
    x > 0 || y > 0
}

/// The place of a click. A click without a place is put near the upper right corner of the screen,
/// whose width is 1920 where it is not known.
pub open spec fn click_place(x: i32, y: i32, screen_width: Option<u16>) -> (i32, i32) {
    if x > 0 || y > 0 {
        (x, y)
    } else {
        let width: int = match screen_width {
            Some(w) => w as int,
            None => 1920,
        };
        ((width - 100) as i32, (EMBED_SIZE + 12) as i32)
    }
}

/// How a click is carried out. The coordinates of the container wrap round like the 32-bit numbers
/// they are, and those of the pointer keep their lower 16 bits.
pub fn click_plan(x: i32, y: i32, screen_width: Option<u16>) -> (r: ClickPlan)
    ensures
        ({
            let place = click_place(x, y, screen_width);
            &&& r.center == EMBED_SIZE / 2
            &&& r.container_x == place.0.wrapping_sub(16)
            &&& r.container_y == place.1.wrapping_sub(16)
            &&& r.pointer_x == place.0 as i16
            &&& r.pointer_y == place.1 as i16
        }),
{
    let center: i16 = (EMBED_SIZE / 2) as i16;
    let (px, py): (i32, i32) = if has_place(x, y) {
        (x, y)
    } else {
        let width: i32 = match screen_width {
            Some(w) => w as i32,
            None => 1920,
        };
        (width - 100, EMBED_SIZE as i32 + 12)
    };
    ClickPlan {
        container_x: px.wrapping_sub(center as i32),
        container_y: py.wrapping_sub(center as i32),
        center,
        pointer_x: #[verifier::truncate] (px as i16),
        pointer_y: #[verifier::truncate] (py as i16),
    }
}

// ---------------------------------------------------------------------------
// Laws
// ---------------------------------------------------------------------------

/// How many entries are announced.
pub open spec fn announced(docked: Seq<DockedWindow>) -> nat
    decreases docked.len(),
{
    if docked.len() == 0 {
        0
    } else {
        announced(docked.drop_last()) + (if docked.last().registered {
            1nat
        } else {
            0
        })
    }
}

proof fn lemma_announced_update(docked: Seq<DockedWindow>, k: int, entry: DockedWindow)
    requires
        0 <= k < docked.len(),
    ensures
        announced(docked.update(k, entry)) == announced(docked) - (if docked[k].registered {
            1int
        } else {
            0
        }) + (if entry.registered {
            1int
        } else {
            0
        }),
    decreases docked.len(),
{
    let after = docked.update(k, entry);
    if k == docked.len() - 1 {
        assert(after.drop_last() =~= docked.drop_last());
    } else {
        assert(after.drop_last() =~= docked.drop_last().update(k, entry));
        lemma_announced_update(docked.drop_last(), k, entry);
    }
}

proof fn lemma_announced_remove(docked: Seq<DockedWindow>, k: int)
    requires
        0 <= k < docked.len(),
    ensures
        announced(docked.remove(k)) == announced(docked) - (if docked[k].registered {
            1int
        } else {
            0
        }),
    decreases docked.len(),
{
    let after = docked.remove(k);
    if k == docked.len() - 1 {
        assert(after =~= docked.drop_last());
    } else {
        assert(after.drop_last() =~= docked.drop_last().remove(k));
        assert(after.last() == docked.last());
        lemma_announced_remove(docked.drop_last(), k);
    }
}

/// Docking, icons and undocking keep the status notifier side in step: each window that it is told
/// is docked is one more announced entry, each that it is told is undocked one fewer, and nothing
/// else changes their number.
pub proof fn law_announcements_balance(
    docked: Seq<DockedWindow>,
    k: int,
    client: u32,
    container: u32,
    damage: u32,
    has_icon: bool,
    now: u64,
)
    requires
        0 <= k < docked.len(),
    ensures
        announced(docked.push(docked_entry(client, container, damage, has_icon, now)))
            == announced(docked) + (if has_icon {
            1int
        } else {
            0
        }),
        announced(entries_after_icon(docked, k)) == announced(docked) + (if icon_event(
            docked[k],
        ) is Docked {
            1int
        } else {
            0
        }),
        announced(docked.remove(k)) == announced(docked) - (if undocking(docked[k]).event is Some {
            1int
        } else {
            0
        }),
{
    let entry = docked_entry(client, container, damage, has_icon, now);
    assert(docked.push(entry).drop_last() =~= docked);
    lemma_announced_update(docked, k, DockedWindow { registered: true, ..docked[k] });
    lemma_announced_remove(docked, k);
}

/// A window is announced by its first icon and only updated by later ones: once an icon came in, the
/// next is an update.
pub proof fn law_announced_once(docked: Seq<DockedWindow>, k: int)
    requires
        0 <= k < docked.len(),
    ensures
        entries_after_icon(docked, k)[k].registered,
        icon_event(entries_after_icon(docked, k)[k]) == BridgeEvent::IconUpdated(
            docked[k].client_window,
        ),
        entries_after_icon(entries_after_icon(docked, k), k) == entries_after_icon(docked, k),
{
    assert(entries_after_icon(entries_after_icon(docked, k), k) =~= entries_after_icon(docked, k));
}

/// An icon that was kept is not new when it is captured again.
pub proof fn law_kept_icon_is_not_new(
    before: Map<u32, IconState>,
    after: Map<u32, IconState>,
    window: u32,
    state: IconState,
)
    requires
        stored(before, after, window, state),
    ensures
        after.contains_key(window),
        after[window] == state,
        !icon_changed(after, window, state.pixels@),
{
}

/// A message docks a window exactly if it is a request to dock, of the number zero, and names one.
pub proof fn law_dock_requests(opcode: u32, window: u32)
    ensures
        requested_dock(opcode, window) is Some <==> opcode == 0 && window != 0,
        requested_dock(opcode, window) matches Some(w) ==> w == window,
{
}

/// The entry of a window is the first for it, and the one that strayed the first for it that is no
/// longer in its container.
pub proof fn law_entries(docked: Seq<DockedWindow>, window: u32, parent: u32)
    ensures
        match entry_of(docked, window) {
            Some(k) => 0 <= k < docked.len() && docked[k].client_window == window && forall|j: int|
                0 <= j < k ==> (#[trigger] docked[j]).client_window != window,
            None => forall|j: int|
                0 <= j < docked.len() ==> (#[trigger] docked[j]).client_window != window,
        },
        match strayed(docked, window, parent) {
            Some(k) => 0 <= k < docked.len() && docked[k].client_window == window
                && docked[k].container_window != parent && forall|j: int|
                0 <= j < k ==> (#[trigger] docked[j]).client_window != window
                    || docked[j].container_window == parent,
            None => forall|j: int|
                0 <= j < docked.len() ==> (#[trigger] docked[j]).client_window != window
                    || docked[j].container_window == parent,
        },
{
    let p = |d: DockedWindow| d.client_window == window;
    let q = |d: DockedWindow| d.client_window == window && parent != d.container_window;
    lemma_first_from(docked, p, 0);
    lemma_first_from(docked, q, 0);
    let n = match entry_of(docked, window) {
        Some(k) => k,
        None => docked.len() as int,
    };
    assert forall|j: int| 0 <= j < n implies (#[trigger] docked[j]).client_window != window by {
        assert(!p(docked[j]));
    }
    let m = match strayed(docked, window, parent) {
        Some(k) => k,
        None => docked.len() as int,
    };
    assert forall|j: int| 0 <= j < m implies (#[trigger] docked[j]).client_window != window
        || docked[j].container_window == parent by {
        assert(!q(docked[j]));
    }
}

/// Docking a window adds an entry for it at the end, announced exactly if it has an icon, which is kept;
/// no other entry changes.
pub proof fn law_docking(
    before: BridgeModel,
    client: u32,
    container: u32,
    damage: u32,
    captured: Option<CapturedIcon>,
    now: u64,
    after: BridgeModel,
    event: Option<BridgeEvent>,
)
    requires
        docks(before, client, container, damage, captured, now, after, event),
    ensures
        after.docked.len() == before.docked.len() + 1,
        forall|i: int| 0 <= i < before.docked.len() ==> #[trigger] after.docked[i] == before.docked[i],
        after.docked.last().client_window == client,
        after.docked.last().container_window == container,
        after.docked.last().damage_id == damage,
        after.docked.last().dock_time == now,
        after.docked.last().registered <==> captured is Some,
        captured is Some <==> event == Some(BridgeEvent::Docked(client)),
        captured is None ==> event is None && after.icons == before.icons,
        captured matches Some(icon) ==> after.icons.contains_key(client) && after.icons[client].width
            == icon.width && after.icons[client].height == icon.height && after.icons[client].pixels
            == icon.pixels && after.icons[client].last_updated == now,
{
}

/// A new icon of an entry is kept and announces the window where it was not announced, and updates it
/// where it was; the entry is announced from then on. An icon with the same pixels does nothing.
pub proof fn law_new_icons(
    before: BridgeModel,
    k: int,
    icon: CapturedIcon,
    now: u64,
    after: BridgeModel,
    event: Option<BridgeEvent>,
)
    requires
        0 <= k < before.docked.len(),
        takes_icon(before, k, icon, now, after, event),
    ensures
        ({
            let w = before.docked[k].client_window;
            if before.icons.contains_key(w) && before.icons[w].pixels@ == icon.pixels@ {
                after == before && event is None
            } else {
                &&& event == (if before.docked[k].registered {
                    Some(BridgeEvent::IconUpdated(w))
                } else {
                    Some(BridgeEvent::Docked(w))
                })
                &&& after.docked.len() == before.docked.len()
                &&& after.docked[k] == (DockedWindow { registered: true, ..before.docked[k] })
                &&& forall|i: int|
                    0 <= i < before.docked.len() && i != k ==> #[trigger] after.docked[i]
                        == before.docked[i]
                &&& after.icons.contains_key(w) && after.icons[w].pixels == icon.pixels
                &&& after.icons[w].width == icon.width && after.icons[w].height == icon.height
                &&& after.icons[w].last_updated == now
            }
        }),
{
}

/// Giving up an entry removes it alone and forgets the icon of its window alone; what was announced is
/// withdrawn, and nothing else.
pub proof fn law_giving_up(before: BridgeModel, k: int, after: BridgeModel, event: Option<BridgeEvent>, other: u32)
    requires
        0 <= k < before.docked.len(),
        gives_up(before, Some(k), after, event),
    ensures
        ({
            let w = before.docked[k].client_window;
            &&& after.docked.len() == before.docked.len() - 1
            &&& forall|i: int| 0 <= i < k ==> #[trigger] after.docked[i] == before.docked[i]
            &&& forall|i: int|
                k <= i < after.docked.len() ==> #[trigger] after.docked[i] == before.docked[i + 1]
            &&& !after.icons.contains_key(w)
            &&& other != w ==> after.icons.contains_key(other) == before.icons.contains_key(other)
                && after.icons[other] == before.icons[other]
            &&& event == (if before.docked[k].registered {
                Some(BridgeEvent::Undocked(w))
            } else {
                None
            })
            &&& undocking(before.docked[k]).damage_id == before.docked[k].damage_id
            &&& undocking(before.docked[k]).container_window == before.docked[k].container_window
            &&& undocking(before.docked[k]).event == event
        }),
{
}

/// Keeping an icon loses no other while there are fewer than 256; a full store loses one, and none that
/// is kept is older than that.
pub proof fn law_keeping_icons(
    before: Map<u32, IconState>,
    after: Map<u32, IconState>,
    window: u32,
    state: IconState,
    other: u32,
)
    requires
        stored(before, after, window, state),
        before.contains_key(other),
        other != window,
    ensures
        after.contains_key(window) && after[window] == state,
        before.len() < 256 ==> after.contains_key(other),
        after.contains_key(other) ==> after[other] == before[other],
        !after.contains_key(other) ==> forall|w: u32| #[trigger]
            before.contains_key(w) ==> before[other].last_updated <= before[w].last_updated && (w
                != other && w != window ==> after.contains_key(w)),
{
}

/// Captures are frequent, five in a second, while some window was docked less than two seconds ago, and
/// else one in two seconds.
pub proof fn law_rounds(docked: Seq<DockedWindow>, now: u64, last: u64)
    ensures
        (exists|i: int|
            0 <= i < docked.len() && (now < (#[trigger] docked[i]).dock_time || now - docked[i].dock_time
                < 2_000_000_000)) ==> interval(docked, now) == 200_000_000,
        (forall|i: int|
            0 <= i < docked.len() ==> now >= (#[trigger] docked[i]).dock_time && now - docked[i].dock_time
                >= 2_000_000_000) ==> interval(docked, now) == 2_000_000_000,
        now >= last ==> elapsed(now, last) == now - last,
        now <= last ==> elapsed(now, last) == 0,
        wait_ms(docked, last, now) >= 10,
        1_000_000 * wait_ms(docked, last, now) <= interval(docked, now),
        wait_ms(docked, last, now) > 10 ==> 1_000_000 * wait_ms(docked, last, now) <= interval(
            docked,
            now,
        ) - elapsed(now, last) < 1_000_000 * wait_ms(docked, last, now) + 1_000_000,
        wait_ms(docked, last, now) == 10 ==> interval(docked, now) - elapsed(now, last) < 11_000_000,
{
    if exists|i: int|
        0 <= i < docked.len() && (now < (#[trigger] docked[i]).dock_time || now - docked[i].dock_time
            < 2_000_000_000) {
        let i = choose|i: int|
            0 <= i < docked.len() && (now < (#[trigger] docked[i]).dock_time || now
                - docked[i].dock_time < 2_000_000_000);
        assert(elapsed(now, docked[i].dock_time) < FAST_PERIOD);
    }
}

/// A click goes where it was made; one that was made nowhere goes to the place of the tray in the upper
/// right corner of the screen.
pub proof fn law_places_of_clicks(x: i32, y: i32, width: u16)
    ensures
        x > 0 || y > 0 ==> click_place(x, y, Some(width)) == (x, y) && click_place(x, y, None) == (x, y),
        x <= 0 && y <= 0 ==> click_place(x, y, Some(width)) == ((width - 100) as i32, 44i32)
            && click_place(x, y, None) == (1820i32, 44i32),
{
}

/// A store takes in nothing but the icon that is kept, and from 256 icons on it gives up one that no
/// other is older than, unless that is the icon that is replaced.
pub proof fn law_full_store_gives_one_up(
    before: Map<u32, IconState>,
    after: Map<u32, IconState>,
    window: u32,
    state: IconState,
)
    requires
        stored(before, after, window, state),
    ensures
        forall|w: u32| #[trigger] after.contains_key(w) ==> w == window || before.contains_key(w),
        before.len() >= 256 ==> exists|gone: u32| #[trigger]
            before.contains_key(gone) && (gone == window || !after.contains_key(gone)) && (forall|w: u32| #[trigger]
                before.contains_key(w) ==> before[gone].last_updated <= before[w].last_updated),
{
    if before.len() >= 256 {
        let oldest = choose|oldest: u32| #[trigger]
            is_oldest(before, oldest) && after == before.remove(oldest).insert(window, state);
        assert(before.contains_key(oldest));
        assert(oldest == window || !after.contains_key(oldest));
    }
}

} // verus!
