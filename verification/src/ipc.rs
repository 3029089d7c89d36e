//! What the parts of the shell exchange: workspaces, tray items and menus.

use vstd::prelude::*;

use crate::niri::{Action, ActionView};
use crate::text::views;

verus! {

/// A workspace, as the bar shows it.
#[derive(Debug, Clone, Copy, PartialEq, Eq, Structural)]
pub struct WorkspaceState {
    pub id: u64,
    pub index: u32,
    pub active: bool,
    pub occupied: bool,
}

/// One size of an icon, as a status notifier item offers it.
#[derive(Debug, PartialEq)]
pub struct Pixmap {
    pub width: i32,
    pub height: i32,
    pub data: Vec<u8>,
}

/// An item of the system tray.
#[derive(Debug)]
pub struct TrayItem {
    pub id: String,
    pub title: String,
    pub status: String,
    pub icon_path: Option<String>,
    pub address: String,
    pub menu_path: Option<String>,
}

/// The characters of a text that may be missing.
pub open spec fn text_view(s: Option<String>) -> Option<Seq<char>> {
    match s {
        Some(t) => Some(t@),
        None => None,
    }
}

/// What a tray item holds.
pub struct TrayItemView {
    pub id: Seq<char>,
    pub title: Seq<char>,
    pub status: Seq<char>,
    pub icon_path: Option<Seq<char>>,
    pub address: Seq<char>,
    pub menu_path: Option<Seq<char>>,
}

impl View for TrayItem {
    type V = TrayItemView;

    open spec fn view(&self) -> TrayItemView {
        TrayItemView {
            id: self.id@,
            title: self.title@,
            status: self.status@,
            icon_path: text_view(self.icon_path),
            address: self.address@,
            menu_path: text_view(self.menu_path),
        }
    }
}

impl Clone for TrayItem {
    fn clone(&self) -> (r: Self)
        ensures
            r@ == self@,
    {
        TrayItem {
            id: self.id.clone(),
            title: self.title.clone(),
            status: self.status.clone(),
            icon_path: self.icon_path.clone(),
            address: self.address.clone(),
            menu_path: self.menu_path.clone(),
        }
    }
}

/// What the tray items of a list hold.
pub open spec fn tray_views(items: Seq<TrayItem>) -> Seq<TrayItemView> {
    Seq::new(items.len(), |i: int| items[i]@)
}

/// An item of a menu.
#[derive(Debug)]
pub struct MenuItem {
    pub id: i32,
    pub label: String,
    pub enabled: bool,
    pub visible: bool,
    pub is_separator: bool,
    pub toggle_type: String,
    pub toggle_state: i32,
    pub children: Vec<MenuItem>,
}

/// What a menu item holds.
pub struct MenuItemView {
    pub id: i32,
    pub label: Seq<char>,
    pub enabled: bool,
    pub visible: bool,
    pub is_separator: bool,
    pub toggle_type: Seq<char>,
    pub toggle_state: i32,
    pub children: Seq<MenuItemView>,
}

impl MenuItem {
    /// What the item holds, its children included.
    pub open spec fn deep(self) -> MenuItemView
        decreases self,
    {
        MenuItemView {
            id: self.id,
            label: self.label@,
            enabled: self.enabled,
            visible: self.visible,
            is_separator: self.is_separator,
            toggle_type: self.toggle_type@,
            toggle_state: self.toggle_state,
            children: Seq::new(
                self.children@.len(),
                |i: int|
                    if 0 <= i < self.children@.len() {
                        self.children@[i].deep()
                    } else {
                        arbitrary()
                    },
            ),
        }
    }
}

/// What the menu items of a list hold.
pub open spec fn menu_views(items: Seq<MenuItem>) -> Seq<MenuItemView> {
    Seq::new(items.len(), |i: int| items[i].deep())
}

/// What is to be done outside the shell.
#[derive(Debug, PartialEq)]
pub enum Effect {
    /// Nothing.
    Nothing,
    /// Run a program, and wait for its end in the background.
    Run { program: String, arguments: Vec<String> },
    /// Send a command to the socket of Hyprland.
    Hyprland { socket_path: String, command: String },
    /// Send an action to the socket of Niri.
    Niri { socket_path: String, action: Action },
}

/// What an effect holds.
pub enum EffectView {
    Nothing,
    Run { program: Seq<char>, arguments: Seq<Seq<char>> },
    Hyprland { socket_path: Seq<char>, command: Seq<char> },
    Niri { socket_path: Seq<char>, action: ActionView },
}

impl View for Effect {
    type V = EffectView;

    open spec fn view(&self) -> EffectView {
        match *self {
            Effect::Nothing => EffectView::Nothing,
            Effect::Run { program, arguments } => EffectView::Run {
                program: program@,
                arguments: views(arguments@),
            },
            Effect::Hyprland { socket_path, command } => EffectView::Hyprland {
                socket_path: socket_path@,
                command: command@,
            },
            Effect::Niri { socket_path, action } => EffectView::Niri {
                socket_path: socket_path@,
                action: action@,
            },
        }
    }
}

/// A compositor, as the bar uses it.
pub trait BarProvider {
    /// What switching to a workspace does.
    spec fn switching(&self, id: u64) -> EffectView;

    /// Switches to a workspace.
    fn switch_workspace(&self, id: u64) -> (r: Effect)
        ensures
            r@ == self.switching(id),
    ;
}

/// A compositor, as the launcher uses it.
pub trait LauncherProvider {
    /// What starting a command does.
    spec fn spawning(&self, command: Seq<char>) -> EffectView;

    /// Starts a command.
    fn spawn(&self, command: &str) -> (r: Effect)
        ensures
            r@ == self.spawning(command@),
    ;
}

/// Stands for a compositor that is not there.
pub struct NoopBarProvider;

impl BarProvider for NoopBarProvider {
    open spec fn switching(&self, id: u64) -> EffectView {
        EffectView::Nothing
    }

    fn switch_workspace(&self, id: u64) -> (r: Effect) {
        Effect::Nothing
    }
}

/// Stands for a compositor that is not there.
pub struct NoopSpawner;

impl LauncherProvider for NoopSpawner {
    open spec fn spawning(&self, command: Seq<char>) -> EffectView {
        EffectView::Nothing
    }

    fn spawn(&self, command: &str) -> (r: Effect) {
        Effect::Nothing
    }
}

/// The compositor that was asked for, if it is there.
pub enum Choice<P, N> {
    Compositor(P),
    Noop(N),
}

impl<P: BarProvider> BarProvider for Choice<P, NoopBarProvider> {
    open spec fn switching(&self, id: u64) -> EffectView {
        match self {
            Choice::Compositor(p) => p.switching(id),
            Choice::Noop(n) => n.switching(id),
        }
    }

    fn switch_workspace(&self, id: u64) -> (r: Effect) {
        match self {
            Choice::Compositor(p) => p.switch_workspace(id),
            Choice::Noop(n) => n.switch_workspace(id),
        }
    }
}

impl<P: LauncherProvider> LauncherProvider for Choice<P, NoopSpawner> {
    open spec fn spawning(&self, command: Seq<char>) -> EffectView {
        match self {
            Choice::Compositor(p) => p.spawning(command),
            Choice::Noop(n) => n.spawning(command),
        }
    }

    fn spawn(&self, command: &str) -> (r: Effect) {
        match self {
            Choice::Compositor(p) => p.spawn(command),
            Choice::Noop(n) => n.spawn(command),
        }
    }
}

/// The longest pause before a connection is tried again, in seconds.
pub const MAX_BACKOFF: u64 = 30;

/// The pause after a pause of `seconds`: twice as long, within one second and the longest pause.
pub open spec fn backoff_after(seconds: u64) -> int {
    if seconds == 0 {
        1
    } else if 2 * seconds < MAX_BACKOFF {
        2 * seconds
    } else {
        MAX_BACKOFF as int
    }
}

/// The pause after a pause of `seconds`: twice as long, within one second and the longest pause.
pub fn next_backoff(seconds: u64) -> (r: u64)
    ensures
        r == backoff_after(seconds),
{
    if seconds == 0 {
        1
    } else if seconds < MAX_BACKOFF / 2 {
        2 * seconds
    } else {
        MAX_BACKOFF
    }
}

/// Pauses grow until they are the longest, and no pause is longer.
pub proof fn law_pauses_grow(seconds: u64)
    ensures
        1 <= backoff_after(seconds) <= 30,
        seconds < 30 ==> backoff_after(seconds) > seconds,
        1 <= seconds <= 15 ==> backoff_after(seconds) == 2 * seconds,
        seconds >= 15 ==> backoff_after(seconds) == 30,
{
}

/// What a tray asks of the bus on behalf of its user.
#[derive(Debug, PartialEq)]
pub enum TrayRequest {
    /// Nothing is asked: there is no connection, or the item has no menu.
    Nothing,
    /// The address of the item is no address.
    InvalidAddress { message: String },
    /// The item is to be activated.
    Activate { bus_name: String, object_path: String, x: i32, y: i32 },
    /// The item is to show its own menu.
    ContextMenu { bus_name: String, object_path: String, x: i32, y: i32 },
    /// The menu of the item is to be fetched.
    FetchMenu { bus_name: String, menu_path: String },
    /// An item of the menu was chosen.
    MenuEvent { bus_name: String, menu_path: String, id: i32 },
}

/// What a request holds.
pub enum TrayRequestView {
    Nothing,
    InvalidAddress { message: Seq<char> },
    Activate { bus_name: Seq<char>, object_path: Seq<char>, x: i32, y: i32 },
    ContextMenu { bus_name: Seq<char>, object_path: Seq<char>, x: i32, y: i32 },
    FetchMenu { bus_name: Seq<char>, menu_path: Seq<char> },
    MenuEvent { bus_name: Seq<char>, menu_path: Seq<char>, id: i32 },
}

impl View for TrayRequest {
    type V = TrayRequestView;

    open spec fn view(&self) -> TrayRequestView {
        match *self {
            TrayRequest::Nothing => TrayRequestView::Nothing,
            TrayRequest::InvalidAddress { message } => TrayRequestView::InvalidAddress {
                message: message@,
            },
            TrayRequest::Activate { bus_name, object_path, x, y } => TrayRequestView::Activate {
                bus_name: bus_name@,
                object_path: object_path@,
                x,
                y,
            },
            TrayRequest::ContextMenu { bus_name, object_path, x, y } => TrayRequestView::ContextMenu {
                bus_name: bus_name@,
                object_path: object_path@,
                x,
                y,
            },
            TrayRequest::FetchMenu { bus_name, menu_path } => TrayRequestView::FetchMenu {
                bus_name: bus_name@,
                menu_path: menu_path@,
            },
            TrayRequest::MenuEvent { bus_name, menu_path, id } => TrayRequestView::MenuEvent {
                bus_name: bus_name@,
                menu_path: menu_path@,
                id,
            },
        }
    }
}

/// A source of tray items.
pub trait TrayProvider: Sized {
    /// The items, in the order in which they came.
    fn items(&self) -> &[TrayItem];

    /// Activates an item at a position of the screen.
    fn activate_at(&self, address: &str, x: i32, y: i32) -> TrayRequest;

    /// Has an item show its own menu at a position of the screen.
    fn context_menu_at(&self, address: &str, x: i32, y: i32) -> TrayRequest;

    /// Fetches the menu of an item.
    fn fetch_menu(&self, address: &str) -> TrayRequest;

    /// Chooses an item of the menu of an item.
    fn activate_menu_item(&self, address: &str, menu_item_id: i32) -> TrayRequest;
}

/// Where a compositor was found it does the work, and where none was found nothing is done.
pub proof fn law_choice_of_a_compositor<P: BarProvider, Q: LauncherProvider>(
    p: P,
    q: Q,
    id: u64,
    command: Seq<char>,
)
    ensures
        Choice::<P, NoopBarProvider>::Compositor(p).switching(id) == p.switching(id),
        Choice::<P, NoopBarProvider>::Noop(NoopBarProvider).switching(id) is Nothing,
        Choice::<Q, NoopSpawner>::Compositor(q).spawning(command) == q.spawning(command),
        Choice::<Q, NoopSpawner>::Noop(NoopSpawner).spawning(command) is Nothing,
{
}

} // verus!
