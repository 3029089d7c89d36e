//! Docked windows as status notifier items: names, properties and the items that are registered.

use std::collections::HashMap;

use vstd::prelude::*;

use crate::number::{hex, hex_text, law_hex_is_injective};
use crate::ipc::Pixmap;
use crate::tray::address::{destination, item_address, law_registered_item_is_reached};
use crate::tray::icon::{is_complete, law_channels_are_kept, rgba_of};
use crate::xembed::bridge::{BridgeEvent, ClickEvent, IconStore};
use crate::xembed::capture::{argb_bytes, Pixel};

verus! {

broadcast use vstd::std_specs::hash::group_hash_axioms;

/// The identifier of the item for a window.
pub open spec fn item_id(window: u32) -> Seq<char> {
    "xembed_"@ + hex_text(window as nat)
}

/// The title of the item for a window.
pub open spec fn item_title(window: u32) -> Seq<char> {
    "XEmbed Icon "@ + hex_text(window as nat)
}

/// The object path of the item for a window.
pub open spec fn item_path(window: u32) -> Seq<char> {
    "/StatusNotifierItem/xembed_"@ + hex_text(window as nat)
}

/// The object path of the item for a window.
pub fn object_path(window: u32) -> (r: String)
    ensures
        r@ == item_path(window),
{
    let mut r = "/StatusNotifierItem/xembed_".to_owned();
    r.append(hex(window as u64).as_str());
    r
}

/// The status notifier item that stands for a docked window.
#[derive(Clone, Copy)]
pub struct BridgedIcon {
    pub window_id: u32,
}

impl BridgedIcon {
    /// The identifier of the item.
    pub fn id(&self) -> (r: String)
        ensures
            r@ == item_id(self.window_id),
    {
        let mut r = "xembed_".to_owned();
        r.append(hex(self.window_id as u64).as_str());
        r
    }

    /// The title of the item.
    pub fn title(&self) -> (r: String)
        ensures
            r@ == item_title(self.window_id),
    {
        let mut r = "XEmbed Icon ".to_owned();
        r.append(hex(self.window_id as u64).as_str());
        r
    }

    /// The status of the item, which is always shown.
    pub fn status(&self) -> (r: String)
        ensures
            r@ == "Active"@,
    {
        "Active".to_owned()
    }

    /// The item has no icon of a theme.
    pub fn icon_name(&self) -> (r: String)
        ensures
            r@ == Seq::<char>::empty(),
    {
        String::new()
    }

    /// The item has no icon theme.
    pub fn icon_theme_path(&self) -> (r: String)
        ensures
            r@ == Seq::<char>::empty(),
    {
        String::new()
    }

    /// The icon of the window, if one with pixels is kept.
    pub fn icon_pixmap(&self, store: &IconStore) -> (r: Vec<Pixmap>)
        ensures
            if store@.contains_key(self.window_id) && store@[self.window_id].pixels@.len() > 0 {
                let state = store@[self.window_id];
                &&& r@.len() == 1
                &&& r@[0].width == state.width
                &&& r@[0].height == state.height
                &&& r@[0].data@ == state.pixels@
            } else {
                r@.len() == 0
            },
    {
        let mut out: Vec<Pixmap> = Vec::new();
        if let Some(state) = store.icons.get(&self.window_id) {
            if state.pixels.len() > 0 {
                let data = state.pixels.clone();
                proof {
                    assert(data@ =~= state.pixels@);
                }
                out.push(Pixmap { width: state.width as i32, height: state.height as i32, data });
            }
        }
        out
    }

    /// The object path of the menu: the item has none.
    pub fn menu(&self) -> (r: String)
        ensures
            r@ == "/"@,
    {
        "/".to_owned()
    }

    fn click(&self, button: u8, x: i32, y: i32) -> (r: ClickEvent)
        ensures
            r == (ClickEvent {
                window_id: self.window_id,
                button,
                x_position: x,
                y_position: y,
            }),
    {
        ClickEvent { window_id: self.window_id, button, x_position: x, y_position: y }
    }

    /// The item was activated: a click with the left button.
    pub fn activate(&self, x: i32, y: i32) -> (r: ClickEvent)
        ensures
            r == (ClickEvent {
                window_id: self.window_id,
                button: 1,
                x_position: x,
                y_position: y,
            }),
    {
        self.click(1, x, y)
    }

    /// The item was activated in the second way: a click with the middle button.
    pub fn secondary_activate(&self, x: i32, y: i32) -> (r: ClickEvent)
        ensures
            r == (ClickEvent {
                window_id: self.window_id,
                button: 2,
                x_position: x,
                y_position: y,
            }),
    {
        self.click(2, x, y)
    }

    /// The menu of the item was asked for: a click with the right button.
    pub fn context_menu(&self, x: i32, y: i32) -> (r: ClickEvent)
        ensures
            r == (ClickEvent {
                window_id: self.window_id,
                button: 3,
                x_position: x,
                y_position: y,
            }),
    {
        self.click(3, x, y)
    }
}

/// What to do on the bus about a docked window.
#[derive(Debug, PartialEq)]
pub enum SniAction {
    Nothing,
    /// Serve an item at the path and register it with the watcher.
    Register { window: u32, path: String },
    /// Take the item at the path away from the watcher and stop serving it.
    Withdraw { path: String },
    /// Tell that the icon of the item at the path is new.
    Refresh { path: String },
}

/// The items that are registered, by window.
pub struct SniRegistry {
    pub paths: HashMap<u32, String>,
}

impl View for SniRegistry {
    type V = Set<u32>;

    open spec fn view(&self) -> Set<u32> {
        self.paths@.dom()
    }
}

/// Whether an action does for a registry what an event asks for. A window that is not registered is
/// neither withdrawn nor refreshed.
pub open spec fn answers(windows: Set<u32>, event: BridgeEvent, action: SniAction) -> bool {
    match event {
        BridgeEvent::Docked(w) => action matches SniAction::Register { window, path } && window == w
            && path@ == item_path(w),
        BridgeEvent::Undocked(w) => if windows.contains(w) {
            action matches SniAction::Withdraw { path } && path@ == item_path(w)
        } else {
            action is Nothing
        },
        BridgeEvent::IconUpdated(w) => if windows.contains(w) {
            action matches SniAction::Refresh { path } && path@ == item_path(w)
        } else {
            action is Nothing
        },
    }
}

/// The registered windows once an event was taken. A docked window counts only when its registration
/// succeeded.
pub open spec fn windows_after(windows: Set<u32>, event: BridgeEvent) -> Set<u32> {
    match event {
        BridgeEvent::Undocked(w) => windows.remove(w),
        _ => windows,
    }
}

impl SniRegistry {
    /// Whether each item is registered under the path of its window.
    pub open spec fn wf(&self) -> bool {
        forall|w: u32| #[trigger] self.paths@.contains_key(w) ==> self.paths@[w]@ == item_path(w)
    }

    /// A registry without items.
    pub fn new() -> (r: Self)
        ensures
            r.wf(),
            r@ == Set::<u32>::empty(),
    {
        let r = SniRegistry { paths: HashMap::new() };
        proof {
            assert(r@ =~= Set::<u32>::empty());
        }
        r
    }

    /// What to do on the bus about an event.
    pub fn handle(&mut self, event: BridgeEvent) -> (r: SniAction)
        requires
            old(self).wf(),
        ensures
            final(self).wf(),
            answers(old(self)@, event, r),
            final(self)@ == windows_after(old(self)@, event),
    {
        match event {
            BridgeEvent::Docked(window) => SniAction::Register { window, path: object_path(window) },
            BridgeEvent::Undocked(window) => match self.paths.remove(&window) {
                Some(path) => {
                    proof {
                        assert(self@ =~= old(self)@.remove(window));
                    }
                    SniAction::Withdraw { path }
                },
                None => {
                    proof {
                        assert(self@ =~= old(self)@.remove(window));
                    }
                    SniAction::Nothing
                },
            },
            BridgeEvent::IconUpdated(window) => match self.paths.get(&window) {
                Some(path) => SniAction::Refresh { path: path.clone() },
                None => SniAction::Nothing,
            },
        }
    }

    /// The item of a window was served and registered.
    pub fn registered(&mut self, window: u32)
        requires
            old(self).wf(),
        ensures
            final(self).wf(),
            final(self)@ == old(self)@.insert(window),
    {
        self.paths.insert(window, object_path(window));
        proof {
            assert(self@ =~= old(self)@.insert(window));
        }
    }
}

/// Different windows have different object paths and different identifiers.
pub proof fn law_items_do_not_collide(a: u32, b: u32)
    requires
        a != b,
    ensures
        item_path(a) != item_path(b),
        item_id(a) != item_id(b),
{
    let p = "/StatusNotifierItem/xembed_"@;
    let q = "xembed_"@;
    if item_path(a) == item_path(b) {
        assert(item_path(a).skip(p.len() as int) =~= hex_text(a as nat));
        assert(item_path(b).skip(p.len() as int) =~= hex_text(b as nat));
        law_hex_is_injective(a as nat, b as nat);
    }
    if item_id(a) == item_id(b) {
        assert(item_id(a).skip(q.len() as int) =~= hex_text(a as nat));
        assert(item_id(b).skip(q.len() as int) =~= hex_text(b as nat));
        law_hex_is_injective(a as nat, b as nat);
    }
}

/// An item that was withdrawn is gone: a later update of its icon is not passed on, and it is not
/// withdrawn a second time.
pub proof fn law_withdrawn_stays_silent(windows: Set<u32>, window: u32, action: SniAction)
    ensures
        ({
            let after = windows_after(windows, BridgeEvent::Undocked(window));
            &&& !after.contains(window)
            &&& answers(after, BridgeEvent::IconUpdated(window), action) ==> action is Nothing
            &&& answers(after, BridgeEvent::Undocked(window), action) ==> action is Nothing
        }),
{
}

/// The tray reaches the item of a window at the object path that the item registered under, on the
/// bus name of the bridge.
pub proof fn law_bridged_item_is_reached(window: u32, sender: Seq<char>)
    requires
        !sender.contains('/'),
    ensures
        item_address(item_path(window), Some(sender)) is Some,
        destination(item_address(item_path(window), Some(sender))->0) == Some(
            (sender, item_path(window)),
        ),
{
    reveal_strlit("/");
    reveal_strlit("/StatusNotifierItem/xembed_");
    assert(item_path(window).subrange(0, 1) =~= "/"@);
    law_registered_item_is_reached(item_path(window), sender);
}

/// The tray draws what the bridge captured: the pixels of an icon suffice for its size, and in the
/// image made of them each pixel has its own red, green, blue and alpha.
pub proof fn law_tray_draws_what_was_captured(
    width: u16,
    height: u16,
    pixel: spec_fn(int) -> Pixel,
    k: int,
)
    requires
        width > 0,
        height > 0,
        0 <= k < width * height,
    ensures
        ({
            let n = (width * height) as nat;
            let data = argb_bytes(n, pixel);
            &&& is_complete(width as i32, height as i32, data)
            &&& rgba_of(data, n)[4 * k] == pixel(k).red
            &&& rgba_of(data, n)[4 * k + 1] == pixel(k).green
            &&& rgba_of(data, n)[4 * k + 2] == pixel(k).blue
            &&& rgba_of(data, n)[4 * k + 3] == pixel(k).alpha
        }),
{
    let n = (width * height) as nat;
    let data = argb_bytes(n, pixel);
    law_channels_are_kept(data, n, k);
    assert((4 * k) / 4 == k && (4 * k + 1) / 4 == k && (4 * k + 2) / 4 == k && (4 * k + 3) / 4 == k);
}

/// An item is named after its window: its number in hexadecimal makes its identifier, its title and its
/// path.
pub proof fn law_names_of_items(window: u32)
    ensures
        item_id(window) == "xembed_"@ + hex_text(window as nat),
        item_title(window) == "XEmbed Icon "@ + hex_text(window as nat),
        item_path(window) == "/StatusNotifierItem/"@ + item_id(window),
{
    reveal_strlit("/StatusNotifierItem/");
    reveal_strlit("xembed_");
    reveal_strlit("/StatusNotifierItem/xembed_");
    assert("/StatusNotifierItem/"@ + "xembed_"@ =~= "/StatusNotifierItem/xembed_"@);
    assert("/StatusNotifierItem/"@ + ("xembed_"@ + hex_text(window as nat)) =~= ("/StatusNotifierItem/"@
        + "xembed_"@) + hex_text(window as nat));
}

/// A docked window is registered under its path, an undocked one withdrawn and a new icon told of only
/// where the window is registered; what happens to a window says nothing of any other.
pub proof fn law_answers(windows: Set<u32>, w: u32, other: u32, action: SniAction)
    ensures
        answers(windows, BridgeEvent::Docked(w), action) ==> (action matches SniAction::Register {
            window,
            path,
        } && window == w && path@ == item_path(w)),
        answers(windows, BridgeEvent::Undocked(w), action) && windows.contains(w) ==> (
        action matches SniAction::Withdraw { path } && path@ == item_path(w)),
        answers(windows, BridgeEvent::IconUpdated(w), action) && windows.contains(w) ==> (
        action matches SniAction::Refresh { path } && path@ == item_path(w)),
        !windows.contains(w) && (answers(windows, BridgeEvent::Undocked(w), action) || answers(
            windows,
            BridgeEvent::IconUpdated(w),
            action,
        )) ==> action is Nothing,
        !windows_after(windows, BridgeEvent::Undocked(w)).contains(w),
        other != w ==> windows_after(windows, BridgeEvent::Undocked(w)).contains(other)
            == windows.contains(other),
        windows_after(windows, BridgeEvent::IconUpdated(w)) == windows,
        windows_after(windows, BridgeEvent::Docked(w)) == windows,
{
}

} // verus!
