//! The items of the tray: how they come, change and go, and what is asked of them.

use vstd::prelude::*;

use crate::ipc::{
    text_view, tray_views, TrayItem, TrayItemView, TrayProvider, TrayRequest, TrayRequestView,
};
use crate::search::{
    first_where, kept, lemma_is_first, lemma_kept_all, lemma_kept_contains, lemma_kept_len,
    lemma_kept_mapped, lemma_kept_no_duplicates, lemma_kept_step, lemma_none_first,
};
use crate::text::{same, views};
use crate::theme::{icon_files, is_first_present, resolve_icon, str_views};
use crate::tray::address::{
    bus_name, bus_of, destination, directory_name, icon_directory,
    law_destination_of_name_and_path, law_parts_of_an_address, split_address,
};

verus! {

/// The subdirectories of the icon themes in which icons of tray items are searched.
pub open spec fn tray_icon_categories() -> Seq<Seq<char>> {
    seq!["apps"@, "status"@, "devices"@, "panel"@]
}

/// The file of the icon that a tray item names. `theme_path` is the theme that the item brings, if
/// any; `present` says whether a file is there.
pub fn find_icon<F: Fn(&str) -> bool>(icon_name: &str, theme_path: &str, present: F) -> (r: Option<
    String,
>)
    requires
        forall|p: &str| present.requires((p,)),
    ensures
        is_first_present(
            present,
            icon_files(icon_name@, theme_path@, tray_icon_categories()),
            text_view(r),
        ),
{
    let categories = ["apps", "status", "devices", "panel"];
    proof {
        assert(str_views(categories@) =~= tray_icon_categories());
    }
    resolve_icon(icon_name, theme_path, &categories, present)
}

/// The icon of a tray item: the file that was found for the icon it names, or else the file that was
/// written of the pictures it offers. Those are needed only where no file was found.
pub fn chosen_icon(found: Option<String>, drawn: Option<String>) -> (r: Option<String>)
    ensures
        text_view(r) == (if found is Some {
            text_view(found)
        } else {
            text_view(drawn)
        }),
{
    match found {
        Some(path) => Some(path),
        None => drawn,
    }
}

/// What a tray item says of itself; a property that it does not answer is missing.
pub struct ItemProperties {
    pub id: Option<String>,
    pub title: Option<String>,
    pub status: Option<String>,
    pub menu: Option<String>,
}

/// A text, or `other` where it is missing.
pub open spec fn text_or(s: Option<String>, other: Seq<char>) -> Seq<char> {
    match s {
        Some(t) => t@,
        None => other,
    }
}

/// The path of a menu; the empty path and the root are none.
pub open spec fn menu_path_of(menu: Option<String>) -> Option<Seq<char>> {
    match menu {
        Some(path) => if path@.len() > 0 && path@ != "/"@ {
            Some(path@)
        } else {
            None
        },
        None => None,
    }
}

/// The item for an address, with its properties and its icon.
pub open spec fn item_of(address: Seq<char>, properties: ItemProperties, icon: Option<String>) -> TrayItemView {
    TrayItemView {
        id: text_or(properties.id, ""@),
        title: text_or(properties.title, ""@),
        status: text_or(properties.status, "Active"@),
        icon_path: text_view(icon),
        address,
        menu_path: menu_path_of(properties.menu),
    }
}

fn or_text(s: Option<String>, other: &str) -> (r: String)
    ensures
        r@ == text_or(s, other@),
{
    match s {
        Some(t) => t,
        None => other.to_owned(),
    }
}

/// The item for an address, with its properties and its icon.
pub fn build_item(address: &str, properties: ItemProperties, icon_path: Option<String>) -> (r: TrayItem)
    ensures
        r@ == item_of(address@, properties, icon_path),
{
    let menu_path = match properties.menu {
        Some(path) => if path.as_str().is_empty() || same(path.as_str(), "/") {
            None
        } else {
            Some(path)
        },
        None => None,
    };
    TrayItem {
        id: or_text(properties.id, ""),
        title: or_text(properties.title, ""),
        status: or_text(properties.status, "Active"),
        icon_path,
        address: address.to_owned(),
        menu_path,
    }
}

/// What happens to the tray.
pub enum TrayEvent {
    /// An item registered under an address.
    Registered(String),
    /// An item left.
    Unregistered(String),
    /// An item changed.
    Refresh(String),
    /// A bus name has another owner, or none any more.
    NameOwnerChanged { name: String, new_owner: Option<String> },
}

/// What is to be done after an event.
#[derive(Debug, PartialEq)]
pub enum TrayAction {
    /// Nothing.
    Nothing,
    /// Fetch the item of an address, and add it.
    FetchNew(String),
    /// Fetch the item of an address again, and replace it.
    FetchAgain(String),
    /// Show the items anew.
    Notify,
}

/// What an action holds.
pub enum TrayActionView {
    Nothing,
    FetchNew(Seq<char>),
    FetchAgain(Seq<char>),
    Notify,
}

impl View for TrayAction {
    type V = TrayActionView;

    open spec fn view(&self) -> TrayActionView {
        match *self {
            TrayAction::Nothing => TrayActionView::Nothing,
            TrayAction::FetchNew(a) => TrayActionView::FetchNew(a@),
            TrayAction::FetchAgain(a) => TrayActionView::FetchAgain(a@),
            TrayAction::Notify => TrayActionView::Notify,
        }
    }
}

/// The addresses of items.
pub open spec fn addresses(items: Seq<TrayItemView>) -> Seq<Seq<char>> {
    Seq::new(items.len(), |i: int| items[i].address)
}

/// Whether one of the items has the address.
pub open spec fn knows(items: Seq<TrayItemView>, address: Seq<char>) -> bool {
    exists|i: int| 0 <= i < items.len() && (#[trigger] items[i]).address == address
}

/// The items without that of an address.
pub open spec fn without_address(items: Seq<TrayItemView>, address: Seq<char>) -> Seq<TrayItemView> {
    kept(items, |i: TrayItemView| i.address != address)
}

/// The items without those of a bus name.
pub open spec fn without_bus(items: Seq<TrayItemView>, name: Seq<char>) -> Seq<TrayItemView> {
    kept(items, |i: TrayItemView| bus_of(i.address) != name)
}

/// Whether a bus name has no owner.
pub open spec fn no_owner(owner: Option<String>) -> bool {
    match owner {
        Some(o) => o@.len() == 0,
        None => true,
    }
}

/// The items after an event.
pub open spec fn items_after(items: Seq<TrayItemView>, event: TrayEvent) -> Seq<TrayItemView> {
    match event {
        TrayEvent::Registered(_) => items,
        TrayEvent::Unregistered(a) => without_address(items, a@),
        TrayEvent::Refresh(_) => items,
        TrayEvent::NameOwnerChanged { name, new_owner } => if no_owner(new_owner) {
            without_bus(items, name@)
        } else {
            items
        },
    }
}

/// What is to be done after an event.
pub open spec fn action_after(items: Seq<TrayItemView>, event: TrayEvent) -> TrayActionView {
    match event {
        TrayEvent::Registered(a) => if knows(items, a@) {
            TrayActionView::Nothing
        } else {
            TrayActionView::FetchNew(a@)
        },
        TrayEvent::Refresh(a) => if knows(items, a@) {
            TrayActionView::FetchAgain(a@)
        } else {
            TrayActionView::Nothing
        },
        _ => if items_after(items, event) == items {
            TrayActionView::Nothing
        } else {
            TrayActionView::Notify
        },
    }
}

/// The first item with an address.
pub open spec fn find_item(items: Seq<TrayItemView>, address: Seq<char>) -> Option<int> {
    first_where(items, |i: TrayItemView| i.address == address)
}

/// The menu of the first item with an address.
pub open spec fn menu_of(items: Seq<TrayItemView>, address: Seq<char>) -> Option<Seq<char>> {
    match find_item(items, address) {
        Some(k) => items[k].menu_path,
        None => None,
    }
}

enum Removal<'a> {
    Address(&'a str),
    Bus(&'a str),
}

impl<'a> Removal<'a> {
    spec fn keeps(self) -> spec_fn(TrayItemView) -> bool {
        match self {
            Removal::Address(a) => |i: TrayItemView| i.address != a@,
            Removal::Bus(b) => |i: TrayItemView| bus_of(i.address) != b@,
        }
    }

    fn removes(&self, item: &TrayItem) -> (r: bool)
        ensures
            r == !(self.keeps())(item@),
    {
        match self {
            Removal::Address(a) => same(item.address.as_str(), a),
            Removal::Bus(b) => same(bus_name(item.address.as_str()).as_str(), b),
        }
    }
}

proof fn lemma_kept_addresses(items: Seq<TrayItemView>, p: spec_fn(TrayItemView) -> bool)
    requires
        addresses(items).no_duplicates(),
        forall|i: TrayItemView, j: TrayItemView| i.address == j.address ==> p(i) == p(j),
    ensures
        addresses(kept(items, p)).no_duplicates(),
{
    let q = |a: Seq<char>|
        p(
            TrayItemView {
                id: a,
                title: a,
                status: a,
                icon_path: None,
                address: a,
                menu_path: None,
            },
        );
    let f = |i: TrayItemView| i.address;
    assert forall|i: int| 0 <= i < items.len() implies #[trigger] addresses(items)[i] == f(items[i])
        && p(items[i]) == q(addresses(items)[i]) by {
        let a = items[i].address;
        let other = TrayItemView {
            id: a,
            title: a,
            status: a,
            icon_path: None,
            address: a,
            menu_path: None,
        };
        assert(items[i].address == other.address);
        assert(addresses(items)[i] == a);
        assert(q(a) == p(other));
    }
    lemma_kept_mapped(items, addresses(items), f, p, q);
    lemma_kept_no_duplicates(addresses(items), q);
    assert(addresses(kept(items, p)) =~= kept(addresses(items), q));
}

/// The tray: its items, and whether it is connected to the bus.
pub struct SystemTray {
    items: Vec<TrayItem>,
    known_addresses: Vec<String>,
    connected: bool,
    icon_directory: String,
}

/// What a tray holds.
pub struct SystemTrayView {
    pub items: Seq<TrayItemView>,
    pub connected: bool,
    pub icon_directory: Seq<char>,
}

impl View for SystemTray {
    type V = SystemTrayView;

    closed spec fn view(&self) -> SystemTrayView {
        SystemTrayView {
            items: tray_views(self.items@),
            connected: self.connected,
            icon_directory: self.icon_directory@,
        }
    }
}

impl SystemTray {
    /// The known addresses are those of the items, and no two items have the same.
    pub closed spec fn wf(&self) -> bool {
        &&& views(self.known_addresses@) == addresses(self@.items)
        &&& addresses(self@.items).no_duplicates()
    }

    /// A tray without items and without a connection. Its icons are held below the runtime
    /// directory.
    pub fn new(runtime_dir: Option<&str>, process: u32) -> (r: Self)
        ensures
            r.wf(),
            r@.items.len() == 0,
            !r@.connected,
            r@.icon_directory == crate::text::path_join(
                match runtime_dir {
                    Some(d) => d@,
                    None => "/tmp"@,
                },
                directory_name(process as nat),
            ),
    {
        let r = SystemTray {
            items: Vec::new(),
            known_addresses: Vec::new(),
            connected: false,
            icon_directory: icon_directory(runtime_dir, process),
        };
        proof {
            assert(views(r.known_addresses@) =~= addresses(r@.items));
        }
        r
    }

    /// The directory that holds the icons.
    pub fn icon_directory(&self) -> (r: &str)
        ensures
            r@ == self@.icon_directory,
    {
        self.icon_directory.as_str()
    }

    /// Notes that the tray is connected to the bus.
    pub fn connect(&mut self)
        requires
            old(self).wf(),
        ensures
            final(self).wf(),
            final(self)@ == (SystemTrayView { connected: true, ..old(self)@ }),
    {
        self.connected = true;
    }

    fn is_known(&self, address: &str) -> (r: bool)
        requires
            self.wf(),
        ensures
            r == knows(self@.items, address@),
    {
        let mut i: usize = 0;
        while i < self.known_addresses.len()
            invariant
                i <= self.known_addresses@.len(),
                self.wf(),
                forall|j: int| 0 <= j < i ==> (#[trigger] self@.items[j]).address != address@,
            decreases self.known_addresses@.len() - i,
        {
            proof {
                assert(views(self.known_addresses@).len() == addresses(self@.items).len());
                assert(views(self.known_addresses@)[i as int] == addresses(self@.items)[i as int]);
            }
            if same(self.known_addresses[i].as_str(), address) {
                proof {
                    assert(self@.items[i as int].address == address@);
                }
                return true;
            }
            i += 1;
        }
        proof {
            assert(views(self.known_addresses@).len() == addresses(self@.items).len());
        }
        false
    }

    fn remove(&mut self, what: &Removal) -> (r: bool)
        requires
            old(self).wf(),
        ensures
            final(self).wf(),
            final(self)@ == (SystemTrayView {
                items: kept(old(self)@.items, what.keeps()),
                ..old(self)@
            }),
            r == (final(self)@.items != old(self)@.items),
    {
        let ghost all = self@.items;
        let ghost p = what.keeps();
        let mut i: usize = 0;
        let mut removed = false;
        let ghost mut n: int = 0;
        proof {
            assert(all.take(0) =~= Seq::empty());
            assert(all.skip(0) =~= all);
            assert(kept(all.take(0), p) + all.skip(0) =~= all);
        }
        while i < self.items.len()
            invariant
                0 <= n <= all.len(),
                p == what.keeps(),
                self@.items == kept(all.take(n), p) + all.skip(n),
                i == kept(all.take(n), p).len(),
                self@.connected == old(self)@.connected,
                self@.icon_directory == old(self)@.icon_directory,
                views(self.known_addresses@) == addresses(self@.items),
                removed == (i < n),
                i <= n,
            decreases self.items@.len() - i,
        {
            let ghost before = self@.items;
            proof {
                assert(before.len() == i + (all.len() - n));
                assert(n < all.len());
                assert(before[i as int] == all.skip(n)[0]);
                lemma_kept_step(all, p, n);
                assert(self.items@[i as int]@ == all[n]);
                assert(views(self.known_addresses@).len() == addresses(self@.items).len());
            }
            if what.removes(&self.items[i]) {
                let ghost known = views(self.known_addresses@);
                self.items.remove(i);
                self.known_addresses.remove(i);
                removed = true;
                proof {
                    assert(self@.items =~= before.remove(i as int));
                    assert(self@.items =~= kept(all.take(n + 1), p) + all.skip(n + 1));
                    assert(views(self.known_addresses@) =~= known.remove(i as int));
                    assert(views(self.known_addresses@) =~= addresses(self@.items));
                }
            } else {
                i += 1;
                proof {
                    assert(before =~= kept(all.take(n + 1), p) + all.skip(n + 1));
                }
            }
            proof {
                n = n + 1;
            }
        }
        proof {
            assert(n == all.len()) by {
                assert(self@.items.len() == i + (all.len() - n));
            }
            assert(all.take(n) =~= all);
            assert(self@.items =~= kept(all, p));
            lemma_kept_addresses(all, p);
            lemma_kept_len(all, p);
        }
        removed
    }

    /// Takes in an event, and says what is to be done.
    pub fn handle(&mut self, event: &TrayEvent) -> (r: TrayAction)
        requires
            old(self).wf(),
        ensures
            final(self).wf(),
            final(self)@ == (SystemTrayView {
                items: items_after(old(self)@.items, *event),
                ..old(self)@
            }),
            r@ == action_after(old(self)@.items, *event),
    {
        match event {
            TrayEvent::Registered(address) => {
                if self.is_known(address.as_str()) {
                    TrayAction::Nothing
                } else {
                    TrayAction::FetchNew(address.clone())
                }
            },
            TrayEvent::Refresh(address) => {
                if self.is_known(address.as_str()) {
                    TrayAction::FetchAgain(address.clone())
                } else {
                    TrayAction::Nothing
                }
            },
            TrayEvent::Unregistered(address) => {
                if self.remove(&Removal::Address(address.as_str())) {
                    TrayAction::Notify
                } else {
                    TrayAction::Nothing
                }
            },
            TrayEvent::NameOwnerChanged { name, new_owner } => {
                let gone = match new_owner {
                    Some(owner) => owner.as_str().is_empty(),
                    None => true,
                };
                if gone && self.remove(&Removal::Bus(name.as_str())) {
                    TrayAction::Notify
                } else {
                    TrayAction::Nothing
                }
            },
        }
    }

    /// Adds an item that was fetched, unless its address is known. Says whether it was added.
    pub fn add_item(&mut self, item: TrayItem) -> (r: bool)
        requires
            old(self).wf(),
        ensures
            final(self).wf(),
            r == !knows(old(self)@.items, item@.address),
            final(self)@ == (SystemTrayView {
                items: if r {
                    old(self)@.items.push(item@)
                } else {
                    old(self)@.items
                },
                ..old(self)@
            }),
    {
        if self.is_known(item.address.as_str()) {
            return false;
        }
        let ghost before = self@.items;
        let ghost known = views(self.known_addresses@);
        let ghost added = item@;
        self.known_addresses.push(item.address.clone());
        self.items.push(item);
        proof {
            assert(self@.items =~= before.push(added));
            assert(views(self.known_addresses@) =~= known.push(added.address));
            assert(views(self.known_addresses@) =~= addresses(self@.items));
            let a = addresses(self@.items);
            assert forall|i: int, j: int|
                0 <= i < a.len() && 0 <= j < a.len() && i != j implies a[i] != a[j] by {
                if i < before.len() && j < before.len() {
                    assert(addresses(before)[i] == a[i]);
                    assert(addresses(before)[j] == a[j]);
                } else if i < before.len() {
                    assert(before[i].address == a[i]);
                } else {
                    assert(before[j].address == a[j]);
                }
            }
        }
        true
    }

    fn position(&self, address: &str) -> (r: Option<usize>)
        ensures
            match r {
                Some(k) => find_item(self@.items, address@) == Some(k as int) && k < self.items@.len(),
                None => find_item(self@.items, address@) is None,
            },
    {
        let ghost p = |i: TrayItemView| i.address == address@;
        let mut i: usize = 0;
        while i < self.items.len()
            invariant
                i <= self.items@.len(),
                p == (|i: TrayItemView| i.address == address@),
                forall|j: int| 0 <= j < i ==> !p(#[trigger] self@.items[j]),
            decreases self.items@.len() - i,
        {
            proof {
                assert(self@.items[i as int] == self.items@[i as int]@);
            }
            if same(self.items[i].address.as_str(), address) {
                proof {
                    lemma_is_first(self@.items, p, 0, i as int);
                }
                return Some(i);
            }
            i += 1;
        }
        proof {
            lemma_none_first(self@.items, p, 0);
        }
        None
    }

    /// Replaces an item that was fetched again. An item that left meanwhile stays away.
    pub fn replace_item(&mut self, item: TrayItem)
        requires
            old(self).wf(),
        ensures
            final(self).wf(),
            final(self)@ == (SystemTrayView {
                items: match find_item(old(self)@.items, item@.address) {
                    Some(k) => old(self)@.items.update(k, item@),
                    None => old(self)@.items,
                },
                ..old(self)@
            }),
    {
        let ghost before = self@.items;
        let ghost fresh = item@;
        if let Some(k) = self.position(item.address.as_str()) {
            proof {
                let p = |i: TrayItemView| i.address == fresh.address;
                crate::search::lemma_first_from(before, p, 0);
            }
            self.items.set(k, item);
            proof {
                assert(self@.items =~= before.update(k as int, fresh));
                assert(addresses(self@.items) =~= addresses(before));
            }
        }
    }

    /// Activates an item.
    pub fn activate(&self, address: &str) -> (r: TrayRequest)
        ensures
            r@ == activation(self@, address@, 0, 0),
    {
        self.activate_at(address, 0, 0)
    }

    /// Has an item show its own menu.
    pub fn context_menu(&self, address: &str) -> (r: TrayRequest)
        ensures
            r@ == own_menu(self@, address@, 0, 0),
    {
        self.context_menu_at(address, 0, 0)
    }

    fn menu_path(&self, address: &str) -> (r: Option<String>)
        ensures
            text_view(r) == menu_of(self@.items, address@),
    {
        match self.position(address) {
            Some(k) => {
                proof {
                    assert(self@.items[k as int] == self.items@[k as int]@);
                }
                match &self.items[k].menu_path {
                    Some(path) => Some(path.clone()),
                    None => None,
                }
            },
            None => None,
        }
    }
}

/// What is reported of an address that is none.
pub open spec fn invalid_address(address: Seq<char>) -> TrayRequestView {
    TrayRequestView::InvalidAddress { message: "Invalid address: "@ + address }
}

/// What activating an item asks of the bus.
pub open spec fn activation(tray: SystemTrayView, address: Seq<char>, x: i32, y: i32) -> TrayRequestView {
    if !tray.connected {
        TrayRequestView::Nothing
    } else {
        match destination(address) {
            Some((bus_name, object_path)) => TrayRequestView::Activate { bus_name, object_path, x, y },
            None => invalid_address(address),
        }
    }
}

/// What having an item show its own menu asks of the bus.
pub open spec fn own_menu(tray: SystemTrayView, address: Seq<char>, x: i32, y: i32) -> TrayRequestView {
    if !tray.connected {
        TrayRequestView::Nothing
    } else {
        match destination(address) {
            Some((bus_name, object_path)) => TrayRequestView::ContextMenu {
                bus_name,
                object_path,
                x,
                y,
            },
            None => invalid_address(address),
        }
    }
}

/// What fetching the menu of an item asks of the bus.
pub open spec fn menu_fetch(tray: SystemTrayView, address: Seq<char>) -> TrayRequestView {
    match menu_of(tray.items, address) {
        Some(menu_path) if tray.connected => TrayRequestView::FetchMenu {
            bus_name: bus_of(address),
            menu_path,
        },
        _ => TrayRequestView::Nothing,
    }
}

/// What choosing an item of a menu asks of the bus.
pub open spec fn menu_event(tray: SystemTrayView, address: Seq<char>, id: i32) -> TrayRequestView {
    match menu_of(tray.items, address) {
        Some(menu_path) if tray.connected => TrayRequestView::MenuEvent {
            bus_name: bus_of(address),
            menu_path,
            id,
        },
        _ => TrayRequestView::Nothing,
    }
}

/// The message about an address that is none.
pub fn invalid_address_message(address: &str) -> (r: String)
    ensures
        r@ == "Invalid address: "@ + address@,
{
    let mut message = "Invalid address: ".to_owned();
    message.append(address);
    message
}

impl TrayProvider for SystemTray {
    fn items(&self) -> (r: &[TrayItem])
        ensures
            tray_views(r@) == self@.items,
    {
        self.items.as_slice()
    }

    fn activate_at(&self, address: &str, x: i32, y: i32) -> (r: TrayRequest)
        ensures
            r@ == activation(self@, address@, x, y),
    {
        if !self.connected {
            return TrayRequest::Nothing;
        }
        match split_address(address) {
            Some((bus_name, object_path)) => TrayRequest::Activate { bus_name, object_path, x, y },
            None => TrayRequest::InvalidAddress { message: invalid_address_message(address) },
        }
    }

    fn context_menu_at(&self, address: &str, x: i32, y: i32) -> (r: TrayRequest)
        ensures
            r@ == own_menu(self@, address@, x, y),
    {
        if !self.connected {
            return TrayRequest::Nothing;
        }
        match split_address(address) {
            Some((bus_name, object_path)) => TrayRequest::ContextMenu { bus_name, object_path, x, y },
            None => TrayRequest::InvalidAddress { message: invalid_address_message(address) },
        }
    }

    fn fetch_menu(&self, address: &str) -> (r: TrayRequest)
        ensures
            r@ == menu_fetch(self@, address@),
    {
        if !self.connected {
            return TrayRequest::Nothing;
        }
        match self.menu_path(address) {
            Some(menu_path) => TrayRequest::FetchMenu { bus_name: bus_name(address), menu_path },
            None => TrayRequest::Nothing,
        }
    }

    fn activate_menu_item(&self, address: &str, menu_item_id: i32) -> (r: TrayRequest)
        ensures
            r@ == menu_event(self@, address@, menu_item_id),
    {
        if !self.connected {
            return TrayRequest::Nothing;
        }
        match self.menu_path(address) {
            Some(menu_path) => TrayRequest::MenuEvent {
                bus_name: bus_name(address),
                menu_path,
                id: menu_item_id,
            },
            None => TrayRequest::Nothing,
        }
    }
}

/// No two items of a tray have the same address, so that an address means one item.
pub proof fn law_addresses_are_distinct(tray: SystemTray, i: int, j: int)
    requires
        tray.wf(),
        0 <= i < tray@.items.len(),
        0 <= j < tray@.items.len(),
        tray@.items[i].address == tray@.items[j].address,
    ensures
        i == j,
{
    assert(addresses(tray@.items)[i] == addresses(tray@.items)[j]);
}

/// An item that registers again while it is there is not fetched a second time.
pub proof fn law_registering_twice_is_once(items: Seq<TrayItemView>, item: TrayItemView, again: String)
    requires
        again@ == item.address,
    ensures
        action_after(items.push(item), TrayEvent::Registered(again)) == TrayActionView::Nothing,
{
    let all = items.push(item);
    assert(all[all.len() - 1].address == again@);
}

/// After an item left, or the bus name that it was reached at, it is not among the items; every other
/// item still is.
pub proof fn law_only_what_left_is_removed(items: Seq<TrayItemView>, event: TrayEvent, item: TrayItemView)
    ensures
        items_after(items, event).contains(item) == (items.contains(item) && !(match event {
            TrayEvent::Unregistered(a) => item.address == a@,
            TrayEvent::NameOwnerChanged { name, new_owner } => (new_owner is None || new_owner->0@.len()
                == 0) && bus_of(item.address) == name@,
            _ => false,
        })),
{
    match event {
        TrayEvent::Unregistered(a) => {
            lemma_kept_contains(items, |i: TrayItemView| i.address != a@, item);
        },
        TrayEvent::NameOwnerChanged { name, new_owner } => {
            lemma_kept_contains(items, |i: TrayItemView| bus_of(i.address) != name@, item);
        },
        _ => {},
    }
}

/// Adding an item that is new and having it leave gives the items from before.
pub proof fn law_leaving_undoes_joining(items: Seq<TrayItemView>, item: TrayItemView, address: String)
    requires
        !knows(items, item.address),
        address@ == item.address,
    ensures
        items_after(items.push(item), TrayEvent::Unregistered(address)) == items,
{
    let p = |i: TrayItemView| i.address != address@;
    let all = items.push(item);
    assert(all.drop_last() =~= items);
    assert(!p(all.last()));
    lemma_kept_all(items, p);
}

/// A property that an item does not answer has a default: no text, an active status and no menu; one that
/// it answers is taken as it is, but for a menu path that is empty or the root, which is none.
pub proof fn law_properties_of_items(address: Seq<char>, properties: ItemProperties, icon: Option<String>)
    ensures
        ({
            let item = item_of(address, properties, icon);
            &&& item.address == address
            &&& icon matches Some(path) ==> item.icon_path == Some(path@)
            &&& icon is None ==> item.icon_path is None
            &&& properties.id matches Some(t) ==> item.id == t@
            &&& properties.id is None ==> item.id.len() == 0
            &&& properties.title matches Some(t) ==> item.title == t@
            &&& properties.title is None ==> item.title.len() == 0
            &&& properties.status matches Some(t) ==> item.status == t@
            &&& properties.status is None ==> item.status == "Active"@
            &&& item.menu_path is Some <==> properties.menu is Some && properties.menu->0@.len() > 0
                && properties.menu->0@ != seq!['/']
            &&& item.menu_path is Some ==> item.menu_path->0 == properties.menu->0@
        }),
{
    reveal_strlit("");
    reveal_strlit("/");
    assert("/"@ =~= seq!['/']);
}

/// An item that is new is fetched, one that is known is fetched again when it changes, and nothing else
/// is fetched; the items are shown anew exactly if some left.
pub proof fn law_actions_of_events(items: Seq<TrayItemView>, address: String, other: String, name: String)
    ensures
        ({
            let known = exists|i: int| 0 <= i < items.len() && (#[trigger] items[i]).address == address@;
            &&& action_after(items, TrayEvent::Registered(address)) == (if known {
                TrayActionView::Nothing
            } else {
                TrayActionView::FetchNew(address@)
            })
            &&& action_after(items, TrayEvent::Refresh(address)) == (if known {
                TrayActionView::FetchAgain(address@)
            } else {
                TrayActionView::Nothing
            })
            &&& action_after(items, TrayEvent::Unregistered(address)) == (if known {
                TrayActionView::Notify
            } else {
                TrayActionView::Nothing
            })
            &&& items_after(items, TrayEvent::Registered(address)) == items
            &&& items_after(items, TrayEvent::Refresh(address)) == items
            &&& other@.len() > 0 ==> items_after(
                items,
                TrayEvent::NameOwnerChanged { name, new_owner: Some(other) },
            ) == items && action_after(
                items,
                TrayEvent::NameOwnerChanged { name, new_owner: Some(other) },
            ) == TrayActionView::Nothing
        }),
{
    let p = |i: TrayItemView| i.address != address@;
    lemma_kept_len(items, p);
    if knows(items, address@) {
        let i = choose|i: int| 0 <= i < items.len() && (#[trigger] items[i]).address == address@;
        lemma_kept_contains(items, p, items[i]);
        assert(items.contains(items[i]));
        assert(kept(items, p) != items);
    } else {
        assert forall|i: int| 0 <= i < items.len() implies p(#[trigger] items[i]) by {}
        lemma_kept_all(items, p);
    }
}

/// Items that stay keep their order.
pub proof fn law_items_keep_their_order(a: Seq<TrayItemView>, b: Seq<TrayItemView>, event: TrayEvent)
    ensures
        items_after(a + b, event) == items_after(a, event) + items_after(b, event),
{
    match event {
        TrayEvent::Unregistered(x) => {
            lemma_kept_parts(a, b, |i: TrayItemView| i.address != x@);
        },
        TrayEvent::NameOwnerChanged { name, new_owner } => {
            lemma_kept_parts(a, b, |i: TrayItemView| bus_of(i.address) != name@);
        },
        _ => {},
    }
}

proof fn lemma_kept_parts(a: Seq<TrayItemView>, b: Seq<TrayItemView>, p: spec_fn(TrayItemView) -> bool)
    ensures
        kept(a + b, p) == kept(a, p) + kept(b, p),
    decreases b.len(),
{
    if b.len() == 0 {
        assert(a + b =~= a);
        assert(kept(b, p) =~= Seq::empty());
        assert(kept(a, p) + kept(b, p) =~= kept(a, p));
    } else {
        lemma_kept_parts(a, b.drop_last(), p);
        assert((a + b).drop_last() =~= a + b.drop_last());
        assert((a + b).last() == b.last());
        assert(kept(a + b, p) =~= kept(a, p) + kept(b, p));
    }
}

/// What is asked of the bus goes to the bus name and the object path of the address, at the place that
/// was given; nothing is asked without a connection, and an address without a path is reported.
pub proof fn law_requests(tray: SystemTrayView, name: Seq<char>, path: Seq<char>, x: i32, y: i32)
    requires
        !name.contains('/'),
        path.len() > 0,
        path[0] == '/',
    ensures
        tray.connected ==> activation(tray, name + path, x, y) == (TrayRequestView::Activate {
            bus_name: name,
            object_path: path,
            x,
            y,
        }),
        tray.connected ==> own_menu(tray, name + path, x, y) == (TrayRequestView::ContextMenu {
            bus_name: name,
            object_path: path,
            x,
            y,
        }),
        !tray.connected ==> activation(tray, name + path, x, y) is Nothing && own_menu(
            tray,
            name + path,
            x,
            y,
        ) is Nothing && menu_fetch(tray, name + path) is Nothing && menu_event(tray, name + path, x) is Nothing,
        tray.connected ==> activation(tray, name, x, y) == (TrayRequestView::InvalidAddress {
            message: "Invalid address: "@ + name,
        }),
        tray.connected ==> own_menu(tray, name, x, y) == activation(tray, name, x, y),
{
    reveal_strlit("/");
    assert(path.subrange(0, 1) =~= "/"@);
    law_destination_of_name_and_path(name, path);
    law_parts_of_an_address(name);
}

/// A menu is fetched from, and a choice is sent to, the bus name of the item at the path of its menu;
/// an item without a menu, and an address without an item, is not asked.
pub proof fn law_menu_requests(tray: SystemTrayView, address: Seq<char>, i: int, id: i32)
    requires
        tray.connected,
        0 <= i < tray.items.len(),
        tray.items[i].address == address,
        forall|j: int| 0 <= j < i ==> (#[trigger] tray.items[j]).address != address,
    ensures
        tray.items[i].menu_path is None ==> menu_fetch(tray, address) is Nothing && menu_event(
            tray,
            address,
            id,
        ) is Nothing,
        tray.items[i].menu_path matches Some(path) ==> menu_fetch(tray, address) == (
        TrayRequestView::FetchMenu { bus_name: bus_of(address), menu_path: path }) && menu_event(
            tray,
            address,
            id,
        ) == (TrayRequestView::MenuEvent { bus_name: bus_of(address), menu_path: path, id }),
{
    let p = |t: TrayItemView| t.address == address;
    assert forall|j: int| 0 <= j < i implies !p(#[trigger] tray.items[j]) by {}
    lemma_is_first(tray.items, p, 0, i);
}

/// The icons of tray items are searched in these directories of the themes, in this order.
pub proof fn law_categories()
    ensures
        tray_icon_categories() == seq!["apps"@, "status"@, "devices"@, "panel"@],
{
}

/// The items are shown anew after a bus name lost its owner exactly if it was the bus name of one of them.
pub proof fn law_names_without_an_owner(items: Seq<TrayItemView>, name: String, new_owner: Option<String>)
    ensures
        action_after(items, TrayEvent::NameOwnerChanged { name, new_owner }) == (if (new_owner is None
            || new_owner->0@.len() == 0) && exists|i: int|
            0 <= i < items.len() && bus_of((#[trigger] items[i]).address) == name@ {
            TrayActionView::Notify
        } else {
            TrayActionView::Nothing
        }),
{
    let p = |i: TrayItemView| bus_of(i.address) != name@;
    if exists|i: int| 0 <= i < items.len() && bus_of((#[trigger] items[i]).address) == name@ {
        let i = choose|i: int| 0 <= i < items.len() && bus_of((#[trigger] items[i]).address) == name@;
        lemma_kept_contains(items, p, items[i]);
        assert(items.contains(items[i]));
        assert(kept(items, p) != items);
    } else {
        assert forall|i: int| 0 <= i < items.len() implies p(#[trigger] items[i]) by {}
        lemma_kept_all(items, p);
    }
}

/// Nothing is asked about the menu of an address that no item has.
pub proof fn law_no_menu_without_an_item(tray: SystemTrayView, address: Seq<char>, id: i32)
    requires
        forall|j: int| 0 <= j < tray.items.len() ==> (#[trigger] tray.items[j]).address != address,
    ensures
        find_item(tray.items, address) is None,
        menu_fetch(tray, address) is Nothing,
        menu_event(tray, address, id) is Nothing,
{
    let p = |t: TrayItemView| t.address == address;
    assert forall|j: int| 0 <= j < tray.items.len() implies !p(#[trigger] tray.items[j]) by {}
    lemma_none_first(tray.items, p, 0);
}

} // verus!
