//! Menus of tray items, and the buttons that open them.

use vstd::prelude::*;

use crate::ipc::{menu_views, text_view, MenuItem, MenuItemView, TrayItem, TrayItemView};
use crate::search::{kept, lemma_is_first, lemma_kept_contains, lemma_kept_step};
use crate::text::same;
use crate::theme::Role;
use crate::tray::system::{law_addresses_are_distinct, menu_fetch, SystemTray};

verus! {

// ---------------------------------------------------------------------------
// The items of a menu
// ---------------------------------------------------------------------------

/// An item that says something and cannot be chosen.
pub open spec fn message_item(label: Seq<char>) -> MenuItemView {
    MenuItemView {
        id: 0,
        label,
        enabled: false,
        visible: true,
        is_separator: false,
        toggle_type: Seq::empty(),
        toggle_state: 0,
        children: Seq::empty(),
    }
}

/// An item that says something and cannot be chosen.
pub fn menu_message_item(label: &str) -> (r: MenuItem)
    ensures
        r.deep() == message_item(label@),
{
    let r = MenuItem {
        id: 0,
        label: label.to_owned(),
        enabled: false,
        visible: true,
        is_separator: false,
        toggle_type: String::new(),
        toggle_state: 0,
        children: Vec::new(),
    };
    proof {
        assert(r.deep().children =~= Seq::empty());
        assert(r.deep().toggle_type =~= Seq::empty());
    }
    r
}

fn one_message(label: &str) -> (r: Vec<MenuItem>)
    ensures
        menu_views(r@) == seq![message_item(label@)],
{
    let mut r: Vec<MenuItem> = Vec::new();
    r.push(menu_message_item(label));
    proof {
        assert(menu_views(r@) =~= seq![message_item(label@)]);
    }
    r
}

/// What a menu shows until its items have come.
pub fn loading_items() -> (r: Vec<MenuItem>)
    ensures
        menu_views(r@) == seq![message_item("Loading menu..."@)],
{
    one_message("Loading menu...")
}

/// What a menu shows once its items have come, or have not.
pub fn fetched_items(result: Result<Vec<MenuItem>, String>) -> (r: Vec<MenuItem>)
    ensures
        menu_views(r@) == match result {
            Ok(items) => if items@.len() > 0 {
                menu_views(items@)
            } else {
                seq![message_item("No menu items"@)]
            },
            Err(_) => seq![message_item("Failed to load menu"@)],
        },
{
    match result {
        Ok(items) => if items.len() > 0 {
            items
        } else {
            one_message("No menu items")
        },
        Err(_) => one_message("Failed to load menu"),
    }
}

// ---------------------------------------------------------------------------
// The rows of a menu
// ---------------------------------------------------------------------------

/// A row of a menu.
#[derive(Debug, PartialEq)]
pub enum MenuRow {
    /// A line between items.
    Separator,
    /// An item: its text, its colour, and whether it can be chosen.
    Entry { id: i32, text: String, color: Role, enabled: bool },
}

/// What a row holds.
pub enum MenuRowView {
    Separator,
    Entry { id: i32, text: Seq<char>, color: Role, enabled: bool },
}

impl View for MenuRow {
    type V = MenuRowView;

    open spec fn view(&self) -> MenuRowView {
        match *self {
            MenuRow::Separator => MenuRowView::Separator,
            MenuRow::Entry { id, text, color, enabled } => MenuRowView::Entry {
                id,
                text: text@,
                color,
                enabled,
            },
        }
    }
}

/// The mark before an item that can be switched on and off.
pub open spec fn mark_of(toggle_type: Seq<char>, toggle_state: i32) -> Seq<char> {
    if toggle_type == "checkmark"@ {
        if toggle_state == 1 {
            "\u{2713} "@
        } else {
            "    "@
        }
    } else if toggle_type == "radio"@ {
        if toggle_state == 1 {
            "\u{25C9} "@
        } else {
            "\u{25CB} "@
        }
    } else {
        ""@
    }
}

/// The mark before an item that can be switched on and off.
pub fn toggle_prefix(toggle_type: &str, toggle_state: i32) -> (r: &'static str)
    ensures
        r@ == mark_of(toggle_type@, toggle_state),
{
    if same(toggle_type, "checkmark") {
        if toggle_state == 1 {
            "\u{2713} "
        } else {
            "    "
        }
    } else if same(toggle_type, "radio") {
        if toggle_state == 1 {
            "\u{25C9} "
        } else {
            "\u{25CB} "
        }
    } else {
        ""
    }
}

/// The row of an item.
pub open spec fn row_of(item: MenuItemView) -> MenuRowView {
    if item.is_separator {
        MenuRowView::Separator
    } else {
        MenuRowView::Entry {
            id: item.id,
            text: mark_of(item.toggle_type, item.toggle_state) + item.label,
            color: if item.enabled {
                Role::Foreground
            } else {
                Role::Dimmed
            },
            enabled: item.enabled,
        }
    }
}

/// The rows of a menu: those of its visible items.
pub open spec fn rows_of(items: Seq<MenuItemView>) -> Seq<MenuRowView> {
    let visible = kept(items, |i: MenuItemView| i.visible);
    Seq::new(visible.len(), |i: int| row_of(visible[i]))
}

/// What the rows of a list hold.
pub open spec fn row_views(rows: Seq<MenuRow>) -> Seq<MenuRowView> {
    Seq::new(rows.len(), |i: int| rows[i]@)
}

fn menu_row(item: &MenuItem) -> (r: MenuRow)
    ensures
        r@ == row_of(item.deep()),
{
    if item.is_separator {
        return MenuRow::Separator;
    }
    let mut text = toggle_prefix(item.toggle_type.as_str(), item.toggle_state).to_owned();
    text.append(item.label.as_str());
    let color = if item.enabled {
        Role::Foreground
    } else {
        Role::Dimmed
    };
    MenuRow::Entry { id: item.id, text, color, enabled: item.enabled }
}

/// The rows of a menu: those of its visible items.
pub fn menu_rows(items: &Vec<MenuItem>) -> (r: Vec<MenuRow>)
    ensures
        row_views(r@) == rows_of(menu_views(items@)),
{
    let ghost all = menu_views(items@);
    let ghost p = |i: MenuItemView| i.visible;
    let mut r: Vec<MenuRow> = Vec::new();
    let mut i: usize = 0;
    proof {
        assert(all.take(0) =~= Seq::empty());
    }
    while i < items.len()
        invariant
            i <= items@.len(),
            all == menu_views(items@),
            p == (|i: MenuItemView| i.visible),
            r@.len() == kept(all.take(i as int), p).len(),
            forall|j: int|
                0 <= j < r@.len() ==> (#[trigger] r@[j])@ == row_of(kept(all.take(i as int), p)[j]),
        decreases items@.len() - i,
    {
        proof {
            lemma_kept_step(all, p, i as int);
            assert(all[i as int] == items@[i as int].deep());
        }
        if items[i].visible {
            r.push(menu_row(&items[i]));
        }
        i += 1;
    }
    proof {
        assert(all.take(i as int) =~= all);
        assert(row_views(r@) =~= rows_of(all));
    }
    r
}

/// A message in place of a menu is shown and cannot be chosen.
pub proof fn law_message_cannot_be_chosen(label: Seq<char>)
    ensures
        rows_of(seq![message_item(label)]) == seq![
            (MenuRowView::Entry { id: 0, text: label, color: Role::Dimmed, enabled: false }),
        ],
{
    let items = seq![message_item(label)];
    let p = |i: MenuItemView| i.visible;
    assert(items.drop_last() =~= Seq::empty());
    assert(items.last() == message_item(label));
    assert(kept(items.drop_last(), p) =~= Seq::empty());
    assert(kept(items, p) =~= items);
    reveal_strlit("checkmark");
    reveal_strlit("radio");
    reveal_strlit("");
    assert("checkmark"@.len() > 0 && "radio"@.len() > 0);
    assert(mark_of(Seq::empty(), 0) == ""@);
    assert(""@ + label =~= label);
    assert(rows_of(items) =~= seq![
        (MenuRowView::Entry { id: 0, text: label, color: Role::Dimmed, enabled: false }),
    ]);
}

// ---------------------------------------------------------------------------
// Buttons
// ---------------------------------------------------------------------------

/// The button of a tray item.
#[derive(Debug, PartialEq)]
pub struct TrayButton {
    /// The address of the item.
    pub address: String,
    /// Whether the item has a menu that the bar opens. One without shows its own.
    pub has_menu: bool,
    /// The icon. A button without shows a dot.
    pub icon_path: Option<String>,
}

/// What a button holds.
pub struct TrayButtonView {
    pub address: Seq<char>,
    pub has_menu: bool,
    pub icon_path: Option<Seq<char>>,
}

impl View for TrayButton {
    type V = TrayButtonView;

    open spec fn view(&self) -> TrayButtonView {
        TrayButtonView {
            address: self.address@,
            has_menu: self.has_menu,
            icon_path: text_view(self.icon_path),
        }
    }
}

/// The button of a tray item.
pub open spec fn button_of(item: TrayItemView) -> TrayButtonView {
    TrayButtonView {
        address: item.address,
        has_menu: item.menu_path is Some,
        icon_path: item.icon_path,
    }
}

/// The items that have a button: all but the passive ones.
pub open spec fn shown_items(items: Seq<TrayItemView>) -> Seq<TrayItemView> {
    kept(items, |i: TrayItemView| i.status != "Passive"@)
}

/// The buttons of the tray.
pub fn tray_buttons(items: &[TrayItem]) -> (r: Vec<TrayButton>)
    ensures
        ({
            let shown = shown_items(crate::ipc::tray_views(items@));
            &&& r@.len() == shown.len()
            &&& forall|i: int| 0 <= i < r@.len() ==> (#[trigger] r@[i])@ == button_of(shown[i])
        }),
{
    let ghost all = crate::ipc::tray_views(items@);
    let ghost p = |i: TrayItemView| i.status != "Passive"@;
    let mut r: Vec<TrayButton> = Vec::new();
    let n: usize = items.len();
    let mut i: usize = 0;
    proof {
        assert(all.take(0) =~= Seq::empty());
    }
    while i < n
        invariant
            n == items@.len(),
            i <= n,
            all == crate::ipc::tray_views(items@),
            p == (|i: TrayItemView| i.status != "Passive"@),
            r@.len() == kept(all.take(i as int), p).len(),
            forall|j: int|
                0 <= j < r@.len() ==> (#[trigger] r@[j])@ == button_of(
                    kept(all.take(i as int), p)[j],
                ),
        decreases n - i,
    {
        proof {
            lemma_kept_step(all, p, i as int);
            assert(all[i as int] == items@[i as int]@);
        }
        let item = &items[i];
        if !same(item.status.as_str(), "Passive") {
            r.push(
                TrayButton {
                    address: item.address.clone(),
                    has_menu: item.menu_path.is_some(),
                    icon_path: item.icon_path.clone(),
                },
            );
        }
        i += 1;
    }
    proof {
        assert(all.take(i as int) =~= all);
    }
    r
}

/// What a press of the right button on a tray item does.
#[derive(Clone, Copy, Debug, PartialEq, Eq, Structural)]
pub enum RightPress {
    /// The bar opens the menu of the item.
    OpenMenu,
    /// The item is asked to show its own menu.
    AskItem,
}

/// What a press of the right button on a tray item does: the bar opens its menu where it has one.
pub fn right_press(button: &TrayButton) -> (r: RightPress)
    ensures
        r == (if button@.has_menu {
            RightPress::OpenMenu
        } else {
            RightPress::AskItem
        }),
{
    if button.has_menu {
        RightPress::OpenMenu
    } else {
        RightPress::AskItem
    }
}

/// A menu that the bar opens can be fetched: of a connected tray, fetching the menu of an item asks
/// the bus for it exactly if the button of the item has a menu.
pub proof fn law_menu_that_opens_is_fetched(tray: SystemTray, i: int)
    requires
        tray.wf(),
        tray@.connected,
        0 <= i < tray@.items.len(),
    ensures
        menu_fetch(tray@, tray@.items[i].address) is FetchMenu <==> button_of(
            tray@.items[i],
        ).has_menu,
{
    let items = tray@.items;
    let address = items[i].address;
    let p = |t: TrayItemView| t.address == address;
    assert forall|j: int| 0 <= j < i implies !p(#[trigger] items[j]) by {
        if items[j].address == address {
            law_addresses_are_distinct(tray, i, j);
        }
    }
    lemma_is_first(items, p, 0, i);
}

/// An item has a button exactly if it is there and not passive.
pub proof fn law_passive_items_are_hidden(items: Seq<TrayItemView>, item: TrayItemView)
    ensures
        shown_items(items).contains(item) == (items.contains(item) && item.status != "Passive"@),
{
    lemma_kept_contains(items, |i: TrayItemView| i.status != "Passive"@, item);
}

/// The mark of an item says whether it is switched on; an item that cannot be switched has none.
pub proof fn law_marks(toggle_type: Seq<char>, toggle_state: i32)
    ensures
        toggle_type == "checkmark"@ && toggle_state == 1 ==> mark_of(toggle_type, toggle_state) == seq![
            '\u{2713}',
            ' ',
        ],
        toggle_type == "checkmark"@ && toggle_state != 1 ==> mark_of(toggle_type, toggle_state) == seq![
            ' ',
            ' ',
            ' ',
            ' ',
        ],
        toggle_type == "radio"@ && toggle_state == 1 ==> mark_of(toggle_type, toggle_state) == seq![
            '\u{25C9}',
            ' ',
        ],
        toggle_type == "radio"@ && toggle_state != 1 ==> mark_of(toggle_type, toggle_state) == seq![
            '\u{25CB}',
            ' ',
        ],
        toggle_type != "checkmark"@ && toggle_type != "radio"@ ==> mark_of(
            toggle_type,
            toggle_state,
        ).len() == 0,
{
    reveal_strlit("checkmark");
    reveal_strlit("radio");
    reveal_strlit("\u{2713} ");
    reveal_strlit("    ");
    reveal_strlit("\u{25C9} ");
    reveal_strlit("\u{25CB} ");
    reveal_strlit("");
    assert("checkmark"@.len() != "radio"@.len());
    assert("\u{2713} "@ =~= seq!['\u{2713}', ' ']);
    assert("    "@ =~= seq![' ', ' ', ' ', ' ']);
    assert("\u{25C9} "@ =~= seq!['\u{25C9}', ' ']);
    assert("\u{25CB} "@ =~= seq!['\u{25CB}', ' ']);
}

/// A menu shows its visible items, each in a row of its own and in order: a separator as a line, any
/// other item with its mark and its label, to be chosen exactly if it is enabled.
pub proof fn law_rows_of_a_menu(a: Seq<MenuItemView>, b: Seq<MenuItemView>, item: MenuItemView)
    ensures
        rows_of(a + b) == rows_of(a) + rows_of(b),
        !item.visible ==> rows_of(seq![item]).len() == 0,
        item.visible ==> rows_of(seq![item]).len() == 1,
        item.visible && item.is_separator ==> rows_of(seq![item])[0] is Separator,
        item.visible && !item.is_separator ==> {
            let row = rows_of(seq![item])[0];
            &&& row is Entry
            &&& row->id == item.id
            &&& row->text == mark_of(item.toggle_type, item.toggle_state) + item.label
            &&& row->enabled == item.enabled
            &&& item.enabled ==> row->color == Role::Foreground
            &&& !item.enabled ==> row->color == Role::Dimmed
        },
    decreases b.len(),
{
    let p = |i: MenuItemView| i.visible;
    let one = seq![item];
    assert(one.drop_last() =~= Seq::empty());
    assert(kept(one.drop_last(), p) =~= Seq::empty());
    assert(one.last() == item);
    if b.len() == 0 {
        assert(a + b =~= a);
        assert(rows_of(b) =~= Seq::empty());
        assert(rows_of(a) + rows_of(b) =~= rows_of(a));
    } else {
        law_rows_of_a_menu(a, b.drop_last(), item);
        assert((a + b).drop_last() =~= a + b.drop_last());
        assert((a + b).last() == b.last());
        lemma_rows_step(a + b);
        lemma_rows_step(b);
        assert(rows_of(a + b) =~= rows_of(a) + rows_of(b));
    }
}

proof fn lemma_rows_step(items: Seq<MenuItemView>)
    requires
        items.len() > 0,
    ensures
        rows_of(items) == (if items.last().visible {
            rows_of(items.drop_last()).push(row_of(items.last()))
        } else {
            rows_of(items.drop_last())
        }),
{
    let p = |i: MenuItemView| i.visible;
    assert(rows_of(items) =~= (if items.last().visible {
        rows_of(items.drop_last()).push(row_of(items.last()))
    } else {
        rows_of(items.drop_last())
    }));
}

/// The button of a tray item is reached at its address, shows its icon, and has a menu exactly if the
/// item has one.
pub proof fn law_tray_buttons(item: TrayItemView)
    ensures
        button_of(item).address == item.address,
        button_of(item).icon_path == item.icon_path,
        button_of(item).has_menu <==> item.menu_path is Some,
{
}

/// A message in a menu has its text for a label, can be seen and cannot be chosen.
pub proof fn law_messages(label: Seq<char>)
    ensures
        message_item(label).label == label,
        message_item(label).visible && !message_item(label).enabled,
        !message_item(label).is_separator,
        message_item(label).children.len() == 0,
        message_item(label).toggle_type.len() == 0,
{
}

} // verus!
