use ordinary::bar::menu::{
    fetched_items, loading_items, menu_message_item, menu_rows, right_press, toggle_prefix, tray_buttons, MenuRow,
    RightPress,
};
use ordinary::bar::status::{format_battery, logout, Segment, StatusBar};
use ordinary::battery::{find_battery, read, BatteryInfo, PowerSupply};
use ordinary::clock::now;
use ordinary::ipc::{Effect, MenuItem, TrayItem, WorkspaceState};
use ordinary::theme::Role;

#[test]
fn clock_has_two_places() {
    assert_eq!(now(7, 5), "07:05");
    assert_eq!(now(23, 59), "23:59");
    assert_eq!(now(0, 0), "00:00");
    assert_eq!(now(-1, 10), "-1:10");
}

#[test]
fn battery_is_read() {
    let info = |capacity, charging| Some(BatteryInfo { capacity, charging });
    assert_eq!(read(Some("87\n"), Some("Charging\n")), info(87, true));
    assert_eq!(read(Some(" 100 "), Some("Full")), info(100, true));
    assert_eq!(read(Some("+5"), Some("Discharging")), info(5, false));
    assert_eq!(read(Some("5"), None), info(5, false));
    assert_eq!(read(Some("256"), Some("Full")), None);
    assert_eq!(read(Some("-1"), Some("Full")), None);
    assert_eq!(read(Some(""), Some("Full")), None);
    assert_eq!(read(None, Some("Full")), None);
}

fn supply(path: &str, kind: Option<&str>, has_capacity: bool) -> PowerSupply {
    PowerSupply {
        path: path.to_string(),
        supply_type: kind.map(|k| k.to_string()),
        has_capacity,
    }
}

#[test]
fn first_battery_is_found() {
    let supplies = vec![
        supply("/AC", Some("Mains\n"), false),
        supply("/mouse", Some("Battery\n"), false),
        supply("/none", None, true),
        supply("/BAT0", Some("Battery\n"), true),
        supply("/BAT1", Some("Battery\n"), true),
    ];
    assert_eq!(find_battery(&supplies).as_deref(), Some("/BAT0"));
    assert_eq!(find_battery(&vec![]), None);
}

#[test]
fn battery_text_and_colour() {
    assert_eq!(format_battery(42, false), "42%");
    assert_eq!(format_battery(100, true), "100%+");
    let color = |capacity, charging| {
        StatusBar::new(false, true, Some(BatteryInfo { capacity, charging }), 0, 0).battery_color()
    };
    assert_eq!(color(5, true), Role::Good);
    assert_eq!(color(10, false), Role::Danger);
    assert_eq!(color(11, false), Role::Warning);
    assert_eq!(color(25, false), Role::Warning);
    assert_eq!(color(26, false), Role::Foreground);
}

#[test]
fn battery_is_looked_at_every_half_minute() {
    let mut bar = StatusBar::new(true, true, Some(BatteryInfo { capacity: 50, charging: false }), 1, 2);
    assert_eq!(bar.clock_text, "01:02");
    assert_eq!(bar.battery_text, "50%");
    assert!(StatusBar::is_battery_due(0));
    assert!(!StatusBar::is_battery_due(29));
    assert!(StatusBar::is_battery_due(30));
    let later = Some(BatteryInfo { capacity: 49, charging: true });
    assert_eq!(bar.second(29, 1, 3, later), 30);
    assert_eq!(bar.clock_text, "01:03");
    assert_eq!(bar.battery_text, "50%");
    assert_eq!(bar.second(30, 1, 3, later), 31);
    assert_eq!(bar.battery_text, "49%+");
    bar.second(60, 1, 4, None);
    assert_eq!(bar.battery_text, "49%+");
    assert_eq!(bar.second(u32::MAX, 1, 4, None), 0);
}

fn workspace(id: u64, active: bool, occupied: bool) -> WorkspaceState {
    WorkspaceState { id, index: id as u32, active, occupied }
}

#[test]
fn empty_workspaces_are_hidden() {
    let list = vec![
        workspace(1, false, true),
        workspace(2, false, false),
        workspace(3, true, false),
    ];
    let mut bar = StatusBar::new(false, false, None, 0, 0);
    bar.update(list.clone(), "US".to_string());
    let buttons = bar.workspace_buttons();
    assert_eq!(buttons.len(), 2);
    assert_eq!(buttons[0].label, "1");
    assert_eq!(buttons[0].background, Role::Surface);
    assert_eq!(buttons[0].foreground, Role::Foreground);
    assert_eq!(buttons[1].id, 3);
    assert_eq!(buttons[1].background, Role::Accent);
    assert_eq!(buttons[1].foreground, Role::Background);
    let mut bar = StatusBar::new(true, false, None, 0, 0);
    bar.update(list, String::new());
    assert_eq!(bar.workspace_buttons().len(), 3);
}

#[test]
fn state_is_drawn_in_order() {
    let mut bar = StatusBar::new(false, true, Some(BatteryInfo { capacity: 8, charging: false }), 9, 30);
    bar.update(vec![], "DE".to_string());
    assert_eq!(
        bar.segments(true),
        vec![
            Segment::Layout("DE".to_string()),
            Segment::Separator,
            Segment::Tray,
            Segment::Separator,
            Segment::Clock("09:30".to_string()),
            Segment::Separator,
            Segment::Battery { text: "8%".to_string(), color: Role::Danger },
            Segment::Separator,
            Segment::Logout,
        ]
    );
    let bar = StatusBar::new(false, false, None, 9, 30);
    assert_eq!(
        bar.segments(false),
        vec![Segment::Clock("09:30".to_string()), Segment::Separator, Segment::Logout]
    );
}

#[test]
fn unreadable_battery_is_shown_without_text() {
    let bar = StatusBar::new(false, true, None, 0, 0);
    assert!(bar.segments(false).contains(&Segment::Battery {
        text: String::new(),
        color: Role::Foreground,
    }));
}

#[test]
fn menu_address_is_remembered() {
    let mut bar = StatusBar::new(false, false, None, 0, 0);
    bar.open_menu("a/b");
    assert_eq!(bar.menu_address.as_deref(), Some("a/b"));
    bar.close_menu();
    assert_eq!(bar.menu_address, None);
}

#[test]
fn logging_out_ends_the_session_or_the_user() {
    let run = |a: &str, b: &str| Effect::Run {
        program: "loginctl".to_string(),
        arguments: vec![a.to_string(), b.to_string()],
    };
    assert_eq!(logout(Some("c2"), Some("me")), run("terminate-session", "c2"));
    assert_eq!(logout(Some(""), Some("me")), run("terminate-user", "me"));
    assert_eq!(logout(None, None), run("terminate-user", ""));
}

fn menu_item(id: i32, label: &str) -> MenuItem {
    let mut item = menu_message_item(label);
    item.id = id;
    item.enabled = true;
    item
}

#[test]
fn menus_say_why_they_are_empty() {
    assert_eq!(loading_items()[0].label, "Loading menu...");
    assert!(!loading_items()[0].enabled);
    assert_eq!(fetched_items(Ok(vec![]))[0].label, "No menu items");
    assert_eq!(fetched_items(Err("x".to_string()))[0].label, "Failed to load menu");
    assert_eq!(fetched_items(Ok(vec![menu_item(4, "Quit")]))[0].id, 4);
    assert_eq!(
        menu_rows(&loading_items()),
        vec![MenuRow::Entry {
            id: 0,
            text: "Loading menu...".to_string(),
            color: Role::Dimmed,
            enabled: false,
        }]
    );
}

#[test]
fn menu_rows_are_marked() {
    assert_eq!(toggle_prefix("checkmark", 1), "\u{2713} ");
    assert_eq!(toggle_prefix("checkmark", 0), "    ");
    assert_eq!(toggle_prefix("radio", 1), "\u{25C9} ");
    assert_eq!(toggle_prefix("radio", -1), "\u{25CB} ");
    assert_eq!(toggle_prefix("", 1), "");
    let mut hidden = menu_item(1, "Hidden");
    hidden.visible = false;
    let mut line = menu_item(2, "");
    line.is_separator = true;
    let mut check = menu_item(3, "Check");
    check.toggle_type = "checkmark".to_string();
    check.toggle_state = 1;
    assert_eq!(
        menu_rows(&vec![hidden, line, check]),
        vec![
            MenuRow::Separator,
            MenuRow::Entry {
                id: 3,
                text: "\u{2713} Check".to_string(),
                color: Role::Foreground,
                enabled: true,
            },
        ]
    );
}

#[test]
fn passive_items_have_no_button() {
    let item = |address: &str, status: &str, menu: Option<&str>| TrayItem {
        id: String::new(),
        title: String::new(),
        status: status.to_string(),
        icon_path: None,
        address: address.to_string(),
        menu_path: menu.map(|m| m.to_string()),
    };
    let buttons = tray_buttons(&[
        item("a", "Active", None),
        item("b", "Passive", None),
        item("c", "NeedsAttention", Some("/m")),
    ]);
    assert_eq!(buttons.len(), 2);
    assert_eq!(buttons[0].address, "a");
    assert!(!buttons[0].has_menu);
    assert_eq!(right_press(&buttons[0]), RightPress::AskItem);
    assert_eq!(right_press(&buttons[1]), RightPress::OpenMenu);
    assert_eq!(buttons[1].address, "c");
    assert!(buttons[1].has_menu);
}
