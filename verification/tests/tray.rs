use ordinary::ipc::{MenuItem, Pixmap, TrayItem, TrayProvider, TrayRequest};
use ordinary::menu::{parse_menu_layout, property_bool, property_i32, property_string, MenuValue, Property};
use ordinary::tray::address::{
    bus_name, host_name, icon_directory, is_process_running, is_stale_directory,
    resolve_service_address, split_address, Probe,
};
use ordinary::tray::icon::{pixmap_icon, pixmap_rgba, pixmap_to_file, safe_id, select_pixmap};
use ordinary::tray::system::{
    build_item, chosen_icon, find_icon, ItemProperties, SystemTray, TrayAction, TrayEvent,
};

#[test]
fn services_resolve_to_addresses() {
    assert_eq!(
        resolve_service_address("/org/item", Some(":1.5")).as_deref(),
        Some(":1.5/org/item")
    );
    assert_eq!(resolve_service_address("/org/item", None), None);
    assert_eq!(
        resolve_service_address("org.app.Item", None).as_deref(),
        Some("org.app.Item/StatusNotifierItem")
    );
}

#[test]
fn registered_items_are_reached() {
    let address = resolve_service_address("/a/b", Some(":1.9")).unwrap();
    assert_eq!(split_address(&address), Some((":1.9".to_string(), "/a/b".to_string())));
    assert_eq!(bus_name(&address), ":1.9");
    let address = resolve_service_address("org.x", Some(":1.9")).unwrap();
    assert_eq!(
        split_address(&address),
        Some(("org.x".to_string(), "/StatusNotifierItem".to_string()))
    );
    assert_eq!(split_address("nothing"), None);
    assert_eq!(bus_name("nothing"), "nothing");
}

#[test]
fn icon_directories_name_their_process() {
    assert_eq!(icon_directory(Some("/run/user/1"), 77), "/run/user/1/ordinary-tray-icons-77");
    assert_eq!(icon_directory(None, 77), "/tmp/ordinary-tray-icons-77");
    assert_eq!(host_name(77), "org.freedesktop.StatusNotifierHost-77");
}

#[test]
fn directories_of_dead_processes_are_stale() {
    let dead = |_: i32| Probe::Failed;
    let alive = |_: i32| Probe::Reached;
    let foreign = |_: i32| Probe::Denied;
    assert!(is_stale_directory("ordinary-tray-icons-5", 6, dead));
    assert!(!is_stale_directory("ordinary-tray-icons-5", 5, dead));
    assert!(!is_stale_directory("ordinary-tray-icons-5", 6, alive));
    assert!(!is_stale_directory("ordinary-tray-icons-5", 6, foreign));
    assert!(!is_stale_directory("ordinary-tray-icons-x", 6, dead));
    assert!(!is_stale_directory("ordinary-tray-icons-99999999999", 6, dead));
    assert!(!is_stale_directory("other-5", 6, dead));
    assert!(is_stale_directory("ordinary-tray-icons--3", 6, alive));
    assert!(!is_process_running(0, alive));
    assert!(is_process_running(1, foreign));
}

fn pixmap(width: i32, height: i32) -> Pixmap {
    let n = if width > 0 && height > 0 { (width * height * 4) as usize } else { 0 };
    Pixmap { width, height, data: vec![0; n] }
}

#[test]
fn largest_picture_within_the_limit_is_taken() {
    assert_eq!(select_pixmap(&vec![]), None);
    let list = vec![pixmap(16, 16), pixmap(64, 64), pixmap(256, 256), pixmap(64, 64)];
    assert_eq!(select_pixmap(&list), Some(3));
    assert_eq!(select_pixmap(&vec![pixmap(200, 1), pixmap(256, 256), pixmap(0, 5)]), Some(1));
    assert_eq!(select_pixmap(&vec![pixmap(128, 128), pixmap(129, 1)]), Some(0));
    assert_eq!(select_pixmap(&vec![pixmap(-5, 5), pixmap(0, 0)]), Some(1));
}

#[test]
fn channels_are_reordered() {
    let data = vec![1, 2, 3, 4, 5, 6, 7, 8, 9];
    assert_eq!(pixmap_rgba(2, 1, &data), Some(vec![2, 3, 4, 1, 6, 7, 8, 5]));
    assert_eq!(pixmap_rgba(3, 1, &data), None);
    assert_eq!(pixmap_rgba(0, 1, &data), None);
    assert_eq!(pixmap_rgba(1, -1, &data), None);
    assert_eq!(pixmap_rgba(i32::MAX, i32::MAX, &data), None);
}

#[test]
fn file_names_stay_in_the_directory() {
    assert_eq!(safe_id("../../etc/passwd"), "______etc_passwd");
    assert_eq!(safe_id("App-1.ä"), "App_1_ä");
    assert_eq!(safe_id(""), "");
}

fn decoded(bytes: &[u8]) -> (u32, u32, Vec<u8>) {
    let decoder = png::Decoder::new(std::io::Cursor::new(bytes.to_vec()));
    let mut reader = decoder.read_info().unwrap();
    let mut buffer = vec![0; reader.output_buffer_size().unwrap()];
    let info = reader.next_frame(&mut buffer).unwrap();
    assert_eq!(info.color_type, png::ColorType::Rgba);
    assert_eq!(info.bit_depth, png::BitDepth::Eight);
    buffer.truncate(info.buffer_size());
    (info.width, info.height, buffer)
}

#[test]
fn pictures_become_image_files() {
    let data = vec![255, 10, 20, 30, 128, 40, 50, 60];
    let file = pixmap_to_file(1, 2, &data, "my/app", "/run/icons").unwrap();
    assert_eq!(file.path, "/run/icons/my_app.png");
    assert_eq!(decoded(&file.contents), (1, 2, vec![10, 20, 30, 255, 40, 50, 60, 128]));
    assert!(pixmap_to_file(2, 2, &data, "x", "/run").is_none());
    assert!(pixmap_to_file(0, 2, &data, "x", "/run").is_none());
}

#[test]
fn item_without_a_named_icon_offers_pictures() {
    let list = vec![
        Pixmap { width: 1, height: 1, data: vec![1, 2, 3, 4] },
        Pixmap { width: 2, height: 1, data: vec![9, 8, 7, 6, 5, 4, 3, 2] },
    ];
    let file = pixmap_icon(&list, "id", "/d/").unwrap();
    assert_eq!(file.path, "/d/id.png");
    assert_eq!(decoded(&file.contents), (2, 1, vec![8, 7, 6, 9, 4, 3, 2, 5]));
    assert!(pixmap_icon(&vec![], "id", "/d").is_none());
    let short = vec![Pixmap { width: 9, height: 9, data: vec![] }];
    assert!(pixmap_icon(&short, "id", "/d").is_none());
}

#[test]
fn named_icons_are_searched_in_the_own_theme_first() {
    assert_eq!(
        find_icon("net", "/opt/theme", |_| true).as_deref(),
        Some("/opt/theme/48x48/apps/net.png")
    );
    let wanted = "/usr/share/icons/hicolor/32x32/status/net.svg";
    assert_eq!(find_icon("net", "/opt/theme", |p| p == wanted).as_deref(), Some(wanted));
    assert_eq!(find_icon("", "/opt/theme", |_| true), None);
}

fn item(address: &str, menu: Option<&str>) -> TrayItem {
    build_item(
        address,
        ItemProperties {
            id: Some("id".to_string()),
            title: None,
            status: None,
            menu: menu.map(|m| m.to_string()),
        },
        None,
    )
}

#[test]
fn missing_properties_have_defaults() {
    let built = item("a/b", Some("/menu"));
    assert_eq!(built.id, "id");
    assert_eq!(built.title, "");
    assert_eq!(built.status, "Active");
    assert_eq!(built.address, "a/b");
    assert_eq!(built.menu_path.as_deref(), Some("/menu"));
    assert!(item("a/b", Some("/")).menu_path.is_none());
    assert!(item("a/b", Some("")).menu_path.is_none());
    assert!(item("a/b", None).menu_path.is_none());
}

fn registered(address: &str) -> TrayEvent {
    TrayEvent::Registered(address.to_string())
}

#[test]
fn items_come_and_go() {
    let mut tray = SystemTray::new(Some("/run"), 3);
    assert_eq!(tray.icon_directory(), "/run/ordinary-tray-icons-3");
    assert_eq!(tray.handle(&registered("a/x")), TrayAction::FetchNew("a/x".to_string()));
    assert!(tray.add_item(item("a/x", None)));
    assert!(!tray.add_item(item("a/x", None)));
    assert_eq!(tray.handle(&registered("a/x")), TrayAction::Nothing);
    assert!(tray.add_item(item("a/y", None)));
    assert!(tray.add_item(item("b/z", None)));
    assert_eq!(
        tray.handle(&TrayEvent::Refresh("b/z".to_string())),
        TrayAction::FetchAgain("b/z".to_string())
    );
    assert_eq!(tray.handle(&TrayEvent::Refresh("c".to_string())), TrayAction::Nothing);
    assert_eq!(
        tray.handle(&TrayEvent::Unregistered("a/y".to_string())),
        TrayAction::Notify
    );
    assert_eq!(
        tray.handle(&TrayEvent::Unregistered("a/y".to_string())),
        TrayAction::Nothing
    );
    let addresses: Vec<&str> = tray.items().iter().map(|i| i.address.as_str()).collect();
    assert_eq!(addresses, vec!["a/x", "b/z"]);
}

#[test]
fn items_of_a_lost_bus_name_go() {
    let mut tray = SystemTray::new(None, 3);
    for address in ["a/1", "b/1", "a/2", "ab/1"] {
        tray.add_item(item(address, None));
    }
    let lost = |name: &str, owner: Option<&str>| TrayEvent::NameOwnerChanged {
        name: name.to_string(),
        new_owner: owner.map(|o| o.to_string()),
    };
    assert_eq!(tray.handle(&lost("a", Some(":1.2"))), TrayAction::Nothing);
    assert_eq!(tray.handle(&lost("a", Some(""))), TrayAction::Notify);
    assert_eq!(tray.handle(&lost("a", None)), TrayAction::Nothing);
    let addresses: Vec<&str> = tray.items().iter().map(|i| i.address.as_str()).collect();
    assert_eq!(addresses, vec!["b/1", "ab/1"]);
}

#[test]
fn refreshed_items_are_replaced_in_place() {
    let mut tray = SystemTray::new(None, 3);
    tray.add_item(item("a/1", None));
    tray.add_item(item("b/1", None));
    tray.replace_item(item("a/1", Some("/m")));
    tray.replace_item(item("gone/1", None));
    assert_eq!(tray.items().len(), 2);
    assert_eq!(tray.items()[0].menu_path.as_deref(), Some("/m"));
}

#[test]
fn requests_need_a_connection_and_an_address() {
    let mut tray = SystemTray::new(None, 3);
    tray.add_item(item("bus/path/x", Some("/menu")));
    tray.add_item(item("bus/plain", None));
    assert_eq!(tray.activate("bus/path/x"), TrayRequest::Nothing);
    assert_eq!(tray.context_menu_at("bus/path/x", 1, 2), TrayRequest::Nothing);
    assert_eq!(tray.fetch_menu("bus/path/x"), TrayRequest::Nothing);
    assert_eq!(tray.activate_menu_item("bus/path/x", 1), TrayRequest::Nothing);
    tray.connect();
    assert_eq!(
        tray.activate("bus/path/x"),
        TrayRequest::Activate {
            bus_name: "bus".to_string(),
            object_path: "/path/x".to_string(),
            x: 0,
            y: 0,
        }
    );
    assert_eq!(
        tray.activate_at("bus/q", -3, 4),
        TrayRequest::Activate {
            bus_name: "bus".to_string(),
            object_path: "/q".to_string(),
            x: -3,
            y: 4,
        }
    );
    assert_eq!(
        tray.context_menu("bus/plain"),
        TrayRequest::ContextMenu {
            bus_name: "bus".to_string(),
            object_path: "/plain".to_string(),
            x: 0,
            y: 0,
        }
    );
    assert_eq!(
        tray.context_menu_at("bad", 1, 1),
        TrayRequest::InvalidAddress { message: "Invalid address: bad".to_string() }
    );
    assert_eq!(
        tray.activate("bad"),
        TrayRequest::InvalidAddress { message: "Invalid address: bad".to_string() }
    );
    assert_eq!(
        tray.fetch_menu("bus/path/x"),
        TrayRequest::FetchMenu { bus_name: "bus".to_string(), menu_path: "/menu".to_string() }
    );
    assert_eq!(tray.fetch_menu("bus/plain"), TrayRequest::Nothing);
    assert_eq!(tray.fetch_menu("bus/unknown"), TrayRequest::Nothing);
    assert_eq!(
        tray.activate_menu_item("bus/path/x", 42),
        TrayRequest::MenuEvent {
            bus_name: "bus".to_string(),
            menu_path: "/menu".to_string(),
            id: 42,
        }
    );
    assert_eq!(tray.activate_menu_item("bus/plain", 42), TrayRequest::Nothing);
}

fn text(s: &str) -> MenuValue {
    MenuValue::Str(s.to_string())
}

fn variant(v: MenuValue) -> MenuValue {
    MenuValue::Variant(Box::new(v))
}

fn entry(id: i32, props: Vec<(&str, MenuValue)>, children: Vec<MenuValue>) -> MenuValue {
    MenuValue::Structure(vec![
        MenuValue::I32(id),
        MenuValue::Dict(props.into_iter().map(|(k, v)| (text(k), variant(v))).collect()),
        MenuValue::Array(children),
    ])
}

fn only(values: Vec<MenuValue>) -> MenuItem {
    let mut items = parse_menu_layout(&values);
    assert_eq!(items.len(), 1);
    items.remove(0)
}

#[test]
fn menu_items_have_defaults() {
    let item = only(vec![entry(7, vec![], vec![])]);
    assert_eq!(item.id, 7);
    assert_eq!(item.label, "");
    assert!(item.enabled && item.visible && !item.is_separator);
    assert_eq!(item.toggle_type, "");
    assert_eq!(item.toggle_state, 0);
    assert!(item.children.is_empty());
}

#[test]
fn menu_items_are_read() {
    let item = only(vec![entry(
        3,
        vec![
            ("label", text("_Open _file")),
            ("enabled", MenuValue::Bool(false)),
            ("visible", MenuValue::Bool(false)),
            ("type", text("separator")),
            ("toggle-type", text("radio")),
            ("toggle-state", MenuValue::I32(1)),
        ],
        vec![entry(4, vec![("label", text("Child"))], vec![])],
    )]);
    assert_eq!(item.label, "Open file");
    assert!(!item.enabled && !item.visible && item.is_separator);
    assert_eq!(item.toggle_type, "radio");
    assert_eq!(item.toggle_state, 1);
    assert_eq!(item.children.len(), 1);
    assert_eq!(item.children[0].label, "Child");
}

#[test]
fn malformed_menu_values_are_left_out() {
    let values = vec![
        MenuValue::I32(1),
        MenuValue::Structure(vec![MenuValue::I32(1)]),
        MenuValue::Structure(vec![text("1"), MenuValue::Dict(vec![]), MenuValue::Array(vec![])]),
        MenuValue::Structure(vec![
            MenuValue::I32(1),
            MenuValue::Dict(vec![(MenuValue::I32(0), MenuValue::Other)]),
            MenuValue::Array(vec![]),
        ]),
        variant(entry(2, vec![], vec![])),
        MenuValue::Structure(vec![MenuValue::I32(5), MenuValue::Other, MenuValue::Other]),
    ];
    let items = parse_menu_layout(&values);
    assert_eq!(items.len(), 1);
    assert_eq!(items[0].id, 5);
}

#[test]
fn properties_have_types() {
    let (label, on, state) = (text("x"), MenuValue::Bool(true), variant(MenuValue::I32(2)));
    let props = vec![
        Property { name: "label".to_string(), value: &label },
        Property { name: "on".to_string(), value: &on },
        Property { name: "state".to_string(), value: &state },
    ];
    assert_eq!(property_string(&props, "label").as_deref(), Some("x"));
    assert_eq!(property_string(&props, "on"), None);
    assert_eq!(property_bool(&props, "on"), Some(true));
    assert_eq!(property_bool(&props, "missing"), None);
    assert_eq!(property_i32(&props, "state"), Some(2));
    assert_eq!(property_i32(&props, "label"), None);
}

#[test]
fn values_of_a_layout_stand_for_themselves() {
    let first = || vec![entry(1, vec![("label", text("a"))], vec![]), MenuValue::Other];
    let second = || vec![entry(2, vec![("label", text("b"))], vec![])];
    let mut both = first();
    both.extend(second());
    let labels = |values: &Vec<MenuValue>| -> Vec<String> {
        parse_menu_layout(values).into_iter().map(|i| i.label).collect()
    };
    let mut parts = labels(&first());
    parts.extend(labels(&second()));
    assert_eq!(labels(&both), parts);
}

#[test]
fn found_icons_win_over_drawn_ones() {
    let path = |s: &str| Some(s.to_string());
    assert_eq!(chosen_icon(path("/found"), path("/drawn")), path("/found"));
    assert_eq!(chosen_icon(None, path("/drawn")), path("/drawn"));
    assert_eq!(chosen_icon(path("/found"), None), path("/found"));
    assert_eq!(chosen_icon(None, None), None);
}

#[test]
fn labels_have_no_marks_at_any_depth() {
    let leaf = entry(3, vec![("label", text("_c_"))], vec![]);
    let middle = entry(2, vec![("label", text("b_"))], vec![leaf]);
    let item = only(vec![entry(1, vec![("label", text("_a"))], vec![middle])]);
    assert_eq!(item.label, "a");
    assert_eq!(item.children[0].label, "b");
    assert_eq!(item.children[0].children[0].label, "c");
}
