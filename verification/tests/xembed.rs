use ordinary::tray::address::{resolve_service_address, split_address};
use ordinary::tray::icon::pixmap_rgba;
use ordinary::xembed::bridge::{
    click_plan, dock_request, ends_turn, has_place, Bridge, BridgeEvent, ClickEvent, ClickPlan, ClickTarget, IconStore,
    Undocking, MAX_ICON_ENTRIES,
};
use ordinary::xembed::capture::{
    capture_icon, capture_icon_from_hints, capture_icon_from_property, icon_hint, next_source,
    CapturedIcon, IconSource,
};
use ordinary::xembed::sni::{object_path, BridgedIcon, SniAction, SniRegistry};

fn icon(byte: u8) -> CapturedIcon {
    CapturedIcon { width: 1, height: 1, pixels: vec![byte; 4] }
}

#[test]
fn window_images_become_icons() {
    let data = vec![1, 2, 3, 9, 4, 5, 6, 8];
    let captured = capture_icon(2, 1, 32, &data).unwrap();
    assert_eq!((captured.width, captured.height), (2, 1));
    assert_eq!(captured.pixels, vec![9, 3, 2, 1, 8, 6, 5, 4]);
    assert_eq!(capture_icon(1, 1, 24, &data).unwrap().pixels, vec![255, 3, 2, 1]);
    assert_eq!(capture_icon(2, 2, 32, &data), None);
    assert_eq!(capture_icon(0, 1, 32, &data), None);
    assert_eq!(capture_icon(1, 0, 32, &data), None);
    assert_eq!(capture_icon(1, 1, 32, &vec![0, 0, 0, 255]), None);
}

#[test]
fn icon_property_offers_the_nearest_size() {
    let mut data = vec![16, 16];
    data.extend(vec![0x11223344; 256]);
    data.extend([1, 2, 0xaabbccdd, 0x01020304]);
    let captured = capture_icon_from_property(&data).unwrap();
    assert_eq!((captured.width, captured.height), (16, 16));
    assert_eq!(captured.pixels[..4], [0x11, 0x22, 0x33, 0x44]);
    let small = capture_icon_from_property(&vec![1, 1, 0xff000080]).unwrap();
    assert_eq!(small.pixels, vec![0xff, 0, 0, 0x80]);
    assert_eq!(capture_icon_from_property(&vec![1, 1]), None);
    assert_eq!(capture_icon_from_property(&vec![2, 2, 1, 1, 1]), None);
    assert_eq!(capture_icon_from_property(&vec![u32::MAX, u32::MAX, 0]), None);
    let mut large = vec![129, 1];
    large.extend(vec![0; 129]);
    assert_eq!(capture_icon_from_property(&large), None);
}

#[test]
fn hints_name_pixmap_and_mask() {
    let hint = icon_hint(&vec![0x24, 0, 0, 5, 0, 0, 0, 7, 0]).unwrap();
    assert_eq!((hint.pixmap, hint.mask), (5, 7));
    let hint = icon_hint(&vec![0x4, 0, 0, 5, 0, 0, 0, 7, 0]).unwrap();
    assert_eq!(hint.mask, 0);
    assert!(icon_hint(&vec![0x20, 0, 0, 5, 0, 0, 0, 7, 0]).is_none());
    assert!(icon_hint(&vec![0x4, 0, 0, 0, 0, 0, 0, 7, 0]).is_none());
    assert!(icon_hint(&vec![0x4, 0, 0, 5, 0, 0, 0, 7]).is_none());
}

#[test]
fn hinted_icons_are_masked() {
    let bitmap = capture_icon_from_hints(2, 1, 1, &vec![0b10], &None).unwrap();
    assert_eq!(bitmap.pixels, vec![255, 0, 0, 0, 255, 255, 255, 255]);
    let missing = capture_icon_from_hints(1, 2, 1, &vec![1], &None).unwrap();
    assert_eq!(missing.pixels, vec![255, 255, 255, 255, 255, 0, 0, 0]);
    let data = vec![1, 2, 3, 77, 4, 5, 6, 88];
    let masked = capture_icon_from_hints(2, 1, 32, &data, &Some(vec![0b01])).unwrap();
    assert_eq!(masked.pixels, vec![255, 3, 2, 1, 0, 6, 5, 4]);
    let plain = capture_icon_from_hints(2, 1, 24, &data, &None).unwrap();
    assert_eq!(plain.pixels, vec![255, 3, 2, 1, 255, 6, 5, 4]);
    let alpha = capture_icon_from_hints(2, 1, 32, &data, &None).unwrap();
    assert_eq!(alpha.pixels, vec![77, 3, 2, 1, 88, 6, 5, 4]);
    assert_eq!(capture_icon_from_hints(2, 1, 16, &data, &None), None);
    assert_eq!(capture_icon_from_hints(2, 2, 24, &data, &None), None);
    assert_eq!(capture_icon_from_hints(0, 2, 24, &data, &None), None);
}

#[test]
fn full_store_gives_up_the_oldest_icon() {
    let mut store = IconStore::new();
    for window in 0..MAX_ICON_ENTRIES as u32 {
        store.store_icon_state(window, icon(1), 1000 - window as u64);
    }
    assert_eq!(store.icons.len(), 256);
    store.store_icon_state(9999, icon(2), 5000);
    assert_eq!(store.icons.len(), 256);
    assert!(!store.icons.contains_key(&255));
    assert!(store.icons.contains_key(&9999));
    assert!(!store.is_changed(9999, &icon(2)));
    assert!(store.is_changed(9999, &icon(3)));
    store.forget(9999);
    assert!(store.is_changed(9999, &icon(2)));
}

#[test]
fn dock_requests_name_a_window() {
    assert_eq!(dock_request(0, 5), Some(5));
    assert_eq!(dock_request(0, 0), None);
    assert_eq!(dock_request(1, 5), None);
    assert!(ends_turn(0, false));
    assert!(!ends_turn(0, true) && !ends_turn(1, false));
}

#[test]
fn windows_are_announced_with_their_first_icon() {
    let mut bridge = Bridge::new(0);
    let mut store = IconStore::new();
    assert_eq!(bridge.dock(&mut store, 7, 70, 700, None, 1), None);
    assert_eq!(bridge.captured(&mut store, 7, icon(1), 2), Some(BridgeEvent::Docked(7)));
    assert_eq!(bridge.captured(&mut store, 7, icon(1), 3), None);
    assert_eq!(bridge.captured(&mut store, 7, icon(2), 4), Some(BridgeEvent::IconUpdated(7)));
    assert_eq!(bridge.captured(&mut store, 8, icon(2), 4), None);
    assert_eq!(
        bridge.dock(&mut store, 9, 90, 900, Some(icon(5)), 5),
        Some(BridgeEvent::Docked(9))
    );
    assert_eq!(bridge.captured_at(&mut store, 1, icon(6), 6), Some(BridgeEvent::IconUpdated(9)));
    let clients: Vec<u32> = bridge.docked().iter().map(|d| d.client_window).collect();
    assert_eq!(clients, vec![7, 9]);
    assert_eq!(bridge.damage_of(9), Some(900));
    assert_eq!(bridge.damage_of(10), None);
}

#[test]
fn property_changes_only_update() {
    let mut bridge = Bridge::new(0);
    let mut store = IconStore::new();
    bridge.dock(&mut store, 7, 70, 700, None, 1);
    assert_eq!(
        bridge.icon_property_changed(&mut store, 7, icon(1), 2),
        Some(BridgeEvent::IconUpdated(7))
    );
    assert_eq!(bridge.icon_property_changed(&mut store, 7, icon(1), 2), None);
    assert_eq!(bridge.icon_property_changed(&mut store, 8, icon(1), 2), None);
    assert!(bridge.is_icon_property(7, 1, 1, 2));
    assert!(bridge.is_icon_property(7, 2, 1, 2));
    assert!(!bridge.is_icon_property(7, 3, 1, 2));
    assert!(!bridge.is_icon_property(8, 1, 1, 2));
}

#[test]
fn windows_that_go_are_undocked() {
    let mut bridge = Bridge::new(0);
    let mut store = IconStore::new();
    bridge.dock(&mut store, 7, 70, 700, Some(icon(1)), 1);
    bridge.dock(&mut store, 8, 80, 800, None, 1);
    assert_eq!(bridge.reparented(&mut store, 7, 70), None);
    assert_eq!(
        bridge.reparented(&mut store, 7, 71),
        Some(Undocking {
            damage_id: 700,
            container_window: 70,
            event: Some(BridgeEvent::Undocked(7)),
        })
    );
    assert!(store.icons.is_empty());
    assert_eq!(
        bridge.destroyed(&mut store, 8),
        Some(Undocking { damage_id: 800, container_window: 80, event: None })
    );
    assert_eq!(bridge.destroyed(&mut store, 8), None);
    assert!(!bridge.is_docked(7));
}

#[test]
fn captures_are_frequent_after_docking() {
    let mut bridge = Bridge::new(0);
    let mut store = IconStore::new();
    assert_eq!(bridge.capture_interval(0), 2_000_000_000);
    assert_eq!(bridge.poll_timeout(0), 2000);
    bridge.dock(&mut store, 7, 70, 700, None, 100_000_000);
    assert!(bridge.needs_fast_capture(1_000_000_000));
    assert!(!bridge.needs_fast_capture(2_100_000_000));
    assert_eq!(bridge.poll_timeout(150_000_000), 50);
    assert_eq!(bridge.poll_timeout(195_000_000), 10);
    assert_eq!(bridge.poll_timeout(500_000_000), 10);
    assert!(!bridge.capture_due(199_000_000));
    assert!(bridge.capture_due(200_000_000));
    assert!(!bridge.capture_due(300_000_000));
}

#[test]
fn clicks_find_their_window() {
    let mut bridge = Bridge::new(0);
    let mut store = IconStore::new();
    bridge.dock(&mut store, 7, 70, 700, None, 0);
    let shown = BridgedIcon { window_id: 7 };
    let click = shown.context_menu(30, 40);
    assert_eq!(click, ClickEvent { window_id: 7, button: 3, x_position: 30, y_position: 40 });
    assert_eq!(shown.activate(1, 2).button, 1);
    assert_eq!(shown.secondary_activate(1, 2).button, 2);
    assert_eq!(
        bridge.click_target(&click),
        Some(ClickTarget { client_window: 7, container_window: 70 })
    );
    assert_eq!(bridge.click_target(&BridgedIcon { window_id: 8 }.activate(0, 0)), None);
}

#[test]
fn clicks_without_a_place_go_to_the_corner() {
    assert!(has_place(1, -1) && has_place(-1, 1) && !has_place(0, 0));
    assert_eq!(
        click_plan(100, 0, None),
        ClickPlan { container_x: 84, container_y: -16, center: 16, pointer_x: 100, pointer_y: 0 }
    );
    assert_eq!(
        click_plan(0, 0, Some(1280)),
        ClickPlan {
            container_x: 1164,
            container_y: 28,
            center: 16,
            pointer_x: 1180,
            pointer_y: 44,
        }
    );
    assert_eq!(click_plan(-5, 0, None).pointer_x, 1820);
}

#[test]
fn bridged_items_describe_their_window() {
    let shown = BridgedIcon { window_id: 0x2a0000f };
    assert_eq!(shown.id(), "xembed_2a0000f");
    assert_eq!(shown.title(), "XEmbed Icon 2a0000f");
    assert_eq!(shown.status(), "Active");
    assert_eq!(shown.icon_name(), "");
    assert_eq!(shown.icon_theme_path(), "");
    assert_eq!(shown.menu(), "/");
    assert_eq!(object_path(0x2a0000f), "/StatusNotifierItem/xembed_2a0000f");
    let mut store = IconStore::new();
    assert!(shown.icon_pixmap(&store).is_empty());
    store.store_icon_state(0x2a0000f, icon(3), 0);
    let pixmaps = shown.icon_pixmap(&store);
    assert_eq!(pixmaps.len(), 1);
    assert_eq!(pixmaps[0].data, vec![3; 4]);
}

#[test]
fn items_are_registered_and_withdrawn() {
    let mut registry = SniRegistry::new();
    let path = || object_path(5);
    assert_eq!(registry.handle(BridgeEvent::IconUpdated(5)), SniAction::Nothing);
    assert_eq!(
        registry.handle(BridgeEvent::Docked(5)),
        SniAction::Register { window: 5, path: path() }
    );
    assert_eq!(registry.handle(BridgeEvent::IconUpdated(5)), SniAction::Nothing);
    registry.registered(5);
    assert_eq!(
        registry.handle(BridgeEvent::IconUpdated(5)),
        SniAction::Refresh { path: path() }
    );
    assert_eq!(
        registry.handle(BridgeEvent::Undocked(5)),
        SniAction::Withdraw { path: path() }
    );
    assert_eq!(registry.handle(BridgeEvent::Undocked(5)), SniAction::Nothing);
}

#[test]
fn tray_reaches_and_draws_bridged_items() {
    let path = object_path(0xabc);
    let address = resolve_service_address(&path, Some(":1.7")).unwrap();
    assert_eq!(split_address(&address), Some((":1.7".to_string(), path)));

    let captured = capture_icon(2, 1, 32, &vec![1, 2, 3, 4, 5, 6, 7, 8]).unwrap();
    let mut store = IconStore::new();
    store.store_icon_state(0xabc, captured, 0);
    let pixmap = BridgedIcon { window_id: 0xabc }.icon_pixmap(&store).remove(0);
    let rgba = pixmap_rgba(pixmap.width, pixmap.height, &pixmap.data);
    assert_eq!(rgba, Some(vec![3, 2, 1, 4, 7, 6, 5, 8]));
}

#[test]
fn paths_of_different_windows_differ() {
    assert_ne!(object_path(0x1), object_path(0x10));
    assert_ne!(object_path(0xa), object_path(0xb));
}

#[test]
fn each_docking_is_announced_once() {
    let mut bridge = Bridge::new(0);
    let mut store = IconStore::new();
    let mut announced = 0;
    let mut count = |event: Option<BridgeEvent>| {
        if matches!(event, Some(BridgeEvent::Docked(_))) {
            announced += 1;
        }
    };
    for round in 0..3u64 {
        count(bridge.dock(&mut store, 7, 70, 700, None, round));
        for byte in 1..4 {
            count(bridge.captured(&mut store, 7, icon(byte), round));
            count(bridge.captured_at(&mut store, 0, icon(byte), round));
        }
        assert!(!store.icons[&7].pixels.is_empty());
        bridge.destroyed(&mut store, 7);
    }
    assert_eq!(announced, 3);
}

#[test]
fn icon_sources_are_tried_in_order() {
    let mut tried = Vec::new();
    let mut source = next_source(None);
    while let Some(here) = source {
        tried.push(here);
        source = next_source(source);
    }
    assert_eq!(tried, vec![IconSource::Window, IconSource::Hints, IconSource::Property]);
}
