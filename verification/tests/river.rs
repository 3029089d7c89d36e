use ordinary::ipc::{BarProvider, Choice, Effect, LauncherProvider};
use ordinary::river::provider::{
    create_bar_provider, create_launcher_provider, RiverIpc, RiverSnapshot, RiverSpawner,
};
use ordinary::river::status::{bind_global, Binding, OutputEvent, RiverStatusState};
use ordinary::river::tags::{
    decode_probed, decode_tags, decode_view_tags_mask, tags_to_workspace_states, workspace_id_to_tag_mask,
};

#[test]
fn workspace_id_maps_to_expected_tag_mask() {
    assert_eq!(workspace_id_to_tag_mask(1), Some(1));
    assert_eq!(workspace_id_to_tag_mask(2), Some(2));
    assert_eq!(workspace_id_to_tag_mask(9), Some(256));
    assert_eq!(workspace_id_to_tag_mask(0), None);
}

#[test]
fn tags_map_to_workspace_states() {
    let states = tags_to_workspace_states(0b0000_0101, 0b0000_1110);

    assert!(states[0].active);
    assert!(!states[1].active);
    assert!(states[2].active);

    assert!(!states[0].occupied);
    assert!(states[1].occupied);
    assert!(states[2].occupied);
    assert!(states[3].occupied);
}

#[test]
fn view_tags_array_decodes_to_union_mask() {
    let bytes = [
        0b0000_0010_u8,
        0,
        0,
        0, // view 1: tag 2
        0b0000_1000_u8,
        0,
        0,
        0, // view 2: tag 4
    ];
    assert_eq!(decode_view_tags_mask(&bytes), 0b0000_1010);
}

#[test]
fn last_tag_is_the_highest_bit() {
    assert_eq!(workspace_id_to_tag_mask(32), Some(0x8000_0000));
    assert_eq!(workspace_id_to_tag_mask(33), None);
    assert_eq!(workspace_id_to_tag_mask(u64::MAX), None);
}

#[test]
fn nine_workspaces_are_shown() {
    let states = tags_to_workspace_states(0xffff_ffff, 0);
    assert_eq!(states.len(), 9);
    for (i, state) in states.iter().enumerate() {
        assert_eq!(state.id, i as u64 + 1);
        assert_eq!(state.index, i as u32 + 1);
        assert!(state.active);
        assert!(!state.occupied);
    }
}

#[test]
fn switching_activates_exactly_one_workspace() {
    for id in 1..=9u64 {
        let mask = workspace_id_to_tag_mask(id).unwrap();
        for state in tags_to_workspace_states(mask, 0) {
            assert_eq!(state.active, state.id == id);
        }
    }
}

#[test]
fn byte_order_and_loose_bytes_of_view_tags() {
    let raw = [0x01, 0x02, 0x04, 0x08, 0x10, 0, 0, 0, 0xff];
    assert_eq!(decode_tags(&raw, true), 0x0804_0211);
    assert_eq!(decode_tags(&raw, false), 0x1102_0408);
    assert_eq!(decode_probed(&raw, 1), 0x0804_0211);
    assert_eq!(decode_probed(&raw, 0x0100_0000), 0x1102_0408);
    assert_eq!(decode_view_tags_mask(&[]), 0);
    assert_eq!(decode_view_tags_mask(&[1, 2, 3]), 0);
    let native = 0x1234_5678_u32.to_ne_bytes();
    assert_eq!(decode_view_tags_mask(&native), 0x1234_5678);
}

#[test]
fn riverctl_is_asked_for_tags_and_commands() {
    let ipc = RiverIpc::new();
    assert_eq!(
        ipc.switch_workspace(4),
        Effect::Run {
            program: "riverctl".to_string(),
            arguments: vec!["set-focused-tags".to_string(), "8".to_string()],
        }
    );
    assert_eq!(ipc.switch_workspace(0), Effect::Nothing);
    assert_eq!(
        RiverSpawner.spawn("foot -e top"),
        Effect::Run {
            program: "riverctl".to_string(),
            arguments: vec!["spawn".to_string(), "foot -e top".to_string()],
        }
    );
}

#[test]
fn river_without_a_display_is_not_there() {
    let (bar, show_empty) = create_bar_provider(None);
    assert!(show_empty);
    assert_eq!(bar.switch_workspace(1), Effect::Nothing);
    assert_eq!(create_launcher_provider(None).spawn("x"), Effect::Nothing);

    let (bar, show_empty) = create_bar_provider(Some("wayland-1"));
    assert!(!show_empty);
    assert!(matches!(bar, Choice::Compositor(_)));
    assert!(matches!(
        create_launcher_provider(Some("wayland-1")),
        Choice::Compositor(_)
    ));
}

#[test]
fn latest_snapshot_is_shown() {
    let mut ipc = RiverIpc::new();
    assert_eq!(ipc.layout(), "");
    assert!(ipc.workspaces()[0].active);
    assert!(!ipc.receive(vec![]));
    let first = RiverSnapshot { focused_tags: 2, view_tags: 1, layout: "a".to_string() };
    let second = RiverSnapshot { focused_tags: 4, view_tags: 8, layout: "b".to_string() };
    assert!(ipc.receive(vec![first, second]));
    assert_eq!(ipc.layout(), "b");
    assert!(ipc.workspaces()[2].active);
    assert!(!ipc.workspaces()[1].active);
    assert!(ipc.workspaces()[3].occupied);
}

#[test]
fn globals_are_bound_by_interface() {
    assert_eq!(
        bind_global("zriver_status_manager_v1", 4, 4),
        Binding::Manager { version: 2 }
    );
    assert_eq!(
        bind_global("zriver_status_manager_v1", 1, 4),
        Binding::Manager { version: 1 }
    );
    assert_eq!(
        bind_global("zriver_status_manager_v1", 4, 1),
        Binding::Manager { version: 1 }
    );
    assert_eq!(bind_global("wl_seat", 9, 4), Binding::Seat);
    assert_eq!(bind_global("wl_output", 4, 4), Binding::Output);
    assert_eq!(bind_global("wl_shm", 1, 4), Binding::Ignored);
}

#[test]
fn status_objects_are_asked_for_once() {
    let mut state = RiverStatusState::new();
    let r = state.bound_output(10, 100);
    assert!(!r.seat && r.outputs.is_empty());
    let r = state.bound_seat(11);
    assert!(!r.seat && r.outputs.is_empty());
    let r = state.bound_manager(12);
    assert!(r.seat);
    assert_eq!(r.outputs, vec![100]);
    let r = state.bound_output(13, 101);
    assert!(!r.seat);
    assert_eq!(r.outputs, vec![101]);
    let r = state.bound_manager(14);
    assert!(!r.seat && r.outputs.is_empty());
}

#[test]
fn seat_that_left_is_asked_for_again() {
    let mut state = RiverStatusState::new();
    state.bound_manager(1);
    assert!(state.bound_seat(2).seat);
    assert!(state.global_removed(2).is_none());
    assert!(state.bound_seat(3).seat);
}

#[test]
fn focused_output_is_shown() {
    let mut state = RiverStatusState::new();
    state.bound_manager(1);
    state.bound_output(2, 20);
    state.bound_output(3, 30);
    let (missing, _) = state.focused_output(30);
    assert!(!missing);
    let shown = state.output_event(30, OutputEvent::FocusedTags(4)).unwrap();
    assert_eq!(shown.focused_tags, 4);
    let shown = state.output_event(20, OutputEvent::FocusedTags(2)).unwrap();
    assert_eq!(shown.focused_tags, 4);
    let shown = state.output_event(30, OutputEvent::ViewTags(6)).unwrap();
    assert_eq!(shown.view_tags, 6);
    let shown = state
        .output_event(30, OutputEvent::LayoutName("rivertile".to_string()))
        .unwrap();
    assert_eq!(shown.layout, "rivertile");
    assert!(state.output_event(30, OutputEvent::UrgentTags).is_none());
    let shown = state.output_event(30, OutputEvent::LayoutNameClear).unwrap();
    assert_eq!(shown.layout, "");
    let shown = state.output_event(30, OutputEvent::FocusedTags(0)).unwrap();
    assert_eq!(shown.focused_tags, 1);
}

#[test]
fn output_that_left_is_forgotten() {
    let mut state = RiverStatusState::new();
    state.bound_manager(1);
    state.bound_output(2, 20);
    state.bound_output(3, 30);
    state.focused_output(20);
    state.output_event(20, OutputEvent::FocusedTags(8));
    state.output_event(30, OutputEvent::FocusedTags(16));
    let shown = state.global_removed(2).unwrap();
    assert_eq!(shown.focused_tags, 16);
    assert!(state.global_removed(2).is_none());
    assert!(state.global_removed(3).is_none());
    assert!(state.unfocused_output(20).is_none());
}

#[test]
fn output_that_loses_the_focus_gives_way_to_any() {
    let mut state = RiverStatusState::new();
    state.bound_manager(1);
    let (missing, shown) = state.focused_output(50);
    assert!(missing);
    assert_eq!(shown.unwrap().focused_tags, 1);
    state.output_event(50, OutputEvent::FocusedTags(32));
    assert!(state.unfocused_output(51).is_none());
    assert_eq!(state.unfocused_output(50).unwrap().focused_tags, 32);
    assert!(state.unfocused_output(50).is_none());
}
