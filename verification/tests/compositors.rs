use ordinary::hyprland;
use ordinary::ipc::{next_backoff, BarProvider, Choice, Effect, LauncherProvider, NoopBarProvider, NoopSpawner};
use ordinary::niri;

#[test]
fn backoff_doubles_up_to_half_a_minute() {
    let mut seconds = 1;
    let mut seen = vec![seconds];
    for _ in 0..6 {
        seconds = next_backoff(seconds);
        seen.push(seconds);
    }
    assert_eq!(seen, vec![1, 2, 4, 8, 16, 30, 30]);
    assert_eq!(next_backoff(0), 1);
    assert_eq!(next_backoff(u64::MAX), 30);
}

#[test]
fn noop_providers_do_nothing() {
    assert_eq!(NoopBarProvider.switch_workspace(3), Effect::Nothing);
    assert_eq!(NoopSpawner.spawn("ls"), Effect::Nothing);
}

#[test]
fn hyprland_workspaces_are_sorted_and_special_ones_dropped() {
    let workspaces = vec![
        hyprland::Workspace { id: 3, windows: 0 },
        hyprland::Workspace { id: -99, windows: 2 },
        hyprland::Workspace { id: 1, windows: 5 },
        hyprland::Workspace { id: 0, windows: 1 },
        hyprland::Workspace { id: 2, windows: 0 },
    ];
    let active = hyprland::ActiveWorkspace { id: 2 };
    let mut ipc = hyprland::HyprlandIpc::new("/run/hypr/x".to_string());
    ipc.update_workspaces(&workspaces, &active);
    let shown = ipc.workspaces();
    let ids: Vec<u64> = shown.iter().map(|w| w.id).collect();
    assert_eq!(ids, vec![1, 2, 3]);
    assert_eq!(shown[0].index, 1);
    assert!(shown[0].occupied && !shown[0].active);
    assert!(shown[1].active && !shown[1].occupied);
    assert!(!shown[2].active && !shown[2].occupied);
}

#[test]
fn hyprland_layout_comes_from_the_main_keyboard() {
    let keyboard = |name: &str, layout: &str| hyprland::Keyboard {
        name: name.to_string(),
        active_keymap: layout.to_string(),
    };
    let mut ipc = hyprland::HyprlandIpc::new("/run".to_string());
    ipc.update_layout(&hyprland::Devices {
        keyboards: vec![
            keyboard("power-button", "English (US)"),
            keyboard("at-translated-set-2-keyboard", "German"),
        ],
    });
    assert_eq!(ipc.layout(), "German");
    ipc.update_layout(&hyprland::Devices {
        keyboards: vec![keyboard("a", "Swedish"), keyboard("b", "Danish")],
    });
    assert_eq!(ipc.layout(), "Swedish");
    ipc.update_layout(&hyprland::Devices { keyboards: vec![] });
    assert_eq!(ipc.layout(), "");
}

#[test]
fn hyprland_events() {
    let mut ipc = hyprland::HyprlandIpc::new("/run".to_string());
    for name in [
        "workspace",
        "workspacev2",
        "createworkspace",
        "createworkspacev2",
        "destroyworkspace",
        "destroyworkspacev2",
        "moveworkspace",
        "moveworkspacev2",
        "renameworkspace",
    ] {
        let line = format!("{}>>1,one", name);
        assert_eq!(ipc.handle_line(&line), hyprland::LineEvent::Refresh);
    }
    assert_eq!(ipc.handle_line("openwindow>>x"), hyprland::LineEvent::Nothing);
    assert_eq!(ipc.handle_line("workspace"), hyprland::LineEvent::Nothing);
    assert_eq!(ipc.handle_line("activelayout>>none"), hyprland::LineEvent::Nothing);
    assert_eq!(ipc.layout(), "");
    assert_eq!(
        ipc.handle_line("activelayout>>kbd,German, no dead keys"),
        hyprland::LineEvent::Layout("German, no dead keys".to_string())
    );
    assert_eq!(ipc.layout(), "German, no dead keys");
}

#[test]
fn hyprland_is_asked_through_its_socket() {
    let (bar, show_empty) = hyprland::create_bar_provider(Some("sig"), Some("/run/user/1000"));
    assert!(!show_empty);
    assert_eq!(
        bar.switch_workspace(7),
        Effect::Hyprland {
            socket_path: "/run/user/1000/hypr/sig/.socket.sock".to_string(),
            command: "dispatch workspace 7".to_string(),
        }
    );
    let launcher = hyprland::create_launcher_provider(Some("sig"), Some("/run/"));
    assert_eq!(
        launcher.spawn("foot"),
        Effect::Hyprland {
            socket_path: "/run/hypr/sig/.socket.sock".to_string(),
            command: "dispatch exec foot".to_string(),
        }
    );
    assert_eq!(hyprland::event_path("/run/hypr/sig"), "/run/hypr/sig/.socket2.sock");
}

#[test]
fn hyprland_needs_both_variables() {
    let (bar, show_empty) = hyprland::create_bar_provider(Some("sig"), None);
    assert!(!show_empty);
    assert!(matches!(bar, Choice::Noop(_)));
    assert!(matches!(
        hyprland::create_launcher_provider(None, Some("/run")),
        Choice::Noop(_)
    ));
}

fn niri_workspace(id: u64, index: u8, is_focused: bool) -> niri::Workspace {
    niri::Workspace { id, index, is_focused }
}

#[test]
fn niri_workspaces_are_sorted_by_index() {
    let mut ipc = niri::NiriIpc::new("/run/niri.sock");
    let changed = ipc.apply(niri::Event::WorkspacesChanged {
        data: niri::WorkspacesChangedEvent {
            workspaces: vec![
                niri_workspace(30, 2, false),
                niri_workspace(10, 1, true),
                niri_workspace(20, 2, false),
            ],
        },
    });
    assert!(changed);
    let shown = ipc.workspaces();
    let ids: Vec<u64> = shown.iter().map(|w| w.id).collect();
    assert_eq!(ids, vec![10, 30, 20]);
    assert!(shown.iter().all(|w| w.occupied));
    assert!(shown[0].active);

    let activated = |id, focused| niri::Event::WorkspaceActivated {
        data: niri::WorkspaceActivatedEvent { id, focused },
    };
    assert!(!ipc.apply(activated(20, false)));
    assert!(ipc.workspaces()[0].active);
    assert!(ipc.apply(activated(20, true)));
    let active: Vec<bool> = ipc.workspaces().iter().map(|w| w.active).collect();
    assert_eq!(active, vec![false, false, true]);
}

#[test]
fn niri_layout_is_shown_in_upper_case() {
    let mut ipc = niri::NiriIpc::new("/run/niri.sock");
    assert!(ipc.apply(niri::Event::KeyboardLayoutsChanged {
        data: niri::KeyboardLayoutsChangedEvent {
            keyboard_layouts: niri::KeyboardLayouts {
                names: vec!["us".to_string(), "straße".to_string()],
                current_idx: 0,
            },
        },
    }));
    assert_eq!(ipc.layout(), "US");
    let switched = |idx| niri::Event::KeyboardLayoutSwitched {
        data: niri::KeyboardLayoutSwitchedEvent { idx },
    };
    assert!(ipc.apply(switched(1)));
    assert_eq!(ipc.layout(), "STRASSE");
    assert!(ipc.apply(switched(2)));
    assert_eq!(ipc.layout(), "");
    assert!(!ipc.apply(niri::Event::Other));
}

#[test]
fn niri_is_asked_through_its_socket() {
    let (bar, show_empty) = niri::create_bar_provider(Some("/run/niri.sock"));
    assert!(show_empty);
    assert_eq!(
        bar.switch_workspace(5),
        Effect::Niri {
            socket_path: "/run/niri.sock".to_string(),
            action: niri::Action::FocusWorkspace { reference: niri::WorkspaceReference::Id(5) },
        }
    );
    let (bar, show_empty) = niri::create_bar_provider(None);
    assert!(show_empty);
    assert_eq!(bar.switch_workspace(5), Effect::Nothing);
}

fn niri_command(line: &str) -> Vec<String> {
    match niri::create_launcher_provider(Some("/s")).spawn(line) {
        Effect::Niri { action: niri::Action::Spawn { command }, .. } => command,
        other => panic!("{:?}", other),
    }
}

#[test]
fn niri_commands_are_split_into_words() {
    assert_eq!(niri_command("foot -e 'top of the'"), vec!["foot", "-e", "top of the"]);
    assert_eq!(niri_command("a \"b\\\"c\" # comment"), vec!["a", "b\"c"]);
    assert_eq!(niri_command("it's  broken"), vec!["it's", "broken"]);
    assert!(niri_command("").is_empty());
}

#[test]
fn niri_refusals_are_reported() {
    assert_eq!(
        niri::check_reply(Ok(niri::Response::Handled)),
        Ok(niri::Response::Handled)
    );
    assert_eq!(
        niri::check_reply(Err("no such workspace".to_string())),
        Err("niri error: no such workspace".to_string())
    );
}
