use ordinary::launcher::apps::{arrange_entries, parse_desktop_entry, AppEntry};
use ordinary::launcher::entry::{
    application_directories, is_desktop_file, read_desktop_entry, strip_field_codes,
};
use ordinary::launcher::instance::{next_instance, socket_path, Attempt, Instance};
use ordinary::launcher::pins::{
    config_directory, config_path, load_pinned_apps, save_pinned_apps, temporary_path,
    LauncherConfig,
};
use ordinary::launcher::state::{build_filtered, Launcher, Query, Selection};
use ordinary::launcher::view::{cell_colors, PinnedCell};
use ordinary::shell::{command_line, split_or_words};
use ordinary::theme::Role;

fn app(name: &str) -> AppEntry {
    AppEntry {
        name: name.to_string(),
        name_lowercase: name.to_lowercase(),
        command: format!("run-{}", name),
        icon: None,
    }
}

fn apps(n: usize) -> Vec<AppEntry> {
    (0..n).map(|i| app(&format!("App{:02}", i))).collect()
}

fn config(names: &[Option<&str>]) -> LauncherConfig {
    LauncherConfig { pinned: names.iter().map(|n| n.map(|s| s.to_string())).collect() }
}

#[test]
fn field_codes_are_stripped() {
    assert_eq!(strip_field_codes("firefox %u"), "firefox");
    assert_eq!(strip_field_codes("app %U --flag %f %F %d %D %n %N %i %c %k %v %m"), "app --flag");
    assert_eq!(strip_field_codes("printf %% %x"), "printf '%%' '%x'");
    assert_eq!(strip_field_codes("env 'A B=1' cmd"), "env 'A B=1' cmd");
    assert_eq!(strip_field_codes("broken 'quote %u"), "broken ''\\''quote'");
    assert_eq!(strip_field_codes(""), "");
}

#[test]
fn stripping_twice_is_stripping_once() {
    for line in ["a %u b", "x 'y z' \"\" %F", "it's %u", "tab\tnew\\\nline '%u'"] {
        let once = strip_field_codes(line);
        assert_eq!(strip_field_codes(&once), once);
    }
}

#[test]
fn command_lines_split_like_a_shell() {
    assert_eq!(command_line("a 'b c' d\\ e"), vec!["a", "b c", "d e"]);
    assert_eq!(command_line("a 'b"), vec!["a", "'b"]);
    assert_eq!(
        split_or_words(Some(vec!["x y".to_string()]), "ignored here"),
        vec!["x y"]
    );
    assert_eq!(split_or_words(None, "one  two\tthree"), vec!["one", "two", "three"]);
}

#[test]
fn desktop_entry_is_read() {
    let text = "[Desktop Entry]\nType=Application\nName=Files\nName=Second\nExec=first\nExec=files %U\nIcon=folder\nIcon=other\n";
    let entry = read_desktop_entry(text).unwrap();
    assert_eq!(entry.name, "Files");
    assert_eq!(entry.command, "files %U");
    assert_eq!(entry.icon.as_deref(), Some("folder"));
}

#[test]
fn other_sections_are_ignored() {
    let text = "Name=Stray\n[Desktop Action new]\nName=New\nExec=new\n  [Desktop Entry]  \r\n Type=Application \r\nName=App\r\nExec=app\r\n[Extra]\nNoDisplay=true\nExec=extra\n";
    let entry = read_desktop_entry(text).unwrap();
    assert_eq!(entry.name, "App");
    assert_eq!(entry.command, "app");
    assert!(entry.icon.is_none());
}

#[test]
fn entries_that_are_not_listed() {
    assert!(read_desktop_entry("[Desktop Entry]\nType=Application\nName=A\nExec=a\nNoDisplay=true").is_none());
    assert!(read_desktop_entry("[Desktop Entry]\nType=Link\nName=A\nExec=a").is_none());
    assert!(read_desktop_entry("[Desktop Entry]\nType=Application\nType=Link\nName=A\nExec=a").is_none());
    assert!(read_desktop_entry("[Desktop Entry]\nName=A\nExec=a").is_none());
    assert!(read_desktop_entry("[Desktop Entry]\nType=Application\nExec=a").is_none());
    assert!(read_desktop_entry("[Desktop Entry]\nType=Application\nName=A").is_none());
    assert!(read_desktop_entry("").is_none());
}

#[test]
fn application_gets_its_icon_and_command() {
    let text = "[Desktop Entry]\nType=Application\nName=Ärger\nExec=run %f now\nIcon=thing\n";
    let wanted = "/usr/share/icons/Adwaita/32x32/apps/thing.svg";
    let found = parse_desktop_entry(text, |path| path == wanted).unwrap();
    assert_eq!(found.name, "Ärger");
    assert_eq!(found.name_lowercase, "ärger");
    assert_eq!(found.command, "run now");
    assert_eq!(found.icon.as_deref(), Some(wanted));
    assert!(parse_desktop_entry(text, |_| false).unwrap().icon.is_none());
    assert!(parse_desktop_entry("", |_| true).is_none());
}

#[test]
fn entries_are_sorted_and_listed_once() {
    let mut second = app("beta");
    second.command = "other".to_string();
    let list = arrange_entries(&vec![app("beta"), app("Alpha"), second, app("Gamma"), app("alpha")]);
    let names: Vec<&str> = list.iter().map(|a| a.name.as_str()).collect();
    assert_eq!(names, vec!["Alpha", "alpha", "beta", "Gamma"]);
    assert_eq!(list[2].command, "run-beta");
    assert!(arrange_entries(&vec![]).is_empty());
}

#[test]
fn names_that_differ_in_case_can_part_equal_ones() {
    let list = arrange_entries(&vec![app("A"), app("a"), app("A")]);
    let names: Vec<&str> = list.iter().map(|a| a.name.as_str()).collect();
    assert_eq!(names, vec!["A", "a", "A"]);
}

#[test]
fn desktop_files_are_told_by_their_extension() {
    assert!(is_desktop_file("firefox.desktop"));
    assert!(is_desktop_file("org.gnome.Files.desktop"));
    assert!(!is_desktop_file(".desktop"));
    assert!(!is_desktop_file("desktop"));
    assert!(!is_desktop_file("a.desktop.bak"));
}

#[test]
fn directories_and_files() {
    assert_eq!(
        application_directories(Some("/home/me")),
        vec!["/usr/share/applications", "/home/me/.local/share/applications"]
    );
    assert_eq!(application_directories(None)[1], "/.local/share/applications");
    assert_eq!(config_path(Some("/c"), Some("/h")), "/c/ordinary/launcher.json");
    assert_eq!(config_path(None, Some("/h")), "/h/.config/ordinary/launcher.json");
    assert_eq!(config_path(None, None), "/.config/ordinary/launcher.json");
    assert_eq!(config_directory(Some("/c/"), None), "/c/ordinary");
    assert_eq!(temporary_path("/c/ordinary", 42), "/c/ordinary/.launcher.42.tmp");
    assert_eq!(socket_path(Some("/run/user/1")), "/run/user/1/ordinary-launcher.sock");
    assert_eq!(socket_path(None), "/tmp/ordinary-launcher.sock");
}

#[test]
fn pins_survive_a_run() {
    let list = apps(5);
    let mut pinned = [None; 8];
    pinned[1] = Some(4);
    pinned[3] = Some(0);
    let saved = save_pinned_apps(&list, &pinned);
    assert_eq!(
        saved.pinned,
        vec![None, Some("App04".to_string()), None, Some("App00".to_string())]
    );
    assert_eq!(load_pinned_apps(&list, &saved), pinned);
    assert!(save_pinned_apps(&list, &[None; 8]).pinned.is_empty());
}

#[test]
fn unknown_and_surplus_pins_are_dropped() {
    let list = apps(12);
    let names: Vec<String> = (0..10).map(|i| format!("App{:02}", i)).collect();
    let mut slots: Vec<Option<&str>> = names.iter().map(|n| Some(n.as_str())).collect();
    slots[2] = Some("gone");
    let pinned = load_pinned_apps(&list, &config(&slots));
    assert_eq!(pinned[2], None);
    assert_eq!(pinned[7], Some(7));
}

#[test]
fn launcher_starts_on_the_first_pin() {
    let launcher = Launcher::new(apps(3), &config(&[None, Some("App01")]));
    assert_eq!(launcher.selected(), Selection::Pinned(1));
    assert_eq!(*launcher.filtered(), vec![0, 2]);
    assert!(launcher.has_pinned());
    let launcher = Launcher::new(apps(3), &LauncherConfig::default());
    assert_eq!(launcher.selected(), Selection::Grid(0));
    assert!(!launcher.has_pinned());
}

#[test]
fn filtering_ignores_case() {
    let mut launcher = Launcher::new(vec![app("Firefox"), app("Files"), app("Foot")], &config(&[Some("Foot")]));
    let outcome = launcher.filter(&Query::new("FI"));
    assert!(outcome.notify);
    assert_eq!(outcome.scroll_to, Some(0));
    assert_eq!(*launcher.filtered(), vec![0, 1]);
    assert_eq!(launcher.selected(), Selection::Grid(0));
    let outcome = launcher.filter(&Query::new("foot"));
    assert!(outcome.notify);
    assert!(launcher.filtered().is_empty());
    let outcome = launcher.filter(&Query::new(""));
    assert_eq!(outcome.scroll_to, None);
    assert_eq!(launcher.selected(), Selection::Pinned(0));
}

#[test]
fn queries_are_in_lower_case() {
    assert_eq!(Query::new("ÄB c").text, "äb c");
    assert_eq!(Query::new("").text, "");
    let list = vec![app("Alpha"), app("Beta"), app("Gamma")];
    assert_eq!(build_filtered(&list, &[None; 8], "a"), vec![0, 1, 2]);
    assert_eq!(build_filtered(&list, &[Some(0); 8], "et"), vec![1]);
    assert_eq!(build_filtered(&list, &[None; 8], "A"), Vec::<usize>::new());
}

#[test]
fn moving_through_the_grid() {
    let mut launcher = Launcher::new(apps(20), &LauncherConfig::default());
    assert_eq!(launcher.move_down().scroll_to, Some(1));
    assert_eq!(launcher.selected(), Selection::Grid(8));
    launcher.move_right();
    assert_eq!(launcher.selected(), Selection::Grid(9));
    launcher.move_down();
    assert_eq!(launcher.selected(), Selection::Grid(17));
    let outcome = launcher.move_down();
    assert!(outcome.notify && outcome.scroll_to.is_none());
    assert_eq!(launcher.selected(), Selection::Grid(17));
    assert_eq!(launcher.move_up().scroll_to, Some(1));
    assert_eq!(launcher.selected(), Selection::Grid(9));
    launcher.move_left();
    launcher.move_up();
    assert_eq!(launcher.selected(), Selection::Grid(0));
    launcher.move_up();
    launcher.move_left();
    assert_eq!(launcher.selected(), Selection::Grid(0));
    launcher.hover(Selection::Grid(19));
    launcher.move_right();
    assert_eq!(launcher.selected(), Selection::Grid(19));
}

#[test]
fn moving_between_row_and_grid() {
    let names = [None, Some("App01"), None, None, Some("App04")];
    let mut launcher = Launcher::new(apps(12), &config(&names));
    assert_eq!(launcher.selected(), Selection::Pinned(1));
    launcher.move_left();
    assert_eq!(launcher.selected(), Selection::Pinned(1));
    launcher.move_right();
    assert_eq!(launcher.selected(), Selection::Pinned(4));
    launcher.move_down();
    assert_eq!(launcher.selected(), Selection::Grid(4));
    launcher.move_up();
    assert_eq!(launcher.selected(), Selection::Pinned(4));
    assert_eq!(launcher.move_right().scroll_to, Some(0));
    assert_eq!(launcher.selected(), Selection::Grid(0));
    launcher.move_up();
    assert_eq!(launcher.selected(), Selection::Pinned(1));
    launcher.hover(Selection::Grid(0));
    launcher.move_left();
    assert_eq!(launcher.selected(), Selection::Pinned(4));
    launcher.move_up();
    assert_eq!(launcher.selected(), Selection::Pinned(4));
}

#[test]
fn launching_starts_the_selected_application() {
    let mut launcher = Launcher::new(apps(3), &config(&[Some("App02")]));
    let outcome = launcher.launch();
    assert_eq!(outcome.command.as_deref(), Some("run-App02"));
    assert!(outcome.quit);
    launcher.hover(Selection::Grid(1));
    assert_eq!(launcher.launch().command.as_deref(), Some("run-App01"));
    launcher.hover(Selection::Grid(5));
    let outcome = launcher.launch();
    assert!(outcome.command.is_none() && !outcome.quit);
    launcher.hover(Selection::Pinned(3));
    assert!(launcher.launch().command.is_none());
    assert!(launcher.dismiss().quit);
    assert_eq!(launcher.click(0).command.as_deref(), Some("run-App00"));
}

#[test]
fn slots_are_selected_then_started() {
    let mut launcher = Launcher::new(apps(3), &config(&[Some("App00"), Some("App02")]));
    let outcome = launcher.activate_pinned(1);
    assert!(outcome.notify && outcome.command.is_none());
    let outcome = launcher.activate_pinned(1);
    assert_eq!(outcome.command.as_deref(), Some("run-App02"));
    assert!(outcome.quit);
    let outcome = launcher.activate_pinned(5);
    assert!(!outcome.notify && !outcome.quit);
}

#[test]
fn pinning_and_unpinning() {
    let mut launcher = Launcher::new(apps(4), &config(&[Some("App03")]));
    launcher.hover(Selection::Grid(1));
    let outcome = launcher.pin(&Query::new(""));
    assert_eq!(
        outcome.save.unwrap().pinned,
        vec![Some("App03".to_string()), Some("App01".to_string())]
    );
    assert_eq!(launcher.selected(), Selection::Pinned(1));
    assert_eq!(*launcher.filtered(), vec![0, 2]);
    let outcome = launcher.unpin(&Query::new(""));
    assert_eq!(outcome.scroll_to, Some(0));
    assert_eq!(launcher.selected(), Selection::Grid(1));
    assert_eq!(*launcher.filtered(), vec![0, 1, 2]);
    assert!(launcher.unpin(&Query::new("")).save.is_none());
}

#[test]
fn unpinning_what_the_query_hides() {
    let mut launcher = Launcher::new(apps(3), &config(&[Some("App00"), Some("App01")]));
    launcher.filter(&Query::new("02"));
    launcher.hover(Selection::Pinned(0));
    launcher.unpin(&Query::new("02"));
    assert_eq!(launcher.selected(), Selection::Pinned(1));
    launcher.unpin(&Query::new("02"));
    assert_eq!(launcher.selected(), Selection::Grid(0));
    assert_eq!(*launcher.filtered(), vec![2]);
}

#[test]
fn full_row_takes_no_more() {
    let names: Vec<String> = (0..8).map(|i| format!("App{:02}", i)).collect();
    let slots: Vec<Option<&str>> = names.iter().map(|n| Some(n.as_str())).collect();
    let mut launcher = Launcher::new(apps(9), &config(&slots));
    launcher.hover(Selection::Grid(0));
    let outcome = launcher.pin(&Query::new(""));
    assert!(outcome.save.is_none() && !outcome.notify);
    assert_eq!(*launcher.filtered(), vec![8]);
}

#[test]
fn pins_move_sideways_and_back() {
    let mut launcher = Launcher::new(apps(3), &config(&[Some("App00"), None, Some("App02")]));
    assert!(launcher.move_pinned_left().save.is_none());
    assert!(launcher.move_pinned_right().notify);
    assert_eq!(launcher.pinned()[..3], [None, Some(0), Some(2)]);
    assert_eq!(launcher.selected(), Selection::Pinned(1));
    launcher.move_pinned_right();
    assert_eq!(launcher.pinned()[..3], [None, Some(2), Some(0)]);
    launcher.move_pinned_left();
    launcher.move_pinned_left();
    assert_eq!(launcher.pinned()[..3], [Some(0), None, Some(2)]);
    launcher.hover(Selection::Pinned(7));
    assert!(launcher.move_pinned_right().save.is_none());
    assert!(launcher.move_pinned_left().save.is_none());
}

#[test]
fn dropping_applications() {
    let mut launcher = Launcher::new(apps(4), &config(&[Some("App00"), Some("App01")]));
    let outcome = launcher.drop_on_slot(0, 3, &Query::new(""));
    assert!(outcome.save.is_some());
    assert_eq!(launcher.pinned()[..4], [None, Some(1), None, Some(0)]);
    launcher.drop_on_slot(2, 1, &Query::new(""));
    assert_eq!(launcher.pinned()[..4], [None, Some(2), None, Some(0)]);
    assert_eq!(*launcher.filtered(), vec![1, 3]);
    let outcome = launcher.drop_on_grid(0, &Query::new(""));
    assert_eq!(outcome.scroll_to, Some(0));
    assert_eq!(launcher.selected(), Selection::Grid(0));
    assert_eq!(*launcher.filtered(), vec![0, 1, 3]);
    assert!(launcher.drop_on_grid(0, &Query::new("")).save.is_none());
    assert!(launcher.reorder_pinned(3, 0).save.is_none());
    assert!(launcher.pin_app(2, 0, &Query::new("")).save.is_none());
    assert!(launcher.pin_app(3, 8, &Query::new("")).save.is_none());
}

#[test]
fn pointer_selects_once() {
    let mut launcher = Launcher::new(apps(2), &LauncherConfig::default());
    assert!(launcher.hover(Selection::Grid(1)).notify);
    assert!(!launcher.hover(Selection::Grid(1)).notify);
}

#[test]
fn rows_fill_all_columns() {
    let launcher = Launcher::new(apps(18), &config(&[Some("App17")]));
    let rows = launcher.grid_rows();
    assert_eq!(rows.len(), 3);
    assert_eq!(rows[0].cells.len(), 8);
    assert_eq!(rows[0].padding, 0);
    assert_eq!(rows[2].cells.len(), 1);
    assert_eq!(rows[2].padding, 7);
    let all: Vec<usize> = rows.iter().flat_map(|r| r.cells.iter().map(|c| c.app)).collect();
    assert_eq!(all, *launcher.filtered());
    assert_eq!(rows[2].cells[0].place, 16);
    let pinned = launcher.pinned_cells();
    assert_eq!(pinned.len(), 8);
    assert_eq!(pinned[0], PinnedCell { number: 1, app: Some(17), selected: true });
    assert_eq!(pinned[7], PinnedCell { number: 8, app: None, selected: false });
    assert!(launcher.empty_message().is_none());
    let empty = Launcher::new(apps(0), &LauncherConfig::default());
    assert!(empty.grid_rows().is_empty());
    assert_eq!(empty.empty_message(), Some("No applications found"));
}

#[test]
fn selected_cells_stand_out() {
    assert_eq!(cell_colors(true), (Role::Background, Some(Role::Accent)));
    assert_eq!(cell_colors(false), (Role::Foreground, None));
}

#[test]
fn second_launcher_ends() {
    let bound = next_instance(Instance::Listening, Attempt::Done);
    assert_eq!(bound, Instance::Running);
    let busy = next_instance(Instance::Listening, Attempt::InUse);
    assert_eq!(busy, Instance::Connecting);
    assert_eq!(next_instance(busy, Attempt::Done), Instance::Ended);
    let stale = next_instance(busy, Attempt::Failed);
    assert_eq!(stale, Instance::Retrying);
    assert_eq!(next_instance(stale, Attempt::Done), Instance::Running);
    assert_eq!(next_instance(stale, Attempt::InUse), Instance::Ended);
    assert_eq!(next_instance(Instance::Listening, Attempt::Failed), Instance::Ended);
}

#[test]
fn first_entry_of_a_name_stays() {
    let mut own = app("Tool");
    own.command = "own".to_string();
    let list = arrange_entries(&vec![app("Tool"), app("Alpha"), own]);
    let commands: Vec<&str> = list.iter().map(|a| a.command.as_str()).collect();
    assert_eq!(commands, vec!["run-Alpha", "run-Tool"]);
}

#[test]
fn left_undoes_right_in_the_row() {
    let mut launcher = Launcher::new(apps(9), &config(&[Some("App00"), None, Some("App02")]));
    for expected in [Selection::Pinned(0), Selection::Pinned(2)] {
        assert_eq!(launcher.selected(), expected);
        launcher.move_right();
        launcher.move_left();
        assert_eq!(launcher.selected(), expected);
        launcher.move_down();
        launcher.move_up();
        assert_eq!(launcher.selected(), expected);
        launcher.move_right();
    }
    assert_eq!(launcher.selected(), Selection::Grid(0));
    launcher.move_left();
    launcher.move_right();
    assert_eq!(launcher.selected(), Selection::Grid(0));
}
