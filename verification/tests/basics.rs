use ordinary::number::{decimal, hex, parse_i32, parse_u8};
use ordinary::order::{sort_by, stable_order};
use ordinary::text::{
    comes_before, contains, ends_with, first_part, is_white_space, join_path, lines, same,
    split_once, split_whitespace, starts_with, strip_prefix, trim,
};
use ordinary::theme::{color, icon_candidates, resolve_icon, Rgb, Role, Theme};

#[test]
fn text_matches_std() {
    let samples = [
        "", " ", "a", "a b", "  a  b  ", "x=y=z", "line\r\nnext\n", "\n\n", "last\r", "a\u{2003}b",
        "\u{85}x\u{a0}", "ümlaut ß", "tab\tend",
    ];
    for s in samples {
        assert_eq!(trim(s), s.trim());
        assert_eq!(lines(s), s.lines().collect::<Vec<_>>());
        assert_eq!(split_whitespace(s), s.split_whitespace().collect::<Vec<_>>());
        for p in ["", "a", "=", "\n", "ü", "line"] {
            assert_eq!(starts_with(s, p), s.starts_with(p));
            assert_eq!(ends_with(s, p), s.ends_with(p));
            assert_eq!(contains(s, p), s.contains(p));
            assert_eq!(strip_prefix(s, p).as_deref(), s.strip_prefix(p));
            if !p.is_empty() {
                let cut = split_once(s, p);
                let cut = cut.as_ref().map(|(a, b)| (a.as_str(), b.as_str()));
                assert_eq!(cut, s.split_once(p));
                assert_eq!(first_part(s, p), s.split(p).next().unwrap());
            }
        }
        for t in samples {
            assert_eq!(same(s, t), s == t);
            assert_eq!(comes_before(s, t), s < t);
        }
    }
    for c in '\0'..='\u{3100}' {
        assert_eq!(is_white_space(c), c.is_whitespace());
    }
}

#[test]
fn paths_join_like_std() {
    for base in ["", "/", "/a", "/a/", "a"] {
        for child in ["", "b", "/b", "b/c", ".x"] {
            let expected = std::path::PathBuf::from(base).join(child);
            assert_eq!(join_path(base, child), expected.to_str().unwrap());
        }
    }
}

#[test]
fn numbers_match_std() {
    for n in [0u64, 1, 9, 10, 15, 16, 255, 256, 1234567890, u64::MAX] {
        assert_eq!(decimal(n), n.to_string());
        assert_eq!(hex(n), format!("{:x}", n));
    }
    for s in [
        "", "0", "007", "255", "256", "+1", "-1", "-0", "++1", " 1", "1 ", "2147483647", "2147483648",
        "-2147483648", "-2147483649", "99999999999999999999", "+", "-", "1a",
    ] {
        assert_eq!(parse_u8(s), s.parse::<u8>().ok());
        assert_eq!(parse_i32(s), s.parse::<i32>().ok());
    }
}

#[test]
fn sorting_is_stable() {
    let keys = vec![3u64, 1, 2, 1, 3];
    assert_eq!(stable_order(&keys), vec![1, 3, 2, 0, 4]);
    assert_eq!(sort_by(&vec!['a', 'b', 'c', 'd', 'e'], &keys), vec!['b', 'd', 'c', 'a', 'e']);
    let names = vec!["b".to_string(), "a".to_string(), "ab".to_string()];
    assert_eq!(stable_order(&names), vec![1, 2, 0]);
}

#[test]
fn colours_of_the_theme() {
    assert_eq!(color(0x1e2f3a), Rgb { red: 0x1e, green: 0x2f, blue: 0x3a });
    assert_eq!(color(0xff000001), Rgb { red: 0, green: 0, blue: 1 });
    let theme = Theme::default();
    assert_eq!(theme.accent, color(0x89b4fa));
    assert_eq!(theme.role(Role::Danger), theme.danger);
    assert_eq!(theme.bar_height, 32);
    assert_eq!(theme.menu_maximum_width, 300);
}

#[test]
fn icon_files_in_order() {
    let files = icon_candidates("app", "/own", &["apps", "status"]);
    assert_eq!(files.len(), 12 + 2 + 4 * 6 * 2 * 2 + 1);
    assert_eq!(files[0], "/own/48x48/apps/app.png");
    assert_eq!(files[1], "/own/48x48/apps/app.svg");
    assert_eq!(files[12], "/own/app.png");
    assert_eq!(files[14], "/usr/share/icons/hicolor/48x48/apps/app.png");
    assert_eq!(files[16], "/usr/share/icons/hicolor/48x48/status/app.png");
    assert_eq!(files.last().unwrap(), "/usr/share/pixmaps/app.png");
    let files = icon_candidates("/abs/x.png", "", &["apps"]);
    assert_eq!(files[0], "/abs/x.png");
    assert!(icon_candidates("", "/own", &["apps"]).is_empty());
}

#[test]
fn first_present_icon_is_taken() {
    let there = ["/usr/share/icons/Papirus/64x64/apps/x.svg", "/usr/share/pixmaps/x.png"];
    let found = resolve_icon("x", "", &["apps"], |p| there.contains(&p));
    assert_eq!(found.as_deref(), Some(there[0]));
    assert_eq!(resolve_icon("/abs", "", &["apps"], |p| p == "/abs").as_deref(), Some("/abs"));
    assert_eq!(resolve_icon("x", "", &["apps"], |_| false), None);
    assert_eq!(resolve_icon("", "/own", &["apps"], |_| true), None);
}
