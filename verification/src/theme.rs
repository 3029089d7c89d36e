//! Colours, sizes and icons.

use vstd::prelude::*;

use crate::ipc::text_view;
use crate::text::{has_prefix, starts_with, views};

verus! {

// ---------------------------------------------------------------------------
// Colours and sizes
// ---------------------------------------------------------------------------

/// An opaque colour.
#[derive(Clone, Copy, Debug, PartialEq, Eq, Structural)]
pub struct Rgb {
    pub red: u8,
    pub green: u8,
    pub blue: u8,
}

/// The colour with a six-digit hexadecimal code: red in the highest of three bytes, blue in the
/// lowest. A higher byte does not count.
pub open spec fn colour(code: u32) -> Rgb {
    Rgb {
        red: (code / 0x10000 % 0x100) as u8,
        green: (code / 0x100 % 0x100) as u8,
        blue: (code % 0x100) as u8,
    }
}

/// The colour with a six-digit hexadecimal code.
pub fn color(hex: u32) -> (r: Rgb)
    ensures
        r == colour(hex),
{
    Rgb {
        red: (hex / 0x10000 % 0x100) as u8,
        green: (hex / 0x100 % 0x100) as u8,
        blue: (hex % 0x100) as u8,
    }
}

/// What a colour is used for.
#[derive(Clone, Copy, Debug, PartialEq, Eq, Structural)]
pub enum Role {
    Background,
    Foreground,
    Surface,
    Separator,
    Dimmed,
    Accent,
    Selection,
    Danger,
    Warning,
    Good,
}

/// The code of the colour for a use.
pub open spec fn role_code(role: Role) -> u32 {
    match role {
        Role::Background => 0x1e1e2e,
        Role::Foreground => 0xcdd6f4,
        Role::Surface => 0x313244,
        Role::Separator => 0x313244,
        Role::Dimmed => 0x6c7086,
        Role::Accent => 0x89b4fa,
        Role::Selection => 0x45475a,
        Role::Danger => 0xf38ba8,
        Role::Warning => 0xf9e2af,
        Role::Good => 0xa6e3a1,
    }
}

fn code_of(role: Role) -> (r: u32)
    ensures
        r == role_code(role),
{
    match role {
        Role::Background => 0x1e1e2e,
        Role::Foreground => 0xcdd6f4,
        Role::Surface => 0x313244,
        Role::Separator => 0x313244,
        Role::Dimmed => 0x6c7086,
        Role::Accent => 0x89b4fa,
        Role::Selection => 0x45475a,
        Role::Danger => 0xf38ba8,
        Role::Warning => 0xf9e2af,
        Role::Good => 0xa6e3a1,
    }
}

/// The colours of the shell, and its sizes in pixels.
#[derive(Clone, Copy, Debug, PartialEq, Eq, Structural)]
pub struct Theme {
    pub background: Rgb,
    pub foreground: Rgb,
    pub surface: Rgb,
    pub separator: Rgb,
    pub dimmed: Rgb,
    pub accent: Rgb,
    pub selection: Rgb,
    pub danger: Rgb,
    pub warning: Rgb,
    pub good: Rgb,
    pub text_m: u32,
    pub button_size_m: u32,
    pub button_radius_m: u32,
    pub button_padding_m: u32,
    pub button_gap_m: u32,
    pub separator_thickness: u32,
    pub radius_small: u32,
    pub radius_medium: u32,
    pub spacing_tiny: u32,
    pub spacing_extra_small: u32,
    pub spacing_small: u32,
    pub spacing_medium: u32,
    pub text_extra_small: u32,
    pub text_small: u32,
    pub text_medium: u32,
    pub bar_height: u32,
    pub tray_icon_image_size: u32,
    pub launcher_height: u32,
    pub app_icon_size: u32,
    pub input_line_height: u32,
    pub cursor_width: u32,
    pub menu_minimum_width: u32,
    pub menu_maximum_width: u32,
}

/// The theme that the shell is drawn in.
pub open spec fn standard_theme() -> Theme {
    Theme {
        background: colour(role_code(Role::Background)),
        foreground: colour(role_code(Role::Foreground)),
        surface: colour(role_code(Role::Surface)),
        separator: colour(role_code(Role::Separator)),
        dimmed: colour(role_code(Role::Dimmed)),
        accent: colour(role_code(Role::Accent)),
        selection: colour(role_code(Role::Selection)),
        danger: colour(role_code(Role::Danger)),
        warning: colour(role_code(Role::Warning)),
        good: colour(role_code(Role::Good)),
        text_m: 16,
        button_size_m: 24,
        button_radius_m: 4,
        button_padding_m: 4,
        button_gap_m: 4,
        separator_thickness: 1,
        radius_small: 4,
        radius_medium: 8,
        spacing_tiny: 2,
        spacing_extra_small: 4,
        spacing_small: 8,
        spacing_medium: 12,
        text_extra_small: 11,
        text_small: 12,
        text_medium: 14,
        bar_height: 32,
        tray_icon_image_size: 16,
        launcher_height: 400,
        app_icon_size: 32,
        input_line_height: 24,
        cursor_width: 2,
        menu_minimum_width: 200,
        menu_maximum_width: 300,
    }
}

impl Default for Theme {
    fn default() -> (r: Self)
        ensures
            r == standard_theme(),
    {
        Theme {
            background: color(code_of(Role::Background)),
            foreground: color(code_of(Role::Foreground)),
            surface: color(code_of(Role::Surface)),
            separator: color(code_of(Role::Separator)),
            dimmed: color(code_of(Role::Dimmed)),
            accent: color(code_of(Role::Accent)),
            selection: color(code_of(Role::Selection)),
            danger: color(code_of(Role::Danger)),
            warning: color(code_of(Role::Warning)),
            good: color(code_of(Role::Good)),
            text_m: 16,
            button_size_m: 24,
            button_radius_m: 4,
            button_padding_m: 4,
            button_gap_m: 4,
            separator_thickness: 1,
            radius_small: 4,
            radius_medium: 8,
            spacing_tiny: 2,
            spacing_extra_small: 4,
            spacing_small: 8,
            spacing_medium: 12,
            text_extra_small: 11,
            text_small: 12,
            text_medium: 14,
            bar_height: 32,
            tray_icon_image_size: 16,
            launcher_height: 400,
            app_icon_size: 32,
            input_line_height: 24,
            cursor_width: 2,
            menu_minimum_width: 200,
            menu_maximum_width: 300,
        }
    }
}

impl Theme {
    /// The colour of this theme for a use.
    pub open spec fn of_role(self, role: Role) -> Rgb {
        match role {
            Role::Background => self.background,
            Role::Foreground => self.foreground,
            Role::Surface => self.surface,
            Role::Separator => self.separator,
            Role::Dimmed => self.dimmed,
            Role::Accent => self.accent,
            Role::Selection => self.selection,
            Role::Danger => self.danger,
            Role::Warning => self.warning,
            Role::Good => self.good,
        }
    }

    /// The colour of this theme for a use.
    pub fn role(&self, role: Role) -> (r: Rgb)
        ensures
            r == self.of_role(role),
    {
        match role {
            Role::Background => self.background,
            Role::Foreground => self.foreground,
            Role::Surface => self.surface,
            Role::Separator => self.separator,
            Role::Dimmed => self.dimmed,
            Role::Accent => self.accent,
            Role::Selection => self.selection,
            Role::Danger => self.danger,
            Role::Warning => self.warning,
            Role::Good => self.good,
        }
    }
}

// ---------------------------------------------------------------------------
// Icons
// ---------------------------------------------------------------------------

/// The icon themes that are searched, in order.
pub open spec fn icon_themes() -> Seq<Seq<char>> {
    seq!["hicolor"@, "Adwaita"@, "Papirus"@, "Papirus-Dark"@]
}

/// The icon sizes that are searched, in order.
pub open spec fn icon_sizes() -> Seq<Seq<char>> {
    seq!["48x48"@, "32x32"@, "scalable"@, "64x64"@, "128x128"@, "256x256"@]
}

/// The file types that are searched, in order.
pub open spec fn icon_extensions() -> Seq<Seq<char>> {
    seq!["png"@, "svg"@]
}

/// What `f` gives for each item of a list, in order.
pub open spec fn each(
    list: Seq<Seq<char>>,
    f: spec_fn(Seq<char>) -> Seq<Seq<char>>,
) -> Seq<Seq<char>>
    decreases list.len(),
{
    if list.len() == 0 {
        Seq::empty()
    } else {
        each(list.drop_last(), f) + f(list.last())
    }
}

/// A file without extension, in each of the types.
pub open spec fn typed_files(stem: Seq<char>) -> Seq<Seq<char>> {
    each(icon_extensions(), |e: Seq<char>| seq![stem + "."@ + e])
}

/// Where an icon theme of one's own may hold an icon: below each size, then at its top.
pub open spec fn custom_files(dir: Seq<char>, name: Seq<char>) -> Seq<Seq<char>> {
    each(icon_sizes(), |s: Seq<char>| typed_files(dir + "/"@ + s + "/apps/"@ + name)) + typed_files(
        dir + "/"@ + name,
    )
}

/// Where a size of an icon theme may hold an icon.
pub open spec fn size_files(
    dir: Seq<char>,
    categories: Seq<Seq<char>>,
    name: Seq<char>,
) -> Seq<Seq<char>> {
    each(categories, |c: Seq<char>| typed_files(dir + "/"@ + c + "/"@ + name))
}

/// Where an icon theme may hold an icon.
pub open spec fn theme_files(
    dir: Seq<char>,
    categories: Seq<Seq<char>>,
    name: Seq<char>,
) -> Seq<Seq<char>> {
    each(icon_sizes(), |s: Seq<char>| size_files(dir + "/"@ + s, categories, name))
}

/// Where the installed icon themes may hold an icon.
pub open spec fn installed_files(categories: Seq<Seq<char>>, name: Seq<char>) -> Seq<Seq<char>> {
    each(
        icon_themes(),
        |t: Seq<char>| theme_files("/usr/share/icons/"@ + t, categories, name),
    )
}

/// The files that may be an icon, in the order in which they are tried: a name that is an absolute
/// path itself, the icon theme of one's own where there is one, the installed themes, and the
/// pictures outside of any theme. An empty name stands for no icon.
pub open spec fn icon_files(
    name: Seq<char>,
    custom: Seq<char>,
    categories: Seq<Seq<char>>,
) -> Seq<Seq<char>> {
    if name.len() == 0 {
        Seq::empty()
    } else {
        (if has_prefix(name, "/"@) {
            seq![name]
        } else {
            Seq::empty()
        }) + (if custom.len() > 0 {
            custom_files(custom, name)
        } else {
            Seq::empty()
        }) + installed_files(categories, name) + seq!["/usr/share/pixmaps/"@ + name + ".png"@]
    }
}

/// The characters of each string.
pub open spec fn str_views(v: Seq<&str>) -> Seq<Seq<char>> {
    Seq::new(v.len(), |i: int| v[i]@)
}

/// What `f` gives for the first `n + 1` items is what it gives for the first `n` and the next one.
proof fn lemma_each_step(list: Seq<Seq<char>>, f: spec_fn(Seq<char>) -> Seq<Seq<char>>, n: int)
    requires
        0 <= n < list.len(),
    ensures
        each(list.take(n + 1), f) == each(list.take(n), f) + f(list[n]),
{
    assert(list.take(n + 1).drop_last() =~= list.take(n));
    assert(list.take(n + 1).last() == list[n]);
}

fn themes() -> (r: [&'static str; 4])
    ensures
        str_views(r@) == icon_themes(),
{
    let r = ["hicolor", "Adwaita", "Papirus", "Papirus-Dark"];
    proof {
        assert(str_views(r@) =~= icon_themes());
    }
    r
}

fn sizes() -> (r: [&'static str; 6])
    ensures
        str_views(r@) == icon_sizes(),
{
    let r = ["48x48", "32x32", "scalable", "64x64", "128x128", "256x256"];
    proof {
        assert(str_views(r@) =~= icon_sizes());
    }
    r
}

fn extensions() -> (r: [&'static str; 2])
    ensures
        str_views(r@) == icon_extensions(),
{
    let r = ["png", "svg"];
    proof {
        assert(str_views(r@) =~= icon_extensions());
    }
    r
}

fn push_typed(out: &mut Vec<String>, stem: &str)
    ensures
        views(final(out)@) == views(old(out)@) + typed_files(stem@),
{
    let list = extensions();
    let ghost all = icon_extensions();
    let ghost f = |e: Seq<char>| seq![stem@ + "."@ + e];
    let ghost start = views(out@);
    let mut i: usize = 0;
    proof {
        assert(all.take(0) =~= Seq::empty());
        assert(start + each(all.take(0), f) =~= start);
    }
    while i < list.len()
        invariant
            i <= list@.len(),
            all == str_views(list@),
            f == (|e: Seq<char>| seq![stem@ + "."@ + e]),
            views(out@) == start + each(all.take(i as int), f),
        decreases list@.len() - i,
    {
        let mut file = stem.to_owned();
        file.append(".");
        file.append(list[i]);
        let ghost before = views(out@);
        out.push(file);
        proof {
            lemma_each_step(all, f, i as int);
            assert(views(out@) =~= before.push(file@));
            assert(views(out@) =~= start + each(all.take(i + 1), f));
        }
        i += 1;
    }
    proof {
        assert(all.take(i as int) =~= all);
    }
}

fn push_custom(out: &mut Vec<String>, dir: &str, name: &str)
    ensures
        views(final(out)@) == views(old(out)@) + custom_files(dir@, name@),
{
    let list = sizes();
    let ghost all = icon_sizes();
    let ghost f = |s: Seq<char>| typed_files(dir@ + "/"@ + s + "/apps/"@ + name@);
    let ghost start = views(out@);
    let mut i: usize = 0;
    proof {
        assert(all.take(0) =~= Seq::empty());
        assert(start + each(all.take(0), f) =~= start);
    }
    while i < list.len()
        invariant
            i <= list@.len(),
            all == str_views(list@),
            f == (|s: Seq<char>| typed_files(dir@ + "/"@ + s + "/apps/"@ + name@)),
            views(out@) == start + each(all.take(i as int), f),
        decreases list@.len() - i,
    {
        let mut stem = dir.to_owned();
        stem.append("/");
        stem.append(list[i]);
        stem.append("/apps/");
        stem.append(name);
        push_typed(out, stem.as_str());
        proof {
            lemma_each_step(all, f, i as int);
            assert(views(out@) =~= start + each(all.take(i + 1), f));
        }
        i += 1;
    }
    let mut stem = dir.to_owned();
    stem.append("/");
    stem.append(name);
    push_typed(out, stem.as_str());
    proof {
        assert(all.take(i as int) =~= all);
        assert(views(out@) =~= start + custom_files(dir@, name@));
    }
}

fn push_size(out: &mut Vec<String>, dir: &str, categories: &[&str], name: &str)
    ensures
        views(final(out)@) == views(old(out)@) + size_files(dir@, str_views(categories@), name@),
{
    let ghost all = str_views(categories@);
    let ghost f = |c: Seq<char>| typed_files(dir@ + "/"@ + c + "/"@ + name@);
    let ghost start = views(out@);
    let mut i: usize = 0;
    proof {
        assert(all.take(0) =~= Seq::empty());
        assert(start + each(all.take(0), f) =~= start);
    }
    while i < categories.len()
        invariant
            i <= categories@.len(),
            all == str_views(categories@),
            f == (|c: Seq<char>| typed_files(dir@ + "/"@ + c + "/"@ + name@)),
            views(out@) == start + each(all.take(i as int), f),
        decreases categories@.len() - i,
    {
        let mut stem = dir.to_owned();
        stem.append("/");
        stem.append(categories[i]);
        stem.append("/");
        stem.append(name);
        push_typed(out, stem.as_str());
        proof {
            lemma_each_step(all, f, i as int);
            assert(views(out@) =~= start + each(all.take(i + 1), f));
        }
        i += 1;
    }
    proof {
        assert(all.take(i as int) =~= all);
    }
}

fn push_theme(out: &mut Vec<String>, dir: &str, categories: &[&str], name: &str)
    ensures
        views(final(out)@) == views(old(out)@) + theme_files(dir@, str_views(categories@), name@),
{
    let list = sizes();
    let ghost all = icon_sizes();
    let ghost cats = str_views(categories@);
    let ghost f = |s: Seq<char>| size_files(dir@ + "/"@ + s, cats, name@);
    let ghost start = views(out@);
    let mut i: usize = 0;
    proof {
        assert(all.take(0) =~= Seq::empty());
        assert(start + each(all.take(0), f) =~= start);
    }
    while i < list.len()
        invariant
            i <= list@.len(),
            all == str_views(list@),
            cats == str_views(categories@),
            f == (|s: Seq<char>| size_files(dir@ + "/"@ + s, cats, name@)),
            views(out@) == start + each(all.take(i as int), f),
        decreases list@.len() - i,
    {
        let mut sub = dir.to_owned();
        sub.append("/");
        sub.append(list[i]);
        push_size(out, sub.as_str(), categories, name);
        proof {
            lemma_each_step(all, f, i as int);
            assert(views(out@) =~= start + each(all.take(i + 1), f));
        }
        i += 1;
    }
    proof {
        assert(all.take(i as int) =~= all);
    }
}

fn push_installed(out: &mut Vec<String>, categories: &[&str], name: &str)
    ensures
        views(final(out)@) == views(old(out)@) + installed_files(str_views(categories@), name@),
{
    let list = themes();
    let ghost all = icon_themes();
    let ghost cats = str_views(categories@);
    let ghost f = |t: Seq<char>| theme_files("/usr/share/icons/"@ + t, cats, name@);
    let ghost start = views(out@);
    let mut i: usize = 0;
    proof {
        assert(all.take(0) =~= Seq::empty());
        assert(start + each(all.take(0), f) =~= start);
    }
    while i < list.len()
        invariant
            i <= list@.len(),
            all == str_views(list@),
            cats == str_views(categories@),
            f == (|t: Seq<char>| theme_files("/usr/share/icons/"@ + t, cats, name@)),
            views(out@) == start + each(all.take(i as int), f),
        decreases list@.len() - i,
    {
        let mut dir = "/usr/share/icons/".to_owned();
        dir.append(list[i]);
        push_theme(out, dir.as_str(), categories, name);
        proof {
            lemma_each_step(all, f, i as int);
            assert(views(out@) =~= start + each(all.take(i + 1), f));
        }
        i += 1;
    }
    proof {
        assert(all.take(i as int) =~= all);
    }
}

/// The files that may be an icon, in the order in which they are tried.
pub fn icon_candidates(name: &str, custom_theme_path: &str, categories: &[&str]) -> (r: Vec<String>)
    ensures
        views(r@) == icon_files(name@, custom_theme_path@, str_views(categories@)),
{
    let mut out: Vec<String> = Vec::new();
    if name.is_empty() {
        proof {
            assert(views(out@) =~= Seq::empty());
        }
        return out;
    }
    proof {
        assert(views(out@) =~= Seq::empty());
    }
    let ghost own = if has_prefix(name@, "/"@) {
        seq![name@]
    } else {
        Seq::empty()
    };
    if starts_with(name, "/") {
        out.push(name.to_owned());
    }
    proof {
        assert(views(out@) =~= own);
    }
    let ghost custom = if custom_theme_path@.len() > 0 {
        custom_files(custom_theme_path@, name@)
    } else {
        Seq::empty()
    };
    if !custom_theme_path.is_empty() {
        push_custom(&mut out, custom_theme_path, name);
    }
    proof {
        assert(views(out@) =~= own + custom);
    }
    push_installed(&mut out, categories, name);
    let mut picture = "/usr/share/pixmaps/".to_owned();
    picture.append(name);
    picture.append(".png");
    let ghost before = views(out@);
    out.push(picture);
    proof {
        assert(views(out@) =~= before.push(picture@));
        assert(views(out@) =~= own + custom + installed_files(str_views(categories@), name@) + seq![
            "/usr/share/pixmaps/"@ + name@ + ".png"@,
        ]);
    }
    out
}

/// Whether `present`, asked about a path, may have given the answer.
pub open spec fn answered<F: Fn(&str) -> bool>(present: F, path: Seq<char>, answer: bool) -> bool {
    exists|p: &str| p@ == path && #[trigger] present.ensures((p,), answer)
}

/// Whether `r` is the first of the files of which `present` says that it is there, or `None` where it
/// says so of none.
pub open spec fn is_first_present<F: Fn(&str) -> bool>(
    present: F,
    files: Seq<Seq<char>>,
    r: Option<Seq<char>>,
) -> bool {
    match r {
        Some(path) => exists|k: int|
            0 <= k < files.len() && #[trigger] files[k] == path && answered(present, files[k], true)
                && forall|j: int| 0 <= j < k ==> answered(present, #[trigger] files[j], false),
        None => forall|j: int|
            0 <= j < files.len() ==> answered(present, #[trigger] files[j], false),
    }
}

/// The file of an icon: the first of the files that may be it of which `present` says that it is
/// there. The files of `custom_theme_path` come before those of the installed themes; `categories`
/// are the subdirectories that are searched in the latter.
pub fn resolve_icon<F: Fn(&str) -> bool>(
    name: &str,
    custom_theme_path: &str,
    categories: &[&str],
    present: F,
) -> (r: Option<String>)
    requires
        forall|p: &str| present.requires((p,)),
    ensures
        is_first_present(
            present,
            icon_files(name@, custom_theme_path@, str_views(categories@)),
            text_view(r),
        ),
{
    let candidates = icon_candidates(name, custom_theme_path, categories);
    let ghost files = views(candidates@);
    let mut i: usize = 0;
    while i < candidates.len()
        invariant
            i <= candidates@.len(),
            files == views(candidates@),
            files == icon_files(name@, custom_theme_path@, str_views(categories@)),
            forall|p: &str| present.requires((p,)),
            forall|j: int| 0 <= j < i ==> answered(present, #[trigger] files[j], false),
        decreases candidates@.len() - i,
    {
        let path = candidates[i].as_str();
        let found = present(path);
        proof {
            assert(files[i as int] == path@);
            assert(present.ensures((path,), found));
            assert(answered(present, files[i as int], found));
        }
        if found {
            return Some(candidates[i].clone());
        }
        i += 1;
    }
    None
}

/// The theme of one's own comes first: after a name that is a path itself its files are tried, all of
/// them before any installed file.
pub proof fn law_custom_theme_is_searched_first(
    name: Seq<char>,
    custom: Seq<char>,
    categories: Seq<Seq<char>>,
)
    requires
        name.len() > 0,
        custom.len() > 0,
    ensures
        ({
            let files = icon_files(name, custom, categories);
            let own = if has_prefix(name, "/"@) {
                1int
            } else {
                0int
            };
            let end = own + custom_files(custom, name).len();
            &&& own == 1 ==> files[0] == name
            &&& end <= files.len()
            &&& files.subrange(own, end) == custom_files(custom, name)
            &&& files.skip(end) == installed_files(categories, name).push(
                "/usr/share/pixmaps/"@ + name + ".png"@,
            )
        }),
{
    let files = icon_files(name, custom, categories);
    let own = if has_prefix(name, "/"@) {
        1int
    } else {
        0int
    };
    let end = own + custom_files(custom, name).len();
    assert(files.subrange(own, end) =~= custom_files(custom, name));
    assert(files.skip(end) =~= installed_files(categories, name).push(
        "/usr/share/pixmaps/"@ + name + ".png"@,
    ));
}

/// An empty name has no icon, whatever files there are.
pub proof fn law_empty_name_has_no_icon<F: Fn(&str) -> bool>(
    present: F,
    custom: Seq<char>,
    categories: Seq<Seq<char>>,
    r: Option<Seq<char>>,
)
    requires
        is_first_present(present, icon_files(Seq::empty(), custom, categories), r),
    ensures
        r is None,
{
}

/// A colour is made of three bytes of its code, and the code can be read back from it.
pub proof fn law_colours(code: u32)
    requires
        code <= 0xff_ffff,
    ensures
        0x1_0000 * colour(code).red + 0x100 * colour(code).green + colour(code).blue == code,
{
}

/// The colours of the shell.
pub proof fn law_codes_of_colours()
    ensures
        role_code(Role::Background) == 0x1e1e2e,
        role_code(Role::Foreground) == 0xcdd6f4,
        role_code(Role::Surface) == 0x313244,
        role_code(Role::Separator) == 0x313244,
        role_code(Role::Dimmed) == 0x6c7086,
        role_code(Role::Accent) == 0x89b4fa,
        role_code(Role::Selection) == 0x45475a,
        role_code(Role::Danger) == 0xf38ba8,
        role_code(Role::Warning) == 0xf9e2af,
        role_code(Role::Good) == 0xa6e3a1,
{
}

/// The theme has the colour of each use, and its sizes fit each other: what is drawn in the bar fits into
/// it, and texts, gaps and corners grow with their names.
pub proof fn law_theme(role: Role)
    ensures
        standard_theme().of_role(role) == colour(role_code(role)),
        ({
            let t = standard_theme();
            &&& t.bar_height == t.button_size_m + 2 * t.button_gap_m && t.bar_height == 32
            &&& t.button_size_m == 24 && t.button_padding_m == 4 && t.button_radius_m == 4
            &&& t.text_m == 16 && t.tray_icon_image_size == 16
            &&& t.spacing_tiny == 2 && t.spacing_extra_small == 4 && t.spacing_small == 8
                && t.spacing_medium == 12
            &&& t.text_extra_small == 11 && t.text_small == 12 && t.text_medium == 14
            &&& t.radius_small == 4 && t.radius_medium == 8 && t.separator_thickness == 1
            &&& t.launcher_height == 400 && t.app_icon_size == 32
            &&& t.input_line_height == 24 && t.cursor_width == 2
            &&& t.menu_minimum_width == 200 && t.menu_maximum_width == 300
        }),
{
}

proof fn lemma_each_index(
    list: Seq<Seq<char>>,
    f: spec_fn(Seq<char>) -> Seq<Seq<char>>,
    m: int,
    i: int,
    j: int,
)
    requires
        forall|x: Seq<char>| (#[trigger] f(x)).len() == m,
        0 <= i < list.len(),
        0 <= j < m,
    ensures
        each(list, f).len() == list.len() * m,
        0 <= i * m + j < each(list, f).len(),
        each(list, f)[i * m + j] == f(list[i])[j],
    decreases list.len(),
{
    lemma_each_len(list, f, m);
    lemma_each_len(list.drop_last(), f, m);
    let n = list.len() - 1;
    assert(0 <= i * m && i * m + j < (n + 1) * m && (i < n ==> i * m + j < n * m)) by (nonlinear_arith)
        requires
            0 <= i <= n,
            0 <= j < m,
    ;
    if i < n {
        lemma_each_index(list.drop_last(), f, m, i, j);
        assert(list.drop_last()[i] == list[i]);
    } else {
        assert(list.last() == list[i]);
    }
}

proof fn lemma_each_len(list: Seq<Seq<char>>, f: spec_fn(Seq<char>) -> Seq<Seq<char>>, m: int)
    requires
        forall|x: Seq<char>| (#[trigger] f(x)).len() == m,
    ensures
        each(list, f).len() == list.len() * m,
    decreases list.len(),
{
    if list.len() > 0 {
        lemma_each_len(list.drop_last(), f, m);
        let n = list.len() - 1;
        assert(n * m + m == (n + 1) * m) by (nonlinear_arith);
    } else {
        assert(0 * m == 0) by (nonlinear_arith);
    }
}

proof fn lemma_typed(stem: Seq<char>)
    ensures
        typed_files(stem).len() == 2,
        typed_files(stem)[0] == stem + "."@ + "png"@,
        typed_files(stem)[1] == stem + "."@ + "svg"@,
{
    let f = |e: Seq<char>| seq![stem + "."@ + e];
    assert forall|x: Seq<char>| (#[trigger] f(x)).len() == 1 by {}
    lemma_each_index(icon_extensions(), f, 1, 0, 0);
    lemma_each_index(icon_extensions(), f, 1, 1, 0);
}

/// The theme of one's own is searched size by size, in six sizes, for a picture of each of two types, and
/// then at its top.
pub proof fn law_files_of_a_custom_theme(dir: Seq<char>, name: Seq<char>, s: int)
    requires
        0 <= s < 6,
    ensures
        ({
            let files = custom_files(dir, name);
            let size = seq!["48x48"@, "32x32"@, "scalable"@, "64x64"@, "128x128"@, "256x256"@][s];
            &&& files.len() == 14
            &&& files[2 * s] == dir + "/"@ + size + "/apps/"@ + name + "."@ + "png"@
            &&& files[2 * s + 1] == dir + "/"@ + size + "/apps/"@ + name + "."@ + "svg"@
            &&& files[12] == dir + "/"@ + name + "."@ + "png"@
            &&& files[13] == dir + "/"@ + name + "."@ + "svg"@
        }),
{
    let f = |s: Seq<char>| typed_files(dir + "/"@ + s + "/apps/"@ + name);
    assert forall|x: Seq<char>| (#[trigger] f(x)).len() == 2 by {
        lemma_typed(dir + "/"@ + x + "/apps/"@ + name);
    }
    lemma_each_index(icon_sizes(), f, 2, s, 0);
    lemma_each_index(icon_sizes(), f, 2, s, 1);
    lemma_typed(dir + "/"@ + icon_sizes()[s] + "/apps/"@ + name);
    lemma_typed(dir + "/"@ + name);
    assert(custom_files(dir, name) == each(icon_sizes(), f) + typed_files(dir + "/"@ + name));
}

/// The installed themes are searched one after the other, each size by size, each size directory by
/// directory, for a picture of each of two types.
pub proof fn law_files_of_installed_themes(
    categories: Seq<Seq<char>>,
    name: Seq<char>,
    t: int,
    s: int,
    c: int,
)
    requires
        0 <= t < 4,
        0 <= s < 6,
        0 <= c < categories.len(),
    ensures
        ({
            let files = installed_files(categories, name);
            let theme = seq!["hicolor"@, "Adwaita"@, "Papirus"@, "Papirus-Dark"@][t];
            let size = seq!["48x48"@, "32x32"@, "scalable"@, "64x64"@, "128x128"@, "256x256"@][s];
            let at = t * (6 * (categories.len() * 2)) + (s * (categories.len() * 2) + 2 * c);
            let stem = "/usr/share/icons/"@ + theme + "/"@ + size + "/"@ + categories[c] + "/"@ + name;
            &&& files.len() == 4 * (6 * (categories.len() * 2))
            &&& 0 <= at && at + 1 < files.len()
            &&& files[at] == stem + "."@ + "png"@
            &&& files[at + 1] == stem + "."@ + "svg"@
        }),
{
    let m: int = categories.len() as int * 2;
    let theme = icon_themes()[t];
    let size = icon_sizes()[s];
    let dir = "/usr/share/icons/"@ + theme;
    let g = |x: Seq<char>| theme_files("/usr/share/icons/"@ + x, categories, name);
    assert forall|x: Seq<char>| (#[trigger] g(x)).len() == 6 * m by {
        lemma_theme_len("/usr/share/icons/"@ + x, categories, name);
    }
    let f = |x: Seq<char>| size_files(dir + "/"@ + x, categories, name);
    assert forall|x: Seq<char>| (#[trigger] f(x)).len() == m by {
        lemma_size_len(dir + "/"@ + x, categories, name);
    }
    let h = |x: Seq<char>| typed_files(dir + "/"@ + size + "/"@ + x + "/"@ + name);
    assert forall|x: Seq<char>| (#[trigger] h(x)).len() == 2 by {
        lemma_typed(dir + "/"@ + size + "/"@ + x + "/"@ + name);
    }
    lemma_typed(dir + "/"@ + size + "/"@ + categories[c] + "/"@ + name);
    assert(c * 2 == 2 * c);
    assert(0 <= s * m && s * m + 2 * c + 1 < 6 * m) by (nonlinear_arith)
        requires
            0 <= s < 6,
            0 <= c,
            2 * c + 2 <= m,
    ;
    lemma_each_index(categories, h, 2, c, 0);
    lemma_each_index(categories, h, 2, c, 1);
    lemma_each_index(icon_sizes(), f, m, s, 2 * c);
    lemma_each_index(icon_sizes(), f, m, s, 2 * c + 1);
    lemma_each_index(icon_themes(), g, 6 * m, t, s * m + 2 * c);
    lemma_each_index(icon_themes(), g, 6 * m, t, s * m + 2 * c + 1);
}

proof fn lemma_size_len(dir: Seq<char>, categories: Seq<Seq<char>>, name: Seq<char>)
    ensures
        size_files(dir, categories, name).len() == categories.len() * 2,
{
    let h = |c: Seq<char>| typed_files(dir + "/"@ + c + "/"@ + name);
    assert forall|x: Seq<char>| (#[trigger] h(x)).len() == 2 by {
        lemma_typed(dir + "/"@ + x + "/"@ + name);
    }
    lemma_each_len(categories, h, 2);
}

proof fn lemma_theme_len(dir: Seq<char>, categories: Seq<Seq<char>>, name: Seq<char>)
    ensures
        theme_files(dir, categories, name).len() == 6 * (categories.len() * 2),
{
    let f = |s: Seq<char>| size_files(dir + "/"@ + s, categories, name);
    assert forall|x: Seq<char>| (#[trigger] f(x)).len() == categories.len() * 2 by {
        lemma_size_len(dir + "/"@ + x, categories, name);
    }
    lemma_each_len(icon_sizes(), f, (categories.len() * 2) as int);
}

/// A name that is an absolute path is tried itself before anything else, and any other is not; the last
/// file that is tried is the picture outside of any theme.
pub proof fn law_first_and_last_file(name: Seq<char>, custom: Seq<char>, categories: Seq<Seq<char>>)
    requires
        name.len() > 0,
    ensures
        ({
            let files = icon_files(name, custom, categories);
            let own: int = if name[0] == '/' {
                1
            } else {
                0
            };
            let given: int = if custom.len() > 0 {
                14
            } else {
                0
            };
            &&& name[0] == '/' ==> files[0] == name
            &&& files.last() == "/usr/share/pixmaps/"@ + name + ".png"@
            &&& files.len() == own + given + installed_files(categories, name).len() + 1
            &&& files.subrange(own + given, files.len() - 1) == installed_files(categories, name)
            &&& custom.len() > 0 ==> files.subrange(own, own + 14) == custom_files(custom, name)
        }),
{
    reveal_strlit("/");
    assert("/"@ =~= seq!['/']);
    assert(name.subrange(0, 1) =~= seq![name[0]]);
    if name[0] != '/' {
        assert(name.subrange(0, 1)[0] != "/"@[0]);
    }
    law_files_of_a_custom_theme(custom, name, 0);
    let files = icon_files(name, custom, categories);
    let own: int = if name[0] == '/' {
        1
    } else {
        0
    };
    let given: int = if custom.len() > 0 {
        14
    } else {
        0
    };
    assert(files.subrange(own + given, files.len() - 1) =~= installed_files(categories, name));
    if custom.len() > 0 {
        assert(files.subrange(own, own + 14) =~= custom_files(custom, name));
    }
}

/// Where the answers about files depend on the files alone, the file that is found is one of those that
/// are tried and is there, none that is tried before it is there, and where none is found none is there.
pub proof fn law_first_file_that_is_there<F: Fn(&str) -> bool>(
    present: F,
    there: spec_fn(Seq<char>) -> bool,
    files: Seq<Seq<char>>,
    r: Option<Seq<char>>,
    j: int,
)
    requires
        forall|p: &str, answer: bool| #[trigger] present.ensures((p,), answer) ==> answer == there(p@),
        is_first_present(present, files, r),
        0 <= j < files.len(),
    ensures
        there(files[j]) ==> r is Some,
        r matches Some(path) ==> there(path) && files.contains(path),
        there(files[j]) && r == Some(files[j]) || !there(files[j]) || exists|k: int|
            0 <= k < j && there(files[k]) && r == Some(#[trigger] files[k]),
{
    assert forall|path: Seq<char>, answer: bool| #[trigger]
        answered(present, path, answer) implies answer == there(path) by {
        let p = choose|p: &str| p@ == path && #[trigger] present.ensures((p,), answer);
        assert(present.ensures((p,), answer));
    }
    match r {
        Some(path) => {
            let k = choose|k: int|
                0 <= k < files.len() && #[trigger] files[k] == path && answered(present, files[k], true)
                    && forall|i: int| 0 <= i < k ==> answered(present, #[trigger] files[i], false);
            assert(answered(present, files[k], true));
            if j < k {
                assert(answered(present, files[j], false));
            }
        },
        None => {
            assert(answered(present, files[j], false));
        },
    }
}

} // verus!
