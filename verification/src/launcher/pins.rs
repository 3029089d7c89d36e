//! The pinned applications, and how they are kept between runs.

use vstd::prelude::*;

use crate::ipc::text_view;
use crate::launcher::apps::{app_views, AppEntry, AppEntryView};
use crate::number::{decimal, decimal_text};
use crate::search::{first_where, lemma_is_first, lemma_none_first};
use crate::text::{join_path, path_join, same};

verus! {

/// The number of slots for pinned applications.
pub const MAX_PINNED: usize = 8;

/// What is kept between runs: the names of the pinned applications by their slots.
#[derive(Debug, PartialEq)]
pub struct LauncherConfig {
    pub pinned: Vec<Option<String>>,
}

impl Default for LauncherConfig {
    fn default() -> (r: Self)
        ensures
            r.pinned@.len() == 0,
    {
        LauncherConfig { pinned: Vec::new() }
    }
}

/// The names in slots.
pub open spec fn slot_names(slots: Seq<Option<String>>) -> Seq<Option<Seq<char>>> {
    Seq::new(slots.len(), |i: int| text_view(slots[i]))
}

/// The first application of a name.
pub open spec fn app_named(apps: Seq<AppEntryView>, name: Seq<char>) -> Option<usize> {
    match first_where(apps, |a: AppEntryView| a.name == name) {
        Some(k) => Some(k as usize),
        None => None,
    }
}

/// The pinned applications that names in slots stand for. A name that no application has leaves its
/// slot empty, and names beyond the last slot are ignored.
pub open spec fn pins_of(apps: Seq<AppEntryView>, names: Seq<Option<Seq<char>>>) -> Seq<
    Option<usize>,
> {
    Seq::new(
        MAX_PINNED as nat,
        |slot: int|
            if slot < names.len() {
                match names[slot] {
                    Some(name) => app_named(apps, name),
                    None => None,
                }
            } else {
                None
            },
    )
}

fn position_of(apps: &Vec<AppEntry>, name: &str) -> (r: Option<usize>)
    ensures
        r == app_named(app_views(apps@), name@),
        r matches Some(k) ==> k < apps@.len(),
{
    let ghost all = app_views(apps@);
    let ghost p = |a: AppEntryView| a.name == name@;
    let mut i: usize = 0;
    while i < apps.len()
        invariant
            i <= apps@.len(),
            all == app_views(apps@),
            p == (|a: AppEntryView| a.name == name@),
            forall|j: int| 0 <= j < i ==> !p(#[trigger] all[j]),
        decreases apps@.len() - i,
    {
        if same(apps[i].name.as_str(), name) {
            proof {
                lemma_is_first(all, p, 0, i as int);
            }
            return Some(i);
        }
        i += 1;
    }
    proof {
        lemma_none_first(all, p, 0);
    }
    None
}

/// The pinned applications that a configuration stands for.
pub fn load_pinned_apps(apps: &Vec<AppEntry>, config: &LauncherConfig) -> (r: [Option<usize>;
    MAX_PINNED])
    ensures
        r@ == pins_of(app_views(apps@), slot_names(config.pinned@)),
        forall|i: int| 0 <= i < r@.len() && #[trigger] r@[i] is Some ==> r@[i]->0 < apps@.len(),
{
    let mut pinned: [Option<usize>; MAX_PINNED] = [None;MAX_PINNED];
    let ghost wanted = pins_of(app_views(apps@), slot_names(config.pinned@));
    let mut slot: usize = 0;
    while slot < MAX_PINNED
        invariant
            slot <= MAX_PINNED,
            pinned@.len() == MAX_PINNED,
            wanted == pins_of(app_views(apps@), slot_names(config.pinned@)),
            forall|i: int| 0 <= i < slot ==> #[trigger] pinned@[i] == wanted[i],
            forall|i: int| slot <= i < MAX_PINNED ==> #[trigger] pinned@[i] is None,
            forall|i: int|
                0 <= i < MAX_PINNED && #[trigger] pinned@[i] is Some ==> pinned@[i]->0 < apps@.len(),
        decreases MAX_PINNED - slot,
    {
        if slot < config.pinned.len() {
            if let Some(name) = &config.pinned[slot] {
                pinned[slot] = position_of(apps, name.as_str());
            }
        }
        slot += 1;
    }
    proof {
        assert(pinned@ =~= wanted);
    }
    pinned
}

/// The name in a slot.
pub open spec fn pin_name(apps: Seq<AppEntryView>, pin: Option<usize>) -> Option<Seq<char>> {
    match pin {
        Some(i) => if i < apps.len() {
            Some(apps[i as int].name)
        } else {
            None
        },
        None => None,
    }
}

/// Slots without the empty ones at the end.
pub open spec fn without_empty_end(slots: Seq<Option<Seq<char>>>) -> Seq<Option<Seq<char>>>
    decreases slots.len(),
{
    if slots.len() > 0 && slots.last() is None {
        without_empty_end(slots.drop_last())
    } else {
        slots
    }
}

/// The names in the slots of the pinned applications, without the empty slots at the end.
pub open spec fn names_of(apps: Seq<AppEntryView>, pinned: Seq<Option<usize>>) -> Seq<
    Option<Seq<char>>,
> {
    without_empty_end(Seq::new(pinned.len(), |i: int| pin_name(apps, pinned[i])))
}

/// The configuration that stands for the pinned applications.
pub fn save_pinned_apps(apps: &Vec<AppEntry>, pinned: &[Option<usize>; MAX_PINNED]) -> (r:
    LauncherConfig)
    ensures
        slot_names(r.pinned@) == names_of(app_views(apps@), pinned@),
{
    let ghost all = Seq::new(pinned@.len(), |i: int| pin_name(app_views(apps@), pinned@[i]));
    let mut slots: Vec<Option<String>> = Vec::new();
    let mut i: usize = 0;
    while i < MAX_PINNED
        invariant
            i <= MAX_PINNED,
            pinned@.len() == MAX_PINNED,
            slots@.len() == i,
            all == Seq::new(pinned@.len(), |i: int| pin_name(app_views(apps@), pinned@[i])),
            forall|j: int| 0 <= j < i ==> text_view(#[trigger] slots@[j]) == all[j],
        decreases MAX_PINNED - i,
    {
        let name: Option<String> = match pinned[i] {
            Some(index) => if index < apps.len() {
                Some(apps[index].name.clone())
            } else {
                None
            },
            None => None,
        };
        slots.push(name);
        i += 1;
    }
    proof {
        assert(slot_names(slots@) =~= all);
    }
    while slots.len() > 0 && slots[slots.len() - 1].is_none()
        invariant
            without_empty_end(slot_names(slots@)) == without_empty_end(all),
        decreases slots@.len(),
    {
        let ghost before = slot_names(slots@);
        slots.pop();
        proof {
            assert(slot_names(slots@) =~= before.drop_last());
        }
    }
    proof {
        if slots@.len() > 0 {
            assert(slot_names(slots@).last() is Some);
        }
    }
    LauncherConfig { pinned: slots }
}

/// Dropping the empty slots at the end changes no other.
pub proof fn lemma_empty_end(slots: Seq<Option<Seq<char>>>)
    ensures
        without_empty_end(slots).len() <= slots.len(),
        forall|i: int|
            0 <= i < without_empty_end(slots).len() ==> #[trigger] without_empty_end(slots)[i]
                == slots[i],
        forall|i: int|
            without_empty_end(slots).len() <= i < slots.len() ==> #[trigger] slots[i] is None,
    decreases slots.len(),
{
    if slots.len() > 0 && slots.last() is None {
        lemma_empty_end(slots.drop_last());
        assert forall|i: int|
            without_empty_end(slots).len() <= i < slots.len() implies #[trigger] slots[i] is None by {
            if i < slots.len() - 1 {
                assert(slots.drop_last()[i] is None);
            }
        }
    }
}

/// Pins survive a run: loading what was saved gives the pinned applications back, provided that no
/// two applications have the same name.
pub proof fn law_pins_survive(apps: Seq<AppEntryView>, pinned: Seq<Option<usize>>)
    requires
        pinned.len() == MAX_PINNED,
        forall|i: int| 0 <= i < pinned.len() && #[trigger] pinned[i] is Some ==> pinned[i]->0 < apps.len(),
        forall|i: int, j: int|
            0 <= i < j < apps.len() ==> (#[trigger] apps[i]).name != (#[trigger] apps[j]).name,
    ensures
        pins_of(apps, names_of(apps, pinned)) == pinned,
{
    let slots = Seq::new(pinned.len(), |i: int| pin_name(apps, pinned[i]));
    let names = names_of(apps, pinned);
    lemma_empty_end(slots);
    let r = pins_of(apps, names);
    assert forall|i: int| 0 <= i < MAX_PINNED implies #[trigger] r[i] == pinned[i] by {
        if i >= names.len() {
            assert(slots[i] is None);
        } else {
            assert(names[i] == slots[i]);
        }
        if pinned[i] is Some {
            let k = pinned[i]->0 as int;
            let p = |a: AppEntryView| a.name == apps[k].name;
            assert forall|j: int| 0 <= j < k implies !p(#[trigger] apps[j]) by {}
            lemma_is_first(apps, p, 0, k);
        }
    }
    assert(r =~= pinned);
}

// ---------------------------------------------------------------------------
// Files
// ---------------------------------------------------------------------------

/// The directory of the configuration files of all programs.
pub open spec fn config_home(xdg_config_home: Option<&str>, home: Option<&str>) -> Seq<char> {
    match xdg_config_home {
        Some(dir) => dir@,
        None => (match home {
            Some(h) => h@,
            None => ""@,
        }) + "/.config"@,
    }
}

fn config_base(xdg_config_home: Option<&str>, home: Option<&str>) -> (r: String)
    ensures
        r@ == config_home(xdg_config_home, home),
{
    match xdg_config_home {
        Some(dir) => dir.to_owned(),
        None => {
            let mut dir = match home {
                Some(h) => h.to_owned(),
                None => "".to_owned(),
            };
            dir.append("/.config");
            dir
        },
    }
}

/// The configuration file.
pub fn config_path(xdg_config_home: Option<&str>, home: Option<&str>) -> (r: String)
    ensures
        r@ == path_join(config_home(xdg_config_home, home), "ordinary/launcher.json"@),
{
    join_path(config_base(xdg_config_home, home).as_str(), "ordinary/launcher.json")
}

/// The directory of the configuration file.
pub fn config_directory(xdg_config_home: Option<&str>, home: Option<&str>) -> (r: String)
    ensures
        r@ == path_join(config_home(xdg_config_home, home), "ordinary"@),
{
    join_path(config_base(xdg_config_home, home).as_str(), "ordinary")
}

/// The file that the configuration is written to before it takes the place of the old one. It stands
/// in the same directory.
pub fn temporary_path(directory: &str, process: u32) -> (r: String)
    ensures
        r@ == path_join(directory@, ".launcher."@ + decimal_text(process as nat) + ".tmp"@),
{
    let mut name = ".launcher.".to_owned();
    name.append(decimal(process as u64).as_str());
    name.append(".tmp");
    join_path(directory, name.as_str())
}

/// The configuration is kept where the environment says, or else below the home directory.
pub proof fn law_configuration_directory(dir: &str, home: &str, other: Option<&str>)
    ensures
        config_home(Some(dir), other) == dir@,
        config_home(None, Some(home)) == home@ + "/.config"@,
        config_home(None, None) == "/.config"@,
{
    reveal_strlit("");
    assert(""@ + "/.config"@ =~= "/.config"@);
}

} // verus!
