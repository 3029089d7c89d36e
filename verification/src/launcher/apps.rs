//! The list of applications: one entry for each, in the order of their names.

use vstd::prelude::*;

use crate::ipc::text_view;
use crate::launcher::entry::{
    desktop_entry, plain_words, read_desktop_entry, strip_field_codes, DesktopEntryView,
};
use crate::order::{lemma_text_asymmetric, lists_all, ranks, stable_order};
use crate::shell::{command_words, shell_join};
use crate::text::{lowercase, same, text_before, to_lowercase};
use crate::theme::{icon_files, is_first_present, resolve_icon, str_views};

verus! {

/// An application.
#[derive(Debug, PartialEq)]
pub struct AppEntry {
    pub name: String,
    pub name_lowercase: String,
    pub command: String,
    pub icon: Option<String>,
}

/// What the entry of an application holds.
pub struct AppEntryView {
    pub name: Seq<char>,
    pub name_lowercase: Seq<char>,
    pub command: Seq<char>,
    pub icon: Option<Seq<char>>,
}

impl View for AppEntry {
    type V = AppEntryView;

    open spec fn view(&self) -> AppEntryView {
        AppEntryView {
            name: self.name@,
            name_lowercase: self.name_lowercase@,
            command: self.command@,
            icon: text_view(self.icon),
        }
    }
}

impl Clone for AppEntry {
    fn clone(&self) -> (r: Self)
        ensures
            r@ == self@,
    {
        AppEntry {
            name: self.name.clone(),
            name_lowercase: self.name_lowercase.clone(),
            command: self.command.clone(),
            icon: self.icon.clone(),
        }
    }
}

impl AppEntryView {
    /// The name in lower case is that of the name.
    pub open spec fn wf(self) -> bool {
        self.name_lowercase == lowercase(self.name)
    }
}

/// What the entries of a list hold.
pub open spec fn app_views(apps: Seq<AppEntry>) -> Seq<AppEntryView> {
    Seq::new(apps.len(), |i: int| apps[i]@)
}

/// Whether `app` is the application that a desktop entry describes: its name, its command without
/// field codes, and the icon that was found for it.
pub open spec fn is_app_of<F: Fn(&str) -> bool>(
    entry: DesktopEntryView,
    present: F,
    app: AppEntryView,
) -> bool {
    &&& app.name == entry.name
    &&& app.name_lowercase == lowercase(entry.name)
    &&& app.command == shell_join(plain_words(command_words(entry.command)))
    &&& match entry.icon {
        Some(icon) => is_first_present(present, icon_files(icon, ""@, seq!["apps"@]), app.icon),
        None => app.icon is None,
    }
}

/// The application that the text of a desktop entry file describes. `present` says whether a file is
/// there; it is asked about the files that may be the icon.
pub fn parse_desktop_entry<F: Fn(&str) -> bool>(content: &str, present: F) -> (r: Option<AppEntry>)
    requires
        forall|p: &str| present.requires((p,)),
    ensures
        match r {
            Some(app) => desktop_entry(content@) is Some && is_app_of(
                desktop_entry(content@)->0,
                present,
                app@,
            ),
            None => desktop_entry(content@) is None,
        },
{
    let entry = match read_desktop_entry(content) {
        Some(entry) => entry,
        None => {
            return None;
        },
    };
    let icon = match &entry.icon {
        Some(name) => {
            let categories = ["apps"];
            proof {
                assert(str_views(categories@) =~= seq!["apps"@]);
            }
            resolve_icon(name.as_str(), "", &categories, present)
        },
        None => None,
    };
    Some(
        AppEntry {
            name_lowercase: to_lowercase(entry.name.as_str()),
            command: strip_field_codes(entry.command.as_str()),
            name: entry.name,
            icon,
        },
    )
}

/// Whether entry `a` stands before entry `b` once the entries are sorted by their names in lower
/// case, entries of the same name as they came.
pub open spec fn name_ranks(apps: Seq<AppEntryView>, a: usize, b: usize) -> bool {
    ||| text_before(apps[a as int].name_lowercase, apps[b as int].name_lowercase)
    ||| !text_before(apps[b as int].name_lowercase, apps[a as int].name_lowercase) && a < b
}

/// Whether `order` lists the entries in the order of their names.
pub open spec fn is_name_order(apps: Seq<AppEntryView>, order: Seq<usize>) -> bool {
    &&& lists_all(apps.len(), order)
    &&& forall|i: int, j: int|
        0 <= i < j < order.len() ==> name_ranks(apps, #[trigger] order[i], #[trigger] order[j])
}

/// The entries at the positions in `order`.
pub open spec fn picked(apps: Seq<AppEntryView>, order: Seq<usize>) -> Seq<AppEntryView> {
    Seq::new(order.len(), |i: int| apps[order[i] as int])
}

/// The entries without each that follows one of the same name.
pub open spec fn without_repeats(apps: Seq<AppEntryView>) -> Seq<AppEntryView>
    decreases apps.len(),
{
    if apps.len() == 0 {
        Seq::empty()
    } else {
        let r = without_repeats(apps.drop_last());
        if r.len() > 0 && r.last().name == apps.last().name {
            r
        } else {
            r.push(apps.last())
        }
    }
}

/// Sorts entries by their names in lower case, and keeps the first of entries of the same name that
/// follow each other.
pub fn arrange_entries(entries: &Vec<AppEntry>) -> (r: Vec<AppEntry>)
    ensures
        exists|order: Seq<usize>| #[trigger]
            is_name_order(app_views(entries@), order) && app_views(r@) == without_repeats(
                picked(app_views(entries@), order),
            ),
{
    let ghost all = app_views(entries@);
    let mut keys: Vec<String> = Vec::new();
    let mut i: usize = 0;
    while i < entries.len()
        invariant
            i <= entries@.len(),
            keys@.len() == i,
            all == app_views(entries@),
            forall|j: int| 0 <= j < i ==> (#[trigger] keys@[j])@ == all[j].name_lowercase,
        decreases entries@.len() - i,
    {
        keys.push(entries[i].name_lowercase.clone());
        i += 1;
    }
    let order = stable_order(&keys);
    proof {
        assert(is_name_order(all, order@)) by {
            assert forall|i: int, j: int| 0 <= i < j < order@.len() implies name_ranks(
                all,
                #[trigger] order@[i],
                #[trigger] order@[j],
            ) by {
                assert(ranks(keys@, order@[i], order@[j]));
                assert(keys@[order@[i] as int]@ == all[order@[i] as int].name_lowercase);
                assert(keys@[order@[j] as int]@ == all[order@[j] as int].name_lowercase);
            }
        }
    }
    let ghost sorted = picked(all, order@);
    let mut r: Vec<AppEntry> = Vec::new();
    let mut k: usize = 0;
    proof {
        assert(sorted.take(0) =~= Seq::empty());
        assert(app_views(r@) =~= Seq::empty());
    }
    while k < order.len()
        invariant
            k <= order@.len(),
            all == app_views(entries@),
            sorted == picked(all, order@),
            lists_all(all.len(), order@),
            app_views(r@) == without_repeats(sorted.take(k as int)),
        decreases order@.len() - k,
    {
        let entry = &entries[order[k]];
        let ghost before = app_views(r@);
        proof {
            assert(entry@ == sorted[k as int]);
            assert(sorted.take(k + 1).drop_last() =~= sorted.take(k as int));
            assert(sorted.take(k + 1).last() == sorted[k as int]);
            if r@.len() > 0 {
                assert(before.last() == r@[r@.len() - 1]@);
            }
        }
        let repeated = r.len() > 0 && same(r[r.len() - 1].name.as_str(), entry.name.as_str());
        if !repeated {
            let copy = entry.clone();
            r.push(copy);
            proof {
                assert(app_views(r@) =~= before.push(sorted[k as int]));
            }
        }
        k += 1;
    }
    proof {
        assert(sorted.take(k as int) =~= sorted);
        assert(is_name_order(all, order@));
    }
    r
}

proof fn lemma_text_total(a: Seq<char>, b: Seq<char>)
    requires
        !text_before(a, b),
        !text_before(b, a),
    ensures
        a == b,
    decreases a.len(),
{
    if a.len() > 0 && b.len() > 0 {
        assert(a[0] == b[0]);
        lemma_text_total(a.drop_first(), b.drop_first());
        assert(a =~= seq![a[0]] + a.drop_first());
        assert(b =~= seq![b[0]] + b.drop_first());
    } else {
        assert(a =~= b);
    }
}

spec fn ascending(apps: Seq<AppEntryView>) -> bool {
    forall|i: int, j: int|
        0 <= i < j < apps.len() ==> !text_before(
            (#[trigger] apps[j]).name_lowercase,
            (#[trigger] apps[i]).name_lowercase,
        )
}

proof fn lemma_without_repeats(apps: Seq<AppEntryView>)
    ensures
        forall|i: int|
            0 <= i < without_repeats(apps).len() ==> apps.contains(
                #[trigger] without_repeats(apps)[i],
            ),
        forall|i: int|
            0 <= i < without_repeats(apps).len() - 1 ==> (#[trigger] without_repeats(apps)[i]).name
                != without_repeats(apps)[i + 1].name,
        ascending(apps) ==> ascending(without_repeats(apps)),
    decreases apps.len(),
{
    if apps.len() > 0 {
        let s = apps.drop_last();
        let r = without_repeats(s);
        let all = without_repeats(apps);
        lemma_without_repeats(s);
        assert forall|i: int| 0 <= i < all.len() implies apps.contains(#[trigger] all[i]) by {
            if i < r.len() {
                assert(all[i] == r[i]);
                assert(s.contains(r[i]));
                let k = choose|k: int| 0 <= k < s.len() && s[k] == r[i];
                assert(apps[k] == all[i]);
            } else {
                assert(apps[apps.len() - 1] == all[i]);
            }
        }
        assert forall|i: int| 0 <= i < all.len() - 1 implies (#[trigger] all[i]).name != all[i
            + 1].name by {
            if i + 1 < r.len() {
                assert(r[i].name != r[i + 1].name);
            }
        }
        if ascending(apps) {
            assert(ascending(s));
            assert forall|i: int, j: int| 0 <= i < j < all.len() implies !text_before(
                (#[trigger] all[j]).name_lowercase,
                (#[trigger] all[i]).name_lowercase,
            ) by {
                if j < r.len() {
                    assert(all[i] == r[i] && all[j] == r[j]);
                } else {
                    assert(s.contains(r[i]));
                    let k = choose|k: int| 0 <= k < s.len() && s[k] == r[i];
                    assert(apps[k] == all[i]);
                    assert(apps[apps.len() - 1] == all[j]);
                }
            }
        }
    }
}

/// No application is listed twice: where names that are the same in lower case are the same, all
/// names in the arranged list differ.
pub proof fn law_names_are_distinct(apps: Seq<AppEntryView>, order: Seq<usize>, i: int, j: int)
    requires
        is_name_order(apps, order),
        forall|a: int| 0 <= a < apps.len() ==> (#[trigger] apps[a]).wf(),
        forall|a: int, b: int|
            0 <= a < apps.len() && 0 <= b < apps.len() && (#[trigger] apps[a]).name_lowercase == (
            #[trigger] apps[b]).name_lowercase ==> apps[a].name == apps[b].name,
        0 <= i < j < without_repeats(picked(apps, order)).len(),
    ensures
        without_repeats(picked(apps, order))[i].name != without_repeats(picked(apps, order))[j].name,
{
    let sorted = picked(apps, order);
    let r = without_repeats(sorted);
    assert(ascending(sorted)) by {
        assert forall|p: int, q: int| 0 <= p < q < sorted.len() implies !text_before(
            (#[trigger] sorted[q]).name_lowercase,
            (#[trigger] sorted[p]).name_lowercase,
        ) by {
            assert(name_ranks(apps, order[p], order[q]));
            let a = sorted[p].name_lowercase;
            let b = sorted[q].name_lowercase;
            if text_before(a, b) && text_before(b, a) {
                lemma_text_asymmetric(a, b);
            }
        }
    }
    lemma_without_repeats(sorted);
    if r[i].name == r[j].name {
        assert(sorted.contains(r[i]) && sorted.contains(r[i + 1]) && sorted.contains(r[j]));
        let p = choose|p: int| 0 <= p < sorted.len() && sorted[p] == r[i];
        let q = choose|q: int| 0 <= q < sorted.len() && sorted[q] == r[i + 1];
        let s = choose|s: int| 0 <= s < sorted.len() && sorted[s] == r[j];
        assert(apps[order[p] as int] == r[i]);
        assert(apps[order[q] as int] == r[i + 1]);
        assert(apps[order[s] as int] == r[j]);
        if i + 1 < j {
            assert(!text_before(r[i + 1].name_lowercase, r[i].name_lowercase));
            assert(!text_before(r[j].name_lowercase, r[i + 1].name_lowercase));
            assert(r[j].name_lowercase == r[i].name_lowercase);
            lemma_text_total(r[i].name_lowercase, r[i + 1].name_lowercase);
        }
        assert(r[i].name == r[i + 1].name);
    }
}

proof fn lemma_names_stay(apps: Seq<AppEntryView>, k: int)
    requires
        0 <= k < apps.len(),
    ensures
        exists|i: int|
            0 <= i < without_repeats(apps).len() && (#[trigger] without_repeats(apps)[i]).name
                == apps[k].name,
    decreases apps.len(),
{
    let s = apps.drop_last();
    let r = without_repeats(s);
    let all = without_repeats(apps);
    if k < s.len() {
        lemma_names_stay(s, k);
        let i = choose|i: int| 0 <= i < r.len() && (#[trigger] r[i]).name == s[k].name;
        assert(all[i] == r[i]);
    } else {
        assert(all[all.len() - 1].name == apps[k].name);
    }
}

/// Arranging loses no application: the name of every entry is still listed.
pub proof fn law_every_name_stays(apps: Seq<AppEntryView>, order: Seq<usize>, k: int)
    requires
        is_name_order(apps, order),
        0 <= k < apps.len() <= usize::MAX,
    ensures
        exists|i: int|
            0 <= i < without_repeats(picked(apps, order)).len() && (#[trigger] without_repeats(
                picked(apps, order),
            )[i]).name == apps[k].name,
{
    assert(order.contains(k as usize));
    let p = choose|p: int| 0 <= p < order.len() && order[p] == k as usize;
    assert(picked(apps, order)[p] == apps[k]);
    lemma_names_stay(picked(apps, order), p);
}

proof fn lemma_last_name(apps: Seq<AppEntryView>)
    requires
        apps.len() > 0,
    ensures
        without_repeats(apps).len() > 0,
        without_repeats(apps).last().name == apps.last().name,
{
}

proof fn lemma_kept_entry_stays(apps: Seq<AppEntryView>, n: int, entry: AppEntryView)
    requires
        0 <= n <= apps.len(),
        without_repeats(apps.take(n)).contains(entry),
    ensures
        without_repeats(apps).contains(entry),
    decreases apps.len() - n,
{
    if n == apps.len() {
        assert(apps.take(n) =~= apps);
    } else {
        let before = without_repeats(apps.take(n));
        let after = without_repeats(apps.take(n + 1));
        assert(apps.take(n + 1).drop_last() =~= apps.take(n));
        let i = choose|i: int| 0 <= i < before.len() && before[i] == entry;
        assert(after[i] == entry);
        lemma_kept_entry_stays(apps, n + 1, entry);
    }
}

/// Of entries of the same name the first one stays: an entry that no earlier one shares its name with
/// is itself listed, so that what a directory holds wins over what later directories hold.
pub proof fn law_first_entry_stays(apps: Seq<AppEntryView>, order: Seq<usize>, k: int)
    requires
        is_name_order(apps, order),
        forall|a: int| 0 <= a < apps.len() ==> (#[trigger] apps[a]).wf(),
        0 <= k < apps.len() <= usize::MAX,
        forall|j: int| 0 <= j < k ==> (#[trigger] apps[j]).name != apps[k].name,
    ensures
        without_repeats(picked(apps, order)).contains(apps[k]),
{
    let sorted = picked(apps, order);
    assert(order.contains(k as usize));
    let p = choose|p: int| 0 <= p < order.len() && order[p] == k as usize;
    let before = sorted.take(p);
    let upto = sorted.take(p + 1);
    assert(upto.drop_last() =~= before);
    assert(upto.last() == apps[k]);
    if p > 0 {
        let a = order[p - 1];
        lemma_last_name(before);
        assert(before.last() == apps[a as int]);
        assert(name_ranks(apps, order[p - 1], order[p]));
        if apps[a as int].name == apps[k].name {
            assert(apps[a as int].wf() && apps[k].wf());
            let l = apps[k].name_lowercase;
            if text_before(l, l) {
                lemma_text_asymmetric(l, l);
            }
            assert(a < k);
            assert(apps[a as int].name != apps[k].name);
        }
    }
    let r = without_repeats(upto);
    assert(r == without_repeats(before).push(apps[k]));
    assert(r[r.len() - 1] == apps[k]);
    lemma_kept_entry_stays(sorted, p + 1, apps[k]);
}

/// The arranged list is in the order of the names in lower case, and holds nothing but entries that were
/// given; next to each other no two have the same name.
pub proof fn law_arranged_list(apps: Seq<AppEntryView>, order: Seq<usize>, i: int, j: int)
    requires
        is_name_order(apps, order),
        0 <= i < j < without_repeats(picked(apps, order)).len(),
    ensures
        ({
            let r = without_repeats(picked(apps, order));
            &&& !text_before(r[j].name_lowercase, r[i].name_lowercase)
            &&& j == i + 1 ==> r[i].name != r[j].name
            &&& apps.contains(r[i]) && apps.contains(r[j])
        }),
{
    let sorted = picked(apps, order);
    let r = without_repeats(sorted);
    assert(ascending(sorted)) by {
        assert forall|p: int, q: int| 0 <= p < q < sorted.len() implies !text_before(
            (#[trigger] sorted[q]).name_lowercase,
            (#[trigger] sorted[p]).name_lowercase,
        ) by {
            assert(name_ranks(apps, order[p], order[q]));
            let a = sorted[p].name_lowercase;
            let b = sorted[q].name_lowercase;
            if text_before(a, b) && text_before(b, a) {
                lemma_text_asymmetric(a, b);
            }
        }
    }
    lemma_without_repeats(sorted);
    assert(r[i].name != r[i + 1].name);
    assert(sorted.contains(r[i]) && sorted.contains(r[j]));
    let p = choose|p: int| 0 <= p < sorted.len() && sorted[p] == r[i];
    let q = choose|q: int| 0 <= q < sorted.len() && sorted[q] == r[j];
    assert(apps[order[p] as int] == r[i]);
    assert(apps[order[q] as int] == r[j]);
}

/// Entries of different names are all listed: only an entry that follows one of its own name is left out.
pub proof fn law_only_repeats_are_left_out(apps: Seq<AppEntryView>, entry: AppEntryView)
    ensures
        apps.len() == 0 || apps.last().name != entry.name ==> without_repeats(apps.push(entry))
            == without_repeats(apps).push(entry),
        apps.len() > 0 && apps.last().name == entry.name ==> without_repeats(apps.push(entry))
            == without_repeats(apps),
{
    assert(apps.push(entry).drop_last() =~= apps);
    if apps.len() > 0 {
        lemma_last_name(apps);
    }
}

/// An application has the name of its desktop entry, and starts the words of its command line that are no
/// field codes.
pub proof fn law_application_of_an_entry<F: Fn(&str) -> bool>(
    entry: DesktopEntryView,
    present: F,
    app: AppEntryView,
)
    requires
        is_app_of(entry, present, app),
    ensures
        app.name == entry.name,
        app.name_lowercase == lowercase(app.name),
        app.command == shell_join(plain_words(command_words(entry.command))),
        entry.icon is None ==> app.icon is None,
        entry.icon matches Some(icon) && icon.len() == 0 ==> app.icon is None,
        app.icon matches Some(path) ==> icon_files(entry.icon->0, ""@, seq!["apps"@]).contains(path),
        entry.icon matches Some(icon) ==> is_first_present(
            present,
            icon_files(icon, ""@, seq!["apps"@]),
            app.icon,
        ),
{
    if let Some(path) = app.icon {
        let files = icon_files(entry.icon->0, ""@, seq!["apps"@]);
        let k = choose|k: int|
            0 <= k < files.len() && #[trigger] files[k] == path && crate::theme::answered(
                present,
                files[k],
                true,
            ) && forall|j: int|
                0 <= j < k ==> crate::theme::answered(present, #[trigger] files[j], false);
        assert(files[k] == path);
    }
}

} // verus!
