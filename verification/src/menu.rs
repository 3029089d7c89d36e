//! Menus of tray items, from the values that a menu's layout is sent in.

use vstd::prelude::*;

use crate::ipc::{menu_views, MenuItem, MenuItemView};
use crate::text::{chars_of, same};

verus! {

/// A value of a menu layout, as far as menus are made of it.
pub enum MenuValue {
    Str(String),
    Bool(bool),
    I32(i32),
    /// A value in a variant of its own.
    Variant(Box<MenuValue>),
    Structure(Vec<MenuValue>),
    Array(Vec<MenuValue>),
    Dict(Vec<(MenuValue, MenuValue)>),
    /// A value of any other type.
    Other,
}

/// A property of a menu item.
pub struct Property<'a> {
    pub name: String,
    pub value: &'a MenuValue,
}

/// What stands in the variant, if the value is one.
pub open spec fn unwrapped(v: MenuValue) -> MenuValue {
    match v {
        MenuValue::Variant(inner) => *inner,
        _ => v,
    }
}

/// The text of a value that is text.
pub open spec fn as_text(v: MenuValue) -> Option<Seq<char>> {
    match v {
        MenuValue::Str(s) => Some(s@),
        _ => None,
    }
}

/// The properties in the entries of a dictionary. There are none where a name is not text. A
/// variant round a name or a value is taken away.
pub open spec fn entry_properties(entries: Seq<(MenuValue, MenuValue)>) -> Option<
    Seq<(Seq<char>, MenuValue)>,
>
    decreases entries.len(),
{
    if entries.len() == 0 {
        Some(Seq::empty())
    } else {
        match (
            entry_properties(entries.drop_last()),
            as_text(unwrapped(entries.last().0)),
        ) {
            (Some(before), Some(name)) => Some(before.push((name, unwrapped(entries.last().1)))),
            _ => None,
        }
    }
}

/// The properties that a value holds: those of a dictionary, none in any other value.
pub open spec fn value_properties(v: MenuValue) -> Option<Seq<(Seq<char>, MenuValue)>> {
    match v {
        MenuValue::Dict(entries) => entry_properties(entries@),
        _ => Some(Seq::empty()),
    }
}

/// The value of the property with a name; of several the last.
pub open spec fn lookup(props: Seq<(Seq<char>, MenuValue)>, name: Seq<char>) -> Option<MenuValue>
    decreases props.len(),
{
    if props.len() == 0 {
        None
    } else if props.last().0 == name {
        Some(props.last().1)
    } else {
        lookup(props.drop_last(), name)
    }
}

/// A property that is text, or a variant of text.
pub open spec fn text_property(props: Seq<(Seq<char>, MenuValue)>, name: Seq<char>) -> Option<
    Seq<char>,
> {
    match lookup(props, name) {
        Some(v) => as_text(unwrapped(v)),
        None => None,
    }
}

/// A property that is a truth value, or a variant of one.
pub open spec fn bool_property(props: Seq<(Seq<char>, MenuValue)>, name: Seq<char>) -> Option<bool> {
    match lookup(props, name) {
        Some(v) => match unwrapped(v) {
            MenuValue::Bool(b) => Some(b),
            _ => None,
        },
        None => None,
    }
}

/// A property that is a 32-bit number, or a variant of one.
pub open spec fn i32_property(props: Seq<(Seq<char>, MenuValue)>, name: Seq<char>) -> Option<i32> {
    match lookup(props, name) {
        Some(v) => match unwrapped(v) {
            MenuValue::I32(n) => Some(n),
            _ => None,
        },
        None => None,
    }
}

/// A text without the underscores, which mark the keys of a menu.
pub open spec fn without_marks(s: Seq<char>) -> Seq<char>
    decreases s.len(),
{
    if s.len() == 0 {
        s
    } else if s.last() == '_' {
        without_marks(s.drop_last())
    } else {
        without_marks(s.drop_last()).push(s.last())
    }
}

/// The menu item with an identifier, properties and children.
pub open spec fn menu_item(
    id: i32,
    props: Seq<(Seq<char>, MenuValue)>,
    children: Seq<MenuItemView>,
) -> MenuItemView {
    MenuItemView {
        id,
        label: match text_property(props, "label"@) {
            Some(s) => without_marks(s),
            None => Seq::empty(),
        },
        enabled: match bool_property(props, "enabled"@) {
            Some(b) => b,
            None => true,
        },
        visible: match bool_property(props, "visible"@) {
            Some(b) => b,
            None => true,
        },
        is_separator: text_property(props, "type"@) == Some("separator"@),
        toggle_type: match text_property(props, "toggle-type"@) {
            Some(s) => s,
            None => Seq::empty(),
        },
        toggle_state: match i32_property(props, "toggle-state"@) {
            Some(n) => n,
            None => 0,
        },
        children,
    }
}

/// The menu item that a value of a layout describes: a structure of an identifier, properties and
/// children. A value of any other form describes none.
pub open spec fn layout_item(v: MenuValue) -> Option<MenuItemView>
    decreases v,
{
    match v {
        MenuValue::Structure(fields) => if fields@.len() < 3 {
            None
        } else {
            match (fields@[0], value_properties(fields@[1])) {
                (MenuValue::I32(id), Some(props)) => Some(
                    menu_item(
                        id,
                        props,
                        match fields@[2] {
                            MenuValue::Array(list) => layout_items(list@),
                            _ => Seq::empty(),
                        },
                    ),
                ),
                _ => None,
            }
        },
        _ => None,
    }
}

/// The menu items that the values of a layout describe, in order.
pub open spec fn layout_items(values: Seq<MenuValue>) -> Seq<MenuItemView>
    decreases values,
{
    if values.len() == 0 {
        Seq::empty()
    } else {
        match layout_item(values[values.len() - 1]) {
            Some(item) => layout_items(values.drop_last()).push(item),
            None => layout_items(values.drop_last()),
        }
    }
}

/// What the properties of a list are.
pub open spec fn property_views(props: Seq<Property>) -> Seq<(Seq<char>, MenuValue)> {
    Seq::new(props.len(), |i: int| (props[i].name@, *props[i].value))
}

fn unwrap_variant(v: &MenuValue) -> (r: &MenuValue)
    ensures
        *r == unwrapped(*v),
{
    match v {
        MenuValue::Variant(inner) => inner,
        _ => v,
    }
}

/// The properties that a value holds.
fn properties<'a>(v: &'a MenuValue) -> (r: Option<Vec<Property<'a>>>)
    ensures
        match r {
            Some(props) => value_properties(*v) == Some(property_views(props@)),
            None => value_properties(*v) is None,
        },
{
    let mut out: Vec<Property<'a>> = Vec::new();
    if let MenuValue::Dict(entries) = v {
        let mut i: usize = 0;
        proof {
            assert(entries@.take(0) =~= Seq::empty());
            assert(property_views(out@) =~= Seq::empty());
        }
        while i < entries.len()
            invariant
                *v == MenuValue::Dict(*entries),
                i <= entries@.len(),
                entry_properties(entries@.take(i as int)) == Some(property_views(out@)),
            decreases entries@.len() - i,
        {
            let entry = &entries[i];
            proof {
                assert(entries@.take(i + 1).drop_last() =~= entries@.take(i as int));
                assert(entries@.take(i + 1).last() == *entry);
            }
            match unwrap_variant(&entry.0) {
                MenuValue::Str(name) => {
                    let ghost before = property_views(out@);
                    out.push(Property { name: name.clone(), value: unwrap_variant(&entry.1) });
                    proof {
                        assert(property_views(out@) =~= before.push(
                            (name@, unwrapped(entry.1)),
                        ));
                    }
                },
                _ => {
                    proof {
                        lemma_prefix_fails(entries@, i + 1);
                    }
                    return None;
                },
            }
            i += 1;
        }
        proof {
            assert(entries@.take(i as int) =~= entries@);
        }
    } else {
        proof {
            assert(property_views(out@) =~= Seq::empty());
        }
    }
    Some(out)
}

proof fn lemma_prefix_fails(entries: Seq<(MenuValue, MenuValue)>, k: int)
    requires
        0 <= k <= entries.len(),
        entry_properties(entries.take(k)) is None,
    ensures
        entry_properties(entries) is None,
    decreases entries.len(),
{
    if k == entries.len() {
        assert(entries.take(k) =~= entries);
    } else {
        assert(entries.drop_last().take(k) =~= entries.take(k));
        lemma_prefix_fails(entries.drop_last(), k);
    }
}

fn find_property<'a>(props: &Vec<Property<'a>>, name: &str) -> (r: Option<&'a MenuValue>)
    ensures
        match r {
            Some(v) => lookup(property_views(props@), name@) == Some(*v),
            None => lookup(property_views(props@), name@) is None,
        },
{
    let ghost all = property_views(props@);
    let mut i: usize = props.len();
    proof {
        assert(all.take(i as int) =~= all);
    }
    while i > 0
        invariant
            i <= props@.len(),
            all == property_views(props@),
            lookup(all, name@) == lookup(all.take(i as int), name@),
        decreases i,
    {
        proof {
            assert(all.take(i as int).drop_last() =~= all.take(i - 1));
            assert(all.take(i as int).last() == all[i - 1]);
        }
        if same(props[i - 1].name.as_str(), name) {
            return Some(props[i - 1].value);
        }
        i -= 1;
    }
    None
}

/// A property that is text.
pub fn property_string(props: &Vec<Property>, key: &str) -> (r: Option<String>)
    ensures
        match r {
            Some(s) => text_property(property_views(props@), key@) == Some(s@),
            None => text_property(property_views(props@), key@) is None,
        },
{
    match find_property(props, key) {
        Some(v) => match unwrap_variant(v) {
            MenuValue::Str(s) => Some(s.clone()),
            _ => None,
        },
        None => None,
    }
}

/// A property that is a truth value.
pub fn property_bool(props: &Vec<Property>, key: &str) -> (r: Option<bool>)
    ensures
        r == bool_property(property_views(props@), key@),
{
    match find_property(props, key) {
        Some(v) => match unwrap_variant(v) {
            MenuValue::Bool(b) => Some(*b),
            _ => None,
        },
        None => None,
    }
}

/// A property that is a 32-bit number.
pub fn property_i32(props: &Vec<Property>, key: &str) -> (r: Option<i32>)
    ensures
        r == i32_property(property_views(props@), key@),
{
    match find_property(props, key) {
        Some(v) => match unwrap_variant(v) {
            MenuValue::I32(n) => Some(*n),
            _ => None,
        },
        None => None,
    }
}

/// A text without its underscores.
fn remove_marks(s: &str) -> (r: String)
    ensures
        r@ == without_marks(s@),
{
    let v = chars_of(s);
    let mut r = String::new();
    let mut i: usize = 0;
    proof {
        assert(s@.take(0) =~= Seq::<char>::empty());
    }
    while i < v.len()
        invariant
            v@ == s@,
            i <= v@.len(),
            r@ == without_marks(s@.take(i as int)),
        decreases v@.len() - i,
    {
        proof {
            assert(s@.take(i + 1).drop_last() =~= s@.take(i as int));
        }
        if v[i] != '_' {
            r.push(v[i]);
        }
        i += 1;
    }
    proof {
        assert(s@.take(i as int) =~= s@);
    }
    r
}

/// The menu item that a value of a layout describes, if it describes one.
fn parse_item(value: &MenuValue) -> (r: Option<MenuItem>)
    ensures
        match r {
            Some(item) => layout_item(*value) == Some(item.deep()),
            None => layout_item(*value) is None,
        },
    decreases value,
{
    let fields = match value {
        MenuValue::Structure(fields) => fields,
        _ => {
            return None;
        },
    };
    if fields.len() < 3 {
        return None;
    }
    let id: i32 = match &fields[0] {
        MenuValue::I32(id) => *id,
        _ => {
            return None;
        },
    };
    let props = match properties(&fields[1]) {
        Some(props) => props,
        None => {
            return None;
        },
    };
    let ghost pv = property_views(props@);
    let children: Vec<MenuItem> = match &fields[2] {
        MenuValue::Array(list) => parse_menu_layout(list),
        _ => Vec::new(),
    };
    proof {
        if !(fields@[2] is Array) {
            assert(menu_views(children@) =~= Seq::<MenuItemView>::empty());
        }
    }
    let label = match property_string(&props, "label") {
        Some(s) => remove_marks(s.as_str()),
        None => String::new(),
    };
    let enabled: bool = match property_bool(&props, "enabled") {
        Some(b) => b,
        None => true,
    };
    let visible: bool = match property_bool(&props, "visible") {
        Some(b) => b,
        None => true,
    };
    let is_separator: bool = match property_string(&props, "type") {
        Some(s) => same(s.as_str(), "separator"),
        None => false,
    };
    let toggle_type = match property_string(&props, "toggle-type") {
        Some(s) => s,
        None => String::new(),
    };
    let toggle_state: i32 = match property_i32(&props, "toggle-state") {
        Some(n) => n,
        None => 0,
    };
    let item = MenuItem {
        id,
        label,
        enabled,
        visible,
        is_separator,
        toggle_type,
        toggle_state,
        children,
    };
    proof {
        assert(item.deep().children =~= menu_views(children@));
        assert(item.deep() == menu_item(id, pv, menu_views(children@)));
    }
    Some(item)
}

/// The menu that the children of a layout describe.
pub fn parse_menu_layout(children: &Vec<MenuValue>) -> (r: Vec<MenuItem>)
    ensures
        menu_views(r@) == layout_items(children@),
    decreases children,
{
    let mut out: Vec<MenuItem> = Vec::new();
    let mut i: usize = 0;
    proof {
        assert(children@.take(0) =~= Seq::<MenuValue>::empty());
        assert(menu_views(out@) =~= Seq::<MenuItemView>::empty());
    }
    while i < children.len()
        invariant
            i <= children@.len(),
            menu_views(out@) == layout_items(children@.take(i as int)),
        decreases children@.len() - i,
    {
        let ghost upto = children@.take(i + 1);
        proof {
            assert(upto.drop_last() =~= children@.take(i as int));
            assert(upto[upto.len() - 1] == children@[i as int]);
        }
        let ghost before = menu_views(out@);
        if let Some(item) = parse_item(&children[i]) {
            out.push(item);
            proof {
                assert(menu_views(out@) =~= before.push(item.deep()));
            }
        }
        i += 1;
    }
    proof {
        assert(children@.take(i as int) =~= children@);
    }
    out
}

proof fn lemma_without_marks(s: Seq<char>)
    ensures
        !without_marks(s).contains('_'),
    decreases s.len(),
{
    if s.len() > 0 {
        let rest = without_marks(s.drop_last());
        lemma_without_marks(s.drop_last());
        assert forall|i: int| 0 <= i < without_marks(s).len() implies #[trigger] without_marks(s)[i]
            != '_' by {
            if i < rest.len() {
                assert(rest.contains(rest[i]));
            }
        }
    }
}

/// Whether neither the label of a menu item nor that of any item below it holds the mark of a key.
pub open spec fn is_unmarked(item: MenuItemView) -> bool
    decreases item,
{
    &&& !item.label.contains('_')
    &&& forall|i: int| 0 <= i < item.children.len() ==> is_unmarked(#[trigger] item.children[i])
}

proof fn lemma_unmarked(v: MenuValue)
    ensures
        layout_item(v) matches Some(item) ==> is_unmarked(item),
    decreases v,
{
    if let MenuValue::Structure(fields) = v {
        if let Some(item) = layout_item(v) {
            if let Some(props) = value_properties(fields@[1]) {
                if let Some(s) = text_property(props, "label"@) {
                    lemma_without_marks(s);
                }
            }
            if let MenuValue::Array(list) = fields@[2] {
                assert(item.children == layout_items(list@));
                assert forall|i: int| 0 <= i < item.children.len() implies is_unmarked(
                    #[trigger] item.children[i],
                ) by {
                    law_labels_have_no_marks(list@, i);
                }
            }
        }
    }
}

/// No label of a menu shows the mark of a key, at whatever depth it stands.
pub proof fn law_labels_have_no_marks(values: Seq<MenuValue>, k: int)
    requires
        0 <= k < layout_items(values).len(),
    ensures
        is_unmarked(layout_items(values)[k]),
    decreases values,
{
    let v = values[values.len() - 1];
    let rest = layout_items(values.drop_last());
    if k < rest.len() {
        law_labels_have_no_marks(values.drop_last(), k);
    } else {
        assert(layout_items(values) == rest.push(layout_item(v)->0));
        lemma_unmarked(v);
    }
}

/// Each value of a layout stands for its own items: the items of two parts are those of the one
/// followed by those of the other.
pub proof fn law_layout_of_two_parts(a: Seq<MenuValue>, b: Seq<MenuValue>)
    ensures
        layout_items(a + b) == layout_items(a) + layout_items(b),
    decreases b.len(),
{
    if b.len() == 0 {
        assert(a + b =~= a);
        assert(layout_items(a) + layout_items(b) =~= layout_items(a));
    } else {
        assert((a + b).drop_last() =~= a + b.drop_last());
        assert((a + b).last() == b.last());
        law_layout_of_two_parts(a, b.drop_last());
        match layout_item(b.last()) {
            Some(item) => {
                assert(layout_items(a) + layout_items(b.drop_last()).push(item) =~= (layout_items(a)
                    + layout_items(b.drop_last())).push(item));
            },
            None => {},
        }
    }
}

// ---------------------------------------------------------------------------
// Properties
// ---------------------------------------------------------------------------

// The entry `i` of a dictionary gives the property of a name: it has the name, and no later entry has
// it.
spec fn gives(entries: Seq<(MenuValue, MenuValue)>, i: int, name: Seq<char>) -> bool {
    &&& 0 <= i < entries.len()
    &&& has_name(entries[i], name)
    &&& forall|j: int| i < j < entries.len() ==> !has_name(#[trigger] entries[j], name)
}

// Whether an entry of a dictionary has a name.
spec fn has_name(entry: (MenuValue, MenuValue), name: Seq<char>) -> bool {
    match entry.0 {
        MenuValue::Str(s) => s@ == name,
        MenuValue::Variant(inner) => match *inner {
            MenuValue::Str(s) => s@ == name,
            _ => false,
        },
        _ => false,
    }
}

// Whether every name of a dictionary is text, or a variant of text.
spec fn is_named(entries: Seq<(MenuValue, MenuValue)>) -> bool {
    forall|i: int| 0 <= i < entries.len() ==> as_text(unwrapped((#[trigger] entries[i]).0)) is Some
}

proof fn lemma_properties(entries: Seq<(MenuValue, MenuValue)>)
    requires
        is_named(entries),
    ensures
        entry_properties(entries) is Some,
        entry_properties(entries)->0.len() == entries.len(),
        forall|i: int|
            0 <= i < entries.len() ==> {
                &&& has_name(entries[i], (#[trigger] entry_properties(entries)->0[i]).0)
                &&& entry_properties(entries)->0[i].1 == unwrapped(entries[i].1)
            },
    decreases entries.len(),
{
    if entries.len() > 0 {
        let rest = entries.drop_last();
        assert forall|i: int| 0 <= i < rest.len() implies as_text(
            unwrapped((#[trigger] rest[i]).0),
        ) is Some by {
            assert(rest[i] == entries[i]);
        }
        lemma_properties(rest);
        let last = entries[entries.len() - 1];
        let name = as_text(unwrapped(last.0))->0;
        assert(has_name(last, name));
        let props = entry_properties(entries)->0;
        assert forall|i: int| 0 <= i < entries.len() implies {
            &&& has_name(entries[i], (#[trigger] props[i]).0)
            &&& props[i].1 == unwrapped(entries[i].1)
        } by {
            if i < rest.len() {
                assert(props[i] == entry_properties(rest)->0[i]);
                assert(rest[i] == entries[i]);
            }
        }
    }
}

proof fn lemma_one_name(entry: (MenuValue, MenuValue), a: Seq<char>, b: Seq<char>)
    requires
        has_name(entry, a),
        has_name(entry, b),
    ensures
        a == b,
{
}

proof fn lemma_lookup(entries: Seq<(MenuValue, MenuValue)>, name: Seq<char>)
    requires
        is_named(entries),
    ensures
        forall|i: int| #[trigger]
            gives(entries, i, name) ==> lookup(entry_properties(entries)->0, name) == Some(
                unwrapped(entries[i].1),
            ),
        (forall|j: int| 0 <= j < entries.len() ==> !has_name(#[trigger] entries[j], name))
            ==> lookup(entry_properties(entries)->0, name) is None,
{
    lemma_properties(entries);
    let props = entry_properties(entries)->0;
    assert forall|i: int| #[trigger] gives(entries, i, name) implies lookup(props, name) == Some(
        unwrapped(entries[i].1),
    ) by {
        assert(has_name(entries[i], props[i].0));
        lemma_one_name(entries[i], name, props[i].0);
        assert forall|j: int| i < j < props.len() implies (#[trigger] props[j]).0 != name by {
            assert(has_name(entries[j], props[j].0));
        }
        lemma_lookup_last(props, name, i);
    }
    if forall|j: int| 0 <= j < entries.len() ==> !has_name(#[trigger] entries[j], name) {
        assert forall|j: int| 0 <= j < props.len() implies (#[trigger] props[j]).0 != name by {
            assert(has_name(entries[j], props[j].0));
        }
        lemma_lookup_none(props, name);
    }
}

proof fn lemma_lookup_last(props: Seq<(Seq<char>, MenuValue)>, name: Seq<char>, i: int)
    requires
        0 <= i < props.len(),
        props[i].0 == name,
        forall|j: int| i < j < props.len() ==> (#[trigger] props[j]).0 != name,
    ensures
        lookup(props, name) == Some(props[i].1),
    decreases props.len(),
{
    if i < props.len() - 1 {
        assert(props[props.len() - 1].0 != name);
        lemma_lookup_last(props.drop_last(), name, i);
    }
}

proof fn lemma_lookup_none(props: Seq<(Seq<char>, MenuValue)>, name: Seq<char>)
    requires
        forall|j: int| 0 <= j < props.len() ==> (#[trigger] props[j]).0 != name,
    ensures
        lookup(props, name) is None,
    decreases props.len(),
{
    if props.len() > 0 {
        assert(props[props.len() - 1].0 != name);
        assert forall|j: int| 0 <= j < props.drop_last().len() implies (
        #[trigger] props.drop_last()[j]).0 != name by {
            assert(props.drop_last()[j] == props[j]);
        }
        lemma_lookup_none(props.drop_last(), name);
    }
}


proof fn lemma_named(entries: Seq<(MenuValue, MenuValue)>)
    requires
        forall|j: int| 0 <= j < entries.len() ==> (#[trigger] entries[j]).0 is Str,
    ensures
        is_named(entries),
        forall|j: int, name: Seq<char>|
            0 <= j < entries.len() ==> (#[trigger] has_name(entries[j], name) <==> entries[j].0->Str_0@
                == name),
{
}

/// A structure of a number, a dictionary with names and a list describes an item: it has the number,
/// and below it the items that the list describes. Nothing but a structure that starts with a number
/// describes one.
pub proof fn law_items_are_structures(
    v: MenuValue,
    fields: Vec<MenuValue>,
    id: i32,
    entries: Vec<(MenuValue, MenuValue)>,
    list: Vec<MenuValue>,
    other: MenuValue,
)
    requires
        v == MenuValue::Structure(fields),
        fields@.len() >= 3,
        fields@[0] == MenuValue::I32(id),
        fields@[1] == MenuValue::Dict(entries),
        forall|j: int| 0 <= j < entries@.len() ==> (#[trigger] entries@[j]).0 is Str,
        fields@[2] == MenuValue::Array(list),
        !(other is Structure) || other->Structure_0@.len() < 3 || !(other->Structure_0@[0] is I32),
    ensures
        layout_item(v) is Some,
        layout_item(v)->0.id == id,
        layout_item(v)->0.children == layout_items(list@),
        layout_item(other) is None,
{
    lemma_named(entries@);
    lemma_properties(entries@);
}

/// A layout describes its items one by one: each value that describes an item adds it, and any other
/// adds none.
pub proof fn law_layout_of_one(v: MenuValue)
    ensures
        layout_items(seq![v]) == (match layout_item(v) {
            Some(item) => seq![item],
            None => Seq::empty(),
        }),
        layout_items(Seq::empty()) == Seq::<MenuItemView>::empty(),
{
    let one = seq![v];
    assert(one.drop_last() =~= Seq::empty());
    assert(one[one.len() - 1] == v);
    assert(layout_items(one.drop_last()) =~= Seq::empty());
    assert(layout_items(one) =~= (match layout_item(v) {
        Some(item) => seq![item],
        None => Seq::empty(),
    }));
}

/// A property that is text counts for what it says, in a variant or not: an item is a separator exactly
/// if its type is `separator`, its label is the text without marks, and its toggle type is the text.
pub proof fn law_text_properties(
    v: MenuValue,
    fields: Vec<MenuValue>,
    id: i32,
    entries: Vec<(MenuValue, MenuValue)>,
    i: int,
    name: Seq<char>,
    text: String,
)
    requires
        v == MenuValue::Structure(fields),
        fields@.len() >= 3,
        fields@[0] == MenuValue::I32(id),
        fields@[1] == MenuValue::Dict(entries),
        forall|j: int| 0 <= j < entries@.len() ==> (#[trigger] entries@[j]).0 is Str,
        0 <= i < entries@.len(),
        entries@[i].0->Str_0@ == name,
        forall|j: int| i < j < entries@.len() ==> (#[trigger] entries@[j]).0->Str_0@ != name,
        entries@[i].1 == MenuValue::Str(text) || (entries@[i].1 is Variant
            && *entries@[i].1->Variant_0 == MenuValue::Str(text)),
    ensures
        layout_item(v) is Some,
        name == "type"@ ==> (layout_item(v)->0.is_separator <==> text@ == "separator"@),
        name == "label"@ ==> layout_item(v)->0.label == without_marks(text@),
        name == "toggle-type"@ ==> layout_item(v)->0.toggle_type == text@,
{
    lemma_named(entries@);
    lemma_properties(entries@);
    lemma_lookup(entries@, name);
    assert forall|j: int| i < j < entries@.len() implies !has_name(#[trigger] entries@[j], name) by {
        assert(entries@[j].0->Str_0@ != name);
    }
    assert(has_name(entries@[i], name));
    assert(gives(entries@, i, name));
    assert(text_property(entry_properties(entries@)->0, name) == Some(text@));
}

/// A property that is a truth value counts for what it says, in a variant or not.
pub proof fn law_truth_properties(
    v: MenuValue,
    fields: Vec<MenuValue>,
    id: i32,
    entries: Vec<(MenuValue, MenuValue)>,
    i: int,
    name: Seq<char>,
    truth: bool,
)
    requires
        v == MenuValue::Structure(fields),
        fields@.len() >= 3,
        fields@[0] == MenuValue::I32(id),
        fields@[1] == MenuValue::Dict(entries),
        forall|j: int| 0 <= j < entries@.len() ==> (#[trigger] entries@[j]).0 is Str,
        0 <= i < entries@.len(),
        entries@[i].0->Str_0@ == name,
        forall|j: int| i < j < entries@.len() ==> (#[trigger] entries@[j]).0->Str_0@ != name,
        entries@[i].1 == MenuValue::Bool(truth) || (entries@[i].1 is Variant
            && *entries@[i].1->Variant_0 == MenuValue::Bool(truth)),
    ensures
        layout_item(v) is Some,
        name == "enabled"@ ==> layout_item(v)->0.enabled == truth,
        name == "visible"@ ==> layout_item(v)->0.visible == truth,
{
    lemma_named(entries@);
    lemma_properties(entries@);
    lemma_lookup(entries@, name);
    assert forall|j: int| i < j < entries@.len() implies !has_name(#[trigger] entries@[j], name) by {
        assert(entries@[j].0->Str_0@ != name);
    }
    assert(has_name(entries@[i], name));
    assert(gives(entries@, i, name));
    assert(bool_property(entry_properties(entries@)->0, name) == Some(truth));
}

/// A property that is a number counts for what it says, in a variant or not.
pub proof fn law_number_properties(
    v: MenuValue,
    fields: Vec<MenuValue>,
    id: i32,
    entries: Vec<(MenuValue, MenuValue)>,
    i: int,
    name: Seq<char>,
    number: i32,
)
    requires
        v == MenuValue::Structure(fields),
        fields@.len() >= 3,
        fields@[0] == MenuValue::I32(id),
        fields@[1] == MenuValue::Dict(entries),
        forall|j: int| 0 <= j < entries@.len() ==> (#[trigger] entries@[j]).0 is Str,
        0 <= i < entries@.len(),
        entries@[i].0->Str_0@ == name,
        forall|j: int| i < j < entries@.len() ==> (#[trigger] entries@[j]).0->Str_0@ != name,
        name == "toggle-state"@,
        entries@[i].1 == MenuValue::I32(number) || (entries@[i].1 is Variant
            && *entries@[i].1->Variant_0 == MenuValue::I32(number)),
    ensures
        layout_item(v) is Some,
        layout_item(v)->0.toggle_state == number,
{
    lemma_named(entries@);
    lemma_properties(entries@);
    lemma_lookup(entries@, name);
    assert forall|j: int| i < j < entries@.len() implies !has_name(#[trigger] entries@[j], name) by {
        assert(entries@[j].0->Str_0@ != name);
    }
    assert(has_name(entries@[i], name));
    assert(gives(entries@, i, name));
    assert(i32_property(entry_properties(entries@)->0, name) == Some(number));
}

/// A property that is missing leaves the item as most are: shown, enabled, no separator, without a
/// label and not to be switched.
pub proof fn law_missing_properties(
    v: MenuValue,
    fields: Vec<MenuValue>,
    id: i32,
    entries: Vec<(MenuValue, MenuValue)>,
    name: Seq<char>,
)
    requires
        v == MenuValue::Structure(fields),
        fields@.len() >= 3,
        fields@[0] == MenuValue::I32(id),
        fields@[1] == MenuValue::Dict(entries),
        forall|j: int| 0 <= j < entries@.len() ==> (#[trigger] entries@[j]).0 is Str,
        forall|j: int| 0 <= j < entries@.len() ==> (#[trigger] entries@[j]).0->Str_0@ != name,
    ensures
        layout_item(v) is Some,
        name == "type"@ ==> !layout_item(v)->0.is_separator,
        name == "label"@ ==> layout_item(v)->0.label.len() == 0,
        name == "toggle-type"@ ==> layout_item(v)->0.toggle_type.len() == 0,
        name == "enabled"@ ==> layout_item(v)->0.enabled,
        name == "visible"@ ==> layout_item(v)->0.visible,
        name == "toggle-state"@ ==> layout_item(v)->0.toggle_state == 0,
{
    lemma_named(entries@);
    lemma_properties(entries@);
    lemma_lookup(entries@, name);
    assert forall|j: int| 0 <= j < entries@.len() implies !has_name(#[trigger] entries@[j], name) by {
        assert(entries@[j].0->Str_0@ != name);
    }
    assert(lookup(entry_properties(entries@)->0, name) is None);
}

/// A property of another kind than it should have counts as missing.
pub proof fn law_properties_of_another_kind(
    v: MenuValue,
    fields: Vec<MenuValue>,
    id: i32,
    entries: Vec<(MenuValue, MenuValue)>,
    i: int,
    name: Seq<char>,
)
    requires
        v == MenuValue::Structure(fields),
        fields@.len() >= 3,
        fields@[0] == MenuValue::I32(id),
        fields@[1] == MenuValue::Dict(entries),
        forall|j: int| 0 <= j < entries@.len() ==> (#[trigger] entries@[j]).0 is Str,
        0 <= i < entries@.len(),
        entries@[i].0->Str_0@ == name,
        forall|j: int| i < j < entries@.len() ==> (#[trigger] entries@[j]).0->Str_0@ != name,
        entries@[i].1 is I32 || entries@[i].1 is Bool || entries@[i].1 is Str || entries@[i].1 is Other,
    ensures
        layout_item(v) is Some,
        name == "type"@ && !(entries@[i].1 is Str) ==> !layout_item(v)->0.is_separator,
        name == "label"@ && !(entries@[i].1 is Str) ==> layout_item(v)->0.label.len() == 0,
        name == "toggle-type"@ && !(entries@[i].1 is Str) ==> layout_item(v)->0.toggle_type.len() == 0,
        name == "enabled"@ && !(entries@[i].1 is Bool) ==> layout_item(v)->0.enabled,
        name == "visible"@ && !(entries@[i].1 is Bool) ==> layout_item(v)->0.visible,
        name == "toggle-state"@ && !(entries@[i].1 is I32) ==> layout_item(v)->0.toggle_state == 0,
{
    lemma_named(entries@);
    lemma_properties(entries@);
    lemma_lookup(entries@, name);
    assert forall|j: int| i < j < entries@.len() implies !has_name(#[trigger] entries@[j], name) by {
        assert(entries@[j].0->Str_0@ != name);
    }
    assert(has_name(entries@[i], name));
    assert(gives(entries@, i, name));
    assert(lookup(entry_properties(entries@)->0, name) == Some(entries@[i].1));
}

/// Marks are taken out of a text one by one, and every other character stays in its order.
pub proof fn law_marks_are_taken_out(a: Seq<char>, b: Seq<char>, c: char)
    ensures
        without_marks(a + b) == without_marks(a) + without_marks(b),
        without_marks(seq![c]) == (if c == '_' {
            Seq::<char>::empty()
        } else {
            seq![c]
        }),
    decreases b.len(),
{
    let one = seq![c];
    assert(one.drop_last() =~= Seq::empty());
    assert(without_marks(one.drop_last()) =~= Seq::empty());
    assert(one.last() == c);
    assert(without_marks(one) =~= (if c == '_' {
        Seq::<char>::empty()
    } else {
        seq![c]
    }));
    if b.len() == 0 {
        assert(a + b =~= a);
        assert(without_marks(b) =~= Seq::empty());
        assert(without_marks(a) + without_marks(b) =~= without_marks(a));
    } else {
        assert((a + b).drop_last() =~= a + b.drop_last());
        assert((a + b).last() == b.last());
        law_marks_are_taken_out(a, b.drop_last(), c);
        assert(without_marks(a + b) =~= without_marks(a) + without_marks(b));
    }
}

} // verus!
