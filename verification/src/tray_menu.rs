//! Reading the menus that tray items hand over.

use vstd::prelude::*;
use crate::text::{chars_of, same, Text};

verus! {

// --- labels -------------------------------------------------------------------------------

/// A label without the marks of its shortcut: a low line is dropped, and two of them
/// stand for one.
pub open spec fn unmarked(s: Text) -> Text
    decreases s.len(),
{
    if s.len() == 0 {
        Seq::empty()
    } else if s[0] != '_' {
        seq![s[0]] + unmarked(s.drop_first())
    } else if s.len() > 1 && s[1] == '_' {
        seq!['_'] + unmarked(s.skip(2))
    } else {
        unmarked(s.drop_first())
    }
}

/// Drops the marks of a label's shortcut.
pub fn strip_mnemonics(label: &str) -> (r: String)
    ensures
        r@ == unmarked(label@),
{
    let v = chars_of(label);
    let mut out = String::new();
    let mut i: usize = 0;
    assert(v@.skip(0) =~= v@);
    assert(out@ + unmarked(v@) =~= unmarked(v@));
    while i < v.len()
        invariant
            i <= v@.len(),
            out@ + unmarked(v@.skip(i as int)) == unmarked(v@),
        decreases v@.len() - i,
    {
        let ghost rest = v@.skip(i as int);
        let ghost before = out@;
        assert(rest[0] == v@[i as int]);
        assert(rest.drop_first() =~= v@.skip(i + 1));
        if v[i] != '_' {
            out.push(v[i]);
            assert(before + (seq![v@[i as int]] + unmarked(v@.skip(i + 1))) =~= out@ + unmarked(
                v@.skip(i + 1),
            ));
            i += 1;
        } else if v.len() - i > 1 && v[i + 1] == '_' {
            assert(rest[1] == v@[i + 1]);
            assert(rest.skip(2) =~= v@.skip(i + 2));
            out.push('_');
            assert(before + (seq!['_'] + unmarked(v@.skip(i + 2))) =~= out@ + unmarked(
                v@.skip(i + 2),
            ));
            i += 2;
        } else {
            proof {
                if rest.len() > 1 {
                    assert(rest[1] == v@[i + 1]);
                }
            }
            i += 1;
        }
    }
    assert(unmarked(v@.skip(i as int)) =~= Seq::<char>::empty());
    assert(out@ + Seq::<char>::empty() =~= out@);
    out
}

/// A label without low lines has no marks.
pub proof fn law_unmarked_stays(s: Text)
    requires
        !s.contains('_'),
    ensures
        unmarked(s) == s,
    decreases s.len(),
{
    if s.len() > 0 {
        assert(s.contains(s[0]));
        let rest = s.drop_first();
        assert(!rest.contains('_')) by {
            if rest.contains('_') {
                let i = choose|i: int| 0 <= i < rest.len() && rest[i] == '_';
                assert(s[i + 1] == '_');
            }
        }
        law_unmarked_stays(rest);
        assert(seq![s[0]] + rest =~= s);
    }
}

/// A text with every low line doubled.
pub open spec fn doubled(s: Text) -> Text
    decreases s.len(),
{
    if s.len() == 0 {
        Seq::empty()
    } else if s[0] == '_' {
        seq!['_', '_'] + doubled(s.drop_first())
    } else {
        seq![s[0]] + doubled(s.drop_first())
    }
}

/// Whatever a label is to show can be said: with its low lines doubled it is shown as it
/// was.
pub proof fn law_doubled_shown(s: Text)
    ensures
        unmarked(doubled(s)) == s,
    decreases s.len(),
{
    if s.len() > 0 {
        let rest = s.drop_first();
        law_doubled_shown(rest);
        let d = doubled(s);
        if s[0] == '_' {
            assert(d[0] == '_' && d[1] == '_');
            assert(d.skip(2) =~= doubled(rest));
            assert(seq!['_'] + rest =~= s);
        } else {
            assert(d[0] == s[0]);
            assert(d.drop_first() =~= doubled(rest));
            assert(seq![s[0]] + rest =~= s);
        }
    } else {
        assert(unmarked(Seq::<char>::empty()) =~= s);
    }
}

// --- entries ------------------------------------------------------------------------------

/// A value of the layout of a menu.
#[derive(Debug)]
pub enum MenuValue {
    Str(String),
    Bool(bool),
    I32(i32),
    I16(i16),
    U32(u32),
    U8(u8),
    /// A value in a wrapping.
    Variant(Box<MenuValue>),
    Structure(Vec<MenuValue>),
    Dict(Vec<(MenuValue, MenuValue)>),
    Array(Vec<MenuValue>),
    /// Any other value.
    Other,
}

/// The text that a value is.
pub open spec fn as_text(v: MenuValue) -> Option<Text> {
    match v {
        MenuValue::Str(s) => Some(s@),
        _ => None,
    }
}

/// Whether a value says yes or no.
pub open spec fn as_flag(v: MenuValue) -> Option<bool> {
    match v {
        MenuValue::Bool(b) => Some(b),
        _ => None,
    }
}

/// The number that a value is; a large one without a sign stands for a negative one.
pub open spec fn as_number(v: MenuValue) -> Option<i32> {
    match v {
        MenuValue::I32(i) => Some(i),
        MenuValue::I16(i) => Some(i as i32),
        MenuValue::U32(i) => Some(i as i32),
        MenuValue::U8(i) => Some(i as i32),
        _ => None,
    }
}

/// Reads the text that a value is.
pub fn menu_as_str(v: &MenuValue) -> (r: Option<String>)
    ensures
        r.deep_view() == as_text(*v),
{
    match v {
        MenuValue::Str(s) => Some(s.clone()),
        _ => None,
    }
}

/// Reads whether a value says yes or no.
pub fn menu_as_bool(v: &MenuValue) -> (r: Option<bool>)
    ensures
        r == as_flag(*v),
{
    match v {
        MenuValue::Bool(b) => Some(*b),
        _ => None,
    }
}

/// Reads the number that a value is.
pub fn menu_as_i32(v: &MenuValue) -> (r: Option<i32>)
    ensures
        r == as_number(*v),
{
    match v {
        MenuValue::I32(i) => Some(*i),
        MenuValue::I16(i) => Some(*i as i32),
        MenuValue::U32(i) => Some(*i as i32),
        MenuValue::U8(i) => Some(*i as i32),
        _ => None,
    }
}

/// A value out of its wrapping.
pub open spec fn unwrapped(v: MenuValue) -> MenuValue {
    match v {
        MenuValue::Variant(inner) => *inner,
        _ => v,
    }
}

/// What a name stands for among pairs, out of its wrapping: the last of its pairs counts.
pub open spec fn property(pairs: Seq<(MenuValue, MenuValue)>, name: Text) -> Option<MenuValue>
    decreases pairs.len(),
{
    if pairs.len() == 0 {
        None
    } else if as_text(pairs.last().0) == Some(name) {
        Some(unwrapped(pairs.last().1))
    } else {
        property(pairs.drop_last(), name)
    }
}

/// The properties of an entry.
pub open spec fn pairs_of(v: MenuValue) -> Seq<(MenuValue, MenuValue)> {
    match v {
        MenuValue::Dict(d) => d@,
        _ => Seq::empty(),
    }
}

/// The text of a property.
pub open spec fn text_of(pairs: Seq<(MenuValue, MenuValue)>, name: Text) -> Option<Text> {
    match property(pairs, name) {
        Some(v) => as_text(v),
        None => None,
    }
}

/// Whether a property says yes; yes where it does not say.
pub open spec fn flag_of(pairs: Seq<(MenuValue, MenuValue)>, name: Text) -> bool {
    match property(pairs, name) {
        Some(v) => match as_flag(v) {
            Some(b) => b,
            None => true,
        },
        None => true,
    }
}

/// An entry as it was read. The icon is only named.
#[derive(Debug)]
pub struct MenuItem {
    pub id: i32,
    pub label: String,
    pub enabled: bool,
    pub visible: bool,
    pub is_separator: bool,
    pub has_submenu: bool,
    pub toggle_type: u8,
    pub toggle_state: i32,
    pub icon_name: Option<String>,
    pub children: Vec<MenuItem>,
}

/// An entry as it was read, its strings as texts.
#[verifier::ext_equal]
pub ghost struct ItemModel {
    pub id: i32,
    pub label: Text,
    pub enabled: bool,
    pub visible: bool,
    pub is_separator: bool,
    pub has_submenu: bool,
    pub toggle_type: u8,
    pub toggle_state: i32,
    pub icon_name: Option<Text>,
    pub children: Seq<ItemModel>,
}

/// Whether an entry is the one that the model says.
pub open spec fn is_item(i: MenuItem, m: ItemModel) -> bool
    decreases i,
{
    &&& i.id == m.id
    &&& i.label@ == m.label
    &&& i.enabled == m.enabled
    &&& i.visible == m.visible
    &&& i.is_separator == m.is_separator
    &&& i.has_submenu == m.has_submenu
    &&& i.toggle_type == m.toggle_type
    &&& i.toggle_state == m.toggle_state
    &&& i.icon_name.deep_view() == m.icon_name
    &&& i.children@.len() == m.children.len()
    &&& forall|k: int|
        0 <= k < i.children@.len() ==> is_item(#[trigger] i.children@[k], m.children[k])
}

/// Whether entries are those that the models say.
pub open spec fn are_items(is: Seq<MenuItem>, ms: Seq<ItemModel>) -> bool {
    &&& is.len() == ms.len()
    &&& forall|k: int| 0 <= k < is.len() ==> is_item(#[trigger] is[k], ms[k])
}

/// What an entry can be switched with.
pub open spec fn toggle_of(kind: Option<Text>) -> u8 {
    if kind == Some("checkmark"@) {
        1
    } else if kind == Some("radio"@) {
        2
    } else {
        0
    }
}

/// A name that is not empty.
pub open spec fn if_full(name: Option<Text>) -> Option<Text> {
    match name {
        Some(n) => if n.len() == 0 {
            None
        } else {
            name
        },
        None => None,
    }
}

/// The entry of the number, the properties and the entries below it.
pub open spec fn item_with(
    number: MenuValue,
    pairs: Seq<(MenuValue, MenuValue)>,
    children: Seq<ItemModel>,
) -> ItemModel {
    ItemModel {
        id: match as_number(number) {
            Some(i) => i,
            None => 0,
        },
        label: unmarked(
            match text_of(pairs, "label"@) {
                Some(t) => t,
                None => Seq::empty(),
            },
        ),
        enabled: flag_of(pairs, "enabled"@),
        visible: flag_of(pairs, "visible"@),
        is_separator: text_of(pairs, "type"@) == Some("separator"@),
        has_submenu: text_of(pairs, "children-display"@) == Some("submenu"@),
        toggle_type: toggle_of(text_of(pairs, "toggle-type"@)),
        toggle_state: match property(pairs, "toggle-state"@) {
            Some(v) => match as_number(v) {
                Some(i) => i,
                None => -1i32,
            },
            None => -1i32,
        },
        icon_name: if_full(text_of(pairs, "icon-name"@)),
        children,
    }
}

/// The entry that a value is: a structure of a number, properties and entries below it.
pub open spec fn item_of(v: MenuValue) -> Option<ItemModel>
    decreases v, 0nat,
{
    match v {
        MenuValue::Variant(inner) => match *inner {
            MenuValue::Structure(fields) => if fields@.len() < 3 {
                None
            } else {
                Some(item_with(fields@[0], pairs_of(fields@[1]), items_in(fields@[2])))
            },
            _ => None,
        },
        MenuValue::Structure(fields) => if fields@.len() < 3 {
            None
        } else {
            Some(item_with(fields@[0], pairs_of(fields@[1]), items_in(fields@[2])))
        },
        _ => None,
    }
}

/// The entries in an array.
pub open spec fn items_in(v: MenuValue) -> Seq<ItemModel>
    decreases v, 0nat,
{
    match v {
        MenuValue::Array(a) => items_of(a@, a@.len()),
        _ => Seq::empty(),
    }
}

/// The entries that the first `n` of some values are; those that are none are left out.
pub open spec fn items_of(vs: Seq<MenuValue>, n: nat) -> Seq<ItemModel>
    decreases vs, n,
{
    if n == 0 || n > vs.len() {
        Seq::empty()
    } else {
        let front = items_of(vs, (n - 1) as nat);
        match item_of(vs[n - 1]) {
            Some(m) => front.push(m),
            None => front,
        }
    }
}

/// Finds what a name stands for among pairs.
fn find_property<'a>(pairs: &'a Vec<(MenuValue, MenuValue)>, name: &str) -> (r: Option<&'a MenuValue>)
    ensures
        match (r, property(pairs@, name@)) {
            (Some(v), Some(m)) => *v == m,
            (None, None) => true,
            _ => false,
        },
{
    let mut i: usize = pairs.len();
    assert(pairs@.take(i as int) =~= pairs@);
    while i > 0
        invariant
            i <= pairs@.len(),
            property(pairs@.take(i as int), name@) == property(pairs@, name@),
        decreases i,
    {
        assert(pairs@.take(i as int).drop_last() =~= pairs@.take(i - 1));
        assert(pairs@.take(i as int).last() == pairs@[i - 1]);
        let pair = &pairs[i - 1];
        if let MenuValue::Str(k) = &pair.0 {
            if same(k.as_str(), name) {
                return match &pair.1 {
                    MenuValue::Variant(inner) => Some(&**inner),
                    other => Some(other),
                };
            }
        }
        i -= 1;
    }
    None
}

/// Reads the text of a property.
fn read_text(pairs: &Vec<(MenuValue, MenuValue)>, name: &str) -> (r: Option<String>)
    ensures
        r.deep_view() == text_of(pairs@, name@),
{
    match find_property(pairs, name) {
        Some(v) => menu_as_str(v),
        None => None,
    }
}

/// Reads whether a property says yes.
fn read_flag(pairs: &Vec<(MenuValue, MenuValue)>, name: &str) -> (r: bool)
    ensures
        r == flag_of(pairs@, name@),
{
    match find_property(pairs, name) {
        Some(v) => match menu_as_bool(v) {
            Some(b) => b,
            None => true,
        },
        None => true,
    }
}

/// Tells whether a text is there, and is the one.
fn is_text(t: &Option<String>, s: &str) -> (r: bool)
    ensures
        r == (t.deep_view() == Some(s@)),
{
    match t {
        Some(t) => same(t.as_str(), s),
        None => false,
    }
}

/// Makes the entry of the number, the properties and the entries below it.
fn make_item(number: &MenuValue, pairs: &Vec<(MenuValue, MenuValue)>, children: Vec<MenuItem>, Ghost(
    models,
): Ghost<Seq<ItemModel>>) -> (r: MenuItem)
    requires
        are_items(children@, models),
    ensures
        is_item(r, item_with(*number, pairs@, models)),
{
    let id: i32 = match menu_as_i32(number) {
        Some(i) => i,
        None => 0,
    };
    let label = match read_text(pairs, "label") {
        Some(t) => strip_mnemonics(t.as_str()),
        None => {
            let none = String::new();
            assert(none@ =~= Seq::<char>::empty());
            strip_mnemonics(none.as_str())
        },
    };
    let kind = read_text(pairs, "toggle-type");
    let toggle_type: u8 = if is_text(&kind, "checkmark") {
        1
    } else if is_text(&kind, "radio") {
        2
    } else {
        0
    };
    let toggle_state: i32 = match find_property(pairs, "toggle-state") {
        Some(v) => match menu_as_i32(v) {
            Some(i) => i,
            None => -1,
        },
        None => -1,
    };
    let icon_name: Option<String> = match read_text(pairs, "icon-name") {
        Some(n) => if n.as_str().is_empty() {
            None
        } else {
            Some(n)
        },
        None => None,
    };
    MenuItem {
        id,
        label,
        enabled: read_flag(pairs, "enabled"),
        visible: read_flag(pairs, "visible"),
        is_separator: is_text(&read_text(pairs, "type"), "separator"),
        has_submenu: is_text(&read_text(pairs, "children-display"), "submenu"),
        toggle_type,
        toggle_state,
        icon_name,
        children,
    }
}

/// Reads the entry that a value is.
pub fn parse_menu_value(v: &MenuValue) -> (r: Option<MenuItem>)
    ensures
        match (r, item_of(*v)) {
            (Some(i), Some(m)) => is_item(i, m),
            (None, None) => true,
            _ => false,
        },
    decreases v, 0nat,
{
    match v {
        MenuValue::Variant(inner) => match &**inner {
            MenuValue::Structure(fields) => {
                if fields.len() < 3 {
                    return None;
                }
                let children = parse_children(&fields[2]);
                Some(finish_item(fields, children))
            },
            _ => None,
        },
        MenuValue::Structure(fields) => {
            if fields.len() < 3 {
                return None;
            }
            let children = parse_children(&fields[2]);
            Some(finish_item(fields, children))
        },
        _ => None,
    }
}

/// Makes the entry of a structure.
fn finish_item(fields: &Vec<MenuValue>, children: Vec<MenuItem>) -> (r: MenuItem)
    requires
        fields@.len() >= 3,
        are_items(children@, items_in(fields@[2])),
    ensures
        is_item(r, item_with(fields@[0], pairs_of(fields@[1]), items_in(fields@[2]))),
{
    match &fields[1] {
        MenuValue::Dict(d) => make_item(&fields[0], d, children, Ghost(items_in(fields@[2]))),
        _ => {
            let none: Vec<(MenuValue, MenuValue)> = Vec::new();
            assert(none@ =~= pairs_of(fields@[1]));
            make_item(&fields[0], &none, children, Ghost(items_in(fields@[2])))
        },
    }
}

/// Reads the entries in an array.
fn parse_children(v: &MenuValue) -> (r: Vec<MenuItem>)
    ensures
        are_items(r@, items_in(*v)),
    decreases v, 0nat,
{
    match v {
        MenuValue::Array(a) => parse_menu_values(a),
        _ => Vec::new(),
    }
}

/// Reads the entries that some values are.
pub fn parse_menu_values(vs: &Vec<MenuValue>) -> (r: Vec<MenuItem>)
    ensures
        are_items(r@, items_of(vs@, vs@.len())),
    decreases vs@, vs@.len() + 1,
{
    let mut r: Vec<MenuItem> = Vec::new();
    let mut i: usize = 0;
    while i < vs.len()
        invariant
            i <= vs@.len(),
            are_items(r@, items_of(vs@, i as nat)),
        decreases vs@.len() - i,
    {
        let ghost before = items_of(vs@, i as nat);
        if let Some(item) = parse_menu_value(&vs[i]) {
            r.push(item);
        }
        i += 1;
    }
    r
}

} // verus!
