//! Shared definitions that a specification reaches through a `$ref` into a document of
//! `specs/definitions`: which references a document makes, how each is checked, and how
//! the referenced definition is copied into the document under a local alias.

use vstd::prelude::*;
use vstd::string::*;
use crate::semantic::{ascending, insert_name, strings_view};
use crate::model::{DecisionTree, DecisionTreeMatchCase, DecisionTreeSplit, EnumDefinition, EnumType, Input, LookupDefinition, Outputs, TreeDefinition, TreeInput};
use crate::decision::{cases_resolved, input_enum, input_position, node_resolved, tree_resolved};
use crate::semantic::copy_enum_type;
use crate::specs::{slug_message, source_slug, SlugError};
use crate::strings::{chars_of, decimal, push_char};
use crate::validate::is_identifier;

verus! {

/// A JSON document as the specification loader holds it.
#[derive(Debug, PartialEq)]
pub enum JsonValue {
    Null,
    Bool(bool),
    /// A number, in its textual form.
    Number(String),
    Text(String),
    Array(Vec<JsonValue>),
    /// The members, in document order, each key once.
    Object(Vec<(String, JsonValue)>),
}

/// The mathematical form of a JSON value.
pub enum JsonView {
    Null,
    Bool(bool),
    Number(Seq<char>),
    Text(Seq<char>),
    Array(Seq<JsonView>),
    Object(Seq<(Seq<char>, JsonView)>),
}

pub open spec fn json_view(v: JsonValue) -> JsonView
    decreases v,
{
    match v {
        JsonValue::Null => JsonView::Null,
        JsonValue::Bool(b) => JsonView::Bool(b),
        JsonValue::Number(n) => JsonView::Number(n@),
        JsonValue::Text(s) => JsonView::Text(s@),
        JsonValue::Array(items) => JsonView::Array(items_view(items@)),
        JsonValue::Object(entries) => JsonView::Object(entries_view(entries@)),
    }
}

pub open spec fn items_view(items: Seq<JsonValue>) -> Seq<JsonView>
    decreases items,
{
    if items.len() == 0 {
        Seq::empty()
    } else {
        items_view(items.drop_last()).push(json_view(items.last()))
    }
}

pub open spec fn entries_view(entries: Seq<(String, JsonValue)>) -> Seq<(Seq<char>, JsonView)>
    decreases entries,
{
    if entries.len() == 0 {
        Seq::empty()
    } else {
        entries_view(entries.drop_last()).push((entries.last().0@, json_view(entries.last().1)))
    }
}

impl View for JsonValue {
    type V = JsonView;

    open spec fn view(&self) -> JsonView {
        json_view(*self)
    }
}

pub proof fn lemma_items_view(items: Seq<JsonValue>)
    ensures
        items_view(items).len() == items.len(),
        forall|i: int| 0 <= i < items.len() ==> #[trigger] items_view(items)[i] == json_view(items[i]),
    decreases items.len(),
{
    if items.len() > 0 {
        lemma_items_view(items.drop_last());
    }
}

pub proof fn lemma_entries_view(entries: Seq<(String, JsonValue)>)
    ensures
        entries_view(entries).len() == entries.len(),
        forall|i: int| 0 <= i < entries.len() ==> #[trigger] entries_view(entries)[i] == (entries[i].0@, json_view(entries[i].1)),
    decreases entries.len(),
{
    if entries.len() > 0 {
        lemma_entries_view(entries.drop_last());
    }
}

/// `#/$defs/`, the prefix of a reference into the document's own definitions.
pub open spec fn local_prefix() -> Seq<char> {
    seq!['#', '/', '$', 'd', 'e', 'f', 's', '/']
}

/// `$ref`, the key of a reference.
pub open spec fn reference_key() -> Seq<char> {
    seq!['$', 'r', 'e', 'f']
}

/// The position of the first member named `key`, looking from position `i` on.
pub open spec fn find_member_from(entries: Seq<(Seq<char>, JsonView)>, key: Seq<char>, i: int) -> Option<int>
    decreases entries.len() - i,
{
    if i < 0 || i >= entries.len() {
        None
    } else if entries[i].0 == key {
        Some(i)
    } else {
        find_member_from(entries, key, i + 1)
    }
}

/// The position of the first member named `key`.
pub open spec fn find_member(entries: Seq<(Seq<char>, JsonView)>, key: Seq<char>) -> Option<int> {
    find_member_from(entries, key, 0)
}

/// The value of the first member named `key`.
pub open spec fn member(entries: Seq<(Seq<char>, JsonView)>, key: Seq<char>) -> Option<JsonView> {
    match find_member(entries, key) {
        Some(i) => Some(entries[i].1),
        None => None,
    }
}

pub proof fn lemma_find_member_from(entries: Seq<(Seq<char>, JsonView)>, key: Seq<char>, i: int)
    requires
        0 <= i,
    ensures
        match find_member_from(entries, key, i) {
            Some(j) => i <= j < entries.len() && entries[j].0 == key
                && forall|m: int| i <= m < j ==> entries[m].0 != key,
            None => forall|m: int| i <= m < entries.len() ==> entries[m].0 != key,
        },
    decreases entries.len() - i,
{
    if i < entries.len() && entries[i].0 != key {
        lemma_find_member_from(entries, key, i + 1);
    }
}

/// The references to other documents that a value makes, at any depth: the texts of
/// its `$ref` members that do not start with `#/$defs/`.
pub open spec fn references_in(v: JsonView) -> Set<Seq<char>>
    decreases v, 1int,
{
    match v {
        JsonView::Array(items) => item_references(items),
        JsonView::Object(entries) => member_references(entries),
        _ => Set::empty(),
    }
}

pub open spec fn item_references(items: Seq<JsonView>) -> Set<Seq<char>>
    decreases items, 1int,
{
    if items.len() == 0 {
        Set::empty()
    } else {
        item_references(items.drop_last()) + references_in(items.last())
    }
}

pub open spec fn member_references(entries: Seq<(Seq<char>, JsonView)>) -> Set<Seq<char>>
    decreases entries, 1int,
{
    if entries.len() == 0 {
        Set::empty()
    } else {
        member_references(entries.drop_last()) + entry_references(entries.last().0, entries.last().1)
    }
}

/// The references that one member of an object makes.
pub open spec fn entry_references(key: Seq<char>, value: JsonView) -> Set<Seq<char>>
    decreases value, 2int,
{
    match value {
        JsonView::Text(r) => if key == reference_key() && !local_prefix().is_prefix_of(r) {
            set![r]
        } else {
            Set::empty()
        },
        _ => references_in(value),
    }
}

/// Whether `p` is a prefix of `s`.
pub fn has_prefix(s: &str, p: &str) -> (r: bool)
    ensures
        r == p@.is_prefix_of(s@),
{
    let x = chars_of(s);
    let y = chars_of(p);
    if y.len() > x.len() {
        return false;
    }
    let mut k: usize = 0;
    while k < y.len()
        invariant
            k <= y.len() <= x.len(),
            x@ == s@,
            y@ == p@,
            forall|j: int| 0 <= j < k ==> x@[j] == y@[j],
        decreases y.len() - k,
    {
        if x[k] != y[k] {
            return false;
        }
        k = k + 1;
    }
    true
}

fn text_equal(a: &str, b: &str) -> (r: bool)
    ensures
        r == (a@ == b@),
{
    crate::strings::str_equal(a, b)
}

/// The position of the first member named `key`.
pub fn find_member_of(entries: &Vec<(String, JsonValue)>, key: &str) -> (r: Option<usize>)
    ensures
        match r {
            Some(i) => i < entries.len() && find_member(entries_view(entries@), key@) == Some(i as int),
            None => find_member(entries_view(entries@), key@) is None,
        },
{
    proof {
        lemma_entries_view(entries@);
    }
    let ghost es = entries_view(entries@);
    let mut k: usize = 0;
    while k < entries.len()
        invariant
            k <= entries.len(),
            es == entries_view(entries@),
            es.len() == entries.len(),
            forall|i: int| 0 <= i < entries.len() ==> #[trigger] es[i] == (entries@[i].0@, json_view(entries@[i].1)),
            find_member(es, key@) == find_member_from(es, key@, k as int),
        decreases entries.len() - k,
    {
        assert(es[k as int] == (entries@[k as int].0@, json_view(entries@[k as int].1)));
        if text_equal(entries[k].0.as_str(), key) {
            return Some(k);
        }
        k = k + 1;
    }
    None
}

/// The value of the first member named `key`.
pub fn member_of<'a>(entries: &'a Vec<(String, JsonValue)>, key: &str) -> (r: Option<&'a JsonValue>)
    ensures
        match r {
            Some(v) => member(entries_view(entries@), key@) == Some(json_view(*v)),
            None => member(entries_view(entries@), key@) is None,
        },
{
    proof {
        lemma_entries_view(entries@);
    }
    match find_member_of(entries, key) {
        Some(i) => {
            assert(entries_view(entries@)[i as int] == (entries@[i as int].0@, json_view(entries@[i as int].1)));
            Some(&entries[i].1)
        },
        None => None,
    }
}

/// Adds to `found` the references that `value` makes to other documents.
fn collect_references(value: &JsonValue, found: &mut Vec<String>)
    requires
        ascending(strings_view(old(found)@)),
    ensures
        ascending(strings_view(final(found)@)),
        strings_view(final(found)@).to_set() == strings_view(old(found)@).to_set() + references_in(value@),
    decreases value,
{
    let ghost before = strings_view(found@).to_set();
    match value {
        JsonValue::Object(entries) => {
            proof {
                lemma_entries_view(entries@);
            }
            let ghost es = entries_view(entries@);
            proof {
                reveal_strlit("$ref");
                assert("$ref"@ =~= reference_key());
                reveal_strlit("#/$defs/");
                assert("#/$defs/"@ =~= local_prefix());
            }
            let mut k: usize = 0;
            assert(es.take(0) =~= Seq::<(Seq<char>, JsonView)>::empty());
            while k < entries.len()
                invariant
                    k <= entries.len(),
                    es == entries_view(entries@),
                    es.len() == entries.len(),
                    forall|i: int| 0 <= i < entries.len() ==> #[trigger] es[i] == (entries@[i].0@, json_view(entries@[i].1)),
                    *value == JsonValue::Object(*entries),
                    ascending(strings_view(found@)),
                    "$ref"@ == reference_key(),
                    "#/$defs/"@ == local_prefix(),
                    strings_view(found@).to_set() == before + member_references(es.take(k as int)),
                decreases entries.len() - k,
            {
                let ghost prior = strings_view(found@).to_set();
                match &entries[k].1 {
                    JsonValue::Text(r) => {
                        if text_equal(entries[k].0.as_str(), "$ref") && !has_prefix(r.as_str(), "#/$defs/") {
                            insert_name(found, r);
                        }
                        assert(strings_view(found@).to_set() =~= prior + entry_references(es[k as int].0, es[k as int].1));
                    },
                    _ => {
                        proof {
                            assert(decreases_to!(*value => value->Object_0));
                            assert(decreases_to!(*entries => entries@));
                            assert(decreases_to!(entries@ => entries@[k as int]));
                            assert(decreases_to!(entries@[k as int] => entries@[k as int].1));
                        }
                        collect_references(&entries[k].1, found);
                        assert(strings_view(found@).to_set() =~= prior + entry_references(es[k as int].0, es[k as int].1));
                    },
                }
                assert(es.take(k + 1).drop_last() =~= es.take(k as int));
                assert(es.take(k + 1).last() == es[k as int]);
                assert(strings_view(found@).to_set() =~= before + member_references(es.take(k + 1)));
                k = k + 1;
            }
            assert(es.take(entries.len() as int) =~= es);
            assert(strings_view(found@).to_set() =~= before + references_in(value@));
        },
        JsonValue::Array(items) => {
            proof {
                lemma_items_view(items@);
            }
            let ghost vs = items_view(items@);
            let mut k: usize = 0;
            assert(vs.take(0) =~= Seq::<JsonView>::empty());
            assert(before + item_references(vs.take(0)) =~= before);
            while k < items.len()
                invariant
                    k <= items.len(),
                    vs == items_view(items@),
                    vs.len() == items.len(),
                    forall|i: int| 0 <= i < items.len() ==> #[trigger] vs[i] == json_view(items@[i]),
                    *value == JsonValue::Array(*items),
                    ascending(strings_view(found@)),
                    strings_view(found@).to_set() == before + item_references(vs.take(k as int)),
                decreases items.len() - k,
            {
                proof {
                    assert(decreases_to!(*value => value->Array_0));
                    assert(decreases_to!(*items => items@));
                    assert(decreases_to!(items@ => items@[k as int]));
                }
                collect_references(&items[k], found);
                assert(vs.take(k + 1).drop_last() =~= vs.take(k as int));
                assert(vs.take(k + 1).last() == vs[k as int]);
                assert(strings_view(found@).to_set() =~= before + item_references(vs.take(k + 1)));
                k = k + 1;
            }
            assert(vs.take(items.len() as int) =~= vs);
            assert(strings_view(found@).to_set() =~= before + references_in(value@));
        },
        _ => {
            assert(strings_view(found@).to_set() =~= before + references_in(value@));
        },
    }
}

/// The references that a document makes to other documents, each once, in ascending
/// order: the values of `$ref` members, at any depth, that do not start with `#/$defs/`.
pub fn external_references(value: &JsonValue) -> (r: Vec<String>)
    ensures
        ascending(strings_view(r@)),
        strings_view(r@).to_set() == references_in(value@),
{
    let mut found: Vec<String> = Vec::new();
    assert(strings_view(found@) =~= Seq::<Seq<char>>::empty());
    assert(strings_view(found@).to_set() =~= Set::<Seq<char>>::empty());
    collect_references(value, &mut found);
    assert(strings_view(found@).to_set() =~= references_in(value@));
    found
}

/// The value with every `$ref` member whose text is `old` pointed at `new` instead.
pub open spec fn replaced(v: JsonView, old: Seq<char>, new: Seq<char>) -> JsonView
    decreases v, 1int,
{
    match v {
        JsonView::Array(items) => JsonView::Array(replaced_items(items, old, new)),
        JsonView::Object(entries) => JsonView::Object(replaced_entries(entries, old, new)),
        _ => v,
    }
}

pub open spec fn replaced_items(items: Seq<JsonView>, old: Seq<char>, new: Seq<char>) -> Seq<JsonView>
    decreases items, 1int,
{
    if items.len() == 0 {
        Seq::empty()
    } else {
        replaced_items(items.drop_last(), old, new).push(replaced(items.last(), old, new))
    }
}

pub open spec fn replaced_entries(entries: Seq<(Seq<char>, JsonView)>, old: Seq<char>, new: Seq<char>) -> Seq<(Seq<char>, JsonView)>
    decreases entries, 1int,
{
    if entries.len() == 0 {
        Seq::empty()
    } else {
        replaced_entries(entries.drop_last(), old, new).push(replaced_entry(entries.last().0, entries.last().1, old, new))
    }
}

/// One member of an object, with its reference replaced.
pub open spec fn replaced_entry(key: Seq<char>, value: JsonView, old: Seq<char>, new: Seq<char>) -> (Seq<char>, JsonView)
    decreases value, 2int,
{
    match value {
        JsonView::Text(r) => if key == reference_key() && r == old {
            (key, JsonView::Text(new))
        } else {
            (key, value)
        },
        _ => (key, replaced(value, old, new)),
    }
}

pub proof fn lemma_replaced_items(items: Seq<JsonView>, old: Seq<char>, new: Seq<char>)
    ensures
        replaced_items(items, old, new).len() == items.len(),
        forall|i: int| 0 <= i < items.len() ==> #[trigger] replaced_items(items, old, new)[i] == replaced(items[i], old, new),
    decreases items.len(),
{
    if items.len() > 0 {
        lemma_replaced_items(items.drop_last(), old, new);
    }
}

pub proof fn lemma_replaced_entries(entries: Seq<(Seq<char>, JsonView)>, old: Seq<char>, new: Seq<char>)
    ensures
        replaced_entries(entries, old, new).len() == entries.len(),
        forall|i: int| 0 <= i < entries.len() ==> #[trigger] replaced_entries(entries, old, new)[i]
            == replaced_entry(entries[i].0, entries[i].1, old, new),
    decreases entries.len(),
{
    if entries.len() > 0 {
        lemma_replaced_entries(entries.drop_last(), old, new);
    }
}

/// The value with every `$ref` member whose text is `old` set to `new`.
pub fn replace_reference(value: &JsonValue, old: &str, new: &str) -> (r: JsonValue)
    ensures
        r@ == replaced(value@, old@, new@),
    decreases value,
{
    match value {
        JsonValue::Null => JsonValue::Null,
        JsonValue::Bool(b) => JsonValue::Bool(*b),
        JsonValue::Number(n) => JsonValue::Number(n.clone()),
        JsonValue::Text(t) => JsonValue::Text(t.clone()),
        JsonValue::Array(items) => {
            proof {
                lemma_items_view(items@);
                lemma_replaced_items(items_view(items@), old@, new@);
            }
            let mut out: Vec<JsonValue> = Vec::new();
            let mut k: usize = 0;
            while k < items.len()
                invariant
                    k <= items.len(),
                    out.len() == k,
                    *value == JsonValue::Array(*items),
                    forall|i: int| 0 <= i < k ==> json_view(#[trigger] out@[i]) == replaced(json_view(items@[i]), old@, new@),
                decreases items.len() - k,
            {
                proof {
                    assert(decreases_to!(*value => value->Array_0));
                    assert(decreases_to!(*items => items@));
                    assert(decreases_to!(items@ => items@[k as int]));
                }
                let x = replace_reference(&items[k], old, new);
                out.push(x);
                k = k + 1;
            }
            proof {
                lemma_items_view(out@);
                assert(items_view(out@) =~= replaced_items(items_view(items@), old@, new@));
            }
            JsonValue::Array(out)
        },
        JsonValue::Object(entries) => {
            proof {
                lemma_entries_view(entries@);
                lemma_replaced_entries(entries_view(entries@), old@, new@);
                reveal_strlit("$ref");
                assert("$ref"@ =~= reference_key());
            }
            let mut out: Vec<(String, JsonValue)> = Vec::new();
            let mut k: usize = 0;
            while k < entries.len()
                invariant
                    k <= entries.len(),
                    out.len() == k,
                    *value == JsonValue::Object(*entries),
                    "$ref"@ == reference_key(),
                    forall|i: int| 0 <= i < k ==> ((#[trigger] out@[i]).0@, json_view(out@[i].1))
                        == replaced_entry(entries@[i].0@, json_view(entries@[i].1), old@, new@),
                decreases entries.len() - k,
            {
                let key = entries[k].0.clone();
                let member = match &entries[k].1 {
                    JsonValue::Text(t) => {
                        if text_equal(entries[k].0.as_str(), "$ref") && text_equal(t.as_str(), old) {
                            JsonValue::Text(String::from_str(new))
                        } else {
                            JsonValue::Text(t.clone())
                        }
                    },
                    _ => {
                        proof {
                            assert(decreases_to!(*value => value->Object_0));
                            assert(decreases_to!(*entries => entries@));
                            assert(decreases_to!(entries@ => entries@[k as int]));
                            assert(decreases_to!(entries@[k as int] => entries@[k as int].1));
                        }
                        replace_reference(&entries[k].1, old, new)
                    },
                };
                out.push((key, member));
                k = k + 1;
            }
            proof {
                lemma_entries_view(out@);
                assert(entries_view(out@) =~= replaced_entries(entries_view(entries@), old@, new@));
            }
            JsonValue::Object(out)
        },
    }
}

/// Pointing the references to `old` at a local definition removes `old` from the
/// references a value makes, and leaves the others.
pub proof fn lemma_replaced_references(v: JsonView, old: Seq<char>, new: Seq<char>)
    requires
        local_prefix().is_prefix_of(new),
    ensures
        references_in(replaced(v, old, new)) == references_in(v).remove(old),
    decreases v, 1int,
{
    match v {
        JsonView::Array(items) => {
            lemma_replaced_item_references(items, old, new);
        },
        JsonView::Object(entries) => {
            lemma_replaced_member_references(entries, old, new);
        },
        _ => {
            assert(references_in(v).remove(old) =~= Set::empty());
        },
    }
}

proof fn lemma_replaced_item_references(items: Seq<JsonView>, old: Seq<char>, new: Seq<char>)
    requires
        local_prefix().is_prefix_of(new),
    ensures
        item_references(replaced_items(items, old, new)) == item_references(items).remove(old),
    decreases items, 1int,
{
    if items.len() == 0 {
        assert(item_references(items).remove(old) =~= Set::empty());
    } else {
        let r = replaced_items(items, old, new);
        lemma_replaced_item_references(items.drop_last(), old, new);
        lemma_replaced_references(items.last(), old, new);
        assert(r.drop_last() =~= replaced_items(items.drop_last(), old, new));
        assert(item_references(r) =~= item_references(items).remove(old));
    }
}

proof fn lemma_replaced_member_references(entries: Seq<(Seq<char>, JsonView)>, old: Seq<char>, new: Seq<char>)
    requires
        local_prefix().is_prefix_of(new),
    ensures
        member_references(replaced_entries(entries, old, new)) == member_references(entries).remove(old),
    decreases entries, 1int,
{
    if entries.len() == 0 {
        assert(member_references(entries).remove(old) =~= Set::empty());
    } else {
        let r = replaced_entries(entries, old, new);
        lemma_replaced_member_references(entries.drop_last(), old, new);
        lemma_replaced_entry_references(entries.last().0, entries.last().1, old, new);
        assert(r.drop_last() =~= replaced_entries(entries.drop_last(), old, new));
        assert(member_references(r) =~= member_references(entries).remove(old));
    }
}

proof fn lemma_replaced_entry_references(key: Seq<char>, value: JsonView, old: Seq<char>, new: Seq<char>)
    requires
        local_prefix().is_prefix_of(new),
    ensures
        entry_references(replaced_entry(key, value, old, new).0, replaced_entry(key, value, old, new).1)
            == entry_references(key, value).remove(old),
    decreases value, 2int,
{
    match value {
        JsonView::Text(r) => {
            assert(entry_references(replaced_entry(key, value, old, new).0, replaced_entry(key, value, old, new).1)
                =~= entry_references(key, value).remove(old));
        },
        _ => {
            lemma_replaced_references(value, old, new);
            assert(replaced(value, old, new) !is Text);
        },
    }
}

/// A copy of a value.
pub fn copy_value(value: &JsonValue) -> (r: JsonValue)
    ensures
        r@ == value@,
    decreases value,
{
    match value {
        JsonValue::Null => JsonValue::Null,
        JsonValue::Bool(b) => JsonValue::Bool(*b),
        JsonValue::Number(n) => JsonValue::Number(n.clone()),
        JsonValue::Text(t) => JsonValue::Text(t.clone()),
        JsonValue::Array(items) => {
            proof {
                lemma_items_view(items@);
            }
            let mut out: Vec<JsonValue> = Vec::new();
            let mut k: usize = 0;
            while k < items.len()
                invariant
                    k <= items.len(),
                    out.len() == k,
                    *value == JsonValue::Array(*items),
                    forall|i: int| 0 <= i < k ==> json_view(#[trigger] out@[i]) == json_view(items@[i]),
                decreases items.len() - k,
            {
                proof {
                    assert(decreases_to!(*value => value->Array_0));
                    assert(decreases_to!(*items => items@));
                    assert(decreases_to!(items@ => items@[k as int]));
                }
                let x = copy_value(&items[k]);
                out.push(x);
                k = k + 1;
            }
            proof {
                lemma_items_view(out@);
                assert(items_view(out@) =~= items_view(items@));
            }
            JsonValue::Array(out)
        },
        JsonValue::Object(entries) => {
            let out = copy_entries(entries);
            JsonValue::Object(out)
        },
    }
}

/// A copy of the members of an object.
pub fn copy_entries(entries: &Vec<(String, JsonValue)>) -> (r: Vec<(String, JsonValue)>)
    ensures
        entries_view(r@) == entries_view(entries@),
    decreases entries,
{
    proof {
        lemma_entries_view(entries@);
    }
    let mut out: Vec<(String, JsonValue)> = Vec::new();
    let mut k: usize = 0;
    while k < entries.len()
        invariant
            k <= entries.len(),
            out.len() == k,
            forall|i: int| 0 <= i < k ==> ((#[trigger] out@[i]).0@, json_view(out@[i].1))
                == (entries@[i].0@, json_view(entries@[i].1)),
        decreases entries.len() - k,
    {
        proof {
            assert(decreases_to!(*entries => entries@));
            assert(decreases_to!(entries@ => entries@[k as int]));
            assert(decreases_to!(entries@[k as int] => entries@[k as int].1));
        }
        let x = copy_value(&entries[k].1);
        out.push((entries[k].0.clone(), x));
        k = k + 1;
    }
    proof {
        lemma_entries_view(out@);
        assert(entries_view(out@) =~= entries_view(entries@));
    }
    out
}

/// Why a reference to a shared definition cannot be followed.
#[derive(Debug, PartialEq)]
pub enum ReferenceError {
    /// Not of the form `file.yaml#/$defs/Name`.
    InvalidFormat { reference: String },
    /// The file is not a relative local path.
    NonLocal { reference: String },
    /// The file is not one of the definitions documents.
    OutsideDefinitions { reference: String },
    /// The definitions document has no definition of that name.
    MissingDefinition { reference: String, name: String, path: String },
    /// The specification is not an object.
    InvalidRoot,
    /// The specification's `$defs` is not an object.
    InvalidDefinitions,
    /// The definitions document's file name is not a slug.
    SourceSlug { path: String, issue: SlugError },
}

pub enum ReferenceIssue {
    InvalidFormat(Seq<char>),
    NonLocal(Seq<char>),
    OutsideDefinitions(Seq<char>),
    MissingDefinition(Seq<char>, Seq<char>, Seq<char>),
    InvalidRoot,
    InvalidDefinitions,
    SourceSlug(Seq<char>, SlugError),
}

impl ReferenceError {
    pub open spec fn issue(&self) -> ReferenceIssue {
        match self {
            ReferenceError::InvalidFormat { reference } => ReferenceIssue::InvalidFormat(reference@),
            ReferenceError::NonLocal { reference } => ReferenceIssue::NonLocal(reference@),
            ReferenceError::OutsideDefinitions { reference } => ReferenceIssue::OutsideDefinitions(reference@),
            ReferenceError::MissingDefinition { reference, name, path } => ReferenceIssue::MissingDefinition(reference@, name@, path@),
            ReferenceError::InvalidRoot => ReferenceIssue::InvalidRoot,
            ReferenceError::InvalidDefinitions => ReferenceIssue::InvalidDefinitions,
            ReferenceError::SourceSlug { path, issue } => ReferenceIssue::SourceSlug(path@, *issue),
        }
    }
}

/// The position of the first `#/$defs/` in `s` at or after `i`.
pub open spec fn marker_from(s: Seq<char>, i: int) -> Option<int>
    decreases s.len() - i,
{
    if i < 0 || i + 8 > s.len() {
        None
    } else if s.subrange(i, i + 8) == local_prefix() {
        Some(i)
    } else {
        marker_from(s, i + 1)
    }
}

/// The file of a reference: what comes before its first `#/$defs/`.
pub open spec fn reference_file(r: Seq<char>) -> Seq<char> {
    match marker_from(r, 0) {
        Some(i) => r.subrange(0, i),
        None => Seq::empty(),
    }
}

/// The definition a reference names: what comes after its first `#/$defs/`.
pub open spec fn reference_name(r: Seq<char>) -> Seq<char> {
    match marker_from(r, 0) {
        Some(i) => r.subrange(i + 8, r.len() as int),
        None => Seq::empty(),
    }
}

/// Whether a reference has the form `file#/$defs/Name`, with a file, and a name that
/// holds no `/` or `#`.
pub open spec fn well_formed_reference(r: Seq<char>) -> bool {
    &&& marker_from(r, 0) is Some
    &&& reference_file(r).len() > 0
    &&& reference_name(r).len() > 0
    &&& !reference_name(r).contains('/')
    &&& !reference_name(r).contains('#')
}

/// Whether a file names a relative local path: no scheme or drive (`:`), and not
/// absolute (a leading `/`).
pub open spec fn relative_local(file: Seq<char>) -> bool {
    !file.contains(':') && !(file.len() > 0 && file[0] == '/')
}

/// The characters `s[a..b]` as a string.
fn chars_text(s: &Vec<char>, a: usize, b: usize) -> (r: String)
    requires
        a <= b <= s.len(),
    ensures
        r@ == s@.subrange(a as int, b as int),
{
    let mut r = String::new();
    let mut k = a;
    while k < b
        invariant
            a <= k <= b <= s.len(),
            r@ == s@.subrange(a as int, k as int),
        decreases b - k,
    {
        push_char(&mut r, s[k]);
        k = k + 1;
        assert(r@ =~= s@.subrange(a as int, k as int));
    }
    r
}

fn contains_char(s: &Vec<char>, a: usize, b: usize, c: char) -> (r: bool)
    requires
        a <= b <= s.len(),
    ensures
        r == s@.subrange(a as int, b as int).contains(c),
{
    let mut k = a;
    while k < b
        invariant
            a <= k <= b <= s.len(),
            forall|j: int| a <= j < k ==> s@[j] != c,
        decreases b - k,
    {
        if s[k] == c {
            assert(s@.subrange(a as int, b as int)[k - a] == c);
            return true;
        }
        k = k + 1;
    }
    assert forall|j: int| 0 <= j < b - a implies s@.subrange(a as int, b as int)[j] != c by {
        assert(s@.subrange(a as int, b as int)[j] == s@[a + j]);
    }
    false
}

/// The position of the first `#/$defs/` in `cs`.
fn first_marker(cs: &Vec<char>, marker: &Vec<char>) -> (r: Option<usize>)
    requires
        marker@ == local_prefix(),
    ensures
        match r {
            Some(p) => p + 8 <= cs.len() && marker_from(cs@, 0) == Some(p as int),
            None => marker_from(cs@, 0) is None,
        },
{
    let ghost s = cs@;
    let mut i: usize = 0;
    while i < cs.len() && cs.len() - i >= 8
        invariant
            cs@ == s,
            marker@ == local_prefix(),
            marker_from(s, 0) == marker_from(s, i as int),
        decreases cs.len() - i,
    {
        let mut k: usize = 0;
        while k < 8 && cs[i + k] == marker[k]
            invariant
                k <= 8,
                i + 8 <= cs.len(),
                cs@ == s,
                marker@ == local_prefix(),
                forall|j: int| 0 <= j < k ==> cs@[i + j] == marker@[j],
            decreases 8 - k,
        {
            k = k + 1;
        }
        if k == 8 {
            assert(s.subrange(i as int, i + 8) =~= local_prefix());
            return Some(i);
        }
        assert(s.subrange(i as int, i + 8)[k as int] != local_prefix()[k as int]);
        i = i + 1;
    }
    None
}

/// The file and the definition name of a reference into a definitions document.
pub fn reference_parts(reference: &str) -> (r: Result<(String, String), ReferenceError>)
    ensures
        !well_formed_reference(reference@) ==> (r matches Err(e) && e.issue() == ReferenceIssue::InvalidFormat(reference@)),
        well_formed_reference(reference@) && !relative_local(reference_file(reference@))
            ==> (r matches Err(e) && e.issue() == ReferenceIssue::NonLocal(reference@)),
        well_formed_reference(reference@) && relative_local(reference_file(reference@))
            ==> (r matches Ok((f, n)) && f@ == reference_file(reference@) && n@ == reference_name(reference@)),
{
    let cs = chars_of(reference);
    let ghost s = reference@;
    proof {
        reveal_strlit("#/$defs/");
        assert("#/$defs/"@ =~= local_prefix());
    }
    let marker = chars_of("#/$defs/");
    let at = match first_marker(&cs, &marker) {
        Some(p) => p,
        None => {
            return Err(ReferenceError::InvalidFormat { reference: reference.to_string() });
        },
    };
    assert(marker_from(s, 0) == Some(at as int));
    let file = chars_text(&cs, 0, at);
    let name = chars_text(&cs, at + 8, cs.len());
    if at == 0 || at + 8 == cs.len() || contains_char(&cs, at + 8, cs.len(), '/')
        || contains_char(&cs, at + 8, cs.len(), '#') {
        return Err(ReferenceError::InvalidFormat { reference: reference.to_string() });
    }
    if contains_char(&cs, 0, at, ':') || cs[0] == '/' {
        assert(at > 0);
        assert(reference_file(s)[0] == cs@[0]);
        return Err(ReferenceError::NonLocal { reference: reference.to_string() });
    }
    Ok((file, name))
}

/// `SharedDefinition`, the stem of the alias a shared definition gets.
pub open spec fn alias_prefix() -> Seq<char> {
    seq!['S', 'h', 'a', 'r', 'e', 'd', 'D', 'e', 'f', 'i', 'n', 'i', 't', 'i', 'o', 'n']
}

/// The alias `SharedDefinition{k}`.
pub open spec fn alias_name(k: nat) -> Seq<char> {
    alias_prefix() + decimal(k)
}

/// The keys of an object's members.
pub open spec fn keys_of(entries: Seq<(Seq<char>, JsonView)>) -> Seq<Seq<char>> {
    entries.map_values(|e: (Seq<char>, JsonView)| e.0)
}

/// Whether `k` is the least number, not below the number of keys, whose alias is not
/// a key.
pub open spec fn least_free_alias(keys: Seq<Seq<char>>, k: nat) -> bool {
    &&& keys.len() <= k
    &&& !keys.contains(alias_name(k))
    &&& forall|j: nat| keys.len() <= j < k ==> keys.contains(#[trigger] alias_name(j))
}

/// The number of the alias that a new shared definition gets among `keys`.
pub open spec fn alias_index(keys: Seq<Seq<char>>) -> nat {
    choose|k: nat| least_free_alias(keys, k)
}

proof fn lemma_decimal_len(n: nat)
    ensures
        decimal(n).len() >= 1,
        n >= 10 ==> decimal(n).len() >= 2,
    decreases n,
{
    if n >= 10 {
        lemma_decimal_len(n / 10);
    }
}

proof fn lemma_digit_injective(a: nat, b: nat)
    requires
        a < 10,
        b < 10,
        crate::strings::digit_char(a) == crate::strings::digit_char(b),
    ensures
        a == b,
{
    let x = (48 + a) as u8;
    let y = (48 + b) as u8;
    assert(x as char == y as char);
    assert((x as char) as int == x as int);
    assert((y as char) as int == y as int);
}

proof fn lemma_decimal_injective(a: nat, b: nat)
    requires
        decimal(a) == decimal(b),
    ensures
        a == b,
    decreases a,
{
    lemma_decimal_len(a);
    lemma_decimal_len(b);
    if a < 10 {
        assert(decimal(a).len() == 1);
        assert(b < 10);
        assert(decimal(a) == seq![crate::strings::digit_char(a)]);
        assert(decimal(b) == seq![crate::strings::digit_char(b)]);
        let da = crate::strings::digit_char(a);
        let db = crate::strings::digit_char(b);
        assert(seq![da][0] == da);
        assert(seq![db][0] == db);
        assert(da == db);
        lemma_digit_injective(a, b);
    } else {
        assert(b >= 10);
        assert(decimal(a).drop_last() =~= decimal(a / 10));
        assert(decimal(b).drop_last() =~= decimal(b / 10));
        lemma_decimal_injective(a / 10, b / 10);
        assert(decimal(a) == decimal(a / 10).push(crate::strings::digit_char(a % 10)));
        assert(decimal(b) == decimal(b / 10).push(crate::strings::digit_char(b % 10)));
        let da = crate::strings::digit_char(a % 10);
        let db = crate::strings::digit_char(b % 10);
        assert(decimal(a).last() == da);
        assert(decimal(b).last() == db);
        assert(da == db);
        lemma_digit_injective(a % 10, b % 10);
    }
}

proof fn lemma_alias_injective(a: nat, b: nat)
    requires
        alias_name(a) == alias_name(b),
    ensures
        a == b,
{
    let n = alias_prefix().len() as int;
    assert(alias_name(a).subrange(n, alias_name(a).len() as int) =~= decimal(a));
    assert(alias_name(b).subrange(n, alias_name(b).len() as int) =~= decimal(b));
    lemma_decimal_injective(a, b);
}

/// Among the aliases numbered from the number of keys to twice that, one is free.
proof fn lemma_free_alias_exists(keys: Seq<Seq<char>>)
    ensures
        exists|k: nat| keys.len() <= k <= 2 * keys.len() && !keys.contains(#[trigger] alias_name(k)),
{
    let lo = keys.len() as int;
    let hi: int = 2 * lo + 1;
    if forall|k: nat| keys.len() <= k <= 2 * keys.len() ==> keys.contains(#[trigger] alias_name(k)) {
        let range = vstd::set_lib::set_int_range(lo, hi);
        vstd::set_lib::lemma_int_range(lo, hi);
        let f = |i: int| alias_name(i as nat);
        let names = range.map(f);
        assert(vstd::relations::injective_on(f, range)) by {
            assert forall|x: int, y: int| range.contains(x) && range.contains(y) && #[trigger] f(x) == #[trigger] f(y)
                implies x == y by {
                lemma_alias_injective(x as nat, y as nat);
            }
        }
        vstd::set_lib::lemma_map_size(range, names, f);
        assert(names.subset_of(keys.to_set())) by {
            assert forall|n: Seq<char>| names.contains(n) implies keys.to_set().contains(n) by {
                let i = choose|i: int| range.contains(i) && f(i) == n;
                assert(keys.contains(alias_name(i as nat)));
            }
        }
        vstd::set_lib::lemma_len_subset(names, keys.to_set());
        keys.lemma_cardinality_of_set();
        assert(false);
    }
}

/// Below any free alias there is a least one.
proof fn lemma_least_free_alias(keys: Seq<Seq<char>>, k: nat)
    requires
        keys.len() <= k,
        !keys.contains(alias_name(k)),
    ensures
        least_free_alias(keys, alias_index(keys)),
    decreases k,
{
    if forall|j: nat| keys.len() <= j < k ==> keys.contains(#[trigger] alias_name(j)) {
        assert(least_free_alias(keys, k));
    } else {
        let j = choose|j: nat| keys.len() <= j < k && !keys.contains(#[trigger] alias_name(j));
        lemma_least_free_alias(keys, j);
    }
}

/// The decimal notation of `n`.
fn decimal_wide(n: u128) -> (r: String)
    ensures
        r@ == decimal(n as nat),
    decreases n,
{
    let d = (n % 10) as u8;
    let c = (48 + d) as char;
    if n < 10 {
        let mut r = String::new();
        push_char(&mut r, c);
        assert(r@ =~= seq![c]);
        r
    } else {
        let mut r = decimal_wide(n / 10);
        push_char(&mut r, c);
        r
    }
}

/// The alias `SharedDefinition{k}`.
fn alias_text(k: u128) -> (r: String)
    ensures
        r@ == alias_name(k as nat),
{
    proof {
        reveal_strlit("SharedDefinition");
        assert("SharedDefinition"@ =~= alias_prefix());
    }
    let mut r = String::from_str("SharedDefinition");
    let digits = decimal_wide(k);
    r.append(digits.as_str());
    r
}

/// Whether an object has a member named `key`.
fn has_key(entries: &Vec<(String, JsonValue)>, key: &str) -> (r: bool)
    ensures
        r == keys_of(entries_view(entries@)).contains(key@),
{
    proof {
        lemma_entries_view(entries@);
    }
    let ghost keys = keys_of(entries_view(entries@));
    let mut k: usize = 0;
    while k < entries.len()
        invariant
            k <= entries.len(),
            keys == keys_of(entries_view(entries@)),
            keys.len() == entries.len(),
            forall|i: int| 0 <= i < entries.len() ==> #[trigger] keys[i] == entries@[i].0@,
            forall|i: int| 0 <= i < k ==> keys[i] != key@,
        decreases entries.len() - k,
    {
        if text_equal(entries[k].0.as_str(), key) {
            assert(keys[k as int] == key@);
            return true;
        }
        k = k + 1;
    }
    false
}

/// The alias a new shared definition gets in `$defs`: `SharedDefinition{k}` for the
/// least `k`, not below the number of members, that no member is named.
pub fn shared_alias(entries: &Vec<(String, JsonValue)>) -> (r: String)
    ensures
        r@ == alias_name(alias_index(keys_of(entries_view(entries@)))),
        least_free_alias(keys_of(entries_view(entries@)), alias_index(keys_of(entries_view(entries@)))),
{
    proof {
        lemma_entries_view(entries@);
    }
    let ghost keys = keys_of(entries_view(entries@));
    assert(keys.len() == entries.len());
    proof {
        lemma_free_alias_exists(keys);
    }
    let ghost k0: nat = choose|k: nat| keys.len() <= k <= 2 * keys.len() && !keys.contains(#[trigger] alias_name(k));
    let mut k: u128 = entries.len() as u128;
    loop
        invariant
            keys == keys_of(entries_view(entries@)),
            keys.len() == entries.len(),
            keys.len() <= k <= k0,
            k0 <= 2 * keys.len(),
            !keys.contains(alias_name(k0)),
            forall|j: nat| keys.len() <= j < k ==> keys.contains(#[trigger] alias_name(j)),
        decreases k0 - k,
    {
        let name = alias_text(k);
        if !has_key(entries, name.as_str()) {
            assert(least_free_alias(keys, k as nat));
            proof {
                lemma_least_free_alias(keys, k as nat);
                let m = alias_index(keys);
                if m < k {
                    assert(keys.contains(alias_name(m)));
                } else if m > k {
                    assert(keys.contains(alias_name(k as nat)));
                }
            }
            return name;
        }
        assert(k != k0);
        k = k + 1;
    }
}

/// `$defs`, the key of a document's definitions.
pub open spec fn defs_key() -> Seq<char> {
    seq!['$', 'd', 'e', 'f', 's']
}

/// The definition `name` of the definitions document at `target`.
pub open spec fn shared_definition(documents: Seq<(Seq<char>, JsonView)>, target: Seq<char>, name: Seq<char>) -> Option<JsonView> {
    match member(documents, target) {
        Some(JsonView::Object(entries)) => match member(entries, defs_key()) {
            Some(JsonView::Object(definitions)) => member(definitions, name),
            _ => None,
        },
        _ => None,
    }
}

/// The members with the first member named `key` set to `value`, or with such a member
/// added at the end when there is none.
pub open spec fn with_member(entries: Seq<(Seq<char>, JsonView)>, key: Seq<char>, value: JsonView) -> Seq<(Seq<char>, JsonView)> {
    match find_member(entries, key) {
        Some(i) => entries.update(i, (key, value)),
        None => entries.push((key, value)),
    }
}

/// The slug of a file stem.
pub open spec fn slug_of(stem: Option<Seq<char>>) -> Result<Seq<char>, SlugError> {
    match stem {
        None => Err(SlugError::NonUtf8Slug),
        Some(s) => if is_identifier(s) {
            Ok(s)
        } else {
            Err(SlugError::InvalidSlug)
        },
    }
}

/// The definitions a document already has, when `$defs` is absent or an object.
pub open spec fn own_definitions(entries: Seq<(Seq<char>, JsonView)>) -> Seq<(Seq<char>, JsonView)> {
    match member(entries, defs_key()) {
        Some(JsonView::Object(definitions)) => definitions,
        _ => Seq::empty(),
    }
}

/// A document that follows its reference `reference` to the definition `name` of the
/// definitions document at `target`: the definition copied into the document's `$defs`
/// under the next free alias, and every `$ref` to `reference` pointed at that alias.
/// The result is the new document and the alias.
pub open spec fn included(
    value: JsonView,
    reference: Seq<char>,
    name: Seq<char>,
    target: Seq<char>,
    stem: Option<Seq<char>>,
    documents: Seq<(Seq<char>, JsonView)>,
) -> Result<(JsonView, Seq<char>), ReferenceIssue> {
    if member(documents, target) is None {
        Err(ReferenceIssue::OutsideDefinitions(reference))
    } else if shared_definition(documents, target, name) is None {
        Err(ReferenceIssue::MissingDefinition(reference, name, target))
    } else {
        match value {
            JsonView::Object(entries) => if member(entries, defs_key()) matches Some(d) && !(d is Object) {
                Err(ReferenceIssue::InvalidDefinitions)
            } else {
                let definitions = own_definitions(entries);
                let alias = alias_name(alias_index(keys_of(definitions)));
                let definition = shared_definition(documents, target, name)->0;
                match slug_of(stem) {
                    Err(e) => Err(ReferenceIssue::SourceSlug(target, e)),
                    Ok(_) => Ok((
                        replaced(
                            JsonView::Object(with_member(entries, defs_key(), JsonView::Object(definitions.push((alias, definition))))),
                            reference,
                            local_prefix() + alias,
                        ),
                        alias,
                    )),
                }
            },
            _ => Err(ReferenceIssue::InvalidRoot),
        }
    }
}

/// A document that follows one of its references into a definitions document.
#[derive(Debug)]
pub struct SharedDefinition {
    /// The document with the definition copied in and the reference pointed at it.
    pub document: JsonValue,
    /// The name of the copy in the document's `$defs`.
    pub alias: String,
    /// Where the definition comes from.
    pub origin: EnumType,
}

pub open spec fn stem_view(stem: Option<&str>) -> Option<Seq<char>> {
    match stem {
        Some(s) => Some(s@),
        None => None,
    }
}

/// The references a document makes, as one set per member, gathered.
proof fn lemma_member_references_at(entries: Seq<(Seq<char>, JsonView)>)
    ensures
        forall|r: Seq<char>| member_references(entries).contains(r) <==> exists|j: int|
            0 <= j < entries.len() && #[trigger] entry_references(entries[j].0, entries[j].1).contains(r),
    decreases entries.len(),
{
    if entries.len() > 0 {
        let rest = entries.drop_last();
        lemma_member_references_at(rest);
        assert(member_references(entries) == member_references(rest) + entry_references(entries.last().0, entries.last().1));
        assert(entries.last() == entries[entries.len() - 1]);
        assert forall|r: Seq<char>| member_references(entries).contains(r) <==> exists|j: int|
            0 <= j < entries.len() && #[trigger] entry_references(entries[j].0, entries[j].1).contains(r) by {
            if member_references(entries).contains(r) {
                if member_references(rest).contains(r) {
                    let j = choose|j: int| 0 <= j < rest.len() && #[trigger] entry_references(rest[j].0, rest[j].1).contains(r);
                    assert(rest[j] == entries[j]);
                } else {
                    let j = entries.len() - 1;
                    assert(entry_references(entries[j].0, entries[j].1).contains(r));
                }
            }
            if exists|j: int| 0 <= j < entries.len() && #[trigger] entry_references(entries[j].0, entries[j].1).contains(r) {
                let j = choose|j: int| 0 <= j < entries.len() && #[trigger] entry_references(entries[j].0, entries[j].1).contains(r);
                if j < entries.len() - 1 {
                    assert(rest[j] == entries[j]);
                    assert(entry_references(rest[j].0, rest[j].1).contains(r));
                    assert(member_references(rest).contains(r));
                }
            }
        }
    }
}

/// Copying a definition into `$defs` adds the references the definition makes.
proof fn lemma_included_references(
    entries: Seq<(Seq<char>, JsonView)>,
    alias: Seq<char>,
    definition: JsonView,
)
    requires
        alias != reference_key(),
        member(entries, defs_key()) matches Some(d) ==> d is Object,
    ensures
        references_in(JsonView::Object(with_member(entries, defs_key(),
            JsonView::Object(own_definitions(entries).push((alias, definition))))))
            == references_in(JsonView::Object(entries)) + references_in(definition),
{
    let definitions = own_definitions(entries);
    let grown = definitions.push((alias, definition));
    let result = with_member(entries, defs_key(), JsonView::Object(grown));
    assert(grown.drop_last() =~= definitions);
    assert(entry_references(alias, definition) == references_in(definition)) by {
        if definition is Text {
            assert(references_in(definition) =~= Set::empty());
        }
    }
    assert(defs_key() != reference_key()) by {
        assert(defs_key().len() != reference_key().len());
    }
    assert(entry_references(defs_key(), JsonView::Object(grown)) == member_references(definitions) + references_in(definition));
    match find_member(entries, defs_key()) {
        Some(i) => {
            lemma_find_member_from(entries, defs_key(), 0);
            assert(entries[i].0 == defs_key());
            assert(entries[i].1 == JsonView::Object(definitions));
            assert(entry_references(entries[i].0, entries[i].1) == member_references(definitions));
            lemma_member_references_at(entries);
            lemma_member_references_at(result);
            assert(result.len() == entries.len());
            assert forall|r: Seq<char>| member_references(result).contains(r) <==>
                (member_references(entries) + references_in(definition)).contains(r) by {
                if member_references(result).contains(r) {
                    let j = choose|j: int| 0 <= j < result.len() && #[trigger] entry_references(result[j].0, result[j].1).contains(r);
                    if j != i {
                        assert(result[j] == entries[j]);
                        assert(entry_references(entries[j].0, entries[j].1).contains(r));
                    } else if !references_in(definition).contains(r) {
                        assert(entry_references(entries[i].0, entries[i].1).contains(r));
                    }
                }
                if member_references(entries).contains(r) {
                    let j = choose|j: int| 0 <= j < entries.len() && #[trigger] entry_references(entries[j].0, entries[j].1).contains(r);
                    if j != i {
                        assert(result[j] == entries[j]);
                    }
                    assert(entry_references(result[j].0, result[j].1).contains(r));
                }
                if references_in(definition).contains(r) {
                    assert(entry_references(result[i].0, result[i].1).contains(r));
                }
            }
            assert(member_references(result) =~= member_references(entries) + references_in(definition));
        },
        None => {
            assert(definitions =~= Seq::<(Seq<char>, JsonView)>::empty());
            assert(result.drop_last() =~= entries);
            assert(member_references(definitions) =~= Set::empty());
            assert(member_references(result) =~= member_references(entries) + references_in(definition));
        },
    }
}

/// The definition `name` in the `$defs` of a definitions document.
fn definition_in<'a>(document: &'a JsonValue, name: &str) -> (r: Option<&'a JsonValue>)
    ensures
        match document@ {
            JsonView::Object(entries) => match member(entries, defs_key()) {
                Some(JsonView::Object(definitions)) => match member(definitions, name@) {
                    Some(d) => r matches Some(x) && x@ == d,
                    None => r is None,
                },
                _ => r is None,
            },
            _ => r is None,
        },
{
    proof {
        reveal_strlit("$defs");
        assert("$defs"@ =~= defs_key());
    }
    match document {
        JsonValue::Object(entries) => match member_of(entries, "$defs") {
            Some(JsonValue::Object(definitions)) => member_of(definitions, name),
            _ => None,
        },
        _ => None,
    }
}

/// Follows the reference `reference`, whose definition `name` lies in the definitions
/// document at `target` (`target_stem` being that file's stem): the definition is
/// copied into the document's `$defs` under the next free alias, `SharedDefinition{k}`,
/// and every `$ref` to `reference` is pointed at `#/$defs/` and the alias. The result
/// also says where the definition comes from. `documents` holds the definitions
/// documents by path.
///
/// The copy brings in the references of the definition, and the document no longer
/// refers to `reference`.
pub fn include_shared_definition(
    value: &JsonValue,
    reference: &str,
    name: &str,
    target: &str,
    target_stem: Option<&str>,
    documents: &Vec<(String, JsonValue)>,
) -> (r: Result<SharedDefinition, ReferenceError>)
    ensures
        match included(value@, reference@, name@, target@, stem_view(target_stem), entries_view(documents@)) {
            Ok((document, alias)) => (r matches Ok(s) && s.document@ == document && s.alias@ == alias
                && s.origin.document@ == target@ && s.origin.name@ == name@
                && (s.origin.shared_module matches Some(m) && Some(m@) == stem_view(target_stem))),
            Err(issue) => (r matches Err(e) && e.issue() == issue),
        },
        r is Ok ==> references_in(r->Ok_0.document@) == (references_in(value@)
            + references_in(shared_definition(entries_view(documents@), target@, name@)->0)).remove(reference@),
{
    let document = match member_of(documents, target) {
        Some(d) => d,
        None => {
            return Err(ReferenceError::OutsideDefinitions { reference: reference.to_string() });
        },
    };
    let definition = match definition_in(document, name) {
        Some(d) => d,
        None => {
            return Err(
                ReferenceError::MissingDefinition {
                    reference: reference.to_string(),
                    name: name.to_string(),
                    path: target.to_string(),
                },
            );
        },
    };
    let ghost definition_view = shared_definition(entries_view(documents@), target@, name@)->0;
    assert(definition@ == definition_view);
    let entries = match value {
        JsonValue::Object(es) => es,
        _ => {
            return Err(ReferenceError::InvalidRoot);
        },
    };
    let ghost es = entries_view(entries@);
    proof {
        reveal_strlit("$defs");
        assert("$defs"@ =~= defs_key());
        lemma_entries_view(entries@);
    }
    let position = find_member_of(entries, "$defs");
    let mut definitions: Vec<(String, JsonValue)> = match position {
        Some(i) => {
            assert(es[i as int] == (entries@[i as int].0@, json_view(entries@[i as int].1)));
            match &entries[i].1 {
                JsonValue::Object(ds) => copy_entries(ds),
                _ => {
                    return Err(ReferenceError::InvalidDefinitions);
                },
            }
        },
        None => Vec::new(),
    };
    assert(entries_view(definitions@) == own_definitions(es)) by {
        if position is None {
            assert(entries_view(definitions@) =~= Seq::<(Seq<char>, JsonView)>::empty());
        }
    }
    let alias = shared_alias(&definitions);
    let ghost before = definitions@;
    let copied = copy_value(definition);
    definitions.push((alias.clone(), copied));
    assert(definitions@.drop_last() =~= before);
    assert(entries_view(definitions@) == own_definitions(es).push((alias@, definition_view)));
    let slug = match source_slug(target_stem) {
        Ok(s) => s,
        Err(e) => {
            return Err(ReferenceError::SourceSlug { path: target.to_string(), issue: e });
        },
    };
    let mut root = copy_entries(entries);
    let ghost root_before = root@;
    proof {
        lemma_entries_view(root_before);
    }
    assert(root.len() == entries.len());
    let defs_value = JsonValue::Object(definitions);
    let ghost grown = with_member(es, defs_key(), json_view(defs_value));
    match position {
        Some(i) => {
            root.set(i, (String::from_str("$defs"), defs_value));
            proof {
                lemma_entries_view(root@);
                assert forall|j: int| 0 <= j < root.len() && j != i implies #[trigger] entries_view(root@)[j] == grown[j] by {
                    assert(root@[j] == root_before[j]);
                    assert(entries_view(root_before)[j] == es[j]);
                }
                assert(entries_view(root@) =~= grown);
            }
        },
        None => {
            root.push((String::from_str("$defs"), defs_value));
            proof {
                lemma_entries_view(root@);
                assert(entries_view(root@) =~= grown);
            }
        },
    }
    proof {
        reveal_strlit("#/$defs/");
        assert("#/$defs/"@ =~= local_prefix());
    }
    let mut local = String::from_str("#/$defs/");
    local.append(alias.as_str());
    let result = replace_reference(&JsonValue::Object(root), reference, local.as_str());
    proof {
        let k = alias_index(keys_of(own_definitions(es)));
        lemma_decimal_len(k);
        assert(alias@.len() > reference_key().len());
        assert(local_prefix().is_prefix_of(local@)) by {
            assert(local@.subrange(0, 8) =~= local_prefix());
        }
        lemma_included_references(es, alias@, definition_view);
        lemma_replaced_references(JsonView::Object(grown), reference@, local@);
    }
    Ok(
        SharedDefinition {
            document: result,
            alias,
            origin: EnumType { document: target.to_string(), name: name.to_string(), shared_module: Some(slug) },
        },
    )
}

pub open spec fn ticked(text: Seq<char>) -> Seq<char> {
    "`"@ + text + "`"@
}

/// The message of a reference that cannot be followed.
pub open spec fn reference_message(i: ReferenceIssue) -> Seq<char> {
    match i {
        ReferenceIssue::InvalidFormat(r) => "unsupported reference "@ + ticked(r) + ": expected `file.yaml#/$defs/Name`"@,
        ReferenceIssue::NonLocal(r) => "unsupported reference "@ + ticked(r) + ": only relative local files are supported"@,
        ReferenceIssue::OutsideDefinitions(r) => "unsupported reference "@ + ticked(r)
            + ": expected a YAML file directly under specs/definitions"@,
        ReferenceIssue::MissingDefinition(r, n, p) => "reference "@ + ticked(r) + ": definition "@ + ticked(n)
            + " is missing in "@ + p,
        ReferenceIssue::InvalidRoot => "specification root must be an object"@,
        ReferenceIssue::InvalidDefinitions => "specification `$defs` must be an object"@,
        ReferenceIssue::SourceSlug(p, e) => slug_message(e, p),
    }
}

fn append_ticked(r: &mut String, text: &str)
    ensures
        final(r)@ == old(r)@ + ticked(text@),
{
    r.append("`");
    r.append(text);
    r.append("`");
}

impl ReferenceError {
    /// The message of the error.
    pub fn message(&self) -> (r: String)
        ensures
            r@ == reference_message(self.issue()),
    {
        let mut r = String::new();
        match self {
            ReferenceError::InvalidFormat { reference } => {
                r.append("unsupported reference ");
                append_ticked(&mut r, reference.as_str());
                r.append(": expected `file.yaml#/$defs/Name`");
            },
            ReferenceError::NonLocal { reference } => {
                r.append("unsupported reference ");
                append_ticked(&mut r, reference.as_str());
                r.append(": only relative local files are supported");
            },
            ReferenceError::OutsideDefinitions { reference } => {
                r.append("unsupported reference ");
                append_ticked(&mut r, reference.as_str());
                r.append(": expected a YAML file directly under specs/definitions");
            },
            ReferenceError::MissingDefinition { reference, name, path } => {
                r.append("reference ");
                append_ticked(&mut r, reference.as_str());
                r.append(": definition ");
                append_ticked(&mut r, name.as_str());
                r.append(" is missing in ");
                r.append(path.as_str());
            },
            ReferenceError::InvalidRoot => {
                r.append("specification root must be an object");
            },
            ReferenceError::InvalidDefinitions => {
                r.append("specification `$defs` must be an object");
            },
            ReferenceError::SourceSlug { path, issue } => {
                r = issue.message(path.as_str());
            },
        }
        r
    }
}

/// Where the enumeration copied in under `alias` comes from.
pub open spec fn alias_origin(shared: Seq<(String, EnumType)>, alias: Seq<char>) -> Option<EnumType>
    decreases shared.len(),
{
    if shared.len() == 0 {
        None
    } else if shared[0].0@ == alias {
        Some(shared[0].1)
    } else {
        alias_origin(shared.drop_first(), alias)
    }
}

/// The identity an enumeration declared in `document` has: for a copy of a shared
/// definition, that of the definition it copies; else the document's.
pub open spec fn placed_identity(t: EnumType, document: Seq<char>, shared: Seq<(String, EnumType)>) -> (Seq<char>, Seq<char>, Option<Seq<char>>) {
    match alias_origin(shared, t.name@) {
        Some(origin) => origin.identity_view(),
        None => (document, t.name@, t.identity_view().2),
    }
}

fn origin_lookup<'a>(shared: &'a Vec<(String, EnumType)>, alias: &str) -> (r: Option<&'a EnumType>)
    ensures
        match r {
            Some(o) => alias_origin(shared@, alias@) == Some(*o),
            None => alias_origin(shared@, alias@) is None,
        },
{
    let mut k: usize = 0;
    assert(shared@.skip(0) =~= shared@);
    while k < shared.len()
        invariant
            k <= shared.len(),
            alias_origin(shared@, alias@) == alias_origin(shared@.skip(k as int), alias@),
        decreases shared.len() - k,
    {
        assert(shared@.skip(k as int)[0] == shared@[k as int]);
        if text_equal(shared[k].0.as_str(), alias) {
            return Some(&shared[k].1);
        }
        assert(shared@.skip(k as int).drop_first() =~= shared@.skip(k + 1));
        k = k + 1;
    }
    None
}

/// The enumeration with its origin set: for a copy of a shared definition, the identity
/// of the definition it copies; else the document it is declared in.
pub fn with_origin(definition: EnumDefinition, document: &str, shared: &Vec<(String, EnumType)>) -> (r: EnumDefinition)
    ensures
        r.enum_type.identity_view() == placed_identity(definition.enum_type, document@, shared@),
        r.description == definition.description,
        r.values == definition.values,
{
    let EnumDefinition { enum_type, description, values } = definition;
    let placed = match origin_lookup(shared, enum_type.name.as_str()) {
        Some(origin) => copy_enum_type(origin),
        None => EnumType { document: String::from_str(document), name: enum_type.name, shared_module: enum_type.shared_module },
    };
    EnumDefinition { enum_type: placed, description, values }
}

/// An input with its enumeration's origin set.
pub open spec fn input_placed(before: Input, after: Input, document: Seq<char>, shared: Seq<(String, EnumType)>) -> bool {
    match before {
        Input::Parameter(p) => after == Input::Parameter(p),
        Input::Enum { name, description, definition } => after matches Input::Enum { name: n, description: d, definition: e }
            && n == name && d == description && e.description == definition.description && e.values == definition.values
            && e.enum_type.identity_view() == placed_identity(definition.enum_type, document, shared),
    }
}

/// A function's inputs with the origins of their enumerations set.
pub fn inputs_with_origins(inputs: Vec<Input>, document: &str, shared: &Vec<(String, EnumType)>) -> (r: Vec<Input>)
    ensures
        r.len() == inputs.len(),
        forall|i: int| 0 <= i < inputs.len() ==> input_placed(inputs@[i], #[trigger] r@[i], document@, shared@),
{
    let ghost original = inputs@;
    let mut rest = inputs;
    let mut out: Vec<Input> = Vec::new();
    while rest.len() > 0
        invariant
            out.len() + rest.len() == original.len(),
            rest@ == original.subrange(out.len() as int, original.len() as int),
            forall|i: int| 0 <= i < out.len() ==> input_placed(original[i], #[trigger] out@[i], document@, shared@),
        decreases rest.len(),
    {
        let input = rest.remove(0);
        assert(input == original[out.len() as int]);
        let placed = match input {
            Input::Parameter(p) => Input::Parameter(p),
            Input::Enum { name, description, definition } => Input::Enum {
                name,
                description,
                definition: with_origin(definition, document, shared),
            },
        };
        out.push(placed);
        assert(rest@ =~= original.subrange(out.len() as int, original.len() as int));
    }
    out
}

/// A lookup definition with the origin of its key enumeration set.
pub fn lookup_with_origin(lookup: LookupDefinition, document: &str, shared: &Vec<(String, EnumType)>) -> (r: LookupDefinition)
    ensures
        r.name == lookup.name,
        r.input == lookup.input,
        r.output == lookup.output,
        r.values == lookup.values,
        r.output_type == lookup.output_type,
        match lookup.input_type {
            Some(d) => r.input_type matches Some(e) && e.description == d.description && e.values == d.values
                && e.enum_type.identity_view() == placed_identity(d.enum_type, document@, shared@),
            None => r.input_type is None,
        },
{
    let LookupDefinition { name, input, output, values, input_type, output_type } = lookup;
    let input_type = match input_type {
        Some(d) => Some(with_origin(d, document, shared)),
        None => None,
    };
    LookupDefinition { name, input, output, values, input_type, output_type }
}

/// A tree input with its enumeration's origin set.
pub open spec fn tree_input_placed(before: TreeInput, after: TreeInput, document: Seq<char>, shared: Seq<(String, EnumType)>) -> bool {
    match before {
        TreeInput::Number { name } => after == TreeInput::Number { name },
        TreeInput::Enum { name, reference, definition } => after matches TreeInput::Enum { name: n, reference: f, definition: e }
            && n == name && f == reference && match definition {
                Some(d) => e matches Some(x) && x.description == d.description && x.values == d.values
                    && x.enum_type.identity_view() == placed_identity(d.enum_type, document, shared),
                None => e is None,
            },
    }
}

/// A tree definition with the origins of its inputs' enumerations set.
pub fn tree_with_origins(tree: TreeDefinition, document: &str, shared: &Vec<(String, EnumType)>) -> (r: TreeDefinition)
    ensures
        r.name == tree.name,
        r.output == tree.output,
        r.root == tree.root,
        r.output_type == tree.output_type,
        r.inputs.len() == tree.inputs.len(),
        forall|i: int| 0 <= i < tree.inputs.len() ==> tree_input_placed(tree.inputs@[i], #[trigger] r.inputs@[i], document@, shared@),
{
    let TreeDefinition { name, inputs, output, root, output_type } = tree;
    let ghost original = inputs@;
    let mut rest = inputs;
    let mut out: Vec<TreeInput> = Vec::new();
    while rest.len() > 0
        invariant
            out.len() + rest.len() == original.len(),
            rest@ == original.subrange(out.len() as int, original.len() as int),
            forall|i: int| 0 <= i < out.len() ==> tree_input_placed(original[i], #[trigger] out@[i], document@, shared@),
        decreases rest.len(),
    {
        let input = rest.remove(0);
        assert(input == original[out.len() as int]);
        let placed = match input {
            TreeInput::Number { name } => TreeInput::Number { name },
            TreeInput::Enum { name, reference, definition } => TreeInput::Enum {
                name,
                reference,
                definition: match definition {
                    Some(d) => Some(with_origin(d, document, shared)),
                    None => None,
                },
            },
        };
        out.push(placed);
        assert(rest@ =~= original.subrange(out.len() as int, original.len() as int));
    }
    TreeDefinition { name, inputs: out, output, root, output_type }
}

/// Whether a definitions document's module name is one that the generated code reserves:
/// `enums`, `lib`, `mod`, `ptfkit` or `test_support`.
pub open spec fn is_reserved_module(module: Seq<char>) -> bool {
    module == "enums"@ || module == "lib"@ || module == "mod"@ || module == "ptfkit"@ || module == "test_support"@
}


/// Inputs placed one for one: the same names, and the same enumeration inputs with a
/// resolved enumeration.
pub open spec fn all_tree_inputs_placed(a: Seq<TreeInput>, b: Seq<TreeInput>, document: Seq<char>, shared: Seq<(String, EnumType)>) -> bool {
    &&& a.len() == b.len()
    &&& forall|k: int| 0 <= k < a.len() ==> tree_input_placed(#[trigger] a[k], b[k], document, shared)
}

proof fn lemma_placed_position(a: Seq<TreeInput>, b: Seq<TreeInput>, document: Seq<char>, shared: Seq<(String, EnumType)>, name: Seq<char>)
    requires
        all_tree_inputs_placed(a, b, document, shared),
    ensures
        input_position(a, name) == input_position(b, name),
        input_position(a, name) matches Some(k) ==> 0 <= k < a.len(),
        input_enum(a, name) is Some <==> input_enum(b, name) is Some,
    decreases a.len(),
{
    if a.len() > 0 {
        assert(tree_input_placed(a[0], b[0], document, shared));
        let (ra, rb) = (a.drop_first(), b.drop_first());
        assert forall|k: int| 0 <= k < ra.len() implies tree_input_placed(#[trigger] ra[k], rb[k], document, shared) by {
            assert(tree_input_placed(a[k + 1], b[k + 1], document, shared));
        }
        lemma_placed_position(ra, rb, document, shared, name);
        match input_position(a, name) {
            Some(k) => {
                assert(tree_input_placed(a[k], b[k], document, shared));
            },
            None => {},
        }
    }
}

proof fn lemma_placed_node(a: Seq<TreeInput>, b: Seq<TreeInput>, document: Seq<char>, shared: Seq<(String, EnumType)>, output: Option<Outputs>, node: DecisionTree)
    requires
        all_tree_inputs_placed(a, b, document, shared),
    ensures
        node_resolved(a, output, node) == node_resolved(b, output, node),
    decreases node,
{
    match node {
        DecisionTree::Leaf(_) => {},
        DecisionTree::Split { split, yes, no } => {
            match split {
                DecisionTreeSplit::LessThan { input, .. } => lemma_placed_position(a, b, document, shared, input@),
                DecisionTreeSplit::EnumIn { input, .. } => lemma_placed_position(a, b, document, shared, input@),
            }
            lemma_placed_node(a, b, document, shared, output, *yes);
            lemma_placed_node(a, b, document, shared, output, *no);
        },
        DecisionTree::Match { input, cases } => {
            lemma_placed_position(a, b, document, shared, input@);
            lemma_placed_cases(a, b, document, shared, output, cases@);
        },
    }
}

proof fn lemma_placed_cases(a: Seq<TreeInput>, b: Seq<TreeInput>, document: Seq<char>, shared: Seq<(String, EnumType)>, output: Option<Outputs>, cases: Seq<DecisionTreeMatchCase>)
    requires
        all_tree_inputs_placed(a, b, document, shared),
    ensures
        cases_resolved(a, output, cases) == cases_resolved(b, output, cases),
    decreases cases,
{
    if cases.len() > 0 {
        lemma_placed_cases(a, b, document, shared, output, cases.drop_last());
        lemma_placed_node(a, b, document, shared, output, *cases.last().subtree);
    }
}

/// Setting the origins of a tree's enumerations keeps it resolved.
pub proof fn lemma_placed_tree_resolved(before: TreeDefinition, after: TreeDefinition, document: Seq<char>, shared: Seq<(String, EnumType)>)
    requires
        tree_resolved(before),
        after.root == before.root,
        after.output_type == before.output_type,
        all_tree_inputs_placed(before.inputs@, after.inputs@, document, shared),
    ensures
        tree_resolved(after),
{
    lemma_placed_node(before.inputs@, after.inputs@, document, shared, before.output_type, before.root);
    assert forall|k: int| 0 <= k < after.inputs.len() implies !((#[trigger] after.inputs@[k]) matches TreeInput::Enum { definition: None, .. }) by {
        assert(tree_input_placed(before.inputs@[k], after.inputs@[k], document, shared));
        assert(!(before.inputs@[k] matches TreeInput::Enum { definition: None, .. }));
    }
}

/// Whether a definitions document's module name is reserved (see `is_reserved_module`).
pub fn reserved_module(module: &str) -> (r: bool)
    ensures
        r == is_reserved_module(module@),
{
    text_equal(module, "enums") || text_equal(module, "lib") || text_equal(module, "mod") || text_equal(module, "ptfkit")
        || text_equal(module, "test_support")
}

} // verus!
