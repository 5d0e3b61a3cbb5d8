//! Categorical input adapters: the rules an adapter specification must follow, and the
//! registry of adapters by identifier and by the input type they serve.
//!
//! An adapter's numbers are binary64; what the rules read of them is carried here as
//! plain facts (whether a domain is valid, whether a component lies in its output's
//! domain, whether a row's sum is within tolerance, and the sum and tolerance as
//! printed).

use vstd::prelude::*;
use vstd::string::*;
use crate::render::markdown::{char_is_whitespace, is_whitespace};
use crate::semantic::{ascending, strings_view};
use crate::strings::{lemma_text_less_irreflexive, lemma_text_less_total, lemma_text_less_transitive, text_before, text_less};
use crate::strings::{chars_of, str_equal};
use crate::validate::{blank, find_key, is_blank, is_identifier, lookup, valid_identifier};

verus! {

/// The categorical input an adapter maps: its type name, description and categories.
#[derive(Debug)]
pub struct CategoricalInputType {
    pub name: String,
    pub description: String,
    pub categories: Vec<String>,
}

/// One numeric component an adapter produces.
#[derive(Debug)]
pub struct AdapterOutput {
    pub name: String,
    pub unit: String,
    pub description: String,
    /// Whether both domain bounds are finite and the lower is not above the upper.
    pub domain_valid: bool,
}

/// The representative components of one category.
#[derive(Debug)]
pub struct Representative {
    pub category: String,
    /// Each component by output name (names in ascending order, each once), with
    /// whether its value is finite and within that output's domain.
    pub values: Vec<(String, bool)>,
    /// The sum of the components in output order, as printed.
    pub sum: String,
    /// Whether the sum is within the tolerance of the target.
    pub sum_within_tolerance: bool,
}

/// Where the representative values come from.
#[derive(Debug)]
pub struct Provenance {
    pub organization: String,
    pub title: String,
    pub artifact: String,
    pub retrieved: String,
    pub url: String,
    pub sha256: String,
    pub value_rule: String,
}

/// An adapter specification.
#[derive(Debug)]
pub struct Adapter {
    pub adapter_id: String,
    pub input_type: CategoricalInputType,
    pub outputs: Vec<AdapterOutput>,
    pub representatives: Vec<Representative>,
    /// The tolerance of the sum constraint, as printed.
    pub sum_tolerance: String,
    pub provenance: Provenance,
}

/// `path: text`.
pub open spec fn at_path(path: Seq<char>, text: Seq<char>) -> Seq<char> {
    path + ": "@ + text
}

pub open spec fn ticked(text: Seq<char>) -> Seq<char> {
    "`"@ + text + "`"@
}

/// Whether some text occurs twice.
pub open spec fn has_repeat(names: Seq<Seq<char>>) -> bool {
    exists|i: int, j: int| 0 <= i < j < names.len() && names[i] == names[j]
}

/// Whether a category is an exact lowercase value: not empty, not changed by trimming,
/// and made of lowercase ASCII letters and spaces.
pub open spec fn exact_category(c: Seq<char>) -> bool {
    &&& c.len() > 0
    &&& !is_whitespace(c[0])
    &&& !is_whitespace(c.last())
    &&& forall|k: int| 0 <= k < c.len() ==> (('a' <= #[trigger] c[k] && c[k] <= 'z') || c[k] == ' ')
}

pub open spec fn output_names(outputs: Seq<AdapterOutput>) -> Seq<Seq<char>> {
    outputs.map_values(|o: AdapterOutput| o.name@)
}

pub open spec fn representative_categories(rows: Seq<Representative>) -> Seq<Seq<char>> {
    rows.map_values(|r: Representative| r.category@)
}

pub open spec fn value_names(values: Seq<(String, bool)>) -> Seq<Seq<char>> {
    values.map_values(|v: (String, bool)| v.0@)
}

/// The message when a condition holds, else nothing.
pub open spec fn when(condition: bool, message: Seq<char>) -> Seq<Seq<char>> {
    if condition {
        seq![message]
    } else {
        seq![]
    }
}

/// The errors of each output's metadata, in output order.
pub open spec fn output_errors(path: Seq<char>, outputs: Seq<AdapterOutput>) -> Seq<Seq<char>>
    decreases outputs.len(),
{
    if outputs.len() == 0 {
        seq![]
    } else {
        let o = outputs.last();
        output_errors(path, outputs.drop_last()) + when(
            !is_identifier(o.name@) || is_blank(o.unit@) || is_blank(o.description@) || !o.domain_valid,
            at_path(path, "output "@ + ticked(o.name@) + " has invalid metadata or domain"@),
        )
    }
}

/// The components of a row outside their domains, in output order.
pub open spec fn component_errors(path: Seq<char>, row: Representative, outputs: Seq<AdapterOutput>) -> Seq<Seq<char>>
    decreases outputs.len(),
{
    if outputs.len() == 0 {
        seq![]
    } else {
        component_errors(path, row, outputs.drop_last()) + when(
            lookup(row.values@, outputs.last().name@) != Some(true),
            at_path(path, "category "@ + ticked(row.category@) + " component "@ + ticked(outputs.last().name@) + " is outside its domain"@),
        )
    }
}

/// The errors of one category's row: an unknown category or a mapping whose components
/// are not exactly the outputs; else each component outside its domain, then a sum
/// outside tolerance.
pub open spec fn row_errors(path: Seq<char>, a: Adapter, row: Representative) -> Seq<Seq<char>> {
    if !strings_view(a.input_type.categories@).contains(row.category@)
        || value_names(row.values@).to_set() != output_names(a.outputs@).to_set() {
        seq![at_path(path, "category "@ + ticked(row.category@) + " has an invalid or incomplete output mapping"@)]
    } else {
        component_errors(path, row, a.outputs@) + when(
            !row.sum_within_tolerance,
            at_path(path, "category "@ + ticked(row.category@) + " sums to "@ + row.sum@ + ", outside tolerance "@ + a.sum_tolerance@),
        )
    }
}

pub open spec fn rows_errors(path: Seq<char>, a: Adapter, rows: Seq<Representative>) -> Seq<Seq<char>>
    decreases rows.len(),
{
    if rows.len() == 0 {
        seq![]
    } else {
        rows_errors(path, a, rows.drop_last()) + row_errors(path, a, rows.last())
    }
}

/// What is wrong with an adapter's identifiers, metadata, categories and set of outputs.
pub open spec fn head_errors(path: Seq<char>, a: Adapter) -> Seq<Seq<char>> {
    let categories = strings_view(a.input_type.categories@);
    when(
        !is_identifier(a.adapter_id@) || !is_identifier(a.input_type.name@),
        at_path(path, "adapter ID and input type must be lowercase identifiers"@),
    ) + when(
        is_blank(a.input_type.description@) || is_blank(a.provenance.organization@) || is_blank(a.provenance.title@)
            || is_blank(a.provenance.value_rule@),
        at_path(path, "input metadata and provenance must be non-empty"@),
    ) + when(
        has_repeat(categories) || exists|k: int| 0 <= k < categories.len() && !exact_category(#[trigger] categories[k]),
        at_path(path, "categories must be unique exact lowercase values with deterministic array ordering"@),
    ) + when(
        has_repeat(output_names(a.outputs@)) || a.outputs.len() == 0,
        at_path(path, "adapter outputs must be non-empty and unique"@),
    )
}

/// Everything wrong with an adapter, in the order the rules are checked.
pub open spec fn adapter_errors(path: Seq<char>, a: Adapter) -> Seq<Seq<char>> {
    head_errors(path, a) + output_errors(path, a.outputs@) + when(
        representative_categories(a.representatives@) != strings_view(a.input_type.categories@),
        at_path(path, "representative mappings must appear exactly once in category order"@),
    ) + rows_errors(path, a, a.representatives@)
}

fn push_at(errors: &mut Vec<String>, path: &str, text: &str)
    ensures
        strings_view(final(errors)@) == strings_view(old(errors)@).push(at_path(path@, text@)),
{
    let mut m = String::from_str(path);
    m.append(": ");
    m.append(text);
    let ghost before = strings_view(errors@);
    errors.push(m);
    assert(strings_view(errors@) =~= before.push(at_path(path@, text@)));
}

fn repeats(names: &Vec<String>) -> (r: bool)
    ensures
        r == has_repeat(strings_view(names@)),
{
    let ghost v = strings_view(names@);
    let mut i: usize = 0;
    while i < names.len()
        invariant
            i <= names.len(),
            v == strings_view(names@),
            forall|a: int, b: int| 0 <= a < b < names.len() && a < i ==> v[a] != v[b],
        decreases names.len() - i,
    {
        let mut j: usize = i + 1;
        while j < names.len()
            invariant
                i < j <= names.len(),
                v == strings_view(names@),
                forall|b: int| i < b < j ==> v[i as int] != v[b],
            decreases names.len() - j,
        {
            if str_equal(names[i].as_str(), names[j].as_str()) {
                assert(v[i as int] == v[j as int]);
                return true;
            }
            j = j + 1;
        }
        i = i + 1;
    }
    false
}

fn category_exact(c: &str) -> (r: bool)
    ensures
        r == exact_category(c@),
{
    let cs = chars_of(c);
    if cs.len() == 0 || char_is_whitespace(cs[0]) || char_is_whitespace(cs[cs.len() - 1]) {
        return false;
    }
    let mut k: usize = 0;
    while k < cs.len()
        invariant
            k <= cs.len(),
            cs@ == c@,
            forall|j: int| 0 <= j < k ==> (('a' <= #[trigger] cs@[j] && cs@[j] <= 'z') || cs@[j] == ' '),
        decreases cs.len() - k,
    {
        let ch = cs[k];
        if !(('a' <= ch && ch <= 'z') || ch == ' ') {
            return false;
        }
        k = k + 1;
    }
    true
}

fn any_inexact(categories: &Vec<String>) -> (r: bool)
    ensures
        r == exists|k: int| 0 <= k < categories.len() && !exact_category(#[trigger] strings_view(categories@)[k]),
{
    let ghost cs = strings_view(categories@);
    let mut k: usize = 0;
    while k < categories.len()
        invariant
            k <= categories.len(),
            cs == strings_view(categories@),
            forall|j: int| 0 <= j < k ==> exact_category(#[trigger] cs[j]),
        decreases categories.len() - k,
    {
        assert(cs[k as int] == categories@[k as int]@);
        if !category_exact(categories[k].as_str()) {
            return true;
        }
        k = k + 1;
    }
    false
}

fn names_of_outputs(outputs: &Vec<AdapterOutput>) -> (r: Vec<String>)
    ensures
        strings_view(r@) == output_names(outputs@),
{
    let mut r: Vec<String> = Vec::new();
    let mut k: usize = 0;
    while k < outputs.len()
        invariant
            k <= outputs.len(),
            strings_view(r@) == output_names(outputs@).take(k as int),
        decreases outputs.len() - k,
    {
        let ghost prev = strings_view(r@);
        r.push(outputs[k].name.clone());
        assert(strings_view(r@) =~= prev.push(outputs@[k as int].name@));
        assert(output_names(outputs@).take(k + 1) =~= output_names(outputs@).take(k as int).push(outputs@[k as int].name@));
        k = k + 1;
    }
    assert(output_names(outputs@).take(outputs.len() as int) =~= output_names(outputs@));
    r
}

fn contains_text(names: &Vec<String>, x: &str) -> (r: bool)
    ensures
        r == strings_view(names@).contains(x@),
{
    let mut k: usize = 0;
    while k < names.len()
        invariant
            k <= names.len(),
            forall|j: int| 0 <= j < k ==> names@[j]@ != x@,
        decreases names.len() - k,
    {
        if str_equal(names[k].as_str(), x) {
            assert(strings_view(names@)[k as int] == x@);
            return true;
        }
        k = k + 1;
    }
    false
}

fn value_contains(values: &Vec<(String, bool)>, x: &str) -> (r: bool)
    ensures
        r == value_names(values@).contains(x@),
{
    let mut k: usize = 0;
    while k < values.len()
        invariant
            k <= values.len(),
            forall|j: int| 0 <= j < k ==> values@[j].0@ != x@,
        decreases values.len() - k,
    {
        if str_equal(values[k].0.as_str(), x) {
            assert(value_names(values@)[k as int] == x@);
            return true;
        }
        k = k + 1;
    }
    false
}

/// Whether the row's components are exactly the outputs, as sets of names.
fn same_components(values: &Vec<(String, bool)>, outputs: &Vec<String>) -> (r: bool)
    ensures
        r == (value_names(values@).to_set() == strings_view(outputs@).to_set()),
{
    let ghost vs = value_names(values@);
    let ghost os = strings_view(outputs@);
    let mut k: usize = 0;
    while k < values.len()
        invariant
            k <= values.len(),
            vs == value_names(values@),
            os == strings_view(outputs@),
            forall|j: int| 0 <= j < k ==> os.contains(#[trigger] vs[j]),
        decreases values.len() - k,
    {
        assert(vs[k as int] == values@[k as int].0@);
        if !contains_text(outputs, values[k].0.as_str()) {
            assert(vs.to_set().contains(vs[k as int]));
            assert(!os.to_set().contains(vs[k as int]));
            return false;
        }
        k = k + 1;
    }
    let mut m: usize = 0;
    while m < outputs.len()
        invariant
            m <= outputs.len(),
            vs == value_names(values@),
            os == strings_view(outputs@),
            forall|j: int| 0 <= j < values.len() ==> os.contains(#[trigger] vs[j]),
            forall|j: int| 0 <= j < m ==> vs.contains(#[trigger] os[j]),
        decreases outputs.len() - m,
    {
        assert(os[m as int] == outputs@[m as int]@);
        if !value_contains(values, outputs[m].as_str()) {
            assert(os.to_set().contains(os[m as int]));
            assert(!vs.to_set().contains(os[m as int]));
            return false;
        }
        m = m + 1;
    }
    assert(vs.to_set() =~= os.to_set());
    true
}

fn same_order(rows: &Vec<Representative>, categories: &Vec<String>) -> (r: bool)
    ensures
        r == (representative_categories(rows@) == strings_view(categories@)),
{
    if rows.len() != categories.len() {
        assert(representative_categories(rows@).len() != strings_view(categories@).len());
        return false;
    }
    let mut k: usize = 0;
    while k < rows.len()
        invariant
            k <= rows.len(),
            rows.len() == categories.len(),
            forall|j: int| 0 <= j < k ==> representative_categories(rows@)[j] == strings_view(categories@)[j],
        decreases rows.len() - k,
    {
        if !str_equal(rows[k].category.as_str(), categories[k].as_str()) {
            assert(representative_categories(rows@)[k as int] != strings_view(categories@)[k as int]);
            return false;
        }
        k = k + 1;
    }
    assert(representative_categories(rows@) =~= strings_view(categories@));
    true
}

/// Appends the errors of each output's metadata.
fn check_outputs(path: &str, outputs: &Vec<AdapterOutput>, errors: &mut Vec<String>)
    ensures
        strings_view(final(errors)@) == strings_view(old(errors)@) + output_errors(path@, outputs@),
{
    let ghost start = strings_view(errors@);
    let mut i: usize = 0;
    assert(outputs@.take(0) =~= Seq::<AdapterOutput>::empty());
    assert(start + output_errors(path@, outputs@.take(0)) =~= start);
    while i < outputs.len()
        invariant
            i <= outputs.len(),
            strings_view(errors@) == start + output_errors(path@, outputs@.take(i as int)),
        decreases outputs.len() - i,
    {
        let o = &outputs[i];
        let ghost before = strings_view(errors@);
        let bad = !valid_identifier(o.name.as_str()) || blank(o.unit.as_str()) || blank(o.description.as_str()) || !o.domain_valid;
        if bad {
            let mut m = String::from_str("output ");
            m.append("`");
            m.append(o.name.as_str());
            m.append("`");
            m.append(" has invalid metadata or domain");
            assert(m@ == "output "@ + ticked(o.name@) + " has invalid metadata or domain"@);
            push_at(errors, path, m.as_str());
        }
        assert(outputs@.take(i + 1).drop_last() =~= outputs@.take(i as int));
        assert(outputs@.take(i + 1).last() == outputs@[i as int]);
        assert(output_errors(path@, outputs@.take(i + 1)) == output_errors(path@, outputs@.take(i as int)) + when(
            bad,
            at_path(path@, "output "@ + ticked(o.name@) + " has invalid metadata or domain"@),
        ));
        assert(strings_view(errors@) =~= start + output_errors(path@, outputs@.take(i + 1)));
        i = i + 1;
    }
    assert(outputs@.take(outputs.len() as int) =~= outputs@);
}

/// Appends the errors of one category's row.
fn check_row(path: &str, adapter: &Adapter, row: &Representative, names: &Vec<String>, errors: &mut Vec<String>)
    requires
        strings_view(names@) == output_names(adapter.outputs@),
    ensures
        strings_view(final(errors)@) == strings_view(old(errors)@) + row_errors(path@, *adapter, *row),
{
    let ghost start = strings_view(errors@);
    if !contains_text(&adapter.input_type.categories, row.category.as_str()) || !same_components(&row.values, names) {
        let mut m = String::from_str("category ");
        m.append("`");
        m.append(row.category.as_str());
        m.append("`");
        m.append(" has an invalid or incomplete output mapping");
        assert(m@ == "category "@ + ticked(row.category@) + " has an invalid or incomplete output mapping"@);
        push_at(errors, path, m.as_str());
        assert(strings_view(errors@) =~= start + row_errors(path@, *adapter, *row));
        return;
    }
    let outputs = &adapter.outputs;
    let mut j: usize = 0;
    assert(outputs@.take(0) =~= Seq::<AdapterOutput>::empty());
    assert(start + component_errors(path@, *row, outputs@.take(0)) =~= start);
    while j < outputs.len()
        invariant
            j <= outputs.len(),
            *outputs == adapter.outputs,
            strings_view(errors@) == start + component_errors(path@, *row, outputs@.take(j as int)),
        decreases outputs.len() - j,
    {
        let o = &outputs[j];
        let inside = match find_key(&row.values, o.name.as_str()) {
            Some(p) => row.values[p].1,
            None => false,
        };
        assert(inside == (lookup(row.values@, o.name@) == Some(true)));
        if !inside {
            let mut m = String::from_str("category ");
            m.append("`");
            m.append(row.category.as_str());
            m.append("`");
            m.append(" component ");
            m.append("`");
            m.append(o.name.as_str());
            m.append("`");
            m.append(" is outside its domain");
            assert(m@ == "category "@ + ticked(row.category@) + " component "@ + ticked(o.name@) + " is outside its domain"@);
            push_at(errors, path, m.as_str());
        }
        assert(outputs@.take(j + 1).drop_last() =~= outputs@.take(j as int));
        assert(outputs@.take(j + 1).last() == outputs@[j as int]);
        assert(strings_view(errors@) =~= start + component_errors(path@, *row, outputs@.take(j + 1)));
        j = j + 1;
    }
    assert(outputs@.take(outputs.len() as int) =~= outputs@);
    let ghost middle = strings_view(errors@);
    if !row.sum_within_tolerance {
        let mut m = String::from_str("category ");
        m.append("`");
        m.append(row.category.as_str());
        m.append("`");
        m.append(" sums to ");
        m.append(row.sum.as_str());
        m.append(", outside tolerance ");
        m.append(adapter.sum_tolerance.as_str());
        assert(m@ == "category "@ + ticked(row.category@) + " sums to "@ + row.sum@ + ", outside tolerance "@ + adapter.sum_tolerance@);
        push_at(errors, path, m.as_str());
    }
    assert(strings_view(errors@) =~= start + row_errors(path@, *adapter, *row));
}

fn check_head(path: &str, a: &Adapter, errors: &mut Vec<String>)
    ensures
        strings_view(final(errors)@) == strings_view(old(errors)@) + head_errors(path@, *a),
{
    let ghost start = strings_view(errors@);
    let c1 = !valid_identifier(a.adapter_id.as_str()) || !valid_identifier(a.input_type.name.as_str());
    if c1 {
        push_at(errors, path, "adapter ID and input type must be lowercase identifiers");
    }
    let ghost s1 = strings_view(errors@);
    assert(s1 == start + when(c1, at_path(path@, "adapter ID and input type must be lowercase identifiers"@)));
    let c2 = blank(a.input_type.description.as_str()) || blank(a.provenance.organization.as_str())
        || blank(a.provenance.title.as_str()) || blank(a.provenance.value_rule.as_str());
    if c2 {
        push_at(errors, path, "input metadata and provenance must be non-empty");
    }
    let ghost s2 = strings_view(errors@);
    assert(s2 == s1 + when(c2, at_path(path@, "input metadata and provenance must be non-empty"@)));
    let c3 = repeats(&a.input_type.categories) || any_inexact(&a.input_type.categories);
    if c3 {
        push_at(errors, path, "categories must be unique exact lowercase values with deterministic array ordering");
    }
    let ghost s3 = strings_view(errors@);
    assert(s3 == s2 + when(c3, at_path(path@, "categories must be unique exact lowercase values with deterministic array ordering"@)));
    let names = names_of_outputs(&a.outputs);
    let c4 = repeats(&names) || a.outputs.len() == 0;
    if c4 {
        push_at(errors, path, "adapter outputs must be non-empty and unique");
    }
    assert(strings_view(errors@) == s3 + when(c4, at_path(path@, "adapter outputs must be non-empty and unique"@)));
    assert(strings_view(errors@) =~= start + head_errors(path@, *a));
}

/// Appends to `errors` everything wrong with the adapter read from `path`, in the order
/// the rules are checked (see `adapter_errors`).
pub fn validate_adapter(path: &str, adapter: &Adapter, errors: &mut Vec<String>)
    ensures
        strings_view(final(errors)@) == strings_view(old(errors)@) + adapter_errors(path@, *adapter),
{
    let ghost start = strings_view(errors@);
    let a = adapter;
    check_head(path, a, errors);
    let names = names_of_outputs(&a.outputs);
    check_outputs(path, &a.outputs, errors);
    let c6 = !same_order(&a.representatives, &a.input_type.categories);
    if c6 {
        push_at(errors, path, "representative mappings must appear exactly once in category order");
    }
    let ghost s6 = strings_view(errors@);
    assert(s6 == start + head_errors(path@, *a) + output_errors(path@, a.outputs@) + when(
        c6,
        at_path(path@, "representative mappings must appear exactly once in category order"@),
    ));
    let mut w: usize = 0;
    assert(a.representatives@.take(0) =~= Seq::<Representative>::empty());
    assert(s6 + rows_errors(path@, *a, a.representatives@.take(0)) =~= s6);
    while w < a.representatives.len()
        invariant
            w <= a.representatives.len(),
            strings_view(names@) == output_names(a.outputs@),
            strings_view(errors@) == s6 + rows_errors(path@, *a, a.representatives@.take(w as int)),
        decreases a.representatives.len() - w,
    {
        check_row(path, a, &a.representatives[w], &names, errors);
        assert(a.representatives@.take(w + 1).drop_last() =~= a.representatives@.take(w as int));
        assert(a.representatives@.take(w + 1).last() == a.representatives@[w as int]);
        assert(strings_view(errors@) =~= s6 + rows_errors(path@, *a, a.representatives@.take(w + 1)));
        w = w + 1;
    }
    assert(a.representatives@.take(a.representatives.len() as int) =~= a.representatives@);
    assert(strings_view(errors@) =~= start + adapter_errors(path@, *adapter));
}

/// The identifiers of adapters, in order.
pub open spec fn adapter_ids(adapters: Seq<Adapter>) -> Seq<Seq<char>> {
    adapters.map_values(|a: Adapter| a.adapter_id@)
}

/// The adapter with identifier `id` (the first one).
pub open spec fn adapter_for(adapters: Seq<Adapter>, id: Seq<char>) -> Option<Adapter>
    decreases adapters.len(),
{
    if adapters.len() == 0 {
        None
    } else if adapters[0].adapter_id@ == id {
        Some(adapters[0])
    } else {
        adapter_for(adapters.drop_first(), id)
    }
}

proof fn lemma_adapter_first(adapters: Seq<Adapter>, id: Seq<char>, i: int)
    requires
        0 <= i < adapters.len(),
        adapters[i].adapter_id@ == id,
        forall|j: int| 0 <= j < i ==> adapters[j].adapter_id@ != id,
    ensures
        adapter_for(adapters, id) == Some(adapters[i]),
    decreases i,
{
    if i > 0 {
        lemma_adapter_first(adapters.drop_first(), id, i - 1);
    }
}

proof fn lemma_adapter_absent(adapters: Seq<Adapter>, id: Seq<char>)
    requires
        forall|j: int| 0 <= j < adapters.len() ==> adapters[j].adapter_id@ != id,
    ensures
        adapter_for(adapters, id) is None,
    decreases adapters.len(),
{
    if adapters.len() > 0 {
        lemma_adapter_absent(adapters.drop_first(), id);
    }
}

/// Among adapters in ascending order of identifier, the one at `i` is the adapter of its
/// identifier.
proof fn lemma_adapter_at(adapters: Seq<Adapter>, i: int)
    requires
        ascending(adapter_ids(adapters)),
        0 <= i < adapters.len(),
    ensures
        adapter_for(adapters, adapters[i].adapter_id@) == Some(adapters[i]),
{
    let ids = adapter_ids(adapters);
    assert forall|j: int| 0 <= j < i implies adapters[j].adapter_id@ != adapters[i].adapter_id@ by {
        if adapters[j].adapter_id@ == adapters[i].adapter_id@ {
            assert(ids[j] == ids[i]);
            lemma_ascending_position(ids, j, i);
        }
    }
    lemma_adapter_first(adapters, adapters[i].adapter_id@, i);
}

/// The type names of registered input types, in order.
pub open spec fn type_names(types: Seq<(String, String)>) -> Seq<Seq<char>> {
    types.map_values(|t: (String, String)| t.0@)
}

/// The identifier of the adapter that serves input type `name` (the first entry).
pub open spec fn adapter_of_type(types: Seq<(String, String)>, name: Seq<char>) -> Option<Seq<char>>
    decreases types.len(),
{
    if types.len() == 0 {
        None
    } else if types[0].0@ == name {
        Some(types[0].1@)
    } else {
        adapter_of_type(types.drop_first(), name)
    }
}

proof fn lemma_type_first(types: Seq<(String, String)>, name: Seq<char>, i: int)
    requires
        0 <= i < types.len(),
        types[i].0@ == name,
        forall|j: int| 0 <= j < i ==> types[j].0@ != name,
    ensures
        adapter_of_type(types, name) == Some(types[i].1@),
    decreases i,
{
    if i > 0 {
        lemma_type_first(types.drop_first(), name, i - 1);
    }
}

proof fn lemma_type_absent(types: Seq<(String, String)>, name: Seq<char>)
    requires
        forall|j: int| 0 <= j < types.len() ==> types[j].0@ != name,
    ensures
        adapter_of_type(types, name) is None,
    decreases types.len(),
{
    if types.len() > 0 {
        lemma_type_absent(types.drop_first(), name);
    }
}

proof fn lemma_type_at(types: Seq<(String, String)>, i: int)
    requires
        ascending(type_names(types)),
        0 <= i < types.len(),
    ensures
        adapter_of_type(types, types[i].0@) == Some(types[i].1@),
{
    let names = type_names(types);
    assert forall|j: int| 0 <= j < i implies types[j].0@ != types[i].0@ by {
        if types[j].0@ == types[i].0@ {
            assert(names[j] == names[i]);
            lemma_ascending_position(names, j, i);
        }
    }
    lemma_type_first(types, types[i].0@, i);
}

proof fn lemma_ascending_position(keys: Seq<Seq<char>>, i: int, j: int)
    requires
        ascending(keys),
        0 <= i < keys.len(),
        0 <= j < keys.len(),
        keys[i] == keys[j],
    ensures
        i == j,
{
    if i < j {
        assert(text_less(keys[i], keys[j]));
        lemma_text_less_irreflexive(keys[i]);
    } else if j < i {
        assert(text_less(keys[j], keys[i]));
        lemma_text_less_irreflexive(keys[i]);
    }
}

/// Where `key` belongs among ascending keys: the first position whose key is not below it.
fn position_of(keys: &Vec<String>, key: &str) -> (r: usize)
    requires
        ascending(strings_view(keys@)),
    ensures
        r <= keys.len(),
        forall|i: int| 0 <= i < r ==> text_less(#[trigger] strings_view(keys@)[i], key@),
        r < keys.len() ==> !text_less(strings_view(keys@)[r as int], key@),
{
    let mut p: usize = 0;
    while p < keys.len() && text_before(keys[p].as_str(), key)
        invariant
            p <= keys.len(),
            forall|i: int| 0 <= i < p ==> text_less(#[trigger] strings_view(keys@)[i], key@),
        decreases keys.len() - p,
    {
        assert(strings_view(keys@)[p as int] == keys@[p as int]@);
        p = p + 1;
    }
    if p < keys.len() {
        assert(strings_view(keys@)[p as int] == keys@[p as int]@);
    }
    p
}

fn ids_of(adapters: &Vec<Adapter>) -> (r: Vec<String>)
    ensures
        strings_view(r@) == adapter_ids(adapters@),
{
    let mut r: Vec<String> = Vec::new();
    let mut k: usize = 0;
    while k < adapters.len()
        invariant
            k <= adapters.len(),
            strings_view(r@) == adapter_ids(adapters@).take(k as int),
        decreases adapters.len() - k,
    {
        let ghost prev = strings_view(r@);
        r.push(adapters[k].adapter_id.clone());
        assert(strings_view(r@) =~= prev.push(adapters@[k as int].adapter_id@));
        assert(adapter_ids(adapters@).take(k + 1) =~= adapter_ids(adapters@).take(k as int).push(adapters@[k as int].adapter_id@));
        k = k + 1;
    }
    assert(adapter_ids(adapters@).take(adapters.len() as int) =~= adapter_ids(adapters@));
    r
}

/// Puts `adapter` in its place among adapters kept in ascending order of identifier,
/// replacing one of the same identifier, which is returned.
fn insert_adapter(adapters: &mut Vec<Adapter>, adapter: Adapter) -> (previous: Option<Adapter>)
    requires
        ascending(adapter_ids(old(adapters)@)),
    ensures
        ascending(adapter_ids(final(adapters)@)),
        previous == adapter_for(old(adapters)@, adapter.adapter_id@),
        adapter_for(final(adapters)@, adapter.adapter_id@) == Some(adapter),
        forall|k: Seq<char>| k != adapter.adapter_id@ ==> #[trigger] adapter_for(final(adapters)@, k) == adapter_for(old(adapters)@, k),
        adapter_ids(final(adapters)@).to_set() == adapter_ids(old(adapters)@).to_set().insert(adapter.adapter_id@),
{
    let ghost old_adapters = adapters@;
    let ghost v = adapter_ids(adapters@);
    let ghost id = adapter.adapter_id@;
    let ids = ids_of(adapters);
    let p = position_of(&ids, adapter.adapter_id.as_str());
    if p < adapters.len() && str_equal_ids(&adapters[p].adapter_id, &adapter.adapter_id) {
        let previous = adapters.remove(p);
        adapters.insert(p, adapter);
        let ghost w = adapter_ids(adapters@);
        assert(adapters@ =~= old_adapters.update(p as int, adapter));
        assert(w =~= v.update(p as int, id));
        assert(ascending(w)) by {
            assert forall|i: int, j: int| 0 <= i < j < w.len() implies text_less(#[trigger] w[i], #[trigger] w[j]) by {
                assert(text_less(v[i], v[j]));
            }
        }
        proof {
            assert(old_adapters[p as int].adapter_id@ == id);
            assert(previous == old_adapters[p as int]);
            lemma_adapter_at(old_adapters, p as int);
            assert(adapters@[p as int] == adapter);
            lemma_adapter_at(adapters@, p as int);
            assert forall|k: Seq<char>| k != id implies #[trigger] adapter_for(adapters@, k) == adapter_for(old_adapters, k) by {
                if exists|i: int| 0 <= i < old_adapters.len() && old_adapters[i].adapter_id@ == k {
                    let c = choose|i: int| 0 <= i < old_adapters.len() && old_adapters[i].adapter_id@ == k;
                    assert(c != p);
                    assert(adapters@[c] == old_adapters[c]);
                    lemma_adapter_at(old_adapters, c);
                    lemma_adapter_at(adapters@, c);
                } else {
                    lemma_adapter_absent(old_adapters, k);
                    assert forall|j: int| 0 <= j < adapters@.len() implies adapters@[j].adapter_id@ != k by {
                        if j != p {
                            assert(adapters@[j] == old_adapters[j]);
                        }
                    }
                    lemma_adapter_absent(adapters@, k);
                }
            }
            assert(w.to_set() =~= v.to_set().insert(id)) by {
                assert(v.to_set().contains(id)) by {
                    assert(v[p as int] == id);
                }
                assert forall|x: Seq<char>| w.to_set().contains(x) <==> v.to_set().insert(id).contains(x) by {
                    if w.to_set().contains(x) {
                        let i = choose|i: int| 0 <= i < w.len() && w[i] == x;
                        if i != p {
                            assert(v[i] == x);
                        }
                    }
                    if v.to_set().contains(x) {
                        let i = choose|i: int| 0 <= i < v.len() && v[i] == x;
                        if i != p {
                            assert(w[i] == x);
                        } else {
                            assert(w[p as int] == x);
                        }
                    }
                }
            }
        }
        Some(previous)
    } else {
        if p < adapters.len() {
            proof {
                lemma_text_less_total(v[p as int], id);
            }
            assert(text_less(id, v[p as int]));
        }
        adapters.insert(p, adapter);
        let ghost w = adapter_ids(adapters@);
        assert(adapters@ =~= old_adapters.insert(p as int, adapter));
        assert(w =~= v.insert(p as int, id));
        assert(ascending(w)) by {
            assert forall|i: int, j: int| 0 <= i < j < w.len() implies text_less(#[trigger] w[i], #[trigger] w[j]) by {
                if j < p {
                    assert(w[i] == v[i] && w[j] == v[j]);
                } else if j == p {
                    assert(w[j] == id && w[i] == v[i]);
                } else if i == p {
                    assert(w[i] == id && w[j] == v[j - 1]);
                    if j - 1 > p {
                        assert(text_less(v[p as int], v[j - 1]));
                        lemma_text_less_transitive(id, v[p as int], v[j - 1]);
                    }
                } else if i < p {
                    assert(w[i] == v[i] && w[j] == v[j - 1]);
                    if j - 1 == p {
                        lemma_text_less_transitive(v[i], id, v[p as int]);
                    } else {
                        assert(text_less(v[p as int], v[j - 1]));
                        lemma_text_less_transitive(id, v[p as int], v[j - 1]);
                        lemma_text_less_transitive(v[i], id, v[j - 1]);
                    }
                } else {
                    assert(w[i] == v[i - 1] && w[j] == v[j - 1]);
                }
            }
        }
        proof {
            assert forall|j: int| 0 <= j < old_adapters.len() implies old_adapters[j].adapter_id@ != id by {
                assert(v[j] == old_adapters[j].adapter_id@);
                if j < p {
                    lemma_text_less_irreflexive(id);
                } else if j > p {
                    assert(text_less(v[p as int], v[j]));
                    lemma_text_less_transitive(id, v[p as int], v[j]);
                    lemma_text_less_irreflexive(id);
                } else {
                    lemma_text_less_irreflexive(id);
                }
            }
            lemma_adapter_absent(old_adapters, id);
            assert(adapters@[p as int] == adapter);
            lemma_adapter_at(adapters@, p as int);
            assert forall|k: Seq<char>| k != id implies #[trigger] adapter_for(adapters@, k) == adapter_for(old_adapters, k) by {
                if exists|i: int| 0 <= i < old_adapters.len() && old_adapters[i].adapter_id@ == k {
                    let c = choose|i: int| 0 <= i < old_adapters.len() && old_adapters[i].adapter_id@ == k;
                    let c2 = if c < p { c } else { c + 1 };
                    assert(adapters@[c2] == old_adapters[c]);
                    lemma_adapter_at(old_adapters, c);
                    lemma_adapter_at(adapters@, c2);
                } else {
                    lemma_adapter_absent(old_adapters, k);
                    assert forall|j: int| 0 <= j < adapters@.len() implies adapters@[j].adapter_id@ != k by {
                        if j < p {
                            assert(adapters@[j] == old_adapters[j]);
                        } else if j > p {
                            assert(adapters@[j] == old_adapters[j - 1]);
                        }
                    }
                    lemma_adapter_absent(adapters@, k);
                }
            }
            assert forall|x: Seq<char>| w.to_set().contains(x) <==> v.to_set().insert(id).contains(x) by {
                if w.to_set().contains(x) {
                    let i = choose|i: int| 0 <= i < w.len() && w[i] == x;
                    if i < p {
                        assert(v[i] == x);
                    } else if i > p {
                        assert(v[i - 1] == x);
                    }
                }
                if v.to_set().contains(x) {
                    let i = choose|i: int| 0 <= i < v.len() && v[i] == x;
                    if i < p {
                        assert(w[i] == x);
                    } else {
                        assert(w[i + 1] == x);
                    }
                }
                if x == id {
                    assert(w[p as int] == x);
                }
            }
            assert(w.to_set() =~= v.to_set().insert(id));
        }
        None
    }
}

fn str_equal_ids(a: &String, b: &String) -> (r: bool)
    ensures
        r == (a@ == b@),
{
    str_equal(a.as_str(), b.as_str())
}

fn names_of_types(types: &Vec<(String, String)>) -> (r: Vec<String>)
    ensures
        strings_view(r@) == type_names(types@),
{
    let mut r: Vec<String> = Vec::new();
    let mut k: usize = 0;
    while k < types.len()
        invariant
            k <= types.len(),
            strings_view(r@) == type_names(types@).take(k as int),
        decreases types.len() - k,
    {
        let ghost prev = strings_view(r@);
        r.push(types[k].0.clone());
        assert(strings_view(r@) =~= prev.push(types@[k as int].0@));
        assert(type_names(types@).take(k + 1) =~= type_names(types@).take(k as int).push(types@[k as int].0@));
        k = k + 1;
    }
    assert(type_names(types@).take(types.len() as int) =~= type_names(types@));
    r
}

/// Records that input type `name` is served by adapter `id`, among types kept in
/// ascending order of name; the adapter that served it before is returned.
fn insert_type(types: &mut Vec<(String, String)>, name: String, id: String) -> (previous: Option<String>)
    requires
        ascending(type_names(old(types)@)),
    ensures
        ascending(type_names(final(types)@)),
        match previous {
            Some(p) => adapter_of_type(old(types)@, name@) == Some(p@),
            None => adapter_of_type(old(types)@, name@) is None,
        },
        adapter_of_type(final(types)@, name@) == Some(id@),
        forall|k: Seq<char>| k != name@ ==> #[trigger] adapter_of_type(final(types)@, k) == adapter_of_type(old(types)@, k),
{
    let ghost old_types = types@;
    let ghost v = type_names(types@);
    let ghost key = name@;
    let names = names_of_types(types);
    let p = position_of(&names, name.as_str());
    if p < types.len() && str_equal_ids(&types[p].0, &name) {
        let previous = types.remove(p);
        types.insert(p, (name, id));
        let ghost w = type_names(types@);
        assert(w =~= v.update(p as int, key));
        assert(ascending(w)) by {
            assert forall|i: int, j: int| 0 <= i < j < w.len() implies text_less(#[trigger] w[i], #[trigger] w[j]) by {
                assert(text_less(v[i], v[j]));
            }
        }
        proof {
            assert(old_types[p as int].0@ == key);
            lemma_type_at(old_types, p as int);
            assert(types@[p as int].0@ == key);
            lemma_type_at(types@, p as int);
            assert forall|k: Seq<char>| k != key implies #[trigger] adapter_of_type(types@, k) == adapter_of_type(old_types, k) by {
                if exists|i: int| 0 <= i < old_types.len() && old_types[i].0@ == k {
                    let c = choose|i: int| 0 <= i < old_types.len() && old_types[i].0@ == k;
                    assert(c != p);
                    assert(types@[c] == old_types[c]);
                    lemma_type_at(old_types, c);
                    lemma_type_at(types@, c);
                } else {
                    lemma_type_absent(old_types, k);
                    assert forall|j: int| 0 <= j < types@.len() implies types@[j].0@ != k by {
                        if j != p {
                            assert(types@[j] == old_types[j]);
                        }
                    }
                    lemma_type_absent(types@, k);
                }
            }
        }
        Some(previous.1)
    } else {
        if p < types.len() {
            proof {
                lemma_text_less_total(v[p as int], key);
            }
            assert(text_less(key, v[p as int]));
        }
        types.insert(p, (name, id));
        let ghost w = type_names(types@);
        assert(w =~= v.insert(p as int, key));
        assert(ascending(w)) by {
            assert forall|i: int, j: int| 0 <= i < j < w.len() implies text_less(#[trigger] w[i], #[trigger] w[j]) by {
                if j < p {
                    assert(w[i] == v[i] && w[j] == v[j]);
                } else if j == p {
                    assert(w[j] == key && w[i] == v[i]);
                } else if i == p {
                    assert(w[i] == key && w[j] == v[j - 1]);
                    if j - 1 > p {
                        assert(text_less(v[p as int], v[j - 1]));
                        lemma_text_less_transitive(key, v[p as int], v[j - 1]);
                    }
                } else if i < p {
                    assert(w[i] == v[i] && w[j] == v[j - 1]);
                    if j - 1 == p {
                        lemma_text_less_transitive(v[i], key, v[p as int]);
                    } else {
                        assert(text_less(v[p as int], v[j - 1]));
                        lemma_text_less_transitive(key, v[p as int], v[j - 1]);
                        lemma_text_less_transitive(v[i], key, v[j - 1]);
                    }
                } else {
                    assert(w[i] == v[i - 1] && w[j] == v[j - 1]);
                }
            }
        }
        proof {
            assert forall|j: int| 0 <= j < old_types.len() implies old_types[j].0@ != key by {
                assert(v[j] == old_types[j].0@);
                if j < p {
                    lemma_text_less_irreflexive(key);
                } else if j > p {
                    assert(text_less(v[p as int], v[j]));
                    lemma_text_less_transitive(key, v[p as int], v[j]);
                    lemma_text_less_irreflexive(key);
                } else {
                    lemma_text_less_irreflexive(key);
                }
            }
            lemma_type_absent(old_types, key);
            assert(types@[p as int].0@ == key);
            lemma_type_at(types@, p as int);
            assert forall|k: Seq<char>| k != key implies #[trigger] adapter_of_type(types@, k) == adapter_of_type(old_types, k) by {
                if exists|i: int| 0 <= i < old_types.len() && old_types[i].0@ == k {
                    let c = choose|i: int| 0 <= i < old_types.len() && old_types[i].0@ == k;
                    let c2 = if c < p { c } else { c + 1 };
                    assert(types@[c2] == old_types[c]);
                    lemma_type_at(old_types, c);
                    lemma_type_at(types@, c2);
                } else {
                    lemma_type_absent(old_types, k);
                    assert forall|j: int| 0 <= j < types@.len() implies types@[j].0@ != k by {
                        if j < p {
                            assert(types@[j] == old_types[j]);
                        } else if j > p {
                            assert(types@[j] == old_types[j - 1]);
                        }
                    }
                    lemma_type_absent(types@, k);
                }
            }
        }
        None
    }
}

/// The message of an adapter identifier declared twice.
pub open spec fn duplicate_id_message(path: Seq<char>, id: Seq<char>, previous: Seq<char>) -> Seq<char> {
    at_path(path, "duplicate adapter ID "@ + ticked(id) + " (also declared by "@ + ticked(previous) + ")"@)
}

/// The message of an input type that two adapters serve.
pub open spec fn duplicate_type_message(path: Seq<char>, name: Seq<char>, previous: Seq<char>, id: Seq<char>) -> Seq<char> {
    at_path(path, "duplicate registered input type "@ + ticked(name) + " (adapters "@ + ticked(previous) + " and "@ + ticked(id) + ")"@)
}

/// The adapters by identifier, and the input types they serve.
#[derive(Debug)]
pub struct AdapterRegistry {
    /// The adapters, in ascending order of identifier.
    pub adapters: Vec<Adapter>,
    /// Each input type's name with the identifier of the adapter that serves it, in
    /// ascending order of name.
    pub input_types: Vec<(String, String)>,
}

impl AdapterRegistry {
    /// Adapters and input types are each kept in ascending order, each once.
    pub open spec fn well_formed(&self) -> bool {
        &&& ascending(adapter_ids(self.adapters@))
        &&& ascending(type_names(self.input_types@))
    }

    /// An empty registry.
    pub fn new() -> (r: AdapterRegistry)
        ensures
            r.well_formed(),
            r.adapters@.len() == 0,
            r.input_types@.len() == 0,
    {
        AdapterRegistry { adapters: Vec::new(), input_types: Vec::new() }
    }

    /// Registers the adapter read from `path`: its errors are appended to `errors`, then
    /// an error when its identifier was registered already (the new adapter replaces
    /// the old), then one when its input type was served already (the new adapter
    /// serves it from now on).
    pub fn register(&mut self, path: &str, adapter: Adapter, errors: &mut Vec<String>)
        requires
            old(self).well_formed(),
        ensures
            final(self).well_formed(),
            adapter_for(final(self).adapters@, adapter.adapter_id@) == Some(adapter),
            forall|k: Seq<char>| k != adapter.adapter_id@ ==> #[trigger] adapter_for(final(self).adapters@, k)
                == adapter_for(old(self).adapters@, k),
            adapter_of_type(final(self).input_types@, adapter.input_type.name@) == Some(adapter.adapter_id@),
            forall|k: Seq<char>| k != adapter.input_type.name@ ==> #[trigger] adapter_of_type(final(self).input_types@, k)
                == adapter_of_type(old(self).input_types@, k),
            strings_view(final(errors)@) == strings_view(old(errors)@) + adapter_errors(path@, adapter) + match adapter_for(
                old(self).adapters@,
                adapter.adapter_id@,
            ) {
                Some(previous) => seq![duplicate_id_message(path@, adapter.adapter_id@, previous.adapter_id@)],
                None => Seq::<Seq<char>>::empty(),
            } + match adapter_of_type(old(self).input_types@, adapter.input_type.name@) {
                Some(previous) => seq![duplicate_type_message(path@, adapter.input_type.name@, previous, adapter.adapter_id@)],
                None => Seq::<Seq<char>>::empty(),
            },
    {
        let ghost start = strings_view(errors@);
        validate_adapter(path, &adapter, errors);
        let ghost s1 = strings_view(errors@);
        let id = adapter.adapter_id.clone();
        let served_type = adapter.input_type.name.clone();
        let ghost a = adapter;
        match insert_adapter(&mut self.adapters, adapter) {
            Some(previous) => {
                let mut m = String::from_str("duplicate adapter ID ");
                m.append("`");
                m.append(id.as_str());
                m.append("`");
                m.append(" (also declared by ");
                m.append("`");
                m.append(previous.adapter_id.as_str());
                m.append("`");
                m.append(")");
                assert(m@ == "duplicate adapter ID "@ + ticked(id@) + " (also declared by "@ + ticked(previous.adapter_id@) + ")"@);
                push_at(errors, path, m.as_str());
            },
            None => {},
        }
        let ghost s2 = strings_view(errors@);
        let id_text = id.clone();
        let type_text = served_type.clone();
        match insert_type(&mut self.input_types, served_type, id) {
            Some(previous) => {
                let mut m = String::from_str("duplicate registered input type ");
                m.append("`");
                m.append(type_text.as_str());
                m.append("`");
                m.append(" (adapters ");
                m.append("`");
                m.append(previous.as_str());
                m.append("`");
                m.append(" and ");
                m.append("`");
                m.append(id_text.as_str());
                m.append("`");
                m.append(")");
                assert(m@ == "duplicate registered input type "@ + ticked(a.input_type.name@) + " (adapters "@ + ticked(previous@)
                    + " and "@ + ticked(a.adapter_id@) + ")"@);
                push_at(errors, path, m.as_str());
            },
            None => {},
        }
    }

    /// Appends the error of a registry with no adapter, read from `directory`.
    pub fn finish(&self, directory: &str, errors: &mut Vec<String>)
        ensures
            strings_view(final(errors)@) == strings_view(old(errors)@) + when(
                self.adapters@.len() == 0,
                at_path(directory@, "adapter registry contains no YAML specifications"@),
            ),
    {
        if self.adapters.len() == 0 {
            push_at(errors, directory, "adapter registry contains no YAML specifications");
        }
    }

    /// The adapter with identifier `id`.
    pub fn adapter(&self, id: &str) -> (r: Option<&Adapter>)
        ensures
            match r {
                Some(a) => adapter_for(self.adapters@, id@) == Some(*a),
                None => adapter_for(self.adapters@, id@) is None,
            },
    {
        let mut k: usize = 0;
        assert(self.adapters@.skip(0) =~= self.adapters@);
        while k < self.adapters.len()
            invariant
                k <= self.adapters.len(),
                adapter_for(self.adapters@, id@) == adapter_for(self.adapters@.skip(k as int), id@),
            decreases self.adapters.len() - k,
        {
            assert(self.adapters@.skip(k as int)[0] == self.adapters@[k as int]);
            if str_equal(self.adapters[k].adapter_id.as_str(), id) {
                return Some(&self.adapters[k]);
            }
            assert(self.adapters@.skip(k as int).drop_first() =~= self.adapters@.skip(k + 1));
            k = k + 1;
        }
        None
    }

    /// The adapter that serves input type `input_type`.
    pub fn adapter_for_type(&self, input_type: &str) -> (r: Option<&Adapter>)
        ensures
            match adapter_of_type(self.input_types@, input_type@) {
                Some(id) => match r {
                    Some(a) => adapter_for(self.adapters@, id) == Some(*a),
                    None => adapter_for(self.adapters@, id) is None,
                },
                None => r is None,
            },
    {
        let mut k: usize = 0;
        assert(self.input_types@.skip(0) =~= self.input_types@);
        while k < self.input_types.len()
            invariant
                k <= self.input_types.len(),
                adapter_of_type(self.input_types@, input_type@) == adapter_of_type(self.input_types@.skip(k as int), input_type@),
            decreases self.input_types.len() - k,
        {
            assert(self.input_types@.skip(k as int)[0] == self.input_types@[k as int]);
            if str_equal(self.input_types[k].0.as_str(), input_type) {
                return self.adapter(self.input_types[k].1.as_str());
            }
            assert(self.input_types@.skip(k as int).drop_first() =~= self.input_types@.skip(k + 1));
            k = k + 1;
        }
        None
    }

    /// The adapters, in ascending order of identifier.
    pub fn adapters(&self) -> (r: &Vec<Adapter>)
        ensures
            r@ == self.adapters@,
    {
        &self.adapters
    }
}

} // verus!
