//! Generators for the target languages and their documentation.

pub mod c_documentation;
pub mod catalog;
pub mod cpp_documentation;
pub mod documentation;
pub mod py;
pub mod python;
pub mod reference;
pub mod write;

use vstd::prelude::*;
use crate::semantic::{ascending, insert_name, strings_view};
use crate::compile::CompiledFunction;
use crate::model::Entry;
use crate::strings::{lemma_text_less_irreflexive, lemma_text_less_total, lemma_text_less_transitive, str_equal, text_before, text_less};
use crate::text::natural_key;

verus! {

/// Why the targets cannot be generated.
pub enum GenerationError {
    MissingResultClass,
    ConflictingRecordFields { name: String },
    ConflictingPythonClass { name: String },
}

pub open spec fn records_view(records: Seq<(String, Vec<String>)>) -> Seq<(Seq<char>, Seq<Seq<char>>)> {
    records.map_values(|r: (String, Vec<String>)| (r.0@, strings_view(r.1@)))
}

/// The fields recorded for a record type name.
pub open spec fn record_fields(records: Seq<(Seq<char>, Seq<Seq<char>>)>, name: Seq<char>) -> Option<Seq<Seq<char>>>
    decreases records.len(),
{
    if records.len() == 0 {
        None
    } else if records[0].0 == name {
        Some(records[0].1)
    } else {
        record_fields(records.drop_first(), name)
    }
}

fn record_index(records: &Vec<(String, Vec<String>)>, name: &str) -> (r: Option<usize>)
    ensures
        r matches Some(k) ==> k < records.len() && records@[k as int].0@ == name@
            && record_fields(records_view(records@), name@) == Some(strings_view(records@[k as int].1@)),
        r is None ==> record_fields(records_view(records@), name@) is None,
{
    let ghost v = records_view(records@);
    let mut k: usize = 0;
    assert(v.skip(0) == v);
    while k < records.len()
        invariant
            k <= records.len(),
            v == records_view(records@),
            record_fields(v, name@) == record_fields(v.skip(k as int), name@),
        decreases records.len() - k,
    {
        assert(v.skip(k as int)[0] == v[k as int]);
        if crate::strings::str_equal(records[k].0.as_str(), name) {
            return Some(k);
        }
        assert(v.skip(k as int).drop_first() == v.skip(k + 1));
        k = k + 1;
    }
    None
}

fn same_strings(a: &Vec<String>, b: &[String]) -> (r: bool)
    ensures
        r == (strings_view(a@) == strings_view(b@)),
{
    if a.len() != b.len() {
        assert(strings_view(a@).len() != strings_view(b@).len());
        return false;
    }
    let mut k: usize = 0;
    while k < a.len()
        invariant
            k <= a.len(),
            a.len() == b.len(),
            forall|j: int| 0 <= j < k ==> a@[j]@ == b@[j]@,
        decreases a.len() - k,
    {
        if !(a[k] == b[k]) {
            assert(strings_view(a@)[k as int] != strings_view(b@)[k as int]);
            return false;
        }
        k = k + 1;
    }
    assert(strings_view(a@) =~= strings_view(b@));
    true
}

/// Each record type name is recorded once.
pub open spec fn record_names_unique(records: Seq<(Seq<char>, Seq<Seq<char>>)>) -> bool {
    forall|i: int, j: int| 0 <= i < j < records.len() ==> (#[trigger] records[i]).0 != (#[trigger] records[j]).0
}

proof fn lemma_absent_name(records: Seq<(Seq<char>, Seq<Seq<char>>)>, name: Seq<char>, i: int)
    requires
        record_fields(records, name) is None,
        0 <= i < records.len(),
    ensures
        records[i].0 != name,
    decreases records.len(),
{
    if i > 0 {
        assert(records.drop_first()[i - 1] == records[i]);
        lemma_absent_name(records.drop_first(), name, i - 1);
    }
}

/// Records the fields of a record type; a name seen before must come with the same fields.
pub fn insert_record_type(records: &mut Vec<(String, Vec<String>)>, name: &str, fields: &[String]) -> (r: Result<(), GenerationError>)
    ensures
        match record_fields(records_view(old(records)@), name@) {
            Some(previous) => if previous != strings_view(fields@) {
                r matches Err(GenerationError::ConflictingRecordFields { name: n }) && n@ == name@
                    && final(records)@ == old(records)@
            } else {
                r is Ok && final(records)@ == old(records)@
            },
            None => r is Ok && records_view(final(records)@) == records_view(old(records)@).push((name@, strings_view(fields@))),
        },
        record_names_unique(records_view(old(records)@)) ==> record_names_unique(records_view(final(records)@)),
{
    let mut copy: Vec<String> = Vec::new();
    let mut k: usize = 0;
    while k < fields.len()
        invariant
            k <= fields.len(),
            strings_view(copy@) == strings_view(fields@).take(k as int),
        decreases fields.len() - k,
    {
        let ghost prev = strings_view(copy@);
        copy.push(fields[k].clone());
        assert(strings_view(copy@) =~= prev.push(fields@[k as int]@));
        assert(strings_view(fields@).take(k + 1) =~= strings_view(fields@).take(k as int).push(fields@[k as int]@));
        k = k + 1;
    }
    assert(strings_view(fields@).take(fields.len() as int) == strings_view(fields@));
    match record_index(records, name) {
        Some(i) => {
            if !same_strings(&records[i].1, fields) {
                return Err(GenerationError::ConflictingRecordFields { name: name.to_owned() });
            }
            Ok(())
        },
        None => {
            let ghost prev = records_view(records@);
            records.push((name.to_owned(), copy));
            assert(records_view(records@) =~= prev.push((name@, strings_view(fields@))));
            proof {
                assert forall|i: int| 0 <= i < prev.len() implies prev[i].0 != name@ by {
                    lemma_absent_name(prev, name@, i);
                }
            }
            Ok(())
        },
    }
}

/// Every compiled function belongs to one of the entries.
pub open spec fn functions_placed(entries: Seq<Entry>, functions: Seq<CompiledFunction>) -> bool {
    forall|k: int| 0 <= k < functions.len() ==> (#[trigger] functions[k]).entry_index < entries.len()
}

/// The slugs of the sources that compiled functions come from.
pub open spec fn source_slugs(entries: Seq<Entry>, functions: Seq<CompiledFunction>) -> Set<Seq<char>> {
    Set::new(|s: Seq<char>| exists|k: int| 0 <= k < functions.len() && entries[(#[trigger] functions[k]).entry_index as int].slug@ == s)
}

/// The index of the first compiled function from the source with `slug`.
pub open spec fn first_of_source(entries: Seq<Entry>, functions: Seq<CompiledFunction>, slug: Seq<char>) -> int
    decreases functions.len(),
{
    if functions.len() == 0 {
        0
    } else if entries[functions[0].entry_index as int].slug@ == slug {
        0
    } else {
        1 + first_of_source(entries, functions.drop_first(), slug)
    }
}

/// The summary of a source: that of the entry of its first compiled function.
pub open spec fn source_summary(entries: Seq<Entry>, functions: Seq<CompiledFunction>, slug: Seq<char>) -> Seq<char> {
    entries[functions[first_of_source(entries, functions, slug)].entry_index as int].spec.source.summary@
}

fn slug_set(entries: &Vec<Entry>, functions: &Vec<CompiledFunction>) -> (r: Vec<String>)
    requires
        functions_placed(entries@, functions@),
    ensures
        ascending(strings_view(r@)),
        strings_view(r@).to_set() == source_slugs(entries@, functions@),
{
    let mut r: Vec<String> = Vec::new();
    let mut k: usize = 0;
    assert(strings_view(r@).to_set() =~= Set::<Seq<char>>::empty());
    while k < functions.len()
        invariant
            k <= functions.len(),
            functions_placed(entries@, functions@),
            ascending(strings_view(r@)),
            strings_view(r@).to_set() == source_slugs(entries@, functions@.take(k as int)),
        decreases functions.len() - k,
    {
        let entry = &entries[functions[k].entry_index];
        insert_name(&mut r, &entry.slug);
        proof {
            let t = functions@.take(k + 1);
            assert forall|s: Seq<char>| source_slugs(entries@, t).contains(s) <==> strings_view(r@).to_set().contains(s) by {
                if source_slugs(entries@, t).contains(s) {
                    let j = choose|j: int| 0 <= j < t.len() && entries@[(#[trigger] t[j]).entry_index as int].slug@ == s;
                    if j < k {
                        assert(functions@.take(k as int)[j] == t[j]);
                        assert(source_slugs(entries@, functions@.take(k as int)).contains(s));
                    }
                }
                if strings_view(r@).to_set().contains(s) && s != entry.slug@ {
                    assert(source_slugs(entries@, functions@.take(k as int)).contains(s));
                    let j = choose|j: int| 0 <= j < k && entries@[(#[trigger] functions@.take(k as int)[j]).entry_index as int].slug@ == s;
                    assert(t[j] == functions@.take(k as int)[j]);
                }
                if s == entry.slug@ {
                    assert(t[k as int] == functions@[k as int]);
                }
            }
            assert(strings_view(r@).to_set() =~= source_slugs(entries@, t));
        }
        k = k + 1;
    }
    assert(functions@.take(functions.len() as int) =~= functions@);
    r
}

fn first_function_of(entries: &Vec<Entry>, functions: &Vec<CompiledFunction>, slug: &String) -> (r: usize)
    requires
        functions_placed(entries@, functions@),
        source_slugs(entries@, functions@).contains(slug@),
    ensures
        r < functions.len(),
        r == first_of_source(entries@, functions@, slug@),
{
    let mut k: usize = 0;
    assert(functions@.skip(0) =~= functions@);
    while k < functions.len()
        invariant
            k <= functions.len(),
            functions_placed(entries@, functions@),
            first_of_source(entries@, functions@, slug@) == k + first_of_source(entries@, functions@.skip(k as int), slug@),
            exists|j: int| k <= j < functions.len() && entries@[(#[trigger] functions@[j]).entry_index as int].slug@ == slug@,
        decreases functions.len() - k,
    {
        assert(functions@.skip(k as int)[0] == functions@[k as int]);
        if crate::strings::str_equal(entries[functions[k].entry_index].slug.as_str(), slug.as_str()) {
            return k;
        }
        assert(functions@.skip(k as int).drop_first() =~= functions@.skip(k + 1));
        k = k + 1;
    }
    assert(false);
    0
}

/// Each source of the compiled functions, in ascending order of slug, with the summary of
/// its entry: what the index pages of the C and C++ references list.
pub fn reference_sources(entries: &Vec<Entry>, functions: &Vec<CompiledFunction>) -> (r: Vec<(String, String)>)
    requires
        functions_placed(entries@, functions@),
    ensures
        ascending(r@.map_values(|p: (String, String)| p.0@)),
        r@.map_values(|p: (String, String)| p.0@).to_set() == source_slugs(entries@, functions@),
        forall|i: int| 0 <= i < r.len() ==> (#[trigger] r@[i]).1@ == source_summary(entries@, functions@, r@[i].0@),
{
    let slugs = slug_set(entries, functions);
    let mut r: Vec<(String, String)> = Vec::new();
    let mut k: usize = 0;
    while k < slugs.len()
        invariant
            k <= slugs.len(),
            functions_placed(entries@, functions@),
            ascending(strings_view(slugs@)),
            strings_view(slugs@).to_set() == source_slugs(entries@, functions@),
            r@.map_values(|p: (String, String)| p.0@) == strings_view(slugs@).take(k as int),
            forall|i: int| 0 <= i < r.len() ==> (#[trigger] r@[i]).1@ == source_summary(entries@, functions@, r@[i].0@),
        decreases slugs.len() - k,
    {
        assert(strings_view(slugs@)[k as int] == slugs@[k as int]@);
        assert(strings_view(slugs@).to_set().contains(slugs@[k as int]@));
        let first = first_function_of(entries, functions, &slugs[k]);
        let summary = entries[functions[first].entry_index].spec.source.summary.clone();
        let ghost prev = r@.map_values(|p: (String, String)| p.0@);
        r.push((slugs[k].clone(), summary));
        assert(r@.map_values(|p: (String, String)| p.0@) =~= prev.push(slugs@[k as int]@));
        assert(strings_view(slugs@).take(k + 1) =~= strings_view(slugs@).take(k as int).push(slugs@[k as int]@));
        k = k + 1;
    }
    assert(strings_view(slugs@).take(slugs.len() as int) =~= strings_view(slugs@));
    r
}

/// Where a compiled function stands in the function indexes: by the natural key of its
/// name, then the slug of its source, then its position among the compiled functions.
pub open spec fn index_key(entries: Seq<Entry>, functions: Seq<CompiledFunction>, k: int) -> (Seq<char>, Seq<char>, int) {
    (natural_key(functions[k].core.name@), entries[functions[k].entry_index as int].slug@, k)
}

/// The order of the function indexes.
pub open spec fn index_before(a: (Seq<char>, Seq<char>, int), b: (Seq<char>, Seq<char>, int)) -> bool {
    text_less(a.0, b.0) || (a.0 == b.0 && (text_less(a.1, b.1) || (a.1 == b.1 && a.2 < b.2)))
}

proof fn lemma_index_before_transitive(a: (Seq<char>, Seq<char>, int), b: (Seq<char>, Seq<char>, int), c: (Seq<char>, Seq<char>, int))
    requires
        index_before(a, b),
        index_before(b, c),
    ensures
        index_before(a, c),
{
    if text_less(a.0, b.0) && text_less(b.0, c.0) {
        lemma_text_less_transitive(a.0, b.0, c.0);
    }
    if a.0 == b.0 && b.0 == c.0 && text_less(a.1, b.1) && text_less(b.1, c.1) {
        lemma_text_less_transitive(a.1, b.1, c.1);
    }
}

proof fn lemma_index_before_total(a: (Seq<char>, Seq<char>, int), b: (Seq<char>, Seq<char>, int))
    requires
        a.2 != b.2,
    ensures
        index_before(a, b) || index_before(b, a),
{
    lemma_text_less_total(a.0, b.0);
    lemma_text_less_total(a.1, b.1);
}

proof fn lemma_index_before_asymmetric(a: (Seq<char>, Seq<char>, int), b: (Seq<char>, Seq<char>, int))
    requires
        index_before(a, b),
    ensures
        !index_before(b, a),
{
    if index_before(b, a) {
        lemma_index_before_transitive(a, b, a);
        lemma_text_less_irreflexive(a.0);
        lemma_text_less_irreflexive(a.1);
    }
}

/// The order in which the function indexes of the C and C++ references list the compiled
/// functions: every function once, ascending by the natural key of its name, then by
/// the slug of its source, then by its position (the order of a stable sort by the
/// natural key of the functions grouped by source in ascending slug order).
pub fn index_order(entries: &Vec<Entry>, functions: &Vec<CompiledFunction>) -> (r: Vec<usize>)
    requires
        functions_placed(entries@, functions@),
    ensures
        r.len() == functions.len(),
        forall|i: int| 0 <= i < r.len() ==> (#[trigger] r@[i]) < functions.len(),
        forall|i: int, j: int| 0 <= i < j < r.len() ==> index_before(
            index_key(entries@, functions@, #[trigger] r@[i] as int),
            index_key(entries@, functions@, #[trigger] r@[j] as int),
        ),
{
    let mut keys: Vec<(String, String)> = Vec::new();
    let mut k: usize = 0;
    while k < functions.len()
        invariant
            k <= functions.len(),
            functions_placed(entries@, functions@),
            keys.len() == k,
            forall|i: int| 0 <= i < k ==> (#[trigger] keys@[i]).0@ == index_key(entries@, functions@, i).0 && keys@[i].1@
                == index_key(entries@, functions@, i).1,
        decreases functions.len() - k,
    {
        let key = crate::text::natural_sort_key(functions[k].core.name.as_str());
        let slug = entries[functions[k].entry_index].slug.clone();
        keys.push((key, slug));
        k = k + 1;
    }
    let mut order: Vec<usize> = Vec::new();
    let mut k: usize = 0;
    while k < functions.len()
        invariant
            k <= functions.len(),
            keys.len() == functions.len(),
            forall|i: int| 0 <= i < functions.len() ==> (#[trigger] keys@[i]).0@ == index_key(entries@, functions@, i).0
                && keys@[i].1@ == index_key(entries@, functions@, i).1,
            order.len() == k,
            forall|i: int| 0 <= i < order.len() ==> (#[trigger] order@[i]) < k,
            forall|i: int, j: int| 0 <= i < j < order.len() ==> index_before(
                index_key(entries@, functions@, #[trigger] order@[i] as int),
                index_key(entries@, functions@, #[trigger] order@[j] as int),
            ),
        decreases functions.len() - k,
    {
        let ghost kk = index_key(entries@, functions@, k as int);
        let mut p: usize = 0;
        while p < order.len() && (text_before(keys[order[p]].0.as_str(), keys[k].0.as_str()) || (str_equal(
            keys[order[p]].0.as_str(),
            keys[k].0.as_str(),
        ) && !text_before(keys[k].1.as_str(), keys[order[p]].1.as_str())))
            invariant
                p <= order.len(),
                order.len() == k,
                k < functions.len(),
                keys.len() == functions.len(),
                kk == index_key(entries@, functions@, k as int),
                forall|i: int| 0 <= i < functions.len() ==> (#[trigger] keys@[i]).0@ == index_key(entries@, functions@, i).0
                    && keys@[i].1@ == index_key(entries@, functions@, i).1,
                forall|i: int| 0 <= i < order.len() ==> (#[trigger] order@[i]) < k,
                forall|i: int| 0 <= i < p ==> index_before(index_key(entries@, functions@, #[trigger] order@[i] as int), kk),
            decreases order.len() - p,
        {
            proof {
                let a = index_key(entries@, functions@, order@[p as int] as int);
                lemma_text_less_total(a.1, kk.1);
                assert(a.2 < kk.2);
            }
            p = p + 1;
        }
        proof {
            if p < order.len() {
                let a = index_key(entries@, functions@, order@[p as int] as int);
                lemma_text_less_total(a.0, kk.0);
                lemma_text_less_total(a.1, kk.1);
                assert(a.2 < kk.2);
                assert(index_before(kk, a));
                assert forall|i: int| p <= i < order.len() implies index_before(kk, index_key(entries@, functions@, #[trigger] order@[i] as int)) by {
                    if i > p {
                        lemma_index_before_transitive(kk, a, index_key(entries@, functions@, order@[i] as int));
                    }
                }
            }
        }
        let ghost before = order@;
        order.insert(p, k);
        proof {
            assert forall|i: int| 0 <= i < order.len() implies (#[trigger] order@[i]) < k + 1 by {
                if i < p {
                    assert(order@[i] == before[i]);
                } else if i > p {
                    assert(order@[i] == before[i - 1]);
                }
            }
            assert forall|i: int, j: int| 0 <= i < j < order.len() implies index_before(
                index_key(entries@, functions@, #[trigger] order@[i] as int),
                index_key(entries@, functions@, #[trigger] order@[j] as int),
            ) by {
                if i < p && j < p {
                    assert(order@[i] == before[i] && order@[j] == before[j]);
                } else if i < p && j == p {
                    assert(order@[i] == before[i]);
                } else if i < p && j > p {
                    assert(order@[i] == before[i] && order@[j] == before[j - 1]);
                } else if i == p {
                    assert(order@[j] == before[j - 1]);
                } else {
                    assert(order@[i] == before[i - 1] && order@[j] == before[j - 1]);
                }
            }
        }
        k = k + 1;
    }
    order
}

} // verus!
