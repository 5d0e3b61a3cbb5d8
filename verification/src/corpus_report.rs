//! Helpers of the corpus report: publication years, counts and status labels.

use vstd::prelude::*;
use vstd::string::*;
use crate::strings::{
    chars_of, lemma_text_less_irreflexive, lemma_text_less_total, lemma_text_less_transitive, push_char, str_equal, text_before,
    text_less,
};
use crate::semantic::{ascending, names_in_order, strings_view};
use crate::model::{Entry, Function, Input, OutputField, Outputs, QuantityRegistry, VerificationCase, VerificationKind};
use crate::semantic::field_names;
use crate::validate::{find_key, lookup};

verus! {

pub open spec fn ascii_digit_byte(b: u8) -> bool {
    48 <= b && b <= 57
}

/// The year in the final four bytes of a source slug, when they are ASCII digits.
pub open spec fn slug_year(bytes: Seq<u8>) -> Option<u16> {
    let n = bytes.len();
    if n >= 4 && ascii_digit_byte(bytes[n - 4]) && ascii_digit_byte(bytes[n - 3])
        && ascii_digit_byte(bytes[n - 2]) && ascii_digit_byte(bytes[n - 1]) {
        Some(((bytes[n - 4] - 48) * 1000 + (bytes[n - 3] - 48) * 100 + (bytes[n - 2] - 48) * 10 + (bytes[n - 1] - 48)) as u16)
    } else {
        None
    }
}

pub fn publication_year(slug: &str) -> (r: Option<u16>)
    ensures
        r == slug_year(slug.spec_bytes()),
{
    let b = slug.as_bytes();
    let n = b.len();
    if n < 4 {
        return None;
    }
    let (w, x, y, z) = (b[n - 4], b[n - 3], b[n - 2], b[n - 1]);
    if 48 <= w && w <= 57 && 48 <= x && x <= 57 && 48 <= y && y <= 57 && 48 <= z && z <= 57 {
        let year: u16 = (w - 48) as u16 * 1000 + (x - 48) as u16 * 100 + (y - 48) as u16 * 10 + (z - 48) as u16;
        Some(year)
    } else {
        None
    }
}

/// Counts by value, each value once, in the order values were first counted.
pub open spec fn counts_view(counts: Seq<(String, usize)>) -> Seq<(Seq<char>, usize)> {
    counts.map_values(|e: (String, usize)| (e.0@, e.1))
}

/// The position of `value` among the counted values.
pub open spec fn count_index(counts: Seq<(Seq<char>, usize)>, value: Seq<char>) -> Option<int> {
    if exists|k: int| 0 <= k < counts.len() && counts[k].0 == value {
        Some(choose|k: int| 0 <= k < counts.len() && counts[k].0 == value)
    } else {
        None
    }
}

/// Each value is counted at most once.
pub open spec fn distinct_values(counts: Seq<(Seq<char>, usize)>) -> bool {
    forall|i: int, j: int| 0 <= i < j < counts.len() ==> counts[i].0 != counts[j].0
}

/// Adds one to the count of `value`, starting it at one (a count saturates at
/// `usize::MAX`).
pub fn increment(counts: &mut Vec<(String, usize)>, value: &str)
    requires
        distinct_values(counts_view(old(counts)@)),
    ensures
        distinct_values(counts_view(final(counts)@)),
        match count_index(counts_view(old(counts)@), value@) {
            Some(k) => counts_view(final(counts)@) == counts_view(old(counts)@).update(
                k,
                (value@, if old(counts)@[k].1 < usize::MAX { (old(counts)@[k].1 + 1) as usize } else { usize::MAX }),
            ),
            None => counts_view(final(counts)@) == counts_view(old(counts)@).push((value@, 1usize)),
        },
{
    let ghost v = counts_view(counts@);
    let mut k: usize = 0;
    while k < counts.len()
        invariant
            k <= counts.len(),
            v == counts_view(counts@),
            v == counts_view(old(counts)@),
            distinct_values(v),
            forall|j: int| 0 <= j < k ==> v[j].0 != value@,
        decreases counts.len() - k,
    {
        if crate::strings::str_equal(counts[k].0.as_str(), value) {
            let n = counts[k].1.saturating_add(1);
            let key = counts[k].0.clone();
            counts.set(k, (key, n));
            proof {
                assert(v[k as int].0 == value@);
                let i = choose|i: int| 0 <= i < v.len() && v[i].0 == value@;
                assert(i == k);
                assert(count_index(v, value@) == Some(k as int));
                assert(n == (if v[k as int].1 < usize::MAX { (v[k as int].1 + 1) as usize } else { usize::MAX }));
                assert(counts_view(counts@) =~= v.update(k as int, (value@, n)));
                assert(distinct_values(counts_view(counts@))) by {
                    assert forall|a: int, b: int| 0 <= a < b < counts_view(counts@).len() implies counts_view(counts@)[a].0 != counts_view(counts@)[b].0 by {
                        assert(v[a].0 != v[b].0);
                    }
                }
            }
            return;
        }
        k = k + 1;
    }
    counts.push((value.to_owned(), 1));
    assert(counts_view(counts@) =~= v.push((value@, 1usize)));
    assert(distinct_values(counts_view(counts@))) by {
        assert forall|i: int, j: int| 0 <= i < j < counts_view(counts@).len() implies counts_view(counts@)[i].0 != counts_view(counts@)[j].0 by {
            if j == v.len() {
                assert(v[i].0 != value@);
            }
        }
    }
}

/// A status as a label: hyphens become spaces and a leading ASCII letter is capitalised.
pub open spec fn status_text(status: Seq<char>) -> Seq<char> {
    let spaced = status.map_values(|c: char| if c == '-' { ' ' } else { c });
    if spaced.len() > 0 && 'a' <= spaced[0] && spaced[0] <= 'z' {
        spaced.update(0, (((spaced[0] as u32) - 32) as u8) as char)
    } else {
        spaced
    }
}

pub fn status_label(status: &str) -> (r: String)
    ensures
        r@ == status_text(status@),
{
    let cs = chars_of(status);
    let ghost spaced = status@.map_values(|c: char| if c == '-' { ' ' } else { c });
    let mut r = String::new();
    let mut k: usize = 0;
    while k < cs.len()
        invariant
            k <= cs.len(),
            cs@ == status@,
            r@ == status_text(status@.take(k as int)),
        decreases cs.len() - k,
    {
        let c = cs[k];
        let d = if c == '-' { ' ' } else { c };
        let e = if k == 0 && 'a' <= d && d <= 'z' { (((d as u32) - 32) as u8) as char } else { d };
        push_char(&mut r, e);
        k = k + 1;
        assert(status_text(status@.take(k as int)) =~= r@);
    }
    assert(status@.take(cs.len() as int) == status@);
    r
}


/// How often a value occurs.
#[derive(Debug, PartialEq)]
pub struct Count {
    pub value: String,
    pub count: usize,
}

pub open spec fn count_entries(counts: Seq<Count>) -> Seq<(Seq<char>, nat)> {
    counts.map_values(|c: Count| (c.value@, c.count as nat))
}

/// The number of times `v` occurs in `values`.
pub open spec fn occurrences(values: Seq<Seq<char>>, v: Seq<char>) -> nat
    decreases values.len(),
{
    if values.len() == 0 {
        0
    } else {
        occurrences(values.drop_last(), v) + if values.last() == v { 1nat } else { 0nat }
    }
}

/// Whether `a` is listed before `b`: a higher count first, then the earlier value.
pub open spec fn ranked_before(a: (Seq<char>, nat), b: (Seq<char>, nat)) -> bool {
    a.1 > b.1 || (a.1 == b.1 && text_less(a.0, b.0))
}

/// `r` lists each value of `values` once with the number of times it occurs, the
/// most frequent first and equally frequent values in ascending order.
pub open spec fn is_frequencies(r: Seq<(Seq<char>, nat)>, values: Seq<Seq<char>>) -> bool {
    &&& forall|i: int, j: int| 0 <= i < j < r.len() ==> ranked_before(#[trigger] r[i], #[trigger] r[j])
    &&& forall|i: int| 0 <= i < r.len() ==> (#[trigger] r[i]).1 == occurrences(values, r[i].0)
    &&& forall|v: Seq<char>| #[trigger] values.contains(v) <==> exists|i: int| 0 <= i < r.len() && r[i].0 == v
}

proof fn lemma_occurrences_positive(values: Seq<Seq<char>>, v: Seq<char>)
    ensures
        values.contains(v) <==> occurrences(values, v) > 0,
    decreases values.len(),
{
    if values.len() > 0 {
        lemma_occurrences_positive(values.drop_last(), v);
        if values.contains(v) && values.last() != v {
            let i = choose|i: int| 0 <= i < values.len() && values[i] == v;
            assert(values.drop_last()[i] == v);
        }
        if values.drop_last().contains(v) {
            let i = choose|i: int| 0 <= i < values.len() - 1 && values.drop_last()[i] == v;
            assert(values[i] == v);
        }
        if values.last() == v {
            assert(values[values.len() - 1] == v);
        }
    }
}

proof fn lemma_occurrences_bound(values: Seq<Seq<char>>, v: Seq<char>)
    ensures
        occurrences(values, v) <= values.len(),
    decreases values.len(),
{
    if values.len() > 0 {
        lemma_occurrences_bound(values.drop_last(), v);
    }
}

/// The number of times `v` occurs among `values`.
pub fn occurrences_of(values: &Vec<String>, v: &String) -> (r: usize)
    ensures
        r == occurrences(strings_view(values@), v@),
{
    let mut n: usize = 0;
    let mut k: usize = 0;
    assert(strings_view(values@).take(0) =~= Seq::<Seq<char>>::empty());
    while k < values.len()
        invariant
            k <= values.len(),
            n == occurrences(strings_view(values@).take(k as int), v@),
        decreases values.len() - k,
    {
        assert(strings_view(values@).take(k + 1).drop_last() =~= strings_view(values@).take(k as int));
        assert(strings_view(values@).take(k + 1).last() == values@[k as int]@);
        proof {
            lemma_occurrences_bound(strings_view(values@).take(k as int), v@);
        }
        if str_equal(values[k].as_str(), v.as_str()) {
            n = n + 1;
        }
        k = k + 1;
    }
    assert(strings_view(values@).take(values.len() as int) == strings_view(values@));
    n
}

/// Each value once with its number of occurrences, the most frequent first and equally
/// frequent values in ascending order.
pub fn frequencies(values: &Vec<String>) -> (r: Vec<Count>)
    ensures
        is_frequencies(count_entries(r@), strings_view(values@)),
{
    let distinct = names_in_order(values);
    let ghost d = strings_view(distinct@);
    let ghost vs = strings_view(values@);
    let mut r: Vec<Count> = Vec::new();
    let mut k: usize = 0;
    while k < distinct.len()
        invariant
            k <= distinct.len(),
            d == strings_view(distinct@),
            vs == strings_view(values@),
            ascending(d),
            d.to_set() == vs.to_set(),
            count_entries(r@).len() == k,
            forall|i: int, j: int| 0 <= i < j < r.len() ==> ranked_before(
                #[trigger] count_entries(r@)[i],
                #[trigger] count_entries(r@)[j],
            ),
            forall|i: int| 0 <= i < r.len() ==> (#[trigger] count_entries(r@)[i]).1 == occurrences(vs, count_entries(r@)[i].0),
            forall|v: Seq<char>| #[trigger] d.take(k as int).contains(v) <==> exists|i: int| 0 <= i < r.len() && count_entries(r@)[i].0 == v,
        decreases distinct.len() - k,
    {
        let name = &distinct[k];
        let c = occurrences_of(values, name);
        let ghost x = (name@, c as nat);
        assert(d[k as int] == name@);
        // every value counted so far comes before `name`
        assert forall|i: int| 0 <= i < r.len() implies text_less(#[trigger] count_entries(r@)[i].0, name@) by {
            let v = count_entries(r@)[i].0;
            assert(exists|j: int| 0 <= j < r.len() && count_entries(r@)[j].0 == v);
            let dk = d.take(k as int);
            assert(dk.contains(v));
            let j = choose|j: int| 0 <= j < dk.len() && dk[j] == v;
            assert(d[j] == v);
        }
        let mut p: usize = 0;
        while p < r.len() && r[p].count >= c
            invariant
                p <= r.len(),
                forall|i: int| 0 <= i < p ==> (#[trigger] count_entries(r@)[i]).1 >= c,
            decreases r.len() - p,
        {
            p = p + 1;
        }
        let ghost before = count_entries(r@);
        r.insert(p, Count { value: name.clone(), count: c });
        let ghost after = count_entries(r@);
        assert(after =~= before.insert(p as int, x));
        assert forall|i: int, j: int| 0 <= i < j < after.len() implies ranked_before(#[trigger] after[i], #[trigger] after[j]) by {
            if j < p {
                assert(after[i] == before[i] && after[j] == before[j]);
            } else if j == p {
                assert(after[i] == before[i]);
                assert(before[i].1 >= c);
                assert(text_less(before[i].0, name@));
            } else if i == p {
                assert(after[j] == before[j - 1]);
                assert(before[p as int].1 < c);
                if j - 1 > p {
                    assert(ranked_before(before[p as int], before[j - 1]));
                }
            } else if i < p {
                assert(after[i] == before[i] && after[j] == before[j - 1]);
            } else {
                assert(after[i] == before[i - 1] && after[j] == before[j - 1]);
            }
        }
        assert forall|i: int| 0 <= i < after.len() implies (#[trigger] after[i]).1 == occurrences(vs, after[i].0) by {
            if i < p {
                assert(after[i] == before[i]);
            } else if i > p {
                assert(after[i] == before[i - 1]);
            }
        }
        assert forall|v: Seq<char>| #[trigger] d.take(k + 1).contains(v) <==> exists|i: int| 0 <= i < after.len() && after[i].0 == v by {
            let dk1 = d.take(k + 1);
            if dk1.contains(v) {
                let j = choose|j: int| 0 <= j < dk1.len() && dk1[j] == v;
                if j < k {
                    assert(d.take(k as int)[j] == v);
                    assert(d.take(k as int).contains(v));
                    let i = choose|i: int| 0 <= i < before.len() && before[i].0 == v;
                    if i < p {
                        assert(after[i].0 == v);
                    } else {
                        assert(after[i + 1].0 == v);
                    }
                } else {
                    assert(after[p as int].0 == v);
                }
            }
            if exists|i: int| 0 <= i < after.len() && after[i].0 == v {
                let i = choose|i: int| 0 <= i < after.len() && after[i].0 == v;
                if i == p {
                    assert(d.take(k + 1)[k as int] == v);
                } else {
                    let i0 = if i < p { i } else { i - 1 };
                    assert(before[i0].0 == v);
                    assert(d.take(k as int).contains(v));
                    let dk = d.take(k as int);
                    let j = choose|j: int| 0 <= j < dk.len() && dk[j] == v;
                    assert(dk1[j] == v);
                }
            }
        }
        k = k + 1;
    }
    assert(d.take(distinct.len() as int) == d);
    assert forall|v: Seq<char>| #[trigger] vs.contains(v) <==> exists|i: int| 0 <= i < r.len() && count_entries(r@)[i].0 == v by {
        assert(vs.to_set().contains(v) == vs.contains(v));
        assert(d.to_set().contains(v) == d.contains(v));
    }
    r
}


/// The functions of all entries, entry by entry.
pub open spec fn functions_of(entries: Seq<Entry>) -> Seq<Function>
    decreases entries.len(),
{
    if entries.len() == 0 {
        seq![]
    } else {
        functions_of(entries.drop_last()) + entries.last().spec.functions@
    }
}

/// Where each function of `functions_of` stands: its entry and its position there.
pub open spec fn function_positions(entries: Seq<Entry>) -> Seq<(int, int)>
    decreases entries.len(),
{
    if entries.len() == 0 {
        seq![]
    } else {
        function_positions(entries.drop_last()) + Seq::new(
            entries.last().spec.functions.len() as nat,
            |f: int| ((entries.len() - 1) as int, f),
        )
    }
}

proof fn lemma_function_positions(entries: Seq<Entry>)
    ensures
        function_positions(entries).len() == functions_of(entries).len(),
        forall|i: int| 0 <= i < functions_of(entries).len() ==> {
            let p = #[trigger] function_positions(entries)[i];
            &&& 0 <= p.0 < entries.len()
            &&& 0 <= p.1 < entries[p.0].spec.functions.len()
            &&& functions_of(entries)[i] == entries[p.0].spec.functions@[p.1]
        },
    decreases entries.len(),
{
    if entries.len() > 0 {
        let rest = entries.drop_last();
        lemma_function_positions(rest);
        assert forall|i: int| 0 <= i < functions_of(entries).len() implies {
            let p = #[trigger] function_positions(entries)[i];
            &&& 0 <= p.0 < entries.len()
            &&& 0 <= p.1 < entries[p.0].spec.functions.len()
            &&& functions_of(entries)[i] == entries[p.0].spec.functions@[p.1]
        } by {
            let n = functions_of(rest).len();
            if i < n {
                assert(function_positions(entries)[i] == function_positions(rest)[i]);
                assert(functions_of(entries)[i] == functions_of(rest)[i]);
                let p = function_positions(rest)[i];
                assert(entries[p.0] == rest[p.0]);
            } else {
                assert(function_positions(entries)[i] == ((entries.len() - 1) as int, i - n));
                assert(functions_of(entries)[i] == entries.last().spec.functions@[i - n]);
            }
        }
    }
}

/// The positions of the functions of all entries, entry by entry.
fn positions(entries: &[Entry]) -> (r: Vec<(usize, usize)>)
    ensures
        r.len() == functions_of(entries@).len(),
        forall|i: int| 0 <= i < r.len() ==> {
            let p = #[trigger] r@[i];
            &&& p.0 < entries.len()
            &&& p.1 < entries@[p.0 as int].spec.functions.len()
            &&& functions_of(entries@)[i] == entries@[p.0 as int].spec.functions@[p.1 as int]
        },
{
    let mut r: Vec<(usize, usize)> = Vec::new();
    let mut e: usize = 0;
    assert(entries@.take(0) =~= Seq::<Entry>::empty());
    while e < entries.len()
        invariant
            e <= entries.len(),
            r.len() == functions_of(entries@.take(e as int)).len(),
            forall|i: int| 0 <= i < r.len() ==> {
                let p = #[trigger] r@[i];
                &&& p.0 < e
                &&& p.1 < entries@[p.0 as int].spec.functions.len()
                &&& functions_of(entries@.take(e as int))[i] == entries@[p.0 as int].spec.functions@[p.1 as int]
            },
        decreases entries.len() - e,
    {
        let ghost before = functions_of(entries@.take(e as int));
        assert(entries@.take(e + 1).drop_last() =~= entries@.take(e as int));
        assert(entries@.take(e + 1).last() == entries@[e as int]);
        assert(functions_of(entries@.take(e + 1)) == before + entries@[e as int].spec.functions@);
        let mut f: usize = 0;
        while f < entries[e].spec.functions.len()
            invariant
                e < entries.len(),
                f <= entries@[e as int].spec.functions.len(),
                r.len() == before.len() + f,
                functions_of(entries@.take(e + 1)) == before + entries@[e as int].spec.functions@,
                forall|i: int| 0 <= i < r.len() ==> {
                    let p = #[trigger] r@[i];
                    &&& p.0 <= e
                    &&& p.1 < entries@[p.0 as int].spec.functions.len()
                    &&& functions_of(entries@.take(e + 1))[i] == entries@[p.0 as int].spec.functions@[p.1 as int]
                },
            decreases entries@[e as int].spec.functions.len() - f,
        {
            r.push((e, f));
            f = f + 1;
        }
        e = e + 1;
    }
    assert(entries@.take(entries.len() as int) == entries@);
    r
}

/// Which value of a function a report counts.
#[derive(Clone, Copy)]
pub enum Facet {
    Status,
    PredictionTarget,
    WaterRetentionModel,
    ConductivityModel,
    Territory,
}

pub open spec fn optional(v: Option<String>) -> Option<Seq<char>> {
    match v {
        Some(s) => Some(s@),
        None => None,
    }
}

/// The value of a function for a facet, if it has one.
pub open spec fn facet(f: Function, which: Facet) -> Option<Seq<char>> {
    match which {
        Facet::Status => Some(f.status@),
        Facet::PredictionTarget => Some(f.scope.prediction_target@),
        Facet::WaterRetentionModel => optional(f.scope.models.h_theta),
        Facet::ConductivityModel => optional(f.scope.models.k_h),
        Facet::Territory => optional(f.scope.territory),
    }
}

/// The values of the functions for a facet, in order, skipping functions without one.
pub open spec fn facet_values(fs: Seq<Function>, which: Facet) -> Seq<Seq<char>>
    decreases fs.len(),
{
    if fs.len() == 0 {
        seq![]
    } else {
        let rest = facet_values(fs.drop_last(), which);
        match facet(fs.last(), which) {
            Some(v) => rest.push(v),
            None => rest,
        }
    }
}

fn facet_of(f: &Function, which: Facet) -> (r: Option<String>)
    ensures
        optional(r) == facet(*f, which),
{
    match which {
        Facet::Status => Some(f.status.clone()),
        Facet::PredictionTarget => Some(f.scope.prediction_target.clone()),
        Facet::WaterRetentionModel => match &f.scope.models.h_theta {
            Some(m) => Some(m.clone()),
            None => None,
        },
        Facet::ConductivityModel => match &f.scope.models.k_h {
            Some(m) => Some(m.clone()),
            None => None,
        },
        Facet::Territory => match &f.scope.territory {
            Some(t) => Some(t.clone()),
            None => None,
        },
    }
}

/// The values of all functions of the entries for a facet.
fn collect_facet(entries: &[Entry], at: &Vec<(usize, usize)>, which: Facet) -> (r: Vec<String>)
    requires
        at.len() == functions_of(entries@).len(),
        forall|i: int| 0 <= i < at.len() ==> {
            let p = #[trigger] at@[i];
            &&& p.0 < entries.len()
            &&& p.1 < entries@[p.0 as int].spec.functions.len()
            &&& functions_of(entries@)[i] == entries@[p.0 as int].spec.functions@[p.1 as int]
        },
    ensures
        strings_view(r@) == facet_values(functions_of(entries@), which),
{
    let ghost fs = functions_of(entries@);
    let mut r: Vec<String> = Vec::new();
    let mut i: usize = 0;
    assert(fs.take(0) =~= Seq::<Function>::empty());
    while i < at.len()
        invariant
            i <= at.len(),
            fs == functions_of(entries@),
            at.len() == fs.len(),
            forall|j: int| 0 <= j < at.len() ==> {
                let p = #[trigger] at@[j];
                &&& p.0 < entries.len()
                &&& p.1 < entries@[p.0 as int].spec.functions.len()
                &&& fs[j] == entries@[p.0 as int].spec.functions@[p.1 as int]
            },
            strings_view(r@) == facet_values(fs.take(i as int), which),
        decreases at.len() - i,
    {
        let (e, k) = at[i];
        let f = &entries[e].spec.functions[k];
        assert(*f == fs[i as int]);
        assert(fs.take(i + 1).drop_last() =~= fs.take(i as int));
        assert(fs.take(i + 1).last() == fs[i as int]);
        match facet_of(f, which) {
            Some(v) => {
                let ghost prev = strings_view(r@);
                r.push(v);
                assert(strings_view(r@) =~= prev.push(r@[r.len() - 1]@));
            },
            None => {},
        }
        i = i + 1;
    }
    assert(fs.take(at.len() as int) == fs);
    r
}


/// Verification coverage of a set of functions.
#[derive(Debug, PartialEq, Eq, Structural, Clone, Copy)]
pub struct VerificationCoverage {
    pub functions: usize,
    pub verification_cases: usize,
    pub functions_with_verification_cases: usize,
    pub edge_cases: usize,
    pub functions_with_edge_cases: usize,
}

pub type CoverageView = (nat, nat, nat, nat, nat);

impl VerificationCoverage {
    pub open spec fn coverage_view(&self) -> CoverageView {
        (
            self.functions as nat,
            self.verification_cases as nat,
            self.functions_with_verification_cases as nat,
            self.edge_cases as nat,
            self.functions_with_edge_cases as nat,
        )
    }
}

/// The coverage after counting one more function.
pub open spec fn with_function(c: CoverageView, f: Function) -> CoverageView {
    (
        c.0 + 1,
        c.1 + f.verification_cases@.len(),
        c.2 + if f.verification_cases.len() > 0 { 1nat } else { 0nat },
        c.3 + f.edge_cases@.len(),
        c.4 + if f.edge_cases.len() > 0 { 1nat } else { 0nat },
    )
}

/// Whether a function counts towards the coverage of `status` (of every function, for
/// none).
pub open spec fn selected(f: Function, status: Option<Seq<char>>) -> bool {
    match status {
        Some(s) => f.status@ == s,
        None => true,
    }
}

/// The coverage of the selected functions.
pub open spec fn coverage(fs: Seq<Function>, status: Option<Seq<char>>) -> CoverageView
    decreases fs.len(),
{
    if fs.len() == 0 {
        (0, 0, 0, 0, 0)
    } else if selected(fs.last(), status) {
        with_function(coverage(fs.drop_last(), status), fs.last())
    } else {
        coverage(fs.drop_last(), status)
    }
}

/// Law: a coverage counts, over the functions it selects, each function once, every
/// verification case and every edge case of each, and the functions that have at least
/// one verification case, or at least one edge case.
pub proof fn law_coverage_counts_cases_one_by_one(fs: Seq<Function>, status: Option<Seq<char>>)
    ensures
        coverage(fs, status).0 == fs.fold_left(0nat, |n: nat, f: Function| if selected(f, status) { n + 1 } else { n }),
        coverage(fs, status).1 == fs.fold_left(
            0nat,
            |n: nat, f: Function| if selected(f, status) { n + f.verification_cases@.len() } else { n },
        ),
        coverage(fs, status).2 == fs.fold_left(
            0nat,
            |n: nat, f: Function| if selected(f, status) && f.verification_cases.len() > 0 { n + 1 } else { n },
        ),
        coverage(fs, status).3 == fs.fold_left(
            0nat,
            |n: nat, f: Function| if selected(f, status) { n + f.edge_cases@.len() } else { n },
        ),
        coverage(fs, status).4 == fs.fold_left(
            0nat,
            |n: nat, f: Function| if selected(f, status) && f.edge_cases.len() > 0 { n + 1 } else { n },
        ),
    decreases fs.len(),
{
    if fs.len() > 0 {
        law_coverage_counts_cases_one_by_one(fs.drop_last(), status);
    }
}

pub open spec fn fits(c: CoverageView) -> bool {
    c.0 <= usize::MAX && c.1 <= usize::MAX && c.2 <= usize::MAX && c.3 <= usize::MAX && c.4 <= usize::MAX
}

/// Counts one more function.
pub fn add_verification(coverage: &mut VerificationCoverage, function: &Function)
    requires
        fits(with_function(old(coverage).coverage_view(), *function)),
    ensures
        final(coverage).coverage_view() == with_function(old(coverage).coverage_view(), *function),
{
    coverage.functions = coverage.functions + 1;
    coverage.verification_cases = coverage.verification_cases + function.verification_cases.len();
    coverage.edge_cases = coverage.edge_cases + function.edge_cases.len();
    if function.verification_cases.len() > 0 {
        coverage.functions_with_verification_cases = coverage.functions_with_verification_cases + 1;
    }
    if function.edge_cases.len() > 0 {
        coverage.functions_with_edge_cases = coverage.functions_with_edge_cases + 1;
    }
}

proof fn lemma_coverage_monotone(fs: Seq<Function>, status: Option<Seq<char>>, i: int)
    requires
        0 <= i <= fs.len(),
    ensures
        coverage(fs.take(i), status).0 <= coverage(fs, status).0,
        coverage(fs.take(i), status).1 <= coverage(fs, status).1,
        coverage(fs.take(i), status).2 <= coverage(fs, status).2,
        coverage(fs.take(i), status).3 <= coverage(fs, status).3,
        coverage(fs.take(i), status).4 <= coverage(fs, status).4,
    decreases fs.len() - i,
{
    if i < fs.len() {
        lemma_coverage_monotone(fs, status, i + 1);
        assert(fs.take(i + 1).drop_last() =~= fs.take(i));
    } else {
        assert(fs.take(i) =~= fs);
    }
}

proof fn lemma_coverage_of_all(fs: Seq<Function>, status: Option<Seq<char>>)
    ensures
        coverage(fs, status).0 <= fs.len(),
        coverage(fs, status).2 <= coverage(fs, status).0,
        coverage(fs, status).4 <= coverage(fs, status).0,
        coverage(fs, status).1 <= coverage(fs, None).1,
        coverage(fs, status).3 <= coverage(fs, None).3,
    decreases fs.len(),
{
    if fs.len() > 0 {
        lemma_coverage_of_all(fs.drop_last(), status);
    }
}

/// The coverage of the functions with `status` (of every function, for none).
fn coverage_of(entries: &[Entry], at: &Vec<(usize, usize)>, status: Option<&str>) -> (r: VerificationCoverage)
    requires
        at.len() == functions_of(entries@).len(),
        forall|i: int| 0 <= i < at.len() ==> {
            let p = #[trigger] at@[i];
            &&& p.0 < entries.len()
            &&& p.1 < entries@[p.0 as int].spec.functions.len()
            &&& functions_of(entries@)[i] == entries@[p.0 as int].spec.functions@[p.1 as int]
        },
        coverage(functions_of(entries@), None).1 <= usize::MAX,
        coverage(functions_of(entries@), None).3 <= usize::MAX,
    ensures
        r.coverage_view() == coverage(functions_of(entries@), match status {
            Some(s) => Some(s@),
            None => None,
        }),
{
    let ghost fs = functions_of(entries@);
    let ghost which = match status {
        Some(s) => Some(s@),
        None => None::<Seq<char>>,
    };
    proof {
        lemma_coverage_of_all(fs, which);
    }
    let mut r = VerificationCoverage {
        functions: 0,
        verification_cases: 0,
        functions_with_verification_cases: 0,
        edge_cases: 0,
        functions_with_edge_cases: 0,
    };
    let mut i: usize = 0;
    assert(fs.take(0) =~= Seq::<Function>::empty());
    while i < at.len()
        invariant
            i <= at.len(),
            fs == functions_of(entries@),
            at.len() == fs.len(),
            which == match status {
                Some(s) => Some(s@),
                None => None::<Seq<char>>,
            },
            forall|j: int| 0 <= j < at.len() ==> {
                let p = #[trigger] at@[j];
                &&& p.0 < entries.len()
                &&& p.1 < entries@[p.0 as int].spec.functions.len()
                &&& fs[j] == entries@[p.0 as int].spec.functions@[p.1 as int]
            },
            coverage(fs, which).0 <= fs.len(),
            coverage(fs, which).2 <= coverage(fs, which).0,
            coverage(fs, which).4 <= coverage(fs, which).0,
            coverage(fs, which).1 <= usize::MAX,
            coverage(fs, which).3 <= usize::MAX,
            r.coverage_view() == coverage(fs.take(i as int), which),
        decreases at.len() - i,
    {
        let (e, k) = at[i];
        let f = &entries[e].spec.functions[k];
        assert(*f == fs[i as int]);
        assert(fs.take(i + 1).drop_last() =~= fs.take(i as int));
        assert(fs.take(i + 1).last() == fs[i as int]);
        proof {
            lemma_coverage_monotone(fs, which, i + 1);
        }
        let take = match status {
            Some(s) => str_equal(f.status.as_str(), s),
            None => true,
        };
        if take {
            add_verification(&mut r, f);
        }
        i = i + 1;
    }
    assert(fs.take(at.len() as int) == fs);
    r
}


/// The names of the tolerance overrides of a function.
pub open spec fn override_names(f: Function) -> Seq<Seq<char>> {
    f.verification_tolerances@.map_values(|t: (String, crate::model::ToleranceOverride)| t.0@)
}

/// The number of fields whose name is among `names`.
pub open spec fn fields_named(fields: Seq<OutputField>, names: Seq<Seq<char>>) -> nat
    decreases fields.len(),
{
    if fields.len() == 0 {
        0
    } else {
        fields_named(fields.drop_last(), names) + if names.contains(fields.last().name@) { 1nat } else { 0nat }
    }
}

pub open spec fn field_units(fields: Seq<OutputField>) -> Seq<(Seq<char>, Seq<char>)> {
    fields.map_values(|x: OutputField| (x.quantity@, x.unit@))
}

/// The number of cases of a kind.
pub open spec fn cases_of_kind(cases: Seq<VerificationCase>, kind: VerificationKind) -> nat
    decreases cases.len(),
{
    if cases.len() == 0 {
        0
    } else {
        cases_of_kind(cases.drop_last(), kind) + if cases.last().kind == kind { 1nat } else { 0nat }
    }
}

/// What the outputs of the functions add up to.
pub struct OutputTotals {
    pub field_names: Seq<Seq<char>>,
    pub overrides: nat,
    pub quantity_units: Seq<(Seq<char>, Seq<char>)>,
    pub records: nat,
    pub published: nat,
    pub calculated: nat,
}

pub open spec fn output_totals(fs: Seq<Function>) -> OutputTotals
    decreases fs.len(),
{
    if fs.len() == 0 {
        OutputTotals { field_names: seq![], overrides: 0, quantity_units: seq![], records: 0, published: 0, calculated: 0 }
    } else {
        let t = output_totals(fs.drop_last());
        let f = fs.last();
        OutputTotals {
            field_names: t.field_names + field_names(f.outputs.spec_fields()),
            overrides: t.overrides + fields_named(f.outputs.spec_fields(), override_names(f)),
            quantity_units: t.quantity_units + field_units(f.outputs.spec_fields()),
            records: t.records + if f.outputs is Record { 1nat } else { 0nat },
            published: t.published + cases_of_kind(f.verification_cases@, VerificationKind::Published),
            calculated: t.calculated + cases_of_kind(f.verification_cases@, VerificationKind::Calculated),
        }
    }
}

proof fn lemma_fields_named_bound(fields: Seq<OutputField>, names: Seq<Seq<char>>)
    ensures
        fields_named(fields, names) <= fields.len(),
    decreases fields.len(),
{
    if fields.len() > 0 {
        lemma_fields_named_bound(fields.drop_last(), names);
    }
}

proof fn lemma_cases_of_kind_bound(cases: Seq<VerificationCase>, kind: VerificationKind)
    ensures
        cases_of_kind(cases, kind) <= cases.len(),
    decreases cases.len(),
{
    if cases.len() > 0 {
        lemma_cases_of_kind_bound(cases.drop_last(), kind);
    }
}

proof fn lemma_output_totals_bounds(fs: Seq<Function>)
    ensures
        output_totals(fs).overrides <= output_totals(fs).field_names.len(),
        output_totals(fs).quantity_units.len() == output_totals(fs).field_names.len(),
        output_totals(fs).records <= fs.len(),
        output_totals(fs).published <= coverage(fs, None).1,
        output_totals(fs).calculated <= coverage(fs, None).1,
    decreases fs.len(),
{
    if fs.len() > 0 {
        lemma_output_totals_bounds(fs.drop_last());
        let f = fs.last();
        lemma_fields_named_bound(f.outputs.spec_fields(), override_names(f));
        lemma_cases_of_kind_bound(f.verification_cases@, VerificationKind::Published);
        lemma_cases_of_kind_bound(f.verification_cases@, VerificationKind::Calculated);
    }
}

proof fn lemma_output_totals_monotone(fs: Seq<Function>, i: int)
    requires
        0 <= i <= fs.len(),
    ensures
        output_totals(fs.take(i)).field_names.len() <= output_totals(fs).field_names.len(),
        output_totals(fs.take(i)).published <= output_totals(fs).published,
        output_totals(fs.take(i)).calculated <= output_totals(fs).calculated,
    decreases fs.len() - i,
{
    if i < fs.len() {
        lemma_output_totals_monotone(fs, i + 1);
        assert(fs.take(i + 1).drop_last() =~= fs.take(i));
    } else {
        assert(fs.take(i) =~= fs);
    }
}

/// The totals of the outputs and cases of all functions.
pub struct OutputTally {
    pub field_names: Vec<String>,
    pub overrides: usize,
    pub quantity_units: Vec<(String, String)>,
    pub records: usize,
    pub published: usize,
    pub calculated: usize,
}

pub open spec fn pairs_view(pairs: Seq<(String, String)>) -> Seq<(Seq<char>, Seq<char>)> {
    pairs.map_values(|p: (String, String)| (p.0@, p.1@))
}

impl OutputTally {
    pub open spec fn matches(&self, t: OutputTotals) -> bool {
        &&& strings_view(self.field_names@) == t.field_names
        &&& self.overrides == t.overrides
        &&& pairs_view(self.quantity_units@) == t.quantity_units
        &&& self.records == t.records
        &&& self.published == t.published
        &&& self.calculated == t.calculated
    }
}

fn tally_outputs(entries: &[Entry], at: &Vec<(usize, usize)>) -> (r: OutputTally)
    requires
        at.len() == functions_of(entries@).len(),
        forall|i: int| 0 <= i < at.len() ==> {
            let p = #[trigger] at@[i];
            &&& p.0 < entries.len()
            &&& p.1 < entries@[p.0 as int].spec.functions.len()
            &&& functions_of(entries@)[i] == entries@[p.0 as int].spec.functions@[p.1 as int]
        },
        coverage(functions_of(entries@), None).1 <= usize::MAX,
        output_totals(functions_of(entries@)).field_names.len() <= usize::MAX,
    ensures
        r.matches(output_totals(functions_of(entries@))),
{
    let ghost fs = functions_of(entries@);
    proof {
        lemma_output_totals_bounds(fs);
    }
    let mut r = OutputTally {
        field_names: Vec::new(),
        overrides: 0,
        quantity_units: Vec::new(),
        records: 0,
        published: 0,
        calculated: 0,
    };
    let mut i: usize = 0;
    assert(fs.take(0) =~= Seq::<Function>::empty());
    assert(strings_view(r.field_names@) =~= Seq::<Seq<char>>::empty());
    assert(pairs_view(r.quantity_units@) =~= Seq::<(Seq<char>, Seq<char>)>::empty());
    while i < at.len()
        invariant
            i <= at.len(),
            fs == functions_of(entries@),
            at.len() == fs.len(),
            forall|j: int| 0 <= j < at.len() ==> {
                let p = #[trigger] at@[j];
                &&& p.0 < entries.len()
                &&& p.1 < entries@[p.0 as int].spec.functions.len()
                &&& fs[j] == entries@[p.0 as int].spec.functions@[p.1 as int]
            },
            output_totals(fs).field_names.len() <= usize::MAX,
            output_totals(fs).published <= usize::MAX,
            output_totals(fs).calculated <= usize::MAX,
            r.matches(output_totals(fs.take(i as int))),
        decreases at.len() - i,
    {
        let (e, k) = at[i];
        let f = &entries[e].spec.functions[k];
        assert(*f == fs[i as int]);
        assert(fs.take(i + 1).drop_last() =~= fs.take(i as int));
        assert(fs.take(i + 1).last() == fs[i as int]);
        proof {
            lemma_output_totals_monotone(fs, i + 1);
            lemma_output_totals_bounds(fs.take(i + 1));
            lemma_output_totals_bounds(fs.take(i as int));
        }
        let ghost next = output_totals(fs.take(i + 1));
        assert(next.field_names == output_totals(fs.take(i as int)).field_names + field_names(f.outputs.spec_fields()));
        assert(next.published == output_totals(fs.take(i as int)).published + cases_of_kind(
            f.verification_cases@,
            VerificationKind::Published,
        ));
        assert(next.calculated == output_totals(fs.take(i as int)).calculated + cases_of_kind(
            f.verification_cases@,
            VerificationKind::Calculated,
        ));
        let fields = f.outputs.fields();
        let mut j: usize = 0;
        let ghost names0 = strings_view(r.field_names@);
        let ghost units0 = pairs_view(r.quantity_units@);
        let ghost overrides0 = r.overrides as nat;
        assert(fields@.take(0) =~= Seq::<OutputField>::empty());
        while j < fields.len()
            invariant
                j <= fields.len(),
                fields@ == f.outputs.spec_fields(),
                names0.len() + fields.len() <= usize::MAX,
                overrides0 + fields.len() <= usize::MAX,
                strings_view(r.field_names@) == names0 + field_names(fields@.take(j as int)),
                pairs_view(r.quantity_units@) == units0 + field_units(fields@.take(j as int)),
                r.overrides == overrides0 + fields_named(fields@.take(j as int), override_names(*f)),
                r.records == output_totals(fs.take(i as int)).records,
                r.published == output_totals(fs.take(i as int)).published,
                r.calculated == output_totals(fs.take(i as int)).calculated,
                r.records <= i,
            decreases fields.len() - j,
        {
            let field = &fields[j];
            assert(fields@.take(j + 1).drop_last() =~= fields@.take(j as int));
            assert(fields@.take(j + 1).last() == *field);
            proof {
                lemma_fields_named_bound(fields@.take(j as int), override_names(*f));
            }
            let ghost p1 = strings_view(r.field_names@);
            let ghost p2 = pairs_view(r.quantity_units@);
            r.field_names.push(field.name.clone());
            r.quantity_units.push((field.quantity.clone(), field.unit.clone()));
            assert(strings_view(r.field_names@) =~= p1.push(field.name@));
            assert(pairs_view(r.quantity_units@) =~= p2.push((field.quantity@, field.unit@)));
            assert(field_names(fields@.take(j + 1)) =~= field_names(fields@.take(j as int)).push(field.name@));
            assert(field_units(fields@.take(j + 1)) =~= field_units(fields@.take(j as int)).push((field.quantity@, field.unit@)));
            assert(names0 + field_names(fields@.take(j + 1)) =~= (names0 + field_names(fields@.take(j as int))).push(field.name@));
            assert(units0 + field_units(fields@.take(j + 1)) =~= (units0 + field_units(fields@.take(j as int))).push(
                (field.quantity@, field.unit@),
            ));
            let known = find_key(&f.verification_tolerances, field.name.as_str()).is_some();
            proof {
                lemma_lookup_names(f.verification_tolerances@, field.name@);
            }
            if known {
                r.overrides = r.overrides + 1;
            }
            j = j + 1;
        }
        assert(fields@.take(fields.len() as int) == fields@);
        match &f.outputs {
            Outputs::Record { .. } => {
                r.records = r.records + 1;
            },
            _ => {},
        }
        assert(strings_view(r.field_names@) == next.field_names);
        assert(r.records == next.records);
        let mut c: usize = 0;
        let published0 = r.published;
        let calculated0 = r.calculated;
        assert(f.verification_cases@.take(0) =~= Seq::<VerificationCase>::empty());
        while c < f.verification_cases.len()
            invariant
                c <= f.verification_cases.len(),
                published0 + cases_of_kind(f.verification_cases@, VerificationKind::Published) <= usize::MAX,
                calculated0 + cases_of_kind(f.verification_cases@, VerificationKind::Calculated) <= usize::MAX,
                r.published == published0 + cases_of_kind(f.verification_cases@.take(c as int), VerificationKind::Published),
                r.calculated == calculated0 + cases_of_kind(f.verification_cases@.take(c as int), VerificationKind::Calculated),
                strings_view(r.field_names@) == next.field_names,
                pairs_view(r.quantity_units@) == next.quantity_units,
                r.overrides == next.overrides,
                r.records == next.records,
            decreases f.verification_cases.len() - c,
        {
            assert(f.verification_cases@.take(c + 1).drop_last() =~= f.verification_cases@.take(c as int));
            assert(f.verification_cases@.take(c + 1).last() == f.verification_cases@[c as int]);
            proof {
                lemma_cases_of_kind_bound(f.verification_cases@.take(c as int), VerificationKind::Published);
                lemma_cases_prefix(f.verification_cases@, VerificationKind::Published, c + 1);
                lemma_cases_prefix(f.verification_cases@, VerificationKind::Calculated, c + 1);
            }
            match f.verification_cases[c].kind {
                VerificationKind::Published => {
                    r.published = r.published + 1;
                },
                VerificationKind::Calculated => {
                    r.calculated = r.calculated + 1;
                },
            }
            c = c + 1;
        }
        assert(f.verification_cases@.take(f.verification_cases.len() as int) == f.verification_cases@);
        i = i + 1;
    }
    assert(fs.take(at.len() as int) == fs);
    r
}

proof fn lemma_cases_prefix(cases: Seq<VerificationCase>, kind: VerificationKind, i: int)
    requires
        0 <= i <= cases.len(),
    ensures
        cases_of_kind(cases.take(i), kind) <= cases_of_kind(cases, kind),
    decreases cases.len() - i,
{
    if i < cases.len() {
        lemma_cases_prefix(cases, kind, i + 1);
        assert(cases.take(i + 1).drop_last() =~= cases.take(i));
    } else {
        assert(cases.take(i) =~= cases);
    }
}


proof fn lemma_lookup_names(entries: Seq<(String, crate::model::ToleranceOverride)>, key: Seq<char>)
    ensures
        (lookup(entries, key) is Some) == entries.map_values(|t: (String, crate::model::ToleranceOverride)| t.0@).contains(key),
    decreases entries.len(),
{
    let names = entries.map_values(|t: (String, crate::model::ToleranceOverride)| t.0@);
    if entries.len() > 0 {
        let rest = entries.drop_first();
        lemma_lookup_names(rest, key);
        let rest_names = rest.map_values(|t: (String, crate::model::ToleranceOverride)| t.0@);
        assert(rest_names =~= names.drop_first());
        if names.contains(key) && entries[0].0@ != key {
            let i = choose|i: int| 0 <= i < names.len() && names[i] == key;
            assert(rest_names[i - 1] == key);
        }
        if rest_names.contains(key) {
            let i = choose|i: int| 0 <= i < rest_names.len() && rest_names[i] == key;
            assert(names[i + 1] == key);
        }
        if entries[0].0@ == key {
            assert(names[0] == key);
        }
    }
}


pub open spec fn slug_bytes(e: Entry) -> Seq<u8> {
    vstd::utf8::encode_utf8(e.slug@)
}

/// The publication years that the slugs give, in entry order.
pub open spec fn years_of(entries: Seq<Entry>) -> Seq<u16>
    decreases entries.len(),
{
    if entries.len() == 0 {
        seq![]
    } else {
        match slug_year(slug_bytes(entries.last())) {
            Some(y) => years_of(entries.drop_last()).push(y),
            None => years_of(entries.drop_last()),
        }
    }
}

/// The slugs that give no publication year, in entry order.
pub open spec fn unresolved_of(entries: Seq<Entry>) -> Seq<Seq<char>>
    decreases entries.len(),
{
    if entries.len() == 0 {
        seq![]
    } else {
        match slug_year(slug_bytes(entries.last())) {
            Some(_) => unresolved_of(entries.drop_last()),
            None => unresolved_of(entries.drop_last()).push(entries.last().slug@),
        }
    }
}

pub open spec fn min_year(years: Seq<u16>) -> Option<u16>
    decreases years.len(),
{
    if years.len() == 0 {
        None
    } else {
        match min_year(years.drop_last()) {
            None => Some(years.last()),
            Some(m) => Some(if years.last() < m { years.last() } else { m }),
        }
    }
}

pub open spec fn max_year(years: Seq<u16>) -> Option<u16>
    decreases years.len(),
{
    if years.len() == 0 {
        None
    } else {
        match max_year(years.drop_last()) {
            None => Some(years.last()),
            Some(m) => Some(if years.last() > m { years.last() } else { m }),
        }
    }
}

/// The territories of the sources that state one, in entry order.
pub open spec fn source_territories(entries: Seq<Entry>) -> Seq<Seq<char>>
    decreases entries.len(),
{
    if entries.len() == 0 {
        seq![]
    } else {
        match entries.last().spec.scope.territory {
            Some(t) => source_territories(entries.drop_last()).push(t@),
            None => source_territories(entries.drop_last()),
        }
    }
}

/// The number of sources that describe their dataset.
pub open spec fn sources_with_dataset(entries: Seq<Entry>) -> nat
    decreases entries.len(),
{
    if entries.len() == 0 {
        0
    } else {
        sources_with_dataset(entries.drop_last()) + if entries.last().spec.scope.dataset is Some { 1nat } else { 0nat }
    }
}

pub open spec fn citations_of(entries: Seq<Entry>) -> Seq<Seq<char>> {
    entries.map_values(|e: Entry| e.spec.source.citation_apa@)
}

/// What the report says of the sources themselves.
pub struct SourceTally {
    pub citations: Vec<String>,
    pub years: Vec<u16>,
    pub earliest: Option<u16>,
    pub latest: Option<u16>,
    pub unresolved: Vec<String>,
    pub territories: Vec<String>,
    pub with_dataset: usize,
}

fn tally_sources(entries: &[Entry]) -> (r: SourceTally)
    ensures
        strings_view(r.citations@) == citations_of(entries@),
        r.years@ == years_of(entries@),
        r.earliest == min_year(years_of(entries@)),
        r.latest == max_year(years_of(entries@)),
        strings_view(r.unresolved@) == unresolved_of(entries@),
        strings_view(r.territories@) == source_territories(entries@),
        r.with_dataset == sources_with_dataset(entries@),
{
    let mut r = SourceTally {
        citations: Vec::new(),
        years: Vec::new(),
        earliest: None,
        latest: None,
        unresolved: Vec::new(),
        territories: Vec::new(),
        with_dataset: 0,
    };
    let mut i: usize = 0;
    assert(entries@.take(0) =~= Seq::<Entry>::empty());
    assert(strings_view(r.citations@) =~= citations_of(entries@.take(0)));
    assert(strings_view(r.unresolved@) =~= Seq::<Seq<char>>::empty());
    assert(strings_view(r.territories@) =~= Seq::<Seq<char>>::empty());
    while i < entries.len()
        invariant
            i <= entries.len(),
            strings_view(r.citations@) == citations_of(entries@.take(i as int)),
            r.years@ == years_of(entries@.take(i as int)),
            r.earliest == min_year(years_of(entries@.take(i as int))),
            r.latest == max_year(years_of(entries@.take(i as int))),
            strings_view(r.unresolved@) == unresolved_of(entries@.take(i as int)),
            strings_view(r.territories@) == source_territories(entries@.take(i as int)),
            r.with_dataset == sources_with_dataset(entries@.take(i as int)),
            r.with_dataset <= i,
        decreases entries.len() - i,
    {
        let entry = &entries[i];
        let ghost prefix = entries@.take(i as int);
        assert(entries@.take(i + 1).drop_last() =~= prefix);
        assert(entries@.take(i + 1).last() == *entry);
        let ghost c0 = strings_view(r.citations@);
        r.citations.push(entry.spec.source.citation_apa.clone());
        assert(strings_view(r.citations@) =~= c0.push(entry.spec.source.citation_apa@));
        assert(citations_of(entries@.take(i + 1)) =~= citations_of(prefix).push(entry.spec.source.citation_apa@));
        let slug = entry.slug.as_str();
        assert(slug.spec_bytes() == slug_bytes(*entry));
        match publication_year(slug) {
            Some(y) => {
                r.years.push(y);
                r.earliest = match r.earliest {
                    None => Some(y),
                    Some(m) => Some(if y < m { y } else { m }),
                };
                r.latest = match r.latest {
                    None => Some(y),
                    Some(m) => Some(if y > m { y } else { m }),
                };
                assert(years_of(entries@.take(i + 1)) == years_of(prefix).push(y));
                assert(years_of(entries@.take(i + 1)).drop_last() =~= years_of(prefix));
            },
            None => {
                let ghost u0 = strings_view(r.unresolved@);
                r.unresolved.push(entry.slug.clone());
                assert(strings_view(r.unresolved@) =~= u0.push(entry.slug@));
            },
        }
        match &entry.spec.scope.territory {
            Some(t) => {
                let ghost t0 = strings_view(r.territories@);
                r.territories.push(t.clone());
                assert(strings_view(r.territories@) =~= t0.push(t@));
            },
            None => {},
        }
        if entry.spec.scope.dataset.is_some() {
            r.with_dataset = r.with_dataset + 1;
        }
        i = i + 1;
    }
    assert(entries@.take(entries.len() as int) == entries@);
    r
}


/// The quantity and unit pairs of a registry, quantity by quantity.
pub open spec fn registry_pairs(quantities: Seq<(String, crate::model::Quantity)>) -> Seq<(Seq<char>, Seq<char>)>
    decreases quantities.len(),
{
    if quantities.len() == 0 {
        seq![]
    } else {
        let q = quantities.last();
        registry_pairs(quantities.drop_last()) + q.1.units@.map_values(
            |u: (String, crate::model::QuantityUnit)| (q.0@, u.0@),
        )
    }
}

/// The pairs that are not in `used`, in order.
pub open spec fn unused_pairs(pairs: Seq<(Seq<char>, Seq<char>)>, used: Set<(Seq<char>, Seq<char>)>) -> Seq<(Seq<char>, Seq<char>)>
    decreases pairs.len(),
{
    if pairs.len() == 0 {
        seq![]
    } else if used.contains(pairs.last()) {
        unused_pairs(pairs.drop_last(), used)
    } else {
        unused_pairs(pairs.drop_last(), used).push(pairs.last())
    }
}

/// A registered quantity and unit.
#[derive(Debug, PartialEq)]
pub struct QuantityUnitEntry {
    pub quantity: String,
    pub unit: String,
}

pub open spec fn entries_view(entries: Seq<QuantityUnitEntry>) -> Seq<(Seq<char>, Seq<char>)> {
    entries.map_values(|e: QuantityUnitEntry| (e.quantity@, e.unit@))
}

fn pair_among(pairs: &Vec<(String, String)>, a: &String, b: &String) -> (r: bool)
    ensures
        r == pairs_view(pairs@).contains((a@, b@)),
{
    let mut k: usize = 0;
    while k < pairs.len()
        invariant
            k <= pairs.len(),
            forall|j: int| 0 <= j < k ==> pairs_view(pairs@)[j] != (a@, b@),
        decreases pairs.len() - k,
    {
        if str_equal(pairs[k].0.as_str(), a.as_str()) && str_equal(pairs[k].1.as_str(), b.as_str()) {
            assert(pairs_view(pairs@)[k as int] == (a@, b@));
            return true;
        }
        assert(pairs_view(pairs@)[k as int] == (pairs@[k as int].0@, pairs@[k as int].1@));
        k = k + 1;
    }
    false
}

/// The number of distinct pairs.
fn distinct_pair_count(pairs: &Vec<(String, String)>) -> (r: usize)
    ensures
        r == pairs_view(pairs@).to_set().len(),
{
    let mut distinct: Vec<(String, String)> = Vec::new();
    let mut k: usize = 0;
    assert(pairs_view(pairs@).take(0).to_set() =~= pairs_view(distinct@).to_set());
    while k < pairs.len()
        invariant
            k <= pairs.len(),
            distinct.len() <= k,
            pairs_view(distinct@).no_duplicates(),
            pairs_view(distinct@).to_set() == pairs_view(pairs@).take(k as int).to_set(),
        decreases pairs.len() - k,
    {
        let ghost d0 = pairs_view(distinct@);
        let ghost x = pairs_view(pairs@)[k as int];
        assert(x == (pairs@[k as int].0@, pairs@[k as int].1@));
        assert(pairs_view(pairs@).take(k + 1) =~= pairs_view(pairs@).take(k as int).push(x));
        assert(pairs_view(pairs@).take(k + 1).to_set() =~= pairs_view(pairs@).take(k as int).to_set().insert(x)) by {
            assert forall|y| #[trigger] pairs_view(pairs@).take(k + 1).contains(y) <==> pairs_view(pairs@).take(k as int).contains(y)
                || y == x by {
                let t = pairs_view(pairs@).take(k + 1);
                let t0 = pairs_view(pairs@).take(k as int);
                if t.contains(y) {
                    let i = choose|i: int| 0 <= i < t.len() && t[i] == y;
                    if i < k {
                        assert(t0[i] == y);
                    }
                }
                if t0.contains(y) {
                    let i = choose|i: int| 0 <= i < t0.len() && t0[i] == y;
                    assert(t[i] == y);
                }
                if y == x {
                    assert(t[k as int] == y);
                }
            }
        }
        if !pair_among(&distinct, &pairs[k].0, &pairs[k].1) {
            distinct.push((pairs[k].0.clone(), pairs[k].1.clone()));
            assert(pairs_view(distinct@) =~= d0.push(x));
            assert(pairs_view(distinct@).to_set() =~= d0.to_set().insert(x)) by {
                assert forall|y| #[trigger] pairs_view(distinct@).contains(y) <==> d0.contains(y) || y == x by {
                    let t = pairs_view(distinct@);
                    if t.contains(y) {
                        let i = choose|i: int| 0 <= i < t.len() && t[i] == y;
                        if i < d0.len() {
                            assert(d0[i] == y);
                        }
                    }
                    if d0.contains(y) {
                        let i = choose|i: int| 0 <= i < d0.len() && d0[i] == y;
                        assert(t[i] == y);
                    }
                    if y == x {
                        assert(t[d0.len() as int] == y);
                    }
                }
            }
        } else {
            assert(d0.to_set().insert(x) =~= d0.to_set());
        }
        k = k + 1;
    }
    assert(pairs_view(pairs@).take(pairs.len() as int) == pairs_view(pairs@));
    proof {
        pairs_view(distinct@).unique_seq_to_set();
    }
    distinct.len()
}

/// The registered pairs that no output uses, in registry order.
fn unused_entries(registry: &QuantityRegistry, used: &Vec<(String, String)>) -> (r: Vec<QuantityUnitEntry>)
    ensures
        entries_view(r@) == unused_pairs(registry_pairs(registry.quantities@), pairs_view(used@).to_set()),
{
    let ghost used_set = pairs_view(used@).to_set();
    let mut r: Vec<QuantityUnitEntry> = Vec::new();
    let mut q: usize = 0;
    assert(registry.quantities@.take(0) =~= Seq::<(String, crate::model::Quantity)>::empty());
    assert(entries_view(r@) =~= Seq::<(Seq<char>, Seq<char>)>::empty());
    while q < registry.quantities.len()
        invariant
            q <= registry.quantities.len(),
            used_set == pairs_view(used@).to_set(),
            entries_view(r@) == unused_pairs(registry_pairs(registry.quantities@.take(q as int)), used_set),
        decreases registry.quantities.len() - q,
    {
        let quantity = &registry.quantities[q];
        let ghost base = registry_pairs(registry.quantities@.take(q as int));
        assert(registry.quantities@.take(q + 1).drop_last() =~= registry.quantities@.take(q as int));
        assert(registry.quantities@.take(q + 1).last() == *quantity);
        let ghost units = quantity.1.units@.map_values(|u: (String, crate::model::QuantityUnit)| (quantity.0@, u.0@));
        assert(registry_pairs(registry.quantities@.take(q + 1)) == base + units);
        let mut u: usize = 0;
        assert(base + units.take(0) =~= base);
        while u < quantity.1.units.len()
            invariant
                u <= quantity.1.units.len(),
                used_set == pairs_view(used@).to_set(),
                units == quantity.1.units@.map_values(|u: (String, crate::model::QuantityUnit)| (quantity.0@, u.0@)),
                entries_view(r@) == unused_pairs(base + units.take(u as int), used_set),
            decreases quantity.1.units.len() - u,
        {
            let unit = &quantity.1.units[u].0;
            let ghost x = (quantity.0@, unit@);
            assert(units[u as int] == x);
            assert((base + units.take(u + 1)).drop_last() =~= base + units.take(u as int));
            assert((base + units.take(u + 1)).last() == x);
            if !pair_among(used, &quantity.0, unit) {
                let ghost e0 = entries_view(r@);
                r.push(QuantityUnitEntry { quantity: quantity.0.clone(), unit: unit.clone() });
                assert(entries_view(r@) =~= e0.push(x));
            }
            u = u + 1;
        }
        assert(units.take(quantity.1.units.len() as int) =~= units);
        q = q + 1;
    }
    assert(registry.quantities@.take(registry.quantities.len() as int) == registry.quantities@);
    r
}

/// How many sources and functions name a territory.
#[derive(Debug, PartialEq)]
pub struct TerritoryFrequency {
    pub territory: String,
    pub source_specifications: usize,
    pub functions: usize,
}

pub open spec fn territory_rows(rows: Seq<TerritoryFrequency>) -> Seq<(Seq<char>, nat, nat)> {
    rows.map_values(|t: TerritoryFrequency| (t.territory@, t.source_specifications as nat, t.functions as nat))
}

/// Each territory once, in ascending order, with the sources and functions that name it.
pub open spec fn is_territory_table(r: Seq<(Seq<char>, nat, nat)>, sources: Seq<Seq<char>>, functions: Seq<Seq<char>>) -> bool {
    &&& ascending(r.map_values(|t: (Seq<char>, nat, nat)| t.0))
    &&& r.map_values(|t: (Seq<char>, nat, nat)| t.0).to_set() == sources.to_set().union(functions.to_set())
    &&& forall|i: int| 0 <= i < r.len() ==> (#[trigger] r[i]).1 == occurrences(sources, r[i].0) && r[i].2 == occurrences(
        functions,
        r[i].0,
    )
}

fn territory_table(sources: &Vec<String>, functions: &Vec<String>) -> (r: Vec<TerritoryFrequency>)
    ensures
        is_territory_table(territory_rows(r@), strings_view(sources@), strings_view(functions@)),
{
    let mut all: Vec<String> = Vec::new();
    let mut k: usize = 0;
    while k < sources.len()
        invariant
            k <= sources.len(),
            strings_view(all@) == strings_view(sources@).take(k as int),
        decreases sources.len() - k,
    {
        let ghost a0 = strings_view(all@);
        all.push(sources[k].clone());
        assert(strings_view(all@) =~= a0.push(sources@[k as int]@));
        assert(strings_view(sources@).take(k + 1) =~= strings_view(sources@).take(k as int).push(sources@[k as int]@));
        k = k + 1;
    }
    let mut k: usize = 0;
    assert(strings_view(sources@).take(sources.len() as int) == strings_view(sources@));
    while k < functions.len()
        invariant
            k <= functions.len(),
            strings_view(all@) == strings_view(sources@) + strings_view(functions@).take(k as int),
        decreases functions.len() - k,
    {
        let ghost a0 = strings_view(all@);
        all.push(functions[k].clone());
        assert(strings_view(all@) =~= a0.push(functions@[k as int]@));
        assert(strings_view(sources@) + strings_view(functions@).take(k + 1) =~= (strings_view(sources@) + strings_view(
            functions@,
        ).take(k as int)).push(functions@[k as int]@));
        k = k + 1;
    }
    assert(strings_view(functions@).take(functions.len() as int) == strings_view(functions@));
    let ghost s = strings_view(sources@);
    let ghost f = strings_view(functions@);
    assert((s + f).to_set() =~= s.to_set().union(f.to_set())) by {
        assert forall|v: Seq<char>| (s + f).contains(v) <==> s.contains(v) || f.contains(v) by {
            if (s + f).contains(v) {
                let i = choose|i: int| 0 <= i < (s + f).len() && (s + f)[i] == v;
                if i < s.len() {
                    assert(s[i] == v);
                } else {
                    assert(f[i - s.len()] == v);
                }
            }
            if s.contains(v) {
                let i = choose|i: int| 0 <= i < s.len() && s[i] == v;
                assert((s + f)[i] == v);
            }
            if f.contains(v) {
                let i = choose|i: int| 0 <= i < f.len() && f[i] == v;
                assert((s + f)[s.len() + i] == v);
            }
        }
    }
    let names = names_in_order(&all);
    let mut r: Vec<TerritoryFrequency> = Vec::new();
    let mut k: usize = 0;
    while k < names.len()
        invariant
            k <= names.len(),
            r.len() == k,
            forall|i: int| 0 <= i < k ==> (#[trigger] territory_rows(r@)[i]).0 == names@[i]@
                && territory_rows(r@)[i].1 == occurrences(s, names@[i]@)
                && territory_rows(r@)[i].2 == occurrences(f, names@[i]@),
            s == strings_view(sources@),
            f == strings_view(functions@),
        decreases names.len() - k,
    {
        let source_count = occurrences_of(sources, &names[k]);
        let function_count = occurrences_of(functions, &names[k]);
        let ghost t0 = territory_rows(r@);
        r.push(TerritoryFrequency { territory: names[k].clone(), source_specifications: source_count, functions: function_count });
        assert(territory_rows(r@) =~= t0.push((names@[k as int]@, source_count as nat, function_count as nat)));
        k = k + 1;
    }
    assert(territory_rows(r@).map_values(|t: (Seq<char>, nat, nat)| t.0) =~= strings_view(names@));
    r
}


/// A function whose status is `blocked`, with what explains it.
#[derive(Debug, PartialEq)]
pub struct BlockedFunction {
    pub source_identifier: String,
    pub function_name: String,
    pub documentation_notes: Vec<String>,
    pub documentation_warnings: Vec<String>,
    pub scientific_notes: Option<String>,
}

pub type BlockedView = (Seq<char>, Seq<char>, Seq<Seq<char>>, Seq<Seq<char>>, Option<Seq<char>>);

impl BlockedFunction {
    pub open spec fn blocked_view(&self) -> BlockedView {
        (
            self.source_identifier@,
            self.function_name@,
            strings_view(self.documentation_notes@),
            strings_view(self.documentation_warnings@),
            optional(self.scientific_notes),
        )
    }
}

pub open spec fn blocked_views(b: Seq<BlockedFunction>) -> Seq<BlockedView> {
    b.map_values(|x: BlockedFunction| x.blocked_view())
}

/// The blocked functions among `fs` of entry `e`, in order.
pub open spec fn blocked_in(e: Entry, fs: Seq<Function>) -> Seq<BlockedView>
    decreases fs.len(),
{
    if fs.len() == 0 {
        seq![]
    } else if fs.last().status@ == "blocked"@ {
        blocked_in(e, fs.drop_last()).push(
            (
                e.slug@,
                fs.last().name@,
                strings_view(fs.last().documentation.notes@),
                strings_view(fs.last().documentation.warnings@),
                if e.spec.scientific_notes@.len() > 0 { Some(e.spec.scientific_notes@) } else { None },
            ),
        )
    } else {
        blocked_in(e, fs.drop_last())
    }
}

/// The blocked functions of all entries, entry by entry.
pub open spec fn blocked_of(entries: Seq<Entry>) -> Seq<BlockedView>
    decreases entries.len(),
{
    if entries.len() == 0 {
        seq![]
    } else {
        blocked_of(entries.drop_last()) + blocked_in(entries.last(), entries.last().spec.functions@)
    }
}

/// Whether `a` sorts before `b` by source, then by function name.
pub open spec fn blocked_before(a: BlockedView, b: BlockedView) -> bool {
    text_less(a.0, b.0) || (a.0 == b.0 && text_less(a.1, b.1))
}

proof fn lemma_blocked_before_transitive(a: BlockedView, b: BlockedView, c: BlockedView)
    requires
        blocked_before(a, b),
        blocked_before(b, c),
    ensures
        blocked_before(a, c),
{
    if text_less(a.0, b.0) && text_less(b.0, c.0) {
        lemma_text_less_transitive(a.0, b.0, c.0);
    } else if text_less(a.1, b.1) && text_less(b.1, c.1) && a.0 == b.0 && b.0 == c.0 {
        lemma_text_less_transitive(a.1, b.1, c.1);
    }
}

proof fn lemma_blocked_before_asymmetric(a: BlockedView, b: BlockedView)
    requires
        blocked_before(a, b),
    ensures
        !blocked_before(b, a),
{
    if blocked_before(b, a) {
        lemma_blocked_before_transitive(a, b, a);
        lemma_text_less_irreflexive(a.0);
        lemma_text_less_irreflexive(a.1);
    }
}

/// Listed by source, then function name, ties kept in their order.
pub open spec fn blocked_sorted(r: Seq<BlockedView>) -> bool {
    forall|i: int, j: int| 0 <= i < j < r.len() ==> !blocked_before(#[trigger] r[j], #[trigger] r[i])
}

fn copy_texts(v: &Vec<String>) -> (r: Vec<String>)
    ensures
        strings_view(r@) == strings_view(v@),
{
    crate::semantic::copy_strings(v)
}

/// Adds `x` after every entry that does not sort after it.
fn insert_blocked(r: &mut Vec<BlockedFunction>, x: BlockedFunction)
    requires
        blocked_sorted(blocked_views(old(r)@)),
    ensures
        blocked_sorted(blocked_views(final(r)@)),
        blocked_views(final(r)@).to_multiset() == blocked_views(old(r)@).to_multiset().insert(x.blocked_view()),
{
    let ghost v = blocked_views(r@);
    let ghost xv = x.blocked_view();
    let mut p: usize = 0;
    while p < r.len() && !(text_before(x.source_identifier.as_str(), r[p].source_identifier.as_str()) || (str_equal(
        x.source_identifier.as_str(),
        r[p].source_identifier.as_str(),
    ) && text_before(x.function_name.as_str(), r[p].function_name.as_str())))
        invariant
            p <= r.len(),
            v == blocked_views(r@),
            xv == x.blocked_view(),
            forall|i: int| 0 <= i < p ==> !blocked_before(xv, #[trigger] v[i]),
        decreases r.len() - p,
    {
        assert(v[p as int] == r@[p as int].blocked_view());
        p = p + 1;
    }
    if p < r.len() {
        assert(v[p as int] == r@[p as int].blocked_view());
        assert(blocked_before(xv, v[p as int]));
    }
    r.insert(p, x);
    let ghost w = blocked_views(r@);
    assert(w =~= v.insert(p as int, xv));
    assert forall|i: int, j: int| 0 <= i < j < w.len() implies !blocked_before(#[trigger] w[j], #[trigger] w[i]) by {
        if j < p {
            assert(w[i] == v[i] && w[j] == v[j]);
        } else if j == p {
            assert(w[i] == v[i] && w[j] == xv);
        } else if i == p {
            assert(w[i] == xv && w[j] == v[j - 1]);
            if blocked_before(v[j - 1], xv) {
                if j - 1 == p {
                    lemma_blocked_before_asymmetric(xv, v[p as int]);
                } else {
                    lemma_blocked_before_transitive(v[j - 1], xv, v[p as int]);
                }
            }
        } else if i < p {
            assert(w[i] == v[i] && w[j] == v[j - 1]);
        } else {
            assert(w[i] == v[i - 1] && w[j] == v[j - 1]);
        }
    }
    proof {
        vstd::seq_lib::to_multiset_insert(v, p as int, xv);
    }
}

/// The blocked functions of all entries, by source and then function name.
fn blocked_functions(entries: &[Entry]) -> (r: Vec<BlockedFunction>)
    ensures
        blocked_sorted(blocked_views(r@)),
        blocked_views(r@).to_multiset() == blocked_of(entries@).to_multiset(),
{
    let mut r: Vec<BlockedFunction> = Vec::new();
    let mut e: usize = 0;
    assert(entries@.take(0) =~= Seq::<Entry>::empty());
    assert(blocked_views(r@) =~= blocked_of(entries@.take(0)));
    while e < entries.len()
        invariant
            e <= entries.len(),
            blocked_sorted(blocked_views(r@)),
            blocked_views(r@).to_multiset() == blocked_of(entries@.take(e as int)).to_multiset(),
        decreases entries.len() - e,
    {
        let entry = &entries[e];
        let ghost before = blocked_of(entries@.take(e as int));
        assert(entries@.take(e + 1).drop_last() =~= entries@.take(e as int));
        assert(entries@.take(e + 1).last() == *entry);
        let fs = &entry.spec.functions;
        let mut f: usize = 0;
        assert(fs@.take(0) =~= Seq::<Function>::empty());
        assert(before + blocked_in(*entry, fs@.take(0)) =~= before);
        while f < fs.len()
            invariant
                f <= fs.len(),
                *fs == entry.spec.functions,
                blocked_sorted(blocked_views(r@)),
                blocked_views(r@).to_multiset() == (before + blocked_in(*entry, fs@.take(f as int))).to_multiset(),
            decreases fs.len() - f,
        {
            let function = &fs[f];
            assert(fs@.take(f + 1).drop_last() =~= fs@.take(f as int));
            assert(fs@.take(f + 1).last() == *function);
            if str_equal(function.status.as_str(), "blocked") {
                let notes = if chars_of(entry.spec.scientific_notes.as_str()).len() > 0 {
                    Some(entry.spec.scientific_notes.clone())
                } else {
                    None
                };
                let x = BlockedFunction {
                    source_identifier: entry.slug.clone(),
                    function_name: function.name.clone(),
                    documentation_notes: copy_texts(&function.documentation.notes),
                    documentation_warnings: copy_texts(&function.documentation.warnings),
                    scientific_notes: notes,
                };
                let ghost xv = x.blocked_view();
                assert(blocked_in(*entry, fs@.take(f + 1)) == blocked_in(*entry, fs@.take(f as int)).push(xv));
                assert(before + blocked_in(*entry, fs@.take(f + 1)) =~= (before + blocked_in(*entry, fs@.take(f as int))).push(xv));
                proof {
                    vstd::seq_lib::to_multiset_build(before + blocked_in(*entry, fs@.take(f as int)), xv);
                }
                insert_blocked(&mut r, x);
            }
            f = f + 1;
        }
        assert(fs@.take(fs.len() as int) == fs@);
        e = e + 1;
    }
    assert(entries@.take(entries.len() as int) == entries@);
    r
}


/// Whether an input is numeric or categorical.
#[derive(Clone, Copy, Debug, PartialEq, Eq, Structural)]
pub enum InputKind {
    Numeric,
    Categorical,
}

/// How many functions take an input of a name and kind.
#[derive(Debug, PartialEq)]
pub struct InputFrequency {
    pub name: String,
    pub kind: InputKind,
    pub functions: usize,
}

pub open spec fn input_key(i: Input) -> (Seq<char>, InputKind) {
    (i.spec_name(), if i is Parameter { InputKind::Numeric } else { InputKind::Categorical })
}

pub open spec fn input_keys(f: Function) -> Seq<(Seq<char>, InputKind)> {
    f.inputs@.map_values(|i: Input| input_key(i))
}

/// The input keys of all functions, function by function.
pub open spec fn all_input_keys(fs: Seq<Function>) -> Seq<(Seq<char>, InputKind)>
    decreases fs.len(),
{
    if fs.len() == 0 {
        seq![]
    } else {
        all_input_keys(fs.drop_last()) + input_keys(fs.last())
    }
}

pub open spec fn keys_view(keys: Seq<(String, InputKind)>) -> Seq<(Seq<char>, InputKind)> {
    keys.map_values(|k: (String, InputKind)| (k.0@, k.1))
}

/// The number of functions with an input of this name and kind.
pub open spec fn functions_with(fs: Seq<Function>, key: (Seq<char>, InputKind)) -> nat
    decreases fs.len(),
{
    if fs.len() == 0 {
        0
    } else {
        functions_with(fs.drop_last(), key) + if input_keys(fs.last()).contains(key) { 1nat } else { 0nat }
    }
}

pub open spec fn input_rows(r: Seq<InputFrequency>) -> Seq<(Seq<char>, InputKind, nat)> {
    r.map_values(|x: InputFrequency| (x.name@, x.kind, x.functions as nat))
}

/// More functions first, then by name, then numeric before categorical.
pub open spec fn input_before(a: (Seq<char>, InputKind, nat), b: (Seq<char>, InputKind, nat)) -> bool {
    a.2 > b.2 || (a.2 == b.2 && (text_less(a.0, b.0) || (a.0 == b.0 && a.1 == InputKind::Numeric && b.1
        == InputKind::Categorical)))
}

/// Each input name and kind once with the number of functions that take it, in the
/// order of `input_before`.
pub open spec fn is_input_table(r: Seq<(Seq<char>, InputKind, nat)>, fs: Seq<Function>) -> bool {
    &&& forall|i: int, j: int| 0 <= i < j < r.len() ==> input_before(#[trigger] r[i], #[trigger] r[j])
    &&& forall|i: int| 0 <= i < r.len() ==> (#[trigger] r[i]).2 == functions_with(fs, (r[i].0, r[i].1))
    &&& forall|k: (Seq<char>, InputKind)| #[trigger] all_input_keys(fs).contains(k) <==> exists|i: int|
        0 <= i < r.len() && (r[i].0, r[i].1) == k
}

proof fn lemma_input_before_transitive(a: (Seq<char>, InputKind, nat), b: (Seq<char>, InputKind, nat), c: (Seq<char>, InputKind, nat))
    requires
        input_before(a, b),
        input_before(b, c),
    ensures
        input_before(a, c),
{
    if a.2 == b.2 && b.2 == c.2 {
        if text_less(a.0, b.0) && text_less(b.0, c.0) {
            lemma_text_less_transitive(a.0, b.0, c.0);
        }
    }
}

proof fn lemma_input_before_asymmetric(a: (Seq<char>, InputKind, nat), b: (Seq<char>, InputKind, nat))
    requires
        input_before(a, b),
    ensures
        !input_before(b, a),
{
    if input_before(b, a) {
        lemma_input_before_transitive(a, b, a);
        lemma_text_less_irreflexive(a.0);
    }
}

proof fn lemma_input_before_total(a: (Seq<char>, InputKind, nat), b: (Seq<char>, InputKind, nat))
    requires
        (a.0, a.1) != (b.0, b.1),
    ensures
        input_before(a, b) || input_before(b, a),
{
    lemma_text_less_total(a.0, b.0);
}

fn kind_of(i: &Input) -> (r: InputKind)
    ensures
        r == input_key(*i).1,
{
    match i {
        Input::Parameter(_) => InputKind::Numeric,
        _ => InputKind::Categorical,
    }
}

fn has_key(f: &Function, name: &String, kind: InputKind) -> (r: bool)
    ensures
        r == input_keys(*f).contains((name@, kind)),
{
    let mut k: usize = 0;
    while k < f.inputs.len()
        invariant
            k <= f.inputs.len(),
            forall|j: int| 0 <= j < k ==> input_keys(*f)[j] != (name@, kind),
        decreases f.inputs.len() - k,
    {
        let same = str_equal(f.inputs[k].name(), name.as_str()) && kind_of(&f.inputs[k]) == kind;
        assert(input_keys(*f)[k as int] == input_key(f.inputs@[k as int]));
        if same {
            return true;
        }
        k = k + 1;
    }
    false
}

fn key_among(keys: &Vec<(String, InputKind)>, name: &String, kind: InputKind) -> (r: bool)
    ensures
        r == keys_view(keys@).contains((name@, kind)),
{
    let ghost v = keys_view(keys@);
    let mut k: usize = 0;
    while k < keys.len()
        invariant
            k <= keys.len(),
            v == keys_view(keys@),
            forall|j: int| 0 <= j < k ==> v[j] != (name@, kind),
        decreases keys.len() - k,
    {
        assert(v[k as int] == (keys@[k as int].0@, keys@[k as int].1));
        if str_equal(keys[k].0.as_str(), name.as_str()) && keys[k].1 == kind {
            return true;
        }
        k = k + 1;
    }
    false
}

proof fn lemma_functions_with_bound(fs: Seq<Function>, key: (Seq<char>, InputKind))
    ensures
        functions_with(fs, key) <= fs.len(),
    decreases fs.len(),
{
    if fs.len() > 0 {
        lemma_functions_with_bound(fs.drop_last(), key);
    }
}

/// Each input name and kind once, with the number of functions that take it.
fn input_frequencies(entries: &[Entry], at: &Vec<(usize, usize)>) -> (r: Vec<InputFrequency>)
    requires
        at.len() == functions_of(entries@).len(),
        forall|i: int| 0 <= i < at.len() ==> {
            let p = #[trigger] at@[i];
            &&& p.0 < entries.len()
            &&& p.1 < entries@[p.0 as int].spec.functions.len()
            &&& functions_of(entries@)[i] == entries@[p.0 as int].spec.functions@[p.1 as int]
        },
    ensures
        is_input_table(input_rows(r@), functions_of(entries@)),
{
    let ghost fs = functions_of(entries@);
    // the distinct keys, in the order they first occur
    let mut keys: Vec<(String, InputKind)> = Vec::new();
    let mut i: usize = 0;
    assert(fs.take(0) =~= Seq::<Function>::empty());
    while i < at.len()
        invariant
            i <= at.len(),
            fs == functions_of(entries@),
            at.len() == fs.len(),
            forall|j: int| 0 <= j < at.len() ==> {
                let p = #[trigger] at@[j];
                &&& p.0 < entries.len()
                &&& p.1 < entries@[p.0 as int].spec.functions.len()
                &&& fs[j] == entries@[p.0 as int].spec.functions@[p.1 as int]
            },
            keys_view(keys@).no_duplicates(),
            forall|k: (Seq<char>, InputKind)| #[trigger] keys_view(keys@).contains(k)
                <==> all_input_keys(fs.take(i as int)).contains(k),
        decreases at.len() - i,
    {
        let (e, n) = at[i];
        let f = &entries[e].spec.functions[n];
        assert(*f == fs[i as int]);
        assert(fs.take(i + 1).drop_last() =~= fs.take(i as int));
        assert(fs.take(i + 1).last() == fs[i as int]);
        let ghost prev = all_input_keys(fs.take(i as int));
        assert(all_input_keys(fs.take(i + 1)) == prev + input_keys(*f));
        let mut k: usize = 0;
        while k < f.inputs.len()
            invariant
                k <= f.inputs.len(),
                keys_view(keys@).no_duplicates(),
                forall|x: (Seq<char>, InputKind)| #[trigger] keys_view(keys@).contains(x)
                    <==> (prev + input_keys(*f).take(k as int)).contains(x),
            decreases f.inputs.len() - k,
        {
            let name = f.inputs[k].name().to_owned();
            let kind = kind_of(&f.inputs[k]);
            let ghost x = (name@, kind);
            assert(input_keys(*f)[k as int] == x);
            assert(prev + input_keys(*f).take(k + 1) =~= (prev + input_keys(*f).take(k as int)).push(x));
            let ghost v0 = keys_view(keys@);
            if !key_among(&keys, &name, kind) {
                keys.push((name, kind));
                assert(keys_view(keys@) =~= v0.push(x));
            }
            assert forall|y: (Seq<char>, InputKind)| #[trigger] keys_view(keys@).contains(y)
                <==> (prev + input_keys(*f).take(k + 1)).contains(y) by {
                let t = prev + input_keys(*f).take(k + 1);
                let t0 = prev + input_keys(*f).take(k as int);
                let w = keys_view(keys@);
                if t.contains(y) {
                    let j = choose|j: int| 0 <= j < t.len() && t[j] == y;
                    if j < t0.len() {
                        assert(t0[j] == y);
                        assert(v0.contains(y));
                        let m = choose|m: int| 0 <= m < v0.len() && v0[m] == y;
                        assert(w[m] == y);
                    } else {
                        assert(y == x);
                        if v0.contains(x) {
                            let m = choose|m: int| 0 <= m < v0.len() && v0[m] == x;
                            assert(w[m] == x);
                        } else {
                            assert(w[v0.len() as int] == x);
                        }
                    }
                }
                if w.contains(y) {
                    let m = choose|m: int| 0 <= m < w.len() && w[m] == y;
                    if m < v0.len() {
                        assert(w[m] == v0[m]);
                        assert(v0[m] == y);
                        assert(v0.contains(y));
                        assert(t0.contains(y));
                        let j = choose|j: int| 0 <= j < t0.len() && t0[j] == y;
                        assert(t[j] == y);
                    } else {
                        assert(t[t0.len() as int] == x);
                    }
                }
            }
            k = k + 1;
        }
        assert(input_keys(*f).take(f.inputs.len() as int) =~= input_keys(*f));
        i = i + 1;
    }
    assert(fs.take(at.len() as int) == fs);
    // each key with its count, inserted in rank order
    let mut r: Vec<InputFrequency> = Vec::new();
    let mut d: usize = 0;
    let ghost kv = keys_view(keys@);
    assert(kv.take(0) =~= Seq::<(Seq<char>, InputKind)>::empty());
    while d < keys.len()
        invariant
            d <= keys.len(),
            kv == keys_view(keys@),
            kv.no_duplicates(),
            forall|k: (Seq<char>, InputKind)| #[trigger] kv.contains(k) <==> all_input_keys(fs).contains(k),
            fs == functions_of(entries@),
            at.len() == fs.len(),
            forall|j: int| 0 <= j < at.len() ==> {
                let p = #[trigger] at@[j];
                &&& p.0 < entries.len()
                &&& p.1 < entries@[p.0 as int].spec.functions.len()
                &&& fs[j] == entries@[p.0 as int].spec.functions@[p.1 as int]
            },
            input_rows(r@).len() == d,
            forall|a: int, b: int| 0 <= a < b < r.len() ==> input_before(#[trigger] input_rows(r@)[a], #[trigger] input_rows(r@)[b]),
            forall|a: int| 0 <= a < r.len() ==> (#[trigger] input_rows(r@)[a]).2 == functions_with(
                fs,
                (input_rows(r@)[a].0, input_rows(r@)[a].1),
            ),
            forall|y: (Seq<char>, InputKind)| #[trigger] kv.take(d as int).contains(y) <==> exists|a: int|
                0 <= a < r.len() && (input_rows(r@)[a].0, input_rows(r@)[a].1) == y,
        decreases keys.len() - d,
    {
        let name = &keys[d].0;
        let kind = keys[d].1;
        let ghost key = (name@, kind);
        assert(kv[d as int] == key);
        // count the functions that take it
        let mut count: usize = 0;
        let mut i: usize = 0;
        assert(fs.take(0) =~= Seq::<Function>::empty());
        while i < at.len()
            invariant
                i <= at.len(),
                at.len() == fs.len(),
                forall|j: int| 0 <= j < at.len() ==> {
                    let p = #[trigger] at@[j];
                    &&& p.0 < entries.len()
                    &&& p.1 < entries@[p.0 as int].spec.functions.len()
                    &&& fs[j] == entries@[p.0 as int].spec.functions@[p.1 as int]
                },
                count == functions_with(fs.take(i as int), key),
                key == (name@, kind),
            decreases at.len() - i,
        {
            let (e, n) = at[i];
            let f = &entries[e].spec.functions[n];
            assert(*f == fs[i as int]);
            assert(fs.take(i + 1).drop_last() =~= fs.take(i as int));
            assert(fs.take(i + 1).last() == fs[i as int]);
            proof {
                lemma_functions_with_bound(fs.take(i as int), key);
            }
            if has_key(f, name, kind) {
                count = count + 1;
            }
            i = i + 1;
        }
        assert(fs.take(at.len() as int) == fs);
        let ghost x = (name@, kind, count as nat);
        // every key placed so far differs from this one
        assert forall|a: int| 0 <= a < r.len() implies (#[trigger] input_rows(r@)[a].0, input_rows(r@)[a].1) != key by {
            let y = (input_rows(r@)[a].0, input_rows(r@)[a].1);
            assert(exists|b: int| 0 <= b < r.len() && (input_rows(r@)[b].0, input_rows(r@)[b].1) == y);
            let dk = kv.take(d as int);
            assert(dk.contains(y));
            let m = choose|m: int| 0 <= m < dk.len() && dk[m] == y;
            assert(kv[m] == y);
        }
        let mut p: usize = 0;
        while p < r.len() && !(count > r[p].functions || (count == r[p].functions && (text_before(name.as_str(), r[p].name.as_str())
            || (str_equal(name.as_str(), r[p].name.as_str()) && kind == InputKind::Numeric && r[p].kind == InputKind::Categorical))))
            invariant
                p <= r.len(),
                x == (name@, kind, count as nat),
                forall|a: int| 0 <= a < p ==> !input_before(x, #[trigger] input_rows(r@)[a]),
            decreases r.len() - p,
        {
            assert(input_rows(r@)[p as int] == (r@[p as int].name@, r@[p as int].kind, r@[p as int].functions as nat));
            p = p + 1;
        }
        if p < r.len() {
            assert(input_rows(r@)[p as int] == (r@[p as int].name@, r@[p as int].kind, r@[p as int].functions as nat));
            assert(input_before(x, input_rows(r@)[p as int]));
        }
        let ghost before = input_rows(r@);
        r.insert(p, InputFrequency { name: name.clone(), kind, functions: count });
        let ghost after = input_rows(r@);
        assert(after =~= before.insert(p as int, x));
        assert forall|a: int, b: int| 0 <= a < b < after.len() implies input_before(#[trigger] after[a], #[trigger] after[b]) by {
            if b < p {
                assert(after[a] == before[a] && after[b] == before[b]);
            } else if b == p {
                assert(after[a] == before[a] && after[b] == x);
                assert(!input_before(x, before[a]));
                assert((before[a].0, before[a].1) != key);
                lemma_input_before_total(before[a], x);
            } else if a == p {
                assert(after[a] == x && after[b] == before[b - 1]);
                if b - 1 > p {
                    lemma_input_before_transitive(x, before[p as int], before[b - 1]);
                }
            } else if a < p {
                assert(after[a] == before[a] && after[b] == before[b - 1]);
            } else {
                assert(after[a] == before[a - 1] && after[b] == before[b - 1]);
            }
        }
        assert forall|a: int| 0 <= a < after.len() implies (#[trigger] after[a]).2 == functions_with(fs, (after[a].0, after[a].1)) by {
            if a < p {
                assert(after[a] == before[a]);
            } else if a > p {
                assert(after[a] == before[a - 1]);
            }
        }
        assert forall|y: (Seq<char>, InputKind)| #[trigger] kv.take(d + 1).contains(y) <==> exists|a: int|
            0 <= a < after.len() && (after[a].0, after[a].1) == y by {
            let t = kv.take(d + 1);
            let t0 = kv.take(d as int);
            if t.contains(y) {
                let m = choose|m: int| 0 <= m < t.len() && t[m] == y;
                if m < d {
                    assert(t0[m] == y);
                    assert(t0.contains(y));
                    let a = choose|a: int| 0 <= a < before.len() && (before[a].0, before[a].1) == y;
                    if a < p {
                        assert(after[a] == before[a]);
                    } else {
                        assert(after[a + 1] == before[a]);
                    }
                } else {
                    assert((after[p as int].0, after[p as int].1) == y);
                }
            }
            if exists|a: int| 0 <= a < after.len() && (after[a].0, after[a].1) == y {
                let a = choose|a: int| 0 <= a < after.len() && (after[a].0, after[a].1) == y;
                if a == p {
                    assert(t[d as int] == y);
                } else {
                    let a0 = if a < p { a } else { a - 1 };
                    assert(after[a] == before[a0]);
                    assert(exists|b: int| 0 <= b < before.len() && (before[b].0, before[b].1) == y);
                    assert(t0.contains(y));
                    let m = choose|m: int| 0 <= m < t0.len() && t0[m] == y;
                    assert(t[m] == y);
                }
            }
        }
        d = d + 1;
    }
    assert(kv.take(keys.len() as int) == kv);
    assert forall|k: (Seq<char>, InputKind)| #[trigger] all_input_keys(fs).contains(k) <==> exists|i: int|
        0 <= i < input_rows(r@).len() && (input_rows(r@)[i].0, input_rows(r@)[i].1) == k by {
        assert(kv.contains(k) == all_input_keys(fs).contains(k));
        assert(kv.take(keys.len() as int).contains(k) == kv.contains(k));
    }
    r
}


/// How the publication years are found.
pub const PUBLICATION_YEAR_DERIVATION: &'static str = "final four characters of the APA-style source slug, when they are four ASCII digits";

/// What the edge cases of the report mean.
pub const EDGE_CASE_INTERPRETATION: &'static str = "declared specification metadata; not a claim that the cases are executable or externally validated";

pub struct Sources {
    pub specification_files: usize,
    pub represented_publications: usize,
    pub earliest_publication_year: Option<u16>,
    pub latest_publication_year: Option<u16>,
    pub publication_year_derivation: String,
    pub unresolved_publication_year_count: usize,
    pub unresolved_publication_years: Vec<String>,
}

pub struct Functions {
    pub total: usize,
    pub by_status: Vec<Count>,
}

pub struct Verification {
    pub cases_total: usize,
    pub by_kind: Vec<Count>,
    pub published_cases: usize,
    pub calculated_cases: usize,
    pub functions_without_cases: usize,
    pub all_functions: VerificationCoverage,
    pub implemented_functions: VerificationCoverage,
    pub ready_for_implementation_functions: VerificationCoverage,
    pub edge_case_interpretation: String,
}

pub struct QuantityRegistryReport {
    pub registered_quantities: usize,
    pub quantity_unit_combinations_in_use: usize,
    pub outputs_using_registry_defaults: usize,
    pub outputs_using_source_specific_overrides: usize,
    pub unused_quantity_unit_entries: Vec<QuantityUnitEntry>,
    pub missing_quantity_or_unit_validation_failures: usize,
}

pub struct OutputsReport {
    pub scalar_functions: usize,
    pub record_functions: usize,
    pub field_names: Vec<Count>,
    pub structured_property_grouping_available: bool,
}

pub struct ModelsReport {
    pub h_theta: Vec<Count>,
    pub k_h: Vec<Count>,
}

pub struct GeographyReport {
    pub source_specifications_with_territory: usize,
    pub functions_with_territory: usize,
    pub territories: Vec<TerritoryFrequency>,
    pub source_specifications_with_dataset: usize,
}

pub struct ScopeReport {
    pub prediction_targets: Vec<Count>,
    pub models: ModelsReport,
    pub calibration_geography: GeographyReport,
}

/// Corpus-level statistics of validated specifications.
pub struct Report {
    pub sources: Sources,
    pub functions: Functions,
    pub verification: Verification,
    pub quantity_registry: QuantityRegistryReport,
    pub inputs: Vec<InputFrequency>,
    pub outputs: OutputsReport,
    pub scope: ScopeReport,
    pub blocked_functions: Vec<BlockedFunction>,
}

/// The statuses the report lists, in this order.
pub open spec fn status_order() -> Seq<Seq<char>> {
    seq!["implemented"@, "ready-for-implementation"@, "blocked"@, "draft"@]
}

/// Every function has one of the four known statuses.
pub open spec fn statuses_known(fs: Seq<Function>) -> bool {
    forall|i: int| 0 <= i < fs.len() ==> status_order().contains(#[trigger] fs[i].status@)
}

/// The sum of the counts of the four known statuses.
pub open spec fn known_status_total(fs: Seq<Function>) -> nat {
    let v = facet_values(fs, Facet::Status);
    occurrences(v, "implemented"@) + occurrences(v, "ready-for-implementation"@) + occurrences(v, "blocked"@)
        + occurrences(v, "draft"@)
}

/// When every function has one of the four known statuses, the counts by status add
/// up to the number of functions.
pub proof fn law_status_counts_sum_to_total(fs: Seq<Function>)
    requires
        statuses_known(fs),
    ensures
        known_status_total(fs) == fs.len(),
    decreases fs.len(),
{
    if fs.len() > 0 {
        let rest = fs.drop_last();
        assert forall|i: int| 0 <= i < rest.len() implies status_order().contains(#[trigger] rest[i].status@) by {
            assert(rest[i] == fs[i]);
        }
        law_status_counts_sum_to_total(rest);
        let last = fs.last();
        assert(status_order().contains(fs[fs.len() - 1].status@));
        assert(facet_values(fs, Facet::Status) == facet_values(rest, Facet::Status).push(last.status@));
        assert(facet_values(fs, Facet::Status).drop_last() == facet_values(rest, Facet::Status));
        reveal_strlit("implemented");
        reveal_strlit("ready-for-implementation");
        reveal_strlit("blocked");
        reveal_strlit("draft");
        let st = last.status@;
        let k = choose|k: int| 0 <= k < status_order().len() && status_order()[k] == st;
        assert(0 <= k < 4 && status_order()[k] == st);
        assert(st == "implemented"@ || st == "ready-for-implementation"@ || st == "blocked"@ || st == "draft"@);
        assert("implemented"@.len() == 11);
        assert("ready-for-implementation"@.len() == 24);
        assert("blocked"@.len() == 7);
        assert("draft"@.len() == 5);
        let v = facet_values(fs, Facet::Status);
        assert(v.last() == st);
        assert(occurrences(v, "implemented"@) == occurrences(v.drop_last(), "implemented"@) + if st == "implemented"@ { 1nat } else { 0nat });
        assert(occurrences(v, "ready-for-implementation"@) == occurrences(v.drop_last(), "ready-for-implementation"@) + if st == "ready-for-implementation"@ { 1nat } else { 0nat });
        assert(occurrences(v, "blocked"@) == occurrences(v.drop_last(), "blocked"@) + if st == "blocked"@ { 1nat } else { 0nat });
        assert(occurrences(v, "draft"@) == occurrences(v.drop_last(), "draft"@) + if st == "draft"@ { 1nat } else { 0nat });
    }
}

/// The totals of the corpus fit in machine words.
pub open spec fn corpus_fits(entries: Seq<Entry>) -> bool {
    &&& coverage(functions_of(entries), None).1 <= usize::MAX
    &&& coverage(functions_of(entries), None).3 <= usize::MAX
    &&& output_totals(functions_of(entries)).field_names.len() <= usize::MAX
}

proof fn lemma_ascending_no_duplicates(q: Seq<Seq<char>>)
    requires
        ascending(q),
    ensures
        q.no_duplicates(),
{
    assert forall|i: int, j: int| 0 <= i < q.len() && 0 <= j < q.len() && i != j implies q[i] != q[j] by {
        if i < j {
            assert(text_less(q[i], q[j]));
            lemma_text_less_irreflexive(q[i]);
        } else {
            assert(text_less(q[j], q[i]));
            lemma_text_less_irreflexive(q[j]);
        }
    }
}

fn status_count(statuses: &Vec<String>, label: &str) -> (r: Count)
    ensures
        r.value@ == label@,
        r.count == occurrences(strings_view(statuses@), label@),
{
    let value = label.to_owned();
    let count = occurrences_of(statuses, &value);
    Count { value, count }
}

impl Report {
    /// The statistics of the entries; `registry` is the quantity registry they were
    /// validated against.
    pub fn from_entries(entries: &[Entry], registry: &QuantityRegistry) -> (r: Report)
        requires
            corpus_fits(entries@),
        ensures
            ({
                let fs = functions_of(entries@);
                let all = coverage(fs, None);
                let outputs = output_totals(fs);
                &&& r.sources.specification_files == entries.len()
                &&& r.sources.represented_publications == citations_of(entries@).to_set().len()
                &&& r.sources.earliest_publication_year == min_year(years_of(entries@))
                &&& r.sources.latest_publication_year == max_year(years_of(entries@))
                &&& r.sources.publication_year_derivation@ == PUBLICATION_YEAR_DERIVATION@
                &&& strings_view(r.sources.unresolved_publication_years@) == unresolved_of(entries@)
                &&& r.sources.unresolved_publication_year_count == unresolved_of(entries@).len()
                &&& r.functions.total == fs.len()
                &&& r.functions.by_status.len() == 4
                &&& statuses_known(fs) ==> r.functions.by_status@[0].count + r.functions.by_status@[1].count
                    + r.functions.by_status@[2].count + r.functions.by_status@[3].count == r.functions.total
                &&& count_entries(r.functions.by_status@) == status_order().map_values(
                    |s: Seq<char>| (s, occurrences(facet_values(fs, Facet::Status), s)),
                )
                &&& r.verification.all_functions.coverage_view() == all
                &&& r.verification.implemented_functions.coverage_view() == coverage(fs, Some("implemented"@))
                &&& r.verification.ready_for_implementation_functions.coverage_view() == coverage(
                    fs,
                    Some("ready-for-implementation"@),
                )
                &&& r.verification.cases_total == all.1
                &&& r.verification.published_cases == outputs.published
                &&& r.verification.calculated_cases == outputs.calculated
                &&& count_entries(r.verification.by_kind@) == seq![
                    ("calculated"@, outputs.calculated),
                    ("published"@, outputs.published),
                ]
                &&& r.verification.functions_without_cases == all.0 - all.2
                &&& r.verification.edge_case_interpretation@ == EDGE_CASE_INTERPRETATION@
                &&& r.quantity_registry.registered_quantities == if entries.len() > 0 {
                    registry.quantities.len()
                } else {
                    0
                }
                &&& r.quantity_registry.quantity_unit_combinations_in_use == outputs.quantity_units.to_set().len()
                &&& r.quantity_registry.outputs_using_source_specific_overrides == outputs.overrides
                &&& r.quantity_registry.outputs_using_registry_defaults == outputs.field_names.len() - outputs.overrides
                &&& entries_view(r.quantity_registry.unused_quantity_unit_entries@) == if entries.len() > 0 {
                    unused_pairs(registry_pairs(registry.quantities@), outputs.quantity_units.to_set())
                } else {
                    Seq::empty()
                }
                &&& r.quantity_registry.missing_quantity_or_unit_validation_failures == 0
                &&& is_input_table(input_rows(r.inputs@), fs)
                &&& r.outputs.record_functions == outputs.records
                &&& r.outputs.scalar_functions == fs.len() - outputs.records
                &&& is_frequencies(count_entries(r.outputs.field_names@), outputs.field_names)
                &&& !r.outputs.structured_property_grouping_available
                &&& is_frequencies(count_entries(r.scope.prediction_targets@), facet_values(fs, Facet::PredictionTarget))
                &&& is_frequencies(count_entries(r.scope.models.h_theta@), facet_values(fs, Facet::WaterRetentionModel))
                &&& is_frequencies(count_entries(r.scope.models.k_h@), facet_values(fs, Facet::ConductivityModel))
                &&& r.scope.calibration_geography.source_specifications_with_territory == source_territories(entries@).len()
                &&& r.scope.calibration_geography.functions_with_territory == facet_values(fs, Facet::Territory).len()
                &&& is_territory_table(
                    territory_rows(r.scope.calibration_geography.territories@),
                    source_territories(entries@),
                    facet_values(fs, Facet::Territory),
                )
                &&& r.scope.calibration_geography.source_specifications_with_dataset == sources_with_dataset(entries@)
                &&& blocked_sorted(blocked_views(r.blocked_functions@))
                &&& blocked_views(r.blocked_functions@).to_multiset() == blocked_of(entries@).to_multiset()
            }),
    {
        let ghost fs = functions_of(entries@);
        let at = positions(entries);
        let sources = tally_sources(entries);
        let publications = names_in_order(&sources.citations);
        proof {
            lemma_ascending_no_duplicates(strings_view(publications@));
            strings_view(publications@).unique_seq_to_set();
        }
        let statuses = collect_facet(entries, &at, Facet::Status);
        let mut by_status: Vec<Count> = Vec::new();
        by_status.push(status_count(&statuses, "implemented"));
        by_status.push(status_count(&statuses, "ready-for-implementation"));
        by_status.push(status_count(&statuses, "blocked"));
        by_status.push(status_count(&statuses, "draft"));
        assert(count_entries(by_status@) =~= status_order().map_values(
            |s: Seq<char>| (s, occurrences(facet_values(fs, Facet::Status), s)),
        ));
        proof {
            if statuses_known(fs) {
                law_status_counts_sum_to_total(fs);
            }
            assert(count_entries(by_status@)[0].1 == by_status@[0].count);
            assert(count_entries(by_status@)[1].1 == by_status@[1].count);
            assert(count_entries(by_status@)[2].1 == by_status@[2].count);
            assert(count_entries(by_status@)[3].1 == by_status@[3].count);
        }
        let all = coverage_of(entries, &at, None);
        let implemented = coverage_of(entries, &at, Some("implemented"));
        let ready = coverage_of(entries, &at, Some("ready-for-implementation"));
        proof {
            lemma_coverage_of_all(fs, None);
        }
        let outputs = tally_outputs(entries, &at);
        proof {
            lemma_output_totals_bounds(fs);
        }
        let mut by_kind: Vec<Count> = Vec::new();
        by_kind.push(Count { value: "calculated".to_owned(), count: outputs.calculated });
        by_kind.push(Count { value: "published".to_owned(), count: outputs.published });
        assert(count_entries(by_kind@) =~= seq![("calculated"@, outputs.calculated as nat), ("published"@, outputs.published as nat)]);
        let in_use = distinct_pair_count(&outputs.quantity_units);
        let (registered, unused) = if entries.len() > 0 {
            (registry.quantities.len(), unused_entries(registry, &outputs.quantity_units))
        } else {
            (0, Vec::new())
        };
        assert(entries.len() == 0 ==> entries_view(unused@) =~= Seq::<(Seq<char>, Seq<char>)>::empty());
        let targets = collect_facet(entries, &at, Facet::PredictionTarget);
        let water = collect_facet(entries, &at, Facet::WaterRetentionModel);
        let conductivity = collect_facet(entries, &at, Facet::ConductivityModel);
        let function_territories = collect_facet(entries, &at, Facet::Territory);
        let territories = territory_table(&sources.territories, &function_territories);
        let inputs = input_frequencies(entries, &at);
        let blocked = blocked_functions(entries);
        let unresolved_count = sources.unresolved.len();
        Report {
            sources: Sources {
                specification_files: entries.len(),
                represented_publications: publications.len(),
                earliest_publication_year: sources.earliest,
                latest_publication_year: sources.latest,
                publication_year_derivation: PUBLICATION_YEAR_DERIVATION.to_owned(),
                unresolved_publication_year_count: unresolved_count,
                unresolved_publication_years: sources.unresolved,
            },
            functions: Functions { total: at.len(), by_status },
            verification: Verification {
                cases_total: all.verification_cases,
                by_kind,
                published_cases: outputs.published,
                calculated_cases: outputs.calculated,
                functions_without_cases: all.functions - all.functions_with_verification_cases,
                all_functions: all,
                implemented_functions: implemented,
                ready_for_implementation_functions: ready,
                edge_case_interpretation: EDGE_CASE_INTERPRETATION.to_owned(),
            },
            quantity_registry: QuantityRegistryReport {
                registered_quantities: registered,
                quantity_unit_combinations_in_use: in_use,
                outputs_using_registry_defaults: outputs.field_names.len() - outputs.overrides,
                outputs_using_source_specific_overrides: outputs.overrides,
                unused_quantity_unit_entries: unused,
                missing_quantity_or_unit_validation_failures: 0,
            },
            inputs,
            outputs: OutputsReport {
                scalar_functions: at.len() - outputs.records,
                record_functions: outputs.records,
                field_names: frequencies(&outputs.field_names),
                structured_property_grouping_available: false,
            },
            scope: ScopeReport {
                prediction_targets: frequencies(&targets),
                models: ModelsReport { h_theta: frequencies(&water), k_h: frequencies(&conductivity) },
                calibration_geography: GeographyReport {
                    source_specifications_with_territory: sources.territories.len(),
                    functions_with_territory: function_territories.len(),
                    territories,
                    source_specifications_with_dataset: sources.with_dataset,
                },
            },
            blocked_functions: blocked,
        }
    }
}

} // verus!
