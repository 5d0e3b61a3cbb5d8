//! Recognising generated files and reporting drift between two snapshots of them.

use vstd::prelude::*;
use vstd::string::*;
use crate::render::markdown::{FRONTMATTER_HEADER, HEADER, trim_end, trim_end_of};

verus! {

/// Whether `s` starts with `p`.
pub open spec fn bytes_start_with(s: Seq<u8>, p: Seq<u8>) -> bool {
    p.len() <= s.len() && s.take(p.len() as int) == p
}

/// Whether `p` occurs in `s` as a contiguous window.
pub open spec fn bytes_contain(s: Seq<u8>, p: Seq<u8>) -> bool {
    exists|i: int| 0 <= i && i + p.len() <= s.len() && #[trigger] s.subrange(i, i + p.len()) == p
}

fn starts_with(s: &[u8], p: &[u8]) -> (r: bool)
    ensures
        r == bytes_start_with(s@, p@),
{
    if p.len() > s.len() {
        return false;
    }
    let mut i: usize = 0;
    while i < p.len()
        invariant
            i <= p.len() <= s.len(),
            s@.take(i as int) == p@.take(i as int),
        decreases p.len() - i,
    {
        if s[i] != p[i] {
            assert(s@.take(p.len() as int)[i as int] != p@[i as int]);
            return false;
        }
        i = i + 1;
        assert(s@.take(i as int) == p@.take(i as int));
    }
    assert(p@.take(p.len() as int) == p@);
    true
}

fn window_at(s: &[u8], p: &[u8], at: usize) -> (r: bool)
    requires
        at + p.len() <= s.len(),
    ensures
        r == (s@.subrange(at as int, at + p.len()) == p@),
{
    let mut i: usize = 0;
    while i < p.len()
        invariant
            i <= p.len(),
            at + p.len() <= s.len(),
            s@.subrange(at as int, at + i) == p@.take(i as int),
        decreases p.len() - i,
    {
        if s[at + i] != p[i] {
            assert(s@.subrange(at as int, at + p.len())[i as int] != p@[i as int]);
            return false;
        }
        i = i + 1;
        assert(s@.subrange(at as int, at + i) == p@.take(i as int));
    }
    assert(p@.take(p.len() as int) == p@);
    true
}

fn contains_window(s: &[u8], p: &[u8]) -> (r: bool)
    ensures
        r == bytes_contain(s@, p@),
{
    if p.len() > s.len() {
        assert(!bytes_contain(s@, p@));
        return false;
    }
    if p.len() == 0 {
        let ghost z: int = 0;
        assert(s@.subrange(z, z + p@.len()) =~= p@);
        return true;
    }
    let count = s.len() - p.len() + 1;
    let mut at: usize = 0;
    while at < count
        invariant
            0 < p.len() <= s.len(),
            count == s.len() - p.len() + 1,
            at <= count,
            forall|j: int| 0 <= j < at ==> #[trigger] s@.subrange(j, j + p.len()) != p@,
        decreases count - at,
    {
        if window_at(s, p, at) {
            return true;
        }
        at = at + 1;
    }
    assert forall|j: int| 0 <= j && j + p.len() <= s.len() implies #[trigger] s@.subrange(j, j + p.len()) != p@ by {
        assert(j < at);
    }
    false
}

/// Whether a file holds generated contents: it starts with the header of its layout
/// or, for Markdown pages, carries the marker inside its front matter or after it.
pub open spec fn spec_is_generated(contents: Seq<u8>, header: Seq<u8>) -> bool {
    let dashes = "---\n"@.map_values(|c: char| c as u8);
    ||| bytes_start_with(contents, header)
    ||| header == HEADER.spec_bytes() && (
        (bytes_start_with(contents, dashes)
            && bytes_start_with(contents.skip(dashes.len() as int), FRONTMATTER_HEADER.spec_bytes()))
        || (bytes_start_with(contents, dashes) && bytes_contain(contents, header)))
}

/// Whether `contents` were generated for a layout whose header is `header`.
pub fn is_generated(contents: &[u8], header: &str) -> (r: bool)
    ensures
        r == spec_is_generated(contents@, header.spec_bytes()),
{
    let header_bytes = header.as_bytes();
    if starts_with(contents, header_bytes) {
        return true;
    }
    let marker = HEADER.as_bytes();
    let same_header = header_bytes.len() == marker.len() && starts_with(header_bytes, marker);
    assert(same_header == (header_bytes@ == marker@)) by {
        if header_bytes@.len() == marker@.len() && bytes_start_with(header_bytes@, marker@) {
            assert(header_bytes@ == header_bytes@.take(marker@.len() as int));
        }
        if header_bytes@ == marker@ {
            assert(marker@.take(marker@.len() as int) =~= marker@);
        }
    }
    if !same_header {
        return false;
    }
    let dashes: [u8; 4] = [45u8, 45u8, 45u8, 10u8];
    proof {
        reveal_strlit("---\n");
        assert("---\n"@.map_values(|c: char| c as u8) =~= dashes@);
    }
    if !starts_with(contents, &dashes) {
        return false;
    }
    let rest = vstd::slice::slice_subrange(contents, 4, contents.len());
    assert(rest@ == contents@.skip(4));
    if starts_with(rest, FRONTMATTER_HEADER.as_bytes()) {
        return true;
    }
    contains_window(contents, header_bytes)
}

/// The paths of `entries` that do not occur in `others`, in order.
pub open spec fn missing_from(entries: Seq<(Seq<char>, Seq<u8>)>, others: Seq<(Seq<char>, Seq<u8>)>) -> Seq<Seq<char>>
    decreases entries.len(),
{
    if entries.len() == 0 {
        seq![]
    } else {
        let rest = missing_from(entries.drop_last(), others);
        let (path, _) = entries.last();
        if exists|j: int| 0 <= j < others.len() && (#[trigger] others[j]).0 == path {
            rest
        } else {
            rest.push(path)
        }
    }
}

/// The paths of `before` whose first counterpart in `after` holds other contents, in order.
pub open spec fn modified_in(before: Seq<(Seq<char>, Seq<u8>)>, after: Seq<(Seq<char>, Seq<u8>)>) -> Seq<Seq<char>>
    decreases before.len(),
{
    if before.len() == 0 {
        seq![]
    } else {
        let rest = modified_in(before.drop_last(), after);
        let (path, contents) = before.last();
        match find_path(after, path) {
            Some(j) => if after[j].1 != contents { rest.push(path) } else { rest },
            None => rest,
        }
    }
}

/// The index of the first entry with `path`, if any.
pub open spec fn find_path(entries: Seq<(Seq<char>, Seq<u8>)>, path: Seq<char>) -> Option<int> {
    if exists|j: int| 0 <= j < entries.len() && (#[trigger] entries[j]).0 == path {
        Some(choose|j: int| 0 <= j < entries.len() && (#[trigger] entries[j]).0 == path
            && forall|k: int| 0 <= k < j ==> (#[trigger] entries[k]).0 != path)
    } else {
        None
    }
}

/// A section of the drift report: the label, then each path on an indented line.
pub open spec fn paths_section(label: Seq<char>, paths: Seq<Seq<char>>) -> Seq<char> {
    if paths.len() == 0 {
        seq![]
    } else {
        label + ":\n"@ + crate::text::concat_map(paths, |p: Seq<char>| "  "@ + p + "\n"@)
    }
}

/// Appends a labelled list of paths to a report; nothing when there are none.
pub fn append_paths(report: &mut String, label: &str, paths: &Vec<String>)
    ensures
        final(report)@ == old(report)@ + paths_section(label@, paths@.map_values(|p: String| p@)),
{
    let ghost texts = paths@.map_values(|p: String| p@);
    if paths.len() == 0 {
        assert(texts.len() == 0);
        assert(old(report)@ + paths_section(label@, texts) == old(report)@);
        return;
    }
    report.append(label);
    report.append(":\n");
    let ghost head = report@;
    let mut i: usize = 0;
    while i < paths.len()
        invariant
            i <= paths.len(),
            texts == paths@.map_values(|p: String| p@),
            report@ == head + crate::text::concat_map(texts.take(i as int), |p: Seq<char>| "  "@ + p + "\n"@),
        decreases paths.len() - i,
    {
        assert(texts.take(i + 1).drop_last() == texts.take(i as int));
        report.append("  ");
        report.append(paths[i].as_str());
        report.append("\n");
        i = i + 1;
    }
    assert(texts.take(paths.len() as int) == texts);
}


pub open spec fn snapshot_view(entries: Seq<(String, Vec<u8>)>) -> Seq<(Seq<char>, Seq<u8>)> {
    entries.map_values(|e: (String, Vec<u8>)| (e.0@, e.1@))
}

/// The drift between two snapshots of generated files (each path once): the added,
/// removed and modified paths, or nothing when they agree.
pub open spec fn drift(before: Seq<(Seq<char>, Seq<u8>)>, after: Seq<(Seq<char>, Seq<u8>)>) -> Option<Seq<char>> {
    let added = missing_from(after, before);
    let removed = missing_from(before, after);
    let modified = modified_in(before, after);
    if added.len() == 0 && removed.len() == 0 && modified.len() == 0 {
        None
    } else {
        Some(trim_end(paths_section("added"@, added) + paths_section("removed"@, removed) + paths_section("modified"@, modified)))
    }
}

fn first_path(entries: &Vec<(String, Vec<u8>)>, path: &String) -> (r: Option<usize>)
    ensures
        r matches Some(j) ==> j < entries.len() && find_path(snapshot_view(entries@), path@) == Some(j as int),
        r is None ==> find_path(snapshot_view(entries@), path@) is None,
{
    let ghost v = snapshot_view(entries@);
    let mut j: usize = 0;
    while j < entries.len()
        invariant
            j <= entries.len(),
            v == snapshot_view(entries@),
            forall|k: int| 0 <= k < j ==> (#[trigger] v[k]).0 != path@,
        decreases entries.len() - j,
    {
        if entries[j].0 == *path {
            proof {
                assert(v[j as int].0 == path@);
                let c = choose|i: int| 0 <= i < v.len() && (#[trigger] v[i]).0 == path@
                    && forall|k: int| 0 <= k < i ==> (#[trigger] v[k]).0 != path@;
                if c < j {
                } else if c > j {
                    assert(v[j as int].0 != path@);
                }
            }
            return Some(j);
        }
        j = j + 1;
    }
    None
}

fn same_bytes(a: &Vec<u8>, b: &Vec<u8>) -> (r: bool)
    ensures
        r == (a@ == b@),
{
    if a.len() != b.len() {
        return false;
    }
    let mut k: usize = 0;
    while k < a.len()
        invariant
            k <= a.len(),
            a.len() == b.len(),
            forall|i: int| 0 <= i < k ==> a@[i] == b@[i],
        decreases a.len() - k,
    {
        if a[k] != b[k] {
            return false;
        }
        k = k + 1;
    }
    assert(a@ =~= b@);
    true
}

fn missing_paths(entries: &Vec<(String, Vec<u8>)>, others: &Vec<(String, Vec<u8>)>) -> (r: Vec<String>)
    ensures
        r@.map_values(|p: String| p@) == missing_from(snapshot_view(entries@), snapshot_view(others@)),
{
    let ghost v = snapshot_view(entries@);
    let mut r: Vec<String> = Vec::new();
    let mut k: usize = 0;
    assert(v.take(0) =~= Seq::<(Seq<char>, Seq<u8>)>::empty());
    while k < entries.len()
        invariant
            k <= entries.len(),
            v == snapshot_view(entries@),
            r@.map_values(|p: String| p@) == missing_from(v.take(k as int), snapshot_view(others@)),
        decreases entries.len() - k,
    {
        assert(v.take(k + 1).drop_last() == v.take(k as int));
        assert(v.take(k + 1).last() == v[k as int]);
        let ghost prev = r@.map_values(|p: String| p@);
        match first_path(others, &entries[k].0) {
            Some(j) => {
                assert(find_path(snapshot_view(others@), v[k as int].0) is Some);
                assert(exists|i: int| 0 <= i < snapshot_view(others@).len() && (#[trigger] snapshot_view(others@)[i]).0 == v[k as int].0);
            },
            None => {
                r.push(entries[k].0.clone());
                assert(r@.map_values(|p: String| p@) =~= prev.push(v[k as int].0));
            },
        }
        k = k + 1;
    }
    assert(v.take(entries.len() as int) == v);
    r
}

fn modified_paths(before: &Vec<(String, Vec<u8>)>, after: &Vec<(String, Vec<u8>)>) -> (r: Vec<String>)
    ensures
        r@.map_values(|p: String| p@) == modified_in(snapshot_view(before@), snapshot_view(after@)),
{
    let ghost v = snapshot_view(before@);
    let mut r: Vec<String> = Vec::new();
    let mut k: usize = 0;
    assert(v.take(0) =~= Seq::<(Seq<char>, Seq<u8>)>::empty());
    while k < before.len()
        invariant
            k <= before.len(),
            v == snapshot_view(before@),
            r@.map_values(|p: String| p@) == modified_in(v.take(k as int), snapshot_view(after@)),
        decreases before.len() - k,
    {
        assert(v.take(k + 1).drop_last() == v.take(k as int));
        assert(v.take(k + 1).last() == v[k as int]);
        let ghost prev = r@.map_values(|p: String| p@);
        match first_path(after, &before[k].0) {
            Some(j) => {
                if !same_bytes(&after[j].1, &before[k].1) {
                    r.push(before[k].0.clone());
                    assert(r@.map_values(|p: String| p@) =~= prev.push(v[k as int].0));
                }
            },
            None => {},
        }
        k = k + 1;
    }
    assert(v.take(before.len() as int) == v);
    r
}

/// Each path occurs once in a snapshot.
pub open spec fn paths_unique(entries: Seq<(Seq<char>, Seq<u8>)>) -> bool {
    forall|i: int, j: int| 0 <= i < j < entries.len() ==> (#[trigger] entries[i]).0 != (#[trigger] entries[j]).0
}

proof fn lemma_self_prefix(s: Seq<(Seq<char>, Seq<u8>)>, n: int)
    requires
        paths_unique(s),
        0 <= n <= s.len(),
    ensures
        missing_from(s.take(n), s) == Seq::<Seq<char>>::empty(),
        modified_in(s.take(n), s) == Seq::<Seq<char>>::empty(),
    decreases n,
{
    if n > 0 {
        lemma_self_prefix(s, n - 1);
        let p = s.take(n);
        assert(p.drop_last() =~= s.take(n - 1));
        let (path, contents) = p.last();
        assert(p.last() == s[n - 1]);
        assert(s[n - 1].0 == path);
        assert(exists|j: int| 0 <= j < s.len() && (#[trigger] s[j]).0 == path);
        let j = find_path(s, path)->0;
        assert(0 <= j < s.len() && s[j].0 == path);
        assert(j == n - 1) by {
            if j < n - 1 {
                assert(s[j].0 != s[n - 1].0);
            } else if j > n - 1 {
                assert(forall|k: int| 0 <= k < j ==> (#[trigger] s[k]).0 != path);
                assert(s[n - 1].0 != path);
            }
        }
    }
}

/// A snapshot whose paths each occur once has drifted from itself in nothing.
pub proof fn law_no_drift_against_itself(s: Seq<(Seq<char>, Seq<u8>)>)
    requires
        paths_unique(s),
    ensures
        drift(s, s) is None,
{
    lemma_self_prefix(s, s.len() as int);
    assert(s.take(s.len() as int) =~= s);
}

/// Reports how the generated files changed between two snapshots.
pub fn drift_report(before: &Vec<(String, Vec<u8>)>, after: &Vec<(String, Vec<u8>)>) -> (r: Option<String>)
    ensures
        match drift(snapshot_view(before@), snapshot_view(after@)) {
            Some(text) => r matches Some(s) && s@ == text,
            None => r is None,
        },
{
    let added = missing_paths(after, before);
    let removed = missing_paths(before, after);
    let modified = modified_paths(before, after);
    if added.len() == 0 && removed.len() == 0 && modified.len() == 0 {
        return None;
    }
    let mut report = String::new();
    append_paths(&mut report, "added", &added);
    append_paths(&mut report, "removed", &removed);
    append_paths(&mut report, "modified", &modified);
    Some(trim_end_of(report.as_str()))
}

} // verus!
