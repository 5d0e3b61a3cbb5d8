//! Reading specification files: slugs, and where formulas were written.

use vstd::prelude::*;
use vstd::string::*;
use crate::model::{Function as Declared, Outputs, SourceLocation};
use crate::model::OutputField;
use crate::semantic::{append_debug_list, debug_list, field_names, strings_view, Function, ResultBinding, ValueType, VariableValue};
use crate::strings::{chars_of, decimal, decimal_text, push_char, str_equal};
use crate::validate::{is_identifier, valid_identifier};

verus! {

/// Why a specification file's name is not a slug.
#[derive(Clone, Copy, Debug, PartialEq, Eq, Structural)]
pub enum SlugError {
    /// The file name is not UTF-8.
    NonUtf8Slug,
    /// The file name is not a lowercase ASCII letter followed by lowercase letters,
    /// digits and underscores.
    InvalidSlug,
}

/// The slug of a specification file from its stem (`None` when the stem is not UTF-8).
pub fn source_slug(stem: Option<&str>) -> (r: Result<String, SlugError>)
    ensures
        match stem {
            None => r == Err::<String, SlugError>(SlugError::NonUtf8Slug),
            Some(s) => if is_identifier(s@) {
                r matches Ok(slug) && slug@ == s@
            } else {
                r == Err::<String, SlugError>(SlugError::InvalidSlug)
            },
        },
{
    match stem {
        None => Err(SlugError::NonUtf8Slug),
        Some(s) => if valid_identifier(s) {
            Ok(s.to_owned())
        } else {
            Err(SlugError::InvalidSlug)
        },
    }
}

/// The message of a file name that is not a slug, for the file at `path`.
pub open spec fn slug_message(e: SlugError, path: Seq<char>) -> Seq<char> {
    match e {
        SlugError::NonUtf8Slug => path + ":\n  $:\n    specification filename must have a UTF-8 stem"@,
        SlugError::InvalidSlug => path + ":\n  $:\n    specification filename stem must be an APA-style slug matching ^[a-z][a-z0-9_]*$"@,
    }
}

impl SlugError {
    /// The message of the error for the file at `path`.
    pub fn message(&self, path: &str) -> (r: String)
        ensures
            r@ == slug_message(*self, path@),
    {
        let mut r = String::from_str(path);
        match self {
            SlugError::NonUtf8Slug => r.append(":\n  $:\n    specification filename must have a UTF-8 stem"),
            SlugError::InvalidSlug => r.append(
                ":\n  $:\n    specification filename stem must be an APA-style slug matching ^[a-z][a-z0-9_]*$",
            ),
        }
        r
    }
}

/// The number of `/` that lead `p`.
pub open spec fn leading_slashes(p: Seq<char>) -> nat
    decreases p.len(),
{
    if p.len() > 0 && p[0] == '/' {
        1 + leading_slashes(p.drop_first())
    } else {
        0
    }
}

/// Where in a document a schema violation lies, from the JSON pointer of the instance:
/// `$` for the document itself, else the pointer without its leading `/`, with `.`
/// between its parts.
pub open spec fn schema_location_text(pointer: Seq<char>) -> Seq<char> {
    if pointer.len() == 0 {
        seq!['$']
    } else {
        pointer.skip(leading_slashes(pointer) as int).map_values(|c: char| if c == '/' { '.' } else { c })
    }
}

proof fn lemma_leading_slashes(p: Seq<char>, k: int)
    requires
        0 <= k <= p.len(),
        forall|j: int| 0 <= j < k ==> p[j] == '/',
        k == p.len() || p[k] != '/',
    ensures
        leading_slashes(p) == k,
    decreases k,
{
    if k > 0 {
        lemma_leading_slashes(p.drop_first(), k - 1);
    }
}

/// Where in a document a schema violation lies (see `schema_location_text`).
pub fn schema_location(pointer: &str) -> (r: String)
    ensures
        r@ == schema_location_text(pointer@),
{
    let cs = chars_of(pointer);
    let mut r = String::new();
    if cs.len() == 0 {
        push_char(&mut r, '$');
        assert(r@ =~= seq!['$']);
        return r;
    }
    let mut k: usize = 0;
    while k < cs.len() && cs[k] == '/'
        invariant
            k <= cs.len(),
            cs@ == pointer@,
            forall|j: int| 0 <= j < k ==> cs@[j] == '/',
        decreases cs.len() - k,
    {
        k = k + 1;
    }
    proof {
        lemma_leading_slashes(pointer@, k as int);
    }
    let start = k;
    while k < cs.len()
        invariant
            start <= k <= cs.len(),
            cs@ == pointer@,
            r@ == pointer@.subrange(start as int, k as int).map_values(|c: char| if c == '/' { '.' } else { c }),
        decreases cs.len() - k,
    {
        let c = if cs[k] == '/' { '.' } else { cs[k] };
        push_char(&mut r, c);
        k = k + 1;
        assert(r@ =~= pointer@.subrange(start as int, k as int).map_values(|c: char| if c == '/' { '.' } else { c }));
    }
    assert(pointer@.subrange(start as int, cs.len() as int) =~= pointer@.skip(start as int));
    r
}

/// Whether `p` occurs in `s` at `i`.
pub open spec fn occurs_at(s: Seq<u8>, p: Seq<u8>, i: int) -> bool {
    0 <= i && i + p.len() <= s.len() && s.subrange(i, i + p.len()) == p
}

/// The first position in `from..` at which `p` occurs within `s[..to]`.
pub open spec fn first_match(s: Seq<u8>, p: Seq<u8>, from: int, to: int) -> Option<int>
    decreases to - from,
{
    if from < 0 || from + p.len() > to || to > s.len() {
        None
    } else if s.subrange(from, from + p.len()) == p {
        Some(from)
    } else {
        proof {
            if p.len() == 0 {
                assert(s.subrange(from, from + p.len()) =~= p);
            }
        }
        first_match(s, p, from + 1, to)
    }
}

proof fn lemma_first_match_bounds(s: Seq<u8>, p: Seq<u8>, from: int, to: int)
    ensures
        first_match(s, p, from, to) matches Some(i) ==> from <= i && i + p.len() <= to,
    decreases to - from,
{
    if !(from < 0 || from + p.len() > to || to > s.len()) && s.subrange(from, from + p.len()) != p {
        if p.len() == 0 {
            assert(s.subrange(from, from + p.len()) =~= p);
        }
        lemma_first_match_bounds(s, p, from + 1, to);
    }
}

/// A formula found from `cursor` on starts at or after the cursor and lies within the text.
pub proof fn lemma_find_expr_after(s: Seq<u8>, cursor: int, e: Seq<u8>)
    ensures
        find_expr(s, cursor, e) matches Some((v, w)) ==> cursor <= v && w == v + e.len() && w <= s.len(),
    decreases s.len() - cursor,
{
    lemma_first_match_bounds(s, expr_marker(), cursor, s.len() as int);
    match first_match(s, expr_marker(), cursor, s.len() as int) {
        None => {},
        Some(field) => {
            let value_start = field + 5;
            lemma_first_match_bounds(s, expr_marker(), value_start, s.len() as int);
            let value_end = match first_match(s, expr_marker(), value_start, s.len() as int) {
                Some(next) => next,
                None => s.len() as int,
            };
            lemma_first_match_bounds(s, e, value_start, value_end);
            if first_match(s, e, value_start, value_end) is None && cursor < value_start <= s.len() {
                lemma_find_expr_after(s, value_start, e);
            }
        },
    }
}

pub open spec fn expr_marker() -> Seq<u8> {
    seq![101u8, 120u8, 112u8, 114u8, 58u8]
}

/// Looks for `expression` in the values of the `expr:` fields from `cursor` on: each
/// value runs from after its `expr:` to the next `expr:` or the end; the first value
/// holding the expression gives its byte range.
pub open spec fn find_expr(s: Seq<u8>, cursor: int, e: Seq<u8>) -> Option<(int, int)>
    decreases s.len() - cursor,
{
    match first_match(s, expr_marker(), cursor, s.len() as int) {
        None => None,
        Some(field) => {
            let value_start = field + 5;
            let value_end = match first_match(s, expr_marker(), value_start, s.len() as int) {
                Some(next) => next,
                None => s.len() as int,
            };
            match first_match(s, e, value_start, value_end) {
                Some(v) => Some((v, v + e.len())),
                None => if cursor < value_start <= s.len() {
                    find_expr(s, value_start, e)
                } else {
                    None
                },
            }
        },
    }
}

fn match_at(s: &[u8], p: &[u8], at: usize) -> (r: bool)
    requires
        at + p.len() <= s.len(),
    ensures
        r == (s@.subrange(at as int, at + p.len()) == p@),
{
    let mut i: usize = 0;
    while i < p.len()
        invariant
            i <= p.len(),
            at + p.len() <= s.len(),
            s@.subrange(at as int, at + i) == p@.take(i as int),
        decreases p.len() - i,
    {
        if s[at + i] != p[i] {
            assert(s@.subrange(at as int, at + p.len())[i as int] != p@[i as int]);
            return false;
        }
        i = i + 1;
        assert(s@.subrange(at as int, at + i) == p@.take(i as int));
    }
    assert(p@.take(p.len() as int) == p@);
    true
}

fn first_match_of(s: &[u8], p: &[u8], from: usize, to: usize) -> (r: Option<usize>)
    requires
        to <= s.len(),
    ensures
        match r {
            Some(i) => first_match(s@, p@, from as int, to as int) == Some(i as int) && from <= i && i + p.len() <= to,
            None => first_match(s@, p@, from as int, to as int) is None,
        },
{
    proof {
        lemma_first_match_bounds(s@, p@, from as int, to as int);
    }
    if p.len() > to || from > to - p.len() {
        return None;
    }
    let last = to - p.len();
    let mut i = from;
    while i <= last
        invariant
            from <= i,
            last + p.len() == to,
            to <= s.len(),
            first_match(s@, p@, from as int, to as int) == first_match(s@, p@, i as int, to as int),
        decreases last + 1 - i,
    {
        if match_at(s, p, i) {
            return Some(i);
        }
        if i == last {
            assert(first_match(s@, p@, i + 1, to as int) is None);
            return None;
        }
        i = i + 1;
    }
    None
}

/// The byte range of `expression` in the first `expr:` value, from `cursor` on, that
/// holds it.
pub fn find_expression(text: &str, cursor: usize, expression: &str) -> (r: Option<(usize, usize)>)
    requires
        cursor <= text.spec_bytes().len(),
    ensures
        match find_expr(text.spec_bytes(), cursor as int, expression.spec_bytes()) {
            Some((a, b)) => r matches Some((x, y)) && x == a && y == b,
            None => r is None,
        },
        r matches Some((x, y)) ==> x <= y && y == x + expression.spec_bytes().len() && y <= text.spec_bytes().len(),
{
    let s = text.as_bytes();
    let e = expression.as_bytes();
    let marker: [u8; 5] = [101u8, 120u8, 112u8, 114u8, 58u8];
    let m = marker.as_slice();
    assert(m@ == expr_marker());
    let mut at = cursor;
    loop
        invariant
            at <= s.len(),
            m@ == expr_marker(),
            s@ == text.spec_bytes(),
            e@ == expression.spec_bytes(),
            find_expr(s@, cursor as int, e@) == find_expr(s@, at as int, e@),
        decreases s.len() - at,
    {
        let field = match first_match_of(s, m, at, s.len()) {
            None => {
                return None;
            },
            Some(field) => field,
        };
        let value_start = field + 5;
        let value_end = match first_match_of(s, m, value_start, s.len()) {
            Some(next) => next,
            None => s.len(),
        };
        match first_match_of(s, e, value_start, value_end) {
            Some(v) => {
                return Some((v, v + e.len()));
            },
            None => {},
        }
        at = value_start;
    }
}


/// The number of newlines.
pub open spec fn newline_count(b: Seq<u8>) -> nat
    decreases b.len(),
{
    if b.len() == 0 {
        0
    } else {
        newline_count(b.drop_last()) + if b.last() == 10 { 1nat } else { 0nat }
    }
}

/// The number of characters after the last newline: the bytes there that start a
/// UTF-8 sequence (all but `0x80..=0xBF`).
pub open spec fn column_count(b: Seq<u8>) -> nat
    decreases b.len(),
{
    if b.len() == 0 {
        0
    } else if b.last() == 10 {
        0
    } else {
        column_count(b.drop_last()) + if 128 <= b.last() && b.last() < 192 { 0nat } else { 1nat }
    }
}

pub open spec fn plus_one(n: nat) -> usize {
    if n < usize::MAX { (n + 1) as usize } else { usize::MAX }
}

/// The one-based line and column of a byte offset of a text.
pub fn location(text: &str, offset: usize) -> (r: SourceLocation)
    requires
        offset <= text.spec_bytes().len(),
        vstd::utf8::is_char_boundary(text.spec_bytes(), offset as int),
    ensures
        r.line == plus_one(newline_count(text.spec_bytes().take(offset as int))),
        r.column == plus_one(column_count(text.spec_bytes().take(offset as int))),
{
    let b = text.as_bytes();
    let mut lines: usize = 0;
    let mut column: usize = 0;
    let mut i: usize = 0;
    while i < offset
        invariant
            i <= offset <= b.len(),
            b@ == text.spec_bytes(),
            lines as nat == newline_count(b@.take(i as int)),
            column as nat == column_count(b@.take(i as int)),
            lines <= i,
            column <= i,
        decreases offset - i,
    {
        assert(b@.take(i + 1).drop_last() == b@.take(i as int));
        assert(b@.take(i + 1).last() == b@[i as int]);
        let c = b[i];
        if c == 10 {
            lines = lines + 1;
            column = 0;
        } else if !(128 <= c && c < 192) {
            column = column + 1;
        }
        i = i + 1;
    }
    SourceLocation { line: lines.saturating_add(1), column: column.saturating_add(1) }
}


/// Why a compiled implementation does not give the function's outputs.
#[derive(Debug, PartialEq)]
pub enum OutputError {
    /// The last variable is a record of the output's name but of other fields.
    RecordOutputMismatch { path: String, function: String, index: usize, record: String },
    /// Outputs that no input or numeric variable of that name gives, in field order.
    MissingOutputs { path: String, function: String, names: Vec<String> },
}

/// The record type a variable holds, as its name and field names.
pub open spec fn variable_record(v: VariableValue) -> Option<(Seq<char>, Seq<Seq<char>>)> {
    match v {
        VariableValue::RecordLookup(l) => Some((l.output.name@, strings_view(l.output.fields@))),
        VariableValue::Tree(t) => match t.definition.output {
            ValueType::Record(r) => Some((r.name@, strings_view(r.fields@))),
            _ => None,
        },
        VariableValue::Expression(_) => None,
    }
}

/// Whether a variable gives a number.
pub open spec fn numeric_variable(v: VariableValue) -> bool {
    v is Expression || (v matches VariableValue::Tree(t) && t.definition.output is Number)
}

/// The names that can give a scalar output: the inputs, then the numeric variables.
pub open spec fn output_sources(c: Function) -> Set<Seq<char>> {
    Set::new(
        |n: Seq<char>| (exists|i: int| 0 <= i < c.inputs.len() && c.inputs@[i].name@ == n) || (exists|j: int|
            0 <= j < c.variables.len() && c.variables@[j].name@ == n && numeric_variable(c.variables@[j].value)),
    )
}

/// The output fields no source gives, in field order.
pub open spec fn missing_outputs(names: Seq<Seq<char>>, sources: Set<Seq<char>>) -> Seq<Seq<char>>
    decreases names.len(),
{
    if names.len() == 0 {
        seq![]
    } else if sources.contains(names.last()) {
        missing_outputs(names.drop_last(), sources)
    } else {
        missing_outputs(names.drop_last(), sources).push(names.last())
    }
}

pub enum OutputIssue {
    RecordOutputMismatch(nat, Seq<char>),
    MissingOutputs(Seq<Seq<char>>),
}

/// Where a function's result comes from: its last variable when that holds exactly the
/// output record; else each output field from the input or numeric variable of its name.
pub open spec fn output_binding(f: Declared, c: Function) -> Result<ResultBinding, OutputIssue> {
    let recorded = match f.outputs {
        Outputs::Record { name, fields } => if c.variables.len() > 0 {
            let index = c.variables.len() - 1;
            match variable_record(c.variables@[index].value) {
                Some(actual) => if actual == (name@, field_names(fields@)) {
                    Some(Ok(ResultBinding::RecordVariable(index as usize)))
                } else if actual.0 == name@ {
                    Some(Err(OutputIssue::RecordOutputMismatch(index as nat, name@)))
                } else {
                    None
                },
                None => None,
            }
        } else {
            None
        },
        _ => None,
    };
    match recorded {
        Some(r) => r,
        None => {
            let missing = missing_outputs(field_names(f.outputs.spec_fields()), output_sources(c));
            if missing.len() == 0 {
                Ok(ResultBinding::Fields)
            } else {
                Err(OutputIssue::MissingOutputs(missing))
            }
        },
    }
}

impl OutputError {
    pub open spec fn issue(&self) -> OutputIssue {
        match self {
            OutputError::RecordOutputMismatch { index, record, .. } => OutputIssue::RecordOutputMismatch(*index as nat, record@),
            OutputError::MissingOutputs { names, .. } => OutputIssue::MissingOutputs(strings_view(names@)),
        }
    }
}

fn record_of(v: &VariableValue) -> (r: Option<(&String, &Vec<String>)>)
    ensures
        match r {
            Some((n, fs)) => variable_record(*v) == Some((n@, strings_view(fs@))),
            None => variable_record(*v) is None,
        },
{
    match v {
        VariableValue::RecordLookup(l) => Some((&l.output.name, &l.output.fields)),
        VariableValue::Tree(t) => match &t.definition.output {
            ValueType::Record(r) => Some((&r.name, &r.fields)),
            _ => None,
        },
        VariableValue::Expression(_) => None,
    }
}

fn is_source(c: &Function, name: &String) -> (r: bool)
    ensures
        r == output_sources(*c).contains(name@),
{
    let mut i: usize = 0;
    while i < c.inputs.len()
        invariant
            i <= c.inputs.len(),
            forall|k: int| 0 <= k < i ==> c.inputs@[k].name@ != name@,
        decreases c.inputs.len() - i,
    {
        if str_equal(c.inputs[i].name.as_str(), name.as_str()) {
            return true;
        }
        i = i + 1;
    }
    let mut j: usize = 0;
    while j < c.variables.len()
        invariant
            j <= c.variables.len(),
            forall|k: int| 0 <= k < c.inputs.len() ==> c.inputs@[k].name@ != name@,
            forall|k: int| 0 <= k < j ==> !(c.variables@[k].name@ == name@ && numeric_variable(#[trigger] c.variables@[k].value)),
        decreases c.variables.len() - j,
    {
        if str_equal(c.variables[j].name.as_str(), name.as_str()) && c.variables[j].value.is_number() {
            return true;
        }
        j = j + 1;
    }
    false
}

fn same_record(name: &String, fields: &Vec<String>, expected_name: &String, expected: &Vec<OutputField>) -> (r: bool)
    ensures
        r == ((name@, strings_view(fields@)) == (expected_name@, field_names(expected@))),
{
    if !str_equal(name.as_str(), expected_name.as_str()) || fields.len() != expected.len() {
        assert(strings_view(fields@).len() == fields.len());
        assert(field_names(expected@).len() == expected.len());
        return false;
    }
    let mut k: usize = 0;
    while k < fields.len()
        invariant
            k <= fields.len(),
            fields.len() == expected.len(),
            forall|j: int| 0 <= j < k ==> fields@[j]@ == expected@[j].name@,
        decreases fields.len() - k,
    {
        if !str_equal(fields[k].as_str(), expected[k].name.as_str()) {
            assert(strings_view(fields@)[k as int] != field_names(expected@)[k as int]);
            return false;
        }
        k = k + 1;
    }
    assert(strings_view(fields@) =~= field_names(expected@));
    true
}

/// Decides where `function`'s result comes from in its compiled implementation.
pub fn validate_output(path: &str, function: &Declared, compiled: &Function) -> (r: Result<ResultBinding, OutputError>)
    ensures
        match r {
            Ok(b) => output_binding(*function, *compiled) == Ok::<ResultBinding, OutputIssue>(b),
            Err(e) => output_binding(*function, *compiled) == Err::<ResultBinding, OutputIssue>(e.issue()),
        },
        r matches Err(e) ==> match e {
            OutputError::RecordOutputMismatch { path: p, function: f, .. } => p@ == path@ && f@ == function.name@,
            OutputError::MissingOutputs { path: p, function: f, .. } => p@ == path@ && f@ == function.name@,
        },
{
    match &function.outputs {
        Outputs::Record { name, fields } => {
            if compiled.variables.len() > 0 {
                let index = compiled.variables.len() - 1;
                match record_of(&compiled.variables[index].value) {
                    Some((actual_name, actual_fields)) => {
                        if same_record(actual_name, actual_fields, name, fields) {
                            return Ok(ResultBinding::RecordVariable(index));
                        }
                        if str_equal(actual_name.as_str(), name.as_str()) {
                            return Err(
                                OutputError::RecordOutputMismatch {
                                    path: path.to_owned(),
                                    function: function.name.clone(),
                                    index,
                                    record: name.clone(),
                                },
                            );
                        }
                    },
                    None => {},
                }
            }
        },
        _ => {},
    }
    let fields = function.outputs.fields();
    let mut missing: Vec<String> = Vec::new();
    let mut k: usize = 0;
    let ghost names = field_names(fields@);
    assert(names.take(0) =~= Seq::<Seq<char>>::empty());
    while k < fields.len()
        invariant
            k <= fields.len(),
            names == field_names(fields@),
            fields@ == function.outputs.spec_fields(),
            strings_view(missing@) == missing_outputs(names.take(k as int), output_sources(*compiled)),
        decreases fields.len() - k,
    {
        assert(names.take(k + 1).drop_last() =~= names.take(k as int));
        assert(names.take(k + 1).last() == fields@[k as int].name@);
        if !is_source(compiled, &fields[k].name) {
            let ghost m0 = strings_view(missing@);
            missing.push(fields[k].name.clone());
            assert(strings_view(missing@) =~= m0.push(fields@[k as int].name@));
        }
        k = k + 1;
    }
    assert(names.take(fields.len() as int) == names);
    if missing.len() == 0 {
        assert(strings_view(missing@).len() == 0);
        Ok(ResultBinding::Fields)
    } else {
        Err(OutputError::MissingOutputs { path: path.to_owned(), function: function.name.clone(), names: missing })
    }
}


impl OutputError {
    /// The message of the error.
    pub fn message(&self) -> (r: String)
        ensures
            r@ == match self {
                OutputError::RecordOutputMismatch { path, function, index, record } => path@ + " -> function "@ + function@
                    + " -> implementation.variables["@ + decimal(*index as nat) + "]: record value type `"@ + record@
                    + "` does not exactly match the function output record"@,
                OutputError::MissingOutputs { path, function, names } => path@ + " -> function "@ + function@
                    + " -> implementation.variables: missing final output variables "@ + debug_list(strings_view(names@)),
            },
    {
        match self {
            OutputError::RecordOutputMismatch { path, function, index, record } => {
                let mut r = path.clone();
                r.append(" -> function ");
                r.append(function.as_str());
                r.append(" -> implementation.variables[");
                r.append(decimal_text(*index).as_str());
                r.append("]: record value type `");
                r.append(record.as_str());
                r.append("` does not exactly match the function output record");
                r
            },
            OutputError::MissingOutputs { path, function, names } => {
                let mut r = path.clone();
                r.append(" -> function ");
                r.append(function.as_str());
                r.append(" -> implementation.variables: missing final output variables ");
                append_debug_list(&mut r, names);
                r
            },
        }
    }
}

} // verus!
