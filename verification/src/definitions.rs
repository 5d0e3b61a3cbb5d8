//! Resolution of the named definitions of a specification file: enumeration inputs,
//! lookup tables and decision trees, each checked against what it refers to.

use vstd::prelude::*;
use vstd::string::*;
use crate::model::{
    Definition, DefinitionError, EnumDefinition, Input, InputReference, LookupDefinition, OutputReference, Parameter, LookupValue, OutputField, Outputs, TreeDefinition,
    TreeInput, definition_name, local_definition_prefix, resolved_enum_definition, spec_definition_name,
};
use crate::decision::tree_resolved;
use crate::semantic::{argument_names, cell_for, field_names, row_for, strings_view};
use crate::tree_validation::law_checked_tree_compiles;
use crate::strings::{decimal, decimal_text};
use crate::tree_validation::{
    TreeError, TreeErrorKind, TreeIssue, among, enum_member_names, issue_message, node_issue, same_names, ticked,
    tree_types_resolved, validate_tree_definition,
};
use crate::validate::{find_key, lookup, member_names};

verus! {

/// A definition error as values.
pub enum DefinitionIssue {
    MissingInputBinding(Seq<char>, Seq<char>),
    OutputAsInput(Seq<char>, Seq<char>),
    NonOutputAsOutput(Seq<char>, Seq<char>),
    ParameterAsOutput(Seq<char>, Seq<char>),
    UnknownDefinition(Seq<char>, Seq<char>),
    UnknownLookup(Seq<char>, Seq<char>),
    UnknownTree(Seq<char>, Seq<char>),
    NonEnumInput(Seq<char>, Seq<char>, Seq<char>),
    UnknownInputEnum(Seq<char>, Seq<char>, Seq<char>),
    InputDefinitionType(Seq<char>),
    UnknownInputType(Seq<char>, Seq<char>),
    OutputDefinitionType(Seq<char>),
    UnknownOutputType(Seq<char>, Seq<char>),
    DuplicateLookupKey(Seq<char>, Seq<char>, nat),
    UnknownLookupMember(Seq<char>, Seq<char>, nat),
    LookupFields(Seq<char>, nat),
    LookupCoverage(Seq<char>, Seq<char>),
    ReferencePrefix(Seq<char>),
    ReferenceName(Seq<char>),
    DuplicateQuantityUnit,
    Tree(Seq<char>, Seq<char>, TreeIssue),
}

impl DefinitionError {
    pub open spec fn issue(&self) -> DefinitionIssue {
        match self {
            DefinitionError::MissingInputBinding { function, name } => DefinitionIssue::MissingInputBinding(function@, name@),
            DefinitionError::OutputAsInput { function, name } => DefinitionIssue::OutputAsInput(function@, name@),
            DefinitionError::NonOutputAsOutput { function, name } => DefinitionIssue::NonOutputAsOutput(function@, name@),
            DefinitionError::ParameterAsOutput { function, name } => DefinitionIssue::ParameterAsOutput(function@, name@),
            DefinitionError::UnknownDefinition { function, name } => DefinitionIssue::UnknownDefinition(function@, name@),
            DefinitionError::UnknownLookup { function, name } => DefinitionIssue::UnknownLookup(function@, name@),
            DefinitionError::UnknownTree { function, name } => DefinitionIssue::UnknownTree(function@, name@),
            DefinitionError::NonEnumInput { function, input, definition_name } => DefinitionIssue::NonEnumInput(
                function@,
                input@,
                definition_name@,
            ),
            DefinitionError::UnknownInputEnum { function, input, definition_name } => DefinitionIssue::UnknownInputEnum(
                function@,
                input@,
                definition_name@,
            ),
            DefinitionError::InputDefinitionType { name } => DefinitionIssue::InputDefinitionType(name@),
            DefinitionError::UnknownInputType { name, input_name } => DefinitionIssue::UnknownInputType(name@, input_name@),
            DefinitionError::OutputDefinitionType { name } => DefinitionIssue::OutputDefinitionType(name@),
            DefinitionError::UnknownOutputType { name, output_name } => DefinitionIssue::UnknownOutputType(name@, output_name@),
            DefinitionError::DuplicateLookupKey { name, key, index } => DefinitionIssue::DuplicateLookupKey(
                name@,
                key@,
                *index as nat,
            ),
            DefinitionError::UnknownLookupMember { name, key, index } => DefinitionIssue::UnknownLookupMember(
                name@,
                key@,
                *index as nat,
            ),
            DefinitionError::LookupFields { name, index } => DefinitionIssue::LookupFields(name@, *index as nat),
            DefinitionError::LookupCoverage { name, enum_name } => DefinitionIssue::LookupCoverage(name@, enum_name@),
            DefinitionError::ReferencePrefix { reference } => DefinitionIssue::ReferencePrefix(reference@),
            DefinitionError::ReferenceName { reference } => DefinitionIssue::ReferenceName(reference@),
            DefinitionError::DuplicateQuantityUnit => DefinitionIssue::DuplicateQuantityUnit,
            DefinitionError::Tree(e) => DefinitionIssue::Tree(e.name@, e.path@, e.kind.issue()),
        }
    }
}

/// The error of a reference that names no local definition.
pub open spec fn reference_issue(reference: Seq<char>) -> DefinitionIssue {
    if reference.len() >= 8 && reference.take(8) == local_definition_prefix() {
        DefinitionIssue::ReferenceName(reference)
    } else {
        DefinitionIssue::ReferencePrefix(reference)
    }
}

/// The name a reference gives, or the error of the reference.
fn referenced_name(reference: &str) -> (r: Result<String, DefinitionError>)
    ensures
        match spec_definition_name(reference@) {
            Some(t) => r matches Ok(n) && n@ == t,
            None => r matches Err(e) && e.issue() == reference_issue(reference@),
        },
{
    match definition_name(reference) {
        Ok(n) => Ok(n),
        Err(e) => {
            assert(spec_definition_name(reference@) is None) by {
                if reference@.len() >= 8 && reference@.take(8) == local_definition_prefix() {
                }
            }
            Err(e)
        },
    }
}

/// `r` is enumeration `d` as it is known under the name `t`.
pub open spec fn enum_resolved(r: EnumDefinition, d: EnumDefinition, t: Seq<char>) -> bool {
    &&& r.enum_type.name@ == t
    &&& r.enum_type.document@ == d.enum_type.document@
    &&& r.enum_type.shared_module.is_some() == d.enum_type.shared_module.is_some()
    &&& (d.enum_type.shared_module matches Some(m) ==> r.enum_type.shared_module matches Some(n) && n@ == m@)
    &&& r.description@ == d.description@
    &&& r.values.len() == d.values.len()
    &&& forall|k: int| 0 <= k < r.values.len() ==> (#[trigger] r.values@[k]).name@ == d.values@[k].name@
        && r.values@[k].value@ == d.values@[k].value@
}

pub open spec fn same_field(a: OutputField, b: OutputField) -> bool {
    &&& a.name@ == b.name@
    &&& a.quantity@ == b.quantity@
    &&& a.unit@ == b.unit@
    &&& a.reported_unit@ == b.reported_unit@
    &&& a.description@ == b.description@
    &&& (match (a.symbol, b.symbol) {
        (Some(x), Some(y)) => x@ == y@,
        (None, None) => true,
        _ => false,
    })
    &&& (match (a.domain, b.domain) {
        (Some(x), Some(y)) => x@ == y@,
        (None, None) => true,
        _ => false,
    })
}

/// Two outputs with the same shape, name and fields.
pub open spec fn same_outputs(a: Outputs, b: Outputs) -> bool {
    match (a, b) {
        (Outputs::Scalar { field: x }, Outputs::Scalar { field: y }) => same_field(x, y),
        (Outputs::Record { name: m, fields: x }, Outputs::Record { name: n, fields: y }) => m@ == n@ && x.len() == y.len()
            && forall|k: int| 0 <= k < x.len() ==> same_field(#[trigger] x@[k], y@[k]),
        _ => false,
    }
}

fn copy_optional(v: &Option<String>) -> (r: Option<String>)
    ensures
        match (r, *v) {
            (Some(x), Some(y)) => x@ == y@,
            (None, None) => true,
            _ => false,
        },
{
    match v {
        Some(s) => Some(s.clone()),
        None => None,
    }
}

fn copy_field(f: &OutputField) -> (r: OutputField)
    ensures
        same_field(r, *f),
{
    OutputField {
        name: f.name.clone(),
        quantity: f.quantity.clone(),
        symbol: copy_optional(&f.symbol),
        unit: f.unit.clone(),
        reported_unit: f.reported_unit.clone(),
        domain: copy_optional(&f.domain),
        description: f.description.clone(),
    }
}

/// A copy of an output definition.
pub fn copy_outputs(o: &Outputs) -> (r: Outputs)
    ensures
        same_outputs(r, *o),
{
    match o {
        Outputs::Scalar { field } => Outputs::Scalar { field: copy_field(field) },
        Outputs::Record { name, fields } => {
            let mut copied: Vec<OutputField> = Vec::new();
            let mut k: usize = 0;
            while k < fields.len()
                invariant
                    k <= fields.len(),
                    copied.len() == k,
                    forall|j: int| 0 <= j < k ==> same_field(#[trigger] copied@[j], fields@[j]),
                decreases fields.len() - k,
            {
                copied.push(copy_field(&fields[k]));
                k = k + 1;
            }
            Outputs::Record { name: name.clone(), fields: copied }
        },
    }
}

/// Resolves an input whose type is a reference to an enumeration.
pub fn resolve_input_type(
    name: &String,
    description: &Option<String>,
    reference: &str,
    definitions: &Vec<(String, Definition)>,
    function: &str,
) -> (r: Result<Input, DefinitionError>)
    ensures
        match spec_definition_name(reference@) {
            None => r matches Err(e) && e.issue() == reference_issue(reference@),
            Some(t) => match lookup(definitions@, t) {
                Some(Definition::Enum(d)) => r matches Ok(Input::Enum { name: n, description: x, definition: rd }) && n@ == name@
                    && enum_resolved(rd, d, t) && match (x, *description) {
                    (Some(a), Some(b)) => a@ == b@,
                    (None, None) => true,
                    _ => false,
                },
                Some(_) => r matches Err(e) && e.issue() == DefinitionIssue::NonEnumInput(function@, name@, t),
                None => r matches Err(e) && e.issue() == DefinitionIssue::UnknownInputEnum(function@, name@, t),
            },
        },
{
    let t = referenced_name(reference)?;
    match find_key(definitions, t.as_str()) {
        Some(k) => match &definitions[k].1 {
            Definition::Enum(d) => Ok(
                Input::Enum {
                    name: name.clone(),
                    description: copy_optional(description),
                    definition: resolved_enum_definition(d, t.as_str()),
                },
            ),
            _ => Err(DefinitionError::NonEnumInput { function: function.to_owned(), input: name.clone(), definition_name: t }),
        },
        None => Err(DefinitionError::UnknownInputEnum { function: function.to_owned(), input: name.clone(), definition_name: t }),
    }
}

pub open spec fn row_keys(rows: Seq<LookupValue>) -> Seq<Seq<char>> {
    rows.map_values(|r: LookupValue| r.key@)
}

/// What is wrong with row `k` of a lookup: a repeated key, a key that is not a member,
/// or cells that are not exactly the output's fields.
pub open spec fn row_issue(l: LookupDefinition, e: EnumDefinition, fields: Seq<Seq<char>>, k: int) -> Option<DefinitionIssue> {
    let row = l.values@[k];
    if row_keys(l.values@).take(k).contains(row.key@) {
        Some(DefinitionIssue::DuplicateLookupKey(l.name@, row.key@, k as nat))
    } else if !member_names(e.values@).contains(row.key@) {
        Some(DefinitionIssue::UnknownLookupMember(l.name@, row.key@, k as nat))
    } else if argument_names(row.value@).to_set() != fields.to_set() {
        Some(DefinitionIssue::LookupFields(l.name@, k as nat))
    } else {
        None
    }
}

pub open spec fn first_row_issue(l: LookupDefinition, e: EnumDefinition, fields: Seq<Seq<char>>, n: int) -> Option<DefinitionIssue>
    decreases n,
{
    if n <= 0 {
        None
    } else {
        match first_row_issue(l, e, fields, n - 1) {
            Some(i) => Some(i),
            None => row_issue(l, e, fields, n - 1),
        }
    }
}

/// What is wrong with a resolved lookup: its first faulty row, or keys that do not
/// cover the enumeration.
pub open spec fn lookup_issue(l: LookupDefinition) -> Option<DefinitionIssue> {
    let e = l.input_type->0;
    let fields = field_names(l.output_type->0.spec_fields());
    match first_row_issue(l, e, fields, l.values.len() as int) {
        Some(i) => Some(i),
        None => if row_keys(l.values@).to_set() != member_names(e.values@).to_set() {
            Some(DefinitionIssue::LookupCoverage(l.name@, e.enum_type.name@))
        } else {
            None
        },
    }
}

proof fn lemma_first_row_issue_prefix(l: LookupDefinition, e: EnumDefinition, fields: Seq<Seq<char>>, m: int, n: int)
    requires
        0 <= m <= n,
        first_row_issue(l, e, fields, m) is Some,
    ensures
        first_row_issue(l, e, fields, n) == first_row_issue(l, e, fields, m),
    decreases n - m,
{
    if m < n {
        lemma_first_row_issue_prefix(l, e, fields, m, n - 1);
    }
}

fn key_names(rows: &Vec<LookupValue>) -> (r: Vec<String>)
    ensures
        strings_view(r@) == row_keys(rows@),
{
    let mut r: Vec<String> = Vec::new();
    let mut k: usize = 0;
    while k < rows.len()
        invariant
            k <= rows.len(),
            strings_view(r@) == row_keys(rows@).take(k as int),
        decreases rows.len() - k,
    {
        let ghost prev = strings_view(r@);
        r.push(rows[k].key.clone());
        assert(strings_view(r@) =~= prev.push(rows@[k as int].key@));
        assert(row_keys(rows@).take(k + 1) =~= row_keys(rows@).take(k as int).push(rows@[k as int].key@));
        k = k + 1;
    }
    assert(row_keys(rows@).take(rows.len() as int) =~= row_keys(rows@));
    r
}

fn cell_names(cells: &Vec<(String, String)>) -> (r: Vec<String>)
    ensures
        strings_view(r@) == argument_names(cells@),
{
    let mut r: Vec<String> = Vec::new();
    let mut k: usize = 0;
    while k < cells.len()
        invariant
            k <= cells.len(),
            strings_view(r@) == argument_names(cells@).take(k as int),
        decreases cells.len() - k,
    {
        let ghost prev = strings_view(r@);
        r.push(cells[k].0.clone());
        assert(strings_view(r@) =~= prev.push(cells@[k as int].0@));
        assert(argument_names(cells@).take(k + 1) =~= argument_names(cells@).take(k as int).push(cells@[k as int].0@));
        k = k + 1;
    }
    assert(argument_names(cells@).take(cells.len() as int) =~= argument_names(cells@));
    r
}

fn output_names(fields: &[OutputField]) -> (r: Vec<String>)
    ensures
        strings_view(r@) == field_names(fields@),
{
    let mut r: Vec<String> = Vec::new();
    let mut k: usize = 0;
    while k < fields.len()
        invariant
            k <= fields.len(),
            strings_view(r@) == field_names(fields@).take(k as int),
        decreases fields.len() - k,
    {
        let ghost prev = strings_view(r@);
        r.push(fields[k].name.clone());
        assert(strings_view(r@) =~= prev.push(fields@[k as int].name@));
        assert(field_names(fields@).take(k + 1) =~= field_names(fields@).take(k as int).push(fields@[k as int].name@));
        k = k + 1;
    }
    assert(field_names(fields@).take(fields.len() as int) =~= field_names(fields@));
    r
}

/// Checks the rows of a resolved lookup: each key once, each a member of the
/// enumeration, each row giving exactly the output's fields, and every member covered.
pub fn validate_lookup_values(l: &LookupDefinition) -> (r: Result<(), DefinitionError>)
    requires
        l.input_type is Some,
        l.output_type is Some,
    ensures
        match r {
            Ok(_) => lookup_issue(*l) is None,
            Err(e) => lookup_issue(*l) == Some(e.issue()),
        },
{
    let e = l.input_type.as_ref().unwrap();
    let output = l.output_type.as_ref().unwrap();
    let fields = output_names(output.fields());
    let keys = key_names(&l.values);
    let members = enum_member_names(e);
    let ghost fs = field_names(output.spec_fields());
    assert(strings_view(keys@).len() == keys@.len());
    assert(row_keys(l.values@).len() == l.values@.len());
    let mut k: usize = 0;
    while k < l.values.len()
        invariant
            k <= l.values.len(),
            keys.len() == l.values.len(),
            *e == l.input_type->0,
            fs == field_names(l.output_type->0.spec_fields()),
            strings_view(fields@) == fs,
            strings_view(keys@) == row_keys(l.values@),
            strings_view(members@) == member_names(e.values@),
            first_row_issue(*l, *e, fs, k as int) is None,
        decreases l.values.len() - k,
    {
        let row = &l.values[k];
        assert(strings_view(keys@)[k as int] == row.key@);
        assert(keys@[k as int]@ == row.key@);
        if among(&keys, k, &keys[k]) {
            proof {
                lemma_first_row_issue_prefix(*l, *e, fs, k + 1, l.values.len() as int);
            }
            return Err(DefinitionError::DuplicateLookupKey { name: l.name.clone(), key: row.key.clone(), index: k });
        }
        if !among(&members, members.len(), &row.key) {
            assert(strings_view(members@).take(members.len() as int) == strings_view(members@));
            proof {
                lemma_first_row_issue_prefix(*l, *e, fs, k + 1, l.values.len() as int);
            }
            return Err(DefinitionError::UnknownLookupMember { name: l.name.clone(), key: row.key.clone(), index: k });
        }
        assert(strings_view(members@).take(members.len() as int) == strings_view(members@));
        let cells = cell_names(&row.value);
        if !same_names(&cells, &fields) {
            proof {
                lemma_first_row_issue_prefix(*l, *e, fs, k + 1, l.values.len() as int);
            }
            return Err(DefinitionError::LookupFields { name: l.name.clone(), index: k });
        }
        k = k + 1;
    }
    if !same_names(&keys, &members) {
        return Err(DefinitionError::LookupCoverage { name: l.name.clone(), enum_name: e.enum_type.name.clone() });
    }
    Ok(())
}

/// Resolves a lookup definition named `name`: its keys must be an enumeration and its
/// output a record, and its rows must cover the enumeration exactly.
pub fn resolve_lookup_definition(name: &str, definition: LookupDefinition, definitions: &Vec<(String, Definition)>) -> (r: Result<
    LookupDefinition,
    DefinitionError,
>)
    ensures
        match spec_definition_name(definition.input@) {
            None => r matches Err(e) && e.issue() == reference_issue(definition.input@),
            Some(i) => match lookup(definitions@, i) {
                Some(Definition::Enum(d)) => match spec_definition_name(definition.output@) {
                    None => r matches Err(e) && e.issue() == reference_issue(definition.output@),
                    Some(o) => match lookup(definitions@, o) {
                        Some(Definition::Output(out)) => if out is Record {
                            match r {
                                Ok(l) => {
                                    &&& l.name@ == name@
                                    &&& l.input@ == definition.input@
                                    &&& l.output@ == definition.output@
                                    &&& l.values == definition.values
                                    &&& l.input_type matches Some(x) && enum_resolved(x, d, i)
                                    &&& l.output_type matches Some(x) && same_outputs(x, out)
                                    &&& lookup_issue(l) is None
                                },
                                Err(e) => exists|l: LookupDefinition| {
                                    &&& l.name@ == name@
                                    &&& l.values == definition.values
                                    &&& l.input_type matches Some(x) && enum_resolved(x, d, i)
                                    &&& l.output_type matches Some(x) && same_outputs(x, out)
                                    &&& lookup_issue(l) == Some(e.issue())
                                },
                            }
                        } else {
                            r matches Err(e) && e.issue() == DefinitionIssue::OutputDefinitionType(name@)
                        },
                        Some(_) => r matches Err(e) && e.issue() == DefinitionIssue::OutputDefinitionType(name@),
                        None => r matches Err(e) && e.issue() == DefinitionIssue::UnknownOutputType(name@, o),
                    },
                },
                Some(_) => r matches Err(e) && e.issue() == DefinitionIssue::InputDefinitionType(name@),
                None => r matches Err(e) && e.issue() == DefinitionIssue::UnknownInputType(name@, i),
            },
        },
{
    let input_name = referenced_name(definition.input.as_str())?;
    let input_type = match find_key(definitions, input_name.as_str()) {
        Some(k) => match &definitions[k].1 {
            Definition::Enum(d) => resolved_enum_definition(d, input_name.as_str()),
            _ => {
                return Err(DefinitionError::InputDefinitionType { name: name.to_owned() });
            },
        },
        None => {
            return Err(DefinitionError::UnknownInputType { name: name.to_owned(), input_name });
        },
    };
    let output_name = referenced_name(definition.output.as_str())?;
    let output_type = match find_key(definitions, output_name.as_str()) {
        Some(k) => match &definitions[k].1 {
            Definition::Output(o) => match o {
                Outputs::Record { .. } => copy_outputs(o),
                _ => {
                    return Err(DefinitionError::OutputDefinitionType { name: name.to_owned() });
                },
            },
            _ => {
                return Err(DefinitionError::OutputDefinitionType { name: name.to_owned() });
            },
        },
        None => {
            return Err(DefinitionError::UnknownOutputType { name: name.to_owned(), output_name });
        },
    };
    let resolved = LookupDefinition {
        name: name.to_owned(),
        input: definition.input,
        output: definition.output,
        values: definition.values,
        input_type: Some(input_type),
        output_type: Some(output_type),
    };
    match validate_lookup_values(&resolved) {
        Ok(()) => Ok(resolved),
        Err(e) => Err(e),
    }
}


pub open spec fn tree_input_names(inputs: Seq<TreeInput>) -> Seq<Seq<char>> {
    inputs.map_values(|i: TreeInput| i.spec_name())
}

/// What is wrong with input `k` of tree `name`: a repeated name, or an enumeration
/// reference that names no enumeration.
pub open spec fn tree_input_issue(defs: Seq<(String, Definition)>, name: Seq<char>, inputs: Seq<TreeInput>, k: int) -> Option<
    DefinitionIssue,
> {
    let input = inputs[k];
    if tree_input_names(inputs).take(k).contains(input.spec_name()) {
        Some(DefinitionIssue::Tree(name, "inputs"@, TreeIssue::DuplicateInput(input.spec_name())))
    } else {
        match input {
            TreeInput::Enum { name: n, reference, .. } => match spec_definition_name(reference@) {
                None => Some(reference_issue(reference@)),
                Some(t) => match lookup(defs, t) {
                    Some(Definition::Enum(_)) => None,
                    Some(_) => Some(DefinitionIssue::Tree(name, "inputs"@, TreeIssue::InputNotEnum(n@))),
                    None => Some(DefinitionIssue::Tree(name, "inputs"@, TreeIssue::UnknownInputEnum(n@, t))),
                },
            },
            _ => None,
        }
    }
}

pub open spec fn first_input_issue(defs: Seq<(String, Definition)>, name: Seq<char>, inputs: Seq<TreeInput>, n: int) -> Option<
    DefinitionIssue,
>
    decreases n,
{
    if n <= 0 {
        None
    } else {
        match first_input_issue(defs, name, inputs, n - 1) {
            Some(i) => Some(i),
            None => tree_input_issue(defs, name, inputs, n - 1),
        }
    }
}

/// What is wrong with the output reference of tree `name`.
pub open spec fn output_issue(defs: Seq<(String, Definition)>, name: Seq<char>, output: Seq<char>) -> Option<DefinitionIssue> {
    match spec_definition_name(output) {
        None => Some(reference_issue(output)),
        Some(o) => match lookup(defs, o) {
            Some(Definition::Output(_)) => None,
            Some(_) => Some(DefinitionIssue::Tree(name, "output"@, TreeIssue::OutputNotOutput)),
            None => Some(DefinitionIssue::Tree(name, "output"@, TreeIssue::UnknownOutputType(o))),
        },
    }
}

/// `resolved` holds the inputs of `declared`, each enumeration input with the
/// enumeration its reference names.
pub open spec fn tree_inputs_resolved(resolved: Seq<TreeInput>, declared: Seq<TreeInput>, defs: Seq<(String, Definition)>) -> bool {
    &&& resolved.len() == declared.len()
    &&& forall|k: int| 0 <= k < resolved.len() ==> match (#[trigger] resolved[k], declared[k]) {
        (TreeInput::Number { name: a }, TreeInput::Number { name: b }) => a@ == b@,
        (TreeInput::Enum { name: a, reference: x, definition: Some(rd) }, TreeInput::Enum { name: b, reference: y, .. }) => {
            &&& a@ == b@
            &&& x@ == y@
            &&& lookup(defs, spec_definition_name(y@)->0) matches Some(Definition::Enum(d)) && enum_resolved(
                rd,
                d,
                spec_definition_name(y@)->0,
            )
        },
        _ => false,
    }
}

/// A resolved tree as its declaration and the definitions give it.
pub open spec fn tree_resolution(t: TreeDefinition, name: Seq<char>, declared: TreeDefinition, defs: Seq<(String, Definition)>) -> bool {
    &&& t.name@ == name
    &&& t.output@ == declared.output@
    &&& t.root == declared.root
    &&& tree_inputs_resolved(t.inputs@, declared.inputs@, defs)
    &&& t.output_type matches Some(x) && lookup(defs, spec_definition_name(declared.output@)->0) matches Some(Definition::Output(o))
        && same_outputs(x, o)
}

proof fn lemma_first_input_issue_prefix(defs: Seq<(String, Definition)>, name: Seq<char>, inputs: Seq<TreeInput>, m: int, n: int)
    requires
        0 <= m <= n,
        first_input_issue(defs, name, inputs, m) is Some,
    ensures
        first_input_issue(defs, name, inputs, n) == first_input_issue(defs, name, inputs, m),
    decreases n - m,
{
    if m < n {
        lemma_first_input_issue_prefix(defs, name, inputs, m, n - 1);
    }
}

fn tree_definition_error(name: &str, path: &str, kind: TreeErrorKind) -> (r: DefinitionError)
    ensures
        r.issue() == DefinitionIssue::Tree(name@, path@, kind.issue()),
{
    DefinitionError::Tree(TreeError { name: name.to_owned(), path: path.to_owned(), kind })
}

/// Resolves a tree definition named `name`: input names are distinct, enumeration
/// inputs name enumerations, the output names an output definition, and the tree
/// passes its checks.
pub fn resolve_tree_definition(name: &str, definition: TreeDefinition, definitions: &Vec<(String, Definition)>) -> (r: Result<
    TreeDefinition,
    DefinitionError,
>)
    ensures
        match first_input_issue(definitions@, name@, definition.inputs@, definition.inputs.len() as int) {
            Some(i) => r matches Err(e) && e.issue() == i,
            None => match output_issue(definitions@, name@, definition.output@) {
                Some(i) => r matches Err(e) && e.issue() == i,
                None => match r {
                    Ok(t) => tree_resolution(t, name@, definition, definitions@) && node_issue(t, t.root, "root"@) is None,
                    Err(e) => exists|t: TreeDefinition|
                        tree_resolution(t, name@, definition, definitions@) && (node_issue(t, t.root, "root"@) matches Some(
                            (path, issue),
                        ) && e.issue() == DefinitionIssue::Tree(name@, path, issue)),
                },
            },
        },
{
    let ghost defs = definitions@;
    let ghost declared = definition.inputs@;
    let mut inputs: Vec<TreeInput> = Vec::new();
    let mut seen: Vec<String> = Vec::new();
    let mut k: usize = 0;
    while k < definition.inputs.len()
        invariant
            k <= definition.inputs.len(),
            declared == definition.inputs@,
            defs == definitions@,
            strings_view(seen@) == tree_input_names(declared).take(k as int),
            inputs.len() == k,
            first_input_issue(defs, name@, declared, k as int) is None,
            forall|j: int| 0 <= j < k ==> match (#[trigger] inputs@[j], declared[j]) {
                (TreeInput::Number { name: a }, TreeInput::Number { name: b }) => a@ == b@,
                (TreeInput::Enum { name: a, reference: x, definition: Some(rd) }, TreeInput::Enum { name: b, reference: y, .. }) => {
                    &&& a@ == b@
                    &&& x@ == y@
                    &&& lookup(defs, spec_definition_name(y@)->0) matches Some(Definition::Enum(d)) && enum_resolved(
                        rd,
                        d,
                        spec_definition_name(y@)->0,
                    )
                },
                _ => false,
            },
        decreases definition.inputs.len() - k,
    {
        let input = &definition.inputs[k];
        let input_name = input.name().to_owned();
        assert(tree_input_names(declared)[k as int] == input_name@);
        assert(tree_input_names(declared).take(k as int) =~= strings_view(seen@));
        if among(&seen, seen.len(), &input_name) {
            assert(strings_view(seen@).take(seen.len() as int) == strings_view(seen@));
            proof {
                lemma_first_input_issue_prefix(defs, name@, declared, k + 1, declared.len() as int);
            }
            return Err(tree_definition_error(name, "inputs", TreeErrorKind::DuplicateInput(input_name)));
        }
        assert(strings_view(seen@).take(seen.len() as int) == strings_view(seen@));
        let resolved = match input {
            TreeInput::Number { name: n } => TreeInput::Number { name: n.clone() },
            TreeInput::Enum { name: n, reference, .. } => {
                let t = match referenced_name(reference.as_str()) {
                    Ok(t) => t,
                    Err(e) => {
                        proof {
                            lemma_first_input_issue_prefix(defs, name@, declared, k + 1, declared.len() as int);
                        }
                        return Err(e);
                    },
                };
                match find_key(definitions, t.as_str()) {
                    Some(p) => match &definitions[p].1 {
                        Definition::Enum(d) => TreeInput::Enum {
                            name: n.clone(),
                            reference: reference.clone(),
                            definition: Some(resolved_enum_definition(d, t.as_str())),
                        },
                        _ => {
                            proof {
                                lemma_first_input_issue_prefix(defs, name@, declared, k + 1, declared.len() as int);
                            }
                            return Err(tree_definition_error(name, "inputs", TreeErrorKind::InputNotEnum(n.clone())));
                        },
                    },
                    None => {
                        proof {
                            lemma_first_input_issue_prefix(defs, name@, declared, k + 1, declared.len() as int);
                        }
                        return Err(
                            tree_definition_error(name, "inputs", TreeErrorKind::UnknownInputEnum { input: n.clone(), definition_name: t }),
                        );
                    },
                }
            },
        };
        inputs.push(resolved);
        let ghost s0 = strings_view(seen@);
        seen.push(input_name);
        assert(strings_view(seen@) =~= s0.push(tree_input_names(declared)[k as int]));
        assert(tree_input_names(declared).take(k + 1) =~= tree_input_names(declared).take(k as int).push(
            tree_input_names(declared)[k as int],
        ));
        k = k + 1;
    }
    let output_name = referenced_name(definition.output.as_str())?;
    let output_type = match find_key(definitions, output_name.as_str()) {
        Some(p) => match &definitions[p].1 {
            Definition::Output(o) => copy_outputs(o),
            _ => {
                return Err(tree_definition_error(name, "output", TreeErrorKind::OutputNotOutput));
            },
        },
        None => {
            return Err(tree_definition_error(name, "output", TreeErrorKind::UnknownOutputType(output_name)));
        },
    };
    let resolved = TreeDefinition {
        name: name.to_owned(),
        inputs,
        output: definition.output,
        root: definition.root,
        output_type: Some(output_type),
    };
    assert(tree_resolution(resolved, name@, definition, defs));
    assert(tree_types_resolved(resolved)) by {
        assert forall|j: int| 0 <= j < resolved.inputs.len() implies !((#[trigger] resolved.inputs@[j]) matches TreeInput::Enum {
            definition: None,
            ..
        }) by {
            assert(tree_inputs_resolved(resolved.inputs@, declared, defs));
        }
    }
    match validate_tree_definition(&resolved) {
        Ok(()) => Ok(resolved),
        Err(e) => Err(DefinitionError::Tree(e)),
    }
}



proof fn lemma_row_for_found(rows: Seq<LookupValue>, key: Seq<char>, j: int)
    requires
        0 <= j < rows.len(),
        rows[j].key@ == key,
    ensures
        exists|i: int| 0 <= i <= j && rows[i].key@ == key && !row_keys(rows).take(i).contains(key)
            && row_for(rows, key) == Some(rows[i]),
    decreases rows.len(),
{
    if rows[0].key@ == key {
        assert(row_keys(rows).take(0) =~= Seq::<Seq<char>>::empty());
        assert(rows[0].key@ == key && !row_keys(rows).take(0).contains(key) && row_for(rows, key) == Some(rows[0]));
    } else {
        let rest = rows.drop_first();
        assert(rest[j - 1] == rows[j]);
        lemma_row_for_found(rest, key, j - 1);
        let i = choose|i: int| 0 <= i <= j - 1 && rest[i].key@ == key && !row_keys(rest).take(i).contains(key)
            && row_for(rest, key) == Some(rest[i]);
        assert(rows[i + 1] == rest[i]);
        assert(row_keys(rows).take(i + 1) =~= seq![rows[0].key@] + row_keys(rest).take(i));
        assert(!row_keys(rows).take(i + 1).contains(key)) by {
            if row_keys(rows).take(i + 1).contains(key) {
                let m = choose|m: int| 0 <= m < i + 1 && #[trigger] row_keys(rows).take(i + 1)[m] == key;
                if m > 0 {
                    assert(row_keys(rest).take(i)[m - 1] == key);
                }
            }
        }
    }
}

proof fn lemma_cell_for_found(cells: Seq<(String, String)>, field: Seq<char>)
    requires
        argument_names(cells).contains(field),
    ensures
        cell_for(cells, field) is Some,
    decreases cells.len(),
{
    let m = choose|m: int| 0 <= m < argument_names(cells).len() && argument_names(cells)[m] == field;
    if cells[0].0@ != field {
        assert(m > 0);
        assert(argument_names(cells.drop_first())[m - 1] == field);
        lemma_cell_for_found(cells.drop_first(), field);
    }
}

proof fn lemma_no_row_issue(l: LookupDefinition, e: EnumDefinition, fields: Seq<Seq<char>>, n: int, k: int)
    requires
        first_row_issue(l, e, fields, n) is None,
        0 <= k < n,
    ensures
        row_issue(l, e, fields, k) is None,
    decreases n,
{
    if k < n - 1 {
        lemma_no_row_issue(l, e, fields, n - 1, k);
    }
}

/// A lookup without issues whose types are resolved covers every member of its
/// enumeration with a row that gives every field of its output record.
pub proof fn lemma_checked_lookup_complete(l: LookupDefinition)
    requires
        l.input_type is Some,
        l.output_type matches Some(Outputs::Record { .. }),
        lookup_issue(l) is None,
    ensures
        forall|m: int| 0 <= m < l.input_type->0.values.len() ==> {
            let member = (#[trigger] l.input_type->0.values@[m]).name@;
            &&& row_for(l.values@, member) is Some
            &&& forall|f: int| 0 <= f < l.output_type->0.spec_fields().len()
                ==> cell_for(row_for(l.values@, member)->0.value@, (#[trigger] l.output_type->0.spec_fields()[f]).name@) is Some
        },
{
    let e = l.input_type->0;
    let fields = field_names(l.output_type->0.spec_fields());
    assert forall|m: int| 0 <= m < e.values.len() implies {
        let member = (#[trigger] e.values@[m]).name@;
        &&& row_for(l.values@, member) is Some
        &&& forall|f: int| 0 <= f < l.output_type->0.spec_fields().len()
            ==> cell_for(row_for(l.values@, member)->0.value@, (#[trigger] l.output_type->0.spec_fields()[f]).name@) is Some
    } by {
        let member = e.values@[m].name@;
        assert(member_names(e.values@)[m] == member);
        assert(member_names(e.values@).to_set().contains(member));
        assert(row_keys(l.values@).to_set().contains(member));
        let j = choose|j: int| 0 <= j < row_keys(l.values@).len() && row_keys(l.values@)[j] == member;
        lemma_row_for_found(l.values@, member, j);
        let i = choose|i: int| 0 <= i <= j && l.values@[i].key@ == member && !row_keys(l.values@).take(i).contains(member)
            && row_for(l.values@, member) == Some(l.values@[i]);
        lemma_no_row_issue(l, e, fields, l.values.len() as int, i);
        let row = l.values@[i];
        assert(argument_names(row.value@).to_set() == fields.to_set());
        assert forall|f: int| 0 <= f < l.output_type->0.spec_fields().len()
            implies cell_for(row.value@, (#[trigger] l.output_type->0.spec_fields()[f]).name@) is Some by {
            let name = l.output_type->0.spec_fields()[f].name@;
            assert(fields[f] == name);
            assert(fields.to_set().contains(name));
            assert(argument_names(row.value@).to_set().contains(name));
            lemma_cell_for_found(row.value@, name);
        }
    }
}

/// Law: a tree definition that resolves is resolved throughout, so it can be compiled.
pub proof fn law_resolved_tree_compiles(t: TreeDefinition, name: Seq<char>, declared: TreeDefinition, defs: Seq<(String, Definition)>)
    requires
        tree_resolution(t, name, declared, defs),
        node_issue(t, t.root, "root"@) is None,
    ensures
        tree_resolved(t),
{
    assert forall|j: int| 0 <= j < t.inputs.len() implies !((#[trigger] t.inputs@[j]) matches TreeInput::Enum { definition: None, .. }) by {
        assert(tree_inputs_resolved(t.inputs@, declared.inputs@, defs));
    }
    law_checked_tree_compiles(t);
}

/// The message of a definition error.
pub open spec fn definition_message(i: DefinitionIssue) -> Seq<char> {
    match i {
        DefinitionIssue::MissingInputBinding(f, n) => "function "@ + f + " must bind a name when referencing type definition "@
            + ticked(n) + " as an input"@,
        DefinitionIssue::OutputAsInput(f, n) => "function "@ + f + " references output definition "@ + ticked(n) + " as an input"@,
        DefinitionIssue::NonOutputAsOutput(f, n) => "function "@ + f + " references non-output definition "@ + ticked(n)
            + " as an output"@,
        DefinitionIssue::ParameterAsOutput(f, n) => "function "@ + f + " references parameter definition "@ + ticked(n)
            + " as an output"@,
        DefinitionIssue::UnknownDefinition(f, n) => "function "@ + f + " references unknown definition "@ + ticked(n),
        DefinitionIssue::UnknownLookup(f, n) => "function "@ + f + " references unknown lookup definition "@ + ticked(n),
        DefinitionIssue::UnknownTree(f, n) => "function "@ + f + " references unknown tree definition "@ + ticked(n),
        DefinitionIssue::NonEnumInput(f, i, t) => "function "@ + f + " input "@ + i + " references non-enum definition "@
            + ticked(t) + " as its type"@,
        DefinitionIssue::UnknownInputEnum(f, i, t) => "function "@ + f + " input "@ + i + " references unknown enum definition "@
            + ticked(t),
        DefinitionIssue::InputDefinitionType(n) => "lookup "@ + ticked(n) + " input must reference an enum definition"@,
        DefinitionIssue::UnknownInputType(n, i) => "lookup "@ + ticked(n) + " references unknown input type "@ + ticked(i),
        DefinitionIssue::OutputDefinitionType(n) => "lookup "@ + ticked(n) + " output must reference a record definition"@,
        DefinitionIssue::UnknownOutputType(n, o) => "lookup "@ + ticked(n) + " references unknown output type "@ + ticked(o),
        DefinitionIssue::DuplicateLookupKey(n, k, x) => "lookup "@ + ticked(n) + " has duplicate key "@ + ticked(k) + " at value "@
            + decimal(x),
        DefinitionIssue::UnknownLookupMember(n, k, x) => "lookup "@ + ticked(n) + " has unknown enum member "@ + ticked(k)
            + " at value "@ + decimal(x),
        DefinitionIssue::LookupFields(n, x) => "lookup "@ + ticked(n) + " value "@ + decimal(x) + " keys must exactly match output fields"@,
        DefinitionIssue::LookupCoverage(n, e) => "lookup "@ + ticked(n) + " values must cover every member of enum "@ + ticked(e)
            + " exactly once"@,
        DefinitionIssue::ReferencePrefix(r) => "reference "@ + ticked(r) + " must start with `#/$defs/`"@,
        DefinitionIssue::ReferenceName(r) => "reference "@ + ticked(r) + " must name exactly one local definition"@,
        DefinitionIssue::DuplicateQuantityUnit => "duplicate entry in quantity units"@,
        DefinitionIssue::Tree(n, p, k) => "tree "@ + ticked(n) + " "@ + p + ": "@ + issue_message(k),
    }
}

fn append_ticked(r: &mut String, name: &str)
    ensures
        final(r)@ == old(r)@ + ticked(name@),
{
    r.append("`");
    r.append(name);
    r.append("`");
}

impl DefinitionError {
    /// The message of the error.
    pub fn message(&self) -> (r: String)
        ensures
            r@ == definition_message(self.issue()),
    {
        let mut r = String::new();
        match self {
            DefinitionError::MissingInputBinding { function, name } => {
                r.append("function ");
                r.append(function.as_str());
                r.append(" must bind a name when referencing type definition ");
                append_ticked(&mut r, name.as_str());
                r.append(" as an input");
            },
            DefinitionError::OutputAsInput { function, name } => {
                r.append("function ");
                r.append(function.as_str());
                r.append(" references output definition ");
                append_ticked(&mut r, name.as_str());
                r.append(" as an input");
            },
            DefinitionError::NonOutputAsOutput { function, name } => {
                r.append("function ");
                r.append(function.as_str());
                r.append(" references non-output definition ");
                append_ticked(&mut r, name.as_str());
                r.append(" as an output");
            },
            DefinitionError::ParameterAsOutput { function, name } => {
                r.append("function ");
                r.append(function.as_str());
                r.append(" references parameter definition ");
                append_ticked(&mut r, name.as_str());
                r.append(" as an output");
            },
            DefinitionError::UnknownDefinition { function, name } => {
                r.append("function ");
                r.append(function.as_str());
                r.append(" references unknown definition ");
                append_ticked(&mut r, name.as_str());
            },
            DefinitionError::UnknownLookup { function, name } => {
                r.append("function ");
                r.append(function.as_str());
                r.append(" references unknown lookup definition ");
                append_ticked(&mut r, name.as_str());
            },
            DefinitionError::UnknownTree { function, name } => {
                r.append("function ");
                r.append(function.as_str());
                r.append(" references unknown tree definition ");
                append_ticked(&mut r, name.as_str());
            },
            DefinitionError::NonEnumInput { function, input, definition_name } => {
                r.append("function ");
                r.append(function.as_str());
                r.append(" input ");
                r.append(input.as_str());
                r.append(" references non-enum definition ");
                append_ticked(&mut r, definition_name.as_str());
                r.append(" as its type");
            },
            DefinitionError::UnknownInputEnum { function, input, definition_name } => {
                r.append("function ");
                r.append(function.as_str());
                r.append(" input ");
                r.append(input.as_str());
                r.append(" references unknown enum definition ");
                append_ticked(&mut r, definition_name.as_str());
            },
            DefinitionError::InputDefinitionType { name } => {
                r.append("lookup ");
                append_ticked(&mut r, name.as_str());
                r.append(" input must reference an enum definition");
            },
            DefinitionError::UnknownInputType { name, input_name } => {
                r.append("lookup ");
                append_ticked(&mut r, name.as_str());
                r.append(" references unknown input type ");
                append_ticked(&mut r, input_name.as_str());
            },
            DefinitionError::OutputDefinitionType { name } => {
                r.append("lookup ");
                append_ticked(&mut r, name.as_str());
                r.append(" output must reference a record definition");
            },
            DefinitionError::UnknownOutputType { name, output_name } => {
                r.append("lookup ");
                append_ticked(&mut r, name.as_str());
                r.append(" references unknown output type ");
                append_ticked(&mut r, output_name.as_str());
            },
            DefinitionError::DuplicateLookupKey { name, key, index } => {
                r.append("lookup ");
                append_ticked(&mut r, name.as_str());
                r.append(" has duplicate key ");
                append_ticked(&mut r, key.as_str());
                r.append(" at value ");
                r.append(decimal_text(*index).as_str());
            },
            DefinitionError::UnknownLookupMember { name, key, index } => {
                r.append("lookup ");
                append_ticked(&mut r, name.as_str());
                r.append(" has unknown enum member ");
                append_ticked(&mut r, key.as_str());
                r.append(" at value ");
                r.append(decimal_text(*index).as_str());
            },
            DefinitionError::LookupFields { name, index } => {
                r.append("lookup ");
                append_ticked(&mut r, name.as_str());
                r.append(" value ");
                r.append(decimal_text(*index).as_str());
                r.append(" keys must exactly match output fields");
            },
            DefinitionError::LookupCoverage { name, enum_name } => {
                r.append("lookup ");
                append_ticked(&mut r, name.as_str());
                r.append(" values must cover every member of enum ");
                append_ticked(&mut r, enum_name.as_str());
                r.append(" exactly once");
            },
            DefinitionError::ReferencePrefix { reference } => {
                r.append("reference ");
                append_ticked(&mut r, reference.as_str());
                r.append(" must start with `#/$defs/`");
            },
            DefinitionError::ReferenceName { reference } => {
                r.append("reference ");
                append_ticked(&mut r, reference.as_str());
                r.append(" must name exactly one local definition");
            },
            DefinitionError::DuplicateQuantityUnit => {
                r.append("duplicate entry in quantity units");
            },
            DefinitionError::Tree(e) => {
                r.append(e.message().as_str());
            },
        }
        r
    }
}


pub open spec fn same_parameter(a: Parameter, b: Parameter) -> bool {
    &&& a.name@ == b.name@
    &&& a.unit@ == b.unit@
    &&& a.description@ == b.description@
    &&& match (a.domain, b.domain) {
        (Some(x), Some(y)) => x@ == y@,
        (None, None) => true,
        _ => false,
    }
}

fn copy_parameter(p: &Parameter) -> (r: Parameter)
    ensures
        same_parameter(r, *p),
{
    Parameter { name: p.name.clone(), unit: p.unit.clone(), domain: copy_optional(&p.domain), description: p.description.clone() }
}

/// The input a declared input resolves to, in function `function`.
pub open spec fn input_resolves(r: Input, declared: InputReference, defs: Seq<(String, Definition)>) -> bool {
    match declared {
        InputReference::Parameter(p) => r matches Input::Parameter(q) && same_parameter(q, p),
        InputReference::Type { name, description, reference } => {
            let t = spec_definition_name(reference@)->0;
            &&& r matches Input::Enum { name: n, description: x, definition: rd } && (n@ == name@ && (match (x, description) {
                (Some(a), Some(b)) => a@ == b@,
                (None, None) => true,
                _ => false,
            }) && (lookup(defs, t) matches Some(Definition::Enum(d)) && enum_resolved(rd, d, t)))
        },
        InputReference::Reference(reference) => r matches Input::Parameter(q) && (lookup(defs, spec_definition_name(reference@)->0)
            matches Some(Definition::Parameter(p)) && same_parameter(q, p)),
    }
}

/// What is wrong with a declared input of `function`.
pub open spec fn input_reference_issue(function: Seq<char>, declared: InputReference, defs: Seq<(String, Definition)>) -> Option<
    DefinitionIssue,
> {
    match declared {
        InputReference::Parameter(_) => None,
        InputReference::Type { name, reference, .. } => match spec_definition_name(reference@) {
            None => Some(reference_issue(reference@)),
            Some(t) => match lookup(defs, t) {
                Some(Definition::Enum(_)) => None,
                Some(_) => Some(DefinitionIssue::NonEnumInput(function, name@, t)),
                None => Some(DefinitionIssue::UnknownInputEnum(function, name@, t)),
            },
        },
        InputReference::Reference(reference) => match spec_definition_name(reference@) {
            None => Some(reference_issue(reference@)),
            Some(t) => match lookup(defs, t) {
                Some(Definition::Parameter(_)) => None,
                Some(Definition::Output(_)) => Some(DefinitionIssue::OutputAsInput(function, t)),
                Some(_) => Some(DefinitionIssue::MissingInputBinding(function, t)),
                None => Some(DefinitionIssue::UnknownDefinition(function, t)),
            },
        },
    }
}

pub open spec fn first_input_reference_issue(
    function: Seq<char>,
    declared: Seq<InputReference>,
    defs: Seq<(String, Definition)>,
    n: int,
) -> Option<DefinitionIssue>
    decreases n,
{
    if n <= 0 {
        None
    } else {
        match first_input_reference_issue(function, declared, defs, n - 1) {
            Some(i) => Some(i),
            None => input_reference_issue(function, declared[n - 1], defs),
        }
    }
}

/// What is wrong with the declared outputs of `function`.
pub open spec fn output_reference_issue(function: Seq<char>, declared: OutputReference, defs: Seq<(String, Definition)>) -> Option<
    DefinitionIssue,
> {
    match declared {
        OutputReference::Inline(_) => None,
        OutputReference::Reference(reference) => match spec_definition_name(reference@) {
            None => Some(reference_issue(reference@)),
            Some(t) => match lookup(defs, t) {
                Some(Definition::Output(_)) => None,
                Some(Definition::Parameter(_)) => Some(DefinitionIssue::ParameterAsOutput(function, t)),
                Some(_) => Some(DefinitionIssue::NonOutputAsOutput(function, t)),
                None => Some(DefinitionIssue::UnknownDefinition(function, t)),
            },
        },
    }
}

/// The outputs declared outputs resolve to.
pub open spec fn outputs_resolve(r: Outputs, declared: OutputReference, defs: Seq<(String, Definition)>) -> bool {
    match declared {
        OutputReference::Inline(o) => same_outputs(r, o),
        OutputReference::Reference(reference) => lookup(defs, spec_definition_name(reference@)->0) matches Some(
            Definition::Output(o),
        ) && same_outputs(r, o),
    }
}

proof fn lemma_first_input_reference_issue_prefix(
    function: Seq<char>,
    declared: Seq<InputReference>,
    defs: Seq<(String, Definition)>,
    m: int,
    n: int,
)
    requires
        0 <= m <= n,
        first_input_reference_issue(function, declared, defs, m) is Some,
    ensures
        first_input_reference_issue(function, declared, defs, n) == first_input_reference_issue(function, declared, defs, m),
    decreases n - m,
{
    if m < n {
        lemma_first_input_reference_issue_prefix(function, declared, defs, m, n - 1);
    }
}

/// Resolves one declared input of `function`.
pub fn resolve_input(function: &str, declared: &InputReference, definitions: &Vec<(String, Definition)>) -> (r: Result<
    Input,
    DefinitionError,
>)
    ensures
        match input_reference_issue(function@, *declared, definitions@) {
            Some(i) => r matches Err(e) && e.issue() == i,
            None => r matches Ok(x) && input_resolves(x, *declared, definitions@),
        },
{
    match declared {
        InputReference::Parameter(p) => Ok(Input::Parameter(copy_parameter(p))),
        InputReference::Type { name, description, reference } => resolve_input_type(
            name,
            description,
            reference.as_str(),
            definitions,
            function,
        ),
        InputReference::Reference(reference) => {
            let t = referenced_name(reference.as_str())?;
            match find_key(definitions, t.as_str()) {
                Some(k) => match &definitions[k].1 {
                    Definition::Parameter(p) => Ok(Input::Parameter(copy_parameter(p))),
                    Definition::Output(_) => Err(DefinitionError::OutputAsInput { function: function.to_owned(), name: t }),
                    _ => Err(DefinitionError::MissingInputBinding { function: function.to_owned(), name: t }),
                },
                None => Err(DefinitionError::UnknownDefinition { function: function.to_owned(), name: t }),
            }
        },
    }
}

/// Resolves the inputs and outputs that `function` declares: the first faulty input in
/// order, else the outputs.
pub fn resolve_signature(
    function: &str,
    inputs: &Vec<InputReference>,
    outputs: &OutputReference,
    definitions: &Vec<(String, Definition)>,
) -> (r: Result<(Vec<Input>, Outputs), DefinitionError>)
    ensures
        match first_input_reference_issue(function@, inputs@, definitions@, inputs.len() as int) {
            Some(i) => r matches Err(e) && e.issue() == i,
            None => match output_reference_issue(function@, *outputs, definitions@) {
                Some(i) => r matches Err(e) && e.issue() == i,
                None => r matches Ok((resolved, o)) && (resolved.len() == inputs.len() && (forall|k: int|
                    0 <= k < inputs.len() ==> input_resolves(#[trigger] resolved@[k], inputs@[k], definitions@))
                    && outputs_resolve(o, *outputs, definitions@)),
            },
        },
{
    let mut resolved: Vec<Input> = Vec::new();
    let mut k: usize = 0;
    while k < inputs.len()
        invariant
            k <= inputs.len(),
            resolved.len() == k,
            first_input_reference_issue(function@, inputs@, definitions@, k as int) is None,
            forall|j: int| 0 <= j < k ==> input_resolves(#[trigger] resolved@[j], inputs@[j], definitions@),
        decreases inputs.len() - k,
    {
        match resolve_input(function, &inputs[k], definitions) {
            Ok(input) => {
                resolved.push(input);
            },
            Err(e) => {
                proof {
                    lemma_first_input_reference_issue_prefix(function@, inputs@, definitions@, k + 1, inputs.len() as int);
                }
                return Err(e);
            },
        }
        k = k + 1;
    }
    let o = match outputs {
        OutputReference::Inline(o) => copy_outputs(o),
        OutputReference::Reference(reference) => {
            let t = referenced_name(reference.as_str())?;
            match find_key(definitions, t.as_str()) {
                Some(k) => match &definitions[k].1 {
                    Definition::Output(o) => copy_outputs(o),
                    Definition::Parameter(_) => {
                        return Err(DefinitionError::ParameterAsOutput { function: function.to_owned(), name: t });
                    },
                    _ => {
                        return Err(DefinitionError::NonOutputAsOutput { function: function.to_owned(), name: t });
                    },
                },
                None => {
                    return Err(DefinitionError::UnknownDefinition { function: function.to_owned(), name: t });
                },
            }
        },
    };
    Ok((resolved, o))
}

} // verus!
