//! Validation of the specification corpus: identifiers, duplicates, enumerations,
//! output shapes and the quantity registry.

use vstd::prelude::*;
use vstd::string::*;
use crate::model::{Entry, EnumDefinition, EnumValue, Function, Input, OutputField, Outputs, QuantityRegistry, Quantity, QuantityUnit, Unit, VerificationCase, ToleranceOverride};
use crate::render::markdown::{char_is_whitespace, is_whitespace};
use crate::strings::{chars_of, str_equal};

verus! {

/// What is wrong with a part of a function.
pub enum ValidationKind {
    ScalarRequired,
    RecordRequired,
    EmptyOutputs,
    UnknownOutputQuantity { output: String, quantity: String, unit: String },
    UnknownOutputUnit { output: String, unit: String },
    NonEquivalentUnit { output: String, reported: String, unit: String },
    UnregisteredOutputUnit { output: String, quantity: String, unit: String },
    UnknownOverrideOutput { name: String },
    MissingOverrideSource { name: String },
    DuplicateName { name: String },
    DuplicateCaseId { id: String },
    DuplicateEnumName { enum_name: String, member: String },
    DuplicateEnumValue { enum_name: String, member: String },
    EnumCapacity { enum_name: String },
}

pub enum KindView {
    ScalarRequired,
    RecordRequired,
    EmptyOutputs,
    UnknownOutputQuantity(Seq<char>, Seq<char>, Seq<char>),
    UnknownOutputUnit(Seq<char>, Seq<char>),
    NonEquivalentUnit(Seq<char>, Seq<char>, Seq<char>),
    UnregisteredOutputUnit(Seq<char>, Seq<char>, Seq<char>),
    UnknownOverrideOutput(Seq<char>),
    MissingOverrideSource(Seq<char>),
    DuplicateName(Seq<char>),
    DuplicateCaseId(Seq<char>),
    DuplicateEnumName(Seq<char>, Seq<char>),
    DuplicateEnumValue(Seq<char>, Seq<char>),
    EnumCapacity(Seq<char>),
}

impl ValidationKind {
    pub open spec fn kind_view(&self) -> KindView {
        match self {
            ValidationKind::ScalarRequired => KindView::ScalarRequired,
            ValidationKind::RecordRequired => KindView::RecordRequired,
            ValidationKind::EmptyOutputs => KindView::EmptyOutputs,
            ValidationKind::UnknownOutputQuantity { output, quantity, unit } => KindView::UnknownOutputQuantity(output@, quantity@, unit@),
            ValidationKind::UnknownOutputUnit { output, unit } => KindView::UnknownOutputUnit(output@, unit@),
            ValidationKind::NonEquivalentUnit { output, reported, unit } => KindView::NonEquivalentUnit(output@, reported@, unit@),
            ValidationKind::UnregisteredOutputUnit { output, quantity, unit } => KindView::UnregisteredOutputUnit(output@, quantity@, unit@),
            ValidationKind::UnknownOverrideOutput { name } => KindView::UnknownOverrideOutput(name@),
            ValidationKind::MissingOverrideSource { name } => KindView::MissingOverrideSource(name@),
            ValidationKind::DuplicateName { name } => KindView::DuplicateName(name@),
            ValidationKind::DuplicateCaseId { id } => KindView::DuplicateCaseId(id@),
            ValidationKind::DuplicateEnumName { enum_name, member } => KindView::DuplicateEnumName(enum_name@, member@),
            ValidationKind::DuplicateEnumValue { enum_name, member } => KindView::DuplicateEnumValue(enum_name@, member@),
            ValidationKind::EnumCapacity { enum_name } => KindView::EnumCapacity(enum_name@),
        }
    }

    pub fn unknown_output_quantity(field: &OutputField) -> (r: ValidationKind)
        ensures
            r.kind_view() == KindView::UnknownOutputQuantity(field.name@, field.quantity@, field.unit@),
    {
        ValidationKind::UnknownOutputQuantity { output: field.name.clone(), quantity: field.quantity.clone(), unit: field.unit.clone() }
    }

    pub fn unknown_output_unit(field: &OutputField) -> (r: ValidationKind)
        ensures
            r.kind_view() == KindView::UnknownOutputUnit(field.name@, field.unit@),
    {
        ValidationKind::UnknownOutputUnit { output: field.name.clone(), unit: field.unit.clone() }
    }

    pub fn non_equivalent_unit(field: &OutputField) -> (r: ValidationKind)
        ensures
            r.kind_view() == KindView::NonEquivalentUnit(field.name@, field.reported_unit@, field.unit@),
    {
        ValidationKind::NonEquivalentUnit { output: field.name.clone(), reported: field.reported_unit.clone(), unit: field.unit.clone() }
    }

    pub fn unregistered_output_unit(field: &OutputField) -> (r: ValidationKind)
        ensures
            r.kind_view() == KindView::UnregisteredOutputUnit(field.name@, field.quantity@, field.unit@),
    {
        ValidationKind::UnregisteredOutputUnit { output: field.name.clone(), quantity: field.quantity.clone(), unit: field.unit.clone() }
    }

    pub fn unknown_override_output(name: &str) -> (r: ValidationKind)
        ensures
            r.kind_view() == KindView::UnknownOverrideOutput(name@),
    {
        ValidationKind::UnknownOverrideOutput { name: name.to_owned() }
    }

    pub fn missing_override_source(name: &str) -> (r: ValidationKind)
        ensures
            r.kind_view() == KindView::MissingOverrideSource(name@),
    {
        ValidationKind::MissingOverrideSource { name: name.to_owned() }
    }

    pub fn duplicate_name(name: &str) -> (r: ValidationKind)
        ensures
            r.kind_view() == KindView::DuplicateName(name@),
    {
        ValidationKind::DuplicateName { name: name.to_owned() }
    }

    pub fn duplicate_case(id: &str) -> (r: ValidationKind)
        ensures
            r.kind_view() == KindView::DuplicateCaseId(id@),
    {
        ValidationKind::DuplicateCaseId { id: id.to_owned() }
    }

    pub fn duplicate_enum_name(enum_name: &str, member: &str) -> (r: ValidationKind)
        ensures
            r.kind_view() == KindView::DuplicateEnumName(enum_name@, member@),
    {
        ValidationKind::DuplicateEnumName { enum_name: enum_name.to_owned(), member: member.to_owned() }
    }

    pub fn duplicate_enum_value(enum_name: &str, member: &str) -> (r: ValidationKind)
        ensures
            r.kind_view() == KindView::DuplicateEnumValue(enum_name@, member@),
    {
        ValidationKind::DuplicateEnumValue { enum_name: enum_name.to_owned(), member: member.to_owned() }
    }

    pub fn enum_capacity(enum_name: &str) -> (r: ValidationKind)
        ensures
            r.kind_view() == KindView::EnumCapacity(enum_name@),
    {
        ValidationKind::EnumCapacity { enum_name: enum_name.to_owned() }
    }

    /// The error of this kind at `path` of `function` in `document`.
    pub fn in_function(self, document: &str, function: &str, path: &str) -> (r: ValidationError)
        ensures
            r.error_view() == ErrorView::Function(document@, path@, Some(function@), self.kind_view()),
    {
        ValidationError::Function {
            document: document.to_owned(),
            path: path.to_owned(),
            function: Some(function.to_owned()),
            kind: self,
        }
    }
}

/// A problem of the specification corpus.
pub enum ValidationError {
    InvalidUnitIdentifier { id: String },
    InvalidUnitNotation { id: String },
    InvalidQuantityIdentifier { id: String },
    EmptyQuantityDescription { id: String },
    EmptyQuantityUnits { id: String },
    AmbiguousNotation { id: String, notation: String, previous: String, unit_id: String },
    UnknownQuantityUnit { id: String, unit: String },
    EmptyToleranceRationale { id: String, unit: String },
    AbsoluteTolerance { path: String, quantity: String, unit: String },
    RelativeTolerance { path: String, quantity: String, unit: String },
    DuplicateValue { document: String, path: String, key: String, previous: String },
    Function { document: String, path: String, function: Option<String>, kind: ValidationKind },
}

pub enum ErrorView {
    InvalidUnitIdentifier(Seq<char>),
    InvalidUnitNotation(Seq<char>),
    InvalidQuantityIdentifier(Seq<char>),
    EmptyQuantityDescription(Seq<char>),
    EmptyQuantityUnits(Seq<char>),
    AmbiguousNotation(Seq<char>, Seq<char>, Seq<char>, Seq<char>),
    UnknownQuantityUnit(Seq<char>, Seq<char>),
    EmptyToleranceRationale(Seq<char>, Seq<char>),
    AbsoluteTolerance(Seq<char>, Seq<char>, Seq<char>),
    RelativeTolerance(Seq<char>, Seq<char>, Seq<char>),
    DuplicateValue(Seq<char>, Seq<char>, Seq<char>, Seq<char>),
    Function(Seq<char>, Seq<char>, Option<Seq<char>>, KindView),
}

impl ValidationError {
    pub open spec fn error_view(&self) -> ErrorView {
        match self {
            ValidationError::InvalidUnitIdentifier { id } => ErrorView::InvalidUnitIdentifier(id@),
            ValidationError::InvalidUnitNotation { id } => ErrorView::InvalidUnitNotation(id@),
            ValidationError::InvalidQuantityIdentifier { id } => ErrorView::InvalidQuantityIdentifier(id@),
            ValidationError::EmptyQuantityDescription { id } => ErrorView::EmptyQuantityDescription(id@),
            ValidationError::EmptyQuantityUnits { id } => ErrorView::EmptyQuantityUnits(id@),
            ValidationError::AmbiguousNotation { id, notation, previous, unit_id } => ErrorView::AmbiguousNotation(
                id@,
                notation@,
                previous@,
                unit_id@,
            ),
            ValidationError::UnknownQuantityUnit { id, unit } => ErrorView::UnknownQuantityUnit(id@, unit@),
            ValidationError::EmptyToleranceRationale { id, unit } => ErrorView::EmptyToleranceRationale(id@, unit@),
            ValidationError::AbsoluteTolerance { path, quantity, unit } => ErrorView::AbsoluteTolerance(path@, quantity@, unit@),
            ValidationError::RelativeTolerance { path, quantity, unit } => ErrorView::RelativeTolerance(path@, quantity@, unit@),
            ValidationError::DuplicateValue { document, path, key, previous } => ErrorView::DuplicateValue(
                document@,
                path@,
                key@,
                previous@,
            ),
            ValidationError::Function { document, path, function, kind } => ErrorView::Function(
                document@,
                path@,
                match function {
                    Some(f) => Some(f@),
                    None => None,
                },
                kind.kind_view(),
            ),
        }
    }
}

pub open spec fn errors_view(errors: Seq<ValidationError>) -> Seq<ErrorView> {
    errors.map_values(|e: ValidationError| e.error_view())
}

/// A quantity or unit identifier: a lowercase ASCII letter, then lowercase letters,
/// digits and underscores.
pub open spec fn is_identifier(id: Seq<char>) -> bool {
    id.len() > 0 && forall|k: int| 0 <= k < id.len() ==> {
        let c = #[trigger] id[k];
        ('a' <= c && c <= 'z') || (k > 0 && (('0' <= c && c <= '9') || c == '_'))
    }
}

pub fn valid_identifier(id: &str) -> (r: bool)
    ensures
        r == is_identifier(id@),
{
    let cs = chars_of(id);
    if cs.len() == 0 {
        return false;
    }
    let mut k: usize = 0;
    while k < cs.len()
        invariant
            k <= cs.len(),
            cs@ == id@,
            forall|j: int| 0 <= j < k ==> {
                let c = #[trigger] cs@[j];
                ('a' <= c && c <= 'z') || (j > 0 && (('0' <= c && c <= '9') || c == '_'))
            },
        decreases cs.len() - k,
    {
        let c = cs[k];
        if !(('a' <= c && c <= 'z') || (k > 0 && (('0' <= c && c <= '9') || c == '_'))) {
            return false;
        }
        k = k + 1;
    }
    true
}


/// Whether a text is empty after trimming whitespace.
pub open spec fn is_blank(s: Seq<char>) -> bool {
    forall|k: int| 0 <= k < s.len() ==> is_whitespace(#[trigger] s[k])
}

pub fn blank(s: &str) -> (r: bool)
    ensures
        r == is_blank(s@),
{
    let cs = chars_of(s);
    let mut k: usize = 0;
    while k < cs.len()
        invariant
            k <= cs.len(),
            cs@ == s@,
            forall|j: int| 0 <= j < k ==> is_whitespace(#[trigger] cs@[j]),
        decreases cs.len() - k,
    {
        if !char_is_whitespace(cs[k]) {
            return false;
        }
        k = k + 1;
    }
    true
}

/// The names that repeat an earlier name, in order.
pub open spec fn repeated_names(names: Seq<Seq<char>>) -> Seq<Seq<char>>
    decreases names.len(),
{
    if names.len() == 0 {
        seq![]
    } else if names.drop_last().contains(names.last()) {
        repeated_names(names.drop_last()).push(names.last())
    } else {
        repeated_names(names.drop_last())
    }
}

/// Errors of the given kinds at `path` of a function.
pub open spec fn function_errors(document: Seq<char>, function: Seq<char>, path: Seq<char>, kinds: Seq<KindView>) -> Seq<ErrorView> {
    kinds.map_values(|k: KindView| ErrorView::Function(document, path, Some(function), k))
}

fn contains_text(names: &Vec<String>, k: usize, x: &str) -> (r: bool)
    requires
        k <= names.len(),
    ensures
        r == names@.take(k as int).map_values(|n: String| n@).contains(x@),
{
    let ghost v = names@.take(k as int).map_values(|n: String| n@);
    let mut j: usize = 0;
    while j < k
        invariant
            j <= k <= names.len(),
            v == names@.take(k as int).map_values(|n: String| n@),
            forall|i: int| 0 <= i < j ==> v[i] != x@,
        decreases k - j,
    {
        if str_equal(names[j].as_str(), x) {
            assert(v[j as int] == x@);
            return true;
        }
        j = j + 1;
    }
    false
}

/// Appends one `duplicate name` error for each name that repeats an earlier one.
fn push_duplicate_names(
    names: &Vec<String>,
    document: &str,
    function: &str,
    path: &str,
    errors: &mut Vec<ValidationError>,
)
    ensures
        errors_view(final(errors)@) == errors_view(old(errors)@) + function_errors(
            document@,
            function@,
            path@,
            repeated_names(names@.map_values(|n: String| n@)).map_values(|n: Seq<char>| KindView::DuplicateName(n)),
        ),
{
    let ghost all = names@.map_values(|n: String| n@);
    let ghost start = errors_view(errors@);
    let mut k: usize = 0;
    assert(all.take(0) =~= Seq::<Seq<char>>::empty());
    while k < names.len()
        invariant
            k <= names.len(),
            all == names@.map_values(|n: String| n@),
            errors_view(errors@) == start + function_errors(
                document@,
                function@,
                path@,
                repeated_names(all.take(k as int)).map_values(|n: Seq<char>| KindView::DuplicateName(n)),
            ),
        decreases names.len() - k,
    {
        let ghost before = errors_view(errors@);
        assert(all.take(k + 1).drop_last() == all.take(k as int));
        assert(all.take(k + 1).last() == names@[k as int]@);
        assert(names@.take(k as int).map_values(|n: String| n@) == all.take(k as int));
        if contains_text(names, k, names[k].as_str()) {
            let e = ValidationKind::duplicate_name(names[k].as_str()).in_function(document, function, path);
            errors.push(e);
            assert(errors_view(errors@) =~= before.push(e.error_view()));
        }
        k = k + 1;
    }
    assert(all.take(names.len() as int) == all);
}

pub open spec fn input_names(inputs: Seq<Input>) -> Seq<Seq<char>> {
    inputs.map_values(|i: Input| i.spec_name())
}

/// Each input whose name an earlier input already has.
pub fn duplicate_input_names(document: &str, function: &Function, errors: &mut Vec<ValidationError>)
    ensures
        errors_view(final(errors)@) == errors_view(old(errors)@) + function_errors(
            document@,
            function.name@,
            "inputs"@,
            repeated_names(input_names(function.inputs@)).map_values(|n: Seq<char>| KindView::DuplicateName(n)),
        ),
{
    let mut names: Vec<String> = Vec::new();
    let mut k: usize = 0;
    while k < function.inputs.len()
        invariant
            k <= function.inputs.len(),
            names@.map_values(|n: String| n@) == input_names(function.inputs@).take(k as int),
        decreases function.inputs.len() - k,
    {
        let ghost prev = names@.map_values(|n: String| n@);
        names.push(function.inputs[k].name().to_owned());
        assert(names@.map_values(|n: String| n@) =~= prev.push(function.inputs@[k as int].spec_name()));
        assert(input_names(function.inputs@).take(k + 1) =~= input_names(function.inputs@).take(k as int).push(function.inputs@[k as int].spec_name()));
        k = k + 1;
    }
    assert(input_names(function.inputs@).take(function.inputs.len() as int) == input_names(function.inputs@));
    push_duplicate_names(&names, document, function.name.as_str(), "inputs", errors);
}

pub open spec fn field_names(fields: Seq<OutputField>) -> Seq<Seq<char>> {
    fields.map_values(|f: OutputField| f.name@)
}

/// Each output field whose name an earlier field already has.
pub fn duplicate_names(document: &str, function: &Function, values: &[OutputField], field: &str, errors: &mut Vec<ValidationError>)
    ensures
        errors_view(final(errors)@) == errors_view(old(errors)@) + function_errors(
            document@,
            function.name@,
            field@,
            repeated_names(field_names(values@)).map_values(|n: Seq<char>| KindView::DuplicateName(n)),
        ),
{
    let mut names: Vec<String> = Vec::new();
    let mut k: usize = 0;
    while k < values.len()
        invariant
            k <= values.len(),
            names@.map_values(|n: String| n@) == field_names(values@).take(k as int),
        decreases values.len() - k,
    {
        let ghost prev = names@.map_values(|n: String| n@);
        names.push(values[k].name.clone());
        assert(names@.map_values(|n: String| n@) =~= prev.push(values@[k as int].name@));
        assert(field_names(values@).take(k + 1) =~= field_names(values@).take(k as int).push(values@[k as int].name@));
        k = k + 1;
    }
    assert(field_names(values@).take(values.len() as int) == field_names(values@));
    push_duplicate_names(&names, document, function.name.as_str(), field, errors);
}

pub open spec fn case_ids(cases: Seq<VerificationCase>) -> Seq<Seq<char>> {
    cases.map_values(|c: VerificationCase| c.id@)
}

/// Each verification case whose identifier an earlier case already has.
pub fn duplicate_verification_case_ids(document: &str, function: &Function, errors: &mut Vec<ValidationError>)
    ensures
        errors_view(final(errors)@) == errors_view(old(errors)@) + function_errors(
            document@,
            function.name@,
            "verification_cases"@,
            repeated_names(case_ids(function.verification_cases@)).map_values(|n: Seq<char>| KindView::DuplicateCaseId(n)),
        ),
{
    let ghost all = case_ids(function.verification_cases@);
    let ghost start = errors_view(errors@);
    let mut ids: Vec<String> = Vec::new();
    let mut k: usize = 0;
    assert(all.take(0) =~= Seq::<Seq<char>>::empty());
    while k < function.verification_cases.len()
        invariant
            k <= function.verification_cases.len(),
            all == case_ids(function.verification_cases@),
            ids@.map_values(|n: String| n@) == all.take(k as int),
            ids.len() == k,
            errors_view(errors@) == start + function_errors(
                document@,
                function.name@,
                "verification_cases"@,
                repeated_names(all.take(k as int)).map_values(|n: Seq<char>| KindView::DuplicateCaseId(n)),
            ),
        decreases function.verification_cases.len() - k,
    {
        let id = &function.verification_cases[k].id;
        let ghost before = errors_view(errors@);
        assert(all.take(k + 1).drop_last() == all.take(k as int));
        assert(all.take(k + 1).last() == id@);
        assert(ids@.take(k as int) == ids@);
        if contains_text(&ids, k, id.as_str()) {
            let e = ValidationKind::duplicate_case(id.as_str()).in_function(document, function.name.as_str(), "verification_cases");
            errors.push(e);
            assert(errors_view(errors@) =~= before.push(e.error_view()));
        }
        let ghost prev = ids@.map_values(|n: String| n@);
        ids.push(id.clone());
        assert(ids@.map_values(|n: String| n@) =~= prev.push(id@));
        k = k + 1;
    }
    assert(all.take(function.verification_cases.len() as int) == all);
}

/// What the outputs must look like: one field and no record name, or a named record
/// of several fields.
pub open spec fn output_shape_errors(fields: nat, named: bool) -> Seq<KindView> {
    if (fields == 1 && !named) || (fields >= 2 && named) {
        seq![]
    } else if fields == 1 {
        seq![KindView::ScalarRequired]
    } else if !named {
        seq![KindView::RecordRequired]
    } else {
        seq![KindView::EmptyOutputs]
    }
}

/// Law: a function's outputs have no shape error exactly when they are one field
/// without a record name, or a named record of at least two fields; otherwise exactly
/// one error is reported.
pub proof fn law_output_shapes(o: Outputs)
    ensures
        output_shape_errors(o.spec_fields().len(), o is Record).len() == 0 <==> (o is Scalar || (o matches Outputs::Record {
            fields,
            ..
        } && fields.len() >= 2)),
        output_shape_errors(o.spec_fields().len(), o is Record).len() <= 1,
{
}

/// Checks the shape of a function's outputs.
pub fn validate_output_shape(document: &str, function: &Function, errors: &mut Vec<ValidationError>)
    ensures
        errors_view(final(errors)@) == errors_view(old(errors)@) + function_errors(
            document@,
            function.name@,
            "outputs"@,
            output_shape_errors(function.outputs.spec_fields().len(), function.outputs is Record),
        ),
{
    let count = function.outputs.fields().len();
    let named = function.result_class().is_some();
    let ghost before = errors_view(errors@);
    let kind = if (count == 1 && !named) || (count >= 2 && named) {
        return;
    } else if count == 1 {
        ValidationKind::ScalarRequired
    } else if !named {
        ValidationKind::RecordRequired
    } else {
        ValidationKind::EmptyOutputs
    };
    let e = kind.in_function(document, function.name.as_str(), "outputs");
    errors.push(e);
    assert(errors_view(errors@) =~= before.push(e.error_view()));
}


pub open spec fn member_names(members: Seq<EnumValue>) -> Seq<Seq<char>> {
    members.map_values(|m: EnumValue| m.name@)
}

pub open spec fn member_values(members: Seq<EnumValue>) -> Seq<Seq<char>> {
    members.map_values(|m: EnumValue| m.value@)
}

/// For each member in order: a repeated name, then a repeated canonical value.
pub open spec fn member_errors(enum_name: Seq<char>, members: Seq<EnumValue>) -> Seq<KindView>
    decreases members.len(),
{
    if members.len() == 0 {
        seq![]
    } else {
        let prev = members.drop_last();
        let m = members.last();
        member_errors(enum_name, prev)
            + (if member_names(prev).contains(m.name@) { seq![KindView::DuplicateEnumName(enum_name, m.name@)] } else { seq![] })
            + (if member_values(prev).contains(m.value@) { seq![KindView::DuplicateEnumValue(enum_name, m.value@)] } else { seq![] })
    }
}

/// The errors of one enumeration: its members, then its size against the `u32` ordinals.
pub open spec fn enum_errors(d: EnumDefinition) -> Seq<KindView> {
    member_errors(d.enum_type.name@, d.values@) + (if d.values.len() > u32::MAX { seq![KindView::EnumCapacity(d.enum_type.name@)] } else { seq![] })
}

/// The identity of an enumeration input.
pub open spec fn enum_identity(i: Input) -> Option<(Seq<char>, Seq<char>, Option<Seq<char>>)> {
    match i {
        Input::Enum { definition, .. } => Some(definition.enum_type.identity_view()),
        _ => None,
    }
}

/// Whether one of the inputs is an enumeration with this identity.
pub open spec fn has_enum(inputs: Seq<Input>, id: (Seq<char>, Seq<char>, Option<Seq<char>>)) -> bool {
    exists|j: int| 0 <= j < inputs.len() && enum_identity(#[trigger] inputs[j]) == Some(id)
}

/// Each enumeration of the inputs is checked once, at its first input.
pub open spec fn inputs_enum_errors(inputs: Seq<Input>) -> Seq<KindView>
    decreases inputs.len(),
{
    if inputs.len() == 0 {
        seq![]
    } else {
        let prev = inputs.drop_last();
        inputs_enum_errors(prev) + match inputs.last() {
            Input::Enum { definition, .. } => if has_enum(prev, definition.enum_type.identity_view()) {
                seq![]
            } else {
                enum_errors(definition)
            },
            _ => seq![],
        }
    }
}

fn same_identity(a: &crate::model::EnumType, b: &crate::model::EnumType) -> (r: bool)
    ensures
        r == (a.identity_view() == b.identity_view()),
{
    let same_module = match (&a.shared_module, &b.shared_module) {
        (Some(m), Some(n)) => str_equal(m.as_str(), n.as_str()),
        (None, None) => true,
        _ => false,
    };
    str_equal(a.document.as_str(), b.document.as_str()) && str_equal(a.name.as_str(), b.name.as_str()) && same_module
}

fn enum_seen(inputs: &Vec<Input>, k: usize, d: &EnumDefinition) -> (r: bool)
    requires
        k <= inputs.len(),
    ensures
        r == has_enum(inputs@.take(k as int), d.enum_type.identity_view()),
{
    let ghost prefix = inputs@.take(k as int);
    let mut j: usize = 0;
    while j < k
        invariant
            j <= k <= inputs.len(),
            prefix == inputs@.take(k as int),
            forall|i: int| 0 <= i < j ==> enum_identity(#[trigger] prefix[i]) != Some(d.enum_type.identity_view()),
        decreases k - j,
    {
        assert(prefix[j as int] == inputs@[j as int]);
        match &inputs[j] {
            Input::Enum { definition, .. } => {
                if same_identity(&definition.enum_type, &d.enum_type) {
                    return true;
                }
            },
            _ => {},
        }
        j = j + 1;
    }
    false
}

fn push_enum_errors(document: &str, function: &str, d: &EnumDefinition, errors: &mut Vec<ValidationError>)
    ensures
        errors_view(final(errors)@) == errors_view(old(errors)@) + function_errors(document@, function@, "$defs"@, enum_errors(*d)),
{
    let ghost start = errors_view(errors@);
    let ghost name = d.enum_type.name@;
    let mut names: Vec<String> = Vec::new();
    let mut values: Vec<String> = Vec::new();
    let mut k: usize = 0;
    assert(d.values@.take(0) =~= Seq::<EnumValue>::empty());
    while k < d.values.len()
        invariant
            k <= d.values.len(),
            name == d.enum_type.name@,
            names.len() == k,
            values.len() == k,
            names@.map_values(|n: String| n@) == member_names(d.values@.take(k as int)),
            values@.map_values(|n: String| n@) == member_values(d.values@.take(k as int)),
            errors_view(errors@) == start + function_errors(document@, function@, "$defs"@, member_errors(name, d.values@.take(k as int))),
        decreases d.values.len() - k,
    {
        let member = &d.values[k];
        let ghost before = errors_view(errors@);
        let ghost prefix = d.values@.take(k as int);
        assert(d.values@.take(k + 1).drop_last() == prefix);
        assert(d.values@.take(k + 1).last() == *member);
        assert(names@.take(k as int) == names@);
        assert(values@.take(k as int) == values@);
        let name_seen = contains_text(&names, k, member.name.as_str());
        let value_seen = contains_text(&values, k, member.value.as_str());
        let ghost extra = (if name_seen { seq![KindView::DuplicateEnumName(name, member.name@)] } else { seq![] })
            + (if value_seen { seq![KindView::DuplicateEnumValue(name, member.value@)] } else { seq![] });
        if name_seen {
            let e = ValidationKind::duplicate_enum_name(d.enum_type.name.as_str(), member.name.as_str()).in_function(document, function, "$defs");
            errors.push(e);
        }
        if value_seen {
            let e = ValidationKind::duplicate_enum_value(d.enum_type.name.as_str(), member.value.as_str()).in_function(document, function, "$defs");
            errors.push(e);
        }
        assert(errors_view(errors@) =~= before + function_errors(document@, function@, "$defs"@, extra));
        assert(function_errors(document@, function@, "$defs"@, member_errors(name, d.values@.take(k + 1)))
            =~= function_errors(document@, function@, "$defs"@, member_errors(name, prefix)) + function_errors(document@, function@, "$defs"@, extra));
        let ghost pn = names@.map_values(|n: String| n@);
        let ghost pv = values@.map_values(|n: String| n@);
        names.push(member.name.clone());
        values.push(member.value.clone());
        assert(names@.map_values(|n: String| n@) =~= pn.push(member.name@));
        assert(values@.map_values(|n: String| n@) =~= pv.push(member.value@));
        assert(member_names(d.values@.take(k + 1)) =~= member_names(prefix).push(member.name@));
        assert(member_values(d.values@.take(k + 1)) =~= member_values(prefix).push(member.value@));
        k = k + 1;
    }
    assert(d.values@.take(d.values.len() as int) == d.values@);
    let ghost before = errors_view(errors@);
    if d.values.len() > 4294967295usize {
        let e = ValidationKind::enum_capacity(d.enum_type.name.as_str()).in_function(document, function, "$defs");
        errors.push(e);
        assert(errors_view(errors@) =~= before.push(e.error_view()));
    }
    assert(function_errors(document@, function@, "$defs"@, enum_errors(*d)) =~= function_errors(document@, function@, "$defs"@, member_errors(name, d.values@))
        + function_errors(document@, function@, "$defs"@, (if d.values.len() > u32::MAX { seq![KindView::EnumCapacity(name)] } else { seq![] })));
}

/// Checks each enumeration of the inputs once: repeated member names and values, and
/// the size of the enumeration.
pub fn validate_enums(document: &str, function: &Function, errors: &mut Vec<ValidationError>)
    ensures
        errors_view(final(errors)@) == errors_view(old(errors)@) + function_errors(
            document@,
            function.name@,
            "$defs"@,
            inputs_enum_errors(function.inputs@),
        ),
{
    let ghost start = errors_view(errors@);
    let mut k: usize = 0;
    assert(function.inputs@.take(0) =~= Seq::<Input>::empty());
    while k < function.inputs.len()
        invariant
            k <= function.inputs.len(),
            errors_view(errors@) == start + function_errors(document@, function.name@, "$defs"@, inputs_enum_errors(function.inputs@.take(k as int))),
        decreases function.inputs.len() - k,
    {
        let ghost before = errors_view(errors@);
        let ghost prefix = function.inputs@.take(k as int);
        assert(function.inputs@.take(k + 1).drop_last() == prefix);
        assert(function.inputs@.take(k + 1).last() == function.inputs@[k as int]);
        match &function.inputs[k] {
            Input::Enum { definition, .. } => {
                if !enum_seen(&function.inputs, k, definition) {
                    push_enum_errors(document, function.name.as_str(), definition, errors);
                }
            },
            _ => {},
        }
        assert(function_errors(document@, function.name@, "$defs"@, inputs_enum_errors(function.inputs@.take(k + 1)))
            =~= function_errors(document@, function.name@, "$defs"@, inputs_enum_errors(prefix))
            + function_errors(document@, function.name@, "$defs"@, match function.inputs@[k as int] {
                Input::Enum { definition, .. } => if has_enum(prefix, definition.enum_type.identity_view()) {
                    seq![]
                } else {
                    enum_errors(definition)
                },
                _ => seq![],
            }));
        k = k + 1;
    }
    assert(function.inputs@.take(function.inputs.len() as int) == function.inputs@);
}


/// The value stored under `key`: the first entry with that key.
pub open spec fn lookup<T>(entries: Seq<(String, T)>, key: Seq<char>) -> Option<T>
    decreases entries.len(),
{
    if entries.len() == 0 {
        None
    } else if entries[0].0@ == key {
        Some(entries[0].1)
    } else {
        lookup(entries.drop_first(), key)
    }
}

/// The position of the first entry with `key`.
pub fn find_key<T>(entries: &Vec<(String, T)>, key: &str) -> (r: Option<usize>)
    ensures
        r matches Some(k) ==> k < entries.len() && lookup(entries@, key@) == Some(entries@[k as int].1),
        r is None ==> lookup(entries@, key@) is None,
{
    let mut k: usize = 0;
    assert(entries@.skip(0) == entries@);
    while k < entries.len()
        invariant
            k <= entries.len(),
            lookup(entries@, key@) == lookup(entries@.skip(k as int), key@),
        decreases entries.len() - k,
    {
        assert(entries@.skip(k as int)[0] == entries@[k as int]);
        if str_equal(entries[k].0.as_str(), key) {
            return Some(k);
        }
        assert(entries@.skip(k as int).drop_first() == entries@.skip(k + 1));
        k = k + 1;
    }
    None
}

pub open spec fn texts_of(v: Seq<String>) -> Seq<Seq<char>> {
    v.map_values(|x: String| x@)
}

/// The errors of one output against the registry.
pub open spec fn output_quantity_errors(f: OutputField, registry: QuantityRegistry) -> Seq<KindView> {
    match lookup(registry.quantities@, f.quantity@) {
        None => seq![KindView::UnknownOutputQuantity(f.name@, f.quantity@, f.unit@)],
        Some(q) => (match lookup(registry.units@, f.unit@) {
            None => seq![KindView::UnknownOutputUnit(f.name@, f.unit@)],
            Some(u) => if f.reported_unit@ != u.preferred_notation@ && !texts_of(u.aliases@).contains(f.reported_unit@) {
                seq![KindView::NonEquivalentUnit(f.name@, f.reported_unit@, f.unit@)]
            } else {
                seq![]
            },
        }) + (if lookup(q.units@, f.unit@) is None {
            seq![KindView::UnregisteredOutputUnit(f.name@, f.quantity@, f.unit@)]
        } else {
            seq![]
        }),
    }
}

pub open spec fn outputs_quantity_errors(fields: Seq<OutputField>, registry: QuantityRegistry) -> Seq<KindView>
    decreases fields.len(),
{
    if fields.len() == 0 {
        seq![]
    } else {
        outputs_quantity_errors(fields.drop_last(), registry) + output_quantity_errors(fields.last(), registry)
    }
}

fn contains_alias(aliases: &Vec<String>, x: &String) -> (r: bool)
    ensures
        r == texts_of(aliases@).contains(x@),
{
    let mut k: usize = 0;
    while k < aliases.len()
        invariant
            k <= aliases.len(),
            forall|j: int| 0 <= j < k ==> texts_of(aliases@)[j] != x@,
        decreases aliases.len() - k,
    {
        if aliases[k] == *x {
            assert(texts_of(aliases@)[k as int] == x@);
            return true;
        }
        k = k + 1;
    }
    false
}

/// Checks that each output's quantity and unit are registered and that its reported
/// unit is a notation of that unit.
pub fn validate_output_quantities(document: &str, function: &Function, registry: &QuantityRegistry, errors: &mut Vec<ValidationError>)
    ensures
        errors_view(final(errors)@) == errors_view(old(errors)@) + function_errors(
            document@,
            function.name@,
            "outputs"@,
            outputs_quantity_errors(function.outputs.spec_fields(), *registry),
        ),
{
    let fields = function.outputs.fields();
    let ghost start = errors_view(errors@);
    let mut k: usize = 0;
    assert(fields@.take(0) =~= Seq::<OutputField>::empty());
    while k < fields.len()
        invariant
            k <= fields.len(),
            fields@ == function.outputs.spec_fields(),
            errors_view(errors@) == start + function_errors(document@, function.name@, "outputs"@, outputs_quantity_errors(fields@.take(k as int), *registry)),
        decreases fields.len() - k,
    {
        let field = &fields[k];
        let ghost before = errors_view(errors@);
        assert(fields@.take(k + 1).drop_last() == fields@.take(k as int));
        assert(fields@.take(k + 1).last() == *field);
        let ghost extra = output_quantity_errors(*field, *registry);
        match find_key(&registry.quantities, field.quantity.as_str()) {
            None => {
                let e = ValidationKind::unknown_output_quantity(field).in_function(document, function.name.as_str(), "outputs");
                errors.push(e);
            },
            Some(q) => {
                match find_key(&registry.units, field.unit.as_str()) {
                    None => {
                        let e = ValidationKind::unknown_output_unit(field).in_function(document, function.name.as_str(), "outputs");
                        errors.push(e);
                    },
                    Some(u) => {
                        let unit = &registry.units[u].1;
                        if !(field.reported_unit == unit.preferred_notation) && !contains_alias(&unit.aliases, &field.reported_unit) {
                            let e = ValidationKind::non_equivalent_unit(field).in_function(document, function.name.as_str(), "outputs");
                            errors.push(e);
                        }
                    },
                }
                if find_key(&registry.quantities[q].1.units, field.unit.as_str()).is_none() {
                    let e = ValidationKind::unregistered_output_unit(field).in_function(document, function.name.as_str(), "outputs");
                    errors.push(e);
                }
            },
        }
        assert(errors_view(errors@) =~= before + function_errors(document@, function.name@, "outputs"@, extra));
        assert(function_errors(document@, function.name@, "outputs"@, outputs_quantity_errors(fields@.take(k + 1), *registry))
            =~= function_errors(document@, function.name@, "outputs"@, outputs_quantity_errors(fields@.take(k as int), *registry))
            + function_errors(document@, function.name@, "outputs"@, extra));
        k = k + 1;
    }
    assert(fields@.take(fields.len() as int) == fields@);
}


/// The first output field with this name.
pub open spec fn first_field(fields: Seq<OutputField>, name: Seq<char>) -> Option<OutputField>
    decreases fields.len(),
{
    if fields.len() == 0 {
        None
    } else if fields[0].name@ == name {
        Some(fields[0])
    } else {
        first_field(fields.drop_first(), name)
    }
}

/// The errors of one tolerance override: an unknown output, or invalid tolerances of
/// that output's quantity and unit and a missing source.
pub open spec fn override_errors(document: Seq<char>, function: Seq<char>, fields: Seq<OutputField>, name: Seq<char>, t: ToleranceOverride) -> Seq<ErrorView> {
    match first_field(fields, name) {
        None => seq![ErrorView::Function(document, "verification_tolerances"@, Some(function), KindView::UnknownOverrideOutput(name))],
        Some(f) => (if !t.absolute_valid { seq![ErrorView::AbsoluteTolerance(document, f.quantity@, f.unit@)] } else { seq![] })
            + (if !t.relative_valid { seq![ErrorView::RelativeTolerance(document, f.quantity@, f.unit@)] } else { seq![] })
            + (if is_blank(t.source_location@) {
                seq![ErrorView::Function(document, "verification_tolerances"@, Some(function), KindView::MissingOverrideSource(name))]
            } else {
                seq![]
            }),
    }
}

pub open spec fn overrides_errors(document: Seq<char>, function: Seq<char>, fields: Seq<OutputField>, overrides: Seq<(String, ToleranceOverride)>) -> Seq<ErrorView>
    decreases overrides.len(),
{
    if overrides.len() == 0 {
        seq![]
    } else {
        overrides_errors(document, function, fields, overrides.drop_last())
            + override_errors(document, function, fields, overrides.last().0@, overrides.last().1)
    }
}

fn field_index(fields: &[OutputField], name: &String) -> (r: Option<usize>)
    ensures
        r matches Some(k) ==> k < fields.len() && first_field(fields@, name@) == Some(fields@[k as int]),
        r is None ==> first_field(fields@, name@) is None,
{
    let mut k: usize = 0;
    assert(fields@.skip(0) == fields@);
    while k < fields.len()
        invariant
            k <= fields.len(),
            first_field(fields@, name@) == first_field(fields@.skip(k as int), name@),
        decreases fields.len() - k,
    {
        assert(fields@.skip(k as int)[0] == fields@[k as int]);
        if fields[k].name == *name {
            return Some(k);
        }
        assert(fields@.skip(k as int).drop_first() == fields@.skip(k + 1));
        k = k + 1;
    }
    None
}

/// Checks each tolerance override against the function's outputs.
pub fn validate_tolerance_overrides(document: &str, function: &Function, errors: &mut Vec<ValidationError>)
    ensures
        errors_view(final(errors)@) == errors_view(old(errors)@) + overrides_errors(
            document@,
            function.name@,
            function.outputs.spec_fields(),
            function.verification_tolerances@,
        ),
{
    let fields = function.outputs.fields();
    let overrides = &function.verification_tolerances;
    let ghost start = errors_view(errors@);
    let mut k: usize = 0;
    assert(overrides@.take(0) =~= Seq::<(String, ToleranceOverride)>::empty());
    while k < overrides.len()
        invariant
            k <= overrides.len(),
            fields@ == function.outputs.spec_fields(),
            *overrides == function.verification_tolerances,
            errors_view(errors@) == start + overrides_errors(document@, function.name@, fields@, overrides@.take(k as int)),
        decreases overrides.len() - k,
    {
        let (name, tolerance) = (&overrides[k].0, &overrides[k].1);
        let ghost before = errors_view(errors@);
        assert(overrides@.take(k + 1).drop_last() == overrides@.take(k as int));
        assert(overrides@.take(k + 1).last() == overrides@[k as int]);
        match field_index(fields, name) {
            None => {
                let e = ValidationKind::unknown_override_output(name.as_str()).in_function(document, function.name.as_str(), "verification_tolerances");
                errors.push(e);
                assert(errors_view(errors@) =~= before.push(e.error_view()));
            },
            Some(f) => {
                let field = &fields[f];
                if !tolerance.absolute_valid {
                    let ghost b = errors_view(errors@);
                    let e = ValidationError::AbsoluteTolerance { path: document.to_owned(), quantity: field.quantity.clone(), unit: field.unit.clone() };
                    errors.push(e);
                    assert(errors_view(errors@) =~= b.push(e.error_view()));
                }
                if !tolerance.relative_valid {
                    let ghost b = errors_view(errors@);
                    let e = ValidationError::RelativeTolerance { path: document.to_owned(), quantity: field.quantity.clone(), unit: field.unit.clone() };
                    errors.push(e);
                    assert(errors_view(errors@) =~= b.push(e.error_view()));
                }
                if blank(tolerance.source_location.as_str()) {
                    let ghost b = errors_view(errors@);
                    let e = ValidationKind::missing_override_source(name.as_str()).in_function(document, function.name.as_str(), "verification_tolerances");
                    errors.push(e);
                    assert(errors_view(errors@) =~= b.push(e.error_view()));
                }
                assert(errors_view(errors@) =~= before + override_errors(document@, function.name@, fields@, name@, *tolerance));
            },
        }
        k = k + 1;
    }
    assert(overrides@.take(overrides.len() as int) == overrides@);
}


/// A unit's notations: the preferred one, then its aliases.
pub open spec fn notations(u: Unit) -> Seq<Seq<char>> {
    seq![u.preferred_notation@] + texts_of(u.aliases@)
}

/// For each notation in order, an error when it is blank or repeats an earlier one.
pub open spec fn notation_errors(id: Seq<char>, ns: Seq<Seq<char>>) -> Seq<ErrorView>
    decreases ns.len(),
{
    if ns.len() == 0 {
        seq![]
    } else {
        notation_errors(id, ns.drop_last()) + (if is_blank(ns.last()) || ns.drop_last().contains(ns.last()) {
            seq![ErrorView::InvalidUnitNotation(id)]
        } else {
            seq![]
        })
    }
}

pub open spec fn unit_errors(id: Seq<char>, u: Unit) -> Seq<ErrorView> {
    (if !is_identifier(id) { seq![ErrorView::InvalidUnitIdentifier(id)] } else { seq![] }) + notation_errors(id, notations(u))
}

pub open spec fn units_errors(units: Seq<(String, Unit)>) -> Seq<ErrorView>
    decreases units.len(),
{
    if units.len() == 0 {
        seq![]
    } else {
        units_errors(units.drop_last()) + unit_errors(units.last().0@, units.last().1)
    }
}

/// The notations of a quantity's units, each with its unit, in order; units that the
/// registry lacks contribute none.
pub open spec fn notation_claims(registry_units: Seq<(String, Unit)>, quantity_units: Seq<(String, QuantityUnit)>) -> Seq<(Seq<char>, Seq<char>)>
    decreases quantity_units.len(),
{
    if quantity_units.len() == 0 {
        seq![]
    } else {
        let unit_id = quantity_units.last().0@;
        notation_claims(registry_units, quantity_units.drop_last()) + match lookup(registry_units, unit_id) {
            Some(u) => notations(u).map_values(|n: Seq<char>| (n, unit_id)),
            None => seq![],
        }
    }
}

/// The unit that most recently claimed a notation.
pub open spec fn last_claim(claims: Seq<(Seq<char>, Seq<char>)>, notation: Seq<char>) -> Option<Seq<char>>
    decreases claims.len(),
{
    if claims.len() == 0 {
        None
    } else if claims.last().0 == notation {
        Some(claims.last().1)
    } else {
        last_claim(claims.drop_last(), notation)
    }
}

/// For each claim in order, an error when an earlier unit of the quantity already
/// claimed the notation.
pub open spec fn ambiguity_errors(id: Seq<char>, claims: Seq<(Seq<char>, Seq<char>)>) -> Seq<ErrorView>
    decreases claims.len(),
{
    if claims.len() == 0 {
        seq![]
    } else {
        ambiguity_errors(id, claims.drop_last()) + match last_claim(claims.drop_last(), claims.last().0) {
            Some(previous) => seq![ErrorView::AmbiguousNotation(id, claims.last().0, previous, claims.last().1)],
            None => seq![],
        }
    }
}

/// The errors of one of a quantity's units.
pub open spec fn quantity_unit_errors(registry_units: Seq<(String, Unit)>, id: Seq<char>, unit: Seq<char>, t: QuantityUnit) -> Seq<ErrorView> {
    (if lookup(registry_units, unit) is None { seq![ErrorView::UnknownQuantityUnit(id, unit)] } else { seq![] })
        + (if !t.absolute_valid { seq![ErrorView::AbsoluteTolerance("specs/quantities.yaml"@, id, unit)] } else { seq![] })
        + (if !t.relative_valid { seq![ErrorView::RelativeTolerance("specs/quantities.yaml"@, id, unit)] } else { seq![] })
        + (if is_blank(t.rationale@) { seq![ErrorView::EmptyToleranceRationale(id, unit)] } else { seq![] })
}

pub open spec fn quantity_units_errors(registry_units: Seq<(String, Unit)>, id: Seq<char>, units: Seq<(String, QuantityUnit)>) -> Seq<ErrorView>
    decreases units.len(),
{
    if units.len() == 0 {
        seq![]
    } else {
        quantity_units_errors(registry_units, id, units.drop_last())
            + quantity_unit_errors(registry_units, id, units.last().0@, units.last().1)
    }
}

pub open spec fn quantity_errors(registry_units: Seq<(String, Unit)>, id: Seq<char>, q: Quantity) -> Seq<ErrorView> {
    (if !is_identifier(id) { seq![ErrorView::InvalidQuantityIdentifier(id)] } else { seq![] })
        + (if is_blank(q.description@) { seq![ErrorView::EmptyQuantityDescription(id)] } else { seq![] })
        + (if q.units.len() == 0 { seq![ErrorView::EmptyQuantityUnits(id)] } else { seq![] })
        + ambiguity_errors(id, notation_claims(registry_units, q.units@))
        + quantity_units_errors(registry_units, id, q.units@)
}

pub open spec fn quantities_errors(registry_units: Seq<(String, Unit)>, quantities: Seq<(String, Quantity)>) -> Seq<ErrorView>
    decreases quantities.len(),
{
    if quantities.len() == 0 {
        seq![]
    } else {
        quantities_errors(registry_units, quantities.drop_last())
            + quantity_errors(registry_units, quantities.last().0@, quantities.last().1)
    }
}

/// The errors of the registry: its units, then its quantities.
pub open spec fn registry_errors(r: QuantityRegistry) -> Seq<ErrorView> {
    units_errors(r.units@) + quantities_errors(r.units@, r.quantities@)
}

fn unit_notations(u: &Unit) -> (r: Vec<String>)
    ensures
        texts_of(r@) == notations(*u),
{
    let mut r: Vec<String> = Vec::new();
    r.push(u.preferred_notation.clone());
    let mut k: usize = 0;
    while k < u.aliases.len()
        invariant
            k <= u.aliases.len(),
            texts_of(r@) == seq![u.preferred_notation@] + texts_of(u.aliases@).take(k as int),
        decreases u.aliases.len() - k,
    {
        let ghost prev = texts_of(r@);
        r.push(u.aliases[k].clone());
        assert(texts_of(r@) =~= prev.push(u.aliases@[k as int]@));
        assert(texts_of(u.aliases@).take(k + 1) =~= texts_of(u.aliases@).take(k as int).push(u.aliases@[k as int]@));
        k = k + 1;
    }
    assert(texts_of(u.aliases@).take(u.aliases.len() as int) == texts_of(u.aliases@));
    r
}

fn push_unit_errors(id: &String, u: &Unit, errors: &mut Vec<ValidationError>)
    ensures
        errors_view(final(errors)@) == errors_view(old(errors)@) + unit_errors(id@, *u),
{
    let ghost start = errors_view(errors@);
    if !valid_identifier(id.as_str()) {
        let e = ValidationError::InvalidUnitIdentifier { id: id.clone() };
        errors.push(e);
        assert(errors_view(errors@) =~= start.push(e.error_view()));
    }
    let ghost mid = errors_view(errors@);
    let ns = unit_notations(u);
    let ghost all = texts_of(ns@);
    let mut k: usize = 0;
    assert(all.take(0) =~= Seq::<Seq<char>>::empty());
    while k < ns.len()
        invariant
            k <= ns.len(),
            all == texts_of(ns@),
            errors_view(errors@) == mid + notation_errors(id@, all.take(k as int)),
        decreases ns.len() - k,
    {
        let ghost before = errors_view(errors@);
        assert(all.take(k + 1).drop_last() == all.take(k as int));
        assert(all.take(k + 1).last() == ns@[k as int]@);
        assert(ns@.take(k as int).map_values(|n: String| n@) == all.take(k as int));
        if blank(ns[k].as_str()) || contains_text(&ns, k, ns[k].as_str()) {
            let e = ValidationError::InvalidUnitNotation { id: id.clone() };
            errors.push(e);
            assert(errors_view(errors@) =~= before.push(e.error_view()));
        }
        k = k + 1;
    }
    assert(all.take(ns.len() as int) == all);
}


pub open spec fn claims_view(claims: Seq<(String, String)>) -> Seq<(Seq<char>, Seq<char>)> {
    claims.map_values(|c: (String, String)| (c.0@, c.1@))
}

fn last_claim_of(claims: &Vec<(String, String)>, notation: &String) -> (r: Option<usize>)
    ensures
        r matches Some(k) ==> k < claims.len() && last_claim(claims_view(claims@), notation@) == Some(claims@[k as int].1@),
        r is None ==> last_claim(claims_view(claims@), notation@) is None,
{
    let ghost v = claims_view(claims@);
    let mut k: usize = claims.len();
    assert(v.take(v.len() as int) == v);
    while k > 0
        invariant
            k <= claims.len(),
            v == claims_view(claims@),
            last_claim(v, notation@) == last_claim(v.take(k as int), notation@),
        decreases k,
    {
        assert(v.take(k as int).last() == v[k - 1]);
        if claims[k - 1].0 == *notation {
            return Some(k - 1);
        }
        assert(v.take(k as int).drop_last() == v.take(k - 1));
        k = k - 1;
    }
    None
}

fn push_quantity_unit_errors(registry: &QuantityRegistry, id: &String, unit: &String, tolerance: &QuantityUnit, errors: &mut Vec<ValidationError>)
    ensures
        errors_view(final(errors)@) == errors_view(old(errors)@) + quantity_unit_errors(registry.units@, id@, unit@, *tolerance),
{
    let ghost before = errors_view(errors@);
    if find_key(&registry.units, unit.as_str()).is_none() {
        let ghost b = errors_view(errors@);
        let e = ValidationError::UnknownQuantityUnit { id: id.clone(), unit: unit.clone() };
        errors.push(e);
        assert(errors_view(errors@) =~= b.push(e.error_view()));
    }
    if !tolerance.absolute_valid {
        let ghost b = errors_view(errors@);
        let e = ValidationError::AbsoluteTolerance { path: String::from_str("specs/quantities.yaml"), quantity: id.clone(), unit: unit.clone() };
        errors.push(e);
        assert(errors_view(errors@) =~= b.push(e.error_view()));
    }
    if !tolerance.relative_valid {
        let ghost b = errors_view(errors@);
        let e = ValidationError::RelativeTolerance { path: String::from_str("specs/quantities.yaml"), quantity: id.clone(), unit: unit.clone() };
        errors.push(e);
        assert(errors_view(errors@) =~= b.push(e.error_view()));
    }
    if blank(tolerance.rationale.as_str()) {
        let ghost b = errors_view(errors@);
        let e = ValidationError::EmptyToleranceRationale { id: id.clone(), unit: unit.clone() };
        errors.push(e);
        assert(errors_view(errors@) =~= b.push(e.error_view()));
    }
    assert(errors_view(errors@) =~= before + quantity_unit_errors(registry.units@, id@, unit@, *tolerance));
}

fn push_quantity_errors(registry: &QuantityRegistry, id: &String, q: &Quantity, errors: &mut Vec<ValidationError>)
    ensures
        errors_view(final(errors)@) == errors_view(old(errors)@) + quantity_errors(registry.units@, id@, *q),
{
    let ghost start = errors_view(errors@);
    if !valid_identifier(id.as_str()) {
        let ghost b = errors_view(errors@);
        let e = ValidationError::InvalidQuantityIdentifier { id: id.clone() };
        errors.push(e);
        assert(errors_view(errors@) =~= b.push(e.error_view()));
    }
    if blank(q.description.as_str()) {
        let ghost b = errors_view(errors@);
        let e = ValidationError::EmptyQuantityDescription { id: id.clone() };
        errors.push(e);
        assert(errors_view(errors@) =~= b.push(e.error_view()));
    }
    if q.units.len() == 0 {
        let ghost b = errors_view(errors@);
        let e = ValidationError::EmptyQuantityUnits { id: id.clone() };
        errors.push(e);
        assert(errors_view(errors@) =~= b.push(e.error_view()));
    }
    let ghost head = errors_view(errors@);
    assert(head == start + (if !is_identifier(id@) { seq![ErrorView::InvalidQuantityIdentifier(id@)] } else { seq![] })
        + (if is_blank(q.description@) { seq![ErrorView::EmptyQuantityDescription(id@)] } else { seq![] })
        + (if q.units.len() == 0 { seq![ErrorView::EmptyQuantityUnits(id@)] } else { seq![] }));
    let mut claims: Vec<(String, String)> = Vec::new();
    let mut k: usize = 0;
    assert(q.units@.take(0) =~= Seq::<(String, QuantityUnit)>::empty());
    assert(claims_view(claims@) =~= Seq::<(Seq<char>, Seq<char>)>::empty());
    while k < q.units.len()
        invariant
            k <= q.units.len(),
            claims_view(claims@) == notation_claims(registry.units@, q.units@.take(k as int)),
            errors_view(errors@) == head + ambiguity_errors(id@, claims_view(claims@)),
        decreases q.units.len() - k,
    {
        let unit_id = &q.units[k].0;
        assert(q.units@.take(k + 1).drop_last() == q.units@.take(k as int));
        assert(q.units@.take(k + 1).last() == q.units@[k as int]);
        let ghost base = claims_view(claims@);
        match find_key(&registry.units, unit_id.as_str()) {
            Some(u) => {
                let ns = unit_notations(&registry.units[u].1);
                let ghost mapped = texts_of(ns@).map_values(|n: Seq<char>| (n, unit_id@));
                let mut j: usize = 0;
                assert(mapped.take(0) =~= Seq::<(Seq<char>, Seq<char>)>::empty());
                assert(base + mapped.take(0) == base);
                while j < ns.len()
                    invariant
                        j <= ns.len(),
                        mapped == texts_of(ns@).map_values(|n: Seq<char>| (n, unit_id@)),
                        claims_view(claims@) == base + mapped.take(j as int),
                        errors_view(errors@) == head + ambiguity_errors(id@, claims_view(claims@)),
                    decreases ns.len() - j,
                {
                    let ghost before = claims_view(claims@);
                    let ghost errs = errors_view(errors@);
                    match last_claim_of(&claims, &ns[j]) {
                        Some(p) => {
                            let e = ValidationError::AmbiguousNotation {
                                id: id.clone(),
                                notation: ns[j].clone(),
                                previous: claims[p].1.clone(),
                                unit_id: unit_id.clone(),
                            };
                            errors.push(e);
                            assert(errors_view(errors@) =~= errs.push(e.error_view()));
                        },
                        None => {},
                    }
                    claims.push((ns[j].clone(), unit_id.clone()));
                    assert(claims_view(claims@) =~= before.push((ns@[j as int]@, unit_id@)));
                    assert(mapped.take(j + 1) =~= mapped.take(j as int).push((ns@[j as int]@, unit_id@)));
                    assert(claims_view(claims@).drop_last() == before);
                    j = j + 1;
                }
                assert(mapped.take(ns.len() as int) == mapped);
            },
            None => {
                assert(base + Seq::<(Seq<char>, Seq<char>)>::empty() == base);
            },
        }
        k = k + 1;
    }
    assert(q.units@.take(q.units.len() as int) == q.units@);
    let ghost mid = errors_view(errors@);
    let mut m: usize = 0;
    assert(q.units@.take(0) =~= Seq::<(String, QuantityUnit)>::empty());
    while m < q.units.len()
        invariant
            m <= q.units.len(),
            errors_view(errors@) == mid + quantity_units_errors(registry.units@, id@, q.units@.take(m as int)),
        decreases q.units.len() - m,
    {
        assert(q.units@.take(m + 1).drop_last() == q.units@.take(m as int));
        assert(q.units@.take(m + 1).last() == q.units@[m as int]);
        push_quantity_unit_errors(registry, id, &q.units[m].0, &q.units[m].1, errors);
        m = m + 1;
    }
    assert(q.units@.take(q.units.len() as int) == q.units@);
}

/// Checks the registry: unit identifiers and notations, then each quantity.
pub fn validate_quantity_registry(registry: &QuantityRegistry, errors: &mut Vec<ValidationError>)
    ensures
        errors_view(final(errors)@) == errors_view(old(errors)@) + registry_errors(*registry),
{
    let ghost start = errors_view(errors@);
    let mut k: usize = 0;
    assert(registry.units@.take(0) =~= Seq::<(String, Unit)>::empty());
    while k < registry.units.len()
        invariant
            k <= registry.units.len(),
            errors_view(errors@) == start + units_errors(registry.units@.take(k as int)),
        decreases registry.units.len() - k,
    {
        assert(registry.units@.take(k + 1).drop_last() == registry.units@.take(k as int));
        assert(registry.units@.take(k + 1).last() == registry.units@[k as int]);
        push_unit_errors(&registry.units[k].0, &registry.units[k].1, errors);
        k = k + 1;
    }
    assert(registry.units@.take(registry.units.len() as int) == registry.units@);
    let ghost mid = errors_view(errors@);
    let mut m: usize = 0;
    assert(registry.quantities@.take(0) =~= Seq::<(String, Quantity)>::empty());
    while m < registry.quantities.len()
        invariant
            m <= registry.quantities.len(),
            errors_view(errors@) == mid + quantities_errors(registry.units@, registry.quantities@.take(m as int)),
        decreases registry.quantities.len() - m,
    {
        assert(registry.quantities@.take(m + 1).drop_last() == registry.quantities@.take(m as int));
        assert(registry.quantities@.take(m + 1).last() == registry.quantities@[m as int]);
        push_quantity_errors(registry, &registry.quantities[m].0, &registry.quantities[m].1, errors);
        m = m + 1;
    }
    assert(registry.quantities@.take(registry.quantities.len() as int) == registry.quantities@);
}


/// The error for a key that an earlier function already claimed.
pub open spec fn duplicate_error(claims: Seq<(Seq<char>, Seq<char>)>, key: Seq<char>, document: Seq<char>, label: Seq<char>) -> Seq<ErrorView> {
    match last_claim(claims, key) {
        Some(previous) => seq![ErrorView::DuplicateValue(document, label, key, previous)],
        None => seq![],
    }
}

/// The key under which a function's public name must be unique.
pub open spec fn public_key(slug: Seq<char>, f: Function) -> Seq<char> {
    slug + "::"@ + f.public_api.name@
}

/// The errors of one function, given the names and public keys claimed before it.
pub open spec fn function_checks(
    document: Seq<char>,
    slug: Seq<char>,
    f: Function,
    registry: QuantityRegistry,
    names: Seq<(Seq<char>, Seq<char>)>,
    publics: Seq<(Seq<char>, Seq<char>)>,
) -> Seq<ErrorView> {
    duplicate_error(names, f.name@, document, "functions[].name"@)
        + duplicate_error(publics, public_key(slug, f), document, "functions[].public_api"@)
        + function_errors(document, f.name@, "inputs"@, repeated_names(input_names(f.inputs@)).map_values(|n: Seq<char>| KindView::DuplicateName(n)))
        + function_errors(document, f.name@, "verification_cases"@, repeated_names(case_ids(f.verification_cases@)).map_values(|n: Seq<char>| KindView::DuplicateCaseId(n)))
        + function_errors(document, f.name@, "$defs"@, inputs_enum_errors(f.inputs@))
        + function_errors(document, f.name@, "outputs.fields"@, repeated_names(field_names(f.outputs.spec_fields())).map_values(|n: Seq<char>| KindView::DuplicateName(n)))
        + function_errors(document, f.name@, "outputs"@, outputs_quantity_errors(f.outputs.spec_fields(), registry))
        + overrides_errors(document, f.name@, f.outputs.spec_fields(), f.verification_tolerances@)
        + function_errors(document, f.name@, "outputs"@, output_shape_errors(f.outputs.spec_fields().len(), f.outputs is Record))
}

/// Errors so far, and the function names and public keys claimed so far with the
/// documents that claimed them.
pub type CheckState = (Seq<ErrorView>, Seq<(Seq<char>, Seq<char>)>, Seq<(Seq<char>, Seq<char>)>);

pub open spec fn functions_fold(document: Seq<char>, slug: Seq<char>, fs: Seq<Function>, registry: QuantityRegistry, start: CheckState) -> CheckState
    decreases fs.len(),
{
    if fs.len() == 0 {
        start
    } else {
        let st = functions_fold(document, slug, fs.drop_last(), registry, start);
        let f = fs.last();
        (
            st.0 + function_checks(document, slug, f, registry, st.1, st.2),
            st.1.push((f.name@, document)),
            st.2.push((public_key(slug, f), document)),
        )
    }
}

pub open spec fn entries_fold(es: Seq<Entry>, registry: QuantityRegistry) -> CheckState
    decreases es.len(),
{
    if es.len() == 0 {
        (seq![], seq![], seq![])
    } else {
        let e = es.last();
        functions_fold(e.path@, e.slug@, e.spec.functions@, registry, entries_fold(es.drop_last(), registry))
    }
}

/// The errors of a corpus: the registry's (when there is a specification), then each
/// function's in order.
pub open spec fn corpus_errors(es: Seq<Entry>, registry: QuantityRegistry) -> Seq<ErrorView> {
    (if es.len() > 0 { registry_errors(registry) } else { seq![] }) + entries_fold(es, registry).0
}

fn check_duplicate(
    claims: &mut Vec<(String, String)>,
    key: String,
    document: &str,
    label: &str,
    errors: &mut Vec<ValidationError>,
)
    ensures
        errors_view(final(errors)@) == errors_view(old(errors)@) + duplicate_error(claims_view(old(claims)@), key@, document@, label@),
        claims_view(final(claims)@) == claims_view(old(claims)@).push((key@, document@)),
{
    let ghost before = errors_view(errors@);
    match last_claim_of(claims, &key) {
        Some(p) => {
            let e = ValidationError::DuplicateValue {
                document: document.to_owned(),
                path: label.to_owned(),
                key: key.clone(),
                previous: claims[p].1.clone(),
            };
            errors.push(e);
            assert(errors_view(errors@) =~= before.push(e.error_view()));
        },
        None => {
            assert(errors_view(errors@) =~= before + Seq::<ErrorView>::empty());
        },
    }
    let ghost prev = claims_view(claims@);
    claims.push((key, document.to_owned()));
    assert(claims_view(claims@) =~= prev.push((key@, document@)));
}

fn check_function(
    entry: &Entry,
    function: &Function,
    registry: &QuantityRegistry,
    names: &mut Vec<(String, String)>,
    publics: &mut Vec<(String, String)>,
    errors: &mut Vec<ValidationError>,
)
    ensures
        errors_view(final(errors)@) == errors_view(old(errors)@) + function_checks(
            entry.path@,
            entry.slug@,
            *function,
            *registry,
            claims_view(old(names)@),
            claims_view(old(publics)@),
        ),
        claims_view(final(names)@) == claims_view(old(names)@).push((function.name@, entry.path@)),
        claims_view(final(publics)@) == claims_view(old(publics)@).push((public_key(entry.slug@, *function), entry.path@)),
{
    let document = entry.path.as_str();
    let ghost e0 = errors_view(errors@);
    check_duplicate(names, function.name.clone(), document, "functions[].name", errors);
    let mut key = entry.slug.clone();
    key.append("::");
    key.append(function.public_api.name.as_str());
    check_duplicate(publics, key, document, "functions[].public_api", errors);
    duplicate_input_names(document, function, errors);
    duplicate_verification_case_ids(document, function, errors);
    validate_enums(document, function, errors);
    duplicate_names(document, function, function.outputs.fields(), "outputs.fields", errors);
    validate_output_quantities(document, function, registry, errors);
    validate_tolerance_overrides(document, function, errors);
    validate_output_shape(document, function, errors);
}

/// Validates a corpus of specifications against the quantity registry.
pub fn specifications(entries: &[Entry], registry: &QuantityRegistry) -> (r: Vec<ValidationError>)
    ensures
        errors_view(r@) == corpus_errors(entries@, *registry),
{
    let mut errors: Vec<ValidationError> = Vec::new();
    if entries.len() > 0 {
        validate_quantity_registry(registry, &mut errors);
    }
    let ghost head = errors_view(errors@);
    assert(head =~= (if entries@.len() > 0 { registry_errors(*registry) } else { seq![] }));
    let mut names: Vec<(String, String)> = Vec::new();
    let mut publics: Vec<(String, String)> = Vec::new();
    let mut k: usize = 0;
    assert(entries@.take(0) =~= Seq::<Entry>::empty());
    assert(claims_view(names@) =~= Seq::<(Seq<char>, Seq<char>)>::empty());
    assert(claims_view(publics@) =~= Seq::<(Seq<char>, Seq<char>)>::empty());
    assert(head + Seq::<ErrorView>::empty() == head);
    while k < entries.len()
        invariant
            k <= entries.len(),
            ({
                let st = entries_fold(entries@.take(k as int), *registry);
                &&& errors_view(errors@) == head + st.0
                &&& claims_view(names@) == st.1
                &&& claims_view(publics@) == st.2
            }),
        decreases entries.len() - k,
    {
        let entry = &entries[k];
        assert(entries@.take(k + 1).drop_last() == entries@.take(k as int));
        assert(entries@.take(k + 1).last() == entries@[k as int]);
        let ghost start = entries_fold(entries@.take(k as int), *registry);
        let mut j: usize = 0;
        assert(entry.spec.functions@.take(0) =~= Seq::<Function>::empty());
        while j < entry.spec.functions.len()
            invariant
                j <= entry.spec.functions.len(),
                ({
                    let st = functions_fold(entry.path@, entry.slug@, entry.spec.functions@.take(j as int), *registry, start);
                    &&& errors_view(errors@) == head + st.0
                    &&& claims_view(names@) == st.1
                    &&& claims_view(publics@) == st.2
                }),
            decreases entry.spec.functions.len() - j,
        {
            let function = &entry.spec.functions[j];
            assert(entry.spec.functions@.take(j + 1).drop_last() == entry.spec.functions@.take(j as int));
            assert(entry.spec.functions@.take(j + 1).last() == entry.spec.functions@[j as int]);
            let ghost st = functions_fold(entry.path@, entry.slug@, entry.spec.functions@.take(j as int), *registry, start);
            check_function(entry, function, registry, &mut names, &mut publics, &mut errors);
            assert(head + st.0 + function_checks(entry.path@, entry.slug@, *function, *registry, st.1, st.2)
                =~= head + (st.0 + function_checks(entry.path@, entry.slug@, *function, *registry, st.1, st.2)));
            j = j + 1;
        }
        assert(entry.spec.functions@.take(entry.spec.functions.len() as int) == entry.spec.functions@);
        k = k + 1;
    }
    assert(entries@.take(entries.len() as int) == entries@);
    errors
}

/// The message of a validation kind.
pub open spec fn kind_message(k: KindView) -> Seq<char> {
    match k {
        KindView::ScalarRequired => "must be scalar when it has one field"@,
        KindView::RecordRequired => "must be a named record when it has multiple fields"@,
        KindView::EmptyOutputs => "must contain at least one output"@,
        KindView::UnknownOutputQuantity(output, quantity, unit) => "output `"@ + output + "` references unknown quantity `"@ + quantity + "` with unit `"@ + unit + "`"@,
        KindView::UnknownOutputUnit(output, unit) => "output `"@ + output + "` references unknown unit identifier `"@ + unit + "`"@,
        KindView::NonEquivalentUnit(output, reported, unit) => "output `"@ + output + "` reported_unit `"@ + reported + "` is not an equivalent notation for unit `"@ + unit + "`; an explicit registry decision is required; values must not be converted"@,
        KindView::UnregisteredOutputUnit(output, quantity, unit) => "output `"@ + output + "` quantity `"@ + quantity + "` has no registered unit `"@ + unit + "`"@,
        KindView::UnknownOverrideOutput(name) => "override references unknown output `"@ + name + "`"@,
        KindView::MissingOverrideSource(name) => "override for output `"@ + name + "` requires source_location"@,
        KindView::DuplicateName(name) => "duplicate name `"@ + name + "`"@,
        KindView::DuplicateCaseId(id) => "duplicate id `"@ + id + "`"@,
        KindView::DuplicateEnumName(enum_name, member) => "enum `"@ + enum_name + "` contains duplicate member name `"@ + member + "`"@,
        KindView::DuplicateEnumValue(enum_name, member) => "enum `"@ + enum_name + "` contains duplicate canonical value `"@ + member + "`"@,
        KindView::EnumCapacity(enum_name) => "enum `"@ + enum_name + "` exceeds the target ordinal capacity"@,
    }
}

impl ValidationKind {
    pub fn message(&self) -> (r: String)
        ensures
            r@ == kind_message(self.kind_view()),
    {
        match self {
            ValidationKind::ScalarRequired => {
                let mut r = String::new();
                r.append("must be scalar when it has one field");
                r
            },
            ValidationKind::RecordRequired => {
                let mut r = String::new();
                r.append("must be a named record when it has multiple fields");
                r
            },
            ValidationKind::EmptyOutputs => {
                let mut r = String::new();
                r.append("must contain at least one output");
                r
            },
            ValidationKind::UnknownOutputQuantity { output, quantity, unit } => {
                let mut r = String::new();
                r.append("output `");
                r.append(output.as_str());
                r.append("` references unknown quantity `");
                r.append(quantity.as_str());
                r.append("` with unit `");
                r.append(unit.as_str());
                r.append("`");
                r
            },
            ValidationKind::UnknownOutputUnit { output, unit } => {
                let mut r = String::new();
                r.append("output `");
                r.append(output.as_str());
                r.append("` references unknown unit identifier `");
                r.append(unit.as_str());
                r.append("`");
                r
            },
            ValidationKind::NonEquivalentUnit { output, reported, unit } => {
                let mut r = String::new();
                r.append("output `");
                r.append(output.as_str());
                r.append("` reported_unit `");
                r.append(reported.as_str());
                r.append("` is not an equivalent notation for unit `");
                r.append(unit.as_str());
                r.append("`; an explicit registry decision is required; values must not be converted");
                r
            },
            ValidationKind::UnregisteredOutputUnit { output, quantity, unit } => {
                let mut r = String::new();
                r.append("output `");
                r.append(output.as_str());
                r.append("` quantity `");
                r.append(quantity.as_str());
                r.append("` has no registered unit `");
                r.append(unit.as_str());
                r.append("`");
                r
            },
            ValidationKind::UnknownOverrideOutput { name } => {
                let mut r = String::new();
                r.append("override references unknown output `");
                r.append(name.as_str());
                r.append("`");
                r
            },
            ValidationKind::MissingOverrideSource { name } => {
                let mut r = String::new();
                r.append("override for output `");
                r.append(name.as_str());
                r.append("` requires source_location");
                r
            },
            ValidationKind::DuplicateName { name } => {
                let mut r = String::new();
                r.append("duplicate name `");
                r.append(name.as_str());
                r.append("`");
                r
            },
            ValidationKind::DuplicateCaseId { id } => {
                let mut r = String::new();
                r.append("duplicate id `");
                r.append(id.as_str());
                r.append("`");
                r
            },
            ValidationKind::DuplicateEnumName { enum_name, member } => {
                let mut r = String::new();
                r.append("enum `");
                r.append(enum_name.as_str());
                r.append("` contains duplicate member name `");
                r.append(member.as_str());
                r.append("`");
                r
            },
            ValidationKind::DuplicateEnumValue { enum_name, member } => {
                let mut r = String::new();
                r.append("enum `");
                r.append(enum_name.as_str());
                r.append("` contains duplicate canonical value `");
                r.append(member.as_str());
                r.append("`");
                r
            },
            ValidationKind::EnumCapacity { enum_name } => {
                let mut r = String::new();
                r.append("enum `");
                r.append(enum_name.as_str());
                r.append("` exceeds the target ordinal capacity");
                r
            },
        }
    }
}

/// The message of a validation error.
pub open spec fn error_message(e: ErrorView) -> Seq<char> {
    match e {
        ErrorView::InvalidUnitIdentifier(id) => "specs/units.yaml: invalid unit identifier `"@ + id + "`"@,
        ErrorView::InvalidUnitNotation(id) => "specs/units.yaml: unit `"@ + id + "` has an empty or duplicate notation"@,
        ErrorView::InvalidQuantityIdentifier(id) => "specs/quantities.yaml: quantity identifier `"@ + id + "` must match ^[a-z][a-z0-9_]*$"@,
        ErrorView::EmptyQuantityDescription(id) => "specs/quantities.yaml:\n  "@ + id + ":\n    description must not be empty"@,
        ErrorView::EmptyQuantityUnits(id) => "specs/quantities.yaml:\n  "@ + id + ":\n    at least one unit is required"@,
        ErrorView::AmbiguousNotation(id, notation, previous, unit_id) => "specs/quantities.yaml: quantity `"@ + id + "` has ambiguous notation `"@ + notation + "` for `"@ + previous + "` and `"@ + unit_id + "`"@,
        ErrorView::UnknownQuantityUnit(id, unit) => "specs/quantities.yaml: quantity `"@ + id + "` references unknown unit identifier `"@ + unit + "`"@,
        ErrorView::EmptyToleranceRationale(id, unit) => "specs/quantities.yaml:\n  "@ + id + " ["@ + unit + "]:\n    rationale must not be empty"@,
        ErrorView::AbsoluteTolerance(path, quantity, unit) => path + ":\n  "@ + quantity + " ["@ + unit + "]:\n    absolute tolerance must be finite and positive"@,
        ErrorView::RelativeTolerance(path, quantity, unit) => path + ":\n  "@ + quantity + " ["@ + unit + "]:\n    relative tolerance must be finite and non-negative"@,
        ErrorView::DuplicateValue(document, path, key, previous) => document + ":\n  "@ + path + ":\n    duplicate value `"@ + key + "`; first declared in "@ + previous,
        ErrorView::Function(document, path, function, kind) => document + ":\n  "@ + path + match function {
            Some(name) => " ("@ + name + ")"@,
            None => seq![],
        } + ":\n    "@ + kind_message(kind),
    }
}

impl ValidationError {
    pub fn message(&self) -> (r: String)
        ensures
            r@ == error_message(self.error_view()),
    {
        match self {
            ValidationError::InvalidUnitIdentifier { id } => {
                let mut r = String::new();
                r.append("specs/units.yaml: invalid unit identifier `");
                r.append(id.as_str());
                r.append("`");
                r
            },
            ValidationError::InvalidUnitNotation { id } => {
                let mut r = String::new();
                r.append("specs/units.yaml: unit `");
                r.append(id.as_str());
                r.append("` has an empty or duplicate notation");
                r
            },
            ValidationError::InvalidQuantityIdentifier { id } => {
                let mut r = String::new();
                r.append("specs/quantities.yaml: quantity identifier `");
                r.append(id.as_str());
                r.append("` must match ^[a-z][a-z0-9_]*$");
                r
            },
            ValidationError::EmptyQuantityDescription { id } => {
                let mut r = String::new();
                r.append("specs/quantities.yaml:\n  ");
                r.append(id.as_str());
                r.append(":\n    description must not be empty");
                r
            },
            ValidationError::EmptyQuantityUnits { id } => {
                let mut r = String::new();
                r.append("specs/quantities.yaml:\n  ");
                r.append(id.as_str());
                r.append(":\n    at least one unit is required");
                r
            },
            ValidationError::AmbiguousNotation { id, notation, previous, unit_id } => {
                let mut r = String::new();
                r.append("specs/quantities.yaml: quantity `");
                r.append(id.as_str());
                r.append("` has ambiguous notation `");
                r.append(notation.as_str());
                r.append("` for `");
                r.append(previous.as_str());
                r.append("` and `");
                r.append(unit_id.as_str());
                r.append("`");
                r
            },
            ValidationError::UnknownQuantityUnit { id, unit } => {
                let mut r = String::new();
                r.append("specs/quantities.yaml: quantity `");
                r.append(id.as_str());
                r.append("` references unknown unit identifier `");
                r.append(unit.as_str());
                r.append("`");
                r
            },
            ValidationError::EmptyToleranceRationale { id, unit } => {
                let mut r = String::new();
                r.append("specs/quantities.yaml:\n  ");
                r.append(id.as_str());
                r.append(" [");
                r.append(unit.as_str());
                r.append("]:\n    rationale must not be empty");
                r
            },
            ValidationError::AbsoluteTolerance { path, quantity, unit } => {
                let mut r = String::new();
                r.append(path.as_str());
                r.append(":\n  ");
                r.append(quantity.as_str());
                r.append(" [");
                r.append(unit.as_str());
                r.append("]:\n    absolute tolerance must be finite and positive");
                r
            },
            ValidationError::RelativeTolerance { path, quantity, unit } => {
                let mut r = String::new();
                r.append(path.as_str());
                r.append(":\n  ");
                r.append(quantity.as_str());
                r.append(" [");
                r.append(unit.as_str());
                r.append("]:\n    relative tolerance must be finite and non-negative");
                r
            },
            ValidationError::DuplicateValue { document, path, key, previous } => {
                let mut r = String::new();
                r.append(document.as_str());
                r.append(":\n  ");
                r.append(path.as_str());
                r.append(":\n    duplicate value `");
                r.append(key.as_str());
                r.append("`; first declared in ");
                r.append(previous.as_str());
                r
            },
            ValidationError::Function { document, path, function, kind } => {
                let mut r = document.clone();
                r.append(":\n  ");
                r.append(path.as_str());
                match function {
                    Some(name) => {
                        r.append(" (");
                        r.append(name.as_str());
                        r.append(")");
                    },
                    None => {},
                }
                r.append(":\n    ");
                r.append(kind.message().as_str());
                r
            },
        }
    }
}

} // verus!
