//! Verification cases resolved against a function's signature: one value per input in
//! the order of the inputs and one expected value per output field in field order.

use vstd::prelude::*;
use vstd::string::*;
use crate::model::{Entry, EnumType, Function, Input, OutputField, Outputs, QuantityRegistry, VerificationCase, VerificationInput};
use crate::validate::{find_key, lookup};
use crate::decision::output_field_names;
use crate::semantic::Function as Implementation;
use crate::semantic::{contains_string, copy_enum_type, field_names, strings_view};
use crate::strings::str_equal;
use crate::validate::member_names;

verus! {

/// Why a function's verification cases cannot be compiled.
#[derive(Debug, PartialEq)]
pub enum CompileError {
    MissingImplementation { function: String },
    UnknownInput { case_id: String, name: String },
    MissingInput { case_id: String, name: String },
    UnknownOutput { case_id: String, name: String },
    MissingOutput { case_id: String, name: String },
    UnknownEnumMember { case_id: String, input: String, member_name: String, enum_name: String },
    NumericInputRequired { case_id: String, input: String },
    EnumInputRequired { case_id: String, input: String, enum_name: String },
    /// An output's quantity is not in the registry.
    UnknownQuantity { function: String, output: String, quantity: String },
    /// An output's unit is not registered for its quantity.
    UnregisteredUnit { function: String, output: String, quantity: String, unit: String },
}

pub enum CompileIssue {
    MissingImplementation(Seq<char>),
    UnknownInput(Seq<char>, Seq<char>),
    MissingInput(Seq<char>, Seq<char>),
    UnknownOutput(Seq<char>, Seq<char>),
    MissingOutput(Seq<char>, Seq<char>),
    UnknownEnumMember(Seq<char>, Seq<char>, Seq<char>, Seq<char>),
    NumericInputRequired(Seq<char>, Seq<char>),
    EnumInputRequired(Seq<char>, Seq<char>, Seq<char>),
    UnknownQuantity(Seq<char>, Seq<char>, Seq<char>),
    UnregisteredUnit(Seq<char>, Seq<char>, Seq<char>, Seq<char>),
}

impl CompileError {
    pub open spec fn issue(&self) -> CompileIssue {
        match self {
            CompileError::MissingImplementation { function } => CompileIssue::MissingImplementation(function@),
            CompileError::UnknownInput { case_id, name } => CompileIssue::UnknownInput(case_id@, name@),
            CompileError::MissingInput { case_id, name } => CompileIssue::MissingInput(case_id@, name@),
            CompileError::UnknownOutput { case_id, name } => CompileIssue::UnknownOutput(case_id@, name@),
            CompileError::MissingOutput { case_id, name } => CompileIssue::MissingOutput(case_id@, name@),
            CompileError::UnknownEnumMember { case_id, input, member_name, enum_name } => CompileIssue::UnknownEnumMember(
                case_id@,
                input@,
                member_name@,
                enum_name@,
            ),
            CompileError::NumericInputRequired { case_id, input } => CompileIssue::NumericInputRequired(case_id@, input@),
            CompileError::EnumInputRequired { case_id, input, enum_name } => CompileIssue::EnumInputRequired(
                case_id@,
                input@,
                enum_name@,
            ),
            CompileError::UnknownQuantity { function, output, quantity } => CompileIssue::UnknownQuantity(
                function@,
                output@,
                quantity@,
            ),
            CompileError::UnregisteredUnit { function, output, quantity, unit } => CompileIssue::UnregisteredUnit(
                function@,
                output@,
                quantity@,
                unit@,
            ),
        }
    }
}

pub open spec fn ticked(name: Seq<char>) -> Seq<char> {
    "`"@ + name + "`"@
}

/// The message of a compile error.
pub open spec fn issue_message(i: CompileIssue) -> Seq<char> {
    match i {
        CompileIssue::MissingImplementation(f) => "compiling "@ + f + ": implementation is unavailable"@,
        CompileIssue::UnknownInput(c, n) => "verification case "@ + ticked(c) + " references unknown input "@ + ticked(n),
        CompileIssue::MissingInput(c, n) => "verification case "@ + ticked(c) + " is missing input "@ + ticked(n),
        CompileIssue::UnknownOutput(c, n) => "verification case "@ + ticked(c) + " references unknown output "@ + ticked(n),
        CompileIssue::MissingOutput(c, n) => "verification case "@ + ticked(c) + " is missing expected output "@ + ticked(n),
        CompileIssue::UnknownEnumMember(c, i, m, e) => "verification case "@ + ticked(c) + " input "@ + ticked(i)
            + " references unknown member "@ + ticked(m) + " of enum "@ + ticked(e),
        CompileIssue::NumericInputRequired(c, i) => "verification case "@ + ticked(c) + " input "@ + ticked(i) + " must be numeric"@,
        CompileIssue::EnumInputRequired(c, i, e) => "verification case "@ + ticked(c) + " input "@ + ticked(i)
            + " must name a member of enum "@ + ticked(e),
        CompileIssue::UnknownQuantity(f, o, q) => "function "@ + ticked(f) + " output "@ + ticked(o)
            + " references unknown quantity "@ + ticked(q),
        CompileIssue::UnregisteredUnit(f, o, q, u) => "function "@ + ticked(f) + " output "@ + ticked(o) + " quantity "@
            + ticked(q) + " has no registered unit "@ + ticked(u),
    }
}

fn append_ticked(r: &mut String, name: &str)
    ensures
        final(r)@ == old(r)@ + ticked(name@),
{
    r.append("`");
    r.append(name);
    r.append("`");
}

impl CompileError {
    /// The message of the error.
    pub fn message(&self) -> (r: String)
        ensures
            r@ == issue_message(self.issue()),
    {
        let mut r = String::new();
        match self {
            CompileError::MissingImplementation { function } => {
                r.append("compiling ");
                r.append(function.as_str());
                r.append(": implementation is unavailable");
            },
            CompileError::UnknownInput { case_id, name } => {
                r.append("verification case ");
                append_ticked(&mut r, case_id.as_str());
                r.append(" references unknown input ");
                append_ticked(&mut r, name.as_str());
            },
            CompileError::MissingInput { case_id, name } => {
                r.append("verification case ");
                append_ticked(&mut r, case_id.as_str());
                r.append(" is missing input ");
                append_ticked(&mut r, name.as_str());
            },
            CompileError::UnknownOutput { case_id, name } => {
                r.append("verification case ");
                append_ticked(&mut r, case_id.as_str());
                r.append(" references unknown output ");
                append_ticked(&mut r, name.as_str());
            },
            CompileError::MissingOutput { case_id, name } => {
                r.append("verification case ");
                append_ticked(&mut r, case_id.as_str());
                r.append(" is missing expected output ");
                append_ticked(&mut r, name.as_str());
            },
            CompileError::UnknownEnumMember { case_id, input, member_name, enum_name } => {
                r.append("verification case ");
                append_ticked(&mut r, case_id.as_str());
                r.append(" input ");
                append_ticked(&mut r, input.as_str());
                r.append(" references unknown member ");
                append_ticked(&mut r, member_name.as_str());
                r.append(" of enum ");
                append_ticked(&mut r, enum_name.as_str());
            },
            CompileError::NumericInputRequired { case_id, input } => {
                r.append("verification case ");
                append_ticked(&mut r, case_id.as_str());
                r.append(" input ");
                append_ticked(&mut r, input.as_str());
                r.append(" must be numeric");
            },
            CompileError::EnumInputRequired { case_id, input, enum_name } => {
                r.append("verification case ");
                append_ticked(&mut r, case_id.as_str());
                r.append(" input ");
                append_ticked(&mut r, input.as_str());
                r.append(" must name a member of enum ");
                append_ticked(&mut r, enum_name.as_str());
            },
            CompileError::UnknownQuantity { function, output, quantity } => {
                r.append("function ");
                append_ticked(&mut r, function.as_str());
                r.append(" output ");
                append_ticked(&mut r, output.as_str());
                r.append(" references unknown quantity ");
                append_ticked(&mut r, quantity.as_str());
            },
            CompileError::UnregisteredUnit { function, output, quantity, unit } => {
                r.append("function ");
                append_ticked(&mut r, function.as_str());
                r.append(" output ");
                append_ticked(&mut r, output.as_str());
                r.append(" quantity ");
                append_ticked(&mut r, quantity.as_str());
                r.append(" has no registered unit ");
                append_ticked(&mut r, unit.as_str());
            },
        }
        r
    }
}

/// The value of an input in a compiled case: a number by its bits, or an enumeration
/// member with the enumeration it belongs to.
#[derive(Debug, PartialEq)]
pub enum CompiledInput {
    Number(u64),
    Enum { enum_type: EnumType, member_name: String },
}

pub enum InputValue {
    Number(u64),
    Enum((Seq<char>, Seq<char>, Option<Seq<char>>), Seq<char>),
}

impl CompiledInput {
    pub open spec fn value(&self) -> InputValue {
        match self {
            CompiledInput::Number(bits) => InputValue::Number(*bits),
            CompiledInput::Enum { enum_type, member_name } => InputValue::Enum(enum_type.identity_view(), member_name@),
        }
    }
}

/// A verification case resolved against its function.
#[derive(Debug, PartialEq)]
pub struct CompiledVerificationCase {
    pub id: String,
    pub inputs: Vec<CompiledInput>,
    pub expected: Vec<u64>,
}

pub struct CaseView {
    pub id: Seq<char>,
    pub inputs: Seq<InputValue>,
    pub expected: Seq<u64>,
}

pub open spec fn input_values(inputs: Seq<CompiledInput>) -> Seq<InputValue> {
    inputs.map_values(|i: CompiledInput| i.value())
}

impl CompiledVerificationCase {
    pub open spec fn case_view(&self) -> CaseView {
        CaseView { id: self.id@, inputs: input_values(self.inputs@), expected: self.expected@ }
    }
}

pub open spec fn cases_view(cases: Seq<CompiledVerificationCase>) -> Seq<CaseView> {
    cases.map_values(|c: CompiledVerificationCase| c.case_view())
}

pub open spec fn input_names(inputs: Seq<Input>) -> Seq<Seq<char>> {
    inputs.map_values(|i: Input| i.spec_name())
}

pub open spec fn given_input_names(entries: Seq<(String, VerificationInput)>) -> Seq<Seq<char>> {
    entries.map_values(|e: (String, VerificationInput)| e.0@)
}

pub open spec fn given_output_names(entries: Seq<(String, u64)>) -> Seq<Seq<char>> {
    entries.map_values(|e: (String, u64)| e.0@)
}

/// The first of `names` that is not among `known`.
pub open spec fn first_unknown(names: Seq<Seq<char>>, known: Seq<Seq<char>>) -> Option<Seq<char>>
    decreases names.len(),
{
    if names.len() == 0 {
        None
    } else if !known.contains(names[0]) {
        Some(names[0])
    } else {
        first_unknown(names.drop_first(), known)
    }
}

/// The value a case gives for the input `name`.
pub open spec fn input_value_for(entries: Seq<(String, VerificationInput)>, name: Seq<char>) -> Option<VerificationInput>
    decreases entries.len(),
{
    if entries.len() == 0 {
        None
    } else if entries[0].0@ == name {
        Some(entries[0].1)
    } else {
        input_value_for(entries.drop_first(), name)
    }
}

/// The value a case expects for the output `name`.
pub open spec fn expected_value_for(entries: Seq<(String, u64)>, name: Seq<char>) -> Option<u64>
    decreases entries.len(),
{
    if entries.len() == 0 {
        None
    } else if entries[0].0@ == name {
        Some(entries[0].1)
    } else {
        expected_value_for(entries.drop_first(), name)
    }
}

/// The value of one input: it must be given, and be a number for a numeric input and
/// a member of the enumeration for an enumeration input.
pub open spec fn compile_input(case: VerificationCase, input: Input) -> Result<InputValue, CompileIssue> {
    let name = input.spec_name();
    match input_value_for(case.inputs@, name) {
        None => Err(CompileIssue::MissingInput(case.id@, name)),
        Some(value) => match (input, value) {
            (Input::Parameter(_), VerificationInput::Number(bits)) => Ok(InputValue::Number(bits)),
            (Input::Enum { definition, .. }, VerificationInput::Enum(member)) => if member_names(definition.values@).contains(
                member@,
            ) {
                Ok(InputValue::Enum(definition.enum_type.identity_view(), member@))
            } else {
                Err(CompileIssue::UnknownEnumMember(case.id@, name, member@, definition.enum_type.name@))
            },
            (Input::Parameter(_), VerificationInput::Enum(_)) => Err(CompileIssue::NumericInputRequired(case.id@, name)),
            (Input::Enum { definition, .. }, VerificationInput::Number(_)) => Err(
                CompileIssue::EnumInputRequired(case.id@, name, definition.enum_type.name@),
            ),
        },
    }
}

pub open spec fn compile_inputs(case: VerificationCase, inputs: Seq<Input>) -> Result<Seq<InputValue>, CompileIssue>
    decreases inputs.len(),
{
    if inputs.len() == 0 {
        Ok(seq![])
    } else {
        match compile_inputs(case, inputs.drop_last()) {
            Ok(values) => match compile_input(case, inputs.last()) {
                Ok(v) => Ok(values.push(v)),
                Err(e) => Err(e),
            },
            Err(e) => Err(e),
        }
    }
}

pub open spec fn compile_expected(case: VerificationCase, fields: Seq<OutputField>) -> Result<Seq<u64>, CompileIssue>
    decreases fields.len(),
{
    if fields.len() == 0 {
        Ok(seq![])
    } else {
        match compile_expected(case, fields.drop_last()) {
            Ok(values) => match expected_value_for(case.expected@, fields.last().name@) {
                Some(v) => Ok(values.push(v)),
                None => Err(CompileIssue::MissingOutput(case.id@, fields.last().name@)),
            },
            Err(e) => Err(e),
        }
    }
}

/// A case compiled against its function: unknown inputs first, then each input in
/// order, then unknown outputs, then each output field in order.
pub open spec fn compile_case(f: Function, case: VerificationCase) -> Result<CaseView, CompileIssue> {
    match first_unknown(given_input_names(case.inputs@), input_names(f.inputs@)) {
        Some(name) => Err(CompileIssue::UnknownInput(case.id@, name)),
        None => match compile_inputs(case, f.inputs@) {
            Err(e) => Err(e),
            Ok(inputs) => match first_unknown(given_output_names(case.expected@), field_names(f.outputs.spec_fields())) {
                Some(name) => Err(CompileIssue::UnknownOutput(case.id@, name)),
                None => match compile_expected(case, f.outputs.spec_fields()) {
                    Err(e) => Err(e),
                    Ok(expected) => Ok(CaseView { id: case.id@, inputs, expected }),
                },
            },
        },
    }
}

/// The function's cases compiled in order; the first error wins.
pub open spec fn compile_cases(f: Function, cases: Seq<VerificationCase>) -> Result<Seq<CaseView>, CompileIssue>
    decreases cases.len(),
{
    if cases.len() == 0 {
        Ok(seq![])
    } else {
        match compile_cases(f, cases.drop_last()) {
            Ok(views) => match compile_case(f, cases.last()) {
                Ok(v) => Ok(views.push(v)),
                Err(e) => Err(e),
            },
            Err(e) => Err(e),
        }
    }
}

fn first_unknown_name(names: &Vec<String>, known: &Vec<String>) -> (r: Option<String>)
    ensures
        r matches Some(n) ==> first_unknown(strings_view(names@), strings_view(known@)) == Some(n@),
        r is None ==> first_unknown(strings_view(names@), strings_view(known@)) is None,
{
    let ghost v = strings_view(names@);
    let ghost k = strings_view(known@);
    let mut i: usize = 0;
    assert(v.skip(0) == v);
    while i < names.len()
        invariant
            i <= names.len(),
            v == strings_view(names@),
            k == strings_view(known@),
            first_unknown(v, k) == first_unknown(v.skip(i as int), k),
        decreases names.len() - i,
    {
        assert(v.skip(i as int)[0] == names@[i as int]@);
        if !contains_string(known, &names[i]) {
            return Some(names[i].clone());
        }
        assert(v.skip(i as int).drop_first() == v.skip(i + 1));
        i = i + 1;
    }
    None
}

fn input_value_of(entries: &Vec<(String, VerificationInput)>, name: &str) -> (r: Option<usize>)
    ensures
        r matches Some(i) ==> i < entries.len() && input_value_for(entries@, name@) == Some(entries@[i as int].1),
        r is None ==> input_value_for(entries@, name@) is None,
{
    let mut i: usize = 0;
    assert(entries@.skip(0) == entries@);
    while i < entries.len()
        invariant
            i <= entries.len(),
            input_value_for(entries@, name@) == input_value_for(entries@.skip(i as int), name@),
        decreases entries.len() - i,
    {
        assert(entries@.skip(i as int)[0] == entries@[i as int]);
        if str_equal(entries[i].0.as_str(), name) {
            return Some(i);
        }
        assert(entries@.skip(i as int).drop_first() == entries@.skip(i + 1));
        i = i + 1;
    }
    None
}

fn expected_value_of(entries: &Vec<(String, u64)>, name: &str) -> (r: Option<u64>)
    ensures
        r == expected_value_for(entries@, name@),
{
    let mut i: usize = 0;
    assert(entries@.skip(0) == entries@);
    while i < entries.len()
        invariant
            i <= entries.len(),
            expected_value_for(entries@, name@) == expected_value_for(entries@.skip(i as int), name@),
        decreases entries.len() - i,
    {
        assert(entries@.skip(i as int)[0] == entries@[i as int]);
        if str_equal(entries[i].0.as_str(), name) {
            return Some(entries[i].1);
        }
        assert(entries@.skip(i as int).drop_first() == entries@.skip(i + 1));
        i = i + 1;
    }
    None
}

fn is_member(values: &Vec<crate::model::EnumValue>, name: &String) -> (r: bool)
    ensures
        r == member_names(values@).contains(name@),
{
    let mut i: usize = 0;
    while i < values.len()
        invariant
            i <= values.len(),
            forall|j: int| 0 <= j < i ==> values@[j].name@ != name@,
        decreases values.len() - i,
    {
        if str_equal(values[i].name.as_str(), name.as_str()) {
            assert(member_names(values@)[i as int] == name@);
            return true;
        }
        i = i + 1;
    }
    assert forall|j: int| 0 <= j < member_names(values@).len() implies member_names(values@)[j] != name@ by {
        assert(member_names(values@)[j] == values@[j].name@);
    }
    false
}

fn compile_one_input(case: &VerificationCase, input: &Input) -> (r: Result<CompiledInput, CompileError>)
    ensures
        match r {
            Ok(v) => compile_input(*case, *input) == Ok::<InputValue, CompileIssue>(v.value()),
            Err(e) => compile_input(*case, *input) == Err::<InputValue, CompileIssue>(e.issue()),
        },
{
    let name = input.name();
    let position = match input_value_of(&case.inputs, name) {
        Some(i) => i,
        None => {
            return Err(CompileError::MissingInput { case_id: case.id.clone(), name: name.to_owned() });
        },
    };
    match (input, &case.inputs[position].1) {
        (Input::Parameter(_), VerificationInput::Number(bits)) => Ok(CompiledInput::Number(*bits)),
        (Input::Enum { definition, .. }, VerificationInput::Enum(member)) => {
            if is_member(&definition.values, member) {
                Ok(CompiledInput::Enum { enum_type: copy_enum_type(&definition.enum_type), member_name: member.clone() })
            } else {
                Err(
                    CompileError::UnknownEnumMember {
                        case_id: case.id.clone(),
                        input: name.to_owned(),
                        member_name: member.clone(),
                        enum_name: definition.enum_type.name.clone(),
                    },
                )
            }
        },
        (Input::Parameter(_), VerificationInput::Enum(_)) => Err(
            CompileError::NumericInputRequired { case_id: case.id.clone(), input: name.to_owned() },
        ),
        (Input::Enum { definition, .. }, VerificationInput::Number(_)) => Err(
            CompileError::EnumInputRequired {
                case_id: case.id.clone(),
                input: name.to_owned(),
                enum_name: definition.enum_type.name.clone(),
            },
        ),
    }
}

proof fn lemma_inputs_error(case: VerificationCase, inputs: Seq<Input>, m: int)
    requires
        0 <= m <= inputs.len(),
        compile_inputs(case, inputs.take(m)) is Err,
    ensures
        compile_inputs(case, inputs) == compile_inputs(case, inputs.take(m)),
    decreases inputs.len() - m,
{
    if m < inputs.len() {
        assert(inputs.take(m + 1).drop_last() == inputs.take(m));
        lemma_inputs_error(case, inputs, m + 1);
    } else {
        assert(inputs.take(m) == inputs);
    }
}

proof fn lemma_expected_error(case: VerificationCase, fields: Seq<OutputField>, m: int)
    requires
        0 <= m <= fields.len(),
        compile_expected(case, fields.take(m)) is Err,
    ensures
        compile_expected(case, fields) == compile_expected(case, fields.take(m)),
    decreases fields.len() - m,
{
    if m < fields.len() {
        assert(fields.take(m + 1).drop_last() == fields.take(m));
        lemma_expected_error(case, fields, m + 1);
    } else {
        assert(fields.take(m) == fields);
    }
}

proof fn lemma_cases_error(f: Function, cases: Seq<VerificationCase>, m: int)
    requires
        0 <= m <= cases.len(),
        compile_cases(f, cases.take(m)) is Err,
    ensures
        compile_cases(f, cases) == compile_cases(f, cases.take(m)),
    decreases cases.len() - m,
{
    if m < cases.len() {
        assert(cases.take(m + 1).drop_last() == cases.take(m));
        lemma_cases_error(f, cases, m + 1);
    } else {
        assert(cases.take(m) == cases);
    }
}

fn first_names_of_inputs(entries: &Vec<(String, VerificationInput)>) -> (r: Vec<String>)
    ensures
        strings_view(r@) == given_input_names(entries@),
{
    let mut r: Vec<String> = Vec::new();
    let mut i: usize = 0;
    while i < entries.len()
        invariant
            i <= entries.len(),
            strings_view(r@) == given_input_names(entries@).take(i as int),
        decreases entries.len() - i,
    {
        let ghost prev = strings_view(r@);
        r.push(entries[i].0.clone());
        assert(strings_view(r@) =~= prev.push(entries@[i as int].0@));
        assert(given_input_names(entries@).take(i + 1) =~= given_input_names(entries@).take(i as int).push(entries@[i as int].0@));
        i = i + 1;
    }
    assert(given_input_names(entries@).take(entries.len() as int) =~= given_input_names(entries@));
    r
}

fn first_names_of_outputs(entries: &Vec<(String, u64)>) -> (r: Vec<String>)
    ensures
        strings_view(r@) == given_output_names(entries@),
{
    let mut r: Vec<String> = Vec::new();
    let mut i: usize = 0;
    while i < entries.len()
        invariant
            i <= entries.len(),
            strings_view(r@) == given_output_names(entries@).take(i as int),
        decreases entries.len() - i,
    {
        let ghost prev = strings_view(r@);
        r.push(entries[i].0.clone());
        assert(strings_view(r@) =~= prev.push(entries@[i as int].0@));
        assert(given_output_names(entries@).take(i + 1) =~= given_output_names(entries@).take(i as int).push(entries@[i as int].0@));
        i = i + 1;
    }
    assert(given_output_names(entries@).take(entries.len() as int) =~= given_output_names(entries@));
    r
}

fn names_of_inputs(inputs: &Vec<Input>) -> (r: Vec<String>)
    ensures
        strings_view(r@) == input_names(inputs@),
{
    let mut r: Vec<String> = Vec::new();
    let mut i: usize = 0;
    while i < inputs.len()
        invariant
            i <= inputs.len(),
            strings_view(r@) == input_names(inputs@).take(i as int),
        decreases inputs.len() - i,
    {
        let ghost prev = strings_view(r@);
        r.push(inputs[i].name().to_owned());
        assert(strings_view(r@) =~= prev.push(inputs@[i as int].spec_name()));
        assert(input_names(inputs@).take(i + 1) =~= input_names(inputs@).take(i as int).push(inputs@[i as int].spec_name()));
        i = i + 1;
    }
    assert(input_names(inputs@).take(inputs.len() as int) =~= input_names(inputs@));
    r
}

fn names_of_fields(fields: &[OutputField]) -> (r: Vec<String>)
    ensures
        strings_view(r@) == field_names(fields@),
{
    let mut r: Vec<String> = Vec::new();
    let mut i: usize = 0;
    while i < fields.len()
        invariant
            i <= fields.len(),
            strings_view(r@) == field_names(fields@).take(i as int),
        decreases fields.len() - i,
    {
        let ghost prev = strings_view(r@);
        r.push(fields[i].name.clone());
        assert(strings_view(r@) =~= prev.push(fields@[i as int].name@));
        assert(field_names(fields@).take(i + 1) =~= field_names(fields@).take(i as int).push(fields@[i as int].name@));
        i = i + 1;
    }
    assert(field_names(fields@).take(fields.len() as int) =~= field_names(fields@));
    r
}

/// Compiles one verification case of `function`.
pub fn compile_verification_case(function: &Function, case: &VerificationCase) -> (r: Result<CompiledVerificationCase, CompileError>)
    ensures
        match r {
            Ok(c) => compile_case(*function, *case) == Ok::<CaseView, CompileIssue>(c.case_view()),
            Err(e) => compile_case(*function, *case) == Err::<CaseView, CompileIssue>(e.issue()),
        },
{
    let known_inputs = names_of_inputs(&function.inputs);
    let given_inputs = first_names_of_inputs(&case.inputs);
    match first_unknown_name(&given_inputs, &known_inputs) {
        Some(name) => {
            return Err(CompileError::UnknownInput { case_id: case.id.clone(), name });
        },
        None => {},
    }
    let mut inputs: Vec<CompiledInput> = Vec::new();
    let mut i: usize = 0;
    assert(function.inputs@.take(0) =~= Seq::<Input>::empty());
    assert(input_values(inputs@) =~= Seq::<InputValue>::empty());
    while i < function.inputs.len()
        invariant
            i <= function.inputs.len(),
            first_unknown(given_input_names(case.inputs@), input_names(function.inputs@)) is None,
            compile_inputs(*case, function.inputs@.take(i as int)) == Ok::<Seq<InputValue>, CompileIssue>(input_values(inputs@)),
        decreases function.inputs.len() - i,
    {
        assert(function.inputs@.take(i + 1).drop_last() == function.inputs@.take(i as int));
        assert(function.inputs@.take(i + 1).last() == function.inputs@[i as int]);
        match compile_one_input(case, &function.inputs[i]) {
            Ok(v) => {
                let ghost prev = input_values(inputs@);
                let ghost value = v.value();
                inputs.push(v);
                assert(input_values(inputs@) =~= prev.push(value));
            },
            Err(e) => {
                proof {
                    lemma_inputs_error(*case, function.inputs@, i + 1);
                }
                return Err(e);
            },
        }
        i = i + 1;
    }
    assert(function.inputs@.take(function.inputs.len() as int) == function.inputs@);
    let fields = function.outputs.fields();
    let known_outputs = names_of_fields(fields);
    let given_outputs = first_names_of_outputs(&case.expected);
    match first_unknown_name(&given_outputs, &known_outputs) {
        Some(name) => {
            return Err(CompileError::UnknownOutput { case_id: case.id.clone(), name });
        },
        None => {},
    }
    let mut expected: Vec<u64> = Vec::new();
    let mut i: usize = 0;
    assert(fields@.take(0) =~= Seq::<OutputField>::empty());
    while i < fields.len()
        invariant
            i <= fields.len(),
            first_unknown(given_input_names(case.inputs@), input_names(function.inputs@)) is None,
            compile_inputs(*case, function.inputs@) == Ok::<Seq<InputValue>, CompileIssue>(input_values(inputs@)),
            first_unknown(given_output_names(case.expected@), field_names(function.outputs.spec_fields())) is None,
            fields@ == function.outputs.spec_fields(),
            compile_expected(*case, fields@.take(i as int)) == Ok::<Seq<u64>, CompileIssue>(expected@),
        decreases fields.len() - i,
    {
        assert(fields@.take(i + 1).drop_last() == fields@.take(i as int));
        assert(fields@.take(i + 1).last() == fields@[i as int]);
        match expected_value_of(&case.expected, fields[i].name.as_str()) {
            Some(v) => {
                expected.push(v);
            },
            None => {
                proof {
                    lemma_expected_error(*case, fields@, i + 1);
                }
                return Err(CompileError::MissingOutput { case_id: case.id.clone(), name: fields[i].name.clone() });
            },
        }
        i = i + 1;
    }
    assert(fields@.take(fields.len() as int) == fields@);
    Ok(CompiledVerificationCase { id: case.id.clone(), inputs, expected })
}

/// Compiles every verification case of `function`, in order.
pub fn verification_cases(function: &Function) -> (r: Result<Vec<CompiledVerificationCase>, CompileError>)
    ensures
        match r {
            Ok(cases) => compile_cases(*function, function.verification_cases@) == Ok::<Seq<CaseView>, CompileIssue>(
                cases_view(cases@),
            ),
            Err(e) => compile_cases(*function, function.verification_cases@) == Err::<Seq<CaseView>, CompileIssue>(e.issue()),
        },
{
    let mut compiled: Vec<CompiledVerificationCase> = Vec::new();
    let mut i: usize = 0;
    assert(function.verification_cases@.take(0) =~= Seq::<VerificationCase>::empty());
    assert(cases_view(compiled@) =~= Seq::<CaseView>::empty());
    while i < function.verification_cases.len()
        invariant
            i <= function.verification_cases.len(),
            compile_cases(*function, function.verification_cases@.take(i as int)) == Ok::<Seq<CaseView>, CompileIssue>(
                cases_view(compiled@),
            ),
        decreases function.verification_cases.len() - i,
    {
        assert(function.verification_cases@.take(i + 1).drop_last() == function.verification_cases@.take(i as int));
        assert(function.verification_cases@.take(i + 1).last() == function.verification_cases@[i as int]);
        match compile_verification_case(function, &function.verification_cases[i]) {
            Ok(c) => {
                let ghost prev = cases_view(compiled@);
                let ghost view = c.case_view();
                compiled.push(c);
                assert(cases_view(compiled@) =~= prev.push(view));
            },
            Err(e) => {
                proof {
                    lemma_cases_error(*function, function.verification_cases@, i + 1);
                }
                return Err(e);
            },
        }
        i = i + 1;
    }
    assert(function.verification_cases@.take(function.verification_cases.len() as int) == function.verification_cases@);
    Ok(compiled)
}

/// The shape of a function's result: one number, or a record of the named fields.
#[derive(Debug, PartialEq)]
pub enum Output {
    Scalar,
    Struct(Vec<String>),
}

/// What the generated code of a function needs: its name, its inputs' names and the
/// shape of its result.
#[derive(Debug, PartialEq)]
pub struct CoreFunction {
    pub name: String,
    pub inputs: Vec<String>,
    pub output: Output,
}

/// Where an output's verification tolerance comes from.
#[derive(Debug, PartialEq)]
pub enum ToleranceSource {
    /// The quantity registry's tolerance for the output's quantity and unit.
    Registry,
    /// The function's override, written at this source location.
    SourceOverride(String),
}

/// The tolerance with which an output is verified: its quantity and unit, and where
/// the tolerance comes from.
#[derive(Debug, PartialEq)]
pub struct CompiledTolerance {
    pub quantity: String,
    pub unit: String,
    pub source: ToleranceSource,
}

/// A function that code is generated for, compiled: the entry and function it is, its
/// core, its verification cases and the tolerance of each output field.
#[derive(Debug)]
pub struct CompiledFunction {
    pub entry_index: usize,
    pub function_index: usize,
    pub core: CoreFunction,
    pub verification_cases: Vec<CompiledVerificationCase>,
    pub output_tolerances: Vec<CompiledTolerance>,
}

pub enum SourceView {
    Registry,
    SourceOverride(Seq<char>),
}

/// A compiled function as values: entry and function position, name, input names,
/// record fields (`None` for a scalar), cases and tolerances.
pub struct CompiledView {
    pub entry: int,
    pub function: int,
    pub name: Seq<char>,
    pub inputs: Seq<Seq<char>>,
    pub fields: Option<Seq<Seq<char>>>,
    pub cases: Seq<CaseView>,
    pub tolerances: Seq<(Seq<char>, Seq<char>, SourceView)>,
}

impl ToleranceSource {
    pub open spec fn source_view(&self) -> SourceView {
        match self {
            ToleranceSource::Registry => SourceView::Registry,
            ToleranceSource::SourceOverride(l) => SourceView::SourceOverride(l@),
        }
    }
}

impl CompiledTolerance {
    pub open spec fn tolerance_view(&self) -> (Seq<char>, Seq<char>, SourceView) {
        (self.quantity@, self.unit@, self.source.source_view())
    }
}

pub open spec fn tolerances_view(t: Seq<CompiledTolerance>) -> Seq<(Seq<char>, Seq<char>, SourceView)> {
    t.map_values(|x: CompiledTolerance| x.tolerance_view())
}

impl CompiledFunction {
    pub open spec fn compiled_view(&self) -> CompiledView {
        CompiledView {
            entry: self.entry_index as int,
            function: self.function_index as int,
            name: self.core.name@,
            inputs: strings_view(self.core.inputs@),
            fields: match self.core.output {
                Output::Scalar => None,
                Output::Struct(fields) => Some(strings_view(fields@)),
            },
            cases: cases_view(self.verification_cases@),
            tolerances: tolerances_view(self.output_tolerances@),
        }
    }
}

pub open spec fn compiled_views(c: Seq<CompiledFunction>) -> Seq<CompiledView> {
    c.map_values(|x: CompiledFunction| x.compiled_view())
}

/// Whether code is generated for a function of this status.
pub open spec fn generates_code(status: Seq<char>) -> bool {
    status == "implemented"@ || status == "ready-for-implementation"@
}

/// The tolerance of an output field: the function's override when it has one, else the
/// registry's for the field's quantity and unit.
pub open spec fn tolerance_of(f: Function, field: OutputField, registry: QuantityRegistry) -> Result<(Seq<char>, Seq<char>, SourceView), CompileIssue> {
    match lookup(f.verification_tolerances@, field.name@) {
        Some(o) => Ok((field.quantity@, field.unit@, SourceView::SourceOverride(o.source_location@))),
        None => match lookup(registry.quantities@, field.quantity@) {
            None => Err(CompileIssue::UnknownQuantity(f.name@, field.name@, field.quantity@)),
            Some(q) => match lookup(q.units@, field.unit@) {
                None => Err(CompileIssue::UnregisteredUnit(f.name@, field.name@, field.quantity@, field.unit@)),
                Some(_) => Ok((field.quantity@, field.unit@, SourceView::Registry)),
            },
        },
    }
}

/// The tolerances of the fields in order; the first error wins.
pub open spec fn tolerances_of(f: Function, fields: Seq<OutputField>, registry: QuantityRegistry) -> Result<Seq<(Seq<char>, Seq<char>, SourceView)>, CompileIssue>
    decreases fields.len(),
{
    if fields.len() == 0 {
        Ok(seq![])
    } else {
        match tolerances_of(f, fields.drop_last(), registry) {
            Err(e) => Err(e),
            Ok(t) => match tolerance_of(f, fields.last(), registry) {
                Err(e) => Err(e),
                Ok(x) => Ok(t.push(x)),
            },
        }
    }
}

/// One function compiled: its implementation must be there; then its cases, then its
/// tolerances.
pub open spec fn compile_function(
    entry: int,
    index: int,
    f: Function,
    has_implementation: bool,
    registry: QuantityRegistry,
) -> Result<CompiledView, CompileIssue> {
    if !has_implementation {
        Err(CompileIssue::MissingImplementation(f.name@))
    } else {
        match compile_cases(f, f.verification_cases@) {
            Err(e) => Err(e),
            Ok(cases) => match tolerances_of(f, f.outputs.spec_fields(), registry) {
                Err(e) => Err(e),
                Ok(tolerances) => Ok(CompiledView {
                    entry,
                    function: index,
                    name: f.name@,
                    inputs: input_names(f.inputs@),
                    fields: match f.outputs {
                        Outputs::Scalar { .. } => None,
                        Outputs::Record { fields, .. } => Some(field_names(fields@)),
                    },
                    cases,
                    tolerances,
                }),
            },
        }
    }
}

/// Whether the function at (`entry`, `index`) has a compiled implementation.
pub open spec fn implemented(implementations: Seq<Seq<bool>>, entry: int, index: int) -> bool {
    0 <= entry < implementations.len() && 0 <= index < implementations[entry].len() && implementations[entry][index]
}

/// The functions of `entries[entry]` from position `index` on that code is generated
/// for, compiled in order onto `done`; the first error wins.
pub open spec fn compile_from(
    entries: Seq<Entry>,
    implementations: Seq<Seq<bool>>,
    registry: QuantityRegistry,
    entry: int,
    index: int,
) -> Result<Seq<CompiledView>, CompileIssue>
    decreases entries.len() - entry, entries[entry].spec.functions.len() - index,
{
    if entry < 0 || entry >= entries.len() {
        Ok(seq![])
    } else if index < 0 || index >= entries[entry].spec.functions.len() {
        compile_from(entries, implementations, registry, entry + 1, 0)
    } else {
        let f = entries[entry].spec.functions@[index];
        if !generates_code(f.status@) {
            compile_from(entries, implementations, registry, entry, index + 1)
        } else {
            match compile_function(entry, index, f, implemented(implementations, entry, index), registry) {
                Err(e) => Err(e),
                Ok(c) => match compile_from(entries, implementations, registry, entry, index + 1) {
                    Err(e) => Err(e),
                    Ok(rest) => Ok(seq![c] + rest),
                },
            }
        }
    }
}

/// The tolerance of one output field (see `tolerance_of`).
pub fn output_tolerance(function: &Function, field: &OutputField, registry: &QuantityRegistry) -> (r: Result<CompiledTolerance, CompileError>)
    ensures
        match tolerance_of(*function, *field, *registry) {
            Ok(v) => r matches Ok(t) && t.tolerance_view() == v,
            Err(e) => r matches Err(x) && x.issue() == e,
        },
{
    match find_key(&function.verification_tolerances, field.name.as_str()) {
        Some(k) => {
            return Ok(
                CompiledTolerance {
                    quantity: field.quantity.clone(),
                    unit: field.unit.clone(),
                    source: ToleranceSource::SourceOverride(function.verification_tolerances[k].1.source_location.clone()),
                },
            );
        },
        None => {},
    }
    let q = match find_key(&registry.quantities, field.quantity.as_str()) {
        Some(q) => q,
        None => {
            return Err(
                CompileError::UnknownQuantity {
                    function: function.name.clone(),
                    output: field.name.clone(),
                    quantity: field.quantity.clone(),
                },
            );
        },
    };
    match find_key(&registry.quantities[q].1.units, field.unit.as_str()) {
        Some(_) => Ok(CompiledTolerance { quantity: field.quantity.clone(), unit: field.unit.clone(), source: ToleranceSource::Registry }),
        None => Err(
            CompileError::UnregisteredUnit {
                function: function.name.clone(),
                output: field.name.clone(),
                quantity: field.quantity.clone(),
                unit: field.unit.clone(),
            },
        ),
    }
}

/// The tolerance of each output field in field order; the first error wins.
pub fn output_tolerances(function: &Function, registry: &QuantityRegistry) -> (r: Result<Vec<CompiledTolerance>, CompileError>)
    ensures
        match tolerances_of(*function, function.outputs.spec_fields(), *registry) {
            Ok(v) => r matches Ok(t) && tolerances_view(t@) == v,
            Err(e) => r matches Err(x) && x.issue() == e,
        },
{
    let fields = function.outputs.fields();
    let ghost fs = function.outputs.spec_fields();
    let mut out: Vec<CompiledTolerance> = Vec::new();
    let mut k: usize = 0;
    assert(fs.take(0) =~= Seq::<OutputField>::empty());
    assert(tolerances_view(out@) =~= Seq::<(Seq<char>, Seq<char>, SourceView)>::empty());
    while k < fields.len()
        invariant
            k <= fields.len(),
            fields@ == fs,
            fs == function.outputs.spec_fields(),
            tolerances_of(*function, fs.take(k as int), *registry) == Ok::<Seq<(Seq<char>, Seq<char>, SourceView)>, CompileIssue>(
                tolerances_view(out@),
            ),
        decreases fields.len() - k,
    {
        assert(fs.take(k + 1).drop_last() =~= fs.take(k as int));
        assert(fs.take(k + 1).last() == fs[k as int]);
        match output_tolerance(function, &fields[k], registry) {
            Ok(t) => {
                let ghost before = tolerances_view(out@);
                out.push(t);
                assert(tolerances_view(out@) =~= before.push(t.tolerance_view()));
            },
            Err(e) => {
                assert(tolerances_of(*function, fs.take(k + 1), *registry) == Err::<Seq<(Seq<char>, Seq<char>, SourceView)>, CompileIssue>(
                    e.issue(),
                ));
                proof {
                    lemma_tolerances_error(*function, fs, *registry, k + 1);
                }
                return Err(e);
            },
        }
        k = k + 1;
    }
    assert(fs.take(fields.len() as int) =~= fs);
    Ok(out)
}

/// Once the fields up to `n` fail, every longer prefix fails the same way.
proof fn lemma_tolerances_error(f: Function, fields: Seq<OutputField>, registry: QuantityRegistry, n: int)
    requires
        0 <= n <= fields.len(),
        tolerances_of(f, fields.take(n), registry) is Err,
    ensures
        tolerances_of(f, fields, registry) == tolerances_of(f, fields.take(n), registry),
    decreases fields.len() - n,
{
    if n < fields.len() {
        assert(fields.take(n + 1).drop_last() =~= fields.take(n));
        lemma_tolerances_error(f, fields, registry, n + 1);
    } else {
        assert(fields.take(n) =~= fields);
    }
}

/// One function compiled (see `compile_function`).
pub fn compile_function_at(
    entry_index: usize,
    function_index: usize,
    function: &Function,
    has_implementation: bool,
    registry: &QuantityRegistry,
) -> (r: Result<CompiledFunction, CompileError>)
    ensures
        match compile_function(entry_index as int, function_index as int, *function, has_implementation, *registry) {
            Ok(v) => r matches Ok(c) && c.compiled_view() == v,
            Err(e) => r matches Err(x) && x.issue() == e,
        },
{
    if !has_implementation {
        return Err(CompileError::MissingImplementation { function: function.name.clone() });
    }
    let output = match &function.outputs {
        Outputs::Scalar { .. } => Output::Scalar,
        Outputs::Record { fields, .. } => Output::Struct(output_field_names(fields)),
    };
    let core = CoreFunction { name: function.name.clone(), inputs: names_of_inputs(&function.inputs), output };
    let verification_cases = match verification_cases(function) {
        Ok(c) => c,
        Err(e) => {
            return Err(e);
        },
    };
    let output_tolerances = match output_tolerances(function, registry) {
        Ok(t) => t,
        Err(e) => {
            return Err(e);
        },
    };
    Ok(CompiledFunction { entry_index, function_index, core, verification_cases, output_tolerances })
}

/// Which functions of each entry have a compiled implementation.
pub open spec fn implementation_flags(implementations: Seq<Vec<Option<Implementation>>>) -> Seq<Seq<bool>> {
    implementations.map_values(|v: Vec<Option<Implementation>>| v@.map_values(|o: Option<Implementation>| o is Some))
}

pub open spec fn after(done: Seq<CompiledView>, r: Result<Seq<CompiledView>, CompileIssue>) -> Result<Seq<CompiledView>, CompileIssue> {
    match r {
        Ok(rest) => Ok(done + rest),
        Err(e) => Err(e),
    }
}

fn generates(status: &str) -> (r: bool)
    ensures
        r == generates_code(status@),
{
    str_equal(status, "implemented") || str_equal(status, "ready-for-implementation")
}

/// Compiles every function that code is generated for (status `implemented` or
/// `ready-for-implementation`), entry by entry in order: each needs its implementation
/// (`implementations[e][i]`), then its verification cases compile, then each output gets
/// a tolerance. The first error wins.
pub fn functions(
    entries: &Vec<Entry>,
    implementations: &Vec<Vec<Option<Implementation>>>,
    registry: &QuantityRegistry,
) -> (r: Result<Vec<CompiledFunction>, CompileError>)
    ensures
        match compile_from(entries@, implementation_flags(implementations@), *registry, 0, 0) {
            Ok(v) => r matches Ok(c) && compiled_views(c@) == v,
            Err(e) => r matches Err(x) && x.issue() == e,
        },
{
    let ghost flags = implementation_flags(implementations@);
    let ghost total = compile_from(entries@, flags, *registry, 0, 0);
    let mut compiled: Vec<CompiledFunction> = Vec::new();
    let mut e: usize = 0;
    assert(compiled_views(compiled@) =~= Seq::<CompiledView>::empty());
    assert(after(compiled_views(compiled@), total) =~~= total);
    while e < entries.len()
        invariant
            e <= entries.len(),
            flags == implementation_flags(implementations@),
            total == compile_from(entries@, flags, *registry, 0, 0),
            total == after(compiled_views(compiled@), compile_from(entries@, flags, *registry, e as int, 0)),
        decreases entries.len() - e,
    {
        let functions = &entries[e].spec.functions;
        let mut i: usize = 0;
        while i < functions.len()
            invariant
                e < entries.len(),
                i <= functions.len(),
                *functions == entries@[e as int].spec.functions,
                flags == implementation_flags(implementations@),
                total == compile_from(entries@, flags, *registry, 0, 0),
                total == after(compiled_views(compiled@), compile_from(entries@, flags, *registry, e as int, i as int)),
            decreases functions.len() - i,
        {
            let f = &functions[i];
            if generates(f.status.as_str()) {
                let has = e < implementations.len() && i < implementations[e].len() && implementations[e][i].is_some();
                assert(has == implemented(flags, e as int, i as int));
                match compile_function_at(e, i, f, has, registry) {
                    Ok(c) => {
                        let ghost done = compiled_views(compiled@);
                        compiled.push(c);
                        assert(compiled_views(compiled@) =~= done.push(c.compiled_view()));
                        assert forall|rest: Seq<CompiledView>| done + (seq![c.compiled_view()] + rest) == done.push(c.compiled_view()) + rest by {
                            assert(done + (seq![c.compiled_view()] + rest) =~= done.push(c.compiled_view()) + rest);
                        }
                    },
                    Err(x) => {
                        return Err(x);
                    },
                }
            }
            i = i + 1;
        }
        e = e + 1;
    }
    assert(compiled_views(compiled@) + Seq::<CompiledView>::empty() =~= compiled_views(compiled@));
    Ok(compiled)
}

} // verus!
