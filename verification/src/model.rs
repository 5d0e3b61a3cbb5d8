//! The specification model: sources, functions, inputs, outputs and shared definitions.

use vstd::prelude::*;
use vstd::string::*;
use crate::formula;

verus! {

/// A publication that a specification transcribes.
#[derive(Debug)]
pub struct Source {
    pub summary: String,
    pub citation_apa: String,
    pub doi: Option<Doi>,
}

#[derive(Debug)]
pub struct Doi {
    pub identifier: String,
    pub url: String,
}

/// Where a source's models apply.
#[derive(Debug)]
pub struct Scope {
    pub territory: Option<String>,
    pub dataset: Option<String>,
}

/// A numeric input or a record field declared by its measurement.
#[derive(Debug)]
pub struct Parameter {
    pub name: String,
    pub unit: String,
    pub domain: Option<String>,
    pub description: String,
}

/// An output value: its quantity, its unit in the registry and its source notation.
#[derive(Debug, PartialEq, Clone)]
pub struct OutputField {
    pub name: String,
    pub quantity: String,
    pub symbol: Option<String>,
    pub unit: String,
    pub reported_unit: String,
    pub domain: Option<String>,
    pub description: String,
}

/// The identity of an enumeration: the document that defines it, its name and,
/// for a shared definition, its shared module.
#[derive(Debug, PartialEq, Clone)]
pub struct EnumType {
    pub document: String,
    pub name: String,
    pub shared_module: Option<String>,
}

impl EnumType {
    pub open spec fn identity_view(&self) -> (Seq<char>, Seq<char>, Option<Seq<char>>) {
        (self.document@, self.name@, match self.shared_module { Some(m) => Some(m@), None => None })
    }
}

/// One member of an enumeration.
#[derive(Debug, PartialEq, Clone)]
pub struct EnumValue {
    pub name: String,
    pub value: String,
    pub description: Option<String>,
}

/// An enumeration definition.
#[derive(Debug, PartialEq, Clone)]
pub struct EnumDefinition {
    pub enum_type: EnumType,
    pub description: String,
    pub values: Vec<EnumValue>,
}

impl EnumDefinition {
    /// The identity of the enumeration.
    pub fn identity(&self) -> (r: &EnumType)
        ensures
            r == &self.enum_type,
    {
        &self.enum_type
    }

    /// Whether the enumeration is defined in a shared module.
    pub fn is_shared(&self) -> (r: bool)
        ensures
            r == self.enum_type.shared_module.is_some(),
    {
        self.enum_type.shared_module.is_some()
    }

    /// The shared module that defines the enumeration, if any.
    pub fn shared_document(&self) -> (r: Option<&str>)
        ensures
            match self.enum_type.shared_module {
                Some(m) => r is Some && r->0@ == m@,
                None => r is None,
            },
    {
        match &self.enum_type.shared_module {
            Some(m) => Some(m.as_str()),
            None => None,
        }
    }
}

/// A function input: a measured parameter or a named enumeration.
#[derive(Debug)]
pub enum Input {
    Parameter(Parameter),
    Enum { name: String, description: Option<String>, definition: EnumDefinition },
}

impl Input {
    pub open spec fn spec_name(&self) -> Seq<char> {
        match self {
            Input::Parameter(p) => p.name@,
            Input::Enum { name, .. } => name@,
        }
    }

    pub open spec fn spec_description(&self) -> Seq<char> {
        match self {
            Input::Parameter(p) => p.description@,
            Input::Enum { description, .. } => match description {
                Some(d) => d@,
                None => Seq::empty(),
            },
        }
    }

    pub open spec fn spec_unit(&self) -> Option<Seq<char>> {
        match self {
            Input::Parameter(p) => Some(p.unit@),
            Input::Enum { .. } => None,
        }
    }

    /// The input's name.
    pub fn name(&self) -> (r: &str)
        ensures
            r@ == self.spec_name(),
    {
        match self {
            Input::Parameter(p) => p.name.as_str(),
            Input::Enum { name, .. } => name.as_str(),
        }
    }

    /// The input's description; an enumeration input without one has an empty description.
    pub fn description(&self) -> (r: &str)
        ensures
            r@ == self.spec_description(),
    {
        match self {
            Input::Parameter(p) => p.description.as_str(),
            Input::Enum { description, .. } => match description {
                Some(d) => d.as_str(),
                None => {
                    proof {
                        reveal_strlit("");
                    }
                    ""
                },
            },
        }
    }

    /// The unit of a parameter; enumerations have none.
    pub fn unit(&self) -> (r: Option<&str>)
        ensures
            match self.spec_unit() {
                Some(u) => r is Some && r->0@ == u,
                None => r is None,
            },
    {
        match self {
            Input::Parameter(p) => Some(p.unit.as_str()),
            Input::Enum { .. } => None,
        }
    }

    /// The domain of a parameter, if declared; enumerations have none.
    pub fn domain(&self) -> (r: Option<&str>)
        ensures
            match self {
                Input::Parameter(p) => match p.domain {
                    Some(d) => r is Some && r->0@ == d@,
                    None => r is None,
                },
                Input::Enum { .. } => r is None,
            },
    {
        match self {
            Input::Parameter(p) => match &p.domain {
                Some(d) => Some(d.as_str()),
                None => None,
            },
            Input::Enum { .. } => None,
        }
    }

    /// The enumeration of an enumeration input.
    pub fn enum_type(&self) -> (r: Option<&EnumDefinition>)
        ensures
            match self {
                Input::Parameter(_) => r is None,
                Input::Enum { definition, .. } => r == Some(definition),
            },
    {
        match self {
            Input::Parameter(_) => None,
            Input::Enum { definition, .. } => Some(definition),
        }
    }
}

/// The outputs of a function: one scalar field or a named record of fields.
#[derive(Debug, PartialEq, Clone)]
pub enum Outputs {
    Scalar { field: OutputField },
    Record { name: String, fields: Vec<OutputField> },
}

impl Outputs {
    pub open spec fn spec_fields(&self) -> Seq<OutputField> {
        match self {
            Outputs::Scalar { field } => seq![*field],
            Outputs::Record { fields, .. } => fields@,
        }
    }

    /// The output fields, in declaration order.
    pub fn fields(&self) -> (r: &[OutputField])
        ensures
            r@ == self.spec_fields(),
    {
        match self {
            Outputs::Scalar { field } => slice_of_one(field),
            Outputs::Record { fields, .. } => fields.as_slice(),
        }
    }
}

/// The public name and summary of a function.
#[derive(Debug)]
pub struct PublicApi {
    pub name: String,
    pub result_class: Option<String>,
    pub summary: String,
}

/// The models a function belongs to.
#[derive(Debug)]
pub struct Models {
    pub h_theta: Option<String>,
    pub k_h: Option<String>,
}

/// Where and what a function predicts.
#[derive(Debug)]
pub struct FunctionScope {
    pub territory: Option<String>,
    pub prediction_target: String,
    pub models: Models,
}

/// Notes and warnings attached to a function.
#[derive(Debug)]
pub struct Documentation {
    pub notes: Vec<String>,
    pub warnings: Vec<String>,
}

/// A pedotransfer function as its specification declares it.
#[derive(Debug)]
pub struct Function {
    pub name: String,
    pub status: String,
    pub public_api: PublicApi,
    pub scope: FunctionScope,
    pub inputs: Vec<Input>,
    pub outputs: Outputs,
    /// Per-output tolerance overrides, by output name in ascending order.
    pub verification_tolerances: Vec<(String, ToleranceOverride)>,
    pub verification_cases: Vec<VerificationCase>,
    pub edge_cases: Vec<serde_json::Value>,
    pub documentation: Documentation,
}

/// A specification file: its source, scope, notes and functions.
#[derive(Debug)]
pub struct Spec {
    pub source: Source,
    pub scope: Scope,
    pub scientific_notes: String,
    pub functions: Vec<Function>,
}

/// A loaded specification file, its path and its slug.
#[derive(Debug)]
pub struct Entry {
    pub path: String,
    pub slug: String,
    pub spec: Spec,
}

/// A JSON value (`serde_json::Value`), carried through unread.
#[verifier::external_type_specification]
#[verifier::external_body]
pub struct ExJsonValue(serde_json::Value);

/// The value of an input in a verification case: a number, by the bits of its binary64
/// value, or the name of an enumeration member.
#[derive(Debug, PartialEq)]
pub enum VerificationInput {
    Number(u64),
    Enum(String),
}

/// A verification case: its identifier, its provenance, its inputs by name and its
/// expected outputs by name (names in ascending order; numbers by the bits of their
/// binary64 values).
#[derive(Debug)]
pub struct VerificationCase {
    pub id: String,
    pub kind: VerificationKind,
    pub inputs: Vec<(String, VerificationInput)>,
    pub expected: Vec<(String, u64)>,
}

/// A function's override of an output's tolerance: whether its absolute tolerance is
/// finite and positive and its relative one, if any, finite and non-negative, and
/// where the source states it.
#[derive(Debug)]
pub struct ToleranceOverride {
    pub absolute_valid: bool,
    pub relative_valid: bool,
    pub source_location: String,
}

/// A unit of the registry and the notations that denote it.
#[derive(Debug)]
pub struct Unit {
    pub preferred_notation: String,
    pub aliases: Vec<String>,
}

/// A quantity's tolerance for one unit: whether the tolerances are valid numbers (as
/// for overrides) and why they were chosen.
#[derive(Debug)]
pub struct QuantityUnit {
    pub absolute_valid: bool,
    pub relative_valid: bool,
    pub rationale: String,
}

/// A physical quantity and the units it may be reported in, by unit identifier in
/// ascending order.
#[derive(Debug)]
pub struct Quantity {
    pub description: String,
    pub units: Vec<(String, QuantityUnit)>,
}

/// The registry of quantities and units, each by identifier in ascending order.
#[derive(Debug)]
pub struct QuantityRegistry {
    pub quantities: Vec<(String, Quantity)>,
    pub units: Vec<(String, Unit)>,
}

impl Function {
    /// The name of the record that the function returns, if it returns one.
    pub fn result_class(&self) -> (r: Option<&str>)
        ensures
            match self.outputs {
                Outputs::Scalar { .. } => r is None,
                Outputs::Record { name, .. } => r is Some && r->0@ == name@,
            },
    {
        match &self.outputs {
            Outputs::Scalar { .. } => None,
            Outputs::Record { name, .. } => Some(name.as_str()),
        }
    }
}

/// A slice holding exactly one value (`std::slice::from_ref`).
#[verifier::external_body]
fn slice_of_one<T>(value: &T) -> (r: &[T])
    ensures
        r@ == seq![*value],
{
    std::slice::from_ref(value)
}

/// An input of a decision tree.
#[derive(Debug, Clone)]
pub enum TreeInput {
    Number { name: String },
    Enum { name: String, reference: String, definition: Option<EnumDefinition> },
}

impl TreeInput {
    pub open spec fn spec_name(&self) -> Seq<char> {
        match self {
            TreeInput::Number { name } => name@,
            TreeInput::Enum { name, .. } => name@,
        }
    }

    /// The input's name.
    pub fn name(&self) -> (r: &str)
        ensures
            r@ == match self {
                TreeInput::Number { name } => name@,
                TreeInput::Enum { name, .. } => name@,
            },
    {
        match self {
            TreeInput::Number { name } => name.as_str(),
            TreeInput::Enum { name, .. } => name.as_str(),
        }
    }
}

/// Why a definition, or a reference to one, could not be resolved.
#[derive(Debug, PartialEq)]
pub enum DefinitionError {
    MissingInputBinding { function: String, name: String },
    OutputAsInput { function: String, name: String },
    NonOutputAsOutput { function: String, name: String },
    ParameterAsOutput { function: String, name: String },
    UnknownDefinition { function: String, name: String },
    UnknownLookup { function: String, name: String },
    UnknownTree { function: String, name: String },
    NonEnumInput { function: String, input: String, definition_name: String },
    UnknownInputEnum { function: String, input: String, definition_name: String },
    InputDefinitionType { name: String },
    UnknownInputType { name: String, input_name: String },
    OutputDefinitionType { name: String },
    UnknownOutputType { name: String, output_name: String },
    DuplicateLookupKey { name: String, key: String, index: usize },
    UnknownLookupMember { name: String, key: String, index: usize },
    LookupFields { name: String, index: usize },
    LookupCoverage { name: String, enum_name: String },
    /// The reference does not start with `#/$defs/`.
    ReferencePrefix { reference: String },
    /// The reference does not name exactly one local definition.
    ReferenceName { reference: String },
    DuplicateQuantityUnit,
    Tree(crate::tree_validation::TreeError),
}

/// The prefix of a reference to a local definition.
pub open spec fn local_definition_prefix() -> Seq<char> {
    seq!['#', '/', '$', 'd', 'e', 'f', 's', '/']
}

/// The definition name that `reference` names: what follows `#/$defs/`, which must be
/// non-empty and hold no `/`.
pub open spec fn spec_definition_name(reference: Seq<char>) -> Option<Seq<char>> {
    let p = local_definition_prefix();
    if reference.len() >= p.len() && reference.take(p.len() as int) == p {
        let name = reference.skip(p.len() as int);
        if name.len() > 0 && !name.contains('/') { Some(name) } else { None }
    } else {
        None
    }
}

/// The name of the local definition that a `$ref` names.
pub fn definition_name(reference: &str) -> (r: Result<String, DefinitionError>)
    ensures
        match r {
            Ok(name) => spec_definition_name(reference@) == Some(name@),
            Err(DefinitionError::ReferencePrefix { reference: echoed }) =>
                echoed@ == reference@
                && !(reference@.len() >= 8 && reference@.take(8) == local_definition_prefix()),
            Err(DefinitionError::ReferenceName { reference: echoed }) =>
                echoed@ == reference@
                && reference@.len() >= 8 && reference@.take(8) == local_definition_prefix()
                && spec_definition_name(reference@) is None,
            Err(_) => false,
        },
{
    let chars = crate::strings::chars_of(reference);
    let prefix = ['#', '/', '$', 'd', 'e', 'f', 's', '/'];
    assert(prefix@ == local_definition_prefix());
    if chars.len() < 8 {
        return Err(DefinitionError::ReferencePrefix { reference: reference.to_owned() });
    }
    let mut i: usize = 0;
    while i < 8
        invariant
            i <= 8 <= chars.len(),
            prefix@ == local_definition_prefix(),
            chars@ == reference@,
            chars@.take(i as int) == prefix@.take(i as int),
        decreases 8 - i,
    {
        if chars[i] != prefix[i] {
            assert(chars@.take(8)[i as int] != prefix@[i as int]);
            return Err(DefinitionError::ReferencePrefix { reference: reference.to_owned() });
        }
        i = i + 1;
        assert(chars@.take(i as int) == prefix@.take(i as int));
    }
    assert(prefix@.take(8) == prefix@);
    let mut name = String::new();
    let mut j: usize = 8;
    while j < chars.len()
        invariant
            8 <= j <= chars.len(),
            chars@ == reference@,
            reference@.take(8) == local_definition_prefix(),
            name@ == chars@.subrange(8, j as int),
            !name@.contains('/'),
        decreases chars.len() - j,
    {
        if chars[j] == '/' {
            assert(reference@.skip(8)[j - 8] == '/');
            return Err(DefinitionError::ReferenceName { reference: reference.to_owned() });
        }
        crate::strings::push_char(&mut name, chars[j]);
        j = j + 1;
        assert(name@ == chars@.subrange(8, j as int));
    }
    assert(name@ == reference@.skip(8));
    if j == 8 {
        return Err(DefinitionError::ReferenceName { reference: reference.to_owned() });
    }
    Ok(name)
}

/// The provenance of a verification case.
#[derive(Clone, Copy, PartialEq, Eq, Structural, Debug)]
pub enum VerificationKind {
    Published,
    Calculated,
}

impl VerificationKind {
    /// The lowercase label of the kind.
    pub fn label(self) -> (r: &'static str)
        ensures
            r@ == match self {
                VerificationKind::Published => "published"@,
                VerificationKind::Calculated => "calculated"@,
            },
    {
        match self {
            VerificationKind::Published => "published",
            VerificationKind::Calculated => "calculated",
        }
    }
}


/// A line and column of a specification file.
#[derive(Clone, Copy, Debug, PartialEq, Eq, Structural)]
pub struct SourceLocation {
    pub line: usize,
    pub column: usize,
}

/// A formula of an implementation, with where it was written.
#[derive(Debug)]
pub struct RawExpression {
    pub implementation_path: String,
    pub source_location: SourceLocation,
    pub expression: formula::Expr,
}

/// The type of a function input: a number or a member of an enumeration.
#[derive(Debug)]
pub enum RawInputType {
    Number,
    Enum(EnumDefinition),
}

#[derive(Debug)]
pub struct RawInput {
    pub name: String,
    pub value_type: RawInputType,
}

/// One row of a lookup table: the enumeration member and each field's number, as
/// the shortest decimal text that reads back as the same binary64 value.
#[derive(Debug, Clone)]
pub struct LookupValue {
    pub key: String,
    pub value: Vec<(String, String)>,
}

/// A lookup table from the members of an enumeration to records.
#[derive(Debug, Clone)]
pub struct LookupDefinition {
    pub name: String,
    /// The reference to the enumeration of the keys.
    pub input: String,
    /// The reference to the record output.
    pub output: String,
    pub values: Vec<LookupValue>,
    pub input_type: Option<EnumDefinition>,
    pub output_type: Option<Outputs>,
}

/// The value of a leaf of a decision tree: a number, or a record's field values by
/// field name; numbers are kept as written.
#[derive(Debug, Clone)]
pub enum DecisionTreeLeafValue {
    Number(String),
    Record(Vec<(String, String)>),
}

/// The test of a split: an input below a number, or an enumeration input among members.
#[derive(Debug, Clone)]
pub enum DecisionTreeSplit {
    LessThan { input: String, value: String },
    EnumIn { input: String, values: Vec<String> },
}

/// A group of members of a match and the subtree for them.
#[derive(Debug)]
pub struct DecisionTreeMatchCase {
    pub values: Vec<String>,
    pub subtree: Box<DecisionTree>,
}

/// A decision tree as the specification writes it.
#[derive(Debug)]
pub enum DecisionTree {
    Leaf(DecisionTreeLeafValue),
    Split { split: DecisionTreeSplit, yes: Box<DecisionTree>, no: Box<DecisionTree> },
    Match { input: String, cases: Vec<DecisionTreeMatchCase> },
}

/// A named decision tree: its inputs, its root and its resolved output.
#[derive(Debug)]
pub struct TreeDefinition {
    pub name: String,
    pub inputs: Vec<TreeInput>,
    /// The reference to the output definition.
    pub output: String,
    pub root: DecisionTree,
    pub output_type: Option<Outputs>,
}

/// An input as a function declares it: a parameter written out, a named input whose
/// type is a reference to an enumeration, or a reference to a parameter definition.
#[derive(Debug)]
pub enum InputReference {
    Parameter(Parameter),
    Type { name: String, description: Option<String>, reference: String },
    Reference(String),
}

/// The outputs as a function declares them: written out, or a reference to an output
/// definition.
#[derive(Debug)]
pub enum OutputReference {
    Inline(Outputs),
    Reference(String),
}

/// A named definition of a specification file.
#[derive(Debug)]
pub enum Definition {
    Parameter(Parameter),
    Enum(EnumDefinition),
    Output(Outputs),
    Lookup(LookupDefinition),
    Tree(TreeDefinition),
}

/// A variable whose value is a tree evaluated on implementation values, by argument
/// name in ascending order.
#[derive(Debug)]
pub struct RawTreeInvocation {
    pub implementation_path: String,
    pub arguments: Vec<(String, String)>,
    pub definition: TreeDefinition,
}

/// A variable whose value is the row of a lookup table selected by `key`.
#[derive(Debug)]
pub struct RawLookup {
    pub implementation_path: String,
    pub key: String,
    pub definition: LookupDefinition,
}

/// What an implementation variable is bound to.
#[derive(Debug)]
pub enum RawVariableValue {
    Expression(RawExpression),
    Lookup(Box<RawLookup>),
    Tree(Box<RawTreeInvocation>),
}

#[derive(Debug)]
pub struct RawVariable {
    pub name: String,
    pub value: RawVariableValue,
}

/// A function's implementation as the specification writes it.
#[derive(Debug)]
pub struct RawFunction {
    pub specification_path: String,
    pub name: String,
    pub inputs: Vec<RawInput>,
    pub variables: Vec<RawVariable>,
}


/// The shape of a core function's result: one number or a structure of named fields.
#[derive(Debug)]
pub enum Output {
    Scalar,
    Struct(Vec<String>),
}

/// Two enumeration members with the same name, value and description.
pub open spec fn same_enum_value(a: EnumValue, b: EnumValue) -> bool {
    &&& a.name@ == b.name@
    &&& a.value@ == b.value@
    &&& match (a.description, b.description) {
        (Some(x), Some(y)) => x@ == y@,
        (None, None) => true,
        _ => false,
    }
}

/// A copy of an enumeration member.
pub fn copy_enum_value(v: &EnumValue) -> (r: EnumValue)
    ensures
        r.name@ == v.name@,
        r.value@ == v.value@,
        match (r.description, v.description) {
            (Some(a), Some(b)) => a@ == b@,
            (None, None) => true,
            _ => false,
        },
{
    EnumValue {
        name: v.name.clone(),
        value: v.value.clone(),
        description: match &v.description {
            Some(d) => Some(d.clone()),
            None => None,
        },
    }
}

/// The enumeration as it is known under the name that refers to it.
pub fn resolved_enum_definition(definition: &EnumDefinition, reference_name: &str) -> (r: EnumDefinition)
    ensures
        r.enum_type.name@ == reference_name@,
        r.enum_type.document@ == definition.enum_type.document@,
        r.enum_type.shared_module.is_some() == definition.enum_type.shared_module.is_some(),
        definition.enum_type.shared_module matches Some(m) ==> r.enum_type.shared_module matches Some(n) && n@ == m@,
        r.description@ == definition.description@,
        r.values.len() == definition.values.len(),
        forall|k: int| 0 <= k < r.values.len() ==> same_enum_value(#[trigger] r.values@[k], definition.values@[k]),
{
    let mut values: Vec<EnumValue> = Vec::new();
    let mut k: usize = 0;
    while k < definition.values.len()
        invariant
            k <= definition.values.len(),
            values.len() == k,
            forall|j: int| 0 <= j < k ==> same_enum_value(#[trigger] values@[j], definition.values@[j]),
        decreases definition.values.len() - k,
    {
        values.push(copy_enum_value(&definition.values[k]));
        k = k + 1;
    }
    EnumDefinition {
        enum_type: EnumType {
            document: definition.enum_type.document.clone(),
            name: reference_name.to_owned(),
            shared_module: match &definition.enum_type.shared_module {
                Some(m) => Some(m.clone()),
                None => None,
            },
        },
        description: definition.description.clone(),
        values,
    }
}

} // verus!
