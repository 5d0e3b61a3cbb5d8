//! Decision trees resolved for an implementation: inputs by position, enumerations by
//! identity, and leaves in the order of the output's fields.

use vstd::prelude::*;
use vstd::string::*;
use crate::model::{
    DecisionTree as RawTree, DecisionTreeLeafValue, DecisionTreeMatchCase as RawCase, DecisionTreeSplit, EnumType,
    OutputField, Outputs, TreeDefinition as RawTreeDefinition, TreeInput,
};
use crate::strings::str_equal;
use crate::semantic::{
    Input, Number, RecordType, Reference, TypeView, ValueType, cell_for, cell_text, copy_enum_type, copy_strings, field_names,
    numbers_view, strings_view,
};

verus! {

/// A leaf: a number, or the values of the output record's fields in order.
#[derive(Debug, PartialEq)]
pub enum DecisionTreeLeaf {
    Number(Number),
    Record(Vec<Number>),
}

/// The test of a split node.
#[derive(Debug, PartialEq)]
pub enum DecisionTreePredicate {
    LessThan { input: Reference, value: Number },
    EnumIn { input: Reference, enum_type: EnumType, members: Vec<String> },
}

/// A group of members of a match node and the subtree for them.
#[derive(Debug, PartialEq)]
pub struct DecisionTreeMatchCase {
    pub members: Vec<String>,
    pub subtree: DecisionTree,
}

/// A compiled decision tree.
#[derive(Debug, PartialEq)]
pub enum DecisionTree {
    Leaf(DecisionTreeLeaf),
    Split { predicate: DecisionTreePredicate, yes: Box<DecisionTree>, no: Box<DecisionTree> },
    Match { input: Reference, enum_type: EnumType, cases: Vec<DecisionTreeMatchCase> },
}

/// A compiled tree definition: its typed inputs, its output type and its root.
#[derive(Debug, PartialEq)]
pub struct TreeDefinition {
    pub name: String,
    pub inputs: Vec<Input>,
    pub output: ValueType,
    pub root: DecisionTree,
}

/// A tree evaluated on implementation values, one per tree input in order.
#[derive(Debug, PartialEq)]
pub struct TreeCall {
    pub definition: TreeDefinition,
    pub arguments: Vec<Reference>,
}

pub type EnumId = (Seq<char>, Seq<char>, Option<Seq<char>>);

pub enum LeafView {
    Number(Seq<char>),
    Record(Seq<Seq<char>>),
}

pub enum PredicateView {
    LessThan(Reference, Seq<char>),
    EnumIn(Reference, EnumId, Seq<Seq<char>>),
}

pub enum TreeView {
    Leaf(LeafView),
    Split(PredicateView, Box<TreeView>, Box<TreeView>),
    Match(Reference, EnumId, Seq<(Seq<Seq<char>>, TreeView)>),
}

impl DecisionTree {
    pub open spec fn tree_view(&self) -> TreeView
        decreases self,
    {
        match self {
            DecisionTree::Leaf(DecisionTreeLeaf::Number(n)) => TreeView::Leaf(LeafView::Number(n.lexeme@)),
            DecisionTree::Leaf(DecisionTreeLeaf::Record(values)) => TreeView::Leaf(LeafView::Record(numbers_view(values@))),
            DecisionTree::Split { predicate, yes, no } => TreeView::Split(
                match predicate {
                    DecisionTreePredicate::LessThan { input, value } => PredicateView::LessThan(*input, value.lexeme@),
                    DecisionTreePredicate::EnumIn { input, enum_type, members } => PredicateView::EnumIn(
                        *input,
                        enum_type.identity_view(),
                        strings_view(members@),
                    ),
                },
                Box::new(yes.tree_view()),
                Box::new(no.tree_view()),
            ),
            DecisionTree::Match { input, enum_type, cases } => TreeView::Match(
                *input,
                enum_type.identity_view(),
                Seq::new(cases.len() as nat, |k: int| if 0 <= k < cases.len() {
                    (strings_view(cases@[k].members@), cases@[k].subtree.tree_view())
                } else {
                    (seq![], TreeView::Leaf(LeafView::Number(seq![])))
                }),
            ),
        }
    }
}

/// The position of the first tree input named `name`.
pub open spec fn input_position(inputs: Seq<TreeInput>, name: Seq<char>) -> Option<int>
    decreases inputs.len(),
{
    if inputs.len() == 0 {
        None
    } else if inputs[0].spec_name() == name {
        Some(0)
    } else {
        match input_position(inputs.drop_first(), name) {
            Some(k) => Some(k + 1),
            None => None,
        }
    }
}

/// The enumeration of a tree input, when it is a resolved enumeration input.
pub open spec fn input_enum(inputs: Seq<TreeInput>, name: Seq<char>) -> Option<EnumId> {
    match input_position(inputs, name) {
        Some(k) => match inputs[k] {
            TreeInput::Enum { definition: Some(d), .. } => Some(d.enum_type.identity_view()),
            _ => None,
        },
        None => None,
    }
}

pub open spec fn output_fields(output: Option<Outputs>) -> Seq<OutputField> {
    match output {
        Some(o) => o.spec_fields(),
        None => seq![],
    }
}

/// Every node of the tree refers to inputs of the definition of the right kind, and
/// every record leaf gives every field of the record output.
pub open spec fn node_resolved(inputs: Seq<TreeInput>, output: Option<Outputs>, node: RawTree) -> bool
    decreases node,
{
    match node {
        RawTree::Leaf(DecisionTreeLeafValue::Number(_)) => true,
        RawTree::Leaf(DecisionTreeLeafValue::Record(cells)) => output matches Some(Outputs::Record { .. })
            && forall|f: int| 0 <= f < output_fields(output).len() ==> cell_for(cells@, (#[trigger] output_fields(output)[f]).name@) is Some,
        RawTree::Split { split, yes, no } => {
            &&& match split {
                DecisionTreeSplit::LessThan { input, .. } => input_position(inputs, input@) is Some,
                DecisionTreeSplit::EnumIn { input, .. } => input_enum(inputs, input@) is Some,
            }
            &&& node_resolved(inputs, output, *yes)
            &&& node_resolved(inputs, output, *no)
        },
        RawTree::Match { input, cases } => input_enum(inputs, input@) is Some && cases_resolved(inputs, output, cases@),
    }
}

pub open spec fn cases_resolved(inputs: Seq<TreeInput>, output: Option<Outputs>, cases: Seq<RawCase>) -> bool
    decreases cases,
{
    if cases.len() == 0 {
        true
    } else {
        cases_resolved(inputs, output, cases.drop_last()) && node_resolved(inputs, output, *cases.last().subtree)
    }
}

/// A tree definition whose output and enumeration inputs are resolved and whose nodes
/// are consistent with its inputs and output.
pub open spec fn tree_resolved(d: RawTreeDefinition) -> bool {
    &&& d.output_type is Some
    &&& forall|k: int| 0 <= k < d.inputs.len() ==> !((#[trigger] d.inputs@[k]) matches TreeInput::Enum { definition: None, .. })
    &&& node_resolved(d.inputs@, d.output_type, d.root)
}

/// A node of a tree definition compiled: inputs by position, enumerations by identity,
/// record leaves by the order of the output's fields.
pub open spec fn compile_node(inputs: Seq<TreeInput>, output: Option<Outputs>, node: RawTree) -> TreeView
    decreases node,
{
    match node {
        RawTree::Leaf(DecisionTreeLeafValue::Number(value)) => TreeView::Leaf(LeafView::Number(value@)),
        RawTree::Leaf(DecisionTreeLeafValue::Record(cells)) => TreeView::Leaf(LeafView::Record(
            output_fields(output).map_values(|f: OutputField| cell_for(cells@, f.name@)->0),
        )),
        RawTree::Split { split, yes, no } => TreeView::Split(
            match split {
                DecisionTreeSplit::LessThan { input, value } => PredicateView::LessThan(
                    Reference::Input(input_position(inputs, input@)->0 as usize),
                    value@,
                ),
                DecisionTreeSplit::EnumIn { input, values } => PredicateView::EnumIn(
                    Reference::Input(input_position(inputs, input@)->0 as usize),
                    input_enum(inputs, input@)->0,
                    strings_view(values@),
                ),
            },
            Box::new(compile_node(inputs, output, *yes)),
            Box::new(compile_node(inputs, output, *no)),
        ),
        RawTree::Match { input, cases } => TreeView::Match(
            Reference::Input(input_position(inputs, input@)->0 as usize),
            input_enum(inputs, input@)->0,
            compile_cases(inputs, output, cases@),
        ),
    }
}

pub open spec fn compile_cases(inputs: Seq<TreeInput>, output: Option<Outputs>, cases: Seq<RawCase>) -> Seq<(Seq<Seq<char>>, TreeView)>
    decreases cases,
{
    if cases.len() == 0 {
        seq![]
    } else {
        compile_cases(inputs, output, cases.drop_last()).push(
            (strings_view(cases.last().values@), compile_node(inputs, output, *cases.last().subtree)),
        )
    }
}


/// The type of a tree input: a number, or the enumeration it was resolved to.
pub open spec fn tree_input_type(input: TreeInput) -> TypeView {
    match input {
        TreeInput::Enum { definition: Some(d), .. } => TypeView::Enum(
            d.enum_type.identity_view().0,
            d.enum_type.identity_view().1,
            d.enum_type.identity_view().2,
        ),
        _ => TypeView::Number,
    }
}

/// The type of a tree's value: a number for a scalar output, the record otherwise.
pub open spec fn tree_output_type(output: Option<Outputs>) -> TypeView {
    match output {
        Some(Outputs::Record { name, fields }) => TypeView::Record(name@, field_names(fields@)),
        _ => TypeView::Number,
    }
}

/// A compiled tree definition as values.
pub struct DefinitionView {
    pub name: Seq<char>,
    pub inputs: Seq<(Seq<char>, TypeView)>,
    pub output: TypeView,
    pub root: TreeView,
}

pub open spec fn inputs_view(inputs: Seq<Input>) -> Seq<(Seq<char>, TypeView)> {
    inputs.map_values(|i: Input| (i.name@, i.value_type.type_view()))
}

impl TreeDefinition {
    pub open spec fn definition_view(&self) -> DefinitionView {
        DefinitionView {
            name: self.name@,
            inputs: inputs_view(self.inputs@),
            output: self.output.type_view(),
            root: self.root.tree_view(),
        }
    }
}

/// What a resolved tree definition compiles to.
pub open spec fn compile_definition(d: RawTreeDefinition) -> DefinitionView {
    DefinitionView {
        name: d.name@,
        inputs: d.inputs@.map_values(|i: TreeInput| (i.spec_name(), tree_input_type(i))),
        output: tree_output_type(d.output_type),
        root: compile_node(d.inputs@, d.output_type, d.root),
    }
}

proof fn lemma_case_resolved(inputs: Seq<TreeInput>, output: Option<Outputs>, cases: Seq<RawCase>, k: int)
    requires
        cases_resolved(inputs, output, cases),
        0 <= k < cases.len(),
    ensures
        node_resolved(inputs, output, *cases[k].subtree),
    decreases cases.len(),
{
    if k < cases.len() - 1 {
        lemma_case_resolved(inputs, output, cases.drop_last(), k);
    }
}

/// The position of the first input named `name`.
pub(crate) fn input_index(inputs: &Vec<TreeInput>, name: &String) -> (r: Option<usize>)
    ensures
        r matches Some(k) ==> input_position(inputs@, name@) == Some(k as int) && k < inputs.len(),
        r is None ==> input_position(inputs@, name@) is None,
{
    let mut k: usize = 0;
    assert(inputs@.skip(0) == inputs@);
    while k < inputs.len()
        invariant
            k <= inputs.len(),
            input_position(inputs@, name@) == match input_position(inputs@.skip(k as int), name@) {
                Some(j) => Some(j + k),
                None => None,
            },
        decreases inputs.len() - k,
    {
        assert(inputs@.skip(k as int)[0] == inputs@[k as int]);
        if str_equal(inputs[k].name(), name.as_str()) {
            return Some(k);
        }
        assert(inputs@.skip(k as int).drop_first() == inputs@.skip(k + 1));
        k = k + 1;
    }
    None
}

/// The enumeration of the resolved enumeration input at `k`.
fn input_enum_type(inputs: &Vec<TreeInput>, k: usize) -> (r: EnumType)
    requires
        k < inputs.len(),
        inputs@[k as int] matches TreeInput::Enum { definition: Some(_), .. },
    ensures
        inputs@[k as int] matches TreeInput::Enum { definition: Some(d), .. } && r.identity_view() == d.enum_type.identity_view(),
{
    match &inputs[k] {
        TreeInput::Enum { definition: Some(d), .. } => copy_enum_type(&d.enum_type),
        _ => {
            assert(false);
            EnumType { document: String::new(), name: String::new(), shared_module: None }
        },
    }
}

/// Compiles a node of `definition`: inputs become positions, enumeration inputs carry
/// their enumeration, record leaves list their values in the order of the output's fields.
pub fn compile_named_tree_node(definition: &RawTreeDefinition, node: &RawTree) -> (r: DecisionTree)
    requires
        node_resolved(definition.inputs@, definition.output_type, *node),
    ensures
        r.tree_view() == compile_node(definition.inputs@, definition.output_type, *node),
    decreases node,
{
    let ghost inputs = definition.inputs@;
    let ghost output = definition.output_type;
    match node {
        RawTree::Leaf(DecisionTreeLeafValue::Number(value)) => {
            DecisionTree::Leaf(DecisionTreeLeaf::Number(Number { lexeme: value.clone() }))
        },
        RawTree::Leaf(DecisionTreeLeafValue::Record(cells)) => {
            let fields = match &definition.output_type {
                Some(Outputs::Record { fields, .. }) => fields,
                _ => {
                    assert(false);
                    return DecisionTree::Leaf(DecisionTreeLeaf::Record(Vec::new()));
                },
            };
            assert(fields@ == output_fields(output));
            let mut values: Vec<Number> = Vec::new();
            let mut k: usize = 0;
            while k < fields.len()
                invariant
                    k <= fields.len(),
                    fields@ == output_fields(output),
                    node_resolved(inputs, output, *node),
                    *node == RawTree::Leaf(DecisionTreeLeafValue::Record(*cells)),
                    numbers_view(values@) == output_fields(output).map_values(|f: OutputField| cell_for(cells@, f.name@)->0).take(k as int),
                decreases fields.len() - k,
            {
                let text = cell_text(cells, &fields[k].name);
                assert(cell_for(cells@, (output_fields(output)[k as int]).name@) is Some);
                let text = match text {
                    Some(t) => t,
                    None => {
                        assert(false);
                        String::new()
                    },
                };
                let ghost prev = numbers_view(values@);
                values.push(Number { lexeme: text });
                assert(numbers_view(values@) =~= prev.push(text@));
                assert(output_fields(output).map_values(|f: OutputField| cell_for(cells@, f.name@)->0).take(k + 1) =~= output_fields(
                    output,
                ).map_values(|f: OutputField| cell_for(cells@, f.name@)->0).take(k as int).push(text@));
                k = k + 1;
            }
            assert(output_fields(output).map_values(|f: OutputField| cell_for(cells@, f.name@)->0).take(fields.len() as int)
                =~= output_fields(output).map_values(|f: OutputField| cell_for(cells@, f.name@)->0));
            DecisionTree::Leaf(DecisionTreeLeaf::Record(values))
        },
        RawTree::Split { split, yes, no } => {
            let predicate = match split {
                DecisionTreeSplit::LessThan { input, value } => {
                    let position = match input_index(&definition.inputs, input) {
                        Some(p) => p,
                        None => {
                            assert(false);
                            0
                        },
                    };
                    DecisionTreePredicate::LessThan { input: Reference::Input(position), value: Number { lexeme: value.clone() } }
                },
                DecisionTreeSplit::EnumIn { input, values } => {
                    let position = match input_index(&definition.inputs, input) {
                        Some(p) => p,
                        None => {
                            assert(false);
                            0
                        },
                    };
                    let enum_type = input_enum_type(&definition.inputs, position);
                    DecisionTreePredicate::EnumIn { input: Reference::Input(position), enum_type, members: copy_strings(values) }
                },
            };
            let yes_tree = compile_named_tree_node(definition, yes);
            let no_tree = compile_named_tree_node(definition, no);
            DecisionTree::Split { predicate, yes: Box::new(yes_tree), no: Box::new(no_tree) }
        },
        RawTree::Match { input, cases } => {
            let position = match input_index(&definition.inputs, input) {
                Some(p) => p,
                None => {
                    assert(false);
                    0
                },
            };
            let enum_type = input_enum_type(&definition.inputs, position);
            let mut compiled: Vec<DecisionTreeMatchCase> = Vec::new();
            let mut k: usize = 0;
            assert(cases@.take(0) =~= Seq::<RawCase>::empty());
            while k < cases.len()
                invariant
                    k <= cases.len(),
                    cases_resolved(inputs, output, cases@),
                    *node == (RawTree::Match { input: *input, cases: *cases }),
                    inputs == definition.inputs@,
                    output == definition.output_type,
                    compiled.len() == k,
                    compile_cases(inputs, output, cases@.take(k as int)).len() == k,
                    forall|i: int| 0 <= i < k ==> (strings_view((#[trigger] compiled@[i]).members@), compiled@[i].subtree.tree_view())
                        == compile_cases(inputs, output, cases@.take(k as int))[i],
                decreases cases.len() - k,
            {
                proof {
                    lemma_case_resolved(inputs, output, cases@, k as int);
                    assert(decreases_to!(*node => node->cases));
                    assert(decreases_to!(node->cases => node->cases@));
                    assert(decreases_to!(cases@ => cases@[k as int]));
                    assert(decreases_to!(cases@[k as int] => cases@[k as int].subtree));
                }
                let subtree = compile_named_tree_node(definition, &cases[k].subtree);
                compiled.push(DecisionTreeMatchCase { members: copy_strings(&cases[k].values), subtree });
                assert(cases@.take(k + 1).drop_last() =~= cases@.take(k as int));
                assert(cases@.take(k + 1).last() == cases@[k as int]);
                k = k + 1;
            }
            assert(cases@.take(cases.len() as int) == cases@);
            let r = DecisionTree::Match { input: Reference::Input(position), enum_type, cases: compiled };
            proof {
                if let TreeView::Match(_, _, c) = r.tree_view() {
                    assert(c =~= compile_cases(inputs, output, cases@));
                }
            }
            r
        },
    }
}


/// A tree call as values: the compiled definition and the value given to each input.
pub struct CallView {
    pub definition: DefinitionView,
    pub arguments: Seq<Reference>,
}

impl TreeCall {
    pub open spec fn call_view(&self) -> CallView {
        CallView { definition: self.definition.definition_view(), arguments: self.arguments@ }
    }
}

/// The names of the fields of an output, in order.
pub fn output_field_names(fields: &Vec<OutputField>) -> (r: Vec<String>)
    ensures
        strings_view(r@) == field_names(fields@),
{
    let mut r: Vec<String> = Vec::new();
    let mut k: usize = 0;
    while k < fields.len()
        invariant
            k <= fields.len(),
            strings_view(r@) == field_names(fields@).take(k as int),
        decreases fields.len() - k,
    {
        let ghost prev = strings_view(r@);
        r.push(fields[k].name.clone());
        assert(strings_view(r@) =~= prev.push(fields@[k as int].name@));
        assert(field_names(fields@).take(k + 1) =~= field_names(fields@).take(k as int).push(fields@[k as int].name@));
        k = k + 1;
    }
    assert(field_names(fields@).take(fields.len() as int) =~= field_names(fields@));
    r
}

/// Compiles a resolved tree definition: typed inputs in order, the type of its
/// output, and its nodes.
pub fn compile_tree_definition(raw: &RawTreeDefinition) -> (r: TreeDefinition)
    requires
        tree_resolved(*raw),
    ensures
        r.definition_view() == compile_definition(*raw),
{
    let ghost spec_inputs = raw.inputs@.map_values(|i: TreeInput| (i.spec_name(), tree_input_type(i)));
    let mut inputs: Vec<Input> = Vec::new();
    let mut k: usize = 0;
    while k < raw.inputs.len()
        invariant
            k <= raw.inputs.len(),
            tree_resolved(*raw),
            spec_inputs == raw.inputs@.map_values(|i: TreeInput| (i.spec_name(), tree_input_type(i))),
            inputs_view(inputs@) == spec_inputs.take(k as int),
        decreases raw.inputs.len() - k,
    {
        let input = match &raw.inputs[k] {
            TreeInput::Number { name } => Input { name: name.clone(), value_type: ValueType::Number },
            TreeInput::Enum { name, definition: Some(d), .. } => Input {
                name: name.clone(),
                value_type: ValueType::Enum(copy_enum_type(&d.enum_type)),
            },
            TreeInput::Enum { name, definition: None, .. } => {
                assert(!(raw.inputs@[k as int] matches TreeInput::Enum { definition: None, .. }));
                Input { name: name.clone(), value_type: ValueType::Number }
            },
        };
        let ghost prev = inputs_view(inputs@);
        assert((input.name@, input.value_type.type_view()) == spec_inputs[k as int]);
        inputs.push(input);
        assert(inputs_view(inputs@) =~= prev.push(spec_inputs[k as int]));
        assert(spec_inputs.take(k + 1) =~= spec_inputs.take(k as int).push(spec_inputs[k as int]));
        k = k + 1;
    }
    assert(spec_inputs.take(raw.inputs.len() as int) =~= spec_inputs);
    let output = match &raw.output_type {
        Some(Outputs::Record { name, fields }) => ValueType::Record(RecordType { name: name.clone(), fields: output_field_names(fields) }),
        _ => ValueType::Number,
    };
    let root = compile_named_tree_node(raw, &raw.root);
    TreeDefinition { name: raw.name.clone(), inputs, output, root }
}

} // verus!
