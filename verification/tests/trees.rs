use ptfkit_codegen::decision::{
    compile_tree_definition, DecisionTree, DecisionTreeLeaf, DecisionTreePredicate,
};
use ptfkit_codegen::formula::parse;
use ptfkit_codegen::model::{
    DecisionTree as RawTree, DecisionTreeLeafValue, DecisionTreeMatchCase, DecisionTreeSplit, EnumDefinition, EnumType,
    EnumValue, OutputField, Outputs, RawExpression, RawFunction, RawInput, RawInputType, RawTreeInvocation, RawVariable,
    RawVariableValue, SourceLocation, TreeDefinition, TreeInput,
};
use ptfkit_codegen::semantic::{compile, names_in_order, Number, Reference, ValueType, VariableValue};
use ptfkit_codegen::strings::text_before;
use ptfkit_codegen::tree_validation::{validate_tree_definition, TreeErrorKind};

fn category() -> EnumDefinition {
    EnumDefinition {
        enum_type: EnumType { document: "specs/functions/tree.yaml".into(), name: "Category".into(), shared_module: None },
        description: "Texture class.".into(),
        values: vec![
            EnumValue { name: "coarse".into(), value: "coarse".into(), description: None },
            EnumValue { name: "fine".into(), value: "fine".into(), description: None },
        ],
    }
}

fn field(name: &str) -> OutputField {
    OutputField {
        name: name.into(),
        quantity: "water_content".into(),
        symbol: None,
        unit: "m3/m3".into(),
        reported_unit: "m3/m3".into(),
        domain: None,
        description: "A value.".into(),
    }
}

fn leaf(value: &str) -> Box<RawTree> {
    Box::new(RawTree::Leaf(DecisionTreeLeafValue::Number(value.into())))
}

fn tree_inputs() -> Vec<TreeInput> {
    vec![
        TreeInput::Enum { name: "category".into(), reference: "#/$defs/Category".into(), definition: Some(category()) },
        TreeInput::Number { name: "predictor".into() },
    ]
}

fn scalar_tree() -> TreeDefinition {
    TreeDefinition {
        name: "ScalarTree".into(),
        inputs: tree_inputs(),
        output: "#/$defs/Value".into(),
        root: RawTree::Split {
            split: DecisionTreeSplit::EnumIn { input: "category".into(), values: vec!["coarse".into()] },
            yes: leaf("1.0"),
            no: Box::new(RawTree::Split {
                split: DecisionTreeSplit::LessThan { input: "predictor".into(), value: "2.0".into() },
                yes: leaf("2.0"),
                no: leaf("3.0"),
            }),
        },
        output_type: Some(Outputs::Scalar { field: field("value") }),
    }
}

fn tree_variable(name: &str, arguments: &[(&str, &str)]) -> RawVariable {
    RawVariable {
        name: name.into(),
        value: RawVariableValue::Tree(Box::new(RawTreeInvocation {
            implementation_path: "implementation.variables[0].tree".into(),
            arguments: arguments.iter().map(|(k, v)| ((*k).into(), (*v).into())).collect(),
            definition: scalar_tree(),
        })),
    }
}

fn expression_variable(name: &str, source: &str) -> RawVariable {
    RawVariable {
        name: name.into(),
        value: RawVariableValue::Expression(RawExpression {
            implementation_path: "implementation.variables[1]".into(),
            source_location: SourceLocation { line: 1, column: 1 },
            expression: parse("implementation.variables[1]", source).unwrap(),
        }),
    }
}

fn function(variables: Vec<RawVariable>) -> RawFunction {
    RawFunction {
        specification_path: "specs/functions/tree.yaml".into(),
        name: "calc_ptf_tree".into(),
        inputs: vec![
            RawInput { name: "category".into(), value_type: RawInputType::Enum(category()) },
            RawInput { name: "x".into(), value_type: RawInputType::Number },
        ],
        variables,
    }
}

fn error_message(raw: &RawFunction) -> String {
    compile(raw).unwrap_err().message()
}

#[test]
fn compiles_a_tree_call_with_inputs_by_position() {
    let raw = function(vec![tree_variable("value", &[("category", "category"), ("predictor", "x")])]);
    let compiled = compile(&raw).unwrap();
    let VariableValue::Tree(call) = &compiled.variables[0].value else { panic!("expected a tree") };
    assert_eq!(call.arguments, vec![Reference::Input(0), Reference::Input(1)]);
    assert_eq!(call.definition.name, "ScalarTree");
    assert_eq!(call.definition.output, ValueType::Number);
    assert!(compiled.variables[0].value.is_number());
    let DecisionTree::Split { predicate, yes, no } = &call.definition.root else { panic!("expected a split") };
    let DecisionTreePredicate::EnumIn { input, members, .. } = predicate else { panic!("expected a member test") };
    assert_eq!(*input, Reference::Input(0));
    assert_eq!(members, &vec!["coarse".to_string()]);
    assert_eq!(**yes, DecisionTree::Leaf(DecisionTreeLeaf::Number(Number { lexeme: "1.0".into() })));
    let DecisionTree::Split { predicate: DecisionTreePredicate::LessThan { input, value }, .. } = &**no else {
        panic!("expected a bound test")
    };
    assert_eq!(*input, Reference::Input(1));
    assert_eq!(value.lexeme, "2.0");
}

#[test]
fn reports_missing_and_unknown_tree_arguments_in_order() {
    let missing = function(vec![tree_variable("value", &[("category", "category")])]);
    assert!(error_message(&missing).ends_with(
        "tree `ScalarTree` argument names do not match its inputs; missing [\"predictor\"], unknown []"
    ));
    let unknown = function(vec![tree_variable("value", &[("category", "category"), ("predictor", "x"), ("other", "x")])]);
    assert!(error_message(&unknown).ends_with("missing [], unknown [\"other\"]"));
}

#[test]
fn reports_a_tree_argument_of_the_wrong_type() {
    let raw = function(vec![tree_variable("value", &[("category", "x"), ("predictor", "x")])]);
    assert!(error_message(&raw).ends_with("tree argument `x` has type number, but input `category` requires enum `Category`"));
}

#[test]
fn reports_tree_arguments_that_name_later_or_own_variables() {
    let later = function(vec![
        tree_variable("branch", &[("category", "category"), ("predictor", "value")]),
        expression_variable("value", "x * 2"),
    ]);
    assert!(error_message(&later).ends_with("tree argument `value` cannot reference a later variable"));
    let own = function(vec![tree_variable("branch", &[("category", "category"), ("predictor", "branch")])]);
    assert!(error_message(&own).ends_with("tree argument `branch` cannot reference itself"));
    let unknown = function(vec![tree_variable("branch", &[("category", "category"), ("predictor", "nothing")])]);
    assert!(error_message(&unknown).ends_with("tree argument references unknown value `nothing`"));
}

#[test]
fn compiles_record_leaves_in_field_order() {
    let definition = TreeDefinition {
        name: "RecordTree".into(),
        inputs: tree_inputs(),
        output: "#/$defs/Range".into(),
        root: RawTree::Leaf(DecisionTreeLeafValue::Record(vec![("high".into(), "2.0".into()), ("low".into(), "1.0".into())])),
        output_type: Some(Outputs::Record { name: "Range".into(), fields: vec![field("low"), field("high")] }),
    };
    assert!(validate_tree_definition(&definition).is_ok());
    let compiled = compile_tree_definition(&definition);
    assert_eq!(
        compiled.root,
        DecisionTree::Leaf(DecisionTreeLeaf::Record(vec![Number { lexeme: "1.0".into() }, Number { lexeme: "2.0".into() }]))
    );
}

fn with_root(root: RawTree) -> TreeDefinition {
    TreeDefinition { root, ..scalar_tree() }
}

fn match_node(cases: &[&[&str]]) -> RawTree {
    RawTree::Match {
        input: "category".into(),
        cases: cases
            .iter()
            .map(|values| DecisionTreeMatchCase {
                values: values.iter().map(|v| (*v).to_string()).collect(),
                subtree: leaf("3.0"),
            })
            .collect(),
    }
}

#[test]
fn rejects_invalid_leaves_and_match_groups() {
    let record = TreeDefinition {
        name: "RecordTree".into(),
        inputs: tree_inputs(),
        output: "#/$defs/Range".into(),
        root: RawTree::Leaf(DecisionTreeLeafValue::Record(vec![("low".into(), "1.0".into())])),
        output_type: Some(Outputs::Record { name: "Range".into(), fields: vec![field("low"), field("high")] }),
    };
    let error = validate_tree_definition(&record).unwrap_err();
    assert_eq!(error.message(), "tree `RecordTree` root: keys must exactly match output fields");

    let overlap = with_root(match_node(&[&["fine"], &["coarse", "fine"]]));
    let error = validate_tree_definition(&overlap).unwrap_err();
    assert_eq!(error.kind, TreeErrorKind::OverlappingMember("fine".into()));
    assert_eq!(error.message(), "tree `ScalarTree` root: match cases overlap on enum member `fine`");

    let incomplete = with_root(match_node(&[&["fine"]]));
    let error = validate_tree_definition(&incomplete).unwrap_err();
    assert_eq!(error.message(), "tree `ScalarTree` root: match cases must cover every member of enum `Category` exactly once");

    assert!(validate_tree_definition(&with_root(match_node(&[&["fine"], &["coarse"]]))).is_ok());
}

#[test]
fn rejects_predicates_with_wrong_input_types_or_members() {
    let split = |split: DecisionTreeSplit| with_root(RawTree::Split { split, yes: leaf("1.0"), no: leaf("2.0") });
    let cases = [
        (DecisionTreeSplit::LessThan { input: "category".into(), value: "2.0".into() }, "must be numeric for operator `lt`"),
        (DecisionTreeSplit::EnumIn { input: "predictor".into(), values: vec!["coarse".into()] }, "must be an enum for operator `in`"),
        (DecisionTreeSplit::EnumIn { input: "category".into(), values: vec!["missing".into()] }, "unknown member `missing` of enum `Category`"),
        (DecisionTreeSplit::EnumIn { input: "missing".into(), values: vec!["coarse".into()] }, "unknown input `missing`"),
        (DecisionTreeSplit::EnumIn { input: "category".into(), values: vec![] }, "requires at least one enum member"),
        (DecisionTreeSplit::EnumIn { input: "category".into(), values: vec!["fine".into(), "fine".into()] }, "repeats enum member `fine`"),
    ];
    for (test, expected) in cases {
        let message = validate_tree_definition(&split(test)).unwrap_err().message();
        assert!(message.ends_with(expected), "{message}");
    }
}

#[test]
fn reports_the_path_of_a_nested_fault() {
    let root = RawTree::Split {
        split: DecisionTreeSplit::LessThan { input: "predictor".into(), value: "2.0".into() },
        yes: leaf("1.0"),
        no: Box::new(RawTree::Match {
            input: "category".into(),
            cases: vec![
                DecisionTreeMatchCase { values: vec!["coarse".into()], subtree: leaf("1.0") },
                DecisionTreeMatchCase { values: vec!["fine".into()], subtree: leaf("1e400") },
            ],
        }),
    };
    let error = validate_tree_definition(&with_root(root)).unwrap_err();
    assert_eq!(error.path, "root.no.match.cases[1].then");
    assert_eq!(error.kind, TreeErrorKind::NonFiniteNumber("1e400".into()));
    assert_eq!(error.message(), "tree `ScalarTree` root.no.match.cases[1].then: number `1e400` is not a finite f64");
}

#[test]
fn orders_names_once_each() {
    let names = vec!["predictor".to_string(), "category".into(), "predictor".into(), "cat".into()];
    assert_eq!(names_in_order(&names), vec!["cat".to_string(), "category".into(), "predictor".into()]);
    assert!(text_before("a", "b"));
    assert!(text_before("ab", "abc"));
    assert!(!text_before("abc", "ab"));
    assert!(!text_before("b", "b"));
    assert!(text_before("Z", "a"));
}
