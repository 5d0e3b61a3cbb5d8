use ptfkit_codegen::definitions::{resolve_input_type, resolve_lookup_definition, resolve_signature, resolve_tree_definition};
use ptfkit_codegen::model::{
    DecisionTree, DecisionTreeLeafValue, Definition, DefinitionError, EnumDefinition, EnumType, EnumValue, Input, InputReference,
    OutputReference,
    LookupDefinition, LookupValue, OutputField, Outputs, Parameter, TreeDefinition, TreeInput,
};

fn texture() -> EnumDefinition {
    EnumDefinition {
        enum_type: EnumType { document: "specs/functions/example.yaml".into(), name: String::new(), shared_module: None },
        description: "Texture class.".into(),
        values: vec![
            EnumValue { name: "sand".into(), value: "sand".into(), description: None },
            EnumValue { name: "clay".into(), value: "clay".into(), description: None },
        ],
    }
}

fn field(name: &str) -> OutputField {
    OutputField {
        name: name.into(),
        quantity: "water_content".into(),
        symbol: None,
        unit: "m3/m3".into(),
        reported_unit: "m3/m3".into(),
        domain: None,
        description: "A value.".into(),
    }
}

fn definitions() -> Vec<(String, Definition)> {
    vec![
        ("Range".into(), Definition::Output(Outputs::Record { name: "Range".into(), fields: vec![field("low"), field("high")] })),
        ("Sand".into(), Definition::Parameter(Parameter { name: "sand".into(), unit: "%".into(), domain: None, description: "Sand.".into() })),
        ("Texture".into(), Definition::Enum(texture())),
        ("Value".into(), Definition::Output(Outputs::Scalar { field: field("value") })),
    ]
}

#[test]
fn resolves_enumeration_inputs_under_their_reference_name() {
    let input = resolve_input_type(&"texture".into(), &None, "#/$defs/Texture", &definitions(), "calc_ptf_example").unwrap();
    let Input::Enum { name, definition, .. } = input else { panic!("expected an enumeration input") };
    assert_eq!(name, "texture");
    assert_eq!(definition.enum_type.name, "Texture");
    assert_eq!(definition.values.len(), 2);

    let error = resolve_input_type(&"sand".into(), &None, "#/$defs/Sand", &definitions(), "calc_ptf_example").unwrap_err();
    assert_eq!(error.message(), "function calc_ptf_example input sand references non-enum definition `Sand` as its type");
    let error = resolve_input_type(&"x".into(), &None, "#/$defs/Missing", &definitions(), "calc_ptf_example").unwrap_err();
    assert_eq!(error.message(), "function calc_ptf_example input x references unknown enum definition `Missing`");
    let error = resolve_input_type(&"x".into(), &None, "Texture", &definitions(), "calc_ptf_example").unwrap_err();
    assert_eq!(error, DefinitionError::ReferencePrefix { reference: "Texture".into() });
}

fn row(key: &str, fields: &[&str]) -> LookupValue {
    LookupValue { key: key.into(), value: fields.iter().map(|f| (f.to_string(), "1.0".to_string())).collect() }
}

fn lookup(rows: Vec<LookupValue>) -> LookupDefinition {
    LookupDefinition {
        name: String::new(),
        input: "#/$defs/Texture".into(),
        output: "#/$defs/Range".into(),
        values: rows,
        input_type: None,
        output_type: None,
    }
}

#[test]
fn resolves_lookups_and_checks_their_rows() {
    let resolved =
        resolve_lookup_definition("Table", lookup(vec![row("clay", &["high", "low"]), row("sand", &["low", "high"])]), &definitions())
            .unwrap();
    assert_eq!(resolved.name, "Table");
    assert_eq!(resolved.input_type.unwrap().enum_type.name, "Texture");

    let message = |rows| resolve_lookup_definition("Table", lookup(rows), &definitions()).unwrap_err().message();
    assert_eq!(
        message(vec![row("sand", &["low", "high"]), row("sand", &["low", "high"])]),
        "lookup `Table` has duplicate key `sand` at value 1"
    );
    assert_eq!(message(vec![row("loam", &["low", "high"])]), "lookup `Table` has unknown enum member `loam` at value 0");
    assert_eq!(message(vec![row("sand", &["low"])]), "lookup `Table` value 0 keys must exactly match output fields");
    assert_eq!(
        message(vec![row("sand", &["low", "high"])]),
        "lookup `Table` values must cover every member of enum `Texture` exactly once"
    );

    let mut scalar = lookup(vec![]);
    scalar.output = "#/$defs/Value".into();
    assert_eq!(
        resolve_lookup_definition("Table", scalar, &definitions()).unwrap_err().message(),
        "lookup `Table` output must reference a record definition"
    );
}

fn tree(inputs: Vec<TreeInput>, output: &str) -> TreeDefinition {
    TreeDefinition {
        name: String::new(),
        inputs,
        output: output.into(),
        root: DecisionTree::Leaf(DecisionTreeLeafValue::Number("1.0".into())),
        output_type: None,
    }
}

fn enum_input(name: &str, reference: &str) -> TreeInput {
    TreeInput::Enum { name: name.into(), reference: reference.into(), definition: None }
}

#[test]
fn resolves_trees_and_reports_their_faults() {
    let resolved = resolve_tree_definition(
        "ScalarTree",
        tree(vec![enum_input("category", "#/$defs/Texture"), TreeInput::Number { name: "x".into() }], "#/$defs/Value"),
        &definitions(),
    )
    .unwrap();
    assert_eq!(resolved.name, "ScalarTree");
    let TreeInput::Enum { definition: Some(definition), .. } = &resolved.inputs[0] else { panic!("expected a resolved input") };
    assert_eq!(definition.enum_type.name, "Texture");

    let message = |inputs, output: &str| resolve_tree_definition("T", tree(inputs, output), &definitions()).unwrap_err().message();
    assert_eq!(
        message(vec![TreeInput::Number { name: "x".into() }, TreeInput::Number { name: "x".into() }], "#/$defs/Value"),
        "tree `T` inputs: duplicate input `x`"
    );
    assert_eq!(message(vec![enum_input("c", "#/$defs/Sand")], "#/$defs/Value"), "tree `T` inputs: input `c` must reference an enum definition");
    assert_eq!(
        message(vec![enum_input("c", "#/$defs/Soil")], "#/$defs/Value"),
        "tree `T` inputs: input `c` references unknown enum definition `Soil`"
    );
    assert_eq!(message(vec![], "#/$defs/Texture"), "tree `T` output: output must reference an output definition");
    assert_eq!(message(vec![], "#/$defs/Other"), "tree `T` output: unknown output type `Other`");
    assert_eq!(message(vec![], "#/$defs/Range"), "tree `T` root: must be a record leaf");
}

#[test]
fn resolves_declared_signatures() {
    let inputs = vec![
        InputReference::Reference("#/$defs/Sand".into()),
        InputReference::Type { name: "texture".into(), description: Some("Class.".into()), reference: "#/$defs/Texture".into() },
    ];
    let (resolved, outputs) =
        resolve_signature("calc_ptf_example", &inputs, &OutputReference::Reference("#/$defs/Range".into()), &definitions()).unwrap();
    assert_eq!(resolved.len(), 2);
    assert_eq!(resolved[0].name(), "sand");
    assert_eq!(resolved[1].name(), "texture");
    assert!(matches!(outputs, Outputs::Record { .. }));

    let error = |inputs: Vec<InputReference>, output: &str| {
        resolve_signature("f", &inputs, &OutputReference::Reference(output.into()), &definitions()).unwrap_err().message()
    };
    assert_eq!(
        error(vec![InputReference::Reference("#/$defs/Texture".into())], "#/$defs/Range"),
        "function f must bind a name when referencing type definition `Texture` as an input"
    );
    assert_eq!(
        error(vec![InputReference::Reference("#/$defs/Value".into())], "#/$defs/Range"),
        "function f references output definition `Value` as an input"
    );
    assert_eq!(error(vec![InputReference::Reference("#/$defs/Nothing".into())], "#/$defs/Range"), "function f references unknown definition `Nothing`");
    assert_eq!(error(vec![], "#/$defs/Sand"), "function f references parameter definition `Sand` as an output");
    assert_eq!(error(vec![], "#/$defs/Texture"), "function f references non-output definition `Texture` as an output");
    assert_eq!(error(vec![], "#/$defs/a/b"), "reference `#/$defs/a/b` must name exactly one local definition");
}
