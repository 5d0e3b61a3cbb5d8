use ptfkit_codegen::formula::{parse, BinaryOp, Span};
use ptfkit_codegen::model::{
    EnumDefinition, EnumType, EnumValue, LookupDefinition, LookupValue, OutputField, Outputs, RawExpression,
    RawFunction, RawInput, RawInputType, RawLookup, RawVariable, RawVariableValue, SourceLocation,
};
use ptfkit_codegen::semantic::{compile, Expr, Number, Reference, SemanticErrorKind, VariableValue};

fn expression(path: &str, source: &str) -> RawExpression {
    RawExpression {
        implementation_path: path.into(),
        source_location: SourceLocation { line: 1, column: 1 },
        expression: parse(path, source).unwrap(),
    }
}

fn function(inputs: &[&str], variables: Vec<RawVariable>) -> RawFunction {
    RawFunction {
        specification_path: "specs/functions/example.md".into(),
        name: "example".into(),
        inputs: inputs
            .iter()
            .map(|name| RawInput { name: (*name).into(), value_type: RawInputType::Number })
            .collect(),
        variables,
    }
}

fn variable(name: &str, path: &str, source: &str) -> RawVariable {
    RawVariable { name: name.into(), value: RawVariableValue::Expression(expression(path, source)) }
}

#[test]
fn resolves_ordered_variables_and_reuses_prior_values() {
    let raw = function(
        &["x", "y"],
        vec![
            variable("first", "implementation.variables[0]", "y + 1"),
            variable("second", "implementation.variables[1]", "first * x"),
            variable("third", "implementation.variables[2]", "second - first"),
        ],
    );
    let compiled = compile(&raw).unwrap();
    let expected = [
        Expr::Binary {
            op: BinaryOp::Add,
            left: Box::new(Expr::Reference(Reference::Input(1))),
            right: Box::new(Expr::Number(Number { lexeme: "1".into() })),
        },
        Expr::Binary {
            op: BinaryOp::Multiply,
            left: Box::new(Expr::Reference(Reference::Variable(0))),
            right: Box::new(Expr::Reference(Reference::Input(0))),
        },
        Expr::Binary {
            op: BinaryOp::Subtract,
            left: Box::new(Expr::Reference(Reference::Variable(1))),
            right: Box::new(Expr::Reference(Reference::Variable(0))),
        },
    ];
    assert_eq!(
        compiled.variables.iter().map(|variable| variable.name.as_str()).collect::<Vec<_>>(),
        ["first", "second", "third"]
    );
    assert_eq!(
        compiled.variables.iter().map(|variable| variable.value.as_expression().unwrap()).collect::<Vec<_>>(),
        expected.iter().collect::<Vec<_>>()
    );
}

fn example_enum() -> EnumDefinition {
    EnumDefinition {
        enum_type: EnumType { document: String::new(), name: "ExampleEnum".into(), shared_module: None },
        description: "Example enum.".into(),
        values: vec![
            EnumValue { name: "first".into(), value: "first".into(), description: None },
            EnumValue { name: "second".into(), value: "second".into(), description: None },
        ],
    }
}

#[test]
fn lookup_cases_follow_enum_order() {
    let enum_type = example_enum();
    let lookup_definition = LookupDefinition {
        name: "ExampleLookup".into(),
        input: "#/$defs/ExampleEnum".into(),
        output: "#/$defs/ExampleOutput".into(),
        values: vec![
            LookupValue { key: "second".into(), value: vec![("value".into(), format!("{:?}", 2.0f64))] },
            LookupValue { key: "first".into(), value: vec![("value".into(), format!("{:?}", 1.0f64))] },
        ],
        input_type: Some(example_enum()),
        output_type: Some(Outputs::Record {
            name: "ExampleRecord".into(),
            fields: vec![OutputField {
                name: "value".into(),
                quantity: String::new(),
                symbol: None,
                unit: "dimensionless".into(),
                reported_unit: "1".into(),
                domain: None,
                description: "Example value.".into(),
            }],
        }),
    };
    let raw = RawFunction {
        specification_path: "specs/functions/example.md".into(),
        name: "example".into(),
        inputs: vec![RawInput { name: "kind".into(), value_type: RawInputType::Enum(enum_type) }],
        variables: vec![RawVariable {
            name: "row".into(),
            value: RawVariableValue::Lookup(Box::new(RawLookup {
                implementation_path: "implementation.variables[0].lookup".into(),
                key: "kind".into(),
                definition: lookup_definition,
            })),
        }],
    };
    let compiled = compile(&raw).unwrap();
    let VariableValue::RecordLookup(lookup) = &compiled.variables[0].value else {
        panic!("expected record lookup");
    };
    assert_eq!(lookup.cases.iter().map(|case| case.member.as_str()).collect::<Vec<_>>(), ["first", "second"]);
    assert_eq!(
        lookup.cases.iter().map(|case| case.values[0].lexeme.parse::<f64>().unwrap()).collect::<Vec<_>>(),
        [1.0, 2.0]
    );
}

#[test]
fn rejects_unknown_forward_and_self_references_with_expression_paths() {
    for (source, kind) in [
        ("missing", SemanticErrorKind::UnknownIdentifier { name: "missing".into() }),
        ("later", SemanticErrorKind::ForwardReference { name: "later".into() }),
        ("current", SemanticErrorKind::SelfReference { name: "current".into() }),
    ] {
        let variables = vec![
            variable("current", "implementation.variables[0]", source),
            variable("later", "implementation.variables[1]", "1"),
        ];
        let error = compile(&function(&[], variables)).unwrap_err();
        assert_eq!(error.kind, kind);
        assert_eq!(error.specification_path, "specs/functions/example.md");
        assert_eq!(error.function, "example");
        assert_eq!(error.implementation_path, "implementation.variables[0]");
        assert_eq!(error.span, Span { start: 0, end: source.len() });
    }
}

#[test]
fn repeated_expression_retains_both_source_locations() {
    let mut first = expression("implementation.variables[0].expr", "sqrt(x)");
    first.source_location = SourceLocation { line: 10, column: 4 };
    let mut later = expression("implementation.variables[1].expr", "1 + sqrt(x)");
    later.source_location = SourceLocation { line: 20, column: 6 };
    let raw = function(
        &["x"],
        vec![
            RawVariable { name: "first".into(), value: RawVariableValue::Expression(first) },
            RawVariable { name: "later".into(), value: RawVariableValue::Expression(later) },
        ],
    );
    let error = compile(&raw).unwrap_err();
    assert_eq!(error.source_location, Some(SourceLocation { line: 10, column: 4 }));
    assert_eq!(error.span, Span { start: 0, end: 7 });
    assert_eq!(
        error.kind,
        SemanticErrorKind::RepeatedExpression {
            specification_path: "specs/functions/example.md".into(),
            location: SourceLocation { line: 20, column: 6 },
            span: Span { start: 4, end: 11 },
        }
    );
    assert_eq!(
        error.message(),
        "specs/functions/example.md:10:4..11: expression is repeated at specs/functions/example.md:20:10..17; it must be moved into a variable declared before it"
    );
}

#[test]
fn rejects_duplicate_names() {
    let duplicate_input = function(&["x", "x"], Vec::new());
    assert!(compile(&duplicate_input).unwrap_err().message().contains("duplicate name `x`"));
    let duplicate_variable = function(
        &[],
        vec![
            variable("x", "implementation.variables[0]", "1"),
            variable("x", "implementation.variables[1]", "1"),
        ],
    );
    assert!(compile(&duplicate_variable).unwrap_err().message().contains("duplicate name `x`"));
}

#[test]
fn rejects_unknown_functions_and_wrong_arities() {
    let unknown = function(&["x"], vec![variable("value", "implementation.variables[0]", "nope(x)")]);
    assert!(compile(&unknown).unwrap_err().message().contains("unsupported function `nope`"));
    for source in ["sqrt(x, x)", "exp()", "ln(x, x)", "log10()", "abs(x, x)", "min(x)", "max(x, x, x)"] {
        let raw = function(&["x"], vec![variable("value", "implementation.variables[0]", source)]);
        assert!(compile(&raw).unwrap_err().message().contains("expects"), "{source}");
    }
}

#[test]
fn reports_errors_with_the_function_and_implementation_path() {
    let raw = function(&["x"], vec![variable("value", "implementation.variables[0]", "x + y")]);
    assert_eq!(
        compile(&raw).unwrap_err().message(),
        "specs/functions/example.md -> function example -> implementation.variables[0]:4..5: unknown identifier `y`"
    );
}

#[test]
fn a_lookup_key_of_another_type_is_rejected() {
    let mut raw = function(&["kind"], Vec::new());
    raw.variables.push(RawVariable {
        name: "row".into(),
        value: RawVariableValue::Lookup(Box::new(RawLookup {
            implementation_path: "implementation.variables[0].lookup".into(),
            key: "kind".into(),
            definition: LookupDefinition {
                name: "ExampleLookup".into(),
                input: "#/$defs/ExampleEnum".into(),
                output: "#/$defs/ExampleOutput".into(),
                values: Vec::new(),
                input_type: Some(EnumDefinition { values: Vec::new(), ..example_enum() }),
                output_type: Some(Outputs::Record { name: "ExampleRecord".into(), fields: Vec::new() }),
            },
        })),
    });
    let error = compile(&raw).unwrap_err();
    assert_eq!(
        error.kind,
        SemanticErrorKind::LookupKeyType { key: "kind".into(), expected: "ExampleEnum".into() }
    );
}

#[test]
fn record_fields_resolve_through_a_lookup_variable() {
    let mut raw = function(&[], Vec::new());
    raw.inputs.push(RawInput { name: "kind".into(), value_type: RawInputType::Enum(example_enum()) });
    let field = OutputField {
        name: "value".into(),
        quantity: String::new(),
        symbol: None,
        unit: "1".into(),
        reported_unit: "1".into(),
        domain: None,
        description: String::new(),
    };
    raw.variables.push(RawVariable {
        name: "row".into(),
        value: RawVariableValue::Lookup(Box::new(RawLookup {
            implementation_path: "implementation.variables[0].lookup".into(),
            key: "kind".into(),
            definition: LookupDefinition {
                name: "ExampleLookup".into(),
                input: "#/$defs/ExampleEnum".into(),
                output: "#/$defs/ExampleOutput".into(),
                values: vec![
                    LookupValue { key: "first".into(), value: vec![("value".into(), "1.0".into())] },
                    LookupValue { key: "second".into(), value: vec![("value".into(), "2.0".into())] },
                ],
                input_type: Some(example_enum()),
                output_type: Some(Outputs::Record { name: "ExampleRecord".into(), fields: vec![field] }),
            },
        })),
    });
    raw.variables.push(variable("doubled", "implementation.variables[1]", "2 * row.value"));
    raw.variables.push(variable("bad", "implementation.variables[2]", "row.other"));
    let error = compile(&raw).unwrap_err();
    assert_eq!(
        error.kind,
        SemanticErrorKind::UnknownRecordField { record: "ExampleRecord".into(), field: "other".into() }
    );
    raw.variables.pop();
    let compiled = compile(&raw).unwrap();
    assert_eq!(
        compiled.variables[1].value.as_expression(),
        Some(&Expr::Binary {
            op: BinaryOp::Multiply,
            left: Box::new(Expr::Number(Number { lexeme: "2".into() })),
            right: Box::new(Expr::Field { record: Reference::Variable(0), field: "value".into() }),
        })
    );
}
