use ptfkit_codegen::compile::{
    functions, verification_cases, CompileError, CompiledInput, CompiledTolerance, Output, ToleranceSource,
};
use ptfkit_codegen::formula::parse;
use ptfkit_codegen::model::{
    Documentation, EnumDefinition, EnumType, EnumValue, Function, FunctionScope, Input, Models, OutputField, Outputs,
    Parameter, PublicApi, VerificationCase, VerificationInput, VerificationKind,
};
use ptfkit_codegen::model::{
    Entry, Quantity, QuantityRegistry as Quantities, QuantityUnit, RawExpression, RawFunction, RawInput, RawInputType,
    RawVariable, RawVariableValue, Scope, Source, SourceLocation, Spec, ToleranceOverride, Unit,
};
use ptfkit_codegen::semantic::{compile, Function as SemanticFunction};

fn texture() -> EnumDefinition {
    EnumDefinition {
        enum_type: EnumType { document: "specs/functions/example.yaml".into(), name: "Texture".into(), shared_module: None },
        description: "Texture class.".into(),
        values: vec![
            EnumValue { name: "sand".into(), value: "sand".into(), description: None },
            EnumValue { name: "clay".into(), value: "clay".into(), description: None },
        ],
    }
}

fn field(name: &str) -> OutputField {
    OutputField {
        name: name.into(),
        quantity: "water_content".into(),
        symbol: None,
        unit: "m3/m3".into(),
        reported_unit: "m3/m3".into(),
        domain: None,
        description: "A value.".into(),
    }
}

fn function(cases: Vec<VerificationCase>) -> Function {
    Function {
        name: "calc_ptf_example".into(),
        status: "implemented".into(),
        public_api: PublicApi { name: "example".into(), result_class: None, summary: "Example.".into() },
        scope: FunctionScope { territory: None, prediction_target: "theta".into(), models: Models { h_theta: None, k_h: None } },
        inputs: vec![
            Input::Parameter(Parameter { name: "sand".into(), unit: "%".into(), domain: None, description: "Sand.".into() }),
            Input::Enum { name: "texture".into(), description: None, definition: texture() },
        ],
        outputs: Outputs::Record { name: "Result".into(), fields: vec![field("theta_s"), field("theta_r")] },
        verification_tolerances: vec![],
        verification_cases: cases,
        edge_cases: vec![],
        documentation: Documentation { notes: vec![], warnings: vec![] },
    }
}

fn case(id: &str, inputs: Vec<(&str, VerificationInput)>, expected: &[(&str, f64)]) -> VerificationCase {
    VerificationCase {
        id: id.into(),
        kind: VerificationKind::Published,
        inputs: inputs.into_iter().map(|(k, v)| (k.to_string(), v)).collect(),
        expected: expected.iter().map(|(k, v)| (k.to_string(), v.to_bits())).collect(),
    }
}

fn good_inputs() -> Vec<(&'static str, VerificationInput)> {
    vec![("sand", VerificationInput::Number(40.0f64.to_bits())), ("texture", VerificationInput::Enum("clay".into()))]
}

#[test]
fn orders_case_values_by_inputs_and_fields() {
    let f = function(vec![case("c1", good_inputs(), &[("theta_r", 0.1), ("theta_s", 0.45)])]);
    let cases = verification_cases(&f).unwrap();
    assert_eq!(cases.len(), 1);
    assert_eq!(cases[0].id, "c1");
    assert_eq!(cases[0].inputs[0], CompiledInput::Number(40.0f64.to_bits()));
    assert_eq!(
        cases[0].inputs[1],
        CompiledInput::Enum { enum_type: texture().enum_type, member_name: "clay".into() }
    );
    assert_eq!(cases[0].expected, vec![0.45f64.to_bits(), 0.1f64.to_bits()]);
}

#[test]
fn reports_each_case_fault() {
    let expected = [("theta_r", 0.1), ("theta_s", 0.45)];
    let unknown = function(vec![case(
        "c1",
        vec![("other", VerificationInput::Number(1)), ("sand", VerificationInput::Number(1))],
        &expected,
    )]);
    let error = verification_cases(&unknown).unwrap_err();
    assert_eq!(error, CompileError::UnknownInput { case_id: "c1".into(), name: "other".into() });
    assert_eq!(error.message(), "verification case `c1` references unknown input `other`");

    let missing = function(vec![case("c2", vec![("sand", VerificationInput::Number(1))], &expected)]);
    assert_eq!(verification_cases(&missing).unwrap_err().message(), "verification case `c2` is missing input `texture`");

    let member = function(vec![case(
        "c3",
        vec![("sand", VerificationInput::Number(1)), ("texture", VerificationInput::Enum("loam".into()))],
        &expected,
    )]);
    assert_eq!(
        verification_cases(&member).unwrap_err().message(),
        "verification case `c3` input `texture` references unknown member `loam` of enum `Texture`"
    );

    let numeric = function(vec![case(
        "c4",
        vec![("sand", VerificationInput::Enum("clay".into())), ("texture", VerificationInput::Enum("clay".into()))],
        &expected,
    )]);
    assert_eq!(verification_cases(&numeric).unwrap_err().message(), "verification case `c4` input `sand` must be numeric");

    let categorical = function(vec![case(
        "c5",
        vec![("sand", VerificationInput::Number(1)), ("texture", VerificationInput::Number(1))],
        &expected,
    )]);
    assert_eq!(
        verification_cases(&categorical).unwrap_err().message(),
        "verification case `c5` input `texture` must name a member of enum `Texture`"
    );

    let output = function(vec![case("c6", good_inputs(), &[("theta_r", 0.1), ("theta_s", 0.45), ("theta_x", 1.0)])]);
    assert_eq!(verification_cases(&output).unwrap_err().message(), "verification case `c6` references unknown output `theta_x`");

    let missing_output = function(vec![case("c7", good_inputs(), &[("theta_r", 0.1)])]);
    assert_eq!(
        verification_cases(&missing_output).unwrap_err().message(),
        "verification case `c7` is missing expected output `theta_s`"
    );
}

#[test]
fn the_first_faulty_case_wins() {
    let f = function(vec![
        case("good", good_inputs(), &[("theta_r", 0.1), ("theta_s", 0.45)]),
        case("bad", good_inputs(), &[("theta_r", 0.1)]),
        case("worse", vec![], &[]),
    ]);
    assert_eq!(
        verification_cases(&f).unwrap_err(),
        CompileError::MissingOutput { case_id: "bad".into(), name: "theta_s".into() }
    );
}

fn registry() -> Quantities {
    Quantities {
        quantities: vec![(
            "water_content".into(),
            Quantity {
                description: "Water content.".into(),
                units: vec![(
                    "m3/m3".into(),
                    QuantityUnit { absolute_valid: true, relative_valid: true, rationale: "Published precision.".into() },
                )],
            },
        )],
        units: vec![("m3/m3".into(), Unit { preferred_notation: "m3/m3".into(), aliases: vec![] })],
    }
}

fn entry(functions: Vec<Function>) -> Entry {
    Entry {
        path: "specs/functions/example.yaml".into(),
        slug: "example".into(),
        spec: Spec {
            source: Source { summary: "Example.".into(), citation_apa: "Example (2000).".into(), doi: None },
            scope: Scope { territory: None, dataset: None },
            scientific_notes: String::new(),
            functions,
        },
    }
}

fn compiled_ir() -> SemanticFunction {
    compile(&RawFunction {
        specification_path: "specs/functions/example.yaml".into(),
        name: "calc_ptf_example".into(),
        inputs: vec![RawInput { name: "sand".into(), value_type: RawInputType::Number }],
        variables: vec![RawVariable {
            name: "theta_s".into(),
            value: RawVariableValue::Expression(RawExpression {
                implementation_path: "implementation.variables[0].expr".into(),
                source_location: SourceLocation { line: 1, column: 1 },
                expression: parse("formula", "sand * 2").unwrap(),
            }),
        }],
    })
    .unwrap()
}

fn with_status(status: &str) -> Function {
    let mut f = function(vec![case("c1", good_inputs(), &[("theta_r", 0.1), ("theta_s", 0.45)])]);
    f.status = status.into();
    f
}

#[test]
fn compiles_only_functions_that_code_is_generated_for() {
    let entries = vec![entry(vec![with_status("blocked"), with_status("implemented")]), entry(vec![with_status("ready-for-implementation")])];
    let implementations = vec![vec![None, Some(compiled_ir())], vec![Some(compiled_ir())]];
    let compiled = functions(&entries, &implementations, &registry()).unwrap();
    assert_eq!(compiled.len(), 2);
    assert_eq!((compiled[0].entry_index, compiled[0].function_index), (0, 1));
    assert_eq!((compiled[1].entry_index, compiled[1].function_index), (1, 0));
    assert_eq!(compiled[0].core.name, "calc_ptf_example");
    assert_eq!(compiled[0].core.inputs, vec!["sand".to_string(), "texture".to_string()]);
    assert_eq!(compiled[0].core.output, Output::Struct(vec!["theta_s".into(), "theta_r".into()]));
    assert_eq!(compiled[0].verification_cases[0].expected, vec![0.45f64.to_bits(), 0.1f64.to_bits()]);
    assert_eq!(
        compiled[0].output_tolerances[0],
        CompiledTolerance { quantity: "water_content".into(), unit: "m3/m3".into(), source: ToleranceSource::Registry }
    );
}

#[test]
fn an_override_replaces_the_registry_tolerance() {
    let mut f = with_status("implemented");
    f.verification_tolerances = vec![(
        "theta_r".into(),
        ToleranceOverride { absolute_valid: true, relative_valid: true, source_location: "Table 2".into() },
    )];
    let compiled = functions(&vec![entry(vec![f])], &vec![vec![Some(compiled_ir())]], &registry()).unwrap();
    assert_eq!(compiled[0].output_tolerances[0].source, ToleranceSource::Registry);
    assert_eq!(compiled[0].output_tolerances[1].source, ToleranceSource::SourceOverride("Table 2".into()));
}

#[test]
fn compiling_functions_reports_the_first_fault() {
    let missing = functions(&vec![entry(vec![with_status("implemented")])], &vec![vec![None]], &registry());
    assert_eq!(missing.unwrap_err(), CompileError::MissingImplementation { function: "calc_ptf_example".into() });
    assert_eq!(
        CompileError::MissingImplementation { function: "calc_ptf_example".into() }.message(),
        "compiling calc_ptf_example: implementation is unavailable"
    );
    let mut unknown = with_status("implemented");
    if let Outputs::Record { fields, .. } = &mut unknown.outputs {
        fields[1].quantity = "suction".into();
    }
    let error = functions(&vec![entry(vec![unknown])], &vec![vec![Some(compiled_ir())]], &registry()).unwrap_err();
    assert_eq!(
        error,
        CompileError::UnknownQuantity { function: "calc_ptf_example".into(), output: "theta_r".into(), quantity: "suction".into() }
    );
    assert_eq!(error.message(), "function `calc_ptf_example` output `theta_r` references unknown quantity `suction`");
    let mut unregistered = with_status("implemented");
    if let Outputs::Record { fields, .. } = &mut unregistered.outputs {
        fields[0].unit = "cm3/cm3".into();
    }
    let error = functions(&vec![entry(vec![unregistered])], &vec![vec![Some(compiled_ir())]], &registry()).unwrap_err();
    assert_eq!(
        error.message(),
        "function `calc_ptf_example` output `theta_s` quantity `water_content` has no registered unit `cm3/cm3`"
    );
}
