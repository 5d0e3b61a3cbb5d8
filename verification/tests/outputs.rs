use ptfkit_codegen::formula::parse;
use ptfkit_codegen::model::{
    Documentation, Function, FunctionScope, Input, Models, OutputField, Outputs, Parameter, PublicApi, RawExpression, RawFunction,
    RawInput, RawInputType, RawVariable, RawVariableValue, SourceLocation,
};
use ptfkit_codegen::semantic::{compile, ResultBinding};
use ptfkit_codegen::specs::{validate_output, OutputError};

fn field(name: &str) -> OutputField {
    OutputField {
        name: name.into(),
        quantity: "water_content".into(),
        symbol: None,
        unit: "m3/m3".into(),
        reported_unit: "m3/m3".into(),
        domain: None,
        description: "A value.".into(),
    }
}

fn declared(outputs: Outputs) -> Function {
    Function {
        name: "calc_ptf_example".into(),
        status: "implemented".into(),
        public_api: PublicApi { name: "example".into(), result_class: None, summary: "Example.".into() },
        scope: FunctionScope { territory: None, prediction_target: "theta".into(), models: Models { h_theta: None, k_h: None } },
        inputs: vec![Input::Parameter(Parameter { name: "x".into(), unit: "%".into(), domain: None, description: "X.".into() })],
        outputs,
        verification_tolerances: vec![],
        verification_cases: vec![],
        edge_cases: vec![],
        documentation: Documentation { notes: vec![], warnings: vec![] },
    }
}

fn implementation(variables: &[(&str, &str)]) -> RawFunction {
    RawFunction {
        specification_path: "specs/functions/example.yaml".into(),
        name: "calc_ptf_example".into(),
        inputs: vec![RawInput { name: "x".into(), value_type: RawInputType::Number }],
        variables: variables
            .iter()
            .enumerate()
            .map(|(index, (name, source))| RawVariable {
                name: (*name).into(),
                value: RawVariableValue::Expression(RawExpression {
                    implementation_path: format!("implementation.variables[{index}].expr"),
                    source_location: SourceLocation { line: 1, column: 1 },
                    expression: parse("formula", source).unwrap(),
                }),
            })
            .collect(),
    }
}

#[test]
fn binds_scalar_outputs_to_variables_of_their_name() {
    let compiled = compile(&implementation(&[("theta", "x * 2")])).unwrap();
    let function = declared(Outputs::Scalar { field: field("theta") });
    assert_eq!(validate_output("specs/functions/example.yaml", &function, &compiled), Ok(ResultBinding::Fields));
}

#[test]
fn an_input_may_give_an_output() {
    let compiled = compile(&implementation(&[("theta", "x * 2")])).unwrap();
    let function = declared(Outputs::Record { name: "Result".into(), fields: vec![field("x"), field("theta")] });
    assert_eq!(validate_output("p", &function, &compiled), Ok(ResultBinding::Fields));
}

#[test]
fn reports_outputs_without_a_variable() {
    let compiled = compile(&implementation(&[("theta", "x * 2")])).unwrap();
    let function = declared(Outputs::Record { name: "Result".into(), fields: vec![field("theta"), field("ksat"), field("alpha")] });
    let error = validate_output("specs/functions/example.yaml", &function, &compiled).unwrap_err();
    assert_eq!(
        error,
        OutputError::MissingOutputs {
            path: "specs/functions/example.yaml".into(),
            function: "calc_ptf_example".into(),
            names: vec!["ksat".into(), "alpha".into()]
        }
    );
    assert_eq!(
        error.message(),
        "specs/functions/example.yaml -> function calc_ptf_example -> implementation.variables: missing final output variables [\"ksat\", \"alpha\"]"
    );
}
