use ptfkit_codegen::compile::{verification_cases, CompileError};
use ptfkit_codegen::documentation::{for_function, Returns};
use ptfkit_codegen::model::{
    Documentation, EnumDefinition, EnumType, Function, FunctionScope, Input, Models, OutputField, Outputs, Parameter,
    PublicApi, VerificationCase, VerificationInput, VerificationKind,
};
use ptfkit_codegen::specs::{source_slug, SlugError};
use ptfkit_codegen::targets::write::drift_report;

fn output(name: &str) -> OutputField {
    OutputField {
        name: name.into(),
        quantity: "volumetric_water_content".into(),
        symbol: None,
        unit: "cm^3/cm^3".into(),
        reported_unit: "cm^3/cm^3".into(),
        domain: None,
        description: format!("{name} description."),
    }
}

fn input(name: &str) -> Input {
    Input::Parameter(Parameter { name: name.into(), unit: "cm^3/cm^3".into(), domain: None, description: format!("{name} description.") })
}

fn function(public_api: PublicApi, scope: FunctionScope, inputs: Vec<Input>, outputs: Outputs, documentation: Documentation) -> Function {
    Function {
        name: "calc_ptf_test".into(),
        status: "draft".into(),
        public_api,
        scope,
        inputs,
        outputs,
        verification_tolerances: vec![],
        verification_cases: vec![],
        edge_cases: vec![],
        documentation,
    }
}

#[test]
fn preserves_empty_optional_documentation_sections() {
    let function = function(
        PublicApi { name: "calc_ptf_test".into(), result_class: None, summary: "Estimate a test property.".into() },
        FunctionScope { territory: None, prediction_target: "Test property.".into(), models: Models { h_theta: None, k_h: None } },
        Vec::new(),
        Outputs::Scalar { field: output("result") },
        Documentation { notes: vec![], warnings: vec![] },
    );

    let document = for_function(&function);
    assert!(document.territory.is_none());
    assert!(document.models.h_theta.is_none());
    assert!(document.models.k_h.is_none());
    assert!(document.notes.is_empty());
    assert!(document.warnings.is_empty());
    assert!(matches!(document.returns, Returns::Scalar(_)));
}

#[test]
fn retains_each_record_output_field() {
    let function = function(
        PublicApi { name: "calc_ptf_test".into(), result_class: Some("TestResult".into()), summary: "Estimate test properties.".into() },
        FunctionScope {
            territory: Some("Test territory.".into()),
            prediction_target: "Test properties.".into(),
            models: Models { h_theta: Some("Retention model.".into()), k_h: Some("Conductivity model.".into()) },
        },
        vec![input("sand")],
        Outputs::Record { name: "TestResult".into(), fields: vec![output("theta_33"), output("theta_1500")] },
        Documentation { notes: vec!["A note.".into()], warnings: vec!["A warning.".into()] },
    );

    let document = for_function(&function);
    let Returns::Record { name, fields } = document.returns else {
        panic!("record outputs must retain their shape");
    };
    assert_eq!(name, "TestResult");
    assert_eq!(fields.iter().map(|field| field.name.as_str()).collect::<Vec<_>>(), ["theta_33", "theta_1500"]);
    assert_eq!(document.models.h_theta, Some("Retention model."));
    assert_eq!(document.models.k_h, Some("Conductivity model."));
    assert_eq!(document.remarks.prediction_target, "Test properties.");
}

#[test]
fn does_not_use_an_enum_type_description_for_an_undocumented_binding() {
    let input = Input::Enum {
        name: "topsoil_texture".into(),
        description: None,
        definition: EnumDefinition {
            enum_type: EnumType { document: String::new(), name: "TestCategory".into(), shared_module: None },
            description: "Test category type.".into(),
            values: Vec::new(),
        },
    };

    assert_eq!(input.description(), "");
    assert_eq!(input.enum_type().expect("enum input retains its type").description, "Test category type.");
}

#[test]
fn rejects_a_non_slug_specification_filename() {
    let error = match source_slug(Some("Bad-Slug")) {
        Ok(_) => panic!("non-slug filename unexpectedly loaded"),
        Err(error) => error,
    };
    assert_eq!(error, SlugError::InvalidSlug);
    assert!(error.message("specs/functions/Bad-Slug.yaml").contains("filename stem must be an APA-style slug"));
}

#[test]
fn rejects_missing_and_unknown_expected_outputs() {
    for (missing, diagnostic) in [(true, "missing expected output `first`"), (false, "references unknown output `other`")] {
        let mut expected = vec![("first".to_string(), 1.0f64.to_bits()), ("second".to_string(), 2.0f64.to_bits())];
        if missing {
            expected.remove(0);
        } else {
            expected.insert(1, ("other".into(), 3.0f64.to_bits()));
        }
        let mut f = function(
            PublicApi { name: "calc_ptf_test".into(), result_class: Some("Result".into()), summary: "Test.".into() },
            FunctionScope { territory: None, prediction_target: "Test.".into(), models: Models { h_theta: None, k_h: None } },
            vec![input("x")],
            Outputs::Record { name: "Result".into(), fields: vec![output("first"), output("second")] },
            Documentation { notes: vec![], warnings: vec![] },
        );
        f.verification_cases = vec![VerificationCase {
            id: "case".into(),
            kind: VerificationKind::Calculated,
            inputs: vec![("x".into(), VerificationInput::Number(1.0f64.to_bits()))],
            expected,
        }];
        let error: CompileError = verification_cases(&f).expect_err("invalid expected outputs must fail");
        assert!(error.message().contains(diagnostic), "{}", error.message());
    }
}

#[test]
fn generated_output_drift_reports_added_removed_and_modified_files() {
    let before = vec![
        ("generated/modified".to_string(), b"before".to_vec()),
        ("generated/removed".to_string(), b"removed".to_vec()),
    ];
    let after = vec![
        ("generated/added".to_string(), b"added".to_vec()),
        ("generated/modified".to_string(), b"after".to_vec()),
    ];

    assert_eq!(
        drift_report(&before, &after),
        Some("added:\n  generated/added\nremoved:\n  generated/removed\nmodified:\n  generated/modified".to_owned())
    );
}
