use ptfkit_codegen::corpus_report::{InputKind, Report};
use ptfkit_codegen::model::{
    Documentation, EnumDefinition, EnumType, EnumValue, Entry, Function, FunctionScope, Input, Models, OutputField, Outputs,
    Parameter, PublicApi, QuantityRegistry, Scope, Source, Spec, VerificationCase, VerificationInput, VerificationKind,
};

fn field(name: &str, symbol: &str, description: &str) -> OutputField {
    OutputField {
        name: name.into(),
        quantity: "dimensionless".into(),
        symbol: Some(symbol.into()),
        unit: "1".into(),
        reported_unit: "1".into(),
        domain: None,
        description: description.into(),
    }
}

fn x() -> Input {
    Input::Parameter(Parameter { name: "x".into(), unit: "1".into(), domain: None, description: "Numeric input.".into() })
}

fn category() -> Input {
    Input::Enum {
        name: "category".into(),
        description: None,
        definition: EnumDefinition {
            enum_type: EnumType {
                document: "specs/functions/tester2020.yaml".into(),
                name: "Category".into(),
                shared_module: None,
            },
            description: "Test category.".into(),
            values: vec![EnumValue { name: "first".into(), value: "first".into(), description: None }],
        },
    }
}

fn case(id: &str, kind: VerificationKind, x: f64, expected: &[(&str, f64)]) -> VerificationCase {
    VerificationCase {
        id: id.into(),
        kind,
        inputs: vec![("x".into(), VerificationInput::Number(x.to_bits()))],
        expected: expected.iter().map(|(name, value)| (name.to_string(), value.to_bits())).collect(),
    }
}

fn function(
    name: &str,
    status: &str,
    summary: &str,
    territory: Option<&str>,
    target: &str,
    models: (Option<&str>, Option<&str>),
    inputs: Vec<Input>,
    outputs: Outputs,
) -> Function {
    Function {
        name: name.into(),
        status: status.into(),
        public_api: PublicApi { name: name.into(), result_class: None, summary: summary.into() },
        scope: FunctionScope {
            territory: territory.map(Into::into),
            prediction_target: target.into(),
            models: Models { h_theta: models.0.map(Into::into), k_h: models.1.map(Into::into) },
        },
        inputs,
        outputs,
        verification_tolerances: vec![],
        verification_cases: vec![],
        edge_cases: vec![],
        documentation: Documentation { notes: vec![], warnings: vec![] },
    }
}

fn fixture() -> Entry {
    let mut implemented = function(
        "calc_ptf_test_implemented",
        "implemented",
        "Test record.",
        Some("Test function territory."),
        "Target B",
        (Some("Model B"), None),
        vec![x(), x()],
        Outputs::Record {
            name: "TestResult".into(),
            fields: vec![field("zeta", "z", "Zeta."), field("alpha", "a", "Alpha.")],
        },
    );
    implemented.verification_cases = vec![
        case("one", VerificationKind::Published, 1.0, &[("alpha", 1.0), ("zeta", 2.0)]),
        case("two", VerificationKind::Calculated, 2.0, &[("alpha", 2.0), ("zeta", 3.0)]),
    ];
    implemented.edge_cases = vec![serde_json::Value::String("edge".into())];
    let mut blocked = function(
        "calc_ptf_test_blocked",
        "blocked",
        "Test scalar.",
        None,
        "Target A",
        (None, Some("Model K")),
        vec![category()],
        Outputs::Scalar { field: field("beta", "b", "Beta.") },
    );
    blocked.documentation = Documentation {
        notes: vec!["Known source limitation.".into()],
        warnings: vec!["Required coefficients are unavailable.".into()],
    };
    let ready = function(
        "calc_ptf_test_ready",
        "ready-for-implementation",
        "Test scalar.",
        None,
        "Target A",
        (None, None),
        vec![x()],
        Outputs::Scalar { field: field("gamma", "g", "Gamma.") },
    );
    let draft = function(
        "calc_ptf_test_draft",
        "draft",
        "Test scalar.",
        None,
        "Target C",
        (None, None),
        vec![x()],
        Outputs::Scalar { field: field("delta", "d", "Delta.") },
    );
    Entry {
        path: "specs/functions/tester2020.yaml".into(),
        slug: "tester2020".into(),
        spec: Spec {
            source: Source { summary: "Test source.".into(), citation_apa: "Tester (2020).".into(), doi: None },
            scope: Scope { territory: Some("Test source territory.".into()), dataset: Some("Test dataset.".into()) },
            scientific_notes: "Blocker evidence from source review.".into(),
            functions: vec![implemented, blocked, ready, draft],
        },
    }
}

fn registry() -> QuantityRegistry {
    QuantityRegistry { quantities: vec![], units: vec![] }
}

fn kind_count(report: &Report, kind: &str) -> usize {
    report.verification.by_kind.iter().find(|count| count.value == kind).map(|count| count.count).unwrap_or(0)
}

#[test]
fn aggregates_multi_function_status_and_verification_coverage() {
    let report = Report::from_entries(&[fixture()], &registry());

    assert_eq!(report.functions.total, 4);
    assert!(report.functions.by_status.iter().all(|status| status.count == 1));
    assert_eq!(report.verification.all_functions.verification_cases, 2);
    assert_eq!(kind_count(&report, "published"), 1);
    assert_eq!(kind_count(&report, "calculated"), 1);
    assert_eq!(report.verification.published_cases, 1);
    assert_eq!(report.verification.calculated_cases, 1);
    assert_eq!(report.verification.all_functions.edge_cases, 1);
    assert_eq!(report.verification.all_functions.functions_with_verification_cases, 1);
    assert_eq!(report.verification.implemented_functions.functions, 1);
    let implemented = &report.verification.implemented_functions;
    let percentage = implemented.functions_with_edge_cases as f64 * 100.0 / implemented.functions as f64;
    assert_eq!(percentage, 100.0);
}

#[test]
fn uses_resolved_references_and_deduplicates_inputs_per_function() {
    let report = Report::from_entries(&[fixture()], &registry());
    let x = report.inputs.iter().find(|input| input.name == "x").expect("resolved x input is reported");
    let category =
        report.inputs.iter().find(|input| input.name == "category").expect("resolved category input is reported");

    assert_eq!(x.functions, 3);
    assert!(matches!(x.kind, InputKind::Numeric));
    assert!(matches!(category.kind, InputKind::Categorical));
}

#[test]
fn reports_scalar_record_outputs_and_sorted_values() {
    let report = Report::from_entries(&[fixture()], &registry());
    assert_eq!(report.outputs.scalar_functions, 3);
    assert_eq!(report.outputs.record_functions, 1);
    assert_eq!(report.outputs.field_names[0].value, "alpha");
    assert_eq!(report.scope.prediction_targets[0].value, "Target A");
}

#[test]
fn retains_blocked_functions_and_empty_optional_metadata() {
    let mut fixture = fixture();
    fixture.spec.scope.territory = None;
    fixture.spec.scope.dataset = None;
    let report = Report::from_entries(&[fixture], &registry());

    assert_eq!(report.blocked_functions.len(), 1);
    assert_eq!(report.blocked_functions[0].documentation_warnings, ["Required coefficients are unavailable."]);
    assert!(report.blocked_functions[0].scientific_notes.is_some());
    assert_eq!(report.scope.calibration_geography.source_specifications_with_dataset, 0);
}
