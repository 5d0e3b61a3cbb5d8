use ptfkit_codegen::corpus_report::{frequencies, Count, InputKind, Report};
use ptfkit_codegen::model::{
    Documentation, EnumDefinition, EnumType, EnumValue, Entry, Function, FunctionScope, Input, Models, OutputField, Outputs,
    Parameter, PublicApi, Quantity, QuantityRegistry, QuantityUnit, Scope, Source, Spec, ToleranceOverride, VerificationCase,
    VerificationKind,
};

fn field(name: &str, quantity: &str, unit: &str) -> OutputField {
    OutputField {
        name: name.into(),
        quantity: quantity.into(),
        symbol: None,
        unit: unit.into(),
        reported_unit: unit.into(),
        domain: None,
        description: "A value.".into(),
    }
}

fn parameter(name: &str) -> Input {
    Input::Parameter(Parameter { name: name.into(), unit: "%".into(), domain: None, description: "An input.".into() })
}

fn texture() -> Input {
    Input::Enum {
        name: "texture".into(),
        description: None,
        definition: EnumDefinition {
            enum_type: EnumType { document: "d".into(), name: "Texture".into(), shared_module: None },
            description: "Texture.".into(),
            values: vec![EnumValue { name: "sand".into(), value: "sand".into(), description: None }],
        },
    }
}

fn case(kind: VerificationKind) -> VerificationCase {
    VerificationCase { id: "c".into(), kind, inputs: vec![], expected: vec![] }
}

fn function(name: &str, status: &str, target: &str, inputs: Vec<Input>, outputs: Outputs, cases: Vec<VerificationCase>) -> Function {
    Function {
        name: name.into(),
        status: status.into(),
        public_api: PublicApi { name: name.into(), result_class: None, summary: "Example.".into() },
        scope: FunctionScope {
            territory: None,
            prediction_target: target.into(),
            models: Models { h_theta: Some("van_genuchten".into()), k_h: None },
        },
        inputs,
        outputs,
        verification_tolerances: vec![],
        verification_cases: cases,
        edge_cases: vec![],
        documentation: Documentation { notes: vec!["Needs data.".into()], warnings: vec![] },
    }
}

fn entry(slug: &str, citation: &str, territory: Option<&str>, functions: Vec<Function>) -> Entry {
    Entry {
        path: format!("specs/functions/{slug}.yaml"),
        slug: slug.into(),
        spec: Spec {
            source: Source { summary: "A source.".into(), citation_apa: citation.into(), doi: None },
            scope: Scope { territory: territory.map(Into::into), dataset: None },
            scientific_notes: String::new(),
            functions,
        },
    }
}

fn registry() -> QuantityRegistry {
    let unit = |rationale: &str| QuantityUnit { absolute_valid: true, relative_valid: true, rationale: rationale.into() };
    QuantityRegistry {
        quantities: vec![
            ("pressure".into(), Quantity { description: "Pressure.".into(), units: vec![("kPa".into(), unit("a"))] }),
            (
                "water_content".into(),
                Quantity { description: "Water.".into(), units: vec![("m3/m3".into(), unit("b")), ("percent".into(), unit("c"))] },
            ),
        ],
        units: vec![],
    }
}

fn corpus() -> Vec<Entry> {
    let scalar = || Outputs::Scalar { field: field("theta", "water_content", "m3/m3") };
    let mut overridden = function(
        "calc_ptf_b1999_theta",
        "implemented",
        "theta",
        vec![parameter("sand"), texture()],
        scalar(),
        vec![case(VerificationKind::Published), case(VerificationKind::Calculated)],
    );
    overridden.verification_tolerances =
        vec![("theta".into(), ToleranceOverride { absolute_valid: true, relative_valid: true, source_location: "T1".into() })];
    vec![
        entry(
            "smith2001",
            "Smith (2001).",
            Some("Kenya"),
            vec![
                function(
                    "calc_ptf_smith2001_theta",
                    "implemented",
                    "theta",
                    vec![parameter("sand"), parameter("clay")],
                    scalar(),
                    vec![case(VerificationKind::Published)],
                ),
                function(
                    "calc_ptf_smith2001_record",
                    "blocked",
                    "ksat",
                    vec![parameter("clay")],
                    Outputs::Record {
                        name: "Result".into(),
                        fields: vec![field("a", "water_content", "m3/m3"), field("b", "pressure", "kPa")],
                    },
                    vec![],
                ),
            ],
        ),
        entry("b1999", "Brown (1999).", None, vec![overridden]),
        entry("undated", "Smith (2001).", Some("Chile"), vec![]),
    ]
}

#[test]
fn counts_sources_and_statuses() {
    let report = Report::from_entries(&corpus(), &registry());
    assert_eq!(report.sources.specification_files, 3);
    assert_eq!(report.sources.represented_publications, 2);
    assert_eq!(report.sources.earliest_publication_year, Some(1999));
    assert_eq!(report.sources.latest_publication_year, Some(2001));
    assert_eq!(report.sources.unresolved_publication_years, vec!["undated".to_string()]);
    assert_eq!(report.functions.total, 3);
    let statuses: Vec<(String, usize)> = report.functions.by_status.iter().map(|c| (c.value.clone(), c.count)).collect();
    assert_eq!(
        statuses,
        vec![
            ("implemented".into(), 2),
            ("ready-for-implementation".into(), 0),
            ("blocked".into(), 1),
            ("draft".into(), 0)
        ]
    );
}

#[test]
fn counts_verification_and_outputs() {
    let report = Report::from_entries(&corpus(), &registry());
    assert_eq!(report.verification.cases_total, 3);
    assert_eq!(report.verification.published_cases, 2);
    assert_eq!(report.verification.calculated_cases, 1);
    assert_eq!(report.verification.functions_without_cases, 1);
    assert_eq!(report.verification.implemented_functions.functions, 2);
    assert_eq!(report.verification.implemented_functions.functions_with_verification_cases, 2);
    assert_eq!(report.verification.ready_for_implementation_functions.functions, 0);
    assert_eq!(report.outputs.scalar_functions, 2);
    assert_eq!(report.outputs.record_functions, 1);
    assert_eq!(
        report.outputs.field_names,
        vec![
            Count { value: "theta".into(), count: 2 },
            Count { value: "a".into(), count: 1 },
            Count { value: "b".into(), count: 1 }
        ]
    );
    assert_eq!(report.quantity_registry.registered_quantities, 2);
    assert_eq!(report.quantity_registry.quantity_unit_combinations_in_use, 2);
    assert_eq!(report.quantity_registry.outputs_using_source_specific_overrides, 1);
    assert_eq!(report.quantity_registry.outputs_using_registry_defaults, 3);
    let unused: Vec<(String, String)> =
        report.quantity_registry.unused_quantity_unit_entries.iter().map(|e| (e.quantity.clone(), e.unit.clone())).collect();
    assert_eq!(unused, vec![("water_content".to_string(), "percent".to_string())]);
}

#[test]
fn ranks_inputs_territories_and_blocked_functions() {
    let report = Report::from_entries(&corpus(), &registry());
    let inputs: Vec<(String, InputKind, usize)> = report.inputs.iter().map(|i| (i.name.clone(), i.kind, i.functions)).collect();
    assert_eq!(
        inputs,
        vec![
            ("clay".to_string(), InputKind::Numeric, 2),
            ("sand".to_string(), InputKind::Numeric, 2),
            ("texture".to_string(), InputKind::Categorical, 1)
        ]
    );
    let territories: Vec<(String, usize, usize)> = report
        .scope
        .calibration_geography
        .territories
        .iter()
        .map(|t| (t.territory.clone(), t.source_specifications, t.functions))
        .collect();
    assert_eq!(territories, vec![("Chile".to_string(), 1, 0), ("Kenya".to_string(), 1, 0)]);
    assert_eq!(report.scope.calibration_geography.source_specifications_with_territory, 2);
    assert_eq!(report.scope.models.h_theta, vec![Count { value: "van_genuchten".into(), count: 3 }]);
    assert!(report.scope.models.k_h.is_empty());
    assert_eq!(report.blocked_functions.len(), 1);
    assert_eq!(report.blocked_functions[0].function_name, "calc_ptf_smith2001_record");
    assert_eq!(report.blocked_functions[0].documentation_notes, vec!["Needs data.".to_string()]);
    assert_eq!(report.blocked_functions[0].scientific_notes, None);
}

#[test]
fn an_empty_corpus_reports_no_registry_use() {
    let report = Report::from_entries(&[], &registry());
    assert_eq!(report.quantity_registry.registered_quantities, 0);
    assert!(report.quantity_registry.unused_quantity_unit_entries.is_empty());
    assert_eq!(report.sources.earliest_publication_year, None);
}

#[test]
fn lists_frequent_values_first_then_alphabetically() {
    let values: Vec<String> = ["b", "a", "c", "b", "a", "b"].iter().map(|v| v.to_string()).collect();
    assert_eq!(
        frequencies(&values),
        vec![
            Count { value: "b".into(), count: 3 },
            Count { value: "a".into(), count: 2 },
            Count { value: "c".into(), count: 1 }
        ]
    );
}

#[test]
fn the_text_report_lays_out_every_section() {
    let report = Report::from_entries(&[], &registry());
    let zero = || "0.0".to_string();
    let shares = ptfkit_codegen::report_text::Shares {
        by_status: vec![zero(), zero(), zero(), zero()],
        inputs: Vec::new(),
        all_functions: (zero(), zero()),
        implemented_functions: (zero(), zero()),
        ready_for_implementation_functions: (zero(), zero()),
    };
    let text = ptfkit_codegen::report_text::to_text(&report, &shares);
    assert!(text.starts_with(
        "ptfkit corpus report\n\nSources\n-------\nSpecifications: 0\nRepresented publications: 0\nPublication years: unavailable\n\nFunctions\n---------\nTotal: 0\nImplemented: 0 (0.0%)\nReady for implementation: 0 (0.0%)\nBlocked: 0 (0.0%)\nDraft: 0 (0.0%)\n\nVerification\n"
    ));
    assert!(text.contains("Cases by provenance:\n  calculated: 0\n  published: 0\nAll functions:\n  Verification cases: 0\n  Functions with verification cases: 0 (0.0%)\n"));
    assert!(text.contains("h(theta) models:\n  None declared\nK(h) models:\n  None declared\n"));
    assert!(text.ends_with("\nBlocked functions\n-----------------\nNone\n"));
}
