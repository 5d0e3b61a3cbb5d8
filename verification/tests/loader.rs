use ptfkit_codegen::json_text::json_text_of;
use ptfkit_codegen::loader::{
    check_shared_document, load_entries, missing_implementations, specification_errors, FunctionDeclaration, ParsedFile,
    Schemas, SourceFile, SpecDocument, VariableDeclaration,
};
use ptfkit_codegen::model::{
    Documentation, FunctionScope, InputReference, Models, OutputField, OutputReference, Outputs, Parameter, PublicApi, Scope,
    Source,
};
use ptfkit_codegen::references::JsonValue;
use ptfkit_codegen::model::{Definition, LookupDefinition};

fn permissive_schemas() -> Schemas {
    Schemas { specification: "{}".to_string(), definitions: "{}".to_string() }
}

fn declaration(status: &str, implementation: Option<Vec<VariableDeclaration>>) -> FunctionDeclaration {
    FunctionDeclaration {
        name: "calc".to_string(),
        status: status.to_string(),
        public_api: PublicApi { name: "calc".to_string(), result_class: None, summary: "Calculates.".to_string() },
        scope: FunctionScope {
            territory: None,
            prediction_target: "theta".to_string(),
            models: Models { h_theta: None, k_h: None },
        },
        inputs: vec![InputReference::Parameter(Parameter {
            name: "clay".to_string(),
            unit: "%".to_string(),
            domain: None,
            description: "Clay.".to_string(),
        })],
        outputs: OutputReference::Inline(Outputs::Scalar {
            field: OutputField {
                name: "theta".to_string(),
                quantity: "water_content".to_string(),
                symbol: None,
                unit: "1".to_string(),
                reported_unit: "1".to_string(),
                domain: None,
                description: "Water content.".to_string(),
            },
        }),
        verification_tolerances: Vec::new(),
        implementation,
        verification_cases: Vec::new(),
        edge_cases: Vec::new(),
        documentation: Documentation { notes: Vec::new(), warnings: Vec::new() },
    }
}

fn document(functions: Vec<FunctionDeclaration>) -> SpecDocument {
    SpecDocument {
        source: Source { summary: "Test (2026).".to_string(), citation_apa: "Test (2026).".to_string(), doi: None },
        scope: Scope { territory: None, dataset: None },
        scientific_notes: String::new(),
        definitions: Vec::new(),
        functions,
    }
}

fn file(stem: &str, text: &str, metadata: Result<SpecDocument, String>) -> SourceFile {
    SourceFile {
        path: format!("specs/functions/{stem}.yaml"),
        stem: Some(stem.to_string()),
        contents: Ok(ParsedFile {
            text: text.to_string(),
            document: JsonValue::Object(Vec::new()),
            shared: Vec::new(),
            metadata,
        }),
    }
}

#[test]
fn json_text_escapes_strings_and_keeps_member_order() {
    let value = JsonValue::Object(vec![
        ("b".to_string(), JsonValue::Text("say \"hi\"\n".to_string())),
        ("a".to_string(), JsonValue::Array(vec![JsonValue::Number("1.5".to_string()), JsonValue::Null, JsonValue::Bool(true)])),
    ]);
    assert_eq!(json_text_of(&value), "{\"b\":\"say \\\"hi\\\"\\u000a\",\"a\":[1.5,null,true]}");
}

#[test]
fn schema_violations_name_the_path_and_location() {
    let schemas = Schemas {
        specification: "{\"type\":\"object\",\"required\":[\"source\"]}".to_string(),
        definitions: "{}".to_string(),
    };
    let errors = specification_errors("specs/functions/x.yaml", &schemas, &JsonValue::Object(Vec::new()));
    assert_eq!(errors.len(), 1);
    assert!(errors[0].starts_with("specs/functions/x.yaml:\n  $:\n    "));
    assert!(errors[0].contains("source"));
    let fine = specification_errors(
        "specs/functions/x.yaml",
        &schemas,
        &JsonValue::Object(vec![("source".to_string(), JsonValue::Null)]),
    );
    assert!(fine.is_empty());
}

#[test]
fn a_reserved_shared_module_is_refused() {
    let error = check_shared_document("specs/definitions/lib.yaml", Some("lib"), &permissive_schemas(), &JsonValue::Null)
        .unwrap_err();
    assert_eq!(
        error.message("specs/definitions/lib.yaml"),
        "shared definition module `lib` in specs/definitions/lib.yaml uses a reserved target module name"
    );
    assert!(check_shared_document("specs/definitions/soil.yaml", Some("soil"), &permissive_schemas(), &JsonValue::Null).is_ok());
}

#[test]
fn a_promised_implementation_must_be_declared() {
    let functions = vec![declaration("implemented", None), declaration("draft", None)];
    assert_eq!(
        missing_implementations("specs/functions/a.yaml", &functions),
        vec!["specs/functions/a.yaml -> function calc -> implementation: required for status `implemented`".to_string()]
    );
}

#[test]
fn a_source_module_colliding_with_shared_definitions_is_reported() {
    let files = vec![file("soil", "", Ok(document(Vec::new())))];
    let modules = vec![("specs/definitions/soil.yaml".to_string(), "soil".to_string())];
    let errors = load_entries(files, &modules, &permissive_schemas()).unwrap_err();
    assert_eq!(
        errors,
        vec![
            "shared definition module `soil` in specs/definitions/soil.yaml conflicts with source module specs/functions/soil.yaml"
                .to_string()
        ]
    );
}

#[test]
fn errors_of_every_file_are_gathered() {
    let files = vec![
        file("Bad", "", Ok(document(Vec::new()))),
        file("draft_only", "", Ok(document(vec![declaration("implemented", None)]))),
        file("unreadable", "", Err("metadata cannot be read".to_string())),
    ];
    let errors = load_entries(files, &Vec::new(), &permissive_schemas()).unwrap_err();
    assert_eq!(errors.len(), 3);
    assert!(errors[0].contains("APA-style slug"));
    assert_eq!(
        errors[1],
        "specs/functions/draft_only.yaml -> function calc -> implementation: required for status `implemented`"
    );
    assert_eq!(errors[2], "metadata cannot be read");
}

#[test]
fn a_formula_is_located_parsed_and_compiled() {
    let text = "functions:\n  - name: calc\n    implementation:\n      variables:\n        - name: theta\n          expr: clay * 2\n";
    let variables = vec![VariableDeclaration::Expression { name: "theta".to_string(), expr: "clay * 2".to_string() }];
    let files = vec![file("calc_source", text, Ok(document(vec![declaration("implemented", Some(variables))])))];
    let loaded = load_entries(files, &Vec::new(), &permissive_schemas()).unwrap();
    assert_eq!(loaded.len(), 1);
    assert_eq!(loaded[0].0.slug, "calc_source");
    assert_eq!(loaded[0].0.spec.functions[0].name, "calc");
    assert!(loaded[0].1[0].is_some());
}

#[test]
fn a_formula_missing_from_the_text_stops_the_file() {
    let variables = vec![VariableDeclaration::Expression { name: "theta".to_string(), expr: "clay * 2".to_string() }];
    let files = vec![file("calc_source", "functions: []\n", Ok(document(vec![declaration("implemented", Some(variables))])))];
    let errors = load_entries(files, &Vec::new(), &permissive_schemas()).unwrap_err();
    assert_eq!(
        errors,
        vec!["specs/functions/calc_source.yaml:\n  $:\n    expression `clay * 2` was not found in the document".to_string()]
    );
}

#[test]
fn an_unused_lookup_that_does_not_resolve_stops_the_file() {
    let mut spec = document(vec![declaration("draft", None)]);
    spec.definitions.push((
        "Table".to_string(),
        Definition::Lookup(LookupDefinition {
            name: String::new(),
            input: "#/$defs/Missing".to_string(),
            output: "#/$defs/Out".to_string(),
            values: Vec::new(),
            input_type: None,
            output_type: None,
        }),
    ));
    let errors = load_entries(vec![file("tables", "", Ok(spec))], &Vec::new(), &permissive_schemas()).unwrap_err();
    assert_eq!(errors.len(), 1);
    assert!(errors[0].starts_with("specs/functions/tables.yaml: "));
}
