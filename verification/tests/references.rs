use ptfkit_codegen::model::{EnumDefinition, EnumType, EnumValue, Input, Parameter, TreeDefinition, TreeInput};
use ptfkit_codegen::model::{DecisionTree, DecisionTreeLeafValue, LookupDefinition};
use ptfkit_codegen::references::{
    external_references, include_shared_definition, inputs_with_origins, lookup_with_origin, reference_parts,
    replace_reference, reserved_module, shared_alias, tree_with_origins, with_origin, JsonValue, ReferenceError,
};
use ptfkit_codegen::specs::{schema_location, SlugError};

fn text(s: &str) -> JsonValue {
    JsonValue::Text(s.to_string())
}

fn object(members: Vec<(&str, JsonValue)>) -> JsonValue {
    JsonValue::Object(members.into_iter().map(|(k, v)| (k.to_string(), v)).collect())
}

fn reference(target: &str) -> JsonValue {
    object(vec![("$ref", text(target))])
}

fn category() -> JsonValue {
    object(vec![
        ("type", text("enum")),
        ("description", text("Shared category.")),
        ("values", JsonValue::Array(vec![object(vec![("name", text("Sand")), ("value", text("sand"))])])),
    ])
}

fn soil_document() -> Vec<(String, JsonValue)> {
    vec![(
        "/work/specs/definitions/soil.yaml".to_string(),
        object(vec![
            ("description", text("Shared soil categories for test sources.")),
            ("$defs", object(vec![("SharedCategory", category())])),
        ]),
    )]
}

fn specification(defs: Option<JsonValue>) -> JsonValue {
    let mut members = vec![
        ("source", object(vec![("summary", text("Example."))])),
        (
            "functions",
            JsonValue::Array(vec![object(vec![
                ("name", text("calc_ptf_example")),
                (
                    "inputs",
                    JsonValue::Array(vec![
                        object(vec![("name", text("category")), ("type", reference("../definitions/soil.yaml#/$defs/SharedCategory"))]),
                        object(vec![("name", text("local")), ("type", reference("#/$defs/Local"))]),
                    ]),
                ),
            ])]),
        ),
    ];
    if let Some(defs) = defs {
        members.push(("$defs", defs));
    }
    object(members)
}

fn find<'a>(value: &'a JsonValue, key: &str) -> Option<&'a JsonValue> {
    match value {
        JsonValue::Object(members) => members.iter().find(|(k, _)| k == key).map(|(_, v)| v),
        _ => None,
    }
}

#[test]
fn external_references_are_sorted_distinct_and_skip_local_ones() {
    let value = JsonValue::Array(vec![
        reference("b.yaml#/$defs/B"),
        object(vec![("nested", JsonValue::Array(vec![reference("a.yaml#/$defs/A"), reference("#/$defs/Local")]))]),
        reference("b.yaml#/$defs/B"),
        object(vec![("other", text("a.yaml#/$defs/Z"))]),
    ]);
    assert_eq!(external_references(&value), vec!["a.yaml#/$defs/A".to_string(), "b.yaml#/$defs/B".to_string()]);
    assert!(external_references(&text("x.yaml#/$defs/X")).is_empty());
}

#[test]
fn replacing_a_reference_changes_only_matching_refs() {
    let value = JsonValue::Array(vec![
        reference("a.yaml#/$defs/A"),
        object(vec![("note", text("a.yaml#/$defs/A")), ("inner", reference("b.yaml#/$defs/B"))]),
    ]);
    let replaced = replace_reference(&value, "a.yaml#/$defs/A", "#/$defs/SharedDefinition0");
    let expected = JsonValue::Array(vec![
        reference("#/$defs/SharedDefinition0"),
        object(vec![("note", text("a.yaml#/$defs/A")), ("inner", reference("b.yaml#/$defs/B"))]),
    ]);
    assert_eq!(replaced, expected);
    assert_eq!(external_references(&replaced), vec!["b.yaml#/$defs/B".to_string()]);
}

#[test]
fn reference_parts_split_file_and_name() {
    assert_eq!(
        reference_parts("../definitions/soil.yaml#/$defs/SharedCategory"),
        Ok(("../definitions/soil.yaml".to_string(), "SharedCategory".to_string()))
    );
    assert_eq!(
        reference_parts("../definitions/soil.yaml#/$defs/SharedCategory/values"),
        Err(ReferenceError::InvalidFormat { reference: "../definitions/soil.yaml#/$defs/SharedCategory/values".to_string() })
    );
    assert_eq!(
        reference_parts("https://example.test/soil.yaml#/$defs/Category"),
        Err(ReferenceError::NonLocal { reference: "https://example.test/soil.yaml#/$defs/Category".to_string() })
    );
    assert_eq!(
        reference_parts("/abs/soil.yaml#/$defs/Category"),
        Err(ReferenceError::NonLocal { reference: "/abs/soil.yaml#/$defs/Category".to_string() })
    );
    for bad in ["soil.yaml", "#/$defs/Category", "soil.yaml#/$defs/", "soil.yaml#/$defs/A#B"] {
        assert_eq!(reference_parts(bad), Err(ReferenceError::InvalidFormat { reference: bad.to_string() }), "{bad}");
    }
}

#[test]
fn shared_alias_takes_the_first_free_number_from_the_member_count() {
    let members = |names: &[&str]| names.iter().map(|n| (n.to_string(), JsonValue::Null)).collect::<Vec<_>>();
    assert_eq!(shared_alias(&members(&[])), "SharedDefinition0");
    assert_eq!(shared_alias(&members(&["Local", "Other"])), "SharedDefinition2");
    assert_eq!(shared_alias(&members(&["SharedDefinition2", "SharedDefinition3", "Other"])), "SharedDefinition4");
    assert_eq!(shared_alias(&members(&["SharedDefinition0", "Other"])), "SharedDefinition2");
}

#[test]
fn including_a_shared_definition_copies_it_and_points_the_reference_at_it() {
    let value = specification(None);
    let shared = include_shared_definition(
        &value,
        "../definitions/soil.yaml#/$defs/SharedCategory",
        "SharedCategory",
        "/work/specs/definitions/soil.yaml",
        Some("soil"),
        &soil_document(),
    )
    .expect("the shared definition is included");
    assert_eq!(shared.alias, "SharedDefinition0");
    assert_eq!(
        shared.origin,
        EnumType {
            document: "/work/specs/definitions/soil.yaml".to_string(),
            name: "SharedCategory".to_string(),
            shared_module: Some("soil".to_string()),
        }
    );
    assert_eq!(find(&shared.document, "$defs"), Some(&object(vec![("SharedDefinition0", category())])));
    assert!(external_references(&shared.document).is_empty());
    let expected = specification(Some(object(vec![("SharedDefinition0", category())])));
    let JsonValue::Object(mut members) = expected else { unreachable!() };
    if let Some((_, JsonValue::Array(functions))) = members.iter_mut().find(|(k, _)| k == "functions") {
        functions[0] = replace_reference(&functions[0], "../definitions/soil.yaml#/$defs/SharedCategory", "#/$defs/SharedDefinition0");
    }
    assert_eq!(shared.document, JsonValue::Object(members));
}

#[test]
fn including_a_shared_definition_keeps_existing_definitions() {
    let value = specification(Some(object(vec![("Local", category()), ("SharedDefinition1", JsonValue::Null)])));
    let shared = include_shared_definition(
        &value,
        "../definitions/soil.yaml#/$defs/SharedCategory",
        "SharedCategory",
        "/work/specs/definitions/soil.yaml",
        Some("soil"),
        &soil_document(),
    )
    .expect("the shared definition is included");
    assert_eq!(shared.alias, "SharedDefinition2");
    assert_eq!(
        find(&shared.document, "$defs"),
        Some(&object(vec![("Local", category()), ("SharedDefinition1", JsonValue::Null), ("SharedDefinition2", category())]))
    );
}

#[test]
fn including_a_shared_definition_reports_each_error() {
    let reference = "../definitions/soil.yaml#/$defs/MissingCategory";
    let follow = |value: &JsonValue, name: &str, target: &str, stem: Option<&str>| {
        include_shared_definition(value, reference, name, target, stem, &soil_document())
    };
    let value = specification(None);
    assert_eq!(
        follow(&value, "SharedCategory", "/work/specs/definitions/other.yaml", Some("other")).err(),
        Some(ReferenceError::OutsideDefinitions { reference: reference.to_string() })
    );
    let missing = ReferenceError::MissingDefinition {
        reference: reference.to_string(),
        name: "MissingCategory".to_string(),
        path: "/work/specs/definitions/soil.yaml".to_string(),
    };
    assert_eq!(
        missing.message(),
        "reference `../definitions/soil.yaml#/$defs/MissingCategory`: definition `MissingCategory` is missing in /work/specs/definitions/soil.yaml"
    );
    assert_eq!(follow(&value, "MissingCategory", "/work/specs/definitions/soil.yaml", Some("soil")).err(), Some(missing));
    assert_eq!(
        follow(&JsonValue::Array(vec![]), "SharedCategory", "/work/specs/definitions/soil.yaml", Some("soil")).err(),
        Some(ReferenceError::InvalidRoot)
    );
    assert_eq!(
        follow(&specification(Some(text("oops"))), "SharedCategory", "/work/specs/definitions/soil.yaml", Some("soil")).err(),
        Some(ReferenceError::InvalidDefinitions)
    );
    let bad_slug = follow(&value, "SharedCategory", "/work/specs/definitions/soil.yaml", Some("Soil")).err();
    assert_eq!(
        bad_slug,
        Some(ReferenceError::SourceSlug { path: "/work/specs/definitions/soil.yaml".to_string(), issue: SlugError::InvalidSlug })
    );
    assert_eq!(
        bad_slug.unwrap().message(),
        "/work/specs/definitions/soil.yaml:\n  $:\n    specification filename stem must be an APA-style slug matching ^[a-z][a-z0-9_]*$"
    );
}

#[test]
fn reference_error_messages() {
    let r = "x#/$defs/Y".to_string();
    assert_eq!(
        ReferenceError::InvalidFormat { reference: r.clone() }.message(),
        "unsupported reference `x#/$defs/Y`: expected `file.yaml#/$defs/Name`"
    );
    assert_eq!(
        ReferenceError::NonLocal { reference: r.clone() }.message(),
        "unsupported reference `x#/$defs/Y`: only relative local files are supported"
    );
    assert_eq!(
        ReferenceError::OutsideDefinitions { reference: r }.message(),
        "unsupported reference `x#/$defs/Y`: expected a YAML file directly under specs/definitions"
    );
    assert_eq!(ReferenceError::InvalidRoot.message(), "specification root must be an object");
    assert_eq!(ReferenceError::InvalidDefinitions.message(), "specification `$defs` must be an object");
    assert_eq!(SlugError::NonUtf8Slug.message("a.yaml"), "a.yaml:\n  $:\n    specification filename must have a UTF-8 stem");
}

fn enumeration(name: &str) -> EnumDefinition {
    EnumDefinition {
        enum_type: EnumType { document: String::new(), name: name.to_string(), shared_module: None },
        description: "Usage-specific input.".to_string(),
        values: vec![EnumValue { name: "Sand".to_string(), value: "sand".to_string(), description: None }],
    }
}

fn origins() -> Vec<(String, EnumType)> {
    vec![(
        "SharedDefinition0".to_string(),
        EnumType {
            document: "/work/specs/definitions/soil.yaml".to_string(),
            name: "SharedCategory".to_string(),
            shared_module: Some("soil".to_string()),
        },
    )]
}

#[test]
fn origins_name_the_shared_document_or_the_declaring_one() {
    let shared = with_origin(enumeration("SharedDefinition0"), "specs/functions/first.yaml", &origins());
    assert_eq!(shared.enum_type, origins()[0].1);
    assert_eq!(shared.description, "Usage-specific input.");
    let local = with_origin(enumeration("Local"), "specs/functions/first.yaml", &origins());
    assert_eq!(
        local.enum_type,
        EnumType { document: "specs/functions/first.yaml".to_string(), name: "Local".to_string(), shared_module: None }
    );
    let inputs = inputs_with_origins(
        vec![
            Input::Parameter(Parameter { name: "x".into(), unit: "%".into(), domain: None, description: "X.".into() }),
            Input::Enum { name: "category".into(), description: None, definition: enumeration("SharedDefinition0") },
        ],
        "specs/functions/first.yaml",
        &origins(),
    );
    match &inputs[1] {
        Input::Enum { name, definition, .. } => {
            assert_eq!(name, "category");
            assert_eq!(definition.enum_type.shared_module.as_deref(), Some("soil"));
        }
        _ => panic!("the enumeration input stays an enumeration"),
    }
    let lookup = lookup_with_origin(
        LookupDefinition {
            name: "table".into(),
            input: "#/$defs/SharedDefinition0".into(),
            output: "#/$defs/Row".into(),
            values: vec![],
            input_type: Some(enumeration("SharedDefinition0")),
            output_type: None,
        },
        "specs/functions/first.yaml",
        &origins(),
    );
    assert_eq!(lookup.input_type.unwrap().enum_type.name, "SharedCategory");
    let tree = tree_with_origins(
        TreeDefinition {
            name: "tree".into(),
            inputs: vec![
                TreeInput::Number { name: "x".into() },
                TreeInput::Enum {
                    name: "category".into(),
                    reference: "#/$defs/SharedDefinition0".into(),
                    definition: Some(enumeration("SharedDefinition0")),
                },
            ],
            output: "#/$defs/Out".into(),
            root: DecisionTree::Leaf(DecisionTreeLeafValue::Number("1".into())),
            output_type: None,
        },
        "specs/functions/first.yaml",
        &origins(),
    );
    match &tree.inputs[1] {
        TreeInput::Enum { definition: Some(d), .. } => assert_eq!(d.enum_type.document, "/work/specs/definitions/soil.yaml"),
        _ => panic!("the enumeration tree input keeps its definition"),
    }
}

#[test]
fn schema_locations_are_dotted_paths() {
    assert_eq!(schema_location(""), "$");
    assert_eq!(schema_location("/functions/0/name"), "functions.0.name");
    assert_eq!(schema_location("//a/b"), "a.b");
}

#[test]
fn reserved_modules_are_those_of_the_generated_code() {
    for module in ["enums", "lib", "mod", "ptfkit", "test_support"] {
        assert!(reserved_module(module), "{module}");
    }
    assert!(!reserved_module("soil"));
}
