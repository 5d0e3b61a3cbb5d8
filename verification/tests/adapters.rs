use ptfkit_codegen::adapters::{
    validate_adapter, Adapter, AdapterOutput, AdapterRegistry, CategoricalInputType, Provenance, Representative,
};

fn output(name: &str) -> AdapterOutput {
    AdapterOutput { name: name.into(), unit: "%".into(), description: format!("{name} fraction."), domain_valid: true }
}

fn row(category: &str) -> Representative {
    Representative {
        category: category.into(),
        values: vec![("clay".into(), true), ("sand".into(), true), ("silt".into(), true)],
        sum: "100".into(),
        sum_within_tolerance: true,
    }
}

fn texture(id: &str, input_type: &str) -> Adapter {
    Adapter {
        adapter_id: id.into(),
        input_type: CategoricalInputType {
            name: input_type.into(),
            description: "USDA soil texture class.".into(),
            categories: vec!["sand".into(), "loamy sand".into(), "loam".into()],
        },
        outputs: vec![output("sand"), output("silt"), output("clay")],
        representatives: vec![row("sand"), row("loamy sand"), row("loam")],
        sum_tolerance: "0.000001".into(),
        provenance: Provenance {
            organization: "USDA".into(),
            title: "Soil texture triangle".into(),
            artifact: "triangle.pdf".into(),
            retrieved: "2024-01-01".into(),
            url: "https://example.test/triangle.pdf".into(),
            sha256: "0".repeat(64),
            value_rule: "Centroid of each class.".into(),
        },
    }
}

fn errors_of(adapter: &Adapter) -> Vec<String> {
    let mut errors = Vec::new();
    validate_adapter("specs/adapters/usda_texture.yaml", adapter, &mut errors);
    errors
}

#[test]
fn a_well_formed_adapter_has_no_errors() {
    assert!(errors_of(&texture("usda_texture", "usda_texture_class")).is_empty());
}

#[test]
fn reports_identifier_metadata_and_category_errors() {
    let mut adapter = texture("USDA", "usda_texture_class");
    adapter.provenance.title = "  ".into();
    adapter.input_type.categories[1] = "Loamy sand".into();
    adapter.representatives[1].category = "Loamy sand".into();
    assert_eq!(
        errors_of(&adapter),
        vec![
            "specs/adapters/usda_texture.yaml: adapter ID and input type must be lowercase identifiers".to_string(),
            "specs/adapters/usda_texture.yaml: input metadata and provenance must be non-empty".to_string(),
            "specs/adapters/usda_texture.yaml: categories must be unique exact lowercase values with deterministic array ordering"
                .to_string(),
        ]
    );
    let mut repeated = texture("usda_texture", "usda_texture_class");
    repeated.input_type.categories[2] = "sand".into();
    repeated.representatives[2].category = "sand".into();
    assert_eq!(
        errors_of(&repeated),
        vec!["specs/adapters/usda_texture.yaml: categories must be unique exact lowercase values with deterministic array ordering"
            .to_string()]
    );
    let mut padded = texture("usda_texture", "usda_texture_class");
    padded.input_type.categories[0] = " sand".into();
    padded.representatives[0].category = " sand".into();
    assert_eq!(errors_of(&padded).len(), 1);
}

#[test]
fn reports_output_errors() {
    let mut adapter = texture("usda_texture", "usda_texture_class");
    adapter.outputs[2].domain_valid = false;
    adapter.outputs.push(output("sand"));
    let errors = errors_of(&adapter);
    assert_eq!(errors[0], "specs/adapters/usda_texture.yaml: adapter outputs must be non-empty and unique");
    assert_eq!(errors[1], "specs/adapters/usda_texture.yaml: output `clay` has invalid metadata or domain");
    let mut none = texture("usda_texture", "usda_texture_class");
    none.outputs.clear();
    assert!(errors_of(&none).contains(&"specs/adapters/usda_texture.yaml: adapter outputs must be non-empty and unique".to_string()));
}

#[test]
fn reports_representative_errors() {
    let mut adapter = texture("usda_texture", "usda_texture_class");
    adapter.representatives.swap(0, 1);
    adapter.representatives[2].values.pop();
    adapter.representatives[0].values[1].1 = false;
    adapter.representatives[0].sum = "101".into();
    adapter.representatives[0].sum_within_tolerance = false;
    assert_eq!(
        errors_of(&adapter),
        vec![
            "specs/adapters/usda_texture.yaml: representative mappings must appear exactly once in category order".to_string(),
            "specs/adapters/usda_texture.yaml: category `loamy sand` component `sand` is outside its domain".to_string(),
            "specs/adapters/usda_texture.yaml: category `loamy sand` sums to 101, outside tolerance 0.000001".to_string(),
            "specs/adapters/usda_texture.yaml: category `loam` has an invalid or incomplete output mapping".to_string(),
        ]
    );
    let mut unknown = texture("usda_texture", "usda_texture_class");
    unknown.representatives[0].category = "peat".into();
    assert!(errors_of(&unknown)
        .contains(&"specs/adapters/usda_texture.yaml: category `peat` has an invalid or incomplete output mapping".to_string()));
}

#[test]
fn the_registry_finds_adapters_by_identifier_and_input_type() {
    let mut registry = AdapterRegistry::new();
    let mut errors = Vec::new();
    registry.finish("specs/adapters", &mut errors);
    assert_eq!(errors, vec!["specs/adapters: adapter registry contains no YAML specifications".to_string()]);
    errors.clear();
    registry.register("specs/adapters/b.yaml", texture("usda_texture", "usda_texture_class"), &mut errors);
    registry.register("specs/adapters/a.yaml", texture("fao_texture", "fao_texture_class"), &mut errors);
    assert!(errors.is_empty());
    registry.finish("specs/adapters", &mut errors);
    assert!(errors.is_empty());
    assert_eq!(registry.adapter("usda_texture").unwrap().input_type.name, "usda_texture_class");
    assert_eq!(registry.adapter_for_type("fao_texture_class").unwrap().adapter_id, "fao_texture");
    assert!(registry.adapter("missing").is_none());
    assert!(registry.adapter_for_type("missing").is_none());
    let ids = registry.adapters().iter().map(|a| a.adapter_id.clone()).collect::<Vec<_>>();
    assert_eq!(ids, vec!["fao_texture".to_string(), "usda_texture".to_string()]);
}

#[test]
fn the_registry_reports_duplicates_and_keeps_the_later_adapter() {
    let mut registry = AdapterRegistry::new();
    let mut errors = Vec::new();
    registry.register("specs/adapters/a.yaml", texture("usda_texture", "usda_texture_class"), &mut errors);
    let mut later = texture("usda_texture", "other_class");
    later.provenance.organization = "NRCS".into();
    registry.register("specs/adapters/b.yaml", later, &mut errors);
    registry.register("specs/adapters/c.yaml", texture("fao_texture", "other_class"), &mut errors);
    assert_eq!(
        errors,
        vec![
            "specs/adapters/b.yaml: duplicate adapter ID `usda_texture` (also declared by `usda_texture`)".to_string(),
            "specs/adapters/c.yaml: duplicate registered input type `other_class` (adapters `usda_texture` and `fao_texture`)"
                .to_string(),
        ]
    );
    assert_eq!(registry.adapter("usda_texture").unwrap().provenance.organization, "NRCS");
    assert_eq!(registry.adapter_for_type("other_class").unwrap().adapter_id, "fao_texture");
    assert_eq!(registry.adapter_for_type("usda_texture_class").unwrap().adapter_id, "usda_texture");
}
