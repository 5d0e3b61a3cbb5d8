use ptfkit_codegen::model::{Documentation, Function, FunctionScope, Models, OutputField, Outputs, PublicApi};
use ptfkit_codegen::model::{Doi, Scope, Source};
use ptfkit_codegen::targets::python::syntax::Module;
use ptfkit_codegen::targets::python::wrapper::{
    docstring_lines, function_docstring, render_module_docstring, result_class_docstring, PythonDocstring,
};

fn function(territory: Option<&str>) -> Function {
    Function {
        name: "calc_ptf_test".into(),
        status: "draft".into(),
        public_api: PublicApi { name: "calc_ptf_test".into(), result_class: None, summary: "Estimate a test property".into() },
        scope: FunctionScope {
            territory: territory.map(str::to_owned),
            prediction_target: "Test property.".into(),
            models: Models { h_theta: None, k_h: None },
        },
        inputs: Vec::new(),
        outputs: Outputs::Record { name: "TestResult".into(), fields: Vec::new() },
        verification_tolerances: vec![],
        verification_cases: vec![],
        edge_cases: vec![],
        documentation: Documentation { notes: vec![], warnings: vec![] },
    }
}

#[test]
fn wrapper_function_territory_is_rendered_only_when_declared() {
    let with_territory = function_docstring(&function(Some("Narrow test region.")));
    assert_eq!(
        with_territory.sections.iter().find(|(title, _)| *title == "Territory").map(|(_, entries)| entries),
        Some(&vec!["Narrow test region.".to_string()])
    );
    let without_territory = function_docstring(&function(None));
    assert!(without_territory.sections.iter().all(|(title, _)| *title != "Territory"));
}

#[test]
fn function_docstring_sections_follow_the_documentation() {
    let mut f = function(None);
    f.scope.models.k_h = Some("Mualem".into());
    f.documentation.warnings = vec!["Extrapolates.".into()];
    let docstring = function_docstring(&f);
    assert_eq!(docstring.summary, "Estimate a test property");
    let titles = docstring.sections.iter().map(|(title, _)| title.as_str()).collect::<Vec<_>>();
    assert_eq!(titles, ["Arguments", "Returns", "Models", "Notes", "Warning"]);
    assert_eq!(docstring.sections[0].1, vec!["out: Optional output arrays for in-place calculation.".to_string()]);
    assert_eq!(docstring.sections[1].1, vec!["TestResult: Results grouped by result attributes.".to_string()]);
    assert_eq!(docstring.sections[2].1, vec!["$k(h)$: Mualem".to_string()]);
    assert_eq!(docstring.sections[3].1, vec!["Prediction target: Test property.".to_string()]);
}

#[test]
fn result_class_docstring_lists_each_output() {
    let mut f = function(None);
    f.outputs = Outputs::Record {
        name: "TestResult".into(),
        fields: vec![OutputField {
            name: "theta".into(),
            quantity: "water_content".into(),
            symbol: None,
            unit: "m3/m3".into(),
            reported_unit: "m3/m3".into(),
            domain: None,
            description: "Water content.".into(),
        }],
    };
    let docstring = result_class_docstring(&f);
    assert_eq!(docstring.summary, "Results returned by the matching PTF.");
    assert_eq!(docstring.sections, vec![("Attributes".to_string(), vec!["theta: Water content. (m3/m3)".to_string()])]);
}

#[test]
fn docstring_lines_wrap_entries_and_mark_raw_strings() {
    let docstring = PythonDocstring {
        summary: "Estimate \\theta".into(),
        sections: vec![
            ("Arguments".into(), vec!["x: First.".into()]),
            (String::new(), vec!["y: Second.".into()]),
        ],
    };
    assert_eq!(
        docstring_lines(&docstring, 4),
        vec![
            "r\"\"\"Estimate \\theta.",
            "",
            "Arguments:",
            "    x: First.",
            "",
            "    y: Second.",
            "",
            "\"\"\"",
        ]
    );
    let long = PythonDocstring { summary: "word ".repeat(30), sections: vec![] };
    let lines = docstring_lines(&long, 4);
    assert_eq!(lines[0], "\"\"\"Calculate the pedotransfer function.");
    assert_eq!(lines[1], "");
    assert!(lines[2].starts_with("word word"));
    assert_eq!(lines.last().unwrap(), "\"\"\"");
}

#[test]
fn wrapper_module_summary_and_doi_url_come_from_source() {
    let source = Source {
        summary: "Test et al. (2026), short territory.".to_string(),
        citation_apa: "Test et al. (2026). Test reference.".to_string(),
        doi: Some(Doi {
            identifier: "10.1234/test".to_string(),
            url: "https://example.test/doi/10.1234/test".to_string(),
        }),
    };
    let scope = Scope {
        territory: Some("A much longer territory description.".to_string()),
        dataset: None,
    };

    let mut module = Module::new("");
    render_module_docstring(&mut module, &source, &scope);
    let docstring = module.into_string();
    assert_eq!(docstring.lines().next(), Some("r\"\"\"Test et al. (2026), short territory."));
    assert!(docstring.contains("[DOI: 10.1234/test](https://example.test/doi/10.1234/test)"));
}
