use ptfkit_codegen::model::{Doi, Scope, Source};
use ptfkit_codegen::render::Writer;
use ptfkit_codegen::targets::reference::c::{render_functions_index, render_header_source, render_index, render_umbrella};
use ptfkit_codegen::targets::reference::cpp;

#[test]
fn c_index_lists_shared_and_source_headers() {
    let mut writer = Writer::new();
    render_index(
        &mut writer,
        &vec!["soil".to_string()],
        &vec![("rawls1982".to_string(), "Rawls `et al.` (1982).".to_string())],
    );
    let text = writer.into_string();
    assert!(text.starts_with("---\n# @generated by ptfkit-codegen; DO NOT EDIT.\n\ntitle: C API reference\n---\n\n# C API reference\n"));
    assert!(text.contains("## Shared domain headers\n\n- [`<ptfkit/soil.h>`](headers/soil.md)\n\n## Source headers\n\n"));
    assert!(text.contains("- [`<ptfkit/rawls1982.h>`](headers/rawls1982.md) — Rawls \\`et al.\\` (1982).\n\n"));
    assert!(text.ends_with("See the [function index](functions.md) for all public C functions.\n"));
}

#[test]
fn c_index_without_shared_headers_has_no_shared_section() {
    let mut writer = Writer::new();
    render_index(&mut writer, &Vec::new(), &vec![("a".to_string(), "A.".to_string())]);
    assert!(!writer.into_string().contains("Shared domain headers"));
}

#[test]
fn c_umbrella_lists_every_header() {
    let mut writer = Writer::new();
    render_umbrella(&mut writer, &vec!["soil".to_string()], &vec![("a".to_string(), "A.".to_string())]);
    let text = writer.into_string();
    assert!(text.starts_with("<!-- @generated by ptfkit-codegen; DO NOT EDIT. -->\n\n# `<ptfkit/ptfkit.h>`\n\n```c\n#include <ptfkit/ptfkit.h>\n```\n\n"));
    assert!(text.ends_with("## Included headers\n\n- [`<ptfkit/soil.h>`](soil.md)\n- [`<ptfkit/a.h>`](a.md) — A.\n"));
}

#[test]
fn c_function_index_links_each_function() {
    let mut writer = Writer::new();
    render_functions_index(&mut writer, &vec![("a".to_string(), "calc".to_string(), "Calculates | more.".to_string())]);
    let text = writer.into_string();
    assert!(text.ends_with(
        "| Function | Summary | Header |\n| --- | --- | --- |\n| [`calc`](headers/a.md#function-calc) | Calculates \\| more. | [`<ptfkit/a.h>`](headers/a.md) |\n"
    ));
}

#[test]
fn c_header_page_opens_with_source_scope_and_catalog_link() {
    let source = Source {
        summary: "Test (2026), short.".to_string(),
        citation_apa: "Test (2026). Reference.".to_string(),
        doi: Some(Doi { identifier: "10.1/x".to_string(), url: "https://doi.org/10.1/x".to_string() }),
    };
    let scope = Scope { territory: Some("Region.".to_string()), dataset: None };
    let mut writer = Writer::new();
    render_header_source(&mut writer, "test2026", &source, &scope);
    let text = writer.into_string();
    assert!(text.contains("# `<ptfkit/test2026.h>`\n\n```c\n#include <ptfkit/test2026.h>\n```\n\n"));
    assert!(text.ends_with(
        "Test (2026), short.\n\n## Source\n\nTest (2026). Reference.\n\n[DOI: 10.1/x](https://doi.org/10.1/x)\n\n## Scope\n\n**Territory:** Region.\n\n[PTF catalog page](../../../ptf-catalog/sources/test2026.md)\n\n"
    ));
}

#[test]
fn cpp_index_lists_shared_and_source_modules() {
    let mut writer = Writer::new();
    cpp::render_index(&mut writer, &vec!["soil".to_string()], &vec![("a".to_string(), "A.".to_string())]);
    let text = writer.into_string();
    assert!(text.contains("## Shared domain modules\n\n- [`ptfkit.soil`](modules/soil.md)\n\n## Source modules\n\n- [`ptfkit.a`](modules/a.md) — A.\n\n"));
    assert!(text.ends_with("See the [function index](functions.md) for all public C++ functions.\n"));
}

#[test]
fn cpp_umbrella_reexports_every_module() {
    let mut writer = Writer::new();
    cpp::render_umbrella(&mut writer, &vec!["soil".to_string()], &vec![("a".to_string(), "A.".to_string())]);
    let text = writer.into_string();
    assert!(text.contains("title: C++ module ptfkit\nnav-title: ptfkit\n---\n\n# `ptfkit`\n\n```cpp\nimport ptfkit;\n```\n\n"));
    assert!(text.ends_with("## Re-exported modules\n\n- [`ptfkit.soil`](soil.md)\n- [`ptfkit.a`](a.md) — A.\n"));
}

#[test]
fn cpp_function_index_qualifies_each_function() {
    let mut writer = Writer::new();
    cpp::render_functions_index(&mut writer, &vec![("a".to_string(), "calc".to_string(), "Calculates.".to_string())]);
    assert!(writer.into_string().ends_with(
        "| [`ptfkit::a::calc`](modules/a.md#function-calc) | Calculates. | [`ptfkit.a`](modules/a.md) |\n"
    ));
}

#[test]
fn cpp_module_page_opens_with_namespace_and_source() {
    let source = Source { summary: "S.".to_string(), citation_apa: "C.".to_string(), doi: None };
    let scope = Scope { territory: None, dataset: Some("D.".to_string()) };
    let mut writer = Writer::new();
    cpp::render_module_source(&mut writer, "x2026", &source, &scope);
    let text = writer.into_string();
    assert!(text.contains("title: C++ module ptfkit.x2026\nnav-title: ptfkit.x2026\n"));
    assert!(text.ends_with(
        "```cpp\nimport ptfkit.x2026;\n```\n\n**Exported namespace:** `ptfkit::x2026`\n\nS.\n\n## Source\n\nC.\n\n## Scope\n\n**Dataset:** D.\n\n[PTF catalog page](../../../ptf-catalog/sources/x2026.md)\n\n"
    ));
}

fn entry(slug: &str, summary: &str) -> ptfkit_codegen::model::Entry {
    ptfkit_codegen::model::Entry {
        path: format!("specs/functions/{slug}.yaml"),
        slug: slug.to_string(),
        spec: ptfkit_codegen::model::Spec {
            source: Source { summary: summary.to_string(), citation_apa: String::new(), doi: None },
            scope: Scope { territory: None, dataset: None },
            scientific_notes: String::new(),
            functions: Vec::new(),
        },
    }
}

fn compiled(entry_index: usize, name: &str) -> ptfkit_codegen::compile::CompiledFunction {
    ptfkit_codegen::compile::CompiledFunction {
        entry_index,
        function_index: 0,
        core: ptfkit_codegen::compile::CoreFunction {
            name: name.to_string(),
            inputs: Vec::new(),
            output: ptfkit_codegen::compile::Output::Scalar,
        },
        verification_cases: Vec::new(),
        output_tolerances: Vec::new(),
    }
}

#[test]
fn reference_sources_are_grouped_by_slug_in_order() {
    let entries = vec![entry("zed2001", "Z."), entry("abc1999", "A.")];
    let functions = vec![compiled(0, "z_one"), compiled(1, "a_one"), compiled(0, "z_two")];
    assert_eq!(
        ptfkit_codegen::targets::reference_sources(&entries, &functions),
        vec![("abc1999".to_string(), "A.".to_string()), ("zed2001".to_string(), "Z.".to_string())]
    );
}

#[test]
fn function_index_orders_names_naturally_then_by_source() {
    let entries = vec![entry("b", "B."), entry("a", "A.")];
    let functions = vec![compiled(0, "calc_10"), compiled(0, "calc_2"), compiled(1, "calc_10")];
    assert_eq!(ptfkit_codegen::targets::index_order(&entries, &functions), vec![1, 2, 0]);
}
