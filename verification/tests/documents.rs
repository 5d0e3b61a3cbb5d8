use ptfkit_codegen::documentation::parameter_details;
use ptfkit_codegen::model::{EnumDefinition, EnumType, Input};
use ptfkit_codegen::render::markdown::{generated_frontmatter, markdown_file, HEADER, FRONTMATTER_HEADER};
use ptfkit_codegen::render::{Render, Writer};
use ptfkit_codegen::targets::{c_documentation, catalog, cpp_documentation, reference};
use ptfkit_codegen::targets::write::{drift_report, is_generated};
use std::path::Path;

fn enum_input_metadata() -> Input {
    Input::Enum {
        name: "soil_texture".into(),
        description: Some("USDA soil textural class.".into()),
        definition: EnumDefinition {
            enum_type: EnumType { document: String::new(), name: "SoilTexture".into(), shared_module: None },
            description: String::new(),
            values: Vec::new(),
        },
    }
}

#[test]
fn omits_a_unit_suffix_for_enum_input_metadata() {
    assert_eq!(parameter_details(&enum_input_metadata()), "USDA soil textural class.");
}

struct Paragraph(&'static str);

impl Render for Paragraph {
    fn render(&self, writer: &mut Writer) {
        writer.line(self.0);
    }
}

#[test]
fn writes_display_values_and_blank_lines() {
    let mut writer = Writer::new();
    writer.write("value: ");
    writer.line(&42.to_string());
    writer.blank_line();
    writer.line("next");

    assert_eq!(writer.into_string(), "value: 42\n\nnext\n");
}

#[test]
fn composes_render_values() {
    let mut writer = Writer::new();
    Paragraph("first").render(&mut writer);
    Paragraph("second").render(&mut writer);

    assert_eq!(writer.into_string(), "first\nsecond\n");
}

#[test]
fn renders_admonitions_with_writer_indentation() {
    let mut writer = Writer::new();
    catalog::render_admonition(&mut writer, "note", "first\nsecond");

    assert_eq!(writer.into_string(), "!!! note\n\n    first\n    second\n\n");
}

#[test]
fn renders_generated_frontmatter_with_the_existing_spacing() {
    let mut writer = Writer::new();
    generated_frontmatter(&mut writer, &["title: Test".to_string()]);
    writer.line("# Test");
    let file = markdown_file("test.md".to_string(), writer);

    assert_eq!(
        file.contents,
        "---\n# @generated by ptfkit-codegen; DO NOT EDIT.\n\ntitle: Test\n---\n\n# Test\n"
    );
}

#[test]
fn generated_documentation_front_matter_is_recognized_for_cleanup() {
    assert!(is_generated(
        format!("---\ntitle: \"ptfkit.test\"\n---\n\n{HEADER}::: ptfkit.test\n").as_bytes(),
        HEADER,
    ));
    assert!(is_generated(
        format!("---\n{}title: ptfkit.test\n---\n", FRONTMATTER_HEADER).as_bytes(),
        HEADER,
    ));
    assert!(!is_generated(b"# Handwritten page\n", HEADER));
    assert!(Path::new("index.md").is_relative());
}

#[test]
fn c_documentation_escapes_markdown_sensitive_text() {
    assert_eq!(c_documentation::escape_text("a `name` \\ value"), "a \\`name\\` \\\\ value");
    assert_eq!(c_documentation::escape_table("a|b\nc"), "a\\|b c");
}

#[test]
fn c_documentation_function_anchors_are_stable() {
    assert_eq!(c_documentation::function_anchor("calc_ptf_rawls1982"), "function-calc_ptf_rawls1982");
}

#[test]
fn c_documentation_natural_ordering_handles_numeric_suffixes() {
    assert!(c_documentation::natural_sort_key("calc_2") < c_documentation::natural_sort_key("calc_10"));
}

#[test]
fn c_documentation_renders_notes_and_warnings_as_admonitions() {
    let mut text = String::new();
    c_documentation::admonition(&mut text, "note", "Keep `value` in range.");
    c_documentation::admonition(&mut text, "warning", "Do not use | as a separator.");
    assert_eq!(
        text,
        "!!! note\n\n    Keep \\`value\\` in range.\n\n!!! warning\n\n    Do not use | as a separator.\n\n"
    );
}

#[test]
fn cpp_documentation_escapes_markdown_sensitive_text() {
    assert_eq!(cpp_documentation::escape_text("a `name` \\ value"), "a \\`name\\` \\\\ value");
    assert_eq!(cpp_documentation::escape_table("a|b\nc"), "a\\|b c");
}

#[test]
fn cpp_documentation_function_anchors_are_stable() {
    assert_eq!(cpp_documentation::function_anchor("calc_ptf_rawls1982"), "function-calc_ptf_rawls1982");
}

#[test]
fn cpp_documentation_natural_ordering_handles_numeric_suffixes() {
    assert!(cpp_documentation::natural_sort_key("calc_2") < cpp_documentation::natural_sort_key("calc_10"));
}

#[test]
fn c_escapes_markdown_sensitive_text() {
    assert_eq!(reference::c::escape_text("a `name` \\ value"), "a \\`name\\` \\\\ value");
    assert_eq!(reference::c::escape_table("a|b\nc"), "a\\|b c");
}

#[test]
fn c_function_anchors_are_stable() {
    assert_eq!(reference::c::function_anchor("calc_ptf_example2"), "function-calc_ptf_example2");
}

#[test]
fn c_natural_ordering_handles_numeric_suffixes() {
    assert!(reference::c::natural_sort_key("calc_2") < reference::c::natural_sort_key("calc_10"));
}

#[test]
fn cpp_escapes_markdown_sensitive_text() {
    assert_eq!(reference::cpp::escape_text("a `name` \\ value"), "a \\`name\\` \\\\ value");
    assert_eq!(reference::cpp::escape_table("a|b\nc"), "a\\|b c");
}

#[test]
fn cpp_function_anchors_are_stable() {
    assert_eq!(reference::cpp::function_anchor("calc_ptf_example2"), "function-calc_ptf_example2");
}

#[test]
fn cpp_natural_ordering_handles_numeric_suffixes() {
    assert!(reference::cpp::natural_sort_key("calc_2") < reference::cpp::natural_sort_key("calc_10"));
}

#[test]
fn natural_sort_key_keeps_letters_and_pads_digit_runs() {
    assert_eq!(reference::cpp::natural_sort_key("ab"), "ab");
    assert_eq!(reference::cpp::natural_sort_key("a1"), format!("a{}1", "0".repeat(19)));
    assert!(reference::cpp::natural_sort_key("a1") < reference::cpp::natural_sort_key("ab"));
}

#[test]
fn a_snapshot_has_not_drifted_from_itself() {
    let snapshot = vec![("a.md".to_string(), b"x".to_vec()), ("b.md".to_string(), b"y".to_vec())];
    assert_eq!(drift_report(&snapshot, &snapshot), None);
}
