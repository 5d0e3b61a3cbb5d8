//! Helpers of the C++ API reference pages.

use vstd::prelude::*;
use vstd::string::*;
use crate::model::Parameter;
use crate::render::{Writer, WriterView, lines_written};
use crate::render::markdown::{admonition, after_admonition, after_code_block, code_block};
use crate::text::{Escaping, escape, escaped, natural_key};
use crate::targets::c_documentation::{spec_parameter_details};

verus! {

/// The anchor of a function's section.
pub fn function_anchor(name: &str) -> (r: String)
    ensures
        r@ == "function-"@ + name@,
{
    crate::targets::c_documentation::function_anchor(name)
}

/// Escapes backslashes and backticks for running Markdown text.
pub fn escape_text(value: &str) -> (r: String)
    ensures
        r@ == escaped(Escaping::Text, value@),
{
    escape(Escaping::Text, value)
}

/// Escapes a text for a Markdown table cell.
pub fn escape_table(value: &str) -> (r: String)
    ensures
        r@ == escaped(Escaping::Table, value@),
{
    escape(Escaping::Table, value)
}

/// The natural ordering key of a function name.
pub fn natural_sort_key(value: &str) -> (r: String)
    ensures
        r@ == natural_key(value@),
{
    crate::targets::python::natural_sort_key(value)
}

/// The description of a parameter with its unit in parentheses, escaped for a table.
pub fn parameter_details(parameter: &Parameter) -> (r: String)
    ensures
        r@ == spec_parameter_details(*parameter),
{
    crate::targets::c_documentation::parameter_details(parameter)
}

/// Writes an admonition whose body lines are escaped as Markdown text.
pub fn render_admonition(writer: &mut Writer, kind: &str, body: &str)
    requires
        old(writer)@.indentation < usize::MAX,
    ensures
        final(writer)@ == after_admonition(old(writer)@, kind@, body@, Some(Escaping::Text)),
{
    admonition(writer, kind, body, Some(Escaping::Text));
}

/// The lines of the C++ declaration of a result structure.
pub open spec fn structure_code(name: Seq<char>, fields: Seq<Parameter>) -> Seq<Seq<char>> {
    seq!["struct "@ + name + " {"@]
        + fields.map_values(|f: Parameter| "    double "@ + f.name@ + ";"@)
        + seq!["};"@]
}

/// The table rows that document the fields of a result structure.
pub open spec fn structure_table(fields: Seq<Parameter>) -> Seq<Seq<char>> {
    seq!["| Field | Description |"@, "| --- | --- |"@]
        + fields.map_values(|f: Parameter| "| `"@ + f.name@ + "` | "@ + spec_parameter_details(f) + " |"@)
}

/// The writer after the section documenting a result structure.
pub open spec fn after_structure(w: WriterView, name: Seq<char>, fields: Seq<Parameter>) -> WriterView {
    lines_written(
        after_code_block(w.after_line("## `"@ + name + "`"@).after_blank_line(), "cpp"@, structure_code(name, fields)),
        structure_table(fields),
    ).after_blank_line()
}

/// Writes each text as a line.
pub fn write_lines(writer: &mut Writer, lines: &Vec<String>)
    ensures
        final(writer)@ == lines_written(old(writer)@, lines@.map_values(|l: String| l@)),
{
    let ghost texts = lines@.map_values(|l: String| l@);
    let mut i: usize = 0;
    while i < lines.len()
        invariant
            i <= lines.len(),
            texts == lines@.map_values(|l: String| l@),
            writer@ == lines_written(old(writer)@, texts.take(i as int)),
        decreases lines.len() - i,
    {
        assert(texts.take(i + 1).drop_last() == texts.take(i as int));
        writer.line(lines[i].as_str());
        i = i + 1;
    }
    assert(texts.take(lines.len() as int) == texts);
}

/// Documents a result structure with its C++ declaration and a table of its fields.
pub fn render_structure(writer: &mut Writer, name: &str, fields: &[Parameter])
    ensures
        final(writer)@ == after_structure(old(writer)@, name@, fields@),
{
    let mut heading = String::from_str("## `");
    heading.append(name);
    heading.append("`");
    writer.line(heading.as_str());
    writer.blank_line();
    let mut code: Vec<String> = Vec::new();
    let mut opening = String::from_str("struct ");
    opening.append(name);
    opening.append(" {");
    code.push(opening);
    let mut rows: Vec<String> = Vec::new();
    rows.push(String::from_str("| Field | Description |"));
    rows.push(String::from_str("| --- | --- |"));
    let ghost code_start = code@.map_values(|l: String| l@);
    let ghost rows_start = rows@.map_values(|l: String| l@);
    let mut i: usize = 0;
    while i < fields.len()
        invariant
            i <= fields.len(),
            code_start == seq!["struct "@ + name@ + " {"@],
            rows_start == seq!["| Field | Description |"@, "| --- | --- |"@],
            code@.map_values(|l: String| l@) == code_start
                + fields@.take(i as int).map_values(|f: Parameter| "    double "@ + f.name@ + ";"@),
            rows@.map_values(|l: String| l@) == rows_start
                + fields@.take(i as int).map_values(|f: Parameter| "| `"@ + f.name@ + "` | "@ + spec_parameter_details(f) + " |"@),
        decreases fields.len() - i,
    {
        let mut member = String::from_str("    double ");
        member.append(fields[i].name.as_str());
        member.append(";");
        let mut row = String::from_str("| `");
        row.append(fields[i].name.as_str());
        row.append("` | ");
        let details = parameter_details(&fields[i]);
        row.append(details.as_str());
        row.append(" |");
        let ghost c0 = code@.map_values(|l: String| l@);
        let ghost r0 = rows@.map_values(|l: String| l@);
        code.push(member);
        rows.push(row);
        assert(code@.map_values(|l: String| l@) == c0.push(member@));
        assert(rows@.map_values(|l: String| l@) == r0.push(row@));
        assert(fields@.take(i + 1).map_values(|f: Parameter| "    double "@ + f.name@ + ";"@)
            == fields@.take(i as int).map_values(|f: Parameter| "    double "@ + f.name@ + ";"@).push(member@));
        assert(fields@.take(i + 1).map_values(|f: Parameter| "| `"@ + f.name@ + "` | "@ + spec_parameter_details(f) + " |"@)
            == fields@.take(i as int).map_values(|f: Parameter| "| `"@ + f.name@ + "` | "@ + spec_parameter_details(f) + " |"@).push(row@));
        i = i + 1;
    }
    assert(fields@.take(fields.len() as int) == fields@);
    let ghost c1 = code@.map_values(|l: String| l@);
    code.push(String::from_str("};"));
    assert(code@.map_values(|l: String| l@) == c1.push("};"@));
    assert(code@.map_values(|l: String| l@) == structure_code(name@, fields@));
    assert(rows@.map_values(|l: String| l@) == structure_table(fields@));
    code_block(writer, "cpp", code.as_slice());
    write_lines(writer, &rows);
    writer.blank_line();
}

} // verus!
