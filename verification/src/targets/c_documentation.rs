//! Helpers of the C API reference pages.

use vstd::prelude::*;
use vstd::string::*;
use crate::model::Parameter;
use crate::output::GeneratedFile;
use crate::render::markdown::{lines_of, text_lines, trim_end, trim_end_of};
use crate::text::{Escaping, concat_map, escape, escaped, natural_key};

verus! {

/// The anchor of a function's section.
pub fn function_anchor(name: &str) -> (r: String)
    ensures
        r@ == "function-"@ + name@,
{
    let mut r = String::from_str("function-");
    r.append(name);
    r
}

/// Escapes backslashes and backticks for running Markdown text.
pub fn escape_text(value: &str) -> (r: String)
    ensures
        r@ == escaped(Escaping::Text, value@),
{
    escape(Escaping::Text, value)
}

/// Escapes a text for a Markdown table cell.
pub fn escape_table(value: &str) -> (r: String)
    ensures
        r@ == escaped(Escaping::Table, value@),
{
    escape(Escaping::Table, value)
}

/// The natural ordering key of a function name.
pub fn natural_sort_key(value: &str) -> (r: String)
    ensures
        r@ == natural_key(value@),
{
    crate::targets::python::natural_sort_key(value)
}

/// The table cell describing a parameter: its description and unit, escaped.
pub open spec fn spec_parameter_details(parameter: Parameter) -> Seq<char> {
    escaped(Escaping::Table, parameter.description@) + " ("@ + escaped(Escaping::Table, parameter.unit@) + ")"@
}

/// The description of a parameter with its unit in parentheses, escaped for a table.
pub fn parameter_details(parameter: &Parameter) -> (r: String)
    ensures
        r@ == spec_parameter_details(*parameter),
{
    let mut r = escape_table(parameter.description.as_str());
    r.append(" (");
    let unit = escape_table(parameter.unit.as_str());
    r.append(unit.as_str());
    r.append(")");
    r
}

/// One indented, escaped line of an admonition body.
pub open spec fn admonition_line(line: Seq<char>) -> Seq<char> {
    "    "@ + escaped(Escaping::Text, line) + "\n"@
}

/// The text of an admonition of `kind` holding `body`.
pub open spec fn spec_admonition(kind: Seq<char>, body: Seq<char>) -> Seq<char> {
    "!!! "@ + kind + "\n\n"@ + concat_map(text_lines(body), |l: Seq<char>| admonition_line(l)) + "\n"@
}

/// Appends an admonition of `kind` whose body lines are escaped and indented.
pub fn admonition(text: &mut String, kind: &str, body: &str)
    ensures
        final(text)@ == old(text)@ + spec_admonition(kind@, body@),
{
    let ghost start = old(text)@;
    text.append("!!! ");
    text.append(kind);
    text.append("\n\n");
    let lines = lines_of(body);
    let ghost texts = lines@.map_values(|l: String| l@);
    let ghost head = start + "!!! "@ + kind@ + "\n\n"@;
    let mut i: usize = 0;
    while i < lines.len()
        invariant
            i <= lines.len(),
            texts == lines@.map_values(|l: String| l@),
            text@ == head + concat_map(texts.take(i as int), |l: Seq<char>| admonition_line(l)),
        decreases lines.len() - i,
    {
        assert(texts.take(i + 1).drop_last() == texts.take(i as int));
        text.append("    ");
        let escaped_line = escape_text(lines[i].as_str());
        text.append(escaped_line.as_str());
        text.append("\n");
        i = i + 1;
    }
    assert(texts.take(lines.len() as int) == texts);
    text.append("\n");
}

/// A generated file whose text ends with exactly one line end after its trailing
/// whitespace is removed.
pub fn file(path: String, contents: String) -> (f: GeneratedFile)
    ensures
        f.path@ == path@,
        f.contents@ == trim_end(contents@) + "\n"@,
{
    let mut text = trim_end_of(contents.as_str());
    text.append("\n");
    GeneratedFile::new(path, text)
}

/// The page of a header: front matter titled after the header, then the contents.
pub fn header_file(path: String, slug: &str, contents: String) -> (f: GeneratedFile)
    ensures
        f.path@ == path@,
        f.contents@ == "---\ntitle: \""@ + slug@ + ".h\"\n---\n\n"@ + trim_end(contents@) + "\n"@,
{
    let mut text = String::from_str("---\ntitle: \"");
    text.append(slug);
    text.append(".h\"\n---\n\n");
    let body = trim_end_of(contents.as_str());
    text.append(body.as_str());
    text.append("\n");
    GeneratedFile::new(path, text)
}

/// The member declaration of a field in a C structure.
pub open spec fn structure_member(field: Parameter) -> Seq<char> {
    "    double "@ + field.name@ + ";\n"@
}

/// The table row describing a field.
pub open spec fn structure_row(field: Parameter) -> Seq<char> {
    "| `"@ + field.name@ + "` | "@ + spec_parameter_details(field) + " |\n"@
}

/// The section documenting a result structure: its C declaration, then a table of fields.
pub open spec fn spec_structure(name: Seq<char>, fields: Seq<Parameter>) -> Seq<char> {
    "## `"@ + name + "`\n\n"@ + "```c\n"@ + "typedef struct {\n"@
        + concat_map(fields, |f: Parameter| structure_member(f)) + " } "@ + name + ";\n"@
        + "```\n\n| Field | Description |\n| --- | --- |\n"@
        + concat_map(fields, |f: Parameter| structure_row(f)) + "\n"@
}

/// Documents a result structure.
pub fn structure(name: &str, fields: &[Parameter]) -> (r: String)
    ensures
        r@ == spec_structure(name@, fields@),
{
    let mut text = String::from_str("## `");
    text.append(name);
    text.append("`\n\n");
    text.append("```c\n");
    text.append("typedef struct {\n");
    let ghost head = "## `"@ + name@ + "`\n\n"@ + "```c\n"@ + "typedef struct {\n"@;
    let mut i: usize = 0;
    while i < fields.len()
        invariant
            i <= fields.len(),
            text@ == head + concat_map(fields@.take(i as int), |f: Parameter| structure_member(f)),
        decreases fields.len() - i,
    {
        assert(fields@.take(i + 1).drop_last() == fields@.take(i as int));
        text.append("    double ");
        text.append(fields[i].name.as_str());
        text.append(";\n");
        i = i + 1;
    }
    assert(fields@.take(fields.len() as int) == fields@);
    text.append(" } ");
    text.append(name);
    text.append(";\n");
    text.append("```\n\n| Field | Description |\n| --- | --- |\n");
    let ghost middle = text@;
    let mut j: usize = 0;
    while j < fields.len()
        invariant
            j <= fields.len(),
            text@ == middle + concat_map(fields@.take(j as int), |f: Parameter| structure_row(f)),
        decreases fields.len() - j,
    {
        assert(fields@.take(j + 1).drop_last() == fields@.take(j as int));
        text.append("| `");
        text.append(fields[j].name.as_str());
        text.append("` | ");
        let details = parameter_details(&fields[j]);
        text.append(details.as_str());
        text.append(" |\n");
        j = j + 1;
    }
    assert(fields@.take(fields.len() as int) == fields@);
    text.append("\n");
    text
}

} // verus!
