//! Helpers of the PTF catalog pages.

use vstd::prelude::*;
use vstd::string::*;
use crate::model::{Input, OutputField};
use crate::render::{Writer, WriterView, lines_written};
use crate::render::markdown::{admonition, after_admonition};
use crate::text::{Escaping, escape, escaped};
use crate::documentation::opt_view;
use crate::targets::cpp_documentation::write_lines;

verus! {

/// Folds newlines and escapes pipes for a catalog table cell.
pub fn escape_table(value: &str) -> (r: String)
    ensures
        r@ == escaped(Escaping::CatalogTable, value@),
{
    escape(Escaping::CatalogTable, value)
}

/// Writes a note or warning admonition with its body kept as written.
pub fn render_admonition(writer: &mut Writer, kind: &str, body: &str)
    requires
        old(writer)@.indentation < usize::MAX,
    ensures
        final(writer)@ == after_admonition(old(writer)@, kind@, body@, None),
{
    admonition(writer, kind, body, None);
}

/// An optional cell: the escaped text, or an em dash when absent.
pub open spec fn optional_cell(value: Option<Seq<char>>) -> Seq<char> {
    match value {
        Some(v) => escaped(Escaping::CatalogTable, v),
        None => "\u{2014}"@,
    }
}

fn optional_cell_of(value: Option<&str>) -> (r: String)
    ensures
        r@ == optional_cell(crate::documentation::opt_str_view(value)),
{
    match value {
        Some(v) => escape_table(v),
        None => String::from_str("\u{2014}"),
    }
}

/// The table row describing an input.
pub open spec fn input_row(input: Input) -> Seq<char> {
    let value_type = match input {
        Input::Parameter(_) => "`number`"@,
        Input::Enum { definition, .. } => "`"@ + definition.enum_type.name@ + "`"@,
    };
    let domain = match input {
        Input::Parameter(p) => opt_view(p.domain),
        Input::Enum { .. } => None,
    };
    "| `"@ + input.spec_name() + "` | "@ + value_type + " | "@ + optional_cell(input.spec_unit()) + " | "@
        + optional_cell(domain) + " | "@ + escaped(Escaping::CatalogTable, input.spec_description()) + " |"@
}

/// The heading and header rows of the input table.
pub open spec fn input_table_head() -> Seq<char> {
    "#### Inputs\n\n| Name | Type | Unit | Domain | Description |\n| --- | --- | --- | --- | --- |\n"@
}

/// Writes the table of a function's inputs.
pub fn render_input_table(writer: &mut Writer, inputs: &[Input])
    ensures
        final(writer)@ == lines_written(
            old(writer)@.after_write(input_table_head()),
            inputs@.map_values(|i: Input| input_row(i)),
        ).after_blank_line(),
{
    writer.write("#### Inputs\n\n| Name | Type | Unit | Domain | Description |\n| --- | --- | --- | --- | --- |\n");
    let mut rows: Vec<String> = Vec::new();
    let mut i: usize = 0;
    while i < inputs.len()
        invariant
            i <= inputs.len(),
            rows@.map_values(|l: String| l@) == inputs@.take(i as int).map_values(|i: Input| input_row(i)),
        decreases inputs.len() - i,
    {
        let input = &inputs[i];
        let mut row = String::from_str("| `");
        row.append(input.name());
        row.append("` | ");
        match input.enum_type() {
            Some(definition) => {
                row.append("`");
                row.append(definition.enum_type.name.as_str());
                row.append("`");
            },
            None => {
                row.append("`number`");
            },
        }
        row.append(" | ");
        let unit = optional_cell_of(input.unit());
        row.append(unit.as_str());
        row.append(" | ");
        let domain = optional_cell_of(input.domain());
        row.append(domain.as_str());
        row.append(" | ");
        let description = escape_table(input.description());
        row.append(description.as_str());
        row.append(" |");
        let ghost r0 = rows@.map_values(|l: String| l@);
        assert(row@ == input_row(*input));
        rows.push(row);
        assert(rows@.map_values(|l: String| l@) == r0.push(row@));
        assert(inputs@.take(i + 1).map_values(|i: Input| input_row(i))
            == inputs@.take(i as int).map_values(|i: Input| input_row(i)).push(row@));
        i = i + 1;
    }
    assert(inputs@.take(inputs.len() as int) == inputs@);
    write_lines(writer, &rows);
    writer.blank_line();
}

/// The table row describing an output field.
pub open spec fn parameter_row(field: OutputField) -> Seq<char> {
    "| `"@ + field.name@ + "` | "@ + escaped(Escaping::CatalogTable, field.unit@) + " | "@
        + optional_cell(opt_view(field.domain)) + " | "@ + escaped(Escaping::CatalogTable, field.description@) + " |"@
}

/// Writes a titled table of output fields.
pub fn render_parameter_table(writer: &mut Writer, title: &str, parameters: &[OutputField])
    ensures
        final(writer)@ == lines_written(
            old(writer)@.after_write("#### "@ + title@ + "\n\n| Name | Unit | Domain | Description |\n| --- | --- | --- | --- |\n"@),
            parameters@.map_values(|f: OutputField| parameter_row(f)),
        ).after_blank_line(),
{
    let mut head = String::from_str("#### ");
    head.append(title);
    head.append("\n\n| Name | Unit | Domain | Description |\n| --- | --- | --- | --- |\n");
    writer.write(head.as_str());
    let mut rows: Vec<String> = Vec::new();
    let mut i: usize = 0;
    while i < parameters.len()
        invariant
            i <= parameters.len(),
            rows@.map_values(|l: String| l@) == parameters@.take(i as int).map_values(|f: OutputField| parameter_row(f)),
        decreases parameters.len() - i,
    {
        let field = &parameters[i];
        let mut row = String::from_str("| `");
        row.append(field.name.as_str());
        row.append("` | ");
        let unit = escape_table(field.unit.as_str());
        row.append(unit.as_str());
        row.append(" | ");
        let domain = match &field.domain {
            Some(d) => optional_cell_of(Some(d.as_str())),
            None => optional_cell_of(None),
        };
        row.append(domain.as_str());
        row.append(" | ");
        let description = escape_table(field.description.as_str());
        row.append(description.as_str());
        row.append(" |");
        let ghost r0 = rows@.map_values(|l: String| l@);
        rows.push(row);
        assert(rows@.map_values(|l: String| l@) == r0.push(row@));
        assert(parameters@.take(i + 1).map_values(|f: OutputField| parameter_row(f))
            == parameters@.take(i as int).map_values(|f: OutputField| parameter_row(f)).push(row@));
        i = i + 1;
    }
    assert(parameters@.take(parameters.len() as int) == parameters@);
    write_lines(writer, &rows);
    writer.blank_line();
}

} // verus!
