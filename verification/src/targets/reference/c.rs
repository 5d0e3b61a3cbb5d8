//! Helpers of the C reference pages.

use vstd::prelude::*;
use vstd::string::*;
use crate::documentation::{ParameterMetadata, spec_parameter_details};
use crate::model::OutputField;
use crate::render::{Writer, WriterView, lines_written};
use crate::render::markdown::{admonition, after_admonition, after_code_block, after_frontmatter, code_block, generated_frontmatter, HEADER};
use crate::text::{Escaping, escape, escaped, natural_key};
use crate::targets::cpp_documentation::write_lines;

verus! {

/// The anchor of a function's section.
pub fn function_anchor(name: &str) -> (r: String)
    ensures
        r@ == "function-"@ + name@,
{
    crate::targets::c_documentation::function_anchor(name)
}

/// Escapes backslashes and backticks for running Markdown text.
pub fn escape_text(value: &str) -> (r: String)
    ensures
        r@ == escaped(Escaping::Text, value@),
{
    escape(Escaping::Text, value)
}

/// Escapes a text for a Markdown table cell.
pub fn escape_table(value: &str) -> (r: String)
    ensures
        r@ == escaped(Escaping::Table, value@),
{
    escape(Escaping::Table, value)
}

/// The natural ordering key of a function name.
pub fn natural_sort_key(value: &str) -> (r: String)
    ensures
        r@ == natural_key(value@),
{
    crate::targets::python::natural_sort_key(value)
}

/// The details of a parameter (description and unit), escaped for a table cell.
pub fn parameter_details<P: ParameterMetadata>(parameter: &P) -> (r: String)
    ensures
        r@ == escaped(Escaping::Table, spec_parameter_details(parameter.spec_description(), parameter.spec_unit())),
{
    let details = crate::documentation::parameter_details(parameter);
    escape_table(details.as_str())
}

/// Writes an admonition whose body lines are escaped as Markdown text.
pub fn render_admonition(writer: &mut Writer, kind: &str, body: &str)
    requires
        old(writer)@.indentation < usize::MAX,
    ensures
        final(writer)@ == after_admonition(old(writer)@, kind@, body@, Some(Escaping::Text)),
{
    admonition(writer, kind, body, Some(Escaping::Text));
}

/// The details cell of an output field.
pub open spec fn field_details(f: OutputField) -> Seq<char> {
    escaped(Escaping::Table, spec_parameter_details(f.description@, Some(f.unit@)))
}

/// The lines of the C declaration of a result structure.
pub open spec fn structure_code(name: Seq<char>, fields: Seq<OutputField>) -> Seq<Seq<char>> {
    seq!["typedef struct {"@]
        + fields.map_values(|f: OutputField| "    double "@ + f.name@ + ";"@)
        + seq![" } "@ + name + ";"@]
}

/// The table rows that document the fields of a result structure.
pub open spec fn structure_table(fields: Seq<OutputField>) -> Seq<Seq<char>> {
    seq!["| Field | Description |"@, "| --- | --- |"@]
        + fields.map_values(|f: OutputField| "| `"@ + f.name@ + "` | "@ + field_details(f) + " |"@)
}

/// The writer after the section documenting a result structure.
pub open spec fn after_structure(w: WriterView, name: Seq<char>, fields: Seq<OutputField>) -> WriterView {
    lines_written(
        after_code_block(w.after_write("## `"@ + name + "`\n\n"@), "c"@, structure_code(name, fields)),
        structure_table(fields),
    ).after_blank_line()
}

/// Documents a result structure with its C declaration and a table of its fields.
pub fn render_structure(writer: &mut Writer, name: &str, fields: &[OutputField])
    ensures
        final(writer)@ == after_structure(old(writer)@, name@, fields@),
{
    let mut heading = String::from_str("## `");
    heading.append(name);
    heading.append("`\n\n");
    writer.write(heading.as_str());
    let mut code: Vec<String> = Vec::new();
    code.push(String::from_str("typedef struct {"));
    let mut rows: Vec<String> = Vec::new();
    rows.push(String::from_str("| Field | Description |"));
    rows.push(String::from_str("| --- | --- |"));
    let ghost code_start = code@.map_values(|l: String| l@);
    let ghost rows_start = rows@.map_values(|l: String| l@);
    let mut i: usize = 0;
    while i < fields.len()
        invariant
            i <= fields.len(),
            code_start == seq!["typedef struct {"@],
            rows_start == seq!["| Field | Description |"@, "| --- | --- |"@],
            code@.map_values(|l: String| l@) == code_start
                + fields@.take(i as int).map_values(|f: OutputField| "    double "@ + f.name@ + ";"@),
            rows@.map_values(|l: String| l@) == rows_start
                + fields@.take(i as int).map_values(|f: OutputField| "| `"@ + f.name@ + "` | "@ + field_details(f) + " |"@),
        decreases fields.len() - i,
    {
        let mut member = String::from_str("    double ");
        member.append(fields[i].name.as_str());
        member.append(";");
        let mut row = String::from_str("| `");
        row.append(fields[i].name.as_str());
        row.append("` | ");
        let details = parameter_details(&fields[i]);
        row.append(details.as_str());
        row.append(" |");
        let ghost c0 = code@.map_values(|l: String| l@);
        let ghost r0 = rows@.map_values(|l: String| l@);
        code.push(member);
        rows.push(row);
        assert(code@.map_values(|l: String| l@) == c0.push(member@));
        assert(rows@.map_values(|l: String| l@) == r0.push(row@));
        assert(fields@.take(i + 1).map_values(|f: OutputField| "    double "@ + f.name@ + ";"@)
            == fields@.take(i as int).map_values(|f: OutputField| "    double "@ + f.name@ + ";"@).push(member@));
        assert(fields@.take(i + 1).map_values(|f: OutputField| "| `"@ + f.name@ + "` | "@ + field_details(f) + " |"@)
            == fields@.take(i as int).map_values(|f: OutputField| "| `"@ + f.name@ + "` | "@ + field_details(f) + " |"@).push(row@));
        i = i + 1;
    }
    assert(fields@.take(fields.len() as int) == fields@);
    let ghost c1 = code@.map_values(|l: String| l@);
    let mut closing = String::from_str(" } ");
    closing.append(name);
    closing.append(";");
    code.push(closing);
    assert(code@.map_values(|l: String| l@) == c1.push(closing@));
    assert(code@.map_values(|l: String| l@) == structure_code(name@, fields@));
    assert(rows@.map_values(|l: String| l@) == structure_table(fields@));
    code_block(writer, "c", code.as_slice());
    write_lines(writer, &rows);
    writer.blank_line();
}

/// The index's line for a shared domain header.
pub open spec fn shared_header_line(module: Seq<char>) -> Seq<char> {
    "- [`<ptfkit/"@ + module + ".h>`](headers/"@ + module + ".md)"@
}

/// The index's line for a source header: its link and its escaped summary.
pub open spec fn source_header_line(slug: Seq<char>, summary: Seq<char>) -> Seq<char> {
    "- [`<ptfkit/"@ + slug + ".h>`](headers/"@ + slug + ".md) — "@ + escaped(Escaping::Text, summary)
}

/// The opening of the C API reference index, after its front matter.
pub open spec fn index_opening() -> Seq<char> {
    "# C API reference\n\nptfkit's C API is organized around installed headers.\n\n## Umbrella header\n\n- [`<ptfkit/ptfkit.h>`](headers/ptfkit.md) — Aggregates all public ptfkit headers.\n\n"@
}

/// Pairs of texts by their views.
pub open spec fn text_pairs(v: Seq<(String, String)>) -> Seq<(Seq<char>, Seq<char>)> {
    v.map_values(|p: (String, String)| (p.0@, p.1@))
}

/// The writer after the C API reference index: the front matter, the umbrella header,
/// the shared domain headers (a section only when there is one), each source header
/// with its summary, and a pointer to the function index.
pub open spec fn after_index(w: WriterView, modules: Seq<Seq<char>>, sources: Seq<(Seq<char>, Seq<char>)>) -> WriterView {
    let opened = after_frontmatter(w, seq!["title: C API reference"@]).after_write(index_opening());
    let shared = if modules.len() == 0 {
        opened
    } else {
        lines_written(opened.after_write("## Shared domain headers\n\n"@), modules.map_values(|m: Seq<char>| shared_header_line(m)))
            .after_blank_line()
    };
    lines_written(
        shared.after_write("## Source headers\n\n"@),
        sources.map_values(|p: (Seq<char>, Seq<char>)| source_header_line(p.0, p.1)),
    ).after_blank_line().after_line("See the [function index](functions.md) for all public C functions."@)
}

fn shared_header_text(module: &str) -> (r: String)
    ensures
        r@ == shared_header_line(module@),
{
    let mut m = String::from_str("- [`<ptfkit/");
    m.append(module);
    m.append(".h>`](headers/");
    m.append(module);
    m.append(".md)");
    proof {
        reveal_strlit("- [`<ptfkit/");
        reveal_strlit(".h>`](headers/");
        reveal_strlit(".md)");
    }
    m
}

fn source_header_text(slug: &str, summary: &str) -> (r: String)
    ensures
        r@ == source_header_line(slug@, summary@),
{
    let mut m = String::from_str("- [`<ptfkit/");
    m.append(slug);
    m.append(".h>`](headers/");
    m.append(slug);
    m.append(".md) — ");
    let escaped_summary = escape_text(summary);
    m.append(escaped_summary.as_str());
    proof {
        reveal_strlit("- [`<ptfkit/");
        reveal_strlit(".h>`](headers/");
        reveal_strlit(".md) — ");
    }
    m
}

fn module_lines(modules: &Vec<String>) -> (r: Vec<String>)
    ensures
        r@.map_values(|l: String| l@) == modules@.map_values(|m: String| m@).map_values(|m: Seq<char>| shared_header_line(m)),
{
    let mut r: Vec<String> = Vec::new();
    let mut k: usize = 0;
    while k < modules.len()
        invariant
            k <= modules.len(),
            r@.map_values(|l: String| l@) == modules@.take(k as int).map_values(|m: String| m@).map_values(
                |m: Seq<char>| shared_header_line(m),
            ),
        decreases modules.len() - k,
    {
        let line = shared_header_text(modules[k].as_str());
        let ghost prev = r@.map_values(|l: String| l@);
        r.push(line);
        assert(r@.map_values(|l: String| l@) =~= prev.push(line@));
        assert(modules@.take(k + 1).map_values(|m: String| m@).map_values(|m: Seq<char>| shared_header_line(m)) =~= modules@.take(
            k as int,
        ).map_values(|m: String| m@).map_values(|m: Seq<char>| shared_header_line(m)).push(line@));
        k = k + 1;
    }
    assert(modules@.take(modules.len() as int) =~= modules@);
    r
}

fn source_lines(sources: &Vec<(String, String)>) -> (r: Vec<String>)
    ensures
        r@.map_values(|l: String| l@) == text_pairs(sources@).map_values(|p: (Seq<char>, Seq<char>)| source_header_line(p.0, p.1)),
{
    let mut r: Vec<String> = Vec::new();
    let mut k: usize = 0;
    while k < sources.len()
        invariant
            k <= sources.len(),
            r@.map_values(|l: String| l@) == text_pairs(sources@.take(k as int)).map_values(
                |p: (Seq<char>, Seq<char>)| source_header_line(p.0, p.1),
            ),
        decreases sources.len() - k,
    {
        let line = source_header_text(sources[k].0.as_str(), sources[k].1.as_str());
        let ghost prev = r@.map_values(|l: String| l@);
        r.push(line);
        assert(r@.map_values(|l: String| l@) =~= prev.push(line@));
        assert(text_pairs(sources@.take(k + 1)).map_values(|p: (Seq<char>, Seq<char>)| source_header_line(p.0, p.1)) =~= text_pairs(
            sources@.take(k as int),
        ).map_values(|p: (Seq<char>, Seq<char>)| source_header_line(p.0, p.1)).push(line@));
        k = k + 1;
    }
    assert(sources@.take(sources.len() as int) =~= sources@);
    r
}

/// Writes the C API reference index: `modules` are the shared domain modules and
/// `sources` each source header's slug and summary, both in the order they are listed.
pub fn render_index(writer: &mut Writer, modules: &Vec<String>, sources: &Vec<(String, String)>)
    ensures
        final(writer)@ == after_index(old(writer)@, modules@.map_values(|m: String| m@), text_pairs(sources@)),
{
    let mut front: Vec<String> = Vec::new();
    front.push(String::from_str("title: C API reference"));
    proof {
        reveal_strlit("title: C API reference");
        assert(front@.map_values(|l: String| l@) =~= seq!["title: C API reference"@]);
    }
    generated_frontmatter(writer, front.as_slice());
    writer.write("# C API reference\n\nptfkit's C API is organized around installed headers.\n\n## Umbrella header\n\n- [`<ptfkit/ptfkit.h>`](headers/ptfkit.md) — Aggregates all public ptfkit headers.\n\n");
    proof {
        reveal_strlit("# C API reference\n\nptfkit's C API is organized around installed headers.\n\n## Umbrella header\n\n- [`<ptfkit/ptfkit.h>`](headers/ptfkit.md) — Aggregates all public ptfkit headers.\n\n");
        reveal_strlit("## Shared domain headers\n\n");
        reveal_strlit("## Source headers\n\n");
        reveal_strlit("See the [function index](functions.md) for all public C functions.");
    }
    if modules.len() > 0 {
        writer.write("## Shared domain headers\n\n");
        let lines = module_lines(modules);
        write_lines(writer, &lines);
        writer.blank_line();
    }
    writer.write("## Source headers\n\n");
    let lines = source_lines(sources);
    write_lines(writer, &lines);
    writer.blank_line();
    writer.line("See the [function index](functions.md) for all public C functions.");
}

/// The umbrella page's line for a shared domain header.
pub open spec fn umbrella_module_line(module: Seq<char>) -> Seq<char> {
    "- [`<ptfkit/"@ + module + ".h>`]("@ + module + ".md)"@
}

/// The umbrella page's line for a source header, with its escaped summary.
pub open spec fn umbrella_source_line(slug: Seq<char>, summary: Seq<char>) -> Seq<char> {
    "- [`<ptfkit/"@ + slug + ".h>`]("@ + slug + ".md) — "@ + escaped(Escaping::Text, summary)
}

/// The paragraph of the umbrella page before its list of headers.
pub open spec fn umbrella_text() -> Seq<char> {
    "This umbrella header aggregates every public ptfkit header. Include an individual header when only one module is needed.\n\n## Included headers\n\n"@
}

/// The writer after the page of the umbrella header `<ptfkit/ptfkit.h>`: the generated
/// marker, its title and include line, then each shared domain header and each source
/// header with its summary.
pub open spec fn after_umbrella(w: WriterView, modules: Seq<Seq<char>>, sources: Seq<(Seq<char>, Seq<char>)>) -> WriterView {
    let opened = after_code_block(
        w.after_write(HEADER@).after_write("# `<ptfkit/ptfkit.h>`\n\n"@),
        "c"@,
        seq!["#include <ptfkit/ptfkit.h>"@],
    ).after_write(umbrella_text());
    lines_written(
        lines_written(opened, modules.map_values(|m: Seq<char>| umbrella_module_line(m))),
        sources.map_values(|p: (Seq<char>, Seq<char>)| umbrella_source_line(p.0, p.1)),
    )
}

/// Writes the page of the umbrella header: `modules` are the shared domain modules and
/// `sources` each source header's slug and summary, in the order they are listed.
pub fn render_umbrella(writer: &mut Writer, modules: &Vec<String>, sources: &Vec<(String, String)>)
    ensures
        final(writer)@ == after_umbrella(old(writer)@, modules@.map_values(|m: String| m@), text_pairs(sources@)),
{
    writer.write(HEADER);
    writer.write("# `<ptfkit/ptfkit.h>`\n\n");
    let mut directive: Vec<String> = Vec::new();
    directive.push(String::from_str("#include <ptfkit/ptfkit.h>"));
    proof {
        reveal_strlit("#include <ptfkit/ptfkit.h>");
        reveal_strlit("c");
        assert(directive@.map_values(|l: String| l@) =~= seq!["#include <ptfkit/ptfkit.h>"@]);
    }
    code_block(writer, "c", directive.as_slice());
    writer.write("This umbrella header aggregates every public ptfkit header. Include an individual header when only one module is needed.\n\n## Included headers\n\n");
    let mut lines: Vec<String> = Vec::new();
    let mut k: usize = 0;
    while k < modules.len()
        invariant
            k <= modules.len(),
            lines@.map_values(|l: String| l@) == modules@.take(k as int).map_values(|m: String| m@).map_values(
                |m: Seq<char>| umbrella_module_line(m),
            ),
        decreases modules.len() - k,
    {
        let mut line = String::from_str("- [`<ptfkit/");
        line.append(modules[k].as_str());
        line.append(".h>`](");
        line.append(modules[k].as_str());
        line.append(".md)");
        proof {
            reveal_strlit("- [`<ptfkit/");
            reveal_strlit(".h>`](");
            reveal_strlit(".md)");
        }
        let ghost prev = lines@.map_values(|l: String| l@);
        lines.push(line);
        assert(lines@.map_values(|l: String| l@) =~= prev.push(umbrella_module_line(modules@[k as int]@)));
        assert(modules@.take(k + 1).map_values(|m: String| m@).map_values(|m: Seq<char>| umbrella_module_line(m)) =~= modules@.take(
            k as int,
        ).map_values(|m: String| m@).map_values(|m: Seq<char>| umbrella_module_line(m)).push(umbrella_module_line(modules@[k as int]@)));
        k = k + 1;
    }
    assert(modules@.take(modules.len() as int) =~= modules@);
    write_lines(writer, &lines);
    let mut source_rows: Vec<String> = Vec::new();
    let mut k: usize = 0;
    while k < sources.len()
        invariant
            k <= sources.len(),
            source_rows@.map_values(|l: String| l@) == text_pairs(sources@.take(k as int)).map_values(
                |p: (Seq<char>, Seq<char>)| umbrella_source_line(p.0, p.1),
            ),
        decreases sources.len() - k,
    {
        let mut line = String::from_str("- [`<ptfkit/");
        line.append(sources[k].0.as_str());
        line.append(".h>`](");
        line.append(sources[k].0.as_str());
        line.append(".md) — ");
        let summary = escape_text(sources[k].1.as_str());
        line.append(summary.as_str());
        proof {
            reveal_strlit("- [`<ptfkit/");
            reveal_strlit(".h>`](");
            reveal_strlit(".md) — ");
        }
        let ghost prev = source_rows@.map_values(|l: String| l@);
        source_rows.push(line);
        assert(source_rows@.map_values(|l: String| l@) =~= prev.push(line@));
        assert(text_pairs(sources@.take(k + 1)).map_values(|p: (Seq<char>, Seq<char>)| umbrella_source_line(p.0, p.1)) =~= text_pairs(
            sources@.take(k as int),
        ).map_values(|p: (Seq<char>, Seq<char>)| umbrella_source_line(p.0, p.1)).push(line@));
        k = k + 1;
    }
    assert(sources@.take(sources.len() as int) =~= sources@);
    write_lines(writer, &source_rows);
    proof {
        reveal_strlit("# `<ptfkit/ptfkit.h>`\n\n");
        reveal_strlit("This umbrella header aggregates every public ptfkit header. Include an individual header when only one module is needed.\n\n## Included headers\n\n");
    }
}

/// The function index's row for a function: its name linked to its section in its
/// source header, its escaped summary and its header.
pub open spec fn function_row(slug: Seq<char>, name: Seq<char>, summary: Seq<char>) -> Seq<char> {
    "| [`"@ + name + "`](headers/"@ + slug + ".md#function-"@ + name + ") | "@ + escaped(Escaping::Table, summary)
        + " | [`<ptfkit/"@ + slug + ".h>`](headers/"@ + slug + ".md) |"@
}

/// Triples of texts by their views.
pub open spec fn text_triples(v: Seq<(String, String, String)>) -> Seq<(Seq<char>, Seq<char>, Seq<char>)> {
    v.map_values(|t: (String, String, String)| (t.0@, t.1@, t.2@))
}

/// The writer after the C function index: its front matter, its title and table head,
/// then a row for each function.
pub open spec fn after_functions_index(w: WriterView, functions: Seq<(Seq<char>, Seq<char>, Seq<char>)>) -> WriterView {
    lines_written(
        after_frontmatter(w, seq!["title: C function index"@]).after_write(
            "# C function index\n\n| Function | Summary | Header |\n| --- | --- | --- |\n"@,
        ),
        functions.map_values(|t: (Seq<char>, Seq<char>, Seq<char>)| function_row(t.0, t.1, t.2)),
    )
}

/// Writes the C function index: each function as its source header's slug, its name and
/// its summary, in the order given.
pub fn render_functions_index(writer: &mut Writer, functions: &Vec<(String, String, String)>)
    ensures
        final(writer)@ == after_functions_index(old(writer)@, text_triples(functions@)),
{
    let mut front: Vec<String> = Vec::new();
    front.push(String::from_str("title: C function index"));
    proof {
        reveal_strlit("title: C function index");
        assert(front@.map_values(|l: String| l@) =~= seq!["title: C function index"@]);
    }
    generated_frontmatter(writer, front.as_slice());
    writer.write("# C function index\n\n| Function | Summary | Header |\n| --- | --- | --- |\n");
    let mut rows: Vec<String> = Vec::new();
    let mut k: usize = 0;
    while k < functions.len()
        invariant
            k <= functions.len(),
            rows@.map_values(|l: String| l@) == text_triples(functions@.take(k as int)).map_values(
                |t: (Seq<char>, Seq<char>, Seq<char>)| function_row(t.0, t.1, t.2),
            ),
        decreases functions.len() - k,
    {
        let (slug, name, summary) = (&functions[k].0, &functions[k].1, &functions[k].2);
        let mut row = String::from_str("| [`");
        row.append(name.as_str());
        row.append("`](headers/");
        row.append(slug.as_str());
        row.append(".md#function-");
        row.append(name.as_str());
        row.append(") | ");
        let cell = escape_table(summary.as_str());
        row.append(cell.as_str());
        row.append(" | [`<ptfkit/");
        row.append(slug.as_str());
        row.append(".h>`](headers/");
        row.append(slug.as_str());
        row.append(".md) |");
        proof {
            reveal_strlit("| [`");
            reveal_strlit("`](headers/");
            reveal_strlit(".md#function-");
            reveal_strlit(") | ");
            reveal_strlit(" | [`<ptfkit/");
            reveal_strlit(".h>`](headers/");
            reveal_strlit(".md) |");
        }
        let ghost prev = rows@.map_values(|l: String| l@);
        rows.push(row);
        assert(rows@.map_values(|l: String| l@) =~= prev.push(row@));
        assert(text_triples(functions@.take(k + 1)).map_values(|t: (Seq<char>, Seq<char>, Seq<char>)| function_row(t.0, t.1, t.2)) =~= text_triples(
            functions@.take(k as int),
        ).map_values(|t: (Seq<char>, Seq<char>, Seq<char>)| function_row(t.0, t.1, t.2)).push(row@));
        k = k + 1;
    }
    assert(functions@.take(functions.len() as int) =~= functions@);
    write_lines(writer, &rows);
    proof {
        reveal_strlit("# C function index\n\n| Function | Summary | Header |\n| --- | --- | --- |\n");
    }
}

/// Text written when there is a value, nothing otherwise.
pub open spec fn when_some(v: Option<String>, f: spec_fn(Seq<char>) -> Seq<char>) -> Seq<char> {
    match v {
        Some(x) => f(x@),
        None => seq![],
    }
}

/// The text of a source header page after its include block: the summary, the source
/// citation, its DOI link, the scope (a section only when there is a territory or a
/// dataset) and the link to the catalog page; texts escaped as Markdown text.
pub open spec fn header_source_text(slug: Seq<char>, source: crate::model::Source, scope: crate::model::Scope) -> Seq<char> {
    source_part(source) + scope_part(scope) + "[PTF catalog page](../../../ptf-catalog/sources/"@ + slug + ".md)\n\n"@
}

/// The writer after the opening of a source header's page: the generated marker, its
/// title, its include line and `header_source_text`.
pub open spec fn after_header_source(w: WriterView, slug: Seq<char>, source: crate::model::Source, scope: crate::model::Scope) -> WriterView {
    after_code_block(
        w.after_write(HEADER@).after_write("# `<ptfkit/"@ + slug + ".h>`\n\n"@),
        "c"@,
        seq!["#include <ptfkit/"@ + slug + ".h>"@],
    ).after_write(header_source_text(slug, source, scope))
}

/// The summary, citation and DOI part of `header_source_text`.
pub open spec fn source_part(source: crate::model::Source) -> Seq<char> {
    escaped(Escaping::Text, source.summary@) + "\n\n## Source\n\n"@ + escaped(Escaping::Text, source.citation_apa@) + "\n\n"@
        + match source.doi {
            Some(doi) => "[DOI: "@ + escaped(Escaping::Text, doi.identifier@) + "]("@ + doi.url@ + ")\n\n"@,
            None => seq![],
        }
}

/// The scope part of `header_source_text`.
pub open spec fn scope_part(scope: crate::model::Scope) -> Seq<char> {
    if scope.territory is Some || scope.dataset is Some {
        "## Scope\n\n"@ + when_some(scope.territory, |t: Seq<char>| "**Territory:** "@ + escaped(Escaping::Text, t) + "\n\n"@)
            + when_some(scope.dataset, |d: Seq<char>| "**Dataset:** "@ + escaped(Escaping::Text, d) + "\n\n"@)
    } else {
        seq![]
    }
}

fn source_text(source: &crate::model::Source) -> (r: String)
    ensures
        r@ == source_part(*source),
{
    let mut text = escape_text(source.summary.as_str());
    text.append("\n\n## Source\n\n");
    let citation = escape_text(source.citation_apa.as_str());
    text.append(citation.as_str());
    text.append("\n\n");
    proof {
        reveal_strlit("\n\n## Source\n\n");
        reveal_strlit("\n\n");
    }
    let ghost before = text@;
    match &source.doi {
        Some(doi) => {
            text.append("[DOI: ");
            let identifier = escape_text(doi.identifier.as_str());
            text.append(identifier.as_str());
            text.append("](");
            text.append(doi.url.as_str());
            text.append(")\n\n");
            proof {
                reveal_strlit("[DOI: ");
                reveal_strlit("](");
                reveal_strlit(")\n\n");
            }
        },
        None => {},
    }
    assert(text@ =~= source_part(*source));
    text
}

fn scope_text(scope: &crate::model::Scope) -> (r: String)
    ensures
        r@ == scope_part(*scope),
{
    let mut text = String::new();
    if scope.territory.is_some() || scope.dataset.is_some() {
        text.append("## Scope\n\n");
        proof {
            reveal_strlit("## Scope\n\n");
            reveal_strlit("**Territory:** ");
            reveal_strlit("**Dataset:** ");
            reveal_strlit("\n\n");
        }
        let ghost opened = text@;
        match &scope.territory {
            Some(t) => {
                text.append("**Territory:** ");
                let e = escape_text(t.as_str());
                text.append(e.as_str());
                text.append("\n\n");
            },
            None => {},
        }
        let ghost middle = text@;
        assert(middle =~= opened + when_some(scope.territory, |t: Seq<char>| "**Territory:** "@ + escaped(Escaping::Text, t) + "\n\n"@));
        match &scope.dataset {
            Some(d) => {
                text.append("**Dataset:** ");
                let e = escape_text(d.as_str());
                text.append(e.as_str());
                text.append("\n\n");
            },
            None => {},
        }
        assert(text@ =~= middle + when_some(scope.dataset, |d: Seq<char>| "**Dataset:** "@ + escaped(Escaping::Text, d) + "\n\n"@));
    }
    assert(text@ =~= scope_part(*scope));
    text
}

/// `header_source_text`: the source, its scope and the link to its catalog page.
pub fn source_section(slug: &str, source: &crate::model::Source, scope: &crate::model::Scope) -> (r: String)
    ensures
        r@ == header_source_text(slug@, *source, *scope),
{
    let text_source = source_text(source);
    let text_scope = scope_text(scope);
    let mut text = text_source;
    text.append(text_scope.as_str());
    text.append("[PTF catalog page](../../../ptf-catalog/sources/");
    text.append(slug);
    text.append(".md)\n\n");
    proof {
        reveal_strlit("[PTF catalog page](../../../ptf-catalog/sources/");
        reveal_strlit(".md)\n\n");
        assert(text@ =~= header_source_text(slug@, *source, *scope));
    }
    text
}

/// Writes the opening of a source header's page, up to the link to its catalog page.
pub fn render_header_source(writer: &mut Writer, slug: &str, source: &crate::model::Source, scope: &crate::model::Scope)
    ensures
        final(writer)@ == after_header_source(old(writer)@, slug@, *source, *scope),
{
    writer.write(HEADER);
    let mut title = String::from_str("# `<ptfkit/");
    title.append(slug);
    title.append(".h>`\n\n");
    writer.write(title.as_str());
    let mut line = String::from_str("#include <ptfkit/");
    line.append(slug);
    line.append(".h>");
    let mut block: Vec<String> = Vec::new();
    let ghost line_view = line@;
    block.push(line);
    assert(block@.map_values(|l: String| l@) =~= seq![line_view]);
    code_block(writer, "c", block.as_slice());
    proof {
        reveal_strlit("# `<ptfkit/");
        reveal_strlit(".h>`\n\n");
        reveal_strlit("#include <ptfkit/");
        reveal_strlit(".h>");
        reveal_strlit("c");
    }
    let text = source_section(slug, source, scope);
    writer.write(text.as_str());
}

} // verus!
