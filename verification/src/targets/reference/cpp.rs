//! Helpers of the C++ reference pages.

use vstd::prelude::*;
use vstd::string::*;
use crate::documentation::{ParameterMetadata, spec_parameter_details};
use crate::model::{EnumDefinition, EnumValue, OutputField};
use crate::render::{Writer, WriterView, lines_written};
use crate::render::markdown::{admonition, after_admonition, after_code_block, after_frontmatter, code_block, generated_frontmatter};
use crate::targets::reference::c::{header_source_text, source_section, text_pairs, text_triples};
use crate::text::{Escaping, escape, escaped, natural_key};
use crate::targets::cpp_documentation::write_lines;

use convert_case::{Case, Casing};

verus! {

/// The anchor of a function's section.
pub fn function_anchor(name: &str) -> (r: String)
    ensures
        r@ == "function-"@ + name@,
{
    crate::targets::c_documentation::function_anchor(name)
}

/// Escapes backslashes and backticks for running Markdown text.
pub fn escape_text(value: &str) -> (r: String)
    ensures
        r@ == escaped(Escaping::Text, value@),
{
    escape(Escaping::Text, value)
}

/// Escapes a text for a Markdown table cell.
pub fn escape_table(value: &str) -> (r: String)
    ensures
        r@ == escaped(Escaping::Table, value@),
{
    escape(Escaping::Table, value)
}

/// The natural ordering key of a function name.
pub fn natural_sort_key(value: &str) -> (r: String)
    ensures
        r@ == natural_key(value@),
{
    crate::targets::python::natural_sort_key(value)
}

/// The details of a parameter (description and unit), escaped for a table cell.
pub fn parameter_details<P: ParameterMetadata>(parameter: &P) -> (r: String)
    ensures
        r@ == escaped(Escaping::Table, spec_parameter_details(parameter.spec_description(), parameter.spec_unit())),
{
    let details = crate::documentation::parameter_details(parameter);
    escape_table(details.as_str())
}

/// Writes an admonition whose body lines are escaped as Markdown text.
pub fn render_admonition(writer: &mut Writer, kind: &str, body: &str)
    requires
        old(writer)@.indentation < usize::MAX,
    ensures
        final(writer)@ == after_admonition(old(writer)@, kind@, body@, Some(Escaping::Text)),
{
    admonition(writer, kind, body, Some(Escaping::Text));
}

/// The details cell of an output field.
pub open spec fn field_details(f: OutputField) -> Seq<char> {
    escaped(Escaping::Table, spec_parameter_details(f.description@, Some(f.unit@)))
}

/// The lines of the C++ declaration of a result structure.
pub open spec fn structure_code(name: Seq<char>, fields: Seq<OutputField>) -> Seq<Seq<char>> {
    seq!["struct "@ + name + " {"@]
        + fields.map_values(|f: OutputField| "    double "@ + f.name@ + ";"@)
        + seq!["};"@]
}

/// The table rows that document the fields of a result structure.
pub open spec fn structure_table(fields: Seq<OutputField>) -> Seq<Seq<char>> {
    seq!["| Field | Description |"@, "| --- | --- |"@]
        + fields.map_values(|f: OutputField| "| `"@ + f.name@ + "` | "@ + field_details(f) + " |"@)
}

/// The writer after the section documenting a result structure.
pub open spec fn after_structure(w: WriterView, name: Seq<char>, fields: Seq<OutputField>) -> WriterView {
    lines_written(
        after_code_block(w.after_write("## `"@ + name + "`\n\n"@), "cpp"@, structure_code(name, fields)),
        structure_table(fields),
    ).after_blank_line()
}

/// Documents a result structure with its C++ declaration and a table of its fields.
pub fn render_structure(writer: &mut Writer, name: &str, fields: &[OutputField])
    ensures
        final(writer)@ == after_structure(old(writer)@, name@, fields@),
{
    let mut heading = String::from_str("## `");
    heading.append(name);
    heading.append("`\n\n");
    writer.write(heading.as_str());
    let mut code: Vec<String> = Vec::new();
    let mut opening = String::from_str("struct ");
    opening.append(name);
    opening.append(" {");
    code.push(opening);
    let mut rows: Vec<String> = Vec::new();
    rows.push(String::from_str("| Field | Description |"));
    rows.push(String::from_str("| --- | --- |"));
    let ghost code_start = code@.map_values(|l: String| l@);
    let ghost rows_start = rows@.map_values(|l: String| l@);
    let mut i: usize = 0;
    while i < fields.len()
        invariant
            i <= fields.len(),
            code_start == seq!["struct "@ + name@ + " {"@],
            rows_start == seq!["| Field | Description |"@, "| --- | --- |"@],
            code@.map_values(|l: String| l@) == code_start
                + fields@.take(i as int).map_values(|f: OutputField| "    double "@ + f.name@ + ";"@),
            rows@.map_values(|l: String| l@) == rows_start
                + fields@.take(i as int).map_values(|f: OutputField| "| `"@ + f.name@ + "` | "@ + field_details(f) + " |"@),
        decreases fields.len() - i,
    {
        let mut member = String::from_str("    double ");
        member.append(fields[i].name.as_str());
        member.append(";");
        let mut row = String::from_str("| `");
        row.append(fields[i].name.as_str());
        row.append("` | ");
        let details = parameter_details(&fields[i]);
        row.append(details.as_str());
        row.append(" |");
        let ghost c0 = code@.map_values(|l: String| l@);
        let ghost r0 = rows@.map_values(|l: String| l@);
        code.push(member);
        rows.push(row);
        assert(code@.map_values(|l: String| l@) == c0.push(member@));
        assert(rows@.map_values(|l: String| l@) == r0.push(row@));
        assert(fields@.take(i + 1).map_values(|f: OutputField| "    double "@ + f.name@ + ";"@)
            == fields@.take(i as int).map_values(|f: OutputField| "    double "@ + f.name@ + ";"@).push(member@));
        assert(fields@.take(i + 1).map_values(|f: OutputField| "| `"@ + f.name@ + "` | "@ + field_details(f) + " |"@)
            == fields@.take(i as int).map_values(|f: OutputField| "| `"@ + f.name@ + "` | "@ + field_details(f) + " |"@).push(row@));
        i = i + 1;
    }
    assert(fields@.take(fields.len() as int) == fields@);
    let ghost c1 = code@.map_values(|l: String| l@);
    let closing = String::from_str("};");
    code.push(closing);
    assert(code@.map_values(|l: String| l@) == c1.push(closing@));
    assert(code@.map_values(|l: String| l@) == structure_code(name@, fields@));
    assert(rows@.map_values(|l: String| l@) == structure_table(fields@));
    code_block(writer, "cpp", code.as_slice());
    write_lines(writer, &rows);
    writer.blank_line();
}

/// The PascalCase spelling that convert_case gives a name.
pub uninterp spec fn pascal_case(name: Seq<char>) -> Seq<char>;

/// `Casing::to_case(Case::Pascal)` of convert_case: the result is a function of the
/// name alone, named [`pascal_case`]; nothing more is claimed of it.
#[verifier::external_body]
fn to_pascal_case(name: &str) -> (r: String)
    ensures
        r@ == pascal_case(name@),
{
    name.to_case(Case::Pascal)
}

/// An optional description, escaped for a table cell; empty when absent.
pub open spec fn member_description(member: EnumValue) -> Seq<char> {
    match member.description {
        Some(d) => escaped(Escaping::Table, d@),
        None => Seq::empty(),
    }
}

/// The lines of the C++ declaration of an enumeration whose members are spelled `names`.
pub open spec fn enum_code(definition: EnumDefinition, names: Seq<Seq<char>>) -> Seq<Seq<char>> {
    seq!["enum class "@ + definition.enum_type.name@ + " {"@]
        + names.map_values(|n: Seq<char>| "    "@ + n + ","@)
        + seq!["};"@]
}

/// The table row of the member at `i`, spelled `name`.
pub open spec fn enum_row(member: EnumValue, name: Seq<char>) -> Seq<char> {
    "| `"@ + name + "` | `"@ + escaped(Escaping::Table, member.value@) + "` | "@ + member_description(member) + " |"@
}

/// The table rows documenting the members of an enumeration spelled `names`.
pub open spec fn enum_table(members: Seq<EnumValue>, names: Seq<Seq<char>>) -> Seq<Seq<char>> {
    seq!["| Member | Canonical value | Description |"@, "| --- | --- | --- |"@]
        + Seq::new(members.len(), |i: int| enum_row(members[i], names[i]))
}

/// The writer after the section documenting an enumeration whose members are spelled `names`.
pub open spec fn after_enum(w: WriterView, definition: EnumDefinition, names: Seq<Seq<char>>) -> WriterView {
    lines_written(
        after_code_block(
            w.after_write("## `"@ + definition.enum_type.name@ + "`\n\n"@)
                .after_write(escaped(Escaping::Text, definition.description@) + "\n\n"@),
            "cpp"@,
            enum_code(definition, names),
        ),
        enum_table(definition.values@, names),
    ).after_blank_line()
}

/// Documents an enumeration whose members are spelled `names`, in member order.
pub fn render_enum_with_names(writer: &mut Writer, definition: &EnumDefinition, names: &Vec<String>)
    requires
        names.len() == definition.values.len(),
    ensures
        final(writer)@ == after_enum(old(writer)@, *definition, names@.map_values(|n: String| n@)),
{
    let ghost spelled = names@.map_values(|n: String| n@);
    let mut heading = String::from_str("## `");
    heading.append(definition.enum_type.name.as_str());
    heading.append("`\n\n");
    writer.write(heading.as_str());
    let mut description = escape_text(definition.description.as_str());
    description.append("\n\n");
    writer.write(description.as_str());
    let mut code: Vec<String> = Vec::new();
    let mut opening = String::from_str("enum class ");
    opening.append(definition.enum_type.name.as_str());
    opening.append(" {");
    code.push(opening);
    let mut rows: Vec<String> = Vec::new();
    rows.push(String::from_str("| Member | Canonical value | Description |"));
    rows.push(String::from_str("| --- | --- | --- |"));
    let ghost code_start = code@.map_values(|l: String| l@);
    let ghost rows_start = rows@.map_values(|l: String| l@);
    let mut i: usize = 0;
    while i < names.len()
        invariant
            i <= names.len(),
            names.len() == definition.values.len(),
            spelled == names@.map_values(|n: String| n@),
            code_start == seq!["enum class "@ + definition.enum_type.name@ + " {"@],
            rows_start == seq!["| Member | Canonical value | Description |"@, "| --- | --- | --- |"@],
            code@.map_values(|l: String| l@) == code_start
                + spelled.take(i as int).map_values(|n: Seq<char>| "    "@ + n + ","@),
            rows@.map_values(|l: String| l@) == rows_start
                + Seq::new(i as nat, |k: int| enum_row(definition.values@[k], spelled[k])),
        decreases names.len() - i,
    {
        let mut member = String::from_str("    ");
        member.append(names[i].as_str());
        member.append(",");
        let mut row = String::from_str("| `");
        row.append(names[i].as_str());
        row.append("` | `");
        let value = escape_table(definition.values[i].value.as_str());
        row.append(value.as_str());
        row.append("` | ");
        match &definition.values[i].description {
            Some(d) => {
                let cell = escape_table(d.as_str());
                row.append(cell.as_str());
            },
            None => {},
        }
        row.append(" |");
        let ghost c0 = code@.map_values(|l: String| l@);
        let ghost r0 = rows@.map_values(|l: String| l@);
        code.push(member);
        rows.push(row);
        assert(code@.map_values(|l: String| l@) == c0.push(member@));
        assert(rows@.map_values(|l: String| l@) == r0.push(row@));
        assert(spelled.take(i + 1).map_values(|n: Seq<char>| "    "@ + n + ","@)
            == spelled.take(i as int).map_values(|n: Seq<char>| "    "@ + n + ","@).push(member@));
        assert(Seq::new((i + 1) as nat, |k: int| enum_row(definition.values@[k], spelled[k]))
            == Seq::new(i as nat, |k: int| enum_row(definition.values@[k], spelled[k])).push(row@));
        i = i + 1;
    }
    assert(spelled.take(names.len() as int) == spelled);
    let ghost c1 = code@.map_values(|l: String| l@);
    code.push(String::from_str("};"));
    assert(code@.map_values(|l: String| l@) == c1.push("};"@));
    assert(code@.map_values(|l: String| l@) == enum_code(*definition, spelled));
    assert(rows@.map_values(|l: String| l@) == enum_table(definition.values@, spelled));
    code_block(writer, "cpp", code.as_slice());
    write_lines(writer, &rows);
    writer.blank_line();
}

/// Documents an enumeration: its description, its C++ declaration with PascalCase
/// member names, and a table of members with their canonical values.
pub fn render_enum(writer: &mut Writer, definition: &EnumDefinition)
    ensures
        final(writer)@ == after_enum(
            old(writer)@,
            *definition,
            definition.values@.map_values(|m: EnumValue| pascal_case(m.name@)),
        ),
{
    let mut names: Vec<String> = Vec::new();
    let mut i: usize = 0;
    while i < definition.values.len()
        invariant
            i <= definition.values.len(),
            names@.map_values(|n: String| n@)
                == definition.values@.take(i as int).map_values(|m: EnumValue| pascal_case(m.name@)),
        decreases definition.values.len() - i,
    {
        let name = to_pascal_case(definition.values[i].name.as_str());
        let ghost n0 = names@.map_values(|n: String| n@);
        names.push(name);
        assert(names@.map_values(|n: String| n@) == n0.push(name@));
        assert(definition.values@.take(i + 1).map_values(|m: EnumValue| pascal_case(m.name@))
            == definition.values@.take(i as int).map_values(|m: EnumValue| pascal_case(m.name@)).push(name@));
        i = i + 1;
    }
    assert(definition.values@.take(definition.values.len() as int) == definition.values@);
    render_enum_with_names(writer, definition, &names);
}

/// A line that links a module's page: `- [`ptfkit.NAME`](TARGET.md)`, then the
/// escaped summary after a dash when there is one.
pub open spec fn module_link(name: Seq<char>, target: Seq<char>, summary: Option<Seq<char>>) -> Seq<char> {
    "- [`ptfkit."@ + name + "`]("@ + target + ".md)"@ + match summary {
        Some(s) => " — "@ + escaped(Escaping::Text, s),
        None => seq![],
    }
}

fn module_link_text(name: &str, target: &str, summary: Option<&str>) -> (r: String)
    ensures
        r@ == module_link(name@, target@, match summary {
            Some(s) => Some(s@),
            None => None,
        }),
{
    let mut m = String::from_str("- [`ptfkit.");
    m.append(name);
    m.append("`](");
    m.append(target);
    m.append(".md)");
    proof {
        reveal_strlit("- [`ptfkit.");
        reveal_strlit("`](");
        reveal_strlit(".md)");
        reveal_strlit(" — ");
    }
    match summary {
        Some(s) => {
            m.append(" — ");
            let e = escape_text(s);
            m.append(e.as_str());
        },
        None => {},
    }
    m
}

/// The links to the shared domain modules, each page under `directory`.
pub open spec fn shared_module_lines(modules: Seq<Seq<char>>, directory: Seq<char>) -> Seq<Seq<char>> {
    modules.map_values(|m: Seq<char>| module_link(m, directory + m, None))
}

/// The links to the source modules with their summaries, each page under `directory`.
pub open spec fn source_module_lines(sources: Seq<(Seq<char>, Seq<char>)>, directory: Seq<char>) -> Seq<Seq<char>> {
    sources.map_values(|p: (Seq<char>, Seq<char>)| module_link(p.0, directory + p.0, Some(p.1)))
}

fn shared_lines(modules: &Vec<String>, directory: &str) -> (r: Vec<String>)
    ensures
        r@.map_values(|l: String| l@) == shared_module_lines(modules@.map_values(|m: String| m@), directory@),
{
    let mut r: Vec<String> = Vec::new();
    let mut k: usize = 0;
    while k < modules.len()
        invariant
            k <= modules.len(),
            r@.map_values(|l: String| l@) == shared_module_lines(modules@.take(k as int).map_values(|m: String| m@), directory@),
        decreases modules.len() - k,
    {
        let mut target = String::from_str(directory);
        target.append(modules[k].as_str());
        let line = module_link_text(modules[k].as_str(), target.as_str(), None);
        let ghost prev = r@.map_values(|l: String| l@);
        r.push(line);
        assert(r@.map_values(|l: String| l@) =~= prev.push(line@));
        assert(shared_module_lines(modules@.take(k + 1).map_values(|m: String| m@), directory@) =~= shared_module_lines(
            modules@.take(k as int).map_values(|m: String| m@),
            directory@,
        ).push(line@));
        k = k + 1;
    }
    assert(modules@.take(modules.len() as int) =~= modules@);
    r
}

fn source_lines(sources: &Vec<(String, String)>, directory: &str) -> (r: Vec<String>)
    ensures
        r@.map_values(|l: String| l@) == source_module_lines(text_pairs(sources@), directory@),
{
    let mut r: Vec<String> = Vec::new();
    let mut k: usize = 0;
    while k < sources.len()
        invariant
            k <= sources.len(),
            r@.map_values(|l: String| l@) == source_module_lines(text_pairs(sources@.take(k as int)), directory@),
        decreases sources.len() - k,
    {
        let mut target = String::from_str(directory);
        target.append(sources[k].0.as_str());
        let line = module_link_text(sources[k].0.as_str(), target.as_str(), Some(sources[k].1.as_str()));
        let ghost prev = r@.map_values(|l: String| l@);
        r.push(line);
        assert(r@.map_values(|l: String| l@) =~= prev.push(line@));
        assert(source_module_lines(text_pairs(sources@.take(k + 1)), directory@) =~= source_module_lines(
            text_pairs(sources@.take(k as int)),
            directory@,
        ).push(line@));
        k = k + 1;
    }
    assert(sources@.take(sources.len() as int) =~= sources@);
    r
}

/// The opening of the C++ API reference index, after its front matter.
pub open spec fn index_opening() -> Seq<char> {
    "# C++ API reference\n\nptfkit's C++ API is organized around C++23 modules.\n\n## Umbrella module\n\n- [`ptfkit`](modules/ptfkit.md) — Re-exports all public ptfkit modules.\n\n"@
}

/// The writer after the C++ API reference index: the front matter, the umbrella module,
/// the shared domain modules (a section only when there is one), each source module
/// with its summary, and a pointer to the function index.
pub open spec fn after_index(w: WriterView, modules: Seq<Seq<char>>, sources: Seq<(Seq<char>, Seq<char>)>) -> WriterView {
    let opened = after_frontmatter(w, seq!["title: C++ API reference"@]).after_write(index_opening());
    let shared = if modules.len() == 0 {
        opened
    } else {
        lines_written(opened.after_write("## Shared domain modules\n\n"@), shared_module_lines(modules, "modules/"@)).after_blank_line()
    };
    lines_written(shared.after_write("## Source modules\n\n"@), source_module_lines(sources, "modules/"@))
        .after_blank_line()
        .after_line("See the [function index](functions.md) for all public C++ functions."@)
}

/// Writes the C++ API reference index: `modules` are the shared domain modules and
/// `sources` each source module's slug and summary, in the order they are listed.
pub fn render_index(writer: &mut Writer, modules: &Vec<String>, sources: &Vec<(String, String)>)
    ensures
        final(writer)@ == after_index(old(writer)@, modules@.map_values(|m: String| m@), text_pairs(sources@)),
{
    let mut front: Vec<String> = Vec::new();
    front.push(String::from_str("title: C++ API reference"));
    proof {
        reveal_strlit("title: C++ API reference");
        assert(front@.map_values(|l: String| l@) =~= seq!["title: C++ API reference"@]);
        reveal_strlit("modules/");
        reveal_strlit("# C++ API reference\n\nptfkit's C++ API is organized around C++23 modules.\n\n## Umbrella module\n\n- [`ptfkit`](modules/ptfkit.md) — Re-exports all public ptfkit modules.\n\n");
        reveal_strlit("## Shared domain modules\n\n");
        reveal_strlit("## Source modules\n\n");
        reveal_strlit("See the [function index](functions.md) for all public C++ functions.");
    }
    generated_frontmatter(writer, front.as_slice());
    writer.write("# C++ API reference\n\nptfkit's C++ API is organized around C++23 modules.\n\n## Umbrella module\n\n- [`ptfkit`](modules/ptfkit.md) — Re-exports all public ptfkit modules.\n\n");
    if modules.len() > 0 {
        writer.write("## Shared domain modules\n\n");
        let lines = shared_lines(modules, "modules/");
        write_lines(writer, &lines);
        writer.blank_line();
    }
    writer.write("## Source modules\n\n");
    let lines = source_lines(sources, "modules/");
    write_lines(writer, &lines);
    writer.blank_line();
    writer.line("See the [function index](functions.md) for all public C++ functions.");
}

/// The paragraph of the umbrella module's page before its list of modules.
pub open spec fn umbrella_text() -> Seq<char> {
    "This umbrella module re-exports every public ptfkit module. Import an individual module when only one module is needed.\n\n## Re-exported modules\n\n"@
}

/// The writer after the page of the umbrella module `ptfkit`: its front matter, title
/// and import line, then each shared domain module and each source module with its
/// summary.
pub open spec fn after_umbrella(w: WriterView, modules: Seq<Seq<char>>, sources: Seq<(Seq<char>, Seq<char>)>) -> WriterView {
    let opened = after_code_block(
        after_frontmatter(w, seq!["title: C++ module ptfkit"@, "nav-title: ptfkit"@]).after_write("# `ptfkit`\n\n"@),
        "cpp"@,
        seq!["import ptfkit;"@],
    ).after_write(umbrella_text());
    lines_written(lines_written(opened, shared_module_lines(modules, seq![])), source_module_lines(sources, seq![]))
}

/// Writes the page of the umbrella module: `modules` are the shared domain modules and
/// `sources` each source module's slug and summary, in the order they are listed.
pub fn render_umbrella(writer: &mut Writer, modules: &Vec<String>, sources: &Vec<(String, String)>)
    ensures
        final(writer)@ == after_umbrella(old(writer)@, modules@.map_values(|m: String| m@), text_pairs(sources@)),
{
    let mut front: Vec<String> = Vec::new();
    front.push(String::from_str("title: C++ module ptfkit"));
    front.push(String::from_str("nav-title: ptfkit"));
    let mut imports: Vec<String> = Vec::new();
    imports.push(String::from_str("import ptfkit;"));
    proof {
        reveal_strlit("title: C++ module ptfkit");
        reveal_strlit("nav-title: ptfkit");
        reveal_strlit("import ptfkit;");
        reveal_strlit("cpp");
        reveal_strlit("");
        reveal_strlit("# `ptfkit`\n\n");
        reveal_strlit("This umbrella module re-exports every public ptfkit module. Import an individual module when only one module is needed.\n\n## Re-exported modules\n\n");
        assert(front@.map_values(|l: String| l@) =~= seq!["title: C++ module ptfkit"@, "nav-title: ptfkit"@]);
        assert(imports@.map_values(|l: String| l@) =~= seq!["import ptfkit;"@]);
        assert(""@ =~= Seq::<char>::empty());
    }
    generated_frontmatter(writer, front.as_slice());
    writer.write("# `ptfkit`\n\n");
    code_block(writer, "cpp", imports.as_slice());
    writer.write("This umbrella module re-exports every public ptfkit module. Import an individual module when only one module is needed.\n\n## Re-exported modules\n\n");
    let lines = shared_lines(modules, "");
    write_lines(writer, &lines);
    let lines = source_lines(sources, "");
    write_lines(writer, &lines);
}

/// The function index's row for a function: its qualified name linked to its section in
/// its module's page, its escaped summary and its module.
pub open spec fn function_row(slug: Seq<char>, name: Seq<char>, summary: Seq<char>) -> Seq<char> {
    "| [`ptfkit::"@ + slug + "::"@ + name + "`](modules/"@ + slug + ".md#function-"@ + name + ") | "@ + escaped(
        Escaping::Table,
        summary,
    ) + " | [`ptfkit."@ + slug + "`](modules/"@ + slug + ".md) |"@
}

/// The writer after the C++ function index: its front matter, its title and table head,
/// then a row for each function.
pub open spec fn after_functions_index(w: WriterView, functions: Seq<(Seq<char>, Seq<char>, Seq<char>)>) -> WriterView {
    lines_written(
        after_frontmatter(w, seq!["title: C++ function index"@]).after_write(
            "# C++ function index\n\n| Function | Summary | Module |\n| --- | --- | --- |\n"@,
        ),
        functions.map_values(|t: (Seq<char>, Seq<char>, Seq<char>)| function_row(t.0, t.1, t.2)),
    )
}

/// Writes the C++ function index: each function as its source module's slug, its name
/// and its summary, in the order given.
pub fn render_functions_index(writer: &mut Writer, functions: &Vec<(String, String, String)>)
    ensures
        final(writer)@ == after_functions_index(old(writer)@, text_triples(functions@)),
{
    let mut front: Vec<String> = Vec::new();
    front.push(String::from_str("title: C++ function index"));
    proof {
        reveal_strlit("title: C++ function index");
        assert(front@.map_values(|l: String| l@) =~= seq!["title: C++ function index"@]);
    }
    generated_frontmatter(writer, front.as_slice());
    writer.write("# C++ function index\n\n| Function | Summary | Module |\n| --- | --- | --- |\n");
    let mut rows: Vec<String> = Vec::new();
    let mut k: usize = 0;
    while k < functions.len()
        invariant
            k <= functions.len(),
            rows@.map_values(|l: String| l@) == text_triples(functions@.take(k as int)).map_values(
                |t: (Seq<char>, Seq<char>, Seq<char>)| function_row(t.0, t.1, t.2),
            ),
        decreases functions.len() - k,
    {
        let (slug, name, summary) = (&functions[k].0, &functions[k].1, &functions[k].2);
        let mut row = String::from_str("| [`ptfkit::");
        row.append(slug.as_str());
        row.append("::");
        row.append(name.as_str());
        row.append("`](modules/");
        row.append(slug.as_str());
        row.append(".md#function-");
        row.append(name.as_str());
        row.append(") | ");
        let cell = escape_table(summary.as_str());
        row.append(cell.as_str());
        row.append(" | [`ptfkit.");
        row.append(slug.as_str());
        row.append("`](modules/");
        row.append(slug.as_str());
        row.append(".md) |");
        proof {
            reveal_strlit("| [`ptfkit::");
            reveal_strlit("::");
            reveal_strlit("`](modules/");
            reveal_strlit(".md#function-");
            reveal_strlit(") | ");
            reveal_strlit(" | [`ptfkit.");
            reveal_strlit(".md) |");
        }
        let ghost prev = rows@.map_values(|l: String| l@);
        rows.push(row);
        assert(rows@.map_values(|l: String| l@) =~= prev.push(row@));
        assert(text_triples(functions@.take(k + 1)).map_values(|t: (Seq<char>, Seq<char>, Seq<char>)| function_row(t.0, t.1, t.2)) =~= text_triples(
            functions@.take(k as int),
        ).map_values(|t: (Seq<char>, Seq<char>, Seq<char>)| function_row(t.0, t.1, t.2)).push(row@));
        k = k + 1;
    }
    assert(functions@.take(functions.len() as int) =~= functions@);
    write_lines(writer, &rows);
    proof {
        reveal_strlit("# C++ function index\n\n| Function | Summary | Module |\n| --- | --- | --- |\n");
    }
}

/// The writer after the opening of a source module's page: its front matter, title and
/// import line, its exported namespace, then the source, its scope and the link to its
/// catalog page (see `header_source_text`).
pub open spec fn after_module_source(w: WriterView, slug: Seq<char>, source: crate::model::Source, scope: crate::model::Scope) -> WriterView {
    after_code_block(
        after_frontmatter(w, seq!["title: C++ module ptfkit."@ + slug, "nav-title: ptfkit."@ + slug]).after_write(
            "# `ptfkit."@ + slug + "`\n\n"@,
        ),
        "cpp"@,
        seq!["import ptfkit."@ + slug + ";"@],
    ).after_write("**Exported namespace:** `ptfkit::"@ + slug + "`\n\n"@ + header_source_text(slug, source, scope))
}

/// Writes the opening of a source module's page, up to the link to its catalog page.
pub fn render_module_source(writer: &mut Writer, slug: &str, source: &crate::model::Source, scope: &crate::model::Scope)
    ensures
        final(writer)@ == after_module_source(old(writer)@, slug@, *source, *scope),
{
    let mut title = String::from_str("title: C++ module ptfkit.");
    title.append(slug);
    let mut nav = String::from_str("nav-title: ptfkit.");
    nav.append(slug);
    let mut front: Vec<String> = Vec::new();
    let ghost (t, n) = (title@, nav@);
    front.push(title);
    front.push(nav);
    assert(front@.map_values(|l: String| l@) =~= seq![t, n]);
    generated_frontmatter(writer, front.as_slice());
    let mut heading = String::from_str("# `ptfkit.");
    heading.append(slug);
    heading.append("`\n\n");
    writer.write(heading.as_str());
    let mut import = String::from_str("import ptfkit.");
    import.append(slug);
    import.append(";");
    let mut block: Vec<String> = Vec::new();
    let ghost i = import@;
    block.push(import);
    assert(block@.map_values(|l: String| l@) =~= seq![i]);
    code_block(writer, "cpp", block.as_slice());
    let mut text = String::from_str("**Exported namespace:** `ptfkit::");
    text.append(slug);
    text.append("`\n\n");
    let rest = source_section(slug, source, scope);
    text.append(rest.as_str());
    proof {
        reveal_strlit("title: C++ module ptfkit.");
        reveal_strlit("nav-title: ptfkit.");
        reveal_strlit("# `ptfkit.");
        reveal_strlit("`\n\n");
        reveal_strlit("import ptfkit.");
        reveal_strlit(";");
        reveal_strlit("cpp");
        reveal_strlit("**Exported namespace:** `ptfkit::");
        assert(text@ =~= "**Exported namespace:** `ptfkit::"@ + slug@ + "`\n\n"@ + header_source_text(slug@, *source, *scope));
    }
    writer.write(text.as_str());
}

} // verus!
