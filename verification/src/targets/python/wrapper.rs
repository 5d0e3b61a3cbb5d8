//! Docstring blocks of the public Python wrapper.

use vstd::prelude::*;
use vstd::string::*;
use crate::render::{Writer, WriterView, lines_written};
use crate::strings::chars_of;
use crate::text::{byte_len, lemma_wrapped_nonempty, markdown_block, terminated, with_terminal_punctuation, words, wrap_doc_line, wrap_markdown_block, wrapped};
use super::syntax::{Module, texts};
use crate::documentation::{for_function, opt_str_view, opt_view, parameter_documentation, spec_parameter_details, FunctionDocument, ParameterMetadata, Returns};
use crate::model::{Function, Input, OutputField, Outputs, Scope, Source};
use crate::documentation::for_source;
use crate::text::lemma_words_exist;

verus! {

/// Writes a text as a Markdown block: wrapped, the first line after `first_prefix`.
pub fn render_markdown_block(module: &mut Module, text: &str, first_prefix: &str)
    requires
        words(text@).len() > 0,
        byte_len(first_prefix@) <= 100,
    ensures
        final(module)@ == lines_written(old(module)@, markdown_block(text@, first_prefix@)),
{
    let block = wrap_markdown_block(text, first_prefix);
    let ghost start = module@;
    let ghost texts = block@.map_values(|l: String| l@);
    let mut k: usize = 0;
    assert(texts.take(0) =~= Seq::<Seq<char>>::empty());
    while k < block.len()
        invariant
            k <= block.len(),
            texts == block@.map_values(|l: String| l@),
            module@ == lines_written(start, texts.take(k as int)),
        decreases block.len() - k,
    {
        module.line(block[k].as_str());
        assert(texts.take(k + 1).drop_last() == texts.take(k as int));
        k = k + 1;
    }
    assert(texts.take(block.len() as int) == texts);
}

/// A definition list entry: a blank line, the term, a blank line, then the
/// definition as a Markdown block introduced by `:   `.
pub fn render_definition_list_block(module: &mut Module, name: &str, text: &str)
    requires
        words(text@).len() > 0,
    ensures
        final(module)@ == lines_written(
            old(module)@.after_blank_line().after_line(name@).after_blank_line(),
            markdown_block(text@, ":   "@),
        ),
{
    proof {
        reveal_strlit(":   ");
        assert(byte_len(":   "@) == 4) by {
            vstd::string::is_ascii_spec_bytes(":   ");
            assert(vstd::string::is_ascii(":   "));
        }
    }
    module.blank_line();
    module.line(name);
    module.blank_line();
    render_markdown_block(module, text, ":   ");
}

/// A Python docstring: a summary, then titled sections of entries.
#[derive(Debug, PartialEq)]
pub struct PythonDocstring {
    pub summary: String,
    pub sections: Vec<(String, Vec<String>)>,
}

/// The lines of one entry: its wrapped text, the first line indented by four spaces and
/// the others by eight; `left` is the width left of the indentation.
pub open spec fn entry_lines(entry: Seq<char>, left: nat) -> Seq<Seq<char>> {
    let w = wrapped(entry, (left - 4) as nat, (left - 8) as nat);
    seq!["    "@ + w[0]] + w.skip(1).map_values(|l: Seq<char>| "        "@ + l)
}

pub open spec fn entries_lines(entries: Seq<String>, left: nat) -> Seq<Seq<char>>
    decreases entries.len(),
{
    if entries.len() == 0 {
        seq![]
    } else {
        entries_lines(entries.drop_last(), left) + entry_lines(entries.last()@, left)
    }
}

/// A section: its title and a colon (unless the title is empty), then its entries.
pub open spec fn section_lines(title: Seq<char>, entries: Seq<String>, left: nat) -> Seq<Seq<char>> {
    (if title.len() > 0 {
        seq![title + ":"@]
    } else {
        seq![]
    }) + entries_lines(entries, left)
}

/// The sections, with a blank line between two sections.
pub open spec fn sections_lines(sections: Seq<(String, Vec<String>)>, left: nat) -> Seq<Seq<char>>
    decreases sections.len(),
{
    if sections.len() == 0 {
        seq![]
    } else {
        sections_lines(sections.drop_last(), left) + (if sections.len() > 1 {
            seq![seq![]]
        } else {
            seq![]
        }) + section_lines(sections.last().0@, sections.last().1@, left)
    }
}

/// Whether a text of the docstring holds a backslash, which makes it a raw string.
pub open spec fn raw_docstring(d: PythonDocstring) -> bool {
    ||| d.summary@.contains('\\')
    ||| exists|i: int| 0 <= i < d.sections.len() && ((#[trigger] d.sections@[i]).0@.contains('\\')
        || exists|j: int| 0 <= j < d.sections@[i].1.len() && (#[trigger] d.sections@[i].1@[j])@.contains('\\'))
}

/// Every entry of the docstring has a word.
pub open spec fn entries_have_words(d: PythonDocstring) -> bool {
    forall|i: int, j: int| 0 <= i < d.sections.len() && 0 <= j < d.sections@[i].1.len()
        ==> words((#[trigger] d.sections@[i].1@[j])@).len() > 0
}

/// The lines of a docstring indented by `indent_width`: the opening quotes and the
/// summary, ended by punctuation (a summary too wide for the first line is replaced by
/// a generic one and follows, wrapped), then the sections, then the closing quotes.
pub open spec fn docstring_text(d: PythonDocstring, indent_width: nat) -> Seq<Seq<char>> {
    let left = (100 - indent_width) as nat;
    let opening = if raw_docstring(d) {
        "r\"\"\""@
    } else {
        "\"\"\""@
    };
    let summary = terminated(d.summary@);
    let head = if byte_len(summary) <= left - 3 {
        seq![opening + summary, seq![]]
    } else {
        seq![opening + "Calculate the pedotransfer function."@, seq![]] + wrapped(summary, left, left) + seq![seq![]]
    };
    head + sections_lines(d.sections@, left) + seq![seq![], "\"\"\""@]
}

fn has_backslash(s: &str) -> (r: bool)
    ensures
        r == s@.contains('\\'),
{
    let cs = chars_of(s);
    let mut k: usize = 0;
    while k < cs.len()
        invariant
            k <= cs.len(),
            cs@ == s@,
            forall|j: int| 0 <= j < k ==> cs@[j] != '\\',
        decreases cs.len() - k,
    {
        if cs[k] == '\\' {
            assert(s@[k as int] == '\\');
            return true;
        }
        k = k + 1;
    }
    false
}

fn is_raw(d: &PythonDocstring) -> (r: bool)
    ensures
        r == raw_docstring(*d),
{
    if has_backslash(d.summary.as_str()) {
        return true;
    }
    let mut i: usize = 0;
    while i < d.sections.len()
        invariant
            i <= d.sections.len(),
            !d.summary@.contains('\\'),
            forall|a: int| 0 <= a < i ==> !((#[trigger] d.sections@[a]).0@.contains('\\')
                || exists|j: int| 0 <= j < d.sections@[a].1.len() && (#[trigger] d.sections@[a].1@[j])@.contains('\\')),
        decreases d.sections.len() - i,
    {
        if has_backslash(d.sections[i].0.as_str()) {
            return true;
        }
        let entries = &d.sections[i].1;
        let mut j: usize = 0;
        while j < entries.len()
            invariant
                j <= entries.len(),
                i < d.sections.len(),
                *entries == d.sections@[i as int].1,
                forall|b: int| 0 <= b < j ==> !(#[trigger] entries@[b])@.contains('\\'),
            decreases entries.len() - j,
        {
            if has_backslash(entries[j].as_str()) {
                return true;
            }
            j = j + 1;
        }
        i = i + 1;
    }
    false
}

fn push_line(lines: &mut Vec<String>, line: String)
    ensures
        texts(final(lines)@) == texts(old(lines)@).push(line@),
{
    let ghost before = texts(lines@);
    lines.push(line);
    assert(texts(lines@) =~= before.push(line@));
}

fn prefixed(prefix: &str, text: &str) -> (r: String)
    ensures
        r@ == prefix@ + text@,
{
    let mut r = String::from_str(prefix);
    r.append(text);
    r
}

/// Appends the lines of one entry (see `entry_lines`).
fn push_entry(lines: &mut Vec<String>, entry: &str, left: usize)
    requires
        8 <= left <= 100,
        words(entry@).len() > 0,
    ensures
        texts(final(lines)@) == texts(old(lines)@) + entry_lines(entry@, left as nat),
{
    let ghost start = texts(lines@);
    let w = wrap_doc_line(entry, left - 4, left - 8);
    let ghost wv = texts(w@);
    proof {
        lemma_wrapped_nonempty(entry@, (left - 4) as nat, (left - 8) as nat);
        assert(wv == w@.map_values(|l: String| l@));
    }
    push_line(lines, prefixed("    ", w[0].as_str()));
    let mut k: usize = 1;
    assert(wv.skip(1).take(0) =~= Seq::<Seq<char>>::empty());
    while k < w.len()
        invariant
            1 <= k <= w.len(),
            wv == texts(w@),
            wv.len() > 0,
            texts(lines@) == start + seq!["    "@ + wv[0]] + wv.skip(1).take(k - 1).map_values(|l: Seq<char>| "        "@ + l),
        decreases w.len() - k,
    {
        push_line(lines, prefixed("        ", w[k].as_str()));
        assert(wv.skip(1).take(k as int) =~= wv.skip(1).take(k - 1).push(wv[k as int]));
        k = k + 1;
        assert(texts(lines@) =~= start + seq!["    "@ + wv[0]] + wv.skip(1).take(k - 1).map_values(|l: Seq<char>| "        "@ + l));
    }
    assert(wv.skip(1).take(w.len() - 1) =~= wv.skip(1));
    assert(texts(lines@) =~= start + entry_lines(entry@, left as nat));
}

/// The lines of a docstring indented by `indent_width` (see `docstring_text`).
pub fn docstring_lines(docstring: &PythonDocstring, indent_width: usize) -> (r: Vec<String>)
    requires
        indent_width + 8 <= 100,
        entries_have_words(*docstring),
    ensures
        texts(r@) == docstring_text(*docstring, indent_width as nat),
{
    let left = 100 - indent_width;
    let raw = is_raw(docstring);
    let opening = if raw { "r\"\"\"" } else { "\"\"\"" };
    let summary = with_terminal_punctuation(docstring.summary.as_str());
    let mut lines: Vec<String> = Vec::new();
    let summary_bytes = summary.as_str().as_bytes().len();
    assert(summary_bytes as nat == byte_len(summary@));
    if summary_bytes <= left - 3 {
        push_line(&mut lines, prefixed(opening, summary.as_str()));
        push_line(&mut lines, String::new());
    } else {
        push_line(&mut lines, prefixed(opening, "Calculate the pedotransfer function."));
        push_line(&mut lines, String::new());
        let description = wrap_doc_line(summary.as_str(), left, left);
        let mut k: usize = 0;
        let ghost before = texts(lines@);
        while k < description.len()
            invariant
                k <= description.len(),
                texts(lines@) == before + texts(description@).take(k as int),
            decreases description.len() - k,
        {
            push_line(&mut lines, description[k].clone());
            assert(texts(description@).take(k + 1) =~= texts(description@).take(k as int).push(description@[k as int]@));
            k = k + 1;
        }
        assert(texts(description@).take(description.len() as int) =~= texts(description@));
        assert(texts(description@) == wrapped(summary@, left as nat, left as nat)) by {
            assert(texts(description@) =~= description@.map_values(|l: String| l@));
        }
        push_line(&mut lines, String::new());
    }
    let ghost head = texts(lines@);
    let sections = &docstring.sections;
    let mut i: usize = 0;
    assert(sections@.take(0) =~= Seq::<(String, Vec<String>)>::empty());
    while i < sections.len()
        invariant
            i <= sections.len(),
            8 <= left <= 100,
            *sections == docstring.sections,
            entries_have_words(*docstring),
            texts(lines@) == head + sections_lines(sections@.take(i as int), left as nat),
        decreases sections.len() - i,
    {
        let ghost before = texts(lines@);
        if i > 0 {
            push_line(&mut lines, String::new());
        }
        let ghost with_gap = texts(lines@);
        let title = &sections[i].0;
        if title.as_str().unicode_len() > 0 {
            push_line(&mut lines, prefixed(title.as_str(), ":"));
        }
        let entries = &sections[i].1;
        let mut j: usize = 0;
        let ghost titled = texts(lines@);
        assert(entries@.take(0) =~= Seq::<String>::empty());
        while j < entries.len()
            invariant
                j <= entries.len(),
                i < sections.len(),
                8 <= left <= 100,
                *entries == sections@[i as int].1,
                *sections == docstring.sections,
                entries_have_words(*docstring),
                texts(lines@) == titled + entries_lines(entries@.take(j as int), left as nat),
            decreases entries.len() - j,
        {
            assert(words(entries@[j as int]@).len() > 0);
            push_entry(&mut lines, entries[j].as_str(), left);
            assert(entries@.take(j + 1).drop_last() =~= entries@.take(j as int));
            assert(entries@.take(j + 1).last() == entries@[j as int]);
            j = j + 1;
        }
        assert(entries@.take(entries.len() as int) =~= entries@);
        assert(sections@.take(i + 1).drop_last() =~= sections@.take(i as int));
        assert(sections@.take(i + 1).last() == sections@[i as int]);
        assert(texts(lines@) =~= head + sections_lines(sections@.take(i + 1), left as nat));
        i = i + 1;
    }
    assert(sections@.take(sections.len() as int) =~= sections@);
    push_line(&mut lines, String::new());
    push_line(&mut lines, String::from_str("\"\"\""));
    assert(texts(lines@) =~= docstring_text(*docstring, indent_width as nat));
    lines
}

/// Writes a docstring indented by `indent_width` (see `docstring_text`).
pub fn render_docstring(writer: &mut Writer, docstring: &PythonDocstring, indent_width: usize)
    requires
        indent_width + 8 <= 100,
        entries_have_words(*docstring),
    ensures
        final(writer)@ == lines_written(old(writer)@, docstring_text(*docstring, indent_width as nat)),
{
    let lines = docstring_lines(docstring, indent_width);
    let ghost start = writer@;
    let ghost all = texts(lines@);
    let mut k: usize = 0;
    assert(all.take(0) =~= Seq::<Seq<char>>::empty());
    while k < lines.len()
        invariant
            k <= lines.len(),
            all == texts(lines@),
            writer@ == lines_written(start, all.take(k as int)),
        decreases lines.len() - k,
    {
        writer.line(lines[k].as_str());
        assert(all.take(k + 1).drop_last() =~= all.take(k as int));
        assert(all.take(k + 1).last() == lines@[k as int]@);
        k = k + 1;
    }
    assert(all.take(lines.len() as int) =~= all);
}

/// The documentation entry of a parameter: `name: description (unit)`.
pub open spec fn parameter_entry<P: ParameterMetadata>(p: P) -> Seq<char> {
    p.spec_name() + seq![':', ' '] + spec_parameter_details(p.spec_description(), p.spec_unit())
}

pub open spec fn input_entries(inputs: Seq<Input>) -> Seq<Seq<char>> {
    inputs.map_values(|p: Input| parameter_entry(p))
}

pub open spec fn field_entries(fields: Seq<OutputField>) -> Seq<Seq<char>> {
    fields.map_values(|f: OutputField| parameter_entry(f))
}

/// The models of a function as docstring entries.
pub open spec fn model_entries(h_theta: Option<Seq<char>>, k_h: Option<Seq<char>>) -> Seq<Seq<char>> {
    (match h_theta {
        Some(m) => seq!["$h(\\theta)$: "@ + m],
        None => seq![],
    }) + (match k_h {
        Some(m) => seq!["$k(h)$: "@ + m],
        None => seq![],
    })
}

/// The sections of a function's docstring: its arguments and `out`, what it returns,
/// its territory if any, its models if any, notes led by the prediction target, and
/// warnings if any.
pub open spec fn function_sections(
    parameters: Seq<Input>,
    results: Seq<Seq<char>>,
    territory: Option<Seq<char>>,
    h_theta: Option<Seq<char>>,
    k_h: Option<Seq<char>>,
    prediction_target: Seq<char>,
    notes: Seq<Seq<char>>,
    warnings: Seq<Seq<char>>,
) -> Seq<(Seq<char>, Seq<Seq<char>>)> {
    let arguments = input_entries(parameters).push("out: Optional output arrays for in-place calculation."@);
    let s1 = seq![("Arguments"@, arguments), ("Returns"@, results)];
    let s2 = match territory {
        Some(t) => s1.push(("Territory"@, seq![t])),
        None => s1,
    };
    let models = model_entries(h_theta, k_h);
    let s3 = if models.len() > 0 {
        s2.push(("Models"@, models))
    } else {
        s2
    };
    let s4 = s3.push(("Notes"@, seq!["Prediction target: "@ + prediction_target] + notes));
    if warnings.len() > 0 {
        s4.push(("Warning"@, warnings))
    } else {
        s4
    }
}

/// What a function's docstring says it returns: its result class, or each output.
pub open spec fn return_entries(result_class: Option<Seq<char>>, value: Returns) -> Seq<Seq<char>> {
    match result_class {
        Some(c) => seq![c + ": Results grouped by result attributes."@],
        None => match value {
            Returns::Scalar(field) => seq![parameter_entry(*field)],
            Returns::Record { fields, .. } => field_entries(fields@),
        },
    }
}

/// What a function's docstring says it returns (see `return_entries`).
pub open spec fn function_return_entries(f: Function) -> Seq<Seq<char>> {
    match f.outputs {
        Outputs::Scalar { field } => seq![parameter_entry(field)],
        Outputs::Record { name, .. } => seq![name@ + ": Results grouped by result attributes."@],
    }
}

pub open spec fn sections_view(sections: Seq<(String, Vec<String>)>) -> Seq<(Seq<char>, Seq<Seq<char>>)> {
    sections.map_values(|s: (String, Vec<String>)| (s.0@, texts(s.1@)))
}

fn entries_of_inputs(inputs: &[Input]) -> (r: Vec<String>)
    ensures
        texts(r@) == input_entries(inputs@),
{
    let mut r: Vec<String> = Vec::new();
    let mut k: usize = 0;
    while k < inputs.len()
        invariant
            k <= inputs.len(),
            texts(r@) == input_entries(inputs@).take(k as int),
        decreases inputs.len() - k,
    {
        push_line(&mut r, parameter_documentation(&inputs[k]));
        assert(input_entries(inputs@).take(k + 1) =~= input_entries(inputs@).take(k as int).push(parameter_entry(inputs@[k as int])));
        k = k + 1;
    }
    assert(input_entries(inputs@).take(inputs.len() as int) =~= input_entries(inputs@));
    r
}

fn entries_of_fields(fields: &[OutputField]) -> (r: Vec<String>)
    ensures
        texts(r@) == field_entries(fields@),
{
    let mut r: Vec<String> = Vec::new();
    let mut k: usize = 0;
    while k < fields.len()
        invariant
            k <= fields.len(),
            texts(r@) == field_entries(fields@).take(k as int),
        decreases fields.len() - k,
    {
        push_line(&mut r, parameter_documentation(&fields[k]));
        assert(field_entries(fields@).take(k + 1) =~= field_entries(fields@).take(k as int).push(parameter_entry(fields@[k as int])));
        k = k + 1;
    }
    assert(field_entries(fields@).take(fields.len() as int) =~= field_entries(fields@));
    r
}

fn copy_texts(v: &[String]) -> (r: Vec<String>)
    ensures
        texts(r@) == texts(v@),
{
    let mut r: Vec<String> = Vec::new();
    let mut k: usize = 0;
    while k < v.len()
        invariant
            k <= v.len(),
            texts(r@) == texts(v@).take(k as int),
        decreases v.len() - k,
    {
        push_line(&mut r, v[k].clone());
        assert(texts(v@).take(k + 1) =~= texts(v@).take(k as int).push(v@[k as int]@));
        k = k + 1;
    }
    assert(texts(v@).take(v.len() as int) =~= texts(v@));
    r
}

fn push_section(sections: &mut Vec<(String, Vec<String>)>, title: &str, entries: Vec<String>)
    ensures
        sections_view(final(sections)@) == sections_view(old(sections)@).push((title@, texts(entries@))),
{
    let ghost before = sections_view(sections@);
    let ghost e = texts(entries@);
    sections.push((String::from_str(title), entries));
    assert(sections_view(sections@) =~= before.push((title@, e)));
}

/// The docstring of a function from its documentation (see `function_sections`).
pub fn function_docstring_from_document(document: &FunctionDocument, result_class: Option<&str>) -> (r: PythonDocstring)
    ensures
        r.summary@ == document.summary@,
        sections_view(r.sections@) == function_sections(
            document.parameters@,
            return_entries(opt_str_view(result_class), document.returns),
            opt_str_view(document.territory),
            opt_str_view(document.models.h_theta),
            opt_str_view(document.models.k_h),
            document.remarks.prediction_target@,
            texts(document.notes@),
            texts(document.warnings@),
        ),
{
    let mut arguments = entries_of_inputs(document.parameters);
    push_line(&mut arguments, String::from_str("out: Optional output arrays for in-place calculation."));
    let results = match result_class {
        Some(c) => {
            let mut v: Vec<String> = Vec::new();
            push_line(&mut v, prefixed(c, ": Results grouped by result attributes."));
            v
        },
        None => match document.returns {
            Returns::Scalar(field) => {
                let mut v: Vec<String> = Vec::new();
                push_line(&mut v, parameter_documentation(field));
                v
            },
            Returns::Record { fields, .. } => entries_of_fields(fields),
        },
    };
    let ghost arguments_view = texts(arguments@);
    let ghost results_view = texts(results@);
    assert(arguments_view == input_entries(document.parameters@).push("out: Optional output arrays for in-place calculation."@));
    assert(results_view == return_entries(opt_str_view(result_class), document.returns));
    let mut sections: Vec<(String, Vec<String>)> = Vec::new();
    push_section(&mut sections, "Arguments", arguments);
    push_section(&mut sections, "Returns", results);
    let ghost s1 = seq![("Arguments"@, arguments_view), ("Returns"@, results_view)];
    assert(sections_view(sections@) =~= s1);
    match document.territory {
        Some(t) => {
            let mut v: Vec<String> = Vec::new();
            push_line(&mut v, String::from_str(t));
            assert(texts(v@) =~= seq![t@]);
            push_section(&mut sections, "Territory", v);
        },
        None => {},
    }
    let mut models: Vec<String> = Vec::new();
    match document.models.h_theta {
        Some(m) => push_line(&mut models, prefixed("$h(\\theta)$: ", m)),
        None => {},
    }
    match document.models.k_h {
        Some(m) => push_line(&mut models, prefixed("$k(h)$: ", m)),
        None => {},
    }
    let ghost s2 = match opt_str_view(document.territory) {
        Some(t) => s1.push(("Territory"@, seq![t])),
        None => s1,
    };
    assert(sections_view(sections@) =~= s2);
    let ghost models_view = model_entries(opt_str_view(document.models.h_theta), opt_str_view(document.models.k_h));
    assert(texts(models@) =~= models_view);
    if models.len() > 0 {
        push_section(&mut sections, "Models", models);
    }
    let ghost s3 = if models_view.len() > 0 {
        s2.push(("Models"@, models_view))
    } else {
        s2
    };
    assert(sections_view(sections@) =~= s3);
    let mut notes: Vec<String> = Vec::new();
    push_line(&mut notes, prefixed("Prediction target: ", document.remarks.prediction_target));
    let rest = copy_texts(document.notes);
    let mut k: usize = 0;
    let ghost first = texts(notes@);
    while k < rest.len()
        invariant
            k <= rest.len(),
            texts(notes@) == first + texts(rest@).take(k as int),
        decreases rest.len() - k,
    {
        push_line(&mut notes, rest[k].clone());
        assert(texts(rest@).take(k + 1) =~= texts(rest@).take(k as int).push(rest@[k as int]@));
        k = k + 1;
    }
    assert(texts(rest@).take(rest.len() as int) =~= texts(rest@));
    assert(texts(notes@) =~= seq!["Prediction target: "@ + document.remarks.prediction_target@] + texts(document.notes@));
    push_section(&mut sections, "Notes", notes);
    let ghost s4 = s3.push(("Notes"@, seq!["Prediction target: "@ + document.remarks.prediction_target@] + texts(document.notes@)));
    assert(sections_view(sections@) =~= s4);
    if document.warnings.len() > 0 {
        push_section(&mut sections, "Warning", copy_texts(document.warnings));
    }
    assert(sections_view(sections@) =~= function_sections(
        document.parameters@,
        return_entries(opt_str_view(result_class), document.returns),
        opt_str_view(document.territory),
        opt_str_view(document.models.h_theta),
        opt_str_view(document.models.k_h),
        document.remarks.prediction_target@,
        texts(document.notes@),
        texts(document.warnings@),
    ));
    PythonDocstring { summary: String::from_str(document.summary), sections }
}

/// The docstring of a function.
pub fn function_docstring(function: &Function) -> (r: PythonDocstring)
    ensures
        r.summary@ == function.public_api.summary@,
        sections_view(r.sections@) == function_sections(
            function.inputs@,
            function_return_entries(*function),
            opt_view(function.scope.territory),
            opt_view(function.scope.models.h_theta),
            opt_view(function.scope.models.k_h),
            function.scope.prediction_target@,
            texts(function.documentation.notes@),
            texts(function.documentation.warnings@),
        ),
{
    let document = for_function(function);
    let class = function.result_class();
    assert(return_entries(opt_str_view(class), document.returns) == function_return_entries(*function));
    function_docstring_from_document(&document, class)
}

/// The docstring of a function's result class: a fixed summary and one entry per output.
pub fn result_class_docstring(function: &Function) -> (r: PythonDocstring)
    ensures
        r.summary@ == "Results returned by the matching PTF."@,
        sections_view(r.sections@) == seq![("Attributes"@, field_entries(function.outputs.spec_fields()))],
{
    let entries = entries_of_fields(function.outputs.fields());
    let mut sections: Vec<(String, Vec<String>)> = Vec::new();
    push_section(&mut sections, "Attributes", entries);
    assert(sections_view(sections@) =~= seq![("Attributes"@, field_entries(function.outputs.spec_fields()))]);
    PythonDocstring { summary: String::from_str("Results returned by the matching PTF."), sections }
}

/// The definition list entry of `name` for `text`, written after `w`.
pub open spec fn definition_written(w: WriterView, name: Seq<char>, text: Seq<char>) -> WriterView {
    lines_written(w.after_blank_line().after_line(name).after_blank_line(), markdown_block(text, ":   "@))
}

/// The module docstring of a source, written after `w`: the summary after the raw
/// opening quotes, a blank line, `Reference:` and the citation, the DOI as a link, the
/// territory and dataset as definition lists, a blank line and the closing quotes.
pub open spec fn module_docstring_written(w: WriterView, source: Source, scope: Scope) -> WriterView {
    let w1 = lines_written(
        w.after_line("r\"\"\""@ + source.summary@).after_blank_line().after_line("Reference:"@),
        markdown_block(source.citation_apa@, "    "@),
    );
    let w2 = match source.doi {
        Some(d) => lines_written(w1, markdown_block("[DOI: "@ + d.identifier@ + "]("@ + d.url@ + ")"@, "    "@)),
        None => w1,
    };
    let w3 = match scope.territory {
        Some(t) => definition_written(w2, "Territory"@, t@),
        None => w2,
    };
    let w4 = match scope.dataset {
        Some(d) => definition_written(w3, "Dataset"@, d@),
        None => w3,
    };
    w4.after_blank_line().after_line("\"\"\""@)
}

/// Writes the module docstring of a source (see `module_docstring_written`).
pub fn render_module_docstring(module: &mut Module, source: &Source, scope: &Scope)
    requires
        words(source.citation_apa@).len() > 0,
        scope.territory matches Some(t) ==> words(t@).len() > 0,
        scope.dataset matches Some(d) ==> words(d@).len() > 0,
    ensures
        final(module)@ == module_docstring_written(old(module)@, *source, *scope),
{
    proof {
        reveal_strlit("    ");
        assert(byte_len("    "@) == 4) by {
            vstd::string::is_ascii_spec_bytes("    ");
            assert(vstd::string::is_ascii("    "));
        }
    }
    let document = for_source(source, scope);
    module.line(prefixed("r\"\"\"", document.summary).as_str());
    module.blank_line();
    module.line("Reference:");
    render_markdown_block(module, document.reference.citation, "    ");
    match document.reference.doi {
        Some(doi) => {
            let mut link = String::from_str("[DOI: ");
            link.append(doi.identifier);
            link.append("](");
            link.append(doi.url);
            link.append(")");
            proof {
                reveal_strlit("[DOI: ");
                assert(link@[0] == '[');
                lemma_words_exist(link@, 0);
            }
            render_markdown_block(module, link.as_str(), "    ");
        },
        None => {},
    }
    match document.territory {
        Some(t) => render_definition_list_block(module, "Territory", t),
        None => {},
    }
    match document.dataset {
        Some(d) => render_definition_list_block(module, "Dataset", d),
        None => {},
    }
    module.blank_line();
    module.line("\"\"\"");
}

} // verus!
