//! Markdown building blocks shared by the documentation generators.

use vstd::prelude::*;
use vstd::string::*;
use crate::strings::push_char;
use crate::text::{Escaping, escape, escaped};
use crate::render::{Writer, WriterView, lines_written};

verus! {

/// The marker that opens every generated Markdown page.
pub const HEADER: &'static str = "<!-- @generated by ptfkit-codegen; DO NOT EDIT. -->\n\n";

/// The marker placed first inside the front matter of generated Markdown pages.
pub const FRONTMATTER_HEADER: &'static str = "# @generated by ptfkit-codegen; DO NOT EDIT.\n\n";

/// `char::is_whitespace`: the Unicode `White_Space` characters.
pub open spec fn is_whitespace(c: char) -> bool {
    ||| c == '\t' || c == '\n' || c == '\u{B}' || c == '\u{C}' || c == '\r' || c == ' '
    ||| c == '\u{85}' || c == '\u{A0}' || c == '\u{1680}'
    ||| ('\u{2000}' <= c && c <= '\u{200A}')
    ||| c == '\u{2028}' || c == '\u{2029}' || c == '\u{202F}' || c == '\u{205F}' || c == '\u{3000}'
}

/// Executable `char::is_whitespace`.
pub fn char_is_whitespace(c: char) -> (r: bool)
    ensures
        r == is_whitespace(c),
{
    c == '\t' || c == '\n' || c == '\u{B}' || c == '\u{C}' || c == '\r' || c == ' '
        || c == '\u{85}' || c == '\u{A0}' || c == '\u{1680}'
        || ('\u{2000}' <= c && c <= '\u{200A}')
        || c == '\u{2028}' || c == '\u{2029}' || c == '\u{202F}' || c == '\u{205F}' || c == '\u{3000}'
}

/// The text without its trailing whitespace (`str::trim_end`).
pub open spec fn trim_end(s: Seq<char>) -> Seq<char>
    decreases s.len(),
{
    if s.len() > 0 && is_whitespace(s.last()) {
        trim_end(s.drop_last())
    } else {
        s
    }
}

/// The lines of a text (`str::lines`): split at each newline, dropping a carriage
/// return that precedes it; a final newline does not start another line.
pub open spec fn text_lines(s: Seq<char>) -> Seq<Seq<char>> {
    let (done, current) = split_lines(s);
    if current.len() > 0 { done.push(current) } else { done }
}

/// The finished lines and the unfinished last line of a text.
pub open spec fn split_lines(s: Seq<char>) -> (Seq<Seq<char>>, Seq<char>)
    decreases s.len(),
{
    if s.len() == 0 {
        (seq![], seq![])
    } else {
        let (done, current) = split_lines(s.drop_last());
        if s.last() == '\n' {
            (done.push(strip_carriage_return(current)), seq![])
        } else {
            (done, current.push(s.last()))
        }
    }
}

/// A line without the carriage return that ended it, if any.
pub open spec fn strip_carriage_return(line: Seq<char>) -> Seq<char> {
    if line.len() > 0 && line.last() == '\r' { line.drop_last() } else { line }
}

/// `str::trim_end`.
pub fn trim_end_of(s: &str) -> (r: String)
    ensures
        r@ == trim_end(s@),
{
    let chars = crate::strings::chars_of(s);
    let mut n = chars.len();
    assert(chars@.take(n as int) == s@);
    while n > 0 && char_is_whitespace(chars[n - 1])
        invariant
            n <= chars.len(),
            chars@ == s@,
            trim_end(s@) == trim_end(chars@.take(n as int)),
        decreases n,
    {
        assert(chars@.take(n as int).drop_last() == chars@.take(n - 1));
        n = n - 1;
    }
    let mut out = String::new();
    let mut i: usize = 0;
    while i < n
        invariant
            i <= n <= chars.len(),
            out@ == chars@.take(i as int),
        decreases n - i,
    {
        push_char(&mut out, chars[i]);
        i = i + 1;
        assert(out@ == chars@.take(i as int));
    }
    assert(trim_end(chars@.take(n as int)) == chars@.take(n as int));
    out
}

/// `str::lines`.
pub fn lines_of(s: &str) -> (r: Vec<String>)
    ensures
        r@.map_values(|l: String| l@) == text_lines(s@),
{
    let mut done: Vec<String> = Vec::new();
    let mut current = String::new();
    for c in it: s.chars()
        invariant
            it.seq() == s@,
            (done@.map_values(|l: String| l@), current@) == split_lines(s@.take(it.index())),
    {
        assert(s@.take(it.index() + 1).drop_last() == s@.take(it.index()));
        let ghost prev = done@.map_values(|l: String| l@);
        if c == '\n' {
            let stripped = strip_cr(current);
            done.push(stripped);
            current = String::new();
            assert(done@.map_values(|l: String| l@) == prev.push(stripped@));
        } else {
            push_char(&mut current, c);
        }
    }
    assert(s@.take(s@.len() as int) == s@);
    if !current.as_str().is_empty() {
        let ghost prev = done@.map_values(|l: String| l@);
        done.push(current);
        assert(done@.map_values(|l: String| l@) == prev.push(current@));
    }
    done
}

fn strip_cr(line: String) -> (r: String)
    ensures
        r@ == strip_carriage_return(line@),
{
    let chars = crate::strings::chars_of(line.as_str());
    let n = chars.len();
    if n > 0 && chars[n - 1] == '\r' {
        let mut out = String::new();
        let mut i: usize = 0;
        while i < n - 1
            invariant
                i <= n - 1,
                n == chars.len(),
                out@ == chars@.take(i as int),
            decreases n - 1 - i,
        {
            push_char(&mut out, chars[i]);
            i = i + 1;
            assert(out@ == chars@.take(i as int));
        }
        assert(chars@.take(n - 1) == line@.drop_last());
        out
    } else {
        line
    }
}

/// A text followed by one line end, after its trailing whitespace is removed.
pub open spec fn file_text(contents: Seq<char>) -> Seq<char> {
    trim_end(contents).push('\n')
}

/// The contents of a Markdown file rendered by `writer`.
pub fn markdown_contents(writer: Writer) -> (r: String)
    ensures
        r@ == file_text(writer@.contents),
{
    let contents = writer.into_string();
    let mut r = trim_end_of(contents.as_str());
    push_char(&mut r, '\n');
    r
}

/// A generated Markdown file at `path` with the text of `writer`.
pub fn markdown_file(path: String, writer: Writer) -> (f: crate::output::GeneratedFile)
    ensures
        f.path@ == path@,
        f.contents@ == file_text(writer@.contents),
{
    crate::output::GeneratedFile::new(path, markdown_contents(writer))
}

/// The writer after front matter with the generated marker and the given lines.
pub open spec fn after_frontmatter(w: WriterView, lines: Seq<Seq<char>>) -> WriterView {
    lines_written(
        w.after_write(seq!['-', '-', '-', '\n']).after_write(FRONTMATTER_HEADER@),
        lines,
    ).after_write(seq!['-', '-', '-', '\n', '\n'])
}

/// Writes YAML front matter that starts with the generated marker.
pub fn generated_frontmatter(writer: &mut Writer, lines: &[String])
    ensures
        final(writer)@ == after_frontmatter(old(writer)@, lines@.map_values(|l: String| l@)),
{
    proof {
        reveal_strlit("---\n");
        reveal_strlit("---\n\n");
        assert("---\n"@ =~= seq!['-', '-', '-', '\n']);
        assert("---\n\n"@ =~= seq!['-', '-', '-', '\n', '\n']);
    }
    writer.write("---\n");
    writer.write(FRONTMATTER_HEADER);
    let ghost start = writer@;
    let ghost texts = lines@.map_values(|l: String| l@);
    let mut i: usize = 0;
    while i < lines.len()
        invariant
            i <= lines.len(),
            texts == lines@.map_values(|l: String| l@),
            writer@ == lines_written(start, texts.take(i as int)),
        decreases lines.len() - i,
    {
        assert(texts.take(i + 1).drop_last() == texts.take(i as int));
        writer.line(lines[i].as_str());
        i = i + 1;
    }
    assert(texts.take(lines.len() as int) == texts);
    writer.write("---\n\n");
}

/// The writer after a fenced code block with the given lines.
pub open spec fn after_code_block(w: WriterView, language: Seq<char>, lines: Seq<Seq<char>>) -> WriterView {
    lines_written(
        w.after_line(seq!['`', '`', '`'] + language),
        lines,
    ).after_line(seq!['`', '`', '`']).after_blank_line()
}

/// Writes a fenced code block in `language` holding `lines`, then a blank line.
pub fn code_block(writer: &mut Writer, language: &str, lines: &[String])
    ensures
        final(writer)@ == after_code_block(old(writer)@, language@, lines@.map_values(|l: String| l@)),
{
    let mut fence = String::from_str("```");
    proof {
        reveal_strlit("```");
        assert("```"@ =~= seq!['`', '`', '`']);
    }
    fence.append(language);
    writer.line(fence.as_str());
    let ghost start = writer@;
    let ghost texts = lines@.map_values(|l: String| l@);
    let mut i: usize = 0;
    while i < lines.len()
        invariant
            i <= lines.len(),
            texts == lines@.map_values(|l: String| l@),
            writer@ == lines_written(start, texts.take(i as int)),
        decreases lines.len() - i,
    {
        assert(texts.take(i + 1).drop_last() == texts.take(i as int));
        writer.line(lines[i].as_str());
        i = i + 1;
    }
    assert(texts.take(lines.len() as int) == texts);
    writer.line("```");
    writer.blank_line();
}

/// The escaped lines of an admonition body.
pub open spec fn admonition_lines(body: Seq<char>, escaping: Option<Escaping>) -> Seq<Seq<char>> {
    text_lines(body).map_values(|l: Seq<char>| match escaping {
        Some(kind) => escaped(kind, l),
        None => l,
    })
}

/// The writer after an admonition of `kind` with `body`.
pub open spec fn after_admonition(w: WriterView, kind: Seq<char>, body: Seq<char>, escaping: Option<Escaping>) -> WriterView {
    let opened = w.after_line(seq!['!', '!', '!', ' '] + kind).after_blank_line();
    lines_written(opened.with_indentation(opened.indentation + 1), admonition_lines(body, escaping))
        .with_indentation(opened.indentation)
        .after_blank_line()
}

/// Writes a Material for MkDocs admonition; each line of the body is escaped with
/// `escaping` (or kept as it is) and indented one level.
pub fn admonition(writer: &mut Writer, kind: &str, body: &str, escaping: Option<Escaping>)
    requires
        old(writer)@.indentation < usize::MAX,
    ensures
        final(writer)@ == after_admonition(old(writer)@, kind@, body@, escaping),
{
    let mut opening = String::from_str("!!! ");
    proof {
        reveal_strlit("!!! ");
        assert("!!! "@ =~= seq!['!', '!', '!', ' ']);
    }
    opening.append(kind);
    writer.line(opening.as_str());
    writer.blank_line();
    let raw = lines_of(body);
    let ghost texts = raw@.map_values(|l: String| l@);
    let mut escaped_lines: Vec<String> = Vec::new();
    let mut i: usize = 0;
    while i < raw.len()
        invariant
            i <= raw.len(),
            texts == raw@.map_values(|l: String| l@),
            texts == text_lines(body@),
            escaped_lines@.map_values(|l: String| l@) == admonition_lines(body@, escaping).take(i as int),
        decreases raw.len() - i,
    {
        let line = match escaping {
            Some(kind) => escape(kind, raw[i].as_str()),
            None => raw[i].clone(),
        };
        let ghost prev = escaped_lines@.map_values(|l: String| l@);
        escaped_lines.push(line);
        assert(escaped_lines@.map_values(|l: String| l@) == prev.push(line@));
        i = i + 1;
        assert(admonition_lines(body@, escaping).take(i as int) == admonition_lines(body@, escaping).take(i - 1).push(line@));
    }
    assert(admonition_lines(body@, escaping).take(raw.len() as int) == admonition_lines(body@, escaping));
    writer.indented(escaped_lines.as_slice());
    writer.blank_line();
}

} // verus!
