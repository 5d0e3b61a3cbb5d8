//! An indentation-aware text buffer for the textual generators.

use vstd::prelude::*;
use vstd::string::*;
use crate::strings::push_char;

pub mod markdown;
pub mod c;

verus! {

/// Something that writes itself into a writer.
pub trait Render {
    fn render(&self, writer: &mut Writer);
}

/// `s` repeated `n` times.
pub open spec fn repeat(s: Seq<char>, n: nat) -> Seq<char>
    decreases n,
{
    if n == 0 {
        seq![]
    } else {
        repeat(s, (n - 1) as nat) + s
    }
}

/// The abstract state of a [`Writer`].
pub struct WriterView {
    pub contents: Seq<char>,
    pub indentation: nat,
    pub indent: Seq<char>,
    pub at_line_start: bool,
}

/// Writing one character: a character other than a newline that starts a line is
/// preceded by the indentation prefix; afterwards a line starts iff it was a newline.
pub open spec fn write_char(contents: Seq<char>, at_line_start: bool, prefix: Seq<char>, c: char) -> (Seq<char>, bool) {
    if at_line_start && c != '\n' {
        (contents + prefix + seq![c], false)
    } else {
        (contents.push(c), c == '\n')
    }
}

/// Writing a text, character by character.
pub open spec fn write_text(contents: Seq<char>, at_line_start: bool, prefix: Seq<char>, text: Seq<char>) -> (Seq<char>, bool)
    decreases text.len(),
{
    if text.len() == 0 {
        (contents, at_line_start)
    } else {
        let (c, a) = write_text(contents, at_line_start, prefix, text.drop_last());
        write_char(c, a, prefix, text.last())
    }
}

impl WriterView {
    /// The text that starts each indented line.
    pub open spec fn prefix(self) -> Seq<char> {
        repeat(self.indent, self.indentation)
    }

    /// The state after writing `text`.
    pub open spec fn after_write(self, text: Seq<char>) -> WriterView {
        let (c, a) = write_text(self.contents, self.at_line_start, self.prefix(), text);
        WriterView { contents: c, at_line_start: a, ..self }
    }

    /// The state after writing `text` and a newline.
    pub open spec fn after_line(self, text: Seq<char>) -> WriterView {
        self.after_write(text).after_write(seq!['\n'])
    }

    /// The state after a blank line: a newline ends an open line, then one more newline.
    pub open spec fn after_blank_line(self) -> WriterView {
        if self.at_line_start {
            self.after_write(seq!['\n'])
        } else {
            self.after_write(seq!['\n']).after_write(seq!['\n'])
        }
    }
}

/// The text written so far and whether it stands at the start of a line.
struct Text {
    contents: String,
    at_line_start: bool,
}

/// A small, indentation-aware buffer for textual generators.
pub struct Writer {
    text: Text,
    indentation: usize,
    indent: String,
}

impl WriterView {
    /// A line starts exactly where nothing was written yet or the text ends with a newline.
    pub open spec fn line_start_consistent(self) -> bool {
        self.at_line_start == (self.contents.len() == 0 || self.contents.last() == '\n')
    }
}

impl View for Writer {
    type V = WriterView;

    closed spec fn view(&self) -> WriterView {
        WriterView {
            contents: self.text.contents@,
            indentation: self.indentation as nat,
            indent: self.indent@,
            at_line_start: self.text.at_line_start,
        }
    }
}

impl Writer {
    #[verifier::type_invariant]
    spec fn line_start_follows_contents(self) -> bool {
        self@.line_start_consistent()
    }

    /// An empty writer that indents with four spaces.
    pub fn new() -> (w: Writer)
        ensures
            w@.contents == Seq::<char>::empty(),
            w@.indentation == 0,
            w@.indent == seq![' ', ' ', ' ', ' '],
            w@.at_line_start,
            w@.line_start_consistent(),
    {
        Self::with_capacity(16 * 1024)
    }

    /// An empty writer with room reserved for at least `capacity` bytes.
    pub fn with_capacity(capacity: usize) -> (w: Writer)
        requires
            capacity <= isize::MAX,
        ensures
            w@.contents == Seq::<char>::empty(),
            w@.indentation == 0,
            w@.indent == seq![' ', ' ', ' ', ' '],
            w@.at_line_start,
            w@.line_start_consistent(),
    {
        let indent = String::from_str("    ");
        proof {
            reveal_strlit("    ");
        }
        Writer { text: Text { contents: String::with_capacity(capacity), at_line_start: true }, indentation: 0, indent }
    }

    /// The same writer with another indentation unit.
    pub fn with_indent(self, indent: &str) -> (w: Writer)
        ensures
            w@ == (WriterView { indent: indent@, ..self@ }),
            self@.line_start_consistent(),
    {
        proof {
            use_type_invariant(&self);
        }
        Writer { indent: String::from_str(indent), ..self }
    }

    /// Writes a text fragment, adding indentation only at the start of its lines.
    pub fn write(&mut self, text: &str)
        ensures
            old(self)@.line_start_consistent(),
            final(self)@.line_start_consistent(),
            final(self)@ == old(self)@.after_write(text@),
    {
        proof {
            use_type_invariant(&*self);
        }
        let mut written = Text { contents: String::new(), at_line_start: true };
        std::mem::swap(&mut written, &mut self.text);
        write_into(&mut written, &self.indent, self.indentation, text);
        self.text = written;
    }

    /// Writes a text fragment and ends the line.
    pub fn line(&mut self, text: &str)
        ensures
            old(self)@.line_start_consistent(),
            final(self)@.line_start_consistent(),
            final(self)@ == old(self)@.after_line(text@),
    {
        self.write(text);
        proof {
            reveal_strlit("\n");
            assert("\n"@ =~= seq!['\n']);
        }
        self.write("\n");
    }

    /// Ends an open line, then writes an empty line: one newline where nothing was
    /// written yet or the text ends with a newline, two otherwise.
    pub fn blank_line(&mut self)
        ensures
            old(self)@.line_start_consistent(),
            final(self)@.line_start_consistent(),
            final(self)@ == old(self)@.after_blank_line(),
            final(self)@.contents == old(self)@.contents + if old(self)@.contents.len() == 0
                || old(self)@.contents.last() == '\n' {
                seq!['\n']
            } else {
                seq!['\n', '\n']
            },
    {
        proof {
            use_type_invariant(&*self);
            reveal_strlit("\n");
            assert("\n"@ =~= seq!['\n']);
            law_blank_line_ends_at_line_start(self@);
        }
        let at_line_start = self.text.at_line_start;
        if !at_line_start {
            self.write("\n");
        }
        self.write("\n");
    }

    /// Writes each of `lines` as a line one indentation level deeper.
    pub fn indented(&mut self, lines: &[String])
        requires
            old(self)@.indentation < usize::MAX,
        ensures
            old(self)@.line_start_consistent(),
            final(self)@.line_start_consistent(),
            final(self)@.indentation == old(self)@.indentation,
            final(self)@.indent == old(self)@.indent,
            final(self)@ == lines_written(
                WriterView { indentation: old(self)@.indentation + 1, ..old(self)@ },
                lines@.map_values(|l: String| l@),
            ).with_indentation(old(self)@.indentation),
    {
        proof {
            use_type_invariant(&*self);
        }
        self.indentation = self.indentation + 1;
        let ghost start = self@;
        let ghost texts = lines@.map_values(|l: String| l@);
        let mut i: usize = 0;
        while i < lines.len()
            invariant
                i <= lines.len(),
                texts == lines@.map_values(|l: String| l@),
                start.indentation == old(self)@.indentation + 1,
                self@ == lines_written(start, texts.take(i as int)),
                start == (WriterView { indentation: old(self)@.indentation + 1, ..old(self)@ }),
            decreases lines.len() - i,
        {
            assert(texts.take(i + 1).drop_last() == texts.take(i as int));
            self.line(lines[i].as_str());
            i = i + 1;
        }
        assert(texts.take(lines.len() as int) == texts);
        proof {
            lemma_lines_written_keeps_layout(start, texts);
            use_type_invariant(&*self);
        }
        self.indentation = self.indentation - 1;
    }

    /// The accumulated text.
    pub fn into_string(self) -> (s: String)
        ensures
            s@ == self@.contents,
            self@.line_start_consistent(),
    {
        proof {
            use_type_invariant(&self);
        }
        self.text.contents
    }
}

impl WriterView {
    /// The same state at another indentation level.
    pub open spec fn with_indentation(self, indentation: nat) -> WriterView {
        WriterView { indentation, ..self }
    }
}

/// The state after writing each text as a line, in order.
pub open spec fn lines_written(w: WriterView, texts: Seq<Seq<char>>) -> WriterView
    decreases texts.len(),
{
    if texts.len() == 0 {
        w
    } else {
        lines_written(w, texts.drop_last()).after_line(texts.last())
    }
}

/// The writer state made of a text and a layout.
spec fn state_of(text: Text, indent: &String, indentation: usize) -> WriterView {
    WriterView { contents: text.contents@, at_line_start: text.at_line_start, indentation: indentation as nat, indent: indent@ }
}

/// Writes `text` into `written` with the given layout.
fn write_into(written: &mut Text, indent: &String, indentation: usize, text: &str)
    requires
        state_of(*old(written), indent, indentation).line_start_consistent(),
    ensures
        state_of(*final(written), indent, indentation) == state_of(*old(written), indent, indentation).after_write(text@),
        state_of(*final(written), indent, indentation).line_start_consistent(),
{
    let ghost start = state_of(*written, indent, indentation);
    for c in it: text.chars()
        invariant
            it.seq() == text@,
            start == state_of(*old(written), indent, indentation),
            state_of(*written, indent, indentation) == start.after_write(text@.take(it.index())),
            state_of(*written, indent, indentation).line_start_consistent(),
    {
        assert(text@.take(it.index() + 1).drop_last() == text@.take(it.index()));
        assert(text@.take(it.index() + 1).last() == c);
        let ghost prev = written.contents@;
        let ghost next = write_char(prev, written.at_line_start, start.prefix(), c);
        if written.at_line_start && c != '\n' {
            push_prefix(&mut written.contents, indent, indentation);
        }
        push_char(&mut written.contents, c);
        written.at_line_start = c == '\n';
        assert(written.contents@ == next.0);
        assert(written.contents@.last() == c);
    }
    assert(text@.take(text@.len() as int) == text@);
}

/// Appends the indentation prefix, `indent` repeated `n` times.
fn push_prefix(contents: &mut String, indent: &String, n: usize)
    ensures
        final(contents)@ == old(contents)@ + repeat(indent@, n as nat),
{
    let mut k: usize = 0;
    while k < n
        invariant
            k <= n,
            contents@ == old(contents)@ + repeat(indent@, k as nat),
        decreases n - k,
    {
        contents.append(indent.as_str());
        k = k + 1;
        assert(contents@ == old(contents)@ + repeat(indent@, k as nat));
    }
}

proof fn lemma_write_text_append(contents: Seq<char>, at_line_start: bool, prefix: Seq<char>, x: Seq<char>, y: Seq<char>)
    ensures
        ({
            let (c, a) = write_text(contents, at_line_start, prefix, x);
            write_text(contents, at_line_start, prefix, x + y) == write_text(c, a, prefix, y)
        }),
    decreases y.len(),
{
    if y.len() == 0 {
        assert(x + y == x);
    } else {
        assert((x + y).drop_last() == x + y.drop_last());
        assert((x + y).last() == y.last());
        lemma_write_text_append(contents, at_line_start, prefix, x, y.drop_last());
    }
}

/// Writing two fragments one after the other leaves the writer exactly as writing
/// their concatenation at once.
pub proof fn law_write_concatenation(w: WriterView, x: Seq<char>, y: Seq<char>)
    ensures
        w.after_write(x).after_write(y) == w.after_write(x + y),
{
    lemma_write_text_append(w.contents, w.at_line_start, w.prefix(), x, y);
}

proof fn lemma_write_text_unindented(contents: Seq<char>, at_line_start: bool, text: Seq<char>)
    ensures
        write_text(contents, at_line_start, seq![], text).0 == contents + text,
    decreases text.len(),
{
    if text.len() > 0 {
        lemma_write_text_unindented(contents, at_line_start, text.drop_last());
        assert(contents + text.drop_last() + seq![] == contents + text.drop_last());
        assert((contents + text.drop_last()).push(text.last()) == contents + text);
    } else {
        assert(contents + text == contents);
    }
}

/// Without indentation, writing appends the text verbatim.
pub proof fn law_write_unindented_is_verbatim(w: WriterView, text: Seq<char>)
    requires
        w.indentation == 0,
    ensures
        w.after_write(text).contents == w.contents + text,
{
    lemma_write_text_unindented(w.contents, w.at_line_start, text);
}

proof fn lemma_write_newline(w: WriterView)
    ensures
        w.after_write(seq!['\n']).contents == w.contents.push('\n'),
        w.after_write(seq!['\n']).at_line_start,
        w.after_write(seq!['\n']).indentation == w.indentation,
        w.after_write(seq!['\n']).indent == w.indent,
{
    let nl = seq!['\n'];
    assert(nl.drop_last() =~= Seq::<char>::empty());
    assert(nl.last() == '\n');
    assert(write_text(w.contents, w.at_line_start, w.prefix(), nl.drop_last()) == (w.contents, w.at_line_start));
}

/// After a blank line the writer is at the start of a line, its text ends with two
/// newlines unless it held nothing but a finished line before, and what it held
/// before is kept as a prefix.
pub proof fn law_blank_line_ends_at_line_start(w: WriterView)
    ensures
        w.after_blank_line().at_line_start,
        w.after_blank_line().contents.len() >= 1,
        w.after_blank_line().contents.last() == '\n',
        w.after_blank_line().contents.subrange(0, w.contents.len() as int) == w.contents,
        !w.at_line_start ==> w.after_blank_line().contents == w.contents + seq!['\n', '\n'],
        w.at_line_start ==> w.after_blank_line().contents == w.contents + seq!['\n'],
{
    let nl = seq!['\n'];
    lemma_write_newline(w);
    if !w.at_line_start {
        let w1 = w.after_write(nl);
        lemma_write_newline(w1);
        assert(w.contents.push('\n').push('\n') == w.contents + seq!['\n', '\n']);
    }
    assert(w.contents.push('\n').subrange(0, w.contents.len() as int) == w.contents);
    assert((w.contents + seq!['\n', '\n']).subrange(0, w.contents.len() as int) == w.contents);
}

proof fn lemma_lines_written_keeps_layout(w: WriterView, texts: Seq<Seq<char>>)
    ensures
        lines_written(w, texts).indentation == w.indentation,
        lines_written(w, texts).indent == w.indent,
    decreases texts.len(),
{
    if texts.len() > 0 {
        lemma_lines_written_keeps_layout(w, texts.drop_last());
    }
}

} // verus!
