//! The few Python constructs that the generated modules are made of.

use vstd::prelude::*;
use vstd::string::*;
use crate::render::{Writer, WriterView, lines_written};
use crate::render::markdown::{trim_end, trim_end_of};

verus! {

/// A Python module being written.
pub struct Module {
    writer: Writer,
}

impl View for Module {
    type V = WriterView;

    closed spec fn view(&self) -> WriterView {
        self.writer@
    }
}

/// `lines` written one level deeper than `w`, which keeps its own indentation.
pub open spec fn after_indented(w: WriterView, lines: Seq<Seq<char>>) -> WriterView {
    lines_written(WriterView { indentation: w.indentation + 1, ..w }, lines).with_indentation(w.indentation)
}

pub open spec fn texts(lines: Seq<String>) -> Seq<Seq<char>> {
    lines.map_values(|l: String| l@)
}

impl Module {
    /// A module that starts with `header`, without its trailing whitespace.
    pub fn new(header: &str) -> (m: Module)
        ensures
            m@ == (WriterView { contents: seq![], indentation: 0, indent: seq![' ', ' ', ' ', ' '], at_line_start: true })
                .after_write(trim_end(header@)),
    {
        let mut writer = Writer::new();
        let trimmed = trim_end_of(header);
        writer.write(trimmed.as_str());
        Module { writer }
    }

    pub fn blank_line(&mut self)
        ensures
            final(self)@ == old(self)@.after_blank_line(),
    {
        self.writer.blank_line();
    }

    pub fn line(&mut self, value: &str)
        ensures
            final(self)@ == old(self)@.after_line(value@),
    {
        self.writer.line(value);
    }

    pub fn write(&mut self, value: &str)
        ensures
            final(self)@ == old(self)@.after_write(value@),
    {
        self.writer.write(value);
    }

    /// `from module import names`.
    pub fn import(&mut self, module: &str, names: &str)
        ensures
            final(self)@ == old(self)@.after_line("from "@ + module@ + " import "@ + names@),
    {
        let mut text = String::from_str("from ");
        text.append(module);
        text.append(" import ");
        text.append(names);
        self.line(text.as_str());
    }

    /// `name = value`.
    pub fn assignment(&mut self, name: &str, value: &str)
        ensures
            final(self)@ == old(self)@.after_line(name@ + " = "@ + value@),
    {
        let mut text = String::from_str(name);
        text.append(" = ");
        text.append(value);
        self.line(text.as_str());
    }

    /// The opening line, the body one level deeper, then the closing line.
    pub fn block(&mut self, opening: &str, body: &[String], closing: &str)
        requires
            old(self)@.indentation < usize::MAX,
        ensures
            final(self)@ == after_indented(old(self)@.after_line(opening@), texts(body@)).after_line(closing@),
    {
        self.writer.line(opening);
        self.writer.indented(body);
        self.writer.line(closing);
    }

    /// The lines one level deeper.
    pub fn indented(&mut self, body: &[String])
        requires
            old(self)@.indentation < usize::MAX,
        ensures
            final(self)@ == after_indented(old(self)@, texts(body@)),
    {
        self.writer.indented(body);
    }

    pub fn into_string(self) -> (s: String)
        ensures
            s@ == self@.contents,
    {
        self.writer.into_string()
    }
}

} // verus!
