//! Character-level escaping and ordering keys shared by the documentation generators.

use vstd::prelude::*;
use vstd::string::*;
use crate::strings::push_char;
use crate::render::markdown::{char_is_whitespace, is_whitespace};

verus! {

/// The escaping schemes used by the Markdown generators.
#[derive(Clone, Copy, PartialEq, Eq, Debug)]
pub enum Escaping {
    /// Backslashes and backticks are escaped (running Markdown text).
    Text,
    /// As `Text`, and table cells additionally fold newlines and escape pipes.
    Table,
    /// Table cells of the catalog: newlines are folded and pipes escaped.
    CatalogTable,
}

/// Backslashes and backticks gain a leading backslash.
pub open spec fn escaped_text_char(c: char) -> Seq<char> {
    if c == '\\' {
        seq!['\\', '\\']
    } else if c == '`' {
        seq!['\\', '`']
    } else {
        seq![c]
    }
}

/// What one character of the input becomes under a scheme.
pub open spec fn escaped_char(kind: Escaping, c: char) -> Seq<char> {
    match kind {
        Escaping::Text => escaped_text_char(c),
        Escaping::Table => if c == '\n' {
            seq![' ']
        } else if c == '|' {
            seq!['\\', '|']
        } else {
            escaped_text_char(c)
        },
        Escaping::CatalogTable => if c == '\n' {
            seq![' ']
        } else if c == '|' {
            seq!['\\', '|']
        } else {
            seq![c]
        },
    }
}

/// The whole text under a scheme: each character replaced by its escape, in order.
pub open spec fn escaped(kind: Escaping, s: Seq<char>) -> Seq<char>
    decreases s.len(),
{
    if s.len() == 0 {
        seq![]
    } else {
        escaped(kind, s.drop_last()) + escaped_char(kind, s.last())
    }
}

/// Applies an escaping scheme to a text.
pub fn escape(kind: Escaping, value: &str) -> (r: String)
    ensures
        r@ == escaped(kind, value@),
{
    let mut out = String::new();
    for c in it: value.chars()
        invariant
            it.seq() == value@,
            out@ == escaped(kind, value@.take(it.index())),
    {
        assert(value@.take(it.index() + 1).drop_last() == value@.take(it.index()));
        match kind {
            Escaping::Text => {
                if c == '\\' || c == '`' {
                    push_char(&mut out, '\\');
                }
                push_char(&mut out, c);
            },
            Escaping::Table => {
                if c == '\n' {
                    push_char(&mut out, ' ');
                } else {
                    if c == '\\' || c == '`' || c == '|' {
                        push_char(&mut out, '\\');
                    }
                    push_char(&mut out, c);
                }
            },
            Escaping::CatalogTable => {
                if c == '\n' {
                    push_char(&mut out, ' ');
                } else {
                    if c == '|' {
                        push_char(&mut out, '\\');
                    }
                    push_char(&mut out, c);
                }
            },
        }
        assert(out@ == escaped(kind, value@.take(it.index() + 1)));
    }
    assert(value@.take(value@.len() as int) == value@);
    out
}

/// The texts that `f` gives for each element, concatenated in order.
pub open spec fn concat_map<A>(s: Seq<A>, f: spec_fn(A) -> Seq<char>) -> Seq<char>
    decreases s.len(),
{
    if s.len() == 0 {
        seq![]
    } else {
        concat_map(s.drop_last(), f) + f(s.last())
    }
}

/// The width to which runs of digits are padded in natural ordering keys.
pub open spec fn natural_digit_width() -> nat {
    20
}

/// A run of digits left-padded with zeros to the natural ordering width; an empty
/// run stays empty.
pub open spec fn padded_run(run: Seq<char>) -> Seq<char> {
    if run.len() == 0 || run.len() >= natural_digit_width() {
        run
    } else {
        Seq::new((natural_digit_width() - run.len()) as nat, |i: int| '0') + run
    }
}

pub open spec fn is_ascii_digit(c: char) -> bool {
    '0' <= c && c <= '9'
}

/// Scanning a text left to right: the key built so far and the pending run of digits.
pub open spec fn natural_scan(s: Seq<char>) -> (Seq<char>, Seq<char>)
    decreases s.len(),
{
    if s.len() == 0 {
        (seq![], seq![])
    } else {
        let (key, run) = natural_scan(s.drop_last());
        let c = s.last();
        if is_ascii_digit(c) {
            (key, run.push(c))
        } else {
            (key + padded_run(run) + seq![c], seq![])
        }
    }
}

/// The ordering key of a name: every maximal run of ASCII digits is left-padded with
/// zeros to twenty digits, other characters are kept, so that comparing keys
/// orders numeric parts by value.
pub open spec fn natural_key(s: Seq<char>) -> Seq<char> {
    let (key, run) = natural_scan(s);
    if run.len() == 0 { key } else { key + padded_run(run) }
}

fn append_padded_run(out: &mut String, run: &String)
    ensures
        final(out)@ == old(out)@ + padded_run(run@),
{
    let n = run.as_str().unicode_len();
    if 0 < n && n < 20 {
        let mut k: usize = n;
        let ghost start = out@;
        while k < 20
            invariant
                n <= k <= 20,
                n == run@.len(),
                out@ == start + Seq::new((k - n) as nat, |i: int| '0'),
            decreases 20 - k,
        {
            push_char(out, '0');
            k = k + 1;
            assert(out@ == start + Seq::new((k - n) as nat, |i: int| '0'));
        }
    }
    out.append(run.as_str());
}

/// The natural ordering key of a name (see [`natural_key`]).
pub fn natural_sort_key(value: &str) -> (r: String)
    ensures
        r@ == natural_key(value@),
{
    let mut key = String::new();
    let mut run = String::new();
    for c in it: value.chars()
        invariant
            it.seq() == value@,
            (key@, run@) == natural_scan(value@.take(it.index())),
    {
        assert(value@.take(it.index() + 1).drop_last() == value@.take(it.index()));
        if '0' <= c && c <= '9' {
            push_char(&mut run, c);
        } else {
            append_padded_run(&mut key, &run);
            push_char(&mut key, c);
            run = String::new();
        }
    }
    assert(value@.take(value@.len() as int) == value@);
    if !run.as_str().is_empty() {
        append_padded_run(&mut key, &run);
    }
    key
}


/// The text with a full stop appended unless it ends in `.`, `?` or `!`.
pub open spec fn terminated(text: Seq<char>) -> Seq<char> {
    if text.len() > 0 && (text.last() == '.' || text.last() == '?' || text.last() == '!') {
        text
    } else {
        text.push('.')
    }
}

pub fn with_terminal_punctuation(text: &str) -> (r: String)
    ensures
        r@ == terminated(text@),
{
    let cs = crate::strings::chars_of(text);
    let mut r = text.to_owned();
    if cs.len() > 0 && (cs[cs.len() - 1] == '.' || cs[cs.len() - 1] == '?' || cs[cs.len() - 1] == '!') {
        r
    } else {
        push_char(&mut r, '.');
        r
    }
}

/// Splitting into words: the finished words and the word being read.
pub open spec fn split_words(s: Seq<char>) -> (Seq<Seq<char>>, Seq<char>)
    decreases s.len(),
{
    if s.len() == 0 {
        (seq![], seq![])
    } else {
        let (done, current) = split_words(s.drop_last());
        if is_whitespace(s.last()) {
            (if current.len() > 0 { done.push(current) } else { done }, seq![])
        } else {
            (done, current.push(s.last()))
        }
    }
}

/// The maximal runs of non-whitespace characters (`str::split_whitespace`).
pub open spec fn words(s: Seq<char>) -> Seq<Seq<char>> {
    let (done, current) = split_words(s);
    if current.len() > 0 { done.push(current) } else { done }
}

/// The length of a text in UTF-8 bytes.
pub open spec fn byte_len(s: Seq<char>) -> nat {
    vstd::utf8::encode_utf8(s).len()
}

pub open spec fn sat_add(a: nat, b: nat) -> nat {
    if a + b > usize::MAX { usize::MAX as nat } else { a + b }
}

/// Greedy filling: the finished lines, the line being filled and its width limit.
pub open spec fn fill(ws: Seq<Seq<char>>, first_width: nat, continuation_width: nat) -> (Seq<Seq<char>>, Seq<char>, nat)
    decreases ws.len(),
{
    if ws.len() == 0 {
        (seq![], seq![], first_width)
    } else {
        let (lines, line, width) = fill(ws.drop_last(), first_width, continuation_width);
        let word = ws.last();
        let wraps = line.len() > 0 && sat_add(sat_add(byte_len(line), 1), byte_len(word)) > width;
        let (lines2, line2, width2) = if wraps { (lines.push(line), seq![], continuation_width) } else { (lines, line, width) };
        (lines2, if line2.len() > 0 { line2 + seq![' '] + word } else { word }, width2)
    }
}

/// The words of a text filled into lines: a word goes on the current line unless the
/// line, a space and the word together exceed the width in bytes; the first line may
/// be `first_width` bytes wide, the others `continuation_width`.
pub open spec fn wrapped(text: Seq<char>, first_width: nat, continuation_width: nat) -> Seq<Seq<char>> {
    let (lines, line, _) = fill(words(text), first_width, continuation_width);
    if line.len() > 0 { lines.push(line) } else { lines }
}

fn words_of(text: &str) -> (r: Vec<String>)
    ensures
        r@.map_values(|w: String| w@) == words(text@),
{
    let mut done: Vec<String> = Vec::new();
    let mut current = String::new();
    let mut nonempty = false;
    for c in it: text.chars()
        invariant
            it.seq() == text@,
            nonempty == (current@.len() > 0),
            (done@.map_values(|w: String| w@), current@) == split_words(text@.take(it.index())),
    {
        assert(text@.take(it.index() + 1).drop_last() == text@.take(it.index()));
        let ghost d = done@.map_values(|w: String| w@);
        if char_is_whitespace(c) {
            if nonempty {
                done.push(current);
                assert(done@.map_values(|w: String| w@) =~= d.push(current@));
            }
            current = String::new();
            nonempty = false;
        } else {
            push_char(&mut current, c);
            nonempty = true;
        }
    }
    assert(text@.take(text@.len() as int) == text@);
    if nonempty {
        let ghost d = done@.map_values(|w: String| w@);
        done.push(current);
        assert(done@.map_values(|w: String| w@) =~= d.push(current@));
    }
    done
}


proof fn lemma_split_words_nonempty(s: Seq<char>)
    ensures
        forall|k: int| 0 <= k < split_words(s).0.len() ==> (#[trigger] split_words(s).0[k]).len() > 0,
    decreases s.len(),
{
    if s.len() > 0 {
        lemma_split_words_nonempty(s.drop_last());
        let (d, c) = split_words(s.drop_last());
        if is_whitespace(s.last()) && c.len() > 0 {
            assert(split_words(s).0 == d.push(c));
            assert forall|k: int| 0 <= k < d.push(c).len() implies (#[trigger] d.push(c)[k]).len() > 0 by {
                if k < d.len() {
                    assert(d.push(c)[k] == d[k]);
                }
            }
        }
    }
}

proof fn lemma_words_nonempty(s: Seq<char>)
    ensures
        forall|k: int| 0 <= k < words(s).len() ==> (#[trigger] words(s)[k]).len() > 0,
{
    lemma_split_words_nonempty(s);
}

proof fn lemma_split_words_progress(s: Seq<char>)
    ensures
        (exists|i: int| 0 <= i < s.len() && !is_whitespace(#[trigger] s[i]))
            ==> (split_words(s).0.len() > 0 || split_words(s).1.len() > 0),
    decreases s.len(),
{
    if s.len() > 0 {
        lemma_split_words_progress(s.drop_last());
        if exists|i: int| 0 <= i < s.len() && !is_whitespace(#[trigger] s[i]) {
            let i = choose|i: int| 0 <= i < s.len() && !is_whitespace(#[trigger] s[i]);
            if i < s.len() - 1 {
                assert(s.drop_last()[i] == s[i]);
            }
        }
    }
}

/// A text with a character that is not whitespace has a word.
pub proof fn lemma_words_exist(s: Seq<char>, i: int)
    requires
        0 <= i < s.len(),
        !is_whitespace(s[i]),
    ensures
        words(s).len() > 0,
{
    lemma_split_words_progress(s);
}

/// Fills the words of a text into lines of at most the given widths in bytes.
pub fn wrap_doc_line(text: &str, first_width: usize, continuation_width: usize) -> (r: Vec<String>)
    ensures
        r@.map_values(|l: String| l@) == wrapped(text@, first_width as nat, continuation_width as nat),
{
    let ws = words_of(text);
    let ghost all = ws@.map_values(|w: String| w@);
    proof {
        lemma_words_nonempty(text@);
    }
    let mut lines: Vec<String> = Vec::new();
    let mut line = String::new();
    let mut width = first_width;
    let mut nonempty = false;
    let mut k: usize = 0;
    assert(all.take(0) =~= Seq::<Seq<char>>::empty());
    assert(lines@.map_values(|l: String| l@) =~= Seq::<Seq<char>>::empty());
    while k < ws.len()
        invariant
            k <= ws.len(),
            all == ws@.map_values(|w: String| w@),
            all == words(text@),
            forall|j: int| 0 <= j < all.len() ==> (#[trigger] all[j]).len() > 0,
            nonempty == (line@.len() > 0),
            (lines@.map_values(|l: String| l@), line@, width as nat) == fill(all.take(k as int), first_width as nat, continuation_width as nat),
        decreases ws.len() - k,
    {
        let word = &ws[k];
        assert(all.take(k + 1).drop_last() == all.take(k as int));
        assert(all.take(k + 1).last() == word@);
        assert(all[k as int] == word@);
        let line_bytes = line.as_str().as_bytes().len();
        let word_bytes = word.as_str().as_bytes().len();
        assert(line_bytes as nat == byte_len(line@));
        assert(word_bytes as nat == byte_len(word@));
        let total = line_bytes.saturating_add(1).saturating_add(word_bytes);
        assert(total as nat == sat_add(sat_add(byte_len(line@), 1), byte_len(word@)));
        if nonempty && total > width {
            let ghost prev = lines@.map_values(|l: String| l@);
            let ghost finished = line@;
            lines.push(line);
            assert(lines@.map_values(|l: String| l@) =~= prev.push(finished));
            line = String::new();
            width = continuation_width;
            nonempty = false;
        }
        if nonempty {
            push_char(&mut line, ' ');
            line.append(word.as_str());
        } else {
            line = word.clone();
        }
        nonempty = true;
        k = k + 1;
    }
    assert(all.take(ws.len() as int) == all);
    if nonempty {
        let ghost prev = lines@.map_values(|l: String| l@);
        let ghost finished = line@;
        lines.push(line);
        assert(lines@.map_values(|l: String| l@) =~= prev.push(finished));
    }
    lines
}


proof fn lemma_fill_line_nonempty(ws: Seq<Seq<char>>, first_width: nat, continuation_width: nat)
    requires
        ws.len() > 0,
        forall|j: int| 0 <= j < ws.len() ==> (#[trigger] ws[j]).len() > 0,
    ensures
        fill(ws, first_width, continuation_width).1.len() > 0,
{
    assert(ws.last() == ws[ws.len() - 1]);
}

/// A text with at least one word fills at least one line.
pub proof fn lemma_wrapped_nonempty(text: Seq<char>, first_width: nat, continuation_width: nat)
    requires
        words(text).len() > 0,
    ensures
        wrapped(text, first_width, continuation_width).len() > 0,
{
    lemma_words_nonempty(text);
    lemma_fill_line_nonempty(words(text), first_width, continuation_width);
}

/// The lines of a Markdown block: the first wrapped line after `first_prefix`, the
/// others indented by four spaces; the first line has `100 - prefix` bytes, the
/// others 96.
pub open spec fn markdown_block(text: Seq<char>, first_prefix: Seq<char>) -> Seq<Seq<char>> {
    let w = wrapped(text, (100 - byte_len(first_prefix)) as nat, 96);
    seq![first_prefix + w[0]] + w.skip(1).map_values(|l: Seq<char>| "    "@ + l)
}

pub fn wrap_markdown_block(text: &str, first_prefix: &str) -> (r: Vec<String>)
    requires
        words(text@).len() > 0,
        byte_len(first_prefix@) <= 100,
    ensures
        r@.map_values(|l: String| l@) == markdown_block(text@, first_prefix@),
{
    let prefix_bytes = first_prefix.as_bytes().len();
    let w = wrap_doc_line(text, 100 - prefix_bytes, 96);
    let ghost wv = w@.map_values(|l: String| l@);
    proof {
        lemma_wrapped_nonempty(text@, (100 - prefix_bytes) as nat, 96);
    }
    let mut first = first_prefix.to_owned();
    first.append(w[0].as_str());
    let mut lines: Vec<String> = vec![first];
    let mut k: usize = 1;
    assert(lines@.map_values(|l: String| l@) =~= seq![first_prefix@ + wv[0]] + wv.skip(1).take(0).map_values(|l: Seq<char>| "    "@ + l));
    while k < w.len()
        invariant
            1 <= k <= w.len(),
            wv == w@.map_values(|l: String| l@),
            lines@.map_values(|l: String| l@) == seq![first_prefix@ + wv[0]] + wv.skip(1).take(k - 1).map_values(|l: Seq<char>| "    "@ + l),
        decreases w.len() - k,
    {
        let ghost prev = lines@.map_values(|l: String| l@);
        let mut line = String::from_str("    ");
        line.append(w[k].as_str());
        lines.push(line);
        assert(lines@.map_values(|l: String| l@) =~= prev.push("    "@ + wv[k as int]));
        assert(wv.skip(1).take(k as int) =~= wv.skip(1).take(k - 1).push(wv[k as int]));
        k = k + 1;
        assert(lines@.map_values(|l: String| l@) =~= seq![first_prefix@ + wv[0]] + wv.skip(1).take(k - 1).map_values(|l: Seq<char>| "    "@ + l));
    }
    assert(wv.skip(1).take(w.len() - 1) == wv.skip(1));
    lines
}

} // verus!
