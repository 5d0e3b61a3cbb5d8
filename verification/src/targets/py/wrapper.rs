//! Docstring blocks of the generated Python wrapper.

use vstd::prelude::*;
use vstd::string::*;
use crate::text::{byte_len, markdown_block, words, wrap_markdown_block};

verus! {

/// A definition list entry: a blank line, the term, a blank line, then the
/// definition as a Markdown block introduced by `:   `.
pub open spec fn definition_list(name: Seq<char>, text: Seq<char>) -> Seq<Seq<char>> {
    seq![seq![], name, seq![]] + markdown_block(text, ":   "@)
}

pub fn definition_list_block(lines: &mut Vec<String>, name: &str, text: &str)
    requires
        words(text@).len() > 0,
    ensures
        final(lines)@.map_values(|l: String| l@) == old(lines)@.map_values(|l: String| l@) + definition_list(name@, text@),
{
    let ghost start = lines@.map_values(|l: String| l@);
    proof {
        reveal_strlit(":   ");
        assert(byte_len(":   "@) == 4) by {
            vstd::string::is_ascii_spec_bytes(":   ");
            assert(vstd::string::is_ascii(":   "));
        }
    }
    lines.push(String::new());
    lines.push(name.to_owned());
    lines.push(String::new());
    let block = wrap_markdown_block(text, ":   ");
    let ghost head = lines@.map_values(|l: String| l@);
    assert(head =~= start + seq![seq![], name@, seq![]]);
    let mut k: usize = 0;
    while k < block.len()
        invariant
            k <= block.len(),
            lines@.map_values(|l: String| l@) == head + block@.map_values(|l: String| l@).take(k as int),
        decreases block.len() - k,
    {
        let ghost prev = lines@.map_values(|l: String| l@);
        lines.push(block[k].clone());
        assert(lines@.map_values(|l: String| l@) =~= prev.push(block@[k as int]@));
        assert(block@.map_values(|l: String| l@).take(k + 1) =~= block@.map_values(|l: String| l@).take(k as int).push(block@[k as int]@));
        k = k + 1;
    }
    assert(block@.map_values(|l: String| l@).take(block.len() as int) == block@.map_values(|l: String| l@));
}

} // verus!
