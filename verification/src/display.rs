//! Showing a match of a search as text.
//!
//! A scalar is shown on one line as `key: value`, cut to the width of the
//! terminal. A mapping is shown as a block: `key:` and, below it, the YAML
//! text of the mapping, indented by two spaces.

use crate::text::{
    append_chars, append_str, buffers_view, chars_of, join, join_chars, lines_of, slice_of,
    split_lines, string_of, trim, trimmed,
};
use crate::tree::{Node, Tree};
use crate::yaml::{to_yaml_string, yaml_text};
use vstd::prelude::*;

verus! {

/// `text` cut to `width` characters: a text that is longer keeps its first
/// `width - 3` characters (none if `width` is below 3) and ends in `...`.
pub open spec fn truncated(text: Seq<char>, width: int) -> Seq<char> {
    if text.len() > width {
        text.take(if width >= 3 { width - 3 } else { 0 }) + "..."@
    } else {
        text
    }
}

/// A line of a block, indented by two spaces; an empty line stays empty.
pub open spec fn indented(line: Seq<char>) -> Seq<char> {
    if line.len() == 0 {
        line
    } else {
        seq![' ', ' '] + line
    }
}

/// The lines, each indented.
pub open spec fn indented_lines(lines: Seq<Seq<char>>) -> Seq<Seq<char>> {
    Seq::new(lines.len(), |i: int| indented(lines[i]))
}

/// A mapping shown as a block under `key`, or `key: <error>` where the
/// writer gives no text for it.
pub open spec fn mapping_block(key: Seq<char>, v: Tree) -> Seq<char> {
    match yaml_text(v) {
        Some(text) => key + seq![':', '\n'] + join(indented_lines(lines_of(text)), seq!['\n']),
        None => key + ": <error>"@,
    }
}

/// A match shown as text. Null is never cut; a sequence is shown by its
/// YAML text without white space around it, or `<complex>` where the writer
/// gives none.
pub open spec fn result_text(key: Seq<char>, v: Tree, width: int) -> Seq<char> {
    match v {
        Tree::Mapping(_) => mapping_block(key, v),
        Tree::Text(s) => truncated(key + seq![':', ' '] + s, width),
        Tree::Number(n) => truncated(key + seq![':', ' '] + n, width),
        Tree::Bool(b) => truncated(
            key + seq![':', ' '] + if b {
                "true"@
            } else {
                "false"@
            },
            width,
        ),
        Tree::Null => key + seq![':', ' '] + "null"@,
        Tree::Sequence(_) => truncated(
            key + seq![':', ' '] + trim(
                match yaml_text(v) {
                    Some(text) => text,
                    None => "<complex>"@,
                },
            ),
            width,
        ),
    }
}

/// `text` cut to `width` characters (see [`truncated`]).
fn cut(text: &Vec<char>, width: usize) -> (r: String)
    ensures
        r@ == truncated(text@, width as int),
{
    if text.len() > width {
        let keep: usize = if width >= 3 {
            width - 3
        } else {
            0
        };
        let mut out = slice_of(text, 0, keep);
        append_str(&mut out, "...");
        string_of(&out)
    } else {
        string_of(text)
    }
}

/// `text` cut to `terminal_width` characters (see [`truncated`]).
pub fn truncate_if_needed(text: &str, terminal_width: usize) -> (r: String)
    ensures
        r@ == truncated(text@, terminal_width as int),
{
    cut(&chars_of(text), terminal_width)
}

/// `key`, a colon and a space.
fn label(key: &str) -> (r: Vec<char>)
    ensures
        r@ == key@ + seq![':', ' '],
{
    let mut out = chars_of(key);
    out.push(':');
    out.push(' ');
    out
}

/// The mapping `value` shown as a block under `key` (see [`mapping_block`]).
pub fn format_mapping_result(key: &str, value: &Node, _terminal_width: usize) -> (r: String)
    ensures
        r@ == mapping_block(key@, value@),
{
    let text = match to_yaml_string(value) {
        Ok(text) => text,
        Err(_) => {
            let mut out = chars_of(key);
            append_str(&mut out, ": <error>");
            return string_of(&out);
        },
    };
    let lines = split_lines(&chars_of(text.as_str()));
    let mut shifted: Vec<Vec<char>> = Vec::new();
    let mut i: usize = 0;
    while i < lines.len()
        invariant
            i <= lines.len(),
            buffers_view(shifted@) == indented_lines(buffers_view(lines@)).take(i as int),
        decreases lines.len() - i,
    {
        let ghost before = buffers_view(shifted@);
        let mut line: Vec<char> = Vec::new();
        if lines[i].len() > 0 {
            line.push(' ');
            line.push(' ');
            append_chars(&mut line, &lines[i]);
        }
        assert(line@ == indented(lines@[i as int]@));
        shifted.push(line);
        assert(buffers_view(shifted@) == before.push(line@));
        assert(indented_lines(buffers_view(lines@)).take(i + 1) == before.push(line@));
        i += 1;
    }
    assert(indented_lines(buffers_view(lines@)).take(lines.len() as int) == indented_lines(
        buffers_view(lines@),
    ));
    let mut feed: Vec<char> = Vec::new();
    feed.push('\n');
    assert(feed@ == seq!['\n']);
    let mut out = chars_of(key);
    out.push(':');
    out.push('\n');
    append_chars(&mut out, &join_chars(&shifted, &feed));
    string_of(&out)
}

/// The match `key` with its value shown as text for a terminal that is
/// `terminal_width` characters wide (see [`result_text`]).
pub fn format_result(key: &str, value: &Node, terminal_width: usize) -> (r: String)
    ensures
        r@ == result_text(key@, value@, terminal_width as int),
{
    match value {
        Node::Mapping(_) => format_mapping_result(key, value, terminal_width),
        Node::String(s) => {
            let mut out = label(key);
            append_str(&mut out, s.as_str());
            cut(&out, terminal_width)
        },
        Node::Number(n) => {
            let mut out = label(key);
            append_str(&mut out, n.as_str());
            cut(&out, terminal_width)
        },
        Node::Bool(b) => {
            let mut out = label(key);
            if *b {
                append_str(&mut out, "true");
            } else {
                append_str(&mut out, "false");
            }
            cut(&out, terminal_width)
        },
        Node::Null => {
            let mut out = label(key);
            append_str(&mut out, "null");
            string_of(&out)
        },
        Node::Sequence(_) => {
            let text = match to_yaml_string(value) {
                Ok(text) => text,
                Err(_) => "<complex>".to_owned(),
            };
            let mut out = label(key);
            append_chars(&mut out, &trimmed(&chars_of(text.as_str())));
            cut(&out, terminal_width)
        },
    }
}

} // verus!
