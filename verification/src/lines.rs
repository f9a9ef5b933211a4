//! The lines of a YAML text and the key paths they stand for.
//!
//! A line that holds `key:` stands for a path: the key of the line behind
//! the keys of the lines that it is nested in. The nesting is read off the
//! indentation alone. Blank lines and comment lines stand for no path, and
//! neither does a line without a colon.

use crate::text::{
    append_chars, buffers_view, find_char, indent_of, index_of, join, join_chars, leading_spaces,
    slice_of, string_of, trim, trimmed,
};
use vstd::prelude::*;

verus! {

/// Whether a line is blank (nothing but white space) or a comment (its
/// first character after the indentation is `#`).
pub open spec fn is_blank_or_comment(line: Seq<char>) -> bool {
    indent_of(line) >= line.len() || line[indent_of(line)] == '#'
}

/// The key that a line holds: what stands between its indentation and its
/// first colon, without white space around it. A blank line, a comment line
/// and a line without a colon hold no key.
pub open spec fn key_of_line(line: Seq<char>) -> Option<Seq<char>> {
    let start = indent_of(line);
    let colon = index_of(line, ':', start);
    if is_blank_or_comment(line) || colon >= line.len() {
        None
    } else {
        Some(trim(line.subrange(start, colon)))
    }
}

/// The lines that enclose the current one: for each its indentation and its
/// key, the outermost first.
pub type Frames = Seq<(int, Seq<char>)>;

/// The frames that enclose a line of indentation `indent`: those at the top
/// that are indented as much or more are left.
pub open spec fn pop_to(frames: Frames, indent: int) -> Frames
    decreases frames.len(),
{
    if frames.len() > 0 && frames.last().0 >= indent {
        pop_to(frames.drop_last(), indent)
    } else {
        frames
    }
}

/// The keys of the frames, the outermost first.
pub open spec fn frame_keys(frames: Frames) -> Seq<Seq<char>> {
    Seq::new(frames.len(), |i: int| frames[i].1)
}

/// The path of the key `key` inside the frames: the keys of the frames and
/// `key`, with dots between them.
pub open spec fn path_under(frames: Frames, key: Seq<char>) -> Seq<char> {
    if frames.len() == 0 {
        key
    } else {
        join(frame_keys(frames), seq!['.']) + seq!['.'] + key
    }
}

/// The frames after the first `n` lines.
pub open spec fn frames_after(lines: Seq<Seq<char>>, n: int) -> Frames
    decreases n,
{
    if n <= 0 || n > lines.len() {
        Seq::empty()
    } else {
        let before = frames_after(lines, n - 1);
        let line = lines[n - 1];
        match key_of_line(line) {
            Some(key) => pop_to(before, indent_of(line)).push((indent_of(line), key)),
            None => before,
        }
    }
}

/// The path that line `i` stands for.
pub open spec fn path_at(lines: Seq<Seq<char>>, i: int) -> Option<Seq<char>> {
    match key_of_line(lines[i]) {
        Some(key) => Some(path_under(pop_to(frames_after(lines, i), indent_of(lines[i])), key)),
        None => None,
    }
}

/// The path of every line.
pub open spec fn line_paths(lines: Seq<Seq<char>>) -> Seq<Option<Seq<char>>> {
    Seq::new(lines.len(), |i: int| path_at(lines, i))
}

/// The frames of a stack of the executable code.
pub open spec fn frames_view(stack: Seq<(usize, Vec<char>)>) -> Frames {
    Seq::new(stack.len(), |i: int| (stack[i].0 as int, stack[i].1@))
}

/// The paths of a vector of optional strings.
pub open spec fn options_view(v: Seq<Option<String>>) -> Seq<Option<Seq<char>>> {
    Seq::new(
        v.len(),
        |i: int|
            match v[i] {
                Some(s) => Some(s@),
                None => None,
            },
    )
}

/// Whether `line` is blank or a comment.
pub fn is_skippable(line: &Vec<char>) -> (r: bool)
    ensures
        r == is_blank_or_comment(line@),
{
    let start = leading_spaces(line);
    start >= line.len() || line[start] == '#'
}

/// The key that `line` holds.
pub fn line_key(line: &Vec<char>) -> (r: Option<Vec<char>>)
    ensures
        match r {
            Some(key) => key_of_line(line@) == Some(key@),
            None => key_of_line(line@) is None,
        },
{
    if is_skippable(line) {
        return None;
    }
    let start = leading_spaces(line);
    let colon = find_char(line, ':', start);
    if colon >= line.len() {
        return None;
    }
    let raw = slice_of(line, start, colon);
    Some(trimmed(&raw))
}

/// The path of the key `key` inside the frames of `stack`.
fn path_in(stack: &Vec<(usize, Vec<char>)>, key: &Vec<char>) -> (r: Vec<char>)
    ensures
        r@ == path_under(frames_view(stack@), key@),
{
    if stack.len() == 0 {
        return slice_of(key, 0, key.len());
    }
    let mut keys: Vec<Vec<char>> = Vec::new();
    let mut i: usize = 0;
    while i < stack.len()
        invariant
            i <= stack.len(),
            buffers_view(keys@) == frame_keys(frames_view(stack@)).take(i as int),
        decreases stack.len() - i,
    {
        let ghost before = buffers_view(keys@);
        keys.push(slice_of(&stack[i].1, 0, stack[i].1.len()));
        assert(stack@[i as int].1@.subrange(0, stack@[i as int].1@.len() as int)
            == stack@[i as int].1@);
        assert(buffers_view(keys@) == before.push(stack@[i as int].1@));
        assert(frame_keys(frames_view(stack@)).take(i + 1) == before.push(stack@[i as int].1@));
        i += 1;
    }
    assert(frame_keys(frames_view(stack@)).take(stack.len() as int) == frame_keys(
        frames_view(stack@),
    ));
    let mut dot: Vec<char> = Vec::new();
    dot.push('.');
    assert(dot@ == seq!['.']);
    let mut out = join_chars(&keys, &dot);
    out.push('.');
    append_chars(&mut out, key);
    assert(out@ == join(frame_keys(frames_view(stack@)), seq!['.']) + seq!['.'] + key@);
    out
}

/// Leaves the frames that do not enclose a line of indentation `indent`.
fn pop_frames(stack: &mut Vec<(usize, Vec<char>)>, indent: usize)
    ensures
        frames_view(final(stack)@) == pop_to(frames_view(old(stack)@), indent as int),
{
    while stack.len() > 0 && stack[stack.len() - 1].0 >= indent
        invariant
            pop_to(frames_view(stack@), indent as int) == pop_to(
                frames_view(old(stack)@),
                indent as int,
            ),
        decreases stack.len(),
    {
        let ghost before = frames_view(stack@);
        stack.pop();
        assert(frames_view(stack@) == before.drop_last());
    }
}

/// The key path of every line of `lines`; `None` for a line that stands for
/// no path.
pub fn build_line_to_key_map(lines: &Vec<Vec<char>>) -> (r: Vec<Option<String>>)
    ensures
        options_view(r@) == line_paths(buffers_view(lines@)),
{
    let ghost all = buffers_view(lines@);
    let mut out: Vec<Option<String>> = Vec::new();
    let mut stack: Vec<(usize, Vec<char>)> = Vec::new();
    let mut i: usize = 0;
    assert(frames_view(stack@) == frames_after(all, 0));
    while i < lines.len()
        invariant
            i <= lines.len(),
            all == buffers_view(lines@),
            frames_view(stack@) == frames_after(all, i as int),
            options_view(out@) == line_paths(all).take(i as int),
        decreases lines.len() - i,
    {
        let ghost before = options_view(out@);
        assert(all[i as int] == lines@[i as int]@);
        match line_key(&lines[i]) {
            Some(key) => {
                let indent = leading_spaces(&lines[i]);
                pop_frames(&mut stack, indent);
                let path = string_of(&path_in(&stack, &key));
                out.push(Some(path));
                assert(options_view(out@) == before.push(Some(path@)));
                let ghost popped = frames_view(stack@);
                stack.push((indent, key));
                assert(frames_view(stack@) == popped.push((indent as int, key@)));
            },
            None => {
                out.push(None);
                assert(options_view(out@) == before.push(None));
            },
        }
        assert(line_paths(all).take(i + 1) == line_paths(all).take(i as int).push(
            path_at(all, i as int),
        ));
        i += 1;
    }
    assert(line_paths(all).take(lines.len() as int) == line_paths(all));
    out
}

} // verus!
