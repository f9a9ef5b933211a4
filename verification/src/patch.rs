//! Patching the text of a document so that it spells an edited tree.
//!
//! The patcher rewrites the lines that an edit touches and copies every
//! other line as it stands, comments and blank lines included. Where line
//! patching is not enough it falls back on writing the whole tree anew.
//!
//! What is kept around a line that goes: after a removed key every blank
//! line and every comment up to the next line of content is kept, however
//! deep it is indented; after a key whose value is replaced only the blank
//! lines and comments that are indented exactly as the key are kept.

use crate::diff::{
    changed_values, compare, lemma_one_value_changed, lemma_same_changes_nothing,
    lemma_same_patchable, lemma_same_removes_nothing, line_patchable, removed_paths, with_value,
};
use crate::keyed::{lemma_position, lemma_position_is, position};
use crate::lines::{
    build_line_to_key_map, is_blank_or_comment, is_skippable, key_of_line, line_key, line_paths,
    options_view,
};
use crate::path::{path_segments, set_value, tree_set};
use crate::text::{
    append_chars, append_str, buffers_view, chain, chars_of, has_char, has_prefix, indent_of, join,
    join_chars, leading_spaces, lines_of, slice_of, split_lines, starts_with, string_of,
    strings_view, trim, trimmed,
};
use crate::tree::{entries_of, entries_tree, find_entry, tree_eq, well_formed, Node, Tree};
use crate::yaml::{parse_document, to_yaml_string, yaml_document, yaml_text};
use vstd::prelude::*;

verus! {

/// Why no text could be produced.
pub enum Failure {
    /// The original text is no YAML document that the library can hold.
    Parse,
    /// The writer gave no text for the tree.
    Serialize,
    /// A change names the empty path.
    EmptyPath,
}

/// Whether `msg` is a message for the failure `f`. The reader and the writer
/// add their own words to the messages for `Parse` and `Serialize`.
pub open spec fn describes(msg: Seq<char>, f: Failure) -> bool {
    match f {
        Failure::Parse => starts_with(msg, "Failed to parse YAML: "@),
        Failure::Serialize => starts_with(msg, "Failed to serialize YAML: "@),
        Failure::EmptyPath => msg == "Empty key path"@,
    }
}

/// Whether a string scalar has to stand in quotes on a line: if it holds a
/// space or a colon, is empty, or begins with `#`.
pub open spec fn needs_quotes(s: Seq<char>) -> bool {
    s.contains(' ') || s.contains(':') || s.len() == 0 || s[0] == '#'
}

/// The text of a value as it stands behind `key:` on a line. A string is
/// quoted where it has to be, a boolean is `true` or `false`, a number its
/// own text, null is `null`. A sequence or a mapping is the text that the
/// writer gives for it, without white space around it.
pub open spec fn inline_text(v: Tree) -> Seq<char> {
    match v {
        Tree::Text(s) => if needs_quotes(s) {
            seq!['\''] + s + seq!['\'']
        } else {
            s
        },
        Tree::Bool(b) => if b {
            "true"@
        } else {
            "false"@
        },
        Tree::Number(n) => n,
        Tree::Null => "null"@,
        _ => trim(
            match yaml_text(v) {
                Some(text) => text,
                None => Seq::empty(),
            },
        ),
    }
}

/// The line `line` with the value `v` behind its key: the indentation and
/// the key of the line, a colon, and the text of the value after a space;
/// nothing follows the colon where that text is empty.
pub open spec fn replacement(line: Seq<char>, v: Tree) -> Seq<char> {
    let key = match key_of_line(line) {
        Some(key) => key,
        None => Seq::empty(),
    };
    let text = inline_text(v);
    line.take(indent_of(line)) + key + seq![':'] + if text.len() == 0 {
        Seq::empty()
    } else {
        seq![' '] + text
    }
}

/// Whether the removed path `gone` takes `path` with it: `path` is `gone`
/// itself or lies below it.
pub open spec fn covers(gone: Seq<char>, path: Seq<char>) -> bool {
    path == gone || starts_with(path, gone + seq!['.'])
}

/// Whether one of the removed paths takes `path` with it.
pub open spec fn is_removed(path: Seq<char>, removed: Seq<Seq<char>>) -> bool {
    exists|k: int| 0 <= k < removed.len() && covers(#[trigger] removed[k], path)
}

/// What the patcher works on: the lines of the text, the path of each line,
/// the changed paths with their values, and the removed paths.
pub struct Edit {
    pub lines: Seq<Seq<char>>,
    pub paths: Seq<Option<Seq<char>>>,
    pub changes: Seq<(Seq<char>, Tree)>,
    pub removed: Seq<Seq<char>>,
}

/// What the patcher is doing as it comes to a line.
pub enum Mode {
    /// Copying lines.
    Copy,
    /// Dropping the lines below a removed key that is indented by this much.
    SkipRemoved(int),
    /// Dropping the lines below a replaced key that is indented by this much.
    SkipChanged(int),
}

/// What a pass over the lines yields: the lines of the new text, and the
/// changed paths that were found on a line.
pub struct Scan {
    pub lines: Seq<Seq<char>>,
    pub touched: Set<Seq<char>>,
}

/// `rest` with `line` in front.
pub open spec fn keep(line: Seq<char>, rest: Scan) -> Scan {
    Scan { lines: seq![line] + rest.lines, touched: rest.touched }
}

/// The pass over the lines from line `i` on, begun in the mode `mode`.
///
/// While copying, a blank line or a comment is copied, and so is a line
/// whose path is neither removed nor changed. A line whose path is removed
/// is dropped with the lines of content below it; the blank lines and the
/// comments among them stay. A line whose path is changed is replaced, and
/// the lines that spelled its old value are dropped; of the blank lines and
/// comments among them those stay that are indented as the key is. The
/// dropping ends at the first line of content that is indented no deeper
/// than the key, and after a changed key also at a blank line or comment
/// that is indented less.
pub open spec fn scan(e: Edit, i: int, mode: Mode) -> Scan
    decreases e.lines.len() - i, (if mode is Copy { 0int } else { 1int }),
{
    if i < 0 || i >= e.lines.len() {
        Scan { lines: Seq::empty(), touched: Set::empty() }
    } else {
        let line = e.lines[i];
        let here = indent_of(line);
        match mode {
            Mode::Copy => {
                if is_blank_or_comment(line) {
                    keep(line, scan(e, i + 1, Mode::Copy))
                } else {
                    match e.paths[i] {
                        Some(path) => if is_removed(path, e.removed) {
                            scan(e, i + 1, Mode::SkipRemoved(here))
                        } else {
                            match position(e.changes, path) {
                                Some(c) => {
                                    let rest = scan(e, i + 1, Mode::SkipChanged(here));
                                    Scan {
                                        lines: seq![replacement(line, e.changes[c].1)] + rest.lines,
                                        touched: rest.touched.insert(path),
                                    }
                                },
                                None => keep(line, scan(e, i + 1, Mode::Copy)),
                            }
                        },
                        None => keep(line, scan(e, i + 1, Mode::Copy)),
                    }
                }
            },
            Mode::SkipRemoved(indent) => {
                if is_blank_or_comment(line) {
                    keep(line, scan(e, i + 1, mode))
                } else if here <= indent {
                    scan(e, i, Mode::Copy)
                } else {
                    scan(e, i + 1, mode)
                }
            },
            Mode::SkipChanged(indent) => {
                if is_blank_or_comment(line) {
                    if here == indent {
                        keep(line, scan(e, i + 1, mode))
                    } else if here > indent {
                        scan(e, i + 1, mode)
                    } else {
                        scan(e, i, Mode::Copy)
                    }
                } else if here <= indent {
                    scan(e, i, Mode::Copy)
                } else {
                    scan(e, i + 1, mode)
                }
            },
        }
    }
}

/// Whether a changed path that was found on no line lies below the root, so
/// that no line at the end of the text can spell it.
pub open spec fn has_nested_addition(changes: Seq<(Seq<char>, Tree)>, touched: Set<Seq<char>>)
    -> bool {
    exists|c: int|
        0 <= c < changes.len() && !touched.contains((#[trigger] changes[c]).0)
            && changes[c].0.contains('.')
}

/// `lines` with a blank line at the end, unless there is no line or the
/// last one is empty.
pub open spec fn spaced(lines: Seq<Seq<char>>) -> Seq<Seq<char>> {
    if lines.len() > 0 && lines.last().len() > 0 {
        lines.push(Seq::empty())
    } else {
        lines
    }
}

/// `lines` with a line `key: value` for each of the first `k` changes that
/// was found on no line, each after a blank line.
pub open spec fn with_additions(
    lines: Seq<Seq<char>>,
    changes: Seq<(Seq<char>, Tree)>,
    touched: Set<Seq<char>>,
    k: int,
) -> Seq<Seq<char>>
    decreases k,
{
    if k <= 0 || k > changes.len() {
        lines
    } else {
        let before = with_additions(lines, changes, touched, k - 1);
        let change = changes[k - 1];
        if touched.contains(change.0) {
            before
        } else {
            spaced(before).push(change.0 + seq![':', ' '] + inline_text(change.1))
        }
    }
}

/// Whether a text ends in a line feed.
pub open spec fn ends_with_newline(s: Seq<char>) -> bool {
    s.len() > 0 && s.last() == '\n'
}

/// `s` without the line feeds at its end.
pub open spec fn without_final_newlines(s: Seq<char>) -> Seq<char>
    decreases s.len(),
{
    if ends_with_newline(s) {
        without_final_newlines(s.drop_last())
    } else {
        s
    }
}

/// The lines as one text, which ends in a line feed exactly if `content`
/// does. Where `content` ends in one, every line is followed by a line feed,
/// the last one too. Where `content` ends in none, the lines stand with line
/// feeds between them, and the text loses the line feeds that are left at
/// its end when the last lines are empty.
pub open spec fn finished(lines: Seq<Seq<char>>, content: Seq<char>) -> Seq<char> {
    let text = join(lines, seq!['\n']);
    if ends_with_newline(content) {
        text.push('\n')
    } else {
        without_final_newlines(text)
    }
}

/// A text without the line feeds at its end ends in no line feed.
pub proof fn lemma_without_final_newlines(s: Seq<char>)
    ensures
        !ends_with_newline(without_final_newlines(s)),
    decreases s.len(),
{
    if ends_with_newline(s) {
        lemma_without_final_newlines(s.drop_last());
    }
}

/// The finished text ends in a line feed exactly if the text that was
/// patched does.
pub proof fn law_final_newline_mirrored(lines: Seq<Seq<char>>, content: Seq<char>)
    ensures
        ends_with_newline(finished(lines, content)) == ends_with_newline(content),
{
    lemma_without_final_newlines(join(lines, seq!['\n']));
}

/// The tree after the first `n` changes have been set in it, one after the
/// other; none if one of them names the empty path.
pub open spec fn set_changes(t: Tree, changes: Seq<(Seq<char>, Tree)>, n: int) -> Option<Tree>
    decreases n,
{
    if n <= 0 || n > changes.len() {
        Some(t)
    } else {
        match set_changes(t, changes, n - 1) {
            Some(before) => if changes[n - 1].0.len() == 0 {
                None
            } else {
                Some(tree_set(before, path_segments(changes[n - 1].0), changes[n - 1].1))
            },
            None => None,
        }
    }
}

/// The tree that `content` spells with all the changes set in it.
pub open spec fn rebuilt_tree(content: Seq<char>, changes: Seq<(Seq<char>, Tree)>) -> Result<
    Tree,
    Failure,
> {
    match yaml_document(content) {
        Some(t) => match set_changes(t, changes, changes.len() as int) {
            Some(after) => Ok(after),
            None => Err(Failure::EmptyPath),
        },
        None => Err(Failure::Parse),
    }
}

/// The text that the writer gives for a tree.
pub open spec fn written(t: Tree) -> Result<Seq<char>, Failure> {
    match yaml_text(t) {
        Some(text) => Ok(text),
        None => Err(Failure::Serialize),
    }
}

/// The text `content` patched with the changes and the removals.
///
/// The lines are passed over once (see [`scan`]). A changed path that was
/// found on no line is a new key. New keys of the root are appended as new
/// lines. If there is a new key below the root, line patching is given up:
/// the result is the text that the writer gives for the tree of `content`
/// with all the changes set in it.
pub open spec fn patched_text(
    content: Seq<char>,
    changes: Seq<(Seq<char>, Tree)>,
    removed: Seq<Seq<char>>,
) -> Result<Seq<char>, Failure> {
    let lines = lines_of(content);
    let e = Edit { lines, paths: line_paths(lines), changes, removed };
    let pass = scan(e, 0, Mode::Copy);
    if has_nested_addition(changes, pass.touched) {
        match rebuilt_tree(content, changes) {
            Ok(t) => written(t),
            Err(f) => Err(f),
        }
    } else {
        Ok(
            finished(
                with_additions(pass.lines, changes, pass.touched, changes.len() as int),
                content,
            ),
        )
    }
}

/// The text of the document `original` after the edit that made its tree
/// `updated`.
///
/// An edit that cannot be made line by line yields the text that the writer
/// gives for `updated`. An edit that changes nothing yields `original` as it
/// is. Every other edit yields the patched text.
pub open spec fn preserved_text(original: Seq<char>, updated: Tree) -> Result<
    Seq<char>,
    Failure,
> {
    match yaml_document(original) {
        None => Err(Failure::Parse),
        Some(t) => if !line_patchable(t, updated) {
            written(updated)
        } else if changed_values(t, updated).len() == 0 && removed_paths(
            t,
            updated,
            Seq::empty(),
        ).len() == 0 {
            Ok(original)
        } else {
            patched_text(
                original,
                changed_values(t, updated),
                removed_paths(t, updated, Seq::empty()),
            )
        },
    }
}

/// Where the text is patched line by line, the patched text ends in a line
/// feed exactly if the text that was patched does.
pub proof fn law_patched_text_mirrors_final_newline(
    content: Seq<char>,
    changes: Seq<(Seq<char>, Tree)>,
    removed: Seq<Seq<char>>,
)
    requires
        !has_nested_addition(
            changes,
            scan(
                Edit {
                    lines: lines_of(content),
                    paths: line_paths(lines_of(content)),
                    changes,
                    removed,
                },
                0,
                Mode::Copy,
            ).touched,
        ),
    ensures
        patched_text(content, changes, removed) matches Ok(text) && ends_with_newline(text)
            == ends_with_newline(content),
{
    let lines = lines_of(content);
    let e = Edit { lines, paths: line_paths(lines), changes, removed };
    let pass = scan(e, 0, Mode::Copy);
    law_final_newline_mirrored(
        with_additions(pass.lines, changes, pass.touched, changes.len() as int),
        content,
    );
}

/// Whether line `k` is one that the pass copies as it stands: its path, if
/// it has one, is neither removed nor changed.
pub open spec fn left_alone(e: Edit, k: int) -> bool {
    match e.paths[k] {
        Some(path) => !is_removed(path, e.removed) && position(e.changes, path) is None,
        None => true,
    }
}

/// Whether the value of a key that is indented by `indent` ends on the
/// key's own line: from line `j` on, up to the next line of content, there
/// is no line that belongs to the value, and the next line of content is
/// indented no deeper than the key. Blank lines and comments in between are
/// indented as the key is, except that one that is indented less ends the
/// run.
pub open spec fn value_ends(lines: Seq<Seq<char>>, j: int, indent: int) -> bool
    decreases lines.len() - j,
{
    if j < 0 || j >= lines.len() {
        true
    } else if is_blank_or_comment(lines[j]) {
        if indent_of(lines[j]) == indent {
            value_ends(lines, j + 1, indent)
        } else {
            indent_of(lines[j]) < indent
        }
    } else {
        indent_of(lines[j]) <= indent
    }
}

/// Lines that are left alone are copied: from line `j` on the pass gives the
/// lines as they are, and finds no changed path.
pub proof fn lemma_scan_copies(e: Edit, j: int)
    requires
        0 <= j <= e.lines.len(),
        e.paths.len() == e.lines.len(),
        forall|k: int| j <= k < e.lines.len() ==> left_alone(e, k),
    ensures
        scan(e, j, Mode::Copy).lines == e.lines.skip(j),
        scan(e, j, Mode::Copy).touched == Set::<Seq<char>>::empty(),
    decreases e.lines.len() - j,
{
    if j < e.lines.len() {
        lemma_scan_copies(e, j + 1);
        assert(left_alone(e, j));
        assert(e.lines.skip(j) == seq![e.lines[j]] + e.lines.skip(j + 1));
    } else {
        assert(e.lines.skip(j) == Seq::<Seq<char>>::empty());
    }
}

/// Behind a replaced key whose value ends on its own line nothing is
/// dropped: the pass gives the lines as they are.
pub proof fn lemma_scan_drops_nothing(e: Edit, j: int, indent: int)
    requires
        0 <= j <= e.lines.len(),
        e.paths.len() == e.lines.len(),
        forall|k: int| j <= k < e.lines.len() ==> left_alone(e, k),
        value_ends(e.lines, j, indent),
    ensures
        scan(e, j, Mode::SkipChanged(indent)).lines == e.lines.skip(j),
        scan(e, j, Mode::SkipChanged(indent)).touched == Set::<Seq<char>>::empty(),
    decreases e.lines.len() - j,
{
    lemma_scan_copies(e, j);
    if j < e.lines.len() {
        let line = e.lines[j];
        if is_blank_or_comment(line) && indent_of(line) == indent {
            lemma_scan_drops_nothing(e, j + 1, indent);
            assert(e.lines.skip(j) == seq![line] + e.lines.skip(j + 1));
        }
    }
}

/// Where one line holds a changed path, its value ends on that line, and
/// every other line is left alone, the pass from line `j` on gives the lines
/// as they are but for that line, which is replaced.
pub proof fn lemma_scan_replaces_one(e: Edit, j: int, i: int, c: int)
    requires
        0 <= j <= i < e.lines.len(),
        e.paths.len() == e.lines.len(),
        forall|k: int| 0 <= k < e.lines.len() && k != i ==> left_alone(e, k),
        !is_blank_or_comment(e.lines[i]),
        e.paths[i] matches Some(path) && !is_removed(path, e.removed) && position(
            e.changes,
            path,
        ) == Some(c),
        value_ends(e.lines, i + 1, indent_of(e.lines[i])),
    ensures
        scan(e, j, Mode::Copy).lines == e.lines.update(
            i,
            replacement(e.lines[i], e.changes[c].1),
        ).skip(j),
        scan(e, j, Mode::Copy).touched == Set::<Seq<char>>::empty().insert(e.paths[i]->Some_0),
    decreases i - j,
{
    let fresh = replacement(e.lines[i], e.changes[c].1);
    let after = e.lines.update(i, fresh);
    if j < i {
        lemma_scan_replaces_one(e, j + 1, i, c);
        assert(left_alone(e, j));
        assert(after.skip(j) == seq![e.lines[j]] + after.skip(j + 1));
    } else {
        lemma_scan_drops_nothing(e, i + 1, indent_of(e.lines[i]));
        assert(after.skip(i) == seq![fresh] + e.lines.skip(i + 1));
    }
}

/// A change of one value that stands on one line rewrites that line and no
/// other: where `path` is the path of line `i` alone, and the value of that
/// key ends on its line, the text patched with the one change of `path` to
/// `v` has the lines of `content`, each in its place and as it was, but for
/// line `i`, which holds the key with the new value.
pub proof fn law_one_change_rewrites_one_line(
    content: Seq<char>,
    path: Seq<char>,
    v: Tree,
    i: int,
)
    requires
        0 <= i < lines_of(content).len(),
        forall|k: int|
            0 <= k < lines_of(content).len() ==> (#[trigger] line_paths(lines_of(content))[k]
                == Some(path) <==> k == i),
        value_ends(lines_of(content), i + 1, indent_of(lines_of(content)[i])),
    ensures
        patched_text(content, seq![(path, v)], Seq::empty()) == Ok::<_, Failure>(
            finished(
                lines_of(content).update(i, replacement(lines_of(content)[i], v)),
                content,
            ),
        ),
{
    let lines = lines_of(content);
    let changes = seq![(path, v)];
    let removed = Seq::<Seq<char>>::empty();
    let e = Edit { lines, paths: line_paths(lines), changes, removed };
    lemma_position_is(changes, path, 0);
    assert(line_paths(lines)[i] == Some(path));
    assert(key_of_line(lines[i]) is Some);
    assert forall|k: int| 0 <= k < lines.len() && k != i implies left_alone(e, k) by {
        match e.paths[k] {
            Some(other) => {
                assert(line_paths(lines)[k] != Some(path));
                lemma_position(changes, other);
            },
            None => {},
        }
    }
    lemma_scan_replaces_one(e, 0, i, 0);
    let pass = scan(e, 0, Mode::Copy);
    let after = lines.update(i, replacement(lines[i], v));
    assert(after.skip(0) == after);
    assert(pass.touched.contains(path));
    assert(!has_nested_addition(changes, pass.touched));
    assert(with_additions(pass.lines, changes, pass.touched, 1) == pass.lines) by {
        assert(with_additions(pass.lines, changes, pass.touched, 0) == pass.lines);
    }
}

/// A new value for one key of the root rewrites the line of that key and no
/// other line. The document is a well-formed mapping; its entry `at` gets
/// the value `v`, which differs from the value it had, and neither of the
/// two values is a mapping. Where the key is the path of line `i` alone, and
/// its value ends on that line, the new text has every line of the old text
/// in its place and as it was, but for line `i`, which holds the key with
/// the new value.
pub proof fn law_new_root_value_rewrites_one_line(
    content: Seq<char>,
    entries: Seq<(Seq<char>, Tree)>,
    at: int,
    v: Tree,
    i: int,
)
    requires
        yaml_document(content) == Some(Tree::Mapping(entries)),
        well_formed(Tree::Mapping(entries)),
        0 <= at < entries.len(),
        !(entries[at].1 is Mapping),
        !(v is Mapping),
        !tree_eq(entries[at].1, v),
        0 <= i < lines_of(content).len(),
        forall|k: int|
            0 <= k < lines_of(content).len() ==> (#[trigger] line_paths(lines_of(content))[k]
                == Some(entries[at].0) <==> k == i),
        value_ends(lines_of(content), i + 1, indent_of(lines_of(content)[i])),
    ensures
        preserved_text(content, with_value(entries, at, v)) == Ok::<_, Failure>(
            finished(
                lines_of(content).update(i, replacement(lines_of(content)[i], v)),
                content,
            ),
        ),
{
    lemma_one_value_changed(entries, at, v);
    law_one_change_rewrites_one_line(content, entries[at].0, v, i);
}

/// An edit that changes nothing leaves the text as it is, character for
/// character: the text of a document, patched for the tree that the text
/// itself spells, is that text.
pub proof fn law_unchanged_text(text: Seq<char>, t: Tree)
    requires
        yaml_document(text) == Some(t),
        well_formed(t),
    ensures
        preserved_text(text, t) == Ok::<_, Failure>(text),
{
    lemma_same_patchable(t);
    lemma_same_changes_nothing(Seq::empty(), t, Seq::empty());
    lemma_same_removes_nothing(t, Seq::empty(), entries_of(t).len() as int);
}

/// The message `prefix` followed by `detail`.
fn failure_message(prefix: &str, detail: &str) -> (r: String)
    ensures
        starts_with(r@, prefix@),
{
    let r = chain(prefix, detail);
    assert(r@.take(prefix@.len() as int) == prefix@);
    r
}

/// The text of `value` as it stands behind `key:` on a line (see
/// [`inline_text`]).
pub fn format_value_for_yaml(value: &Node) -> (r: String)
    ensures
        r@ == inline_text(value@),
{
    match value {
        Node::String(s) => {
            let chars = chars_of(s.as_str());
            if has_char(&chars, ' ') || has_char(&chars, ':') || chars.len() == 0 || chars[0]
                == '#' {
                let mut quoted: Vec<char> = Vec::new();
                quoted.push('\'');
                append_chars(&mut quoted, &chars);
                quoted.push('\'');
                assert(quoted@ == seq!['\''] + s@ + seq!['\'']);
                string_of(&quoted)
            } else {
                s.clone()
            }
        },
        Node::Bool(b) => if *b {
            "true".to_owned()
        } else {
            "false".to_owned()
        },
        Node::Number(n) => n.clone(),
        Node::Null => "null".to_owned(),
        _ => {
            let text = match to_yaml_string(value) {
                Ok(text) => text,
                Err(_) => String::new(),
            };
            string_of(&trimmed(&chars_of(text.as_str())))
        },
    }
}

/// The line `line`, which holds a key, with `value` behind the key.
fn replacement_line(line: &Vec<char>, value: &Node) -> (r: Vec<char>)
    requires
        key_of_line(line@) is Some,
    ensures
        r@ == replacement(line@, value@),
{
    let indent = leading_spaces(line);
    let mut out = slice_of(line, 0, indent);
    match line_key(line) {
        Some(key) => {
            append_chars(&mut out, &key);
        },
        None => {},
    }
    out.push(':');
    let text = format_value_for_yaml(value);
    if text.as_str().unicode_len() > 0 {
        out.push(' ');
        append_str(&mut out, text.as_str());
    }
    assert(out@ == replacement(line@, value@));
    out
}

/// Whether one of the removed paths takes `path` with it.
fn is_removed_path(path: &String, removed: &Vec<String>) -> (r: bool)
    ensures
        r == is_removed(path@, strings_view(removed@)),
{
    let chars = chars_of(path.as_str());
    let mut k: usize = 0;
    while k < removed.len()
        invariant
            k <= removed.len(),
            chars@ == path@,
            forall|j: int| 0 <= j < k ==> !covers(#[trigger] strings_view(removed@)[j], path@),
        decreases removed.len() - k,
    {
        let mut below = chars_of(removed[k].as_str());
        below.push('.');
        assert(below@ == removed@[k as int]@ + seq!['.']);
        assert(strings_view(removed@)[k as int] == removed@[k as int]@);
        if removed[k] == *path || has_prefix(&chars, &below) {
            assert(covers(strings_view(removed@)[k as int], path@));
            return true;
        }
        k += 1;
    }
    false
}

/// Whether `key` is among `seen`.
fn is_among(seen: &Vec<String>, key: &String) -> (r: bool)
    ensures
        r == strings_view(seen@).contains(key@),
{
    let mut k: usize = 0;
    while k < seen.len()
        invariant
            k <= seen.len(),
            forall|j: int| 0 <= j < k ==> #[trigger] strings_view(seen@)[j] != key@,
        decreases seen.len() - k,
    {
        if seen[k] == *key {
            assert(strings_view(seen@)[k as int] == key@);
            return true;
        }
        k += 1;
    }
    false
}

/// What the pass over the lines is doing, with the indentation as a
/// machine integer.
enum Phase {
    Copy,
    SkipRemoved(usize),
    SkipChanged(usize),
}

/// The mode that a phase stands for.
spec fn mode_of(phase: Phase) -> Mode {
    match phase {
        Phase::Copy => Mode::Copy,
        Phase::SkipRemoved(indent) => Mode::SkipRemoved(indent as int),
        Phase::SkipChanged(indent) => Mode::SkipChanged(indent as int),
    }
}

/// The paths that `touched` lists, as a set.
pub open spec fn touched_set(touched: Seq<String>) -> Set<Seq<char>> {
    Set::new(|p: Seq<char>| strings_view(touched).contains(p))
}

/// Passes over the lines (see [`scan`]): returns the lines of the new text
/// and the changed paths that were found on a line.
fn scan_lines(
    lines: &Vec<Vec<char>>,
    paths: &Vec<Option<String>>,
    changes: &Vec<(String, Node)>,
    removed: &Vec<String>,
) -> (r: (Vec<Vec<char>>, Vec<String>))
    requires
        options_view(paths@) == line_paths(buffers_view(lines@)),
    ensures
        ({
            let e = Edit {
                lines: buffers_view(lines@),
                paths: options_view(paths@),
                changes: entries_tree(changes@),
                removed: strings_view(removed@),
            };
            &&& buffers_view(r.0@) == scan(e, 0, Mode::Copy).lines
            &&& touched_set(r.1@) == scan(e, 0, Mode::Copy).touched
        }),
{
    let ghost e = Edit {
        lines: buffers_view(lines@),
        paths: options_view(paths@),
        changes: entries_tree(changes@),
        removed: strings_view(removed@),
    };
    let ghost total = scan(e, 0, Mode::Copy);
    let mut out: Vec<Vec<char>> = Vec::new();
    let mut touched: Vec<String> = Vec::new();
    let mut phase = Phase::Copy;
    let mut i: usize = 0;
    assert(buffers_view(out@) + total.lines == total.lines);
    assert(paths@.len() == lines@.len()) by {
        assert(options_view(paths@).len() == paths@.len());
        assert(line_paths(buffers_view(lines@)).len() == buffers_view(lines@).len());
        assert(buffers_view(lines@).len() == lines@.len());
    }
    while i < lines.len()
        invariant
            i <= lines.len(),
            paths@.len() == lines@.len(),
            options_view(paths@) == line_paths(buffers_view(lines@)),
            e.lines == buffers_view(lines@),
            e.paths == options_view(paths@),
            e.changes == entries_tree(changes@),
            e.removed == strings_view(removed@),
            total == scan(e, 0, Mode::Copy),
            buffers_view(out@) + scan(e, i as int, mode_of(phase)).lines == total.lines,
            forall|p: Seq<char>|
                total.touched.contains(p) <==> (strings_view(touched@).contains(p) || scan(
                    e,
                    i as int,
                    mode_of(phase),
                ).touched.contains(p)),
        decreases lines.len() - i, (if phase is Copy { 0int } else { 1int }),
    {
        let line = &lines[i];
        let ghost now = scan(e, i as int, mode_of(phase));
        let ghost kept = buffers_view(out@);
        let ghost seen = strings_view(touched@);
        assert(e.lines[i as int] == line@);
        let here = leading_spaces(line);
        let blank = is_skippable(line);
        match phase {
            Phase::Copy => {
                let mut copy = true;
                if !blank {
                    match &paths[i] {
                        Some(path) => {
                            assert(e.paths[i as int] == Some(path@));
                            assert(key_of_line(line@) is Some) by {
                                assert(line_paths(buffers_view(lines@))[i as int] is Some);
                            }
                            if is_removed_path(path, removed) {
                                phase = Phase::SkipRemoved(here);
                                copy = false;
                            } else {
                                match find_entry(changes, path) {
                                    Some(c) => {
                                        let fresh = replacement_line(line, &changes[c].1);
                                        out.push(fresh);
                                        touched.push(path.clone());
                                        phase = Phase::SkipChanged(here);
                                        copy = false;
                                        proof {
                                            let rest = scan(e, i + 1, mode_of(phase));
                                            assert(e.changes[c as int].1 == changes@[c as int].1@);
                                            assert(buffers_view(out@) == kept.push(fresh@));
                                            assert(now.lines == seq![fresh@] + rest.lines);
                                            assert(kept.push(fresh@) + rest.lines == kept + (
                                            seq![fresh@] + rest.lines));
                                            assert(strings_view(touched@) == seen.push(path@));
                                            assert forall|p: Seq<char>|
                                                total.touched.contains(p) <==> (strings_view(
                                                    touched@,
                                                ).contains(p) || rest.touched.contains(p)) by {
                                                if seen.contains(p) {
                                                    let j = choose|j: int|
                                                        0 <= j < seen.len() && seen[j] == p;
                                                    assert(seen.push(path@)[j] == p);
                                                }
                                                assert(seen.push(path@)[seen.len() as int]
                                                    == path@);
                                            }
                                        }
                                    },
                                    None => {},
                                }
                            }
                        },
                        None => {
                            assert(e.paths[i as int] is None);
                        },
                    }
                }
                if copy {
                    out.push(slice_of(line, 0, line.len()));
                    proof {
                        let rest = scan(e, i + 1, Mode::Copy);
                        assert(line@.subrange(0, line@.len() as int) == line@);
                        assert(buffers_view(out@) == kept.push(line@));
                        assert(now.lines == seq![line@] + rest.lines);
                        assert(kept.push(line@) + rest.lines == kept + (seq![line@] + rest.lines));
                    }
                }
                i += 1;
            },
            Phase::SkipRemoved(indent) => {
                if blank {
                    out.push(slice_of(line, 0, line.len()));
                    proof {
                        let rest = scan(e, i + 1, mode_of(phase));
                        assert(line@.subrange(0, line@.len() as int) == line@);
                        assert(buffers_view(out@) == kept.push(line@));
                        assert(now.lines == seq![line@] + rest.lines);
                        assert(kept.push(line@) + rest.lines == kept + (seq![line@] + rest.lines));
                    }
                    i += 1;
                } else if here <= indent {
                    phase = Phase::Copy;
                } else {
                    i += 1;
                }
            },
            Phase::SkipChanged(indent) => {
                if blank && here == indent {
                    out.push(slice_of(line, 0, line.len()));
                    proof {
                        let rest = scan(e, i + 1, mode_of(phase));
                        assert(line@.subrange(0, line@.len() as int) == line@);
                        assert(buffers_view(out@) == kept.push(line@));
                        assert(now.lines == seq![line@] + rest.lines);
                        assert(kept.push(line@) + rest.lines == kept + (seq![line@] + rest.lines));
                    }
                    i += 1;
                } else if here > indent {
                    i += 1;
                } else {
                    phase = Phase::Copy;
                }
            },
        }
    }
    proof {
        assert(buffers_view(out@) + Seq::<Seq<char>>::empty() == buffers_view(out@));
        assert(touched_set(touched@) =~= total.touched);
    }
    (out, touched)
}

/// Whether a change that was found on no line names a path below the root.
fn nested_addition(changes: &Vec<(String, Node)>, touched: &Vec<String>) -> (r: bool)
    ensures
        r == has_nested_addition(entries_tree(changes@), touched_set(touched@)),
{
    let mut c: usize = 0;
    while c < changes.len()
        invariant
            c <= changes.len(),
            forall|j: int|
                0 <= j < c ==> !(!touched_set(touched@).contains(
                    (#[trigger] entries_tree(changes@)[j]).0,
                ) && entries_tree(changes@)[j].0.contains('.')),
        decreases changes.len() - c,
    {
        let path = chars_of(changes[c].0.as_str());
        if !is_among(touched, &changes[c].0) && has_char(&path, '.') {
            assert(!touched_set(touched@).contains(entries_tree(changes@)[c as int].0));
            return true;
        }
        c += 1;
    }
    false
}

/// Appends a line `key: value` for each change that was found on no line.
fn append_additions(
    out: &mut Vec<Vec<char>>,
    changes: &Vec<(String, Node)>,
    touched: &Vec<String>,
)
    ensures
        buffers_view(final(out)@) == with_additions(
            buffers_view(old(out)@),
            entries_tree(changes@),
            touched_set(touched@),
            changes@.len() as int,
        ),
{
    let ghost start = buffers_view(out@);
    let ghost all = entries_tree(changes@);
    let ghost seen = touched_set(touched@);
    let mut c: usize = 0;
    while c < changes.len()
        invariant
            c <= changes.len(),
            all == entries_tree(changes@),
            seen == touched_set(touched@),
            buffers_view(out@) == with_additions(start, all, seen, c as int),
        decreases changes.len() - c,
    {
        if !is_among(touched, &changes[c].0) {
            let ghost before = buffers_view(out@);
            if out.len() > 0 && out[out.len() - 1].len() > 0 {
                out.push(Vec::new());
                assert(buffers_view(out@) == before.push(Seq::empty()));
            }
            assert(buffers_view(out@) == spaced(before));
            let mut line = chars_of(changes[c].0.as_str());
            line.push(':');
            line.push(' ');
            append_str(&mut line, format_value_for_yaml(&changes[c].1).as_str());
            assert(line@ == all[c as int].0 + seq![':', ' '] + inline_text(all[c as int].1));
            out.push(line);
            assert(buffers_view(out@) == spaced(before).push(line@));
        }
        c += 1;
    }
}

/// Puts the lines together (see [`finished`]).
fn finish_text(lines: &Vec<Vec<char>>, content: &Vec<char>) -> (r: String)
    ensures
        r@ == finished(buffers_view(lines@), content@),
{
    let mut feed: Vec<char> = Vec::new();
    feed.push('\n');
    assert(feed@ == seq!['\n']);
    let mut text = join_chars(lines, &feed);
    let ghost joined = text@;
    let wanted = content.len() > 0 && content[content.len() - 1] == '\n';
    if !wanted {
        while text.len() > 0 && text[text.len() - 1] == '\n'
            invariant
                without_final_newlines(text@) == without_final_newlines(joined),
            decreases text.len(),
        {
            let ghost before = text@;
            text.pop();
            assert(text@ == before.drop_last());
        }
    } else {
        text.push('\n');
    }
    string_of(&text)
}

/// The tree that `content` spells with all the changes set in it.
pub fn build_yaml_from_changes(content: &str, changes: &Vec<(String, Node)>) -> (r: Result<
    Node,
    String,
>)
    ensures
        match r {
            Ok(tree) => rebuilt_tree(content@, entries_tree(changes@)) == Ok::<_, Failure>(tree@),
            Err(msg) => rebuilt_tree(content@, entries_tree(changes@)) matches Err(f) && describes(
                msg@,
                f,
            ),
        },
{
    let mut tree = match parse_document(content) {
        Ok(tree) => tree,
        Err(detail) => {
            return Err(failure_message("Failed to parse YAML: ", detail.as_str()));
        },
    };
    let ghost start = tree@;
    let ghost all = entries_tree(changes@);
    let mut c: usize = 0;
    while c < changes.len()
        invariant
            c <= changes.len(),
            all == entries_tree(changes@),
            yaml_document(content@) == Some(start),
            set_changes(start, all, c as int) == Some(tree@),
        decreases changes.len() - c,
    {
        match set_value(&mut tree, changes[c].0.as_str(), &changes[c].1) {
            Ok(_) => {},
            Err(msg) => {
                proof {
                    lemma_set_changes_fails(start, all, c as int + 1, changes.len() as int);
                }
                return Err(msg);
            },
        }
        c += 1;
    }
    Ok(tree)
}

/// Once a change could not be set, no longer run of changes can be.
proof fn lemma_set_changes_fails(t: Tree, changes: Seq<(Seq<char>, Tree)>, n: int, m: int)
    requires
        0 <= n <= m <= changes.len(),
        set_changes(t, changes, n) is None,
    ensures
        set_changes(t, changes, m) is None,
    decreases m - n,
{
    if n < m {
        lemma_set_changes_fails(t, changes, n, m - 1);
    }
}

/// Writes `tree` as YAML for a result of the patcher.
fn write_tree(tree: &Node) -> (r: Result<String, String>)
    ensures
        match r {
            Ok(text) => written(tree@) == Ok::<_, Failure>(text@),
            Err(msg) => written(tree@) matches Err(f) && describes(msg@, f),
        },
{
    match to_yaml_string(tree) {
        Ok(text) => Ok(text),
        Err(detail) => Err(failure_message("Failed to serialize YAML: ", detail.as_str())),
    }
}

/// Patches the text `content` with the changes and the removals (see
/// [`patched_text`]).
pub fn apply_changes_to_content(
    content: &str,
    changes: &Vec<(String, Node)>,
    removed_keys: &Vec<String>,
) -> (r: Result<String, String>)
    ensures
        match r {
            Ok(text) => patched_text(
                content@,
                entries_tree(changes@),
                strings_view(removed_keys@),
            ) == Ok::<_, Failure>(text@),
            Err(msg) => patched_text(
                content@,
                entries_tree(changes@),
                strings_view(removed_keys@),
            ) matches Err(f) && describes(msg@, f),
        },
{
    let chars = chars_of(content);
    let lines = split_lines(&chars);
    let paths = build_line_to_key_map(&lines);
    let (mut out, touched) = scan_lines(&lines, &paths, changes, removed_keys);
    if nested_addition(changes, &touched) {
        return match build_yaml_from_changes(content, changes) {
            Ok(tree) => write_tree(&tree),
            Err(msg) => Err(msg),
        };
    }
    append_additions(&mut out, changes, &touched);
    Ok(finish_text(&out, &chars))
}

/// The text of the document `original_content` after the edit that made its
/// tree `updated_value`: comments, blank lines, the order of the keys and
/// the indentation stay as they are wherever the edit can be made line by
/// line (see [`preserved_text`]).
pub fn write_yaml_preserving_format(original_content: &str, updated_value: &Node) -> (r: Result<
    String,
    String,
>)
    ensures
        match r {
            Ok(text) => preserved_text(original_content@, updated_value@) == Ok::<_, Failure>(
                text@,
            ),
            Err(msg) => preserved_text(original_content@, updated_value@) matches Err(f)
                && describes(msg@, f),
        },
{
    let original_value = match parse_document(original_content) {
        Ok(tree) => tree,
        Err(detail) => {
            return Err(failure_message("Failed to parse YAML: ", detail.as_str()));
        },
    };
    let difference = compare(&original_value, updated_value);
    if !difference.patchable {
        return write_tree(updated_value);
    }
    if difference.changes.len() == 0 && difference.removed.len() == 0 {
        assert(entries_tree(difference.changes@).len() == 0);
        assert(strings_view(difference.removed@).len() == 0);
        return Ok(original_content.to_owned());
    }
    assert(entries_tree(difference.changes@).len() == difference.changes@.len());
    assert(strings_view(difference.removed@).len() == difference.removed@.len());
    apply_changes_to_content(original_content, &difference.changes, &difference.removed)
}

} // verus!
