//! What the commands of the tool compute.
//!
//! The program reads and writes the files; the functions here take the texts
//! that were read and give the texts to write. An edit of a text goes
//! through the patcher, so that the layout of the text is kept.

use crate::display::{format_result, result_text};
use crate::patch::{describes, preserved_text, write_yaml_preserving_format, Failure};
use crate::path::{
    first_empty, get_value, path_segments, set_all, set_value, set_values, tree_get, tree_set,
    tree_unset, unset_all, unset_values, update_paths,
};
use crate::text::{append_str, chain, chars_of, same_chars, starts_with, string_of, strings_view};
use crate::tree::{entries_tree, lemma_mapping_tree, Node, Tree};
use crate::updates::Updates;
use crate::yaml::{parse_document, to_yaml_string, yaml_document, yaml_text};
use vstd::prelude::*;

verus! {

/// The text `contents` after the updates of a `set` command: the document
/// is read, the updates are made in their order, and the text is patched
/// for the new tree.
pub open spec fn set_text(contents: Seq<char>, updates: Seq<(Seq<char>, Seq<char>)>) -> Result<
    Seq<char>,
    Failure,
> {
    match yaml_document(contents) {
        None => Err(Failure::Parse),
        Some(t) => if first_empty(update_paths(updates), 0) < updates.len() {
            Err(Failure::EmptyPath)
        } else {
            preserved_text(contents, set_all(t, updates, updates.len() as int))
        },
    }
}

/// The text `contents` after the removals of an `unset` command.
pub open spec fn unset_text(contents: Seq<char>, keys: Seq<Seq<char>>) -> Result<
    Seq<char>,
    Failure,
> {
    match yaml_document(contents) {
        None => Err(Failure::Parse),
        Some(t) => if first_empty(keys, 0) < keys.len() {
            Err(Failure::EmptyPath)
        } else {
            preserved_text(contents, unset_all(t, keys, keys.len() as int))
        },
    }
}

/// Why a value could not be copied or moved.
pub enum TransferFailure {
    /// The source is no YAML document that the library can hold.
    ParseSource,
    /// The source key or the destination key is the empty path.
    EmptyPath,
    /// The source key leads to nothing.
    NotFound,
    /// The destination is no YAML document that the library can hold.
    ParseDestination,
    /// The text of the edited document could not be produced.
    Preserve,
    /// The writer gave no text for the new document.
    Serialize,
}

/// Whether `msg` is a message for the failure `f` of a transfer from
/// `source_key` in the file `source_file` to the file `dest_file`. The
/// reader and the writer add their own words at the end of some messages.
pub open spec fn transfer_message(
    msg: Seq<char>,
    f: TransferFailure,
    source_file: Seq<char>,
    source_key: Seq<char>,
    dest_file: Seq<char>,
) -> bool {
    match f {
        TransferFailure::ParseSource => starts_with(
            msg,
            "Failed to parse YAML from '"@ + source_file + "': "@,
        ),
        TransferFailure::EmptyPath => msg == "Empty key path"@,
        TransferFailure::NotFound => msg == "Key '"@ + source_key + "' not found in '"@
            + source_file + "'"@,
        TransferFailure::ParseDestination => starts_with(
            msg,
            "Failed to parse YAML from '"@ + dest_file + "': "@,
        ),
        TransferFailure::Preserve => starts_with(msg, "Failed to preserve YAML format: "@),
        TransferFailure::Serialize => starts_with(msg, "Failed to serialize YAML: "@),
    }
}

/// The value at `key` in the document that `contents` spells.
pub open spec fn source_value(contents: Seq<char>, key: Seq<char>) -> Result<
    Tree,
    TransferFailure,
> {
    match yaml_document(contents) {
        None => Err(TransferFailure::ParseSource),
        Some(t) => if key.len() == 0 {
            Err(TransferFailure::EmptyPath)
        } else {
            match tree_get(t, path_segments(key)) {
                Some(v) => Ok(v),
                None => Err(TransferFailure::NotFound),
            }
        },
    }
}

/// The text of the destination with `v` at `key`. A destination that
/// exists is patched; for one that does not exist yet the text is the one
/// that the writer gives for a mapping that holds nothing but the value.
pub open spec fn destination_text(dest: Option<Seq<char>>, key: Seq<char>, v: Tree) -> Result<
    Seq<char>,
    TransferFailure,
> {
    match dest {
        Some(contents) => match yaml_document(contents) {
            None => Err(TransferFailure::ParseDestination),
            Some(t) => if key.len() == 0 {
                Err(TransferFailure::EmptyPath)
            } else {
                match preserved_text(contents, tree_set(t, path_segments(key), v)) {
                    Ok(text) => Ok(text),
                    Err(_) => Err(TransferFailure::Preserve),
                }
            },
        },
        None => if key.len() == 0 {
            Err(TransferFailure::EmptyPath)
        } else {
            match yaml_text(tree_set(Tree::Mapping(Seq::empty()), path_segments(key), v)) {
                Some(text) => Ok(text),
                None => Err(TransferFailure::Serialize),
            }
        },
    }
}

/// The text of the destination after the value at `source_key` of the
/// source has been copied to `dest_key`. `dest` is the text of the
/// destination, if it exists.
pub open spec fn copied_text(
    source: Seq<char>,
    source_key: Seq<char>,
    dest: Option<Seq<char>>,
    dest_key: Seq<char>,
) -> Result<Seq<char>, TransferFailure> {
    match source_value(source, source_key) {
        Ok(v) => destination_text(dest, dest_key, v),
        Err(f) => Err(f),
    }
}

/// The text `contents` without the entry at `key`.
pub open spec fn text_without(contents: Seq<char>, key: Seq<char>) -> Result<
    Seq<char>,
    TransferFailure,
> {
    match yaml_document(contents) {
        None => Err(TransferFailure::ParseSource),
        Some(t) => if key.len() == 0 {
            Err(TransferFailure::EmptyPath)
        } else {
            match preserved_text(contents, tree_unset(t, path_segments(key))) {
                Ok(text) => Ok(text),
                Err(_) => Err(TransferFailure::Preserve),
            }
        },
    }
}

/// The texts of the destination and of the source after a move: the value
/// is copied, and then the source key is removed from the source as it then
/// stands. Where source and destination are one file, the source as it then
/// stands is the text that the copy gave, and its last text is the second
/// of the pair.
pub open spec fn moved_texts(
    source: Seq<char>,
    source_key: Seq<char>,
    dest: Option<Seq<char>>,
    dest_key: Seq<char>,
    same_file: bool,
) -> Result<(Seq<char>, Seq<char>), TransferFailure> {
    match copied_text(
        source,
        source_key,
        if same_file {
            Some(source)
        } else {
            dest
        },
        dest_key,
    ) {
        Err(f) => Err(f),
        Ok(copied) => match text_without(
            if same_file {
                copied
            } else {
                source
            },
            source_key,
        ) {
            Ok(rest) => Ok((copied, rest)),
            Err(f) => Err(f),
        },
    }
}

/// Whether a file with this extension holds YAML.
pub open spec fn is_yaml_extension(extension: Option<Seq<char>>) -> bool {
    match extension {
        Some(e) => e == "yaml"@ || e == "yml"@,
        None => false,
    }
}

/// What a path given to `grep` is searched as.
pub enum SearchTarget {
    /// One file.
    File,
    /// Every YAML file below a directory.
    Directory,
}

/// The message `prefix` followed by `detail`.
fn prefixed(prefix: &str, detail: &str) -> (r: String)
    ensures
        starts_with(r@, prefix@),
{
    let r = chain(prefix, detail);
    assert(r@.take(prefix@.len() as int) == prefix@);
    r
}

/// The message for a file that is no YAML document.
fn parse_failure(file: &str, detail: &str) -> (r: String)
    ensures
        starts_with(r@, "Failed to parse YAML from '"@ + file@ + "': "@),
{
    let mut head = chars_of("Failed to parse YAML from '");
    append_str(&mut head, file);
    append_str(&mut head, "': ");
    let head = string_of(&head);
    prefixed(head.as_str(), detail)
}

/// The text `contents` after the updates of a `set` command (see
/// [`set_text`]).
pub fn set_in_text(contents: &str, updates: &Updates) -> (r: Result<String, String>)
    ensures
        match r {
            Ok(text) => set_text(contents@, updates@) == Ok::<_, Failure>(text@),
            Err(msg) => set_text(contents@, updates@) matches Err(f) && describes(msg@, f),
        },
{
    let mut value = match parse_document(contents) {
        Ok(value) => value,
        Err(detail) => {
            return Err(prefixed("Failed to parse YAML: ", detail.as_str()));
        },
    };
    match set_values(&mut value, updates) {
        Ok(_) => {},
        Err(msg) => {
            return Err(msg);
        },
    }
    write_yaml_preserving_format(contents, &value)
}

/// The text `contents` after the removals of an `unset` command (see
/// [`unset_text`]).
pub fn unset_in_text(contents: &str, keys: &[String]) -> (r: Result<String, String>)
    ensures
        match r {
            Ok(text) => unset_text(contents@, strings_view(keys@)) == Ok::<_, Failure>(text@),
            Err(msg) => unset_text(contents@, strings_view(keys@)) matches Err(f) && describes(
                msg@,
                f,
            ),
        },
{
    let mut value = match parse_document(contents) {
        Ok(value) => value,
        Err(detail) => {
            return Err(prefixed("Failed to parse YAML: ", detail.as_str()));
        },
    };
    match unset_values(&mut value, keys) {
        Ok(_) => {},
        Err(msg) => {
            return Err(msg);
        },
    }
    assert(strings_view(keys@).len() == keys@.len());
    write_yaml_preserving_format(contents, &value)
}

/// The value at `source_key` in the source (see [`source_value`]): the first
/// step of a copy.
pub fn find_source_value(source_file: &str, source_contents: &str, source_key: &str) -> (r: Result<
    Node,
    String,
>)
    ensures
        match r {
            Ok(v) => source_value(source_contents@, source_key@) == Ok::<_, TransferFailure>(v@),
            Err(msg) => source_value(source_contents@, source_key@) matches Err(f)
                && transfer_message(msg@, f, source_file@, source_key@, Seq::empty()),
        },
{
    let source = match parse_document(source_contents) {
        Ok(source) => source,
        Err(detail) => {
            return Err(parse_failure(source_file, detail.as_str()));
        },
    };
    match get_value(&source, source_key) {
        Ok(Some(v)) => Ok(v),
        Ok(None) => {
            let mut msg = chars_of("Key '");
            append_str(&mut msg, source_key);
            append_str(&mut msg, "' not found in '");
            append_str(&mut msg, source_file);
            append_str(&mut msg, "'");
            Err(string_of(&msg))
        },
        Err(msg) => Err(msg),
    }
}

/// The text of the destination with `value` at `dest_key` (see
/// [`destination_text`]): the second step of a copy. `dest_contents` is the
/// text of the destination file, or `None` if there is no such file yet.
pub fn put_in_destination(
    dest_file: &str,
    dest_contents: Option<&str>,
    dest_key: &str,
    value: &Node,
) -> (r: Result<String, String>)
    ensures
        match r {
            Ok(text) => destination_text(
                match dest_contents {
                    Some(c) => Some(c@),
                    None => None,
                },
                dest_key@,
                value@,
            ) == Ok::<_, TransferFailure>(text@),
            Err(msg) => destination_text(
                match dest_contents {
                    Some(c) => Some(c@),
                    None => None,
                },
                dest_key@,
                value@,
            ) matches Err(f) && transfer_message(msg@, f, Seq::empty(), Seq::empty(), dest_file@),
        },
{
    match dest_contents {
        Some(contents) => {
            let mut dest = match parse_document(contents) {
                Ok(dest) => dest,
                Err(detail) => {
                    return Err(parse_failure(dest_file, detail.as_str()));
                },
            };
            match set_value(&mut dest, dest_key, value) {
                Ok(_) => {},
                Err(msg) => {
                    return Err(msg);
                },
            }
            match write_yaml_preserving_format(contents, &dest) {
                Ok(text) => Ok(text),
                Err(detail) => Err(prefixed("Failed to preserve YAML format: ", detail.as_str())),
            }
        },
        None => {
            let empty: Vec<(String, Node)> = Vec::new();
            proof {
                lemma_mapping_tree(empty);
                assert(entries_tree(empty@) =~= Seq::empty());
            }
            let mut dest = Node::Mapping(empty);
            match set_value(&mut dest, dest_key, value) {
                Ok(_) => {},
                Err(msg) => {
                    return Err(msg);
                },
            }
            match to_yaml_string(&dest) {
                Ok(text) => Ok(text),
                Err(detail) => Err(prefixed("Failed to serialize YAML: ", detail.as_str())),
            }
        },
    }
}

/// The text `contents` of the source without the entry at `source_key` (see
/// [`text_without`]): the last step of a move.
pub fn remove_from_source(source_file: &str, contents: &str, source_key: &str) -> (r: Result<
    String,
    String,
>)
    ensures
        match r {
            Ok(text) => text_without(contents@, source_key@) == Ok::<_, TransferFailure>(text@),
            Err(msg) => text_without(contents@, source_key@) matches Err(f) && transfer_message(
                msg@,
                f,
                source_file@,
                source_key@,
                Seq::empty(),
            ),
        },
{
    let mut source = match parse_document(contents) {
        Ok(source) => source,
        Err(detail) => {
            return Err(parse_failure(source_file, detail.as_str()));
        },
    };
    match crate::path::unset_at_path(&mut source, source_key) {
        Ok(_) => {},
        Err(msg) => {
            return Err(msg);
        },
    }
    match write_yaml_preserving_format(contents, &source) {
        Ok(text) => Ok(text),
        Err(detail) => Err(prefixed("Failed to preserve YAML format: ", detail.as_str())),
    }
}

/// Copies the value at `source_key` of the source to `dest_key` of the
/// destination, and returns the new text of the destination (see
/// [`copied_text`]).
///
/// `dest_contents` is the text of the destination file, or `None` if there
/// is no such file yet. The file names stand in the messages only.
pub fn copy_value(
    source_file: &str,
    source_contents: &str,
    source_key: &str,
    dest_file: &str,
    dest_contents: Option<&str>,
    dest_key: &str,
) -> (r: Result<String, String>)
    ensures
        match r {
            Ok(text) => copied_text(
                source_contents@,
                source_key@,
                match dest_contents {
                    Some(c) => Some(c@),
                    None => None,
                },
                dest_key@,
            ) == Ok::<_, TransferFailure>(text@),
            Err(msg) => copied_text(
                source_contents@,
                source_key@,
                match dest_contents {
                    Some(c) => Some(c@),
                    None => None,
                },
                dest_key@,
            ) matches Err(f) && transfer_message(msg@, f, source_file@, source_key@, dest_file@),
        },
{
    let value = match find_source_value(source_file, source_contents, source_key) {
        Ok(value) => value,
        Err(msg) => {
            return Err(msg);
        },
    };
    put_in_destination(dest_file, dest_contents, dest_key, &value)
}

/// Moves the value at `source_key` of the source to `dest_key` of the
/// destination: returns the new text of the destination and, second, the
/// new text of the source (see [`moved_texts`]).
///
/// With `same_file` the source is the destination too, and `dest_contents`
/// is not looked at; the text to keep is then the second one. Moving a key
/// onto itself in one file removes it.
pub fn move_value(
    source_file: &str,
    source_contents: &str,
    source_key: &str,
    dest_file: &str,
    dest_contents: Option<&str>,
    dest_key: &str,
    same_file: bool,
) -> (r: Result<(String, String), String>)
    ensures
        match r {
            Ok((copied, rest)) => moved_texts(
                source_contents@,
                source_key@,
                match dest_contents {
                    Some(c) => Some(c@),
                    None => None,
                },
                dest_key@,
                same_file,
            ) == Ok::<_, TransferFailure>((copied@, rest@)),
            Err(msg) => moved_texts(
                source_contents@,
                source_key@,
                match dest_contents {
                    Some(c) => Some(c@),
                    None => None,
                },
                dest_key@,
                same_file,
            ) matches Err(f) && transfer_message(msg@, f, source_file@, source_key@, dest_file@),
        },
{
    let target = if same_file {
        Some(source_contents)
    } else {
        dest_contents
    };
    let copied = match copy_value(
        source_file,
        source_contents,
        source_key,
        dest_file,
        target,
        dest_key,
    ) {
        Ok(copied) => copied,
        Err(msg) => {
            return Err(msg);
        },
    };
    let rest = if same_file {
        remove_from_source(source_file, copied.as_str(), source_key)
    } else {
        remove_from_source(source_file, source_contents, source_key)
    };
    match rest {
        Ok(rest) => Ok((copied, rest)),
        Err(msg) => Err(msg),
    }
}

/// Whether a file found in a directory is searched: its extension has to be
/// `yaml` or `yml`.
pub fn should_process_file(extension: Option<&str>) -> (r: bool)
    ensures
        r == is_yaml_extension(
            match extension {
                Some(e) => Some(e@),
                None => None,
            },
        ),
{
    match extension {
        Some(e) => {
            let chars = chars_of(e);
            same_chars(&chars, &chars_of("yaml")) || same_chars(&chars, &chars_of("yml"))
        },
        None => false,
    }
}

/// What the path `file` is searched as, given what the file system says of
/// it.
pub fn grep_path(file: &str, is_file: bool, is_dir: bool) -> (r: Result<SearchTarget, String>)
    ensures
        match r {
            Ok(SearchTarget::File) => is_file,
            Ok(SearchTarget::Directory) => !is_file && is_dir,
            Err(msg) => !is_file && !is_dir && msg@ == "'"@ + file@
                + "' is not a file or directory"@,
        },
{
    if is_file {
        Ok(SearchTarget::File)
    } else if is_dir {
        Ok(SearchTarget::Directory)
    } else {
        let mut msg = chars_of("'");
        append_str(&mut msg, file);
        append_str(&mut msg, "' is not a file or directory");
        Err(string_of(&msg))
    }
}

/// Whether the matches are shown with the name of their file: always,
/// unless a single path was given and it is no directory.
pub fn show_filename(paths: usize, first_is_dir: bool) -> (r: bool)
    ensures
        r == (paths != 1 || first_is_dir),
{
    paths != 1 || first_is_dir
}

/// The width of the terminal in characters: the width that was detected,
/// else the one that the environment names, else 80.
pub fn get_terminal_width(detected: Option<u16>, named: Option<usize>) -> (r: usize)
    ensures
        r == match (detected, named) {
            (Some(cols), _) => cols as usize,
            (None, Some(width)) => width,
            (None, None) => 80usize,
        },
{
    match detected {
        Some(cols) => cols as usize,
        None => match named {
            Some(width) => width,
            None => 80,
        },
    }
}

/// A match as a line of output, behind the name of its file and a colon if
/// `with_name` says so.
pub fn format_match(file: &str, with_name: bool, key: &str, value: &Node, width: usize) -> (r:
    String)
    ensures
        r@ == if with_name {
            file@ + seq![':'] + result_text(key@, value@, width as int)
        } else {
            result_text(key@, value@, width as int)
        },
{
    let shown = format_result(key, value, width);
    if with_name {
        let mut out = chars_of(file);
        out.push(':');
        append_str(&mut out, shown.as_str());
        string_of(&out)
    } else {
        shown
    }
}

} // verus!
