//! The commands of the tool, and the rules that the arguments of a command
//! line have to meet.
//!
//! Splitting a command line into a subcommand and its arguments is left to
//! the program; this module takes the arguments as they were given
//! ([`Commands`]) and checks and decodes them ([`Command`]).

use crate::keyed::upsert;
use crate::text::{chain, chars_of, find_char, slice_of, split_once, string_of, strings_view};
use crate::updates::Updates;
use vstd::prelude::*;

verus! {

/// A command whose arguments have been checked and decoded.
#[derive(Debug)]
pub enum Command {
    Grep { pattern: String, recursive: bool, files: Vec<String> },
    SetValues { file: String, updates: Updates },
    Unset { file: String, keys: Vec<String> },
    Cp {
        source_file: String,
        source_key: String,
        dest_file: Option<String>,
        dest_key: Option<String>,
    },
    Mv {
        source_file: String,
        source_key: String,
        dest_file: Option<String>,
        dest_key: Option<String>,
    },
}

/// A command line: the subcommand with its arguments as they were given.
#[derive(Debug)]
pub struct Cli {
    pub command: Commands,
}

/// A subcommand with its arguments as they were given.
#[derive(Debug)]
pub enum Commands {
    /// Search the keys of YAML documents by a pattern.
    Grep { pattern: String, recursive: bool, files: Vec<String> },
    /// Set values at key paths; each of `updates` reads `key=value`.
    SetValues { file: String, updates: Vec<String> },
    /// Remove the keys at the given paths.
    Unset { file: String, keys: Vec<String> },
    /// Copy a value; `source` reads `file:key`, the destination `file:key`,
    /// `file:`, `:key` or `key`.
    Cp { source: String, destination: Vec<String> },
    /// Move a value; the arguments read as those of `Cp`.
    Mv { source: String, destination: Vec<String> },
}

/// The characters of an optional string.
pub open spec fn option_view(o: Option<String>) -> Option<Seq<char>> {
    match o {
        Some(s) => Some(s@),
        None => None,
    }
}

/// `s`, or nothing where `s` is empty.
pub open spec fn non_empty(s: Seq<char>) -> Option<Seq<char>> {
    if s.len() == 0 {
        None
    } else {
        Some(s)
    }
}

/// The file and the key of an argument that has to name both as `file:key`.
/// The file ends at the first colon; neither part may be empty.
pub open spec fn file_key_pair(input: Seq<char>) -> Result<(Seq<char>, Seq<char>), Seq<char>> {
    match split_once(input, ':') {
        Some((file, key)) if file.len() > 0 && key.len() > 0 => Ok((file, key)),
        _ => Err(
            "Invalid file:key pair: "@ + input + " (expected format: file.yaml:key.path)"@,
        ),
    }
}

/// The file and the key of an argument that may leave one of them out.
/// Without a colon the whole argument is the key.
pub open spec fn optional_file_key_pair(input: Seq<char>) -> Result<
    (Option<Seq<char>>, Option<Seq<char>>),
    Seq<char>,
> {
    match split_once(input, ':') {
        Some((file, key)) => if file.len() == 0 && key.len() == 0 {
            Err("Invalid file:key pair: "@ + input + " (file and key cannot both be empty)"@)
        } else {
            Ok((non_empty(file), non_empty(key)))
        },
        None => if input.len() == 0 {
            Err("Key cannot be empty"@)
        } else {
            Ok((None, Some(input)))
        },
    }
}

/// The pairs that the first `n` arguments of a `set` command spell. An
/// argument is cut at its first `=`; one without `=` is an error, and the
/// first such argument is the one reported. A key given twice keeps its
/// first place and gets the later value.
pub open spec fn updates_from(items: Seq<Seq<char>>, n: int) -> Result<
    Seq<(Seq<char>, Seq<char>)>,
    Seq<char>,
>
    decreases n,
{
    if n <= 0 {
        Ok(Seq::empty())
    } else {
        match updates_from(items, n - 1) {
            Err(e) => Err(e),
            Ok(pairs) => match split_once(items[n - 1], '=') {
                Some((key, value)) => Ok(upsert(pairs, key, value)),
                None => Err("Invalid key=value pair: "@ + items[n - 1]),
            },
        }
    }
}

/// The pairs of a `set` command, which needs at least one.
pub open spec fn parsed_updates(items: Seq<Seq<char>>) -> Result<
    Seq<(Seq<char>, Seq<char>)>,
    Seq<char>,
> {
    if items.len() == 0 {
        Err("set requires at least one key=value pair"@)
    } else {
        updates_from(items, items.len() as int)
    }
}

/// Where a `cp` or `mv` command (`verb` says which) reads from and writes
/// to: source file, source key, destination file, destination key. The
/// source is checked first, then the number of destination arguments, then
/// the destination itself, of which the file or the key may be left out but
/// not both.
pub open spec fn transfer_route(verb: Seq<char>, source: Seq<char>, destination: Seq<Seq<char>>)
    -> Result<(Seq<char>, Seq<char>, Option<Seq<char>>, Option<Seq<char>>), Seq<char>> {
    match file_key_pair(source) {
        Err(e) => Err(e),
        Ok((file, key)) => if destination.len() == 0 {
            Err("destination file and destination key cannot both be omitted"@)
        } else if destination.len() == 1 {
            match optional_file_key_pair(destination[0]) {
                Err(e) => Err(e),
                Ok((dest_file, dest_key)) => Ok((file, key, dest_file, dest_key)),
            }
        } else {
            Err(verb + " accepts at most one destination argument"@)
        },
    }
}

/// What checking and decoding `given` yields, as plain values.
pub open spec fn accepts(given: Commands, r: Result<Command, String>) -> bool {
    match given {
        Commands::Grep { pattern, recursive, files } => {
            &&& r matches Ok(Command::Grep { pattern: p, recursive: rec, files: f })
            &&& p@ == pattern@
            &&& rec == recursive
            &&& strings_view(f@) == strings_view(files@)
        },
        Commands::SetValues { file, updates } => match parsed_updates(strings_view(updates@)) {
            Ok(pairs) => {
                &&& r matches Ok(Command::SetValues { file: f, updates: u })
                &&& f@ == file@
                &&& u@ == pairs
            },
            Err(e) => r matches Err(msg) && msg@ == e,
        },
        Commands::Unset { file, keys } => if keys@.len() == 0 {
            r matches Err(msg) && msg@ == "unset requires at least one key"@
        } else {
            &&& r matches Ok(Command::Unset { file: f, keys: k })
            &&& f@ == file@
            &&& strings_view(k@) == strings_view(keys@)
        },
        Commands::Cp { source, destination } => match transfer_route(
            "cp"@,
            source@,
            strings_view(destination@),
        ) {
            Ok((file, key, to_file, to_key)) => {
                &&& r matches Ok(
                    Command::Cp { source_file: sf, source_key: sk, dest_file: df, dest_key: dk },
                )
                &&& sf@ == file
                &&& sk@ == key
                &&& option_view(df) == to_file
                &&& option_view(dk) == to_key
            },
            Err(e) => r matches Err(msg) && msg@ == e,
        },
        Commands::Mv { source, destination } => match transfer_route(
            "mv"@,
            source@,
            strings_view(destination@),
        ) {
            Ok((file, key, to_file, to_key)) => {
                &&& r matches Ok(
                    Command::Mv { source_file: sf, source_key: sk, dest_file: df, dest_key: dk },
                )
                &&& sf@ == file
                &&& sk@ == key
                &&& option_view(df) == to_file
                &&& option_view(dk) == to_key
            },
            Err(e) => r matches Err(msg) && msg@ == e,
        },
    }
}

/// Cuts `input` at its first `c`.
fn cut_once(input: &str, c: char) -> (r: Option<(String, String)>)
    ensures
        match r {
            Some((head, tail)) => split_once(input@, c) == Some((head@, tail@)),
            None => split_once(input@, c) is None,
        },
{
    let chars = chars_of(input);
    let at = find_char(&chars, c, 0);
    if at < chars.len() {
        let head = slice_of(&chars, 0, at);
        let tail = slice_of(&chars, at + 1, chars.len());
        Some((string_of(&head), string_of(&tail)))
    } else {
        None
    }
}

/// `s`, or nothing where `s` is empty.
fn keep_non_empty(s: String) -> (r: Option<String>)
    ensures
        option_view(r) == non_empty(s@),
{
    if s.as_str().unicode_len() == 0 {
        None
    } else {
        Some(s)
    }
}

/// Reads an argument that has to name a file and a key, as `file:key`.
pub fn parse_file_key_pair(input: &str) -> (r: Result<(String, String), String>)
    ensures
        match r {
            Ok((file, key)) => file_key_pair(input@) == Ok::<_, Seq<char>>((file@, key@)),
            Err(msg) => file_key_pair(input@) == Err::<(Seq<char>, Seq<char>), _>(msg@),
        },
{
    match cut_once(input, ':') {
        Some((file, key)) => {
            if file.as_str().unicode_len() > 0 && key.as_str().unicode_len() > 0 {
                return Ok((file, key));
            }
        },
        None => {},
    }
    let head = chain("Invalid file:key pair: ", input);
    Err(chain(head.as_str(), " (expected format: file.yaml:key.path)"))
}

/// Reads an argument that names a file, a key or both: `file:key`, `file:`,
/// `:key` or `key`.
pub fn parse_optional_file_key_pair(input: &str) -> (r: Result<
    (Option<String>, Option<String>),
    String,
>)
    ensures
        match r {
            Ok((file, key)) => optional_file_key_pair(input@) == Ok::<_, Seq<char>>(
                (option_view(file), option_view(key)),
            ),
            Err(msg) => optional_file_key_pair(input@) == Err::<
                (Option<Seq<char>>, Option<Seq<char>>),
                _,
            >(msg@),
        },
{
    match cut_once(input, ':') {
        Some((file, key)) => {
            if file.as_str().unicode_len() == 0 && key.as_str().unicode_len() == 0 {
                let head = chain("Invalid file:key pair: ", input);
                return Err(chain(head.as_str(), " (file and key cannot both be empty)"));
            }
            Ok((keep_non_empty(file), keep_non_empty(key)))
        },
        None => {
            if input.unicode_len() == 0 {
                return Err("Key cannot be empty".to_owned());
            }
            Ok((None, Some(input.to_owned())))
        },
    }
}

/// Reads the `key=value` arguments of a `set` command.
fn parse_updates(items: &Vec<String>) -> (r: Result<Updates, String>)
    ensures
        match r {
            Ok(u) => parsed_updates(strings_view(items@)) == Ok::<_, Seq<char>>(u@),
            Err(msg) => parsed_updates(strings_view(items@)) == Err::<
                Seq<(Seq<char>, Seq<char>)>,
                _,
            >(msg@),
        },
{
    if items.len() == 0 {
        return Err("set requires at least one key=value pair".to_owned());
    }
    let ghost texts = strings_view(items@);
    let mut updates = Updates::new();
    let mut i: usize = 0;
    while i < items.len()
        invariant
            i <= items.len(),
            texts == strings_view(items@),
            updates_from(texts, i as int) == Ok::<_, Seq<char>>(updates@),
        decreases items.len() - i,
    {
        match cut_once(items[i].as_str(), '=') {
            Some((key, value)) => {
                updates.insert(key, value);
            },
            None => {
                let msg = chain("Invalid key=value pair: ", items[i].as_str());
                proof {
                    lemma_updates_error(texts, i as int + 1, items.len() as int);
                }
                return Err(msg);
            },
        }
        i += 1;
    }
    Ok(updates)
}

/// An error among the first `n` arguments is the error of any longer run of
/// arguments.
proof fn lemma_updates_error(items: Seq<Seq<char>>, n: int, m: int)
    requires
        0 <= n <= m,
        updates_from(items, n) is Err,
    ensures
        updates_from(items, m) == updates_from(items, n),
    decreases m - n,
{
    if n < m {
        lemma_updates_error(items, n, m - 1);
    }
}

/// Reads the source and the destination of a `cp` or `mv` command.
fn parse_route(verb: &str, source: &str, destination: &Vec<String>) -> (r: Result<
    (String, String, Option<String>, Option<String>),
    String,
>)
    ensures
        match r {
            Ok((file, key, to_file, to_key)) => transfer_route(
                verb@,
                source@,
                strings_view(destination@),
            ) == Ok::<_, Seq<char>>((file@, key@, option_view(to_file), option_view(to_key))),
            Err(msg) => transfer_route(verb@, source@, strings_view(destination@)) == Err::<
                (Seq<char>, Seq<char>, Option<Seq<char>>, Option<Seq<char>>),
                _,
            >(msg@),
        },
{
    let (file, key) = match parse_file_key_pair(source) {
        Ok(pair) => pair,
        Err(msg) => {
            return Err(msg);
        },
    };
    if destination.len() == 0 {
        Err("destination file and destination key cannot both be omitted".to_owned())
    } else if destination.len() == 1 {
        match parse_optional_file_key_pair(destination[0].as_str()) {
            Ok((to_file, to_key)) => Ok((file, key, to_file, to_key)),
            Err(msg) => Err(msg),
        }
    } else {
        Err(chain(verb, " accepts at most one destination argument"))
    }
}

/// Checks and decodes the arguments of a command line.
///
/// `grep` takes its arguments as they are. `set` needs at least one
/// `key=value` argument, and every argument needs its `=`. `unset` needs at
/// least one key. `cp` and `mv` need a source `file:key` and exactly one
/// destination that names a file, a key or both.
pub fn parse_cli(cli: Cli) -> (r: Result<Command, String>)
    ensures
        accepts(cli.command, r),
{
    match cli.command {
        Commands::Grep { pattern, recursive, files } => Ok(
            Command::Grep { pattern, recursive, files },
        ),
        Commands::SetValues { file, updates } => {
            match parse_updates(&updates) {
                Ok(parsed) => Ok(Command::SetValues { file, updates: parsed }),
                Err(msg) => Err(msg),
            }
        },
        Commands::Unset { file, keys } => {
            if keys.len() == 0 {
                return Err("unset requires at least one key".to_owned());
            }
            Ok(Command::Unset { file, keys })
        },
        Commands::Cp { source, destination } => {
            match parse_route("cp", source.as_str(), &destination) {
                Ok((source_file, source_key, dest_file, dest_key)) => Ok(
                    Command::Cp { source_file, source_key, dest_file, dest_key },
                ),
                Err(msg) => Err(msg),
            }
        },
        Commands::Mv { source, destination } => {
            match parse_route("mv", source.as_str(), &destination) {
                Ok((source_file, source_key, dest_file, dest_key)) => Ok(
                    Command::Mv { source_file, source_key, dest_file, dest_key },
                ),
                Err(msg) => Err(msg),
            }
        },
    }
}

} // verus!
