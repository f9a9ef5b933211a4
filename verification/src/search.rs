//! Searching the keys of a document by a pattern.
//!
//! The pattern is a regular expression of the `regex` crate, and it is tested
//! against whole key paths such as `database.host`. A path that matches is
//! reported with the whole value below it, and the search does not go into
//! that value. What the pattern language says is not spelled out here: the
//! contracts speak of [`pattern_compiles`] and [`pattern_matches`].

use crate::diff::{child_path, join_path};
use crate::keyed::lemma_position_is;
use crate::path::{path_segments, tree_get};
use crate::text::{chain, join, lemma_split_of_join, starts_with};
use crate::tree::{
    clone_value, entries_of, entries_tree, lemma_mapping_tree, well_formed, Node, Tree,
};
use vstd::prelude::*;

verus! {

/// The error of the `regex` crate.
#[verifier::external_type_specification]
#[verifier::external_body]
pub struct ExRegexError(regex::Error);

/// Whether `pattern` is a regular expression that the `regex` crate accepts.
pub uninterp spec fn pattern_compiles(pattern: Seq<char>) -> bool;

/// Whether the regular expression `pattern` matches somewhere in `text`.
pub uninterp spec fn pattern_matches(pattern: Seq<char>, text: Seq<char>) -> bool;

/// `Regex::new` and `Regex::is_match` of the `regex` crate: compiles
/// `pattern` with the default options and says whether it matches anywhere
/// in `key`. The error is the one that `Regex::new` gives for a pattern that
/// it does not accept.
#[verifier::external_body]
fn is_key_match(key: &str, pattern: &str) -> (r: Result<bool, regex::Error>)
    ensures
        match r {
            Ok(found) => pattern_compiles(pattern@) && found == pattern_matches(pattern@, key@),
            Err(_) => !pattern_compiles(pattern@),
        },
{
    Ok(regex::Regex::new(pattern)?.is_match(key))
}

/// The matches among the first `k` entries of the mapping `t`, whose own
/// path is `prefix`: an entry whose path matches, with its value, or else
/// the matches inside its value. A tree that is no mapping has none.
pub open spec fn matches_upto(t: Tree, pattern: Seq<char>, prefix: Seq<char>, k: int) -> Seq<
    (Seq<char>, Tree),
>
    decreases t, k,
{
    if k <= 0 || k > entries_of(t).len() || !(t is Mapping) {
        Seq::empty()
    } else {
        let entry = entries_of(t)[k - 1];
        let path = child_path(prefix, entry.0);
        matches_upto(t, pattern, prefix, k - 1) + if pattern_matches(pattern, path) {
            seq![(path, entry.1)]
        } else {
            matches_upto(entry.1, pattern, path, entries_of(entry.1).len() as int)
        }
    }
}

/// The matches in the tree `t`, whose own path is `prefix`, in the order of
/// the document. No match lies inside another.
pub open spec fn matches_in(t: Tree, pattern: Seq<char>, prefix: Seq<char>) -> Seq<
    (Seq<char>, Tree),
> {
    matches_upto(t, pattern, prefix, entries_of(t).len() as int)
}

/// Every path among the matches of the first `k` entries matches the
/// pattern.
pub proof fn lemma_matches_match(t: Tree, pattern: Seq<char>, prefix: Seq<char>, k: int)
    ensures
        forall|i: int|
            0 <= i < matches_upto(t, pattern, prefix, k).len() ==> pattern_matches(
                pattern,
                (#[trigger] matches_upto(t, pattern, prefix, k)[i]).0,
            ),
    decreases t, k,
{
    if !(k <= 0 || k > entries_of(t).len() || !(t is Mapping)) {
        let entry = entries_of(t)[k - 1];
        let path = child_path(prefix, entry.0);
        lemma_matches_match(t, pattern, prefix, k - 1);
        if !pattern_matches(pattern, path) {
            lemma_matches_match(entry.1, pattern, path, entries_of(entry.1).len() as int);
        }
        let before = matches_upto(t, pattern, prefix, k - 1);
        let here = if pattern_matches(pattern, path) {
            seq![(path, entry.1)]
        } else {
            matches_upto(entry.1, pattern, path, entries_of(entry.1).len() as int)
        };
        let all = matches_upto(t, pattern, prefix, k);
        assert(all == before + here);
        assert forall|i: int| 0 <= i < all.len() implies pattern_matches(
            pattern,
            (#[trigger] all[i]).0,
        ) by {
            if i < before.len() {
                assert(all[i] == before[i]);
            } else {
                assert(all[i] == here[i - before.len()]);
            }
        }
    }
}

/// Every path that a search reports matches the pattern.
pub proof fn law_reported_paths_match(t: Tree, pattern: Seq<char>)
    ensures
        forall|i: int|
            0 <= i < matches_in(t, pattern, Seq::empty()).len() ==> pattern_matches(
                pattern,
                (#[trigger] matches_in(t, pattern, Seq::empty())[i]).0,
            ),
{
    lemma_matches_match(t, pattern, Seq::empty(), entries_of(t).len() as int);
}

/// Whether a key can stand in a dotted path: it is not empty and holds no
/// dot.
pub open spec fn plain_key(key: Seq<char>) -> bool {
    key.len() > 0 && !key.contains('.')
}

/// Whether every key that a search comes by can stand in a dotted path: the
/// keys of the mapping and of the mappings below it. What stands in a
/// sequence is not searched.
pub open spec fn plain_keys(t: Tree) -> bool
    decreases t,
{
    match t {
        Tree::Mapping(entries) => forall|i: int|
            0 <= i < entries.len() ==> plain_key((#[trigger] entries[i]).0) && plain_keys(
                entries[i].1,
            ),
        _ => true,
    }
}

/// The path that the segments spell.
pub open spec fn dotted(segments: Seq<Seq<char>>) -> Seq<char> {
    join(segments, seq!['.'])
}

/// What holds of a match `found` of a search below the keys `trail`: its
/// path leads through the trail, the value found at the rest of the path is
/// its value, and the pattern matches none of the paths on the way to it.
pub open spec fn is_found(
    t: Tree,
    pattern: Seq<char>,
    trail: Seq<Seq<char>>,
    found: (Seq<char>, Tree),
) -> bool {
    let segments = path_segments(found.0);
    &&& segments.len() > trail.len()
    &&& segments.take(trail.len() as int) == trail
    &&& tree_get(t, segments.skip(trail.len() as int)) == Some(found.1)
    &&& forall|j: int|
        0 < j < segments.len() ==> !pattern_matches(pattern, #[trigger] dotted(segments.take(j)))
}

/// The path of a key below plain keys is the keys with dots between them,
/// and its segments are the keys.
proof fn lemma_child_path(trail: Seq<Seq<char>>, key: Seq<char>)
    requires
        forall|j: int| 0 <= j < trail.len() ==> plain_key(#[trigger] trail[j]),
        plain_key(key),
    ensures
        child_path(dotted(trail), key) == dotted(trail.push(key)),
        path_segments(dotted(trail.push(key))) == trail.push(key),
{
    let longer = trail.push(key);
    assert(longer.drop_last() == trail);
    if trail.len() > 0 {
        assert(plain_key(trail.last()));
        if trail.len() == 1 {
            assert(dotted(trail) == trail[0]);
        } else {
            assert(dotted(trail) == dotted(trail.drop_last()) + seq!['.'] + trail.last());
        }
        assert(dotted(trail).len() > 0);
    }
    assert forall|i: int| 0 <= i < longer.len() implies !(#[trigger] longer[i]).contains('.') by {
        if i < trail.len() {
            assert(longer[i] == trail[i]);
            assert(plain_key(trail[i]));
        }
    }
    lemma_split_of_join(longer, '.');
}

/// Every match among the first `k` entries of a mapping below the keys
/// `trail` is found where its path says.
proof fn lemma_matches_found(
    t: Tree,
    pattern: Seq<char>,
    trail: Seq<Seq<char>>,
    k: int,
    i: int,
)
    requires
        well_formed(t),
        plain_keys(t),
        forall|j: int| 0 <= j < trail.len() ==> plain_key(#[trigger] trail[j]),
        forall|j: int|
            0 < j <= trail.len() ==> !pattern_matches(pattern, #[trigger] dotted(trail.take(j))),
        0 <= i < matches_upto(t, pattern, dotted(trail), k).len(),
    ensures
        is_found(t, pattern, trail, matches_upto(t, pattern, dotted(trail), k)[i]),
    decreases t, k,
{
    let prefix = dotted(trail);
    let entries = entries_of(t);
    let entry = entries[k - 1];
    let path = child_path(prefix, entry.0);
    let before = matches_upto(t, pattern, prefix, k - 1);
    let here = if pattern_matches(pattern, path) {
        seq![(path, entry.1)]
    } else {
        matches_upto(entry.1, pattern, path, entries_of(entry.1).len() as int)
    };
    let all = matches_upto(t, pattern, prefix, k);
    assert(all == before + here);
    if i < before.len() {
        assert(all[i] == before[i]);
        lemma_matches_found(t, pattern, trail, k - 1, i);
    } else {
        let found = here[i - before.len()];
        assert(all[i] == found);
        let longer = trail.push(entry.0);
        assert(plain_key(entry.0));
        lemma_child_path(trail, entry.0);
        lemma_position_is(entries, entry.0, k - 1);
        assert forall|j: int| 0 < j <= trail.len() implies longer.take(j) == trail.take(j) by {}
        if pattern_matches(pattern, path) {
            let segments = path_segments(found.0);
            assert(segments == longer);
            assert(segments.take(trail.len() as int) == trail);
            assert(segments.skip(trail.len() as int) == seq![entry.0]);
            assert(seq![entry.0].skip(1) == Seq::<Seq<char>>::empty());
            assert(tree_get(entry.1, Seq::empty()) == Some(entry.1));
            assert forall|j: int| 0 < j < segments.len() implies !pattern_matches(
                pattern,
                #[trigger] dotted(segments.take(j)),
            ) by {
                assert(segments.take(j) == trail.take(j));
            }
        } else {
            assert forall|j: int| 0 <= j < longer.len() implies plain_key(
                #[trigger] longer[j],
            ) by {
                if j < trail.len() {
                    assert(longer[j] == trail[j]);
                }
            }
            assert forall|j: int| 0 < j <= longer.len() implies !pattern_matches(
                pattern,
                #[trigger] dotted(longer.take(j)),
            ) by {
                if j <= trail.len() {
                    assert(longer.take(j) == trail.take(j));
                } else {
                    assert(longer.take(j) == longer);
                }
            }
            lemma_matches_found(
                entry.1,
                pattern,
                longer,
                entries_of(entry.1).len() as int,
                i - before.len(),
            );
            let segments = path_segments(found.0);
            let below = segments.skip(longer.len() as int);
            let rest = segments.skip(trail.len() as int);
            assert(segments.take(trail.len() as int) == segments.take(longer.len() as int).take(
                trail.len() as int,
            ));
            assert(longer.take(trail.len() as int) == trail);
            assert(rest[0] == longer[trail.len() as int]);
            assert(rest.skip(1) == below);
        }
    }
}

/// Every match that a search reports is found where its path says, and
/// nowhere above: where no mapping of a well-formed document has an empty
/// key or a key with a dot, the value of a match is the value that the path
/// of the match leads to, and the pattern matches none of the paths that
/// lead to a mapping on the way. So no match lies inside another.
pub proof fn law_reported_values_are_found(t: Tree, pattern: Seq<char>, i: int)
    requires
        well_formed(t),
        plain_keys(t),
        0 <= i < matches_in(t, pattern, Seq::empty()).len(),
    ensures
        ({
            let found = matches_in(t, pattern, Seq::empty())[i];
            let segments = path_segments(found.0);
            &&& pattern_matches(pattern, found.0)
            &&& tree_get(t, segments) == Some(found.1)
            &&& forall|j: int|
                0 < j < segments.len() ==> !pattern_matches(
                    pattern,
                    #[trigger] dotted(segments.take(j)),
                )
        }),
{
    let trail = Seq::<Seq<char>>::empty();
    assert(dotted(trail) == Seq::<char>::empty());
    lemma_matches_found(t, pattern, trail, entries_of(t).len() as int, i);
    lemma_matches_match(t, pattern, Seq::empty(), entries_of(t).len() as int);
    let found = matches_in(t, pattern, Seq::empty())[i];
    assert(path_segments(found.0).skip(0) == path_segments(found.0));
}

/// The message for a pattern that does not compile.
fn invalid_pattern(e: &regex::Error) -> (r: String)
    ensures
        starts_with(r@, "Invalid regex pattern: "@),
{
    let detail = e.to_string();
    let r = chain("Invalid regex pattern: ", detail.as_str());
    assert(r@.take("Invalid regex pattern: "@.len() as int) == "Invalid regex pattern: "@);
    r
}

/// Appends to `results` the matches in `value`, whose own path is
/// `current_path` (see [`matches_in`]).
#[verifier::loop_isolation(false)]
pub fn collect_matching_keys(
    value: &Node,
    pattern: &str,
    current_path: &str,
    results: &mut Vec<(String, Node)>,
) -> (r: Result<(), String>)
    ensures
        match r {
            Ok(_) => entries_tree(final(results)@) == entries_tree(old(results)@) + matches_in(
                value@,
                pattern@,
                current_path@,
            ),
            Err(msg) => !pattern_compiles(pattern@) && starts_with(
                msg@,
                "Invalid regex pattern: "@,
            ),
        },
    decreases value,
{
    let ghost start = entries_tree(results@);
    match value {
        Node::Mapping(entries) => {
            proof {
                lemma_mapping_tree(*entries);
            }
            let mut i: usize = 0;
            assert(start + matches_upto(value@, pattern@, current_path@, 0) == start);
            while i < entries.len()
                invariant
                    i <= entries.len(),
                    entries_tree(results@) == start + matches_upto(
                        value@,
                        pattern@,
                        current_path@,
                        i as int,
                    ),
                decreases entries.len() - i,
            {
                let new_path = join_path(current_path, entries[i].0.as_str());
                let ghost before = entries_tree(results@);
                match is_key_match(new_path.as_str(), pattern) {
                    Ok(true) => {
                        let found = clone_value(&entries[i].1);
                        results.push((new_path, found));
                        assert(entries_tree(results@) == before + seq![(new_path@, found@)]);
                    },
                    Ok(false) => {
                        match collect_matching_keys(
                            &entries[i].1,
                            pattern,
                            new_path.as_str(),
                            results,
                        ) {
                            Ok(_) => {},
                            Err(msg) => {
                                return Err(msg);
                            },
                        }
                    },
                    Err(e) => {
                        return Err(invalid_pattern(&e));
                    },
                }
                i += 1;
            }
            Ok(())
        },
        _ => {
            assert(start + Seq::<(Seq<char>, Tree)>::empty() == start);
            Ok(())
        },
    }
}

/// The entries of `value` whose key path matches `pattern`, each with the
/// whole value below it, in the order of the document.
///
/// A pattern that does not compile is refused before anything is searched,
/// with a message that begins `Invalid regex pattern: `.
pub fn grep(value: &Node, pattern: &str) -> (r: Result<Vec<(String, Node)>, String>)
    ensures
        match r {
            Ok(found) => pattern_compiles(pattern@) && entries_tree(found@) == matches_in(
                value@,
                pattern@,
                Seq::empty(),
            ),
            Err(msg) => !pattern_compiles(pattern@) && starts_with(
                msg@,
                "Invalid regex pattern: "@,
            ),
        },
{
    let root = String::new();
    match is_key_match(root.as_str(), pattern) {
        Ok(_) => {},
        Err(e) => {
            return Err(invalid_pattern(&e));
        },
    }
    let mut results: Vec<(String, Node)> = Vec::new();
    assert(entries_tree(results@) =~= Seq::empty());
    match collect_matching_keys(value, pattern, root.as_str(), &mut results) {
        Ok(_) => {
            assert(Seq::<(Seq<char>, Tree)>::empty() + matches_in(value@, pattern@, Seq::empty())
                == matches_in(value@, pattern@, Seq::empty()));
            Ok(results)
        },
        Err(msg) => Err(msg),
    }
}

} // verus!
