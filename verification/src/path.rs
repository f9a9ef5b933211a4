//! Reading, writing and removing values by dotted key path.
//!
//! A path such as `database.host` names the value that is reached by looking
//! up `database` in the root mapping and `host` in the mapping found there.
//! Sequences cannot be entered by a path. The only path that is refused is
//! the empty one.

use crate::keyed::{
    lemma_position, lemma_position_is, lemma_update_value, lemma_upsert, lemma_without,
    lemma_without_keeps, position, upsert, value_of, without,
};
use crate::text::{chars_of, split_chars, split_on, strings_of, strings_view};
use crate::tree::{
    clone_value, entries_of, entries_tree, find_entry, lemma_mapping_tree, option_tree, well_formed,
    Node, Tree,
};
use crate::updates::Updates;
use vstd::prelude::*;

verus! {

/// The segments of a path: what stands between its dots.
pub open spec fn path_segments(path: Seq<char>) -> Seq<Seq<char>> {
    split_on(path, '.')
}

/// The value that the segments lead to: each segment is looked up in the
/// mapping reached so far. Nothing is found where a segment is missing or
/// where the walk reaches a value that is no mapping.
pub open spec fn tree_get(t: Tree, segments: Seq<Seq<char>>) -> Option<Tree>
    decreases segments.len(),
{
    if segments.len() == 0 {
        Some(t)
    } else {
        match t {
            Tree::Mapping(entries) => match position(entries, segments[0]) {
                Some(at) => tree_get(entries[at].1, segments.skip(1)),
                None => None,
            },
            _ => None,
        }
    }
}

/// The tree with `v` at the place that the segments lead to. On the way
/// every value that is no mapping, the root included, gives way to an empty
/// mapping, and a segment that is missing is appended with a mapping of its
/// own. The entry of the last segment keeps its place if there was one.
pub open spec fn tree_set(t: Tree, segments: Seq<Seq<char>>, v: Tree) -> Tree
    decreases segments.len(),
{
    if segments.len() == 0 {
        v
    } else {
        let entries = entries_of(t);
        match position(entries, segments[0]) {
            Some(at) => Tree::Mapping(
                entries.update(at, (entries[at].0, tree_set(entries[at].1, segments.skip(1), v))),
            ),
            None => Tree::Mapping(
                entries.push((segments[0], tree_set(Tree::Null, segments.skip(1), v))),
            ),
        }
    }
}

/// The tree without the entry that the segments lead to. Nothing changes
/// where a segment is missing or the walk reaches a value that is no
/// mapping; no structure is ever created.
pub open spec fn tree_unset(t: Tree, segments: Seq<Seq<char>>) -> Tree
    decreases segments.len(),
{
    if segments.len() == 0 {
        t
    } else {
        match t {
            Tree::Mapping(entries) => match position(entries, segments[0]) {
                Some(at) => if segments.len() == 1 {
                    Tree::Mapping(entries.remove(at))
                } else {
                    Tree::Mapping(
                        entries.update(
                            at,
                            (entries[at].0, tree_unset(entries[at].1, segments.skip(1))),
                        ),
                    )
                },
                None => t,
            },
            _ => t,
        }
    }
}

/// The position of the first empty path at or after `from`, or the number of
/// paths when none is empty.
pub open spec fn first_empty(paths: Seq<Seq<char>>, from: int) -> int
    decreases paths.len() - from,
{
    if 0 <= from < paths.len() {
        if paths[from].len() == 0 {
            from
        } else {
            first_empty(paths, from + 1)
        }
    } else {
        paths.len() as int
    }
}

/// The paths of a list of updates.
pub open spec fn update_paths(updates: Seq<(Seq<char>, Seq<char>)>) -> Seq<Seq<char>> {
    Seq::new(updates.len(), |i: int| updates[i].0)
}

/// The tree after the first `n` updates, each setting a string scalar.
pub open spec fn set_all(t: Tree, updates: Seq<(Seq<char>, Seq<char>)>, n: int) -> Tree
    decreases n,
{
    if n <= 0 {
        t
    } else {
        tree_set(
            set_all(t, updates, n - 1),
            path_segments(updates[n - 1].0),
            Tree::Text(updates[n - 1].1),
        )
    }
}

/// The tree after the first `n` paths have been removed.
pub open spec fn unset_all(t: Tree, paths: Seq<Seq<char>>, n: int) -> Tree
    decreases n,
{
    if n <= 0 {
        t
    } else {
        tree_unset(unset_all(t, paths, n - 1), path_segments(paths[n - 1]))
    }
}

/// A value that was set at a path is the value found at that path.
pub proof fn lemma_get_after_set(t: Tree, segments: Seq<Seq<char>>, v: Tree)
    ensures
        tree_get(tree_set(t, segments, v), segments) == Some(v),
    decreases segments.len(),
{
    if segments.len() > 0 {
        let entries = entries_of(t);
        lemma_position(entries, segments[0]);
        match position(entries, segments[0]) {
            Some(at) => {
                let child = tree_set(entries[at].1, segments.skip(1), v);
                lemma_update_value(entries, at, child);
                lemma_get_after_set(entries[at].1, segments.skip(1), v);
            },
            None => {
                let child = tree_set(Tree::Null, segments.skip(1), v);
                let grown = entries.push((segments[0], child));
                lemma_position_is(grown, segments[0], entries.len() as int);
                lemma_get_after_set(Tree::Null, segments.skip(1), v);
            },
        }
    }
}

/// Setting a value at any path and reading that path gives the value back,
/// whatever the tree held before.
pub proof fn law_set_then_get(t: Tree, path: Seq<char>, v: Tree)
    ensures
        tree_get(tree_set(t, path_segments(path), v), path_segments(path)) == Some(v),
{
    lemma_get_after_set(t, path_segments(path), v);
}

/// Setting a well-formed value in a well-formed tree leaves the tree
/// well-formed.
pub proof fn lemma_set_well_formed(t: Tree, segments: Seq<Seq<char>>, v: Tree)
    requires
        well_formed(t),
        well_formed(v),
    ensures
        well_formed(tree_set(t, segments, v)),
    decreases segments.len(),
{
    if segments.len() > 0 {
        let entries = entries_of(t);
        lemma_position(entries, segments[0]);
        match position(entries, segments[0]) {
            Some(at) => {
                let child = tree_set(entries[at].1, segments.skip(1), v);
                lemma_update_value(entries, at, child);
                lemma_set_well_formed(entries[at].1, segments.skip(1), v);
                let after = entries.update(at, (entries[at].0, child));
                assert forall|i: int| 0 <= i < after.len() implies well_formed(
                    (#[trigger] after[i]).1,
                ) by {
                    if i != at {
                        assert(after[i] == entries[i]);
                    }
                }
            },
            None => {
                let child = tree_set(Tree::Null, segments.skip(1), v);
                lemma_set_well_formed(Tree::Null, segments.skip(1), v);
                let after = entries.push((segments[0], child));
                assert forall|i: int| 0 <= i < after.len() implies well_formed(
                    (#[trigger] after[i]).1,
                ) by {
                    if i < entries.len() {
                        assert(after[i] == entries[i]);
                    }
                }
                assert forall|i: int, j: int| 0 <= i < j < after.len() implies (
                #[trigger] after[i]).0 != (#[trigger] after[j]).0 by {
                    assert(after[i] == entries[i]);
                    if j < entries.len() {
                        assert(after[j] == entries[j]);
                    }
                }
            },
        }
    }
}

/// Removing a path from a well-formed tree leaves the tree well-formed, and
/// the path leads to nothing afterwards.
pub proof fn lemma_unset_well_formed(t: Tree, segments: Seq<Seq<char>>)
    requires
        well_formed(t),
    ensures
        well_formed(tree_unset(t, segments)),
        segments.len() > 0 ==> tree_get(tree_unset(t, segments), segments) is None,
    decreases segments.len(),
{
    if segments.len() > 0 {
        match t {
            Tree::Mapping(entries) => {
                lemma_position(entries, segments[0]);
                match position(entries, segments[0]) {
                    Some(at) => {
                        if segments.len() == 1 {
                            lemma_without(entries, segments[0]);
                            let after = entries.remove(at);
                            assert forall|i: int| 0 <= i < after.len() implies well_formed(
                                (#[trigger] after[i]).1,
                            ) by {
                                if i < at {
                                    assert(after[i] == entries[i]);
                                } else {
                                    assert(after[i] == entries[i + 1]);
                                }
                            }
                        } else {
                            let child = tree_unset(entries[at].1, segments.skip(1));
                            lemma_update_value(entries, at, child);
                            lemma_unset_well_formed(entries[at].1, segments.skip(1));
                            let after = entries.update(at, (entries[at].0, child));
                            assert forall|i: int| 0 <= i < after.len() implies well_formed(
                                (#[trigger] after[i]).1,
                            ) by {
                                if i != at {
                                    assert(after[i] == entries[i]);
                                }
                            }
                        }
                    },
                    None => {},
                }
            },
            _ => {},
        }
    }
}

/// Removing a path twice is removing it once.
pub proof fn lemma_unset_twice(t: Tree, segments: Seq<Seq<char>>)
    requires
        well_formed(t),
    ensures
        tree_unset(tree_unset(t, segments), segments) == tree_unset(t, segments),
    decreases segments.len(),
{
    if segments.len() > 0 {
        match t {
            Tree::Mapping(entries) => {
                lemma_position(entries, segments[0]);
                match position(entries, segments[0]) {
                    Some(at) => {
                        if segments.len() == 1 {
                            lemma_without(entries, segments[0]);
                        } else {
                            let child = tree_unset(entries[at].1, segments.skip(1));
                            lemma_update_value(entries, at, child);
                            lemma_unset_twice(entries[at].1, segments.skip(1));
                            let once = entries.update(at, (entries[at].0, child));
                            assert(once.update(at, (once[at].0, child)) == once);
                        }
                    },
                    None => {},
                }
            },
            _ => {},
        }
    }
}

/// Removing a path from a tree that has already lost it changes nothing.
pub proof fn law_unset_idempotent(t: Tree, path: Seq<char>)
    requires
        well_formed(t),
    ensures
        tree_unset(tree_unset(t, path_segments(path)), path_segments(path)) == tree_unset(
            t,
            path_segments(path),
        ),
{
    lemma_unset_twice(t, path_segments(path));
}

/// Two paths part ways: at some place they name different keys, having
/// named the same keys up to there. Neither leads through the other.
pub open spec fn parts_ways(p: Seq<Seq<char>>, q: Seq<Seq<char>>) -> bool {
    exists|d: int| 0 <= d < p.len() && d < q.len() && p[d] != q[d] && p.take(d) == q.take(d)
}

/// Two paths that part ways either do so at once, or begin with the same
/// key and part ways after it.
proof fn lemma_parts_ways_step(p: Seq<Seq<char>>, q: Seq<Seq<char>>)
    requires
        parts_ways(p, q),
    ensures
        p.len() > 0,
        q.len() > 0,
        p[0] == q[0] ==> parts_ways(p.skip(1), q.skip(1)),
{
    let d = choose|d: int|
        0 <= d < p.len() && d < q.len() && p[d] != q[d] && p.take(d) == q.take(d);
    if p[0] == q[0] {
        assert(d > 0);
        assert(p.skip(1).take(d - 1) =~= p.take(d).skip(1));
        assert(q.skip(1).take(d - 1) =~= q.take(d).skip(1));
        assert(p.skip(1)[d - 1] == p[d]);
        assert(q.skip(1)[d - 1] == q[d]);
    }
}

/// Setting a value at one path changes nothing of what is found at a path
/// that parts ways with it.
pub proof fn law_set_keeps_other_paths(t: Tree, p: Seq<Seq<char>>, q: Seq<Seq<char>>, v: Tree)
    requires
        parts_ways(p, q),
    ensures
        tree_get(tree_set(t, p, v), q) == tree_get(t, q),
    decreases p.len(),
{
    lemma_parts_ways_step(p, q);
    let entries = entries_of(t);
    let child = match position(entries, p[0]) {
        Some(at) => tree_set(entries[at].1, p.skip(1), v),
        None => tree_set(Tree::Null, p.skip(1), v),
    };
    let after = upsert(entries, p[0], child);
    assert(tree_set(t, p, v) == Tree::Mapping(after));
    lemma_upsert(entries, p[0], child);
    lemma_position(entries, p[0]);
    lemma_position(entries, q[0]);
    lemma_position(after, q[0]);
    if p[0] == q[0] {
        match position(entries, p[0]) {
            Some(at) => {
                law_set_keeps_other_paths(entries[at].1, p.skip(1), q.skip(1), v);
            },
            None => {
                law_set_keeps_other_paths(Tree::Null, p.skip(1), q.skip(1), v);
            },
        }
    } else {
        assert(position(after, q[0]) == position(entries, q[0]));
        match position(entries, q[0]) {
            Some(at) => {
                assert(after[at] == entries[at]);
            },
            None => {},
        }
    }
}

/// Removing a path changes nothing of what is found at a path that parts
/// ways with it.
pub proof fn law_unset_keeps_other_paths(t: Tree, p: Seq<Seq<char>>, q: Seq<Seq<char>>)
    requires
        parts_ways(p, q),
    ensures
        tree_get(tree_unset(t, p), q) == tree_get(t, q),
    decreases p.len(),
{
    lemma_parts_ways_step(p, q);
    match t {
        Tree::Mapping(entries) => {
            lemma_position(entries, p[0]);
            lemma_position(entries, q[0]);
            match position(entries, p[0]) {
                Some(at) => {
                    if p.len() == 1 {
                        assert(p[0] != q[0]) by {
                            if p[0] == q[0] {
                                assert(parts_ways(p.skip(1), q.skip(1)));
                            }
                        }
                        lemma_without_keeps(entries, p[0]);
                        assert(entries.remove(at) == without(entries, p[0]));
                        assert(value_of(entries.remove(at), q[0]) == value_of(entries, q[0]));
                    } else {
                        let child = tree_unset(entries[at].1, p.skip(1));
                        let after = entries.update(at, (entries[at].0, child));
                        lemma_update_value(entries, at, child);
                        assert(position(after, q[0]) == position(entries, q[0]));
                        if p[0] == q[0] {
                            law_unset_keeps_other_paths(entries[at].1, p.skip(1), q.skip(1));
                        } else {
                            match position(entries, q[0]) {
                                Some(other) => {
                                    assert(after[other] == entries[other]);
                                },
                                None => {},
                            }
                        }
                    }
                },
                None => {},
            }
        },
        _ => {},
    }
}

/// In a well-formed tree a path that was removed leads to nothing.
pub proof fn law_unset_then_get(t: Tree, path: Seq<char>)
    requires
        well_formed(t),
    ensures
        tree_get(tree_unset(t, path_segments(path)), path_segments(path)) is None,
{
    lemma_unset_well_formed(t, path_segments(path));
}

/// The segments of `path` as strings.
pub fn split_path(path: &str) -> (r: Vec<String>)
    ensures
        strings_view(r@) == path_segments(path@),
        r.len() >= 1,
{
    let chars = chars_of(path);
    let pieces = split_chars(&chars, '.');
    let r = strings_of(&pieces);
    assert(strings_view(r@).len() == r.len());
    r
}

/// The value that the segments from position `from` on lead to.
fn get_at<'a>(value: &'a Node, segments: &Vec<String>, from: usize) -> (r: Option<&'a Node>)
    requires
        from <= segments.len(),
    ensures
        match r {
            Some(found) => tree_get(value@, strings_view(segments@).skip(from as int)) == Some(
                found@,
            ),
            None => tree_get(value@, strings_view(segments@).skip(from as int)) is None,
        },
    decreases segments.len() - from,
{
    let ghost rest = strings_view(segments@).skip(from as int);
    if from == segments.len() {
        return Some(value);
    }
    assert(rest[0] == segments@[from as int]@);
    assert(rest.skip(1) == strings_view(segments@).skip(from + 1));
    match value {
        Node::Mapping(entries) => {
            proof {
                lemma_mapping_tree(*entries);
            }
            match find_entry(entries, &segments[from]) {
                Some(at) => get_at(&entries[at].1, segments, from + 1),
                None => None,
            }
        },
        _ => None,
    }
}

/// Puts `new_value` at the place that the segments from position `from` on
/// lead to.
fn set_at(value: &mut Node, segments: &Vec<String>, from: usize, new_value: Node)
    requires
        from <= segments.len(),
    ensures
        final(value)@ == tree_set(
            old(value)@,
            strings_view(segments@).skip(from as int),
            new_value@,
        ),
    decreases segments.len() - from,
{
    let ghost rest = strings_view(segments@).skip(from as int);
    if from == segments.len() {
        *value = new_value;
        return ;
    }
    assert(rest[0] == segments@[from as int]@);
    assert(rest.skip(1) == strings_view(segments@).skip(from + 1));
    if !value.is_mapping() {
        let empty: Vec<(String, Node)> = Vec::new();
        proof {
            lemma_mapping_tree(empty);
            assert(entries_tree(empty@) =~= Seq::empty());
        }
        *value = Node::Mapping(empty);
    }
    let ghost start = *value;
    assert(entries_of(start@) == entries_of(old(value)@));
    match value {
        Node::Mapping(entries) => {
            let ghost before = *entries;
            proof {
                lemma_mapping_tree(before);
            }
            match find_entry(entries, &segments[from]) {
                Some(at) => {
                    let slot = &mut entries[at];
                    set_at(&mut slot.1, segments, from + 1, new_value);
                    proof {
                        lemma_mapping_tree(*entries);
                        let child = tree_set(before@[at as int].1@, rest.skip(1), new_value@);
                        assert(entries_tree(entries@) =~= entries_tree(before@).update(
                            at as int,
                            (before@[at as int].0@, child),
                        ));
                    }
                },
                None => {
                    let mut child = Node::Null;
                    set_at(&mut child, segments, from + 1, new_value);
                    let ghost grown = child@;
                    entries.push((segments[from].clone(), child));
                    proof {
                        lemma_mapping_tree(*entries);
                        assert(entries_tree(entries@) =~= entries_tree(before@).push(
                            (rest[0], grown),
                        ));
                    }
                },
            }
        },
        _ => {},
    }
}

/// Removes the entry that the segments from position `from` on lead to.
fn unset_at(value: &mut Node, segments: &Vec<String>, from: usize)
    requires
        from <= segments.len(),
    ensures
        final(value)@ == tree_unset(old(value)@, strings_view(segments@).skip(from as int)),
    decreases segments.len() - from,
{
    let ghost rest = strings_view(segments@).skip(from as int);
    if from == segments.len() {
        return ;
    }
    assert(rest[0] == segments@[from as int]@);
    assert(rest.skip(1) == strings_view(segments@).skip(from + 1));
    match value {
        Node::Mapping(entries) => {
            let ghost before = *entries;
            proof {
                lemma_mapping_tree(before);
            }
            match find_entry(entries, &segments[from]) {
                Some(at) => {
                    if from + 1 == segments.len() {
                        entries.remove(at);
                        proof {
                            lemma_mapping_tree(*entries);
                            assert(entries_tree(entries@) =~= entries_tree(before@).remove(
                                at as int,
                            ));
                        }
                    } else {
                        let slot = &mut entries[at];
                        unset_at(&mut slot.1, segments, from + 1);
                        proof {
                            lemma_mapping_tree(*entries);
                            let child = tree_unset(before@[at as int].1@, rest.skip(1));
                            assert(entries_tree(entries@) =~= entries_tree(before@).update(
                                at as int,
                                (before@[at as int].0@, child),
                            ));
                        }
                    }
                },
                None => {},
            }
        },
        _ => {},
    }
}

/// The value at `path`.
///
/// Returns `Ok(None)` where the path leads to nothing, and the error
/// `Empty key path` for the empty path.
pub fn get_value(value: &Node, path: &str) -> (r: Result<Option<Node>, String>)
    ensures
        match r {
            Ok(found) => path@.len() > 0 && option_tree(found) == tree_get(
                value@,
                path_segments(path@),
            ),
            Err(msg) => path@.len() == 0 && msg@ == "Empty key path"@,
        },
{
    if path.unicode_len() == 0 {
        return Err("Empty key path".to_owned());
    }
    let segments = split_path(path);
    assert(strings_view(segments@).skip(0) == strings_view(segments@));
    match get_at(value, &segments, 0) {
        Some(found) => Ok(Some(clone_value(found))),
        None => Ok(None),
    }
}

/// Puts a copy of `new_value` at `path`, creating the mappings on the way.
///
/// A value on the way that is no mapping, the root included, is replaced by
/// a mapping. The empty path is refused with `Empty key path`, and the
/// document is then left as it was.
pub fn set_value(value: &mut Node, path: &str, new_value: &Node) -> (r: Result<(), String>)
    ensures
        match r {
            Ok(_) => path@.len() > 0 && final(value)@ == tree_set(
                old(value)@,
                path_segments(path@),
                new_value@,
            ),
            Err(msg) => path@.len() == 0 && msg@ == "Empty key path"@ && final(value)@ == old(
                value,
            )@,
        },
        well_formed(old(value)@) && well_formed(new_value@) ==> well_formed(final(value)@),
{
    if path.unicode_len() == 0 {
        return Err("Empty key path".to_owned());
    }
    let segments = split_path(path);
    assert(strings_view(segments@).skip(0) == strings_view(segments@));
    proof {
        if well_formed(value@) && well_formed(new_value@) {
            lemma_set_well_formed(value@, path_segments(path@), new_value@);
        }
    }
    set_at(value, &segments, 0, clone_value(new_value));
    Ok(())
}

/// Puts the string `new_value` at `path` (see [`set_value`]).
pub fn set_at_path(value: &mut Node, path: &str, new_value: &str) -> (r: Result<(), String>)
    ensures
        match r {
            Ok(_) => path@.len() > 0 && final(value)@ == tree_set(
                old(value)@,
                path_segments(path@),
                Tree::Text(new_value@),
            ),
            Err(msg) => path@.len() == 0 && msg@ == "Empty key path"@ && final(value)@ == old(
                value,
            )@,
        },
        well_formed(old(value)@) ==> well_formed(final(value)@),
{
    let text = Node::String(new_value.to_owned());
    set_value(value, path, &text)
}

/// Removes the entry at `path`.
///
/// A path that leads to nothing removes nothing. The empty path is refused
/// with `Empty key path`.
pub fn unset_at_path(value: &mut Node, path: &str) -> (r: Result<(), String>)
    ensures
        match r {
            Ok(_) => path@.len() > 0 && final(value)@ == tree_unset(
                old(value)@,
                path_segments(path@),
            ),
            Err(msg) => path@.len() == 0 && msg@ == "Empty key path"@ && final(value)@ == old(
                value,
            )@,
        },
        well_formed(old(value)@) ==> well_formed(final(value)@),
{
    if path.unicode_len() == 0 {
        return Err("Empty key path".to_owned());
    }
    let segments = split_path(path);
    assert(strings_view(segments@).skip(0) == strings_view(segments@));
    proof {
        if well_formed(value@) {
            lemma_unset_well_formed(value@, path_segments(path@));
        }
    }
    unset_at(value, &segments, 0);
    Ok(())
}

/// Sets the string `text` at each `path` of `updates`, in their order.
///
/// Stops at the first empty path with the error `Empty key path`; the
/// updates before it have then been made.
pub fn set_values(value: &mut Node, updates: &Updates) -> (r: Result<(), String>)
    ensures
        final(value)@ == set_all(
            old(value)@,
            updates@,
            first_empty(update_paths(updates@), 0),
        ),
        match r {
            Ok(_) => first_empty(update_paths(updates@), 0) == updates@.len(),
            Err(msg) => first_empty(update_paths(updates@), 0) < updates@.len() && msg@
                == "Empty key path"@,
        },
{
    let ghost paths = update_paths(updates@);
    let mut i: usize = 0;
    while i < updates.len()
        invariant
            i <= updates@.len(),
            paths == update_paths(updates@),
            first_empty(paths, i as int) == first_empty(paths, 0),
            value@ == set_all(old(value)@, updates@, i as int),
        decreases updates@.len() - i,
    {
        match set_at_path(value, updates.key_at(i).as_str(), updates.value_at(i).as_str()) {
            Ok(_) => {},
            Err(msg) => {
                return Err(msg);
            },
        }
        i += 1;
    }
    Ok(())
}

/// Removes the entries at `keys`, in their order.
///
/// Stops at the first empty path with the error `Empty key path`; the
/// paths before it have then been removed.
pub fn unset_values(value: &mut Node, keys: &[String]) -> (r: Result<(), String>)
    ensures
        final(value)@ == unset_all(
            old(value)@,
            strings_view(keys@),
            first_empty(strings_view(keys@), 0),
        ),
        match r {
            Ok(_) => first_empty(strings_view(keys@), 0) == keys@.len(),
            Err(msg) => first_empty(strings_view(keys@), 0) < keys@.len() && msg@
                == "Empty key path"@,
        },
{
    let ghost paths = strings_view(keys@);
    let mut i: usize = 0;
    while i < keys.len()
        invariant
            i <= keys.len(),
            paths == strings_view(keys@),
            first_empty(paths, i as int) == first_empty(paths, 0),
            value@ == unset_all(old(value)@, paths, i as int),
        decreases keys.len() - i,
    {
        match unset_at_path(value, keys[i].as_str()) {
            Ok(_) => {},
            Err(msg) => {
                return Err(msg);
            },
        }
        i += 1;
    }
    Ok(())
}

} // verus!
