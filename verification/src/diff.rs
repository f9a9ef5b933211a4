//! The difference between a document and its edited form.
//!
//! The difference is taken for the sake of patching the text of the
//! document: which paths got a new value, which paths are gone, and whether
//! all of that can be done by rewriting single lines.

use crate::keyed::{lemma_position_is, lemma_position_none, lemma_update_value, position, upsert};
use crate::text::{append_str, chars_of, string_of, strings_view};
use crate::tree::{
    clone_value, entries_of, entries_tree, find_entry, law_tree_eq_reflexive, lemma_mapping_tree,
    tree_eq, values_equal, well_formed, Node, Tree,
};
use vstd::prelude::*;

verus! {

/// The path of the entry `key` in the mapping at `prefix`. The root has the
/// empty path.
pub open spec fn child_path(prefix: Seq<char>, key: Seq<char>) -> Seq<char> {
    if prefix.len() == 0 {
        key
    } else {
        prefix + seq!['.'] + key
    }
}

/// Whether the edit from `original` to `edited` can be made line by line.
///
/// Between two mappings it can if every entry of `edited` can be reached
/// (see [`entry_patchable`]); the entries that are gone never stand in the
/// way. Where one of the two trees is a mapping and the other is not, it
/// cannot: no line can turn a scalar into a block or a block into a scalar.
/// Between two trees of which none is a mapping it can.
pub open spec fn line_patchable(original: Tree, edited: Tree) -> bool
    decreases edited, 0int,
{
    match (original, edited) {
        (Tree::Mapping(o), Tree::Mapping(n)) => forall|i: int|
            0 <= i < n.len() ==> entry_patchable(o, #[trigger] n[i]),
        _ => tree_eq(original, edited) || (!(original is Mapping) && !(edited is Mapping)),
    }
}

/// Whether the entry `entry` of the edited mapping can be reached line by
/// line from the entries `o` of the original mapping: a new key if its value
/// is no mapping, a key that was there if its value is as it was or can
/// itself be reached line by line.
pub open spec fn entry_patchable(o: Seq<(Seq<char>, Tree)>, entry: (Seq<char>, Tree)) -> bool
    decreases entry.1, 1int,
{
    match position(o, entry.0) {
        None => !(entry.1 is Mapping),
        Some(at) => tree_eq(o[at].1, entry.1) || line_patchable(o[at].1, entry.1),
    }
}

/// The paths that the first `k` entries of the mapping `original` give up: the
/// path of an entry whose key `edited` lacks, and, where both have the key with
/// a mapping for its value, the paths given up inside. Nothing is given up
/// unless both trees are mappings.
pub open spec fn removed_upto(original: Tree, edited: Tree, prefix: Seq<char>, k: int) -> Seq<
    Seq<char>,
>
    decreases original, k,
{
    if k <= 0 || k > entries_of(original).len() || !(original is Mapping) || !(edited is Mapping) {
        Seq::empty()
    } else {
        let entry = entries_of(original)[k - 1];
        let full = child_path(prefix, entry.0);
        let found = position(entries_of(edited), entry.0);
        removed_upto(original, edited, prefix, k - 1) + match found {
            None => seq![full],
            Some(at) => if entry.1 is Mapping && entries_of(edited)[at].1 is Mapping {
                removed_upto(
                    entry.1,
                    entries_of(edited)[at].1,
                    full,
                    entries_of(entry.1).len() as int,
                )
            } else {
                Seq::empty()
            },
        }
    }
}

/// The paths that are in `original` and not in `edited`, in the order of `original`. A
/// path below a removed path is not listed again.
pub open spec fn removed_paths(original: Tree, edited: Tree, prefix: Seq<char>) -> Seq<Seq<char>> {
    removed_upto(original, edited, prefix, entries_of(original).len() as int)
}

/// The changes `acc` together with those that the first `k` entries of the
/// mapping `edited` bring.
pub open spec fn changes_upto(
    acc: Seq<(Seq<char>, Tree)>,
    original: Tree,
    edited: Tree,
    prefix: Seq<char>,
    k: int,
) -> Seq<(Seq<char>, Tree)>
    decreases edited, k,
{
    if k <= 0 || k > entries_of(edited).len() || !(edited is Mapping) {
        acc
    } else {
        let before = changes_upto(acc, original, edited, prefix, k - 1);
        let entry = entries_of(edited)[k - 1];
        let full = child_path(prefix, entry.0);
        match position(entries_of(original), entry.0) {
            None => upsert(before, full, entry.1),
            Some(at) => {
                let was = entries_of(original)[at].1;
                if !tree_eq(was, entry.1) {
                    if entry.1 is Mapping || entry.1 is Sequence {
                        changes_into(before, was, entry.1, full)
                    } else {
                        upsert(before, full, entry.1)
                    }
                } else if entry.1 is Mapping {
                    changes_into(before, was, entry.1, full)
                } else {
                    before
                }
            },
        }
    }
}

/// The changes `acc` together with those between `original` and `edited`, which
/// stand at `prefix`.
///
/// Between two mappings every entry of `edited` is looked at: a new key is a
/// change, a key whose value differs is a change if the new value is a
/// scalar, and is looked into if it is a mapping or a sequence. Two trees
/// that are not both mappings are one change at `prefix` if they differ. A
/// path that changes twice keeps its first place and the later value.
pub open spec fn changes_into(
    acc: Seq<(Seq<char>, Tree)>,
    original: Tree,
    edited: Tree,
    prefix: Seq<char>,
) -> Seq<(Seq<char>, Tree)>
    decreases edited, entries_of(edited).len() + 1,
{
    if original is Mapping && edited is Mapping {
        changes_upto(acc, original, edited, prefix, entries_of(edited).len() as int)
    } else if tree_eq(original, edited) {
        acc
    } else {
        upsert(acc, prefix, edited)
    }
}

/// The changed paths with their new values, from the root.
pub open spec fn changed_values(original: Tree, edited: Tree) -> Seq<(Seq<char>, Tree)> {
    changes_into(Seq::empty(), original, edited, Seq::empty())
}

/// An edit that changes nothing can be made line by line.
pub proof fn lemma_same_patchable(t: Tree)
    requires
        well_formed(t),
    ensures
        line_patchable(t, t),
{
    match t {
        Tree::Mapping(entries) => {
            assert forall|i: int| 0 <= i < entries.len() implies entry_patchable(
                entries,
                #[trigger] entries[i],
            ) by {
                lemma_position_is(entries, entries[i].0, i);
                law_tree_eq_reflexive(entries[i].1);
            }
        },
        _ => {},
    }
}

/// An edit that changes nothing removes no path.
pub proof fn lemma_same_removes_nothing(t: Tree, prefix: Seq<char>, k: int)
    requires
        well_formed(t),
    ensures
        removed_upto(t, t, prefix, k) == Seq::<Seq<char>>::empty(),
    decreases t, k,
{
    if !(k <= 0 || k > entries_of(t).len() || !(t is Mapping)) {
        let entries = entries_of(t);
        let entry = entries[k - 1];
        lemma_same_removes_nothing(t, prefix, k - 1);
        lemma_position_is(entries, entry.0, k - 1);
        if entry.1 is Mapping {
            lemma_same_removes_nothing(
                entry.1,
                child_path(prefix, entry.0),
                entries_of(entry.1).len() as int,
            );
        }
    }
}

/// An edit that changes nothing brings no change among the first `k` entries.
pub proof fn lemma_same_changes_upto(
    acc: Seq<(Seq<char>, Tree)>,
    t: Tree,
    prefix: Seq<char>,
    k: int,
)
    requires
        well_formed(t),
    ensures
        changes_upto(acc, t, t, prefix, k) == acc,
    decreases t, k,
{
    if t is Mapping {
        let entries = entries_of(t);
        if 0 < k <= entries.len() {
            let entry = entries[k - 1];
            lemma_same_changes_upto(acc, t, prefix, k - 1);
            lemma_position_is(entries, entry.0, k - 1);
            law_tree_eq_reflexive(entry.1);
            let full = child_path(prefix, entry.0);
            if entry.1 is Mapping {
                lemma_same_changes_upto(acc, entry.1, full, entries_of(entry.1).len() as int);
                assert(changes_into(acc, entry.1, entry.1, full) == acc);
            }
            assert(changes_upto(acc, t, t, prefix, k - 1) == acc);
            assert(position(entries_of(t), entry.0) == Some(k - 1));
            assert(tree_eq(entries_of(t)[k - 1].1, entry.1));
        }
    }
}

/// An edit that changes nothing brings no change.
pub proof fn lemma_same_changes_nothing(acc: Seq<(Seq<char>, Tree)>, t: Tree, prefix: Seq<char>)
    requires
        well_formed(t),
    ensures
        changes_into(acc, t, t, prefix) == acc,
{
    law_tree_eq_reflexive(t);
    lemma_same_changes_upto(acc, t, prefix, entries_of(t).len() as int);
}

/// The mapping `entries` with the value `v` in the place of the value of its
/// entry `at`.
pub open spec fn with_value(entries: Seq<(Seq<char>, Tree)>, at: int, v: Tree) -> Tree {
    Tree::Mapping(entries.update(at, (entries[at].0, v)))
}

/// Where one entry of a mapping gets another value, the changes among the
/// first `k` entries are that one change, once its entry is among them.
proof fn lemma_one_change_upto(entries: Seq<(Seq<char>, Tree)>, at: int, v: Tree, k: int)
    requires
        well_formed(Tree::Mapping(entries)),
        0 <= at < entries.len(),
        0 <= k <= entries.len(),
        !(v is Mapping),
        !tree_eq(entries[at].1, v),
    ensures
        changes_upto(
            Seq::empty(),
            Tree::Mapping(entries),
            with_value(entries, at, v),
            Seq::empty(),
            k,
        ) == if k <= at {
            Seq::<(Seq<char>, Tree)>::empty()
        } else {
            seq![(entries[at].0, v)]
        },
    decreases k,
{
    if k > 0 {
        let original = Tree::Mapping(entries);
        let edited = with_value(entries, at, v);
        let root = Seq::<char>::empty();
        let none = Seq::<(Seq<char>, Tree)>::empty();
        lemma_one_change_upto(entries, at, v, k - 1);
        let before = changes_upto(none, original, edited, root, k - 1);
        let entry = entries_of(edited)[k - 1];
        assert(entry.0 == entries[k - 1].0);
        lemma_position_is(entries, entry.0, k - 1);
        assert(child_path(root, entry.0) == entry.0);
        if k - 1 == at {
            assert(entry.1 == v);
            assert(before == none);
            assert(changes_into(before, entries[at].1, v, entry.0) == upsert(before, entry.0, v));
            lemma_position_none(before, entry.0);
            assert(upsert(before, entry.0, v) == seq![(entry.0, v)]);
        } else {
            assert(entry == entries[k - 1]);
            law_tree_eq_reflexive(entry.1);
            if entry.1 is Mapping {
                lemma_same_changes_nothing(before, entry.1, entry.0);
            }
        }
    }
}

/// Where one entry of a mapping gets another value, no path among the first
/// `k` entries is given up.
proof fn lemma_one_change_removes_nothing(
    entries: Seq<(Seq<char>, Tree)>,
    at: int,
    v: Tree,
    k: int,
)
    requires
        well_formed(Tree::Mapping(entries)),
        0 <= at < entries.len(),
        0 <= k <= entries.len(),
        !(entries[at].1 is Mapping),
    ensures
        removed_upto(Tree::Mapping(entries), with_value(entries, at, v), Seq::empty(), k)
            == Seq::<Seq<char>>::empty(),
    decreases k,
{
    if k > 0 {
        let after = entries.update(at, (entries[at].0, v));
        lemma_one_change_removes_nothing(entries, at, v, k - 1);
        let entry = entries[k - 1];
        lemma_update_value(entries, at, v);
        lemma_position_is(entries, entry.0, k - 1);
        assert(position(after, entry.0) == Some(k - 1));
        if k - 1 != at {
            assert(after[k - 1] == entry);
            if entry.1 is Mapping {
                lemma_same_removes_nothing(
                    entry.1,
                    child_path(Seq::empty(), entry.0),
                    entries_of(entry.1).len() as int,
                );
            }
        }
    }
}

/// The difference that one new value makes: where the entry `at` of a
/// well-formed mapping gets the value `v`, which differs from the value it
/// had, and neither of the two values is a mapping, the edit can be made line
/// by line, the one changed path is the key of the entry, with `v`, and no
/// path is removed.
pub proof fn lemma_one_value_changed(entries: Seq<(Seq<char>, Tree)>, at: int, v: Tree)
    requires
        well_formed(Tree::Mapping(entries)),
        0 <= at < entries.len(),
        !(entries[at].1 is Mapping),
        !(v is Mapping),
        !tree_eq(entries[at].1, v),
    ensures
        line_patchable(Tree::Mapping(entries), with_value(entries, at, v)),
        changed_values(Tree::Mapping(entries), with_value(entries, at, v)) == seq![
            (entries[at].0, v),
        ],
        removed_paths(Tree::Mapping(entries), with_value(entries, at, v), Seq::empty())
            == Seq::<Seq<char>>::empty(),
{
    let after = entries.update(at, (entries[at].0, v));
    lemma_one_change_upto(entries, at, v, entries.len() as int);
    lemma_one_change_removes_nothing(entries, at, v, entries.len() as int);
    assert forall|i: int| 0 <= i < after.len() implies entry_patchable(
        entries,
        #[trigger] after[i],
    ) by {
        assert(after[i].0 == entries[i].0);
        lemma_position_is(entries, after[i].0, i);
        if i != at {
            assert(after[i] == entries[i]);
            law_tree_eq_reflexive(entries[i].1);
        }
    }
}

/// The difference between a document and its edited form.
pub struct ChangeSet {
    /// The paths that got a new value, each with that value.
    pub changes: Vec<(String, Node)>,
    /// The paths that are gone.
    pub removed: Vec<String>,
    /// Whether the edit can be made line by line.
    pub patchable: bool,
}

/// The path of the entry `key` in the mapping at `prefix`.
pub fn join_path(prefix: &str, key: &str) -> (r: String)
    ensures
        r@ == child_path(prefix@, key@),
{
    let mut out = chars_of(prefix);
    if out.len() > 0 {
        out.push('.');
    }
    append_str(&mut out, key);
    string_of(&out)
}

/// Puts `value` under `key` among the changes: in the place of the first
/// change of that key, or at the end.
pub fn record_change(changes: &mut Vec<(String, Node)>, key: String, value: Node)
    ensures
        entries_tree(final(changes)@) == upsert(entries_tree(old(changes)@), key@, value@),
{
    let ghost before = entries_tree(changes@);
    match find_entry(changes, &key) {
        Some(at) => {
            let entry = changes.remove(at);
            changes.insert(at, (entry.0, value));
            assert(entries_tree(changes@) =~= upsert(before, key@, value@));
        },
        None => {
            changes.push((key, value));
            assert(entries_tree(changes@) =~= upsert(before, key@, value@));
        },
    }
}

/// Whether the edit from `original` to `edited` is more than line patching can do
/// (see [`line_patchable`]).
#[verifier::loop_isolation(false)]
pub fn has_unhandleable_nested_changes(original: &Node, edited: &Node) -> (r: bool)
    ensures
        r == !line_patchable(original@, edited@),
    decreases edited,
{
    match (original, edited) {
        (Node::Mapping(o), Node::Mapping(n)) => {
            proof {
                lemma_mapping_tree(*o);
                lemma_mapping_tree(*n);
            }
            let mut i: usize = 0;
            while i < n.len()
                invariant
                    i <= n.len(),
                    forall|j: int|
                        0 <= j < i ==> entry_patchable(
                            entries_tree(o@),
                            #[trigger] entries_tree(n@)[j],
                        ),
                decreases n.len() - i,
            {
                let fine = match find_entry(o, &n[i].0) {
                    None => !n[i].1.is_mapping(),
                    Some(at) => values_equal(&o[at].1, &n[i].1)
                        || !has_unhandleable_nested_changes(&o[at].1, &n[i].1),
                };
                if !fine {
                    assert(!entry_patchable(entries_tree(o@), entries_tree(n@)[i as int]));
                    return true;
                }
                i += 1;
            }
            false
        },
        _ => !values_equal(original, edited) && (original.is_mapping() || edited.is_mapping()),
    }
}

/// Appends to `removed` the paths that are in `original` and not in `edited` (see
/// [`removed_paths`]); `prefix` is the path of the two trees.
#[verifier::loop_isolation(false)]
pub fn collect_removed_keys(original: &Node, edited: &Node, prefix: &str, removed: &mut Vec<String>)
    ensures
        strings_view(final(removed)@) == strings_view(old(removed)@) + removed_paths(
            original@,
            edited@,
            prefix@,
        ),
    decreases original,
{
    let ghost start = strings_view(removed@);
    match (original, edited) {
        (Node::Mapping(o), Node::Mapping(n)) => {
            proof {
                lemma_mapping_tree(*o);
                lemma_mapping_tree(*n);
            }
            let mut i: usize = 0;
            assert(strings_view(removed@) == start + removed_upto(original@, edited@, prefix@, 0));
            while i < o.len()
                invariant
                    i <= o.len(),
                    strings_view(removed@) == start + removed_upto(
                        original@,
                        edited@,
                        prefix@,
                        i as int,
                    ),
                decreases o.len() - i,
            {
                let full = join_path(prefix, o[i].0.as_str());
                let ghost before = strings_view(removed@);
                match find_entry(n, &o[i].0) {
                    None => {
                        removed.push(full);
                        assert(strings_view(removed@) == before + seq![full@]);
                    },
                    Some(at) => {
                        if o[i].1.is_mapping() && n[at].1.is_mapping() {
                            collect_removed_keys(&o[i].1, &n[at].1, full.as_str(), removed);
                        } else {
                            assert(before + Seq::<Seq<char>>::empty() == before);
                        }
                    },
                }
                i += 1;
            }
        },
        _ => {
            assert(start + Seq::<Seq<char>>::empty() == start);
        },
    }
}

/// Adds to `changes` the paths that have a new value in `edited` (see
/// [`changes_into`]); `prefix` is the path of the two trees.
#[verifier::loop_isolation(false)]
pub fn collect_value_changes(
    original: &Node,
    edited: &Node,
    prefix: &str,
    changes: &mut Vec<(String, Node)>,
)
    ensures
        entries_tree(final(changes)@) == changes_into(
            entries_tree(old(changes)@),
            original@,
            edited@,
            prefix@,
        ),
    decreases edited,
{
    let ghost start = entries_tree(changes@);
    match (original, edited) {
        (Node::Mapping(o), Node::Mapping(n)) => {
            proof {
                lemma_mapping_tree(*o);
                lemma_mapping_tree(*n);
            }
            let mut i: usize = 0;
            while i < n.len()
                invariant
                    i <= n.len(),
                    entries_tree(changes@) == changes_upto(
                        start,
                        original@,
                        edited@,
                        prefix@,
                        i as int,
                    ),
                decreases n.len() - i,
            {
                let full = join_path(prefix, n[i].0.as_str());
                match find_entry(o, &n[i].0) {
                    None => {
                        record_change(changes, full, clone_value(&n[i].1));
                    },
                    Some(at) => {
                        if !values_equal(&o[at].1, &n[i].1) {
                            if n[i].1.is_mapping() || n[i].1.is_sequence() {
                                collect_value_changes(&o[at].1, &n[i].1, full.as_str(), changes);
                            } else {
                                record_change(changes, full, clone_value(&n[i].1));
                            }
                        } else if n[i].1.is_mapping() {
                            collect_value_changes(&o[at].1, &n[i].1, full.as_str(), changes);
                        }
                    },
                }
                i += 1;
            }
        },
        _ => {
            if !values_equal(original, edited) {
                record_change(changes, prefix.to_owned(), clone_value(edited));
            }
        },
    }
}

/// The difference between the document `original` and its edited form `edited`.
pub fn compare(original: &Node, edited: &Node) -> (r: ChangeSet)
    ensures
        entries_tree(r.changes@) == changed_values(original@, edited@),
        strings_view(r.removed@) == removed_paths(original@, edited@, Seq::empty()),
        r.patchable == line_patchable(original@, edited@),
{
    let mut changes: Vec<(String, Node)> = Vec::new();
    let mut removed: Vec<String> = Vec::new();
    assert(entries_tree(changes@) =~= Seq::empty());
    assert(strings_view(removed@) =~= Seq::empty());
    let root = String::new();
    collect_value_changes(original, edited, root.as_str(), &mut changes);
    collect_removed_keys(original, edited, root.as_str(), &mut removed);
    let ghost gone = removed_paths(original@, edited@, Seq::empty());
    assert(Seq::<Seq<char>>::empty() + gone == gone);
    let patchable = !has_unhandleable_nested_changes(original, edited);
    ChangeSet { changes, removed, patchable }
}

} // verus!
