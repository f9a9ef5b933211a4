//! The document tree.
//!
//! A document is a tree of mappings, sequences and scalars. [`Node`] is the
//! tree that programs hold; [`Tree`] is the same tree as a mathematical
//! value, and is what every contract of the library speaks of.

use crate::keyed::{
    distinct_keys, lemma_position, lemma_position_is, lemma_position_none, lemma_same_keys,
    position,
};
use vstd::prelude::*;

verus! {

/// A document tree as a mathematical value.
pub enum Tree {
    /// The null scalar.
    Null,
    /// A boolean scalar.
    Bool(bool),
    /// A number, by its canonical text.
    Number(Seq<char>),
    /// A string scalar.
    Text(Seq<char>),
    /// A sequence of trees.
    Sequence(Seq<Tree>),
    /// A mapping: its entries in insertion order.
    Mapping(Seq<(Seq<char>, Tree)>),
}

/// A document tree.
///
/// A number is held as its canonical text (`42`, `-7`, `1.5`, `.inf`). A
/// mapping holds its entries in insertion order; a well-formed mapping has
/// no key twice (see [`well_formed`]).
#[derive(Debug)]
pub enum Node {
    Null,
    Bool(bool),
    Number(String),
    String(String),
    Sequence(Vec<Node>),
    Mapping(Vec<(String, Node)>),
}

/// The tree that `v` holds.
pub open spec fn tree_of(v: Node) -> Tree
    decreases v,
{
    match v {
        Node::Null => Tree::Null,
        Node::Bool(b) => Tree::Bool(b),
        Node::Number(n) => Tree::Number(n@),
        Node::String(s) => Tree::Text(s@),
        Node::Sequence(items) => Tree::Sequence(
            Seq::new(
                items@.len(),
                |i: int|
                    if 0 <= i < items@.len() {
                        tree_of(items@[i])
                    } else {
                        Tree::Null
                    },
            ),
        ),
        Node::Mapping(entries) => Tree::Mapping(
            Seq::new(
                entries@.len(),
                |i: int|
                    if 0 <= i < entries@.len() {
                        (entries@[i].0@, tree_of(entries@[i].1))
                    } else {
                        (Seq::empty(), Tree::Null)
                    },
            ),
        ),
    }
}

impl View for Node {
    type V = Tree;

    open spec fn view(&self) -> Tree {
        tree_of(*self)
    }
}

/// The trees of a vector of values, in order.
pub open spec fn items_tree(items: Seq<Node>) -> Seq<Tree> {
    Seq::new(items.len(), |i: int| tree_of(items[i]))
}

/// The entries of a mapping as keys and trees.
pub open spec fn entries_tree(entries: Seq<(String, Node)>) -> Seq<(Seq<char>, Tree)> {
    Seq::new(entries.len(), |i: int| (entries[i].0@, tree_of(entries[i].1)))
}

/// The trees of a vector of optional values.
pub open spec fn option_tree(v: Option<Node>) -> Option<Tree> {
    match v {
        Some(v) => Some(v@),
        None => None,
    }
}

/// The tree of a sequence is the sequence of the trees of its items.
pub proof fn lemma_sequence_tree(items: Vec<Node>)
    ensures
        Node::Sequence(items)@ == Tree::Sequence(items_tree(items@)),
{
    assert(Node::Sequence(items)@->Sequence_0 =~= items_tree(items@));
}

/// The tree of a mapping is the mapping of its keys to the trees of their
/// values.
pub proof fn lemma_mapping_tree(entries: Vec<(String, Node)>)
    ensures
        Node::Mapping(entries)@ == Tree::Mapping(entries_tree(entries@)),
{
    assert(Node::Mapping(entries)@->Mapping_0 =~= entries_tree(entries@));
}

/// The entries of a mapping; a tree that is no mapping has none.
pub open spec fn entries_of(t: Tree) -> Seq<(Seq<char>, Tree)> {
    match t {
        Tree::Mapping(entries) => entries,
        _ => Seq::empty(),
    }
}

/// No mapping anywhere in the tree has a key twice.
pub open spec fn well_formed(t: Tree) -> bool
    decreases t,
{
    match t {
        Tree::Sequence(items) => forall|i: int|
            0 <= i < items.len() ==> well_formed(#[trigger] items[i]),
        Tree::Mapping(entries) => distinct_keys(entries) && forall|i: int|
            0 <= i < entries.len() ==> well_formed((#[trigger] entries[i]).1),
        _ => true,
    }
}

/// Equality of documents: the same kind of node with equal content, where
/// the order of a sequence counts and the order of a mapping's entries does
/// not.
pub open spec fn tree_eq(a: Tree, b: Tree) -> bool
    decreases a, 0int,
{
    match (a, b) {
        (Tree::Null, Tree::Null) => true,
        (Tree::Bool(x), Tree::Bool(y)) => x == y,
        (Tree::Number(x), Tree::Number(y)) => x == y,
        (Tree::Text(x), Tree::Text(y)) => x == y,
        (Tree::Sequence(x), Tree::Sequence(y)) => x.len() == y.len() && forall|i: int|
            0 <= i < x.len() ==> tree_eq(#[trigger] x[i], y[i]),
        (Tree::Mapping(x), Tree::Mapping(y)) => x.len() == y.len() && forall|i: int|
            0 <= i < x.len() ==> entry_matches(#[trigger] x[i], y),
        _ => false,
    }
}

/// The mapping `others` has the key of `entry`, with an equal value.
pub open spec fn entry_matches(entry: (Seq<char>, Tree), others: Seq<(Seq<char>, Tree)>) -> bool
    decreases entry.1, 1int,
{
    match position(others, entry.0) {
        Some(at) => tree_eq(entry.1, others[at].1),
        None => false,
    }
}

/// A well-formed document equals itself.
pub proof fn law_tree_eq_reflexive(t: Tree)
    requires
        well_formed(t),
    ensures
        tree_eq(t, t),
    decreases t,
{
    match t {
        Tree::Sequence(items) => {
            assert forall|i: int| 0 <= i < items.len() implies tree_eq(
                #[trigger] items[i],
                items[i],
            ) by {
                law_tree_eq_reflexive(items[i]);
            }
        },
        Tree::Mapping(entries) => {
            assert forall|i: int| 0 <= i < entries.len() implies entry_matches(
                #[trigger] entries[i],
                entries,
            ) by {
                lemma_position_is(entries, entries[i].0, i);
                law_tree_eq_reflexive(entries[i].1);
            }
        },
        _ => {},
    }
}

/// Equal documents are equal the other way round.
pub proof fn law_tree_eq_symmetric(a: Tree, b: Tree)
    requires
        well_formed(a),
        well_formed(b),
        tree_eq(a, b),
    ensures
        tree_eq(b, a),
    decreases a,
{
    match (a, b) {
        (Tree::Sequence(x), Tree::Sequence(y)) => {
            assert forall|i: int| 0 <= i < y.len() implies tree_eq(#[trigger] y[i], x[i]) by {
                assert(tree_eq(x[i], y[i]));
                law_tree_eq_symmetric(x[i], y[i]);
            }
        },
        (Tree::Mapping(x), Tree::Mapping(y)) => {
            assert forall|i: int| 0 <= i < x.len() implies position(y, (#[trigger] x[i]).0)
                is Some by {
                assert(entry_matches(x[i], y));
            }
            lemma_same_keys(x, y);
            assert forall|j: int| 0 <= j < y.len() implies entry_matches(#[trigger] y[j], x) by {
                lemma_position(x, y[j].0);
                let i = position(x, y[j].0)->Some_0;
                assert(entry_matches(x[i], y));
                lemma_position_is(y, x[i].0, j);
                law_tree_eq_symmetric(x[i].1, y[j].1);
            }
        },
        _ => {},
    }
}

/// Two documents that equal a third one are equal.
pub proof fn law_tree_eq_transitive(a: Tree, b: Tree, c: Tree)
    requires
        tree_eq(a, b),
        tree_eq(b, c),
    ensures
        tree_eq(a, c),
    decreases a,
{
    match (a, b, c) {
        (Tree::Sequence(x), Tree::Sequence(y), Tree::Sequence(z)) => {
            assert forall|i: int| 0 <= i < x.len() implies tree_eq(#[trigger] x[i], z[i]) by {
                assert(tree_eq(x[i], y[i]));
                assert(tree_eq(y[i], z[i]));
                law_tree_eq_transitive(x[i], y[i], z[i]);
            }
        },
        (Tree::Mapping(x), Tree::Mapping(y), Tree::Mapping(z)) => {
            assert forall|i: int| 0 <= i < x.len() implies entry_matches(#[trigger] x[i], z) by {
                assert(entry_matches(x[i], y));
                lemma_position(y, x[i].0);
                let j = position(y, x[i].0)->Some_0;
                assert(entry_matches(y[j], z));
                let k = position(z, y[j].0)->Some_0;
                law_tree_eq_transitive(x[i].1, y[j].1, z[k].1);
            }
        },
        _ => {},
    }
}

impl Node {
    /// Whether the value is a mapping.
    pub fn is_mapping(&self) -> (r: bool)
        ensures
            r == (self@ is Mapping),
    {
        match self {
            Node::Mapping(_) => true,
            _ => false,
        }
    }

    /// Whether the value is a sequence.
    pub fn is_sequence(&self) -> (r: bool)
        ensures
            r == (self@ is Sequence),
    {
        match self {
            Node::Sequence(_) => true,
            _ => false,
        }
    }

    /// The text of a string scalar.
    pub fn as_str(&self) -> (r: Option<&str>)
        ensures
            match r {
                Some(s) => self@ == Tree::Text(s@),
                None => !(self@ is Text),
            },
    {
        match self {
            Node::String(s) => Some(s.as_str()),
            _ => None,
        }
    }
}

/// The position of the first entry with the key `key`.
pub fn find_entry(entries: &Vec<(String, Node)>, key: &String) -> (r: Option<usize>)
    ensures
        match r {
            Some(at) => position(entries_tree(entries@), key@) == Some(at as int),
            None => position(entries_tree(entries@), key@) is None,
        },
{
    let mut i: usize = 0;
    while i < entries.len()
        invariant
            i <= entries.len(),
            forall|j: int| 0 <= j < i ==> (#[trigger] entries_tree(entries@)[j]).0 != key@,
        decreases entries.len() - i,
    {
        if entries[i].0 == *key {
            proof {
                lemma_position_is(entries_tree(entries@), key@, i as int);
            }
            return Some(i);
        }
        i += 1;
    }
    proof {
        lemma_position_none(entries_tree(entries@), key@);
    }
    None
}

/// A copy of `v`.
#[verifier::loop_isolation(false)]
pub fn clone_value(v: &Node) -> (r: Node)
    ensures
        r@ == v@,
    decreases v,
{
    match v {
        Node::Null => Node::Null,
        Node::Bool(b) => Node::Bool(*b),
        Node::Number(n) => Node::Number(n.clone()),
        Node::String(s) => Node::String(s.clone()),
        Node::Sequence(items) => {
            let mut out: Vec<Node> = Vec::new();
            let mut i: usize = 0;
            while i < items.len()
                invariant
                    i <= items.len(),
                    items_tree(out@) == items_tree(items@).take(i as int),
                decreases items.len() - i,
            {
                let ghost before = items_tree(out@);
                out.push(clone_value(&items[i]));
                assert(items_tree(out@) == before.push(items@[i as int]@));
                assert(items_tree(items@).take(i + 1) == before.push(items@[i as int]@));
                i += 1;
            }
            proof {
                assert(items_tree(items@).take(items.len() as int) == items_tree(items@));
                lemma_sequence_tree(*items);
                lemma_sequence_tree(out);
            }
            Node::Sequence(out)
        },
        Node::Mapping(entries) => {
            let mut out: Vec<(String, Node)> = Vec::new();
            let mut i: usize = 0;
            while i < entries.len()
                invariant
                    i <= entries.len(),
                    entries_tree(out@) == entries_tree(entries@).take(i as int),
                decreases entries.len() - i,
            {
                let ghost before = entries_tree(out@);
                let ghost next = (entries@[i as int].0@, entries@[i as int].1@);
                out.push((entries[i].0.clone(), clone_value(&entries[i].1)));
                assert(entries_tree(out@) == before.push(next));
                assert(entries_tree(entries@).take(i + 1) == before.push(next));
                i += 1;
            }
            proof {
                assert(entries_tree(entries@).take(entries.len() as int) == entries_tree(
                    entries@,
                ));
                lemma_mapping_tree(*entries);
                lemma_mapping_tree(out);
            }
            Node::Mapping(out)
        },
    }
}

/// Whether two documents are equal (see [`tree_eq`]).
#[verifier::loop_isolation(false)]
pub fn values_equal(a: &Node, b: &Node) -> (r: bool)
    ensures
        r == tree_eq(a@, b@),
    decreases a,
{
    match (a, b) {
        (Node::Null, Node::Null) => true,
        (Node::Bool(x), Node::Bool(y)) => *x == *y,
        (Node::Number(x), Node::Number(y)) => *x == *y,
        (Node::String(x), Node::String(y)) => *x == *y,
        (Node::Sequence(x), Node::Sequence(y)) => {
            proof {
                lemma_sequence_tree(*x);
                lemma_sequence_tree(*y);
            }
            if x.len() != y.len() {
                return false;
            }
            let mut i: usize = 0;
            while i < x.len()
                invariant
                    i <= x.len(),
                    x.len() == y.len(),
                    forall|j: int|
                        0 <= j < i ==> tree_eq(
                            #[trigger] items_tree(x@)[j],
                            items_tree(y@)[j],
                        ),
                decreases x.len() - i,
            {
                if !values_equal(&x[i], &y[i]) {
                    assert(!tree_eq(items_tree(x@)[i as int], items_tree(y@)[i as int]));
                    return false;
                }
                i += 1;
            }
            true
        },
        (Node::Mapping(x), Node::Mapping(y)) => {
            proof {
                lemma_mapping_tree(*x);
                lemma_mapping_tree(*y);
            }
            if x.len() != y.len() {
                return false;
            }
            let mut i: usize = 0;
            while i < x.len()
                invariant
                    i <= x.len(),
                    x.len() == y.len(),
                    forall|j: int|
                        0 <= j < i ==> entry_matches(
                            #[trigger] entries_tree(x@)[j],
                            entries_tree(y@),
                        ),
                decreases x.len() - i,
            {
                let found = match find_entry(y, &x[i].0) {
                    Some(at) => values_equal(&x[i].1, &y[at].1),
                    None => false,
                };
                if !found {
                    assert(!entry_matches(entries_tree(x@)[i as int], entries_tree(y@)));
                    return false;
                }
                i += 1;
            }
            true
        },
        _ => false,
    }
}

impl PartialEq for Node {
    fn eq(&self, other: &Self) -> (r: bool) {
        values_equal(self, other)
    }
}

impl vstd::std_specs::cmp::PartialEqSpecImpl for Node {
    open spec fn obeys_eq_spec() -> bool {
        true
    }

    open spec fn eq_spec(&self, other: &Self) -> bool {
        tree_eq(self@, other@)
    }
}

impl Clone for Node {
    fn clone(&self) -> (r: Self)
        ensures
            r@ == self@,
    {
        clone_value(self)
    }
}

} // verus!
