//! The `key=value` pairs of one `set` command.

use crate::keyed::{
    distinct_keys, lemma_position, lemma_position_is, lemma_position_none, lemma_upsert, position,
    upsert, value_of,
};
use vstd::prelude::*;

verus! {

/// The pairs of a vector of string pairs, each string by its characters.
pub open spec fn pairs_view(v: Seq<(String, String)>) -> Seq<(Seq<char>, Seq<char>)> {
    Seq::new(v.len(), |i: int| (v[i].0@, v[i].1@))
}

/// Key paths with the value each is to be set to, in the order in which the
/// paths were first given. A path occurs once: giving it again replaces its
/// value.
#[derive(Debug)]
pub struct Updates {
    entries: Vec<(String, String)>,
}

impl View for Updates {
    type V = Seq<(Seq<char>, Seq<char>)>;

    closed spec fn view(&self) -> Seq<(Seq<char>, Seq<char>)> {
        pairs_view(self.entries@)
    }
}

/// The position of the first pair with the key `key`.
fn find_pair(entries: &Vec<(String, String)>, key: &String) -> (r: Option<usize>)
    ensures
        match r {
            Some(at) => position(pairs_view(entries@), key@) == Some(at as int),
            None => position(pairs_view(entries@), key@) is None,
        },
{
    let mut i: usize = 0;
    while i < entries.len()
        invariant
            i <= entries.len(),
            forall|j: int| 0 <= j < i ==> (#[trigger] pairs_view(entries@)[j]).0 != key@,
        decreases entries.len() - i,
    {
        if entries[i].0 == *key {
            proof {
                lemma_position_is(pairs_view(entries@), key@, i as int);
            }
            return Some(i);
        }
        i += 1;
    }
    proof {
        lemma_position_none(pairs_view(entries@), key@);
    }
    None
}

impl Updates {
    /// No key occurs twice.
    #[verifier::type_invariant]
    spec fn keys_occur_once(self) -> bool {
        distinct_keys(pairs_view(self.entries@))
    }

    /// No pairs.
    pub fn new() -> (r: Self)
        ensures
            r@ == Seq::<(Seq<char>, Seq<char>)>::empty(),
    {
        let r = Updates { entries: Vec::new() };
        assert(r@ == Seq::<(Seq<char>, Seq<char>)>::empty());
        r
    }

    /// The number of pairs.
    pub fn len(&self) -> (r: usize)
        ensures
            r == self@.len(),
    {
        self.entries.len()
    }

    /// Whether there is no pair.
    pub fn is_empty(&self) -> (r: bool)
        ensures
            r == (self@.len() == 0),
    {
        self.entries.len() == 0
    }

    /// Sets the value of `key`, and returns the value it had before.
    pub fn insert(&mut self, key: String, value: String) -> (r: Option<String>)
        ensures
            final(self)@ == upsert(old(self)@, key@, value@),
            match r {
                Some(before) => value_of(old(self)@, key@) == Some(before@),
                None => value_of(old(self)@, key@) is None,
            },
    {
        proof {
            use_type_invariant(&*self);
            lemma_upsert(self@, key@, value@);
            lemma_position(self@, key@);
        }
        let ghost before = pairs_view(self.entries@);
        let mut taken = Updates { entries: Vec::new() };
        core::mem::swap(self, &mut taken);
        let mut entries = taken.entries;
        let r = match find_pair(&entries, &key) {
            Some(at) => {
                let entry = entries.remove(at);
                entries.insert(at, (entry.0, value));
                Some(entry.1)
            },
            None => {
                entries.push((key, value));
                None
            },
        };
        assert(pairs_view(entries@) == upsert(before, key@, value@));
        *self = Updates { entries };
        r
    }

    /// The value that `key` is to be set to.
    pub fn get(&self, key: &str) -> (r: Option<&String>)
        ensures
            match r {
                Some(value) => value_of(self@, key@) == Some(value@),
                None => value_of(self@, key@) is None,
            },
    {
        let owned = key.to_owned();
        match find_pair(&self.entries, &owned) {
            Some(at) => Some(&self.entries[at].1),
            None => None,
        }
    }

    /// The pairs, in their order.
    pub fn to_vec(&self) -> (r: Vec<(String, String)>)
        ensures
            pairs_view(r@) == self@,
    {
        let mut out: Vec<(String, String)> = Vec::new();
        let mut i: usize = 0;
        while i < self.entries.len()
            invariant
                i <= self.entries.len(),
                pairs_view(out@) == pairs_view(self.entries@).take(i as int),
            decreases self.entries.len() - i,
        {
            let ghost before = pairs_view(out@);
            let ghost next = (self.entries@[i as int].0@, self.entries@[i as int].1@);
            out.push((self.entries[i].0.clone(), self.entries[i].1.clone()));
            assert(pairs_view(out@) == before.push(next));
            assert(pairs_view(self.entries@).take(i + 1) == before.push(next));
            i += 1;
        }
        assert(pairs_view(self.entries@).take(self.entries.len() as int) == pairs_view(
            self.entries@,
        ));
        out
    }

    /// The key of the pair at position `at`.
    pub(crate) fn key_at(&self, at: usize) -> (r: &String)
        requires
            at < self@.len(),
        ensures
            r@ == self@[at as int].0,
    {
        &self.entries[at].0
    }

    /// The value of the pair at position `at`.
    pub(crate) fn value_at(&self, at: usize) -> (r: &String)
        requires
            at < self@.len(),
        ensures
            r@ == self@[at as int].1,
    {
        &self.entries[at].1
    }
}

} // verus!
