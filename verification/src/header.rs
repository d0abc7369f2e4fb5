//! The header of a catalog: named fields that keep the order in which they
//! were first set.

use crate::model::{assign, lemma_assign, lemma_position_is, lookup, position, unique_keys};
use vstd::prelude::*;

verus! {

/// The header fields of a catalog. Setting a name again replaces its value
/// where it stands, so a header that starts empty never holds a name twice.
#[derive(Debug, Clone)]
pub struct Header {
    fields: Vec<(String, String)>,
}

impl View for Header {
    type V = Seq<(Seq<char>, Seq<char>)>;

    closed spec fn view(&self) -> Seq<(Seq<char>, Seq<char>)> {
        Seq::new(self.fields@.len(), |i: int| (self.fields@[i].0@, self.fields@[i].1@))
    }
}

impl Header {
    /// A header without fields.
    pub fn new() -> (h: Header)
        ensures
            h@ == Seq::<(Seq<char>, Seq<char>)>::empty(),
            unique_keys(h@),
    {
        let h = Header { fields: Vec::new() };
        assert(h@ =~= Seq::<(Seq<char>, Seq<char>)>::empty());
        h
    }

    /// The number of fields.
    pub fn len(&self) -> (n: usize)
        ensures
            n == self@.len(),
    {
        self.fields.len()
    }

    /// Tells whether the header has no field.
    pub fn is_empty(&self) -> (r: bool)
        ensures
            r == (self@.len() == 0),
    {
        self.fields.len() == 0
    }

    /// The name of the field at position `i`.
    pub fn key_at(&self, i: usize) -> (k: &String)
        requires
            i < self@.len(),
        ensures
            k@ == self@[i as int].0,
    {
        &self.fields[i].0
    }

    /// The value of the field at position `i`.
    pub fn value_at(&self, i: usize) -> (v: &String)
        requires
            i < self@.len(),
        ensures
            v@ == self@[i as int].1,
    {
        &self.fields[i].1
    }

    /// Position of the field named `key`, or the number of fields.
    fn find(&self, key: &str) -> (p: usize)
        ensures
            p == position(self@, key@),
            p <= self@.len(),
    {
        let mut p: usize = 0;
        while p < self.fields.len() && !str_eq(self.fields[p].0.as_str(), key)
            invariant
                p <= self.fields@.len(),
                forall|j: int| 0 <= j < p ==> self@[j].0 != key@,
            decreases self.fields@.len() - p,
        {
            p += 1;
        }
        proof {
            lemma_position_is(self@, key@, p as int);
        }
        p
    }

    /// The value of the field named `key`.
    pub fn get(&self, key: &str) -> (r: Option<&String>)
        ensures
            match r {
                Some(v) => lookup(self@, key@) == Some(v@),
                None => lookup(self@, key@) is None,
            },
    {
        let p = self.find(key);
        if p < self.fields.len() {
            Some(&self.fields[p].1)
        } else {
            None
        }
    }

    /// Tells whether a field is named `key`.
    pub fn contains_key(&self, key: &str) -> (r: bool)
        ensures
            r == lookup(self@, key@).is_some(),
    {
        let p = self.find(key);
        p < self.fields.len()
    }

    /// Sets the field named `key` to `value`.
    pub fn insert(&mut self, key: String, value: String)
        ensures
            final(self)@ == assign(old(self)@, key@, value@),
            unique_keys(old(self)@) ==> unique_keys(final(self)@),
    {
        proof {
            lemma_assign(self@, key@, value@);
        }
        let p = self.find(key.as_str());
        if p < self.fields.len() {
            self.fields.set(p, (key, value));
        } else {
            self.fields.push((key, value));
        }
        assert(self@ =~= assign(old(self)@, key@, value@));
    }
}

/// Tells whether two strings hold the same characters.
pub fn str_eq(a: &str, b: &str) -> (r: bool)
    ensures
        r == (a@ == b@),
{
    let x = String::from_str(a);
    let y = String::from_str(b);
    x == y
}

} // verus!
