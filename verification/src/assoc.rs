//! A map from names to values, as a list in order of insertion. A later entry hides an earlier
//! one of the same name.

use vstd::prelude::*;
use vstd::string::*;

use crate::text::same;

verus! {

pub open spec fn assoc_map<T: View>(entries: Seq<(String, T)>) -> Map<Seq<char>, T::V>
    decreases entries.len(),
{
    if entries.len() == 0 {
        Map::empty()
    } else {
        assoc_map(entries.drop_last()).insert(entries.last().0@, entries.last().1@)
    }
}

#[derive(Debug)]
pub struct Assoc<T> {
    entries: Vec<(String, T)>,
}

impl<T: View> View for Assoc<T> {
    type V = Map<Seq<char>, T::V>;

    closed spec fn view(&self) -> Map<Seq<char>, T::V> {
        assoc_map(self.entries@)
    }
}

impl<T: View> Assoc<T> {
    pub fn new() -> (r: Assoc<T>)
        ensures
            r@ == Map::<Seq<char>, T::V>::empty(),
    {
        Assoc { entries: Vec::new() }
    }

    /// Binds a name, over an earlier binding if there is one.
    pub fn insert(&mut self, name: &str, value: T)
        ensures
            final(self)@ == old(self)@.insert(name@, value@),
    {
        self.entries.push((name.to_owned(), value));
        assert(self.entries@.drop_last() =~= old(self).entries@);
    }

    pub fn get(&self, name: &str) -> (r: Option<&T>)
        ensures
            match r {
                Some(v) => self@.contains_key(name@) && v@ == self@[name@],
                None => !self@.contains_key(name@),
            },
    {
        let mut i: usize = self.entries.len();
        assert(self.entries@.take(i as int) =~= self.entries@);
        while i > 0
            invariant
                i <= self.entries@.len(),
                self@.contains_key(name@) <==> assoc_map(
                    self.entries@.take(i as int),
                ).contains_key(name@),
                self@.contains_key(name@) ==> self@[name@] == assoc_map(
                    self.entries@.take(i as int),
                )[name@],
            decreases i,
        {
            i = i - 1;
            let ghost head = self.entries@.take(i as int + 1);
            assert(head.drop_last() =~= self.entries@.take(i as int));
            assert(head.last() == self.entries@[i as int]);
            let e = &self.entries[i];
            if same(e.0.as_str(), name) {
                return Some(&e.1);
            }
        }
        None
    }

    pub fn contains(&self, name: &str) -> (r: bool)
        ensures
            r == self@.contains_key(name@),
    {
        self.get(name).is_some()
    }
}

} // verus!
