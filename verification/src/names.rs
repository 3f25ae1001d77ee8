//! Sets of names.

use vstd::prelude::*;

use crate::text::{same_text, spelled};

verus! {

/// A set of names, which holds each name once.
#[derive(Debug)]
pub struct NameSet {
    names: Vec<String>,
}

impl View for NameSet {
    type V = Set<Seq<char>>;

    closed spec fn view(&self) -> Set<Seq<char>> {
        spelled(self.names@).to_set()
    }
}

impl NameSet {
    /// Whether no name is held twice.
    pub closed spec fn valid(&self) -> bool {
        spelled(self.names@).no_duplicates()
    }

    /// Makes an empty set.
    pub fn new() -> (set: Self)
        ensures
            set.valid(),
            set@ == Set::<Seq<char>>::empty(),
    {
        let set = NameSet { names: Vec::new() };
        assert(spelled(set.names@) =~= seq![]);
        assert(set@ =~= Set::empty());
        set
    }

    /// Returns whether the set holds a name.
    pub fn contains(&self, name: &str) -> (result: bool)
        ensures
            result == self@.contains(name@),
    {
        let mut index: usize = 0;
        while index < self.names.len()
            invariant
                index <= self.names.len(),
                forall|k: int| 0 <= k < index ==> self.names@[k]@ != name@,
            decreases self.names.len() - index,
        {
            if same_text(self.names[index].as_str(), name) {
                assert(spelled(self.names@)[index as int] == name@);
                return true;
            }
            index += 1;
        }
        assert forall|k: int| 0 <= k < spelled(self.names@).len() implies spelled(self.names@)[k]
            != name@ by {
            assert(spelled(self.names@)[k] == self.names@[k]@);
        }
        false
    }

    /// Adds a name and returns whether it is new.
    pub fn insert(&mut self, name: &str) -> (new: bool)
        requires
            old(self).valid(),
        ensures
            final(self).valid(),
            final(self)@ == old(self)@.insert(name@),
            new == !old(self)@.contains(name@),
    {
        if self.contains(name) {
            assert(self@ =~= old(self)@.insert(name@));
            return false;
        }
        let ghost before = spelled(self.names@);
        self.names.push(name.to_owned());
        proof {
            let after = spelled(self.names@);
            assert(after =~= before.push(name@));
            assert forall|i: int, j: int| 0 <= i < after.len() && 0 <= j < after.len() && i
                != j implies after[i] != after[j] by {
                if i == before.len() {
                    assert(before.to_set().contains(before[j]));
                }
                if j == before.len() {
                    assert(before.to_set().contains(before[i]));
                }
            }
            assert(self@ =~= old(self)@.insert(name@)) by {
                assert forall|text: Seq<char>| self@.contains(text) <==> old(self)@.insert(
                    name@,
                ).contains(text) by {
                    if self@.contains(text) {
                        let k = choose|k: int| 0 <= k < after.len() && after[k] == text;
                        if k < before.len() {
                            assert(before[k] == text);
                        }
                    }
                    if text == name@ {
                        assert(after[before.len() as int] == text);
                    } else if old(self)@.contains(text) {
                        let k = choose|k: int| 0 <= k < before.len() && before[k] == text;
                        assert(after[k] == text);
                    }
                }
            }
        }
        true
    }

    /// Returns the number of names.
    pub fn len(&self) -> (count: usize)
        requires
            self.valid(),
        ensures
            count == self@.len(),
            self@.finite(),
    {
        proof {
            spelled(self.names@).unique_seq_to_set();
            vstd::seq_lib::seq_to_set_is_finite(spelled(self.names@));
        }
        self.names.len()
    }
}

} // verus!
