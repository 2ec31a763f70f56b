//! Sets of names.

use vstd::prelude::*;
use crate::text;
use vstd::string::*;

verus! {

/// A set of names, kept as a list in which nothing occurs twice.
#[derive(Debug, Clone)]
pub struct NameSet {
    names: Vec<String>,
}

impl View for NameSet {
    type V = Set<Seq<char>>;

    closed spec fn view(&self) -> Set<Seq<char>> {
        text::views(self.names@).to_set()
    }
}

impl NameSet {
    pub closed spec fn valid(&self) -> bool {
        text::views(self.names@).no_duplicates()
    }

    pub fn new() -> (s: Self)
        ensures
            s.valid(),
            s@ == Set::<Seq<char>>::empty(),
    {
        let s = NameSet { names: Vec::new() };
        assert(s@ =~= Set::empty());
        s
    }

    fn index_of(&self, name: &str) -> (r: Option<usize>)
        ensures
            match r {
                Some(k) => k < self.names.len() && text::views(self.names@)[k as int] == name@
                    && self@.contains(name@),
                None => !self@.contains(name@),
            },
    {
        let ghost all = text::views(self.names@);
        let mut i: usize = 0;
        while i < self.names.len()
            invariant
                i <= self.names.len(),
                all == text::views(self.names@),
                forall|k: int| 0 <= k < i ==> #[trigger] all[k] != name@,
            decreases self.names.len() - i,
        {
            if text::same(self.names[i].as_str(), name) {
                assert(all[i as int] == name@);
                return Some(i);
            }
            i = i + 1;
        }
        None
    }

    pub fn contains(&self, name: &str) -> (r: bool)
        ensures
            r == self@.contains(name@),
    {
        self.index_of(name).is_some()
    }

    /// Adds a name; says whether it was not there before.
    pub fn insert(&mut self, name: &str) -> (r: bool)
        requires
            old(self).valid(),
        ensures
            final(self).valid(),
            final(self)@ == old(self)@.insert(name@),
            r == !old(self)@.contains(name@),
    {
        if self.contains(name) {
            assert(self@ =~= old(self)@.insert(name@));
            return false;
        }
        let ghost before = text::views(self.names@);
        let owned: String = name.to_string();
        self.names.push(owned);
        let ghost after = text::views(self.names@);
        assert(after =~= before.push(name@));
        assert forall|x: Seq<char>| self@.contains(x) <==> old(self)@.insert(name@).contains(x) by {
            if after.contains(x) {
                let k = choose|k: int| 0 <= k < after.len() && after[k] == x;
                if k < before.len() {
                    assert(before[k] == x);
                }
            }
            if before.contains(x) {
                let k = choose|k: int| 0 <= k < before.len() && before[k] == x;
                assert(after[k] == x);
            }
            assert(after[before.len() as int] == name@);
        }
        assert(self@ =~= old(self)@.insert(name@));
        assert(after.no_duplicates()) by {
            assert forall|i: int, j: int| 0 <= i < after.len() && 0 <= j < after.len() && i
                != j implies after[i] != after[j] by {
                if i == before.len() {
                    assert(before[j] == after[j]);
                    assert(before.contains(after[j]));
                } else if j == before.len() {
                    assert(before[i] == after[i]);
                    assert(before.contains(after[i]));
                } else {
                    assert(before[i] == after[i] && before[j] == after[j]);
                }
            }
        }
        true
    }

    /// Takes a name away; says whether it was there.
    pub fn remove(&mut self, name: &str) -> (r: bool)
        requires
            old(self).valid(),
        ensures
            final(self).valid(),
            final(self)@ == old(self)@.remove(name@),
            r == old(self)@.contains(name@),
    {
        match self.index_of(name) {
            None => {
                assert(self@ =~= old(self)@.remove(name@));
                false
            },
            Some(k) => {
                let ghost before = text::views(self.names@);
                let _taken = self.names.remove(k);
                let ghost after = text::views(self.names@);
                assert(after =~= before.remove(k as int));
                assert forall|x: Seq<char>| self@.contains(x) <==> old(self)@.remove(
                    name@,
                ).contains(x) by {
                    if after.contains(x) {
                        let i = choose|i: int| 0 <= i < after.len() && after[i] == x;
                        let j = if i < k {
                            i
                        } else {
                            i + 1
                        };
                        assert(before[j] == x);
                        assert(before[j] != before[k as int]);
                    }
                    if before.contains(x) && x != name@ {
                        let i = choose|i: int| 0 <= i < before.len() && before[i] == x;
                        let j = if i < k {
                            i
                        } else {
                            i - 1
                        };
                        assert(after[j] == x);
                    }
                }
                assert(self@ =~= old(self)@.remove(name@));
                true
            },
        }
    }
}

} // verus!
