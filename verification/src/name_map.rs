//! Values under names.

use vstd::prelude::*;
use crate::text;
use vstd::string::*;

verus! {

/// Values under names, kept as two lists of the same length in which no name occurs twice.
#[derive(Debug)]
pub struct NameMap<T> {
    names: Vec<String>,
    values: Vec<T>,
}

impl<T> View for NameMap<T> {
    type V = Map<Seq<char>, T>;

    closed spec fn view(&self) -> Map<Seq<char>, T> {
        let keys = text::views(self.names@);
        Map::new(|k: Seq<char>| keys.contains(k), |k: Seq<char>| self.values@[keys.index_of(k)])
    }
}

impl<T> NameMap<T> {
    pub closed spec fn valid(&self) -> bool {
        &&& self.names@.len() == self.values@.len()
        &&& text::views(self.names@).no_duplicates()
    }

    /// The names in the order in which they came in.
    pub closed spec fn order(&self) -> Seq<Seq<char>> {
        text::views(self.names@)
    }

    /// The order holds exactly the names, each once.
    pub proof fn order_is_the_domain(&self)
        requires
            self.valid(),
        ensures
            self.order().no_duplicates(),
            forall|k: Seq<char>| #[trigger]
                self.order().contains(k) <==> self@.contains_key(k),
    {
    }

    proof fn value_at(&self, i: int)
        requires
            self.valid(),
            0 <= i < self.names@.len(),
        ensures
            self@.contains_key(text::views(self.names@)[i]),
            self@[text::views(self.names@)[i]] == self.values@[i],
    {
        let keys = text::views(self.names@);
        assert(keys.contains(keys[i]));
        assert(keys.index_of(keys[i]) == i);
    }

    pub fn new() -> (m: Self)
        ensures
            m.valid(),
            m@ == Map::<Seq<char>, T>::empty(),
            m.order() == Seq::<Seq<char>>::empty(),
    {
        let m = NameMap { names: Vec::new(), values: Vec::new() };
        assert(m@ =~= Map::empty());
        assert(m.order() =~= Seq::empty());
        m
    }

    fn index_of(&self, name: &str) -> (r: Option<usize>)
        requires
            self.valid(),
        ensures
            match r {
                Some(k) => k < self.names.len() && text::views(self.names@)[k as int] == name@
                    && self@.contains_key(name@) && self@[name@] == self.values@[k as int],
                None => !self@.contains_key(name@),
            },
    {
        let ghost keys = text::views(self.names@);
        let mut i: usize = 0;
        while i < self.names.len()
            invariant
                i <= self.names.len(),
                keys == text::views(self.names@),
                self.valid(),
                forall|k: int| 0 <= k < i ==> #[trigger] keys[k] != name@,
            decreases self.names.len() - i,
        {
            if text::same(self.names[i].as_str(), name) {
                proof {
                    self.value_at(i as int);
                }
                return Some(i);
            }
            i = i + 1;
        }
        None
    }

    pub fn contains(&self, name: &str) -> (r: bool)
        requires
            self.valid(),
        ensures
            r == self@.contains_key(name@),
    {
        self.index_of(name).is_some()
    }

    /// The value under a name.
    pub fn get(&self, name: &str) -> (r: Option<&T>)
        requires
            self.valid(),
        ensures
            match r {
                Some(v) => self@.contains_key(name@) && self@[name@] == *v,
                None => !self@.contains_key(name@),
            },
    {
        match self.index_of(name) {
            Some(k) => Some(&self.values[k]),
            None => None,
        }
    }

    /// How many names there are.
    pub fn len(&self) -> (r: usize)
        requires
            self.valid(),
        ensures
            r == self.order().len(),
    {
        self.names.len()
    }

    /// The name at a place of the order, with its value.
    pub fn entry(&self, i: usize) -> (r: (&String, &T))
        requires
            self.valid(),
            i < self.order().len(),
        ensures
            r.0@ == self.order()[i as int],
            self@.contains_key(r.0@),
            self@[r.0@] == *r.1,
    {
        proof {
            self.value_at(i as int);
        }
        (&self.names[i], &self.values[i])
    }

    /// Takes a name away, with its value.
    pub fn remove(&mut self, name: &str) -> (r: Option<T>)
        requires
            old(self).valid(),
        ensures
            final(self).valid(),
            final(self)@ == old(self)@.remove(name@),
            match r {
                Some(v) => old(self)@.contains_key(name@) && old(self)@[name@] == v,
                None => !old(self)@.contains_key(name@),
            },
    {
        match self.index_of(name) {
            None => {
                assert(self@ =~= old(self)@.remove(name@));
                None
            },
            Some(k) => {
                let ghost before = text::views(self.names@);
                let ghost old_values = self.values@;
                let _name = self.names.remove(k);
                let value = self.values.remove(k);
                let ghost after = text::views(self.names@);
                assert(after =~= before.remove(k as int));
                assert(after.no_duplicates());
                assert forall|x: Seq<char>| #[trigger] self@.contains_key(x) <==> old(
                    self,
                )@.remove(name@).contains_key(x) by {
                    if after.contains(x) {
                        let i = choose|i: int| 0 <= i < after.len() && after[i] == x;
                        let j = if i < k {
                            i
                        } else {
                            i + 1
                        };
                        assert(before[j] == x);
                        assert(before[j] != before[k as int]);
                    }
                    if before.contains(x) && x != name@ {
                        let i = choose|i: int| 0 <= i < before.len() && before[i] == x;
                        let j = if i < k {
                            i
                        } else {
                            i - 1
                        };
                        assert(after[j] == x);
                    }
                }
                assert forall|x: Seq<char>| self@.contains_key(x) implies #[trigger] self@[x]
                    == old(self)@[x] by {
                    let i = choose|i: int| 0 <= i < after.len() && after[i] == x;
                    self.value_at(i);
                    let j = if i < k {
                        i
                    } else {
                        i + 1
                    };
                    assert(before[j] == x);
                    old(self).value_at(j);
                }
                assert(self@ =~= old(self)@.remove(name@));
                Some(value)
            },
        }
    }

    /// Puts a value under a name, in place of the one that was there.
    pub fn insert(&mut self, name: &str, value: T)
        requires
            old(self).valid(),
        ensures
            final(self).valid(),
            final(self)@ == old(self)@.insert(name@, value),
    {
        let _old = self.remove(name);
        let ghost rest = *self;
        let ghost before = text::views(self.names@);
        let owned: String = name.to_string();
        self.names.push(owned);
        self.values.push(value);
        let ghost after = text::views(self.names@);
        assert(after =~= before.push(name@));
        assert(!before.contains(name@)) by {
            assert(!rest@.contains_key(name@));
        }
        assert(after.no_duplicates()) by {
            assert forall|i: int, j: int| 0 <= i < after.len() && 0 <= j < after.len() && i
                != j implies after[i] != after[j] by {
                if i == before.len() {
                    assert(before[j] == after[j]);
                    assert(before.contains(after[j]));
                } else if j == before.len() {
                    assert(before[i] == after[i]);
                    assert(before.contains(after[i]));
                } else {
                    assert(before[i] == after[i] && before[j] == after[j]);
                }
            }
        }
        assert forall|x: Seq<char>| #[trigger] self@.contains_key(x) <==> old(self)@.insert(
            name@,
            value,
        ).contains_key(x) by {
            if after.contains(x) {
                let i = choose|i: int| 0 <= i < after.len() && after[i] == x;
                if i < before.len() {
                    assert(before[i] == x);
                    assert(before.contains(x));
                    assert(rest@.contains_key(x));
                }
            }
            if old(self)@.contains_key(x) && x != name@ {
                assert(rest@.contains_key(x));
                assert(before.contains(x));
                let i = choose|i: int| 0 <= i < before.len() && before[i] == x;
                assert(after[i] == x);
            }
            assert(after[before.len() as int] == name@);
        }
        assert forall|x: Seq<char>| self@.contains_key(x) implies #[trigger] self@[x] == old(
            self,
        )@.insert(name@, value)[x] by {
            let i = choose|i: int| 0 <= i < after.len() && after[i] == x;
            self.value_at(i);
            if i < before.len() {
                assert(before[i] == x);
                rest.value_at(i);
            }
        }
        assert(self@ =~= old(self)@.insert(name@, value));
    }
}

} // verus!
