//! A dictionary of filter choices: each key it knows is checked or not.
use vstd::prelude::*;
use crate::keys::{codes_equal, key_lt};
use crate::ordered_map::{OrderedKey, OrderedMap};

verus! {

pub struct FilterDictionary<K> {
    entries: OrderedMap<K, bool>,
}

impl<K: OrderedKey> FilterDictionary<K> {
    pub closed spec fn wf(&self) -> bool {
        self.entries.wf()
    }

    /// Checked state by key model.
    pub closed spec fn checks(&self) -> Map<Seq<u32>, bool> {
        self.entries.to_map()
    }

    /// The keys, in ascending order.
    pub closed spec fn key_seq(&self) -> Seq<K> {
        self.entries.key_seq()
    }

    /// The checked states, in the order of the keys.
    pub closed spec fn check_seq(&self) -> Seq<bool> {
        self.entries.value_seq()
    }

    /// A key's state: a key that is not known is not checked.
    pub open spec fn spec_is_checked(&self, m: Seq<u32>) -> bool {
        self.checks().dom().contains(m) && self.checks()[m]
    }

    pub proof fn lemma_wf(&self)
        requires
            self.wf(),
        ensures
            self.key_seq().len() == self.check_seq().len(),
            forall|i: int| #![trigger self.key_seq()[i]] 0 <= i < self.key_seq().len() ==> self.checks().dom().contains(
                self.key_seq()[i].key_model(),
            ) && self.checks()[self.key_seq()[i].key_model()] == self.check_seq()[i],
            forall|m: Seq<u32>| #[trigger] self.checks().dom().contains(m) ==> exists|i: int|
                0 <= i < self.key_seq().len() && self.key_seq()[i].key_model() == m,
            forall|i: int, j: int| 0 <= i < j < self.key_seq().len() ==> key_lt(
                #[trigger] self.key_seq()[i].key_model(),
                #[trigger] self.key_seq()[j].key_model(),
            ),
    {
        assert forall|i: int, j: int| 0 <= i < j < self.key_seq().len() implies key_lt(
            #[trigger] self.key_seq()[i].key_model(),
            #[trigger] self.key_seq()[j].key_model(),
        ) by {
            assert(self.entries.models()[i] == self.entries.key_seq()[i].key_model());
            assert(self.entries.models()[j] == self.entries.key_seq()[j].key_model());
        }
        assert forall|i: int| #![trigger self.key_seq()[i]] 0 <= i < self.key_seq().len() implies self.checks().dom().contains(
            self.key_seq()[i].key_model(),
        ) && self.checks()[self.key_seq()[i].key_model()] == self.check_seq()[i] by {
            self.entries.lemma_index(i);
            assert(self.entries.models()[i] == self.entries.key_seq()[i].key_model());
        }
        assert forall|m: Seq<u32>| #[trigger] self.checks().dom().contains(m) implies exists|i: int|
            0 <= i < self.key_seq().len() && self.key_seq()[i].key_model() == m by {
            assert(self.entries.contains(m));
            let i = self.entries.models().index_of(m);
            assert(self.entries.models()[i] == m);
            assert(self.entries.models()[i] == self.entries.key_seq()[i].key_model());
            assert(self.key_seq()[i].key_model() == m);
        }
    }

    pub fn new() -> (d: FilterDictionary<K>)
        ensures
            d.wf(),
            d.checks() == Map::<Seq<u32>, bool>::empty(),
    {
        FilterDictionary { entries: OrderedMap::new() }
    }

    /// Adds a key, checked; a key already known keeps its state.
    pub fn add(&mut self, key: K)
        requires
            old(self).wf(),
        ensures
            final(self).wf(),
            final(self).checks() == if old(self).checks().dom().contains(key.key_model()) {
                old(self).checks()
            } else {
                old(self).checks().insert(key.key_model(), true)
            },
    {
        let inserted = self.entries.insert_if_absent(key, true);
        proof {
            if !inserted {
                assert(self.entries.to_map() =~= old(self).entries.to_map());
            }
        }
    }

    /// Adds each key in turn.
    pub fn extend(&mut self, keys: Vec<K>)
        requires
            old(self).wf(),
        ensures
            final(self).wf(),
            forall|m: Seq<u32>| #[trigger] final(self).checks().dom().contains(m) <==> (
            old(self).checks().dom().contains(m) || exists|i: int|
                0 <= i < keys@.len() && #[trigger] keys@[i].key_model() == m),
            forall|m: Seq<u32>| #[trigger] final(self).checks().dom().contains(m) ==> final(self).checks()[m]
                == if old(self).checks().dom().contains(m) {
                old(self).checks()[m]
            } else {
                true
            },
    {
        let ghost given = keys@;
        let mut keys = keys;
        let mut n: usize = keys.len();
        assert(given.skip(0) =~= given);
        while n > 0
            invariant
                n == keys@.len(),
                n <= given.len(),
                keys@ == given.skip(given.len() - n),
                self.wf(),
                forall|m: Seq<u32>| #[trigger] self.checks().dom().contains(m) <==> (
                old(self).checks().dom().contains(m) || exists|i: int|
                    0 <= i < given.len() - n && #[trigger] given[i].key_model() == m),
                forall|m: Seq<u32>| #[trigger] self.checks().dom().contains(m) ==> self.checks()[m]
                    == if old(self).checks().dom().contains(m) {
                    old(self).checks()[m]
                } else {
                    true
                },
            decreases n,
        {
            let key = keys.remove(0);
            let ghost idx = given.len() - n;
            assert(key == given[idx]);
            let ghost km = key.key_model();
            self.add(key);
            n = n - 1;
            assert(keys@ =~= given.skip(given.len() - n));
            assert forall|m: Seq<u32>| #[trigger] self.checks().dom().contains(m) <==> (
            old(self).checks().dom().contains(m) || exists|i: int|
                0 <= i < given.len() - n && #[trigger] given[i].key_model() == m) by {
                if m == km {
                    assert(given[idx].key_model() == m);
                }
            }
        }
    }

    /// Checks `key` and unchecks every other known key.
    pub fn check_only(&mut self, key: &K)
        requires
            old(self).wf(),
        ensures
            final(self).wf(),
            final(self).checks().dom() == old(self).checks().dom(),
            final(self).key_seq() == old(self).key_seq(),
            forall|m: Seq<u32>| #[trigger] final(self).checks().dom().contains(m) ==> final(self).checks()[m]
                == (m == key.key_model()),
    {
        self.set_all(key, true);
    }

    /// Unchecks `key` and checks every other known key.
    pub fn uncheck_only(&mut self, key: &K)
        requires
            old(self).wf(),
        ensures
            final(self).wf(),
            final(self).checks().dom() == old(self).checks().dom(),
            final(self).key_seq() == old(self).key_seq(),
            forall|m: Seq<u32>| #[trigger] final(self).checks().dom().contains(m) ==> final(self).checks()[m]
                == (m != key.key_model()),
    {
        self.set_all(key, false);
    }

    /// Sets each known key to whether it equals `key`, flipped when `equal_is` is false.
    fn set_all(&mut self, key: &K, equal_is: bool)
        requires
            old(self).wf(),
        ensures
            final(self).wf(),
            final(self).checks().dom() == old(self).checks().dom(),
            final(self).key_seq() == old(self).key_seq(),
            forall|m: Seq<u32>| #[trigger] final(self).checks().dom().contains(m) ==> final(self).checks()[m]
                == ((m == key.key_model()) == equal_is),
    {
        let code = key.key_code();
        let mut i: usize = 0;
        while i < self.entries.len()
            invariant
                self.wf(),
                i <= self.entries.key_seq().len(),
                self.entries.key_seq() == old(self).entries.key_seq(),
                code@ == key.key_model(),
                forall|j: int| 0 <= j < i ==> #[trigger] self.entries.value_seq()[j] == ((
                self.entries.models()[j] == key.key_model()) == equal_is),
            decreases self.entries.key_seq().len() - i,
        {
            let c = self.entries.key_at(i).key_code();
            let same = codes_equal(&c, &code);
            assert(self.entries.models()[i as int] == self.entries.key_seq()[i as int].key_model());
            let ghost before = self.entries.value_seq();
            self.entries.set_value_at(i, same == equal_is);
            assert(self.entries.models() == old(self).entries.models());
            assert forall|j: int| 0 <= j < i + 1 implies #[trigger] self.entries.value_seq()[j] == ((
                self.entries.models()[j] == key.key_model()) == equal_is) by {
                if j < i {
                    assert(self.entries.value_seq()[j] == before[j]);
                } else {
                    assert(j == i as int);
                    assert(self.entries.models()[j] == self.entries.key_seq()[j].key_model());
                    assert(c@ == self.entries.key_seq()[i as int].key_model());
                    assert(same == (self.entries.models()[j] == key.key_model()));
                    assert(self.entries.value_seq()[j] == (same == equal_is));
                }
            }
            i = i + 1;
        }
        proof {
            assert(self.entries.models() =~= old(self).entries.models());
            assert forall|m: Seq<u32>| #[trigger] self.checks().dom().contains(m) == old(self).checks().dom().contains(m) by {}
            assert(self.checks().dom() =~= old(self).checks().dom());
            assert forall|m: Seq<u32>| #[trigger] self.checks().dom().contains(m) implies self.checks()[m]
                == ((m == key.key_model()) == equal_is) by {
                let j = self.entries.models().index_of(m);
                self.entries.lemma_index(j);
            }
        }
    }

    /// Sets the state of `key` when it is known; an unknown key is left unknown.
    pub fn set_checked(&mut self, key: &K, check: bool)
        requires
            old(self).wf(),
        ensures
            final(self).wf(),
            final(self).checks() == if old(self).checks().dom().contains(key.key_model()) {
                old(self).checks().insert(key.key_model(), check)
            } else {
                old(self).checks()
            },
    {
        if let Some(i) = self.entries.position(key) {
            self.entries.set_value_at(i, check);
        }
    }

    /// Sets the state of `key`, adding it when unknown.
    pub fn insert(&mut self, key: K, check: bool)
        requires
            old(self).wf(),
        ensures
            final(self).wf(),
            final(self).checks() == old(self).checks().insert(key.key_model(), check),
    {
        self.entries.insert(key, check);
    }

    /// Whether `key` is known and checked.
    pub fn is_checked(&self, key: &K) -> (r: bool)
        requires
            self.wf(),
        ensures
            r == self.spec_is_checked(key.key_model()),
    {
        match self.entries.get(key) {
            Some(checked) => *checked,
            None => false,
        }
    }

    /// The keys with their states, in ascending key order.
    pub fn iter(&self) -> (r: Vec<(&K, bool)>)
        requires
            self.wf(),
        ensures
            r@.len() == self.key_seq().len(),
            forall|i: int| 0 <= i < r@.len() ==> *(#[trigger] r@[i]).0 == self.key_seq()[i] && r@[i].1
                == self.check_seq()[i],
            forall|i: int| 0 <= i < r@.len() ==> (#[trigger] r@[i]).1 == self.spec_is_checked(r@[i].0.key_model())
                && self.checks().dom().contains(r@[i].0.key_model()),
            forall|i: int, j: int| 0 <= i < j < r@.len() ==> key_lt(
                (#[trigger] r@[i]).0.key_model(),
                (#[trigger] r@[j]).0.key_model(),
            ),
            forall|m: Seq<u32>| #[trigger] self.checks().dom().contains(m) ==> exists|i: int|
                0 <= i < r@.len() && r@[i].0.key_model() == m,
    {
        proof {
            self.lemma_wf();
        }
        let mut r: Vec<(&K, bool)> = Vec::new();
        let mut i: usize = 0;
        while i < self.entries.len()
            invariant
                self.wf(),
                i <= self.key_seq().len(),
                r@.len() == i,
                forall|j: int| 0 <= j < i ==> *(#[trigger] r@[j]).0 == self.key_seq()[j] && r@[j].1
                    == self.check_seq()[j],
            decreases self.key_seq().len() - i,
        {
            r.push((self.entries.key_at(i), *self.entries.value_at(i)));
            i = i + 1;
        }
        proof {
            assert forall|i: int| 0 <= i < r@.len() implies (#[trigger] r@[i]).1 == self.spec_is_checked(r@[i].0.key_model())
                && self.checks().dom().contains(r@[i].0.key_model()) by {
                assert(*r@[i].0 == self.key_seq()[i]);
            }
            assert forall|i: int, j: int| 0 <= i < j < r@.len() implies key_lt(
                (#[trigger] r@[i]).0.key_model(),
                (#[trigger] r@[j]).0.key_model(),
            ) by {
                assert(*r@[i].0 == self.key_seq()[i]);
                assert(*r@[j].0 == self.key_seq()[j]);
            }
            assert forall|m: Seq<u32>| #[trigger] self.checks().dom().contains(m) implies exists|i: int|
                0 <= i < r@.len() && r@[i].0.key_model() == m by {
                let i = choose|i: int| 0 <= i < self.key_seq().len() && self.key_seq()[i].key_model() == m;
                assert(*r@[i].0 == self.key_seq()[i]);
            }
        }
        r
    }

    /// Number of known keys.
    pub fn len(&self) -> (n: usize)
        requires
            self.wf(),
        ensures
            n == self.key_seq().len(),
    {
        self.entries.len()
    }
}

} // verus!
