//! An ordered map: its entries stay sorted by key, each key at most once.
//! It gives the key order and the lookups that the launcher's dictionaries,
//! counters and source tables rely on.
use vstd::prelude::*;
use crate::keys::{key_lt, codes_less, codes_equal, lemma_key_lt_irreflexive, lemma_key_lt_total, lemma_key_lt_transitive};

verus! {

/// A key of an ordered collection, modelled by its sort codes.
pub trait OrderedKey: Sized {
    spec fn key_model(&self) -> Seq<u32>;

    fn key_code(&self) -> (r: Vec<u32>)
        ensures
            r@ == self.key_model(),
    ;
}

pub struct OrderedMap<K, V> {
    keys: Vec<K>,
    values: Vec<V>,
}

pub open spec fn sorted_models(s: Seq<Seq<u32>>) -> bool {
    forall|i: int, j: int| 0 <= i < j < s.len() ==> key_lt(#[trigger] s[i], #[trigger] s[j])
}

impl<K: OrderedKey, V> OrderedMap<K, V> {
    /// The keys, in ascending order.
    pub closed spec fn key_seq(&self) -> Seq<K> {
        self.keys@
    }

    /// The values, in the order of their keys.
    pub closed spec fn value_seq(&self) -> Seq<V> {
        self.values@
    }

    /// The sort codes of the keys, in ascending order.
    pub open spec fn models(&self) -> Seq<Seq<u32>> {
        self.key_seq().map_values(|k: K| k.key_model())
    }

    pub open spec fn wf(&self) -> bool {
        &&& self.key_seq().len() == self.value_seq().len()
        &&& sorted_models(self.models())
    }

    pub open spec fn contains(&self, m: Seq<u32>) -> bool {
        self.models().contains(m)
    }

    pub open spec fn value_of(&self, m: Seq<u32>) -> V {
        self.value_seq()[self.models().index_of(m)]
    }

    /// The map from key codes to values.
    pub open spec fn to_map(&self) -> Map<Seq<u32>, V> {
        Map::new(|m: Seq<u32>| self.contains(m), |m: Seq<u32>| self.value_of(m))
    }

    pub proof fn lemma_index(&self, i: int)
        requires
            self.wf(),
            0 <= i < self.models().len(),
        ensures
            self.contains(self.models()[i]),
            self.models().index_of(self.models()[i]) == i,
            self.value_of(self.models()[i]) == self.value_seq()[i],
            self.to_map().dom().contains(self.models()[i]),
            self.to_map()[self.models()[i]] == self.value_seq()[i],
    {
        let m = self.models()[i];
        assert(self.models()[i] == m);
        let j = self.models().index_of(m);
        assert(0 <= j < self.models().len() && self.models()[j] == m);
        if j < i {
            assert(key_lt(self.models()[j], self.models()[i]));
            lemma_key_lt_irreflexive(m);
        } else if i < j {
            assert(key_lt(self.models()[i], self.models()[j]));
            lemma_key_lt_irreflexive(m);
        }
    }

    pub fn new() -> (r: Self)
        ensures
            r.wf(),
            r.key_seq() == Seq::<K>::empty(),
            r.value_seq() == Seq::<V>::empty(),
            r.to_map() == Map::<Seq<u32>, V>::empty(),
    {
        let r = OrderedMap { keys: Vec::new(), values: Vec::new() };
        assert(r.to_map() =~= Map::<Seq<u32>, V>::empty());
        r
    }

    pub fn len(&self) -> (n: usize)
        requires
            self.wf(),
        ensures
            n == self.key_seq().len(),
    {
        self.keys.len()
    }

    pub fn key_at(&self, i: usize) -> (k: &K)
        requires
            self.wf(),
            i < self.key_seq().len(),
        ensures
            *k == self.key_seq()[i as int],
    {
        &self.keys[i]
    }

    pub fn value_at(&self, i: usize) -> (v: &V)
        requires
            self.wf(),
            i < self.key_seq().len(),
        ensures
            *v == self.value_seq()[i as int],
    {
        &self.values[i]
    }

    /// The first position whose key is not below `code`.
    fn lower_bound(&self, code: &Vec<u32>) -> (i: usize)
        requires
            self.wf(),
        ensures
            i <= self.models().len(),
            forall|j: int| 0 <= j < i ==> key_lt(#[trigger] self.models()[j], code@),
            i < self.models().len() ==> !key_lt(self.models()[i as int], code@),
    {
        let mut i: usize = 0;
        while i < self.keys.len()
            invariant
                self.wf(),
                i <= self.models().len(),
                forall|j: int| 0 <= j < i ==> key_lt(#[trigger] self.models()[j], code@),
            decreases self.keys.len() - i,
        {
            let c = self.keys[i].key_code();
            if !codes_less(&c, code) {
                return i;
            }
            i = i + 1;
        }
        i
    }

    /// The position of the key equal to `key`, if there is one.
    pub fn position(&self, key: &K) -> (r: Option<usize>)
        requires
            self.wf(),
        ensures
            r is Some <==> self.contains(key.key_model()),
            r matches Some(i) ==> i < self.models().len() && self.models()[i as int]
                == key.key_model(),
    {
        let code = key.key_code();
        let i = self.lower_bound(&code);
        if i < self.keys.len() {
            let c = self.keys[i].key_code();
            if codes_equal(&c, &code) {
                return Some(i);
            }
            proof {
                lemma_key_lt_total(c@, code@);
            }
        }
        proof {
            if self.contains(code@) {
                let j = self.models().index_of(code@);
                if j < i {
                    lemma_key_lt_irreflexive(code@);
                } else {
                    assert(key_lt(code@, self.models()[i as int]));
                    if j > i {
                        assert(key_lt(self.models()[i as int], self.models()[j]));
                        lemma_key_lt_transitive(code@, self.models()[i as int], code@);
                    }
                    lemma_key_lt_irreflexive(code@);
                }
            }
        }
        None
    }

    /// The value stored under `key`.
    pub fn get(&self, key: &K) -> (r: Option<&V>)
        requires
            self.wf(),
        ensures
            r is Some <==> self.to_map().dom().contains(key.key_model()),
            r matches Some(v) ==> *v == self.to_map()[key.key_model()],
    {
        match self.position(key) {
            Some(i) => {
                proof {
                    self.lemma_index(i as int);
                }
                Some(&self.values[i])
            },
            None => None,
        }
    }

    /// Replaces the value at position `i`, keeping the key.
    pub fn set_value_at(&mut self, i: usize, v: V)
        requires
            old(self).wf(),
            i < old(self).key_seq().len(),
        ensures
            final(self).wf(),
            final(self).key_seq() == old(self).key_seq(),
            final(self).value_seq() == old(self).value_seq().update(i as int, v),
            final(self).to_map() == old(self).to_map().insert(old(self).models()[i as int], v),
    {
        self.values.set(i, v);
        proof {
            let m = old(self).models()[i as int];
            assert(self.models() =~= old(self).models());
            assert forall|x: Seq<u32>| #[trigger] self.to_map().dom().contains(x)
                == old(self).to_map().insert(m, v).dom().contains(x) by {}
            assert forall|x: Seq<u32>| self.to_map().dom().contains(x) implies #[trigger] self.to_map()[x]
                == old(self).to_map().insert(m, v)[x] by {
                let j = self.models().index_of(x);
                self.lemma_index(j);
                old(self).lemma_index(j);
                if j != i {
                    if j < i {
                        assert(key_lt(self.models()[j], self.models()[i as int]));
                    } else {
                        assert(key_lt(self.models()[i as int], self.models()[j]));
                    }
                    lemma_key_lt_irreflexive(x);
                }
            }
            assert(self.to_map() =~= old(self).to_map().insert(m, v));
        }
    }

    proof fn lemma_models_insert(&self, other: &Self, i: int, k: K)
        requires
            0 <= i <= self.key_seq().len(),
            other.key_seq() == self.key_seq().insert(i, k),
        ensures
            other.models() == self.models().insert(i, k.key_model()),
    {
        assert(other.models() =~= self.models().insert(i, k.key_model()));
    }

    /// Inserts `key` with `v` at the sorted position, when no equal key is present.
    /// Returns whether it inserted.
    pub fn insert_if_absent(&mut self, key: K, v: V) -> (inserted: bool)
        requires
            old(self).wf(),
        ensures
            final(self).wf(),
            inserted == !old(self).contains(key.key_model()),
            inserted ==> final(self).to_map() == old(self).to_map().insert(key.key_model(), v),
            !inserted ==> final(self).key_seq() == old(self).key_seq() && final(self).value_seq()
                == old(self).value_seq(),
            final(self).to_map().dom() == old(self).to_map().dom().insert(key.key_model()),
    {
        let code = key.key_code();
        let i = self.lower_bound(&code);
        if i < self.keys.len() {
            let c = self.keys[i].key_code();
            if codes_equal(&c, &code) {
                proof {
                    self.lemma_index(i as int);
                    assert(self.to_map().dom().insert(key.key_model()) =~= self.to_map().dom());
                }
                return false;
            }
            proof {
                lemma_key_lt_total(c@, code@);
            }
        }
        let ghost m = code@;
        proof {
            // `m` is absent: below position `i` keys are smaller, from `i` on larger.
            if old(self).contains(m) {
                let j = old(self).models().index_of(m);
                if j < i {
                    lemma_key_lt_irreflexive(m);
                } else {
                    if j > i {
                        lemma_key_lt_transitive(m, old(self).models()[i as int], m);
                    }
                    lemma_key_lt_irreflexive(m);
                }
            }
        }
        self.keys.insert(i, key);
        self.values.insert(i, v);
        proof {
            let old_models = old(self).models();
            old(self).lemma_models_insert(self, i as int, key);
            let new_models = self.models();
            assert(new_models[i as int] == m);
            assert forall|a: int, b: int| 0 <= a < b < new_models.len() implies key_lt(
                #[trigger] new_models[a],
                #[trigger] new_models[b],
            ) by {
                if b < i {
                    assert(new_models[a] == old_models[a]);
                    assert(new_models[b] == old_models[b]);
                } else if b == i {
                    assert(new_models[a] == old_models[a]);
                } else if a < i {
                    assert(new_models[a] == old_models[a]);
                    assert(new_models[b] == old_models[b - 1]);
                    assert(key_lt(m, old_models[i as int]));
                    if b - 1 > i {
                        assert(key_lt(old_models[i as int], old_models[b - 1]));
                        lemma_key_lt_transitive(m, old_models[i as int], old_models[b - 1]);
                    }
                    lemma_key_lt_transitive(old_models[a], m, old_models[b - 1]);
                } else if a == i {
                    assert(new_models[b] == old_models[b - 1]);
                    assert(key_lt(m, old_models[i as int]));
                    if b - 1 > i {
                        assert(key_lt(old_models[i as int], old_models[b - 1]));
                        lemma_key_lt_transitive(m, old_models[i as int], old_models[b - 1]);
                    }
                } else {
                    assert(new_models[a] == old_models[a - 1]);
                    assert(new_models[b] == old_models[b - 1]);
                }
            }
            assert(self.wf());
            let target = old(self).to_map().insert(m, v);
            assert forall|x: Seq<u32>| #[trigger] self.to_map().dom().contains(x)
                == target.dom().contains(x) by {
                if self.contains(x) {
                    let j = new_models.index_of(x);
                    if j < i {
                        assert(old_models[j] == x);
                    } else if j > i {
                        assert(old_models[j - 1] == x);
                    }
                }
                if old(self).contains(x) {
                    let j = old_models.index_of(x);
                    if j < i {
                        assert(new_models[j] == x);
                    } else {
                        assert(new_models[j + 1] == x);
                    }
                }
            }
            assert forall|x: Seq<u32>| self.to_map().dom().contains(x) implies #[trigger] self.to_map()[x]
                == target[x] by {
                let j = new_models.index_of(x);
                self.lemma_index(j);
                if j < i {
                    old(self).lemma_index(j);
                } else if j > i {
                    old(self).lemma_index(j - 1);
                }
            }
            assert(self.to_map() =~= target);
        }
        true
    }

    /// Stores `v` under `key`: replaces the value of an equal key, else inserts.
    pub fn insert(&mut self, key: K, v: V)
        requires
            old(self).wf(),
        ensures
            final(self).wf(),
            final(self).to_map() == old(self).to_map().insert(key.key_model(), v),
    {
        match self.position(&key) {
            Some(i) => {
                self.set_value_at(i, v);
            },
            None => {
                self.insert_if_absent(key, v);
            },
        }
    }

    /// Removes the entry at position `i`.
    pub fn remove_at(&mut self, i: usize) -> (r: (K, V))
        requires
            old(self).wf(),
            i < old(self).key_seq().len(),
        ensures
            final(self).wf(),
            final(self).key_seq() == old(self).key_seq().remove(i as int),
            final(self).value_seq() == old(self).value_seq().remove(i as int),
            r.0 == old(self).key_seq()[i as int],
            r.1 == old(self).value_seq()[i as int],
            final(self).to_map() == old(self).to_map().remove(old(self).models()[i as int]),
    {
        let k = self.keys.remove(i);
        let v = self.values.remove(i);
        proof {
            let old_models = old(self).models();
            let new_models = self.models();
            assert(new_models =~= old_models.remove(i as int));
            assert forall|a: int, b: int| 0 <= a < b < new_models.len() implies key_lt(
                #[trigger] new_models[a],
                #[trigger] new_models[b],
            ) by {
                if b < i {
                    assert(new_models[b] == old_models[b]);
                    assert(new_models[a] == old_models[a]);
                } else if a < i {
                    assert(new_models[b] == old_models[b + 1]);
                    assert(new_models[a] == old_models[a]);
                } else {
                    assert(new_models[b] == old_models[b + 1]);
                    assert(new_models[a] == old_models[a + 1]);
                }
            }
            let m = old_models[i as int];
            let target = old(self).to_map().remove(m);
            old(self).lemma_index(i as int);
            assert forall|x: Seq<u32>| #[trigger] self.to_map().dom().contains(x)
                == target.dom().contains(x) by {
                if self.contains(x) {
                    let j = new_models.index_of(x);
                    if j < i {
                        assert(old_models[j] == x);
                        old(self).lemma_index(j);
                    } else {
                        assert(old_models[j + 1] == x);
                        old(self).lemma_index(j + 1);
                    }
                }
                if old(self).contains(x) && x != m {
                    let j = old_models.index_of(x);
                    if j < i {
                        assert(new_models[j] == x);
                    } else {
                        assert(new_models[j - 1] == x);
                    }
                }
            }
            assert forall|x: Seq<u32>| self.to_map().dom().contains(x) implies #[trigger] self.to_map()[x]
                == target[x] by {
                let j = new_models.index_of(x);
                self.lemma_index(j);
                if j < i {
                    old(self).lemma_index(j);
                } else {
                    old(self).lemma_index(j + 1);
                }
            }
            assert(self.to_map() =~= target);
        }
        (k, v)
    }
}

/// Integers ordered by their value: shifted to be non-negative, they keep their order.
impl OrderedKey for i32 {
    open spec fn key_model(&self) -> Seq<u32> {
        seq![(*self as int + 0x8000_0000) as u32]
    }

    fn key_code(&self) -> (r: Vec<u32>) {
        let shifted = (*self as i64 + 0x8000_0000i64) as u32;
        let mut r: Vec<u32> = Vec::new();
        r.push(shifted);
        assert(r@ =~= self.key_model());
        r
    }
}

} // verus!
