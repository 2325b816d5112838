//! Tables with pairs of numbers as keys.
use vstd::prelude::*;

verus! {

/// A table with pairs of numbers as keys.
pub struct PairMap<V> {
    keys: Vec<(u64, u64)>,
    values: Vec<V>,
}

impl<V> PairMap<V> {
    #[verifier::type_invariant]
    closed spec fn keyed(self) -> bool {
        &&& self.keys@.len() == self.values@.len()
        &&& forall|i: int, j: int|
            0 <= i < j < self.keys@.len() ==> #[trigger] self.keys@[i] != #[trigger] self.keys@[j]
    }

    pub closed spec fn view(&self) -> Map<(u64, u64), V> {
        Map::new(
            |k: (u64, u64)| self.keys@.contains(k),
            |k: (u64, u64)| self.values@[self.keys@.index_of(k)],
        )
    }

    pub fn new() -> (r: PairMap<V>)
        ensures
            r@ == Map::<(u64, u64), V>::empty(),
    {
        let r = PairMap { keys: Vec::new(), values: Vec::new() };
        assert(r@ =~= Map::<(u64, u64), V>::empty());
        r
    }

    fn find(&self, key: (u64, u64)) -> (r: Option<usize>)
        ensures
            match r {
                Some(i) => i < self.keys@.len() && self.keys@[i as int] == key && self.keys@.index_of(
                    key,
                ) == i,
                None => !self.keys@.contains(key),
            },
    {
        proof {
            use_type_invariant(self);
        }
        let mut i: usize = 0;
        while i < self.keys.len()
            invariant
                i <= self.keys@.len(),
                self.keyed(),
                forall|j: int| 0 <= j < i ==> self.keys@[j] != key,
            decreases self.keys@.len() - i,
        {
            let k: (u64, u64) = self.keys[i];
            if k.0 == key.0 && k.1 == key.1 {
                assert(self.keys@.contains(key));
                return Some(i);
            }
            i += 1;
        }
        None
    }

    pub fn get(&self, key: (u64, u64)) -> (r: Option<&V>)
        ensures
            match r {
                Some(v) => self@.contains_key(key) && self@[key] == *v,
                None => !self@.contains_key(key),
            },
    {
        proof {
            use_type_invariant(self);
        }
        match self.find(key) {
            Some(i) => {
                assert(self.keys@.contains(key));
                Some(&self.values[i])
            },
            None => None,
        }
    }

    pub fn insert(&mut self, key: (u64, u64), value: V)
        ensures
            final(self)@ == old(self)@.insert(key, value),
    {
        proof {
            use_type_invariant(&*self);
        }
        let place = self.find(key);
        let mut me = PairMap { keys: Vec::new(), values: Vec::new() };
        std::mem::swap(&mut me, self);
        let ghost before = me@;
        proof {
            use_type_invariant(&me);
        }
        let PairMap { keys: mut keys, values: mut values } = me;
        let ghost old_keys = keys@;
        let ghost old_values = values@;
        match place {
            Some(i) => {
                values.set(i, value);
                *self = PairMap { keys, values };
                assert(old_keys.contains(key));
                assert forall|k: (u64, u64)| old_keys.contains(k) && k != key implies old_values[old_keys.index_of(
                    k,
                )] == #[trigger] self@[k] by {
                    assert(old_keys.index_of(k) != i);
                }
                assert(self@ =~= before.insert(key, value));
            },
            None => {
                keys.push(key);
                values.push(value);
                assert forall|a: int, b: int| 0 <= a < b < keys@.len() implies #[trigger] keys@[a]
                    != #[trigger] keys@[b] by {
                    if b == old_keys.len() {
                        assert(old_keys.contains(keys@[a]));
                    }
                }
                let ghost new_keys = keys@;
                assert forall|k: (u64, u64)| old_keys.contains(k) implies new_keys.contains(k)
                    && new_keys.index_of(k) == old_keys.index_of(k) by {
                    let i = old_keys.index_of(k);
                    assert(new_keys[i] == k);
                    let j = new_keys.index_of(k);
                    if j < i {
                        assert(old_keys[j] == k);
                    }
                }
                assert(new_keys[old_keys.len() as int] == key);
                assert(new_keys.index_of(key) == old_keys.len()) by {
                    let j = new_keys.index_of(key);
                    if j < old_keys.len() {
                        assert(old_keys[j] == key);
                    }
                }
                assert forall|k: (u64, u64)| new_keys.contains(k) implies k == key
                    || old_keys.contains(k) by {
                    let j = new_keys.index_of(k);
                    if j < old_keys.len() {
                        assert(old_keys[j] == k);
                    }
                }
                *self = PairMap { keys, values };
                assert(self@ =~= before.insert(key, value));
            },
        }
    }

    pub fn remove(&mut self, key: (u64, u64)) -> (r: Option<V>)
        ensures
            final(self)@ == old(self)@.remove(key),
            match r {
                Some(v) => old(self)@.contains_key(key) && v == old(self)@[key],
                None => !old(self)@.contains_key(key),
            },
    {
        proof {
            use_type_invariant(&*self);
        }
        let place = self.find(key);
        match place {
            None => {
                assert(self@.remove(key) =~= self@);
                None
            },
            Some(i) => {
                let mut me = PairMap { keys: Vec::new(), values: Vec::new() };
                std::mem::swap(&mut me, self);
                let ghost before = me@;
                proof {
                    use_type_invariant(&me);
                }
                let PairMap { keys: mut keys, values: mut values } = me;
                let ghost old_keys = keys@;
                let ghost old_values = values@;
                let _gone = keys.remove(i);
                let value = values.remove(i);
                let ghost new_keys = keys@;
                assert forall|k: int| 0 <= k < new_keys.len() implies #[trigger] new_keys[k]
                    == old_keys[if k < i {
                    k
                } else {
                    k + 1
                }] by {}
                assert forall|a: int, b: int| 0 <= a < b < keys@.len() implies #[trigger] keys@[a]
                    != #[trigger] keys@[b] by {}
                assert forall|k: (u64, u64)| old_keys.contains(k) && k != key implies {
                    let at = old_keys.index_of(k);
                    &&& new_keys.contains(k)
                    &&& new_keys.index_of(k) == (if at < i {
                        at
                    } else {
                        at - 1
                    })
                } by {
                    let at = old_keys.index_of(k);
                    let now = if at < i {
                        at
                    } else {
                        at - 1
                    };
                    assert(new_keys[now] == k);
                    let j = new_keys.index_of(k);
                    assert(new_keys[j] == k);
                }
                assert forall|k: (u64, u64)| new_keys.contains(k) implies old_keys.contains(k) && k
                    != key by {
                    let j = new_keys.index_of(k);
                    assert(new_keys[j] == k);
                }
                *self = PairMap { keys, values };
                assert(self@ =~= before.remove(key));
                assert(old_keys.contains(key));
                Some(value)
            },
        }
    }
}

} // verus!
