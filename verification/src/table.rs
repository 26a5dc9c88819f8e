//! Tables by key.
use vstd::prelude::*;

use crate::keys::{Key, Keys};
use crate::text::same_text;

verus! {

/// A table that holds at most one value for a key.
pub struct Table<K: Key, V> {
    keys: Keys<K>,
    values: Vec<V>,
}

/// Values by keys.
pub open spec fn paired<A, V>(keys: Seq<A>, values: Seq<V>) -> Map<A, V> {
    Map::new(|k: A| keys.contains(k), |k: A| values[keys.index_of(k)])
}

/// The entries of a table whose address is among live ones.
pub open spec fn live_entries<K: Key, V>(table: Map<K::V, V>, live: Seq<Seq<char>>) -> Map<
    K::V,
    V,
> {
    Map::new(
        |k: K::V| table.contains_key(k) && live.contains(K::address(k)),
        |k: K::V| table[k],
    )
}

/// The entries of a table but those of an address.
pub open spec fn entries_off<K: Key, V>(table: Map<K::V, V>, url: Seq<char>) -> Map<K::V, V> {
    Map::new(|k: K::V| table.contains_key(k) && K::address(k) != url, |k: K::V| table[k])
}

impl<K: Key, V> View for Table<K, V> {
    type V = Map<K::V, V>;

    closed spec fn view(&self) -> Map<K::V, V> {
        paired(self.keys@, self.values@)
    }
}

/// The value for the key at a position stands at that position.
proof fn lemma_paired<A, V>(keys: Seq<A>, values: Seq<V>)
    requires
        keys.no_duplicates(),
        keys.len() == values.len(),
    ensures
        forall|i: int|
            0 <= i < keys.len() ==> paired(keys, values).contains_key(#[trigger] keys[i])
                && paired(keys, values)[keys[i]] == values[i],
        forall|k: A|
            #[trigger] paired(keys, values).contains_key(k) ==> exists|i: int|
                0 <= i < keys.len() && keys[i] == k && paired(keys, values)[k] == values[i],
{
    assert forall|i: int| 0 <= i < keys.len() implies paired(keys, values).contains_key(
        #[trigger] keys[i],
    ) && paired(keys, values)[keys[i]] == values[i] by {
        assert(keys.contains(keys[i]));
        let j = keys.index_of(keys[i]);
        assert(0 <= j < keys.len() && keys[j] == keys[i]);
    }
    assert forall|k: A| #[trigger] paired(keys, values).contains_key(k) implies exists|i: int|
        0 <= i < keys.len() && keys[i] == k && paired(keys, values)[k] == values[i] by {
        let i = keys.index_of(k);
        assert(0 <= i < keys.len() && keys[i] == k);
    }
}

/// Taking a position out takes that key out.
proof fn lemma_paired_remove<A, V>(keys: Seq<A>, values: Seq<V>, i: int)
    requires
        keys.no_duplicates(),
        keys.len() == values.len(),
        0 <= i < keys.len(),
    ensures
        keys.remove(i).no_duplicates(),
        paired(keys.remove(i), values.remove(i)) == paired(keys, values).remove(keys[i]),
{
    let fewer = keys.remove(i);
    let rest = values.remove(i);
    assert forall|a: int, b: int| 0 <= a < fewer.len() && 0 <= b < fewer.len() && a != b implies
        fewer[a] != fewer[b] by {
        let a1 = if a < i { a } else { a + 1 };
        let b1 = if b < i { b } else { b + 1 };
        assert(fewer[a] == keys[a1] && fewer[b] == keys[b1]);
    }
    lemma_paired(keys, values);
    lemma_paired(fewer, rest);
    assert forall|k: A| #[trigger] paired(fewer, rest).contains_key(k) == paired(keys, values).remove(
        keys[i],
    ).contains_key(k) by {
        if paired(fewer, rest).contains_key(k) {
            let a = choose|a: int| 0 <= a < fewer.len() && fewer[a] == k;
            let a1 = if a < i { a } else { a + 1 };
            assert(keys[a1] == k);
        }
        if keys.contains(k) && k != keys[i] {
            let a1 = choose|a1: int| 0 <= a1 < keys.len() && keys[a1] == k;
            let a = if a1 < i { a1 } else { a1 - 1 };
            assert(fewer[a] == k);
        }
    }
    assert forall|k: A| #[trigger] paired(fewer, rest).contains_key(k) implies paired(
        fewer,
        rest,
    )[k] == paired(keys, values).remove(keys[i])[k] by {
        let a = choose|a: int|
            0 <= a < fewer.len() && fewer[a] == k && paired(fewer, rest)[k] == rest[a];
        let a1 = if a < i { a } else { a + 1 };
        assert(keys[a1] == k);
        assert(rest[a] == values[a1]);
    }
    assert(paired(fewer, rest) =~= paired(keys, values).remove(keys[i]));
}

impl<K: Key, V> Table<K, V> {
    #[verifier::type_invariant]
    closed spec fn matched(self) -> bool {
        &&& self.keys@.no_duplicates()
        &&& self.keys@.len() == self.values@.len()
    }

    /// The keys of a table, in the order in which they came.
    pub closed spec fn order(&self) -> Seq<K::V> {
        self.keys@
    }

    /// The table without entries.
    pub fn new() -> (r: Self)
        ensures
            r@ == Map::<K::V, V>::empty(),
            r.order() == Seq::<K::V>::empty(),
    {
        let r = Table { keys: Keys::new(), values: Vec::new() };
        assert(r@ =~= Map::<K::V, V>::empty());
        r
    }

    /// The number of entries.
    pub fn len(&self) -> (r: usize)
        ensures
            self@.dom().finite(),
            r == self@.dom().len(),
            r == self.order().len(),
            self.order().no_duplicates(),
            forall|k: K::V| #[trigger] self@.contains_key(k) == self.order().contains(k),
    {
        proof {
            use_type_invariant(self);
            self.keys@.unique_seq_to_set();
            assert(self@.dom() =~= self.keys@.to_set());
        }
        self.keys.len()
    }

    /// The entry at a position.
    pub fn entry(&self, i: usize) -> (r: (&K, &V))
        requires
            i < self.order().len(),
        ensures
            r.0@ == self.order()[i as int],
            self@.contains_key(r.0@),
            self@[r.0@] == *r.1,
    {
        proof {
            use_type_invariant(self);
            lemma_paired(self.keys@, self.values@);
        }
        (self.keys.at(i), &self.values[i])
    }

    /// The value for a key.
    pub fn get(&self, key: &K) -> (r: Option<&V>)
        ensures
            match r {
                Some(value) => self@.contains_key(key@) && self@[key@] == *value,
                None => !self@.contains_key(key@),
            },
    {
        proof {
            use_type_invariant(self);
            lemma_paired(self.keys@, self.values@);
        }
        match self.keys.position(key) {
            Some(i) => Some(&self.values[i]),
            None => None,
        }
    }

    /// Whether there is a value for a key.
    pub fn contains_key(&self, key: &K) -> (r: bool)
        ensures
            r == self@.contains_key(key@),
    {
        self.keys.contains(key)
    }

    /// Takes the entries out, and leaves none.
    fn take_entries(&mut self) -> (r: (Keys<K>, Vec<V>))
        ensures
            r.0@.no_duplicates(),
            r.0@.len() == r.1@.len(),
            paired(r.0@, r.1@) == old(self)@,
            r.0@ == old(self).order(),
    {
        proof {
            use_type_invariant(&*self);
        }
        let mut other = Table { keys: Keys::new(), values: Vec::new() };
        std::mem::swap(&mut other, self);
        proof {
            use_type_invariant(&other);
        }
        (other.keys, other.values)
    }

    /// Puts a value in for a key, in place of the one there was. Says whether there was none.
    pub fn insert(&mut self, key: K, value: V) -> (r: bool)
        ensures
            final(self)@ == old(self)@.insert(key@, value),
            r == !old(self)@.contains_key(key@),
    {
        let ghost before = self@;
        let (mut keys, mut values) = self.take_entries();
        let ghost keys0 = keys@;
        let ghost values0 = values@;
        proof {
            lemma_paired(keys0, values0);
        }
        match keys.position(&key) {
            Some(i) => {
                values.set(i, value);
                proof {
                    lemma_paired(keys@, values@);
                    assert(keys0[i as int] == key@);
                    assert(paired(keys@, values@) =~= before.insert(key@, value)) by {
                        assert forall|k: K::V| #[trigger]
                            keys0.contains(k) implies paired(keys@, values@)[k] == before.insert(
                            key@,
                            value,
                        )[k] by {
                            let a = keys0.index_of(k);
                            assert(keys0[a] == k);
                            assert(values@[a] == if a == i { value } else { values0[a] });
                        }
                    }
                }
                *self = Table { keys, values };
                false
            },
            None => {
                let ghost view = key@;
                keys.push_back(key);
                values.push(value);
                proof {
                    assert(keys@.no_duplicates());
                    lemma_paired(keys@, values@);
                    assert forall|k: K::V| #[trigger] keys@.contains(k) == before.insert(
                        view,
                        value,
                    ).contains_key(k) by {
                        vstd::seq_lib::lemma_seq_contains_after_push(keys0, view, k);
                    }
                    assert forall|k: K::V| #[trigger] keys@.contains(k) implies paired(
                        keys@,
                        values@,
                    )[k] == before.insert(view, value)[k] by {
                        let a = keys@.index_of(k);
                        assert(keys@[a] == k);
                        if a < keys0.len() {
                            assert(keys0[a] == k);
                            assert(values@[a] == values0[a]);
                        } else {
                            assert(k == view);
                        }
                    }
                    assert(paired(keys@, values@) =~= before.insert(view, value));
                }
                *self = Table { keys, values };
                true
            },
        }
    }

    /// Takes the entry for a key out. Says whether there was one.
    pub fn remove(&mut self, key: &K) -> (r: bool)
        ensures
            final(self)@ == old(self)@.remove(key@),
            r == old(self)@.contains_key(key@),
    {
        let ghost before = self@;
        let (mut keys, mut values) = self.take_entries();
        match keys.position(key) {
            Some(i) => {
                proof {
                    lemma_paired(keys@, values@);
                    lemma_paired_remove(keys@, values@, i as int);
                }
                keys.remove_at(i);
                let _ = values.remove(i);
                *self = Table { keys, values };
                true
            },
            None => {
                *self = Table { keys, values };
                assert(before =~= before.remove(key@));
                false
            },
        }
    }

    /// Keeps the entries whose address is live.
    pub fn keep_urls(&mut self, live: &Keys<String>)
        ensures
            final(self)@ == live_entries::<K, V>(old(self)@, live@),
    {
        let ghost before = self@;
        let (mut keys, mut values) = self.take_entries();
        let mut i: usize = 0;
        while i < keys.len()
            invariant
                i <= keys@.len(),
                keys@.no_duplicates(),
                keys@.len() == values@.len(),
                forall|k: K::V| #[trigger]
                    paired(keys@, values@).contains_key(k) ==> before.contains_key(k) && before[k]
                        == paired(keys@, values@)[k],
                forall|k: K::V|
                    #![trigger before.contains_key(k)]
                    before.contains_key(k) && live@.contains(K::address(k)) ==> paired(
                        keys@,
                        values@,
                    ).contains_key(k),
                forall|j: int| 0 <= j < i ==> live@.contains(K::address(#[trigger] keys@[j])),
            decreases keys@.len() - i,
        {
            if live.contains(keys.at(i).url()) {
                i += 1;
            } else {
                proof {
                    lemma_paired_remove(keys@, values@, i as int);
                }
                keys.remove_at(i);
                let _ = values.remove(i);
            }
        }
        proof {
            lemma_paired(keys@, values@);
            assert(paired(keys@, values@) =~= live_entries::<K, V>(before, live@));
        }
        *self = Table { keys, values };
    }

    /// Takes out the entries of an address.
    pub fn drop_url(&mut self, url: &String)
        ensures
            final(self)@ == entries_off::<K, V>(old(self)@, url@),
    {
        let ghost before = self@;
        let (mut keys, mut values) = self.take_entries();
        let mut i: usize = 0;
        while i < keys.len()
            invariant
                i <= keys@.len(),
                keys@.no_duplicates(),
                keys@.len() == values@.len(),
                forall|k: K::V| #[trigger]
                    paired(keys@, values@).contains_key(k) ==> before.contains_key(k) && before[k]
                        == paired(keys@, values@)[k],
                forall|k: K::V|
                    #![trigger before.contains_key(k)]
                    before.contains_key(k) && K::address(k) != url@ ==> paired(
                        keys@,
                        values@,
                    ).contains_key(k),
                forall|j: int| 0 <= j < i ==> K::address(#[trigger] keys@[j]) != url@,
            decreases keys@.len() - i,
        {
            if !same_text(keys.at(i).url().as_str(), url.as_str()) {
                i += 1;
            } else {
                proof {
                    lemma_paired_remove(keys@, values@, i as int);
                }
                keys.remove_at(i);
                let _ = values.remove(i);
            }
        }
        proof {
            lemma_paired(keys@, values@);
            assert(paired(keys@, values@) =~= entries_off::<K, V>(before, url@));
        }
        *self = Table { keys, values };
    }
}

} // verus!
