//! Keys that name something with an address, lists in which no key occurs twice, and tables
//! by key.
use vstd::prelude::*;

use crate::text::same_text;

verus! {

/// A key that belongs to an address.
pub trait Key: View + Sized {
    /// The address a key belongs to.
    spec fn address(key: Self::V) -> Seq<char>;

    /// Whether two keys are the same.
    fn same(&self, other: &Self) -> (r: bool)
        ensures
            r == (self@ == other@),
    ;

    /// The address this key belongs to.
    fn url(&self) -> (r: &String)
        ensures
            r@ == Self::address(self@),
    ;

    /// A copy of this key.
    fn copy(&self) -> (r: Self)
        ensures
            r@ == self@,
    ;
}

impl Key for String {
    open spec fn address(key: Seq<char>) -> Seq<char> {
        key
    }

    fn same(&self, other: &Self) -> (r: bool) {
        same_text(self.as_str(), other.as_str())
    }

    fn url(&self) -> (r: &String) {
        self
    }

    fn copy(&self) -> (r: Self) {
        self.clone()
    }
}

/// The photo at an address, made for a width and a height in terminal cells.
pub type TerminalPhotoKey = (String, u16, u16);

/// The photo at an address, drawn in a width and a height in terminal cells, with or without
/// terminal graphics.
pub type PhotoRenderBufferKey = (String, u16, u16, bool);

impl Key for TerminalPhotoKey {
    open spec fn address(key: (Seq<char>, u16, u16)) -> Seq<char> {
        key.0
    }

    fn same(&self, other: &Self) -> (r: bool) {
        same_text(self.0.as_str(), other.0.as_str()) && self.1 == other.1 && self.2 == other.2
    }

    fn url(&self) -> (r: &String) {
        &self.0
    }

    fn copy(&self) -> (r: Self) {
        (self.0.clone(), self.1, self.2)
    }
}

impl Key for PhotoRenderBufferKey {
    open spec fn address(key: (Seq<char>, u16, u16, bool)) -> Seq<char> {
        key.0
    }

    fn same(&self, other: &Self) -> (r: bool) {
        same_text(self.0.as_str(), other.0.as_str()) && self.1 == other.1 && self.2 == other.2
            && self.3 == other.3
    }

    fn url(&self) -> (r: &String) {
        &self.0
    }

    fn copy(&self) -> (r: Self) {
        (self.0.clone(), self.1, self.2, self.3)
    }
}

/// What a list of keys says.
pub open spec fn key_views<K: Key>(items: Seq<K>) -> Seq<K::V> {
    items.map_values(|k: K| k@)
}

/// The keys of a list but one.
pub open spec fn without<A>(keys: Seq<A>, key: A) -> Seq<A> {
    keys.filter(|k: A| k != key)
}

/// The keys of a list whose address is among live ones.
pub open spec fn with_live_urls<K: Key>(keys: Seq<K::V>, live: Seq<Seq<char>>) -> Seq<K::V> {
    keys.filter(|k: K::V| live.contains(K::address(k)))
}

/// A key has another address than one.
pub open spec fn has_other_url<K: Key>(url: Seq<char>) -> spec_fn(K::V) -> bool {
    |k: K::V| K::address(k) != url
}

/// The keys of a list but those of an address.
pub open spec fn without_url<K: Key>(keys: Seq<K::V>, url: Seq<char>) -> Seq<K::V> {
    keys.filter(has_other_url::<K>(url))
}

/// A list of keys, none of which occurs twice.
pub struct Keys<K: Key> {
    items: Vec<K>,
}

impl<K: Key> View for Keys<K> {
    type V = Seq<K::V>;

    closed spec fn view(&self) -> Seq<K::V> {
        key_views(self.items@)
    }
}

/// What is picked from a list: those of its entries that fit, and none twice where none stands
/// in the list twice.
pub proof fn lemma_picked<A>(keys: Seq<A>, pred: spec_fn(A) -> bool)
    ensures
        keys.no_duplicates() ==> keys.filter(pred).no_duplicates(),
        forall|k: A| #[trigger]
            keys.filter(pred).contains(k) <==> keys.contains(k) && pred(k),
    decreases keys.len(),
{
    reveal(Seq::filter);
    if keys.len() > 0 {
        let rest = keys.drop_last();
        lemma_picked(rest, pred);
        let kept = rest.filter(pred);
        assert(keys =~= rest.push(keys.last()));
        assert forall|k: A| #[trigger] keys.filter(pred).contains(k) <==> keys.contains(k) && pred(
            k,
        ) by {
            vstd::seq_lib::lemma_seq_contains_after_push(kept, keys.last(), k);
            vstd::seq_lib::lemma_seq_contains_after_push(rest, keys.last(), k);
        }
        if keys.no_duplicates() {
            assert(rest.no_duplicates());
            assert(!rest.contains(keys.last()));
            if pred(keys.last()) {
                assert(!kept.contains(keys.last()));
                assert(kept.push(keys.last()).no_duplicates());
            }
        }
    }
}

/// One more step of picking from a list.
proof fn lemma_filter_step<A>(s: Seq<A>, i: int, pred: spec_fn(A) -> bool)
    requires
        0 <= i < s.len(),
    ensures
        s.take(i + 1).filter(pred) == (if pred(s[i]) {
            s.take(i).filter(pred).push(s[i])
        } else {
            s.take(i).filter(pred)
        }),
{
    reveal(Seq::filter);
    assert(s.take(i + 1).drop_last() =~= s.take(i));
}

impl<K: Key> Keys<K> {
    #[verifier::type_invariant]
    closed spec fn distinct(self) -> bool {
        key_views(self.items@).no_duplicates()
    }

    /// The list without keys.
    pub fn new() -> (r: Self)
        ensures
            r@ == Seq::<K::V>::empty(),
    {
        let items: Vec<K> = Vec::new();
        assert(key_views(items@) =~= Seq::<K::V>::empty());
        Keys { items }
    }

    /// The number of keys, no two of which are the same.
    pub fn len(&self) -> (r: usize)
        ensures
            r == self@.len(),
            self@.no_duplicates(),
    {
        proof {
            use_type_invariant(self);
        }
        self.items.len()
    }

    /// The key at a position.
    pub fn at(&self, i: usize) -> (r: &K)
        requires
            i < self@.len(),
        ensures
            r@ == self@[i as int],
    {
        &self.items[i]
    }

    /// The position of a key.
    pub fn position(&self, key: &K) -> (r: Option<usize>)
        ensures
            match r {
                Some(i) => i < self@.len() && self@[i as int] == key@,
                None => !self@.contains(key@),
            },
    {
        let mut i: usize = 0;
        while i < self.items.len()
            invariant
                i <= self.items@.len(),
                forall|k: int| 0 <= k < i ==> #[trigger] self@[k] != key@,
            decreases self.items@.len() - i,
        {
            if self.items[i].same(key) {
                return Some(i);
            }
            assert(self@[i as int] == self.items@[i as int]@);
            i += 1;
        }
        assert(!self@.contains(key@));
        None
    }

    /// Whether a key is in the list.
    pub fn contains(&self, key: &K) -> (r: bool)
        ensures
            r == self@.contains(key@),
    {
        match self.position(key) {
            Some(i) => {
                assert(self@[i as int] == key@);
                true
            },
            None => false,
        }
    }

    /// Takes the keys out, and leaves none.
    fn take_items(&mut self) -> (r: Vec<K>)
        ensures
            key_views(r@) == old(self)@,
            key_views(r@).no_duplicates(),
            final(self)@ == Seq::<K::V>::empty(),
    {
        proof {
            use_type_invariant(&*self);
        }
        let mut items: Vec<K> = Vec::new();
        assert(key_views(items@) =~= Seq::<K::V>::empty());
        std::mem::swap(&mut items, &mut self.items);
        items
    }

    /// Puts a key that is not in the list behind the others.
    pub fn push_back(&mut self, key: K)
        requires
            !old(self)@.contains(key@),
        ensures
            final(self)@ == old(self)@.push(key@),
    {
        let mut items = self.take_items();
        let ghost before = key_views(items@);
        items.push(key);
        assert(key_views(items@) =~= before.push(key@));
        assert(before.push(key@).no_duplicates());
        self.items = items;
    }

    /// Puts a key that is not in the list before the others.
    pub fn push_front(&mut self, key: K)
        requires
            !old(self)@.contains(key@),
        ensures
            final(self)@ == seq![key@] + old(self)@,
    {
        let mut items = self.take_items();
        let ghost before = key_views(items@);
        items.insert(0, key);
        proof {
            let after = key_views(items@);
            assert(after =~= seq![key@] + before);
            assert forall|i: int, j: int|
                0 <= i < after.len() && 0 <= j < after.len() && i != j implies after[i]
                != after[j] by {
                if i == 0 {
                    assert(after[j] == before[j - 1]);
                } else if j == 0 {
                    assert(after[i] == before[i - 1]);
                } else {
                    assert(after[i] == before[i - 1] && after[j] == before[j - 1]);
                }
            }
        }
        self.items = items;
    }

    /// Takes the first key out.
    pub fn pop_front(&mut self) -> (r: Option<K>)
        ensures
            match r {
                Some(key) => old(self)@.len() > 0 && key@ == old(self)@[0] && final(self)@
                    == old(self)@.drop_first(),
                None => old(self)@.len() == 0 && final(self)@ == old(self)@,
            },
    {
        if self.items.len() == 0 {
            return None;
        }
        let mut items = self.take_items();
        let ghost before = key_views(items@);
        let key = items.remove(0);
        assert(key_views(items@) =~= before.drop_first());
        assert(before.drop_first().no_duplicates());
        self.items = items;
        Some(key)
    }

    /// Takes the key at a position out.
    pub fn remove_at(&mut self, i: usize)
        requires
            i < old(self)@.len(),
        ensures
            final(self)@ == old(self)@.remove(i as int),
    {
        let mut items = self.take_items();
        let ghost before = key_views(items@);
        let _ = items.remove(i);
        assert(key_views(items@) =~= before.remove(i as int));
        self.items = items;
    }

    /// Takes a key out.
    pub fn remove(&mut self, key: &K)
        ensures
            final(self)@ == without(old(self)@, key@),
    {
        let items = self.take_items();
        let ghost all = key_views(items@);
        let ghost whole = items@;
        let ghost pred = |k: K::V| k != key@;
        let mut kept: Vec<K> = Vec::new();
        assert(all.take(0) =~= Seq::<K::V>::empty());
        reveal(Seq::filter);
        assert(key_views(kept@) =~= all.take(0).filter(pred));
        for item in it: items
            invariant
                it.seq() == whole,
                all == key_views(whole),
                pred == (|k: K::V| k != key@),
                key_views(kept@) == all.take(it.index() as int).filter(pred),
        {
            proof {
                lemma_filter_step(all, it.index() as int, pred);
                assert(key_views(kept@.push(item)) =~= key_views(kept@).push(item@));
            }
            if !item.same(key) {
                kept.push(item);
            }
        }
        proof {
            assert(all.take(all.len() as int) =~= all);
            lemma_picked(all, pred);
        }
        self.items = kept;
    }

    /// Keeps the keys whose address is live.
    pub fn keep_urls(&mut self, live: &Keys<String>)
        ensures
            final(self)@ == with_live_urls::<K>(old(self)@, live@),
    {
        let items = self.take_items();
        let ghost all = key_views(items@);
        let ghost whole = items@;
        let ghost pred = |k: K::V| live@.contains(K::address(k));
        let mut kept: Vec<K> = Vec::new();
        assert(all.take(0) =~= Seq::<K::V>::empty());
        reveal(Seq::filter);
        assert(key_views(kept@) =~= all.take(0).filter(pred));
        for item in it: items
            invariant
                it.seq() == whole,
                all == key_views(whole),
                pred == (|k: K::V| live@.contains(K::address(k))),
                key_views(kept@) == all.take(it.index() as int).filter(pred),
        {
            proof {
                lemma_filter_step(all, it.index() as int, pred);
                assert(key_views(kept@.push(item)) =~= key_views(kept@).push(item@));
            }
            if live.contains(item.url()) {
                kept.push(item);
            }
        }
        proof {
            assert(all.take(all.len() as int) =~= all);
            lemma_picked(all, pred);
        }
        self.items = kept;
    }

    /// Takes out the keys of an address.
    pub fn drop_url(&mut self, url: &String)
        ensures
            final(self)@ == without_url::<K>(old(self)@, url@),
    {
        let items = self.take_items();
        let ghost all = key_views(items@);
        let ghost whole = items@;
        let ghost pred = has_other_url::<K>(url@);
        let mut kept: Vec<K> = Vec::new();
        assert(all.take(0) =~= Seq::<K::V>::empty());
        reveal(Seq::filter);
        assert(key_views(kept@) =~= all.take(0).filter(pred));
        for item in it: items
            invariant
                it.seq() == whole,
                all == key_views(whole),
                pred == has_other_url::<K>(url@),
                key_views(kept@) == all.take(it.index() as int).filter(pred),
        {
            proof {
                lemma_filter_step(all, it.index() as int, pred);
                assert(key_views(kept@.push(item)) =~= key_views(kept@).push(item@));
            }
            if !same_text(item.url().as_str(), url.as_str()) {
                kept.push(item);
            }
        }
        proof {
            assert(all.take(all.len() as int) =~= all);
            lemma_picked(all, pred);
        }
        self.items = kept;
    }

    /// Moves a key to the front, or puts it there.
    pub fn promote(&mut self, key: K)
        ensures
            final(self)@ == seq![key@] + without(old(self)@, key@),
    {
        self.remove(&key);
        proof {
            lemma_without(old(self)@, key@);
        }
        self.push_front(key);
    }

    /// Moves a key to the back, or puts it there.
    pub fn touch(&mut self, key: &K)
        ensures
            final(self)@ == without(old(self)@, key@).push(key@),
    {
        self.remove(key);
        proof {
            lemma_without(old(self)@, key@);
        }
        self.push_back(key.copy());
    }
}

/// The keys with live addresses are those of the list whose address is live, and none occurs
/// twice.
pub proof fn lemma_with_live_urls<K: Key>(keys: Seq<K::V>, live: Seq<Seq<char>>)
    ensures
        keys.no_duplicates() ==> with_live_urls::<K>(keys, live).no_duplicates(),
        forall|k: K::V| #[trigger]
            with_live_urls::<K>(keys, live).contains(k) <==> keys.contains(k) && live.contains(
                K::address(k),
            ),
{
    lemma_picked(keys, |k: K::V| live.contains(K::address(k)));
}

/// The keys without an address are those of the list that have another, and none occurs twice.
pub proof fn lemma_without_url<K: Key>(keys: Seq<K::V>, url: Seq<char>)
    ensures
        keys.no_duplicates() ==> without_url::<K>(keys, url).no_duplicates(),
        forall|k: K::V| #[trigger]
            without_url::<K>(keys, url).contains(k) <==> keys.contains(k) && K::address(k) != url,
{
    lemma_picked(keys, has_other_url::<K>(url));
}

/// A list without a key holds the others, and is the list itself where the key is not in it.
pub proof fn lemma_without<A>(keys: Seq<A>, key: A)
    ensures
        forall|k: A| #[trigger] without(keys, key).contains(k) <==> keys.contains(k) && k != key,
        !keys.contains(key) ==> without(keys, key) == keys,
        keys.no_duplicates() ==> without(keys, key).no_duplicates(),
    decreases keys.len(),
{
    reveal(Seq::filter);
    lemma_picked(keys, |k: A| k != key);
    if keys.len() > 0 {
        let rest = keys.drop_last();
        lemma_without(rest, key);
        assert(keys =~= rest.push(keys.last()));
        vstd::seq_lib::lemma_seq_contains_after_push(rest, keys.last(), key);
    }
}

/// The keys that wait after one more was asked for: at the front where it has priority, and
/// otherwise at the back, or where it waits already.
pub open spec fn enqueued<A>(queue: Seq<A>, key: A, priority: bool) -> Seq<A> {
    if priority {
        seq![key] + without(queue, key)
    } else if queue.contains(key) {
        queue
    } else {
        queue.push(key)
    }
}

/// What waits after one more key was asked for, none of it twice.
pub proof fn lemma_enqueued<A>(queue: Seq<A>, key: A, priority: bool)
    ensures
        forall|k: A| #[trigger]
            enqueued(queue, key, priority).contains(k) <==> k == key || queue.contains(k),
        queue.no_duplicates() ==> enqueued(queue, key, priority).no_duplicates(),
        enqueued(enqueued(queue, key, priority), key, priority) == enqueued(queue, key, priority),
{
    let rest = without(queue, key);
    let all = enqueued(queue, key, priority);
    lemma_without(queue, key);
    if priority {
        assert(all == seq![key] + rest);
        assert forall|k: A| #[trigger] all.contains(k) <==> k == key || queue.contains(k) by {
            if all.contains(k) {
                let i = choose|i: int| 0 <= i < all.len() && all[i] == k;
                if i > 0 {
                    assert(rest[i - 1] == k);
                    assert(rest.contains(k));
                }
            }
            if k == key {
                assert(all[0] == k);
            } else if queue.contains(k) {
                assert(rest.contains(k));
                let i = choose|i: int| 0 <= i < rest.len() && rest[i] == k;
                assert(all[i + 1] == k);
            }
        }
        if queue.no_duplicates() {
            assert forall|i: int, j: int| 0 <= i < all.len() && 0 <= j < all.len() && i != j implies
                all[i] != all[j] by {
                if i > 0 {
                    assert(all[i] == rest[i - 1]);
                    assert(rest.contains(rest[i - 1]));
                }
                if j > 0 {
                    assert(all[j] == rest[j - 1]);
                    assert(rest.contains(rest[j - 1]));
                }
            }
        }
        rest.lemma_filter_prepend(key, |k: A| k != key);
        lemma_without(rest, key);
        assert(without(all, key) =~= rest);
    } else if !queue.contains(key) {
        assert forall|k: A| #[trigger] all.contains(k) <==> k == key || queue.contains(k) by {
            vstd::seq_lib::lemma_seq_contains_after_push(queue, key, k);
        }
    }
}

impl<K: Key> Keys<K> {
    /// Lets a key wait: at the front where it has priority, and otherwise at the back, or where
    /// it waits already.
    pub fn enqueue(&mut self, key: K, priority: bool)
        ensures
            final(self)@ == enqueued(old(self)@, key@, priority),
    {
        if priority {
            self.promote(key);
        } else if !self.contains(&key) {
            self.push_back(key);
        }
    }
}

/// What is asked for with priority waits in front of all others, which keep their order; what is
/// asked for without waits behind all others, unless it waits already.
pub proof fn law_priority_waits_in_front<A>(queue: Seq<A>, key: A)
    ensures
        enqueued(queue, key, true).len() > 0,
        enqueued(queue, key, true)[0] == key,
        !queue.contains(key) ==> enqueued(queue, key, true).drop_first() == queue,
        !queue.contains(key) ==> enqueued(queue, key, false) == queue.push(key),
        queue.contains(key) ==> enqueued(queue, key, false) == queue,
        forall|k: A|
            k != key ==> (#[trigger] enqueued(queue, key, true).contains(k) <==> queue.contains(k)),
{
    lemma_without(queue, key);
    lemma_enqueued(queue, key, true);
    if !queue.contains(key) {
        assert(enqueued(queue, key, true).drop_first() =~= queue);
    }
}

/// Taking a key, those of an address, or those of addresses that are not live out of a list takes
/// these and no others.
pub proof fn law_only_the_named_are_taken_out<K: Key>(
    keys: Seq<K::V>,
    key: K::V,
    url: Seq<char>,
    live: Seq<Seq<char>>,
    k: K::V,
)
    ensures
        without(keys, key).contains(k) <==> keys.contains(k) && k != key,
        without_url::<K>(keys, url).contains(k) <==> keys.contains(k) && K::address(k) != url,
        with_live_urls::<K>(keys, live).contains(k) <==> keys.contains(k) && live.contains(
            K::address(k),
        ),
{
    lemma_without(keys, key);
    lemma_without_url::<K>(keys, url);
    lemma_with_live_urls::<K>(keys, live);
}

} // verus!
