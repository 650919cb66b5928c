//! A bounded cache of decoded previews with least-recently-used eviction.
use vstd::prelude::*;
use crate::seqs::{index_in, lemma_index_in};
use crate::text::str_eq;

verus! {

/// The keys of a sequence of entries, in the same order.
pub open spec fn keys_of<T>(s: Seq<(Seq<char>, T)>) -> Seq<Seq<char>> {
    s.map_values(|e: (Seq<char>, T)| e.0)
}

/// The entries after `k` was used: its entry moves to the most recent end.
pub open spec fn touched<T>(s: Seq<(Seq<char>, T)>, k: Seq<char>) -> Seq<(Seq<char>, T)> {
    if keys_of(s).contains(k) {
        let i = index_in(keys_of(s), k);
        s.remove(i).push(s[i])
    } else {
        s
    }
}

/// The entries after `(k, v)` was stored in a cache of capacity `cap`: an
/// entry for `k` is replaced, else the least recently used entry (the first)
/// is evicted when the cache is full; the new entry is the most recent.
pub open spec fn inserted<T>(s: Seq<(Seq<char>, T)>, cap: nat, k: Seq<char>, v: T) -> Seq<
    (Seq<char>, T),
> {
    if cap == 0 {
        s
    } else if keys_of(s).contains(k) {
        s.remove(index_in(keys_of(s), k)).push((k, v))
    } else if s.len() >= cap {
        s.drop_first().push((k, v))
    } else {
        s.push((k, v))
    }
}

/// The entries after the key `from` became `to`: the entry keeps its place
/// and its value, and a stale entry for `to` is dropped.
pub open spec fn rekeyed<T>(s: Seq<(Seq<char>, T)>, from: Seq<char>, to: Seq<char>) -> Seq<
    (Seq<char>, T),
> {
    if from == to || !keys_of(s).contains(from) {
        s
    } else {
        let s1 = if keys_of(s).contains(to) {
            s.remove(index_in(keys_of(s), to))
        } else {
            s
        };
        let i = index_in(keys_of(s1), from);
        s1.update(i, (to, s1[i].1))
    }
}

/// Decoded previews keyed by identity, ordered from least to most recently used.
pub struct PreviewCache<T> {
    entries: Vec<(String, T)>,
    capacity: usize,
}

impl<T> View for PreviewCache<T> {
    type V = Seq<(Seq<char>, T)>;

    closed spec fn view(&self) -> Seq<(Seq<char>, T)> {
        self.entries@.map_values(|e: (String, T)| (e.0@, e.1))
    }
}

proof fn lemma_keys_remove<T>(s: Seq<(Seq<char>, T)>, i: int)
    requires
        0 <= i < s.len(),
    ensures
        keys_of(s.remove(i)) == keys_of(s).remove(i),
{
    assert(keys_of(s.remove(i)) =~= keys_of(s).remove(i));
}

proof fn lemma_keys_push<T>(s: Seq<(Seq<char>, T)>, e: (Seq<char>, T))
    ensures
        keys_of(s.push(e)) == keys_of(s).push(e.0),
{
    assert(keys_of(s.push(e)) =~= keys_of(s).push(e.0));
}

proof fn lemma_remove_distinct<A>(s: Seq<A>, i: int)
    requires
        s.no_duplicates(),
        0 <= i < s.len(),
    ensures
        s.remove(i).no_duplicates(),
        !s.remove(i).contains(s[i]),
        forall|y: A| y != s[i] ==> (#[trigger] s.remove(i).contains(y) == s.contains(y)),
{
    let r = s.remove(i);
    assert forall|a: int, b: int| 0 <= a < r.len() && 0 <= b < r.len() && a != b implies r[a]
        != r[b] by {
        let a1 = if a < i { a } else { a + 1 };
        let b1 = if b < i { b } else { b + 1 };
        assert(r[a] == s[a1] && r[b] == s[b1]);
    }
    assert(!r.contains(s[i])) by {
        if r.contains(s[i]) {
            let k = choose|k: int| 0 <= k < r.len() && r[k] == s[i];
            let k1 = if k < i { k } else { k + 1 };
            assert(s[k1] == s[i]);
        }
    }
    assert forall|y: A| y != s[i] implies (#[trigger] r.contains(y) == s.contains(y)) by {
        if s.contains(y) {
            let k = choose|k: int| 0 <= k < s.len() && s[k] == y;
            if k < i {
                assert(r[k] == y);
            } else {
                assert(r[k - 1] == y);
            }
        }
        if r.contains(y) {
            let k = choose|k: int| 0 <= k < r.len() && r[k] == y;
            let k1 = if k < i { k } else { k + 1 };
            assert(s[k1] == y);
        }
    }
}

proof fn lemma_push_distinct<A>(s: Seq<A>, x: A)
    requires
        s.no_duplicates(),
        !s.contains(x),
    ensures
        s.push(x).no_duplicates(),
        forall|y: A| #[trigger] s.push(x).contains(y) == (s.contains(y) || y == x),
{
    let r = s.push(x);
    assert forall|a: int, b: int| 0 <= a < r.len() && 0 <= b < r.len() && a != b implies r[a]
        != r[b] by {
        if a < s.len() && b < s.len() {
        } else if a < s.len() {
            assert(s.contains(s[a]));
        } else {
            assert(s.contains(s[b]));
        }
    }
    assert forall|y: A| #[trigger] r.contains(y) == (s.contains(y) || y == x) by {
        if s.contains(y) {
            let k = choose|k: int| 0 <= k < s.len() && s[k] == y;
            assert(r[k] == y);
        }
        if y == x {
            assert(r[s.len() as int] == y);
        }
        if r.contains(y) && y != x {
            let k = choose|k: int| 0 <= k < r.len() && r[k] == y;
            assert(s[k] == y);
        }
    }
}

proof fn lemma_update_distinct<A>(s: Seq<A>, i: int, x: A)
    requires
        s.no_duplicates(),
        !s.contains(x),
        0 <= i < s.len(),
    ensures
        s.update(i, x).no_duplicates(),
        !s.update(i, x).contains(s[i]),
        s.update(i, x).contains(x),
        forall|y: A| y != s[i] && y != x ==> (#[trigger] s.update(i, x).contains(y) == s.contains(y)),
{
    let r = s.update(i, x);
    assert(r[i] == x);
    assert forall|a: int, b: int| 0 <= a < r.len() && 0 <= b < r.len() && a != b implies r[a]
        != r[b] by {
        if a == i {
            assert(s.contains(s[b]));
        } else if b == i {
            assert(s.contains(s[a]));
        }
    }
    assert(!r.contains(s[i])) by {
        if r.contains(s[i]) {
            let k = choose|k: int| 0 <= k < r.len() && r[k] == s[i];
            if k != i {
                assert(s[k] == s[i]);
            }
        }
    }
    assert forall|y: A| y != s[i] && y != x implies (#[trigger] r.contains(y) == s.contains(y)) by {
        if s.contains(y) {
            let k = choose|k: int| 0 <= k < s.len() && s[k] == y;
            assert(r[k] == y);
        }
        if r.contains(y) {
            let k = choose|k: int| 0 <= k < r.len() && r[k] == y;
            assert(s[k] == y);
        }
    }
}

impl<T> PreviewCache<T> {
    /// The capacity the cache was made with.
    pub closed spec fn cap(&self) -> nat {
        self.capacity as nat
    }

    /// At most `cap()` entries, no key twice.
    pub closed spec fn wf(&self) -> bool {
        &&& self.entries@.len() <= self.capacity
        &&& keys_of(self@).no_duplicates()
    }

    /// A well-formed cache never holds more entries than its capacity, nor
    /// two entries for one key.
    pub proof fn lemma_bounded(&self)
        requires
            self.wf(),
        ensures
            self@.len() <= self.cap(),
            self.keys().no_duplicates(),
    {
    }

    pub open spec fn keys(&self) -> Seq<Seq<char>> {
        keys_of(self@)
    }

    proof fn lemma_view(&self)
        ensures
            self@.len() == self.entries@.len(),
            forall|i: int|
                0 <= i < self.entries@.len() ==> #[trigger] self@[i] == (
                self.entries@[i].0@,
                self.entries@[i].1,
            ),
            forall|i: int|
                0 <= i < self.entries@.len() ==> #[trigger] self.keys()[i] == self.entries@[i].0@,
    {
    }

    pub fn new(capacity: usize) -> (r: Self)
        ensures
            r.wf(),
            r@ == Seq::<(Seq<char>, T)>::empty(),
            r.cap() == capacity,
    {
        let r = PreviewCache { entries: Vec::new(), capacity };
        assert(r@ =~= Seq::<(Seq<char>, T)>::empty());
        r
    }

    pub fn len(&self) -> (r: usize)
        ensures
            r == self@.len(),
    {
        self.entries.len()
    }

    pub fn capacity(&self) -> (r: usize)
        ensures
            r == self.cap(),
    {
        self.capacity
    }

    fn find(&self, key: &str) -> (r: Option<usize>)
        ensures
            match r {
                Some(i) => self.keys().contains(key@) && i == index_in(self.keys(), key@) && i
                    < self@.len(),
                None => !self.keys().contains(key@),
            },
    {
        proof {
            self.lemma_view();
        }
        let mut i: usize = 0;
        while i < self.entries.len()
            invariant
                i <= self.entries@.len(),
                self@.len() == self.entries@.len(),
                forall|i: int|
                    0 <= i < self.entries@.len() ==> #[trigger] self.keys()[i]
                        == self.entries@[i].0@,
                forall|j: int| 0 <= j < i ==> self.keys()[j] != key@,
            decreases self.entries@.len() - i,
        {
            if str_eq(self.entries[i].0.as_str(), key) {
                proof {
                    crate::seqs::lemma_index_first(self.keys(), i as int);
                }
                return Some(i);
            }
            i = i + 1;
        }
        proof {
            if self.keys().contains(key@) {
                let k = choose|k: int| 0 <= k < self.keys().len() && self.keys()[k] == key@;
                assert(self.keys()[k] != key@);
            }
        }
        None
    }

    pub fn contains(&self, key: &str) -> (r: bool)
        ensures
            r == self.keys().contains(key@),
    {
        self.find(key).is_some()
    }

    /// The preview stored under `key`, without changing its recency.
    pub fn peek(&self, key: &str) -> (r: Option<&T>)
        ensures
            match r {
                Some(v) => self.keys().contains(key@) && *v == self@[index_in(
                    self.keys(),
                    key@,
                )].1,
                None => !self.keys().contains(key@),
            },
    {
        proof {
            self.lemma_view();
        }
        match self.find(key) {
            Some(i) => Some(&self.entries[i].1),
            None => None,
        }
    }

    /// Marks the entry for `key`, if any, as the most recently used.
    pub fn touch(&mut self, key: &str) -> (r: bool)
        requires
            old(self).wf(),
        ensures
            final(self).wf(),
            final(self).cap() == old(self).cap(),
            r == old(self).keys().contains(key@),
            final(self)@ == touched(old(self)@, key@),
    {
        proof {
            self.lemma_view();
        }
        match self.find(key) {
            Some(i) => {
                let ghost s = self@;
                let e = self.entries.remove(i);
                self.entries.push(e);
                proof {
                    assert(self@ =~= s.remove(i as int).push(s[i as int]));
                    lemma_keys_remove(s, i as int);
                    lemma_keys_push(s.remove(i as int), s[i as int]);
                    lemma_remove_distinct(keys_of(s), i as int);
                    lemma_index_in(keys_of(s), key@);
                    lemma_push_distinct(keys_of(s).remove(i as int), key@);
                }
                true
            },
            None => false,
        }
    }

    /// Stores `value` under `key` as the most recently used entry, evicting
    /// the least recently used one when the cache is full.
    pub fn insert(&mut self, key: String, value: T)
        requires
            old(self).wf(),
        ensures
            final(self).wf(),
            final(self).cap() == old(self).cap(),
            final(self)@ == inserted(old(self)@, old(self).cap(), key@, value),
            final(self)@.len() <= final(self).cap(),
    {
        if self.capacity == 0 {
            return;
        }
        let ghost s = self@;
        let ghost k = key@;
        proof {
            self.lemma_view();
        }
        match self.find(key.as_str()) {
            Some(i) => {
                self.entries.remove(i);
                proof {
                    assert(self@ =~= s.remove(i as int));
                    lemma_index_in(keys_of(s), k);
                    lemma_keys_remove(s, i as int);
                    lemma_remove_distinct(keys_of(s), i as int);
                }
            },
            None => {
                if self.entries.len() >= self.capacity {
                    self.entries.remove(0);
                    proof {
                        assert(self@ =~= s.remove(0));
                        lemma_keys_remove(s, 0);
                        lemma_remove_distinct(keys_of(s), 0);
                        assert(s.remove(0) =~= s.drop_first());
                    }
                }
            },
        }
        let ghost mid = self@;
        proof {
            assert(!keys_of(mid).contains(k));
            assert(keys_of(mid).no_duplicates());
        }
        self.entries.push((key, value));
        proof {
            assert(self@ =~= mid.push((k, value)));
            lemma_keys_push(mid, (k, value));
            lemma_push_distinct(keys_of(mid), k);
        }
    }
    /// Moves the entry for `from`, if any, to the key `to`, keeping its value
    /// and its place in the recency order.
    pub fn rename(&mut self, from: &str, to: String)
        requires
            old(self).wf(),
        ensures
            final(self).wf(),
            final(self).cap() == old(self).cap(),
            final(self)@ == rekeyed(old(self)@, from@, to@),
            from@ != to@ ==> !final(self).keys().contains(from@),
            final(self).keys().contains(to@) == (old(self).keys().contains(from@) || old(
                self,
            ).keys().contains(to@)),
            forall|y: Seq<char>|
                y != from@ && y != to@ ==> (#[trigger] final(self).keys().contains(y) == old(
                    self,
                ).keys().contains(y)),
    {
        if str_eq(from, to.as_str()) || !self.contains(from) {
            return;
        }
        let ghost s = self@;
        let ghost t = to@;
        proof {
            self.lemma_view();
        }
        match self.find(to.as_str()) {
            Some(j) => {
                self.entries.remove(j);
                proof {
                    assert(self@ =~= s.remove(j as int));
                    lemma_index_in(keys_of(s), t);
                    lemma_keys_remove(s, j as int);
                    lemma_remove_distinct(keys_of(s), j as int);
                }
            },
            None => {},
        }
        let ghost s1 = self@;
        proof {
            assert(keys_of(s1).contains(from@));
            assert(!keys_of(s1).contains(t));
        }
        let i = match self.find(from) {
            Some(i) => i,
            None => {
                return;
            },
        };
        let e = self.entries.remove(i);
        self.entries.insert(i, (to, e.1));
        proof {
            assert(self@ =~= s1.update(i as int, (t, s1[i as int].1)));
            assert(keys_of(self@) =~= keys_of(s1).update(i as int, t));
            lemma_index_in(keys_of(s1), from@);
            lemma_update_distinct(keys_of(s1), i as int, t);
        }
    }
}

} // verus!
