//! A small map and a small set over vectors, for keys that only compare equal.

use vstd::prelude::*;

use crate::bytes::same_array;

verus! {

/// A key that can be compared and copied.
pub trait Key: Copy {
    /// Whether two keys are the same.
    fn same(&self, other: &Self) -> (r: bool)
        ensures
            r == (*self == *other),
    ;
}

impl Key for [u8; 8] {
    fn same(&self, other: &Self) -> (r: bool) {
        same_array(self, other)
    }
}

impl Key for [u8; 32] {
    fn same(&self, other: &Self) -> (r: bool) {
        same_array(self, other)
    }
}

/// The position of the first row of `rows` under `key`.
pub open spec fn first_row<K, V>(rows: Seq<(K, V)>, key: K) -> Option<int>
    decreases rows.len(),
{
    if rows.len() == 0 {
        None
    } else if rows[0].0 == key {
        Some(0int)
    } else {
        match first_row(rows.drop_first(), key) {
            Some(i) => Some(i + 1),
            None => None,
        }
    }
}

proof fn lemma_first_row<K, V>(rows: Seq<(K, V)>, key: K)
    ensures
        match first_row(rows, key) {
            Some(i) => {
                &&& 0 <= i < rows.len()
                &&& rows[i].0 == key
                &&& forall|j: int| 0 <= j < i ==> rows[j].0 != key
            },
            None => forall|j: int| 0 <= j < rows.len() ==> rows[j].0 != key,
        },
    decreases rows.len(),
{
    if rows.len() > 0 && rows[0].0 != key {
        lemma_first_row(rows.drop_first(), key);
        match first_row(rows.drop_first(), key) {
            Some(i) => {
                assert forall|j: int| 0 <= j < i + 1 implies rows[j].0 != key by {
                    if j > 0 {
                        assert(rows.drop_first()[j - 1] == rows[j]);
                    }
                }
                assert(rows.drop_first()[i] == rows[i + 1]);
            },
            None => {
                assert forall|j: int| 0 <= j < rows.len() implies rows[j].0 != key by {
                    if j > 0 {
                        assert(rows.drop_first()[j - 1] == rows[j]);
                    }
                }
            },
        }
    }
}

proof fn lemma_first_row_is<K, V>(rows: Seq<(K, V)>, key: K, i: int)
    requires
        0 <= i < rows.len(),
        rows[i].0 == key,
        forall|j: int| 0 <= j < i ==> rows[j].0 != key,
    ensures
        first_row(rows, key) == Some(i),
{
    lemma_first_row(rows, key);
    let k = first_row(rows, key)->0;
    if k < i {
        assert(rows[k].0 != key);
    }
}

/// A map from keys to values. Its view maps each key to the view of its value.
pub struct Table<K, V> {
    rows: Vec<(K, V)>,
}

impl<K: Key, V: View> View for Table<K, V> {
    type V = Map<K, V::V>;

    closed spec fn view(&self) -> Map<K, V::V> {
        Map::new(
            |key: K| first_row(self.rows@, key) is Some,
            |key: K| self.rows@[first_row(self.rows@, key)->0].1@,
        )
    }
}

impl<K: Key, V: View> Table<K, V> {
    /// The keys of the table, each at least once.
    pub closed spec fn keys(&self) -> Seq<K> {
        self.rows@.map_values(|row: (K, V)| row.0)
    }

    /// An empty table.
    pub fn new() -> (t: Self)
        ensures
            t@ == Map::<K, V::V>::empty(),
    {
        let t: Table<K, V> = Table { rows: Vec::new() };
        assert(t@ =~= Map::<K, V::V>::empty());
        t
    }

    fn find(&self, key: &K) -> (r: Option<usize>)
        ensures
            match r {
                Some(i) => i < self.rows@.len() && first_row(self.rows@, *key) == Some(i as int),
                None => first_row(self.rows@, *key) is None,
            },
    {
        let mut i: usize = 0;
        while i < self.rows.len()
            invariant
                i <= self.rows@.len(),
                forall|j: int| 0 <= j < i ==> self.rows@[j].0 != *key,
            decreases self.rows@.len() - i,
        {
            if self.rows[i].0.same(key) {
                proof {
                    lemma_first_row_is(self.rows@, *key, i as int);
                }
                return Some(i);
            }
            i = i + 1;
        }
        proof {
            lemma_first_row(self.rows@, *key);
        }
        None
    }

    /// The value under `key`.
    pub fn get(&self, key: &K) -> (r: Option<&V>)
        ensures
            match r {
                Some(v) => self@.dom().contains(*key) && self@[*key] == v@,
                None => !self@.dom().contains(*key),
            },
    {
        match self.find(key) {
            Some(i) => Some(&self.rows[i].1),
            None => None,
        }
    }

    /// Whether the table holds `key`.
    pub fn contains(&self, key: &K) -> (r: bool)
        ensures
            r == self@.dom().contains(*key),
    {
        self.find(key).is_some()
    }

    /// The number of rows that `key_at` reads.
    pub fn len(&self) -> (n: usize)
        ensures
            n == self.keys().len(),
            forall|key: K| self@.dom().contains(key) <==> self.keys().contains(key),
    {
        proof {
            assert forall|key: K| self@.dom().contains(key) <==> self.keys().contains(key) by {
                lemma_first_row(self.rows@, key);
                if self@.dom().contains(key) {
                    let i = first_row(self.rows@, key)->0;
                    assert(self.keys()[i] == key);
                }
                if self.keys().contains(key) {
                    let i = choose|i: int| 0 <= i < self.keys().len() && self.keys()[i] == key;
                    assert(self.rows@[i].0 == key);
                }
            }
        }
        self.rows.len()
    }

    /// The key in row `i`.
    pub fn key_at(&self, i: usize) -> (key: K)
        requires
            i < self.keys().len(),
        ensures
            key == self.keys()[i as int],
            self@.dom().contains(key),
    {
        proof {
            lemma_first_row(self.rows@, self.rows@[i as int].0);
        }
        self.rows[i].0
    }

    /// The number of keys.
    pub fn count(&self) -> (n: usize)
        ensures
            self@.dom().finite(),
            n == self@.dom().len(),
    {
        let mut n: usize = 0;
        let mut i: usize = 0;
        let ghost mut seen: Set<K> = Set::empty();
        while i < self.rows.len()
            invariant
                i <= self.rows@.len(),
                n <= i,
                seen.finite(),
                seen.len() == n,
                forall|key: K| #[trigger]
                    seen.contains(key) <==> exists|j: int| 0 <= j < i && (#[trigger] self.rows@[j]).0 == key,
            decreases self.rows@.len() - i,
        {
            let key: K = self.rows[i].0;
            let first: Option<usize> = self.find(&key);
            proof {
                lemma_first_row(self.rows@, key);
            }
            let ghost before: Set<K> = seen;
            if let Some(f) = first {
                if f == i {
                    proof {
                        assert(!seen.contains(key)) by {
                            if seen.contains(key) {
                                let j = choose|j: int| 0 <= j < i && (#[trigger] self.rows@[j]).0 == key;
                                assert(self.rows@[j].0 != key);
                            }
                        }
                        seen = seen.insert(key);
                    }
                    n = n + 1;
                } else {
                    assert(self.rows@[f as int].0 == key);
                    assert(f < i);
                    assert(seen.contains(key));
                }
            }
            proof {
                assert forall|k: K| #[trigger] seen.contains(k) <==> exists|j: int|
                    0 <= j < i + 1 && (#[trigger] self.rows@[j]).0 == k by {
                    if k == key {
                        assert(self.rows@[i as int].0 == k);
                    }
                    if before.contains(k) {
                        let j = choose|j: int| 0 <= j < i && (#[trigger] self.rows@[j]).0 == k;
                        assert(self.rows@[j].0 == k);
                    }
                }
            }
            i = i + 1;
        }
        proof {
            assert forall|k: K| seen.contains(k) == self@.dom().contains(k) by {
                lemma_first_row(self.rows@, k);
                if self@.dom().contains(k) {
                    assert(self.rows@[first_row(self.rows@, k)->0].0 == k);
                }
            }
            assert(seen =~= self@.dom());
        }
        n
    }

    /// Puts `value` under `key`, in place of what stood there.
    pub fn insert(&mut self, key: K, value: V)
        ensures
            final(self)@ == old(self)@.insert(key, value@),
    {
        match self.find(&key) {
            Some(i) => {
                self.rows[i] = (key, value);
                proof {
                    let before = old(self).rows@;
                    let after = self.rows@;
                    lemma_first_row(before, key);
                    assert(after =~= before.update(i as int, (key, value)));
                    assert forall|j: int| 0 <= j < before.len() implies (#[trigger] after[j]).0 == before[j].0 by {}
                    assert forall|k: K| first_row(after, k) == first_row(before, k) by {
                        lemma_first_row(before, k);
                        lemma_first_row(after, k);
                        match first_row(before, k) {
                            Some(j) => lemma_first_row_is(after, k, j),
                            None => {
                                if first_row(after, k) is Some {
                                    let j = first_row(after, k)->0;
                                    assert(before[j].0 == k);
                                }
                            },
                        }
                    }
                    assert forall|k: K| #[trigger] first_row(before, k) is Some && k != key implies
                        first_row(before, k)->0 != i as int && 0 <= first_row(before, k)->0 < before.len() by {
                        lemma_first_row(before, k);
                        lemma_first_row(before, key);
                    }
                    assert(self@ =~= old(self)@.insert(key, value@));
                }
            },
            None => {
                self.rows.push((key, value));
                proof {
                    let before = old(self).rows@;
                    let after = self.rows@;
                    assert forall|k: K| k != key implies #[trigger] first_row(after, k) == first_row(before, k)
                        by {
                        lemma_first_row(before, k);
                        lemma_first_row(after, k);
                        match first_row(before, k) {
                            Some(j) => lemma_first_row_is(after, k, j),
                            None => {
                                if first_row(after, k) is Some {
                                    let j = first_row(after, k)->0;
                                    assert(after[j].0 == k);
                                    assert(j < before.len());
                                    assert(before[j].0 == k);
                                }
                            },
                        }
                    }
                    assert forall|k: K| #[trigger] first_row(before, k) is Some implies 0 <= first_row(before, k)->0 < before.len() by {
                        lemma_first_row(before, k);
                    }
                    lemma_first_row(before, key);
                    lemma_first_row_is(after, key, before.len() as int);
                    assert(self@ =~= old(self)@.insert(key, value@));
                }
            },
        }
    }

    fn remove_first(&mut self, i: usize, key: &K) -> (value: V)
        requires
            i < old(self).rows@.len(),
            first_row(old(self).rows@, *key) == Some(i as int),
        ensures
            final(self).rows@ == old(self).rows@.remove(i as int),
            value@ == old(self)@[*key],
            final(self)@.remove(*key) == old(self)@.remove(*key),
    {
        let (_, value): (K, V) = self.rows.remove(i);
        proof {
            let before = old(self).rows@;
            let after = self.rows@;
            lemma_first_row(before, *key);
            assert forall|k: K| k != *key implies (match #[trigger] first_row(before, k) {
                Some(j) => first_row(after, k) == Some(if j < i { j } else { j - 1 }) && j != i && 0 <= j < before.len(),
                None => first_row(after, k) is None,
            }) by {
                lemma_first_row(before, k);
                lemma_first_row(after, k);
                match first_row(before, k) {
                    Some(j) => {
                        let jj = if j < i { j } else { j - 1 };
                        assert forall|m: int| 0 <= m < jj implies after[m].0 != k by {
                            assert(after[m] == before[if m < i { m } else { m + 1 }]);
                        }
                        lemma_first_row_is(after, k, jj);
                    },
                    None => {
                        if first_row(after, k) is Some {
                            let j = first_row(after, k)->0;
                            assert(before[if j < i { j } else { j + 1 }].0 == k);
                        }
                    },
                }
            }
            assert(self@.remove(*key) =~= old(self)@.remove(*key));
        }
        value
    }

    /// Takes `key` out of the table, and gives what stood under it.
    pub fn remove(&mut self, key: &K) -> (r: Option<V>)
        ensures
            final(self)@ == old(self)@.remove(*key),
            match r {
                Some(v) => old(self)@.dom().contains(*key) && old(self)@[*key] == v@,
                None => !old(self)@.dom().contains(*key),
            },
    {
        let first: Option<usize> = self.find(key);
        let value: V = match first {
            Some(i) => self.remove_first(i, key),
            None => {
                assert(self@ =~= old(self)@.remove(*key));
                return None;
            },
        };
        let mut next: Option<usize> = self.find(key);
        while next.is_some()
            invariant
                self@.remove(*key) == old(self)@.remove(*key),
                match next {
                    Some(i) => i < self.rows@.len() && first_row(self.rows@, *key) == Some(i as int),
                    None => first_row(self.rows@, *key) is None,
                },
            decreases self.rows@.len(),
        {
            if let Some(i) = next {
                let _ = self.remove_first(i, key);
            }
            next = self.find(key);
        }
        assert(self@ =~= self@.remove(*key));
        Some(value)
    }
}

/// A set of strings.
pub struct TextSet {
    items: Vec<String>,
}

impl View for TextSet {
    type V = Set<Seq<char>>;

    closed spec fn view(&self) -> Set<Seq<char>> {
        Set::new(|s: Seq<char>| exists|i: int| 0 <= i < self.items@.len() && #[trigger] self.items@[i]@ == s)
    }
}

impl TextSet {
    /// An empty set.
    pub fn new() -> (t: Self)
        ensures
            t@ == Set::<Seq<char>>::empty(),
    {
        let t: TextSet = TextSet { items: Vec::new() };
        assert(t@ =~= Set::<Seq<char>>::empty());
        t
    }

    /// Whether the set holds `item`.
    pub fn contains(&self, item: &String) -> (r: bool)
        ensures
            r == self@.contains(item@),
    {
        let mut i: usize = 0;
        while i < self.items.len()
            invariant
                i <= self.items@.len(),
                forall|j: int| 0 <= j < i ==> self.items@[j]@ != item@,
            decreases self.items@.len() - i,
        {
            if self.items[i] == *item {
                return true;
            }
            i = i + 1;
        }
        false
    }

    /// Puts `item` in the set. The result says whether it is new there.
    pub fn insert(&mut self, item: String) -> (fresh: bool)
        ensures
            final(self)@ == old(self)@.insert(item@),
            fresh == !old(self)@.contains(item@),
    {
        if self.contains(&item) {
            assert(self@ =~= old(self)@.insert(item@));
            return false;
        }
        self.items.push(item);
        proof {
            let before = old(self).items@;
            let after = self.items@;
            assert forall|s: Seq<char>| self@.contains(s) == old(self)@.insert(item@).contains(s) by {
                if old(self)@.contains(s) {
                    let i = choose|i: int| 0 <= i < before.len() && #[trigger] before[i]@ == s;
                    assert(after[i]@ == s);
                }
                if s == item@ {
                    assert(after[before.len() as int]@ == s);
                }
                if self@.contains(s) {
                    let i = choose|i: int| 0 <= i < after.len() && #[trigger] after[i]@ == s;
                    if i < before.len() {
                        assert(before[i]@ == s);
                    }
                }
            }
            assert(self@ =~= old(self)@.insert(item@));
        }
        true
    }
}

} // verus!
