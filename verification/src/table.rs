//! A small map: keys that are told apart by their views, each with one value.

use vstd::prelude::*;

verus! {

/// A key of a [`Table`].
pub trait TableKey: View + Sized {
    /// Whether two keys are the same.
    fn same_key(&self, other: &Self) -> (res: bool)
        ensures
            res == (self@ == other@),
    ;
}

/// A map from keys to values.
#[derive(Debug)]
pub struct Table<K, V> {
    entries: Vec<(K, V)>,
}

/// Whether one of the entries has the key `k`.
spec fn holds_key<K: TableKey, V>(s: Seq<(K, V)>, k: K::V) -> bool {
    exists|i: int| 0 <= i < s.len() && (#[trigger] s[i]).0@ == k
}

/// An entry with the key `k`.
spec fn index_of<K: TableKey, V>(s: Seq<(K, V)>, k: K::V) -> int {
    choose|i: int| 0 <= i < s.len() && (#[trigger] s[i]).0@ == k
}

/// Whether no two entries have the same key.
spec fn distinct<K: TableKey, V>(s: Seq<(K, V)>) -> bool {
    forall|i: int, j: int|
        0 <= i < s.len() && 0 <= j < s.len() && (#[trigger] s[i]).0@ == (#[trigger] s[j]).0@ ==> i
            == j
}

spec fn as_map<K: TableKey, V>(s: Seq<(K, V)>) -> Map<K::V, V> {
    Map::new(|k: K::V| holds_key(s, k), |k: K::V| s[index_of(s, k)].1)
}

impl<K: TableKey, V> View for Table<K, V> {
    type V = Map<K::V, V>;

    closed spec fn view(&self) -> Map<K::V, V> {
        as_map(self.entries@)
    }
}

impl<K: TableKey, V> Table<K, V> {
    /// No key occurs twice.
    pub closed spec fn wf(&self) -> bool {
        distinct(self.entries@)
    }

    /// An empty table.
    pub fn new() -> (res: Self)
        ensures
            res.wf(),
            res@ == Map::<K::V, V>::empty(),
    {
        let res = Table { entries: Vec::new() };
        assert(res@ =~= Map::<K::V, V>::empty());
        res
    }

    /// Where the entry with the key stands.
    fn find(&self, key: &K) -> (res: Option<usize>)
        ensures
            match res {
                Some(i) => i < self.entries@.len() && self.entries@[i as int].0@ == key@,
                None => !holds_key(self.entries@, key@),
            },
    {
        let mut i: usize = 0;
        while i < self.entries.len()
            invariant
                i <= self.entries@.len(),
                forall|j: int| 0 <= j < i ==> (#[trigger] self.entries@[j]).0@ != key@,
            decreases self.entries.len() - i,
        {
            if self.entries[i].0.same_key(key) {
                return Some(i);
            }
            i += 1;
        }
        None
    }

    /// The value of the key.
    pub fn get(&self, key: &K) -> (res: Option<&V>)
        requires
            self.wf(),
        ensures
            match res {
                Some(v) => self@.dom().contains(key@) && self@[key@] == *v,
                None => !self@.dom().contains(key@),
            },
    {
        match self.find(key) {
            Some(i) => {
                assert(holds_key(self.entries@, key@));
                assert(index_of(self.entries@, key@) == i);
                Some(&self.entries[i].1)
            },
            None => None,
        }
    }

    /// Sets the value of the key.
    pub fn insert(&mut self, key: K, value: V)
        requires
            old(self).wf(),
        ensures
            final(self).wf(),
            final(self)@ == old(self)@.insert(key@, value),
    {
        let ghost before = self.entries@;
        let ghost k = key@;
        match self.find(&key) {
            Some(i) => {
                self.entries[i] = (key, value);
                proof {
                    let after = self.entries@;
                    assert(after == before.update(i as int, (key, value)));
                    assert forall|x: int, y: int|
                        0 <= x < after.len() && 0 <= y < after.len() && (#[trigger] after[x]).0@ == (
                        #[trigger] after[y]).0@ implies x == y by {
                        assert(before[x].0@ == before[y].0@);
                    }
                    assert forall|q: K::V| holds_key(after, q) == (holds_key(before, q) || q == k) by {
                        if holds_key(before, q) {
                            let j = index_of(before, q);
                            assert(after[j].0@ == q);
                        }
                        if holds_key(after, q) {
                            let j = index_of(after, q);
                            assert(before[j].0@ == q);
                        }
                    }
                    assert forall|q: K::V| holds_key(after, q) implies after[index_of(after, q)].1 == if q
                        == k {
                        value
                    } else {
                        before[index_of(before, q)].1
                    } by {
                        let j = index_of(after, q);
                        assert(before[j].0@ == q);
                        assert(index_of(before, q) == j);
                        if q == k {
                            assert(after[i as int].0@ == q);
                        }
                    }
                    assert(as_map(after) =~= as_map(before).insert(k, value));
                }
            },
            None => {
                self.entries.push((key, value));
                proof {
                    let after = self.entries@;
                    assert forall|x: int, y: int|
                        0 <= x < after.len() && 0 <= y < after.len() && (#[trigger] after[x]).0@ == (
                        #[trigger] after[y]).0@ implies x == y by {
                        if x < before.len() {
                            assert(before[x] == after[x]);
                        }
                        if y < before.len() {
                            assert(before[y] == after[y]);
                        }
                    }
                    assert(after[before.len() as int].0@ == k);
                    assert forall|q: K::V| holds_key(after, q) == (holds_key(before, q) || q == k) by {
                        if holds_key(before, q) {
                            let j = index_of(before, q);
                            assert(after[j].0@ == q);
                        }
                        if holds_key(after, q) {
                            let j = index_of(after, q);
                            if j < before.len() {
                                assert(before[j].0@ == q);
                            }
                        }
                    }
                    assert forall|q: K::V| holds_key(after, q) implies after[index_of(after, q)].1 == if q
                        == k {
                        value
                    } else {
                        before[index_of(before, q)].1
                    } by {
                        let j = index_of(after, q);
                        if q != k {
                            assert(before[j].0@ == q);
                            assert(index_of(before, q) == j);
                        }
                    }
                    assert(as_map(after) =~= as_map(before).insert(k, value));
                }
            },
        }
    }

    /// Takes the key and its value out.
    pub fn remove(&mut self, key: &K) -> (res: Option<V>)
        requires
            old(self).wf(),
        ensures
            final(self).wf(),
            final(self)@ == old(self)@.remove(key@),
            match res {
                Some(v) => old(self)@.dom().contains(key@) && old(self)@[key@] == v,
                None => !old(self)@.dom().contains(key@),
            },
    {
        let ghost before = self.entries@;
        let ghost k = key@;
        match self.find(key) {
            Some(i) => {
                let (_, v) = self.entries.remove(i);
                proof {
                    let after = self.entries@;
                    assert(after == before.remove(i as int));
                    assert(holds_key(before, k));
                    assert(index_of(before, k) == i);
                    assert forall|x: int, y: int|
                        0 <= x < after.len() && 0 <= y < after.len() && (#[trigger] after[x]).0@ == (
                        #[trigger] after[y]).0@ implies x == y by {
                        let bx = if x < i {
                            x
                        } else {
                            x + 1
                        };
                        let by = if y < i {
                            y
                        } else {
                            y + 1
                        };
                        assert(before[bx] == after[x] && before[by] == after[y]);
                    }
                    assert forall|q: K::V| holds_key(after, q) == (holds_key(before, q) && q != k) by {
                        if holds_key(before, q) && q != k {
                            let j = index_of(before, q);
                            let a = if j < i {
                                j
                            } else {
                                j - 1
                            };
                            assert(after[a].0@ == q);
                        }
                        if holds_key(after, q) {
                            let j = index_of(after, q);
                            let b = if j < i {
                                j
                            } else {
                                j + 1
                            };
                            assert(before[b].0@ == q);
                            assert(b != i);
                        }
                    }
                    assert forall|q: K::V| holds_key(after, q) implies after[index_of(after, q)].1
                        == before[index_of(before, q)].1 by {
                        let j = index_of(after, q);
                        let b = if j < i {
                            j
                        } else {
                            j + 1
                        };
                        assert(before[b].0@ == q);
                        assert(index_of(before, q) == b);
                    }
                    assert(as_map(after) =~= as_map(before).remove(k));
                }
                Some(v)
            },
            None => {
                assert(as_map(before) =~= as_map(before).remove(k));
                None
            },
        }
    }
}

} // verus!
