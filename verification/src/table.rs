//! A map keyed by strings that remembers the order in which its keys first came in.

use vstd::prelude::*;

use crate::text::same;

verus! {

/// Values by string key; no key occurs twice.
#[derive(Debug)]
pub struct Table<V> {
    entries: Vec<(String, V)>,
}

impl<V> View for Table<V> {
    type V = Map<Seq<char>, V>;

    closed spec fn view(&self) -> Map<Seq<char>, V> {
        Map::new(
            |k: Seq<char>| exists|i: int| 0 <= i < self.entries@.len() && self.entries@[i].0@ == k,
            |k: Seq<char>|
                self.entries@[choose|i: int|
                    0 <= i < self.entries@.len() && self.entries@[i].0@ == k].1,
        )
    }
}

/// A list of keys without `key`.
pub open spec fn without(keys: Seq<Seq<char>>, key: Seq<char>) -> Seq<Seq<char>> {
    keys.filter(|k: Seq<char>| k != key)
}

proof fn lemma_without_none(keys: Seq<Seq<char>>, key: Seq<char>)
    requires
        !keys.contains(key),
    ensures
        without(keys, key) == keys,
    decreases keys.len(),
{
    reveal(Seq::filter);
    if keys.len() > 0 {
        let front = keys.drop_last();
        assert(!front.contains(key)) by {
            if front.contains(key) {
                let i = front.index_of(key);
                assert(keys[i] == key);
            }
        }
        assert(keys.last() != key) by {
            assert(keys[keys.len() - 1] == keys.last());
        }
        lemma_without_none(front, key);
        assert(front.push(keys.last()) =~= keys);
    }
}

proof fn lemma_without(keys: Seq<Seq<char>>, key: Seq<char>, i: int)
    requires
        keys.no_duplicates(),
        0 <= i < keys.len(),
        keys[i] == key,
    ensures
        without(keys, key) == keys.remove(i),
    decreases keys.len(),
{
    reveal(Seq::filter);
    let front = keys.drop_last();
    if i == keys.len() - 1 {
        assert(!front.contains(key)) by {
            if front.contains(key) {
                let j = front.index_of(key);
                assert(keys[j] == key);
            }
        }
        lemma_without_none(front, key);
        assert(keys.remove(i) =~= front);
    } else {
        assert(front.no_duplicates()) by {
            assert forall|a: int, b: int| 0 <= a < b < front.len() implies front[a] != front[b] by {
                assert(keys[a] != keys[b]);
            }
        }
        lemma_without(front, key, i);
        assert(keys[i] != keys.last());
        assert(keys.remove(i) =~= front.remove(i).push(keys.last()));
    }
}

impl<V> Table<V> {
    /// No key occurs twice.
    pub closed spec fn wf(&self) -> bool {
        forall|i: int, j: int|
            0 <= i < j < self.entries@.len() ==> (#[trigger] self.entries@[i]).0@ != (
            #[trigger] self.entries@[j]).0@
    }

    /// The keys, in the order in which they first came in.
    pub closed spec fn keys(&self) -> Seq<Seq<char>> {
        Seq::new(self.entries@.len(), |i: int| self.entries@[i].0@)
    }

    /// The empty table.
    pub fn new() -> (t: Self)
        ensures
            t.wf(),
            t@ == Map::<Seq<char>, V>::empty(),
            t.keys() == Seq::<Seq<char>>::empty(),
    {
        let t = Table { entries: Vec::new() };
        assert(t@ =~= Map::<Seq<char>, V>::empty());
        assert(t.keys() =~= Seq::<Seq<char>>::empty());
        t
    }

    fn position(&self, key: &str) -> (r: Option<usize>)
        requires
            self.wf(),
        ensures
            match r {
                Some(i) => i < self.entries@.len() && self.entries@[i as int].0@ == key@
                    && self@.contains_key(key@) && self@[key@] == self.entries@[i as int].1,
                None => !self@.contains_key(key@) && forall|j: int|
                    0 <= j < self.entries@.len() ==> (#[trigger] self.entries@[j]).0@ != key@,
            },
    {
        let mut i: usize = 0;
        while i < self.entries.len()
            invariant
                i <= self.entries@.len(),
                self.wf(),
                forall|j: int| 0 <= j < i ==> (#[trigger] self.entries@[j]).0@ != key@,
            decreases self.entries@.len() - i,
        {
            if same(&self.entries[i].0, key) {
                return Some(i);
            }
            i += 1;
        }
        None
    }

    /// The keys are the map's domain, and none occurs twice.
    pub proof fn lemma_keys(&self)
        requires
            self.wf(),
        ensures
            self.keys().no_duplicates(),
            forall|k: Seq<char>| self.keys().contains(k) <==> #[trigger] self@.contains_key(k),
    {
        assert forall|k: Seq<char>| self.keys().contains(k) <==> #[trigger] self@.contains_key(k) by {
            if self@.contains_key(k) {
                let i = choose|i: int| 0 <= i < self.entries@.len() && self.entries@[i].0@ == k;
                assert(self.keys()[i] == k);
            }
            if self.keys().contains(k) {
                let i = choose|i: int| 0 <= i < self.keys().len() && self.keys()[i] == k;
                assert(self.entries@[i].0@ == k);
            }
        }
    }

    /// The number of keys.
    pub fn len(&self) -> (n: usize)
        ensures
            n == self.keys().len(),
    {
        self.entries.len()
    }

    /// The key and value that stand at `i` in the order of the keys.
    pub fn at(&self, i: usize) -> (r: (&String, &V))
        requires
            self.wf(),
            i < self.keys().len(),
        ensures
            r.0@ == self.keys()[i as int],
            self@.contains_key(r.0@),
            *r.1 == self@[r.0@],
    {
        proof {
            assert(self.entries@[i as int].0@ == self.keys()[i as int]);
        }
        let entry = &self.entries[i];
        (&entry.0, &entry.1)
    }

    /// Whether `key` has a value.
    pub fn contains(&self, key: &str) -> (r: bool)
        requires
            self.wf(),
        ensures
            r == self@.contains_key(key@),
    {
        self.position(key).is_some()
    }

    /// The value of `key`.
    pub fn get(&self, key: &str) -> (r: Option<&V>)
        requires
            self.wf(),
        ensures
            match r {
                Some(v) => self@.contains_key(key@) && *v == self@[key@],
                None => !self@.contains_key(key@),
            },
    {
        match self.position(key) {
            Some(i) => Some(&self.entries[i].1),
            None => None,
        }
    }

    /// Gives `key` the value `value`, in place of any earlier one.
    pub fn insert(&mut self, key: String, value: V)
        requires
            old(self).wf(),
        ensures
            final(self).wf(),
            final(self)@ == old(self)@.insert(key@, value),
            final(self).keys() == if old(self)@.contains_key(key@) {
                old(self).keys()
            } else {
                old(self).keys().push(key@)
            },
    {
        let found = self.position(&key);
        let ghost before = *self;
        match found {
            Some(i) => {
                let ghost k = key@;
                self.entries.set(i, (key, value));
                proof {
                    assert(self.entries@ == before.entries@.update(i as int, (key, value)));
                    assert forall|q: Seq<char>| self@.contains_key(q) == before@.insert(k, value).contains_key(q) by {
                        if before@.contains_key(q) {
                            let j = choose|j: int| 0 <= j < before.entries@.len() && before.entries@[j].0@ == q;
                            assert(self.entries@[j].0@ == q);
                        }
                        if self@.contains_key(q) {
                            let j = choose|j: int| 0 <= j < self.entries@.len() && self.entries@[j].0@ == q;
                            assert(before.entries@[j].0@ == q);
                        }
                    }
                    assert forall|q: Seq<char>| self@.contains_key(q) implies self@[q] == before@.insert(k, value)[q] by {
                        let j = choose|j: int| 0 <= j < self.entries@.len() && self.entries@[j].0@ == q;
                        let j2 = choose|j: int| 0 <= j < before.entries@.len() && before.entries@[j].0@ == q;
                        assert(before.entries@[j].0@ == q);
                        assert(j == j2);
                    }
                    assert(self@ =~= before@.insert(k, value));
                    assert(self.keys() =~= before.keys());
                }
            },
            None => {
                let ghost k = key@;
                self.entries.push((key, value));
                proof {
                    let n = before.entries@.len() as int;
                    assert(self.entries@[n].0@ == k);
                    assert forall|q: Seq<char>| self@.contains_key(q) == before@.insert(k, value).contains_key(q) by {
                        if before@.contains_key(q) {
                            let j = choose|j: int| 0 <= j < before.entries@.len() && before.entries@[j].0@ == q;
                            assert(self.entries@[j].0@ == q);
                        }
                        if self@.contains_key(q) && q != k {
                            let j = choose|j: int| 0 <= j < self.entries@.len() && self.entries@[j].0@ == q;
                            assert(before.entries@[j].0@ == q);
                        }
                    }
                    assert forall|q: Seq<char>| self@.contains_key(q) implies self@[q] == before@.insert(k, value)[q] by {
                        let j = choose|j: int| 0 <= j < self.entries@.len() && self.entries@[j].0@ == q;
                        if q != k {
                            let j2 = choose|j: int| 0 <= j < before.entries@.len() && before.entries@[j].0@ == q;
                            assert(before.entries@[j].0@ == q);
                            assert(j == j2);
                        }
                    }
                    assert(self@ =~= before@.insert(k, value));
                    assert(self.keys() =~= before.keys().push(k));
                }
            },
        }
    }

    /// Takes `key` and its value out.
    pub fn remove(&mut self, key: &str) -> (r: Option<V>)
        requires
            old(self).wf(),
        ensures
            final(self).wf(),
            final(self)@ == old(self)@.remove(key@),
            final(self).keys() == without(old(self).keys(), key@),
            match r {
                Some(v) => old(self)@.contains_key(key@) && v == old(self)@[key@],
                None => !old(self)@.contains_key(key@),
            },
    {
        let found = self.position(key);
        let ghost before = *self;
        match found {
            Some(i) => {
                let entry = self.entries.remove(i);
                proof {
                    assert(self.entries@ == before.entries@.remove(i as int));
                    assert forall|q: Seq<char>| self@.contains_key(q) == before@.remove(key@).contains_key(q) by {
                        if before@.contains_key(q) && q != key@ {
                            let j = choose|j: int| 0 <= j < before.entries@.len() && before.entries@[j].0@ == q;
                            let j2 = if j < i { j } else { j - 1 };
                            assert(self.entries@[j2].0@ == q);
                        }
                        if self@.contains_key(q) {
                            let j = choose|j: int| 0 <= j < self.entries@.len() && self.entries@[j].0@ == q;
                            let j2 = if j < i { j } else { j + 1 };
                            assert(before.entries@[j2].0@ == q);
                            assert(before.entries@[i as int].0@ == key@);
                        }
                    }
                    assert forall|q: Seq<char>| self@.contains_key(q) implies self@[q] == before@.remove(key@)[q] by {
                        let j = choose|j: int| 0 <= j < self.entries@.len() && self.entries@[j].0@ == q;
                        let j2 = choose|j: int| 0 <= j < before.entries@.len() && before.entries@[j].0@ == q;
                        let j3 = if j < i { j } else { j + 1 };
                        assert(before.entries@[j3].0@ == q);
                        assert(j3 == j2);
                    }
                    assert(self@ =~= before@.remove(key@));
                    assert(before.keys()[i as int] == key@);
                    before.lemma_keys();
                    lemma_without(before.keys(), key@, i as int);
                    assert(self.keys() =~= before.keys().remove(i as int));
                }
                Some(entry.1)
            },
            None => {
                assert(self@ =~= self@.remove(key@));
                proof {
                    self.lemma_keys();
                    lemma_without_none(self.keys(), key@);
                }
                None
            },
        }
    }
}

/// Values that can be copied.
pub trait Duplicate: Sized {
    /// Whether the two hold the same.
    spec fn alike(a: Self, b: Self) -> bool;

    /// A copy that holds the same.
    fn duplicate(&self) -> (r: Self)
        ensures
            Self::alike(*self, r),
    ;
}

impl Duplicate for i32 {
    open spec fn alike(a: Self, b: Self) -> bool {
        a == b
    }

    fn duplicate(&self) -> (r: Self) {
        *self
    }
}

/// Two maps have the same keys, and values that hold the same.
pub open spec fn alike_maps<V: Duplicate>(a: Map<Seq<char>, V>, b: Map<Seq<char>, V>) -> bool {
    &&& forall|k: Seq<char>| #[trigger] a.contains_key(k) <==> b.contains_key(k)
    &&& forall|k: Seq<char>| #[trigger] a.contains_key(k) ==> V::alike(a[k], b[k])
}

impl<V: Duplicate> Table<V> {
    /// A copy of the table.
    pub fn duplicate(&self) -> (t: Self)
        requires
            self.wf(),
        ensures
            t.wf(),
            t.keys() == self.keys(),
            alike_maps(self@, t@),
    {
        let mut entries: Vec<(String, V)> = Vec::new();
        let mut i: usize = 0;
        while i < self.entries.len()
            invariant
                i <= self.entries@.len(),
                entries@.len() == i,
                forall|j: int|
                    0 <= j < i ==> (#[trigger] entries@[j]).0 == self.entries@[j].0 && V::alike(
                        self.entries@[j].1,
                        entries@[j].1,
                    ),
            decreases self.entries@.len() - i,
        {
            let value: V = self.entries[i].1.duplicate();
            entries.push((self.entries[i].0.clone(), value));
            i += 1;
        }
        let t = Table { entries };
        proof {
            assert(t.keys() =~= self.keys());
            assert forall|k: Seq<char>| #[trigger] self@.contains_key(k) <==> t@.contains_key(k) by {
                if self@.contains_key(k) {
                    let j = choose|j: int| 0 <= j < self.entries@.len() && self.entries@[j].0@ == k;
                    assert(t.entries@[j].0@ == k);
                }
                if t@.contains_key(k) {
                    let j = choose|j: int| 0 <= j < t.entries@.len() && t.entries@[j].0@ == k;
                    assert(self.entries@[j].0@ == k);
                }
            }
            assert forall|k: Seq<char>| #[trigger] self@.contains_key(k) implies V::alike(
                self@[k],
                t@[k],
            ) by {
                let j = choose|j: int| 0 <= j < self.entries@.len() && self.entries@[j].0@ == k;
                assert(t.entries@[j].0@ == k);
                let j2 = choose|j: int| 0 <= j < t.entries@.len() && t.entries@[j].0@ == k;
                assert(self.entries@[j2].0@ == k);
            }
        }
        t
    }
}

impl Table<i32> {
    /// A copy of a table of numbers.
    pub fn copied(&self) -> (t: Self)
        requires
            self.wf(),
        ensures
            t.wf(),
            t.keys() == self.keys(),
            t@ == self@,
    {
        let t = self.duplicate();
        assert(t@ =~= self@);
        t
    }
}

} // verus!
