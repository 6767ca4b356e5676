//! A map with text keys, kept as a list of entries in the order in which
//! their keys were first inserted.

use vstd::prelude::*;
use vstd::string::*;

use crate::text;

verus! {

/// A map from text to values. No key occurs twice.
#[derive(Debug)]
pub struct TextMap<V> {
    entries: Vec<(String, V)>,
}

spec fn distinct<V>(entries: Seq<(String, V)>) -> bool {
    forall|i: int, j: int|
        0 <= i < j < entries.len() ==> (#[trigger] entries[i]).0@ != (#[trigger] entries[j]).0@
}

spec fn map_of<V>(entries: Seq<(String, V)>) -> Map<Seq<char>, V>
    decreases entries.len(),
{
    if entries.len() == 0 {
        Map::empty()
    } else {
        map_of(entries.drop_last()).insert(entries.last().0@, entries.last().1)
    }
}

spec fn keys_of<V>(entries: Seq<(String, V)>) -> Seq<Seq<char>> {
    entries.map_values(|e: (String, V)| e.0@)
}

proof fn lemma_map_of<V>(entries: Seq<(String, V)>)
    requires
        distinct(entries),
    ensures
        forall|i: int|
            0 <= i < entries.len() ==> map_of(entries).contains_key(
                (#[trigger] entries[i]).0@,
            ) && map_of(entries)[entries[i].0@] == entries[i].1,
        forall|k: Seq<char>| #[trigger]
            map_of(entries).contains_key(k) ==> exists|i: int|
                0 <= i < entries.len() && (#[trigger] entries[i]).0@ == k,
    decreases entries.len(),
{
    if entries.len() > 0 {
        let rest = entries.drop_last();
        assert forall|i: int, j: int| 0 <= i < j < rest.len() implies (#[trigger] rest[i]).0@ != (
        #[trigger] rest[j]).0@ by {
            assert(rest[i] == entries[i] && rest[j] == entries[j]);
        }
        lemma_map_of(rest);
        let last = entries.last();
        assert(last == entries[entries.len() - 1]);
        assert forall|i: int| 0 <= i < entries.len() implies map_of(entries).contains_key(
            (#[trigger] entries[i]).0@,
        ) && map_of(entries)[entries[i].0@] == entries[i].1 by {
            if i < rest.len() {
                assert(rest[i] == entries[i]);
                assert(entries[i].0@ != last.0@);
            }
        }
        assert forall|k: Seq<char>| #[trigger] map_of(entries).contains_key(k) implies exists|i: int|
            0 <= i < entries.len() && (#[trigger] entries[i]).0@ == k by {
            if k == last.0@ {
                assert(entries[entries.len() - 1].0@ == k);
            } else {
                assert(map_of(rest).contains_key(k));
                let i = choose|i: int| 0 <= i < rest.len() && (#[trigger] rest[i]).0@ == k;
                assert(entries[i].0@ == k);
            }
        }
    }
}

impl<V> View for TextMap<V> {
    type V = Map<Seq<char>, V>;

    closed spec fn view(&self) -> Map<Seq<char>, V> {
        map_of(self.entries@)
    }
}

impl<V> TextMap<V> {
    #[verifier::type_invariant]
    spec fn unique(self) -> bool {
        distinct(self.entries@)
    }

    /// The keys, in order.
    pub closed spec fn keys(&self) -> Seq<Seq<char>> {
        keys_of(self.entries@)
    }

    /// A map without entries.
    pub fn new() -> (m: TextMap<V>)
        ensures
            m@ == Map::<Seq<char>, V>::empty(),
            m.keys() == Seq::<Seq<char>>::empty(),
    {
        let m = TextMap { entries: Vec::new() };
        assert(m.keys() =~= Seq::<Seq<char>>::empty());
        m
    }

    /// The number of entries. No key occurs twice in the order, which holds
    /// exactly the keys of the map.
    pub fn len(&self) -> (n: usize)
        ensures
            n == self.keys().len(),
            self.keys().no_duplicates(),
            forall|k: Seq<char>| #[trigger] self@.contains_key(k) <==> self.keys().contains(k),
    {
        proof {
            use_type_invariant(self);
            lemma_map_of(self.entries@);
            let e = self.entries@;
            assert forall|i: int, j: int|
                0 <= i < self.keys().len() && 0 <= j < self.keys().len() && i
                    != j implies self.keys()[i] != self.keys()[j] by {
                assert(self.keys()[i] == e[i].0@ && self.keys()[j] == e[j].0@);
            }
            assert forall|k: Seq<char>| #[trigger]
                self@.contains_key(k) <==> self.keys().contains(k) by {
                if self@.contains_key(k) {
                    let i = choose|i: int| 0 <= i < e.len() && (#[trigger] e[i]).0@ == k;
                    assert(self.keys()[i] == k);
                }
                if self.keys().contains(k) {
                    let i = self.keys().index_of(k);
                    assert(e[i].0@ == k);
                }
            }
        }
        self.entries.len()
    }

    /// The key at a position.
    pub fn key(&self, i: usize) -> (k: &str)
        requires
            i < self.keys().len(),
        ensures
            k@ == self.keys()[i as int],
    {
        self.entries[i].0.as_str()
    }

    /// The value at a position.
    pub fn value(&self, i: usize) -> (v: &V)
        requires
            i < self.keys().len(),
        ensures
            self@.contains_key(self.keys()[i as int]),
            *v == self@[self.keys()[i as int]],
    {
        proof {
            use_type_invariant(self);
            lemma_map_of(self.entries@);
            assert(self.keys()[i as int] == self.entries@[i as int].0@);
        }
        &self.entries[i].1
    }

    fn position(&self, k: &str) -> (r: Option<usize>)
        ensures
            match r {
                Some(i) => i < self.entries@.len() && self.entries@[i as int].0@ == k@
                    && self@.contains_key(k@) && self@[k@] == self.entries@[i as int].1,
                None => !self@.contains_key(k@) && forall|i: int|
                    0 <= i < self.entries@.len() ==> (#[trigger] self.entries@[i]).0@ != k@,
            },
    {
        proof {
            use_type_invariant(self);
            lemma_map_of(self.entries@);
        }
        let mut i: usize = 0;
        while i < self.entries.len()
            invariant
                i <= self.entries@.len(),
                forall|j: int| 0 <= j < i ==> (#[trigger] self.entries@[j]).0@ != k@,
            decreases self.entries@.len() - i,
        {
            if text::same(self.entries[i].0.as_str(), k) {
                proof {
                    use_type_invariant(self);
                    lemma_map_of(self.entries@);
                }
                return Some(i);
            }
            i = i + 1;
        }
        None
    }

    /// The value of a key.
    pub fn get(&self, k: &str) -> (r: Option<&V>)
        ensures
            r == (if self@.contains_key(k@) {
                Some(&self@[k@])
            } else {
                None
            }),
    {
        match self.position(k) {
            Some(i) => Some(&self.entries[i].1),
            None => None,
        }
    }

    /// Whether a key has a value.
    pub fn contains_key(&self, k: &str) -> (r: bool)
        ensures
            r == self@.contains_key(k@),
    {
        self.position(k).is_some()
    }

    /// Sets the value of a key. A new key comes last.
    pub fn insert(&mut self, k: String, v: V)
        ensures
            final(self)@ == old(self)@.insert(k@, v),
            final(self).keys() == (if old(self)@.contains_key(k@) {
                old(self).keys()
            } else {
                old(self).keys().push(k@)
            }),
    {
        proof {
            use_type_invariant(&*self);
        }
        let ghost before = self.entries@;
        let found = self.position(k.as_str());
        let mut entries: Vec<(String, V)> = Vec::new();
        std::mem::swap(&mut entries, &mut self.entries);
        match found {
            Some(i) => {
                entries.set(i, (k, v));
                proof {
                    assert(distinct(entries@));
                    lemma_map_of(before);
                    lemma_map_of(entries@);
                    assert(keys_of(entries@) =~= keys_of(before));
                    assert(map_of(entries@) =~= map_of(before).insert(k@, v)) by {
                        assert forall|x: Seq<char>|
                            map_of(entries@).contains_key(x) <==> #[trigger] map_of(before).insert(
                                k@,
                                v,
                            ).contains_key(x) by {
                            if map_of(entries@).contains_key(x) {
                                let j = choose|j: int|
                                    0 <= j < entries@.len() && (#[trigger] entries@[j]).0@ == x;
                                assert(before[j].0@ == x);
                            }
                            if map_of(before).insert(k@, v).contains_key(x) {
                                if x == k@ {
                                    assert(entries@[i as int].0@ == x);
                                } else {
                                    let j = choose|j: int|
                                        0 <= j < before.len() && (#[trigger] before[j]).0@ == x;
                                    assert(entries@[j].0@ == x);
                                }
                            }
                        }
                        assert forall|x: Seq<char>| #[trigger]
                            map_of(entries@).contains_key(x) implies map_of(entries@)[x]
                            == map_of(before).insert(k@, v)[x] by {
                            let j = choose|j: int|
                                0 <= j < entries@.len() && (#[trigger] entries@[j]).0@ == x;
                            assert(before[j].0@ == x);
                            if j == i {
                            } else {
                                assert(x != k@);
                            }
                        }
                    }
                }
            },
            None => {
                entries.push((k, v));
                proof {
                    assert(distinct(entries@));
                    assert(entries@.drop_last() =~= before);
                    assert(keys_of(entries@) =~= keys_of(before).push(k@));
                }
            },
        }
        self.entries = entries;
    }

    /// Removes a key. The other keys keep their order.
    pub fn remove(&mut self, k: &str)
        ensures
            final(self)@ == old(self)@.remove(k@),
            old(self)@.contains_key(k@) ==> exists|i: int|
                0 <= i < old(self).keys().len() && old(self).keys()[i] == k@ && final(self).keys()
                    == #[trigger] old(self).keys().remove(i),
            !old(self)@.contains_key(k@) ==> final(self).keys() == old(self).keys(),
    {
        proof {
            use_type_invariant(&*self);
        }
        let ghost before = self.entries@;
        let found = self.position(k);
        let mut entries: Vec<(String, V)> = Vec::new();
        std::mem::swap(&mut entries, &mut self.entries);
        match found {
            Some(i) => {
                entries.remove(i);
                proof {
                    assert(distinct(entries@)) by {
                        assert forall|a: int, b: int| 0 <= a < b < entries@.len() implies (
                        #[trigger] entries@[a]).0@ != (#[trigger] entries@[b]).0@ by {
                            let x = if a < i { a } else { a + 1 };
                            let y = if b < i { b } else { b + 1 };
                            assert(entries@[a] == before[x] && entries@[b] == before[y]);
                        }
                    }
                    lemma_map_of(before);
                    lemma_map_of(entries@);
                    assert(keys_of(before)[i as int] == k@);
                    assert(keys_of(entries@) =~= keys_of(before).remove(i as int));
                    assert(map_of(entries@) =~= map_of(before).remove(k@)) by {
                        assert forall|x: Seq<char>|
                            map_of(entries@).contains_key(x) <==> #[trigger] map_of(before).remove(
                                k@,
                            ).contains_key(x) by {
                            if map_of(entries@).contains_key(x) {
                                let j = choose|j: int|
                                    0 <= j < entries@.len() && (#[trigger] entries@[j]).0@ == x;
                                let y = if j < i { j } else { j + 1 };
                                assert(before[y].0@ == x);
                                assert(before[i as int].0@ == k@);
                            }
                            if map_of(before).remove(k@).contains_key(x) {
                                let j = choose|j: int|
                                    0 <= j < before.len() && (#[trigger] before[j]).0@ == x;
                                let y = if j < i { j } else { j - 1 };
                                assert(entries@[y].0@ == x);
                            }
                        }
                        assert forall|x: Seq<char>| #[trigger]
                            map_of(entries@).contains_key(x) implies map_of(entries@)[x]
                            == map_of(before).remove(k@)[x] by {
                            let j = choose|j: int|
                                0 <= j < entries@.len() && (#[trigger] entries@[j]).0@ == x;
                            let y = if j < i { j } else { j + 1 };
                            assert(before[y].0@ == x);
                            assert(before[i as int].0@ == k@);
                        }
                    }
                }
            },
            None => {
                assert(map_of(before) =~= map_of(before).remove(k@));
            },
        }
        self.entries = entries;
        proof {
            if let Some(i) = found {
                assert(self.keys() == old(self).keys().remove(i as int));
            }
        }
    }
}

impl TextMap<String> {
    /// A copy.
    pub fn copy(&self) -> (m: TextMap<String>)
        ensures
            m@ == self@,
            m.keys() == self.keys(),
    {
        let mut m: TextMap<String> = TextMap::new();
        let n: usize = self.len();
        let ghost keys = self.keys();
        let mut i: usize = 0;
        while i < n
            invariant
                i <= n,
                n == keys.len(),
                keys == self.keys(),
                keys.no_duplicates(),
                m.keys() == keys.take(i as int),
                forall|k: Seq<char>| #[trigger]
                    m@.contains_key(k) <==> keys.take(i as int).contains(k),
                forall|k: Seq<char>| #[trigger] m@.contains_key(k) ==> m@[k] == self@[k],
            decreases n - i,
        {
            let ghost k = keys[i as int];
            proof {
                let was = keys.take(i as int);
                let now = keys.take(i + 1);
                assert(now =~= was.push(k));
                assert(!was.contains(k)) by {
                    if was.contains(k) {
                        let j = was.index_of(k);
                        assert(keys[j] == keys[i as int]);
                    }
                }
                assert forall|x: Seq<char>| now.contains(x) <==> was.contains(x) || x == k by {
                    if now.contains(x) {
                        let j = now.index_of(x);
                        if j < i {
                            assert(was[j] == x);
                        }
                    }
                    if was.contains(x) {
                        assert(now[was.index_of(x)] == x);
                    }
                    assert(now[i as int] == k);
                }
            }
            m.insert(self.key(i).to_owned(), self.value(i).clone());
            i = i + 1;
        }
        assert(keys.take(n as int) =~= keys);
        assert(m@ =~= self@);
        m
    }
}

} // verus!
