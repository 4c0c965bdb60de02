//! A map from texts to values.

use crate::text::same_text;
use vstd::prelude::*;

verus! {

/// A map from texts to values, each text at most once.
pub struct TextMap<V> {
    entries: Vec<(String, V)>,
}

/// Whether some entry has this key.
spec fn has_key<V>(s: Seq<(String, V)>, k: Seq<char>) -> bool {
    exists|i: int| 0 <= i < s.len() && (#[trigger] s[i]).0@ == k
}

/// Where the entry with this key stands.
spec fn position<V>(s: Seq<(String, V)>, k: Seq<char>) -> int {
    choose|i: int| 0 <= i < s.len() && (#[trigger] s[i]).0@ == k
}

spec fn distinct_keys<V>(s: Seq<(String, V)>) -> bool {
    forall|i: int, j: int|
        0 <= i < s.len() && 0 <= j < s.len() && i != j ==> (#[trigger] s[i]).0@ != (
        #[trigger] s[j]).0@
}

spec fn contents<V>(s: Seq<(String, V)>) -> Map<Seq<char>, V> {
    Map::new(|k: Seq<char>| has_key(s, k), |k: Seq<char>| s[position(s, k)].1)
}

impl<V> View for TextMap<V> {
    type V = Map<Seq<char>, V>;

    closed spec fn view(&self) -> Map<Seq<char>, V> {
        contents(self.entries@)
    }
}

impl<V> TextMap<V> {
    #[verifier::type_invariant]
    spec fn wf(&self) -> bool {
        distinct_keys(self.entries@)
    }

    /// The empty map.
    pub fn new() -> (r: Self)
        ensures
            r@ == Map::<Seq<char>, V>::empty(),
    {
        let r = TextMap { entries: Vec::new() };
        assert(r@ =~= Map::empty());
        r
    }

    fn find(&self, key: &str) -> (r: Option<usize>)
        ensures
            match r {
                Some(i) => i < self.entries@.len() && self.entries@[i as int].0@ == key@,
                None => !has_key(self.entries@, key@),
            },
    {
        let mut i: usize = 0;
        while i < self.entries.len()
            invariant
                i <= self.entries@.len(),
                forall|k: int| 0 <= k < i ==> (#[trigger] self.entries@[k]).0@ != key@,
            decreases self.entries@.len() - i,
        {
            if same_text(self.entries[i].0.as_str(), key) {
                return Some(i);
            }
            i = i + 1;
        }
        None
    }

    /// What stands under a key.
    pub fn get(&self, key: &str) -> (r: Option<&V>)
        ensures
            match r {
                Some(v) => self@.dom().contains(key@) && *v == self@[key@],
                None => !self@.dom().contains(key@),
            },
    {
        proof {
            use_type_invariant(self);
        }
        match self.find(key) {
            Some(i) => {
                assert(has_key(self.entries@, key@));
                assert(position(self.entries@, key@) == i);
                Some(&self.entries[i].1)
            },
            None => None,
        }
    }

    /// Whether something stands under a key.
    pub fn contains_key(&self, key: &str) -> (r: bool)
        ensures
            r == self@.dom().contains(key@),
    {
        self.get(key).is_some()
    }

    /// Puts a value under a key, in place of what stood there.
    pub fn insert(&mut self, key: String, value: V)
        ensures
            final(self)@ == old(self)@.insert(key@, value),
    {
        proof {
            use_type_invariant(&*self);
        }
        let ghost before = self.entries@;
        let ghost was = self@;
        let mut entries: Vec<(String, V)> = Vec::new();
        match self.find(key.as_str()) {
            Some(i) => {
                let ghost k = key@;
                std::mem::swap(&mut entries, &mut self.entries);
                let ghost e = (key, value);
                entries.set(i, (key, value));
                proof {
                    let after = entries@;
                    assert(after == before.update(i as int, e));
                    assert(distinct_keys(after)) by {
                        assert forall|a: int, b: int|
                            0 <= a < after.len() && 0 <= b < after.len() && a != b implies (
                        #[trigger] after[a]).0@ != (#[trigger] after[b]).0@ by {
                            assert(before[a].0@ != before[b].0@);
                        }
                    }
                    lemma_same_contents(before, after, i as int);
                }
                self.entries = entries;
            },
            None => {
                std::mem::swap(&mut entries, &mut self.entries);
                let ghost e = (key, value);
                entries.push((key, value));
                proof {
                    let after = entries@;
                    assert(after == before.push(e));
                    assert(distinct_keys(after)) by {
                        assert forall|a: int, b: int|
                            0 <= a < after.len() && 0 <= b < after.len() && a != b implies (
                        #[trigger] after[a]).0@ != (#[trigger] after[b]).0@ by {
                            if a < before.len() {
                                assert(before[a].0@ != e.0@);
                            }
                            if b < before.len() {
                                assert(before[b].0@ != e.0@);
                            }
                        }
                    }
                    lemma_pushed_contents(before, e);
                }
                self.entries = entries;
            },
        }
    }

    /// Takes out what stands under a key.
    pub fn remove(&mut self, key: &str) -> (r: Option<V>)
        ensures
            final(self)@ == old(self)@.remove(key@),
            match r {
                Some(v) => old(self)@.dom().contains(key@) && v == old(self)@[key@],
                None => !old(self)@.dom().contains(key@),
            },
    {
        proof {
            use_type_invariant(&*self);
        }
        let ghost before = self.entries@;
        match self.find(key) {
            Some(i) => {
                let mut entries: Vec<(String, V)> = Vec::new();
                std::mem::swap(&mut entries, &mut self.entries);
                let e = entries.remove(i);
                proof {
                    let after = entries@;
                    assert(after == before.remove(i as int));
                    assert(distinct_keys(after)) by {
                        assert forall|a: int, b: int|
                            0 <= a < after.len() && 0 <= b < after.len() && a != b implies (
                        #[trigger] after[a]).0@ != (#[trigger] after[b]).0@ by {
                            let x = if a < i {
                                a
                            } else {
                                a + 1
                            };
                            let y = if b < i {
                                b
                            } else {
                                b + 1
                            };
                            assert(before[x].0@ != before[y].0@);
                        }
                    }
                    lemma_removed_contents(before, i as int);
                    assert(has_key(before, key@));
                    assert(position(before, key@) == i);
                }
                self.entries = entries;
                Some(e.1)
            },
            None => {
                assert(self@ =~= self@.remove(key@));
                None
            },
        }
    }
}

proof fn lemma_position<V>(s: Seq<(String, V)>, i: int)
    requires
        distinct_keys(s),
        0 <= i < s.len(),
    ensures
        has_key(s, s[i].0@),
        position(s, s[i].0@) == i,
{
}

proof fn lemma_same_contents<V>(before: Seq<(String, V)>, after: Seq<(String, V)>, i: int)
    requires
        distinct_keys(before),
        distinct_keys(after),
        0 <= i < before.len(),
        after == before.update(i, after[i]),
        after[i].0@ == before[i].0@,
    ensures
        contents(after) == contents(before).insert(after[i].0@, after[i].1),
{
    let k = after[i].0@;
    lemma_position(after, i);
    assert forall|x: Seq<char>| has_key(after, x) == has_key(before, x) by {
        if has_key(after, x) {
            let p = position(after, x);
            assert(before[p].0@ == x);
        }
        if has_key(before, x) {
            let p = position(before, x);
            assert(after[p].0@ == x);
        }
    }
    assert forall|x: Seq<char>| has_key(after, x) && x != k implies after[position(after, x)].1
        == before[position(before, x)].1 by {
        let p = position(after, x);
        assert(before[p].0@ == x);
        lemma_position(before, p);
    }
    assert(contents(after) =~= contents(before).insert(k, after[i].1));
}

proof fn lemma_pushed_contents<V>(before: Seq<(String, V)>, e: (String, V))
    requires
        distinct_keys(before),
        !has_key(before, e.0@),
        distinct_keys(before.push(e)),
    ensures
        contents(before.push(e)) == contents(before).insert(e.0@, e.1),
{
    let after = before.push(e);
    lemma_position(after, before.len() as int);
    assert forall|x: Seq<char>| has_key(after, x) == (has_key(before, x) || x == e.0@) by {
        if has_key(after, x) {
            let p = position(after, x);
            if p < before.len() {
                assert(before[p].0@ == x);
            }
        }
        if has_key(before, x) {
            let p = position(before, x);
            assert(after[p].0@ == x);
        }
    }
    assert forall|x: Seq<char>| has_key(before, x) implies after[position(after, x)].1
        == before[position(before, x)].1 by {
        let p = position(before, x);
        assert(after[p].0@ == x);
        lemma_position(after, p);
    }
    assert(contents(after) =~= contents(before).insert(e.0@, e.1));
}

proof fn lemma_removed_contents<V>(before: Seq<(String, V)>, i: int)
    requires
        distinct_keys(before),
        0 <= i < before.len(),
        distinct_keys(before.remove(i)),
    ensures
        contents(before.remove(i)) == contents(before).remove(before[i].0@),
{
    let after = before.remove(i);
    let k = before[i].0@;
    assert forall|x: Seq<char>| has_key(after, x) == (has_key(before, x) && x != k) by {
        if has_key(after, x) {
            let p = position(after, x);
            let q = if p < i {
                p
            } else {
                p + 1
            };
            assert(before[q].0@ == x);
        }
        if has_key(before, x) && x != k {
            let q = position(before, x);
            let p = if q < i {
                q
            } else {
                q - 1
            };
            assert(after[p].0@ == x);
        }
    }
    assert forall|x: Seq<char>| has_key(after, x) implies after[position(after, x)].1
        == before[position(before, x)].1 by {
        let p = position(after, x);
        let q = if p < i {
            p
        } else {
            p + 1
        };
        assert(before[q].0@ == x);
        lemma_position(before, q);
    }
    assert(contents(after) =~= contents(before).remove(k));
}

} // verus!
