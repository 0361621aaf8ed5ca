//! A map from text to text that remembers the order in which its keys came.

use vstd::prelude::*;

verus! {

/// The map that a list of entries stands for: a later entry replaces an
/// earlier one with the same key.
pub open spec fn entries_map(es: Seq<(Seq<char>, Seq<char>)>) -> Map<Seq<char>, Seq<char>>
    decreases es.len(),
{
    if es.len() == 0 {
        Map::empty()
    } else {
        entries_map(es.drop_last()).insert(es.last().0, es.last().1)
    }
}

/// No key occurs in two entries.
pub open spec fn keys_distinct(es: Seq<(Seq<char>, Seq<char>)>) -> bool {
    forall|i: int, j: int| 0 <= i < j < es.len() ==> (#[trigger] es[i]).0 != (#[trigger] es[j]).0
}

/// No entry has the key `k`.
pub open spec fn key_absent(es: Seq<(Seq<char>, Seq<char>)>, k: Seq<char>) -> bool {
    forall|i: int| 0 <= i < es.len() ==> (#[trigger] es[i]).0 != k
}

/// The map of a list of entries holds a key exactly when an entry has it.
pub proof fn lemma_entries_dom(es: Seq<(Seq<char>, Seq<char>)>, k: Seq<char>)
    ensures
        entries_map(es).contains_key(k) <==> !key_absent(es, k),
    decreases es.len(),
{
    if es.len() > 0 {
        let init = es.drop_last();
        lemma_entries_dom(init, k);
        if !key_absent(init, k) {
            let i = choose|i: int| 0 <= i < init.len() && (#[trigger] init[i]).0 == k;
            assert(es[i].0 == k);
        }
        if !key_absent(es, k) {
            let i = choose|i: int| 0 <= i < es.len() && (#[trigger] es[i]).0 == k;
            if i < init.len() {
                assert(init[i].0 == k);
            }
        }
    }
}

/// Where no key occurs twice, the map gives each entry's key its value.
pub proof fn lemma_entries_lookup(es: Seq<(Seq<char>, Seq<char>)>, i: int)
    requires
        keys_distinct(es),
        0 <= i < es.len(),
    ensures
        entries_map(es).contains_key(es[i].0),
        entries_map(es)[es[i].0] == es[i].1,
    decreases es.len(),
{
    let init = es.drop_last();
    if i < es.len() - 1 {
        assert(keys_distinct(init)) by {
            assert forall|a: int, b: int| 0 <= a < b < init.len() implies (#[trigger] init[a]).0 != (
            #[trigger] init[b]).0 by {
                assert(es[a].0 != es[b].0);
            }
        }
        lemma_entries_lookup(init, i);
        assert(init[i] == es[i]);
        assert(es[i].0 != es[es.len() - 1].0);
    }
}

/// Replacing the value of an entry is inserting its key with the new value.
pub proof fn lemma_entries_update(es: Seq<(Seq<char>, Seq<char>)>, i: int, v: Seq<char>)
    requires
        keys_distinct(es),
        0 <= i < es.len(),
    ensures
        keys_distinct(es.update(i, (es[i].0, v))),
        entries_map(es.update(i, (es[i].0, v))) == entries_map(es).insert(es[i].0, v),
    decreases es.len(),
{
    let k = es[i].0;
    let es1 = es.update(i, (k, v));
    let init = es.drop_last();
    assert(keys_distinct(es1)) by {
        assert forall|a: int, b: int| 0 <= a < b < es1.len() implies (#[trigger] es1[a]).0 != (
        #[trigger] es1[b]).0 by {
            assert(es[a].0 != es[b].0);
        }
    }
    if i == es.len() - 1 {
        assert(es1.drop_last() =~= init);
        assert(entries_map(es1) =~= entries_map(es).insert(k, v));
    } else {
        assert(keys_distinct(init)) by {
            assert forall|a: int, b: int| 0 <= a < b < init.len() implies (#[trigger] init[a]).0 != (
            #[trigger] init[b]).0 by {
                assert(es[a].0 != es[b].0);
            }
        }
        lemma_entries_update(init, i, v);
        assert(init[i] == es[i]);
        assert(es1.drop_last() =~= init.update(i, (k, v)));
        assert(es[i].0 != es[es.len() - 1].0);
        assert(entries_map(es1) =~= entries_map(es).insert(k, v));
    }
}

/// A map from text to text. Its entries keep the order in which their keys
/// were first inserted.
#[derive(Debug)]
pub struct StringMap {
    keys: Vec<String>,
    values: Vec<String>,
}

impl View for StringMap {
    type V = Map<Seq<char>, Seq<char>>;

    open spec fn view(&self) -> Map<Seq<char>, Seq<char>> {
        entries_map(self.entries())
    }
}

impl StringMap {
    /// The entries, in the order in which their keys were first inserted.
    pub closed spec fn entries(&self) -> Seq<(Seq<char>, Seq<char>)> {
        Seq::new(
            self.keys@.len(),
            |i: int|
                (
                    self.keys@[i]@,
                    if i < self.values@.len() {
                        self.values@[i]@
                    } else {
                        Seq::empty()
                    },
                ),
        )
    }

    /// No key occurs in two entries.
    pub closed spec fn wf(&self) -> bool {
        self.keys@.len() == self.values@.len() && keys_distinct(self.entries())
    }

    /// In a well-formed map no key occurs in two entries.
    pub proof fn lemma_wf(&self)
        requires
            self.wf(),
        ensures
            keys_distinct(self.entries()),
    {
    }

    /// The empty map.
    pub fn new() -> (r: Self)
        ensures
            r.wf(),
            r.entries() == Seq::<(Seq<char>, Seq<char>)>::empty(),
            r@ == Map::<Seq<char>, Seq<char>>::empty(),
    {
        let r = StringMap { keys: Vec::new(), values: Vec::new() };
        proof {
            assert(r.entries() =~= Seq::<(Seq<char>, Seq<char>)>::empty());
        }
        r
    }

    /// Number of entries.
    pub fn len(&self) -> (r: usize)
        ensures
            r == self.entries().len(),
    {
        self.keys.len()
    }

    /// The key of the `i`-th entry.
    pub fn key_at(&self, i: usize) -> (r: &String)
        requires
            self.wf(),
            i < self.entries().len(),
        ensures
            r@ == self.entries()[i as int].0,
    {
        &self.keys[i]
    }

    /// The value of the `i`-th entry.
    pub fn value_at(&self, i: usize) -> (r: &String)
        requires
            self.wf(),
            i < self.entries().len(),
        ensures
            r@ == self.entries()[i as int].1,
    {
        &self.values[i]
    }

    /// The place of the entry with the given key.
    pub fn find(&self, key: &String) -> (r: Option<usize>)
        requires
            self.wf(),
        ensures
            match r {
                Some(i) => i < self.entries().len() && self.entries()[i as int].0 == key@,
                None => key_absent(self.entries(), key@),
            },
    {
        let mut i: usize = 0;
        while i < self.keys.len()
            invariant
                i <= self.keys@.len(),
                self.wf(),
                forall|j: int| 0 <= j < i ==> (#[trigger] self.entries()[j]).0 != key@,
            decreases self.keys@.len() - i,
        {
            if self.keys[i] == *key {
                return Some(i);
            }
            i = i + 1;
        }
        None
    }

    /// Whether the map holds the key.
    pub fn contains_key(&self, key: &String) -> (r: bool)
        requires
            self.wf(),
        ensures
            r == self@.contains_key(key@),
    {
        proof {
            lemma_entries_dom(self.entries(), key@);
        }
        match self.find(key) {
            Some(i) => {
                proof {
                    assert(self.entries()[i as int].0 == key@);
                }
                true
            },
            None => false,
        }
    }

    /// The value of the key, if the map holds it.
    pub fn get(&self, key: &String) -> (r: Option<&String>)
        requires
            self.wf(),
        ensures
            r is Some <==> self@.contains_key(key@),
            r is Some ==> r->0@ == self@[key@],
    {
        proof {
            lemma_entries_dom(self.entries(), key@);
        }
        match self.find(key) {
            Some(i) => {
                proof {
                    lemma_entries_lookup(self.entries(), i as int);
                }
                Some(&self.values[i])
            },
            None => None,
        }
    }

    /// Gives `key` the value `value`. A key that the map holds keeps its
    /// place; a new key goes to the end.
    pub fn insert(&mut self, key: String, value: String)
        requires
            old(self).wf(),
        ensures
            final(self).wf(),
            final(self)@ == old(self)@.insert(key@, value@),
            key_absent(old(self).entries(), key@) ==> final(self).entries() == old(
                self,
            ).entries().push((key@, value@)),
            !key_absent(old(self).entries(), key@) ==> exists|i: int|
                0 <= i < old(self).entries().len() && (#[trigger] old(self).entries()[i]).0 == key@
                    && final(self).entries() == old(self).entries().update(i, (key@, value@)),
    {
        let ghost es = self.entries();
        match self.find(&key) {
            Some(i) => {
                proof {
                    lemma_entries_update(es, i as int, value@);
                }
                self.values.set(i, value);
                proof {
                    assert(self.entries() =~= es.update(i as int, (key@, value@)));
                    assert(es[i as int].0 == key@);
                }
            },
            None => {
                self.keys.push(key);
                self.values.push(value);
                proof {
                    assert(self.entries() =~= es.push((key@, value@)));
                    assert(self.entries().drop_last() =~= es);
                }
            },
        }
    }

    /// Inserts every entry of `other`, in order.
    pub fn extend(&mut self, other: &StringMap)
        requires
            old(self).wf(),
            other.wf(),
        ensures
            final(self).wf(),
            final(self)@ == old(self)@.union_prefer_right(other@),
    {
        let mut i: usize = 0;
        let ghost oes = other.entries();
        while i < other.len()
            invariant
                i <= oes.len(),
                oes == other.entries(),
                other.wf(),
                self.wf(),
                self@ == old(self)@.union_prefer_right(entries_map(oes.subrange(0, i as int))),
            decreases oes.len() - i,
        {
            let k = other.key_at(i).clone();
            let v = other.value_at(i).clone();
            let ghost before = self@;
            self.insert(k, v);
            proof {
                let pre = oes.subrange(0, i as int);
                let pre1 = oes.subrange(0, i + 1);
                assert(pre1.drop_last() =~= pre);
                assert(pre1.last() == oes[i as int]);
                assert(self@ =~= old(self)@.union_prefer_right(entries_map(pre1)));
            }
            i = i + 1;
        }
        proof {
            assert(oes.subrange(0, i as int) =~= oes);
        }
    }
}

} // verus!
