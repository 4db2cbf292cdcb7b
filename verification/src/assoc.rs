//! A small map kept as a list of pairs.

use vstd::prelude::*;

verus! {

/// A key type: comparable by its view.
pub trait Atom: View + Sized {
    /// Whether two keys are the same.
    fn same(&self, other: &Self) -> (r: bool)
        ensures
            r == (self@ == other@),
    ;
}

/// A map from `K` to `V`.
#[derive(Debug)]
pub struct AssocMap<K: Atom, V> {
    entries: Vec<(K, V)>,
}

/// The map a list of pairs stands for: a later pair wins over an earlier one.
pub open spec fn map_of<K: View, V>(entries: Seq<(K, V)>) -> Map<K::V, V>
    decreases entries.len(),
{
    if entries.len() == 0 {
        Map::empty()
    } else {
        map_of(entries.drop_last()).insert(entries.last().0@, entries.last().1)
    }
}

/// No key stands in the list twice.
spec fn keys_distinct<K: View, V>(entries: Seq<(K, V)>) -> bool {
    forall|i: int, j: int|
        0 <= i < j < entries.len() ==> (#[trigger] entries[i]).0@ != (#[trigger] entries[j]).0@
}

impl<K: Atom, V> View for AssocMap<K, V> {
    type V = Map<K::V, V>;

    closed spec fn view(&self) -> Map<K::V, V> {
        map_of(self.entries@)
    }
}

/// What the map holds for a key is in its list, after which the key is not seen.
proof fn lemma_map_of_member<K: View, V>(entries: Seq<(K, V)>, i: int)
    requires
        0 <= i < entries.len(),
        forall|j: int| i < j < entries.len() ==> (#[trigger] entries[j]).0@ != entries[i].0@,
    ensures
        map_of(entries).contains_key(entries[i].0@),
        map_of(entries)[entries[i].0@] == entries[i].1,
    decreases entries.len(),
{
    if i == entries.len() - 1 {
    } else {
        assert(entries[entries.len() - 1].0@ != entries[i].0@);
        assert forall|j: int| i < j < entries.drop_last().len() implies (
        #[trigger] entries.drop_last()[j]).0@ != entries.drop_last()[i].0@ by {
            assert(entries[j].0@ != entries[i].0@);
        }
        lemma_map_of_member(entries.drop_last(), i);
    }
}

proof fn lemma_map_of_absent<K: View, V>(entries: Seq<(K, V)>, key: K::V)
    requires
        forall|j: int| 0 <= j < entries.len() ==> (#[trigger] entries[j]).0@ != key,
    ensures
        !map_of(entries).contains_key(key),
    decreases entries.len(),
{
    if entries.len() > 0 {
        assert(entries[entries.len() - 1].0@ != key);
        assert forall|j: int| 0 <= j < entries.drop_last().len() implies (
        #[trigger] entries.drop_last()[j]).0@ != key by {
            assert(entries[j].0@ != key);
        }
        lemma_map_of_absent(entries.drop_last(), key);
    }
}

/// Distinct keys make a map of as many entries.
proof fn lemma_map_of_len<K: View, V>(entries: Seq<(K, V)>)
    requires
        keys_distinct(entries),
    ensures
        map_of(entries).dom().finite(),
        map_of(entries).dom().len() == entries.len(),
    decreases entries.len(),
{
    if entries.len() > 0 {
        let init = entries.drop_last();
        let key = entries.last().0@;
        assert forall|i: int, j: int| 0 <= i < j < init.len() implies (#[trigger] init[i]).0@ != (
        #[trigger] init[j]).0@ by {
            assert(entries[i].0@ != entries[j].0@);
        }
        lemma_map_of_len(init);
        assert forall|j: int| 0 <= j < init.len() implies (#[trigger] init[j]).0@ != key by {
            assert(entries[j].0@ != entries[entries.len() - 1].0@);
        }
        lemma_map_of_absent(init, key);
        assert(map_of(entries).dom() =~= map_of(init).dom().insert(key));
    } else {
        assert(map_of(entries).dom() =~= Set::empty());
    }
}

impl<K: Atom, V> AssocMap<K, V> {
    #[verifier::type_invariant]
    spec fn distinct(self) -> bool {
        keys_distinct(self.entries@)
    }

    /// The empty map.
    pub fn new() -> (r: AssocMap<K, V>)
        ensures
            r@ == Map::<K::V, V>::empty(),
    {
        AssocMap { entries: Vec::new() }
    }

    fn find(&self, key: &K) -> (r: Option<usize>)
        ensures
            r matches Some(i) ==> i < self.entries@.len() && self@.contains_key(key@)
                && self@[key@] == self.entries@[i as int].1,
            r is None ==> !self@.contains_key(key@),
    {
        let mut i: usize = self.entries.len();
        while i > 0
            invariant
                i <= self.entries@.len(),
                forall|j: int| i <= j < self.entries@.len() ==> (#[trigger] self.entries@[j]).0@ != key@,
            decreases i,
        {
            i = i - 1;
            if self.entries[i].0.same(key) {
                proof {
                    lemma_map_of_member(self.entries@, i as int);
                }
                return Some(i);
            }
        }
        proof {
            lemma_map_of_absent(self.entries@, key@);
        }
        None
    }

    /// Whether there is a value for `key`.
    pub fn contains_key(&self, key: &K) -> (r: bool)
        ensures
            r == self@.contains_key(key@),
    {
        self.find(key).is_some()
    }

    /// The value for `key`.
    pub fn get(&self, key: &K) -> (r: Option<&V>)
        ensures
            self@.contains_key(key@) ==> r == Some(&self@[key@]),
            !self@.contains_key(key@) ==> r is None,
    {
        match self.find(key) {
            Some(i) => Some(&self.entries[i].1),
            None => None,
        }
    }

    /// How many keys have a value.
    pub fn len(&self) -> (r: usize)
        ensures
            r == self@.dom().len(),
            self@.dom().finite(),
    {
        proof {
            use_type_invariant(self);
            lemma_map_of_len(self.entries@);
        }
        self.entries.len()
    }

    /// Whether the map is empty.
    pub fn is_empty(&self) -> (r: bool)
        ensures
            r == (self@ == Map::<K::V, V>::empty()),
    {
        let r = self.entries.len() == 0;
        proof {
            if r {
                assert(self@ =~= Map::<K::V, V>::empty());
            } else {
                assert(self@.contains_key(self.entries@.last().0@));
            }
        }
        r
    }

    /// Takes the value for `key` out.
    pub fn remove(&mut self, key: &K) -> (r: Option<V>)
        ensures
            final(self)@ == old(self)@.remove(key@),
            old(self)@.contains_key(key@) ==> r == Some(old(self)@[key@]),
            !old(self)@.contains_key(key@) ==> r is None,
    {
        proof {
            use_type_invariant(&*self);
        }
        let mut found: Option<V> = None;
        let mut kept: Vec<(K, V)> = Vec::new();
        let mut rest: Vec<(K, V)> = Vec::new();
        std::mem::swap(&mut rest, &mut self.entries);
        let ghost all = rest@;
        let ghost done: Seq<(K, V)> = Seq::empty();
        assert(map_of(kept@) =~= map_of(done).remove(key@));
        for entry in it: rest
            invariant
                it.seq() == all,
                keys_distinct(all),
                keys_distinct(kept@),
                forall|i: int|
                    0 <= i < kept@.len() ==> exists|k: int|
                        0 <= k < it.index() && #[trigger] kept@[i] == #[trigger] all[k],
                done == all.take(it.index()),
                map_of(kept@) == map_of(done).remove(key@),
                map_of(done).contains_key(key@) ==> found == Some(map_of(done)[key@]),
                !map_of(done).contains_key(key@) ==> found is None,
        {
            proof {
                let next = done.push(entry);
                assert(all.take(it.index() + 1) =~= next);
                assert(next.drop_last() =~= done);
                assert(next.last() == entry);
            }
            if entry.0.same(key) {
                proof {
                    assert(map_of(done.push(entry)).remove(key@) =~= map_of(done).remove(key@));
                    done = done.push(entry);
                }
                found = Some(entry.1);
            } else {
                let ghost before = kept@;
                assert forall|i: int| 0 <= i < before.len() implies (#[trigger] before[i]).0@
                    != entry.0@ by {
                    let k = choose|k: int| 0 <= k < it.index() && before[i] == #[trigger] all[k];
                    assert(all[k].0@ != all[it.index()].0@);
                }
                kept.push(entry);
                proof {
                    assert(kept@.drop_last() =~= before);
                    assert(kept@.last() == entry);
                    assert(map_of(kept@) =~= map_of(done.push(entry)).remove(key@));
                    done = done.push(entry);
                    assert forall|i: int| 0 <= i < kept@.len() implies exists|k: int|
                        0 <= k < it.index() + 1 && #[trigger] kept@[i] == #[trigger] all[k] by {
                        if i < before.len() {
                            let k = choose|k: int|
                                0 <= k < it.index() && before[i] == #[trigger] all[k];
                            assert(kept@[i] == all[k]);
                        } else {
                            assert(kept@[i] == all[it.index()]);
                        }
                    }
                }
            }
        }
        assert(done =~= all);
        self.entries = kept;
        found
    }

    /// Puts a value in, in place of the one the key may have had.
    pub fn insert(&mut self, key: K, value: V)
        ensures
            final(self)@ == old(self)@.insert(key@, value),
    {
        let _old = self.remove(&key);
        proof {
            use_type_invariant(&*self);
        }
        let mut entries: Vec<(K, V)> = Vec::new();
        std::mem::swap(&mut entries, &mut self.entries);
        let ghost before = entries@;
        proof {
            assert(!map_of(before).contains_key(key@));
            assert forall|i: int| 0 <= i < before.len() implies (#[trigger] before[i]).0@
                != key@ by {
                assert forall|j: int| i < j < before.len() implies (#[trigger] before[j]).0@
                    != before[i].0@ by {}
                lemma_map_of_member(before, i);
            }
        }
        entries.push((key, value));
        assert(entries@.drop_last() =~= before);
        self.entries = entries;
        assert(self@ =~= old(self)@.insert(key@, value));
    }

    /// The map a list of pairs stands for: a later pair wins over an earlier one.
    pub fn from_pairs(pairs: Vec<(K, V)>) -> (r: AssocMap<K, V>)
        ensures
            r@ == map_of(pairs@),
    {
        let ghost all = pairs@;
        let mut out: AssocMap<K, V> = AssocMap::new();
        for pair in it: pairs
            invariant
                it.seq() == all,
                out@ == map_of(all.take(it.index())),
        {
            assert(all.take(it.index() + 1).drop_last() =~= all.take(it.index()));
            assert(all.take(it.index() + 1).last() == pair);
            let (key, value) = pair;
            out.insert(key, value);
        }
        assert(all.take(all.len() as int) =~= all);
        out
    }
}

} // verus!
