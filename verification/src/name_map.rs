//! Maps and sets keyed by dotted names.

use crate::module_name::{sort_names, text_less, text_order_is_total, texts, ModuleName};
use ahash::AHashMap;
use vstd::prelude::*;

verus! {

/// A hash map of the `ahash` crate.
#[verifier::external_type_specification]
#[verifier::external_body]
#[verifier::reject_recursive_types(K)]
#[verifier::reject_recursive_types(V)]
#[verifier::reject_recursive_types(S)]
pub struct ExAHashMap<K, V, S>(AHashMap<K, V, S>);

/// The seeded hasher of the `ahash` crate.
#[verifier::external_type_specification]
#[verifier::external_body]
pub struct ExRandomState(ahash::RandomState);

/// What a hash map from text to positions holds.
pub uninterp spec fn positions(index: &AHashMap<String, usize>) -> Map<Seq<char>, usize>;

/// `AHashMap::new` makes a map that holds nothing.
#[verifier::external_body]
fn index_new() -> (res: AHashMap<String, usize>)
    ensures
        (positions(&res) == Map::<Seq<char>, usize>::empty()),
{
    AHashMap::new()
}

/// `AHashMap::get` finds the value that stands under the key, where there is one.
#[verifier::external_body]
fn index_get(index: &AHashMap<String, usize>, key: &str) -> (res: Option<usize>)
    ensures
        res == (if positions(index).contains_key(key@) {
            Some(positions(index)[key@])
        } else {
            None
        }),
{
    index.get(key).copied()
}

/// `AHashMap::insert` sets the value under the key and leaves the other keys alone.
#[verifier::external_body]
fn index_insert(index: &mut AHashMap<String, usize>, key: String, value: usize)
    ensures
        positions(final(index)) == positions(old(index)).insert(key@, value),
{
    index.insert(key, value);
}

/// `AHashMap::remove` drops the key and leaves the other keys alone.
#[verifier::external_body]
fn index_remove(index: &mut AHashMap<String, usize>, key: &str)
    ensures
        positions(final(index)) == positions(old(index)).remove(key@),
{
    index.remove(key);
}

/// The map that pairs each key with the value at its position.
pub open spec fn pairing<V>(keys: Seq<Seq<char>>, values: Seq<V>) -> Map<Seq<char>, V> {
    Map::new(|k: Seq<char>| keys.contains(k), |k: Seq<char>| values[keys.index_of(k)])
}

/// A map from names to values, walked in the order in which the names came in.
#[verifier::reject_recursive_types(V)]
pub struct NameMap<V> {
    entries: Vec<(ModuleName, V)>,
    index: AHashMap<String, usize>,
}

impl<V> View for NameMap<V> {
    type V = Map<Seq<char>, V>;

    open spec fn view(&self) -> Map<Seq<char>, V> {
        pairing(self.keys(), self.values())
    }
}

impl<V: DeepView> DeepView for NameMap<V> {
    type V = Map<Seq<char>, V::V>;

    open spec fn deep_view(&self) -> Map<Seq<char>, V::V> {
        self@.map_values(|v: V| v.deep_view())
    }
}

impl<V> NameMap<V> {
    /// The names, in the order in which they came in.
    pub closed spec fn keys(&self) -> Seq<Seq<char>> {
        Seq::new(self.entries@.len(), |i: int| self.entries@[i].0@)
    }

    /// The values, in the order of their names.
    pub closed spec fn values(&self) -> Seq<V> {
        Seq::new(self.entries@.len(), |i: int| self.entries@[i].1)
    }

    /// What holds of every map: a name occurs once, with the value that the map gives it.
    pub open spec fn ordered(&self) -> bool {
        &&& self.keys().len() == self.values().len()
        &&& self.keys().no_duplicates()
        &&& self@.dom().finite()
        &&& forall|i: int|
            #![trigger self.keys()[i]]
            0 <= i < self.keys().len() ==> self@.contains_key(self.keys()[i])
                && self@[self.keys()[i]] == self.values()[i]
        &&& forall|k: Seq<char>| #[trigger] self@.contains_key(k) ==> self.keys().contains(k)
    }

    #[verifier::type_invariant]
    closed spec fn coherent(&self) -> bool {
        indexes(self.entries@, positions(&self.index))
    }

    proof fn lemma_ordered(&self)
        requires
            self.coherent(),
        ensures
            self.ordered(),
            forall|k: Seq<char>| #[trigger]
                self@.contains_key(k) <==> positions(&self.index).contains_key(k),
    {
        let keys = self.keys();
        assert forall|i: int, j: int| 0 <= i < keys.len() && 0 <= j < keys.len() && i != j implies keys[i]
            != keys[j] by {
            let p = positions(&self.index);
            assert(p.contains_key(self.entries@[i].0@) && p[self.entries@[i].0@] == i);
            assert(p.contains_key(self.entries@[j].0@) && p[self.entries@[j].0@] == j);
        }
        keys.unique_seq_to_set();
        assert(self@.dom() =~= keys.to_set());
        assert forall|i: int| 0 <= i < keys.len() implies self@.contains_key(#[trigger] keys[i])
            && self@[keys[i]] == self.values()[i] by {
            assert(keys.contains(keys[i]));
            assert(keys.index_of(keys[i]) == i);
        }
        assert forall|k: Seq<char>| #[trigger]
            self@.contains_key(k) <==> positions(&self.index).contains_key(k) by {
            if positions(&self.index).contains_key(k) {
                let i = positions(&self.index)[k] as int;
                assert(keys[i] == k);
            }
            if keys.contains(k) {
                let i = keys.index_of(k);
                assert(self.entries@[i].0@ == k);
            }
        }
    }

    pub fn new() -> (res: Self)
        ensures
            (res@ == Map::<Seq<char>, V>::empty()),
            (res.keys() == Seq::<Seq<char>>::empty()),
            res.values() == Seq::<V>::empty(),
    {
        let res: Self = NameMap { entries: Vec::new(), index: index_new() };
        assert(res.keys() =~= Seq::<Seq<char>>::empty());
        assert(res.values() =~= Seq::<V>::empty());
        assert(res@ =~= Map::<Seq<char>, V>::empty());
        res
    }

    pub fn len(&self) -> (res: usize)
        ensures
            res == self.keys().len(),
            res == self@.dom().len(),
            self.ordered(),
    {
        proof {
            use_type_invariant(self);
            self.lemma_ordered();
            self.keys().unique_seq_to_set();
            assert(self@.dom() =~= self.keys().to_set());
        }
        self.entries.len()
    }

    pub fn is_empty(&self) -> (res: bool)
        ensures
            res == (self@.dom() =~= Set::empty()),
            res == (self.keys().len() == 0),
    {
        let n: usize = self.len();
        proof {
            if n == 0 {
                assert(self@.dom() =~= Set::empty());
            } else {
                assert(self@.contains_key(self.keys()[0]));
            }
        }
        n == 0
    }

    /// Where a name stands.
    pub fn position(&self, name: &str) -> (res: Option<usize>)
        ensures
            res is Some <==> self@.contains_key(name@),
            res matches Some(i) ==> i < self.keys().len() && self.keys()[i as int] == name@
                && self@[name@] == self.values()[i as int],
            self.ordered(),
    {
        proof {
            use_type_invariant(self);
            self.lemma_ordered();
        }
        let res: Option<usize> = index_get(&self.index, name);
        proof {
            if res is Some {
                let i = res->0 as int;
                assert(positions(&self.index).contains_key(name@));
                assert(self.entries@[i].0@ == name@);
                assert(self.keys()[i] == name@);
                assert(self@.contains_key(self.keys()[i]));
            }
        }
        res
    }

    pub fn contains_str(&self, name: &str) -> (res: bool)
        ensures
            res == self@.contains_key(name@),
    {
        self.position(name).is_some()
    }

    pub fn contains_key(&self, name: &ModuleName) -> (res: bool)
        ensures
            res == self@.contains_key(name@),
    {
        self.position(name.as_str()).is_some()
    }

    pub fn get_str(&self, name: &str) -> (res: Option<&V>)
        ensures
            res == (if self@.contains_key(name@) {
                Some(&self@[name@])
            } else {
                None
            }),
    {
        match self.position(name) {
            Some(i) => Some(&self.entries[i].1),
            None => None,
        }
    }

    pub fn get(&self, name: &ModuleName) -> (res: Option<&V>)
        ensures
            res == (if self@.contains_key(name@) {
                Some(&self@[name@])
            } else {
                None
            }),
    {
        self.get_str(name.as_str())
    }

    pub fn key_at(&self, i: usize) -> (res: &ModuleName)
        requires
            i < self.keys().len(),
        ensures
            res@ == self.keys()[i as int],
    {
        &self.entries[i].0
    }

    pub fn value_at(&self, i: usize) -> (res: &V)
        requires
            i < self.keys().len(),
        ensures
            *res == self.values()[i as int],
            *res == self@[self.keys()[i as int]],
            self@.contains_key(self.keys()[i as int]),
            self.ordered(),
    {
        let n: usize = self.len();
        proof {
            assert(self@.contains_key(self.keys()[i as int]));
        }
        &self.entries[i].1
    }

    /// The names, in the order in which they came in.
    pub fn key_list(&self) -> (res: Vec<ModuleName>)
        ensures
            texts(res@) == self.keys(),
            texts(res@).to_set() == self@.dom(),
            self.ordered(),
    {
        let n: usize = self.len();
        let mut res: Vec<ModuleName> = Vec::new();
        for i in 0..n
            invariant
                n == self.keys().len(),
                texts(res@) == self.keys().take(i as int),
        {
            let ghost before = texts(res@);
            res.push(self.key_at(i).clone());
            proof {
                assert(texts(res@) =~= before.push(self.keys()[i as int]));
                assert(texts(res@) =~= self.keys().take(i + 1));
            }
        }
        proof {
            assert(texts(res@) =~= self.keys());
            assert(texts(res@).to_set() =~= self@.dom());
        }
        res
    }

    /// Puts a value in the place of the one at a position, and hands that one out.
    pub fn replace_at(&mut self, i: usize, value: V) -> (res: V)
        requires
            i < old(self).keys().len(),
        ensures
            res == old(self).values()[i as int],
            final(self).keys() == old(self).keys(),
            final(self).values() == old(self).values().update(i as int, value),
            final(self)@ == old(self)@.insert(old(self).keys()[i as int], value),
            final(self).ordered(),
    {
        let n: usize = self.len();
        let mut whole: NameMap<V> = NameMap::new();
        std::mem::swap(self, &mut whole);
        proof {
            use_type_invariant(&whole);
        }
        let NameMap { mut entries, index } = whole;
        let mut held: V = value;
        let place = &mut entries[i];
        std::mem::swap(&mut place.1, &mut held);
        proof {
            assert(entries@[i as int].0 == old(self).entries@[i as int].0);
            assert(indexes(entries@, positions(&index)));
        }
        *self = NameMap { entries, index };
        proof {
            use_type_invariant(&*self);
            self.lemma_ordered();
            assert(self.keys() =~= old(self).keys());
            assert(self.values() =~= old(self).values().update(i as int, value));
            assert(self@ =~= old(self)@.insert(old(self).keys()[i as int], value)) by {
                assert forall|k: Seq<char>| self@.contains_key(k) implies self@[k]
                    == old(self)@.insert(old(self).keys()[i as int], value)[k] by {
                    let j = self.keys().index_of(k);
                    assert(self.keys()[j] == k);
                }
            }
        }
        held
    }

    /// Sets the value of a name. The value that it had before is handed out.
    pub fn insert(&mut self, name: ModuleName, value: V) -> (res: Option<V>)
        ensures
            final(self)@ == old(self)@.insert(name@, value),
            final(self).keys() == (if old(self)@.contains_key(name@) {
                old(self).keys()
            } else {
                old(self).keys().push(name@)
            }),
            !old(self)@.contains_key(name@) ==> final(self).values() == old(self).values().push(value),
            res == (if old(self)@.contains_key(name@) {
                Some(old(self)@[name@])
            } else {
                None
            }),
            final(self).ordered(),
    {
        match self.position(name.as_str()) {
            Some(i) => Some(self.replace_at(i, value)),
            None => {
                let mut whole: NameMap<V> = NameMap::new();
                std::mem::swap(self, &mut whole);
                proof {
                    use_type_invariant(&whole);
                    whole.lemma_ordered();
                }
                let NameMap { mut entries, mut index } = whole;
                let n: usize = entries.len();
                index_insert(&mut index, name.as_string().clone(), n);
                entries.push((name, value));
                proof {
                    let p0 = positions(&old(self).index);
                    assert(!p0.contains_key(name@));
                    assert(indexes(entries@, positions(&index)));
                }
                *self = NameMap { entries, index };
                proof {
                    use_type_invariant(&*self);
                    self.lemma_ordered();
                    assert(self.keys() =~= old(self).keys().push(name@));
                    assert(self.values() =~= old(self).values().push(value));
                    lemma_pairing_push(old(self).keys(), old(self).values(), name@, value);
                }
                None
            },
        }
    }

    /// Sets every name of another map to the value that it has there.
    pub fn extend(&mut self, other: NameMap<V>)
        ensures
            final(self)@ == old(self)@.union_prefer_right(other@),
            final(self).ordered(),
    {
        let n: usize = other.len();
        let m: usize = self.len();
        let ghost keys = other.keys();
        let ghost values = other.values();
        let ghost right = other@;
        let ghost left = self@;
        let entries: Vec<(ModuleName, V)> = other.entries;
        proof {
            assert(right.restrict(keys.take(0).to_set()) =~= Map::empty());
            assert(left.union_prefer_right(right.restrict(keys.take(0).to_set())) =~= left);
        }
        let ghost all = entries@;
        for entry in it: entries
            invariant
                n == keys.len(),
                it.seq() == all,
                all.len() == n,
                keys.no_duplicates(),
                lists(all, keys, right),
                self@ == left.union_prefer_right(right.restrict(keys.take(it.index() as int).to_set())),
                self.ordered(),
        {
            let ghost i = it.index() as int;
            let (name, value) = entry;
            let _ = self.insert(name, value);
            proof {
                assert(all[i] == entry);
                crate::name_set::lemma_take_more(keys, i);
                assert(self@ =~= left.union_prefer_right(right.restrict(keys.take(i + 1).to_set())));
            }
        }
        proof {
            assert(keys.take(n as int) =~= keys);
            assert(right.restrict(keys.to_set()) =~= right);
        }
    }

    /// Takes a name out. The last name moves to its place.
    pub fn remove(&mut self, name: &ModuleName) -> (res: Option<V>)
        ensures
            final(self)@ == old(self)@.remove(name@),
            res == (if old(self)@.contains_key(name@) {
                Some(old(self)@[name@])
            } else {
                None
            }),
            final(self).ordered(),
    {
        match self.position(name.as_str()) {
            None => {
                proof {
                    assert(old(self)@.remove(name@) =~= old(self)@);
                }
                None
            },
            Some(i) => {
                let mut whole: NameMap<V> = NameMap::new();
                std::mem::swap(self, &mut whole);
                proof {
                    use_type_invariant(&whole);
                    whole.lemma_ordered();
                }
                let NameMap { mut entries, mut index } = whole;
                let last: usize = entries.len() - 1;
                let moved: String = entries[last].0.as_string().clone();
                index_insert(&mut index, moved, i);
                index_remove(&mut index, name.as_str());
                let (_, value) = entries.swap_remove(i);
                proof {
                    let p0 = positions(&old(self).index);
                    let e0 = old(self).entries@;
                    assert(p0.contains_key(e0[last as int].0@) && p0[e0[last as int].0@] == last);
                    assert(p0.contains_key(e0[i as int].0@) && p0[e0[i as int].0@] == i);
                    assert forall|j: int| 0 <= j < entries@.len() implies (#[trigger] positions(&index).contains_key(entries@[j].0@)
                        && positions(&index)[entries@[j].0@] == j) by {
                        assert(p0.contains_key(e0[j].0@) && p0[e0[j].0@] == j);
                    }
                    assert(indexes(entries@, positions(&index)));
                }
                *self = NameMap { entries, index };
                proof {
                    use_type_invariant(&*self);
                    self.lemma_ordered();
                    assert forall|k: Seq<char>| #[trigger] self@.contains_key(k) implies self@[k]
                        == old(self)@[k] by {
                        let j = self.keys().index_of(k);
                        assert(self.keys()[j] == k);
                        if j == i {
                            assert(old(self).keys()[last as int] == k);
                        } else {
                            assert(old(self).keys()[j] == k);
                        }
                    }
                    assert(self@ =~= old(self)@.remove(name@));
                }
                Some(value)
            },
        }
    }
}

impl<V: Copy> NameMap<V> {
    /// A copy of the map.
    pub fn duplicate(&self) -> (res: NameMap<V>)
        ensures
            res@ == self@,
            res.keys() == self.keys(),
    {
        let mut res: NameMap<V> = NameMap::new();
        let n: usize = self.len();
        for i in 0..n
            invariant
                n == self.keys().len(),
                self.ordered(),
                res.ordered(),
                res.keys() == self.keys().take(i as int),
                res.values() == self.values().take(i as int),
        {
            proof {
                let key = self.keys()[i as int];
                if res@.contains_key(key) {
                    let j = res.keys().index_of(key);
                    assert(self.keys()[j] == key);
                }
                crate::name_set::lemma_take_more(self.keys(), i as int);
                crate::name_set::lemma_take_more(self.values(), i as int);
            }
            let _ = res.insert(self.key_at(i).clone(), *self.value_at(i));
        }
        proof {
            assert(self.keys().take(n as int) =~= self.keys());
            assert(self.values().take(n as int) =~= self.values());
        }
        res
    }
}

/// Entries in the strict order of their names' texts, which list a map.
pub open spec fn ascending<V>(entries: Seq<(ModuleName, V)>, map: Map<Seq<char>, V>) -> bool {
    &&& forall|i: int, j: int|
        0 <= i < j < entries.len() ==> text_less((#[trigger] entries[i]).0@, (#[trigger] entries[j]).0@)
    &&& forall|i: int|
        0 <= i < entries.len() ==> map.contains_key((#[trigger] entries[i]).0@) && map[entries[i].0@]
            == entries[i].1
    &&& forall|k: Seq<char>| #[trigger] map.contains_key(k) ==> names_of(entries).contains(k)
}

/// The names of entries.
pub open spec fn names_of<V>(entries: Seq<(ModuleName, V)>) -> Seq<Seq<char>> {
    entries.map_values(|e: (ModuleName, V)| e.0@)
}

/// The entries of a map, in the order of their names' texts.
pub fn into_sorted<V>(map: NameMap<V>) -> (res: Vec<(ModuleName, V)>)
    ensures
        ascending(res@, map@),
{
    let names = sort_names(&map.key_list());
    let ghost sorted = texts(names@);
    let ghost all = map@;
    let mut rest = map;
    let mut res: Vec<(ModuleName, V)> = Vec::new();
    proof {
        let keys = rest.keys();
        keys.to_multiset_ensures();
        sorted.to_multiset_ensures();
        assert forall|k: Seq<char>| sorted.contains(k) <==> keys.contains(k) by {
            assert(sorted.contains(k) <==> sorted.to_multiset().count(k) > 0);
            assert(keys.contains(k) <==> keys.to_multiset().count(k) > 0);
        }
        lemma_no_duplicates_by_multiset(keys, sorted);
        assert forall|i: int, j: int| 0 <= i < j < sorted.len() implies text_less(
            #[trigger] sorted[i],
            #[trigger] sorted[j],
        ) by {
            text_order_is_total(sorted[i], sorted[j]);
        }
        assert forall|k: Seq<char>| #[trigger] all.contains_key(k) <==> sorted.contains(k) by {
            if keys.contains(k) {
                let i = keys.index_of(k);
                assert(all.contains_key(keys[i]));
            }
        }
    }
    for i in 0..names.len()
        invariant
            sorted == texts(names@),
            sorted.no_duplicates(),
            forall|k: Seq<char>| #[trigger] all.contains_key(k) <==> sorted.contains(k),
            forall|k: Seq<char>| #[trigger]
                rest@.contains_key(k) <==> all.contains_key(k) && !sorted.take(i as int).contains(k),
            forall|k: Seq<char>| #[trigger] rest@.contains_key(k) ==> rest@[k] == all[k],
            names_of(res@) == sorted.take(i as int),
            forall|j: int|
                0 <= j < i ==> all.contains_key((#[trigger] res@[j]).0@) && all[res@[j].0@] == res@[j].1,
    {
        let name = names[i].clone();
        let ghost key = name@;
        proof {
            assert(sorted[i as int] == key);
            assert(sorted.contains(key));
            assert(!sorted.take(i as int).contains(key)) by {
                if sorted.take(i as int).contains(key) {
                    let j = sorted.take(i as int).index_of(key);
                    assert(sorted[j] == key);
                }
            }
            crate::name_set::lemma_take_more(sorted, i as int);
            assert(rest@.contains_key(key));
        }
        let ghost before = names_of(res@);
        if let Some(value) = rest.remove(&name) {
            res.push((name, value));
        }
        proof {
            assert(names_of(res@) =~= before.push(key));
            assert forall|k: Seq<char>| #[trigger]
                rest@.contains_key(k) <==> all.contains_key(k) && !sorted.take(i + 1).contains(k) by {
                assert(sorted.take(i + 1).to_set().contains(k) <==> sorted.take(
                    i as int,
                ).to_set().contains(k) || k == key);
            }
        }
    }
    proof {
        assert(sorted.take(sorted.len() as int) =~= sorted);
        assert(names_of(res@) == sorted);
        assert forall|i: int, j: int| 0 <= i < j < res@.len() implies text_less(
            (#[trigger] res@[i]).0@,
            (#[trigger] res@[j]).0@,
        ) by {
            assert(names_of(res@)[i] == sorted[i]);
            assert(names_of(res@)[j] == sorted[j]);
        }
    }
    res
}

/// What holds the same items as a sequence without repeats has no repeats.
pub proof fn lemma_no_duplicates_by_multiset<T>(s: Seq<T>, t: Seq<T>)
    requires
        s.no_duplicates(),
        s.to_multiset() == t.to_multiset(),
    ensures
        t.no_duplicates(),
{
    s.to_multiset_ensures();
    t.to_multiset_ensures();
    s.lemma_multiset_has_no_duplicates();
    t.lemma_multiset_has_no_duplicates_conv();
}

/// The value that each name has in the first entry that gives it one.
pub open spec fn first_values<V>(entries: Seq<(ModuleName, V)>) -> Map<Seq<char>, V>
    decreases entries.len(),
{
    if entries.len() == 0 {
        Map::empty()
    } else {
        let earlier = first_values(entries.drop_last());
        if earlier.contains_key(entries.last().0@) {
            earlier
        } else {
            earlier.insert(entries.last().0@, entries.last().1)
        }
    }
}

/// The map that gives each name the value of its first entry.
pub fn keep_first<V>(entries: Vec<(ModuleName, V)>) -> (res: NameMap<V>)
    ensures
        res@ == first_values(entries@),
{
    let mut res: NameMap<V> = NameMap::new();
    let ghost all = entries@;
    proof {
        assert(all.take(0) =~= Seq::empty());
    }
    for entry in it: entries
        invariant
            it.seq() == all,
            res@ == first_values(all.take(it.index() as int)),
    {
        let ghost i = it.index() as int;
        proof {
            assert(all.take(i + 1).drop_last() =~= all.take(i));
            assert(all.take(i + 1).last() == entry);
        }
        let (name, value) = entry;
        if !res.contains_key(&name) {
            let _ = res.insert(name, value);
        }
    }
    proof {
        assert(all.take(all.len() as int) =~= all);
    }
    res
}

/// What entries are.
pub open spec fn entry_views<V: DeepView>(entries: Seq<(ModuleName, V)>) -> Seq<(Seq<char>, V::V)> {
    entries.map_values(|e: (ModuleName, V)| (e.0@, e.1.deep_view()))
}

/// The names of a listing.
pub open spec fn listed_names<V>(s: Seq<(Seq<char>, V)>) -> Seq<Seq<char>> {
    s.map_values(|e: (Seq<char>, V)| e.0)
}

/// A listing of a map, in the strict order of the names' texts.
pub open spec fn sorted_listing<V>(s: Seq<(Seq<char>, V)>, map: Map<Seq<char>, V>) -> bool {
    &&& forall|i: int, j: int|
        0 <= i < j < s.len() ==> text_less((#[trigger] s[i]).0, (#[trigger] s[j]).0)
    &&& forall|i: int|
        0 <= i < s.len() ==> map.contains_key((#[trigger] s[i]).0) && map[s[i].0] == s[i].1
    &&& forall|k: Seq<char>| #[trigger] map.contains_key(k) ==> listed_names(s).contains(k)
}

/// Entries that list a map list what it is.
pub proof fn lemma_listing<V: DeepView>(entries: Seq<(ModuleName, V)>, map: Map<Seq<char>, V>)
    requires
        ascending(entries, map),
    ensures
        sorted_listing(entry_views(entries), map.map_values(|v: V| v.deep_view())),
{
    let s = entry_views(entries);
    let m = map.map_values(|v: V| v.deep_view());
    assert forall|k: Seq<char>| #[trigger] m.contains_key(k) implies listed_names(s).contains(k) by {
        assert(map.contains_key(k));
        assert(names_of(entries).contains(k));
        let i = names_of(entries).index_of(k);
        assert(listed_names(s)[i] == k);
    }
}

/// The value that each name has where it is first listed.
pub open spec fn first_listed<V>(s: Seq<(Seq<char>, V)>) -> Map<Seq<char>, V>
    decreases s.len(),
{
    if s.len() == 0 {
        Map::empty()
    } else {
        let earlier = first_listed(s.drop_last());
        if earlier.contains_key(s.last().0) {
            earlier
        } else {
            earlier.insert(s.last().0, s.last().1)
        }
    }
}

proof fn lemma_first_listed<V: DeepView>(entries: Seq<(ModuleName, V)>)
    ensures
        first_values(entries).map_values(|v: V| v.deep_view()) == first_listed(entry_views(entries)),
    decreases entries.len(),
{
    if entries.len() > 0 {
        lemma_first_listed(entries.drop_last());
        assert(entry_views(entries).drop_last() =~= entry_views(entries.drop_last()));
    }
    assert(first_values(entries).map_values(|v: V| v.deep_view()) =~= first_listed(
        entry_views(entries),
    ));
}

/// Entries sorted by name, where only the first entry of each name is kept.
pub fn sort_keep_first<V: DeepView>(entries: Vec<(ModuleName, V)>) -> (res: Vec<(ModuleName, V)>)
    ensures
        sorted_listing(entry_views(res@), first_listed(entry_views(entries@))),
{
    proof {
        lemma_first_listed(entries@);
    }
    let map = keep_first(entries);
    let ghost first = map@;
    let res = into_sorted(map);
    proof {
        lemma_listing(res@, first);
    }
    res
}

/// Values of which a copy can be made.
pub trait Duplicate: DeepView + Sized {
    fn make_copy(&self) -> (res: Self)
        ensures
            res.deep_view() == self.deep_view(),
    ;
}

impl Duplicate for ModuleName {
    fn make_copy(&self) -> (res: ModuleName) {
        self.clone()
    }
}

impl Duplicate for Vec<String> {
    fn make_copy(&self) -> (res: Vec<String>) {
        let mut res: Vec<String> = Vec::new();
        for i in 0..self.len()
            invariant
                res@ == self@.take(i as int),
        {
            res.push(self[i].clone());
            proof {
                crate::name_set::lemma_take_more(self@, i as int);
            }
        }
        proof {
            assert(self@.take(self@.len() as int) =~= self@);
        }
        res
    }
}

/// Copies of the entries of a map, in the order of their names' texts.
pub fn sorted_copies<V: Duplicate>(map: &NameMap<V>) -> (res: Vec<(ModuleName, V)>)
    ensures
        sorted_listing(entry_views(res@), map.deep_view()),
{
    let names = sort_names(&map.key_list());
    let ghost sorted = texts(names@);
    let mut res: Vec<(ModuleName, V)> = Vec::new();
    proof {
        let keys = map.keys();
        keys.to_multiset_ensures();
        sorted.to_multiset_ensures();
        assert forall|k: Seq<char>| sorted.contains(k) <==> keys.contains(k) by {
            assert(sorted.contains(k) <==> sorted.to_multiset().count(k) > 0);
            assert(keys.contains(k) <==> keys.to_multiset().count(k) > 0);
        }
        lemma_no_duplicates_by_multiset(keys, sorted);
        assert forall|i: int, j: int| 0 <= i < j < sorted.len() implies text_less(
            #[trigger] sorted[i],
            #[trigger] sorted[j],
        ) by {
            text_order_is_total(sorted[i], sorted[j]);
        }
        assert forall|k: Seq<char>| #[trigger] map@.contains_key(k) <==> sorted.contains(k) by {
            if keys.contains(k) {
                let i = keys.index_of(k);
                assert(map@.contains_key(keys[i]));
            }
        }
    }
    for i in 0..names.len()
        invariant
            sorted == texts(names@),
            forall|k: Seq<char>| #[trigger] map@.contains_key(k) <==> sorted.contains(k),
            res@.len() == i,
            forall|j: int|
                0 <= j < i ==> entry_views(res@)[j].0 == #[trigger] sorted[j] && entry_views(res@)[j].1
                    == map@[sorted[j]].deep_view(),
    {
        let ghost before = entry_views(res@);
        proof {
            assert(sorted[i as int] == names@[i as int]@);
            assert(sorted.contains(sorted[i as int]));
        }
        if let Some(value) = map.get(&names[i]) {
            let copy = value.make_copy();
            res.push((names[i].clone(), copy));
        }
        proof {
            assert(entry_views(res@).take(i as int) =~= before);
            assert forall|j: int| 0 <= j < i + 1 implies entry_views(res@)[j].0 == #[trigger] sorted[j]
                && entry_views(res@)[j].1 == map@[sorted[j]].deep_view() by {
                if j < i {
                    assert(entry_views(res@)[j] == before[j]);
                }
            }
        }
    }
    proof {
        let s = entry_views(res@);
        let m = map.deep_view();
        assert forall|i: int, j: int| 0 <= i < j < s.len() implies text_less(
            (#[trigger] s[i]).0,
            (#[trigger] s[j]).0,
        ) by {
            assert(s[i].0 == sorted[i] && s[j].0 == sorted[j]);
        }
        assert forall|i: int| 0 <= i < s.len() implies m.contains_key((#[trigger] s[i]).0) && m[s[i].0]
            == s[i].1 by {
            assert(s[i].0 == sorted[i]);
            assert(sorted.contains(sorted[i]));
        }
        assert forall|k: Seq<char>| #[trigger] m.contains_key(k) implies listed_names(s).contains(k) by {
            assert(map@.contains_key(k));
            let i = sorted.index_of(k);
            assert(listed_names(s)[i] == sorted[i]);
        }
    }
    res
}

/// The entries list the names and the values of a map.
spec fn lists<V>(entries: Seq<(ModuleName, V)>, keys: Seq<Seq<char>>, map: Map<Seq<char>, V>) -> bool {
    forall|i: int|
        0 <= i < entries.len() ==> (#[trigger] entries[i]).0@ == keys[i] && map.contains_key(keys[i])
            && map[keys[i]] == entries[i].1
}

/// The positions are those at which the entries' names stand, and no name occurs twice.
spec fn indexes<V>(entries: Seq<(ModuleName, V)>, p: Map<Seq<char>, usize>) -> bool {
    &&& forall|i: int|
        #![trigger entries[i]]
        0 <= i < entries.len() ==> p.contains_key(entries[i].0@) && p[entries[i].0@] == i
    &&& forall|k: Seq<char>| #[trigger]
        p.contains_key(k) ==> p[k] < entries.len() && entries[p[k] as int].0@ == k
}

proof fn lemma_pairing_push<V>(keys: Seq<Seq<char>>, values: Seq<V>, k: Seq<char>, v: V)
    requires
        keys.len() == values.len(),
        keys.no_duplicates(),
        !keys.contains(k),
    ensures
        pairing(keys.push(k), values.push(v)) == pairing(keys, values).insert(k, v),
{
    let more = keys.push(k);
    assert forall|x: Seq<char>| more.contains(x) <==> keys.contains(x) || x == k by {
        if keys.contains(x) {
            assert(more[keys.index_of(x)] == x);
        }
        if x == k {
            assert(more[keys.len() as int] == x);
        }
    }
    assert(more.no_duplicates()) by {
        assert forall|i: int, j: int| 0 <= i < more.len() && 0 <= j < more.len() && i != j implies more[i]
            != more[j] by {
            if i < keys.len() {
                assert(keys.contains(keys[i]));
            }
            if j < keys.len() {
                assert(keys.contains(keys[j]));
            }
        }
    }
    assert forall|x: Seq<char>| more.contains(x) implies pairing(more, values.push(v))[x] == pairing(
        keys,
        values,
    ).insert(k, v)[x] by {
        let i = more.index_of(x);
        assert(more[i] == x);
        if x != k {
            let j = keys.index_of(x);
            assert(keys[j] == x);
            assert(more[j] == x);
            assert(i == j);
        } else {
            assert(more[keys.len() as int] == x);
            assert(i == keys.len());
        }
    }
    assert(pairing(more, values.push(v)) =~= pairing(keys, values).insert(k, v));
}

/// A copy of a map.
pub fn copy_map<V: Duplicate>(map: &NameMap<V>) -> (res: NameMap<V>)
    ensures
        res.deep_view() == map.deep_view(),
        res.keys() == map.keys(),
{
    let mut res: NameMap<V> = NameMap::new();
    let n: usize = map.len();
    let ghost keys = map.keys();
    let ghost all = map.deep_view();
    proof {
        assert(res.deep_view().dom() =~= keys.take(0).to_set());
        assert(res.keys() =~= keys.take(0));
    }
    for i in 0..n
        invariant
            n == keys.len(),
            keys == map.keys(),
            map.ordered(),
            all == map.deep_view(),
            res.keys() == keys.take(i as int),
            res.deep_view().dom() == keys.take(i as int).to_set(),
            forall|k: Seq<char>| #[trigger]
                res.deep_view().contains_key(k) ==> res.deep_view()[k] == all[k],
    {
        let ghost before = res.deep_view();
        let value = map.value_at(i).make_copy();
        let ghost view = value.deep_view();
        let ghost k = keys[i as int];
        proof {
            crate::name_set::lemma_take_more(keys, i as int);
            assert(!keys.take(i as int).contains(k));
            assert(!res@.contains_key(k)) by {
                assert(!res.deep_view().contains_key(k));
            }
        }
        let _ = res.insert(map.key_at(i).clone(), value);
        proof {
            assert(all[k] == view);
            assert(res.deep_view() =~= before.insert(k, view));
            assert(res.deep_view().dom() =~= keys.take(i + 1).to_set());
            assert(res.keys() =~= keys.take(i + 1));
        }
    }
    proof {
        assert(keys.take(keys.len() as int) =~= keys);
        assert(keys.to_set() =~= all.dom());
        assert(res.deep_view() =~= all);
    }
    res
}

} // verus!
