//! Maps from names to sets of names.

use crate::module_name::{texts, ModuleName};
use crate::name_map::NameMap;
use crate::name_set::NameSet;
use vstd::prelude::*;

verus! {

/// A map from names to sets of names.
pub type NameSets = NameMap<NameSet>;

/// The set under a key, or nothing.
pub open spec fn set_at(map: Map<Seq<char>, Set<Seq<char>>>, key: Seq<char>) -> Set<Seq<char>> {
    if map.contains_key(key) {
        map[key]
    } else {
        Set::empty()
    }
}

/// A map with names added to the set under a key, which gets an entry in any case.
pub open spec fn with_names(
    map: Map<Seq<char>, Set<Seq<char>>>,
    key: Seq<char>,
    names: Set<Seq<char>>,
) -> Map<Seq<char>, Set<Seq<char>>> {
    map.insert(key, set_at(map, key).union(names))
}

/// Adds a name to the set under a key.
pub fn add_name(map: &mut NameSets, key: &ModuleName, name: ModuleName)
    ensures
        final(map).deep_view() == with_names(old(map).deep_view(), key@, set![name@]),
        final(map).ordered(),
{
    let mut one = NameSet::new();
    let _ = one.insert(name);
    proof {
        assert(one@ =~= set![name@]);
    }
    add_names(map, key, &one);
}

/// Adds names to the set under a key.
pub fn add_names(map: &mut NameSets, key: &ModuleName, names: &NameSet)
    ensures
        final(map).deep_view() == with_names(old(map).deep_view(), key@, names@),
        final(map).ordered(),
{
    match map.position(key.as_str()) {
        Some(i) => {
            let mut set: NameSet = map.replace_at(i, NameSet::new());
            set.extend(names);
            let _ = map.replace_at(i, set);
        },
        None => {
            let set = names.clone();
            proof {
                assert(Set::<Seq<char>>::empty().union(names@) =~= names@);
            }
            let _ = map.insert(key.clone(), set);
        },
    }
    proof {
        assert(map.deep_view() =~= with_names(old(map).deep_view(), key@, names@));
    }
}

/// The set of the names in a list.
pub fn set_of(names: &Vec<ModuleName>) -> (res: NameSet)
    ensures
        res@ == texts(names@).to_set(),
{
    let mut res = NameSet::new();
    let ghost all = texts(names@);
    proof {
        assert(res@ =~= all.take(0).to_set());
    }
    for i in 0..names.len()
        invariant
            all == texts(names@),
            res@ == all.take(i as int).to_set(),
    {
        let _ = res.insert(names[i].clone());
        proof {
            crate::name_set::lemma_take_more(all, i as int);
        }
    }
    proof {
        assert(all.take(all.len() as int) =~= all);
    }
    res
}

/// The set under a key.
pub fn names_at<'a>(map: &'a NameSets, key: &ModuleName) -> (res: Option<&'a NameSet>)
    ensures
        match res {
            Some(set) => map.deep_view().contains_key(key@) && map.deep_view()[key@] == set@,
            None => !map.deep_view().contains_key(key@),
        },
{
    map.get(key)
}

/// What a list of pairs of names is.
pub open spec fn pair_views(pairs: Seq<(ModuleName, ModuleName)>) -> Seq<(Seq<char>, Seq<char>)> {
    pairs.map_values(|p: (ModuleName, ModuleName)| (p.0@, p.1@))
}

/// A map from names to sets of names as a set of pairs.
pub open spec fn pair_set(map: Map<Seq<char>, Set<Seq<char>>>) -> Set<(Seq<char>, Seq<char>)> {
    Set::new(|p: (Seq<char>, Seq<char>)| set_at(map, p.0).contains(p.1))
}

/// Lists the pairs of a key and a name in the set under it.
pub fn pairs_of(map: &NameSets) -> (res: Vec<(ModuleName, ModuleName)>)
    ensures
        pair_views(res@).to_set() == pair_set(map.deep_view()),
{
    let mut res: Vec<(ModuleName, ModuleName)> = Vec::new();
    let n: usize = map.len();
    let ghost keys = map.keys();
    let ghost view = map.deep_view();
    for i in 0..n
        invariant
            n == keys.len(),
            keys == map.keys(),
            view == map.deep_view(),
            map.ordered(),
            forall|p: (Seq<char>, Seq<char>)| #[trigger]
                pair_views(res@).contains(p) <==> keys.take(i as int).contains(p.0) && set_at(
                    view,
                    p.0,
                ).contains(p.1),
    {
        let key = map.key_at(i);
        let set = map.value_at(i);
        let m: usize = set.len();
        let ghost before = pair_views(res@);
        let ghost items = set.items();
        let ghost k = keys[i as int];
        proof {
            crate::name_set::lemma_take_more(keys, i as int);
            assert(set_at(view, k) == set@);
        }
        for j in 0..m
            invariant
                m == items.len(),
                items == set.items(),
                k == key@,
                forall|p: (Seq<char>, Seq<char>)| #[trigger]
                    pair_views(res@).contains(p) <==> before.contains(p) || (p.0 == k && items.take(
                        j as int,
                    ).contains(p.1)),
        {
            let ghost so_far = pair_views(res@);
            let name = set.at(j);
            let ghost new = (k, name@);
            res.push((key.clone(), name));
            proof {
                crate::name_set::lemma_take_more(items, j as int);
                let now = pair_views(res@);
                assert(now =~= so_far.push(new));
                assert forall|p: (Seq<char>, Seq<char>)| #[trigger]
                    now.contains(p) <==> before.contains(p) || (p.0 == k && items.take(j + 1).contains(p.1)) by {
                    assert(items.take(j + 1).to_set().contains(p.1) <==> items.take(
                        j as int,
                    ).to_set().contains(p.1) || p.1 == new.1);
                    assert(so_far.contains(p) <==> before.contains(p) || (p.0 == k && items.take(
                        j as int,
                    ).contains(p.1)));
                    assert(now[so_far.len() as int] == new);
                    if so_far.contains(p) {
                        assert(now[so_far.index_of(p)] == p);
                    }
                    if now.contains(p) {
                        let x = now.index_of(p);
                        if x < so_far.len() {
                            assert(so_far[x] == p);
                        }
                    }
                }
            }
        }
        proof {
            assert(items.take(m as int) =~= items);
            assert forall|p: (Seq<char>, Seq<char>)| #[trigger]
                pair_views(res@).contains(p) <==> keys.take(i + 1).contains(p.0) && set_at(
                    view,
                    p.0,
                ).contains(p.1) by {
                assert(keys.take(i + 1).to_set().contains(p.0) <==> keys.take(
                    i as int,
                ).to_set().contains(p.0) || p.0 == k);
                assert(before.contains(p) <==> keys.take(i as int).contains(p.0) && set_at(
                    view,
                    p.0,
                ).contains(p.1));
                assert(items.contains(p.1) <==> set@.contains(p.1));
            }
        }
    }
    proof {
        assert(keys.take(n as int) =~= keys);
        assert forall|p: (Seq<char>, Seq<char>)|
            pair_views(res@).to_set().contains(p) <==> pair_set(view).contains(p) by {
            if set_at(view, p.0).contains(p.1) {
                assert(map@.contains_key(p.0));
                assert(keys.contains(p.0));
            }
        }
        assert(pair_views(res@).to_set() =~= pair_set(view));
    }
    res
}

} // verus!
