//! Which failing modules a module re-exports from.

use crate::attribute::{attributes_of, AttrMap, Attribute};
use crate::cached_exports::{attribute_less, exported_attributes, holds_sources, lists_sources};
use crate::exports::{
    chain_after, chain_end_is_unique, chain_ends_at, chain_is_endless,
    chain_that_returns_is_endless, sources, Exports,
};
use crate::module_name::{text_order_is_total, ModuleName};
use crate::name_map::NameMap;
use crate::name_set::NameSet;
use crate::name_sets::{add_name, set_at, with_names, NameSets};
use crate::spread::{CachedReExport, ReExportView};
use vstd::prelude::*;

verus! {

/// A map holds, for each name, the names that it is related to, and has no empty sets.
pub open spec fn groups(
    map: Map<Seq<char>, Set<Seq<char>>>,
    relation: spec_fn(Seq<char>, Seq<char>) -> bool,
) -> bool {
    &&& forall|m: Seq<char>, s: Seq<char>| #[trigger] set_at(map, m).contains(s) <==> relation(m, s)
    &&& forall|m: Seq<char>| #[trigger] map.contains_key(m) ==> has_any(map[m])
}

/// A set is not empty.
pub open spec fn has_any(set: Set<Seq<char>>) -> bool {
    exists|x: Seq<char>| set.contains(x)
}

proof fn lemma_still_any(
    before: Map<Seq<char>, Set<Seq<char>>>,
    key: Seq<char>,
    name: Seq<char>,
)
    requires
        forall|m: Seq<char>| #[trigger] before.contains_key(m) ==> has_any(before[m]),
    ensures
        ({
            let after = with_names(before, key, set![name]);
            forall|m: Seq<char>| #[trigger] after.contains_key(m) ==> has_any(after[m])
        }),
{
    let after = with_names(before, key, set![name]);
    assert forall|m: Seq<char>| #[trigger] after.contains_key(m) implies has_any(after[m]) by {
        if m == key {
            assert(after[m].contains(name));
        } else {
            assert(before.contains_key(m));
        }
    }
}

/// The chain of re-exports from an attribute ends in a failing module.
pub open spec fn ends_in_failing(
    chain: Map<(Seq<char>, Seq<char>), (Seq<char>, Seq<char>)>,
    start: (Seq<char>, Seq<char>),
    failing: Set<Seq<char>>,
    source: Seq<char>,
) -> bool {
    failing.contains(source) && ends_in(chain, start, source)
}

/// The chain of re-exports from an attribute ends in a module.
pub open spec fn ends_in(
    chain: Map<(Seq<char>, Seq<char>), (Seq<char>, Seq<char>)>,
    start: (Seq<char>, Seq<char>),
    source: Seq<char>,
) -> bool {
    exists|end: (Seq<char>, Seq<char>)| #[trigger] chain_ends_at(chain, start, end) && end.0 == source
}

/// A module re-exports something whose chain of re-exports ends in a failing module.
pub open spec fn re_exports_failing(
    chain: Map<(Seq<char>, Seq<char>), (Seq<char>, Seq<char>)>,
    failing: Set<Seq<char>>,
    module: Seq<char>,
    source: Seq<char>,
) -> bool {
    exists|attr: Seq<char>| #[trigger]
        chain.contains_key((module, attr)) && ends_in_failing(chain, (module, attr), failing, source)
}

proof fn lemma_one_end(
    chain: Map<(Seq<char>, Seq<char>), (Seq<char>, Seq<char>)>,
    start: (Seq<char>, Seq<char>),
    end: (Seq<char>, Seq<char>),
    source: Seq<char>,
)
    requires
        chain_ends_at(chain, start, end),
    ensures
        ends_in(chain, start, source) <==> source == end.0,
{
    if ends_in(chain, start, source) {
        let other = choose|other: (Seq<char>, Seq<char>)| #[trigger]
            chain_ends_at(chain, start, other) && other.0 == source;
        chain_end_is_unique(chain, start, end, other);
    }
}

proof fn lemma_no_end(
    chain: Map<(Seq<char>, Seq<char>), (Seq<char>, Seq<char>)>,
    start: (Seq<char>, Seq<char>),
    source: Seq<char>,
)
    requires
        chain_is_endless(chain, start),
    ensures
        !ends_in(chain, start, source),
{
    if ends_in(chain, start, source) {
        let other = choose|other: (Seq<char>, Seq<char>)| #[trigger]
            chain_ends_at(chain, start, other) && other.0 == source;
        chain_end_is_unique(chain, start, other, other);
    }
}

/// The failing modules that each module re-exports from, through however many others.
pub fn build_re_export_map(exports: &Exports, failing_modules: &NameSet) -> (res: NameSets)
    ensures
        groups(
            res.deep_view(),
            |m: Seq<char>, s: Seq<char>|
                re_exports_failing(exports.deep_view().sources(), failing_modules@, m, s),
        ),
{
    let ghost chain = exports.deep_view().sources();
    let ghost failing = failing_modules@;
    let mut map: NameSets = NameMap::new();
    let re_exports = exports.get_re_exports();
    let names = re_exports.attributes();
    let ghost all = attributes_of(names@);
    proof {
        assert(chain.dom() =~= re_exports@.dom());
        assert(map.deep_view() =~= Map::empty());
    }
    for i in 0..names.len()
        invariant
            all == attributes_of(names@),
            chain == exports.deep_view().sources(),
            failing == failing_modules@,
            forall|m: Seq<char>, s: Seq<char>| #[trigger]
                set_at(map.deep_view(), m).contains(s) <==> listed_failing(chain, failing, all.take(i as int), m, s),
            forall|m: Seq<char>| #[trigger]
                map.deep_view().contains_key(m) ==> has_any(map.deep_view()[m]),
    {
        let ghost before = map.deep_view();
        let ghost here = all[i as int];
        proof {
            assert(names@[i as int]@ == here);
        }
        match exports.resolve_transitive(&names[i]) {
            Some(end) => {
                proof {
                    assert forall|s: Seq<char>| ends_in(chain, here, s) <==> s == end.module@ by {
                        lemma_one_end(chain, here, end@, s);
                    }
                }
                if failing_modules.contains(&end.module) {
                    proof {
                        lemma_still_any(before, here.0, end.module@);
                    }
                    add_name(&mut map, &names[i].module, end.module);
                }
            },
            None => {
                proof {
                    assert forall|s: Seq<char>| !ends_in(chain, here, s) by {
                        lemma_no_end(chain, here, s);
                    }
                }
            },
        }
        proof {
            assert forall|m: Seq<char>, s: Seq<char>| #[trigger]
                set_at(map.deep_view(), m).contains(s) <==> listed_failing(chain, failing, all.take(i + 1), m, s) by {
                lemma_listed_step(chain, failing, all, i as int, m, s);
                assert(set_at(before, m).contains(s) <==> listed_failing(
                    chain,
                    failing,
                    all.take(i as int),
                    m,
                    s,
                ));
            }
        }
    }
    proof {
        assert(all.take(all.len() as int) =~= all);
        assert forall|m: Seq<char>, s: Seq<char>| #[trigger]
            set_at(map.deep_view(), m).contains(s) <==> re_exports_failing(chain, failing, m, s) by {
            if re_exports_failing(chain, failing, m, s) {
                let attr = choose|attr: Seq<char>| #[trigger]
                    chain.contains_key((m, attr)) && ends_in_failing(chain, (m, attr), failing, s);
                assert(all.to_set().contains((m, attr)));
                let j = all.index_of((m, attr));
                assert(all[j].0 == m && ends_in_failing(chain, all[j], failing, s));
            }
            if listed_failing(chain, failing, all, m, s) {
                let j = choose|j: int|
                    0 <= j < all.len() && (#[trigger] all[j]).0 == m && ends_in_failing(
                        chain,
                        all[j],
                        failing,
                        s,
                    );
                assert(all.to_set().contains(all[j]));
                assert(chain.contains_key((m, all[j].1)));
            }
        }
    }
    map
}

/// One of the attributes is of the module, and its chain ends in the failing module.
spec fn listed_failing(
    chain: Map<(Seq<char>, Seq<char>), (Seq<char>, Seq<char>)>,
    failing: Set<Seq<char>>,
    attributes: Seq<(Seq<char>, Seq<char>)>,
    module: Seq<char>,
    source: Seq<char>,
) -> bool {
    exists|j: int|
        0 <= j < attributes.len() && (#[trigger] attributes[j]).0 == module && ends_in_failing(
            chain,
            attributes[j],
            failing,
            source,
        )
}

proof fn lemma_listed_step(
    chain: Map<(Seq<char>, Seq<char>), (Seq<char>, Seq<char>)>,
    failing: Set<Seq<char>>,
    all: Seq<(Seq<char>, Seq<char>)>,
    i: int,
    module: Seq<char>,
    source: Seq<char>,
)
    requires
        0 <= i < all.len(),
    ensures
        listed_failing(chain, failing, all.take(i + 1), module, source) <==> listed_failing(
            chain,
            failing,
            all.take(i),
            module,
            source,
        ) || (all[i].0 == module && ends_in_failing(chain, all[i], failing, source)),
{
    let more = all.take(i + 1);
    let fewer = all.take(i);
    if listed_failing(chain, failing, fewer, module, source) {
        let j = choose|j: int|
            0 <= j < fewer.len() && (#[trigger] fewer[j]).0 == module && ends_in_failing(
                chain,
                fewer[j],
                failing,
                source,
            );
        assert(more[j] == fewer[j]);
    }
    if all[i].0 == module && ends_in_failing(chain, all[i], failing, source) {
        assert(more[i] == all[i]);
    }
    if listed_failing(chain, failing, more, module, source) {
        let j = choose|j: int|
            0 <= j < more.len() && (#[trigger] more[j]).0 == module && ends_in_failing(
                chain,
                more[j],
                failing,
                source,
            );
        if j < i {
            assert(fewer[j] == more[j]);
        }
    }
}

/// What each re-exported attribute is imported from. Of re-exports of the same attribute, the
/// last one counts.
pub open spec fn last_sources(re_exports: Seq<ReExportView>) -> Map<
    (Seq<char>, Seq<char>),
    (Seq<char>, Seq<char>),
>
    decreases re_exports.len(),
{
    if re_exports.len() == 0 {
        Map::empty()
    } else {
        last_sources(re_exports.drop_last()).insert(
            re_exports.last().exported,
            re_exports.last().imported,
        )
    }
}

/// A cached re-export of the module has a chain that ends in the failing module.
pub open spec fn cached_failing(
    re_exports: Seq<ReExportView>,
    chain: Map<(Seq<char>, Seq<char>), (Seq<char>, Seq<char>)>,
    failing: Set<Seq<char>>,
    module: Seq<char>,
    source: Seq<char>,
) -> bool {
    exists|i: int|
        0 <= i < re_exports.len() && (#[trigger] re_exports[i]).exported.0 == module && ends_in_failing(
            chain,
            re_exports[i].imported,
            failing,
            source,
        )
}

/// The chain of re-exports that starts at some place of another chain.
proof fn lemma_chain_shift<A>(map: Map<A, A>, start: A, k: nat, n: nat)
    requires
        chain_after(map, start, k) is Some,
    ensures
        chain_after(map, chain_after(map, start, k)->0, n) == chain_after(map, start, k + n),
    decreases n,
{
    if n > 0 {
        lemma_chain_shift(map, start, k, (n - 1) as nat);
    }
}

/// What is known of where the chains of some attributes end: the module, or that there is no end.
spec fn remembers(
    memo: Map<(Seq<char>, Seq<char>), Option<ModuleName>>,
    chain: Map<(Seq<char>, Seq<char>), (Seq<char>, Seq<char>)>,
) -> bool {
    forall|a: (Seq<char>, Seq<char>)| #[trigger]
        memo.contains_key(a) ==> is_outcome(chain, a, memo[a])
}

/// Where the chain of an attribute ends: the module, or that there is no end.
spec fn is_outcome(
    chain: Map<(Seq<char>, Seq<char>), (Seq<char>, Seq<char>)>,
    a: (Seq<char>, Seq<char>),
    outcome: Option<ModuleName>,
) -> bool {
    match outcome {
        Some(m) => ends_in(chain, a, m@),
        None => chain_is_endless(chain, a),
    }
}

/// Where a chain ends, every chain ends that leads to it.
proof fn lemma_outcome_before(
    chain: Map<(Seq<char>, Seq<char>), (Seq<char>, Seq<char>)>,
    start: (Seq<char>, Seq<char>),
    k: nat,
    outcome: Option<ModuleName>,
)
    requires
        chain_after(chain, start, k) is Some,
        is_outcome(chain, chain_after(chain, start, k)->0, outcome),
    ensures
        is_outcome(chain, start, outcome),
{
    let there = chain_after(chain, start, k)->0;
    match outcome {
        Some(m) => {
            let end = choose|end: (Seq<char>, Seq<char>)| #[trigger]
                chain_ends_at(chain, there, end) && end.0 == m@;
            let n = choose|n: nat| #[trigger] chain_after(chain, there, n) == Some(end);
            lemma_chain_shift(chain, start, k, n);
            assert(chain_after(chain, start, k + n) == Some(end));
            assert(chain_ends_at(chain, start, end));
        },
        None => {
            assert forall|n: nat| #[trigger] chain_after(chain, start, n) is Some by {
                if n >= k {
                    lemma_chain_shift(chain, start, k, (n - k) as nat);
                    assert(chain_after(chain, there, (n - k) as nat) is Some);
                } else {
                    lemma_some_before(chain, start, n, k);
                }
            }
        },
    }
}

proof fn lemma_some_before<A>(map: Map<A, A>, start: A, n: nat, k: nat)
    requires
        n <= k,
        chain_after(map, start, k) is Some,
    ensures
        chain_after(map, start, n) is Some,
    decreases k - n,
{
    if n < k {
        lemma_some_before(map, start, n + 1, k);
    }
}

/// A copy of an outcome.
fn copy_outcome(outcome: &Option<ModuleName>) -> (res: Option<ModuleName>)
    ensures
        res == *outcome,
{
    match outcome {
        Some(m) => Some(m.clone()),
        None => None,
    }
}

/// Follows a chain of re-exports to the module in which it ends. A chain that goes round has no
/// end. What is found is remembered for every attribute on the way.
fn resolve_reexport_chain(
    start: &Attribute,
    chain: &AttrMap<Attribute>,
    memo: &mut AttrMap<Option<ModuleName>>,
) -> (res: Option<ModuleName>)
    requires
        chain@.dom().finite(),
        remembers(old(memo)@, chain@.map_values(|a: Attribute| a@)),
    ensures
        remembers(final(memo)@, chain@.map_values(|a: Attribute| a@)),
        is_outcome(chain@.map_values(|a: Attribute| a@), start@, res),
{
    let ghost map = chain@.map_values(|a: Attribute| a@);
    let mut path: Vec<Attribute> = Vec::new();
    let mut visited: AttrMap<()> = AttrMap::new();
    let mut current = start.clone();
    let mut result: Option<ModuleName> = None;
    let mut going = true;
    proof {
        assert(map.dom() =~= chain@.dom());
    }
    while going
        invariant
            map == chain@.map_values(|a: Attribute| a@),
            map.dom().finite(),
            map.dom() == chain@.dom(),
            remembers(memo@, map),
            chain_after(map, start@, path@.len() as nat) == Some(current@),
            forall|k: int|
                0 <= k < path@.len() ==> chain_after(map, start@, k as nat) == Some((#[trigger] path@[k])@)
                    && visited@.contains_key(path@[k]@),
            visited@.dom().subset_of(map.dom()),
            forall|a: (Seq<char>, Seq<char>)| #[trigger]
                visited@.contains_key(a) ==> exists|k: int|
                    0 <= k < path@.len() && (#[trigger] path@[k])@ == a,
            !going ==> is_outcome(map, current@, result),
        decreases (if going { 1int } else { 0int }), map.dom().len() - visited@.dom().len(),
    {
        if let Some(known) = memo.get(&current) {
            result = copy_outcome(known);
            going = false;
        } else if visited.contains_key(&current) {
            proof {
                let k = choose|k: int| 0 <= k < path@.len() && (#[trigger] path@[k])@ == current@;
                chain_that_returns_is_endless(map, start@, k as nat, path@.len() as nat);
                assert forall|n: nat| #[trigger] chain_after(map, current@, n) is Some by {
                    lemma_chain_shift(map, start@, path@.len() as nat, n);
                    assert(chain_after(map, start@, (path@.len() + n) as nat) is Some);
                }
            }
            result = None;
            going = false;
        } else {
            match chain.get(&current) {
                None => {
                    proof {
                        assert(chain_after(map, current@, 0) == Some(current@));
                        assert(chain_ends_at(map, current@, current@));
                    }
                    result = Some(current.module.clone());
                    going = false;
                },
                Some(next) => {
                    let next = next.clone();
                    let ghost before = visited@;
                    let ghost old_path = path@;
                    let ghost here = current@;
                    proof {
                        assert(map.contains_key(here));
                        assert(chain_after(map, start@, (path@.len() + 1) as nat) == Some(next@));
                    }
                    visited.insert(current.clone(), ());
                    path.push(current);
                    current = next;
                    proof {
                        assert(visited@.dom() =~= before.dom().insert(here));
                        vstd::set_lib::lemma_len_subset(before.dom(), map.dom());
                        vstd::set_lib::lemma_len_subset(visited@.dom(), map.dom());
                        assert forall|k: int| 0 <= k < path@.len() implies chain_after(
                            map,
                            start@,
                            k as nat,
                        ) == Some((#[trigger] path@[k])@) && visited@.contains_key(path@[k]@) by {
                            if k < old_path.len() {
                                assert(path@[k] == old_path[k]);
                            }
                        }
                        assert forall|a: (Seq<char>, Seq<char>)| #[trigger]
                            visited@.contains_key(a) implies exists|k: int|
                            0 <= k < path@.len() && (#[trigger] path@[k])@ == a by {
                            if a == here {
                                assert(path@[old_path.len() as int]@ == a);
                            } else {
                                let k = choose|k: int|
                                    0 <= k < old_path.len() && (#[trigger] old_path[k])@ == a;
                                assert(path@[k]@ == a);
                            }
                        }
                    }
                },
            }
        }
    }
    let ghost n = path@.len() as nat;
    proof {
        lemma_outcome_before(map, start@, n, result);
    }
    for k in 0..path.len()
        invariant
            n == path@.len(),
            chain_after(map, start@, n) == Some(current@),
            is_outcome(map, current@, result),
            forall|k: int|
                0 <= k < path@.len() ==> chain_after(map, start@, k as nat) == Some((#[trigger] path@[k])@),
            remembers(memo@, map),
    {
        let ghost before = memo@;
        let ghost here = path@[k as int]@;
        proof {
            lemma_chain_shift(map, start@, k as nat, (n - k) as nat);
            assert(chain_after(map, here, (n - k) as nat) == Some(current@));
            lemma_outcome_before(map, here, (n - k) as nat, result);
        }
        memo.insert(path[k].clone(), copy_outcome(&result));
        proof {
            assert forall|a: (Seq<char>, Seq<char>)| #[trigger] memo@.contains_key(a) implies is_outcome(
                map,
                a,
                memo@[a],
            ) by {
                if a != here {
                    assert(before.contains_key(a));
                }
            }
        }
    }
    result
}

/// The failing modules that each module re-exports from, through however many others, as far as
/// caches know.
pub fn build_re_export_map_from_cache(re_exports: &Vec<CachedReExport>, failing_modules: &NameSet) -> (res:
    NameSets)
    ensures
        groups(
            res.deep_view(),
            |m: Seq<char>, s: Seq<char>|
                cached_failing(
                    re_exports.deep_view(),
                    last_sources(re_exports.deep_view()),
                    failing_modules@,
                    m,
                    s,
                ),
        ),
{
    let ghost views = re_exports.deep_view();
    let ghost failing = failing_modules@;
    let mut chain: AttrMap<Attribute> = AttrMap::new();
    proof {
        assert(views.take(0) =~= Seq::empty());
        assert(chain@.map_values(|a: Attribute| a@) =~= Map::empty());
        assert(chain@.dom() =~= Set::empty());
    }
    for i in 0..re_exports.len()
        invariant
            views == re_exports.deep_view(),
            chain@.map_values(|a: Attribute| a@) == last_sources(views.take(i as int)),
            chain@.dom().finite(),
    {
        let re = &re_exports[i];
        let ghost before = chain@;
        let exported = Attribute {
            module: re.exported_module.clone(),
            attr: re.exported_attr.clone(),
        };
        let imported = Attribute {
            module: re.imported_module.clone(),
            attr: re.imported_attr.clone(),
        };
        let ghost e = exported@;
        let ghost t = imported@;
        chain.insert(exported, imported);
        proof {
            assert(views.take(i + 1).drop_last() =~= views.take(i as int));
            assert(views.take(i + 1).last() == re.deep_view());
            assert(chain@.dom() =~= before.dom().insert(e));
            assert(chain@.map_values(|a: Attribute| a@) =~= before.map_values(|a: Attribute| a@).insert(
                e,
                t,
            ));
        }
    }
    let ghost links = last_sources(views);
    proof {
        assert(views.take(views.len() as int) =~= views);
    }
    let mut memo: AttrMap<Option<ModuleName>> = AttrMap::new();
    let mut map: NameSets = NameMap::new();
    proof {
        assert(map.deep_view() =~= Map::empty());
    }
    for i in 0..re_exports.len()
        invariant
            views == re_exports.deep_view(),
            links == chain@.map_values(|a: Attribute| a@),
            chain@.dom().finite(),
            failing == failing_modules@,
            remembers(memo@, links),
            forall|m: Seq<char>, s: Seq<char>| #[trigger]
                set_at(map.deep_view(), m).contains(s) <==> cached_failing(
                    views.take(i as int),
                    links,
                    failing,
                    m,
                    s,
                ),
            forall|m: Seq<char>| #[trigger]
                map.deep_view().contains_key(m) ==> has_any(map.deep_view()[m]),
    {
        let re = &re_exports[i];
        let ghost before = map.deep_view();
        let imported = Attribute {
            module: re.imported_module.clone(),
            attr: re.imported_attr.clone(),
        };
        let ghost here = views[i as int];
        proof {
            assert(here == re.deep_view());
        }
        match resolve_reexport_chain(&imported, &chain, &mut memo) {
            Some(source) => {
                proof {
                    let end = choose|end: (Seq<char>, Seq<char>)| #[trigger]
                        chain_ends_at(links, here.imported, end) && end.0 == source@;
                    assert forall|s: Seq<char>| ends_in(links, here.imported, s) <==> s == source@ by {
                        lemma_one_end(links, here.imported, end, s);
                    }
                }
                if failing_modules.contains(&source) {
                    proof {
                        lemma_still_any(before, here.exported.0, source@);
                    }
                    add_name(&mut map, &re.exported_module, source);
                }
            },
            None => {
                proof {
                    assert forall|s: Seq<char>| !ends_in(links, here.imported, s) by {
                        lemma_no_end(links, here.imported, s);
                    }
                }
            },
        }
        proof {
            assert forall|m: Seq<char>, s: Seq<char>| #[trigger]
                set_at(map.deep_view(), m).contains(s) <==> cached_failing(
                    views.take(i + 1),
                    links,
                    failing,
                    m,
                    s,
                ) by {
                lemma_cached_step(views, links, failing, i as int, m, s);
                assert(set_at(before, m).contains(s) <==> cached_failing(
                    views.take(i as int),
                    links,
                    failing,
                    m,
                    s,
                ));
            }
        }
    }
    map
}

proof fn lemma_cached_step(
    all: Seq<ReExportView>,
    chain: Map<(Seq<char>, Seq<char>), (Seq<char>, Seq<char>)>,
    failing: Set<Seq<char>>,
    i: int,
    module: Seq<char>,
    source: Seq<char>,
)
    requires
        0 <= i < all.len(),
    ensures
        cached_failing(all.take(i + 1), chain, failing, module, source) <==> cached_failing(
            all.take(i),
            chain,
            failing,
            module,
            source,
        ) || (all[i].exported.0 == module && ends_in_failing(chain, all[i].imported, failing, source)),
{
    let more = all.take(i + 1);
    let fewer = all.take(i);
    if cached_failing(fewer, chain, failing, module, source) {
        let j = choose|j: int|
            0 <= j < fewer.len() && (#[trigger] fewer[j]).exported.0 == module && ends_in_failing(
                chain,
                fewer[j].imported,
                failing,
                source,
            );
        assert(more[j] == fewer[j]);
    }
    if all[i].exported.0 == module && ends_in_failing(chain, all[i].imported, failing, source) {
        assert(more[i] == all[i]);
    }
    if cached_failing(more, chain, failing, module, source) {
        let j = choose|j: int|
            0 <= j < more.len() && (#[trigger] more[j]).exported.0 == module && ends_in_failing(
                chain,
                more[j].imported,
                failing,
                source,
            );
        if j < i {
            assert(fewer[j] == more[j]);
        }
    }
}

/// Re-exports that are listed once each are mapped as they are listed.
proof fn lemma_listed_once(re_exports: Seq<ReExportView>, i: int)
    requires
        0 <= i < re_exports.len(),
        exported_attributes(re_exports).no_duplicates(),
    ensures
        last_sources(re_exports).contains_key(re_exports[i].exported),
        last_sources(re_exports)[re_exports[i].exported] == re_exports[i].imported,
    decreases re_exports.len(),
{
    if i < re_exports.len() - 1 {
        let last = re_exports.len() - 1;
        let attributes = exported_attributes(re_exports);
        assert(attributes[i] == re_exports[i].exported && attributes[last] == re_exports[last].exported);
        assert(exported_attributes(re_exports.drop_last()) =~= attributes.drop_last());
        lemma_listed_once(re_exports.drop_last(), i);
    }
}

/// What is mapped was listed.
proof fn lemma_mapped_is_listed(re_exports: Seq<ReExportView>, a: (Seq<char>, Seq<char>)) -> (i: int)
    requires
        last_sources(re_exports).contains_key(a),
    ensures
        0 <= i < re_exports.len(),
        re_exports[i].exported == a,
    decreases re_exports.len(),
{
    if re_exports.last().exported == a {
        re_exports.len() - 1
    } else {
        lemma_mapped_is_listed(re_exports.drop_last(), a)
    }
}

/// The chain of re-exports ends where it does after its first step.
proof fn lemma_first_step(
    chain: Map<(Seq<char>, Seq<char>), (Seq<char>, Seq<char>)>,
    start: (Seq<char>, Seq<char>),
    source: Seq<char>,
)
    requires
        chain.contains_key(start),
    ensures
        ends_in(chain, start, source) <==> ends_in(chain, chain[start], source),
{
    assert(chain_after(chain, start, 0) == Some(start));
    assert(chain_after(chain, start, 1) == Some(chain[start]));
    if ends_in(chain, start, source) {
        let end = choose|end: (Seq<char>, Seq<char>)| #[trigger]
            chain_ends_at(chain, start, end) && end.0 == source;
        let n = choose|n: nat| #[trigger] chain_after(chain, start, n) == Some(end);
        assert(n > 0);
        lemma_chain_shift(chain, start, 1, (n - 1) as nat);
        assert(chain_after(chain, chain[start], (n - 1) as nat) == Some(end));
        assert(chain_ends_at(chain, chain[start], end));
    }
    if ends_in(chain, chain[start], source) {
        let end = choose|end: (Seq<char>, Seq<char>)| #[trigger]
            chain_ends_at(chain, chain[start], end) && end.0 == source;
        let n = choose|n: nat| #[trigger] chain_after(chain, chain[start], n) == Some(end);
        lemma_chain_shift(chain, start, 1, n);
        assert(chain_after(chain, start, 1 + n) == Some(end));
        assert(chain_ends_at(chain, start, end));
    }
}

/// A listing in the strict order of the attributes holds each of them once.
pub proof fn ordered_re_exports_are_listed_once(
    re_exports: Seq<ReExportView>,
    chain: Map<(Seq<char>, Seq<char>), (Seq<char>, Seq<char>)>,
)
    requires
        lists_sources(re_exports, chain),
    ensures
        holds_sources(re_exports, chain),
{
    let attributes = exported_attributes(re_exports);
    assert forall|i: int, j: int| 0 <= i < attributes.len() && 0 <= j < attributes.len() && i != j implies
        attributes[i] != attributes[j] by {
        let a = if i < j { i } else { j };
        let b = if i < j { j } else { i };
        assert(attribute_less(re_exports[a].exported, re_exports[b].exported));
        text_order_is_total(re_exports[a].exported.0, re_exports[b].exported.0);
        text_order_is_total(re_exports[a].exported.1, re_exports[b].exported.1);
    }
}

/// What a cache lists of the re-exports, each of them once, leads to the same failing modules as the
/// re-exports themselves.
pub proof fn cached_re_exports_lead_to_the_same(
    re_exports: Seq<ReExportView>,
    chain: Map<(Seq<char>, Seq<char>), (Seq<char>, Seq<char>)>,
    failing: Set<Seq<char>>,
    module: Seq<char>,
    source: Seq<char>,
)
    requires
        holds_sources(re_exports, chain),
    ensures
        last_sources(re_exports) == chain,
        cached_failing(re_exports, last_sources(re_exports), failing, module, source) <==> re_exports_failing(
            chain,
            failing,
            module,
            source,
        ),
{
    let mapped = last_sources(re_exports);
    assert forall|a: (Seq<char>, Seq<char>)| mapped.contains_key(a) <==> chain.contains_key(a) by {
        if mapped.contains_key(a) {
            let i = lemma_mapped_is_listed(re_exports, a);
            assert(chain.contains_key(re_exports[i].exported));
        }
        if chain.contains_key(a) {
            assert(exported_attributes(re_exports).contains(a));
            let i = exported_attributes(re_exports).index_of(a);
            lemma_listed_once(re_exports, i);
        }
    }
    assert forall|a: (Seq<char>, Seq<char>)| mapped.contains_key(a) implies #[trigger] mapped[a] == chain[a] by {
        let i = lemma_mapped_is_listed(re_exports, a);
        lemma_listed_once(re_exports, i);
    }
    assert(mapped =~= chain);
    if cached_failing(re_exports, chain, failing, module, source) {
        let i = choose|i: int|
            0 <= i < re_exports.len() && (#[trigger] re_exports[i]).exported.0 == module
                && ends_in_failing(chain, re_exports[i].imported, failing, source);
        let start = re_exports[i].exported;
        lemma_first_step(chain, start, source);
        assert(chain.contains_key((module, start.1)));
        assert(ends_in_failing(chain, (module, start.1), failing, source));
    }
    if re_exports_failing(chain, failing, module, source) {
        let attr = choose|attr: Seq<char>| #[trigger]
            chain.contains_key((module, attr)) && ends_in_failing(chain, (module, attr), failing, source);
        let i = lemma_mapped_is_listed(re_exports, (module, attr));
        lemma_first_step(chain, (module, attr), source);
        assert(re_exports[i].exported.0 == module);
        assert(ends_in_failing(chain, re_exports[i].imported, failing, source));
    }
}

} // verus!
