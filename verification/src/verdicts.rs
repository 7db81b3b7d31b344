//! Verdicts on functions, and how they follow from each other.

use crate::attribute::{attributes_of, lemma_push_new, AttrMap, Attribute};
use crate::imports::{parent_dot, split_at_known};
use crate::module_name::{before_first_dot, dotted, first_dot, ModuleName};
use crate::module_safety::{
    CandidateView, FunctionInfoView, FunctionSafety, FunctionSafetyInfo, MutationCandidate,
    MutationCandidateSite, SiteView,
};
use crate::name_set::NameSet;
use vstd::prelude::*;

verus! {

/// What is known of functions, by module and by name in the module.
pub type FunctionTable = AttrMap<FunctionSafetyInfo>;

/// What a [`FunctionTable`] is.
pub type Verdicts = Map<(Seq<char>, Seq<char>), FunctionInfoView>;

/// What a [`FunctionTable`] is.
pub open spec fn verdicts(table: &FunctionTable) -> Verdicts {
    table@.map_values(|i: FunctionSafetyInfo| i.deep_view())
}

/// A function is known to be safe.
pub open spec fn safe_at(table: Verdicts, module: Seq<char>, name: Seq<char>) -> bool {
    table.contains_key((module, name)) && table[(module, name)].verdict == FunctionSafety::Safe
}

/// A name in a module is that of a safe function, or lies in something safe: what stands before
/// its first dot.
pub open spec fn safe_in_module(table: Verdicts, module: Seq<char>, local: Seq<char>) -> bool {
    ||| safe_at(table, module, local)
    ||| (first_dot(local) >= 0 && safe_at(table, module, local.take(first_dot(local))))
}

/// A call is verified to be safe. Where some parent of the callee's name is a module, the longest
/// such parent decides; else it is as `otherwise` says.
pub open spec fn verified(
    name: Seq<char>,
    modules: Set<Seq<char>>,
    table: Verdicts,
    otherwise: bool,
) -> bool {
    let d = parent_dot(name, modules);
    if d >= 0 {
        safe_in_module(table, name.take(d), name.skip(d + 1))
    } else {
        otherwise
    }
}

/// Some of the modules has a safe function of the given name.
pub open spec fn safe_somewhere(name: Seq<char>, modules: Set<Seq<char>>, table: Verdicts) -> bool {
    exists|m: Seq<char>| #[trigger] modules.contains(m) && safe_at(table, m, name)
}

/// The names of the safe functions of some modules.
pub open spec fn safe_names(modules: Set<Seq<char>>, table: Verdicts) -> Set<Seq<char>> {
    Set::new(|n: Seq<char>| safe_somewhere(n, modules, table))
}

fn is_safe_at(table: &FunctionTable, module: &ModuleName, name: &str) -> (res: bool)
    ensures
        res == safe_at(verdicts(table), module@, name@),
{
    match table.get_in(module, name) {
        Some(info) => info.verdict == FunctionSafety::Safe,
        None => false,
    }
}

/// Whether a name in a module is that of a safe function, or lies in something safe.
pub fn lookup_in_safety_map(local_name: &str, module: &ModuleName, table: &FunctionTable) -> (res: bool)
    ensures
        res == safe_in_module(verdicts(table), module@, local_name@),
{
    if is_safe_at(table, module, local_name) {
        return true;
    }
    match before_first_dot(local_name) {
        Some(prefix) => is_safe_at(table, module, prefix.as_str()),
        None => false,
    }
}

/// Whether a call is verified to be safe. A name that lies in none of the modules is looked for in
/// all of them.
pub fn is_call_verified_safe(
    func_name: &str,
    resolved_modules: &NameSet,
    func_safety_by_module: &FunctionTable,
) -> (res: bool)
    ensures
        res == verified(
            func_name@,
            resolved_modules@,
            verdicts(func_safety_by_module),
            safe_somewhere(func_name@, resolved_modules@, verdicts(func_safety_by_module)),
        ),
{
    let fqn = ModuleName::from_str(func_name);
    if let Some((parent, local_name)) = split_at_known(&fqn, resolved_modules) {
        return lookup_in_safety_map(local_name.as_str(), &parent, func_safety_by_module);
    }
    let n: usize = resolved_modules.len();
    for i in 0..n
        invariant
            n == resolved_modules.items().len(),
            parent_dot(func_name@, resolved_modules@) < 0,
            forall|j: int|
                0 <= j < i ==> !safe_at(
                    verdicts(func_safety_by_module),
                    #[trigger] resolved_modules.items()[j],
                    func_name@,
                ),
    {
        if is_safe_at(func_safety_by_module, &resolved_modules.at(i), func_name) {
            return true;
        }
    }
    proof {
        assert forall|m: Seq<char>| #[trigger] resolved_modules@.contains(m) implies !safe_at(
            verdicts(func_safety_by_module),
            m,
            func_name@,
        ) by {
            let j = resolved_modules.items().index_of(m);
            assert(resolved_modules.items()[j] == m);
        }
    }
    false
}

/// Whether a call is verified to be safe. A name that lies in none of the modules is looked for in
/// an index of safe names.
pub fn is_call_verified_safe_indexed(
    func_name: &str,
    resolved_modules: &NameSet,
    func_safety_by_module: &FunctionTable,
    globally_safe_funcs: &NameSet,
) -> (res: bool)
    ensures
        res == verified(
            func_name@,
            resolved_modules@,
            verdicts(func_safety_by_module),
            globally_safe_funcs@.contains(func_name@),
        ),
{
    let fqn = ModuleName::from_str(func_name);
    match split_at_known(&fqn, resolved_modules) {
        Some((parent, local_name)) => lookup_in_safety_map(
            local_name.as_str(),
            &parent,
            func_safety_by_module,
        ),
        None => globally_safe_funcs.contains_str(func_name),
    }
}

/// A lookup in the index of safe names comes to the same as a search of all modules.
pub proof fn index_stands_for_search(name: Seq<char>, modules: Set<Seq<char>>, table: Verdicts)
    ensures
        verified(name, modules, table, safe_names(modules, table).contains(name)) == verified(
            name,
            modules,
            table,
            safe_somewhere(name, modules, table),
        ),
{
}

/// A function may be promoted: it is unsafe only for want of its callees, some are on record, and
/// all of them are verified.
pub open spec fn promotable(
    info: FunctionInfoView,
    modules: Set<Seq<char>>,
    table: Verdicts,
    index: Set<Seq<char>>,
) -> bool {
    &&& info.verdict == FunctionSafety::UnsafeMissingDep
    &&& !(info.missing_dep_callees =~= Set::empty())
    &&& forall|c: Seq<char>| #[trigger]
        info.missing_dep_callees.contains(c) ==> verified(c, modules, table, index.contains(c))
}

/// Whether a function may be promoted.
pub fn can_promote_missing_dep_function(
    info: &FunctionSafetyInfo,
    module_names: &NameSet,
    func_safety_by_module: &FunctionTable,
    globally_safe_funcs: &NameSet,
) -> (res: bool)
    ensures
        res == promotable(
            info.deep_view(),
            module_names@,
            verdicts(func_safety_by_module),
            globally_safe_funcs@,
        ),
{
    if info.verdict != FunctionSafety::UnsafeMissingDep || info.missing_dep_callees.is_empty() {
        return false;
    }
    let n: usize = info.missing_dep_callees.len();
    for i in 0..n
        invariant
            n == info.missing_dep_callees.items().len(),
            forall|j: int|
                0 <= j < i ==> verified(
                    #[trigger] info.missing_dep_callees.items()[j],
                    module_names@,
                    verdicts(func_safety_by_module),
                    globally_safe_funcs@.contains(info.missing_dep_callees.items()[j]),
                ),
    {
        let callee = info.missing_dep_callees.at(i);
        if !is_call_verified_safe_indexed(
            callee.as_str(),
            module_names,
            func_safety_by_module,
            globally_safe_funcs,
        ) {
            proof {
                assert(info.deep_view().missing_dep_callees.contains(callee@));
            }
            return false;
        }
    }
    proof {
        assert forall|c: Seq<char>| #[trigger]
            info.deep_view().missing_dep_callees.contains(c) implies verified(
            c,
            module_names@,
            verdicts(func_safety_by_module),
            globally_safe_funcs@.contains(c),
        ) by {
            let j = info.missing_dep_callees.items().index_of(c);
            assert(info.missing_dep_callees.items()[j] == c);
        }
    }
    true
}

/// A table in which some functions are declared safe.
pub open spec fn promoted(table: Verdicts, functions: Set<(Seq<char>, Seq<char>)>) -> Verdicts {
    Map::new(
        |f: (Seq<char>, Seq<char>)| table.contains_key(f),
        |f: (Seq<char>, Seq<char>)|
            if functions.contains(f) {
                FunctionInfoView { verdict: FunctionSafety::Safe, ..table[f] }
            } else {
                table[f]
            },
    )
}

/// The index of safe names once some functions are declared safe: the names of the safe functions of
/// the modules.
pub open spec fn promoted_index(
    modules: Set<Seq<char>>,
    table: Verdicts,
    functions: Set<(Seq<char>, Seq<char>)>,
) -> Set<Seq<char>> {
    safe_names(modules, promoted(table, functions))
}

/// Once some functions are declared safe, a function may be promoted.
pub open spec fn promotable_after(
    modules: Set<Seq<char>>,
    table: Verdicts,
    functions: Set<(Seq<char>, Seq<char>)>,
    f: (Seq<char>, Seq<char>),
) -> bool {
    table.contains_key(f) && promotable(
        promoted(table, functions)[f],
        modules,
        promoted(table, functions),
        promoted_index(modules, table, functions),
    )
}

/// Once some functions are declared safe, no other one may be promoted.
pub open spec fn settled(
    modules: Set<Seq<char>>,
    table: Verdicts,
    functions: Set<(Seq<char>, Seq<char>)>,
) -> bool {
    forall|f: (Seq<char>, Seq<char>)| !#[trigger] promotable_after(modules, table, functions, f)
}

/// Declaring more functions safe takes nothing away from what is verified.
pub proof fn verified_grows(
    name: Seq<char>,
    modules: Set<Seq<char>>,
    table: Verdicts,
    fewer: Set<(Seq<char>, Seq<char>)>,
    more: Set<(Seq<char>, Seq<char>)>,
)
    requires
        fewer.subset_of(more),
        verified(
            name,
            modules,
            promoted(table, fewer),
            promoted_index(modules, table, fewer).contains(name),
        ),
    ensures
        verified(
            name,
            modules,
            promoted(table, more),
            promoted_index(modules, table, more).contains(name),
        ),
{
    let d = parent_dot(name, modules);
    if d < 0 {
        let m = choose|m: Seq<char>| #[trigger]
            modules.contains(m) && safe_at(promoted(table, fewer), m, name);
        assert(modules.contains(m) && safe_at(promoted(table, more), m, name));
    } else {
        let module = name.take(d);
        let local = name.skip(d + 1);
        assert(safe_at(promoted(table, fewer), module, local) ==> safe_at(
            promoted(table, more),
            module,
            local,
        ));
        let prefix = local.take(first_dot(local));
        assert(safe_at(promoted(table, fewer), module, prefix) ==> safe_at(
            promoted(table, more),
            module,
            prefix,
        ));
    }
}

/// What may be promoted at some point is in every set at which promotion comes to rest.
proof fn lemma_promotable_is_needed(
    modules: Set<Seq<char>>,
    table: Verdicts,
    fewer: Set<(Seq<char>, Seq<char>)>,
    more: Set<(Seq<char>, Seq<char>)>,
    f: (Seq<char>, Seq<char>),
)
    requires
        fewer.subset_of(more),
        settled(modules, table, more),
        promotable_after(modules, table, fewer, f),
    ensures
        more.contains(f),
{
    if !more.contains(f) {
        let info = promoted(table, fewer)[f];
        assert(!fewer.contains(f));
        assert(promoted(table, more)[f] == table[f]);
        assert(info == table[f]);
        assert forall|c: Seq<char>| #[trigger] info.missing_dep_callees.contains(c) implies verified(
            c,
            modules,
            promoted(table, more),
            promoted_index(modules, table, more).contains(c),
        ) by {
            verified_grows(c, modules, table, fewer, more);
        }
        assert(promotable_after(modules, table, more, f));
    }
}

/// Sets the verdict on a function.
pub fn set_verdict(table: &mut FunctionTable, module: &ModuleName, name: &str, verdict: FunctionSafety)
    requires
        old(table)@.contains_key((module@, name@)),
    ensures
        verdicts(final(table)) == verdicts(old(table)).insert(
            (module@, name@),
            FunctionInfoView { verdict, ..verdicts(old(table))[(module@, name@)] },
        ),
{
    let mut info: FunctionSafetyInfo = table.replace(module, name, FunctionSafetyInfo::new(verdict));
    info.verdict = verdict;
    let _ = table.replace(module, name, info);
    proof {
        assert(verdicts(table) =~= verdicts(old(table)).insert(
            (module@, name@),
            FunctionInfoView { verdict, ..verdicts(old(table))[(module@, name@)] },
        ));
    }
}

/// The names of the safe functions of some modules.
fn index_safe_names(module_names: &NameSet, table: &FunctionTable) -> (res: NameSet)
    ensures
        res@ == safe_names(module_names@, verdicts(table)),
{
    let mut res = NameSet::new();
    let functions = table.attributes();
    for i in 0..functions.len()
        invariant
            attributes_of(functions@).to_set() == table@.dom(),
            forall|n: Seq<char>| #[trigger]
                res@.contains(n) <==> exists|j: int|
                    0 <= j < i && #[trigger] attributes_of(functions@)[j].1 == n && module_names@.contains(
                        attributes_of(functions@)[j].0,
                    ) && safe_at(verdicts(table), attributes_of(functions@)[j].0, n),
    {
        let f = &functions[i];
        let ghost before = res@;
        if module_names.contains(&f.module) && is_safe_at(table, &f.module, f.attr.as_str()) {
            let _ = res.insert(ModuleName::from_str(f.attr.as_str()));
        }
        proof {
            let all = attributes_of(functions@);
            assert(all[i as int] == f@);
            assert forall|n: Seq<char>| #[trigger]
                res@.contains(n) <==> exists|j: int|
                    0 <= j < i + 1 && #[trigger] all[j].1 == n && module_names@.contains(all[j].0)
                        && safe_at(verdicts(table), all[j].0, n) by {
                if before.contains(n) {
                    let j = choose|j: int|
                        0 <= j < i && #[trigger] all[j].1 == n && module_names@.contains(all[j].0)
                            && safe_at(verdicts(table), all[j].0, n);
                    assert(0 <= j < i + 1 && all[j].1 == n);
                } else if res@.contains(n) {
                    assert(all[i as int].1 == n);
                }
            }
        }
    }
    proof {
        let all = attributes_of(functions@);
        assert forall|n: Seq<char>| #[trigger] res@.contains(n) <==> safe_names(
            module_names@,
            verdicts(table),
        ).contains(n) by {
            if safe_somewhere(n, module_names@, verdicts(table)) {
                let m = choose|m: Seq<char>| #[trigger]
                    module_names@.contains(m) && safe_at(verdicts(table), m, n);
                assert(table@.dom().contains((m, n)));
                assert(all.contains((m, n)));
                let j = all.index_of((m, n));
                assert(all[j].1 == n);
            }
            if res@.contains(n) {
                let j = choose|j: int|
                    0 <= j < all.len() && #[trigger] all[j].1 == n && module_names@.contains(all[j].0)
                        && safe_at(verdicts(table), all[j].0, n);
                assert(module_names@.contains(all[j].0));
            }
        }
        assert(res@ =~= safe_names(module_names@, verdicts(table)));
    }
    res
}

/// Declares safe every function that is unsafe only for want of its callees, once all of these
/// are verified, until no more can be declared safe.
///
/// The result lists the functions that were promoted, and the index of safe names. They are the
/// fewest with which promotion comes to rest.
pub fn promote_fixpoint(module_names: &NameSet, func_safety_by_module: &mut FunctionTable) -> (res: (
    Vec<Attribute>,
    NameSet,
))
    ensures
        attributes_of(res.0@).no_duplicates(),
        verdicts(final(func_safety_by_module)) == promoted(
            verdicts(old(func_safety_by_module)),
            attributes_of(res.0@).to_set(),
        ),
        res.1@ == promoted_index(
            module_names@,
            verdicts(old(func_safety_by_module)),
            attributes_of(res.0@).to_set(),
        ),
        attributes_of(res.0@).to_set().subset_of(verdicts(old(func_safety_by_module)).dom()),
        settled(
            module_names@,
            verdicts(old(func_safety_by_module)),
            attributes_of(res.0@).to_set(),
        ),
        forall|other: Set<(Seq<char>, Seq<char>)>|
            settled(module_names@, verdicts(old(func_safety_by_module)), other)
                ==> attributes_of(res.0@).to_set().subset_of(other),
{
    let ghost table = verdicts(func_safety_by_module);
    let ghost modules = module_names@;
    let mut globally_safe_funcs = index_safe_names(module_names, func_safety_by_module);
    let functions = func_safety_by_module.attributes();
    let ghost all = attributes_of(functions@);
    let mut all_promoted: Vec<Attribute> = Vec::new();
    proof {
        let none = attributes_of(all_promoted@);
        assert(none =~= Seq::empty());
        assert(none.to_set() =~= Set::empty());
        assert(promoted(table, none.to_set()) =~= table);
        assert(promoted_index(modules, table, none.to_set()) =~= safe_names(modules, table));
        assert(all.to_set() =~= table.dom());
    }
    loop
        invariant
            modules == module_names@,
            all == attributes_of(functions@),
            all.no_duplicates(),
            all.to_set() == table.dom(),
            table == verdicts(old(func_safety_by_module)),
            attributes_of(all_promoted@).no_duplicates(),
            attributes_of(all_promoted@).to_set().subset_of(table.dom()),
            verdicts(func_safety_by_module) == promoted(table, attributes_of(all_promoted@).to_set()),
            globally_safe_funcs@ == promoted_index(
                modules,
                table,
                attributes_of(all_promoted@).to_set(),
            ),
            forall|other: Set<(Seq<char>, Seq<char>)>| #[trigger]
                settled(modules, table, other) ==> attributes_of(all_promoted@).to_set().subset_of(
                    other,
                ),
        ensures
            settled(modules, table, attributes_of(all_promoted@).to_set()),
        decreases all.len() - attributes_of(all_promoted@).len(),
    {
        let ghost done = attributes_of(all_promoted@).to_set();
        let ghost now = verdicts(func_safety_by_module);
        let ghost index = globally_safe_funcs@;
        let mut to_promote: Vec<Attribute> = Vec::new();
        for i in 0..functions.len()
            invariant
                modules == module_names@,
                all == attributes_of(functions@),
                all.no_duplicates(),
                all.to_set() == table.dom(),
                now == verdicts(func_safety_by_module),
                now == promoted(table, done),
                index == globally_safe_funcs@,
                index == promoted_index(modules, table, done),
                attributes_of(to_promote@).no_duplicates(),
                forall|f: (Seq<char>, Seq<char>)| #[trigger]
                    attributes_of(to_promote@).contains(f) <==> all.take(i as int).contains(f)
                        && promotable_after(modules, table, done, f),
        {
            let f = &functions[i];
            let ghost before = attributes_of(to_promote@);
            proof {
                crate::name_set::lemma_take_more(all, i as int);
                assert(all[i as int] == f@);
                assert(all.contains(f@));
                assert(table.dom().contains(f@));
                assert(!all.take(i as int).contains(f@)) by {
                    if all.take(i as int).contains(f@) {
                        let j = all.take(i as int).index_of(f@);
                        assert(all[j] == f@);
                    }
                }
            }
            proof {
                assert(now.contains_key(f@));
                assert(func_safety_by_module@.contains_key(f@));
                assert(now[f@] == func_safety_by_module@[f@].deep_view());
            }
            let ready = match func_safety_by_module.get(f) {
                Some(info) => can_promote_missing_dep_function(
                    info,
                    module_names,
                    func_safety_by_module,
                    &globally_safe_funcs,
                ),
                None => false,
            };
            assert(ready == promotable_after(modules, table, done, f@));
            if ready {
                to_promote.push(f.clone());
                proof {
                    assert(attributes_of(to_promote@) =~= before.push(f@));
                    lemma_push_new(before, f@);
                }
            }
            proof {
                assert forall|g: (Seq<char>, Seq<char>)| #[trigger]
                    attributes_of(to_promote@).contains(g) <==> all.take(i + 1).contains(g)
                        && promotable_after(modules, table, done, g) by {
                    assert(all.take(i + 1).to_set().contains(g) <==> all.take(
                        i as int,
                    ).to_set().contains(g) || g == f@);
                }
            }
        }
        proof {
            assert(all.take(all.len() as int) =~= all);
        }
        let ghost found = attributes_of(to_promote@);
        if to_promote.len() == 0 {
            proof {
                assert forall|f: (Seq<char>, Seq<char>)| !#[trigger] promotable_after(
                    modules,
                    table,
                    done,
                    f,
                ) by {
                    if promotable_after(modules, table, done, f) {
                        assert(table.dom().contains(f));
                        assert(all.contains(f));
                        assert(found.contains(f));
                    }
                }
            }
            break ;
        }
        let ghost earlier = attributes_of(all_promoted@);
        proof {
            assert(found.take(0) =~= Seq::empty());
            assert(earlier + found.take(0) =~= earlier);
            assert forall|f: (Seq<char>, Seq<char>)| #[trigger] found.contains(f) implies !done.contains(
                f,
            ) && table.contains_key(f) by {
                assert(promotable_after(modules, table, done, f));
            }
        }
        for i in 0..to_promote.len()
            invariant
                modules == module_names@,
                found == attributes_of(to_promote@),
                found.no_duplicates(),
                done == earlier.to_set(),
                earlier.no_duplicates(),
                forall|f: (Seq<char>, Seq<char>)| #[trigger]
                    found.contains(f) ==> !done.contains(f) && table.contains_key(f),
                attributes_of(all_promoted@) == earlier + found.take(i as int),
                attributes_of(all_promoted@).no_duplicates(),
                verdicts(func_safety_by_module) == promoted(
                    table,
                    attributes_of(all_promoted@).to_set(),
                ),
                globally_safe_funcs@ == promoted_index(
                    modules,
                    table,
                    attributes_of(all_promoted@).to_set(),
                ),
        {
            let f = &to_promote[i];
            let ghost before = attributes_of(all_promoted@);
            proof {
                assert(found[i as int] == f@);
                assert(found.contains(f@));
                assert(func_safety_by_module@.dom() =~= verdicts(func_safety_by_module).dom());
                assert(func_safety_by_module@.contains_key(f@));
            }
            set_verdict(func_safety_by_module, &f.module, f.attr.as_str(), FunctionSafety::Safe);
            if module_names.contains(&f.module) {
                let _ = globally_safe_funcs.insert(ModuleName::from_str(f.attr.as_str()));
            }
            all_promoted.push(f.clone());
            proof {
                assert(attributes_of(all_promoted@) =~= before.push(f@));
                crate::name_set::lemma_take_more(found, i as int);
                assert(attributes_of(all_promoted@) =~= earlier + found.take(i + 1));
                assert(!before.contains(f@)) by {
                    if before.contains(f@) {
                        let j = before.index_of(f@);
                        if j < earlier.len() {
                            assert(earlier[j] == f@);
                            assert(earlier.contains(f@));
                        } else {
                            assert(found[j - earlier.len()] == f@);
                        }
                    }
                }
                lemma_push_new(before, f@);
                let more = attributes_of(all_promoted@).to_set();
                assert(more =~= before.to_set().insert(f@));
                assert(verdicts(func_safety_by_module) =~= promoted(table, more));
                let fewer = before.to_set();
                assert forall|n: Seq<char>| #[trigger]
                    promoted_index(modules, table, more).contains(n) <==> promoted_index(
                        modules,
                        table,
                        fewer,
                    ).contains(n) || (n == f@.1 && modules.contains(f@.0)) by {
                    assert(more.contains((f@.0, f@.1)));
                    if promoted_index(modules, table, more).contains(n) {
                        let m = choose|m: Seq<char>| #[trigger]
                            modules.contains(m) && safe_at(promoted(table, more), m, n);
                        if (m, n) != f@ {
                            assert(modules.contains(m) && safe_at(promoted(table, fewer), m, n));
                        }
                    }
                    if promoted_index(modules, table, fewer).contains(n) {
                        let m = choose|m: Seq<char>| #[trigger]
                            modules.contains(m) && safe_at(promoted(table, fewer), m, n);
                        assert(modules.contains(m) && safe_at(promoted(table, more), m, n));
                    }
                    if n == f@.1 && modules.contains(f@.0) {
                        assert(safe_at(promoted(table, more), f@.0, n));
                    }
                }
                assert(globally_safe_funcs@ =~= promoted_index(modules, table, more));
            }
        }
        proof {
            let now_promoted = attributes_of(all_promoted@);
            assert(found.take(found.len() as int) =~= found);
            assert(now_promoted == earlier + found);
            assert forall|f: (Seq<char>, Seq<char>)| #[trigger] now_promoted.contains(f) <==> earlier.contains(
                f,
            ) || found.contains(f) by {
                if earlier.contains(f) {
                    assert(now_promoted[earlier.index_of(f)] == f);
                }
                if found.contains(f) {
                    assert(now_promoted[earlier.len() + found.index_of(f)] == f);
                }
                if now_promoted.contains(f) {
                    let j = now_promoted.index_of(f);
                    if j < earlier.len() {
                        assert(earlier[j] == f);
                    } else {
                        assert(found[j - earlier.len()] == f);
                    }
                }
            }
            assert forall|other: Set<(Seq<char>, Seq<char>)>| #[trigger]
                settled(modules, table, other) implies now_promoted.to_set().subset_of(other) by {
                assert forall|f: (Seq<char>, Seq<char>)| now_promoted.to_set().contains(f) implies other.contains(
                    f,
                ) by {
                    if found.contains(f) {
                        lemma_promotable_is_needed(modules, table, done, other, f);
                    } else {
                        assert(done.contains(f));
                    }
                }
            }
            now_promoted.unique_seq_to_set();
            all.unique_seq_to_set();
            vstd::set_lib::lemma_len_subset(now_promoted.to_set(), all.to_set());
            earlier.unique_seq_to_set();
        }
    }
    (all_promoted, globally_safe_funcs)
}

/// What is known of the function that a callee's name denotes: one of the module that is the
/// longest parent of the name.
pub open spec fn callee_info(callee: Seq<char>, modules: Set<Seq<char>>, table: Verdicts) -> Option<
    FunctionInfoView,
> {
    let d = parent_dot(callee, modules);
    if d >= 0 && table.contains_key((callee.take(d), callee.skip(d + 1))) {
        Some(table[(callee.take(d), callee.skip(d + 1))])
    } else {
        None
    }
}

/// Looks up what is known of the function that a callee's name denotes.
fn lookup_callee_info<'a>(
    callee: &ModuleName,
    module_names: &NameSet,
    func_safety_by_module: &'a FunctionTable,
) -> (res: Option<&'a FunctionSafetyInfo>)
    ensures
        match res {
            Some(info) => callee_info(callee@, module_names@, verdicts(func_safety_by_module)) == Some(
                info.deep_view(),
            ),
            None => callee_info(callee@, module_names@, verdicts(func_safety_by_module)) is None,
        },
{
    match split_at_known(callee, module_names) {
        Some((parent, local_name)) => func_safety_by_module.get_in(&parent, local_name.as_str()),
        None => None,
    }
}

/// The offset with one more implicit argument.
pub open spec fn one_more(offset: usize) -> usize {
    if offset < usize::MAX {
        (offset + 1) as usize
    } else {
        offset
    }
}

/// An imported object among a candidate's arguments reaches a parameter that a function mutates.
pub open spec fn callee_mutates(
    candidate: CandidateView,
    callee: Seq<char>,
    offset: usize,
    modules: Set<Seq<char>>,
    table: Verdicts,
) -> bool {
    match callee_info(callee, modules, table) {
        Some(info) => candidate.imported_args.reaches_any(info.mutated_params, offset),
        None => false,
    }
}

/// A candidate is confirmed: its callee mutates an imported object. A class as callee stands for
/// its constructors, which take one more implicit argument.
pub open spec fn confirmed(candidate: CandidateView, modules: Set<Seq<char>>, table: Verdicts) -> bool {
    ||| callee_mutates(candidate, candidate.callee, candidate.arg_offset, modules, table)
    ||| callee_mutates(
        candidate,
        dotted(candidate.callee, "__init__"@),
        one_more(candidate.arg_offset),
        modules,
        table,
    )
    ||| callee_mutates(
        candidate,
        dotted(candidate.callee, "__new__"@),
        one_more(candidate.arg_offset),
        modules,
        table,
    )
}

fn callee_mutates_argument(
    candidate: &MutationCandidate,
    callee: &ModuleName,
    arg_offset: usize,
    module_names: &NameSet,
    func_safety_by_module: &FunctionTable,
) -> (res: bool)
    ensures
        res == callee_mutates(
            candidate.deep_view(),
            callee@,
            arg_offset,
            module_names@,
            verdicts(func_safety_by_module),
        ),
{
    match lookup_callee_info(callee, module_names, func_safety_by_module) {
        Some(info) => candidate.imported_args.hits_any_param(&info.mutated_params, arg_offset),
        None => false,
    }
}

/// Whether a candidate is confirmed: its callee mutates an imported object.
fn candidate_mutates(
    candidate: &MutationCandidate,
    module_names: &NameSet,
    func_safety_by_module: &FunctionTable,
) -> (res: bool)
    ensures
        res == confirmed(candidate.deep_view(), module_names@, verdicts(func_safety_by_module)),
{
    if callee_mutates_argument(
        candidate,
        &candidate.callee,
        candidate.arg_offset,
        module_names,
        func_safety_by_module,
    ) {
        return true;
    }
    let offset: usize = if candidate.arg_offset < usize::MAX {
        candidate.arg_offset + 1
    } else {
        candidate.arg_offset
    };
    callee_mutates_argument(
        candidate,
        &candidate.callee.append_str("__init__"),
        offset,
        module_names,
        func_safety_by_module,
    ) || callee_mutates_argument(
        candidate,
        &candidate.callee.append_str("__new__"),
        offset,
        module_names,
        func_safety_by_module,
    )
}

/// A callee is found, and is not safe.
pub open spec fn found_unsafe(callee: Seq<char>, modules: Set<Seq<char>>, table: Verdicts) -> bool {
    match callee_info(callee, modules, table) {
        Some(info) => info.verdict != FunctionSafety::Safe,
        None => false,
    }
}

/// Whether a callee is found, and is not safe. One that is not found counts as safe.
fn callee_resolves_unsafe(
    callee: &ModuleName,
    module_names: &NameSet,
    func_safety_by_module: &FunctionTable,
) -> (res: bool)
    ensures
        res == found_unsafe(callee@, module_names@, verdicts(func_safety_by_module)),
{
    match lookup_callee_info(callee, module_names, func_safety_by_module) {
        Some(info) => info.verdict != FunctionSafety::Safe,
        None => false,
    }
}

/// What has come of the candidates so far.
pub struct Resolution {
    pub table: Verdicts,
    /// The calls at module scope that mutate an imported object, each with its module.
    pub errors: Seq<(Seq<char>, Seq<char>)>,
    /// Some function turned out to be safe.
    pub found_safe: bool,
}

/// What is known of a function once a call of it no longer lacks its callee.
pub open spec fn without_missing(info: FunctionInfoView, callee: Seq<char>) -> FunctionInfoView {
    let left = info.missing_dep_callees.remove(callee);
    FunctionInfoView {
        verdict: if info.verdict == FunctionSafety::UnsafeMissingDep && left =~= Set::empty() {
            FunctionSafety::Safe
        } else {
            info.verdict
        },
        missing_dep_callees: left,
        ..info
    }
}

/// What comes of a candidate. One that is confirmed is an error at module scope, and makes a
/// function unsafe. One that is not confirmed no longer counts among what its function lacks,
/// unless the callee is found and is not safe.
pub open spec fn resolve_candidate(
    before: Resolution,
    modules: Set<Seq<char>>,
    module: Seq<char>,
    candidate: CandidateView,
) -> Resolution {
    let mutates = confirmed(candidate, modules, before.table);
    match candidate.site {
        SiteView::ModuleScope(call) => if mutates {
            Resolution { errors: before.errors.push((module, call)), ..before }
        } else {
            before
        },
        SiteView::Function(name) => {
            let f = (module, name);
            if !before.table.contains_key(f) {
                before
            } else if mutates {
                Resolution {
                    table: before.table.insert(
                        f,
                        FunctionInfoView { verdict: FunctionSafety::Unsafe, ..before.table[f] },
                    ),
                    ..before
                }
            } else if found_unsafe(candidate.callee, modules, before.table) {
                before
            } else {
                let after = without_missing(before.table[f], candidate.callee);
                Resolution {
                    table: before.table.insert(f, after),
                    found_safe: before.found_safe || after.verdict != before.table[f].verdict,
                    ..before
                }
            }
        },
    }
}

/// What comes of the candidates of a module, one after the other.
pub open spec fn resolve_candidates(
    before: Resolution,
    modules: Set<Seq<char>>,
    module: Seq<char>,
    candidates: Seq<CandidateView>,
) -> Resolution
    decreases candidates.len(),
{
    if candidates.len() == 0 {
        before
    } else {
        resolve_candidate(
            resolve_candidates(before, modules, module, candidates.drop_last()),
            modules,
            module,
            candidates.last(),
        )
    }
}

/// What a list of errors at module scope is.
pub open spec fn scope_errors(errors: Seq<(ModuleName, String)>) -> Seq<(Seq<char>, Seq<char>)> {
    errors.map_values(|e: (ModuleName, String)| (e.0@, e.1@))
}

/// Settles one candidate. The result says whether a function turned out to be safe.
fn apply_mutation_candidate(
    module_name: &ModuleName,
    candidate: &MutationCandidate,
    module_names: &NameSet,
    func_safety_by_module: &mut FunctionTable,
    module_scope_errors: &mut Vec<(ModuleName, String)>,
) -> (res: bool)
    ensures
        ({
            let before = Resolution {
                table: verdicts(old(func_safety_by_module)),
                errors: scope_errors(old(module_scope_errors)@),
                found_safe: false,
            };
            let after = resolve_candidate(
                before,
                module_names@,
                module_name@,
                candidate.deep_view(),
            );
            &&& verdicts(final(func_safety_by_module)) == after.table
            &&& scope_errors(final(module_scope_errors)@) == after.errors
            &&& res == after.found_safe
        }),
{
    let ghost table = verdicts(func_safety_by_module);
    let ghost errors = scope_errors(module_scope_errors@);
    let mutates = candidate_mutates(candidate, module_names, func_safety_by_module);
    match &candidate.site {
        MutationCandidateSite::ModuleScope { call } => {
            if mutates {
                module_scope_errors.push((module_name.clone(), call.as_string().clone()));
                proof {
                    assert(scope_errors(module_scope_errors@) =~= errors.push((module_name@, call@)));
                }
            }
            false
        },
        MutationCandidateSite::Function { name } => {
            let known = func_safety_by_module.get_in(module_name, name.as_str()).is_some();
            if !known {
                return false;
            }
            if mutates {
                set_verdict(
                    func_safety_by_module,
                    module_name,
                    name.as_str(),
                    FunctionSafety::Unsafe,
                );
                return false;
            }
            if callee_resolves_unsafe(&candidate.callee, module_names, func_safety_by_module) {
                return false;
            }
            let mut info: FunctionSafetyInfo = func_safety_by_module.replace(
                module_name,
                name.as_str(),
                FunctionSafetyInfo::new(FunctionSafety::Safe),
            );
            let _ = info.missing_dep_callees.remove(&candidate.callee);
            let recovered = info.verdict == FunctionSafety::UnsafeMissingDep
                && info.missing_dep_callees.is_empty();
            if recovered {
                info.verdict = FunctionSafety::Safe;
            }
            let ghost after = info.deep_view();
            let _ = func_safety_by_module.replace(module_name, name.as_str(), info);
            proof {
                let f = (module_name@, name@);
                assert(after == without_missing(table[f], candidate.callee@));
                assert(verdicts(func_safety_by_module) =~= table.insert(f, after));
            }
            recovered
        },
    }
}

/// Settles the calls of a module that pass imported objects to callees that were not found, now
/// that more functions are known. The result says whether a function turned out to be safe.
pub fn apply_mutation_candidates(
    module_name: &ModuleName,
    candidates: &Vec<MutationCandidate>,
    module_names: &NameSet,
    func_safety_by_module: &mut FunctionTable,
    module_scope_errors: &mut Vec<(ModuleName, String)>,
) -> (res: bool)
    ensures
        ({
            let before = Resolution {
                table: verdicts(old(func_safety_by_module)),
                errors: scope_errors(old(module_scope_errors)@),
                found_safe: false,
            };
            let after = resolve_candidates(
                before,
                module_names@,
                module_name@,
                candidates.deep_view(),
            );
            &&& verdicts(final(func_safety_by_module)) == after.table
            &&& scope_errors(final(module_scope_errors)@) == after.errors
            &&& res == after.found_safe
        }),
{
    let ghost start = Resolution {
        table: verdicts(func_safety_by_module),
        errors: scope_errors(module_scope_errors@),
        found_safe: false,
    };
    let mut found_safe = false;
    let ghost all = candidates.deep_view();
    proof {
        assert(all.take(0) =~= Seq::empty());
    }
    for i in 0..candidates.len()
        invariant
            all == candidates.deep_view(),
            resolve_candidates(start, module_names@, module_name@, all.take(i as int)) == (Resolution {
                table: verdicts(func_safety_by_module),
                errors: scope_errors(module_scope_errors@),
                found_safe,
            }),
    {
        proof {
            assert(all.take(i + 1).drop_last() =~= all.take(i as int));
            assert(all.take(i + 1).last() == candidates@[i as int].deep_view());
        }
        if apply_mutation_candidate(
            module_name,
            &candidates[i],
            module_names,
            func_safety_by_module,
            module_scope_errors,
        ) {
            found_safe = true;
        }
    }
    proof {
        assert(all.take(all.len() as int) =~= all);
    }
    found_safe
}

} // verus!
