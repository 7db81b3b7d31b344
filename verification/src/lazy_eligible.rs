//! Which modules can be imported lazily, and what stands in their way.

use crate::classify::{classified, passes, ClassifiedModules};
use crate::graph::is_walk;
use crate::imports::ImportGraph;
use crate::module_name::{parent_of, texts, ModuleName};
use crate::name_map::NameMap;
use crate::name_set::NameSet;
use crate::module_safety::SafetyResult;
use crate::name_sets::{add_name, add_names, set_at, set_of, with_names, NameSets};
use crate::reach::{
    all_importers, imports_around, imports_transitively, reach, reachable, steps_within, transitive_importers,
};
use vstd::prelude::*;

verus! {

/// What the modules' names in a list of cycles are.
pub open spec fn cycle_views(cycles: Seq<Vec<ModuleName>>) -> Seq<Seq<Seq<char>>> {
    cycles.map_values(|c: Vec<ModuleName>| texts(c@))
}

/// A module imports a failing module, or one that re-exports from a failing module, or one that
/// was not found.
pub open spec fn direct_dep(
    graph: &ImportGraph,
    failing: Set<Seq<char>>,
    re_exports: Map<Seq<char>, Set<Seq<char>>>,
    module: Seq<char>,
    dep: Seq<char>,
) -> bool {
    ||| (graph.graph.links(module, dep) && failing.contains(dep))
    ||| imports_re_exporter(graph, re_exports, module, dep)
    ||| set_at(graph.missing(), module).contains(dep)
}

/// A module imports one that re-exports from a failing module.
pub open spec fn imports_re_exporter(
    graph: &ImportGraph,
    re_exports: Map<Seq<char>, Set<Seq<char>>>,
    module: Seq<char>,
    dep: Seq<char>,
) -> bool {
    exists|i: Seq<char>| #[trigger] graph.graph.links(module, i) && set_at(re_exports, i).contains(dep)
}

/// A module imports another that lies on a cycle with it.
pub open spec fn cycle_dep(
    graph: &ImportGraph,
    cycles: Seq<Seq<Seq<char>>>,
    module: Seq<char>,
    dep: Seq<char>,
) -> bool {
    graph.graph.links(module, dep) && exists|c: int|
        0 <= c < cycles.len() && (#[trigger] cycles[c]).contains(module) && cycles[c].contains(dep)
}

/// A passing module imports another that lies on a cycle with it, or is the direct child of a
/// passing module that does.
pub open spec fn cycle_guard(
    graph: &ImportGraph,
    cycles: Seq<Seq<Seq<char>>>,
    passing: Set<Seq<char>>,
    module: Seq<char>,
    dep: Seq<char>,
) -> bool {
    passing.contains(module) && (cycle_dep(graph, cycles, module, dep) || (
    graph.graph.node_set().contains(module) && match parent_of(module) {
        Some(parent) => passing.contains(parent) && cycle_dep(graph, cycles, parent, dep),
        None => false,
    }))
}

/// A module uses another without importing it.
pub open spec fn implicit_dep(
    implicit: Map<Seq<char>, Seq<Seq<char>>>,
    module: Seq<char>,
    dep: Seq<char>,
) -> bool {
    implicit.contains_key(module) && implicit[module].contains(dep)
}

/// A module lies on an import path from a passing module to another that the first one uses
/// without importing it. The path ends where it first comes to that one.
pub open spec fn path_dep(
    graph: &ImportGraph,
    passing: Set<Seq<char>>,
    implicit: Map<Seq<char>, Seq<Seq<char>>>,
    module: Seq<char>,
    dep: Seq<char>,
) -> bool {
    exists|consumer: Seq<char>|
        passing.contains(consumer) && #[trigger] implicit_dep(implicit, consumer, dep)
            && imports_around(graph, consumer, module, dep) && imports_transitively(
            graph,
            module,
            dep,
        )
}

/// A passing module cannot be lazy until another is loaded.
pub open spec fn lazy_dep(
    graph: &ImportGraph,
    c: &ClassifiedModules,
    re_exports: Map<Seq<char>, Set<Seq<char>>>,
    cycles: Seq<Seq<Seq<char>>>,
    module: Seq<char>,
    dep: Seq<char>,
) -> bool {
    c.passing_modules@.contains(module) && {
        ||| (graph.graph.node_set().contains(module) && direct_dep(
            graph,
            c.failing_modules@,
            re_exports,
            module,
            dep,
        ))
        ||| cycle_guard(graph, cycles, c.passing_modules@, module, dep)
        ||| implicit_dep(c.implicit_imports.deep_view(), module, dep)
        ||| path_dep(graph, c.passing_modules@, c.implicit_imports.deep_view(), module, dep)
    }
}

/// A map has an entry for each passing module in the graph or with implicit imports, and holds
/// what stands in the way of its being lazy.
pub open spec fn is_lazy_eligible(
    map: Map<Seq<char>, Set<Seq<char>>>,
    graph: &ImportGraph,
    c: &ClassifiedModules,
    re_exports: Map<Seq<char>, Set<Seq<char>>>,
    cycles: Seq<Seq<Seq<char>>>,
) -> bool {
    &&& forall|m: Seq<char>| #[trigger]
        map.contains_key(m) <==> c.passing_modules@.contains(m) && (graph.graph.node_set().contains(m)
            || c.implicit_imports.deep_view().contains_key(m))
    &&& forall|m: Seq<char>, d: Seq<char>| #[trigger]
        set_at(map, m).contains(d) <==> lazy_dep(graph, c, re_exports, cycles, m, d)
}

/// Names of which a step of the work adds some to the entries of a map, without new entries.
spec fn grown(
    before: Map<Seq<char>, Set<Seq<char>>>,
    after: Map<Seq<char>, Set<Seq<char>>>,
    relation: spec_fn(Seq<char>, Seq<char>) -> bool,
) -> bool {
    &&& after.dom() == before.dom()
    &&& forall|m: Seq<char>, d: Seq<char>| #[trigger]
        set_at(after, m).contains(d) <==> set_at(before, m).contains(d) || relation(m, d)
}

/// The entries of a map with more names in one of them.
proof fn lemma_grown_one(
    before: Map<Seq<char>, Set<Seq<char>>>,
    key: Seq<char>,
    names: Set<Seq<char>>,
)
    requires
        before.contains_key(key),
    ensures
        grown(
            before,
            with_names(before, key, names),
            |m: Seq<char>, d: Seq<char>| m == key && names.contains(d),
        ),
{
    assert(with_names(before, key, names).dom() =~= before.dom());
}

/// The failing modules that a module imports, those that the modules it imports re-export from,
/// and its imports that were not found.
fn failing_imports(
    import_graph: &ImportGraph,
    module: &ModuleName,
    failing_modules: &NameSet,
    re_export_map: &NameSets,
) -> (res: NameSet)
    ensures
        forall|d: Seq<char>| #[trigger]
            res@.contains(d) <==> direct_dep(
                import_graph,
                failing_modules@,
                re_export_map.deep_view(),
                module@,
                d,
            ),
{
    let imports = import_graph.get_imports(module);
    let ghost all = texts(imports@);
    let ghost re = re_export_map.deep_view();
    let mut res = NameSet::new();
    for i in 0..imports.len()
        invariant
            all == texts(imports@),
            re == re_export_map.deep_view(),
            forall|d: Seq<char>| #[trigger]
                res@.contains(d) <==> (failing_modules@.contains(d) && all.take(i as int).contains(d)) || (
                exists|j: int| 0 <= j < i && set_at(re, #[trigger] all[j]).contains(d)),
    {
        let ghost before = res@;
        let ghost here = all[i as int];
        proof {
            crate::name_set::lemma_take_more(all, i as int);
            assert(here == imports@[i as int]@);
        }
        if failing_modules.contains(&imports[i]) {
            let _ = res.insert(imports[i].clone());
        }
        if let Some(sources) = crate::name_sets::names_at(re_export_map, &imports[i]) {
            res.extend(sources);
        }
        proof {
            assert forall|d: Seq<char>| #[trigger]
                res@.contains(d) <==> (failing_modules@.contains(d) && all.take(i + 1).contains(d)) || (
                exists|j: int| 0 <= j < i + 1 && set_at(re, #[trigger] all[j]).contains(d)) by {
                assert(all.take(i + 1).to_set().contains(d) <==> all.take(i as int).to_set().contains(d)
                    || d == here);
                assert(res@.contains(d) <==> before.contains(d) || (d == here && failing_modules@.contains(d))
                    || set_at(re, here).contains(d));
                if exists|j: int| 0 <= j < i + 1 && set_at(re, #[trigger] all[j]).contains(d) {
                    let j = choose|j: int| 0 <= j < i + 1 && set_at(re, #[trigger] all[j]).contains(d);
                    if j < i {
                        assert(0 <= j < i && set_at(re, all[j]).contains(d));
                    }
                }
            }
        }
    }
    let ghost found = res@;
    if let Some(missing) = import_graph.get_missing_imports(module) {
        res.extend(missing);
    }
    proof {
        assert(all.take(all.len() as int) =~= all);
        assert forall|d: Seq<char>| #[trigger]
            res@.contains(d) <==> direct_dep(import_graph, failing_modules@, re, module@, d) by {
            assert(res@.contains(d) <==> found.contains(d) || set_at(
                import_graph.missing(),
                module@,
            ).contains(d));
            assert(all.contains(d) <==> import_graph.graph.links(module@, d));
            if exists|j: int| 0 <= j < all.len() && set_at(re, #[trigger] all[j]).contains(d) {
                let j = choose|j: int| 0 <= j < all.len() && set_at(re, #[trigger] all[j]).contains(d);
                assert(all.contains(all[j]));
                assert(import_graph.graph.links(module@, all[j]));
            }
            if imports_re_exporter(import_graph, re, module@, d) {
                let i = choose|i: Seq<char>| #[trigger]
                    import_graph.graph.links(module@, i) && set_at(re, i).contains(d);
                assert(all.contains(i));
                let j = all.index_of(i);
                assert(set_at(re, all[j]).contains(d));
            }
        }
    }
    res
}

/// What a step for one member of a cycle adds: the members of the cycle that it imports, to its
/// own entry and to those of its children.
spec fn member_step(
    graph: &ImportGraph,
    passing: Set<Seq<char>>,
    children: Map<Seq<char>, Set<Seq<char>>>,
    member: Seq<char>,
    cycle: Set<Seq<char>>,
    m: Seq<char>,
    d: Seq<char>,
) -> bool {
    &&& passing.contains(member)
    &&& cycle.contains(d)
    &&& graph.graph.links(member, d)
    &&& (m == member || (passing.contains(m) && set_at(children, member).contains(m)))
}

/// Adds the members of a cycle that one of them imports, to its entry and to those of its
/// children.
fn add_cycle_member(
    lazy: &mut NameSets,
    import_graph: &ImportGraph,
    passing_modules: &NameSet,
    cycle_children: &NameSets,
    member: &ModuleName,
    cycle: &NameSet,
)
    requires
        forall|m: Seq<char>| #[trigger]
            import_graph.graph.node_set().contains(m) && passing_modules@.contains(m) ==> old(
                lazy,
            ).deep_view().contains_key(m),
        forall|p: Seq<char>, m: Seq<char>| #[trigger]
            set_at(cycle_children.deep_view(), p).contains(m)
                ==> import_graph.graph.node_set().contains(m),
    ensures
        grown(
            old(lazy).deep_view(),
            final(lazy).deep_view(),
            |m: Seq<char>, d: Seq<char>|
                member_step(
                    import_graph,
                    passing_modules@,
                    cycle_children.deep_view(),
                    member@,
                    cycle@,
                    m,
                    d,
                ),
        ),
{
    let ghost before = lazy.deep_view();
    let ghost passing = passing_modules@;
    let ghost children = cycle_children.deep_view();
    let ghost name = member@;
    let ghost circle = cycle@;
    let ghost relation = |m: Seq<char>, d: Seq<char>|
        member_step(import_graph, passing, children, name, circle, m, d);
    if !passing_modules.contains(member) {
        return;
    }
    let imports = set_of(&import_graph.get_imports(member));
    let cycle_imports = imports.intersection(cycle);
    let ghost deps = cycle_imports@;
    proof {
        assert forall|d: Seq<char>| #[trigger] deps.contains(d) <==> circle.contains(d)
            && import_graph.graph.links(name, d) by {}
    }
    if cycle_imports.is_empty() {
        proof {
            assert forall|m: Seq<char>, d: Seq<char>| !(#[trigger] relation(m, d)) by {
                assert(!deps.contains(d));
            }
        }
        return;
    }
    let probe = import_graph.get_imports(member);
    proof {
        let d = cycle_imports.items()[0];
        assert(cycle_imports.items().contains(d));
        assert(deps.contains(d));
        assert(import_graph.graph.links(name, d));
        assert(import_graph.graph.node_set().contains(name));
        assert(before.contains_key(name));
        lemma_grown_one(before, name, deps);
    }
    add_names(lazy, member, &cycle_imports);
    let ghost middle = lazy.deep_view();
    if let Some(kids) = crate::name_sets::names_at(cycle_children, member) {
        let n: usize = kids.len();
        let ghost items = kids.items();
        for i in 0..n
            invariant
                n == items.len(),
                items == kids.items(),
                passing == passing_modules@,
                deps == cycle_imports@,
                kids@ == set_at(children, name),
                before.dom() == middle.dom(),
                forall|m: Seq<char>| #[trigger]
                    import_graph.graph.node_set().contains(m) && passing.contains(m)
                        ==> before.contains_key(m),
                forall|p: Seq<char>, m: Seq<char>| #[trigger]
                    set_at(children, p).contains(m) ==> import_graph.graph.node_set().contains(m),
                grown(
                    middle,
                    lazy.deep_view(),
                    |m: Seq<char>, d: Seq<char>|
                        passing.contains(m) && items.take(i as int).contains(m) && deps.contains(d),
                ),
        {
            let ghost so_far = lazy.deep_view();
            let kid = kids.at(i);
            let ghost k = kid@;
            proof {
                crate::name_set::lemma_take_more(items, i as int);
                assert(kids@.contains(k));
                assert(set_at(children, name).contains(k));
            }
            if passing_modules.contains(&kid) {
                proof {
                    assert(before.contains_key(k));
                    lemma_grown_one(so_far, k, deps);
                }
                add_names(lazy, &kid, &cycle_imports);
            }
            proof {
                let now = lazy.deep_view();
                assert forall|m: Seq<char>, d: Seq<char>| #[trigger]
                    set_at(now, m).contains(d) <==> set_at(middle, m).contains(d) || (passing.contains(m)
                        && items.take(i + 1).contains(m) && deps.contains(d)) by {
                    assert(items.take(i + 1).to_set().contains(m) <==> items.take(
                        i as int,
                    ).to_set().contains(m) || m == k);
                    assert(set_at(so_far, m).contains(d) <==> set_at(middle, m).contains(d) || (
                    passing.contains(m) && items.take(i as int).contains(m) && deps.contains(d)));
                }
            }
        }
        proof {
            assert(items.take(n as int) =~= items);
            let now = lazy.deep_view();
            assert forall|m: Seq<char>, d: Seq<char>| #[trigger]
                set_at(now, m).contains(d) <==> set_at(before, m).contains(d) || relation(m, d) by {
                assert(items.contains(m) <==> set_at(children, name).contains(m));
                assert(set_at(middle, m).contains(d) <==> set_at(before, m).contains(d) || (m == name
                    && deps.contains(d)));
            }
        }
    } else {
        proof {
            let now = lazy.deep_view();
            assert forall|m: Seq<char>, d: Seq<char>| #[trigger]
                set_at(now, m).contains(d) <==> set_at(before, m).contains(d) || relation(m, d) by {
                assert(!set_at(children, name).contains(m));
            }
        }
    }
}

/// What the steps for the members of some cycles add.
spec fn cycles_step(
    graph: &ImportGraph,
    passing: Set<Seq<char>>,
    children: Map<Seq<char>, Set<Seq<char>>>,
    cycles: Seq<Seq<Seq<char>>>,
    m: Seq<char>,
    d: Seq<char>,
) -> bool {
    exists|c: int|
        0 <= c < cycles.len() && #[trigger] members_step(
            graph,
            passing,
            children,
            cycles[c],
            cycles[c].to_set(),
            m,
            d,
        )
}

/// What the steps for some members of a cycle add.
spec fn members_step(
    graph: &ImportGraph,
    passing: Set<Seq<char>>,
    children: Map<Seq<char>, Set<Seq<char>>>,
    members: Seq<Seq<char>>,
    cycle: Set<Seq<char>>,
    m: Seq<char>,
    d: Seq<char>,
) -> bool {
    exists|k: int|
        0 <= k < members.len() && member_step(graph, passing, children, #[trigger] members[k], cycle, m, d)
}

/// Adds, for each cycle and each passing member of it, the members of the cycle that it imports,
/// to its entry and to those of its children.
fn add_cycle_deps(
    lazy: &mut NameSets,
    import_graph: &ImportGraph,
    passing_modules: &NameSet,
    cycle_children: &NameSets,
    all_cycles: &Vec<Vec<ModuleName>>,
)
    requires
        forall|m: Seq<char>| #[trigger]
            import_graph.graph.node_set().contains(m) && passing_modules@.contains(m) ==> old(
                lazy,
            ).deep_view().contains_key(m),
        forall|p: Seq<char>, m: Seq<char>| #[trigger]
            set_at(cycle_children.deep_view(), p).contains(m)
                ==> import_graph.graph.node_set().contains(m),
    ensures
        grown(
            old(lazy).deep_view(),
            final(lazy).deep_view(),
            |m: Seq<char>, d: Seq<char>|
                cycles_step(
                    import_graph,
                    passing_modules@,
                    cycle_children.deep_view(),
                    cycle_views(all_cycles@),
                    m,
                    d,
                ),
        ),
{
    let ghost before = lazy.deep_view();
    let ghost passing = passing_modules@;
    let ghost children = cycle_children.deep_view();
    let ghost cycles = cycle_views(all_cycles@);
    for c in 0..all_cycles.len()
        invariant
            passing == passing_modules@,
            children == cycle_children.deep_view(),
            cycles == cycle_views(all_cycles@),
            forall|m: Seq<char>| #[trigger]
                import_graph.graph.node_set().contains(m) && passing.contains(m) ==> before.contains_key(m),
            forall|p: Seq<char>, m: Seq<char>| #[trigger]
                set_at(children, p).contains(m) ==> import_graph.graph.node_set().contains(m),
            grown(
                before,
                lazy.deep_view(),
                |m: Seq<char>, d: Seq<char>|
                    cycles_step(import_graph, passing, children, cycles.take(c as int), m, d),
            ),
    {
        let members = &all_cycles[c];
        let cycle_set = set_of(members);
        let ghost names = texts(members@);
        let ghost circle = cycle_set@;
        let ghost middle = lazy.deep_view();
        proof {
            assert(cycles[c as int] == names);
        }
        for k in 0..members.len()
            invariant
                names == texts(members@),
                circle == cycle_set@,
                passing == passing_modules@,
                children == cycle_children.deep_view(),
                before.dom() == middle.dom(),
                forall|m: Seq<char>| #[trigger]
                    import_graph.graph.node_set().contains(m) && passing.contains(m)
                        ==> before.contains_key(m),
                forall|p: Seq<char>, m: Seq<char>| #[trigger]
                    set_at(children, p).contains(m) ==> import_graph.graph.node_set().contains(m),
                grown(
                    middle,
                    lazy.deep_view(),
                    |m: Seq<char>, d: Seq<char>|
                        members_step(
                            import_graph,
                            passing,
                            children,
                            names.take(k as int),
                            circle,
                            m,
                            d,
                        ),
                ),
        {
            let ghost so_far = lazy.deep_view();
            add_cycle_member(
                lazy,
                import_graph,
                passing_modules,
                cycle_children,
                &members[k],
                &cycle_set,
            );
            proof {
                let now = lazy.deep_view();
                let fewer = names.take(k as int);
                let more = names.take(k + 1);
                assert(names[k as int] == members@[k as int]@);
                assert forall|m: Seq<char>, d: Seq<char>| #[trigger]
                    set_at(now, m).contains(d) <==> set_at(middle, m).contains(d) || members_step(
                        import_graph,
                        passing,
                        children,
                        more,
                        circle,
                        m,
                        d,
                    ) by {
                    assert(set_at(so_far, m).contains(d) <==> set_at(middle, m).contains(d) || members_step(
                        import_graph,
                        passing,
                        children,
                        fewer,
                        circle,
                        m,
                        d,
                    ));
                    if members_step(import_graph, passing, children, fewer, circle, m, d) {
                        let j = choose|j: int|
                            0 <= j < fewer.len() && member_step(
                                import_graph,
                                passing,
                                children,
                                #[trigger] fewer[j],
                                circle,
                                m,
                                d,
                            );
                        assert(more[j] == fewer[j]);
                    }
                    assert(more[k as int] == names[k as int]);
                    if members_step(import_graph, passing, children, more, circle, m, d) {
                        let j = choose|j: int|
                            0 <= j < more.len() && member_step(
                                import_graph,
                                passing,
                                children,
                                #[trigger] more[j],
                                circle,
                                m,
                                d,
                            );
                        if j < k {
                            assert(fewer[j] == more[j]);
                        }
                    }
                }
            }
        }
        proof {
            assert(names.take(names.len() as int) =~= names);
            let now = lazy.deep_view();
            let fewer = cycles.take(c as int);
            let more = cycles.take(c + 1);
            assert forall|m: Seq<char>, d: Seq<char>| #[trigger]
                set_at(now, m).contains(d) <==> set_at(before, m).contains(d) || cycles_step(
                    import_graph,
                    passing,
                    children,
                    more,
                    m,
                    d,
                ) by {
                assert(set_at(middle, m).contains(d) <==> set_at(before, m).contains(d) || cycles_step(
                    import_graph,
                    passing,
                    children,
                    fewer,
                    m,
                    d,
                ));
                if cycles_step(import_graph, passing, children, fewer, m, d) {
                    let j = choose|j: int|
                        0 <= j < fewer.len() && #[trigger] members_step(
                            import_graph,
                            passing,
                            children,
                            fewer[j],
                            fewer[j].to_set(),
                            m,
                            d,
                        );
                    assert(more[j] == fewer[j]);
                    assert(members_step(import_graph, passing, children, more[j], more[j].to_set(), m, d));
                }
                assert(more[c as int] == names);
                if members_step(import_graph, passing, children, names, circle, m, d) {
                    assert(members_step(
                        import_graph,
                        passing,
                        children,
                        more[c as int],
                        more[c as int].to_set(),
                        m,
                        d,
                    ));
                }
                if cycles_step(import_graph, passing, children, more, m, d) {
                    let j = choose|j: int|
                        0 <= j < more.len() && #[trigger] members_step(
                            import_graph,
                            passing,
                            children,
                            more[j],
                            more[j].to_set(),
                            m,
                            d,
                        );
                    if j < c {
                        assert(fewer[j] == more[j]);
                        assert(members_step(
                            import_graph,
                            passing,
                            children,
                            fewer[j],
                            fewer[j].to_set(),
                            m,
                            d,
                        ));
                    }
                }
            }
        }
    }
    proof {
        assert(cycles.take(cycles.len() as int) =~= cycles);
    }
}

/// A walk to a module that imports another leads on to that one.
proof fn lemma_walk_on(graph: &ImportGraph, walk: Seq<Seq<char>>, target: Seq<char>)
    requires
        is_walk(graph.graph.relation(), walk),
        imports_transitively(graph, walk.last(), target),
    ensures
        imports_transitively(graph, walk.first(), target),
{
    let relation = graph.graph.relation();
    let rest = choose|rest: Seq<Seq<char>>| #[trigger]
        is_walk(relation, rest) && rest.len() > 1 && rest.first() == walk.last() && rest.last() == target;
    let whole = walk + rest.skip(1);
    assert forall|i: int| 0 <= i < whole.len() - 1 implies relation(#[trigger] whole[i], whole[i + 1]) by {
        if i < walk.len() - 1 {
            assert(relation(walk[i], walk[i + 1]));
        } else {
            let j = i - (walk.len() - 1);
            assert(relation(rest[j], rest[j + 1]));
            assert(whole[i + 1] == rest[j + 1]);
            if i >= walk.len() {
                assert(whole[i] == rest[j]);
            }
        }
    }
    assert(is_walk(relation, whole));
    assert(whole.last() == target);
}

/// The modules on import paths from some modules to another.
spec fn on_paths(
    graph: &ImportGraph,
    consumers: Set<Seq<char>>,
    target: Seq<char>,
) -> Set<Seq<char>> {
    Set::new(|m: Seq<char>| on_path(graph, consumers, target, m))
}

/// A module lies on an import path from one of some modules to another.
spec fn on_path(
    graph: &ImportGraph,
    consumers: Set<Seq<char>>,
    target: Seq<char>,
    m: Seq<char>,
) -> bool {
    exists|c: Seq<char>| #[trigger]
        consumers.contains(c) && imports_around(graph, c, m, target) && imports_transitively(
            graph,
            m,
            target,
        )
}

/// What the first steps from some modules towards another lead to.
spec fn first_steps(
    graph: &ImportGraph,
    consumers: Set<Seq<char>>,
    ancestors: Set<Seq<char>>,
) -> Set<Seq<char>> {
    Set::new(
        |m: Seq<char>|
            ancestors.contains(m) && exists|c: Seq<char>| #[trigger]
                consumers.contains(c) && graph.graph.links(c, m),
    )
}

proof fn lemma_paths(graph: &ImportGraph, consumers: Set<Seq<char>>, target: Seq<char>)
    ensures
        reachable(
            steps_within(graph, false, Some(all_importers(graph, target).remove(target))),
            first_steps(graph, consumers, all_importers(graph, target).remove(target)),
        ) == on_paths(graph, consumers, target),
{
    let ancestors = all_importers(graph, target).remove(target);
    let within = steps_within(graph, false, Some(ancestors));
    let forward = graph.graph.relation();
    let starts = first_steps(graph, consumers, ancestors);
    let found = reachable(within, starts);
    let wanted = on_paths(graph, consumers, target);
    assert forall|m: Seq<char>| found.contains(m) <==> wanted.contains(m) by {
        if found.contains(m) {
            let s = choose|s: Seq<char>| #[trigger]
                starts.contains(s) && crate::graph::reaches(within, s, m);
            let c = choose|c: Seq<char>| #[trigger] consumers.contains(c) && graph.graph.links(c, s);
            let walk = choose|walk: Seq<Seq<char>>| #[trigger]
                is_walk(within, walk) && walk.first() == s && walk.last() == m;
            let longer = seq![c] + walk;
            assert forall|i: int| 0 <= i < longer.len() - 1 implies forward(
                #[trigger] longer[i],
                longer[i + 1],
            ) by {
                if i > 0 {
                    assert(within(walk[i - 1], walk[i]));
                }
            }
            assert(is_walk(forward, longer));
            assert(longer.last() == m);
            assert forall|i: int| 0 <= i < walk.len() implies ancestors.contains(#[trigger] walk[i]) by {
                if i > 0 {
                    assert(within(walk[i - 1], walk[i]));
                }
            }
            assert(longer.skip(1) =~= walk);
            assert(imports_around(graph, c, m, target));
            assert(ancestors.contains(walk[walk.len() - 1]));
            assert(on_path(graph, consumers, target, m));
        }
        if wanted.contains(m) {
            let c = choose|c: Seq<char>| #[trigger]
                consumers.contains(c) && imports_around(graph, c, m, target) && imports_transitively(
                    graph,
                    m,
                    target,
                );
            let walk = choose|walk: Seq<Seq<char>>| #[trigger]
                is_walk(forward, walk) && walk.len() > 1 && walk.first() == c && walk.last() == m
                    && !walk.skip(1).contains(target);
            assert forall|i: int| 1 <= i < walk.len() implies ancestors.contains(#[trigger] walk[i]) by {
                let rest = walk.skip(i);
                assert forall|j: int| 0 <= j < rest.len() - 1 implies forward(#[trigger] rest[j], rest[j + 1]) by {
                    assert(forward(walk[i + j], walk[i + j + 1]));
                }
                assert(is_walk(forward, rest));
                assert(rest.last() == m);
                lemma_walk_on(graph, rest, target);
                assert(rest.first() == walk[i]);
                assert(walk.skip(1)[i - 1] == walk[i]);
            }
            let rest = walk.skip(1);
            assert forall|j: int| 0 <= j < rest.len() - 1 implies within(#[trigger] rest[j], rest[j + 1]) by {
                assert(forward(walk[j + 1], walk[j + 2]));
                assert(ancestors.contains(walk[j + 2]));
            }
            assert(is_walk(within, rest));
            assert(forward(walk[0], walk[1]));
            assert(starts.contains(walk[1]));
            assert(rest.first() == walk[1] && rest.last() == m);
        }
    }
    assert(found =~= wanted);
}

/// The modules on import paths from some modules to another.
fn modules_on_paths(import_graph: &ImportGraph, consumers: &NameSet, target: &ModuleName) -> (res: NameSet)
    ensures
        res@ == on_paths(import_graph, consumers@, target@),
        forall|m: Seq<char>| #[trigger]
            res@.contains(m) ==> import_graph.graph.node_set().contains(m),
{
    let ancestors = transitive_importers(import_graph, target);
    let n: usize = consumers.len();
    let ghost items = consumers.items();
    let ghost near = ancestors@;
    let mut starts: Vec<ModuleName> = Vec::new();
    for i in 0..n
        invariant
            n == items.len(),
            items == consumers.items(),
            near == ancestors@,
            forall|m: Seq<char>| #[trigger]
                texts(starts@).contains(m) <==> first_steps(
                    import_graph,
                    items.take(i as int).to_set(),
                    near,
                ).contains(m),
    {
        let consumer = consumers.at(i);
        let ghost c = items[i as int];
        let found = import_graph.get_imports(&consumer);
        let ghost all = texts(found@);
        let ghost before = texts(starts@);
        let ghost earlier = items.take(i as int).to_set();
        for k in 0..found.len()
            invariant
                all == texts(found@),
                near == ancestors@,
                forall|m: Seq<char>| #[trigger]
                    texts(starts@).contains(m) <==> before.contains(m) || (near.contains(m) && all.take(
                        k as int,
                    ).contains(m)),
        {
            let ghost so_far = texts(starts@);
            proof {
                crate::name_set::lemma_take_more(all, k as int);
            }
            if ancestors.contains(&found[k]) {
                starts.push(found[k].clone());
                proof {
                    assert(texts(starts@) =~= so_far.push(all[k as int]));
                }
            }
            proof {
                assert forall|m: Seq<char>| #[trigger]
                    texts(starts@).contains(m) <==> before.contains(m) || (near.contains(m) && all.take(
                        k + 1,
                    ).contains(m)) by {
                    assert(all.take(k + 1).to_set().contains(m) <==> all.take(k as int).to_set().contains(m)
                        || m == all[k as int]);
                    assert(so_far.contains(m) <==> before.contains(m) || (near.contains(m) && all.take(
                        k as int,
                    ).contains(m)));
                    let now = texts(starts@);
                    if so_far.contains(m) {
                        assert(now[so_far.index_of(m)] == m);
                    }
                    if near.contains(all[k as int]) {
                        assert(now[so_far.len() as int] == all[k as int]);
                    }
                    if now.contains(m) {
                        let j = now.index_of(m);
                        if j < so_far.len() {
                            assert(so_far[j] == m);
                        }
                    }
                }
            }
        }
        proof {
            assert(all.take(all.len() as int) =~= all);
            crate::name_set::lemma_take_more(items, i as int);
            let later = items.take(i + 1).to_set();
            assert forall|m: Seq<char>| #[trigger]
                texts(starts@).contains(m) <==> first_steps(import_graph, later, near).contains(m) by {
                assert(all.contains(m) <==> import_graph.graph.links(c, m));
                assert(before.contains(m) <==> first_steps(import_graph, earlier, near).contains(m));
                if first_steps(import_graph, later, near).contains(m) {
                    let d = choose|d: Seq<char>| #[trigger]
                        later.contains(d) && import_graph.graph.links(d, m);
                    if d != c {
                        assert(earlier.contains(d));
                    }
                }
                if first_steps(import_graph, earlier, near).contains(m) {
                    let d = choose|d: Seq<char>| #[trigger]
                        earlier.contains(d) && import_graph.graph.links(d, m);
                    assert(later.contains(d));
                }
                assert(later.contains(c));
            }
        }
    }
    proof {
        assert(items.take(n as int) =~= items);
        assert(texts(starts@).to_set() =~= first_steps(import_graph, consumers@, near));
        assert forall|i: int| 0 <= i < starts@.len() implies near.contains((#[trigger] starts@[i])@) by {
            assert(texts(starts@)[i] == starts@[i]@);
            assert(texts(starts@).contains(starts@[i]@));
        }
        lemma_paths(import_graph, consumers@, target@);
    }
    let res = reach(import_graph, starts, false, Some(&ancestors));
    let probe = import_graph.get_imports(target);
    proof {
        assert forall|m: Seq<char>| #[trigger] res@.contains(m) implies import_graph.graph.node_set().contains(
            m,
        ) by {
            let walk = choose|walk: Seq<Seq<char>>| #[trigger]
                is_walk(import_graph.graph.relation(), walk) && walk.len() > 1 && walk.first() == m
                    && walk.last() == target@;
            assert(import_graph.graph.relation()(walk[0], walk[1]));
            assert(import_graph.graph.links(m, walk[1]));
        }
    }
    res
}

/// The modules that use others without importing them, by what they use.
fn consumers_by_target(classified: &ClassifiedModules) -> (res: NameSets)
    ensures
        forall|t: Seq<char>, c: Seq<char>| #[trigger]
            set_at(res.deep_view(), t).contains(c) <==> classified.passing_modules@.contains(c)
                && implicit_dep(classified.implicit_imports.deep_view(), c, t),
{
    let mut res: NameSets = NameMap::new();
    let n: usize = classified.implicit_imports.len();
    let ghost keys = classified.implicit_imports.keys();
    let ghost implicit = classified.implicit_imports.deep_view();
    let ghost passing = classified.passing_modules@;
    proof {
        assert(res.deep_view() =~= Map::empty());
    }
    for i in 0..n
        invariant
            n == keys.len(),
            keys == classified.implicit_imports.keys(),
            implicit == classified.implicit_imports.deep_view(),
            passing == classified.passing_modules@,
            classified.implicit_imports.ordered(),
            forall|t: Seq<char>, c: Seq<char>| #[trigger]
                set_at(res.deep_view(), t).contains(c) <==> passing.contains(c) && keys.take(
                    i as int,
                ).contains(c) && implicit_dep(implicit, c, t),
    {
        let consumer = classified.implicit_imports.key_at(i);
        let ghost name = keys[i as int];
        let ghost before = res.deep_view();
        proof {
            crate::name_set::lemma_take_more(keys, i as int);
        }
        let targets = classified.implicit_imports.value_at(i);
        let ghost all = texts(targets@);
        proof {
            assert(implicit.contains_key(name));
            assert(targets.deep_view() =~= all);
            assert(implicit[name] == all);
        }
        if classified.passing_modules.contains(consumer) {
            for k in 0..targets.len()
                invariant
                    all == texts(targets@),
                    name == consumer@,
                    forall|t: Seq<char>, c: Seq<char>| #[trigger]
                        set_at(res.deep_view(), t).contains(c) <==> set_at(before, t).contains(c) || (c
                            == name && all.take(k as int).contains(t)),
            {
                let ghost so_far = res.deep_view();
                add_name(&mut res, &targets[k], consumer.clone());
                proof {
                    crate::name_set::lemma_take_more(all, k as int);
                    assert forall|t: Seq<char>, c: Seq<char>| #[trigger]
                        set_at(res.deep_view(), t).contains(c) <==> set_at(before, t).contains(c) || (c
                            == name && all.take(k + 1).contains(t)) by {
                        assert(all.take(k + 1).to_set().contains(t) <==> all.take(
                            k as int,
                        ).to_set().contains(t) || t == all[k as int]);
                        assert(set_at(so_far, t).contains(c) <==> set_at(before, t).contains(c) || (c
                            == name && all.take(k as int).contains(t)));
                    }
                }
            }
            proof {
                assert(all.take(all.len() as int) =~= all);
            }
        }
        proof {
            assert forall|t: Seq<char>, c: Seq<char>| #[trigger]
                set_at(res.deep_view(), t).contains(c) <==> passing.contains(c) && keys.take(i + 1).contains(
                    c,
                ) && implicit_dep(implicit, c, t) by {
                assert(keys.take(i + 1).to_set().contains(c) <==> keys.take(i as int).to_set().contains(c)
                    || c == name);
                assert(set_at(before, t).contains(c) <==> passing.contains(c) && keys.take(
                    i as int,
                ).contains(c) && implicit_dep(implicit, c, t));
            }
        }
    }
    proof {
        assert(keys.take(n as int) =~= keys);
        assert forall|t: Seq<char>, c: Seq<char>| #[trigger]
            set_at(res.deep_view(), t).contains(c) <==> passing.contains(c) && implicit_dep(implicit, c, t) by {
            if implicit_dep(implicit, c, t) {
                assert(classified.implicit_imports@.contains_key(c));
                assert(keys.contains(c));
            }
        }
    }
    res
}

/// Guards every passing module on an import path from a passing module to what that one uses
/// without importing it.
fn propagate_implicit_imports_along_paths(
    lazy: &mut NameSets,
    import_graph: &ImportGraph,
    classified: &ClassifiedModules,
)
    requires
        forall|m: Seq<char>| #[trigger]
            import_graph.graph.node_set().contains(m) && classified.passing_modules@.contains(m) ==> old(
                lazy,
            ).deep_view().contains_key(m),
    ensures
        grown(
            old(lazy).deep_view(),
            final(lazy).deep_view(),
            |m: Seq<char>, d: Seq<char>|
                classified.passing_modules@.contains(m) && path_dep(
                    import_graph,
                    classified.passing_modules@,
                    classified.implicit_imports.deep_view(),
                    m,
                    d,
                ),
        ),
{
    let ghost before = lazy.deep_view();
    let ghost passing = classified.passing_modules@;
    let ghost implicit = classified.implicit_imports.deep_view();
    let by_target = consumers_by_target(classified);
    let n: usize = by_target.len();
    let ghost keys = by_target.keys();
    let ghost users = by_target.deep_view();
    for i in 0..n
        invariant
            n == keys.len(),
            keys == by_target.keys(),
            users == by_target.deep_view(),
            by_target.ordered(),
            passing == classified.passing_modules@,
            forall|m: Seq<char>| #[trigger]
                import_graph.graph.node_set().contains(m) && passing.contains(m) ==> before.contains_key(m),
            grown(
                before,
                lazy.deep_view(),
                |m: Seq<char>, d: Seq<char>|
                    passing.contains(m) && keys.take(i as int).contains(d) && on_path(
                        import_graph,
                        set_at(users, d),
                        d,
                        m,
                    ),
            ),
    {
        let target = by_target.key_at(i);
        let ghost t = keys[i as int];
        let consumers = by_target.value_at(i);
        proof {
            crate::name_set::lemma_take_more(keys, i as int);
            assert(set_at(users, t) == consumers@);
            assert(!keys.take(i as int).contains(t)) by {
                if keys.take(i as int).contains(t) {
                    let j = keys.take(i as int).index_of(t);
                    assert(keys[j] == t);
                }
            }
        }
        let visited = modules_on_paths(import_graph, consumers, target);
        let m: usize = visited.len();
        let ghost items = visited.items();
        let ghost middle = lazy.deep_view();
        for k in 0..m
            invariant
                m == items.len(),
                items == visited.items(),
                passing == classified.passing_modules@,
                t == target@,
                before.dom() == middle.dom(),
                forall|x: Seq<char>| #[trigger]
                    visited@.contains(x) ==> import_graph.graph.node_set().contains(x),
                forall|m: Seq<char>| #[trigger]
                    import_graph.graph.node_set().contains(m) && passing.contains(m)
                        ==> before.contains_key(m),
                grown(
                    middle,
                    lazy.deep_view(),
                    |m: Seq<char>, d: Seq<char>|
                        passing.contains(m) && d == t && items.take(k as int).contains(m),
                ),
        {
            let ghost so_far = lazy.deep_view();
            let name = visited.at(k);
            let ghost x = name@;
            proof {
                crate::name_set::lemma_take_more(items, k as int);
                assert(visited@.contains(x));
            }
            if classified.passing_modules.contains(&name) {
                proof {
                    assert(before.contains_key(x));
                    lemma_grown_one(so_far, x, set![t]);
                }
                add_name(lazy, &name, target.clone());
            }
            proof {
                let now = lazy.deep_view();
                assert forall|m: Seq<char>, d: Seq<char>| #[trigger]
                    set_at(now, m).contains(d) <==> set_at(middle, m).contains(d) || (passing.contains(m)
                        && d == t && items.take(k + 1).contains(m)) by {
                    assert(items.take(k + 1).to_set().contains(m) <==> items.take(
                        k as int,
                    ).to_set().contains(m) || m == x);
                    assert(set_at(so_far, m).contains(d) <==> set_at(middle, m).contains(d) || (
                    passing.contains(m) && d == t && items.take(k as int).contains(m)));
                }
            }
        }
        proof {
            assert(items.take(m as int) =~= items);
            let now = lazy.deep_view();
            assert forall|m: Seq<char>, d: Seq<char>| #[trigger]
                set_at(now, m).contains(d) <==> set_at(before, m).contains(d) || (passing.contains(m)
                    && keys.take(i + 1).contains(d) && on_path(import_graph, set_at(users, d), d, m)) by {
                assert(keys.take(i + 1).to_set().contains(d) <==> keys.take(i as int).to_set().contains(d)
                    || d == t);
                assert(set_at(middle, m).contains(d) <==> set_at(before, m).contains(d) || (
                passing.contains(m) && keys.take(i as int).contains(d) && on_path(
                    import_graph,
                    set_at(users, d),
                    d,
                    m,
                )));
                assert(items.contains(m) <==> on_path(import_graph, set_at(users, t), t, m)) by {
                    assert(visited@.contains(m) <==> on_paths(
                        import_graph,
                        consumers@,
                        t,
                    ).contains(m));
                }
            }
        }
    }
    proof {
        assert(keys.take(n as int) =~= keys);
        let now = lazy.deep_view();
        assert forall|m: Seq<char>, d: Seq<char>| #[trigger]
            set_at(now, m).contains(d) <==> set_at(before, m).contains(d) || (passing.contains(m)
                && path_dep(import_graph, passing, implicit, m, d)) by {
            assert(keys.contains(d) && on_path(import_graph, set_at(users, d), d, m) <==> path_dep(
                import_graph,
                passing,
                implicit,
                m,
                d,
            )) by {
                if on_path(import_graph, set_at(users, d), d, m) {
                    let c = choose|c: Seq<char>| #[trigger]
                        set_at(users, d).contains(c) && imports_around(import_graph, c, m, d)
                            && imports_transitively(import_graph, m, d);
                    assert(implicit_dep(implicit, c, d));
                }
                if path_dep(import_graph, passing, implicit, m, d) {
                    let c = choose|c: Seq<char>|
                        passing.contains(c) && #[trigger] implicit_dep(implicit, c, d)
                            && imports_around(import_graph, c, m, d) && imports_transitively(
                            import_graph,
                            m,
                            d,
                        );
                    assert(set_at(users, d).contains(c));
                    assert(users.contains_key(d));
                    assert(by_target@.contains_key(d));
                    assert(keys.contains(d));
                }
            }
        }
    }
}

/// What stands in the way of importing each passing module lazily: what it imports, what lies on
/// a cycle with it, what it uses without importing it, and what it leads to for others.
pub fn build_lazy_eligible(
    import_graph: &ImportGraph,
    classified: &ClassifiedModules,
    re_export_map: &NameSets,
    all_cycles: &Vec<Vec<ModuleName>>,
) -> (res: NameSets)
    ensures
        is_lazy_eligible(
            res.deep_view(),
            import_graph,
            classified,
            re_export_map.deep_view(),
            cycle_views(all_cycles@),
        ),
{
    let ghost passing = classified.passing_modules@;
    let ghost failing = classified.failing_modules@;
    let ghost re = re_export_map.deep_view();
    let ghost cycles = cycle_views(all_cycles@);
    let ghost implicit = classified.implicit_imports.deep_view();
    let ghost nodes = import_graph.graph.node_set();
    let mut cycle_modules = NameSet::new();
    for c in 0..all_cycles.len()
        invariant
            cycles == cycle_views(all_cycles@),
            forall|x: Seq<char>| #[trigger]
                cycle_modules@.contains(x) <==> exists|j: int| 0 <= j < c && (#[trigger] cycles[j]).contains(x),
    {
        let ghost before = cycle_modules@;
        let members = set_of(&all_cycles[c]);
        cycle_modules.extend(&members);
        proof {
            assert(cycles[c as int] == texts(all_cycles@[c as int]@));
            assert forall|x: Seq<char>| #[trigger]
                cycle_modules@.contains(x) <==> exists|j: int|
                    0 <= j < c + 1 && (#[trigger] cycles[j]).contains(x) by {
                if before.contains(x) {
                    let j = choose|j: int| 0 <= j < c && (#[trigger] cycles[j]).contains(x);
                    assert(0 <= j < c + 1);
                }
                if members@.contains(x) {
                    assert(cycles[c as int].contains(x));
                }
            }
        }
    }
    let ghost circle = cycle_modules@;
    let names = import_graph.modules();
    let ghost all = texts(names@);
    let mut cycle_children: NameSets = NameMap::new();
    let mut lazy: NameSets = NameMap::new();
    proof {
        assert(cycle_children.deep_view() =~= Map::empty());
        assert(lazy.deep_view() =~= Map::empty());
    }
    for i in 0..names.len()
        invariant
            all == texts(names@),
            all.no_duplicates(),
            passing == classified.passing_modules@,
            failing == classified.failing_modules@,
            re == re_export_map.deep_view(),
            circle == cycle_modules@,
            forall|p: Seq<char>, m: Seq<char>| #[trigger]
                set_at(cycle_children.deep_view(), p).contains(m) <==> all.take(i as int).contains(m)
                    && parent_of(m) == Some(p) && circle.contains(p),
            forall|m: Seq<char>| #[trigger]
                lazy.deep_view().contains_key(m) <==> all.take(i as int).contains(m) && passing.contains(m),
            forall|m: Seq<char>, d: Seq<char>| #[trigger]
                set_at(lazy.deep_view(), m).contains(d) <==> all.take(i as int).contains(m)
                    && passing.contains(m) && direct_dep(import_graph, failing, re, m, d),
    {
        let name = &names[i];
        let ghost x = all[i as int];
        let ghost kids = cycle_children.deep_view();
        let ghost before = lazy.deep_view();
        proof {
            crate::name_set::lemma_take_more(all, i as int);
            assert(x == name@);
            assert(!all.take(i as int).contains(x)) by {
                if all.take(i as int).contains(x) {
                    let j = all.take(i as int).index_of(x);
                    assert(all[j] == x);
                }
            }
        }
        if let Some(parent) = name.parent() {
            if cycle_modules.contains(&parent) {
                add_name(&mut cycle_children, &parent, name.clone());
            }
        }
        if classified.passing_modules.contains(name) {
            let deps = failing_imports(
                import_graph,
                name,
                &classified.failing_modules,
                re_export_map,
            );
            let ghost found = deps@;
            let _ = lazy.insert(name.clone(), deps);
            proof {
                assert(lazy.deep_view() =~= before.insert(x, found));
            }
        }
        proof {
            let now = lazy.deep_view();
            assert forall|m: Seq<char>| all.take(i + 1).contains(m) <==> all.take(i as int).contains(m) || m
                == x by {
                assert(all.take(i + 1).to_set().contains(m) <==> all.take(i as int).to_set().contains(m)
                    || m == x);
            }
            assert forall|p: Seq<char>, m: Seq<char>| #[trigger]
                set_at(cycle_children.deep_view(), p).contains(m) <==> all.take(i + 1).contains(m)
                    && parent_of(m) == Some(p) && circle.contains(p) by {
                assert(set_at(kids, p).contains(m) <==> all.take(i as int).contains(m) && parent_of(m)
                    == Some(p) && circle.contains(p));
            }
            assert forall|m: Seq<char>, d: Seq<char>| #[trigger]
                set_at(now, m).contains(d) <==> all.take(i + 1).contains(m) && passing.contains(m)
                    && direct_dep(import_graph, failing, re, m, d) by {
                assert(set_at(before, m).contains(d) <==> all.take(i as int).contains(m)
                    && passing.contains(m) && direct_dep(import_graph, failing, re, m, d));
            }
        }
    }
    let ghost children = cycle_children.deep_view();
    let ghost first = lazy.deep_view();
    proof {
        assert(all.take(all.len() as int) =~= all);
        assert forall|m: Seq<char>| all.contains(m) <==> nodes.contains(m) by {
            assert(all.to_set().contains(m) <==> nodes.contains(m));
        }
    }
    add_cycle_deps(
        &mut lazy,
        import_graph,
        &classified.passing_modules,
        &cycle_children,
        all_cycles,
    );
    let ghost second = lazy.deep_view();
    let n: usize = classified.implicit_imports.len();
    let ghost keys = classified.implicit_imports.keys();
    for i in 0..n
        invariant
            n == keys.len(),
            keys == classified.implicit_imports.keys(),
            implicit == classified.implicit_imports.deep_view(),
            classified.implicit_imports.ordered(),
            passing == classified.passing_modules@,
            forall|m: Seq<char>| #[trigger]
                lazy.deep_view().contains_key(m) <==> second.contains_key(m) || (passing.contains(m)
                    && keys.take(i as int).contains(m)),
            forall|m: Seq<char>, d: Seq<char>| #[trigger]
                set_at(lazy.deep_view(), m).contains(d) <==> set_at(second, m).contains(d) || (
                passing.contains(m) && keys.take(i as int).contains(m) && implicit_dep(implicit, m, d)),
    {
        let name = classified.implicit_imports.key_at(i);
        let ghost x = keys[i as int];
        let ghost before = lazy.deep_view();
        let used = classified.implicit_imports.value_at(i);
        proof {
            crate::name_set::lemma_take_more(keys, i as int);
            assert(implicit.contains_key(x));
            assert(used.deep_view() =~= texts(used@));
            assert(implicit[x] == texts(used@));
        }
        if classified.passing_modules.contains(name) {
            let set = set_of(used);
            add_names(&mut lazy, name, &set);
        }
        proof {
            let now = lazy.deep_view();
            assert forall|m: Seq<char>| keys.take(i + 1).contains(m) <==> keys.take(i as int).contains(m)
                || m == x by {
                assert(keys.take(i + 1).to_set().contains(m) <==> keys.take(i as int).to_set().contains(m)
                    || m == x);
            }
            assert forall|m: Seq<char>, d: Seq<char>| #[trigger]
                set_at(now, m).contains(d) <==> set_at(second, m).contains(d) || (passing.contains(m)
                    && keys.take(i + 1).contains(m) && implicit_dep(implicit, m, d)) by {
                assert(set_at(before, m).contains(d) <==> set_at(second, m).contains(d) || (
                passing.contains(m) && keys.take(i as int).contains(m) && implicit_dep(implicit, m, d)));
            }
        }
    }
    let ghost third = lazy.deep_view();
    proof {
        assert(keys.take(n as int) =~= keys);
        assert forall|m: Seq<char>| keys.contains(m) <==> implicit.contains_key(m) by {
            if keys.contains(m) {
                let j = keys.index_of(m);
                assert(classified.implicit_imports@.contains_key(keys[j]));
            }
            if implicit.contains_key(m) {
                assert(classified.implicit_imports@.contains_key(m));
            }
        }
    }
    propagate_implicit_imports_along_paths(&mut lazy, import_graph, classified);
    proof {
        let last = lazy.deep_view();
        assert forall|m: Seq<char>| #[trigger] last.contains_key(m) <==> passing.contains(m) && (
        nodes.contains(m) || implicit.contains_key(m)) by {
            assert(last.dom().contains(m) <==> third.dom().contains(m));
            assert(second.dom().contains(m) <==> first.dom().contains(m));
            assert(third.contains_key(m) <==> second.contains_key(m) || (passing.contains(m)
                && keys.contains(m)));
        }
        assert forall|m: Seq<char>, d: Seq<char>| #[trigger] set_at(last, m).contains(d) <==> lazy_dep(
            import_graph,
            classified,
            re,
            cycles,
            m,
            d,
        ) by {
            assert(set_at(third, m).contains(d) <==> set_at(second, m).contains(d) || (passing.contains(m)
                && keys.contains(m) && implicit_dep(implicit, m, d)));
            assert(set_at(second, m).contains(d) <==> set_at(first, m).contains(d) || cycles_step(
                import_graph,
                passing,
                children,
                cycles,
                m,
                d,
            ));
            lemma_cycles_step(import_graph, passing, children, cycles, circle, m, d);
        }
    }
    lazy
}

/// What the steps for all cycles add is what the cycles stand in the way of.
proof fn lemma_cycles_step(
    graph: &ImportGraph,
    passing: Set<Seq<char>>,
    children: Map<Seq<char>, Set<Seq<char>>>,
    cycles: Seq<Seq<Seq<char>>>,
    circle: Set<Seq<char>>,
    m: Seq<char>,
    d: Seq<char>,
)
    requires
        forall|p: Seq<char>, x: Seq<char>| #[trigger]
            set_at(children, p).contains(x) <==> graph.graph.node_set().contains(x) && parent_of(x)
                == Some(p) && circle.contains(p),
        forall|x: Seq<char>| #[trigger]
            circle.contains(x) <==> exists|j: int| 0 <= j < cycles.len() && (#[trigger] cycles[j]).contains(x),
    ensures
        cycles_step(graph, passing, children, cycles, m, d) <==> cycle_guard(
            graph,
            cycles,
            passing,
            m,
            d,
        ),
{
    if cycles_step(graph, passing, children, cycles, m, d) {
        let c = choose|c: int|
            0 <= c < cycles.len() && #[trigger] members_step(
                graph,
                passing,
                children,
                cycles[c],
                cycles[c].to_set(),
                m,
                d,
            );
        let k = choose|k: int|
            0 <= k < cycles[c].len() && member_step(
                graph,
                passing,
                children,
                #[trigger] cycles[c][k],
                cycles[c].to_set(),
                m,
                d,
            );
        let member = cycles[c][k];
        assert(cycles[c].contains(member));
        assert(cycle_dep(graph, cycles, member, d));
    }
    if cycle_guard(graph, cycles, passing, m, d) {
        let member = if cycle_dep(graph, cycles, m, d) {
            m
        } else {
            parent_of(m)->0
        };
        let c = choose|c: int|
            0 <= c < cycles.len() && (#[trigger] cycles[c]).contains(member) && cycles[c].contains(d);
        assert(circle.contains(member));
        let k = cycles[c].index_of(member);
        assert(member_step(graph, passing, children, cycles[c][k], cycles[c].to_set(), m, d));
        assert(members_step(graph, passing, children, cycles[c], cycles[c].to_set(), m, d));
    }
}

/// A failing module has no entry. What a passing module of the graph imports stands in its way if it
/// fails or was not found.
pub proof fn failing_imports_stand_in_the_way(
    map: Map<Seq<char>, Set<Seq<char>>>,
    graph: &ImportGraph,
    c: &ClassifiedModules,
    re_exports: Map<Seq<char>, Set<Seq<char>>>,
    cycles: Seq<Seq<Seq<char>>>,
    results: Map<Seq<char>, SafetyResult>,
    module: Seq<char>,
    dep: Seq<char>,
)
    requires
        is_lazy_eligible(map, graph, c, re_exports, cycles),
        classified(c, results),
    ensures
        map.contains_key(module) ==> results.contains_key(module) && passes(results[module]),
        results.contains_key(module) && passes(results[module]) && graph.graph.node_set().contains(module)
            && ((graph.graph.links(module, dep) && results.contains_key(dep) && !passes(results[dep]))
            || set_at(graph.missing(), module).contains(dep)) ==> map.contains_key(module)
            && map[module].contains(dep),
{
    if c.passing_modules@.contains(module) && graph.graph.node_set().contains(module) && direct_dep(
        graph,
        c.failing_modules@,
        re_exports,
        module,
        dep,
    ) {
        assert(lazy_dep(graph, c, re_exports, cycles, module, dep));
        assert(set_at(map, module).contains(dep));
    }
}

} // verus!
