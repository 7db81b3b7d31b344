//! Why a module cannot be lazy: that the result names each reason, and names nothing without one.

use crate::classify::{passes, ClassifiedModules};
use crate::exports::{chain_after, chain_ends_at};
use crate::graph::{are_cycles, is_walk, listed, reaches, strongly_connected, Cycle};
use crate::imports::ImportGraph;
use crate::lazy_eligible::{cycle_dep, cycle_guard, implicit_dep, imports_re_exporter, lazy_dep, path_dep};
use crate::module_name::{dotted, parent_of};
use crate::module_safety::SafetyResult;
use crate::name_sets::set_at;
use crate::output::{
    are_source_cycles, comes_from, is_analysis, side_effects_added, source_cycles, source_members,
    LifeGuardAnalysis, OutputOptions,
};
use crate::re_export_map::{ends_in_failing, groups, re_exports_failing};
use crate::reach::{imports_around, imports_transitively};
use vstd::prelude::*;

verus! {

/// What is re-exported, and from where: an attribute of a module, and the attribute that it is.
pub type Sources = Map<(Seq<char>, Seq<char>), (Seq<char>, Seq<char>)>;

/// A result is that of a project whose modules have the given safety, imports and re-exports.
pub open spec fn is_result_of(
    analysis: &LifeGuardAnalysis,
    results: Map<Seq<char>, SafetyResult>,
    graph: &ImportGraph,
    sources: Sources,
    options: OutputOptions,
) -> bool {
    exists|re_exports: Map<Seq<char>, Set<Seq<char>>>|
        groups(
            re_exports,
            |m: Seq<char>, s: Seq<char>| re_exports_failing(sources, analysis.failing_modules@, m, s),
        ) && #[trigger] is_analysis(analysis, results, graph, options, re_exports)
}

/// A module was analyzed, and passes.
pub open spec fn is_passing(results: Map<Seq<char>, SafetyResult>, module: Seq<char>) -> bool {
    results.contains_key(module) && passes(results[module])
}

/// A module was looked at, and fails.
pub open spec fn is_failing(results: Map<Seq<char>, SafetyResult>, module: Seq<char>) -> bool {
    results.contains_key(module) && !passes(results[module])
}

/// In a result, a module stands in the way of another's being lazy.
pub open spec fn stands_in_the_way(analysis: &LifeGuardAnalysis, module: Seq<char>, dep: Seq<char>) -> bool {
    analysis.output.lazy_eligible.deep_view().contains_key(module)
        && analysis.output.lazy_eligible.deep_view()[module].contains(dep)
}

/// Attributes of modules, each of which is re-exported from the next. The last one is not: its
/// module defines it.
pub open spec fn is_re_export_path(sources: Sources, path: Seq<(Seq<char>, Seq<char>)>) -> bool {
    &&& path.len() > 1
    &&& forall|k: int|
        0 <= k < path.len() - 1 ==> sources.contains_key(#[trigger] path[k]) && sources[path[k]] == path[k + 1]
    &&& !sources.contains_key(path.last())
}

/// A module uses another without importing it.
pub open spec fn uses_unimported(results: Map<Seq<char>, SafetyResult>, module: Seq<char>, dep: Seq<char>) -> bool {
    results.contains_key(module) && (results[module] matches SafetyResult::Analyzed(s)
        && s.deep_view().implicit_imports.contains(dep))
}

/// Modules each of which imports the next.
pub open spec fn is_import_path(graph: &ImportGraph, path: Seq<Seq<char>>) -> bool {
    &&& path.len() > 1
    &&& forall|k: int| 0 <= k < path.len() - 1 ==> graph.graph.links(#[trigger] path[k], path[k + 1])
}

proof fn lemma_parts(
    analysis: &LifeGuardAnalysis,
    results: Map<Seq<char>, SafetyResult>,
    graph: &ImportGraph,
    sources: Sources,
    options: OutputOptions,
) -> (res: (Map<Seq<char>, Set<Seq<char>>>, ClassifiedModules, Seq<Seq<Seq<char>>>))
    requires
        is_result_of(analysis, results, graph, sources, options),
    ensures
        groups(
            res.0,
            |m: Seq<char>, s: Seq<char>| re_exports_failing(sources, analysis.failing_modules@, m, s),
        ),
        comes_from(analysis, results, graph, options, res.0, res.1, res.2),
        forall|m: Seq<char>, d: Seq<char>| #[trigger]
            stands_in_the_way(analysis, m, d) <==> lazy_dep(graph, &res.1, res.0, res.2, m, d),
{
    let re_exports = choose|re_exports: Map<Seq<char>, Set<Seq<char>>>|
        groups(
            re_exports,
            |m: Seq<char>, s: Seq<char>| re_exports_failing(sources, analysis.failing_modules@, m, s),
        ) && #[trigger] is_analysis(analysis, results, graph, options, re_exports);
    let (c, cycles) = choose|c: ClassifiedModules, cycles: Seq<Seq<Seq<char>>>| #[trigger]
        comes_from(analysis, results, graph, options, re_exports, c, cycles);
    let map = analysis.output.lazy_eligible.deep_view();
    assert forall|m: Seq<char>, d: Seq<char>| #[trigger] stands_in_the_way(analysis, m, d) <==> lazy_dep(
        graph,
        &c,
        re_exports,
        cycles,
        m,
        d,
    ) by {
        assert(set_at(map, m).contains(d) <==> lazy_dep(graph, &c, re_exports, cycles, m, d));
    }
    (re_exports, c, cycles)
}

proof fn lemma_chain(sources: Sources, path: Seq<(Seq<char>, Seq<char>)>, k: nat)
    requires
        is_re_export_path(sources, path),
        k < path.len(),
    ensures
        chain_after(sources, path[0], k) == Some(path[k as int]),
    decreases k,
{
    if k > 0 {
        lemma_chain(sources, path, (k - 1) as nat);
        assert(sources.contains_key(path[k - 1]));
    }
}

/// Where a passing module imports one that re-exports a name, through however many others, from a
/// failing module that defines it, that failing module stands in the way.
pub proof fn re_exported_failures_stand_in_the_way(
    analysis: &LifeGuardAnalysis,
    results: Map<Seq<char>, SafetyResult>,
    graph: &ImportGraph,
    sources: Sources,
    options: OutputOptions,
    module: Seq<char>,
    path: Seq<(Seq<char>, Seq<char>)>,
)
    requires
        is_result_of(analysis, results, graph, sources, options),
        is_passing(results, module),
        graph.graph.node_set().contains(module),
        is_re_export_path(sources, path),
        graph.graph.links(module, path[0].0),
        is_failing(results, path.last().0),
    ensures
        stands_in_the_way(analysis, module, path.last().0),
{
    let (re_exports, c, cycles) = lemma_parts(analysis, results, graph, sources, options);
    let dep = path.last().0;
    let relation = |m: Seq<char>, s: Seq<char>| re_exports_failing(sources, analysis.failing_modules@, m, s);
    lemma_chain(sources, path, (path.len() - 1) as nat);
    assert(chain_ends_at(sources, path[0], path.last()));
    assert(sources.contains_key(path[0]));
    assert(path[0] == (path[0].0, path[0].1));
    assert(ends_in_failing(sources, path[0], analysis.failing_modules@, dep));
    assert(relation(path[0].0, dep));
    assert(set_at(re_exports, path[0].0).contains(dep));
    assert(imports_re_exporter(graph, re_exports, module, dep));
    assert(lazy_dep(graph, &c, re_exports, cycles, module, dep));
}

/// What a passing module imports stands in its way where it fails or was not found, and so does
/// what it uses without importing it.
pub proof fn failures_and_implicit_imports_stand_in_the_way(
    analysis: &LifeGuardAnalysis,
    results: Map<Seq<char>, SafetyResult>,
    graph: &ImportGraph,
    sources: Sources,
    options: OutputOptions,
    module: Seq<char>,
    dep: Seq<char>,
)
    requires
        is_result_of(analysis, results, graph, sources, options),
        is_passing(results, module),
        (graph.graph.node_set().contains(module) && graph.graph.links(module, dep) && is_failing(results, dep)) || (
        graph.graph.node_set().contains(module) && set_at(graph.missing(), module).contains(dep))
            || uses_unimported(results, module, dep),
    ensures
        stands_in_the_way(analysis, module, dep),
{
    let (re_exports, c, cycles) = lemma_parts(analysis, results, graph, sources, options);
    if uses_unimported(results, module, dep) {
        assert(implicit_dep(c.implicit_imports.deep_view(), module, dep));
    }
    assert(lazy_dep(graph, &c, re_exports, cycles, module, dep));
}

/// Where a passing module uses another without importing it, but a path of imports leads there,
/// that other one stands in the way of every passing module on the path: were one of them lazy, it
/// might not be loaded.
pub proof fn implicit_imports_stand_in_the_way_on_the_path(
    analysis: &LifeGuardAnalysis,
    results: Map<Seq<char>, SafetyResult>,
    graph: &ImportGraph,
    sources: Sources,
    options: OutputOptions,
    path: Seq<Seq<char>>,
    j: int,
)
    requires
        is_result_of(analysis, results, graph, sources, options),
        is_import_path(graph, path),
        is_passing(results, path[0]),
        uses_unimported(results, path[0], path.last()),
        forall|k: int| 0 < k < path.len() - 1 ==> #[trigger] path[k] != path.last(),
        0 < j < path.len() - 1,
        is_passing(results, path[j]),
    ensures
        stands_in_the_way(analysis, path[j], path.last()),
{
    let (re_exports, c, cycles) = lemma_parts(analysis, results, graph, sources, options);
    let dep = path.last();
    let there = path.take(j + 1);
    let rest = path.skip(j);
    let edge = graph.graph.relation();
    assert(is_walk(edge, there)) by {
        assert forall|i: int| 0 <= i < there.len() - 1 implies edge(#[trigger] there[i], there[i + 1]) by {
            assert(graph.graph.links(path[i], path[i + 1]));
        }
    }
    assert(is_walk(edge, rest)) by {
        assert forall|i: int| 0 <= i < rest.len() - 1 implies edge(#[trigger] rest[i], rest[i + 1]) by {
            assert(graph.graph.links(path[j + i], path[j + i + 1]));
        }
    }
    assert(!there.skip(1).contains(dep)) by {
        if there.skip(1).contains(dep) {
            let k = there.skip(1).index_of(dep);
            assert(there.skip(1)[k] == path[k + 1]);
        }
    }
    assert(imports_around(graph, path[0], path[j], dep));
    assert(rest.last() == dep);
    assert(imports_transitively(graph, path[j], dep));
    assert(implicit_dep(c.implicit_imports.deep_view(), path[0], dep));
    assert(path_dep(graph, c.passing_modules@, c.implicit_imports.deep_view(), path[j], dep));
    assert(lazy_dep(graph, &c, re_exports, cycles, path[j], dep));
}

proof fn lemma_source_cycle(graph: &ImportGraph, found: Seq<Cycle>, modules: Set<Seq<char>>, c: int)
    requires
        0 <= c < found.len(),
        source_members(graph, found[c], modules).len() > 0,
    ensures
        source_cycles(graph, found, modules).contains(source_members(graph, found[c], modules)),
    decreases found.len(),
{
    let earlier = source_cycles(graph, found.drop_last(), modules);
    let all = source_cycles(graph, found, modules);
    let members = source_members(graph, found[c], modules);
    if c < found.len() - 1 {
        lemma_source_cycle(graph, found.drop_last(), modules, c);
        let i = earlier.index_of(members);
        assert(all[i] == members);
    } else {
        assert(all.last() == members);
    }
}

proof fn lemma_found_cycle(graph: &ImportGraph, found: Seq<Cycle>, modules: Set<Seq<char>>, i: int) -> (c: int)
    requires
        0 <= i < source_cycles(graph, found, modules).len(),
    ensures
        0 <= c < found.len(),
        source_cycles(graph, found, modules)[i] == source_members(graph, found[c], modules),
    decreases found.len(),
{
    let earlier = source_cycles(graph, found.drop_last(), modules);
    if i < earlier.len() {
        lemma_found_cycle(graph, found.drop_last(), modules, i)
    } else {
        found.len() - 1
    }
}

proof fn lemma_member(graph: &ImportGraph, cycle: Cycle, modules: Set<Seq<char>>, x: Seq<char>)
    ensures
        source_members(graph, cycle, modules).contains(x) <==> modules.contains(x) && exists|k: int|
            0 <= k < cycle@.len() && graph.graph.names()[#[trigger] cycle@[k] as int] == x,
{
    let all = Seq::new(cycle@.len(), |k: int| graph.graph.names()[cycle@[k] as int]);
    let inside = |n: Seq<char>| modules.contains(n);
    let kept = all.filter(inside);
    if kept.contains(x) {
        let i = kept.index_of(x);
        all.lemma_filter_pred(inside, i);
        all.lemma_filter_contains_rev(inside, x);
        let k = all.index_of(x);
        assert(graph.graph.names()[cycle@[k] as int] == x);
    }
    if modules.contains(x) && exists|k: int|
        0 <= k < cycle@.len() && graph.graph.names()[#[trigger] cycle@[k] as int] == x {
        let k = choose|k: int| 0 <= k < cycle@.len() && graph.graph.names()[#[trigger] cycle@[k] as int] == x;
        assert(all[k] == x);
        all.lemma_filter_contains(inside, k);
    }
}

/// Two modules of a project that import each other, in however many steps, are on one cycle.
proof fn lemma_on_a_cycle(
    graph: &ImportGraph,
    modules: Set<Seq<char>>,
    cycles: Seq<Seq<Seq<char>>>,
    a: Seq<char>,
    b: Seq<char>,
)
    requires
        graph.graph.sound(),
        are_source_cycles(graph, modules, cycles),
    ensures
        (exists|c: int| 0 <= c < cycles.len() && (#[trigger] cycles[c]).contains(a) && cycles[c].contains(b))
            ==> strongly_connected(graph.graph.relation(), a, b),
        a != b && graph.graph.node_set().contains(a) && graph.graph.node_set().contains(b) && modules.contains(a)
            && modules.contains(b) && strongly_connected(graph.graph.relation(), a, b) ==> exists|c: int|
            0 <= c < cycles.len() && (#[trigger] cycles[c]).contains(a) && cycles[c].contains(b),
{
    let g = &graph.graph;
    let names = g.names();
    let found = choose|found: Seq<Cycle>| #[trigger]
        are_cycles(&graph.graph, found) && cycles == source_cycles(graph, found, modules);
    if exists|c: int| 0 <= c < cycles.len() && (#[trigger] cycles[c]).contains(a) && cycles[c].contains(b) {
        let c = choose|c: int| 0 <= c < cycles.len() && (#[trigger] cycles[c]).contains(a) && cycles[c].contains(b);
        let f = lemma_found_cycle(graph, found, modules, c);
        lemma_member(graph, found[f], modules, a);
        lemma_member(graph, found[f], modules, b);
        let k = choose|k: int| 0 <= k < found[f]@.len() && names[#[trigger] found[f]@[k] as int] == a;
        let l = choose|l: int| 0 <= l < found[f]@.len() && names[#[trigger] found[f]@[l] as int] == b;
        assert(strongly_connected(g.relation(), names[found[f]@[k] as int], names[found[f]@[l] as int]));
    }
    if a != b && g.node_set().contains(a) && g.node_set().contains(b) && modules.contains(a) && modules.contains(b)
        && strongly_connected(g.relation(), a, b) {
        assert(names.to_set().contains(a) && names.to_set().contains(b));
        let i = names.index_of(a);
        let j = names.index_of(b);
        assert(strongly_connected(g.relation(), names[i], names[j]));
        assert(strongly_connected(g.relation(), names[j], names[i]));
        assert(listed(found, i) && listed(found, j));
        let (c, k) = choose|c: int, k: int|
            0 <= c < found.len() && 0 <= k < found[c]@.len() && #[trigger] found[c]@[k] == i;
        let (d, l) = choose|d: int, l: int|
            0 <= d < found.len() && 0 <= l < found[d]@.len() && #[trigger] found[d]@[l] == j;
        assert(strongly_connected(g.relation(), names[found[c]@[k] as int], names[found[d]@[l] as int]));
        assert(c == d);
        lemma_member(graph, found[c], modules, a);
        lemma_member(graph, found[c], modules, b);
        assert(names[found[c]@[k] as int] == a);
        assert(names[found[c]@[l] as int] == b);
        let members = source_members(graph, found[c], modules);
        assert(members.contains(a) && members.contains(b));
        lemma_source_cycle(graph, found, modules, c);
        let at = cycles.index_of(members);
        assert(cycles[at] == members);
    }
}

/// A name with a dot before its last part has what stands before the dot for a parent.
proof fn lemma_parent(parent: Seq<char>, last: Seq<char>)
    requires
        !last.contains('.'),
    ensures
        parent_of(dotted(parent, last)) == Some(parent),
{
    let name = dotted(parent, last);
    let d = parent.len() as int;
    assert forall|i: int| d < i < name.len() implies name[i] != '.' by {
        assert(name[i] == last[i - d - 1]);
    }
    crate::module_name::lemma_last_dot_is(name, d);
    assert(name.take(d) =~= parent);
}

/// Where a passing module imports another and that one leads back to it, through however many
/// others, the other one stands in its way, and in the way of its passing direct children.
pub proof fn cycles_stand_in_the_way(
    analysis: &LifeGuardAnalysis,
    results: Map<Seq<char>, SafetyResult>,
    graph: &ImportGraph,
    sources: Sources,
    options: OutputOptions,
    path: Seq<Seq<char>>,
    last: Seq<char>,
)
    requires
        is_result_of(analysis, results, graph, sources, options),
        graph.graph.sound(),
        is_import_path(graph, path),
        path.last() == path[0],
        path[1] != path[0],
        is_passing(results, path[0]),
        results.contains_key(path[1]),
        !last.contains('.'),
    ensures
        stands_in_the_way(analysis, path[0], path[1]),
        is_passing(results, dotted(path[0], last)) && graph.graph.node_set().contains(dotted(path[0], last))
            ==> stands_in_the_way(analysis, dotted(path[0], last), path[1]),
{
    let (re_exports, c, cycles) = lemma_parts(analysis, results, graph, sources, options);
    let edge = graph.graph.relation();
    let a = path[0];
    let b = path[1];
    assert(graph.graph.links(a, b));
    let there = path.take(2);
    let back = path.skip(1);
    assert(is_walk(edge, there)) by {
        assert forall|i: int| 0 <= i < there.len() - 1 implies edge(#[trigger] there[i], there[i + 1]) by {
            assert(graph.graph.links(path[i], path[i + 1]));
        }
    }
    assert(is_walk(edge, back)) by {
        assert forall|i: int| 0 <= i < back.len() - 1 implies edge(#[trigger] back[i], back[i + 1]) by {
            assert(graph.graph.links(path[1 + i], path[1 + i + 1]));
        }
    }
    assert(there.first() == a && there.last() == b && back.first() == b && back.last() == a);
    assert(reaches(edge, a, b) && reaches(edge, b, a));
    lemma_on_a_cycle(graph, results.dom(), cycles, a, b);
    assert(cycle_dep(graph, cycles, a, b));
    assert(lazy_dep(graph, &c, re_exports, cycles, a, b));
    let child = dotted(a, last);
    lemma_parent(a, last);
    if is_passing(results, child) && graph.graph.node_set().contains(child) {
        assert(cycle_guard(graph, cycles, c.passing_modules@, child, b));
        assert(lazy_dep(graph, &c, re_exports, cycles, child, b));
    }
}

/// The end of what a module re-exports lies in another one.
pub open spec fn re_exports_from(sources: Sources, module: Seq<char>, dep: Seq<char>) -> bool {
    exists|attr: Seq<char>, end: (Seq<char>, Seq<char>)|
        sources.contains_key((module, attr)) && #[trigger] chain_ends_at(sources, (module, attr), end) && end.0 == dep
}

/// Nothing stands in the way of a module without a reason: only of a module that passes, and then
/// it is missing, or fails and is imported or re-exported by something that is imported, or is
/// imported on a cycle by the module or by its parent, or is used without being imported by the
/// module or by one that leads to it.
pub proof fn what_stands_in_the_way_has_a_reason(
    analysis: &LifeGuardAnalysis,
    results: Map<Seq<char>, SafetyResult>,
    graph: &ImportGraph,
    sources: Sources,
    options: OutputOptions,
    module: Seq<char>,
    dep: Seq<char>,
)
    requires
        is_result_of(analysis, results, graph, sources, options),
        graph.graph.sound(),
        stands_in_the_way(analysis, module, dep),
    ensures
        is_passing(results, module),
        set_at(graph.missing(), module).contains(dep) || (is_failing(results, dep) && (graph.graph.links(module, dep)
            || exists|i: Seq<char>| #[trigger] graph.graph.links(module, i) && re_exports_from(sources, i, dep))) || (
        graph.graph.links(module, dep) && reaches(graph.graph.relation(), dep, module)) || (exists|parent: Seq<char>|
            parent_of(module) == Some(parent) && is_passing(results, parent) && #[trigger] graph.graph.links(
                parent,
                dep,
            ) && reaches(graph.graph.relation(), dep, parent)) || uses_unimported(results, module, dep) || (
        exists|user: Seq<char>| #[trigger]
            uses_unimported(results, user, dep) && is_passing(results, user) && reaches(
                graph.graph.relation(),
                user,
                module,
            ) && reaches(graph.graph.relation(), module, dep)),
{
    let (re_exports, c, cycles) = lemma_parts(analysis, results, graph, sources, options);
    let implicit = c.implicit_imports.deep_view();
    let edge = graph.graph.relation();
    assert(lazy_dep(graph, &c, re_exports, cycles, module, dep));
    if imports_re_exporter(graph, re_exports, module, dep) {
        let i = choose|i: Seq<char>| #[trigger]
            graph.graph.links(module, i) && set_at(re_exports, i).contains(dep);
        let relation = |m: Seq<char>, s: Seq<char>| re_exports_failing(sources, analysis.failing_modules@, m, s);
        assert(relation(i, dep));
        let attr = choose|attr: Seq<char>| #[trigger]
            sources.contains_key((i, attr)) && ends_in_failing(sources, (i, attr), analysis.failing_modules@, dep);
        let end = choose|end: (Seq<char>, Seq<char>)| #[trigger]
            chain_ends_at(sources, (i, attr), end) && end.0 == dep;
        assert(re_exports_from(sources, i, dep));
    } else if cycle_guard(graph, cycles, c.passing_modules@, module, dep) {
        if cycle_dep(graph, cycles, module, dep) {
            lemma_on_a_cycle(graph, results.dom(), cycles, module, dep);
        } else {
            let parent = parent_of(module)->Some_0;
            lemma_on_a_cycle(graph, results.dom(), cycles, parent, dep);
            assert(graph.graph.links(parent, dep));
        }
    } else if implicit_dep(implicit, module, dep) {
        assert(uses_unimported(results, module, dep));
    } else if path_dep(graph, c.passing_modules@, implicit, module, dep) {
        let user = choose|user: Seq<char>|
            c.passing_modules@.contains(user) && #[trigger] implicit_dep(implicit, user, dep) && imports_around(
                graph,
                user,
                module,
                dep,
            ) && imports_transitively(graph, module, dep);
        assert(uses_unimported(results, user, dep));
        assert(reaches(edge, user, module) && reaches(edge, module, dep));
    }
}

/// With the imports that nothing uses, whatever stood in the way still does. Such an import of a
/// passing module stands in its way, too, if something stands in the way of what is imported, and
/// that is all that comes.
pub proof fn unused_imports_stand_in_the_way(
    before: &LifeGuardAnalysis,
    after: &LifeGuardAnalysis,
    side_effects: Map<Seq<char>, Set<Seq<char>>>,
    module: Seq<char>,
    dep: Seq<char>,
)
    requires
        side_effects_added(before, after, side_effects),
    ensures
        stands_in_the_way(after, module, dep) <==> stands_in_the_way(before, module, dep) || (set_at(
            side_effects,
            module,
        ).contains(dep) && before.passing_modules@.contains(module) && exists|other: Seq<char>| #[trigger]
            stands_in_the_way(before, dep, other)),
{
    let lazy = before.output.lazy_eligible.deep_view();
    if set_at(side_effects, module).contains(dep) {
        if exists|other: Seq<char>| #[trigger] stands_in_the_way(before, dep, other) {
            let other = choose|other: Seq<char>| #[trigger] stands_in_the_way(before, dep, other);
            assert(lazy[dep].contains(other));
            assert(crate::output::blocked(lazy).contains(dep));
        }
        if crate::output::blocked(lazy).contains(dep) {
            let other = choose|x: Seq<char>| lazy[dep].contains(x);
            assert(stands_in_the_way(before, dep, other));
        }
    }
}

} // verus!
