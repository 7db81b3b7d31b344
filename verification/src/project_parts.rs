//! What is brought together of the modules of a project: all that each of them has, and nothing else.

use crate::analyzer::{AnalysisMap, AnalyzedModule};
use crate::call_targets::has_candidate;
use crate::candidates::all_candidates;
use crate::definitions::DefinitionTable;
use crate::eager_reasons::{
    eager_in, effects_in_all_scopes_force_eager_imports, verdicts_are_arranged_by_the_nearest_module,
};
use crate::effects::{merged_effects, table_with, EffectView};
use crate::errors::ErrorView;
use crate::exports::Exports;
use crate::imports::ImportGraph;
use crate::known_parents::is_nearest;
use crate::module_name::{dotted, parent_of};
use crate::module_safety::{CandidateView, FunctionInfoView};
use crate::project::{module_result, with_params, ExecutionMode};
use crate::project_info::{
    brought_together, bubbled, classes_of, effects_of, functions_of, methods_of, name_lists, nested_in, nested_of,
    ProjectInfo,
};
use crate::stub_occurrences::has_effect;
use vstd::prelude::*;

verus! {

/// An effect of a module happens in a scope: it is one of the scope, or of a class body inside of the
/// scope, which is a function.
pub open spec fn happens_in(output: AnalyzedModule, scope: Seq<char>, e: EffectView) -> bool {
    ||| has_effect(output.module_effects.effects.deep_view(), scope, e)
    ||| exists|inner: Seq<char>| #[trigger]
        has_effect(output.module_effects.effects.deep_view(), inner, e) && runs_with(output, inner, scope)
}

/// A scope is not that of a function, and runs with a function round it.
pub open spec fn runs_with(output: AnalyzedModule, inner: Seq<char>, function: Seq<char>) -> bool {
    let outer = output.definitions.enclosing_functions.deep_view();
    outer.contains_key(inner) && outer[inner] == function && !output.definitions.functions@.contains(inner)
}

proof fn lemma_table_with(
    table: Map<Seq<char>, Seq<EffectView>>,
    at: Seq<char>,
    effs: Seq<EffectView>,
    k: Seq<char>,
    e: EffectView,
)
    ensures
        has_effect(table_with(table, at, effs), k, e) <==> has_effect(table, k, e) || (k == at && effs.contains(e)),
{
    let after = table_with(table, at, effs);
    if has_effect(table, k, e) {
        let i = table[k].index_of(e);
        assert(after[k][i] == e);
    }
    if k == at && effs.contains(e) {
        let i = effs.index_of(e);
        if table.contains_key(at) {
            assert(after[k][table[k].len() + i] == e);
        }
    }
    if has_effect(after, k, e) && k == at && !effs.contains(e) {
        let i = after[k].index_of(e);
        if table.contains_key(at) {
            if i < table[k].len() {
                assert(table[k][i] == e);
            } else {
                assert(effs[i - table[k].len()] == e);
            }
        }
    }
}

proof fn lemma_merged(
    a: Map<Seq<char>, Seq<EffectView>>,
    b: Map<Seq<char>, Seq<EffectView>>,
    k: Seq<char>,
    e: EffectView,
)
    ensures
        has_effect(merged_effects(a, b), k, e) <==> has_effect(a, k, e) || has_effect(b, k, e),
{
    let m = merged_effects(a, b);
    if has_effect(a, k, e) {
        assert(m[k][a[k].index_of(e)] == e);
    }
    if has_effect(b, k, e) {
        let i = b[k].index_of(e);
        if a.contains_key(k) {
            assert(m[k][a[k].len() + i] == e);
        }
    }
    if has_effect(m, k, e) {
        let i = m[k].index_of(e);
        if a.contains_key(k) && i < a[k].len() {
            assert(a[k][i] == e);
        } else if a.contains_key(k) {
            assert(b[k][i - a[k].len()] == e);
        }
    }
}

proof fn lemma_bubbled(
    table: Map<Seq<char>, Seq<EffectView>>,
    output: &AnalyzedModule,
    n: int,
    k: Seq<char>,
    e: EffectView,
)
    requires
        output.module_effects.effects.effects().ordered(),
        0 <= n <= output.module_effects.effects.effects().keys().len(),
    ensures
        has_effect(bubbled(table, output, n), k, e) <==> has_effect(table, k, e) || exists|i: int|
            0 <= i < n && runs_with(*output, #[trigger] output.module_effects.effects.effects().keys()[i], k)
                && has_effect(
                output.module_effects.effects.deep_view(),
                output.module_effects.effects.effects().keys()[i],
                e,
            ),
    decreases n,
{
    if n > 0 {
        lemma_bubbled(table, output, n - 1, k, e);
        let keys = output.module_effects.effects.effects().keys();
        let scope = keys[n - 1];
        assert(keys.contains(scope));
        let own = output.module_effects.effects.deep_view();
        assert(own.contains_key(scope));
        let outer = output.definitions.enclosing_functions.deep_view();
        lemma_table_with(bubbled(table, output, n - 1), outer[scope], own[scope], k, e);
    }
}

/// The tables of effects of all modules list their scopes.
pub open spec fn lists_scopes(map: &AnalysisMap) -> bool {
    &&& map.ordered()
    &&& forall|m: Seq<char>| #[trigger] map@.contains_key(m) ==> map@[m].module_effects.effects.effects().ordered()
}

proof fn lemma_effects_of(map: &AnalysisMap, n: int, k: Seq<char>, e: EffectView)
    requires
        lists_scopes(map),
        0 <= n <= map.keys().len(),
    ensures
        has_effect(effects_of(map, n), k, e) <==> exists|i: int|
            0 <= i < n && happens_in(map@[#[trigger] map.keys()[i]], k, e),
    decreases n,
{
    if n > 0 {
        lemma_effects_of(map, n - 1, k, e);
        let m = map.keys()[n - 1];
        assert(map.keys().contains(m));
        let output = map@[m];
        let own = output.module_effects.effects.deep_view();
        let keys = output.module_effects.effects.effects().keys();
        lemma_merged(effects_of(map, n - 1), own, k, e);
        lemma_bubbled(merged_effects(effects_of(map, n - 1), own), &output, keys.len() as int, k, e);
        if happens_in(output, k, e) && !has_effect(own, k, e) {
            let inner = choose|inner: Seq<char>| #[trigger] has_effect(own, inner, e) && runs_with(output, inner, k);
            assert(keys.contains(inner));
            let i = keys.index_of(inner);
            assert(runs_with(output, keys[i], k));
        }
        if has_effect(effects_of(map, n), k, e) && !has_effect(effects_of(map, n - 1), k, e) {
            assert(happens_in(map@[map.keys()[n - 1]], k, e));
        }
    }
}

/// The table of effects of a project has all effects of its modules, each in its scope, and those of a
/// class body inside of a function in the function too. It has no others.
pub proof fn effects_of_modules_are_brought_together(
    map: &AnalysisMap,
    exports: &Exports,
    res: &ProjectInfo,
    scope: Seq<char>,
    e: EffectView,
)
    requires
        brought_together(map, exports, res),
        lists_scopes(map),
    ensures
        has_effect(res.effect_table.deep_view(), scope, e) <==> exists|m: Seq<char>| #[trigger]
            map@.contains_key(m) && happens_in(map@[m], scope, e),
{
    let n = map.keys().len() as int;
    lemma_effects_of(map, n, scope, e);
    if exists|m: Seq<char>| #[trigger] map@.contains_key(m) && happens_in(map@[m], scope, e) {
        let m = choose|m: Seq<char>| #[trigger] map@.contains_key(m) && happens_in(map@[m], scope, e);
        assert(map.keys().contains(m));
        let i = map.keys().index_of(m);
        assert(happens_in(map@[map.keys()[i]], scope, e));
    }
    if has_effect(effects_of(map, n), scope, e) {
        let i = choose|i: int| 0 <= i < n && happens_in(map@[#[trigger] map.keys()[i]], scope, e);
        assert(map.keys().contains(map.keys()[i]));
        assert(map@.contains_key(map.keys()[i]));
    }
}

proof fn lemma_definitions_of(map: &AnalysisMap, n: int, x: Seq<char>)
    requires
        map.ordered(),
        0 <= n <= map.keys().len(),
    ensures
        functions_of(map, n).contains_key(x) <==> exists|i: int|
            0 <= i < n && map@[#[trigger] map.keys()[i]].definitions.functions@.contains(x),
        functions_of(map, n).contains_key(x) ==> map@.contains_key(functions_of(map, n)[x])
            && map@[functions_of(map, n)[x]].definitions.functions@.contains(x),
        classes_of(map, n).contains_key(x) <==> exists|i: int|
            0 <= i < n && map@[#[trigger] map.keys()[i]].classes.deep_view().contains_key(x),
        classes_of(map, n).contains_key(x) ==> exists|i: int|
            0 <= i < n && map@[#[trigger] map.keys()[i]].classes.deep_view().contains_key(x) && classes_of(map, n)[x]
                == map@[map.keys()[i]].classes.deep_view()[x],
        methods_of(map, n).contains_key(x) <==> exists|i: int|
            0 <= i < n && map@[#[trigger] map.keys()[i]].module_effects.indirectly_called_methods.deep_view().contains_key(x),
    decreases n,
{
    if n > 0 {
        lemma_definitions_of(map, n - 1, x);
        let m = map.keys()[n - 1];
        assert(map.keys().contains(m));
        if classes_of(map, n).contains_key(x) {
            if map@[m].classes.deep_view().contains_key(x) {
                assert(map@[map.keys()[n - 1]].classes.deep_view().contains_key(x));
            } else {
                let i = choose|i: int|
                    0 <= i < n - 1 && map@[#[trigger] map.keys()[i]].classes.deep_view().contains_key(x) && classes_of(
                        map,
                        n - 1,
                    )[x] == map@[map.keys()[i]].classes.deep_view()[x];
                assert(map@[map.keys()[i]].classes.deep_view().contains_key(x));
            }
        }
    }
}

/// The functions of a project are those of its modules, each with a module that has it; its classes are
/// those of its modules too, and say what one of these says.
pub proof fn definitions_of_modules_are_brought_together(
    map: &AnalysisMap,
    exports: &Exports,
    res: &ProjectInfo,
    x: Seq<char>,
)
    requires
        brought_together(map, exports, res),
        map.ordered(),
    ensures
        res.functions.deep_view().contains_key(x) <==> exists|m: Seq<char>| #[trigger]
            map@.contains_key(m) && map@[m].definitions.functions@.contains(x),
        res.functions.deep_view().contains_key(x) ==> map@.contains_key(res.functions.deep_view()[x])
            && map@[res.functions.deep_view()[x]].definitions.functions@.contains(x),
        res.classes.deep_view().contains_key(x) <==> exists|m: Seq<char>| #[trigger]
            map@.contains_key(m) && map@[m].classes.deep_view().contains_key(x),
        res.classes.deep_view().contains_key(x) ==> exists|m: Seq<char>| #[trigger]
            map@.contains_key(m) && map@[m].classes.deep_view().contains_key(x) && res.classes.deep_view()[x]
                == map@[m].classes.deep_view()[x],
        res.methods.deep_view().contains_key(x) <==> exists|m: Seq<char>| #[trigger]
            map@.contains_key(m) && map@[m].module_effects.indirectly_called_methods.deep_view().contains_key(x),
{
    let n = map.keys().len() as int;
    let keys = map.keys();
    lemma_definitions_of(map, n, x);
    assert forall|m: Seq<char>| #[trigger] map@.contains_key(m) implies exists|i: int|
        0 <= i < n && #[trigger] keys[i] == m by {
        assert(keys.contains(m));
        assert(keys[keys.index_of(m)] == m);
    }
    assert forall|i: int| 0 <= i < n implies map@.contains_key(#[trigger] keys[i]) by {
        assert(keys.contains(keys[i]));
    }
}

proof fn lemma_nested_in(known: Map<Seq<char>, Seq<Seq<char>>>, defs: &DefinitionTable, n: int, f: Seq<char>, c: Seq<char>)
    requires
        0 <= n <= defs.enclosing_functions.keys().len(),
    ensures
        lists(nested_in(known, defs, n), f, c) <==> lists(known, f, c) || exists|i: int|
            0 <= i < n && c == #[trigger] defs.enclosing_functions.keys()[i] && is_nested(defs, f, c),
    decreases n,
{
    if n > 0 {
        lemma_nested_in(known, defs, n - 1, f, c);
        let before = nested_in(known, defs, n - 1);
        let child = defs.enclosing_functions.keys()[n - 1];
        let parent = defs.enclosing_functions.deep_view()[child];
        let after = nested_in(known, defs, n);
        if defs.functions@.contains(child) && parent_of(child) == Some(parent) && f == parent {
            let list = if before.contains_key(parent) {
                before[parent]
            } else {
                Seq::empty()
            };
            assert(after[parent] == list.push(child));
            assert(after[parent].last() == child);
            if list.contains(c) {
                assert(after[parent][list.index_of(c)] == c);
            }
            if after[parent].contains(c) && c != child {
                let i = after[parent].index_of(c);
                assert(list[i] == c);
            }
        }
    }
}

/// A list of names under a name has another.
pub open spec fn lists(map: Map<Seq<char>, Seq<Seq<char>>>, key: Seq<char>, name: Seq<char>) -> bool {
    map.contains_key(key) && map[key].contains(name)
}

/// A function is directly inside of another.
pub open spec fn is_nested(defs: &DefinitionTable, f: Seq<char>, c: Seq<char>) -> bool {
    &&& defs.functions@.contains(c)
    &&& defs.enclosing_functions.deep_view()[c] == f
    &&& parent_of(c) == Some(f)
}

proof fn lemma_nested_of(map: &AnalysisMap, n: int, f: Seq<char>, c: Seq<char>)
    requires
        map.ordered(),
        0 <= n <= map.keys().len(),
    ensures
        lists(nested_of(map, n), f, c) <==> exists|k: int|
            0 <= k < n && nested_listed(&map@[#[trigger] map.keys()[k]].definitions, f, c),
    decreases n,
{
    if n > 0 {
        lemma_nested_of(map, n - 1, f, c);
        let defs = map@[map.keys()[n - 1]].definitions;
        lemma_nested_in(nested_of(map, n - 1), &defs, defs.enclosing_functions.keys().len() as int, f, c);
    }
}

spec fn nested_listed(defs: &DefinitionTable, f: Seq<char>, c: Seq<char>) -> bool {
    exists|i: int|
        0 <= i < defs.enclosing_functions.keys().len() && c == #[trigger] defs.enclosing_functions.keys()[i] && is_nested(
            defs,
            f,
            c,
        )
}

/// The functions that a project has on record as directly inside of a function are those that some
/// module of it defines there.
pub proof fn nested_functions_are_brought_together(
    map: &AnalysisMap,
    exports: &Exports,
    res: &ProjectInfo,
    f: Seq<char>,
    c: Seq<char>,
)
    requires
        brought_together(map, exports, res),
        map.ordered(),
        res.analysis_map.ordered(),
        forall|m: Seq<char>| #[trigger] map@.contains_key(m) ==> map@[m].definitions.enclosing_functions.ordered(),
    ensures
        lists(name_lists(res.nested_functions@), f, c) <==> exists|m: Seq<char>| #[trigger]
            map@.contains_key(m) && map@[m].definitions.enclosing_functions@.contains_key(c) && is_nested(
                &map@[m].definitions,
                f,
                c,
            ),
{
    let after = &res.analysis_map;
    let n = map.keys().len() as int;
    lemma_nested_of(after, n, f, c);
    if lists(nested_of(after, n), f, c) {
        let k = choose|k: int| 0 <= k < n && nested_listed(&after@[#[trigger] after.keys()[k]].definitions, f, c);
        let m = after.keys()[k];
        assert(after.keys().contains(m));
        assert(after@.contains_key(m) && map@.contains_key(m));
        let defs = map@[m].definitions;
        let i = choose|i: int|
            0 <= i < defs.enclosing_functions.keys().len() && c == #[trigger] defs.enclosing_functions.keys()[i]
                && is_nested(&defs, f, c);
        assert(defs.enclosing_functions.keys().contains(c));
        assert(defs.enclosing_functions@.contains_key(c));
    }
    if exists|m: Seq<char>| #[trigger]
        map@.contains_key(m) && map@[m].definitions.enclosing_functions@.contains_key(c) && is_nested(
            &map@[m].definitions,
            f,
            c,
        ) {
        let m = choose|m: Seq<char>| #[trigger]
            map@.contains_key(m) && map@[m].definitions.enclosing_functions@.contains_key(c) && is_nested(
                &map@[m].definitions,
                f,
                c,
            );
        assert(after@.contains_key(m));
        let defs = after@[m].definitions;
        assert(defs == map@[m].definitions);
        assert(defs.enclosing_functions.keys().contains(c));
        let i = defs.enclosing_functions.keys().index_of(c);
        assert(defs.enclosing_functions.keys()[i] == c);
        assert(nested_listed(&defs, f, c));
        assert(after.keys().contains(m));
        let k = after.keys().index_of(m);
        assert(nested_listed(&after@[after.keys()[k]].definitions, f, c));
    }
}

/// What came of a module that could be analyzed says, besides its errors, what makes it load its imports
/// eagerly and which modules it uses without importing them. Where libraries are analyzed one by one, it
/// also says what is known of each of the module's functions, and which of its calls may mutate imported
/// objects.
pub proof fn results_tell_all_of_a_module(
    p: &ProjectInfo,
    graph: &ImportGraph,
    known: Map<Seq<char>, FunctionInfoView>,
    mode: ExecutionMode,
    module: Seq<char>,
    e: ErrorView,
    local: Seq<char>,
    c: CandidateView,
)
    requires
        module_result(p, graph, known, mode, module) is Analyzed,
        p.analysis_map@[module].module_effects.effects.effects().ordered(),
    ensures
        ({
            let found = module_result(p, graph, known, mode, module)->Analyzed_0;
            let output = p.analysis_map@[module];
            let f = dotted(module, local);
            &&& found.overrides.contains(e) <==> exists|scope: Seq<char>| #[trigger]
                output.module_effects.effects.deep_view().contains_key(scope) && eager_in(&output, scope, e)
            &&& found.implicit_imports == output.implicit_imports.items()
            &&& mode == ExecutionMode::Incremental ==> (found.function_safety.contains_key(local) <==> known.contains_key(
                f,
            ) && is_nearest(module, f, p.analysis_map@.dom()) && !p.analysis_map@.contains_key(f))
            &&& mode == ExecutionMode::Incremental && found.function_safety.contains_key(local)
                ==> found.function_safety[local].verdict == known[f].verdict
                && found.function_safety[local].missing_dep_callees == known[f].missing_dep_callees
            &&& mode == ExecutionMode::Incremental ==> (found.mutation_candidates.contains(c) <==> has_candidate(
                all_candidates(p, graph),
                module,
                c,
            ))
        }),
{
    let output = p.analysis_map@[module];
    effects_in_all_scopes_force_eager_imports(&output, e);
    verdicts_are_arranged_by_the_nearest_module(
        with_params(p, known),
        p.analysis_map@.dom(),
        false,
        module,
        local,
    );
    let f = dotted(module, local);
    assert(with_params(p, known).contains_key(f) == known.contains_key(f));
    assert(p.analysis_map@.dom().contains(f) == p.analysis_map@.contains_key(f));
}

} // verus!
