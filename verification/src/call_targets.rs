//! What follows of a call for the functions that it runs: which they are, which parameters of the caller
//! they mutate, and where they are code that is not part of the project.

use crate::call_check::foreign;
use crate::callees::callees;
use crate::candidates::{
    all_candidates, candidates_of, candidates_of_call, candidates_of_effects, enclosing_module, lies_in,
    with_candidate,
};
use crate::class::{field_kind, ClassView, FieldKind};
use crate::effects::{CallView, EffectKind, EffectView, SlotView};
use crate::graph::{is_walk, reaches};
use crate::imports::ImportGraph;
use crate::module_name::{dotted, glue_then_split};
use crate::module_safety::CandidateView;
use crate::mutated_params::{
    call_passes_on, callee_receives, effect_passes_on, mutates, mutates_itself, mutation_goes_up_the_calls,
    mutation_spreads, params_of, slot_fills, some_mutates, spread_relation, Param, Signatures,
};
use crate::name_sets::set_at;
use crate::project_info::ProjectInfo;
use vstd::prelude::*;

verus! {

/// Calling a class runs its `__init__` and `__post_init__` and those of its metaclass that make classes,
/// each on a new object that comes before the arguments. It runs nothing else.
pub proof fn calling_a_class_runs_constructors(
    kind: EffectKind,
    cls: Seq<char>,
    classes: Map<Seq<char>, ClassView>,
    callee: (Seq<char>, usize),
)
    requires
        kind != EffectKind::MethodCall && kind != EffectKind::UnboundMethodCall,
        classes.contains_key(cls),
    ensures
        callees(kind, cls, classes).contains(callee) <==> callee.1 == 1 && (callee.0 == dotted(cls, "__init__"@)
            || callee.0 == dotted(cls, "__post_init__"@) || (classes[cls].metaclass matches Some(meta) && (callee.0
            == dotted(meta, "__new__"@) || callee.0 == dotted(meta, "__init__"@)))),
{
    let list = callees(kind, cls, classes);
    let init = (dotted(cls, "__init__"@), 1usize);
    let post = (dotted(cls, "__post_init__"@), 1usize);
    match classes[cls].metaclass {
        Some(meta) => {
            let new = (dotted(meta, "__new__"@), 1usize);
            let made = (dotted(meta, "__init__"@), 1usize);
            assert(list =~= seq![new, made, init, post]);
            assert(list[0] == new && list[1] == made && list[2] == init && list[3] == post);
        },
        None => {
            assert(list =~= seq![init, post]);
            assert(list[0] == init && list[1] == post);
        },
    }
}

/// A call that is neither of a class nor of a method runs what it names, on the arguments alone.
pub proof fn plain_calls_run_what_they_name(
    kind: EffectKind,
    name: Seq<char>,
    classes: Map<Seq<char>, ClassView>,
    callee: (Seq<char>, usize),
)
    requires
        kind != EffectKind::MethodCall && kind != EffectKind::UnboundMethodCall,
        !classes.contains_key(name),
    ensures
        callees(kind, name, classes).contains(callee) <==> callee == (name, 0usize),
{
    assert(callees(kind, name, classes)[0] == (name, 0usize));
}

/// A call of a method runs the method. A static method gets the arguments alone, a method of the class
/// gets the class before them; one of an object gets the object before them where the call goes through
/// the object. Where nothing is known of the method, a call through the object counts as passing it, and
/// one through the class as passing it or not.
pub proof fn methods_get_what_they_are_called_on(
    cls: Seq<char>,
    attr: Seq<char>,
    classes: Map<Seq<char>, ClassView>,
    callee: (Seq<char>, usize),
)
    requires
        !attr.contains('.'),
    ensures
        ({
            let method = dotted(cls, attr);
            let kind = if classes.contains_key(cls) {
                field_kind(classes[cls].fields, attr)
            } else {
                None
            };
            let bound = callees(EffectKind::MethodCall, method, classes).contains(callee);
            let unbound = callees(EffectKind::UnboundMethodCall, method, classes).contains(callee);
            &&& bound ==> callee.0 == method
            &&& unbound ==> callee.0 == method
            &&& callee.0 == method && kind == Some(FieldKind::StaticMethod) ==> (bound <==> callee.1 == 0) && (unbound
                <==> callee.1 == 0)
            &&& callee.0 == method && kind == Some(FieldKind::ClassMethod) ==> (bound <==> callee.1 == 1) && (unbound
                <==> callee.1 == 1)
            &&& callee.0 == method && kind == Some(FieldKind::InstanceMethod) ==> (bound <==> callee.1 == 1)
                && (unbound <==> callee.1 == 0)
            &&& callee.0 == method && kind is None ==> (bound <==> callee.1 == 1) && (unbound <==> callee.1 == 0
                || callee.1 == 1)
        }),
{
    let method = dotted(cls, attr);
    glue_then_split(cls, attr);
    assert(method.take(cls.len() as int) =~= cls);
    let bound = callees(EffectKind::MethodCall, method, classes);
    let unbound = callees(EffectKind::UnboundMethodCall, method, classes);
    assert(bound.len() == 1);
    assert(bound[0].0 == method);
    assert(bound.contains(bound[0]));
    assert(unbound.contains(unbound[0]));
    if unbound.len() > 1 {
        assert(unbound.len() == 2);
        assert(unbound.contains(unbound[1]));
    }
}

/// An argument of a call fills a parameter of a function with some parameters: by its name, by its
/// position behind the implicit arguments, or, where it is expanded, from its position on.
pub open spec fn fills(slot: SlotView, offset: usize, names: Seq<Seq<char>>, j: int) -> bool {
    0 <= j < names.len() && match slot {
        SlotView::Keyword(name) => name == names[j],
        SlotView::Positional(i) => j == i + offset,
        SlotView::StarExpansion(i) => j >= i + offset,
    }
}

/// A function that calls a method of its parameter mutates the parameter.
pub proof fn parameters_are_mutated_by_calls_of_methods(
    table: Map<Seq<char>, Seq<EffectView>>,
    sig: &Signatures,
    f: Seq<char>,
    i: int,
)
    requires
        table.contains_key(f),
        0 <= i < table[f].len(),
        table[f][i].kind == EffectKind::ParamMethodCall,
    ensures
        mutates(table, sig, (f, table[f][i].name)),
{
    let p = (f, table[f][i].name);
    assert(some_mutates(table[f], p.1));
    mutation_goes_up_the_calls(table, sig, p, p);
}

/// A function that passes its parameter on, to a callee that mutates the parameter which the argument
/// fills, mutates its own parameter.
pub proof fn parameters_are_mutated_by_callees(
    table: Map<Seq<char>, Seq<EffectView>>,
    sig: &Signatures,
    f: Seq<char>,
    i: int,
    call: CallView,
    k: int,
    callee: (Seq<char>, usize),
    names: Seq<Seq<char>>,
    j: int,
)
    requires
        table.contains_key(f),
        0 <= i < table[f].len(),
        table[f][i].kind != EffectKind::ParamMethodCall,
        table[f][i].data == Some(call),
        0 <= k < call.forwarded_params.len(),
        callees(table[f][i].kind, table[f][i].name, sig.classes.deep_view()).contains(callee),
        params_of(sig.functions.deep_view(), sig.analysis_map, callee.0) == Some(names),
        fills(call.forwarded_params[k].0, callee.1, names, j),
        mutates(table, sig, (callee.0, names[j])),
    ensures
        mutates(table, sig, (f, call.forwarded_params[k].1)),
{
    let eff = table[f][i];
    let list = callees(eff.kind, eff.name, sig.classes.deep_view());
    let c = list.index_of(callee);
    let from = (callee.0, names[j]);
    let to = (f, call.forwarded_params[k].1);
    assert(slot_fills(
        call.forwarded_params[k].0,
        callee.1,
        params_of(sig.functions.deep_view(), sig.analysis_map, callee.0),
        names[j],
    ));
    assert(callee_receives(sig, list[c], call.forwarded_params, to.1, from));
    assert(call_passes_on(sig, eff, call.forwarded_params, to.1, from));
    assert(effect_passes_on(sig, table[f][i], to.1, from));
    assert(mutation_spreads(table, sig, from, to));
    mutation_goes_up_the_calls(table, sig, from, to);
}

/// An argument that is given by name fills the parameter of that name, also where the parameters of the
/// callee are not known.
pub proof fn parameters_are_mutated_by_name(
    table: Map<Seq<char>, Seq<EffectView>>,
    sig: &Signatures,
    f: Seq<char>,
    i: int,
    call: CallView,
    k: int,
    callee: (Seq<char>, usize),
    name: Seq<char>,
)
    requires
        table.contains_key(f),
        0 <= i < table[f].len(),
        table[f][i].kind != EffectKind::ParamMethodCall,
        table[f][i].data == Some(call),
        0 <= k < call.forwarded_params.len(),
        callees(table[f][i].kind, table[f][i].name, sig.classes.deep_view()).contains(callee),
        call.forwarded_params[k].0 == SlotView::Keyword(name),
        mutates(table, sig, (callee.0, name)),
    ensures
        mutates(table, sig, (f, call.forwarded_params[k].1)),
{
    let eff = table[f][i];
    let list = callees(eff.kind, eff.name, sig.classes.deep_view());
    let c = list.index_of(callee);
    let from = (callee.0, name);
    let to = (f, call.forwarded_params[k].1);
    assert(callee_receives(sig, list[c], call.forwarded_params, to.1, from));
    assert(call_passes_on(sig, eff, call.forwarded_params, to.1, from));
    assert(effect_passes_on(sig, table[f][i], to.1, from));
    assert(mutation_spreads(table, sig, from, to));
    mutation_goes_up_the_calls(table, sig, from, to);
}

/// A function hands one of its parameters to a callee, as a parameter of the callee.
pub open spec fn hands_on(
    table: Map<Seq<char>, Seq<EffectView>>,
    sig: &Signatures,
    f: Seq<char>,
    param: Seq<char>,
    callee: (Seq<char>, usize),
    to: Seq<char>,
) -> bool {
    exists|i: int, k: int|
        0 <= i < table[f].len() && #[trigger] hands_on_at(sig, table[f][i], param, callee, to, k)
}

/// The k-th parameter that a call passes on goes to a parameter of a callee.
pub open spec fn hands_on_at(
    sig: &Signatures,
    eff: EffectView,
    param: Seq<char>,
    callee: (Seq<char>, usize),
    to: Seq<char>,
    k: int,
) -> bool {
    &&& eff.data matches Some(call)
    &&& 0 <= k < call.forwarded_params.len()
    &&& call.forwarded_params[k].1 == param
    &&& callees(eff.kind, eff.name, sig.classes.deep_view()).contains(callee)
    &&& call.forwarded_params[k].0 == SlotView::Keyword(to) || (params_of(
        sig.functions.deep_view(),
        sig.analysis_map,
        callee.0,
    ) matches Some(names) && exists|j: int| fills(call.forwarded_params[k].0, callee.1, names, j) && #[trigger] names[j]
        == to)
}

/// A function mutates a parameter only where it calls a method of it, or hands it to a callee that
/// mutates it.
pub proof fn mutation_has_a_reason(
    table: Map<Seq<char>, Seq<EffectView>>,
    sig: &Signatures,
    f: Seq<char>,
    param: Seq<char>,
)
    requires
        mutates(table, sig, (f, param)),
    ensures
        table.contains_key(f),
        (exists|i: int|
            0 <= i < table[f].len() && (#[trigger] table[f][i]).kind == EffectKind::ParamMethodCall && table[f][i].name
                == param) || exists|callee: (Seq<char>, usize), to: Seq<char>| #[trigger]
            hands_on(table, sig, f, param, callee, to) && mutates(table, sig, (callee.0, to)),
{
    let p = (f, param);
    let relation = spread_relation(table, sig);
    let seed = choose|seed: Param| #[trigger] mutates_itself(table, seed) && reaches(relation, seed, p);
    let walk = choose|walk: Seq<Param>| #[trigger]
        is_walk(relation, walk) && walk.first() == seed && walk.last() == p;
    if walk.len() == 1 {
        assert(seed == p);
        let i = choose|i: int|
            0 <= i < table[f].len() && crate::mutated_params::is_param_mutation(#[trigger] table[f][i], param);
        assert(table[f][i].kind == EffectKind::ParamMethodCall);
    } else {
        let from = walk[walk.len() - 2];
        let front = walk.drop_last();
        assert forall|i: int| 0 <= i < front.len() - 1 implies relation(#[trigger] front[i], front[i + 1]) by {
            assert(relation(walk[i], walk[i + 1]));
        }
        assert(is_walk(relation, front));
        assert(front.last() == from && front.first() == seed);
        assert(reaches(relation, seed, from));
        assert(mutates(table, sig, from));
        assert(relation(walk[walk.len() - 2], walk[walk.len() - 2 + 1]));
        assert(mutation_spreads(table, sig, from, p));
        let i = choose|i: int| 0 <= i < table[f].len() && effect_passes_on(sig, #[trigger] table[f][i], param, from);
        let eff = table[f][i];
        let call = eff.data->0;
        let list = callees(eff.kind, eff.name, sig.classes.deep_view());
        let c = choose|c: int|
            0 <= c < list.len() && callee_receives(sig, #[trigger] list[c], call.forwarded_params, param, from);
        let callee = list[c];
        assert(list.contains(callee));
        let params = params_of(sig.functions.deep_view(), sig.analysis_map, callee.0);
        let k = choose|k: int|
            0 <= k < call.forwarded_params.len() && (#[trigger] call.forwarded_params[k]).1 == param && slot_fills(
                call.forwarded_params[k].0,
                callee.1,
                params,
                from.1,
            );
        match call.forwarded_params[k].0 {
            SlotView::Keyword(name) => {},
            SlotView::Positional(n) => {
                let names = params->0;
                assert(fills(call.forwarded_params[k].0, callee.1, names, n + callee.1) && names[n + callee.1]
                    == from.1);
            },
            SlotView::StarExpansion(n) => {
                let names = params->0;
                let j = choose|j: int| n + callee.1 <= j < names.len() && #[trigger] names[j] == from.1;
                assert(fills(call.forwarded_params[k].0, callee.1, names, j) && names[j] == from.1);
            },
        }
        assert(hands_on_at(sig, table[f][i], param, callee, from.1, k));
        assert(hands_on(table, sig, f, param, callee, from.1));
        assert(mutates(table, sig, (callee.0, from.1)));
    }
}

/// A module has a candidate.
pub open spec fn has_candidate(
    map: Map<Seq<char>, Seq<CandidateView>>,
    module: Seq<char>,
    candidate: CandidateView,
) -> bool {
    map.contains_key(module) && map[module].contains(candidate)
}

proof fn lemma_with(
    map: Map<Seq<char>, Seq<CandidateView>>,
    found: Option<(Seq<char>, CandidateView)>,
    m: Seq<char>,
    c: CandidateView,
)
    ensures
        has_candidate(with_candidate(map, found), m, c) <==> has_candidate(map, m, c) || found == Some((m, c)),
{
    let after = with_candidate(map, found);
    if let Some((module, candidate)) = found {
        let list = if map.contains_key(module) {
            map[module]
        } else {
            Seq::empty()
        };
        assert(after[module] == list.push(candidate));
        assert(after[module].last() == candidate);
        if has_candidate(map, m, c) && m == module {
            assert(after[m][list.index_of(c)] == c);
        }
        if has_candidate(after, m, c) && m == module && c != candidate {
            let i = after[m].index_of(c);
            assert(list[i] == c);
        }
    }
}

/// A call passes imported objects to a callee that is not part of the project, and that its module
/// imports from where nothing was found; the candidate says so.
pub open spec fn stands_for(
    p: &ProjectInfo,
    graph: &ImportGraph,
    scope: Seq<char>,
    eff: EffectView,
    module: Seq<char>,
    c: CandidateView,
) -> bool {
    &&& eff.data matches Some(call)
    &&& call.has_unsafe_args
    &&& c.imported_args == call.imported_args
    &&& callees(eff.kind, eff.name, p.classes.deep_view()).contains((c.callee, c.arg_offset))
    &&& foreign(p, c.callee)
    &&& lies_in(c.callee, set_at(graph.missing(), module)) || lies_in(c.callee, set_at(graph.ambiguous(), module))
    &&& enclosing_module(scope, p.analysis_map@.dom()) matches Some((m, local)) && m == module && c.site == (match local {
        Some(name) => crate::module_safety::SiteView::Function(name),
        None => crate::module_safety::SiteView::ModuleScope(eff.name),
    })
}

proof fn lemma_of_call(
    p: &ProjectInfo,
    graph: &ImportGraph,
    scope: Seq<char>,
    eff: EffectView,
    call: CallView,
    known: Map<Seq<char>, Seq<CandidateView>>,
    n: int,
    m: Seq<char>,
    c: CandidateView,
)
    requires
        0 <= n <= callees(eff.kind, eff.name, p.classes.deep_view()).len(),
    ensures
        has_candidate(candidates_of_call(p, graph, scope, eff, call, known, n), m, c) <==> has_candidate(known, m, c)
            || exists|k: int|
            0 <= k < n && crate::candidates::candidate_for(
                p,
                graph,
                scope,
                eff,
                call,
                #[trigger] callees(eff.kind, eff.name, p.classes.deep_view())[k],
            ) == Some((m, c)),
    decreases n,
{
    if n > 0 {
        lemma_of_call(p, graph, scope, eff, call, known, n - 1, m, c);
        let list = callees(eff.kind, eff.name, p.classes.deep_view());
        lemma_with(
            candidates_of_call(p, graph, scope, eff, call, known, n - 1),
            crate::candidates::candidate_for(p, graph, scope, eff, call, list[n - 1]),
            m,
            c,
        );
    }
}

proof fn lemma_of_effect(
    p: &ProjectInfo,
    graph: &ImportGraph,
    scope: Seq<char>,
    eff: EffectView,
    call: CallView,
    known: Map<Seq<char>, Seq<CandidateView>>,
    m: Seq<char>,
    c: CandidateView,
)
    requires
        eff.data == Some(call),
        call.has_unsafe_args,
    ensures
        has_candidate(
            candidates_of_call(
                p,
                graph,
                scope,
                eff,
                call,
                known,
                callees(eff.kind, eff.name, p.classes.deep_view()).len() as int,
            ),
            m,
            c,
        ) <==> has_candidate(known, m, c) || stands_for(p, graph, scope, eff, m, c),
{
    let list = callees(eff.kind, eff.name, p.classes.deep_view());
    lemma_of_call(p, graph, scope, eff, call, known, list.len() as int, m, c);
    if stands_for(p, graph, scope, eff, m, c) {
        let k = list.index_of((c.callee, c.arg_offset));
        assert(crate::candidates::candidate_for(p, graph, scope, eff, call, list[k]) == Some((m, c)));
    }
    if exists|k: int|
        0 <= k < list.len() && crate::candidates::candidate_for(p, graph, scope, eff, call, #[trigger] list[k]) == Some(
            (m, c),
        ) {
        let k = choose|k: int|
            0 <= k < list.len() && crate::candidates::candidate_for(p, graph, scope, eff, call, #[trigger] list[k])
                == Some((m, c));
        assert(list.contains(list[k]));
        assert(list[k] == (c.callee, c.arg_offset));
    }
}

proof fn lemma_of_effects(
    p: &ProjectInfo,
    graph: &ImportGraph,
    scope: Seq<char>,
    effs: Seq<EffectView>,
    known: Map<Seq<char>, Seq<CandidateView>>,
    n: int,
    m: Seq<char>,
    c: CandidateView,
)
    requires
        0 <= n <= effs.len(),
    ensures
        has_candidate(candidates_of_effects(p, graph, scope, effs, known, n), m, c) <==> has_candidate(known, m, c)
            || exists|i: int| 0 <= i < n && stands_for(p, graph, scope, #[trigger] effs[i], m, c),
    decreases n,
{
    if n > 0 {
        lemma_of_effects(p, graph, scope, effs, known, n - 1, m, c);
        let before = candidates_of_effects(p, graph, scope, effs, known, n - 1);
        let eff = effs[n - 1];
        if let Some(call) = eff.data {
            if call.has_unsafe_args {
                lemma_of_effect(p, graph, scope, eff, call, before, m, c);
            }
        }
    }
}

spec fn stands_in(
    p: &ProjectInfo,
    graph: &ImportGraph,
    scope: Seq<char>,
    m: Seq<char>,
    c: CandidateView,
) -> bool {
    exists|i: int|
        0 <= i < p.effect_table.deep_view()[scope].len() && stands_for(
            p,
            graph,
            scope,
            #[trigger] p.effect_table.deep_view()[scope][i],
            m,
            c,
        )
}

proof fn lemma_of_scopes(p: &ProjectInfo, graph: &ImportGraph, n: int, m: Seq<char>, c: CandidateView)
    requires
        0 <= n <= p.effect_table.effects().keys().len(),
    ensures
        has_candidate(candidates_of(p, graph, n), m, c) <==> exists|k: int|
            0 <= k < n && stands_in(p, graph, #[trigger] p.effect_table.effects().keys()[k], m, c),
    decreases n,
{
    if n > 0 {
        lemma_of_scopes(p, graph, n - 1, m, c);
        let scope = p.effect_table.effects().keys()[n - 1];
        let effs = p.effect_table.deep_view()[scope];
        lemma_of_effects(p, graph, scope, effs, candidates_of(p, graph, n - 1), effs.len() as int, m, c);
    }
}

/// The candidates of a project are the calls of its scopes that pass imported objects to callees whose
/// code was not found: all of these, and no others.
pub proof fn candidates_are_the_calls_into_unknown_code(
    p: &ProjectInfo,
    graph: &ImportGraph,
    module: Seq<char>,
    c: CandidateView,
)
    requires
        p.effect_table.effects().ordered(),
    ensures
        has_candidate(all_candidates(p, graph), module, c) <==> exists|scope: Seq<char>, i: int|
            p.effect_table.deep_view().contains_key(scope) && 0 <= i < p.effect_table.deep_view()[scope].len()
                && stands_for(p, graph, scope, #[trigger] p.effect_table.deep_view()[scope][i], module, c),
{
    let keys = p.effect_table.effects().keys();
    let table = p.effect_table.deep_view();
    let n = keys.len() as int;
    lemma_of_scopes(p, graph, n, module, c);
    if has_candidate(all_candidates(p, graph), module, c) {
        let k = choose|k: int| 0 <= k < n && stands_in(p, graph, #[trigger] keys[k], module, c);
        assert(keys.contains(keys[k]));
        assert(table.contains_key(keys[k]));
    }
    if exists|scope: Seq<char>, i: int|
        table.contains_key(scope) && 0 <= i < table[scope].len() && stands_for(
            p,
            graph,
            scope,
            #[trigger] table[scope][i],
            module,
            c,
        ) {
        let (scope, i) = choose|scope: Seq<char>, i: int|
            table.contains_key(scope) && 0 <= i < table[scope].len() && stands_for(
                p,
                graph,
                scope,
                #[trigger] table[scope][i],
                module,
                c,
            );
        assert(keys.contains(scope));
        let k = keys.index_of(scope);
        assert(stands_in(p, graph, keys[k], module, c));
    }
}

} // verus!
