//! Which parameters functions mutate.

use crate::analyzer::AnalysisMap;
use crate::attribute::{attributes_of, AttrMap, Attribute};
use crate::callees::{callee_views, callees, iter_callees};
use crate::class::ClassTable;
use crate::effects::{
    forwards, ArgSlot, Effect, EffectData, EffectKind, EffectTable, EffectView, SlotView,
};
use crate::graph::reaches;
use crate::module_name::ModuleName;
use crate::name_map::NameMap;
use crate::name_sets::{add_name, pair_set, NameSets};
use crate::reach::{lemma_closed, lemma_reach_self, lemma_reach_step};
use vstd::prelude::*;

verus! {

/// A parameter of a function: the function's full name and the parameter's name.
pub type Param = (Seq<char>, Seq<char>);

/// The names of a function's parameters, where its module is known.
pub open spec fn params_of(
    functions: Map<Seq<char>, Seq<char>>,
    map: &AnalysisMap,
    function: Seq<char>,
) -> Option<Seq<Seq<char>>> {
    if functions.contains_key(function) && map@.contains_key(functions[function]) {
        let params = map@[functions[function]].definitions.param_names;
        if params@.contains_key(function) {
            Some(params@[function].deep_view())
        } else {
            None
        }
    } else {
        None
    }
}

/// An argument may fill a parameter of the callee.
pub open spec fn slot_fills(
    slot: SlotView,
    offset: usize,
    params: Option<Seq<Seq<char>>>,
    param: Seq<char>,
) -> bool {
    match slot {
        SlotView::Keyword(name) => name == param,
        SlotView::Positional(i) => params matches Some(names) && i + offset < names.len() && names[i + offset]
            == param,
        SlotView::StarExpansion(start) => match params {
            Some(names) => occurs_from(names, start + offset, param),
            None => false,
        },
    }
}

/// A name occurs at a position or behind it.
pub open spec fn occurs_from(names: Seq<Seq<char>>, start: int, name: Seq<char>) -> bool {
    exists|j: int| start <= j < names.len() && #[trigger] names[j] == name
}

/// A function mutates a parameter itself.
pub open spec fn mutates_itself(table: Map<Seq<char>, Seq<EffectView>>, p: Param) -> bool {
    table.contains_key(p.0) && some_mutates(table[p.0], p.1)
}

/// One of some effects mutates a parameter.
pub open spec fn some_mutates(effs: Seq<EffectView>, param: Seq<char>) -> bool {
    exists|i: int| 0 <= i < effs.len() && is_param_mutation(#[trigger] effs[i], param)
}

/// An effect mutates a parameter.
pub open spec fn is_param_mutation(eff: EffectView, param: Seq<char>) -> bool {
    eff.kind == EffectKind::ParamMethodCall && eff.name == param
}

/// What is needed to see where parameters are passed on to.
pub struct Signatures<'a> {
    pub functions: &'a NameMap<ModuleName>,
    pub classes: &'a ClassTable,
    pub analysis_map: &'a AnalysisMap,
}

/// An effect passes a parameter of its function on to a parameter of another.
pub open spec fn effect_passes_on(sig: &Signatures, eff: EffectView, param: Seq<char>, to: Param) -> bool {
    eff.kind != EffectKind::ParamMethodCall && match eff.data {
        Some(call) => call_passes_on(sig, eff, call.forwarded_params, param, to),
        None => false,
    }
}

/// A call passes a parameter of its function on to a parameter of one of its callees.
pub open spec fn call_passes_on(
    sig: &Signatures,
    eff: EffectView,
    forwarded: Seq<(SlotView, Seq<char>)>,
    param: Seq<char>,
    to: Param,
) -> bool {
    exists|c: int|
        0 <= c < callees(eff.kind, eff.name, sig.classes.deep_view()).len() && callee_receives(
            sig,
            #[trigger] callees(eff.kind, eff.name, sig.classes.deep_view())[c],
            forwarded,
            param,
            to,
        )
}

/// A callee receives a parameter of the calling function as one of its own.
pub open spec fn callee_receives(
    sig: &Signatures,
    callee: (Seq<char>, usize),
    forwarded: Seq<(SlotView, Seq<char>)>,
    param: Seq<char>,
    to: Param,
) -> bool {
    callee.0 == to.0 && exists|k: int|
        0 <= k < forwarded.len() && (#[trigger] forwarded[k]).1 == param && slot_fills(
            forwarded[k].0,
            callee.1,
            params_of(sig.functions.deep_view(), sig.analysis_map, callee.0),
            to.1,
        )
}

/// Mutation of one parameter makes another mutated: that of the caller which is passed on to it.
pub open spec fn mutation_spreads(
    table: Map<Seq<char>, Seq<EffectView>>,
    sig: &Signatures,
    from: Param,
    to: Param,
) -> bool {
    table.contains_key(to.0) && some_passes_on(sig, table[to.0], to.1, from)
}

/// One of some effects passes a parameter of its function on to a parameter of another.
pub open spec fn some_passes_on(sig: &Signatures, effs: Seq<EffectView>, param: Seq<char>, to: Param) -> bool {
    exists|i: int| 0 <= i < effs.len() && effect_passes_on(sig, #[trigger] effs[i], param, to)
}

/// How mutation spreads, as a relation.
pub open spec fn spread_relation(
    table: Map<Seq<char>, Seq<EffectView>>,
    sig: &Signatures,
) -> spec_fn(Param, Param) -> bool {
    |a: Param, b: Param| mutation_spreads(table, sig, a, b)
}

/// A function mutates a parameter, itself or by passing it on.
pub open spec fn mutates(table: Map<Seq<char>, Seq<EffectView>>, sig: &Signatures, p: Param) -> bool {
    exists|seed: Param| #[trigger]
        mutates_itself(table, seed) && reaches(spread_relation(table, sig), seed, p)
}

/// What a list of pairs of parameters is.
pub open spec fn edge_views(edges: Seq<(Attribute, Attribute)>) -> Seq<(Param, Param)> {
    edges.map_values(|e: (Attribute, Attribute)| (e.0@, e.1@))
}

proof fn lemma_push_contains<T>(s: Seq<T>, x: T)
    ensures
        forall|y: T| #[trigger] s.push(x).contains(y) <==> s.contains(y) || y == x,
{
    assert forall|y: T| #[trigger] s.push(x).contains(y) <==> s.contains(y) || y == x by {
        if s.contains(y) {
            assert(s.push(x)[s.index_of(y)] == y);
        }
        assert(s.push(x)[s.len() as int] == x);
    }
}

/// Lists how mutation spreads by one argument of a call to one callee.
fn slot_edges(
    slot: &ArgSlot,
    offset: usize,
    params: Option<&Vec<String>>,
    owner: &ModuleName,
    scope: &ModuleName,
    param: &ModuleName,
    edges: &mut Vec<(Attribute, Attribute)>,
)
    ensures
        forall|e: (Param, Param)| #[trigger]
            edge_views(final(edges)@).contains(e) <==> edge_views(old(edges)@).contains(e) || (e.0.0
                == owner@ && e.1 == (scope@, param@) && slot_fills(
                slot.deep_view(),
                offset,
                match params {
                    Some(names) => Some(names.deep_view()),
                    None => None,
                },
                e.0.1,
            )),
{
    let ghost before = edge_views(edges@);
    let ghost names = match params {
        Some(names) => Some(names.deep_view()),
        None => None,
    };
    match slot {
        ArgSlot::Keyword(name) => {
            edges.push(
                (
                    Attribute { module: owner.clone(), attr: name.as_string().clone() },
                    Attribute { module: scope.clone(), attr: param.as_string().clone() },
                ),
            );
            proof {
                let new = ((owner@, name@), (scope@, param@));
                assert(edge_views(edges@) =~= before.push(new));
                lemma_push_contains(before, new);
            }
        },
        ArgSlot::Positional(i) => {
            if let Some(list) = params {
                if *i < list.len() && offset < list.len() - *i {
                    edges.push(
                        (
                            Attribute { module: owner.clone(), attr: list[*i + offset].clone() },
                            Attribute { module: scope.clone(), attr: param.as_string().clone() },
                        ),
                    );
                    proof {
                        let new = ((owner@, list@[*i + offset]@), (scope@, param@));
                        assert(edge_views(edges@) =~= before.push(new));
                        lemma_push_contains(before, new);
                        assert(list.deep_view()[*i + offset] == list@[*i + offset]@);
                    }
                }
            }
        },
        ArgSlot::StarExpansion(start) => {
            if let Some(list) = params {
                let ghost all = list.deep_view();
                let mut j: usize = if *start < list.len() && offset < list.len() - *start {
                    *start + offset
                } else {
                    list.len()
                };
                let ghost first = j as int;
                while j < list.len()
                    invariant
                        0 <= first <= j <= list@.len(),
                        all == list.deep_view(),
                        forall|e: (Param, Param)| #[trigger]
                            edge_views(edges@).contains(e) <==> before.contains(e) || (e.0.0 == owner@
                                && e.1 == (scope@, param@) && occurs_from(
                                all.take(j as int),
                                first,
                                e.0.1,
                            )),
                    decreases list@.len() - j,
                {
                    let ghost so_far = edge_views(edges@);
                    edges.push(
                        (
                            Attribute { module: owner.clone(), attr: list[j].clone() },
                            Attribute { module: scope.clone(), attr: param.as_string().clone() },
                        ),
                    );
                    proof {
                        let new = ((owner@, all[j as int]), (scope@, param@));
                        assert(edge_views(edges@) =~= so_far.push(new));
                        lemma_push_contains(so_far, new);
                        assert forall|e: (Param, Param)| #[trigger]
                            edge_views(edges@).contains(e) <==> before.contains(e) || (e.0.0 == owner@
                                && e.1 == (scope@, param@) && occurs_from(
                                all.take(j + 1),
                                first,
                                e.0.1,
                            )) by {
                            assert(so_far.contains(e) <==> before.contains(e) || (e.0.0 == owner@ && e.1
                                == (scope@, param@) && occurs_from(all.take(j as int), first, e.0.1)));
                            assert(occurs_from(all.take(j + 1), first, e.0.1) <==> occurs_from(
                                all.take(j as int),
                                first,
                                e.0.1,
                            ) || e.0.1 == all[j as int]) by {
                                let more = all.take(j + 1);
                                let fewer = all.take(j as int);
                                if occurs_from(more, first, e.0.1) {
                                    let x = choose|x: int|
                                        first <= x < more.len() && #[trigger] more[x] == e.0.1;
                                    if x < j {
                                        assert(fewer[x] == e.0.1);
                                    }
                                }
                                if occurs_from(fewer, first, e.0.1) {
                                    let x = choose|x: int|
                                        first <= x < fewer.len() && #[trigger] fewer[x] == e.0.1;
                                    assert(more[x] == e.0.1);
                                }
                                assert(more[j as int] == all[j as int]);
                            }
                        }
                    }
                    j = j + 1;
                }
                proof {
                    assert(all.take(all.len() as int) =~= all);
                    assert forall|name: Seq<char>| occurs_from(all, first, name) <==> occurs_from(
                        all,
                        *start + offset,
                        name,
                    ) by {
                        if occurs_from(all, first, name) {
                            let x = choose|x: int| first <= x < all.len() && #[trigger] all[x] == name;
                        }
                        if occurs_from(all, *start + offset, name) {
                            let x = choose|x: int|
                                *start + offset <= x < all.len() && #[trigger] all[x] == name;
                        }
                    }
                }
            }
        },
    }
}

/// The names of a function's parameters, where its module is known.
fn find_params<'a>(sig: &Signatures<'a>, function: &ModuleName) -> (res: Option<&'a Vec<String>>)
    ensures
        (match res {
            Some(names) => Some(names.deep_view()),
            None => None,
        }) == params_of(sig.functions.deep_view(), sig.analysis_map, function@),
{
    match sig.functions.get(function) {
        None => None,
        Some(module) => match sig.analysis_map.get(module) {
            None => None,
            Some(output) => output.definitions.param_names.get(function),
        },
    }
}

/// Lists how mutation spreads by one effect.
fn effect_edges(sig: &Signatures, scope: &ModuleName, eff: &Effect, edges: &mut Vec<(Attribute, Attribute)>)
    ensures
        forall|e: (Param, Param)| #[trigger]
            edge_views(final(edges)@).contains(e) <==> edge_views(old(edges)@).contains(e) || (e.1.0
                == scope@ && effect_passes_on(sig, eff.deep_view(), e.1.1, e.0)),
{
    let ghost before = edge_views(edges@);
    let ghost view = eff.deep_view();
    if eff.kind == EffectKind::ParamMethodCall {
        return;
    }
    let call = match &eff.data {
        EffectData::Empty => {
            return;
        },
        EffectData::Call(call) => call,
    };
    let forwarded = call.forwarded_params();
    let ghost passed = forwards(forwarded@);
    let owners = iter_callees(eff, sig.classes);
    let ghost all = callees(eff.kind, eff.name@, sig.classes.deep_view());
    for c in 0..owners.len()
        invariant
            view == eff.deep_view(),
            passed == forwards(forwarded@),
            all == callee_views(owners@),
            forall|e: (Param, Param)| #[trigger]
                edge_views(edges@).contains(e) <==> before.contains(e) || (e.1.0 == scope@
                    && some_receives(sig, all.take(c as int), passed, e.1.1, e.0)),
    {
        let owner = &owners[c].0;
        let offset: usize = owners[c].1;
        let params = find_params(sig, owner);
        let ghost names = params_of(sig.functions.deep_view(), sig.analysis_map, owner@);
        let ghost middle = edge_views(edges@);
        let ghost callee = all[c as int];
        proof {
            assert(callee == (owner@, offset));
        }
        for k in 0..forwarded.len()
            invariant
                passed == forwards(forwarded@),
                names == (match params {
                    Some(names) => Some(names.deep_view()),
                    None => None,
                }),
                forall|e: (Param, Param)| #[trigger]
                    edge_views(edges@).contains(e) <==> middle.contains(e) || (e.1.0 == scope@ && e.0.0
                        == owner@ && exists|j: int|
                        0 <= j < k && (#[trigger] passed[j]).1 == e.1.1 && slot_fills(
                            passed[j].0,
                            offset,
                            names,
                            e.0.1,
                        )),
        {
            let ghost so_far = edge_views(edges@);
            slot_edges(
                &forwarded[k].0,
                offset,
                params,
                owner,
                scope,
                &forwarded[k].1,
                edges,
            );
            proof {
                let here = passed[k as int];
                assert(here == (forwarded@[k as int].0.deep_view(), forwarded@[k as int].1@));
                assert forall|e: (Param, Param)| #[trigger]
                    edge_views(edges@).contains(e) <==> middle.contains(e) || (e.1.0 == scope@ && e.0.0
                        == owner@ && exists|j: int|
                        0 <= j < k + 1 && (#[trigger] passed[j]).1 == e.1.1 && slot_fills(
                            passed[j].0,
                            offset,
                            names,
                            e.0.1,
                        )) by {
                    assert(so_far.contains(e) <==> middle.contains(e) || (e.1.0 == scope@ && e.0.0
                        == owner@ && exists|j: int|
                        0 <= j < k && (#[trigger] passed[j]).1 == e.1.1 && slot_fills(
                            passed[j].0,
                            offset,
                            names,
                            e.0.1,
                        )));
                    if exists|j: int|
                        0 <= j < k + 1 && (#[trigger] passed[j]).1 == e.1.1 && slot_fills(
                            passed[j].0,
                            offset,
                            names,
                            e.0.1,
                        ) {
                        let j = choose|j: int|
                            0 <= j < k + 1 && (#[trigger] passed[j]).1 == e.1.1 && slot_fills(
                                passed[j].0,
                                offset,
                                names,
                                e.0.1,
                            );
                        if j < k {
                            assert(0 <= j < k && passed[j].1 == e.1.1);
                        }
                    }
                    if exists|j: int|
                        0 <= j < k && (#[trigger] passed[j]).1 == e.1.1 && slot_fills(
                            passed[j].0,
                            offset,
                            names,
                            e.0.1,
                        ) {
                        let j = choose|j: int|
                            0 <= j < k && (#[trigger] passed[j]).1 == e.1.1 && slot_fills(
                                passed[j].0,
                                offset,
                                names,
                                e.0.1,
                            );
                        assert(0 <= j < k + 1 && passed[j].1 == e.1.1);
                    }
                    if slot_fills(here.0, offset, names, e.0.1) && here.1 == e.1.1 {
                        assert(passed[k as int].1 == e.1.1);
                    }
                }
            }
        }
        proof {
            let fewer = all.take(c as int);
            let more = all.take(c + 1);
            assert forall|e: (Param, Param)| #[trigger]
                edge_views(edges@).contains(e) <==> before.contains(e) || (e.1.0 == scope@
                    && some_receives(sig, more, passed, e.1.1, e.0)) by {
                assert(middle.contains(e) <==> before.contains(e) || (e.1.0 == scope@ && some_receives(
                    sig,
                    fewer,
                    passed,
                    e.1.1,
                    e.0,
                )));
                if some_receives(sig, more, passed, e.1.1, e.0) {
                    let j = choose|j: int|
                        0 <= j < more.len() && callee_receives(sig, #[trigger] more[j], passed, e.1.1, e.0);
                    if j < c {
                        assert(fewer[j] == more[j]);
                    }
                }
                if some_receives(sig, fewer, passed, e.1.1, e.0) {
                    let j = choose|j: int|
                        0 <= j < fewer.len() && callee_receives(sig, #[trigger] fewer[j], passed, e.1.1, e.0);
                    assert(more[j] == fewer[j]);
                }
                assert(more[c as int] == callee);
            }
        }
    }
    proof {
        assert(all.take(all.len() as int) =~= all);
        assert forall|e: (Param, Param)| #[trigger]
            edge_views(edges@).contains(e) <==> before.contains(e) || (e.1.0 == scope@ && effect_passes_on(
                sig,
                view,
                e.1.1,
                e.0,
            )) by {
            assert(callees(view.kind, view.name, sig.classes.deep_view()) == all);
            if some_receives(sig, all, passed, e.1.1, e.0) {
                let c = choose|c: int|
                    0 <= c < all.len() && callee_receives(sig, #[trigger] all[c], passed, e.1.1, e.0);
                assert(callee_receives(
                    sig,
                    callees(view.kind, view.name, sig.classes.deep_view())[c],
                    passed,
                    e.1.1,
                    e.0,
                ));
            }
        }
    }
}

/// One of some callees receives a parameter of the calling function as one of its own.
spec fn some_receives(
    sig: &Signatures,
    list: Seq<(Seq<char>, usize)>,
    forwarded: Seq<(SlotView, Seq<char>)>,
    param: Seq<char>,
    to: Param,
) -> bool {
    exists|c: int|
        0 <= c < list.len() && callee_receives(sig, #[trigger] list[c], forwarded, param, to)
}

/// Lists the parameters that one function mutates itself, and how mutation spreads to it.
fn scope_edges(
    sig: &Signatures,
    scope: &ModuleName,
    effs: &Vec<Effect>,
    seeds: &mut Vec<Attribute>,
    edges: &mut Vec<(Attribute, Attribute)>,
)
    ensures
        forall|p: Param| #[trigger]
            attributes_of(final(seeds)@).contains(p) <==> attributes_of(old(seeds)@).contains(p) || (p.0
                == scope@ && some_mutates(effs.deep_view(), p.1)),
        forall|e: (Param, Param)| #[trigger]
            edge_views(final(edges)@).contains(e) <==> edge_views(old(edges)@).contains(e) || (e.1.0
                == scope@ && some_passes_on(sig, effs.deep_view(), e.1.1, e.0)),
{
    let ghost all = effs.deep_view();
    let ghost seeds0 = attributes_of(seeds@);
    let ghost edges0 = edge_views(edges@);
    for i in 0..effs.len()
        invariant
            all == effs.deep_view(),
            forall|p: Param| #[trigger]
                attributes_of(seeds@).contains(p) <==> seeds0.contains(p) || (p.0 == scope@
                    && some_mutates(all.take(i as int), p.1)),
            forall|e: (Param, Param)| #[trigger]
                edge_views(edges@).contains(e) <==> edges0.contains(e) || (e.1.0 == scope@
                    && some_passes_on(sig, all.take(i as int), e.1.1, e.0)),
    {
        let eff = &effs[i];
        let ghost view = all[i as int];
        let ghost seeds1 = attributes_of(seeds@);
        let ghost edges1 = edge_views(edges@);
        if eff.kind == EffectKind::ParamMethodCall {
            seeds.push(Attribute { module: scope.clone(), attr: eff.name.as_string().clone() });
            proof {
                assert(attributes_of(seeds@) =~= seeds1.push((scope@, view.name)));
                lemma_push_contains(seeds1, (scope@, view.name));
            }
        }
        effect_edges(sig, scope, eff, edges);
        proof {
            let fewer = all.take(i as int);
            let more = all.take(i + 1);
            assert(more[i as int] == view);
            assert forall|p: Param| #[trigger]
                attributes_of(seeds@).contains(p) <==> seeds0.contains(p) || (p.0 == scope@
                    && some_mutates(more, p.1)) by {
                assert(seeds1.contains(p) <==> seeds0.contains(p) || (p.0 == scope@ && some_mutates(
                    fewer,
                    p.1,
                )));
                if some_mutates(more, p.1) {
                    let j = choose|j: int| 0 <= j < more.len() && is_param_mutation(#[trigger] more[j], p.1);
                    if j < i {
                        assert(fewer[j] == more[j]);
                    }
                }
                if some_mutates(fewer, p.1) {
                    let j = choose|j: int|
                        0 <= j < fewer.len() && is_param_mutation(#[trigger] fewer[j], p.1);
                    assert(more[j] == fewer[j]);
                }
            }
            assert forall|e: (Param, Param)| #[trigger]
                edge_views(edges@).contains(e) <==> edges0.contains(e) || (e.1.0 == scope@
                    && some_passes_on(sig, more, e.1.1, e.0)) by {
                assert(edges1.contains(e) <==> edges0.contains(e) || (e.1.0 == scope@ && some_passes_on(
                    sig,
                    fewer,
                    e.1.1,
                    e.0,
                )));
                if some_passes_on(sig, more, e.1.1, e.0) {
                    let j = choose|j: int|
                        0 <= j < more.len() && effect_passes_on(sig, #[trigger] more[j], e.1.1, e.0);
                    if j < i {
                        assert(fewer[j] == more[j]);
                    }
                }
                if some_passes_on(sig, fewer, e.1.1, e.0) {
                    let j = choose|j: int|
                        0 <= j < fewer.len() && effect_passes_on(sig, #[trigger] fewer[j], e.1.1, e.0);
                    assert(more[j] == fewer[j]);
                }
            }
        }
    }
    proof {
        assert(all.take(all.len() as int) =~= all);
    }
}

/// Lists the parameters that functions mutate themselves, and how mutation spreads.
fn list_edges(table: &EffectTable, sig: &Signatures) -> (res: (Vec<Attribute>, Vec<(Attribute, Attribute)>))
    ensures
        forall|p: Param| #[trigger]
            attributes_of(res.0@).contains(p) <==> mutates_itself(table.deep_view(), p),
        forall|e: (Param, Param)| #[trigger]
            edge_views(res.1@).contains(e) <==> mutation_spreads(table.deep_view(), sig, e.0, e.1),
{
    let mut seeds: Vec<Attribute> = Vec::new();
    let mut edges: Vec<(Attribute, Attribute)> = Vec::new();
    let ghost view = table.deep_view();
    let ghost keys = table.effects().keys();
    let n: usize = table.len();
    for i in 0..n
        invariant
            n == keys.len(),
            keys == table.effects().keys(),
            table.effects().ordered(),
            view == table.deep_view(),
            forall|p: Param| #[trigger]
                attributes_of(seeds@).contains(p) <==> keys.take(i as int).to_set().contains(p.0)
                    && some_mutates(view[p.0], p.1),
            forall|e: (Param, Param)| #[trigger]
                edge_views(edges@).contains(e) <==> keys.take(i as int).to_set().contains(e.1.0)
                    && some_passes_on(sig, view[e.1.0], e.1.1, e.0),
    {
        let ghost seeds1 = attributes_of(seeds@);
        let ghost edges1 = edge_views(edges@);
        let ghost key = keys[i as int];
        let effs = table.value_at(i);
        scope_edges(sig, table.key_at(i), effs, &mut seeds, &mut edges);
        proof {
            crate::name_set::lemma_take_more(keys, i as int);
            assert(view[key] == effs.deep_view());
            assert forall|p: Param| #[trigger]
                attributes_of(seeds@).contains(p) <==> keys.take(i + 1).to_set().contains(p.0)
                    && some_mutates(view[p.0], p.1) by {
                assert(seeds1.contains(p) <==> keys.take(i as int).to_set().contains(p.0) && some_mutates(
                    view[p.0],
                    p.1,
                ));
            }
            assert forall|e: (Param, Param)| #[trigger]
                edge_views(edges@).contains(e) <==> keys.take(i + 1).to_set().contains(e.1.0)
                    && some_passes_on(sig, view[e.1.0], e.1.1, e.0) by {
                assert(edges1.contains(e) <==> keys.take(i as int).to_set().contains(e.1.0)
                    && some_passes_on(sig, view[e.1.0], e.1.1, e.0));
            }
        }
    }
    proof {
        assert(keys.take(keys.len() as int) =~= keys);
        assert(keys.to_set() =~= view.dom()) by {
            assert forall|k: Seq<char>| keys.to_set().contains(k) <==> view.dom().contains(k) by {
                assert(keys.contains(k) <==> table.effects()@.contains_key(k));
            }
        }
    }
    (seeds, edges)
}

/// What a map has listed under a parameter.
spec fn listed(map: Map<Param, Vec<Attribute>>, p: Param) -> Seq<Param> {
    if map.contains_key(p) {
        attributes_of(map[p]@)
    } else {
        Seq::empty()
    }
}

/// Looks edges up by where they start.
fn index_edges(edges: Vec<(Attribute, Attribute)>) -> (res: AttrMap<Vec<Attribute>>)
    ensures
        forall|a: Param, b: Param| #[trigger]
            listed(res@, a).contains(b) <==> edge_views(edges@).contains((a, b)),
{
    let mut res: AttrMap<Vec<Attribute>> = AttrMap::new();
    let ghost items = edges@;
    let ghost all = edge_views(edges@);
    for edge in it: edges
        invariant
            it.seq() == items,
            all == edge_views(items),
            forall|a: Param, b: Param| #[trigger]
                listed(res@, a).contains(b) <==> all.take(it.index()).to_set().contains((a, b)),
    {
        let ghost i = it.index();
        let ghost before = res@;
        let ghost (from_view, to_view) = (edge.0@, edge.1@);
        let (from, to) = edge;
        let mut list: Vec<Attribute> = if res.contains_key(&from) {
            res.replace(&from.module, from.attr.as_str(), Vec::new())
        } else {
            Vec::new()
        };
        let ghost old_list = attributes_of(list@);
        proof {
            assert(old_list =~= listed(before, from_view));
        }
        list.push(to);
        proof {
            assert(attributes_of(list@) =~= old_list.push(to_view));
            lemma_push_contains(old_list, to_view);
        }
        res.insert(from, list);
        proof {
            assert(all[i] == (from_view, to_view));
            crate::name_set::lemma_take_more(all, i);
            assert forall|a: Param, b: Param| #[trigger]
                listed(res@, a).contains(b) <==> all.take(i + 1).to_set().contains((a, b)) by {
                assert(listed(before, a).contains(b) <==> all.take(i).to_set().contains((a, b)));
                if a != from_view {
                    assert(listed(res@, a) == listed(before, a));
                }
            }
        }
    }
    proof {
        assert(all.take(all.len() as int) =~= all);
    }
    res
}

/// Adds a parameter to the mutated ones, and tells whether it is new.
fn add_param(map: &mut NameSets, p: &Attribute) -> (res: bool)
    ensures
        res == !pair_set(old(map).deep_view()).contains(p@),
        pair_set(final(map).deep_view()) == pair_set(old(map).deep_view()).insert(p@),
        final(map).deep_view().dom() == old(map).deep_view().dom().insert(p@.0),
{
    let known = match map.get(&p.module) {
        Some(set) => set.contains_str(p.attr.as_str()),
        None => false,
    };
    add_name(map, &p.module, ModuleName::from_str(p.attr.as_str()));
    proof {
        assert(pair_set(map.deep_view()) =~= pair_set(old(map).deep_view()).insert(p@));
        assert(map.deep_view().dom() =~= old(map).deep_view().dom().insert(p@.0));
    }
    !known
}

/// Every function in the map has a parameter there.
spec fn none_empty(map: Map<Seq<char>, Set<Seq<char>>>) -> bool {
    forall|f: Seq<char>| #[trigger]
        map.contains_key(f) ==> exists|p: Seq<char>| #[trigger] pair_set(map).contains((f, p))
}

proof fn lemma_none_empty(
    before: Map<Seq<char>, Set<Seq<char>>>,
    after: Map<Seq<char>, Set<Seq<char>>>,
    p: Param,
)
    requires
        none_empty(before),
        pair_set(after) == pair_set(before).insert(p),
        after.dom() == before.dom().insert(p.0),
    ensures
        none_empty(after),
{
    assert forall|f: Seq<char>| #[trigger] after.contains_key(f) implies exists|q: Seq<char>| #[trigger]
        pair_set(after).contains((f, q)) by {
        if f == p.0 {
            assert(pair_set(after).contains((f, p.1)));
        } else {
            assert(before.contains_key(f));
            let q = choose|q: Seq<char>| #[trigger] pair_set(before).contains((f, q));
            assert(pair_set(after).contains((f, q)));
        }
    }
}

/// Adds parameters to the mutated ones, and the new ones to those that are waiting.
fn add_params(list: &Vec<Attribute>, mutated: &mut NameSets, worklist: &mut Vec<Attribute>)
    requires
        none_empty(old(mutated).deep_view()),
    ensures
        none_empty(final(mutated).deep_view()),
        pair_set(final(mutated).deep_view()) == pair_set(old(mutated).deep_view()).union(
            attributes_of(list@).to_set(),
        ),
        forall|p: Param| #[trigger]
            attributes_of(final(worklist)@).contains(p) <==> attributes_of(old(worklist)@).contains(p) || (
            attributes_of(list@).contains(p) && !pair_set(old(mutated).deep_view()).contains(p)),
        attributes_of(list@).to_set().subset_of(pair_set(old(mutated).deep_view())) ==> final(worklist)@ == old(
            worklist,
        )@,
{
    let ghost all = attributes_of(list@);
    let ghost first = pair_set(mutated.deep_view());
    let ghost wait0 = attributes_of(worklist@);
    proof {
        assert(first.union(all.take(0).to_set()) =~= first);
    }
    for i in 0..list.len()
        invariant
            all == attributes_of(list@),
            none_empty(mutated.deep_view()),
            pair_set(mutated.deep_view()) == first.union(all.take(i as int).to_set()),
            forall|p: Param| #[trigger]
                attributes_of(worklist@).contains(p) <==> wait0.contains(p) || (all.take(
                    i as int,
                ).to_set().contains(p) && !first.contains(p)),
            all.to_set().subset_of(first) ==> worklist@ == old(worklist)@,
    {
        let ghost before = mutated.deep_view();
        let ghost waiting = attributes_of(worklist@);
        let ghost here = all[i as int];
        let fresh = add_param(mutated, &list[i]);
        proof {
            crate::name_set::lemma_take_more(all, i as int);
            lemma_none_empty(before, mutated.deep_view(), here);
            lemma_push_contains(waiting, here);
            assert(all.to_set().contains(here)) by {
                assert(all.contains(here));
            }
            assert(first.union(all.take(i as int).to_set()).insert(here) =~= first.union(
                all.take(i + 1).to_set(),
            ));
        }
        if fresh {
            worklist.push(list[i].clone());
            proof {
                assert(attributes_of(worklist@) =~= waiting.push(here));
            }
        }
        proof {
            assert forall|p: Param| #[trigger]
                attributes_of(worklist@).contains(p) <==> wait0.contains(p) || (all.take(
                    i + 1,
                ).to_set().contains(p) && !first.contains(p)) by {
                assert(waiting.contains(p) <==> wait0.contains(p) || (all.take(i as int).to_set().contains(p)
                    && !first.contains(p)));
            }
        }
    }
    proof {
        assert(all.take(all.len() as int) =~= all);
        assert forall|p: Param| #[trigger]
            attributes_of(worklist@).contains(p) <==> wait0.contains(p) || (all.contains(p)
                && !first.contains(p)) by {
            assert(all.take(all.len() as int).to_set().contains(p) <==> all.contains(p));
        }
    }
}

/// Every one of some parameters can be reached from a seed.
spec fn all_reached(relation: spec_fn(Param, Param) -> bool, seeds: Set<Param>, found: Set<Param>) -> bool {
    forall|p: Param| #[trigger] found.contains(p) ==> reached(relation, seeds, p)
}

/// A parameter can be reached from a seed.
spec fn reached(relation: spec_fn(Param, Param) -> bool, seeds: Set<Param>, p: Param) -> bool {
    exists|s: Param| #[trigger] seeds.contains(s) && reaches(relation, s, p)
}

/// What can be reached in one step has been found, but for steps from those that are waiting.
spec fn closed_but_for(
    relation: spec_fn(Param, Param) -> bool,
    found: Set<Param>,
    waiting: Seq<Param>,
) -> bool {
    &&& forall|p: Param| #[trigger] waiting.contains(p) ==> found.contains(p)
    &&& forall|a: Param, b: Param|
        found.contains(a) && #[trigger] relation(a, b) ==> found.contains(b) || waiting.contains(a)
}

/// One parameter that was waiting is done.
proof fn lemma_one_done(
    relation: spec_fn(Param, Param) -> bool,
    seeds: Set<Param>,
    found: Set<Param>,
    more: Set<Param>,
    rest: Seq<Param>,
    here: Param,
    waiting: Seq<Param>,
    to: Seq<Param>,
)
    requires
        all_reached(relation, seeds, found),
        closed_but_for(relation, found, rest.push(here)),
        forall|b: Param| #[trigger] relation(here, b) <==> to.contains(b),
        more == found.union(to.to_set()),
        forall|p: Param| #[trigger]
            waiting.contains(p) <==> rest.contains(p) || (to.contains(p) && !found.contains(p)),
    ensures
        all_reached(relation, seeds, more),
        closed_but_for(relation, more, waiting),
{
    lemma_push_contains(rest, here);
    assert(rest.push(here).contains(here));
    assert forall|p: Param| #[trigger] more.contains(p) implies reached(relation, seeds, p) by {
        if !found.contains(p) {
            assert(to.contains(p));
            assert(relation(here, p));
            assert(reached(relation, seeds, here));
            let s = choose|s: Param| #[trigger] seeds.contains(s) && reaches(relation, s, here);
            lemma_reach_step(relation, s, here, p);
            assert(seeds.contains(s));
        }
    }
    assert forall|p: Param| #[trigger] waiting.contains(p) implies more.contains(p) by {
        if rest.contains(p) {
            assert(rest.push(here).contains(p));
        }
    }
    assert forall|a: Param, b: Param| more.contains(a) && #[trigger] relation(a, b) implies more.contains(b)
        || waiting.contains(a) by {
        if found.contains(a) {
            if a == here {
                assert(to.contains(b));
            } else if !found.contains(b) {
                assert(rest.push(here).contains(a));
                assert(rest.contains(a));
            }
        } else {
            assert(to.contains(a));
        }
    }
}

/// Adds to the mutated parameters all that mutation spreads to.
fn spread(
    dependents: &AttrMap<Vec<Attribute>>,
    mutated: &mut NameSets,
    worklist: Vec<Attribute>,
    Ghost(relation): Ghost<spec_fn(Param, Param) -> bool>,
    Ghost(seeds): Ghost<Set<Param>>,
    Ghost(universe): Ghost<Set<Param>>,
)
    requires
        none_empty(old(mutated).deep_view()),
        universe.finite(),
        pair_set(old(mutated).deep_view()).subset_of(universe),
        forall|a: Param, b: Param| #[trigger] relation(a, b) ==> universe.contains(b),
        forall|a: Param, b: Param| #[trigger] relation(a, b) <==> listed(dependents@, a).contains(b),
        all_reached(relation, seeds, pair_set(old(mutated).deep_view())),
        closed_but_for(relation, pair_set(old(mutated).deep_view()), attributes_of(worklist@)),
    ensures
        none_empty(final(mutated).deep_view()),
        pair_set(old(mutated).deep_view()).subset_of(pair_set(final(mutated).deep_view())),
        all_reached(relation, seeds, pair_set(final(mutated).deep_view())),
        closed_but_for(relation, pair_set(final(mutated).deep_view()), Seq::empty()),
{
    let mut worklist: Vec<Attribute> = worklist;
    let ghost first = pair_set(mutated.deep_view());
    while worklist.len() > 0
        invariant
            none_empty(mutated.deep_view()),
            universe.finite(),
            first.subset_of(pair_set(mutated.deep_view())),
            pair_set(mutated.deep_view()).subset_of(universe),
            forall|a: Param, b: Param| #[trigger] relation(a, b) ==> universe.contains(b),
            forall|a: Param, b: Param| #[trigger] relation(a, b) <==> listed(dependents@, a).contains(b),
            all_reached(relation, seeds, pair_set(mutated.deep_view())),
            closed_but_for(relation, pair_set(mutated.deep_view()), attributes_of(worklist@)),
        decreases universe.len() - pair_set(mutated.deep_view()).len(), worklist@.len(),
    {
        let ghost found = pair_set(mutated.deep_view());
        let ghost waiting0 = attributes_of(worklist@);
        if let Some(next) = worklist.pop() {
            let ghost here = next@;
            let ghost rest = attributes_of(worklist@);
            let ghost to = listed(dependents@, here);
            proof {
                assert(waiting0 =~= rest.push(here));
            }
            if let Some(list) = dependents.get(&next) {
                add_params(list, mutated, &mut worklist);
            }
            proof {
                let more = pair_set(mutated.deep_view());
                assert(more =~= found.union(to.to_set()));
                assert forall|b: Param| #[trigger] relation(here, b) <==> to.contains(b) by {}
                lemma_one_done(
                    relation,
                    seeds,
                    found,
                    more,
                    rest,
                    here,
                    attributes_of(worklist@),
                    to,
                );
                assert forall|p: Param| more.contains(p) implies universe.contains(p) by {
                    if !found.contains(p) {
                        assert(to.contains(p));
                        assert(relation(here, p));
                    }
                }
                vstd::set_lib::lemma_len_subset(more, universe);
                vstd::set_lib::lemma_len_subset(found, universe);
                vstd::set_lib::lemma_len_subset(found, more);
                if more.len() == found.len() {
                    vstd::set_lib::lemma_subset_equality(found, more);
                    assert(to.to_set().subset_of(found)) by {
                        assert forall|p: Param| to.to_set().contains(p) implies found.contains(p) by {
                            assert(more.contains(p));
                        }
                    }
                }
            }
        }
    }
    proof {
        assert(attributes_of(worklist@) =~= Seq::empty());
    }
}

/// The seeds are found, and wait.
proof fn lemma_seeds_wait(
    relation: spec_fn(Param, Param) -> bool,
    steps: Seq<(Param, Param)>,
    start: Seq<Param>,
    waiting: Seq<Param>,
)
    requires
        forall|a: Param, b: Param| #[trigger] relation(a, b) <==> steps.contains((a, b)),
        forall|p: Param| #[trigger] waiting.contains(p) <==> start.contains(p),
    ensures
        all_reached(relation, start.to_set(), start.to_set()),
        closed_but_for(relation, start.to_set(), waiting),
        start.to_set().subset_of(possible(start, steps)),
        possible(start, steps).finite(),
        forall|a: Param, b: Param| #[trigger] relation(a, b) ==> possible(start, steps).contains(b),
{
    let found = start.to_set();
    assert forall|p: Param| #[trigger] found.contains(p) implies reached(relation, found, p) by {
        lemma_reach_self(relation, p);
    }
    assert forall|a: Param, b: Param| #[trigger] relation(a, b) implies possible(start, steps).contains(b) by {
        assert(steps.contains((a, b)));
        let targets = steps.map_values(|e: (Param, Param)| e.1);
        assert(targets[steps.index_of((a, b))] == b);
    }
    assert forall|a: Param, b: Param| found.contains(a) && #[trigger] relation(a, b) implies found.contains(b)
        || waiting.contains(a) by {
        assert(start.contains(a));
    }
}

/// The seeds and the ends of the steps.
spec fn possible(start: Seq<Param>, steps: Seq<(Param, Param)>) -> Set<Param> {
    start.to_set() + steps.map_values(|e: (Param, Param)| e.1).to_set()
}

/// What is found, when nothing waits, is what the seeds reach.
proof fn lemma_found_all(relation: spec_fn(Param, Param) -> bool, seeds: Set<Param>, found: Set<Param>)
    requires
        all_reached(relation, seeds, found),
        closed_but_for(relation, found, Seq::empty()),
        seeds.subset_of(found),
    ensures
        forall|p: Param| #[trigger] found.contains(p) <==> reached(relation, seeds, p),
{
    assert forall|p: Param| reached(relation, seeds, p) implies #[trigger] found.contains(p) by {
        let s = choose|s: Param| #[trigger] seeds.contains(s) && reaches(relation, s, p);
        lemma_closed(relation, found, s, p);
    }
}

/// The steps of a list, as a relation.
spec fn step_relation(steps: Seq<(Param, Param)>) -> spec_fn(Param, Param) -> bool {
    |a: Param, b: Param| steps.contains((a, b))
}

/// All parameters that the seeds reach.
fn reached_params(seeds: &Vec<Attribute>, edges: Vec<(Attribute, Attribute)>) -> (res: NameSets)
    ensures
        none_empty(res.deep_view()),
        forall|p: Param| #[trigger]
            pair_set(res.deep_view()).contains(p) <==> reached(
                step_relation(edge_views(edges@)),
                attributes_of(seeds@).to_set(),
                p,
            ),
{
    let ghost start = attributes_of(seeds@);
    let ghost steps = edge_views(edges@);
    let ghost relation = step_relation(steps);
    let dependents = index_edges(edges);
    let mut mutated: NameSets = NameMap::new();
    let mut worklist: Vec<Attribute> = Vec::new();
    proof {
        assert(pair_set(mutated.deep_view()) =~= Set::empty());
    }
    add_params(seeds, &mut mutated, &mut worklist);
    proof {
        assert(pair_set(mutated.deep_view()) =~= start.to_set());
        lemma_seeds_wait(relation, steps, start, attributes_of(worklist@));
    }
    spread(
        &dependents,
        &mut mutated,
        worklist,
        Ghost(relation),
        Ghost(start.to_set()),
        Ghost(possible(start, steps)),
    );
    proof {
        lemma_found_all(relation, start.to_set(), pair_set(mutated.deep_view()));
    }
    mutated
}

/// The parameters that functions mutate, themselves or by passing them on.
pub fn compute_mutated_params(table: &EffectTable, sig: &Signatures) -> (res: NameSets)
    ensures
        forall|p: Param| #[trigger]
            pair_set(res.deep_view()).contains(p) <==> mutates(table.deep_view(), sig, p),
        forall|f: Seq<char>| #[trigger]
            res.deep_view().contains_key(f) ==> exists|p: Seq<char>| #[trigger]
                pair_set(res.deep_view()).contains((f, p)),
{
    let (seeds, edges) = list_edges(table, sig);
    let ghost view = table.deep_view();
    let ghost relation = spread_relation(view, sig);
    let ghost start = attributes_of(seeds@);
    let ghost steps = edge_views(edges@);
    let mutated = reached_params(&seeds, edges);
    proof {
        assert forall|a: Param, b: Param| step_relation(steps)(a, b) == #[trigger] relation(a, b) by {
            assert(steps.contains((a, b)) <==> mutation_spreads(view, sig, a, b));
        }
        assert(step_relation(steps) =~= relation);
        assert forall|p: Param| #[trigger]
            pair_set(mutated.deep_view()).contains(p) <==> mutates(view, sig, p) by {
            if reached(relation, start.to_set(), p) {
                let s = choose|s: Param| #[trigger]
                    start.to_set().contains(s) && reaches(relation, s, p);
                assert(start.contains(s));
                assert(mutates_itself(view, s));
            }
            if mutates(view, sig, p) {
                let s = choose|s: Param| #[trigger] mutates_itself(view, s) && reaches(relation, s, p);
                assert(start.contains(s));
                assert(start.to_set().contains(s));
            }
        }
    }
    mutated
}

/// A function that mutates a parameter itself mutates it, and so does one that passes its own
/// parameter on to it.
pub proof fn mutation_goes_up_the_calls(
    table: Map<Seq<char>, Seq<EffectView>>,
    sig: &Signatures,
    from: Param,
    to: Param,
)
    ensures
        mutates_itself(table, from) ==> mutates(table, sig, from),
        mutates(table, sig, from) && mutation_spreads(table, sig, from, to) ==> mutates(table, sig, to),
{
    let relation = spread_relation(table, sig);
    if mutates_itself(table, from) {
        crate::reach::lemma_reach_self(relation, from);
    }
    if mutates(table, sig, from) && mutation_spreads(table, sig, from, to) {
        let seed = choose|seed: Param| #[trigger]
            mutates_itself(table, seed) && reaches(relation, seed, from);
        crate::reach::lemma_reach_step(relation, seed, from, to);
    }
}

} // verus!
