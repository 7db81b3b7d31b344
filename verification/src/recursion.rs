//! Functions that may call themselves.

use crate::call_check::{effects_in, CheckState};
use crate::callees::{constructor_method_names, constructor_names};
use crate::effects::EffectView;
use crate::graph::{are_cycles, is_walk, listed, strongly_connected, Cycle, Graph};
use crate::module_name::{texts, ModuleName};
use crate::module_safety::{FunctionInfoView, FunctionSafety};
use crate::name_set::NameSet;
use crate::name_sets::set_of;
use crate::project_info::ProjectInfo;
use vstd::prelude::*;

verus! {

/// A walk of one step or more leads from a node back to it.
pub open spec fn on_cycle(relation: spec_fn(Seq<char>, Seq<char>) -> bool, x: Seq<char>) -> bool {
    exists|walk: Seq<Seq<char>>| #[trigger]
        is_walk(relation, walk) && walk.len() > 1 && walk.first() == x && walk.last() == x
}

/// The names of the nodes in a cycle.
spec fn names_in(g: &Graph, cycle: Seq<usize>) -> Seq<Seq<char>> {
    Seq::new(cycle.len(), |k: int| g.names()[cycle[k] as int])
}

/// A name is in one of some cycles.
spec fn named_in(g: &Graph, cycles: Seq<Cycle>, x: Seq<char>) -> bool {
    exists|c: int| 0 <= c < cycles.len() && names_in(g, (#[trigger] cycles[c])@).contains(x)
}

/// Two nodes that reach each other lie on a cycle.
proof fn lemma_both_ways(relation: spec_fn(Seq<char>, Seq<char>) -> bool, x: Seq<char>, y: Seq<char>)
    requires
        x != y,
        strongly_connected(relation, x, y),
    ensures
        on_cycle(relation, x),
{
    let there = choose|walk: Seq<Seq<char>>| #[trigger]
        is_walk(relation, walk) && walk.first() == x && walk.last() == y;
    let back = choose|walk: Seq<Seq<char>>| #[trigger]
        is_walk(relation, walk) && walk.first() == y && walk.last() == x;
    let round = there + back.skip(1);
    assert(back.len() > 1);
    assert forall|i: int| 0 <= i < round.len() - 1 implies relation(#[trigger] round[i], round[i + 1]) by {
        if i < there.len() - 1 {
            assert(round[i] == there[i] && round[i + 1] == there[i + 1]);
        } else {
            let j = i - (there.len() - 1);
            assert(round[i] == back[j]);
            assert(round[i + 1] == back[j + 1]);
        }
    }
    assert(is_walk(relation, round));
    assert(round.last() == back.last());
}

/// A node on a cycle has an edge to itself, or lies in a component of more than one node.
proof fn lemma_on_cycle(g: &Graph, cycles: Seq<Cycle>, x: Seq<char>)
    requires
        g.sound(),
        are_cycles(g, cycles),
    ensures
        on_cycle(g.relation(), x) <==> g.links(x, x) || named_in(g, cycles, x),
{
    let relation = g.relation();
    if on_cycle(relation, x) && !g.links(x, x) {
        let walk = choose|walk: Seq<Seq<char>>| #[trigger]
            is_walk(relation, walk) && walk.len() > 1 && walk.first() == x && walk.last() == x;
        let y = walk[1];
        assert(relation(walk[0], walk[1]));
        assert(y != x);
        let there = walk.take(2);
        let back = walk.skip(1);
        assert(is_walk(relation, there));
        assert forall|i: int| 0 <= i < back.len() - 1 implies relation(#[trigger] back[i], back[i + 1]) by {
            assert(relation(walk[i + 1], walk[i + 2]));
        }
        assert(is_walk(relation, back));
        assert(there.first() == x && there.last() == y);
        assert(back.first() == y && back.last() == x);
        assert(strongly_connected(relation, x, y));
        assert(g.names().to_set().contains(x));
        assert(g.names().to_set().contains(y));
        let i = g.names().index_of(x);
        let j = g.names().index_of(y);
        assert(strongly_connected(relation, g.names()[i], g.names()[j]));
        assert(listed(cycles, i));
        let (c, k) = choose|c: int, k: int|
            0 <= c < cycles.len() && 0 <= k < cycles[c]@.len() && #[trigger] cycles[c]@[k] == i;
        assert(names_in(g, cycles[c]@)[k] == x);
    }
    if named_in(g, cycles, x) {
        let c = choose|c: int| 0 <= c < cycles.len() && names_in(g, (#[trigger] cycles[c])@).contains(x);
        let cycle = cycles[c]@;
        let k = names_in(g, cycle).index_of(x);
        assert(names_in(g, cycle)[k] == x);
        let l: int = if k == 0 {
            1
        } else {
            0
        };
        let y = g.names()[cycle[l] as int];
        assert(cycle[k] != cycle[l]);
        assert(x == g.names()[cycle[k] as int]);
        assert(strongly_connected(relation, g.names()[cycles[c]@[k] as int], g.names()[cycles[c]@[l] as int]));
        lemma_both_ways(relation, x, y);
    }
    if g.links(x, x) {
        let walk = seq![x, x];
        assert forall|i: int| 0 <= i < walk.len() - 1 implies relation(#[trigger] walk[i], walk[i + 1]) by {}
        assert(is_walk(relation, walk));
    }
}

/// The nodes that lie on cycles. A node that has an edge to itself is one of them.
pub fn nodes_in_cycles(graph: &Graph) -> (res: NameSet)
    ensures
        forall|x: Seq<char>| #[trigger] res@.contains(x) <==> on_cycle(graph.relation(), x),
{
    let cycles = graph.find_cycles();
    let mut res = NameSet::new();
    for c in 0..cycles.len()
        invariant
            are_cycles(graph, cycles@),
            forall|x: Seq<char>| #[trigger]
                res@.contains(x) <==> named_in(graph, cycles@.take(c as int), x),
    {
        let ghost before = res@;
        let names = graph.cycle_names(&cycles[c]);
        res.extend(&set_of(&names));
        proof {
            let fewer = cycles@.take(c as int);
            let more = cycles@.take(c + 1);
            assert(texts(names@) =~= names_in(graph, cycles@[c as int]@));
            assert forall|x: Seq<char>| #[trigger] res@.contains(x) <==> named_in(graph, more, x) by {
                assert(before.contains(x) <==> named_in(graph, fewer, x));
                if named_in(graph, more, x) {
                    let d = choose|d: int|
                        0 <= d < more.len() && names_in(graph, (#[trigger] more[d])@).contains(x);
                    if d < c {
                        assert(fewer[d] == more[d]);
                    }
                }
                if named_in(graph, fewer, x) {
                    let d = choose|d: int|
                        0 <= d < fewer.len() && names_in(graph, (#[trigger] fewer[d])@).contains(x);
                    assert(more[d] == fewer[d]);
                }
                assert(more[c as int] == cycles@[c as int]);
            }
        }
    }
    proof {
        assert(cycles@.take(cycles@.len() as int) =~= cycles@);
    }
    let names = graph.node_names();
    let ghost all = texts(names@);
    for i in 0..names.len()
        invariant
            all == texts(names@),
            forall|x: Seq<char>| #[trigger]
                res@.contains(x) <==> named_in(graph, cycles@, x) || (graph.links(x, x)
                    && all.take(i as int).to_set().contains(x)),
    {
        let ghost before = res@;
        if graph.has_edge(&names[i], &names[i]) {
            let _ = res.insert(names[i].clone());
        }
        proof {
            crate::name_set::lemma_take_more(all, i as int);
            assert forall|x: Seq<char>| #[trigger]
                res@.contains(x) <==> named_in(graph, cycles@, x) || (graph.links(x, x) && all.take(
                    i + 1,
                ).to_set().contains(x)) by {
                assert(before.contains(x) <==> named_in(graph, cycles@, x) || (graph.links(x, x)
                    && all.take(i as int).to_set().contains(x)));
            }
        }
    }
    proof {
        assert(all.take(all.len() as int) =~= all);
        assert forall|x: Seq<char>| #[trigger] res@.contains(x) <==> on_cycle(graph.relation(), x) by {
            lemma_on_cycle(graph, cycles@, x);
        }
    }
    res
}

/// One of some effects runs something of the given name.
pub open spec fn some_runs(effs: Seq<EffectView>, name: Seq<char>) -> bool {
    exists|i: int| 0 <= i < effs.len() && (#[trigger] effs[i]).kind.runnable() && effs[i].name == name
}

/// A function or a class of the project may call another: the function has an effect that runs
/// it, or constructing an object of the class does.
pub open spec fn may_call(p: &ProjectInfo, a: Seq<char>, b: Seq<char>) -> bool {
    p.defines(b) && ((p.functions@.contains_key(a) && some_runs(effects_in(p, a), b)) || (
    p.classes.deep_view().contains_key(a) && constructor_names(a, p.classes.deep_view()).contains(b)))
}

/// The calls of a project as a relation.
pub open spec fn call_relation(p: &ProjectInfo) -> spec_fn(Seq<char>, Seq<char>) -> bool {
    |a: Seq<char>, b: Seq<char>| may_call(p, a, b)
}

/// A function or a class may call itself, directly or through others.
pub open spec fn recursive(p: &ProjectInfo, f: Seq<char>) -> bool {
    on_cycle(call_relation(p), f)
}

impl ProjectInfo {
    /// A graph with the functions and classes, and no edge.
    fn call_nodes(&self) -> (res: Graph)
        ensures
            forall|x: Seq<char>| #[trigger] res.node_set().contains(x) <==> self.defines(x),
            forall|a: Seq<char>, b: Seq<char>| !#[trigger] res.links(a, b),
    {
        let mut graph = Graph::new();
        let functions = self.functions.key_list();
        let ghost all = texts(functions@);
        proof {
            assert(graph.node_set() =~= all.take(0).to_set());
        }
        for i in 0..functions.len()
            invariant
                all == texts(functions@),
                graph.node_set() == all.take(i as int).to_set(),
                forall|a: Seq<char>, b: Seq<char>| !#[trigger] graph.links(a, b),
        {
            let ghost before = graph;
            let _ = graph.add_node(&functions[i]);
            proof {
                assert forall|a: Seq<char>, b: Seq<char>| !#[trigger] graph.links(a, b) by {
                    assert(!before.links(a, b));
                    assert(graph.edge_count(a, b) == before.edge_count(a, b));
                }
                crate::name_set::lemma_take_more(all, i as int);
            }
        }
        let classes = self.classes.keys();
        let ghost more = texts(classes@);
        proof {
            assert(all.take(all.len() as int) =~= all);
            assert(graph.node_set() =~= all.to_set().union(more.take(0).to_set()));
        }
        for i in 0..classes.len()
            invariant
                more == texts(classes@),
                graph.node_set() == all.to_set().union(more.take(i as int).to_set()),
                forall|a: Seq<char>, b: Seq<char>| !#[trigger] graph.links(a, b),
        {
            let ghost before = graph;
            let _ = graph.add_node(&classes[i]);
            proof {
                assert forall|a: Seq<char>, b: Seq<char>| !#[trigger] graph.links(a, b) by {
                    assert(!before.links(a, b));
                    assert(graph.edge_count(a, b) == before.edge_count(a, b));
                }
                crate::name_set::lemma_take_more(more, i as int);
                assert(graph.node_set() =~= all.to_set().union(more.take(i + 1).to_set()));
            }
        }
        proof {
            assert(more.take(more.len() as int) =~= more);
        }
        graph
    }

    /// Adds the calls of a function.
    fn add_function_calls(&self, graph: &mut Graph, func: &ModuleName)
        requires
            old(graph).node_set().contains(func@),
            forall|x: Seq<char>| #[trigger] old(graph).node_set().contains(x) <==> self.defines(x),
        ensures
            final(graph).node_set() == old(graph).node_set(),
            forall|a: Seq<char>, b: Seq<char>| #[trigger]
                final(graph).links(a, b) <==> old(graph).links(a, b) || (a == func@ && self.defines(b)
                    && some_runs(effects_in(self, func@), b)),
    {
        if let Some(effs) = self.effect_table.get(func) {
            let ghost all = effs.deep_view();
            let ghost first = *graph;
            for i in 0..effs.len()
                invariant
                    all == effs.deep_view(),
                    graph.node_set() == first.node_set(),
                    first.node_set().contains(func@),
                    forall|x: Seq<char>| #[trigger] first.node_set().contains(x) <==> self.defines(x),
                    forall|a: Seq<char>, b: Seq<char>| #[trigger]
                        graph.links(a, b) <==> first.links(a, b) || (a == func@ && self.defines(b)
                            && some_runs(all.take(i as int), b)),
            {
                let ghost before = *graph;
                let eff = &effs[i];
                if eff.kind.is_runnable() {
                    let _ = graph.add_edge(func, &eff.name);
                }
                proof {
                    let fewer = all.take(i as int);
                    let more = all.take(i + 1);
                    assert(more[i as int] == all[i as int]);
                    assert forall|a: Seq<char>, b: Seq<char>| #[trigger]
                        graph.links(a, b) <==> first.links(a, b) || (a == func@ && self.defines(b)
                            && some_runs(more, b)) by {
                        assert(before.links(a, b) <==> first.links(a, b) || (a == func@ && self.defines(b)
                            && some_runs(fewer, b)));
                        if some_runs(more, b) {
                            let j = choose|j: int|
                                0 <= j < more.len() && (#[trigger] more[j]).kind.runnable() && more[j].name
                                    == b;
                            if j < i {
                                assert(fewer[j] == more[j]);
                            }
                        }
                        if some_runs(fewer, b) {
                            let j = choose|j: int|
                                0 <= j < fewer.len() && (#[trigger] fewer[j]).kind.runnable()
                                    && fewer[j].name == b;
                            assert(more[j] == fewer[j]);
                        }
                        assert(graph.edge_count(a, b) >= before.edge_count(a, b));
                    }
                }
            }
            proof {
                assert(all.take(all.len() as int) =~= all);
            }
        }
    }

    /// Adds the calls by which an object of a class is constructed.
    fn add_constructor_calls(&self, graph: &mut Graph, cls_name: &ModuleName)
        requires
            old(graph).node_set().contains(cls_name@),
            forall|x: Seq<char>| #[trigger] old(graph).node_set().contains(x) <==> self.defines(x),
        ensures
            final(graph).node_set() == old(graph).node_set(),
            forall|a: Seq<char>, b: Seq<char>| #[trigger]
                final(graph).links(a, b) <==> old(graph).links(a, b) || (a == cls_name@ && self.defines(b)
                    && constructor_names(cls_name@, self.classes.deep_view()).contains(b)),
    {
        let methods = constructor_method_names(cls_name, &self.classes);
        let ghost all = texts(methods@);
        let ghost first = *graph;
        for i in 0..methods.len()
            invariant
                all == texts(methods@),
                graph.node_set() == first.node_set(),
                first.node_set().contains(cls_name@),
                forall|x: Seq<char>| #[trigger] first.node_set().contains(x) <==> self.defines(x),
                forall|a: Seq<char>, b: Seq<char>| #[trigger]
                    graph.links(a, b) <==> first.links(a, b) || (a == cls_name@ && self.defines(b)
                        && all.take(i as int).to_set().contains(b)),
        {
            let ghost before = *graph;
            let _ = graph.add_edge(cls_name, &methods[i]);
            proof {
                crate::name_set::lemma_take_more(all, i as int);
                assert forall|a: Seq<char>, b: Seq<char>| #[trigger]
                    graph.links(a, b) <==> first.links(a, b) || (a == cls_name@ && self.defines(b)
                        && all.take(i + 1).to_set().contains(b)) by {
                    assert(before.links(a, b) <==> first.links(a, b) || (a == cls_name@ && self.defines(b)
                        && all.take(i as int).to_set().contains(b)));
                    assert(graph.edge_count(a, b) >= before.edge_count(a, b));
                }
            }
        }
        proof {
            assert(all.take(all.len() as int) =~= all);
            assert forall|b: Seq<char>| all.to_set().contains(b) <==> all.contains(b) by {}
        }
    }

    /// The graph of calls.
    fn call_graph(&self) -> (res: Graph)
        ensures
            forall|a: Seq<char>, b: Seq<char>| #[trigger] res.links(a, b) <==> may_call(self, a, b),
    {
        let mut graph = self.call_nodes();
        let functions = self.functions.key_list();
        let ghost all = texts(functions@);
        for i in 0..functions.len()
            invariant
                all == texts(functions@),
                all.to_set() == self.functions@.dom(),
                forall|x: Seq<char>| #[trigger] graph.node_set().contains(x) <==> self.defines(x),
                forall|a: Seq<char>, b: Seq<char>| #[trigger]
                    graph.links(a, b) <==> self.defines(b) && all.take(i as int).to_set().contains(a)
                        && some_runs(effects_in(self, a), b),
        {
            let ghost before = graph;
            proof {
                crate::name_set::lemma_take_more(all, i as int);
                assert(all.contains(all[i as int]));
                assert(all.to_set().contains(all[i as int]));
            }
            self.add_function_calls(&mut graph, &functions[i]);
            proof {
                assert forall|a: Seq<char>, b: Seq<char>| #[trigger]
                    graph.links(a, b) <==> self.defines(b) && all.take(i + 1).to_set().contains(a)
                        && some_runs(effects_in(self, a), b) by {
                    assert(before.links(a, b) <==> self.defines(b) && all.take(i as int).to_set().contains(a)
                        && some_runs(effects_in(self, a), b));
                }
            }
        }
        proof {
            assert(all.take(all.len() as int) =~= all);
        }
        let classes = self.classes.keys();
        let ghost more = texts(classes@);
        for i in 0..classes.len()
            invariant
                more == texts(classes@),
                all.to_set() == self.functions@.dom(),
                more.to_set() == self.classes.deep_view().dom(),
                forall|x: Seq<char>| #[trigger] graph.node_set().contains(x) <==> self.defines(x),
                forall|a: Seq<char>, b: Seq<char>| #[trigger]
                    graph.links(a, b) <==> self.defines(b) && ((all.to_set().contains(a) && some_runs(
                        effects_in(self, a),
                        b,
                    )) || (more.take(i as int).to_set().contains(a) && constructor_names(
                        a,
                        self.classes.deep_view(),
                    ).contains(b))),
        {
            let ghost before = graph;
            proof {
                crate::name_set::lemma_take_more(more, i as int);
                assert(more.contains(more[i as int]));
                assert(more.to_set().contains(more[i as int]));
            }
            self.add_constructor_calls(&mut graph, &classes[i]);
            proof {
                assert forall|a: Seq<char>, b: Seq<char>| #[trigger]
                    graph.links(a, b) <==> self.defines(b) && ((all.to_set().contains(a) && some_runs(
                        effects_in(self, a),
                        b,
                    )) || (more.take(i + 1).to_set().contains(a) && constructor_names(
                        a,
                        self.classes.deep_view(),
                    ).contains(b))) by {
                    assert(before.links(a, b) <==> self.defines(b) && ((all.to_set().contains(a)
                        && some_runs(effects_in(self, a), b)) || (more.take(i as int).to_set().contains(a)
                        && constructor_names(a, self.classes.deep_view()).contains(b))));
                }
            }
        }
        proof {
            assert(more.take(more.len() as int) =~= more);
        }
        graph
    }

    /// Marks every function and every class that may call itself, directly or through others,
    /// as unsafe.
    pub fn mark_recursive_functions_unsafe(&self, state: &mut CheckState)
        ensures
            final(state).deep_view().errors == old(state).deep_view().errors,
            forall|f: Seq<char>| #[trigger]
                final(state).deep_view().verdicts.contains_key(f) <==> old(
                    state,
                ).deep_view().verdicts.contains_key(f) || recursive(self, f),
            forall|f: Seq<char>| #[trigger]
                final(state).deep_view().verdicts.contains_key(f)
                    ==> final(state).deep_view().verdicts[f] == (if recursive(self, f) {
                    FunctionInfoView::plain(FunctionSafety::Unsafe)
                } else {
                    old(state).deep_view().verdicts[f]
                }),
    {
        let graph = self.call_graph();
        let found = nodes_in_cycles(&graph);
        proof {
            assert(graph.relation() =~= call_relation(self));
        }
        let n: usize = found.len();
        let ghost items = found.items();
        let ghost start = state.deep_view();
        for i in 0..n
            invariant
                n == items.len(),
                items == found.items(),
                state.deep_view().errors == start.errors,
                forall|f: Seq<char>| #[trigger]
                    state.deep_view().verdicts.contains_key(f) <==> start.verdicts.contains_key(f)
                        || items.take(i as int).to_set().contains(f),
                forall|f: Seq<char>| #[trigger]
                    state.deep_view().verdicts.contains_key(f) ==> state.deep_view().verdicts[f] == (
                    if items.take(i as int).to_set().contains(f) {
                        FunctionInfoView::plain(FunctionSafety::Unsafe)
                    } else {
                        start.verdicts[f]
                    }),
        {
            let ghost before = state.deep_view();
            state.mark_unsafe(&found.at(i));
            proof {
                crate::name_set::lemma_take_more(items, i as int);
                let fewer = items.take(i as int).to_set();
                let more = items.take(i + 1).to_set();
                assert forall|f: Seq<char>| #[trigger]
                    state.deep_view().verdicts.contains_key(f) <==> start.verdicts.contains_key(f)
                        || more.contains(f) by {
                    assert(before.verdicts.contains_key(f) <==> start.verdicts.contains_key(f)
                        || fewer.contains(f));
                }
                assert forall|f: Seq<char>| #[trigger]
                    state.deep_view().verdicts.contains_key(f) implies state.deep_view().verdicts[f] == (
                if more.contains(f) {
                    FunctionInfoView::plain(FunctionSafety::Unsafe)
                } else {
                    start.verdicts[f]
                }) by {
                    if f != items[i as int] {
                        assert(before.verdicts.contains_key(f));
                    }
                }
            }
        }
        proof {
            assert(items.take(items.len() as int) =~= items);
            assert(items.to_set() =~= found@);
            assert forall|f: Seq<char>| found@.contains(f) <==> #[trigger] recursive(self, f) by {}
        }
    }
}

} // verus!
