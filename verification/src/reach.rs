//! Which modules an import leads to.

use crate::graph::{is_walk, reaches};
use crate::imports::ImportGraph;
use crate::module_name::{texts, ModuleName};
use crate::name_set::NameSet;
use vstd::prelude::*;

verus! {

/// A module imports another, in one step or in several.
pub open spec fn imports_transitively(graph: &ImportGraph, from: Seq<char>, to: Seq<char>) -> bool {
    exists|walk: Seq<Seq<char>>| #[trigger]
        is_walk(graph.graph.relation(), walk) && walk.len() > 1 && walk.first() == from && walk.last()
            == to
}

/// A module imports another, in one step or in several, and no step leads to a given module.
pub open spec fn imports_around(
    graph: &ImportGraph,
    from: Seq<char>,
    to: Seq<char>,
    avoided: Seq<char>,
) -> bool {
    exists|walk: Seq<Seq<char>>| #[trigger]
        is_walk(graph.graph.relation(), walk) && walk.len() > 1 && walk.first() == from && walk.last() == to
            && !walk.skip(1).contains(avoided)
}

/// The modules that import a module, in one step or in several.
pub open spec fn all_importers(graph: &ImportGraph, target: Seq<char>) -> Set<Seq<char>> {
    Set::new(|m: Seq<char>| imports_transitively(graph, m, target))
}

/// The imports, forward or backward, that lead to a module of a set.
pub open spec fn steps_within(
    graph: &ImportGraph,
    backward: bool,
    within: Option<Set<Seq<char>>>,
) -> spec_fn(Seq<char>, Seq<char>) -> bool {
    |a: Seq<char>, b: Seq<char>| step_within(graph, backward, within, a, b)
}

/// An import, forward or backward, leads to a module of a set.
pub open spec fn step_within(
    graph: &ImportGraph,
    backward: bool,
    within: Option<Set<Seq<char>>>,
    a: Seq<char>,
    b: Seq<char>,
) -> bool {
    (if backward {
        graph.graph.links(b, a)
    } else {
        graph.graph.links(a, b)
    }) && allowed(within, b)
}

/// A name is in the set, where there is one.
pub open spec fn allowed(within: Option<Set<Seq<char>>>, name: Seq<char>) -> bool {
    match within {
        Some(set) => set.contains(name),
        None => true,
    }
}

/// What can be reached from some names, by steps that stay in a set.
pub open spec fn reachable(
    relation: spec_fn(Seq<char>, Seq<char>) -> bool,
    starts: Set<Seq<char>>,
) -> Set<Seq<char>> {
    Set::new(
        |x: Seq<char>| exists|s: Seq<char>| #[trigger] starts.contains(s) && reaches(relation, s, x),
    )
}

/// One more step at the end of a walk.
pub proof fn lemma_reach_step<T>(relation: spec_fn(T, T) -> bool, a: T, b: T, c: T)
    requires
        reaches(relation, a, b),
        relation(b, c),
    ensures
        reaches(relation, a, c),
{
    let walk = choose|walk: Seq<T>| #[trigger]
        is_walk(relation, walk) && walk.first() == a && walk.last() == b;
    let longer = walk.push(c);
    assert forall|i: int| 0 <= i < longer.len() - 1 implies relation(#[trigger] longer[i], longer[i + 1]) by {
        if i < walk.len() - 1 {
            assert(relation(walk[i], walk[i + 1]));
        }
    }
    assert(is_walk(relation, longer));
}

/// A name reaches itself.
pub proof fn lemma_reach_self<T>(relation: spec_fn(T, T) -> bool, a: T)
    ensures
        reaches(relation, a, a),
{
    assert(is_walk(relation, seq![a]));
}

/// What is closed under steps holds all that its members reach.
pub proof fn lemma_closed<T>(relation: spec_fn(T, T) -> bool, set: Set<T>, a: T, b: T)
    requires
        set.contains(a),
        reaches(relation, a, b),
        forall|x: T, y: T| set.contains(x) && #[trigger] relation(x, y) ==> set.contains(y),
    ensures
        set.contains(b),
{
    let walk = choose|walk: Seq<T>| #[trigger]
        is_walk(relation, walk) && walk.first() == a && walk.last() == b;
    lemma_closed_along(relation, set, walk, walk.len() - 1);
}

proof fn lemma_closed_along<T>(relation: spec_fn(T, T) -> bool, set: Set<T>, walk: Seq<T>, i: int)
    requires
        is_walk(relation, walk),
        set.contains(walk.first()),
        forall|x: T, y: T| set.contains(x) && #[trigger] relation(x, y) ==> set.contains(y),
        0 <= i < walk.len(),
    ensures
        set.contains(walk[i]),
    decreases i,
{
    if i > 0 {
        lemma_closed_along(relation, set, walk, i - 1);
        assert(relation(walk[i - 1], walk[i]));
    }
}

/// Finds all that can be reached from some modules by imports, forward or backward, that lead to
/// modules of a set.
pub fn reach(
    import_graph: &ImportGraph,
    starts: Vec<ModuleName>,
    backward: bool,
    within: Option<&NameSet>,
) -> (res: NameSet)
    requires
        forall|i: int|
            0 <= i < starts@.len() ==> allowed(
                match within {
                    Some(set) => Some(set@),
                    None => None,
                },
                (#[trigger] starts@[i])@,
            ),
    ensures
        res@ == reachable(
            steps_within(
                import_graph,
                backward,
                match within {
                    Some(set) => Some(set@),
                    None => None,
                },
            ),
            texts(starts@).to_set(),
        ),
{
    let ghost limit = match within {
        Some(set) => Some(set@),
        None => None,
    };
    let ghost relation = steps_within(import_graph, backward, limit);
    let ghost from = texts(starts@).to_set();
    let nodes = import_graph.modules();
    let ghost universe = import_graph.graph.node_set().union(from);
    let mut seen = NameSet::new();
    let mut stack: Vec<ModuleName> = starts;
    proof {
        assert(texts(nodes@).to_set().finite());
        assert(texts(stack@).to_set().finite());
        assert forall|i: int| 0 <= i < stack@.len() implies {
            &&& universe.contains((#[trigger] stack@[i])@)
            &&& reachable(relation, from).contains(stack@[i]@)
        } by {
            assert(texts(stack@)[i] == stack@[i]@);
            assert(from.contains(stack@[i]@));
            lemma_reach_self(relation, stack@[i]@);
        }
        assert forall|s: Seq<char>| #[trigger] from.contains(s) implies texts(stack@).contains(s) by {}
    }
    while stack.len() > 0
        invariant
            relation == steps_within(import_graph, backward, limit),
            limit == (match within {
                Some(set) => Some(set@),
                None => None,
            }),
            universe == import_graph.graph.node_set().union(from),
            universe.finite(),
            seen@.subset_of(universe),
            seen@.subset_of(reachable(relation, from)),
            forall|i: int|
                0 <= i < stack@.len() ==> universe.contains((#[trigger] stack@[i])@) && reachable(
                    relation,
                    from,
                ).contains(stack@[i]@),
            forall|s: Seq<char>| #[trigger]
                from.contains(s) ==> seen@.contains(s) || texts(stack@).contains(s),
            forall|x: Seq<char>, y: Seq<char>|
                seen@.contains(x) && #[trigger] relation(x, y) ==> seen@.contains(y) || texts(
                    stack@,
                ).contains(y),
        decreases universe.len() - seen@.len(), stack@.len(),
    {
        let ghost before = texts(stack@);
        let ghost seen_before = seen@;
        let mut current = ModuleName::empty();
        if let Some(top) = stack.pop() {
            current = top;
        }
        let ghost name = current@;
        proof {
            assert(before.last() == name);
            assert(texts(stack@) =~= before.drop_last());
            assert forall|x: Seq<char>| before.contains(x) implies texts(stack@).contains(x) || x == name by {
                let i = before.index_of(x);
                if i < before.len() - 1 {
                    assert(texts(stack@)[i] == x);
                }
            }
            vstd::set_lib::lemma_len_subset(seen@, universe);
        }
        if seen.insert(current.clone()) {
            let found = if backward {
                import_graph.get_importers(&current)
            } else {
                import_graph.get_imports(&current)
            };
            let ghost left = texts(stack@);
            proof {
                vstd::set_lib::lemma_len_subset(seen@, universe);
                assert forall|x: Seq<char>| texts(found@).contains(x) implies import_graph.graph.node_set().contains(
                    x,
                ) by {
                    assert(import_graph.graph.links(x, name) || import_graph.graph.links(name, x));
                }
            }
            for k in 0..found.len()
                invariant
                    relation == steps_within(import_graph, backward, limit),
                    limit == (match within {
                        Some(set) => Some(set@),
                        None => None,
                    }),
                    universe == import_graph.graph.node_set().union(from),
                    forall|x: Seq<char>| #[trigger]
                        texts(found@).contains(x) ==> (if backward {
                            import_graph.graph.links(x, name)
                        } else {
                            import_graph.graph.links(name, x)
                        }),
                    forall|x: Seq<char>| #[trigger]
                        texts(found@).contains(x) ==> import_graph.graph.node_set().contains(x),
                    reachable(relation, from).contains(name),
                    forall|i: int|
                        0 <= i < stack@.len() ==> universe.contains((#[trigger] stack@[i])@)
                            && reachable(relation, from).contains(stack@[i]@),
                    forall|x: Seq<char>| #[trigger] left.contains(x) ==> texts(stack@).contains(x),
                    forall|j: int|
                        0 <= j < k && relation(name, #[trigger] texts(found@)[j]) ==> texts(
                            stack@,
                        ).contains(texts(found@)[j]),
            {
                let ghost so_far = texts(stack@);
                let ghost next = found@[k as int]@;
                let inside = match within {
                    Some(set) => set.contains(&found[k]),
                    None => true,
                };
                proof {
                    assert(texts(found@)[k as int] == next);
                    assert(texts(found@).contains(next));
                    assert(backward ==> import_graph.graph.links(next, name));
                    assert(!backward ==> import_graph.graph.links(name, next));
                    assert(inside == relation(name, next));
                }
                if inside {
                    stack.push(found[k].clone());
                    proof {
                        assert(texts(stack@) =~= so_far.push(next));
                        let s = choose|s: Seq<char>| #[trigger]
                            from.contains(s) && reaches(relation, s, name);
                        lemma_reach_step(relation, s, name, next);
                        assert(from.contains(s) && reaches(relation, s, next));
                        assert forall|x: Seq<char>| so_far.contains(x) implies texts(stack@).contains(x) by {
                            assert(texts(stack@)[so_far.index_of(x)] == x);
                        }
                        assert(texts(stack@)[so_far.len() as int] == next);
                    }
                }
            }
            proof {
                assert forall|x: Seq<char>, y: Seq<char>|
                    seen@.contains(x) && #[trigger] relation(x, y) implies seen@.contains(y) || texts(
                    stack@,
                ).contains(y) by {
                    if x == name {
                        assert(texts(found@).contains(y));
                        let j = texts(found@).index_of(y);
                        assert(texts(found@)[j] == y);
                    } else {
                        assert(seen_before.contains(x));
                    }
                }
            }
        } else {
            proof {
                assert(seen@ =~= seen_before);
            }
        }
    }
    proof {
        assert(texts(stack@) =~= Seq::empty());
        assert forall|x: Seq<char>| reachable(relation, from).contains(x) implies seen@.contains(x) by {
            let s = choose|s: Seq<char>| #[trigger] from.contains(s) && reaches(relation, s, x);
            lemma_closed(relation, seen@, s, x);
        }
        assert(seen@ =~= reachable(relation, from));
    }
    seen
}

/// All other modules that import a module, in one step or in several.
pub fn transitive_importers(import_graph: &ImportGraph, target: &ModuleName) -> (res: NameSet)
    ensures
        res@ == all_importers(import_graph, target@).remove(target@),
{
    let starts = import_graph.get_importers(target);
    let ghost from = texts(starts@).to_set();
    let mut res = reach(import_graph, starts, true, None);
    proof {
        let relation = steps_within(import_graph, true, None);
        let forward = import_graph.graph.relation();
        assert forall|x: Seq<char>| res@.contains(x) <==> all_importers(import_graph, target@).contains(x) by {
            if res@.contains(x) {
                let s = choose|s: Seq<char>| #[trigger] from.contains(s) && reaches(relation, s, x);
                let walk = choose|walk: Seq<Seq<char>>| #[trigger]
                    is_walk(relation, walk) && walk.first() == s && walk.last() == x;
                let back = Seq::new(
                    walk.len() + 1,
                    |i: int|
                        if i < walk.len() {
                            walk[walk.len() - 1 - i]
                        } else {
                            target@
                        },
                );
                assert forall|i: int| 0 <= i < back.len() - 1 implies forward(#[trigger] back[i], back[i + 1]) by {
                    if i < walk.len() - 1 {
                        let j = walk.len() - 2 - i;
                        assert(relation(walk[j], walk[j + 1]));
                    } else {
                        assert(import_graph.graph.links(s, target@));
                    }
                }
                assert(is_walk(forward, back));
            }
            if imports_transitively(import_graph, x, target@) {
                let walk = choose|walk: Seq<Seq<char>>| #[trigger]
                    is_walk(forward, walk) && walk.len() > 1 && walk.first() == x && walk.last()
                        == target@;
                let s = walk[walk.len() - 2];
                assert(forward(walk[walk.len() - 2], walk[walk.len() - 1]));
                assert(from.contains(s));
                let back = Seq::new((walk.len() - 1) as nat, |i: int| walk[walk.len() - 2 - i]);
                assert forall|i: int| 0 <= i < back.len() - 1 implies relation(#[trigger] back[i], back[i + 1]) by {
                    let j = walk.len() - 3 - i;
                    assert(forward(walk[j], walk[j + 1]));
                }
                assert(is_walk(relation, back));
                assert(reaches(relation, s, x));
            }
        }
        assert(res@ =~= all_importers(import_graph, target@));
    }
    let _ = res.remove(target);
    res
}

} // verus!
