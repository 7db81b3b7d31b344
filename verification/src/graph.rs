//! A directed graph of named nodes.

use crate::module_name::{texts, ModuleName};
use crate::name_map::NameMap;
use petgraph::graph::Graph as Petgraph;
use petgraph::graph::{DiGraph, NodeIndex};
use petgraph::Direction;
use vstd::multiset::Multiset;
use vstd::prelude::*;

verus! {

/// A graph of the `petgraph` crate.
#[verifier::external_type_specification]
#[verifier::external_body]
#[verifier::reject_recursive_types(N)]
#[verifier::reject_recursive_types(E)]
#[verifier::reject_recursive_types(Ty)]
#[verifier::reject_recursive_types(Ix)]
pub struct ExPetgraph<N, E, Ty, Ix>(Petgraph<N, E, Ty, Ix>);

/// The marker of the `petgraph` crate for directed edges.
#[verifier::external_type_specification]
#[verifier::external_body]
pub struct ExDirected(petgraph::Directed);

/// The weights of a graph's nodes, by node index.
pub uninterp spec fn weights(graph: &DiGraph<String, (), usize>) -> Seq<Seq<char>>;

/// The edges of a graph, each as the indices of the nodes that it goes from and to.
pub uninterp spec fn arcs(graph: &DiGraph<String, (), usize>) -> Multiset<(int, int)>;

/// `DiGraph::default` makes a graph without nodes or edges.
#[verifier::external_body]
fn digraph_new() -> (res: DiGraph<String, (), usize>)
    ensures
        weights(&res).len() == 0,
        arcs(&res) == Multiset::<(int, int)>::empty(),
{
    DiGraph::default()
}

/// `Graph::add_node` gives the new node the next index and adds no edge.
#[verifier::external_body]
fn digraph_add_node(graph: &mut DiGraph<String, (), usize>, weight: String) -> (res: usize)
    ensures
        res == weights(old(graph)).len(),
        weights(final(graph)) == weights(old(graph)).push(weight@),
        arcs(final(graph)) == arcs(old(graph)),
{
    graph.add_node(weight).index()
}

/// `Graph::add_edge` adds one edge between two nodes, beside any that is already there.
/// It panics where a node does not exist.
#[verifier::external_body]
fn digraph_add_edge(graph: &mut DiGraph<String, (), usize>, from: usize, to: usize)
    requires
        from < weights(old(graph)).len(),
        to < weights(old(graph)).len(),
    ensures
        weights(final(graph)) == weights(old(graph)),
        arcs(final(graph)) == arcs(old(graph)).insert((from as int, to as int)),
{
    graph.add_edge(NodeIndex::new(from), NodeIndex::new(to), ());
}

/// The index that a node had before the node at `hole` was taken out of a graph of `count` nodes:
/// the last node moves to the hole.
pub open spec fn index_before(i: int, hole: int, count: int) -> int {
    if i == hole {
        count - 1
    } else {
        i
    }
}

/// `Graph::remove_node` takes out a node with all its edges, and the last node adopts its index.
#[verifier::external_body]
fn digraph_remove_node(graph: &mut DiGraph<String, (), usize>, node: usize)
    requires
        node < weights(old(graph)).len(),
    ensures
        weights(final(graph)).len() == weights(old(graph)).len() - 1,
        forall|i: int|
            0 <= i < weights(final(graph)).len() ==> #[trigger] weights(final(graph))[i] == weights(
                old(graph),
            )[index_before(i, node as int, weights(old(graph)).len() as int)],
        forall|i: int, j: int| #[trigger]
            arcs(final(graph)).count((i, j)) == (if 0 <= i < weights(final(graph)).len() && 0 <= j
                < weights(final(graph)).len() {
                arcs(old(graph)).count(
                    (
                        index_before(i, node as int, weights(old(graph)).len() as int),
                        index_before(j, node as int, weights(old(graph)).len() as int),
                    ),
                )
            } else {
                0
            }),
{
    graph.remove_node(NodeIndex::new(node));
}

/// `Graph::node_weight` gives the weight of a node.
#[verifier::external_body]
fn digraph_node_weight(graph: &DiGraph<String, (), usize>, node: usize) -> (res: Option<&String>)
    ensures
        res is Some <==> node < weights(graph).len(),
        res matches Some(w) ==> w@ == weights(graph)[node as int],
{
    graph.node_weight(NodeIndex::new(node))
}

/// `Graph::contains_edge` says whether some edge goes from one node to the other.
#[verifier::external_body]
fn digraph_contains_edge(graph: &DiGraph<String, (), usize>, from: usize, to: usize) -> (res: bool)
    ensures
        res == (arcs(graph).count((from as int, to as int)) > 0),
{
    graph.contains_edge(NodeIndex::new(from), NodeIndex::new(to))
}

/// `Graph::neighbors_directed` lists, for each edge from a node (`Outgoing`) or to it
/// (`Incoming`), the node at the other end. Their order is left unsaid.
#[verifier::external_body]
fn digraph_neighbors(graph: &DiGraph<String, (), usize>, node: usize, outgoing: bool) -> (res: Vec<
    usize,
>)
    ensures
        forall|i: usize| #[trigger]
            res@.to_multiset().count(i) == arcs(graph).count(
                if outgoing {
                    (node as int, i as int)
                } else {
                    (i as int, node as int)
                },
            ),
{
    let direction = if outgoing { Direction::Outgoing } else { Direction::Incoming };
    graph.neighbors_directed(NodeIndex::new(node), direction).map(|n| n.index()).collect()
}

/// A walk along edges.
pub open spec fn is_walk<T>(edge: spec_fn(T, T) -> bool, walk: Seq<T>) -> bool {
    &&& walk.len() > 0
    &&& forall|i: int| 0 <= i < walk.len() - 1 ==> edge(#[trigger] walk[i], walk[i + 1])
}

/// Some walk, of no step or more, leads from one node to another.
pub open spec fn reaches<T>(edge: spec_fn(T, T) -> bool, from: T, to: T) -> bool {
    exists|walk: Seq<T>| #[trigger]
        is_walk(edge, walk) && walk.first() == from && walk.last() == to
}

/// Two nodes lie on a common cycle, or are the same.
pub open spec fn strongly_connected<T>(edge: spec_fn(T, T) -> bool, a: T, b: T) -> bool {
    reaches(edge, a, b) && reaches(edge, b, a)
}

/// The edges of a graph as a relation on node indices.
pub open spec fn arc_relation(graph: &DiGraph<String, (), usize>) -> spec_fn(int, int) -> bool {
    |i: int, j: int| arcs(graph).count((i, j)) > 0
}

/// `tarjan_scc` lists the strongly connected components. Each node stands in one component, once,
/// and two nodes stand in the same one where each reaches the other. Components come in
/// postorder: no edge leads from a component to a later one.
#[verifier::external_body]
fn digraph_components(graph: &DiGraph<String, (), usize>) -> (res: Vec<Vec<usize>>)
    ensures
        forall|c: int, k: int|
            0 <= c < res@.len() && 0 <= k < res@[c]@.len() ==> #[trigger] res@[c]@[k] < weights(
                graph,
            ).len(),
        forall|i: int|
            #![trigger weights(graph)[i]]
            0 <= i < weights(graph).len() ==> exists|c: int, k: int|
                0 <= c < res@.len() && 0 <= k < res@[c]@.len() && #[trigger] res@[c]@[k] == i,
        forall|c: int, k: int, d: int, l: int|
            0 <= c < res@.len() && 0 <= k < res@[c]@.len() && 0 <= d < res@.len() && 0 <= l
                < res@[d]@.len() && #[trigger] res@[c]@[k] == #[trigger] res@[d]@[l] ==> c == d && k
                == l,
        forall|c: int, k: int, d: int, l: int|
            0 <= c < res@.len() && 0 <= k < res@[c]@.len() && 0 <= d < res@.len() && 0 <= l
                < res@[d]@.len() ==> (c == d <==> strongly_connected(
                arc_relation(graph),
                #[trigger] res@[c]@[k] as int,
                #[trigger] res@[d]@[l] as int,
            )),
        forall|c: int, k: int, d: int, l: int|
            0 <= c < d < res@.len() && 0 <= k < res@[c]@.len() && 0 <= l < res@[d]@.len() ==> arcs(
                graph,
            ).count((#[trigger] res@[c]@[k] as int, #[trigger] res@[d]@[l] as int)) == 0,
{
    let components = petgraph::algo::tarjan_scc(graph);
    components.into_iter().map(|c| c.into_iter().map(|n| n.index()).collect()).collect()
}

/// Nodes that form a strongly connected component of more than one node, by index.
pub type Cycle = Vec<usize>;

/// A directed graph whose nodes are names. Several edges may go from one node to another.
pub struct Graph {
    graph: DiGraph<String, (), usize>,
    nodes: NameMap<usize>,
}

/// Each name stands at its own index, and every edge joins nodes that exist.
spec fn in_step(nodes: Map<Seq<char>, usize>, names: Seq<Seq<char>>, edges: Multiset<(int, int)>) -> bool {
    &&& forall|k: Seq<char>| #[trigger]
        nodes.contains_key(k) ==> nodes[k] < names.len() && names[nodes[k] as int] == k
    &&& forall|i: int|
        #![trigger names[i]]
        0 <= i < names.len() ==> nodes.contains_key(names[i]) && nodes[names[i]] == i
    &&& forall|i: int, j: int| #[trigger]
        edges.count((i, j)) > 0 ==> 0 <= i < names.len() && 0 <= j < names.len()
}

impl Graph {
    #[verifier::type_invariant]
    closed spec fn coherent(&self) -> bool {
        in_step(self.nodes@, weights(&self.graph), arcs(&self.graph))
    }

    /// The names in the graph.
    pub closed spec fn node_set(&self) -> Set<Seq<char>> {
        self.nodes@.dom()
    }

    /// The names in the graph, by index.
    pub closed spec fn names(&self) -> Seq<Seq<char>> {
        weights(&self.graph)
    }

    /// How many edges go from one name to another.
    pub closed spec fn edge_count(&self, from: Seq<char>, to: Seq<char>) -> nat {
        if self.nodes@.contains_key(from) && self.nodes@.contains_key(to) {
            arcs(&self.graph).count((self.nodes@[from] as int, self.nodes@[to] as int))
        } else {
            0
        }
    }

    /// Some edge goes from one name to another.
    pub open spec fn links(&self, from: Seq<char>, to: Seq<char>) -> bool {
        self.edge_count(from, to) > 0
    }

    /// The edges as a relation on names.
    pub open spec fn relation(&self) -> spec_fn(Seq<char>, Seq<char>) -> bool {
        |a: Seq<char>, b: Seq<char>| self.links(a, b)
    }

    /// What holds of every graph: an index for each name, and edges between names in the graph.
    pub open spec fn sound(&self) -> bool {
        &&& self.names().no_duplicates()
        &&& self.names().to_set() == self.node_set()
        &&& self.node_set().finite()
        &&& forall|a: Seq<char>, b: Seq<char>| #[trigger]
            self.links(a, b) ==> self.node_set().contains(a) && self.node_set().contains(b)
    }

    proof fn lemma_sound(&self)
        requires
            self.coherent(),
        ensures
            self.sound(),
    {
        let names = self.names();
        assert forall|i: int, j: int| 0 <= i < names.len() && 0 <= j < names.len() && i != j implies names[i]
            != names[j] by {
            assert(self.nodes@[names[i]] == i && self.nodes@[names[j]] == j);
        }
        assert forall|k: Seq<char>| names.to_set().contains(k) <==> self.node_set().contains(k) by {
            if names.contains(k) {
                let i = names.index_of(k);
                assert(self.nodes@.contains_key(names[i]));
            }
            if self.nodes@.contains_key(k) {
                assert(names[self.nodes@[k] as int] == k);
            }
        }
        assert(names.to_set() =~= self.node_set());
        assert(names.to_set().finite());
    }

    /// An empty graph.
    pub fn new() -> (res: Graph)
        ensures
            res.node_set() == Set::<Seq<char>>::empty(),
            forall|a: Seq<char>, b: Seq<char>| res.edge_count(a, b) == 0,
            res.sound(),
    {
        let res = Graph { graph: digraph_new(), nodes: NameMap::new() };
        proof {
            use_type_invariant(&res);
            res.lemma_sound();
            assert(res.node_set() =~= Set::<Seq<char>>::empty());
        }
        res
    }

    /// Adds a node, where it is not yet there, and gives its index.
    pub fn add_node(&mut self, node: &ModuleName) -> (res: usize)
        ensures
            final(self).node_set() == old(self).node_set().insert(node@),
            forall|a: Seq<char>, b: Seq<char>|
                final(self).edge_count(a, b) == old(self).edge_count(a, b),
            old(self).node_set().contains(node@) ==> *final(self) == *old(self),
            res < final(self).names().len(),
            final(self).names()[res as int] == node@,
            final(self).sound(),
    {
        proof {
            use_type_invariant(&*self);
            self.lemma_sound();
        }
        match self.nodes.get(node) {
            Some(ix) => {
                proof {
                    assert(self.node_set() =~= old(self).node_set().insert(node@));
                }
                *ix
            },
            None => {
                let mut whole = Graph::new();
                std::mem::swap(self, &mut whole);
                let Graph { mut graph, mut nodes } = whole;
                let ix: usize = digraph_add_node(&mut graph, node.as_string().clone());
                let _ = nodes.insert(node.clone(), ix);
                proof {
                    let names0 = weights(&old(self).graph);
                    let nodes0 = old(self).nodes@;
                    assert forall|i: int| 0 <= i < weights(&graph).len() implies nodes@.contains_key(
                        #[trigger] weights(&graph)[i],
                    ) && nodes@[weights(&graph)[i]] == i by {
                        if i < names0.len() {
                            assert(nodes0.contains_key(names0[i]));
                        }
                    }
                    assert forall|i: int, j: int| #[trigger] arcs(&graph).count((i, j)) > 0 implies 0 <= i
                        < weights(&graph).len() && 0 <= j < weights(&graph).len() by {
                        assert(arcs(&old(self).graph).count((i, j)) > 0);
                    }
                }
                *self = Graph { graph, nodes };
                proof {
                    use_type_invariant(&*self);
                    self.lemma_sound();
                    assert forall|a: Seq<char>, b: Seq<char>|
                        self.edge_count(a, b) == old(self).edge_count(a, b) by {
                        let n = weights(&old(self).graph).len() as int;
                        if a == node@ || b == node@ {
                            if self.nodes@.contains_key(a) && self.nodes@.contains_key(b) {
                                let i = self.nodes@[a] as int;
                                let j = self.nodes@[b] as int;
                                assert(arcs(&old(self).graph).count((i, j)) == 0);
                            }
                        }
                    }
                    assert(self.node_set() =~= old(self).node_set().insert(node@));
                }
                ix
            },
        }
    }

    /// Adds an edge from a node of the graph. Where the node that it would lead to is not in the
    /// graph, no edge is made and the result is `false`.
    pub fn add_edge(&mut self, from: &ModuleName, to: &ModuleName) -> (res: bool)
        requires
            old(self).node_set().contains(from@),
        ensures
            res == old(self).node_set().contains(to@),
            final(self).node_set() == old(self).node_set(),
            final(self).names() == old(self).names(),
            forall|a: Seq<char>, b: Seq<char>| #[trigger]
                final(self).edge_count(a, b) == old(self).edge_count(a, b) + (if res && a == from@ && b
                    == to@ {
                    1nat
                } else {
                    0nat
                }),
            final(self).sound(),
    {
        proof {
            use_type_invariant(&*self);
            self.lemma_sound();
        }
        let p: usize = match self.nodes.get(from) {
            Some(ix) => *ix,
            None => 0,
        };
        let target: Option<usize> = match self.nodes.get(to) {
            Some(ix) => Some(*ix),
            None => None,
        };
        match target {
            None => false,
            Some(q) => {
                let mut whole = Graph::new();
                std::mem::swap(self, &mut whole);
                let Graph { mut graph, nodes } = whole;
                digraph_add_edge(&mut graph, p, q);
                *self = Graph { graph, nodes };
                proof {
                    use_type_invariant(&*self);
                    self.lemma_sound();
                    assert forall|a: Seq<char>, b: Seq<char>| #[trigger]
                        self.edge_count(a, b) == old(self).edge_count(a, b) + (if a == from@ && b == to@ {
                            1nat
                        } else {
                            0nat
                        }) by {
                        let names = weights(&self.graph);
                        if self.nodes@.contains_key(a) && self.nodes@.contains_key(b) {
                            assert(names[self.nodes@[a] as int] == a);
                            assert(names[self.nodes@[b] as int] == b);
                        }
                    }
                }
                true
            },
        }
    }

    /// The names in the graph.
    pub fn node_names(&self) -> (res: Vec<ModuleName>)
        ensures
            texts(res@).to_set() == self.node_set(),
            texts(res@).no_duplicates(),
            self.sound(),
    {
        let n: usize = self.nodes.len();
        let mut res: Vec<ModuleName> = Vec::new();
        for i in 0..n
            invariant
                n == self.nodes.keys().len(),
                texts(res@) == self.nodes.keys().take(i as int),
        {
            res.push(self.nodes.key_at(i).clone());
            proof {
                crate::name_set::lemma_take_more(self.nodes.keys(), i as int);
                assert(texts(res@) =~= self.nodes.keys().take(i + 1));
            }
        }
        proof {
            use_type_invariant(self);
            self.lemma_sound();
            assert(texts(res@) =~= self.nodes.keys());
            assert forall|k: Seq<char>| texts(res@).to_set().contains(k) <==> self.node_set().contains(k) by {
                if texts(res@).contains(k) {
                    let i = self.nodes.keys().index_of(k);
                    assert(self.nodes@.contains_key(self.nodes.keys()[i]));
                }
            }
            assert(texts(res@).to_set() =~= self.node_set());
        }
        res
    }

    /// The names that the edges from a node lead to, one for each edge.
    pub fn neighbors(&self, node: &ModuleName) -> (res: Vec<ModuleName>)
        ensures
            forall|k: Seq<char>| #[trigger]
                texts(res@).to_multiset().count(k) == self.edge_count(node@, k),
            forall|k: Seq<char>| #[trigger] texts(res@).contains(k) <==> self.links(node@, k),
            self.sound(),
    {
        self.find_edges(node, true)
    }

    /// The names that the edges to a node come from, one for each edge.
    pub fn reverse_neighbors(&self, node: &ModuleName) -> (res: Vec<ModuleName>)
        ensures
            forall|k: Seq<char>| #[trigger]
                texts(res@).to_multiset().count(k) == self.edge_count(k, node@),
            forall|k: Seq<char>| #[trigger] texts(res@).contains(k) <==> self.links(k, node@),
            self.sound(),
    {
        self.find_edges(node, false)
    }

    fn find_edges(&self, node: &ModuleName, outgoing: bool) -> (res: Vec<ModuleName>)
        ensures
            forall|k: Seq<char>| #[trigger]
                texts(res@).to_multiset().count(k) == (if outgoing {
                    self.edge_count(node@, k)
                } else {
                    self.edge_count(k, node@)
                }),
            forall|k: Seq<char>| #[trigger]
                texts(res@).contains(k) <==> (if outgoing {
                    self.links(node@, k)
                } else {
                    self.links(k, node@)
                }),
            self.sound(),
    {
        broadcast use vstd::seq_lib::group_to_multiset_ensures;

        proof {
            use_type_invariant(self);
            self.lemma_sound();
        }
        let mut res: Vec<ModuleName> = Vec::new();
        let ix: usize = match self.nodes.get(node) {
            Some(ix) => *ix,
            None => {
                return res;
            },
        };
        let found: Vec<usize> = digraph_neighbors(&self.graph, ix, outgoing);
        let ghost names = weights(&self.graph);
        proof {
            assert forall|i: int| 0 <= i < found@.len() implies #[trigger] found@[i] < names.len() by {
                assert(found@.contains(found@[i]));
                assert(found@.to_multiset().count(found@[i]) > 0);
            }
        }
        for i in 0..found.len()
            invariant
                self.coherent(),
                self.sound(),
                names == weights(&self.graph),
                forall|j: int| 0 <= j < found@.len() ==> #[trigger] found@[j] < names.len(),
                forall|j: usize|
                    j < names.len() ==> texts(res@).to_multiset().count(#[trigger] names[j as int])
                        == found@.take(i as int).to_multiset().count(j),
                forall|k: Seq<char>|
                    !self.nodes@.contains_key(k) ==> #[trigger] texts(res@).to_multiset().count(k) == 0,
        {
            let ghost before = texts(res@);
            if let Some(w) = digraph_node_weight(&self.graph, found[i]) {
                res.push(ModuleName::from_string(w.clone()));
            }
            proof {
                crate::name_set::lemma_take_more(found@, i as int);
                let text = names[found@[i as int] as int];
                assert(texts(res@) =~= before.push(text));
                before.to_multiset_ensures();
                found@.take(i as int).to_multiset_ensures();
                assert(before.push(text).to_multiset() == before.to_multiset().insert(text));
                assert(found@.take(i as int).push(found@[i as int]).to_multiset()
                    == found@.take(i as int).to_multiset().insert(found@[i as int]));
                assert(self.nodes@.contains_key(text));
                assert forall|j: usize| j < names.len() implies texts(res@).to_multiset().count(
                    #[trigger] names[j as int],
                ) == found@.take(i + 1).to_multiset().count(j) by {
                    assert(names[j as int] == text ==> j == found@[i as int]);
                }
            }
        }
        proof {
            assert(found@.take(found@.len() as int) =~= found@);
            assert forall|k: Seq<char>| #[trigger]
                texts(res@).to_multiset().count(k) == (if outgoing {
                    self.edge_count(node@, k)
                } else {
                    self.edge_count(k, node@)
                }) by {
                if self.nodes@.contains_key(k) {
                    let j = self.nodes@[k];
                    assert(names[j as int] == k);
                }
            }
            assert forall|k: Seq<char>| #[trigger]
                texts(res@).contains(k) <==> (if outgoing {
                    self.links(node@, k)
                } else {
                    self.links(k, node@)
                }) by {
                assert(texts(res@).contains(k) <==> texts(res@).to_multiset().count(k) > 0);
            }
        }
        res
    }

    /// Takes a node out of the graph, with its edges.
    pub fn remove_node(&mut self, name: &ModuleName)
        ensures
            final(self).node_set() == old(self).node_set().remove(name@),
            forall|a: Seq<char>, b: Seq<char>| #[trigger]
                final(self).edge_count(a, b) == (if a == name@ || b == name@ {
                    0
                } else {
                    old(self).edge_count(a, b)
                }),
            final(self).sound(),
    {
        proof {
            use_type_invariant(&*self);
            self.lemma_sound();
        }
        let found: Option<usize> = match self.nodes.get(name) {
            Some(ix) => Some(*ix),
            None => None,
        };
        match found {
            None => {
                proof {
                    assert(self.node_set() =~= old(self).node_set().remove(name@));
                }
            },
            Some(ix) => {
                let mut whole = Graph::new();
                std::mem::swap(self, &mut whole);
                let Graph { mut graph, mut nodes } = whole;
                let _ = nodes.remove(name);
                digraph_remove_node(&mut graph, ix);
                if let Some(moved) = digraph_node_weight(&graph, ix) {
                    let _ = nodes.insert(ModuleName::from_string(moved.clone()), ix);
                }
                proof {
                    let names0 = weights(&old(self).graph);
                    let nodes0 = old(self).nodes@;
                    let names1 = weights(&graph);
                    let count = names0.len() as int;
                    assert forall|i: int| 0 <= i < names1.len() implies nodes@.contains_key(
                        #[trigger] names1[i],
                    ) && nodes@[names1[i]] == i by {
                        let b = index_before(i, ix as int, count);
                        assert(names1[i] == names0[b]);
                        assert(nodes0.contains_key(names0[b]) && nodes0[names0[b]] == b);
                    }
                    assert forall|k: Seq<char>| #[trigger] nodes@.contains_key(k) implies nodes@[k]
                        < names1.len() && names1[nodes@[k] as int] == k by {
                        if ix < names1.len() && k == names1[ix as int] {
                        } else {
                            assert(nodes0.contains_key(k) && k != name@);
                            let i = nodes0[k] as int;
                            assert(names0[i] == k);
                            assert(i != ix);
                            if i == count - 1 {
                                assert(names1[ix as int] == names0[count - 1]);
                            }
                            assert(names1[i] == names0[i]);
                        }
                    }
                    assert forall|i: int, j: int| #[trigger] arcs(&graph).count((i, j)) > 0 implies 0 <= i
                        < names1.len() && 0 <= j < names1.len() by {}
                    assert(in_step(nodes@, names1, arcs(&graph)));
                }
                *self = Graph { graph, nodes };
                proof {
                    use_type_invariant(&*self);
                    self.lemma_sound();
                    let names0 = weights(&old(self).graph);
                    let names1 = weights(&self.graph);
                    let nodes0 = old(self).nodes@;
                    let count = names0.len() as int;
                    assert forall|k: Seq<char>| self.nodes@.contains_key(k) <==> nodes0.contains_key(k) && k
                        != name@ by {
                        if self.nodes@.contains_key(k) {
                            let i = self.nodes@[k] as int;
                            let b = index_before(i, ix as int, count);
                            assert(names1[i] == names0[b]);
                            assert(nodes0.contains_key(names0[b]));
                            assert(b != ix);
                        }
                    }
                    assert(self.node_set() =~= old(self).node_set().remove(name@));
                    assert forall|a: Seq<char>, b: Seq<char>| #[trigger]
                        self.edge_count(a, b) == (if a == name@ || b == name@ {
                            0
                        } else {
                            old(self).edge_count(a, b)
                        }) by {
                        if self.nodes@.contains_key(a) && self.nodes@.contains_key(b) {
                            let i = self.nodes@[a] as int;
                            let j = self.nodes@[b] as int;
                            let i0 = index_before(i, ix as int, count);
                            let j0 = index_before(j, ix as int, count);
                            assert(names1[i] == names0[i0] && names1[j] == names0[j0]);
                            assert(nodes0[names0[i0]] == i0);
                            assert(nodes0[names0[j0]] == j0);
                            assert(arcs(&self.graph).count((i, j)) == arcs(&old(self).graph).count(
                                (i0, j0),
                            ));
                        }
                    }
                }
            },
        }
    }

    /// Whether a node is in the graph.
    pub fn contains(&self, node: &ModuleName) -> (res: bool)
        ensures
            res == self.node_set().contains(node@),
    {
        self.nodes.contains_key(node)
    }

    /// Whether an edge goes from one node to another.
    pub fn has_edge(&self, from: &ModuleName, to: &ModuleName) -> (res: bool)
        ensures
            res == self.links(from@, to@),
    {
        proof {
            use_type_invariant(self);
        }
        match (self.nodes.get(from), self.nodes.get(to)) {
            (Some(p), Some(q)) => digraph_contains_edge(&self.graph, *p, *q),
            _ => false,
        }
    }
}

/// A walk on indices is a walk on the names at those indices.
proof fn lemma_walk_names(g: &Graph, walk: Seq<int>) -> (named: Seq<Seq<char>>)
    requires
        g.coherent(),
        is_walk(arc_relation(&g.graph), walk),
        0 <= walk.first() < g.names().len(),
        0 <= walk.last() < g.names().len(),
    ensures
        is_walk(g.relation(), named),
        named.first() == g.names()[walk.first()],
        named.last() == g.names()[walk.last()],
{
    let names = g.names();
    let named = Seq::new(walk.len(), |i: int| names[walk[i]]);
    assert forall|i: int| 0 <= i < walk.len() - 1 implies g.relation()(#[trigger] named[i], named[i + 1]) by {
        assert(arc_relation(&g.graph)(walk[i], walk[i + 1]));
        assert(arcs(&g.graph).count((walk[i], walk[i + 1])) > 0);
        assert(g.nodes@[names[walk[i]]] == walk[i]);
        assert(g.nodes@[names[walk[i + 1]]] == walk[i + 1]);
    }
    named
}

/// A walk on names is a walk on their indices.
proof fn lemma_walk_indices(g: &Graph, named: Seq<Seq<char>>) -> (walk: Seq<int>)
    requires
        g.coherent(),
        is_walk(g.relation(), named),
        g.node_set().contains(named.first()),
        g.node_set().contains(named.last()),
    ensures
        is_walk(arc_relation(&g.graph), walk),
        walk.first() == g.nodes@[named.first()],
        walk.last() == g.nodes@[named.last()],
{
    let walk = Seq::new(named.len(), |i: int| g.nodes@[named[i]] as int);
    assert forall|i: int| 0 <= i < walk.len() - 1 implies arc_relation(&g.graph)(
        #[trigger] walk[i],
        walk[i + 1],
    ) by {
        assert(g.relation()(named[i], named[i + 1]));
    }
    walk
}

/// Two indices are strongly connected where their names are.
proof fn lemma_connected(g: &Graph, i: int, j: int)
    requires
        g.coherent(),
        0 <= i < g.names().len(),
        0 <= j < g.names().len(),
    ensures
        strongly_connected(arc_relation(&g.graph), i, j) <==> strongly_connected(
            g.relation(),
            g.names()[i],
            g.names()[j],
        ),
{
    lemma_reach(g, i, j);
    lemma_reach(g, j, i);
}

proof fn lemma_reach(g: &Graph, i: int, j: int)
    requires
        g.coherent(),
        0 <= i < g.names().len(),
        0 <= j < g.names().len(),
    ensures
        reaches(arc_relation(&g.graph), i, j) <==> reaches(g.relation(), g.names()[i], g.names()[j]),
{
    let names = g.names();
    assert(g.nodes@.contains_key(names[i]) && g.nodes@[names[i]] == i);
    assert(g.nodes@.contains_key(names[j]) && g.nodes@[names[j]] == j);
    if reaches(arc_relation(&g.graph), i, j) {
        let walk = choose|walk: Seq<int>| #[trigger]
            is_walk(arc_relation(&g.graph), walk) && walk.first() == i && walk.last() == j;
        let named = lemma_walk_names(g, walk);
    }
    if reaches(g.relation(), names[i], names[j]) {
        let named = choose|named: Seq<Seq<char>>| #[trigger]
            is_walk(g.relation(), named) && named.first() == names[i] && named.last() == names[j];
        let walk = lemma_walk_indices(g, named);
    }
}

/// The cycles of a graph: components of more than one node, in which every two nodes reach each
/// other, and which leave out no such node.
pub open spec fn are_cycles(g: &Graph, cycles: Seq<Cycle>) -> bool {
    &&& forall|c: int| 0 <= c < cycles.len() ==> #[trigger] cycles[c]@.len() > 1
    &&& forall|c: int, k: int|
        0 <= c < cycles.len() && 0 <= k < cycles[c]@.len() ==> #[trigger] cycles[c]@[k] < g.names().len()
    &&& forall|c: int, k: int, d: int, l: int|
        0 <= c < cycles.len() && 0 <= k < cycles[c]@.len() && 0 <= d < cycles.len() && 0 <= l
            < cycles[d]@.len() && #[trigger] cycles[c]@[k] == #[trigger] cycles[d]@[l] ==> c == d && k == l
    &&& forall|c: int, k: int, d: int, l: int|
        0 <= c < cycles.len() && 0 <= k < cycles[c]@.len() && 0 <= d < cycles.len() && 0 <= l
            < cycles[d]@.len() ==> (c == d <==> strongly_connected(
            g.relation(),
            g.names()[#[trigger] cycles[c]@[k] as int],
            g.names()[#[trigger] cycles[d]@[l] as int],
        ))
    &&& forall|i: int, j: int|
        0 <= i < g.names().len() && 0 <= j < g.names().len() && i != j && #[trigger] strongly_connected(
            g.relation(),
            g.names()[i],
            g.names()[j],
        ) ==> listed(cycles, i)
}

/// An index stands in one of the cycles.
pub open spec fn listed(cycles: Seq<Cycle>, i: int) -> bool {
    exists|c: int, k: int| 0 <= c < cycles.len() && 0 <= k < cycles[c]@.len() && #[trigger] cycles[c]@[k] == i
}

impl Graph {
    /// The strongly connected components of more than one node. A node that has an edge to itself
    /// alone is in none of them.
    pub fn find_cycles(&self) -> (res: Vec<Cycle>)
        ensures
            are_cycles(self, res@),
    {
        proof {
            use_type_invariant(self);
        }
        let components: Vec<Vec<usize>> = digraph_components(&self.graph);
        let mut res: Vec<Cycle> = Vec::new();
        let ghost mut origin: Seq<int> = Seq::empty();
        for c in 0..components.len()
            invariant
                origin.len() == res@.len(),
                forall|d: int|
                    0 <= d < res@.len() ==> 0 <= #[trigger] origin[d] < c && res@[d]@ == components@[origin[d]]@
                        && res@[d]@.len() > 1,
                forall|d: int, e: int|
                    0 <= d < res@.len() && 0 <= e < res@.len() && d != e ==> origin[d] != origin[e],
                forall|d: int|
                    0 <= d < c && #[trigger] components@[d]@.len() > 1 ==> origin.contains(d),
        {
            if components[c].len() > 1 {
                let ghost before = origin;
                let mut cycle: Cycle = Vec::new();
                let size: usize = components[c].len();
                for k in 0..size
                    invariant
                        c < components.len(),
                        size == components@[c as int]@.len(),
                        cycle@ == components@[c as int]@.take(k as int),
                {
                    cycle.push(components[c][k]);
                    proof {
                        crate::name_set::lemma_take_more(components@[c as int]@, k as int);
                    }
                }
                proof {
                    assert(cycle@ =~= components@[c as int]@);
                    origin = origin.push(c as int);
                    assert forall|d: int| 0 <= d < c + 1 && #[trigger] components@[d]@.len() > 1 implies origin.contains(
                        d,
                    ) by {
                        if d < c {
                            let e = before.index_of(d);
                            assert(origin[e] == d);
                        } else {
                            assert(origin[before.len() as int] == d);
                        }
                    }
                }
                res.push(cycle);
            }
        }
        proof {
            let names = self.names();
            assert forall|c: int| 0 <= c < res@.len() implies #[trigger] res@[c]@.len() > 1 by {
                assert(0 <= origin[c]);
            }
            assert forall|c: int, k: int| 0 <= c < res@.len() && 0 <= k < res@[c]@.len() implies #[trigger] res@[c]@[k]
                < names.len() by {
                assert(res@[c]@[k] == components@[origin[c]]@[k]);
            }
            assert forall|c: int, k: int, d: int, l: int|
                0 <= c < res@.len() && 0 <= k < res@[c]@.len() && 0 <= d < res@.len() && 0 <= l
                    < res@[d]@.len() && #[trigger] res@[c]@[k] == #[trigger] res@[d]@[l] implies c == d && k
                == l by {
                assert(components@[origin[c]]@[k] == components@[origin[d]]@[l]);
            }
            assert forall|c: int, k: int, d: int, l: int|
                0 <= c < res@.len() && 0 <= k < res@[c]@.len() && 0 <= d < res@.len() && 0 <= l
                    < res@[d]@.len() implies (c == d <==> strongly_connected(
                self.relation(),
                names[#[trigger] res@[c]@[k] as int],
                names[#[trigger] res@[d]@[l] as int],
            )) by {
                let i = components@[origin[c]]@[k];
                let j = components@[origin[d]]@[l];
                lemma_connected(self, i as int, j as int);
            }
            assert forall|i: int, j: int|
                0 <= i < names.len() && 0 <= j < names.len() && i != j && #[trigger] strongly_connected(
                    self.relation(),
                    names[i],
                    names[j],
                ) implies listed(res@, i) by {
                lemma_connected(self, i, j);
                assert(weights(&self.graph)[i] == names[i] && weights(&self.graph)[j] == names[j]);
                let (c, k) = choose|c: int, k: int|
                    0 <= c < components@.len() && 0 <= k < components@[c]@.len() && #[trigger] components@[c]@[k]
                        == i;
                let (d, l) = choose|d: int, l: int|
                    0 <= d < components@.len() && 0 <= l < components@[d]@.len() && #[trigger] components@[d]@[l]
                        == j;
                assert(components@[c]@[k] == i && components@[d]@[l] == j);
                assert(c == d);
                assert(k != l);
                assert(components@[c]@.len() > 1);
                let e = origin.index_of(c);
                assert(res@[e]@[k] == i);
            }
        }
        res
    }

    /// The names of the nodes of a cycle.
    pub fn cycle_names(&self, cycle: &Cycle) -> (res: Vec<ModuleName>)
        requires
            forall|k: int| 0 <= k < cycle@.len() ==> #[trigger] cycle@[k] < self.names().len(),
        ensures
            texts(res@) == Seq::new(cycle@.len(), |k: int| self.names()[cycle@[k] as int]),
    {
        let mut res: Vec<ModuleName> = Vec::new();
        for k in 0..cycle.len()
            invariant
                forall|k: int| 0 <= k < cycle@.len() ==> #[trigger] cycle@[k] < self.names().len(),
                texts(res@) == Seq::new(k as nat, |k: int| self.names()[cycle@[k] as int]),
        {
            let ghost before = texts(res@);
            if let Some(w) = digraph_node_weight(&self.graph, cycle[k]) {
                res.push(ModuleName::from_string(w.clone()));
            }
            proof {
                assert(texts(res@) =~= before.push(self.names()[cycle@[k as int] as int]));
                assert(texts(res@) =~= Seq::new((k + 1) as nat, |k: int| self.names()[cycle@[k] as int]));
            }
        }
        proof {
            assert(texts(res@) =~= Seq::new(cycle@.len(), |k: int| self.names()[cycle@[k] as int]));
        }
        res
    }
}

/// Every node that lies on a cycle with another node is found to lie on one.
pub proof fn nodes_on_cycles_are_found(g: &Graph, cycles: Seq<Cycle>, walk: Seq<Seq<char>>, i: int, j: int, at: int)
    requires
        are_cycles(g, cycles),
        0 <= i < g.names().len(),
        0 <= j < g.names().len(),
        i != j,
        is_walk(g.relation(), walk),
        walk.first() == g.names()[i],
        walk.last() == g.names()[i],
        0 <= at < walk.len(),
        walk[at] == g.names()[j],
    ensures
        listed(cycles, i),
{
    let there = walk.take(at + 1);
    let back = walk.skip(at);
    assert(is_walk(g.relation(), there)) by {
        assert forall|k: int| 0 <= k < there.len() - 1 implies (g.relation())(#[trigger] there[k], there[k + 1]) by {
            assert(there[k] == walk[k] && there[k + 1] == walk[k + 1]);
        }
    }
    assert(is_walk(g.relation(), back)) by {
        assert forall|k: int| 0 <= k < back.len() - 1 implies (g.relation())(#[trigger] back[k], back[k + 1]) by {
            assert(back[k] == walk[at + k] && back[k + 1] == walk[at + k + 1]);
        }
    }
    assert(there.first() == g.names()[i] && there.last() == g.names()[j]);
    assert(back.first() == g.names()[j] && back.last() == g.names()[i]);
    assert(reaches(g.relation(), g.names()[i], g.names()[j]));
    assert(reaches(g.relation(), g.names()[j], g.names()[i]));
    assert(strongly_connected(g.relation(), g.names()[i], g.names()[j]));
}

} // verus!
