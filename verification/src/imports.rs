//! Which modules import which.

use crate::graph::Graph;
use crate::module_name::{dots_from_last, texts, ModuleName};
use crate::name_map::NameMap;
use crate::name_set::NameSet;
use crate::name_sets::{add_name, set_at, with_names, NameSets};
use vstd::prelude::*;

verus! {

/// The graph of modules and the modules that they import. An import of something that is not in
/// the graph is kept beside it.
pub struct ImportGraph {
    pub graph: Graph,
    /// The imports of each module that are not in the graph.
    pub missing: NameSets,
    /// The names that each module imports from a module of the graph and that may be submodules
    /// which are not in the graph.
    pub ambiguous: NameSets,
}

impl ImportGraph {
    /// The imports of each module that are not in the graph.
    pub open spec fn missing(&self) -> Map<Seq<char>, Set<Seq<char>>> {
        self.missing.deep_view()
    }

    /// The names that each module imports and that may be submodules outside of the graph.
    pub open spec fn ambiguous(&self) -> Map<Seq<char>, Set<Seq<char>>> {
        self.ambiguous.deep_view()
    }

    pub fn new() -> (res: ImportGraph)
        ensures
            res.graph.node_set() == Set::<Seq<char>>::empty(),
            forall|a: Seq<char>, b: Seq<char>| res.graph.edge_count(a, b) == 0,
            (res.missing() == Map::<Seq<char>, Set<Seq<char>>>::empty()),
            (res.ambiguous() == Map::<Seq<char>, Set<Seq<char>>>::empty()),
    {
        let res = ImportGraph {
            graph: Graph::new(),
            missing: NameMap::new(),
            ambiguous: NameMap::new(),
        };
        proof {
            assert(res.missing() =~= Map::<Seq<char>, Set<Seq<char>>>::empty());
            assert(res.ambiguous() =~= Map::<Seq<char>, Set<Seq<char>>>::empty());
        }
        res
    }

    /// The modules in the graph.
    pub fn modules(&self) -> (res: Vec<ModuleName>)
        ensures
            texts(res@).to_set() == self.graph.node_set(),
            texts(res@).no_duplicates(),
    {
        self.graph.node_names()
    }

    /// The modules that a module imports, once for each import.
    pub fn get_imports(&self, name: &ModuleName) -> (res: Vec<ModuleName>)
        ensures
            forall|k: Seq<char>| #[trigger]
                texts(res@).to_multiset().count(k) == self.graph.edge_count(name@, k),
            forall|k: Seq<char>| #[trigger] texts(res@).contains(k) <==> self.graph.links(name@, k),
            self.graph.sound(),
    {
        self.graph.neighbors(name)
    }

    /// The modules that import a module, once for each import.
    pub fn get_importers(&self, name: &ModuleName) -> (res: Vec<ModuleName>)
        ensures
            forall|k: Seq<char>| #[trigger]
                texts(res@).to_multiset().count(k) == self.graph.edge_count(k, name@),
            forall|k: Seq<char>| #[trigger] texts(res@).contains(k) <==> self.graph.links(k, name@),
            self.graph.sound(),
    {
        self.graph.reverse_neighbors(name)
    }

    /// Whether a module is in the graph.
    pub fn contains(&self, name: &ModuleName) -> (res: bool)
        ensures
            res == self.graph.node_set().contains(name@),
    {
        self.graph.contains(name)
    }

    /// The imports of a module that are not in the graph.
    pub fn get_missing_imports(&self, name: &ModuleName) -> (res: Option<&NameSet>)
        ensures
            match res {
                Some(set) => self.missing().contains_key(name@) && self.missing()[name@] == set@,
                None => !self.missing().contains_key(name@),
            },
    {
        self.missing.get(name)
    }

    /// The names that a module imports and that may be submodules outside of the graph.
    pub fn get_ambiguous_imports(&self, name: &ModuleName) -> (res: Option<&NameSet>)
        ensures
            match res {
                Some(set) => self.ambiguous().contains_key(name@) && self.ambiguous()[name@] == set@,
                None => !self.ambiguous().contains_key(name@),
            },
    {
        self.ambiguous.get(name)
    }

    /// Adds an import of something that is not in the graph.
    pub fn add_missing(&mut self, from: &ModuleName, to: ModuleName)
        ensures
            final(self).graph == old(self).graph,
            final(self).missing() == with_names(old(self).missing(), from@, set![to@]),
            final(self).ambiguous() == old(self).ambiguous(),
    {
        add_name(&mut self.missing, from, to);
    }

    /// Whether a module imports something that is not in the graph.
    pub fn has_missing_import(&self, from: &ModuleName, module: &ModuleName) -> (res: bool)
        ensures
            res == set_at(self.missing(), from@).contains(module@),
    {
        match self.missing.get(from) {
            Some(set) => set.contains(module),
            None => false,
        }
    }
}

/// The position of the dot behind the longest known parent of a name, or -1. Parents are looked
/// at from the k-th last dot on.
pub open spec fn known_dot(name: Seq<char>, known: Set<Seq<char>>, dots: Seq<int>, k: int) -> int
    decreases dots.len() - k,
{
    if k < 0 || k >= dots.len() {
        -1
    } else if known.contains(name.take(dots[k])) {
        dots[k]
    } else {
        known_dot(name, known, dots, k + 1)
    }
}

/// The position of the dot behind the longest known parent of a name, or -1.
pub open spec fn parent_dot(name: Seq<char>, known: Set<Seq<char>>) -> int {
    known_dot(name, known, dots_from_last(name), 0)
}

/// The known module that a name lies in: itself, or the longest of its parents that is known.
pub open spec fn known_module(name: Seq<char>, known: Set<Seq<char>>) -> Option<Seq<char>> {
    if known.contains(name) {
        Some(name)
    } else if parent_dot(name, known) >= 0 {
        Some(name.take(parent_dot(name, known)))
    } else {
        None
    }
}

/// Finds the longest known parent of a name, and what follows it in the name.
pub fn split_at_known(name: &ModuleName, known: &NameSet) -> (res: Option<(ModuleName, String)>)
    ensures
        match res {
            Some(p) => 0 <= parent_dot(name@, known@) < name@.len() && p.0@ == name@.take(
                parent_dot(name@, known@),
            ) && p.1@ == name@.skip(parent_dot(name@, known@) + 1) && known@.contains(p.0@),
            None => parent_dot(name@, known@) < 0,
        },
{
    let splits = name.parent_splits();
    proof {
        crate::module_name::lemma_dots(name@);
    }
    for k in 0..splits.len()
        invariant
            splits@.len() == dots_from_last(name@).len(),
            forall|j: int|
                0 <= j < splits@.len() ==> 0 <= #[trigger] dots_from_last(name@)[j] < name@.len(),
            forall|j: int|
                0 <= j < splits@.len() ==> (#[trigger] splits@[j]).0@ == name@.take(
                    dots_from_last(name@)[j],
                ) && splits@[j].1@ == name@.skip(dots_from_last(name@)[j] + 1),
            parent_dot(name@, known@) == known_dot(
                name@,
                known@,
                dots_from_last(name@),
                k as int,
            ),
    {
        if known.contains(&splits[k].0) {
            return Some((splits[k].0.clone(), splits[k].1.clone()));
        }
    }
    None
}

/// Finds the longest parent of a name that a map has an entry for.
pub fn parent_in_map<V>(name: &ModuleName, map: &NameMap<V>) -> (res: Option<ModuleName>)
    ensures
        match res {
            Some(p) => 0 <= parent_dot(name@, map@.dom()) < name@.len() && p@ == name@.take(
                parent_dot(name@, map@.dom()),
            ) && map@.contains_key(p@),
            None => parent_dot(name@, map@.dom()) < 0,
        },
{
    let splits = name.parent_splits();
    proof {
        crate::module_name::lemma_dots(name@);
    }
    for k in 0..splits.len()
        invariant
            splits@.len() == dots_from_last(name@).len(),
            forall|j: int|
                0 <= j < splits@.len() ==> 0 <= #[trigger] dots_from_last(name@)[j] < name@.len(),
            forall|j: int|
                0 <= j < splits@.len() ==> (#[trigger] splits@[j]).0@ == name@.take(
                    dots_from_last(name@)[j],
                ),
            parent_dot(name@, map@.dom()) == known_dot(
                name@,
                map@.dom(),
                dots_from_last(name@),
                k as int,
            ),
    {
        if map.contains_key(&splits[k].0) {
            return Some(splits[k].0.clone());
        }
    }
    None
}

/// Finds the known module that a name lies in.
pub fn resolve_to_known_module(name: &ModuleName, known: &NameSet) -> (res: Option<ModuleName>)
    ensures
        match res {
            Some(m) => known_module(name@, known@) == Some(m@),
            None => known_module(name@, known@) is None,
        },
{
    if known.contains(name) {
        return Some(name.clone());
    }
    match split_at_known(name, known) {
        Some((parent, _)) => Some(parent),
        None => None,
    }
}

} // verus!
