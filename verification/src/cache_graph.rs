//! What goes into a cache, and what comes out of it again.

use crate::cache::{module_names_of, CacheView, LibraryCache};
use crate::cache_merge::SafetyMap;
use crate::cached_exports::{lists_sources, CachedExports};
use crate::cached_module::{kept_of, restored, strict_text_order, CachedModule, CachedModuleView, CachedSafety};
use crate::config::AnalysisConfig;
use crate::exports::Exports;
use crate::import_collector::{is_import_graph, Sources};
use crate::imports::ImportGraph;
use crate::module_name::{sort_names, text_order_is_total, texts, ModuleName};
use crate::module_safety::{
    copy_candidates, copy_functions, CandidateView, FunctionInfoView, FunctionSafetyInfo,
    MutationCandidate, SafetyResult,
};
use crate::name_map::{lemma_no_duplicates_by_multiset, sorted_listing, NameMap};
use crate::name_set::NameSet;
use crate::name_sets::{set_at, with_names, NameSets};
use crate::sys_info::SysInfo;
use crate::version::PythonVersion;
use vstd::prelude::*;

verus! {

/// The imports of each module that nothing uses.
pub type SideEffectMap = NameSets;

/// The imports of a module in a graph.
pub open spec fn imports_in(graph: &ImportGraph, name: Seq<char>) -> Set<Seq<char>> {
    Set::new(|k: Seq<char>| graph.graph.links(name, k))
}

/// The imports of a module: those in the graph, those that were not found, and those that may be
/// submodules outside of it.
pub struct GraphEdgeSets {
    pub imports: NameSet,
    pub missing_imports: NameSet,
    pub ambiguous_imports: NameSet,
}

/// Collects the imports of a module.
pub fn graph_edge_sets(graph: &ImportGraph, name: &ModuleName) -> (res: GraphEdgeSets)
    ensures
        res.imports@ == imports_in(graph, name@),
        res.missing_imports@ == set_at(graph.missing(), name@),
        res.ambiguous_imports@ == set_at(graph.ambiguous(), name@),
{
    let found = graph.get_imports(name);
    let imports = crate::name_sets::set_of(&found);
    proof {
        assert(imports@ =~= imports_in(graph, name@));
    }
    let missing_imports = match graph.get_missing_imports(name) {
        Some(set) => set.clone(),
        None => NameSet::new(),
    };
    let ambiguous_imports = match graph.get_ambiguous_imports(name) {
        Some(set) => set.clone(),
        None => NameSet::new(),
    };
    GraphEdgeSets { imports, missing_imports, ambiguous_imports }
}

/// What is kept of a module from an analysis.
pub open spec fn kept_from(
    module: CachedModuleView,
    result: SafetyResult,
    graph: &ImportGraph,
    side_effects: Map<Seq<char>, Set<Seq<char>>>,
) -> bool {
    &&& kept_of(module.safety, result)
    &&& module.imports == imports_in(graph, module.name)
    &&& module.missing_imports == set_at(graph.missing(), module.name)
    &&& module.ambiguous_imports == set_at(graph.ambiguous(), module.name)
    &&& module.side_effect_imports == set_at(side_effects, module.name)
    &&& match result {
        SafetyResult::Analyzed(safety) => {
            &&& module.function_safety == safety.deep_view().function_safety
            &&& module.mutation_candidates == safety.deep_view().mutation_candidates
        },
        SafetyResult::AnalysisError(_) => {
            &&& module.function_safety == Map::<Seq<char>, FunctionInfoView>::empty()
            &&& module.mutation_candidates == Seq::<CandidateView>::empty()
        },
    }
}

/// What is kept of a module from an analysis.
fn keep_module(
    name: &ModuleName,
    result: &SafetyResult,
    import_graph: &ImportGraph,
    side_effect_imports: &SideEffectMap,
) -> (res: CachedModule)
    ensures
        res.deep_view().name == name@,
        kept_from(res.deep_view(), *result, import_graph, side_effect_imports.deep_view()),
{
    let edges = graph_edge_sets(import_graph, name);
    let side_effects = match crate::name_sets::names_at(side_effect_imports, name) {
        Some(set) => set.clone(),
        None => NameSet::new(),
    };
    let (function_safety, mutation_candidates) = match result {
        SafetyResult::Analyzed(safety) => (
            copy_functions(&safety.function_safety),
            copy_candidates(&safety.mutation_candidates),
        ),
        SafetyResult::AnalysisError(_) => {
            let functions: NameMap<FunctionSafetyInfo> = NameMap::new();
            let candidates: Vec<MutationCandidate> = Vec::new();
            proof {
                assert(functions.deep_view() =~= Map::empty());
                assert(candidates.deep_view() =~= Seq::empty());
            }
            (functions, candidates)
        },
    };
    CachedModule {
        name: name.clone(),
        safety: CachedSafety::from_safety_result(result),
        imports: edges.imports,
        missing_imports: edges.missing_imports,
        ambiguous_imports: edges.ambiguous_imports,
        side_effect_imports: side_effects,
        function_safety,
        mutation_candidates,
    }
}

/// The imports of modules that were not found, by the modules' names.
pub open spec fn missing_of(modules: Seq<CachedModuleView>) -> Map<Seq<char>, Set<Seq<char>>>
    decreases modules.len(),
{
    if modules.len() == 0 {
        Map::empty()
    } else if modules.last().missing_imports =~= Set::empty() {
        missing_of(modules.drop_last())
    } else {
        with_names(
            missing_of(modules.drop_last()),
            modules.last().name,
            modules.last().missing_imports,
        )
    }
}

/// The last module of a name, where there is one.
pub open spec fn last_named(modules: Seq<CachedModuleView>, name: Seq<char>) -> CachedModuleView
    decreases modules.len(),
{
    if modules.len() == 0 {
        CachedModuleView::blank(name)
    } else if modules.last().name == name {
        modules.last()
    } else {
        last_named(modules.drop_last(), name)
    }
}

/// How many of the modules of one name import another.
pub open spec fn import_count(modules: Seq<CachedModuleView>, from: Seq<char>, to: Seq<char>) -> nat
    decreases modules.len(),
{
    if modules.len() == 0 {
        0
    } else {
        import_count(modules.drop_last(), from, to) + (if modules.last().name == from
            && modules.last().imports.contains(to) {
            1nat
        } else {
            0nat
        })
    }
}

/// The imports of each module that nothing uses. Of modules with the same name, the last one that
/// has any counts.
pub open spec fn side_effects_of(modules: Seq<CachedModuleView>) -> Map<Seq<char>, Set<Seq<char>>>
    decreases modules.len(),
{
    if modules.len() == 0 {
        Map::empty()
    } else {
        let earlier = side_effects_of(modules.drop_last());
        let last = modules.last();
        if last.side_effect_imports =~= Set::empty() {
            earlier
        } else {
            earlier.insert(last.name, last.side_effect_imports)
        }
    }
}

/// A cache with the modules of a graph added that were not in it, with nothing but their imports.
pub open spec fn injected(
    before: CacheView,
    after: CacheView,
    graph: &ImportGraph,
    names: Set<Seq<char>>,
) -> bool {
    let added = after.modules.skip(before.modules.len() as int);
    &&& names == graph.graph.node_set().difference(before.known())
    &&& after.exports == before.exports
    &&& after.modules == before.modules + added
    &&& module_names_of(added).no_duplicates()
    &&& module_names_of(added).to_set() == names
    &&& forall|i: int|
        0 <= i < added.len() ==> #[trigger] added[i] == (CachedModuleView {
            imports: imports_in(graph, added[i].name),
            missing_imports: set_at(graph.missing(), added[i].name),
            ambiguous_imports: set_at(graph.ambiguous(), added[i].name),
            ..CachedModuleView::blank(added[i].name)
        })
}

impl LibraryCache {
    /// Adds the stubs that come with the analysis, with nothing but their imports, where no library
    /// has a module of the same name. They are read for a version of Python. The result holds the names
    /// of those that were added.
    pub fn inject_bundled_stub_graph(&mut self, stubs: &Sources, python_version: PythonVersion) -> (res: NameSet)
        ensures
            exists|graph: ImportGraph| #[trigger]
                is_import_graph(&graph, stubs, (SysInfo { version: python_version })) && injected(
                    old(self).deep_view(),
                    final(self).deep_view(),
                    &graph,
                    res@,
                ),
    {
        let graph = ImportGraph::make(stubs, &AnalysisConfig::with_python_version(python_version, None));
        self.inject_graph(&graph)
    }

    /// What is kept of an analysis.
    pub fn build(
        safety_map: &SafetyMap,
        import_graph: &ImportGraph,
        exports: &Exports,
        side_effect_imports: &SideEffectMap,
    ) -> (res: LibraryCache)
        ensures
            keeps(
                res.deep_view().modules,
                safety_map@,
                import_graph,
                side_effect_imports.deep_view(),
            ),
            sorted_listing(res.deep_view().exports.definitions, exports.deep_view().exports),
            lists_sources(res.deep_view().exports.re_exports, exports.deep_view().sources()),
            sorted_listing(res.deep_view().exports.all, exports.deep_view().all),
            sorted_listing(res.deep_view().exports.return_types, exports.deep_view().return_types),
    {
        let names = sort_names(&safety_map.key_list());
        let ghost sorted = texts(names@);
        let mut modules: Vec<CachedModule> = Vec::new();
        proof {
            let keys = safety_map.keys();
            keys.to_multiset_ensures();
            sorted.to_multiset_ensures();
            assert forall|k: Seq<char>| sorted.to_set().contains(k) <==> safety_map@.dom().contains(k) by {
                assert(sorted.contains(k) <==> sorted.to_multiset().count(k) > 0);
                assert(keys.contains(k) <==> keys.to_multiset().count(k) > 0);
                if keys.contains(k) {
                    let i = keys.index_of(k);
                    assert(safety_map@.contains_key(keys[i]));
                }
            }
            assert(sorted.to_set() =~= safety_map@.dom());
            lemma_no_duplicates_by_multiset(keys, sorted);
            assert forall|i: int, j: int| 0 <= i < j < sorted.len() implies crate::module_name::text_less(
                #[trigger] sorted[i],
                #[trigger] sorted[j],
            ) by {
                text_order_is_total(sorted[i], sorted[j]);
            }
            assert(module_names_of(modules.deep_view()) =~= sorted.take(0));
        }
        for i in 0..names.len()
            invariant
                sorted == texts(names@),
                sorted.to_set() == safety_map@.dom(),
                module_names_of(modules.deep_view()) == sorted.take(i as int),
                forall|j: int|
                    0 <= j < i ==> kept_from(
                        #[trigger] modules.deep_view()[j],
                        safety_map@[modules.deep_view()[j].name],
                        import_graph,
                        side_effect_imports.deep_view(),
                    ),
        {
            let ghost before = modules.deep_view();
            let ghost module_count = module_names_of(before).len();
            proof {
                assert(sorted[i as int] == names@[i as int]@);
                assert(sorted.contains(sorted[i as int]));
                assert(safety_map@.dom().contains(sorted[i as int]));
                crate::name_set::lemma_take_more(sorted, i as int);
            }
            if let Some(result) = safety_map.get(&names[i]) {
                let module = keep_module(&names[i], result, import_graph, side_effect_imports);
                modules.push(module);
            }
            proof {
                let after = modules.deep_view();
                assert(after =~= before.push(after[i as int]));
                assert(module_names_of(after) =~= module_names_of(before).push(sorted[i as int]));
                assert forall|j: int| 0 <= j < i + 1 implies kept_from(
                    #[trigger] after[j],
                    safety_map@[after[j].name],
                    import_graph,
                    side_effect_imports.deep_view(),
                ) by {
                    if j < i {
                        assert(after[j] == before[j]);
                    }
                }
            }
        }
        proof {
            assert(sorted.take(sorted.len() as int) =~= sorted);
            assert(module_names_of(modules.deep_view()).len() == modules@.len());
        }
        LibraryCache { modules, exports: CachedExports::from_exports(exports) }
    }

    /// Whether the modules can be given back: every error that makes one load its imports eagerly is
    /// of a kind that does.
    pub fn is_well_formed(&self) -> (res: bool)
        ensures
            res == (forall|i: int|
                0 <= i < self.deep_view().modules.len() ==> (
                #[trigger] self.deep_view().modules[i]).safety.well_formed()),
    {
        let ghost views = self.deep_view().modules;
        for i in 0..self.modules.len()
            invariant
                views == self.deep_view().modules,
                forall|j: int| 0 <= j < i ==> (#[trigger] views[j]).safety.well_formed(),
        {
            proof {
                assert(views[i as int] == self.modules@[i as int].deep_view());
            }
            if !self.modules[i].safety.is_well_formed() {
                return false;
            }
        }
        true
    }

    /// What became of each module. Of modules with the same name, the last one counts.
    pub fn to_safety_map(&self) -> (res: SafetyMap)
        requires
            forall|i: int|
                0 <= i < self.deep_view().modules.len() ==> (
                #[trigger] self.deep_view().modules[i]).safety.well_formed(),
        ensures
            res@.dom() == self.deep_view().known(),
            forall|name: Seq<char>| #[trigger]
                res@.contains_key(name) ==> restored(
                    last_named(self.deep_view().modules, name).safety,
                    res@[name],
                ),
    {
        let ghost views = self.deep_view().modules;
        let ghost names = module_names_of(views);
        let mut res: SafetyMap = NameMap::new();
        proof {
            assert(res@.dom() =~= names.take(0).to_set());
        }
        for i in 0..self.modules.len()
            invariant
                views == self.deep_view().modules,
                names == module_names_of(views),
                forall|i: int|
                    0 <= i < views.len() ==> (#[trigger] views[i]).safety.well_formed(),
                res@.dom() == names.take(i as int).to_set(),
                forall|name: Seq<char>| #[trigger]
                    res@.contains_key(name) ==> restored(
                        last_named(views.take(i as int), name).safety,
                        res@[name],
                    ),
        {
            let module = &self.modules[i];
            let ghost before = res@;
            proof {
                crate::name_set::lemma_take_more(names, i as int);
                assert(views[i as int] == module.deep_view());
                assert(names[i as int] == module.name@);
            }
            let result = module.safety.to_safety_result();
            let _ = res.insert(module.name.clone(), result);
            proof {
                assert(res@.dom() =~= names.take(i + 1).to_set());
                assert(views.take(i + 1).drop_last() =~= views.take(i as int));
                assert(views.take(i + 1).last() == views[i as int]);
                assert forall|name: Seq<char>| #[trigger] res@.contains_key(name) implies restored(
                    last_named(views.take(i + 1), name).safety,
                    res@[name],
                ) by {
                    if name != module.name@ {
                        assert(before.contains_key(name));
                    }
                }
            }
        }
        proof {
            assert(names.take(names.len() as int) =~= names);
            assert(views.take(views.len() as int) =~= views);
        }
        res
    }

    /// The import graph of the modules. An import of something that is not in the cache makes no
    /// edge.
    pub fn to_import_graph(&self) -> (res: ImportGraph)
        ensures
            res.graph.node_set() == self.deep_view().known(),
            forall|a: Seq<char>, b: Seq<char>| #[trigger]
                res.graph.edge_count(a, b) == (if self.deep_view().known().contains(b) {
                    import_count(self.deep_view().modules, a, b)
                } else {
                    0
                }),
            res.missing() == missing_of(self.deep_view().modules),
            (res.ambiguous() == Map::<Seq<char>, Set<Seq<char>>>::empty()),
    {
        let ghost views = self.deep_view().modules;
        let ghost names = module_names_of(views);
        let mut graph = ImportGraph::new();
        proof {
            assert(graph.graph.node_set() =~= names.take(0).to_set());
        }
        for i in 0..self.modules.len()
            invariant
                views == self.deep_view().modules,
                names == module_names_of(views),
                graph.graph.node_set() == names.take(i as int).to_set(),
                forall|a: Seq<char>, b: Seq<char>| graph.graph.edge_count(a, b) == 0,
                (graph.missing() == Map::<Seq<char>, Set<Seq<char>>>::empty()),
                (graph.ambiguous() == Map::<Seq<char>, Set<Seq<char>>>::empty()),
        {
            let _ = graph.graph.add_node(&self.modules[i].name);
            proof {
                crate::name_set::lemma_take_more(names, i as int);
            }
        }
        let ghost known = names.to_set();
        proof {
            assert(names.take(names.len() as int) =~= names);
            assert(views.take(0) =~= Seq::empty());
        }
        for i in 0..self.modules.len()
            invariant
                views == self.deep_view().modules,
                names == module_names_of(views),
                known == names.to_set(),
                graph.graph.node_set() == known,
                forall|a: Seq<char>, b: Seq<char>| #[trigger]
                    graph.graph.edge_count(a, b) == (if known.contains(b) {
                        import_count(views.take(i as int), a, b)
                    } else {
                        0
                    }),
                graph.missing() == missing_of(views.take(i as int)),
                (graph.ambiguous() == Map::<Seq<char>, Set<Seq<char>>>::empty()),
        {
            let module = &self.modules[i];
            let ghost here = views[i as int];
            let ghost before = graph.graph;
            proof {
                assert(here == module.deep_view());
                assert(names[i as int] == here.name);
                assert(names.contains(names[i as int]));
                assert(views.take(i + 1).drop_last() =~= views.take(i as int));
                assert(views.take(i + 1).last() == here);
            }
            let n: usize = module.imports.len();
            let ghost items = module.imports.items();
            for k in 0..n
                invariant
                    n == items.len(),
                    items == module.imports.items(),
                    items.no_duplicates(),
                    here.name == module.name@,
                    known.contains(here.name),
                    graph.graph.node_set() == known,
                    forall|a: Seq<char>, b: Seq<char>| #[trigger]
                        graph.graph.edge_count(a, b) == before.edge_count(a, b) + (if a == here.name
                            && known.contains(b) && items.take(k as int).contains(b) {
                            1nat
                        } else {
                            0nat
                        }),
                    graph.missing() == missing_of(views.take(i as int)),
                    (graph.ambiguous() == Map::<Seq<char>, Set<Seq<char>>>::empty()),
            {
                let ghost so_far = graph.graph;
                let _ = graph.graph.add_edge(&module.name, &module.imports.at(k));
                proof {
                    crate::name_set::lemma_take_more(items, k as int);
                    let new = items[k as int];
                    assert(!items.take(k as int).contains(new)) by {
                        if items.take(k as int).contains(new) {
                            let j = items.take(k as int).index_of(new);
                            assert(items[j] == new);
                        }
                    }
                    assert forall|a: Seq<char>, b: Seq<char>| #[trigger]
                        graph.graph.edge_count(a, b) == before.edge_count(a, b) + (if a == here.name
                            && known.contains(b) && items.take(k + 1).contains(b) {
                            1nat
                        } else {
                            0nat
                        }) by {
                        assert(so_far.edge_count(a, b) == before.edge_count(a, b) + (if a == here.name
                            && known.contains(b) && items.take(k as int).contains(b) {
                            1nat
                        } else {
                            0nat
                        }));
                        assert(items.take(k + 1).to_set().contains(b) <==> items.take(
                            k as int,
                        ).to_set().contains(b) || b == new);
                    }
                }
            }
            proof {
                assert(items.take(n as int) =~= items);
                assert forall|a: Seq<char>, b: Seq<char>| #[trigger]
                    graph.graph.edge_count(a, b) == (if known.contains(b) {
                        import_count(views.take(i + 1), a, b)
                    } else {
                        0
                    }) by {
                    assert(before.edge_count(a, b) == (if known.contains(b) {
                        import_count(views.take(i as int), a, b)
                    } else {
                        0
                    }));
                    assert(items.contains(b) <==> here.imports.contains(b));
                }
            }
            let m: usize = module.missing_imports.len();
            let ghost lost = module.missing_imports.items();
            let ghost graph_now = graph.graph;
            let ghost missing_now = graph.missing();
            for k in 0..m
                invariant
                    m == lost.len(),
                    lost == module.missing_imports.items(),
                    here.name == module.name@,
                    graph.graph == graph_now,
                    graph.missing() == (if k == 0 {
                        missing_now
                    } else {
                        with_names(missing_now, here.name, lost.take(k as int).to_set())
                    }),
                    (graph.ambiguous() == Map::<Seq<char>, Set<Seq<char>>>::empty()),
            {
                let ghost so_far = graph.missing();
                graph.add_missing(&module.name, module.missing_imports.at(k));
                proof {
                    crate::name_set::lemma_take_more(lost, k as int);
                    assert(set_at(so_far, here.name).union(set![lost[k as int]]) =~= set_at(
                        missing_now,
                        here.name,
                    ).union(lost.take(k + 1).to_set()));
                    assert(graph.missing() =~= with_names(
                        missing_now,
                        here.name,
                        lost.take(k + 1).to_set(),
                    ));
                }
            }
            proof {
                assert(lost.take(m as int) =~= lost);
                assert(m == 0 <==> here.missing_imports =~= Set::empty()) by {
                    if m > 0 {
                        assert(here.missing_imports.contains(lost[0]));
                    }
                }
            }
        }
        proof {
            assert(views.take(views.len() as int) =~= views);
        }
        graph
    }

    /// The imports of each module that nothing uses, where there are any.
    pub fn to_side_effect_map(&self) -> (res: SideEffectMap)
        ensures
            res.deep_view() == side_effects_of(self.deep_view().modules),
    {
        let ghost views = self.deep_view().modules;
        let mut res: SideEffectMap = NameMap::new();
        proof {
            assert(views.take(0) =~= Seq::empty());
            assert(res.deep_view() =~= Map::empty());
        }
        for i in 0..self.modules.len()
            invariant
                views == self.deep_view().modules,
                res.deep_view() == side_effects_of(views.take(i as int)),
        {
            let module = &self.modules[i];
            let ghost before = res.deep_view();
            proof {
                assert(views.take(i + 1).drop_last() =~= views.take(i as int));
                assert(views.take(i + 1).last() == module.deep_view());
            }
            if !module.side_effect_imports.is_empty() {
                let _ = res.insert(module.name.clone(), module.side_effect_imports.clone());
                proof {
                    assert(res.deep_view() =~= before.insert(
                        module.name@,
                        module.side_effect_imports@,
                    ));
                }
            }
        }
        proof {
            assert(views.take(views.len() as int) =~= views);
        }
        res
    }

    /// Adds the modules of a graph that are not in the cache, with nothing but their imports. The
    /// result holds their names.
    fn inject_graph(&mut self, graph: &ImportGraph) -> (res: NameSet)
        ensures
            injected(old(self).deep_view(), final(self).deep_view(), graph, res@),
    {
        let ghost old_modules = self.deep_view().modules;
        let ghost known = self.deep_view().known();
        let existing = self.module_name_set();
        let names = graph.modules();
        let ghost all = texts(names@);
        let mut added = NameSet::new();
        let ghost mut new: Seq<CachedModuleView> = Seq::empty();
        proof {
            assert(self.deep_view().modules =~= old_modules + new);
            assert(module_names_of(new) =~= Seq::empty());
            assert(added@ =~= all.take(0).to_set().difference(known));
            assert(module_names_of(new).to_set() =~= added@);
        }
        for i in 0..names.len()
            invariant
                all == texts(names@),
                all.no_duplicates(),
                existing@ == known,
                self.exports == old(self).exports,
                self.deep_view().modules == old_modules + new,
                added@ == all.take(i as int).to_set().difference(known),
                module_names_of(new).no_duplicates(),
                module_names_of(new).to_set() == added@,
                forall|k: int|
                    0 <= k < new.len() ==> #[trigger] new[k] == (CachedModuleView {
                        imports: imports_in(graph, new[k].name),
                        missing_imports: set_at(graph.missing(), new[k].name),
                        ambiguous_imports: set_at(graph.ambiguous(), new[k].name),
                        ..CachedModuleView::blank(new[k].name)
                    }),
        {
            proof {
                crate::name_set::lemma_take_more(all, i as int);
                assert(all[i as int] == names@[i as int]@);
            }
            if existing.contains(&names[i]) {
                proof {
                    assert(added@ =~= all.take(i + 1).to_set().difference(known));
                }
            } else {
                let ghost before = self.deep_view().modules;
                let edges = graph_edge_sets(graph, &names[i]);
                let mut module = CachedModule::empty(names[i].clone());
                module.imports = edges.imports;
                module.missing_imports = edges.missing_imports;
                module.ambiguous_imports = edges.ambiguous_imports;
                let ghost view = module.deep_view();
                self.modules.push(module);
                let _ = added.insert(names[i].clone());
                proof {
                    let name = all[i as int];
                    let names_before = module_names_of(new);
                    assert(!all.take(i as int).contains(name)) by {
                        if all.take(i as int).contains(name) {
                            let j = all.take(i as int).index_of(name);
                            assert(all[j] == name);
                        }
                    }
                    assert(!names_before.contains(name)) by {
                        if names_before.contains(name) {
                            assert(names_before.to_set().contains(name));
                        }
                    }
                    crate::attribute::lemma_push_new(names_before, name);
                    assert(self.deep_view().modules =~= before.push(view));
                    new = new.push(view);
                    assert(self.deep_view().modules =~= old_modules + new);
                    assert(module_names_of(new) =~= names_before.push(name));
                    assert(added@ =~= all.take(i + 1).to_set().difference(known));
                    assert(module_names_of(new).to_set() =~= added@);
                }
            }
        }
        proof {
            assert(all.take(all.len() as int) =~= all);
            assert(self.deep_view().modules.skip(old_modules.len() as int) =~= new);
        }
        added
    }
}

/// A cache holds the modules of an analysis, in the order of their names.
pub open spec fn keeps(
    modules: Seq<CachedModuleView>,
    results: Map<Seq<char>, SafetyResult>,
    graph: &ImportGraph,
    side_effects: Map<Seq<char>, Set<Seq<char>>>,
) -> bool {
    &&& strict_text_order(module_names_of(modules))
    &&& module_names_of(modules).to_set() == results.dom()
    &&& forall|i: int|
        0 <= i < modules.len() ==> kept_from(
            #[trigger] modules[i],
            results[modules[i].name],
            graph,
            side_effects,
        )
}

/// Nothing is known of the imports of a name that no module has.
proof fn lemma_none_named(modules: Seq<CachedModuleView>, name: Seq<char>, to: Seq<char>)
    requires
        forall|i: int| 0 <= i < modules.len() ==> (#[trigger] modules[i]).name != name,
    ensures
        import_count(modules, name, to) == 0,
        set_at(missing_of(modules), name) == Set::<Seq<char>>::empty(),
        set_at(side_effects_of(modules), name) == Set::<Seq<char>>::empty(),
    decreases modules.len(),
{
    if modules.len() > 0 {
        lemma_none_named(modules.drop_last(), name, to);
    }
}

/// What is known of the imports of a module that no other has the name of.
proof fn lemma_one_named(modules: Seq<CachedModuleView>, i: int, to: Seq<char>)
    requires
        0 <= i < modules.len(),
        forall|a: int, b: int|
            0 <= a < b < modules.len() ==> (#[trigger] modules[a]).name != (#[trigger] modules[b]).name,
    ensures
        last_named(modules, modules[i].name) == modules[i],
        import_count(modules, modules[i].name, to) == (if modules[i].imports.contains(to) {
            1nat
        } else {
            0nat
        }),
        set_at(missing_of(modules), modules[i].name) == modules[i].missing_imports,
        set_at(side_effects_of(modules), modules[i].name) == modules[i].side_effect_imports,
    decreases modules.len(),
{
    let rest = modules.drop_last();
    if i == modules.len() - 1 {
        lemma_none_named(rest, modules[i].name, to);
        assert(Set::<Seq<char>>::empty().union(modules[i].missing_imports) =~= modules[i].missing_imports);
    } else {
        assert(modules[i].name != modules.last().name);
        lemma_one_named(rest, i, to);
        assert(rest[i] == modules[i]);
    }
}

/// What a cache keeps of an analysis it gives back: the result for each module, with the imports
/// between the modules, those that were not found, and those that nothing uses.
pub proof fn cache_gives_back(
    modules: Seq<CachedModuleView>,
    results: Map<Seq<char>, SafetyResult>,
    graph: &ImportGraph,
    side_effects: Map<Seq<char>, Set<Seq<char>>>,
    name: Seq<char>,
    to: Seq<char>,
)
    requires
        keeps(modules, results, graph, side_effects),
    ensures
        results.contains_key(name) ==> {
            &&& kept_of(last_named(modules, name).safety, results[name])
            &&& import_count(modules, name, to) == (if graph.graph.links(name, to) {
                1nat
            } else {
                0nat
            })
            &&& set_at(missing_of(modules), name) == set_at(graph.missing(), name)
            &&& set_at(side_effects_of(modules), name) == set_at(side_effects, name)
        },
        !results.contains_key(name) ==> {
            &&& import_count(modules, name, to) == 0
            &&& set_at(missing_of(modules), name) == Set::<Seq<char>>::empty()
            &&& set_at(side_effects_of(modules), name) == Set::<Seq<char>>::empty()
        },
{
    let names = module_names_of(modules);
    assert forall|a: int, b: int| 0 <= a < b < modules.len() implies (#[trigger] modules[a]).name != (
    #[trigger] modules[b]).name by {
        assert(crate::module_name::text_less(names[a], names[b]));
        text_order_is_total(names[a], names[b]);
    }
    assert(names.to_set().contains(name) <==> names.contains(name));
    if results.contains_key(name) {
        let i = names.index_of(name);
        assert(names[i] == name && modules[i].name == name);
        lemma_one_named(modules, i, to);
        assert(kept_from(modules[i], results[modules[i].name], graph, side_effects));
    } else {
        assert forall|i: int| 0 <= i < modules.len() implies (#[trigger] modules[i]).name != name by {
            assert(names.contains(names[i]));
        }
        lemma_none_named(modules, name, to);
    }
}

} // verus!
