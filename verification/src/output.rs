//! The result of an analysis.

use crate::cache::{CacheView, LibraryCache};
use crate::cache_graph::{import_count, last_named, missing_of, side_effects_of, SideEffectMap};
use crate::cache_merge::SafetyMap;
use crate::cached_module::restored;
use crate::classify::{classified, classify_modules, ClassifiedModules, ErrorCounts};
use crate::exports::Exports;
use crate::graph::{are_cycles, Cycle};
use crate::imports::ImportGraph;
use crate::lazy_eligible::{build_lazy_eligible, cycle_views, is_lazy_eligible};
use crate::module_name::{texts, ModuleName};
use crate::module_safety::SafetyResult;
use crate::name_map::NameMap;
use crate::name_set::NameSet;
use crate::name_sets::{add_names, set_at, NameSets};
use crate::re_export_map::{
    build_re_export_map, build_re_export_map_from_cache, cached_failing, groups, last_sources,
    re_exports_failing,
};
use vstd::prelude::*;

verus! {

/// What is written out.
pub struct LifeGuardOutput {
    /// The modules that have to import their own imports eagerly.
    pub load_imports_eagerly: NameSet,
    /// What stands in the way of importing each passing module lazily.
    pub lazy_eligible: NameSets,
    /// Whether to sort what is written out.
    pub sorted_output: bool,
    /// The modules that are used without being imported, where a verbose result is asked for.
    pub implicit_imports: Option<NameMap<Vec<ModuleName>>>,
    /// The import cycles, where a verbose result is asked for.
    pub import_cycles: Option<Vec<Vec<ModuleName>>>,
}

impl LifeGuardOutput {
    pub fn new(sorted_output: bool) -> (res: LifeGuardOutput)
        ensures
            res.load_imports_eagerly@ == Set::<Seq<char>>::empty(),
            (res.lazy_eligible.deep_view() == Map::<Seq<char>, Set<Seq<char>>>::empty()),
            res.sorted_output == sorted_output,
            res.implicit_imports is None,
            res.import_cycles is None,
    {
        let res = LifeGuardOutput {
            load_imports_eagerly: NameSet::new(),
            lazy_eligible: NameMap::new(),
            sorted_output,
            implicit_imports: None,
            import_cycles: None,
        };
        proof {
            assert(res.lazy_eligible.deep_view() =~= Map::<Seq<char>, Set<Seq<char>>>::empty());
        }
        res
    }
}

/// The result of an analysis.
pub struct LifeGuardAnalysis {
    pub output: LifeGuardOutput,
    pub failing_modules: NameSet,
    pub passing_modules: NameSet,
    pub aggregated_errors: ErrorCounts,
}

/// How a result is to be made.
#[derive(Debug, PartialEq, Eq, Structural, Copy, Clone)]
pub struct OutputOptions {
    /// Also keep implicit imports and import cycles.
    pub verbose: bool,
    pub sorted_output: bool,
}

/// The names of the members of a cycle that are among some modules.
pub open spec fn source_members(graph: &ImportGraph, cycle: Cycle, modules: Set<Seq<char>>) -> Seq<Seq<char>> {
    Seq::new(cycle@.len(), |k: int| graph.graph.names()[cycle@[k] as int]).filter(
        |n: Seq<char>| modules.contains(n),
    )
}

/// The cycles that have members among some modules, with those members.
pub open spec fn source_cycles(graph: &ImportGraph, cycles: Seq<Cycle>, modules: Set<Seq<char>>) -> Seq<
    Seq<Seq<char>>,
>
    decreases cycles.len(),
{
    if cycles.len() == 0 {
        Seq::empty()
    } else {
        let earlier = source_cycles(graph, cycles.drop_last(), modules);
        let members = source_members(graph, cycles.last(), modules);
        if members.len() > 0 {
            earlier.push(members)
        } else {
            earlier
        }
    }
}

/// Some cycles of a graph are those of its modules that are among some modules.
pub open spec fn are_source_cycles(
    graph: &ImportGraph,
    modules: Set<Seq<char>>,
    cycles: Seq<Seq<Seq<char>>>,
) -> bool {
    exists|found: Seq<Cycle>| #[trigger]
        are_cycles(&graph.graph, found) && cycles == source_cycles(graph, found, modules)
}

/// The import cycles, as the names of their members that are among some modules.
pub fn collect_cycles(import_graph: &ImportGraph, source_modules: &NameSet) -> (res: Vec<Vec<ModuleName>>)
    ensures
        are_source_cycles(import_graph, source_modules@, cycle_views(res@)),
{
    let cycles = import_graph.graph.find_cycles();
    let ghost modules = source_modules@;
    let ghost inside = |n: Seq<char>| modules.contains(n);
    let mut res: Vec<Vec<ModuleName>> = Vec::new();
    proof {
        assert(cycles@.take(0) =~= Seq::empty());
        assert(cycle_views(res@) =~= Seq::empty());
    }
    for c in 0..cycles.len()
        invariant
            are_cycles(&import_graph.graph, cycles@),
            modules == source_modules@,
            inside == (|n: Seq<char>| modules.contains(n)),
            cycle_views(res@) == source_cycles(import_graph, cycles@.take(c as int), modules),
    {
        let ghost before = cycle_views(res@);
        let cycle = &cycles[c];
        proof {
            assert(cycles@.take(c + 1).drop_last() =~= cycles@.take(c as int));
            assert(cycles@.take(c + 1).last() == *cycle);
            assert forall|k: int| 0 <= k < cycle@.len() implies #[trigger] cycle@[k]
                < import_graph.graph.names().len() by {
                assert(cycles@[c as int]@[k] < import_graph.graph.names().len());
            }
        }
        let names = import_graph.graph.cycle_names(cycle);
        let ghost all = texts(names@);
        let mut members: Vec<ModuleName> = Vec::new();
        proof {
            reveal(Seq::filter);
            assert(all.take(0).filter(inside) =~= Seq::empty());
            assert(texts(members@) =~= Seq::empty());
        }
        for k in 0..names.len()
            invariant
                all == texts(names@),
                modules == source_modules@,
                inside == (|n: Seq<char>| modules.contains(n)),
                texts(members@) == all.take(k as int).filter(inside),
        {
            let ghost so_far = texts(members@);
            proof {
                reveal(Seq::filter);
                assert(all.take(k + 1).drop_last() =~= all.take(k as int));
                assert(all.take(k + 1).last() == names@[k as int]@);
            }
            if source_modules.contains(&names[k]) {
                members.push(names[k].clone());
                proof {
                    assert(texts(members@) =~= so_far.push(names@[k as int]@));
                }
            }
        }
        proof {
            assert(all.take(all.len() as int) =~= all);
            assert(texts(members@) == source_members(import_graph, *cycle, modules));
        }
        if members.len() > 0 {
            res.push(members);
            proof {
                assert(cycle_views(res@) =~= before.push(texts(members@)));
            }
        }
    }
    proof {
        assert(cycles@.take(cycles@.len() as int) =~= cycles@);
        assert(are_cycles(&import_graph.graph, cycles@) && cycle_views(res@) == source_cycles(
            import_graph,
            cycles@,
            modules,
        ));
    }
    res
}

/// A result holds what the modules' safety and the import graph say, given what modules re-export
/// from failing ones.
pub open spec fn is_analysis(
    analysis: &LifeGuardAnalysis,
    results: Map<Seq<char>, SafetyResult>,
    graph: &ImportGraph,
    options: OutputOptions,
    re_exports: Map<Seq<char>, Set<Seq<char>>>,
) -> bool {
    exists|c: ClassifiedModules, cycles: Seq<Seq<Seq<char>>>| #[trigger]
        comes_from(analysis, results, graph, options, re_exports, c, cycles)
}

/// A result holds what the modules' safety and the import graph say, where the modules are
/// classified as given and the cycles are those given.
pub open spec fn comes_from(
    analysis: &LifeGuardAnalysis,
    results: Map<Seq<char>, SafetyResult>,
    graph: &ImportGraph,
    options: OutputOptions,
    re_exports: Map<Seq<char>, Set<Seq<char>>>,
    c: ClassifiedModules,
    cycles: Seq<Seq<Seq<char>>>,
) -> bool {
    &&& classified(&c, results)
    &&& are_source_cycles(graph, results.dom(), cycles)
    &&& is_lazy_eligible(analysis.output.lazy_eligible.deep_view(), graph, &c, re_exports, cycles)
    &&& analysis.failing_modules == c.failing_modules
    &&& analysis.passing_modules == c.passing_modules
    &&& analysis.aggregated_errors == c.aggregated_errors
    &&& analysis.output.load_imports_eagerly == c.load_imports_eagerly
    &&& analysis.output.sorted_output == options.sorted_output
    &&& match analysis.output.implicit_imports {
        Some(implicit) => options.verbose && implicit == c.implicit_imports,
        None => !options.verbose,
    }
    &&& match analysis.output.import_cycles {
        Some(kept) => options.verbose && cycle_views(kept@) == cycles,
        None => !options.verbose,
    }
}

/// What a map from modules to what stands in their way becomes with the imports that nothing
/// uses: such an import of a module that something stands in the way of is in the way of the
/// importing module. What is in the way of modules before the step decides, not what the step
/// itself adds.
pub open spec fn with_side_effects(
    lazy: Map<Seq<char>, Set<Seq<char>>>,
    passing: Set<Seq<char>>,
    side_effects: Map<Seq<char>, Set<Seq<char>>>,
) -> Map<Seq<char>, Set<Seq<char>>> {
    Map::new(
        |m: Seq<char>| lazy.contains_key(m) || (side_effects.contains_key(m) && passing.contains(m)),
        |m: Seq<char>|
            if side_effects.contains_key(m) && passing.contains(m) {
                set_at(lazy, m).union(side_effects[m].intersect(blocked(lazy)))
            } else {
                lazy[m]
            },
    )
}

/// The modules that something stands in the way of.
pub open spec fn blocked(lazy: Map<Seq<char>, Set<Seq<char>>>) -> Set<Seq<char>> {
    Set::new(|m: Seq<char>| lazy.contains_key(m) && !(lazy[m] =~= Set::empty()))
}

/// What came of a module in a cache, and what else a result is made from, as the cache has it.
pub open spec fn read_from(
    cache: CacheView,
    results: Map<Seq<char>, SafetyResult>,
    graph: &ImportGraph,
) -> bool {
    &&& results.dom() == cache.known()
    &&& forall|name: Seq<char>| #[trigger]
        results.contains_key(name) ==> restored(last_named(cache.modules, name).safety, results[name])
    &&& graph.graph.node_set() == cache.known()
    &&& forall|a: Seq<char>, b: Seq<char>| #[trigger]
        graph.graph.edge_count(a, b) == (if cache.known().contains(b) {
            import_count(cache.modules, a, b)
        } else {
            0
        })
    &&& graph.missing() == missing_of(cache.modules)
    &&& graph.ambiguous() == Map::<Seq<char>, Set<Seq<char>>>::empty()
}

/// A result is what a cache says, before the imports that nothing uses are looked at.
pub open spec fn analysis_of_cache(
    analysis: &LifeGuardAnalysis,
    cache: CacheView,
    options: OutputOptions,
) -> bool {
    exists|
        results: Map<Seq<char>, SafetyResult>,
        graph: ImportGraph,
        re_exports: Map<Seq<char>, Set<Seq<char>>>,
    | #[trigger]
        analysis_with(analysis, cache, options, results, &graph, re_exports)
}

/// A result is what a cache says, where it is read as given.
pub open spec fn analysis_with(
    analysis: &LifeGuardAnalysis,
    cache: CacheView,
    options: OutputOptions,
    results: Map<Seq<char>, SafetyResult>,
    graph: &ImportGraph,
    re_exports: Map<Seq<char>, Set<Seq<char>>>,
) -> bool {
    &&& read_from(cache, results, graph)
    &&& groups(
        re_exports,
        |m: Seq<char>, s: Seq<char>|
            cached_failing(
                cache.exports.re_exports,
                last_sources(cache.exports.re_exports),
                analysis.failing_modules@,
                m,
                s,
            ),
    )
    &&& is_analysis(analysis, results, graph, options, re_exports)
}

impl LifeGuardAnalysis {
    /// The result of the analysis of a project.
    pub fn new(
        safety_map: &SafetyMap,
        import_graph: &ImportGraph,
        exports: &Exports,
        options: OutputOptions,
    ) -> (res: LifeGuardAnalysis)
        ensures
            exists|re_exports: Map<Seq<char>, Set<Seq<char>>>|
                groups(
                    re_exports,
                    |m: Seq<char>, s: Seq<char>|
                        re_exports_failing(exports.deep_view().sources(), res.failing_modules@, m, s),
                ) && #[trigger] is_analysis(&res, safety_map@, import_graph, options, re_exports),
    {
        let classified = classify_modules(safety_map);
        let re_export_map = build_re_export_map(exports, &classified.failing_modules);
        let ghost re_exports = re_export_map.deep_view();
        let res = LifeGuardAnalysis::build(safety_map, classified, import_graph, options, &re_export_map);
        proof {
            assert(is_analysis(&res, safety_map@, import_graph, options, re_exports));
        }
        res
    }

    /// The result for several libraries, from what is cached of them. Each library's missing
    /// imports are first looked for in the others.
    pub fn from_cache(cache: &mut LibraryCache, options: OutputOptions) -> (res: LifeGuardAnalysis)
        requires
            forall|i: int|
                0 <= i < old(cache).deep_view().modules.len() ==> (
                #[trigger] old(cache).deep_view().modules[i]).safety.well_formed(),
        ensures
            old(cache).deep_view().resolves_to(final(cache).deep_view()),
            exists|before: LifeGuardAnalysis| #[trigger]
                analysis_of_cache(&before, final(cache).deep_view(), options) && side_effects_added(
                    &before,
                    &res,
                    side_effects_of(final(cache).deep_view().modules),
                ),
    {
        let ghost first = cache.deep_view();
        cache.resolve_cross_library_errors();
        let ghost view = cache.deep_view();
        proof {
            lemma_still_well_formed(first, view);
        }
        let safety_map = cache.to_safety_map();
        let import_graph = cache.to_import_graph();
        let side_effect_imports = cache.to_side_effect_map();
        let classified = classify_modules(&safety_map);
        let re_export_map = build_re_export_map_from_cache(
            &cache.exports.re_exports,
            &classified.failing_modules,
        );
        let mut analysis = LifeGuardAnalysis::build(
            &safety_map,
            classified,
            &import_graph,
            options,
            &re_export_map,
        );
        let ghost before = analysis;
        proof {
            assert(analysis_with(
                &before,
                view,
                options,
                safety_map@,
                &import_graph,
                re_export_map.deep_view(),
            ));
            assert(analysis_of_cache(&before, view, options));
        }
        analysis.propagate_side_effect_imports(&side_effect_imports);
        analysis
    }

    fn build(
        safety_map: &SafetyMap,
        classified_modules: ClassifiedModules,
        import_graph: &ImportGraph,
        options: OutputOptions,
        re_export_map: &NameSets,
    ) -> (res: LifeGuardAnalysis)
        requires
            classified(&classified_modules, safety_map@),
        ensures
            is_analysis(&res, safety_map@, import_graph, options, re_export_map.deep_view()),
            res.failing_modules == classified_modules.failing_modules,
    {
        let source_modules = crate::name_sets::set_of(&safety_map.key_list());
        let all_cycles = collect_cycles(import_graph, &source_modules);
        let ghost cycles = cycle_views(all_cycles@);
        let lazy_eligible = build_lazy_eligible(
            import_graph,
            &classified_modules,
            re_export_map,
            &all_cycles,
        );
        let ghost c = classified_modules;
        let ClassifiedModules {
            failing_modules,
            passing_modules,
            load_imports_eagerly,
            implicit_imports,
            aggregated_errors,
        } = classified_modules;
        let output = if options.verbose {
            LifeGuardOutput {
                load_imports_eagerly,
                lazy_eligible,
                sorted_output: options.sorted_output,
                implicit_imports: Some(implicit_imports),
                import_cycles: Some(all_cycles),
            }
        } else {
            LifeGuardOutput {
                load_imports_eagerly,
                lazy_eligible,
                sorted_output: options.sorted_output,
                implicit_imports: None,
                import_cycles: None,
            }
        };
        let res = LifeGuardAnalysis { output, failing_modules, passing_modules, aggregated_errors };
        proof {
            assert(comes_from(
                &res,
                safety_map@,
                import_graph,
                options,
                re_export_map.deep_view(),
                c,
                cycles,
            ));
        }
        res
    }

    /// Adds, to what stands in the way of each passing module, those of its imports which nothing
    /// uses and which something stands in the way of.
    pub fn propagate_side_effect_imports(&mut self, side_effect_imports: &SideEffectMap)
        ensures
            side_effects_added(old(self), final(self), side_effect_imports.deep_view()),
    {
        let ghost before = self.output.lazy_eligible.deep_view();
        let ghost passing = self.passing_modules@;
        let ghost side = side_effect_imports.deep_view();
        let mut has_failing_deps = NameSet::new();
        let n: usize = self.output.lazy_eligible.len();
        let ghost keys = self.output.lazy_eligible.keys();
        for i in 0..n
            invariant
                n == keys.len(),
                keys == self.output.lazy_eligible.keys(),
                before == self.output.lazy_eligible.deep_view(),
                self.output.lazy_eligible.ordered(),
                *self == *old(self),
                forall|m: Seq<char>| #[trigger]
                    has_failing_deps@.contains(m) <==> keys.take(i as int).contains(m) && blocked(
                        before,
                    ).contains(m),
        {
            proof {
                crate::name_set::lemma_take_more(keys, i as int);
                assert(before.contains_key(keys[i as int]));
            }
            if !self.output.lazy_eligible.value_at(i).is_empty() {
                let _ = has_failing_deps.insert(self.output.lazy_eligible.key_at(i).clone());
            }
            proof {
                assert forall|m: Seq<char>| #[trigger]
                    has_failing_deps@.contains(m) <==> keys.take(i + 1).contains(m) && blocked(
                        before,
                    ).contains(m) by {
                    assert(keys.take(i + 1).to_set().contains(m) <==> keys.take(i as int).to_set().contains(m)
                        || m == keys[i as int]);
                }
            }
        }
        proof {
            assert(keys.take(n as int) =~= keys);
            assert forall|m: Seq<char>| #[trigger] has_failing_deps@.contains(m) <==> blocked(before).contains(
                m,
            ) by {
                if blocked(before).contains(m) {
                    assert(self.output.lazy_eligible@.contains_key(m));
                    assert(keys.contains(m));
                }
            }
            assert(has_failing_deps@ =~= blocked(before));
        }
        let count: usize = side_effect_imports.len();
        let ghost names = side_effect_imports.keys();
        proof {
            assert(self.output.lazy_eligible.deep_view() =~= side_step(before, passing, side, names, 0));
        }
        for i in 0..count
            invariant
                count == names.len(),
                names == side_effect_imports.keys(),
                names.no_duplicates(),
                side == side_effect_imports.deep_view(),
                side_effect_imports.ordered(),
                passing == self.passing_modules@,
                has_failing_deps@ == blocked(before),
                self.output.lazy_eligible.deep_view() == side_step(
                    before,
                    passing,
                    side,
                    names,
                    i as int,
                ),
                self.failing_modules == old(self).failing_modules,
                self.passing_modules == old(self).passing_modules,
                self.aggregated_errors == old(self).aggregated_errors,
                self.output.load_imports_eagerly == old(self).output.load_imports_eagerly,
                self.output.sorted_output == old(self).output.sorted_output,
                self.output.implicit_imports == old(self).output.implicit_imports,
                self.output.import_cycles == old(self).output.import_cycles,
        {
            let name = side_effect_imports.key_at(i);
            let ghost x = names[i as int];
            let ghost now = self.output.lazy_eligible.deep_view();
            proof {
                crate::name_set::lemma_take_more(names, i as int);
                assert(side.contains_key(x));
                assert(!names.take(i as int).contains(x)) by {
                    if names.take(i as int).contains(x) {
                        let j = names.take(i as int).index_of(x);
                        assert(names[j] == x);
                    }
                }
            }
            if self.passing_modules.contains(name) {
                let more = side_effect_imports.value_at(i).intersection(&has_failing_deps);
                add_names(&mut self.output.lazy_eligible, name, &more);
                proof {
                    assert(more@ == side[x].intersect(blocked(before)));
                }
            }
            proof {
                assert forall|m: Seq<char>| names.take(i + 1).contains(m) <==> names.take(
                    i as int,
                ).contains(m) || m == x by {
                    assert(names.take(i + 1).to_set().contains(m) <==> names.take(
                        i as int,
                    ).to_set().contains(m) || m == x);
                }
                assert(set_at(now, x) == set_at(before, x));
                assert(self.output.lazy_eligible.deep_view() =~= side_step(
                    before,
                    passing,
                    side,
                    names,
                    i + 1,
                ));
            }
        }
        proof {
            assert(names.take(count as int) =~= names);
            assert(self.output.lazy_eligible.deep_view() =~= with_side_effects(before, passing, side)) by {
                assert forall|m: Seq<char>| side.contains_key(m) <==> names.contains(m) by {
                    if side.contains_key(m) {
                        assert(side_effect_imports@.contains_key(m));
                    }
                    if names.contains(m) {
                        let j = names.index_of(m);
                        assert(side_effect_imports@.contains_key(names[j]));
                    }
                }
            }
        }
    }
}

/// One result comes from another by adding the imports that nothing uses.
pub open spec fn side_effects_added(
    before: &LifeGuardAnalysis,
    after: &LifeGuardAnalysis,
    side_effects: Map<Seq<char>, Set<Seq<char>>>,
) -> bool {
    &&& after.output.lazy_eligible.deep_view() == with_side_effects(
        before.output.lazy_eligible.deep_view(),
        before.passing_modules@,
        side_effects,
    )
    &&& after.failing_modules == before.failing_modules
    &&& after.passing_modules == before.passing_modules
    &&& after.aggregated_errors == before.aggregated_errors
    &&& after.output.load_imports_eagerly == before.output.load_imports_eagerly
    &&& after.output.sorted_output == before.output.sorted_output
    &&& after.output.implicit_imports == before.output.implicit_imports
    &&& after.output.import_cycles == before.output.import_cycles
}

/// What the first few modules with imports that nothing uses add.
spec fn side_step(
    lazy: Map<Seq<char>, Set<Seq<char>>>,
    passing: Set<Seq<char>>,
    side_effects: Map<Seq<char>, Set<Seq<char>>>,
    names: Seq<Seq<char>>,
    i: int,
) -> Map<Seq<char>, Set<Seq<char>>> {
    Map::new(
        |m: Seq<char>| lazy.contains_key(m) || (names.take(i).contains(m) && passing.contains(m)),
        |m: Seq<char>|
            if names.take(i).contains(m) && passing.contains(m) {
                set_at(lazy, m).union(side_effects[m].intersect(blocked(lazy)))
            } else {
                lazy[m]
            },
    )
}

/// Looking for missing imports in other libraries leaves the reasons to import eagerly alone.
proof fn lemma_still_well_formed(before: CacheView, after: CacheView)
    requires
        before.resolves_to(after),
        forall|i: int| 0 <= i < before.modules.len() ==> (#[trigger] before.modules[i]).safety.well_formed(),
    ensures
        forall|i: int| 0 <= i < after.modules.len() ==> (#[trigger] after.modules[i]).safety.well_formed(),
{
    let (table, functions) = choose|
        table: crate::verdicts::Verdicts,
        functions: Set<(Seq<char>, Seq<char>)>,
    | #[trigger]
        before.resolves_with(after, table, functions);
    assert forall|i: int| 0 <= i < after.modules.len() implies (
    #[trigger] after.modules[i]).safety.well_formed() by {
        assert(before.modules[i].safety.well_formed());
    }
}

} // verus!
