//! The analysis of a whole project.

use crate::analyzer::{analyze, is_analyzed, AnalysisContext, AnalysisMap, AnalyzedModule};
use crate::ast::{AstResult, ParsedModule};
use crate::attribute::{attributes_of, module_part, Attribute, AttrMap};
use crate::cache_graph::SideEffectMap;
use crate::cache_merge::SafetyMap;
use crate::call_check::{complete, CheckState, CheckView};
use crate::candidates::all_candidates;
use crate::implicit_imports::{
    compute_side_effect_imports, get_implicit_imports, implicit_added, is_context, unused_imports,
    ImplicitImportContext,
};
use crate::import_collector::{is_parsed, Sources};
use crate::imports::{known_dot, parent_dot, split_at_known, ImportGraph};
use crate::module_name::{dots_from_last, dotted, ModuleName};
use crate::module_safety::{
    copy_candidates, copy_functions, CandidateView, FunctionInfoView, FunctionSafety, FunctionSafetyInfo,
    ModuleSafety, MutationCandidate,
    ResultView, SafetyResult, SafetyView,
};
use crate::name_map::NameMap;
use crate::name_set::NameSet;
use crate::project_info::{brought_together, ProjectInfo};
use crate::recursion::recursive;
use crate::scope_check::{
    check_load_imports_eagerly, class_verdicts, eager_errors, function_verdicts,
    importing_reads_verdicts, lemma_passes_stand, scopes_pass,
};
use crate::stub_analyzer::{contradictory, contradictory_at, stub_output, ConflictingEffects};
use crate::verdicts::{
    apply_mutation_candidates, promote_fixpoint, promoted, resolve_candidates, scope_errors, settled,
    verdicts, FunctionTable, Resolution, Verdicts,
};
use crate::sys_info::SysInfo;
use vstd::prelude::*;
use vstd::string::*;

verus! {

/// How the dependencies of a project come into its analysis.
#[derive(Debug, PartialEq, Eq, Structural, Copy, Clone)]
pub enum ExecutionMode {
    /// Each library is analyzed by itself, and what is found is kept; what a library needs of
    /// others is settled when the libraries are brought together.
    Incremental,
    /// The whole program is analyzed at once, and nothing is kept.
    WholeProgram,
}

/// The verdicts on functions, by the module and the name in it. The module of a name is the
/// longest of its parents that is one. Names of modules themselves may be left out.
pub open spec fn table_by_module(
    known: Map<Seq<char>, FunctionInfoView>,
    modules: Set<Seq<char>>,
    with_modules: bool,
) -> Verdicts {
    Map::new(
        |a: (Seq<char>, Seq<char>)| splits_to(known.dom(), modules, with_modules, a),
        |a: (Seq<char>, Seq<char>)| known[dotted(a.0, a.1)],
    )
}

/// A name splits into its module and the name in it.
pub open spec fn splits_to(
    names: Set<Seq<char>>,
    modules: Set<Seq<char>>,
    with_modules: bool,
    a: (Seq<char>, Seq<char>),
) -> bool {
    let name = dotted(a.0, a.1);
    names.contains(name) && parent_dot(name, modules) == a.0.len() && (with_modules || !modules.contains(name))
}

proof fn lemma_known_dot(name: Seq<char>, known: Set<Seq<char>>, dots: Seq<int>, k: int)
    requires
        0 <= k,
    ensures
        known_dot(name, known, dots, k) >= 0 ==> dots.contains(known_dot(name, known, dots, k))
            || known_dot(name, known, dots, k) == -1,
    decreases dots.len() - k,
{
    if k < dots.len() && !known.contains(name.take(dots[k])) {
        lemma_known_dot(name, known, dots, k + 1);
    }
}

/// A name is its longest known parent and the rest of it.
pub proof fn lemma_parts(name: Seq<char>, known: Set<Seq<char>>)
    requires
        parent_dot(name, known) >= 0,
    ensures
        0 <= parent_dot(name, known) < name.len(),
        dotted(name.take(parent_dot(name, known)), name.skip(parent_dot(name, known) + 1)) == name,
{
    crate::module_name::lemma_dots(name);
    lemma_known_dot(name, known, dots_from_last(name), 0);
    let d = parent_dot(name, known);
    let k = dots_from_last(name).index_of(d);
    assert(dots_from_last(name)[k] == d);
    assert(name[d] == '.');
    assert(dotted(name.take(d), name.skip(d + 1)) =~= name);
}

proof fn lemma_same_parts(a: (Seq<char>, Seq<char>), b: (Seq<char>, Seq<char>))
    requires
        dotted(a.0, a.1) == dotted(b.0, b.1),
        a.0.len() == b.0.len(),
    ensures
        a == b,
{
    assert(dotted(a.0, a.1).take(a.0.len() as int) =~= a.0);
    assert(dotted(b.0, b.1).take(b.0.len() as int) =~= b.0);
    assert(dotted(a.0, a.1).skip(a.0.len() as int + 1) =~= a.1);
    assert(dotted(b.0, b.1).skip(b.0.len() as int + 1) =~= b.1);
}

/// Arranges verdicts by module.
pub fn by_module(known: &NameMap<FunctionSafetyInfo>, modules: &NameSet, with_modules: bool) -> (res:
    FunctionTable)
    ensures
        verdicts(&res) == table_by_module(known.deep_view(), modules@, with_modules),
{
    let mut res: FunctionTable = AttrMap::new();
    let n: usize = known.len();
    let ghost all = known.deep_view();
    let ghost keys = known.keys();
    proof {
        assert(verdicts(&res) =~= table_by_module(
            all.restrict(keys.take(0).to_set()),
            modules@,
            with_modules,
        ));
    }
    for i in 0..n
        invariant
            n == keys.len(),
            keys == known.keys(),
            known.ordered(),
            all == known.deep_view(),
            verdicts(&res) == table_by_module(
                all.restrict(keys.take(i as int).to_set()),
                modules@,
                with_modules,
            ),
    {
        let fqn = known.key_at(i);
        let info = known.value_at(i);
        let ghost before = verdicts(&res);
        let ghost fewer = all.restrict(keys.take(i as int).to_set());
        let ghost more = all.restrict(keys.take(i + 1).to_set());
        proof {
            crate::name_set::lemma_take_more(keys, i as int);
            assert(all.contains_key(keys[i as int]));
            assert(more =~= fewer.insert(fqn@, all[fqn@]));
        }
        if with_modules || !modules.contains(fqn) {
            if let Some((module, local)) = split_at_known(fqn, modules) {
                let ghost here = (module@, local@);
                proof {
                    lemma_parts(fqn@, modules@);
                }
                res.insert(Attribute { module, attr: local }, info.clone());
                proof {
                    assert(verdicts(&res) =~= before.insert(here, all[fqn@]));
                    assert forall|a: (Seq<char>, Seq<char>)|
                        splits_to(more.dom(), modules@, with_modules, a) <==> splits_to(
                            fewer.dom(),
                            modules@,
                            with_modules,
                            a,
                        ) || a == here by {
                        if dotted(a.0, a.1) == fqn@ && parent_dot(fqn@, modules@) == a.0.len() {
                            lemma_same_parts(a, here);
                        }
                    }
                }
            }
        }
        proof {
            assert(verdicts(&res) =~= table_by_module(more, modules@, with_modules));
        }
    }
    proof {
        assert(keys.take(keys.len() as int) =~= keys);
        assert(keys.to_set() =~= all.dom());
        assert(all.restrict(keys.to_set()) =~= all);
    }
    res
}

/// The verdicts on functions once those in a table are written over them.
pub open spec fn written_back(
    known: Map<Seq<char>, FunctionInfoView>,
    table: Verdicts,
    modules: Set<Seq<char>>,
) -> Map<Seq<char>, FunctionInfoView> {
    Map::new(
        |f: Seq<char>| known.contains_key(f),
        |f: Seq<char>|
            {
                let d = parent_dot(f, modules);
                let a = (f.take(d), f.skip(d + 1));
                if d >= 0 && table.contains_key(a) {
                    FunctionInfoView { verdict: table[a].verdict, ..known[f] }
                } else {
                    known[f]
                }
            },
    )
}

/// Writes the verdicts in a table over those that are known.
fn write_back(known: &mut NameMap<FunctionSafetyInfo>, table: &FunctionTable, modules: &NameSet)
    ensures
        final(known).deep_view() == written_back(old(known).deep_view(), verdicts(table), modules@),
{
    let n: usize = known.len();
    let ghost all = known.deep_view();
    let ghost keys = known.keys();
    let ghost target = written_back(all, verdicts(table), modules@);
    for i in 0..n
        invariant
            n == keys.len(),
            keys == known.keys(),
            keys.no_duplicates(),
            known.ordered(),
            target == written_back(all, verdicts(table), modules@),
            known.deep_view().dom() == all.dom(),
            forall|j: int|
                0 <= j < n ==> known.deep_view()[#[trigger] keys[j]] == (if j < i {
                    target[keys[j]]
                } else {
                    all[keys[j]]
                }),
            forall|j: int| 0 <= j < n ==> all.contains_key(#[trigger] keys[j]),
    {
        let ghost before = known.deep_view();
        let ghost k = keys[i as int];
        let found: Option<FunctionSafety> = match split_at_known(known.key_at(i), modules) {
            Some((module, local)) => match table.get_in(&module, local.as_str()) {
                Some(info) => Some(info.verdict),
                None => None,
            },
            None => None,
        };
        if let Some(verdict) = found {
            let mut info: FunctionSafetyInfo = known.replace_at(i, FunctionSafetyInfo::new(verdict));
            info.verdict = verdict;
            let ghost view = info.deep_view();
            let _ = known.replace_at(i, info);
            proof {
                assert(known.deep_view() =~= before.insert(k, view));
                assert(before[k] == all[k]);
            }
        }
        proof {
            assert(known.deep_view()[k] == target[k]);
            assert(known.deep_view().dom() =~= all.dom());
            assert forall|j: int| 0 <= j < n implies known.deep_view()[#[trigger] keys[j]] == (if j < i + 1 {
                target[keys[j]]
            } else {
                all[keys[j]]
            }) by {
                if j != i {
                    assert(keys[j] != k);
                    assert(before[keys[j]] == known.deep_view()[keys[j]]);
                }
            }
        }
    }
    proof {
        assert forall|f: Seq<char>| all.contains_key(f) implies known.deep_view()[f] == target[f] by {
            assert(known@.contains_key(f));
            assert(keys.contains(f));
            let j = keys.index_of(f);
            assert(keys[j] == f);
        }
        assert(known.deep_view() =~= target);
    }
}

/// What has been settled once the candidates of the first `n` modules are looked at.
pub open spec fn settled_candidates(
    p: &ProjectInfo,
    candidates: Map<Seq<char>, Seq<CandidateView>>,
    table: Verdicts,
    n: int,
) -> Resolution
    decreases n,
{
    if n <= 0 {
        Resolution { table, errors: Seq::empty(), found_safe: false }
    } else {
        let before = settled_candidates(p, candidates, table, n - 1);
        let module = p.analysis_map.keys()[n - 1];
        if candidates.contains_key(module) {
            resolve_candidates(
                Resolution { found_safe: false, ..before },
                p.analysis_map@.dom(),
                module,
                candidates[module],
            )
        } else {
            before
        }
    }
}

/// The verdicts on the functions of a project, by module, once its candidates are settled.
pub open spec fn candidates_settled(
    p: &ProjectInfo,
    graph: &ImportGraph,
    known: Map<Seq<char>, FunctionInfoView>,
) -> Verdicts {
    settled_candidates(
        p,
        all_candidates(p, graph),
        table_by_module(known, p.analysis_map@.dom(), true),
        p.analysis_map.keys().len() as int,
    ).table
}

/// Some functions are the fewest with whose promotion nothing more can be promoted.
pub open spec fn fewest_settled(
    modules: Set<Seq<char>>,
    table: Verdicts,
    functions: Set<(Seq<char>, Seq<char>)>,
) -> bool {
    settled(modules, table, functions) && forall|other: Set<(Seq<char>, Seq<char>)>| #[trigger]
        settled(modules, table, other) ==> functions.subset_of(other)
}

/// Verdicts are as they are once all of a program is known: its candidates are settled, and then
/// the functions that want only for safe callees are promoted.
pub open spec fn resolved_whole(
    p: &ProjectInfo,
    graph: &ImportGraph,
    before: CheckView,
    after: CheckView,
) -> bool {
    let modules = p.analysis_map@.dom();
    let table = candidates_settled(p, graph, before.verdicts);
    after.errors == before.errors && exists|functions: Set<(Seq<char>, Seq<char>)>| #[trigger]
        fewest_settled(modules, table, functions) && after.verdicts == written_back(
            before.verdicts,
            promoted(table, functions),
            modules,
        )
}

impl ProjectInfo {
    /// Settles the calls whose callees are not known, now that all of the program is there.
    pub fn resolve_whole_program(&self, state: &mut CheckState, import_graph: &ImportGraph)
        ensures
            resolved_whole(self, import_graph, old(state).deep_view(), final(state).deep_view()),
    {
        let modules = self.module_names();
        let mut view = by_module(&state.function_safety, &modules, true);
        let candidates = self.collect_mutation_candidates(import_graph);
        let mut errors: Vec<(ModuleName, String)> = Vec::new();
        let n: usize = self.analysis_map.len();
        let ghost all = candidates.deep_view();
        let ghost start = verdicts(&view);
        proof {
            assert(scope_errors(errors@) =~= Seq::empty());
        }
        for i in 0..n
            invariant
                n == self.analysis_map.keys().len(),
                modules@ == self.analysis_map@.dom(),
                all == candidates.deep_view(),
                verdicts(&view) == settled_candidates(self, all, start, i as int).table,
                scope_errors(errors@) == settled_candidates(self, all, start, i as int).errors,
        {
            let module = self.analysis_map.key_at(i);
            if let Some(list) = candidates.get(module) {
                let _ = apply_mutation_candidates(module, list, &modules, &mut view, &mut errors);
            }
        }
        let ghost table = verdicts(&view);
        let (promoted_functions, _) = promote_fixpoint(&modules, &mut view);
        let ghost before = state.deep_view();
        write_back(&mut state.function_safety, &view, &modules);
        proof {
            let functions = attributes_of(promoted_functions@).to_set();
            assert(table == candidates_settled(self, import_graph, before.verdicts));
            assert(fewest_settled(modules@, table, functions)) by {
                assert forall|other: Set<(Seq<char>, Seq<char>)>| #[trigger]
                    settled(modules@, table, other) implies functions.subset_of(other) by {}
            }
            assert(state.deep_view().verdicts == written_back(
                before.verdicts,
                promoted(table, functions),
                modules@,
            ));
        }
    }
}

/// What is known of functions, with the parameters that they mutate.
pub open spec fn with_params(p: &ProjectInfo, known: Map<Seq<char>, FunctionInfoView>) -> Map<
    Seq<char>,
    FunctionInfoView,
> {
    Map::new(
        |f: Seq<char>| known.contains_key(f),
        |f: Seq<char>|
            if p.mutated_params@.contains_key(f) {
                FunctionInfoView { mutated_params: p.mutated_positions(f), ..known[f] }
            } else {
                known[f]
            },
    )
}

/// What is known of the functions of a module, by their names in it.
pub open spec fn functions_for(
    p: &ProjectInfo,
    known: Map<Seq<char>, FunctionInfoView>,
    module: Seq<char>,
) -> Map<Seq<char>, FunctionInfoView> {
    module_part(table_by_module(with_params(p, known), p.analysis_map@.dom(), false), module)
}

/// What came of a module: why it cannot be imported lazily, or that this cannot be told.
pub open spec fn module_result(
    p: &ProjectInfo,
    graph: &ImportGraph,
    known: Map<Seq<char>, FunctionInfoView>,
    mode: ExecutionMode,
    module: Seq<char>,
) -> ResultView {
    let output = p.analysis_map@[module];
    let scopes = output.definitions.eager_scopes.items();
    let (failed, s) = scopes_pass(
        p,
        module,
        scopes,
        CheckView { verdicts: known, errors: Seq::empty() },
        scopes.len() as int,
    );
    match failed {
        Some(reason) => ResultView::Failed(reason),
        None => ResultView::Analyzed(
            SafetyView {
                errors: s.errors,
                overrides: eager_errors(
                    &output,
                    output.module_effects.effects.effects().keys().len() as int,
                ),
                implicit_imports: output.implicit_imports.items(),
                function_safety: if mode == ExecutionMode::Incremental {
                    functions_for(p, known, module)
                } else {
                    Map::empty()
                },
                mutation_candidates: if mode == ExecutionMode::Incremental && all_candidates(
                    p,
                    graph,
                ).contains_key(module) {
                    all_candidates(p, graph)[module]
                } else {
                    Seq::empty()
                },
            },
        ),
    }
}

/// Only what may call itself is known to be unsafe.
pub open spec fn only_recursive(p: &ProjectInfo) -> CheckView {
    CheckView {
        verdicts: Map::new(
            |f: Seq<char>| recursive(p, f),
            |f: Seq<char>| FunctionInfoView::plain(FunctionSafety::Unsafe),
        ),
        errors: Seq::empty(),
    }
}

/// The verdicts on all functions and classes of a project: first on those that may call
/// themselves, then on classes, then on functions.
pub open spec fn all_verdicts(p: &ProjectInfo) -> CheckView {
    function_verdicts(
        p,
        class_verdicts(p, only_recursive(p), p.classes.classes().keys().len() as int),
        p.functions.keys().len() as int,
    )
}

/// A function or a class that may call itself, directly or through others, is unsafe, whatever else
/// is found of it.
pub proof fn recursive_functions_are_unsafe(p: &ProjectInfo, f: Seq<char>)
    requires
        p.effect_table.effects().ordered(),
        recursive(p, f),
    ensures
        all_verdicts(p).has_verdict(f, FunctionSafety::Unsafe),
{
    let start = only_recursive(p);
    let classes = p.classes.classes().keys().len() as int;
    assert(start.has_verdict(f, FunctionSafety::Unsafe));
    lemma_passes_stand(p, start, classes, 0, f);
    lemma_passes_stand(p, class_verdicts(p, start, classes), 0, p.functions.keys().len() as int, f);
}

/// The verdicts that the errors of modules are found by.
pub open spec fn final_verdicts(
    p: &ProjectInfo,
    graph: &ImportGraph,
    mode: ExecutionMode,
    s: CheckView,
) -> bool {
    if mode == ExecutionMode::WholeProgram {
        resolved_whole(p, graph, all_verdicts(p), s)
    } else {
        s == all_verdicts(p)
    }
}

/// The results of all modules of a project, by the given verdicts.
pub open spec fn results_by(
    p: &ProjectInfo,
    graph: &ImportGraph,
    known: Map<Seq<char>, FunctionInfoView>,
    mode: ExecutionMode,
    results: Map<Seq<char>, ResultView>,
) -> bool {
    results.dom() == p.analysis_map@.dom() && forall|m: Seq<char>| #[trigger]
        results.contains_key(m) ==> results[m] == module_result(p, graph, known, mode, m)
}

impl ProjectInfo {
    /// Copies what is known of functions, with the parameters that they mutate.
    fn with_mutated_params(&self, known: &NameMap<FunctionSafetyInfo>) -> (res: NameMap<FunctionSafetyInfo>)
        ensures
            res.deep_view() == with_params(self, known.deep_view()),
    {
        let mut res: NameMap<FunctionSafetyInfo> = NameMap::new();
        let n: usize = known.len();
        let ghost all = known.deep_view();
        let ghost keys = known.keys();
        proof {
            assert(res.deep_view() =~= with_params(self, all.restrict(keys.take(0).to_set())));
        }
        for i in 0..n
            invariant
                n == keys.len(),
                keys == known.keys(),
                known.ordered(),
                all == known.deep_view(),
                res.deep_view() == with_params(self, all.restrict(keys.take(i as int).to_set())),
        {
            let func = known.key_at(i);
            let mut info: FunctionSafetyInfo = known.value_at(i).clone();
            if let Some(params) = self.resolve_cached_mutated_params_for(func) {
                info.mutated_params = params;
            }
            let ghost before = res.deep_view();
            let ghost view = info.deep_view();
            let _ = res.insert(func.clone(), info);
            proof {
                crate::name_set::lemma_take_more(keys, i as int);
                assert(all.contains_key(keys[i as int]));
                assert(res.deep_view() =~= before.insert(func@, view));
                assert(res.deep_view() =~= with_params(
                    self,
                    all.restrict(keys.take(i + 1).to_set()),
                ));
            }
        }
        proof {
            assert(keys.take(keys.len() as int) =~= keys);
            assert(keys.to_set() =~= all.dom());
            assert(all.restrict(keys.to_set()) =~= all);
        }
        res
    }

    /// Finds out about one module.
    fn check_module(&self, module: &ModuleName, output: &AnalyzedModule, state: &mut CheckState) -> (res:
        SafetyResult)
        requires
            self.effect_table.effects().ordered(),
            complete(self, old(state).deep_view()),
        ensures
            final(state).deep_view().verdicts == old(state).deep_view().verdicts,
            ({
                let scopes = output.definitions.eager_scopes.items();
                let (failed, s) = scopes_pass(
                    self,
                    module@,
                    scopes,
                    CheckView {
                        verdicts: old(state).deep_view().verdicts,
                        errors: Seq::empty(),
                    },
                    scopes.len() as int,
                );
                match failed {
                    Some(reason) => res.deep_view() == ResultView::Failed(reason),
                    None => res.deep_view() == ResultView::Analyzed(
                        SafetyView {
                            errors: s.errors,
                            overrides: eager_errors(
                                output,
                                output.module_effects.effects.effects().keys().len() as int,
                            ),
                            implicit_imports: output.implicit_imports.items(),
                            ..SafetyView::clean()
                        },
                    ),
                }
            }),
    {
        let scopes = &output.definitions.eager_scopes;
        state.errors = Vec::new();
        let ghost start = state.deep_view();
        proof {
            assert(start.errors =~= Seq::empty());
            importing_reads_verdicts(
                self,
                module@,
                scopes.items(),
                start,
                scopes.items().len() as int,
            );
        }
        if let Err(e) = self.collect_errors_from_scopes(module, scopes, state) {
            return SafetyResult::AnalysisError(e.reason);
        }
        let mut safety = ModuleSafety::new();
        let mut errors = Vec::new();
        std::mem::swap(&mut state.errors, &mut errors);
        safety.errors = errors;
        safety.force_imports_eager_overrides = check_load_imports_eagerly(output);
        safety.add_implicit_imports(&output.implicit_imports);
        proof {
            assert(safety.deep_view().implicit_imports =~= output.implicit_imports.items());
        }
        SafetyResult::Analyzed(safety)
    }

    /// Adds to what was found out about a module what is kept of it.
    fn keep(
        &self,
        module: &ModuleName,
        functions: &FunctionTable,
        candidates: &NameMap<Vec<MutationCandidate>>,
        result: SafetyResult,
    ) -> (res: SafetyResult)
        ensures
            res.deep_view() == (match result.deep_view() {
                ResultView::Analyzed(safety) => ResultView::Analyzed(
                    SafetyView {
                        function_safety: module_part(verdicts(functions), module@),
                        mutation_candidates: if candidates.deep_view().contains_key(module@) {
                            candidates.deep_view()[module@]
                        } else {
                            Seq::empty()
                        },
                        ..safety
                    },
                ),
                ResultView::Failed(reason) => ResultView::Failed(reason),
            }),
    {
        match result {
            SafetyResult::AnalysisError(reason) => SafetyResult::AnalysisError(reason),
            SafetyResult::Analyzed(safety) => {
                let mut safety: ModuleSafety = safety;
                safety.function_safety = match functions.attrs_of(module) {
                    Some(attrs) => copy_functions(attrs),
                    None => NameMap::new(),
                };
                safety.mutation_candidates = match candidates.get(module) {
                    Some(list) => copy_candidates(list),
                    None => Vec::new(),
                };
                proof {
                    assert(safety.deep_view().function_safety =~= module_part(
                        verdicts(functions),
                        module@,
                    ));
                    if !candidates.deep_view().contains_key(module@) {
                        assert(safety.deep_view().mutation_candidates =~= Seq::empty());
                    }
                }
                SafetyResult::Analyzed(safety)
            },
        }
    }

    /// Finds out about every module of the project.
    fn check_modules(&self, state: &mut CheckState, import_graph: &ImportGraph, mode: ExecutionMode) -> (res:
        SafetyMap)
        requires
            self.effect_table.effects().ordered(),
            complete(self, old(state).deep_view()),
        ensures
            results_by(self, import_graph, old(state).deep_view().verdicts, mode, res.deep_view()),
    {
        let mut res: SafetyMap = NameMap::new();
        let n: usize = self.analysis_map.len();
        let ghost known = state.deep_view().verdicts;
        let ghost keys = self.analysis_map.keys();
        let modules = self.module_names();
        let functions = by_module(
            &self.with_mutated_params(&state.function_safety),
            &modules,
            false,
        );
        let candidates = self.collect_mutation_candidates(import_graph);
        proof {
            assert(res.deep_view().dom() =~= keys.take(0).to_set());
        }
        for i in 0..n
            invariant
                n == keys.len(),
                keys == self.analysis_map.keys(),
                self.analysis_map.ordered(),
                self.effect_table.effects().ordered(),
                complete(self, state.deep_view()),
                state.deep_view().verdicts == known,
                verdicts(&functions) == table_by_module(
                    with_params(self, known),
                    self.analysis_map@.dom(),
                    false,
                ),
                candidates.deep_view() == all_candidates(self, import_graph),
                res.deep_view().dom() == keys.take(i as int).to_set(),
                forall|m: Seq<char>| #[trigger]
                    res.deep_view().contains_key(m) ==> res.deep_view()[m] == module_result(
                        self,
                        import_graph,
                        known,
                        mode,
                        m,
                    ),
        {
            let module = self.analysis_map.key_at(i);
            let ghost before = res.deep_view();
            let mut result: SafetyResult = self.check_module(module, self.analysis_map.value_at(i), state);
            if mode == ExecutionMode::Incremental {
                result = self.keep(module, &functions, &candidates, result);
            }
            let ghost view = result.deep_view();
            let _ = res.insert(module.clone(), result);
            proof {
                crate::name_set::lemma_take_more(keys, i as int);
                assert(res.deep_view() =~= before.insert(module@, view));
                assert(res.deep_view().dom() =~= keys.take(i + 1).to_set());
                assert(view == module_result(self, import_graph, known, mode, module@));
            }
        }
        proof {
            assert(keys.take(keys.len() as int) =~= keys);
            assert(keys.to_set() =~= self.analysis_map@.dom());
        }
        res
    }

    /// Finds, for every module of the project, why it cannot be imported lazily. The verdicts on
    /// functions and classes come first, so that modules are all judged by the same ones.
    pub fn collect_errors_from_project(&self, mode: ExecutionMode, import_graph: &ImportGraph) -> (res:
        SafetyMap)
        ensures
            exists|s: CheckView| #[trigger]
                final_verdicts(self, import_graph, mode, s) && results_by(
                    self,
                    import_graph,
                    s.verdicts,
                    mode,
                    res.deep_view(),
                ),
    {
        let n_scopes: usize = self.effect_table.len();
        let mut state = CheckState::new();
        self.mark_recursive_functions_unsafe(&mut state);
        proof {
            assert(state.deep_view().verdicts =~= only_recursive(self).verdicts);
        }
        self.precompute_constructor_safety(&mut state);
        self.precompute_function_safety(&mut state);
        let ghost first = state.deep_view();
        if mode == ExecutionMode::WholeProgram {
            self.resolve_whole_program(&mut state, import_graph);
            proof {
                assert(complete(self, state.deep_view())) by {
                    assert forall|f: Seq<char>| #[trigger]
                        self.functions@.contains_key(f) implies state.deep_view().verdicts.contains_key(
                        f,
                    ) by {
                        assert(first.verdicts.contains_key(f));
                    }
                }
            }
        }
        let ghost last = state.deep_view();
        let res = self.check_modules(&mut state, import_graph, mode);
        proof {
            assert(final_verdicts(self, import_graph, mode, last));
        }
        res
    }
}

/// A source file of a project: which module it is of, and whether it is a stub, alone or in the
/// place of a source.
pub struct SourceKind {
    pub name: ModuleName,
    pub is_stub: bool,
    pub overrides_source: bool,
}

/// A module is a stub that stands in the place of no source.
pub open spec fn only_stub(kinds: Seq<SourceKind>, name: Seq<char>) -> bool {
    exists|i: int|
        0 <= i < kinds.len() && (#[trigger] kinds[i]).name@ == name && kinds[i].is_stub
            && !kinds[i].overrides_source
}

/// Takes out the stubs that stand in the place of no source.
pub fn filter_out_stubs(safety_map: &mut SafetyMap, kinds: &Vec<SourceKind>)
    ensures
        final(safety_map)@ == old(safety_map)@.remove_keys(
            Set::new(|name: Seq<char>| only_stub(kinds@, name)),
        ),
{
    let ghost before = safety_map@;
    proof {
        assert(before.remove_keys(Set::new(|name: Seq<char>| only_stub(kinds@.take(0), name))) =~= before);
    }
    for i in 0..kinds.len()
        invariant
            safety_map@ == before.remove_keys(
                Set::new(|name: Seq<char>| only_stub(kinds@.take(i as int), name)),
            ),
    {
        let ghost middle = safety_map@;
        let kind = &kinds[i];
        if kind.is_stub && !kind.overrides_source {
            let _ = safety_map.remove(&kind.name);
        }
        proof {
            let fewer = kinds@.take(i as int);
            let more = kinds@.take(i + 1);
            assert(more[i as int] == kinds@[i as int]);
            assert forall|name: Seq<char>|
                only_stub(more, name) <==> only_stub(fewer, name) || (kind.name@ == name && kind.is_stub
                    && !kind.overrides_source) by {
                if only_stub(more, name) {
                    let j = choose|j: int|
                        0 <= j < more.len() && (#[trigger] more[j]).name@ == name && more[j].is_stub
                            && !more[j].overrides_source;
                    if j < i {
                        assert(fewer[j] == more[j]);
                    }
                }
                if only_stub(fewer, name) {
                    let j = choose|j: int|
                        0 <= j < fewer.len() && (#[trigger] fewer[j]).name@ == name && fewer[j].is_stub
                            && !fewer[j].overrides_source;
                    assert(more[j] == fewer[j]);
                }
            }
            assert(safety_map@ =~= before.remove_keys(Set::new(|name: Seq<char>| only_stub(more, name))));
        }
    }
    proof {
        assert(kinds@.take(kinds@.len() as int) =~= kinds@);
    }
}

/// What comes of the analysis of a project.
pub struct AnalysisOutput {
    pub safety_map: SafetyMap,
    pub side_effect_imports: SideEffectMap,
    /// The files that could not be parsed, each with the reason.
    pub parse_errors: NameMap<String>,
}

/// The files of a project that could not be parsed, each with the reason.
pub open spec fn parse_errors_in(sources: &Sources) -> Map<Seq<char>, Seq<char>> {
    Map::new(
        |m: Seq<char>| sources@.contains_key(m) && sources@[m] is ParserError,
        |m: Seq<char>| sources@[m]->ParserError_0@,
    )
}

/// Every module of a project among the given ones that was parsed was analyzed, and no other.
pub open spec fn all_analyzed(
    cx: &AnalysisContext,
    sources: &Sources,
    map: &AnalysisMap,
    done: Set<Seq<char>>,
) -> bool {
    &&& forall|m: Seq<char>| #[trigger]
        map@.contains_key(m) <==> done.contains(m) && is_parsed(sources, m)
    &&& forall|m: Seq<char>| #[trigger]
        map@.contains_key(m) ==> is_analyzed(cx, &sources@[m]->Parsed_0, &map@[m])
}

/// Analyzes every module of a project by itself.
fn analyze_each(sources: &Sources, cx: &AnalysisContext) -> (res: Result<
    (AnalysisMap, NameMap<String>),
    ConflictingEffects,
>)
    ensures
        match res {
            Ok((map, errors)) => all_analyzed(cx, sources, &map, sources@.dom()) && errors.deep_view()
                == parse_errors_in(sources) && !some_contradicts(sources, cx.config.sys_info),
            Err(e) => contradicted_at(sources, cx.config.sys_info, e.scope@),
        },
{
    let mut map: AnalysisMap = NameMap::new();
    let mut errors: NameMap<String> = NameMap::new();
    let n: usize = sources.len();
    let ghost keys = sources.keys();
    let ghost all = parse_errors_in(sources);
    proof {
        assert(errors.deep_view() =~= all.restrict(keys.take(0).to_set()));
    }
    for i in 0..n
        invariant
            n == keys.len(),
            keys == sources.keys(),
            sources.ordered(),
            all == parse_errors_in(sources),
            all_analyzed(cx, sources, &map, keys.take(i as int).to_set()),
            errors.deep_view() == all.restrict(keys.take(i as int).to_set()),
            forall|j: int|
                0 <= j < i && is_parsed(sources, #[trigger] keys[j]) ==> !contradicts(
                    &sources@[keys[j]]->Parsed_0,
                cx.config.sys_info,
                ),
    {
        let ghost k = keys[i as int];
        let ghost before = map@;
        let ghost known = errors.deep_view();
        let ghost fewer = keys.take(i as int).to_set();
        let ghost more = keys.take(i + 1).to_set();
        proof {
            crate::name_set::lemma_take_more(keys, i as int);
            assert(!keys.take(i as int).contains(k));
        }
        let name = sources.key_at(i).clone();
        match sources.value_at(i) {
            AstResult::ParserError(reason) => {
                let _ = errors.insert(name, reason.clone());
                proof {
                    assert(errors.deep_view() =~= known.insert(k, reason@));
                    assert(errors.deep_view() =~= all.restrict(more));
                }
            },
            AstResult::Parsed(parsed) => {
                proof {
                    assert(is_parsed(sources, k));
                    assert(all.restrict(more) =~= all.restrict(fewer));
                }
                match analyze(parsed, cx) {
                    Ok(output) => {
                        let _ = map.insert(name, output);
                    },
                    Err(e) => {
                        return Err(e);
                    },
                }
            },
        }
        proof {
            assert forall|m: Seq<char>| #[trigger]
                map@.contains_key(m) <==> more.contains(m) && is_parsed(sources, m) by {
                assert(before.contains_key(m) <==> fewer.contains(m) && is_parsed(sources, m));
            }
            assert forall|m: Seq<char>| #[trigger] map@.contains_key(m) implies is_analyzed(
                cx,
                &sources@[m]->Parsed_0,
                &map@[m],
            ) by {
                if m != k {
                    assert(before.contains_key(m));
                }
            }
        }
    }
    proof {
        assert(keys.take(keys.len() as int) =~= keys);
        assert(keys.to_set() =~= sources@.dom());
        assert(all.restrict(sources@.dom()) =~= all);
        assert forall|m: Seq<char>| #[trigger] is_parsed(sources, m) implies !contradicts(
            &sources@[m]->Parsed_0,
        cx.config.sys_info,
        ) by {
            assert(keys.contains(m));
            assert(keys[keys.index_of(m)] == m);
        }
    }
    Ok((map, errors))
}

/// Some stub of a project contradicts itself.
pub open spec fn some_contradicts(sources: &Sources, sys: SysInfo) -> bool {
    exists|m: Seq<char>| #[trigger] is_parsed(sources, m) && contradicts(&sources@[m]->Parsed_0, sys)
}

/// Some stub of a project contradicts itself in what it says of a scope.
pub open spec fn contradicted_at(sources: &Sources, sys: SysInfo, scope: Seq<char>) -> bool {
    exists|m: Seq<char>| #[trigger]
        is_parsed(sources, m) && sources@[m]->Parsed_0.is_stub && contradictory_at(
            stub_output(&sources@[m]->Parsed_0, sys).effects,
            scope,
        )
}

/// A stub says of a scope that it has no effects, but also gives some.
pub open spec fn contradicts(parsed: &ParsedModule, sys: SysInfo) -> bool {
    parsed.is_stub && contradictory(stub_output(parsed, sys).effects)
}

/// Modules were analyzed each by itself, and what they use without importing it was added.
pub open spec fn is_analysis_map(cx: &AnalysisContext, sources: &Sources, map: &AnalysisMap) -> bool {
    exists|first: AnalysisMap| #[trigger]
        all_analyzed(cx, sources, &first, sources@.dom()) && implicit_found(&first, cx.import_graph, map)
}

/// What modules use without importing it was added.
pub open spec fn implicit_found(first: &AnalysisMap, graph: &ImportGraph, map: &AnalysisMap) -> bool {
    exists|ctx: ImplicitImportContext| #[trigger]
        is_context(&ctx, first, graph) && implicit_added(&ctx, first, map)
}

/// Analyzes all modules of a project. A project with a stub that contradicts itself is refused.
pub fn analyze_all(sources: &Sources, cx: &AnalysisContext) -> (res: Result<
    (AnalysisMap, NameMap<String>),
    ConflictingEffects,
>)
    ensures
        match res {
            Ok((map, errors)) => is_analysis_map(cx, sources, &map) && errors.deep_view() == parse_errors_in(
                sources,
            ) && !some_contradicts(sources, cx.config.sys_info),
            Err(e) => contradicted_at(sources, cx.config.sys_info, e.scope@),
        },
{
    match analyze_each(sources, cx) {
        Ok((first, errors)) => {
            let ghost before = first;
            let mut map: AnalysisMap = first;
            get_implicit_imports(&mut map, cx.import_graph);
            proof {
                assert(all_analyzed(cx, sources, &before, sources@.dom()));
                assert(implicit_found(&before, cx.import_graph, &map));
            }
            Ok((map, errors))
        },
        Err(e) => Err(e),
    }
}

/// The results of the modules of a project that were analyzed.
pub open spec fn are_results(
    map: &AnalysisMap,
    cx: &AnalysisContext,
    mode: ExecutionMode,
    results: Map<Seq<char>, ResultView>,
) -> bool {
    exists|info: ProjectInfo| #[trigger]
        brought_together(map, cx.exports, &info) && project_results(&info, cx.import_graph, mode, results)
}

/// The results of the modules of a project of which all is known.
pub open spec fn project_results(
    info: &ProjectInfo,
    graph: &ImportGraph,
    mode: ExecutionMode,
    results: Map<Seq<char>, ResultView>,
) -> bool {
    exists|s: CheckView| #[trigger]
        final_verdicts(info, graph, mode, s) && results_by(info, graph, s.verdicts, mode, results)
}

/// What comes of the analysis of a project.
pub open spec fn is_output(
    sources: &Sources,
    kinds: Seq<SourceKind>,
    cx: &AnalysisContext,
    mode: ExecutionMode,
    output: &AnalysisOutput,
) -> bool {
    &&& output.parse_errors.deep_view() == parse_errors_in(sources)
    &&& exists|map: AnalysisMap| #[trigger]
        is_analysis_map(cx, sources, &map) && output_from(&map, kinds, cx, mode, output)
}

/// What comes of the analysis of a project whose modules were analyzed: the results of its modules,
/// but for those that are only stubs, and the imports that nothing uses.
pub open spec fn output_from(
    map: &AnalysisMap,
    kinds: Seq<SourceKind>,
    cx: &AnalysisContext,
    mode: ExecutionMode,
    output: &AnalysisOutput,
) -> bool {
    &&& output.side_effect_imports.deep_view() == Map::new(
        |m: Seq<char>| map@.contains_key(m),
        |m: Seq<char>| unused_imports(map, m),
    )
    &&& exists|results: Map<Seq<char>, ResultView>| #[trigger]
        are_results(map, cx, mode, results) && output.safety_map.deep_view() == results.remove_keys(
            Set::new(|m: Seq<char>| only_stub(kinds, m)),
        )
}

/// Analyzes a project.
pub fn run_analysis(
    sources: &Sources,
    kinds: &Vec<SourceKind>,
    cx: &AnalysisContext,
    mode: ExecutionMode,
) -> (res: Result<AnalysisOutput, ConflictingEffects>)
    ensures
        match res {
            Ok(output) => is_output(sources, kinds@, cx, mode, &output) && !some_contradicts(
                sources,
                cx.config.sys_info,
            ),
            Err(e) => contradicted_at(sources, cx.config.sys_info, e.scope@),
        },
{
    let (map, parse_errors) = match analyze_all(sources, cx) {
        Ok(done) => done,
        Err(e) => {
            return Err(e);
        },
    };
    let ghost analyzed = map;
    let side_effect_imports = compute_side_effect_imports(&map);
    let info = ProjectInfo::new(map, cx.exports);
    let mut safety_map = info.collect_errors_from_project(mode, cx.import_graph);
    let ghost results = safety_map.deep_view();
    proof {
        assert(project_results(&info, cx.import_graph, mode, results));
        assert(are_results(&analyzed, cx, mode, results));
    }
    filter_out_stubs(&mut safety_map, kinds);
    proof {
        assert(safety_map.deep_view() =~= results.remove_keys(
            Set::new(|m: Seq<char>| only_stub(kinds@, m)),
        ));
    }
    let output = AnalysisOutput { safety_map, side_effect_imports, parse_errors };
    proof {
        assert(output_from(&analyzed, kinds@, cx, mode, &output));
    }
    Ok(output)
}

/// Results with the files that could not be parsed among them.
pub open spec fn with_parse_errors(
    results: Map<Seq<char>, ResultView>,
    errors: Map<Seq<char>, Seq<char>>,
) -> Map<Seq<char>, ResultView> {
    results.union_prefer_right(
        errors.map_values(|reason: Seq<char>| ResultView::Failed("Parse error: "@ + reason)),
    )
}

/// Adds the files that could not be parsed to the results.
pub fn surface_parse_errors(output: &mut AnalysisOutput)
    ensures
        final(output).safety_map.deep_view() == with_parse_errors(
            old(output).safety_map.deep_view(),
            old(output).parse_errors.deep_view(),
        ),
        final(output).parse_errors == old(output).parse_errors,
        final(output).side_effect_imports == old(output).side_effect_imports,
{
    let n: usize = output.parse_errors.len();
    let ghost keys = output.parse_errors.keys();
    let ghost errors = output.parse_errors.deep_view();
    let ghost first = output.safety_map.deep_view();
    proof {
        assert(first =~= with_parse_errors(first, errors.restrict(keys.take(0).to_set())));
    }
    for i in 0..n
        invariant
            n == keys.len(),
            keys == output.parse_errors.keys(),
            output.parse_errors.ordered(),
            errors == output.parse_errors.deep_view(),
            output.parse_errors == old(output).parse_errors,
            output.side_effect_imports == old(output).side_effect_imports,
            output.safety_map.deep_view() == with_parse_errors(
                first,
                errors.restrict(keys.take(i as int).to_set()),
            ),
    {
        let ghost before = output.safety_map.deep_view();
        let name = output.parse_errors.key_at(i).clone();
        let mut reason: String = "Parse error: ".to_owned();
        reason.append(output.parse_errors.value_at(i).as_str());
        let ghost text = reason@;
        let ghost k = keys[i as int];
        let _ = output.safety_map.insert(name, SafetyResult::AnalysisError(reason));
        proof {
            crate::name_set::lemma_take_more(keys, i as int);
            assert(errors.contains_key(k));
            assert(text == "Parse error: "@ + errors[k]);
            assert(output.safety_map.deep_view() =~= before.insert(k, ResultView::Failed(text)));
            assert(output.safety_map.deep_view() =~= with_parse_errors(
                first,
                errors.restrict(keys.take(i + 1).to_set()),
            ));
        }
    }
    proof {
        assert(keys.take(keys.len() as int) =~= keys);
        assert(keys.to_set() =~= errors.dom());
        assert(errors.restrict(errors.dom()) =~= errors);
    }
}

} // verus!
