//! Calls that may mutate imported objects in code that is not part of the project.

use crate::call_check::foreign;
use crate::callees::{callee_views, callees, iter_callees};
use crate::effects::{CallView, Effect, EffectData, EffectView};
use crate::imports::{parent_dot, split_at_known, ImportGraph};
use crate::module_name::ModuleName;
use crate::module_safety::{CandidateView, MutationCandidate, MutationCandidateSite, SiteView};
use crate::name_map::NameMap;
use crate::name_set::NameSet;
use crate::name_sets::{set_at, set_of};
use crate::project_info::ProjectInfo;
use vstd::prelude::*;

verus! {

/// The module that a scope is in, and the scope's name in it, where it is not the module itself.
pub open spec fn enclosing_module(scope: Seq<char>, modules: Set<Seq<char>>) -> Option<
    (Seq<char>, Option<Seq<char>>),
> {
    let d = parent_dot(scope, modules);
    if modules.contains(scope) {
        Some((scope, None))
    } else if d >= 0 {
        Some((scope.take(d), Some(scope.skip(d + 1))))
    } else {
        None
    }
}

/// What a module and a name in it are.
pub open spec fn enclosing_view(e: Option<(ModuleName, Option<String>)>) -> Option<
    (Seq<char>, Option<Seq<char>>),
> {
    match e {
        Some(p) => Some(
            (
                p.0@,
                match p.1 {
                    Some(local) => Some(local@),
                    None => None,
                },
            ),
        ),
        None => None,
    }
}

/// Finds the module that a scope is in, and the scope's name in it.
pub fn resolve_enclosing_module(scope: &ModuleName, modules: &NameSet) -> (res: Option<
    (ModuleName, Option<String>),
>)
    ensures
        enclosing_view(res) == enclosing_module(scope@, modules@),
{
    if modules.contains(scope) {
        return Some((scope.clone(), None));
    }
    match split_at_known(scope, modules) {
        Some((module, local)) => Some((module, Some(local))),
        None => None,
    }
}

/// A name or one of its parents is in a set.
pub open spec fn lies_in(name: Seq<char>, set: Set<Seq<char>>) -> bool {
    set.contains(name) || parent_dot(name, set) >= 0
}

/// The names that a set has, where there is one.
pub open spec fn set_view(set: Option<&NameSet>) -> Set<Seq<char>> {
    match set {
        Some(names) => names@,
        None => Set::empty(),
    }
}

/// No parent of a name is in the empty set.
proof fn lemma_nothing_known(name: Seq<char>, dots: Seq<int>, k: int)
    ensures
        crate::imports::known_dot(name, Set::empty(), dots, k) < 0,
    decreases dots.len() - k,
{
    if 0 <= k < dots.len() {
        lemma_nothing_known(name, dots, k + 1);
    }
}

fn is_in(name: &ModuleName, set: Option<&NameSet>) -> (res: bool)
    ensures
        res == lies_in(name@, set_view(set)),
{
    match set {
        Some(names) => names.contains(name) || split_at_known(name, names).is_some(),
        None => {
            proof {
                lemma_nothing_known(name@, crate::module_name::dots_from_last(name@), 0);
            }
            false
        },
    }
}

/// Whether a callee, or what it lies in, is among the imports that were not found.
pub fn callee_is_unresolved(
    callee: &ModuleName,
    missing: Option<&NameSet>,
    ambiguous: Option<&NameSet>,
) -> (res: bool)
    ensures
        res == (lies_in(callee@, set_view(missing)) || lies_in(callee@, set_view(ambiguous))),
{
    is_in(callee, missing) || is_in(callee, ambiguous)
}

/// Where a candidate's call stands: in a function, or at module scope.
pub open spec fn site_of(local: Option<Seq<char>>, call: Seq<char>) -> SiteView {
    match local {
        Some(name) => SiteView::Function(name),
        None => SiteView::ModuleScope(call),
    }
}

/// A call passes imported objects to a callee that is none of the project's, and that its module
/// imports without its having been found: whether the objects are mutated shows elsewhere.
pub open spec fn candidate_for(
    p: &ProjectInfo,
    graph: &ImportGraph,
    scope: Seq<char>,
    eff: EffectView,
    call: CallView,
    callee: (Seq<char>, usize),
) -> Option<(Seq<char>, CandidateView)> {
    match enclosing_module(scope, p.analysis_map@.dom()) {
        Some((module, local)) => if foreign(p, callee.0) && (lies_in(
            callee.0,
            set_at(graph.missing(), module),
        ) || lies_in(callee.0, set_at(graph.ambiguous(), module))) {
            Some(
                (
                    module,
                    CandidateView {
                        callee: callee.0,
                        site: site_of(local, eff.name),
                        arg_offset: callee.1,
                        imported_args: call.imported_args,
                    },
                ),
            )
        } else {
            None
        },
        None => None,
    }
}

/// One more candidate of a module.
pub open spec fn with_candidate(
    map: Map<Seq<char>, Seq<CandidateView>>,
    found: Option<(Seq<char>, CandidateView)>,
) -> Map<Seq<char>, Seq<CandidateView>> {
    match found {
        Some((module, candidate)) => map.insert(
            module,
            (if map.contains_key(module) {
                map[module]
            } else {
                Seq::empty()
            }).push(candidate),
        ),
        None => map,
    }
}

/// The candidates of the first `n` callees of a call, in addition to what is known.
pub open spec fn candidates_of_call(
    p: &ProjectInfo,
    graph: &ImportGraph,
    scope: Seq<char>,
    eff: EffectView,
    call: CallView,
    known: Map<Seq<char>, Seq<CandidateView>>,
    n: int,
) -> Map<Seq<char>, Seq<CandidateView>>
    decreases n,
{
    if n <= 0 {
        known
    } else {
        with_candidate(
            candidates_of_call(p, graph, scope, eff, call, known, n - 1),
            candidate_for(
                p,
                graph,
                scope,
                eff,
                call,
                callees(eff.kind, eff.name, p.classes.deep_view())[n - 1],
            ),
        )
    }
}

/// The candidates of the first `n` effects of a scope, in addition to what is known.
pub open spec fn candidates_of_effects(
    p: &ProjectInfo,
    graph: &ImportGraph,
    scope: Seq<char>,
    effs: Seq<EffectView>,
    known: Map<Seq<char>, Seq<CandidateView>>,
    n: int,
) -> Map<Seq<char>, Seq<CandidateView>>
    decreases n,
{
    if n <= 0 {
        known
    } else {
        let before = candidates_of_effects(p, graph, scope, effs, known, n - 1);
        let eff = effs[n - 1];
        match eff.data {
            Some(call) => if call.has_unsafe_args {
                candidates_of_call(
                    p,
                    graph,
                    scope,
                    eff,
                    call,
                    before,
                    callees(eff.kind, eff.name, p.classes.deep_view()).len() as int,
                )
            } else {
                before
            },
            None => before,
        }
    }
}

/// The candidates of the first `n` scopes.
pub open spec fn candidates_of(p: &ProjectInfo, graph: &ImportGraph, n: int) -> Map<
    Seq<char>,
    Seq<CandidateView>,
>
    decreases n,
{
    if n <= 0 {
        Map::empty()
    } else {
        let scope = p.effect_table.effects().keys()[n - 1];
        let effs = p.effect_table.deep_view()[scope];
        candidates_of_effects(
            p,
            graph,
            scope,
            effs,
            candidates_of(p, graph, n - 1),
            effs.len() as int,
        )
    }
}

/// All candidates of a project, by module.
pub open spec fn all_candidates(p: &ProjectInfo, graph: &ImportGraph) -> Map<Seq<char>, Seq<CandidateView>> {
    candidates_of(p, graph, p.effect_table.effects().keys().len() as int)
}

/// Adds a candidate of a module.
fn add_candidate(map: &mut NameMap<Vec<MutationCandidate>>, module: &ModuleName, candidate: MutationCandidate)
    ensures
        final(map).deep_view() == with_candidate(
            old(map).deep_view(),
            Some((module@, candidate.deep_view())),
        ),
{
    let ghost before = map.deep_view();
    let ghost view = candidate.deep_view();
    match map.position(module.as_str()) {
        Some(i) => {
            let mut list: Vec<MutationCandidate> = map.replace_at(i, Vec::new());
            let ghost held = list.deep_view();
            list.push(candidate);
            proof {
                assert(list.deep_view() =~= held.push(view));
            }
            let _ = map.replace_at(i, list);
        },
        None => {
            let mut list: Vec<MutationCandidate> = Vec::new();
            list.push(candidate);
            proof {
                assert(list.deep_view() =~= Seq::empty().push(view));
            }
            let _ = map.insert(module.clone(), list);
        },
    }
    proof {
        assert(map.deep_view() =~= with_candidate(before, Some((module@, view))));
    }
}

/// The scope that candidates are looked for in.
struct CandidateScope<'a> {
    module: ModuleName,
    /// The name of the function that calls, in the module; nothing at module scope.
    caller_function: Option<String>,
    missing: Option<&'a NameSet>,
    ambiguous: Option<&'a NameSet>,
}

impl ProjectInfo {
    /// The names of the modules of the project.
    pub fn module_names(&self) -> (res: NameSet)
        ensures
            res@ == self.analysis_map@.dom(),
    {
        let names = self.analysis_map.key_list();
        set_of(&names)
    }

    /// Finds the module that a scope is in, and what the module imports without its having been
    /// found.
    fn mutation_candidate_scope<'a>(
        &self,
        scope: &ModuleName,
        modules: &NameSet,
        import_graph: &'a ImportGraph,
    ) -> (res: Option<CandidateScope<'a>>)
        requires
            modules@ == self.analysis_map@.dom(),
        ensures
            match res {
                Some(found) => enclosing_module(scope@, modules@) == enclosing_view(
                    Some((found.module, found.caller_function)),
                ) && set_view(found.missing) == set_at(import_graph.missing(), found.module@) && set_view(
                    found.ambiguous,
                ) == set_at(import_graph.ambiguous(), found.module@),
                None => match enclosing_module(scope@, modules@) {
                    Some((module, _)) => !import_graph.missing().contains_key(module)
                        && !import_graph.ambiguous().contains_key(module),
                    None => true,
                },
            },
    {
        let (module, caller_function) = match resolve_enclosing_module(scope, modules) {
            Some(found) => found,
            None => {
                return None;
            },
        };
        let missing = import_graph.get_missing_imports(&module);
        let ambiguous = import_graph.get_ambiguous_imports(&module);
        if missing.is_none() && ambiguous.is_none() {
            return None;
        }
        Some(CandidateScope { module, caller_function, missing, ambiguous })
    }

    /// Adds the candidates of one call.
    fn add_call_candidates(
        &self,
        import_graph: &ImportGraph,
        modules: &NameSet,
        scope: &ModuleName,
        eff: &Effect,
        res: &mut NameMap<Vec<MutationCandidate>>,
    )
        requires
            modules@ == self.analysis_map@.dom(),
            eff.data is Call,
        ensures
            final(res).deep_view() == candidates_of_call(
                self,
                import_graph,
                scope@,
                eff.deep_view(),
                eff.deep_view().data->0,
                old(res).deep_view(),
                callees(eff.kind, eff.name@, self.classes.deep_view()).len() as int,
            ),
    {
        let call_data = match &eff.data {
            EffectData::Call(call_data) => call_data,
            EffectData::Empty => {
                return;
            },
        };
        let list = iter_callees(eff, &self.classes);
        let found = self.mutation_candidate_scope(scope, modules, import_graph);
        let ghost all = callees(eff.kind, eff.name@, self.classes.deep_view());
        let ghost start = res.deep_view();
        let ghost view = eff.deep_view();
        let ghost call = call_data.deep_view();
        for c in 0..list.len()
            invariant
                modules@ == self.analysis_map@.dom(),
                view == eff.deep_view(),
                call == call_data.deep_view(),
                all == callees(view.kind, view.name, self.classes.deep_view()),
                all == callee_views(list@),
                match found {
                    Some(found) => enclosing_module(scope@, modules@) == enclosing_view(
                        Some((found.module, found.caller_function)),
                    ) && set_view(found.missing) == set_at(import_graph.missing(), found.module@)
                        && set_view(found.ambiguous) == set_at(
                        import_graph.ambiguous(),
                        found.module@,
                    ),
                    None => match enclosing_module(scope@, modules@) {
                        Some((module, _)) => !import_graph.missing().contains_key(module)
                            && !import_graph.ambiguous().contains_key(module),
                        None => true,
                    },
                },
                res.deep_view() == candidates_of_call(
                    self,
                    import_graph,
                    scope@,
                    view,
                    call,
                    start,
                    c as int,
                ),
        {
            let callee = &list[c].0;
            let arg_offset: usize = list[c].1;
            proof {
                assert(all[c as int] == (callee@, arg_offset));
                lemma_nothing_known(callee@, crate::module_name::dots_from_last(callee@), 0);
            }
            if !self.functions.contains_key(callee) && !self.mutated_params.contains_key(callee) {
                if let Some(found) = &found {
                    if callee_is_unresolved(callee, found.missing, found.ambiguous) {
                        let site = match &found.caller_function {
                            Some(name) => MutationCandidateSite::Function {
                                name: ModuleName::from_str(name.as_str()),
                            },
                            None => MutationCandidateSite::ModuleScope { call: eff.name.clone() },
                        };
                        let candidate = MutationCandidate {
                            callee: callee.clone(),
                            site,
                            arg_offset,
                            imported_args: call_data.imported_args().clone(),
                        };
                        add_candidate(res, &found.module, candidate);
                    }
                }
            }
        }
    }

    /// Collects the calls that pass imported objects to callees that are none of the project's,
    /// but are imported from elsewhere, by module.
    pub fn collect_mutation_candidates(&self, import_graph: &ImportGraph) -> (res: NameMap<
        Vec<MutationCandidate>,
    >)
        ensures
            res.deep_view() == all_candidates(self, import_graph),
    {
        let modules = self.module_names();
        let mut res: NameMap<Vec<MutationCandidate>> = NameMap::new();
        let n: usize = self.effect_table.len();
        proof {
            assert(res.deep_view() =~= Map::empty());
        }
        for i in 0..n
            invariant
                n == self.effect_table.effects().keys().len(),
                self.effect_table.effects().ordered(),
                modules@ == self.analysis_map@.dom(),
                res.deep_view() == candidates_of(self, import_graph, i as int),
        {
            let scope = self.effect_table.key_at(i);
            let effs = self.effect_table.value_at(i);
            let ghost known = res.deep_view();
            let ghost all = effs.deep_view();
            proof {
                assert(all == self.effect_table.deep_view()[scope@]);
            }
            for j in 0..effs.len()
                invariant
                    modules@ == self.analysis_map@.dom(),
                    all == effs.deep_view(),
                    res.deep_view() == candidates_of_effects(
                        self,
                        import_graph,
                        scope@,
                        all,
                        known,
                        j as int,
                    ),
            {
                let eff = &effs[j];
                if let EffectData::Call(call_data) = &eff.data {
                    if call_data.has_unsafe_args() {
                        self.add_call_candidates(import_graph, &modules, scope, eff, &mut res);
                    }
                }
            }
        }
        res
    }
}

} // verus!
