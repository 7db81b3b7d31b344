//! What an analysis finds of a module.

use crate::effects::{ImportedArgs, ImportedArgsView};
use crate::errors::{ErrorView, SafetyError};
use crate::module_name::{texts, ModuleName};
use crate::name_map::NameMap;
use crate::name_set::NameSet;
use vstd::prelude::*;

verus! {

/// How safe it is to call a function while its module is imported lazily, from the safest to the
/// least safe.
#[derive(Debug, PartialEq, Eq, Structural, PartialOrd, Ord, Hash, Copy, Clone)]
pub enum FunctionSafety {
    /// Always safe to call.
    Safe,
    /// Safe in its own module, unsafe when called from another.
    UnsafeIfImported,
    /// Unsafe only because something that it calls was not found. It may turn out to be safe once
    /// other libraries are known.
    UnsafeMissingDep,
    /// Always unsafe to call.
    Unsafe,
}

impl FunctionSafety {
    /// The place of the verdict in the order from safe to unsafe.
    pub open spec fn place(self) -> int {
        match self {
            FunctionSafety::Safe => 0,
            FunctionSafety::UnsafeIfImported => 1,
            FunctionSafety::UnsafeMissingDep => 2,
            FunctionSafety::Unsafe => 3,
        }
    }

    /// The less safe of two verdicts.
    pub open spec fn worse(self, other: FunctionSafety) -> FunctionSafety {
        if self.place() >= other.place() {
            self
        } else {
            other
        }
    }

    fn rank(&self) -> (res: u8)
        ensures
            res == self.place(),
    {
        match self {
            FunctionSafety::Safe => 0,
            FunctionSafety::UnsafeIfImported => 1,
            FunctionSafety::UnsafeMissingDep => 2,
            FunctionSafety::Unsafe => 3,
        }
    }

    /// Whether the verdict is less safe than another.
    pub fn is_worse_than(self, other: FunctionSafety) -> (res: bool)
        ensures
            res == (self.place() > other.place()),
    {
        self.rank() > other.rank()
    }

    /// The less safe of two verdicts.
    pub fn worst(self, other: FunctionSafety) -> (res: FunctionSafety)
        ensures
            res == self.worse(other),
    {
        if self.rank() >= other.rank() {
            self
        } else {
            other
        }
    }
}

/// What is known of a function.
pub struct FunctionSafetyInfo {
    pub verdict: FunctionSafety,
    /// The callees that were not found, where the verdict is `UnsafeMissingDep`.
    pub missing_dep_callees: NameSet,
    /// The parameters that the function mutates, itself or through what it calls, each with its
    /// position, where a positional argument can fill it.
    pub mutated_params: NameMap<Option<usize>>,
}

/// What a [`FunctionSafetyInfo`] is.
pub struct FunctionInfoView {
    pub verdict: FunctionSafety,
    pub missing_dep_callees: Set<Seq<char>>,
    pub mutated_params: Map<Seq<char>, Option<usize>>,
}

impl DeepView for FunctionSafetyInfo {
    type V = FunctionInfoView;

    open spec fn deep_view(&self) -> FunctionInfoView {
        FunctionInfoView {
            verdict: self.verdict,
            missing_dep_callees: self.missing_dep_callees@,
            mutated_params: self.mutated_params@,
        }
    }
}

impl FunctionInfoView {
    /// A verdict without anything else.
    pub open spec fn plain(verdict: FunctionSafety) -> FunctionInfoView {
        FunctionInfoView {
            verdict,
            missing_dep_callees: Set::empty(),
            mutated_params: Map::empty(),
        }
    }

    /// What is known of a function from two sources: the worse verdict, and all that either
    /// names. Where both give a position for a parameter, the second one counts.
    pub open spec fn merged(self, other: FunctionInfoView) -> FunctionInfoView {
        FunctionInfoView {
            verdict: self.verdict.worse(other.verdict),
            missing_dep_callees: self.missing_dep_callees.union(other.missing_dep_callees),
            mutated_params: self.mutated_params.union_prefer_right(other.mutated_params),
        }
    }
}

impl FunctionSafetyInfo {
    pub fn new(verdict: FunctionSafety) -> (res: FunctionSafetyInfo)
        ensures
            res.deep_view() == FunctionInfoView::plain(verdict),
    {
        FunctionSafetyInfo {
            verdict,
            missing_dep_callees: NameSet::new(),
            mutated_params: NameMap::new(),
        }
    }

    pub fn unsafe_missing_dep(callee: ModuleName) -> (res: FunctionSafetyInfo)
        ensures
            res.deep_view() == (FunctionInfoView {
                missing_dep_callees: set![callee@],
                ..FunctionInfoView::plain(FunctionSafety::UnsafeMissingDep)
            }),
    {
        let mut missing = NameSet::new();
        let _ = missing.insert(callee);
        proof {
            assert(missing@ =~= set![callee@]);
        }
        FunctionSafetyInfo {
            verdict: FunctionSafety::UnsafeMissingDep,
            missing_dep_callees: missing,
            mutated_params: NameMap::new(),
        }
    }

    pub fn merge(&mut self, other: FunctionSafetyInfo)
        ensures
            final(self).deep_view() == old(self).deep_view().merged(other.deep_view()),
    {
        self.verdict = self.verdict.worst(other.verdict);
        self.missing_dep_callees.extend(&other.missing_dep_callees);
        self.mutated_params.extend(other.mutated_params);
    }
}

impl Clone for FunctionSafetyInfo {
    fn clone(&self) -> (res: FunctionSafetyInfo)
        ensures
            res.deep_view() == self.deep_view(),
    {
        FunctionSafetyInfo {
            verdict: self.verdict,
            missing_dep_callees: self.missing_dep_callees.clone(),
            mutated_params: self.mutated_params.duplicate(),
        }
    }
}

/// A copy of what is known of functions.
pub fn copy_functions(functions: &NameMap<FunctionSafetyInfo>) -> (res: NameMap<FunctionSafetyInfo>)
    ensures
        res.deep_view() == functions.deep_view(),
{
    let mut res: NameMap<FunctionSafetyInfo> = NameMap::new();
    let n: usize = functions.len();
    let ghost all = functions.deep_view();
    let ghost keys = functions.keys();
    proof {
        assert(res.deep_view() =~= all.restrict(keys.take(0).to_set()));
    }
    for i in 0..n
        invariant
            n == keys.len(),
            keys == functions.keys(),
            functions.ordered(),
            all == functions.deep_view(),
            res.deep_view() == all.restrict(keys.take(i as int).to_set()),
    {
        proof {
            crate::name_set::lemma_take_more(keys, i as int);
        }
        let ghost before = res.deep_view();
        let _ = res.insert(functions.key_at(i).clone(), functions.value_at(i).clone());
        proof {
            assert(res.deep_view() =~= before.insert(keys[i as int], all[keys[i as int]]));
            assert(res.deep_view() =~= all.restrict(keys.take(i + 1).to_set()));
        }
    }
    proof {
        assert(keys.take(n as int) =~= keys);
        assert(all.restrict(keys.to_set()) =~= all) by {
            assert forall|k: Seq<char>| all.contains_key(k) implies keys.to_set().contains(k) by {
                assert(functions@.contains_key(k));
            }
        }
    }
    res
}

/// A copy of candidates.
pub fn copy_candidates(candidates: &Vec<MutationCandidate>) -> (res: Vec<MutationCandidate>)
    ensures
        res.deep_view() == candidates.deep_view(),
{
    let mut res: Vec<MutationCandidate> = Vec::new();
    for i in 0..candidates.len()
        invariant
            res.deep_view() == candidates.deep_view().take(i as int),
    {
        let ghost before = res.deep_view();
        res.push(candidates[i].clone());
        proof {
            assert(res.deep_view() =~= before.push(candidates@[i as int].deep_view()));
            assert(res.deep_view() =~= candidates.deep_view().take(i + 1));
        }
    }
    proof {
        assert(candidates.deep_view().take(candidates@.len() as int) =~= candidates.deep_view());
        assert(res.deep_view() =~= candidates.deep_view());
    }
    res
}

/// Where a call stands that may mutate an imported object.
pub enum MutationCandidateSite {
    /// At module scope. If the call does mutate the object, the module has an error, with the
    /// callee as it is written.
    ModuleScope { call: ModuleName },
    /// In a function of the module. If the call does mutate the object, the function is unsafe.
    Function { name: ModuleName },
}

/// What a [`MutationCandidateSite`] is.
pub enum SiteView {
    ModuleScope(Seq<char>),
    Function(Seq<char>),
}

impl DeepView for MutationCandidateSite {
    type V = SiteView;

    open spec fn deep_view(&self) -> SiteView {
        match self {
            MutationCandidateSite::ModuleScope { call } => SiteView::ModuleScope(call@),
            MutationCandidateSite::Function { name } => SiteView::Function(name@),
        }
    }
}

impl Clone for MutationCandidateSite {
    fn clone(&self) -> (res: MutationCandidateSite)
        ensures
            res == *self,
    {
        match self {
            MutationCandidateSite::ModuleScope { call } => MutationCandidateSite::ModuleScope {
                call: call.clone(),
            },
            MutationCandidateSite::Function { name } => MutationCandidateSite::Function {
                name: name.clone(),
            },
        }
    }
}

/// A call that passes an imported object to a callee that was not found in the library.
pub struct MutationCandidate {
    /// The full name of the callee.
    pub callee: ModuleName,
    /// Where the call stands.
    pub site: MutationCandidateSite,
    /// How many implicit arguments (`self`, `cls`) come before those at the call.
    pub arg_offset: usize,
    /// The imported objects among the arguments.
    pub imported_args: ImportedArgs,
}

/// What a [`MutationCandidate`] is.
pub struct CandidateView {
    pub callee: Seq<char>,
    pub site: SiteView,
    pub arg_offset: usize,
    pub imported_args: ImportedArgsView,
}

impl DeepView for MutationCandidate {
    type V = CandidateView;

    open spec fn deep_view(&self) -> CandidateView {
        CandidateView {
            callee: self.callee@,
            site: self.site.deep_view(),
            arg_offset: self.arg_offset,
            imported_args: self.imported_args.deep_view(),
        }
    }
}

impl Clone for MutationCandidate {
    fn clone(&self) -> (res: MutationCandidate)
        ensures
            res.deep_view() == self.deep_view(),
    {
        MutationCandidate {
            callee: self.callee.clone(),
            site: self.site.clone(),
            arg_offset: self.arg_offset,
            imported_args: self.imported_args.clone(),
        }
    }
}

/// What an analysis found of a module.
pub struct ModuleSafety {
    /// Why the module cannot be imported lazily.
    pub errors: Vec<SafetyError>,
    /// Why the module has to import its own imports eagerly.
    pub force_imports_eager_overrides: Vec<SafetyError>,
    /// The modules that it uses without importing them.
    pub implicit_imports: Vec<ModuleName>,
    /// What is known of its functions, by their names in the module.
    pub function_safety: NameMap<FunctionSafetyInfo>,
    /// Its calls that pass imported objects to callees that were not found.
    pub mutation_candidates: Vec<MutationCandidate>,
}

/// What a [`ModuleSafety`] is.
pub struct SafetyView {
    pub errors: Seq<ErrorView>,
    pub overrides: Seq<ErrorView>,
    pub implicit_imports: Seq<Seq<char>>,
    pub function_safety: Map<Seq<char>, FunctionInfoView>,
    pub mutation_candidates: Seq<CandidateView>,
}

impl DeepView for ModuleSafety {
    type V = SafetyView;

    open spec fn deep_view(&self) -> SafetyView {
        SafetyView {
            errors: self.errors.deep_view(),
            overrides: self.force_imports_eager_overrides.deep_view(),
            implicit_imports: texts(self.implicit_imports@),
            function_safety: self.function_safety.deep_view(),
            mutation_candidates: self.mutation_candidates.deep_view(),
        }
    }
}

impl SafetyView {
    /// Nothing was found.
    pub open spec fn clean() -> SafetyView {
        SafetyView {
            errors: Seq::empty(),
            overrides: Seq::empty(),
            implicit_imports: Seq::empty(),
            function_safety: Map::empty(),
            mutation_candidates: Seq::empty(),
        }
    }

    /// Every reason to import eagerly is of a kind that asks for it.
    pub open spec fn well_formed(self) -> bool {
        forall|i: int|
            0 <= i < self.overrides.len() ==> (#[trigger] self.overrides[i]).kind.forces_eager_imports()
    }
}

impl ModuleSafety {
    pub fn new() -> (res: ModuleSafety)
        ensures
            res.deep_view() == SafetyView::clean(),
            res.deep_view().well_formed(),
    {
        let res = ModuleSafety {
            errors: Vec::new(),
            force_imports_eager_overrides: Vec::new(),
            implicit_imports: Vec::new(),
            function_safety: NameMap::new(),
            mutation_candidates: Vec::new(),
        };
        proof {
            let v = res.deep_view();
            assert(v.errors =~= Seq::empty());
            assert(v.overrides =~= Seq::empty());
            assert(v.implicit_imports =~= Seq::empty());
            assert(v.function_safety =~= Map::empty());
            assert(v.mutation_candidates =~= Seq::empty());
        }
        res
    }

    pub fn is_safe(&self) -> (res: bool)
        ensures
            res == (self.deep_view().errors.len() == 0),
    {
        self.errors.len() == 0
    }

    pub fn has_implicit_imports(&self) -> (res: bool)
        ensures
            res == (self.deep_view().implicit_imports.len() > 0),
    {
        self.implicit_imports.len() > 0
    }

    pub fn should_load_imports_eagerly(&self) -> (res: bool)
        ensures
            res == (self.deep_view().overrides.len() > 0),
    {
        self.force_imports_eager_overrides.len() > 0
    }

    pub fn add_error(&mut self, error: SafetyError)
        ensures
            final(self).deep_view() == (SafetyView {
                errors: old(self).deep_view().errors.push(error.deep_view()),
                ..old(self).deep_view()
            }),
    {
        let ghost before = self.deep_view();
        self.errors.push(error);
        proof {
            assert(self.deep_view().errors =~= before.errors.push(error.deep_view()));
        }
    }

    /// Adds a reason to import eagerly.
    pub fn add_force_import_override(&mut self, error: SafetyError)
        requires
            error.kind.forces_eager_imports(),
        ensures
            final(self).deep_view() == (SafetyView {
                overrides: old(self).deep_view().overrides.push(error.deep_view()),
                ..old(self).deep_view()
            }),
            old(self).deep_view().well_formed() ==> final(self).deep_view().well_formed(),
    {
        let ghost before = self.deep_view();
        self.force_imports_eager_overrides.push(error);
        proof {
            assert(self.deep_view().overrides =~= before.overrides.push(error.deep_view()));
        }
    }

    /// Adds modules that are used without being imported, in the order of the set.
    pub fn add_implicit_imports(&mut self, implicit_imports: &NameSet)
        ensures
            final(self).deep_view() == (SafetyView {
                implicit_imports: old(self).deep_view().implicit_imports + implicit_imports.items(),
                ..old(self).deep_view()
            }),
    {
        let ghost before = self.deep_view();
        let n: usize = implicit_imports.len();
        for i in 0..n
            invariant
                n == implicit_imports.items().len(),
                before == old(self).deep_view(),
                self.deep_view() == (SafetyView {
                    implicit_imports: before.implicit_imports + implicit_imports.items().take(i as int),
                    ..before
                }),
        {
            let ghost so_far = self.deep_view();
            self.implicit_imports.push(implicit_imports.at(i));
            proof {
                assert(self.deep_view().implicit_imports =~= so_far.implicit_imports.push(
                    implicit_imports.items()[i as int],
                ));
                assert(self.deep_view().implicit_imports =~= before.implicit_imports
                    + implicit_imports.items().take(i + 1));
            }
        }
        proof {
            assert(implicit_imports.items().take(n as int) =~= implicit_imports.items());
            assert(before.implicit_imports + implicit_imports.items().take(0)
                =~= before.implicit_imports);
        }
    }
}

/// What came of the analysis of a module.
pub enum SafetyResult {
    Analyzed(ModuleSafety),
    /// The module could not be analyzed, for the reason that is given.
    AnalysisError(String),
}

/// What a [`SafetyResult`] is.
pub enum ResultView {
    Analyzed(SafetyView),
    Failed(Seq<char>),
}

impl DeepView for SafetyResult {
    type V = ResultView;

    open spec fn deep_view(&self) -> ResultView {
        match self {
            SafetyResult::Analyzed(safety) => ResultView::Analyzed(safety.deep_view()),
            SafetyResult::AnalysisError(reason) => ResultView::Failed(reason@),
        }
    }
}

impl SafetyResult {
    pub fn as_safety(&self) -> (res: Option<&ModuleSafety>)
        ensures
            res == (match self {
                SafetyResult::Analyzed(safety) => Some(safety),
                SafetyResult::AnalysisError(_) => None,
            }),
    {
        match self {
            SafetyResult::Analyzed(safety) => Some(safety),
            SafetyResult::AnalysisError(_) => None,
        }
    }

    pub fn as_safety_mut(&mut self) -> (res: Option<&mut ModuleSafety>)
        ensures
            match *old(self) {
                SafetyResult::Analyzed(safety) => match res {
                    Some(found) => *found == safety && *final(self) == SafetyResult::Analyzed(
                        *final(found),
                    ),
                    None => false,
                },
                SafetyResult::AnalysisError(_) => res is None && *final(self) == *old(self),
            },
    {
        match self {
            SafetyResult::Analyzed(safety) => Some(safety),
            SafetyResult::AnalysisError(_) => None,
        }
    }
}

/// The merge of verdicts is commutative, associative and idempotent, and never makes a function
/// safer.
pub proof fn verdicts_merge_to_the_worst(a: FunctionSafety, b: FunctionSafety, c: FunctionSafety)
    ensures
        a.worse(b) == b.worse(a),
        a.worse(b).worse(c) == a.worse(b.worse(c)),
        a.worse(a) == a,
        a.worse(b).place() >= a.place(),
        a.worse(b).place() >= b.place(),
{
}

/// Merging what is known of a function with itself changes nothing, and merging is associative.
pub proof fn function_infos_merge(a: FunctionInfoView, b: FunctionInfoView, c: FunctionInfoView)
    ensures
        a.merged(a) == a,
        a.merged(b).merged(c) == a.merged(b.merged(c)),
{
    assert(a.missing_dep_callees.union(a.missing_dep_callees) =~= a.missing_dep_callees);
    assert(a.mutated_params.union_prefer_right(a.mutated_params) =~= a.mutated_params);
    assert(a.missing_dep_callees.union(b.missing_dep_callees).union(c.missing_dep_callees)
        =~= a.missing_dep_callees.union(b.missing_dep_callees.union(c.missing_dep_callees)));
    assert(a.mutated_params.union_prefer_right(b.mutated_params).union_prefer_right(c.mutated_params)
        =~= a.mutated_params.union_prefer_right(b.mutated_params.union_prefer_right(c.mutated_params)));
}

} // verus!
