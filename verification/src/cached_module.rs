//! What a cache keeps of a module.

use crate::errors::{ErrorKind, ErrorView, SafetyError};
use crate::imports::{known_module, resolve_to_known_module};
use crate::module_name::{
    clone_names, compare_text, in_text_order, sort_names, text_less, text_order_is_total,
    text_order_is_transitive, texts, trim_brackets, without_brackets, ModuleName,
};
use crate::module_safety::{
    CandidateView, FunctionInfoView, FunctionSafetyInfo, ModuleSafety, MutationCandidate,
    SafetyResult, SafetyView,
};
use crate::name_map::NameMap;
use crate::name_set::NameSet;
use crate::text_range::TextRange;
use crate::verdicts::{
    is_call_verified_safe, is_call_verified_safe_indexed, safe_somewhere, verdicts, verified,
    FunctionTable, Verdicts,
};
use vstd::prelude::*;

verus! {

/// A safety error without its place in the source.
pub struct CachedError {
    pub kind: ErrorKind,
    pub metadata: String,
}

impl DeepView for CachedError {
    type V = (ErrorKind, Seq<char>);

    open spec fn deep_view(&self) -> (ErrorKind, Seq<char>) {
        (self.kind, self.metadata@)
    }
}

/// Errors in a cache are ordered by kind, then by text.
pub open spec fn cached_less(a: (ErrorKind, Seq<char>), b: (ErrorKind, Seq<char>)) -> bool {
    a.0.place() < b.0.place() || (a.0 == b.0 && text_less(a.1, b.1))
}

/// Errors in strict order: sorted, and none twice.
pub open spec fn strictly_sorted(errors: Seq<(ErrorKind, Seq<char>)>) -> bool {
    forall|i: int, j: int|
        0 <= i < j < errors.len() ==> cached_less(#[trigger] errors[i], #[trigger] errors[j])
}

/// The order of errors in a cache.
pub proof fn lemma_cached_order(
    a: (ErrorKind, Seq<char>),
    b: (ErrorKind, Seq<char>),
    c: (ErrorKind, Seq<char>),
)
    ensures
        cached_less(a, b) && cached_less(b, c) ==> cached_less(a, c),
        !cached_less(a, b) && !cached_less(b, a) ==> a == b,
        !(cached_less(a, b) && cached_less(b, a)),
{
    text_order_is_total(a.1, b.1);
    if a.0 == b.0 && b.0 == c.0 && text_less(a.1, b.1) && text_less(b.1, c.1) {
        text_order_is_transitive(a.1, b.1, c.1);
    }
}

impl CachedError {
    pub fn from_safety_error(error: &SafetyError) -> (res: CachedError)
        ensures
            res.deep_view() == (error.kind, error.metadata@),
    {
        CachedError { kind: error.kind, metadata: error.metadata.as_str().to_owned() }
    }

    pub fn to_safety_error(&self) -> (res: SafetyError)
        ensures
            res.deep_view() == error_without_place(self.deep_view()),
    {
        SafetyError::new(self.kind, self.metadata.clone(), TextRange::default())
    }

    fn precedes(&self, other: &CachedError) -> (res: bool)
        ensures
            res == cached_less(self.deep_view(), other.deep_view()),
    {
        if self.kind == other.kind {
            compare_text(self.metadata.as_str(), other.metadata.as_str())
        } else {
            self.kind.comes_before(other.kind)
        }
    }
}

/// An error of a cache as a safety error at no particular place.
pub open spec fn error_without_place(e: (ErrorKind, Seq<char>)) -> ErrorView {
    ErrorView { kind: e.0, metadata: e.1, range: (TextRange { start: 0, end: 0 }) }
}

/// Adds an error to a sorted list, where it is not yet there.
fn insert_error(errors: &mut Vec<CachedError>, error: CachedError)
    requires
        strictly_sorted(old(errors).deep_view()),
    ensures
        strictly_sorted(final(errors).deep_view()),
        final(errors).deep_view().to_set() == old(errors).deep_view().to_set().insert(
            error.deep_view(),
        ),
{
    let ghost before = errors.deep_view();
    let ghost new = error.deep_view();
    let mut i: usize = 0;
    while i < errors.len() && errors[i].precedes(&error)
        invariant
            i <= errors@.len(),
            before == errors.deep_view(),
            new == error.deep_view(),
            forall|j: int| 0 <= j < i ==> cached_less(#[trigger] before[j], new),
        decreases errors@.len() - i,
    {
        i = i + 1;
    }
    if i < errors.len() && !error.precedes(&errors[i]) {
        proof {
            lemma_cached_order(before[i as int], new, new);
            assert(before[i as int] == new);
            assert(before.to_set() =~= before.to_set().insert(new));
        }
        return;
    }
    errors.insert(i, error);
    proof {
        let after = errors.deep_view();
        assert(after =~= before.insert(i as int, new));
        assert forall|j: int, k: int| 0 <= j < k < after.len() implies cached_less(
            #[trigger] after[j],
            #[trigger] after[k],
        ) by {
            if k < i {
                assert(after[j] == before[j] && after[k] == before[k]);
            } else if k == i {
                assert(after[j] == before[j]);
            } else {
                assert(after[k] == before[k - 1]);
                if j < i {
                    assert(after[j] == before[j]);
                } else if j > i {
                    assert(after[j] == before[j - 1]);
                } else {
                    if k - 1 > i {
                        lemma_cached_order(new, before[i as int], before[k - 1]);
                    }
                }
            }
        }
        assert forall|e: (ErrorKind, Seq<char>)|
            after.to_set().contains(e) <==> before.to_set().insert(new).contains(e) by {
            if before.contains(e) {
                let j = before.index_of(e);
                if j < i {
                    assert(after[j] == e);
                } else {
                    assert(after[j + 1] == e);
                }
            }
            assert(after[i as int] == new);
            if after.contains(e) {
                let j = after.index_of(e);
                if j < i {
                    assert(before[j] == e);
                } else if j > i {
                    assert(before[j - 1] == e);
                }
            }
        }
        assert(after.to_set() =~= before.to_set().insert(new));
    }
}

/// Adds errors to others. The result is sorted, and has none twice.
pub fn merge_errors(target: &mut Vec<CachedError>, other: Vec<CachedError>)
    ensures
        strictly_sorted(final(target).deep_view()),
        final(target).deep_view().to_set() == old(target).deep_view().to_set().union(
            other.deep_view().to_set(),
        ),
{
    let mut first: Vec<CachedError> = Vec::new();
    std::mem::swap(target, &mut first);
    let ghost a = first.deep_view();
    let ghost b = other.deep_view();
    let ghost one = first@;
    let ghost two = other@;
    proof {
        assert(target.deep_view() =~= Seq::empty());
        assert(a.take(0).to_set() =~= Set::empty());
        assert(target.deep_view().to_set() =~= Set::empty());
    }
    for error in it: first
        invariant
            it.seq() == one,
            a.len() == one.len(),
            a == Seq::new(one.len(), |i: int| one[i].deep_view()),
            strictly_sorted(target.deep_view()),
            target.deep_view().to_set() == a.take(it.index() as int).to_set(),
    {
        let ghost i = it.index() as int;
        proof {
            crate::name_set::lemma_take_more(a, i);
            assert(a[i] == error.deep_view());
        }
        insert_error(target, error);
    }
    proof {
        assert(a.take(a.len() as int) =~= a);
        assert(a.to_set().union(b.take(0).to_set()) =~= a.to_set());
    }
    for error in it: other
        invariant
            it.seq() == two,
            b.len() == two.len(),
            b == Seq::new(two.len(), |i: int| two[i].deep_view()),
            strictly_sorted(target.deep_view()),
            target.deep_view().to_set() == a.to_set().union(b.take(it.index() as int).to_set()),
    {
        let ghost i = it.index() as int;
        proof {
            crate::name_set::lemma_take_more(b, i);
            assert(b[i] == error.deep_view());
            assert(a.to_set().union(b.take(i + 1).to_set()) =~= a.to_set().union(
                b.take(i).to_set(),
            ).insert(b[i]));
        }
        insert_error(target, error);
    }
    proof {
        assert(b.take(b.len() as int) =~= b);
    }
}

/// Names in strict order: sorted, and none twice.
pub open spec fn strict_text_order(s: Seq<Seq<char>>) -> bool {
    forall|i: int, j: int| 0 <= i < j < s.len() ==> text_less(#[trigger] s[i], #[trigger] s[j])
}

/// Names sorted, and none twice.
pub fn sort_and_dedup_names(names: &Vec<ModuleName>) -> (res: Vec<ModuleName>)
    ensures
        strict_text_order(texts(res@)),
        texts(res@).to_set() == texts(names@).to_set(),
{
    let sorted = sort_names(names);
    let ghost all = texts(sorted@);
    let mut res: Vec<ModuleName> = Vec::new();
    proof {
        all.to_multiset_ensures();
        texts(names@).to_multiset_ensures();
        assert forall|x: Seq<char>| all.to_set().contains(x) <==> texts(names@).to_set().contains(x) by {
            assert(all.contains(x) <==> all.to_multiset().count(x) > 0);
            assert(texts(names@).contains(x) <==> texts(names@).to_multiset().count(x) > 0);
        }
        assert(all.to_set() =~= texts(names@).to_set());
        assert(texts(res@) =~= Seq::empty());
        assert(all.take(0) =~= Seq::empty());
    }
    for i in 0..sorted.len()
        invariant
            all == texts(sorted@),
            in_text_order(all),
            strict_text_order(texts(res@)),
            texts(res@).to_set() == all.take(i as int).to_set(),
            i > 0 ==> res@.len() > 0 && texts(res@).last() == all[i - 1],
            i == 0 ==> res@.len() == 0,
    {
        let ghost before = texts(res@);
        proof {
            crate::name_set::lemma_take_more(all, i as int);
        }
        let repeated = res.len() > 0 && res[res.len() - 1].same(&sorted[i]);
        if repeated {
            proof {
                assert(before.contains(before.last()));
                assert(before.to_set() =~= before.to_set().insert(all[i as int]));
            }
        } else {
            res.push(sorted[i].clone());
            proof {
                let new = all[i as int];
                assert(texts(res@) =~= before.push(new));
                assert forall|j: int, k: int| 0 <= j < k < texts(res@).len() implies text_less(
                    #[trigger] texts(res@)[j],
                    #[trigger] texts(res@)[k],
                ) by {
                    if k == before.len() {
                        assert(i > 0);
                        assert(!text_less(all[i as int], all[i - 1]));
                        text_order_is_total(all[i - 1], new);
                        if j < before.len() - 1 {
                            assert(text_less(before[j], before.last()));
                            text_order_is_transitive(before[j], before.last(), new);
                        }
                    } else {
                        assert(text_less(before[j], before[k]));
                    }
                }
                assert forall|x: Seq<char>| texts(res@).to_set().contains(x) <==> before.to_set().insert(
                    new,
                ).contains(x) by {
                    assert(texts(res@)[before.len() as int] == new);
                    if before.contains(x) {
                        assert(texts(res@)[before.index_of(x)] == x);
                    }
                }
                assert(texts(res@).to_set() =~= before.to_set().insert(new));
            }
        }
    }
    proof {
        assert(all.take(all.len() as int) =~= all);
    }
    res
}

/// What a cache keeps of the safety of a module that could be analyzed.
pub struct CachedModuleSafety {
    pub errors: Vec<CachedError>,
    pub force_imports_eager_overrides: Vec<CachedError>,
    pub implicit_imports: Vec<ModuleName>,
}

/// What a [`CachedModuleSafety`] is.
pub struct CachedSafetyView {
    pub errors: Seq<(ErrorKind, Seq<char>)>,
    pub overrides: Seq<(ErrorKind, Seq<char>)>,
    pub implicit_imports: Seq<Seq<char>>,
}

impl DeepView for CachedModuleSafety {
    type V = CachedSafetyView;

    open spec fn deep_view(&self) -> CachedSafetyView {
        CachedSafetyView {
            errors: self.errors.deep_view(),
            overrides: self.force_imports_eager_overrides.deep_view(),
            implicit_imports: texts(self.implicit_imports@),
        }
    }
}

impl CachedSafetyView {
    /// Nothing was found.
    pub open spec fn clean() -> CachedSafetyView {
        CachedSafetyView {
            errors: Seq::empty(),
            overrides: Seq::empty(),
            implicit_imports: Seq::empty(),
        }
    }

    /// Every reason to import eagerly is of a kind that asks for it.
    pub open spec fn well_formed(self) -> bool {
        forall|i: int|
            0 <= i < self.overrides.len() ==> (#[trigger] self.overrides[i]).0.forces_eager_imports()
    }

    /// What is kept from two caches of one module: all that either has, sorted, and nothing twice.
    pub open spec fn is_merge(self, a: CachedSafetyView, b: CachedSafetyView) -> bool {
        &&& strictly_sorted(self.errors)
        &&& self.errors.to_set() == a.errors.to_set().union(b.errors.to_set())
        &&& strictly_sorted(self.overrides)
        &&& self.overrides.to_set() == a.overrides.to_set().union(b.overrides.to_set())
        &&& strict_text_order(self.implicit_imports)
        &&& self.implicit_imports.to_set() == a.implicit_imports.to_set().union(
            b.implicit_imports.to_set(),
        )
    }

    /// The errors that are left once those are gone that come from a call which is verified now.
    pub open spec fn without_verified(self, is_verified: spec_fn(Seq<char>) -> bool) -> CachedSafetyView {
        CachedSafetyView {
            errors: self.errors.filter(|e: (ErrorKind, Seq<char>)| stays(e, is_verified)),
            ..self
        }
    }
}

/// An error stays: it has nothing to do with a missing import, or the call is not verified.
pub open spec fn stays(e: (ErrorKind, Seq<char>), is_verified: spec_fn(Seq<char>) -> bool) -> bool {
    !e.0.may_lack_import() || !is_verified(without_brackets(e.1))
}

impl CachedModuleSafety {
    pub fn new() -> (res: CachedModuleSafety)
        ensures
            res.deep_view() == CachedSafetyView::clean(),
    {
        let res = CachedModuleSafety {
            errors: Vec::new(),
            force_imports_eager_overrides: Vec::new(),
            implicit_imports: Vec::new(),
        };
        proof {
            assert(res.deep_view().errors =~= Seq::empty());
            assert(res.deep_view().overrides =~= Seq::empty());
            assert(res.deep_view().implicit_imports =~= Seq::empty());
        }
        res
    }

    pub fn is_safe(&self) -> (res: bool)
        ensures
            res == (self.deep_view().errors.len() == 0),
    {
        self.errors.len() == 0
    }

    /// Whether every reason to import eagerly is of a kind that asks for it.
    pub fn is_well_formed(&self) -> (res: bool)
        ensures
            res == self.deep_view().well_formed(),
    {
        for i in 0..self.force_imports_eager_overrides.len()
            invariant
                forall|j: int|
                    0 <= j < i ==> (#[trigger] self.deep_view().overrides[j]).0.forces_eager_imports(),
        {
            proof {
                assert(self.deep_view().overrides[i as int].0 == self.force_imports_eager_overrides@[i as int].kind);
            }
            if !self.force_imports_eager_overrides[i].kind.requires_eager_loading_imports() {
                return false;
            }
        }
        true
    }

    pub fn should_load_imports_eagerly(&self) -> (res: bool)
        ensures
            res == (self.deep_view().overrides.len() > 0),
    {
        self.force_imports_eager_overrides.len() > 0
    }
}

/// A way to verify that a call is safe.
pub trait Verifier {
    /// A call of the given name is verified.
    spec fn verifies(&self, name: Seq<char>) -> bool;

    fn is_verified(&self, name: &str) -> (res: bool)
        ensures
            res == self.verifies(name@),
    ;
}

/// Verifies calls by a search of some modules.
pub struct SearchVerifier<'a> {
    pub modules: &'a NameSet,
    pub table: &'a FunctionTable,
}

impl<'a> Verifier for SearchVerifier<'a> {
    open spec fn verifies(&self, name: Seq<char>) -> bool {
        search_verifies(self.modules@, verdicts(self.table), name)
    }

    fn is_verified(&self, name: &str) -> (res: bool) {
        is_call_verified_safe(name, self.modules, self.table)
    }
}

/// A search of some modules verifies a call.
pub open spec fn search_verifies(modules: Set<Seq<char>>, table: Verdicts, name: Seq<char>) -> bool {
    verified(name, modules, table, safe_somewhere(name, modules, table))
}

/// Verifies calls with an index of safe names.
pub struct IndexVerifier<'a> {
    pub modules: &'a NameSet,
    pub table: &'a FunctionTable,
    pub index: &'a NameSet,
}

impl<'a> Verifier for IndexVerifier<'a> {
    open spec fn verifies(&self, name: Seq<char>) -> bool {
        index_verifies(self.modules@, verdicts(self.table), self.index@, name)
    }

    fn is_verified(&self, name: &str) -> (res: bool) {
        is_call_verified_safe_indexed(name, self.modules, self.table, self.index)
    }
}

/// A lookup in an index of safe names verifies a call.
pub open spec fn index_verifies(
    modules: Set<Seq<char>>,
    table: Verdicts,
    index: Set<Seq<char>>,
    name: Seq<char>,
) -> bool {
    verified(name, modules, table, index.contains(name))
}

/// Drops the errors that come from a call which is verified now. The result says whether there
/// were any.
pub fn retain_unverified_errors<F: Verifier>(safety: &mut CachedModuleSafety, verifier: &F) -> (res: bool)
    ensures
        final(safety).deep_view() == old(safety).deep_view().without_verified(
            |name: Seq<char>| verifier.verifies(name),
        ),
        res == (final(safety).deep_view().errors.len() < old(safety).deep_view().errors.len()),
{
    let mut errors: Vec<CachedError> = Vec::new();
    std::mem::swap(&mut safety.errors, &mut errors);
    let ghost all = errors.deep_view();
    let ghost items = errors@;
    let ghost is_verified = |name: Seq<char>| verifier.verifies(name);
    let ghost keep = |e: (ErrorKind, Seq<char>)| stays(e, is_verified);
    let before: usize = errors.len();
    let mut kept: Vec<CachedError> = Vec::new();
    proof {
        reveal(Seq::filter);
        assert(all.take(0).filter(keep) =~= Seq::empty());
        assert(kept.deep_view() =~= Seq::empty());
    }
    for error in it: errors
        invariant
            it.seq() == items,
            all.len() == items.len(),
            all == Seq::new(items.len(), |i: int| items[i].deep_view()),
            is_verified == (|name: Seq<char>| verifier.verifies(name)),
            keep == (|e: (ErrorKind, Seq<char>)| stays(e, is_verified)),
            kept.deep_view() == all.take(it.index() as int).filter(keep),
            kept@.len() <= it.index(),
    {
        let ghost i = it.index() as int;
        let ghost so_far = kept.deep_view();
        proof {
            reveal(Seq::filter);
            assert(all.take(i + 1).drop_last() =~= all.take(i));
            assert(all.take(i + 1).last() == error.deep_view());
        }
        let gone = error.kind.could_be_caused_by_missing_import() && verifier.is_verified(
            trim_brackets(error.metadata.as_str()).as_str(),
        );
        if !gone {
            kept.push(error);
            proof {
                assert(kept.deep_view() =~= so_far.push(error.deep_view()));
            }
        }
    }
    proof {
        assert(all.take(all.len() as int) =~= all);
    }
    let after: usize = kept.len();
    safety.errors = kept;
    after < before
}

/// The known module that a name lies in, or else the name itself.
pub open spec fn known_or_self(name: Seq<char>, known: Set<Seq<char>>) -> Seq<char> {
    match known_module(name, known) {
        Some(m) => m,
        None => name,
    }
}

/// A sequence in which only the first of equal items is kept.
pub open spec fn without_repeats<T>(s: Seq<T>) -> Seq<T>
    decreases s.len(),
{
    if s.len() == 0 {
        s
    } else {
        let earlier = without_repeats(s.drop_last());
        if earlier.contains(s.last()) {
            earlier
        } else {
            earlier.push(s.last())
        }
    }
}

/// Names, each replaced by the known module that it lies in, and none twice.
pub open spec fn resolved_names(names: Seq<Seq<char>>, known: Set<Seq<char>>) -> Seq<Seq<char>> {
    without_repeats(names.map_values(|n: Seq<char>| known_or_self(n, known)))
}

/// Replaces each implicit import by the known module that it lies in, where there is one, and
/// drops repeats.
pub fn resolve_implicit_imports(implicit_imports: &mut Vec<ModuleName>, module_names: &NameSet)
    ensures
        texts(final(implicit_imports)@) == resolved_names(
            texts(old(implicit_imports)@),
            module_names@,
        ),
{
    let ghost mapped = texts(implicit_imports@).map_values(
        |n: Seq<char>| known_or_self(n, module_names@),
    );
    let mut seen = NameSet::new();
    let mut res: Vec<ModuleName> = Vec::new();
    proof {
        assert(mapped.take(0) =~= Seq::empty());
        assert(texts(res@) =~= Seq::empty());
    }
    for i in 0..implicit_imports.len()
        invariant
            mapped == texts(implicit_imports@).map_values(
                |n: Seq<char>| known_or_self(n, module_names@),
            ),
            texts(res@) == without_repeats(mapped.take(i as int)),
            seen@ == texts(res@).to_set(),
    {
        let ghost before = texts(res@);
        let name = match resolve_to_known_module(&implicit_imports[i], module_names) {
            Some(resolved) => resolved,
            None => implicit_imports[i].clone(),
        };
        let ghost key = name@;
        proof {
            assert(mapped[i as int] == key);
            assert(mapped.take(i + 1).drop_last() =~= mapped.take(i as int));
            assert(mapped.take(i + 1).last() == key);
        }
        if seen.insert(name.clone()) {
            res.push(name);
            proof {
                assert(texts(res@) =~= before.push(key));
                assert forall|x: Seq<char>| texts(res@).to_set().contains(x) <==> before.to_set().insert(
                    key,
                ).contains(x) by {
                    assert(texts(res@)[before.len() as int] == key);
                    if before.contains(x) {
                        assert(texts(res@)[before.index_of(x)] == x);
                    }
                }
                assert(texts(res@).to_set() =~= before.to_set().insert(key));
            }
        } else {
            proof {
                assert(before.to_set().insert(key) =~= before.to_set());
            }
        }
    }
    proof {
        assert(mapped.take(mapped.len() as int) =~= mapped);
    }
    *implicit_imports = res;
}

/// What a cache keeps of the safety of a module.
pub enum CachedSafety {
    Checked(CachedModuleSafety),
    /// The module could not be analyzed, for the reason that is given.
    AnalysisError { message: String },
}

/// What a [`CachedSafety`] is.
pub enum OutcomeView {
    Checked(CachedSafetyView),
    Failed(Seq<char>),
}

impl DeepView for CachedSafety {
    type V = OutcomeView;

    open spec fn deep_view(&self) -> OutcomeView {
        match self {
            CachedSafety::Checked(safety) => OutcomeView::Checked(safety.deep_view()),
            CachedSafety::AnalysisError { message } => OutcomeView::Failed(message@),
        }
    }
}

impl OutcomeView {
    /// Every reason to import eagerly is of a kind that asks for it.
    pub open spec fn well_formed(self) -> bool {
        match self {
            OutcomeView::Checked(safety) => safety.well_formed(),
            OutcomeView::Failed(_) => true,
        }
    }

    /// What is kept from two caches of one module. That it could not be analyzed outweighs
    /// everything, and of two such reasons the first one counts.
    pub open spec fn is_merge(self, a: OutcomeView, b: OutcomeView) -> bool {
        match (a, b) {
            (OutcomeView::Failed(_), _) => self == a,
            (OutcomeView::Checked(_), OutcomeView::Failed(_)) => self == b,
            (OutcomeView::Checked(x), OutcomeView::Checked(y)) => self matches OutcomeView::Checked(z)
                && z.is_merge(x, y),
        }
    }
}

/// What a cache keeps of errors.
pub open spec fn without_places(errors: Seq<ErrorView>) -> Seq<(ErrorKind, Seq<char>)> {
    errors.map_values(|e: ErrorView| (e.kind, e.metadata))
}

/// What a cache keeps of the safety of a module: errors without their places, and implicit
/// imports sorted.
pub open spec fn kept_of(outcome: OutcomeView, result: SafetyResult) -> bool {
    match result {
        SafetyResult::Analyzed(safety) => {
            outcome matches OutcomeView::Checked(kept) && {
                &&& kept.errors == without_places(safety.deep_view().errors)
                &&& kept.overrides == without_places(safety.deep_view().overrides)
                &&& in_text_order(kept.implicit_imports)
                &&& kept.implicit_imports.to_multiset()
                    == safety.deep_view().implicit_imports.to_multiset()
            }
        },
        SafetyResult::AnalysisError(message) => outcome == OutcomeView::Failed(message@),
    }
}

/// The safety of a module as a cache gives it back.
pub open spec fn restored(outcome: OutcomeView, result: SafetyResult) -> bool {
    match outcome {
        OutcomeView::Checked(kept) => result matches SafetyResult::Analyzed(safety) && safety.deep_view()
            == (SafetyView {
            errors: kept.errors.map_values(|e: (ErrorKind, Seq<char>)| error_without_place(e)),
            overrides: kept.overrides.map_values(|e: (ErrorKind, Seq<char>)| error_without_place(e)),
            implicit_imports: kept.implicit_imports,
            ..SafetyView::clean()
        }),
        OutcomeView::Failed(message) => result matches SafetyResult::AnalysisError(m) && m@ == message,
    }
}

fn cached_errors(errors: &Vec<SafetyError>) -> (res: Vec<CachedError>)
    ensures
        res.deep_view() == without_places(errors.deep_view()),
{
    let mut res: Vec<CachedError> = Vec::new();
    for i in 0..errors.len()
        invariant
            res.deep_view() == without_places(errors.deep_view().take(i as int)),
    {
        let ghost before = res.deep_view();
        res.push(CachedError::from_safety_error(&errors[i]));
        proof {
            assert(res.deep_view() =~= before.push((errors@[i as int].kind, errors@[i as int].metadata@)));
            assert(res.deep_view() =~= without_places(errors.deep_view().take(i + 1)));
        }
    }
    proof {
        assert(errors.deep_view().take(errors@.len() as int) =~= errors.deep_view());
        assert(errors@.len() == 0 ==> res.deep_view() =~= without_places(errors.deep_view()));
    }
    res
}

impl CachedSafety {
    /// Whether every reason to import eagerly is of a kind that asks for it.
    pub fn is_well_formed(&self) -> (res: bool)
        ensures
            res == self.deep_view().well_formed(),
    {
        match self {
            CachedSafety::Checked(safety) => safety.is_well_formed(),
            CachedSafety::AnalysisError { message } => true,
        }
    }

    /// Adds what another cache keeps of the same module.
    pub fn merge(&mut self, other: CachedSafety)
        ensures
            final(self).deep_view().is_merge(old(self).deep_view(), other.deep_view()),
    {
        let mut first = CachedSafety::AnalysisError { message: String::new() };
        std::mem::swap(self, &mut first);
        match (first, other) {
            (CachedSafety::AnalysisError { message }, _) => {
                *self = CachedSafety::AnalysisError { message };
            },
            (CachedSafety::Checked(_), CachedSafety::AnalysisError { message }) => {
                *self = CachedSafety::AnalysisError { message };
            },
            (CachedSafety::Checked(mut this), CachedSafety::Checked(that)) => {
                let ghost x = this.deep_view();
                let ghost y = that.deep_view();
                merge_errors(&mut this.errors, that.errors);
                merge_errors(
                    &mut this.force_imports_eager_overrides,
                    that.force_imports_eager_overrides,
                );
                let mut names: Vec<ModuleName> = this.implicit_imports;
                let mut more: Vec<ModuleName> = that.implicit_imports;
                names.append(&mut more);
                proof {
                    assert(texts(names@) =~= x.implicit_imports + y.implicit_imports);
                    lemma_append_sets(x.implicit_imports, y.implicit_imports);
                }
                this.implicit_imports = sort_and_dedup_names(&names);
                *self = CachedSafety::Checked(this);
            },
        }
    }

    /// Gives the safety of the module back, with errors at no particular place.
    pub fn to_safety_result(&self) -> (res: SafetyResult)
        requires
            self.deep_view().well_formed(),
        ensures
            restored(self.deep_view(), res),
    {
        match self {
            CachedSafety::Checked(safety) => {
                let mut res = ModuleSafety::new();
                let ghost kept = safety.deep_view();
                proof {
                    assert(kept.errors.take(0).map_values(
                        |e: (ErrorKind, Seq<char>)| error_without_place(e),
                    ) =~= Seq::empty());
                    assert(kept.overrides.take(0).map_values(
                        |e: (ErrorKind, Seq<char>)| error_without_place(e),
                    ) =~= Seq::empty());
                }
                for i in 0..safety.errors.len()
                    invariant
                        kept == safety.deep_view(),
                        res.deep_view() == (SafetyView {
                            errors: kept.errors.take(i as int).map_values(
                                |e: (ErrorKind, Seq<char>)| error_without_place(e),
                            ),
                            ..SafetyView::clean()
                        }),
                {
                    let ghost before = res.deep_view();
                    let error = safety.errors[i].to_safety_error();
                    res.add_error(error);
                    proof {
                        assert(res.deep_view().errors =~= kept.errors.take(i + 1).map_values(
                            |e: (ErrorKind, Seq<char>)| error_without_place(e),
                        ));
                    }
                }
                proof {
                    assert(kept.errors.take(kept.errors.len() as int) =~= kept.errors);
                    assert(safety.errors@.len() == 0 ==> res.deep_view().errors
                        =~= kept.errors.map_values(|e: (ErrorKind, Seq<char>)| error_without_place(e)));
                }
                for i in 0..safety.force_imports_eager_overrides.len()
                    invariant
                        kept == safety.deep_view(),
                        kept.well_formed(),
                        res.deep_view() == (SafetyView {
                            errors: kept.errors.map_values(
                                |e: (ErrorKind, Seq<char>)| error_without_place(e),
                            ),
                            overrides: kept.overrides.take(i as int).map_values(
                                |e: (ErrorKind, Seq<char>)| error_without_place(e),
                            ),
                            ..SafetyView::clean()
                        }),
                {
                    proof {
                        assert(kept.overrides[i as int].0.forces_eager_imports());
                    }
                    let error = safety.force_imports_eager_overrides[i].to_safety_error();
                    res.add_force_import_override(error);
                    proof {
                        assert(res.deep_view().overrides =~= kept.overrides.take(i + 1).map_values(
                            |e: (ErrorKind, Seq<char>)| error_without_place(e),
                        ));
                    }
                }
                proof {
                    assert(kept.overrides.take(kept.overrides.len() as int) =~= kept.overrides);
                }
                res.implicit_imports = clone_names(&safety.implicit_imports);
                SafetyResult::Analyzed(res)
            },
            CachedSafety::AnalysisError { message } => SafetyResult::AnalysisError(message.clone()),
        }
    }

    /// What a cache keeps of the safety of a module.
    pub fn from_safety_result(result: &SafetyResult) -> (res: CachedSafety)
        ensures
            kept_of(res.deep_view(), *result),
    {
        match result {
            SafetyResult::Analyzed(safety) => CachedSafety::Checked(
                CachedModuleSafety {
                    errors: cached_errors(&safety.errors),
                    force_imports_eager_overrides: cached_errors(&safety.force_imports_eager_overrides),
                    implicit_imports: sort_names(&safety.implicit_imports),
                },
            ),
            SafetyResult::AnalysisError(message) => CachedSafety::AnalysisError {
                message: message.clone(),
            },
        }
    }
}

/// The items of two sequences, one behind the other, are those of both.
pub proof fn lemma_append_sets<T>(a: Seq<T>, b: Seq<T>)
    ensures
        (a + b).to_set() == a.to_set().union(b.to_set()),
{
    assert forall|x: T| (a + b).to_set().contains(x) <==> a.to_set().union(b.to_set()).contains(x) by {
        if a.contains(x) {
            assert((a + b)[a.index_of(x)] == x);
        }
        if b.contains(x) {
            assert((a + b)[a.len() + b.index_of(x)] == x);
        }
        if (a + b).contains(x) {
            let i = (a + b).index_of(x);
            if i < a.len() {
                assert(a[i] == x);
            } else {
                assert(b[i - a.len()] == x);
            }
        }
    }
    assert((a + b).to_set() =~= a.to_set().union(b.to_set()));
}

/// What a cache keeps of a module, and then gives back, has the errors that the module had, apart
/// from their places, and the same implicit imports, apart from their order. Why a module could not
/// be analyzed comes back as it was.
pub proof fn cached_safety_round_trip(outcome: OutcomeView, before: SafetyResult, after: SafetyResult)
    requires
        kept_of(outcome, before),
        restored(outcome, after),
    ensures
        match (before, after) {
            (SafetyResult::Analyzed(a), SafetyResult::Analyzed(b)) => {
                &&& without_places(b.deep_view().errors) == without_places(a.deep_view().errors)
                &&& without_places(b.deep_view().overrides) == without_places(a.deep_view().overrides)
                &&& b.deep_view().implicit_imports.to_multiset()
                    == a.deep_view().implicit_imports.to_multiset()
            },
            (SafetyResult::AnalysisError(a), SafetyResult::AnalysisError(b)) => a@ == b@,
            _ => false,
        },
{
    if before is Analyzed {
        let a = before->Analyzed_0.deep_view();
        let b = after->Analyzed_0.deep_view();
        assert(without_places(b.errors) =~= without_places(a.errors));
        assert(without_places(b.overrides) =~= without_places(a.overrides));
    }
}

/// What a cache keeps of a module.
pub struct CachedModule {
    pub name: ModuleName,
    pub safety: CachedSafety,
    /// The modules that it imports.
    pub imports: NameSet,
    /// Its imports that were not found.
    pub missing_imports: NameSet,
    /// The names that it imports from a module and that may be submodules of another library.
    pub ambiguous_imports: NameSet,
    /// Its imports at module level that nothing uses.
    pub side_effect_imports: NameSet,
    /// What is known of its functions, by their names in the module.
    pub function_safety: NameMap<FunctionSafetyInfo>,
    /// Its calls that pass imported objects to callees that were not found.
    pub mutation_candidates: Vec<MutationCandidate>,
}

/// What a [`CachedModule`] is.
pub struct CachedModuleView {
    pub name: Seq<char>,
    pub safety: OutcomeView,
    pub imports: Set<Seq<char>>,
    pub missing_imports: Set<Seq<char>>,
    pub ambiguous_imports: Set<Seq<char>>,
    pub side_effect_imports: Set<Seq<char>>,
    pub function_safety: Map<Seq<char>, FunctionInfoView>,
    pub mutation_candidates: Seq<CandidateView>,
}

impl DeepView for CachedModule {
    type V = CachedModuleView;

    open spec fn deep_view(&self) -> CachedModuleView {
        CachedModuleView {
            name: self.name@,
            safety: self.safety.deep_view(),
            imports: self.imports@,
            missing_imports: self.missing_imports@,
            ambiguous_imports: self.ambiguous_imports@,
            side_effect_imports: self.side_effect_imports@,
            function_safety: self.function_safety.deep_view(),
            mutation_candidates: self.mutation_candidates.deep_view(),
        }
    }
}

/// What two caches know of functions: of a function that both know, what follows from both.
pub open spec fn merged_functions(
    a: Map<Seq<char>, FunctionInfoView>,
    b: Map<Seq<char>, FunctionInfoView>,
) -> Map<Seq<char>, FunctionInfoView> {
    Map::new(
        |n: Seq<char>| a.contains_key(n) || b.contains_key(n),
        |n: Seq<char>|
            if a.contains_key(n) && b.contains_key(n) {
                a[n].merged(b[n])
            } else if a.contains_key(n) {
                a[n]
            } else {
                b[n]
            },
    )
}

impl CachedModuleView {
    /// A module of which nothing is known.
    pub open spec fn blank(name: Seq<char>) -> CachedModuleView {
        CachedModuleView {
            name,
            safety: OutcomeView::Checked(CachedSafetyView::clean()),
            imports: Set::empty(),
            missing_imports: Set::empty(),
            ambiguous_imports: Set::empty(),
            side_effect_imports: Set::empty(),
            function_safety: Map::empty(),
            mutation_candidates: Seq::empty(),
        }
    }

    /// What is kept from two caches of one module. An import is missing only where neither cache
    /// found it.
    pub open spec fn is_merge(self, a: CachedModuleView, b: CachedModuleView) -> bool {
        &&& self.name == a.name
        &&& self.safety.is_merge(a.safety, b.safety)
        &&& self.imports == a.imports.union(b.imports)
        &&& self.missing_imports == a.missing_imports.intersect(b.missing_imports)
        &&& self.ambiguous_imports == a.ambiguous_imports.union(b.ambiguous_imports)
        &&& self.side_effect_imports == a.side_effect_imports.union(b.side_effect_imports)
        &&& self.function_safety == merged_functions(a.function_safety, b.function_safety)
        &&& self.mutation_candidates == a.mutation_candidates + b.mutation_candidates
    }

    /// No error was found.
    pub open spec fn is_safe(self) -> bool {
        self.safety matches OutcomeView::Checked(s) && s.errors.len() == 0
    }
}

impl CachedModule {
    pub fn empty(name: ModuleName) -> (res: CachedModule)
        ensures
            res.deep_view() == CachedModuleView::blank(name@),
    {
        let res = CachedModule {
            name,
            safety: CachedSafety::Checked(CachedModuleSafety::new()),
            imports: NameSet::new(),
            missing_imports: NameSet::new(),
            ambiguous_imports: NameSet::new(),
            side_effect_imports: NameSet::new(),
            function_safety: NameMap::new(),
            mutation_candidates: Vec::new(),
        };
        proof {
            assert(res.deep_view().function_safety =~= Map::empty());
            assert(res.deep_view().mutation_candidates =~= Seq::empty());
        }
        res
    }

    pub fn is_safe(&self) -> (res: bool)
        ensures
            res == self.deep_view().is_safe(),
    {
        match &self.safety {
            CachedSafety::Checked(safety) => safety.is_safe(),
            CachedSafety::AnalysisError { message } => false,
        }
    }

    /// Adds what another cache keeps of the same module.
    pub fn merge(&mut self, other: CachedModule)
        ensures
            final(self).deep_view().is_merge(old(self).deep_view(), other.deep_view()),
    {
        let ghost a = self.deep_view();
        let ghost b = other.deep_view();
        self.imports.extend(&other.imports);
        let still_missing = self.missing_imports.intersection(&other.missing_imports);
        self.missing_imports = still_missing;
        self.ambiguous_imports.extend(&other.ambiguous_imports);
        self.side_effect_imports.extend(&other.side_effect_imports);
        self.safety.merge(other.safety);
        merge_functions(&mut self.function_safety, other.function_safety);
        let mut more: Vec<MutationCandidate> = other.mutation_candidates;
        self.mutation_candidates.append(&mut more);
        proof {
            assert(self.deep_view().mutation_candidates =~= a.mutation_candidates
                + b.mutation_candidates);
        }
    }
}

/// Adds what another cache knows of functions.
fn merge_functions(target: &mut NameMap<FunctionSafetyInfo>, other: NameMap<FunctionSafetyInfo>)
    ensures
        final(target).deep_view() == merged_functions(old(target).deep_view(), other.deep_view()),
{
    let ghost a = target.deep_view();
    let ghost b = other.deep_view();
    let ghost keys = other.keys();
    let n: usize = other.len();
    proof {
        assert(b.restrict(keys.take(0).to_set()) =~= Map::empty());
        assert(merged_functions(a, b.restrict(keys.take(0).to_set())) =~= a);
        assert(target.deep_view() =~= a);
    }
    for i in 0..n
        invariant
            n == keys.len(),
            keys == other.keys(),
            other.ordered(),
            b == other.deep_view(),
            target.deep_view() == merged_functions(a, b.restrict(keys.take(i as int).to_set())),
    {
        let name = other.key_at(i);
        let ghost key = keys[i as int];
        let ghost before = target.deep_view();
        let info = other.value_at(i).clone();
        let ghost new = info.deep_view();
        proof {
            crate::name_set::lemma_take_more(keys, i as int);
            assert(!keys.take(i as int).contains(key)) by {
                if keys.take(i as int).contains(key) {
                    let j = keys.take(i as int).index_of(key);
                    assert(keys[j] == key);
                }
            }
            assert(b[key] == new);
        }
        match target.position(name.as_str()) {
            Some(p) => {
                let mut mine = target.replace_at(
                    p,
                    FunctionSafetyInfo::new(crate::module_safety::FunctionSafety::Safe),
                );
                mine.merge(info);
                let _ = target.replace_at(p, mine);
            },
            None => {
                let _ = target.insert(name.clone(), info);
            },
        }
        proof {
            let more = b.restrict(keys.take(i + 1).to_set());
            assert(target.deep_view() =~= before.insert(
                key,
                if before.contains_key(key) {
                    before[key].merged(new)
                } else {
                    new
                },
            ));
            assert(before.contains_key(key) ==> before[key] == a[key]);
            assert(target.deep_view() =~= merged_functions(a, more));
        }
    }
    proof {
        assert(keys.take(n as int) =~= keys);
        assert(b.restrict(keys.to_set()) =~= b) by {
            assert forall|k: Seq<char>| b.contains_key(k) implies keys.to_set().contains(k) by {
                assert(other@.contains_key(k));
            }
        }
    }
}

} // verus!
