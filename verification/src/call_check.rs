//! Whether calls are safe at import time.

use crate::callees::{callee_views, callees, constructor_method_names, constructor_names, iter_callees};
use crate::effects::{CallData, CallView, Effect, EffectData, EffectKind, EffectView};
use crate::errors::{effect_error_kind, error_at, unsafe_call_kind, ErrorKind, ErrorView, SafetyError};
use crate::module_name::{texts, ModuleName};
use crate::module_safety::{FunctionInfoView, FunctionSafety, FunctionSafetyInfo};
use crate::name_map::NameMap;
use crate::name_set::NameSet;
use crate::project_info::ProjectInfo;
use vstd::prelude::*;

verus! {

/// The names of the calls that are being checked, the innermost last. None occurs twice.
pub struct CallStack {
    entries: Vec<ModuleName>,
    seen: NameSet,
}

impl View for CallStack {
    type V = Seq<Seq<char>>;

    closed spec fn view(&self) -> Seq<Seq<char>> {
        texts(self.entries@)
    }
}

impl CallStack {
    #[verifier::type_invariant]
    closed spec fn coherent(&self) -> bool {
        texts(self.entries@).no_duplicates() && self.seen@ == texts(self.entries@).to_set()
    }

    pub fn empty() -> (res: CallStack)
        ensures
            res@ == Seq::<Seq<char>>::empty(),
    {
        let entries: Vec<ModuleName> = Vec::new();
        let seen = NameSet::new();
        proof {
            assert(texts(entries@) =~= Seq::empty());
            assert(texts(entries@).to_set() =~= Set::empty());
        }
        CallStack { entries, seen }
    }

    pub fn new(initial: ModuleName) -> (res: CallStack)
        ensures
            res@ == seq![initial@],
    {
        let mut res = CallStack::empty();
        res.push(initial);
        proof {
            assert(res@ =~= seq![initial@]);
        }
        res
    }

    pub fn contains(&self, name: &ModuleName) -> (res: bool)
        ensures
            res == self@.contains(name@),
    {
        proof {
            use_type_invariant(self);
        }
        self.seen.contains(name)
    }

    pub fn push(&mut self, name: ModuleName)
        requires
            !old(self)@.contains(name@),
        ensures
            final(self)@ == old(self)@.push(name@),
    {
        let mut whole = CallStack::empty();
        std::mem::swap(self, &mut whole);
        proof {
            use_type_invariant(&whole);
        }
        let ghost before = texts(whole.entries@);
        let CallStack { mut entries, mut seen } = whole;
        let _ = seen.insert(name.clone());
        entries.push(name);
        proof {
            assert(texts(entries@) =~= before.push(name@));
            crate::attribute::lemma_push_new(before, name@);
            assert(texts(entries@).to_set() =~= seen@);
        }
        *self = CallStack { entries, seen };
    }

    pub fn pop(&mut self)
        ensures
            final(self)@ == (if old(self)@.len() == 0 {
                old(self)@
            } else {
                old(self)@.drop_last()
            }),
    {
        let mut whole = CallStack::empty();
        std::mem::swap(self, &mut whole);
        proof {
            use_type_invariant(&whole);
        }
        let ghost before = texts(whole.entries@);
        let CallStack { mut entries, mut seen } = whole;
        if let Some(name) = entries.pop() {
            let _ = seen.remove(&name);
            proof {
                let after = texts(entries@);
                assert(after =~= before.drop_last());
                assert(before =~= after.push(name@));
                assert(before[before.len() - 1] == name@);
                assert(!after.contains(name@));
                crate::attribute::lemma_push_new(after, name@);
                assert(after.to_set() =~= seen@);
            }
        }
        *self = CallStack { entries, seen };
    }
}

/// A call that is to be checked.
pub struct Call<'a> {
    /// The module that the call counts for.
    pub caller_module: &'a ModuleName,
    pub effect: &'a Effect,
    /// The function that is called.
    pub func: ModuleName,
    /// The call runs when a module is imported, by itself or by what it calls.
    pub is_module_scope: bool,
}

/// What a [`Call`] is.
pub struct CallTo {
    pub caller: Seq<char>,
    pub effect: EffectView,
    pub func: Seq<char>,
    pub module_scope: bool,
}

impl<'a> DeepView for Call<'a> {
    type V = CallTo;

    open spec fn deep_view(&self) -> CallTo {
        CallTo {
            caller: self.caller_module@,
            effect: self.effect.deep_view(),
            func: self.func@,
            module_scope: self.is_module_scope,
        }
    }
}

/// What checks find out: verdicts on functions, and errors of the module whose calls are checked.
pub struct CheckState {
    pub function_safety: NameMap<FunctionSafetyInfo>,
    pub errors: Vec<SafetyError>,
}

/// What a [`CheckState`] is.
pub struct CheckView {
    pub verdicts: Map<Seq<char>, FunctionInfoView>,
    pub errors: Seq<ErrorView>,
}

impl DeepView for CheckState {
    type V = CheckView;

    open spec fn deep_view(&self) -> CheckView {
        CheckView { verdicts: self.function_safety.deep_view(), errors: self.errors.deep_view() }
    }
}

impl CheckView {
    /// A function has the given verdict, and nothing else is known of it.
    pub open spec fn marked(self, func: Seq<char>, verdict: FunctionSafety) -> CheckView {
        CheckView { verdicts: self.verdicts.insert(func, FunctionInfoView::plain(verdict)), ..self }
    }

    /// A function lacks a callee.
    pub open spec fn marked_missing(self, func: Seq<char>, callee: Seq<char>) -> CheckView {
        let info = if self.verdicts.contains_key(func) {
            FunctionInfoView {
                verdict: self.verdicts[func].verdict.worse(FunctionSafety::UnsafeMissingDep),
                missing_dep_callees: self.verdicts[func].missing_dep_callees.insert(callee),
                ..self.verdicts[func]
            }
        } else {
            FunctionInfoView {
                missing_dep_callees: set![callee],
                ..FunctionInfoView::plain(FunctionSafety::UnsafeMissingDep)
            }
        };
        CheckView { verdicts: self.verdicts.insert(func, info), ..self }
    }

    /// A function is unsafe when it is called from another module, or worse.
    pub open spec fn marked_if_imported(self, func: Seq<char>) -> CheckView {
        let info = if self.verdicts.contains_key(func) {
            FunctionInfoView {
                verdict: self.verdicts[func].verdict.worse(FunctionSafety::UnsafeIfImported),
                ..self.verdicts[func]
            }
        } else {
            FunctionInfoView::plain(FunctionSafety::UnsafeIfImported)
        };
        CheckView { verdicts: self.verdicts.insert(func, info), ..self }
    }

    /// A function has the given verdict.
    pub open spec fn has_verdict(self, func: Seq<char>, verdict: FunctionSafety) -> bool {
        self.verdicts.contains_key(func) && self.verdicts[func].verdict == verdict
    }

    /// One more error.
    pub open spec fn with_error(self, error: ErrorView) -> CheckView {
        CheckView { errors: self.errors.push(error), ..self }
    }
}

impl CheckState {
    pub fn new() -> (res: CheckState)
        ensures
            (res.deep_view().verdicts == Map::<Seq<char>, FunctionInfoView>::empty()),
            res.deep_view().errors == Seq::<ErrorView>::empty(),
    {
        let res = CheckState { function_safety: NameMap::new(), errors: Vec::new() };
        proof {
            assert(res.deep_view().verdicts =~= Map::<Seq<char>, FunctionInfoView>::empty());
            assert(res.deep_view().errors =~= Seq::<ErrorView>::empty());
        }
        res
    }

    fn mark(&mut self, func: &ModuleName, verdict: FunctionSafety)
        ensures
            final(self).deep_view() == old(self).deep_view().marked(func@, verdict),
    {
        let _ = self.function_safety.insert(func.clone(), FunctionSafetyInfo::new(verdict));
        proof {
            assert(self.deep_view().verdicts =~= old(self).deep_view().marked(func@, verdict).verdicts);
        }
    }

    pub fn mark_safe(&mut self, func: &ModuleName)
        ensures
            final(self).deep_view() == old(self).deep_view().marked(func@, FunctionSafety::Safe),
    {
        self.mark(func, FunctionSafety::Safe);
    }

    pub fn mark_unsafe(&mut self, func: &ModuleName)
        ensures
            final(self).deep_view() == old(self).deep_view().marked(func@, FunctionSafety::Unsafe),
    {
        self.mark(func, FunctionSafety::Unsafe);
    }

    /// A function lacks a callee.
    pub fn mark_unsafe_missing_dep(&mut self, func: &ModuleName, callee: &ModuleName)
        ensures
            final(self).deep_view() == old(self).deep_view().marked_missing(func@, callee@),
    {
        match self.function_safety.position(func.as_str()) {
            Some(i) => {
                let mut info: FunctionSafetyInfo = self.function_safety.replace_at(
                    i,
                    FunctionSafetyInfo::new(FunctionSafety::Safe),
                );
                info.verdict = info.verdict.worst(FunctionSafety::UnsafeMissingDep);
                let _ = info.missing_dep_callees.insert(callee.clone());
                let _ = self.function_safety.replace_at(i, info);
            },
            None => {
                let _ = self.function_safety.insert(
                    func.clone(),
                    FunctionSafetyInfo::unsafe_missing_dep(callee.clone()),
                );
            },
        }
        proof {
            assert(self.deep_view().verdicts =~= old(self).deep_view().marked_missing(
                func@,
                callee@,
            ).verdicts);
        }
    }

    /// A function is unsafe when it is called from another module, or worse.
    pub fn mark_unsafe_if_imported(&mut self, func: &ModuleName)
        ensures
            final(self).deep_view() == old(self).deep_view().marked_if_imported(func@),
    {
        match self.function_safety.position(func.as_str()) {
            Some(i) => {
                let mut info: FunctionSafetyInfo = self.function_safety.replace_at(
                    i,
                    FunctionSafetyInfo::new(FunctionSafety::Safe),
                );
                info.verdict = info.verdict.worst(FunctionSafety::UnsafeIfImported);
                let _ = self.function_safety.replace_at(i, info);
            },
            None => {
                let _ = self.function_safety.insert(
                    func.clone(),
                    FunctionSafetyInfo::new(FunctionSafety::UnsafeIfImported),
                );
            },
        }
        proof {
            assert(self.deep_view().verdicts =~= old(self).deep_view().marked_if_imported(func@).verdicts);
        }
    }

    /// Whether a function has the given verdict.
    pub fn verdict_is(&self, func: &ModuleName, verdict: FunctionSafety) -> (res: bool)
        ensures
            res == self.deep_view().has_verdict(func@, verdict),
    {
        match self.function_safety.get(func) {
            Some(info) => info.verdict == verdict,
            None => false,
        }
    }

    /// Whether a function is unsafe.
    pub fn is_unsafe(&self, func: &ModuleName) -> (res: bool)
        ensures
            res == self.deep_view().has_verdict(func@, FunctionSafety::Unsafe),
    {
        self.verdict_is(func, FunctionSafety::Unsafe)
    }

    /// Adds an error.
    pub fn add_error(&mut self, error: SafetyError)
        ensures
            final(self).deep_view() == old(self).deep_view().with_error(error.deep_view()),
    {
        let ghost before = self.errors.deep_view();
        self.errors.push(error);
        proof {
            assert(self.errors.deep_view() =~= before.push(error.deep_view()));
        }
    }
}

/// A callee mutates an imported variable that a call passes to it.
pub open spec fn callee_mutates_arg(p: &ProjectInfo, call: CallView, callee: (Seq<char>, usize)) -> bool {
    p.mutated_params@.contains_key(callee.0) && call.imported_args.reaches_any(
        p.mutated_positions(callee.0),
        callee.1,
    )
}

/// One of some callees mutates an imported variable that a call passes to it.
pub open spec fn some_mutates_arg(p: &ProjectInfo, call: CallView, list: Seq<(Seq<char>, usize)>) -> bool {
    exists|c: int| 0 <= c < list.len() && callee_mutates_arg(p, call, #[trigger] list[c])
}

/// A call passes an imported variable to a parameter that its callee mutates.
pub open spec fn mutates_imported_arg(p: &ProjectInfo, eff: EffectView) -> bool {
    match eff.data {
        Some(call) => call.has_unsafe_args && some_mutates_arg(
            p,
            call,
            callees(eff.kind, eff.name, p.classes.deep_view()),
        ),
        None => false,
    }
}

/// A call passes an imported variable.
pub open spec fn passes_imported(eff: EffectView) -> bool {
    eff.data matches Some(call) && call.has_unsafe_args
}

/// A function is none of the project's.
pub open spec fn foreign(p: &ProjectInfo, func: Seq<char>) -> bool {
    !p.functions@.contains_key(func) && !p.mutated_params@.contains_key(func)
}

/// A function passes imported variables to callees that are none of the project's: it lacks those
/// among the first `n`. Next to the state, whether there is none.
pub open spec fn deferred(
    p: &ProjectInfo,
    func: Seq<char>,
    list: Seq<(Seq<char>, usize)>,
    ret: bool,
    s: CheckView,
    n: int,
) -> (bool, CheckView)
    decreases n,
{
    if n <= 0 {
        (ret, s)
    } else {
        let before = deferred(p, func, list, ret, s, n - 1);
        if foreign(p, list[n - 1].0) {
            (false, before.1.marked_missing(func, list[n - 1].0))
        } else {
            before
        }
    }
}

/// A function calls one that is not safe. It is as unsafe as that one is; but where the callee is
/// not known, or lacks something itself, the function lacks the callee.
pub open spec fn blamed(p: &ProjectInfo, func: Seq<char>, callee: Seq<char>, s: CheckView) -> CheckView {
    if s.has_verdict(callee, FunctionSafety::UnsafeMissingDep) {
        if s.has_verdict(func, FunctionSafety::Unsafe) {
            s
        } else {
            s.marked_missing(func, callee)
        }
    } else if resolvable(p, callee, s) {
        s.marked(func, FunctionSafety::Unsafe)
    } else if s.has_verdict(func, FunctionSafety::Unsafe) {
        s
    } else {
        s.marked_missing(func, callee)
    }
}

/// It is known what a call calls.
pub open spec fn resolvable(p: &ProjectInfo, func: Seq<char>, s: CheckView) -> bool {
    p.callable(func) || s.verdicts.contains_key(func)
}

/// A decorator is called with arguments, so that what it returns is called too.
pub open spec fn parameterized_decorator(eff: EffectView) -> bool {
    (eff.kind == EffectKind::DecoratorCall || eff.kind == EffectKind::ImportedDecoratorCall)
        && eff.data is Some
}

/// The effects of a function.
pub open spec fn effects_in(p: &ProjectInfo, func: Seq<char>) -> Seq<EffectView> {
    if p.effect_table.deep_view().contains_key(func) {
        p.effect_table.deep_view()[func]
    } else {
        Seq::empty()
    }
}

/// The names of the effects of the first `n` scopes.
pub open spec fn names_among(p: &ProjectInfo, n: int) -> Set<Seq<char>>
    decreases n,
{
    if n <= 0 {
        Set::empty()
    } else {
        names_among(p, n - 1) + effects_in(p, p.effect_table.effects().keys()[n - 1]).map_values(
            |e: EffectView| e.name,
        ).to_set()
    }
}

/// How many names of effects are not on the stack.
pub open spec fn room(p: &ProjectInfo, stack: Seq<Seq<char>>) -> nat {
    names_among(p, p.effect_table.effects().keys().len() as int).difference(stack.to_set()).len()
}

proof fn lemma_names_finite(p: &ProjectInfo, n: int)
    ensures
        names_among(p, n).finite(),
    decreases n,
{
    if n > 0 {
        lemma_names_finite(p, n - 1);
    }
}

proof fn lemma_names_grow(p: &ProjectInfo, n: int, m: int)
    requires
        0 <= n <= m,
    ensures
        names_among(p, n).subset_of(names_among(p, m)),
    decreases m - n,
{
    if n < m {
        lemma_names_grow(p, n, m - 1);
    }
}

/// A name of an effect takes up room on the stack.
pub proof fn lemma_room(p: &ProjectInfo, stack: Seq<Seq<char>>, func: Seq<char>, i: int)
    requires
        p.effect_table.effects().ordered(),
        0 <= i < effects_in(p, func).len(),
        !stack.contains(effects_in(p, func)[i].name),
    ensures
        room(p, stack.push(effects_in(p, func)[i].name)) < room(p, stack),
{
    let keys = p.effect_table.effects().keys();
    let name = effects_in(p, func)[i].name;
    assert(p.effect_table.effects()@.contains_key(func));
    assert(keys.contains(func));
    let k = keys.index_of(func);
    let listed = effects_in(p, func).map_values(|e: EffectView| e.name);
    assert(listed[i] == name);
    assert(names_among(p, k + 1).contains(name));
    lemma_names_grow(p, k + 1, keys.len() as int);
    lemma_names_finite(p, keys.len() as int);
    let all = names_among(p, keys.len() as int);
    let more = stack.push(name);
    assert(more.to_set() =~= stack.to_set().insert(name)) by {
        assert forall|x: Seq<char>| more.to_set().contains(x) <==> stack.to_set().insert(name).contains(x) by {
            if stack.contains(x) {
                assert(more[stack.index_of(x)] == x);
            }
            assert(more[stack.len() as int] == name);
        }
    }
    assert(all.difference(more.to_set()) =~= all.difference(stack.to_set()).remove(name));
}

/// What comes of a call in which a function makes its `i`-th effect happen.
pub open spec fn effect_step(
    p: &ProjectInfo,
    call: CallTo,
    stack: Seq<Seq<char>>,
    ret: bool,
    s: CheckView,
    i: int,
) -> (bool, CheckView)
    decreases room(p, stack), 0nat, 0int,
    when p.effect_table.effects().ordered() && 0 <= i < effects_in(p, call.func).len()
{
    let func = call.func;
    let eff = effects_in(p, func)[i];
    let call_module = p.module_of(func);
    let cross = call.caller != call_module;
    if effect_error_kind(eff.kind) is Some {
        (false, s.marked(func, FunctionSafety::Unsafe))
    } else if eff.kind.runnable() {
        let (r1, s1) = if mutates_imported_arg(p, eff) {
            (false, s.marked(func, FunctionSafety::Unsafe))
        } else if !call.module_scope && passes_imported(eff) {
            let list = callees(eff.kind, eff.name, p.classes.deep_view());
            deferred(p, func, list, ret, s, list.len() as int)
        } else {
            (ret, s)
        };
        if stack.contains(eff.name) {
            (false, s1.marked(func, FunctionSafety::Unsafe))
        } else {
            proof {
                lemma_room(p, stack, func, i);
            }
            let child = CallTo {
                caller: if call.module_scope {
                    call.caller
                } else {
                    call_module
                },
                effect: eff,
                func: eff.name,
                module_scope: call.module_scope,
            };
            let (ok, s2) = checked(p, child, stack.push(eff.name), s1);
            if !ok {
                (false, blamed(p, func, eff.name, s2))
            } else if s2.has_verdict(eff.name, FunctionSafety::UnsafeIfImported)
                && p.functions@.contains_key(eff.name) && p.functions@[eff.name]@ == call_module {
                (r1 && !cross, s2.marked_if_imported(func))
            } else {
                (r1, s2)
            }
        }
    } else if eff.kind == EffectKind::ImportedVarMutation {
        (false, s.marked(func, FunctionSafety::Unsafe))
    } else if (eff.kind == EffectKind::GlobalVarAssign || eff.kind == EffectKind::GlobalVarMutation) && !(
    s.verdicts.contains_key(func) && s.verdicts[func].verdict.place()
        >= FunctionSafety::UnsafeMissingDep.place()) {
        (ret && !cross, s.marked_if_imported(func))
    } else {
        (ret, s)
    }
}

/// What comes of a call in which a function makes its first `n` effects happen.
pub open spec fn after_effects(
    p: &ProjectInfo,
    call: CallTo,
    stack: Seq<Seq<char>>,
    s: CheckView,
    n: int,
) -> (bool, CheckView)
    decreases room(p, stack), 1nat, n,
    when p.effect_table.effects().ordered()
{
    if n <= 0 {
        (true, s)
    } else {
        let before = after_effects(p, call, stack, s, n - 1);
        effect_step(p, call, stack, before.0, before.1, n - 1)
    }
}

/// A function with a verdict is safe for a call.
pub open spec fn safe_for(verdict: FunctionSafety, cross: bool) -> bool {
    match verdict {
        FunctionSafety::Safe => true,
        FunctionSafety::Unsafe | FunctionSafety::UnsafeMissingDep => false,
        FunctionSafety::UnsafeIfImported => !cross,
    }
}

/// What comes of running a function. Where there is a verdict on it, that decides; else its
/// effects do, and it gets a verdict. A name that is not a function's does nothing.
pub open spec fn run_body(p: &ProjectInfo, call: CallTo, stack: Seq<Seq<char>>, s: CheckView) -> (
    bool,
    CheckView,
)
    decreases room(p, stack), 2nat, 0int,
    when p.effect_table.effects().ordered()
{
    if !p.functions@.contains_key(call.func) {
        (true, s)
    } else {
        let s1 = if call.module_scope && mutates_imported_arg(p, call.effect) {
            s.with_error(error_at(ErrorKind::ImportedVarArgument, call.effect))
        } else {
            s
        };
        if s1.verdicts.contains_key(call.func) {
            (
                safe_for(s1.verdicts[call.func].verdict, call.caller != p.module_of(call.func)),
                s1,
            )
        } else {
            let (ret, s2) = after_effects(p, call, stack, s1, effects_in(p, call.func).len() as int);
            if s2.verdicts.contains_key(call.func) {
                (ret, s2)
            } else {
                (ret, s2.marked(call.func, FunctionSafety::Safe))
            }
        }
    }
}

/// What comes of running the first `n` of some functions one after the other, each in the place
/// of the function that is called.
pub open spec fn run_all(
    p: &ProjectInfo,
    calls: Seq<CallTo>,
    stack: Seq<Seq<char>>,
    s: CheckView,
    n: int,
) -> (bool, CheckView)
    decreases room(p, stack), 3nat, n,
    when p.effect_table.effects().ordered()
{
    if n <= 0 {
        (true, s)
    } else {
        let before = run_all(p, calls, stack, s, n - 1);
        let last = run_body(p, calls[n - 1], stack, before.1);
        (before.0 && last.0, last.1)
    }
}

/// The calls by which an object is constructed.
pub open spec fn constructor_calls(p: &ProjectInfo, call: CallTo) -> Seq<CallTo> {
    constructor_names(call.func, p.classes.deep_view()).map_values(
        |m: Seq<char>| CallTo { func: m, ..call },
    )
}

/// The calls of the functions directly inside of the one that is called.
pub open spec fn nested_calls(p: &ProjectInfo, call: CallTo) -> Seq<CallTo> {
    if p.nested_functions@.contains_key(call.func) {
        texts(p.nested_functions@[call.func]@).map_values(
            |m: Seq<char>|
                CallTo {
                    func: m,
                    effect: EffectView::bare(EffectKind::FunctionCall, m, call.effect.range),
                    ..call
                },
        )
    } else {
        Seq::empty()
    }
}

/// What comes of a call: of constructing an object, where a class is called, else of running the
/// function; and of what a decorator with arguments returns.
pub open spec fn run_call(p: &ProjectInfo, call: CallTo, stack: Seq<Seq<char>>, s: CheckView) -> (
    bool,
    CheckView,
)
    decreases room(p, stack), 4nat, 0int,
    when p.effect_table.effects().ordered()
{
    let calls = constructor_calls(p, call);
    let (r1, s1) = if p.classes.deep_view().contains_key(call.func) {
        run_all(p, calls, stack, s, calls.len() as int)
    } else {
        run_body(p, call, stack, s)
    };
    if parameterized_decorator(call.effect) {
        let inner = nested_calls(p, call);
        let (r2, s2) = run_all(p, inner, stack, s1, inner.len() as int);
        (r1 && r2, s2)
    } else {
        (r1, s1)
    }
}

/// Whether a call is safe, and what comes of it. One of which it is not known what it calls is
/// not.
pub open spec fn checked(p: &ProjectInfo, call: CallTo, stack: Seq<Seq<char>>, s: CheckView) -> (
    bool,
    CheckView,
)
    decreases room(p, stack), 5nat, 0int,
    when p.effect_table.effects().ordered()
{
    if resolvable(p, call.func, s) {
        run_call(p, call, stack, s)
    } else {
        (false, s)
    }
}

impl ProjectInfo {
    /// Whether a callee mutates an imported variable that a call passes to it.
    fn callee_mutates_imported_arg(&self, call_data: &CallData, callee: &ModuleName, arg_offset: usize) -> (res:
        bool)
        ensures
            res == callee_mutates_arg(self, call_data.deep_view(), (callee@, arg_offset)),
    {
        match self.resolve_cached_mutated_params_for(callee) {
            Some(params) => call_data.imported_args().hits_any_param(&params, arg_offset),
            None => false,
        }
    }

    /// Whether a call passes an imported variable to a parameter that its callee mutates.
    pub fn call_mutates_imported_arg(&self, call_effect: &Effect) -> (res: bool)
        ensures
            res == mutates_imported_arg(self, call_effect.deep_view()),
    {
        let call_data = match &call_effect.data {
            EffectData::Empty => {
                return false;
            },
            EffectData::Call(call_data) => call_data,
        };
        if !call_data.has_unsafe_args() {
            return false;
        }
        let list = iter_callees(call_effect, &self.classes);
        let ghost all = callee_views(list@);
        let ghost view = call_data.deep_view();
        for c in 0..list.len()
            invariant
                all == callee_views(list@),
                all == callees(call_effect.kind, call_effect.name@, self.classes.deep_view()),
                view == call_data.deep_view(),
                call_effect.deep_view().data == Some(view),
                view.has_unsafe_args,
                forall|d: int| 0 <= d < c ==> !callee_mutates_arg(self, view, #[trigger] all[d]),
        {
            if self.callee_mutates_imported_arg(call_data, &list[c].0, list[c].1) {
                proof {
                    assert(callee_mutates_arg(self, view, all[c as int]));
                    assert(some_mutates_arg(self, view, all));
                }
                return true;
            }
            proof {
                assert(all[c as int] == (list@[c as int].0@, list@[c as int].1));
            }
        }
        false
    }

    /// Whether a call passes an imported variable. If so, and if its callee is none of the
    /// project's, it is not known whether the variable is mutated.
    pub fn defers_cross_library_mutation(&self, call_effect: &Effect) -> (res: bool)
        ensures
            res == passes_imported(call_effect.deep_view()),
    {
        match &call_effect.data {
            EffectData::Empty => false,
            EffectData::Call(call_data) => call_data.has_unsafe_args(),
        }
    }

    /// Marks what a function lacks, where it passes imported variables to callees that are none
    /// of the project's.
    fn mark_deferred(&self, func: &ModuleName, eff: &Effect, state: &mut CheckState, ret: bool) -> (res: bool)
        ensures
            (res, final(state).deep_view()) == deferred(
                self,
                func@,
                callees(eff.kind, eff.name@, self.classes.deep_view()),
                ret,
                old(state).deep_view(),
                callees(eff.kind, eff.name@, self.classes.deep_view()).len() as int,
            ),
    {
        let list = iter_callees(eff, &self.classes);
        let ghost all = callee_views(list@);
        let ghost start = state.deep_view();
        let mut res = ret;
        for c in 0..list.len()
            invariant
                all == callee_views(list@),
                (res, state.deep_view()) == deferred(self, func@, all, ret, start, c as int),
        {
            let callee = &list[c].0;
            proof {
                assert(all[c as int] == (list@[c as int].0@, list@[c as int].1));
            }
            if !self.functions.contains_key(callee) && !self.mutated_params.contains_key(callee) {
                state.mark_unsafe_missing_dep(func, callee);
                res = false;
            }
        }
        res
    }

    /// Whether it is known what a call calls.
    pub fn can_resolve_call(&self, func: &ModuleName, state: &CheckState) -> (res: bool)
        ensures
            res == resolvable(self, func@, state.deep_view()),
    {
        self.contains_callable(func) || state.function_safety.contains_key(func)
    }

    /// Marks a function that calls one that is not safe.
    pub fn mark_caller_unsafe_for_failed_callee(
        &self,
        func: &ModuleName,
        callee: &ModuleName,
        state: &mut CheckState,
    )
        ensures
            final(state).deep_view() == blamed(self, func@, callee@, old(state).deep_view()),
    {
        if state.verdict_is(callee, FunctionSafety::UnsafeMissingDep) {
            if !state.is_unsafe(func) {
                state.mark_unsafe_missing_dep(func, callee);
            }
        } else if self.can_resolve_call(callee, state) {
            state.mark_unsafe(func);
        } else if !state.is_unsafe(func) {
            state.mark_unsafe_missing_dep(func, callee);
        }
    }

    /// Whether a decorator is called with arguments.
    pub fn is_parameterized_decorator_call(&self, eff: &Effect) -> (res: bool)
        ensures
            res == parameterized_decorator(eff.deep_view()),
    {
        let is_call = match eff.data {
            EffectData::Call(_) => true,
            EffectData::Empty => false,
        };
        (eff.kind == EffectKind::DecoratorCall || eff.kind == EffectKind::ImportedDecoratorCall) && is_call
    }

    /// Adds an error where a call passes an imported variable to a parameter that its callee
    /// mutates.
    fn check_call_params(&self, call: &Call, state: &mut CheckState)
        ensures
            final(state).deep_view() == (if mutates_imported_arg(self, call.effect.deep_view()) {
                old(state).deep_view().with_error(
                    error_at(ErrorKind::ImportedVarArgument, call.effect.deep_view()),
                )
            } else {
                old(state).deep_view()
            }),
    {
        if self.call_mutates_imported_arg(call.effect) {
            state.add_error(SafetyError::new_from_effect(ErrorKind::ImportedVarArgument, call.effect));
        }
    }

    /// Makes one effect of a function happen.
    fn check_effect(
        &self,
        call: &Call,
        call_module: &ModuleName,
        eff: &Effect,
        stack: &mut CallStack,
        state: &mut CheckState,
        ret: bool,
        Ghost(i): Ghost<int>,
    ) -> (res: bool)
        requires
            self.effect_table.effects().ordered(),
            0 <= i < effects_in(self, call.func@).len(),
            eff.deep_view() == effects_in(self, call.func@)[i],
            call_module@ == self.module_of(call.func@),
        ensures
            (res, final(state).deep_view()) == effect_step(
                self,
                call.deep_view(),
                old(stack)@,
                ret,
                old(state).deep_view(),
                i,
            ),
            final(stack)@ == old(stack)@,
        decreases room(self, old(stack)@), 0nat,
    {
        let func = &call.func;
        let cross = !call.caller_module.same(call_module);
        if SafetyError::from_effect(eff).is_some() {
            state.mark_unsafe(func);
            false
        } else if eff.kind.is_runnable() {
            let mut ret = ret;
            if self.call_mutates_imported_arg(eff) {
                state.mark_unsafe(func);
                ret = false;
            } else if !call.is_module_scope && self.defers_cross_library_mutation(eff) {
                ret = self.mark_deferred(func, eff, state, ret);
            }
            if stack.contains(&eff.name) {
                state.mark_unsafe(func);
                return false;
            }
            let ghost before = stack@;
            proof {
                lemma_room(self, before, func@, i);
            }
            stack.push(eff.name.clone());
            let child = Call {
                caller_module: if call.is_module_scope {
                    call.caller_module
                } else {
                    call_module
                },
                effect: eff,
                func: eff.name.clone(),
                is_module_scope: call.is_module_scope,
            };
            let safe = self.call_is_safe(&child, stack, state);
            stack.pop();
            proof {
                assert(stack@ =~= before);
            }
            if !safe {
                self.mark_caller_unsafe_for_failed_callee(func, &eff.name, state);
                return false;
            }
            let same_module = match self.functions.get(&eff.name) {
                Some(module) => module.same(call_module),
                None => false,
            };
            if same_module && state.verdict_is(&eff.name, FunctionSafety::UnsafeIfImported) {
                state.mark_unsafe_if_imported(func);
                ret && !cross
            } else {
                ret
            }
        } else if eff.kind == EffectKind::ImportedVarMutation {
            state.mark_unsafe(func);
            false
        } else if eff.kind == EffectKind::GlobalVarAssign || eff.kind == EffectKind::GlobalVarMutation {
            let already_unsafe = match state.function_safety.get(func) {
                Some(info) => !FunctionSafety::UnsafeMissingDep.is_worse_than(info.verdict),
                None => false,
            };
            if already_unsafe {
                ret
            } else {
                state.mark_unsafe_if_imported(func);
                ret && !cross
            }
        } else {
            ret
        }
    }

    /// Runs a function.
    pub fn check_call_body(&self, call: &Call, stack: &mut CallStack, state: &mut CheckState) -> (res: bool)
        ensures
            (res, final(state).deep_view()) == run_body(
                self,
                call.deep_view(),
                old(stack)@,
                old(state).deep_view(),
            ),
            final(stack)@ == old(stack)@,
        decreases room(self, old(stack)@), 2nat,
    {
        let n_scopes: usize = self.effect_table.len();
        let call_module = match self.functions.get(&call.func) {
            Some(module) => module,
            None => {
                return true;
            },
        };
        if call.is_module_scope {
            self.check_call_params(call, state);
        }
        if let Some(info) = state.function_safety.get(&call.func) {
            return match info.verdict {
                FunctionSafety::Safe => true,
                FunctionSafety::Unsafe | FunctionSafety::UnsafeMissingDep => false,
                FunctionSafety::UnsafeIfImported => call.caller_module.same(call_module),
            };
        }
        let ghost start = state.deep_view();
        let ghost before = stack@;
        let mut ret = true;
        if let Some(effs) = self.effect_table.get(&call.func) {
            let ghost all = effects_in(self, call.func@);
            for i in 0..effs.len()
                invariant
                    self.effect_table.effects().ordered(),
                    call_module@ == self.module_of(call.func@),
                    before == old(stack)@,
                    stack@ == before,
                    all == effects_in(self, call.func@),
                    all == effs.deep_view(),
                    (ret, state.deep_view()) == after_effects(
                        self,
                        call.deep_view(),
                        before,
                        start,
                        i as int,
                    ),
            {
                ret = self.check_effect(call, call_module, &effs[i], stack, state, ret, Ghost(i as int));
            }
        }
        if !state.function_safety.contains_key(&call.func) {
            state.mark_safe(&call.func);
        }
        ret
    }

    /// Runs the functions by which an object is constructed.
    pub fn check_constructor_call(&self, call: &Call, stack: &mut CallStack, state: &mut CheckState) -> (res:
        bool)
        ensures
            (res, final(state).deep_view()) == run_all(
                self,
                constructor_calls(self, call.deep_view()),
                old(stack)@,
                old(state).deep_view(),
                constructor_calls(self, call.deep_view()).len() as int,
            ),
            final(stack)@ == old(stack)@,
        decreases room(self, old(stack)@), 3nat,
    {
        let n_scopes: usize = self.effect_table.len();
        let methods = constructor_method_names(&call.func, &self.classes);
        let ghost calls = constructor_calls(self, call.deep_view());
        let ghost start = state.deep_view();
        let mut ret = true;
        for i in 0..methods.len()
            invariant
                self.effect_table.effects().ordered(),
                stack@ == old(stack)@,
                calls == constructor_calls(self, call.deep_view()),
                calls.len() == methods@.len(),
                texts(methods@) == constructor_names(call.func@, self.classes.deep_view()),
                (ret, state.deep_view()) == run_all(self, calls, stack@, start, i as int),
        {
            let method_call = Call {
                caller_module: call.caller_module,
                effect: call.effect,
                func: methods[i].clone(),
                is_module_scope: call.is_module_scope,
            };
            proof {
                assert(texts(methods@)[i as int] == methods@[i as int]@);
                assert(calls[i as int] == method_call.deep_view());
            }
            let ok = self.check_call_body(&method_call, stack, state);
            ret = ret && ok;
        }
        ret
    }

    /// Runs the functions directly inside of a decorator that is called with arguments.
    pub fn check_decorator_nested_functions(
        &self,
        call: &Call,
        stack: &mut CallStack,
        state: &mut CheckState,
    ) -> (res: bool)
        ensures
            (res, final(state).deep_view()) == run_all(
                self,
                nested_calls(self, call.deep_view()),
                old(stack)@,
                old(state).deep_view(),
                nested_calls(self, call.deep_view()).len() as int,
            ),
            final(stack)@ == old(stack)@,
        decreases room(self, old(stack)@), 3nat,
    {
        let n_scopes: usize = self.effect_table.len();
        let children = match self.nested_functions.get(&call.func) {
            Some(children) => children,
            None => {
                return true;
            },
        };
        let ghost calls = nested_calls(self, call.deep_view());
        let ghost start = state.deep_view();
        let mut ret = true;
        for i in 0..children.len()
            invariant
                self.effect_table.effects().ordered(),
                stack@ == old(stack)@,
                self.nested_functions@.contains_key(call.func@),
                *children == self.nested_functions@[call.func@],
                calls == nested_calls(self, call.deep_view()),
                calls.len() == children@.len(),
                (ret, state.deep_view()) == run_all(self, calls, stack@, start, i as int),
        {
            let child_effect = Effect::new(
                EffectKind::FunctionCall,
                children[i].clone(),
                call.effect.range,
            );
            let child_call = Call {
                caller_module: call.caller_module,
                effect: &child_effect,
                func: children[i].clone(),
                is_module_scope: call.is_module_scope,
            };
            proof {
                assert(texts(children@)[i as int] == children@[i as int]@);
                assert(calls[i as int] == child_call.deep_view());
            }
            let ok = self.check_call_body(&child_call, stack, state);
            ret = ret && ok;
        }
        ret
    }

    /// Makes a call: constructs an object, where a class is called, else runs the function; and
    /// runs what a decorator with arguments returns.
    pub fn check_call(&self, call: &Call, stack: &mut CallStack, state: &mut CheckState) -> (res: bool)
        ensures
            (res, final(state).deep_view()) == run_call(
                self,
                call.deep_view(),
                old(stack)@,
                old(state).deep_view(),
            ),
            final(stack)@ == old(stack)@,
        decreases room(self, old(stack)@), 4nat,
    {
        let n_scopes: usize = self.effect_table.len();
        let mut ret = if self.classes.contains(&call.func) {
            self.check_constructor_call(call, stack, state)
        } else {
            self.check_call_body(call, stack, state)
        };
        if self.is_parameterized_decorator_call(call.effect) {
            let inner = self.check_decorator_nested_functions(call, stack, state);
            ret = ret && inner;
        }
        ret
    }

    /// Whether a call is safe. One of which it is not known what it calls is not.
    fn call_is_safe(&self, call: &Call, stack: &mut CallStack, state: &mut CheckState) -> (res: bool)
        ensures
            (res, final(state).deep_view()) == checked(
                self,
                call.deep_view(),
                old(stack)@,
                old(state).deep_view(),
            ),
            final(stack)@ == old(stack)@,
        decreases room(self, old(stack)@), 5nat,
    {
        let n_scopes: usize = self.effect_table.len();
        self.can_resolve_call(&call.func, state) && self.check_call(call, stack, state)
    }
}

/// The kind of the error that a call is of which it is not known what it calls.
pub open spec fn unknown_call_kind(kind: EffectKind) -> Option<ErrorKind> {
    match kind {
        EffectKind::ImportedFunctionCall | EffectKind::FunctionCall => Some(ErrorKind::UnknownFunctionCall),
        EffectKind::MethodCall | EffectKind::UnboundMethodCall | EffectKind::ParamMethodCall => Some(
            ErrorKind::UnknownMethodCall,
        ),
        EffectKind::ImportedDecoratorCall | EffectKind::DecoratorCall => Some(
            ErrorKind::UnknownDecoratorCall,
        ),
        _ => None,
    }
}

/// An effect was taken for a call and is none.
#[derive(Debug)]
pub struct UnexpectedCall {
    /// What the effect concerns.
    pub name: ModuleName,
}

/// The kind of the error that a call is which is not safe.
pub open spec fn published_kind(p: &ProjectInfo, call: CallTo, s: CheckView) -> Option<ErrorKind> {
    if resolvable(p, call.func, s) {
        unsafe_call_kind(call.effect.kind)
    } else {
        unknown_call_kind(call.effect.kind)
    }
}

/// The error that a call is of which it is not known what it calls.
pub fn check_unknown_call(eff: &Effect) -> (res: Result<SafetyError, UnexpectedCall>)
    ensures
        match res {
            Ok(e) => unknown_call_kind(eff.kind) == Some(e.kind) && e.deep_view() == error_at(
                e.kind,
                eff.deep_view(),
            ),
            Err(e) => unknown_call_kind(eff.kind) is None && e.name@ == eff.name@,
        },
{
    match eff.kind {
        EffectKind::ImportedFunctionCall | EffectKind::FunctionCall => Ok(
            SafetyError::new_from_effect(ErrorKind::UnknownFunctionCall, eff),
        ),
        EffectKind::MethodCall | EffectKind::UnboundMethodCall | EffectKind::ParamMethodCall => Ok(
            SafetyError::new_from_effect(ErrorKind::UnknownMethodCall, eff),
        ),
        EffectKind::ImportedDecoratorCall | EffectKind::DecoratorCall => Ok(
            SafetyError::new_from_effect(ErrorKind::UnknownDecoratorCall, eff),
        ),
        _ => Err(UnexpectedCall { name: eff.name.clone() }),
    }
}

impl ProjectInfo {
    /// Whether a call is safe. One that is not is an error, if errors are to be published; it is
    /// then an error of another sort if it is not known what is called.
    pub fn check_call_safety(
        &self,
        call: &Call,
        stack: &mut CallStack,
        state: &mut CheckState,
        publish_safety_error: bool,
    ) -> (res: Result<bool, UnexpectedCall>)
        ensures
            final(stack)@ == old(stack)@,
            ({
                let s = old(state).deep_view();
                let (ok, after) = checked(self, call.deep_view(), old(stack)@, s);
                if ok || !publish_safety_error {
                    res == Ok::<bool, UnexpectedCall>(ok) && final(state).deep_view() == after
                } else {
                    match published_kind(self, call.deep_view(), s) {
                        Some(kind) => res == Ok::<bool, UnexpectedCall>(false) && final(state).deep_view()
                            == after.with_error(error_at(kind, call.effect.deep_view())),
                        None => res is Err && res->Err_0.name@ == call.effect.name@
                            && final(state).deep_view() == after,
                    }
                }
            }),
    {
        let known = self.can_resolve_call(&call.func, state);
        if self.call_is_safe(call, stack, state) {
            return Ok(true);
        }
        if !publish_safety_error {
            return Ok(false);
        }
        if known {
            match SafetyError::from_unsafe_call(call.effect) {
                Ok(err) => {
                    state.add_error(err);
                    Ok(false)
                },
                Err(_) => Err(UnexpectedCall { name: call.effect.name.clone() }),
            }
        } else {
            match check_unknown_call(call.effect) {
                Ok(err) => {
                    state.add_error(err);
                    Ok(false)
                },
                Err(e) => Err(e),
            }
        }
    }
}

/// A verdict stands: no check changes what is known of a function on which there is one.
pub proof fn verdicts_stand(p: &ProjectInfo, call: CallTo, stack: Seq<Seq<char>>, s: CheckView, g: Seq<char>)
    requires
        p.effect_table.effects().ordered(),
        s.verdicts.contains_key(g),
    ensures
        checked(p, call, stack, s).1.verdicts.contains_key(g),
        checked(p, call, stack, s).1.verdicts[g] == s.verdicts[g],
    decreases room(p, stack), 5nat, 0int,
{
    if resolvable(p, call.func, s) {
        let calls = constructor_calls(p, call);
        let s1 = if p.classes.deep_view().contains_key(call.func) {
            lemma_stand_all(p, calls, stack, s, calls.len() as int, g);
            run_all(p, calls, stack, s, calls.len() as int).1
        } else {
            lemma_stand_body(p, call, stack, s, g);
            run_body(p, call, stack, s).1
        };
        if parameterized_decorator(call.effect) {
            let inner = nested_calls(p, call);
            lemma_stand_all(p, inner, stack, s1, inner.len() as int, g);
        }
    }
}

pub proof fn lemma_stand_all(
    p: &ProjectInfo,
    calls: Seq<CallTo>,
    stack: Seq<Seq<char>>,
    s: CheckView,
    n: int,
    g: Seq<char>,
)
    requires
        p.effect_table.effects().ordered(),
        s.verdicts.contains_key(g),
    ensures
        run_all(p, calls, stack, s, n).1.verdicts.contains_key(g),
        run_all(p, calls, stack, s, n).1.verdicts[g] == s.verdicts[g],
    decreases room(p, stack), 3nat, n,
{
    if n > 0 {
        lemma_stand_all(p, calls, stack, s, n - 1, g);
        lemma_stand_body(p, calls[n - 1], stack, run_all(p, calls, stack, s, n - 1).1, g);
    }
}

pub proof fn lemma_stand_body(p: &ProjectInfo, call: CallTo, stack: Seq<Seq<char>>, s: CheckView, g: Seq<char>)
    requires
        p.effect_table.effects().ordered(),
        s.verdicts.contains_key(g),
    ensures
        run_body(p, call, stack, s).1.verdicts.contains_key(g),
        run_body(p, call, stack, s).1.verdicts[g] == s.verdicts[g],
    decreases room(p, stack), 2nat, 0int,
{
    if p.functions@.contains_key(call.func) && !s.verdicts.contains_key(call.func) {
        let s1 = if call.module_scope && mutates_imported_arg(p, call.effect) {
            s.with_error(error_at(ErrorKind::ImportedVarArgument, call.effect))
        } else {
            s
        };
        lemma_stand_effects(p, call, stack, s1, effects_in(p, call.func).len() as int, g);
    }
}

proof fn lemma_stand_effects(
    p: &ProjectInfo,
    call: CallTo,
    stack: Seq<Seq<char>>,
    s: CheckView,
    n: int,
    g: Seq<char>,
)
    requires
        p.effect_table.effects().ordered(),
        s.verdicts.contains_key(g),
        g != call.func,
        n <= effects_in(p, call.func).len(),
    ensures
        after_effects(p, call, stack, s, n).1.verdicts.contains_key(g),
        after_effects(p, call, stack, s, n).1.verdicts[g] == s.verdicts[g],
    decreases room(p, stack), 1nat, n,
{
    if n > 0 {
        lemma_stand_effects(p, call, stack, s, n - 1, g);
        let before = after_effects(p, call, stack, s, n - 1);
        lemma_stand_step(p, call, stack, before.0, before.1, n - 1, g);
    }
}

proof fn lemma_stand_step(
    p: &ProjectInfo,
    call: CallTo,
    stack: Seq<Seq<char>>,
    ret: bool,
    s: CheckView,
    i: int,
    g: Seq<char>,
)
    requires
        p.effect_table.effects().ordered(),
        s.verdicts.contains_key(g),
        g != call.func,
        0 <= i < effects_in(p, call.func).len(),
    ensures
        effect_step(p, call, stack, ret, s, i).1.verdicts.contains_key(g),
        effect_step(p, call, stack, ret, s, i).1.verdicts[g] == s.verdicts[g],
    decreases room(p, stack), 0nat, 0int,
{
    let func = call.func;
    let eff = effects_in(p, func)[i];
    if effect_error_kind(eff.kind) is None && eff.kind.runnable() {
        let list = callees(eff.kind, eff.name, p.classes.deep_view());
        let s1 = if mutates_imported_arg(p, eff) {
            s.marked(func, FunctionSafety::Unsafe)
        } else if !call.module_scope && passes_imported(eff) {
            lemma_stand_deferred(p, func, list, ret, s, list.len() as int, g);
            deferred(p, func, list, ret, s, list.len() as int).1
        } else {
            s
        };
        if !stack.contains(eff.name) {
            lemma_room(p, stack, func, i);
            let child = CallTo {
                caller: if call.module_scope {
                    call.caller
                } else {
                    p.module_of(func)
                },
                effect: eff,
                func: eff.name,
                module_scope: call.module_scope,
            };
            verdicts_stand(p, child, stack.push(eff.name), s1, g);
        }
    }
}

proof fn lemma_stand_deferred(
    p: &ProjectInfo,
    func: Seq<char>,
    list: Seq<(Seq<char>, usize)>,
    ret: bool,
    s: CheckView,
    n: int,
    g: Seq<char>,
)
    requires
        s.verdicts.contains_key(g),
        g != func,
    ensures
        deferred(p, func, list, ret, s, n).1.verdicts.contains_key(g),
        deferred(p, func, list, ret, s, n).1.verdicts[g] == s.verdicts[g],
    decreases n,
{
    if n > 0 {
        lemma_stand_deferred(p, func, list, ret, s, n - 1, g);
    }
}

/// Once a function of the project has been run, there is a verdict on it.
pub proof fn run_functions_get_verdicts(p: &ProjectInfo, call: CallTo, stack: Seq<Seq<char>>, s: CheckView)
    requires
        p.effect_table.effects().ordered(),
        p.functions@.contains_key(call.func),
    ensures
        run_body(p, call, stack, s).1.verdicts.contains_key(call.func),
{
}

/// There is a verdict on every function of the project.
pub open spec fn complete(p: &ProjectInfo, s: CheckView) -> bool {
    forall|f: Seq<char>| #[trigger] p.functions@.contains_key(f) ==> s.verdicts.contains_key(f)
}

/// Once there is a verdict on every function, checks only read the verdicts. So what they say of
/// a call does not depend on the order in which calls are checked.
pub proof fn complete_verdicts_are_only_read(
    p: &ProjectInfo,
    call: CallTo,
    stack: Seq<Seq<char>>,
    s: CheckView,
)
    requires
        p.effect_table.effects().ordered(),
        complete(p, s),
    ensures
        checked(p, call, stack, s).1.verdicts == s.verdicts,
        forall|t: CheckView|
            t.verdicts == s.verdicts ==> (#[trigger] checked(p, call, stack, t)).0 == checked(
                p,
                call,
                stack,
                s,
            ).0,
{
    lemma_read_call(p, call, stack, s);
    assert forall|t: CheckView| t.verdicts == s.verdicts implies (#[trigger] checked(p, call, stack, t)).0
        == checked(p, call, stack, s).0 by {
        lemma_read_call(p, call, stack, t);
        let calls = constructor_calls(p, call);
        lemma_read_all(p, calls, stack, s, t, calls.len() as int);
        lemma_read_body(p, call, stack, s, t);
        if resolvable(p, call.func, s) && parameterized_decorator(call.effect) {
            let inner = nested_calls(p, call);
            let (s1, t1) = if p.classes.deep_view().contains_key(call.func) {
                (
                    run_all(p, calls, stack, s, calls.len() as int).1,
                    run_all(p, calls, stack, t, calls.len() as int).1,
                )
            } else {
                (run_body(p, call, stack, s).1, run_body(p, call, stack, t).1)
            };
            lemma_read_all(p, inner, stack, s1, t1, inner.len() as int);
        }
    }
}

pub proof fn lemma_read_call(p: &ProjectInfo, call: CallTo, stack: Seq<Seq<char>>, s: CheckView)
    requires
        p.effect_table.effects().ordered(),
        complete(p, s),
    ensures
        checked(p, call, stack, s).1.verdicts == s.verdicts,
{
    if resolvable(p, call.func, s) {
        let calls = constructor_calls(p, call);
        let s1 = if p.classes.deep_view().contains_key(call.func) {
            lemma_read_all(p, calls, stack, s, s, calls.len() as int);
            run_all(p, calls, stack, s, calls.len() as int).1
        } else {
            lemma_read_body(p, call, stack, s, s);
            run_body(p, call, stack, s).1
        };
        if parameterized_decorator(call.effect) {
            let inner = nested_calls(p, call);
            lemma_read_all(p, inner, stack, s1, s1, inner.len() as int);
        }
    }
}

proof fn lemma_read_all(
    p: &ProjectInfo,
    calls: Seq<CallTo>,
    stack: Seq<Seq<char>>,
    s: CheckView,
    t: CheckView,
    n: int,
)
    requires
        p.effect_table.effects().ordered(),
        complete(p, s),
        s.verdicts == t.verdicts,
    ensures
        run_all(p, calls, stack, s, n).1.verdicts == s.verdicts,
        run_all(p, calls, stack, t, n).1.verdicts == s.verdicts,
        run_all(p, calls, stack, s, n).0 == run_all(p, calls, stack, t, n).0,
    decreases n,
{
    if n > 0 {
        lemma_read_all(p, calls, stack, s, t, n - 1);
        let s1 = run_all(p, calls, stack, s, n - 1).1;
        let t1 = run_all(p, calls, stack, t, n - 1).1;
        lemma_read_body(p, calls[n - 1], stack, s1, t1);
    }
}

proof fn lemma_read_body(p: &ProjectInfo, call: CallTo, stack: Seq<Seq<char>>, s: CheckView, t: CheckView)
    requires
        p.effect_table.effects().ordered(),
        complete(p, s),
        s.verdicts == t.verdicts,
    ensures
        run_body(p, call, stack, s).1.verdicts == s.verdicts,
        run_body(p, call, stack, t).1.verdicts == s.verdicts,
        run_body(p, call, stack, s).0 == run_body(p, call, stack, t).0,
{
    if p.functions@.contains_key(call.func) {
        assert(s.verdicts.contains_key(call.func));
    }
}

} // verus!
