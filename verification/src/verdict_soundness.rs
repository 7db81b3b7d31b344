//! Why verdicts can be relied on: a function answers for each of its effects.

use crate::call_check::{
    after_effects, blamed, checked, complete, constructor_calls, deferred, effect_step, effects_in, foreign,
    lemma_room, lemma_stand_body, mutates_imported_arg, nested_calls, parameterized_decorator, passes_imported,
    resolvable, run_all, run_body, run_functions_get_verdicts, verdicts_stand, CallTo, CheckView,
};
use crate::callees::callees;
use crate::effects::{EffectKind, EffectView};
use crate::errors::effect_error_kind;
use crate::module_safety::FunctionSafety;
use crate::project::{all_verdicts, only_recursive};
use crate::project_info::ProjectInfo;
use crate::recursion::recursive;
use crate::scope_check::{class_verdicts, function_verdicts, plain_call};
use vstd::prelude::*;

verus! {

/// An effect of this kind is harmful by itself, whoever runs it.
pub open spec fn is_harmful(kind: EffectKind) -> bool {
    ||| kind == EffectKind::ImportedVarMutation
    ||| kind == EffectKind::ProhibitedFunctionCall
    ||| kind == EffectKind::UnknownFunctionCall
    ||| kind == EffectKind::Raise
    ||| kind == EffectKind::CustomFinalizer
    ||| kind == EffectKind::ExecCall
    ||| kind == EffectKind::SysModulesAccess
    ||| kind == EffectKind::UnknownDecoratorCall
    ||| kind == EffectKind::UnknownEffects
    ||| kind == EffectKind::UnknownObject
    ||| kind == EffectKind::TooManyArgs
}

/// An effect of this kind is a call of something that may be a function of the project.
pub open spec fn is_call(kind: EffectKind) -> bool {
    ||| kind == EffectKind::FunctionCall
    ||| kind == EffectKind::ImportedFunctionCall
    ||| kind == EffectKind::DecoratorCall
    ||| kind == EffectKind::ImportedDecoratorCall
    ||| kind == EffectKind::MethodCall
    ||| kind == EffectKind::UnboundMethodCall
}

/// An effect of this kind changes what belongs to the module of the function.
pub open spec fn changes_globals(kind: EffectKind) -> bool {
    kind == EffectKind::GlobalVarAssign || kind == EffectKind::GlobalVarMutation
}

/// A call passes an imported variable to something that is none of the project's.
pub open spec fn passes_to_foreign(p: &ProjectInfo, eff: EffectView) -> bool {
    passes_imported(eff) && exists|c: int|
        0 <= c < callees(eff.kind, eff.name, p.classes.deep_view()).len() && foreign(
            p,
            (#[trigger] callees(eff.kind, eff.name, p.classes.deep_view())[c]).0,
        )
}

/// How bad the verdict on a function is at least that has an effect.
spec fn owed(p: &ProjectInfo, eff: EffectView) -> int {
    if is_harmful(eff.kind) || (eff.kind.runnable() && mutates_imported_arg(p, eff)) {
        FunctionSafety::Unsafe.place()
    } else if eff.kind.runnable() && (!p.callable(eff.name) || passes_to_foreign(p, eff)) {
        FunctionSafety::UnsafeMissingDep.place()
    } else if changes_globals(eff.kind) {
        FunctionSafety::UnsafeIfImported.place()
    } else {
        0
    }
}

/// There is a verdict on a function, and it is at least so bad.
spec fn at_least(s: CheckView, f: Seq<char>, l: int) -> bool {
    s.verdicts.contains_key(f) && s.verdicts[f].verdict.place() >= l
}

/// If there is a verdict on a function, it is at least so bad.
spec fn none_or_least(s: CheckView, f: Seq<char>, l: int) -> bool {
    s.verdicts.contains_key(f) ==> s.verdicts[f].verdict.place() >= l
}

/// There are verdicts only on what the project defines.
spec fn only_defined(p: &ProjectInfo, s: CheckView) -> bool {
    forall|g: Seq<char>| #[trigger] s.verdicts.contains_key(g) ==> p.defines(g)
}

/// What is asked of one effect of a function.
spec fn is_owed(p: &ProjectInfo, f: Seq<char>, i: int, l: int) -> bool {
    &&& p.effect_table.effects().ordered()
    &&& 0 <= i < effects_in(p, f).len()
    &&& 0 <= l <= owed(p, effects_in(p, f)[i])
}

proof fn lemma_deferred(
    p: &ProjectInfo,
    func: Seq<char>,
    list: Seq<(Seq<char>, usize)>,
    ret: bool,
    s: CheckView,
    n: int,
    c: int,
)
    requires
        p.functions@.contains_key(func),
        only_defined(p, s),
    ensures
        only_defined(p, deferred(p, func, list, ret, s, n).1),
        forall|g: Seq<char>| g != func ==> (deferred(p, func, list, ret, s, n).1.verdicts.contains_key(g)
            <==> #[trigger] s.verdicts.contains_key(g)),
        forall|g: Seq<char>| g != func && s.verdicts.contains_key(g) ==> deferred(
            p,
            func,
            list,
            ret,
            s,
            n,
        ).1.verdicts[g] == #[trigger] s.verdicts[g],
        forall|l: int| #[trigger] at_least(s, func, l) ==> at_least(deferred(p, func, list, ret, s, n).1, func, l),
        0 <= c < n && foreign(p, list[c].0) ==> at_least(
            deferred(p, func, list, ret, s, n).1,
            func,
            FunctionSafety::UnsafeMissingDep.place(),
        ),
    decreases n,
{
    if n > 0 {
        lemma_deferred(p, func, list, ret, s, n - 1, c);
    }
}

proof fn lemma_checked(
    p: &ProjectInfo,
    call: CallTo,
    stack: Seq<Seq<char>>,
    s: CheckView,
    f: Seq<char>,
    i: int,
    l: int,
)
    requires
        is_owed(p, f, i, l),
        !call.module_scope,
        only_defined(p, s),
        none_or_least(s, f, l),
    ensures
        only_defined(p, checked(p, call, stack, s).1),
        none_or_least(checked(p, call, stack, s).1, f, l),
    decreases room_of(p, stack), 5nat, 0int,
{
    if resolvable(p, call.func, s) {
        let calls = constructor_calls(p, call);
        let s1 = if p.classes.deep_view().contains_key(call.func) {
            lemma_all(p, calls, stack, s, calls.len() as int, f, i, l);
            run_all(p, calls, stack, s, calls.len() as int).1
        } else {
            lemma_body(p, call, stack, s, f, i, l);
            run_body(p, call, stack, s).1
        };
        if parameterized_decorator(call.effect) {
            let inner = nested_calls(p, call);
            lemma_all(p, inner, stack, s1, inner.len() as int, f, i, l);
        }
    }
}

spec fn room_of(p: &ProjectInfo, stack: Seq<Seq<char>>) -> nat {
    crate::call_check::room(p, stack)
}

proof fn lemma_all(
    p: &ProjectInfo,
    calls: Seq<CallTo>,
    stack: Seq<Seq<char>>,
    s: CheckView,
    n: int,
    f: Seq<char>,
    i: int,
    l: int,
)
    requires
        is_owed(p, f, i, l),
        forall|k: int| 0 <= k < calls.len() ==> !(#[trigger] calls[k]).module_scope,
        n <= calls.len(),
        only_defined(p, s),
        none_or_least(s, f, l),
    ensures
        only_defined(p, run_all(p, calls, stack, s, n).1),
        none_or_least(run_all(p, calls, stack, s, n).1, f, l),
    decreases room_of(p, stack), 3nat, n,
{
    if n > 0 {
        lemma_all(p, calls, stack, s, n - 1, f, i, l);
        lemma_body(p, calls[n - 1], stack, run_all(p, calls, stack, s, n - 1).1, f, i, l);
    }
}

proof fn lemma_body(
    p: &ProjectInfo,
    call: CallTo,
    stack: Seq<Seq<char>>,
    s: CheckView,
    f: Seq<char>,
    i: int,
    l: int,
)
    requires
        is_owed(p, f, i, l),
        !call.module_scope,
        only_defined(p, s),
        none_or_least(s, f, l),
    ensures
        only_defined(p, run_body(p, call, stack, s).1),
        none_or_least(run_body(p, call, stack, s).1, f, l),
        call.func == f && p.functions@.contains_key(f) && !s.verdicts.contains_key(f) ==> at_least(
            run_body(p, call, stack, s).1,
            f,
            owed(p, effects_in(p, f)[i]),
        ),
    decreases room_of(p, stack), 2nat, 0int,
{
    if p.functions@.contains_key(call.func) && !s.verdicts.contains_key(call.func) {
        let n = effects_in(p, call.func).len() as int;
        lemma_effects(p, call, stack, s, n, f, i, l);
    }
}

proof fn lemma_effects(
    p: &ProjectInfo,
    call: CallTo,
    stack: Seq<Seq<char>>,
    s: CheckView,
    n: int,
    f: Seq<char>,
    i: int,
    l: int,
)
    requires
        is_owed(p, f, i, l),
        !call.module_scope,
        p.functions@.contains_key(call.func),
        only_defined(p, s),
        none_or_least(s, f, l),
        n <= effects_in(p, call.func).len(),
    ensures
        only_defined(p, after_effects(p, call, stack, s, n).1),
        call.func != f ==> none_or_least(after_effects(p, call, stack, s, n).1, f, l),
        call.func == f && i < n && owed(p, effects_in(p, f)[i]) > 0 ==> at_least(
            after_effects(p, call, stack, s, n).1,
            f,
            owed(p, effects_in(p, f)[i]),
        ),
    decreases room_of(p, stack), 1nat, n,
{
    if n > 0 {
        lemma_effects(p, call, stack, s, n - 1, f, i, l);
        let before = after_effects(p, call, stack, s, n - 1);
        let q = if call.func == f {
            owed(p, effects_in(p, f)[i])
        } else {
            l
        };
        lemma_step(p, call, stack, before.0, before.1, n - 1, f, i, q);
    }
}

proof fn lemma_step(
    p: &ProjectInfo,
    call: CallTo,
    stack: Seq<Seq<char>>,
    ret: bool,
    s: CheckView,
    j: int,
    f: Seq<char>,
    i: int,
    l: int,
)
    requires
        is_owed(p, f, i, l),
        !call.module_scope,
        p.functions@.contains_key(call.func),
        only_defined(p, s),
        call.func != f ==> none_or_least(s, f, l),
        0 <= j < effects_in(p, call.func).len(),
    ensures
        only_defined(p, effect_step(p, call, stack, ret, s, j).1),
        call.func != f ==> none_or_least(effect_step(p, call, stack, ret, s, j).1, f, l),
        call.func == f && at_least(s, f, l) ==> at_least(effect_step(p, call, stack, ret, s, j).1, f, l),
        call.func == f && j == i && owed(p, effects_in(p, f)[i]) > 0 ==> at_least(
            effect_step(p, call, stack, ret, s, j).1,
            f,
            owed(p, effects_in(p, f)[i]),
        ),
    decreases room_of(p, stack), 0nat, 0int,
{
    let func = call.func;
    let eff = effects_in(p, func)[j];
    let after = effect_step(p, call, stack, ret, s, j).1;
    if effect_error_kind(eff.kind) is None && eff.kind.runnable() {
        let list = callees(eff.kind, eff.name, p.classes.deep_view());
        let c = choose|c: int| 0 <= c < list.len() && foreign(p, (#[trigger] list[c]).0);
        let s1 = if mutates_imported_arg(p, eff) {
            s.marked(func, FunctionSafety::Unsafe)
        } else if passes_imported(eff) {
            lemma_deferred(p, func, list, ret, s, list.len() as int, c);
            deferred(p, func, list, ret, s, list.len() as int).1
        } else {
            s
        };
        assert(only_defined(p, s1));
        assert(at_least(s, func, l) ==> at_least(s1, func, l));
        if func != f {
            assert(s1.verdicts.contains_key(f) <==> s.verdicts.contains_key(f));
            assert(s1.verdicts.contains_key(f) ==> s1.verdicts[f] == s.verdicts[f]);
        }
        if !stack.contains(eff.name) {
            lemma_room(p, stack, func, j);
            let child = CallTo { caller: p.module_of(func), effect: eff, func: eff.name, module_scope: false };
            let q = if func == f && s1.verdicts.contains_key(f) {
                if s1.verdicts[f].verdict.place() < l {
                    s1.verdicts[f].verdict.place()
                } else {
                    l
                }
            } else {
                l
            };
            lemma_checked(p, child, stack.push(eff.name), s1, f, i, q);
            let (ok, s2) = checked(p, child, stack.push(eff.name), s1);
            if s1.verdicts.contains_key(func) {
                verdicts_stand(p, child, stack.push(eff.name), s1, func);
            }
            if !ok {
                assert(after == blamed(p, func, eff.name, s2));
            }
        }
    }
}

proof fn lemma_recursive_defined(p: &ProjectInfo, f: Seq<char>)
    requires
        recursive(p, f),
    ensures
        p.defines(f),
{
    let relation = crate::recursion::call_relation(p);
    let walk = choose|walk: Seq<Seq<char>>| #[trigger]
        crate::graph::is_walk(relation, walk) && walk.len() > 1 && walk.first() == f && walk.last() == f;
    let k = walk.len() - 2;
    assert(relation(walk[k], walk[k + 1]));
}

proof fn lemma_class_pass(p: &ProjectInfo, s: CheckView, n: int, f: Seq<char>, i: int, l: int)
    requires
        is_owed(p, f, i, l),
        p.classes.classes().ordered(),
        !p.classes.deep_view().contains_key(f),
        n <= p.classes.classes().keys().len(),
        only_defined(p, s),
        none_or_least(s, f, l),
    ensures
        only_defined(p, class_verdicts(p, s, n)),
        none_or_least(class_verdicts(p, s, n), f, l),
    decreases n,
{
    if n > 0 {
        lemma_class_pass(p, s, n - 1, f, i, l);
        let before = class_verdicts(p, s, n - 1);
        let name = p.classes.classes().keys()[n - 1];
        assert(p.classes.classes().keys().contains(name));
        assert(p.classes.deep_view().contains_key(name));
        let calls = constructor_calls(p, plain_call(name, name));
        lemma_all(p, calls, Seq::empty(), before, calls.len() as int, f, i, l);
    }
}

proof fn lemma_function_pass(p: &ProjectInfo, s: CheckView, n: int, f: Seq<char>, i: int, l: int)
    requires
        is_owed(p, f, i, l),
        p.functions.ordered(),
        n <= p.functions.keys().len(),
        only_defined(p, s),
        none_or_least(s, f, l),
    ensures
        only_defined(p, function_verdicts(p, s, n)),
        none_or_least(function_verdicts(p, s, n), f, l),
        forall|k: int| 0 <= k < n ==> function_verdicts(p, s, n).verdicts.contains_key(#[trigger] p.functions.keys()[k]),
    decreases n,
{
    if n > 0 {
        lemma_function_pass(p, s, n - 1, f, i, l);
        let before = function_verdicts(p, s, n - 1);
        let name = p.functions.keys()[n - 1];
        assert(p.functions.keys().contains(name));
        let call = plain_call(p.module_of(name), name);
        if !before.verdicts.contains_key(name) {
            lemma_body(p, call, Seq::empty(), before, f, i, l);
            run_functions_get_verdicts(p, call, Seq::empty(), before);
        }
        assert forall|k: int| 0 <= k < n implies function_verdicts(p, s, n).verdicts.contains_key(
            #[trigger] p.functions.keys()[k],
        ) by {
            if k < n - 1 && !before.verdicts.contains_key(name) {
                lemma_stand_body(p, call, Seq::empty(), before, p.functions.keys()[k]);
            }
        }
    }
}

/// Every function answers for its own effects. One with a harmful effect, or that passes something
/// imported to what mutates it, is unsafe. One that calls what is not known, or that passes it
/// something imported, is no better than one that lacks a callee. One that changes something global
/// may not be called from other modules.
pub proof fn functions_answer_for_their_effects(p: &ProjectInfo, f: Seq<char>, i: int)
    requires
        p.effect_table.effects().ordered(),
        p.functions.ordered(),
        p.classes.classes().ordered(),
        p.functions@.contains_key(f),
        !p.classes.deep_view().contains_key(f),
        0 <= i < effects_in(p, f).len(),
    ensures
        all_verdicts(p).verdicts.contains_key(f),
        is_harmful(effects_in(p, f)[i].kind) || (is_call(effects_in(p, f)[i].kind) && mutates_imported_arg(
            p,
            effects_in(p, f)[i],
        )) ==> all_verdicts(p).verdicts[f].verdict == FunctionSafety::Unsafe,
        is_call(effects_in(p, f)[i].kind) && (!p.callable(effects_in(p, f)[i].name) || passes_to_foreign(
            p,
            effects_in(p, f)[i],
        )) ==> all_verdicts(p).verdicts[f].verdict == FunctionSafety::UnsafeMissingDep
            || all_verdicts(p).verdicts[f].verdict == FunctionSafety::Unsafe,
        changes_globals(effects_in(p, f)[i].kind) ==> all_verdicts(p).verdicts[f].verdict != FunctionSafety::Safe,
{
    let l = owed(p, effects_in(p, f)[i]);
    let start = only_recursive(p);
    let classes = p.classes.classes().keys().len() as int;
    let functions = p.functions.keys();
    assert forall|g: Seq<char>| #[trigger] start.verdicts.contains_key(g) implies p.defines(g) by {
        lemma_recursive_defined(p, g);
    }
    lemma_class_pass(p, start, classes, f, i, l);
    lemma_function_pass(p, class_verdicts(p, start, classes), functions.len() as int, f, i, l);
    assert(functions.contains(f));
    let k = functions.index_of(f);
    assert(all_verdicts(p).verdicts.contains_key(functions[k]));
}

/// There is a verdict on every function of a project, once all have been looked at.
pub proof fn every_function_has_a_verdict(p: &ProjectInfo)
    requires
        p.effect_table.effects().ordered(),
        p.functions.ordered(),
    ensures
        complete(p, all_verdicts(p)),
{
    let start = only_recursive(p);
    let half = class_verdicts(p, start, p.classes.classes().keys().len() as int);
    let functions = p.functions.keys();
    assert forall|f: Seq<char>| #[trigger] p.functions@.contains_key(f) implies all_verdicts(
        p,
    ).verdicts.contains_key(f) by {
        assert(functions.contains(f));
        lemma_looked_at(p, half, functions.len() as int, functions.index_of(f));
    }
}

proof fn lemma_looked_at(p: &ProjectInfo, s: CheckView, n: int, k: int)
    requires
        p.effect_table.effects().ordered(),
        p.functions.ordered(),
        0 <= k < n <= p.functions.keys().len(),
    ensures
        function_verdicts(p, s, n).verdicts.contains_key(p.functions.keys()[k]),
    decreases n,
{
    let before = function_verdicts(p, s, n - 1);
    let name = p.functions.keys()[n - 1];
    assert(p.functions.keys().contains(name));
    let call = plain_call(p.module_of(name), name);
    if k < n - 1 {
        lemma_looked_at(p, s, n - 1, k);
        if !before.verdicts.contains_key(name) {
            lemma_stand_body(p, call, Seq::empty(), before, p.functions.keys()[k]);
        }
    } else if !before.verdicts.contains_key(name) {
        run_functions_get_verdicts(p, call, Seq::empty(), before);
    }
}

} // verus!
