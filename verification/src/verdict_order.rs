//! Why verdicts do not depend on the order in which functions are looked at.

use crate::call_check::{
    after_effects, checked, constructor_calls, deferred, effect_step, effects_in, foreign,
    mutates_imported_arg, nested_calls, parameterized_decorator, passes_imported, resolvable,
    run_all, run_body, safe_for, CallTo, CheckView,
};
use crate::callees::{callees, constructor_names};
use crate::effects::{EffectKind, EffectView};
use crate::errors::effect_error_kind;
use crate::module_name::texts;
use crate::module_safety::{FunctionInfoView, FunctionSafety};
use crate::project::{all_verdicts, only_recursive};
use crate::project_info::ProjectInfo;
use crate::recursion::recursive;
use crate::scope_check::{
    class_verdict, class_verdicts, function_verdict, function_verdicts, plain_call,
};
use crate::verdict_soundness::{changes_globals, is_harmful};
use vstd::prelude::*;

verus! {

/// A measure of names, by which calls can be seen to lead somewhere.
pub type Rank = spec_fn(Seq<char>) -> nat;

/// The functions directly inside of another.
pub open spec fn nested_names(p: &ProjectInfo, name: Seq<char>) -> Seq<Seq<char>> {
    if p.nested_functions@.contains_key(name) {
        texts(p.nested_functions@[name]@)
    } else {
        Seq::empty()
    }
}

/// A call runs a function: the one that is called, a constructor of the class that is called, or one
/// that a decorator with arguments returns.
pub open spec fn runs(p: &ProjectInfo, eff: EffectView, b: Seq<char>) -> bool {
    ||| (p.classes.deep_view().contains_key(eff.name) && constructor_names(
        eff.name,
        p.classes.deep_view(),
    ).contains(b))
    ||| (!p.classes.deep_view().contains_key(eff.name) && b == eff.name)
    ||| (parameterized_decorator(eff) && nested_names(p, eff.name).contains(b))
}

/// A function of the project of which it is not known from the start that it is unsafe.
pub open spec fn open_function(p: &ProjectInfo, f: Seq<char>) -> bool {
    p.functions@.contains_key(f) && !recursive(p, f)
}

/// A call leads down: what it names lies below the function, and what it runs below what it names.
pub open spec fn goes_down(p: &ProjectInfo, rank: Rank, f: Seq<char>, eff: EffectView) -> bool {
    &&& rank(eff.name) < rank(f)
    &&& forall|b: Seq<char>| #[trigger]
        runs(p, eff, b) && open_function(p, b) ==> b == eff.name || rank(b) < rank(eff.name)
}

/// Once the functions that may call themselves are set apart, calls never lead in a circle.
pub open spec fn calls_go_down(p: &ProjectInfo, rank: Rank) -> bool {
    forall|f: Seq<char>, i: int|
        open_function(p, f) && 0 <= i < effects_in(p, f).len() && (#[trigger] effects_in(p, f)[i]).kind.runnable()
            ==> goes_down(p, rank, f, effects_in(p, f)[i])
}

/// No class has the name of a function.
pub open spec fn names_apart(p: &ProjectInfo) -> bool {
    forall|x: Seq<char>|
        !(#[trigger] p.functions@.contains_key(x) && p.classes.deep_view().contains_key(x))
}

/// What is known of a function in a state.
spec fn entry_of(s: CheckView, f: Seq<char>) -> Option<FunctionInfoView> {
    if s.verdicts.contains_key(f) {
        Some(s.verdicts[f])
    } else {
        None
    }
}

/// A state in which nothing is known but of one function.
spec fn only(f: Seq<char>, entry: Option<FunctionInfoView>) -> CheckView {
    CheckView {
        verdicts: match entry {
            Some(info) => Map::empty().insert(f, info),
            None => Map::empty(),
        },
        errors: Seq::empty(),
    }
}

/// What is known of a function allows a call.
spec fn entry_allows(entry: Option<FunctionInfoView>, cross: bool) -> bool {
    match entry {
        Some(info) => safe_for(info.verdict, cross),
        None => true,
    }
}

/// The verdict on a function that lies below a limit.
spec fn verdict_below(p: &ProjectInfo, rank: Rank, limit: nat, b: Seq<char>) -> FunctionInfoView
    decreases limit, 0nat, 0int,
{
    if recursive(p, b) {
        FunctionInfoView::plain(FunctionSafety::Unsafe)
    } else if rank(b) < limit {
        own_verdict(p, rank, b)
    } else {
        FunctionInfoView::plain(FunctionSafety::Safe)
    }
}

/// A function that lies below a limit can be run.
spec fn runs_well(p: &ProjectInfo, rank: Rank, limit: nat, caller: Seq<char>, b: Seq<char>) -> bool
    decreases limit, 1nat, 0int,
{
    p.functions@.contains_key(b) ==> safe_for(
        verdict_below(p, rank, limit, b).verdict,
        caller != p.module_of(b),
    )
}

/// The first `n` of some functions that lie below a limit can be run.
spec fn all_run_well(
    p: &ProjectInfo,
    rank: Rank,
    limit: nat,
    caller: Seq<char>,
    names: Seq<Seq<char>>,
    n: int,
) -> bool
    decreases limit, 2nat, n,
{
    if n <= 0 {
        true
    } else {
        all_run_well(p, rank, limit, caller, names, n - 1) && runs_well(p, rank, limit, caller, names[n - 1])
    }
}

/// A call of what lies below a limit is safe.
spec fn call_is_safe(p: &ProjectInfo, rank: Rank, limit: nat, caller: Seq<char>, eff: EffectView) -> bool
    decreases limit, 3nat, 0int,
{
    let names = constructor_names(eff.name, p.classes.deep_view());
    let nested = nested_names(p, eff.name);
    &&& p.callable(eff.name) || recursive(p, eff.name)
    &&& if p.classes.deep_view().contains_key(eff.name) {
        all_run_well(p, rank, limit, caller, names, names.len() as int)
    } else {
        runs_well(p, rank, limit, caller, eff.name)
    }
    &&& parameterized_decorator(eff) ==> all_run_well(
        p,
        rank,
        limit,
        caller,
        nested,
        nested.len() as int,
    )
}

/// What is known of a function after one more of its effects.
spec fn own_step(
    p: &ProjectInfo,
    rank: Rank,
    f: Seq<char>,
    eff: EffectView,
    entry: Option<FunctionInfoView>,
) -> Option<FunctionInfoView>
    decreases rank(f), 4nat, 0int,
{
    let unsafe_info = Some(FunctionInfoView::plain(FunctionSafety::Unsafe));
    if effect_error_kind(eff.kind) is Some {
        unsafe_info
    } else if eff.kind.runnable() {
        let list = callees(eff.kind, eff.name, p.classes.deep_view());
        let first = if mutates_imported_arg(p, eff) {
            unsafe_info
        } else if passes_imported(eff) {
            entry_of(deferred(p, f, list, true, only(f, entry), list.len() as int).1, f)
        } else {
            entry
        };
        let known = p.functions@.contains_key(eff.name);
        let verdict = verdict_below(p, rank, rank(f), eff.name).verdict;
        if !call_is_safe(p, rank, rank(f), p.module_of(f), eff) {
            if (known && verdict == FunctionSafety::UnsafeMissingDep) || !(p.callable(eff.name) || recursive(
                p,
                eff.name,
            )) {
                if first matches Some(info) && info.verdict == FunctionSafety::Unsafe {
                    first
                } else {
                    entry_of(only(f, first).marked_missing(f, eff.name), f)
                }
            } else {
                unsafe_info
            }
        } else if known && verdict == FunctionSafety::UnsafeIfImported && p.module_of(eff.name) == p.module_of(f) {
            entry_of(only(f, first).marked_if_imported(f), f)
        } else {
            first
        }
    } else if eff.kind == EffectKind::ImportedVarMutation {
        unsafe_info
    } else if (eff.kind == EffectKind::GlobalVarAssign || eff.kind == EffectKind::GlobalVarMutation) && !(
    entry matches Some(info) && info.verdict.place() >= FunctionSafety::UnsafeMissingDep.place()) {
        entry_of(only(f, entry).marked_if_imported(f), f)
    } else {
        entry
    }
}

/// What is known of a function after its first `n` effects.
spec fn own_after(p: &ProjectInfo, rank: Rank, f: Seq<char>, n: int) -> Option<FunctionInfoView>
    decreases rank(f), 5nat, n,
{
    if n <= 0 {
        None
    } else {
        own_step(p, rank, f, effects_in(p, f)[n - 1], own_after(p, rank, f, n - 1))
    }
}

/// The verdict on a function, from its own effects and the verdicts on what it calls.
spec fn own_verdict(p: &ProjectInfo, rank: Rank, f: Seq<char>) -> FunctionInfoView
    decreases rank(f), 6nat, 0int,
{
    match own_after(p, rank, f, effects_in(p, f).len() as int) {
        Some(info) => info,
        None => FunctionInfoView::plain(FunctionSafety::Safe),
    }
}

/// The verdict on a function.
spec fn settled_verdict(p: &ProjectInfo, rank: Rank, b: Seq<char>) -> FunctionInfoView {
    if recursive(p, b) {
        FunctionInfoView::plain(FunctionSafety::Unsafe)
    } else {
        own_verdict(p, rank, b)
    }
}

/// The verdict on a function allows a call.
spec fn allowed(p: &ProjectInfo, rank: Rank, caller: Seq<char>, b: Seq<char>) -> bool {
    p.functions@.contains_key(b) ==> safe_for(
        settled_verdict(p, rank, b).verdict,
        caller != p.module_of(b),
    )
}

/// The verdicts on the first `n` of some functions allow calls of them.
spec fn all_allowed(p: &ProjectInfo, rank: Rank, caller: Seq<char>, names: Seq<Seq<char>>, n: int) -> bool
    decreases n,
{
    if n <= 0 {
        true
    } else {
        all_allowed(p, rank, caller, names, n - 1) && allowed(p, rank, caller, names[n - 1])
    }
}

/// The verdict on a class.
spec fn class_info(p: &ProjectInfo, rank: Rank, x: Seq<char>) -> FunctionInfoView {
    let names = constructor_names(x, p.classes.deep_view());
    FunctionInfoView::plain(
        if all_allowed(p, rank, x, names, names.len() as int) {
            FunctionSafety::Safe
        } else {
            FunctionSafety::Unsafe
        },
    )
}

/// What is known in a state is what will be known in the end, but for functions that are being looked
/// at.
spec fn sound(p: &ProjectInfo, rank: Rank, s: CheckView, busy: Set<Seq<char>>) -> bool {
    &&& forall|g: Seq<char>| #[trigger]
        recursive(p, g) ==> s.verdicts.contains_key(g) && s.verdicts[g] == FunctionInfoView::plain(
            FunctionSafety::Unsafe,
        )
    &&& forall|g: Seq<char>| #[trigger]
        s.verdicts.contains_key(g) && !busy.contains(g) && !recursive(p, g) ==> {
            ||| (p.functions@.contains_key(g) && s.verdicts[g] == own_verdict(p, rank, g))
            ||| (p.classes.deep_view().contains_key(g) && !p.functions@.contains_key(g) && s.verdicts[g]
                == class_info(p, rank, g))
        }
}

/// Functions that are being looked at lie no lower than a limit.
spec fn all_above(p: &ProjectInfo, rank: Rank, busy: Set<Seq<char>>, limit: nat) -> bool {
    forall|g: Seq<char>| #[trigger] busy.contains(g) ==> open_function(p, g) && rank(g) >= limit
}

/// The names on a stack lie no lower than a limit.
spec fn stack_above(rank: Rank, stack: Seq<Seq<char>>, limit: nat) -> bool {
    forall|x: Seq<char>| #[trigger] stack.contains(x) ==> rank(x) >= limit
}

/// What is known of functions that are being looked at does not change.
spec fn left_alone(before: CheckView, after: CheckView, busy: Set<Seq<char>>) -> bool {
    forall|g: Seq<char>| #[trigger] busy.contains(g) ==> entry_of(after, g) == entry_of(before, g)
}

/// What holds of every project that the law speaks of.
spec fn in_order(p: &ProjectInfo, rank: Rank) -> bool {
    &&& p.effect_table.effects().ordered()
    &&& calls_go_down(p, rank)
    &&& names_apart(p)
}

/// What is below a limit has the verdict that it has.
proof fn lemma_below(p: &ProjectInfo, rank: Rank, limit: nat, caller: Seq<char>, b: Seq<char>)
    requires
        open_function(p, b) ==> rank(b) < limit,
    ensures
        runs_well(p, rank, limit, caller, b) == allowed(p, rank, caller, b),
        p.functions@.contains_key(b) ==> verdict_below(p, rank, limit, b) == settled_verdict(p, rank, b),
{
}

proof fn lemma_all_below(
    p: &ProjectInfo,
    rank: Rank,
    limit: nat,
    caller: Seq<char>,
    names: Seq<Seq<char>>,
    n: int,
)
    requires
        n <= names.len(),
        forall|i: int| 0 <= i < names.len() && open_function(p, #[trigger] names[i]) ==> rank(names[i]) < limit,
    ensures
        all_run_well(p, rank, limit, caller, names, n) == all_allowed(p, rank, caller, names, n),
    decreases n,
{
    if n > 0 {
        lemma_all_below(p, rank, limit, caller, names, n - 1);
        lemma_below(p, rank, limit, caller, names[n - 1]);
    }
}

/// What a function lacks for passing on imported variables depends on what is known of it alone.
proof fn lemma_deferred(
    p: &ProjectInfo,
    f: Seq<char>,
    list: Seq<(Seq<char>, usize)>,
    ret: bool,
    s: CheckView,
    n: int,
    cross: bool,
)
    requires
        ret == entry_allows(entry_of(s, f), cross),
    ensures
        ({
            let (r, after) = deferred(p, f, list, ret, s, n);
            let entry = entry_of(deferred(p, f, list, true, only(f, entry_of(s, f)), n).1, f);
            &&& entry_of(after, f) == entry
            &&& r == entry_allows(entry, cross)
            &&& forall|g: Seq<char>| g != f ==> #[trigger] entry_of(after, g) == entry_of(s, g)
        }),
    decreases n,
{
    if n > 0 {
        lemma_deferred(p, f, list, ret, s, n - 1, cross);
        let before = deferred(p, f, list, ret, s, n - 1);
        let small = deferred(p, f, list, true, only(f, entry_of(s, f)), n - 1);
        let callee = list[n - 1].0;
        if foreign(p, callee) {
            let after = before.1.marked_missing(f, callee);
            assert(entry_of(before.1, f) == entry_of(small.1, f));
            assert(before.1.verdicts.contains_key(f) == small.1.verdicts.contains_key(f));
            assert(entry_of(after, f) == entry_of(small.1.marked_missing(f, callee), f));
            assert forall|g: Seq<char>| g != f implies #[trigger] entry_of(after, g) == entry_of(s, g) by {
                assert(entry_of(before.1, g) == entry_of(s, g));
            }
        }
    } else {
        assert(entry_of(only(f, entry_of(s, f)), f) == entry_of(s, f));
    }
}

/// A function that is known, or none, is run at once.
proof fn lemma_known_body(
    p: &ProjectInfo,
    rank: Rank,
    call: CallTo,
    stack: Seq<Seq<char>>,
    s: CheckView,
    busy: Set<Seq<char>>,
)
    requires
        in_order(p, rank),
        !call.module_scope,
        sound(p, rank, s, busy),
        !p.functions@.contains_key(call.func) || (s.verdicts.contains_key(call.func) && !busy.contains(call.func)),
    ensures
        run_body(p, call, stack, s) == (allowed(p, rank, call.caller, call.func), s),
{
}

/// A function that is run gets the verdict that it has, whatever is known before.
proof fn lemma_body(
    p: &ProjectInfo,
    rank: Rank,
    call: CallTo,
    stack: Seq<Seq<char>>,
    s: CheckView,
    busy: Set<Seq<char>>,
)
    requires
        in_order(p, rank),
        !call.module_scope,
        sound(p, rank, s, busy),
        open_function(p, call.func),
        all_above(p, rank, busy, rank(call.func) + 1),
        stack_above(rank, stack, rank(call.func)),
    ensures
        ({
            let (r, after) = run_body(p, call, stack, s);
            &&& sound(p, rank, after, busy)
            &&& left_alone(s, after, busy)
            &&& r == allowed(p, rank, call.caller, call.func)
            &&& after.verdicts.contains_key(call.func)
        }),
    decreases rank(call.func), 9nat, 0int,
{
    let f = call.func;
    assert(!busy.contains(f));
    if s.verdicts.contains_key(f) {
        lemma_known_body(p, rank, call, stack, s, busy);
    } else {
        let n = effects_in(p, f).len() as int;
        let (ret, after) = after_effects(p, call, stack, s, n);
        lemma_effects(p, rank, call, stack, s, busy, n);
        let last = run_body(p, call, stack, s).1;
        assert(own_verdict(p, rank, f) == last.verdicts[f]);
        assert forall|g: Seq<char>| #[trigger]
            last.verdicts.contains_key(g) && !busy.contains(g) && !recursive(p, g) implies {
            ||| (p.functions@.contains_key(g) && last.verdicts[g] == own_verdict(p, rank, g))
            ||| (p.classes.deep_view().contains_key(g) && !p.functions@.contains_key(g) && last.verdicts[g]
                == class_info(p, rank, g))
        } by {
            if g != f {
                assert(after.verdicts.contains_key(g));
                assert(!busy.insert(f).contains(g));
            }
        }
        assert forall|g: Seq<char>| #[trigger] busy.contains(g) implies entry_of(last, g) == entry_of(s, g) by {
            assert(entry_of(after, g) == entry_of(s, g));
        }
    }
}

proof fn lemma_effects(
    p: &ProjectInfo,
    rank: Rank,
    call: CallTo,
    stack: Seq<Seq<char>>,
    s: CheckView,
    busy: Set<Seq<char>>,
    n: int,
)
    requires
        in_order(p, rank),
        !call.module_scope,
        sound(p, rank, s, busy),
        open_function(p, call.func),
        !s.verdicts.contains_key(call.func),
        all_above(p, rank, busy, rank(call.func) + 1),
        stack_above(rank, stack, rank(call.func)),
        n <= effects_in(p, call.func).len(),
    ensures
        ({
            let (ret, after) = after_effects(p, call, stack, s, n);
            let entry = own_after(p, rank, call.func, n);
            &&& sound(p, rank, after, busy.insert(call.func))
            &&& left_alone(s, after, busy)
            &&& entry_of(after, call.func) == entry
            &&& ret == entry_allows(entry, call.caller != p.module_of(call.func))
        }),
    decreases rank(call.func), 8nat, n,
{
    if n > 0 {
        lemma_effects(p, rank, call, stack, s, busy, n - 1);
        let (ret, before) = after_effects(p, call, stack, s, n - 1);
        lemma_step(p, rank, call, stack, ret, before, busy, n - 1);
    }
}

proof fn lemma_step(
    p: &ProjectInfo,
    rank: Rank,
    call: CallTo,
    stack: Seq<Seq<char>>,
    ret: bool,
    s: CheckView,
    busy: Set<Seq<char>>,
    i: int,
)
    requires
        in_order(p, rank),
        !call.module_scope,
        sound(p, rank, s, busy.insert(call.func)),
        open_function(p, call.func),
        all_above(p, rank, busy, rank(call.func) + 1),
        stack_above(rank, stack, rank(call.func)),
        0 <= i < effects_in(p, call.func).len(),
        ret == entry_allows(entry_of(s, call.func), call.caller != p.module_of(call.func)),
    ensures
        ({
            let (r, after) = effect_step(p, call, stack, ret, s, i);
            let entry = own_step(p, rank, call.func, effects_in(p, call.func)[i], entry_of(s, call.func));
            &&& sound(p, rank, after, busy.insert(call.func))
            &&& left_alone(s, after, busy)
            &&& entry_of(after, call.func) == entry
            &&& r == entry_allows(entry, call.caller != p.module_of(call.func))
        }),
    decreases rank(call.func), 7nat, 0int,
{
    let f = call.func;
    let eff = effects_in(p, f)[i];
    let cross = call.caller != p.module_of(f);
    let more = busy.insert(f);
    let after = effect_step(p, call, stack, ret, s, i).1;
    assert(!busy.contains(f));
    if effect_error_kind(eff.kind) is None && eff.kind.runnable() {
        let list = callees(eff.kind, eff.name, p.classes.deep_view());
        let (r1, s1) = if mutates_imported_arg(p, eff) {
            (false, s.marked(f, FunctionSafety::Unsafe))
        } else if passes_imported(eff) {
            lemma_deferred(p, f, list, ret, s, list.len() as int, cross);
            deferred(p, f, list, ret, s, list.len() as int)
        } else {
            (ret, s)
        };
        lemma_other_entries(p, rank, s, s1, busy, f);
        assert(goes_down(p, rank, f, eff));
        assert(!stack.contains(eff.name));
        let child = CallTo {
            caller: p.module_of(f),
            effect: eff,
            func: eff.name,
            module_scope: false,
        };
        let wider = stack.push(eff.name);
        assert forall|x: Seq<char>| #[trigger] wider.contains(x) implies rank(x) >= rank(eff.name) by {
            if x != eff.name {
                let k = wider.index_of(x);
                assert(stack[k] == x);
                assert(stack.contains(x));
            }
        }
        assert(all_above(p, rank, more, rank(f)));
        lemma_call(p, rank, child, wider, s1, more, rank(f));
        let (ok, s2) = checked(p, child, wider, s1);
        assert(entry_of(s2, f) == entry_of(s1, f)) by {
            assert(more.contains(f));
        }
        assert forall|g: Seq<char>| #[trigger] busy.contains(g) implies entry_of(s2, g) == entry_of(s, g) by {
            assert(more.contains(g));
        }
        lemma_callee(p, rank, child, s2, more, f);
        lemma_other_entries(p, rank, s2, after, busy, f);
        assert forall|g: Seq<char>| #[trigger] busy.contains(g) implies entry_of(after, g) == entry_of(s, g) by {
            assert(entry_of(after, g) == entry_of(s2, g));
        }
    } else {
        lemma_other_entries(p, rank, s, after, busy, f);
    }
}

/// A state that differs from another only in what is known of a function that is being looked at.
proof fn lemma_other_entries(
    p: &ProjectInfo,
    rank: Rank,
    before: CheckView,
    after: CheckView,
    busy: Set<Seq<char>>,
    f: Seq<char>,
)
    requires
        sound(p, rank, before, busy.insert(f)),
        open_function(p, f),
        forall|g: Seq<char>| g != f ==> #[trigger] entry_of(after, g) == entry_of(before, g),
    ensures
        sound(p, rank, after, busy.insert(f)),
{
    assert forall|g: Seq<char>| #[trigger] recursive(p, g) implies after.verdicts.contains_key(g)
        && after.verdicts[g] == FunctionInfoView::plain(FunctionSafety::Unsafe) by {
        assert(entry_of(after, g) == entry_of(before, g));
    }
    assert forall|g: Seq<char>| #[trigger]
        after.verdicts.contains_key(g) && !busy.insert(f).contains(g) && !recursive(p, g) implies {
        ||| (p.functions@.contains_key(g) && after.verdicts[g] == own_verdict(p, rank, g))
        ||| (p.classes.deep_view().contains_key(g) && !p.functions@.contains_key(g) && after.verdicts[g]
            == class_info(p, rank, g))
    } by {
        assert(entry_of(after, g) == entry_of(before, g));
        assert(before.verdicts.contains_key(g));
    }
}

/// What is known of a callee once it was called.
proof fn lemma_callee(
    p: &ProjectInfo,
    rank: Rank,
    child: CallTo,
    s: CheckView,
    busy: Set<Seq<char>>,
    f: Seq<char>,
)
    requires
        in_order(p, rank),
        sound(p, rank, s, busy),
        all_above(p, rank, busy, rank(f)),
        rank(child.func) < rank(f),
        p.functions@.contains_key(child.func) ==> s.verdicts.contains_key(child.func),
    ensures
        resolvable(p, child.func, s) == (p.callable(child.func) || recursive(p, child.func)),
        forall|v: FunctionSafety|
            v == FunctionSafety::UnsafeMissingDep || v == FunctionSafety::UnsafeIfImported
                ==> #[trigger] s.has_verdict(child.func, v) == (p.functions@.contains_key(child.func)
                && verdict_below(p, rank, rank(f), child.func).verdict == v),
{
    let g = child.func;
    assert(!busy.contains(g));
    if s.verdicts.contains_key(g) && !recursive(p, g) {
        assert(p.functions@.contains_key(g) || p.classes.deep_view().contains_key(g));
    }
}

/// A call is safe or not whatever is known before.
proof fn lemma_call(
    p: &ProjectInfo,
    rank: Rank,
    child: CallTo,
    stack: Seq<Seq<char>>,
    s: CheckView,
    busy: Set<Seq<char>>,
    limit: nat,
)
    requires
        in_order(p, rank),
        !child.module_scope,
        child.func == child.effect.name,
        sound(p, rank, s, busy),
        all_above(p, rank, busy, limit),
        rank(child.func) < limit,
        stack_above(rank, stack, rank(child.func)),
        forall|b: Seq<char>| #[trigger]
            runs(p, child.effect, b) && open_function(p, b) ==> b == child.func || rank(b) < rank(child.func),
    ensures
        ({
            let (ok, after) = checked(p, child, stack, s);
            &&& sound(p, rank, after, busy)
            &&& left_alone(s, after, busy)
            &&& ok == call_is_safe(p, rank, limit, child.caller, child.effect)
            &&& p.functions@.contains_key(child.func) ==> after.verdicts.contains_key(child.func)
        }),
    decreases limit, 6nat, 0int,
{
    let eff = child.effect;
    let g = child.func;
    let names = constructor_names(g, p.classes.deep_view());
    let nested = nested_names(p, g);
    assert(!busy.contains(g));
    assert(resolvable(p, g, s) == (p.callable(g) || recursive(p, g))) by {
        if s.verdicts.contains_key(g) && !recursive(p, g) {
            assert(p.functions@.contains_key(g) || p.classes.deep_view().contains_key(g));
        }
    }
    if resolvable(p, g, s) {
        let calls = constructor_calls(p, child);
        let s1 = if p.classes.deep_view().contains_key(g) {
            assert forall|i: int| 0 <= i < names.len() && open_function(p, #[trigger] names[i]) implies rank(
                names[i],
            ) < limit && rank(names[i]) <= rank(g) by {
                assert(names.contains(names[i]));
                assert(runs(p, eff, names[i]));
            }
            lemma_all(p, rank, calls, names, child.caller, stack, s, busy, calls.len() as int, limit, rank(g));
            lemma_all_below(p, rank, limit, child.caller, names, names.len() as int);
            run_all(p, calls, stack, s, calls.len() as int).1
        } else {
            if open_function(p, g) {
                lemma_body(p, rank, child, stack, s, busy);
            } else {
                lemma_known_body(p, rank, child, stack, s, busy);
            }
            lemma_below(p, rank, limit, child.caller, g);
            run_body(p, child, stack, s).1
        };
        if parameterized_decorator(eff) {
            let inner = nested_calls(p, child);
            assert forall|i: int| 0 <= i < nested.len() && open_function(p, #[trigger] nested[i]) implies rank(
                nested[i],
            ) < limit && rank(nested[i]) <= rank(g) by {
                assert(nested.contains(nested[i]));
                assert(runs(p, eff, nested[i]));
            }
            assert(inner.len() == nested.len());
            lemma_all(p, rank, inner, nested, child.caller, stack, s1, busy, inner.len() as int, limit, rank(g));
            lemma_all_below(p, rank, limit, child.caller, nested, nested.len() as int);
            let s2 = run_all(p, inner, stack, s1, inner.len() as int).1;
            assert(left_alone(s, s2, busy)) by {
                assert forall|x: Seq<char>| #[trigger] busy.contains(x) implies entry_of(s2, x) == entry_of(s, x) by {
                    assert(entry_of(s1, x) == entry_of(s, x));
                }
            }
        }
    }
}

/// Functions that are run one after the other get the verdicts that they have.
proof fn lemma_all(
    p: &ProjectInfo,
    rank: Rank,
    calls: Seq<CallTo>,
    names: Seq<Seq<char>>,
    caller: Seq<char>,
    stack: Seq<Seq<char>>,
    s: CheckView,
    busy: Set<Seq<char>>,
    n: int,
    limit: nat,
    top: nat,
)
    requires
        in_order(p, rank),
        sound(p, rank, s, busy),
        all_above(p, rank, busy, limit),
        stack_above(rank, stack, top),
        calls.len() == names.len(),
        n <= calls.len(),
        forall|i: int|
            0 <= i < calls.len() ==> !(#[trigger] calls[i]).module_scope && calls[i].func == names[i]
                && calls[i].caller == caller,
        forall|i: int|
            0 <= i < names.len() && open_function(p, #[trigger] names[i]) ==> rank(names[i]) < limit && rank(
                names[i],
            ) <= top,
    ensures
        ({
            let (r, after) = run_all(p, calls, stack, s, n);
            &&& sound(p, rank, after, busy)
            &&& left_alone(s, after, busy)
            &&& r == all_allowed(p, rank, caller, names, n)
            &&& forall|x: Seq<char>| #[trigger] s.verdicts.contains_key(x) ==> after.verdicts.contains_key(x)
        }),
    decreases limit, 5nat, n,
{
    if n > 0 {
        lemma_all(p, rank, calls, names, caller, stack, s, busy, n - 1, limit, top);
        let before = run_all(p, calls, stack, s, n - 1).1;
        let call = calls[n - 1];
        let last = run_body(p, call, stack, before).1;
        assert(call.func == names[n - 1]);
        if open_function(p, call.func) {
            lemma_body(p, rank, call, stack, before, busy);
        } else {
            assert(!busy.contains(call.func));
            lemma_known_body(p, rank, call, stack, before, busy);
        }
        assert forall|x: Seq<char>| #[trigger] busy.contains(x) implies entry_of(last, x) == entry_of(s, x) by {
            assert(entry_of(before, x) == entry_of(s, x));
        }
        assert forall|x: Seq<char>| #[trigger] s.verdicts.contains_key(x) implies last.verdicts.contains_key(x) by {
            crate::call_check::lemma_stand_body(p, call, stack, before, x);
        }
    }
}

/// The verdict on a function or a class, where there is none yet.
pub open spec fn one_verdict(p: &ProjectInfo, s: CheckView, x: Seq<char>) -> CheckView {
    if p.classes.deep_view().contains_key(x) {
        class_verdict(p, s, x)
    } else {
        function_verdict(p, s, x)
    }
}

/// The verdicts on the first `n` of some functions and classes, found one after the other.
pub open spec fn one_by_one(p: &ProjectInfo, s: CheckView, names: Seq<Seq<char>>, n: int) -> CheckView
    decreases n,
{
    if n <= 0 {
        s
    } else {
        one_verdict(p, one_by_one(p, s, names, n - 1), names[n - 1])
    }
}

/// A rank that none of some names has.
spec fn rank_above(rank: Rank, names: Seq<Seq<char>>) -> nat
    decreases names.len(),
{
    if names.len() == 0 {
        0
    } else {
        rank_above(rank, names.drop_last()) + rank(names.last()) + 1
    }
}

proof fn lemma_rank_above(rank: Rank, names: Seq<Seq<char>>, i: int)
    requires
        0 <= i < names.len(),
    ensures
        rank(names[i]) < rank_above(rank, names),
    decreases names.len(),
{
    if i < names.len() - 1 {
        lemma_rank_above(rank, names.drop_last(), i);
    }
}

/// One more function or class gets the verdict that it has.
proof fn lemma_one_verdict(p: &ProjectInfo, rank: Rank, s: CheckView, x: Seq<char>)
    requires
        in_order(p, rank),
        sound(p, rank, s, Set::empty()),
        p.defines(x),
    ensures
        sound(p, rank, one_verdict(p, s, x), Set::empty()),
        one_verdict(p, s, x).verdicts.contains_key(x),
        forall|y: Seq<char>| #[trigger]
            s.verdicts.contains_key(y) ==> one_verdict(p, s, x).verdicts.contains_key(y),
{
    let none = Set::<Seq<char>>::empty();
    let after = one_verdict(p, s, x);
    if s.verdicts.contains_key(x) {
    } else if p.classes.deep_view().contains_key(x) {
        let call = plain_call(x, x);
        let calls = constructor_calls(p, call);
        let names = constructor_names(x, p.classes.deep_view());
        let limit = rank_above(rank, names);
        assert forall|i: int| 0 <= i < names.len() && open_function(p, #[trigger] names[i]) implies rank(names[i])
            < limit && rank(names[i]) <= limit by {
            lemma_rank_above(rank, names, i);
        }
        lemma_all(p, rank, calls, names, x, Seq::empty(), s, none, calls.len() as int, limit, limit);
        let run = run_all(p, calls, Seq::empty(), s, calls.len() as int).1;
        assert forall|g: Seq<char>| #[trigger]
            after.verdicts.contains_key(g) && !none.contains(g) && !recursive(p, g) implies {
            ||| (p.functions@.contains_key(g) && after.verdicts[g] == own_verdict(p, rank, g))
            ||| (p.classes.deep_view().contains_key(g) && !p.functions@.contains_key(g) && after.verdicts[g]
                == class_info(p, rank, g))
        } by {
            if g != x {
                assert(run.verdicts.contains_key(g));
            } else {
                assert(!p.functions@.contains_key(x));
            }
        }
    } else {
        let call = plain_call(p.module_of(x), x);
        lemma_body(p, rank, call, Seq::empty(), s, none);
        assert forall|y: Seq<char>| #[trigger] s.verdicts.contains_key(y) implies after.verdicts.contains_key(y) by {
            crate::call_check::lemma_stand_body(p, call, Seq::empty(), s, y);
        }
    }
}

proof fn lemma_one_by_one(p: &ProjectInfo, rank: Rank, s: CheckView, names: Seq<Seq<char>>, n: int)
    requires
        in_order(p, rank),
        sound(p, rank, s, Set::empty()),
        n <= names.len(),
        forall|i: int| 0 <= i < names.len() ==> p.defines(#[trigger] names[i]),
    ensures
        sound(p, rank, one_by_one(p, s, names, n), Set::empty()),
        forall|i: int| 0 <= i < n ==> one_by_one(p, s, names, n).verdicts.contains_key(#[trigger] names[i]),
        forall|y: Seq<char>| #[trigger]
            s.verdicts.contains_key(y) ==> one_by_one(p, s, names, n).verdicts.contains_key(y),
    decreases n,
{
    if n > 0 {
        lemma_one_by_one(p, rank, s, names, n - 1);
        lemma_one_verdict(p, rank, one_by_one(p, s, names, n - 1), names[n - 1]);
    }
}

proof fn lemma_class_pass(p: &ProjectInfo, s: CheckView, n: int)
    requires
        n <= p.classes.classes().keys().len(),
        forall|i: int|
            0 <= i < p.classes.classes().keys().len() ==> p.classes.deep_view().contains_key(
                #[trigger] p.classes.classes().keys()[i],
            ),
    ensures
        class_verdicts(p, s, n) == one_by_one(p, s, p.classes.classes().keys(), n),
    decreases n,
{
    if n > 0 {
        lemma_class_pass(p, s, n - 1);
    }
}

proof fn lemma_function_pass(p: &ProjectInfo, s: CheckView, n: int)
    requires
        names_apart(p),
        n <= p.functions.keys().len(),
        forall|i: int|
            0 <= i < p.functions.keys().len() ==> p.functions@.contains_key(#[trigger] p.functions.keys()[i]),
    ensures
        function_verdicts(p, s, n) == one_by_one(p, s, p.functions.keys(), n),
    decreases n,
{
    if n > 0 {
        lemma_function_pass(p, s, n - 1);
    }
}

/// States that know all that there is to know are the same.
proof fn lemma_same_verdicts(p: &ProjectInfo, rank: Rank, s: CheckView, t: CheckView)
    requires
        in_order(p, rank),
        sound(p, rank, s, Set::empty()),
        sound(p, rank, t, Set::empty()),
        forall|x: Seq<char>| #[trigger]
            p.defines(x) ==> s.verdicts.contains_key(x) && t.verdicts.contains_key(x),
    ensures
        s.verdicts == t.verdicts,
{
    assert forall|g: Seq<char>| s.verdicts.contains_key(g) <==> t.verdicts.contains_key(g) by {
        if s.verdicts.contains_key(g) || t.verdicts.contains_key(g) {
            assert(recursive(p, g) || p.defines(g));
        }
    }
    assert forall|g: Seq<char>| #[trigger] s.verdicts.contains_key(g) implies s.verdicts[g] == t.verdicts[g] by {
        assert(t.verdicts.contains_key(g));
        if recursive(p, g) {
        } else {
            assert(p.defines(g));
        }
    }
    assert(s.verdicts =~= t.verdicts);
}

/// The verdicts on functions and classes do not depend on the order in which these are looked at, once
/// those that may call themselves are set apart: what is left of the calls then never leads in a
/// circle. The calls of the functions inside of a decorator with arguments count as calls that run
/// while the decorator does.
pub proof fn verdicts_do_not_depend_on_order(p: &ProjectInfo, rank: Rank, names: Seq<Seq<char>>)
    requires
        p.effect_table.effects().ordered(),
        p.functions.ordered(),
        p.classes.classes().ordered(),
        calls_go_down(p, rank),
        names_apart(p),
        forall|x: Seq<char>| #[trigger] names.contains(x) <==> p.defines(x),
    ensures
        one_by_one(p, only_recursive(p), names, names.len() as int).verdicts == all_verdicts(p).verdicts,
{
    let start = only_recursive(p);
    let classes = p.classes.classes().keys();
    let functions = p.functions.keys();
    assert(sound(p, rank, start, Set::empty()));
    assert forall|i: int| 0 <= i < names.len() implies p.defines(#[trigger] names[i]) by {
        assert(names.contains(names[i]));
    }
    lemma_one_by_one(p, rank, start, names, names.len() as int);
    lemma_class_pass(p, start, classes.len() as int);
    lemma_one_by_one(p, rank, start, classes, classes.len() as int);
    let half = class_verdicts(p, start, classes.len() as int);
    lemma_function_pass(p, half, functions.len() as int);
    lemma_one_by_one(p, rank, half, functions, functions.len() as int);
    let s = one_by_one(p, start, names, names.len() as int);
    let t = all_verdicts(p);
    assert forall|x: Seq<char>| #[trigger] p.defines(x) implies s.verdicts.contains_key(x)
        && t.verdicts.contains_key(x) by {
        assert(names.contains(x));
        let i = names.index_of(x);
        assert(s.verdicts.contains_key(names[i]));
        if p.functions@.contains_key(x) {
            let k = functions.index_of(x);
            assert(t.verdicts.contains_key(functions[k]));
        } else {
            let k = classes.index_of(x);
            assert(half.verdicts.contains_key(classes[k]));
        }
    }
    lemma_same_verdicts(p, rank, s, t);
}

/// The verdicts on all functions and classes are settled.
proof fn lemma_settled(p: &ProjectInfo, rank: Rank)
    requires
        in_order(p, rank),
        p.functions.ordered(),
        p.classes.classes().ordered(),
    ensures
        forall|f: Seq<char>| #[trigger]
            p.functions@.contains_key(f) ==> all_verdicts(p).verdicts.contains_key(f)
                && all_verdicts(p).verdicts[f] == settled_verdict(p, rank, f),
{
    let start = only_recursive(p);
    let classes = p.classes.classes().keys();
    let functions = p.functions.keys();
    assert(sound(p, rank, start, Set::empty()));
    lemma_class_pass(p, start, classes.len() as int);
    lemma_one_by_one(p, rank, start, classes, classes.len() as int);
    let half = class_verdicts(p, start, classes.len() as int);
    lemma_function_pass(p, half, functions.len() as int);
    lemma_one_by_one(p, rank, half, functions, functions.len() as int);
    let t = all_verdicts(p);
    assert forall|f: Seq<char>| #[trigger] p.functions@.contains_key(f) implies t.verdicts.contains_key(f)
        && t.verdicts[f] == settled_verdict(p, rank, f) by {
        let k = functions.index_of(f);
        assert(t.verdicts.contains_key(functions[k]));
    }
}

proof fn lemma_all_allowed(p: &ProjectInfo, rank: Rank, caller: Seq<char>, names: Seq<Seq<char>>, n: int)
    requires
        n <= names.len(),
    ensures
        all_allowed(p, rank, caller, names, n) <==> forall|i: int|
            0 <= i < n ==> allowed(p, rank, caller, #[trigger] names[i]),
    decreases n,
{
    if n > 0 {
        lemma_all_allowed(p, rank, caller, names, n - 1);
    }
}

/// A call of a function is safe where it is known what is called and all that runs may be called.
proof fn lemma_call_is_safe(p: &ProjectInfo, rank: Rank, f: Seq<char>, eff: EffectView)
    requires
        goes_down(p, rank, f, eff),
    ensures
        call_is_safe(p, rank, rank(f), p.module_of(f), eff) <==> (p.callable(eff.name) || recursive(p, eff.name))
            && forall|b: Seq<char>| #[trigger] runs(p, eff, b) ==> allowed(p, rank, p.module_of(f), b),
{
    let names = constructor_names(eff.name, p.classes.deep_view());
    let nested = nested_names(p, eff.name);
    let caller = p.module_of(f);
    let is_class = p.classes.deep_view().contains_key(eff.name);
    if is_class {
        assert forall|i: int| 0 <= i < names.len() && open_function(p, #[trigger] names[i]) implies rank(names[i])
            < rank(f) by {
            assert(runs(p, eff, names[i]));
        }
        lemma_all_below(p, rank, rank(f), caller, names, names.len() as int);
        lemma_all_allowed(p, rank, caller, names, names.len() as int);
    } else {
        lemma_below(p, rank, rank(f), caller, eff.name);
    }
    if parameterized_decorator(eff) {
        assert forall|i: int| 0 <= i < nested.len() && open_function(p, #[trigger] nested[i]) implies rank(nested[i])
            < rank(f) by {
            assert(runs(p, eff, nested[i]));
        }
        lemma_all_below(p, rank, rank(f), caller, nested, nested.len() as int);
        lemma_all_allowed(p, rank, caller, nested, nested.len() as int);
    }
    if call_is_safe(p, rank, rank(f), caller, eff) {
        assert forall|b: Seq<char>| #[trigger] runs(p, eff, b) implies allowed(p, rank, caller, b) by {
            if is_class && names.contains(b) {
                assert(names[names.index_of(b)] == b);
            } else if parameterized_decorator(eff) && nested.contains(b) {
                assert(nested[nested.index_of(b)] == b);
            }
        }
    }
    if forall|b: Seq<char>| #[trigger] runs(p, eff, b) ==> allowed(p, rank, caller, b) {
        assert forall|i: int| is_class && 0 <= i < names.len() implies allowed(p, rank, caller, #[trigger] names[i]) by {
            assert(runs(p, eff, names[i]));
        }
        assert forall|i: int| parameterized_decorator(eff) && 0 <= i < nested.len() implies allowed(
            p,
            rank,
            caller,
            #[trigger] nested[i],
        ) by {
            assert(runs(p, eff, nested[i]));
        }
        if !is_class {
            assert(runs(p, eff, eff.name));
        }
    }
}

/// How bad what is known of a function is.
spec fn badness(entry: Option<FunctionInfoView>) -> int {
    match entry {
        Some(info) => info.verdict.place(),
        None => 0,
    }
}

proof fn lemma_deferred_worsens(
    p: &ProjectInfo,
    f: Seq<char>,
    list: Seq<(Seq<char>, usize)>,
    entry: Option<FunctionInfoView>,
    n: int,
)
    ensures
        badness(entry_of(deferred(p, f, list, true, only(f, entry), n).1, f)) >= badness(entry),
    decreases n,
{
    if n > 0 {
        lemma_deferred_worsens(p, f, list, entry, n - 1);
    }
}

/// Further effects never make a function better.
proof fn lemma_own_worsens(p: &ProjectInfo, rank: Rank, f: Seq<char>, n: int, m: int)
    requires
        0 <= n <= m,
    ensures
        badness(own_after(p, rank, f, n)) <= badness(own_after(p, rank, f, m)),
    decreases m - n,
{
    if n < m {
        lemma_own_worsens(p, rank, f, n, m - 1);
        let eff = effects_in(p, f)[m - 1];
        let entry = own_after(p, rank, f, m - 1);
        let list = callees(eff.kind, eff.name, p.classes.deep_view());
        lemma_deferred_worsens(p, f, list, entry, list.len() as int);
        assert(own_after(p, rank, f, m) == own_step(p, rank, f, eff, entry));
    }
}

/// A function answers for what it calls. Where something that one of its calls runs may not be
/// called from its module, the function is no better than one that lacks a callee; and where it
/// calls a function of its module that may not be called from others, neither may it.
pub proof fn callers_answer_for_callees(p: &ProjectInfo, rank: Rank, f: Seq<char>, i: int, b: Seq<char>)
    requires
        p.effect_table.effects().ordered(),
        p.functions.ordered(),
        p.classes.classes().ordered(),
        calls_go_down(p, rank),
        names_apart(p),
        p.functions@.contains_key(f),
        0 <= i < effects_in(p, f).len(),
        effects_in(p, f)[i].kind.runnable(),
        runs(p, effects_in(p, f)[i], b),
        p.functions@.contains_key(b),
    ensures
        all_verdicts(p).verdicts.contains_key(f) && all_verdicts(p).verdicts.contains_key(b),
        !safe_for(all_verdicts(p).verdicts[b].verdict, p.module_of(f) != p.module_of(b))
            ==> all_verdicts(p).verdicts[f].verdict.place() >= FunctionSafety::UnsafeMissingDep.place(),
        b == effects_in(p, f)[i].name && all_verdicts(p).verdicts[b].verdict != FunctionSafety::Safe
            ==> all_verdicts(p).verdicts[f].verdict != FunctionSafety::Safe,
{
    lemma_settled(p, rank);
    if !recursive(p, f) {
        let eff = effects_in(p, f)[i];
        let entry = own_after(p, rank, f, i);
        assert(goes_down(p, rank, f, eff));
        lemma_call_is_safe(p, rank, f, eff);
        assert(own_after(p, rank, f, i + 1) == own_step(p, rank, f, eff, entry));
        lemma_own_worsens(p, rank, f, i + 1, effects_in(p, f).len() as int);
        let list = callees(eff.kind, eff.name, p.classes.deep_view());
        lemma_deferred_worsens(p, f, list, entry, list.len() as int);
        if b == eff.name {
            lemma_below(p, rank, rank(f), p.module_of(f), b);
        }
    }
}

proof fn lemma_nothing_deferred(
    p: &ProjectInfo,
    f: Seq<char>,
    list: Seq<(Seq<char>, usize)>,
    n: int,
)
    requires
        n <= list.len(),
        forall|c: int| 0 <= c < list.len() ==> !foreign(p, (#[trigger] list[c]).0),
    ensures
        entry_of(deferred(p, f, list, true, only(f, None), n).1, f) is None,
    decreases n,
{
    if n > 0 {
        lemma_nothing_deferred(p, f, list, n - 1);
    }
}

/// An effect of a function gives no reason to blame it: it is not an error, mutates nothing that is
/// imported or global, and if it is a call, then it is known what is called, nothing imported is
/// passed to what mutates it or is not known, and all that runs is safe.
pub open spec fn gives_no_reason(p: &ProjectInfo, eff: EffectView) -> bool {
    &&& !is_harmful(eff.kind)
    &&& !changes_globals(eff.kind)
    &&& eff.kind.runnable() ==> {
        &&& p.callable(eff.name)
        &&& !mutates_imported_arg(p, eff)
        &&& passes_imported(eff) ==> forall|c: int|
            0 <= c < callees(eff.kind, eff.name, p.classes.deep_view()).len() ==> !foreign(
                p,
                (#[trigger] callees(eff.kind, eff.name, p.classes.deep_view())[c]).0,
            )
        &&& forall|b: Seq<char>| #[trigger]
            runs(p, eff, b) && p.functions@.contains_key(b) ==> all_verdicts(p).has_verdict(b, FunctionSafety::Safe)
    }
}

proof fn lemma_no_reason(p: &ProjectInfo, rank: Rank, f: Seq<char>, n: int)
    requires
        in_order(p, rank),
        open_function(p, f),
        n <= effects_in(p, f).len(),
        forall|g: Seq<char>| #[trigger]
            p.functions@.contains_key(g) ==> all_verdicts(p).verdicts.contains_key(g)
                && all_verdicts(p).verdicts[g] == settled_verdict(p, rank, g),
        forall|i: int| 0 <= i < effects_in(p, f).len() ==> gives_no_reason(p, #[trigger] effects_in(p, f)[i]),
    ensures
        own_after(p, rank, f, n) is None,
    decreases n,
{
    if n > 0 {
        lemma_no_reason(p, rank, f, n - 1);
        let eff = effects_in(p, f)[n - 1];
        assert(gives_no_reason(p, eff));
        if eff.kind.runnable() {
            assert(goes_down(p, rank, f, eff));
            lemma_call_is_safe(p, rank, f, eff);
            let list = callees(eff.kind, eff.name, p.classes.deep_view());
            if passes_imported(eff) {
                lemma_nothing_deferred(p, f, list, list.len() as int);
            }
            assert forall|b: Seq<char>| #[trigger] runs(p, eff, b) implies allowed(p, rank, p.module_of(f), b) by {}
            lemma_below(p, rank, rank(f), p.module_of(f), eff.name);
            if p.functions@.contains_key(eff.name) {
                assert(runs(p, eff, eff.name));
            }
            assert(call_is_safe(p, rank, rank(f), p.module_of(f), eff));
        }
        assert(own_after(p, rank, f, n) == own_step(p, rank, f, eff, own_after(p, rank, f, n - 1)));
    }
}

/// Nothing is blamed without a reason: a function that cannot come to call itself, and none of
/// whose effects gives a reason, is safe.
pub proof fn functions_without_blame_are_safe(p: &ProjectInfo, rank: Rank, f: Seq<char>)
    requires
        p.effect_table.effects().ordered(),
        p.functions.ordered(),
        p.classes.classes().ordered(),
        calls_go_down(p, rank),
        names_apart(p),
        open_function(p, f),
        forall|i: int| 0 <= i < effects_in(p, f).len() ==> gives_no_reason(p, #[trigger] effects_in(p, f)[i]),
    ensures
        all_verdicts(p).has_verdict(f, FunctionSafety::Safe),
{
    lemma_settled(p, rank);
    lemma_no_reason(p, rank, f, effects_in(p, f).len() as int);
}

} // verus!
