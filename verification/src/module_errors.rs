//! What the errors of a module answer for: every harmful effect of importing it is among them, and
//! each of them has such an effect for its reason.

use crate::call_check::{
    checked, complete, constructor_calls, effects_in, mutates_imported_arg, nested_calls, parameterized_decorator,
    resolvable, run_all, run_body, safe_for, CallTo, CheckView,
};
use crate::candidates::all_candidates;
use crate::callees::constructor_names;
use crate::effects::{EffectKind, EffectView};
use crate::errors::{error_at, ErrorKind, ErrorView};
use crate::imports::{parent_dot, ImportGraph};
use crate::module_name::dotted;
use crate::module_safety::{CandidateView, FunctionInfoView, FunctionSafety, ResultView};
use crate::project::{
    all_verdicts, candidates_settled, fewest_settled, final_verdicts, lemma_parts, module_result,
    settled_candidates, table_by_module, written_back, ExecutionMode,
};
use crate::project_info::ProjectInfo;
use crate::scope_check::{module_call, names_property, scope_pass, scope_step, scopes_pass};
use crate::verdict_order::{nested_names, runs};
use crate::verdict_soundness::{
    every_function_has_a_verdict, functions_answer_for_their_effects, is_call, is_harmful,
};
use crate::verdicts::{
    promotable_after, promoted, promoted_index, resolve_candidate, resolve_candidates, settled, verified,
    verified_grows, Resolution, Verdicts,
};
use vstd::prelude::*;

verus! {

/// One verdict may become another when what a program lacks is looked for: an unsafe function
/// stays unsafe, and one that may not be called from other modules, or that is safe, can only turn
/// out to be unsafe.
pub open spec fn may_become(before: FunctionSafety, after: FunctionSafety) -> bool {
    before == after || after == FunctionSafety::Unsafe || before == FunctionSafety::UnsafeMissingDep
}

spec fn tables_agree(before: Verdicts, after: Verdicts) -> bool {
    &&& before.dom() =~= after.dom()
    &&& forall|a: (Seq<char>, Seq<char>)| #[trigger]
        after.contains_key(a) ==> may_become(before[a].verdict, after[a].verdict) && (before[a].verdict
            == FunctionSafety::Unsafe ==> after[a].verdict == FunctionSafety::Unsafe)
}

proof fn lemma_candidates(
    start: Verdicts,
    before: Resolution,
    modules: Set<Seq<char>>,
    module: Seq<char>,
    candidates: Seq<CandidateView>,
)
    requires
        tables_agree(start, before.table),
    ensures
        tables_agree(start, resolve_candidates(before, modules, module, candidates).table),
    decreases candidates.len(),
{
    if candidates.len() > 0 {
        lemma_candidates(start, before, modules, module, candidates.drop_last());
        let last = resolve_candidates(before, modules, module, candidates.drop_last());
        let after = resolve_candidate(last, modules, module, candidates.last());
        assert forall|a: (Seq<char>, Seq<char>)| #[trigger] after.table.contains_key(a) implies may_become(
            start[a].verdict,
            after.table[a].verdict,
        ) && (start[a].verdict == FunctionSafety::Unsafe ==> after.table[a].verdict == FunctionSafety::Unsafe) by {
            assert(last.table.contains_key(a));
        }
    }
}

proof fn lemma_all_candidates(
    p: &ProjectInfo,
    candidates: Map<Seq<char>, Seq<CandidateView>>,
    table: Verdicts,
    n: int,
)
    ensures
        tables_agree(table, settled_candidates(p, candidates, table, n).table),
    decreases n,
{
    if n > 0 {
        lemma_all_candidates(p, candidates, table, n - 1);
        let before = settled_candidates(p, candidates, table, n - 1);
        let module = p.analysis_map.keys()[n - 1];
        if candidates.contains_key(module) {
            lemma_candidates(
                table,
                Resolution { found_safe: false, ..before },
                p.analysis_map@.dom(),
                module,
                candidates[module],
            );
        }
    }
}

/// Only a function that lacks a callee is promoted.
proof fn lemma_not_promoted(
    modules: Set<Seq<char>>,
    table: Verdicts,
    functions: Set<(Seq<char>, Seq<char>)>,
    a: (Seq<char>, Seq<char>),
)
    requires
        fewest_settled(modules, table, functions),
        table.contains_key(a),
        table[a].verdict != FunctionSafety::UnsafeMissingDep,
    ensures
        !functions.contains(a),
{
    let other = functions.remove(a);
    assert forall|g: (Seq<char>, Seq<char>)| !#[trigger] promotable_after(modules, table, other, g) by {
        if promotable_after(modules, table, other, g) {
            assert(g != a && !functions.contains(g));
            let info = promoted(table, other)[g];
            assert(info == promoted(table, functions)[g]);
            assert forall|c: Seq<char>| #[trigger] info.missing_dep_callees.contains(c) implies verified(
                c,
                modules,
                promoted(table, functions),
                promoted_index(modules, table, functions).contains(c),
            ) by {
                verified_grows(c, modules, table, other, functions);
            }
            assert(promotable_after(modules, table, functions, g));
        }
    }
    assert(settled(modules, table, other));
    assert(functions.subset_of(other));
}

/// Settling what a program lacks never clears a function that is unsafe by itself: verdicts change
/// for the better only where a function lacked a callee.
pub proof fn settling_clears_only_what_was_lacking(
    p: &ProjectInfo,
    graph: &ImportGraph,
    mode: ExecutionMode,
    s: CheckView,
    f: Seq<char>,
)
    requires
        final_verdicts(p, graph, mode, s),
    ensures
        s.verdicts.dom() == all_verdicts(p).verdicts.dom(),
        s.verdicts.contains_key(f) ==> may_become(all_verdicts(p).verdicts[f].verdict, s.verdicts[f].verdict),
        all_verdicts(p).has_verdict(f, FunctionSafety::Unsafe) ==> s.has_verdict(f, FunctionSafety::Unsafe),
{
    let before = all_verdicts(p).verdicts;
    if mode == ExecutionMode::WholeProgram {
        let modules = p.analysis_map@.dom();
        let start = table_by_module(before, modules, true);
        let table = candidates_settled(p, graph, before);
        let functions = choose|functions: Set<(Seq<char>, Seq<char>)>| #[trigger]
            fewest_settled(modules, table, functions) && s.verdicts == written_back(
                before,
                promoted(table, functions),
                modules,
            );
        assert(s.verdicts.dom() =~= before.dom());
        lemma_all_candidates(p, all_candidates(p, graph), start, p.analysis_map.keys().len() as int);
        let d = parent_dot(f, modules);
        let a = (f.take(d), f.skip(d + 1));
        if before.contains_key(f) && d >= 0 && table.contains_key(a) {
            lemma_parts(f, modules);
            assert(dotted(a.0, a.1) == f);
            assert(start.contains_key(a));
            assert(start[a] == before[f]);
            if table[a].verdict != FunctionSafety::UnsafeMissingDep {
                lemma_not_promoted(modules, table, functions, a);
            }
        }
    }
}

/// A call is made when a module is imported, or a property of an imported type is read.
pub open spec fn runs_something(p: &ProjectInfo, eff: EffectView) -> bool {
    is_call(eff.kind) || (eff.kind == EffectKind::ImportedTypeAttr && names_property(p, eff.name))
}

/// A call calls a function: the one that it names, or a constructor of the class that it names.
pub open spec fn calls_function(p: &ProjectInfo, eff: EffectView, b: Seq<char>) -> bool {
    p.functions@.contains_key(b) && if p.classes.deep_view().contains_key(eff.name) {
        constructor_names(eff.name, p.classes.deep_view()).contains(b)
    } else {
        b == eff.name
    }
}

/// A call runs a function that may not be called from a module.
pub open spec fn runs_unsafe(
    p: &ProjectInfo,
    known: Map<Seq<char>, FunctionInfoView>,
    module: Seq<char>,
    eff: EffectView,
) -> bool {
    exists|b: Seq<char>| #[trigger]
        runs(p, eff, b) && p.functions@.contains_key(b) && !safe_for(known[b].verdict, module != p.module_of(b))
}

/// By the verdicts on functions, a call from a module is harmful: it is not known what is called,
/// or something that it runs may not be called from the module, or something imported is passed to
/// a function that mutates it.
pub open spec fn is_harmful_call(
    p: &ProjectInfo,
    known: Map<Seq<char>, FunctionInfoView>,
    module: Seq<char>,
    eff: EffectView,
) -> bool {
    if p.callable(eff.name) || known.contains_key(eff.name) {
        ||| runs_unsafe(p, known, module, eff)
        ||| mutates_imported_arg(p, eff) && exists|b: Seq<char>| #[trigger] calls_function(p, eff, b)
    } else {
        true
    }
}

/// By the verdicts on functions, an effect is harmful when a module is imported.
pub open spec fn is_harmful_on_import(
    p: &ProjectInfo,
    known: Map<Seq<char>, FunctionInfoView>,
    module: Seq<char>,
    eff: EffectView,
) -> bool {
    is_harmful(eff.kind) || (runs_something(p, eff) && is_harmful_call(p, known, module, eff))
}

spec fn is_error_for(e: ErrorView, eff: EffectView) -> bool {
    e.range == eff.range && e.metadata == eff.name
}

spec fn has_error_for(errors: Seq<ErrorView>, eff: EffectView) -> bool {
    exists|j: int| 0 <= j < errors.len() && is_error_for(#[trigger] errors[j], eff)
}

/// Errors are added only for one effect.
spec fn adds_only(before: Seq<ErrorView>, after: Seq<ErrorView>, eff: EffectView) -> bool {
    &&& before.len() <= after.len()
    &&& after.take(before.len() as int) == before
    &&& forall|j: int| before.len() <= j < after.len() ==> is_error_for(#[trigger] after[j], eff)
}

/// The calls of a module's scope all come from one effect.
spec fn come_from(calls: Seq<CallTo>, module: Seq<char>, eff: EffectView) -> bool {
    forall|k: int|
        0 <= k < calls.len() ==> (#[trigger] calls[k]).caller == module && calls[k].module_scope && (calls[k].effect
            == eff || calls[k].effect.data is None)
}

proof fn lemma_body(p: &ProjectInfo, call: CallTo, stack: Seq<Seq<char>>, s: CheckView, eff: EffectView)
    requires
        p.effect_table.effects().ordered(),
        complete(p, s),
        call.module_scope,
        call.effect == eff || call.effect.data is None,
    ensures
        run_body(p, call, stack, s).1.verdicts == s.verdicts,
        run_body(p, call, stack, s).0 == (p.functions@.contains_key(call.func) ==> safe_for(
            s.verdicts[call.func].verdict,
            call.caller != p.module_of(call.func),
        )),
        adds_only(s.errors, run_body(p, call, stack, s).1.errors, eff),
        p.functions@.contains_key(call.func) && call.effect == eff && mutates_imported_arg(p, eff) ==> run_body(
            p,
            call,
            stack,
            s,
        ).1.errors.len() > s.errors.len(),
        run_body(p, call, stack, s).1.errors.len() > s.errors.len() ==> p.functions@.contains_key(call.func)
            && mutates_imported_arg(p, eff) && call.effect == eff,
{
    let after = run_body(p, call, stack, s).1;
    if p.functions@.contains_key(call.func) {
        assert(s.verdicts.contains_key(call.func));
        if mutates_imported_arg(p, call.effect) {
            assert(call.effect == eff);
            assert(after.errors == s.errors.push(error_at(ErrorKind::ImportedVarArgument, eff)));
            assert(after.errors.take(s.errors.len() as int) =~= s.errors);
        } else {
            assert(s.errors.take(s.errors.len() as int) =~= s.errors);
        }
    } else {
        assert(s.errors.take(s.errors.len() as int) =~= s.errors);
    }
}

proof fn lemma_adds_more(a: Seq<ErrorView>, b: Seq<ErrorView>, c: Seq<ErrorView>, eff: EffectView)
    requires
        adds_only(a, b, eff),
        adds_only(b, c, eff),
    ensures
        adds_only(a, c, eff),
{
    assert(c.take(a.len() as int) =~= c.take(b.len() as int).take(a.len() as int));
    assert forall|j: int| a.len() <= j < c.len() implies is_error_for(#[trigger] c[j], eff) by {
        if j < b.len() {
            assert(c.take(b.len() as int)[j] == b[j]);
        }
    }
}

proof fn lemma_all(
    p: &ProjectInfo,
    calls: Seq<CallTo>,
    stack: Seq<Seq<char>>,
    s: CheckView,
    n: int,
    module: Seq<char>,
    eff: EffectView,
)
    requires
        p.effect_table.effects().ordered(),
        complete(p, s),
        come_from(calls, module, eff),
        0 <= n <= calls.len(),
    ensures
        run_all(p, calls, stack, s, n).1.verdicts == s.verdicts,
        run_all(p, calls, stack, s, n).0 <==> forall|k: int|
            0 <= k < n && p.functions@.contains_key((#[trigger] calls[k]).func) ==> safe_for(
                s.verdicts[calls[k].func].verdict,
                module != p.module_of(calls[k].func),
            ),
        adds_only(s.errors, run_all(p, calls, stack, s, n).1.errors, eff),
        run_all(p, calls, stack, s, n).1.errors.len() > s.errors.len() <==> mutates_imported_arg(p, eff) && exists|
            k: int,
        |
            0 <= k < n && p.functions@.contains_key((#[trigger] calls[k]).func) && calls[k].effect == eff,
    decreases n,
{
    if n > 0 {
        lemma_all(p, calls, stack, s, n - 1, module, eff);
        let before = run_all(p, calls, stack, s, n - 1).1;
        lemma_body(p, calls[n - 1], stack, before, eff);
        lemma_adds_more(s.errors, before.errors, run_all(p, calls, stack, s, n).1.errors, eff);
    } else {
        assert(s.errors.take(s.errors.len() as int) =~= s.errors);
    }
}

proof fn lemma_call(p: &ProjectInfo, module: Seq<char>, eff: EffectView, stack: Seq<Seq<char>>, s: CheckView)
    requires
        p.effect_table.effects().ordered(),
        complete(p, s),
    ensures
        ({
            let (ok, after) = checked(p, module_call(module, eff), stack, s);
            &&& after.verdicts == s.verdicts
            &&& adds_only(s.errors, after.errors, eff)
            &&& (!ok || after.errors.len() > s.errors.len()) <==> is_harmful_call(p, s.verdicts, module, eff)
        }),
{
    let call = module_call(module, eff);
    let (ok, after) = checked(p, call, stack, s);
    if resolvable(p, eff.name, s) {
        let is_class = p.classes.deep_view().contains_key(eff.name);
        let calls = constructor_calls(p, call);
        let names = constructor_names(eff.name, p.classes.deep_view());
        let (r1, s1) = if is_class {
            lemma_all(p, calls, stack, s, calls.len() as int, module, eff);
            run_all(p, calls, stack, s, calls.len() as int)
        } else {
            lemma_body(p, call, stack, s, eff);
            run_body(p, call, stack, s)
        };
        let inner = nested_calls(p, call);
        let nested = nested_names(p, eff.name);
        if parameterized_decorator(eff) {
            lemma_all(p, inner, stack, s1, inner.len() as int, module, eff);
            lemma_adds_more(s.errors, s1.errors, after.errors, eff);
        }
        if runs_unsafe(p, s.verdicts, module, eff) {
            let b = choose|b: Seq<char>| #[trigger]
                runs(p, eff, b) && p.functions@.contains_key(b) && !safe_for(
                    s.verdicts[b].verdict,
                    module != p.module_of(b),
                );
            if is_class && names.contains(b) {
                let k = names.index_of(b);
                assert(calls[k].func == b);
            } else if is_class || b != eff.name {
                let k = nested.index_of(b);
                assert(inner[k].func == b);
            }
        }
        if mutates_imported_arg(p, eff) && exists|b: Seq<char>| #[trigger] calls_function(p, eff, b) {
            let b = choose|b: Seq<char>| #[trigger] calls_function(p, eff, b);
            if is_class {
                let k = names.index_of(b);
                assert(calls[k].func == b && calls[k].effect == eff);
            }
        }
        if !r1 {
            if is_class {
                let k = choose|k: int|
                    0 <= k < calls.len() && p.functions@.contains_key((#[trigger] calls[k]).func) && !safe_for(
                        s.verdicts[calls[k].func].verdict,
                        module != p.module_of(calls[k].func),
                    );
                assert(names[k] == calls[k].func);
                assert(runs(p, eff, names[k]));
            } else {
                assert(runs(p, eff, eff.name));
            }
        }
        if s1.errors.len() > s.errors.len() {
            if is_class {
                let k = choose|k: int|
                    0 <= k < calls.len() && p.functions@.contains_key((#[trigger] calls[k]).func) && calls[k].effect
                        == eff;
                assert(names[k] == calls[k].func);
                assert(calls_function(p, eff, names[k]));
            } else {
                assert(calls_function(p, eff, eff.name));
            }
        }
        if parameterized_decorator(eff) {
            assert forall|k: int| 0 <= k < inner.len() implies (#[trigger] inner[k]).effect != eff by {}
            if !run_all(p, inner, stack, s1, inner.len() as int).0 {
                let k = choose|k: int|
                    0 <= k < inner.len() && p.functions@.contains_key((#[trigger] inner[k]).func) && !safe_for(
                        s.verdicts[inner[k].func].verdict,
                        module != p.module_of(inner[k].func),
                    );
                assert(nested[k] == inner[k].func);
                assert(runs(p, eff, nested[k]));
            }
        }
    } else {
        assert(s.errors.take(s.errors.len() as int) =~= s.errors);
    }
}

/// An effect of a scope is what its module answers for, where anything is.
spec fn is_answered(
    p: &ProjectInfo,
    known: Map<Seq<char>, FunctionInfoView>,
    module: Seq<char>,
    failed: bool,
    before: Seq<ErrorView>,
    after: Seq<ErrorView>,
    eff: EffectView,
) -> bool {
    &&& adds_only(before, after, eff)
    &&& (failed || after.len() > before.len()) <==> is_harmful_on_import(p, known, module, eff)
}

proof fn lemma_step(p: &ProjectInfo, module: Seq<char>, scope: Seq<char>, eff: EffectView, s: CheckView)
    requires
        p.effect_table.effects().ordered(),
        complete(p, s),
    ensures
        ({
            let (failed, after) = scope_step(p, module, scope, eff, s);
            &&& after.verdicts == s.verdicts
            &&& is_answered(p, s.verdicts, module, failed, s.errors, after.errors, eff)
        }),
{
    let (failed, after) = scope_step(p, module, scope, eff, s);
    lemma_call(p, module, eff, seq![scope], s);
    let (ok, mid) = checked(p, module_call(module, eff), seq![scope], s);
    assert(s.errors.take(s.errors.len() as int) =~= s.errors);
    if is_harmful(eff.kind) {
        assert(after.errors.len() == s.errors.len() + 1);
        assert(after.errors.take(s.errors.len() as int) =~= s.errors);
    } else if runs_something(p, eff) {
        if !ok && after.errors.len() > mid.errors.len() {
            assert(after.errors.take(mid.errors.len() as int) =~= mid.errors);
            lemma_adds_more(s.errors, mid.errors, after.errors, eff);
        }
    }
}

/// What is found of some effects stays, and answers for them.
spec fn all_answered(
    p: &ProjectInfo,
    known: Map<Seq<char>, FunctionInfoView>,
    module: Seq<char>,
    res: (Option<Seq<char>>, CheckView),
    before: Seq<ErrorView>,
    effs: Seq<EffectView>,
    n: int,
) -> bool {
    &&& before.len() <= res.1.errors.len()
    &&& res.1.errors.take(before.len() as int) == before
    &&& res.0 is None ==> forall|i: int|
        0 <= i < n && is_harmful_on_import(p, known, module, #[trigger] effs[i]) ==> has_error_for(
            res.1.errors,
            effs[i],
        )
    &&& forall|j: int|
        before.len() <= j < res.1.errors.len() ==> has_reason(p, known, module, effs, #[trigger] res.1.errors[j])
}

/// An error is one for a harmful effect among some effects.
spec fn has_reason(
    p: &ProjectInfo,
    known: Map<Seq<char>, FunctionInfoView>,
    module: Seq<char>,
    effs: Seq<EffectView>,
    e: ErrorView,
) -> bool {
    exists|i: int| 0 <= i < effs.len() && is_harmful_on_import(p, known, module, #[trigger] effs[i]) && is_error_for(e, effs[i])
}

proof fn lemma_scope(p: &ProjectInfo, module: Seq<char>, scope: Seq<char>, s: CheckView, n: int)
    requires
        p.effect_table.effects().ordered(),
        complete(p, s),
        0 <= n <= effects_in(p, scope).len(),
    ensures
        scope_pass(p, module, scope, s, n).1.verdicts == s.verdicts,
        all_answered(
            p,
            s.verdicts,
            module,
            scope_pass(p, module, scope, s, n),
            s.errors,
            effects_in(p, scope),
            n,
        ),
    decreases n,
{
    let effs = effects_in(p, scope);
    assert(s.errors.take(s.errors.len() as int) =~= s.errors);
    if n > 0 {
        lemma_scope(p, module, scope, s, n - 1);
        let before = scope_pass(p, module, scope, s, n - 1);
        if before.0 is None {
            let eff = effs[n - 1];
            lemma_step(p, module, scope, eff, before.1);
            let (failed, after) = scope_step(p, module, scope, eff, before.1);
            let old_errors = before.1.errors;
            let len = s.errors.len() as int;
            assert(after.errors.take(len) =~= after.errors.take(old_errors.len() as int).take(len));
            assert forall|j: int| 0 <= j < old_errors.len() implies after.errors[j] == #[trigger] old_errors[j] by {
                assert(after.errors.take(old_errors.len() as int)[j] == after.errors[j]);
            }
            assert forall|j: int| len <= j < after.errors.len() implies has_reason(
                p,
                s.verdicts,
                module,
                effs,
                #[trigger] after.errors[j],
            ) by {
                if j < old_errors.len() {
                    assert(has_reason(p, s.verdicts, module, effs, old_errors[j]));
                } else {
                    assert(is_harmful_on_import(p, s.verdicts, module, effs[n - 1]));
                }
            }
            if !failed {
                assert forall|i: int|
                    0 <= i < n && is_harmful_on_import(p, s.verdicts, module, #[trigger] effs[i]) implies has_error_for(
                    after.errors,
                    effs[i],
                ) by {
                    if i < n - 1 {
                        assert(has_error_for(old_errors, effs[i]));
                        let j = choose|j: int| 0 <= j < old_errors.len() && is_error_for(#[trigger] old_errors[j], effs[i]);
                        assert(is_error_for(after.errors[j], effs[i]));
                    } else {
                        assert(is_error_for(after.errors[old_errors.len() as int], eff));
                    }
                }
            }
        }
    }
}

/// An error is one for a harmful effect in one of some scopes.
spec fn has_reason_in(
    p: &ProjectInfo,
    known: Map<Seq<char>, FunctionInfoView>,
    module: Seq<char>,
    scopes: Seq<Seq<char>>,
    e: ErrorView,
) -> bool {
    exists|k: int| 0 <= k < scopes.len() && has_reason(p, known, module, effects_in(p, #[trigger] scopes[k]), e)
}

proof fn lemma_scopes(
    p: &ProjectInfo,
    module: Seq<char>,
    scopes: Seq<Seq<char>>,
    s: CheckView,
    n: int,
)
    requires
        p.effect_table.effects().ordered(),
        complete(p, s),
        0 <= n <= scopes.len(),
    ensures
        ({
            let (failed, after) = scopes_pass(p, module, scopes, s, n);
            &&& after.verdicts == s.verdicts
            &&& failed is None ==> forall|k: int, i: int|
                0 <= k < n && 0 <= i < effects_in(p, scopes[k]).len() && is_harmful_on_import(
                    p,
                    s.verdicts,
                    module,
                    #[trigger] effects_in(p, scopes[k])[i],
                ) ==> has_error_for(after.errors, effects_in(p, scopes[k])[i])
            &&& s.errors.len() == 0 ==> forall|j: int|
                0 <= j < after.errors.len() ==> has_reason_in(p, s.verdicts, module, scopes, #[trigger] after.errors[j])
        }),
    decreases n,
{
    if n > 0 {
        lemma_scopes(p, module, scopes, s, n - 1);
        let before = scopes_pass(p, module, scopes, s, n - 1);
        if before.0 is None {
            let effs = effects_in(p, scopes[n - 1]);
            lemma_scope(p, module, scopes[n - 1], before.1, effs.len() as int);
            let after = scopes_pass(p, module, scopes, s, n);
            let old_errors = before.1.errors;
            assert forall|j: int| 0 <= j < old_errors.len() implies after.1.errors[j] == #[trigger] old_errors[j] by {
                assert(after.1.errors.take(old_errors.len() as int)[j] == after.1.errors[j]);
            }
            if after.0 is None {
                assert forall|k: int, i: int|
                    0 <= k < n && 0 <= i < effects_in(p, scopes[k]).len() && is_harmful_on_import(
                        p,
                        s.verdicts,
                        module,
                        #[trigger] effects_in(p, scopes[k])[i],
                    ) implies has_error_for(after.1.errors, effects_in(p, scopes[k])[i]) by {
                    let eff = effects_in(p, scopes[k])[i];
                    if k < n - 1 {
                        assert(has_error_for(old_errors, eff));
                        let j = choose|j: int| 0 <= j < old_errors.len() && is_error_for(#[trigger] old_errors[j], eff);
                        assert(is_error_for(after.1.errors[j], eff));
                    }
                }
            }
            if s.errors.len() == 0 {
                assert forall|j: int| 0 <= j < after.1.errors.len() implies has_reason_in(
                    p,
                    s.verdicts,
                    module,
                    scopes,
                    #[trigger] after.1.errors[j],
                ) by {
                    if j < old_errors.len() {
                        assert(has_reason_in(p, s.verdicts, module, scopes, old_errors[j]));
                    } else {
                        assert(has_reason(p, s.verdicts, module, effs, after.1.errors[j]));
                        assert(effects_in(p, scopes[n - 1]) == effs);
                    }
                }
            }
        }
    }
}

/// The scopes of a module that run when it is imported.
pub open spec fn scopes_on_import(p: &ProjectInfo, module: Seq<char>) -> Seq<Seq<char>> {
    p.analysis_map@[module].definitions.eager_scopes.items()
}

/// A module could be analyzed, and has an error at the place of an effect, or it could not.
pub open spec fn fails_for(result: ResultView, eff: EffectView) -> bool {
    match result {
        ResultView::Analyzed(safety) => exists|j: int|
            0 <= j < safety.errors.len() && (#[trigger] safety.errors[j]).range == eff.range && safety.errors[j].metadata
                == eff.name,
        ResultView::Failed(_) => true,
    }
}

/// Every harmful effect of importing a module is an error of the module.
pub proof fn harmful_effects_are_errors(
    p: &ProjectInfo,
    graph: &ImportGraph,
    known: Map<Seq<char>, FunctionInfoView>,
    mode: ExecutionMode,
    module: Seq<char>,
    k: int,
    i: int,
)
    requires
        p.effect_table.effects().ordered(),
        complete(p, (CheckView { verdicts: known, errors: Seq::empty() })),
        0 <= k < scopes_on_import(p, module).len(),
        0 <= i < effects_in(p, scopes_on_import(p, module)[k]).len(),
        is_harmful_on_import(p, known, module, effects_in(p, scopes_on_import(p, module)[k])[i]),
    ensures
        fails_for(
            module_result(p, graph, known, mode, module),
            effects_in(p, scopes_on_import(p, module)[k])[i],
        ),
{
    let scopes = scopes_on_import(p, module);
    let s = CheckView { verdicts: known, errors: Seq::empty() };
    lemma_scopes(p, module, scopes, s, scopes.len() as int);
    let eff = effects_in(p, scopes[k])[i];
    let (failed, after) = scopes_pass(p, module, scopes, s, scopes.len() as int);
    if failed is None {
        assert(has_error_for(after.errors, eff));
        let j = choose|j: int| 0 <= j < after.errors.len() && is_error_for(#[trigger] after.errors[j], eff);
        assert(after.errors[j].range == eff.range);
    }
}

/// Every error of a module stands at a harmful effect of importing it.
pub proof fn errors_are_harmful_effects(
    p: &ProjectInfo,
    graph: &ImportGraph,
    known: Map<Seq<char>, FunctionInfoView>,
    mode: ExecutionMode,
    module: Seq<char>,
    j: int,
)
    requires
        p.effect_table.effects().ordered(),
        complete(p, (CheckView { verdicts: known, errors: Seq::empty() })),
        module_result(p, graph, known, mode, module) is Analyzed,
        0 <= j < module_result(p, graph, known, mode, module)->Analyzed_0.errors.len(),
    ensures
        exists|k: int, i: int|
            0 <= k < scopes_on_import(p, module).len() && 0 <= i < effects_in(
                p,
                scopes_on_import(p, module)[k],
            ).len() && is_harmful_on_import(
                p,
                known,
                module,
                #[trigger] effects_in(p, scopes_on_import(p, module)[k])[i],
            ) && module_result(p, graph, known, mode, module)->Analyzed_0.errors[j].range == effects_in(
                p,
                scopes_on_import(p, module)[k],
            )[i].range,
{
    let scopes = scopes_on_import(p, module);
    let s = CheckView { verdicts: known, errors: Seq::empty() };
    lemma_scopes(p, module, scopes, s, scopes.len() as int);
    let (failed, after) = scopes_pass(p, module, scopes, s, scopes.len() as int);
    let e = after.errors[j];
    assert(has_reason_in(p, known, module, scopes, e));
    let k = choose|k: int|
        0 <= k < scopes.len() && has_reason(p, known, module, effects_in(p, #[trigger] scopes[k]), e);
    let effs = effects_in(p, scopes[k]);
    let i = choose|i: int|
        0 <= i < effs.len() && is_harmful_on_import(p, known, module, #[trigger] effs[i]) && is_error_for(e, effs[i]);
    assert(is_harmful_on_import(p, known, module, effects_in(p, scopes_on_import(p, module)[k])[i]));
}

/// A function with a harmful effect is unsafe in the end, however the program is analyzed, and a
/// call of it that runs when a module is imported is an error of that module.
pub proof fn harmful_functions_are_unsafe_to_call(
    p: &ProjectInfo,
    graph: &ImportGraph,
    mode: ExecutionMode,
    s: CheckView,
    f: Seq<char>,
    at: int,
    module: Seq<char>,
    k: int,
    i: int,
)
    requires
        p.effect_table.effects().ordered(),
        p.functions.ordered(),
        p.classes.classes().ordered(),
        p.functions@.contains_key(f),
        !p.classes.deep_view().contains_key(f),
        0 <= at < effects_in(p, f).len(),
        is_harmful(effects_in(p, f)[at].kind),
        final_verdicts(p, graph, mode, s),
        0 <= k < scopes_on_import(p, module).len(),
        0 <= i < effects_in(p, scopes_on_import(p, module)[k]).len(),
        is_call(effects_in(p, scopes_on_import(p, module)[k])[i].kind),
        effects_in(p, scopes_on_import(p, module)[k])[i].name == f,
    ensures
        s.has_verdict(f, FunctionSafety::Unsafe),
        fails_for(
            module_result(p, graph, s.verdicts, mode, module),
            effects_in(p, scopes_on_import(p, module)[k])[i],
        ),
{
    functions_answer_for_their_effects(p, f, at);
    settling_clears_only_what_was_lacking(p, graph, mode, s, f);
    every_function_has_a_verdict(p);
    let eff = effects_in(p, scopes_on_import(p, module)[k])[i];
    assert(runs(p, eff, f));
    assert(runs_unsafe(p, s.verdicts, module, eff));
    harmful_effects_are_errors(p, graph, s.verdicts, mode, module, k, i);
}

} // verus!
