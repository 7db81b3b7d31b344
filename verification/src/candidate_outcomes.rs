//! What comes of the calls that may mutate imported objects, once the code that they call is known.

use crate::effects::ImportedArgsView;
use crate::imports::parent_dot;
use crate::known_parents::{is_nearest, is_parent, the_nearest_parent_is_found};
use crate::module_name::dotted;
use crate::module_safety::{CandidateView, FunctionSafety, SiteView};
use crate::verdicts::{
    callee_info, callee_mutates, confirmed, found_unsafe, resolve_candidate, resolve_candidates, Resolution,
    Verdicts,
};
use vstd::prelude::*;

verus! {

proof fn lemma_callee(callee: Seq<char>, modules: Set<Seq<char>>, table: Verdicts, home: Seq<char>, local: Seq<char>)
    requires
        callee == dotted(home, local),
        is_nearest(home, callee, modules),
        table.contains_key((home, local)),
    ensures
        callee_info(callee, modules, table) == Some(table[(home, local)]),
{
    the_nearest_parent_is_found(callee, modules);
    assert(is_parent(home, callee) && modules.contains(home));
    let d = parent_dot(callee, modules);
    assert(is_parent(callee.take(d), callee));
    assert(callee.take(d).len() == home.len());
    assert(callee.skip(d + 1) =~= local);
}

/// A candidate whose callee, a function of the nearest module before its name, mutates a parameter that an
/// imported object reaches is confirmed. So is one whose callee is a class with such an `__init__` or
/// `__new__`, to which the new object or the class comes first.
pub proof fn callees_that_mutate_confirm(
    candidate: CandidateView,
    modules: Set<Seq<char>>,
    table: Verdicts,
    callee: Seq<char>,
    home: Seq<char>,
    local: Seq<char>,
    param: Seq<char>,
)
    requires
        callee == dotted(home, local),
        is_nearest(home, callee, modules),
        table.contains_key((home, local)),
        table[(home, local)].mutated_params.contains_key(param),
        candidate.arg_offset < usize::MAX,
        (callee == candidate.callee && candidate.imported_args.reaches_param(
            param,
            table[(home, local)].mutated_params[param],
            candidate.arg_offset,
        )) || ((callee == dotted(candidate.callee, "__init__"@) || callee == dotted(candidate.callee, "__new__"@))
            && candidate.imported_args.reaches_param(
            param,
            table[(home, local)].mutated_params[param],
            (candidate.arg_offset + 1) as usize,
        )),
    ensures
        confirmed(candidate, modules, table),
{
    lemma_callee(callee, modules, table, home, local);
}

/// The same functions, and of each what it mutates: that does not change while candidates are looked at.
spec fn same_functions(a: Verdicts, b: Verdicts) -> bool {
    &&& a.dom() == b.dom()
    &&& forall|f: (Seq<char>, Seq<char>)| #[trigger] a.contains_key(f) ==> a[f].mutated_params == b[f].mutated_params
}

proof fn lemma_confirmed(c: CandidateView, modules: Set<Seq<char>>, a: Verdicts, b: Verdicts)
    requires
        same_functions(a, b),
    ensures
        confirmed(c, modules, a) == confirmed(c, modules, b),
{
    assert forall|callee: Seq<char>, offset: usize| #[trigger]
        callee_mutates(c, callee, offset, modules, a) == callee_mutates(c, callee, offset, modules, b) by {
        let d = parent_dot(callee, modules);
        let f = (callee.take(d), callee.skip(d + 1));
        assert(a.contains_key(f) == b.contains_key(f)) by {
            assert(a.dom().contains(f) == b.dom().contains(f));
        }
    }
}

proof fn lemma_step(before: Resolution, modules: Set<Seq<char>>, module: Seq<char>, c: CandidateView)
    ensures
        same_functions(before.table, resolve_candidate(before, modules, module, c).table),
{
    let after = resolve_candidate(before, modules, module, c);
    if let SiteView::Function(name) = c.site {
        let f = (module, name);
        if before.table.contains_key(f) {
            assert(before.table.dom() =~= after.table.dom());
        }
    }
}

proof fn lemma_steps(before: Resolution, modules: Set<Seq<char>>, module: Seq<char>, list: Seq<CandidateView>)
    ensures
        same_functions(before.table, resolve_candidates(before, modules, module, list).table),
    decreases list.len(),
{
    if list.len() > 0 {
        lemma_steps(before, modules, module, list.drop_last());
        lemma_step(resolve_candidates(before, modules, module, list.drop_last()), modules, module, list.last());
    }
}

/// The calls at module scope that are confirmed become errors of the module, and no other calls do.
pub proof fn confirmed_calls_at_module_scope_are_errors(
    before: Resolution,
    modules: Set<Seq<char>>,
    module: Seq<char>,
    list: Seq<CandidateView>,
    error: (Seq<char>, Seq<char>),
)
    ensures
        resolve_candidates(before, modules, module, list).errors.contains(error) <==> before.errors.contains(error) || (
        error.0 == module && exists|i: int|
            0 <= i < list.len() && (#[trigger] list[i]).site == SiteView::ModuleScope(error.1) && confirmed(
                list[i],
                modules,
                before.table,
            )),
    decreases list.len(),
{
    if list.len() > 0 {
        let front = list.drop_last();
        let c = list.last();
        confirmed_calls_at_module_scope_are_errors(before, modules, module, front, error);
        let mid = resolve_candidates(before, modules, module, front);
        let after = resolve_candidate(mid, modules, module, c);
        lemma_steps(before, modules, module, front);
        lemma_confirmed(c, modules, before.table, mid.table);
        assert forall|i: int| #![trigger front[i]] 0 <= i < front.len() implies front[i] == list[i] by {}
        assert(c == list[list.len() - 1]);
        if exists|i: int|
            0 <= i < list.len() && (#[trigger] list[i]).site == SiteView::ModuleScope(error.1) && confirmed(
                list[i],
                modules,
                before.table,
            ) {
            let i = choose|i: int|
                0 <= i < list.len() && (#[trigger] list[i]).site == SiteView::ModuleScope(error.1) && confirmed(
                    list[i],
                    modules,
                    before.table,
                );
            if i < front.len() {
                assert(front[i].site == SiteView::ModuleScope(error.1));
            }
        }
        if let SiteView::ModuleScope(call) = c.site {
            if confirmed(c, modules, mid.table) {
                assert(after.errors == mid.errors.push((module, call)));
                assert(after.errors.last() == (module, call));
                if mid.errors.contains(error) {
                    assert(after.errors[mid.errors.index_of(error)] == error);
                }
                if after.errors.contains(error) && error != (module, call) {
                    assert(mid.errors[after.errors.index_of(error)] == error);
                }
            }
        }
    }
}

/// A function with a confirmed call is unsafe from then on.
pub proof fn functions_with_confirmed_calls_are_unsafe(
    before: Resolution,
    modules: Set<Seq<char>>,
    module: Seq<char>,
    list: Seq<CandidateView>,
    i: int,
    name: Seq<char>,
)
    requires
        0 <= i < list.len(),
        list[i].site == SiteView::Function(name),
        before.table.contains_key((module, name)),
        confirmed(list[i], modules, before.table),
    ensures
        ({
            let after = resolve_candidates(before, modules, module, list).table;
            after.contains_key((module, name)) && after[(module, name)].verdict == FunctionSafety::Unsafe
        }),
    decreases list.len(),
{
    let front = list.drop_last();
    let c = list.last();
    let mid = resolve_candidates(before, modules, module, front);
    lemma_steps(before, modules, module, front);
    lemma_confirmed(c, modules, before.table, mid.table);
    let f = (module, name);
    assert(before.table.dom().contains(f));
    assert(mid.table.dom().contains(f));
    if i < front.len() {
        assert(front[i] == list[i]);
        functions_with_confirmed_calls_are_unsafe(before, modules, module, front, i, name);
    }
}

/// A function lacks fewer callees the more of its candidates are looked at, and one that lacked some is
/// safe only where none is left. A callee that it no longer lacks is that of a candidate of the function
/// that is not confirmed.
pub proof fn callees_are_lacked_until_their_calls_are_cleared(
    before: Resolution,
    modules: Set<Seq<char>>,
    module: Seq<char>,
    list: Seq<CandidateView>,
    f: (Seq<char>, Seq<char>),
    callee: Seq<char>,
)
    requires
        before.table.contains_key(f),
        before.table[f].missing_dep_callees.contains(callee),
    ensures
        ({
            let after = resolve_candidates(before, modules, module, list).table;
            &&& after.contains_key(f)
            &&& after[f].missing_dep_callees.subset_of(before.table[f].missing_dep_callees)
            &&& after[f].verdict == FunctionSafety::Safe && before.table[f].verdict != FunctionSafety::Safe
                ==> after[f].missing_dep_callees == Set::<Seq<char>>::empty()
            &&& !after[f].missing_dep_callees.contains(callee) ==> f.0 == module && exists|i: int|
                0 <= i < list.len() && (#[trigger] list[i]).site == SiteView::Function(f.1) && list[i].callee == callee
                    && !confirmed(list[i], modules, before.table)
        }),
    decreases list.len(),
{
    if list.len() > 0 {
        let front = list.drop_last();
        let c = list.last();
        callees_are_lacked_until_their_calls_are_cleared(before, modules, module, front, f, callee);
        let mid = resolve_candidates(before, modules, module, front);
        lemma_steps(before, modules, module, front);
        lemma_confirmed(c, modules, before.table, mid.table);
        assert forall|i: int| #![trigger front[i]] 0 <= i < front.len() implies front[i] == list[i] by {}
        assert(c == list[list.len() - 1]);
        let after = resolve_candidate(mid, modules, module, c);
        if c.site == SiteView::Function(f.1) && f.0 == module {
            if !confirmed(c, modules, mid.table) && !found_unsafe(c.callee, modules, mid.table) {
                let left = mid.table[f].missing_dep_callees.remove(c.callee);
                assert(after.table[f].missing_dep_callees == left);
            }
        } else {
            assert(after.table[f] == mid.table[f]);
        }
    }
}

/// A candidate that is not confirmed clears its function of the callee, where the callee is not found or
/// is safe, and the function is safe once it lacks nothing.
pub proof fn cleared_callees_are_no_longer_lacked(
    before: Resolution,
    modules: Set<Seq<char>>,
    module: Seq<char>,
    c: CandidateView,
    name: Seq<char>,
)
    requires
        c.site == SiteView::Function(name),
        before.table.contains_key((module, name)),
        !confirmed(c, modules, before.table),
        !(callee_info(c.callee, modules, before.table) matches Some(info) && info.verdict != FunctionSafety::Safe),
    ensures
        ({
            let f = (module, name);
            let after = resolve_candidate(before, modules, module, c);
            &&& !after.table[f].missing_dep_callees.contains(c.callee)
            &&& forall|other: Seq<char>|
                other != c.callee ==> (#[trigger] after.table[f].missing_dep_callees.contains(other)
                    <==> before.table[f].missing_dep_callees.contains(other))
            &&& before.table[f].verdict == FunctionSafety::UnsafeMissingDep && (forall|other: Seq<char>|
                !#[trigger] after.table[f].missing_dep_callees.contains(other)) ==> after.table[f].verdict
                == FunctionSafety::Safe
            &&& before.table[f].verdict == FunctionSafety::Unsafe ==> after.table[f].verdict == FunctionSafety::Unsafe
        }),
{
    let f = (module, name);
    let left = before.table[f].missing_dep_callees.remove(c.callee);
    let after = resolve_candidate(before, modules, module, c);
    assert(after.table[f].missing_dep_callees == left);
    if forall|other: Seq<char>| !#[trigger] after.table[f].missing_dep_callees.contains(other) {
        assert(left =~= Set::empty());
    }
}

/// An imported object reaches a parameter of the callee where the argument at the parameter's place, behind
/// the implicit ones, carries one, or where the argument of the parameter's name does.
pub proof fn arguments_reach_parameters(
    args: ImportedArgsView,
    name: Seq<char>,
    index: usize,
    offset: usize,
)
    requires
        index >= offset,
    ensures
        args.unsafe_index((index - offset) as usize) ==> args.reaches_param(name, Some(index), offset),
        args.keywords.contains(name) ==> args.reaches_param(name, Some(index), offset),
        args.keywords.contains(name) ==> args.reaches_param(name, None, offset),
        args.kwargs_expansion ==> args.reaches_param(name, Some(index), offset),
        args.args_expansion_min is Some ==> args.reaches_param(name, None, offset),
        args.args_expansion_min matches Some(min) && index - offset >= min ==> args.reaches_param(
            name,
            Some(index),
            offset,
        ),
{
}

} // verus!
