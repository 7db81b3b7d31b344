//! What makes a module load its imports eagerly, which functions call themselves, and how verdicts are
//! arranged by module.

use crate::analyzer::AnalyzedModule;
use crate::call_check::effects_in;
use crate::callees::constructor_names;
use crate::effects::{EffectKind, EffectView};
use crate::errors::{ErrorKind, ErrorView};
use crate::graph::is_walk;
use crate::known_parents::{is_nearest, is_parent, the_nearest_parent_is_found};
use crate::module_name::dotted;
use crate::module_safety::FunctionInfoView;
use crate::project::table_by_module;
use crate::project_info::ProjectInfo;
use crate::recursion::{call_relation, may_call, recursive, some_runs};
use crate::scope_check::{eager_among, eager_errors};
use vstd::prelude::*;

verus! {

/// An error says that an effect makes its module load its imports eagerly: a class with a finalizer, a
/// call that executes code, or a use of the table of loaded modules.
pub open spec fn is_eager_error(e: ErrorView, eff: EffectView) -> bool {
    &&& e.metadata == eff.name
    &&& e.range == eff.range
    &&& (eff.kind == EffectKind::CustomFinalizer && e.kind == ErrorKind::CustomFinalizer) || (eff.kind
        == EffectKind::ExecCall && e.kind == ErrorKind::ExecCall) || (eff.kind == EffectKind::SysModulesAccess && e.kind
        == ErrorKind::SysModulesAccess)
}

proof fn lemma_among(effs: Seq<EffectView>, known: Seq<ErrorView>, n: int, e: ErrorView)
    requires
        0 <= n <= effs.len(),
    ensures
        eager_among(effs, known, n).contains(e) <==> known.contains(e) || exists|i: int|
            0 <= i < n && is_eager_error(e, #[trigger] effs[i]),
    decreases n,
{
    if n > 0 {
        lemma_among(effs, known, n - 1, e);
        let before = eager_among(effs, known, n - 1);
        let after = eager_among(effs, known, n);
        let eff = effs[n - 1];
        if eff.kind == EffectKind::CustomFinalizer || eff.kind == EffectKind::ExecCall || eff.kind
            == EffectKind::SysModulesAccess {
            let added = after.last();
            assert(after == before.push(added));
            assert(is_eager_error(added, eff));
            if before.contains(e) {
                assert(after[before.index_of(e)] == e);
            }
            if after.contains(e) && e != added {
                assert(before[after.index_of(e)] == e);
            }
            if is_eager_error(e, eff) {
                assert(e == added);
                assert(after[after.len() - 1] == e);
            }
        } else {
            assert(after == before);
        }
    }
}

proof fn lemma_eager(output: &AnalyzedModule, n: int, e: ErrorView)
    requires
        0 <= n <= output.module_effects.effects.effects().keys().len(),
    ensures
        eager_errors(output, n).contains(e) <==> exists|k: int|
            0 <= k < n && eager_in(output, #[trigger] output.module_effects.effects.effects().keys()[k], e),
    decreases n,
{
    if n > 0 {
        lemma_eager(output, n - 1, e);
        let scope = output.module_effects.effects.effects().keys()[n - 1];
        let effs = output.module_effects.effects.deep_view()[scope];
        lemma_among(effs, eager_errors(output, n - 1), effs.len() as int, e);
    }
}

/// Some effect of a scope of a module makes the module load its imports eagerly.
pub open spec fn eager_in(output: &AnalyzedModule, scope: Seq<char>, e: ErrorView) -> bool {
    exists|i: int|
        0 <= i < output.module_effects.effects.deep_view()[scope].len() && is_eager_error(
            e,
            #[trigger] output.module_effects.effects.deep_view()[scope][i],
        )
}

/// What makes a module load its imports eagerly are the finalizers, the calls that execute code and the
/// uses of the table of loaded modules in all of its scopes, functions that nothing calls among them.
pub proof fn effects_in_all_scopes_force_eager_imports(output: &AnalyzedModule, e: ErrorView)
    requires
        output.module_effects.effects.effects().ordered(),
    ensures
        eager_errors(output, output.module_effects.effects.effects().keys().len() as int).contains(e) <==> exists|
            scope: Seq<char>,
        | #[trigger]
            output.module_effects.effects.deep_view().contains_key(scope) && eager_in(output, scope, e),
{
    let keys = output.module_effects.effects.effects().keys();
    let n = keys.len() as int;
    let table = output.module_effects.effects.deep_view();
    lemma_eager(output, n, e);
    if exists|k: int| 0 <= k < n && eager_in(output, #[trigger] keys[k], e) {
        let k = choose|k: int| 0 <= k < n && eager_in(output, #[trigger] keys[k], e);
        assert(keys.contains(keys[k]));
        assert(table.contains_key(keys[k]));
    }
    if exists|scope: Seq<char>| #[trigger] table.contains_key(scope) && eager_in(output, scope, e) {
        let scope = choose|scope: Seq<char>| #[trigger] table.contains_key(scope) && eager_in(output, scope, e);
        assert(keys.contains(scope));
        assert(eager_in(output, keys[keys.index_of(scope)], e));
    }
}

/// An effect calls something: a function, a decorator or a method.
pub open spec fn is_any_call(kind: EffectKind) -> bool {
    match kind {
        EffectKind::FunctionCall => true,
        EffectKind::ImportedFunctionCall => true,
        EffectKind::DecoratorCall => true,
        EffectKind::ImportedDecoratorCall => true,
        EffectKind::MethodCall => true,
        EffectKind::UnboundMethodCall => true,
        _ => false,
    }
}

/// A function calls what its effects name, and a class calls its constructors; nothing else is a call of
/// the project.
pub proof fn functions_call_what_their_effects_name(p: &ProjectInfo, a: Seq<char>, b: Seq<char>)
    ensures
        may_call(p, a, b) <==> p.defines(b) && ((p.functions@.contains_key(a) && exists|i: int|
            0 <= i < effects_in(p, a).len() && is_any_call((#[trigger] effects_in(p, a)[i]).kind) && effects_in(p, a)[i].name
                == b) || (p.classes.deep_view().contains_key(a) && (b == dotted(a, "__init__"@) || b == dotted(
            a,
            "__post_init__"@,
        ) || (p.classes.deep_view()[a].metaclass matches Some(meta) && (b == dotted(meta, "__new__"@) || b == dotted(
            meta,
            "__init__"@,
        )))))),
{
    let classes = p.classes.deep_view();
    let effs = effects_in(p, a);
    if exists|i: int| 0 <= i < effs.len() && is_any_call((#[trigger] effs[i]).kind) && effs[i].name == b {
        let i = choose|i: int| 0 <= i < effs.len() && is_any_call((#[trigger] effs[i]).kind) && effs[i].name == b;
        assert(effs[i].kind.runnable());
        assert(some_runs(effs, b));
    }
    if some_runs(effs, b) {
        let i = choose|i: int| 0 <= i < effs.len() && (#[trigger] effs[i]).kind.runnable() && effs[i].name == b;
        assert(is_any_call(effs[i].kind));
    }
    if classes.contains_key(a) {
        crate::call_targets::calling_a_class_runs_constructors(EffectKind::FunctionCall, a, classes, (b, 1usize));
        let list = constructor_names(a, classes);
        let called = crate::callees::callees(EffectKind::FunctionCall, a, classes);
        assert(called =~= list.map_values(|m: Seq<char>| (m, 1usize)));
        if list.contains(b) {
            assert(called[list.index_of(b)] == (b, 1usize));
        }
        if called.contains((b, 1usize)) {
            assert(list[called.index_of((b, 1usize))] == b);
        }
    }
}

/// Functions that call each other, or themselves, are recursive.
pub proof fn functions_that_call_each_other_are_recursive(p: &ProjectInfo, f: Seq<char>, g: Seq<char>)
    requires
        may_call(p, f, g),
        may_call(p, g, f),
    ensures
        recursive(p, f),
        recursive(p, g),
{
    let relation = call_relation(p);
    let there = seq![f, g, f];
    assert(is_walk(relation, there));
    assert(there.first() == f && there.last() == f);
    let back = seq![g, f, g];
    assert(is_walk(relation, back));
    assert(back.first() == g && back.last() == g);
}

/// The verdict on a name is found under the nearest module before it and the rest of the name. The names
/// of modules themselves are there only where they are asked for.
pub proof fn verdicts_are_arranged_by_the_nearest_module(
    known: Map<Seq<char>, FunctionInfoView>,
    modules: Set<Seq<char>>,
    with_modules: bool,
    module: Seq<char>,
    local: Seq<char>,
)
    ensures
        ({
            let name = dotted(module, local);
            let table = table_by_module(known, modules, with_modules);
            &&& table.contains_key((module, local)) <==> known.contains_key(name) && is_nearest(module, name, modules) && (
            with_modules || !modules.contains(name))
            &&& table.contains_key((module, local)) ==> table[(module, local)] == known[name]
        }),
{
    let name = dotted(module, local);
    the_nearest_parent_is_found(name, modules);
    let d = crate::imports::parent_dot(name, modules);
    assert(name.take(module.len() as int) =~= module);
    if is_nearest(module, name, modules) {
        assert(is_parent(module, name) && modules.contains(module));
        assert(is_parent(name.take(d), name));
        assert(name.take(d).len() == module.len());
    }
    if d == module.len() {
        assert(name.take(d) =~= module);
    }
}

} // verus!
