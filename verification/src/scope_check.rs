//! What the scopes of a module do when it is imported.

use crate::analyzer::AnalyzedModule;
use crate::call_check::{
    checked, complete, constructor_calls, effects_in, lemma_read_call, lemma_stand_all, lemma_stand_body,
    published_kind, run_all, run_body, Call, CallStack, CallTo, CheckState, CheckView,
};
use crate::call_text::{show_call, shown_call};
use crate::class::{field_kind, FieldKind};
use crate::effects::{Effect, EffectKind, EffectView};
use crate::errors::{effect_error_kind, error_at, ErrorKind, ErrorView, SafetyError};
use crate::module_name::{last_dot, leaf_of, texts, ModuleName};
use crate::module_safety::FunctionSafety;
use crate::name_set::NameSet;
use crate::project_info::ProjectInfo;
use crate::text_range::TextRange;
use vstd::prelude::*;

verus! {

/// The range that stands for no place.
pub open spec fn nowhere() -> TextRange {
    TextRange { start: 0, end: 0 }
}

/// A call of a function or a class by itself.
pub open spec fn plain_call(caller: Seq<char>, func: Seq<char>) -> CallTo {
    CallTo {
        caller,
        effect: EffectView::bare(EffectKind::FunctionCall, func, nowhere()),
        func,
        module_scope: false,
    }
}

/// The verdict on a class: whether constructing an object of it is safe. One that is there
/// already stands. The class counts as the module that calls its constructors.
pub open spec fn class_verdict(p: &ProjectInfo, s: CheckView, name: Seq<char>) -> CheckView {
    if s.verdicts.contains_key(name) {
        s
    } else {
        let calls = constructor_calls(p, plain_call(name, name));
        let (ok, after) = run_all(p, calls, Seq::empty(), s, calls.len() as int);
        after.marked(
            name,
            if ok {
                FunctionSafety::Safe
            } else {
                FunctionSafety::Unsafe
            },
        )
    }
}

/// The verdicts on the first `n` classes.
pub open spec fn class_verdicts(p: &ProjectInfo, s: CheckView, n: int) -> CheckView
    decreases n,
{
    if n <= 0 {
        s
    } else {
        class_verdict(p, class_verdicts(p, s, n - 1), p.classes.classes().keys()[n - 1])
    }
}

/// The verdict on a function, when it is called from its own module. One that is there already
/// stands.
pub open spec fn function_verdict(p: &ProjectInfo, s: CheckView, name: Seq<char>) -> CheckView {
    if s.verdicts.contains_key(name) {
        s
    } else {
        run_body(p, plain_call(p.module_of(name), name), Seq::empty(), s).1
    }
}

/// The verdicts on the first `n` functions.
pub open spec fn function_verdicts(p: &ProjectInfo, s: CheckView, n: int) -> CheckView
    decreases n,
{
    if n <= 0 {
        s
    } else {
        function_verdict(p, function_verdicts(p, s, n - 1), p.functions.keys()[n - 1])
    }
}

impl ProjectInfo {
    /// Finds the verdicts on all classes.
    pub fn precompute_constructor_safety(&self, state: &mut CheckState)
        ensures
            final(state).deep_view() == class_verdicts(
                self,
                old(state).deep_view(),
                self.classes.classes().keys().len() as int,
            ),
    {
        let names = self.classes.keys();
        let ghost start = state.deep_view();
        let mut stack = CallStack::empty();
        for i in 0..names.len()
            invariant
                texts(names@) == self.classes.classes().keys(),
                stack@ == Seq::<Seq<char>>::empty(),
                state.deep_view() == class_verdicts(self, start, i as int),
        {
            let name = &names[i];
            proof {
                assert(texts(names@)[i as int] == name@);
            }
            if !state.function_safety.contains_key(name) {
                let effect = Effect::new(EffectKind::FunctionCall, name.clone(), TextRange::default());
                let call = Call {
                    caller_module: name,
                    effect: &effect,
                    func: name.clone(),
                    is_module_scope: false,
                };
                if self.check_constructor_call(&call, &mut stack, state) {
                    state.mark_safe(name);
                } else {
                    state.mark_unsafe(name);
                }
            }
        }
    }

    /// Finds the verdicts on all functions.
    pub fn precompute_function_safety(&self, state: &mut CheckState)
        ensures
            final(state).deep_view() == function_verdicts(
                self,
                old(state).deep_view(),
                self.functions.keys().len() as int,
            ),
            complete(self, final(state).deep_view()),
    {
        let n_scopes: usize = self.effect_table.len();
        let n: usize = self.functions.len();
        let ghost start = state.deep_view();
        let mut stack = CallStack::empty();
        for i in 0..n
            invariant
                self.effect_table.effects().ordered(),
                n == self.functions.keys().len(),
                self.functions.ordered(),
                stack@ == Seq::<Seq<char>>::empty(),
                state.deep_view() == function_verdicts(self, start, i as int),
                forall|j: int|
                    0 <= j < i ==> state.deep_view().verdicts.contains_key(
                        #[trigger] self.functions.keys()[j],
                    ),
        {
            let name = self.functions.key_at(i);
            let module = self.functions.value_at(i);
            let ghost before = state.deep_view();
            if !state.function_safety.contains_key(name) {
                let effect = Effect::new(EffectKind::FunctionCall, name.clone(), TextRange::default());
                let call = Call {
                    caller_module: module,
                    effect: &effect,
                    func: name.clone(),
                    is_module_scope: false,
                };
                proof {
                    assert(call.deep_view() == plain_call(self.module_of(name@), name@));
                }
                let _ = self.check_call_body(&call, &mut stack, state);
                proof {
                    assert forall|j: int| 0 <= j < i implies state.deep_view().verdicts.contains_key(
                        #[trigger] self.functions.keys()[j],
                    ) by {
                        lemma_stand_body(
                            self,
                            call.deep_view(),
                            Seq::empty(),
                            before,
                            self.functions.keys()[j],
                        );
                    }
                    crate::call_check::run_functions_get_verdicts(
                        self,
                        call.deep_view(),
                        Seq::empty(),
                        before,
                    );
                }
            }
        }
        proof {
            assert forall|f: Seq<char>| #[trigger]
                self.functions@.contains_key(f) implies state.deep_view().verdicts.contains_key(f) by {
                let keys = self.functions.keys();
                assert(keys.contains(f));
                assert(keys[keys.index_of(f)] == f);
            }
        }
    }
}

/// A name is that of a property of a class.
pub open spec fn names_property(p: &ProjectInfo, name: Seq<char>) -> bool {
    let d = last_dot(name);
    d >= 0 && p.classes.deep_view().contains_key(name.take(d)) && field_kind(
        p.classes.deep_view()[name.take(d)].fields,
        leaf_of(name),
    ) == Some(FieldKind::Property)
}

/// A call that runs when a module is imported. One that is not safe is an error of the module.
/// Whether it could not be told which error comes first.
pub open spec fn published(p: &ProjectInfo, call: CallTo, stack: Seq<Seq<char>>, s: CheckView) -> (
    bool,
    CheckView,
) {
    let (ok, after) = checked(p, call, stack, s);
    if ok {
        (false, after)
    } else {
        match published_kind(p, call, s) {
            Some(kind) => (false, after.with_error(error_at(kind, call.effect))),
            None => (true, after),
        }
    }
}

/// A call in a scope of a module.
pub open spec fn module_call(module: Seq<char>, eff: EffectView) -> CallTo {
    CallTo { caller: module, effect: eff, func: eff.name, module_scope: true }
}

/// What comes of one effect of a scope when its module is imported.
pub open spec fn scope_step(
    p: &ProjectInfo,
    module: Seq<char>,
    scope: Seq<char>,
    eff: EffectView,
    s: CheckView,
) -> (bool, CheckView) {
    match effect_error_kind(eff.kind) {
        Some(kind) => (false, s.with_error(error_at(kind, eff))),
        None => if eff.kind.runnable() || (eff.kind == EffectKind::ImportedTypeAttr && names_property(
            p,
            eff.name,
        )) {
            published(p, module_call(module, eff), seq![scope], s)
        } else if eff.kind == EffectKind::ImportedVarMutation {
            (false, s.with_error(error_at(ErrorKind::ImportedModuleAssignment, eff)))
        } else {
            (false, s)
        },
    }
}

/// Why a call in a scope of a module cannot be checked.
pub open spec fn failure(module: Seq<char>, scope: Seq<char>, eff: EffectView) -> Seq<char> {
    "Unexpected call type "@ + shown_call(module, scope, eff)
}

/// What comes of the first `n` effects of a scope when its module is imported. Where something
/// cannot be checked, the reason comes first, and nothing follows.
pub open spec fn scope_pass(
    p: &ProjectInfo,
    module: Seq<char>,
    scope: Seq<char>,
    s: CheckView,
    n: int,
) -> (Option<Seq<char>>, CheckView)
    decreases n,
{
    if n <= 0 {
        (None, s)
    } else {
        let before = scope_pass(p, module, scope, s, n - 1);
        let eff = effects_in(p, scope)[n - 1];
        if before.0 is Some {
            before
        } else {
            let (failed, after) = scope_step(p, module, scope, eff, before.1);
            (
                if failed {
                    Some(failure(module, scope, eff))
                } else {
                    None
                },
                after,
            )
        }
    }
}

/// What comes of the first `n` of some scopes when their module is imported.
pub open spec fn scopes_pass(
    p: &ProjectInfo,
    module: Seq<char>,
    scopes: Seq<Seq<char>>,
    s: CheckView,
    n: int,
) -> (Option<Seq<char>>, CheckView)
    decreases n,
{
    if n <= 0 {
        (None, s)
    } else {
        let before = scopes_pass(p, module, scopes, s, n - 1);
        if before.0 is Some {
            before
        } else {
            scope_pass(
                p,
                module,
                scopes[n - 1],
                before.1,
                effects_in(p, scopes[n - 1]).len() as int,
            )
        }
    }
}

/// Something in a module cannot be checked.
#[derive(Debug)]
pub struct FailedCheck {
    /// Why not.
    pub reason: String,
}

/// Why something cannot be checked, where there is such a thing.
pub open spec fn failed(res: Result<(), FailedCheck>) -> Option<Seq<char>> {
    match res {
        Ok(_) => None,
        Err(e) => Some(e.reason@),
    }
}

/// Checks of a scope only read the verdicts, once there is one on every function.
pub proof fn lemma_scope_reads(
    p: &ProjectInfo,
    module: Seq<char>,
    scope: Seq<char>,
    s: CheckView,
    n: int,
)
    requires
        p.effect_table.effects().ordered(),
        complete(p, s),
    ensures
        scope_pass(p, module, scope, s, n).1.verdicts == s.verdicts,
    decreases n,
{
    if n > 0 {
        lemma_scope_reads(p, module, scope, s, n - 1);
        let before = scope_pass(p, module, scope, s, n - 1);
        let eff = effects_in(p, scope)[n - 1];
        lemma_read_call(p, module_call(module, eff), seq![scope], before.1);
    }
}

/// What a module's scopes do when it is imported only reads the verdicts, once there is one on
/// every function. So the errors of a module do not depend on the order in which modules are
/// checked.
pub proof fn importing_reads_verdicts(
    p: &ProjectInfo,
    module: Seq<char>,
    scopes: Seq<Seq<char>>,
    s: CheckView,
    n: int,
)
    requires
        p.effect_table.effects().ordered(),
        complete(p, s),
    ensures
        scopes_pass(p, module, scopes, s, n).1.verdicts == s.verdicts,
    decreases n,
{
    if n > 0 {
        importing_reads_verdicts(p, module, scopes, s, n - 1);
        let before = scopes_pass(p, module, scopes, s, n - 1);
        lemma_scope_reads(
            p,
            module,
            scopes[n - 1],
            before.1,
            effects_in(p, scopes[n - 1]).len() as int,
        );
    }
}

impl ProjectInfo {
    /// Whether a name is that of a property of a class.
    fn is_property(&self, name: &ModuleName) -> (res: bool)
        ensures
            res == names_property(self, name@),
    {
        let (typ, attr) = match name.split_attr() {
            Some(parts) => parts,
            None => {
                return false;
            },
        };
        match self.classes.lookup(&typ) {
            Some(cls) => match cls.get_field(attr.as_str()) {
                Some(field) => field.kind == FieldKind::Property,
                None => false,
            },
            None => false,
        }
    }

    /// Collects the errors of a scope of a module that runs when the module is imported.
    pub fn collect_errors_from_scope(
        &self,
        mod_name: &ModuleName,
        scope: &ModuleName,
        state: &mut CheckState,
    ) -> (res: Result<(), FailedCheck>)
        ensures
            (failed(res), final(state).deep_view()) == scope_pass(
                self,
                mod_name@,
                scope@,
                old(state).deep_view(),
                effects_in(self, scope@).len() as int,
            ),
    {
        let effs = match self.effect_table.get(scope) {
            Some(effs) => effs,
            None => {
                return Ok(());
            },
        };
        let ghost all = effects_in(self, scope@);
        let ghost start = state.deep_view();
        for i in 0..effs.len()
            invariant
                all == effects_in(self, scope@),
                all == effs.deep_view(),
                (None::<Seq<char>>, state.deep_view()) == scope_pass(self, mod_name@, scope@, start, i as int),
                start == old(state).deep_view(),
        {
            let eff = &effs[i];
            let ghost before = state.deep_view();
            if let Some(err) = SafetyError::from_effect(eff) {
                state.add_error(err);
            } else if eff.kind.is_runnable() || (eff.kind == EffectKind::ImportedTypeAttr && self.is_property(
                &eff.name,
            )) {
                let call = Call {
                    caller_module: mod_name,
                    effect: eff,
                    func: eff.name.clone(),
                    is_module_scope: true,
                };
                let mut stack = CallStack::new(scope.clone());
                if self.check_call_safety(&call, &mut stack, state, true).is_err() {
                    let mut reason: String = "Unexpected call type ".to_owned();
                    reason.append(show_call(mod_name, scope, eff).as_str());
                    proof {
                        assert((Some(reason@), state.deep_view()) == scope_pass(
                            self,
                            mod_name@,
                            scope@,
                            start,
                            i + 1,
                        ));
                        lemma_failed(self, mod_name@, scope@, start, i + 1, all.len() as int);
                    }
                    return Err(FailedCheck { reason });
                }
            } else if eff.kind == EffectKind::ImportedVarMutation {
                state.add_error(
                    SafetyError::new_from_effect(ErrorKind::ImportedModuleAssignment, eff),
                );
            }
        }
        Ok(())
    }

    /// Collects the errors of all scopes of a module that run when the module is imported.
    pub fn collect_errors_from_scopes(
        &self,
        mod_name: &ModuleName,
        scopes: &NameSet,
        state: &mut CheckState,
    ) -> (res: Result<(), FailedCheck>)
        ensures
            (failed(res), final(state).deep_view()) == scopes_pass(
                self,
                mod_name@,
                scopes.items(),
                old(state).deep_view(),
                scopes.items().len() as int,
            ),
    {
        let n: usize = scopes.len();
        let ghost start = state.deep_view();
        let ghost all = scopes.items();
        for i in 0..n
            invariant
                n == all.len(),
                all == scopes.items(),
                (None::<Seq<char>>, state.deep_view()) == scopes_pass(self, mod_name@, all, start, i as int),
                start == old(state).deep_view(),
        {
            let scope = scopes.at(i);
            if let Err(e) = self.collect_errors_from_scope(mod_name, &scope, state) {
                proof {
                    assert((Some(e.reason@), state.deep_view()) == scopes_pass(
                        self,
                        mod_name@,
                        all,
                        start,
                        i + 1,
                    ));
                    lemma_all_failed(self, mod_name@, all, start, i + 1, n as int);
                }
                return Err(e);
            }
        }
        Ok(())
    }
}

proof fn lemma_failed(p: &ProjectInfo, module: Seq<char>, scope: Seq<char>, s: CheckView, i: int, n: int)
    requires
        0 <= i <= n,
        scope_pass(p, module, scope, s, i).0 is Some,
    ensures
        scope_pass(p, module, scope, s, n) == scope_pass(p, module, scope, s, i),
    decreases n - i,
{
    if i < n {
        lemma_failed(p, module, scope, s, i, n - 1);
    }
}

proof fn lemma_all_failed(
    p: &ProjectInfo,
    module: Seq<char>,
    scopes: Seq<Seq<char>>,
    s: CheckView,
    i: int,
    n: int,
)
    requires
        0 <= i <= n,
        scopes_pass(p, module, scopes, s, i).0 is Some,
    ensures
        scopes_pass(p, module, scopes, s, n) == scopes_pass(p, module, scopes, s, i),
    decreases n - i,
{
    if i < n {
        lemma_all_failed(p, module, scopes, s, i, n - 1);
    }
}

/// The errors among the first `n` effects of a scope that make its module load its imports
/// eagerly, behind those that are known.
pub open spec fn eager_among(effs: Seq<EffectView>, known: Seq<ErrorView>, n: int) -> Seq<ErrorView>
    decreases n,
{
    if n <= 0 {
        known
    } else {
        let before = eager_among(effs, known, n - 1);
        let eff = effs[n - 1];
        match effect_error_kind(eff.kind) {
            Some(kind) => if eff.kind.forces_eager_imports() {
                before.push(error_at(kind, eff))
            } else {
                before
            },
            None => before,
        }
    }
}

/// The errors in the first `n` scopes of a module that make it load its imports eagerly.
pub open spec fn eager_errors(output: &AnalyzedModule, n: int) -> Seq<ErrorView>
    decreases n,
{
    if n <= 0 {
        Seq::empty()
    } else {
        let scope = output.module_effects.effects.effects().keys()[n - 1];
        let effs = output.module_effects.effects.deep_view()[scope];
        eager_among(effs, eager_errors(output, n - 1), effs.len() as int)
    }
}

/// Finds the errors anywhere in a module that make it load its imports eagerly.
pub fn check_load_imports_eagerly(output: &AnalyzedModule) -> (res: Vec<SafetyError>)
    ensures
        res.deep_view() == eager_errors(
            output,
            output.module_effects.effects.effects().keys().len() as int,
        ),
        forall|i: int| 0 <= i < res@.len() ==> (#[trigger] res@[i]).kind.forces_eager_imports(),
{
    let mut res: Vec<SafetyError> = Vec::new();
    let table = &output.module_effects.effects;
    let n: usize = table.len();
    proof {
        assert(res.deep_view() =~= Seq::empty());
    }
    for i in 0..n
        invariant
            n == table.effects().keys().len(),
            *table == output.module_effects.effects,
            table.effects().ordered(),
            res.deep_view() == eager_errors(output, i as int),
            forall|i: int| 0 <= i < res@.len() ==> (#[trigger] res@[i]).kind.forces_eager_imports(),
    {
        let effs = table.value_at(i);
        let ghost all = effs.deep_view();
        let ghost known = res.deep_view();
        proof {
            assert(all == table.deep_view()[table.effects().keys()[i as int]]);
        }
        for j in 0..effs.len()
            invariant
                all == effs.deep_view(),
                res.deep_view() == eager_among(all, known, j as int),
                forall|i: int| 0 <= i < res@.len() ==> (#[trigger] res@[i]).kind.forces_eager_imports(),
        {
            let eff = &effs[j];
            if eff.kind.requires_eager_loading_imports() {
                let ghost before = res.deep_view();
                proof {
                    crate::errors::eager_effects_are_eager_errors(eff.kind);
                }
                if let Some(err) = SafetyError::from_effect(eff) {
                    let ghost view = err.deep_view();
                    res.push(err);
                    proof {
                        assert(res.deep_view() =~= before.push(view));
                    }
                }
            }
        }
    }
    res
}

/// The verdicts on classes and functions leave those that are there already as they are.
pub proof fn lemma_passes_stand(p: &ProjectInfo, s: CheckView, classes: int, functions: int, g: Seq<char>)
    requires
        p.effect_table.effects().ordered(),
        s.verdicts.contains_key(g),
    ensures
        class_verdicts(p, s, classes).verdicts.contains_key(g),
        class_verdicts(p, s, classes).verdicts[g] == s.verdicts[g],
        function_verdicts(p, s, functions).verdicts.contains_key(g),
        function_verdicts(p, s, functions).verdicts[g] == s.verdicts[g],
    decreases classes, functions,
{
    if classes > 0 {
        lemma_passes_stand(p, s, classes - 1, functions, g);
        let before = class_verdicts(p, s, classes - 1);
        let name = p.classes.classes().keys()[classes - 1];
        let calls = constructor_calls(p, plain_call(name, name));
        lemma_stand_all(p, calls, Seq::empty(), before, calls.len() as int, g);
    } else if functions > 0 {
        lemma_passes_stand(p, s, classes, functions - 1, g);
        let before = function_verdicts(p, s, functions - 1);
        let name = p.functions.keys()[functions - 1];
        lemma_stand_body(p, plain_call(p.module_of(name), name), Seq::empty(), before, g);
    }
}

} // verus!
