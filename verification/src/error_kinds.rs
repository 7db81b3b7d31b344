//! Which errors effects are, and which builtin functions must not be called.

use crate::analyzer::AnalyzedModule;
use crate::effects::{EffectKind, EffectView};
use crate::errors::{effect_error_kind, unsafe_call_kind, ErrorKind};
use crate::module_name::dotted;
use crate::source_info::{allowed_names, prohibited_names, prohibition};
use vstd::prelude::*;

verus! {

/// No two effects that are errors by themselves are the same error, and such an effect is no call of
/// something unsafe.
pub proof fn effects_are_told_apart_by_their_errors(a: EffectKind, b: EffectKind)
    ensures
        effect_error_kind(a) is Some && effect_error_kind(a) == effect_error_kind(b) ==> a == b,
        effect_error_kind(a) is Some ==> unsafe_call_kind(a) is None,
{
}

/// An unsafe call is an error of what is called: a decorator, a function or a method, be it imported or
/// not. No other effect is an unsafe call.
pub proof fn unsafe_calls_are_errors_of_what_is_called(kind: EffectKind)
    ensures
        unsafe_call_kind(kind) == Some(ErrorKind::UnsafeDecoratorCall) <==> kind == EffectKind::DecoratorCall || kind
            == EffectKind::ImportedDecoratorCall,
        unsafe_call_kind(kind) == Some(ErrorKind::UnsafeFunctionCall) <==> kind == EffectKind::FunctionCall || kind
            == EffectKind::ImportedFunctionCall,
        unsafe_call_kind(kind) == Some(ErrorKind::UnsafeMethodCall) <==> kind == EffectKind::MethodCall || kind
            == EffectKind::UnboundMethodCall || kind == EffectKind::ImportedTypeAttr,
        unsafe_call_kind(kind) is Some ==> unsafe_call_kind(kind) == Some(ErrorKind::UnsafeDecoratorCall)
            || unsafe_call_kind(kind) == Some(ErrorKind::UnsafeFunctionCall) || unsafe_call_kind(kind) == Some(
            ErrorKind::UnsafeMethodCall,
        ),
{
}

/// Each effect that is an error by itself is the one of its name; a prohibited function and an exception
/// that nothing catches are told as such.
pub proof fn effects_are_errors_of_their_names(kind: EffectKind)
    ensures
        effect_error_kind(kind) == Some(ErrorKind::ProhibitedCall) <==> kind == EffectKind::ProhibitedFunctionCall,
        effect_error_kind(kind) == Some(ErrorKind::UnknownFunctionCall) <==> kind == EffectKind::UnknownFunctionCall,
        effect_error_kind(kind) == Some(ErrorKind::UnhandledException) <==> kind == EffectKind::Raise,
        effect_error_kind(kind) == Some(ErrorKind::CustomFinalizer) <==> kind == EffectKind::CustomFinalizer,
        effect_error_kind(kind) == Some(ErrorKind::ExecCall) <==> kind == EffectKind::ExecCall,
        effect_error_kind(kind) == Some(ErrorKind::SysModulesAccess) <==> kind == EffectKind::SysModulesAccess,
        effect_error_kind(kind) == Some(ErrorKind::UnknownDecoratorCall) <==> kind == EffectKind::UnknownDecoratorCall,
        effect_error_kind(kind) == Some(ErrorKind::UnknownEffects) <==> kind == EffectKind::UnknownEffects,
        effect_error_kind(kind) == Some(ErrorKind::UnknownObject) <==> kind == EffectKind::UnknownObject,
        effect_error_kind(kind) == Some(ErrorKind::TooManyArgs) <==> kind == EffectKind::TooManyArgs,
{
}

proof fn lemma_prohibition(effs: Seq<EffectView>, n: int)
    requires
        0 <= n <= effs.len(),
    ensures
        prohibition(effs, n) is Some <==> exists|i: int|
            0 <= i < n && ((#[trigger] effs[i]).kind == EffectKind::ExecCall || effs[i].kind
                == EffectKind::ProhibitedFunctionCall),
        prohibition(effs, n) matches Some(kind) ==> exists|i: int|
            0 <= i < n && (#[trigger] effs[i]).kind == kind && (kind == EffectKind::ExecCall || kind
                == EffectKind::ProhibitedFunctionCall) && forall|j: int|
                0 <= j < i ==> (#[trigger] effs[j]).kind != EffectKind::ExecCall && effs[j].kind
                    != EffectKind::ProhibitedFunctionCall,
    decreases n,
{
    if n > 0 {
        lemma_prohibition(effs, n - 1);
    }
}

/// A builtin function is prohibited where the stub of the builtins says of it that it executes code or
/// must not be called, by the first effect that says so; else it is allowed.
pub proof fn builtins_are_prohibited_by_their_stub(module: AnalyzedModule, names: Set<Seq<char>>, name: Seq<char>)
    requires
        names.contains(name),
        module.module_effects.effects.deep_view().contains_key(dotted("builtins"@, name)),
    ensures
        ({
            let effs = module.module_effects.effects.deep_view()[dotted("builtins"@, name)];
            let bad = exists|i: int|
                0 <= i < effs.len() && ((#[trigger] effs[i]).kind == EffectKind::ExecCall || effs[i].kind
                    == EffectKind::ProhibitedFunctionCall);
            &&& prohibited_names(module, names).contains_key(name) <==> bad
            &&& allowed_names(module, names).contains(name) <==> !bad
            &&& bad ==> exists|i: int|
                0 <= i < effs.len() && (#[trigger] effs[i]).kind == prohibited_names(module, names)[name] && forall|
                    j: int,
                |
                    0 <= j < i ==> (#[trigger] effs[j]).kind != EffectKind::ExecCall && effs[j].kind
                        != EffectKind::ProhibitedFunctionCall
        }),
{
    let effs = module.module_effects.effects.deep_view()[dotted("builtins"@, name)];
    lemma_prohibition(effs, effs.len() as int);
}

/// A builtin of which the stub says nothing may be called.
pub proof fn other_builtins_are_allowed(module: AnalyzedModule, names: Set<Seq<char>>, name: Seq<char>)
    requires
        names.contains(name),
        !module.module_effects.effects.deep_view().contains_key(dotted("builtins"@, name)),
    ensures
        !prohibited_names(module, names).contains_key(name),
        allowed_names(module, names).contains(name),
{
}

} // verus!
