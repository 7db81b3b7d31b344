//! Reasons why importing a module lazily would not be safe.

use crate::effects::{Effect, EffectKind, EffectView};
use crate::format::ErrorString;
use crate::module_name::{compare_text, text_less};
use crate::text_range::TextRange;
use vstd::prelude::*;

verus! {

/// A kind of safety error.
#[derive(Debug, PartialEq, Eq, Structural, PartialOrd, Ord, Hash, Copy, Clone)]
pub enum ErrorKind {
    /// Decorator is being called eagerly and it's not known to be safe.
    UnsafeDecoratorCall,
    /// Function is being called eagerly and it's not known to be safe.
    UnsafeFunctionCall,
    /// Method is being called eagerly and it's not known to be safe.
    UnsafeMethodCall,
    /// Like UnsafeFunctionCall.  This is a historical artifact from the older analyzer.  It should
    /// be merged in with UnsafeFunctionCall in the future.
    ProhibitedCall,
    /// Decorator is being called and we haven't resolved it to a value.
    UnknownDecoratorCall,
    /// Function is being called and we haven't resolved it to a value.
    UnknownFunctionCall,
    /// Method is being called and we haven't resolved it to a value.
    UnknownMethodCall,
    /// Object is being accessed and we haven't resolved it to a value.
    UnknownObject,
    /// An exception is being explicitly raised but it is not being handled.
    UnhandledException,
    /// A class has a custom __del__ implementation.  This is a function call that we can't track
    /// statically, there's too many possible places where it could be run.
    CustomFinalizer,
    /// exec() is being called which negates any analysis we have about the current module.
    ExecCall,
    /// sys.modules is being accessed at module level, which depends on import
    /// ordering that lazy imports disrupts.
    SysModulesAccess,
    /// An attribute on an imported module is explicitly being assigned, mutating the other module.
    ImportedModuleAssignment,
    /// A variable being passed to a function call comes from an import.  The function could modify
    /// this variable.
    ImportedVarArgument,
    /// Used by stubs to indicate that a function is unsafe, if we don't have a more specific effect
    /// to annotate it with.  Unknown effects are always treated as safety errors.
    UnknownEffects,
    /// A call has more than 64 positional arguments, exceeding the tracking bitset.
    TooManyArgs,
}

impl ErrorKind {
    /// The name of the kind: its words in lower case, joined by hyphens.
    pub open spec fn text(self) -> Seq<char> {
        match self {
            ErrorKind::UnsafeDecoratorCall => "unsafe-decorator-call"@,
            ErrorKind::UnsafeFunctionCall => "unsafe-function-call"@,
            ErrorKind::UnsafeMethodCall => "unsafe-method-call"@,
            ErrorKind::ProhibitedCall => "prohibited-call"@,
            ErrorKind::UnknownDecoratorCall => "unknown-decorator-call"@,
            ErrorKind::UnknownFunctionCall => "unknown-function-call"@,
            ErrorKind::UnknownMethodCall => "unknown-method-call"@,
            ErrorKind::UnknownObject => "unknown-object"@,
            ErrorKind::UnhandledException => "unhandled-exception"@,
            ErrorKind::CustomFinalizer => "custom-finalizer"@,
            ErrorKind::ExecCall => "exec-call"@,
            ErrorKind::SysModulesAccess => "sys-modules-access"@,
            ErrorKind::ImportedModuleAssignment => "imported-module-assignment"@,
            ErrorKind::ImportedVarArgument => "imported-var-argument"@,
            ErrorKind::UnknownEffects => "unknown-effects"@,
            ErrorKind::TooManyArgs => "too-many-args"@,
        }
    }

    /// The place of the kind in the order in which the kinds are declared.
    pub open spec fn place(self) -> int {
        match self {
            ErrorKind::UnsafeDecoratorCall => 0,
            ErrorKind::UnsafeFunctionCall => 1,
            ErrorKind::UnsafeMethodCall => 2,
            ErrorKind::ProhibitedCall => 3,
            ErrorKind::UnknownDecoratorCall => 4,
            ErrorKind::UnknownFunctionCall => 5,
            ErrorKind::UnknownMethodCall => 6,
            ErrorKind::UnknownObject => 7,
            ErrorKind::UnhandledException => 8,
            ErrorKind::CustomFinalizer => 9,
            ErrorKind::ExecCall => 10,
            ErrorKind::SysModulesAccess => 11,
            ErrorKind::ImportedModuleAssignment => 12,
            ErrorKind::ImportedVarArgument => 13,
            ErrorKind::UnknownEffects => 14,
            ErrorKind::TooManyArgs => 15,
        }
    }

    fn rank(&self) -> (res: u8)
        ensures
            res == self.place(),
    {
        match self {
            ErrorKind::UnsafeDecoratorCall => 0,
            ErrorKind::UnsafeFunctionCall => 1,
            ErrorKind::UnsafeMethodCall => 2,
            ErrorKind::ProhibitedCall => 3,
            ErrorKind::UnknownDecoratorCall => 4,
            ErrorKind::UnknownFunctionCall => 5,
            ErrorKind::UnknownMethodCall => 6,
            ErrorKind::UnknownObject => 7,
            ErrorKind::UnhandledException => 8,
            ErrorKind::CustomFinalizer => 9,
            ErrorKind::ExecCall => 10,
            ErrorKind::SysModulesAccess => 11,
            ErrorKind::ImportedModuleAssignment => 12,
            ErrorKind::ImportedVarArgument => 13,
            ErrorKind::UnknownEffects => 14,
            ErrorKind::TooManyArgs => 15,
        }
    }

    /// The name of the kind as it is declared.
    pub open spec fn declared_name(self) -> Seq<char> {
        match self {
            ErrorKind::UnsafeDecoratorCall => "UnsafeDecoratorCall"@,
            ErrorKind::UnsafeFunctionCall => "UnsafeFunctionCall"@,
            ErrorKind::UnsafeMethodCall => "UnsafeMethodCall"@,
            ErrorKind::ProhibitedCall => "ProhibitedCall"@,
            ErrorKind::UnknownDecoratorCall => "UnknownDecoratorCall"@,
            ErrorKind::UnknownFunctionCall => "UnknownFunctionCall"@,
            ErrorKind::UnknownMethodCall => "UnknownMethodCall"@,
            ErrorKind::UnknownObject => "UnknownObject"@,
            ErrorKind::UnhandledException => "UnhandledException"@,
            ErrorKind::CustomFinalizer => "CustomFinalizer"@,
            ErrorKind::ExecCall => "ExecCall"@,
            ErrorKind::SysModulesAccess => "SysModulesAccess"@,
            ErrorKind::ImportedModuleAssignment => "ImportedModuleAssignment"@,
            ErrorKind::ImportedVarArgument => "ImportedVarArgument"@,
            ErrorKind::UnknownEffects => "UnknownEffects"@,
            ErrorKind::TooManyArgs => "TooManyArgs"@,
        }
    }

    /// The name of the kind as it is declared.
    pub fn name(self) -> (res: &'static str)
        ensures
            res@ == self.declared_name(),
    {
        match self {
            ErrorKind::UnsafeDecoratorCall => "UnsafeDecoratorCall",
            ErrorKind::UnsafeFunctionCall => "UnsafeFunctionCall",
            ErrorKind::UnsafeMethodCall => "UnsafeMethodCall",
            ErrorKind::ProhibitedCall => "ProhibitedCall",
            ErrorKind::UnknownDecoratorCall => "UnknownDecoratorCall",
            ErrorKind::UnknownFunctionCall => "UnknownFunctionCall",
            ErrorKind::UnknownMethodCall => "UnknownMethodCall",
            ErrorKind::UnknownObject => "UnknownObject",
            ErrorKind::UnhandledException => "UnhandledException",
            ErrorKind::CustomFinalizer => "CustomFinalizer",
            ErrorKind::ExecCall => "ExecCall",
            ErrorKind::SysModulesAccess => "SysModulesAccess",
            ErrorKind::ImportedModuleAssignment => "ImportedModuleAssignment",
            ErrorKind::ImportedVarArgument => "ImportedVarArgument",
            ErrorKind::UnknownEffects => "UnknownEffects",
            ErrorKind::TooManyArgs => "TooManyArgs",
        }
    }

    /// All kinds, in the order in which they are declared.
    pub fn all() -> (res: Vec<ErrorKind>)
        ensures
            res@.len() == 16,
            forall|i: int| 0 <= i < res@.len() ==> (#[trigger] res@[i]).place() == i,
    {
        let mut res: Vec<ErrorKind> = Vec::new();
        res.push(ErrorKind::UnsafeDecoratorCall);
        res.push(ErrorKind::UnsafeFunctionCall);
        res.push(ErrorKind::UnsafeMethodCall);
        res.push(ErrorKind::ProhibitedCall);
        res.push(ErrorKind::UnknownDecoratorCall);
        res.push(ErrorKind::UnknownFunctionCall);
        res.push(ErrorKind::UnknownMethodCall);
        res.push(ErrorKind::UnknownObject);
        res.push(ErrorKind::UnhandledException);
        res.push(ErrorKind::CustomFinalizer);
        res.push(ErrorKind::ExecCall);
        res.push(ErrorKind::SysModulesAccess);
        res.push(ErrorKind::ImportedModuleAssignment);
        res.push(ErrorKind::ImportedVarArgument);
        res.push(ErrorKind::UnknownEffects);
        res.push(ErrorKind::TooManyArgs);
        res
    }

    /// Whether the kind is declared before another.
    pub fn comes_before(self, other: ErrorKind) -> (res: bool)
        ensures
            res == (self.place() < other.place()),
    {
        self.rank() < other.rank()
    }

    /// The errors that make a module load its imports eagerly.
    pub open spec fn forces_eager_imports(self) -> bool {
        ||| self == ErrorKind::CustomFinalizer
        ||| self == ErrorKind::ExecCall
        ||| self == ErrorKind::SysModulesAccess
    }

    /// Whether the error makes a module load its imports eagerly.
    pub fn requires_eager_loading_imports(&self) -> (res: bool)
        ensures
            res == self.forces_eager_imports(),
    {
        matches!(
            self,
            ErrorKind::CustomFinalizer | ErrorKind::ExecCall | ErrorKind::SysModulesAccess
        )
    }

    /// The errors that may come only from a dependency that was not there to be analyzed: the
    /// callee was not found, or was found by an import and taken for unsafe.
    pub open spec fn may_lack_import(self) -> bool {
        ||| self == ErrorKind::UnknownFunctionCall
        ||| self == ErrorKind::UnknownMethodCall
        ||| self == ErrorKind::UnknownDecoratorCall
        ||| self == ErrorKind::UnknownObject
        ||| self == ErrorKind::UnsafeFunctionCall
        ||| self == ErrorKind::UnsafeMethodCall
        ||| self == ErrorKind::UnsafeDecoratorCall
    }

    /// Whether the error may come only from a dependency that was not there to be analyzed.
    pub fn could_be_caused_by_missing_import(&self) -> (res: bool)
        ensures
            res == self.may_lack_import(),
    {
        matches!(
            self,
            ErrorKind::UnknownFunctionCall | ErrorKind::UnknownMethodCall
                | ErrorKind::UnknownDecoratorCall | ErrorKind::UnknownObject
                | ErrorKind::UnsafeFunctionCall | ErrorKind::UnsafeMethodCall
                | ErrorKind::UnsafeDecoratorCall
        )
    }
}

impl ErrorString for ErrorKind {
    open spec fn error_text(&self) -> Seq<char> {
        self.text()
    }

    fn error_string(&self) -> (res: String) {
        let text = match self {
            ErrorKind::UnsafeDecoratorCall => "unsafe-decorator-call",
            ErrorKind::UnsafeFunctionCall => "unsafe-function-call",
            ErrorKind::UnsafeMethodCall => "unsafe-method-call",
            ErrorKind::ProhibitedCall => "prohibited-call",
            ErrorKind::UnknownDecoratorCall => "unknown-decorator-call",
            ErrorKind::UnknownFunctionCall => "unknown-function-call",
            ErrorKind::UnknownMethodCall => "unknown-method-call",
            ErrorKind::UnknownObject => "unknown-object",
            ErrorKind::UnhandledException => "unhandled-exception",
            ErrorKind::CustomFinalizer => "custom-finalizer",
            ErrorKind::ExecCall => "exec-call",
            ErrorKind::SysModulesAccess => "sys-modules-access",
            ErrorKind::ImportedModuleAssignment => "imported-module-assignment",
            ErrorKind::ImportedVarArgument => "imported-var-argument",
            ErrorKind::UnknownEffects => "unknown-effects",
            ErrorKind::TooManyArgs => "too-many-args",
        };
        text.to_owned()
    }
}

/// No two kinds have the same name.
pub proof fn error_kind_names_differ(a: ErrorKind, b: ErrorKind)
    requires
        a.text() == b.text(),
    ensures
        a == b,
{
    reveal_strlit("unsafe-decorator-call");
    reveal_strlit("unsafe-function-call");
    reveal_strlit("unsafe-method-call");
    reveal_strlit("prohibited-call");
    reveal_strlit("unknown-decorator-call");
    reveal_strlit("unknown-function-call");
    reveal_strlit("unknown-method-call");
    reveal_strlit("unknown-object");
    reveal_strlit("unhandled-exception");
    reveal_strlit("custom-finalizer");
    reveal_strlit("exec-call");
    reveal_strlit("sys-modules-access");
    reveal_strlit("imported-module-assignment");
    reveal_strlit("imported-var-argument");
    reveal_strlit("unknown-effects");
    reveal_strlit("too-many-args");
    let (s, t) = (a.text(), b.text());
    assert(s.len() == t.len());
    assert(s[3] == t[3]);
}

/// The text that goes with a safety error.
#[derive(Debug)]
pub struct ErrorMetadata {
    text: String,
}

impl View for ErrorMetadata {
    type V = Seq<char>;

    closed spec fn view(&self) -> Seq<char> {
        self.text@
    }
}

impl ErrorMetadata {
    pub fn from_str(s: &str) -> (res: ErrorMetadata)
        ensures
            res@ == s@,
    {
        ErrorMetadata { text: s.to_owned() }
    }

    pub fn as_str(&self) -> (res: &str)
        ensures
            res@ == self@,
    {
        self.text.as_str()
    }
}

impl Clone for ErrorMetadata {
    fn clone(&self) -> (res: ErrorMetadata)
        ensures
            res == *self,
    {
        ErrorMetadata { text: self.text.clone() }
    }
}

/// A reason why importing a module lazily would not be safe.
#[derive(Debug)]
pub struct SafetyError {
    pub kind: ErrorKind,
    pub metadata: ErrorMetadata,
    pub range: TextRange,
}

/// What a [`SafetyError`] is.
pub struct ErrorView {
    pub kind: ErrorKind,
    pub metadata: Seq<char>,
    pub range: TextRange,
}

impl DeepView for SafetyError {
    type V = ErrorView;

    open spec fn deep_view(&self) -> ErrorView {
        ErrorView { kind: self.kind, metadata: self.metadata@, range: self.range }
    }
}

impl Clone for SafetyError {
    fn clone(&self) -> (res: SafetyError)
        ensures
            res == *self,
    {
        SafetyError { kind: self.kind, metadata: self.metadata.clone(), range: self.range }
    }
}

/// The error that an effect is by itself, where it is one.
pub open spec fn effect_error_kind(kind: EffectKind) -> Option<ErrorKind> {
    match kind {
        EffectKind::ProhibitedFunctionCall => Some(ErrorKind::ProhibitedCall),
        EffectKind::UnknownFunctionCall => Some(ErrorKind::UnknownFunctionCall),
        EffectKind::Raise => Some(ErrorKind::UnhandledException),
        EffectKind::CustomFinalizer => Some(ErrorKind::CustomFinalizer),
        EffectKind::ExecCall => Some(ErrorKind::ExecCall),
        EffectKind::SysModulesAccess => Some(ErrorKind::SysModulesAccess),
        EffectKind::UnknownDecoratorCall => Some(ErrorKind::UnknownDecoratorCall),
        EffectKind::UnknownEffects => Some(ErrorKind::UnknownEffects),
        EffectKind::UnknownObject => Some(ErrorKind::UnknownObject),
        EffectKind::TooManyArgs => Some(ErrorKind::TooManyArgs),
        _ => None,
    }
}

/// The error that a call of something unsafe is, where the effect is a call.
pub open spec fn unsafe_call_kind(kind: EffectKind) -> Option<ErrorKind> {
    match kind {
        EffectKind::DecoratorCall => Some(ErrorKind::UnsafeDecoratorCall),
        EffectKind::ImportedDecoratorCall => Some(ErrorKind::UnsafeDecoratorCall),
        EffectKind::FunctionCall => Some(ErrorKind::UnsafeFunctionCall),
        EffectKind::ImportedFunctionCall => Some(ErrorKind::UnsafeFunctionCall),
        EffectKind::MethodCall => Some(ErrorKind::UnsafeMethodCall),
        EffectKind::UnboundMethodCall => Some(ErrorKind::UnsafeMethodCall),
        EffectKind::ImportedTypeAttr => Some(ErrorKind::UnsafeMethodCall),
        _ => None,
    }
}

/// An error of a given kind at the place of an effect.
pub open spec fn error_at(kind: ErrorKind, eff: EffectView) -> ErrorView {
    ErrorView { kind, metadata: eff.name, range: eff.range }
}

/// An effect that is not a call.
#[derive(Debug, PartialEq, Eq, Structural, Copy, Clone)]
pub struct NotACall;

impl ErrorView {
    /// Errors are ordered by where they start, then by where they end, then by kind, then by text.
    pub open spec fn precedes(self, other: ErrorView) -> bool {
        if self.range.start != other.range.start {
            self.range.start < other.range.start
        } else if self.range.end != other.range.end {
            self.range.end < other.range.end
        } else if self.kind != other.kind {
            self.kind.place() < other.kind.place()
        } else {
            text_less(self.metadata, other.metadata)
        }
    }
}

impl SafetyError {
    pub fn new(kind: ErrorKind, metadata: String, range: TextRange) -> (res: SafetyError)
        ensures
            res.deep_view() == (ErrorView { kind, metadata: metadata@, range }),
    {
        SafetyError { kind, metadata: ErrorMetadata { text: metadata }, range }
    }

    pub fn new_from_effect(kind: ErrorKind, eff: &Effect) -> (res: SafetyError)
        ensures
            res.deep_view() == error_at(kind, eff.deep_view()),
    {
        SafetyError { kind, metadata: ErrorMetadata::from_str(eff.name.as_str()), range: eff.range }
    }

    /// The error that an effect is by itself, where it is one.
    pub fn from_effect(eff: &Effect) -> (res: Option<SafetyError>)
        ensures
            match res {
                Some(e) => effect_error_kind(eff.kind) == Some(e.kind) && e.deep_view() == error_at(
                    e.kind,
                    eff.deep_view(),
                ),
                None => effect_error_kind(eff.kind) is None,
            },
    {
        let kind: Option<ErrorKind> = match eff.kind {
            EffectKind::ProhibitedFunctionCall => Some(ErrorKind::ProhibitedCall),
            EffectKind::UnknownFunctionCall => Some(ErrorKind::UnknownFunctionCall),
            EffectKind::Raise => Some(ErrorKind::UnhandledException),
            EffectKind::CustomFinalizer => Some(ErrorKind::CustomFinalizer),
            EffectKind::ExecCall => Some(ErrorKind::ExecCall),
            EffectKind::SysModulesAccess => Some(ErrorKind::SysModulesAccess),
            EffectKind::UnknownDecoratorCall => Some(ErrorKind::UnknownDecoratorCall),
            EffectKind::UnknownEffects => Some(ErrorKind::UnknownEffects),
            EffectKind::UnknownObject => Some(ErrorKind::UnknownObject),
            EffectKind::TooManyArgs => Some(ErrorKind::TooManyArgs),
            _ => None,
        };
        match kind {
            Some(kind) => Some(SafetyError::new_from_effect(kind, eff)),
            None => None,
        }
    }

    /// The error that a call of something unsafe is.
    pub fn from_unsafe_call(eff: &Effect) -> (res: Result<SafetyError, NotACall>)
        ensures
            match res {
                Ok(e) => unsafe_call_kind(eff.kind) == Some(e.kind) && e.deep_view() == error_at(
                    e.kind,
                    eff.deep_view(),
                ),
                Err(_) => unsafe_call_kind(eff.kind) is None,
            },
    {
        let kind: ErrorKind = match eff.kind {
            EffectKind::DecoratorCall | EffectKind::ImportedDecoratorCall => ErrorKind::UnsafeDecoratorCall,
            EffectKind::FunctionCall | EffectKind::ImportedFunctionCall => ErrorKind::UnsafeFunctionCall,
            EffectKind::MethodCall | EffectKind::UnboundMethodCall | EffectKind::ImportedTypeAttr => {
                ErrorKind::UnsafeMethodCall
            },
            _ => {
                return Err(NotACall);
            },
        };
        Ok(SafetyError::new_from_effect(kind, eff))
    }

    /// Whether the error comes before another in a report.
    pub fn precedes(&self, other: &SafetyError) -> (res: bool)
        ensures
            res == self.deep_view().precedes(other.deep_view()),
    {
        if self.range.start != other.range.start {
            self.range.start < other.range.start
        } else if self.range.end != other.range.end {
            self.range.end < other.range.end
        } else if self.kind != other.kind {
            self.kind.rank() < other.kind.rank()
        } else {
            compare_text(self.metadata.as_str(), other.metadata.as_str())
        }
    }
}

impl PartialEq for SafetyError {
    fn eq(&self, other: &SafetyError) -> (res: bool) {
        self.kind == other.kind && self.range == other.range && self.metadata.text == other.metadata.text
    }
}

impl vstd::std_specs::cmp::PartialEqSpecImpl for SafetyError {
    open spec fn obeys_eq_spec() -> bool {
        true
    }

    open spec fn eq_spec(&self, other: &SafetyError) -> bool {
        self.kind == other.kind && self.range == other.range && self.metadata@ == other.metadata@
    }
}

impl Eq for SafetyError {

}

/// An effect makes a module load its imports eagerly if and only if the error that it becomes
/// does.
pub proof fn eager_effects_are_eager_errors(kind: EffectKind)
    ensures
        kind.forces_eager_imports() <==> (effect_error_kind(kind) matches Some(e)
            && e.forces_eager_imports()),
{
}

/// No effect is both an error by itself and a call that may turn out to be one.
pub proof fn errors_and_calls_are_apart(kind: EffectKind)
    ensures
        effect_error_kind(kind) is None || unsafe_call_kind(kind) is None,
{
}

/// Of two different errors, one comes before the other, and not both ways round.
pub proof fn error_order_is_total(a: ErrorView, b: ErrorView)
    ensures
        a == b <==> !a.precedes(b) && !b.precedes(a),
        !(a.precedes(b) && b.precedes(a)),
{
    crate::module_name::text_order_is_total(a.metadata, b.metadata);
}

/// The order of errors is transitive.
pub proof fn error_order_is_transitive(a: ErrorView, b: ErrorView, c: ErrorView)
    requires
        a.precedes(b),
        b.precedes(c),
    ensures
        a.precedes(c),
{
    if a.kind == b.kind && b.kind == c.kind {
        if text_less(a.metadata, b.metadata) && text_less(b.metadata, c.metadata) {
            crate::module_name::text_order_is_transitive(a.metadata, b.metadata, c.metadata);
        }
    }
}

} // verus!
