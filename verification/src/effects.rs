//! What Python code does besides computing values.

use crate::cursor::{clone_handlers, handler_catches, some_handler_catches, TryHandler};
use crate::format::ErrorString;
use crate::module_name::{optional_text, str_eq, texts, ModuleName};
use crate::name_map::NameMap;
use crate::text_range::TextRange;
use vstd::prelude::*;

verus! {

/// A side effect, at module level (set off by importing the module) or in a function (set off by
/// calling it).
#[derive(Debug, PartialEq, Eq, Structural, Hash, Copy, Clone)]
pub enum EffectKind {
    /// Assigning to a global via `global` statement.
    GlobalVarAssign,
    /// Assigning to a class variable.
    ClassVarAssign,
    /// Mutating a global (e.g., `my_list.append(x)` at module level).
    GlobalVarMutation,
    /// Decorator application.
    DecoratorCall,
    /// Imported decorator application.
    ImportedDecoratorCall,
    /// Import triggered implicitly.
    ImplicitImport,
    /// Mutating an imported variable (e.g., `foo.x = 1`).
    ImportedVarMutation,
    /// Calling an imported function.
    ImportedFunctionCall,
    /// Accessing an attribute on an imported type (may be a property).
    ImportedTypeAttr,
    /// Calling a bound method, e.g. `obj.method(...)`
    MethodCall,
    /// Calling a method through the class, e.g. `C.method(obj, ...)`
    UnboundMethodCall,
    /// Calling a method on a function parameter.
    ParamMethodCall,
    /// Calling a locally-defined function.
    FunctionCall,
    /// Calling explicitly prohibited builtins (e.g., `getattr` with non-literal arg).
    ProhibitedFunctionCall,
    /// Call where the decorator target cannot be resolved.
    UnknownDecoratorCall,
    /// Call where the function target cannot be resolved.
    UnknownFunctionCall,
    /// Call where the method target cannot be resolved.
    UnknownMethodCall,
    /// Binary operation on imported values (may trigger `__eq__` etc.).
    UnknownValueBinaryOp,
    /// Accessing an attribute on an unresolved object.
    UnknownObject,
    /// Explicitly raising an exception.
    Raise,
    /// Attribute assignment.
    SetAttr,
    /// Subscript assignment.
    SetSubscript,
    /// Class with `__del__` method.
    CustomFinalizer,
    /// Calling `exec()`.
    ExecCall,
    /// Accessing `sys.modules`.
    SysModulesAccess,
    /// Passing an imported variable as a function argument.
    ImportedVarArgument,
    /// Re-assigning an imported variable (for re-export tracking).
    ImportedVarReassignment,
    /// Explicitly marks a function as side-effect-free.
    NoEffects,
    /// Function body is `...` (unknown).
    UnknownEffects,
    /// Explicitly marks as unsafe.
    Unsafe,
    /// Marks a method as mutating its receiver.
    Mutation,
    /// Marks a dunder method.
    Dunder,
    /// Call has more than 64 positional arguments, exceeding the tracking bitset.
    TooManyArgs,
}

/// A text that names no kind of effect.
#[derive(Debug, PartialEq, Eq, Structural, Copy, Clone)]
pub struct UnknownEffectKind;

/// What a JSON string with the given text between its quotes stands for.
pub uninterp spec fn json_string(text: Seq<char>) -> Option<Seq<char>>;

/// A text in which no character is special between the quotes of a JSON string.
pub open spec fn plain_json(text: Seq<char>) -> bool {
    forall|i: int| 0 <= i < text.len() ==> #[trigger] text[i] != '"' && text[i] != '\\' && text[i] as u32 >= 32
}

/// `serde_json::from_str`, on the text between double quotes, reads a JSON string. Text without
/// quotes, backslashes and control characters stands for itself.
#[verifier::external_body]
fn read_json_string(text: &str) -> (res: Option<String>)
    ensures
        optional_text(res) == json_string(text@),
        plain_json(text@) ==> optional_text(res) == Some(text@),
{
    serde_json::from_str(&format!("\"{}\"", text)).ok()
}

impl EffectKind {
    /// The name of the kind: its words in lower case, joined by hyphens.
    pub open spec fn text(self) -> Seq<char> {
        match self {
            EffectKind::GlobalVarAssign => "global-var-assign"@,
            EffectKind::ClassVarAssign => "class-var-assign"@,
            EffectKind::GlobalVarMutation => "global-var-mutation"@,
            EffectKind::DecoratorCall => "decorator-call"@,
            EffectKind::ImportedDecoratorCall => "imported-decorator-call"@,
            EffectKind::ImplicitImport => "implicit-import"@,
            EffectKind::ImportedVarMutation => "imported-var-mutation"@,
            EffectKind::ImportedFunctionCall => "imported-function-call"@,
            EffectKind::ImportedTypeAttr => "imported-type-attr"@,
            EffectKind::MethodCall => "method-call"@,
            EffectKind::UnboundMethodCall => "unbound-method-call"@,
            EffectKind::ParamMethodCall => "param-method-call"@,
            EffectKind::FunctionCall => "function-call"@,
            EffectKind::ProhibitedFunctionCall => "prohibited-function-call"@,
            EffectKind::UnknownDecoratorCall => "unknown-decorator-call"@,
            EffectKind::UnknownFunctionCall => "unknown-function-call"@,
            EffectKind::UnknownMethodCall => "unknown-method-call"@,
            EffectKind::UnknownValueBinaryOp => "unknown-value-binary-op"@,
            EffectKind::UnknownObject => "unknown-object"@,
            EffectKind::Raise => "raise"@,
            EffectKind::SetAttr => "set-attr"@,
            EffectKind::SetSubscript => "set-subscript"@,
            EffectKind::CustomFinalizer => "custom-finalizer"@,
            EffectKind::ExecCall => "exec-call"@,
            EffectKind::SysModulesAccess => "sys-modules-access"@,
            EffectKind::ImportedVarArgument => "imported-var-argument"@,
            EffectKind::ImportedVarReassignment => "imported-var-reassignment"@,
            EffectKind::NoEffects => "no-effects"@,
            EffectKind::UnknownEffects => "unknown-effects"@,
            EffectKind::Unsafe => "unsafe"@,
            EffectKind::Mutation => "mutation"@,
            EffectKind::Dunder => "dunder"@,
            EffectKind::TooManyArgs => "too-many-args"@,
        }
    }

    /// The name of the kind as it is declared.
    pub open spec fn declared_name(self) -> Seq<char> {
        match self {
            EffectKind::GlobalVarAssign => "GlobalVarAssign"@,
            EffectKind::ClassVarAssign => "ClassVarAssign"@,
            EffectKind::GlobalVarMutation => "GlobalVarMutation"@,
            EffectKind::DecoratorCall => "DecoratorCall"@,
            EffectKind::ImportedDecoratorCall => "ImportedDecoratorCall"@,
            EffectKind::ImplicitImport => "ImplicitImport"@,
            EffectKind::ImportedVarMutation => "ImportedVarMutation"@,
            EffectKind::ImportedFunctionCall => "ImportedFunctionCall"@,
            EffectKind::ImportedTypeAttr => "ImportedTypeAttr"@,
            EffectKind::MethodCall => "MethodCall"@,
            EffectKind::UnboundMethodCall => "UnboundMethodCall"@,
            EffectKind::ParamMethodCall => "ParamMethodCall"@,
            EffectKind::FunctionCall => "FunctionCall"@,
            EffectKind::ProhibitedFunctionCall => "ProhibitedFunctionCall"@,
            EffectKind::UnknownDecoratorCall => "UnknownDecoratorCall"@,
            EffectKind::UnknownFunctionCall => "UnknownFunctionCall"@,
            EffectKind::UnknownMethodCall => "UnknownMethodCall"@,
            EffectKind::UnknownValueBinaryOp => "UnknownValueBinaryOp"@,
            EffectKind::UnknownObject => "UnknownObject"@,
            EffectKind::Raise => "Raise"@,
            EffectKind::SetAttr => "SetAttr"@,
            EffectKind::SetSubscript => "SetSubscript"@,
            EffectKind::CustomFinalizer => "CustomFinalizer"@,
            EffectKind::ExecCall => "ExecCall"@,
            EffectKind::SysModulesAccess => "SysModulesAccess"@,
            EffectKind::ImportedVarArgument => "ImportedVarArgument"@,
            EffectKind::ImportedVarReassignment => "ImportedVarReassignment"@,
            EffectKind::NoEffects => "NoEffects"@,
            EffectKind::UnknownEffects => "UnknownEffects"@,
            EffectKind::Unsafe => "Unsafe"@,
            EffectKind::Mutation => "Mutation"@,
            EffectKind::Dunder => "Dunder"@,
            EffectKind::TooManyArgs => "TooManyArgs"@,
        }
    }

    /// The name of the kind as it is declared.
    pub fn name(self) -> (res: &'static str)
        ensures
            res@ == self.declared_name(),
    {
        match self {
            EffectKind::GlobalVarAssign => "GlobalVarAssign",
            EffectKind::ClassVarAssign => "ClassVarAssign",
            EffectKind::GlobalVarMutation => "GlobalVarMutation",
            EffectKind::DecoratorCall => "DecoratorCall",
            EffectKind::ImportedDecoratorCall => "ImportedDecoratorCall",
            EffectKind::ImplicitImport => "ImplicitImport",
            EffectKind::ImportedVarMutation => "ImportedVarMutation",
            EffectKind::ImportedFunctionCall => "ImportedFunctionCall",
            EffectKind::ImportedTypeAttr => "ImportedTypeAttr",
            EffectKind::MethodCall => "MethodCall",
            EffectKind::UnboundMethodCall => "UnboundMethodCall",
            EffectKind::ParamMethodCall => "ParamMethodCall",
            EffectKind::FunctionCall => "FunctionCall",
            EffectKind::ProhibitedFunctionCall => "ProhibitedFunctionCall",
            EffectKind::UnknownDecoratorCall => "UnknownDecoratorCall",
            EffectKind::UnknownFunctionCall => "UnknownFunctionCall",
            EffectKind::UnknownMethodCall => "UnknownMethodCall",
            EffectKind::UnknownValueBinaryOp => "UnknownValueBinaryOp",
            EffectKind::UnknownObject => "UnknownObject",
            EffectKind::Raise => "Raise",
            EffectKind::SetAttr => "SetAttr",
            EffectKind::SetSubscript => "SetSubscript",
            EffectKind::CustomFinalizer => "CustomFinalizer",
            EffectKind::ExecCall => "ExecCall",
            EffectKind::SysModulesAccess => "SysModulesAccess",
            EffectKind::ImportedVarArgument => "ImportedVarArgument",
            EffectKind::ImportedVarReassignment => "ImportedVarReassignment",
            EffectKind::NoEffects => "NoEffects",
            EffectKind::UnknownEffects => "UnknownEffects",
            EffectKind::Unsafe => "Unsafe",
            EffectKind::Mutation => "Mutation",
            EffectKind::Dunder => "Dunder",
            EffectKind::TooManyArgs => "TooManyArgs",
        }
    }

    /// The kind with the given name.
    pub fn from_str(s: &str) -> (res: Result<EffectKind, UnknownEffectKind>)
        ensures
            match res {
                Ok(kind) => json_string(s@) == Some(kind.text()),
                Err(_) => forall|kind: EffectKind| json_string(s@) != Some(#[trigger] kind.text()),
            },
            plain_json(s@) ==> match res {
                Ok(kind) => kind.text() == s@,
                Err(_) => forall|kind: EffectKind| #[trigger] kind.text() != s@,
            },
    {
        match read_json_string(s) {
            Some(text) => effect_kind_named(&text),
            None => Err(UnknownEffectKind),
        }
    }

    /// Whether the effect is a call whose target has a body with effects of its own.
    pub fn is_runnable(&self) -> (res: bool)
        ensures
            res == self.runnable(),
    {
        matches!(
            self,
            EffectKind::FunctionCall | EffectKind::ImportedFunctionCall | EffectKind::DecoratorCall
                | EffectKind::ImportedDecoratorCall | EffectKind::MethodCall
                | EffectKind::UnboundMethodCall
        )
    }

    /// The calls whose target has a body with effects of its own.
    pub open spec fn runnable(self) -> bool {
        ||| self == EffectKind::FunctionCall
        ||| self == EffectKind::ImportedFunctionCall
        ||| self == EffectKind::DecoratorCall
        ||| self == EffectKind::ImportedDecoratorCall
        ||| self == EffectKind::MethodCall
        ||| self == EffectKind::UnboundMethodCall
    }

    /// Whether the effect, anywhere in a module, makes the module load its imports eagerly.
    pub fn requires_eager_loading_imports(&self) -> (res: bool)
        ensures
            res == self.forces_eager_imports(),
    {
        matches!(
            self,
            EffectKind::CustomFinalizer | EffectKind::ExecCall | EffectKind::SysModulesAccess
        )
    }

    /// The effects that make a module load its imports eagerly.
    pub open spec fn forces_eager_imports(self) -> bool {
        ||| self == EffectKind::CustomFinalizer
        ||| self == EffectKind::ExecCall
        ||| self == EffectKind::SysModulesAccess
    }

    /// Whether the effect, in a stub, makes a function unsafe.
    pub fn is_unsafe_stub_effect(&self) -> (res: bool)
        ensures
            res == (self == EffectKind::UnknownEffects || self == EffectKind::Unsafe || self
                == EffectKind::Mutation),
    {
        matches!(self, EffectKind::UnknownEffects | EffectKind::Unsafe | EffectKind::Mutation)
    }
}

impl ErrorString for EffectKind {
    open spec fn error_text(&self) -> Seq<char> {
        self.text()
    }

    fn error_string(&self) -> (res: String) {
        let text = match self {
            EffectKind::GlobalVarAssign => "global-var-assign",
            EffectKind::ClassVarAssign => "class-var-assign",
            EffectKind::GlobalVarMutation => "global-var-mutation",
            EffectKind::DecoratorCall => "decorator-call",
            EffectKind::ImportedDecoratorCall => "imported-decorator-call",
            EffectKind::ImplicitImport => "implicit-import",
            EffectKind::ImportedVarMutation => "imported-var-mutation",
            EffectKind::ImportedFunctionCall => "imported-function-call",
            EffectKind::ImportedTypeAttr => "imported-type-attr",
            EffectKind::MethodCall => "method-call",
            EffectKind::UnboundMethodCall => "unbound-method-call",
            EffectKind::ParamMethodCall => "param-method-call",
            EffectKind::FunctionCall => "function-call",
            EffectKind::ProhibitedFunctionCall => "prohibited-function-call",
            EffectKind::UnknownDecoratorCall => "unknown-decorator-call",
            EffectKind::UnknownFunctionCall => "unknown-function-call",
            EffectKind::UnknownMethodCall => "unknown-method-call",
            EffectKind::UnknownValueBinaryOp => "unknown-value-binary-op",
            EffectKind::UnknownObject => "unknown-object",
            EffectKind::Raise => "raise",
            EffectKind::SetAttr => "set-attr",
            EffectKind::SetSubscript => "set-subscript",
            EffectKind::CustomFinalizer => "custom-finalizer",
            EffectKind::ExecCall => "exec-call",
            EffectKind::SysModulesAccess => "sys-modules-access",
            EffectKind::ImportedVarArgument => "imported-var-argument",
            EffectKind::ImportedVarReassignment => "imported-var-reassignment",
            EffectKind::NoEffects => "no-effects",
            EffectKind::UnknownEffects => "unknown-effects",
            EffectKind::Unsafe => "unsafe",
            EffectKind::Mutation => "mutation",
            EffectKind::Dunder => "dunder",
            EffectKind::TooManyArgs => "too-many-args",
        };
        text.to_owned()
    }
}

/// The kind with the given name.
pub fn effect_kind_named(text: &String) -> (res: Result<EffectKind, UnknownEffectKind>)
    ensures
        match res {
            Ok(kind) => kind.text() == text@,
            Err(_) => forall|kind: EffectKind| #[trigger] kind.text() != text@,
        },
{
        if str_eq(text.as_str(), "global-var-assign") {
            return Ok(EffectKind::GlobalVarAssign);
        }
        if str_eq(text.as_str(), "class-var-assign") {
            return Ok(EffectKind::ClassVarAssign);
        }
        if str_eq(text.as_str(), "global-var-mutation") {
            return Ok(EffectKind::GlobalVarMutation);
        }
        if str_eq(text.as_str(), "decorator-call") {
            return Ok(EffectKind::DecoratorCall);
        }
        if str_eq(text.as_str(), "imported-decorator-call") {
            return Ok(EffectKind::ImportedDecoratorCall);
        }
        if str_eq(text.as_str(), "implicit-import") {
            return Ok(EffectKind::ImplicitImport);
        }
        if str_eq(text.as_str(), "imported-var-mutation") {
            return Ok(EffectKind::ImportedVarMutation);
        }
        if str_eq(text.as_str(), "imported-function-call") {
            return Ok(EffectKind::ImportedFunctionCall);
        }
        if str_eq(text.as_str(), "imported-type-attr") {
            return Ok(EffectKind::ImportedTypeAttr);
        }
        if str_eq(text.as_str(), "method-call") {
            return Ok(EffectKind::MethodCall);
        }
        if str_eq(text.as_str(), "unbound-method-call") {
            return Ok(EffectKind::UnboundMethodCall);
        }
        if str_eq(text.as_str(), "param-method-call") {
            return Ok(EffectKind::ParamMethodCall);
        }
        if str_eq(text.as_str(), "function-call") {
            return Ok(EffectKind::FunctionCall);
        }
        if str_eq(text.as_str(), "prohibited-function-call") {
            return Ok(EffectKind::ProhibitedFunctionCall);
        }
        if str_eq(text.as_str(), "unknown-decorator-call") {
            return Ok(EffectKind::UnknownDecoratorCall);
        }
        if str_eq(text.as_str(), "unknown-function-call") {
            return Ok(EffectKind::UnknownFunctionCall);
        }
        if str_eq(text.as_str(), "unknown-method-call") {
            return Ok(EffectKind::UnknownMethodCall);
        }
        if str_eq(text.as_str(), "unknown-value-binary-op") {
            return Ok(EffectKind::UnknownValueBinaryOp);
        }
        if str_eq(text.as_str(), "unknown-object") {
            return Ok(EffectKind::UnknownObject);
        }
        if str_eq(text.as_str(), "raise") {
            return Ok(EffectKind::Raise);
        }
        if str_eq(text.as_str(), "set-attr") {
            return Ok(EffectKind::SetAttr);
        }
        if str_eq(text.as_str(), "set-subscript") {
            return Ok(EffectKind::SetSubscript);
        }
        if str_eq(text.as_str(), "custom-finalizer") {
            return Ok(EffectKind::CustomFinalizer);
        }
        if str_eq(text.as_str(), "exec-call") {
            return Ok(EffectKind::ExecCall);
        }
        if str_eq(text.as_str(), "sys-modules-access") {
            return Ok(EffectKind::SysModulesAccess);
        }
        if str_eq(text.as_str(), "imported-var-argument") {
            return Ok(EffectKind::ImportedVarArgument);
        }
        if str_eq(text.as_str(), "imported-var-reassignment") {
            return Ok(EffectKind::ImportedVarReassignment);
        }
        if str_eq(text.as_str(), "no-effects") {
            return Ok(EffectKind::NoEffects);
        }
        if str_eq(text.as_str(), "unknown-effects") {
            return Ok(EffectKind::UnknownEffects);
        }
        if str_eq(text.as_str(), "unsafe") {
            return Ok(EffectKind::Unsafe);
        }
        if str_eq(text.as_str(), "mutation") {
            return Ok(EffectKind::Mutation);
        }
        if str_eq(text.as_str(), "dunder") {
            return Ok(EffectKind::Dunder);
        }
        if str_eq(text.as_str(), "too-many-args") {
            return Ok(EffectKind::TooManyArgs);
        }
    Err(UnknownEffectKind)
}

/// No two kinds have the same name.
pub proof fn effect_kind_names_differ(a: EffectKind, b: EffectKind)
    requires
        a.text() == b.text(),
    ensures
        a == b,
{
    reveal_strlit("global-var-assign");
    reveal_strlit("class-var-assign");
    reveal_strlit("global-var-mutation");
    reveal_strlit("decorator-call");
    reveal_strlit("imported-decorator-call");
    reveal_strlit("implicit-import");
    reveal_strlit("imported-var-mutation");
    reveal_strlit("imported-function-call");
    reveal_strlit("imported-type-attr");
    reveal_strlit("method-call");
    reveal_strlit("unbound-method-call");
    reveal_strlit("param-method-call");
    reveal_strlit("function-call");
    reveal_strlit("prohibited-function-call");
    reveal_strlit("unknown-decorator-call");
    reveal_strlit("unknown-function-call");
    reveal_strlit("unknown-method-call");
    reveal_strlit("unknown-value-binary-op");
    reveal_strlit("unknown-object");
    reveal_strlit("raise");
    reveal_strlit("set-attr");
    reveal_strlit("set-subscript");
    reveal_strlit("custom-finalizer");
    reveal_strlit("exec-call");
    reveal_strlit("sys-modules-access");
    reveal_strlit("imported-var-argument");
    reveal_strlit("imported-var-reassignment");
    reveal_strlit("no-effects");
    reveal_strlit("unknown-effects");
    reveal_strlit("unsafe");
    reveal_strlit("mutation");
    reveal_strlit("dunder");
    reveal_strlit("too-many-args");
    let (s, t) = (a.text(), b.text());
    assert(s.len() == t.len());
    assert(s[4] == t[4]);
    assert(s[13] == t[13]);
}

/// How a call is written.
#[derive(Debug, PartialEq, Eq, Structural, Copy, Clone)]
pub enum CallKind {
    Function,
    Method,
    Decorator,
}

impl CallKind {
    /// The effect of a call whose target is not known.
    pub fn unknown_call_effect(&self) -> (res: EffectKind)
        ensures
            res == (match *self {
                CallKind::Function => EffectKind::UnknownFunctionCall,
                CallKind::Method => EffectKind::UnknownMethodCall,
                CallKind::Decorator => EffectKind::UnknownDecoratorCall,
            }),
    {
        match self {
            CallKind::Function => EffectKind::UnknownFunctionCall,
            CallKind::Method => EffectKind::UnknownMethodCall,
            CallKind::Decorator => EffectKind::UnknownDecoratorCall,
        }
    }
}

/// The place in a call's arguments into which a parameter of the enclosing function is passed.
pub enum ArgSlot {
    /// The positional argument at an index.
    Positional(usize),
    /// The keyword argument of a name.
    Keyword(ModuleName),
    /// A `*args` unpacking at an index: any positional parameter there or behind may receive a
    /// part of it.
    StarExpansion(usize),
}

/// What an [`ArgSlot`] is.
pub enum SlotView {
    Positional(usize),
    Keyword(Seq<char>),
    StarExpansion(usize),
}

impl DeepView for ArgSlot {
    type V = SlotView;

    open spec fn deep_view(&self) -> SlotView {
        match self {
            ArgSlot::Positional(i) => SlotView::Positional(*i),
            ArgSlot::Keyword(k) => SlotView::Keyword(k@),
            ArgSlot::StarExpansion(i) => SlotView::StarExpansion(*i),
        }
    }
}

impl Clone for ArgSlot {
    fn clone(&self) -> (res: ArgSlot)
        ensures
            res.deep_view() == self.deep_view(),
    {
        match self {
            ArgSlot::Positional(i) => ArgSlot::Positional(*i),
            ArgSlot::Keyword(k) => ArgSlot::Keyword(k.clone()),
            ArgSlot::StarExpansion(i) => ArgSlot::StarExpansion(*i),
        }
    }
}

/// The arguments of a call that carry an imported variable.
pub struct ImportedArgs {
    /// Bit `i` is set where the positional argument `i` is an imported variable.
    pub unsafe_arg_indices: u64,
    /// The keyword arguments that are imported variables.
    pub unsafe_keyword_names: Vec<ModuleName>,
    /// A `**kwargs` expansion holds an imported variable: any keyword may be one.
    pub has_unsafe_kwargs_expansion: bool,
    /// Where a `*args` expansion holds an imported variable, the first positional index that its
    /// elements can reach.
    pub unsafe_args_expansion_min: Option<usize>,
}

/// What an [`ImportedArgs`] is.
pub struct ImportedArgsView {
    pub indices: u64,
    pub keywords: Seq<Seq<char>>,
    pub kwargs_expansion: bool,
    pub args_expansion_min: Option<usize>,
}

impl DeepView for ImportedArgs {
    type V = ImportedArgsView;

    open spec fn deep_view(&self) -> ImportedArgsView {
        ImportedArgsView {
            indices: self.unsafe_arg_indices,
            keywords: texts(self.unsafe_keyword_names@),
            kwargs_expansion: self.has_unsafe_kwargs_expansion,
            args_expansion_min: self.unsafe_args_expansion_min,
        }
    }
}

impl ImportedArgsView {
    /// No argument carries an imported variable.
    pub open spec fn none() -> ImportedArgsView {
        ImportedArgsView {
            indices: 0,
            keywords: Seq::empty(),
            kwargs_expansion: false,
            args_expansion_min: None,
        }
    }

    /// The positional argument at an index is, or may be, an imported variable.
    pub open spec fn unsafe_index(self, idx: usize) -> bool {
        ||| (self.args_expansion_min matches Some(min) && idx >= min)
        ||| (idx < 64 && self.indices & (1u64 << idx) != 0)
    }

    /// The keyword argument of a name is, or may be, an imported variable.
    pub open spec fn unsafe_keyword(self, name: Seq<char>) -> bool {
        self.kwargs_expansion || self.keywords.contains(name)
    }

    /// Some argument is known to carry an imported variable.
    pub open spec fn known_unsafe(self) -> bool {
        ||| self.indices != 0
        ||| self.keywords.len() > 0
        ||| self.kwargs_expansion
        ||| self.args_expansion_min is Some
    }

    /// The positional argument that fills a parameter, where its index is known and the receiver
    /// does not fill it.
    pub open spec fn argument_for(param_idx: Option<usize>, arg_offset: usize) -> Option<usize> {
        match param_idx {
            Some(idx) => if idx >= arg_offset {
                Some((idx - arg_offset) as usize)
            } else {
                None
            },
            None => None,
        }
    }

    /// An imported variable reaches, or may reach, a parameter of the callee: by its position; by
    /// its keyword; by a `*args` expansion, where the parameter's position is not known; or in
    /// some way that left no trace, where nothing is known of the arguments.
    pub open spec fn reaches_param(self, name: Seq<char>, param_idx: Option<usize>, arg_offset: usize) -> bool {
        let arg = ImportedArgsView::argument_for(param_idx, arg_offset);
        ||| (arg matches Some(i) && self.unsafe_index(i))
        ||| self.unsafe_keyword(name)
        ||| (arg is None && self.args_expansion_min is Some)
        ||| !self.known_unsafe()
    }

    /// An imported variable reaches, or may reach, one of the parameters that are listed.
    pub open spec fn reaches_any(self, params: Map<Seq<char>, Option<usize>>, arg_offset: usize) -> bool {
        exists|name: Seq<char>| #[trigger]
            params.contains_key(name) && self.reaches_param(name, params[name], arg_offset)
    }
}

impl ImportedArgs {
    /// No argument carries an imported variable.
    pub fn none() -> (res: ImportedArgs)
        ensures
            res.deep_view() == ImportedArgsView::none(),
    {
        let res = ImportedArgs {
            unsafe_arg_indices: 0,
            unsafe_keyword_names: Vec::new(),
            has_unsafe_kwargs_expansion: false,
            unsafe_args_expansion_min: None,
        };
        proof {
            assert(res.deep_view().keywords =~= Seq::empty());
        }
        res
    }

    pub fn has_unsafe_arg_index(&self, idx: usize) -> (res: bool)
        ensures
            res == self.deep_view().unsafe_index(idx),
    {
        let expanded = match self.unsafe_args_expansion_min {
            Some(min) => idx >= min,
            None => false,
        };
        expanded || (idx < 64 && (self.unsafe_arg_indices & (1u64 << idx)) != 0)
    }

    pub fn has_unsafe_keywords(&self) -> (res: bool)
        ensures
            res == (self.deep_view().keywords.len() > 0 || self.deep_view().kwargs_expansion),
    {
        self.unsafe_keyword_names.len() > 0 || self.has_unsafe_kwargs_expansion
    }

    pub fn has_unsafe_keyword(&self, name: &str) -> (res: bool)
        ensures
            res == self.deep_view().unsafe_keyword(name@),
    {
        if self.has_unsafe_kwargs_expansion {
            return true;
        }
        for i in 0..self.unsafe_keyword_names.len()
            invariant
                !self.has_unsafe_kwargs_expansion,
                forall|j: int| 0 <= j < i ==> texts(self.unsafe_keyword_names@)[j] != name@,
        {
            if str_eq(self.unsafe_keyword_names[i].as_str(), name) {
                proof {
                    assert(texts(self.unsafe_keyword_names@)[i as int] == name@);
                }
                return true;
            }
        }
        false
    }

    pub fn has_precise_keyword_tracking(&self) -> (res: bool)
        ensures
            res == !self.deep_view().kwargs_expansion,
    {
        !self.has_unsafe_kwargs_expansion
    }

    pub fn has_precise_arg_tracking(&self) -> (res: bool)
        ensures
            res == self.deep_view().args_expansion_min is None,
    {
        self.unsafe_args_expansion_min.is_none()
    }

    pub fn has_any_tracked_args(&self) -> (res: bool)
        ensures
            res == self.deep_view().known_unsafe(),
    {
        self.unsafe_arg_indices != 0 || self.unsafe_keyword_names.len() > 0
            || self.has_unsafe_kwargs_expansion || self.unsafe_args_expansion_min.is_some()
    }

    /// Whether an imported variable reaches the callee's parameter of the given name, at the
    /// given positional index where that is known, behind `arg_offset` implicit arguments.
    pub fn hits_param(&self, param_name: &str, param_idx: Option<usize>, arg_offset: usize) -> (res: bool)
        ensures
            res == self.deep_view().reaches_param(param_name@, param_idx, arg_offset),
    {
        let resolved_idx: Option<usize> = match param_idx {
            Some(idx) => if idx >= arg_offset {
                Some(idx - arg_offset)
            } else {
                None
            },
            None => None,
        };
        if let Some(arg_idx) = resolved_idx {
            if self.has_unsafe_arg_index(arg_idx) {
                return true;
            }
        }
        if self.has_unsafe_keyword(param_name) {
            return true;
        }
        if self.has_unsafe_keywords() && self.has_precise_keyword_tracking()
            && self.has_precise_arg_tracking() {
            return false;
        }
        (resolved_idx.is_none() && !self.has_precise_arg_tracking()) || !self.has_any_tracked_args()
    }

    /// Whether an imported variable reaches any of the callee's parameters that are listed.
    pub fn hits_any_param(&self, params: &NameMap<Option<usize>>, arg_offset: usize) -> (res: bool)
        ensures
            res == self.deep_view().reaches_any(params@, arg_offset),
    {
        let n: usize = params.len();
        for i in 0..n
            invariant
                n == params.keys().len(),
                params.ordered(),
                forall|j: int|
                    0 <= j < i ==> !self.deep_view().reaches_param(
                        #[trigger] params.keys()[j],
                        params@[params.keys()[j]],
                        arg_offset,
                    ),
        {
            if self.hits_param(params.key_at(i).as_str(), *params.value_at(i), arg_offset) {
                proof {
                    assert(params@.contains_key(params.keys()[i as int]));
                }
                return true;
            }
        }
        proof {
            assert forall|name: Seq<char>| #[trigger]
                params@.contains_key(name) implies !self.deep_view().reaches_param(
                name,
                params@[name],
                arg_offset,
            ) by {
                let j = params.keys().index_of(name);
                assert(params.keys()[j] == name);
            }
        }
        false
    }
}

impl Clone for ImportedArgs {
    fn clone(&self) -> (res: ImportedArgs)
        ensures
            res.deep_view() == self.deep_view(),
    {
        ImportedArgs {
            unsafe_arg_indices: self.unsafe_arg_indices,
            unsafe_keyword_names: crate::module_name::clone_names(&self.unsafe_keyword_names),
            has_unsafe_kwargs_expansion: self.has_unsafe_kwargs_expansion,
            unsafe_args_expansion_min: self.unsafe_args_expansion_min,
        }
    }
}

/// What is known of a call's arguments.
pub struct CallData {
    has_unsafe_args: bool,
    imported_args: ImportedArgs,
    forwarded_params: Vec<(ArgSlot, ModuleName)>,
}

/// What a [`CallData`] is.
pub struct CallView {
    pub has_unsafe_args: bool,
    pub imported_args: ImportedArgsView,
    /// The places into which parameters of the enclosing function are passed, each with the
    /// parameter's name.
    pub forwarded_params: Seq<(SlotView, Seq<char>)>,
}

/// What a sequence of forwarded parameters is.
pub open spec fn forwards(params: Seq<(ArgSlot, ModuleName)>) -> Seq<(SlotView, Seq<char>)> {
    params.map_values(|p: (ArgSlot, ModuleName)| (p.0.deep_view(), p.1@))
}

impl DeepView for CallData {
    type V = CallView;

    closed spec fn deep_view(&self) -> CallView {
        CallView {
            has_unsafe_args: self.has_unsafe_args,
            imported_args: self.imported_args.deep_view(),
            forwarded_params: forwards(self.forwarded_params@),
        }
    }
}

impl CallData {
    pub fn new(
        has_unsafe_args: bool,
        unsafe_arg_indices: u64,
        unsafe_keyword_names: Vec<ModuleName>,
        has_unsafe_kwargs_expansion: bool,
    ) -> (res: CallData)
        ensures
            res.deep_view() == (CallView {
                has_unsafe_args,
                imported_args: ImportedArgsView {
                    indices: unsafe_arg_indices,
                    keywords: texts(unsafe_keyword_names@),
                    kwargs_expansion: has_unsafe_kwargs_expansion,
                    args_expansion_min: None,
                },
                forwarded_params: Seq::empty(),
            }),
    {
        let res = CallData {
            has_unsafe_args,
            imported_args: ImportedArgs {
                unsafe_arg_indices,
                unsafe_keyword_names,
                has_unsafe_kwargs_expansion,
                unsafe_args_expansion_min: None,
            },
            forwarded_params: Vec::new(),
        };
        proof {
            assert(res.deep_view().forwarded_params =~= Seq::empty());
        }
        res
    }

    /// Records that a `*args` expansion with an imported variable reaches the positional indices
    /// from `min` on.
    pub fn with_args_expansion(self, min: Option<usize>) -> (res: CallData)
        ensures
            res.deep_view() == (CallView {
                imported_args: ImportedArgsView {
                    args_expansion_min: min,
                    ..self.deep_view().imported_args
                },
                ..self.deep_view()
            }),
    {
        let mut res = self;
        res.imported_args.unsafe_args_expansion_min = min;
        res
    }

    pub fn with_forwarded_params(self, forwarded_params: Vec<(ArgSlot, ModuleName)>) -> (res: CallData)
        ensures
            res.deep_view() == (CallView {
                forwarded_params: forwards(forwarded_params@),
                ..self.deep_view()
            }),
    {
        let mut res = self;
        res.forwarded_params = forwarded_params;
        res
    }

    pub fn empty() -> (res: CallData)
        ensures
            res.deep_view() == (CallView {
                has_unsafe_args: false,
                imported_args: ImportedArgsView::none(),
                forwarded_params: Seq::empty(),
            }),
    {
        let res = CallData {
            has_unsafe_args: false,
            imported_args: ImportedArgs::none(),
            forwarded_params: Vec::new(),
        };
        proof {
            assert(res.deep_view().forwarded_params =~= Seq::empty());
        }
        res
    }

    pub fn forwarded_params(&self) -> (res: &Vec<(ArgSlot, ModuleName)>)
        ensures
            forwards(res@) == self.deep_view().forwarded_params,
    {
        &self.forwarded_params
    }

    pub fn has_forwarded_params(&self) -> (res: bool)
        ensures
            res == (self.deep_view().forwarded_params.len() > 0),
    {
        self.forwarded_params.len() > 0
    }

    pub fn has_unsafe_args(&self) -> (res: bool)
        ensures
            res == self.deep_view().has_unsafe_args,
    {
        self.has_unsafe_args
    }

    pub fn imported_args(&self) -> (res: &ImportedArgs)
        ensures
            res.deep_view() == self.deep_view().imported_args,
    {
        &self.imported_args
    }
}

/// What an effect carries beside its name.
pub enum EffectData {
    Empty,
    Call(Box<CallData>),
}

impl Clone for CallData {
    fn clone(&self) -> (res: CallData)
        ensures
            res.deep_view() == self.deep_view(),
    {
        let mut forwarded_params: Vec<(ArgSlot, ModuleName)> = Vec::new();
        for i in 0..self.forwarded_params.len()
            invariant
                forwards(forwarded_params@) == forwards(self.forwarded_params@).take(i as int),
        {
            let ghost before = forwards(forwarded_params@);
            let entry = &self.forwarded_params[i];
            forwarded_params.push((entry.0.clone(), entry.1.clone()));
            proof {
                assert(forwards(forwarded_params@) =~= before.push(forwards(self.forwarded_params@)[i as int]));
                assert(forwards(forwarded_params@) =~= forwards(self.forwarded_params@).take(i + 1));
            }
        }
        proof {
            assert(forwards(forwarded_params@) =~= forwards(self.forwarded_params@));
        }
        CallData {
            has_unsafe_args: self.has_unsafe_args,
            imported_args: self.imported_args.clone(),
            forwarded_params,
        }
    }
}

impl Clone for EffectData {
    fn clone(&self) -> (res: EffectData)
        ensures
            res.deep_view() == self.deep_view(),
    {
        match self {
            EffectData::Empty => EffectData::Empty,
            EffectData::Call(call) => {
                let data: CallData = (**call).clone();
                EffectData::Call(Box::new(data))
            },
        }
    }
}

impl DeepView for EffectData {
    type V = Option<CallView>;

    open spec fn deep_view(&self) -> Option<CallView> {
        match self {
            EffectData::Empty => None,
            EffectData::Call(call) => Some(call.deep_view()),
        }
    }
}

/// One effect: what it is, whom it concerns and where it stands.
pub struct Effect {
    pub kind: EffectKind,
    pub name: ModuleName,
    pub range: TextRange,
    pub data: EffectData,
    /// The handlers of the `try` blocks round the call, where there are any.
    pub try_handlers: Option<Vec<TryHandler>>,
}

/// What an [`Effect`] is.
pub struct EffectView {
    pub kind: EffectKind,
    pub name: Seq<char>,
    pub range: TextRange,
    pub data: Option<CallView>,
    pub try_handlers: Option<Seq<Option<Seq<Seq<char>>>>>,
}

impl DeepView for Effect {
    type V = EffectView;

    open spec fn deep_view(&self) -> EffectView {
        EffectView {
            kind: self.kind,
            name: self.name@,
            range: self.range,
            data: self.data.deep_view(),
            try_handlers: match self.try_handlers {
                Some(handlers) => Some(handlers.deep_view()),
                None => None,
            },
        }
    }
}

impl EffectView {
    /// An effect without data, outside of any `try` block.
    pub open spec fn bare(kind: EffectKind, name: Seq<char>, range: TextRange) -> EffectView {
        EffectView { kind, name, range, data: None, try_handlers: None }
    }

    /// Some handler round the call catches the exception of the given name.
    pub open spec fn catches(self, exc_name: Seq<char>) -> bool {
        match self.try_handlers {
            Some(handlers) => some_handler_catches(handlers, exc_name),
            None => false,
        }
    }
}

impl Effect {
    pub fn new(kind: EffectKind, name: ModuleName, range: TextRange) -> (res: Effect)
        ensures
            res.deep_view() == EffectView::bare(kind, name@, range),
    {
        Effect { kind, name, range, data: EffectData::Empty, try_handlers: None }
    }

    pub fn with_data(kind: EffectKind, name: ModuleName, range: TextRange, data: EffectData) -> (res: Effect)
        ensures
            res.deep_view() == (EffectView {
                data: data.deep_view(),
                ..EffectView::bare(kind, name@, range)
            }),
    {
        Effect { kind, name, range, data, try_handlers: None }
    }

    /// Puts the effect inside `try` blocks with the given handlers. Without any, nothing changes.
    pub fn with_try_handlers(self, try_handlers: Vec<TryHandler>) -> (res: Effect)
        ensures
            res.deep_view() == (if try_handlers@.len() > 0 {
                (EffectView { try_handlers: Some(try_handlers.deep_view()), ..self.deep_view() })
            } else {
                self.deep_view()
            }),
    {
        let mut res = self;
        if try_handlers.len() > 0 {
            res.try_handlers = Some(try_handlers);
        }
        res
    }

    /// Whether the effect stands inside a `try` block.
    pub fn has_try_context(&self) -> (res: bool)
        ensures
            res == self.deep_view().try_handlers is Some,
    {
        self.try_handlers.is_some()
    }

    /// Whether some handler round the effect catches the exception of the given name.
    pub fn try_context_catches(&self, exc_name: &ModuleName) -> (res: bool)
        ensures
            res == self.deep_view().catches(exc_name@),
    {
        match &self.try_handlers {
            None => false,
            Some(handlers) => {
                for i in 0..handlers.len()
                    invariant
                        self.try_handlers == Some(*handlers),
                        forall|j: int|
                            0 <= j < i ==> !handler_catches(
                                #[trigger] handlers.deep_view()[j],
                                exc_name@,
                            ),
                {
                    if handlers[i].catches(exc_name) {
                        proof {
                            let all = handlers.deep_view();
                            assert(self.deep_view().try_handlers == Some(all));
                            assert(handler_catches(all[i as int], exc_name@));
                            assert(some_handler_catches(all, exc_name@));
                        }
                        return true;
                    }
                }
                false
            },
        }
    }
}

/// The effects of each scope: of a module, or of a function or method by its full name.
pub struct EffectTable {
    table: NameMap<Vec<Effect>>,
}

impl DeepView for EffectTable {
    type V = Map<Seq<char>, Seq<EffectView>>;

    open spec fn deep_view(&self) -> Map<Seq<char>, Seq<EffectView>> {
        self.effects().deep_view()
    }
}

/// A table with effects appended to those of a scope.
pub open spec fn table_with<E>(table: Map<Seq<char>, Seq<E>>, scope: Seq<char>, effects: Seq<E>) -> Map<
    Seq<char>,
    Seq<E>,
> {
    table.insert(
        scope,
        if table.contains_key(scope) {
            table[scope] + effects
        } else {
            effects
        },
    )
}

impl Clone for Effect {
    fn clone(&self) -> (res: Effect)
        ensures
            res.deep_view() == self.deep_view(),
    {
        Effect {
            kind: self.kind,
            name: self.name.clone(),
            range: self.range,
            data: self.data.clone(),
            try_handlers: match &self.try_handlers {
                Some(handlers) => Some(clone_handlers(handlers)),
                None => None,
            },
        }
    }
}

/// Copies a list of effects.
pub fn clone_effects(effects: &Vec<Effect>) -> (res: Vec<Effect>)
    ensures
        res.deep_view() == effects.deep_view(),
{
    let mut res: Vec<Effect> = Vec::new();
    for i in 0..effects.len()
        invariant
            res.deep_view() == effects.deep_view().take(i as int),
    {
        let ghost before = res.deep_view();
        res.push(effects[i].clone());
        proof {
            assert(res.deep_view() =~= before.push(effects.deep_view()[i as int]));
            assert(res.deep_view() =~= effects.deep_view().take(i + 1));
        }
    }
    proof {
        assert(res.deep_view() =~= effects.deep_view());
    }
    res
}

impl Clone for EffectTable {
    fn clone(&self) -> (res: EffectTable)
        ensures
            res.deep_view() == self.deep_view(),
    {
        let mut table: NameMap<Vec<Effect>> = NameMap::new();
        let n: usize = self.table.len();
        let ghost keys = self.table.keys();
        let ghost all = self.table.deep_view();
        proof {
            assert(table.deep_view().dom() =~= keys.take(0).to_set());
        }
        for i in 0..n
            invariant
                n == keys.len(),
                keys == self.table.keys(),
                self.table.ordered(),
                all == self.table.deep_view(),
                table.deep_view().dom() == keys.take(i as int).to_set(),
                forall|k: Seq<char>| #[trigger]
                    table.deep_view().contains_key(k) ==> table.deep_view()[k] == all[k],
        {
            let ghost before = table.deep_view();
            let effects = clone_effects(self.table.value_at(i));
            let _ = table.insert(self.table.key_at(i).clone(), effects);
            proof {
                let k = keys[i as int];
                assert(all[k] == effects.deep_view());
                crate::name_set::lemma_take_more(keys, i as int);
                assert(table.deep_view() =~= before.insert(k, effects.deep_view()));
                assert(table.deep_view().dom() =~= keys.take(i + 1).to_set());
            }
        }
        proof {
            assert(keys.take(keys.len() as int) =~= keys);
            assert(keys.to_set() =~= all.dom());
            assert(table.deep_view() =~= all);
        }
        EffectTable { table }
    }
}

impl EffectTable {
    /// The map from scopes to effects.
    pub closed spec fn effects(&self) -> NameMap<Vec<Effect>> {
        self.table
    }

    pub fn empty() -> (res: EffectTable)
        ensures
            (res.deep_view() == Map::<Seq<char>, Seq<EffectView>>::empty()),
    {
        let res = EffectTable { table: NameMap::new() };
        proof {
            assert(res.deep_view() =~= Map::<Seq<char>, Seq<EffectView>>::empty());
        }
        res
    }

    pub fn new(table: NameMap<Vec<Effect>>) -> (res: EffectTable)
        ensures
            res.effects() == table,
    {
        EffectTable { table }
    }

    pub fn is_empty(&self) -> (res: bool)
        ensures
            res == (self.deep_view().dom() =~= Set::empty()),
    {
        proof {
            assert(self.deep_view().dom() =~= self.table@.dom());
        }
        self.table.is_empty()
    }

    /// Appends effects to those of a scope.
    pub(crate) fn append(&mut self, name: ModuleName, effects: Vec<Effect>)
        ensures
            final(self).deep_view() == table_with(old(self).deep_view(), name@, effects.deep_view()),
    {
        let ghost added = effects.deep_view();
        match self.table.position(name.as_str()) {
            Some(i) => {
                let mut all: Vec<Effect> = self.table.replace_at(i, Vec::new());
                let ghost first = all.deep_view();
                let mut more: Vec<Effect> = effects;
                all.append(&mut more);
                proof {
                    assert(all.deep_view() =~= first + added);
                }
                let _ = self.table.replace_at(i, all);
            },
            None => {
                let _ = self.table.insert(name, effects);
            },
        }
        proof {
            assert(self.deep_view() =~= table_with(old(self).deep_view(), name@, added));
        }
    }

    /// Appends an effect to those of a scope.
    pub fn insert(&mut self, name: ModuleName, effect: Effect)
        ensures
            final(self).deep_view() == table_with(
                old(self).deep_view(),
                name@,
                seq![effect.deep_view()],
            ),
    {
        let mut one: Vec<Effect> = Vec::new();
        one.push(effect);
        proof {
            assert(one.deep_view() =~= seq![effect.deep_view()]);
        }
        self.append(name, one);
    }

    pub fn get(&self, name: &ModuleName) -> (res: Option<&Vec<Effect>>)
        ensures
            res is Some <==> self.deep_view().contains_key(name@),
            res matches Some(v) ==> self.effects()@.contains_key(name@) && *v == self.effects()@[name@]
                && v.deep_view() == self.deep_view()[name@],
    {
        self.table.get(name)
    }

    /// How many scopes have effects.
    pub fn len(&self) -> (res: usize)
        ensures
            res == self.effects().keys().len(),
            self.effects().ordered(),
    {
        self.table.len()
    }

    /// The scope at a position.
    pub fn key_at(&self, i: usize) -> (res: &ModuleName)
        requires
            i < self.effects().keys().len(),
        ensures
            res@ == self.effects().keys()[i as int],
    {
        self.table.key_at(i)
    }

    /// The effects of the scope at a position.
    pub fn value_at(&self, i: usize) -> (res: &Vec<Effect>)
        requires
            i < self.effects().keys().len(),
        ensures
            *res == self.effects().values()[i as int],
            *res == self.effects()@[self.effects().keys()[i as int]],
    {
        self.table.value_at(i)
    }

    /// The names of the scopes that have effects.
    pub fn keys(&self) -> (res: Vec<ModuleName>)
        ensures
            texts(res@) == self.effects().keys(),
            texts(res@).to_set() == self.deep_view().dom(),
    {
        let res = self.table.key_list();
        proof {
            assert(texts(res@).to_set() =~= self.deep_view().dom());
        }
        res
    }

    /// Puts other effects in the place of those of the scope at a position.
    pub(crate) fn replace_at(&mut self, i: usize, effects: Vec<Effect>) -> (res: Vec<Effect>)
        requires
            i < old(self).effects().keys().len(),
        ensures
            res == old(self).effects().values()[i as int],
            final(self).effects().keys() == old(self).effects().keys(),
            final(self).effects().values() == old(self).effects().values().update(i as int, effects),
            final(self).effects()@ == old(self).effects()@.insert(
                old(self).effects().keys()[i as int],
                effects,
            ),
            final(self).effects().ordered(),
    {
        self.table.replace_at(i, effects)
    }

    /// Hands out the map from scopes to effects.
    pub fn into_inner(self) -> (res: NameMap<Vec<Effect>>)
        ensures
            res == self.effects(),
    {
        self.table
    }

    /// Moves every entry of another table into this one, behind the effects that a scope already
    /// has.
    pub fn merge(&mut self, other: EffectTable)
        ensures
            final(self).deep_view() == merged_effects(old(self).deep_view(), other.deep_view()),
    {
        let mut rest: NameMap<Vec<Effect>> = other.table;
        let ghost from = rest.deep_view();
        let ghost keys = rest.keys();
        let n: usize = rest.len();
        proof {
            assert(merged_up_to(old(self).deep_view(), from, keys, 0) =~= old(self).deep_view());
        }
        for i in 0..n
            invariant
                n == keys.len(),
                rest.keys() == keys,
                rest.ordered(),
                keys.no_duplicates(),
                forall|j: int|
                    i <= j < n ==> from.contains_key(#[trigger] keys[j]) && rest.values()[j].deep_view()
                        == from[keys[j]],
                self.deep_view() == merged_up_to(old(self).deep_view(), from, keys, i as int),
        {
            let name = rest.key_at(i).clone();
            let effects: Vec<Effect> = rest.replace_at(i, Vec::new());
            proof {
                assert(effects.deep_view() == from[keys[i as int]]);
            }
            self.append(name, effects);
            proof {
                lemma_merged_step(old(self).deep_view(), from, keys, i as int);
            }
        }
        proof {
            let all = merged_up_to(old(self).deep_view(), from, keys, n as int);
            let wanted = merged_effects(old(self).deep_view(), from);
            assert forall|k: Seq<char>| from.contains_key(k) <==> #[trigger] keys.take(n as int).contains(k) by {
                if from.contains_key(k) {
                    assert(other.table@.contains_key(k));
                    let j = keys.index_of(k);
                    assert(keys.take(n as int)[j] == k);
                }
                if keys.take(n as int).contains(k) {
                    let j = keys.take(n as int).index_of(k);
                    assert(keys[j] == k);
                    assert(other.table@.contains_key(other.table.keys()[j]));
                }
            }
            assert(all =~= wanted);
        }
    }
}

/// Two tables as one: where both have a scope, the effects of the second follow those of the
/// first.
pub open spec fn merged_effects<E>(first: Map<Seq<char>, Seq<E>>, second: Map<Seq<char>, Seq<E>>) -> Map<
    Seq<char>,
    Seq<E>,
> {
    Map::new(
        |k: Seq<char>| first.contains_key(k) || second.contains_key(k),
        |k: Seq<char>|
            if first.contains_key(k) && second.contains_key(k) {
                first[k] + second[k]
            } else if first.contains_key(k) {
                first[k]
            } else {
                second[k]
            },
    )
}

/// The first table, with the entries of the second for the first `i` of the given scopes.
spec fn merged_up_to<E>(
    first: Map<Seq<char>, Seq<E>>,
    second: Map<Seq<char>, Seq<E>>,
    keys: Seq<Seq<char>>,
    i: int,
) -> Map<Seq<char>, Seq<E>> {
    merged_effects(first, second.restrict(keys.take(i).to_set()))
}

proof fn lemma_merged_step<E>(
    first: Map<Seq<char>, Seq<E>>,
    second: Map<Seq<char>, Seq<E>>,
    keys: Seq<Seq<char>>,
    i: int,
)
    requires
        0 <= i < keys.len(),
        keys.no_duplicates(),
        second.contains_key(keys[i]),
    ensures
        merged_up_to(first, second, keys, i + 1) == table_with(
            merged_up_to(first, second, keys, i),
            keys[i],
            second[keys[i]],
        ),
{
    crate::name_set::lemma_take_more(keys, i);
    assert(!keys.take(i).contains(keys[i]));
    assert(merged_up_to(first, second, keys, i + 1) =~= table_with(
        merged_up_to(first, second, keys, i),
        keys[i],
        second[keys[i]],
    ));
}

} // verus!
