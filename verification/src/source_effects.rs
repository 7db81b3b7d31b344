//! What the statements and expressions of a source file do: which effect each of them is noted as,
//! wherever it stands.

use crate::ast::{
    full_name_of, Arguments, ClassDef, Decorator, ExprContext, Expression, Handler, Keyword, Node, ParsedModule, Statement, StmtNode,
};
use crate::cursor::{
    all_handlers, current_scope, handler_catches, in_scope, open_tries, some_handler_catches, ScopeKind, ScopeView,
};
use crate::effects::{EffectKind, EffectView};
use crate::manual_override::is_declared_safe;
use crate::module_effects::ModuleEffectsView;
use crate::module_name::dotted;
use crate::module_parser::source_limit;
use crate::resolve::{importlib_in, ResolvedView};
use crate::source_analyzer::{caught_by, exception_of, names_among, source_output};
use crate::source_calls::{no_args, unknown_function, unstarred, ArgsView};
use crate::source_checks::param_mutated;
use crate::source_growth::{group_grown, grown, lemma_further, more_effects};
use crate::source_info::{handled, noted, noted_plain, SourceAnalyzer};
use crate::stub_occurrences::has_effect;
use crate::text_range::TextRange;
use vstd::prelude::*;

verus! {

/// A table of effects has one of the given kind, name and range in a scope.
pub open spec fn has_kind(
    table: Map<Seq<char>, Seq<EffectView>>,
    scope: Seq<char>,
    kind: EffectKind,
    name: Seq<char>,
    range: TextRange,
) -> bool {
    exists|e: EffectView| #[trigger] has_effect(table, scope, e) && e.kind == kind && e.name == name && e.range == range
}

proof fn lemma_kind_kept(
    a: Map<Seq<char>, Seq<EffectView>>,
    b: Map<Seq<char>, Seq<EffectView>>,
    scope: Seq<char>,
    kind: EffectKind,
    name: Seq<char>,
    range: TextRange,
)
    requires
        more_effects(a, b),
        has_kind(a, scope, kind, name, range),
    ensures
        has_kind(b, scope, kind, name, range),
{
    let e = choose|e: EffectView| #[trigger]
        has_effect(a, scope, e) && e.kind == kind && e.name == name && e.range == range;
    assert(has_effect(b, scope, e));
}

proof fn lemma_kind_grown(
    a: ModuleEffectsView,
    b: ModuleEffectsView,
    scope: Seq<char>,
    kind: EffectKind,
    name: Seq<char>,
    range: TextRange,
)
    requires
        grown(a, b),
        has_kind(a.effects, scope, kind, name, range),
    ensures
        has_kind(b.effects, scope, kind, name, range),
{
    reveal(grown);
    lemma_kind_kept(a.effects, b.effects, scope, kind, name, range);
}

/// An effect that is added is there.
proof fn lemma_added(out: ModuleEffectsView, scope: Seq<char>, eff: EffectView)
    ensures
        has_kind(out.with_effect(scope, eff).effects, scope, eff.kind, eff.name, eff.range),
{
    let after = out.with_effect(scope, eff).effects;
    assert(after[scope].last() == eff);
    assert(has_effect(after, scope, eff));
}

proof fn lemma_noted(at: Seq<ScopeView>, out: ModuleEffectsView, eff: EffectView)
    ensures
        has_kind(noted(at, out, eff).effects, current_scope(at), eff.kind, eff.name, eff.range),
{
    lemma_added(out, current_scope(at), handled(at, eff));
}

proof fn lemma_noted_plain(
    at: Seq<ScopeView>,
    out: ModuleEffectsView,
    kind: EffectKind,
    name: Seq<char>,
    range: TextRange,
)
    ensures
        has_kind(noted_plain(at, out, kind, name, range).effects, current_scope(at), kind, name, range),
{
    lemma_noted(at, out, EffectView::bare(kind, name, range));
}

/// The name of what a `raise` statement raises, as far as it can be told.
pub open spec fn raised_name(exc: Option<Expression>) -> Seq<char> {
    match exc {
        Some(e) => match exception_of(e) {
            Some(name) => name,
            None => "<unknown exception>"@,
        },
        None => "<unknown exception>"@,
    }
}

/// No handler of the `try` statements of its scope that a place is in the body of names an exception,
/// or catches everything.
pub open spec fn uncaught_at(at: Seq<ScopeView>, name: Seq<char>) -> bool {
    forall|k: int, j: int|
        0 <= k < open_tries(at).len() && 0 <= j < open_tries(at)[k].len() ==> (#[trigger] open_tries(at)[k][j]
            matches Some(names) && !names.contains(name))
}

proof fn lemma_all_handlers(tries: Seq<Seq<Option<Seq<Seq<char>>>>>, i: int) -> (at: (int, int))
    requires
        0 <= i < all_handlers(tries).len(),
    ensures
        0 <= at.0 < tries.len(),
        0 <= at.1 < tries[at.0].len(),
        tries[at.0][at.1] == all_handlers(tries)[i],
    decreases tries.len(),
{
    let before = all_handlers(tries.drop_last());
    if i < before.len() {
        lemma_all_handlers(tries.drop_last(), i)
    } else {
        (tries.len() - 1, i - before.len())
    }
}

proof fn lemma_names_among(elts: Seq<Expression>, n: int, exc: Seq<char>)
    requires
        0 <= n <= elts.len(),
    ensures
        names_among(elts, n).contains(exc) <==> exists|i: int|
            0 <= i < n && full_name_of(#[trigger] elts[i]) == Some(exc),
    decreases n,
{
    if n > 0 {
        lemma_names_among(elts, n - 1, exc);
        let before = names_among(elts, n - 1);
        let after = names_among(elts, n);
        if before.contains(exc) {
            assert(after[before.index_of(exc)] == exc);
        }
        if after.contains(exc) && !before.contains(exc) {
            let k = after.index_of(exc);
            assert(k == before.len());
        }
        if full_name_of(elts[n - 1]) == Some(exc) {
            assert(after.last() == exc);
        }
    }
}

/// A handler catches an exception if it names none, or names that one, alone or among others.
pub proof fn handlers_catch_what_they_name(h: Handler, exc: Seq<char>)
    ensures
        handler_catches(caught_by(h), exc) <==> match h.type_ {
            None => true,
            Some(typ) => match typ.node {
                Node::Tuple { elts } => exists|i: int|
                    0 <= i < elts@.len() && full_name_of(#[trigger] elts@[i]) == Some(exc),
                _ => full_name_of(typ) == Some(exc),
            },
        },
{
    match h.type_ {
        None => {},
        Some(typ) => match typ.node {
            Node::Tuple { elts } => lemma_names_among(elts@, elts@.len() as int, exc),
            _ => {
                lemma_names_among(seq![typ], 1, exc);
                assert(seq![typ][0] == typ);
            },
        },
    }
}

/// A `raise` statement that runs and is not caught is an effect of its scope, at any depth of
/// blocks. One that raises again what is being handled counts as caught in the body of a `try`
/// statement.
pub proof fn uncaught_exceptions_are_noted(
    a: &SourceAnalyzer,
    parsed: &ParsedModule,
    inner: Seq<ScopeView>,
    t: Statement,
    exc: Option<Expression>,
)
    requires
        a.is_looked_at(parsed, inner, t),
        !parsed.is_thrift_generated,
        t.node == (StmtNode::Raise { exc }),
        uncaught_at(inner, raised_name(exc)),
        exc is None ==> open_tries(inner).len() == 0,
    ensures
        has_kind(
            source_output(a, parsed).effects,
            current_scope(inner),
            EffectKind::Raise,
            raised_name(exc),
            t.range,
        ),
{
    let before = a.lemma_looked_at(parsed, inner, t);
    let name = raised_name(exc);
    let handlers = all_handlers(open_tries(inner));
    assert(!some_handler_catches(handlers, name)) by {
        if some_handler_catches(handlers, name) {
            let i = choose|i: int| 0 <= i < handlers.len() && handler_catches(#[trigger] handlers[i], name);
            let (k, j) = lemma_all_handlers(open_tries(inner), i);
            assert(open_tries(inner)[k][j] == handlers[i]);
        }
    }
    lemma_noted_plain(inner, before, EffectKind::Raise, name, t.range);
    lemma_kind_kept(
        a.in_stmt(inner, t, before).effects,
        source_output(a, parsed).effects,
        current_scope(inner),
        EffectKind::Raise,
        name,
        t.range,
    );
}

/// A call is written `sys.modules.something(...)`.
pub open spec fn calls_on_sys_modules(a: &SourceAnalyzer, at: Seq<ScopeView>, func: Expression) -> bool {
    match func.node {
        Node::Attribute { value, .. } => a.sys_modules(at, *value),
        _ => false,
    }
}

/// A call is one of `import_module` on the name of a module.
pub open spec fn imports_by_call(a: &SourceAnalyzer, at: Seq<ScopeView>, func: Expression, args: Arguments) -> bool {
    importlib_in(a.defs(), current_scope(at)).imported_by_call(func, args) is Some
}

proof fn lemma_own_kind(
    a: &SourceAnalyzer,
    parsed: &ParsedModule,
    inner: Seq<ScopeView>,
    e: Expression,
    before: ModuleEffectsView,
    scope: Seq<char>,
    kind: EffectKind,
    name: Seq<char>,
    range: TextRange,
)
    requires
        more_effects(a.own_code(source_limit(), inner, e, before).effects, source_output(a, parsed).effects),
        has_kind(a.own_code(source_limit(), inner, e, before).effects, scope, kind, name, range),
    ensures
        has_kind(source_output(a, parsed).effects, scope, kind, name, range),
{
    lemma_kind_kept(
        a.own_code(source_limit(), inner, e, before).effects,
        source_output(a, parsed).effects,
        scope,
        kind,
        name,
        range,
    );
}

/// A call of what a name stands for is an effect of its scope, under the name of what is called,
/// unless that is declared safe. It is a call of an imported function where the name is imported.
pub proof fn calls_of_functions_are_noted(
    a: &SourceAnalyzer,
    parsed: &ParsedModule,
    inner: Seq<ScopeView>,
    e: Expression,
    func: Box<Expression>,
    arguments: Arguments,
    r: ResolvedView,
    name: Seq<char>,
)
    requires
        a.is_evaluated(parsed, inner, e),
        !parsed.is_thrift_generated,
        e.node == (Node::Call { func, arguments }),
        !imports_by_call(a, inner, *func, arguments),
        !calls_on_sys_modules(a, inner, *func),
        a.at(inner, *func) == Some(r),
        r.scope != "builtins"@,
        r.full_name == Some(name),
        !is_declared_safe(a.called_name(r, name)),
        !(func.node is Attribute && (r.definition.style is Annotated || r.definition.style is Unannotated)),
    ensures
        has_kind(
            source_output(a, parsed).effects,
            current_scope(inner),
            if r.is_import() {
                EffectKind::ImportedFunctionCall
            } else {
                EffectKind::FunctionCall
            },
            a.called_name(r, name),
            e.range,
        ),
{
    let before = a.lemma_is_evaluated(parsed, inner, e);
    let passed = a.with_arguments(inner, arguments, before);
    let fname = a.called_name(r, name);
    let kind = if r.is_import() {
        EffectKind::ImportedFunctionCall
    } else {
        EffectKind::FunctionCall
    };
    lemma_noted(
        inner,
        passed.out.with_function(fname),
        EffectView {
            data: SourceAnalyzer::call_data(passed.call),
            ..EffectView::bare(kind, fname, e.range)
        },
    );
    lemma_own_kind(a, parsed, inner, e, before, current_scope(inner), kind, fname, e.range);
}

/// A call of a method of a variable is an effect of its scope, under the name of the method in the
/// class of the variable where that is known, unless the variable is a parameter of unknown class and
/// the method is one of those that are harmless on every object. Where the method may mutate the
/// object, it is also noted that a parameter, or something global, is mutated.
pub proof fn calls_of_methods_are_noted(
    a: &SourceAnalyzer,
    parsed: &ParsedModule,
    inner: Seq<ScopeView>,
    e: Expression,
    func: Box<Expression>,
    arguments: Arguments,
    r: ResolvedView,
    name: Seq<char>,
    attr: Seq<char>,
    class: Option<Seq<char>>,
)
    requires
        a.is_evaluated(parsed, inner, e),
        !parsed.is_thrift_generated,
        e.node == (Node::Call { func, arguments }),
        !imports_by_call(a, inner, *func, arguments),
        !calls_on_sys_modules(a, inner, *func),
        a.at(inner, *func) == Some(r),
        r.scope != "builtins"@,
        r.full_name == Some(name),
        !is_declared_safe(a.called_name(r, name)),
        r.definition.style is Annotated || r.definition.style is Unannotated,
        func.node matches Node::Attribute { attr: written, .. } && written@ == attr,
        class == a.bindings.type_of(r.scope, r.name),
        !(r.is_param() && class is None && a.stubs.safe_builtin_methods@.contains(attr)),
    ensures
        has_kind(
            source_output(a, parsed).effects,
            current_scope(inner),
            EffectKind::MethodCall,
            match class {
                Some(c) => dotted(c, attr),
                None => a.called_name(r, name),
            },
            e.range,
        ),
        r.is_param() && (class matches Some(c) ==> a.stubs.method_may_mutate(c, attr)) ==> has_kind(
            source_output(a, parsed).effects,
            r.scope,
            EffectKind::ParamMethodCall,
            r.name,
            e.range,
        ),
        (r.is_global() || (r.scope == a.module_name@ && current_scope(inner) != a.module_name@)) && (class matches Some(
            c,
        ) && a.stubs.method_may_mutate(c, attr)) ==> has_kind(
            source_output(a, parsed).effects,
            current_scope(inner),
            EffectKind::GlobalVarMutation,
            r.name,
            e.range,
        ),
{
    broadcast use group_grown;

    let before = a.lemma_is_evaluated(parsed, inner, e);
    let passed = a.with_arguments(inner, arguments, before);
    let fname = a.called_name(r, name);
    let known = passed.out.with_function(fname);
    let method = match class {
        Some(c) => dotted(c, attr),
        None => fname,
    };
    let mutating = match class {
        Some(c) => a.stubs.method_may_mutate(c, attr),
        None => true,
    };
    let eff = EffectView {
        data: SourceAnalyzer::call_data(passed.call),
        ..EffectView::bare(EffectKind::MethodCall, method, e.range)
    };
    let called = noted(inner, known, eff);
    lemma_noted(inner, known, eff);
    let traced = match a.method_source(r, attr) {
        Some(source) => called.with_method(method, source),
        None => called,
    };
    assert(grown(called, traced));
    let own = if r.is_param() && mutating {
        param_mutated(r, e.range, traced)
    } else {
        traced
    };
    assert(grown(called, own));
    let all = a.own_code(source_limit(), inner, e, before);
    assert(grown(called, all) && grown(own, all));
    lemma_kind_grown(called, all, current_scope(inner), EffectKind::MethodCall, method, e.range);
    lemma_own_kind(a, parsed, inner, e, before, current_scope(inner), EffectKind::MethodCall, method, e.range);
    if r.is_param() && mutating {
        lemma_added(traced, r.scope, EffectView::bare(EffectKind::ParamMethodCall, r.name, e.range));
        lemma_kind_grown(own, all, r.scope, EffectKind::ParamMethodCall, r.name, e.range);
        lemma_own_kind(a, parsed, inner, e, before, r.scope, EffectKind::ParamMethodCall, r.name, e.range);
    }
    if (r.is_global() || (r.scope == a.module_name@ && current_scope(inner) != a.module_name@)) && class is Some
        && mutating {
        lemma_noted_plain(inner, own, EffectKind::GlobalVarMutation, r.name, e.range);
        lemma_own_kind(
            a,
            parsed,
            inner,
            e,
            before,
            current_scope(inner),
            EffectKind::GlobalVarMutation,
            r.name,
            e.range,
        );
    }
}

/// What is called cannot be told, or is a builtin.
pub open spec fn calls_unresolved(a: &SourceAnalyzer, at: Seq<ScopeView>, func: Expression) -> bool {
    match a.at(at, func) {
        Some(r) => r.scope == "builtins"@,
        None => true,
    }
}

/// A call of which cannot be told what it calls is an effect of its scope: it is unknown where it
/// has no name; `exec` and the builtins that a stub prohibits are what they are; another name is
/// unknown unless it is that of a known builtin.
pub proof fn calls_of_unknown_names_are_noted(
    a: &SourceAnalyzer,
    parsed: &ParsedModule,
    inner: Seq<ScopeView>,
    e: Expression,
    func: Box<Expression>,
    arguments: Arguments,
)
    requires
        a.is_evaluated(parsed, inner, e),
        !parsed.is_thrift_generated,
        e.node == (Node::Call { func, arguments }),
        !imports_by_call(a, inner, *func, arguments),
        !calls_on_sys_modules(a, inner, *func),
        calls_unresolved(a, inner, *func),
    ensures
        match full_name_of(*func) {
            None => has_kind(
                source_output(a, parsed).effects,
                current_scope(inner),
                EffectKind::UnknownFunctionCall,
                unknown_function(*func),
                func.range,
            ),
            Some(name) => {
                &&& name == "exec"@ ==> has_kind(
                    source_output(a, parsed).effects,
                    current_scope(inner),
                    EffectKind::ExecCall,
                    name,
                    func.range,
                )
                &&& name != "exec"@ && name != "eval"@ && name != "getattr"@ && name != "setattr"@ ==> {
                    &&& a.stubs.prohibited_builtins@.contains_key(name) ==> has_kind(
                        source_output(a, parsed).effects,
                        current_scope(inner),
                        a.stubs.prohibited_builtins@[name],
                        name,
                        func.range,
                    )
                    &&& !a.stubs.prohibited_builtins@.contains_key(name) && !a.stubs.known_builtins@.contains(name)
                        ==> has_kind(
                        source_output(a, parsed).effects,
                        current_scope(inner),
                        EffectKind::UnknownFunctionCall,
                        name,
                        func.range,
                    )
                }
            },
        },
{
    let before = a.lemma_is_evaluated(parsed, inner, e);
    let passed = a.with_arguments(inner, arguments, before).out;
    let scope = current_scope(inner);
    match full_name_of(*func) {
        None => {
            let name = unknown_function(*func);
            lemma_noted_plain(inner, passed, EffectKind::UnknownFunctionCall, name, func.range);
            lemma_own_kind(a, parsed, inner, e, before, scope, EffectKind::UnknownFunctionCall, name, func.range);
        },
        Some(name) => {
            reveal_strlit("exec");
            reveal_strlit("eval");
            reveal_strlit("getattr");
            reveal_strlit("setattr");
            assert("exec"@[1] != "eval"@[1]);
            assert("exec"@.len() != "getattr"@.len());
            assert("exec"@.len() != "setattr"@.len());
            let kind = if name == "exec"@ {
                EffectKind::ExecCall
            } else if a.stubs.prohibited_builtins@.contains_key(name) {
                a.stubs.prohibited_builtins@[name]
            } else {
                EffectKind::UnknownFunctionCall
            };
            lemma_noted_plain(inner, passed, kind, name, func.range);
            if name == "exec"@ || (name != "eval"@ && name != "getattr"@ && name != "setattr"@ && (
            a.stubs.prohibited_builtins@.contains_key(name) || !a.stubs.known_builtins@.contains(name))) {
                assert(a.own_code(source_limit(), inner, e, before) == noted_plain(
                    inner,
                    passed,
                    kind,
                    name,
                    func.range,
                ));
                lemma_own_kind(a, parsed, inner, e, before, scope, kind, name, func.range);
            }
        },
    }
}

/// What touches `sys.modules` is an effect of its scope: a call of one of its methods, an item of
/// it, or an assignment to one.
pub proof fn uses_of_sys_modules_are_noted(
    a: &SourceAnalyzer,
    parsed: &ParsedModule,
    inner: Seq<ScopeView>,
    e: Expression,
)
    requires
        a.is_evaluated(parsed, inner, e),
        !parsed.is_thrift_generated,
        match e.node {
            Node::Call { func, arguments } => calls_on_sys_modules(a, inner, *func) && !imports_by_call(
                a,
                inner,
                *func,
                arguments,
            ),
            Node::Subscript { value, .. } => a.sys_modules(inner, *value),
            _ => false,
        },
    ensures
        has_kind(
            source_output(a, parsed).effects,
            current_scope(inner),
            EffectKind::SysModulesAccess,
            "sys.modules"@,
            e.range,
        ),
{
    let before = a.lemma_is_evaluated(parsed, inner, e);
    let out = match e.node {
        Node::Call { arguments, .. } => a.with_arguments(inner, arguments, before).out,
        _ => before,
    };
    lemma_noted_plain(inner, out, EffectKind::SysModulesAccess, "sys.modules"@, e.range);
    lemma_own_kind(
        a,
        parsed,
        inner,
        e,
        before,
        current_scope(inner),
        EffectKind::SysModulesAccess,
        "sys.modules"@,
        e.range,
    );
}

/// To store into an attribute or an item of something imported, or to delete an item of it, is to
/// mutate it, and so an effect of the scope. An item of a parameter that is stored or deleted is an
/// effect of the function whose parameter it is.
pub proof fn stores_are_noted(
    a: &SourceAnalyzer,
    parsed: &ParsedModule,
    inner: Seq<ScopeView>,
    e: Expression,
    obj: Box<Expression>,
    r: ResolvedView,
)
    requires
        a.is_evaluated(parsed, inner, e),
        !parsed.is_thrift_generated,
        a.at(inner, *obj) == Some(r),
        match e.node {
            Node::Attribute { value, ctx, .. } => value == obj && ctx == ExprContext::Store,
            Node::Subscript { value, ctx, .. } => value == obj && ctx != ExprContext::Load && !a.sys_modules(
                inner,
                *value,
            ),
            _ => false,
        },
    ensures
        r.is_import() || (e.node is Subscript && a.import_alias(inner, *obj)) ==> has_kind(
            source_output(a, parsed).effects,
            current_scope(inner),
            EffectKind::ImportedVarMutation,
            r.name,
            obj.range,
        ),
        e.node is Subscript && r.is_param() ==> has_kind(
            source_output(a, parsed).effects,
            r.scope,
            EffectKind::ParamMethodCall,
            r.name,
            obj.range,
        ),
{
    broadcast use group_grown;

    let before = a.lemma_is_evaluated(parsed, inner, e);
    let all = a.own_code(source_limit(), inner, e, before);
    let scope = current_scope(inner);
    let kind = EffectKind::ImportedVarMutation;
    match e.node {
        Node::Attribute { attr, .. } => {
            if r.is_import() {
                let typed = a.typed_attr(inner, r, *obj, attr@, before);
                let full = crate::source_info::qualified_import(
                    r,
                    crate::importlib::import_chain(*obj, Some(attr@), r.name),
                );
                let used = match full {
                    Some(name) => if crate::source_info::imported_name(r) != Some(name) {
                        typed.with_called(name, scope)
                    } else {
                        typed
                    },
                    None => typed,
                };
                lemma_noted_plain(inner, used, kind, r.name, obj.range);
                lemma_own_kind(a, parsed, inner, e, before, scope, kind, r.name, obj.range);
            }
        },
        _ => {
            let mutated = if r.is_import() || a.import_alias(inner, *obj) {
                noted_plain(inner, before, kind, r.name, obj.range)
            } else {
                before
            };
            if r.is_import() || a.import_alias(inner, *obj) {
                lemma_noted_plain(inner, before, kind, r.name, obj.range);
                assert(grown(mutated, all));
                lemma_kind_grown(mutated, all, scope, kind, r.name, obj.range);
                lemma_own_kind(a, parsed, inner, e, before, scope, kind, r.name, obj.range);
            }
            if r.is_param() {
                lemma_added(mutated, r.scope, EffectView::bare(EffectKind::ParamMethodCall, r.name, obj.range));
                lemma_own_kind(
                    a,
                    parsed,
                    inner,
                    e,
                    before,
                    r.scope,
                    EffectKind::ParamMethodCall,
                    r.name,
                    obj.range,
                );
            }
        },
    }
}

/// An attribute of a name that stands for nothing is an effect of the scope.
pub proof fn attributes_of_unknown_objects_are_noted(
    a: &SourceAnalyzer,
    parsed: &ParsedModule,
    inner: Seq<ScopeView>,
    e: Expression,
    obj: Box<Expression>,
    name: Seq<char>,
)
    requires
        a.is_evaluated(parsed, inner, e),
        !parsed.is_thrift_generated,
        e.node matches Node::Attribute { value, .. } && value == obj,
        a.at(inner, *obj) is None,
        full_name_of(*obj) == Some(name),
    ensures
        has_kind(
            source_output(a, parsed).effects,
            current_scope(inner),
            EffectKind::UnknownObject,
            name,
            obj.range,
        ),
{
    let before = a.lemma_is_evaluated(parsed, inner, e);
    lemma_noted_plain(inner, before, EffectKind::UnknownObject, name, obj.range);
    lemma_own_kind(
        a,
        parsed,
        inner,
        e,
        before,
        current_scope(inner),
        EffectKind::UnknownObject,
        name,
        obj.range,
    );
}

/// A property of a variable whose class is known is called where it is read. A class that is imported
/// may have one.
pub proof fn reads_of_properties_are_noted(
    a: &SourceAnalyzer,
    parsed: &ParsedModule,
    inner: Seq<ScopeView>,
    e: Expression,
    obj: Box<Expression>,
    attr: Seq<char>,
    r: ResolvedView,
    class: Seq<char>,
)
    requires
        a.is_evaluated(parsed, inner, e),
        !parsed.is_thrift_generated,
        e.node matches Node::Attribute { value, attr: written, .. } && value == obj && written@ == attr,
        a.at(inner, *obj) == Some(r),
        a.bindings.type_of(r.scope, r.name) == Some(class),
    ensures
        a.classes.deep_view().contains_key(class) && crate::class::field_kind(
            a.classes.deep_view()[class].fields,
            attr,
        ) == Some(crate::class::FieldKind::Property) ==> has_kind(
            source_output(a, parsed).effects,
            current_scope(inner),
            EffectKind::MethodCall,
            r.qualified(dotted(a.classes.deep_view()[class].name, attr)),
            obj.range,
        ),
        !a.classes.deep_view().contains_key(class) && a.exports.deep_view().is_class(class)
            && !crate::module_name::begins_with(class, "builtins."@) ==> has_kind(
            source_output(a, parsed).effects,
            current_scope(inner),
            EffectKind::ImportedTypeAttr,
            dotted(class, attr),
            obj.range,
        ),
{
    broadcast use group_grown;

    let before = a.lemma_is_evaluated(parsed, inner, e);
    let all = a.own_code(source_limit(), inner, e, before);
    let scope = current_scope(inner);
    let typed = a.typed_attr(inner, r, *obj, attr, before);
    assert(grown(typed, all));
    let (kind, name) = if a.classes.deep_view().contains_key(class) {
        (EffectKind::MethodCall, r.qualified(dotted(a.classes.deep_view()[class].name, attr)))
    } else {
        (EffectKind::ImportedTypeAttr, dotted(class, attr))
    };
    lemma_noted_plain(inner, before, kind, name, obj.range);
    if typed == noted_plain(inner, before, kind, name, obj.range) {
        lemma_kind_grown(typed, all, scope, kind, name, obj.range);
        lemma_own_kind(a, parsed, inner, e, before, scope, kind, name, obj.range);
    }
}

proof fn lemma_later_args(
    a: &SourceAnalyzer,
    at: Seq<ScopeView>,
    args: Seq<Expression>,
    s: ArgsView,
    n: int,
    m: int,
)
    requires
        0 <= n <= m,
    ensures
        grown(a.with_args(at, args, s, n).out, a.with_args(at, args, s, m).out),
    decreases m - n,
{
    broadcast use group_grown;

    if n < m {
        lemma_later_args(a, at, args, s, n, m - 1);
    }
}

proof fn lemma_later_keywords(
    a: &SourceAnalyzer,
    at: Seq<ScopeView>,
    keywords: Seq<Keyword>,
    s: ArgsView,
    n: int,
    m: int,
)
    requires
        0 <= n <= m,
    ensures
        grown(a.with_keywords(at, keywords, s, n).out, a.with_keywords(at, keywords, s, m).out),
    decreases m - n,
{
    broadcast use group_grown;

    if n < m {
        lemma_later_keywords(a, at, keywords, s, n, m - 1);
    }
}

/// What is noted with the arguments of a call is kept by the call.
proof fn lemma_call_keeps(
    a: &SourceAnalyzer,
    inner: Seq<ScopeView>,
    e: Expression,
    func: Box<Expression>,
    arguments: Arguments,
    before: ModuleEffectsView,
)
    requires
        e.node == (Node::Call { func, arguments }),
        !imports_by_call(a, inner, *func, arguments),
    ensures
        grown(
            a.with_arguments(inner, arguments, before).out,
            a.own_code(source_limit(), inner, e, before),
        ),
{
    broadcast use group_grown;

    let passed = a.with_arguments(inner, arguments, before);
    let evaluated = a.evaluated(source_limit(), inner, *func, arguments);
    a.lemma_unresolved(
        passed.out,
        inner,
        *func,
        Some(arguments),
        EffectKind::UnknownFunctionCall,
        evaluated,
        passed.out,
    );
    match a.at(inner, *func) {
        Some(r) => match r.full_name {
            Some(name) => a.lemma_named(passed.out, inner, *func, r, name, e.range, passed.call, passed.out),
            None => {},
        },
        None => {},
    }
}

/// An imported variable, or another name for one, that a call passes on, by position, by keyword or
/// as one of several, is an effect of the scope: it may be mutated.
pub proof fn imported_arguments_are_noted(
    a: &SourceAnalyzer,
    parsed: &ParsedModule,
    inner: Seq<ScopeView>,
    e: Expression,
    func: Box<Expression>,
    arguments: Arguments,
    i: int,
    by_keyword: bool,
    r: ResolvedView,
)
    requires
        a.is_evaluated(parsed, inner, e),
        !parsed.is_thrift_generated,
        e.node == (Node::Call { func, arguments }),
        !imports_by_call(a, inner, *func, arguments),
        0 <= i < (if by_keyword {
            arguments.keywords@.len()
        } else {
            arguments.args@.len()
        }),
        a.at(inner, passed_argument(arguments, i, by_keyword)) == Some(r),
        r.is_import() || a.import_alias(inner, passed_argument(arguments, i, by_keyword)),
    ensures
        has_kind(
            source_output(a, parsed).effects,
            current_scope(inner),
            EffectKind::ImportedVarArgument,
            r.name,
            passed_argument(arguments, i, by_keyword).range,
        ),
{
    broadcast use group_grown;

    let before = a.lemma_is_evaluated(parsed, inner, e);
    let arg = passed_argument(arguments, i, by_keyword);
    let kind = EffectKind::ImportedVarArgument;
    let n = arguments.args@.len() as int;
    let m = arguments.keywords@.len() as int;
    let counted = if arguments.args@.len() > 64 {
        noted_plain(inner, before, EffectKind::TooManyArgs, Seq::empty(), arguments.range)
    } else {
        before
    };
    let start = ArgsView { out: counted, call: no_args() };
    let passed = a.with_args(inner, arguments.args@, start, n);
    let all = a.own_code(source_limit(), inner, e, before);
    lemma_call_keeps(a, inner, e, func, arguments, before);
    let whole = a.with_arguments(inner, arguments, before).out;
    assert(whole == a.with_keywords(inner, arguments.keywords@, passed, m).out);
    let mid = if by_keyword {
        lemma_later_keywords(a, inner, arguments.keywords@, passed, i + 1, m);
        let earlier = a.with_keywords(inner, arguments.keywords@, passed, i).out;
        lemma_noted_plain(inner, earlier, kind, r.name, arg.range);
        a.with_keywords(inner, arguments.keywords@, passed, i + 1).out
    } else {
        lemma_later_args(a, inner, arguments.args@, start, i + 1, n);
        let earlier = a.with_args(inner, arguments.args@, start, i).out;
        lemma_noted_plain(inner, earlier, kind, r.name, arg.range);
        let own = a.with_args(inner, arguments.args@, start, i + 1).out;
        a.lemma_keywords(own, inner, arguments.keywords@, passed, m);
        own
    };
    assert(has_kind(mid.effects, current_scope(inner), kind, r.name, arg.range));
    lemma_further(mid, whole, all);
    lemma_kind_grown(mid, all, current_scope(inner), kind, r.name, arg.range);
    lemma_own_kind(a, parsed, inner, e, before, current_scope(inner), kind, r.name, arg.range);
}

/// The argument of a call at a position, or with a keyword, without a star before it.
pub open spec fn passed_argument(arguments: Arguments, i: int, by_keyword: bool) -> Expression {
    if by_keyword {
        arguments.keywords@[i].value
    } else {
        unstarred(arguments.args@[i])
    }
}

/// A call with more than 64 arguments by position is an effect of the scope: not all of them can be
/// kept track of.
pub proof fn calls_with_many_arguments_are_noted(
    a: &SourceAnalyzer,
    parsed: &ParsedModule,
    inner: Seq<ScopeView>,
    e: Expression,
    func: Box<Expression>,
    arguments: Arguments,
)
    requires
        a.is_evaluated(parsed, inner, e),
        !parsed.is_thrift_generated,
        e.node == (Node::Call { func, arguments }),
        !imports_by_call(a, inner, *func, arguments),
        arguments.args@.len() > 64,
    ensures
        has_kind(
            source_output(a, parsed).effects,
            current_scope(inner),
            EffectKind::TooManyArgs,
            Seq::empty(),
            arguments.range,
        ),
{
    broadcast use group_grown;

    let before = a.lemma_is_evaluated(parsed, inner, e);
    let kind = EffectKind::TooManyArgs;
    let counted = noted_plain(inner, before, kind, Seq::empty(), arguments.range);
    lemma_noted_plain(inner, before, kind, Seq::empty(), arguments.range);
    let start = ArgsView { out: counted, call: no_args() };
    a.lemma_args(counted, inner, arguments.args@, start, arguments.args@.len() as int);
    let passed = a.with_args(inner, arguments.args@, start, arguments.args@.len() as int);
    a.lemma_keywords(counted, inner, arguments.keywords@, passed, arguments.keywords@.len() as int);
    let all = a.own_code(source_limit(), inner, e, before);
    lemma_call_keeps(a, inner, e, func, arguments, before);
    lemma_further(counted, a.with_arguments(inner, arguments, before).out, all);
    lemma_kind_grown(counted, all, current_scope(inner), kind, Seq::empty(), arguments.range);
    lemma_own_kind(
        a,
        parsed,
        inner,
        e,
        before,
        current_scope(inner),
        kind,
        Seq::empty(),
        arguments.range,
    );
}

proof fn lemma_later_compared(
    a: &SourceAnalyzer,
    at: Seq<ScopeView>,
    operands: Seq<Expression>,
    range: TextRange,
    out: ModuleEffectsView,
    n: int,
    m: int,
)
    requires
        0 <= n <= m,
    ensures
        grown(a.compared(at, operands, range, out, n), a.compared(at, operands, range, out, m)),
    decreases m - n,
{
    broadcast use group_grown;

    if n < m {
        lemma_later_compared(a, at, operands, range, out, n, m - 1);
    }
}

/// A comparison of something imported, on either side, is an effect of the scope.
pub proof fn comparisons_of_imports_are_noted(
    a: &SourceAnalyzer,
    parsed: &ParsedModule,
    inner: Seq<ScopeView>,
    e: Expression,
    left: Box<Expression>,
    operand: Expression,
    r: ResolvedView,
)
    requires
        a.is_evaluated(parsed, inner, e),
        !parsed.is_thrift_generated,
        e.node matches Node::Compare { left: first, comparators, .. } && first == left && (operand == *left
            || comparators@.contains(operand)),
        a.at(inner, operand) == Some(r),
        r.is_import(),
    ensures
        has_kind(
            source_output(a, parsed).effects,
            current_scope(inner),
            EffectKind::UnknownValueBinaryOp,
            r.name,
            left.range,
        ),
{
    broadcast use group_grown;

    let before = a.lemma_is_evaluated(parsed, inner, e);
    let kind = EffectKind::UnknownValueBinaryOp;
    let all = a.own_code(source_limit(), inner, e, before);
    let scope = current_scope(inner);
    match e.node {
        Node::Compare { comparators, .. } => {
            let n = comparators@.len() as int;
            let first = a.operand_compared(inner, *left, left.range, before);
            if operand == *left {
                lemma_noted_plain(inner, before, kind, r.name, left.range);
                a.lemma_compared(first, inner, comparators@, left.range, first, n);
                lemma_kind_grown(first, all, scope, kind, r.name, left.range);
            } else {
                let k = comparators@.index_of(operand);
                let earlier = a.compared(inner, comparators@, left.range, first, k);
                lemma_noted_plain(inner, earlier, kind, r.name, left.range);
                lemma_later_compared(a, inner, comparators@, left.range, first, k + 1, n);
                let own = a.compared(inner, comparators@, left.range, first, k + 1);
                lemma_kind_grown(own, all, scope, kind, r.name, left.range);
            }
            lemma_own_kind(a, parsed, inner, e, before, scope, kind, r.name, left.range);
        },
        _ => {},
    }
}

/// A statement assigns to an expression, or deletes an item or an attribute that it is. A name that
/// gets a module that a call imports is not among these.
pub open spec fn assigns_to(a: &SourceAnalyzer, at: Seq<ScopeView>, t: Statement, target: Expression) -> bool {
    match t.node {
        StmtNode::Assign { targets, value } => targets@.contains(target) && a.assigned_module(at, target, value) is None,
        StmtNode::AugAssign { target: one, .. } => target == one,
        StmtNode::AnnAssign { target: one, .. } => target == one,
        StmtNode::Delete { targets } => targets@.contains(target) && (target.node is Subscript
            || target.node is Attribute),
        _ => false,
    }
}

proof fn lemma_later_targets(
    a: &SourceAnalyzer,
    at: Seq<ScopeView>,
    targets: Seq<Expression>,
    value: Expression,
    out: ModuleEffectsView,
    n: int,
    m: int,
)
    requires
        0 <= n <= m,
    ensures
        grown(a.in_targets(at, targets, value, out, n), a.in_targets(at, targets, value, out, m)),
    decreases m - n,
{
    broadcast use group_grown;

    if n < m {
        lemma_later_targets(a, at, targets, value, out, n, m - 1);
        let first = a.in_targets(at, targets, value, out, n);
        let before = a.in_targets(at, targets, value, out, m - 1);
        a.lemma_assigned(first, at, targets[m - 1], before);
    }
}

proof fn lemma_later_deletes(
    a: &SourceAnalyzer,
    at: Seq<ScopeView>,
    targets: Seq<Expression>,
    out: ModuleEffectsView,
    n: int,
    m: int,
)
    requires
        0 <= n <= m,
    ensures
        grown(a.in_delete(at, targets, out, n), a.in_delete(at, targets, out, m)),
    decreases m - n,
{
    broadcast use group_grown;

    if n < m {
        lemma_later_deletes(a, at, targets, out, n, m - 1);
        let first = a.in_delete(at, targets, out, n);
        let before = a.in_delete(at, targets, out, m - 1);
        a.lemma_assigned(first, at, targets[m - 1], before);
    }
}

/// What is noted with a target is kept by the statement that assigns to it.
proof fn lemma_target(
    a: &SourceAnalyzer,
    at: Seq<ScopeView>,
    t: Statement,
    out: ModuleEffectsView,
    target: Expression,
) -> (before: ModuleEffectsView)
    requires
        assigns_to(a, at, t, target),
    ensures
        grown(a.assigned_to(at, target, before), a.in_stmt(at, t, out)),
{
    broadcast use group_grown;

    match t.node {
        StmtNode::Assign { targets, value } => {
            let n = targets@.len() as int;
            let i = targets@.index_of(target);
            let before = a.in_targets(at, targets@, value, out, i);
            let own = a.assigned_to(at, target, before);
            lemma_later_targets(a, at, targets@, value, out, i + 1, n);
            let assigned = a.in_targets(at, targets@, value, out, n);
            let named = if current_scope(at) == a.module_name@ && targets@.len() > 0 {
                match targets@[0].node {
                    Node::Name { id } => a.defined_again(at, id@, t.range, assigned),
                    _ => assigned,
                }
            } else {
                assigned
            };
            assert(grown(own, named));
            a.lemma_expr(own, at, value, named);
            before
        },
        StmtNode::AugAssign { value, .. } => {
            let own = a.assigned_to(at, target, out);
            a.lemma_expr(own, at, value, own);
            out
        },
        StmtNode::AnnAssign { value, .. } => {
            let own = a.assigned_to(at, target, out);
            match value {
                Some(value) => a.lemma_expr(own, at, value, own),
                None => {},
            }
            out
        },
        StmtNode::Delete { targets } => {
            let n = targets@.len() as int;
            let i = targets@.index_of(target);
            lemma_later_deletes(a, at, targets@, out, i + 1, n);
            a.in_delete(at, targets@, out, i)
        },
        _ => out,
    }
}

/// To assign to something imported, or to something global, or in an inner scope to something of the
/// module, is an effect of the scope; so is to assign to an item of `sys.modules`.
pub proof fn assignments_are_noted(
    a: &SourceAnalyzer,
    parsed: &ParsedModule,
    inner: Seq<ScopeView>,
    t: Statement,
    target: Expression,
)
    requires
        a.is_looked_at(parsed, inner, t),
        !parsed.is_thrift_generated,
        assigns_to(a, inner, t, target),
    ensures
        (target.node matches Node::Subscript { value, .. } && a.sys_modules(inner, *value)) ==> has_kind(
            source_output(a, parsed).effects,
            current_scope(inner),
            EffectKind::SysModulesAccess,
            "sys.modules"@,
            target.range,
        ),
        !(target.node matches Node::Subscript { value, .. } && a.sys_modules(inner, *value)) ==> match a.at(
            inner,
            target,
        ) {
            Some(r) => {
                &&& r.is_import() ==> has_kind(
                    source_output(a, parsed).effects,
                    current_scope(inner),
                    EffectKind::ImportedVarMutation,
                    r.name,
                    target.range,
                )
                &&& !r.is_import() && r.is_global() ==> has_kind(
                    source_output(a, parsed).effects,
                    current_scope(inner),
                    EffectKind::GlobalVarAssign,
                    r.name,
                    target.range,
                )
                &&& !r.is_import() && !r.is_global() && r.scope == a.module_name@ && r.scope != current_scope(inner)
                    ==> has_kind(
                    source_output(a, parsed).effects,
                    current_scope(inner),
                    EffectKind::GlobalVarMutation,
                    r.name,
                    target.range,
                )
                &&& !r.is_import() && !r.is_global() && !(r.scope == a.module_name@ && r.scope != current_scope(inner))
                    && r.is_param() && target.node is Attribute ==> has_kind(
                    source_output(a, parsed).effects,
                    r.scope,
                    EffectKind::ParamMethodCall,
                    r.name,
                    target.range,
                )
            },
            None => true,
        },
{
    let first = a.lemma_looked_at(parsed, inner, t);
    let before = lemma_target(a, inner, t, first, target);
    let own = a.assigned_to(inner, target, before);
    let all = a.in_stmt(inner, t, first);
    let modules = match target.node {
        Node::Subscript { value, .. } => a.sys_modules(inner, *value),
        _ => false,
    };
    let (scope, kind, name) = if modules {
        (current_scope(inner), EffectKind::SysModulesAccess, "sys.modules"@)
    } else {
        match a.at(inner, target) {
            Some(r) => if r.is_import() {
                (current_scope(inner), EffectKind::ImportedVarMutation, r.name)
            } else if r.is_global() {
                (current_scope(inner), EffectKind::GlobalVarAssign, r.name)
            } else if r.scope == a.module_name@ && r.scope != current_scope(inner) {
                (current_scope(inner), EffectKind::GlobalVarMutation, r.name)
            } else {
                (r.scope, EffectKind::ParamMethodCall, r.name)
            },
            None => (current_scope(inner), EffectKind::Raise, Seq::empty()),
        }
    };
    lemma_noted_plain(inner, before, kind, name, target.range);
    lemma_added(before, scope, EffectView::bare(kind, name, target.range));
    if has_kind(own.effects, scope, kind, name, target.range) {
        lemma_kind_grown(own, all, scope, kind, name, target.range);
        lemma_kind_kept(all.effects, source_output(a, parsed).effects, scope, kind, name, target.range);
    }
}

/// A class with a method that runs when an object is destroyed has an effect.
pub proof fn finalizers_are_noted(
    a: &SourceAnalyzer,
    parsed: &ParsedModule,
    inner: Seq<ScopeView>,
    t: Statement,
    c: ClassDef,
    i: int,
)
    requires
        a.is_looked_at(parsed, inner, t),
        !parsed.is_thrift_generated,
        t.node == StmtNode::ClassDef(c),
        0 <= i < c.body@.len(),
        c.body@[i].node matches StmtNode::FunctionDef(f) && f.name@ == "__del__"@,
    ensures
        has_kind(
            source_output(a, parsed).effects,
            dotted(current_scope(inner), c.name@),
            EffectKind::CustomFinalizer,
            "__del__"@,
            c.body@[i].range,
        ),
{
    broadcast use group_grown;

    let first = a.lemma_looked_at(parsed, inner, t);
    let inside = in_scope(inner, ScopeKind::Class, c.name@);
    let decorated = a.in_decorators(inner, c.decorators@, first, c.decorators@.len() as int);
    let named = a.defined_again(inside, c.name@, t.range, decorated);
    let before = a.in_class_stmts(inside, c.body, named, i);
    let kind = EffectKind::CustomFinalizer;
    let range = c.body@[i].range;
    let method = a.in_method(inside, c.body@[i], before);
    lemma_noted_plain(inside, before, kind, "__del__"@, range);
    a.lemma_stmt(method, inside, c.body@[i], method);
    let all = a.in_stmt(inner, t, first);
    a.lemma_later_class(inside, c.body, named, i + 1, c.body@.len() as int);
    lemma_further(method, a.in_class_stmts(inside, c.body, named, i + 1), all);
    lemma_kind_grown(method, all, current_scope(inside), kind, "__del__"@, range);
    lemma_kind_kept(
        all.effects,
        source_output(a, parsed).effects,
        current_scope(inside),
        kind,
        "__del__"@,
        range,
    );
}

/// The decorators of a function or a class.
pub open spec fn decorators_of(t: Statement) -> Seq<Decorator> {
    match t.node {
        StmtNode::FunctionDef(f) => f.decorators@,
        StmtNode::ClassDef(c) => c.decorators@,
        _ => Seq::empty(),
    }
}

/// What a decorator calls: the expression, or if that is a call, what is called.
pub open spec fn decorator_callee(d: Decorator) -> Expression {
    match d.expression.node {
        Node::Call { func, .. } => *func,
        _ => d.expression,
    }
}

proof fn lemma_later_decorators(
    a: &SourceAnalyzer,
    at: Seq<ScopeView>,
    decorators: Seq<Decorator>,
    out: ModuleEffectsView,
    n: int,
    m: int,
)
    requires
        0 <= n <= m,
    ensures
        grown(a.in_decorators(at, decorators, out, n), a.in_decorators(at, decorators, out, m)),
    decreases m - n,
{
    broadcast use group_grown;

    if n < m {
        lemma_later_decorators(a, at, decorators, out, n, m - 1);
        let first = a.in_decorators(at, decorators, out, n);
        let before = a.in_decorators(at, decorators, out, m - 1);
        let dec = decorators[m - 1];
        match dec.expression.node {
            Node::Call { func, arguments } => {
                let evaluated = a.evaluated(source_limit(), at, *func, arguments);
                a.lemma_decorated(first, at, *func, Some(arguments), dec.range, evaluated, before);
            },
            _ => a.lemma_decorated(first, at, dec.expression, None, dec.range, None, before),
        }
    }
}

/// What is noted with a decorator is kept by the statement that has it.
proof fn lemma_decorator(
    a: &SourceAnalyzer,
    at: Seq<ScopeView>,
    t: Statement,
    out: ModuleEffectsView,
    i: int,
)
    requires
        0 <= i < decorators_of(t).len(),
    ensures
        grown(a.in_decorators(at, decorators_of(t), out, i + 1), a.in_stmt(at, t, out)),
{
    broadcast use group_grown;

    let decorators = decorators_of(t);
    let n = decorators.len() as int;
    lemma_later_decorators(a, at, decorators, out, i + 1, n);
    let own = a.in_decorators(at, decorators, out, i + 1);
    let decorated = a.in_decorators(at, decorators, out, n);
    match t.node {
        StmtNode::ClassDef(c) => {
            let inside = in_scope(at, ScopeKind::Class, c.name@);
            let named = a.defined_again(inside, c.name@, t.range, decorated);
            assert(grown(own, named));
            a.lemma_class_stmts(own, inside, c.body, named, c.body@.len() as int);
        },
        StmtNode::FunctionDef(f) => {
            let inside = in_scope(at, ScopeKind::Function, f.name@);
            let named = if current_scope(at) == a.module_name@ {
                a.defined_again(at, f.name@, t.range, decorated)
            } else {
                decorated
            };
            assert(grown(own, named));
            a.lemma_imports_stmts(own, inside, f.body, named, f.body@.len() as int);
            crate::source_growth::lemma_merged(
                own,
                a.imports_in_stmts(inside, f.body, named, f.body@.len() as int),
                a.in_stmts(inside, f.body, ModuleEffectsView::none(), f.body@.len() as int).effects,
            );
        },
        _ => {},
    }
}

/// A decorator of a function or a class is a call, and an effect of the scope in which the function or
/// class is defined, unless it is declared safe or gives a property more methods. One of which cannot
/// be told what it is is unknown.
pub proof fn decorators_are_noted(
    a: &SourceAnalyzer,
    parsed: &ParsedModule,
    inner: Seq<ScopeView>,
    t: Statement,
    i: int,
    r: ResolvedView,
)
    requires
        a.is_looked_at(parsed, inner, t),
        !parsed.is_thrift_generated,
        0 <= i < decorators_of(t).len(),
        !(decorator_callee(decorators_of(t)[i]).node matches Node::Attribute { attr, .. } && (attr@ == "setter"@
            || attr@ == "getter"@ || attr@ == "deleter"@)),
        a.at(inner, decorator_callee(decorators_of(t)[i])) == Some(r),
    ensures
        match r.full_name {
            Some(name) => !is_declared_safe(a.called_name(r, name)) ==> has_kind(
                source_output(a, parsed).effects,
                current_scope(inner),
                if r.is_import() {
                    EffectKind::ImportedDecoratorCall
                } else {
                    EffectKind::DecoratorCall
                },
                a.called_name(r, name),
                decorators_of(t)[i].range,
            ),
            None => has_kind(
                source_output(a, parsed).effects,
                current_scope(inner),
                EffectKind::UnknownDecoratorCall,
                if decorator_callee(decorators_of(t)[i]).node is Subscript {
                    "<subscript>"@
                } else {
                    "<unknown>"@
                },
                decorators_of(t)[i].range,
            ),
        },
{
    let first = a.lemma_looked_at(parsed, inner, t);
    let decorators = decorators_of(t);
    let before = a.in_decorators(inner, decorators, first, i);
    let own = a.in_decorators(inner, decorators, first, i + 1);
    let all = a.in_stmt(inner, t, first);
    let range = decorators[i].range;
    let func = decorator_callee(decorators[i]);
    lemma_decorator(a, inner, t, first, i);
    match r.full_name {
        Some(name) => {
            let fname = a.called_name(r, name);
            let kind = if r.is_import() {
                EffectKind::ImportedDecoratorCall
            } else {
                EffectKind::DecoratorCall
            };
            if !is_declared_safe(fname) {
                let data = if decorators[i].expression.node is Call {
                    Some(no_args())
                } else {
                    None
                };
                lemma_noted(
                    inner,
                    before.with_function(fname),
                    EffectView { data, ..EffectView::bare(kind, fname, range) },
                );
                lemma_kind_grown(own, all, current_scope(inner), kind, fname, range);
                lemma_kind_kept(
                    all.effects,
                    source_output(a, parsed).effects,
                    current_scope(inner),
                    kind,
                    fname,
                    range,
                );
            }
        },
        None => {
            let kind = EffectKind::UnknownDecoratorCall;
            let name = if func.node is Subscript {
                "<subscript>"@
            } else {
                "<unknown>"@
            };
            lemma_noted_plain(inner, before, kind, name, range);
            lemma_kind_grown(own, all, current_scope(inner), kind, name, range);
            lemma_kind_kept(
                all.effects,
                source_output(a, parsed).effects,
                current_scope(inner),
                kind,
                name,
                range,
            );
        },
    }
}

} // verus!
