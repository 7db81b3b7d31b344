//! What is collected of a source file only grows, whatever is looked at next.

use crate::ast::{
    blocks, children, lemma_blocks_smaller, lemma_children_smaller, Arguments, Branch, ClassDef, Decorator,
    ExprContext, Expression, FunctionDef, Handler, Import, ImportAlias, ImportFrom, Keyword, Node, Parameter,
    Statement, StmtNode, WithItem,
};
use crate::config::test_counts;
use crate::cursor::{current_scope, in_scope, in_try, ScopeKind, ScopeView};
use crate::effects::{merged_effects, CallView, EffectKind, EffectView};
use crate::importlib::literal_text;
use crate::module_effects::ModuleEffectsView;
use crate::module_name::optional_name;
use crate::module_parser::source_limit;
use crate::name_sets::set_at;
use crate::resolve::ResolvedView;
use crate::source_analyzer::all_caught;
use crate::source_calls::{moved, no_args, ArgsView};
use crate::source_imports::{imports_called, imports_pending, module_imported, FromMode};
use crate::source_info::{noted_plain, SourceAnalyzer};
use crate::stub_occurrences::has_effect;
use crate::text_range::TextRange;
use vstd::prelude::*;

verus! {

/// One table has all effects of another.
pub open spec fn more_effects(a: Map<Seq<char>, Seq<EffectView>>, b: Map<Seq<char>, Seq<EffectView>>) -> bool {
    forall|k: Seq<char>, e: EffectView| #[trigger] has_effect(a, k, e) ==> has_effect(b, k, e)
}

/// One map has all names of another.
pub open spec fn more_names(a: Map<Seq<char>, Set<Seq<char>>>, b: Map<Seq<char>, Set<Seq<char>>>) -> bool {
    forall|k: Seq<char>, n: Seq<char>| #[trigger] set_at(a, k).contains(n) ==> set_at(b, k).contains(n)
}

/// What is collected has all that was collected before.
#[verifier::opaque]
pub open spec fn grown(a: ModuleEffectsView, b: ModuleEffectsView) -> bool {
    &&& more_effects(a.effects, b.effects)
    &&& more_names(a.called_imports, b.called_imports)
    &&& more_names(a.pending_imports, b.pending_imports)
    &&& a.all_pending_import_names.subset_of(b.all_pending_import_names)
    &&& a.all_called_import_names.subset_of(b.all_called_import_names)
    &&& a.called_functions.subset_of(b.called_functions)
    &&& a.eager_imports.subset_of(b.eager_imports)
}

pub broadcast proof fn lemma_same(a: ModuleEffectsView)
    ensures
        #[trigger] grown(a, a),
{
    reveal(grown);
}

pub proof fn lemma_further(a: ModuleEffectsView, b: ModuleEffectsView, c: ModuleEffectsView)
    requires
        grown(a, b),
        grown(b, c),
    ensures
        grown(a, c),
{
    reveal(grown);
}

pub broadcast proof fn lemma_effect(a: ModuleEffectsView, b: ModuleEffectsView, scope: Seq<char>, eff: EffectView)
    requires
        grown(a, b),
    ensures
        #[trigger] grown(a, b.with_effect(scope, eff)),
{
    reveal(grown);
    let c = b.with_effect(scope, eff);
    assert forall|k: Seq<char>, e: EffectView| #[trigger] has_effect(a.effects, k, e) implies has_effect(
        c.effects,
        k,
        e,
    ) by {
        assert(has_effect(b.effects, k, e));
        let i = b.effects[k].index_of(e);
        assert(c.effects[k][i] == e);
    }
}

pub broadcast proof fn lemma_pending(a: ModuleEffectsView, b: ModuleEffectsView, import: Seq<char>, scope: Seq<char>)
    requires
        grown(a, b),
    ensures
        #[trigger] grown(a, b.with_pending(import, scope)),
{
    reveal(grown);
}

pub broadcast proof fn lemma_called(a: ModuleEffectsView, b: ModuleEffectsView, import: Seq<char>, scope: Seq<char>)
    requires
        grown(a, b),
    ensures
        #[trigger] grown(a, b.with_called(import, scope)),
{
    reveal(grown);
}

pub broadcast proof fn lemma_function(a: ModuleEffectsView, b: ModuleEffectsView, func: Seq<char>)
    requires
        grown(a, b),
    ensures
        #[trigger] grown(a, b.with_function(func)),
{
    reveal(grown);
}

pub broadcast proof fn lemma_method(a: ModuleEffectsView, b: ModuleEffectsView, name: Seq<char>, source: Seq<char>)
    requires
        grown(a, b),
    ensures
        #[trigger] grown(a, b.with_method(name, source)),
{
    reveal(grown);
}

pub broadcast proof fn lemma_eager(a: ModuleEffectsView, b: ModuleEffectsView, import: Seq<char>)
    requires
        grown(a, b),
    ensures
        #[trigger] grown(a, b.with_eager(import)),
{
    reveal(grown);
}

pub broadcast group group_grown {
    lemma_same,
    lemma_effect,
    lemma_pending,
    lemma_called,
    lemma_function,
    lemma_method,
    lemma_eager,
}

/// The effects of two tables are all in the one that they make.
pub proof fn lemma_merged(
    a: ModuleEffectsView,
    b: ModuleEffectsView,
    effects: Map<Seq<char>, Seq<EffectView>>,
)
    requires
        grown(a, b),
    ensures
        grown(a, (ModuleEffectsView { effects: merged_effects(b.effects, effects), ..b })),
        more_effects(effects, merged_effects(b.effects, effects)),
{
    reveal(grown);
    let m = merged_effects(b.effects, effects);
    assert forall|k: Seq<char>, e: EffectView| #[trigger] has_effect(a.effects, k, e) implies has_effect(m, k, e) by {
        assert(has_effect(b.effects, k, e));
        let i = b.effects[k].index_of(e);
        assert(m[k][i] == e);
    }
    assert forall|k: Seq<char>, e: EffectView| #[trigger] has_effect(effects, k, e) implies has_effect(m, k, e) by {
        let i = effects[k].index_of(e);
        if b.effects.contains_key(k) {
            assert(m[k][b.effects[k].len() + i] == e);
        }
    }
}

impl<'a> SourceAnalyzer<'a> {
    proof fn lemma_attr(
        &self,
        a: ModuleEffectsView,
        at: Seq<ScopeView>,
        obj: Expression,
        attr: Seq<char>,
        store: bool,
        out: ModuleEffectsView,
    )
        requires
            grown(a, out),
        ensures
            grown(a, self.attr_used(at, obj, attr, store, out)),
    {
        broadcast use group_grown;

        match self.at(at, obj) {
            Some(r) => {
                let typed = self.typed_attr(at, r, obj, attr, out);
                assert(grown(a, typed));
                assert(grown(a, self.imported_attr(at, r, obj, attr, store, typed)));
            },
            None => {},
        }
    }

    proof fn lemma_item(
        &self,
        a: ModuleEffectsView,
        at: Seq<ScopeView>,
        obj: Expression,
        ctx: ExprContext,
        range: TextRange,
        out: ModuleEffectsView,
    )
        requires
            grown(a, out),
        ensures
            grown(a, self.item_used(at, obj, ctx, range, out)),
    {
        broadcast use group_grown;

    }

    pub proof fn lemma_assigned(&self, a: ModuleEffectsView, at: Seq<ScopeView>, target: Expression, out: ModuleEffectsView)
        requires
            grown(a, out),
        ensures
            grown(a, self.assigned_to(at, target, out)),
    {
        broadcast use group_grown;

        match target.node {
            Node::Subscript { value, ctx, .. } => self.lemma_item(a, at, *value, ctx, target.range, out),
            _ => {},
        }
    }

    pub proof fn lemma_compared(
        &self,
        a: ModuleEffectsView,
        at: Seq<ScopeView>,
        operands: Seq<Expression>,
        range: TextRange,
        out: ModuleEffectsView,
        n: int,
    )
        requires
            grown(a, out),
        ensures
            grown(a, self.compared(at, operands, range, out, n)),
        decreases n,
    {
        broadcast use group_grown;

        if n > 0 {
            self.lemma_compared(a, at, operands, range, out, n - 1);
        }
    }

    pub proof fn lemma_args(
        &self,
        a: ModuleEffectsView,
        at: Seq<ScopeView>,
        args: Seq<Expression>,
        s: ArgsView,
        n: int,
    )
        requires
            grown(a, s.out),
        ensures
            grown(a, self.with_args(at, args, s, n).out),
        decreases n,
    {
        broadcast use group_grown;

        if n > 0 {
            self.lemma_args(a, at, args, s, n - 1);
        }
    }

    pub proof fn lemma_keywords(
        &self,
        a: ModuleEffectsView,
        at: Seq<ScopeView>,
        keywords: Seq<Keyword>,
        s: ArgsView,
        n: int,
    )
        requires
            grown(a, s.out),
        ensures
            grown(a, self.with_keywords(at, keywords, s, n).out),
        decreases n,
    {
        broadcast use group_grown;

        if n > 0 {
            self.lemma_keywords(a, at, keywords, s, n - 1);
        }
    }

    proof fn lemma_arguments(&self, a: ModuleEffectsView, at: Seq<ScopeView>, args: Arguments, out: ModuleEffectsView)
        requires
            grown(a, out),
        ensures
            grown(a, self.with_arguments(at, args, out).out),
    {
        broadcast use group_grown;

        let counted = if args.args@.len() > 64 {
            noted_plain(
                at,
                out,
                EffectKind::TooManyArgs,
                Seq::empty(),
                args.range,
            )
        } else {
            out
        };
        assert(grown(a, counted));
        let s = ArgsView { out: counted, call: no_args() };
        self.lemma_args(a, at, args.args@, s, args.args@.len() as int);
        let passed = self.with_args(at, args.args@, s, args.args@.len() as int);
        self.lemma_keywords(a, at, args.keywords@, passed, args.keywords@.len() as int);
    }

    pub proof fn lemma_unresolved(
        &self,
        a: ModuleEffectsView,
        at: Seq<ScopeView>,
        func: Expression,
        args: Option<Arguments>,
        unknown: EffectKind,
        evaluated: Option<Map<Seq<char>, Seq<EffectView>>>,
        out: ModuleEffectsView,
    )
        requires
            grown(a, out),
        ensures
            grown(a, self.unresolved_called(at, func, args, unknown, evaluated, out)),
    {
        broadcast use group_grown;

        match args {
            Some(x) => {
                let list = x.args@;
                if list.len() >= 2 {
                    match literal_text(list[1]) {
                        Some(attr) => {
                            self.lemma_attr(a, at, list[0], attr, false, out);
                            self.lemma_attr(a, at, list[0], attr, true, out);
                            self.lemma_assigned(a, at, list[0], self.attr_used(at, list[0], attr, true, out));
                        },
                        None => {
                            let used = noted_plain(
                                at,
                                out,
                                EffectKind::ProhibitedFunctionCall,
                                "setattr"@,
                                list[1].range,
                            );
                            assert(grown(a, used));
                            self.lemma_assigned(a, at, list[0], used);
                        },
                    }
                }
            },
            None => {},
        }
        match evaluated {
            Some(effects) => lemma_merged(a, out, moved(effects, func.range)),
            None => {},
        }
    }

    pub proof fn lemma_named(
        &self,
        a: ModuleEffectsView,
        at: Seq<ScopeView>,
        func: Expression,
        r: ResolvedView,
        name: Seq<char>,
        range: TextRange,
        call: CallView,
        out: ModuleEffectsView,
    )
        requires
            grown(a, out),
        ensures
            grown(a, self.named_called(at, func, r, name, range, call, out)),
    {
        broadcast use group_grown;

    }

    proof fn lemma_call(
        &self,
        a: ModuleEffectsView,
        at: Seq<ScopeView>,
        func: Expression,
        args: Arguments,
        range: TextRange,
        evaluated: Option<Map<Seq<char>, Seq<EffectView>>>,
        out: ModuleEffectsView,
    )
        requires
            grown(a, out),
        ensures
            grown(a, self.called(at, func, args, range, evaluated, out)),
    {
        broadcast use group_grown;

        self.lemma_arguments(a, at, args, out);
        let passed = self.with_arguments(at, args, out);
        self.lemma_unresolved(
            a,
            at,
            func,
            Some(args),
            EffectKind::UnknownFunctionCall,
            evaluated,
            passed.out,
        );
        match self.at(at, func) {
            Some(r) => match r.full_name {
                Some(name) => self.lemma_named(a, at, func, r, name, range, passed.call, passed.out),
                None => {},
            },
            None => {},
        }
    }

    pub proof fn lemma_decorated(
        &self,
        a: ModuleEffectsView,
        at: Seq<ScopeView>,
        func: Expression,
        args: Option<Arguments>,
        range: TextRange,
        evaluated: Option<Map<Seq<char>, Seq<EffectView>>>,
        out: ModuleEffectsView,
    )
        requires
            grown(a, out),
        ensures
            grown(a, self.decorated(at, func, args, range, evaluated, out)),
    {
        broadcast use group_grown;

        self.lemma_unresolved(
            a,
            at,
            func,
            args,
            EffectKind::UnknownDecoratorCall,
            evaluated,
            out,
        );
    }
}

pub proof fn lemma_imports_pending(a: ModuleEffectsView, scope: Seq<char>, x: Import, out: ModuleEffectsView, n: int)
    requires
        grown(a, out),
    ensures
        grown(a, imports_pending(scope, x, out, n)),
    decreases n,
{
    broadcast use group_grown;

    if n > 0 {
        lemma_imports_pending(a, scope, x, out, n - 1);
    }
}

pub proof fn lemma_imports_called(a: ModuleEffectsView, scope: Seq<char>, x: Import, out: ModuleEffectsView, n: int)
    requires
        grown(a, out),
    ensures
        grown(a, imports_called(scope, x, out, n)),
    decreases n,
{
    broadcast use group_grown;

    if n > 0 {
        lemma_imports_called(a, scope, x, out, n - 1);
    }
}

impl<'a> SourceAnalyzer<'a> {
    pub proof fn lemma_subs(
        &self,
        a: ModuleEffectsView,
        mode: FromMode,
        scope: Seq<char>,
        module: Seq<char>,
        names: Seq<Seq<char>>,
        out: ModuleEffectsView,
        n: int,
    )
        requires
            grown(a, out),
        ensures
            grown(a, self.subs_imported(mode, scope, module, names, out, n)),
        decreases n,
    {
        broadcast use group_grown;

        if n > 0 {
            self.lemma_subs(a, mode, scope, module, names, out, n - 1);
        }
    }

    pub proof fn lemma_names(
        &self,
        a: ModuleEffectsView,
        mode: FromMode,
        scope: Seq<char>,
        module: Seq<char>,
        names: Seq<ImportAlias>,
        out: ModuleEffectsView,
        n: int,
    )
        requires
            grown(a, out),
        ensures
            grown(a, self.names_imported(mode, scope, module, names, out, n)),
        decreases n,
    {
        broadcast use group_grown;

        if n > 0 {
            self.lemma_names(a, mode, scope, module, names, out, n - 1);
            let before = self.names_imported(mode, scope, module, names, out, n - 1);
            let all = self.exports.deep_view().all;
            if all.contains_key(module) {
                self.lemma_subs(a, mode, scope, module, all[module], before, all[module].len() as int);
            }
        }
    }

    pub proof fn lemma_from(
        &self,
        a: ModuleEffectsView,
        scope: Seq<char>,
        x: ImportFrom,
        is_called: bool,
        out: ModuleEffectsView,
    )
        requires
            grown(a, out),
        ensures
            grown(a, self.from_imported(scope, x, is_called, out)),
    {
        broadcast use group_grown;

        let mode = FromMode { is_called, is_lazy: x.is_lazy };
        match self.from_target(x) {
            Some(module) => {
                let parent = if module.len() > 0 {
                    module_imported(mode, scope, module, out)
                } else {
                    out
                };
                assert(grown(a, parent));
                self.lemma_names(a, mode, scope, module, x.names@, parent, x.names@.len() as int);
            },
            None => {},
        }
    }

    proof fn lemma_names_defined(
        &self,
        a: ModuleEffectsView,
        at: Seq<ScopeView>,
        names: Seq<Seq<char>>,
        range: TextRange,
        out: ModuleEffectsView,
        n: int,
    )
        requires
            grown(a, out),
        ensures
            grown(a, self.names_defined(at, names, range, out, n)),
        decreases n,
    {
        broadcast use group_grown;

        if n > 0 {
            self.lemma_names_defined(a, at, names, range, out, n - 1);
        }
    }

    pub proof fn lemma_aliases(
        &self,
        a: ModuleEffectsView,
        at: Seq<ScopeView>,
        x: ImportFrom,
        range: TextRange,
        out: ModuleEffectsView,
        n: int,
    )
        requires
            grown(a, out),
        ensures
            grown(a, self.aliases_defined(at, x, range, out, n)),
        decreases n,
    {
        broadcast use group_grown;

        if n > 0 {
            self.lemma_aliases(a, at, x, range, out, n - 1);
            let before = self.aliases_defined(at, x, range, out, n - 1);
            match self.from_target(x) {
                Some(module) => {
                    let all = self.exports.deep_view().all;
                    if all.contains_key(module) {
                        self.lemma_names_defined(a, at, all[module], range, before, all[module].len() as int);
                    }
                },
                None => {},
            }
        }
    }

    pub proof fn lemma_from_stmt(
        &self,
        a: ModuleEffectsView,
        at: Seq<ScopeView>,
        x: ImportFrom,
        range: TextRange,
        out: ModuleEffectsView,
    )
        requires
            grown(a, out),
        ensures
            grown(a, self.from_stmt(at, x, range, out)),
    {
        self.lemma_from(a, current_scope(at), x, false, out);
        self.lemma_aliases(
            a,
            at,
            x,
            range,
            self.from_imported(current_scope(at), x, false, out),
            x.names@.len() as int,
        );
    }

    pub proof fn lemma_defaults(
        &self,
        a: ModuleEffectsView,
        limit: nat,
        at: Seq<ScopeView>,
        params: Vec<Parameter>,
        out: ModuleEffectsView,
        n: int,
    )
        requires
            grown(a, out),
        ensures
            grown(a, self.in_defaults(limit, at, params, out, n)),
        decreases params, 0nat, n,
    {
        if 0 < n <= params@.len() {
            self.lemma_defaults(a, limit, at, params, out, n - 1);
            match params[n - 1].default {
                Some(default) => {
                    self.lemma_code(a, limit, at, default, self.in_defaults(limit, at, params, out, n - 1));
                },
                None => {},
            }
        }
    }

    pub proof fn lemma_children(
        &self,
        a: ModuleEffectsView,
        limit: nat,
        at: Seq<ScopeView>,
        e: Expression,
        out: ModuleEffectsView,
        n: int,
    )
        requires
            grown(a, out),
        ensures
            grown(a, self.in_children(limit, at, e, out, n)),
        decreases e, 0nat, n,
    {
        if 0 < n <= children(e).len() {
            lemma_children_smaller(e, n - 1);
            self.lemma_children(a, limit, at, e, out, n - 1);
            self.lemma_code(a, limit, at, children(e)[n - 1], self.in_children(limit, at, e, out, n - 1));
        }
    }

    /// What is done at an expression itself, before what is inside of it is looked at.
    pub open spec fn own_code(
        &self,
        limit: nat,
        at: Seq<ScopeView>,
        e: Expression,
        out: ModuleEffectsView,
    ) -> ModuleEffectsView {
        match e.node {
            Node::Call { func, arguments } => self.called(
                at,
                *func,
                arguments,
                e.range,
                self.evaluated(limit, at, *func, arguments),
                out,
            ),
            Node::Attribute { value, attr, ctx } => self.attr_used(at, *value, attr@, ctx == ExprContext::Store, out),
            Node::Subscript { value, ctx, .. } => self.item_used(at, *value, ctx, e.range, out),
            Node::Compare { left, comparators, .. } => self.compared(
                at,
                comparators@,
                left.range,
                self.operand_compared(at, *left, left.range, out),
                comparators@.len() as int,
            ),
            Node::Name { id } => self.variable_used(at, e, id@, out),
            _ => out,
        }
    }

    pub proof fn lemma_own_code(
        &self,
        a: ModuleEffectsView,
        limit: nat,
        at: Seq<ScopeView>,
        e: Expression,
        out: ModuleEffectsView,
    )
        requires
            grown(a, out),
        ensures
            grown(a, self.own_code(limit, at, e, out)),
            !(e.node is Lambda) ==> self.in_code(limit, at, e, out) == self.in_children(
                limit,
                at,
                e,
                self.own_code(limit, at, e, out),
                children(e).len() as int,
            ),
    {
        broadcast use group_grown;

        match e.node {
            Node::Call { func, arguments } => {
                let evaluated = self.evaluated(limit, at, *func, arguments);
                self.lemma_call(a, at, *func, arguments, e.range, evaluated, out);
            },
            Node::Attribute { value, attr, ctx } => {
                self.lemma_attr(a, at, *value, attr@, ctx == ExprContext::Store, out);
            },
            Node::Subscript { value, ctx, .. } => {
                self.lemma_item(a, at, *value, ctx, e.range, out);
            },
            Node::Compare { left, comparators, .. } => {
                let first = self.operand_compared(at, *left, left.range, out);
                assert(grown(a, first));
                self.lemma_compared(a, at, comparators@, left.range, first, comparators@.len() as int);
            },
            _ => {},
        }
    }

    pub proof fn lemma_code(
        &self,
        a: ModuleEffectsView,
        limit: nat,
        at: Seq<ScopeView>,
        e: Expression,
        out: ModuleEffectsView,
    )
        requires
            grown(a, out),
        ensures
            grown(a, self.in_code(limit, at, e, out)),
        decreases e, 1nat, 0int,
    {
        match e.node {
            Node::Lambda { parameters, .. } => {
                match parameters {
                    Some(params) => {
                        let first = self.in_defaults(
                            limit,
                            at,
                            params.posonlyargs,
                            out,
                            params.posonlyargs@.len() as int,
                        );
                        self.lemma_defaults(
                            a,
                            limit,
                            at,
                            params.posonlyargs,
                            out,
                            params.posonlyargs@.len() as int,
                        );
                        let second = self.in_defaults(limit, at, params.args, first, params.args@.len() as int);
                        self.lemma_defaults(a, limit, at, params.args, first, params.args@.len() as int);
                        self.lemma_defaults(a, limit, at, params.kwonlyargs, second, params.kwonlyargs@.len() as int);
                    },
                    None => {},
                }
            },
            _ => {
                self.lemma_own_code(a, limit, at, e, out);
                self.lemma_children(
                    a,
                    limit,
                    at,
                    e,
                    self.own_code(limit, at, e, out),
                    children(e).len() as int,
                );
            },
        }
    }

    pub proof fn lemma_expr(&self, a: ModuleEffectsView, at: Seq<ScopeView>, e: Expression, out: ModuleEffectsView)
        requires
            grown(a, out),
        ensures
            grown(a, self.in_expr(at, e, out)),
    {
        self.lemma_code(a, source_limit(), at, e, out);
    }

    pub proof fn lemma_decorators(
        &self,
        a: ModuleEffectsView,
        at: Seq<ScopeView>,
        decorators: Seq<Decorator>,
        out: ModuleEffectsView,
        n: int,
    )
        requires
            grown(a, out),
        ensures
            grown(a, self.in_decorators(at, decorators, out, n)),
        decreases n,
    {
        if n > 0 {
            self.lemma_decorators(a, at, decorators, out, n - 1);
            let before = self.in_decorators(at, decorators, out, n - 1);
            let dec = decorators[n - 1];
            match dec.expression.node {
                Node::Call { func, arguments } => {
                    let evaluated = self.evaluated(source_limit(), at, *func, arguments);
                    self.lemma_decorated(a, at, *func, Some(arguments), dec.range, evaluated, before);
                },
                _ => self.lemma_decorated(a, at, dec.expression, None, dec.range, None, before),
            }
        }
    }

    pub proof fn lemma_targets(
        &self,
        a: ModuleEffectsView,
        at: Seq<ScopeView>,
        targets: Seq<Expression>,
        value: Expression,
        out: ModuleEffectsView,
        n: int,
    )
        requires
            grown(a, out),
        ensures
            grown(a, self.in_targets(at, targets, value, out, n)),
        decreases n,
    {
        broadcast use group_grown;

        if n > 0 {
            self.lemma_targets(a, at, targets, value, out, n - 1);
            self.lemma_assigned(a, at, targets[n - 1], self.in_targets(at, targets, value, out, n - 1));
        }
    }

    pub proof fn lemma_delete(
        &self,
        a: ModuleEffectsView,
        at: Seq<ScopeView>,
        targets: Seq<Expression>,
        out: ModuleEffectsView,
        n: int,
    )
        requires
            grown(a, out),
        ensures
            grown(a, self.in_delete(at, targets, out, n)),
        decreases n,
    {
        if n > 0 {
            self.lemma_delete(a, at, targets, out, n - 1);
            self.lemma_assigned(a, at, targets[n - 1], self.in_delete(at, targets, out, n - 1));
        }
    }

    pub proof fn lemma_items(
        &self,
        a: ModuleEffectsView,
        at: Seq<ScopeView>,
        items: Seq<WithItem>,
        out: ModuleEffectsView,
        n: int,
    )
        requires
            grown(a, out),
        ensures
            grown(a, self.in_items(at, items, out, n)),
        decreases n,
    {
        if n > 0 {
            self.lemma_items(a, at, items, out, n - 1);
            self.lemma_expr(a, at, items[n - 1].context_expr, self.in_items(at, items, out, n - 1));
        }
    }

    pub proof fn lemma_imports_stmts(
        &self,
        a: ModuleEffectsView,
        at: Seq<ScopeView>,
        stmts: Vec<Statement>,
        out: ModuleEffectsView,
        n: int,
    )
        requires
            grown(a, out),
        ensures
            grown(a, self.imports_in_stmts(at, stmts, out, n)),
        decreases stmts, 2nat, n,
    {
        if 0 < n <= stmts@.len() {
            self.lemma_imports_stmts(a, at, stmts, out, n - 1);
            self.lemma_imports_stmt(a, at, stmts[n - 1], self.imports_in_stmts(at, stmts, out, n - 1));
        }
    }

    pub proof fn lemma_imports_blocks(
        &self,
        a: ModuleEffectsView,
        at: Seq<ScopeView>,
        s: Statement,
        out: ModuleEffectsView,
        n: int,
    )
        requires
            grown(a, out),
        ensures
            grown(a, self.imports_in_blocks(at, s, out, n)),
        decreases s, 0nat, n,
    {
        if 0 < n <= blocks(s).len() {
            lemma_blocks_smaller(s, n - 1);
            self.lemma_imports_blocks(a, at, s, out, n - 1);
            self.lemma_imports_stmts(
                a,
                at,
                blocks(s)[n - 1],
                self.imports_in_blocks(at, s, out, n - 1),
                blocks(s)[n - 1]@.len() as int,
            );
        }
    }

    /// What is collected of the imports of a function at a statement itself, before what is inside
    /// of it is looked at.
    pub open spec fn own_imports(&self, at: Seq<ScopeView>, s: Statement, out: ModuleEffectsView) -> ModuleEffectsView {
        match s.node {
            StmtNode::Import(x) => imports_pending(current_scope(at), x, out, x.names@.len() as int),
            StmtNode::ImportFrom(x) => self.from_stmt(at, x, s.range, out),
            StmtNode::Expr { value, .. } => self.attr_in_function(at, value, out),
            StmtNode::Assign { value, .. } => self.attr_in_function(at, value, out),
            _ => out,
        }
    }

    pub proof fn lemma_own_imports(
        &self,
        a: ModuleEffectsView,
        at: Seq<ScopeView>,
        s: Statement,
        out: ModuleEffectsView,
    )
        requires
            grown(a, out),
        ensures
            grown(a, self.own_imports(at, s, out)),
            self.imports_in_stmt(at, s, out) == self.imports_in_blocks(
                at,
                s,
                self.own_imports(at, s, out),
                blocks(s).len() as int,
            ),
    {
        broadcast use group_grown;

        match s.node {
            StmtNode::Import(x) => {
                lemma_imports_pending(a, current_scope(at), x, out, x.names@.len() as int);
            },
            StmtNode::ImportFrom(x) => self.lemma_from_stmt(a, at, x, s.range, out),
            _ => {},
        }
    }

    pub proof fn lemma_imports_stmt(
        &self,
        a: ModuleEffectsView,
        at: Seq<ScopeView>,
        s: Statement,
        out: ModuleEffectsView,
    )
        requires
            grown(a, out),
        ensures
            grown(a, self.imports_in_stmt(at, s, out)),
        decreases s, 1nat, 0int,
    {
        self.lemma_own_imports(a, at, s, out);
        self.lemma_imports_blocks(a, at, s, self.own_imports(at, s, out), blocks(s).len() as int);
    }

    pub proof fn lemma_stmts(
        &self,
        a: ModuleEffectsView,
        at: Seq<ScopeView>,
        stmts: Vec<Statement>,
        out: ModuleEffectsView,
        n: int,
    )
        requires
            grown(a, out),
        ensures
            grown(a, self.in_stmts(at, stmts, out, n)),
        decreases stmts, 2nat, n,
    {
        if 0 < n <= stmts@.len() {
            self.lemma_stmts(a, at, stmts, out, n - 1);
            self.lemma_stmt(a, at, stmts[n - 1], self.in_stmts(at, stmts, out, n - 1));
        }
    }

    pub proof fn lemma_import_called(
        &self,
        a: ModuleEffectsView,
        at: Seq<ScopeView>,
        s: Statement,
        out: ModuleEffectsView,
    )
        requires
            grown(a, out),
        ensures
            grown(a, self.import_called(at, s, out)),
    {
        match s.node {
            StmtNode::Import(x) => {
                let n = x.names@.len() as int;
                lemma_imports_called(a, current_scope(at), x, out, n);
                lemma_imports_pending(a, current_scope(at), x, imports_called(current_scope(at), x, out, n), n);
            },
            StmtNode::ImportFrom(x) => {
                self.lemma_from_stmt(a, at, x, s.range, out);
                self.lemma_from(a, current_scope(at), x, true, self.from_stmt(at, x, s.range, out));
            },
            _ => {},
        }
    }

    pub proof fn lemma_eager_stmts(
        &self,
        a: ModuleEffectsView,
        at: Seq<ScopeView>,
        stmts: Vec<Statement>,
        out: ModuleEffectsView,
        n: int,
    )
        requires
            grown(a, out),
        ensures
            grown(a, self.in_eager_stmts(at, stmts, out, n)),
        decreases stmts, 2nat, n,
    {
        if 0 < n <= stmts@.len() {
            self.lemma_eager_stmts(a, at, stmts, out, n - 1);
            let before = self.in_eager_stmts(at, stmts, out, n - 1);
            self.lemma_import_called(a, at, stmts[n - 1], before);
            self.lemma_stmt(a, at, stmts[n - 1], self.import_called(at, stmts[n - 1], before));
        }
    }

    pub proof fn lemma_class_stmts(
        &self,
        a: ModuleEffectsView,
        at: Seq<ScopeView>,
        stmts: Vec<Statement>,
        out: ModuleEffectsView,
        n: int,
    )
        requires
            grown(a, out),
        ensures
            grown(a, self.in_class_stmts(at, stmts, out, n)),
        decreases stmts, 2nat, n,
    {
        broadcast use group_grown;

        if 0 < n <= stmts@.len() {
            self.lemma_class_stmts(a, at, stmts, out, n - 1);
            let before = self.in_class_stmts(at, stmts, out, n - 1);
            assert(grown(a, self.in_method(at, stmts[n - 1], before)));
            self.lemma_stmt(a, at, stmts[n - 1], self.in_method(at, stmts[n - 1], before));
        }
    }

    pub proof fn lemma_branches(
        &self,
        a: ModuleEffectsView,
        at: Seq<ScopeView>,
        branches: Vec<Branch>,
        out: ModuleEffectsView,
        n: int,
    )
        requires
            grown(a, out),
        ensures
            grown(a, self.in_branches(at, branches, out, n)),
        decreases branches, 0nat, n,
    {
        if 0 < n <= branches@.len() {
            self.lemma_branches(a, at, branches, out, n - 1);
            let before = self.in_branches(at, branches, out, n - 1);
            let b = branches[n - 1];
            self.lemma_tested(a, at, b, before);
            self.lemma_stmts(a, at, b.body, self.tested(at, b, before), b.body@.len() as int);
        }
    }

    /// What is collected, with the test of a branch, where it is looked at.
    pub open spec fn tested(&self, at: Seq<ScopeView>, b: Branch, out: ModuleEffectsView) -> ModuleEffectsView {
        match b.test {
            Some(test) => if test_counts(self.config.sys_info, optional_name(self.config.main_module), b) {
                self.in_expr(at, test, out)
            } else {
                out
            },
            None => out,
        }
    }

    pub proof fn lemma_tested(&self, a: ModuleEffectsView, at: Seq<ScopeView>, b: Branch, out: ModuleEffectsView)
        requires
            grown(a, out),
        ensures
            grown(a, self.tested(at, b, out)),
    {
        match b.test {
            Some(test) => self.lemma_expr(a, at, test, out),
            None => {},
        }
    }

    pub proof fn lemma_handlers(
        &self,
        a: ModuleEffectsView,
        at: Seq<ScopeView>,
        handlers: Vec<Handler>,
        out: ModuleEffectsView,
        n: int,
    )
        requires
            grown(a, out),
        ensures
            grown(a, self.in_handlers(at, handlers, out, n)),
        decreases handlers, 0nat, n,
    {
        if 0 < n <= handlers@.len() {
            self.lemma_handlers(a, at, handlers, out, n - 1);
            self.lemma_stmts(
                a,
                at,
                handlers[n - 1].body,
                self.in_handlers(at, handlers, out, n - 1),
                handlers[n - 1].body@.len() as int,
            );
        }
    }

    pub proof fn lemma_blocks(
        &self,
        a: ModuleEffectsView,
        at: Seq<ScopeView>,
        s: Statement,
        out: ModuleEffectsView,
        n: int,
    )
        requires
            grown(a, out),
        ensures
            grown(a, self.in_blocks(at, s, out, n)),
        decreases s, 0nat, n,
    {
        if 0 < n <= blocks(s).len() {
            lemma_blocks_smaller(s, n - 1);
            self.lemma_blocks(a, at, s, out, n - 1);
            self.lemma_stmts(
                a,
                at,
                blocks(s)[n - 1],
                self.in_blocks(at, s, out, n - 1),
                blocks(s)[n - 1]@.len() as int,
            );
        }
    }

    pub proof fn lemma_stmt(&self, a: ModuleEffectsView, at: Seq<ScopeView>, s: Statement, out: ModuleEffectsView)
        requires
            grown(a, out),
        ensures
            grown(a, self.in_stmt(at, s, out)),
        decreases s, 1nat, 0int,
    {
        broadcast use group_grown;

        match s.node {
            StmtNode::Assign { targets, value } => {
                let n = targets@.len() as int;
                self.lemma_targets(a, at, targets@, value, out, n);
                let assigned = self.in_targets(at, targets@, value, out, n);
                let named = if current_scope(at) == self.module_name@ && targets@.len() > 0 {
                    match targets@[0].node {
                        Node::Name { id } => self.defined_again(at, id@, s.range, assigned),
                        _ => assigned,
                    }
                } else {
                    assigned
                };
                assert(grown(a, named));
                self.lemma_expr(a, at, value, named);
            },
            StmtNode::AnnAssign { target, value, .. } => {
                self.lemma_assigned(a, at, target, out);
                match value {
                    Some(value) => self.lemma_expr(a, at, value, self.assigned_to(at, target, out)),
                    None => {},
                }
            },
            StmtNode::AugAssign { target, value } => {
                self.lemma_assigned(a, at, target, out);
                self.lemma_expr(a, at, value, self.assigned_to(at, target, out));
            },
            StmtNode::Delete { targets } => self.lemma_delete(a, at, targets@, out, targets@.len() as int),
            StmtNode::Expr { value, .. } => self.lemma_expr(a, at, value, out),
            StmtNode::ClassDef(c) => {
                let inside = in_scope(at, ScopeKind::Class, c.name@);
                let n = c.decorators@.len() as int;
                self.lemma_decorators(a, at, c.decorators@, out, n);
                let decorated = self.in_decorators(at, c.decorators@, out, n);
                let named = self.defined_again(inside, c.name@, s.range, decorated);
                assert(grown(a, named));
                self.lemma_class_stmts(a, inside, c.body, named, c.body@.len() as int);
            },
            StmtNode::FunctionDef(f) => {
                let inside = in_scope(at, ScopeKind::Function, f.name@);
                let n = f.body@.len() as int;
                self.lemma_decorators(a, at, f.decorators@, out, f.decorators@.len() as int);
                let decorated = self.in_decorators(at, f.decorators@, out, f.decorators@.len() as int);
                let named = if current_scope(at) == self.module_name@ {
                    self.defined_again(at, f.name@, s.range, decorated)
                } else {
                    decorated
                };
                assert(grown(a, named));
                self.lemma_imports_stmts(a, inside, f.body, named, n);
                let imported = self.imports_in_stmts(inside, f.body, named, n);
                lemma_merged(
                    a,
                    imported,
                    self.in_stmts(inside, f.body, ModuleEffectsView::none(), n).effects,
                );
            },
            StmtNode::Raise { .. } => {},
            StmtNode::Try { body, handlers, orelse, finalbody } => {
                let inside = in_try(at, all_caught(handlers@));
                self.lemma_eager_stmts(a, inside, body, out, body@.len() as int);
                let tried = self.in_eager_stmts(inside, body, out, body@.len() as int);
                self.lemma_handlers(a, at, handlers, tried, handlers@.len() as int);
                let caught = self.in_handlers(at, handlers, tried, handlers@.len() as int);
                self.lemma_stmts(a, at, orelse, caught, orelse@.len() as int);
                let done = self.in_stmts(at, orelse, caught, orelse@.len() as int);
                self.lemma_stmts(a, at, finalbody, done, finalbody@.len() as int);
            },
            StmtNode::If { branches } => self.lemma_branches(a, at, branches, out, branches@.len() as int),
            StmtNode::For { target, iter, .. } => {
                self.lemma_expr(a, at, target, out);
                self.lemma_expr(a, at, iter, self.in_expr(at, target, out));
                let first = self.in_expr(at, iter, self.in_expr(at, target, out));
                self.lemma_blocks(a, at, s, first, blocks(s).len() as int);
            },
            StmtNode::While { test, .. } => {
                self.lemma_expr(a, at, test, out);
                self.lemma_blocks(a, at, s, self.in_expr(at, test, out), blocks(s).len() as int);
            },
            StmtNode::With { items, body } => {
                self.lemma_items(a, at, items@, out, items@.len() as int);
                let first = self.in_items(at, items@, out, items@.len() as int);
                self.lemma_eager_stmts(a, at, body, first, body@.len() as int);
            },
            StmtNode::Match { subject, .. } => {
                self.lemma_expr(a, at, subject, out);
                self.lemma_blocks(a, at, s, self.in_expr(at, subject, out), blocks(s).len() as int);
            },
            StmtNode::Import(x) => {
                lemma_imports_pending(a, current_scope(at), x, out, x.names@.len() as int);
            },
            StmtNode::ImportFrom(x) => self.lemma_from_stmt(a, at, x, s.range, out),
            _ => {},
        }
    }
}

} // verus!
