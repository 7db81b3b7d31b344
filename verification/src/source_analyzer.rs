//! The analysis of source files: what the statements of a module do.

use crate::analyzer::AnalyzedModule;
use crate::ast::{
    block_refs, blocks, children, expr_refs, full_name_of, lemma_blocks_smaller, lemma_children_smaller, Arguments,
    Branch, ClassDef, Decorator, Expression, ExprContext, FunctionDef, Handler, Node, Parameter, Parameters,
    ParsedModule, Statement, StmtNode, WithItem,
};
use crate::bindings::Context;
use crate::bindings_table::BindingsTable;
use crate::config::{counts, test_counts, AnalysisConfig};
use crate::cursor::{
    all_handlers, current_scope, in_module, in_scope, in_try, open_tries, some_handler_catches, Cursor, ScopeKind,
    ScopeView, TryHandler,
};
use crate::effects::{merged_effects, EffectKind, EffectTable, EffectView};
use crate::exports::Exports;
use crate::importlib::{as_literal, literal_text};
use crate::imports::ImportGraph;
use crate::module_effects::{ModuleEffects, ModuleEffectsView};
use crate::module_info::{build_definitions_and_classes, module_tables, tables_view};
use crate::module_name::{optional_name, str_eq, texts, ModuleName};
use crate::module_parser::{evaluated_expression, parse_expression, size, source_limit, text_size};
use crate::name_set::NameSet;
use crate::name_sets::{add_names, set_at};
use crate::source_imports::{add_called_import, add_pending_import, imports_called, imports_pending};
use crate::source_calls::table_view;
use crate::source_info::{add_plain, noted_plain, SourceAnalyzer, Stubs};
use crate::text_range::TextRange;
use vstd::prelude::*;

verus! {

impl<'a> SourceAnalyzer<'a> {
    /// What is collected, with the defaults of the first `n` of some parameters.
    pub open spec fn in_defaults(
        &self,
        limit: nat,
        at: Seq<ScopeView>,
        params: Vec<Parameter>,
        out: ModuleEffectsView,
        n: int,
    ) -> ModuleEffectsView
        decreases limit, params, 0nat, n,
    {
        if n <= 0 || n > params@.len() {
            out
        } else {
            let before = self.in_defaults(limit, at, params, out, n - 1);
            match params[n - 1].default {
                Some(default) => self.in_code(limit, at, default, before),
                None => before,
            }
        }
    }

    /// What is collected, with the parameters of a `lambda`. Their defaults are looked at; its body
    /// is not, since it cannot be told when it runs.
    pub open spec fn in_lambda(
        &self,
        limit: nat,
        at: Seq<ScopeView>,
        params: Parameters,
        out: ModuleEffectsView,
    ) -> ModuleEffectsView
        decreases limit, params, 1nat, 0int,
    {
        let first = self.in_defaults(limit, at, params.posonlyargs, out, params.posonlyargs@.len() as int);
        let second = self.in_defaults(limit, at, params.args, first, params.args@.len() as int);
        self.in_defaults(limit, at, params.kwonlyargs, second, params.kwonlyargs@.len() as int)
    }

    /// The effects of the code that is the first argument of a call of `eval`, where it can be told
    /// what it does: it is the text of an expression, and shorter than the limit. The limit ends the
    /// evaluation of text within text; it does not cut any off, since a string in a source text is
    /// shorter than that text.
    pub open spec fn evaluated(&self, limit: nat, at: Seq<ScopeView>, func: Expression, args: Arguments) -> Option<
        Map<Seq<char>, Seq<EffectView>>,
    >
        decreases limit, args, 1nat, 0int,
    {
        if full_name_of(func) != Some("eval"@) || args.args@.len() == 0 {
            None
        } else {
            match literal_text(args.args@[0]) {
                Some(text) => if size(text) < limit {
                    match evaluated_expression(text) {
                        Some(e) => Some(self.in_code(size(text), at, e, ModuleEffectsView::none()).effects),
                        None => None,
                    }
                } else {
                    None
                },
                None => None,
            }
        }
    }

    /// What is collected, with the first `n` expressions inside of an expression.
    pub open spec fn in_children(
        &self,
        limit: nat,
        at: Seq<ScopeView>,
        e: Expression,
        out: ModuleEffectsView,
        n: int,
    ) -> ModuleEffectsView
        decreases limit, e, 0nat, n,
    {
        if n <= 0 || n > children(e).len() {
            out
        } else {
            proof {
                lemma_children_smaller(e, n - 1);
            }
            self.in_code(limit, at, children(e)[n - 1], self.in_children(limit, at, e, out, n - 1))
        }
    }

    /// What is collected, with an expression.
    pub open spec fn in_code(
        &self,
        limit: nat,
        at: Seq<ScopeView>,
        e: Expression,
        out: ModuleEffectsView,
    ) -> ModuleEffectsView
        decreases limit, e, 1nat, 0int,
    {
        match e.node {
            Node::Lambda { parameters, .. } => match parameters {
                Some(params) => self.in_lambda(limit, at, *params, out),
                None => out,
            },
            Node::Call { func, arguments } => self.in_children(
                limit,
                at,
                e,
                self.called(at, *func, arguments, e.range, self.evaluated(limit, at, *func, arguments), out),
                children(e).len() as int,
            ),
            Node::Attribute { value, attr, ctx } => self.in_children(
                limit,
                at,
                e,
                self.attr_used(at, *value, attr@, ctx == ExprContext::Store, out),
                children(e).len() as int,
            ),
            Node::Subscript { value, ctx, .. } => self.in_children(
                limit,
                at,
                e,
                self.item_used(at, *value, ctx, e.range, out),
                children(e).len() as int,
            ),
            Node::Compare { left, comparators, .. } => self.in_children(
                limit,
                at,
                e,
                self.compared(
                    at,
                    comparators@,
                    left.range,
                    self.operand_compared(at, *left, left.range, out),
                    comparators@.len() as int,
                ),
                children(e).len() as int,
            ),
            Node::Name { id } => self.variable_used(at, e, id@, out),
            _ => self.in_children(limit, at, e, out, children(e).len() as int),
        }
    }

    fn check_defaults(&self, limit: u64, cursor: &Cursor, params: &Vec<Parameter>, output: &mut ModuleEffects)
        requires
            limit <= source_limit(),
        ensures
            final(output).deep_view() == self.in_defaults(
                limit as nat,
                cursor@,
                *params,
                old(output).deep_view(),
                params@.len() as int,
            ),
        decreases limit, params, 0nat,
    {
        let ghost first = output.deep_view();
        for i in 0..params.len()
            invariant
                limit <= source_limit(),
                output.deep_view() == self.in_defaults(limit as nat, cursor@, *params, first, i as int),
        {
            if let Some(default) = &params[i].default {
                self.code(limit, cursor, default, output);
            }
        }
    }

    fn check_lambda(&self, limit: u64, cursor: &Cursor, params: &Parameters, output: &mut ModuleEffects)
        requires
            limit <= source_limit(),
        ensures
            final(output).deep_view() == self.in_lambda(limit as nat, cursor@, *params, old(output).deep_view()),
        decreases limit, params, 1nat,
    {
        self.check_defaults(limit, cursor, &params.posonlyargs, output);
        self.check_defaults(limit, cursor, &params.args, output);
        self.check_defaults(limit, cursor, &params.kwonlyargs, output);
    }

    fn evaluate(&self, limit: u64, cursor: &Cursor, func: &Expression, args: &Arguments) -> (res: Option<EffectTable>)
        requires
            limit <= source_limit(),
        ensures
            table_view(res) == self.evaluated(limit as nat, cursor@, *func, *args),
        decreases limit, args, 1nat,
    {
        let is_eval = match func.full_name() {
            Some(name) => str_eq(name.as_str(), "eval"),
            None => false,
        };
        if !is_eval || args.args.len() == 0 {
            return None;
        }
        let text = match as_literal(&args.args[0]) {
            Some(text) => text,
            None => {
                return None;
            },
        };
        let length = text_size(text);
        if length >= limit {
            return None;
        }
        match parse_expression(text) {
            Some(e) => {
                let mut out = ModuleEffects::new();
                self.code(length, cursor, &e, &mut out);
                Some(out.effects)
            },
            None => None,
        }
    }

    fn code(&self, limit: u64, cursor: &Cursor, e: &Expression, output: &mut ModuleEffects)
        requires
            limit <= source_limit(),
        ensures
            final(output).deep_view() == self.in_code(limit as nat, cursor@, *e, old(output).deep_view()),
        decreases limit, e, 1nat,
    {
        match &e.node {
            Node::Lambda { parameters, .. } => {
                if let Some(params) = parameters {
                    self.check_lambda(limit, cursor, params, output);
                }
                return;
            },
            Node::Call { func, arguments } => {
                let evaluated = self.evaluate(limit, cursor, func, arguments);
                self.check_call(cursor, func, arguments, e.range, evaluated, output);
            },
            Node::Attribute { value, attr, ctx } => {
                self.check_attr_impl(cursor, value, attr.as_str(), *ctx == ExprContext::Store, output);
            },
            Node::Subscript { value, ctx, .. } => {
                self.check_subscript(cursor, value, *ctx, e.range, output);
            },
            Node::Compare { left, comparators, .. } => {
                self.check_compare(cursor, left, comparators, output);
            },
            Node::Name { id } => {
                self.check_name(cursor, e, id.as_str(), output);
            },
            _ => {},
        }
        let inner = e.children();
        let ghost first = output.deep_view();
        for k in 0..inner.len()
            invariant
                limit <= source_limit(),
                expr_refs(inner@) == children(*e),
                output.deep_view() == self.in_children(limit as nat, cursor@, *e, first, k as int),
        {
            proof {
                lemma_children_smaller(*e, k as int);
                assert(expr_refs(inner@)[k as int] == *inner@[k as int]);
            }
            self.code(limit, cursor, inner[k], output);
        }
    }

    /// What is collected, with an expression of a source file.
    pub open spec fn in_expr(&self, at: Seq<ScopeView>, e: Expression, out: ModuleEffectsView) -> ModuleEffectsView {
        self.in_code(source_limit(), at, e, out)
    }

    /// Notes what an expression does.
    pub fn expr(&self, cursor: &Cursor, e: &Expression, output: &mut ModuleEffects)
        ensures
            final(output).deep_view() == self.in_expr(cursor@, *e, old(output).deep_view()),
    {
        self.code(4294967296, cursor, e, output);
    }

    /// What is collected, with the first `n` of some decorators.
    pub open spec fn in_decorators(
        &self,
        at: Seq<ScopeView>,
        decorators: Seq<Decorator>,
        out: ModuleEffectsView,
        n: int,
    ) -> ModuleEffectsView
        decreases n,
    {
        if n <= 0 {
            out
        } else {
            let before = self.in_decorators(at, decorators, out, n - 1);
            let dec = decorators[n - 1];
            match dec.expression.node {
                Node::Call { func, arguments } => self.decorated(
                    at,
                    *func,
                    Some(arguments),
                    dec.range,
                    self.evaluated(source_limit(), at, *func, arguments),
                    before,
                ),
                _ => self.decorated(at, dec.expression, None, dec.range, None, before),
            }
        }
    }

    /// Notes what decorators do.
    pub fn check_decorators(&self, cursor: &Cursor, decorators: &Vec<Decorator>, output: &mut ModuleEffects)
        ensures
            final(output).deep_view() == self.in_decorators(
                cursor@,
                decorators@,
                old(output).deep_view(),
                decorators@.len() as int,
            ),
    {
        let ghost first = output.deep_view();
        for i in 0..decorators.len()
            invariant
                output.deep_view() == self.in_decorators(cursor@, decorators@, first, i as int),
        {
            let dec = &decorators[i];
            match &dec.expression.node {
                Node::Call { func, arguments } => {
                    let evaluated = self.evaluate(4294967296, cursor, func, arguments);
                    self.check_decorator(cursor, func, Some(arguments), dec.range, evaluated, output);
                },
                _ => {
                    self.check_decorator(
                        cursor,
                        &dec.expression,
                        None,
                        dec.range,
                        None,
                        output,
                    );
                },
            }
        }
    }

    /// What is collected, with the first `n` targets of an assignment.
    pub open spec fn in_targets(
        &self,
        at: Seq<ScopeView>,
        targets: Seq<Expression>,
        value: Expression,
        out: ModuleEffectsView,
        n: int,
    ) -> ModuleEffectsView
        decreases n,
    {
        if n <= 0 {
            out
        } else {
            self.target_assigned(
                at,
                targets[n - 1],
                value,
                self.in_targets(at, targets, value, out, n - 1),
            )
        }
    }

    /// What is collected, with an assignment. At the level of the module, the first target may be
    /// a name that is also imported.
    pub open spec fn in_assign(
        &self,
        at: Seq<ScopeView>,
        targets: Seq<Expression>,
        value: Expression,
        range: TextRange,
        out: ModuleEffectsView,
    ) -> ModuleEffectsView {
        let assigned = self.in_targets(at, targets, value, out, targets.len() as int);
        let named = if current_scope(at) == self.module_name@ && targets.len() > 0 {
            match targets[0].node {
                Node::Name { id } => self.defined_again(at, id@, range, assigned),
                _ => assigned,
            }
        } else {
            assigned
        };
        self.in_expr(at, value, named)
    }

    fn assign(
        &self,
        cursor: &Cursor,
        targets: &Vec<Expression>,
        value: &Expression,
        range: TextRange,
        output: &mut ModuleEffects,
    )
        ensures
            final(output).deep_view() == self.in_assign(
                cursor@,
                targets@,
                *value,
                range,
                old(output).deep_view(),
            ),
    {
        let ghost first = output.deep_view();
        for i in 0..targets.len()
            invariant
                output.deep_view() == self.in_targets(cursor@, targets@, *value, first, i as int),
        {
            self.check_target(cursor, &targets[i], value, output);
        }
        if targets.len() > 0 && cursor.scope().same(self.module_name) {
            if let Node::Name { id } = &targets[0].node {
                self.check_re_exports(cursor, id.as_str(), range, output);
            }
        }
        self.expr(cursor, value, output);
    }

    /// What is collected, with the first `n` targets of a `del` statement. To delete an item or an
    /// attribute is to assign to it.
    pub open spec fn in_delete(
        &self,
        at: Seq<ScopeView>,
        targets: Seq<Expression>,
        out: ModuleEffectsView,
        n: int,
    ) -> ModuleEffectsView
        decreases n,
    {
        if n <= 0 {
            out
        } else {
            let before = self.in_delete(at, targets, out, n - 1);
            if targets[n - 1].node is Subscript || targets[n - 1].node is Attribute {
                self.assigned_to(at, targets[n - 1], before)
            } else {
                before
            }
        }
    }

    fn delete(&self, cursor: &Cursor, targets: &Vec<Expression>, output: &mut ModuleEffects)
        ensures
            final(output).deep_view() == self.in_delete(
                cursor@,
                targets@,
                old(output).deep_view(),
                targets@.len() as int,
            ),
    {
        let ghost first = output.deep_view();
        for i in 0..targets.len()
            invariant
                output.deep_view() == self.in_delete(cursor@, targets@, first, i as int),
        {
            match &targets[i].node {
                Node::Subscript { .. } | Node::Attribute { .. } => {
                    self.check_assign_target(cursor, &targets[i], output);
                },
                _ => {},
            }
        }
    }

    /// What is collected, with a `raise` statement. An exception that is caught does nothing; one
    /// that is raised again counts as caught in the body of any `try` statement.
    pub open spec fn in_raise(
        &self,
        at: Seq<ScopeView>,
        exc: Option<Expression>,
        range: TextRange,
        out: ModuleEffectsView,
    ) -> ModuleEffectsView {
        let name = match exc {
            Some(e) => match exception_of(e) {
                Some(name) => name,
                None => "<unknown exception>"@,
            },
            None => "<unknown exception>"@,
        };
        if (exc is None && open_tries(at).len() > 0) || some_handler_catches(
            all_handlers(open_tries(at)),
            name,
        ) {
            out
        } else {
            noted_plain(at, out, EffectKind::Raise, name, range)
        }
    }

    fn raise(&self, cursor: &Cursor, exc: &Option<Expression>, range: TextRange, output: &mut ModuleEffects)
        ensures
            final(output).deep_view() == self.in_raise(cursor@, *exc, range, old(output).deep_view()),
    {
        let unknown = ModuleName::from_str("<unknown exception>");
        let name = match exc {
            Some(e) => match exception_name(e) {
                Some(name) => name,
                None => unknown,
            },
            None => {
                if cursor.in_try_body() {
                    return;
                }
                unknown
            },
        };
        if cursor.catches_exception(&name) {
            return;
        }
        add_plain(cursor, EffectKind::Raise, name, range, output);
    }

    /// What is collected, with the context managers of the first `n` items of a `with` statement.
    pub open spec fn in_items(
        &self,
        at: Seq<ScopeView>,
        items: Seq<WithItem>,
        out: ModuleEffectsView,
        n: int,
    ) -> ModuleEffectsView
        decreases n,
    {
        if n <= 0 {
            out
        } else {
            self.in_expr(at, items[n - 1].context_expr, self.in_items(at, items, out, n - 1))
        }
    }

    fn check_items(&self, cursor: &Cursor, items: &Vec<WithItem>, output: &mut ModuleEffects)
        ensures
            final(output).deep_view() == self.in_items(
                cursor@,
                items@,
                old(output).deep_view(),
                items@.len() as int,
            ),
    {
        let ghost first = output.deep_view();
        for i in 0..items.len()
            invariant
                output.deep_view() == self.in_items(cursor@, items@, first, i as int),
        {
            self.expr(cursor, &items[i].context_expr, output);
        }
    }

    /// What is collected of the use of an attribute in a function, where it is that of a module.
    pub open spec fn attr_in_function(
        &self,
        at: Seq<ScopeView>,
        e: Expression,
        out: ModuleEffectsView,
    ) -> ModuleEffectsView {
        match e.node {
            Node::Attribute { value, attr, .. } => match self.module_reached(at, *value, attr@) {
                Some(module) => out.with_called(module, current_scope(at)),
                None => out,
            },
            _ => out,
        }
    }

    fn check_attr_in_function(&self, cursor: &Cursor, e: &Expression, output: &mut ModuleEffects)
        ensures
            final(output).deep_view() == self.attr_in_function(cursor@, *e, old(output).deep_view()),
    {
        if let Node::Attribute { value, attr, .. } = &e.node {
            if let Some(module) = self.check_function_attribute(cursor, value, attr.as_str()) {
                output.add_called_import(module, &cursor.scope());
            }
        }
    }

    /// What is collected of the imports of a function, with the first `n` of some statements.
    pub open spec fn imports_in_stmts(
        &self,
        at: Seq<ScopeView>,
        stmts: Vec<Statement>,
        out: ModuleEffectsView,
        n: int,
    ) -> ModuleEffectsView
        decreases stmts, 2nat, n,
    {
        if n <= 0 || n > stmts@.len() {
            out
        } else {
            self.imports_in_stmt(at, stmts[n - 1], self.imports_in_stmts(at, stmts, out, n - 1))
        }
    }

    /// What is collected of the imports of a function, with the first `n` blocks of a statement.
    pub open spec fn imports_in_blocks(
        &self,
        at: Seq<ScopeView>,
        s: Statement,
        out: ModuleEffectsView,
        n: int,
    ) -> ModuleEffectsView
        decreases s, 0nat, n,
    {
        if n <= 0 || n > blocks(s).len() {
            out
        } else {
            proof {
                lemma_blocks_smaller(s, n - 1);
            }
            self.imports_in_stmts(
                at,
                blocks(s)[n - 1],
                self.imports_in_blocks(at, s, out, n - 1),
                blocks(s)[n - 1]@.len() as int,
            )
        }
    }

    /// What is collected of the imports of a function, with a statement.
    pub open spec fn imports_in_stmt(
        &self,
        at: Seq<ScopeView>,
        s: Statement,
        out: ModuleEffectsView,
    ) -> ModuleEffectsView
        decreases s, 1nat, 0int,
    {
        let own = match s.node {
            StmtNode::Import(x) => imports_pending(current_scope(at), x, out, x.names@.len() as int),
            StmtNode::ImportFrom(x) => self.from_stmt(at, x, s.range, out),
            StmtNode::Expr { value, .. } => self.attr_in_function(at, value, out),
            StmtNode::Assign { value, .. } => self.attr_in_function(at, value, out),
            _ => out,
        };
        self.imports_in_blocks(at, s, own, blocks(s).len() as int)
    }

    fn check_function_body_for_imports(&self, cursor: &Cursor, stmts: &Vec<Statement>, output: &mut ModuleEffects)
        ensures
            final(output).deep_view() == self.imports_in_stmts(
                cursor@,
                *stmts,
                old(output).deep_view(),
                stmts@.len() as int,
            ),
        decreases stmts, 2nat,
    {
        let ghost first = output.deep_view();
        for i in 0..stmts.len()
            invariant
                output.deep_view() == self.imports_in_stmts(cursor@, *stmts, first, i as int),
        {
            self.check_function_statement(cursor, &stmts[i], output);
        }
    }

    fn check_function_statement(&self, cursor: &Cursor, s: &Statement, output: &mut ModuleEffects)
        ensures
            final(output).deep_view() == self.imports_in_stmt(cursor@, *s, old(output).deep_view()),
        decreases s, 1nat,
    {
        match &s.node {
            StmtNode::Import(x) => {
                add_pending_import(cursor, x, output);
            },
            StmtNode::ImportFrom(x) => {
                self.import_from(cursor, x, s.range, output);
            },
            StmtNode::Expr { value, .. } => {
                self.check_attr_in_function(cursor, value, output);
            },
            StmtNode::Assign { value, .. } => {
                self.check_attr_in_function(cursor, value, output);
            },
            _ => {},
        }
        let inner = s.blocks();
        let ghost first = output.deep_view();
        for k in 0..inner.len()
            invariant
                block_refs(inner@) == blocks(*s),
                output.deep_view() == self.imports_in_blocks(cursor@, *s, first, k as int),
        {
            proof {
                lemma_blocks_smaller(*s, k as int);
                assert(block_refs(inner@)[k as int] == *inner@[k as int]);
            }
            self.check_function_body_for_imports(cursor, inner[k], output);
        }
    }
}

/// The name of the exception that an expression is, or is an object of.
pub open spec fn exception_of(e: Expression) -> Option<Seq<char>> {
    match e.node {
        Node::Call { func, .. } => full_name_of(*func),
        _ => full_name_of(e),
    }
}

fn exception_name(e: &Expression) -> (res: Option<ModuleName>)
    ensures
        optional_name(res) == exception_of(*e),
{
    match &e.node {
        Node::Call { func, .. } => func.full_name(),
        _ => e.full_name(),
    }
}

/// The names that the first `n` of some expressions are, where they are names.
pub open spec fn names_among(elts: Seq<Expression>, n: int) -> Seq<Seq<char>>
    decreases n,
{
    if n <= 0 {
        Seq::empty()
    } else {
        let before = names_among(elts, n - 1);
        match full_name_of(elts[n - 1]) {
            Some(name) => before.push(name),
            None => before,
        }
    }
}

/// What a handler of a `try` statement catches.
pub open spec fn caught_by(h: Handler) -> Option<Seq<Seq<char>>> {
    match h.type_ {
        None => None,
        Some(typ) => match typ.node {
            Node::Tuple { elts } => Some(names_among(elts@, elts@.len() as int)),
            _ => Some(names_among(seq![typ], 1)),
        },
    }
}

/// What the handlers of a `try` statement catch.
pub open spec fn all_caught(handlers: Seq<Handler>) -> Seq<Option<Seq<Seq<char>>>> {
    handlers.map_values(|h: Handler| caught_by(h))
}

fn extract_try_handlers(handlers: &Vec<Handler>) -> (res: Vec<TryHandler>)
    ensures
        res.deep_view() == all_caught(handlers@),
{
    let mut res: Vec<TryHandler> = Vec::new();
    let ghost all = all_caught(handlers@);
    for i in 0..handlers.len()
        invariant
            all == all_caught(handlers@),
            res.deep_view() == all.take(i as int),
    {
        let ghost before = res.deep_view();
        let handler = extract_try_handler(&handlers[i]);
        let ghost view = handler.deep_view();
        res.push(handler);
        proof {
            assert(all[i as int] == view);
            assert(res.deep_view() =~= before.push(view));
            assert(res.deep_view() =~= all.take(i + 1));
        }
    }
    proof {
        assert(res.deep_view() =~= all);
    }
    res
}

fn extract_try_handler(handler: &Handler) -> (res: TryHandler)
    ensures
        res.deep_view() == caught_by(*handler),
{
    match &handler.type_ {
        None => TryHandler::Bare,
        Some(typ) => {
            let mut names: Vec<ModuleName> = Vec::new();
            proof {
                assert(texts(names@) =~= Seq::empty());
                reveal_with_fuel(names_among, 2);
            }
            match &typ.node {
                Node::Tuple { elts } => {
                    for i in 0..elts.len()
                        invariant
                            texts(names@) == names_among(elts@, i as int),
                    {
                        let ghost before = texts(names@);
                        if let Some(name) = elts[i].full_name() {
                            names.push(name);
                            proof {
                                assert(texts(names@) =~= before.push(name@));
                            }
                        }
                    }
                },
                _ => {
                    if let Some(name) = typ.full_name() {
                        names.push(name);
                        proof {
                            assert(texts(names@) =~= Seq::empty().push(name@));
                        }
                    }
                },
            }
            TryHandler::typed(names)
        },
    }
}

impl<'a> SourceAnalyzer<'a> {
    /// What is collected, with the first `n` of some statements.
    pub open spec fn in_stmts(
        &self,
        at: Seq<ScopeView>,
        stmts: Vec<Statement>,
        out: ModuleEffectsView,
        n: int,
    ) -> ModuleEffectsView
        decreases stmts, 2nat, n,
    {
        if n <= 0 || n > stmts@.len() {
            out
        } else {
            self.in_stmt(at, stmts[n - 1], self.in_stmts(at, stmts, out, n - 1))
        }
    }

    /// What is collected, with the import that a statement is, where what is imported is used at
    /// once.
    pub open spec fn import_called(
        &self,
        at: Seq<ScopeView>,
        s: Statement,
        out: ModuleEffectsView,
    ) -> ModuleEffectsView {
        match s.node {
            StmtNode::Import(x) => imports_pending(
                current_scope(at),
                x,
                imports_called(current_scope(at), x, out, x.names@.len() as int),
                x.names@.len() as int,
            ),
            StmtNode::ImportFrom(x) => self.from_imported(
                current_scope(at),
                x,
                true,
                self.from_stmt(at, x, s.range, out),
            ),
            _ => out,
        }
    }

    /// What is collected, with the first `n` of some statements that run at once, so that what they
    /// import is used.
    pub open spec fn in_eager_stmts(
        &self,
        at: Seq<ScopeView>,
        stmts: Vec<Statement>,
        out: ModuleEffectsView,
        n: int,
    ) -> ModuleEffectsView
        decreases stmts, 2nat, n,
    {
        if n <= 0 || n > stmts@.len() {
            out
        } else {
            self.in_stmt(
                at,
                stmts[n - 1],
                self.import_called(
                    at,
                    stmts[n - 1],
                    self.in_eager_stmts(at, stmts, out, n - 1),
                ),
            )
        }
    }

    /// What is collected, with a method that runs when an object is destroyed.
    pub open spec fn in_method(&self, at: Seq<ScopeView>, s: Statement, out: ModuleEffectsView) -> ModuleEffectsView {
        match s.node {
            StmtNode::FunctionDef(f) => if f.name@ == "__del__"@ {
                noted_plain(at, out, EffectKind::CustomFinalizer, f.name@, s.range)
            } else {
                out
            },
            _ => out,
        }
    }

    /// What is collected, with the first `n` statements of a class.
    pub open spec fn in_class_stmts(
        &self,
        at: Seq<ScopeView>,
        stmts: Vec<Statement>,
        out: ModuleEffectsView,
        n: int,
    ) -> ModuleEffectsView
        decreases stmts, 2nat, n,
    {
        if n <= 0 || n > stmts@.len() {
            out
        } else {
            self.in_stmt(
                at,
                stmts[n - 1],
                self.in_method(at, stmts[n - 1], self.in_class_stmts(at, stmts, out, n - 1)),
            )
        }
    }

    /// What is collected, with those of the first `n` branches of an `if` statement that count.
    pub open spec fn in_branches(
        &self,
        at: Seq<ScopeView>,
        branches: Vec<Branch>,
        out: ModuleEffectsView,
        n: int,
    ) -> ModuleEffectsView
        decreases branches, 0nat, n,
    {
        if n <= 0 || n > branches@.len() {
            out
        } else {
            let before = self.in_branches(at, branches, out, n - 1);
            let b = branches[n - 1];
            let main = optional_name(self.config.main_module);
            if counts(self.config.sys_info, main, self.module_name@, branches@, n - 1) {
                let tested = match b.test {
                    Some(test) => if test_counts(self.config.sys_info, main, b) {
                        self.in_expr(at, test, before)
                    } else {
                        before
                    },
                    None => before,
                };
                self.in_stmts(at, b.body, tested, b.body@.len() as int)
            } else {
                before
            }
        }
    }

    /// What is collected, with the bodies of the first `n` handlers of a `try` statement.
    pub open spec fn in_handlers(
        &self,
        at: Seq<ScopeView>,
        handlers: Vec<Handler>,
        out: ModuleEffectsView,
        n: int,
    ) -> ModuleEffectsView
        decreases handlers, 0nat, n,
    {
        if n <= 0 || n > handlers@.len() {
            out
        } else {
            self.in_stmts(
                at,
                handlers[n - 1].body,
                self.in_handlers(at, handlers, out, n - 1),
                handlers[n - 1].body@.len() as int,
            )
        }
    }

    /// What is collected, with the first `n` blocks of a statement.
    pub open spec fn in_blocks(
        &self,
        at: Seq<ScopeView>,
        s: Statement,
        out: ModuleEffectsView,
        n: int,
    ) -> ModuleEffectsView
        decreases s, 0nat, n,
    {
        if n <= 0 || n > blocks(s).len() {
            out
        } else {
            proof {
                lemma_blocks_smaller(s, n - 1);
            }
            self.in_stmts(
                at,
                blocks(s)[n - 1],
                self.in_blocks(at, s, out, n - 1),
                blocks(s)[n - 1]@.len() as int,
            )
        }
    }

    /// What is collected, with a class.
    pub open spec fn in_class(
        &self,
        at: Seq<ScopeView>,
        c: ClassDef,
        range: TextRange,
        out: ModuleEffectsView,
    ) -> ModuleEffectsView
        decreases c, 1nat, 0int,
    {
        let inside = in_scope(at, ScopeKind::Class, c.name@);
        let decorated = self.in_decorators(at, c.decorators@, out, c.decorators@.len() as int);
        self.in_class_stmts(
            inside,
            c.body,
            self.defined_again(inside, c.name@, range, decorated),
            c.body@.len() as int,
        )
    }

    /// What is collected, with a function. What its body does is noted for the function; its
    /// imports are noted for the module.
    pub open spec fn in_function(
        &self,
        at: Seq<ScopeView>,
        f: FunctionDef,
        range: TextRange,
        out: ModuleEffectsView,
    ) -> ModuleEffectsView
        decreases f, 1nat, 0int,
    {
        let inside = in_scope(at, ScopeKind::Function, f.name@);
        let n = f.body@.len() as int;
        let decorated = self.in_decorators(at, f.decorators@, out, f.decorators@.len() as int);
        let named = if current_scope(at) == self.module_name@ {
            self.defined_again(at, f.name@, range, decorated)
        } else {
            decorated
        };
        let imported = self.imports_in_stmts(inside, f.body, named, n);
        let body = self.in_stmts(inside, f.body, ModuleEffectsView::none(), n);
        ModuleEffectsView { effects: merged_effects(imported.effects, body.effects), ..imported }
    }

    /// What is collected, with a statement.
    pub open spec fn in_stmt(&self, at: Seq<ScopeView>, s: Statement, out: ModuleEffectsView) -> ModuleEffectsView
        decreases s, 1nat, 0int,
    {
        match s.node {
            StmtNode::Assign { targets, value } => self.in_assign(at, targets@, value, s.range, out),
            StmtNode::AnnAssign { target, value, .. } => {
                let assigned = self.assigned_to(at, target, out);
                match value {
                    Some(value) => self.in_expr(at, value, assigned),
                    None => assigned,
                }
            },
            StmtNode::AugAssign { target, value } => self.in_expr(
                at,
                value,
                self.assigned_to(at, target, out),
            ),
            StmtNode::Delete { targets } => self.in_delete(at, targets@, out, targets@.len() as int),
            StmtNode::Expr { value, .. } => self.in_expr(at, value, out),
            StmtNode::ClassDef(c) => self.in_class(at, c, s.range, out),
            StmtNode::FunctionDef(f) => self.in_function(at, f, s.range, out),
            StmtNode::Raise { exc } => self.in_raise(at, exc, s.range, out),
            StmtNode::Try { body, handlers, orelse, finalbody } => {
                let tried = self.in_eager_stmts(
                    in_try(at, all_caught(handlers@)),
                    body,
                    out,
                    body@.len() as int,
                );
                let caught = self.in_handlers(at, handlers, tried, handlers@.len() as int);
                let done = self.in_stmts(at, orelse, caught, orelse@.len() as int);
                self.in_stmts(at, finalbody, done, finalbody@.len() as int)
            },
            StmtNode::If { branches } => self.in_branches(at, branches, out, branches@.len() as int),
            StmtNode::For { target, iter, .. } => self.in_blocks(
                at,
                s,
                self.in_expr(at, iter, self.in_expr(at, target, out)),
                blocks(s).len() as int,
            ),
            StmtNode::While { test, .. } => self.in_blocks(
                at,
                s,
                self.in_expr(at, test, out),
                blocks(s).len() as int,
            ),
            StmtNode::With { items, body } => self.in_eager_stmts(
                at,
                body,
                self.in_items(at, items@, out, items@.len() as int),
                body@.len() as int,
            ),
            StmtNode::Match { subject, .. } => self.in_blocks(
                at,
                s,
                self.in_expr(at, subject, out),
                blocks(s).len() as int,
            ),
            StmtNode::Import(x) => imports_pending(current_scope(at), x, out, x.names@.len() as int),
            StmtNode::ImportFrom(x) => self.from_stmt(at, x, s.range, out),
            StmtNode::Global { .. } | StmtNode::Nonlocal { .. } | StmtNode::TypeAlias { .. } | StmtNode::Other => out,
        }
    }

    fn stmts(&self, cursor: &Cursor, list: &Vec<Statement>, output: &mut ModuleEffects)
        ensures
            final(output).deep_view() == self.in_stmts(
                cursor@,
                *list,
                old(output).deep_view(),
                list@.len() as int,
            ),
        decreases list, 2nat,
    {
        let ghost first = output.deep_view();
        for i in 0..list.len()
            invariant
                output.deep_view() == self.in_stmts(cursor@, *list, first, i as int),
        {
            self.stmt(cursor, &list[i], output);
        }
    }

    fn stmts_with_called_imports(&self, cursor: &Cursor, list: &Vec<Statement>, output: &mut ModuleEffects)
        ensures
            final(output).deep_view() == self.in_eager_stmts(
                cursor@,
                *list,
                old(output).deep_view(),
                list@.len() as int,
            ),
        decreases list, 2nat,
    {
        let ghost first = output.deep_view();
        for i in 0..list.len()
            invariant
                output.deep_view() == self.in_eager_stmts(cursor@, *list, first, i as int),
        {
            match &list[i].node {
                StmtNode::Import(x) => {
                    add_called_import(cursor, x, output);
                    add_pending_import(cursor, x, output);
                },
                StmtNode::ImportFrom(x) => {
                    self.import_from(cursor, x, list[i].range, output);
                    self.add_import_from(cursor, x, true, output);
                },
                _ => {},
            }
            self.stmt(cursor, &list[i], output);
        }
    }

    fn check_method(&self, cursor: &Cursor, s: &Statement, output: &mut ModuleEffects)
        ensures
            final(output).deep_view() == self.in_method(cursor@, *s, old(output).deep_view()),
    {
        if let StmtNode::FunctionDef(f) = &s.node {
            if str_eq(f.name.as_str(), "__del__") {
                add_plain(
                    cursor,
                    EffectKind::CustomFinalizer,
                    ModuleName::from_str(f.name.as_str()),
                    s.range,
                    output,
                );
            }
        }
    }

    fn class_stmts(&self, cursor: &Cursor, list: &Vec<Statement>, output: &mut ModuleEffects)
        ensures
            final(output).deep_view() == self.in_class_stmts(
                cursor@,
                *list,
                old(output).deep_view(),
                list@.len() as int,
            ),
        decreases list, 2nat,
    {
        let ghost first = output.deep_view();
        for i in 0..list.len()
            invariant
                output.deep_view() == self.in_class_stmts(cursor@, *list, first, i as int),
        {
            self.check_method(cursor, &list[i], output);
            self.stmt(cursor, &list[i], output);
        }
    }

    fn class_def(&self, cursor: &Cursor, c: &ClassDef, range: TextRange, output: &mut ModuleEffects)
        ensures
            final(output).deep_view() == self.in_class(cursor@, *c, range, old(output).deep_view()),
        decreases c, 1nat,
    {
        self.check_decorators(cursor, &c.decorators, output);
        let inside = cursor.enter_class_scope_name(c.name.as_str());
        self.check_re_exports(&inside, c.name.as_str(), range, output);
        self.class_stmts(&inside, &c.body, output);
    }

    fn function_def(&self, cursor: &Cursor, f: &FunctionDef, range: TextRange, output: &mut ModuleEffects)
        ensures
            final(output).deep_view() == self.in_function(cursor@, *f, range, old(output).deep_view()),
        decreases f, 1nat,
    {
        self.check_decorators(cursor, &f.decorators, output);
        if cursor.scope().same(self.module_name) {
            self.check_re_exports(cursor, f.name.as_str(), range, output);
        }
        let inside = cursor.enter_function_scope_name(f.name.as_str());
        self.check_function_body_for_imports(&inside, &f.body, output);
        let mut out = ModuleEffects::new();
        self.stmts(&inside, &f.body, &mut out);
        output.effects.merge(out.effects);
    }

    fn if_(&self, cursor: &Cursor, branches: &Vec<Branch>, output: &mut ModuleEffects)
        ensures
            final(output).deep_view() == self.in_branches(
                cursor@,
                *branches,
                old(output).deep_view(),
                branches@.len() as int,
            ),
        decreases branches, 0nat,
    {
        let live = self.config.lg_pruned_if_branches(branches, self.module_name);
        let ghost first = output.deep_view();
        let ghost main = optional_name(self.config.main_module);
        for i in 0..branches.len()
            invariant
                live@.len() == branches@.len(),
                main == optional_name(self.config.main_module),
                forall|i: int|
                    0 <= i < live@.len() ==> (#[trigger] live@[i]).0 == counts(
                        self.config.sys_info,
                        main,
                        self.module_name@,
                        branches@,
                        i,
                    ) && live@[i].1 == test_counts(self.config.sys_info, main, branches@[i]),
                output.deep_view() == self.in_branches(cursor@, *branches, first, i as int),
        {
            let b = &branches[i];
            if live[i].0 {
                if let Some(test) = &b.test {
                    if live[i].1 {
                        self.expr(cursor, test, output);
                    }
                }
                self.stmts(cursor, &b.body, output);
            }
        }
    }

    fn handler_bodies(&self, cursor: &Cursor, handlers: &Vec<Handler>, output: &mut ModuleEffects)
        ensures
            final(output).deep_view() == self.in_handlers(
                cursor@,
                *handlers,
                old(output).deep_view(),
                handlers@.len() as int,
            ),
        decreases handlers, 0nat,
    {
        let ghost first = output.deep_view();
        for i in 0..handlers.len()
            invariant
                output.deep_view() == self.in_handlers(cursor@, *handlers, first, i as int),
        {
            self.stmts(cursor, &handlers[i].body, output);
        }
    }

    fn blocks(&self, cursor: &Cursor, s: &Statement, output: &mut ModuleEffects)
        ensures
            final(output).deep_view() == self.in_blocks(
                cursor@,
                *s,
                old(output).deep_view(),
                blocks(*s).len() as int,
            ),
        decreases s, 0nat,
    {
        let inner = s.blocks();
        let ghost first = output.deep_view();
        for k in 0..inner.len()
            invariant
                block_refs(inner@) == blocks(*s),
                output.deep_view() == self.in_blocks(cursor@, *s, first, k as int),
        {
            proof {
                lemma_blocks_smaller(*s, k as int);
                assert(block_refs(inner@)[k as int] == *inner@[k as int]);
            }
            self.stmts(cursor, inner[k], output);
        }
    }

    /// Notes what a statement does.
    pub fn stmt(&self, cursor: &Cursor, s: &Statement, output: &mut ModuleEffects)
        ensures
            final(output).deep_view() == self.in_stmt(cursor@, *s, old(output).deep_view()),
        decreases s, 1nat,
    {
        match &s.node {
            StmtNode::Assign { targets, value } => {
                self.assign(cursor, targets, value, s.range, output);
            },
            StmtNode::AnnAssign { target, value, .. } => {
                self.check_assign_target(cursor, target, output);
                if let Some(value) = value {
                    self.expr(cursor, value, output);
                }
            },
            StmtNode::AugAssign { target, value } => {
                self.check_assign_target(cursor, target, output);
                self.expr(cursor, value, output);
            },
            StmtNode::Delete { targets } => {
                self.delete(cursor, targets, output);
            },
            StmtNode::Expr { value, .. } => {
                self.expr(cursor, value, output);
            },
            StmtNode::ClassDef(c) => {
                self.class_def(cursor, c, s.range, output);
            },
            StmtNode::FunctionDef(f) => {
                self.function_def(cursor, f, s.range, output);
            },
            StmtNode::Raise { exc } => {
                self.raise(cursor, exc, s.range, output);
            },
            StmtNode::Try { body, handlers, orelse, finalbody } => {
                let inside = cursor.enter_try_body(extract_try_handlers(handlers));
                self.stmts_with_called_imports(&inside, body, output);
                self.handler_bodies(cursor, handlers, output);
                self.stmts(cursor, orelse, output);
                self.stmts(cursor, finalbody, output);
            },
            StmtNode::If { branches } => {
                self.if_(cursor, branches, output);
            },
            StmtNode::For { target, iter, .. } => {
                self.expr(cursor, target, output);
                self.expr(cursor, iter, output);
                self.blocks(cursor, s, output);
            },
            StmtNode::While { test, .. } => {
                self.expr(cursor, test, output);
                self.blocks(cursor, s, output);
            },
            StmtNode::With { items, body } => {
                self.check_items(cursor, items, output);
                self.stmts_with_called_imports(cursor, body, output);
            },
            StmtNode::Match { subject, .. } => {
                self.expr(cursor, subject, output);
                self.blocks(cursor, s, output);
            },
            StmtNode::Import(x) => {
                add_pending_import(cursor, x, output);
            },
            StmtNode::ImportFrom(x) => {
                self.import_from(cursor, x, s.range, output);
            },
            StmtNode::Global { .. } | StmtNode::Nonlocal { .. } | StmtNode::TypeAlias { .. } | StmtNode::Other => {},
        }
    }
}

/// A function that the module calls has imports that are now used.
pub open spec fn imports_become_used(out: ModuleEffectsView, f: Seq<char>) -> bool {
    out.called_functions.contains(f) && out.pending_imports.contains_key(f) && !(
    out.pending_imports[f] =~= Set::empty())
}

/// What is collected, with the imports of the functions that are called, among the given ones, which
/// are used.
pub open spec fn with_used_imports(out: ModuleEffectsView, functions: Set<Seq<char>>) -> ModuleEffectsView {
    ModuleEffectsView {
        called_imports: Map::new(
            |s: Seq<char>|
                out.called_imports.contains_key(s) || (functions.contains(s) && imports_become_used(out, s)),
            |s: Seq<char>|
                if functions.contains(s) && imports_become_used(out, s) {
                    set_at(out.called_imports, s).union(out.pending_imports[s])
                } else {
                    out.called_imports[s]
                },
        ),
        ..out
    }
}

/// Notes that the imports of the functions that are called are used.
pub fn mark_called_imports(output: &mut ModuleEffects)
    ensures
        final(output).deep_view() == with_used_imports(
            old(output).deep_view(),
            old(output).deep_view().called_functions,
        ),
{
    let ghost first = output.deep_view();
    let n: usize = output.called_functions.len();
    let ghost items = output.called_functions.items();
    proof {
        assert(first.called_imports =~= with_used_imports(first, items.take(0).to_set()).called_imports);
    }
    for i in 0..n
        invariant
            n == items.len(),
            items == output.called_functions.items(),
            output.called_functions.ordered(),
            items.no_duplicates(),
            output.called_functions@ == first.called_functions,
            output.deep_view() == with_used_imports(first, items.take(i as int).to_set()),
    {
        let function = output.called_functions.at(i);
        let ghost before = output.deep_view();
        let ghost f = items[i as int];
        proof {
            crate::name_set::lemma_take_more(items, i as int);
            assert(!items.take(i as int).contains(f));
        }
        if let Some(imports) = output.pending_imports.get(&function) {
            if !imports.is_empty() {
                add_names(&mut output.called_imports, &function, imports);
            }
        }
        proof {
            assert(output.deep_view().called_imports =~= with_used_imports(
                first,
                items.take(i + 1).to_set(),
            ).called_imports);
        }
    }
    proof {
        assert(items.take(items.len() as int) =~= items);
        assert(items.to_set() =~= first.called_functions);
    }
}

/// What the statements of a module do.
pub open spec fn source_output(a: &SourceAnalyzer, parsed: &ParsedModule) -> ModuleEffectsView {
    let out = a.in_stmts(
        in_module(parsed.name@),
        parsed.body,
        ModuleEffectsView::none(),
        parsed.body@.len() as int,
    );
    let marked = with_used_imports(out, out.called_functions);
    if parsed.is_thrift_generated {
        ModuleEffectsView { effects: Map::empty(), ..marked }
    } else {
        marked
    }
}

/// What the analysis of a source file rests on.
pub open spec fn analyzes(
    a: &SourceAnalyzer,
    parsed: &ParsedModule,
    exports: &Exports,
    graph: &ImportGraph,
    stubs: &Stubs,
    config: &AnalysisConfig,
) -> bool {
    let cx = Context { definitions: a.definitions, exports, import_graph: graph };
    &&& *a.module_name == parsed.name
    &&& a.is_init == parsed.is_init
    &&& a.config == config
    &&& a.exports == exports
    &&& a.import_graph == graph
    &&& a.stubs == stubs
    &&& tables_view(a.definitions, a.classes) == module_tables(parsed, config)
    &&& a.bindings.aliases.table() == crate::bindings::module_aliases(&cx, parsed)
    &&& a.bindings.bound() == crate::bindings_table::module_bindings(&cx, &a.bindings.aliases, parsed)
}

/// Analyzes a source file. Of a file that was generated from an interface definition, only the
/// imports are kept.
pub fn analyze(
    parsed_module: &ParsedModule,
    exports: &Exports,
    import_graph: &ImportGraph,
    stubs: &Stubs,
    config: &AnalysisConfig,
) -> (res: AnalyzedModule)
    ensures
        tables_view(&res.definitions, &res.classes) == module_tables(parsed_module, config),
        res.implicit_imports@ == Set::<Seq<char>>::empty(),
        exists|a: SourceAnalyzer| #[trigger]
            analyzes(&a, parsed_module, exports, import_graph, stubs, config)
                && res.module_effects.deep_view() == source_output(&a, parsed_module),
{
    let (definitions, classes) = build_definitions_and_classes(parsed_module, config);
    let cx = Context { definitions: &definitions, exports, import_graph };
    let bindings = BindingsTable::new(&cx, parsed_module);
    let analyzer = SourceAnalyzer {
        module_name: &parsed_module.name,
        is_init: parsed_module.is_init,
        config,
        definitions: &definitions,
        bindings: &bindings,
        classes: &classes,
        exports,
        import_graph,
        stubs,
    };
    let cursor = Cursor::enter_module_scope(&parsed_module.name);
    let mut output = ModuleEffects::new();
    analyzer.stmts(&cursor, &parsed_module.body, &mut output);
    mark_called_imports(&mut output);
    if parsed_module.is_thrift_generated {
        output.effects = EffectTable::empty();
    }
    proof {
        assert(analyzes(&analyzer, parsed_module, exports, import_graph, stubs, config));
        assert(output.deep_view() == source_output(&analyzer, parsed_module));
    }
    AnalyzedModule { module_effects: output, definitions, classes, implicit_imports: NameSet::new() }
}

} // verus!
