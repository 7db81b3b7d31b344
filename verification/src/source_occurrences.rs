//! Where in a source file statements and expressions stand that are looked at, and that what they do
//! is collected wherever they stand.

use crate::ast::{
    blocks, box_seq, children, generator_exprs, item_exprs, keyword_exprs, opt_seq, Branch, Comprehension, DictItem,
    Expression, Handler, Node, Parameter, ParsedModule, Statement, StmtNode, WithItem,
};
use crate::config::{counts, test_counts};
use crate::cursor::{current_scope, in_module, in_scope, in_try, ScopeKind, ScopeView};
use crate::effects::EffectView;
use crate::module_effects::ModuleEffectsView;
use crate::module_name::optional_name;
use crate::module_parser::source_limit;
use crate::source_analyzer::{all_caught, source_output};
use crate::source_growth::{group_grown, grown, lemma_further, lemma_merged, lemma_same, more_effects};
use crate::source_info::SourceAnalyzer;
use crate::stub_occurrences::has_effect;
use vstd::prelude::*;

verus! {

/// An expression is a part of a comprehension.
pub open spec fn part_of_generators(generators: Seq<Comprehension>, c: Expression) -> bool {
    exists|i: int|
        0 <= i < generators.len() && (c == (#[trigger] generators[i]).target || c == generators[i].iter
            || generators[i].ifs@.contains(c))
}

/// An expression is the default of a parameter.
pub open spec fn is_default(params: Seq<Parameter>, c: Expression) -> bool {
    exists|i: int| 0 <= i < params.len() && (#[trigger] params[i]).default == Some(c)
}

/// An expression is directly inside of another that is looked at. Of a `lambda`, the defaults of its
/// parameters are; its body does not run.
pub open spec fn part_of(e: Expression, c: Expression) -> bool {
    match e.node {
        Node::BoolOp { values, .. } => values@.contains(c),
        Node::Named { target, value } => c == *target || c == *value,
        Node::BinOp { left, right, .. } => c == *left || c == *right,
        Node::UnaryOp { operand, .. } => c == *operand,
        Node::Lambda { parameters, .. } => match parameters {
            Some(params) => is_default(params.posonlyargs@, c) || is_default(params.args@, c) || is_default(
                params.kwonlyargs@,
                c,
            ),
            None => false,
        },
        Node::If { test, body, orelse } => c == *test || c == *body || c == *orelse,
        Node::Dict { items } => exists|i: int|
            0 <= i < items@.len() && ((#[trigger] items@[i]).value == c || items@[i].key == Some(c)),
        Node::SetDisplay { elts } => elts@.contains(c),
        Node::ListComp { elt, generators } => c == *elt || part_of_generators(generators@, c),
        Node::SetComp { elt, generators } => c == *elt || part_of_generators(generators@, c),
        Node::DictComp { key, value, generators } => (key matches Some(k) && c == *k) || c == *value
            || part_of_generators(generators@, c),
        Node::Generator { elt, generators } => c == *elt || part_of_generators(generators@, c),
        Node::Await { value } => c == *value,
        Node::Yield { value } => value matches Some(v) && c == *v,
        Node::YieldFrom { value } => c == *value,
        Node::Compare { left, comparators, .. } => c == *left || comparators@.contains(c),
        Node::Call { func, arguments } => c == *func || arguments.args@.contains(c) || exists|i: int|
            0 <= i < arguments.keywords@.len() && (#[trigger] arguments.keywords@[i]).value == c,
        Node::FString { values } => values@.contains(c),
        Node::TString { values } => values@.contains(c),
        Node::Attribute { value, .. } => c == *value,
        Node::Subscript { value, slice, .. } => c == *value || c == *slice,
        Node::Starred { value } => c == *value,
        Node::List { elts } => elts@.contains(c),
        Node::Tuple { elts } => elts@.contains(c),
        Node::Slice { lower, upper, step } => (lower matches Some(l) && c == *l) || (upper matches Some(u) && c == *u)
            || (step matches Some(s) && c == *s),
        _ => false,
    }
}

/// An expression is another one, or is that many steps inside of it.
pub open spec fn inside_at(e: Expression, c: Expression, depth: nat) -> bool
    decreases depth,
{
    if depth == 0 {
        e == c
    } else {
        exists|d: Expression| #[trigger] part_of(e, d) && inside_at(d, c, (depth - 1) as nat)
    }
}

proof fn lemma_item_parts(items: Seq<DictItem>, n: int, i: int, c: Expression)
    requires
        0 <= i < n <= items.len(),
        items[i].value == c || items[i].key == Some(c),
    ensures
        item_exprs(items, n).contains(c),
    decreases n,
{
    let before = item_exprs(items, n - 1);
    let last = opt_seq(items[n - 1].key).push(items[n - 1].value);
    let all = item_exprs(items, n);
    if i < n - 1 {
        lemma_item_parts(items, n - 1, i, c);
        let k = before.index_of(c);
        assert(all[k] == c);
    } else if items[i].value == c {
        assert(all[all.len() - 1] == c);
    } else {
        assert(last[0] == c);
        assert(all[before.len() as int] == c);
    }
}

proof fn lemma_generator_parts(generators: Seq<Comprehension>, n: int, i: int, c: Expression)
    requires
        0 <= i < n <= generators.len(),
        c == generators[i].target || c == generators[i].iter || generators[i].ifs@.contains(c),
    ensures
        generator_exprs(generators, n).contains(c),
    decreases n,
{
    let before = generator_exprs(generators, n - 1);
    let g = generators[n - 1];
    let last = seq![g.target, g.iter] + g.ifs@;
    let all = generator_exprs(generators, n);
    if i < n - 1 {
        lemma_generator_parts(generators, n - 1, i, c);
        let k = before.index_of(c);
        assert(all[k] == c);
    } else {
        let k: int = if c == g.target {
            0
        } else if c == g.iter {
            1
        } else {
            2 + g.ifs@.index_of(c)
        };
        assert(last[k] == c);
        assert(all[before.len() + k] == c);
    }
}

proof fn lemma_comprehension(first: Seq<Expression>, generators: Seq<Comprehension>, c: Expression) -> (k: int)
    requires
        first.contains(c) || part_of_generators(generators, c),
    ensures
        0 <= k < (first + generator_exprs(generators, generators.len() as int)).len(),
        (first + generator_exprs(generators, generators.len() as int))[k] == c,
{
    if first.contains(c) {
        first.index_of(c)
    } else {
        let i = choose|i: int|
            0 <= i < generators.len() && (c == (#[trigger] generators[i]).target || c == generators[i].iter
                || generators[i].ifs@.contains(c));
        lemma_generator_parts(generators, generators.len() as int, i, c);
        first.len() + generator_exprs(generators, generators.len() as int).index_of(c)
    }
}

/// The parts of an expression are its children, but for a `lambda`.
pub proof fn lemma_part(e: Expression, c: Expression) -> (k: int)
    requires
        part_of(e, c),
        !(e.node is Lambda),
    ensures
        0 <= k < children(e).len(),
        children(e)[k] == c,
{
    match e.node {
        Node::BoolOp { values, .. } => values@.index_of(c),
        Node::Named { target, .. } => if c == *target {
            0
        } else {
            1
        },
        Node::BinOp { left, .. } => if c == *left {
            0
        } else {
            1
        },
        Node::If { test, body, .. } => if c == *test {
            0
        } else if c == *body {
            1
        } else {
            2
        },
        Node::Dict { items } => {
            let i = choose|i: int|
                0 <= i < items@.len() && ((#[trigger] items@[i]).value == c || items@[i].key == Some(c));
            lemma_item_parts(items@, items@.len() as int, i, c);
            item_exprs(items@, items@.len() as int).index_of(c)
        },
        Node::SetDisplay { elts } => elts@.index_of(c),
        Node::ListComp { elt, generators } => {
            assert(seq![*elt][0] == *elt);
            lemma_comprehension(seq![*elt], generators@, c)
        },
        Node::SetComp { elt, generators } => {
            assert(seq![*elt][0] == *elt);
            lemma_comprehension(seq![*elt], generators@, c)
        },
        Node::Generator { elt, generators } => {
            assert(seq![*elt][0] == *elt);
            lemma_comprehension(seq![*elt], generators@, c)
        },
        Node::DictComp { key, value, generators } => {
            let first = box_seq(key).push(*value);
            assert(first.last() == *value);
            match key {
                Some(k) => {
                    assert(first[0] == *k);
                },
                None => {},
            }
            lemma_comprehension(first, generators@, c)
        },
        Node::Compare { left, comparators, .. } => if c == *left {
            0
        } else {
            1 + comparators@.index_of(c)
        },
        Node::Call { func, arguments } => if c == *func {
            0
        } else if arguments.args@.contains(c) {
            1 + arguments.args@.index_of(c)
        } else {
            let i = choose|i: int|
                0 <= i < arguments.keywords@.len() && (#[trigger] arguments.keywords@[i]).value == c;
            assert(keyword_exprs(arguments.keywords@)[i] == c);
            1 + arguments.args@.len() + i
        },
        Node::FString { values } => values@.index_of(c),
        Node::TString { values } => values@.index_of(c),
        Node::Subscript { value, .. } => if c == *value {
            0
        } else {
            1
        },
        Node::List { elts } => elts@.index_of(c),
        Node::Tuple { elts } => elts@.index_of(c),
        Node::Slice { lower, upper, step } => {
            let l = box_seq(lower).len() as int;
            let u = box_seq(upper).len() as int;
            if lower matches Some(x) && c == *x {
                0
            } else if upper matches Some(x) && c == *x {
                l
            } else {
                l + u
            }
        },
        _ => 0,
    }
}

proof fn lemma_item_is_part(items: Seq<DictItem>, n: int, k: int) -> (i: int)
    requires
        0 <= n <= items.len(),
        0 <= k < item_exprs(items, n).len(),
    ensures
        0 <= i < n,
        items[i].value == item_exprs(items, n)[k] || items[i].key == Some(item_exprs(items, n)[k]),
    decreases n,
{
    let before = item_exprs(items, n - 1);
    if k < before.len() {
        lemma_item_is_part(items, n - 1, k)
    } else {
        n - 1
    }
}

proof fn lemma_generator_is_part(generators: Seq<Comprehension>, n: int, k: int)
    requires
        0 <= n <= generators.len(),
        0 <= k < generator_exprs(generators, n).len(),
    ensures
        part_of_generators(generators, generator_exprs(generators, n)[k]),
    decreases n,
{
    let before = generator_exprs(generators, n - 1);
    let c = generator_exprs(generators, n)[k];
    if k < before.len() {
        lemma_generator_is_part(generators, n - 1, k);
    } else {
        let j = k - before.len();
        let g = generators[n - 1];
        if j >= 2 {
            assert(g.ifs@[j - 2] == c);
        }
    }
}

/// The children of an expression are parts of it, but for a `lambda`.
pub proof fn lemma_child_is_part(e: Expression, k: int)
    requires
        !(e.node is Lambda),
        0 <= k < children(e).len(),
    ensures
        part_of(e, children(e)[k]),
{
    let c = children(e)[k];
    match e.node {
        Node::Dict { items } => {
            let i = lemma_item_is_part(items@, items@.len() as int, k);
            assert(items@[i].value == c || items@[i].key == Some(c));
        },
        Node::ListComp { generators, .. } => {
            if k >= 1 {
                lemma_generator_is_part(generators@, generators@.len() as int, k - 1);
            }
        },
        Node::SetComp { generators, .. } => {
            if k >= 1 {
                lemma_generator_is_part(generators@, generators@.len() as int, k - 1);
            }
        },
        Node::Generator { generators, .. } => {
            if k >= 1 {
                lemma_generator_is_part(generators@, generators@.len() as int, k - 1);
            }
        },
        Node::DictComp { key, value, generators } => {
            let first = box_seq(key).push(*value);
            if k >= first.len() {
                lemma_generator_is_part(generators@, generators@.len() as int, k - first.len());
            }
        },
        Node::Call { arguments, .. } => {
            let n = arguments.args@.len() as int;
            if 1 <= k <= n {
                assert(arguments.args@[k - 1] == c);
            } else if k > n {
                assert(keyword_exprs(arguments.keywords@)[k - 1 - n] == arguments.keywords@[k - 1 - n].value);
            }
        },
        Node::Compare { comparators, .. } => {
            if k >= 1 {
                assert(comparators@[k - 1] == c);
            }
        },
        _ => {},
    }
}

impl<'a> SourceAnalyzer<'a> {
    /// A statement at a place holds a block that is looked at, at a place of its own where it is the
    /// body of a class, of a function or of a `try` statement. Of an `if` statement it is a branch that
    /// counts.
    pub open spec fn holds_block(
        &self,
        at: Seq<ScopeView>,
        s: Statement,
        inner: Seq<ScopeView>,
        b: Vec<Statement>,
    ) -> bool {
        match s.node {
            StmtNode::ClassDef(c) => inner == in_scope(at, ScopeKind::Class, c.name@) && b == c.body,
            StmtNode::FunctionDef(f) => inner == in_scope(at, ScopeKind::Function, f.name@) && b == f.body,
            StmtNode::For { body, orelse, .. } => inner == at && (b == body || b == orelse),
            StmtNode::While { body, orelse, .. } => inner == at && (b == body || b == orelse),
            StmtNode::With { body, .. } => inner == at && b == body,
            StmtNode::Match { cases, .. } => inner == at && exists|i: int|
                0 <= i < cases@.len() && b == (#[trigger] cases@[i]).body,
            StmtNode::Try { body, handlers, orelse, finalbody } => {
                ||| inner == in_try(at, all_caught(handlers@)) && b == body
                ||| inner == at && (b == orelse || b == finalbody || exists|i: int|
                    0 <= i < handlers@.len() && b == (#[trigger] handlers@[i]).body)
            },
            StmtNode::If { branches } => inner == at && exists|i: int|
                0 <= i < branches@.len() && #[trigger] counts(
                    self.config.sys_info,
                    optional_name(self.config.main_module),
                    self.module_name@,
                    branches@,
                    i,
                ) && b == branches@[i].body,
            _ => false,
        }
    }

    /// A statement at a place is another one at its place, or holds it that many blocks deep.
    pub open spec fn holds_at(
        &self,
        at: Seq<ScopeView>,
        s: Statement,
        inner: Seq<ScopeView>,
        t: Statement,
        depth: nat,
    ) -> bool
        decreases depth,
    {
        if depth == 0 {
            inner == at && s == t
        } else {
            exists|mid: Seq<ScopeView>, b: Vec<Statement>, i: int|
                #![trigger self.holds_block(at, s, mid, b), b@[i]]
                self.holds_block(at, s, mid, b) && 0 <= i < b@.len() && self.holds_at(
                    mid,
                    b@[i],
                    inner,
                    t,
                    (depth - 1) as nat,
                )
        }
    }

    /// A statement of a module, at some depth, is looked at, at a place.
    pub open spec fn is_looked_at(&self, parsed: &ParsedModule, inner: Seq<ScopeView>, t: Statement) -> bool {
        exists|i: int, depth: nat|
            0 <= i < parsed.body@.len() && #[trigger] self.holds_at(
                in_module(parsed.name@),
                parsed.body@[i],
                inner,
                t,
                depth,
            )
    }

    proof fn lemma_later_stmts(
        &self,
        at: Seq<ScopeView>,
        stmts: Vec<Statement>,
        out: ModuleEffectsView,
        n: int,
        m: int,
    )
        requires
            0 <= n <= m <= stmts@.len(),
        ensures
            grown(self.in_stmts(at, stmts, out, n), self.in_stmts(at, stmts, out, m)),
        decreases m - n,
    {
        broadcast use group_grown;

        if n < m {
            self.lemma_later_stmts(at, stmts, out, n, m - 1);
            self.lemma_stmt(
                self.in_stmts(at, stmts, out, n),
                at,
                stmts[m - 1],
                self.in_stmts(at, stmts, out, m - 1),
            );
        }
    }

    pub proof fn lemma_later_eager(
        &self,
        at: Seq<ScopeView>,
        stmts: Vec<Statement>,
        out: ModuleEffectsView,
        n: int,
        m: int,
    )
        requires
            0 <= n <= m <= stmts@.len(),
        ensures
            grown(self.in_eager_stmts(at, stmts, out, n), self.in_eager_stmts(at, stmts, out, m)),
        decreases m - n,
    {
        broadcast use group_grown;

        if n < m {
            self.lemma_later_eager(at, stmts, out, n, m - 1);
            let a = self.in_eager_stmts(at, stmts, out, n);
            let before = self.in_eager_stmts(at, stmts, out, m - 1);
            self.lemma_import_called(a, at, stmts[m - 1], before);
            self.lemma_stmt(a, at, stmts[m - 1], self.import_called(at, stmts[m - 1], before));
        }
    }

    pub proof fn lemma_later_class(
        &self,
        at: Seq<ScopeView>,
        stmts: Vec<Statement>,
        out: ModuleEffectsView,
        n: int,
        m: int,
    )
        requires
            0 <= n <= m <= stmts@.len(),
        ensures
            grown(self.in_class_stmts(at, stmts, out, n), self.in_class_stmts(at, stmts, out, m)),
        decreases m - n,
    {
        broadcast use group_grown;

        if n < m {
            self.lemma_later_class(at, stmts, out, n, m - 1);
            let a = self.in_class_stmts(at, stmts, out, n);
            let before = self.in_class_stmts(at, stmts, out, m - 1);
            assert(grown(a, self.in_method(at, stmts[m - 1], before)));
            self.lemma_stmt(a, at, stmts[m - 1], self.in_method(at, stmts[m - 1], before));
        }
    }

    proof fn lemma_later_blocks(
        &self,
        at: Seq<ScopeView>,
        s: Statement,
        out: ModuleEffectsView,
        n: int,
        m: int,
    )
        requires
            0 <= n <= m <= blocks(s).len(),
        ensures
            grown(self.in_blocks(at, s, out, n), self.in_blocks(at, s, out, m)),
        decreases m - n,
    {
        broadcast use group_grown;

        if n < m {
            self.lemma_later_blocks(at, s, out, n, m - 1);
            self.lemma_stmts(
                self.in_blocks(at, s, out, n),
                at,
                blocks(s)[m - 1],
                self.in_blocks(at, s, out, m - 1),
                blocks(s)[m - 1]@.len() as int,
            );
        }
    }

    proof fn lemma_later_branches(
        &self,
        at: Seq<ScopeView>,
        branches: Vec<Branch>,
        out: ModuleEffectsView,
        n: int,
        m: int,
    )
        requires
            0 <= n <= m <= branches@.len(),
        ensures
            grown(self.in_branches(at, branches, out, n), self.in_branches(at, branches, out, m)),
        decreases m - n,
    {
        broadcast use group_grown;

        if n < m {
            self.lemma_later_branches(at, branches, out, n, m - 1);
            let a = self.in_branches(at, branches, out, n);
            let before = self.in_branches(at, branches, out, m - 1);
            let b = branches[m - 1];
            self.lemma_tested(a, at, b, before);
            self.lemma_stmts(a, at, b.body, self.tested(at, b, before), b.body@.len() as int);
        }
    }

    proof fn lemma_later_handlers(
        &self,
        at: Seq<ScopeView>,
        handlers: Vec<Handler>,
        out: ModuleEffectsView,
        n: int,
        m: int,
    )
        requires
            0 <= n <= m <= handlers@.len(),
        ensures
            grown(self.in_handlers(at, handlers, out, n), self.in_handlers(at, handlers, out, m)),
        decreases m - n,
    {
        broadcast use group_grown;

        if n < m {
            self.lemma_later_handlers(at, handlers, out, n, m - 1);
            self.lemma_stmts(
                self.in_handlers(at, handlers, out, n),
                at,
                handlers[m - 1].body,
                self.in_handlers(at, handlers, out, m - 1),
                handlers[m - 1].body@.len() as int,
            );
        }
    }

    /// A statement of a block is looked at, and what it does is kept.
    pub proof fn lemma_in_stmts(&self, at: Seq<ScopeView>, b: Vec<Statement>, out: ModuleEffectsView, i: int) -> (before:
        ModuleEffectsView)
        requires
            0 <= i < b@.len(),
        ensures
            grown(self.in_stmt(at, b@[i], before), self.in_stmts(at, b, out, b@.len() as int)),
    {
        self.lemma_later_stmts(at, b, out, i + 1, b@.len() as int);
        self.in_stmts(at, b, out, i)
    }

    proof fn lemma_in_eager(&self, at: Seq<ScopeView>, b: Vec<Statement>, out: ModuleEffectsView, i: int) -> (before:
        ModuleEffectsView)
        requires
            0 <= i < b@.len(),
        ensures
            grown(self.in_stmt(at, b@[i], before), self.in_eager_stmts(at, b, out, b@.len() as int)),
    {
        self.lemma_later_eager(at, b, out, i + 1, b@.len() as int);
        self.import_called(at, b@[i], self.in_eager_stmts(at, b, out, i))
    }

    proof fn lemma_in_blocks(
        &self,
        at: Seq<ScopeView>,
        s: Statement,
        out: ModuleEffectsView,
        k: int,
        i: int,
    ) -> (before: ModuleEffectsView)
        requires
            0 <= k < blocks(s).len(),
            0 <= i < blocks(s)[k]@.len(),
        ensures
            grown(self.in_stmt(at, blocks(s)[k]@[i], before), self.in_blocks(at, s, out, blocks(s).len() as int)),
    {
        let b = blocks(s)[k];
        let before = self.lemma_in_stmts(at, b, self.in_blocks(at, s, out, k), i);
        self.lemma_later_blocks(at, s, out, k + 1, blocks(s).len() as int);
        lemma_further(
            self.in_stmt(at, b@[i], before),
            self.in_blocks(at, s, out, k + 1),
            self.in_blocks(at, s, out, blocks(s).len() as int),
        );
        before
    }

    /// What a statement of a block does is kept by the statement that holds the block.
    pub proof fn lemma_member(
        &self,
        at: Seq<ScopeView>,
        s: Statement,
        out: ModuleEffectsView,
        mid: Seq<ScopeView>,
        b: Vec<Statement>,
        i: int,
    ) -> (before: ModuleEffectsView)
        requires
            self.holds_block(at, s, mid, b),
            0 <= i < b@.len(),
        ensures
            more_effects(self.in_stmt(mid, b@[i], before).effects, self.in_stmt(at, s, out).effects),
            !(s.node is FunctionDef) ==> grown(self.in_stmt(mid, b@[i], before), self.in_stmt(at, s, out)),
    {
        let t = b@[i];
        let n = b@.len() as int;
        let all = self.in_stmt(at, s, out);
        let before = match s.node {
            StmtNode::ClassDef(c) => {
                let decorated = self.in_decorators(at, c.decorators@, out, c.decorators@.len() as int);
                let named = self.defined_again(mid, c.name@, s.range, decorated);
                self.lemma_later_class(mid, b, named, i + 1, n);
                self.in_method(mid, t, self.in_class_stmts(mid, b, named, i))
            },
            StmtNode::FunctionDef(f) => {
                let before = self.lemma_in_stmts(mid, b, ModuleEffectsView::none(), i);
                let body = self.in_stmts(mid, b, ModuleEffectsView::none(), n);
                let decorated = self.in_decorators(at, f.decorators@, out, f.decorators@.len() as int);
                let named = if current_scope(at) == self.module_name@ {
                    self.defined_again(at, f.name@, s.range, decorated)
                } else {
                    decorated
                };
                let imported = self.imports_in_stmts(mid, b, named, n);
                lemma_same(imported);
                lemma_merged(imported, imported, body.effects);
                reveal(grown);
                before
            },
            StmtNode::For { target, iter, body, orelse } => {
                let first = self.in_expr(at, iter, self.in_expr(at, target, out));
                let k: int = if b == body {
                    0
                } else {
                    1
                };
                assert(blocks(s)[k] == b);
                self.lemma_in_blocks(at, s, first, k, i)
            },
            StmtNode::While { test, body, orelse } => {
                let k: int = if b == body {
                    0
                } else {
                    1
                };
                assert(blocks(s)[k] == b);
                self.lemma_in_blocks(at, s, self.in_expr(at, test, out), k, i)
            },
            StmtNode::With { items, .. } => {
                self.lemma_in_eager(at, b, self.in_items(at, items@, out, items@.len() as int), i)
            },
            StmtNode::Match { subject, cases } => {
                let k = choose|k: int| 0 <= k < cases@.len() && b == (#[trigger] cases@[k]).body;
                assert(blocks(s)[k] == b);
                self.lemma_in_blocks(at, s, self.in_expr(at, subject, out), k, i)
            },
            StmtNode::Try { body, handlers, orelse, finalbody } => {
                let inside = in_try(at, all_caught(handlers@));
                let len = handlers@.len() as int;
                let tried = self.in_eager_stmts(inside, body, out, body@.len() as int);
                let caught = self.in_handlers(at, handlers, tried, len);
                let done = self.in_stmts(at, orelse, caught, orelse@.len() as int);
                if mid == inside && b == body {
                    let before = self.lemma_in_eager(inside, b, out, i);
                    let a = self.in_stmt(mid, t, before);
                    self.lemma_handlers(a, at, handlers, tried, len);
                    self.lemma_stmts(a, at, orelse, caught, orelse@.len() as int);
                    self.lemma_stmts(a, at, finalbody, done, finalbody@.len() as int);
                    before
                } else if b == orelse {
                    let before = self.lemma_in_stmts(at, b, caught, i);
                    let a = self.in_stmt(mid, t, before);
                    self.lemma_stmts(a, at, finalbody, done, finalbody@.len() as int);
                    before
                } else if b == finalbody {
                    self.lemma_in_stmts(at, b, done, i)
                } else {
                    let k = choose|k: int| 0 <= k < len && b == (#[trigger] handlers@[k]).body;
                    let before = self.lemma_in_stmts(at, b, self.in_handlers(at, handlers, tried, k), i);
                    let a = self.in_stmt(mid, t, before);
                    self.lemma_later_handlers(at, handlers, tried, k + 1, len);
                    lemma_further(a, self.in_handlers(at, handlers, tried, k + 1), caught);
                    self.lemma_stmts(a, at, orelse, caught, orelse@.len() as int);
                    self.lemma_stmts(a, at, finalbody, done, finalbody@.len() as int);
                    before
                }
            },
            StmtNode::If { branches } => {
                let k = choose|k: int|
                    0 <= k < branches@.len() && #[trigger] counts(
                        self.config.sys_info,
                        optional_name(self.config.main_module),
                        self.module_name@,
                        branches@,
                        k,
                    ) && b == branches@[k].body;
                let first = self.tested(at, branches@[k], self.in_branches(at, branches, out, k));
                let before = self.lemma_in_stmts(at, b, first, i);
                self.lemma_later_branches(at, branches, out, k + 1, branches@.len() as int);
                lemma_further(
                    self.in_stmt(at, t, before),
                    self.in_branches(at, branches, out, k + 1),
                    all,
                );
                before
            },
            _ => out,
        };
        assert(!(s.node is FunctionDef) ==> grown(self.in_stmt(mid, t, before), all));
        reveal(grown);
        before
    }

    /// What a statement does is kept by every statement that holds it.
    proof fn lemma_held(
        &self,
        at: Seq<ScopeView>,
        s: Statement,
        out: ModuleEffectsView,
        inner: Seq<ScopeView>,
        t: Statement,
        depth: nat,
    ) -> (before: ModuleEffectsView)
        requires
            self.holds_at(at, s, inner, t, depth),
        ensures
            more_effects(self.in_stmt(inner, t, before).effects, self.in_stmt(at, s, out).effects),
        decreases depth,
    {
        if depth == 0 {
            out
        } else {
            let (mid, b, i) = choose|mid: Seq<ScopeView>, b: Vec<Statement>, i: int|
                #![trigger self.holds_block(at, s, mid, b), b@[i]]
                self.holds_block(at, s, mid, b) && 0 <= i < b@.len() && self.holds_at(
                    mid,
                    b@[i],
                    inner,
                    t,
                    (depth - 1) as nat,
                );
            let first = self.lemma_member(at, s, out, mid, b, i);
            let before = self.lemma_held(mid, b@[i], first, inner, t, (depth - 1) as nat);
            assert forall|k: Seq<char>, e: EffectView| #[trigger]
                has_effect(self.in_stmt(inner, t, before).effects, k, e) implies has_effect(
                self.in_stmt(at, s, out).effects,
                k,
                e,
            ) by {
                assert(has_effect(self.in_stmt(mid, b@[i], first).effects, k, e));
            }
            before
        }
    }

    /// Whatever a statement does, wherever in a module it is looked at, is among the effects of the
    /// module.
    pub proof fn lemma_looked_at(&self, parsed: &ParsedModule, inner: Seq<ScopeView>, t: Statement) -> (before:
        ModuleEffectsView)
        requires
            self.is_looked_at(parsed, inner, t),
            !parsed.is_thrift_generated,
        ensures
            more_effects(self.in_stmt(inner, t, before).effects, source_output(self, parsed).effects),
    {
        let at = in_module(parsed.name@);
        let (i, depth) = choose|i: int, depth: nat|
            0 <= i < parsed.body@.len() && #[trigger] self.holds_at(at, parsed.body@[i], inner, t, depth);
        let first = self.lemma_in_stmts(at, parsed.body, ModuleEffectsView::none(), i);
        let before = self.lemma_held(at, parsed.body@[i], first, inner, t, depth);
        reveal(grown);
        assert forall|k: Seq<char>, e: EffectView| #[trigger]
            has_effect(self.in_stmt(inner, t, before).effects, k, e) implies has_effect(
            source_output(self, parsed).effects,
            k,
            e,
        ) by {
            assert(has_effect(self.in_stmt(at, parsed.body@[i], first).effects, k, e));
        }
        before
    }
}

impl<'a> SourceAnalyzer<'a> {
    /// A statement evaluates an expression as a whole, and the expression is looked at.
    pub open spec fn evaluates(&self, s: Statement, e: Expression) -> bool {
        match s.node {
            StmtNode::Expr { value, .. } => e == value,
            StmtNode::Assign { value, .. } => e == value,
            StmtNode::AugAssign { value, .. } => e == value,
            StmtNode::AnnAssign { value, .. } => value == Some(e),
            StmtNode::For { target, iter, .. } => e == target || e == iter,
            StmtNode::While { test, .. } => e == test,
            StmtNode::With { items, .. } => exists|i: int|
                0 <= i < items@.len() && e == (#[trigger] items@[i]).context_expr,
            StmtNode::Match { subject, .. } => e == subject,
            StmtNode::If { branches } => exists|i: int|
                0 <= i < branches@.len() && #[trigger] counts(
                    self.config.sys_info,
                    optional_name(self.config.main_module),
                    self.module_name@,
                    branches@,
                    i,
                ) && test_counts(self.config.sys_info, optional_name(self.config.main_module), branches@[i])
                    && branches@[i].test == Some(e),
            _ => false,
        }
    }

    /// An expression is evaluated at a place of a module, in any statement and at any depth inside of
    /// an expression.
    pub open spec fn is_evaluated(&self, parsed: &ParsedModule, inner: Seq<ScopeView>, e: Expression) -> bool {
        exists|t: Statement, whole: Expression, depth: nat|
            #![trigger self.evaluates(t, whole), inside_at(whole, e, depth)]
            self.is_looked_at(parsed, inner, t) && self.evaluates(t, whole) && inside_at(whole, e, depth)
    }

    proof fn lemma_later_children(
        &self,
        limit: nat,
        at: Seq<ScopeView>,
        e: Expression,
        out: ModuleEffectsView,
        n: int,
        m: int,
    )
        requires
            0 <= n <= m <= children(e).len(),
        ensures
            grown(self.in_children(limit, at, e, out, n), self.in_children(limit, at, e, out, m)),
        decreases m - n,
    {
        broadcast use group_grown;

        if n < m {
            self.lemma_later_children(limit, at, e, out, n, m - 1);
            self.lemma_code(
                self.in_children(limit, at, e, out, n),
                limit,
                at,
                children(e)[m - 1],
                self.in_children(limit, at, e, out, m - 1),
            );
        }
    }

    proof fn lemma_later_defaults(
        &self,
        limit: nat,
        at: Seq<ScopeView>,
        params: Vec<Parameter>,
        out: ModuleEffectsView,
        n: int,
        m: int,
    )
        requires
            0 <= n <= m <= params@.len(),
        ensures
            grown(self.in_defaults(limit, at, params, out, n), self.in_defaults(limit, at, params, out, m)),
        decreases m - n,
    {
        broadcast use group_grown;

        if n < m {
            self.lemma_later_defaults(limit, at, params, out, n, m - 1);
            match params[m - 1].default {
                Some(default) => self.lemma_code(
                    self.in_defaults(limit, at, params, out, n),
                    limit,
                    at,
                    default,
                    self.in_defaults(limit, at, params, out, m - 1),
                ),
                None => {},
            }
        }
    }

    proof fn lemma_in_defaults(
        &self,
        limit: nat,
        at: Seq<ScopeView>,
        params: Vec<Parameter>,
        out: ModuleEffectsView,
        c: Expression,
    ) -> (before: ModuleEffectsView)
        requires
            is_default(params@, c),
        ensures
            grown(
                self.in_code(limit, at, c, before),
                self.in_defaults(limit, at, params, out, params@.len() as int),
            ),
    {
        let i = choose|i: int| 0 <= i < params@.len() && (#[trigger] params@[i]).default == Some(c);
        self.lemma_later_defaults(limit, at, params, out, i + 1, params@.len() as int);
        self.in_defaults(limit, at, params, out, i)
    }

    /// What a part of an expression does is kept by the expression.
    proof fn lemma_in_part(
        &self,
        limit: nat,
        at: Seq<ScopeView>,
        e: Expression,
        out: ModuleEffectsView,
        c: Expression,
    ) -> (before: ModuleEffectsView)
        requires
            part_of(e, c),
        ensures
            grown(self.in_code(limit, at, c, before), self.in_code(limit, at, e, out)),
    {
        match e.node {
            Node::Lambda { parameters, .. } => {
                let params = parameters->Some_0;
                let pos = params.posonlyargs@.len() as int;
                let mid = params.args@.len() as int;
                let kw = params.kwonlyargs@.len() as int;
                let first = self.in_defaults(limit, at, params.posonlyargs, out, pos);
                let second = self.in_defaults(limit, at, params.args, first, mid);
                if is_default(params.posonlyargs@, c) {
                    let before = self.lemma_in_defaults(limit, at, params.posonlyargs, out, c);
                    let a = self.in_code(limit, at, c, before);
                    self.lemma_defaults(a, limit, at, params.args, first, mid);
                    self.lemma_defaults(a, limit, at, params.kwonlyargs, second, kw);
                    before
                } else if is_default(params.args@, c) {
                    let before = self.lemma_in_defaults(limit, at, params.args, first, c);
                    let a = self.in_code(limit, at, c, before);
                    self.lemma_defaults(a, limit, at, params.kwonlyargs, second, kw);
                    before
                } else {
                    self.lemma_in_defaults(limit, at, params.kwonlyargs, second, c)
                }
            },
            _ => {
                let k = lemma_part(e, c);
                lemma_same(out);
                self.lemma_own_code(out, limit, at, e, out);
                let own = self.own_code(limit, at, e, out);
                self.lemma_later_children(limit, at, e, own, k + 1, children(e).len() as int);
                self.in_children(limit, at, e, own, k)
            },
        }
    }

    /// What an expression does by itself is kept by every expression that it is inside of.
    proof fn lemma_inside(
        &self,
        limit: nat,
        at: Seq<ScopeView>,
        e: Expression,
        out: ModuleEffectsView,
        c: Expression,
        depth: nat,
    ) -> (before: ModuleEffectsView)
        requires
            inside_at(e, c, depth),
            !(c.node is Lambda),
        ensures
            grown(self.own_code(limit, at, c, before), self.in_code(limit, at, e, out)),
        decreases depth,
    {
        if depth == 0 {
            lemma_same(out);
            self.lemma_own_code(out, limit, at, e, out);
            let own = self.own_code(limit, at, e, out);
            lemma_same(own);
            self.lemma_children(own, limit, at, e, own, children(e).len() as int);
            out
        } else {
            let d = choose|d: Expression| #[trigger] part_of(e, d) && inside_at(d, c, (depth - 1) as nat);
            let first = self.lemma_in_part(limit, at, e, out, d);
            let before = self.lemma_inside(limit, at, d, first, c, (depth - 1) as nat);
            lemma_further(
                self.own_code(limit, at, c, before),
                self.in_code(limit, at, d, first),
                self.in_code(limit, at, e, out),
            );
            before
        }
    }

    proof fn lemma_later_items(
        &self,
        at: Seq<ScopeView>,
        items: Seq<WithItem>,
        out: ModuleEffectsView,
        n: int,
        m: int,
    )
        requires
            0 <= n <= m,
        ensures
            grown(self.in_items(at, items, out, n), self.in_items(at, items, out, m)),
        decreases m - n,
    {
        broadcast use group_grown;

        if n < m {
            self.lemma_later_items(at, items, out, n, m - 1);
            self.lemma_expr(
                self.in_items(at, items, out, n),
                at,
                items[m - 1].context_expr,
                self.in_items(at, items, out, m - 1),
            );
        }
    }

    /// What an expression does is kept by the statement that evaluates it.
    proof fn lemma_evaluated(&self, at: Seq<ScopeView>, s: Statement, out: ModuleEffectsView, e: Expression) -> (before:
        ModuleEffectsView)
        requires
            self.evaluates(s, e),
        ensures
            grown(self.in_expr(at, e, before), self.in_stmt(at, s, out)),
    {
        broadcast use group_grown;

        match s.node {
            StmtNode::Assign { targets, value } => {
                let assigned = self.in_targets(at, targets@, value, out, targets@.len() as int);
                if current_scope(at) == self.module_name@ && targets@.len() > 0 {
                    match targets@[0].node {
                        Node::Name { id } => self.defined_again(at, id@, s.range, assigned),
                        _ => assigned,
                    }
                } else {
                    assigned
                }
            },
            StmtNode::AugAssign { target, .. } => self.assigned_to(at, target, out),
            StmtNode::AnnAssign { target, .. } => self.assigned_to(at, target, out),
            StmtNode::For { target, iter, .. } => {
                let second = self.in_expr(at, target, out);
                let first = self.in_expr(at, iter, second);
                if e == target {
                    self.lemma_expr(second, at, iter, second);
                    self.lemma_blocks(second, at, s, first, blocks(s).len() as int);
                    out
                } else {
                    self.lemma_blocks(first, at, s, first, blocks(s).len() as int);
                    second
                }
            },
            StmtNode::While { test, .. } => {
                let first = self.in_expr(at, test, out);
                self.lemma_blocks(first, at, s, first, blocks(s).len() as int);
                out
            },
            StmtNode::With { items, body } => {
                let n = items@.len() as int;
                let i = choose|i: int| 0 <= i < n && e == (#[trigger] items@[i]).context_expr;
                let before = self.in_items(at, items@, out, i);
                self.lemma_later_items(at, items@, out, i + 1, n);
                self.lemma_eager_stmts(
                    self.in_expr(at, e, before),
                    at,
                    body,
                    self.in_items(at, items@, out, n),
                    body@.len() as int,
                );
                before
            },
            StmtNode::Match { subject, .. } => {
                let first = self.in_expr(at, subject, out);
                self.lemma_blocks(first, at, s, first, blocks(s).len() as int);
                out
            },
            StmtNode::If { branches } => {
                let k = choose|k: int|
                    0 <= k < branches@.len() && #[trigger] counts(
                        self.config.sys_info,
                        optional_name(self.config.main_module),
                        self.module_name@,
                        branches@,
                        k,
                    ) && test_counts(self.config.sys_info, optional_name(self.config.main_module), branches@[k])
                        && branches@[k].test == Some(e);
                let before = self.in_branches(at, branches, out, k);
                let first = self.in_expr(at, e, before);
                let b = branches@[k];
                assert(self.tested(at, b, before) == first);
                self.lemma_stmts(first, at, b.body, first, b.body@.len() as int);
                self.lemma_later_branches(at, branches, out, k + 1, branches@.len() as int);
                lemma_further(
                    first,
                    self.in_branches(at, branches, out, k + 1),
                    self.in_branches(at, branches, out, branches@.len() as int),
                );
                before
            },
            _ => out,
        }
    }

    /// Whatever an expression does by itself, wherever in a module it is evaluated, is among the
    /// effects of the module.
    pub proof fn lemma_is_evaluated(&self, parsed: &ParsedModule, inner: Seq<ScopeView>, e: Expression) -> (before:
        ModuleEffectsView)
        requires
            self.is_evaluated(parsed, inner, e),
            !(e.node is Lambda),
            !parsed.is_thrift_generated,
        ensures
            more_effects(
                self.own_code(source_limit(), inner, e, before).effects,
                source_output(self, parsed).effects,
            ),
    {
        let (t, whole, depth) = choose|t: Statement, whole: Expression, depth: nat|
            #![trigger self.evaluates(t, whole), inside_at(whole, e, depth)]
            self.is_looked_at(parsed, inner, t) && self.evaluates(t, whole) && inside_at(whole, e, depth);
        let first = self.lemma_looked_at(parsed, inner, t);
        let second = self.lemma_evaluated(inner, t, first, whole);
        let before = self.lemma_inside(source_limit(), inner, whole, second, e, depth);
        lemma_further(
            self.own_code(source_limit(), inner, e, before),
            self.in_expr(inner, whole, second),
            self.in_stmt(inner, t, first),
        );
        reveal(grown);
        assert forall|k: Seq<char>, eff: EffectView| #[trigger]
            has_effect(self.own_code(source_limit(), inner, e, before).effects, k, eff) implies has_effect(
            source_output(self, parsed).effects,
            k,
            eff,
        ) by {
            assert(has_effect(self.in_stmt(inner, t, first).effects, k, eff));
        }
        before
    }
}

} // verus!
