//! Where in a scope its names are bound, and that what it defines is just those names.

use crate::ast::{
    children, lemma_children_smaller, Branch, CasePattern, Expression, Handler, ImportAlias, ImportFrom, MatchCase,
    Node, PlacedName, Statement, StmtNode, WithItem,
};
use crate::config::counts;
use crate::definitions::{DefinitionView, DefinitionsView, MutableCaptureKind, StyleView, SymbolKind};
use crate::definitions_builder::{
    bound_range, defined_by, defined_by_branches, defined_by_cases, defined_by_handlers, defined_by_stmt,
    defined_by_stmts, nothing_defined, scope_definitions, style_place, variable, with_assigned, with_definition,
    with_deleted, with_from_names, with_import_names, with_items, with_named, with_names_as, with_pattern,
    with_patterns, with_submodule, with_target, with_targets, with_walrus, with_walrus_in, ScopeAt,
};
use crate::importlib::relative_name;
use crate::module_name::{first_dot, optional_text};
use crate::source_occurrences::{lemma_child_is_part, lemma_part, part_of};
use crate::text_range::TextRange;
use vstd::prelude::*;

verus! {

/// A definition of a variable at a place.
pub open spec fn variable_at(range: TextRange) -> DefinitionView {
    DefinitionView { range, style: StyleView::Unannotated(SymbolKind::Variable) }
}

/// An expression stands directly in another that is assigned to: in a tuple or a list, or behind a star.
pub open spec fn target_part(e: Expression, c: Expression) -> bool {
    match e.node {
        Node::Tuple { elts } => elts@.contains(c),
        Node::List { elts } => elts@.contains(c),
        Node::Starred { value } => c == *value,
        _ => false,
    }
}

/// An expression is another that is assigned to, or stands that many steps inside of it.
pub open spec fn in_target_at(e: Expression, t: Expression, depth: nat) -> bool
    decreases depth,
{
    if depth == 0 {
        e == t
    } else {
        exists|c: Expression| #[trigger] target_part(e, c) && in_target_at(c, t, (depth - 1) as nat)
    }
}

/// An expression is a name, and stands where a definition says.
pub open spec fn names_variable(t: Expression, name: Seq<char>, def: DefinitionView) -> bool {
    t.node matches Node::Name { id } && name == id@ && def == variable_at(t.range)
}

/// To assign to an expression binds a name: the expression is the name, or a tuple or a list in which
/// it stands, at any depth, with a star or without.
pub open spec fn target_binds(e: Expression, name: Seq<char>, def: DefinitionView) -> bool {
    exists|t: Expression, depth: nat| #[trigger] in_target_at(e, t, depth) && names_variable(t, name, def)
}

/// An expression is evaluated directly with another. What is inside of a `lambda` is not.
pub open spec fn evaluated_part(e: Expression, c: Expression) -> bool {
    !(e.node is Lambda) && part_of(e, c)
}

/// An expression is another that is evaluated, or is evaluated that many steps inside of it.
pub open spec fn evaluated_at(e: Expression, t: Expression, depth: nat) -> bool
    decreases depth,
{
    if depth == 0 {
        e == t
    } else {
        exists|c: Expression| #[trigger] evaluated_part(e, c) && evaluated_at(c, t, (depth - 1) as nat)
    }
}

/// An expression is `name := ...`.
pub open spec fn is_walrus(t: Expression, name: Seq<char>, def: DefinitionView) -> bool {
    t.node matches Node::Named { target, .. } && names_variable(*target, name, def)
}

/// To evaluate an expression binds a name: somewhere in it stands `name := ...`, and not inside of a
/// `lambda`.
pub open spec fn walrus_binds(e: Expression, name: Seq<char>, def: DefinitionView) -> bool {
    exists|t: Expression, depth: nat| #[trigger] evaluated_at(e, t, depth) && is_walrus(t, name, def)
}

/// A pattern is another one, or stands that many steps inside of it.
pub open spec fn in_pattern_at(p: CasePattern, q: CasePattern, depth: nat) -> bool
    decreases depth,
{
    if depth == 0 {
        p == q
    } else {
        exists|c: CasePattern| #[trigger] p.parts@.contains(c) && in_pattern_at(c, q, (depth - 1) as nat)
    }
}

/// A pattern captures a name.
pub open spec fn captures(q: CasePattern, name: Seq<char>, def: DefinitionView) -> bool {
    q.name matches Some(n) && name == n.name@ && def == variable_at(n.range)
}

/// To match a pattern binds a name that it captures, or that a part of it does.
pub open spec fn pattern_binds(p: CasePattern, name: Seq<char>, def: DefinitionView) -> bool {
    exists|q: CasePattern, depth: nat| #[trigger] in_pattern_at(p, q, depth) && captures(q, name, def)
}

/// A name stands in a list of names.
pub open spec fn listed_name(names: Seq<PlacedName>, style: StyleView, name: Seq<char>, def: DefinitionView) -> bool {
    exists|i: int| 0 <= i < names.len() && is_listed(#[trigger] names[i], style, name, def)
}

/// An `import` statement binds a name: the one that it gives to a module, or else what stands before
/// the first dot of the module's name.
pub open spec fn import_binds(names: Seq<ImportAlias>, name: Seq<char>, def: DefinitionView) -> bool {
    exists|i: int|
        0 <= i < names.len() && alias_binds(#[trigger] names[i], name, def)
}

/// An entry of an `import` statement binds a name.
pub open spec fn alias_binds(alias: ImportAlias, name: Seq<char>, def: DefinitionView) -> bool {
    &&& name == match alias.asname {
        Some(given) => given@,
        None => if first_dot(alias.name@) < 0 {
            alias.name@
        } else {
            alias.name@.take(first_dot(alias.name@))
        },
    }
    &&& def == (DefinitionView { range: bound_range(alias), style: StyleView::ImportModule(alias.name@) })
}

/// A `from` statement binds a name: the one that it gives to what it imports, or else that of what it
/// imports.
pub open spec fn from_binds(at: ScopeAt, x: ImportFrom, name: Seq<char>, def: DefinitionView) -> bool {
    exists|i: int|
        0 <= i < x.names@.len() && from_alias_binds(
            relative_name(at.module, at.is_init, x.level as nat, optional_text(x.module)),
            #[trigger] x.names@[i],
            name,
            def,
        )
}

/// An entry of a `from` statement binds a name.
pub open spec fn from_alias_binds(
    from: Option<Seq<char>>,
    alias: ImportAlias,
    name: Seq<char>,
    def: DefinitionView,
) -> bool {
    &&& alias.name@ != "*"@
    &&& name == match alias.asname {
        Some(given) => given@,
        None => alias.name@,
    }
    &&& def == (DefinitionView {
        range: bound_range(alias),
        style: match from {
            None => StyleView::ImportInvalidRelative,
            Some(module) => match alias.asname {
                None => StyleView::Import(module),
                Some(given) => if given@ == alias.name@ {
                    StyleView::ImportAsEq(module)
                } else {
                    StyleView::ImportAs(module, alias.name@)
                },
            },
        },
    })
}

/// A statement itself binds a name, apart from the blocks inside of it.
pub open spec fn stmt_binds(at: ScopeAt, s: Statement, name: Seq<char>, def: DefinitionView) -> bool {
    match s.node {
        StmtNode::FunctionDef(f) => name == f.name@ && def == (DefinitionView {
            range: f.name_range,
            style: StyleView::Unannotated(SymbolKind::Function),
        }),
        StmtNode::ClassDef(c) => name == c.name@ && def == (DefinitionView {
            range: c.name_range,
            style: StyleView::Unannotated(SymbolKind::Class),
        }),
        StmtNode::TypeAlias { name: alias } => alias.node matches Node::Name { id } && name == id@ && def == (
        DefinitionView { range: alias.range, style: StyleView::Unannotated(SymbolKind::TypeAlias) }),
        StmtNode::Delete { targets } => exists|i: int|
            0 <= i < targets@.len() && deletes(#[trigger] targets@[i], name, def),
        StmtNode::Assign { targets, value } => {
            ||| walrus_binds(value, name, def)
            ||| exists|i: int| 0 <= i < targets@.len() && target_binds(#[trigger] targets@[i], name, def)
        },
        StmtNode::AugAssign { target, value } => walrus_binds(value, name, def) || target_binds(target, name, def),
        StmtNode::AnnAssign { target, value, .. } => {
            ||| (target.node matches Node::Name { id } && name == id@ && def == (DefinitionView {
                range: target.range,
                style: StyleView::Annotated(SymbolKind::Variable),
            }))
            ||| (value matches Some(v) && walrus_binds(v, name, def))
        },
        StmtNode::Global { names } => listed_name(
            names@,
            StyleView::MutableCapture(MutableCaptureKind::Global),
            name,
            def,
        ),
        StmtNode::Nonlocal { names } => listed_name(
            names@,
            StyleView::MutableCapture(MutableCaptureKind::Nonlocal),
            name,
            def,
        ),
        StmtNode::For { target, iter, .. } => target_binds(target, name, def) || walrus_binds(iter, name, def),
        StmtNode::While { test, .. } => walrus_binds(test, name, def),
        StmtNode::If { branches } => exists|i: int|
            0 <= i < branches@.len() && #[trigger] counts(at.sys, at.main, at.module, branches@, i) && (
            branches@[i].test matches Some(test) && walrus_binds(test, name, def)),
        StmtNode::With { items, .. } => exists|i: int|
            0 <= i < items@.len() && item_binds(#[trigger] items@[i], name, def),
        StmtNode::Match { subject, cases } => {
            ||| walrus_binds(subject, name, def)
            ||| exists|i: int| 0 <= i < cases@.len() && pattern_binds((#[trigger] cases@[i]).pattern, name, def)
        },
        StmtNode::Try { handlers, .. } => exists|i: int|
            0 <= i < handlers@.len() && names_exception(#[trigger] handlers@[i], name, def),
        StmtNode::Import(x) => import_binds(x.names@, name, def),
        StmtNode::ImportFrom(x) => from_binds(at, x, name, def),
        StmtNode::Expr { value, .. } => walrus_binds(value, name, def),
        _ => false,
    }
}

/// A statement holds a block of its scope. Of an `if` statement it is a branch that counts.
pub open spec fn holds_block(at: ScopeAt, s: Statement, b: Seq<Statement>) -> bool {
    match s.node {
        StmtNode::For { body, orelse, .. } => b == body@ || b == orelse@,
        StmtNode::While { body, orelse, .. } => b == body@ || b == orelse@,
        StmtNode::If { branches } => exists|i: int|
            0 <= i < branches@.len() && #[trigger] counts(at.sys, at.main, at.module, branches@, i) && b
                == branches@[i].body@,
        StmtNode::With { body, .. } => b == body@,
        StmtNode::Match { cases, .. } => exists|i: int| 0 <= i < cases@.len() && b == (#[trigger] cases@[i]).body@,
        StmtNode::Try { body, handlers, orelse, finalbody } => b == body@ || b == orelse@ || b == finalbody@ || (
        exists|i: int| 0 <= i < handlers@.len() && b == (#[trigger] handlers@[i]).body@),
        _ => false,
    }
}

/// A statement stands among some statements of a scope, or that many blocks deep inside of them.
pub open spec fn stands_at(at: ScopeAt, stmts: Seq<Statement>, t: Statement, depth: nat) -> bool
    decreases depth,
{
    if depth == 0 {
        stmts.contains(t)
    } else {
        exists|i: int, b: Seq<Statement>|
            0 <= i < stmts.len() && #[trigger] holds_block(at, stmts[i], b) && stands_at(at, b, t, (depth - 1) as nat)
    }
}

/// Somewhere among some statements of a scope, at any depth of blocks, a name is bound.
pub open spec fn is_bound(at: ScopeAt, stmts: Seq<Statement>, name: Seq<char>, def: DefinitionView) -> bool {
    exists|t: Statement, depth: nat| #[trigger] stands_at(at, stmts, t, depth) && stmt_binds(at, t, name, def)
}

/// A name is defined, at least as firmly as in a given style.
pub open spec fn is_defined(d: DefinitionsView, name: Seq<char>, style: StyleView) -> bool {
    d.definitions.contains_key(name) && style_place(d.definitions[name].style) <= style_place(style)
}

type Bindings = spec_fn(Seq<char>, DefinitionView) -> bool;

/// What is defined after a step: all that was before, as firmly, all of some bindings, and nothing that
/// was not before and is none of some other bindings.
spec fn steps(d: DefinitionsView, after: DefinitionsView, adds: Bindings, may_add: Bindings) -> bool {
    &&& forall|n: Seq<char>| #[trigger]
        d.definitions.contains_key(n) ==> is_defined(after, n, d.definitions[n].style)
    &&& forall|n: Seq<char>, def: DefinitionView| #[trigger] adds(n, def) ==> is_defined(after, n, def.style)
    &&& forall|n: Seq<char>| #[trigger]
        after.definitions.contains_key(n) ==> (d.definitions.contains_key(n) && after.definitions[n]
            == d.definitions[n]) || may_add(n, after.definitions[n])
}

proof fn lemma_definition(d: DefinitionsView, name: Seq<char>, range: TextRange, style: StyleView, p: Bindings)
    requires
        p(name, DefinitionView { range, style }),
    ensures
        steps(
            d,
            with_definition(d, name, range, style),
            |n: Seq<char>, def: DefinitionView| n == name && def == (DefinitionView { range, style }),
            p,
        ),
{
}

/// Two steps, one after the other.
proof fn lemma_two(
    d: DefinitionsView,
    mid: DefinitionsView,
    after: DefinitionsView,
    first: Bindings,
    second: Bindings,
    p: Bindings,
)
    requires
        steps(d, mid, first, p),
        steps(mid, after, second, p),
    ensures
        steps(d, after, |n: Seq<char>, def: DefinitionView| first(n, def) || second(n, def), p),
{
    let both = |n: Seq<char>, def: DefinitionView| first(n, def) || second(n, def);
    assert forall|n: Seq<char>| #[trigger] d.definitions.contains_key(n) implies is_defined(
        after,
        n,
        d.definitions[n].style,
    ) by {
        assert(is_defined(mid, n, d.definitions[n].style));
        assert(is_defined(after, n, mid.definitions[n].style));
    }
    assert forall|n: Seq<char>, def: DefinitionView| #[trigger] both(n, def) implies is_defined(after, n, def.style) by {
        if first(n, def) {
            assert(is_defined(mid, n, def.style));
            assert(is_defined(after, n, mid.definitions[n].style));
        }
    }
}

/// A step adds no less than another set of bindings that it covers.
proof fn lemma_covers(d: DefinitionsView, after: DefinitionsView, adds: Bindings, fewer: Bindings, p: Bindings)
    requires
        steps(d, after, adds, p),
        forall|n: Seq<char>, def: DefinitionView| #[trigger] fewer(n, def) ==> adds(n, def),
    ensures
        steps(d, after, fewer, p),
{
}

proof fn lemma_none(d: DefinitionsView, p: Bindings)
    ensures
        steps(d, d, |n: Seq<char>, def: DefinitionView| false, p),
{
}

proof fn lemma_target_deeper(e: Expression, c: Expression)
    requires
        target_part(e, c),
    ensures
        forall|n: Seq<char>, def: DefinitionView| #[trigger] target_binds(c, n, def) ==> target_binds(e, n, def),
{
    assert forall|n: Seq<char>, def: DefinitionView| #[trigger] target_binds(c, n, def) implies target_binds(
        e,
        n,
        def,
    ) by {
        let (t, depth) = choose|t: Expression, depth: nat| #[trigger]
            in_target_at(c, t, depth) && names_variable(t, n, def);
        assert(target_part(e, c) && in_target_at(c, t, depth));
        assert(in_target_at(e, t, depth + 1));
    }
}

proof fn lemma_target_split(e: Expression, n: Seq<char>, def: DefinitionView)
    requires
        target_binds(e, n, def),
    ensures
        names_variable(e, n, def) || exists|c: Expression| #[trigger] target_part(e, c) && target_binds(c, n, def),
{
    let (t, depth) = choose|t: Expression, depth: nat| #[trigger]
        in_target_at(e, t, depth) && names_variable(t, n, def);
    if depth > 0 {
        let c = choose|c: Expression| #[trigger] target_part(e, c) && in_target_at(c, t, (depth - 1) as nat);
        assert(in_target_at(c, t, (depth - 1) as nat));
        assert(target_part(e, c) && target_binds(c, n, def));
    }
}

proof fn lemma_target(d: DefinitionsView, e: Expression, p: Bindings)
    requires
        forall|n: Seq<char>, def: DefinitionView| #[trigger] target_binds(e, n, def) ==> p(n, def),
    ensures
        steps(d, with_target(d, e), |n: Seq<char>, def: DefinitionView| target_binds(e, n, def), p),
    decreases e, 1nat, 0int,
{
    let adds = |n: Seq<char>, def: DefinitionView| target_binds(e, n, def);
    let after = with_target(d, e);
    match e.node {
        Node::Name { id } => {
            assert(in_target_at(e, e, 0));
            assert(target_binds(e, id@, variable_at(e.range)));
            lemma_definition(d, id@, e.range, variable(), p);
            assert forall|n: Seq<char>, def: DefinitionView| #[trigger] adds(n, def) implies is_defined(
                after,
                n,
                def.style,
            ) by {
                lemma_target_split(e, n, def);
            }
        },
        Node::Tuple { elts } => lemma_elements(d, e, elts, p),
        Node::List { elts } => lemma_elements(d, e, elts, p),
        Node::Starred { value } => {
            lemma_target_deeper(e, *value);
            lemma_target(d, *value, p);
            assert forall|n: Seq<char>, def: DefinitionView| #[trigger] adds(n, def) implies target_binds(
                *value,
                n,
                def,
            ) by {
                lemma_target_split(e, n, def);
            }
            lemma_covers(d, after, |n: Seq<char>, def: DefinitionView| target_binds(*value, n, def), adds, p);
        },
        _ => {
            assert forall|n: Seq<char>, def: DefinitionView| !#[trigger] adds(n, def) by {
                if adds(n, def) {
                    lemma_target_split(e, n, def);
                }
            }
        },
    }
}

proof fn lemma_elements(d: DefinitionsView, e: Expression, elts: Vec<Expression>, p: Bindings)
    requires
        e.node == (Node::Tuple { elts }) || e.node == (Node::List { elts }),
        forall|n: Seq<char>, def: DefinitionView| #[trigger] target_binds(e, n, def) ==> p(n, def),
    ensures
        steps(
            d,
            with_targets(d, elts, elts@.len() as int),
            |n: Seq<char>, def: DefinitionView| target_binds(e, n, def),
            p,
        ),
    decreases elts, 1nat, 0int,
{
    let adds = |n: Seq<char>, def: DefinitionView| target_binds(e, n, def);
    assert forall|i: int, n: Seq<char>, def: DefinitionView|
        0 <= i < elts@.len() && #[trigger] target_binds(elts@[i], n, def) implies p(n, def) by {
        assert(target_part(e, elts@[i]));
        lemma_target_deeper(e, elts@[i]);
    }
    lemma_targets(d, elts, elts@.len() as int, p);
    let listed = |n: Seq<char>, def: DefinitionView|
        exists|i: int| 0 <= i < elts@.len() && #[trigger] target_binds(elts@[i], n, def);
    assert forall|n: Seq<char>, def: DefinitionView| #[trigger] adds(n, def) implies listed(n, def) by {
        lemma_target_split(e, n, def);
        let c = choose|c: Expression| #[trigger] target_part(e, c) && target_binds(c, n, def);
        let i = elts@.index_of(c);
        assert(target_binds(elts@[i], n, def));
    }
    lemma_covers(d, with_targets(d, elts, elts@.len() as int), listed, adds, p);
}

proof fn lemma_targets(d: DefinitionsView, elts: Vec<Expression>, n: int, p: Bindings)
    requires
        0 <= n <= elts@.len(),
        forall|i: int, name: Seq<char>, def: DefinitionView|
            0 <= i < elts@.len() && #[trigger] target_binds(elts@[i], name, def) ==> p(name, def),
    ensures
        steps(
            d,
            with_targets(d, elts, n),
            |name: Seq<char>, def: DefinitionView|
                exists|i: int| 0 <= i < n && #[trigger] target_binds(elts@[i], name, def),
            p,
        ),
    decreases elts, 0nat, n,
{
    let adds = |name: Seq<char>, def: DefinitionView|
        exists|i: int| 0 <= i < n && #[trigger] target_binds(elts@[i], name, def);
    if n > 0 {
        lemma_targets(d, elts, n - 1, p);
        let mid = with_targets(d, elts, n - 1);
        lemma_target(mid, elts@[n - 1], p);
        let first = |name: Seq<char>, def: DefinitionView|
            exists|i: int| 0 <= i < n - 1 && #[trigger] target_binds(elts@[i], name, def);
        let second = |name: Seq<char>, def: DefinitionView| target_binds(elts@[n - 1], name, def);
        let after = with_targets(d, elts, n);
        lemma_two(d, mid, after, first, second, p);
        assert forall|name: Seq<char>, def: DefinitionView| #[trigger] adds(name, def) implies first(name, def)
            || second(name, def) by {
            let i = choose|i: int| 0 <= i < n && #[trigger] target_binds(elts@[i], name, def);
            assert(target_binds(elts@[i], name, def));
        }
        lemma_covers(
            d,
            after,
            |name: Seq<char>, def: DefinitionView| first(name, def) || second(name, def),
            adds,
            p,
        );
    } else {
        lemma_none(d, p);
        assert forall|name: Seq<char>, def: DefinitionView| !#[trigger] adds(name, def) by {}
    }
}

proof fn lemma_walrus_deeper(e: Expression, c: Expression)
    requires
        evaluated_part(e, c),
    ensures
        forall|n: Seq<char>, def: DefinitionView| #[trigger] walrus_binds(c, n, def) ==> walrus_binds(e, n, def),
{
    assert forall|n: Seq<char>, def: DefinitionView| #[trigger] walrus_binds(c, n, def) implies walrus_binds(
        e,
        n,
        def,
    ) by {
        let (t, depth) = choose|t: Expression, depth: nat| #[trigger] evaluated_at(c, t, depth) && is_walrus(t, n, def);
        assert(evaluated_part(e, c) && evaluated_at(c, t, depth));
        assert(evaluated_at(e, t, depth + 1));
    }
}

proof fn lemma_walrus_split(e: Expression, n: Seq<char>, def: DefinitionView)
    requires
        walrus_binds(e, n, def),
    ensures
        is_walrus(e, n, def) || exists|c: Expression| #[trigger] evaluated_part(e, c) && walrus_binds(c, n, def),
{
    let (t, depth) = choose|t: Expression, depth: nat| #[trigger] evaluated_at(e, t, depth) && is_walrus(t, n, def);
    if depth > 0 {
        let c = choose|c: Expression| #[trigger] evaluated_part(e, c) && evaluated_at(c, t, (depth - 1) as nat);
        assert(evaluated_at(c, t, (depth - 1) as nat));
        assert(evaluated_part(e, c) && walrus_binds(c, n, def));
    }
}

/// The bindings of the first `n` of some things.
spec fn some_of(b: spec_fn(int, Seq<char>, DefinitionView) -> bool, n: int) -> Bindings {
    |name: Seq<char>, def: DefinitionView| exists|i: int| 0 <= i < n && #[trigger] b(i, name, def)
}

/// One more of some things is looked at.
proof fn lemma_next(
    d: DefinitionsView,
    mid: DefinitionsView,
    after: DefinitionsView,
    b: spec_fn(int, Seq<char>, DefinitionView) -> bool,
    n: int,
    p: Bindings,
)
    requires
        n > 0,
        steps(d, mid, some_of(b, n - 1), p),
        steps(mid, after, |name: Seq<char>, def: DefinitionView| b(n - 1, name, def), p),
    ensures
        steps(d, after, some_of(b, n), p),
{
    let first = some_of(b, n - 1);
    let second = |name: Seq<char>, def: DefinitionView| b(n - 1, name, def);
    lemma_two(d, mid, after, first, second, p);
    let all = some_of(b, n);
    assert forall|name: Seq<char>, def: DefinitionView| #[trigger] all(name, def) implies first(name, def) || second(
        name,
        def,
    ) by {
        let i = choose|i: int| 0 <= i < n && #[trigger] b(i, name, def);
        assert(b(i, name, def));
    }
    lemma_covers(d, after, |name: Seq<char>, def: DefinitionView| first(name, def) || second(name, def), all, p);
}

proof fn lemma_no_more(d: DefinitionsView, b: spec_fn(int, Seq<char>, DefinitionView) -> bool, n: int, p: Bindings)
    requires
        n <= 0,
    ensures
        steps(d, d, some_of(b, n), p),
{
    let all = some_of(b, n);
    assert forall|name: Seq<char>, def: DefinitionView| !#[trigger] all(name, def) by {}
}

/// All of some things are looked at, and there are no other bindings than theirs.
proof fn lemma_all_of(
    d: DefinitionsView,
    after: DefinitionsView,
    b: spec_fn(int, Seq<char>, DefinitionView) -> bool,
    n: int,
    adds: Bindings,
    p: Bindings,
)
    requires
        steps(d, after, some_of(b, n), p),
        forall|name: Seq<char>, def: DefinitionView| #[trigger]
            adds(name, def) ==> exists|i: int| 0 <= i < n && #[trigger] b(i, name, def),
    ensures
        steps(d, after, adds, p),
{
    let all = some_of(b, n);
    assert forall|name: Seq<char>, def: DefinitionView| #[trigger] adds(name, def) implies all(name, def) by {}
    lemma_covers(d, after, all, adds, p);
}

proof fn lemma_walrus(d: DefinitionsView, e: Expression, p: Bindings)
    requires
        forall|n: Seq<char>, def: DefinitionView| #[trigger] walrus_binds(e, n, def) ==> p(n, def),
    ensures
        steps(d, with_walrus(d, e), |n: Seq<char>, def: DefinitionView| walrus_binds(e, n, def), p),
    decreases e, 1nat, 0int,
{
    let adds = |n: Seq<char>, def: DefinitionView| walrus_binds(e, n, def);
    let own = |n: Seq<char>, def: DefinitionView| is_walrus(e, n, def);
    let after = with_walrus(d, e);
    let d1 = match e.node {
        Node::Named { target, .. } => with_named(d, *target),
        _ => d,
    };
    assert(evaluated_at(e, e, 0));
    assert forall|n: Seq<char>, def: DefinitionView| #[trigger] own(n, def) implies walrus_binds(e, n, def) by {}
    assert(steps(d, d1, own, p)) by {
        match e.node {
            Node::Named { target, .. } => {
                match target.node {
                    Node::Name { id } => {
                        assert(own(id@, variable_at(target.range)));
                        lemma_definition(d, id@, target.range, variable(), p);
                    },
                    _ => {},
                }
            },
            _ => {},
        }
    }
    if e.node is Lambda {
        assert forall|n: Seq<char>, def: DefinitionView| #[trigger] adds(n, def) implies own(n, def) by {
            lemma_walrus_split(e, n, def);
        }
        lemma_covers(d, after, own, adds, p);
    } else {
        let len = children(e).len() as int;
        assert forall|k: int, n: Seq<char>, def: DefinitionView|
            0 <= k < len && #[trigger] walrus_binds(children(e)[k], n, def) implies p(n, def) by {
            lemma_child_is_part(e, k);
            lemma_walrus_deeper(e, children(e)[k]);
        }
        lemma_walrus_in(d1, e, len, p);
        let b = |i: int, n: Seq<char>, def: DefinitionView| walrus_binds(children(e)[i], n, def);
        let inside = some_of(b, len);
        lemma_two(d, d1, after, own, inside, p);
        assert forall|n: Seq<char>, def: DefinitionView| #[trigger] adds(n, def) implies own(n, def) || inside(n, def) by {
            lemma_walrus_split(e, n, def);
            if !is_walrus(e, n, def) {
                let c = choose|c: Expression| #[trigger] evaluated_part(e, c) && walrus_binds(c, n, def);
                let k = lemma_part(e, c);
                assert(b(k, n, def));
            }
        }
        lemma_covers(d, after, |n: Seq<char>, def: DefinitionView| own(n, def) || inside(n, def), adds, p);
    }
}

proof fn lemma_walrus_in(d: DefinitionsView, e: Expression, n: int, p: Bindings)
    requires
        0 <= n <= children(e).len(),
        forall|k: int, name: Seq<char>, def: DefinitionView|
            0 <= k < children(e).len() && #[trigger] walrus_binds(children(e)[k], name, def) ==> p(name, def),
    ensures
        steps(
            d,
            with_walrus_in(d, e, n),
            some_of(|i: int, name: Seq<char>, def: DefinitionView| walrus_binds(children(e)[i], name, def), n),
            p,
        ),
    decreases e, 0nat, n,
{
    let b = |i: int, name: Seq<char>, def: DefinitionView| walrus_binds(children(e)[i], name, def);
    if n > 0 {
        lemma_children_smaller(e, n - 1);
        lemma_walrus_in(d, e, n - 1, p);
        let mid = with_walrus_in(d, e, n - 1);
        lemma_walrus(mid, children(e)[n - 1], p);
        let after = with_walrus_in(d, e, n);
        lemma_covers(
            mid,
            after,
            |name: Seq<char>, def: DefinitionView| walrus_binds(children(e)[n - 1], name, def),
            |name: Seq<char>, def: DefinitionView| b(n - 1, name, def),
            p,
        );
        lemma_next(d, mid, after, b, n, p);
    } else {
        lemma_no_more(d, b, n, p);
    }
}

proof fn lemma_pattern_deeper(p: CasePattern, c: CasePattern)
    requires
        p.parts@.contains(c),
    ensures
        forall|n: Seq<char>, def: DefinitionView| #[trigger] pattern_binds(c, n, def) ==> pattern_binds(p, n, def),
{
    assert forall|n: Seq<char>, def: DefinitionView| #[trigger] pattern_binds(c, n, def) implies pattern_binds(
        p,
        n,
        def,
    ) by {
        let (q, depth) = choose|q: CasePattern, depth: nat| #[trigger] in_pattern_at(c, q, depth) && captures(q, n, def);
        assert(p.parts@.contains(c) && in_pattern_at(c, q, depth));
        assert(in_pattern_at(p, q, depth + 1));
    }
}

proof fn lemma_pattern_split(p: CasePattern, n: Seq<char>, def: DefinitionView)
    requires
        pattern_binds(p, n, def),
    ensures
        captures(p, n, def) || exists|c: CasePattern| #[trigger] p.parts@.contains(c) && pattern_binds(c, n, def),
{
    let (q, depth) = choose|q: CasePattern, depth: nat| #[trigger] in_pattern_at(p, q, depth) && captures(q, n, def);
    if depth > 0 {
        let c = choose|c: CasePattern| #[trigger] p.parts@.contains(c) && in_pattern_at(c, q, (depth - 1) as nat);
        assert(in_pattern_at(c, q, (depth - 1) as nat));
        assert(p.parts@.contains(c) && pattern_binds(c, n, def));
    }
}

proof fn lemma_pattern(d: DefinitionsView, q: CasePattern, p: Bindings)
    requires
        forall|n: Seq<char>, def: DefinitionView| #[trigger] pattern_binds(q, n, def) ==> p(n, def),
    ensures
        steps(d, with_pattern(d, q), |n: Seq<char>, def: DefinitionView| pattern_binds(q, n, def), p),
    decreases q, 1nat, 0int,
{
    let adds = |n: Seq<char>, def: DefinitionView| pattern_binds(q, n, def);
    let own = |n: Seq<char>, def: DefinitionView| captures(q, n, def);
    let len = q.parts@.len() as int;
    let d1 = with_patterns(d, q.parts, len);
    let after = with_pattern(d, q);
    assert(in_pattern_at(q, q, 0));
    assert forall|i: int, n: Seq<char>, def: DefinitionView|
        0 <= i < len && #[trigger] pattern_binds(q.parts@[i], n, def) implies p(n, def) by {
        assert(q.parts@.contains(q.parts@[i]));
        lemma_pattern_deeper(q, q.parts@[i]);
    }
    lemma_patterns(d, q.parts, len, p);
    let b = |i: int, n: Seq<char>, def: DefinitionView| pattern_binds(q.parts@[i], n, def);
    let inside = some_of(b, len);
    assert(steps(d1, after, own, p)) by {
        match q.name {
            Some(name) => {
                assert(captures(q, name.name@, variable_at(name.range)));
                assert(pattern_binds(q, name.name@, variable_at(name.range)));
                lemma_definition(d1, name.name@, name.range, variable(), p);
            },
            None => {},
        }
    }
    lemma_two(d, d1, after, inside, own, p);
    assert forall|n: Seq<char>, def: DefinitionView| #[trigger] adds(n, def) implies inside(n, def) || own(n, def) by {
        lemma_pattern_split(q, n, def);
        if !captures(q, n, def) {
            let c = choose|c: CasePattern| #[trigger] q.parts@.contains(c) && pattern_binds(c, n, def);
            assert(b(q.parts@.index_of(c), n, def));
        }
    }
    lemma_covers(d, after, |n: Seq<char>, def: DefinitionView| inside(n, def) || own(n, def), adds, p);
}

proof fn lemma_patterns(d: DefinitionsView, parts: Vec<CasePattern>, n: int, p: Bindings)
    requires
        0 <= n <= parts@.len(),
        forall|i: int, name: Seq<char>, def: DefinitionView|
            0 <= i < parts@.len() && #[trigger] pattern_binds(parts@[i], name, def) ==> p(name, def),
    ensures
        steps(
            d,
            with_patterns(d, parts, n),
            some_of(|i: int, name: Seq<char>, def: DefinitionView| pattern_binds(parts@[i], name, def), n),
            p,
        ),
    decreases parts, 0nat, n,
{
    let b = |i: int, name: Seq<char>, def: DefinitionView| pattern_binds(parts@[i], name, def);
    if n > 0 {
        lemma_patterns(d, parts, n - 1, p);
        let mid = with_patterns(d, parts, n - 1);
        lemma_pattern(mid, parts@[n - 1], p);
        let after = with_patterns(d, parts, n);
        lemma_covers(
            mid,
            after,
            |name: Seq<char>, def: DefinitionView| pattern_binds(parts@[n - 1], name, def),
            |name: Seq<char>, def: DefinitionView| b(n - 1, name, def),
            p,
        );
        lemma_next(d, mid, after, b, n, p);
    } else {
        lemma_no_more(d, b, n, p);
    }
}

proof fn lemma_assigned(d: DefinitionsView, targets: Seq<Expression>, value: Expression, n: int, p: Bindings)
    requires
        0 <= n <= targets.len(),
        forall|i: int, name: Seq<char>, def: DefinitionView|
            0 <= i < targets.len() && #[trigger] target_binds(targets[i], name, def) ==> p(name, def),
    ensures
        steps(
            d,
            with_assigned(d, targets, value, n),
            some_of(|i: int, name: Seq<char>, def: DefinitionView| target_binds(targets[i], name, def), n),
            p,
        ),
    decreases n,
{
    let b = |i: int, name: Seq<char>, def: DefinitionView| target_binds(targets[i], name, def);
    if n > 0 {
        lemma_assigned(d, targets, value, n - 1, p);
        let mid = with_assigned(d, targets, value, n - 1);
        lemma_target(mid, targets[n - 1], p);
        let after = with_assigned(d, targets, value, n);
        assert(after.definitions == with_target(mid, targets[n - 1]).definitions);
        lemma_covers(
            mid,
            after,
            |name: Seq<char>, def: DefinitionView| target_binds(targets[n - 1], name, def),
            |name: Seq<char>, def: DefinitionView| b(n - 1, name, def),
            p,
        );
        lemma_next(d, mid, after, b, n, p);
    } else {
        lemma_no_more(d, b, n, p);
    }
}

/// A target of a `del` statement is a name.
pub open spec fn deletes(t: Expression, name: Seq<char>, def: DefinitionView) -> bool {
    t.node matches Node::Name { id } && name == id@ && def == (DefinitionView { range: t.range, style: StyleView::Delete })
}

proof fn lemma_deleted(d: DefinitionsView, targets: Seq<Expression>, n: int, p: Bindings)
    requires
        0 <= n <= targets.len(),
        forall|i: int, name: Seq<char>, def: DefinitionView|
            0 <= i < targets.len() && #[trigger] deletes(targets[i], name, def) ==> p(name, def),
    ensures
        steps(
            d,
            with_deleted(d, targets, n),
            some_of(|i: int, name: Seq<char>, def: DefinitionView| deletes(targets[i], name, def), n),
            p,
        ),
    decreases n,
{
    let b = |i: int, name: Seq<char>, def: DefinitionView| deletes(targets[i], name, def);
    if n > 0 {
        lemma_deleted(d, targets, n - 1, p);
        let mid = with_deleted(d, targets, n - 1);
        let after = with_deleted(d, targets, n);
        let t = targets[n - 1];
        match t.node {
            Node::Name { id } => {
                assert(deletes(targets[n - 1], id@, DefinitionView { range: t.range, style: StyleView::Delete }));
                lemma_definition(mid, id@, t.range, StyleView::Delete, p);
            },
            _ => {},
        }
        assert(steps(mid, after, |name: Seq<char>, def: DefinitionView| b(n - 1, name, def), p));
        lemma_next(d, mid, after, b, n, p);
    } else {
        lemma_no_more(d, b, n, p);
    }
}

/// A name of a list is the one that is bound.
pub open spec fn is_listed(x: PlacedName, style: StyleView, name: Seq<char>, def: DefinitionView) -> bool {
    name == x.name@ && def == (DefinitionView { range: x.range, style })
}

proof fn lemma_listed(d: DefinitionsView, names: Seq<PlacedName>, style: StyleView, n: int, p: Bindings)
    requires
        0 <= n <= names.len(),
        forall|i: int, name: Seq<char>, def: DefinitionView|
            0 <= i < names.len() && #[trigger] is_listed(names[i], style, name, def) ==> p(name, def),
    ensures
        steps(
            d,
            with_names_as(d, names, style, n),
            some_of(|i: int, name: Seq<char>, def: DefinitionView| is_listed(names[i], style, name, def), n),
            p,
        ),
    decreases n,
{
    let b = |i: int, name: Seq<char>, def: DefinitionView| is_listed(names[i], style, name, def);
    if n > 0 {
        lemma_listed(d, names, style, n - 1, p);
        let mid = with_names_as(d, names, style, n - 1);
        let after = with_names_as(d, names, style, n);
        let x = names[n - 1];
        assert(is_listed(names[n - 1], style, x.name@, DefinitionView { range: x.range, style }));
        lemma_definition(mid, x.name@, x.range, style, p);
        assert(steps(mid, after, |name: Seq<char>, def: DefinitionView| b(n - 1, name, def), p));
        lemma_next(d, mid, after, b, n, p);
    } else {
        lemma_no_more(d, b, n, p);
    }
}

proof fn lemma_imported(at: ScopeAt, d: DefinitionsView, names: Seq<ImportAlias>, n: int, p: Bindings)
    requires
        0 <= n <= names.len(),
        forall|i: int, name: Seq<char>, def: DefinitionView|
            0 <= i < names.len() && #[trigger] alias_binds(names[i], name, def) ==> p(name, def),
    ensures
        steps(
            d,
            with_import_names(at, d, names, n),
            some_of(|i: int, name: Seq<char>, def: DefinitionView| alias_binds(names[i], name, def), n),
            p,
        ),
    decreases n,
{
    let b = |i: int, name: Seq<char>, def: DefinitionView| alias_binds(names[i], name, def);
    if n > 0 {
        lemma_imported(at, d, names, n - 1, p);
        let mid = with_import_names(at, d, names, n - 1);
        let after = with_import_names(at, d, names, n);
        let x = names[n - 1];
        let bound = match x.asname {
            Some(given) => given@,
            None => if first_dot(x.name@) < 0 {
                x.name@
            } else {
                x.name@.take(first_dot(x.name@))
            },
        };
        let style = StyleView::ImportModule(x.name@);
        assert(alias_binds(names[n - 1], bound, DefinitionView { range: bound_range(x), style }));
        lemma_definition(mid, bound, bound_range(x), style, p);
        assert(after.definitions == with_definition(mid, bound, bound_range(x), style).definitions);
        assert(steps(mid, after, |name: Seq<char>, def: DefinitionView| b(n - 1, name, def), p));
        lemma_next(d, mid, after, b, n, p);
    } else {
        lemma_no_more(d, b, n, p);
    }
}

proof fn lemma_from(d: DefinitionsView, from: Option<Seq<char>>, names: Seq<ImportAlias>, n: int, p: Bindings)
    requires
        0 <= n <= names.len(),
        forall|i: int, name: Seq<char>, def: DefinitionView|
            0 <= i < names.len() && #[trigger] from_alias_binds(from, names[i], name, def) ==> p(name, def),
    ensures
        steps(
            d,
            with_from_names(d, from, names, n),
            some_of(|i: int, name: Seq<char>, def: DefinitionView| from_alias_binds(from, names[i], name, def), n),
            p,
        ),
    decreases n,
{
    let b = |i: int, name: Seq<char>, def: DefinitionView| from_alias_binds(from, names[i], name, def);
    if n > 0 {
        lemma_from(d, from, names, n - 1, p);
        let mid = with_from_names(d, from, names, n - 1);
        let after = with_from_names(d, from, names, n);
        let x = names[n - 1];
        if x.name@ != "*"@ {
            let bound = match x.asname {
                Some(given) => given@,
                None => x.name@,
            };
            let style = match from {
                None => StyleView::ImportInvalidRelative,
                Some(module) => match x.asname {
                    None => StyleView::Import(module),
                    Some(given) => if given@ == x.name@ {
                        StyleView::ImportAsEq(module)
                    } else {
                        StyleView::ImportAs(module, x.name@)
                    },
                },
            };
            assert(from_alias_binds(from, names[n - 1], bound, DefinitionView { range: bound_range(x), style }));
            lemma_definition(mid, bound, bound_range(x), style, p);
            assert(after.definitions == with_definition(mid, bound, bound_range(x), style).definitions);
        }
        assert(steps(mid, after, |name: Seq<char>, def: DefinitionView| b(n - 1, name, def), p));
        lemma_next(d, mid, after, b, n, p);
    } else {
        lemma_no_more(d, b, n, p);
    }
}

/// An item of a `with` statement binds a name.
pub open spec fn item_binds(item: WithItem, name: Seq<char>, def: DefinitionView) -> bool {
    walrus_binds(item.context_expr, name, def) || (item.vars matches Some(vars) && target_binds(vars, name, def))
}

proof fn lemma_items(d: DefinitionsView, items: Seq<WithItem>, n: int, p: Bindings)
    requires
        0 <= n <= items.len(),
        forall|i: int, name: Seq<char>, def: DefinitionView|
            0 <= i < items.len() && #[trigger] item_binds(items[i], name, def) ==> p(name, def),
    ensures
        steps(
            d,
            with_items(d, items, n),
            some_of(|i: int, name: Seq<char>, def: DefinitionView| item_binds(items[i], name, def), n),
            p,
        ),
    decreases n,
{
    let b = |i: int, name: Seq<char>, def: DefinitionView| item_binds(items[i], name, def);
    if n > 0 {
        lemma_items(d, items, n - 1, p);
        let mid = with_items(d, items, n - 1);
        let after = with_items(d, items, n);
        let x = items[n - 1];
        let d1 = with_walrus(mid, x.context_expr);
        let first = |name: Seq<char>, def: DefinitionView| walrus_binds(x.context_expr, name, def);
        let own = |name: Seq<char>, def: DefinitionView| b(n - 1, name, def);
        assert forall|name: Seq<char>, def: DefinitionView| #[trigger]
            walrus_binds(x.context_expr, name, def) implies p(name, def) by {
            assert(item_binds(items[n - 1], name, def));
        }
        lemma_walrus(mid, x.context_expr, p);
        match x.vars {
            Some(vars) => {
                assert forall|name: Seq<char>, def: DefinitionView| #[trigger]
                    target_binds(vars, name, def) implies p(name, def) by {
                    assert(item_binds(items[n - 1], name, def));
                }
                lemma_target(d1, vars, p);
                let second = |name: Seq<char>, def: DefinitionView| target_binds(vars, name, def);
                lemma_two(mid, d1, after, first, second, p);
                lemma_covers(
                    mid,
                    after,
                    |name: Seq<char>, def: DefinitionView| first(name, def) || second(name, def),
                    own,
                    p,
                );
            },
            None => lemma_covers(mid, after, first, own, p),
        }
        lemma_next(d, mid, after, b, n, p);
    } else {
        lemma_no_more(d, b, n, p);
    }
}

/// A statement binds a name, itself or in a block inside of it.
spec fn bound_in(at: ScopeAt, s: Statement, name: Seq<char>, def: DefinitionView) -> bool {
    stmt_binds(at, s, name, def) || exists|b: Seq<Statement>| #[trigger]
        holds_block(at, s, b) && is_bound(at, b, name, def)
}

proof fn lemma_bound_deeper(at: ScopeAt, stmts: Seq<Statement>, i: int, name: Seq<char>, def: DefinitionView)
    requires
        0 <= i < stmts.len(),
        bound_in(at, stmts[i], name, def),
    ensures
        is_bound(at, stmts, name, def),
{
    if stmt_binds(at, stmts[i], name, def) {
        assert(stands_at(at, stmts, stmts[i], 0));
    } else {
        let b = choose|b: Seq<Statement>| #[trigger] holds_block(at, stmts[i], b) && is_bound(at, b, name, def);
        let (t, depth) = choose|t: Statement, depth: nat| #[trigger]
            stands_at(at, b, t, depth) && stmt_binds(at, t, name, def);
        assert(holds_block(at, stmts[i], b) && stands_at(at, b, t, depth));
        assert(stands_at(at, stmts, t, depth + 1));
    }
}

proof fn lemma_bound_split(at: ScopeAt, stmts: Seq<Statement>, name: Seq<char>, def: DefinitionView) -> (i: int)
    requires
        is_bound(at, stmts, name, def),
    ensures
        0 <= i < stmts.len(),
        bound_in(at, stmts[i], name, def),
{
    let (t, depth) = choose|t: Statement, depth: nat| #[trigger]
        stands_at(at, stmts, t, depth) && stmt_binds(at, t, name, def);
    if depth == 0 {
        stmts.index_of(t)
    } else {
        let (i, b) = choose|i: int, b: Seq<Statement>|
            0 <= i < stmts.len() && #[trigger] holds_block(at, stmts[i], b) && stands_at(at, b, t, (depth - 1) as nat);
        assert(stands_at(at, b, t, (depth - 1) as nat));
        assert(holds_block(at, stmts[i], b) && is_bound(at, b, name, def));
        i
    }
}

proof fn lemma_block(at: ScopeAt, d: DefinitionsView, stmts: Seq<Statement>, p: Bindings)
    requires
        forall|n: Seq<char>, def: DefinitionView| #[trigger] is_bound(at, stmts, n, def) ==> p(n, def),
    ensures
        steps(d, defined_by(at, d, stmts), |n: Seq<char>, def: DefinitionView| is_bound(at, stmts, n, def), p),
    decreases stmts, 3nat, 0int,
{
    let len = stmts.len() as int;
    assert forall|i: int, n: Seq<char>, def: DefinitionView|
        0 <= i < len && #[trigger] bound_in(at, stmts[i], n, def) implies p(n, def) by {
        lemma_bound_deeper(at, stmts, i, n, def);
    }
    lemma_stmts(at, d, stmts, len, p);
    let b = |i: int, n: Seq<char>, def: DefinitionView| bound_in(at, stmts[i], n, def);
    let adds = |n: Seq<char>, def: DefinitionView| is_bound(at, stmts, n, def);
    assert forall|n: Seq<char>, def: DefinitionView| #[trigger] adds(n, def) implies exists|i: int|
        0 <= i < len && #[trigger] b(i, n, def) by {
        let i = lemma_bound_split(at, stmts, n, def);
        assert(b(i, n, def));
    }
    lemma_all_of(d, defined_by(at, d, stmts), b, len, adds, p);
}

proof fn lemma_stmts(at: ScopeAt, d: DefinitionsView, stmts: Seq<Statement>, n: int, p: Bindings)
    requires
        0 <= n <= stmts.len(),
        forall|i: int, name: Seq<char>, def: DefinitionView|
            0 <= i < stmts.len() && #[trigger] bound_in(at, stmts[i], name, def) ==> p(name, def),
    ensures
        steps(
            d,
            defined_by_stmts(at, d, stmts, n),
            some_of(|i: int, name: Seq<char>, def: DefinitionView| bound_in(at, stmts[i], name, def), n),
            p,
        ),
    decreases stmts, 2nat, n,
{
    let b = |i: int, name: Seq<char>, def: DefinitionView| bound_in(at, stmts[i], name, def);
    if n > 0 {
        lemma_stmts(at, d, stmts, n - 1, p);
        let mid = defined_by_stmts(at, d, stmts, n - 1);
        let after = defined_by_stmts(at, d, stmts, n);
        lemma_stmt(at, mid, stmts[n - 1], p);
        lemma_covers(
            mid,
            after,
            |name: Seq<char>, def: DefinitionView| bound_in(at, stmts[n - 1], name, def),
            |name: Seq<char>, def: DefinitionView| b(n - 1, name, def),
            p,
        );
        lemma_next(d, mid, after, b, n, p);
    } else {
        lemma_no_more(d, b, n, p);
    }
}

/// A branch of an `if` statement that counts binds a name, in its test or in its body.
spec fn branch_binds(at: ScopeAt, branches: Seq<Branch>, i: int, name: Seq<char>, def: DefinitionView) -> bool {
    counts(at.sys, at.main, at.module, branches, i) && ((branches[i].test matches Some(test) && walrus_binds(
        test,
        name,
        def,
    )) || is_bound(at, branches[i].body@, name, def))
}

proof fn lemma_branches(at: ScopeAt, d: DefinitionsView, branches: Vec<Branch>, n: int, p: Bindings)
    requires
        0 <= n <= branches@.len(),
        forall|i: int, name: Seq<char>, def: DefinitionView|
            0 <= i < branches@.len() && #[trigger] branch_binds(at, branches@, i, name, def) ==> p(name, def),
    ensures
        steps(
            d,
            defined_by_branches(at, d, branches, n),
            some_of(|i: int, name: Seq<char>, def: DefinitionView| branch_binds(at, branches@, i, name, def), n),
            p,
        ),
    decreases branches, 0nat, n,
{
    let b = |i: int, name: Seq<char>, def: DefinitionView| branch_binds(at, branches@, i, name, def);
    if n > 0 {
        lemma_branches(at, d, branches, n - 1, p);
        let mid = defined_by_branches(at, d, branches, n - 1);
        let after = defined_by_branches(at, d, branches, n);
        let own = |name: Seq<char>, def: DefinitionView| b(n - 1, name, def);
        let x = branches@[n - 1];
        if counts(at.sys, at.main, at.module, branches@, n - 1) {
            let first = |name: Seq<char>, def: DefinitionView|
                x.test matches Some(test) && walrus_binds(test, name, def);
            let second = |name: Seq<char>, def: DefinitionView| is_bound(at, x.body@, name, def);
            let d1 = match x.test {
                Some(test) => with_walrus(mid, test),
                None => mid,
            };
            match x.test {
                Some(test) => {
                    assert forall|name: Seq<char>, def: DefinitionView| #[trigger]
                        walrus_binds(test, name, def) implies p(name, def) by {
                        assert(branch_binds(at, branches@, n - 1, name, def));
                    }
                    lemma_walrus(mid, test, p);
                    lemma_covers(
                        mid,
                        d1,
                        |name: Seq<char>, def: DefinitionView| walrus_binds(test, name, def),
                        first,
                        p,
                    );
                },
                None => {
                    lemma_none(mid, p);
                    lemma_covers(mid, d1, |name: Seq<char>, def: DefinitionView| false, first, p);
                },
            }
            assert forall|name: Seq<char>, def: DefinitionView| #[trigger]
                is_bound(at, x.body@, name, def) implies p(name, def) by {
                assert(branch_binds(at, branches@, n - 1, name, def));
            }
            lemma_block(at, d1, x.body@, p);
            lemma_two(mid, d1, after, first, second, p);
            lemma_covers(
                mid,
                after,
                |name: Seq<char>, def: DefinitionView| first(name, def) || second(name, def),
                own,
                p,
            );
        } else {
            lemma_none(mid, p);
            lemma_covers(mid, after, |name: Seq<char>, def: DefinitionView| false, own, p);
        }
        lemma_next(d, mid, after, b, n, p);
    } else {
        lemma_no_more(d, b, n, p);
    }
}

/// A case of a `match` statement binds a name, in its pattern or in its body.
spec fn case_binds(at: ScopeAt, x: MatchCase, name: Seq<char>, def: DefinitionView) -> bool {
    pattern_binds(x.pattern, name, def) || is_bound(at, x.body@, name, def)
}

proof fn lemma_cases(at: ScopeAt, d: DefinitionsView, cases: Vec<MatchCase>, n: int, p: Bindings)
    requires
        0 <= n <= cases@.len(),
        forall|i: int, name: Seq<char>, def: DefinitionView|
            0 <= i < cases@.len() && #[trigger] case_binds(at, cases@[i], name, def) ==> p(name, def),
    ensures
        steps(
            d,
            defined_by_cases(at, d, cases, n),
            some_of(|i: int, name: Seq<char>, def: DefinitionView| case_binds(at, cases@[i], name, def), n),
            p,
        ),
    decreases cases, 0nat, n,
{
    let b = |i: int, name: Seq<char>, def: DefinitionView| case_binds(at, cases@[i], name, def);
    if n > 0 {
        lemma_cases(at, d, cases, n - 1, p);
        let mid = defined_by_cases(at, d, cases, n - 1);
        let after = defined_by_cases(at, d, cases, n);
        let x = cases@[n - 1];
        let d1 = with_pattern(mid, x.pattern);
        let first = |name: Seq<char>, def: DefinitionView| pattern_binds(x.pattern, name, def);
        let second = |name: Seq<char>, def: DefinitionView| is_bound(at, x.body@, name, def);
        assert forall|name: Seq<char>, def: DefinitionView| #[trigger]
            pattern_binds(x.pattern, name, def) implies p(name, def) by {
            assert(case_binds(at, cases@[n - 1], name, def));
        }
        assert forall|name: Seq<char>, def: DefinitionView| #[trigger]
            is_bound(at, x.body@, name, def) implies p(name, def) by {
            assert(case_binds(at, cases@[n - 1], name, def));
        }
        lemma_pattern(mid, x.pattern, p);
        lemma_block(at, d1, x.body@, p);
        lemma_two(mid, d1, after, first, second, p);
        lemma_covers(
            mid,
            after,
            |name: Seq<char>, def: DefinitionView| first(name, def) || second(name, def),
            |name: Seq<char>, def: DefinitionView| b(n - 1, name, def),
            p,
        );
        lemma_next(d, mid, after, b, n, p);
    } else {
        lemma_no_more(d, b, n, p);
    }
}

/// A handler of a `try` statement binds the name of the exception.
pub open spec fn names_exception(h: Handler, name: Seq<char>, def: DefinitionView) -> bool {
    h.name matches Some(n) && name == n.name@ && def == variable_at(n.range)
}

/// A handler of a `try` statement binds a name, that of the exception or in its body.
spec fn handler_binds(at: ScopeAt, h: Handler, name: Seq<char>, def: DefinitionView) -> bool {
    names_exception(h, name, def) || is_bound(at, h.body@, name, def)
}

proof fn lemma_handlers(at: ScopeAt, d: DefinitionsView, handlers: Vec<Handler>, n: int, p: Bindings)
    requires
        0 <= n <= handlers@.len(),
        forall|i: int, name: Seq<char>, def: DefinitionView|
            0 <= i < handlers@.len() && #[trigger] handler_binds(at, handlers@[i], name, def) ==> p(name, def),
    ensures
        steps(
            d,
            defined_by_handlers(at, d, handlers, n),
            some_of(|i: int, name: Seq<char>, def: DefinitionView| handler_binds(at, handlers@[i], name, def), n),
            p,
        ),
    decreases handlers, 0nat, n,
{
    let b = |i: int, name: Seq<char>, def: DefinitionView| handler_binds(at, handlers@[i], name, def);
    if n > 0 {
        lemma_handlers(at, d, handlers, n - 1, p);
        let mid = defined_by_handlers(at, d, handlers, n - 1);
        let after = defined_by_handlers(at, d, handlers, n);
        let x = handlers@[n - 1];
        let d1 = match x.name {
            Some(name) => with_definition(mid, name.name@, name.range, variable()),
            None => mid,
        };
        let first = |name: Seq<char>, def: DefinitionView| names_exception(x, name, def);
        let second = |name: Seq<char>, def: DefinitionView| is_bound(at, x.body@, name, def);
        match x.name {
            Some(name) => {
                assert(handler_binds(at, handlers@[n - 1], name.name@, variable_at(name.range)));
                lemma_definition(mid, name.name@, name.range, variable(), p);
            },
            None => {},
        }
        assert(steps(mid, d1, first, p));
        assert forall|name: Seq<char>, def: DefinitionView| #[trigger]
            is_bound(at, x.body@, name, def) implies p(name, def) by {
            assert(handler_binds(at, handlers@[n - 1], name, def));
        }
        lemma_block(at, d1, x.body@, p);
        lemma_two(mid, d1, after, first, second, p);
        lemma_covers(
            mid,
            after,
            |name: Seq<char>, def: DefinitionView| first(name, def) || second(name, def),
            |name: Seq<char>, def: DefinitionView| b(n - 1, name, def),
            p,
        );
        lemma_next(d, mid, after, b, n, p);
    } else {
        lemma_no_more(d, b, n, p);
    }
}

/// A statement that holds no block is looked at for what it binds itself.
proof fn lemma_own_only(at: ScopeAt, d: DefinitionsView, after: DefinitionsView, s: Statement, p: Bindings)
    requires
        steps(d, after, |n: Seq<char>, def: DefinitionView| stmt_binds(at, s, n, def), p),
        forall|b: Seq<Statement>| !#[trigger] holds_block(at, s, b),
    ensures
        steps(d, after, |n: Seq<char>, def: DefinitionView| bound_in(at, s, n, def), p),
{
    let own = |n: Seq<char>, def: DefinitionView| stmt_binds(at, s, n, def);
    let all = |n: Seq<char>, def: DefinitionView| bound_in(at, s, n, def);
    assert forall|n: Seq<char>, def: DefinitionView| #[trigger] all(n, def) implies own(n, def) by {}
    lemma_covers(d, after, own, all, p);
}

proof fn lemma_simple(at: ScopeAt, d: DefinitionsView, s: Statement, p: Bindings)
    requires
        forall|n: Seq<char>, def: DefinitionView| #[trigger] stmt_binds(at, s, n, def) ==> p(n, def),
        forall|b: Seq<Statement>| !#[trigger] holds_block(at, s, b),
        !(s.node is For || s.node is While || s.node is If || s.node is With || s.node is Match || s.node is Try),
    ensures
        steps(d, defined_by_stmt(at, d, s), |n: Seq<char>, def: DefinitionView| stmt_binds(at, s, n, def), p),
{
    let own = |n: Seq<char>, def: DefinitionView| stmt_binds(at, s, n, def);
    let after = defined_by_stmt(at, d, s);
    match s.node {
        StmtNode::FunctionDef(f) => {
            let style = StyleView::Unannotated(SymbolKind::Function);
            assert(stmt_binds(at, s, f.name@, DefinitionView { range: f.name_range, style }));
            lemma_definition(d, f.name@, f.name_range, style, p);
        },
        StmtNode::ClassDef(c) => {
            let style = StyleView::Unannotated(SymbolKind::Class);
            assert(stmt_binds(at, s, c.name@, DefinitionView { range: c.name_range, style }));
            lemma_definition(d, c.name@, c.name_range, style, p);
        },
        StmtNode::TypeAlias { name } => {
            match name.node {
                Node::Name { id } => {
                    let style = StyleView::Unannotated(SymbolKind::TypeAlias);
                    assert(stmt_binds(at, s, id@, DefinitionView { range: name.range, style }));
                    lemma_definition(d, id@, name.range, style, p);
                },
                _ => {},
            }
        },
        StmtNode::Delete { targets } => {
            let b = |i: int, n: Seq<char>, def: DefinitionView| deletes(targets@[i], n, def);
            assert forall|i: int, n: Seq<char>, def: DefinitionView|
                0 <= i < targets@.len() && #[trigger] deletes(targets@[i], n, def) implies p(n, def) by {
                assert(stmt_binds(at, s, n, def));
            }
            lemma_deleted(d, targets@, targets@.len() as int, p);
            assert forall|n: Seq<char>, def: DefinitionView| #[trigger] own(n, def) implies exists|i: int|
                0 <= i < targets@.len() && #[trigger] b(i, n, def) by {
                let i = choose|i: int| 0 <= i < targets@.len() && deletes(#[trigger] targets@[i], n, def);
                assert(b(i, n, def));
            }
            lemma_all_of(d, after, b, targets@.len() as int, own, p);
        },
        StmtNode::Assign { targets, value } => {
            let len = targets@.len() as int;
            let b = |i: int, n: Seq<char>, def: DefinitionView| target_binds(targets@[i], n, def);
            assert forall|n: Seq<char>, def: DefinitionView| #[trigger] walrus_binds(value, n, def) implies p(n, def) by {
                assert(stmt_binds(at, s, n, def));
            }
            assert forall|i: int, n: Seq<char>, def: DefinitionView|
                0 <= i < len && #[trigger] target_binds(targets@[i], n, def) implies p(n, def) by {
                assert(stmt_binds(at, s, n, def));
            }
            let d1 = with_walrus(d, value);
            lemma_walrus(d, value, p);
            lemma_assigned(d1, targets@, value, len, p);
            let first = |n: Seq<char>, def: DefinitionView| walrus_binds(value, n, def);
            let second = some_of(b, len);
            lemma_two(d, d1, after, first, second, p);
            assert forall|n: Seq<char>, def: DefinitionView| #[trigger] own(n, def) implies first(n, def) || second(
                n,
                def,
            ) by {
                if !walrus_binds(value, n, def) {
                    let i = choose|i: int| 0 <= i < targets@.len() && target_binds(#[trigger] targets@[i], n, def);
                    assert(b(i, n, def));
                }
            }
            lemma_covers(d, after, |n: Seq<char>, def: DefinitionView| first(n, def) || second(n, def), own, p);
        },
        StmtNode::AugAssign { target, value } => {
            assert forall|n: Seq<char>, def: DefinitionView| #[trigger] walrus_binds(value, n, def) implies p(n, def) by {
                assert(stmt_binds(at, s, n, def));
            }
            assert forall|n: Seq<char>, def: DefinitionView| #[trigger] target_binds(target, n, def) implies p(n, def) by {
                assert(stmt_binds(at, s, n, def));
            }
            let d1 = with_walrus(d, value);
            lemma_walrus(d, value, p);
            lemma_target(d1, target, p);
            let first = |n: Seq<char>, def: DefinitionView| walrus_binds(value, n, def);
            let second = |n: Seq<char>, def: DefinitionView| target_binds(target, n, def);
            assert(steps(d1, after, second, p));
            lemma_two(d, d1, after, first, second, p);
            lemma_covers(d, after, |n: Seq<char>, def: DefinitionView| first(n, def) || second(n, def), own, p);
        },
        StmtNode::AnnAssign { target, value, .. } => {
            let style = StyleView::Annotated(SymbolKind::Variable);
            let first = |n: Seq<char>, def: DefinitionView|
                target.node matches Node::Name { id } && n == id@ && def == (DefinitionView { range: target.range, style });
            let second = |n: Seq<char>, def: DefinitionView| value matches Some(v) && walrus_binds(v, n, def);
            let d1 = match target.node {
                Node::Name { id } => with_definition(d, id@, target.range, style),
                _ => d,
            };
            match target.node {
                Node::Name { id } => {
                    assert(stmt_binds(at, s, id@, DefinitionView { range: target.range, style }));
                    lemma_definition(d, id@, target.range, style, p);
                },
                _ => {},
            }
            assert(steps(d, d1, first, p));
            match value {
                Some(v) => {
                    assert forall|n: Seq<char>, def: DefinitionView| #[trigger] walrus_binds(v, n, def) implies p(n, def) by {
                        assert(stmt_binds(at, s, n, def));
                    }
                    lemma_walrus(d1, v, p);
                    assert(after.definitions == with_walrus(d1, v).definitions);
                    lemma_covers(
                        d1,
                        after,
                        |n: Seq<char>, def: DefinitionView| walrus_binds(v, n, def),
                        second,
                        p,
                    );
                },
                None => {},
            }
            assert(steps(d1, after, second, p));
            lemma_two(d, d1, after, first, second, p);
            lemma_covers(d, after, |n: Seq<char>, def: DefinitionView| first(n, def) || second(n, def), own, p);
        },
        StmtNode::Global { names } => {
            let style = StyleView::MutableCapture(MutableCaptureKind::Global);
            lemma_captured(at, d, s, names@, style, p);
        },
        StmtNode::Nonlocal { names } => {
            let style = StyleView::MutableCapture(MutableCaptureKind::Nonlocal);
            lemma_captured(at, d, s, names@, style, p);
        },
        StmtNode::Import(x) => {
            let len = x.names@.len() as int;
            let b = |i: int, n: Seq<char>, def: DefinitionView| alias_binds(x.names@[i], n, def);
            assert forall|i: int, n: Seq<char>, def: DefinitionView|
                0 <= i < len && #[trigger] alias_binds(x.names@[i], n, def) implies p(n, def) by {
                assert(stmt_binds(at, s, n, def));
            }
            lemma_imported(at, d, x.names@, len, p);
            assert forall|n: Seq<char>, def: DefinitionView| #[trigger] own(n, def) implies exists|i: int|
                0 <= i < len && #[trigger] b(i, n, def) by {
                let i = choose|i: int| 0 <= i < x.names@.len() && alias_binds(#[trigger] x.names@[i], n, def);
                assert(b(i, n, def));
            }
            lemma_all_of(d, after, b, len, own, p);
        },
        StmtNode::ImportFrom(x) => {
            let len = x.names@.len() as int;
            let from = relative_name(at.module, at.is_init, x.level as nat, optional_text(x.module));
            let b = |i: int, n: Seq<char>, def: DefinitionView| from_alias_binds(from, x.names@[i], n, def);
            assert forall|i: int, n: Seq<char>, def: DefinitionView|
                0 <= i < len && #[trigger] from_alias_binds(from, x.names@[i], n, def) implies p(n, def) by {
                assert(stmt_binds(at, s, n, def));
            }
            let d1 = match from {
                Some(module) => if x.level > 0 {
                    with_submodule(at, d, module)
                } else {
                    d
                },
                None => d,
            };
            lemma_from(d1, from, x.names@, len, p);
            assert forall|n: Seq<char>, def: DefinitionView| #[trigger] own(n, def) implies exists|i: int|
                0 <= i < len && #[trigger] b(i, n, def) by {
                let i = choose|i: int|
                    0 <= i < x.names@.len() && from_alias_binds(from, #[trigger] x.names@[i], n, def);
                assert(b(i, n, def));
            }
            lemma_all_of(d1, after, b, len, own, p);
        },
        StmtNode::Expr { value, .. } => {
            assert forall|n: Seq<char>, def: DefinitionView| #[trigger] walrus_binds(value, n, def) implies p(n, def) by {
                assert(stmt_binds(at, s, n, def));
            }
            lemma_walrus(d, value, p);
            assert(after.definitions == with_walrus(d, value).definitions);
            lemma_covers(d, after, |n: Seq<char>, def: DefinitionView| walrus_binds(value, n, def), own, p);
        },
        _ => {},
    }
}

proof fn lemma_captured(
    at: ScopeAt,
    d: DefinitionsView,
    s: Statement,
    names: Seq<PlacedName>,
    style: StyleView,
    p: Bindings,
)
    requires
        forall|n: Seq<char>, def: DefinitionView| #[trigger]
            stmt_binds(at, s, n, def) <==> listed_name(names, style, n, def),
        forall|n: Seq<char>, def: DefinitionView| #[trigger] stmt_binds(at, s, n, def) ==> p(n, def),
    ensures
        steps(
            d,
            with_names_as(d, names, style, names.len() as int),
            |n: Seq<char>, def: DefinitionView| stmt_binds(at, s, n, def),
            p,
        ),
{
    let own = |n: Seq<char>, def: DefinitionView| stmt_binds(at, s, n, def);
    let len = names.len() as int;
    let b = |i: int, n: Seq<char>, def: DefinitionView| is_listed(names[i], style, n, def);
    assert forall|i: int, n: Seq<char>, def: DefinitionView|
        0 <= i < len && #[trigger] is_listed(names[i], style, n, def) implies p(n, def) by {
        assert(listed_name(names, style, n, def));
        assert(stmt_binds(at, s, n, def));
    }
    lemma_listed(d, names, style, len, p);
    assert forall|n: Seq<char>, def: DefinitionView| #[trigger] own(n, def) implies exists|i: int|
        0 <= i < len && #[trigger] b(i, n, def) by {
        let i = choose|i: int| 0 <= i < names.len() && is_listed(#[trigger] names[i], style, n, def);
        assert(b(i, n, def));
    }
    lemma_all_of(d, with_names_as(d, names, style, len), b, len, own, p);
}

/// A block of a statement is looked at.
proof fn lemma_block_of(at: ScopeAt, d: DefinitionsView, s: Statement, b: Seq<Statement>, p: Bindings)
    requires
        holds_block(at, s, b),
        forall|n: Seq<char>, def: DefinitionView| #[trigger] bound_in(at, s, n, def) ==> p(n, def),
    ensures
        steps(d, defined_by(at, d, b), |n: Seq<char>, def: DefinitionView| is_bound(at, b, n, def), p),
    decreases b, 4nat, 0int,
{
    assert forall|n: Seq<char>, def: DefinitionView| #[trigger] is_bound(at, b, n, def) implies p(n, def) by {
        assert(holds_block(at, s, b) && is_bound(at, b, n, def));
        assert(bound_in(at, s, n, def));
    }
    lemma_block(at, d, b, p);
}

#[verifier::rlimit(40)]
proof fn lemma_stmt(at: ScopeAt, d: DefinitionsView, s: Statement, p: Bindings)
    requires
        forall|n: Seq<char>, def: DefinitionView| #[trigger] bound_in(at, s, n, def) ==> p(n, def),
    ensures
        steps(d, defined_by_stmt(at, d, s), |n: Seq<char>, def: DefinitionView| bound_in(at, s, n, def), p),
    decreases s, 1nat, 0int,
{
    let all = |n: Seq<char>, def: DefinitionView| bound_in(at, s, n, def);
    let after = defined_by_stmt(at, d, s);
    assert forall|n: Seq<char>, def: DefinitionView| #[trigger] stmt_binds(at, s, n, def) implies p(n, def) by {
        assert(bound_in(at, s, n, def));
    }
    match s.node {
        StmtNode::For { target, iter, body, orelse } => {
            assert forall|n: Seq<char>, def: DefinitionView| #[trigger] target_binds(target, n, def) implies p(n, def) by {
                assert(stmt_binds(at, s, n, def));
            }
            assert forall|n: Seq<char>, def: DefinitionView| #[trigger] walrus_binds(iter, n, def) implies p(n, def) by {
                assert(stmt_binds(at, s, n, def));
            }
            let d1 = with_target(d, target);
            let d2 = with_walrus(d1, iter);
            let d3 = defined_by(at, d2, body@);
            lemma_target(d, target, p);
            lemma_walrus(d1, iter, p);
            lemma_block_of(at, d2, s, body@, p);
            lemma_block_of(at, d3, s, orelse@, p);
            let f1 = |n: Seq<char>, def: DefinitionView| target_binds(target, n, def);
            let f2 = |n: Seq<char>, def: DefinitionView| walrus_binds(iter, n, def);
            let f3 = |n: Seq<char>, def: DefinitionView| is_bound(at, body@, n, def);
            let f4 = |n: Seq<char>, def: DefinitionView| is_bound(at, orelse@, n, def);
            lemma_four(d, d1, d2, d3, after, f1, f2, f3, f4, all, p);
        },
        StmtNode::While { test, body, orelse } => {
            assert forall|n: Seq<char>, def: DefinitionView| #[trigger] walrus_binds(test, n, def) implies p(n, def) by {
                assert(stmt_binds(at, s, n, def));
            }
            let d1 = with_walrus(d, test);
            let d2 = defined_by(at, d1, body@);
            lemma_walrus(d, test, p);
            lemma_block_of(at, d1, s, body@, p);
            lemma_block_of(at, d2, s, orelse@, p);
            lemma_none(d, p);
            let f1 = |n: Seq<char>, def: DefinitionView| false;
            let f2 = |n: Seq<char>, def: DefinitionView| walrus_binds(test, n, def);
            let f3 = |n: Seq<char>, def: DefinitionView| is_bound(at, body@, n, def);
            let f4 = |n: Seq<char>, def: DefinitionView| is_bound(at, orelse@, n, def);
            lemma_four(d, d, d1, d2, after, f1, f2, f3, f4, all, p);
        },
        StmtNode::If { branches } => {
            let len = branches@.len() as int;
            let b = |i: int, n: Seq<char>, def: DefinitionView| branch_binds(at, branches@, i, n, def);
            assert forall|i: int, n: Seq<char>, def: DefinitionView|
                0 <= i < len && #[trigger] branch_binds(at, branches@, i, n, def) implies p(n, def) by {
                if is_bound(at, branches@[i].body@, n, def) {
                    assert(holds_block(at, s, branches@[i].body@));
                } else {
                    assert(stmt_binds(at, s, n, def));
                }
                assert(bound_in(at, s, n, def));
            }
            lemma_branches(at, d, branches, len, p);
            assert forall|n: Seq<char>, def: DefinitionView| #[trigger] all(n, def) implies exists|i: int|
                0 <= i < len && #[trigger] b(i, n, def) by {
                if stmt_binds(at, s, n, def) {
                    let i = choose|i: int|
                        0 <= i < branches@.len() && #[trigger] counts(at.sys, at.main, at.module, branches@, i) && (
                        branches@[i].test matches Some(test) && walrus_binds(test, n, def));
                    assert(b(i, n, def));
                } else {
                    let c = choose|c: Seq<Statement>| #[trigger] holds_block(at, s, c) && is_bound(at, c, n, def);
                    let i = choose|i: int|
                        0 <= i < branches@.len() && #[trigger] counts(at.sys, at.main, at.module, branches@, i) && c
                            == branches@[i].body@;
                    assert(b(i, n, def));
                }
            }
            lemma_all_of(d, after, b, len, all, p);
        },
        StmtNode::With { items, body } => {
            let len = items@.len() as int;
            let b = |i: int, n: Seq<char>, def: DefinitionView| item_binds(items@[i], n, def);
            assert forall|i: int, n: Seq<char>, def: DefinitionView|
                0 <= i < len && #[trigger] item_binds(items@[i], n, def) implies p(n, def) by {
                assert(stmt_binds(at, s, n, def));
            }
            let d1 = with_items(d, items@, len);
            lemma_items(d, items@, len, p);
            lemma_block_of(at, d1, s, body@, p);
            let first = some_of(b, len);
            let second = |n: Seq<char>, def: DefinitionView| is_bound(at, body@, n, def);
            lemma_two(d, d1, after, first, second, p);
            assert forall|n: Seq<char>, def: DefinitionView| #[trigger] all(n, def) implies first(n, def) || second(
                n,
                def,
            ) by {
                if stmt_binds(at, s, n, def) {
                    let i = choose|i: int| 0 <= i < items@.len() && item_binds(#[trigger] items@[i], n, def);
                    assert(b(i, n, def));
                }
            }
            lemma_covers(d, after, |n: Seq<char>, def: DefinitionView| first(n, def) || second(n, def), all, p);
        },
        StmtNode::Match { subject, cases } => {
            let len = cases@.len() as int;
            let b = |i: int, n: Seq<char>, def: DefinitionView| case_binds(at, cases@[i], n, def);
            assert forall|n: Seq<char>, def: DefinitionView| #[trigger] walrus_binds(subject, n, def) implies p(n, def) by {
                assert(stmt_binds(at, s, n, def));
            }
            assert forall|i: int, n: Seq<char>, def: DefinitionView|
                0 <= i < len && #[trigger] case_binds(at, cases@[i], n, def) implies p(n, def) by {
                if is_bound(at, cases@[i].body@, n, def) {
                    assert(holds_block(at, s, cases@[i].body@));
                } else {
                    assert(stmt_binds(at, s, n, def));
                }
                assert(bound_in(at, s, n, def));
            }
            let d1 = with_walrus(d, subject);
            lemma_walrus(d, subject, p);
            lemma_cases(at, d1, cases, len, p);
            let first = |n: Seq<char>, def: DefinitionView| walrus_binds(subject, n, def);
            let second = some_of(b, len);
            lemma_two(d, d1, after, first, second, p);
            assert forall|n: Seq<char>, def: DefinitionView| #[trigger] all(n, def) implies first(n, def) || second(
                n,
                def,
            ) by {
                if stmt_binds(at, s, n, def) {
                    if !walrus_binds(subject, n, def) {
                        let i = choose|i: int|
                            0 <= i < cases@.len() && pattern_binds((#[trigger] cases@[i]).pattern, n, def);
                        assert(b(i, n, def));
                    }
                } else {
                    let c = choose|c: Seq<Statement>| #[trigger] holds_block(at, s, c) && is_bound(at, c, n, def);
                    let i = choose|i: int| 0 <= i < cases@.len() && c == (#[trigger] cases@[i]).body@;
                    assert(b(i, n, def));
                }
            }
            lemma_covers(d, after, |n: Seq<char>, def: DefinitionView| first(n, def) || second(n, def), all, p);
        },
        StmtNode::Try { body, handlers, orelse, finalbody } => {
            let len = handlers@.len() as int;
            let b = |i: int, n: Seq<char>, def: DefinitionView| handler_binds(at, handlers@[i], n, def);
            assert forall|i: int, n: Seq<char>, def: DefinitionView|
                0 <= i < len && #[trigger] handler_binds(at, handlers@[i], n, def) implies p(n, def) by {
                if is_bound(at, handlers@[i].body@, n, def) {
                    assert(holds_block(at, s, handlers@[i].body@));
                } else {
                    assert(stmt_binds(at, s, n, def));
                }
                assert(bound_in(at, s, n, def));
            }
            let d1 = defined_by(at, d, body@);
            let d2 = defined_by_handlers(at, d1, handlers, len);
            let d3 = defined_by(at, d2, orelse@);
            lemma_block_of(at, d, s, body@, p);
            lemma_handlers(at, d1, handlers, len, p);
            lemma_block_of(at, d2, s, orelse@, p);
            lemma_block_of(at, d3, s, finalbody@, p);
            let f1 = |n: Seq<char>, def: DefinitionView| is_bound(at, body@, n, def);
            let f2 = some_of(b, len);
            let f3 = |n: Seq<char>, def: DefinitionView| is_bound(at, orelse@, n, def);
            let f4 = |n: Seq<char>, def: DefinitionView| is_bound(at, finalbody@, n, def);
            assert forall|n: Seq<char>, def: DefinitionView| #[trigger] all(n, def) implies f1(n, def) || f2(n, def)
                || f3(n, def) || f4(n, def) by {
                if stmt_binds(at, s, n, def) {
                    let i = choose|i: int| 0 <= i < handlers@.len() && names_exception(#[trigger] handlers@[i], n, def);
                    assert(b(i, n, def));
                } else {
                    let c = choose|c: Seq<Statement>| #[trigger] holds_block(at, s, c) && is_bound(at, c, n, def);
                    if c != body@ && c != orelse@ && c != finalbody@ {
                        let i = choose|i: int| 0 <= i < handlers@.len() && c == (#[trigger] handlers@[i]).body@;
                        assert(b(i, n, def));
                    }
                }
            }
            lemma_four(d, d1, d2, d3, after, f1, f2, f3, f4, all, p);
        },
        _ => {
            lemma_simple(at, d, s, p);
            lemma_own_only(at, d, after, s, p);
        },
    }
}

/// Four steps, one after the other.
proof fn lemma_four(
    d: DefinitionsView,
    d1: DefinitionsView,
    d2: DefinitionsView,
    d3: DefinitionsView,
    after: DefinitionsView,
    f1: Bindings,
    f2: Bindings,
    f3: Bindings,
    f4: Bindings,
    all: Bindings,
    p: Bindings,
)
    requires
        steps(d, d1, f1, p),
        steps(d1, d2, f2, p),
        steps(d2, d3, f3, p),
        steps(d3, after, f4, p),
        forall|n: Seq<char>, def: DefinitionView| #[trigger]
            all(n, def) ==> f1(n, def) || f2(n, def) || f3(n, def) || f4(n, def),
    ensures
        steps(d, after, all, p),
{
    let g2 = |n: Seq<char>, def: DefinitionView| f1(n, def) || f2(n, def);
    lemma_two(d, d1, d2, f1, f2, p);
    let g3 = |n: Seq<char>, def: DefinitionView| g2(n, def) || f3(n, def);
    lemma_two(d, d2, d3, g2, f3, p);
    let g4 = |n: Seq<char>, def: DefinitionView| g3(n, def) || f4(n, def);
    lemma_two(d, d3, after, g3, f4, p);
    lemma_covers(d, after, g4, all, p);
}

/// A scope defines every name that is bound in it, at any depth of blocks that count, in the body of
/// loops, of `with`, `match` and `try` statements and of branches, and defines it at least as firmly as
/// each of its bindings does.
pub proof fn bound_names_are_defined(at: ScopeAt, stmts: Seq<Statement>, name: Seq<char>, def: DefinitionView)
    requires
        is_bound(at, stmts, name, def),
    ensures
        is_defined(scope_definitions(at, stmts), name, def.style),
{
    let p = |n: Seq<char>, x: DefinitionView| true;
    lemma_block(at, nothing_defined(), stmts, p);
    let adds = |n: Seq<char>, x: DefinitionView| is_bound(at, stmts, n, x);
    assert(adds(name, def));
}

/// A scope defines no other names: each of its definitions is a binding that stands in it.
pub proof fn defined_names_are_bound(at: ScopeAt, stmts: Seq<Statement>, name: Seq<char>)
    requires
        scope_definitions(at, stmts).definitions.contains_key(name),
    ensures
        is_bound(at, stmts, name, scope_definitions(at, stmts).definitions[name]),
{
    let p = |n: Seq<char>, x: DefinitionView| is_bound(at, stmts, n, x);
    lemma_block(at, nothing_defined(), stmts, p);
    assert(p(name, scope_definitions(at, stmts).definitions[name]));
}

} // verus!
