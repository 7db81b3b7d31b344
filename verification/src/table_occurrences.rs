//! What the tables of a module have entries for: the scopes, functions, classes, aliases and variables
//! that stand somewhere in it.

use crate::ast::{
    blocks, lemma_blocks_smaller, var_name_of, Expression, Import, ImportFrom, ParsedModule, Statement, StmtNode,
};
use crate::bindings::{
    alias_blocks, alias_stmt, alias_stmts, assigned_alias, module_aliases, with_from_aliases, with_import_aliases,
    AliasTable, Aliases, Bindings, Context,
};
use crate::bindings_table::{bind_blocks, bind_stmt, bind_stmts, class_at, module_bindings, with_unknown, Binder};
use crate::class_builder::class_info;
use crate::config::AnalysisConfig;
use crate::cursor::{
    current_scope, enclosing_function, in_module, in_scope, is_eager, nearest_function, ScopeKind, ScopeView,
};
use crate::definitions::DefinitionsView;
use crate::definitions_builder::{scope_definitions, ScopeAt};
use crate::exports_builder::{annotated_class, module_exports, types_in_blocks, types_in_stmt, types_in_stmts};
use crate::module_info::{
    module_at, module_tables, ordered_params, scan_blocks, scan_body, scan_stmt, scan_stmts, table_with_params,
    TableView,
};
use crate::module_name::dotted;
use crate::sys_info::SysInfo;
use vstd::prelude::*;

verus! {

/// A statement at a place holds a block, at a place of its own where it is the body of a class or of a
/// function.
pub open spec fn holds_block(
    at: Seq<ScopeView>,
    s: Statement,
    inner: Seq<ScopeView>,
    b: Vec<Statement>,
) -> bool {
    match s.node {
        StmtNode::ClassDef(c) => inner == in_scope(at, ScopeKind::Class, c.name@) && b == c.body,
        StmtNode::FunctionDef(f) => inner == in_scope(at, ScopeKind::Function, f.name@) && b == f.body,
        StmtNode::For { body, orelse, .. } => inner == at && (b == body || b == orelse),
        StmtNode::While { body, orelse, .. } => inner == at && (b == body || b == orelse),
        StmtNode::With { body, .. } => inner == at && b == body,
        StmtNode::If { branches } => inner == at && exists|i: int|
            0 <= i < branches@.len() && b == (#[trigger] branches@[i]).body,
        StmtNode::Match { cases, .. } => inner == at && exists|i: int|
            0 <= i < cases@.len() && b == (#[trigger] cases@[i]).body,
        StmtNode::Try { body, handlers, orelse, finalbody } => inner == at && (b == body || b == orelse || b
            == finalbody || exists|i: int| 0 <= i < handlers@.len() && b == (#[trigger] handlers@[i]).body),
        _ => false,
    }
}

/// A statement stands at a place, among some statements at another or that many blocks deep inside of
/// them.
pub open spec fn stands_at(
    at: Seq<ScopeView>,
    stmts: Vec<Statement>,
    inner: Seq<ScopeView>,
    t: Statement,
    depth: nat,
) -> bool
    decreases depth,
{
    if depth == 0 {
        inner == at && stmts@.contains(t)
    } else {
        exists|i: int, mid: Seq<ScopeView>, b: Vec<Statement>|
            0 <= i < stmts@.len() && #[trigger] holds_block(at, stmts@[i], mid, b) && stands_at(
                mid,
                b,
                inner,
                t,
                (depth - 1) as nat,
            )
    }
}

/// A statement stands at a place of a module, at any depth.
pub open spec fn stands_in(parsed: &ParsedModule, inner: Seq<ScopeView>, t: Statement) -> bool {
    exists|depth: nat| #[trigger] stands_at(in_module(parsed.name@), parsed.body, inner, t, depth)
}

/// What a statement at a place brings.
type Brings<K> = spec_fn(Seq<ScopeView>, Statement, K) -> bool;

/// Some statement, among some statements or inside of them, brings something.
spec fn brought<K>(f: Brings<K>, at: Seq<ScopeView>, stmts: Vec<Statement>, k: K) -> bool {
    exists|inner: Seq<ScopeView>, t: Statement, depth: nat| #[trigger]
        stands_at(at, stmts, inner, t, depth) && f(inner, t, k)
}

/// A statement, or one inside of it, brings something.
spec fn brought_by<K>(f: Brings<K>, at: Seq<ScopeView>, s: Statement, k: K) -> bool {
    f(at, s, k) || exists|mid: Seq<ScopeView>, b: Vec<Statement>| #[trigger]
        holds_block(at, s, mid, b) && brought(f, mid, b, k)
}

/// One of the first `n` statements, or one inside of it, brings something.
spec fn brought_among<K>(f: Brings<K>, at: Seq<ScopeView>, stmts: Vec<Statement>, n: int, k: K) -> bool {
    exists|i: int| 0 <= i < n && brought_by(f, at, #[trigger] stmts@[i], k)
}

/// One of the first `n` blocks of a statement has a statement that brings something.
spec fn brought_in<K>(f: Brings<K>, at: Seq<ScopeView>, s: Statement, n: int, k: K) -> bool {
    exists|i: int| 0 <= i < n && brought(f, at, #[trigger] blocks(s)[i], k)
}

proof fn lemma_brought<K>(f: Brings<K>, at: Seq<ScopeView>, stmts: Vec<Statement>, k: K)
    ensures
        brought(f, at, stmts, k) <==> brought_among(f, at, stmts, stmts@.len() as int, k),
{
    if brought(f, at, stmts, k) {
        let (inner, t, depth) = choose|inner: Seq<ScopeView>, t: Statement, depth: nat| #[trigger]
            stands_at(at, stmts, inner, t, depth) && f(inner, t, k);
        if depth == 0 {
            let i = stmts@.index_of(t);
            assert(brought_by(f, at, stmts@[i], k));
        } else {
            let (i, mid, b) = choose|i: int, mid: Seq<ScopeView>, b: Vec<Statement>|
                0 <= i < stmts@.len() && #[trigger] holds_block(at, stmts@[i], mid, b) && stands_at(
                    mid,
                    b,
                    inner,
                    t,
                    (depth - 1) as nat,
                );
            assert(stands_at(mid, b, inner, t, (depth - 1) as nat));
            assert(holds_block(at, stmts@[i], mid, b) && brought(f, mid, b, k));
            assert(brought_by(f, at, stmts@[i], k));
        }
    }
    if brought_among(f, at, stmts, stmts@.len() as int, k) {
        let i = choose|i: int| 0 <= i < stmts@.len() && brought_by(f, at, #[trigger] stmts@[i], k);
        if f(at, stmts@[i], k) {
            assert(stands_at(at, stmts, at, stmts@[i], 0));
        } else {
            let (mid, b) = choose|mid: Seq<ScopeView>, b: Vec<Statement>| #[trigger]
                holds_block(at, stmts@[i], mid, b) && brought(f, mid, b, k);
            let (inner, t, depth) = choose|inner: Seq<ScopeView>, t: Statement, depth: nat| #[trigger]
                stands_at(mid, b, inner, t, depth) && f(inner, t, k);
            assert(holds_block(at, stmts@[i], mid, b) && stands_at(mid, b, inner, t, depth));
            assert(stands_at(at, stmts, inner, t, depth + 1));
        }
    }
}

/// The blocks of a statement that is no function and no class are those that it holds.
proof fn lemma_blocks<K>(f: Brings<K>, at: Seq<ScopeView>, s: Statement, k: K)
    requires
        !(s.node is ClassDef || s.node is FunctionDef),
    ensures
        brought_by(f, at, s, k) <==> f(at, s, k) || brought_in(f, at, s, blocks(s).len() as int, k),
{
    if brought_by(f, at, s, k) && !f(at, s, k) {
        let (mid, b) = choose|mid: Seq<ScopeView>, b: Vec<Statement>| #[trigger]
            holds_block(at, s, mid, b) && brought(f, mid, b, k);
        let i: int = match s.node {
            StmtNode::For { body, .. } => if b == body {
                0
            } else {
                1
            },
            StmtNode::While { body, .. } => if b == body {
                0
            } else {
                1
            },
            StmtNode::If { branches } => choose|i: int| 0 <= i < branches@.len() && b == (#[trigger] branches@[i]).body,
            StmtNode::Match { cases, .. } => choose|i: int| 0 <= i < cases@.len() && b == (#[trigger] cases@[i]).body,
            StmtNode::Try { body, handlers, orelse, finalbody } => if b == body {
                0
            } else if b == orelse {
                handlers@.len() as int + 1
            } else if b == finalbody {
                handlers@.len() as int + 2
            } else {
                1 + choose|i: int| 0 <= i < handlers@.len() && b == (#[trigger] handlers@[i]).body
            },
            _ => 0,
        };
        assert(blocks(s)[i] == b);
        assert(brought(f, at, blocks(s)[i], k));
    }
    if brought_in(f, at, s, blocks(s).len() as int, k) {
        let i = choose|i: int| 0 <= i < blocks(s).len() && brought(f, at, #[trigger] blocks(s)[i], k);
        let b = blocks(s)[i];
        match s.node {
            StmtNode::If { branches } => {
                assert(b == branches@[i].body);
            },
            StmtNode::Match { cases, .. } => {
                assert(b == cases@[i].body);
            },
            StmtNode::Try { handlers, .. } => {
                if 1 <= i <= handlers@.len() {
                    assert(b == handlers@[i - 1].body);
                }
            },
            _ => {},
        }
        assert(holds_block(at, s, at, b) && brought(f, at, b, k));
    }
}

/// The names to which a statement gives an alias at a place.
pub open spec fn gives_alias(cx: &Context, at: Seq<ScopeView>, t: Statement, key: (Seq<char>, Seq<char>)) -> bool {
    key.0 == current_scope(at) && match t.node {
        StmtNode::Assign { targets, value } => targets@.len() == 1 && var_name_of(targets@[0]) == Some(key.1)
            && assigned_alias(cx, at, value) is Some,
        StmtNode::AnnAssign { target, value, .. } => var_name_of(target) == Some(key.1) && (value matches Some(v)
            && assigned_alias(cx, at, v) is Some),
        StmtNode::Import(x) => exists|i: int|
            0 <= i < x.names@.len() && ((#[trigger] x.names@[i]).asname matches Some(given) && given@ == key.1),
        StmtNode::ImportFrom(x) => exists|i: int|
            0 <= i < x.names@.len() && ((#[trigger] x.names@[i]).asname matches Some(given) && given@ == key.1),
        _ => false,
    }
}

spec fn aliasing(cx: &Context) -> Brings<(Seq<char>, Seq<char>)> {
    |at: Seq<ScopeView>, t: Statement, key: (Seq<char>, Seq<char>)| gives_alias(cx, at, t, key)
}

proof fn lemma_import_aliases(at: Seq<ScopeView>, t: Aliases, x: Import, n: int, key: (Seq<char>, Seq<char>))
    requires
        0 <= n <= x.names@.len(),
    ensures
        with_import_aliases(at, t, x.names@, n).contains_key(key) <==> t.contains_key(key) || (key.0 == current_scope(
            at,
        ) && exists|i: int|
            0 <= i < n && ((#[trigger] x.names@[i]).asname matches Some(given) && given@ == key.1)),
    decreases n,
{
    if n > 0 {
        lemma_import_aliases(at, t, x, n - 1, key);
        let last = x.names@[n - 1];
        assert(key == (key.0, key.1));
    }
}

proof fn lemma_from_aliases(
    cx: &Context,
    at: Seq<ScopeView>,
    t: Aliases,
    x: ImportFrom,
    n: int,
    key: (Seq<char>, Seq<char>),
)
    requires
        0 <= n <= x.names@.len(),
    ensures
        with_from_aliases(cx, at, t, x, n).contains_key(key) <==> t.contains_key(key) || (key.0 == current_scope(at)
            && exists|i: int|
            0 <= i < n && ((#[trigger] x.names@[i]).asname matches Some(given) && given@ == key.1)),
    decreases n,
{
    if n > 0 {
        lemma_from_aliases(cx, at, t, x, n - 1, key);
        let last = x.names@[n - 1];
        assert(key == (key.0, key.1));
    }
}

proof fn lemma_alias_stmts(
    cx: &Context,
    at: Seq<ScopeView>,
    stmts: Vec<Statement>,
    t: Aliases,
    n: int,
    key: (Seq<char>, Seq<char>),
)
    requires
        0 <= n <= stmts@.len(),
    ensures
        alias_stmts(cx, at, stmts, t, n).contains_key(key) <==> t.contains_key(key) || brought_among(
            aliasing(cx),
            at,
            stmts,
            n,
            key,
        ),
        n == stmts@.len() ==> (alias_stmts(cx, at, stmts, t, n).contains_key(key) <==> t.contains_key(key) || brought(
            aliasing(cx),
            at,
            stmts,
            key,
        )),
    decreases stmts, 2nat, n,
{
    lemma_brought(aliasing(cx), at, stmts, key);
    if n > 0 {
        lemma_alias_stmts(cx, at, stmts, t, n - 1, key);
        lemma_alias_stmt(cx, at, stmts[n - 1], alias_stmts(cx, at, stmts, t, n - 1), key);
    }
}

proof fn lemma_alias_blocks(
    cx: &Context,
    at: Seq<ScopeView>,
    s: Statement,
    t: Aliases,
    n: int,
    key: (Seq<char>, Seq<char>),
)
    requires
        0 <= n <= blocks(s).len(),
    ensures
        alias_blocks(cx, at, s, t, n).contains_key(key) <==> t.contains_key(key) || brought_in(
            aliasing(cx),
            at,
            s,
            n,
            key,
        ),
    decreases s, 0nat, n,
{
    if n > 0 {
        lemma_blocks_smaller(s, n - 1);
        lemma_alias_blocks(cx, at, s, t, n - 1, key);
        let before = alias_blocks(cx, at, s, t, n - 1);
        lemma_alias_stmts(cx, at, blocks(s)[n - 1], before, blocks(s)[n - 1]@.len() as int, key);
    }
}

proof fn lemma_alias_stmt(cx: &Context, at: Seq<ScopeView>, s: Statement, t: Aliases, key: (Seq<char>, Seq<char>))
    ensures
        alias_stmt(cx, at, s, t).contains_key(key) <==> t.contains_key(key) || brought_by(aliasing(cx), at, s, key),
    decreases s, 1nat, 0int,
{
    let f = aliasing(cx);
    match s.node {
        StmtNode::ClassDef(c) => {
            let inside = in_scope(at, ScopeKind::Class, c.name@);
            lemma_alias_stmts(cx, inside, c.body, t, c.body@.len() as int, key);
            assert(holds_block(at, s, inside, c.body));
        },
        StmtNode::FunctionDef(x) => {
            let inside = in_scope(at, ScopeKind::Function, x.name@);
            lemma_alias_stmts(cx, inside, x.body, t, x.body@.len() as int, key);
            assert(holds_block(at, s, inside, x.body));
        },
        StmtNode::Import(x) => {
            lemma_blocks(f, at, s, key);
            lemma_import_aliases(at, t, x, x.names@.len() as int, key);
        },
        StmtNode::ImportFrom(x) => {
            lemma_blocks(f, at, s, key);
            lemma_from_aliases(cx, at, t, x, x.names@.len() as int, key);
        },
        StmtNode::Assign { .. } | StmtNode::AnnAssign { .. } => {
            lemma_blocks(f, at, s, key);
            assert(key == (key.0, key.1));
        },
        _ => {
            lemma_blocks(f, at, s, key);
            lemma_alias_blocks(cx, at, s, t, blocks(s).len() as int, key);
        },
    }
}

/// A module has an alias for a name in a scope if and only if some statement in that scope gives it
/// one, at any depth of blocks, classes and functions.
pub proof fn aliases_are_those_that_are_given(
    cx: &Context,
    parsed: &ParsedModule,
    scope: Seq<char>,
    name: Seq<char>,
)
    ensures
        module_aliases(cx, parsed).contains_key((scope, name)) <==> exists|inner: Seq<ScopeView>, t: Statement|
            #[trigger] stands_in(parsed, inner, t) && gives_alias(cx, inner, t, (scope, name)),
{
    let at = in_module(parsed.name@);
    let key = (scope, name);
    let f = aliasing(cx);
    lemma_alias_stmts(cx, at, parsed.body, Map::empty(), parsed.body@.len() as int, key);
    lemma_in_module(f, parsed, key);
    lemma_same(f, |i: Seq<ScopeView>, t: Statement| gives_alias(cx, i, t, key), parsed, key);
}

/// The variables to which a statement binds a value at a place. Where it has no value, the annotation
/// of a variable counts in a stub, if it names a class.
pub open spec fn gives_value(x: &Binder, at: Seq<ScopeView>, t: Statement, key: (Seq<char>, Seq<char>)) -> bool {
    key.0 == current_scope(at) && match t.node {
        StmtNode::Assign { targets, .. } => exists|i: int|
            0 <= i < targets@.len() && var_name_of(#[trigger] targets@[i]) == Some(key.1),
        StmtNode::AnnAssign { target, annotation, value } => var_name_of(target) == Some(key.1) && (value is Some || (
        x.is_stub && class_at(x.cx, x.aliases.table(), at, annotation) is Some)),
        _ => false,
    }
}

spec fn binding(x: &Binder) -> Brings<(Seq<char>, Seq<char>)> {
    |at: Seq<ScopeView>, t: Statement, key: (Seq<char>, Seq<char>)| gives_value(x, at, t, key)
}

proof fn lemma_unknown(
    at: Seq<ScopeView>,
    b: Bindings,
    targets: Seq<Expression>,
    n: int,
    key: (Seq<char>, Seq<char>),
)
    requires
        0 <= n <= targets.len(),
    ensures
        with_unknown(at, b, targets, n).contains_key(key) <==> b.contains_key(key) || (key.0 == current_scope(at)
            && exists|i: int| 0 <= i < n && var_name_of(#[trigger] targets[i]) == Some(key.1)),
    decreases n,
{
    if n > 0 {
        lemma_unknown(at, b, targets, n - 1, key);
        let last = targets[n - 1];
        assert(key == (key.0, key.1));
    }
}

proof fn lemma_bind_stmts(
    x: &Binder,
    at: Seq<ScopeView>,
    stmts: Vec<Statement>,
    b: Bindings,
    n: int,
    key: (Seq<char>, Seq<char>),
)
    requires
        0 <= n <= stmts@.len(),
    ensures
        bind_stmts(x, at, stmts, b, n).contains_key(key) <==> b.contains_key(key) || brought_among(
            binding(x),
            at,
            stmts,
            n,
            key,
        ),
        n == stmts@.len() ==> (bind_stmts(x, at, stmts, b, n).contains_key(key) <==> b.contains_key(key) || brought(
            binding(x),
            at,
            stmts,
            key,
        )),
    decreases stmts, 2nat, n,
{
    lemma_brought(binding(x), at, stmts, key);
    if n > 0 {
        lemma_bind_stmts(x, at, stmts, b, n - 1, key);
        lemma_bind_stmt(x, at, stmts[n - 1], bind_stmts(x, at, stmts, b, n - 1), key);
    }
}

proof fn lemma_bind_blocks(
    x: &Binder,
    at: Seq<ScopeView>,
    s: Statement,
    b: Bindings,
    n: int,
    key: (Seq<char>, Seq<char>),
)
    requires
        0 <= n <= blocks(s).len(),
    ensures
        bind_blocks(x, at, s, b, n).contains_key(key) <==> b.contains_key(key) || brought_in(
            binding(x),
            at,
            s,
            n,
            key,
        ),
    decreases s, 0nat, n,
{
    if n > 0 {
        lemma_blocks_smaller(s, n - 1);
        lemma_bind_blocks(x, at, s, b, n - 1, key);
        let before = bind_blocks(x, at, s, b, n - 1);
        lemma_bind_stmts(x, at, blocks(s)[n - 1], before, blocks(s)[n - 1]@.len() as int, key);
    }
}

proof fn lemma_bind_stmt(x: &Binder, at: Seq<ScopeView>, s: Statement, b: Bindings, key: (Seq<char>, Seq<char>))
    ensures
        bind_stmt(x, at, s, b).contains_key(key) <==> b.contains_key(key) || brought_by(binding(x), at, s, key),
    decreases s, 1nat, 0int,
{
    let f = binding(x);
    match s.node {
        StmtNode::ClassDef(c) => {
            let inside = in_scope(at, ScopeKind::Class, c.name@);
            lemma_bind_stmts(x, inside, c.body, b, c.body@.len() as int, key);
            assert(holds_block(at, s, inside, c.body));
        },
        StmtNode::FunctionDef(y) => {
            let inside = in_scope(at, ScopeKind::Function, y.name@);
            lemma_bind_stmts(x, inside, y.body, b, y.body@.len() as int, key);
            assert(holds_block(at, s, inside, y.body));
        },
        StmtNode::Assign { targets, .. } => {
            lemma_blocks(f, at, s, key);
            lemma_unknown(at, b, targets@, targets@.len() as int, key);
            assert(key == (key.0, key.1));
            if targets@.len() == 1 && var_name_of(targets@[0]) == Some(key.1) && key.0 == current_scope(at) {
                assert(gives_value(x, at, s, key));
            }
        },
        StmtNode::AnnAssign { .. } => {
            lemma_blocks(f, at, s, key);
            assert(key == (key.0, key.1));
        },
        _ => {
            lemma_blocks(f, at, s, key);
            lemma_bind_blocks(x, at, s, b, blocks(s).len() as int, key);
        },
    }
}

/// A module has a value for a variable of a scope if and only if some statement in that scope binds
/// one, at any depth of blocks, classes and functions.
pub proof fn values_are_those_that_are_bound(
    cx: &Context,
    aliases: &AliasTable,
    parsed: &ParsedModule,
    scope: Seq<char>,
    name: Seq<char>,
)
    ensures
        module_bindings(cx, aliases, parsed).contains_key((scope, name)) <==> exists|
            inner: Seq<ScopeView>,
            t: Statement,
        |
            #[trigger] stands_in(parsed, inner, t) && gives_value(
                &(Binder { cx, aliases, is_stub: parsed.is_stub }),
                inner,
                t,
                (scope, name),
            ),
{
    let at = in_module(parsed.name@);
    let key = (scope, name);
    let x = &Binder { cx, aliases, is_stub: parsed.is_stub };
    let f = binding(x);
    lemma_bind_stmts(x, at, parsed.body, Map::empty(), parsed.body@.len() as int, key);
    lemma_in_module(f, parsed, key);
    lemma_same(f, |i: Seq<ScopeView>, t: Statement| gives_value(x, i, t, key), parsed, key);
}

/// A statement at a place defines a function, whose scope has the given name.
pub open spec fn defines_function(at: Seq<ScopeView>, t: Statement, scope: Seq<char>) -> bool {
    t.node matches StmtNode::FunctionDef(f) && scope == dotted(current_scope(at), f.name@)
}

/// A statement at a place defines a class, whose scope has the given name.
pub open spec fn defines_class(at: Seq<ScopeView>, t: Statement, scope: Seq<char>) -> bool {
    t.node matches StmtNode::ClassDef(c) && scope == dotted(current_scope(at), c.name@)
}

/// A place is in no function.
pub open spec fn outside_functions(at: Seq<ScopeView>) -> bool {
    forall|i: int| 0 <= i < at.len() ==> (#[trigger] at[i]).kind != ScopeKind::Function
}

spec fn functions() -> Brings<Seq<char>> {
    |at: Seq<ScopeView>, t: Statement, k: Seq<char>| defines_function(at, t, k)
}

spec fn classes() -> Brings<Seq<char>> {
    |at: Seq<ScopeView>, t: Statement, k: Seq<char>| defines_class(at, t, k)
}

spec fn eager_classes() -> Brings<Seq<char>> {
    |at: Seq<ScopeView>, t: Statement, k: Seq<char>| defines_class(at, t, k) && outside_functions(at)
}

/// What the tables have for a name, where some statements bring functions, classes and classes that
/// run at once.
spec fn has_entries(
    t: TableView,
    after: TableView,
    k: Seq<char>,
    function: bool,
    class: bool,
    eager: bool,
) -> bool {
    &&& after.functions.contains(k) <==> t.functions.contains(k) || function
    &&& after.param_names.contains_key(k) <==> t.param_names.contains_key(k) || function
    &&& after.classes.contains_key(k) <==> t.classes.contains_key(k) || class
    &&& after.definitions.contains_key(k) <==> t.definitions.contains_key(k) || function || class
    &&& after.eager_scopes.contains(k) <==> t.eager_scopes.contains(k) || eager
}

proof fn lemma_scan_stmts(m: ScopeAt, at: Seq<ScopeView>, stmts: Vec<Statement>, t: TableView, n: int, k: Seq<char>)
    requires
        0 <= n <= stmts@.len(),
        t.definitions.contains_key(current_scope(at)),
    ensures
        scan_stmts(m, at, stmts@, t, n).definitions.contains_key(current_scope(at)),
        has_entries(
            t,
            scan_stmts(m, at, stmts@, t, n),
            k,
            brought_among(functions(), at, stmts, n, k),
            brought_among(classes(), at, stmts, n, k),
            brought_among(eager_classes(), at, stmts, n, k),
        ),
        n == stmts@.len() ==> has_entries(
            t,
            scan_stmts(m, at, stmts@, t, n),
            k,
            brought(functions(), at, stmts, k),
            brought(classes(), at, stmts, k),
            brought(eager_classes(), at, stmts, k),
        ),
    decreases stmts, 2nat, n,
{
    lemma_brought(functions(), at, stmts, k);
    lemma_brought(classes(), at, stmts, k);
    lemma_brought(eager_classes(), at, stmts, k);
    if n > 0 {
        lemma_scan_stmts(m, at, stmts, t, n - 1, k);
        let before = scan_stmts(m, at, stmts@, t, n - 1);
        lemma_scan_stmt(m, at, stmts[n - 1], before, k);
        lemma_scan_stmt(m, at, stmts[n - 1], before, current_scope(at));
        assert(scan_stmts(m, at, stmts@, t, n) == scan_stmt(m, at, stmts@[n - 1], before));
    }
}

proof fn lemma_scan_blocks(m: ScopeAt, at: Seq<ScopeView>, s: Statement, t: TableView, n: int, k: Seq<char>)
    requires
        0 <= n <= blocks(s).len(),
        t.definitions.contains_key(current_scope(at)),
    ensures
        scan_blocks(m, at, s, t, n).definitions.contains_key(current_scope(at)),
        has_entries(
            t,
            scan_blocks(m, at, s, t, n),
            k,
            brought_in(functions(), at, s, n, k),
            brought_in(classes(), at, s, n, k),
            brought_in(eager_classes(), at, s, n, k),
        ),
    decreases s, 0nat, n,
{
    if n > 0 {
        lemma_blocks_smaller(s, n - 1);
        lemma_scan_blocks(m, at, s, t, n - 1, k);
        let before = scan_blocks(m, at, s, t, n - 1);
        lemma_scan_stmts(m, at, blocks(s)[n - 1], before, blocks(s)[n - 1]@.len() as int, k);
    }
}

proof fn lemma_scan_body(m: ScopeAt, at: Seq<ScopeView>, body: Vec<Statement>, t: TableView, k: Seq<char>)
    ensures
        has_entries(
            t.with_scope(at, scope_definitions(m, body@)),
            scan_body(m, at, body@, t),
            k,
            brought(functions(), at, body, k),
            brought(classes(), at, body, k),
            brought(eager_classes(), at, body, k),
        ),
    decreases body, 3nat, 0int,
{
    lemma_scan_stmts(m, at, body, t.with_scope(at, scope_definitions(m, body@)), body@.len() as int, k);
}

proof fn lemma_inside_class(at: Seq<ScopeView>, name: Seq<char>)
    ensures
        is_eager(in_scope(at, ScopeKind::Class, name)) <==> outside_functions(at),
        !is_eager(in_scope(at, ScopeKind::Function, name)),
{
    let inside = in_scope(at, ScopeKind::Class, name);
    if is_eager(inside) {
        assert forall|i: int| 0 <= i < at.len() implies (#[trigger] at[i]).kind != ScopeKind::Function by {
            assert(inside[i] == at[i]);
        }
    }
    if outside_functions(at) {
        assert forall|i: int| 0 <= i < inside.len() implies (#[trigger] inside[i]).kind != ScopeKind::Function by {
            if i < at.len() {
                assert(inside[i] == at[i]);
            }
        }
    }
    let function = in_scope(at, ScopeKind::Function, name);
    assert(function[at.len() as int].kind == ScopeKind::Function);
}

/// What stands in a function stays in it.
proof fn lemma_stays_inside(
    at: Seq<ScopeView>,
    stmts: Vec<Statement>,
    inner: Seq<ScopeView>,
    t: Statement,
    depth: nat,
)
    requires
        stands_at(at, stmts, inner, t, depth),
        !outside_functions(at),
    ensures
        !outside_functions(inner),
    decreases depth,
{
    if depth > 0 {
        let (i, mid, b) = choose|i: int, mid: Seq<ScopeView>, b: Vec<Statement>|
            0 <= i < stmts@.len() && #[trigger] holds_block(at, stmts@[i], mid, b) && stands_at(
                mid,
                b,
                inner,
                t,
                (depth - 1) as nat,
            );
        let j = choose|j: int| 0 <= j < at.len() && (#[trigger] at[j]).kind == ScopeKind::Function;
        assert(mid[j] == at[j]);
        assert(!outside_functions(mid));
        lemma_stays_inside(mid, b, inner, t, (depth - 1) as nat);
    }
}

#[verifier::rlimit(30)]
proof fn lemma_scan_stmt(m: ScopeAt, at: Seq<ScopeView>, s: Statement, t: TableView, k: Seq<char>)
    requires
        t.definitions.contains_key(current_scope(at)),
    ensures
        has_entries(
            t,
            scan_stmt(m, at, s, t),
            k,
            brought_by(functions(), at, s, k),
            brought_by(classes(), at, s, k),
            brought_by(eager_classes(), at, s, k),
        ),
    decreases s, 1nat, 0int,
{
    match s.node {
        StmtNode::ClassDef(c) => {
            let inside = in_scope(at, ScopeKind::Class, c.name@);
            let scope = current_scope(inside);
            let named = t.with_enclosing(scope, nearest_function(inside));
            let with_class = TableView {
                classes: named.classes.insert(scope, class_info(named.definitions, inside, m.module, c)),
                ..named
            };
            lemma_scan_body(m, inside, c.body, with_class, k);
            lemma_inside_class(at, c.name@);
            assert(holds_block(at, s, inside, c.body));
            assert(scan_stmt(m, at, s, t) == scan_body(m, inside, c.body@, with_class));
        },
        StmtNode::FunctionDef(f) => {
            let inside = in_scope(at, ScopeKind::Function, f.name@);
            let scope = current_scope(inside);
            let named = TableView { functions: t.functions.insert(scope), ..t }.with_enclosing(
                scope,
                enclosing_function(inside),
            );
            lemma_scan_body(m, inside, f.body, named, k);
            lemma_scan_body(m, inside, f.body, named, scope);
            lemma_inside_class(at, f.name@);
            assert(holds_block(at, s, inside, f.body));
            let body = scan_body(m, inside, f.body@, named);
            assert(scan_stmt(m, at, s, t) == table_with_params(body, scope, ordered_params(f.parameters)));
        },
        StmtNode::Assign { .. } => {
            lemma_blocks(functions(), at, s, k);
            lemma_blocks(classes(), at, s, k);
            lemma_blocks(eager_classes(), at, s, k);
        },
        _ => {
            lemma_blocks(functions(), at, s, k);
            lemma_blocks(classes(), at, s, k);
            lemma_blocks(eager_classes(), at, s, k);
            lemma_scan_blocks(m, at, s, t, blocks(s).len() as int, k);
        },
    }
}

/// The tables of a module have entries for just what stands in it, at any depth of blocks, classes and
/// functions: its functions with their parameters, its classes, the scope of each of these and of the
/// module; and of these scopes, the ones of the module and of the classes outside of functions run when
/// the module is imported.
pub proof fn tables_have_what_stands_in_the_module(
    parsed: &ParsedModule,
    config: &AnalysisConfig,
    scope: Seq<char>,
    function: bool,
    class: bool,
    eager: bool,
)
    requires
        function == exists|inner: Seq<ScopeView>, t: Statement| #[trigger]
            stands_in(parsed, inner, t) && defines_function(inner, t, scope),
        class == exists|inner: Seq<ScopeView>, t: Statement| #[trigger]
            stands_in(parsed, inner, t) && defines_class(inner, t, scope),
        eager == exists|inner: Seq<ScopeView>, t: Statement| #[trigger]
            stands_in(parsed, inner, t) && defines_class(inner, t, scope) && outside_functions(inner),
    ensures
        module_tables(parsed, config).functions.contains(scope) == function,
        module_tables(parsed, config).param_names.contains_key(scope) == function,
        module_tables(parsed, config).classes.contains_key(scope) == class,
        module_tables(parsed, config).definitions.contains_key(scope) == (function || class || scope == parsed.name@),
        module_tables(parsed, config).eager_scopes.contains(scope) == (eager || scope == parsed.name@),
{
    let at = in_module(parsed.name@);
    lemma_scan_body(module_at(parsed, config), at, parsed.body, TableView::nothing(), scope);
    lemma_in_module(functions(), parsed, scope);
    lemma_in_module(classes(), parsed, scope);
    lemma_in_module(eager_classes(), parsed, scope);
    assert(is_eager(at)) by {
        assert(at[0].kind == ScopeKind::Module);
    }
    assert(brought(functions(), at, parsed.body, scope) == function) by {
        lemma_same(functions(), |i: Seq<ScopeView>, t: Statement| defines_function(i, t, scope), parsed, scope);
    }
    assert(brought(classes(), at, parsed.body, scope) == class) by {
        lemma_same(classes(), |i: Seq<ScopeView>, t: Statement| defines_class(i, t, scope), parsed, scope);
    }
    assert(brought(eager_classes(), at, parsed.body, scope) == eager) by {
        lemma_same(
            eager_classes(),
            |i: Seq<ScopeView>, t: Statement| defines_class(i, t, scope) && outside_functions(i),
            parsed,
            scope,
        );
    }
}

proof fn lemma_in_module<K>(f: Brings<K>, parsed: &ParsedModule, k: K)
    ensures
        brought(f, in_module(parsed.name@), parsed.body, k) <==> exists|inner: Seq<ScopeView>, t: Statement| #[trigger]
            stands_in(parsed, inner, t) && f(inner, t, k),
{
    let at = in_module(parsed.name@);
    if brought(f, at, parsed.body, k) {
        let (inner, t, depth) = choose|inner: Seq<ScopeView>, t: Statement, depth: nat| #[trigger]
            stands_at(at, parsed.body, inner, t, depth) && f(inner, t, k);
        assert(stands_in(parsed, inner, t) && f(inner, t, k));
    }
    if exists|inner: Seq<ScopeView>, t: Statement| #[trigger] stands_in(parsed, inner, t) && f(inner, t, k) {
        let (inner, t) = choose|inner: Seq<ScopeView>, t: Statement| #[trigger]
            stands_in(parsed, inner, t) && f(inner, t, k);
        let depth = choose|depth: nat| #[trigger] stands_at(at, parsed.body, inner, t, depth);
        assert(f(inner, t, k));
    }
}

proof fn lemma_same<K>(f: Brings<K>, g: spec_fn(Seq<ScopeView>, Statement) -> bool, parsed: &ParsedModule, k: K)
    requires
        forall|i: Seq<ScopeView>, t: Statement| #[trigger] f(i, t, k) == g(i, t),
    ensures
        (exists|inner: Seq<ScopeView>, t: Statement| #[trigger] stands_in(parsed, inner, t) && f(inner, t, k)) == (
        exists|inner: Seq<ScopeView>, t: Statement| #[trigger] stands_in(parsed, inner, t) && g(inner, t)),
{
}

/// A statement at a place outside of functions defines a function that says which class it returns.
pub open spec fn gives_return_type(
    module: Seq<char>,
    defs: DefinitionsView,
    at: Seq<ScopeView>,
    t: Statement,
    function: Seq<char>,
) -> bool {
    outside_functions(at) && defines_function(at, t, function) && (t.node matches StmtNode::FunctionDef(f) && (
    f.return_annotation matches Some(annotation) && annotated_class(module, defs, annotation) is Some))
}

spec fn returning(module: Seq<char>, defs: DefinitionsView) -> Brings<Seq<char>> {
    |at: Seq<ScopeView>, t: Statement, k: Seq<char>| gives_return_type(module, defs, at, t, k)
}

proof fn lemma_types_stmts(
    module: Seq<char>,
    defs: DefinitionsView,
    at: Seq<ScopeView>,
    stmts: Vec<Statement>,
    known: Map<Seq<char>, Seq<char>>,
    n: int,
    k: Seq<char>,
)
    requires
        0 <= n <= stmts@.len(),
        outside_functions(at),
    ensures
        types_in_stmts(module, defs, current_scope(at), stmts, known, n).contains_key(k) <==> known.contains_key(k)
            || brought_among(returning(module, defs), at, stmts, n, k),
        n == stmts@.len() ==> (types_in_stmts(module, defs, current_scope(at), stmts, known, n).contains_key(k)
            <==> known.contains_key(k) || brought(returning(module, defs), at, stmts, k)),
    decreases stmts, 2nat, n,
{
    lemma_brought(returning(module, defs), at, stmts, k);
    if n > 0 {
        lemma_types_stmts(module, defs, at, stmts, known, n - 1, k);
        let before = types_in_stmts(module, defs, current_scope(at), stmts, known, n - 1);
        lemma_types_stmt(module, defs, at, stmts[n - 1], before, k);
    }
}

proof fn lemma_types_blocks(
    module: Seq<char>,
    defs: DefinitionsView,
    at: Seq<ScopeView>,
    s: Statement,
    known: Map<Seq<char>, Seq<char>>,
    n: int,
    k: Seq<char>,
)
    requires
        0 <= n <= blocks(s).len(),
        outside_functions(at),
    ensures
        types_in_blocks(module, defs, current_scope(at), s, known, n).contains_key(k) <==> known.contains_key(k)
            || brought_in(returning(module, defs), at, s, n, k),
    decreases s, 0nat, n,
{
    if n > 0 {
        lemma_blocks_smaller(s, n - 1);
        lemma_types_blocks(module, defs, at, s, known, n - 1, k);
        let before = types_in_blocks(module, defs, current_scope(at), s, known, n - 1);
        lemma_types_stmts(module, defs, at, blocks(s)[n - 1], before, blocks(s)[n - 1]@.len() as int, k);
    }
}

proof fn lemma_types_stmt(
    module: Seq<char>,
    defs: DefinitionsView,
    at: Seq<ScopeView>,
    s: Statement,
    known: Map<Seq<char>, Seq<char>>,
    k: Seq<char>,
)
    requires
        outside_functions(at),
    ensures
        types_in_stmt(module, defs, current_scope(at), s, known).contains_key(k) <==> known.contains_key(k)
            || brought_by(returning(module, defs), at, s, k),
    decreases s, 1nat, 0int,
{
    let f = returning(module, defs);
    match s.node {
        StmtNode::FunctionDef(x) => {
            let inside = in_scope(at, ScopeKind::Function, x.name@);
            assert(!outside_functions(inside)) by {
                assert(inside[at.len() as int].kind == ScopeKind::Function);
            }
            assert(!brought(f, inside, x.body, k)) by {
                if brought(f, inside, x.body, k) {
                    let (inner, t, depth) = choose|inner: Seq<ScopeView>, t: Statement, depth: nat| #[trigger]
                        stands_at(inside, x.body, inner, t, depth) && f(inner, t, k);
                    lemma_stays_inside(inside, x.body, inner, t, depth);
                }
            }
        },
        StmtNode::ClassDef(c) => {
            let inside = in_scope(at, ScopeKind::Class, c.name@);
            lemma_inside_class(at, c.name@);
            assert(outside_functions(inside));
            lemma_types_stmts(module, defs, inside, c.body, known, c.body@.len() as int, k);
            assert(holds_block(at, s, inside, c.body));
        },
        _ => {
            lemma_blocks(f, at, s, k);
            lemma_types_blocks(module, defs, at, s, known, blocks(s).len() as int, k);
        },
    }
}

/// A stub says which class a function returns if and only if the function is defined in it, outside of
/// functions and at any depth of blocks and classes, with an annotation that names a class. A source
/// file says it of no function.
pub proof fn return_types_are_those_that_are_annotated(
    parsed: &ParsedModule,
    sys: SysInfo,
    modules: Set<Seq<char>>,
    function: Seq<char>,
)
    ensures
        module_exports(parsed, sys, modules).return_types.contains_key(function) <==> parsed.is_stub && exists|
            inner: Seq<ScopeView>,
            t: Statement,
        |
            #[trigger] stands_in(parsed, inner, t) && gives_return_type(
                parsed.name@,
                scope_definitions(
                    ScopeAt { module: parsed.name@, is_init: parsed.is_init, sys, main: None },
                    parsed.body@,
                ),
                inner,
                t,
                function,
            ),
{
    let at = in_module(parsed.name@);
    let defs = scope_definitions(
        ScopeAt { module: parsed.name@, is_init: parsed.is_init, sys, main: None },
        parsed.body@,
    );
    let f = returning(parsed.name@, defs);
    assert(outside_functions(at)) by {
        assert(at[0].kind == ScopeKind::Module);
    }
    lemma_types_stmts(parsed.name@, defs, at, parsed.body, Map::empty(), parsed.body@.len() as int, function);
    lemma_in_module(f, parsed, function);
    lemma_same(
        f,
        |i: Seq<ScopeView>, t: Statement| gives_return_type(parsed.name@, defs, i, t, function),
        parsed,
        function,
    );
}

} // verus!
