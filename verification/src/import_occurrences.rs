//! Where in the sources of a module its imports stand, and that the graph of imports has them all.

use crate::ast::{
    blocks, lemma_blocks_smaller, Branch, Expression, ImportAlias, ImportFrom, Node, Statement, StmtNode,
};
use crate::config::may_run;
use crate::import_collector::{
    imports_are_edges_or_missing, imports_of, in_blocks, in_branches, in_stmt, in_stmts, is_import_graph,
    is_parsed, nothing_imported, parents_of, with_imports, with_imports_from, Collected, Looking, Sources,
};
use crate::importlib::{relative_name, within, ImportlibState};
use crate::imports::ImportGraph;
use crate::module_name::{dots_from_last, lemma_dots, optional_text};
use crate::name_sets::set_at;
use crate::sys_info::SysInfo;
use vstd::prelude::*;

verus! {

/// A statement holds a block in which an import counts: the body of a function or of a class, any
/// part of a `try` statement, or a branch of an `if` statement that may run.
pub open spec fn holds_block(sys: SysInfo, s: Statement, b: Vec<Statement>) -> bool {
    match s.node {
        StmtNode::FunctionDef(f) => b == f.body,
        StmtNode::ClassDef(c) => b == c.body,
        StmtNode::Try { body, handlers, orelse, finalbody } => {
            ||| b == body
            ||| b == orelse
            ||| b == finalbody
            ||| exists|i: int| 0 <= i < handlers@.len() && b == (#[trigger] handlers@[i]).body
        },
        StmtNode::If { branches } => exists|i: int|
            0 <= i < branches@.len() && #[trigger] may_run(sys, branches@, i) && b == branches@[i].body,
        _ => false,
    }
}

/// A statement stands among some statements, or that many blocks deep inside of them.
pub open spec fn occurs_at(sys: SysInfo, stmts: Vec<Statement>, t: Statement, depth: nat) -> bool
    decreases depth,
{
    if depth == 0 {
        stmts@.contains(t)
    } else {
        exists|i: int, b: Vec<Statement>|
            0 <= i < stmts@.len() && #[trigger] holds_block(sys, stmts@[i], b) && occurs_at(
                sys,
                b,
                t,
                (depth - 1) as nat,
            )
    }
}

/// A statement stands among some statements, or at any depth inside of them.
pub open spec fn occurs(sys: SysInfo, stmts: Vec<Statement>, t: Statement) -> bool {
    exists|depth: nat| #[trigger] occurs_at(sys, stmts, t, depth)
}

/// A name is that of a module that an `import` statement names, or stands before a dot of one.
pub open spec fn named_by_import(names: Seq<ImportAlias>, x: Seq<char>) -> bool {
    exists|k: int|
        0 <= k < names.len() && (x == (#[trigger] names[k]).name@ || (x.len() < names[k].name@.len()
            && names[k].name@[x.len() as int] == '.' && x == names[k].name@.take(x.len() as int)))
}

/// One of the names that a `from` statement imports, other than `*`, is `x` in the parent.
pub open spec fn named_in_parent(names: Seq<ImportAlias>, parent: Seq<char>, x: Seq<char>) -> bool {
    exists|k: int| 0 <= k < names.len() && (#[trigger] names[k]).name@ != "*"@ && x == within(parent, names[k].name@)
}

/// The module from which a `from` statement imports.
pub open spec fn parent_named(at: Looking, x: ImportFrom) -> Option<Seq<char>> {
    relative_name(at.module, at.is_init, x.level as nat, optional_text(x.module))
}

/// A statement imports a module: it is an `import` statement that names it or something in it, or
/// a `from` statement that imports from it, or that imports it from its parent. What a `from`
/// statement imports from a module that is known is a module where it is known as one.
pub open spec fn imports_module(at: Looking, t: Statement, x: Seq<char>) -> bool {
    match t.node {
        StmtNode::Import(i) => named_by_import(i.names@, x),
        StmtNode::ImportFrom(i) => match parent_named(at, i) {
            Some(parent) => {
                ||| x == parent && x.len() > 0
                ||| named_in_parent(i.names@, parent, x) && (at.known.contains(x) || !at.known.contains(parent))
            },
            None => false,
        },
        _ => false,
    }
}

/// A statement imports from a known module a name that is not that of a known module.
pub open spec fn imports_unknown(at: Looking, t: Statement, x: Seq<char>) -> bool {
    match t.node {
        StmtNode::ImportFrom(i) => match parent_named(at, i) {
            Some(parent) => named_in_parent(i.names@, parent, x) && at.known.contains(parent) && !at.known.contains(x),
            None => false,
        },
        _ => false,
    }
}

/// An expression is a call of `import_module` on the name of a module.
pub open spec fn calls_for(state: ImportlibState, e: Expression, x: Seq<char>) -> bool {
    match e.node {
        Node::Call { func, arguments } => state.imported_by_call(*func, arguments) == Some(x),
        _ => false,
    }
}

/// A statement is a call of `import_module` on the name of a module, or assigns what one returns.
pub open spec fn loads_module(state: ImportlibState, t: Statement, x: Seq<char>) -> bool {
    match t.node {
        StmtNode::Expr { value, .. } => calls_for(state, value, x),
        StmtNode::Assign { value, .. } => calls_for(state, value, x),
        _ => false,
    }
}

spec fn any_state() -> ImportlibState {
    ImportlibState { has_importlib: true, has_import_module: true }
}

spec fn state_of(c: Collected) -> ImportlibState {
    ImportlibState { has_importlib: c.has_importlib, has_import_module: c.has_import_module }
}

spec fn grows(c: Collected, d: Collected) -> bool {
    &&& c.imports.subset_of(d.imports)
    &&& c.ambiguous.subset_of(d.ambiguous)
    &&& c.has_importlib ==> d.has_importlib
    &&& c.has_import_module ==> d.has_import_module
}

/// Two collections differ only by what a statement brings.
spec fn brings(at: Looking, t: Statement, c: Collected, d: Collected) -> bool {
    &&& forall|x: Seq<char>| #[trigger] imports_module(at, t, x) ==> d.imports.contains(x)
    &&& forall|x: Seq<char>| #[trigger] imports_unknown(at, t, x) ==> d.ambiguous.contains(x)
    &&& forall|x: Seq<char>| #[trigger]
        d.imports.contains(x) ==> c.imports.contains(x) || imports_module(at, t, x) || loads_module(any_state(), t, x)
    &&& forall|x: Seq<char>| #[trigger]
        d.ambiguous.contains(x) ==> c.ambiguous.contains(x) || imports_unknown(at, t, x)
}

proof fn lemma_parents(name: Seq<char>, x: Seq<char>)
    ensures
        parents_of(name).to_set().contains(x) <==> x.len() < name.len() && name[x.len() as int] == '.' && x
            == name.take(x.len() as int),
{
    lemma_dots(name);
    let dots = dots_from_last(name);
    if parents_of(name).to_set().contains(x) {
        let k = parents_of(name).index_of(x);
        assert(parents_of(name)[k] == x);
    }
    if x.len() < name.len() && name[x.len() as int] == '.' && x == name.take(x.len() as int) {
        assert(dots.contains(x.len() as int));
        let k = dots.index_of(x.len() as int);
        assert(parents_of(name)[dots.len() - 1 - k] == x);
    }
}

proof fn lemma_import(c: Collected, names: Seq<ImportAlias>, n: int)
    requires
        0 <= n <= names.len(),
    ensures
        grows(c, with_imports(c, names, n)),
        with_imports(c, names, n).ambiguous == c.ambiguous,
        forall|x: Seq<char>| #[trigger]
            with_imports(c, names, n).imports.contains(x) <==> c.imports.contains(x) || named_by_import(names.take(n), x),
    decreases n,
{
    if n > 0 {
        lemma_import(c, names, n - 1);
        let before = with_imports(c, names, n - 1);
        let last = names[n - 1].name@;
        assert forall|x: Seq<char>| #[trigger]
            with_imports(c, names, n).imports.contains(x) <==> c.imports.contains(x) || named_by_import(names.take(n), x) by {
            lemma_parents(last, x);
            let fewer = names.take(n - 1);
            let more = names.take(n);
            assert(before.imports.contains(x) <==> c.imports.contains(x) || named_by_import(fewer, x));
            assert(more[n - 1].name@ == last);
            if named_by_import(fewer, x) {
                let k = choose|k: int|
                    0 <= k < fewer.len() && (x == (#[trigger] fewer[k]).name@ || (x.len() < fewer[k].name@.len()
                        && fewer[k].name@[x.len() as int] == '.' && x == fewer[k].name@.take(x.len() as int)));
                assert(more[k] == fewer[k]);
            }
            if named_by_import(more, x) {
                let k = choose|k: int|
                    0 <= k < more.len() && (x == (#[trigger] more[k]).name@ || (x.len() < more[k].name@.len()
                        && more[k].name@[x.len() as int] == '.' && x == more[k].name@.take(x.len() as int)));
                if k < n - 1 {
                    assert(more[k] == fewer[k]);
                }
            }
        }
    }
}

proof fn lemma_import_from(at: Looking, c: Collected, parent: Seq<char>, names: Seq<ImportAlias>, n: int)
    requires
        0 <= n <= names.len(),
    ensures
        grows(c, with_imports_from(at, c, parent, names, n)),
        forall|x: Seq<char>| #[trigger]
            with_imports_from(at, c, parent, names, n).imports.contains(x) <==> c.imports.contains(x) || (
            named_in_parent(names.take(n), parent, x) && (at.known.contains(x) || !at.known.contains(parent))),
        forall|x: Seq<char>| #[trigger]
            with_imports_from(at, c, parent, names, n).ambiguous.contains(x) <==> c.ambiguous.contains(x) || (
            named_in_parent(names.take(n), parent, x) && at.known.contains(parent) && !at.known.contains(x)),
    decreases n,
{
    if n > 0 {
        lemma_import_from(at, c, parent, names, n - 1);
        let fewer = names.take(n - 1);
        let more = names.take(n);
        assert forall|x: Seq<char>|
            named_in_parent(more, parent, x) <==> #[trigger] named_in_parent(fewer, parent, x) || (names[n - 1].name@
                != "*"@ && x == within(parent, names[n - 1].name@)) by {
            assert(more[n - 1] == names[n - 1]);
            if named_in_parent(fewer, parent, x) {
                let k = choose|k: int|
                    0 <= k < fewer.len() && (#[trigger] fewer[k]).name@ != "*"@ && x == within(parent, fewer[k].name@);
                assert(more[k] == fewer[k]);
            }
            if named_in_parent(more, parent, x) {
                let k = choose|k: int|
                    0 <= k < more.len() && (#[trigger] more[k]).name@ != "*"@ && x == within(parent, more[k].name@);
                if k < n - 1 {
                    assert(more[k] == fewer[k]);
                }
            }
        }
        let before = with_imports_from(at, c, parent, names, n - 1);
        let after = with_imports_from(at, c, parent, names, n);
        assert forall|x: Seq<char>| #[trigger]
            after.imports.contains(x) <==> c.imports.contains(x) || (named_in_parent(more, parent, x) && (
            at.known.contains(x) || !at.known.contains(parent))) by {
            assert(before.imports.contains(x) <==> c.imports.contains(x) || (named_in_parent(fewer, parent, x) && (
            at.known.contains(x) || !at.known.contains(parent))));
        }
        assert forall|x: Seq<char>| #[trigger]
            after.ambiguous.contains(x) <==> c.ambiguous.contains(x) || (named_in_parent(more, parent, x)
                && at.known.contains(parent) && !at.known.contains(x)) by {
            assert(before.ambiguous.contains(x) <==> c.ambiguous.contains(x) || (named_in_parent(fewer, parent, x)
                && at.known.contains(parent) && !at.known.contains(x)));
        }
    } else {
        assert forall|x: Seq<char>| !#[trigger] named_in_parent(names.take(n), parent, x) by {}
    }
}

/// What a statement without blocks brings is what it imports.
proof fn lemma_own(at: Looking, t: Statement, c: Collected)
    requires
        t.node is Import || t.node is ImportFrom || t.node is Expr || t.node is Assign,
    ensures
        brings(at, t, c, in_stmt(at, t, c)),
        grows(c, in_stmt(at, t, c)),
{
    match t.node {
        StmtNode::Import(i) => {
            lemma_import(c, i.names@, i.names@.len() as int);
            assert(i.names@.take(i.names@.len() as int) =~= i.names@);
        },
        StmtNode::ImportFrom(i) => {
            match parent_named(at, i) {
                Some(parent) => {
                    let c1 = if parent.len() > 0 {
                        Collected { imports: c.imports.insert(parent), ..c }
                    } else {
                        c
                    };
                    lemma_import_from(at, c1, parent, i.names@, i.names@.len() as int);
                    assert(i.names@.take(i.names@.len() as int) =~= i.names@);
                },
                None => {},
            }
        },
        _ => {},
    }
}

proof fn lemma_grows_stmts(at: Looking, stmts: Vec<Statement>, c: Collected, n: int)
    ensures
        grows(c, in_stmts(at, stmts, c, n)),
    decreases stmts, 2nat, n,
{
    if 0 < n <= stmts@.len() {
        let before = in_stmts(at, stmts, c, n - 1);
        lemma_grows_stmts(at, stmts, c, n - 1);
        lemma_grows_stmt(at, stmts[n - 1], before);
    }
}

proof fn lemma_grows_branches(at: Looking, branches: Vec<Branch>, c: Collected, n: int)
    ensures
        grows(c, in_branches(at, branches, c, n)),
    decreases branches, 0nat, n,
{
    if 0 < n <= branches@.len() {
        let before = in_branches(at, branches, c, n - 1);
        lemma_grows_branches(at, branches, c, n - 1);
        lemma_grows_stmts(at, branches[n - 1].body, before, branches[n - 1].body@.len() as int);
    }
}

proof fn lemma_grows_blocks(at: Looking, s: Statement, c: Collected, n: int)
    ensures
        grows(c, in_blocks(at, s, c, n)),
    decreases s, 0nat, n,
{
    if 0 < n <= blocks(s).len() {
        lemma_blocks_smaller(s, n - 1);
        let before = in_blocks(at, s, c, n - 1);
        lemma_grows_blocks(at, s, c, n - 1);
        lemma_grows_stmts(at, blocks(s)[n - 1], before, blocks(s)[n - 1]@.len() as int);
    }
}

proof fn lemma_grows_stmt(at: Looking, s: Statement, c: Collected)
    ensures
        grows(c, in_stmt(at, s, c)),
    decreases s, 1nat, 0int,
{
    match s.node {
        StmtNode::Import(_) | StmtNode::ImportFrom(_) | StmtNode::Expr { .. } | StmtNode::Assign { .. } => {
            lemma_own(at, s, c);
        },
        StmtNode::If { branches } => lemma_grows_branches(at, branches, c, branches@.len() as int),
        StmtNode::Try { .. } => lemma_grows_blocks(at, s, c, blocks(s).len() as int),
        StmtNode::FunctionDef(f) => lemma_grows_stmts(at, f.body, c, f.body@.len() as int),
        StmtNode::ClassDef(x) => lemma_grows_stmts(at, x.body, c, x.body@.len() as int),
        _ => {},
    }
}

proof fn lemma_more_stmts(at: Looking, stmts: Vec<Statement>, c: Collected, n: int, m: int)
    requires
        0 <= n <= m <= stmts@.len(),
    ensures
        grows(in_stmts(at, stmts, c, n), in_stmts(at, stmts, c, m)),
    decreases m - n,
{
    if n < m {
        lemma_more_stmts(at, stmts, c, n, m - 1);
        lemma_grows_stmt(at, stmts[m - 1], in_stmts(at, stmts, c, m - 1));
    }
}

proof fn lemma_more_branches(at: Looking, branches: Vec<Branch>, c: Collected, n: int, m: int)
    requires
        0 <= n <= m <= branches@.len(),
    ensures
        grows(in_branches(at, branches, c, n), in_branches(at, branches, c, m)),
    decreases m - n,
{
    if n < m {
        lemma_more_branches(at, branches, c, n, m - 1);
        lemma_grows_stmts(
            at,
            branches[m - 1].body,
            in_branches(at, branches, c, m - 1),
            branches[m - 1].body@.len() as int,
        );
    }
}

proof fn lemma_more_blocks(at: Looking, s: Statement, c: Collected, n: int, m: int)
    requires
        0 <= n <= m <= blocks(s).len(),
    ensures
        grows(in_blocks(at, s, c, n), in_blocks(at, s, c, m)),
    decreases m - n,
{
    if n < m {
        lemma_more_blocks(at, s, c, n, m - 1);
        lemma_grows_stmts(at, blocks(s)[m - 1], in_blocks(at, s, c, m - 1), blocks(s)[m - 1]@.len() as int);
    }
}

/// What stands in a block of a statement is looked at with the statement.
proof fn lemma_block_seen(at: Looking, s: Statement, b: Vec<Statement>, c: Collected) -> (before: Collected)
    requires
        holds_block(at.sys, s, b),
    ensures
        grows(c, before),
        grows(in_stmts(at, b, before, b@.len() as int), in_stmt(at, s, c)),
{
    match s.node {
        StmtNode::FunctionDef(_) | StmtNode::ClassDef(_) => c,
        StmtNode::If { branches } => {
            let i = choose|i: int|
                0 <= i < branches@.len() && #[trigger] may_run(at.sys, branches@, i) && b == branches@[i].body;
            lemma_grows_branches(at, branches, c, i);
            lemma_more_branches(at, branches, c, i + 1, branches@.len() as int);
            in_branches(at, branches, c, i)
        },
        StmtNode::Try { body, handlers, orelse, finalbody } => {
            let n = handlers@.len() as int;
            let k: int = if b == body {
                0
            } else if b == orelse {
                n + 1
            } else if b == finalbody {
                n + 2
            } else {
                1 + choose|i: int| 0 <= i < n && b == (#[trigger] handlers@[i]).body
            };
            assert(blocks(s)[k] == b);
            lemma_grows_blocks(at, s, c, k);
            lemma_more_blocks(at, s, c, k + 1, blocks(s).len() as int);
            in_blocks(at, s, c, k)
        },
        _ => c,
    }
}

/// Nothing that a statement imports, at any depth, is left out.
proof fn lemma_complete(at: Looking, stmts: Vec<Statement>, c: Collected, t: Statement, depth: nat)
    requires
        occurs_at(at.sys, stmts, t, depth),
    ensures
        forall|x: Seq<char>| #[trigger]
            imports_module(at, t, x) ==> in_stmts(at, stmts, c, stmts@.len() as int).imports.contains(x),
        forall|x: Seq<char>| #[trigger]
            imports_unknown(at, t, x) ==> in_stmts(at, stmts, c, stmts@.len() as int).ambiguous.contains(x),
        forall|x: Seq<char>| #[trigger]
            loads_module(state_of(c), t, x) ==> in_stmts(at, stmts, c, stmts@.len() as int).imports.contains(x),
    decreases depth,
{
    if depth == 0 {
        let i = stmts@.index_of(t);
        assert(stmts@[i] == t);
        let own = in_stmts(at, stmts, c, i);
        lemma_grows_stmts(at, stmts, c, i);
        if t.node is Import || t.node is ImportFrom {
            lemma_own(at, t, own);
        }
        assert forall|x: Seq<char>| #[trigger] loads_module(state_of(c), t, x) implies in_stmt(
            at,
            t,
            own,
        ).imports.contains(x) by {
            assert(loads_module(state_of(own), t, x));
        }
        lemma_more_stmts(at, stmts, c, i + 1, stmts@.len() as int);
    } else {
        let (i, b) = choose|i: int, b: Vec<Statement>|
            0 <= i < stmts@.len() && #[trigger] holds_block(at.sys, stmts@[i], b) && occurs_at(
                at.sys,
                b,
                t,
                (depth - 1) as nat,
            );
        lemma_grows_stmts(at, stmts, c, i);
        let before = lemma_block_seen(at, stmts@[i], b, in_stmts(at, stmts, c, i));
        lemma_complete(at, b, before, t, (depth - 1) as nat);
        assert forall|x: Seq<char>| #[trigger] loads_module(state_of(c), t, x) implies loads_module(
            state_of(before),
            t,
            x,
        ) by {}
        lemma_more_stmts(at, stmts, c, i + 1, stmts@.len() as int);
    }
}

/// Somewhere among some statements one imports a module, or loads it.
spec fn comes_from(at: Looking, stmts: Vec<Statement>, x: Seq<char>) -> bool {
    exists|t: Statement| #[trigger]
        occurs(at.sys, stmts, t) && (imports_module(at, t, x) || loads_module(any_state(), t, x))
}

/// Somewhere among some statements one imports a name that is not known from a known module.
spec fn comes_unknown_from(at: Looking, stmts: Vec<Statement>, x: Seq<char>) -> bool {
    exists|t: Statement| #[trigger] occurs(at.sys, stmts, t) && imports_unknown(at, t, x)
}

/// What there is after some statements was there before, or comes from them.
spec fn accounted(at: Looking, stmts: Vec<Statement>, c: Collected, d: Collected) -> bool {
    &&& forall|x: Seq<char>| #[trigger]
        d.imports.contains(x) ==> c.imports.contains(x) || comes_from(at, stmts, x)
    &&& forall|x: Seq<char>| #[trigger]
        d.ambiguous.contains(x) ==> c.ambiguous.contains(x) || comes_unknown_from(at, stmts, x)
}

proof fn lemma_occurs_deeper(sys: SysInfo, stmts: Vec<Statement>, i: int, b: Vec<Statement>, t: Statement)
    requires
        0 <= i < stmts@.len(),
        holds_block(sys, stmts@[i], b),
        occurs(sys, b, t),
    ensures
        occurs(sys, stmts, t),
{
    let depth = choose|depth: nat| #[trigger] occurs_at(sys, b, t, depth);
    assert(holds_block(sys, stmts@[i], b) && occurs_at(sys, b, t, depth));
    assert(occurs_at(sys, stmts, t, depth + 1));
}

/// What is accounted for in a block of one of some statements is accounted for in them.
proof fn lemma_accounted_deeper(
    at: Looking,
    stmts: Vec<Statement>,
    i: int,
    b: Vec<Statement>,
    c: Collected,
    before: Collected,
    d: Collected,
)
    requires
        0 <= i < stmts@.len(),
        holds_block(at.sys, stmts@[i], b),
        accounted(at, stmts, c, before),
        accounted(at, b, before, d),
    ensures
        accounted(at, stmts, c, d),
{
    assert forall|x: Seq<char>| #[trigger] d.imports.contains(x) implies c.imports.contains(x) || comes_from(
        at,
        stmts,
        x,
    ) by {
        if !before.imports.contains(x) {
            let t = choose|t: Statement| #[trigger]
                occurs(at.sys, b, t) && (imports_module(at, t, x) || loads_module(any_state(), t, x));
            lemma_occurs_deeper(at.sys, stmts, i, b, t);
        }
    }
    assert forall|x: Seq<char>| #[trigger] d.ambiguous.contains(x) implies c.ambiguous.contains(x)
        || comes_unknown_from(at, stmts, x) by {
        if !before.ambiguous.contains(x) {
            let t = choose|t: Statement| #[trigger] occurs(at.sys, b, t) && imports_unknown(at, t, x);
            lemma_occurs_deeper(at.sys, stmts, i, b, t);
        }
    }
}

proof fn lemma_accounted_branches(
    at: Looking,
    stmts: Vec<Statement>,
    i: int,
    branches: Vec<Branch>,
    c: Collected,
    from: Collected,
    n: int,
)
    requires
        0 <= i < stmts@.len(),
        stmts@[i].node == (StmtNode::If { branches }),
        accounted(at, stmts, c, from),
        0 <= n <= branches@.len(),
    ensures
        accounted(at, stmts, c, in_branches(at, branches, from, n)),
    decreases branches, 0nat, n,
{
    if n > 0 {
        let before = in_branches(at, branches, from, n - 1);
        lemma_accounted_branches(at, stmts, i, branches, c, from, n - 1);
        if may_run(at.sys, branches@, n - 1) {
            let b = branches@[n - 1].body;
            assert(holds_block(at.sys, stmts@[i], b));
            lemma_accounted(at, b, before, b@.len() as int);
            lemma_accounted_deeper(at, stmts, i, b, c, before, in_branches(at, branches, from, n));
        }
    }
}

proof fn lemma_accounted_blocks(
    at: Looking,
    stmts: Vec<Statement>,
    i: int,
    s: Statement,
    c: Collected,
    from: Collected,
    n: int,
)
    requires
        0 <= i < stmts@.len(),
        stmts@[i] == s,
        s.node is Try,
        accounted(at, stmts, c, from),
        0 <= n <= blocks(s).len(),
    ensures
        accounted(at, stmts, c, in_blocks(at, s, from, n)),
    decreases s, 0nat, n,
{
    if n > 0 {
        let before = in_blocks(at, s, from, n - 1);
        lemma_accounted_blocks(at, stmts, i, s, c, from, n - 1);
        lemma_blocks_smaller(s, n - 1);
        let b = blocks(s)[n - 1];
        match s.node {
            StmtNode::Try { body, handlers, orelse, finalbody } => {
                if 1 <= n - 1 <= handlers@.len() {
                    assert(b == handlers@[n - 2].body);
                }
            },
            _ => {},
        }
        assert(holds_block(at.sys, s, b));
        lemma_accounted(at, b, before, b@.len() as int);
        lemma_accounted_deeper(at, stmts, i, b, c, before, in_blocks(at, s, from, n));
    }
}

/// Nothing is imported that no statement imports.
proof fn lemma_accounted(at: Looking, stmts: Vec<Statement>, c: Collected, n: int)
    requires
        0 <= n <= stmts@.len(),
    ensures
        accounted(at, stmts, c, in_stmts(at, stmts, c, n)),
    decreases stmts, 2nat, n,
{
    if n > 0 {
        let before = in_stmts(at, stmts, c, n - 1);
        let after = in_stmts(at, stmts, c, n);
        lemma_accounted(at, stmts, c, n - 1);
        let s = stmts@[n - 1];
        assert(after == in_stmt(at, s, before));
        match s.node {
            StmtNode::Import(_) | StmtNode::ImportFrom(_) | StmtNode::Expr { .. } | StmtNode::Assign { .. } => {
                lemma_own(at, s, before);
                assert(occurs_at(at.sys, stmts, s, 0));
                assert(occurs(at.sys, stmts, s));
            },
            StmtNode::If { branches } => {
                lemma_accounted_branches(at, stmts, n - 1, branches, c, before, branches@.len() as int);
            },
            StmtNode::Try { .. } => {
                lemma_accounted_blocks(at, stmts, n - 1, s, c, before, blocks(s).len() as int);
            },
            StmtNode::FunctionDef(f) => {
                lemma_accounted(at, f.body, before, f.body@.len() as int);
                assert(after == in_stmts(at, f.body, before, f.body@.len() as int));
                lemma_accounted_deeper(at, stmts, n - 1, f.body, c, before, after);
            },
            StmtNode::ClassDef(x) => {
                lemma_accounted(at, x.body, before, x.body@.len() as int);
                assert(after == in_stmts(at, x.body, before, x.body@.len() as int));
                lemma_accounted_deeper(at, stmts, n - 1, x.body, c, before, after);
            },
            _ => {},
        }
    }
}

/// What a module of a project is looked through for.
pub open spec fn looking_at(sources: &Sources, sys: SysInfo, module: Seq<char>) -> Looking {
    Looking { module, is_init: sources@[module]->Parsed_0.is_init, sys, known: sources@.dom() }
}

/// The statements of a parsed module of a project.
pub open spec fn body_of(sources: &Sources, module: Seq<char>) -> Vec<Statement> {
    sources@[module]->Parsed_0.body
}

/// The graph of imports is complete. Wherever in a parsed module a statement imports another
/// module, inside of functions, classes, `try` statements and branches that may run, to any depth,
/// there is an edge between the two, or the other one is missing. A name that is imported from a
/// known module, and is not that of a known one, is kept as ambiguous.
pub proof fn every_import_is_in_the_graph(
    g: &ImportGraph,
    sources: &Sources,
    sys: SysInfo,
    module: Seq<char>,
    t: Statement,
    x: Seq<char>,
)
    requires
        is_import_graph(g, sources, sys),
        is_parsed(sources, module),
        occurs(sys, body_of(sources, module), t),
    ensures
        imports_module(looking_at(sources, sys, module), t, x) ==> g.graph.links(module, x) || set_at(
            g.missing(),
            module,
        ).contains(x),
        imports_unknown(looking_at(sources, sys, module), t, x) ==> set_at(g.ambiguous(), module).contains(x),
{
    let at = looking_at(sources, sys, module);
    let depth = choose|depth: nat| #[trigger] occurs_at(sys, body_of(sources, module), t, depth);
    lemma_complete(at, body_of(sources, module), nothing_imported(), t, depth);
    imports_are_edges_or_missing(g, sources, sys, module, x);
    if imports_unknown(at, t, x) {
        let names = imports_of(sources, sys, module).ambiguous;
        assert(names.contains(x));
        assert(!(names =~= Set::<Seq<char>>::empty()));
        assert(g.ambiguous().contains_key(module));
    }
}

/// The graph of imports has nothing else: where one module links to another, or misses one, some
/// statement of it imports the other, or is a call of `import_module` on its name. What is
/// ambiguous is imported, from a known module, by some statement too.
pub proof fn the_graph_has_only_imports(
    g: &ImportGraph,
    sources: &Sources,
    sys: SysInfo,
    module: Seq<char>,
    x: Seq<char>,
)
    requires
        is_import_graph(g, sources, sys),
    ensures
        g.graph.links(module, x) || set_at(g.missing(), module).contains(x) ==> exists|t: Statement| #[trigger]
            occurs(sys, body_of(sources, module), t) && (imports_module(looking_at(sources, sys, module), t, x)
                || loads_module(ImportlibState { has_importlib: true, has_import_module: true }, t, x)),
        set_at(g.ambiguous(), module).contains(x) ==> exists|t: Statement| #[trigger]
            occurs(sys, body_of(sources, module), t) && imports_unknown(looking_at(sources, sys, module), t, x),
{
    let at = looking_at(sources, sys, module);
    let body = body_of(sources, module);
    lemma_accounted(at, body, nothing_imported(), body@.len() as int);
    imports_are_edges_or_missing(g, sources, sys, module, x);
    if g.graph.links(module, x) || set_at(g.missing(), module).contains(x) {
        assert(g.graph.node_set().contains(module));
        assert(imports_of(sources, sys, module).imports.contains(x));
        assert(comes_from(at, body, x));
    }
    if set_at(g.ambiguous(), module).contains(x) {
        assert(imports_of(sources, sys, module).ambiguous.contains(x));
        assert(comes_unknown_from(at, body, x));
    }
}

/// A statement is another one, or holds it at some depth.
pub open spec fn is_or_holds(sys: SysInfo, s: Statement, t: Statement) -> bool {
    s == t || exists|b: Vec<Statement>| #[trigger] holds_block(sys, s, b) && occurs(sys, b, t)
}

/// A statement is `import importlib`, or imports something in it.
pub open spec fn imports_importlib(s: Statement) -> bool {
    match s.node {
        StmtNode::Import(i) => named_by_import(i.names@, "importlib"@),
        _ => false,
    }
}

/// A statement is `from importlib import import_module`.
pub open spec fn imports_import_module(at: Looking, s: Statement) -> bool {
    match s.node {
        StmtNode::ImportFrom(i) => parent_named(at, i) == Some("importlib"@) && exists|k: int|
            0 <= k < i.names@.len() && (#[trigger] i.names@[k]).name@ == "import_module"@,
        _ => false,
    }
}

proof fn lemma_importlib_flag(c: Collected, names: Seq<ImportAlias>, k: int, n: int)
    requires
        0 <= k < n <= names.len(),
        named_by_import(seq![names[k]], "importlib"@),
    ensures
        with_imports(c, names, n).has_importlib,
    decreases n,
{
    if k < n - 1 {
        lemma_importlib_flag(c, names, k, n - 1);
    } else {
        let name = names[k].name@;
        assert(seq![names[k]][0].name@ == name);
        reveal_strlit("importlib");
        reveal_strlit("importlib.");
        if name != "importlib"@ {
            assert(name.take("importlib."@.len() as int) =~= "importlib."@) by {
                assert("importlib."@ =~= "importlib"@.push('.'));
                assert(name.take(9) =~= "importlib"@);
            }
        }
    }
}

proof fn lemma_import_module_flag(at: Looking, c: Collected, names: Seq<ImportAlias>, k: int, n: int)
    requires
        0 <= k < n <= names.len(),
        names[k].name@ == "import_module"@,
    ensures
        with_imports_from(at, c, "importlib"@, names, n).has_import_module,
    decreases n,
{
    if k < n - 1 {
        lemma_import_module_flag(at, c, names, k, n - 1);
    }
}

/// A call of `import_module`, at any depth inside of a statement, imports the module that it names
/// where an earlier statement of the module imports `importlib` or that function from it.
pub proof fn import_module_calls_are_in_the_graph(
    g: &ImportGraph,
    sources: &Sources,
    sys: SysInfo,
    module: Seq<char>,
    i: int,
    j: int,
    t: Statement,
    x: Seq<char>,
)
    requires
        is_import_graph(g, sources, sys),
        is_parsed(sources, module),
        0 <= i < j < body_of(sources, module)@.len(),
        is_or_holds(sys, body_of(sources, module)@[j], t),
        loads_module(
            ImportlibState {
                has_importlib: imports_importlib(body_of(sources, module)@[i]),
                has_import_module: imports_import_module(
                    looking_at(sources, sys, module),
                    body_of(sources, module)@[i],
                ),
            },
            t,
            x,
        ),
    ensures
        g.graph.links(module, x) || set_at(g.missing(), module).contains(x),
{
    let at = looking_at(sources, sys, module);
    let body = body_of(sources, module);
    let c = nothing_imported();
    let s = body@[i];
    let after = in_stmts(at, body, c, i + 1);
    let before = in_stmts(at, body, c, i);
    match s.node {
        StmtNode::Import(y) => {
            if imports_importlib(s) {
                let k = choose|k: int|
                    0 <= k < y.names@.len() && ("importlib"@ == (#[trigger] y.names@[k]).name@ || ("importlib"@.len()
                        < y.names@[k].name@.len() && y.names@[k].name@["importlib"@.len() as int] == '.'
                        && "importlib"@ == y.names@[k].name@.take("importlib"@.len() as int)));
                assert(seq![y.names@[k]][0] == y.names@[k]);
                lemma_importlib_flag(before, y.names@, k, y.names@.len() as int);
            }
        },
        StmtNode::ImportFrom(y) => {
            if imports_import_module(at, s) {
                let parent = "importlib"@;
                let k = choose|k: int|
                    0 <= k < y.names@.len() && (#[trigger] y.names@[k]).name@ == "import_module"@;
                let c1 = if parent.len() > 0 {
                    Collected { imports: before.imports.insert(parent), ..before }
                } else {
                    before
                };
                lemma_import_module_flag(at, c1, y.names@, k, y.names@.len() as int);
            }
        },
        _ => {},
    }
    assert(after == in_stmt(at, s, before));
    assert(imports_importlib(s) ==> after.has_importlib);
    assert(imports_import_module(at, s) ==> after.has_import_module);
    lemma_more_stmts(at, body, c, i + 1, j);
    let own = in_stmts(at, body, c, j);
    let r = body@[j];
    assert(own.has_importlib || !imports_importlib(s));
    assert(own.has_import_module || !imports_import_module(at, s));
    assert(loads_module(state_of(own), t, x));
    if r != t {
        let b = choose|b: Vec<Statement>| #[trigger] holds_block(sys, r, b) && occurs(sys, b, t);
        let depth = choose|depth: nat| #[trigger] occurs_at(sys, b, t, depth);
        let inner = lemma_block_seen(at, r, b, own);
        assert(loads_module(state_of(inner), t, x));
        lemma_complete(at, b, inner, t, depth);
    }
    assert(in_stmts(at, body, c, j + 1) == in_stmt(at, r, own));
    lemma_more_stmts(at, body, c, j + 1, body@.len() as int);
    imports_are_edges_or_missing(g, sources, sys, module, x);
}

} // verus!
