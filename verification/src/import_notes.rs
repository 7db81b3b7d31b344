//! Which imports of a source file are noted: those of all its statements, at any depth.

use crate::ast::{blocks, Import, ImportAlias, ImportFrom, ParsedModule, Statement, StmtNode};
use crate::cursor::{current_scope, in_module, in_scope, in_try, ScopeKind, ScopeView};
use crate::importlib::within;
use crate::module_effects::ModuleEffectsView;
use crate::name_sets::set_at;
use crate::source_analyzer::{all_caught, source_output};
use crate::source_growth::{
    grown, group_grown, lemma_further, lemma_imports_pending, lemma_merged, lemma_same, more_names,
};
use crate::source_imports::{imports_called, imports_pending, module_imported, FromMode};
use crate::source_info::SourceAnalyzer;
use vstd::prelude::*;

verus! {

/// A statement holds a block.
pub open spec fn has_block(s: Statement, b: Vec<Statement>) -> bool {
    match s.node {
        StmtNode::FunctionDef(f) => b == f.body,
        StmtNode::ClassDef(c) => b == c.body,
        StmtNode::For { body, orelse, .. } => b == body || b == orelse,
        StmtNode::While { body, orelse, .. } => b == body || b == orelse,
        StmtNode::With { body, .. } => b == body,
        StmtNode::If { branches } => exists|i: int| 0 <= i < branches@.len() && b == (#[trigger] branches@[i]).body,
        StmtNode::Match { cases, .. } => exists|i: int| 0 <= i < cases@.len() && b == (#[trigger] cases@[i]).body,
        StmtNode::Try { body, handlers, orelse, finalbody } => b == body || b == orelse || b == finalbody || exists|
            i: int,
        | 0 <= i < handlers@.len() && b == (#[trigger] handlers@[i]).body,
        _ => false,
    }
}

/// A statement stands among some statements, or that many blocks deep inside of them.
pub open spec fn stands_at(stmts: Vec<Statement>, t: Statement, depth: nat) -> bool
    decreases depth,
{
    if depth == 0 {
        stmts@.contains(t)
    } else {
        exists|i: int, b: Vec<Statement>|
            0 <= i < stmts@.len() && #[trigger] has_block(stmts@[i], b) && stands_at(b, t, (depth - 1) as nat)
    }
}

proof fn lemma_has_block(s: Statement, b: Vec<Statement>) -> (k: int)
    requires
        has_block(s, b),
    ensures
        0 <= k < blocks(s).len(),
        blocks(s)[k] == b,
{
    match s.node {
        StmtNode::For { body, .. } => if b == body {
            0
        } else {
            1
        },
        StmtNode::While { body, .. } => if b == body {
            0
        } else {
            1
        },
        StmtNode::If { branches } => {
            let k = choose|i: int| 0 <= i < branches@.len() && b == (#[trigger] branches@[i]).body;
            assert(blocks(s)[k] == b);
            k
        },
        StmtNode::Match { cases, .. } => {
            let k = choose|i: int| 0 <= i < cases@.len() && b == (#[trigger] cases@[i]).body;
            assert(blocks(s)[k] == b);
            k
        },
        StmtNode::Try { body, handlers, orelse, finalbody } => {
            let n = handlers@.len() as int;
            let k: int = if b == body {
                0
            } else if b == orelse {
                n + 1
            } else if b == finalbody {
                n + 2
            } else {
                1 + choose|i: int| 0 <= i < n && b == (#[trigger] handlers@[i]).body
            };
            assert(blocks(s)[k] == b);
            k
        },
        _ => 0,
    }
}

/// The imports that are noted are also noted in what is collected in the end.
pub open spec fn kept(a: ModuleEffectsView, b: ModuleEffectsView) -> bool {
    &&& more_names(a.pending_imports, b.pending_imports)
    &&& more_names(a.called_imports, b.called_imports)
    &&& a.all_pending_import_names.subset_of(b.all_pending_import_names)
    &&& a.all_called_import_names.subset_of(b.all_called_import_names)
    &&& a.eager_imports.subset_of(b.eager_imports)
}

impl<'a> SourceAnalyzer<'a> {
    /// A statement at a place is another one at its place, or holds it that many blocks deep outside of
    /// functions, so that it runs when the module is imported.
    pub open spec fn runs_at(
        &self,
        at: Seq<ScopeView>,
        s: Statement,
        inner: Seq<ScopeView>,
        t: Statement,
        depth: nat,
    ) -> bool
        decreases depth,
    {
        if depth == 0 {
            inner == at && s == t
        } else {
            !(s.node is FunctionDef) && exists|mid: Seq<ScopeView>, b: Vec<Statement>, i: int|
                #![trigger self.holds_block(at, s, mid, b), b@[i]]
                self.holds_block(at, s, mid, b) && 0 <= i < b@.len() && self.runs_at(
                    mid,
                    b@[i],
                    inner,
                    t,
                    (depth - 1) as nat,
                )
        }
    }

    /// A statement of a module, at some depth outside of functions, runs when the module is imported.
    pub open spec fn runs_on_import(&self, parsed: &ParsedModule, inner: Seq<ScopeView>, t: Statement) -> bool {
        exists|i: int, depth: nat|
            0 <= i < parsed.body@.len() && #[trigger] self.runs_at(
                in_module(parsed.name@),
                parsed.body@[i],
                inner,
                t,
                depth,
            )
    }

    /// A statement stands in the body of a function that is defined when the module is imported, at
    /// any depth.
    pub open spec fn stands_in_function(
        &self,
        parsed: &ParsedModule,
        inner: Seq<ScopeView>,
        t: Statement,
    ) -> bool {
        exists|outer: Seq<ScopeView>, s: Statement, depth: nat|
            #![trigger self.in_function_at(parsed, outer, s, inner, t, depth)]
            self.in_function_at(parsed, outer, s, inner, t, depth)
    }

    /// A statement stands that many blocks deep in the body of a function that is defined when the module
    /// is imported.
    pub open spec fn in_function_at(
        &self,
        parsed: &ParsedModule,
        outer: Seq<ScopeView>,
        s: Statement,
        inner: Seq<ScopeView>,
        t: Statement,
        depth: nat,
    ) -> bool {
        &&& self.runs_on_import(parsed, outer, s)
        &&& s.node matches StmtNode::FunctionDef(f) && inner == in_scope(outer, ScopeKind::Function, f.name@)
            && stands_at(f.body, t, depth)
    }

    proof fn lemma_runs(
        &self,
        at: Seq<ScopeView>,
        s: Statement,
        out: ModuleEffectsView,
        inner: Seq<ScopeView>,
        t: Statement,
        depth: nat,
    ) -> (before: ModuleEffectsView)
        requires
            self.runs_at(at, s, inner, t, depth),
        ensures
            grown(self.in_stmt(inner, t, before), self.in_stmt(at, s, out)),
        decreases depth,
    {
        broadcast use group_grown;

        if depth == 0 {
            out
        } else {
            let (mid, b, i) = choose|mid: Seq<ScopeView>, b: Vec<Statement>, i: int|
                #![trigger self.holds_block(at, s, mid, b), b@[i]]
                self.holds_block(at, s, mid, b) && 0 <= i < b@.len() && self.runs_at(
                    mid,
                    b@[i],
                    inner,
                    t,
                    (depth - 1) as nat,
                );
            let first = self.lemma_member(at, s, out, mid, b, i);
            let before = self.lemma_runs(mid, b@[i], first, inner, t, (depth - 1) as nat);
            lemma_further(self.in_stmt(inner, t, before), self.in_stmt(mid, b@[i], first), self.in_stmt(at, s, out));
            before
        }
    }

    /// What a statement that runs when the module is imported notes of imports is kept.
    proof fn lemma_run(&self, parsed: &ParsedModule, inner: Seq<ScopeView>, t: Statement) -> (before:
        ModuleEffectsView)
        requires
            self.runs_on_import(parsed, inner, t),
        ensures
            kept(self.in_stmt(inner, t, before), source_output(self, parsed)),
    {
        let at = in_module(parsed.name@);
        let (i, depth) = choose|i: int, depth: nat|
            0 <= i < parsed.body@.len() && #[trigger] self.runs_at(at, parsed.body@[i], inner, t, depth);
        let none = ModuleEffectsView::none();
        let first = self.lemma_in_stmts(at, parsed.body, none, i);
        let before = self.lemma_runs(at, parsed.body@[i], first, inner, t, depth);
        let all = self.in_stmts(at, parsed.body, none, parsed.body@.len() as int);
        lemma_further(self.in_stmt(inner, t, before), self.in_stmt(at, parsed.body@[i], first), all);
        reveal(grown);
        let last = source_output(self, parsed);
        assert forall|k: Seq<char>, n: Seq<char>| #[trigger]
            set_at(self.in_stmt(inner, t, before).called_imports, k).contains(n) implies set_at(
            last.called_imports,
            k,
        ).contains(n) by {
            assert(set_at(all.called_imports, k).contains(n));
        }
        before
    }

    proof fn lemma_later_imports(
        &self,
        at: Seq<ScopeView>,
        stmts: Vec<Statement>,
        out: ModuleEffectsView,
        n: int,
        m: int,
    )
        requires
            0 <= n <= m <= stmts@.len(),
        ensures
            grown(self.imports_in_stmts(at, stmts, out, n), self.imports_in_stmts(at, stmts, out, m)),
        decreases m - n,
    {
        broadcast use group_grown;

        if n < m {
            self.lemma_later_imports(at, stmts, out, n, m - 1);
            self.lemma_imports_stmt(
                self.imports_in_stmts(at, stmts, out, n),
                at,
                stmts[m - 1],
                self.imports_in_stmts(at, stmts, out, m - 1),
            );
        }
    }

    proof fn lemma_later_import_blocks(
        &self,
        at: Seq<ScopeView>,
        s: Statement,
        out: ModuleEffectsView,
        n: int,
        m: int,
    )
        requires
            0 <= n <= m <= blocks(s).len(),
        ensures
            grown(self.imports_in_blocks(at, s, out, n), self.imports_in_blocks(at, s, out, m)),
        decreases m - n,
    {
        broadcast use group_grown;

        if n < m {
            self.lemma_later_import_blocks(at, s, out, n, m - 1);
            self.lemma_imports_stmts(
                self.imports_in_blocks(at, s, out, n),
                at,
                blocks(s)[m - 1],
                self.imports_in_blocks(at, s, out, m - 1),
                blocks(s)[m - 1]@.len() as int,
            );
        }
    }

    proof fn lemma_stands(
        &self,
        at: Seq<ScopeView>,
        stmts: Vec<Statement>,
        out: ModuleEffectsView,
        t: Statement,
        depth: nat,
    ) -> (before: ModuleEffectsView)
        requires
            stands_at(stmts, t, depth),
        ensures
            grown(self.own_imports(at, t, before), self.imports_in_stmts(at, stmts, out, stmts@.len() as int)),
        decreases depth,
    {
        broadcast use group_grown;

        let n = stmts@.len() as int;
        let all = self.imports_in_stmts(at, stmts, out, n);
        if depth == 0 {
            let i = stmts@.index_of(t);
            let before = self.imports_in_stmts(at, stmts, out, i);
            let own = self.own_imports(at, t, before);
            self.lemma_own_imports(before, at, t, before);
            self.lemma_imports_blocks(own, at, t, own, blocks(t).len() as int);
            self.lemma_later_imports(at, stmts, out, i + 1, n);
            lemma_further(own, self.imports_in_stmts(at, stmts, out, i + 1), all);
            before
        } else {
            let (i, b) = choose|i: int, b: Vec<Statement>|
                0 <= i < stmts@.len() && #[trigger] has_block(stmts@[i], b) && stands_at(b, t, (depth - 1) as nat);
            let s = stmts@[i];
            let k = lemma_has_block(s, b);
            let first = self.imports_in_stmts(at, stmts, out, i);
            let own = self.own_imports(at, s, first);
            self.lemma_own_imports(first, at, s, first);
            let before = self.lemma_stands(at, b, self.imports_in_blocks(at, s, own, k), t, (depth - 1) as nat);
            let found = self.own_imports(at, t, before);
            self.lemma_later_import_blocks(at, s, own, k + 1, blocks(s).len() as int);
            lemma_further(
                found,
                self.imports_in_blocks(at, s, own, k + 1),
                self.imports_in_blocks(at, s, own, blocks(s).len() as int),
            );
            self.lemma_later_imports(at, stmts, out, i + 1, n);
            lemma_further(found, self.imports_in_stmts(at, stmts, out, i + 1), all);
            before
        }
    }

    /// What an import statement of a module notes is kept.
    proof fn lemma_noted(&self, parsed: &ParsedModule, inner: Seq<ScopeView>, t: Statement) -> (before:
        ModuleEffectsView)
        requires
            self.runs_on_import(parsed, inner, t) || self.stands_in_function(parsed, inner, t),
            t.node is Import || t.node is ImportFrom,
        ensures
            kept(self.own_imports(inner, t, before), source_output(self, parsed)),
    {
        if self.runs_on_import(parsed, inner, t) {
            self.lemma_run(parsed, inner, t)
        } else {
            let (outer, s, depth) = choose|outer: Seq<ScopeView>, s: Statement, depth: nat|
                #![trigger self.in_function_at(parsed, outer, s, inner, t, depth)]
                self.in_function_at(parsed, outer, s, inner, t, depth);
            let first = self.lemma_run(parsed, outer, s);
            let f = s.node->FunctionDef_0;
            let decorated = self.in_decorators(outer, f.decorators@, first, f.decorators@.len() as int);
            let named = if current_scope(outer) == self.module_name@ {
                self.defined_again(outer, f.name@, s.range, decorated)
            } else {
                decorated
            };
            let n = f.body@.len() as int;
            let before = self.lemma_stands(inner, f.body, named, t, depth);
            let imported = self.imports_in_stmts(inner, f.body, named, n);
            let body = self.in_stmts(inner, f.body, ModuleEffectsView::none(), n);
            let own = self.own_imports(inner, t, before);
            lemma_merged(own, imported, body.effects);
            assert(grown(own, self.in_stmt(outer, s, first)));
            reveal(grown);
            let last = source_output(self, parsed);
            assert forall|k: Seq<char>, n: Seq<char>| #[trigger]
                set_at(own.pending_imports, k).contains(n) implies set_at(last.pending_imports, k).contains(n) by {
                assert(set_at(self.in_stmt(outer, s, first).pending_imports, k).contains(n));
            }
            assert forall|k: Seq<char>, n: Seq<char>| #[trigger]
                set_at(own.called_imports, k).contains(n) implies set_at(last.called_imports, k).contains(n) by {
                assert(set_at(self.in_stmt(outer, s, first).called_imports, k).contains(n));
            }
            before
        }
    }
}

/// A module that an `import` statement names is noted in a scope: under its own name, or under the other
/// name that it is given, which is noted to stand for it. It is noted as eager where the statement is not
/// lazy.
pub open spec fn is_pending(out: ModuleEffectsView, scope: Seq<char>, alias: ImportAlias, is_lazy: bool) -> bool {
    &&& match alias.asname {
        None => set_at(out.pending_imports, scope).contains(alias.name@) && out.all_pending_import_names.contains(
            alias.name@,
        ),
        Some(other) => set_at(out.pending_imports, scope).contains(other@) && set_at(
            out.pending_imports,
            other@,
        ).contains(alias.name@) && out.all_pending_import_names.contains(other@)
            && out.all_pending_import_names.contains(alias.name@),
    }
    &&& !is_lazy ==> out.eager_imports.contains(alias.name@)
}

proof fn lemma_pending_kept(a: ModuleEffectsView, b: ModuleEffectsView, scope: Seq<char>, alias: ImportAlias, lazy: bool)
    requires
        kept(a, b),
        is_pending(a, scope, alias, lazy),
    ensures
        is_pending(b, scope, alias, lazy),
{
}

proof fn lemma_grown_keeps(a: ModuleEffectsView, b: ModuleEffectsView)
    requires
        grown(a, b),
    ensures
        kept(a, b),
{
    reveal(grown);
}

proof fn lemma_pending_at(scope: Seq<char>, x: Import, out: ModuleEffectsView, n: int, i: int)
    requires
        0 <= i < n <= x.names@.len(),
    ensures
        is_pending(imports_pending(scope, x, out, n), scope, x.names@[i], x.is_lazy),
    decreases n,
{
    let before = imports_pending(scope, x, out, n - 1);
    let after = imports_pending(scope, x, out, n);
    if i < n - 1 {
        broadcast use group_grown;

        lemma_pending_at(scope, x, out, n - 1, i);
        assert(grown(before, after));
        lemma_grown_keeps(before, after);
        lemma_pending_kept(before, after, scope, x.names@[i], x.is_lazy);
    }
}

/// Each module that an `import` statement names is noted as imported by the scope that the statement
/// stands in, wherever outside of functions it stands, and at any depth in a function.
pub proof fn imports_are_noted(
    a: &SourceAnalyzer,
    parsed: &ParsedModule,
    inner: Seq<ScopeView>,
    t: Statement,
    x: Import,
    i: int,
)
    requires
        a.runs_on_import(parsed, inner, t) || a.stands_in_function(parsed, inner, t),
        t.node == StmtNode::Import(x),
        0 <= i < x.names@.len(),
    ensures
        is_pending(source_output(a, parsed), current_scope(inner), x.names@[i], x.is_lazy),
{
    let before = a.lemma_noted(parsed, inner, t);
    lemma_pending_at(current_scope(inner), x, before, x.names@.len() as int, i);
    lemma_pending_kept(
        a.own_imports(inner, t, before),
        source_output(a, parsed),
        current_scope(inner),
        x.names@[i],
        x.is_lazy,
    );
}

/// A module that a `from` statement imports is noted in a scope: as used, or as imported, and then as
/// eager where the statement is not lazy.
pub open spec fn is_noted(out: ModuleEffectsView, mode: FromMode, scope: Seq<char>, module: Seq<char>) -> bool {
    if mode.is_called {
        set_at(out.called_imports, scope).contains(module) && out.all_called_import_names.contains(module)
    } else {
        set_at(out.pending_imports, scope).contains(module) && out.all_pending_import_names.contains(module) && (
        !mode.is_lazy ==> out.eager_imports.contains(module))
    }
}

/// What a `from` statement imports by a name from a module counts as a module: one is known by it, or the
/// module that it is imported from was not found.
pub open spec fn counts_as_module(a: &SourceAnalyzer, module: Seq<char>, name: Seq<char>) -> bool {
    a.import_graph.graph.node_set().contains(within(module, name)) || set_at(
        a.import_graph.missing(),
        a.module_name@,
    ).contains(module)
}

proof fn lemma_subs_at(
    a: &SourceAnalyzer,
    mode: FromMode,
    scope: Seq<char>,
    module: Seq<char>,
    names: Seq<Seq<char>>,
    out: ModuleEffectsView,
    n: int,
    i: int,
)
    requires
        0 <= i < n <= names.len(),
        counts_as_module(a, module, names[i]),
    ensures
        is_noted(a.subs_imported(mode, scope, module, names, out, n), mode, scope, within(module, names[i])),
    decreases n,
{
    if i < n - 1 {
        broadcast use group_grown;

        lemma_subs_at(a, mode, scope, module, names, out, n - 1, i);
        let before = a.subs_imported(mode, scope, module, names, out, n - 1);
        let after = a.subs_imported(mode, scope, module, names, out, n);
        assert(grown(before, after));
        lemma_grown_keeps(before, after);
    }
}

/// A `from` statement imports a module from another: by one of its names, or by `*` as one of all names of
/// the other.
pub open spec fn imports_from(a: &SourceAnalyzer, module: Seq<char>, alias: ImportAlias, sub: Seq<char>) -> bool {
    if alias.name@ == "*"@ {
        a.exports.deep_view().all.contains_key(module) && exists|j: int|
            0 <= j < a.exports.deep_view().all[module].len() && sub == within(
                module,
                #[trigger] a.exports.deep_view().all[module][j],
            ) && counts_as_module(a, module, a.exports.deep_view().all[module][j])
    } else {
        sub == within(module, alias.name@) && counts_as_module(a, module, alias.name@)
    }
}

proof fn lemma_names_at(
    a: &SourceAnalyzer,
    mode: FromMode,
    scope: Seq<char>,
    module: Seq<char>,
    names: Seq<ImportAlias>,
    out: ModuleEffectsView,
    n: int,
    i: int,
    sub: Seq<char>,
)
    requires
        0 <= i < n <= names.len(),
        imports_from(a, module, names[i], sub),
    ensures
        is_noted(a.names_imported(mode, scope, module, names, out, n), mode, scope, sub),
    decreases n,
{
    broadcast use group_grown;

    let all = a.exports.deep_view().all;
    let before = a.names_imported(mode, scope, module, names, out, n - 1);
    let after = a.names_imported(mode, scope, module, names, out, n);
    if i < n - 1 {
        lemma_names_at(a, mode, scope, module, names, out, n - 1, i, sub);
        if all.contains_key(module) {
            a.lemma_subs(before, mode, scope, module, all[module], before, all[module].len() as int);
        }
        assert(grown(before, after));
        lemma_grown_keeps(before, after);
    } else if names[i].name@ == "*"@ {
        let list = all[module];
        let j = choose|j: int|
            0 <= j < list.len() && sub == within(module, #[trigger] list[j]) && counts_as_module(a, module, list[j]);
        lemma_subs_at(a, mode, scope, module, list, before, list.len() as int, j);
    }
}

/// A module that is not named and one that is: what a `from` statement imports.
pub open spec fn from_brings(a: &SourceAnalyzer, x: ImportFrom, module: Seq<char>, i: int, sub: Seq<char>) -> bool {
    ||| sub == module && module.len() > 0
    ||| 0 <= i < x.names@.len() && imports_from(a, module, x.names@[i], sub)
}

proof fn lemma_from_at(
    a: &SourceAnalyzer,
    scope: Seq<char>,
    x: ImportFrom,
    is_called: bool,
    out: ModuleEffectsView,
    module: Seq<char>,
    i: int,
    sub: Seq<char>,
)
    requires
        a.from_target(x) == Some(module),
        from_brings(a, x, module, i, sub),
    ensures
        is_noted(
            a.from_imported(scope, x, is_called, out),
            (FromMode { is_called, is_lazy: x.is_lazy }),
            scope,
            sub,
        ),
{
    broadcast use group_grown;

    let mode = FromMode { is_called, is_lazy: x.is_lazy };
    let n = x.names@.len() as int;
    let parent = if module.len() > 0 {
        module_imported(mode, scope, module, out)
    } else {
        out
    };
    let after = a.names_imported(mode, scope, module, x.names@, parent, n);
    if sub == module && module.len() > 0 {
        a.lemma_names(parent, mode, scope, module, x.names@, parent, n);
        lemma_grown_keeps(parent, after);
        assert(is_noted(parent, mode, scope, sub));
    } else {
        lemma_names_at(a, mode, scope, module, x.names@, parent, n, i, sub);
    }
}

/// The module that a `from` statement imports from, and each module that it imports from it, are noted as
/// imported by the scope that the statement stands in, wherever outside of functions it stands, and at any
/// depth in a function.
pub proof fn from_imports_are_noted(
    a: &SourceAnalyzer,
    parsed: &ParsedModule,
    inner: Seq<ScopeView>,
    t: Statement,
    x: ImportFrom,
    module: Seq<char>,
    i: int,
    sub: Seq<char>,
)
    requires
        a.runs_on_import(parsed, inner, t) || a.stands_in_function(parsed, inner, t),
        t.node == StmtNode::ImportFrom(x),
        a.from_target(x) == Some(module),
        from_brings(a, x, module, i, sub),
    ensures
        is_noted(
            source_output(a, parsed),
            (FromMode { is_called: false, is_lazy: x.is_lazy }),
            current_scope(inner),
            sub,
        ),
{
    let before = a.lemma_noted(parsed, inner, t);
    let scope = current_scope(inner);
    let own = a.from_imported(scope, x, false, before);
    lemma_from_at(a, scope, x, false, before, module, i, sub);
    let after = a.own_imports(inner, t, before);
    lemma_same(own);
    a.lemma_aliases(own, inner, x, t.range, own, x.names@.len() as int);
    lemma_grown_keeps(own, after);
}

/// The name that an `import` statement binds.
pub open spec fn bound_name(alias: ImportAlias) -> Seq<char> {
    match alias.asname {
        None => alias.name@,
        Some(other) => other@,
    }
}

proof fn lemma_called_at(scope: Seq<char>, x: Import, out: ModuleEffectsView, n: int, i: int)
    requires
        0 <= i < n <= x.names@.len(),
    ensures
        set_at(imports_called(scope, x, out, n).called_imports, scope).contains(bound_name(x.names@[i])),
    decreases n,
{
    if i < n - 1 {
        lemma_called_at(scope, x, out, n - 1, i);
    }
}

/// The body of a statement runs at once and as a whole: it is that of a `try` or a `with` statement.
pub open spec fn runs_at_once(at: Seq<ScopeView>, s: Statement, mid: Seq<ScopeView>, b: Vec<Statement>) -> bool {
    match s.node {
        StmtNode::Try { body, handlers, .. } => b == body && mid == in_try(at, all_caught(handlers@)),
        StmtNode::With { body, .. } => b == body && mid == at,
        _ => false,
    }
}

proof fn lemma_at_once(
    a: &SourceAnalyzer,
    at: Seq<ScopeView>,
    s: Statement,
    out: ModuleEffectsView,
    mid: Seq<ScopeView>,
    b: Vec<Statement>,
    i: int,
) -> (before: ModuleEffectsView)
    requires
        runs_at_once(at, s, mid, b),
        0 <= i < b@.len(),
    ensures
        grown(a.import_called(mid, b@[i], before), a.in_stmt(at, s, out)),
{
    broadcast use group_grown;

    let n = b@.len() as int;
    match s.node {
        StmtNode::Try { body, handlers, orelse, finalbody } => {
            let len = handlers@.len() as int;
            let before = a.in_eager_stmts(mid, b, out, i);
            let used = a.import_called(mid, b@[i], before);
            a.lemma_stmt(used, mid, b@[i], used);
            a.lemma_later_eager(mid, b, out, i + 1, n);
            let tried = a.in_eager_stmts(mid, b, out, n);
            lemma_further(used, a.in_eager_stmts(mid, b, out, i + 1), tried);
            let caught = a.in_handlers(at, handlers, tried, len);
            let done = a.in_stmts(at, orelse, caught, orelse@.len() as int);
            a.lemma_handlers(used, at, handlers, tried, len);
            a.lemma_stmts(used, at, orelse, caught, orelse@.len() as int);
            a.lemma_stmts(used, at, finalbody, done, finalbody@.len() as int);
            before
        },
        StmtNode::With { items, .. } => {
            let first = a.in_items(at, items@, out, items@.len() as int);
            let before = a.in_eager_stmts(mid, b, first, i);
            let used = a.import_called(mid, b@[i], before);
            a.lemma_stmt(used, mid, b@[i], used);
            a.lemma_later_eager(mid, b, first, i + 1, n);
            lemma_further(
                used,
                a.in_eager_stmts(mid, b, first, i + 1),
                a.in_eager_stmts(mid, b, first, n),
            );
            before
        },
        _ => out,
    }
}

/// What is imported in the body of a `try` or a `with` statement that runs when the module is imported is
/// noted as used by the scope.
pub proof fn imports_that_may_fail_are_used(
    a: &SourceAnalyzer,
    parsed: &ParsedModule,
    at: Seq<ScopeView>,
    s: Statement,
    mid: Seq<ScopeView>,
    b: Vec<Statement>,
    k: int,
    i: int,
    module: Seq<char>,
    sub: Seq<char>,
)
    requires
        a.runs_on_import(parsed, at, s),
        runs_at_once(at, s, mid, b),
        0 <= k < b@.len(),
        b@[k].node is Import || b@[k].node is ImportFrom,
    ensures
        match b@[k].node {
            StmtNode::Import(x) => 0 <= i < x.names@.len() ==> set_at(
                source_output(a, parsed).called_imports,
                current_scope(mid),
            ).contains(bound_name(x.names@[i])),
            StmtNode::ImportFrom(x) => a.from_target(x) == Some(module) && from_brings(a, x, module, i, sub) ==> set_at(
                source_output(a, parsed).called_imports,
                current_scope(mid),
            ).contains(sub),
            _ => true,
        },
{
    let out = a.lemma_run(parsed, at, s);
    let before = lemma_at_once(a, at, s, out, mid, b, k);
    let used = a.import_called(mid, b@[k], before);
    lemma_grown_keeps(used, a.in_stmt(at, s, out));
    let scope = current_scope(mid);
    let last = source_output(a, parsed);
    assert forall|n: Seq<char>| set_at(used.called_imports, scope).contains(n) implies #[trigger] set_at(
        last.called_imports,
        scope,
    ).contains(n) by {
        assert(set_at(a.in_stmt(at, s, out).called_imports, scope).contains(n));
    }
    match b@[k].node {
        StmtNode::Import(x) => {
            let n = x.names@.len() as int;
            let called = imports_called(scope, x, before, n);
            lemma_same(called);
            lemma_imports_pending(called, scope, x, called, n);
            lemma_grown_keeps(called, used);
            if 0 <= i < n {
                lemma_called_at(scope, x, before, n, i);
            }
        },
        StmtNode::ImportFrom(x) => {
            if a.from_target(x) == Some(module) && from_brings(a, x, module, i, sub) {
                lemma_from_at(a, scope, x, true, a.from_stmt(mid, x, b@[k].range, before), module, i, sub);
            }
        },
        _ => {},
    }
}

} // verus!
