//! Where in a stub its effects are declared, and that what is collected from it is just those.

use crate::ast::{Branch, Node, Statement, StmtNode};
use crate::config::may_run;
use crate::cursor::{current_scope, in_module, in_scope, ScopeKind, ScopeView};
use crate::effects::{merged_effects, table_with, EffectKind, EffectView};
use crate::module_effects::ModuleEffectsView;
use crate::module_name::dotted;
use crate::stub_analyzer::{
    stub_body_effects, stub_branches, stub_effect, stub_says, stub_stmt, stub_stmts,
};
use crate::sys_info::SysInfo;
use crate::text_range::TextRange;
use vstd::prelude::*;

verus! {

/// A statement in a scope holds a block: the body of a class or of a function, which is in a scope
/// of its own, or a branch of an `if` statement that may run.
pub open spec fn opens_block(
    sys: SysInfo,
    scope: Seq<char>,
    s: Statement,
    inner: Seq<char>,
    b: Seq<Statement>,
) -> bool {
    match s.node {
        StmtNode::ClassDef(c) => b == c.body@ && inner == dotted(scope, c.name@),
        StmtNode::FunctionDef(f) => b == f.body@ && inner == dotted(scope, f.name@),
        StmtNode::If { branches } => inner == scope && exists|i: int|
            0 <= i < branches@.len() && #[trigger] may_run(sys, branches@, i) && b == branches@[i].body@,
        _ => false,
    }
}

/// A statement stands in a scope, among some statements of another scope or that many blocks deep
/// inside of them.
pub open spec fn stands_at(
    sys: SysInfo,
    scope: Seq<char>,
    stmts: Seq<Statement>,
    inner: Seq<char>,
    t: Statement,
    depth: nat,
) -> bool
    decreases depth,
{
    if depth == 0 {
        inner == scope && stmts.contains(t)
    } else {
        exists|i: int, mid: Seq<char>, b: Seq<Statement>|
            0 <= i < stmts.len() && #[trigger] opens_block(sys, scope, stmts[i], mid, b) && stands_at(
                sys,
                mid,
                b,
                inner,
                t,
                (depth - 1) as nat,
            )
    }
}

/// A statement stands in a scope, among some statements of another scope or at any depth inside of
/// them.
pub open spec fn stands_in(
    sys: SysInfo,
    scope: Seq<char>,
    stmts: Seq<Statement>,
    inner: Seq<char>,
    t: Statement,
) -> bool {
    exists|depth: nat| #[trigger] stands_at(sys, scope, stmts, inner, t, depth)
}

/// A statement is a call that stands for an effect.
pub open spec fn declares(t: Statement, eff: EffectView) -> bool {
    match t.node {
        StmtNode::Expr { value, .. } => match value.node {
            Node::Call { func, arguments } => stub_effect(*func, arguments, value.range) == Some(eff),
            _ => false,
        },
        _ => false,
    }
}

/// A statement is a function, or a call that stands for an effect.
pub open spec fn speaks(t: Statement) -> bool {
    t.node is FunctionDef || exists|eff: EffectView| #[trigger] declares(t, eff)
}

/// Nothing among some statements of a scope is a function or declares an effect.
pub open spec fn is_silent(sys: SysInfo, scope: Seq<char>, stmts: Seq<Statement>) -> bool {
    forall|inner: Seq<char>, t: Statement| #[trigger] stands_in(sys, scope, stmts, inner, t) ==> !speaks(t)
}

/// A statement of a scope is a function without a word on its effects.
pub open spec fn is_silent_function(sys: SysInfo, scope: Seq<char>, t: Statement) -> bool {
    match t.node {
        StmtNode::FunctionDef(f) => is_silent(sys, dotted(scope, f.name@), f.body@),
        _ => false,
    }
}

/// The scope that a function in a scope makes.
pub open spec fn scope_of(scope: Seq<char>, t: Statement) -> Seq<char> {
    match t.node {
        StmtNode::FunctionDef(f) => dotted(scope, f.name@),
        _ => scope,
    }
}

/// The effects of a scope are not known.
pub open spec fn unknown_effects(range: TextRange) -> EffectView {
    EffectView::bare(EffectKind::UnknownEffects, Seq::empty(), range)
}

/// A table has an effect in a scope.
pub open spec fn has_effect(table: Map<Seq<char>, Seq<EffectView>>, scope: Seq<char>, eff: EffectView) -> bool {
    table.contains_key(scope) && table[scope].contains(eff)
}

type Effects = Map<Seq<char>, Seq<EffectView>>;

/// No scope has an entry without effects.
spec fn filled(table: Effects) -> bool {
    forall|k: Seq<char>| #[trigger] table.contains_key(k) ==> table[k].len() > 0
}

spec fn grown(a: Effects, b: Effects) -> bool {
    forall|k: Seq<char>, e: EffectView| #[trigger] has_effect(a, k, e) ==> has_effect(b, k, e)
}

/// An effect of a scope comes from a statement somewhere among some statements.
spec fn comes_from(sys: SysInfo, scope: Seq<char>, stmts: Seq<Statement>, k: Seq<char>, e: EffectView) -> bool {
    exists|inner: Seq<char>, t: Statement| #[trigger] stands_in(sys, scope, stmts, inner, t) && gives(sys, inner, t, k, e)
}

/// A statement of a scope gives an effect to a scope.
spec fn gives(sys: SysInfo, inner: Seq<char>, t: Statement, k: Seq<char>, e: EffectView) -> bool {
    ||| k == inner && declares(t, e)
    ||| is_silent_function(sys, inner, t) && k == scope_of(inner, t) && e == unknown_effects(t.range)
}

spec fn accounted(sys: SysInfo, scope: Seq<char>, stmts: Seq<Statement>, a: Effects, b: Effects) -> bool {
    forall|k: Seq<char>, e: EffectView| #[trigger]
        has_effect(b, k, e) ==> has_effect(a, k, e) || comes_from(sys, scope, stmts, k, e)
}

proof fn lemma_with(a: Effects, scope: Seq<char>, eff: EffectView)
    requires
        filled(a),
    ensures
        filled(table_with(a, scope, seq![eff])),
        grown(a, table_with(a, scope, seq![eff])),
        has_effect(table_with(a, scope, seq![eff]), scope, eff),
        forall|k: Seq<char>, e: EffectView| #[trigger]
            has_effect(table_with(a, scope, seq![eff]), k, e) ==> has_effect(a, k, e) || (k == scope && e == eff),
{
    let b = table_with(a, scope, seq![eff]);
    assert(b[scope].last() == eff);
    assert forall|k: Seq<char>, e: EffectView| #[trigger] has_effect(a, k, e) implies has_effect(b, k, e) by {
        let i = a[k].index_of(e);
        assert(b[k][i] == e);
    }
    assert forall|k: Seq<char>, e: EffectView| #[trigger] has_effect(b, k, e) implies has_effect(a, k, e) || (k
        == scope && e == eff) by {
        let i = b[k].index_of(e);
        if k != scope || i < b[k].len() - 1 {
            assert(a[k][i] == e);
        }
    }
}

proof fn lemma_merged(a: Effects, b: Effects)
    requires
        filled(a),
        filled(b),
    ensures
        filled(merged_effects(a, b)),
        grown(a, merged_effects(a, b)),
        grown(b, merged_effects(a, b)),
        forall|k: Seq<char>, e: EffectView| #[trigger]
            has_effect(merged_effects(a, b), k, e) ==> has_effect(a, k, e) || has_effect(b, k, e),
{
    let m = merged_effects(a, b);
    assert forall|k: Seq<char>, e: EffectView| #[trigger] has_effect(a, k, e) implies has_effect(m, k, e) by {
        let i = a[k].index_of(e);
        assert(m[k][i] == e);
    }
    assert forall|k: Seq<char>, e: EffectView| #[trigger] has_effect(b, k, e) implies has_effect(m, k, e) by {
        let i = b[k].index_of(e);
        if a.contains_key(k) {
            assert(m[k][a[k].len() + i] == e);
        }
    }
    assert forall|k: Seq<char>, e: EffectView| #[trigger] has_effect(m, k, e) implies has_effect(a, k, e)
        || has_effect(b, k, e) by {
        let i = m[k].index_of(e);
        if a.contains_key(k) && i < a[k].len() {
            assert(a[k][i] == e);
        } else if a.contains_key(k) {
            assert(b[k][i - a[k].len()] == e);
        }
    }
}

/// What a function of a stub adds: what its body says, or that nothing is known.
proof fn lemma_function(sys: SysInfo, at: Seq<ScopeView>, s: Statement, out: ModuleEffectsView)
    requires
        s.node is FunctionDef,
        filled(out.effects),
    ensures
        grown(out.effects, stub_stmt(sys, at, s, out).effects),
        filled(stub_stmt(sys, at, s, out).effects),
        exists|k: Seq<char>| #[trigger] stub_stmt(sys, at, s, out).effects.contains_key(k),
        ({
            let f = s.node->FunctionDef_0;
            let inside = in_scope(at, ScopeKind::Function, f.name@);
            let body = stub_stmts(sys, inside, f.body@, ModuleEffectsView::none(), f.body@.len() as int).effects;
            let after = stub_stmt(sys, at, s, out).effects;
            &&& grown(body, after)
            &&& is_silent_function(sys, current_scope(at), s) ==> has_effect(
                after,
                scope_of(current_scope(at), s),
                unknown_effects(s.range),
            )
            &&& forall|k: Seq<char>, e: EffectView| #[trigger]
                has_effect(after, k, e) ==> has_effect(out.effects, k, e) || has_effect(body, k, e) || (k == scope_of(
                    current_scope(at),
                    s,
                ) && e == unknown_effects(s.range) && is_silent_function(sys, current_scope(at), s))
        }),
    decreases s, 1nat, 0int,
{
    let f = s.node->FunctionDef_0;
    let inside = in_scope(at, ScopeKind::Function, f.name@);
    let n = f.body@.len() as int;
    let body = stub_stmts(sys, inside, f.body@, ModuleEffectsView::none(), n);
    let own = stub_body_effects(inside, body, s.range);
    let mine = current_scope(inside);
    assert(mine == dotted(current_scope(at), f.name@));
    lemma_stmts(sys, inside, f.body@, ModuleEffectsView::none(), n);
    let after = stub_stmt(sys, at, s, out).effects;
    if body.effects.dom() =~= Set::empty() {
        lemma_with(body.effects, mine, unknown_effects(s.range));
        assert forall|inner: Seq<char>, t: Statement| #[trigger] stands_in(sys, mine, f.body@, inner, t) implies !speaks(
            t,
        ) by {
            if speaks(t) {
                lemma_heard(sys, inside, f.body@, ModuleEffectsView::none(), inner, t);
            }
        }
    } else {
        let k = choose|k: Seq<char>| #[trigger] body.effects.dom().contains(k);
        assert(body.effects.contains_key(k));
        let e = body.effects[k][0];
        assert(body.effects[k].contains(e));
        assert(has_effect(body.effects, k, e));
        assert(comes_from(sys, mine, f.body@, k, e));
        let (inner, t) = choose|inner: Seq<char>, t: Statement| #[trigger]
            stands_in(sys, mine, f.body@, inner, t) && gives(sys, inner, t, k, e);
        assert(speaks(t));
        assert(!is_silent_function(sys, current_scope(at), s));
    }
    lemma_merged(out.effects, own);
    assert(after == merged_effects(out.effects, own));
    let k = choose|k: Seq<char>| #[trigger] own.contains_key(k);
    assert(after.contains_key(k));
    if body.effects.dom() =~= Set::empty() {
        assert forall|k: Seq<char>, e: EffectView| #[trigger] has_effect(after, k, e) implies has_effect(
            out.effects,
            k,
            e,
        ) || has_effect(body.effects, k, e) || (k == mine && e == unknown_effects(s.range)) by {
            assert(has_effect(out.effects, k, e) || has_effect(own, k, e));
        }
    }
}

/// Something that speaks, somewhere among some statements, is heard: the table has an entry for
/// something, and where it declares an effect or is a silent function, that.
proof fn lemma_heard(
    sys: SysInfo,
    at: Seq<ScopeView>,
    stmts: Seq<Statement>,
    out: ModuleEffectsView,
    inner: Seq<char>,
    t: Statement,
)
    requires
        filled(out.effects),
        stands_in(sys, current_scope(at), stmts, inner, t),
    ensures
        ({
            let after = stub_stmts(sys, at, stmts, out, stmts.len() as int).effects;
            &&& speaks(t) ==> exists|k: Seq<char>| #[trigger] after.contains_key(k)
            &&& forall|k: Seq<char>, e: EffectView| #[trigger] gives(sys, inner, t, k, e) ==> has_effect(after, k, e)
        }),
    decreases stmts, 3nat, 0int,
{
    let depth = choose|depth: nat| #[trigger] stands_at(sys, current_scope(at), stmts, inner, t, depth);
    let n = stmts.len() as int;
    let i = if depth == 0 {
        stmts.index_of(t)
    } else {
        let (i, mid, b) = choose|i: int, mid: Seq<char>, b: Seq<Statement>|
            0 <= i < stmts.len() && #[trigger] opens_block(sys, current_scope(at), stmts[i], mid, b) && stands_at(
                sys,
                mid,
                b,
                inner,
                t,
                (depth - 1) as nat,
            );
        i
    };
    let before = stub_stmts(sys, at, stmts, out, i);
    lemma_stmts(sys, at, stmts, out, i);
    let s = stmts[i];
    if depth == 0 {
        assert(s == t);
        if t.node is FunctionDef {
            lemma_function(sys, at, t, before);
        } else if speaks(t) {
            let e = choose|eff: EffectView| #[trigger] declares(t, eff);
            lemma_with(before.effects, inner, e);
        }
    } else {
        let (i0, mid, b) = choose|i: int, mid: Seq<char>, b: Seq<Statement>|
            0 <= i < stmts.len() && #[trigger] opens_block(sys, current_scope(at), stmts[i], mid, b) && stands_at(
                sys,
                mid,
                b,
                inner,
                t,
                (depth - 1) as nat,
            );
        assert(i0 == i);
        assert(stands_in(sys, mid, b, inner, t));
        match s.node {
            StmtNode::ClassDef(c) => {
                lemma_heard(sys, in_scope(at, ScopeKind::Class, c.name@), b, before, inner, t);
            },
            StmtNode::FunctionDef(f) => {
                lemma_function(sys, at, s, before);
                lemma_heard(
                    sys,
                    in_scope(at, ScopeKind::Function, f.name@),
                    b,
                    ModuleEffectsView::none(),
                    inner,
                    t,
                );
            },
            StmtNode::If { branches } => {
                let j = choose|j: int|
                    0 <= j < branches@.len() && #[trigger] may_run(sys, branches@, j) && b == branches@[j].body@;
                let inside = stub_branches(sys, at, branches, before, j);
                lemma_branches(sys, at, branches, before, j, stmts, i);
                assert(decreases_to!(branches@ => branches@[j]));
                lemma_heard(sys, at, b, inside, inner, t);
                lemma_stmts(sys, at, b, inside, b.len() as int);
                assert(stub_branches(sys, at, branches, before, j + 1) == stub_stmts(sys, at, b, inside, b.len() as int));
                lemma_more_branches(sys, at, branches, before, j + 1, branches@.len() as int);
                lemma_keys_kept(
                    stub_branches(sys, at, branches, before, j + 1).effects,
                    stub_stmt(sys, at, s, before).effects,
                );
            },
            _ => {},
        }
    }
    assert(stub_stmts(sys, at, stmts, out, i + 1) == stub_stmt(sys, at, s, before));
    lemma_stmts(sys, at, stmts, out, i + 1);
    lemma_more_stmts(sys, at, stmts, out, i + 1, n);
    lemma_keys_kept(
        stub_stmts(sys, at, stmts, out, i + 1).effects,
        stub_stmts(sys, at, stmts, out, n).effects,
    );
}

proof fn lemma_keys_kept(a: Effects, b: Effects)
    requires
        filled(a),
        grown(a, b),
    ensures
        forall|k: Seq<char>| #[trigger] a.contains_key(k) ==> b.contains_key(k),
{
    assert forall|k: Seq<char>| #[trigger] a.contains_key(k) implies b.contains_key(k) by {
        let e = a[k][0];
        assert(a[k].contains(e));
        assert(has_effect(a, k, e));
    }
}

proof fn lemma_more_stmts(sys: SysInfo, at: Seq<ScopeView>, stmts: Seq<Statement>, out: ModuleEffectsView, n: int, m: int)
    requires
        filled(out.effects),
        0 <= n <= m <= stmts.len(),
    ensures
        grown(stub_stmts(sys, at, stmts, out, n).effects, stub_stmts(sys, at, stmts, out, m).effects),
    decreases stmts, 2nat, m,
{
    if n < m {
        lemma_more_stmts(sys, at, stmts, out, n, m - 1);
        lemma_stmts(sys, at, stmts, out, m - 1);
        lemma_stmt(sys, at, stmts, m - 1, stub_stmts(sys, at, stmts, out, m - 1));
    }
}

proof fn lemma_more_branches(
    sys: SysInfo,
    at: Seq<ScopeView>,
    branches: Vec<Branch>,
    out: ModuleEffectsView,
    n: int,
    m: int,
)
    requires
        filled(out.effects),
        0 <= n <= m <= branches@.len(),
    ensures
        grown(stub_branches(sys, at, branches, out, n).effects, stub_branches(sys, at, branches, out, m).effects),
        filled(stub_branches(sys, at, branches, out, m).effects),
    decreases branches, 0nat, m,
{
    if m > 0 {
        if n < m {
            lemma_more_branches(sys, at, branches, out, n, m - 1);
        } else {
            lemma_more_branches(sys, at, branches, out, m - 1, m - 1);
        }
        let before = stub_branches(sys, at, branches, out, m - 1);
        let b = branches@[m - 1].body@;
        assert(decreases_to!(branches@ => branches@[m - 1]));
        lemma_stmts(sys, at, b, before, b.len() as int);
    }
}

proof fn lemma_stands_deeper(
    sys: SysInfo,
    scope: Seq<char>,
    stmts: Seq<Statement>,
    i: int,
    mid: Seq<char>,
    b: Seq<Statement>,
    a: Effects,
    before: Effects,
    after: Effects,
)
    requires
        0 <= i < stmts.len(),
        opens_block(sys, scope, stmts[i], mid, b),
        accounted(sys, scope, stmts, a, before),
        accounted(sys, mid, b, before, after),
    ensures
        accounted(sys, scope, stmts, a, after),
{
    assert forall|k: Seq<char>, e: EffectView| #[trigger] has_effect(after, k, e) implies has_effect(a, k, e)
        || comes_from(sys, scope, stmts, k, e) by {
        if !has_effect(before, k, e) {
            lemma_comes_deeper(sys, scope, stmts, i, mid, b, k, e);
        }
    }
}

proof fn lemma_comes_deeper(
    sys: SysInfo,
    scope: Seq<char>,
    stmts: Seq<Statement>,
    i: int,
    mid: Seq<char>,
    b: Seq<Statement>,
    k: Seq<char>,
    e: EffectView,
)
    requires
        0 <= i < stmts.len(),
        opens_block(sys, scope, stmts[i], mid, b),
        comes_from(sys, mid, b, k, e),
    ensures
        comes_from(sys, scope, stmts, k, e),
{
    let (inner, t) = choose|inner: Seq<char>, t: Statement| #[trigger]
        stands_in(sys, mid, b, inner, t) && gives(sys, inner, t, k, e);
    let depth = choose|depth: nat| #[trigger] stands_at(sys, mid, b, inner, t, depth);
    assert(opens_block(sys, scope, stmts[i], mid, b) && stands_at(sys, mid, b, inner, t, depth));
    assert(stands_at(sys, scope, stmts, inner, t, depth + 1));
    assert(stands_in(sys, scope, stmts, inner, t));
}

proof fn lemma_branches(
    sys: SysInfo,
    at: Seq<ScopeView>,
    branches: Vec<Branch>,
    out: ModuleEffectsView,
    n: int,
    stmts: Seq<Statement>,
    i: int,
)
    requires
        filled(out.effects),
        0 <= n <= branches@.len(),
        0 <= i < stmts.len(),
        stmts[i].node == (StmtNode::If { branches }),
    ensures
        filled(stub_branches(sys, at, branches, out, n).effects),
        grown(out.effects, stub_branches(sys, at, branches, out, n).effects),
        accounted(
            sys,
            current_scope(at),
            stmts,
            out.effects,
            stub_branches(sys, at, branches, out, n).effects,
        ),
    decreases branches, 0nat, n,
{
    if n > 0 {
        lemma_branches(sys, at, branches, out, n - 1, stmts, i);
        let before = stub_branches(sys, at, branches, out, n - 1);
        let b = branches@[n - 1].body@;
        assert(decreases_to!(branches@ => branches@[n - 1]));
        if may_run(sys, branches@, n - 1) {
            lemma_stmts(sys, at, b, before, b.len() as int);
            assert(opens_block(sys, current_scope(at), stmts[i], current_scope(at), b));
            lemma_stands_deeper(
                sys,
                current_scope(at),
                stmts,
                i,
                current_scope(at),
                b,
                out.effects,
                before.effects,
                stub_branches(sys, at, branches, out, n).effects,
            );
        }
    }
}

proof fn lemma_stmt(sys: SysInfo, at: Seq<ScopeView>, stmts: Seq<Statement>, i: int, out: ModuleEffectsView)
    requires
        filled(out.effects),
        0 <= i < stmts.len(),
    ensures
        filled(stub_stmt(sys, at, stmts[i], out).effects),
        grown(out.effects, stub_stmt(sys, at, stmts[i], out).effects),
        accounted(sys, current_scope(at), stmts, out.effects, stub_stmt(sys, at, stmts[i], out).effects),
    decreases stmts, 1nat, i,
{
    let s = stmts[i];
    let scope = current_scope(at);
    let after = stub_stmt(sys, at, s, out).effects;
    assert(stands_at(sys, scope, stmts, scope, s, 0));
    assert(stands_in(sys, scope, stmts, scope, s));
    match s.node {
        StmtNode::Expr { value, .. } => {
            match value.node {
                Node::Call { func, arguments } => {
                    match stub_effect(*func, arguments, value.range) {
                        Some(eff) => {
                            lemma_with(out.effects, scope, eff);
                            assert(declares(s, eff));
                            assert(gives(sys, scope, s, scope, eff));
                        },
                        None => {},
                    }
                },
                _ => {},
            }
        },
        StmtNode::ClassDef(c) => {
            let inside = in_scope(at, ScopeKind::Class, c.name@);
            lemma_stmts(sys, inside, c.body@, out, c.body@.len() as int);
            assert(opens_block(sys, scope, s, current_scope(inside), c.body@));
            assert(accounted(sys, scope, stmts, out.effects, out.effects));
            lemma_stands_deeper(
                sys,
                scope,
                stmts,
                i,
                current_scope(inside),
                c.body@,
                out.effects,
                out.effects,
                after,
            );
        },
        StmtNode::FunctionDef(f) => {
            lemma_function(sys, at, s, out);
            let inside = in_scope(at, ScopeKind::Function, f.name@);
            let body = stub_stmts(sys, inside, f.body@, ModuleEffectsView::none(), f.body@.len() as int).effects;
            lemma_stmts(sys, inside, f.body@, ModuleEffectsView::none(), f.body@.len() as int);
            assert(opens_block(sys, scope, s, current_scope(inside), f.body@));
            assert forall|k: Seq<char>, e: EffectView| #[trigger] has_effect(after, k, e) implies has_effect(
                out.effects,
                k,
                e,
            ) || comes_from(sys, scope, stmts, k, e) by {
                if !has_effect(out.effects, k, e) {
                    if has_effect(body, k, e) {
                        assert(comes_from(sys, current_scope(inside), f.body@, k, e));
                        lemma_comes_deeper(sys, scope, stmts, i, current_scope(inside), f.body@, k, e);
                    } else {
                        assert(gives(sys, scope, s, k, e));
                    }
                }
            }
        },
        StmtNode::If { branches } => {
            lemma_branches(sys, at, branches, out, branches@.len() as int, stmts, i);
        },
        _ => {},
    }
}

proof fn lemma_stmts(sys: SysInfo, at: Seq<ScopeView>, stmts: Seq<Statement>, out: ModuleEffectsView, n: int)
    requires
        filled(out.effects),
        0 <= n <= stmts.len(),
    ensures
        filled(stub_stmts(sys, at, stmts, out, n).effects),
        grown(out.effects, stub_stmts(sys, at, stmts, out, n).effects),
        accounted(sys, current_scope(at), stmts, out.effects, stub_stmts(sys, at, stmts, out, n).effects),
    decreases stmts, 2nat, n,
{
    if n > 0 {
        lemma_stmts(sys, at, stmts, out, n - 1);
        let before = stub_stmts(sys, at, stmts, out, n - 1);
        lemma_stmt(sys, at, stmts, n - 1, before);
        let after = stub_stmts(sys, at, stmts, out, n).effects;
        assert forall|k: Seq<char>, e: EffectView| #[trigger] has_effect(after, k, e) implies has_effect(
            out.effects,
            k,
            e,
        ) || comes_from(sys, current_scope(at), stmts, k, e) by {
            assert(has_effect(before.effects, k, e) || comes_from(sys, current_scope(at), stmts, k, e));
        }
    }
}

/// Every effect that a stub declares is collected, for the scope of the function or the class in
/// which it stands, at the top of the stub, in classes, in functions and in branches that may run,
/// to any depth.
pub proof fn declared_effects_are_collected(
    sys: SysInfo,
    name: Seq<char>,
    body: Seq<Statement>,
    scope: Seq<char>,
    t: Statement,
    eff: EffectView,
)
    requires
        stands_in(sys, name, body, scope, t),
        declares(t, eff),
    ensures
        has_effect(stub_says(sys, name, body).effects, scope, eff),
{
    lemma_heard(sys, in_module(name), body, ModuleEffectsView::none(), scope, t);
    assert(gives(sys, scope, t, scope, eff));
}

/// Of a function that a stub defines without a word on its effects, at the top of the stub, in
/// classes, in functions and in branches that may run, to any depth, it is collected that they are
/// not known.
pub proof fn silent_functions_have_unknown_effects(
    sys: SysInfo,
    name: Seq<char>,
    body: Seq<Statement>,
    scope: Seq<char>,
    t: Statement,
)
    requires
        stands_in(sys, name, body, scope, t),
        is_silent_function(sys, scope, t),
    ensures
        has_effect(stub_says(sys, name, body).effects, scope_of(scope, t), unknown_effects(t.range)),
{
    lemma_heard(sys, in_module(name), body, ModuleEffectsView::none(), scope, t);
    assert(gives(sys, scope, t, scope_of(scope, t), unknown_effects(t.range)));
}

/// Nothing else is collected: an effect of a scope is declared by a statement that stands in it,
/// or is the remark that a function without a word on its effects has unknown ones.
pub proof fn collected_effects_are_declared(
    sys: SysInfo,
    name: Seq<char>,
    body: Seq<Statement>,
    scope: Seq<char>,
    eff: EffectView,
)
    requires
        has_effect(stub_says(sys, name, body).effects, scope, eff),
    ensures
        exists|inner: Seq<char>, t: Statement| #[trigger]
            stands_in(sys, name, body, inner, t) && ((inner == scope && declares(t, eff)) || (is_silent_function(
                sys,
                inner,
                t,
            ) && scope == scope_of(inner, t) && eff == unknown_effects(t.range))),
{
    lemma_stmts(sys, in_module(name), body, ModuleEffectsView::none(), body.len() as int);
    assert(comes_from(sys, name, body, scope, eff));
    let (inner, t) = choose|inner: Seq<char>, t: Statement| #[trigger]
        stands_in(sys, name, body, inner, t) && gives(sys, inner, t, scope, eff);
    assert(stands_in(sys, name, body, inner, t));
}

} // verus!
