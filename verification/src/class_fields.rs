//! What a class statement makes of its arguments and its body, and what a name stands for where several
//! scopes define it.

use crate::ast::{ClassDef, Decorator, Expression, Keyword, Node, Statement, StmtNode};
use crate::class::FieldKind;
use crate::class_builder::{
    class_info, class_name_at, class_vars, decorated_kind, fields_in, fields_of, known_bases, metaclass_of, method_kind,
    names_metaclass,
};
use crate::cursor::{outer_names, visible_scopes, ScopeKind, ScopeView};
use crate::resolve::{defines_name, defining_scope, name_at, ScopeDefinitions};
use vstd::prelude::*;

verus! {

/// A decorator says that a method is of a kind.
pub open spec fn says_kind(e: Expression, kind: FieldKind) -> bool {
    match kind {
        FieldKind::Property => e.node matches Node::Name { id } && id@ == "property"@,
        FieldKind::ClassMethod => e.node matches Node::Name { id } && id@ == "classmethod"@,
        FieldKind::StaticMethod => e.node matches Node::Name { id } && id@ == "staticmethod"@,
        FieldKind::PropertySetter => e.node matches Node::Attribute { attr, .. } && attr@ == "setter"@,
        _ => false,
    }
}

/// A decorator says of what kind a method is.
pub open spec fn says_some_kind(e: Expression) -> bool {
    exists|kind: FieldKind| says_kind(e, kind)
}

/// A method with some decorators is of a kind: the last decorator that says a kind says this one, or none
/// says any and it is a method of the objects.
pub open spec fn is_of_kind(decorators: Seq<Decorator>, kind: FieldKind) -> bool {
    if exists|j: int| 0 <= j < decorators.len() && says_some_kind((#[trigger] decorators[j]).expression) {
        exists|j: int|
            0 <= j < decorators.len() && says_kind((#[trigger] decorators[j]).expression, kind) && forall|l: int|
                j < l < decorators.len() ==> !says_some_kind((#[trigger] decorators[l]).expression)
    } else {
        kind == FieldKind::InstanceMethod
    }
}

/// A statement of a class body defines a field of a kind.
pub open spec fn defines_field(s: Statement, kind: FieldKind, name: Seq<char>) -> bool {
    match s.node {
        StmtNode::FunctionDef(f) => name == f.name@ && is_of_kind(f.decorators@, kind),
        StmtNode::Assign { targets, .. } => kind == FieldKind::ClassVar && exists|i: int|
            0 <= i < targets@.len() && names(#[trigger] targets@[i], name),
        StmtNode::AnnAssign { target, .. } => kind == FieldKind::ClassVar && names(target, name),
        _ => false,
    }
}

/// An expression is a name.
pub open spec fn names(e: Expression, name: Seq<char>) -> bool {
    e.node matches Node::Name { id } && id@ == name
}

proof fn lemma_texts_differ()
    ensures
        "property"@ != "classmethod"@,
        "property"@ != "staticmethod"@,
        "classmethod"@ != "staticmethod"@,
{
    reveal_strlit("property");
    reveal_strlit("classmethod");
    reveal_strlit("staticmethod");
    assert("property"@.len() == 8);
    assert("classmethod"@.len() == 11);
    assert("staticmethod"@.len() == 12);
}

proof fn lemma_decorated(e: Expression, kind: FieldKind)
    ensures
        decorated_kind(e) == Some(kind) <==> says_kind(e, kind),
        decorated_kind(e) is Some <==> says_some_kind(e),
{
    lemma_texts_differ();
    if decorated_kind(e) is Some {
        assert(says_kind(e, decorated_kind(e)->0));
    }
}

proof fn lemma_method_kind(decorators: Seq<Decorator>, n: int)
    requires
        0 <= n <= decorators.len(),
    ensures
        is_of_kind(decorators.take(n), method_kind(decorators, n)),
        forall|kind: FieldKind| #[trigger] is_of_kind(decorators.take(n), kind) ==> kind == method_kind(decorators, n),
    decreases n,
{
    let now = decorators.take(n);
    if n > 0 {
        let before = decorators.take(n - 1);
        lemma_method_kind(decorators, n - 1);
        let e = decorators[n - 1].expression;
        assert(now[n - 1] == decorators[n - 1]);
        let kind = method_kind(decorators, n);
        lemma_decorated(e, kind);
        if says_some_kind(e) {
            assert(says_some_kind(now[n - 1].expression));
            assert(says_kind(now[n - 1].expression, kind));
            assert(is_of_kind(now, kind));
            assert forall|other: FieldKind| #[trigger] is_of_kind(now, other) implies other == kind by {
                let j = choose|j: int|
                    0 <= j < now.len() && says_kind((#[trigger] now[j]).expression, other) && forall|l: int|
                        j < l < now.len() ==> !says_some_kind((#[trigger] now[l]).expression);
                if j < n - 1 {
                    assert(!says_some_kind(now[n - 1].expression));
                }
                lemma_decorated(e, other);
            }
        } else {
            assert forall|other: FieldKind| #[trigger] is_of_kind(now, other) == is_of_kind(before, other) by {
                if exists|j: int| 0 <= j < before.len() && says_some_kind((#[trigger] before[j]).expression) {
                    let j = choose|j: int| 0 <= j < before.len() && says_some_kind((#[trigger] before[j]).expression);
                    assert(says_some_kind(now[j].expression));
                    if is_of_kind(before, other) {
                        let k = choose|k: int|
                            0 <= k < before.len() && says_kind((#[trigger] before[k]).expression, other) && forall|l: int|
                                k < l < before.len() ==> !says_some_kind((#[trigger] before[l]).expression);
                        assert(says_kind(now[k].expression, other));
                        assert forall|l: int| k < l < now.len() implies !says_some_kind(
                            (#[trigger] now[l]).expression,
                        ) by {
                            if l < n - 1 {
                                assert(before[l] == now[l]);
                            }
                        }
                    }
                    if is_of_kind(now, other) {
                        let k = choose|k: int|
                            0 <= k < now.len() && says_kind((#[trigger] now[k]).expression, other) && forall|l: int|
                                k < l < now.len() ==> !says_some_kind((#[trigger] now[l]).expression);
                        assert(k < n - 1);
                        assert(says_kind(before[k].expression, other));
                        assert forall|l: int| k < l < before.len() implies !says_some_kind(
                            (#[trigger] before[l]).expression,
                        ) by {
                            assert(before[l] == now[l]);
                        }
                    }
                } else {
                    assert forall|j: int| 0 <= j < now.len() implies !says_some_kind(
                        (#[trigger] now[j]).expression,
                    ) by {
                        if j < n - 1 {
                            assert(before[j] == now[j]);
                        }
                    }
                }
            }
            assert(is_of_kind(now, kind));
        }
    }
}

proof fn lemma_class_vars(targets: Seq<Expression>, n: int, kind: FieldKind, name: Seq<char>)
    requires
        0 <= n <= targets.len(),
    ensures
        class_vars(targets, n).contains((kind, name)) <==> kind == FieldKind::ClassVar && exists|i: int|
            0 <= i < n && names(#[trigger] targets[i], name),
    decreases n,
{
    if n > 0 {
        lemma_class_vars(targets, n - 1, kind, name);
        let before = class_vars(targets, n - 1);
        let after = class_vars(targets, n);
        if let Node::Name { id } = targets[n - 1].node {
            assert(after == before.push((FieldKind::ClassVar, id@)));
            assert(after.last() == (FieldKind::ClassVar, id@));
            if before.contains((kind, name)) {
                assert(after[before.index_of((kind, name))] == (kind, name));
            }
            if after.contains((kind, name)) {
                let i = after.index_of((kind, name));
                if i < before.len() {
                    assert(before[i] == (kind, name));
                } else {
                    assert(names(targets[n - 1], name));
                }
            }
        }
    }
}

proof fn lemma_fields_in(s: Statement, kind: FieldKind, name: Seq<char>)
    ensures
        fields_in(s).contains((kind, name)) <==> defines_field(s, kind, name),
{
    match s.node {
        StmtNode::FunctionDef(f) => {
            let n = f.decorators@.len() as int;
            lemma_method_kind(f.decorators@, n);
            assert(f.decorators@.take(n) =~= f.decorators@);
            assert(fields_in(s)[0] == (method_kind(f.decorators@, n), f.name@));
        },
        StmtNode::Assign { targets, .. } => {
            lemma_class_vars(targets@, targets@.len() as int, kind, name);
        },
        StmtNode::AnnAssign { target, .. } => {
            lemma_class_vars(seq![target], 1, kind, name);
            assert(seq![target][0] == target);
        },
        _ => {},
    }
}

proof fn lemma_fields_of(stmts: Seq<Statement>, n: int, kind: FieldKind, name: Seq<char>)
    requires
        0 <= n <= stmts.len(),
    ensures
        fields_of(stmts, n).contains((kind, name)) <==> exists|i: int|
            0 <= i < n && defines_field(#[trigger] stmts[i], kind, name),
    decreases n,
{
    if n > 0 {
        lemma_fields_of(stmts, n - 1, kind, name);
        lemma_fields_in(stmts[n - 1], kind, name);
        let a = fields_of(stmts, n - 1);
        let b = fields_in(stmts[n - 1]);
        let c = fields_of(stmts, n);
        assert(c == a + b);
        if a.contains((kind, name)) {
            assert(c[a.index_of((kind, name))] == (kind, name));
        }
        if b.contains((kind, name)) {
            assert(c[a.len() + b.index_of((kind, name))] == (kind, name));
        }
        if c.contains((kind, name)) {
            let i = c.index_of((kind, name));
            if i < a.len() {
                assert(a[i] == (kind, name));
            } else {
                assert(b[i - a.len()] == (kind, name));
            }
        }
    }
}

/// The fields of a class are the methods of its body, each of the kind that its decorators say, and the
/// names that its body assigns to or annotates. There are no others.
pub proof fn fields_are_those_of_the_body(
    defs: ScopeDefinitions,
    at: Seq<ScopeView>,
    module: Seq<char>,
    cls: ClassDef,
    kind: FieldKind,
    name: Seq<char>,
)
    ensures
        class_info(defs, at, module, cls).fields.contains((kind, name)) <==> exists|i: int|
            0 <= i < cls.body@.len() && defines_field(#[trigger] cls.body@[i], kind, name),
{
    lemma_fields_of(cls.body@, cls.body@.len() as int, kind, name);
}

proof fn lemma_bases(defs: ScopeDefinitions, at: Seq<ScopeView>, args: Seq<Expression>, n: int, base: Seq<char>)
    requires
        0 <= n <= args.len(),
    ensures
        known_bases(defs, at, args, n).contains(base) <==> exists|i: int|
            0 <= i < n && class_name_at(defs, at, #[trigger] args[i]) == Some(base),
    decreases n,
{
    if n > 0 {
        lemma_bases(defs, at, args, n - 1, base);
        let before = known_bases(defs, at, args, n - 1);
        let after = known_bases(defs, at, args, n);
        if let Some(found) = class_name_at(defs, at, args[n - 1]) {
            assert(after == before.push(found));
            assert(after.last() == found);
            if before.contains(base) {
                assert(after[before.index_of(base)] == base);
            }
            if after.contains(base) && base != found {
                assert(before[after.index_of(base)] == base);
            }
        }
    }
}

/// The bases of a class are all arguments of its statement whose names can be told; where one cannot, the
/// class says so. Its metaclass is what the last argument of that name gives.
pub proof fn bases_are_those_that_are_given(
    defs: ScopeDefinitions,
    at: Seq<ScopeView>,
    module: Seq<char>,
    cls: ClassDef,
    base: Seq<char>,
    k: int,
)
    requires
        cls.arguments is Some,
    ensures
        ({
            let args = cls.arguments->0.args@;
            let keywords = cls.arguments->0.keywords@;
            let info = class_info(defs, at, module, cls);
            &&& info.module == module
            &&& info.name == cls.name@
            &&& info.bases.contains(base) <==> exists|i: int|
                0 <= i < args.len() && class_name_at(defs, at, #[trigger] args[i]) == Some(base)
            &&& info.has_unknown_base <==> exists|i: int|
                0 <= i < args.len() && class_name_at(defs, at, #[trigger] args[i]) is None
            &&& 0 <= k < keywords.len() && gives_metaclass(keywords[k]) && (forall|l: int|
                k < l < keywords.len() ==> !gives_metaclass(#[trigger] keywords[l])) ==> info.metaclass
                == class_name_at(defs, at, keywords[k].value)
            &&& 0 <= k < keywords.len() && gives_metaclass(keywords[k]) && class_name_at(
                defs,
                at,
                keywords[k].value,
            ) is None ==> info.has_unknown_metaclass
            &&& (forall|l: int| 0 <= l < keywords.len() ==> !gives_metaclass(#[trigger] keywords[l]))
                ==> info.metaclass is None && !info.has_unknown_metaclass
        }),
{
    let args = cls.arguments->0.args@;
    let keywords = cls.arguments->0.keywords@;
    lemma_bases(defs, at, args, args.len() as int, base);
    assert forall|l: int| #![trigger keywords[l]] names_metaclass(keywords[l]) == gives_metaclass(keywords[l]) by {}
    if 0 <= k < keywords.len() && gives_metaclass(keywords[k]) && (forall|l: int|
        k < l < keywords.len() ==> !gives_metaclass(#[trigger] keywords[l])) {
        lemma_metaclass(defs, at, keywords, k, keywords.len() as int);
    }
    if forall|l: int| 0 <= l < keywords.len() ==> !gives_metaclass(#[trigger] keywords[l]) {
        lemma_no_metaclass(defs, at, keywords, keywords.len() as int);
    }
}

/// An argument is given under the name of the metaclass.
pub open spec fn gives_metaclass(keyword: Keyword) -> bool {
    keyword.arg matches Some(arg) && arg@ == "metaclass"@
}

proof fn lemma_metaclass(defs: ScopeDefinitions, at: Seq<ScopeView>, keywords: Seq<Keyword>, k: int, n: int)
    requires
        0 <= k < n <= keywords.len(),
        gives_metaclass(keywords[k]),
        forall|l: int| k < l < n ==> !gives_metaclass(#[trigger] keywords[l]),
    ensures
        metaclass_of(defs, at, keywords, n) == class_name_at(defs, at, keywords[k].value),
    decreases n,
{
    if k < n - 1 {
        assert(!gives_metaclass(keywords[n - 1]));
        lemma_metaclass(defs, at, keywords, k, n - 1);
    }
}

proof fn lemma_no_metaclass(defs: ScopeDefinitions, at: Seq<ScopeView>, keywords: Seq<Keyword>, n: int)
    requires
        n <= keywords.len(),
        forall|l: int| 0 <= l < n ==> !gives_metaclass(#[trigger] keywords[l]),
    ensures
        metaclass_of(defs, at, keywords, n) is None,
    decreases n,
{
    if n > 0 {
        assert(!gives_metaclass(keywords[n - 1]));
        lemma_no_metaclass(defs, at, keywords, n - 1);
    }
}

proof fn lemma_defining(defs: ScopeDefinitions, scopes: Seq<Seq<char>>, name: Seq<char>, from: int, i: int)
    requires
        0 <= from <= i < scopes.len(),
        defines_name(defs, scopes[i], name),
        forall|j: int| from <= j < i ==> !defines_name(defs, #[trigger] scopes[j], name),
    ensures
        defining_scope(defs, scopes, name, from) == Some(scopes[i]),
    decreases i - from,
{
    if from < i {
        assert(!defines_name(defs, scopes[from], name));
        lemma_defining(defs, scopes, name, from + 1, i);
    }
}

proof fn lemma_not_defined(defs: ScopeDefinitions, scopes: Seq<Seq<char>>, name: Seq<char>, from: int)
    requires
        0 <= from <= scopes.len(),
        forall|j: int| from <= j < scopes.len() ==> !defines_name(defs, #[trigger] scopes[j], name),
    ensures
        defining_scope(defs, scopes, name, from) is None,
    decreases scopes.len() - from,
{
    if from < scopes.len() {
        lemma_not_defined(defs, scopes, name, from + 1);
    }
}

/// A name stands for what the innermost of the visible scopes says that has a definition of it, and for
/// nothing where none of them has one.
pub proof fn inner_scopes_come_first(defs: ScopeDefinitions, at: Seq<ScopeView>, name: Seq<char>, i: int)
    ensures
        ({
            let scopes = visible_scopes(at);
            &&& 0 <= i < scopes.len() && defs.contains_key(scopes[i]) && defs[scopes[i]].definitions.contains_key(name)
                && (forall|j: int|
                0 <= j < i ==> !(defs.contains_key(#[trigger] scopes[j]) && defs[scopes[j]].definitions.contains_key(
                    name,
                ))) ==> (name_at(defs, at, name) matches Some(r) && r.scope == scopes[i] && r.name == name && r.definition
                == defs[scopes[i]].definitions[name])
            &&& (forall|j: int|
                0 <= j < scopes.len() ==> !(defs.contains_key(#[trigger] scopes[j])
                    && defs[scopes[j]].definitions.contains_key(name))) ==> name_at(defs, at, name) is None
        }),
{
    let scopes = visible_scopes(at);
    if 0 <= i < scopes.len() && defines_name(defs, scopes[i], name) && forall|j: int|
        0 <= j < i ==> !defines_name(defs, #[trigger] scopes[j], name) {
        lemma_defining(defs, scopes, name, 0, i);
    }
    if forall|j: int| 0 <= j < scopes.len() ==> !defines_name(defs, #[trigger] scopes[j], name) {
        lemma_not_defined(defs, scopes, name, 0);
    }
}

proof fn lemma_outer(at: Seq<ScopeView>, name: Seq<char>)
    ensures
        outer_names(at).contains(name) <==> exists|k: int|
            0 <= k < at.len() && (#[trigger] at[k]).name == name && at[k].kind != ScopeKind::Class,
    decreases at.len(),
{
    if at.len() > 0 {
        let front = at.drop_last();
        lemma_outer(front, name);
        let rest = outer_names(front);
        let all = outer_names(at);
        if at.last().kind != ScopeKind::Class {
            assert(all[0] == at.last().name);
            if rest.contains(name) {
                assert(all[1 + rest.index_of(name)] == name);
            }
            if all.contains(name) && name != at.last().name {
                assert(rest[all.index_of(name) - 1] == name);
            }
        }
        if exists|k: int| 0 <= k < front.len() && (#[trigger] front[k]).name == name && front[k].kind != ScopeKind::Class {
            let k = choose|k: int|
                0 <= k < front.len() && (#[trigger] front[k]).name == name && front[k].kind != ScopeKind::Class;
            assert(at[k].name == name && at[k].kind != ScopeKind::Class);
        }
        if exists|k: int| 0 <= k < at.len() && (#[trigger] at[k]).name == name && at[k].kind != ScopeKind::Class {
            let k = choose|k: int|
                0 <= k < at.len() && (#[trigger] at[k]).name == name && at[k].kind != ScopeKind::Class;
            if k < front.len() {
                assert(front[k].name == name && front[k].kind != ScopeKind::Class);
            }
        }
    }
}

/// At a place its own scope is visible, before all others, and so are the scopes round it that are no
/// classes.
pub proof fn scopes_are_visible_but_for_classes(at: Seq<ScopeView>, name: Seq<char>)
    requires
        at.len() > 0,
    ensures
        visible_scopes(at)[0] == at.last().name,
        visible_scopes(at).contains(name) <==> name == at.last().name || exists|k: int|
            0 <= k < at.len() - 1 && (#[trigger] at[k]).name == name && at[k].kind != ScopeKind::Class,
{
    let front = at.drop_last();
    lemma_outer(front, name);
    let rest = outer_names(front);
    let all = visible_scopes(at);
    assert(all[0] == at.last().name);
    if rest.contains(name) {
        assert(all[1 + rest.index_of(name)] == name);
        let k = choose|k: int|
            0 <= k < front.len() && (#[trigger] front[k]).name == name && front[k].kind != ScopeKind::Class;
        assert(at[k].name == name);
    }
    if all.contains(name) && name != at.last().name {
        assert(rest[all.index_of(name) - 1] == name);
    }
    if exists|k: int| 0 <= k < at.len() - 1 && (#[trigger] at[k]).name == name && at[k].kind != ScopeKind::Class {
        let k = choose|k: int|
            0 <= k < at.len() - 1 && (#[trigger] at[k]).name == name && at[k].kind != ScopeKind::Class;
        assert(front[k].name == name && front[k].kind != ScopeKind::Class);
    }
}

} // verus!
