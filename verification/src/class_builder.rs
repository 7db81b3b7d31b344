//! What a class statement says of its class.

use crate::ast::{ClassDef, Decorator, Expression, Keyword, Node, Statement, StmtNode};
use crate::class::{Class, ClassView, Field, FieldKind};
use crate::cursor::{Cursor, ScopeView};
use crate::definitions::Definitions;
use crate::module_name::{optional_name, str_eq, texts, ModuleName};
use crate::name_map::NameMap;
use crate::resolve::{expr_at, resolve_expr, ScopeDefinitions};
use vstd::prelude::*;

verus! {

/// The full name of the class that an expression is, where it can be told.
pub open spec fn class_name_at(defs: ScopeDefinitions, at: Seq<ScopeView>, e: Expression) -> Option<Seq<char>> {
    match expr_at(defs, at, e) {
        Some(r) => r.try_qualified_name(),
        None => None,
    }
}

/// The full name of the class that an expression is, where it can be told.
pub fn get_class_name(defs: &NameMap<Definitions>, cursor: &Cursor, e: &Expression) -> (res: Option<ModuleName>)
    ensures
        optional_name(res) == class_name_at(defs.deep_view(), cursor@, *e),
{
    match resolve_expr(defs, cursor, e) {
        Some(found) => found.try_qualified_name(),
        None => None,
    }
}

/// The bases among the first `n` arguments of a class statement whose names can be told.
pub open spec fn known_bases(
    defs: ScopeDefinitions,
    at: Seq<ScopeView>,
    args: Seq<Expression>,
    n: int,
) -> Seq<Seq<char>>
    decreases n,
{
    if n <= 0 {
        Seq::empty()
    } else {
        let before = known_bases(defs, at, args, n - 1);
        match class_name_at(defs, at, args[n - 1]) {
            Some(name) => before.push(name),
            None => before,
        }
    }
}

/// The name of some base among the first `n` arguments of a class statement cannot be told.
pub open spec fn unknown_base(defs: ScopeDefinitions, at: Seq<ScopeView>, args: Seq<Expression>, n: int) -> bool {
    exists|i: int| 0 <= i < n && class_name_at(defs, at, #[trigger] args[i]) is None
}

/// A keyword argument says what the metaclass is.
pub open spec fn names_metaclass(keyword: Keyword) -> bool {
    keyword.arg matches Some(arg) && arg@ == "metaclass"@
}

/// The metaclass that the last of the first `n` keyword arguments of a class statement gives which
/// gives one.
pub open spec fn metaclass_of(defs: ScopeDefinitions, at: Seq<ScopeView>, keywords: Seq<Keyword>, n: int) -> Option<
    Seq<char>,
>
    decreases n,
{
    if n <= 0 {
        None
    } else if names_metaclass(keywords[n - 1]) {
        class_name_at(defs, at, keywords[n - 1].value)
    } else {
        metaclass_of(defs, at, keywords, n - 1)
    }
}

/// A metaclass among the first `n` keyword arguments of a class statement cannot be told.
pub open spec fn unknown_metaclass(
    defs: ScopeDefinitions,
    at: Seq<ScopeView>,
    keywords: Seq<Keyword>,
    n: int,
) -> bool {
    exists|i: int|
        0 <= i < n && names_metaclass(#[trigger] keywords[i]) && class_name_at(defs, at, keywords[i].value) is None
}

/// The kind that a decorator gives to a method.
pub open spec fn decorated_kind(e: Expression) -> Option<FieldKind> {
    match e.node {
        Node::Name { id } => if id@ == "property"@ {
            Some(FieldKind::Property)
        } else if id@ == "classmethod"@ {
            Some(FieldKind::ClassMethod)
        } else if id@ == "staticmethod"@ {
            Some(FieldKind::StaticMethod)
        } else {
            None
        },
        Node::Attribute { attr, .. } => if attr@ == "setter"@ {
            Some(FieldKind::PropertySetter)
        } else {
            None
        },
        _ => None,
    }
}

/// The kind of a method with the first `n` of some decorators: the last one that gives one decides.
pub open spec fn method_kind(decorators: Seq<Decorator>, n: int) -> FieldKind
    decreases n,
{
    if n <= 0 {
        FieldKind::InstanceMethod
    } else {
        match decorated_kind(decorators[n - 1].expression) {
            Some(kind) => kind,
            None => method_kind(decorators, n - 1),
        }
    }
}

/// The class variables that the first `n` targets of an assignment are.
pub open spec fn class_vars(targets: Seq<Expression>, n: int) -> Seq<(FieldKind, Seq<char>)>
    decreases n,
{
    if n <= 0 {
        Seq::empty()
    } else {
        let before = class_vars(targets, n - 1);
        match targets[n - 1].node {
            Node::Name { id } => before.push((FieldKind::ClassVar, id@)),
            _ => before,
        }
    }
}

/// The fields that a statement of a class body defines.
pub open spec fn fields_in(stmt: Statement) -> Seq<(FieldKind, Seq<char>)> {
    match stmt.node {
        StmtNode::FunctionDef(f) => seq![
            (method_kind(f.decorators@, f.decorators@.len() as int), f.name@),
        ],
        StmtNode::Assign { targets, .. } => class_vars(targets@, targets@.len() as int),
        StmtNode::AnnAssign { target, .. } => class_vars(seq![target], 1),
        _ => Seq::empty(),
    }
}

/// The fields that the first `n` statements of a class body define.
pub open spec fn fields_of(stmts: Seq<Statement>, n: int) -> Seq<(FieldKind, Seq<char>)>
    decreases n,
{
    if n <= 0 {
        Seq::empty()
    } else {
        fields_of(stmts, n - 1) + fields_in(stmts[n - 1])
    }
}

/// What a class statement says of its class.
pub open spec fn class_info(
    defs: ScopeDefinitions,
    at: Seq<ScopeView>,
    module: Seq<char>,
    cls: ClassDef,
) -> ClassView {
    let args = match cls.arguments {
        Some(arguments) => arguments.args@,
        None => Seq::empty(),
    };
    let keywords = match cls.arguments {
        Some(arguments) => arguments.keywords@,
        None => Seq::empty(),
    };
    ClassView {
        module,
        name: cls.name@,
        decorators: Seq::empty(),
        bases: known_bases(defs, at, args, args.len() as int),
        metaclass: metaclass_of(defs, at, keywords, keywords.len() as int),
        fields: fields_of(cls.body@, cls.body@.len() as int),
        has_unknown_base: unknown_base(defs, at, args, args.len() as int),
        has_unknown_metaclass: unknown_metaclass(defs, at, keywords, keywords.len() as int),
    }
}

/// The kind that a decorator gives to a method.
fn method_kind_from_decorator(e: &Expression) -> (res: Option<FieldKind>)
    ensures
        res == decorated_kind(*e),
{
    match &e.node {
        Node::Name { id } => if str_eq(id.as_str(), "property") {
            Some(FieldKind::Property)
        } else if str_eq(id.as_str(), "classmethod") {
            Some(FieldKind::ClassMethod)
        } else if str_eq(id.as_str(), "staticmethod") {
            Some(FieldKind::StaticMethod)
        } else {
            None
        },
        Node::Attribute { attr, .. } => if str_eq(attr.as_str(), "setter") {
            Some(FieldKind::PropertySetter)
        } else {
            None
        },
        _ => None,
    }
}

fn push_field(fields: &mut Vec<Field>, kind: FieldKind, name: &String)
    ensures
        final(fields).deep_view() == old(fields).deep_view().push((kind, name@)),
{
    let ghost before = fields.deep_view();
    fields.push(Field { kind, name: name.clone() });
    proof {
        assert(fields.deep_view() =~= before.push((kind, name@)));
    }
}

fn push_class_var(fields: &mut Vec<Field>, target: &Expression)
    ensures
        final(fields).deep_view() == old(fields).deep_view() + class_vars(seq![*target], 1),
{
    let ghost before = fields.deep_view();
    proof {
        reveal_with_fuel(class_vars, 2);
    }
    if let Node::Name { id } = &target.node {
        push_field(fields, FieldKind::ClassVar, id);
    }
    proof {
        assert(fields.deep_view() =~= before + class_vars(seq![*target], 1));
    }
}

/// Adds the fields that a statement of a class body defines.
fn push_fields(fields: &mut Vec<Field>, stmt: &Statement)
    ensures
        final(fields).deep_view() == old(fields).deep_view() + fields_in(*stmt),
{
    let ghost before = fields.deep_view();
    match &stmt.node {
        StmtNode::FunctionDef(f) => {
            let mut kind: FieldKind = FieldKind::InstanceMethod;
            for i in 0..f.decorators.len()
                invariant
                    kind == method_kind(f.decorators@, i as int),
            {
                if let Some(k) = method_kind_from_decorator(&f.decorators[i].expression) {
                    kind = k;
                }
            }
            push_field(fields, kind, &f.name);
        },
        StmtNode::Assign { targets, .. } => {
            proof {
                assert(before + class_vars(targets@, 0) =~= before);
            }
            for i in 0..targets.len()
                invariant
                    fields.deep_view() == before + class_vars(targets@, i as int),
            {
                if let Node::Name { id } = &targets[i].node {
                    push_field(fields, FieldKind::ClassVar, id);
                }
                proof {
                    assert(fields.deep_view() =~= before + class_vars(targets@, i + 1));
                }
            }
        },
        StmtNode::AnnAssign { target, .. } => {
            push_class_var(fields, target);
        },
        _ => {},
    }
    proof {
        assert(fields.deep_view() =~= before + fields_in(*stmt));
    }
}

/// What a class statement says of its class. The place is inside of the class.
pub fn build_class_info(
    defs: &NameMap<Definitions>,
    cursor: &Cursor,
    module_name: &ModuleName,
    cls: &ClassDef,
) -> (res: Class)
    ensures
        res.deep_view() == class_info(defs.deep_view(), cursor@, module_name@, *cls),
{
    let mut class = Class::empty(module_name.clone());
    class.name = ModuleName::from_str(cls.name.as_str());
    let ghost view = defs.deep_view();
    let ghost at = cursor@;
    if let Some(arguments) = &cls.arguments {
        let args = &arguments.args;
        let mut bases: Vec<ModuleName> = Vec::new();
        let mut has_unknown_base: bool = false;
        proof {
            assert(texts(bases@) =~= Seq::empty());
        }
        for i in 0..args.len()
            invariant
                view == defs.deep_view(),
                at == cursor@,
                texts(bases@) == known_bases(view, at, args@, i as int),
                has_unknown_base == unknown_base(view, at, args@, i as int),
        {
            let ghost before = texts(bases@);
            match get_class_name(defs, cursor, &args[i]) {
                Some(name) => {
                    bases.push(name);
                    proof {
                        assert(texts(bases@) =~= before.push(name@));
                        if unknown_base(view, at, args@, i + 1) {
                            let j = choose|j: int|
                                0 <= j < i + 1 && class_name_at(view, at, #[trigger] args@[j]) is None;
                            assert(j < i);
                        }
                    }
                },
                None => {
                    has_unknown_base = true;
                    proof {
                        assert(class_name_at(view, at, args@[i as int]) is None);
                    }
                },
            }
        }
        class.bases = bases;
        class.has_unknown_base = has_unknown_base;
        let keywords = &arguments.keywords;
        let mut metaclass: Option<ModuleName> = None;
        let mut has_unknown_metaclass: bool = false;
        for i in 0..keywords.len()
            invariant
                view == defs.deep_view(),
                at == cursor@,
                optional_name(metaclass) == metaclass_of(view, at, keywords@, i as int),
                has_unknown_metaclass == unknown_metaclass(view, at, keywords@, i as int),
        {
            let keyword = &keywords[i];
            let named = match &keyword.arg {
                Some(arg) => str_eq(arg.as_str(), "metaclass"),
                None => false,
            };
            if named {
                metaclass = get_class_name(defs, cursor, &keyword.value);
                if metaclass.is_none() {
                    has_unknown_metaclass = true;
                    proof {
                        assert(names_metaclass(keywords@[i as int]));
                    }
                }
            }
            proof {
                if unknown_metaclass(view, at, keywords@, i + 1) {
                    let j = choose|j: int|
                        0 <= j < i + 1 && names_metaclass(#[trigger] keywords@[j]) && class_name_at(
                            view,
                            at,
                            keywords@[j].value,
                        ) is None;
                    if j < i {
                        assert(unknown_metaclass(view, at, keywords@, i as int));
                    }
                }
            }
        }
        class.metaclass = metaclass;
        class.has_unknown_metaclass = has_unknown_metaclass;
    }
    let stmts = &cls.body;
    let mut fields: Vec<Field> = Vec::new();
    proof {
        assert(fields.deep_view() =~= Seq::empty());
    }
    for i in 0..stmts.len()
        invariant
            fields.deep_view() == fields_of(stmts@, i as int),
    {
        push_fields(&mut fields, &stmts[i]);
    }
    class.fields = fields;
    proof {
        assert(texts(class.decorators@) =~= Seq::empty());
    }
    class
}

} // verus!
