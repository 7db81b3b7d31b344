//! The classes that variables are objects of.

use crate::ast::{
    block_refs, blocks, lemma_blocks_smaller, var_name_of, Expression, Node, NumberKind, ParsedModule,
    Statement, StmtNode,
};
use crate::attribute::{attribute_named, full_name, AttrMap, Attribute};
use crate::bindings::{
    alias_end, bindings_view, module_aliases, optional_alias, Alias, AliasTable, AliasView, Aliases,
    Bindings, Context, Value, ValueView,
};
use crate::cursor::{ascending_names, current_scope, in_module, in_scope, Cursor, ScopeKind, ScopeView};
use crate::exports::{optional_attribute, ExportsView};
use crate::importlib::{name_within, within};
use crate::module_name::{after_first_dot, first_dot, optional_name, texts, ModuleName};
use crate::resolve::{expr_at, resolve_expr};
use vstd::prelude::*;
use vstd::string::*;

verus! {

/// A name with the module in the place of its first component.
pub open spec fn with_first(module: Seq<char>, name: Seq<char>) -> Seq<char> {
    let d = first_dot(name);
    if d < 0 {
        module
    } else {
        within(module, name.skip(d + 1))
    }
}

/// A name with the module in the place of its first component.
fn replace_first(module: &ModuleName, name: &ModuleName) -> (res: ModuleName)
    ensures
        res@ == with_first(module@, name@),
{
    match after_first_dot(name.as_str()) {
        Some(rest) => name_within(module, rest.as_str()),
        None => module.clone(),
    }
}

/// The class that an expression is, where it is the name of one.
pub open spec fn class_at(cx: &Context, aliases: Aliases, at: Seq<ScopeView>, e: Expression) -> Option<Seq<char>> {
    match expr_at(cx.defs(), at, e) {
        Some(r) => match r.full_name {
            Some(name) => match alias_end(aliases, r.scope, r.name, 0) {
                Some(AliasView::Global(ValueView::Class(class))) => if first_dot(name) < 0 {
                    Some(class)
                } else {
                    None
                },
                Some(AliasView::Global(ValueView::Module(module))) => if cx.exported().is_class(
                    with_first(module, name),
                ) {
                    Some(with_first(module, name))
                } else {
                    None
                },
                Some(_) => None,
                None => if cx.exported().is_class(r.qualified_name()) {
                    Some(r.qualified_name())
                } else {
                    None
                },
            },
            None => None,
        },
        None => None,
    }
}

/// The full name of the function that an expression is, where it can be told.
pub open spec fn function_at(cx: &Context, aliases: Aliases, at: Seq<ScopeView>, e: Expression) -> Option<Seq<char>> {
    match expr_at(cx.defs(), at, e) {
        Some(r) => match r.full_name {
            Some(name) => match alias_end(aliases, r.scope, r.name, 0) {
                Some(AliasView::Global(ValueView::Function(f))) => if first_dot(name) < 0 {
                    Some(f)
                } else {
                    None
                },
                Some(AliasView::Global(ValueView::Module(module))) => Some(with_first(module, name)),
                Some(AliasView::Global(ValueView::Variable(v))) => if first_dot(name) < 0 {
                    Some(v)
                } else {
                    None
                },
                Some(_) => None,
                None => Some(r.qualified_name()),
            },
            None => None,
        },
        None => None,
    }
}

/// The class that a function returns, or the function that a chain of re-exports leads to from it.
pub open spec fn return_type_of(x: ExportsView, func: Seq<char>) -> Option<Seq<char>> {
    if x.return_types.contains_key(func) {
        Some(x.return_types[func])
    } else {
        match x.end_of(attribute_named(func)) {
            Some(end) => if x.return_types.contains_key(full_name(end)) {
                Some(x.return_types[full_name(end)])
            } else {
                None
            },
            None => None,
        }
    }
}

/// The class of which a call gives an object: the class that is called, or that the function
/// returns which is called.
pub open spec fn called_class(
    cx: &Context,
    aliases: Aliases,
    at: Seq<ScopeView>,
    func: Expression,
) -> Option<Seq<char>> {
    match class_at(cx, aliases, at, func) {
        Some(class) => Some(class),
        None => match function_at(cx, aliases, at, func) {
            Some(f) => match return_type_of(cx.exported(), f) {
                Some(typ) => if cx.exported().is_class(typ) {
                    Some(typ)
                } else {
                    None
                },
                None => None,
            },
            None => None,
        },
    }
}

/// The class of numbers of a kind.
pub open spec fn number_class(kind: NumberKind) -> Seq<char> {
    match kind {
        NumberKind::Int => "builtins.int"@,
        NumberKind::Float => "builtins.float"@,
        NumberKind::Complex => "builtins.complex"@,
    }
}

/// The class of the object that an expression is, where it can be told.
pub open spec fn class_of(cx: &Context, aliases: Aliases, at: Seq<ScopeView>, e: Expression) -> Option<Seq<char>> {
    match e.node {
        Node::BooleanLiteral { .. } => Some("builtins.bool"@),
        Node::BytesLiteral { .. } => Some("builtins.bytes"@),
        Node::EllipsisLiteral => Some("builtins.ellipsis"@),
        Node::NoneLiteral => Some("builtins.NoneType"@),
        Node::NumberLiteral { kind, .. } => Some(number_class(kind)),
        Node::StringLiteral { .. } => Some("builtins.str"@),
        Node::Call { func, .. } => called_class(cx, aliases, at, *func),
        Node::Dict { .. } => Some("builtins.dict"@),
        Node::SetDisplay { .. } => Some("builtins.set"@),
        Node::ListComp { .. } => Some("builtins.list"@),
        Node::SetComp { .. } => Some("builtins.set"@),
        Node::DictComp { .. } => Some("builtins.dict"@),
        Node::FString { .. } => Some("builtins.str"@),
        Node::TString { .. } => Some("builtins.str"@),
        Node::List { .. } => Some("builtins.list"@),
        Node::Tuple { .. } => Some("builtins.tuple"@),
        _ => None,
    }
}

/// What a name in a scope is bound to so far.
pub open spec fn bound(b: Bindings, scope: Seq<char>, name: Seq<char>) -> ValueView {
    if b.contains_key((scope, name)) {
        b[(scope, name)]
    } else {
        ValueView::Unknown
    }
}

/// What a name in a scope is bound to by being an alias.
pub open spec fn bound_by_alias(b: Bindings, aliases: Aliases, scope: Seq<char>, name: Seq<char>) -> ValueView {
    match alias_end(aliases, scope, name, 0) {
        Some(AliasView::Global(value)) => value,
        Some(AliasView::Local(s, n)) => bound(b, s, n),
        None => ValueView::Unknown,
    }
}

/// What a name is imported from by the innermost of some scopes that imports it, from the `i`-th
/// on.
pub open spec fn imported_in(x: ExportsView, scopes: Seq<Seq<char>>, name: Seq<char>, i: int) -> Option<
    (Seq<char>, Seq<char>),
>
    decreases scopes.len() - i,
{
    if i < 0 || i >= scopes.len() {
        None
    } else if x.sources().contains_key((scopes[i], name)) {
        Some(x.sources()[(scopes[i], name)])
    } else {
        imported_in(x, scopes, name, i + 1)
    }
}

/// The class of which an expression gives an object by calling the name that the class is imported
/// under.
pub open spec fn imported_class(cx: &Context, at: Seq<ScopeView>, e: Expression) -> Option<Seq<char>> {
    match e.node {
        Node::Call { func, .. } => match func.node {
            Node::Name { id } => match imported_in(cx.exported(), ascending_names(at), id@, 0) {
                Some(imported) => match cx.exported().end_of(imported) {
                    Some(end) => if cx.exported().is_class(full_name(end)) {
                        Some(full_name(imported))
                    } else {
                        None
                    },
                    None => None,
                },
                None => None,
            },
            _ => None,
        },
        _ => None,
    }
}

/// What an assignment of a value binds a variable to.
pub open spec fn assigned_value(
    cx: &Context,
    aliases: Aliases,
    at: Seq<ScopeView>,
    b: Bindings,
    name: Seq<char>,
    rhs: Expression,
) -> ValueView {
    let by_alias = bound_by_alias(b, aliases, current_scope(at), name);
    if by_alias != ValueView::Unknown {
        by_alias
    } else {
        match expr_at(cx.defs(), at, rhs) {
            Some(r) => {
                let known = bound(b, r.scope, r.name);
                if known != ValueView::Unknown {
                    known
                } else {
                    bound_by_alias(b, aliases, r.scope, r.name)
                }
            },
            None => match imported_class(cx, at, rhs) {
                Some(class) => ValueView::Instance(class),
                None => match class_of(cx, aliases, at, rhs) {
                    Some(class) => ValueView::Instance(class),
                    None => ValueView::Unknown,
                },
            },
        }
    }
}

/// The bindings with an assignment.
pub open spec fn with_binding(
    cx: &Context,
    aliases: Aliases,
    at: Seq<ScopeView>,
    b: Bindings,
    lhs: Expression,
    rhs: Expression,
) -> Bindings {
    match var_name_of(lhs) {
        Some(name) => b.insert(
            (current_scope(at), name),
            assigned_value(cx, aliases, at, b, name, rhs),
        ),
        None => b,
    }
}

/// The bindings with the first `n` targets of an assignment to several. What each gets cannot be
/// told.
pub open spec fn with_unknown(at: Seq<ScopeView>, b: Bindings, targets: Seq<Expression>, n: int) -> Bindings
    decreases n,
{
    if n <= 0 {
        b
    } else {
        let before = with_unknown(at, b, targets, n - 1);
        match var_name_of(targets[n - 1]) {
            Some(name) => before.insert((current_scope(at), name), ValueView::Unknown),
            None => before,
        }
    }
}

/// The bindings with an annotation of a variable, where annotations are trusted.
pub open spec fn with_annotation(
    cx: &Context,
    aliases: Aliases,
    at: Seq<ScopeView>,
    b: Bindings,
    target: Expression,
    annotation: Expression,
) -> Bindings {
    match (var_name_of(target), class_at(cx, aliases, at, annotation)) {
        (Some(name), Some(class)) => b.insert((current_scope(at), name), ValueView::Instance(class)),
        _ => b,
    }
}

/// What bindings are looked for with.
pub struct Binder<'a> {
    pub cx: &'a Context<'a>,
    pub aliases: &'a AliasTable,
    pub is_stub: bool,
}

/// The bindings with the first `n` of some statements.
pub open spec fn bind_stmts(x: &Binder, at: Seq<ScopeView>, stmts: Vec<Statement>, b: Bindings, n: int) -> Bindings
    decreases stmts, 2nat, n,
{
    if n <= 0 || n > stmts@.len() {
        b
    } else {
        bind_stmt(x, at, stmts[n - 1], bind_stmts(x, at, stmts, b, n - 1))
    }
}

/// The bindings with the first `n` blocks of a statement.
pub open spec fn bind_blocks(x: &Binder, at: Seq<ScopeView>, s: Statement, b: Bindings, n: int) -> Bindings
    decreases s, 0nat, n,
{
    if n <= 0 || n > blocks(s).len() {
        b
    } else {
        proof {
            lemma_blocks_smaller(s, n - 1);
        }
        bind_stmts(
            x,
            at,
            blocks(s)[n - 1],
            bind_blocks(x, at, s, b, n - 1),
            blocks(s)[n - 1]@.len() as int,
        )
    }
}

/// The bindings with a statement.
pub open spec fn bind_stmt(x: &Binder, at: Seq<ScopeView>, s: Statement, b: Bindings) -> Bindings
    decreases s, 1nat, 0int,
{
    match s.node {
        StmtNode::ClassDef(c) => bind_stmts(
            x,
            in_scope(at, ScopeKind::Class, c.name@),
            c.body,
            b,
            c.body@.len() as int,
        ),
        StmtNode::FunctionDef(f) => bind_stmts(
            x,
            in_scope(at, ScopeKind::Function, f.name@),
            f.body,
            b,
            f.body@.len() as int,
        ),
        StmtNode::Assign { targets, value } => if targets@.len() == 1 {
            with_binding(x.cx, x.aliases.table(), at, b, targets@[0], value)
        } else {
            with_unknown(at, b, targets@, targets@.len() as int)
        },
        StmtNode::AnnAssign { target, annotation, value } => match value {
            Some(value) => with_binding(x.cx, x.aliases.table(), at, b, target, value),
            None => if x.is_stub {
                with_annotation(x.cx, x.aliases.table(), at, b, target, annotation)
            } else {
                b
            },
        },
        _ => bind_blocks(x, at, s, b, blocks(s).len() as int),
    }
}

impl<'a> Binder<'a> {
    /// The class that an expression is, where it is the name of one.
    fn resolve_to_class(&self, cursor: &Cursor, e: &Expression) -> (res: Option<ModuleName>)
        ensures
            optional_name(res) == class_at(self.cx, self.aliases.table(), cursor@, *e),
    {
        let found = match resolve_expr(&self.cx.definitions.definitions, cursor, e) {
            Some(found) => found,
            None => {
                return None;
            },
        };
        let name = match &found.expr_full_name {
            Some(name) => name,
            None => {
                return None;
            },
        };
        match self.aliases.resolve(&found.scope, found.name.as_str()) {
            Some(Alias::Global(Value::Class(class))) => if after_first_dot(name.as_str()).is_none() {
                Some(class.clone())
            } else {
                None
            },
            Some(Alias::Global(Value::Module(module))) => {
                let class = replace_first(module, name);
                if self.cx.exports.is_class(&class) {
                    Some(class)
                } else {
                    None
                }
            },
            Some(_) => None,
            None => {
                let class = found.qualified_name();
                if self.cx.exports.is_class(&class) {
                    Some(class)
                } else {
                    None
                }
            },
        }
    }

    /// The full name of the function that an expression is, where it can be told.
    fn resolve_to_function(&self, cursor: &Cursor, e: &Expression) -> (res: Option<ModuleName>)
        ensures
            optional_name(res) == function_at(self.cx, self.aliases.table(), cursor@, *e),
    {
        let found = match resolve_expr(&self.cx.definitions.definitions, cursor, e) {
            Some(found) => found,
            None => {
                return None;
            },
        };
        let name = match &found.expr_full_name {
            Some(name) => name,
            None => {
                return None;
            },
        };
        match self.aliases.resolve(&found.scope, found.name.as_str()) {
            Some(Alias::Global(Value::Function(f))) => if after_first_dot(name.as_str()).is_none() {
                Some(f.clone())
            } else {
                None
            },
            Some(Alias::Global(Value::Module(module))) => Some(replace_first(module, name)),
            Some(Alias::Global(Value::Variable(v))) => if after_first_dot(name.as_str()).is_none() {
                Some(v.clone())
            } else {
                None
            },
            Some(_) => None,
            None => Some(found.qualified_name()),
        }
    }

    /// The class that a function returns, which an expression is.
    fn get_function_return_type(&self, cursor: &Cursor, func: &Expression) -> (res: Option<ModuleName>)
        ensures
            optional_name(res) == (match function_at(self.cx, self.aliases.table(), cursor@, *func) {
                Some(f) => return_type_of(self.cx.exported(), f),
                None => None,
            }),
    {
        let fqn = match self.resolve_to_function(cursor, func) {
            Some(fqn) => fqn,
            None => {
                return None;
            },
        };
        if let Some(typ) = self.cx.exports.get_return_type(&fqn) {
            return Some(typ);
        }
        let attr = Attribute::from_module_name(&fqn);
        match self.cx.exports.resolve_transitive(&attr) {
            Some(source) => self.cx.exports.get_return_type(&source.as_module_name()),
            None => None,
        }
    }

    /// The class of which a call gives an object.
    fn get_call_type(&self, cursor: &Cursor, func: &Expression) -> (res: Option<ModuleName>)
        ensures
            optional_name(res) == called_class(self.cx, self.aliases.table(), cursor@, *func),
    {
        if let Some(class) = self.resolve_to_class(cursor, func) {
            return Some(class);
        }
        match self.get_function_return_type(cursor, func) {
            Some(typ) => if self.cx.exports.is_class(&typ) {
                Some(typ)
            } else {
                None
            },
            None => None,
        }
    }

    /// The class of the object that an expression is, where it can be told.
    fn get_expr_type(&self, cursor: &Cursor, e: &Expression) -> (res: Option<ModuleName>)
        ensures
            optional_name(res) == class_of(self.cx, self.aliases.table(), cursor@, *e),
    {
        let name: &str = match &e.node {
            Node::BooleanLiteral { .. } => "builtins.bool",
            Node::BytesLiteral { .. } => "builtins.bytes",
            Node::EllipsisLiteral => "builtins.ellipsis",
            Node::NoneLiteral => "builtins.NoneType",
            Node::NumberLiteral { kind, .. } => get_numeric_type(*kind),
            Node::StringLiteral { .. } => "builtins.str",
            Node::Call { func, .. } => {
                return self.get_call_type(cursor, func);
            },
            Node::Dict { .. } => "builtins.dict",
            Node::SetDisplay { .. } => "builtins.set",
            Node::ListComp { .. } => "builtins.list",
            Node::SetComp { .. } => "builtins.set",
            Node::DictComp { .. } => "builtins.dict",
            Node::FString { .. } => "builtins.str",
            Node::TString { .. } => "builtins.str",
            Node::List { .. } => "builtins.list",
            Node::Tuple { .. } => "builtins.tuple",
            _ => {
                return None;
            },
        };
        Some(ModuleName::from_str(name))
    }

    /// What a name is imported from.
    pub fn resolve_to_imported_name(&self, cursor: &Cursor, name: &str) -> (res: Option<Attribute>)
        ensures
            optional_attribute(res) == imported_in(
                self.cx.exported(),
                ascending_names(cursor@),
                name@,
                0,
            ),
    {
        let scopes = cursor.ascending_scope_names();
        let ghost all = ascending_names(cursor@);
        for i in 0..scopes.len()
            invariant
                all == ascending_names(cursor@),
                all == texts(scopes@),
                imported_in(self.cx.exported(), all, name@, 0) == imported_in(
                    self.cx.exported(),
                    all,
                    name@,
                    i as int,
                ),
        {
            let scope = scopes[i].clone();
            proof {
                assert(all[i as int] == scope@);
            }
            let qualname = Attribute::new(scope, name);
            if let Some(imported) = self.cx.exports.resolve_imported_name(&qualname) {
                return Some(imported);
            }
        }
        None
    }

    /// The class of which an expression gives an object by calling the name that the class is
    /// imported under.
    fn match_imported_constructor(&self, cursor: &Cursor, rhs: &Expression) -> (res: Option<ModuleName>)
        ensures
            optional_name(res) == imported_class(self.cx, cursor@, *rhs),
    {
        let func = match &rhs.node {
            Node::Call { func, .. } => func,
            _ => {
                return None;
            },
        };
        let id = match &func.node {
            Node::Name { id } => id,
            _ => {
                return None;
            },
        };
        let imported = match self.resolve_to_imported_name(cursor, id.as_str()) {
            Some(imported) => imported,
            None => {
                return None;
            },
        };
        match self.cx.exports.resolve_transitive(&imported) {
            Some(source) => if self.cx.exports.is_class(&source.as_module_name()) {
                Some(imported.as_module_name())
            } else {
                None
            },
            None => None,
        }
    }
}

fn get_numeric_type(kind: NumberKind) -> (res: &'static str)
    ensures
        res@ == number_class(kind),
{
    match kind {
        NumberKind::Int => "builtins.int",
        NumberKind::Float => "builtins.float",
        NumberKind::Complex => "builtins.complex",
    }
}

/// What the names of a module are bound to, and which other names they have.
pub struct BindingsTable {
    pub bindings: AttrMap<Value>,
    pub aliases: AliasTable,
}

/// What names are bound to, as it is collected.
struct BindingsBuilder {
    bindings: AttrMap<Value>,
}

impl BindingsBuilder {
    spec fn table(&self) -> Bindings {
        bindings_view(&self.bindings)
    }

    fn add_binding(&mut self, scope: ModuleName, name: &str, value: Value)
        ensures
            final(self).table() == old(self).table().insert((scope@, name@), value.deep_view()),
    {
        let ghost key = (scope@, name@);
        self.bindings.insert(Attribute::new(scope, name), value);
        proof {
            assert(self.table() =~= old(self).table().insert(key, value.deep_view()));
        }
    }

    fn get_existing_binding(&self, scope: &ModuleName, name: &str) -> (res: Value)
        ensures
            res.deep_view() == bound(self.table(), scope@, name@),
    {
        match self.bindings.get_in(scope, name) {
            Some(value) => value.clone(),
            None => Value::Unknown,
        }
    }

    fn get_existing_alias_binding(&self, x: &Binder, scope: &ModuleName, name: &str) -> (res: Value)
        ensures
            res.deep_view() == bound_by_alias(self.table(), x.aliases.table(), scope@, name@),
    {
        match x.aliases.resolve(scope, name) {
            Some(Alias::Global(value)) => value.clone(),
            Some(Alias::Local(s, n)) => self.get_existing_binding(s, n.as_str()),
            None => Value::Unknown,
        }
    }

    fn assign_single(&mut self, x: &Binder, cursor: &Cursor, lhs: &Expression, rhs: &Expression)
        ensures
            final(self).table() == with_binding(
                x.cx,
                x.aliases.table(),
                cursor@,
                old(self).table(),
                *lhs,
                *rhs,
            ),
    {
        let name = match lhs.as_var_name() {
            Some(name) => name,
            None => {
                return;
            },
        };
        let scope = cursor.scope();
        let by_alias = self.get_existing_alias_binding(x, &scope, name.as_str());
        if !by_alias.is_unknown() {
            self.add_binding(scope, name.as_str(), by_alias);
            return;
        }
        let value: Value = match resolve_expr(&x.cx.definitions.definitions, cursor, rhs) {
            Some(found) => {
                let known = self.get_existing_binding(&found.scope, found.name.as_str());
                if known.is_unknown() {
                    self.get_existing_alias_binding(x, &found.scope, found.name.as_str())
                } else {
                    known
                }
            },
            None => match x.match_imported_constructor(cursor, rhs) {
                Some(class) => Value::Instance(class),
                None => match x.get_expr_type(cursor, rhs) {
                    Some(class) => Value::Instance(class),
                    None => Value::Unknown,
                },
            },
        };
        self.add_binding(scope, name.as_str(), value);
    }

    fn assign(&mut self, x: &Binder, cursor: &Cursor, targets: &Vec<Expression>, value: &Expression)
        ensures
            final(self).table() == (if targets@.len() == 1 {
                with_binding(
                    x.cx,
                    x.aliases.table(),
                    cursor@,
                    old(self).table(),
                    targets@[0],
                    *value,
                )
            } else {
                with_unknown(cursor@, old(self).table(), targets@, targets@.len() as int)
            }),
    {
        if targets.len() == 1 {
            self.assign_single(x, cursor, &targets[0], value);
            return;
        }
        let ghost first = self.table();
        for i in 0..targets.len()
            invariant
                self.table() == with_unknown(cursor@, first, targets@, i as int),
        {
            if let Some(name) = targets[i].as_var_name() {
                self.add_binding(cursor.scope(), name.as_str(), Value::Unknown);
            }
        }
    }

    fn ann_assign(
        &mut self,
        x: &Binder,
        cursor: &Cursor,
        target: &Expression,
        annotation: &Expression,
        value: &Option<Expression>,
    )
        ensures
            final(self).table() == (match *value {
                Some(value) => with_binding(
                    x.cx,
                    x.aliases.table(),
                    cursor@,
                    old(self).table(),
                    *target,
                    value,
                ),
                None => if x.is_stub {
                    with_annotation(
                        x.cx,
                        x.aliases.table(),
                        cursor@,
                        old(self).table(),
                        *target,
                        *annotation,
                    )
                } else {
                    old(self).table()
                },
            }),
    {
        if let Some(value) = value {
            self.assign_single(x, cursor, target, value);
        } else if x.is_stub {
            if let Some(name) = target.as_var_name() {
                if let Some(class) = x.resolve_to_class(cursor, annotation) {
                    self.add_binding(cursor.scope(), name.as_str(), Value::Instance(class));
                }
            }
        }
    }

    fn stmts(&mut self, x: &Binder, cursor: &Cursor, stmts: &Vec<Statement>)
        ensures
            final(self).table() == bind_stmts(
                x,
                cursor@,
                *stmts,
                old(self).table(),
                stmts@.len() as int,
            ),
        decreases stmts, 2nat,
    {
        let ghost first = self.table();
        for i in 0..stmts.len()
            invariant
                self.table() == bind_stmts(x, cursor@, *stmts, first, i as int),
        {
            self.stmt(x, cursor, &stmts[i]);
        }
    }

    fn stmt(&mut self, x: &Binder, cursor: &Cursor, stmt: &Statement)
        ensures
            final(self).table() == bind_stmt(x, cursor@, *stmt, old(self).table()),
        decreases stmt, 1nat,
    {
        match &stmt.node {
            StmtNode::ClassDef(c) => {
                let inside = cursor.enter_class_scope_name(c.name.as_str());
                self.stmts(x, &inside, &c.body);
            },
            StmtNode::FunctionDef(f) => {
                let inside = cursor.enter_function_scope_name(f.name.as_str());
                self.stmts(x, &inside, &f.body);
            },
            StmtNode::Assign { targets, value } => {
                self.assign(x, cursor, targets, value);
            },
            StmtNode::AnnAssign { target, annotation, value } => {
                self.ann_assign(x, cursor, target, annotation, value);
            },
            _ => {
                let inner = stmt.blocks();
                let ghost first = self.table();
                for k in 0..inner.len()
                    invariant
                        block_refs(inner@) == blocks(*stmt),
                        self.table() == bind_blocks(x, cursor@, *stmt, first, k as int),
                {
                    proof {
                        lemma_blocks_smaller(*stmt, k as int);
                        assert(block_refs(inner@)[k as int] == *inner@[k as int]);
                    }
                    self.stmts(x, cursor, inner[k]);
                }
            },
        }
    }
}

/// What the names of a module are bound to.
pub open spec fn module_bindings(cx: &Context, aliases: &AliasTable, parsed: &ParsedModule) -> Bindings {
    bind_stmts(
        &Binder { cx, aliases, is_stub: parsed.is_stub },
        in_module(parsed.name@),
        parsed.body,
        Map::empty(),
        parsed.body@.len() as int,
    )
}

impl BindingsTable {
    /// Collects what the names of a module are bound to. Annotations are trusted in stubs alone.
    pub fn new(cx: &Context, parsed_module: &ParsedModule) -> (res: BindingsTable)
        ensures
            res.aliases.table() == module_aliases(cx, parsed_module),
            bindings_view(&res.bindings) == module_bindings(cx, &res.aliases, parsed_module),
    {
        let aliases = AliasTable::new(cx, parsed_module);
        let mut builder = BindingsBuilder { bindings: AttrMap::new() };
        proof {
            assert(builder.table() =~= Map::empty());
        }
        let cursor = Cursor::enter_module_scope(&parsed_module.name);
        let x = Binder { cx, aliases: &aliases, is_stub: parsed_module.is_stub };
        builder.stmts(&x, &cursor, &parsed_module.body);
        BindingsTable { bindings: builder.bindings, aliases }
    }

    /// What the names are bound to.
    pub open spec fn bound(&self) -> Bindings {
        bindings_view(&self.bindings)
    }

    /// What a name in a scope is bound to.
    pub fn lookup(&self, scope: &ModuleName, name: &str) -> (res: Option<&Value>)
        ensures
            match res {
                Some(value) => self.bound().contains_key((scope@, name@)) && self.bound()[(
                    scope@,
                    name@,
                )] == value.deep_view(),
                None => !self.bound().contains_key((scope@, name@)),
            },
    {
        self.bindings.get_in(scope, name)
    }

    /// What a name in a scope is another name for.
    pub fn lookup_alias(&self, scope: &ModuleName, name: &str) -> (res: Option<&Alias>)
        ensures
            optional_alias(res) == (if self.aliases.table().contains_key((scope@, name@)) {
                Some(self.aliases.table()[(scope@, name@)])
            } else {
                None
            }),
    {
        self.aliases.lookup_alias(scope, name)
    }

    /// What a name in a scope is bound to.
    pub fn lookup_str(&self, scope: &str, name: &str) -> (res: Option<&Value>)
        ensures
            match res {
                Some(value) => self.bound().contains_key((scope@, name@)) && self.bound()[(
                    scope@,
                    name@,
                )] == value.deep_view(),
                None => !self.bound().contains_key((scope@, name@)),
            },
    {
        self.lookup(&ModuleName::from_str(scope), name)
    }

    /// What a name in a scope is another name for.
    pub fn lookup_alias_str(&self, scope: &str, name: &str) -> (res: Option<&Alias>)
        ensures
            optional_alias(res) == (if self.aliases.table().contains_key((scope@, name@)) {
                Some(self.aliases.table()[(scope@, name@)])
            } else {
                None
            }),
    {
        self.lookup_alias(&ModuleName::from_str(scope), name)
    }

    /// The class of the object that a name in a scope is bound to.
    pub open spec fn type_of(&self, scope: Seq<char>, name: Seq<char>) -> Option<Seq<char>> {
        match bound(self.bound(), scope, name) {
            ValueView::Instance(class) => Some(class),
            _ => None,
        }
    }

    /// The class of the object that a name in a scope is bound to.
    pub fn get_type(&self, scope: &ModuleName, name: &str) -> (res: Option<&ModuleName>)
        ensures
            (match res {
                Some(class) => Some(class@),
                None => None,
            }) == self.type_of(scope@, name@),
    {
        match self.lookup(scope, name) {
            Some(Value::Instance(class)) => Some(class),
            _ => None,
        }
    }
}

} // verus!
