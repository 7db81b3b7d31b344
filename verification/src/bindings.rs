//! What variables are bound to.

use crate::ast::{
    block_refs, blocks, lemma_blocks_smaller, var_name_of, Expression, ImportAlias, ImportFrom, Node,
    ParsedModule, Statement, StmtNode,
};
use crate::attribute::{AttrMap, Attribute};
use crate::cursor::{current_scope, in_module, in_scope, Cursor, ScopeKind, ScopeView};
use crate::definitions::DefinitionTable;
use crate::exports::{ExportType, Exports, ExportsView};
use crate::imports::ImportGraph;
use crate::module_info::module_value;
use crate::module_name::{dotted, ModuleName};
use crate::resolve::{expr_at, get_import_module_state_from_def, resolve_expr, ScopeDefinitions};
use vstd::prelude::*;
use vstd::string::*;

verus! {

/// What a name is bound to.
pub enum Value {
    /// Something that cannot be told.
    Unknown,
    Module(ModuleName),
    Class(ModuleName),
    /// A function or a method.
    Function(ModuleName),
    /// An object of a class.
    Instance(ModuleName),
    /// A variable of another module, of which no more can be told.
    Variable(ModuleName),
}

/// What a [`Value`] is.
pub enum ValueView {
    Unknown,
    Module(Seq<char>),
    Class(Seq<char>),
    Function(Seq<char>),
    Instance(Seq<char>),
    Variable(Seq<char>),
}

impl DeepView for Value {
    type V = ValueView;

    open spec fn deep_view(&self) -> ValueView {
        match self {
            Value::Unknown => ValueView::Unknown,
            Value::Module(name) => ValueView::Module(name@),
            Value::Class(name) => ValueView::Class(name@),
            Value::Function(name) => ValueView::Function(name@),
            Value::Instance(name) => ValueView::Instance(name@),
            Value::Variable(name) => ValueView::Variable(name@),
        }
    }
}

impl ValueView {
    /// The name that the value has, where it has one.
    pub open spec fn name(self) -> Option<Seq<char>> {
        match self {
            ValueView::Unknown => None,
            ValueView::Module(name) => Some(name),
            ValueView::Class(name) => Some(name),
            ValueView::Function(name) => Some(name),
            ValueView::Instance(name) => Some(name),
            ValueView::Variable(name) => Some(name),
        }
    }
}

impl Clone for Value {
    fn clone(&self) -> (res: Value)
        ensures
            res.deep_view() == self.deep_view(),
    {
        match self {
            Value::Unknown => Value::Unknown,
            Value::Module(name) => Value::Module(name.clone()),
            Value::Class(name) => Value::Class(name.clone()),
            Value::Function(name) => Value::Function(name.clone()),
            Value::Instance(name) => Value::Instance(name.clone()),
            Value::Variable(name) => Value::Variable(name.clone()),
        }
    }
}

impl Value {
    pub fn is_unknown(&self) -> (res: bool)
        ensures
            res == (self.deep_view() == ValueView::Unknown),
    {
        match self {
            Value::Unknown => true,
            _ => false,
        }
    }

    /// The name that the value has, where it has one.
    pub fn as_module_name(&self) -> (res: Option<&ModuleName>)
        ensures
            (match res {
                Some(name) => Some(name@),
                None => None,
            }) == self.deep_view().name(),
    {
        match self {
            Value::Unknown => None,
            Value::Module(name) => Some(name),
            Value::Class(name) => Some(name),
            Value::Function(name) => Some(name),
            Value::Instance(name) => Some(name),
            Value::Variable(name) => Some(name),
        }
    }
}

/// What a name is another name for.
pub enum Alias {
    /// Something that can be reached from everywhere.
    Global(Value),
    /// A name in a scope.
    Local(ModuleName, String),
}

/// What an [`Alias`] is.
pub enum AliasView {
    Global(ValueView),
    Local(Seq<char>, Seq<char>),
}

impl DeepView for Alias {
    type V = AliasView;

    open spec fn deep_view(&self) -> AliasView {
        match self {
            Alias::Global(value) => AliasView::Global(value.deep_view()),
            Alias::Local(scope, name) => AliasView::Local(scope@, name@),
        }
    }
}

impl AliasView {
    /// What stands for the alias in a name. Nothing stands for something that cannot be told.
    pub open spec fn text(self) -> Seq<char> {
        match self {
            AliasView::Global(value) => match value.name() {
                Some(name) => name,
                None => Seq::empty(),
            },
            AliasView::Local(_, name) => name,
        }
    }
}

impl Alias {
    /// What stands for the alias in a name.
    pub fn as_str(&self) -> (res: &str)
        ensures
            res@ == self.deep_view().text(),
    {
        match self {
            Alias::Global(value) => match value.as_module_name() {
                Some(name) => name.as_str(),
                None => {
                    proof {
                        reveal_strlit("");
                        assert(""@ =~= Seq::empty());
                    }
                    ""
                },
            },
            Alias::Local(_, name) => name.as_str(),
        }
    }
}

/// The aliases of a module, by scope and name.
pub type Aliases = Map<(Seq<char>, Seq<char>), AliasView>;

/// What the names of a module are bound to, by scope and name.
pub type Bindings = Map<(Seq<char>, Seq<char>), ValueView>;

/// What a map of aliases is.
pub open spec fn aliases_view(map: &AttrMap<Alias>) -> Aliases {
    map@.map_values(|a: Alias| a.deep_view())
}

/// What a map of values is.
pub open spec fn bindings_view(map: &AttrMap<Value>) -> Bindings {
    map@.map_values(|v: Value| v.deep_view())
}

/// The other names that names of a module have.
pub struct AliasTable {
    pub aliases: AttrMap<Alias>,
}

/// What a name stands for in the end, where it is an alias. Aliases of aliases are followed, but
/// not without end.
pub open spec fn alias_end(t: Aliases, scope: Seq<char>, name: Seq<char>, depth: nat) -> Option<AliasView>
    decreases 6 - depth,
{
    if depth > 5 || !t.contains_key((scope, name)) {
        None
    } else {
        match t[(scope, name)] {
            AliasView::Global(value) => Some(AliasView::Global(value)),
            AliasView::Local(s, n) => match alias_end(t, s, n, depth + 1) {
                Some(end) => Some(end),
                None => Some(AliasView::Local(s, n)),
            },
        }
    }
}

/// What an optional alias is.
pub open spec fn optional_alias(a: Option<&Alias>) -> Option<AliasView> {
    match a {
        Some(alias) => Some(alias.deep_view()),
        None => None,
    }
}

impl AliasTable {
    pub open spec fn table(&self) -> Aliases {
        aliases_view(&self.aliases)
    }

    /// What a name is another name for.
    pub fn lookup_alias(&self, scope: &ModuleName, name: &str) -> (res: Option<&Alias>)
        ensures
            optional_alias(res) == (if self.table().contains_key((scope@, name@)) {
                Some(self.table()[(scope@, name@)])
            } else {
                None
            }),
    {
        self.aliases.get_in(scope, name)
    }

    fn follow(&self, scope: &ModuleName, name: &str, depth: u8) -> (res: Option<&Alias>)
        requires
            depth <= 6,
        ensures
            optional_alias(res) == alias_end(self.table(), scope@, name@, depth as nat),
        decreases 6 - depth,
    {
        if depth > 5 {
            return None;
        }
        let found = self.lookup_alias(scope, name);
        match found {
            Some(Alias::Local(s, n)) => match self.follow(s, n.as_str(), depth + 1) {
                Some(end) => Some(end),
                None => found,
            },
            _ => found,
        }
    }

    /// What a name stands for in the end, where it is an alias.
    pub fn resolve(&self, scope: &ModuleName, name: &str) -> (res: Option<&Alias>)
        ensures
            optional_alias(res) == alias_end(self.table(), scope@, name@, 0),
    {
        self.follow(scope, name, 0)
    }
}

/// What is needed to tell what names stand for.
pub struct Context<'a> {
    pub definitions: &'a DefinitionTable,
    pub exports: &'a Exports,
    pub import_graph: &'a ImportGraph,
}

impl<'a> Context<'a> {
    pub open spec fn defs(&self) -> ScopeDefinitions {
        self.definitions.definitions.deep_view()
    }

    pub open spec fn exported(&self) -> ExportsView {
        self.exports.deep_view()
    }
}

/// What a full name stands for, where it is that of a module, a class or a function.
pub open spec fn external_value(cx: &Context, name: Seq<char>) -> Option<ValueView> {
    if cx.import_graph.graph.node_set().contains(name) {
        Some(ValueView::Module(name))
    } else if cx.exported().is_class(name) {
        Some(ValueView::Class(name))
    } else if cx.exported().defines(name, ExportType::Function) {
        Some(ValueView::Function(name))
    } else {
        None
    }
}

/// The alias that an assignment of a value to a variable makes.
pub open spec fn assigned_alias(cx: &Context, at: Seq<ScopeView>, rhs: Expression) -> Option<AliasView> {
    match module_value(cx.defs(), current_scope(at), rhs) {
        Some(module) => Some(AliasView::Global(ValueView::Module(module))),
        None => match expr_at(cx.defs(), at, rhs) {
            None => None,
            Some(r) => {
                let value = match r.try_qualified_name() {
                    Some(name) => external_value(cx, name),
                    None => None,
                };
                match value {
                    Some(ValueView::Class(name)) => Some(AliasView::Global(ValueView::Class(name))),
                    Some(ValueView::Module(name)) => Some(AliasView::Global(ValueView::Module(name))),
                    _ => if r.is_import() {
                        Some(
                            AliasView::Global(
                                match r.try_qualified_name() {
                                    Some(name) => ValueView::Variable(name),
                                    None => ValueView::Unknown,
                                },
                            ),
                        )
                    } else if rhs.node is Name {
                        Some(AliasView::Local(r.scope, r.name))
                    } else {
                        None
                    },
                }
            },
        },
    }
}

/// The aliases with an assignment.
pub open spec fn with_alias(
    cx: &Context,
    at: Seq<ScopeView>,
    t: Aliases,
    lhs: Expression,
    rhs: Expression,
) -> Aliases {
    match (var_name_of(lhs), assigned_alias(cx, at, rhs)) {
        (Some(name), Some(alias)) => t.insert((current_scope(at), name), alias),
        _ => t,
    }
}

/// The aliases with the first `n` names of an `import` statement.
pub open spec fn with_import_aliases(at: Seq<ScopeView>, t: Aliases, names: Seq<ImportAlias>, n: int) -> Aliases
    decreases n,
{
    if n <= 0 {
        t
    } else {
        let before = with_import_aliases(at, t, names, n - 1);
        match names[n - 1].asname {
            Some(asname) => before.insert(
                (current_scope(at), asname@),
                AliasView::Global(ValueView::Module(names[n - 1].name@)),
            ),
            None => before,
        }
    }
}

/// The module that a `from` statement names, without its dots.
pub open spec fn from_module(x: ImportFrom) -> Seq<char> {
    match x.module {
        Some(name) => name@,
        None => Seq::empty(),
    }
}

/// The aliases with the first `n` names of a `from` statement.
pub open spec fn with_from_aliases(cx: &Context, at: Seq<ScopeView>, t: Aliases, x: ImportFrom, n: int) -> Aliases
    decreases n,
{
    if n <= 0 {
        t
    } else {
        let before = with_from_aliases(cx, at, t, x, n - 1);
        let name = dotted(from_module(x), x.names@[n - 1].name@);
        match x.names@[n - 1].asname {
            Some(asname) => before.insert(
                (current_scope(at), asname@),
                AliasView::Global(
                    match external_value(cx, name) {
                        Some(value) => value,
                        None => ValueView::Variable(name),
                    },
                ),
            ),
            None => before,
        }
    }
}

/// The aliases with the first `n` of some statements.
pub open spec fn alias_stmts(cx: &Context, at: Seq<ScopeView>, stmts: Vec<Statement>, t: Aliases, n: int) -> Aliases
    decreases stmts, 2nat, n,
{
    if n <= 0 || n > stmts@.len() {
        t
    } else {
        alias_stmt(cx, at, stmts[n - 1], alias_stmts(cx, at, stmts, t, n - 1))
    }
}

/// The aliases with the first `n` blocks of a statement.
pub open spec fn alias_blocks(cx: &Context, at: Seq<ScopeView>, s: Statement, t: Aliases, n: int) -> Aliases
    decreases s, 0nat, n,
{
    if n <= 0 || n > blocks(s).len() {
        t
    } else {
        proof {
            lemma_blocks_smaller(s, n - 1);
        }
        alias_stmts(
            cx,
            at,
            blocks(s)[n - 1],
            alias_blocks(cx, at, s, t, n - 1),
            blocks(s)[n - 1]@.len() as int,
        )
    }
}

/// The aliases with a statement.
pub open spec fn alias_stmt(cx: &Context, at: Seq<ScopeView>, s: Statement, t: Aliases) -> Aliases
    decreases s, 1nat, 0int,
{
    match s.node {
        StmtNode::ClassDef(c) => alias_stmts(
            cx,
            in_scope(at, ScopeKind::Class, c.name@),
            c.body,
            t,
            c.body@.len() as int,
        ),
        StmtNode::FunctionDef(f) => alias_stmts(
            cx,
            in_scope(at, ScopeKind::Function, f.name@),
            f.body,
            t,
            f.body@.len() as int,
        ),
        StmtNode::Assign { targets, value } => if targets@.len() == 1 {
            with_alias(cx, at, t, targets@[0], value)
        } else {
            t
        },
        StmtNode::AnnAssign { target, value, .. } => match value {
            Some(value) => with_alias(cx, at, t, target, value),
            None => t,
        },
        StmtNode::Import(x) => with_import_aliases(at, t, x.names@, x.names@.len() as int),
        StmtNode::ImportFrom(x) => with_from_aliases(cx, at, t, x, x.names@.len() as int),
        _ => alias_blocks(cx, at, s, t, blocks(s).len() as int),
    }
}

/// The aliases of a module.
pub open spec fn module_aliases(cx: &Context, parsed: &ParsedModule) -> Aliases {
    alias_stmts(
        cx,
        in_module(parsed.name@),
        parsed.body,
        Map::empty(),
        parsed.body@.len() as int,
    )
}

/// What an optional value is.
pub open spec fn optional_value(v: Option<Value>) -> Option<ValueView> {
    match v {
        Some(value) => Some(value.deep_view()),
        None => None,
    }
}

impl<'a> Context<'a> {
    /// What a full name stands for, where it is that of a module, a class or a function.
    pub fn lookup_external_name(&self, name: &ModuleName) -> (res: Option<Value>)
        ensures
            optional_value(res) == external_value(self, name@),
    {
        if self.import_graph.contains(name) {
            Some(Value::Module(name.clone()))
        } else if self.exports.is_class(name) {
            Some(Value::Class(name.clone()))
        } else if self.exports.is_function(name) {
            Some(Value::Function(name.clone()))
        } else {
            None
        }
    }

    /// The alias that an assignment of a value to a variable makes.
    fn alias_of(&self, cursor: &Cursor, rhs: &Expression) -> (res: Option<Alias>)
        ensures
            (match res {
                Some(alias) => Some(alias.deep_view()),
                None => None,
            }) == assigned_alias(self, cursor@, *rhs),
    {
        if let Node::Call { func, arguments } = &rhs.node {
            let state = get_import_module_state_from_def(
                &self.definitions.definitions,
                &cursor.scope(),
            );
            if let Some(module) = state.match_call(func, arguments) {
                return Some(Alias::Global(Value::Module(module)));
            }
        }
        let found = match resolve_expr(&self.definitions.definitions, cursor, rhs) {
            Some(found) => found,
            None => {
                return None;
            },
        };
        let qualified = found.try_qualified_name();
        let value: Option<Value> = match &qualified {
            Some(name) => self.lookup_external_name(name),
            None => None,
        };
        match value {
            Some(Value::Class(name)) => Some(Alias::Global(Value::Class(name))),
            Some(Value::Module(name)) => Some(Alias::Global(Value::Module(name))),
            _ => {
                if found.is_import() {
                    match qualified {
                        Some(name) => Some(Alias::Global(Value::Variable(name))),
                        None => Some(Alias::Global(Value::Unknown)),
                    }
                } else if let Node::Name { .. } = &rhs.node {
                    Some(Alias::Local(found.scope, found.name))
                } else {
                    None
                }
            },
        }
    }
}

impl AliasTable {
    fn add_alias(&mut self, scope: ModuleName, name: &str, alias: Alias)
        ensures
            final(self).table() == old(self).table().insert((scope@, name@), alias.deep_view()),
    {
        let ghost key = (scope@, name@);
        self.aliases.insert(Attribute::new(scope, name), alias);
        proof {
            assert(self.table() =~= old(self).table().insert(key, alias.deep_view()));
        }
    }

    fn assign_single(&mut self, cx: &Context, cursor: &Cursor, lhs: &Expression, rhs: &Expression)
        ensures
            final(self).table() == with_alias(cx, cursor@, old(self).table(), *lhs, *rhs),
    {
        if let Some(name) = lhs.as_var_name() {
            if let Some(alias) = cx.alias_of(cursor, rhs) {
                self.add_alias(cursor.scope(), name.as_str(), alias);
            }
        }
    }

    fn import(&mut self, cursor: &Cursor, names: &Vec<ImportAlias>)
        ensures
            final(self).table() == with_import_aliases(
                cursor@,
                old(self).table(),
                names@,
                names@.len() as int,
            ),
    {
        let ghost first = self.table();
        for i in 0..names.len()
            invariant
                self.table() == with_import_aliases(cursor@, first, names@, i as int),
        {
            if let Some(asname) = &names[i].asname {
                let module = ModuleName::from_str(names[i].name.as_str());
                self.add_alias(cursor.scope(), asname.as_str(), Alias::Global(Value::Module(module)));
            }
        }
    }

    fn import_from(&mut self, cx: &Context, cursor: &Cursor, x: &ImportFrom)
        ensures
            final(self).table() == with_from_aliases(
                cx,
                cursor@,
                old(self).table(),
                *x,
                x.names@.len() as int,
            ),
    {
        let from = match &x.module {
            Some(name) => ModuleName::from_str(name.as_str()),
            None => ModuleName::empty(),
        };
        let ghost first = self.table();
        for i in 0..x.names.len()
            invariant
                from@ == from_module(*x),
                self.table() == with_from_aliases(cx, cursor@, first, *x, i as int),
        {
            if let Some(asname) = &x.names[i].asname {
                let name = from.append_str(x.names[i].name.as_str());
                let value = match cx.lookup_external_name(&name) {
                    Some(value) => value,
                    None => Value::Variable(name),
                };
                self.add_alias(cursor.scope(), asname.as_str(), Alias::Global(value));
            }
        }
    }

    fn stmts(&mut self, cx: &Context, cursor: &Cursor, stmts: &Vec<Statement>)
        ensures
            final(self).table() == alias_stmts(
                cx,
                cursor@,
                *stmts,
                old(self).table(),
                stmts@.len() as int,
            ),
        decreases stmts, 2nat,
    {
        let ghost first = self.table();
        for i in 0..stmts.len()
            invariant
                self.table() == alias_stmts(cx, cursor@, *stmts, first, i as int),
        {
            self.stmt(cx, cursor, &stmts[i]);
        }
    }

    fn stmt(&mut self, cx: &Context, cursor: &Cursor, stmt: &Statement)
        ensures
            final(self).table() == alias_stmt(cx, cursor@, *stmt, old(self).table()),
        decreases stmt, 1nat,
    {
        match &stmt.node {
            StmtNode::ClassDef(c) => {
                let inside = cursor.enter_class_scope_name(c.name.as_str());
                self.stmts(cx, &inside, &c.body);
            },
            StmtNode::FunctionDef(f) => {
                let inside = cursor.enter_function_scope_name(f.name.as_str());
                self.stmts(cx, &inside, &f.body);
            },
            StmtNode::Assign { targets, value } => {
                if targets.len() == 1 {
                    self.assign_single(cx, cursor, &targets[0], value);
                }
            },
            StmtNode::AnnAssign { target, value, .. } => {
                if let Some(value) = value {
                    self.assign_single(cx, cursor, target, value);
                }
            },
            StmtNode::Import(x) => {
                self.import(cursor, &x.names);
            },
            StmtNode::ImportFrom(x) => {
                self.import_from(cx, cursor, x);
            },
            _ => {
                let inner = stmt.blocks();
                let ghost first = self.table();
                for k in 0..inner.len()
                    invariant
                        block_refs(inner@) == blocks(*stmt),
                        self.table() == alias_blocks(cx, cursor@, *stmt, first, k as int),
                {
                    proof {
                        lemma_blocks_smaller(*stmt, k as int);
                        assert(block_refs(inner@)[k as int] == *inner@[k as int]);
                    }
                    self.stmts(cx, cursor, inner[k]);
                }
            },
        }
    }

    /// Collects the aliases of a module.
    pub fn new(cx: &Context, parsed_module: &ParsedModule) -> (res: AliasTable)
        ensures
            res.table() == module_aliases(cx, parsed_module),
    {
        let mut res = AliasTable { aliases: AttrMap::new() };
        proof {
            assert(res.table() =~= Map::empty());
        }
        let cursor = Cursor::enter_module_scope(&parsed_module.name);
        res.stmts(cx, &cursor, &parsed_module.body);
        res
    }
}

} // verus!
