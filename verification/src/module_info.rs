//! What the statements of a module define.

use crate::ast::{
    block_refs, blocks, lemma_blocks_smaller, ClassDef, Expression, FunctionDef, Node, Parameter,
    Parameters, ParsedModule, Statement, StmtNode,
};
use crate::class::{Class, ClassTable, ClassView};
use crate::class_builder::{build_class_info, class_info};
use crate::config::AnalysisConfig;
use crate::cursor::{
    current_scope, enclosing_function, in_module, in_scope, is_eager, nearest_function, Cursor, ScopeKind,
    ScopeView,
};
use crate::definitions::{
    Definition, DefinitionStyle, DefinitionTable, DefinitionView, Definitions, DefinitionsView, StyleView,
    SymbolKind,
};
use crate::definitions_builder::{scope_definitions, ScopeAt, ScopeSite};
use crate::module_name::{optional_name, ModuleName};
use crate::name_map::NameMap;
use crate::name_set::NameSet;
use crate::resolve::{get_import_module_state_from_def, importlib_in, ScopeDefinitions};
use vstd::prelude::*;

verus! {

/// What the statements of a module define.
pub struct TableView {
    pub definitions: ScopeDefinitions,
    pub eager_scopes: Set<Seq<char>>,
    pub functions: Set<Seq<char>>,
    pub enclosing_functions: Map<Seq<char>, Seq<char>>,
    pub param_names: Map<Seq<char>, Seq<Seq<char>>>,
    pub classes: Map<Seq<char>, ClassView>,
}

impl TableView {
    /// Nothing is defined.
    pub open spec fn nothing() -> TableView {
        TableView {
            definitions: Map::empty(),
            eager_scopes: Set::empty(),
            functions: Set::empty(),
            enclosing_functions: Map::empty(),
            param_names: Map::empty(),
            classes: Map::empty(),
        }
    }

    /// What a scope defines.
    pub open spec fn with_scope(self, at: Seq<ScopeView>, defs: DefinitionsView) -> TableView {
        TableView {
            definitions: self.definitions.insert(current_scope(at), defs),
            eager_scopes: if is_eager(at) {
                self.eager_scopes.insert(current_scope(at))
            } else {
                self.eager_scopes
            },
            ..self
        }
    }

    /// A scope is inside of a function, where one is given.
    pub open spec fn with_enclosing(self, scope: Seq<char>, function: Option<Seq<char>>) -> TableView {
        match function {
            Some(f) => TableView {
                enclosing_functions: self.enclosing_functions.insert(scope, f),
                ..self
            },
            None => self,
        }
    }
}

/// The parameters of a function that an argument can be given for by its name or its place.
pub open spec fn ordered_params(params: Parameters) -> Seq<Parameter> {
    params.posonlyargs@ + params.args@ + params.kwonlyargs@
}

/// What a scope defines, with the first `n` of some parameters.
pub open spec fn defs_with_params(defs: DefinitionsView, params: Seq<Parameter>, n: int) -> DefinitionsView
    decreases n,
{
    if n <= 0 {
        defs
    } else {
        defs_with_params(defs, params, n - 1).with(
            params[n - 1].name@,
            DefinitionView {
                range: params[n - 1].range,
                style: StyleView::Unannotated(SymbolKind::Parameter),
            },
        )
    }
}

/// What is defined, with the parameters of a function.
pub open spec fn table_with_params(t: TableView, scope: Seq<char>, params: Seq<Parameter>) -> TableView {
    TableView {
        definitions: t.definitions.insert(
            scope,
            defs_with_params(t.definitions[scope], params, params.len() as int),
        ),
        param_names: t.param_names.insert(scope, params.map_values(|p: Parameter| p.name@)),
        ..t
    }
}

/// What a scope defines, with those of the first `n` targets of an assignment that are variables
/// and get a module by a call of `import_module`. Such an assignment is an import.
pub open spec fn defs_with_modules(
    defs: DefinitionsView,
    targets: Seq<Expression>,
    module: Seq<char>,
    n: int,
) -> DefinitionsView
    decreases n,
{
    if n <= 0 {
        defs
    } else {
        let before = defs_with_modules(defs, targets, module, n - 1);
        match targets[n - 1].node {
            Node::Name { id } => before.with(
                id@,
                DefinitionView {
                    range: targets[n - 1].range,
                    style: StyleView::ImportAs(module, id@),
                },
            ),
            _ => before,
        }
    }
}

/// The module that a value is, where it comes from a call of `import_module` in a scope.
pub open spec fn module_value(defs: ScopeDefinitions, scope: Seq<char>, value: Expression) -> Option<Seq<char>> {
    match value.node {
        Node::Call { func, arguments } => importlib_in(defs, scope).imported_by_call(*func, arguments),
        _ => None,
    }
}

/// What is defined, with an assignment.
pub open spec fn table_with_assign(
    t: TableView,
    scope: Seq<char>,
    targets: Seq<Expression>,
    value: Expression,
) -> TableView {
    match module_value(t.definitions, scope, value) {
        Some(module) => TableView {
            definitions: t.definitions.insert(
                scope,
                defs_with_modules(t.definitions[scope], targets, module, targets.len() as int),
            ),
            ..t
        },
        None => t,
    }
}

/// What is defined, with the first `n` of some statements.
pub open spec fn scan_stmts(m: ScopeAt, at: Seq<ScopeView>, stmts: Seq<Statement>, t: TableView, n: int) -> TableView
    decreases stmts, 2nat, n,
{
    if n <= 0 || n > stmts.len() {
        t
    } else {
        scan_stmt(m, at, stmts[n - 1], scan_stmts(m, at, stmts, t, n - 1))
    }
}

/// What is defined, with the statements of a scope.
pub open spec fn scan_body(m: ScopeAt, at: Seq<ScopeView>, body: Seq<Statement>, t: TableView) -> TableView
    decreases body, 3nat, 0int,
{
    scan_stmts(
        m,
        at,
        body,
        t.with_scope(at, scope_definitions(m, body)),
        body.len() as int,
    )
}

/// What is defined, with the first `n` blocks of a statement.
pub open spec fn scan_blocks(m: ScopeAt, at: Seq<ScopeView>, s: Statement, t: TableView, n: int) -> TableView
    decreases s, 0nat, n,
{
    if n <= 0 || n > blocks(s).len() {
        t
    } else {
        proof {
            lemma_blocks_smaller(s, n - 1);
        }
        scan_stmts(
            m,
            at,
            blocks(s)[n - 1]@,
            scan_blocks(m, at, s, t, n - 1),
            blocks(s)[n - 1]@.len() as int,
        )
    }
}

/// What is defined, with a statement.
pub open spec fn scan_stmt(m: ScopeAt, at: Seq<ScopeView>, s: Statement, t: TableView) -> TableView
    decreases s, 1nat, 0int,
{
    match s.node {
        StmtNode::ClassDef(cls) => {
            let inside = in_scope(at, ScopeKind::Class, cls.name@);
            let scope = current_scope(inside);
            let named = t.with_enclosing(scope, nearest_function(inside));
            scan_body(
                m,
                inside,
                cls.body@,
                TableView {
                    classes: named.classes.insert(
                        scope,
                        class_info(named.definitions, inside, m.module, cls),
                    ),
                    ..named
                },
            )
        },
        StmtNode::FunctionDef(f) => {
            let inside = in_scope(at, ScopeKind::Function, f.name@);
            let scope = current_scope(inside);
            let named = TableView { functions: t.functions.insert(scope), ..t }.with_enclosing(
                scope,
                enclosing_function(inside),
            );
            table_with_params(
                scan_body(m, inside, f.body@, named),
                scope,
                ordered_params(f.parameters),
            )
        },
        StmtNode::Assign { targets, value } => table_with_assign(t, current_scope(at), targets@, value),
        _ => scan_blocks(m, at, s, t, blocks(s).len() as int),
    }
}

/// What the statements of a module define, as it is collected.
struct TableBuilder {
    definitions: NameMap<Definitions>,
    eager_scopes: NameSet,
    functions: NameSet,
    enclosing_functions: NameMap<ModuleName>,
    param_names: NameMap<Vec<String>>,
    classes: NameMap<Class>,
}

impl TableBuilder {
    spec fn table(&self) -> TableView {
        TableView {
            definitions: self.definitions.deep_view(),
            eager_scopes: self.eager_scopes@,
            functions: self.functions@,
            enclosing_functions: self.enclosing_functions.deep_view(),
            param_names: self.param_names.deep_view(),
            classes: self.classes.deep_view(),
        }
    }

    fn new() -> (res: TableBuilder)
        ensures
            res.table() == TableView::nothing(),
    {
        let res = TableBuilder {
            definitions: NameMap::new(),
            eager_scopes: NameSet::new(),
            functions: NameSet::new(),
            enclosing_functions: NameMap::new(),
            param_names: NameMap::new(),
            classes: NameMap::new(),
        };
        proof {
            let t = res.table();
            assert(t.definitions =~= Map::empty());
            assert(t.enclosing_functions =~= Map::empty());
            assert(t.param_names =~= Map::empty());
            assert(t.classes =~= Map::empty());
        }
        res
    }

    fn add_enclosing(&mut self, scope: &ModuleName, function: Option<ModuleName>)
        ensures
            final(self).table() == old(self).table().with_enclosing(scope@, optional_name(function)),
    {
        if let Some(f) = function {
            let _ = self.enclosing_functions.insert(scope.clone(), f);
            proof {
                assert(self.enclosing_functions.deep_view()
                    =~= old(self).enclosing_functions.deep_view().insert(scope@, f@));
            }
        }
    }

    fn add_scope(&mut self, cursor: &Cursor, defs: Definitions)
        ensures
            final(self).table() == old(self).table().with_scope(cursor@, defs.deep_view()),
    {
        let scope = cursor.scope();
        let ghost view = defs.deep_view();
        let _ = self.definitions.insert(scope.clone(), defs);
        proof {
            assert(self.definitions.deep_view() =~= old(self).definitions.deep_view().insert(scope@, view));
        }
        if cursor.in_eager_scope() {
            let _ = self.eager_scopes.insert(scope);
        }
    }

    /// Takes an assignment of a module for an import.
    fn process_assign(&mut self, cursor: &Cursor, targets: &Vec<Expression>, value: &Expression)
        ensures
            final(self).table() == table_with_assign(
                old(self).table(),
                current_scope(cursor@),
                targets@,
                *value,
            ),
    {
        let scope = cursor.scope();
        let (func, arguments) = match &value.node {
            Node::Call { func, arguments } => (func, arguments),
            _ => {
                return;
            },
        };
        let import_module_state = get_import_module_state_from_def(&self.definitions, &scope);
        let module = match import_module_state.match_call(func, arguments) {
            Some(module) => module,
            None => {
                return;
            },
        };
        if let Some(i) = self.definitions.position(scope.as_str()) {
            let mut defs: Definitions = self.definitions.replace_at(i, Definitions::empty());
            let ghost first = defs.deep_view();
            for j in 0..targets.len()
                invariant
                    defs.deep_view() == defs_with_modules(first, targets@, module@, j as int),
            {
                if let Node::Name { id } = &targets[j].node {
                    let ghost before = defs.deep_view();
                    let def = Definition {
                        range: targets[j].range,
                        style: DefinitionStyle::ImportAs(module.clone(), id.clone()),
                    };
                    let ghost view = def.deep_view();
                    let _ = defs.definitions.insert(ModuleName::from_str(id.as_str()), def);
                    proof {
                        assert(defs.definitions.deep_view() =~= before.definitions.insert(id@, view));
                        assert(defs.deep_view() == before.with(id@, view));
                    }
                }
            }
            let _ = self.definitions.replace_at(i, defs);
            proof {
                assert(self.definitions.deep_view() =~= old(self).definitions.deep_view().insert(
                    scope@,
                    defs.deep_view(),
                ));
            }
        }
    }

    /// Adds the parameters of a function to what its scope defines.
    fn extract_function_params(&mut self, cursor: &Cursor, func: &FunctionDef)
        requires
            old(self).definitions.deep_view().contains_key(current_scope(cursor@)),
        ensures
            final(self).table() == table_with_params(
                old(self).table(),
                current_scope(cursor@),
                ordered_params(func.parameters),
            ),
    {
        let scope = cursor.scope();
        let ghost params = ordered_params(func.parameters);
        if let Some(i) = self.definitions.position(scope.as_str()) {
            let mut defs: Definitions = self.definitions.replace_at(i, Definitions::empty());
            let ghost first = defs.deep_view();
            let mut names: Vec<String> = Vec::new();
            proof {
                assert(names.deep_view() =~= params.map_values(|p: Parameter| p.name@).take(0));
            }
            add_params(&mut defs, &mut names, &func.parameters.posonlyargs, Ghost(first), Ghost(params), Ghost(0));
            let ghost n = func.parameters.posonlyargs@.len() as int;
            add_params(&mut defs, &mut names, &func.parameters.args, Ghost(first), Ghost(params), Ghost(n));
            let ghost m = n + func.parameters.args@.len();
            add_params(&mut defs, &mut names, &func.parameters.kwonlyargs, Ghost(first), Ghost(params), Ghost(m));
            let _ = self.definitions.replace_at(i, defs);
            proof {
                assert(params.map_values(|p: Parameter| p.name@).take(params.len() as int)
                    =~= params.map_values(|p: Parameter| p.name@));
                assert(self.definitions.deep_view() =~= old(self).definitions.deep_view().insert(
                    scope@,
                    defs.deep_view(),
                ));
            }
            let ghost list = names.deep_view();
            let _ = self.param_names.insert(scope, names);
            proof {
                assert(self.param_names.deep_view() =~= old(self).param_names.deep_view().insert(
                    current_scope(cursor@),
                    list,
                ));
            }
        }
    }
}

/// Adds parameters to what a scope defines, and to a list of names.
fn add_params(
    defs: &mut Definitions,
    names: &mut Vec<String>,
    params: &Vec<Parameter>,
    Ghost(first): Ghost<DefinitionsView>,
    Ghost(all): Ghost<Seq<Parameter>>,
    Ghost(n): Ghost<int>,
)
    requires
        0 <= n,
        n + params@.len() <= all.len(),
        all.subrange(n, n + params@.len()) =~= params@,
        old(defs).deep_view() == defs_with_params(first, all, n),
        old(names).deep_view() == all.map_values(|p: Parameter| p.name@).take(n),
    ensures
        final(defs).deep_view() == defs_with_params(first, all, n + params@.len()),
        final(names).deep_view() == all.map_values(|p: Parameter| p.name@).take(n + params@.len()),
{
    for i in 0..params.len()
        invariant
            0 <= n,
            n + params@.len() <= all.len(),
            all.subrange(n, n + params@.len()) == params@,
            defs.deep_view() == defs_with_params(first, all, n + i),
            names.deep_view() == all.map_values(|p: Parameter| p.name@).take(n + i),
    {
        let p = &params[i];
        let ghost before = defs.deep_view();
        let ghost list = names.deep_view();
        let def = Definition {
            range: p.range,
            style: DefinitionStyle::Unannotated(SymbolKind::Parameter),
        };
        let ghost view = def.deep_view();
        names.push(p.name.clone());
        let _ = defs.definitions.insert(ModuleName::from_str(p.name.as_str()), def);
        proof {
            assert(all[n + i] == all.subrange(n, n + params@.len())[i as int]);
            assert(defs.definitions.deep_view() =~= before.definitions.insert(p.name@, view));
            assert(defs.deep_view() == before.with(p.name@, view));
            assert(names.deep_view() =~= list.push(p.name@));
            assert(all.map_values(|p: Parameter| p.name@).take(n + i + 1) =~= list.push(p.name@));
        }
    }
}

/// A scope that has definitions keeps having them.
proof fn lemma_stmts_keep(
    m: ScopeAt,
    at: Seq<ScopeView>,
    stmts: Seq<Statement>,
    t: TableView,
    n: int,
    scope: Seq<char>,
)
    requires
        t.definitions.contains_key(scope),
    ensures
        scan_stmts(m, at, stmts, t, n).definitions.contains_key(scope),
    decreases stmts, 2nat, n,
{
    if 0 < n <= stmts.len() {
        lemma_stmts_keep(m, at, stmts, t, n - 1, scope);
        lemma_stmt_keeps(m, at, stmts[n - 1], scan_stmts(m, at, stmts, t, n - 1), scope);
    }
}

proof fn lemma_blocks_keep(
    m: ScopeAt,
    at: Seq<ScopeView>,
    s: Statement,
    t: TableView,
    n: int,
    scope: Seq<char>,
)
    requires
        t.definitions.contains_key(scope),
    ensures
        scan_blocks(m, at, s, t, n).definitions.contains_key(scope),
    decreases s, 0nat, n,
{
    if 0 < n <= blocks(s).len() {
        lemma_blocks_smaller(s, n - 1);
        lemma_blocks_keep(m, at, s, t, n - 1, scope);
        lemma_stmts_keep(
            m,
            at,
            blocks(s)[n - 1]@,
            scan_blocks(m, at, s, t, n - 1),
            blocks(s)[n - 1]@.len() as int,
            scope,
        );
    }
}

proof fn lemma_stmt_keeps(m: ScopeAt, at: Seq<ScopeView>, s: Statement, t: TableView, scope: Seq<char>)
    requires
        t.definitions.contains_key(scope),
    ensures
        scan_stmt(m, at, s, t).definitions.contains_key(scope),
    decreases s, 1nat, 0int,
{
    match s.node {
        StmtNode::ClassDef(cls) => {
            let inside = in_scope(at, ScopeKind::Class, cls.name@);
            let named = t.with_enclosing(current_scope(inside), nearest_function(inside));
            let with_class = TableView {
                classes: named.classes.insert(
                    current_scope(inside),
                    class_info(named.definitions, inside, m.module, cls),
                ),
                ..named
            };
            lemma_stmts_keep(
                m,
                inside,
                cls.body@,
                with_class.with_scope(inside, scope_definitions(m, cls.body@)),
                cls.body@.len() as int,
                scope,
            );
        },
        StmtNode::FunctionDef(f) => {
            let inside = in_scope(at, ScopeKind::Function, f.name@);
            let named = TableView { functions: t.functions.insert(current_scope(inside)), ..t }.with_enclosing(
                current_scope(inside),
                enclosing_function(inside),
            );
            lemma_stmts_keep(
                m,
                inside,
                f.body@,
                named.with_scope(inside, scope_definitions(m, f.body@)),
                f.body@.len() as int,
                scope,
            );
        },
        StmtNode::Assign { .. } => {},
        _ => {
            lemma_blocks_keep(m, at, s, t, blocks(s).len() as int, scope);
        },
    }
}

impl TableBuilder {
    fn process_stmts(&mut self, site: &ScopeSite, cursor: &Cursor, stmts: &Vec<Statement>)
        ensures
            final(self).table() == scan_stmts(
                site.at(),
                cursor@,
                stmts@,
                old(self).table(),
                stmts@.len() as int,
            ),
        decreases stmts, 2nat,
    {
        let ghost first = self.table();
        for i in 0..stmts.len()
            invariant
                self.table() == scan_stmts(site.at(), cursor@, stmts@, first, i as int),
        {
            self.process_stmt(site, cursor, &stmts[i]);
        }
    }

    fn process_scope(&mut self, site: &ScopeSite, cursor: &Cursor, body: &Vec<Statement>)
        ensures
            final(self).table() == scan_body(site.at(), cursor@, body@, old(self).table()),
        decreases body, 3nat,
    {
        self.add_scope(cursor, Definitions::make(body, site));
        self.process_stmts(site, cursor, &body);
    }

    fn process_class_def(&mut self, site: &ScopeSite, cursor: &Cursor, cls: &ClassDef)
        ensures
            ({
                let inside = in_scope(cursor@, ScopeKind::Class, cls.name@);
                let scope = current_scope(inside);
                let named = old(self).table().with_enclosing(scope, nearest_function(inside));
                final(self).table() == scan_body(
                    site.at(),
                    inside,
                    cls.body@,
                    TableView {
                        classes: named.classes.insert(
                            scope,
                            class_info(named.definitions, inside, site.at().module, *cls),
                        ),
                        ..named
                    },
                )
            }),
        decreases cls, 1nat,
    {
        let inside = cursor.enter_class_scope_name(cls.name.as_str());
        let scope = inside.scope();
        self.add_enclosing(&scope, inside.nearest_function_scope());
        let ghost named = self.table();
        let info = build_class_info(&self.definitions, &inside, site.module, cls);
        let ghost view = info.deep_view();
        let _ = self.classes.insert(scope, info);
        proof {
            assert(self.classes.deep_view() =~= named.classes.insert(current_scope(inside@), view));
        }
        self.process_scope(site, &inside, &cls.body);
    }

    fn process_function_def(&mut self, site: &ScopeSite, cursor: &Cursor, func: &FunctionDef)
        ensures
            ({
                let inside = in_scope(cursor@, ScopeKind::Function, func.name@);
                let scope = current_scope(inside);
                let t = old(self).table();
                let named = TableView { functions: t.functions.insert(scope), ..t }.with_enclosing(
                    scope,
                    enclosing_function(inside),
                );
                final(self).table() == table_with_params(
                    scan_body(site.at(), inside, func.body@, named),
                    scope,
                    ordered_params(func.parameters),
                )
            }),
        decreases func, 1nat,
    {
        let inside = cursor.enter_function_scope_name(func.name.as_str());
        let scope = inside.scope();
        let _ = self.functions.insert(scope.clone());
        self.add_enclosing(&scope, inside.enclosing_function_scope());
        let ghost named = self.table();
        self.process_scope(site, &inside, &func.body);
        proof {
            lemma_stmts_keep(
                site.at(),
                inside@,
                func.body@,
                named.with_scope(inside@, scope_definitions(site.at(), func.body@)),
                func.body@.len() as int,
                scope@,
            );
        }
        self.extract_function_params(&inside, func);
    }

    fn process_stmt(&mut self, site: &ScopeSite, cursor: &Cursor, stmt: &Statement)
        ensures
            final(self).table() == scan_stmt(site.at(), cursor@, *stmt, old(self).table()),
        decreases stmt, 1nat,
    {
        match &stmt.node {
            StmtNode::ClassDef(cls) => {
                self.process_class_def(site, cursor, cls);
            },
            StmtNode::FunctionDef(func) => {
                self.process_function_def(site, cursor, func);
            },
            StmtNode::Assign { targets, value } => {
                self.process_assign(cursor, targets, value);
            },
            _ => {
                let inner = stmt.blocks();
                let ghost first = self.table();
                for k in 0..inner.len()
                    invariant
                        block_refs(inner@) == blocks(*stmt),
                        self.table() == scan_blocks(site.at(), cursor@, *stmt, first, k as int),
                {
                    proof {
                        lemma_blocks_smaller(*stmt, k as int);
                        assert(block_refs(inner@)[k as int] == *inner@[k as int]);
                    }
                    self.process_stmts(site, cursor, inner[k]);
                }
            },
        }
    }
}

/// What the tables of a module hold.
pub open spec fn tables_view(defs: &DefinitionTable, classes: &ClassTable) -> TableView {
    TableView {
        definitions: defs.definitions.deep_view(),
        eager_scopes: defs.eager_scopes@,
        functions: defs.functions@,
        enclosing_functions: defs.enclosing_functions.deep_view(),
        param_names: defs.param_names.deep_view(),
        classes: classes.deep_view(),
    }
}

/// What a module defines.
pub open spec fn module_tables(parsed: &ParsedModule, config: &AnalysisConfig) -> TableView {
    scan_body(module_at(parsed, config), in_module(parsed.name@), parsed.body@, TableView::nothing())
}

/// Where the scopes of a parsed module stand.
pub open spec fn module_at(parsed: &ParsedModule, config: &AnalysisConfig) -> ScopeAt {
    ScopeAt {
        module: parsed.name@,
        is_init: parsed.is_init,
        sys: config.sys_info,
        main: optional_name(config.main_module),
    }
}

/// Collects what a module defines, and its classes.
pub fn build_definitions_and_classes(parsed_module: &ParsedModule, config: &AnalysisConfig) -> (res: (
    DefinitionTable,
    ClassTable,
))
    ensures
        tables_view(&res.0, &res.1) == module_tables(parsed_module, config),
{
    let site = ScopeSite {
        module: &parsed_module.name,
        is_init: parsed_module.is_init,
        config,
    };
    let mut builder = TableBuilder::new();
    let cursor = Cursor::enter_module_scope(&parsed_module.name);
    builder.process_scope(&site, &cursor, &parsed_module.body);
    let TableBuilder {
        definitions,
        eager_scopes,
        functions,
        enclosing_functions,
        param_names,
        classes,
    } = builder;
    (
        DefinitionTable { definitions, eager_scopes, functions, enclosing_functions, param_names },
        ClassTable::new(classes),
    )
}

} // verus!
