//! What a module exports.

use crate::ast::{
    block_refs, blocks, lemma_blocks_smaller, full_name_of, Expression, Node, ParsedModule, Statement, StmtNode,
};
use crate::attribute::{full_name, Attribute};
use crate::config::AnalysisConfig;
use crate::definitions::{
    Definition, DefinitionStyle, DefinitionView, Definitions, DefinitionsView, DunderAllEntry, EntryView,
    StyleView, SymbolKind,
};
use crate::definitions_builder::{scope_definitions, ScopeAt, ScopeSite};
use crate::exports::{ExportType, Exports, ExportsView};
use crate::imports::ImportGraph;
use crate::module_name::{dotted, optional_name, str_eq, ModuleName};
use crate::sys_info::SysInfo;
use vstd::prelude::*;
use vstd::string::*;

verus! {

/// What a symbol is exported as.
pub open spec fn export_type(kind: SymbolKind) -> ExportType {
    match kind {
        SymbolKind::Class => ExportType::Class,
        SymbolKind::Function | SymbolKind::Method => ExportType::Function,
        _ => ExportType::Global,
    }
}

/// What a symbol is exported as.
pub fn symbol_kind_to_export_type(kind: SymbolKind) -> (res: ExportType)
    ensures
        res == export_type(kind),
{
    match kind {
        SymbolKind::Class => ExportType::Class,
        SymbolKind::Function | SymbolKind::Method => ExportType::Function,
        _ => ExportType::Global,
    }
}

/// What a definition is exported as, where it is one of the module's own.
pub open spec fn defined_as(style: StyleView) -> Option<ExportType> {
    match style {
        StyleView::Annotated(kind) => Some(export_type(kind)),
        StyleView::Unannotated(kind) => Some(export_type(kind)),
        _ => None,
    }
}

/// The attribute that a name is imported from, where it is imported from a module.
pub open spec fn import_source(style: StyleView, name: Seq<char>) -> Option<(Seq<char>, Seq<char>)> {
    match style {
        StyleView::Import(module) => Some((module, name)),
        StyleView::ImportAsEq(module) => Some((module, name)),
        StyleView::ImportAs(module, original) => Some((module, original)),
        _ => None,
    }
}

/// A name is one in a module.
pub open spec fn names_in(module: Seq<char>, name: Seq<char>) -> bool {
    name.len() > module.len() && name == dotted(module, name.skip(module.len() as int + 1))
}

/// A module defines a name of its own.
pub open spec fn defines_own(
    module: Seq<char>,
    defs: Map<Seq<char>, DefinitionView>,
    name: Seq<char>,
) -> bool {
    let local = name.skip(module.len() as int + 1);
    names_in(module, name) && defs.contains_key(local) && defined_as(defs[local].style) is Some
}

/// A module re-exports an attribute. Modules themselves are not re-exported.
pub open spec fn re_exports_attr(
    module: Seq<char>,
    defs: Map<Seq<char>, DefinitionView>,
    modules: Set<Seq<char>>,
    a: (Seq<char>, Seq<char>),
) -> bool {
    a.0 == module && defs.contains_key(a.1) && match import_source(defs[a.1].style, a.1) {
        Some(source) => !modules.contains(full_name(source)),
        None => false,
    }
}

/// What a module with the given definitions exports, where the given modules are known.
pub open spec fn exports_from(
    module: Seq<char>,
    defs: Map<Seq<char>, DefinitionView>,
    modules: Set<Seq<char>>,
) -> ExportsView {
    ExportsView {
        exports: Map::new(
            |name: Seq<char>| defines_own(module, defs, name),
            |name: Seq<char>| defined_as(defs[name.skip(module.len() as int + 1)].style)->0,
        ),
        re_exports: Map::new(
            |a: (Seq<char>, Seq<char>)| re_exports_attr(module, defs, modules, a),
            |a: (Seq<char>, Seq<char>)| (import_source(defs[a.1].style, a.1)->0, defs[a.1].range),
        ),
        all: Map::empty(),
        return_types: Map::empty(),
    }
}

/// The names that differ from one.
pub open spec fn differs_from(name: Seq<char>) -> spec_fn(Seq<char>) -> bool {
    |other: Seq<char>| other != name
}

/// What is left of `__all__` after the first `n` changes to it. Modules whose names are added are
/// passed over.
pub open spec fn all_after(entries: Seq<EntryView>, n: int) -> Seq<Seq<char>>
    decreases n,
{
    if n <= 0 {
        Seq::empty()
    } else {
        let before = all_after(entries, n - 1);
        match entries[n - 1] {
            EntryView::Name(name) => before.push(name),
            EntryView::Remove(name) => before.filter(differs_from(name)),
            EntryView::Module(_) => before,
        }
    }
}

/// Keeps the names of a list that differ from one.
fn without_name(names: Vec<String>, name: &String) -> (res: Vec<String>)
    ensures
        res.deep_view() == names.deep_view().filter(differs_from(name@)),
{
    let mut res: Vec<String> = Vec::new();
    let ghost all = names.deep_view();
    let ghost keep = differs_from(name@);
    proof {
        reveal(Seq::filter);
        assert(res.deep_view() =~= all.take(0).filter(keep));
    }
    for i in 0..names.len()
        invariant
            all == names.deep_view(),
            keep == differs_from(name@),
            res.deep_view() == all.take(i as int).filter(keep),
    {
        let ghost before = res.deep_view();
        proof {
            reveal(Seq::filter);
            assert(all.take(i + 1).drop_last() =~= all.take(i as int));
            assert(all.take(i + 1).last() == names@[i as int]@);
        }
        if !str_eq(names[i].as_str(), name.as_str()) {
            res.push(names[i].clone());
            proof {
                assert(res.deep_view() =~= before.push(names@[i as int]@));
            }
        }
    }
    proof {
        assert(all.take(all.len() as int) =~= all);
    }
    res
}

/// What `__all__` comes to.
pub fn convert_dunder_all(dunder_all: &Vec<DunderAllEntry>) -> (res: Vec<String>)
    ensures
        res.deep_view() == all_after(dunder_all.deep_view(), dunder_all@.len() as int),
{
    let mut names: Vec<String> = Vec::new();
    let ghost all = dunder_all.deep_view();
    proof {
        assert(names.deep_view() =~= Seq::empty());
    }
    for i in 0..dunder_all.len()
        invariant
            all == dunder_all.deep_view(),
            names.deep_view() == all_after(all, i as int),
    {
        let ghost before = names.deep_view();
        proof {
            assert(all[i as int] == dunder_all@[i as int].deep_view());
        }
        match &dunder_all[i] {
            DunderAllEntry::Name(name) => {
                names.push(name.clone());
                proof {
                    assert(names.deep_view() =~= before.push(name@));
                }
            },
            DunderAllEntry::Remove(name) => {
                names = without_name(names, name);
            },
            DunderAllEntry::Module(_) => {},
        }
    }
    names
}

/// The class that an annotation names in a module.
pub open spec fn annotated_class(
    module: Seq<char>,
    defs: DefinitionsView,
    annotation: Expression,
) -> Option<Seq<char>> {
    match annotation.node {
        Node::Name { id } => if defs.definitions.contains_key(id@) {
            match defs.definitions[id@].style {
                StyleView::Unannotated(SymbolKind::Class) => Some(dotted(module, id@)),
                StyleView::Annotated(SymbolKind::Class) => Some(dotted(module, id@)),
                StyleView::Import(from) => Some(dotted(from, id@)),
                StyleView::ImportAs(from, original) => Some(dotted(from, original)),
                StyleView::ImportAsEq(from) => Some(dotted(from, id@)),
                _ => None,
            }
        } else {
            Some(dotted("builtins"@, id@))
        },
        Node::Attribute { value, attr, .. } => match value.node {
            Node::Name { id } => if defs.definitions.contains_key(id@) {
                match defs.definitions[id@].style {
                    StyleView::ImportModule(_) => full_name_of(annotation),
                    StyleView::Import(from) => Some(dotted(dotted(from, id@), attr@)),
                    _ => None,
                }
            } else {
                None
            },
            _ => None,
        },
        _ => None,
    }
}

/// The class that an annotation names in a module.
pub fn resolve_return_type(
    module_name: &ModuleName,
    definitions: &Definitions,
    annotation: &Expression,
) -> (res: Option<
    ModuleName,
>)
    ensures
        optional_name(res) == annotated_class(module_name@, definitions.deep_view(), *annotation),
{
    match &annotation.node {
        Node::Name { id } => match definitions.definitions.get_str(id.as_str()) {
            Some(def) => match &def.style {
                DefinitionStyle::Unannotated(SymbolKind::Class) => Some(
                    module_name.append_str(id.as_str()),
                ),
                DefinitionStyle::Annotated(SymbolKind::Class) => Some(
                    module_name.append_str(id.as_str()),
                ),
                DefinitionStyle::Import(from) => Some(from.append_str(id.as_str())),
                DefinitionStyle::ImportAs(from, original) => Some(from.append_str(original.as_str())),
                DefinitionStyle::ImportAsEq(from) => Some(from.append_str(id.as_str())),
                _ => None,
            },
            None => Some(ModuleName::from_str("builtins").append_str(id.as_str())),
        },
        Node::Attribute { value, attr, .. } => match &value.node {
            Node::Name { id } => match definitions.definitions.get_str(id.as_str()) {
                Some(def) => match &def.style {
                    DefinitionStyle::ImportModule(_) => annotation.full_name(),
                    DefinitionStyle::Import(from) => Some(
                        from.append_str(id.as_str()).append_str(attr.as_str()),
                    ),
                    _ => None,
                },
                None => None,
            },
            _ => None,
        },
        _ => None,
    }
}

/// The classes that functions return, with those of the first `n` of some statements.
pub open spec fn types_in_stmts(
    module: Seq<char>,
    defs: DefinitionsView,
    scope: Seq<char>,
    stmts: Vec<Statement>,
    known: Map<Seq<char>, Seq<char>>,
    n: int,
) -> Map<Seq<char>, Seq<char>>
    decreases stmts, 2nat, n,
{
    if n <= 0 || n > stmts@.len() {
        known
    } else {
        types_in_stmt(
            module,
            defs,
            scope,
            stmts[n - 1],
            types_in_stmts(module, defs, scope, stmts, known, n - 1),
        )
    }
}

/// The classes that functions return, with those of the first `n` blocks of a statement.
pub open spec fn types_in_blocks(
    module: Seq<char>,
    defs: DefinitionsView,
    scope: Seq<char>,
    s: Statement,
    known: Map<Seq<char>, Seq<char>>,
    n: int,
) -> Map<Seq<char>, Seq<char>>
    decreases s, 0nat, n,
{
    if n <= 0 || n > blocks(s).len() {
        known
    } else {
        proof {
            lemma_blocks_smaller(s, n - 1);
        }
        types_in_stmts(
            module,
            defs,
            scope,
            blocks(s)[n - 1],
            types_in_blocks(module, defs, scope, s, known, n - 1),
            blocks(s)[n - 1]@.len() as int,
        )
    }
}

/// The classes that functions return, with those of a statement. What is inside of a function
/// does not count.
pub open spec fn types_in_stmt(
    module: Seq<char>,
    defs: DefinitionsView,
    scope: Seq<char>,
    s: Statement,
    known: Map<Seq<char>, Seq<char>>,
) -> Map<Seq<char>, Seq<char>>
    decreases s, 1nat, 0int,
{
    match s.node {
        StmtNode::FunctionDef(f) => match f.return_annotation {
            Some(annotation) => match annotated_class(module, defs, annotation) {
                Some(typ) => known.insert(dotted(scope, f.name@), typ),
                None => known,
            },
            None => known,
        },
        StmtNode::ClassDef(c) => types_in_stmts(
            module,
            defs,
            dotted(scope, c.name@),
            c.body,
            known,
            c.body@.len() as int,
        ),
        _ => types_in_blocks(module, defs, scope, s, known, blocks(s).len() as int),
    }
}

/// What a module exports, where the given modules are known. Of a stub, this includes the classes
/// that its functions return.
pub open spec fn module_exports(parsed: &ParsedModule, sys: SysInfo, modules: Set<Seq<char>>) -> ExportsView {
    let module = parsed.name@;
    let defs = scope_definitions(
        ScopeAt { module, is_init: parsed.is_init, sys, main: None },
        parsed.body@,
    );
    let n = defs.dunder_all.len() as int;
    ExportsView {
        all: if n > 0 {
            Map::empty().insert(module, all_after(defs.dunder_all, n))
        } else {
            Map::empty()
        },
        return_types: if parsed.is_stub {
            types_in_stmts(
                module,
                defs,
                module,
                parsed.body,
                Map::empty(),
                parsed.body@.len() as int,
            )
        } else {
            Map::empty()
        },
        ..exports_from(module, defs.definitions, modules)
    }
}

/// Adds the classes that the functions among some statements return.
fn extract_return_types(
    module_name: &ModuleName,
    definitions: &Definitions,
    scope: &ModuleName,
    stmts: &Vec<Statement>,
    exports: &mut Exports,
)
    ensures
        final(exports).deep_view() == (ExportsView {
            return_types: types_in_stmts(
                module_name@,
                definitions.deep_view(),
                scope@,
                *stmts,
                old(exports).deep_view().return_types,
                stmts@.len() as int,
            ),
            ..old(exports).deep_view()
        }),
    decreases stmts, 2nat,
{
    let ghost first = exports.deep_view();
    for i in 0..stmts.len()
        invariant
            exports.deep_view() == (ExportsView {
                return_types: types_in_stmts(
                    module_name@,
                    definitions.deep_view(),
                    scope@,
                    *stmts,
                    first.return_types,
                    i as int,
                ),
                ..first
            }),
    {
        extract_return_type(module_name, definitions, scope, &stmts[i], exports);
    }
}

/// Adds the classes that the functions in a statement return.
fn extract_return_type(
    module_name: &ModuleName,
    definitions: &Definitions,
    scope: &ModuleName,
    stmt: &Statement,
    exports: &mut Exports,
)
    ensures
        final(exports).deep_view() == (ExportsView {
            return_types: types_in_stmt(
                module_name@,
                definitions.deep_view(),
                scope@,
                *stmt,
                old(exports).deep_view().return_types,
            ),
            ..old(exports).deep_view()
        }),
    decreases stmt, 1nat,
{
    match &stmt.node {
        StmtNode::FunctionDef(f) => {
            if let Some(annotation) = &f.return_annotation {
                if let Some(typ) = resolve_return_type(module_name, definitions, annotation) {
                    exports.set_return_type(scope.append_str(f.name.as_str()), typ);
                }
            }
        },
        StmtNode::ClassDef(c) => {
            let class_scope = scope.append_str(c.name.as_str());
            extract_return_types(module_name, definitions, &class_scope, &c.body, exports);
        },
        _ => {
            let inner = stmt.blocks();
            let ghost first = exports.deep_view();
            for k in 0..inner.len()
                invariant
                    block_refs(inner@) == blocks(*stmt),
                    exports.deep_view() == (ExportsView {
                        return_types: types_in_blocks(
                            module_name@,
                            definitions.deep_view(),
                            scope@,
                            *stmt,
                            first.return_types,
                            k as int,
                        ),
                        ..first
                    }),
            {
                proof {
                    lemma_blocks_smaller(*stmt, k as int);
                    assert(block_refs(inner@)[k as int] == *inner@[k as int]);
                }
                extract_return_types(module_name, definitions, scope, inner[k], exports);
            }
        },
    }
}

/// The modules of a graph, where there is one.
pub open spec fn known_modules(graph: Option<&ImportGraph>) -> Set<Seq<char>> {
    match graph {
        Some(g) => g.graph.node_set(),
        None => Set::empty(),
    }
}

/// Adds one definition to what a module exports.
fn process_definition(
    module_name: &ModuleName,
    import_graph: Option<&ImportGraph>,
    name: &ModuleName,
    def: &Definition,
    exports: &mut Exports,
    Ghost(defs): Ghost<Map<Seq<char>, DefinitionView>>,
)
    requires
        old(exports).deep_view() == exports_from(module_name@, defs, known_modules(import_graph)),
        !defs.contains_key(name@),
    ensures
        final(exports).deep_view() == exports_from(
            module_name@,
            defs.insert(name@, def.deep_view()),
            known_modules(import_graph),
        ),
{
    let ghost module = module_name@;
    let ghost modules = known_modules(import_graph);
    let ghost before = exports.deep_view();
    let ghost more = defs.insert(name@, def.deep_view());
    let ghost after = exports_from(module, more, modules);
    let ghost own = dotted(module, name@);
    proof {
        assert(own.skip(module.len() as int + 1) =~= name@);
        assert forall|other: Seq<char>| other != own implies (defines_own(module, more, other)
            <==> defines_own(module, defs, other)) by {
            if names_in(module, other) && other.skip(module.len() as int + 1) == name@ {
                assert(other == own);
            }
        }
    }
    let source: Option<Attribute> = match &def.style {
        DefinitionStyle::Annotated(kind) => {
            exports.add_export(module_name.concat(name), symbol_kind_to_export_type(*kind));
            None
        },
        DefinitionStyle::Unannotated(kind) => {
            exports.add_export(module_name.concat(name), symbol_kind_to_export_type(*kind));
            None
        },
        DefinitionStyle::Import(from) => Some(Attribute::new(from.clone(), name.as_str())),
        DefinitionStyle::ImportAsEq(from) => Some(Attribute::new(from.clone(), name.as_str())),
        DefinitionStyle::ImportAs(from, original) => Some(Attribute::new(from.clone(), original.as_str())),
        _ => None,
    };
    if let Some(imported) = source {
        let is_module = match import_graph {
            Some(graph) => graph.contains(&imported.as_module_name()),
            None => false,
        };
        if !is_module {
            exports.add_re_export(Attribute::new(module_name.clone(), name.as_str()), imported, def.range);
        }
    }
    proof {
        assert(exports.deep_view().exports =~= after.exports);
        assert(exports.deep_view().re_exports =~= after.re_exports);
    }
}

impl Exports {
    /// What a module exports. Modules in the graph, where there is one, are not re-exported.
    fn build(parsed_module: &ParsedModule, import_graph: Option<&ImportGraph>, sys_info: SysInfo) -> (res: Exports)
        ensures
            res.deep_view() == module_exports(parsed_module, sys_info, known_modules(import_graph)),
    {
        let module_name = &parsed_module.name;
        let config = AnalysisConfig::new(sys_info, None);
        let site = ScopeSite {
            module: module_name,
            is_init: parsed_module.is_init,
            config: &config,
        };
        let definitions = &Definitions::make(&parsed_module.body, &site);
        let mut exports = Exports::empty();
        let ghost all = definitions.definitions.deep_view();
        let ghost keys = definitions.definitions.keys();
        let ghost modules = known_modules(import_graph);
        let n: usize = definitions.definitions.len();
        proof {
            let none = exports_from(module_name@, all.restrict(keys.take(0).to_set()), modules);
            assert(none.exports =~= Map::empty());
            assert(none.re_exports =~= Map::empty());
        }
        for i in 0..n
            invariant
                n == keys.len(),
                keys == definitions.definitions.keys(),
                definitions.definitions.ordered(),
                all == definitions.definitions.deep_view(),
                modules == known_modules(import_graph),
                exports.deep_view() == exports_from(
                    module_name@,
                    all.restrict(keys.take(i as int).to_set()),
                    modules,
                ),
        {
            let name = definitions.definitions.key_at(i);
            let def = definitions.definitions.value_at(i);
            let ghost fewer = all.restrict(keys.take(i as int).to_set());
            proof {
                crate::name_set::lemma_take_more(keys, i as int);
                assert(!keys.take(i as int).contains(keys[i as int]));
                assert(all.contains_key(keys[i as int]));
                assert(all.restrict(keys.take(i + 1).to_set()) =~= fewer.insert(name@, def.deep_view()));
            }
            process_definition(module_name, import_graph, name, def, &mut exports, Ghost(fewer));
        }
        proof {
            assert(keys.take(keys.len() as int) =~= keys);
            assert(keys.to_set() =~= all.dom());
            assert(all.restrict(keys.to_set()) =~= all);
        }
        if definitions.dunder_all.len() > 0 {
            let names = convert_dunder_all(&definitions.dunder_all);
            exports.set_all(module_name.clone(), names);
        }
        if parsed_module.is_stub {
            extract_return_types(
                module_name,
                definitions,
                module_name,
                &parsed_module.body,
                &mut exports,
            );
        }
        exports
    }

    /// What a module exports. Modules in the graph are not re-exported.
    pub fn new(parsed_module: &ParsedModule, import_graph: &ImportGraph, sys_info: SysInfo) -> (res: Exports)
        ensures
            res.deep_view() == module_exports(parsed_module, sys_info, import_graph.graph.node_set()),
    {
        Exports::build(parsed_module, Some(import_graph), sys_info)
    }

    /// What a module exports, with all that it imports by name.
    pub fn new_unfiltered(parsed_module: &ParsedModule, sys_info: SysInfo) -> (res: Exports)
        ensures
            res.deep_view() == module_exports(parsed_module, sys_info, Set::empty()),
    {
        Exports::build(parsed_module, None, sys_info)
    }
}

/// To leave modules out while the exports of a module are collected is the same as to collect all
/// and take modules out afterwards.
pub proof fn filtering_may_wait(parsed: &ParsedModule, sys: SysInfo, modules: Set<Seq<char>>)
    ensures
        module_exports(parsed, sys, Set::empty()).without_modules(modules) == module_exports(parsed, sys, modules),
{
    let late = module_exports(parsed, sys, Set::empty()).without_modules(modules);
    let early = module_exports(parsed, sys, modules);
    assert(late.exports =~= early.exports);
    assert(late.re_exports =~= early.re_exports);
}

} // verus!
