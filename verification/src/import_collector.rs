//! The imports in the sources of modules, and the graph that they make.

use crate::ast::{
    block_refs, blocks, lemma_blocks_smaller, AstResult, Branch, Expression, Import, ImportAlias, ImportFrom, Node,
    ParsedModule, Statement, StmtNode,
};
use crate::config::{may_run, pruned_if_branches, AnalysisConfig};
use crate::exports::{merged_exports, Exports, ExportsView};
use crate::exports_builder::module_exports;
use crate::graph::Graph;
use crate::importlib::{name_within, relative_name, within, ImportlibState};
use crate::imports::ImportGraph;
use crate::module_name::{
    begins_with, dots_from_last, optional_text, str_eq, strip_prefix, texts, ModuleName,
};
use crate::name_map::NameMap;
use crate::name_set::NameSet;
use crate::name_sets::set_at;
use crate::sys_info::SysInfo;
use vstd::prelude::*;

verus! {

/// The names before the dots of a name, from the shortest to the longest.
pub open spec fn parents_of(name: Seq<char>) -> Seq<Seq<char>> {
    let dots = dots_from_last(name);
    Seq::new(dots.len(), |k: int| name.take(dots[dots.len() - 1 - k]))
}

/// The parents of a module, from the shortest to the longest.
pub fn get_parent_modules(module: &ModuleName) -> (res: Vec<ModuleName>)
    ensures
        texts(res@) == parents_of(module@),
{
    let splits = module.parent_splits();
    let mut res: Vec<ModuleName> = Vec::new();
    let n: usize = splits.len();
    for k in 0..n
        invariant
            n == splits@.len(),
            n == dots_from_last(module@).len(),
            forall|k: int|
                0 <= k < splits@.len() ==> ((#[trigger] splits@[k]).0@, splits@[k].1@)
                    == crate::module_name::split_at_dot(module@, dots_from_last(module@)[k]),
            texts(res@) == parents_of(module@).take(k as int),
    {
        let ghost before = texts(res@);
        res.push(splits[n - 1 - k].0.clone());
        proof {
            assert(texts(res@) =~= before.push(parents_of(module@)[k as int]));
            assert(texts(res@) =~= parents_of(module@).take(k + 1));
        }
    }
    proof {
        assert(texts(res@) =~= parents_of(module@));
    }
    res
}

/// What the sources of a module import.
pub struct Collected {
    /// The modules that are imported, or may be.
    pub imports: Set<Seq<char>>,
    /// The names that are imported from a known module, and may be submodules that are not known.
    pub ambiguous: Set<Seq<char>>,
    pub has_importlib: bool,
    pub has_import_module: bool,
}

/// What the sources of modules are looked through for.
pub struct Looking {
    pub module: Seq<char>,
    pub is_init: bool,
    /// The Python that the module is analyzed for.
    pub sys: SysInfo,
    /// The modules that are known.
    pub known: Set<Seq<char>>,
}

/// What is imported, with `import name`. All its parents are imported with a module.
pub open spec fn with_import(c: Collected, name: Seq<char>) -> Collected {
    Collected {
        imports: c.imports.union(parents_of(name).to_set()).insert(name),
        has_importlib: c.has_importlib || name == "importlib"@ || begins_with(name, "importlib."@),
        ..c
    }
}

/// What is imported, with the first `n` names of an `import` statement.
pub open spec fn with_imports(c: Collected, names: Seq<ImportAlias>, n: int) -> Collected
    decreases n,
{
    if n <= 0 {
        c
    } else {
        with_import(with_imports(c, names, n - 1), names[n - 1].name@)
    }
}

/// What is imported, with one name of a `from parent import` statement. The name may be that of a
/// submodule: it is, where that is known, and counts as one where the parent is not known.
pub open spec fn with_import_from(at: Looking, c: Collected, parent: Seq<char>, name: Seq<char>) -> Collected {
    let c1 = Collected {
        has_import_module: c.has_import_module || (parent == "importlib"@ && name == "import_module"@),
        ..c
    };
    let sub = within(parent, name);
    if name == "*"@ {
        c1
    } else if at.known.contains(sub) || !at.known.contains(parent) {
        Collected { imports: c1.imports.insert(sub), ..c1 }
    } else {
        Collected { ambiguous: c1.ambiguous.insert(sub), ..c1 }
    }
}

/// What is imported, with the first `n` names of a `from parent import` statement.
pub open spec fn with_imports_from(
    at: Looking,
    c: Collected,
    parent: Seq<char>,
    names: Seq<ImportAlias>,
    n: int,
) -> Collected
    decreases n,
{
    if n <= 0 {
        c
    } else {
        with_import_from(
            at,
            with_imports_from(at, c, parent, names, n - 1),
            parent,
            names[n - 1].name@,
        )
    }
}

/// What is imported, with a `from` statement.
pub open spec fn with_from_stmt(at: Looking, c: Collected, x: ImportFrom) -> Collected {
    match relative_name(at.module, at.is_init, x.level as nat, optional_text(x.module)) {
        Some(parent) => {
            let c1 = if parent.len() > 0 {
                Collected { imports: c.imports.insert(parent), ..c }
            } else {
                c
            };
            with_imports_from(at, c1, parent, x.names@, x.names@.len() as int)
        },
        None => c,
    }
}

/// What is imported, with an expression, where it is a call of `import_module`.
pub open spec fn with_call(c: Collected, e: Expression) -> Collected {
    match e.node {
        Node::Call { func, arguments } => match (ImportlibState {
            has_importlib: c.has_importlib,
            has_import_module: c.has_import_module,
        }).imported_by_call(*func, arguments) {
            Some(module) => Collected { imports: c.imports.insert(module), ..c },
            None => c,
        },
        _ => c,
    }
}

/// What is imported, with the first `n` of some statements.
pub open spec fn in_stmts(at: Looking, stmts: Vec<Statement>, c: Collected, n: int) -> Collected
    decreases stmts, 2nat, n,
{
    if n <= 0 || n > stmts@.len() {
        c
    } else {
        in_stmt(at, stmts[n - 1], in_stmts(at, stmts, c, n - 1))
    }
}

/// What is imported, with those of the first `n` branches of an `if` statement that may run.
pub open spec fn in_branches(at: Looking, branches: Vec<Branch>, c: Collected, n: int) -> Collected
    decreases branches, 0nat, n,
{
    if n <= 0 || n > branches@.len() {
        c
    } else {
        let before = in_branches(at, branches, c, n - 1);
        if may_run(at.sys, branches@, n - 1) {
            in_stmts(
                at,
                branches[n - 1].body,
                before,
                branches[n - 1].body@.len() as int,
            )
        } else {
            before
        }
    }
}

/// What is imported, with the first `n` blocks of a statement.
pub open spec fn in_blocks(at: Looking, s: Statement, c: Collected, n: int) -> Collected
    decreases s, 0nat, n,
{
    if n <= 0 || n > blocks(s).len() {
        c
    } else {
        proof {
            lemma_blocks_smaller(s, n - 1);
        }
        in_stmts(
            at,
            blocks(s)[n - 1],
            in_blocks(at, s, c, n - 1),
            blocks(s)[n - 1]@.len() as int,
        )
    }
}

/// What is imported, with a statement.
pub open spec fn in_stmt(at: Looking, s: Statement, c: Collected) -> Collected
    decreases s, 1nat, 0int,
{
    match s.node {
        StmtNode::Import(x) => with_imports(c, x.names@, x.names@.len() as int),
        StmtNode::ImportFrom(x) => with_from_stmt(at, c, x),
        StmtNode::If { branches } => in_branches(at, branches, c, branches@.len() as int),
        StmtNode::Try { .. } => in_blocks(at, s, c, blocks(s).len() as int),
        StmtNode::Expr { value, .. } => with_call(c, value),
        StmtNode::Assign { value, .. } => with_call(c, value),
        StmtNode::FunctionDef(f) => in_stmts(at, f.body, c, f.body@.len() as int),
        StmtNode::ClassDef(x) => in_stmts(at, x.body, c, x.body@.len() as int),
        _ => c,
    }
}

/// Nothing is imported.
pub open spec fn nothing_imported() -> Collected {
    Collected {
        imports: Set::empty(),
        ambiguous: Set::empty(),
        has_importlib: false,
        has_import_module: false,
    }
}

/// What a module of the given name imports, where the given modules are known.
pub open spec fn imports_in(
    name: Seq<char>,
    parsed: &ParsedModule,
    sys: SysInfo,
    known: Set<Seq<char>>,
) -> Collected {
    in_stmts(
        Looking { module: name, is_init: parsed.is_init, sys, known },
        parsed.body,
        nothing_imported(),
        parsed.body@.len() as int,
    )
}

/// Looks through the sources of a module for imports.
struct ModuleImportCollector<'a> {
    module: &'a ModuleName,
    is_init: bool,
    sys_info: SysInfo,
    graph: &'a Graph,
    imports: NameSet,
    ambiguous: NameSet,
    has_importlib: bool,
    has_import_module: bool,
}

impl<'a> ModuleImportCollector<'a> {
    spec fn looking(&self) -> Looking {
        Looking {
            module: self.module@,
            is_init: self.is_init,
            sys: self.sys_info,
            known: self.graph.node_set(),
        }
    }

    spec fn found(&self) -> Collected {
        Collected {
            imports: self.imports@,
            ambiguous: self.ambiguous@,
            has_importlib: self.has_importlib,
            has_import_module: self.has_import_module,
        }
    }

    fn expr(&mut self, e: &Expression)
        ensures
            final(self).looking() == old(self).looking(),
            final(self).found() == with_call(old(self).found(), *e),
    {
        if let Node::Call { func, arguments } = &e.node {
            let state = ImportlibState::new(self.has_importlib, self.has_import_module);
            if let Some(module) = state.match_call(func, arguments) {
                let _ = self.imports.insert(module);
            }
        }
    }

    fn import(&mut self, import: &Import)
        ensures
            final(self).looking() == old(self).looking(),
            final(self).found() == with_imports(
                old(self).found(),
                import.names@,
                import.names@.len() as int,
            ),
    {
        let ghost first = self.found();
        for i in 0..import.names.len()
            invariant
                self.looking() == old(self).looking(),
                self.found() == with_imports(first, import.names@, i as int),
        {
            let ghost before = self.found();
            let imp = ModuleName::from_str(import.names[i].name.as_str());
            if str_eq(imp.as_str(), "importlib") || strip_prefix(imp.as_str(), "importlib.").is_some() {
                self.has_importlib = true;
            }
            let parents = get_parent_modules(&imp);
            self.imports.extend(&crate::name_sets::set_of(&parents));
            let _ = self.imports.insert(imp);
        }
    }

    fn import_from_single(&mut self, parent: &ModuleName, name: &str)
        ensures
            final(self).looking() == old(self).looking(),
            final(self).found() == with_import_from(old(self).looking(), old(self).found(), parent@, name@),
    {
        if str_eq(parent.as_str(), "importlib") && str_eq(name, "import_module") {
            self.has_import_module = true;
        }
        if str_eq(name, "*") {
            return;
        }
        let maybe_sub = name_within(parent, name);
        if self.graph.contains(&maybe_sub) || !self.graph.contains(parent) {
            let _ = self.imports.insert(maybe_sub);
        } else {
            let _ = self.ambiguous.insert(maybe_sub);
        }
    }

    fn import_from(&mut self, import: &ImportFrom)
        ensures
            final(self).looking() == old(self).looking(),
            final(self).found() == with_from_stmt(old(self).looking(), old(self).found(), *import),
    {
        let suffix: Option<&str> = match &import.module {
            Some(name) => Some(name.as_str()),
            None => None,
        };
        let parent = match self.module.new_maybe_relative(self.is_init, import.level as usize, suffix) {
            Some(parent) => parent,
            None => {
                return;
            },
        };
        if !parent.as_str().is_empty() {
            let _ = self.imports.insert(parent.clone());
        }
        let ghost first = self.found();
        for i in 0..import.names.len()
            invariant
                self.looking() == old(self).looking(),
                self.found() == with_imports_from(
                    old(self).looking(),
                    first,
                    parent@,
                    import.names@,
                    i as int,
                ),
        {
            self.import_from_single(&parent, import.names[i].name.as_str());
        }
    }

    fn stmts(&mut self, stmts: &Vec<Statement>)
        ensures
            final(self).looking() == old(self).looking(),
            final(self).found() == in_stmts(
                old(self).looking(),
                *stmts,
                old(self).found(),
                stmts@.len() as int,
            ),
        decreases stmts, 2nat,
    {
        let ghost first = self.found();
        for i in 0..stmts.len()
            invariant
                self.looking() == old(self).looking(),
                self.found() == in_stmts(old(self).looking(), *stmts, first, i as int),
        {
            self.stmt(&stmts[i]);
        }
    }

    fn if_(&mut self, branches: &Vec<Branch>)
        ensures
            final(self).looking() == old(self).looking(),
            final(self).found() == in_branches(
                old(self).looking(),
                *branches,
                old(self).found(),
                branches@.len() as int,
            ),
        decreases branches, 0nat,
    {
        let live = pruned_if_branches(self.sys_info, branches);
        let ghost first = self.found();
        for i in 0..branches.len()
            invariant
                live@.len() == branches@.len(),
                forall|i: int|
                    0 <= i < live@.len() ==> #[trigger] live@[i] == may_run(
                        old(self).looking().sys,
                        branches@,
                        i,
                    ),
                self.looking() == old(self).looking(),
                self.found() == in_branches(old(self).looking(), *branches, first, i as int),
        {
            if live[i] {
                self.stmts(&branches[i].body);
            }
        }
    }

    fn stmt(&mut self, s: &Statement)
        ensures
            final(self).looking() == old(self).looking(),
            final(self).found() == in_stmt(old(self).looking(), *s, old(self).found()),
        decreases s, 1nat,
    {
        match &s.node {
            StmtNode::Import(x) => {
                self.import(x);
            },
            StmtNode::ImportFrom(x) => {
                self.import_from(x);
            },
            StmtNode::If { branches } => {
                self.if_(branches);
            },
            StmtNode::Try { .. } => {
                let inner = s.blocks();
                let ghost first = self.found();
                for k in 0..inner.len()
                    invariant
                        block_refs(inner@) == blocks(*s),
                        self.looking() == old(self).looking(),
                        self.found() == in_blocks(old(self).looking(), *s, first, k as int),
                {
                    proof {
                        lemma_blocks_smaller(*s, k as int);
                        assert(block_refs(inner@)[k as int] == *inner@[k as int]);
                    }
                    self.stmts(inner[k]);
                }
            },
            StmtNode::Expr { value, .. } => {
                self.expr(value);
            },
            StmtNode::Assign { value, .. } => {
                self.expr(value);
            },
            StmtNode::FunctionDef(f) => {
                self.stmts(&f.body);
            },
            StmtNode::ClassDef(c) => {
                self.stmts(&c.body);
            },
            _ => {},
        }
    }
}

/// Finds what a module imports. Next to the imports stand the names that may be submodules which
/// are not known.
pub fn collect_imports(
    name: &ModuleName,
    parsed: &ParsedModule,
    sys_info: SysInfo,
    graph: &Graph,
) -> (res: (NameSet, NameSet))
    ensures
        res.0@ == imports_in(name@, parsed, sys_info, graph.node_set()).imports,
        res.1@ == imports_in(name@, parsed, sys_info, graph.node_set()).ambiguous,
{
    let mut collector = ModuleImportCollector {
        module: name,
        is_init: parsed.is_init,
        sys_info,
        graph,
        imports: NameSet::new(),
        ambiguous: NameSet::new(),
        has_importlib: false,
        has_import_module: false,
    };
    collector.stmts(&parsed.body);
    (collector.imports, collector.ambiguous)
}

/// The modules of a project, each with what came of parsing it.
pub type Sources = NameMap<AstResult>;

/// A module of a project was parsed.
pub open spec fn is_parsed(sources: &Sources, name: Seq<char>) -> bool {
    sources@.contains_key(name) && sources@[name] is Parsed
}

/// What a module of a project imports.
pub open spec fn imports_of(sources: &Sources, sys: SysInfo, name: Seq<char>) -> Collected {
    imports_in(name, &sources@[name]->Parsed_0, sys, sources@.dom())
}

/// The names that a module of a project imports and that are not those of modules which were
/// parsed.
pub open spec fn not_parsed(sources: &Sources, names: Set<Seq<char>>) -> Set<Seq<char>> {
    names.filter(|n: Seq<char>| !is_parsed(sources, n))
}

/// Sets of names under those of some modules, where they are not empty.
pub open spec fn sets_for(
    modules: spec_fn(Seq<char>) -> bool,
    names: spec_fn(Seq<char>) -> Set<Seq<char>>,
) -> Map<Seq<char>, Set<Seq<char>>> {
    Map::new(
        |m: Seq<char>| modules(m) && !(names(m) =~= Set::empty()),
        |m: Seq<char>| names(m),
    )
}

/// A graph holds the imports of those modules of a project that are among the given ones.
pub open spec fn has_imports_of(g: &ImportGraph, sources: &Sources, sys: SysInfo, done: Set<Seq<char>>) -> bool {
    &&& forall|m: Seq<char>| #[trigger] g.graph.node_set().contains(m) <==> is_parsed(sources, m)
    &&& forall|a: Seq<char>, b: Seq<char>| #[trigger]
        g.graph.links(a, b) <==> done.contains(a) && is_parsed(sources, a) && imports_of(
            sources,
            sys,
            a,
        ).imports.contains(b) && is_parsed(sources, b)
    &&& g.missing() == sets_for(
        |m: Seq<char>| done.contains(m) && is_parsed(sources, m),
        |m: Seq<char>| not_parsed(sources, imports_of(sources, sys, m).imports),
    )
    &&& g.ambiguous() == sets_for(
        |m: Seq<char>| done.contains(m) && is_parsed(sources, m),
        |m: Seq<char>| imports_of(sources, sys, m).ambiguous,
    )
}

/// A graph is that of the imports of a project: its modules are those that were parsed, and an
/// import of anything else is kept beside it.
pub open spec fn is_import_graph(g: &ImportGraph, sources: &Sources, sys: SysInfo) -> bool {
    has_imports_of(g, sources, sys, sources@.dom())
}

/// A graph of the given modules, without edges.
fn node_graph(names: &Vec<ModuleName>) -> (res: Graph)
    ensures
        res.node_set() == texts(names@).to_set(),
        forall|a: Seq<char>, b: Seq<char>| !#[trigger] res.links(a, b),
{
    let mut graph = Graph::new();
    let ghost all = texts(names@);
    proof {
        assert(graph.node_set() =~= all.take(0).to_set());
    }
    for i in 0..names.len()
        invariant
            all == texts(names@),
            graph.node_set() == all.take(i as int).to_set(),
            forall|a: Seq<char>, b: Seq<char>| !#[trigger] graph.links(a, b),
    {
        let ghost before = graph;
        let _ = graph.add_node(&names[i]);
        proof {
            crate::name_set::lemma_take_more(all, i as int);
            assert forall|a: Seq<char>, b: Seq<char>| !#[trigger] graph.links(a, b) by {
                assert(!before.links(a, b));
                assert(graph.edge_count(a, b) == before.edge_count(a, b));
            }
        }
    }
    proof {
        assert(all.take(all.len() as int) =~= all);
    }
    graph
}

/// The names of the modules that were parsed.
fn parsed_names(sources: &Sources) -> (res: Vec<ModuleName>)
    ensures
        forall|m: Seq<char>| #[trigger] texts(res@).to_set().contains(m) <==> is_parsed(sources, m),
{
    let mut res: Vec<ModuleName> = Vec::new();
    let n: usize = sources.len();
    let ghost keys = sources.keys();
    for i in 0..n
        invariant
            n == keys.len(),
            keys == sources.keys(),
            sources.ordered(),
            forall|m: Seq<char>| #[trigger]
                texts(res@).to_set().contains(m) <==> keys.take(i as int).to_set().contains(m)
                    && is_parsed(sources, m),
    {
        let ghost before = texts(res@);
        let ghost k = keys[i as int];
        proof {
            crate::name_set::lemma_take_more(keys, i as int);
        }
        if let AstResult::Parsed(_) = sources.value_at(i) {
            res.push(sources.key_at(i).clone());
            proof {
                assert(texts(res@) =~= before.push(k));
                crate::name_set::lemma_push_set(before, k);
            }
        }
        proof {
            assert forall|m: Seq<char>| #[trigger]
                texts(res@).to_set().contains(m) <==> keys.take(i + 1).to_set().contains(m) && is_parsed(
                    sources,
                    m,
                ) by {
                assert(before.to_set().contains(m) <==> keys.take(i as int).to_set().contains(m)
                    && is_parsed(sources, m));
            }
        }
    }
    proof {
        assert(keys.take(keys.len() as int) =~= keys);
        assert(keys.to_set() =~= sources@.dom());
    }
    res
}

/// Adds the imports of one module.
fn add_module_imports(g: &mut ImportGraph, from: &ModuleName, imports: &NameSet)
    requires
        old(g).graph.node_set().contains(from@),
        !old(g).missing().contains_key(from@),
    ensures
        final(g).graph.node_set() == old(g).graph.node_set(),
        forall|a: Seq<char>, b: Seq<char>| #[trigger]
            final(g).graph.links(a, b) <==> old(g).graph.links(a, b) || (a == from@ && imports@.contains(b)
                && old(g).graph.node_set().contains(b)),
        final(g).ambiguous() == old(g).ambiguous(),
        ({
            let lacking = imports@.filter(|n: Seq<char>| !old(g).graph.node_set().contains(n));
            final(g).missing() == (if lacking =~= Set::empty() {
                old(g).missing()
            } else {
                old(g).missing().insert(from@, lacking)
            })
        }),
{
    let ghost nodes = g.graph.node_set();
    let ghost first = *g;
    let ghost lacks = |n: Seq<char>| !nodes.contains(n);
    let n: usize = imports.len();
    let ghost items = imports.items();
    proof {
        assert(items.take(0).to_set().filter(lacks) =~= Set::empty());
    }
    for i in 0..n
        invariant
            n == items.len(),
            items == imports.items(),
            nodes == first.graph.node_set(),
            g.graph.node_set() == nodes,
            nodes.contains(from@),
            lacks == (|n: Seq<char>| !nodes.contains(n)),
            !first.missing().contains_key(from@),
            g.ambiguous() == first.ambiguous(),
            forall|a: Seq<char>, b: Seq<char>| #[trigger]
                g.graph.links(a, b) <==> first.graph.links(a, b) || (a == from@ && items.take(
                    i as int,
                ).to_set().contains(b) && nodes.contains(b)),
            g.missing() == (if items.take(i as int).to_set().filter(lacks) =~= Set::empty() {
                first.missing()
            } else {
                first.missing().insert(from@, items.take(i as int).to_set().filter(lacks))
            }),
    {
        let ghost before = *g;
        let to = imports.at(i);
        let ghost fewer = items.take(i as int).to_set();
        let ghost more = items.take(i + 1).to_set();
        proof {
            crate::name_set::lemma_take_more(items, i as int);
        }
        if g.graph.add_edge(from, &to) {
            proof {
                assert(more.filter(lacks) =~= fewer.filter(lacks));
            }
        } else {
            let ghost t = to@;
            g.add_missing(from, to);
            proof {
                assert(more.filter(lacks) =~= fewer.filter(lacks).insert(t));
                assert(more.filter(lacks).contains(t));
                assert(set_at(before.missing(), from@) =~= fewer.filter(lacks));
                assert(set_at(before.missing(), from@).union(set![t]) =~= more.filter(lacks));
                assert(g.missing() =~= first.missing().insert(from@, more.filter(lacks)));
            }
        }
        proof {
            assert forall|a: Seq<char>, b: Seq<char>| #[trigger]
                g.graph.links(a, b) <==> first.graph.links(a, b) || (a == from@ && more.contains(b)
                    && nodes.contains(b)) by {
                assert(before.graph.links(a, b) <==> first.graph.links(a, b) || (a == from@
                    && fewer.contains(b) && nodes.contains(b)));
                assert(g.graph.edge_count(a, b) >= before.graph.edge_count(a, b));
            }
        }
    }
    proof {
        assert(items.take(items.len() as int) =~= items);
        assert(items.to_set() =~= imports@);
    }
}

impl ImportGraph {
    /// Builds the graph of the imports of a project.
    pub fn make(sources: &Sources, config: &AnalysisConfig) -> (res: ImportGraph)
        ensures
            is_import_graph(&res, sources, config.sys_info),
    {
        let sys = config.sys_info;
        let known = node_graph(&sources.key_list());
        let names = parsed_names(sources);
        let mut g = ImportGraph {
            graph: node_graph(&names),
            missing: NameMap::new(),
            ambiguous: NameMap::new(),
        };
        let n: usize = sources.len();
        let ghost keys = sources.keys();
        proof {
            let none = keys.take(0).to_set();
            assert(g.missing() =~= sets_for(
                |m: Seq<char>| none.contains(m) && is_parsed(sources, m),
                |m: Seq<char>| not_parsed(sources, imports_of(sources, sys, m).imports),
            ));
            assert(g.ambiguous() =~= sets_for(
                |m: Seq<char>| none.contains(m) && is_parsed(sources, m),
                |m: Seq<char>| imports_of(sources, sys, m).ambiguous,
            ));
        }
        for i in 0..n
            invariant
                n == keys.len(),
                keys == sources.keys(),
                sources.ordered(),
                known.node_set() == sources@.dom(),
                has_imports_of(&g, sources, sys, keys.take(i as int).to_set()),
        {
            let ghost before = g;
            let ghost k = keys[i as int];
            let ghost fewer = keys.take(i as int).to_set();
            let ghost more = keys.take(i + 1).to_set();
            proof {
                crate::name_set::lemma_take_more(keys, i as int);
                assert(!keys.take(i as int).contains(k));
            }
            if let AstResult::Parsed(parsed) = sources.value_at(i) {
                let from = sources.key_at(i);
                let (imports, ambiguous) = collect_imports(from, parsed, sys, &known);
                add_module_imports(&mut g, from, &imports);
                if !ambiguous.is_empty() {
                    crate::name_sets::add_names(&mut g.ambiguous, from, &ambiguous);
                }
                proof {
                    assert(is_parsed(sources, k));
                    assert(imports_of(sources, sys, k).imports == imports@);
                    assert(imports_of(sources, sys, k).ambiguous == ambiguous@);
                    assert(imports@.filter(|n: Seq<char>| !before.graph.node_set().contains(n))
                        =~= not_parsed(sources, imports@));
                    assert(set_at(before.ambiguous(), k).union(ambiguous@) =~= ambiguous@);
                }
            }
            proof {
                assert(g.missing() =~= sets_for(
                    |m: Seq<char>| more.contains(m) && is_parsed(sources, m),
                    |m: Seq<char>| not_parsed(sources, imports_of(sources, sys, m).imports),
                ));
                assert(g.ambiguous() =~= sets_for(
                    |m: Seq<char>| more.contains(m) && is_parsed(sources, m),
                    |m: Seq<char>| imports_of(sources, sys, m).ambiguous,
                ));
                assert forall|a: Seq<char>, b: Seq<char>| #[trigger]
                    g.graph.links(a, b) <==> more.contains(a) && is_parsed(sources, a) && imports_of(
                        sources,
                        sys,
                        a,
                    ).imports.contains(b) && is_parsed(sources, b) by {
                    assert(before.graph.links(a, b) <==> fewer.contains(a) && is_parsed(sources, a)
                        && imports_of(sources, sys, a).imports.contains(b) && is_parsed(sources, b));
                }
            }
        }
        proof {
            assert(keys.take(keys.len() as int) =~= keys);
            assert(keys.to_set() =~= sources@.dom());
        }
        g
    }
}

/// What the first `n` modules of a project export by themselves, as far as they were parsed.
pub open spec fn exports_among(sources: &Sources, sys: SysInfo, n: int) -> Seq<ExportsView>
    decreases n,
{
    if n <= 0 {
        Seq::empty()
    } else {
        let before = exports_among(sources, sys, n - 1);
        match sources@[sources.keys()[n - 1]] {
            AstResult::Parsed(parsed) => before.push(module_exports(&parsed, sys, Set::empty())),
            AstResult::ParserError(_) => before,
        }
    }
}

/// What a project exports. Its modules themselves are not re-exported.
pub open spec fn project_exports(sources: &Sources, sys: SysInfo) -> ExportsView {
    merged_exports(exports_among(sources, sys, sources.keys().len() as int)).without_modules(
        Set::new(|m: Seq<char>| is_parsed(sources, m)),
    )
}

impl ImportGraph {
    /// Builds the graph of the imports of a project, and collects what it exports.
    pub fn make_with_exports(sources: &Sources, config: &AnalysisConfig) -> (res: (ImportGraph, Exports))
        ensures
            is_import_graph(&res.0, sources, config.sys_info),
            res.1.deep_view() == project_exports(sources, config.sys_info),
    {
        let graph = ImportGraph::make(sources, config);
        let mut all: Vec<Exports> = Vec::new();
        let n: usize = sources.len();
        proof {
            assert(all.deep_view() =~= Seq::empty());
        }
        for i in 0..n
            invariant
                n == sources.keys().len(),
                sources.ordered(),
                all.deep_view() == exports_among(sources, config.sys_info, i as int),
        {
            if let AstResult::Parsed(parsed) = sources.value_at(i) {
                let ghost before = all.deep_view();
                let exports = Exports::new_unfiltered(parsed, config.sys_info);
                let ghost view = exports.deep_view();
                all.push(exports);
                proof {
                    assert(all.deep_view() =~= before.push(view));
                }
            }
        }
        let mut merged = Exports::merge_all(all);
        merged.filter_module_re_exports(&graph);
        proof {
            assert(graph.graph.node_set() =~= Set::new(|m: Seq<char>| is_parsed(sources, m)));
        }
        (graph, merged)
    }
}

/// Whatever a parsed module imports is in the graph, as an edge, or beside it, as missing, and never
/// both. Nothing that is missing is a module of the graph.
pub proof fn imports_are_edges_or_missing(
    g: &ImportGraph,
    sources: &Sources,
    sys: SysInfo,
    module: Seq<char>,
    to: Seq<char>,
)
    requires
        is_import_graph(g, sources, sys),
    ensures
        set_at(g.missing(), module).contains(to) ==> g.graph.node_set().contains(module)
            && !g.graph.node_set().contains(to),
        g.graph.links(module, to) ==> g.graph.node_set().contains(module) && g.graph.node_set().contains(to),
        is_parsed(sources, module) ==> (imports_of(sources, sys, module).imports.contains(to) <==> g.graph.links(
            module,
            to,
        ) || set_at(g.missing(), module).contains(to)),
{
    assert(g.graph.node_set().contains(module) <==> is_parsed(sources, module));
    assert(g.graph.node_set().contains(to) <==> is_parsed(sources, to));
    let names = not_parsed(sources, imports_of(sources, sys, module).imports);
    if is_parsed(sources, module) && names.contains(to) {
        assert(!(names =~= Set::<Seq<char>>::empty()));
        assert(g.missing().contains_key(module));
    }
}

} // verus!
