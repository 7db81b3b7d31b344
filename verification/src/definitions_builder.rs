//! What the statements of a scope define.

use crate::ast::{
    children, expr_refs, full_name_of, lemma_children_smaller, Branch, Expression, Handler, PlacedName, Import,
    ImportAlias, ImportFrom, MatchCase, Node, Operator, CasePattern, Statement, StmtNode, WithItem,
};
use crate::config::{counts, AnalysisConfig};
use crate::definitions::{
    Definition, DefinitionStyle, DefinitionView, Definitions, DefinitionsView, DunderAllEntry, EntryView,
    MutableCaptureKind, StyleView, SymbolKind,
};
use crate::importlib::relative_name;
use crate::module_name::{
    before_first_dot, begins_with, first_dot, optional_name, optional_text, str_eq, strip_prefix, ModuleName,
};
use crate::sys_info::SysInfo;
use crate::text_range::TextRange;
use vstd::prelude::*;
use vstd::string::*;

verus! {

/// Of several definitions of a name, the one counts whose style comes first.
pub open spec fn style_place(style: StyleView) -> int {
    match style {
        StyleView::MutableCapture(_) => 0,
        StyleView::Annotated(_) => 1,
        StyleView::Unannotated(_) => 2,
        StyleView::ImportAs(_, _) => 3,
        StyleView::ImportAsEq(_) => 4,
        StyleView::Import(_) => 5,
        StyleView::ImportModule(_) => 6,
        StyleView::ImportInvalidRelative => 7,
        StyleView::ImplicitGlobal => 8,
        StyleView::Delete => 9,
    }
}

fn place_of(style: &DefinitionStyle) -> (res: u8)
    ensures
        res == style_place(style.deep_view()),
{
    match style {
        DefinitionStyle::MutableCapture(_) => 0,
        DefinitionStyle::Annotated(_) => 1,
        DefinitionStyle::Unannotated(_) => 2,
        DefinitionStyle::ImportAs(_, _) => 3,
        DefinitionStyle::ImportAsEq(_) => 4,
        DefinitionStyle::Import(_) => 5,
        DefinitionStyle::ImportModule(_) => 6,
        DefinitionStyle::ImportInvalidRelative => 7,
        DefinitionStyle::ImplicitGlobal => 8,
        DefinitionStyle::Delete => 9,
    }
}

/// What is defined, with one more definition of a name. An earlier one counts, unless the style of the
/// new one comes first.
pub open spec fn with_definition(
    d: DefinitionsView,
    name: Seq<char>,
    range: TextRange,
    style: StyleView,
) -> DefinitionsView {
    if d.definitions.contains_key(name) && style_place(d.definitions[name].style) <= style_place(style) {
        d
    } else {
        d.with(name, DefinitionView { range, style })
    }
}

/// A variable.
pub open spec fn variable() -> StyleView {
    StyleView::Unannotated(SymbolKind::Variable)
}

/// What is defined, once a value is bound to a target.
pub open spec fn with_target(d: DefinitionsView, e: Expression) -> DefinitionsView
    decreases e, 1nat, 0int,
{
    match e.node {
        Node::Name { id } => with_definition(d, id@, e.range, variable()),
        Node::Tuple { elts } => with_targets(d, elts, elts@.len() as int),
        Node::List { elts } => with_targets(d, elts, elts@.len() as int),
        Node::Starred { value } => with_target(d, *value),
        _ => d,
    }
}

/// What is defined, once values are bound to the first `n` of some targets.
pub open spec fn with_targets(d: DefinitionsView, elts: Vec<Expression>, n: int) -> DefinitionsView
    decreases elts, 0nat, n,
{
    if n <= 0 || n > elts@.len() {
        d
    } else {
        with_target(with_targets(d, elts, n - 1), elts[n - 1])
    }
}

/// What is defined, with the variables that `:=` binds in an expression. What runs later, inside of a
/// `lambda`, binds none.
pub open spec fn with_walrus(d: DefinitionsView, e: Expression) -> DefinitionsView
    decreases e, 1nat, 0int,
{
    let d1 = match e.node {
        Node::Named { target, .. } => with_named(d, *target),
        _ => d,
    };
    match e.node {
        Node::Lambda { .. } => d1,
        _ => with_walrus_in(d1, e, children(e).len() as int),
    }
}

/// What is defined, with the variables that `:=` binds in the first `n` parts of an expression.
pub open spec fn with_walrus_in(d: DefinitionsView, e: Expression, n: int) -> DefinitionsView
    decreases e, 0nat, n,
{
    if n <= 0 || n > children(e).len() {
        d
    } else {
        proof {
            lemma_children_smaller(e, n - 1);
        }
        with_walrus(with_walrus_in(d, e, n - 1), children(e)[n - 1])
    }
}

/// What is defined, with a variable that `:=` binds.
pub open spec fn with_named(d: DefinitionsView, target: Expression) -> DefinitionsView {
    match target.node {
        Node::Name { id } => with_definition(d, id@, target.range, variable()),
        _ => d,
    }
}

/// An expression is the variable `__all__`.
pub open spec fn is_all(e: Expression) -> bool {
    e.node matches Node::Name { id } && id@ == "__all__"@
}

/// The names among the first `n` of some expressions that are texts.
pub open spec fn text_entries(elts: Seq<Expression>, n: int) -> Seq<EntryView>
    decreases n,
{
    if n <= 0 {
        Seq::empty()
    } else {
        let before = text_entries(elts, n - 1);
        match elts[n - 1].node {
            Node::StringLiteral { value, .. } => before.push(EntryView::Name(value@)),
            _ => before,
        }
    }
}

/// The entries of `__all__` that a value stands for.
pub open spec fn entries_of(e: Expression) -> Seq<EntryView>
    decreases e,
{
    match e.node {
        Node::List { elts } => text_entries(elts@, elts@.len() as int),
        Node::Tuple { elts } => text_entries(elts@, elts@.len() as int),
        Node::BinOp { left, op, right } => if op == Operator::Add {
            entries_of(*left) + entries_of(*right)
        } else {
            Seq::empty()
        },
        Node::Attribute { value, attr, .. } => if attr@ == "__all__"@ {
            match full_name_of(*value) {
                Some(name) => seq![EntryView::Module(name)],
                None => Seq::empty(),
            }
        } else {
            Seq::empty()
        },
        _ => Seq::empty(),
    }
}

/// `__all__` becomes something else.
pub open spec fn with_all(d: DefinitionsView, entries: Seq<EntryView>) -> DefinitionsView {
    DefinitionsView { dunder_all: entries, ..d }
}

/// What a call of a method of `__all__` adds to it, given its first argument.
pub open spec fn method_entries(method: Seq<char>, arg: Expression) -> Seq<EntryView> {
    if method == "append"@ {
        match arg.node {
            Node::StringLiteral { value, .. } => seq![EntryView::Name(value@)],
            _ => Seq::empty(),
        }
    } else if method == "extend"@ {
        entries_of(arg)
    } else if method == "remove"@ {
        match arg.node {
            Node::StringLiteral { value, .. } => seq![EntryView::Remove(value@)],
            _ => Seq::empty(),
        }
    } else {
        Seq::empty()
    }
}

/// What is defined, where a statement may be a call of a method of `__all__`.
pub open spec fn with_all_call(d: DefinitionsView, e: Expression) -> DefinitionsView {
    match e.node {
        Node::Call { func, arguments } => match func.node {
            Node::Attribute { value, attr, .. } => if is_all(*value) && arguments.args@.len() > 0 {
                with_all(d, d.dunder_all + method_entries(attr@, arguments.args@[0]))
            } else {
                d
            },
            _ => d,
        },
        _ => d,
    }
}

/// What is defined, once a value is assigned to the first `n` of some targets.
pub open spec fn with_assigned(
    d: DefinitionsView,
    targets: Seq<Expression>,
    value: Expression,
    n: int,
) -> DefinitionsView
    decreases n,
{
    if n <= 0 {
        d
    } else {
        let d1 = with_target(with_assigned(d, targets, value, n - 1), targets[n - 1]);
        if is_all(targets[n - 1]) {
            with_all(d1, entries_of(value))
        } else {
            d1
        }
    }
}

/// What is defined, once the first `n` of some targets are deleted.
pub open spec fn with_deleted(d: DefinitionsView, targets: Seq<Expression>, n: int) -> DefinitionsView
    decreases n,
{
    if n <= 0 {
        d
    } else {
        let before = with_deleted(d, targets, n - 1);
        match targets[n - 1].node {
            Node::Name { id } => with_definition(before, id@, targets[n - 1].range, StyleView::Delete),
            _ => before,
        }
    }
}

/// What is defined, with the first `n` of some names, each in the given style.
pub open spec fn with_names_as(
    d: DefinitionsView,
    names: Seq<PlacedName>,
    style: StyleView,
    n: int,
) -> DefinitionsView
    decreases n,
{
    if n <= 0 {
        d
    } else {
        with_definition(
            with_names_as(d, names, style, n - 1),
            names[n - 1].name@,
            names[n - 1].range,
            style,
        )
    }
}

/// Where a scope stands.
pub struct ScopeAt {
    pub module: Seq<char>,
    /// The module is the `__init__` of a package.
    pub is_init: bool,
    /// The Python that the module is analyzed for.
    pub sys: SysInfo,
    /// The module that is run as a program, where it is known.
    pub main: Option<Seq<char>>,
}

/// Where the name stands that an import binds.
pub open spec fn bound_range(alias: ImportAlias) -> TextRange {
    match alias.asname_range {
        Some(range) => range,
        None => alias.name_range,
    }
}

fn range_bound(alias: &ImportAlias) -> (res: TextRange)
    ensures
        res == bound_range(*alias),
{
    match alias.asname_range {
        Some(range) => range,
        None => alias.name_range,
    }
}

/// What is defined, with the names that a pattern captures.
pub open spec fn with_pattern(d: DefinitionsView, p: CasePattern) -> DefinitionsView
    decreases p, 1nat, 0int,
{
    let d1 = with_patterns(d, p.parts, p.parts@.len() as int);
    match p.name {
        Some(name) => with_definition(d1, name.name@, name.range, variable()),
        None => d1,
    }
}

/// What is defined, with the names that the first `n` of some patterns capture.
pub open spec fn with_patterns(d: DefinitionsView, parts: Vec<CasePattern>, n: int) -> DefinitionsView
    decreases parts, 0nat, n,
{
    if n <= 0 || n > parts@.len() {
        d
    } else {
        with_pattern(with_patterns(d, parts, n - 1), parts[n - 1])
    }
}

/// What stands before the first dot of a name, or all of it.
pub open spec fn first_part(name: Seq<char>) -> Seq<char> {
    if first_dot(name) < 0 {
        name
    } else {
        name.take(first_dot(name))
    }
}

/// What is defined, where a package imports a module. One that lies in the package becomes a submodule
/// of it.
pub open spec fn with_submodule(at: ScopeAt, d: DefinitionsView, full: Seq<char>) -> DefinitionsView {
    let prefix = at.module.push('.');
    if at.is_init && begins_with(full, prefix) {
        DefinitionsView {
            implicitly_imported_submodules: d.implicitly_imported_submodules.insert(
                first_part(full.skip(prefix.len() as int)),
            ),
            ..d
        }
    } else {
        d
    }
}

/// What is defined, with one name of an `import` statement.
pub open spec fn with_import_name(at: ScopeAt, d: DefinitionsView, alias: ImportAlias) -> DefinitionsView {
    let full = alias.name@;
    let d1 = DefinitionsView { has_importlib: d.has_importlib || full == "importlib"@, ..d };
    match alias.asname {
        Some(name) => with_definition(d1, name@, bound_range(alias), StyleView::ImportModule(full)),
        None => with_definition(
            with_submodule(at, d1, full),
            first_part(full),
            bound_range(alias),
            StyleView::ImportModule(full),
        ),
    }
}

/// What is defined, with the first `n` names of an `import` statement.
pub open spec fn with_import_names(
    at: ScopeAt,
    d: DefinitionsView,
    names: Seq<ImportAlias>,
    n: int,
) -> DefinitionsView
    decreases n,
{
    if n <= 0 {
        d
    } else {
        with_import_name(at, with_import_names(at, d, names, n - 1), names[n - 1])
    }
}

/// What is defined, with one name of a `from` statement, given the module that it names, where there is
/// such a module.
pub open spec fn with_from_name(d: DefinitionsView, from: Option<Seq<char>>, alias: ImportAlias) -> DefinitionsView {
    let bound = match alias.asname {
        Some(name) => name@,
        None => alias.name@,
    };
    match from {
        None => if alias.name@ == "*"@ {
            d
        } else {
            with_definition(d, bound, bound_range(alias), StyleView::ImportInvalidRelative)
        },
        Some(module) => if alias.name@ == "*"@ {
            DefinitionsView { import_all: d.import_all.insert(module), ..d }
        } else {
            let d1 = DefinitionsView {
                has_import_module: d.has_import_module || (module == "importlib"@ && alias.name@
                    == "import_module"@),
                ..d
            };
            let style = match alias.asname {
                None => StyleView::Import(module),
                Some(name) => if name@ == alias.name@ {
                    StyleView::ImportAsEq(module)
                } else {
                    StyleView::ImportAs(module, alias.name@)
                },
            };
            with_definition(d1, bound, bound_range(alias), style)
        },
    }
}

/// What is defined, with the first `n` names of a `from` statement.
pub open spec fn with_from_names(
    d: DefinitionsView,
    from: Option<Seq<char>>,
    names: Seq<ImportAlias>,
    n: int,
) -> DefinitionsView
    decreases n,
{
    if n <= 0 {
        d
    } else {
        with_from_name(with_from_names(d, from, names, n - 1), from, names[n - 1])
    }
}

/// What is defined, with a `from` statement.
pub open spec fn with_from(at: ScopeAt, d: DefinitionsView, x: ImportFrom) -> DefinitionsView {
    let from = relative_name(at.module, at.is_init, x.level as nat, optional_text(x.module));
    let d1 = match from {
        Some(module) => if x.level > 0 {
            with_submodule(at, d, module)
        } else {
            d
        },
        None => d,
    };
    with_from_names(d1, from, x.names@, x.names@.len() as int)
}

/// What is defined, with the first `n` items of a `with` statement.
pub open spec fn with_items(d: DefinitionsView, items: Seq<WithItem>, n: int) -> DefinitionsView
    decreases n,
{
    if n <= 0 {
        d
    } else {
        let d1 = with_walrus(with_items(d, items, n - 1), items[n - 1].context_expr);
        match items[n - 1].vars {
            Some(vars) => with_target(d1, vars),
            None => d1,
        }
    }
}

/// What is defined by the first `n` of some statements.
pub open spec fn defined_by_stmts(at: ScopeAt, d: DefinitionsView, stmts: Seq<Statement>, n: int) -> DefinitionsView
    decreases stmts, 2nat, n,
{
    if n <= 0 || n > stmts.len() {
        d
    } else {
        defined_by_stmt(at, defined_by_stmts(at, d, stmts, n - 1), stmts[n - 1])
    }
}

/// What is defined by all of some statements.
pub open spec fn defined_by(at: ScopeAt, d: DefinitionsView, stmts: Seq<Statement>) -> DefinitionsView
    decreases stmts, 3nat, 0int,
{
    defined_by_stmts(at, d, stmts, stmts.len() as int)
}

/// What is defined by those of the first `n` branches of an `if` statement that count.
pub open spec fn defined_by_branches(
    at: ScopeAt,
    d: DefinitionsView,
    branches: Vec<Branch>,
    n: int,
) -> DefinitionsView
    decreases branches, 0nat, n,
{
    if n <= 0 || n > branches@.len() {
        d
    } else {
        let before = defined_by_branches(at, d, branches, n - 1);
        if counts(at.sys, at.main, at.module, branches@, n - 1) {
            let d1 = match branches[n - 1].test {
                Some(test) => with_walrus(before, test),
                None => before,
            };
            defined_by(at, d1, branches[n - 1].body@)
        } else {
            before
        }
    }
}

/// What is defined by the first `n` cases of a `match` statement.
pub open spec fn defined_by_cases(at: ScopeAt, d: DefinitionsView, cases: Vec<MatchCase>, n: int) -> DefinitionsView
    decreases cases, 0nat, n,
{
    if n <= 0 || n > cases@.len() {
        d
    } else {
        defined_by(
            at,
            with_pattern(defined_by_cases(at, d, cases, n - 1), cases[n - 1].pattern),
            cases[n - 1].body@,
        )
    }
}

/// What is defined by the first `n` handlers of a `try` statement.
pub open spec fn defined_by_handlers(
    at: ScopeAt,
    d: DefinitionsView,
    handlers: Vec<Handler>,
    n: int,
) -> DefinitionsView
    decreases handlers, 0nat, n,
{
    if n <= 0 || n > handlers@.len() {
        d
    } else {
        let before = defined_by_handlers(at, d, handlers, n - 1);
        let d1 = match handlers[n - 1].name {
            Some(name) => with_definition(before, name.name@, name.range, variable()),
            None => before,
        };
        defined_by(at, d1, handlers[n - 1].body@)
    }
}

/// What is defined by a statement.
pub open spec fn defined_by_stmt(at: ScopeAt, d: DefinitionsView, s: Statement) -> DefinitionsView
    decreases s, 1nat, 0int,
{
    match s.node {
        StmtNode::FunctionDef(f) => with_definition(
            d,
            f.name@,
            f.name_range,
            StyleView::Unannotated(SymbolKind::Function),
        ),
        StmtNode::ClassDef(c) => with_definition(
            d,
            c.name@,
            c.name_range,
            StyleView::Unannotated(SymbolKind::Class),
        ),
        StmtNode::TypeAlias { name } => match name.node {
            Node::Name { id } => with_definition(
                d,
                id@,
                name.range,
                StyleView::Unannotated(SymbolKind::TypeAlias),
            ),
            _ => d,
        },
        StmtNode::Delete { targets } => with_deleted(d, targets@, targets@.len() as int),
        StmtNode::Assign { targets, value } => with_assigned(
            with_walrus(d, value),
            targets@,
            value,
            targets@.len() as int,
        ),
        StmtNode::AugAssign { target, value } => {
            let d1 = with_target(with_walrus(d, value), target);
            if is_all(target) {
                with_all(d1, d1.dunder_all + entries_of(value))
            } else {
                d1
            }
        },
        StmtNode::AnnAssign { target, value, .. } => {
            let d1 = match target.node {
                Node::Name { id } => with_definition(
                    d,
                    id@,
                    target.range,
                    StyleView::Annotated(SymbolKind::Variable),
                ),
                _ => d,
            };
            match value {
                Some(value) => if is_all(target) {
                    with_all(with_walrus(d1, value), entries_of(value))
                } else {
                    with_walrus(d1, value)
                },
                None => d1,
            }
        },
        StmtNode::Global { names } => with_names_as(
            d,
            names@,
            StyleView::MutableCapture(MutableCaptureKind::Global),
            names@.len() as int,
        ),
        StmtNode::Nonlocal { names } => with_names_as(
            d,
            names@,
            StyleView::MutableCapture(MutableCaptureKind::Nonlocal),
            names@.len() as int,
        ),
        StmtNode::For { target, iter, body, orelse } => defined_by(
            at,
            defined_by(at, with_walrus(with_target(d, target), iter), body@),
            orelse@,
        ),
        StmtNode::While { test, body, orelse } => defined_by(
            at,
            defined_by(at, with_walrus(d, test), body@),
            orelse@,
        ),
        StmtNode::If { branches } => defined_by_branches(at, d, branches, branches@.len() as int),
        StmtNode::With { items, body } => defined_by(at, with_items(d, items@, items@.len() as int), body@),
        StmtNode::Match { subject, cases } => defined_by_cases(
            at,
            with_walrus(d, subject),
            cases,
            cases@.len() as int,
        ),
        StmtNode::Try { body, handlers, orelse, finalbody } => defined_by(
            at,
            defined_by(
                at,
                defined_by_handlers(at, defined_by(at, d, body@), handlers, handlers@.len() as int),
                orelse@,
            ),
            finalbody@,
        ),
        StmtNode::Import(x) => with_import_names(at, d, x.names@, x.names@.len() as int),
        StmtNode::ImportFrom(x) => with_from(at, d, x),
        StmtNode::Expr { value, .. } => with_all_call(with_walrus(d, value), value),
        StmtNode::Raise { .. } | StmtNode::Other => d,
    }
}

/// Nothing is defined.
pub open spec fn nothing_defined() -> DefinitionsView {
    DefinitionsView {
        definitions: Map::empty(),
        dunder_all: Seq::empty(),
        import_all: Set::empty(),
        has_importlib: false,
        has_import_module: false,
        implicitly_imported_submodules: Set::empty(),
    }
}

/// Collects what the statements of a scope define.
struct DefinitionsBuilder<'a> {
    module: &'a ModuleName,
    is_init: bool,
    config: &'a AnalysisConfig,
    found: Definitions,
}

/// Whether an expression is the variable `__all__`.
fn is_dunder_all(e: &Expression) -> (res: bool)
    ensures
        res == is_all(*e),
{
    match &e.node {
        Node::Name { id } => str_eq(id.as_str(), "__all__"),
        _ => false,
    }
}

/// The names among some expressions that are texts.
fn name_entries(elts: &Vec<Expression>) -> (res: Vec<DunderAllEntry>)
    ensures
        res.deep_view() == text_entries(elts@, elts@.len() as int),
{
    let mut res: Vec<DunderAllEntry> = Vec::new();
    proof {
        assert(res.deep_view() =~= text_entries(elts@, 0));
    }
    for i in 0..elts.len()
        invariant
            res.deep_view() == text_entries(elts@, i as int),
    {
        let ghost before = res.deep_view();
        if let Node::StringLiteral { value, .. } = &elts[i].node {
            res.push(DunderAllEntry::Name(value.clone()));
            proof {
                assert(res.deep_view() =~= before.push(EntryView::Name(value@)));
            }
        }
    }
    res
}

/// The entries of `__all__` that a value stands for.
fn all_entries(e: &Expression) -> (res: Vec<DunderAllEntry>)
    ensures
        res.deep_view() == entries_of(*e),
    decreases e,
{
    let mut res: Vec<DunderAllEntry> = Vec::new();
    match &e.node {
        Node::List { elts } => {
            return name_entries(elts);
        },
        Node::Tuple { elts } => {
            return name_entries(elts);
        },
        Node::BinOp { left, op, right } => {
            if *op == Operator::Add {
                let mut first = all_entries(left);
                let mut second = all_entries(right);
                let ghost a = first.deep_view();
                let ghost b = second.deep_view();
                first.append(&mut second);
                proof {
                    assert(first.deep_view() =~= a + b);
                }
                return first;
            }
        },
        Node::Attribute { value, attr, .. } => {
            if str_eq(attr.as_str(), "__all__") {
                if let Some(name) = value.full_name() {
                    res.push(DunderAllEntry::Module(name));
                    proof {
                        assert(res.deep_view() =~= entries_of(*e));
                    }
                    return res;
                }
            }
        },
        _ => {},
    }
    proof {
        assert(res.deep_view() =~= Seq::empty());
    }
    res
}

/// What a call of a method of `__all__` adds to it.
fn call_entries(method: &str, arg: &Expression) -> (res: Vec<DunderAllEntry>)
    ensures
        res.deep_view() == method_entries(method@, *arg),
{
    let mut res: Vec<DunderAllEntry> = Vec::new();
    if str_eq(method, "append") {
        if let Node::StringLiteral { value, .. } = &arg.node {
            res.push(DunderAllEntry::Name(value.clone()));
        }
    } else if str_eq(method, "extend") {
        return all_entries(arg);
    } else if str_eq(method, "remove") {
        if let Node::StringLiteral { value, .. } = &arg.node {
            res.push(DunderAllEntry::Remove(value.clone()));
        }
    }
    proof {
        assert(res.deep_view() =~= method_entries(method@, *arg));
    }
    res
}

/// What stands before the first dot of a name, or all of it.
fn part_before_dot(name: &str) -> (res: ModuleName)
    ensures
        res@ == first_part(name@),
{
    match before_first_dot(name) {
        Some(part) => ModuleName::from_string(part),
        None => ModuleName::from_str(name),
    }
}

impl<'a> DefinitionsBuilder<'a> {
    spec fn at(&self) -> ScopeAt {
        ScopeAt {
            module: self.module@,
            is_init: self.is_init,
            sys: self.config.sys_info,
            main: optional_name(self.config.main_module),
        }
    }

    spec fn so_far(&self) -> DefinitionsView {
        self.found.deep_view()
    }

    fn define(&mut self, name: &str, range: TextRange, style: DefinitionStyle)
        ensures
            final(self).at() == old(self).at(),
            final(self).so_far() == with_definition(old(self).so_far(), name@, range, style.deep_view()),
    {
        let ghost view = style.deep_view();
        let stays = match self.found.definitions.get_str(name) {
            Some(known) => place_of(&known.style) <= place_of(&style),
            None => false,
        };
        if !stays {
            let ghost before = self.found.definitions.deep_view();
            let definition = Definition { range, style };
            let _ = self.found.definitions.insert(ModuleName::from_str(name), definition);
            proof {
                assert(self.found.definitions.deep_view() =~= before.insert(
                    name@,
                    DefinitionView { range, style: view },
                ));
            }
        }
    }

    fn variable_named(&mut self, name: &str, range: TextRange)
        ensures
            final(self).at() == old(self).at(),
            final(self).so_far() == with_definition(old(self).so_far(), name@, range, variable()),
    {
        self.define(name, range, DefinitionStyle::Unannotated(SymbolKind::Variable));
    }

    fn target(&mut self, e: &Expression)
        ensures
            final(self).at() == old(self).at(),
            final(self).so_far() == with_target(old(self).so_far(), *e),
        decreases e, 1nat,
    {
        match &e.node {
            Node::Name { id } => {
                self.variable_named(id.as_str(), e.range);
            },
            Node::Tuple { elts } => {
                self.targets(elts);
            },
            Node::List { elts } => {
                self.targets(elts);
            },
            Node::Starred { value } => {
                self.target(value);
            },
            _ => {},
        }
    }

    fn targets(&mut self, elts: &Vec<Expression>)
        ensures
            final(self).at() == old(self).at(),
            final(self).so_far() == with_targets(old(self).so_far(), *elts, elts@.len() as int),
        decreases elts, 0nat,
    {
        let ghost first = self.so_far();
        for i in 0..elts.len()
            invariant
                self.at() == old(self).at(),
                self.so_far() == with_targets(first, *elts, i as int),
        {
            self.target(&elts[i]);
        }
    }

    fn walrus(&mut self, e: &Expression)
        ensures
            final(self).at() == old(self).at(),
            final(self).so_far() == with_walrus(old(self).so_far(), *e),
        decreases e, 1nat,
    {
        if let Node::Named { target, .. } = &e.node {
            if let Node::Name { id } = &target.node {
                self.variable_named(id.as_str(), target.range);
            }
        }
        if let Node::Lambda { .. } = &e.node {
            return;
        }
        let inner = e.children();
        let ghost first = self.so_far();
        for k in 0..inner.len()
            invariant
                expr_refs(inner@) == children(*e),
                self.at() == old(self).at(),
                self.so_far() == with_walrus_in(first, *e, k as int),
        {
            proof {
                lemma_children_smaller(*e, k as int);
                assert(expr_refs(inner@)[k as int] == *inner@[k as int]);
            }
            self.walrus(inner[k]);
        }
    }

    fn set_all(&mut self, entries: Vec<DunderAllEntry>)
        ensures
            final(self).at() == old(self).at(),
            final(self).so_far() == with_all(old(self).so_far(), entries.deep_view()),
    {
        self.found.dunder_all = entries;
    }

    fn add_to_all(&mut self, entries: Vec<DunderAllEntry>)
        ensures
            final(self).at() == old(self).at(),
            final(self).so_far() == with_all(
                old(self).so_far(),
                old(self).so_far().dunder_all + entries.deep_view(),
            ),
    {
        let mut more = entries;
        let ghost before = self.found.dunder_all.deep_view();
        let ghost added = more.deep_view();
        self.found.dunder_all.append(&mut more);
        proof {
            assert(self.found.dunder_all.deep_view() =~= before + added);
        }
    }

    fn all_call(&mut self, e: &Expression)
        ensures
            final(self).at() == old(self).at(),
            final(self).so_far() == with_all_call(old(self).so_far(), *e),
    {
        if let Node::Call { func, arguments } = &e.node {
            if let Node::Attribute { value, attr, .. } = &func.node {
                if is_dunder_all(value) && arguments.args.len() > 0 {
                    self.add_to_all(call_entries(attr.as_str(), &arguments.args[0]));
                }
            }
        }
    }

    fn assign(&mut self, targets: &Vec<Expression>, value: &Expression)
        ensures
            final(self).at() == old(self).at(),
            final(self).so_far() == with_assigned(
                with_walrus(old(self).so_far(), *value),
                targets@,
                *value,
                targets@.len() as int,
            ),
    {
        self.walrus(value);
        let ghost first = self.so_far();
        for i in 0..targets.len()
            invariant
                self.at() == old(self).at(),
                self.so_far() == with_assigned(first, targets@, *value, i as int),
        {
            self.target(&targets[i]);
            if is_dunder_all(&targets[i]) {
                self.set_all(all_entries(value));
            }
        }
    }

    fn aug_assign(&mut self, target: &Expression, value: &Expression)
        ensures
            final(self).at() == old(self).at(),
            ({
                let d1 = with_target(with_walrus(old(self).so_far(), *value), *target);
                final(self).so_far() == (if is_all(*target) {
                    with_all(d1, d1.dunder_all + entries_of(*value))
                } else {
                    d1
                })
            }),
    {
        self.walrus(value);
        self.target(target);
        if is_dunder_all(target) {
            self.add_to_all(all_entries(value));
        }
    }

    fn delete(&mut self, targets: &Vec<Expression>)
        ensures
            final(self).at() == old(self).at(),
            final(self).so_far() == with_deleted(old(self).so_far(), targets@, targets@.len() as int),
    {
        let ghost first = self.so_far();
        for i in 0..targets.len()
            invariant
                self.at() == old(self).at(),
                self.so_far() == with_deleted(first, targets@, i as int),
        {
            if let Node::Name { id } = &targets[i].node {
                self.define(id.as_str(), targets[i].range, DefinitionStyle::Delete);
            }
        }
    }

    fn names(&mut self, names: &Vec<PlacedName>, style: &DefinitionStyle)
        ensures
            final(self).at() == old(self).at(),
            final(self).so_far() == with_names_as(
                old(self).so_far(),
                names@,
                style.deep_view(),
                names@.len() as int,
            ),
    {
        let ghost first = self.so_far();
        for i in 0..names.len()
            invariant
                self.at() == old(self).at(),
                self.so_far() == with_names_as(first, names@, style.deep_view(), i as int),
        {
            self.define(names[i].name.as_str(), names[i].range, style.clone());
        }
    }

    fn submodule(&mut self, full: &str)
        ensures
            final(self).at() == old(self).at(),
            final(self).so_far() == with_submodule(old(self).at(), old(self).so_far(), full@),
    {
        if self.is_init {
            let mut prefix = self.module.clone().into_string();
            prefix.push('.');
            if let Some(rest) = strip_prefix(full, prefix.as_str()) {
                let _ = self.found.implicitly_imported_submodules.insert(part_before_dot(rest.as_str()));
            }
        }
    }

    fn import(&mut self, import: &Import)
        ensures
            final(self).at() == old(self).at(),
            final(self).so_far() == with_import_names(
                old(self).at(),
                old(self).so_far(),
                import.names@,
                import.names@.len() as int,
            ),
    {
        let ghost first = self.so_far();
        for i in 0..import.names.len()
            invariant
                self.at() == old(self).at(),
                self.so_far() == with_import_names(old(self).at(), first, import.names@, i as int),
        {
            let alias = &import.names[i];
            if str_eq(alias.name.as_str(), "importlib") {
                self.found.has_importlib = true;
            }
            let style = DefinitionStyle::ImportModule(ModuleName::from_str(alias.name.as_str()));
            match &alias.asname {
                Some(name) => {
                    self.define(name.as_str(), range_bound(alias), style);
                },
                None => {
                    self.submodule(alias.name.as_str());
                    let name = part_before_dot(alias.name.as_str());
                    self.define(name.as_str(), range_bound(alias), style);
                },
            }
        }
    }

    fn from_name(&mut self, from: &Option<ModuleName>, alias: &ImportAlias)
        ensures
            final(self).at() == old(self).at(),
            final(self).so_far() == with_from_name(old(self).so_far(), optional_name(*from), *alias),
    {
        let star = str_eq(alias.name.as_str(), "*");
        match from {
            None => {
                if !star {
                    let bound = match &alias.asname {
                        Some(name) => name.as_str(),
                        None => alias.name.as_str(),
                    };
                    self.define(bound, range_bound(alias), DefinitionStyle::ImportInvalidRelative);
                }
            },
            Some(module) => {
                if star {
                    let _ = self.found.import_all.insert(module.clone());
                    return;
                }
                if str_eq(module.as_str(), "importlib") && str_eq(alias.name.as_str(), "import_module") {
                    self.found.has_import_module = true;
                }
                match &alias.asname {
                    None => {
                        self.define(
                            alias.name.as_str(),
                            range_bound(alias),
                            DefinitionStyle::Import(module.clone()),
                        );
                    },
                    Some(name) => {
                        let style = if str_eq(name.as_str(), alias.name.as_str()) {
                            DefinitionStyle::ImportAsEq(module.clone())
                        } else {
                            DefinitionStyle::ImportAs(module.clone(), alias.name.clone())
                        };
                        self.define(name.as_str(), range_bound(alias), style);
                    },
                }
            },
        }
    }

    fn import_from(&mut self, x: &ImportFrom)
        ensures
            final(self).at() == old(self).at(),
            final(self).so_far() == with_from(old(self).at(), old(self).so_far(), *x),
    {
        let suffix: Option<&str> = match &x.module {
            Some(name) => Some(name.as_str()),
            None => None,
        };
        let from = self.module.new_maybe_relative(self.is_init, x.level as usize, suffix);
        if let Some(module) = &from {
            if x.level > 0 {
                self.submodule(module.as_str());
            }
        }
        let ghost first = self.so_far();
        for i in 0..x.names.len()
            invariant
                self.at() == old(self).at(),
                self.so_far() == with_from_names(first, optional_name(from), x.names@, i as int),
        {
            self.from_name(&from, &x.names[i]);
        }
    }

    fn items(&mut self, items: &Vec<WithItem>)
        ensures
            final(self).at() == old(self).at(),
            final(self).so_far() == with_items(old(self).so_far(), items@, items@.len() as int),
    {
        let ghost first = self.so_far();
        for i in 0..items.len()
            invariant
                self.at() == old(self).at(),
                self.so_far() == with_items(first, items@, i as int),
        {
            self.walrus(&items[i].context_expr);
            if let Some(vars) = &items[i].vars {
                self.target(vars);
            }
        }
    }

    fn stmts(&mut self, stmts: &Vec<Statement>)
        ensures
            final(self).at() == old(self).at(),
            final(self).so_far() == defined_by(old(self).at(), old(self).so_far(), stmts@),
        decreases stmts, 2nat,
    {
        let ghost first = self.so_far();
        for i in 0..stmts.len()
            invariant
                self.at() == old(self).at(),
                self.so_far() == defined_by_stmts(old(self).at(), first, stmts@, i as int),
        {
            self.stmt(&stmts[i]);
        }
    }

    fn if_(&mut self, branches: &Vec<Branch>)
        ensures
            final(self).at() == old(self).at(),
            final(self).so_far() == defined_by_branches(
                old(self).at(),
                old(self).so_far(),
                *branches,
                branches@.len() as int,
            ),
        decreases branches, 0nat,
    {
        let live = self.config.lg_pruned_if_branches(branches, self.module);
        let ghost first = self.so_far();
        for i in 0..branches.len()
            invariant
                live@.len() == branches@.len(),
                self.at() == old(self).at(),
                forall|i: int|
                    0 <= i < live@.len() ==> (#[trigger] live@[i]).0 == counts(
                        old(self).at().sys,
                        old(self).at().main,
                        old(self).at().module,
                        branches@,
                        i,
                    ),
                self.so_far() == defined_by_branches(old(self).at(), first, *branches, i as int),
        {
            if live[i].0 {
                if let Some(test) = &branches[i].test {
                    self.walrus(test);
                }
                self.stmts(&branches[i].body);
            }
        }
    }

    fn pattern(&mut self, p: &CasePattern)
        ensures
            final(self).at() == old(self).at(),
            final(self).so_far() == with_pattern(old(self).so_far(), *p),
        decreases p, 1nat,
    {
        self.patterns(&p.parts);
        if let Some(name) = &p.name {
            self.variable_named(name.name.as_str(), name.range);
        }
    }

    fn patterns(&mut self, parts: &Vec<CasePattern>)
        ensures
            final(self).at() == old(self).at(),
            final(self).so_far() == with_patterns(old(self).so_far(), *parts, parts@.len() as int),
        decreases parts, 0nat,
    {
        let ghost first = self.so_far();
        for i in 0..parts.len()
            invariant
                self.at() == old(self).at(),
                self.so_far() == with_patterns(first, *parts, i as int),
        {
            self.pattern(&parts[i]);
        }
    }

    fn cases(&mut self, cases: &Vec<MatchCase>)
        ensures
            final(self).at() == old(self).at(),
            final(self).so_far() == defined_by_cases(
                old(self).at(),
                old(self).so_far(),
                *cases,
                cases@.len() as int,
            ),
        decreases cases, 0nat,
    {
        let ghost first = self.so_far();
        for i in 0..cases.len()
            invariant
                self.at() == old(self).at(),
                self.so_far() == defined_by_cases(old(self).at(), first, *cases, i as int),
        {
            self.pattern(&cases[i].pattern);
            self.stmts(&cases[i].body);
        }
    }

    fn handlers(&mut self, handlers: &Vec<Handler>)
        ensures
            final(self).at() == old(self).at(),
            final(self).so_far() == defined_by_handlers(
                old(self).at(),
                old(self).so_far(),
                *handlers,
                handlers@.len() as int,
            ),
        decreases handlers, 0nat,
    {
        let ghost first = self.so_far();
        for i in 0..handlers.len()
            invariant
                self.at() == old(self).at(),
                self.so_far() == defined_by_handlers(old(self).at(), first, *handlers, i as int),
        {
            if let Some(name) = &handlers[i].name {
                self.variable_named(name.name.as_str(), name.range);
            }
            self.stmts(&handlers[i].body);
        }
    }

    fn stmt(&mut self, s: &Statement)
        ensures
            final(self).at() == old(self).at(),
            final(self).so_far() == defined_by_stmt(old(self).at(), old(self).so_far(), *s),
        decreases s, 1nat,
    {
        match &s.node {
            StmtNode::FunctionDef(f) => {
                self.define(
                    f.name.as_str(),
                    f.name_range,
                    DefinitionStyle::Unannotated(SymbolKind::Function),
                );
            },
            StmtNode::ClassDef(c) => {
                self.define(c.name.as_str(), c.name_range, DefinitionStyle::Unannotated(SymbolKind::Class));
            },
            StmtNode::TypeAlias { name } => {
                if let Node::Name { id } = &name.node {
                    self.define(
                        id.as_str(),
                        name.range,
                        DefinitionStyle::Unannotated(SymbolKind::TypeAlias),
                    );
                }
            },
            StmtNode::Delete { targets } => {
                self.delete(targets);
            },
            StmtNode::Assign { targets, value } => {
                self.assign(targets, value);
            },
            StmtNode::AugAssign { target, value } => {
                self.aug_assign(target, value);
            },
            StmtNode::AnnAssign { target, value, .. } => {
                if let Node::Name { id } = &target.node {
                    self.define(
                        id.as_str(),
                        target.range,
                        DefinitionStyle::Annotated(SymbolKind::Variable),
                    );
                }
                if let Some(value) = value {
                    self.walrus(value);
                    if is_dunder_all(target) {
                        self.set_all(all_entries(value));
                    }
                }
            },
            StmtNode::Global { names } => {
                self.names(names, &DefinitionStyle::MutableCapture(MutableCaptureKind::Global));
            },
            StmtNode::Nonlocal { names } => {
                self.names(names, &DefinitionStyle::MutableCapture(MutableCaptureKind::Nonlocal));
            },
            StmtNode::For { target, iter, body, orelse } => {
                self.target(target);
                self.walrus(iter);
                self.stmts(body);
                self.stmts(orelse);
            },
            StmtNode::While { test, body, orelse } => {
                self.walrus(test);
                self.stmts(body);
                self.stmts(orelse);
            },
            StmtNode::If { branches } => {
                self.if_(branches);
            },
            StmtNode::With { items, body } => {
                self.items(items);
                self.stmts(body);
            },
            StmtNode::Match { subject, cases } => {
                self.walrus(subject);
                self.cases(cases);
            },
            StmtNode::Try { body, handlers, orelse, finalbody } => {
                self.stmts(body);
                self.handlers(handlers);
                self.stmts(orelse);
                self.stmts(finalbody);
            },
            StmtNode::Import(x) => {
                self.import(x);
            },
            StmtNode::ImportFrom(x) => {
                self.import_from(x);
            },
            StmtNode::Expr { value, .. } => {
                self.walrus(value);
                self.all_call(value);
            },
            StmtNode::Raise { .. } | StmtNode::Other => {},
        }
    }
}

/// What the statements of a scope define.
pub open spec fn scope_definitions(at: ScopeAt, stmts: Seq<Statement>) -> DefinitionsView {
    defined_by(at, nothing_defined(), stmts)
}

/// Where the scopes of a module stand.
pub struct ScopeSite<'a> {
    pub module: &'a ModuleName,
    pub is_init: bool,
    pub config: &'a AnalysisConfig,
}

impl<'a> ScopeSite<'a> {
    pub open spec fn at(&self) -> ScopeAt {
        ScopeAt {
            module: self.module@,
            is_init: self.is_init,
            sys: self.config.sys_info,
            main: optional_name(self.config.main_module),
        }
    }
}

impl Definitions {
    /// Finds what the statements of a scope define.
    pub fn make(stmts: &Vec<Statement>, site: &ScopeSite) -> (res: Definitions)
        ensures
            res.deep_view() == scope_definitions(site.at(), stmts@),
    {
        let mut builder = DefinitionsBuilder {
            module: site.module,
            is_init: site.is_init,
            config: site.config,
            found: Definitions::empty(),
        };
        proof {
            assert(builder.found.deep_view().definitions =~= Map::empty());
            assert(builder.found.deep_view().dunder_all =~= Seq::empty());
        }
        builder.stmts(stmts);
        builder.found
    }
}

} // verus!
