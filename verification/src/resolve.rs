//! What names stand for.

use crate::ast::{base_name_of, full_name_of, Expression};
use crate::cursor::{visible_scopes, Cursor, ScopeView};
use crate::definitions::{
    imported_module, is_parameter, Definition, DefinitionStyle, DefinitionTable, DefinitionView,
    Definitions, DefinitionsView, MutableCaptureKind, StyleView,
};
use crate::importlib::ImportlibState;
use crate::module_name::{dotted, optional_name, texts, ModuleName};
use crate::name_map::NameMap;
use vstd::prelude::*;
use vstd::string::*;

verus! {

/// What each scope of a module defines.
pub type ScopeDefinitions = Map<Seq<char>, DefinitionsView>;

/// What a name stands for at some place.
pub struct ResolvedName<'a> {
    pub name: String,
    pub definition: &'a Definition,
    /// The scope that defines the name.
    pub scope: ModuleName,
    /// The dotted name of the expression whose left end the name is, where it is one.
    pub expr_full_name: Option<ModuleName>,
}

/// What a [`ResolvedName`] is.
pub struct ResolvedView {
    pub name: Seq<char>,
    pub definition: DefinitionView,
    pub scope: Seq<char>,
    pub full_name: Option<Seq<char>>,
}

impl<'a> DeepView for ResolvedName<'a> {
    type V = ResolvedView;

    open spec fn deep_view(&self) -> ResolvedView {
        ResolvedView {
            name: self.name@,
            definition: self.definition.deep_view(),
            scope: self.scope@,
            full_name: optional_name(self.expr_full_name),
        }
    }
}

/// What an optional resolved name is.
pub open spec fn resolved_view(res: Option<ResolvedName>) -> Option<ResolvedView> {
    match res {
        Some(r) => Some(r.deep_view()),
        None => None,
    }
}

/// A scope defines a name.
pub open spec fn defines_name(defs: ScopeDefinitions, scope: Seq<char>, name: Seq<char>) -> bool {
    defs.contains_key(scope) && defs[scope].definitions.contains_key(name)
}

/// The first of some scopes, from the `i`-th on, that defines a name.
pub open spec fn defining_scope(defs: ScopeDefinitions, scopes: Seq<Seq<char>>, name: Seq<char>, i: int) -> Option<
    Seq<char>,
>
    decreases scopes.len() - i,
{
    if i < 0 || i >= scopes.len() {
        None
    } else if defines_name(defs, scopes[i], name) {
        Some(scopes[i])
    } else {
        defining_scope(defs, scopes, name, i + 1)
    }
}

/// What a name stands for at a place: what the innermost scope says that is visible from there
/// and defines it.
pub open spec fn name_at(defs: ScopeDefinitions, at: Seq<ScopeView>, name: Seq<char>) -> Option<ResolvedView> {
    match defining_scope(defs, visible_scopes(at), name, 0) {
        Some(scope) => Some(
            ResolvedView { name, definition: defs[scope].definitions[name], scope, full_name: None },
        ),
        None => None,
    }
}

/// What the left end of an expression stands for at a place.
pub open spec fn expr_at(defs: ScopeDefinitions, at: Seq<ScopeView>, e: Expression) -> Option<ResolvedView> {
    match base_name_of(e) {
        Some(name) => match name_at(defs, at, name) {
            Some(r) => Some(ResolvedView { full_name: full_name_of(e), ..r }),
            None => None,
        },
        None => None,
    }
}

impl ResolvedView {
    /// The name is made a global one of its scope.
    pub open spec fn is_global(self) -> bool {
        self.definition.style == StyleView::MutableCapture(MutableCaptureKind::Global)
    }

    /// The name is imported.
    pub open spec fn is_import(self) -> bool {
        imported_module(self.definition.style) is Some
    }

    /// The name is that of a parameter.
    pub open spec fn is_param(self) -> bool {
        is_parameter(self.definition.style)
    }

    /// A dotted name that begins with this name, with the module that the name is imported from,
    /// or with the scope that defines it, before it. The name of a module needs nothing before it.
    pub open spec fn qualified(self, name: Seq<char>) -> Seq<char> {
        match self.definition.style {
            StyleView::ImportModule(_) => name,
            style => match imported_module(style) {
                Some(module) => dotted(module, name),
                None => dotted(self.scope, name),
            },
        }
    }

    /// The qualified name of the expression, or of the name where the expression is no dotted
    /// name.
    pub open spec fn qualified_name(self) -> Seq<char> {
        match self.full_name {
            Some(name) => self.qualified(name),
            None => self.qualified(self.name),
        }
    }

    /// The qualified name of the expression, where it is a dotted name.
    pub open spec fn try_qualified_name(self) -> Option<Seq<char>> {
        match self.full_name {
            Some(name) => Some(self.qualified(name)),
            None => None,
        }
    }
}

impl<'a> ResolvedName<'a> {
    pub fn is_global(&self) -> (res: bool)
        ensures
            res == self.deep_view().is_global(),
    {
        match &self.definition.style {
            DefinitionStyle::MutableCapture(kind) => *kind == MutableCaptureKind::Global,
            _ => false,
        }
    }

    pub fn is_import(&self) -> (res: bool)
        ensures
            res == self.deep_view().is_import(),
    {
        self.definition.is_import()
    }

    pub fn is_param(&self) -> (res: bool)
        ensures
            res == self.deep_view().is_param(),
    {
        self.definition.is_param()
    }

    /// A dotted name that begins with this name, with what belongs before it.
    pub fn qualify_name(&self, name: &ModuleName) -> (res: ModuleName)
        ensures
            res@ == self.deep_view().qualified(name@),
    {
        if let DefinitionStyle::ImportModule(_) = &self.definition.style {
            return name.clone();
        }
        match self.definition.get_imported_module_name() {
            Some(module) => module.concat(name),
            None => self.scope.concat(name),
        }
    }

    /// The qualified name of the expression, or of the name.
    pub fn qualified_name(&self) -> (res: ModuleName)
        ensures
            res@ == self.deep_view().qualified_name(),
    {
        match &self.expr_full_name {
            Some(name) => self.qualify_name(name),
            None => self.qualify_name(&ModuleName::from_str(self.name.as_str())),
        }
    }

    /// The qualified name of the expression, where it is a dotted name.
    pub fn try_qualified_name(&self) -> (res: Option<ModuleName>)
        ensures
            optional_name(res) == self.deep_view().try_qualified_name(),
    {
        match &self.expr_full_name {
            Some(name) => Some(self.qualify_name(name)),
            None => None,
        }
    }
}

/// The definition of a name in a scope.
pub fn definition_in<'a>(defs: &'a NameMap<Definitions>, scope: &ModuleName, name: &str) -> (res: Option<
    &'a Definition,
>)
    ensures
        match res {
            Some(def) => defines_name(defs.deep_view(), scope@, name@) && def.deep_view()
                == defs.deep_view()[scope@].definitions[name@],
            None => !defines_name(defs.deep_view(), scope@, name@),
        },
{
    match defs.get(scope) {
        Some(definitions) => definitions.definitions.get_str(name),
        None => None,
    }
}

/// What a name stands for at a place.
pub fn resolve_name<'a>(defs: &'a NameMap<Definitions>, cursor: &Cursor, name: &str) -> (res: Option<
    ResolvedName<'a>,
>)
    ensures
        resolved_view(res) == name_at(defs.deep_view(), cursor@, name@),
{
    let scopes = cursor.legb_scope_names();
    let ghost all = visible_scopes(cursor@);
    let ghost view = defs.deep_view();
    for i in 0..scopes.len()
        invariant
            all == visible_scopes(cursor@),
            all == texts(scopes@),
            view == defs.deep_view(),
            defining_scope(view, all, name@, 0) == defining_scope(view, all, name@, i as int),
    {
        proof {
            assert(all[i as int] == scopes@[i as int]@);
        }
        if let Some(definition) = definition_in(defs, &scopes[i], name) {
            return Some(
                ResolvedName {
                    name: name.to_owned(),
                    definition,
                    scope: scopes[i].clone(),
                    expr_full_name: None,
                },
            );
        }
    }
    None
}

/// What the left end of an expression stands for at a place.
pub fn resolve_expr<'a>(defs: &'a NameMap<Definitions>, cursor: &Cursor, value: &Expression) -> (res: Option<
    ResolvedName<'a>,
>)
    ensures
        resolved_view(res) == expr_at(defs.deep_view(), cursor@, *value),
{
    let name = match value.base_name() {
        Some(name) => name,
        None => {
            return None;
        },
    };
    match resolve_name(defs, cursor, name.as_str()) {
        Some(found) => {
            let mut found: ResolvedName<'a> = found;
            found.expr_full_name = value.full_name();
            Some(found)
        },
        None => None,
    }
}

impl DefinitionTable {
    /// The definition of a name in a scope.
    pub fn get(&self, scope: &ModuleName, name: &str) -> (res: Option<&Definition>)
        ensures
            match res {
                Some(def) => defines_name(self.definitions.deep_view(), scope@, name@) && def.deep_view()
                    == self.definitions.deep_view()[scope@].definitions[name@],
                None => !defines_name(self.definitions.deep_view(), scope@, name@),
            },
    {
        definition_in(&self.definitions, scope, name)
    }

    /// What the left end of an expression stands for at a place.
    pub fn resolve(&self, cursor: &Cursor, value: &Expression) -> (res: Option<ResolvedName<'_>>)
        ensures
            resolved_view(res) == expr_at(self.definitions.deep_view(), cursor@, *value),
    {
        resolve_expr(&self.definitions, cursor, value)
    }

    /// Whether the left end of an expression is imported.
    pub fn is_imported(&self, cursor: &Cursor, value: &Expression) -> (res: bool)
        ensures
            res == (expr_at(self.definitions.deep_view(), cursor@, *value) matches Some(r)
                && r.is_import()),
    {
        match self.resolve(cursor, value) {
            Some(found) => found.is_import(),
            None => false,
        }
    }

    /// Whether the left end of an expression is made a global name of its scope.
    pub fn is_global(&self, cursor: &Cursor, value: &Expression) -> (res: bool)
        ensures
            res == (expr_at(self.definitions.deep_view(), cursor@, *value) matches Some(r)
                && r.is_global()),
    {
        match self.resolve(cursor, value) {
            Some(found) => found.is_global(),
            None => false,
        }
    }
}

/// Which names for `import_module` a scope has.
pub open spec fn importlib_in(defs: ScopeDefinitions, scope: Seq<char>) -> ImportlibState {
    if defs.contains_key(scope) {
        ImportlibState {
            has_importlib: defs[scope].has_importlib,
            has_import_module: defs[scope].has_import_module,
        }
    } else {
        ImportlibState { has_importlib: false, has_import_module: false }
    }
}

/// Which names for `import_module` a scope has.
pub fn get_import_module_state_from_def(definitions: &NameMap<Definitions>, scope: &ModuleName) -> (res:
    ImportlibState)
    ensures
        res == importlib_in(definitions.deep_view(), scope@),
{
    match definitions.get(scope) {
        Some(defs) => ImportlibState::new(defs.has_importlib, defs.has_import_module),
        None => ImportlibState::new(false, false),
    }
}

} // verus!
