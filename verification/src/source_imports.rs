//! What import statements of a source file do.

use crate::ast::{Expression, Import, ImportAlias, ImportFrom, Node};
use crate::attribute::{full_name, Attribute};
use crate::cursor::{current_scope, Cursor, ScopeView};
use crate::effects::EffectKind;
use crate::importlib::{get_import_chain_string, import_chain, name_within, relative_name, within};
use crate::module_effects::{ModuleEffects, ModuleEffectsView};
use crate::module_name::{optional_name, optional_text, str_eq, ModuleName};
use crate::name_sets::set_at;
use crate::resolve::{get_import_module_state_from_def, importlib_in};
use crate::source_info::{
    add_plain, get_qualified_import, noted_plain, qualified_import, SourceAnalyzer,
};
use crate::text_range::TextRange;
use vstd::prelude::*;

verus! {

/// What is collected, with one name of an `import` statement. Another name for a module is noted
/// with the module that it is for.
pub open spec fn import_pending(
    scope: Seq<char>,
    alias: ImportAlias,
    is_lazy: bool,
    out: ModuleEffectsView,
) -> ModuleEffectsView {
    let pending = match alias.asname {
        None => out.with_pending(alias.name@, scope),
        Some(asname) => out.with_pending(asname@, scope).with_pending(alias.name@, asname@),
    };
    if is_lazy {
        pending
    } else {
        pending.with_eager(alias.name@)
    }
}

/// What is collected, with the first `n` names of an `import` statement.
pub open spec fn imports_pending(scope: Seq<char>, x: Import, out: ModuleEffectsView, n: int) -> ModuleEffectsView
    decreases n,
{
    if n <= 0 {
        out
    } else {
        import_pending(scope, x.names@[n - 1], x.is_lazy, imports_pending(scope, x, out, n - 1))
    }
}

/// What is collected, with the first `n` names of an `import` statement whose modules are used at
/// once.
pub open spec fn imports_called(scope: Seq<char>, x: Import, out: ModuleEffectsView, n: int) -> ModuleEffectsView
    decreases n,
{
    if n <= 0 {
        out
    } else {
        let alias = x.names@[n - 1];
        imports_called(scope, x, out, n - 1).with_called(
            match alias.asname {
                None => alias.name@,
                Some(asname) => asname@,
            },
            scope,
        )
    }
}

/// Notes an `import` statement.
pub fn add_pending_import(cursor: &Cursor, x: &Import, output: &mut ModuleEffects)
    ensures
        final(output).deep_view() == imports_pending(
            current_scope(cursor@),
            *x,
            old(output).deep_view(),
            x.names@.len() as int,
        ),
{
    let scope = cursor.scope();
    let ghost first = output.deep_view();
    for i in 0..x.names.len()
        invariant
            scope@ == current_scope(cursor@),
            output.deep_view() == imports_pending(scope@, *x, first, i as int),
    {
        let alias = &x.names[i];
        let to = ModuleName::from_str(alias.name.as_str());
        match &alias.asname {
            None => {
                output.add_pending_import(to.clone(), &scope);
            },
            Some(asname) => {
                let other = ModuleName::from_str(asname.as_str());
                output.add_pending_import(other.clone(), &scope);
                output.add_pending_import(to.clone(), &other);
            },
        }
        if !x.is_lazy {
            output.add_eager_import(to);
        }
    }
}

/// Notes an `import` statement whose modules are used at once.
pub fn add_called_import(cursor: &Cursor, x: &Import, output: &mut ModuleEffects)
    ensures
        final(output).deep_view() == imports_called(
            current_scope(cursor@),
            *x,
            old(output).deep_view(),
            x.names@.len() as int,
        ),
{
    let scope = cursor.scope();
    let ghost first = output.deep_view();
    for i in 0..x.names.len()
        invariant
            scope@ == current_scope(cursor@),
            output.deep_view() == imports_called(scope@, *x, first, i as int),
    {
        let alias = &x.names[i];
        let name = match &alias.asname {
            None => alias.name.as_str(),
            Some(asname) => asname.as_str(),
        };
        output.add_called_import(ModuleName::from_str(name), &scope);
    }
}

/// How a `from` statement is noted.
pub struct FromMode {
    /// What is imported is used at once.
    pub is_called: bool,
    pub is_lazy: bool,
}

/// What is collected, with a module that a `from` statement imports.
pub open spec fn module_imported(
    mode: FromMode,
    scope: Seq<char>,
    module: Seq<char>,
    out: ModuleEffectsView,
) -> ModuleEffectsView {
    if mode.is_called {
        out.with_called(module, scope)
    } else if mode.is_lazy {
        out.with_pending(module, scope)
    } else {
        out.with_pending(module, scope).with_eager(module)
    }
}

fn add_module(mode: &FromMode, scope: &ModuleName, module: ModuleName, output: &mut ModuleEffects)
    ensures
        final(output).deep_view() == module_imported(*mode, scope@, module@, old(output).deep_view()),
{
    if mode.is_called {
        output.add_called_import(module, scope);
    } else {
        output.add_pending_import(module.clone(), scope);
        if !mode.is_lazy {
            output.add_eager_import(module);
        }
    }
}

impl<'a> SourceAnalyzer<'a> {
    /// What is collected, with a name that a `from` statement imports. It is a module where one is
    /// known by it, and counts as one where the module that it is imported from is not known.
    pub open spec fn sub_imported(
        &self,
        mode: FromMode,
        scope: Seq<char>,
        module: Seq<char>,
        name: Seq<char>,
        out: ModuleEffectsView,
    ) -> ModuleEffectsView {
        let sub = within(module, name);
        if self.import_graph.graph.node_set().contains(sub) || set_at(
            self.import_graph.missing(),
            self.module_name@,
        ).contains(module) {
            module_imported(mode, scope, sub, out)
        } else {
            out
        }
    }

    /// What is collected, with the first `n` of some names that a `from` statement imports.
    pub open spec fn subs_imported(
        &self,
        mode: FromMode,
        scope: Seq<char>,
        module: Seq<char>,
        names: Seq<Seq<char>>,
        out: ModuleEffectsView,
        n: int,
    ) -> ModuleEffectsView
        decreases n,
    {
        if n <= 0 {
            out
        } else {
            self.sub_imported(
                mode,
                scope,
                module,
                names[n - 1],
                self.subs_imported(mode, scope, module, names, out, n - 1),
            )
        }
    }

    /// What is collected, with all names of a module.
    pub open spec fn all_imported(
        &self,
        mode: FromMode,
        scope: Seq<char>,
        module: Seq<char>,
        out: ModuleEffectsView,
    ) -> ModuleEffectsView {
        let all = self.exports.deep_view().all;
        if all.contains_key(module) {
            self.subs_imported(mode, scope, module, all[module], out, all[module].len() as int)
        } else {
            out
        }
    }

    /// What is collected, with the first `n` names of a `from` statement.
    pub open spec fn names_imported(
        &self,
        mode: FromMode,
        scope: Seq<char>,
        module: Seq<char>,
        names: Seq<ImportAlias>,
        out: ModuleEffectsView,
        n: int,
    ) -> ModuleEffectsView
        decreases n,
    {
        if n <= 0 {
            out
        } else {
            let before = self.names_imported(mode, scope, module, names, out, n - 1);
            if names[n - 1].name@ == "*"@ {
                self.all_imported(mode, scope, module, before)
            } else {
                self.sub_imported(mode, scope, module, names[n - 1].name@, before)
            }
        }
    }

    /// The module that a `from` statement names.
    pub open spec fn from_target(&self, x: ImportFrom) -> Option<Seq<char>> {
        relative_name(self.module_name@, self.is_init, x.level as nat, optional_text(x.module))
    }

    /// What is collected, with the modules that a `from` statement imports.
    pub open spec fn from_imported(
        &self,
        scope: Seq<char>,
        x: ImportFrom,
        is_called: bool,
        out: ModuleEffectsView,
    ) -> ModuleEffectsView {
        let mode = FromMode { is_called, is_lazy: x.is_lazy };
        match self.from_target(x) {
            Some(module) => {
                let parent = if module.len() > 0 {
                    module_imported(mode, scope, module, out)
                } else {
                    out
                };
                self.names_imported(mode, scope, module, x.names@, parent, x.names@.len() as int)
            },
            None => out,
        }
    }

    fn get_from_target(&self, x: &ImportFrom) -> (res: Option<ModuleName>)
        ensures
            optional_name(res) == self.from_target(*x),
    {
        let suffix: Option<&str> = match &x.module {
            Some(name) => Some(name.as_str()),
            None => None,
        };
        self.module_name.new_maybe_relative(self.is_init, x.level as usize, suffix)
    }

    fn add_sub(
        &self,
        mode: &FromMode,
        scope: &ModuleName,
        module: &ModuleName,
        name: &str,
        output: &mut ModuleEffects,
    )
        ensures
            final(output).deep_view() == self.sub_imported(
                *mode,
                scope@,
                module@,
                name@,
                old(output).deep_view(),
            ),
    {
        let sub = name_within(module, name);
        if self.import_graph.contains(&sub) || self.import_graph.has_missing_import(
            self.module_name,
            module,
        ) {
            add_module(mode, scope, sub, output);
        }
    }

    fn add_star_import_from(
        &self,
        mode: &FromMode,
        scope: &ModuleName,
        module: &ModuleName,
        output: &mut ModuleEffects,
    )
        ensures
            final(output).deep_view() == self.all_imported(
                *mode,
                scope@,
                module@,
                old(output).deep_view(),
            ),
    {
        if let Some(names) = self.exports.get_all(module) {
            let ghost all = names.deep_view();
            let ghost first = output.deep_view();
            for i in 0..names.len()
                invariant
                    all == names.deep_view(),
                    output.deep_view() == self.subs_imported(
                        *mode,
                        scope@,
                        module@,
                        all,
                        first,
                        i as int,
                    ),
            {
                proof {
                    assert(all[i as int] == names@[i as int]@);
                }
                self.add_sub(mode, scope, module, names[i].as_str(), output);
            }
        }
    }

    /// Notes the modules that a `from` statement imports.
    pub fn add_import_from(&self, cursor: &Cursor, x: &ImportFrom, is_called: bool, output: &mut ModuleEffects)
        ensures
            final(output).deep_view() == self.from_imported(
                current_scope(cursor@),
                *x,
                is_called,
                old(output).deep_view(),
            ),
    {
        let mode = FromMode { is_called, is_lazy: x.is_lazy };
        let scope = cursor.scope();
        let module = match self.get_from_target(x) {
            Some(module) => module,
            None => {
                return;
            },
        };
        if !module.as_str().is_empty() {
            add_module(&mode, &scope, module.clone(), output);
        }
        let ghost first = output.deep_view();
        for i in 0..x.names.len()
            invariant
                scope@ == current_scope(cursor@),
                mode.is_called == is_called,
                mode.is_lazy == x.is_lazy,
                output.deep_view() == self.names_imported(
                    mode,
                    scope@,
                    module@,
                    x.names@,
                    first,
                    i as int,
                ),
        {
            let name = x.names[i].name.as_str();
            if str_eq(name, "*") {
                self.add_star_import_from(&mode, &scope, &module, output);
            } else {
                self.add_sub(&mode, &scope, &module, name, output);
            }
        }
    }

    /// A name of the module is imported more than once, last at another place.
    pub open spec fn imported_again(&self, name: Seq<char>, range: TextRange) -> bool {
        let key = (self.module_name@, name);
        let re_exports = self.exports.deep_view().re_exports;
        re_exports.contains_key(key) && re_exports[key].0.0.len() == 0 && re_exports[key].0.1.len() == 0
            && re_exports[key].1 != range
    }

    /// What is collected, with a name that a `from` statement defines. One that is defined again
    /// elsewhere is reassigned.
    pub open spec fn name_defined(
        &self,
        at: Seq<ScopeView>,
        name: Seq<char>,
        range: TextRange,
        out: ModuleEffectsView,
    ) -> ModuleEffectsView {
        if self.imported_again(name, range) {
            noted_plain(
                at,
                out,
                EffectKind::ImportedVarReassignment,
                full_name((self.module_name@, name)),
                range,
            )
        } else {
            out
        }
    }

    /// What is collected, with the first `n` of some names that a `from` statement defines.
    pub open spec fn names_defined(
        &self,
        at: Seq<ScopeView>,
        names: Seq<Seq<char>>,
        range: TextRange,
        out: ModuleEffectsView,
        n: int,
    ) -> ModuleEffectsView
        decreases n,
    {
        if n <= 0 {
            out
        } else {
            self.name_defined(
                at,
                names[n - 1],
                range,
                self.names_defined(at, names, range, out, n - 1),
            )
        }
    }

    /// What is collected, with all names of a module that a `from` statement defines.
    pub open spec fn all_defined(
        &self,
        at: Seq<ScopeView>,
        x: ImportFrom,
        range: TextRange,
        out: ModuleEffectsView,
    ) -> ModuleEffectsView {
        match self.from_target(x) {
            Some(module) => {
                let all = self.exports.deep_view().all;
                if all.contains_key(module) {
                    self.names_defined(at, all[module], range, out, all[module].len() as int)
                } else {
                    out
                }
            },
            None => out,
        }
    }

    /// What is collected, with what the first `n` names of a `from` statement define.
    pub open spec fn aliases_defined(
        &self,
        at: Seq<ScopeView>,
        x: ImportFrom,
        range: TextRange,
        out: ModuleEffectsView,
        n: int,
    ) -> ModuleEffectsView
        decreases n,
    {
        if n <= 0 {
            out
        } else {
            let before = self.aliases_defined(at, x, range, out, n - 1);
            let alias = x.names@[n - 1];
            if alias.name@ == "*"@ {
                self.all_defined(at, x, range, before)
            } else {
                self.name_defined(
                    at,
                    match alias.asname {
                        None => alias.name@,
                        Some(asname) => asname@,
                    },
                    range,
                    before,
                )
            }
        }
    }

    /// What is collected, with a `from` statement.
    pub open spec fn from_stmt(
        &self,
        at: Seq<ScopeView>,
        x: ImportFrom,
        range: TextRange,
        out: ModuleEffectsView,
    ) -> ModuleEffectsView {
        self.aliases_defined(
            at,
            x,
            range,
            self.from_imported(current_scope(at), x, false, out),
            x.names@.len() as int,
        )
    }

    fn check_defined(&self, cursor: &Cursor, name: &str, range: TextRange, output: &mut ModuleEffects)
        ensures
            final(output).deep_view() == self.name_defined(
                cursor@,
                name@,
                range,
                old(output).deep_view(),
            ),
    {
        let exported = Attribute::new(self.module_name.clone(), name);
        if let Some(entry) = self.exports.get_re_export(&exported) {
            if entry.0.module.as_str().is_empty() && entry.0.attr.as_str().is_empty() && entry.1 != range {
                add_plain(
                    cursor,
                    EffectKind::ImportedVarReassignment,
                    exported.as_module_name(),
                    range,
                    output,
                );
            }
        }
    }

    fn import_star(&self, cursor: &Cursor, x: &ImportFrom, range: TextRange, output: &mut ModuleEffects)
        ensures
            final(output).deep_view() == self.all_defined(cursor@, *x, range, old(output).deep_view()),
    {
        let module = match self.get_from_target(x) {
            Some(module) => module,
            None => {
                return;
            },
        };
        if let Some(names) = self.exports.get_all(&module) {
            let ghost all = names.deep_view();
            let ghost first = output.deep_view();
            for i in 0..names.len()
                invariant
                    all == names.deep_view(),
                    output.deep_view() == self.names_defined(cursor@, all, range, first, i as int),
            {
                proof {
                    assert(all[i as int] == names@[i as int]@);
                }
                self.check_defined(cursor, names[i].as_str(), range, output);
            }
        }
    }

    /// Notes a `from` statement.
    pub fn import_from(&self, cursor: &Cursor, x: &ImportFrom, range: TextRange, output: &mut ModuleEffects)
        ensures
            final(output).deep_view() == self.from_stmt(cursor@, *x, range, old(output).deep_view()),
    {
        self.add_import_from(cursor, x, false, output);
        let ghost first = output.deep_view();
        for i in 0..x.names.len()
            invariant
                output.deep_view() == self.aliases_defined(cursor@, *x, range, first, i as int),
        {
            let alias = &x.names[i];
            if str_eq(alias.name.as_str(), "*") {
                self.import_star(cursor, x, range, output);
            } else {
                let name = match &alias.asname {
                    None => alias.name.as_str(),
                    Some(asname) => asname.as_str(),
                };
                self.check_defined(cursor, name, range, output);
            }
        }
    }

    /// What is collected, with a definition of a name at the level of the module. One of a name
    /// that is also imported is a reassignment.
    pub open spec fn defined_again(
        &self,
        at: Seq<ScopeView>,
        name: Seq<char>,
        range: TextRange,
        out: ModuleEffectsView,
    ) -> ModuleEffectsView {
        let key = (self.module_name@, name);
        if self.exports.deep_view().re_exports.contains_key(key) {
            noted_plain(at, out, EffectKind::ImportedVarReassignment, full_name(key), range)
        } else {
            out
        }
    }

    /// Notes a definition of a name that is also imported.
    pub fn check_re_exports(&self, cursor: &Cursor, name: &str, range: TextRange, output: &mut ModuleEffects)
        ensures
            final(output).deep_view() == self.defined_again(
                cursor@,
                name@,
                range,
                old(output).deep_view(),
            ),
    {
        let exported = Attribute::new(self.module_name.clone(), name);
        if self.exports.is_re_export(&exported) {
            add_plain(
                cursor,
                EffectKind::ImportedVarReassignment,
                exported.as_module_name(),
                range,
                output,
            );
        }
    }

    /// The module that an attribute of something imported is, or that it is an attribute of.
    pub open spec fn module_reached(
        &self,
        at: Seq<ScopeView>,
        obj: Expression,
        attr: Seq<char>,
    ) -> Option<Seq<char>> {
        match self.at(at, obj) {
            Some(r) => if r.is_import() {
                match self.known_import(qualified_import(r, import_chain(obj, Some(attr), r.name))) {
                    Some(module) => Some(module),
                    None => self.known_import(qualified_import(r, import_chain(obj, None, r.name))),
                }
            } else {
                None
            },
            None => None,
        }
    }

    /// A name, where it is that of a module of the graph.
    pub open spec fn known_import(&self, name: Option<Seq<char>>) -> Option<Seq<char>> {
        match name {
            Some(n) => if self.import_graph.graph.node_set().contains(n) {
                Some(n)
            } else {
                None
            },
            None => None,
        }
    }

    /// The module that an attribute of something imported is, or that it is an attribute of.
    pub fn check_function_attribute(
        &self,
        cursor: &Cursor,
        obj: &Expression,
        attr: &str,
    ) -> (module: Option<ModuleName>)
        ensures
            optional_name(module) == self.module_reached(cursor@, *obj, attr@),
    {
        let res = match self.resolve(cursor, obj) {
            Some(res) => res,
            None => {
                return None;
            },
        };
        if !res.is_import() {
            return None;
        }
        let whole = get_import_chain_string(obj, Some(attr), res.name.as_str());
        if let Some(full) = get_qualified_import(&res, &whole) {
            if self.import_graph.contains(&full) {
                return Some(full);
            }
        }
        let shorter = get_import_chain_string(obj, None, res.name.as_str());
        if let Some(full) = get_qualified_import(&res, &shorter) {
            if self.import_graph.contains(&full) {
                return Some(full);
            }
        }
        None
    }

    /// The module that an assignment to a variable imports by a call of `import_module`.
    pub open spec fn assigned_module(&self, at: Seq<ScopeView>, target: Expression, value: Expression) -> Option<
        (Seq<char>, Seq<char>),
    > {
        match (crate::ast::var_name_of(target), value.node) {
            (Some(name), Node::Call { func, arguments }) => match importlib_in(
                self.defs(),
                current_scope(at),
            ).imported_by_call(*func, arguments) {
                Some(module) => Some((name, module)),
                None => None,
            },
            _ => None,
        }
    }

    /// What is collected, with one target of an assignment. To assign a module that is imported by
    /// a call is an import, whose module is used.
    pub open spec fn target_assigned(
        &self,
        at: Seq<ScopeView>,
        target: Expression,
        value: Expression,
        out: ModuleEffectsView,
    ) -> ModuleEffectsView {
        let scope = current_scope(at);
        match self.assigned_module(at, target, value) {
            Some((name, module)) => out.with_pending(name, scope).with_pending(module, scope).with_called(
                module,
                scope,
            ),
            None => self.assigned_to(at, target, out),
        }
    }

    /// Notes what one target of an assignment does.
    pub fn check_target(&self, cursor: &Cursor, target: &Expression, value: &Expression, output: &mut ModuleEffects)
        ensures
            final(output).deep_view() == self.target_assigned(
                cursor@,
                *target,
                *value,
                old(output).deep_view(),
            ),
    {
        if let Node::Call { func, arguments } = &value.node {
            if let Some(name) = target.as_var_name() {
                let scope = cursor.scope();
                let state = get_import_module_state_from_def(&self.definitions.definitions, &scope);
                if let Some(module) = state.match_call(func, arguments) {
                    output.add_pending_import(ModuleName::from_str(name.as_str()), &scope);
                    output.add_pending_import(module.clone(), &scope);
                    output.add_called_import(module, &scope);
                    return;
                }
            }
        }
        self.check_assign_target(cursor, target, output);
    }
}

} // verus!
