//! What expressions of a source file do, apart from calls.

use crate::ast::{full_name_of, Expression, ExprContext, Node};
use crate::class::{field_kind, FieldKind};
use crate::cursor::{current_scope, Cursor, ScopeView};
use crate::definitions::imported_module;
use crate::effects::{Effect, EffectKind, EffectView};
use crate::importlib::{as_literal, get_import_chain_string, import_chain, literal_text};
use crate::module_effects::{ModuleEffects, ModuleEffectsView};
use crate::module_name::{begins_with, dotted, strip_prefix, ModuleName};
use crate::resolve::{ResolvedName, ResolvedView};
use crate::source_info::{
    add_effect, add_plain, get_imported_name, get_qualified_import, imported_name, noted_plain,
    qualified_import, SourceAnalyzer,
};
use crate::text_range::TextRange;
use vstd::prelude::*;
use vstd::string::*;

verus! {

/// What is collected, with the mutation of a parameter. It counts for the function whose parameter
/// it is.
pub open spec fn param_mutated(r: ResolvedView, range: TextRange, out: ModuleEffectsView) -> ModuleEffectsView {
    out.with_effect(r.scope, EffectView::bare(EffectKind::ParamMethodCall, r.name, range))
}

/// Notes the mutation of a parameter.
pub fn add_param_effect(res: &ResolvedName, range: TextRange, output: &mut ModuleEffects)
    ensures
        final(output).deep_view() == param_mutated(res.deep_view(), range, old(output).deep_view()),
{
    let name = ModuleName::from_str(res.name.as_str());
    output.add_effect(res.scope.clone(), Effect::new(EffectKind::ParamMethodCall, name, range));
}

impl<'a> SourceAnalyzer<'a> {
    /// What is collected, with the use of an attribute of an object of a class. A property runs a
    /// method; whether the attribute of a class of another module is one shows later.
    pub open spec fn typed_attr(
        &self,
        at: Seq<ScopeView>,
        r: ResolvedView,
        obj: Expression,
        attr: Seq<char>,
        out: ModuleEffectsView,
    ) -> ModuleEffectsView {
        match self.bindings.type_of(r.scope, r.name) {
            Some(class) => if self.classes.deep_view().contains_key(class) {
                let info = self.classes.deep_view()[class];
                if field_kind(info.fields, attr) == Some(FieldKind::Property) {
                    noted_plain(
                        at,
                        out,
                        EffectKind::MethodCall,
                        r.qualified(dotted(info.name, attr)),
                        obj.range,
                    )
                } else {
                    out
                }
            } else if self.exports.deep_view().is_class(class) && !begins_with(class, "builtins."@) {
                noted_plain(at, out, EffectKind::ImportedTypeAttr, dotted(class, attr), obj.range)
            } else {
                out
            },
            None => out,
        }
    }

    /// What is collected, with the use of an attribute of something imported: a module that it is
    /// reached by is used, and what is assigned to is mutated.
    pub open spec fn imported_attr(
        &self,
        at: Seq<ScopeView>,
        r: ResolvedView,
        obj: Expression,
        attr: Seq<char>,
        store: bool,
        out: ModuleEffectsView,
    ) -> ModuleEffectsView {
        if !r.is_import() {
            out
        } else {
            let full = qualified_import(r, import_chain(obj, Some(attr), r.name));
            let used = match full {
                Some(name) => if imported_name(r) != Some(name) {
                    out.with_called(name, current_scope(at))
                } else {
                    out
                },
                None => out,
            };
            if store {
                noted_plain(at, used, EffectKind::ImportedVarMutation, r.name, obj.range)
            } else {
                used
            }
        }
    }

    /// What is collected, with the use of an attribute, or with an assignment to it.
    pub open spec fn attr_used(
        &self,
        at: Seq<ScopeView>,
        obj: Expression,
        attr: Seq<char>,
        store: bool,
        out: ModuleEffectsView,
    ) -> ModuleEffectsView {
        match self.at(at, obj) {
            Some(r) => self.imported_attr(
                at,
                r,
                obj,
                attr,
                store,
                self.typed_attr(at, r, obj, attr, out),
            ),
            None => match full_name_of(obj) {
                Some(name) => noted_plain(at, out, EffectKind::UnknownObject, name, obj.range),
                None => out,
            },
        }
    }

    fn check_typed_attr(
        &self,
        cursor: &Cursor,
        res: &ResolvedName,
        obj: &Expression,
        attr: &str,
        output: &mut ModuleEffects,
    )
        ensures
            final(output).deep_view() == self.typed_attr(
                cursor@,
                res.deep_view(),
                *obj,
                attr@,
                old(output).deep_view(),
            ),
    {
        let class = match self.bindings.get_type(&res.scope, res.name.as_str()) {
            Some(class) => class,
            None => {
                return;
            },
        };
        if let Some(info) = self.classes.lookup(class) {
            if let Some(field) = info.get_field(attr) {
                if field.kind == FieldKind::Property {
                    let name = res.qualify_name(&info.name.append_str(attr));
                    add_plain(cursor, EffectKind::MethodCall, name, obj.range, output);
                }
            }
        } else if self.exports.is_class(class) {
            if strip_prefix(class.as_str(), "builtins.").is_none() {
                add_plain(
                    cursor,
                    EffectKind::ImportedTypeAttr,
                    class.append_str(attr),
                    obj.range,
                    output,
                );
            }
        }
    }

    /// Notes what the use of an attribute, or an assignment to it, does.
    pub fn check_attr_impl(
        &self,
        cursor: &Cursor,
        obj: &Expression,
        attr: &str,
        store: bool,
        output: &mut ModuleEffects,
    )
        ensures
            final(output).deep_view() == self.attr_used(
                cursor@,
                *obj,
                attr@,
                store,
                old(output).deep_view(),
            ),
    {
        let res = match self.resolve(cursor, obj) {
            Some(res) => res,
            None => {
                if let Some(name) = obj.full_name() {
                    add_plain(cursor, EffectKind::UnknownObject, name, obj.range, output);
                }
                return;
            },
        };
        self.check_typed_attr(cursor, &res, obj, attr, output);
        if res.is_import() {
            let chain = get_import_chain_string(obj, Some(attr), res.name.as_str());
            if let Some(full) = get_qualified_import(&res, &chain) {
                let same = match get_imported_name(&res) {
                    Some(name) => name.same(&full),
                    None => false,
                };
                if !same {
                    output.add_called_import(full, &cursor.scope());
                }
            }
            if store {
                let name = ModuleName::from_str(res.name.as_str());
                add_plain(cursor, EffectKind::ImportedVarMutation, name, obj.range, output);
            }
        }
    }

    /// What is collected, with a use of `sys.modules`.
    pub open spec fn sys_modules_used(
        &self,
        at: Seq<ScopeView>,
        range: TextRange,
        out: ModuleEffectsView,
    ) -> ModuleEffectsView {
        noted_plain(at, out, EffectKind::SysModulesAccess, "sys.modules"@, range)
    }

    /// Notes a use of `sys.modules`, where an expression is one.
    pub fn check_sys_modules_access(
        &self,
        cursor: &Cursor,
        e: &Expression,
        range: TextRange,
        output: &mut ModuleEffects,
    ) -> (res: bool)
        ensures
            res == self.sys_modules(cursor@, *e),
            final(output).deep_view() == (if res {
                self.sys_modules_used(cursor@, range, old(output).deep_view())
            } else {
                old(output).deep_view()
            }),
    {
        if self.is_sys_modules_access(cursor, e) {
            let name = ModuleName::from_str("sys.modules");
            add_plain(cursor, EffectKind::SysModulesAccess, name, range, output);
            return true;
        }
        false
    }

    /// What is collected, with the use of an item of an object.
    pub open spec fn item_used(
        &self,
        at: Seq<ScopeView>,
        obj: Expression,
        ctx: ExprContext,
        range: TextRange,
        out: ModuleEffectsView,
    ) -> ModuleEffectsView {
        if self.sys_modules(at, obj) {
            self.sys_modules_used(at, range, out)
        } else if ctx == ExprContext::Load {
            out
        } else {
            match self.at(at, obj) {
                Some(r) => {
                    let mutated = if r.is_import() || self.import_alias(at, obj) {
                        noted_plain(at, out, EffectKind::ImportedVarMutation, r.name, obj.range)
                    } else {
                        out
                    };
                    if r.is_param() {
                        param_mutated(r, obj.range, mutated)
                    } else {
                        mutated
                    }
                },
                None => out,
            }
        }
    }

    /// Notes what the use of an item of an object does.
    pub fn check_subscript(
        &self,
        cursor: &Cursor,
        obj: &Expression,
        ctx: ExprContext,
        range: TextRange,
        output: &mut ModuleEffects,
    )
        ensures
            final(output).deep_view() == self.item_used(
                cursor@,
                *obj,
                ctx,
                range,
                old(output).deep_view(),
            ),
    {
        if self.check_sys_modules_access(cursor, obj, range, output) {
            return;
        }
        if ctx == ExprContext::Load {
            return;
        }
        let res = match self.resolve(cursor, obj) {
            Some(res) => res,
            None => {
                return;
            },
        };
        if res.is_import() || self.is_import_alias(cursor, obj) {
            let name = ModuleName::from_str(res.name.as_str());
            add_plain(cursor, EffectKind::ImportedVarMutation, name, obj.range, output);
        }
        if res.is_param() {
            add_param_effect(&res, obj.range, output);
        }
    }

    /// What is collected, with an assignment to an expression.
    pub open spec fn assigned_to(
        &self,
        at: Seq<ScopeView>,
        target: Expression,
        out: ModuleEffectsView,
    ) -> ModuleEffectsView {
        let modules = match target.node {
            Node::Subscript { value, .. } => self.sys_modules(at, *value),
            _ => false,
        };
        if modules {
            self.sys_modules_used(at, target.range, out)
        } else {
            match self.at(at, target) {
                Some(r) => if r.is_import() {
                    noted_plain(at, out, EffectKind::ImportedVarMutation, r.name, target.range)
                } else if r.is_global() {
                    noted_plain(at, out, EffectKind::GlobalVarAssign, r.name, target.range)
                } else if r.scope == self.module_name@ && r.scope != current_scope(at) {
                    noted_plain(at, out, EffectKind::GlobalVarMutation, r.name, target.range)
                } else {
                    match target.node {
                        Node::Subscript { value, ctx, .. } => self.item_used(
                            at,
                            *value,
                            ctx,
                            target.range,
                            out,
                        ),
                        Node::Attribute { .. } => if r.is_param() {
                            param_mutated(r, target.range, out)
                        } else {
                            out
                        },
                        _ => out,
                    }
                },
                None => out,
            }
        }
    }

    /// Notes what an assignment to an expression does.
    pub fn check_assign_target(&self, cursor: &Cursor, target: &Expression, output: &mut ModuleEffects)
        ensures
            final(output).deep_view() == self.assigned_to(cursor@, *target, old(output).deep_view()),
    {
        if let Node::Subscript { value, .. } = &target.node {
            if self.check_sys_modules_access(cursor, value, target.range, output) {
                return;
            }
        }
        let res = match self.resolve(cursor, target) {
            Some(res) => res,
            None => {
                return;
            },
        };
        let name = ModuleName::from_str(res.name.as_str());
        if res.is_import() {
            add_plain(cursor, EffectKind::ImportedVarMutation, name, target.range, output);
        } else if res.is_global() {
            add_plain(cursor, EffectKind::GlobalVarAssign, name, target.range, output);
        } else if res.scope.same(self.module_name) && !res.scope.same(&cursor.scope()) {
            add_plain(cursor, EffectKind::GlobalVarMutation, name, target.range, output);
        } else {
            match &target.node {
                Node::Subscript { value, ctx, .. } => {
                    self.check_subscript(cursor, value, *ctx, target.range, output);
                },
                Node::Attribute { .. } => {
                    if res.is_param() {
                        add_param_effect(&res, target.range, output);
                    }
                },
                _ => {},
            }
        }
    }

    /// What is collected, with an operand of a comparison. That of something imported may run
    /// anything.
    pub open spec fn operand_compared(
        &self,
        at: Seq<ScopeView>,
        e: Expression,
        range: TextRange,
        out: ModuleEffectsView,
    ) -> ModuleEffectsView {
        match self.at(at, e) {
            Some(r) => if r.is_import() {
                noted_plain(at, out, EffectKind::UnknownValueBinaryOp, r.name, range)
            } else {
                out
            },
            None => out,
        }
    }

    /// What is collected, with the first `n` of some operands of a comparison.
    pub open spec fn compared(
        &self,
        at: Seq<ScopeView>,
        operands: Seq<Expression>,
        range: TextRange,
        out: ModuleEffectsView,
        n: int,
    ) -> ModuleEffectsView
        decreases n,
    {
        if n <= 0 {
            out
        } else {
            self.operand_compared(
                at,
                operands[n - 1],
                range,
                self.compared(at, operands, range, out, n - 1),
            )
        }
    }

    fn check_operand(&self, cursor: &Cursor, e: &Expression, range: TextRange, output: &mut ModuleEffects)
        ensures
            final(output).deep_view() == self.operand_compared(
                cursor@,
                *e,
                range,
                old(output).deep_view(),
            ),
    {
        if let Some(res) = self.resolve(cursor, e) {
            if res.is_import() {
                let name = ModuleName::from_str(res.name.as_str());
                add_plain(cursor, EffectKind::UnknownValueBinaryOp, name, range, output);
            }
        }
    }

    /// Notes what a comparison does.
    pub fn check_compare(
        &self,
        cursor: &Cursor,
        left: &Expression,
        comparators: &Vec<Expression>,
        output: &mut ModuleEffects,
    )
        ensures
            final(output).deep_view() == self.compared(
                cursor@,
                comparators@,
                left.range,
                self.operand_compared(cursor@, *left, left.range, old(output).deep_view()),
                comparators@.len() as int,
            ),
    {
        self.check_operand(cursor, left, left.range, output);
        let ghost first = output.deep_view();
        for i in 0..comparators.len()
            invariant
                output.deep_view() == self.compared(cursor@, comparators@, left.range, first, i as int),
        {
            self.check_operand(cursor, &comparators[i], left.range, output);
        }
    }

    /// What is collected, with the use of a variable. What it is imported from is used.
    pub open spec fn variable_used(
        &self,
        at: Seq<ScopeView>,
        e: Expression,
        id: Seq<char>,
        out: ModuleEffectsView,
    ) -> ModuleEffectsView {
        if out.all_pending_import_names.contains(id) {
            out.with_called(id, current_scope(at))
        } else {
            match self.at(at, e) {
                Some(r) => match imported_module(r.definition.style) {
                    Some(module) => out.with_called(module, current_scope(at)),
                    None => out,
                },
                None => out,
            }
        }
    }

    /// Notes what the use of a variable does.
    pub fn check_name(&self, cursor: &Cursor, e: &Expression, id: &str, output: &mut ModuleEffects)
        ensures
            final(output).deep_view() == self.variable_used(cursor@, *e, id@, old(output).deep_view()),
    {
        let name = ModuleName::from_str(id);
        if output.all_pending_import_names.contains(&name) {
            output.add_called_import(name, &cursor.scope());
            return;
        }
        if let Some(res) = self.resolve(cursor, e) {
            if let Some(module) = res.definition.get_imported_module_name() {
                output.add_called_import(module, &cursor.scope());
            }
        }
    }

    /// What is collected, with a call of `getattr`. With the name of the attribute it is the use of
    /// the attribute.
    pub open spec fn getattr_called(
        &self,
        at: Seq<ScopeView>,
        args: Seq<Expression>,
        out: ModuleEffectsView,
    ) -> ModuleEffectsView {
        if args.len() < 2 {
            out
        } else {
            match literal_text(args[1]) {
                Some(attr) => self.attr_used(at, args[0], attr, false, out),
                None => noted_plain(
                    at,
                    out,
                    EffectKind::ProhibitedFunctionCall,
                    "getattr"@,
                    args[1].range,
                ),
            }
        }
    }

    /// Notes what a call of `getattr` does.
    pub fn check_getattr(&self, cursor: &Cursor, args: &Vec<Expression>, output: &mut ModuleEffects)
        ensures
            final(output).deep_view() == self.getattr_called(cursor@, args@, old(output).deep_view()),
    {
        if args.len() < 2 {
            return;
        }
        match as_literal(&args[1]) {
            Some(attr) => {
                self.check_attr_impl(cursor, &args[0], attr, false, output);
            },
            None => {
                let name = ModuleName::from_str("getattr");
                add_plain(cursor, EffectKind::ProhibitedFunctionCall, name, args[1].range, output);
            },
        }
    }

    /// What is collected, with a call of `setattr`. With the name of the attribute it is an
    /// assignment to the attribute. The object may be mutated in any case.
    pub open spec fn setattr_called(
        &self,
        at: Seq<ScopeView>,
        args: Seq<Expression>,
        out: ModuleEffectsView,
    ) -> ModuleEffectsView {
        if args.len() < 3 {
            out
        } else {
            let used = match literal_text(args[1]) {
                Some(attr) => self.attr_used(at, args[0], attr, true, out),
                None => noted_plain(
                    at,
                    out,
                    EffectKind::ProhibitedFunctionCall,
                    "setattr"@,
                    args[1].range,
                ),
            };
            self.assigned_to(at, args[0], used)
        }
    }

    /// Notes what a call of `setattr` does.
    pub fn check_setattr(&self, cursor: &Cursor, args: &Vec<Expression>, output: &mut ModuleEffects)
        ensures
            final(output).deep_view() == self.setattr_called(cursor@, args@, old(output).deep_view()),
    {
        if args.len() < 3 {
            return;
        }
        match as_literal(&args[1]) {
            Some(attr) => {
                self.check_attr_impl(cursor, &args[0], attr, true, output);
            },
            None => {
                let name = ModuleName::from_str("setattr");
                add_plain(cursor, EffectKind::ProhibitedFunctionCall, name, args[1].range, output);
            },
        }
        self.check_assign_target(cursor, &args[0], output);
    }
}

} // verus!
