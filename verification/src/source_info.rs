//! What the analysis of a source file looks at.

use crate::analyzer::AnalyzedModule;
use crate::ast::{base_name_of, full_name_of, var_name_of, Expression, Node};
use crate::bindings::Alias;
use crate::bindings_table::BindingsTable;
use crate::class::ClassTable;
use crate::config::AnalysisConfig;
use crate::cursor::{all_handlers, current_scope, open_tries, Cursor, ScopeView};
use crate::definitions::{DefinitionStyle, DefinitionTable, Definitions, StyleView};
use crate::effects::{Effect, EffectKind, EffectView};
use crate::exports::Exports;
use crate::imports::ImportGraph;
use crate::module_effects::{ModuleEffects, ModuleEffectsView};
use crate::module_name::{begins_with, dotted, optional_name, str_eq, strip_prefix, texts, ModuleName};
use crate::name_map::NameMap;
use crate::name_set::NameSet;
use crate::resolve::{
    expr_at, resolve_expr, resolved_view, ResolvedName, ResolvedView, ScopeDefinitions,
};
use crate::text_range::TextRange;
use vstd::prelude::*;
use vstd::string::*;

verus! {

/// What is known of code that is not analyzed.
pub struct Stubs {
    /// The modules of which there are stubs.
    pub modules: NameMap<AnalyzedModule>,
    /// The functions that need no import and that must not be called, each with the effect that a
    /// call has.
    pub prohibited_builtins: NameMap<EffectKind>,
    /// The other functions that need no import.
    pub known_builtins: NameSet,
    /// The methods that mutate no object of any class that needs no import.
    pub safe_builtin_methods: NameSet,
}

impl Stubs {
    /// Nothing is known.
    pub fn new() -> (res: Stubs)
        ensures
            (res.modules@ == Map::<Seq<char>, AnalyzedModule>::empty()),
            (res.prohibited_builtins@ == Map::<Seq<char>, EffectKind>::empty()),
            res.known_builtins@ == Set::<Seq<char>>::empty(),
            res.safe_builtin_methods@ == Set::<Seq<char>>::empty(),
    {
        Stubs {
            modules: NameMap::new(),
            prohibited_builtins: NameMap::new(),
            known_builtins: NameSet::new(),
            safe_builtin_methods: NameSet::new(),
        }
    }

    /// What the module of what needs no import defines.
    pub open spec fn builtin_definitions(&self) -> Option<Definitions> {
        if self.modules@.contains_key("builtins"@) {
            let table = self.modules@["builtins"@].definitions.definitions;
            if table@.contains_key("builtins"@) {
                Some(table@["builtins"@])
            } else {
                None
            }
        } else {
            None
        }
    }

    /// What a name stands for that needs no import.
    pub open spec fn builtin(&self, e: Expression) -> Option<ResolvedView> {
        match (base_name_of(e), self.builtin_definitions()) {
            (Some(name), Some(defs)) => if defs.deep_view().definitions.contains_key(name) {
                Some(
                    ResolvedView {
                        name,
                        definition: defs.deep_view().definitions[name],
                        scope: "builtins"@,
                        full_name: full_name_of(e),
                    },
                )
            } else {
                None
            },
            _ => None,
        }
    }

    /// What a name stands for that needs no import.
    pub fn resolve_builtins(&self, value: &Expression) -> (res: Option<ResolvedName<'_>>)
        ensures
            resolved_view(res) == self.builtin(*value),
    {
        let name = match value.base_name() {
            Some(name) => name,
            None => {
                return None;
            },
        };
        let scope = ModuleName::from_str("builtins");
        let module = match self.modules.get(&scope) {
            Some(module) => module,
            None => {
                return None;
            },
        };
        match module.definitions.definitions.get(&scope) {
            Some(defs) => match defs.definitions.get_str(name.as_str()) {
                Some(definition) => Some(
                    ResolvedName {
                        name: name.clone(),
                        definition,
                        scope,
                        expr_full_name: value.full_name(),
                    },
                ),
                None => None,
            },
            None => None,
        }
    }

    /// Notes which functions need no import, and which of them must not be called.
    pub fn note_builtins(&mut self)
        ensures
            final(self).modules == old(self).modules,
            final(self).safe_builtin_methods == old(self).safe_builtin_methods,
            match old(self).builtin_definitions() {
                Some(defs) => {
                    let module = old(self).modules@["builtins"@];
                    &&& final(self).prohibited_builtins@ == old(self).prohibited_builtins@.union_prefer_right(
                        prohibited_names(module, defs.definitions@.dom()),
                    )
                    &&& final(self).known_builtins@ == old(self).known_builtins@.union(
                        allowed_names(module, defs.definitions@.dom()),
                    )
                },
                None => final(self).prohibited_builtins@ == old(self).prohibited_builtins@
                    && final(self).known_builtins@ == old(self).known_builtins@,
            },
    {
        let scope = ModuleName::from_str("builtins");
        let module = match self.modules.get(&scope) {
            Some(module) => module,
            None => {
                return;
            },
        };
        if let Some(defs) = module.definitions.definitions.get(&scope) {
            let names = defs.definitions.key_list();
            sort_builtins(module, &names, &mut self.prohibited_builtins, &mut self.known_builtins);
        }
    }

    /// A method of a class may mutate the object that it is called on. Of a class with a stub, the
    /// stub says so; any other may.
    pub open spec fn method_may_mutate(&self, class: Seq<char>, method: Seq<char>) -> bool {
        let module = match crate::module_name::parent_of(class) {
            Some(parent) => parent,
            None => class,
        };
        if self.modules@.contains_key(module) {
            let effects = self.modules@[module].module_effects.effects.deep_view();
            effects.contains_key(dotted(class, method)) && some_mutation(effects[dotted(class, method)])
        } else {
            true
        }
    }

    /// Whether a method of a class may mutate the object that it is called on.
    pub fn may_mutate_receiver(&self, typ: &ModuleName, method_name: &str) -> (res: bool)
        ensures
            res == self.method_may_mutate(typ@, method_name@),
    {
        let module = match typ.parent() {
            Some(parent) => parent,
            None => typ.clone(),
        };
        let stub = match self.modules.get(&module) {
            Some(stub) => stub,
            None => {
                return true;
            },
        };
        match stub.module_effects.effects.get(&typ.append_str(method_name)) {
            Some(effects) => {
                let ghost all = effects.deep_view();
                for i in 0..effects.len()
                    invariant
                        all == effects.deep_view(),
                        forall|j: int| 0 <= j < i ==> (#[trigger] all[j]).kind != EffectKind::Mutation,
                        self.modules@.contains_key(module@),
                        *stub == self.modules@[module@],
                        module@ == (match crate::module_name::parent_of(typ@) {
                            Some(parent) => parent,
                            None => typ@,
                        }),
                        stub.module_effects.effects.deep_view().contains_key(dotted(typ@, method_name@)),
                        stub.module_effects.effects.deep_view()[dotted(typ@, method_name@)] == all,
                {
                    if effects[i].kind == EffectKind::Mutation {
                        proof {
                            assert(all[i as int].kind == EffectKind::Mutation);
                        }
                        return true;
                    }
                }
                false
            },
            None => false,
        }
    }
}

/// An effect tells that a function must not be called.
pub open spec fn prohibits(kind: EffectKind) -> bool {
    kind == EffectKind::ExecCall || kind == EffectKind::ProhibitedFunctionCall
}

/// The first of the first `n` effects of a function that tells that it must not be called.
pub open spec fn prohibition(effs: Seq<EffectView>, n: int) -> Option<EffectKind>
    decreases n,
{
    if n <= 0 {
        None
    } else {
        match prohibition(effs, n - 1) {
            Some(kind) => Some(kind),
            None => if prohibits(effs[n - 1].kind) {
                Some(effs[n - 1].kind)
            } else {
                None
            },
        }
    }
}

/// The effect by which a function that needs no import must not be called.
pub open spec fn builtin_prohibition(module: AnalyzedModule, name: Seq<char>) -> Option<EffectKind> {
    let effects = module.module_effects.effects.deep_view();
    let scope = dotted("builtins"@, name);
    if effects.contains_key(scope) {
        prohibition(effects[scope], effects[scope].len() as int)
    } else {
        None
    }
}

/// Those of some names that must not be called, each with the effect that a call has.
pub open spec fn prohibited_names(module: AnalyzedModule, names: Set<Seq<char>>) -> Map<Seq<char>, EffectKind> {
    Map::new(
        |name: Seq<char>| names.contains(name) && builtin_prohibition(module, name) is Some,
        |name: Seq<char>| builtin_prohibition(module, name)->0,
    )
}

/// Those of some names that may be called.
pub open spec fn allowed_names(module: AnalyzedModule, names: Set<Seq<char>>) -> Set<Seq<char>> {
    names.filter(|name: Seq<char>| builtin_prohibition(module, name) is None)
}

/// A name that needs no import either may be called or must not be, and never both.
pub proof fn names_are_allowed_or_prohibited(module: AnalyzedModule, names: Set<Seq<char>>)
    ensures
        allowed_names(module, names).union(prohibited_names(module, names).dom()) == names,
        allowed_names(module, names).disjoint(prohibited_names(module, names).dom()),
{
    assert(allowed_names(module, names).union(prohibited_names(module, names).dom()) =~= names);
}

/// The effect by which a function that needs no import must not be called.
fn find_prohibition(module: &AnalyzedModule, name: &ModuleName) -> (res: Option<EffectKind>)
    ensures
        res == builtin_prohibition(*module, name@),
{
    let scope = ModuleName::from_str("builtins").append_str(name.as_str());
    let effs = match module.module_effects.effects.get(&scope) {
        Some(effs) => effs,
        None => {
            return None;
        },
    };
    let ghost all = effs.deep_view();
    let mut res: Option<EffectKind> = None;
    let n: usize = effs.len();
    for i in 0..n
        invariant
            n == effs@.len(),
            all == effs.deep_view(),
            res == prohibition(all, i as int),
    {
        let kind = effs[i].kind;
        proof {
            assert(all[i as int].kind == kind);
        }
        if res.is_none() && (kind == EffectKind::ExecCall || kind == EffectKind::ProhibitedFunctionCall) {
            res = Some(kind);
        }
    }
    res
}

fn sort_builtins(
    module: &AnalyzedModule,
    names: &Vec<ModuleName>,
    prohibited: &mut NameMap<EffectKind>,
    known: &mut NameSet,
)
    ensures
        (final(prohibited)@ == old(prohibited)@.union_prefer_right(
            prohibited_names(*module, texts(names@).to_set()),
        )),
        final(known)@ == old(known)@.union(allowed_names(*module, texts(names@).to_set())),
{
    let ghost before = prohibited@;
    let ghost knew = known@;
    let ghost all = texts(names@);
    let n: usize = names.len();
    proof {
        let none = all.take(0).to_set();
        assert(none =~= Set::empty());
        assert(prohibited@ =~= before.union_prefer_right(prohibited_names(*module, none)));
        assert(known@ =~= knew.union(allowed_names(*module, none)));
    }
    for i in 0..n
        invariant
            n == names@.len(),
            all == texts(names@),
            prohibited@ == before.union_prefer_right(prohibited_names(*module, all.take(i as int).to_set())),
            known@ == knew.union(allowed_names(*module, all.take(i as int).to_set())),
    {
        let name = names[i].clone();
        let ghost first = all.take(i as int).to_set();
        proof {
            assert(name@ == all[i as int]);
            assert(all.take(i + 1) =~= all.take(i as int).push(name@));
            assert forall|x: Seq<char>| #[trigger]
                all.take(i + 1).to_set().contains(x) == (first.contains(x) || x == name@) by {
                let before_it = all.take(i as int);
                if before_it.contains(x) {
                    let j = before_it.index_of(x);
                    assert(all.take(i + 1)[j] == x);
                }
                if x == name@ {
                    assert(all.take(i + 1)[i as int] == x);
                }
                if all.take(i + 1).contains(x) && x != name@ {
                    let j = all.take(i + 1).index_of(x);
                    assert(before_it[j] == x);
                }
            }
        }
        match find_prohibition(module, &name) {
            Some(kind) => {
                prohibited.insert(name, kind);
            },
            None => {
                known.insert(name);
            },
        }
        proof {
            let now = all.take(i + 1).to_set();
            assert(prohibited@ =~= before.union_prefer_right(prohibited_names(*module, now)));
            assert(known@ =~= knew.union(allowed_names(*module, now)));
        }
    }
    proof {
        assert(all.take(n as int) =~= all);
    }
}

/// One of some effects is that the object is mutated.
pub open spec fn some_mutation(effs: Seq<EffectView>) -> bool {
    exists|i: int| 0 <= i < effs.len() && (#[trigger] effs[i]).kind == EffectKind::Mutation
}

/// The analysis of a source file: what is known of the module and of the project.
pub struct SourceAnalyzer<'a> {
    pub module_name: &'a ModuleName,
    pub is_init: bool,
    pub config: &'a AnalysisConfig,
    pub definitions: &'a DefinitionTable,
    pub bindings: &'a BindingsTable,
    pub classes: &'a ClassTable,
    pub exports: &'a Exports,
    pub import_graph: &'a ImportGraph,
    pub stubs: &'a Stubs,
}

impl<'a> SourceAnalyzer<'a> {
    pub open spec fn defs(&self) -> ScopeDefinitions {
        self.definitions.definitions.deep_view()
    }

    /// What the left end of an expression stands for at a place.
    pub open spec fn at(&self, at: Seq<ScopeView>, e: Expression) -> Option<ResolvedView> {
        match expr_at(self.defs(), at, e) {
            Some(r) => Some(r),
            None => self.stubs.builtin(e),
        }
    }

    /// What the left end of an expression stands for at a place.
    pub fn resolve(&self, cursor: &Cursor, value: &Expression) -> (res: Option<ResolvedName<'a>>)
        ensures
            resolved_view(res) == self.at(cursor@, *value),
    {
        let found = resolve_expr(&self.definitions.definitions, cursor, value);
        if found.is_some() {
            return found;
        }
        self.stubs.resolve_builtins(value)
    }

    /// A name can be reached from the level of the module.
    pub open spec fn reachable(&self, r: ResolvedView) -> bool {
        r.is_import() || r.is_global() || self.definitions.eager_scopes@.contains(r.scope)
    }

    /// Whether a name can be reached from the level of the module: it is imported, or global, or
    /// defined in a scope that runs when the module is imported.
    pub fn is_reachable(&self, res: &ResolvedName) -> (reached: bool)
        ensures
            reached == self.reachable(res.deep_view()),
    {
        res.is_import() || res.is_global() || self.definitions.eager_scopes.contains(&res.scope)
    }

    /// A variable is another name for something that can be reached from everywhere.
    pub open spec fn import_alias(&self, at: Seq<ScopeView>, e: Expression) -> bool {
        match var_name_of(e) {
            Some(name) => {
                let key = (current_scope(at), name);
                self.bindings.aliases.table().contains_key(key)
                    && self.bindings.aliases.table()[key] is Global
            },
            None => false,
        }
    }

    /// Whether a variable is another name for something that can be reached from everywhere.
    pub fn is_import_alias(&self, cursor: &Cursor, obj: &Expression) -> (res: bool)
        ensures
            res == self.import_alias(cursor@, *obj),
    {
        match obj.as_var_name() {
            Some(name) => match self.bindings.lookup_alias(&cursor.scope(), name.as_str()) {
                Some(Alias::Global(_)) => true,
                _ => false,
            },
            None => false,
        }
    }

    /// An expression is `sys.modules`.
    pub open spec fn sys_modules(&self, at: Seq<ScopeView>, e: Expression) -> bool {
        match e.node {
            Node::Attribute { value, attr, .. } => attr@ == "modules"@ && match self.at(at, *value) {
                Some(r) => r.is_import() && r.name == "sys"@,
                None => false,
            },
            _ => false,
        }
    }

    /// Whether an expression is `sys.modules`.
    pub fn is_sys_modules_access(&self, cursor: &Cursor, e: &Expression) -> (res: bool)
        ensures
            res == self.sys_modules(cursor@, *e),
    {
        match &e.node {
            Node::Attribute { value, attr, .. } => {
                if !str_eq(attr.as_str(), "modules") {
                    return false;
                }
                match self.resolve(cursor, value) {
                    Some(found) => found.is_import() && str_eq(found.name.as_str(), "sys"),
                    None => false,
                }
            },
            _ => false,
        }
    }
}

/// An effect as it is noted at a place: with the handlers round it, where it runs something.
pub open spec fn handled(at: Seq<ScopeView>, eff: EffectView) -> EffectView {
    let handlers = all_handlers(open_tries(at));
    if eff.kind.runnable() && handlers.len() > 0 {
        EffectView { try_handlers: Some(handlers), ..eff }
    } else {
        eff
    }
}

/// What is collected, with an effect of the scope of a place.
pub open spec fn noted(at: Seq<ScopeView>, out: ModuleEffectsView, eff: EffectView) -> ModuleEffectsView {
    out.with_effect(current_scope(at), handled(at, eff))
}

/// What is collected, with an effect of the scope of a place, that has no more to it than its kind,
/// a name and a range.
pub open spec fn noted_plain(
    at: Seq<ScopeView>,
    out: ModuleEffectsView,
    kind: EffectKind,
    name: Seq<char>,
    range: TextRange,
) -> ModuleEffectsView {
    noted(at, out, EffectView::bare(kind, name, range))
}

/// Notes an effect of the scope of a place.
pub fn add_effect(cursor: &Cursor, eff: Effect, output: &mut ModuleEffects)
    ensures
        final(output).deep_view() == noted(cursor@, old(output).deep_view(), eff.deep_view()),
{
    let ghost view = eff.deep_view();
    let eff = if eff.kind.is_runnable() && cursor.in_try_body() {
        eff.with_try_handlers(cursor.try_handlers())
    } else {
        proof {
            if open_tries(cursor@).len() == 0 {
                assert(all_handlers(open_tries(cursor@)).len() == 0);
            }
        }
        eff
    };
    proof {
        assert(eff.deep_view() == handled(cursor@, view));
    }
    output.add_effect(cursor.scope(), eff);
}

/// Notes an effect of the scope of a place, that has no more to it than its kind, a name and a
/// range.
pub fn add_plain(cursor: &Cursor, kind: EffectKind, name: ModuleName, range: TextRange, output: &mut ModuleEffects)
    ensures
        final(output).deep_view() == noted_plain(cursor@, old(output).deep_view(), kind, name@, range),
{
    add_effect(cursor, Effect::new(kind, name, range), output);
}

/// What follows a name and a dot at the beginning of another.
pub open spec fn rest_behind(name: Seq<char>, first: Seq<char>) -> Option<Seq<char>> {
    if begins_with(name, first.push('.')) {
        Some(name.skip(first.len() as int + 1))
    } else {
        None
    }
}

/// The full name of something that is reached by a dotted name whose left end is imported.
pub open spec fn qualified_import(r: ResolvedView, chain: Seq<char>) -> Option<Seq<char>> {
    match r.definition.style {
        StyleView::ImportModule(_) => Some(chain),
        StyleView::Import(parent) => Some(dotted(parent, chain)),
        StyleView::ImportAsEq(parent) => Some(dotted(parent, chain)),
        StyleView::ImportAs(parent, original) => Some(
            match rest_behind(chain, r.name) {
                Some(rest) => dotted(dotted(parent, original), rest),
                None => dotted(parent, original),
            },
        ),
        _ => None,
    }
}

/// The full name of something that is reached by a dotted name whose left end is imported.
pub fn get_qualified_import(res: &ResolvedName, attribute_module: &ModuleName) -> (full: Option<ModuleName>)
    ensures
        optional_name(full) == qualified_import(res.deep_view(), attribute_module@),
{
    match &res.definition.style {
        DefinitionStyle::ImportModule(_) => Some(attribute_module.clone()),
        DefinitionStyle::Import(parent) => Some(parent.concat(attribute_module)),
        DefinitionStyle::ImportAsEq(parent) => Some(parent.concat(attribute_module)),
        DefinitionStyle::ImportAs(parent, original) => {
            let base = parent.append_str(original.as_str());
            let mut prefix: String = res.name.clone();
            prefix.push('.');
            match strip_prefix(attribute_module.as_str(), prefix.as_str()) {
                Some(rest) => Some(base.append_str(rest.as_str())),
                None => Some(base),
            }
        },
        _ => None,
    }
}

/// The full name of what a name is imported as.
pub open spec fn imported_name(r: ResolvedView) -> Option<Seq<char>> {
    match r.definition.style {
        StyleView::ImportModule(module) => Some(module),
        StyleView::Import(parent) => Some(dotted(parent, r.name)),
        StyleView::ImportAsEq(parent) => Some(dotted(parent, r.name)),
        StyleView::ImportAs(parent, original) => Some(dotted(parent, original)),
        _ => None,
    }
}

/// The full name of what a name is imported as.
pub fn get_imported_name(res: &ResolvedName) -> (full: Option<ModuleName>)
    ensures
        optional_name(full) == imported_name(res.deep_view()),
{
    match &res.definition.style {
        DefinitionStyle::ImportModule(module) => Some(module.clone()),
        DefinitionStyle::Import(parent) => Some(parent.append_str(res.name.as_str())),
        DefinitionStyle::ImportAsEq(parent) => Some(parent.append_str(res.name.as_str())),
        DefinitionStyle::ImportAs(parent, original) => Some(parent.append_str(original.as_str())),
        _ => None,
    }
}

} // verus!
