//! Results of analyzing libraries one by one, and how they are put together.

use crate::attribute::{attributes_of, module_part, with_module, AttrMap};
use crate::cached_exports::{CachedExports, CachedExportsView};
use crate::cached_module::{
    index_verifies, resolve_implicit_imports, resolved_names, retain_unverified_errors,
    search_verifies, stays, CachedError, CachedModule, CachedModuleView, CachedSafety, CachedSafetyView,
    IndexVerifier, OutcomeView, SearchVerifier, Verifier,
};
use crate::errors::ErrorKind;
use crate::imports::{known_module, resolve_to_known_module};
use crate::module_name::{without_brackets, ModuleName};
use crate::module_safety::{FunctionInfoView, FunctionSafetyInfo};
use crate::name_map::NameMap;
use crate::name_set::NameSet;
use crate::name_sets::{add_names, set_at, NameSets};
use crate::spread::{spread_from, spread_to, spread_verdicts};
use crate::verdicts::{
    apply_mutation_candidates, promotable, promotable_after, promote_fixpoint, promoted, promoted_index,
    resolve_candidates, scope_errors, settled, verdicts, verified, verified_grows, FunctionTable, Resolution,
    Verdicts,
};
use vstd::prelude::*;

verus! {

/// What is known of a Python library, or of several that were put together.
pub struct LibraryCache {
    pub modules: Vec<CachedModule>,
    pub exports: CachedExports,
}

/// What a [`LibraryCache`] is.
pub struct CacheView {
    pub modules: Seq<CachedModuleView>,
    pub exports: CachedExportsView,
}

impl DeepView for LibraryCache {
    type V = CacheView;

    open spec fn deep_view(&self) -> CacheView {
        CacheView { modules: self.modules.deep_view(), exports: self.exports.deep_view() }
    }
}

/// The names of modules.
pub open spec fn module_names_of(modules: Seq<CachedModuleView>) -> Seq<Seq<char>> {
    modules.map_values(|m: CachedModuleView| m.name)
}

/// The known modules that some names lie in.
pub open spec fn known_targets(names: Set<Seq<char>>, known: Set<Seq<char>>) -> Set<Seq<char>> {
    Set::new(
        |t: Seq<char>|
            exists|a: Seq<char>| #[trigger] names.contains(a) && known_module(a, known) == Some(t),
    )
}

/// The names that lie in no known module.
pub open spec fn still_unknown(names: Set<Seq<char>>, known: Set<Seq<char>>) -> Set<Seq<char>> {
    Set::new(|a: Seq<char>| names.contains(a) && known_module(a, known) is None)
}

/// Splits names into the known modules that they lie in, and those that lie in none.
fn split_known(names: &NameSet, known: &NameSet) -> (res: (NameSet, NameSet))
    ensures
        res.0@ == known_targets(names@, known@),
        res.1@ == still_unknown(names@, known@),
{
    let mut found = NameSet::new();
    let mut unknown = NameSet::new();
    let n: usize = names.len();
    let ghost items = names.items();
    proof {
        assert(found@ =~= known_targets(items.take(0).to_set(), known@));
        assert(unknown@ =~= still_unknown(items.take(0).to_set(), known@));
    }
    for i in 0..n
        invariant
            n == items.len(),
            items == names.items(),
            found@ == known_targets(items.take(i as int).to_set(), known@),
            unknown@ == still_unknown(items.take(i as int).to_set(), known@),
    {
        let ghost before = items.take(i as int).to_set();
        let ghost after = items.take(i + 1).to_set();
        let ghost name = items[i as int];
        let ghost old_found = found@;
        proof {
            crate::name_set::lemma_take_more(items, i as int);
        }
        match resolve_to_known_module(&names.at(i), known) {
            Some(target) => {
                let ghost t = target@;
                let _ = found.insert(target);
                proof {
                    assert forall|x: Seq<char>| #[trigger]
                        known_targets(after, known@).contains(x) <==> old_found.insert(t).contains(x) by {
                        if known_targets(after, known@).contains(x) {
                            let a = choose|a: Seq<char>| #[trigger]
                                after.contains(a) && known_module(a, known@) == Some(x);
                            if a != name {
                                assert(before.contains(a));
                            }
                        }
                        if old_found.contains(x) {
                            let a = choose|a: Seq<char>| #[trigger]
                                before.contains(a) && known_module(a, known@) == Some(x);
                            assert(after.contains(a));
                        }
                        assert(after.contains(name));
                    }
                    assert(found@ =~= known_targets(after, known@));
                    assert(unknown@ =~= still_unknown(after, known@));
                }
            },
            None => {
                let _ = unknown.insert(names.at(i));
                proof {
                    assert forall|x: Seq<char>| #[trigger]
                        known_targets(after, known@).contains(x) <==> old_found.contains(x) by {
                        if known_targets(after, known@).contains(x) {
                            let a = choose|a: Seq<char>| #[trigger]
                                after.contains(a) && known_module(a, known@) == Some(x);
                            assert(before.contains(a));
                        }
                        if old_found.contains(x) {
                            let a = choose|a: Seq<char>| #[trigger]
                                before.contains(a) && known_module(a, known@) == Some(x);
                            assert(after.contains(a));
                        }
                    }
                    assert(found@ =~= known_targets(after, known@));
                    assert(unknown@ =~= still_unknown(after, known@));
                }
            },
        }
    }
    proof {
        assert(items.take(n as int) =~= items);
    }
    (found, unknown)
}

/// A module whose ambiguous imports are settled: those that lie in a known module are imports of
/// that module.
pub open spec fn disambiguated(m: CachedModuleView, known: Set<Seq<char>>) -> CachedModuleView {
    CachedModuleView {
        imports: m.imports.union(known_targets(m.ambiguous_imports, known)),
        ambiguous_imports: Set::empty(),
        ..m
    }
}

/// The modules that the ambiguous imports of the modules of a name turned out to be.
pub open spec fn settled_imports(
    modules: Seq<CachedModuleView>,
    known: Set<Seq<char>>,
    name: Seq<char>,
) -> Set<Seq<char>>
    decreases modules.len(),
{
    if modules.len() == 0 {
        Set::empty()
    } else if modules.last().name == name {
        settled_imports(modules.drop_last(), known, name).union(
            known_targets(modules.last().ambiguous_imports, known),
        )
    } else {
        settled_imports(modules.drop_last(), known, name)
    }
}

/// A module whose missing imports are looked for among the known modules. Errors are dropped that
/// come from a call which is verified with what was found.
pub open spec fn linked(
    m: CachedModuleView,
    found: Set<Seq<char>>,
    known: Set<Seq<char>>,
    table: Verdicts,
) -> CachedModuleView {
    let more = known_targets(m.missing_imports, known);
    CachedModuleView {
        safety: match m.safety {
            OutcomeView::Checked(s) => OutcomeView::Checked(
                linked_safety(s, found.union(more), known, table),
            ),
            OutcomeView::Failed(message) => OutcomeView::Failed(message),
        },
        imports: m.imports.union(more),
        missing_imports: still_unknown(m.missing_imports, known),
        ..m
    }
}

/// What is kept of a module's safety once it is known which modules its imports lie in.
pub open spec fn linked_safety(
    s: CachedSafetyView,
    found: Set<Seq<char>>,
    known: Set<Seq<char>>,
    table: Verdicts,
) -> CachedSafetyView {
    CachedSafetyView {
        implicit_imports: resolved_names(s.implicit_imports, known),
        ..s.without_verified(|name: Seq<char>| search_verifies(found, table, name))
    }
}

/// What is known of the functions of modules. Of modules with the same name, the last one counts.
pub open spec fn function_table(modules: Seq<CachedModuleView>) -> Verdicts
    decreases modules.len(),
{
    if modules.len() == 0 {
        Map::empty()
    } else {
        with_module(
            function_table(modules.drop_last()),
            modules.last().name,
            modules.last().function_safety,
        )
    }
}

/// What comes of the candidates of modules, one module after the other.
pub open spec fn resolve_modules(
    before: Resolution,
    known: Set<Seq<char>>,
    modules: Seq<CachedModuleView>,
) -> Resolution
    decreases modules.len(),
{
    if modules.len() == 0 {
        before
    } else {
        resolve_candidates(
            resolve_modules(before, known, modules.drop_last()),
            known,
            modules.last().name,
            modules.last().mutation_candidates,
        )
    }
}

/// The errors that candidates of a module turned out to be.
pub open spec fn errors_of_module(errors: Seq<(Seq<char>, Seq<char>)>, name: Seq<char>) -> Seq<
    (ErrorKind, Seq<char>),
>
    decreases errors.len(),
{
    if errors.len() == 0 {
        Seq::empty()
    } else if errors.last().0 == name {
        errors_of_module(errors.drop_last(), name).push(
            (ErrorKind::ImportedVarArgument, errors.last().1),
        )
    } else {
        errors_of_module(errors.drop_last(), name)
    }
}

/// A module with the errors that its candidates turned out to be.
pub open spec fn with_scope_errors(m: CachedModuleView, errors: Seq<(Seq<char>, Seq<char>)>) -> CachedModuleView {
    CachedModuleView {
        safety: match m.safety {
            OutcomeView::Checked(s) => OutcomeView::Checked(
                CachedSafetyView { errors: s.errors + errors_of_module(errors, m.name), ..s },
            ),
            OutcomeView::Failed(message) => OutcomeView::Failed(message),
        },
        ..m
    }
}

/// A module without the errors that come from a call which is verified now.
pub open spec fn cleared(
    m: CachedModuleView,
    known: Set<Seq<char>>,
    table: Verdicts,
    index: Set<Seq<char>>,
) -> CachedModuleView {
    CachedModuleView {
        safety: match m.safety {
            OutcomeView::Checked(s) => OutcomeView::Checked(
                s.without_verified(|name: Seq<char>| index_verifies(known, table, index, name)),
            ),
            OutcomeView::Failed(message) => OutcomeView::Failed(message),
        },
        ..m
    }
}

/// How many errors a module has.
pub open spec fn error_count(m: CachedModuleView) -> nat {
    match m.safety {
        OutcomeView::Checked(s) => s.errors.len(),
        OutcomeView::Failed(_) => 0,
    }
}

/// What is known of the functions of a module: what the table says, for the first module of each
/// name.
pub open spec fn given_back(modules: Seq<CachedModuleView>, i: int, table: Verdicts) -> CachedModuleView {
    CachedModuleView {
        function_safety: if module_names_of(modules).take(i).contains(modules[i].name) {
            Map::empty()
        } else {
            module_part(table, modules[i].name)
        },
        ..modules[i]
    }
}

/// The functions are the fewest with which promotion comes to rest.
pub open spec fn least_promotion(
    known: Set<Seq<char>>,
    table: Verdicts,
    functions: Set<(Seq<char>, Seq<char>)>,
) -> bool {
    &&& functions.subset_of(table.dom())
    &&& settled(known, table, functions)
    &&& forall|other: Set<(Seq<char>, Seq<char>)>| #[trigger]
        settled(known, table, other) ==> functions.subset_of(other)
}

impl CacheView {
    /// The names of the modules.
    pub open spec fn known(self) -> Set<Seq<char>> {
        module_names_of(self.modules).to_set()
    }

    /// The modules once their imports are looked for among each other, given what is known of
    /// functions.
    pub open spec fn linked_modules(self, table: Verdicts) -> Seq<CachedModuleView> {
        Seq::new(
            self.modules.len(),
            |i: int|
                linked(
                    disambiguated(self.modules[i], self.known()),
                    settled_imports(self.modules, self.known(), self.modules[i].name),
                    self.known(),
                    table,
                ),
        )
    }

    /// What comes of all candidates, given what is known of functions.
    pub open spec fn resolution(self, table: Verdicts) -> Resolution {
        resolve_modules(
            Resolution { table, errors: Seq::empty(), found_safe: false },
            self.known(),
            self.modules,
        )
    }

    /// The modules once imports and candidates are settled, and the given functions are promoted.
    pub open spec fn resolved_modules(
        self,
        table: Verdicts,
        functions: Set<(Seq<char>, Seq<char>)>,
    ) -> Seq<CachedModuleView> {
        let resolution = self.resolution(table);
        let modules = self.linked_modules(table).map_values(
            |m: CachedModuleView| with_scope_errors(m, resolution.errors),
        );
        let last = promoted(resolution.table, functions);
        let index = promoted_index(self.known(), resolution.table, functions);
        let clean = if resolution.found_safe || !(functions =~= Set::empty()) {
            modules.map_values(|m: CachedModuleView| cleared(m, self.known(), last, index))
        } else {
            modules
        };
        Seq::new(clean.len(), |i: int| given_back(clean, i, last))
    }

    /// One cache comes from another by looking for each library's missing imports in the others:
    /// verdicts spread through re-exports, imports and candidates are settled, functions are
    /// promoted, and the errors go that are verified not to be any.
    pub open spec fn resolves_to(self, after: CacheView) -> bool {
        &&& after.exports == self.exports
        &&& exists|table: Verdicts, functions: Set<(Seq<char>, Seq<char>)>| #[trigger]
            self.resolves_with(after, table, functions)
    }

    /// One cache comes from another, where verdicts spread to the given table and the given
    /// functions are promoted.
    pub open spec fn resolves_with(
        self,
        after: CacheView,
        table: Verdicts,
        functions: Set<(Seq<char>, Seq<char>)>,
    ) -> bool {
        &&& spread_from(self.exports.re_exports, self.known(), function_table(self.modules), table)
        &&& spread_to(self.exports.re_exports, self.known(), function_table(self.modules), table)
        &&& least_promotion(self.known(), self.resolution(table).table, functions)
        &&& after.modules == self.resolved_modules(table, functions)
    }
}

/// No error was found in a module.
pub open spec fn found_safe() -> spec_fn(CachedModuleView) -> bool {
    |m: CachedModuleView| m.is_safe()
}

impl LibraryCache {
    pub fn empty() -> (res: LibraryCache)
        ensures
            res.deep_view().modules.len() == 0,
            res.deep_view().exports.definitions.len() == 0,
            res.deep_view().exports.re_exports.len() == 0,
            res.deep_view().exports.all.len() == 0,
            res.deep_view().exports.return_types.len() == 0,
    {
        LibraryCache { modules: Vec::new(), exports: CachedExports::new() }
    }

    /// The names of the modules.
    pub fn module_name_set(&self) -> (res: NameSet)
        ensures
            res@ == self.deep_view().known(),
    {
        let mut res = NameSet::new();
        let ghost names = module_names_of(self.deep_view().modules);
        proof {
            assert(names.take(0).to_set() =~= Set::empty());
        }
        for i in 0..self.modules.len()
            invariant
                names == module_names_of(self.deep_view().modules),
                res@ == names.take(i as int).to_set(),
        {
            let _ = res.insert(self.modules[i].name.clone());
            proof {
                crate::name_set::lemma_take_more(names, i as int);
            }
        }
        proof {
            assert(names.take(names.len() as int) =~= names);
        }
        res
    }

    /// How many modules no error was found in.
    pub fn safe_count(&self) -> (res: usize)
        ensures
            res == self.deep_view().modules.filter(found_safe()).len(),
    {
        let mut count: usize = 0;
        let ghost all = self.deep_view().modules;
        proof {
            reveal(Seq::filter);
            assert(all.take(0) =~= Seq::empty());
        }
        for i in 0..self.modules.len()
            invariant
                all == self.deep_view().modules,
                count <= i,
                count == all.take(i as int).filter(found_safe()).len(),
        {
            proof {
                reveal(Seq::filter);
                assert(all.take(i + 1).drop_last() =~= all.take(i as int));
                assert(all.take(i + 1).last() == all[i as int]);
            }
            if self.modules[i].is_safe() {
                count = count + 1;
            }
        }
        proof {
            assert(all.take(all.len() as int) =~= all);
        }
        count
    }

    /// Settles ambiguous imports: one that lies in a known module is an import of that module.
    /// The result holds, for each name, the modules that were found.
    fn resolve_ambiguous_imports(&mut self, module_names: &NameSet) -> (res: NameSets)
        ensures
            final(self).exports == old(self).exports,
            final(self).deep_view().modules == old(self).deep_view().modules.map_values(
                |m: CachedModuleView| disambiguated(m, module_names@),
            ),
            forall|name: Seq<char>|
                set_at(res.deep_view(), name) == #[trigger] settled_imports(
                    old(self).deep_view().modules,
                    module_names@,
                    name,
                ),
    {
        let mut modules: Vec<CachedModule> = Vec::new();
        std::mem::swap(&mut self.modules, &mut modules);
        let ghost views = modules.deep_view();
        let ghost items = modules@;
        let ghost known = module_names@;
        let mut resolved: NameSets = NameMap::new();
        let mut res: Vec<CachedModule> = Vec::new();
        proof {
            assert(views.take(0) =~= Seq::empty());
            assert(res.deep_view() =~= views.take(0).map_values(
                |m: CachedModuleView| disambiguated(m, known),
            ));
        }
        for module in it: modules
            invariant
                it.seq() == items,
                views == Seq::new(items.len(), |i: int| items[i].deep_view()),
                known == module_names@,
                res.deep_view() == views.take(it.index() as int).map_values(
                    |m: CachedModuleView| disambiguated(m, known),
                ),
                forall|name: Seq<char>|
                    set_at(resolved.deep_view(), name) == #[trigger] settled_imports(
                        views.take(it.index() as int),
                        known,
                        name,
                    ),
        {
            let ghost i = it.index() as int;
            let ghost before = res.deep_view();
            let ghost view = module.deep_view();
            let mut module = module;
            let (found, _) = split_known(&module.ambiguous_imports, module_names);
            let ghost old_resolved = resolved.deep_view();
            if !found.is_empty() {
                add_names(&mut resolved, &module.name, &found);
            }
            module.imports.extend(&found);
            module.ambiguous_imports = NameSet::new();
            proof {
                assert(views[i] == view);
                assert(module.deep_view() == disambiguated(view, known));
                assert(views.take(i + 1).drop_last() =~= views.take(i));
                assert(views.take(i + 1).last() == view);
                assert forall|name: Seq<char>|
                    set_at(resolved.deep_view(), name) == #[trigger] settled_imports(
                        views.take(i + 1),
                        known,
                        name,
                    ) by {
                    assert(set_at(old_resolved, name) == settled_imports(views.take(i), known, name));
                    assert(set_at(resolved.deep_view(), name) =~= settled_imports(
                        views.take(i + 1),
                        known,
                        name,
                    ));
                }
            }
            res.push(module);
            proof {
                assert(res.deep_view() =~= before.push(disambiguated(view, known)));
                assert(res.deep_view() =~= views.take(i + 1).map_values(
                    |m: CachedModuleView| disambiguated(m, known),
                ));
            }
        }
        proof {
            assert(views.take(views.len() as int) =~= views);
        }
        self.modules = res;
        resolved
    }

    /// Takes out what is known of the functions of all modules.
    fn take_functions(&mut self) -> (res: FunctionTable)
        ensures
            final(self).exports == old(self).exports,
            final(self).deep_view().modules == old(self).deep_view().modules.map_values(
                |m: CachedModuleView| CachedModuleView { function_safety: Map::empty(), ..m },
            ),
            verdicts(&res) == function_table(old(self).deep_view().modules),
    {
        let mut modules: Vec<CachedModule> = Vec::new();
        std::mem::swap(&mut self.modules, &mut modules);
        let ghost views = modules.deep_view();
        let ghost items = modules@;
        let mut table: FunctionTable = AttrMap::new();
        let mut res: Vec<CachedModule> = Vec::new();
        let ghost bare = |m: CachedModuleView| CachedModuleView { function_safety: Map::empty(), ..m };
        proof {
            assert(views.take(0) =~= Seq::empty());
            assert(res.deep_view() =~= views.take(0).map_values(bare));
            assert(verdicts(&table) =~= Map::empty());
        }
        for module in it: modules
            invariant
                it.seq() == items,
                views == Seq::new(items.len(), |i: int| items[i].deep_view()),
                bare == (|m: CachedModuleView| CachedModuleView { function_safety: Map::empty(), ..m }),
                res.deep_view() == views.take(it.index() as int).map_values(bare),
                verdicts(&table) == function_table(views.take(it.index() as int)),
        {
            let ghost i = it.index() as int;
            let ghost before = res.deep_view();
            let ghost old_table = table@;
            let ghost view = module.deep_view();
            let mut module = module;
            let mut functions: NameMap<FunctionSafetyInfo> = NameMap::new();
            std::mem::swap(&mut module.function_safety, &mut functions);
            let ghost part = functions@;
            table.set_module(module.name.clone(), functions);
            proof {
                assert(views[i] == view);
                assert(views.take(i + 1).drop_last() =~= views.take(i));
                assert(views.take(i + 1).last() == view);
                assert(verdicts(&table) =~= with_module(
                    old_table.map_values(|f: FunctionSafetyInfo| f.deep_view()),
                    view.name,
                    view.function_safety,
                ));
                assert(module.deep_view().function_safety =~= Map::empty());
                assert(module.deep_view() == bare(view));
            }
            res.push(module);
            proof {
                assert(res.deep_view() =~= before.push(bare(view)));
                assert(res.deep_view() =~= views.take(i + 1).map_values(bare));
            }
        }
        proof {
            assert(views.take(views.len() as int) =~= views);
        }
        self.modules = res;
        table
    }

    /// Gives what is known of functions back to the modules, of each name to the first one.
    fn give_back_functions(&mut self, table: FunctionTable)
        requires
            forall|i: int|
                0 <= i < old(self).modules@.len() ==> (#[trigger] old(
                    self,
                ).deep_view().modules[i]).function_safety =~= Map::empty(),
        ensures
            final(self).exports == old(self).exports,
            final(self).deep_view().modules == Seq::new(
                old(self).deep_view().modules.len(),
                |i: int| given_back(old(self).deep_view().modules, i, verdicts(&table)),
            ),
    {
        let mut modules: Vec<CachedModule> = Vec::new();
        std::mem::swap(&mut self.modules, &mut modules);
        let ghost views = modules.deep_view();
        let ghost items = modules@;
        let ghost all = verdicts(&table);
        let ghost names = module_names_of(views);
        let mut rest = table;
        let mut res: Vec<CachedModule> = Vec::new();
        proof {
            assert(res.deep_view() =~= Seq::new(0, |i: int| given_back(views, i, all)));
            assert forall|f: (Seq<char>, Seq<char>)| all.contains_key(f) <==> rest@.contains_key(f) by {}
            assert(views == old(self).deep_view().modules);
            assert forall|i: int| 0 <= i < views.len() implies (#[trigger] views[i]).function_safety
                =~= Map::empty() by {
                assert(old(self).deep_view().modules[i].function_safety =~= Map::empty());
            }
        }
        for module in it: modules
            invariant
                it.seq() == items,
                views == Seq::new(items.len(), |i: int| items[i].deep_view()),
                names == module_names_of(views),
                forall|i: int| 0 <= i < views.len() ==> (#[trigger] views[i]).function_safety =~= Map::empty(),
                res.deep_view() == Seq::new(it.index() as nat, |i: int| given_back(views, i, all)),
                forall|f: (Seq<char>, Seq<char>)| #[trigger]
                    rest@.contains_key(f) <==> all.contains_key(f) && !names.take(
                        it.index() as int,
                    ).contains(f.0),
                forall|f: (Seq<char>, Seq<char>)| #[trigger]
                    rest@.contains_key(f) ==> rest@[f].deep_view() == all[f],
        {
            let ghost i = it.index() as int;
            let ghost before = res.deep_view();
            let ghost view = module.deep_view();
            let ghost left = rest@;
            let mut module = module;
            proof {
                assert(views[i] == view);
                assert(names[i] == view.name);
                crate::name_set::lemma_take_more(names, i);
                assert forall|n: Seq<char>| #[trigger] names.take(i + 1).contains(n) <==> names.take(
                    i,
                ).contains(n) || n == view.name by {
                    assert(names.take(i + 1).to_set().contains(n) <==> names.take(i).to_set().contains(n)
                        || n == view.name);
                }
            }
            if let Some(functions) = rest.take_module(&module.name) {
                module.function_safety = functions;
            }
            proof {
                assert(module.deep_view().function_safety =~= given_back(views, i, all).function_safety);
                assert(module.deep_view() == given_back(views, i, all));
                assert forall|f: (Seq<char>, Seq<char>)| #[trigger]
                    rest@.contains_key(f) <==> all.contains_key(f) && !names.take(i + 1).contains(f.0) by {
                    assert(left.contains_key(f) <==> all.contains_key(f) && !names.take(i).contains(f.0));
                }
                assert forall|f: (Seq<char>, Seq<char>)| #[trigger]
                    rest@.contains_key(f) implies rest@[f].deep_view() == all[f] by {
                    assert(left.contains_key(f));
                }
            }
            res.push(module);
            proof {
                assert(res.deep_view() =~= before.push(given_back(views, i, all)));
                assert(res.deep_view() =~= Seq::new((i + 1) as nat, |i: int| given_back(views, i, all)));
            }
        }
        self.modules = res;
    }

    /// Drops errors that come from calls which are verified with an index of safe names. The
    /// result says whether there were any.
    pub fn clear_verified_errors(
        &mut self,
        module_names: &NameSet,
        func_safety_by_module: &FunctionTable,
        globally_safe_funcs: &NameSet,
    ) -> (res: bool)
        ensures
            final(self).exports == old(self).exports,
            final(self).deep_view().modules == old(self).deep_view().modules.map_values(
                |m: CachedModuleView|
                    cleared(
                        m,
                        module_names@,
                        verdicts(func_safety_by_module),
                        globally_safe_funcs@,
                    ),
            ),
            res <==> exists|i: int|
                0 <= i < final(self).modules@.len() && error_count(
                    #[trigger] final(self).deep_view().modules[i],
                ) < error_count(old(self).deep_view().modules[i]),
    {
        let mut modules: Vec<CachedModule> = Vec::new();
        std::mem::swap(&mut self.modules, &mut modules);
        let ghost views = modules.deep_view();
        let ghost items = modules@;
        let ghost clear = |m: CachedModuleView|
            cleared(m, module_names@, verdicts(func_safety_by_module), globally_safe_funcs@);
        let verifier = IndexVerifier {
            modules: module_names,
            table: func_safety_by_module,
            index: globally_safe_funcs,
        };
        let ghost by_index = |name: Seq<char>|
            index_verifies(module_names@, verdicts(func_safety_by_module), globally_safe_funcs@, name);
        let mut any = false;
        let mut res: Vec<CachedModule> = Vec::new();
        proof {
            assert(views.take(0) =~= Seq::empty());
            assert(res.deep_view() =~= views.take(0).map_values(clear));
            assert((|name: Seq<char>| verifier.verifies(name)) =~= by_index);
        }
        for module in it: modules
            invariant
                it.seq() == items,
                views == Seq::new(items.len(), |i: int| items[i].deep_view()),
                verifier.modules == module_names,
                verifier.table == func_safety_by_module,
                verifier.index == globally_safe_funcs,
                by_index == (|name: Seq<char>|
                    index_verifies(
                        module_names@,
                        verdicts(func_safety_by_module),
                        globally_safe_funcs@,
                        name,
                    )),
                (|name: Seq<char>| verifier.verifies(name)) == by_index,
                clear == (|m: CachedModuleView|
                    cleared(
                        m,
                        module_names@,
                        verdicts(func_safety_by_module),
                        globally_safe_funcs@,
                    )),
                res.deep_view() == views.take(it.index() as int).map_values(clear),
                any <==> exists|i: int|
                    0 <= i < res@.len() && error_count(#[trigger] res.deep_view()[i]) < error_count(
                        views[i],
                    ),
        {
            let ghost i = it.index() as int;
            let ghost before = res.deep_view();
            let ghost view = module.deep_view();
            let ghost any_before = any;
            let CachedModule {
                name,
                safety,
                imports,
                missing_imports,
                ambiguous_imports,
                side_effect_imports,
                function_safety,
                mutation_candidates,
            } = module;
            let mut here = false;
            let safety = match safety {
                CachedSafety::Checked(mut s) => {
                    here = retain_unverified_errors(&mut s, &verifier);
                    CachedSafety::Checked(s)
                },
                CachedSafety::AnalysisError { message } => CachedSafety::AnalysisError { message },
            };
            if here {
                any = true;
            }
            let module = CachedModule {
                name,
                safety,
                imports,
                missing_imports,
                ambiguous_imports,
                side_effect_imports,
                function_safety,
                mutation_candidates,
            };
            proof {
                assert(views[i] == view);
                assert(module.deep_view() == clear(view));
                assert(here <==> error_count(clear(view)) < error_count(view));
            }
            res.push(module);
            proof {
                let after = res.deep_view();
                assert(after =~= before.push(clear(view)));
                assert(after =~= views.take(i + 1).map_values(clear));
                if any_before {
                    let j = choose|j: int|
                        0 <= j < before.len() && error_count(#[trigger] before[j]) < error_count(views[j]);
                    assert(after[j] == before[j]);
                }
                if here {
                    assert(error_count(after[i]) < error_count(views[i]));
                }
                if exists|j: int|
                    0 <= j < after.len() && error_count(#[trigger] after[j]) < error_count(views[j]) {
                    let j = choose|j: int|
                        0 <= j < after.len() && error_count(#[trigger] after[j]) < error_count(views[j]);
                    if j < i {
                        assert(before[j] == after[j]);
                    }
                }
            }
        }
        proof {
            assert(views.take(views.len() as int) =~= views);
        }
        self.modules = res;
        any
    }
}

impl LibraryCache {
    /// Looks for the missing imports of a module among the known modules, and drops the errors
    /// that come from calls which are verified with what was found.
    fn link_module(
        module: CachedModule,
        found: Option<&NameSet>,
        module_names: &NameSet,
        table: &FunctionTable,
    ) -> (res: CachedModule)
        ensures
            res.deep_view() == linked(
                module.deep_view(),
                match found {
                    Some(set) => set@,
                    None => Set::empty(),
                },
                module_names@,
                verdicts(table),
            ),
    {
        let ghost before = module.deep_view();
        let CachedModule {
            name,
            safety,
            mut imports,
            missing_imports,
            ambiguous_imports,
            side_effect_imports,
            function_safety,
            mutation_candidates,
        } = module;
        let (more, still_missing) = split_known(&missing_imports, module_names);
        imports.extend(&more);
        let mut resolved = NameSet::new();
        if let Some(set) = found {
            resolved.extend(set);
        }
        let ghost first = resolved@;
        resolved.extend(&more);
        let ghost from = match found {
            Some(set) => set@,
            None => Set::empty(),
        };
        proof {
            assert(first =~= from);
        }
        let verifier = SearchVerifier { modules: &resolved, table };
        let safety = match safety {
            CachedSafety::Checked(mut s) => {
                let ghost s0 = s.deep_view();
                resolve_implicit_imports(&mut s.implicit_imports, module_names);
                let _ = retain_unverified_errors(&mut s, &verifier);
                proof {
                    let by_search = |name: Seq<char>|
                        search_verifies(resolved@, verdicts(table), name);
                    assert((|name: Seq<char>| verifier.verifies(name)) =~= by_search);
                    assert(s.deep_view() == linked_safety(s0, resolved@, module_names@, verdicts(table)));
                }
                CachedSafety::Checked(s)
            },
            CachedSafety::AnalysisError { message } => CachedSafety::AnalysisError { message },
        };
        CachedModule {
            name,
            safety,
            imports,
            missing_imports: still_missing,
            ambiguous_imports,
            side_effect_imports,
            function_safety,
            mutation_candidates,
        }
    }

    /// Settles the candidates of all modules, and adds the errors that they turned out to be. The
    /// result says whether a function turned out to be safe.
    fn resolve_mutation_candidates(
        &mut self,
        module_names: &NameSet,
        func_safety_by_module: &mut FunctionTable,
    ) -> (res: bool)
        ensures
            ({
                let resolution = resolve_modules(
                    Resolution {
                        table: verdicts(old(func_safety_by_module)),
                        errors: Seq::empty(),
                        found_safe: false,
                    },
                    module_names@,
                    old(self).deep_view().modules,
                );
                &&& res == resolution.found_safe
                &&& verdicts(final(func_safety_by_module)) == resolution.table
                &&& final(self).deep_view().modules == old(self).deep_view().modules.map_values(
                    |m: CachedModuleView| with_scope_errors(m, resolution.errors),
                )
                &&& final(self).exports == old(self).exports
            }),
    {
        let ghost start = Resolution {
            table: verdicts(func_safety_by_module),
            errors: Seq::empty(),
            found_safe: false,
        };
        let ghost views = self.deep_view().modules;
        let mut errors: Vec<(ModuleName, String)> = Vec::new();
        let mut found_safe = false;
        proof {
            assert(views.take(0) =~= Seq::empty());
            assert(scope_errors(errors@) =~= Seq::empty());
        }
        for i in 0..self.modules.len()
            invariant
                views == self.deep_view().modules,
                resolve_modules(start, module_names@, views.take(i as int)) == (Resolution {
                    table: verdicts(func_safety_by_module),
                    errors: scope_errors(errors@),
                    found_safe,
                }),
        {
            let ghost before = Resolution {
                table: verdicts(func_safety_by_module),
                errors: scope_errors(errors@),
                found_safe,
            };
            proof {
                assert(views.take(i + 1).drop_last() =~= views.take(i as int));
                assert(views.take(i + 1).last() == self.modules@[i as int].deep_view());
            }
            let module = &self.modules[i];
            let here = apply_mutation_candidates(
                &module.name,
                &module.mutation_candidates,
                module_names,
                func_safety_by_module,
                &mut errors,
            );
            proof {
                lemma_found_safe_stays(
                    before,
                    module_names@,
                    module.name@,
                    module.mutation_candidates.deep_view(),
                );
            }
            if here {
                found_safe = true;
            }
        }
        proof {
            assert(views.take(views.len() as int) =~= views);
        }
        self.add_scope_errors(&errors);
        found_safe
    }

    /// Adds to each module the errors that its candidates turned out to be.
    fn add_scope_errors(&mut self, errors: &Vec<(ModuleName, String)>)
        ensures
            final(self).deep_view().modules == old(self).deep_view().modules.map_values(
                |m: CachedModuleView| with_scope_errors(m, scope_errors(errors@)),
            ),
            final(self).exports == old(self).exports,
    {
        let mut modules: Vec<CachedModule> = Vec::new();
        std::mem::swap(&mut self.modules, &mut modules);
        let ghost views = modules.deep_view();
        let ghost items = modules@;
        let ghost all = scope_errors(errors@);
        let ghost extended = |m: CachedModuleView| with_scope_errors(m, all);
        let mut res: Vec<CachedModule> = Vec::new();
        proof {
            assert(views.take(0) =~= Seq::empty());
            assert(res.deep_view() =~= views.take(0).map_values(extended));
        }
        for module in it: modules
            invariant
                it.seq() == items,
                views == Seq::new(items.len(), |i: int| items[i].deep_view()),
                all == scope_errors(errors@),
                extended == (|m: CachedModuleView| with_scope_errors(m, all)),
                res.deep_view() == views.take(it.index() as int).map_values(extended),
        {
            let ghost i = it.index() as int;
            let ghost before = res.deep_view();
            let ghost view = module.deep_view();
            let CachedModule {
                name,
                safety,
                imports,
                missing_imports,
                ambiguous_imports,
                side_effect_imports,
                function_safety,
                mutation_candidates,
            } = module;
            let safety = match safety {
                CachedSafety::Checked(mut s) => {
                    let ghost s0 = s.deep_view();
                    proof {
                        assert(all.take(0) =~= Seq::empty());
                        assert(s0.errors + errors_of_module(all.take(0), name@) =~= s0.errors);
                    }
                    for k in 0..errors.len()
                        invariant
                            all == scope_errors(errors@),
                            s.deep_view() == (CachedSafetyView {
                                errors: s0.errors + errors_of_module(all.take(k as int), name@),
                                ..s0
                            }),
                    {
                        let ghost so_far = s.deep_view();
                        proof {
                            assert(all.take(k + 1).drop_last() =~= all.take(k as int));
                            assert(all.take(k + 1).last() == (errors@[k as int].0@, errors@[k as int].1@));
                        }
                        if errors[k].0.same(&name) {
                            let error = CachedError {
                                kind: ErrorKind::ImportedVarArgument,
                                metadata: errors[k].1.clone(),
                            };
                            let ghost e = error.deep_view();
                            s.errors.push(error);
                            proof {
                                assert(s.deep_view().errors =~= so_far.errors.push(e));
                                assert(s.deep_view().errors =~= s0.errors + errors_of_module(
                                    all.take(k + 1),
                                    name@,
                                ));
                            }
                        }
                    }
                    proof {
                        assert(all.take(all.len() as int) =~= all);
                    }
                    CachedSafety::Checked(s)
                },
                CachedSafety::AnalysisError { message } => CachedSafety::AnalysisError { message },
            };
            let module = CachedModule {
                name,
                safety,
                imports,
                missing_imports,
                ambiguous_imports,
                side_effect_imports,
                function_safety,
                mutation_candidates,
            };
            proof {
                assert(views[i] == view);
                assert(module.deep_view() == extended(view));
            }
            res.push(module);
            proof {
                assert(res.deep_view() =~= before.push(extended(view)));
                assert(res.deep_view() =~= views.take(i + 1).map_values(extended));
            }
        }
        proof {
            assert(views.take(views.len() as int) =~= views);
        }
        self.modules = res;
    }

    /// Promotes functions until no more can be promoted, and then drops the errors that are
    /// verified not to be any, where a function was promoted or `clear_errors` asks for it.
    fn upgrade_missing_dep_functions(
        &mut self,
        module_names: &NameSet,
        func_safety_by_module: &mut FunctionTable,
        clear_errors: bool,
    ) -> (res: Ghost<Set<(Seq<char>, Seq<char>)>>)
        ensures
            least_promotion(module_names@, verdicts(old(func_safety_by_module)), res@),
            verdicts(final(func_safety_by_module)) == promoted(
                verdicts(old(func_safety_by_module)),
                res@,
            ),
            final(self).exports == old(self).exports,
            final(self).deep_view().modules == (if clear_errors || !(res@ =~= Set::empty()) {
                old(self).deep_view().modules.map_values(
                    |m: CachedModuleView|
                        cleared(
                            m,
                            module_names@,
                            promoted(verdicts(old(func_safety_by_module)), res@),
                            promoted_index(
                                module_names@,
                                verdicts(old(func_safety_by_module)),
                                res@,
                            ),
                        ),
                )
            } else {
                old(self).deep_view().modules
            }),
    {
        let (list, globally_safe_funcs) = promote_fixpoint(module_names, func_safety_by_module);
        let ghost functions = attributes_of(list@).to_set();
        proof {
            if list@.len() > 0 {
                assert(functions.contains(attributes_of(list@)[0]));
            } else {
                assert(functions =~= Set::empty());
            }
        }
        if list.len() > 0 || clear_errors {
            let _ = self.clear_verified_errors(
                module_names,
                func_safety_by_module,
                &globally_safe_funcs,
            );
        }
        Ghost(functions)
    }

    /// Looks for the missing imports of each library in the others. Verdicts spread through
    /// re-exports, imports and candidates are settled, functions are promoted, and the errors go
    /// that are verified not to be any.
    pub fn resolve_cross_library_errors(&mut self)
        ensures
            old(self).deep_view().resolves_to(final(self).deep_view()),
    {
        let ghost before = self.deep_view();
        let ghost known = before.known();
        let module_names = self.module_name_set();
        let ambiguous_resolved = self.resolve_ambiguous_imports(&module_names);
        let ghost settled_modules = self.deep_view().modules;
        let mut table = self.take_functions();
        let ghost bare = self.deep_view().modules;
        proof {
            lemma_table_ignores_imports(before.modules, known);
            assert(verdicts(&table) == function_table(before.modules));
        }
        spread_verdicts(&mut table, &self.exports.re_exports, &module_names);
        let ghost spread = verdicts(&table);
        let mut modules: Vec<CachedModule> = Vec::new();
        std::mem::swap(&mut self.modules, &mut modules);
        let ghost items = modules@;
        let ghost linked_bare = |i: int|
            linked(bare[i], settled_imports(before.modules, known, bare[i].name), known, spread);
        let mut res: Vec<CachedModule> = Vec::new();
        proof {
            assert(res.deep_view() =~= Seq::new(0, linked_bare));
        }
        for module in it: modules
            invariant
                it.seq() == items,
                bare == Seq::new(items.len(), |i: int| items[i].deep_view()),
                known == module_names@,
                spread == verdicts(&table),
                forall|name: Seq<char>|
                    set_at(ambiguous_resolved.deep_view(), name) == #[trigger] settled_imports(
                        before.modules,
                        known,
                        name,
                    ),
                linked_bare == (|i: int|
                    linked(bare[i], settled_imports(before.modules, known, bare[i].name), known, spread)),
                res.deep_view() == Seq::new(it.index() as nat, linked_bare),
        {
            let ghost i = it.index() as int;
            let ghost so_far = res.deep_view();
            let ghost view = module.deep_view();
            let name = module.name.clone();
            let found = crate::name_sets::names_at(&ambiguous_resolved, &name);
            proof {
                assert(bare[i] == view);
                assert(set_at(ambiguous_resolved.deep_view(), view.name) == settled_imports(
                    before.modules,
                    known,
                    view.name,
                ));
            }
            let module = LibraryCache::link_module(module, found, &module_names, &table);
            proof {
                assert(module.deep_view() == linked_bare(i));
            }
            res.push(module);
            proof {
                assert(res.deep_view() =~= so_far.push(linked_bare(i)));
                assert(res.deep_view() =~= Seq::new((i + 1) as nat, linked_bare));
            }
        }
        proof {
            assert(res.deep_view() == Seq::new(bare.len(), linked_bare));
        }
        self.modules = res;
        let ghost after_linking = self.deep_view().modules;
        proof {
            assert(bare.len() == before.modules.len());
            assert(after_linking.len() == before.modules.len());
            assert forall|i: int| 0 <= i < after_linking.len() implies {
                &&& (#[trigger] after_linking[i]) == bare_of(before.linked_modules(spread)[i])
                &&& after_linking[i].name == before.modules[i].name
                &&& after_linking[i].mutation_candidates == before.modules[i].mutation_candidates
                &&& after_linking[i].function_safety == Map::<Seq<char>, FunctionInfoView>::empty()
            } by {
                assert(after_linking[i] == linked_bare(i));
                assert(settled_modules[i] == disambiguated(before.modules[i], known));
                assert(bare[i] == bare_of(settled_modules[i]));
            }
        }
        let found_safe = self.resolve_mutation_candidates(&module_names, &mut table);
        let ghost resolution = before.resolution(spread);
        proof {
            lemma_candidates_stay(
                Resolution { table: spread, errors: Seq::empty(), found_safe: false },
                known,
                before.modules,
                after_linking,
            );
            assert(verdicts(&table) == resolution.table);
        }
        let promotion = self.upgrade_missing_dep_functions(&module_names, &mut table, found_safe);
        let ghost functions = promotion@;
        let ghost cleared_bare = self.deep_view().modules;
        proof {
            assert forall|i: int| 0 <= i < cleared_bare.len() implies (
            #[trigger] cleared_bare[i]).function_safety =~= Map::empty() by {
                assert(after_linking[i].function_safety =~= Map::empty());
            }
        }
        self.give_back_functions(table);
        proof {
            let last = promoted(resolution.table, functions);
            let index = promoted_index(known, resolution.table, functions);
            let modules = before.linked_modules(spread).map_values(
                |m: CachedModuleView| with_scope_errors(m, resolution.errors),
            );
            let clean = if resolution.found_safe || !(functions =~= Set::empty()) {
                modules.map_values(|m: CachedModuleView| cleared(m, known, last, index))
            } else {
                modules
            };
            assert(clean.len() == cleared_bare.len());
            assert forall|i: int| 0 <= i < clean.len() implies bare_of(#[trigger] clean[i])
                == cleared_bare[i] by {
                assert(bare_of(modules[i]) == with_scope_errors(after_linking[i], resolution.errors));
            }
            assert(module_names_of(clean) =~= module_names_of(cleared_bare)) by {
                assert forall|i: int| 0 <= i < clean.len() implies module_names_of(clean)[i]
                    == module_names_of(cleared_bare)[i] by {
                    assert(bare_of(clean[i]) == cleared_bare[i]);
                }
            }
            assert(self.deep_view().modules =~= before.resolved_modules(spread, functions)) by {
                assert forall|i: int| 0 <= i < clean.len() implies given_back(clean, i, last)
                    == given_back(cleared_bare, i, last) by {
                    assert(bare_of(clean[i]) == cleared_bare[i]);
                }
            }
            assert(before.resolves_with(self.deep_view(), spread, functions));
        }
    }
}

/// A module without what is known of its functions.
spec fn bare_of(m: CachedModuleView) -> CachedModuleView {
    CachedModuleView { function_safety: Map::empty(), ..m }
}

/// That a function was found to be safe stays so, and what is found does not depend on it.
proof fn lemma_found_safe_stays(
    before: Resolution,
    known: Set<Seq<char>>,
    module: Seq<char>,
    candidates: Seq<crate::module_safety::CandidateView>,
)
    ensures
        ({
            let fresh = Resolution { found_safe: false, ..before };
            let a = resolve_candidates(before, known, module, candidates);
            let b = resolve_candidates(fresh, known, module, candidates);
            &&& a.table == b.table
            &&& a.errors == b.errors
            &&& a.found_safe == (before.found_safe || b.found_safe)
        }),
    decreases candidates.len(),
{
    if candidates.len() > 0 {
        lemma_found_safe_stays(before, known, module, candidates.drop_last());
    }
}

/// What comes of candidates depends only on the names and the candidates of modules.
proof fn lemma_candidates_stay(
    start: Resolution,
    known: Set<Seq<char>>,
    a: Seq<CachedModuleView>,
    b: Seq<CachedModuleView>,
)
    requires
        a.len() == b.len(),
        forall|i: int|
            0 <= i < a.len() ==> (#[trigger] a[i]).name == b[i].name && a[i].mutation_candidates
                == b[i].mutation_candidates,
    ensures
        resolve_modules(start, known, a) == resolve_modules(start, known, b),
    decreases a.len(),
{
    if a.len() > 0 {
        assert forall|i: int| 0 <= i < a.drop_last().len() implies (#[trigger] a.drop_last()[i]).name
            == b.drop_last()[i].name && a.drop_last()[i].mutation_candidates
            == b.drop_last()[i].mutation_candidates by {
            assert(a.drop_last()[i] == a[i]);
        }
        lemma_candidates_stay(start, known, a.drop_last(), b.drop_last());
        assert(a[a.len() - 1].name == b[b.len() - 1].name);
    }
}

/// What is known of functions does not depend on imports.
proof fn lemma_table_ignores_imports(modules: Seq<CachedModuleView>, known: Set<Seq<char>>)
    ensures
        function_table(modules.map_values(|m: CachedModuleView| disambiguated(m, known)))
            == function_table(modules),
    decreases modules.len(),
{
    let other = modules.map_values(|m: CachedModuleView| disambiguated(m, known));
    if modules.len() > 0 {
        lemma_table_ignores_imports(modules.drop_last(), known);
        assert(other.drop_last() =~= modules.drop_last().map_values(
            |m: CachedModuleView| disambiguated(m, known),
        ));
    }
}

/// A function is promoted only if what it was found unsafe for were calls of functions outside of its
/// library, and every one of these is verified in the end.
pub proof fn promoted_functions_call_verified_ones(
    known: Set<Seq<char>>,
    table: Verdicts,
    functions: Set<(Seq<char>, Seq<char>)>,
    f: (Seq<char>, Seq<char>),
)
    requires
        least_promotion(known, table, functions),
        functions.contains(f),
    ensures
        promotable(table[f], known, promoted(table, functions), promoted_index(known, table, functions)),
{
    let justified = |g: (Seq<char>, Seq<char>)|
        functions.contains(g) && promotable(
            table[g],
            known,
            promoted(table, functions),
            promoted_index(known, table, functions),
        );
    let fewer = Set::new(justified);
    assert(fewer.subset_of(functions));
    assert forall|g: (Seq<char>, Seq<char>)| !#[trigger] promotable_after(known, table, fewer, g) by {
        if promotable_after(known, table, fewer, g) {
            assert(!fewer.contains(g));
            assert(promoted(table, fewer)[g] == table[g]);
            assert forall|c: Seq<char>| #[trigger] table[g].missing_dep_callees.contains(c) implies verified(
                c,
                known,
                promoted(table, functions),
                promoted_index(known, table, functions).contains(c),
            ) by {
                verified_grows(c, known, table, fewer, functions);
            }
            if !functions.contains(g) {
                assert(promoted(table, functions)[g] == table[g]);
                assert(promotable_after(known, table, functions, g));
            }
        }
    }
    assert(settled(known, table, fewer));
    assert(functions.subset_of(fewer));
}

/// Looking for imports in other libraries renames no module and hides no failure, and of the errors
/// of a module only those go that come from a call which is verified. Those that are new are of
/// imported objects that a call changes.
pub proof fn only_verified_errors_go(
    before: CacheView,
    after: CacheView,
    table: Verdicts,
    functions: Set<(Seq<char>, Seq<char>)>,
    i: int,
    e: (ErrorKind, Seq<char>),
)
    requires
        before.resolves_with(after, table, functions),
        0 <= i < before.modules.len(),
    ensures
        after.modules.len() == before.modules.len(),
        after.modules[i].name == before.modules[i].name,
        match (before.modules[i].safety, after.modules[i].safety) {
            (OutcomeView::Failed(a), OutcomeView::Failed(b)) => a == b,
            (OutcomeView::Checked(a), OutcomeView::Checked(b)) => {
                &&& a.overrides == b.overrides
                &&& b.errors.contains(e) ==> a.errors.contains(e) || e.0 == ErrorKind::ImportedVarArgument
                &&& a.errors.contains(e) && !b.errors.contains(e) ==> e.0.may_lack_import() && (
                search_verifies(
                    settled_imports(before.modules, before.known(), before.modules[i].name).union(
                        known_targets(before.modules[i].missing_imports, before.known()),
                    ),
                    table,
                    without_brackets(e.1),
                ) || index_verifies(
                    before.known(),
                    promoted(before.resolution(table).table, functions),
                    promoted_index(before.known(), before.resolution(table).table, functions),
                    without_brackets(e.1),
                ))
            },
            _ => false,
        },
{
    let known = before.known();
    let resolution = before.resolution(table);
    let m = before.modules[i];
    let settled = disambiguated(m, known);
    let found = settled_imports(before.modules, known, m.name);
    let link = linked(settled, found, known, table);
    let with_errors = with_scope_errors(link, resolution.errors);
    let last = promoted(resolution.table, functions);
    let index = promoted_index(known, resolution.table, functions);
    if m.safety is Checked {
        let a = m.safety->Checked_0;
        let more = known_targets(m.missing_imports, known);
        let by_search = |name: Seq<char>| search_verifies(found.union(more), table, name);
        let by_index = |name: Seq<char>| index_verifies(known, last, index, name);
        let kept = |x: (ErrorKind, Seq<char>)| stays(x, by_search);
        let cleared_kept = |x: (ErrorKind, Seq<char>)| stays(x, by_index);
        let first = a.errors.filter(kept);
        let added = errors_of_module(resolution.errors, m.name);
        lemma_only_arguments(resolution.errors, m.name);
        lemma_in_filter(a.errors, kept, e);
        lemma_in_filter(first + added, cleared_kept, e);
        assert(link.safety->Checked_0.errors == first);
        assert(with_errors.safety->Checked_0.errors == first + added);
        if first.contains(e) {
            let k = first.index_of(e);
            assert((first + added)[k] == e);
        }
        if added.contains(e) {
            let k = added.index_of(e);
            assert((first + added)[first.len() + k] == e);
        }
        if (first + added).contains(e) {
            let k = (first + added).index_of(e);
            if k < first.len() {
                assert(first[k] == e);
            } else {
                assert(added[k - first.len()] == e);
            }
        }
    }
}

/// The errors that candidates turn out to be are all of one kind.
proof fn lemma_only_arguments(errors: Seq<(Seq<char>, Seq<char>)>, name: Seq<char>)
    ensures
        forall|k: int|
            0 <= k < errors_of_module(errors, name).len() ==> (#[trigger] errors_of_module(errors, name)[k]).0
                == ErrorKind::ImportedVarArgument,
    decreases errors.len(),
{
    if errors.len() > 0 {
        lemma_only_arguments(errors.drop_last(), name);
    }
}

/// What a filter leaves.
proof fn lemma_in_filter<T>(s: Seq<T>, pred: spec_fn(T) -> bool, x: T)
    ensures
        s.filter(pred).contains(x) <==> s.contains(x) && pred(x),
    decreases s.len(),
{
    reveal(Seq::filter);
    if s.len() > 0 {
        let rest = s.drop_last();
        lemma_in_filter(rest, pred, x);
        if s.contains(x) {
            let k = s.index_of(x);
            if k < rest.len() {
                assert(rest[k] == x);
            }
        }
        if rest.contains(x) {
            let k = rest.index_of(x);
            assert(s[k] == x);
        }
        assert(s[s.len() - 1] == s.last());
        let f = rest.filter(pred);
        if pred(s.last()) {
            assert(s.filter(pred) == f.push(s.last()));
            if f.contains(x) {
                assert(f.push(s.last())[f.index_of(x)] == x);
            }
            assert(f.push(s.last())[f.len() as int] == s.last());
            if f.push(s.last()).contains(x) {
                let k = f.push(s.last()).index_of(x);
                if k < f.len() {
                    assert(f[k] == x);
                }
            }
        }
    }
}

} // verus!
