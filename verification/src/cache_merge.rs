//! How caches are made, put together and read back.

use crate::attribute::{module_part, AttrMap};
use crate::cache::{function_table, module_names_of, CacheView, LibraryCache};
use crate::cached_exports::CachedExportsView;
use crate::cached_module::{
    cached_less, lemma_cached_order, strict_text_order, strictly_sorted, CachedModule, CachedModuleView,
};
use crate::errors::ErrorKind;
use crate::module_name::{in_text_order, text_less, text_order_is_total, ModuleName};
use crate::module_safety::{copy_functions, FunctionSafetyInfo, SafetyResult};
use crate::name_map::{into_sorted, names_of, NameMap};
use crate::name_set::NameSet;
use crate::spread::{
    lemma_spread_modules, spread_from, spread_to, spread_verdicts, spreading_again_changes_nothing,
};
use crate::verbose::sorted_names_are_determined;
use crate::verdicts::{verdicts, FunctionTable, Verdicts};
use vstd::prelude::*;

verus! {

/// What became of each module.
pub type SafetyMap = NameMap<SafetyResult>;

/// The modules of several caches, one cache behind the other.
pub open spec fn all_modules(caches: Seq<CacheView>) -> Seq<CachedModuleView>
    decreases caches.len(),
{
    if caches.len() == 0 {
        Seq::empty()
    } else {
        all_modules(caches.drop_last()) + caches.last().modules
    }
}

/// The exports of several caches behind those of a first one.
pub open spec fn all_exports(first: CachedExportsView, caches: Seq<CacheView>) -> CachedExportsView
    decreases caches.len(),
{
    if caches.len() == 0 {
        first
    } else {
        all_exports(first, caches.drop_last()).joined(caches.last().exports)
    }
}

/// The modules of a name, in order.
pub open spec fn named(modules: Seq<CachedModuleView>, name: Seq<char>) -> Seq<CachedModuleView> {
    modules.filter(|m: CachedModuleView| m.name == name)
}

/// A module is what several caches of it come to, merged one after the other.
pub open spec fn merged_from(module: CachedModuleView, parts: Seq<CachedModuleView>) -> bool
    decreases parts.len(),
{
    if parts.len() == 0 {
        false
    } else if parts.len() == 1 {
        module == parts[0]
    } else {
        exists|earlier: CachedModuleView| #[trigger]
            module.is_merge(earlier, parts.last()) && merged_from(earlier, parts.drop_last())
    }
}

/// Merging never makes a module safer: that one cache could not analyze it outweighs everything,
/// and an error of one cache is an error of the result. An import is missing only where both
/// caches miss it.
pub proof fn merging_is_conservative(module: CachedModuleView, a: CachedModuleView, b: CachedModuleView)
    requires
        module.is_merge(a, b),
    ensures
        a.safety is Failed || b.safety is Failed ==> module.safety is Failed,
        module.is_safe() ==> a.is_safe() && b.is_safe(),
        module.missing_imports.subset_of(a.missing_imports),
        module.missing_imports.subset_of(b.missing_imports),
        a.imports.subset_of(module.imports),
        b.imports.subset_of(module.imports),
{
    if module.is_safe() {
        let z = module.safety->Checked_0;
        let x = a.safety->Checked_0;
        let y = b.safety->Checked_0;
        assert(z.errors.to_set() =~= Set::empty());
        if x.errors.len() > 0 {
            assert(x.errors.to_set().contains(x.errors[0]));
            assert(z.errors.to_set().contains(x.errors[0]));
        }
        if y.errors.len() > 0 {
            assert(y.errors.to_set().contains(y.errors[0]));
            assert(z.errors.to_set().contains(y.errors[0]));
        }
    }
}

/// Errors in strict order are determined by what they are.
proof fn lemma_sorted_errors(a: Seq<(ErrorKind, Seq<char>)>, b: Seq<(ErrorKind, Seq<char>)>)
    requires
        strictly_sorted(a),
        strictly_sorted(b),
        forall|e: (ErrorKind, Seq<char>)| a.contains(e) <==> b.contains(e),
    ensures
        a == b,
    decreases a.len(),
{
    if a.len() == 0 {
        if b.len() > 0 {
            assert(b.contains(b[0]));
        }
        assert(a =~= b);
    } else {
        assert(a.contains(a.last()));
        let i = b.index_of(a.last());
        assert(b.contains(b.last()));
        let j = a.index_of(b.last());
        lemma_cached_order(a.last(), b.last(), a.last());
        lemma_cached_order(b.last(), a.last(), b.last());
        if i < b.len() - 1 {
            assert(cached_less(b[i], b[b.len() - 1]));
            if j < a.len() - 1 {
                assert(cached_less(a[j], a[a.len() - 1]));
            }
        }
        assert(a.last() == b.last());
        let fewer_a = a.drop_last();
        let fewer_b = b.drop_last();
        assert forall|e: (ErrorKind, Seq<char>)| fewer_a.contains(e) <==> fewer_b.contains(e) by {
            lemma_cached_order(a.last(), a.last(), a.last());
            if fewer_a.contains(e) {
                let k = fewer_a.index_of(e);
                assert(a[k] == e);
                assert(cached_less(a[k], a[a.len() - 1]));
                assert(b.contains(e));
                let m = b.index_of(e);
                assert(m < b.len() - 1);
                assert(fewer_b[m] == e);
            }
            if fewer_b.contains(e) {
                let k = fewer_b.index_of(e);
                assert(b[k] == e);
                assert(cached_less(b[k], b[b.len() - 1]));
                assert(a.contains(e));
                let m = a.index_of(e);
                assert(m < a.len() - 1);
                assert(fewer_a[m] == e);
            }
        }
        lemma_sorted_errors(fewer_a, fewer_b);
        assert(a =~= fewer_a.push(a.last()));
        assert(b =~= fewer_b.push(b.last()));
    }
}

proof fn lemma_same_members(
    a: Seq<(ErrorKind, Seq<char>)>,
    b: Seq<(ErrorKind, Seq<char>)>,
)
    requires
        strictly_sorted(a),
        strictly_sorted(b),
        a.to_set() == b.to_set(),
    ensures
        a == b,
{
    assert forall|e: (ErrorKind, Seq<char>)| a.contains(e) <==> b.contains(e) by {
        assert(a.to_set().contains(e) <==> b.to_set().contains(e));
    }
    lemma_sorted_errors(a, b);
}

/// It does not matter which of two caches of a module is merged into the other, as far as its errors
/// and its imports go, where both could analyze it.
pub proof fn merging_either_way_is_the_same(
    one: CachedModuleView,
    other: CachedModuleView,
    a: CachedModuleView,
    b: CachedModuleView,
)
    requires
        a.name == b.name,
        a.safety is Checked,
        b.safety is Checked,
        one.is_merge(a, b),
        other.is_merge(b, a),
    ensures
        one.name == other.name,
        one.safety == other.safety,
        one.imports == other.imports,
        one.missing_imports == other.missing_imports,
        one.ambiguous_imports == other.ambiguous_imports,
        one.side_effect_imports == other.side_effect_imports,
{
    let x = one.safety->Checked_0;
    let y = other.safety->Checked_0;
    assert(x.errors.to_set() =~= y.errors.to_set());
    assert(x.overrides.to_set() =~= y.overrides.to_set());
    assert(x.implicit_imports.to_set() =~= y.implicit_imports.to_set());
    lemma_same_members(x.errors, y.errors);
    lemma_same_members(x.overrides, y.overrides);
    lemma_strict_texts(x.implicit_imports);
    lemma_strict_texts(y.implicit_imports);
    sorted_names_are_determined(x.implicit_imports.to_set(), x.implicit_imports, y.implicit_imports);
    assert(one.imports =~= other.imports);
    assert(one.missing_imports =~= other.missing_imports);
    assert(one.ambiguous_imports =~= other.ambiguous_imports);
    assert(one.side_effect_imports =~= other.side_effect_imports);
}

/// Names in strict order are in order, and none is there twice.
proof fn lemma_strict_texts(names: Seq<Seq<char>>)
    requires
        strict_text_order(names),
    ensures
        in_text_order(names),
        names.no_duplicates(),
{
    assert forall|i: int, j: int| 0 <= i < names.len() && 0 <= j < names.len() && i != j implies names[i]
        != names[j] by {
        text_order_is_total(names[i], names[j]);
        if i < j {
            assert(text_less(names[i], names[j]));
        } else {
            assert(text_less(names[j], names[i]));
        }
    }
    assert forall|i: int, j: int| 0 <= i < j < names.len() implies !text_less(
        #[trigger] names[j],
        #[trigger] names[i],
    ) by {
        text_order_is_total(names[i], names[j]);
    }
}

proof fn lemma_named_push(modules: Seq<CachedModuleView>, m: CachedModuleView, name: Seq<char>)
    ensures
        named(modules.push(m), name) == (if m.name == name {
            named(modules, name).push(m)
        } else {
            named(modules, name)
        }),
{
    reveal(Seq::filter);
    assert(modules.push(m).drop_last() =~= modules);
}

/// A map of modules is what a sequence of them comes to.
spec fn gathers(map: Map<Seq<char>, CachedModule>, modules: Seq<CachedModuleView>) -> bool {
    &&& forall|name: Seq<char>| #[trigger]
        map.contains_key(name) ==> map[name].deep_view().name == name && merged_from(
            map[name].deep_view(),
            named(modules, name),
        )
    &&& forall|name: Seq<char>| #[trigger]
        map.contains_key(name) <==> module_names_of(modules).contains(name)
}

/// Adds a module to those that were gathered.
fn gather(map: &mut NameMap<CachedModule>, module: CachedModule, Ghost(so_far): Ghost<Seq<CachedModuleView>>)
    requires
        gathers(old(map)@, so_far),
    ensures
        gathers(final(map)@, so_far.push(module.deep_view())),
{
    let ghost before = map@;
    let ghost view = module.deep_view();
    let ghost all = so_far.push(view);
    proof {
        reveal(Seq::filter);
        assert forall|name: Seq<char>| #[trigger] module_names_of(all).contains(name) <==> module_names_of(
            so_far,
        ).contains(name) || name == view.name by {
            let names = module_names_of(so_far);
            assert(module_names_of(all) =~= names.push(view.name));
            if names.contains(name) {
                assert(names.push(view.name)[names.index_of(name)] == name);
            }
            assert(names.push(view.name)[names.len() as int] == view.name);
        }
        assert forall|name: Seq<char>| #[trigger] before.contains_key(name) implies named(so_far, name).len()
            > 0 by {
            assert(merged_from(before[name].deep_view(), named(so_far, name)));
        }
    }
    match map.position(module.name.as_str()) {
        Some(i) => {
            let mut known = map.replace_at(i, CachedModule::empty(module.name.clone()));
            let ghost earlier = known.deep_view();
            known.merge(module);
            let ghost result = known.deep_view();
            let _ = map.replace_at(i, known);
            proof {
                lemma_named_push(so_far, view, view.name);
                let parts = named(all, view.name);
                assert(parts.drop_last() =~= named(so_far, view.name));
                assert(before.contains_key(view.name));
                assert(named(so_far, view.name).len() > 0);
                assert(parts.last() == view);
                assert(merged_from(earlier, parts.drop_last()));
                assert(result.is_merge(earlier, parts.last()));
                assert(merged_from(result, parts));
            }
        },
        None => {
            let name = module.name.clone();
            let _ = map.insert(name, module);
            proof {
                lemma_named_push(so_far, view, view.name);
                lemma_none_named(so_far, view.name);
                assert(named(all, view.name) =~= seq![view]);
            }
        },
    }
    proof {
        assert forall|name: Seq<char>| #[trigger] map@.contains_key(name) implies map@[name].deep_view().name
            == name && merged_from(map@[name].deep_view(), named(all, name)) by {
            lemma_named_push(so_far, view, name);
            if name != view.name {
                assert(before.contains_key(name));
            }
        }
    }
}

proof fn lemma_none_named(modules: Seq<CachedModuleView>, name: Seq<char>)
    requires
        !module_names_of(modules).contains(name),
    ensures
        named(modules, name).len() == 0,
    decreases modules.len(),
{
    reveal(Seq::filter);
    if modules.len() > 0 {
        let fewer = modules.drop_last();
        let names = module_names_of(modules);
        assert(!module_names_of(fewer).contains(name)) by {
            if module_names_of(fewer).contains(name) {
                let i = module_names_of(fewer).index_of(name);
                assert(names[i] == name);
            }
        }
        lemma_none_named(fewer, name);
        assert(names[modules.len() - 1] != name);
    }
}

/// The modules of a map, in the order of their names.
fn sorted_modules(map: NameMap<CachedModule>, Ghost(all): Ghost<Seq<CachedModuleView>>) -> (res: Vec<
    CachedModule,
>)
    requires
        gathers(map@, all),
    ensures
        strict_text_order(module_names_of(res.deep_view())),
        module_names_of(res.deep_view()).to_set() == module_names_of(all).to_set(),
        forall|i: int|
            0 <= i < res@.len() ==> merged_from(
                #[trigger] res.deep_view()[i],
                named(all, res.deep_view()[i].name),
            ),
{
    let ghost gathered = map@;
    let entries = into_sorted(map);
    let ghost listed = entries@;
    let mut res: Vec<CachedModule> = Vec::new();
    for entry in it: entries
        invariant
            it.seq() == listed,
            res@ == listed.take(it.index() as int).map_values(|e: (ModuleName, CachedModule)| e.1),
    {
        let ghost i = it.index() as int;
        let (_, module) = entry;
        res.push(module);
        proof {
            assert(listed[i] == entry);
            assert(res@ =~= listed.take(i + 1).map_values(|e: (ModuleName, CachedModule)| e.1));
        }
    }
    proof {
        assert(listed.take(listed.len() as int) =~= listed);
        let views = res.deep_view();
        let names = module_names_of(views);
        assert forall|i: int| 0 <= i < views.len() implies names[i] == (#[trigger] listed[i]).0@ && views[i]
            == gathered[listed[i].0@].deep_view() by {
            assert(gathered.contains_key(listed[i].0@));
        }
        assert forall|i: int, j: int| 0 <= i < j < names.len() implies crate::module_name::text_less(
            #[trigger] names[i],
            #[trigger] names[j],
        ) by {
            assert(crate::module_name::text_less(listed[i].0@, listed[j].0@));
        }
        assert forall|n: Seq<char>| names.to_set().contains(n) <==> module_names_of(all).to_set().contains(n) by {
            if names.contains(n) {
                let i = names.index_of(n);
                assert(gathered.contains_key(listed[i].0@));
            }
            if module_names_of(all).contains(n) {
                assert(gathered.contains_key(n));
                let i = names_of(listed).index_of(n);
                assert(listed[i].0@ == n);
                assert(names[i] == n);
            }
        }
        assert(names.to_set() =~= module_names_of(all).to_set());
        assert forall|i: int| 0 <= i < res@.len() implies merged_from(
            #[trigger] views[i],
            named(all, views[i].name),
        ) by {
            assert(gathered.contains_key(listed[i].0@));
        }
    }
    res
}

impl LibraryCache {
    /// Adds the caches of other libraries. A module that several of them have is merged.
    pub fn merge_dep_caches(&mut self, dep_caches: Vec<LibraryCache>)
        ensures
            ({
                let all = old(self).deep_view().modules + all_modules(dep_caches.deep_view());
                let after = final(self).deep_view();
                &&& strict_text_order(module_names_of(after.modules))
                &&& module_names_of(after.modules).to_set() == module_names_of(all).to_set()
                &&& forall|i: int|
                    0 <= i < after.modules.len() ==> merged_from(
                        #[trigger] after.modules[i],
                        named(all, after.modules[i].name),
                    )
                &&& after.exports.is_tidied(
                    all_exports(old(self).deep_view().exports, dep_caches.deep_view()),
                )
            }),
    {
        let ghost first = self.deep_view();
        let ghost views = dep_caches.deep_view();
        let ghost deps = dep_caches@;
        let mut map: NameMap<CachedModule> = NameMap::new();
        let mut modules: Vec<CachedModule> = Vec::new();
        std::mem::swap(&mut self.modules, &mut modules);
        let ghost items = modules@;
        proof {
            reveal(Seq::filter);
            assert(first.modules.take(0) =~= Seq::empty());
            assert(module_names_of(Seq::empty()) =~= Seq::<Seq<char>>::empty());
        }
        for module in it: modules
            invariant
                it.seq() == items,
                first.modules == Seq::new(items.len(), |i: int| items[i].deep_view()),
                gathers(map@, first.modules.take(it.index() as int)),
        {
            let ghost i = it.index() as int;
            let ghost so_far = first.modules.take(i);
            proof {
                assert(first.modules[i] == module.deep_view());
                crate::name_set::lemma_take_more(first.modules, i);
            }
            gather(&mut map, module, Ghost(so_far));
        }
        proof {
            assert(first.modules.take(first.modules.len() as int) =~= first.modules);
            assert(views.take(0) =~= Seq::empty());
            assert(first.modules + all_modules(views.take(0)) =~= first.modules);
        }
        for dep in it: dep_caches
            invariant
                it.seq() == deps,
                views == Seq::new(deps.len(), |i: int| deps[i].deep_view()),
                gathers(map@, first.modules + all_modules(views.take(it.index() as int))),
                self.exports.deep_view() == all_exports(first.exports, views.take(it.index() as int)),
        {
            let ghost i = it.index() as int;
            let ghost dep_view = dep.deep_view();
            let ghost base = first.modules + all_modules(views.take(i));
            proof {
                assert(views[i] == dep_view);
                assert(views.take(i + 1).drop_last() =~= views.take(i));
                assert(views.take(i + 1).last() == dep_view);
            }
            let LibraryCache { modules, exports } = dep;
            let ghost parts = modules.deep_view();
            let ghost items = modules@;
            proof {
                assert(base + parts.take(0) =~= base);
            }
            for module in it2: modules
                invariant
                    it2.seq() == items,
                    parts == Seq::new(items.len(), |i: int| items[i].deep_view()),
                    gathers(map@, base + parts.take(it2.index() as int)),
            {
                let ghost k = it2.index() as int;
                let ghost so_far = base + parts.take(k);
                proof {
                    assert(parts[k] == module.deep_view());
                    crate::name_set::lemma_take_more(parts, k);
                    assert(base + parts.take(k + 1) =~= so_far.push(parts[k]));
                }
                gather(&mut map, module, Ghost(so_far));
            }
            self.exports.merge(exports);
            proof {
                assert(parts.take(parts.len() as int) =~= parts);
                assert(base + parts =~= first.modules + all_modules(views.take(i + 1)));
            }
        }
        proof {
            assert(views.take(views.len() as int) =~= views);
        }
        let ghost all = first.modules + all_modules(views);
        self.modules = sorted_modules(map, Ghost(all));
        self.exports.sort_and_dedup();
    }
}

/// No later module has the same name.
pub open spec fn is_last_of_name(modules: Seq<CachedModuleView>, i: int) -> bool {
    forall|j: int| i < j < modules.len() ==> (#[trigger] modules[j]).name != modules[i].name
}

/// The modules once verdicts have spread through re-exports: the last module of each name has
/// what the table says.
pub open spec fn with_spread(modules: Seq<CachedModuleView>, table: Verdicts) -> Seq<CachedModuleView> {
    Seq::new(
        modules.len(),
        |i: int|
            if is_last_of_name(modules, i) {
                CachedModuleView { function_safety: module_part(table, modules[i].name), ..modules[i] }
            } else {
                modules[i]
            },
    )
}

/// One cache comes from another as verdicts spread through re-exports.
pub open spec fn propagates_to(before: CacheView, after: CacheView) -> bool {
    &&& after.exports == before.exports
    &&& exists|table: Verdicts| #[trigger] propagates_with(before, after, table)
}

/// One cache comes from another as verdicts spread through re-exports to the given table.
pub open spec fn propagates_with(before: CacheView, after: CacheView, table: Verdicts) -> bool {
    &&& spread_from(before.exports.re_exports, before.known(), function_table(before.modules), table)
    &&& spread_to(before.exports.re_exports, before.known(), function_table(before.modules), table)
    &&& after.modules == with_spread(before.modules, table)
}

impl LibraryCache {
    /// Spreads verdicts through re-exports: an attribute that is re-exported gets what is known
    /// of the function that it is imported from, where nothing is known of it yet or that
    /// function is safer, until nothing changes.
    pub fn propagate_re_export_safety(&mut self)
        ensures
            propagates_to(old(self).deep_view(), final(self).deep_view()),
    {
        let ghost views = self.deep_view().modules;
        let ghost names = module_names_of(views);
        let mut known = NameSet::new();
        let mut table: FunctionTable = AttrMap::new();
        let mut last: NameMap<usize> = NameMap::new();
        proof {
            assert(views.take(0) =~= Seq::empty());
            assert(names.take(0).to_set() =~= Set::empty());
            assert(verdicts(&table) =~= Map::empty());
        }
        for i in 0..self.modules.len()
            invariant
                views == self.deep_view().modules,
                names == module_names_of(views),
                known@ == names.take(i as int).to_set(),
                verdicts(&table) == function_table(views.take(i as int)),
                forall|name: Seq<char>| #[trigger]
                    last@.contains_key(name) ==> last@[name] < i && names[last@[name] as int] == name,
                forall|j: int|
                    0 <= j < i ==> last@.contains_key(#[trigger] names[j]) && last@[names[j]] >= j,
        {
            let module = &self.modules[i];
            let ghost before = table@;
            proof {
                crate::name_set::lemma_take_more(names, i as int);
                assert(views[i as int] == module.deep_view());
                assert(names[i as int] == module.name@);
                assert(views.take(i + 1).drop_last() =~= views.take(i as int));
                assert(views.take(i + 1).last() == views[i as int]);
            }
            let functions = copy_functions(&module.function_safety);
            let ghost part = functions@;
            table.set_module(module.name.clone(), functions);
            let _ = known.insert(module.name.clone());
            let _ = last.insert(module.name.clone(), i);
            proof {
                assert(part.map_values(|f: FunctionSafetyInfo| f.deep_view())
                    == views[i as int].function_safety);
                assert(verdicts(&table) =~= crate::attribute::with_module(
                    before.map_values(|f: FunctionSafetyInfo| f.deep_view()),
                    views[i as int].name,
                    views[i as int].function_safety,
                )) by {
                    assert forall|n: Seq<char>| part.contains_key(n) implies part[n].deep_view()
                        == views[i as int].function_safety[n] by {
                        assert(part.map_values(|f: FunctionSafetyInfo| f.deep_view())[n]
                            == part[n].deep_view());
                    }
                    assert(part.dom() =~= views[i as int].function_safety.dom());
                }
            }
        }
        proof {
            assert(views.take(views.len() as int) =~= views);
            assert(names.take(names.len() as int) =~= names);
        }
        spread_verdicts(&mut table, &self.exports.re_exports, &known);
        let ghost spread = verdicts(&table);
        let mut modules: Vec<CachedModule> = Vec::new();
        std::mem::swap(&mut self.modules, &mut modules);
        let ghost items = modules@;
        let mut res: Vec<CachedModule> = Vec::new();
        let mut i: usize = 0;
        let ghost wanted = with_spread(views, spread);
        for module in it: modules
            invariant
                it.seq() == items,
                i == it.index(),
                i <= items.len(),
                items.len() <= usize::MAX,
                views == Seq::new(items.len(), |i: int| items[i].deep_view()),
                names == module_names_of(views),
                wanted == with_spread(views, spread),
                res.deep_view() == wanted.take(i as int),
                forall|name: Seq<char>| #[trigger]
                    last@.contains_key(name) ==> last@[name] < items.len() && names[last@[name] as int]
                        == name,
                forall|j: int|
                    0 <= j < items.len() ==> last@.contains_key(#[trigger] names[j]) && last@[names[j]] >= j,
                verdicts(&table) == spread,
        {
            let ghost before = res.deep_view();
            let ghost view = module.deep_view();
            let mut module = module;
            proof {
                assert(views[i as int] == view);
                assert(names[i as int] == view.name);
            }
            let is_last = match last.get(&module.name) {
                Some(p) => *p == i,
                None => false,
            };
            proof {
                assert(last@.contains_key(names[i as int]));
                if last@[view.name] == i {
                    assert forall|j: int| i < j < views.len() implies (#[trigger] views[j]).name
                        != views[i as int].name by {
                        assert(last@[names[j]] >= j);
                    }
                    assert(is_last_of_name(views, i as int));
                } else {
                    assert(views[last@[view.name] as int].name == view.name);
                    assert(!is_last_of_name(views, i as int));
                }
            }
            if is_last {
                module.function_safety = match table.attrs_of(&module.name) {
                    Some(functions) => copy_functions(functions),
                    None => NameMap::new(),
                };
                proof {
                    lemma_part_views(table@, view.name);
                    assert(module.deep_view().function_safety =~= module_part(spread, view.name));
                }
            }
            proof {
                assert(module.deep_view() == wanted[i as int]);
            }
            res.push(module);
            proof {
                crate::name_set::lemma_take_more(wanted, i as int);
                assert(res.deep_view() =~= before.push(wanted[i as int]));
            }
            i = i + 1;
        }
        proof {
            assert(wanted.take(wanted.len() as int) =~= wanted);
        }
        self.modules = res;
        proof {
            assert(self.deep_view().modules == with_spread(old(self).deep_view().modules, spread));
            assert(propagates_with(old(self).deep_view(), self.deep_view(), spread));
        }
    }
}

proof fn lemma_part_views(table: Map<(Seq<char>, Seq<char>), FunctionSafetyInfo>, module: Seq<char>)
    ensures
        module_part(table, module).map_values(|f: FunctionSafetyInfo| f.deep_view()) == module_part(
            table.map_values(|f: FunctionSafetyInfo| f.deep_view()),
            module,
        ),
{
    assert(module_part(table, module).map_values(|f: FunctionSafetyInfo| f.deep_view()) =~= module_part(
        table.map_values(|f: FunctionSafetyInfo| f.deep_view()),
        module,
    ));
}

/// What is known of the functions of a module is what the last module of its name knows.
proof fn lemma_table_part(modules: Seq<CachedModuleView>, i: int)
    requires
        0 <= i < modules.len(),
        is_last_of_name(modules, i),
    ensures
        module_part(function_table(modules), modules[i].name) == modules[i].function_safety,
    decreases modules.len(),
{
    let fewer = modules.drop_last();
    if i == modules.len() - 1 {
        assert(module_part(function_table(modules), modules[i].name) =~= modules[i].function_safety);
    } else {
        assert(modules[modules.len() - 1].name != modules[i].name);
        assert forall|j: int| i < j < fewer.len() implies (#[trigger] fewer[j]).name != fewer[i].name by {
            assert(fewer[j] == modules[j]);
        }
        lemma_table_part(fewer, i);
        assert(module_part(function_table(modules), modules[i].name) =~= module_part(
            function_table(fewer),
            modules[i].name,
        ));
    }
}

/// Functions are known of modules that are there only.
proof fn lemma_table_modules(modules: Seq<CachedModuleView>, a: (Seq<char>, Seq<char>))
    requires
        function_table(modules).contains_key(a),
    ensures
        module_names_of(modules).contains(a.0),
    decreases modules.len(),
{
    if modules.len() > 0 {
        let names = module_names_of(modules);
        if modules.last().name == a.0 {
            assert(names[modules.len() - 1] == a.0);
        } else {
            lemma_table_modules(modules.drop_last(), a);
            let k = module_names_of(modules.drop_last()).index_of(a.0);
            assert(names[k] == a.0);
        }
    }
}

/// There is a last module of every name that a module has.
proof fn lemma_some_last(modules: Seq<CachedModuleView>, name: Seq<char>) -> (i: int)
    requires
        module_names_of(modules).contains(name),
    ensures
        0 <= i < modules.len(),
        modules[i].name == name,
        is_last_of_name(modules, i),
    decreases modules.len(),
{
    let names = module_names_of(modules);
    let k = names.index_of(name);
    if modules.last().name == name {
        modules.len() - 1
    } else {
        let fewer = modules.drop_last();
        assert(module_names_of(fewer)[k] == name);
        let i = lemma_some_last(fewer, name);
        assert forall|j: int| i < j < modules.len() implies (#[trigger] modules[j]).name != modules[i].name by {
            if j < fewer.len() {
                assert(fewer[j] == modules[j]);
            }
        }
        i
    }
}

/// Once verdicts have spread through the re-exports of a cache, spreading them again changes nothing.
pub proof fn propagating_again_changes_nothing(before: CacheView, after: CacheView, again: CacheView)
    requires
        propagates_to(before, after),
        propagates_to(after, again),
    ensures
        again == after,
{
    let first = choose|table: Verdicts| #[trigger] propagates_with(before, after, table);
    let second = choose|table: Verdicts| #[trigger] propagates_with(after, again, table);
    let re_exports = before.exports.re_exports;
    let known = before.known();
    assert(module_names_of(after.modules) =~= module_names_of(before.modules));
    assert forall|i: int| 0 <= i < after.modules.len() implies #[trigger] is_last_of_name(after.modules, i)
        == is_last_of_name(before.modules, i) by {
        lemma_same_lasts(before.modules, after.modules, i);
    }
    lemma_table_again(before, after, first);
    spreading_again_changes_nothing(re_exports, known, function_table(before.modules), first, second);
    assert forall|i: int| 0 <= i < after.modules.len() implies again.modules[i] == after.modules[i] by {
        if is_last_of_name(after.modules, i) {
            assert(is_last_of_name(before.modules, i));
        }
    }
    assert(again.modules =~= after.modules);
}

proof fn lemma_same_lasts(a: Seq<CachedModuleView>, b: Seq<CachedModuleView>, i: int)
    requires
        0 <= i < a.len(),
        module_names_of(a) == module_names_of(b),
    ensures
        is_last_of_name(a, i) == is_last_of_name(b, i),
{
    let names = module_names_of(a);
    assert(a.len() == names.len() && b.len() == names.len());
    assert forall|j: int| 0 <= j < a.len() implies (#[trigger] a[j]).name == b[j].name by {
        assert(names[j] == a[j].name && module_names_of(b)[j] == b[j].name);
    }
    assert forall|j: int| 0 <= j < a.len() implies (#[trigger] b[j]).name == a[j].name by {
        assert(a[j].name == b[j].name);
    }
}

/// Once verdicts have spread to a table, that is what is known of functions.
proof fn lemma_table_again(before: CacheView, after: CacheView, first: Verdicts)
    requires
        propagates_with(before, after, first),
    ensures
        function_table(after.modules) == first,
{
    let re_exports = before.exports.re_exports;
    let known = before.known();
    let table = function_table(after.modules);
    assert(module_names_of(after.modules) =~= module_names_of(before.modules));
    assert forall|a: (Seq<char>, Seq<char>)|
        (#[trigger] table.contains_key(a) <==> first.contains_key(a)) && (first.contains_key(a) ==> table[a]
            == first[a]) by {
        if first.contains_key(a) {
            lemma_spread_modules(re_exports, known, function_table(before.modules), first, a);
            if function_table(before.modules).contains_key(a) {
                lemma_table_modules(before.modules, a);
            }
        }
        if table.contains_key(a) {
            lemma_table_modules(after.modules, a);
        }
        if table.contains_key(a) || first.contains_key(a) {
            assert(module_names_of(after.modules).contains(a.0));
            let i = lemma_some_last(after.modules, a.0);
            lemma_table_part(after.modules, i);
            lemma_same_lasts(before.modules, after.modules, i);
            let part = module_part(table, a.0);
            assert(part == module_part(first, a.0));
            assert(part.contains_key(a.1) <==> table.contains_key(a));
            assert(module_part(first, a.0).contains_key(a.1) <==> first.contains_key(a));
            if first.contains_key(a) {
                assert(part[a.1] == table[a]);
                assert(module_part(first, a.0)[a.1] == first[a]);
            }
        }
    }
    assert(table =~= first);
}

} // verus!
