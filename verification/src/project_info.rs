//! What is known of a project as a whole.

use crate::analyzer::{AnalysisMap, AnalyzedModule};
use crate::attribute::{attributes_of, full_name};
use crate::class::{Class, ClassTable, ClassView};
use crate::definitions::DefinitionTable;
use crate::effects::{
    clone_effects, merged_effects, table_with, EffectKind, EffectTable, EffectView,
};
use crate::exports::Exports;
use crate::module_name::{parent_of, texts, ModuleName};
use crate::mutated_params::{compute_mutated_params, mutates, Param, Signatures};
use crate::name_map::NameMap;
use crate::name_set::NameSet;
use crate::name_sets::{pair_set, NameSets};
use vstd::prelude::*;

verus! {

/// The effects of a class body inside of a function also happen in the function: they are those
/// of the first `n` scopes, in addition to what is in the table.
pub open spec fn bubbled(
    table: Map<Seq<char>, Seq<EffectView>>,
    output: &AnalyzedModule,
    n: int,
) -> Map<Seq<char>, Seq<EffectView>>
    decreases n,
{
    if n <= 0 {
        table
    } else {
        let before = bubbled(table, output, n - 1);
        let scope = output.module_effects.effects.effects().keys()[n - 1];
        let outer = output.definitions.enclosing_functions.deep_view();
        if outer.contains_key(scope) && !output.definitions.functions@.contains(scope) {
            table_with(before, outer[scope], output.module_effects.effects.deep_view()[scope])
        } else {
            before
        }
    }
}

/// The effects of the first `n` modules.
pub open spec fn effects_of(map: &AnalysisMap, n: int) -> Map<Seq<char>, Seq<EffectView>>
    decreases n,
{
    if n <= 0 {
        Map::empty()
    } else {
        let output = map@[map.keys()[n - 1]];
        bubbled(
            merged_effects(effects_of(map, n - 1), output.module_effects.effects.deep_view()),
            &output,
            output.module_effects.effects.effects().keys().len() as int,
        )
    }
}

/// Brings the effects of all modules together. The statements of a class body inside of a
/// function run when the function does, so their effects are also effects of the function.
pub fn merge_all_effects(analysis_map: &AnalysisMap) -> (res: EffectTable)
    ensures
        res.deep_view() == effects_of(analysis_map, analysis_map.keys().len() as int),
{
    let mut res = EffectTable::empty();
    let n: usize = analysis_map.len();
    for i in 0..n
        invariant
            n == analysis_map.keys().len(),
            res.deep_view() == effects_of(analysis_map, i as int),
    {
        let output = analysis_map.value_at(i);
        let effects = &output.module_effects.effects;
        res.merge(effects.clone());
        let ghost own = res.deep_view();
        let m: usize = effects.len();
        for j in 0..m
            invariant
                m == effects.effects().keys().len(),
                effects.effects().ordered(),
                *effects == output.module_effects.effects,
                res.deep_view() == bubbled(own, output, j as int),
        {
            let scope = effects.key_at(j);
            if let Some(parent) = output.definitions.enclosing_functions.get(scope) {
                if !output.definitions.functions.contains(scope) {
                    res.append(parent.clone(), clone_effects(effects.value_at(j)));
                }
            }
        }
    }
    res
}

/// The classes of the first `n` modules.
pub open spec fn classes_of(map: &AnalysisMap, n: int) -> Map<Seq<char>, ClassView>
    decreases n,
{
    if n <= 0 {
        Map::empty()
    } else {
        classes_of(map, n - 1).union_prefer_right(map@[map.keys()[n - 1]].classes.deep_view())
    }
}

/// Two modules agree but for their classes.
pub open spec fn same_but_classes(a: AnalyzedModule, b: AnalyzedModule) -> bool {
    &&& a.module_effects == b.module_effects
    &&& a.definitions == b.definitions
    &&& a.implicit_imports == b.implicit_imports
}

/// The classes of all modules have been taken out.
pub open spec fn classes_taken(before: &AnalysisMap, after: &AnalysisMap) -> bool {
    &&& after.keys() == before.keys()
    &&& after@.dom() == before@.dom()
    &&& forall|m: Seq<char>| #[trigger]
        after@.contains_key(m) ==> same_but_classes(before@[m], after@[m])
            && after@[m].classes.deep_view() == Map::<Seq<char>, ClassView>::empty()
}

/// Takes the classes out of all modules and brings them together. Where two classes have one
/// name, the later counts.
pub fn merge_all_classes(analysis_map: &mut AnalysisMap) -> (res: ClassTable)
    ensures
        res.deep_view() == classes_of(old(analysis_map), old(analysis_map).keys().len() as int),
        classes_taken(old(analysis_map), final(analysis_map)),
{
    let mut table: NameMap<Class> = NameMap::new();
    let n: usize = analysis_map.len();
    let ghost first = *analysis_map;
    let ghost keys = analysis_map.keys();
    proof {
        assert(table.deep_view() =~= classes_of(&first, 0));
    }
    for i in 0..n
        invariant
            n == keys.len(),
            keys == first.keys(),
            keys.no_duplicates(),
            first.ordered(),
            analysis_map.ordered(),
            analysis_map.keys() == keys,
            analysis_map@.dom() == first@.dom(),
            table.deep_view() == classes_of(&first, i as int),
            forall|j: int| i <= j < n ==> analysis_map@[#[trigger] keys[j]] == first@[keys[j]],
            forall|j: int|
                0 <= j < i ==> same_but_classes(first@[keys[j]], analysis_map@[#[trigger] keys[j]])
                    && analysis_map@[keys[j]].classes.deep_view() == Map::<Seq<char>, ClassView>::empty(),
    {
        let ghost before = table.deep_view();
        let ghost earlier = analysis_map@;
        let output: AnalyzedModule = analysis_map.replace_at(i, AnalyzedModule::empty());
        let ghost taken = output;
        proof {
            assert(first@.contains_key(keys[i as int]));
            assert(output == first@[keys[i as int]]);
        }
        let AnalyzedModule { module_effects, definitions, classes, implicit_imports } = output;
        let inner = classes.into_inner();
        let ghost inner_view = inner.deep_view();
        table.extend(inner);
        let rest = AnalyzedModule {
            module_effects,
            definitions,
            classes: ClassTable::empty(),
            implicit_imports,
        };
        let ghost left = rest;
        let _ = analysis_map.replace_at(i, rest);
        proof {
            assert(table.deep_view() =~= before.union_prefer_right(inner_view));
            assert(analysis_map@ =~= earlier.insert(keys[i as int], left));
            assert(analysis_map@.dom() =~= first@.dom());
            assert forall|j: int| i + 1 <= j < n implies analysis_map@[#[trigger] keys[j]] == first@[keys[j]] by {
                assert(keys[j] != keys[i as int]);
            }
            assert forall|j: int| 0 <= j < i + 1 implies same_but_classes(
                first@[keys[j]],
                analysis_map@[#[trigger] keys[j]],
            ) && analysis_map@[keys[j]].classes.deep_view() == Map::<Seq<char>, ClassView>::empty() by {
                if j < i {
                    assert(keys[j] != keys[i as int]);
                }
            }
        }
    }
    proof {
        assert forall|m: Seq<char>| #[trigger] analysis_map@.contains_key(m) implies same_but_classes(
            first@[m],
            analysis_map@[m],
        ) && analysis_map@[m].classes.deep_view() == Map::<Seq<char>, ClassView>::empty() by {
            let j = keys.index_of(m);
            assert(keys.contains(m));
            assert(keys[j] == m);
        }
    }
    ClassTable::new(table)
}

/// The functions that are directly inside of a function, for the first `n` entries of a module's
/// table of enclosing functions, in addition to what is known.
pub open spec fn nested_in(
    known: Map<Seq<char>, Seq<Seq<char>>>,
    defs: &DefinitionTable,
    n: int,
) -> Map<Seq<char>, Seq<Seq<char>>>
    decreases n,
{
    if n <= 0 {
        known
    } else {
        let before = nested_in(known, defs, n - 1);
        let child = defs.enclosing_functions.keys()[n - 1];
        let parent = defs.enclosing_functions.deep_view()[child];
        if defs.functions@.contains(child) && parent_of(child) == Some(parent) {
            with_child(before, parent, child)
        } else {
            before
        }
    }
}

/// One more child of a function.
pub open spec fn with_child(
    map: Map<Seq<char>, Seq<Seq<char>>>,
    parent: Seq<char>,
    child: Seq<char>,
) -> Map<Seq<char>, Seq<Seq<char>>> {
    map.insert(
        parent,
        (if map.contains_key(parent) {
            map[parent]
        } else {
            Seq::empty()
        }).push(child),
    )
}

/// The functions that are directly inside of functions, in the first `n` modules.
pub open spec fn nested_of(map: &AnalysisMap, n: int) -> Map<Seq<char>, Seq<Seq<char>>>
    decreases n,
{
    if n <= 0 {
        Map::empty()
    } else {
        let defs = map@[map.keys()[n - 1]].definitions;
        nested_in(nested_of(map, n - 1), &defs, defs.enclosing_functions.keys().len() as int)
    }
}

/// What a map to lists of names is.
pub open spec fn name_lists(map: Map<Seq<char>, Vec<ModuleName>>) -> Map<Seq<char>, Seq<Seq<char>>> {
    map.map_values(|v: Vec<ModuleName>| texts(v@))
}

/// Adds a child of a function.
fn add_child(map: &mut NameMap<Vec<ModuleName>>, parent: &ModuleName, child: &ModuleName)
    ensures
        name_lists(final(map)@) == with_child(name_lists(old(map)@), parent@, child@),
{
    let ghost before = name_lists(map@);
    match map.position(parent.as_str()) {
        Some(i) => {
            let mut list: Vec<ModuleName> = map.replace_at(i, Vec::new());
            let ghost held = texts(list@);
            list.push(child.clone());
            proof {
                assert(texts(list@) =~= held.push(child@));
            }
            let _ = map.replace_at(i, list);
        },
        None => {
            let mut list: Vec<ModuleName> = Vec::new();
            list.push(child.clone());
            proof {
                assert(texts(list@) =~= Seq::empty().push(child@));
            }
            let _ = map.insert(parent.clone(), list);
        },
    }
    proof {
        assert(name_lists(map@) =~= with_child(before, parent@, child@));
    }
}

/// Lists, for each function, the functions directly inside of it.
pub fn build_nested_functions_map(analysis_map: &AnalysisMap) -> (res: NameMap<Vec<ModuleName>>)
    ensures
        name_lists(res@) == nested_of(analysis_map, analysis_map.keys().len() as int),
{
    let mut res: NameMap<Vec<ModuleName>> = NameMap::new();
    let n: usize = analysis_map.len();
    proof {
        assert(name_lists(res@) =~= Map::empty());
    }
    for i in 0..n
        invariant
            n == analysis_map.keys().len(),
            name_lists(res@) == nested_of(analysis_map, i as int),
    {
        let defs = &analysis_map.value_at(i).definitions;
        let ghost known = name_lists(res@);
        let m: usize = defs.enclosing_functions.len();
        for j in 0..m
            invariant
                m == defs.enclosing_functions.keys().len(),
                defs.enclosing_functions.ordered(),
                name_lists(res@) == nested_in(known, defs, j as int),
        {
            let child = defs.enclosing_functions.key_at(j);
            let parent = defs.enclosing_functions.value_at(j);
            if defs.functions.contains(child) {
                if let Some(outer) = child.parent() {
                    if outer.same(parent) {
                        add_child(&mut res, parent, child);
                    }
                }
            }
        }
    }
    res
}

/// The functions of a module, each with the module's name.
pub open spec fn functions_in(functions: Set<Seq<char>>, module: Seq<char>) -> Map<Seq<char>, Seq<char>> {
    Map::new(|f: Seq<char>| functions.contains(f), |f: Seq<char>| module)
}

/// The functions of the first `n` modules, each with the name of its module.
pub open spec fn functions_of(map: &AnalysisMap, n: int) -> Map<Seq<char>, Seq<char>>
    decreases n,
{
    if n <= 0 {
        Map::empty()
    } else {
        let module = map.keys()[n - 1];
        functions_of(map, n - 1).union_prefer_right(
            functions_in(map@[module].definitions.functions@, module),
        )
    }
}

/// The methods that the first `n` modules call on imported objects, each with the name that it
/// has where it is defined.
pub open spec fn methods_of(map: &AnalysisMap, n: int) -> Map<Seq<char>, Seq<char>>
    decreases n,
{
    if n <= 0 {
        Map::empty()
    } else {
        methods_of(map, n - 1).union_prefer_right(
            map@[map.keys()[n - 1]].module_effects.indirectly_called_methods.deep_view(),
        )
    }
}

/// Brings together the functions of all modules, and the methods that they call on imported
/// objects. Where two have one name, the later counts.
pub fn merge_all_functions_and_methods(analysis_map: &AnalysisMap) -> (res: (
    NameMap<ModuleName>,
    NameMap<ModuleName>,
))
    ensures
        res.0.deep_view() == functions_of(analysis_map, analysis_map.keys().len() as int),
        res.1.deep_view() == methods_of(analysis_map, analysis_map.keys().len() as int),
{
    let mut functions: NameMap<ModuleName> = NameMap::new();
    let mut methods: NameMap<ModuleName> = NameMap::new();
    let n: usize = analysis_map.len();
    proof {
        assert(functions.deep_view() =~= Map::empty());
        assert(methods.deep_view() =~= Map::empty());
    }
    for i in 0..n
        invariant
            n == analysis_map.keys().len(),
            functions.deep_view() == functions_of(analysis_map, i as int),
            methods.deep_view() == methods_of(analysis_map, i as int),
    {
        let module = analysis_map.key_at(i);
        let output = analysis_map.value_at(i);
        add_functions(&mut functions, &output.definitions.functions, module);
        copy_into(&mut methods, &output.module_effects.indirectly_called_methods);
    }
    (functions, methods)
}

/// Adds the functions of a module.
fn add_functions(map: &mut NameMap<ModuleName>, functions: &NameSet, module: &ModuleName)
    ensures
        final(map).deep_view() == old(map).deep_view().union_prefer_right(
            functions_in(functions@, module@),
        ),
{
    let ghost before = map.deep_view();
    let m: usize = functions.len();
    let ghost items = functions.items();
    proof {
        assert(before.union_prefer_right(functions_in(items.take(0).to_set(), module@)) =~= before);
    }
    for j in 0..m
        invariant
            m == items.len(),
            items == functions.items(),
            map.deep_view() == before.union_prefer_right(
                functions_in(items.take(j as int).to_set(), module@),
            ),
    {
        let ghost middle = map.deep_view();
        let _ = map.insert(functions.at(j), module.clone());
        proof {
            crate::name_set::lemma_take_more(items, j as int);
            assert(map.deep_view() =~= middle.insert(items[j as int], module@));
            assert(map.deep_view() =~= before.union_prefer_right(
                functions_in(items.take(j + 1).to_set(), module@),
            ));
        }
    }
    proof {
        assert(items.take(items.len() as int) =~= items);
        assert(items.to_set() =~= functions@);
    }
}

/// The part of a map under the given keys.
spec fn part(map: Map<Seq<char>, Seq<char>>, keys: Set<Seq<char>>) -> Map<Seq<char>, Seq<char>> {
    map.restrict(keys)
}

/// Copies the entries of a map into another.
fn copy_into(map: &mut NameMap<ModuleName>, from: &NameMap<ModuleName>)
    ensures
        final(map).deep_view() == old(map).deep_view().union_prefer_right(from.deep_view()),
{
    let ghost before = map.deep_view();
    let ghost all = from.deep_view();
    let ghost keys = from.keys();
    let n: usize = from.len();
    proof {
        assert(before.union_prefer_right(part(all, keys.take(0).to_set())) =~= before);
    }
    for j in 0..n
        invariant
            n == keys.len(),
            keys == from.keys(),
            all == from.deep_view(),
            from.ordered(),
            map.deep_view() == before.union_prefer_right(part(all, keys.take(j as int).to_set())),
    {
        let ghost middle = map.deep_view();
        let value = from.value_at(j).clone();
        let _ = map.insert(from.key_at(j).clone(), value);
        proof {
            crate::name_set::lemma_take_more(keys, j as int);
            assert(map.deep_view() =~= middle.insert(keys[j as int], all[keys[j as int]]));
            assert(map.deep_view() =~= before.union_prefer_right(part(all, keys.take(j + 1).to_set())));
        }
    }
    proof {
        assert(keys.take(keys.len() as int) =~= keys);
        assert(keys.to_set() =~= all.dom());
        assert(part(all, keys.to_set()) =~= all);
    }
}

/// One of some effects reassigns an imported name.
pub open spec fn some_reassigns(effs: Seq<EffectView>, name: Seq<char>) -> bool {
    exists|i: int|
        0 <= i < effs.len() && (#[trigger] effs[i]).kind == EffectKind::ImportedVarReassignment
            && effs[i].name == name
}

/// Some scope reassigns an imported name.
pub open spec fn reassigned(table: Map<Seq<char>, Seq<EffectView>>, name: Seq<char>) -> bool {
    exists|scope: Seq<char>| #[trigger] table.contains_key(scope) && some_reassigns(table[scope], name)
}

/// A name is that of one of some attributes.
pub open spec fn names_one(attrs: Set<(Seq<char>, Seq<char>)>, name: Seq<char>) -> bool {
    exists|a: (Seq<char>, Seq<char>)| #[trigger] attrs.contains(a) && full_name(a) == name
}

/// Removes the names that some scope reassigns.
pub fn get_all_safe_re_exports(effect_table: &EffectTable, re_exports: &mut NameSet)
    ensures
        forall|name: Seq<char>| #[trigger]
            final(re_exports)@.contains(name) <==> old(re_exports)@.contains(name) && !reassigned(
                effect_table.deep_view(),
                name,
            ),
{
    let ghost table = effect_table.deep_view();
    let ghost start = re_exports@;
    let n: usize = effect_table.len();
    let ghost keys = effect_table.effects().keys();
    for i in 0..n
        invariant
            n == keys.len(),
            keys == effect_table.effects().keys(),
            effect_table.effects().ordered(),
            table == effect_table.deep_view(),
            forall|name: Seq<char>| #[trigger]
                re_exports@.contains(name) <==> start.contains(name) && forall|j: int|
                    0 <= j < i ==> !some_reassigns(table[#[trigger] keys[j]], name),
    {
        let effs = effect_table.value_at(i);
        let ghost all = effs.deep_view();
        let ghost before = re_exports@;
        for k in 0..effs.len()
            invariant
                all == effs.deep_view(),
                forall|name: Seq<char>| #[trigger]
                    re_exports@.contains(name) <==> before.contains(name) && !some_reassigns(
                        all.take(k as int),
                        name,
                    ),
        {
            let ghost middle = re_exports@;
            let eff = &effs[k];
            if eff.kind == EffectKind::ImportedVarReassignment {
                let _ = re_exports.remove(&eff.name);
            }
            proof {
                let fewer = all.take(k as int);
                let more = all.take(k + 1);
                assert(more[k as int] == all[k as int]);
                assert forall|name: Seq<char>| #[trigger]
                    re_exports@.contains(name) <==> before.contains(name) && !some_reassigns(more, name) by {
                    assert(middle.contains(name) <==> before.contains(name) && !some_reassigns(fewer, name));
                    if some_reassigns(more, name) {
                        let x = choose|x: int|
                            0 <= x < more.len() && (#[trigger] more[x]).kind
                                == EffectKind::ImportedVarReassignment && more[x].name == name;
                        if x < k {
                            assert(fewer[x] == more[x]);
                        }
                    }
                    if some_reassigns(fewer, name) {
                        let x = choose|x: int|
                            0 <= x < fewer.len() && (#[trigger] fewer[x]).kind
                                == EffectKind::ImportedVarReassignment && fewer[x].name == name;
                        assert(more[x] == fewer[x]);
                    }
                }
            }
        }
        proof {
            assert(all.take(all.len() as int) =~= all);
            assert(table[keys[i as int]] == all);
            assert forall|name: Seq<char>| #[trigger]
                re_exports@.contains(name) <==> start.contains(name) && forall|j: int|
                    0 <= j < i + 1 ==> !some_reassigns(table[#[trigger] keys[j]], name) by {
                assert(before.contains(name) <==> start.contains(name) && forall|j: int|
                    0 <= j < i ==> !some_reassigns(table[#[trigger] keys[j]], name));
                if re_exports@.contains(name) {
                    assert forall|j: int| 0 <= j < i + 1 implies !some_reassigns(
                        table[#[trigger] keys[j]],
                        name,
                    ) by {}
                } else if before.contains(name) {
                    assert(some_reassigns(table[keys[i as int]], name));
                } else if start.contains(name) {
                    let j = choose|j: int| 0 <= j < i && some_reassigns(table[#[trigger] keys[j]], name);
                    assert(0 <= j < i + 1 && some_reassigns(table[keys[j]], name));
                }
            }
        }
    }
    proof {
        assert forall|name: Seq<char>| #[trigger]
            re_exports@.contains(name) <==> start.contains(name) && !reassigned(table, name) by {
            if reassigned(table, name) {
                let scope = choose|scope: Seq<char>| #[trigger]
                    table.contains_key(scope) && some_reassigns(table[scope], name);
                assert(effect_table.effects()@.contains_key(scope));
                assert(keys.contains(scope));
                let j = keys.index_of(scope);
                assert(some_reassigns(table[keys[j]], name));
            } else {
                assert forall|j: int| 0 <= j < n implies !some_reassigns(table[#[trigger] keys[j]], name) by {
                    assert(effect_table.effects()@.contains_key(keys[j]));
                    assert(table.contains_key(keys[j]));
                }
            }
        }
    }
}

/// The full names of what modules re-export, but for those that some scope reassigns.
pub fn collect_re_exports(exports: &Exports, effect_table: &EffectTable) -> (res: NameSet)
    ensures
        forall|name: Seq<char>| #[trigger]
            res@.contains(name) <==> names_one(exports.deep_view().re_exports.dom(), name) && !reassigned(
                effect_table.deep_view(),
                name,
            ),
{
    let map = exports.get_re_exports();
    let list = map.attributes();
    let ghost attrs = attributes_of(list@);
    let mut res = NameSet::new();
    proof {
        assert(exports.deep_view().re_exports.dom() =~= map@.dom());
    }
    for i in 0..list.len()
        invariant
            attrs == attributes_of(list@),
            forall|name: Seq<char>| #[trigger]
                res@.contains(name) <==> names_one(attrs.take(i as int).to_set(), name),
    {
        let ghost before = res@;
        let _ = res.insert(list[i].as_module_name());
        proof {
            let a = attrs[i as int];
            let fewer = attrs.take(i as int).to_set();
            let more = attrs.take(i + 1).to_set();
            crate::name_set::lemma_take_more(attrs, i as int);
            assert forall|name: Seq<char>| #[trigger] res@.contains(name) <==> names_one(more, name) by {
                assert(before.contains(name) <==> names_one(fewer, name));
                if names_one(more, name) {
                    let b = choose|b: (Seq<char>, Seq<char>)| #[trigger] more.contains(b) && full_name(b) == name;
                    if b != a {
                        assert(fewer.contains(b));
                    }
                }
                if names_one(fewer, name) {
                    let b = choose|b: (Seq<char>, Seq<char>)| #[trigger]
                        fewer.contains(b) && full_name(b) == name;
                    assert(more.contains(b));
                }
                assert(more.contains(a));
            }
        }
    }
    proof {
        assert(attrs.take(attrs.len() as int) =~= attrs);
    }
    get_all_safe_re_exports(effect_table, &mut res);
    res
}

/// What is known of a project as a whole.
pub struct ProjectInfo {
    pub analysis_map: AnalysisMap,
    pub effect_table: EffectTable,
    pub classes: ClassTable,
    /// The functions, each with the module that it is in.
    pub functions: NameMap<ModuleName>,
    pub re_exports: NameSet,
    /// The methods that are called on imported objects, each with the name that it has where it
    /// is defined.
    pub methods: NameMap<ModuleName>,
    /// The functions directly inside of each function.
    pub nested_functions: NameMap<Vec<ModuleName>>,
    /// The parameters that functions mutate, themselves or by passing them on.
    pub mutated_params: NameSets,
}

/// What was brought together of the modules of a project.
pub open spec fn brought_together(map: &AnalysisMap, exports: &Exports, res: &ProjectInfo) -> bool {
    let n = map.keys().len() as int;
    &&& classes_taken(map, &res.analysis_map)
    &&& res.effect_table.deep_view() == effects_of(map, n)
    &&& res.classes.deep_view() == classes_of(map, n)
    &&& res.functions.deep_view() == functions_of(map, n)
    &&& res.methods.deep_view() == methods_of(map, n)
    &&& name_lists(res.nested_functions@) == nested_of(&res.analysis_map, n)
    &&& forall|name: Seq<char>| #[trigger]
        res.re_exports@.contains(name) <==> names_one(exports.deep_view().re_exports.dom(), name)
            && !reassigned(res.effect_table.deep_view(), name)
    &&& forall|p: Param| #[trigger]
        pair_set(res.mutated_params.deep_view()).contains(p) <==> mutates(
            res.effect_table.deep_view(),
            &res.signatures(),
            p,
        )
}

impl ProjectInfo {
    /// What is needed to see where parameters are passed on to.
    pub open spec fn signatures(&self) -> Signatures<'_> {
        Signatures {
            functions: &self.functions,
            classes: &self.classes,
            analysis_map: &self.analysis_map,
        }
    }

    /// Brings together what is known of the modules of a project.
    pub fn new(analysis_map: AnalysisMap, exports: &Exports) -> (res: ProjectInfo)
        ensures
            brought_together(&analysis_map, exports, &res),
    {
        let mut analysis_map: AnalysisMap = analysis_map;
        let effect_table = merge_all_effects(&analysis_map);
        let (functions, methods) = merge_all_functions_and_methods(&analysis_map);
        let classes = merge_all_classes(&mut analysis_map);
        let re_exports = collect_re_exports(exports, &effect_table);
        let nested_functions = build_nested_functions_map(&analysis_map);
        let mutated_params = compute_mutated_params(
            &effect_table,
            &Signatures { functions: &functions, classes: &classes, analysis_map: &analysis_map },
        );
        ProjectInfo {
            analysis_map,
            effect_table,
            classes,
            functions,
            re_exports,
            methods,
            nested_functions,
            mutated_params,
        }
    }

    /// A name is that of a function or a class of the project.
    pub open spec fn defines(&self, name: Seq<char>) -> bool {
        self.functions@.contains_key(name) || self.classes.deep_view().contains_key(name)
    }

    /// A name can be called: it is that of a function, a class or a re-export, or that of a
    /// method that is one of these where it is defined.
    pub open spec fn callable(&self, name: Seq<char>) -> bool {
        let source = if self.methods@.contains_key(name) {
            self.methods@[name]@
        } else {
            name
        };
        self.defines(name) || self.defines(source) || self.re_exports@.contains(source)
    }

    /// Whether a name can be called.
    pub fn contains_callable(&self, name: &ModuleName) -> (res: bool)
        ensures
            res == self.callable(name@),
    {
        if self.functions.contains_key(name) || self.classes.contains(name) {
            return true;
        }
        let call_name = match self.methods.get(name) {
            Some(source) => source,
            None => name,
        };
        if self.functions.contains_key(call_name) || self.classes.contains(call_name) {
            true
        } else {
            self.re_exports.contains(call_name)
        }
    }

    /// The module that a function is in. Where it is not known, the function's own name stands
    /// for it.
    pub open spec fn module_of(&self, func: Seq<char>) -> Seq<char> {
        if self.functions@.contains_key(func) {
            self.functions@[func]@
        } else {
            func
        }
    }

    /// The position of a parameter of a function, where it is known.
    pub open spec fn position_of(&self, func: Seq<char>, param: Seq<char>) -> Option<usize> {
        let module = self.module_of(func);
        if self.analysis_map@.contains_key(module) {
            self.analysis_map@[module].definitions.param_index(func, param)
        } else {
            None
        }
    }

    /// The parameters that a function mutates, with their positions.
    pub open spec fn mutated_positions(&self, func: Seq<char>) -> Map<Seq<char>, Option<usize>> {
        Map::new(
            |p: Seq<char>| self.mutated_params.deep_view()[func].contains(p),
            |p: Seq<char>| self.position_of(func, p),
        )
    }

    /// The parameters that a function mutates, with their positions, where it mutates any.
    pub fn resolve_cached_mutated_params_for(&self, func: &ModuleName) -> (res: Option<
        NameMap<Option<usize>>,
    >)
        ensures
            match res {
                Some(params) => self.mutated_params@.contains_key(func@) && params@
                    == self.mutated_positions(func@),
                None => !self.mutated_params@.contains_key(func@),
            },
    {
        let params = match self.mutated_params.get(func) {
            Some(params) => params,
            None => {
                return None;
            },
        };
        let module = match self.functions.get(func) {
            Some(module) => module,
            None => func,
        };
        let output = self.analysis_map.get(module);
        let mut res: NameMap<Option<usize>> = NameMap::new();
        let n: usize = params.len();
        let ghost items = params.items();
        let ghost all = self.mutated_positions(func@);
        proof {
            assert(res@ =~= all.restrict(items.take(0).to_set()));
        }
        for i in 0..n
            invariant
                n == items.len(),
                items == params.items(),
                params.ordered(),
                self.mutated_params@.contains_key(func@),
                self.mutated_params.deep_view()[func@] == params@,
                all == self.mutated_positions(func@),
                module@ == self.module_of(func@),
                output == (if self.analysis_map@.contains_key(module@) {
                    Some(&self.analysis_map@[module@])
                } else {
                    None
                }),
                res@ == all.restrict(items.take(i as int).to_set()),
        {
            let param = params.at(i);
            let index: Option<usize> = match output {
                Some(output) => output.definitions.get_param_index(func, param.as_str()),
                None => None,
            };
            let ghost before = res@;
            let ghost p = items[i as int];
            let _ = res.insert(param, index);
            proof {
                crate::name_set::lemma_take_more(items, i as int);
                assert(all.contains_key(p));
                assert(all[p] == index);
                assert(res@ =~= all.restrict(items.take(i + 1).to_set()));
            }
        }
        proof {
            assert(items.take(items.len() as int) =~= items);
            assert(items.to_set() =~= all.dom());
            assert(res@ =~= all);
        }
        Some(res)
    }
}

} // verus!
