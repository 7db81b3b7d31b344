//! Which modules are used without being imported.

use crate::analyzer::{AnalysisMap, AnalyzedModule};
use crate::imports::{parent_dot, parent_in_map, split_at_known, ImportGraph};
use crate::module_name::{dotted, str_eq, ModuleName};
use crate::name_map::NameMap;
use crate::name_set::NameSet;
use crate::name_sets::{add_names, pair_set, pair_views, pairs_of, set_at, NameSets};
use vstd::prelude::*;

verus! {

/// For each module, the imports that its scopes load by calling functions.
pub type ScopeImportsMap = NameMap<NameSets>;

/// What is needed to find the implicit imports of a module.
pub struct ImplicitImportContext<'a> {
    pub analysis_map: &'a AnalysisMap,
    pub additional_called_imports: &'a ScopeImportsMap,
    pub init_module_map: &'a NameMap<ModuleName>,
    pub import_graph: &'a ImportGraph,
}

/// The modules that a scope of a module imports.
pub open spec fn pending(map: &AnalysisMap, module: Seq<char>, scope: Seq<char>) -> Set<Seq<char>> {
    if map@.contains_key(module) {
        set_at(map@[module].module_effects.deep_view().pending_imports, scope)
    } else {
        Set::empty()
    }
}

/// The imported modules that a scope of a module uses.
pub open spec fn called(map: &AnalysisMap, module: Seq<char>, scope: Seq<char>) -> Set<Seq<char>> {
    if map@.contains_key(module) {
        set_at(map@[module].module_effects.deep_view().called_imports, scope)
    } else {
        Set::empty()
    }
}

fn scope_names(sets: &NameSets, scope: &ModuleName) -> (res: NameSet)
    ensures
        res@ == set_at(sets.deep_view(), scope@),
{
    match crate::name_sets::names_at(sets, scope) {
        Some(set) => set.clone(),
        None => NameSet::new(),
    }
}

/// What a module that is imported loads: its own imports that it uses itself.
pub open spec fn loaded_by_module(map: &AnalysisMap, module: Seq<char>) -> Set<Seq<char>> {
    pending(map, module, module).intersect(called(map, module, module))
}

/// What a module that is imported loads.
pub fn get_parent_module_imports(curr_import: &ModuleName, analysis_map: &AnalysisMap) -> (res: NameSet)
    ensures
        res@ == loaded_by_module(analysis_map, curr_import@),
{
    match analysis_map.get(curr_import) {
        None => {
            proof {
                assert(loaded_by_module(analysis_map, curr_import@) =~= Set::empty());
            }
            NameSet::new()
        },
        Some(output) => {
            let imported = scope_names(&output.module_effects.pending_imports, curr_import);
            let used = scope_names(&output.module_effects.called_imports, curr_import);
            imported.intersection(&used)
        },
    }
}

/// What a function that is called loads: what it imports itself, and what it uses of the imports
/// of the module that it is in.
pub open spec fn loaded_by_function(
    map: &AnalysisMap,
    modules: Set<Seq<char>>,
    function: Seq<char>,
) -> Set<Seq<char>> {
    let d = parent_dot(function, modules);
    if d < 0 {
        Set::empty()
    } else {
        let module = function.take(d);
        pending(map, module, function).union(
            called(map, module, function).intersect(pending(map, module, module)),
        )
    }
}

/// What a function that is called loads.
pub fn get_imports_in_function_module(
    curr_import: &ModuleName,
    analysis_map: &AnalysisMap,
) -> (res: NameSet)
    ensures
        res@ == loaded_by_function(analysis_map, analysis_map@.dom(), curr_import@),
{
    match parent_in_map(curr_import, analysis_map) {
        None => NameSet::new(),
        Some(module) => match analysis_map.get(&module) {
            None => NameSet::new(),
            Some(output) => {
                let other = scope_names(&output.module_effects.pending_imports, &module);
                let mut res = scope_names(&output.module_effects.pending_imports, curr_import);
                let used = scope_names(&output.module_effects.called_imports, curr_import);
                res.extend(&used.intersection(&other));
                res
            },
        },
    }
}

/// A name is that of an attribute of something that is imported: it is no module itself, and some
/// parent of it is imported.
pub open spec fn is_loaded_attribute(
    name: Seq<char>,
    imports: Set<Seq<char>>,
    modules: Set<Seq<char>>,
) -> bool {
    !modules.contains(name) && parent_dot(name, imports) >= 0
}

/// Whether a name is that of an attribute of something that is imported.
pub fn is_called_attribute_loaded(
    curr_import: &ModuleName,
    all_pending_imports: &NameSet,
    import_graph: &ImportGraph,
) -> (res: bool)
    ensures
        res == is_loaded_attribute(
            curr_import@,
            all_pending_imports@,
            import_graph.graph.node_set(),
        ),
{
    if import_graph.contains(curr_import) {
        return false;
    }
    split_at_known(curr_import, all_pending_imports).is_some()
}

/// What a module has imported once some of its functions have run.
pub open spec fn imported_after(
    imports: Map<Seq<char>, Set<Seq<char>>>,
    module: Seq<char>,
    functions: Seq<Seq<char>>,
) -> Set<Seq<char>>
    decreases functions.len(),
{
    if functions.len() == 0 {
        set_at(imports, module)
    } else {
        imported_after(imports, module, functions.drop_last()).union(
            set_at(imports, functions.last()),
        )
    }
}

/// What some functions of a module load when they run one after the other: what each uses of
/// what has been imported by then.
pub open spec fn loaded_in_order(
    imports: Map<Seq<char>, Set<Seq<char>>>,
    uses: Map<Seq<char>, Set<Seq<char>>>,
    module: Seq<char>,
    functions: Seq<Seq<char>>,
) -> Set<Seq<char>>
    decreases functions.len(),
{
    if functions.len() == 0 {
        Set::empty()
    } else {
        loaded_in_order(imports, uses, module, functions.drop_last()).union(
            set_at(uses, functions.last()).intersect(imported_after(imports, module, functions)),
        )
    }
}

/// What the functions that a module calls load.
pub open spec fn loaded_by_calls(map: &AnalysisMap, module: Seq<char>) -> Set<Seq<char>> {
    if map@.contains_key(module) {
        let effects = map@[module].module_effects;
        loaded_in_order(
            effects.deep_view().pending_imports,
            effects.deep_view().called_imports,
            module,
            effects.called_functions.items(),
        )
    } else {
        Set::empty()
    }
}

/// What the functions that a module calls load.
pub fn get_called_function_imports(pending_module_name: &ModuleName, analysis_map: &AnalysisMap) -> (res:
    NameSet)
    ensures
        res@ == loaded_by_calls(analysis_map, pending_module_name@),
{
    let output = match analysis_map.get(pending_module_name) {
        None => {
            return NameSet::new();
        },
        Some(output) => output,
    };
    let effects = &output.module_effects;
    let ghost imports = effects.deep_view().pending_imports;
    let ghost uses = effects.deep_view().called_imports;
    let ghost module = pending_module_name@;
    let mut res = NameSet::new();
    let mut imported = scope_names(&effects.pending_imports, pending_module_name);
    let n: usize = effects.called_functions.len();
    let ghost items = effects.called_functions.items();
    proof {
        assert(items.take(0) =~= Seq::empty());
    }
    for i in 0..n
        invariant
            n == items.len(),
            items == effects.called_functions.items(),
            imports == effects.deep_view().pending_imports,
            uses == effects.deep_view().called_imports,
            imported@ == imported_after(imports, module, items.take(i as int)),
            res@ == loaded_in_order(imports, uses, module, items.take(i as int)),
    {
        let function = effects.called_functions.at(i);
        proof {
            assert(items.take(i + 1).drop_last() =~= items.take(i as int));
            assert(items.take(i + 1).last() == function@);
        }
        imported.extend(&scope_names(&effects.pending_imports, &function));
        let used = scope_names(&effects.called_imports, &function).intersection(&imported);
        res.extend(&used);
    }
    proof {
        assert(items.take(n as int) =~= items);
    }
    res
}

/// A module that is imported as an attribute of another: what loading it loads.
pub open spec fn loads_as(
    imports: &NameSets,
    module: Seq<char>,
    name: Seq<char>,
    key: Seq<char>,
    loaded: Seq<char>,
) -> bool {
    &&& key == dotted(module, name)
    &&& (loaded == key || (imports@.contains_key(name) && imports@[name].items().len() > 0 && loaded
        == imports@[name].items()[0]))
}

/// Some of the names is imported as an attribute, and loading it loads the module.
pub open spec fn some_loads_as(
    imports: &NameSets,
    module: Seq<char>,
    names: Set<Seq<char>>,
    key: Seq<char>,
    loaded: Seq<char>,
) -> bool {
    exists|name: Seq<char>| #[trigger]
        names.contains(name) && loads_as(imports, module, name, key, loaded)
}

/// Adds the modules that a module imports as its attributes, with what loading each loads.
pub fn get_import_as_modules(
    pending_module: &ModuleName,
    top_level_imports: &NameSet,
    module_pending_imports: &NameSets,
    import_as_map: &mut NameSets,
)
    ensures
        forall|key: Seq<char>, x: Seq<char>| #[trigger]
            set_at(final(import_as_map).deep_view(), key).contains(x) <==> set_at(
                old(import_as_map).deep_view(),
                key,
            ).contains(x) || some_loads_as(
                module_pending_imports,
                pending_module@,
                top_level_imports@,
                key,
                x,
            ),
{
    let n: usize = top_level_imports.len();
    let ghost items = top_level_imports.items();
    let ghost before = import_as_map.deep_view();
    let ghost module = pending_module@;
    for i in 0..n
        invariant
            n == items.len(),
            items == top_level_imports.items(),
            module == pending_module@,
            before == old(import_as_map).deep_view(),
            forall|key: Seq<char>, x: Seq<char>| #[trigger]
                set_at(import_as_map.deep_view(), key).contains(x) <==> set_at(before, key).contains(x)
                    || some_loads_as(
                    module_pending_imports,
                    module,
                    items.take(i as int).to_set(),
                    key,
                    x,
                ),
    {
        let name = top_level_imports.at(i);
        let ghost here = items[i as int];
        let ghost so_far = import_as_map.deep_view();
        let key = pending_module.concat(&name);
        let mut loaded = NameSet::new();
        let _ = loaded.insert(key.clone());
        if let Some(set) = module_pending_imports.get(&name) {
            if set.len() > 0 {
                let _ = loaded.insert(set.at(0));
            }
        }
        add_names(import_as_map, &key, &loaded);
        proof {
            crate::name_set::lemma_take_more(items, i as int);
            let fewer = items.take(i as int).to_set();
            let more = items.take(i + 1).to_set();
            assert forall|k: Seq<char>, x: Seq<char>| #[trigger]
                set_at(import_as_map.deep_view(), k).contains(x) <==> set_at(before, k).contains(x)
                    || some_loads_as(module_pending_imports, module, more, k, x) by {
                assert(set_at(so_far, k).contains(x) <==> set_at(before, k).contains(x) || some_loads_as(
                    module_pending_imports,
                    module,
                    fewer,
                    k,
                    x,
                ));
                assert(k == key@ && loaded@.contains(x) <==> loads_as(
                    module_pending_imports,
                    module,
                    here,
                    k,
                    x,
                ));
                if some_loads_as(module_pending_imports, module, fewer, k, x) {
                    let name = choose|name: Seq<char>| #[trigger]
                        fewer.contains(name) && loads_as(module_pending_imports, module, name, k, x);
                    assert(more.contains(name));
                }
                if some_loads_as(module_pending_imports, module, more, k, x) {
                    let name = choose|name: Seq<char>| #[trigger]
                        more.contains(name) && loads_as(module_pending_imports, module, name, k, x);
                    if name != here {
                        assert(fewer.contains(name));
                    }
                }
                assert(more.contains(here));
            }
        }
    }
    proof {
        assert(items.take(n as int) =~= items);
    }
}

/// The module under whose name a package's own file is known.
pub open spec fn init_name(init_modules: &NameMap<ModuleName>, name: Seq<char>) -> Seq<char> {
    if init_modules@.contains_key(name) {
        init_modules@[name]@
    } else {
        name
    }
}

/// The packages whose own file is known under a name of its own, with that name.
pub fn build_init_module_map(analysis_map: &AnalysisMap) -> (res: NameMap<ModuleName>)
    ensures
        forall|b: Seq<char>| #[trigger]
            res@.contains_key(b) <==> analysis_map@.contains_key(b + "/__init__"@),
        forall|b: Seq<char>| #[trigger] res@.contains_key(b) ==> res@[b]@ == b + "/__init__"@,
{
    let mut res: NameMap<ModuleName> = NameMap::new();
    let n: usize = analysis_map.len();
    let ghost keys = analysis_map.keys();
    let ghost suffix = "/__init__"@;
    for i in 0..n
        invariant
            n == keys.len(),
            keys == analysis_map.keys(),
            analysis_map.ordered(),
            suffix == "/__init__"@,
            forall|b: Seq<char>| #[trigger]
                res@.contains_key(b) <==> keys.take(i as int).contains(b + suffix),
            forall|b: Seq<char>| #[trigger] res@.contains_key(b) ==> res@[b]@ == b + suffix,
    {
        let name = analysis_map.key_at(i);
        let ghost before = res@;
        let ghost here = keys[i as int];
        proof {
            crate::name_set::lemma_take_more(keys, i as int);
        }
        match crate::module_name::strip_suffix(name.as_str(), "/__init__") {
            Some(base) => {
                let ghost b0 = base@;
                let _ = res.insert(ModuleName::from_string(base), name.clone());
                proof {
                    assert forall|b: Seq<char>| #[trigger] res@.contains_key(b) <==> keys.take(i + 1).contains(
                        b + suffix,
                    ) by {
                        assert(keys.take(i + 1).to_set().contains(b + suffix) <==> keys.take(
                            i as int,
                        ).to_set().contains(b + suffix) || b + suffix == here);
                        if b + suffix == here {
                            assert(b =~= (b + suffix).take(b.len() as int));
                            assert(b0 =~= (b0 + suffix).take(b0.len() as int));
                            assert(b.len() == b0.len());
                            assert(b == b0);
                        }
                    }
                }
            },
            None => {
                proof {
                    assert forall|b: Seq<char>| #[trigger] res@.contains_key(b) <==> keys.take(i + 1).contains(
                        b + suffix,
                    ) by {
                        assert(keys.take(i + 1).to_set().contains(b + suffix) <==> keys.take(
                            i as int,
                        ).to_set().contains(b + suffix) || b + suffix == here);
                        if b + suffix == here {
                            assert((b + suffix).skip(b.len() as int) =~= suffix);
                        }
                    }
                }
            },
        }
    }
    proof {
        assert(keys.take(n as int) =~= keys);
        assert forall|b: Seq<char>| #[trigger] res@.contains_key(b) <==> analysis_map@.contains_key(
            b + suffix,
        ) by {
            if keys.contains(b + suffix) {
                let j = keys.index_of(b + suffix);
                assert(analysis_map@.contains_key(keys[j]));
            }
        }
    }
    res
}

/// A scope of a module uses an import that neither the module nor the scope imports, and that is
/// a function which the module calls.
pub open spec fn calls_unimported(
    map: &AnalysisMap,
    module: Seq<char>,
    scope: Seq<char>,
    import: Seq<char>,
) -> bool {
    &&& called(map, module, scope).contains(import)
    &&& !pending(map, module, module).contains(import)
    &&& !pending(map, module, scope).contains(import)
    &&& map@[module].module_effects.called_functions@.contains(import)
}

/// What a scope of a module loads by calling functions is what one of those functions loads.
pub open spec fn is_additional(
    map: &AnalysisMap,
    module: Seq<char>,
    sets: Map<Seq<char>, Set<Seq<char>>>,
) -> bool {
    &&& forall|scope: Seq<char>| #[trigger]
        sets.contains_key(scope) <==> exists|import: Seq<char>| #[trigger]
            calls_unimported(map, module, scope, import)
    &&& forall|scope: Seq<char>| #[trigger]
        sets.contains_key(scope) ==> exists|import: Seq<char>| #[trigger]
            calls_unimported(map, module, scope, import) && sets[scope] == loaded_by_function(
                map,
                map@.dom(),
                import,
            )
}

/// What the scopes of a module load by calling functions.
fn additional_of_module(
    curr_module: &ModuleName,
    output: &AnalyzedModule,
    analysis_map: &AnalysisMap,
) -> (res: NameSets)
    requires
        analysis_map@.contains_key(curr_module@),
        *output == analysis_map@[curr_module@],
    ensures
        is_additional(analysis_map, curr_module@, res.deep_view()),
{
    let effects = &output.module_effects;
    let ghost module = curr_module@;
    let ghost uses = effects.deep_view().called_imports;
    let pairs = pairs_of(&effects.called_imports);
    let ghost all = pair_views(pairs@);
    let own = scope_names(&effects.pending_imports, curr_module);
    let mut res: NameSets = NameMap::new();
    proof {
        assert(res.deep_view() =~= Map::empty());
    }
    for i in 0..pairs.len()
        invariant
            all == pair_views(pairs@),
            all.to_set() == pair_set(uses),
            effects == &output.module_effects,
            uses == effects.deep_view().called_imports,
            module == curr_module@,
            analysis_map@.contains_key(module),
            *output == analysis_map@[module],
            own@ == pending(analysis_map, module, module),
            forall|scope: Seq<char>| #[trigger]
                res.deep_view().contains_key(scope) <==> exists|j: int|
                    0 <= j < i && (#[trigger] all[j]).0 == scope && calls_unimported(
                        analysis_map,
                        module,
                        scope,
                        all[j].1,
                    ),
            forall|scope: Seq<char>| #[trigger]
                res.deep_view().contains_key(scope) ==> exists|import: Seq<char>| #[trigger]
                    calls_unimported(analysis_map, module, scope, import) && res.deep_view()[scope]
                        == loaded_by_function(analysis_map, analysis_map@.dom(), import),
    {
        let scope = &pairs[i].0;
        let import = &pairs[i].1;
        let ghost before = res.deep_view();
        let ghost here = all[i as int];
        let scope_imports = scope_names(&effects.pending_imports, scope);
        let hit = !own.contains(import) && !scope_imports.contains(import)
            && effects.called_functions.contains(import);
        proof {
            assert(all.to_set().contains(here));
            assert(hit == calls_unimported(analysis_map, module, here.0, here.1));
        }
        if hit {
            let loaded = get_imports_in_function_module(import, analysis_map);
            let ghost set = loaded@;
            let _ = res.insert(scope.clone(), loaded);
            proof {
                assert(res.deep_view() =~= before.insert(here.0, set));
            }
        }
        proof {
            let now = res.deep_view();
            assert forall|s: Seq<char>| #[trigger] now.contains_key(s) <==> exists|j: int|
                0 <= j < i + 1 && (#[trigger] all[j]).0 == s && calls_unimported(
                    analysis_map,
                    module,
                    s,
                    all[j].1,
                ) by {
                if before.contains_key(s) {
                    let j = choose|j: int|
                        0 <= j < i && (#[trigger] all[j]).0 == s && calls_unimported(
                            analysis_map,
                            module,
                            s,
                            all[j].1,
                        );
                    assert(0 <= j < i + 1 && all[j].0 == s);
                }
                if exists|j: int|
                    0 <= j < i + 1 && (#[trigger] all[j]).0 == s && calls_unimported(
                        analysis_map,
                        module,
                        s,
                        all[j].1,
                    ) {
                    let j = choose|j: int|
                        0 <= j < i + 1 && (#[trigger] all[j]).0 == s && calls_unimported(
                            analysis_map,
                            module,
                            s,
                            all[j].1,
                        );
                    if j < i {
                        assert(before.contains_key(s));
                    }
                }
            }
            assert forall|s: Seq<char>| #[trigger] now.contains_key(s) implies exists|import: Seq<char>|
             #[trigger]
                calls_unimported(analysis_map, module, s, import) && now[s] == loaded_by_function(
                    analysis_map,
                    analysis_map@.dom(),
                    import,
                ) by {
                if hit && s == here.0 {
                    assert(calls_unimported(analysis_map, module, s, here.1));
                } else {
                    assert(before.contains_key(s));
                }
            }
        }
    }
    proof {
        let now = res.deep_view();
        assert forall|s: Seq<char>| #[trigger] now.contains_key(s) <==> exists|import: Seq<char>| #[trigger]
            calls_unimported(analysis_map, module, s, import) by {
            if exists|import: Seq<char>| #[trigger] calls_unimported(analysis_map, module, s, import) {
                let import = choose|import: Seq<char>| #[trigger]
                    calls_unimported(analysis_map, module, s, import);
                assert(pair_set(uses).contains((s, import)));
                assert(all.contains((s, import)));
                let j = all.index_of((s, import));
                assert(all[j].0 == s);
            }
        }
    }
    res
}

/// What the scopes of each module load by calling functions.
pub fn get_additional_called_imports(analysis_map: &AnalysisMap) -> (res: ScopeImportsMap)
    ensures
        res@.dom() == analysis_map@.dom(),
        forall|m: Seq<char>| #[trigger]
            res@.contains_key(m) ==> is_additional(analysis_map, m, res@[m].deep_view()),
{
    let mut res: ScopeImportsMap = NameMap::new();
    let n: usize = analysis_map.len();
    let ghost keys = analysis_map.keys();
    proof {
        assert(res@.dom() =~= keys.take(0).to_set());
    }
    for i in 0..n
        invariant
            n == keys.len(),
            keys == analysis_map.keys(),
            analysis_map.ordered(),
            res@.dom() == keys.take(i as int).to_set(),
            forall|m: Seq<char>| #[trigger]
                res@.contains_key(m) ==> is_additional(analysis_map, m, res@[m].deep_view()),
    {
        let name = analysis_map.key_at(i);
        let output = analysis_map.value_at(i);
        let sets = additional_of_module(name, output, analysis_map);
        let ghost before = res@;
        let _ = res.insert(name.clone(), sets);
        proof {
            crate::name_set::lemma_take_more(keys, i as int);
            assert(res@.dom() =~= keys.take(i + 1).to_set());
            assert forall|m: Seq<char>| #[trigger] res@.contains_key(m) implies is_additional(
                analysis_map,
                m,
                res@[m].deep_view(),
            ) by {
                if m != keys[i as int] {
                    assert(before.contains_key(m));
                }
            }
        }
    }
    proof {
        assert(keys.take(n as int) =~= keys);
        assert(keys.to_set() =~= analysis_map@.dom());
    }
    res
}

/// The submodules that every Python process has loaded when it starts.
pub open spec fn loaded_at_startup(name: Seq<char>) -> bool {
    name == "encodings.aliases"@ || name == "encodings.utf_8"@ || name == "os.path"@
}

fn is_loaded_at_startup(name: &ModuleName) -> (res: bool)
    ensures
        res == loaded_at_startup(name@),
{
    str_eq(name.as_str(), "encodings.aliases") || str_eq(name.as_str(), "encodings.utf_8") || str_eq(
        name.as_str(),
        "os.path",
    )
}

/// A module is loaded by functions that an imported module calls.
pub open spec fn loaded_in_imported(
    ctx: &ImplicitImportContext,
    imports: Set<Seq<char>>,
    name: Seq<char>,
) -> bool {
    exists|m: Seq<char>| #[trigger]
        imports.contains(m) && additional_at(ctx, init_name(ctx.init_module_map, m)).contains(name)
}

/// What a module at its top level loads by calling functions.
pub open spec fn additional_at(ctx: &ImplicitImportContext, module: Seq<char>) -> Set<Seq<char>> {
    if ctx.additional_called_imports@.contains_key(module) {
        set_at(ctx.additional_called_imports@[module].deep_view(), module)
    } else {
        Set::empty()
    }
}

/// A module is imported as an attribute of an imported module, and loading it loads the other.
pub open spec fn loads_as_attribute(
    ctx: &ImplicitImportContext,
    imports: Set<Seq<char>>,
    key: Seq<char>,
    loaded: Seq<char>,
) -> bool {
    exists|m: Seq<char>| #[trigger] imports.contains(m) && module_loads_as(ctx, m, key, loaded)
}

/// A module is imported as an attribute of another, and loading it loads the third.
pub open spec fn module_loads_as(
    ctx: &ImplicitImportContext,
    m: Seq<char>,
    key: Seq<char>,
    loaded: Seq<char>,
) -> bool {
    let inner = init_name(ctx.init_module_map, m);
    ctx.analysis_map@.contains_key(inner) && some_loads_as(
        &ctx.analysis_map@[inner].module_effects.pending_imports,
        m,
        pending(ctx.analysis_map, inner, inner),
        key,
        loaded,
    )
}

/// A module is loaded by functions that an imported module calls, whatever it uses.
pub open spec fn loaded_by_imported_calls(
    ctx: &ImplicitImportContext,
    imports: Set<Seq<char>>,
    name: Seq<char>,
) -> bool {
    exists|m: Seq<char>| #[trigger]
        imports.contains(m) && loaded_by_calls(ctx.analysis_map, init_name(ctx.init_module_map, m)).contains(
            name,
        )
}

/// A scope of a module uses something that the module or the scope imports.
pub open spec fn is_imported(
    map: &AnalysisMap,
    module: Seq<char>,
    scope: Seq<char>,
    import: Seq<char>,
) -> bool {
    pending(map, module, module).contains(import) || pending(map, module, scope).contains(import)
}

/// A use of an import accounts for a module being loaded. What is imported is loaded with what it
/// loads; a function that is called is loaded with what it loads; of the rest, what an imported
/// module has loaded by calling functions, attributes of what is imported, and modules imported
/// as attributes.
pub open spec fn accounts_for(
    ctx: &ImplicitImportContext,
    module: Seq<char>,
    scope: Seq<char>,
    import: Seq<char>,
    name: Seq<char>,
) -> bool {
    let map = ctx.analysis_map;
    let effects = map@[module].module_effects;
    let imports = effects.all_pending_import_names@;
    if is_imported(map, module, scope, import) {
        name == import || loaded_by_module(map, import).contains(name)
    } else if effects.called_functions@.contains(import) {
        name == import || loaded_by_function(map, map@.dom(), import).contains(name)
    } else if loaded_in_imported(ctx, imports, import) {
        name == import
    } else {
        ||| (name == import && is_loaded_attribute(
            import,
            imports,
            ctx.import_graph.graph.node_set(),
        ))
        ||| loads_as_attribute(ctx, imports, import, name)
    }
}

/// A use of an import is neither imported nor a function that is called.
pub open spec fn is_unresolved(
    ctx: &ImplicitImportContext,
    module: Seq<char>,
    scope: Seq<char>,
    import: Seq<char>,
) -> bool {
    !is_imported(ctx.analysis_map, module, scope, import)
        && !ctx.analysis_map@[module].module_effects.called_functions@.contains(import)
}

/// A module is loaded by the time that another uses it.
pub open spec fn is_accounted(ctx: &ImplicitImportContext, module: Seq<char>, name: Seq<char>) -> bool {
    ||| exists|scope: Seq<char>, import: Seq<char>|
        called(ctx.analysis_map, module, scope).contains(import) && #[trigger] accounts_for(
            ctx,
            module,
            scope,
            import,
            name,
        )
    ||| (some_unresolved(ctx, module) && loaded_by_imported_calls(
        ctx,
        ctx.analysis_map@[module].module_effects.all_pending_import_names@,
        name,
    ))
}

/// Some use of an import is neither imported nor a function that is called.
pub open spec fn some_unresolved(ctx: &ImplicitImportContext, module: Seq<char>) -> bool {
    exists|scope: Seq<char>, import: Seq<char>|
        called(ctx.analysis_map, module, scope).contains(import) && #[trigger] is_unresolved(
            ctx,
            module,
            scope,
            import,
        )
}

/// A module uses another without importing it: some scope uses it, and nothing accounts for its
/// being loaded by then.
pub open spec fn is_implicit(ctx: &ImplicitImportContext, module: Seq<char>, name: Seq<char>) -> bool {
    &&& exists|scope: Seq<char>| #[trigger] called(ctx.analysis_map, module, scope).contains(name)
    &&& !is_accounted(ctx, module, name)
    &&& !loaded_at_startup(name)
}

/// What a module uses is no implicit import where Python loads it at its start, or where the module, or
/// a scope that uses it, imports it.
pub proof fn loaded_modules_are_not_implicit(
    ctx: &ImplicitImportContext,
    module: Seq<char>,
    scope: Seq<char>,
    name: Seq<char>,
)
    requires
        loaded_at_startup(name) || (called(ctx.analysis_map, module, scope).contains(name) && is_imported(
            ctx.analysis_map,
            module,
            scope,
            name,
        )),
    ensures
        !is_implicit(ctx, module, name),
{
    if !loaded_at_startup(name) {
        assert(accounts_for(ctx, module, scope, name, name));
    }
}

/// What is known of the modules that a module imports.
struct Imported {
    /// What they load at their top level by calling functions.
    loaded: NameSet,
    /// The modules that they import as attributes, with what loading each loads.
    attributes: NameSets,
    /// What the functions that they call load.
    by_calls: NameSet,
}

/// Collects what is known of the modules that a module imports.
fn look_into_imports(ctx: &ImplicitImportContext, imports: &NameSet) -> (res: Imported)
    ensures
        forall|x: Seq<char>| #[trigger]
            res.loaded@.contains(x) <==> loaded_in_imported(ctx, imports@, x),
        forall|key: Seq<char>, x: Seq<char>| #[trigger]
            set_at(res.attributes.deep_view(), key).contains(x) <==> loads_as_attribute(
                ctx,
                imports@,
                key,
                x,
            ),
        forall|x: Seq<char>| #[trigger]
            res.by_calls@.contains(x) <==> loaded_by_imported_calls(ctx, imports@, x),
{
    let mut loaded = NameSet::new();
    let mut attributes: NameSets = NameMap::new();
    let mut by_calls = NameSet::new();
    let n: usize = imports.len();
    let ghost items = imports.items();
    proof {
        assert(attributes.deep_view() =~= Map::empty());
        assert(items.take(0).to_set() =~= Set::empty());
    }
    for i in 0..n
        invariant
            n == items.len(),
            items == imports.items(),
            forall|x: Seq<char>| #[trigger]
                loaded@.contains(x) <==> loaded_in_imported(ctx, items.take(i as int).to_set(), x),
            forall|key: Seq<char>, x: Seq<char>| #[trigger]
                set_at(attributes.deep_view(), key).contains(x) <==> loads_as_attribute(
                    ctx,
                    items.take(i as int).to_set(),
                    key,
                    x,
                ),
            forall|x: Seq<char>| #[trigger]
                by_calls@.contains(x) <==> loaded_by_imported_calls(ctx, items.take(i as int).to_set(), x),
    {
        let module = imports.at(i);
        let ghost m = items[i as int];
        let ghost fewer = items.take(i as int).to_set();
        let ghost more = items.take(i + 1).to_set();
        let ghost loaded0 = loaded@;
        let ghost attributes0 = attributes.deep_view();
        let ghost by_calls0 = by_calls@;
        proof {
            crate::name_set::lemma_take_more(items, i as int);
            assert(more =~= fewer.insert(m));
        }
        let inner = match ctx.init_module_map.get(&module) {
            Some(name) => name.clone(),
            None => module.clone(),
        };
        let ghost inside = init_name(ctx.init_module_map, m);
        if let Some(sets) = ctx.additional_called_imports.get(&inner) {
            loaded.extend(&scope_names(sets, &inner));
        }
        if let Some(output) = ctx.analysis_map.get(&inner) {
            let top = scope_names(&output.module_effects.pending_imports, &inner);
            get_import_as_modules(
                &module,
                &top,
                &output.module_effects.pending_imports,
                &mut attributes,
            );
        }
        by_calls.extend(&get_called_function_imports(&inner, ctx.analysis_map));
        proof {
            assert forall|x: Seq<char>| #[trigger] loaded@.contains(x) <==> loaded_in_imported(ctx, more, x) by {
                assert(loaded@.contains(x) <==> loaded0.contains(x) || additional_at(ctx, inside).contains(x));
                if loaded_in_imported(ctx, more, x) {
                    let k = choose|k: Seq<char>| #[trigger]
                        more.contains(k) && additional_at(ctx, init_name(ctx.init_module_map, k)).contains(x);
                    if k != m {
                        assert(fewer.contains(k));
                    }
                }
                if loaded_in_imported(ctx, fewer, x) {
                    let k = choose|k: Seq<char>| #[trigger]
                        fewer.contains(k) && additional_at(ctx, init_name(ctx.init_module_map, k)).contains(x);
                    assert(more.contains(k));
                }
                assert(more.contains(m));
            }
            assert forall|key: Seq<char>, x: Seq<char>| #[trigger]
                set_at(attributes.deep_view(), key).contains(x) <==> loads_as_attribute(ctx, more, key, x) by {
                assert(set_at(attributes0, key).contains(x) <==> loads_as_attribute(ctx, fewer, key, x));
                assert(set_at(attributes.deep_view(), key).contains(x) <==> set_at(attributes0, key).contains(
                    x,
                ) || module_loads_as(ctx, m, key, x));
                if loads_as_attribute(ctx, more, key, x) {
                    let k = choose|k: Seq<char>| #[trigger] more.contains(k) && module_loads_as(ctx, k, key, x);
                    if k != m {
                        assert(fewer.contains(k));
                    }
                }
                if loads_as_attribute(ctx, fewer, key, x) {
                    let k = choose|k: Seq<char>| #[trigger] fewer.contains(k) && module_loads_as(ctx, k, key, x);
                    assert(more.contains(k));
                }
                assert(more.contains(m));
            }
            assert forall|x: Seq<char>| #[trigger] by_calls@.contains(x) <==> loaded_by_imported_calls(
                ctx,
                more,
                x,
            ) by {
                assert(by_calls@.contains(x) <==> by_calls0.contains(x) || loaded_by_calls(
                    ctx.analysis_map,
                    inside,
                ).contains(x));
                if loaded_by_imported_calls(ctx, more, x) {
                    let k = choose|k: Seq<char>| #[trigger]
                        more.contains(k) && loaded_by_calls(
                            ctx.analysis_map,
                            init_name(ctx.init_module_map, k),
                        ).contains(x);
                    if k != m {
                        assert(fewer.contains(k));
                    }
                }
                if loaded_by_imported_calls(ctx, fewer, x) {
                    let k = choose|k: Seq<char>| #[trigger]
                        fewer.contains(k) && loaded_by_calls(
                            ctx.analysis_map,
                            init_name(ctx.init_module_map, k),
                        ).contains(x);
                    assert(more.contains(k));
                }
                assert(more.contains(m));
            }
        }
    }
    proof {
        assert(items.take(n as int) =~= items);
    }
    Imported { loaded, attributes, by_calls }
}

/// What a use of an import accounts for.
fn accounted_by(
    ctx: &ImplicitImportContext,
    curr_module: &ModuleName,
    output: &AnalyzedModule,
    imported: &Imported,
    scope: &ModuleName,
    import: &ModuleName,
) -> (res: (NameSet, bool))
    requires
        ctx.analysis_map@.contains_key(curr_module@),
        *output == ctx.analysis_map@[curr_module@],
        forall|x: Seq<char>| #[trigger]
            imported.loaded@.contains(x) <==> loaded_in_imported(
                ctx,
                output.module_effects.all_pending_import_names@,
                x,
            ),
        forall|key: Seq<char>, x: Seq<char>| #[trigger]
            set_at(imported.attributes.deep_view(), key).contains(x) <==> loads_as_attribute(
                ctx,
                output.module_effects.all_pending_import_names@,
                key,
                x,
            ),
    ensures
        forall|x: Seq<char>| #[trigger]
            res.0@.contains(x) <==> accounts_for(ctx, curr_module@, scope@, import@, x),
        res.1 == is_unresolved(ctx, curr_module@, scope@, import@),
{
    let effects = &output.module_effects;
    let own = scope_names(&effects.pending_imports, curr_module);
    let inner = scope_names(&effects.pending_imports, scope);
    let mut res = NameSet::new();
    if own.contains(import) || inner.contains(import) {
        let _ = res.insert(import.clone());
        res.extend(&get_parent_module_imports(import, ctx.analysis_map));
        return (res, false);
    }
    if effects.called_functions.contains(import) {
        let _ = res.insert(import.clone());
        res.extend(&get_imports_in_function_module(import, ctx.analysis_map));
        return (res, false);
    }
    if imported.loaded.contains(import) {
        let _ = res.insert(import.clone());
        return (res, true);
    }
    if is_called_attribute_loaded(import, &effects.all_pending_import_names, ctx.import_graph) {
        let _ = res.insert(import.clone());
    }
    let ghost so_far = res@;
    let loaded = scope_names(&imported.attributes, import);
    res.extend(&loaded);
    proof {
        assert forall|x: Seq<char>| #[trigger] res@.contains(x) <==> accounts_for(
            ctx,
            curr_module@,
            scope@,
            import@,
            x,
        ) by {
            assert(loaded@.contains(x) <==> set_at(imported.attributes.deep_view(), import@).contains(x));
        }
    }
    (res, true)
}

/// Finds the modules that a module uses without importing them.
pub fn compute_implicit_imports_for_module(curr_module: &ModuleName, ctx: &ImplicitImportContext) -> (res:
    NameSet)
    requires
        ctx.analysis_map@.contains_key(curr_module@),
    ensures
        forall|x: Seq<char>| #[trigger] res@.contains(x) <==> is_implicit(ctx, curr_module@, x),
{
    let ghost module = curr_module@;
    let output = match ctx.analysis_map.get(curr_module) {
        Some(output) => output,
        None => {
            return NameSet::new();
        },
    };
    let effects = &output.module_effects;
    let ghost uses = effects.deep_view().called_imports;
    let imported = look_into_imports(ctx, &effects.all_pending_import_names);
    let pairs = pairs_of(&effects.called_imports);
    let ghost all = pair_views(pairs@);
    let mut accounted = NameSet::new();
    let mut has_unresolved_imports = false;
    for i in 0..pairs.len()
        invariant
            all == pair_views(pairs@),
            module == curr_module@,
            effects == &output.module_effects,
            ctx.analysis_map@.contains_key(module),
            *output == ctx.analysis_map@[module],
            forall|x: Seq<char>| #[trigger]
                imported.loaded@.contains(x) <==> loaded_in_imported(
                    ctx,
                    output.module_effects.all_pending_import_names@,
                    x,
                ),
            forall|key: Seq<char>, x: Seq<char>| #[trigger]
                set_at(imported.attributes.deep_view(), key).contains(x) <==> loads_as_attribute(
                    ctx,
                    output.module_effects.all_pending_import_names@,
                    key,
                    x,
                ),
            forall|x: Seq<char>| #[trigger]
                accounted@.contains(x) <==> accounted_upto(ctx, module, all, i as int, x),
            has_unresolved_imports <==> unresolved_upto(ctx, module, all, i as int),
    {
        let ghost before = accounted@;
        let ghost here = all[i as int];
        let (more, unresolved) = accounted_by(
            ctx,
            curr_module,
            output,
            &imported,
            &pairs[i].0,
            &pairs[i].1,
        );
        accounted.extend(&more);
        if unresolved {
            has_unresolved_imports = true;
        }
        proof {
            assert(here == (pairs@[i as int].0@, pairs@[i as int].1@));
            assert forall|x: Seq<char>| #[trigger] accounted@.contains(x) <==> accounted_upto(
                ctx,
                module,
                all,
                i + 1,
                x,
            ) by {
                assert(before.contains(x) <==> accounted_upto(ctx, module, all, i as int, x));
                assert(more@.contains(x) <==> accounts_for(ctx, module, here.0, here.1, x));
                if accounted_upto(ctx, module, all, i + 1, x) {
                    let j = choose|j: int|
                        0 <= j < i + 1 && accounts_for(
                            ctx,
                            module,
                            (#[trigger] all[j]).0,
                            all[j].1,
                            x,
                        );
                    if j < i {
                        assert(accounted_upto(ctx, module, all, i as int, x));
                    }
                }
                if accounted_upto(ctx, module, all, i as int, x) {
                    let j = choose|j: int|
                        0 <= j < i && accounts_for(ctx, module, (#[trigger] all[j]).0, all[j].1, x);
                    assert(0 <= j < i + 1);
                }
            }
            if unresolved_upto(ctx, module, all, i + 1) {
                let j = choose|j: int|
                    0 <= j < i + 1 && is_unresolved(ctx, module, (#[trigger] all[j]).0, all[j].1);
                if j < i {
                    assert(unresolved_upto(ctx, module, all, i as int));
                }
            }
            if unresolved_upto(ctx, module, all, i as int) {
                let j = choose|j: int|
                    0 <= j < i && is_unresolved(ctx, module, (#[trigger] all[j]).0, all[j].1);
                assert(0 <= j < i + 1);
            }
            if unresolved {
                assert(is_unresolved(ctx, module, all[i as int].0, all[i as int].1));
            }
        }
    }
    let ghost by_uses = accounted@;
    if has_unresolved_imports {
        accounted.extend(&imported.by_calls);
    }
    proof {
        let count = all.len() as int;
        assert(unresolved_upto(ctx, module, all, count) <==> some_unresolved(ctx, module)) by {
            if unresolved_upto(ctx, module, all, count) {
                let j = choose|j: int|
                    0 <= j < count && is_unresolved(ctx, module, (#[trigger] all[j]).0, all[j].1);
                assert(all.to_set().contains(all[j]));
                assert(called(ctx.analysis_map, module, all[j].0).contains(all[j].1));
            }
            if some_unresolved(ctx, module) {
                let (s, x) = choose|s: Seq<char>, x: Seq<char>|
                    called(ctx.analysis_map, module, s).contains(x) && #[trigger] is_unresolved(
                        ctx,
                        module,
                        s,
                        x,
                    );
                assert(pair_set(uses).contains((s, x)));
                let j = all.index_of((s, x));
                assert(all[j] == (s, x));
            }
        }
        assert forall|x: Seq<char>| #[trigger] accounted@.contains(x) <==> is_accounted(ctx, module, x) by {
            assert(by_uses.contains(x) <==> accounted_upto(ctx, module, all, count, x));
            if accounted_upto(ctx, module, all, count, x) {
                let j = choose|j: int|
                    0 <= j < count && accounts_for(ctx, module, (#[trigger] all[j]).0, all[j].1, x);
                assert(all.to_set().contains(all[j]));
                assert(called(ctx.analysis_map, module, all[j].0).contains(all[j].1));
            }
            if exists|s: Seq<char>, i: Seq<char>|
                called(ctx.analysis_map, module, s).contains(i) && #[trigger] accounts_for(
                    ctx,
                    module,
                    s,
                    i,
                    x,
                ) {
                let (s, i) = choose|s: Seq<char>, i: Seq<char>|
                    called(ctx.analysis_map, module, s).contains(i) && #[trigger] accounts_for(
                        ctx,
                        module,
                        s,
                        i,
                        x,
                    );
                assert(pair_set(uses).contains((s, i)));
                let j = all.index_of((s, i));
                assert(all[j] == (s, i));
            }
        }
    }
    let mut res = NameSet::new();
    for i in 0..pairs.len()
        invariant
            all == pair_views(pairs@),
            forall|x: Seq<char>| #[trigger]
                accounted@.contains(x) <==> is_accounted(ctx, module, x),
            forall|x: Seq<char>| #[trigger]
                res@.contains(x) <==> !is_accounted(ctx, module, x) && !loaded_at_startup(x)
                    && used_upto(all, i as int, x),
    {
        let import = &pairs[i].1;
        let ghost before = res@;
        if !accounted.contains(import) && !is_loaded_at_startup(import) {
            let _ = res.insert(import.clone());
        }
        proof {
            assert(all[i as int].1 == import@);
            assert forall|x: Seq<char>| #[trigger] res@.contains(x) <==> !is_accounted(ctx, module, x)
                && !loaded_at_startup(x) && used_upto(all, i + 1, x) by {
                assert(before.contains(x) <==> !is_accounted(ctx, module, x) && !loaded_at_startup(x)
                    && used_upto(all, i as int, x));
                if used_upto(all, i as int, x) {
                    let j = choose|j: int| 0 <= j < i && (#[trigger] all[j]).1 == x;
                    assert(0 <= j < i + 1);
                }
                if used_upto(all, i + 1, x) {
                    let j = choose|j: int| 0 <= j < i + 1 && (#[trigger] all[j]).1 == x;
                    if j < i {
                        assert(used_upto(all, i as int, x));
                    }
                }
            }
        }
    }
    proof {
        assert forall|x: Seq<char>| #[trigger] res@.contains(x) <==> is_implicit(ctx, module, x) by {
            if used_upto(all, all.len() as int, x) {
                let j = choose|j: int| 0 <= j < all.len() && (#[trigger] all[j]).1 == x;
                assert(all.to_set().contains(all[j]));
                assert(called(ctx.analysis_map, module, all[j].0).contains(x));
            }
            if exists|s: Seq<char>| #[trigger] called(ctx.analysis_map, module, s).contains(x) {
                let s = choose|s: Seq<char>| #[trigger] called(ctx.analysis_map, module, s).contains(x);
                assert(pair_set(uses).contains((s, x)));
                let j = all.index_of((s, x));
                assert(all[j].1 == x);
            }
        }
    }
    res
}

/// One of the first few uses accounts for a module.
spec fn accounted_upto(
    ctx: &ImplicitImportContext,
    module: Seq<char>,
    uses: Seq<(Seq<char>, Seq<char>)>,
    i: int,
    name: Seq<char>,
) -> bool {
    exists|j: int|
        0 <= j < i && accounts_for(ctx, module, (#[trigger] uses[j]).0, uses[j].1, name)
}

/// One of the first few uses is neither imported nor a function that is called.
spec fn unresolved_upto(
    ctx: &ImplicitImportContext,
    module: Seq<char>,
    uses: Seq<(Seq<char>, Seq<char>)>,
    i: int,
) -> bool {
    exists|j: int| 0 <= j < i && is_unresolved(ctx, module, (#[trigger] uses[j]).0, uses[j].1)
}

/// One of the first few uses is of a module.
spec fn used_upto(uses: Seq<(Seq<char>, Seq<char>)>, i: int, name: Seq<char>) -> bool {
    exists|j: int| 0 <= j < i && (#[trigger] uses[j]).1 == name
}

/// What is needed to find implicit imports was found in the modules as they were.
pub open spec fn is_context(
    ctx: &ImplicitImportContext,
    map: &AnalysisMap,
    import_graph: &ImportGraph,
) -> bool {
    &&& ctx.analysis_map == map
    &&& ctx.import_graph == import_graph
    &&& ctx.additional_called_imports@.dom() == map@.dom()
    &&& forall|m: Seq<char>| #[trigger]
        map@.contains_key(m) ==> is_additional(
            map,
            m,
            ctx.additional_called_imports@[m].deep_view(),
        )
    &&& forall|b: Seq<char>| #[trigger]
        ctx.init_module_map@.contains_key(b) <==> map@.contains_key(b + "/__init__"@)
    &&& forall|b: Seq<char>| #[trigger]
        ctx.init_module_map@.contains_key(b) ==> ctx.init_module_map@[b]@ == b + "/__init__"@
}

/// A module with its implicit imports, and nothing else changed.
pub open spec fn with_implicit(
    before: AnalyzedModule,
    after: AnalyzedModule,
    implicit: Set<Seq<char>>,
) -> bool {
    &&& after.module_effects == before.module_effects
    &&& after.definitions == before.definitions
    &&& after.classes == before.classes
    &&& after.implicit_imports@ == before.implicit_imports@.union(implicit)
}

/// Each module has its implicit imports.
pub open spec fn implicit_added(ctx: &ImplicitImportContext, before: &AnalysisMap, after: &AnalysisMap) -> bool {
    &&& after.keys() == before.keys()
    &&& after@.dom() == before@.dom()
    &&& forall|m: Seq<char>| #[trigger]
        before@.contains_key(m) ==> with_implicit(
            before@[m],
            after@[m],
            Set::new(|x: Seq<char>| is_implicit(ctx, m, x)),
        )
}

fn implicit_imports_of_all(ctx: &ImplicitImportContext) -> (res: Vec<NameSet>)
    ensures
        res@.len() == ctx.analysis_map.keys().len(),
        forall|i: int, x: Seq<char>|
            0 <= i < res@.len() ==> (#[trigger] res@[i]@.contains(x) <==> is_implicit(
                ctx,
                ctx.analysis_map.keys()[i],
                x,
            )),
{
    let n: usize = ctx.analysis_map.len();
    let mut res: Vec<NameSet> = Vec::new();
    for i in 0..n
        invariant
            n == ctx.analysis_map.keys().len(),
            ctx.analysis_map.ordered(),
            res@.len() == i,
            forall|j: int, x: Seq<char>|
                0 <= j < i ==> (#[trigger] res@[j]@.contains(x) <==> is_implicit(
                    ctx,
                    ctx.analysis_map.keys()[j],
                    x,
                )),
    {
        let ghost before = res@;
        let name = ctx.analysis_map.key_at(i);
        proof {
            assert(ctx.analysis_map@.contains_key(ctx.analysis_map.keys()[i as int]));
        }
        res.push(compute_implicit_imports_for_module(name, ctx));
        proof {
            assert forall|j: int, x: Seq<char>| 0 <= j < i + 1 implies (#[trigger] res@[j]@.contains(x)
                <==> is_implicit(ctx, ctx.analysis_map.keys()[j], x)) by {
                if j < i {
                    assert(res@[j] == before[j]);
                }
            }
        }
    }
    res
}

/// Adds to each module of a project the modules that it uses without importing them.
pub fn get_implicit_imports(analysis_map: &mut AnalysisMap, import_graph: &ImportGraph)
    ensures
        exists|ctx: ImplicitImportContext| #[trigger]
            is_context(&ctx, old(analysis_map), import_graph) && implicit_added(
                &ctx,
                old(analysis_map),
                final(analysis_map),
            ),
{
    let found: Vec<NameSet>;
    let ghost old_map = *analysis_map;
    let ghost context: ImplicitImportContext;
    {
        let init_module_map = build_init_module_map(analysis_map);
        let additional_called_imports = get_additional_called_imports(analysis_map);
        let ctx = ImplicitImportContext {
            analysis_map: &*analysis_map,
            additional_called_imports: &additional_called_imports,
            init_module_map: &init_module_map,
            import_graph,
        };
        proof {
            context = ctx;
            assert(is_context(&ctx, &old_map, import_graph));
        }
        found = implicit_imports_of_all(&ctx);
    }
    let n: usize = analysis_map.len();
    let ghost keys = analysis_map.keys();
    for i in 0..n
        invariant
            n == keys.len(),
            keys == old_map.keys(),
            old_map.ordered(),
            analysis_map.ordered(),
            analysis_map.keys() == keys,
            analysis_map@.dom() == old_map@.dom(),
            *context.analysis_map == old_map,
            found@.len() == n,
            forall|i: int, x: Seq<char>|
                0 <= i < n ==> (#[trigger] found@[i]@.contains(x) <==> is_implicit(
                    &context,
                    keys[i],
                    x,
                )),
            forall|j: int|
                0 <= j < i ==> with_implicit(
                    old_map@[#[trigger] keys[j]],
                    analysis_map@[keys[j]],
                    Set::new(|x: Seq<char>| is_implicit(&context, keys[j], x)),
                ),
            forall|j: int| i <= j < n ==> analysis_map@[#[trigger] keys[j]] == old_map@[keys[j]],
    {
        let ghost so_far = analysis_map@;
        let ghost key = keys[i as int];
        proof {
            assert(old_map@.contains_key(key));
            assert(analysis_map@.contains_key(key));
        }
        let mut module = analysis_map.replace_at(i, AnalyzedModule::empty());
        proof {
            assert(module == so_far[key]);
        }
        module.implicit_imports.extend(&found[i]);
        let ghost new = module;
        let _ = analysis_map.replace_at(i, module);
        proof {
            assert(analysis_map@ =~= so_far.insert(key, new));
            assert(analysis_map@.dom() =~= old_map@.dom());
            assert(found@[i as int]@ =~= Set::new(|x: Seq<char>| is_implicit(&context, key, x)));
            assert(with_implicit(
                old_map@[key],
                new,
                Set::new(|x: Seq<char>| is_implicit(&context, key, x)),
            ));
            assert forall|j: int| 0 <= j < n && j != i implies keys[j] != key by {}
        }
    }
    proof {
        assert forall|m: Seq<char>| #[trigger] old_map@.contains_key(m) implies with_implicit(
            old_map@[m],
            analysis_map@[m],
            Set::new(|x: Seq<char>| is_implicit(&context, m, x)),
        ) by {
            let j = keys.index_of(m);
            assert(keys[j] == m);
        }
        assert(implicit_added(&context, &old_map, analysis_map));
    }
}

/// The imports of a module at module level that are not lazy and that nothing uses.
pub open spec fn unused_imports(map: &AnalysisMap, module: Seq<char>) -> Set<Seq<char>> {
    let effects = map@[module].module_effects;
    pending(map, module, module).difference(effects.all_called_import_names@).intersect(
        effects.eager_imports@,
    )
}

/// Finds the imports of each module that are there only for their side effects: those at module
/// level that are not lazy and that nothing uses.
pub fn compute_side_effect_imports(analysis_map: &AnalysisMap) -> (res: NameSets)
    ensures
        res.deep_view() == Map::new(
            |m: Seq<char>| analysis_map@.contains_key(m),
            |m: Seq<char>| unused_imports(analysis_map, m),
        ),
{
    let mut res: NameSets = NameMap::new();
    let n: usize = analysis_map.len();
    let ghost keys = analysis_map.keys();
    let ghost wanted = Map::new(
        |m: Seq<char>| analysis_map@.contains_key(m),
        |m: Seq<char>| unused_imports(analysis_map, m),
    );
    proof {
        assert(res.deep_view() =~= wanted.restrict(keys.take(0).to_set()));
    }
    for i in 0..n
        invariant
            n == keys.len(),
            keys == analysis_map.keys(),
            analysis_map.ordered(),
            wanted == Map::new(
                |m: Seq<char>| analysis_map@.contains_key(m),
                |m: Seq<char>| unused_imports(analysis_map, m),
            ),
            res.deep_view() == wanted.restrict(keys.take(i as int).to_set()),
    {
        let name = analysis_map.key_at(i);
        let output = analysis_map.value_at(i);
        let ghost key = keys[i as int];
        let ghost before = res.deep_view();
        let imports = scope_names(&output.module_effects.pending_imports, name);
        let eager = imports.intersection(&output.module_effects.eager_imports);
        let unused = eager.difference(&output.module_effects.all_called_import_names);
        let ghost set = unused@;
        let _ = res.insert(name.clone(), unused);
        proof {
            crate::name_set::lemma_take_more(keys, i as int);
            assert(analysis_map@.contains_key(key));
            assert(set =~= unused_imports(analysis_map, key));
            assert(res.deep_view() =~= before.insert(key, set));
            assert(res.deep_view() =~= wanted.restrict(keys.take(i + 1).to_set()));
        }
    }
    proof {
        assert(keys.take(n as int) =~= keys);
        assert(wanted.restrict(keys.to_set()) =~= wanted);
    }
    res
}

} // verus!
