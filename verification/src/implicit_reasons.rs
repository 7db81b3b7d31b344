//! When a module counts as used without being imported, and when it does not.

use crate::implicit_imports::{
    accounts_for, called, imported_after, is_accounted, is_implicit, is_imported, is_loaded_attribute,
    is_unresolved, init_name, loaded_by_calls, loaded_by_function, loaded_by_imported_calls, loaded_by_module,
    loaded_in_order, loads_as_attribute, module_loads_as, pending, some_unresolved, ImplicitImportContext,
};
use crate::imports::parent_dot;
use crate::known_parents::{is_nearest, is_parent, the_nearest_parent_is_found};
use crate::module_name::dotted;
use crate::name_sets::set_at;
use vstd::prelude::*;

verus! {

/// An implicit import is used by some scope, and neither the module nor a scope that uses it imports it;
/// it is none of the submodules that every Python process loads at its start.
pub proof fn implicit_imports_are_used_and_not_imported(
    ctx: &ImplicitImportContext,
    module: Seq<char>,
    name: Seq<char>,
)
    requires
        is_implicit(ctx, module, name),
    ensures
        exists|scope: Seq<char>| #[trigger] called(ctx.analysis_map, module, scope).contains(name),
        forall|scope: Seq<char>| #[trigger]
            called(ctx.analysis_map, module, scope).contains(name) ==> !pending(ctx.analysis_map, module, module).contains(
                name,
            ) && !pending(ctx.analysis_map, module, scope).contains(name),
        name != "encodings.aliases"@ && name != "encodings.utf_8"@ && name != "os.path"@,
{
    assert forall|scope: Seq<char>| #[trigger]
        called(ctx.analysis_map, module, scope).contains(name) implies !pending(
        ctx.analysis_map,
        module,
        module,
    ).contains(name) && !pending(ctx.analysis_map, module, scope).contains(name) by {
        if is_imported(ctx.analysis_map, module, scope, name) {
            assert(accounts_for(ctx, module, scope, name, name));
        }
    }
}

/// What an imported module that is used imports and uses itself is no implicit import.
pub proof fn imports_of_imports_are_not_implicit(
    ctx: &ImplicitImportContext,
    module: Seq<char>,
    scope: Seq<char>,
    import: Seq<char>,
    name: Seq<char>,
)
    requires
        called(ctx.analysis_map, module, scope).contains(import),
        pending(ctx.analysis_map, module, module).contains(import) || pending(
            ctx.analysis_map,
            module,
            scope,
        ).contains(import),
        pending(ctx.analysis_map, import, import).contains(name),
        called(ctx.analysis_map, import, import).contains(name),
    ensures
        !is_implicit(ctx, module, name),
{
    assert(accounts_for(ctx, module, scope, import, name));
}

/// A function that is called loads what it imports itself, and what it uses of the imports of its module:
/// none of that is an implicit import of the caller.
pub proof fn imports_of_called_functions_are_not_implicit(
    ctx: &ImplicitImportContext,
    module: Seq<char>,
    scope: Seq<char>,
    function: Seq<char>,
    home: Seq<char>,
    name: Seq<char>,
)
    requires
        called(ctx.analysis_map, module, scope).contains(function),
        !is_imported(ctx.analysis_map, module, scope, function),
        ctx.analysis_map@[module].module_effects.called_functions@.contains(function),
        is_nearest(home, function, ctx.analysis_map@.dom()),
        pending(ctx.analysis_map, home, function).contains(name) || (called(
            ctx.analysis_map,
            home,
            function,
        ).contains(name) && pending(ctx.analysis_map, home, home).contains(name)),
    ensures
        !is_implicit(ctx, module, name),
        !is_implicit(ctx, module, function),
{
    let known = ctx.analysis_map@.dom();
    the_nearest_parent_is_found(function, known);
    assert(is_parent(home, function) && known.contains(home));
    let found = function.take(parent_dot(function, known));
    assert(is_parent(found, function));
    assert(found.len() == home.len());
    assert(found == home);
    assert(loaded_by_function(ctx.analysis_map, known, function).contains(name));
    assert(accounts_for(ctx, module, scope, function, name));
    assert(accounts_for(ctx, module, scope, function, function));
}

/// An attribute of something that is imported, which is no module itself, is no implicit import.
pub proof fn attributes_of_imports_are_not_implicit(
    ctx: &ImplicitImportContext,
    module: Seq<char>,
    parent: Seq<char>,
    name: Seq<char>,
)
    requires
        !ctx.import_graph.graph.node_set().contains(name),
        is_parent(parent, name),
        ctx.analysis_map@[module].module_effects.all_pending_import_names@.contains(parent),
    ensures
        !is_implicit(ctx, module, name),
{
    let imports = ctx.analysis_map@[module].module_effects.all_pending_import_names@;
    the_nearest_parent_is_found(name, imports);
    assert(is_loaded_attribute(name, imports, ctx.import_graph.graph.node_set()));
    if exists|scope: Seq<char>| #[trigger] called(ctx.analysis_map, module, scope).contains(name) {
        let scope = choose|scope: Seq<char>| #[trigger] called(ctx.analysis_map, module, scope).contains(name);
        assert(accounts_for(ctx, module, scope, name, name));
    }
}

/// A module that an imported module imports under a name of its own is no implicit import where it is used
/// as an attribute of the imported one.
pub proof fn modules_imported_as_attributes_are_not_implicit(
    ctx: &ImplicitImportContext,
    module: Seq<char>,
    import: Seq<char>,
    attr: Seq<char>,
)
    requires
        ctx.analysis_map@[module].module_effects.all_pending_import_names@.contains(import),
        ctx.analysis_map@.contains_key(init_name(ctx.init_module_map, import)),
        pending(
            ctx.analysis_map,
            init_name(ctx.init_module_map, import),
            init_name(ctx.init_module_map, import),
        ).contains(attr),
    ensures
        !is_implicit(ctx, module, dotted(import, attr)),
{
    let name = dotted(import, attr);
    let imports = ctx.analysis_map@[module].module_effects.all_pending_import_names@;
    let inner = init_name(ctx.init_module_map, import);
    assert(crate::implicit_imports::loads_as(
        &ctx.analysis_map@[inner].module_effects.pending_imports,
        import,
        attr,
        name,
        name,
    ));
    assert(module_loads_as(ctx, import, name, name));
    assert(loads_as_attribute(ctx, imports, name, name));
    if exists|scope: Seq<char>| #[trigger] called(ctx.analysis_map, module, scope).contains(name) {
        let scope = choose|scope: Seq<char>| #[trigger] called(ctx.analysis_map, module, scope).contains(name);
        assert(accounts_for(ctx, module, scope, name, name));
    }
}

proof fn lemma_imported(
    imports: Map<Seq<char>, Set<Seq<char>>>,
    module: Seq<char>,
    functions: Seq<Seq<char>>,
    name: Seq<char>,
)
    ensures
        imported_after(imports, module, functions).contains(name) <==> set_at(imports, module).contains(name) || exists|
            i: int,
        | 0 <= i < functions.len() && set_at(imports, #[trigger] functions[i]).contains(name),
    decreases functions.len(),
{
    if functions.len() > 0 {
        let front = functions.drop_last();
        lemma_imported(imports, module, front, name);
        if exists|i: int| 0 <= i < front.len() && set_at(imports, #[trigger] front[i]).contains(name) {
            let i = choose|i: int| 0 <= i < front.len() && set_at(imports, #[trigger] front[i]).contains(name);
            assert(set_at(imports, functions[i]).contains(name));
        }
        if exists|i: int| 0 <= i < functions.len() && set_at(imports, #[trigger] functions[i]).contains(name) {
            let i = choose|i: int| 0 <= i < functions.len() && set_at(imports, #[trigger] functions[i]).contains(name);
            if i < front.len() {
                assert(set_at(imports, front[i]).contains(name));
            }
        }
    }
}

proof fn lemma_in_order(
    imports: Map<Seq<char>, Set<Seq<char>>>,
    uses: Map<Seq<char>, Set<Seq<char>>>,
    module: Seq<char>,
    functions: Seq<Seq<char>>,
    j: int,
    name: Seq<char>,
)
    requires
        0 <= j < functions.len(),
        set_at(uses, functions[j]).contains(name),
        imported_after(imports, module, functions.take(j + 1)).contains(name),
    ensures
        loaded_in_order(imports, uses, module, functions).contains(name),
    decreases functions.len(),
{
    let front = functions.drop_last();
    if j < front.len() {
        assert(front.take(j + 1) =~= functions.take(j + 1));
        lemma_in_order(imports, uses, module, front, j, name);
    } else {
        assert(functions.take(j + 1) =~= functions);
    }
}

/// The functions that an imported module calls load what each uses of what the module, or a function that
/// was called before it, or it itself imports: none of that is an implicit import of a module that uses
/// something which is neither imported nor called.
pub proof fn imports_of_functions_that_imports_call_are_not_implicit(
    ctx: &ImplicitImportContext,
    module: Seq<char>,
    scope: Seq<char>,
    used: Seq<char>,
    import: Seq<char>,
    i: int,
    j: int,
    name: Seq<char>,
)
    requires
        called(ctx.analysis_map, module, scope).contains(used),
        !is_imported(ctx.analysis_map, module, scope, used),
        !ctx.analysis_map@[module].module_effects.called_functions@.contains(used),
        ctx.analysis_map@[module].module_effects.all_pending_import_names@.contains(import),
        ctx.analysis_map@.contains_key(init_name(ctx.init_module_map, import)),
        ({
            let inner = init_name(ctx.init_module_map, import);
            let functions = ctx.analysis_map@[inner].module_effects.called_functions.items();
            &&& 0 <= j < functions.len()
            &&& called(ctx.analysis_map, inner, functions[j]).contains(name)
            &&& pending(ctx.analysis_map, inner, inner).contains(name) || (0 <= i <= j && pending(
                ctx.analysis_map,
                inner,
                functions[i],
            ).contains(name))
        }),
    ensures
        !is_implicit(ctx, module, name),
{
    let inner = init_name(ctx.init_module_map, import);
    let effects = ctx.analysis_map@[inner].module_effects;
    let functions = effects.called_functions.items();
    let imports = effects.deep_view().pending_imports;
    let first = functions.take(j + 1);
    lemma_imported(imports, inner, first, name);
    if 0 <= i <= j && set_at(imports, functions[i]).contains(name) {
        assert(set_at(imports, first[i]).contains(name));
    }
    lemma_in_order(imports, effects.deep_view().called_imports, inner, functions, j, name);
    assert(loaded_by_calls(ctx.analysis_map, inner).contains(name));
    assert(loaded_by_imported_calls(
        ctx,
        ctx.analysis_map@[module].module_effects.all_pending_import_names@,
        name,
    ));
    assert(is_unresolved(ctx, module, scope, used));
    assert(some_unresolved(ctx, module));
    assert(is_accounted(ctx, module, name));
}

/// A module that imports nothing and calls no function uses every module implicitly that it uses, but for
/// those that are loaded when Python starts.
pub proof fn without_imports_all_uses_are_implicit(
    ctx: &ImplicitImportContext,
    module: Seq<char>,
    scope: Seq<char>,
    name: Seq<char>,
)
    requires
        called(ctx.analysis_map, module, scope).contains(name),
        forall|s: Seq<char>, n: Seq<char>| !#[trigger] pending(ctx.analysis_map, module, s).contains(n),
        forall|n: Seq<char>|
            !#[trigger] ctx.analysis_map@[module].module_effects.all_pending_import_names@.contains(n),
        forall|n: Seq<char>| !#[trigger] ctx.analysis_map@[module].module_effects.called_functions@.contains(n),
        name != "encodings.aliases"@ && name != "encodings.utf_8"@ && name != "os.path"@,
    ensures
        is_implicit(ctx, module, name),
{
    let imports = ctx.analysis_map@[module].module_effects.all_pending_import_names@;
    assert forall|s: Seq<char>, import: Seq<char>|
        called(ctx.analysis_map, module, s).contains(import) implies !#[trigger] accounts_for(
        ctx,
        module,
        s,
        import,
        name,
    ) by {
        the_nearest_parent_is_found(import, imports);
    }
    assert(!loaded_by_imported_calls(ctx, imports, name));
}

/// A module that is imported by none of the scopes that use it, and that nothing which the module uses or
/// imports loads, is an implicit import.
pub proof fn what_nothing_loads_is_implicit(
    ctx: &ImplicitImportContext,
    module: Seq<char>,
    scope: Seq<char>,
    name: Seq<char>,
)
    requires
        called(ctx.analysis_map, module, scope).contains(name),
        name != "encodings.aliases"@ && name != "encodings.utf_8"@ && name != "os.path"@,
        forall|s: Seq<char>| !#[trigger] pending(ctx.analysis_map, module, s).contains(name),
        !ctx.analysis_map@[module].module_effects.called_functions@.contains(name),
        ctx.import_graph.graph.node_set().contains(name),
        forall|import: Seq<char>| !#[trigger] loaded_by_module(ctx.analysis_map, import).contains(name),
        forall|import: Seq<char>|
            !#[trigger] loaded_by_function(ctx.analysis_map, ctx.analysis_map@.dom(), import).contains(name),
        forall|m: Seq<char>| !#[trigger] crate::implicit_imports::additional_at(ctx, m).contains(name),
        forall|m: Seq<char>| !#[trigger] loaded_by_calls(ctx.analysis_map, m).contains(name),
        forall|m: Seq<char>, key: Seq<char>| !#[trigger] module_loads_as(ctx, m, key, name),
    ensures
        is_implicit(ctx, module, name),
{
    let imports = ctx.analysis_map@[module].module_effects.all_pending_import_names@;
    assert forall|s: Seq<char>, import: Seq<char>|
        called(ctx.analysis_map, module, s).contains(import) implies !#[trigger] accounts_for(
        ctx,
        module,
        s,
        import,
        name,
    ) by {
        assert(!pending(ctx.analysis_map, module, s).contains(name));
        assert(!pending(ctx.analysis_map, module, module).contains(name));
    }
}

} // verus!
