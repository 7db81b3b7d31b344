use lifeguard::attribute::AttrMap;
use lifeguard::attribute::Attribute;
use lifeguard::cache::LibraryCache;
use lifeguard::cached_exports::CachedExports;
use lifeguard::cached_module::{
    resolve_implicit_imports, CachedError, CachedModule, CachedModuleSafety, CachedSafety,
};
use lifeguard::errors::ErrorKind;
use lifeguard::exports::{ExportType, Exports};
use lifeguard::imports::ImportGraph;
use lifeguard::manifest::cache_paths;
use lifeguard::module_name::ModuleName;
use lifeguard::module_safety::{FunctionSafety, FunctionSafetyInfo, ModuleSafety, SafetyResult};
use lifeguard::name_map::NameMap;
use lifeguard::name_set::NameSet;
use lifeguard::name_sets::{set_of, NameSets};
use lifeguard::re_export_map::{build_re_export_map, build_re_export_map_from_cache};
use lifeguard::spread::CachedReExport;
use lifeguard::verdicts::{
    is_call_verified_safe, is_call_verified_safe_indexed, promote_fixpoint, FunctionTable,
};

fn mn(s: &str) -> ModuleName {
    ModuleName::from_str(s)
}

fn module_with_error(name: &ModuleName, kind: ErrorKind, metadata: &str) -> CachedModule {
    let mut module = CachedModule::empty(name.clone());
    module.safety = CachedSafety::Checked(CachedModuleSafety {
        errors: vec![CachedError {
            kind,
            metadata: metadata.to_owned(),
        }],
        force_imports_eager_overrides: Vec::new(),
        implicit_imports: Vec::new(),
    });
    module
}

#[test]
fn clear_verified_errors_processes_every_module() {
    let module_a = mn("test.module_a");
    let module_b = mn("test.module_b");

    let mut cache = LibraryCache {
        modules: vec![
            module_with_error(&module_a, ErrorKind::UnknownFunctionCall, "helper()"),
            module_with_error(&module_b, ErrorKind::UnknownFunctionCall, "helper()"),
        ],
        exports: CachedExports::new(),
    };

    let mut module_names = NameSet::new();
    module_names.insert(module_a.clone());
    module_names.insert(module_b.clone());
    let mut func_safety_by_module: FunctionTable = AttrMap::new();
    for module in [&module_a, &module_b] {
        func_safety_by_module.insert(
            Attribute::new(module.clone(), "helper"),
            FunctionSafetyInfo::new(FunctionSafety::Safe),
        );
    }
    let mut globally_safe_funcs = NameSet::new();
    globally_safe_funcs.insert(mn("helper"));

    let cleared =
        cache.clear_verified_errors(&module_names, &func_safety_by_module, &globally_safe_funcs);

    assert!(
        cleared,
        "expected at least one verified error to be removed"
    );
    assert!(
        cache.modules.iter().all(CachedModule::is_safe),
        "all modules should have their verified errors cleared",
    );
}

#[test]
fn errors_of_other_kinds_are_kept() {
    let a = mn("a");
    let mut cache = LibraryCache {
        modules: vec![module_with_error(&a, ErrorKind::ExecCall, "helper()")],
        exports: CachedExports::new(),
    };
    let names = set_of(&vec![a.clone()]);
    let mut table: FunctionTable = AttrMap::new();
    table.insert(
        Attribute::new(a.clone(), "helper"),
        FunctionSafetyInfo::new(FunctionSafety::Safe),
    );
    let safe = set_of(&vec![mn("helper")]);
    assert!(!cache.clear_verified_errors(&names, &table, &safe));
    assert!(!cache.modules[0].is_safe());
}

#[test]
fn errors_across_libraries_are_resolved() {
    // app calls lib.helper, which a library below it shows to be safe.
    let mut app = module_with_error(&mn("app"), ErrorKind::UnknownFunctionCall, "lib.helper");
    app.missing_imports.insert(mn("lib"));
    let mut cache = LibraryCache {
        modules: vec![app],
        exports: CachedExports::new(),
    };
    let mut lib = CachedModule::empty(mn("lib"));
    lib.function_safety
        .insert(mn("helper"), FunctionSafetyInfo::new(FunctionSafety::Safe));
    let dep = LibraryCache {
        modules: vec![lib],
        exports: CachedExports::new(),
    };
    cache.merge_dep_caches(vec![dep]);
    assert_eq!(cache.modules.len(), 2);
    cache.resolve_cross_library_errors();
    for module in &cache.modules {
        assert!(module.is_safe(), "{}", module.name.as_str());
    }
}

#[test]
fn an_unsafe_callee_keeps_the_error() {
    let app = module_with_error(&mn("app"), ErrorKind::UnknownFunctionCall, "lib.helper");
    let mut lib = CachedModule::empty(mn("lib"));
    lib.function_safety
        .insert(mn("helper"), FunctionSafetyInfo::new(FunctionSafety::Unsafe));
    let mut cache = LibraryCache {
        modules: vec![app, lib],
        exports: CachedExports::new(),
    };
    cache.resolve_cross_library_errors();
    assert!(!cache.modules[0].is_safe());
}

#[test]
fn promotion_follows_chains_of_calls() {
    let names = set_of(&vec![mn("a"), mn("b"), mn("c")]);
    let mut table: FunctionTable = AttrMap::new();
    table.insert(
        Attribute::new(mn("a"), "f"),
        FunctionSafetyInfo::unsafe_missing_dep(mn("b.g")),
    );
    table.insert(
        Attribute::new(mn("b"), "g"),
        FunctionSafetyInfo::unsafe_missing_dep(mn("c.h")),
    );
    table.insert(
        Attribute::new(mn("c"), "h"),
        FunctionSafetyInfo::new(FunctionSafety::Safe),
    );
    assert!(!is_call_verified_safe("a.f", &names, &table));
    let (promoted, safe) = promote_fixpoint(&names, &mut table);
    assert_eq!(promoted.len(), 2);
    assert!(safe.contains_str("f") && safe.contains_str("g") && safe.contains_str("h"));
    assert!(is_call_verified_safe("a.f", &names, &table));
}

#[test]
fn a_cache_gives_back_what_it_was_built_of() {
    let mut safety_map: NameMap<SafetyResult> = NameMap::new();
    safety_map.insert(mn("a"), SafetyResult::Analyzed(ModuleSafety::new()));
    safety_map.insert(mn("b"), SafetyResult::AnalysisError("bad".to_string()));
    let mut graph = ImportGraph::new();
    graph.graph.add_node(&mn("a"));
    graph.graph.add_node(&mn("b"));
    graph.graph.add_edge(&mn("a"), &mn("b"));
    graph.add_missing(&mn("a"), mn("gone"));
    let mut side: NameSets = NameMap::new();
    side.insert(mn("a"), set_of(&vec![mn("b")]));
    let mut exports = Exports::empty();
    exports.add_export(mn("a.f"), ExportType::Function);
    exports.insert_re_export(
        Attribute::new(mn("b"), "f"),
        Attribute::new(mn("a"), "f"),
    );
    let cache = LibraryCache::build(&safety_map, &graph, &exports, &side);
    assert_eq!(cache.modules.len(), 2);
    assert_eq!(cache.module_name_set().len(), 2);
    let again = cache.to_import_graph();
    assert!(again.graph.has_edge(&mn("a"), &mn("b")));
    assert!(again.has_missing_import(&mn("a"), &mn("gone")));
    assert!(cache.to_side_effect_map().get(&mn("a")).unwrap().contains(&mn("b")));
    let results = cache.to_safety_map();
    assert!(results.get(&mn("a")).unwrap().as_safety().unwrap().is_safe());
    assert!(results.get(&mn("b")).unwrap().as_safety().is_none());
    assert_eq!(cache.exports.definitions.len(), 1);
    assert_eq!(cache.exports.re_exports.len(), 1);
}

#[test]
fn caches_of_one_module_are_joined() {
    let mut first = module_with_error(&mn("m"), ErrorKind::ExecCall, "exec");
    first.imports.insert(mn("x"));
    let mut second = module_with_error(&mn("m"), ErrorKind::UnhandledException, "E");
    second.imports.insert(mn("y"));
    second.function_safety.insert(
        mn("f"),
        FunctionSafetyInfo::new(FunctionSafety::UnsafeIfImported),
    );
    first.merge(second);
    assert_eq!(first.imports.len(), 2);
    assert!(first.function_safety.contains_str("f"));
    match &first.safety {
        CachedSafety::Checked(s) => assert_eq!(s.errors.len(), 2),
        CachedSafety::AnalysisError { .. } => panic!("no analysis error was merged"),
    }
    let mut failed = CachedModule::empty(mn("m"));
    failed.safety = CachedSafety::AnalysisError {
        message: "broken".to_string(),
    };
    first.merge(failed);
    assert!(matches!(first.safety, CachedSafety::AnalysisError { .. }));
}

#[test]
fn implicit_imports_name_modules_where_known() {
    let names = set_of(&vec![mn("pkg"), mn("pkg.sub")]);
    let mut imports = vec![mn("pkg.sub.attr"), mn("pkg.sub"), mn("other.thing")];
    resolve_implicit_imports(&mut imports, &names);
    let texts: Vec<&str> = imports.iter().map(|n| n.as_str()).collect();
    assert_eq!(texts, vec!["pkg.sub", "other.thing"]);
}

#[test]
fn re_exported_functions_share_the_verdict() {
    let mut a = CachedModule::empty(mn("a"));
    a.function_safety
        .insert(mn("f"), FunctionSafetyInfo::new(FunctionSafety::Safe));
    let b = CachedModule::empty(mn("b"));
    let mut exports = CachedExports::new();
    exports.re_exports.push(CachedReExport {
        exported_module: mn("b"),
        exported_attr: "f".to_string(),
        imported_module: mn("a"),
        imported_attr: "f".to_string(),
    });
    let mut cache = LibraryCache {
        modules: vec![a, b],
        exports,
    };
    cache.propagate_re_export_safety();
    let info = cache.modules[1].function_safety.get_str("f").unwrap();
    assert_eq!(info.verdict, FunctionSafety::Safe);
}

#[test]
fn safe_modules_are_counted() {
    let cache = LibraryCache {
        modules: vec![
            module_with_error(&mn("a"), ErrorKind::ExecCall, "exec"),
            CachedModule::empty(mn("b")),
            CachedModule::empty(mn("c")),
        ],
        exports: CachedExports::new(),
    };
    assert_eq!(cache.safe_count(), 2);
    assert_eq!(LibraryCache::empty().safe_count(), 0);
}

#[test]
fn only_eager_kinds_can_be_given_back() {
    let mut module = CachedModule::empty(mn("a"));
    module.safety = CachedSafety::Checked(CachedModuleSafety {
        errors: Vec::new(),
        force_imports_eager_overrides: vec![CachedError {
            kind: ErrorKind::ExecCall,
            metadata: "exec".to_owned(),
        }],
        implicit_imports: Vec::new(),
    });
    let mut cache = LibraryCache {
        modules: vec![module],
        exports: CachedExports::new(),
    };
    assert!(cache.is_well_formed());
    if let CachedSafety::Checked(safety) = &mut cache.modules[0].safety {
        safety.force_imports_eager_overrides[0].kind = ErrorKind::UnhandledException;
    }
    assert!(!cache.is_well_formed());
}

#[test]
fn searching_and_the_index_agree() {
    let names = set_of(&vec![mn("a"), mn("b")]);
    let mut table: FunctionTable = AttrMap::new();
    table.insert(
        Attribute::new(mn("a"), "f"),
        FunctionSafetyInfo::new(FunctionSafety::Safe),
    );
    table.insert(
        Attribute::new(mn("b"), "g"),
        FunctionSafetyInfo::new(FunctionSafety::Unsafe),
    );
    let index = set_of(&vec![mn("f")]);
    for name in ["f", "g", "a.f", "b.g", "c.f", "a.f.inner"] {
        assert_eq!(
            is_call_verified_safe(name, &names, &table),
            is_call_verified_safe_indexed(name, &names, &table, &index),
            "{name}"
        );
    }
    assert!(is_call_verified_safe("f", &names, &table));
    assert!(!is_call_verified_safe("g", &names, &table));
}

#[test]
fn cached_re_exports_lead_where_re_exports_do() {
    let mut exports = Exports::empty();
    for (from, to) in [("a", "b"), ("b", "c"), ("x", "y"), ("y", "x")] {
        exports.insert_re_export(
            Attribute::new(mn(from), "Foo"),
            Attribute::new(mn(to), "Foo"),
        );
    }
    let cached = CachedExports::from_exports(&exports);
    let failing = set_of(&vec![mn("c"), mn("x")]);
    let direct = build_re_export_map(&exports, &failing);
    let from_cache = build_re_export_map_from_cache(&cached.re_exports, &failing);
    assert_eq!(direct.len(), from_cache.len());
    for i in 0..direct.len() {
        let other = from_cache.get(direct.key_at(i)).unwrap();
        assert_eq!(direct.value_at(i).len(), other.len());
        for k in 0..other.len() {
            assert!(direct.value_at(i).contains(&other.at(k)));
        }
    }
}

#[test]
fn manifests_list_paths() {
    assert_eq!(cache_paths("a\n\nb\r\nc"), vec!["a", "b", "c"]);
    assert_eq!(cache_paths("a\r"), vec!["a\r"]);
    assert!(cache_paths("\n\r\n").is_empty());
    assert!(cache_paths("").is_empty());
}

#[test]
fn merging_either_way_gives_the_same_errors() {
    let make = |kind: ErrorKind, metadata: &str, import: &str| {
        let mut module = module_with_error(&mn("m"), kind, metadata);
        module.imports.insert(mn(import));
        module.missing_imports.insert(mn("gone"));
        module
    };
    let mut one = make(ErrorKind::ExecCall, "exec", "x");
    one.merge(make(ErrorKind::UnhandledException, "E", "y"));
    let mut other = make(ErrorKind::UnhandledException, "E", "y");
    other.merge(make(ErrorKind::ExecCall, "exec", "x"));
    let errors = |m: &CachedModule| -> Vec<(ErrorKind, String)> {
        match &m.safety {
            CachedSafety::Checked(s) => s.errors.iter().map(|e| (e.kind, e.metadata.clone())).collect(),
            CachedSafety::AnalysisError { .. } => Vec::new(),
        }
    };
    assert_eq!(errors(&one).len(), 2);
    assert_eq!(errors(&one), errors(&other));
    assert_eq!(one.imports.len(), 2);
    assert!(other.imports.contains(&mn("x")) && other.imports.contains(&mn("y")));
    assert!(one.missing_imports.contains(&mn("gone")));
}

#[test]
fn functions_of_other_modules_do_not_count_as_safe() {
    let names = set_of(&vec![mn("a")]);
    let mut table: FunctionTable = AttrMap::new();
    let missing = FunctionSafetyInfo::unsafe_missing_dep(mn("a.g"));
    table.insert(Attribute::new(mn("other"), "f"), missing);
    table.insert(Attribute::new(mn("a"), "g"), FunctionSafetyInfo::new(FunctionSafety::Safe));
    let (_, safe) = promote_fixpoint(&names, &mut table);
    assert!(safe.contains_str("g"));
    assert!(!safe.contains_str("f"));
}

#[test]
fn verdicts_of_a_module_stay_unless_a_safer_one_comes() {
    let mut a = CachedModule::empty(mn("a"));
    a.function_safety
        .insert(mn("f"), FunctionSafetyInfo::unsafe_missing_dep(mn("x.y")));
    let mut b = CachedModule::empty(mn("b"));
    b.function_safety
        .insert(mn("f"), FunctionSafetyInfo::new(FunctionSafety::Safe));
    let mut exports = CachedExports::new();
    exports.re_exports.push(CachedReExport {
        exported_module: mn("b"),
        exported_attr: "f".to_string(),
        imported_module: mn("a"),
        imported_attr: "f".to_string(),
    });
    let mut cache = LibraryCache {
        modules: vec![a, b],
        exports,
    };
    cache.propagate_re_export_safety();
    cache.propagate_re_export_safety();
    let info = cache.modules[1].function_safety.get_str("f").unwrap();
    assert_eq!(info.verdict, FunctionSafety::Safe);
}
