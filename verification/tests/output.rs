use lifeguard::attribute::{AttrMap, Attribute};
use lifeguard::cache_merge::SafetyMap;
use lifeguard::classify::{classify_modules, ClassifiedModules};
use lifeguard::errors::{ErrorKind, SafetyError};
use lifeguard::exports::Exports;
use lifeguard::format::ErrorString;
use lifeguard::imports::ImportGraph;
use lifeguard::lazy_eligible::build_lazy_eligible;
use lifeguard::module_name::ModuleName;
use lifeguard::module_safety::{ModuleSafety, SafetyResult};
use lifeguard::name_map::NameMap;
use lifeguard::name_set::NameSet;
use lifeguard::name_sets::{set_of, NameSets};
use lifeguard::output::{LifeGuardAnalysis, LifeGuardOutput, OutputOptions};
use lifeguard::reach::transitive_importers;
use lifeguard::re_export_map::{build_re_export_map, build_re_export_map_from_cache};
use lifeguard::spread::CachedReExport;
use lifeguard::text_range::TextRange;
use lifeguard::verbose::write_verbose;

fn mn(s: &str) -> ModuleName {
    ModuleName::from_str(s)
}

fn make_error(kind: ErrorKind, metadata: &str, offset: u32) -> SafetyError {
    SafetyError::new(kind, metadata.to_string(), TextRange::new(offset, offset + 1))
}

fn clean() -> SafetyResult {
    SafetyResult::Analyzed(ModuleSafety::new())
}

fn count_of(classified: &ClassifiedModules, kind: ErrorKind, metadata: &str) -> Option<usize> {
    classified.aggregated_errors.get_in(&mn(&kind.error_string()), metadata).copied()
}

#[test]
fn test_classify_modules_passing() {
    let mut safety_map: SafetyMap = NameMap::new();
    safety_map.insert(mn("foo"), clean());
    safety_map.insert(mn("bar"), clean());

    let result = classify_modules(&safety_map);
    assert_eq!(result.passing_modules.len(), 2);
    assert_eq!(result.failing_modules.len(), 0);
    assert!(result.load_imports_eagerly.is_empty());
}

#[test]
fn test_classify_modules_failing() {
    let mut safety_map: SafetyMap = NameMap::new();
    let mut safety = ModuleSafety::new();
    safety.add_error(make_error(ErrorKind::UnsafeFunctionCall, "some_func()", 0));
    safety_map.insert(mn("bad"), SafetyResult::Analyzed(safety));

    let result = classify_modules(&safety_map);
    assert_eq!(result.failing_modules.len(), 1);
    assert!(result.failing_modules.contains(&mn("bad")));
    assert_eq!(result.passing_modules.len(), 0);
}

#[test]
fn test_classify_modules_analysis_error() {
    let mut safety_map: SafetyMap = NameMap::new();
    safety_map.insert(
        mn("broken"),
        SafetyResult::AnalysisError("parse failed".to_string()),
    );
    safety_map.insert(mn("good"), clean());

    let result = classify_modules(&safety_map);
    assert!(result.failing_modules.contains(&mn("broken")));
    assert!(result.passing_modules.contains(&mn("good")));
    assert_eq!(result.aggregated_errors.attributes().len(), 0);
}

#[test]
fn test_classify_modules_load_imports_eagerly() {
    let mut safety_map: SafetyMap = NameMap::new();
    let mut safety = ModuleSafety::new();
    safety.add_force_import_override(make_error(ErrorKind::ExecCall, "exec()", 0));
    safety_map.insert(mn("exec_mod"), SafetyResult::Analyzed(safety));

    let result = classify_modules(&safety_map);
    assert!(result.load_imports_eagerly.contains(&mn("exec_mod")));
}

#[test]
fn test_classify_modules_aggregated_errors() {
    let mut safety_map: SafetyMap = NameMap::new();

    let mut s1 = ModuleSafety::new();
    s1.add_error(make_error(ErrorKind::UnsafeFunctionCall, "f()", 0));
    safety_map.insert(mn("a"), SafetyResult::Analyzed(s1));

    let mut s2 = ModuleSafety::new();
    s2.add_error(make_error(ErrorKind::UnsafeFunctionCall, "f()", 10));
    safety_map.insert(mn("b"), SafetyResult::Analyzed(s2));

    let result = classify_modules(&safety_map);
    assert_eq!(count_of(&result, ErrorKind::UnsafeFunctionCall, "f()"), Some(2));
    assert_eq!(count_of(&result, ErrorKind::UnsafeMethodCall, "f()"), None);
}

#[test]
fn test_serialize_sorted_output() {
    let mut output = LifeGuardOutput::new(true);
    output.load_imports_eagerly.insert(mn("z_mod"));
    output.load_imports_eagerly.insert(mn("a_mod"));
    output.lazy_eligible.insert(mn("foo"), NameSet::new());

    let arranged = output.arrange();
    let eager = arranged.load_imports_eagerly;
    assert_eq!(eager[0].as_str(), "a_mod");
    assert_eq!(eager[1].as_str(), "z_mod");
    assert_eq!(arranged.lazy_eligible.len(), 1);
    assert_eq!(arranged.lazy_eligible[0].0.as_str(), "foo");
    assert!(arranged.lazy_eligible[0].1.is_empty());
}

#[test]
fn test_serialize_unsorted_output() {
    let mut output = LifeGuardOutput::new(false);
    output.lazy_eligible.insert(mn("mod_a"), {
        let mut s = NameSet::new();
        s.insert(mn("dep_x"));
        s
    });

    let arranged = output.arrange();
    assert!(arranged.load_imports_eagerly.is_empty());
    assert_eq!(arranged.lazy_eligible.len(), 1);
    assert_eq!(arranged.lazy_eligible[0].1[0].as_str(), "dep_x");
}

fn sources_of(name: &str, code: &str) -> NameMap<String> {
    let mut sources = NameMap::new();
    sources.insert(mn(name), code.to_string());
    sources
}

#[test]
fn test_write_verbose_analysis_error() {
    let sources = sources_of("broken", "x = 1\n");
    let mut safety_map: SafetyMap = NameMap::new();
    safety_map.insert(
        mn("broken"),
        SafetyResult::AnalysisError("something went wrong".to_string()),
    );

    let output = write_verbose(&safety_map, &sources);

    assert!(output.contains("## broken"));
    assert!(output.contains("### Analysis Error"));
    assert!(output.contains("something went wrong"));
}

#[test]
fn test_write_verbose_no_errors() {
    let sources = sources_of("clean", "x = 1\n");
    let mut safety_map: SafetyMap = NameMap::new();
    safety_map.insert(mn("clean"), clean());

    let output = write_verbose(&safety_map, &sources);

    assert!(output.contains("## clean"));
    assert!(output.contains("Lazy imports incompatibilities were not detected"));
}

#[test]
fn test_write_verbose_with_errors() {
    let sources = sources_of("bad", "some_func()\n");
    let mut safety_map: SafetyMap = NameMap::new();
    let mut safety = ModuleSafety::new();
    safety.add_error(make_error(ErrorKind::UnsafeFunctionCall, "some_func()", 0));
    safety_map.insert(mn("bad"), SafetyResult::Analyzed(safety));

    let output = write_verbose(&safety_map, &sources);

    assert!(output.contains("## bad"));
    assert!(output.contains("### Errors"));
    assert!(output.contains("UnsafeFunctionCall"));
    assert!(output.contains("some_func()"));
}

fn nothing_classified() -> ClassifiedModules {
    ClassifiedModules {
        failing_modules: NameSet::new(),
        passing_modules: NameSet::new(),
        load_imports_eagerly: NameSet::new(),
        implicit_imports: NameMap::new(),
        aggregated_errors: AttrMap::new(),
    }
}

#[test]
fn test_build_lazy_eligible_basic() {
    let mut import_graph = ImportGraph::new();
    import_graph.graph.add_node(&mn("safe"));
    import_graph.graph.add_node(&mn("unsafe_mod"));
    import_graph.graph.add_edge(&mn("safe"), &mn("unsafe_mod"));

    let mut classified = nothing_classified();
    classified.passing_modules.insert(mn("safe"));
    classified.failing_modules.insert(mn("unsafe_mod"));

    let re_export_map: NameSets = NameMap::new();
    let all_cycles: Vec<Vec<ModuleName>> = vec![];
    let lazy_eligible = build_lazy_eligible(&import_graph, &classified, &re_export_map, &all_cycles);

    let entry = lazy_eligible.get(&mn("safe")).unwrap();
    assert!(entry.contains(&mn("unsafe_mod")));
}

#[test]
fn test_cycle_deps_propagate_to_children() {
    // Create a cycle: a -> b -> a
    // And a child module a.child that is passing
    let mut import_graph = ImportGraph::new();
    let a = mn("a");
    let b = mn("b");
    let a_child = mn("a.child");

    import_graph.graph.add_node(&a);
    import_graph.graph.add_node(&b);
    import_graph.graph.add_node(&a_child);
    import_graph.graph.add_edge(&a, &b);
    import_graph.graph.add_edge(&b, &a);

    let mut classified = nothing_classified();
    classified.passing_modules.insert(a.clone());
    classified.passing_modules.insert(b.clone());
    classified.passing_modules.insert(a_child.clone());

    let re_export_map: NameSets = NameMap::new();
    let all_cycles = vec![vec![a.clone(), b.clone()]];
    let lazy_eligible = build_lazy_eligible(&import_graph, &classified, &re_export_map, &all_cycles);

    // a should have b as a cycle dep
    let a_deps = lazy_eligible.get(&a).unwrap();
    assert!(a_deps.contains(&b));

    // b should have a as a cycle dep
    let b_deps = lazy_eligible.get(&b).unwrap();
    assert!(b_deps.contains(&a));

    // a.child (child of cycle member a) should also get the cycle deps propagated
    let child_deps = lazy_eligible.get(&a_child).unwrap();
    assert!(child_deps.contains(&b));
}

#[test]
fn test_side_effect_imports_do_not_observe_same_pass_updates() {
    let exports = Exports::empty();

    for iteration in 0..64 {
        let mut safety_map: SafetyMap = NameMap::new();
        let mut import_graph = ImportGraph::new();
        let mut side_effect_imports: NameSets = NameMap::new();
        let mut chains = Vec::new();

        for chain_idx in 0..16u32 {
            let outer = mn(&format!("outer_{iteration}_{chain_idx}"));
            let middle = mn(&format!("middle_{iteration}_{chain_idx}"));
            let inner = mn(&format!("inner_{iteration}_{chain_idx}"));
            let leaf = mn(&format!("leaf_{iteration}_{chain_idx}"));

            import_graph.graph.add_node(&outer);
            import_graph.graph.add_node(&middle);
            import_graph.graph.add_node(&inner);
            import_graph.graph.add_node(&leaf);
            import_graph.graph.add_edge(&outer, &middle);
            import_graph.graph.add_edge(&middle, &inner);
            import_graph.graph.add_edge(&inner, &leaf);

            safety_map.insert(outer.clone(), clean());
            safety_map.insert(middle.clone(), clean());
            safety_map.insert(inner.clone(), clean());

            let mut failing = ModuleSafety::new();
            failing.add_error(make_error(
                ErrorKind::UnknownDecoratorCall,
                "unknown-decorator-call",
                chain_idx,
            ));
            safety_map.insert(leaf, SafetyResult::Analyzed(failing));

            side_effect_imports.insert(middle.clone(), set_of(&vec![inner.clone()]));
            side_effect_imports.insert(outer.clone(), set_of(&vec![middle.clone()]));
            chains.push((outer, middle, inner));
        }

        let options = OutputOptions {
            verbose: false,
            sorted_output: true,
        };
        let mut analysis = LifeGuardAnalysis::new(&safety_map, &import_graph, &exports, options);
        analysis.propagate_side_effect_imports(&side_effect_imports);

        for (outer, middle, inner) in chains {
            let middle_deps = analysis.output.lazy_eligible.get(&middle).unwrap();
            assert!(
                middle_deps.contains(&inner),
                "{} should be guarded by {}",
                middle.as_str(),
                inner.as_str(),
            );

            let outer_deps = analysis.output.lazy_eligible.get(&outer).unwrap();
            assert!(
                !outer_deps.contains(&middle),
                "{} should not observe side-effect deps added to {} during the same propagation pass",
                outer.as_str(),
                middle.as_str(),
            );
        }
    }
}

fn attr(module: &str, name: &str) -> Attribute {
    Attribute::new(mn(module), name)
}

fn holds(map: &NameSets, key: &str, name: &str) -> bool {
    map.get(&mn(key)).unwrap().contains(&mn(name))
}

fn failing_set(name: &str) -> NameSet {
    let mut failing = NameSet::new();
    failing.insert(mn(name));
    failing
}

#[test]
fn test_re_export_map_single_hop() {
    // A re-exports Foo from B, B is failing
    let mut exports = Exports::empty();
    exports.insert_re_export(attr("a", "Foo"), attr("b", "Foo"));

    let map = build_re_export_map(&exports, &failing_set("b"));
    assert!(holds(&map, "a", "b"));
}

#[test]
fn test_re_export_map_two_hops() {
    // A re-exports Foo from B, B re-exports Foo from C, C is failing
    let mut exports = Exports::empty();
    exports.insert_re_export(attr("a", "Foo"), attr("b", "Foo"));
    exports.insert_re_export(attr("b", "Foo"), attr("c", "Foo"));

    let map = build_re_export_map(&exports, &failing_set("c"));
    assert!(holds(&map, "a", "c"));
    assert!(holds(&map, "b", "c"));
}

#[test]
fn test_re_export_map_three_hops() {
    // A -> B -> C -> D, D is failing
    let mut exports = Exports::empty();
    exports.insert_re_export(attr("a", "Foo"), attr("b", "Foo"));
    exports.insert_re_export(attr("b", "Foo"), attr("c", "Foo"));
    exports.insert_re_export(attr("c", "Foo"), attr("d", "Foo"));

    let map = build_re_export_map(&exports, &failing_set("d"));
    assert!(holds(&map, "a", "d"));
    assert!(holds(&map, "b", "d"));
    assert!(holds(&map, "c", "d"));
}

#[test]
fn test_re_export_map_no_failing() {
    // A re-exports from B, but B is not failing
    let mut exports = Exports::empty();
    exports.insert_re_export(attr("a", "Foo"), attr("b", "Foo"));

    let map = build_re_export_map(&exports, &NameSet::new());
    assert!(map.is_empty());
}

#[test]
fn test_re_export_map_cycle() {
    // A -> B -> A (cycle), A is failing
    let mut exports = Exports::empty();
    exports.insert_re_export(attr("a", "Foo"), attr("b", "Foo"));
    exports.insert_re_export(attr("b", "Foo"), attr("a", "Foo"));

    let map = build_re_export_map(&exports, &failing_set("a"));
    // The chain from B runs in a circle and ends nowhere.
    assert!(!map.contains_key(&mn("b")));
}

fn cached(exported: &str, imported: &str) -> CachedReExport {
    CachedReExport {
        exported_module: mn(exported),
        exported_attr: "Foo".to_string(),
        imported_module: mn(imported),
        imported_attr: "Foo".to_string(),
    }
}

#[test]
fn test_re_export_map_from_cache_two_hops() {
    let re_exports = vec![cached("a", "b"), cached("b", "c")];

    let map = build_re_export_map_from_cache(&re_exports, &failing_set("c"));
    assert!(holds(&map, "a", "c"));
    assert!(holds(&map, "b", "c"));
}

#[test]
fn test_re_export_map_from_cache_three_hops() {
    let re_exports = vec![cached("a", "b"), cached("b", "c"), cached("c", "d")];

    let map = build_re_export_map_from_cache(&re_exports, &failing_set("d"));
    assert!(holds(&map, "a", "d"));
    assert!(holds(&map, "b", "d"));
    assert!(holds(&map, "c", "d"));
}

#[test]
fn test_re_export_map_from_cache_cycle() {
    let re_exports = vec![cached("a", "b"), cached("b", "a")];

    let map = build_re_export_map_from_cache(&re_exports, &failing_set("a"));
    assert!(!map.contains_key(&mn("b")));
}

fn sample_analysis() -> LifeGuardAnalysis {
    LifeGuardAnalysis {
        output: LifeGuardOutput::new(true),
        failing_modules: failing_set("bad"),
        passing_modules: {
            let mut s = NameSet::new();
            s.insert(mn("good1"));
            s.insert(mn("good2"));
            s
        },
        aggregated_errors: {
            let mut m = AttrMap::new();
            m.insert(
                Attribute::new(mn(&ErrorKind::UnsafeFunctionCall.error_string()), "f()"),
                3,
            );
            m
        },
    }
}

#[test]
fn test_get_report_format() {
    let analysis = sample_analysis();
    let passing = analysis.passing_modules.len() as f64;
    let total = passing + analysis.failing_modules.len() as f64;
    let report = analysis.get_report(&format!("{:.2}", passing / total * 100.0), "3.00");
    assert!(report.contains("66.67 %"));
    assert!(report.contains("Num of failing files: 1"));
    assert!(report.contains("Num of passing files: 2"));
}

#[test]
fn most_frequent_errors_come_first() {
    let mut analysis = sample_analysis();
    analysis.aggregated_errors.insert(
        Attribute::new(mn(&ErrorKind::ExecCall.error_string()), "exec"),
        5,
    );
    let errors = analysis.most_frequent_errors(10);
    assert_eq!(errors.len(), 2);
    assert_eq!(errors[0].kind, ErrorKind::ExecCall);
    assert_eq!(errors[0].count, 5);
    assert_eq!(errors[1].metadata, "f()");
    assert_eq!(analysis.most_frequent_errors(1).len(), 1);
}

#[test]
fn failing_imports_stand_in_the_way_of_passing_modules() {
    let mut safety_map: SafetyMap = NameMap::new();
    let mut bad = ModuleSafety::new();
    bad.add_error(make_error(ErrorKind::UnhandledException, "E", 0));
    safety_map.insert(mn("good"), clean());
    safety_map.insert(mn("bad"), SafetyResult::Analyzed(bad));
    let mut import_graph = ImportGraph::new();
    import_graph.graph.add_node(&mn("good"));
    import_graph.graph.add_node(&mn("bad"));
    import_graph.graph.add_edge(&mn("good"), &mn("bad"));
    import_graph.graph.add_edge(&mn("bad"), &mn("good"));
    import_graph.add_missing(&mn("good"), mn("gone"));
    let options = OutputOptions {
        verbose: true,
        sorted_output: true,
    };
    let analysis =
        LifeGuardAnalysis::new(&safety_map, &import_graph, &Exports::empty(), options);
    assert!(analysis.passing_modules.contains(&mn("good")));
    assert!(analysis.failing_modules.contains(&mn("bad")));
    let deps = analysis.output.lazy_eligible.get(&mn("good")).unwrap();
    assert!(deps.contains(&mn("bad")) && deps.contains(&mn("gone")));
    assert!(!analysis.output.lazy_eligible.contains_key(&mn("bad")));
    let arranged = analysis.output.arrange();
    let names: Vec<&str> = arranged.lazy_eligible[0].1.iter().map(|n| n.as_str()).collect();
    assert_eq!(names, vec!["bad", "gone"]);
    assert_eq!(arranged.import_cycles.unwrap().len(), 1);
}

#[test]
fn sorted_output_does_not_depend_on_the_order_of_insertion() {
    let mut a = LifeGuardOutput::new(true);
    let mut b = LifeGuardOutput::new(true);
    for name in ["x", "y", "z"] {
        a.load_imports_eagerly.insert(mn(name));
    }
    for name in ["z", "x", "y"] {
        b.load_imports_eagerly.insert(mn(name));
    }
    let texts = |o: LifeGuardOutput| -> Vec<String> {
        let names = o.arrange().load_imports_eagerly;
        names.into_iter().map(|n| n.into_string()).collect()
    };
    assert_eq!(texts(a), texts(b));
}

#[test]
fn verbose_output_is_exact() {
    let mut bad = ModuleSafety::new();
    bad.add_error(make_error(ErrorKind::UnhandledException, "E", 8));
    bad.add_error(make_error(ErrorKind::UnsafeFunctionCall, "f", 0));
    bad.add_force_import_override(make_error(ErrorKind::ExecCall, "exec", 4));
    let mut implicit = NameSet::new();
    implicit.insert(mn("z.y"));
    implicit.insert(mn("a.b"));
    bad.add_implicit_imports(&implicit);
    let mut safety_map: SafetyMap = NameMap::new();
    safety_map.insert(mn("m.bad"), SafetyResult::Analyzed(bad));
    safety_map.insert(mn("clean"), clean());
    safety_map.insert(mn("lost"), clean());
    safety_map.insert(mn("odd"), SafetyResult::AnalysisError("no idea".to_string()));
    let mut sources = sources_of("m.bad", "f()\nexec\nraise E\n");
    sources.insert(mn("clean"), String::new());
    sources.insert(mn("odd"), String::new());
    assert_eq!(
        write_verbose(&safety_map, &sources),
        "# Lifeguard Verbose Output:\n\
         ------------------------------------------------------------------------------\n\
         ## clean \n### Lazy imports incompatibilities were not detected\n\n\
         ## lost \n### Could not parse module\n\n\
         ## m.bad \n### Errors\n  Line 1 - UnsafeFunctionCall f\n  \
         Line 2 - UnhandledException E\n\
         ### Load Imports Eagerly\n  Line 2 - ExecCall exec\n\
         ### Implicit Imports\n  a.b\n  z.y\n\n\
         ## odd \n### Analysis Error\n  no idea\n"
    );
}

#[test]
fn report_is_exact() {
    assert_eq!(
        sample_analysis().get_report("66.67", "3.00"),
        "3, (UnsafeFunctionCall, \"f()\")\n\
         PASS RATE BY FILE %    | AVG NUM OF ERRORS IN FAILING MODULES\n\
         66.67 %                | 3.00\n\
         Num of failing files: 1\n\
         Num of passing files: 2\n\
         Num of load-imports-eagerly modules: 0"
    );
}

#[test]
fn errors_are_counted_together() {
    let mut analysis = sample_analysis();
    assert_eq!(analysis.total_errors(), 3);
    let kind = ErrorKind::ExecCall.error_string();
    analysis.aggregated_errors.insert(Attribute::new(mn(&kind), "exec"), 4);
    analysis.aggregated_errors.insert(Attribute::new(mn(&kind), "eval"), usize::MAX);
    assert_eq!(analysis.total_errors(), 7 + usize::MAX as u128);
}

#[test]
fn no_module_is_its_own_importer() {
    let mut graph = ImportGraph::new();
    for name in ["a", "b", "c"] {
        graph.graph.add_node(&mn(name));
    }
    graph.graph.add_edge(&mn("a"), &mn("b"));
    graph.graph.add_edge(&mn("b"), &mn("a"));
    graph.graph.add_edge(&mn("c"), &mn("b"));
    let importers = transitive_importers(&graph, &mn("a"));
    assert!(importers.contains_str("b") && importers.contains_str("c"));
    assert!(!importers.contains_str("a"));
}
