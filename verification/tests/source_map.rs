use lifeguard::attribute::Attribute;
use lifeguard::manual_override::declared_safe;
use lifeguard::module_name::{sort_names, ModuleName};
use lifeguard::name_map::NameMap;
use lifeguard::name_set::NameSet;
use lifeguard::source_map::{
    is_python_file, is_valid_python_identifier, make_source_info_map, resolve_source_map,
    source_db_format, source_priority, sources_over_dependencies, split, ListedFile,
    SourceDbFormat,
};
use lifeguard::text::{decimal_text, line_number, piece_at};
use lifeguard::version::{default_python_version, parse_python_version, PythonVersion, VersionError};

fn listed(entries: Vec<(&str, &str)>) -> Vec<ListedFile> {
    entries
        .into_iter()
        .map(|(key, path)| ListedFile {
            relative_path: key.to_string(),
            full_path: path.to_string(),
        })
        .collect()
}

fn resolve_case_helper(
    entries: Vec<(&str, &str)>,
    expected_count: usize,
    expected_modules: &[&str],
) {
    let result = resolve_source_map(&listed(entries));
    assert_eq!(result.len(), expected_count);
    for expected in expected_modules {
        let mod_name = ModuleName::from_str(expected);
        assert!(
            result.contains_key(&mod_name),
            "Expected module '{}' not found",
            expected
        );
    }
}

fn resolve_case_helper_with_paths(entries: Vec<(&str, &str)>, expected: Vec<(&str, &str)>) {
    let result = resolve_source_map(&listed(entries));
    assert_eq!(result.len(), expected.len());
    for (mod_str, expected_path) in expected {
        let actual_path = result
            .get_str(mod_str)
            .unwrap_or_else(|| panic!("Module '{}' not found", mod_str));
        assert_eq!(
            actual_path, expected_path,
            "Module '{}' should map to '{}'",
            mod_str, expected_path
        );
    }
}

#[test]
fn test_filter_keeps_py_files() {
    resolve_case_helper(
        vec![
            ("module1.py", "src/module1.py"),
            ("module2.pyx", "src/module2.pyx"),
            ("module3.pyi", "src/module3.pyi"),
        ],
        1,
        &["module1"],
    );
}

#[test]
fn test_filter_removes_other_extensions() {
    resolve_case_helper(
        vec![
            ("module1.py", "src/module1.py"),
            ("module2.pyx", "src/module2.pyx"),
            ("module3.foo", "src/module3.foo"),
        ],
        1,
        &["module1"],
    );
}

#[test]
fn test_filter_removes_no_extension() {
    let result = resolve_source_map(&listed(vec![
        ("module1", "src/module1.py"),
        ("module2", "module2"),
    ]));
    assert_eq!(result.len(), 0);
}

#[test]
fn test_resolve_source_priority_single_py_file() {
    resolve_case_helper(vec![("module1.py", "src/module1.py")], 1, &["module1"]);
}

#[test]
fn test_resolve_source_priority_no_conflicts() {
    resolve_case_helper(
        vec![
            ("unique1.py", "src/unique1.py"),
            ("unique2.py", "src/unique2.py"),
        ],
        2,
        &["unique1", "unique2"],
    );
}

#[test]
fn test_resolve_source_priority_no_conflicts_same_file_name() {
    resolve_case_helper(
        vec![
            ("foo/unique.py", "foo/src/unique.py"),
            ("bar/unique.py", "bar/src/unique.py"),
        ],
        2,
        &["foo.unique", "bar.unique"],
    );
}

#[test]
fn test_resolve_source_priority_init_file() {
    resolve_case_helper_with_paths(
        vec![
            ("foo/bar.py", "foo/bar.py"),
            ("foo/bar/__init__.py", "foo/bar/__init__.py"),
        ],
        vec![("foo.bar", "foo/bar/__init__.py")],
    );
    // The order in which the files are listed does not matter.
    resolve_case_helper_with_paths(
        vec![
            ("foo/bar/__init__.py", "foo/bar/__init__.py"),
            ("foo/bar.py", "foo/bar.py"),
        ],
        vec![("foo.bar", "foo/bar/__init__.py")],
    );
}

#[test]
fn test_source_priority_values() {
    assert_eq!(source_priority("pkg/__init__.pyi").ok(), Some(0));
    assert_eq!(source_priority("pkg/__init__.py").ok(), Some(2));
    assert_eq!(source_priority("module.pyi").ok(), Some(1));
    assert_eq!(source_priority("module.py").ok(), Some(3));
    assert!(source_priority("module.pyx").is_err());
    assert!(source_priority("module.rs").is_err());
    assert!(source_priority("module.txt").is_err());
    assert!(source_priority("no_extension").is_err());
}

#[test]
fn test_name_check() {
    let name = ModuleName::from_str("libfb.py.lazy_import.lazy_import");
    assert!(declared_safe(&name));
    assert!(!declared_safe(&ModuleName::from_str("libfb.py.lazy_import")));
}

#[test]
fn names_of_relative_paths() {
    let name = |p: &str| ModuleName::from_relative_path(p).map(|n| n.into_string());
    assert_eq!(name("foo/bar.py").as_deref(), Some("foo.bar"));
    assert_eq!(name("foo/bar.pyi").as_deref(), Some("foo.bar"));
    assert_eq!(name("foo/__init__.py").as_deref(), Some("foo"));
    assert_eq!(name("foo/bar.txt"), None);
}

#[test]
fn file_names_and_identifiers() {
    assert!(is_python_file("a/b.py"));
    assert!(!is_python_file("a/b.pyi"));
    assert!(is_python_file("a.py/"));
    assert!(is_python_file("a.py//./"));
    assert!(!is_python_file("a.py/.."));
    assert!(!is_python_file(".py"));
    assert!(!is_python_file("/"));
    assert!(is_valid_python_identifier("_a1"));
    assert!(!is_valid_python_identifier("1a"));
    assert!(!is_valid_python_identifier(""));
    assert!(!is_valid_python_identifier("a-b"));
    assert_eq!(split("a/b//c", '/'), vec!["a", "b", "", "c"]);
}

#[test]
fn formats_of_source_lists() {
    assert!(matches!(
        source_db_format("{\"build_map\": {}}"),
        SourceDbFormat::BuildMap
    ));
    assert!(matches!(
        source_db_format("{\"sources\": {}, \"dependencies\": {}}"),
        SourceDbFormat::SourcesAndDependencies
    ));
    assert!(matches!(source_db_format("{}"), SourceDbFormat::Flat));
}

#[test]
fn stubs_stand_in_for_sources() {
    let mut files: NameMap<String> = NameMap::new();
    files.insert(ModuleName::from_str("a"), "a/__init__.py".to_string());
    files.insert(ModuleName::from_str("b"), "b.py".to_string());
    let mut stubs = NameSet::new();
    stubs.insert(ModuleName::from_str("b"));
    stubs.insert(ModuleName::from_str("c"));
    let (infos, overriding) = make_source_info_map(&files, &stubs);
    assert_eq!(infos.len(), 3);
    let a = infos.get_str("a").unwrap();
    assert!(a.is_init && !a.is_stub && a.path.as_deref() == Some("a/__init__.py"));
    assert!(infos.get_str("b").unwrap().is_stub);
    assert!(infos.get_str("c").unwrap().is_stub);
    assert!(overriding.contains_str("b"));
    assert!(!overriding.contains_str("c"));
}

#[test]
fn slashes_behind_a_file_name_do_not_count() {
    let mut files: NameMap<String> = NameMap::new();
    files.insert(ModuleName::from_str("p"), "p/__init__.py/".to_string());
    files.insert(ModuleName::from_str("q"), "q/__init__.py/..".to_string());
    let (infos, _) = make_source_info_map(&files, &NameSet::new());
    assert!(infos.get_str("p").unwrap().is_init);
    assert!(!infos.get_str("q").unwrap().is_init);
}

#[test]
fn python_versions() {
    let parsed = parse_python_version("3.12.4");
    assert!(matches!(
        parsed,
        Ok(PythonVersion {
            major: 3,
            minor: 12,
            micro: 4
        })
    ));
    assert!(matches!(parse_python_version("three"), Err(VersionError::Invalid)));
    assert!(matches!(parse_python_version("2.7"), Err(VersionError::Unsupported)));
    assert_eq!(default_python_version().major, 3);
}

#[test]
fn sources_count_before_dependencies() {
    let sources = listed(vec![("a.py", "own/a.py")]);
    let dependencies = listed(vec![("a.py", "dep/a.py"), ("b.py", "dep/b.py")]);
    let all = sources_over_dependencies(sources, &dependencies);
    let paths: Vec<&str> = all.iter().map(|f| f.full_path.as_str()).collect();
    assert_eq!(paths, vec!["dep/b.py", "own/a.py"]);
}

#[test]
fn grammars_of_versions() {
    let minor = |s: &str| parse_python_version(s).unwrap().grammar_minor();
    assert_eq!(minor("3.12"), 12);
    assert_eq!(minor("3.14.1"), 14);
    assert_eq!(minor("3.99"), 15);
}

#[test]
fn module_names_are_split_and_glued() {
    let name = ModuleName::from_str("a.b.c");
    let (parent, attr) = name.split_attr().unwrap();
    assert_eq!(parent.append_str(&attr).as_str(), "a.b.c");
    assert_eq!(name.parent().unwrap().as_str(), "a.b");
    assert_eq!(name.leaf(), "c");
    assert!(ModuleName::from_str("a").split_attr().is_none());
    let attribute = Attribute::from_module_name(&name);
    assert_eq!(attribute.attr, "c");
    assert_eq!(attribute.as_module_name().as_str(), "a.b.c");
}

#[test]
fn names_are_ordered_by_their_texts() {
    let names: Vec<ModuleName> = ["b", "a.b", "a", "B", "a.a"]
        .iter()
        .map(|s| ModuleName::from_str(s))
        .collect();
    let sorted: Vec<String> = sort_names(&names).into_iter().map(|n| n.into_string()).collect();
    assert_eq!(sorted, vec!["B", "a", "a.a", "a.b", "b"]);
}

#[test]
fn maps_of_names_keep_the_last_value() {
    let mut map: NameMap<u32> = NameMap::new();
    assert!(map.insert(ModuleName::from_str("a"), 1).is_none());
    assert!(map.insert(ModuleName::from_str("b"), 2).is_none());
    assert_eq!(map.insert(ModuleName::from_str("a"), 3), Some(1));
    assert_eq!(map.len(), 2);
    assert_eq!(map.get_str("a"), Some(&3));
    assert_eq!(map.remove(&ModuleName::from_str("a")), Some(3));
    assert_eq!(map.position("b"), Some(0));
    assert!(map.get_str("a").is_none());
}

#[test]
fn sets_of_names() {
    let mut set = NameSet::new();
    assert!(set.insert(ModuleName::from_str("a")));
    assert!(!set.insert(ModuleName::from_str("a")));
    assert!(set.insert(ModuleName::from_str("b")));
    assert!(set.remove(&ModuleName::from_str("a")));
    assert!(!set.remove(&ModuleName::from_str("a")));
    assert_eq!(set.len(), 1);
    assert_eq!(set.at(0).as_str(), "b");
}

#[test]
fn pieces_of_texts_are_cut_at_characters() {
    assert_eq!(piece_at("h\u{e9}llo", 1, 3).as_deref(), Some("\u{e9}"));
    assert_eq!(piece_at("h\u{e9}llo", 2, 3), None);
    assert_eq!(piece_at("abc", 2, 1), None);
    assert_eq!(piece_at("abc", 0, 4), None);
    assert_eq!(piece_at("abc", 3, 3).as_deref(), Some(""));
    assert_eq!(line_number("a\nb\nc", 4), 3);
    assert_eq!(decimal_text(1203), "1203");
}

#[test]
fn parents_of_a_name() {
    let name = ModuleName::from_str("a.b.c");
    let mut parents = name.iter_parents();
    let (first, at) = parents.next().unwrap();
    assert_eq!((first.as_str(), at), ("a.b", 3));
    let (second, at) = parents.next().unwrap();
    assert_eq!((second.as_str(), at), ("a", 1));
    assert!(parents.next().is_none());
    assert!(ModuleName::from_str("a").iter_parents().next().is_none());
}
