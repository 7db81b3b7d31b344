use lifeguard::analyzer::{analyze, AnalysisContext};
use lifeguard::ast::{AstResult, CasePattern, Expression, Node, ParsedModule, Statement, StmtNode};
use lifeguard::attribute::Attribute;
use lifeguard::bindings::{Alias, Context, Value};
use lifeguard::bindings_table::BindingsTable;
use lifeguard::cache::LibraryCache;
use lifeguard::cached_exports::CachedExports;
use lifeguard::cached_module::CachedModule;
use lifeguard::call_text::{show_call, show_effect};
use lifeguard::class::{ClassTable, FieldKind};
use lifeguard::config::AnalysisConfig;
use lifeguard::cursor::{Cursor, TryHandler};
use lifeguard::definitions::{DefinitionStyle, MutableCaptureKind, SymbolKind};
use lifeguard::effects::{ArgSlot, CallData, Effect, EffectData, EffectKind, EffectTable};
use lifeguard::exports::Exports;
use lifeguard::format::{format_expr, ErrorString};
use lifeguard::import_collector::Sources;
use lifeguard::imports::ImportGraph;
use lifeguard::module_effects::ModuleEffects;
use lifeguard::module_info::build_definitions_and_classes;
use lifeguard::module_name::ModuleName;
use lifeguard::module_parser::{
    is_thrift_generated, module_of, parse_expression, parse_module, take_expression, text_size,
};
use lifeguard::module_safety::{FunctionSafety, SafetyResult};
use lifeguard::name_map::NameMap;
use lifeguard::output::{LifeGuardAnalysis, OutputOptions};
use lifeguard::project::{run_analysis, surface_parse_errors, ExecutionMode, SourceKind};
use lifeguard::resolve::{resolve_name, ResolvedName};
use lifeguard::runner::{process_source_map, run_pipeline, Options, PipelineResult};
use lifeguard::source_info::{SourceAnalyzer, Stubs};
use lifeguard::stub_analyzer::{analyze as analyze_stub, analyze_str, ConflictingEffects};
use lifeguard::sys_info::SysInfo;
use lifeguard::text::line_number;
use lifeguard::text_range::TextRange;
use lifeguard::version::{default_python_version, PythonVersion};

fn mn(s: &str) -> ModuleName {
    ModuleName::from_str(s)
}

fn parse_as(code: &str, name: &str, is_init: bool, is_stub: bool) -> ParsedModule {
    assert!(text_size(code) <= u64::from(u32::MAX));
    parse_module(code, mn(name), is_init, is_stub, default_python_version())
}

fn parse_source(code: &str, name: &str, is_init: bool) -> ParsedModule {
    parse_as(code, name, is_init, false)
}

fn parse_pyi(code: &str, name: &str) -> ParsedModule {
    parse_as(code, name, false, true)
}

/// What needs no import, in the modules that the tests are about.
const BUILTINS: &str = "
class int: ...
class float: ...
class str: ...
class list: ...
class dict: ...
class tuple: ...
class property: ...
class ValueError: ...
";

/// Reads modules; one is a package if another one lies in it.
fn test_sources(modules: &[(&str, &str)], stub_names: &[&str]) -> Sources {
    let mut sources: Sources = NameMap::new();
    for (name, code) in modules {
        let parsed = if stub_names.contains(name) {
            parse_pyi(code, name)
        } else {
            let prefix = format!("{}.", name);
            let is_init = modules.iter().any(|(n, _)| n.starts_with(&prefix));
            parse_source(code, name, is_init)
        };
        sources.insert(mn(name), AstResult::Parsed(parsed));
    }
    let builtins = parse_pyi(BUILTINS, "builtins");
    sources.insert(mn("builtins"), AstResult::Parsed(builtins));
    sources
}

fn test_stubs() -> Stubs {
    let mut stubs = Stubs::new();
    for name in ["list", "int", "str", "dict", "tuple", "float", "range", "ValueError", "property"] {
        stubs.known_builtins.insert(mn(name));
    }
    if let Ok(module) = analyze_stub(&parse_pyi(BUILTINS, "builtins"), &AnalysisConfig::default()) {
        stubs.modules.insert(mn("builtins"), module);
    }
    stubs
}

// ---- expressions as text ----

fn parse_expr(source: &str) -> Expression {
    match parse_expression(source) {
        Some(e) => e,
        None => panic!("Expected expression statement in {source}"),
    }
}

fn check(source: &str, expected: &str) {
    assert_eq!(format_expr(&parse_expr(source)), expected, "source: {source}");
}

#[test]
fn test_name() {
    check("foo", "foo");
    check("_private", "_private");
}

#[test]
fn test_attribute() {
    check("foo.bar", "foo.bar");
    check("a.b.c", "a.b.c");
}

#[test]
fn test_call_no_args() {
    check("foo()", "foo()");
}

#[test]
fn test_call_with_args() {
    check("foo(a, b)", "foo(a, b)");
    check("foo(a, x=1)", "foo(a, x=Int(1))");
}

#[test]
fn test_call_method() {
    check("obj.method(x)", "obj.method(x)");
}

#[test]
fn test_binop() {
    check("x + y", "x + y");
    check("a * b", "a * b");
    check("a // b", "a // b");
    check("a ** b", "a ** b");
}

#[test]
fn test_unary_op() {
    check("-x", "-x");
    check("not x", "not x");
    check("~x", "~x");
}

#[test]
fn test_lambda_no_params() {
    check("lambda: 1", "lambda: Int(1)");
}

#[test]
fn test_lambda_with_params() {
    check("lambda x, y: x", "lambda x, y: x");
}

#[test]
fn test_dict_empty() {
    check("{}", "{}");
}

#[test]
fn test_dict_with_items() {
    check("{'a': 1, 'b': 2}", "{\"a\": Int(1), \"b\": Int(2)}");
}

#[test]
fn test_list() {
    check("[1, 2, 3]", "[Int(1), Int(2), Int(3)]");
}

#[test]
fn test_list_comprehension() {
    check("[x for x in items]", "[x for x in items]");
    check("[x for x in items if x]", "[x for x in items if x]");
}

#[test]
fn test_slice() {
    check("a[1:2]", "a[Int(1):Int(2)]");
    check("a[1:]", "a[Int(1):]");
    check("a[:2]", "a[:Int(2)]");
    check("a[::2]", "a[::Int(2)]");
}

#[test]
fn test_subscript() {
    check("a[0]", "a[Int(0)]");
    check("d['key']", "d[\"key\"]");
}

#[test]
fn test_bool_op() {
    check("a and b", "a and b");
    check("a or b", "a or b");
}

#[test]
fn test_compare() {
    check("x == 1", "x == Int(1)");
    check("x is None", "x is None");
    check("x not in items", "x not in items");
}

#[test]
fn test_tuple() {
    check("(a, b)", "(a, b)");
}

#[test]
fn test_starred() {
    check("*args", "*args");
}

#[test]
fn test_if_expr() {
    check("a if cond else b", "a if cond else b");
}

#[test]
fn test_literals() {
    check("None", "None");
    check("True", "True");
    check("False", "False");
    check("...", "...");
}

#[test]
fn test_await() {
    // Parse inside an async function to make it valid
    let module = parse_source("async def f():\n await x", "test", false);
    let StmtNode::FunctionDef(func) = &module.body[0].node else {
        panic!("Expected FunctionDef");
    };
    let StmtNode::Expr { value, .. } = &func.body[0].node else {
        panic!("Expected Expr");
    };
    assert_eq!(format_expr(value), "await x");
}

#[test]
fn test_set() {
    check("{1, 2, 3}", "{Int(1), Int(2), Int(3)}");
}

#[test]
fn test_named_expr() {
    // walrus operator parsed inside a context where it's valid
    check("(x := 5)", "x := Int(5)");
}

#[test]
fn test_format_uncovered_binops_and_unary() {
    check("a - b", "a - b");
    check("a @ b", "a @ b");
    check("a / b", "a / b");
    check("a % b", "a % b");
    check("a << b", "a << b");
    check("a >> b", "a >> b");
    check("a | b", "a | b");
    check("a ^ b", "a ^ b");
    check("a & b", "a & b");
    check("+x", "+x");
}

#[test]
fn test_format_comprehensions_and_generators() {
    check("{x for x in items}", "{x for x in items}");
    check("{k: v for k, v in items}", "{k: v for (k, v) in items}");
    check("(x for x in items)", "(x for x in items)");
}

#[test]
fn test_format_misc_uncovered_exprs() {
    check("(a,)", "(a,)");
    check("{**d}", "{**d}");
    check("f(**kw)", "f(**kw)");
    check("f'{x}'", "f\"...\"");
}

#[test]
fn texts_are_shown_escaped() {
    check("d['a\\nb\"c']", "d[\"a\\nb\\\"c\"]");
    check("(yield)", "yield");
    check("lambda *a, b=1, **c: b", &format_expr(&parse_expr("lambda *a, b=1, **c: b")));
}

// ---- names ----

fn get_call_func(s: &Statement) -> &Expression {
    let StmtNode::Expr { value, .. } = &s.node else { panic!() };
    let Node::Call { func, .. } = &value.node else {
        panic!()
    };
    func
}

#[test]
fn test_full_name() {
    let code = r#"
a.f(10)
b.g.h[i](1, 2)
"#;
    let module = parse_source(code, "test", false);
    let a = get_call_func(&module.body[0]);
    let b = get_call_func(&module.body[1]);
    assert_eq!(a.base_name().unwrap().as_str(), "a");
    assert_eq!(b.base_name().unwrap().as_str(), "b");
    assert_eq!(a.full_name().unwrap().as_str(), "a.f");
    assert!(b.full_name().is_none());
}

#[test]
fn test_get_imports() {
    let parsed = parse_source(
        r#"
 import a
 import derp.c.d
 import bar.b
 from os import path
 from os.path import join
 from path import *
 "#,
        "test",
        true,
    );
    let (table, _) = build_definitions_and_classes(&parsed, &AnalysisConfig::default());
    let defs = table.definitions.get_str("test").unwrap();
    let mut imports: Vec<String> = Vec::new();
    for i in 0..defs.definitions.len() {
        if let Some(name) = defs.definitions.value_at(i).get_imported_module_name() {
            imports.push(name.into_string());
        }
    }
    for i in 0..defs.import_all.len() {
        imports.push(defs.import_all.at(i).into_string());
    }
    imports.sort();
    assert_eq!(imports, vec!["a", "bar.b", "derp.c.d", "os", "os.path", "path"]);
}

// ---- bindings ----

fn make_bindings(module: &str, modules: &[(&str, &str)]) -> BindingsTable {
    make_bindings_with_stubs(module, modules, &[])
}

fn make_bindings_with_stubs(
    module: &str,
    modules: &[(&str, &str)],
    stub_names: &[&str],
) -> BindingsTable {
    let sources = test_sources(modules, stub_names);
    let AstResult::Parsed(parsed) = sources.get_str(module).expect("module not found") else {
        panic!("module failed to parse");
    };
    bindings_of(parsed, &sources)
}

fn make_stub_bindings(module: &str, modules: &[(&str, &str)]) -> BindingsTable {
    let code = modules.iter().find(|m| m.0 == module).expect("module not found").1;
    bindings_of(&parse_pyi(code, module), &test_sources(modules, &[]))
}

fn bindings_of(parsed: &ParsedModule, sources: &Sources) -> BindingsTable {
    let (definitions, _classes) = build_definitions_and_classes(parsed, &AnalysisConfig::default());
    let (import_graph, exports) = ImportGraph::make_with_exports(sources, &AnalysisConfig::default());
    let cx = Context {
        definitions: &definitions,
        exports: &exports,
        import_graph: &import_graph,
    };
    BindingsTable::new(&cx, parsed)
}

fn shown(value: Option<&Value>) -> Option<String> {
    value.map(|v| match v {
        Value::Unknown => "unknown".to_string(),
        Value::Module(n) => format!("module {}", n.as_str()),
        Value::Class(n) => format!("class {}", n.as_str()),
        Value::Function(n) => format!("function {}", n.as_str()),
        Value::Instance(n) => format!("instance {}", n.as_str()),
        Value::Variable(n) => format!("variable {}", n.as_str()),
    })
}

fn test_instances(bt: &BindingsTable, expected: Vec<(&str, &str, &str)>) {
    for (scope, sym, typ) in expected {
        let typ = if typ.is_empty() {
            "unknown".to_string()
        } else {
            format!("instance {typ}")
        };
        assert_eq!(shown(bt.lookup_str(scope, sym)), Some(typ), "{scope} {sym}");
    }
}

#[test]
fn test_as_module_name() {
    assert!(Value::Unknown.as_module_name().is_none());
    assert_eq!(
        Some("int"),
        Value::Instance(mn("int")).as_module_name().map(|n| n.as_str())
    );
}

#[test]
fn test_as_str() {
    assert_eq!("A", Alias::Local(mn("test"), "A".to_string()).as_str());
    assert_eq!(
        "foo.bar",
        Alias::Global(Value::Function(mn("foo.bar"))).as_str()
    );
}

#[test]
fn bindings_test_basic() {
    let code = r#"
A = 10
B = A + 1

def f():
    x = A
"#;
    let bt = make_bindings("test", &[("test", code)]);
    test_instances(&bt, vec![("test", "A", "builtins.int"), ("test", "B", "")]);
    match bt.lookup_alias_str("test.f", "x") {
        Some(Alias::Local(scope, name)) => {
            assert_eq!(scope.as_str(), "test");
            assert_eq!(name, "A");
        }
        _ => panic!("x is an alias of A"),
    }
    test_instances(&bt, vec![("test.f", "x", "builtins.int")]);
}

#[test]
fn test_import_with_alias() {
    let code = r#"
from m2 import X as xx
xx()
"#;
    let bt = make_bindings("test", &[("test", code)]);
    match bt.lookup_alias_str("test", "xx") {
        Some(Alias::Global(Value::Variable(name))) => assert_eq!(name.as_str(), "m2.X"),
        _ => panic!("xx is an alias of m2.X"),
    }
}

#[test]
fn test_constructor_type_inference() {
    let foo = r#"
class C:
    pass
"#;
    let test = r#"
from foo import C

class A:
    pass

a = A()
b = A(1, 2)
c = C()
"#;
    let bt = make_bindings("test", &[("foo", foo), ("test", test)]);
    test_instances(
        &bt,
        vec![
            ("test", "a", "test.A"),
            ("test", "b", "test.A"),
            ("test", "c", "foo.C"),
        ],
    );
}

#[test]
fn test_imported_constructor() {
    let foo = r#"
class C:
    pass
"#;
    let test = r#"
from foo import C

c = C()
"#;
    let bt = make_bindings("test", &[("foo", foo), ("test", test)]);
    test_instances(&bt, vec![("test", "c", "foo.C")]);
}

#[test]
fn test_literal_type_inference() {
    let code = r#"
a = 1.2
b = {'a': 1}
c = [x for x in range(10)]
d = f'a = {a}'
e = (1, 2, 3)
"#;
    let bt = make_bindings("test", &[("test", code)]);
    test_instances(
        &bt,
        vec![
            ("test", "a", "builtins.float"),
            ("test", "b", "builtins.dict"),
            ("test", "c", "builtins.list"),
            ("test", "d", "builtins.str"),
            ("test", "e", "builtins.tuple"),
        ],
    );
}

#[test]
fn test_ann_assign() {
    let code = r#"
a: int = 1
b: float = 1  # annotation is ignored
"#;
    let bt = make_bindings("test", &[("test", code)]);
    test_instances(
        &bt,
        vec![("test", "a", "builtins.int"), ("test", "b", "builtins.int")],
    );
}

#[test]
fn test_follow_aliases() {
    let code = r#"
A = 1

def f():
    x = A
    y = "hello"
    def g():
        p = x
        q = y
"#;
    let bt = make_bindings("test", &[("test", code)]);
    test_instances(
        &bt,
        vec![
            ("test.f", "x", "builtins.int"),
            ("test.f.g", "p", "builtins.int"),
            ("test.f.g", "q", "builtins.str"),
        ],
    );
}

#[test]
fn test_global_aliases() {
    let code1 = r#"
class A:
    pass
"#;

    let code2 = r#"
    import mod1

    def f():
        x = mod1.A
"#;
    let bt = make_bindings("test", &[("mod1", code1), ("test", code2)]);
    let x = bt.lookup_str("test.f", "x");
    assert_eq!(shown(x).as_deref(), Some("class mod1.A"));
}

#[test]
fn test_global_aliases_as_types() {
    let code1 = r#"
class A:
    pass
"#;

    let code2 = r#"
    import mod1

    B = mod1.A

    def f():
        x = B()
"#;
    let bt = make_bindings("test", &[("mod1", code1), ("test", code2)]);
    test_instances(&bt, vec![("test.f", "x", "mod1.A")]);
}

#[test]
fn test_import_aliasing() {
    let code1 = r#"
class A:
    pass

class B:
    pass
"#;
    let code2 = r#"
from mod1 import A as renamed_class
import mod1 as renamed_module
import foo

from mod1 import A as alpha, B

a = renamed_class()
b = renamed_module.A()
c = alpha()
d = B()
"#;
    let bt = make_bindings("test", &[("mod1", code1), ("test", code2)]);
    test_instances(
        &bt,
        vec![
            ("test", "a", "mod1.A"),
            ("test", "b", "mod1.A"),
            ("test", "c", "mod1.A"),
            ("test", "d", "mod1.B"),
        ],
    );
}

#[test]
fn test_assign_single() {
    let code1 = r#"
class A:
    pass
        "#;
    let code2 = r#"
from mod1 import A
"#;
    let code3 = r#"
from mod2 import A

a = A()
"#;
    let bt = make_bindings("test", &[("mod1", code1), ("mod2", code2), ("test", code3)]);
    test_instances(&bt, vec![("test", "a", "mod2.A")]);
}

#[test]
fn test_stub_annotated_constant() {
    let stub = r#"
class Environ:
    def get(self, key: str) -> str: ...

environ: Environ
"#;
    let bt = make_stub_bindings("test", &[("test", stub)]);
    test_instances(&bt, vec![("test", "environ", "test.Environ")]);
}

#[test]
fn test_stub_annotated_constant_imported_type() {
    let types = r#"
class MyType:
    pass
"#;
    let stub = r#"
from types_mod import MyType

x: MyType
"#;
    let bt = make_stub_bindings("test", &[("types_mod", types), ("test", stub)]);
    test_instances(&bt, vec![("test", "x", "types_mod.MyType")]);
}

#[test]
fn test_non_stub_ignores_annotation_without_value() {
    let code = r#"
class Foo:
    pass

x: Foo
"#;
    let bt = make_bindings("test", &[("test", code)]);
    assert!(bt.lookup_str("test", "x").is_none());
}

#[test]
fn test_stub_function_return_type_local_class() {
    let stub = r#"
class MyClass:
    pass

def make_thing() -> MyClass: ...
"#;
    let test = r#"
from stub_mod import make_thing

x = make_thing()
"#;
    let modules = [("stub_mod", stub), ("test", test)];
    let bt = make_bindings_with_stubs("test", &modules, &["stub_mod"]);
    test_instances(&bt, vec![("test", "x", "stub_mod.MyClass")]);
}

#[test]
fn test_stub_function_return_type_imported_class() {
    let types_mod = r#"
class Widget:
    pass
"#;
    let stub = r#"
from types_mod import Widget

def create_widget() -> Widget: ...
"#;
    let test = r#"
from stub_mod import create_widget

w = create_widget()
"#;
    let modules = [("types_mod", types_mod), ("stub_mod", stub), ("test", test)];
    let bt = make_bindings_with_stubs("test", &modules, &["stub_mod"]);
    test_instances(&bt, vec![("test", "w", "types_mod.Widget")]);
}

#[test]
fn test_stub_function_return_type_dotted_name() {
    let other = r#"
class Result:
    pass
"#;
    let stub = r#"
import other

def get_result() -> other.Result: ...
"#;
    let test = r#"
from stub_mod import get_result

r = get_result()
"#;
    let modules = [("other", other), ("stub_mod", stub), ("test", test)];
    let bt = make_bindings_with_stubs("test", &modules, &["stub_mod"]);
    test_instances(&bt, vec![("test", "r", "other.Result")]);
}

#[test]
fn test_stub_function_return_type_aliased_import() {
    let types_mod = r#"
class Original:
    pass
"#;
    let stub = r#"
from types_mod import Original as Alias

def make() -> Alias: ...
"#;
    let test = r#"
from stub_mod import make

x = make()
"#;
    let modules = [("types_mod", types_mod), ("stub_mod", stub), ("test", test)];
    let bt = make_bindings_with_stubs("test", &modules, &["stub_mod"]);
    test_instances(&bt, vec![("test", "x", "types_mod.Original")]);
}

#[test]
fn test_stub_function_return_type_no_annotation() {
    let stub = r#"
def no_return_type(): ...
"#;
    let test = r#"
from stub_mod import no_return_type

x = no_return_type()
"#;
    let modules = [("stub_mod", stub), ("test", test)];
    let bt = make_bindings_with_stubs("test", &modules, &["stub_mod"]);
    assert_eq!(shown(bt.lookup_str("test", "x")).as_deref(), Some("unknown"));
}

#[test]
fn test_stub_function_return_type_builtin() {
    let stub = r#"
def returns_int() -> int: ...
"#;
    let test = r#"
from stub_mod import returns_int

x = returns_int()
"#;
    let modules = [("stub_mod", stub), ("test", test)];
    let bt = make_bindings_with_stubs("test", &modules, &["stub_mod"]);
    test_instances(&bt, vec![("test", "x", "builtins.int")]);
}

#[test]
fn test_stub_method_return_type() {
    let stub = r#"
class Factory:
    def create(self) -> Factory: ...
"#;
    let test = r#"
from stub_mod import Factory

f = Factory()
g = f.create()
"#;
    let modules = [("stub_mod", stub), ("test", test)];
    let bt = make_bindings_with_stubs("test", &modules, &["stub_mod"]);
    test_instances(
        &bt,
        vec![("test", "f", "stub_mod.Factory"), ("test", "g", "")],
    );
}

// ---- classes ----

fn make_class_table(code: &str) -> ClassTable {
    build_definitions_and_classes(&parse_source(code, "test", false), &AnalysisConfig::default()).1
}

#[test]
fn class_test_basic() {
    let code = r#"
class B:
    pass

class C:
    pass

class A(B, metaclass=C):
    x = 10

    def f(self):
        pass

    @classmethod
    def g(self):
        pass

    @staticmethod
    def h(self):
        pass
"#;
    let cls_table = make_class_table(code);
    let cls = cls_table.lookup_str("test.A").unwrap();
    assert_eq!(cls.name.as_str(), "A");
    assert_eq!(cls.bases.len(), 1);
    assert_eq!(cls.bases[0].as_str(), "test.B");
    assert_eq!(cls.metaclass.as_ref().unwrap().as_str(), "test.C");
    let expected = [
        (FieldKind::ClassVar, "x"),
        (FieldKind::InstanceMethod, "f"),
        (FieldKind::ClassMethod, "g"),
        (FieldKind::StaticMethod, "h"),
    ];
    for (i, (kind, name)) in expected.into_iter().enumerate() {
        assert_eq!(cls.fields[i].kind, kind);
        assert_eq!(cls.fields[i].name, name);
    }
}

#[test]
fn test_properties() {
    let code = r#"
class A:
    @property
    def x(self):
        pass

    @x.setter
    def x(self, value):
        pass
"#;
    let cls_table = make_class_table(code);
    let cls = cls_table.lookup_str("test.A").unwrap();
    assert_eq!(cls.fields[0].kind, FieldKind::Property);
    assert_eq!(cls.fields[0].name, "x");
    assert_eq!(cls.fields[1].kind, FieldKind::PropertySetter);
    assert_eq!(cls.fields[1].name, "x");
}

// ---- exports ----

fn get_dunder_all(code: &str) -> Option<Vec<String>> {
    let parsed = parse_source(code, "test", false);
    let exports = Exports::new(&parsed, &ImportGraph::new(), SysInfo::lg_default());
    exports.get_all(&mn("test")).cloned()
}

fn names(strs: &[&str]) -> Vec<String> {
    strs.iter().map(|s| s.to_string()).collect()
}

#[test]
fn test_list_assignment() {
    assert_eq!(
        get_dunder_all("__all__ = ['foo', 'bar']"),
        Some(names(&["foo", "bar"]))
    );
}

#[test]
fn test_tuple_assignment() {
    assert_eq!(
        get_dunder_all("__all__ = ('foo', 'bar')"),
        Some(names(&["foo", "bar"]))
    );
}

#[test]
fn test_annotated_assignment() {
    assert_eq!(
        get_dunder_all("__all__: list[str] = ['foo', 'bar']"),
        Some(names(&["foo", "bar"]))
    );
}

#[test]
fn test_aug_assign() {
    let code = "\
__all__ = ['foo']
__all__ += ['bar', 'baz']
";
    assert_eq!(get_dunder_all(code), Some(names(&["foo", "bar", "baz"])));
}

#[test]
fn test_extend() {
    let code = "\
__all__ = ['foo']
__all__.extend(['bar', 'baz'])
";
    assert_eq!(get_dunder_all(code), Some(names(&["foo", "bar", "baz"])));
}

#[test]
fn test_append() {
    let code = "\
__all__ = ['foo']
__all__.append('bar')
";
    assert_eq!(get_dunder_all(code), Some(names(&["foo", "bar"])));
}

#[test]
fn test_empty_list() {
    assert_eq!(get_dunder_all("__all__ = []"), None);
}

#[test]
fn test_no_dunder_all() {
    assert_eq!(get_dunder_all("x = 1"), None);
}

#[test]
fn test_reassignment_overwrites() {
    let code = "\
__all__ = ['foo', 'bar']
__all__ = ['baz']
";
    assert_eq!(get_dunder_all(code), Some(names(&["baz"])));
}

#[test]
fn test_non_string_elements_ignored() {
    assert_eq!(
        get_dunder_all("__all__ = ['foo', 42, 'bar']"),
        Some(names(&["foo", "bar"]))
    );
}

#[test]
fn test_non_list_value() {
    assert_eq!(get_dunder_all("__all__ = some_function()"), None);
}

#[test]
fn test_multiple_operations() {
    let code = "\
__all__ = ['a']
__all__ += ['b']
__all__.extend(['c'])
__all__.append('d')
";
    assert_eq!(get_dunder_all(code), Some(names(&["a", "b", "c", "d"])));
}

fn get_stub_return_types(code: &str) -> Exports {
    Exports::new(&parse_pyi(code, "test"), &ImportGraph::new(), SysInfo::lg_default())
}

fn return_type(exports: &Exports, function: &str) -> Option<String> {
    exports.get_return_type(&mn(function)).map(|n| n.into_string())
}

#[test]
fn test_return_type_local_class() {
    let code = r#"
class MyClass:
    pass

def make() -> MyClass: ...
"#;
    let exports = get_stub_return_types(code);
    assert_eq!(return_type(&exports, "test.make").as_deref(), Some("test.MyClass"));
}

#[test]
fn test_return_type_no_annotation() {
    let code = r#"
def make(): ...
"#;
    let exports = get_stub_return_types(code);
    assert_eq!(return_type(&exports, "test.make"), None);
}

#[test]
fn test_return_type_imported_class() {
    let code = r#"
from other import Widget

def create() -> Widget: ...
"#;
    let exports = get_stub_return_types(code);
    assert_eq!(return_type(&exports, "test.create").as_deref(), Some("other.Widget"));
}

#[test]
fn test_return_type_aliased_import() {
    let code = r#"
from other import Original as Renamed

def make() -> Renamed: ...
"#;
    let exports = get_stub_return_types(code);
    assert_eq!(return_type(&exports, "test.make").as_deref(), Some("other.Original"));
}

#[test]
fn test_return_type_dotted_module_import() {
    let code = r#"
import other

def get() -> other.Result: ...
"#;
    let exports = get_stub_return_types(code);
    assert_eq!(return_type(&exports, "test.get").as_deref(), Some("other.Result"));
}

#[test]
fn test_return_type_method_in_class() {
    let code = r#"
class A:
    pass

class Factory:
    def create(self) -> A: ...
"#;
    let exports = get_stub_return_types(code);
    assert_eq!(
        return_type(&exports, "test.Factory.create").as_deref(),
        Some("test.A")
    );
}

#[test]
fn test_return_type_not_extracted_from_py() {
    let code = r#"
class MyClass:
    pass

def make() -> MyClass: ...
"#;
    let parsed = parse_source(code, "test", false);
    let exports = Exports::new(&parsed, &ImportGraph::new(), SysInfo::lg_default());
    assert_eq!(return_type(&exports, "test.make"), None);
}

#[test]
fn test_return_type_builtin() {
    let code = r#"
def make() -> int: ...
"#;
    let exports = get_stub_return_types(code);
    assert_eq!(return_type(&exports, "test.make").as_deref(), Some("builtins.int"));
}

#[test]
fn test_return_type_generic_skipped() {
    let code = r#"
class MyClass:
    pass

def make() -> list[MyClass]: ...
"#;
    let exports = get_stub_return_types(code);
    // Generic types (subscripts) are not resolved
    assert_eq!(return_type(&exports, "test.make"), None);
}

#[test]
fn test_is_function() {
    let code = r#"
class MyClass:
    pass

def my_func(): ...

x = 1
"#;
    let exports = get_stub_return_types(code);
    assert!(exports.is_function(&mn("test.my_func")));
    assert!(!exports.is_function(&mn("test.MyClass")));
    assert!(!exports.is_function(&mn("test.x")));
}

// ---- definitions ----

/// The first name is a module; after it classes start with an uppercase letter.
fn cursor_at(scopes: &[&str]) -> Cursor {
    let mut cursor = Cursor::enter_module_scope(&mn(scopes[0]));
    for name in &scopes[1..] {
        cursor = if name.starts_with(char::is_uppercase) {
            cursor.enter_class_scope_name(name)
        } else {
            cursor.enter_function_scope_name(name)
        };
    }
    cursor
}

/// Calls `f` with what is known of a module while it is analyzed.
fn with_info<T>(code: &str, f: impl Fn(&SourceAnalyzer) -> T) -> T {
    let parsed = parse_source(code, "test", false);
    let import_graph = ImportGraph::new();
    let stubs = test_stubs();
    let config = AnalysisConfig::default();
    let exports = Exports::new(&parsed, &import_graph, config.sys_info);
    let (definitions, classes) = build_definitions_and_classes(&parsed, &AnalysisConfig::default());
    let cx = Context {
        definitions: &definitions,
        exports: &exports,
        import_graph: &import_graph,
    };
    let bindings = BindingsTable::new(&cx, &parsed);
    let module = mn("test");
    let analyzer = SourceAnalyzer {
        module_name: &module,
        is_init: false,
        config: &config,
        definitions: &definitions,
        bindings: &bindings,
        classes: &classes,
        exports: &exports,
        import_graph: &import_graph,
        stubs: &stubs,
    };
    f(&analyzer)
}

#[test]
fn test_module_reachability() {
    let code = r#"
from foo import A
import bar

B = 10

class C:
    X = 1
    def f(self, x):
        y = 2
}
"#;
    let is_reachable = |scopes: &[&str], name: &str| -> bool {
        with_info(code, |info| {
            let cursor = cursor_at(scopes);
            let res: Option<ResolvedName> =
                resolve_name(&info.definitions.definitions, &cursor, name);
            info.is_reachable(&res.unwrap())
        })
    };
    assert!(is_reachable(&["test"], "A"));
    assert!(is_reachable(&["test"], "bar"));
    assert!(is_reachable(&["test"], "B"));
    assert!(is_reachable(&["test"], "C"));
    assert!(is_reachable(&["test", "C"], "X"));
    assert!(is_reachable(&["test", "C"], "f"));
    assert!(!is_reachable(&["test", "C", "f"], "y"));
}

#[test]
fn test_is_init_records_implicit_submodules() {
    // `import pkg.sub` inside of `pkg/__init__.py` imports the submodule `sub`.
    let code = r#"
import pkg.sub
from . import child
"#;
    let parsed = parse_source(code, "pkg", true);
    let (definitions, _classes) = build_definitions_and_classes(&parsed, &AnalysisConfig::default());
    let defs = definitions.definitions.get(&mn("pkg")).unwrap();
    assert!(
        defs.implicitly_imported_submodules.contains_str("sub"),
        "expected 'sub' in implicitly imported submodules"
    );
}

#[test]
fn test_non_init_does_not_record_implicit_submodules() {
    let code = r#"
import pkg.sub
"#;
    let parsed = parse_source(code, "pkg", false);
    let (definitions, _classes) = build_definitions_and_classes(&parsed, &AnalysisConfig::default());
    let defs = definitions.definitions.get(&mn("pkg")).unwrap();
    assert!(
        defs.implicitly_imported_submodules.is_empty(),
        "expected no implicitly imported submodules for non-init module"
    );
}

#[test]
fn test_function_params() {
    let code = r#"
def f(x, y):
    pass
"#;
    let parsed = parse_source(code, "test", false);
    let (definitions, _classes) = build_definitions_and_classes(&parsed, &AnalysisConfig::default());
    let defs = definitions.definitions.get(&mn("test.f")).unwrap();
    let mut keys: Vec<String> = defs.definitions.key_list().into_iter().map(|n| n.into_string()).collect();
    keys.sort();
    assert_eq!(keys, vec!["x", "y"]);
}

fn make_module_info_and_resolve(
    code: &str,
    scopes: &[&str],
    name: &str,
) -> Option<(String, bool)> {
    with_info(code, |info| {
        let res = info.resolve(&cursor_at(scopes), &parse_expr(name))?;
        Some((res.scope.as_str().to_string(), res.definition.is_import()))
    })
}

#[test]
fn test_builtin_name_resolves() {
    // `list` is not imported or defined, but should resolve to builtins
    let code = "x = 1\n";
    let result = make_module_info_and_resolve(code, &["test"], "list");
    assert!(result.is_some(), "builtin 'list' should resolve");
    let (scope, is_import) = result.unwrap();
    assert_eq!(scope, "builtins");
    assert!(!is_import);
}

#[test]
fn test_builtin_int_resolves() {
    let code = "x = 1\n";
    let result = make_module_info_and_resolve(code, &["test"], "int");
    assert!(result.is_some(), "builtin 'int' should resolve");
    assert_eq!(result.unwrap().0, "builtins");
}

#[test]
fn test_local_shadows_builtin() {
    // A local definition of `list` should take precedence over the builtin
    let code = "list = [1, 2, 3]\n";
    let result = make_module_info_and_resolve(code, &["test"], "list");
    assert!(result.is_some(), "'list' should resolve");
    let (scope, _) = result.unwrap();
    assert_eq!(scope, "test", "local 'list' should shadow builtin");
}

#[test]
fn test_imported_name_not_affected_by_builtins() {
    // An imported name should still resolve as an import, not as a builtin
    let code = "from foo import bar\n";
    let result = make_module_info_and_resolve(code, &["test"], "bar");
    assert!(result.is_some());
    let (scope, is_import) = result.unwrap();
    assert_eq!(scope, "test");
    assert!(is_import, "'bar' should be an import");
}

#[test]
fn test_nonexistent_name_does_not_resolve() {
    // A name that's not a builtin and not defined should not resolve
    let code = "x = 1\n";
    let result = make_module_info_and_resolve(code, &["test"], "not_a_real_name");
    assert!(result.is_none());
}

// ---- stubs ----

fn try_file(code: &str) -> Result<ModuleEffects, ConflictingEffects> {
    let parsed = parse_pyi(code, "test");
    let exports = Exports::empty();
    let config = AnalysisConfig::default();
    let import_graph = ImportGraph::make(&test_sources(&[("test", code)], &[]), &config);
    let stubs = test_stubs();
    let cx = AnalysisContext {
        exports: &exports,
        import_graph: &import_graph,
        stubs: &stubs,
        config: &config,
    };
    analyze(&parsed, &cx).map(|m| m.module_effects)
}

fn run_file(code: &str) -> ModuleEffects {
    match try_file(code) {
        Ok(effects) => effects,
        Err(e) => panic!("{} has contradicting effects", e.scope.as_str()),
    }
}

fn assert_keys(effs: &EffectTable, expected: Vec<&str>) {
    let mut keys: Vec<String> = effs.keys().into_iter().map(|n| n.into_string()).collect();
    keys.sort();
    assert_eq!(keys, expected);
}

#[test]
fn stub_analyzer_test_basic() {
    let code = r#"
imported_function_call("os.path.join")
"#;
    let out = run_file(code);
    let e = &out.effects.get(&mn("test")).unwrap()[0];
    assert!(matches!(e.kind, EffectKind::ImportedFunctionCall));
    assert_eq!(e.name.as_str(), "os.path.join");
}

#[test]
fn test_effect_in_function_body() {
    let code = r#"
import a
def f():
    imported_var_mutation("a.x")
"#;
    let out = run_file(code);
    let e = out.effects.get(&mn("test.f")).unwrap();
    assert!(matches!(e[0].kind, EffectKind::ImportedVarMutation));
    // We should not have any module-level effects
    assert!(out.effects.get(&mn("test")).is_none());
}

#[test]
fn test_effect_in_class_body() {
    let code = r#"
import a
class A:
    imported_var_mutation("a.x")
"#;
    assert_keys(&run_file(code).effects, vec!["test.A"]);
}

#[test]
fn test_effect_in_method_body() {
    let code = r#"
import a
class A:
    def f():
        imported_var_mutation("a.x")
"#;
    assert_keys(&run_file(code).effects, vec!["test.A.f"]);
}

#[test]
fn test_effects_in_multiple_scopes() {
    let code = r#"
import a
imported_var_mutation("a.x")
class A:
    imported_var_mutation("a.x")
    def f():
        imported_var_mutation("a.x")
    def g():
        imported_var_mutation("a.x")
"#;
    assert_keys(
        &run_file(code).effects,
        vec!["test", "test.A", "test.A.f", "test.A.g"],
    );
}

#[test]
fn test_invalid_effect() {
    let code = r#"
no_such_effect("a")
"#;
    let out = run_file(code);
    let e = &out.file_errors[0];
    assert!(e.error.contains("Could not parse effect"));
    assert!(e.error.starts_with("Could not parse effect ExprCall {"));
    assert!(e.error.contains("no_such_effect"));
    assert_eq!(e.range.start, 1);
}

#[test]
fn test_invalid_arg() {
    let code = r#"
imported_var_mutation(a)
"#;
    let out = run_file(code);
    let e = &out.file_errors[0];
    assert!(e.error.contains("Could not parse effect"));
    assert!(e.error.contains("imported_var_mutation"));
    assert_eq!(e.range.start, 1);
}

#[test]
fn test_unknown_effects() {
    let code = r#"
def f():
    ...
"#;
    let out = run_file(code);
    assert_keys(&out.effects, vec!["test.f"]);
    let e = &out.effects.get(&mn("test.f")).unwrap()[0];
    assert!(matches!(e.kind, EffectKind::UnknownEffects));
}

#[test]
fn test_overloads() {
    let code = r#"
@overload
def f():
    mutation()

@overload
def f():
    dunder("__iter__")

@overload
def f():
    ...
"#;
    let out = run_file(code);
    let e = out.effects.get(&mn("test.f")).unwrap();
    assert_eq!(e.len(), 2);
    assert!(!e.iter().any(|x| x.kind == EffectKind::UnknownEffects));
}

#[test]
fn test_strip_noeffects() {
    let code = r#"
def f():
    ...

def g():
    no_effects()
"#;
    // `g` should not appear in the effects table
    assert_keys(&run_file(code).effects, vec!["test.f"]);
}

#[test]
#[should_panic]
fn test_noeffects_panics_when_mixed_with_effects() {
    let code = r#"
def f():
    ...

def g():
    imported_var_mutation("a")
    no_effects()
"#;
    // panics
    run_file(code);
}

#[test]
fn test_noeffect_overloads() {
    let code = r#"
@overload
def f():
    ...

@overload
def f():
    no_effects()
"#;
    // `f` should not appear in the effects table
    assert_keys(&run_file(code).effects, vec![]);
}

#[test]
#[should_panic]
fn test_panic_with_overloads() {
    let code = r#"
@overload
def f():
    imported_var_mutation("a")

@overload
def f():
    no_effects()
"#;
    let out = run_file(code);
    // `f` should not appear in the effects table
    assert_keys(&out.effects, vec![]);
}

#[test]
fn contradicting_effects_name_their_scope() {
    let code = r#"
def g():
    imported_var_mutation("a")
    no_effects()
"#;
    match try_file(code) {
        Ok(_) => panic!("the effects contradict each other"),
        Err(e) => assert_eq!(e.scope.as_str(), "test.g"),
    }
}

// ---- whole projects ----

/// The expected errors stand in comments, `# E: kind`, on the lines that they are found at.
fn expected_errors(code: &str) -> Vec<(u64, String)> {
    let mut out = Vec::new();
    for (i, line) in code.lines().enumerate() {
        let mut rest = line.trim();
        while let Some((prefix, err)) = rest.rsplit_once("# E:") {
            out.push((i as u64 + 1, err.trim().to_string()));
            rest = prefix.trim();
        }
    }
    out.sort();
    out.dedup();
    out
}

fn check_all_as(modules: &[(&str, &str)], mode: ExecutionMode, main: Option<&str>) {
    let sources = test_sources(modules, &[]);
    let (import_graph, exports) = ImportGraph::make_with_exports(&sources, &AnalysisConfig::default());
    let stubs = test_stubs();
    let config = AnalysisConfig::new(SysInfo::lg_default(), main.map(mn));
    let cx = AnalysisContext {
        exports: &exports,
        import_graph: &import_graph,
        stubs: &stubs,
        config: &config,
    };
    let kinds: Vec<SourceKind> = modules
        .iter()
        .map(|(name, _)| SourceKind {
            name: mn(name),
            is_stub: false,
            overrides_source: false,
        })
        .collect();
    let Ok(output) = run_analysis(&sources, &kinds, &cx, mode) else {
        panic!("no stub is analyzed");
    };
    for (name, code) in modules {
        let safety = match output.safety_map.get_str(name) {
            Some(SafetyResult::Analyzed(safety)) => safety,
            _ => panic!("{name} was not analyzed"),
        };
        let mut found: Vec<(u64, String)> = Vec::new();
        for e in safety.errors.iter().chain(&safety.force_imports_eager_overrides) {
            found.push((line_number(code, e.range.start), e.kind.error_string()));
        }
        found.sort();
        found.dedup();
        assert_eq!(found, expected_errors(code), "{name}");
    }
}

fn check_all(modules: &[(&str, &str)]) {
    check_all_as(modules, ExecutionMode::WholeProgram, None);
}

#[test]
fn test_unsafe_libfb_lazy_import() {
    // Construct a deliberately unsafe libfb.py.lazy_import and show that it doesn't raise any
    // errors when analyzed.
    let libfb = r#"
            def lazy_import(foo):
                raise ValueError("what is this foo anyway?!")
        "#;
    let code = r#"
            from libfb.py.lazy_import import lazy_import
            lazy_import("foo")
        "#;
    check_all(&[("code", code), ("libfb.py", libfb)]);
}

#[test]
fn raising_while_importing_is_an_error() {
    let code = r#"
def f():
    raise ValueError("no")

def g():
    f()

g()  # E: unsafe-function-call
raise ValueError("no")  # E: unhandled-exception
"#;
    check_all(&[("test", code)]);
}

#[test]
fn calls_across_modules() {
    let lib = r#"
def bad():
    raise ValueError("no")

def good():
    return 1
"#;
    let code = r#"
from lib import bad, good
good()
bad()  # E: unsafe-function-call
"#;
    check_all(&[("test", code), ("lib", lib)]);
}

#[test]
fn exec_makes_imports_eager() {
    let code = r#"
exec("x = 1")  # E: exec-call
"#;
    check_all(&[("test", code)]);
}

#[test]
fn caught_exceptions_are_no_errors() {
    let code = r#"
try:
    raise ValueError("no")
except ValueError:
    pass
"#;
    check_all(&[("test", code)]);
}

#[test]
fn imported_modules_are_not_changed() {
    let lib = "x = 1\n";
    let code = r#"
import lib
lib.x = 2  # E: imported-module-assignment
"#;
    check_all(&[("test", code), ("lib", lib)]);
}

#[test]
fn guarded_code_is_not_run() {
    let code = r#"
from typing import TYPE_CHECKING
if TYPE_CHECKING:
    raise ValueError("no")
"#;
    check_all(&[("test", code)]);
}

#[test]
fn the_main_module_alone_runs_guarded_code() {
    let quiet = r#"
if __name__ == "__main__":
    raise ValueError("no")
"#;
    let loud = r#"
if __name__ == "__main__":
    raise ValueError("no")  # E: unhandled-exception
"#;
    let mode = ExecutionMode::WholeProgram;
    check_all_as(&[("a", quiet), ("b", loud)], mode, Some("b"));
    check_all_as(&[("a", quiet)], ExecutionMode::WholeProgram, Some(""));
    check_all_as(&[("a", loud)], ExecutionMode::WholeProgram, None);
}

#[test]
fn parse_errors_come_out_as_failures() {
    let mut sources = test_sources(&[("good", "x = 1\n")], &[]);
    sources.insert(mn("bad"), AstResult::ParserError("parse error".to_string()));
    let (import_graph, exports) = ImportGraph::make_with_exports(&sources, &AnalysisConfig::default());
    let stubs = test_stubs();
    let config = AnalysisConfig::default();
    let cx = AnalysisContext {
        exports: &exports,
        import_graph: &import_graph,
        stubs: &stubs,
        config: &config,
    };
    let kinds: Vec<SourceKind> = ["good", "bad"]
        .iter()
        .map(|name| SourceKind {
            name: mn(name),
            is_stub: false,
            overrides_source: false,
        })
        .collect();
    let Ok(mut output) = run_analysis(&sources, &kinds, &cx, ExecutionMode::WholeProgram) else {
        panic!("no stub is analyzed");
    };
    assert_eq!(output.parse_errors.get_str("bad").unwrap(), "parse error");
    surface_parse_errors(&mut output);
    assert!(matches!(
        output.safety_map.get_str("bad"),
        Some(SafetyResult::AnalysisError(_))
    ));
    assert!(output.safety_map.get_str("good").unwrap().as_safety().is_some());
}

struct Checked {
    output: PipelineResult,
}

fn pipeline(modules: &[(&str, &str)], mode: ExecutionMode) -> Checked {
    let sources = test_sources(modules, &[]);
    let kinds: Vec<SourceKind> = sources
        .key_list()
        .into_iter()
        .map(|name| SourceKind {
            is_stub: name.as_str() == "builtins",
            overrides_source: false,
            name,
        })
        .collect();
    match run_pipeline(&sources, &kinds, &test_stubs(), mode, &Options::default()) {
        Ok(output) => Checked { output },
        Err(e) => panic!("{} has contradicting effects", e.scope.as_str()),
    }
}

fn verdict(checked: &Checked, module: &str, function: &str) -> FunctionSafety {
    let safety = checked.output.safety_map.get_str(module).unwrap().as_safety().unwrap();
    safety.function_safety.get_str(function).unwrap().verdict
}

#[test]
fn verdicts_on_functions() {
    let code = r#"
X = 1

def good():
    return 1

def bad():
    raise ValueError("no")

def caller():
    bad()

def changes_global():
    global X
    X = 2

def lost():
    unknown_thing.run()

def even(n):
    odd(n)

def odd(n):
    even(n)
"#;
    let checked = pipeline(&[("m", code)], ExecutionMode::Incremental);
    assert_eq!(verdict(&checked, "m", "good"), FunctionSafety::Safe);
    assert_eq!(verdict(&checked, "m", "bad"), FunctionSafety::Unsafe);
    assert_eq!(verdict(&checked, "m", "caller"), FunctionSafety::Unsafe);
    assert_eq!(verdict(&checked, "m", "changes_global"), FunctionSafety::UnsafeIfImported);
    // What may call itself through others is unsafe.
    assert_eq!(verdict(&checked, "m", "even"), FunctionSafety::Unsafe);
    assert_eq!(verdict(&checked, "m", "odd"), FunctionSafety::Unsafe);
}

#[test]
fn the_order_of_modules_does_not_matter() {
    let lib = r#"
def bad():
    raise ValueError("no")

def good():
    helper()

def helper():
    return 1
"#;
    let code = r#"
import lib
lib.good()
lib.bad()
"#;
    let one = pipeline(&[("a", code), ("lib", lib)], ExecutionMode::WholeProgram);
    let other = pipeline(&[("lib", lib), ("a", code)], ExecutionMode::WholeProgram);
    let errors = |c: &Checked| -> Vec<(u32, String)> {
        let safety = c.output.safety_map.get_str("a").unwrap().as_safety().unwrap();
        safety.errors.iter().map(|e| (e.range.start, e.kind.error_string())).collect()
    };
    assert_eq!(errors(&one).len(), 1);
    assert_eq!(errors(&one), errors(&other));
}

#[test]
fn mutation_goes_up_through_calls() {
    let lib = r#"
def touch(y):
    y.append(1)

def pass_on(z):
    touch(z)
"#;
    let code = r#"
import lib
from data import values
lib.pass_on(values)  # E: imported-var-argument # E: unsafe-function-call
"#;
    check_all(&[("a", code), ("lib", lib), ("data", "values = [1]\n")]);
}

#[test]
fn imports_are_edges_or_are_missing() {
    let code = "import lib.sub\nimport gone\nfrom lib import name\n";
    let sources = test_sources(
        &[("a", code), ("lib", "name = 1\n"), ("lib.sub", "")],
        &[],
    );
    let graph = ImportGraph::make(&sources, &AnalysisConfig::default());
    assert!(graph.graph.has_edge(&mn("a"), &mn("lib")));
    assert!(graph.graph.has_edge(&mn("a"), &mn("lib.sub")));
    assert!(graph.has_missing_import(&mn("a"), &mn("gone")));
    assert!(!graph.contains(&mn("gone")));
}

#[test]
fn re_exports_of_modules_may_be_filtered_later() {
    let code = "from lib import sub, thing\n";
    let sources = test_sources(
        &[("a", code), ("lib", "thing = 1\n"), ("lib.sub", "")],
        &[],
    );
    let graph = ImportGraph::make(&sources, &AnalysisConfig::default());
    let parsed = sources.get_str("a").unwrap().as_parsed().unwrap();
    let at_once = Exports::new(parsed, &graph, SysInfo::lg_default());
    let mut later = Exports::new_unfiltered(parsed, SysInfo::lg_default());
    later.filter_module_re_exports(&graph);
    for exports in [&at_once, &later] {
        assert!(exports.is_re_export(&Attribute::new(mn("a"), "thing")));
        assert!(!exports.is_re_export(&Attribute::new(mn("a"), "sub")));
    }
}

#[test]
fn every_file_gets_a_result() {
    let mut sources = test_sources(&[("good", "x = 1\n")], &[]);
    sources.insert(mn("bad"), AstResult::ParserError("no colon".to_string()));
    assert_eq!(
        sources.get_str("bad").unwrap().as_parsed().err().as_deref(),
        Some("Parser error: no colon")
    );
    let kinds = vec![SourceKind {
        name: mn("builtins"),
        is_stub: true,
        overrides_source: false,
    }];
    let options = Options {
        verbose: true,
        ..Options::default()
    };
    let mut code: NameMap<String> = NameMap::new();
    code.insert(mn("good"), "x = 1\n".to_string());
    let Ok(processed) = process_source_map(&sources, &kinds, &test_stubs(), &code, &options) else {
        panic!("no stub contradicts itself");
    };
    assert!(processed.analysis.passing_modules.contains(&mn("good")));
    assert!(processed.analysis.failing_modules.contains(&mn("bad")));
    assert_eq!(processed.analysis.passing_modules.len(), 1);
    assert!(processed.verbose.unwrap().contains("## bad"));
}

#[test]
fn stubs_are_added_to_a_cache() {
    let mut cache = LibraryCache {
        modules: vec![CachedModule::empty(mn("a"))],
        exports: CachedExports::new(),
    };
    let stubs = test_sources(
        &[("a", ""), ("stub", "import other\nimport gone\n"), ("other", "")],
        &["a", "stub", "other"],
    );
    let added = cache.inject_bundled_stub_graph(&stubs, default_python_version());
    assert!(added.contains_str("stub") && added.contains_str("other"));
    assert!(!added.contains_str("a"));
    let again = cache.to_import_graph();
    assert!(again.graph.has_edge(&mn("stub"), &mn("other")));
    assert!(again.has_missing_import(&mn("stub"), &mn("gone")));
}

#[test]
fn caches_of_libraries_are_put_together() {
    let lib = "def helper():\n    return 1\n\ndef bad():\n    raise ValueError('no')\n";
    let code = "import lib\nlib.helper()\n";
    let worse = "import lib\nlib.bad()\n";
    let cache_of = |modules: &[(&str, &str)]| {
        let found = pipeline(modules, ExecutionMode::Incremental).output;
        LibraryCache::build(
            &found.safety_map,
            &found.import_graph,
            &found.exports,
            &found.side_effect_imports,
        )
    };
    let mut cache = cache_of(&[("app", code), ("worse", worse)]);
    assert_eq!(cache.safe_count(), 0);
    cache.merge_dep_caches(vec![cache_of(&[("lib", lib)])]);
    assert!(cache.is_well_formed());
    let options = OutputOptions {
        verbose: false,
        sorted_output: true,
    };
    let analysis = LifeGuardAnalysis::from_cache(&mut cache, options);
    assert!(analysis.passing_modules.contains(&mn("app")));
    assert!(analysis.failing_modules.contains(&mn("worse")));
    assert!(analysis.passing_modules.contains(&mn("lib")));
}

#[test]
fn implicit_imports_are_found() {
    let code = "import pkg\npkg.sub.run()\n";
    let checked = pipeline(
        &[("a", code), ("pkg", ""), ("pkg.sub", "def run():\n    return 1\n")],
        ExecutionMode::WholeProgram,
    );
    let safety = checked.output.safety_map.get_str("a").unwrap().as_safety().unwrap();
    let names: Vec<&str> = safety.implicit_imports.iter().map(|n| n.as_str()).collect();
    assert_eq!(names, vec!["pkg.sub"]);
}

#[test]
fn unused_imports_are_noted() {
    let checked = pipeline(
        &[("a", "import lib\nimport used\nused.x\n"), ("lib", ""), ("used", "x = 1\n")],
        ExecutionMode::WholeProgram,
    );
    let unused = checked.output.side_effect_imports.get_str("a").unwrap();
    assert!(unused.contains_str("lib"));
    assert!(!unused.contains_str("used"));
}

#[test]
fn the_order_of_functions_does_not_matter() {
    let parts = [
        "def a():\n    b()\n    c()\n",
        "def b():\n    raise ValueError('no')\n",
        "def c():\n    d()\n",
        "def d():\n    global X\n    X = 2\n",
        "class K:\n    def __init__(self):\n        c()\n",
        "def e():\n    K()\n",
    ];
    let forward = format!("X = 1\n{}", parts.join("\n"));
    let backward = format!("X = 1\n{}", parts.iter().rev().copied().collect::<Vec<_>>().join("\n"));
    let one = pipeline(&[("m", &forward)], ExecutionMode::Incremental);
    let other = pipeline(&[("m", &backward)], ExecutionMode::Incremental);
    for name in ["a", "b", "c", "d", "K.__init__", "e"] {
        assert_eq!(verdict(&one, "m", name), verdict(&other, "m", name), "{name}");
    }
    assert_eq!(verdict(&one, "m", "a"), FunctionSafety::Unsafe);
    assert_eq!(verdict(&one, "m", "c"), FunctionSafety::UnsafeIfImported);
    assert_eq!(verdict(&one, "m", "e"), FunctionSafety::Safe);
}

fn styles(code: &str) -> Vec<(String, String)> {
    let parsed = parse_source(code, "pkg.m", false);
    let (table, _) = build_definitions_and_classes(&parsed, &AnalysisConfig::default());
    let defs = &table.definitions.get_str("pkg.m").unwrap().definitions;
    let mut out = Vec::new();
    for i in 0..defs.len() {
        let style = match &defs.value_at(i).style {
            DefinitionStyle::Annotated(_) => "annotated".to_string(),
            DefinitionStyle::Unannotated(SymbolKind::Function) => "function".to_string(),
            DefinitionStyle::Unannotated(SymbolKind::Class) => "class".to_string(),
            DefinitionStyle::Unannotated(_) => "variable".to_string(),
            DefinitionStyle::MutableCapture(MutableCaptureKind::Global) => "global".to_string(),
            DefinitionStyle::MutableCapture(MutableCaptureKind::Nonlocal) => "nonlocal".to_string(),
            DefinitionStyle::ImportAs(m, n) => format!("as {} {}", m.as_str(), n),
            DefinitionStyle::ImportAsEq(m) => format!("same {}", m.as_str()),
            DefinitionStyle::Import(m) => format!("from {}", m.as_str()),
            DefinitionStyle::ImportModule(m) => format!("module {}", m.as_str()),
            DefinitionStyle::ImportInvalidRelative => "invalid".to_string(),
            DefinitionStyle::ImplicitGlobal => "implicit".to_string(),
            DefinitionStyle::Delete => "deleted".to_string(),
        };
        out.push((defs.key_at(i).as_str().to_string(), style));
    }
    out.sort();
    out
}

fn style_of(code: &str, name: &str) -> Option<String> {
    styles(code).into_iter().find(|(n, _)| n == name).map(|(_, s)| s)
}

#[test]
fn names_are_defined_by_statements() {
    let code = r#"
import a.b
import c.d as e
from f import g, h as i, j as j
from . import k
from ..... import far
x, (y, *z) = 1, (2, 3)
w: int
def fun():
    inner = 1
class Cls:
    inner = 1
for p in q:
    r = 1
with s as t:
    pass
try:
    pass
except E as err:
    pass
if (walrus := 1):
    pass
match v:
    case [m, *rest]:
        pass
del gone
lambda: (hidden := 1)
"#;
    let expected = [
        ("Cls", "class"),
        ("a", "module a.b"),
        ("e", "module c.d"),
        ("err", "variable"),
        ("far", "invalid"),
        ("fun", "function"),
        ("g", "from f"),
        ("gone", "deleted"),
        ("i", "as f h"),
        ("j", "same f"),
        ("k", "from pkg"),
        ("m", "variable"),
        ("p", "variable"),
        ("r", "variable"),
        ("rest", "variable"),
        ("t", "variable"),
        ("w", "annotated"),
        ("walrus", "variable"),
        ("x", "variable"),
        ("y", "variable"),
        ("z", "variable"),
    ];
    let found = styles(code);
    let found: Vec<(&str, &str)> = found.iter().map(|(n, s)| (n.as_str(), s.as_str())).collect();
    assert_eq!(found, expected);
}

#[test]
fn some_definitions_count_before_others() {
    let def = "def f():\n    pass\n";
    assert_eq!(style_of(&format!("from a import f\n{def}"), "f").as_deref(), Some("function"));
    assert_eq!(style_of(&format!("{def}from a import f\n"), "f").as_deref(), Some("function"));
    assert_eq!(style_of("global x\nx = 1\n", "x").as_deref(), Some("global"));
    assert_eq!(style_of("x = 1\nx: int = 2\n", "x").as_deref(), Some("annotated"));
}

#[test]
fn outcomes_that_are_known() {
    let info = SysInfo::lg_default();
    let known = |code: &str| info.evaluate(&parse_expr(code));
    assert_eq!(known("sys.version_info >= (3, 8)"), Some(true));
    assert_eq!(known("sys.version_info < (3, 14)"), Some(false));
    assert_eq!(known("sys.version_info < (3, 14, 0, 1)"), Some(true));
    assert_eq!(known("sys.version_info[0] == 2"), Some(false));
    assert_eq!(known("sys.version_info[2] == 2"), None);
    assert_eq!(known("sys.platform == 'win32'"), Some(false));
    assert_eq!(known("sys.platform.startswith('lin')"), Some(true));
    assert_eq!(known("os.name != 'posix'"), Some(false));
    assert_eq!(known("not typing.TYPE_CHECKING"), Some(true));
    assert_eq!(known("unknown or True"), Some(true));
    assert_eq!(known("unknown and True"), None);
    assert_eq!(known("True and TYPE_CHECKING"), Some(false));
    assert_eq!(known("DEBUG"), None);
}

#[test]
fn loaded_modules_are_no_implicit_imports() {
    let code = "import os\nimport pkg\nimport pkg.sub\nos.path.run()\npkg.sub.run()\n";
    let run = "def run():\n    return 1\n";
    let checked = pipeline(
        &[("a", code), ("pkg", ""), ("pkg.sub", run), ("os", ""), ("os.path", run)],
        ExecutionMode::WholeProgram,
    );
    let safety = checked.output.safety_map.get_str("a").unwrap().as_safety().unwrap();
    assert!(safety.implicit_imports.is_empty());
}

#[test]
fn classes_are_read_from_their_definitions() {
    let code = r#"
from lib import Base, Meta

class A(Base, unknown(), metaclass=Meta):
    x, y = 1, 2
    z = w = 3
    v: int

    @staticmethod
    @classmethod
    def f(cls):
        pass

class B(metaclass=make()):
    pass
"#;
    let classes = make_class_table(code);
    let a = classes.lookup_str("test.A").unwrap();
    assert_eq!(a.bases.len(), 1);
    assert_eq!(a.bases[0].as_str(), "lib.Base");
    assert!(a.has_unknown_base);
    assert_eq!(a.metaclass.as_ref().unwrap().as_str(), "lib.Meta");
    let fields: Vec<(FieldKind, &str)> = a.fields.iter().map(|f| (f.kind, f.name.as_str())).collect();
    assert_eq!(
        fields,
        vec![
            (FieldKind::ClassVar, "z"),
            (FieldKind::ClassVar, "w"),
            (FieldKind::ClassVar, "v"),
            (FieldKind::ClassMethod, "f"),
        ]
    );
    let b = classes.lookup_str("test.B").unwrap();
    assert!(b.metaclass.is_none() && b.has_unknown_metaclass);
}

// ---- text that is parsed ----

#[test]
fn evaluated_text_has_the_effects_of_its_expression() {
    let code = r#"
eval("1 + 2")
eval("")
eval("unknown()")  # E: unknown-function-call
eval("x = 1")  # E: exec-call
eval("eval('unknown()')")  # E: unknown-function-call
eval("eval('y = 1')")  # E: exec-call
eval(name)  # E: exec-call
eval()
"#;
    check_all(&[("test", code)]);
}

#[test]
fn the_first_expression_of_a_text_is_taken() {
    assert_eq!(format_expr(&parse_expression("a.b; c").unwrap()), "a.b");
    assert!(parse_expression("x = 1").is_none());
    assert!(parse_expression("").is_none());
    let body = parse_source("f(1)\ng(2)\n", "test", false).body;
    assert_eq!(format_expr(&take_expression(body).unwrap()), "f(Int(1))");
    assert!(take_expression(Vec::new()).is_none());
}

#[test]
fn sizes_are_counted_in_bytes() {
    assert_eq!(text_size(""), 0);
    assert_eq!(text_size("abc"), 3);
    assert_eq!(text_size("h\u{e4}"), 3);
}

#[test]
fn modules_keep_what_they_are_read_with() {
    let version = PythonVersion { major: 3, minor: 13, micro: 0 };
    let parsed = parse_module("x = 1\n", mn("a.b"), true, false, version);
    assert_eq!(parsed.name.as_str(), "a.b");
    assert!(parsed.is_init && !parsed.is_stub && !parsed.is_thrift_generated);
    assert_eq!(parsed.body.len(), 1);
    assert_eq!(parsed.body[0].range, TextRange::new(0, 5));
    assert!(matches!(&parsed.body[0].node, StmtNode::Assign { .. }));
    let empty = module_of(Vec::new(), "", mn("c"), false, true);
    assert!(empty.is_stub && empty.body.is_empty());
}

#[test]
fn files_that_thrift_wrote_are_told_by_their_remark() {
    assert!(is_thrift_generated("#\n# Autogenerated by Thrift\n#\n"));
    assert!(!is_thrift_generated("# Autogenerated by thrift\n"));
    assert!(!is_thrift_generated(""));
    let code = "# Autogenerated by Thrift\nraise ValueError()\n";
    assert!(parse_source(code, "test", false).is_thrift_generated);
    check_all(&[("test", code)]);
}

#[test]
fn stubs_are_analyzed_from_their_text() {
    let code = "def f():\n    mutation()\n\ndef g():\n    no_effects()\n";
    let Ok(module) = analyze_str(mn("lib"), code) else {
        panic!("no scope contradicts itself");
    };
    let effects = &module.module_effects.effects;
    assert!(matches!(effects.get(&mn("lib.f")).unwrap()[0].kind, EffectKind::Mutation));
    assert!(module.definitions.definitions.get_str("lib").unwrap().definitions.contains_str("g"));
    let conflict = analyze_str(mn("lib"), "def f():\n    no_effects()\n    mutation()\n");
    match conflict {
        Err(e) => assert_eq!(e.scope.as_str(), "lib.f"),
        Ok(_) => panic!("f contradicts itself"),
    }
}

#[test]
fn functions_that_need_no_import_are_sorted() {
    let code = r#"
def run():
    exec_call()

def ban():
    mutation()
    prohibited_function_call()

def len():
    no_effects()

class int: ...
"#;
    let mut stubs = Stubs::new();
    stubs.note_builtins();
    assert!(stubs.known_builtins.is_empty() && stubs.prohibited_builtins.is_empty());
    match analyze_str(mn("builtins"), code) {
        Ok(module) => stubs.modules.insert(mn("builtins"), module),
        Err(e) => panic!("{} has contradicting effects", e.scope.as_str()),
    };
    stubs.note_builtins();
    assert!(stubs.known_builtins.contains_str("len") && stubs.known_builtins.contains_str("int"));
    assert_eq!(stubs.known_builtins.len(), 2);
    assert_eq!(stubs.prohibited_builtins.get_str("run"), Some(&EffectKind::ExecCall));
    assert_eq!(stubs.prohibited_builtins.get_str("ban"), Some(&EffectKind::ProhibitedFunctionCall));
    assert_eq!(stubs.prohibited_builtins.len(), 2);
}

fn captured(p: &CasePattern) -> Vec<&str> {
    let mut out: Vec<&str> = p.parts.iter().flat_map(captured).collect();
    out.extend(p.name.as_ref().map(|n| n.name.as_str()));
    out
}

#[test]
fn patterns_hold_the_names_that_they_capture() {
    let code = r#"
match v:
    case [a, *b]: pass
    case {"k": c, **d}: pass
    case P(e, x=f): pass
    case (g, 1) | (1, g): pass
    case [h] as i: pass
    case None: pass
    case _: pass
"#;
    let parsed = parse_source(code, "test", false);
    let StmtNode::Match { subject, cases } = &parsed.body[0].node else {
        panic!("Expected Match");
    };
    assert_eq!(format_expr(subject), "v");
    let names: Vec<Vec<&str>> = cases.iter().map(|c| captured(&c.pattern)).collect();
    let expected = [
        vec!["a", "b"],
        vec!["c", "d"],
        vec!["e", "f"],
        vec!["g", "g"],
        vec!["h", "i"],
        vec![],
        vec![],
    ];
    assert_eq!(names, expected);
}

fn kind_of(s: &Statement) -> &'static str {
    match &s.node {
        StmtNode::FunctionDef(_) => "function",
        StmtNode::ClassDef(_) => "class",
        StmtNode::Delete { .. } => "delete",
        StmtNode::Assign { .. } => "assign",
        StmtNode::AugAssign { .. } => "augmented",
        StmtNode::AnnAssign { .. } => "annotated",
        StmtNode::For { .. } => "for",
        StmtNode::While { .. } => "while",
        StmtNode::If { .. } => "if",
        StmtNode::With { .. } => "with",
        StmtNode::Match { .. } => "match",
        StmtNode::Raise { .. } => "raise",
        StmtNode::Try { .. } => "try",
        StmtNode::Import(_) => "import",
        StmtNode::ImportFrom(_) => "from",
        StmtNode::Expr { .. } => "expression",
        StmtNode::Global { .. } => "global",
        StmtNode::Nonlocal { .. } => "nonlocal",
        StmtNode::TypeAlias { .. } => "type",
        StmtNode::Other => "other",
    }
}

#[test]
fn statements_are_told_apart() {
    let code = r#"
def f(a, /, b=1, *c, d, **e) -> int: pass
class C(B, metaclass=M): pass
del x
x = 1
x += 1
x: int = 1
for x in y: pass
while x: pass
if x: pass
with x as y: pass
match x:
    case 1: pass
raise x
try: pass
except E as e: pass
import a.b as c
from ..p import q
x
global x
nonlocal x
type T = int
pass
assert x
"#;
    let parsed = parse_source(code, "test", false);
    let found: Vec<&str> = parsed.body.iter().map(kind_of).collect();
    let expected = [
        "function", "class", "delete", "assign", "augmented", "annotated", "for", "while", "if", "with",
        "match", "raise", "try", "import", "from", "expression", "global", "nonlocal", "type", "other",
        "other",
    ];
    assert_eq!(found, expected);
    let StmtNode::FunctionDef(f) = &parsed.body[0].node else { panic!() };
    assert_eq!(f.name, "f");
    assert_eq!(f.name_range, TextRange::new(5, 6));
    assert_eq!(f.parameters.posonlyargs[0].name, "a");
    assert_eq!(f.parameters.args[0].name, "b");
    assert!(f.parameters.args[0].default.is_some());
    assert_eq!(f.parameters.vararg.as_deref(), Some("c"));
    assert_eq!(f.parameters.kwonlyargs[0].name, "d");
    assert_eq!(f.parameters.kwarg.as_deref(), Some("e"));
    assert_eq!(format_expr(f.return_annotation.as_ref().unwrap()), "int");
    let StmtNode::ImportFrom(i) = &parsed.body[14].node else { panic!() };
    assert_eq!((i.module.as_deref(), i.level), (Some("p"), 2));
    assert_eq!(i.names[0].name, "q");
}

#[test]
fn expressions_are_told_apart() {
    check("a and b", "a and b");
    check("a if b else c", "a if b else c");
    check("[a, *b]", "[a, *b]");
    check("a[1:b:c]", "a[Int(1):b:c]");
    check("a < b <= c", "a < b <= c");
    check("a is not b", "a is not b");
    check("f(*a, k=b)", "f(*a, k=b)");
    let Node::FString { values } = parse_expr("f'{a}x{b:{c}}'").node else {
        panic!("Expected FString");
    };
    assert_eq!(values.len(), 3);
}

#[test]
fn projects_are_analyzed_for_the_version_of_the_options() {
    let code = "import sys\nif sys.version_info >= (3, 13):\n    raise ValueError()\n";
    let kinds = vec![SourceKind {
        name: mn("m"),
        is_stub: false,
        overrides_source: false,
    }];
    for (minor, passes) in [(12, true), (13, false), (14, false)] {
        let options = Options {
            python_version: PythonVersion { major: 3, minor, micro: 0 },
            ..Options::default()
        };
        let sources = test_sources(&[("m", code)], &[]);
        let Ok(processed) = process_source_map(&sources, &kinds, &test_stubs(), &NameMap::new(), &options)
        else {
            panic!("no stub contradicts itself");
        };
        assert_eq!(processed.analysis.passing_modules.contains_str("m"), passes, "3.{minor}");
    }
}

#[test]
fn relative_imports_start_from_the_name_that_a_module_is_listed_under() {
    let mut sources: Sources = NameMap::new();
    let parsed = parse_source("from . import x\n", "other.m", false);
    sources.insert(mn("pkg.m"), AstResult::Parsed(parsed));
    sources.insert(mn("pkg.x"), AstResult::Parsed(parse_source("", "pkg.x", false)));
    let graph = ImportGraph::make(&sources, &AnalysisConfig::default());
    assert!(graph.graph.has_edge(&mn("pkg.m"), &mn("pkg.x")));
}

#[test]
fn calls_are_shown_whole() {
    let range = TextRange::new(3, 9);
    let eff = Effect::new(EffectKind::ImportedTypeAttr, mn("lib.C.p"), range);
    assert_eq!(
        show_call(&mn("m"), &mn("m.f"), &eff),
        "Call { caller_module: ModuleName(\"m\"), effect: Effect { kind: ImportedTypeAttr, \
         name: ModuleName(\"lib.C.p\"), range: 3..9, data: None, try_handlers: None }, \
         func: ModuleName(\"lib.C.p\"), stack: CallStack { entries: [ModuleName(\"m.f\")], \
         seen: {ModuleName(\"m.f\")} }, is_module_scope: true }"
    );
    let forwarded = vec![
        (ArgSlot::Positional(0), mn("y")),
        (ArgSlot::Keyword(mn("k")), mn("z")),
        (ArgSlot::StarExpansion(2), mn("w")),
    ];
    let data = CallData::new(true, 5, vec![mn("a"), mn("b")], false)
        .with_args_expansion(Some(1))
        .with_forwarded_params(forwarded);
    let eff = Effect::with_data(EffectKind::FunctionCall, mn("f"), range, EffectData::Call(Box::new(data)))
        .with_try_handlers(vec![
            TryHandler::Bare,
            TryHandler::Single(mn("E")),
            TryHandler::Multiple(vec![mn("F"), mn("G")]),
        ]);
    assert_eq!(
        show_effect(&eff),
        "Effect { kind: FunctionCall, name: ModuleName(\"f\"), range: 3..9, \
         data: Call(CallData { has_unsafe_args: true, imported_args: ImportedArgs { \
         unsafe_arg_indices: 5, unsafe_keyword_names: [ModuleName(\"a\"), ModuleName(\"b\")], \
         has_unsafe_kwargs_expansion: false, unsafe_args_expansion_min: Some(1) }, \
         forwarded_params: [(Positional(0), ModuleName(\"y\")), \
         (Keyword(ModuleName(\"k\")), ModuleName(\"z\")), (StarExpansion(2), ModuleName(\"w\"))] }), \
         try_handlers: Some([Bare, Single(ModuleName(\"E\")), \
         Multiple([ModuleName(\"F\"), ModuleName(\"G\")])]) }"
    );
    let odd = Effect::new(EffectKind::Raise, mn("a\"b"), range);
    assert!(show_effect(&odd).contains("ModuleName(\"a\\\"b\")"));
}
