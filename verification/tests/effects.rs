use lifeguard::cursor::TryHandler;
use lifeguard::effects::{
    ArgSlot, CallData, CallKind, Effect, EffectData, EffectKind, EffectTable, ImportedArgs,
};
use lifeguard::effect_report::sort_by_start;
use lifeguard::format::ErrorString;
use lifeguard::module_name::ModuleName;
use lifeguard::name_map::NameMap;
use lifeguard::text_range::TextRange;

fn mn(s: &str) -> ModuleName {
    ModuleName::from_str(s)
}

#[test]
fn test_serialize_effect_kind() {
    let out = &EffectKind::GlobalVarAssign.error_string();
    assert_eq!(out, "global-var-assign");
}

#[test]
fn test_deserialize_effect_kind() {
    let out = EffectKind::from_str("global-var-assign").unwrap();
    assert_eq!(out, EffectKind::GlobalVarAssign);
}

#[test]
fn effect_kind_from_other_text() {
    assert!(EffectKind::from_str("no-such-effect").is_err());
    assert!(EffectKind::from_str("").is_err());
    // An escape in the text is read as what it stands for.
    assert_eq!(
        EffectKind::from_str("r\\u0061ise").unwrap(),
        EffectKind::from_str("raise").unwrap()
    );
}

#[test]
fn test_call_kind_unknown_call_effect() {
    assert_eq!(
        CallKind::Function.unknown_call_effect(),
        EffectKind::UnknownFunctionCall
    );
    assert_eq!(
        CallKind::Method.unknown_call_effect(),
        EffectKind::UnknownMethodCall
    );
    assert_eq!(
        CallKind::Decorator.unknown_call_effect(),
        EffectKind::UnknownDecoratorCall
    );
}

#[test]
fn test_imported_args_has_any_tracked_args() {
    let empty = CallData::empty();
    assert!(!empty.imported_args().has_any_tracked_args());

    let with_indices = CallData::new(true, 1, Vec::new(), false);
    assert!(with_indices.imported_args().has_any_tracked_args());

    let with_keywords = CallData::new(false, 0, vec![mn("kwarg")], false);
    assert!(with_keywords.imported_args().has_any_tracked_args());

    let with_expansion = CallData::new(false, 0, Vec::new(), true);
    assert!(with_expansion.imported_args().has_any_tracked_args());

    let with_args_expansion =
        CallData::new(false, 0, Vec::new(), false).with_args_expansion(Some(0));
    let args = with_args_expansion.imported_args();
    assert!(args.has_any_tracked_args());
    assert!(args.unsafe_args_expansion_min.is_some());
    assert!(!args.has_precise_arg_tracking());
    // The expansion's lower bound gates which positional indices are unsafe.
    assert!(args.has_unsafe_arg_index(0));
    let from_two = CallData::new(false, 0, Vec::new(), false).with_args_expansion(Some(2));
    let from_two = from_two.imported_args();
    assert!(!from_two.has_unsafe_arg_index(1));
    assert!(from_two.has_unsafe_arg_index(2));
}

#[test]
fn test_imported_args_has_unsafe_keyword() {
    let with_expansion = CallData::new(false, 0, Vec::new(), true);
    let args = with_expansion.imported_args();
    assert!(args.has_unsafe_keyword("anything"));
    assert!(args.has_unsafe_keywords());
    assert!(!args.has_precise_keyword_tracking());

    let with_names = CallData::new(false, 0, vec![mn("foo")], false);
    let args = with_names.imported_args();
    assert!(args.has_unsafe_keyword("foo"));
    assert!(!args.has_unsafe_keyword("bar"));
    assert!(args.has_unsafe_keywords());
    assert!(args.has_precise_keyword_tracking());

    let empty = CallData::empty();
    let args = empty.imported_args();
    assert!(!args.has_unsafe_keyword("foo"));
    assert!(!args.has_unsafe_keywords());
}

#[test]
fn test_with_try_handlers_empty_iterator() {
    let eff = Effect::new(EffectKind::Raise, mn("ValueError"), TextRange::default())
        .with_try_handlers(Vec::new());
    assert!(!eff.has_try_context());
    assert!(eff.try_handlers.is_none());
}

#[test]
fn test_with_try_handlers_populates_field() {
    let handlers = vec![TryHandler::Bare, TryHandler::Single(mn("TypeError"))];
    let eff = Effect::new(EffectKind::Raise, mn("ValueError"), TextRange::default())
        .with_try_handlers(handlers);
    assert!(eff.has_try_context());
    assert_eq!(eff.try_handlers.as_ref().unwrap().len(), 2);
}

#[test]
fn test_try_context_catches_delegates_to_handlers() {
    let handlers = vec![
        TryHandler::Single(mn("TypeError")),
        TryHandler::Single(mn("ValueError")),
    ];
    let eff = Effect::new(EffectKind::Raise, mn("ValueError"), TextRange::default())
        .with_try_handlers(handlers);

    assert!(eff.try_context_catches(&mn("ValueError")));
    assert!(eff.try_context_catches(&mn("TypeError")));
    assert!(!eff.try_context_catches(&mn("KeyError")));
}

#[test]
fn test_try_context_catches_no_handlers() {
    let eff = Effect::new(EffectKind::Raise, mn("ValueError"), TextRange::default());
    assert!(!eff.try_context_catches(&mn("ValueError")));
}

#[test]
fn test_effect_table_merge_with_new_keys() {
    let range = TextRange::default();
    let mod_a = mn("mod_a");
    let mod_b = mn("mod_b");

    let mut table1 = EffectTable::empty();
    table1.insert(
        mod_a.clone(),
        Effect::new(EffectKind::FunctionCall, mod_a.clone(), range),
    );

    let mut table2 = EffectTable::empty();
    table2.insert(
        mod_a.clone(),
        Effect::new(EffectKind::MethodCall, mod_a.clone(), range),
    );
    table2.insert(
        mod_b.clone(),
        Effect::new(EffectKind::Raise, mod_b.clone(), range),
    );

    table1.merge(table2);

    assert_eq!(table1.get(&mod_a).unwrap().len(), 2);
    assert_eq!(table1.get(&mod_b).unwrap().len(), 1);
}

#[test]
fn bare_handler_catches_everything() {
    assert!(TryHandler::Bare.catches(&mn("Anything")));
    let several = TryHandler::Multiple(vec![mn("A"), mn("B")]);
    assert!(several.catches(&mn("B")));
    assert!(!several.catches(&mn("C")));
}

#[test]
fn kinds_that_run_something() {
    assert!(EffectKind::FunctionCall.is_runnable());
    assert!(EffectKind::UnboundMethodCall.is_runnable());
    assert!(!EffectKind::Raise.is_runnable());
    assert!(EffectKind::ExecCall.requires_eager_loading_imports());
    assert!(!EffectKind::Raise.requires_eager_loading_imports());
    assert!(EffectKind::Unsafe.is_unsafe_stub_effect());
    assert!(!EffectKind::FunctionCall.is_unsafe_stub_effect());
}

#[test]
fn imported_argument_reaches_parameter() {
    // The second argument of a call of a method is its parameter of index two.
    let call = CallData::new(true, 0b10, Vec::new(), false);
    let args = call.imported_args();
    assert!(args.hits_param("x", Some(2), 1));
    assert!(!args.hits_param("x", Some(1), 1));
    let mut params: NameMap<Option<usize>> = NameMap::new();
    params.insert(mn("a"), Some(1));
    assert!(!args.hits_any_param(&params, 1));
    params.insert(mn("b"), Some(2));
    assert!(args.hits_any_param(&params, 1));
    assert!(!ImportedArgs::none().has_any_tracked_args());
}

#[test]
fn copies_keep_everything() {
    let call = CallData::new(true, 5, vec![mn("k")], false)
        .with_args_expansion(Some(3))
        .with_forwarded_params(vec![(ArgSlot::Keyword(mn("kw")), mn("p"))]);
    let eff = Effect::with_data(
        EffectKind::FunctionCall,
        mn("f"),
        TextRange::new(1, 2),
        EffectData::Call(Box::new(call)),
    );
    let copy = eff.clone();
    assert_eq!(copy.kind, EffectKind::FunctionCall);
    assert_eq!(copy.range, TextRange::new(1, 2));
    match copy.data {
        EffectData::Call(data) => {
            assert!(data.has_unsafe_args());
            assert!(data.has_forwarded_params());
            assert_eq!(data.imported_args().unsafe_arg_indices, 5);
            assert_eq!(data.imported_args().unsafe_args_expansion_min, Some(3));
            assert_eq!(data.forwarded_params()[0].1.as_str(), "p");
        }
        EffectData::Empty => panic!("data is gone"),
    }
}

#[test]
fn effects_are_shown_by_scope_and_place() {
    let mut table = EffectTable::empty();
    for (scope, kind, start) in [
        ("m.f", EffectKind::Raise, 30),
        ("m", EffectKind::FunctionCall, 20),
        ("m", EffectKind::MethodCall, 10),
        ("m", EffectKind::Raise, 20),
    ] {
        table.insert(mn(scope), Effect::new(kind, mn("x"), TextRange::new(start, start + 1)));
    }
    let report = table.report();
    assert_eq!(report.len(), 2);
    assert_eq!(report[0].0.as_str(), "m");
    let kinds: Vec<EffectKind> = report[0].1.iter().map(|e| e.kind).collect();
    assert_eq!(
        kinds,
        vec![EffectKind::MethodCall, EffectKind::FunctionCall, EffectKind::Raise]
    );
    assert_eq!(report[1].0.as_str(), "m.f");
    assert!(sort_by_start(&Vec::new()).is_empty());
}

#[test]
fn effects_are_shown_with_their_code() {
    let mut table = EffectTable::empty();
    table.insert(
        mn("m"),
        Effect::with_data(
            EffectKind::FunctionCall,
            mn("f"),
            TextRange::new(6, 9),
            EffectData::Call(Box::new(CallData::empty())),
        ),
    );
    table.insert(mn("m"), Effect::new(EffectKind::Raise, mn(""), TextRange::new(50, 60)));
    let code = "x = 1\nf()\n";
    assert_eq!(
        table.pretty_print(code, true),
        "Scope: m\n    Line 2:\n        Effect: FunctionCall\n        Expr: f()\n        \
         Name: f\n        UnsafeArgs: false\n    Line 3:\n        Effect: Raise\n        \
         Expr: <Error: Can't resolve range 50..60>\n"
    );
    assert!(!table.pretty_print(code, false).contains("Expr"));
}

#[test]
fn effect_kinds_have_names_of_their_own() {
    let kinds = [
        EffectKind::Raise,
        EffectKind::SetAttr,
        EffectKind::SetSubscript,
        EffectKind::Dunder,
        EffectKind::Mutation,
        EffectKind::NoEffects,
        EffectKind::Unsafe,
    ];
    for (i, a) in kinds.iter().enumerate() {
        assert_eq!(EffectKind::from_str(&a.error_string()).unwrap(), *a);
        for b in &kinds[i + 1..] {
            assert_ne!(a.error_string(), b.error_string());
            assert_ne!(a.name(), b.name());
        }
    }
}
