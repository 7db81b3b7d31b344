use lifeguard::effects::{Effect, EffectKind};
use lifeguard::errors::{ErrorKind, ErrorMetadata, SafetyError};
use lifeguard::format::ErrorString;
use lifeguard::module_name::ModuleName;
use lifeguard::text_range::TextRange;

fn mn(s: &str) -> ModuleName {
    ModuleName::from_str(s)
}

#[test]
fn test_serialize_error_kind() {
    let out = &ErrorKind::UnsafeFunctionCall.error_string();
    assert_eq!(out, "unsafe-function-call");
}

#[test]
fn test_safety_error_ordering_and_equality() {
    let range1 = TextRange::new(0, 5);
    let range2 = TextRange::new(10, 15);

    let err1 = SafetyError::new(ErrorKind::UnsafeFunctionCall, "foo".to_string(), range1);
    let err2 = SafetyError::new(ErrorKind::UnsafeFunctionCall, "foo".to_string(), range2);
    let err3 = SafetyError::new(ErrorKind::UnsafeFunctionCall, "foo".to_string(), range1);

    assert_eq!(err1.kind, err3.kind);
    assert_eq!(err1.metadata.as_str(), err3.metadata.as_str());
    assert_eq!(err1.range, err3.range);
    assert!(!err1.precedes(&err3) && !err3.precedes(&err1));

    assert!(err1.precedes(&err2));
    assert!(!err2.precedes(&err1));

    let err4 = SafetyError::new(ErrorKind::ExecCall, "foo".to_string(), range1);
    assert!(
        err1.precedes(&err4) || err4.precedes(&err1),
        "different ErrorKind at same range should differ"
    );
}

#[test]
fn test_safety_error_from_unsafe_call_variants() {
    let range = TextRange::default();

    let method_eff = Effect::new(EffectKind::MethodCall, mn("obj.method"), range);
    let err = SafetyError::from_unsafe_call(&method_eff).unwrap();
    assert_eq!(err.kind, ErrorKind::UnsafeMethodCall);

    let attr_eff = Effect::new(EffectKind::ImportedTypeAttr, mn("cls.attr"), range);
    let err = SafetyError::from_unsafe_call(&attr_eff).unwrap();
    assert_eq!(err.kind, ErrorKind::UnsafeMethodCall);

    let dec_eff = Effect::new(EffectKind::DecoratorCall, mn("deco"), range);
    let err = SafetyError::from_unsafe_call(&dec_eff).unwrap();
    assert_eq!(err.kind, ErrorKind::UnsafeDecoratorCall);

    let imp_dec_eff = Effect::new(EffectKind::ImportedDecoratorCall, mn("deco"), range);
    let err = SafetyError::from_unsafe_call(&imp_dec_eff).unwrap();
    assert_eq!(err.kind, ErrorKind::UnsafeDecoratorCall);

    let raise_eff = Effect::new(EffectKind::Raise, mn("err"), range);
    assert!(SafetyError::from_unsafe_call(&raise_eff).is_err());
}

#[test]
fn errors_that_effects_are() {
    let range = TextRange::new(3, 4);
    let raise = Effect::new(EffectKind::Raise, mn("ValueError"), range);
    let err = SafetyError::from_effect(&raise).unwrap();
    assert_eq!(err.kind, ErrorKind::UnhandledException);
    assert_eq!(err.metadata.as_str(), "ValueError");
    assert_eq!(err.range, range);
    let call = Effect::new(EffectKind::FunctionCall, mn("f"), range);
    assert!(SafetyError::from_effect(&call).is_none());
}

#[test]
fn eager_kinds_and_missing_imports() {
    assert!(ErrorKind::CustomFinalizer.requires_eager_loading_imports());
    assert!(!ErrorKind::UnsafeFunctionCall.requires_eager_loading_imports());
    assert!(ErrorKind::UnknownFunctionCall.could_be_caused_by_missing_import());
    assert!(!ErrorKind::ExecCall.could_be_caused_by_missing_import());
}

#[test]
fn every_kind_has_a_name_of_its_own() {
    let all = ErrorKind::all();
    for (i, a) in all.iter().enumerate() {
        for b in &all[i + 1..] {
            assert_ne!(a.error_string(), b.error_string());
            assert!(a.comes_before(*b));
            assert!(!b.comes_before(*a));
        }
    }
}

#[test]
fn metadata_is_the_text() {
    assert_eq!(ErrorMetadata::from_str("test_metadata").as_str(), "test_metadata");
}

#[test]
fn effects_are_errors_or_calls() {
    let range = TextRange::new(1, 2);
    for kind in [
        EffectKind::ExecCall,
        EffectKind::CustomFinalizer,
        EffectKind::SysModulesAccess,
    ] {
        let err = SafetyError::from_effect(&Effect::new(kind, mn("x"), range));
        assert!(kind.requires_eager_loading_imports());
        assert!(err.is_none() || err.unwrap().kind.requires_eager_loading_imports());
    }
    for kind in [EffectKind::FunctionCall, EffectKind::MethodCall, EffectKind::DecoratorCall] {
        assert!(SafetyError::from_effect(&Effect::new(kind, mn("x"), range)).is_none());
        assert!(SafetyError::from_unsafe_call(&Effect::new(kind, mn("x"), range)).is_ok());
    }
}
