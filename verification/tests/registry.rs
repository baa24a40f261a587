use particelle::registry::{Domain, ParamDescriptor, ParamRegistry, RegistryError, SignalBinding};
use particelle::unit::Unit;

fn dummy_descriptor(path: &str) -> ParamDescriptor<f64> {
    ParamDescriptor {
        path: path.to_owned(),
        unit: Unit::Unitless,
        domain: Domain::Continuous,
        range: (0.0, 1.0),
        default: 0.5,
        description: None,
    }
}

#[test]
fn test_bind_success() {
    let mut registry: ParamRegistry<f64, f64> = ParamRegistry::new();
    registry.register(dummy_descriptor("foo.bar")).unwrap();

    let result = registry.bind("foo.bar", 0.75);
    assert!(result.is_ok());

    let retrieved = registry.get_signal("foo.bar").unwrap();
    match retrieved {
        SignalBinding::Bound(val) => assert_eq!(*val, 0.75),
        _ => panic!("Expected Const signal"),
    }
}

#[test]
fn test_bind_not_found() {
    let mut registry: ParamRegistry<f64, f64> = ParamRegistry::new();
    let result = registry.bind("foo.bar", 0.75);

    match result {
        Err(RegistryError::NotFound { path }) => assert_eq!(path, "foo.bar"),
        _ => panic!("Expected NotFound error"),
    }
}

#[test]
fn registered_parameter_starts_at_its_default() {
    let mut registry: ParamRegistry<f64, f64> = ParamRegistry::new();
    registry.register(dummy_descriptor("cloud.a.density")).unwrap();
    assert_eq!(registry.get_signal("cloud.a.density"), Some(&SignalBinding::Default));
    let d = registry.get_descriptor("cloud.a.density").unwrap();
    assert_eq!(d.path, "cloud.a.density");
    assert_eq!(d.default, 0.5);
    assert!(registry.get_descriptor("cloud.a").is_none());
    assert!(registry.get_signal("cloud.a").is_none());
}

#[test]
fn registering_twice_is_refused() {
    let mut registry: ParamRegistry<f64, f64> = ParamRegistry::new();
    registry.register(dummy_descriptor("x")).unwrap();
    registry.bind("x", 2.0).unwrap();
    let err = registry.register(dummy_descriptor("x")).unwrap_err();
    assert_eq!(err, RegistryError::AlreadyRegistered { path: "x".to_owned() });
    assert_eq!(registry.get_signal("x"), Some(&SignalBinding::Bound(2.0)));
}

#[test]
fn all_paths_in_registration_order() {
    let mut registry: ParamRegistry<f64, f64> = ParamRegistry::new();
    assert!(registry.all_paths().is_empty());
    registry.register(dummy_descriptor("b")).unwrap();
    registry.register(dummy_descriptor("a")).unwrap();
    registry.register(dummy_descriptor("c")).unwrap();
    registry.bind("a", 1.0).unwrap();
    assert_eq!(registry.all_paths(), vec!["b", "a", "c"]);
}

#[test]
fn rebinding_replaces_the_signal() {
    let mut registry: ParamRegistry<f64, f64> = ParamRegistry::new();
    registry.register(dummy_descriptor("p")).unwrap();
    registry.bind("p", 1.0).unwrap();
    registry.bind("p", 3.0).unwrap();
    assert_eq!(registry.get_signal("p"), Some(&SignalBinding::Bound(3.0)));
}
