use particelle::registry::{Domain, ParamDescriptor, ParamRegistry};
use particelle::routing::{MidiRouter, RoutingRule};
use particelle::unit::Unit;

fn rule(target: &str) -> RoutingRule<f64> {
    RoutingRule { source: "midi.cc.1".to_owned(), target: target.to_owned(), scale: 1.0, offset: 0.0 }
}

#[test]
fn validate_reports_unregistered_targets_in_order() {
    let mut registry: ParamRegistry<f64, f64> = ParamRegistry::new();
    registry
        .register(ParamDescriptor {
            path: "cloud.a.density".to_owned(),
            unit: Unit::Hz,
            domain: Domain::Continuous,
            range: (0.0, 100.0),
            default: 10.0,
            description: None,
        })
        .unwrap();
    let router = MidiRouter::new(vec![rule("x"), rule("cloud.a.density"), rule("y")]);
    assert_eq!(
        router.validate(&registry),
        vec![
            "Routing target not found: 'x'".to_owned(),
            "Routing target not found: 'y'".to_owned()
        ]
    );
    assert!(MidiRouter::new(vec![rule("cloud.a.density")]).validate(&registry).is_empty());
}
