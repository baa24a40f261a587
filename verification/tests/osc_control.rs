use particelle::osc_control::{
    decide_osc_message, drain_field_updates, handle_osc_packet, OscAction, OscArg, OscArgKind,
    OscPacketIn, OscReply,
};
use particelle::path_map::PathMap;

fn osc_message(addr: &str, first_arg: Option<OscArg<f64>>) -> OscPacketIn<f64> {
    OscPacketIn::Message { addr: addr.to_owned(), first_arg }
}

#[test]
fn osc_field_message_emits_ack_and_enqueues_update() {
    let action = decide_osc_message("/field/density", Some(OscArgKind::Float));
    assert_eq!(action, OscAction::SetField { field: "density".to_owned() });

    let mut queued = Vec::new();
    let mut replies = Vec::new();
    handle_osc_packet(
        &osc_message("/field/density", Some(OscArg::Float(12.5))),
        &mut queued,
        &mut replies,
    );
    assert_eq!(queued.len(), 1);
    assert_eq!(queued[0].0, "density");
    assert!((queued[0].1 - 12.5).abs() < 1e-9);
    assert_eq!(replies, vec![OscReply::Ack { field: "density".to_owned(), value: 12.5 }]);
}

#[test]
fn osc_ping_emits_pong() {
    assert_eq!(decide_osc_message("/ping", None), OscAction::Pong);
    assert_eq!(decide_osc_message("/ping", Some(OscArgKind::Int)), OscAction::Pong);
}

#[test]
fn unsupported_osc_address_emits_error() {
    assert_eq!(
        decide_osc_message("/unsupported", None),
        OscAction::Error { message: "Unsupported OSC address '/unsupported'".to_owned() }
    );
}

#[test]
fn osc_field_errors() {
    assert_eq!(
        decide_osc_message("/field/", Some(OscArgKind::Double)),
        OscAction::Error { message: "Field name cannot be empty".to_owned() }
    );
    assert_eq!(
        decide_osc_message("/field//field/", Some(OscArgKind::Double)),
        OscAction::Error { message: "Field name cannot be empty".to_owned() }
    );
    assert_eq!(
        decide_osc_message("/field/x", Some(OscArgKind::Other)),
        OscAction::Error { message: "Unsupported argument type for /field/x".to_owned() }
    );
    assert_eq!(
        decide_osc_message("/field/x", None),
        OscAction::Error { message: "Missing numeric argument for /field/x".to_owned() }
    );
    assert_eq!(
        decide_osc_message("/field//field/pos", Some(OscArgKind::Int)),
        OscAction::SetField { field: "pos".to_owned() }
    );
}

#[test]
fn osc_bundle_order_is_deterministic() {
    let mut queued = Vec::new();
    let mut replies = Vec::new();
    let bundle = OscPacketIn::Bundle(vec![
        osc_message("/field/density", Some(OscArg::Double(0.25))),
        osc_message("/field/density", Some(OscArg::Double(0.75))),
    ]);
    handle_osc_packet(&bundle, &mut queued, &mut replies);
    let mut fields: PathMap<f64> = PathMap::new();
    let applied = drain_field_updates(queued, &mut fields);
    assert_eq!(applied, 2);
    assert_eq!(fields.get("density").copied(), Some(0.75));
    assert_eq!(fields.len(), 1);
    assert_eq!(replies.len(), 2);
}

#[test]
fn nested_bundles_are_handled_depth_first_in_order() {
    let mut queued = Vec::new();
    let mut replies = Vec::new();
    let packet = OscPacketIn::Bundle(vec![
        osc_message("/ping", None),
        OscPacketIn::Bundle(vec![
            osc_message("/field/a", Some(OscArg::Int(1.0))),
            osc_message("/field/b", Some(OscArg::Other)),
        ]),
        osc_message("/field/c", None),
        osc_message("/field/d", Some(OscArg::Float(4.0))),
    ]);
    handle_osc_packet(&packet, &mut queued, &mut replies);
    assert_eq!(queued, vec![("a".to_owned(), 1.0), ("d".to_owned(), 4.0)]);
    assert_eq!(
        replies,
        vec![
            OscReply::Pong,
            OscReply::Ack { field: "a".to_owned(), value: 1.0 },
            OscReply::Error { message: "Unsupported argument type for /field/b".to_owned() },
            OscReply::Error { message: "Missing numeric argument for /field/c".to_owned() },
            OscReply::Ack { field: "d".to_owned(), value: 4.0 },
        ]
    );
}

#[test]
fn osc_updates_become_visible_on_next_drain_step() {
    let mut fields: PathMap<f64> = PathMap::new();
    assert!(!fields.contains_key("position_mod"));
    let applied_block_1 = drain_field_updates(vec![("position_mod".to_owned(), 0.1)], &mut fields);
    assert_eq!(applied_block_1, 1);
    assert_eq!(fields.get("position_mod").copied(), Some(0.1));
    let applied_block_2 = drain_field_updates(vec![("position_mod".to_owned(), 0.9)], &mut fields);
    assert_eq!(applied_block_2, 1);
    assert_eq!(fields.get("position_mod").copied(), Some(0.9));
}

#[test]
fn drain_keeps_untouched_fields_and_order() {
    let mut fields: PathMap<i32> = PathMap::new();
    fields.insert("a".to_owned(), 1);
    fields.insert("b".to_owned(), 2);
    let applied = drain_field_updates(
        vec![("c".to_owned(), 3), ("a".to_owned(), 10), ("c".to_owned(), 30)],
        &mut fields,
    );
    assert_eq!(applied, 3);
    assert_eq!(fields.get("a"), Some(&10));
    assert_eq!(fields.get("b"), Some(&2));
    assert_eq!(fields.get("c"), Some(&30));
    assert_eq!(fields.paths(), vec!["a", "b", "c"]);
    assert_eq!(drain_field_updates(Vec::new(), &mut fields), 0);
}
