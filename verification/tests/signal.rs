use particelle::signal::{
    compile_signal, map_func_from_name, osc_shape_from_name, ExprOp, MapFunc, OscShape,
    SignalExpr, SignalPlan,
};

fn c(v: f64) -> SignalExpr<f64> {
    SignalExpr::Const(v)
}

fn r(s: &str) -> SignalExpr<f64> {
    SignalExpr::Ref(s.to_owned())
}

fn op(name: &str, args: Vec<SignalExpr<f64>>) -> SignalExpr<f64> {
    SignalExpr::Expr(ExprOp { op: name.to_owned(), args })
}

fn message(e: SignalExpr<f64>) -> String {
    compile_signal(&e, &vec![]).unwrap_err().message
}

#[test]
fn leaves_compile() {
    assert!(matches!(compile_signal(&c(2.5), &vec![]), Ok(SignalPlan::Const(v)) if v == 2.5));
    assert!(matches!(compile_signal(&r("$midi.cc.1"), &vec![]), Ok(SignalPlan::Control { field }) if field == "midi.cc.1"));
    assert!(matches!(compile_signal(&r("curves/d.json"), &vec![]), Ok(SignalPlan::Curve { path }) if path == "curves/d.json"));
    assert!(matches!(compile_signal(&r(""), &vec![]), Ok(SignalPlan::Curve { path }) if path.is_empty()));
}

#[test]
fn operators_compile() {
    let plan = compile_signal(&op("add", vec![c(1.0), op("mul", vec![c(2.0), r("$x")])]), &vec![]).unwrap();
    match plan {
        SignalPlan::Sum(a, b) => {
            assert!(matches!(*a, SignalPlan::Const(v) if v == 1.0));
            assert!(matches!(*b, SignalPlan::Mul(_, _)));
        }
        _ => panic!("expected a sum"),
    }
    assert!(matches!(
        compile_signal(&op("clamp", vec![r("$x"), c(0.0), c(3.0)]), &vec![]),
        Ok(SignalPlan::Clamp { min, max, .. }) if min == 0.0 && max == 3.0
    ));
    assert!(matches!(
        compile_signal(&op("map", vec![c(69.0), r("midi_note_to_hz")]), &vec![]),
        Ok(SignalPlan::Apply { func: MapFunc::MidiNoteToHz, .. })
    ));
    assert!(matches!(
        compile_signal(&op("osc", vec![r("SINE"), c(2.0)]), &vec![]),
        Ok(SignalPlan::Oscillator { shape: OscShape::Sine, phase: None, .. })
    ));
    assert!(matches!(
        compile_signal(&op("osc", vec![r("Square"), c(2.0), c(0.25)]), &vec![]),
        Ok(SignalPlan::Oscillator { shape: OscShape::Square, phase: Some(p), .. }) if p == 0.25
    ));
}

#[test]
fn errors_name_the_first_problem() {
    assert_eq!(message(op("sum", vec![c(1.0)])), "'sum' requires exactly 2 arguments");
    assert_eq!(message(op("multiply", vec![])), "'multiply' requires exactly 2 arguments");
    assert_eq!(
        message(op("clamp", vec![c(1.0), c(2.0)])),
        "'clamp' requires exactly 3 arguments: [input, min, max]"
    );
    assert_eq!(message(op("clamp", vec![c(1.0), r("a"), r("b")])), "clamp min must be a constant");
    assert_eq!(message(op("clamp", vec![c(1.0), c(0.0), r("b")])), "clamp max must be a constant");
    assert_eq!(
        message(op("map", vec![c(1.0)])),
        "'map' requires exactly 2 arguments: [input, func_name]"
    );
    assert_eq!(message(op("map", vec![c(1.0), c(2.0)])), "map func_name must be a reference string");
    assert_eq!(
        message(op("osc", vec![r("sine")])),
        "'osc' requires 2 or 3 arguments: [shape, frequency, phase?]"
    );
    assert_eq!(message(op("osc", vec![c(1.0), c(2.0)])), "osc shape must be a string");
    assert_eq!(message(op("osc", vec![r("Wobble"), c(2.0)])), "Unknown osc shape: 'wobble'");
    assert_eq!(
        message(op("osc", vec![r("saw"), c(2.0), r("p")])),
        "osc phase must be a constant number"
    );
    assert_eq!(message(op("pow", vec![c(1.0)])), "Expr operator 'pow' is not supported");
    assert_eq!(
        message(op("sum", vec![op("nope", vec![]), op("sum", vec![])])),
        "Expr operator 'nope' is not supported"
    );
}

#[test]
fn map_function_names() {
    assert_eq!(map_func_from_name("db_to_linear"), MapFunc::DbToLinear);
    assert_eq!(map_func_from_name("linear_to_db"), MapFunc::LinearToDb);
    assert_eq!(map_func_from_name("hz_to_midi_note"), MapFunc::HzToMidiNote);
    assert_eq!(map_func_from_name("abs"), MapFunc::Abs);
    assert_eq!(map_func_from_name("negate"), MapFunc::Negate);
    assert_eq!(map_func_from_name("recip"), MapFunc::Recip);
    assert_eq!(map_func_from_name("Abs"), MapFunc::Custom { name: "Abs".to_owned() });
}

#[test]
fn osc_shape_names() {
    assert_eq!(osc_shape_from_name("Triangle"), Some(OscShape::Triangle));
    assert_eq!(osc_shape_from_name("PHASOR"), Some(OscShape::Phasor));
    assert_eq!(osc_shape_from_name("saw"), Some(OscShape::Saw));
    assert_eq!(osc_shape_from_name("sin"), None);
}

#[test]
fn unreadable_curve_is_reported_where_it_is_met() {
    let failed = vec![("missing.json".to_owned(), "Cannot read curve file 'missing.json'".to_owned())];
    assert_eq!(
        compile_signal(&op("clamp", vec![r("missing.json"), r("$lo"), c(1.0)]), &failed)
            .unwrap_err()
            .message,
        "Cannot read curve file 'missing.json'"
    );
    assert_eq!(
        compile_signal(&op("clamp", vec![r("ok.json"), r("$lo"), c(1.0)]), &failed)
            .unwrap_err()
            .message,
        "clamp min must be a constant"
    );
    assert_eq!(
        compile_signal(&op("sum", vec![c(1.0), r("missing.json")]), &failed).unwrap_err().message,
        "Cannot read curve file 'missing.json'"
    );
    assert!(matches!(
        compile_signal(&r("ok.json"), &failed),
        Ok(SignalPlan::Curve { path }) if path == "ok.json"
    ));
}
