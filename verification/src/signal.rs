//! Parameter signal expressions: the declarative form written in a patch,
//! and its compilation into a signal plan. `N` is the numeric type of
//! constants.
//!
//! A plan is the parameter signal graph with curve files named by path; the
//! host loads each curve file when it builds the engine.

use vstd::prelude::*;
use vstd::string::*;

verus! {

/// Programmatic low frequency oscillator shapes.
#[derive(Debug, Clone, Copy, PartialEq, Eq, Structural)]
pub enum OscShape {
    Sine,
    Triangle,
    Saw,
    Square,
    Phasor,
}

/// Named value transformation functions applied as `Map` nodes.
#[derive(Debug, Clone, PartialEq, Eq)]
pub enum MapFunc {
    DbToLinear,
    LinearToDb,
    /// MIDI note number to Hz (equal temperament; tuning overrides in engine).
    MidiNoteToHz,
    HzToMidiNote,
    Abs,
    Negate,
    Recip,
    /// Custom named transformer; implementation resolved at engine setup.
    Custom { name: String },
}

/// A map function with its custom name as characters.
pub enum MapFuncView {
    DbToLinear,
    LinearToDb,
    MidiNoteToHz,
    HzToMidiNote,
    Abs,
    Negate,
    Recip,
    Custom(Seq<char>),
}

impl MapFunc {
    pub open spec fn view(&self) -> MapFuncView {
        match self {
            MapFunc::DbToLinear => MapFuncView::DbToLinear,
            MapFunc::LinearToDb => MapFuncView::LinearToDb,
            MapFunc::MidiNoteToHz => MapFuncView::MidiNoteToHz,
            MapFunc::HzToMidiNote => MapFuncView::HzToMidiNote,
            MapFunc::Abs => MapFuncView::Abs,
            MapFunc::Negate => MapFuncView::Negate,
            MapFunc::Recip => MapFuncView::Recip,
            MapFunc::Custom { name } => MapFuncView::Custom(name@),
        }
    }
}

/// The map function a patch names.
pub open spec fn map_func_named(name: Seq<char>) -> MapFuncView {
    if name == "db_to_linear"@ {
        MapFuncView::DbToLinear
    } else if name == "linear_to_db"@ {
        MapFuncView::LinearToDb
    } else if name == "midi_note_to_hz"@ {
        MapFuncView::MidiNoteToHz
    } else if name == "hz_to_midi_note"@ {
        MapFuncView::HzToMidiNote
    } else if name == "abs"@ {
        MapFuncView::Abs
    } else if name == "negate"@ {
        MapFuncView::Negate
    } else if name == "recip"@ {
        MapFuncView::Recip
    } else {
        MapFuncView::Custom(name)
    }
}

/// The oscillator shape a lowercase name denotes.
pub open spec fn osc_shape_named(name: Seq<char>) -> Option<OscShape> {
    if name == "sine"@ {
        Some(OscShape::Sine)
    } else if name == "triangle"@ {
        Some(OscShape::Triangle)
    } else if name == "saw"@ {
        Some(OscShape::Saw)
    } else if name == "square"@ {
        Some(OscShape::Square)
    } else if name == "phasor"@ {
        Some(OscShape::Phasor)
    } else {
        None
    }
}

/// Whether the text of `s` is the literal `lit`.
fn text_is(s: &str, lit: &str) -> (b: bool)
    ensures
        b == (s@ == lit@),
{
    s.to_owned() == lit.to_owned()
}

/// The map function that a patch names with `name`.
pub fn map_func_from_name(name: &str) -> (f: MapFunc)
    ensures
        f.view() == map_func_named(name@),
{
    if text_is(name, "db_to_linear") {
        MapFunc::DbToLinear
    } else if text_is(name, "linear_to_db") {
        MapFunc::LinearToDb
    } else if text_is(name, "midi_note_to_hz") {
        MapFunc::MidiNoteToHz
    } else if text_is(name, "hz_to_midi_note") {
        MapFunc::HzToMidiNote
    } else if text_is(name, "abs") {
        MapFunc::Abs
    } else if text_is(name, "negate") {
        MapFunc::Negate
    } else if text_is(name, "recip") {
        MapFunc::Recip
    } else {
        MapFunc::Custom { name: name.to_owned() }
    }
}

/// The oscillator shape that the lowercase name `name` denotes.
pub fn osc_shape_from_lowercase(name: &str) -> (shape: Option<OscShape>)
    ensures
        shape == osc_shape_named(name@),
{
    if text_is(name, "sine") {
        Some(OscShape::Sine)
    } else if text_is(name, "triangle") {
        Some(OscShape::Triangle)
    } else if text_is(name, "saw") {
        Some(OscShape::Saw)
    } else if text_is(name, "square") {
        Some(OscShape::Square)
    } else if text_is(name, "phasor") {
        Some(OscShape::Phasor)
    } else {
        None
    }
}

/// The Unicode lowercase form of a text, as `str::to_lowercase` returns it.
pub uninterp spec fn lowercase_of(s: Seq<char>) -> Seq<char>;

/// Calls `str::to_lowercase`: the result is the named lowercase form of the
/// argument. Nothing more of the Unicode case mapping is stated.
#[verifier::external_body]
fn to_lowercase(s: &str) -> (r: String)
    ensures
        r@ == lowercase_of(s@),
{
    s.to_lowercase()
}

/// The oscillator shape named by `name`, whatever its letter case.
pub fn osc_shape_from_name(name: &str) -> (shape: Option<OscShape>)
    ensures
        shape == osc_shape_named(lowercase_of(name@)),
{
    let lower = to_lowercase(name);
    osc_shape_from_lowercase(lower.as_str())
}

/// A signal expression as a patch declares it.
#[derive(Debug)]
pub enum SignalExpr<N> {
    /// A constant.
    Const(N),
    /// `$name` names a control field; any other text is a curve file path.
    Ref(String),
    /// An operator applied to argument expressions.
    Expr(ExprOp<N>),
}

/// An operator and its arguments.
#[derive(Debug)]
pub struct ExprOp<N> {
    pub op: String,
    pub args: Vec<SignalExpr<N>>,
}

/// A compiled parameter signal graph. Curves are named by file path.
#[derive(Debug)]
pub enum SignalPlan<N> {
    /// A constant scalar value.
    Const(N),
    /// A named field from the runtime control context (MIDI, MPE, etc.).
    Control { field: String },
    /// The curve stored in a JSON curve file.
    Curve { path: String },
    /// Sum of two signals.
    Sum(Box<SignalPlan<N>>, Box<SignalPlan<N>>),
    /// Product of two signals.
    Mul(Box<SignalPlan<N>>, Box<SignalPlan<N>>),
    /// A signal clamped to [min, max].
    Clamp { input: Box<SignalPlan<N>>, min: N, max: N },
    /// A named transformation applied to a signal.
    Apply { input: Box<SignalPlan<N>>, func: MapFunc },
    /// A low frequency oscillator; without a phase it starts at phase zero.
    Oscillator { shape: OscShape, freq: Box<SignalPlan<N>>, phase: Option<N> },
}

/// A signal plan with its texts as characters.
pub enum PlanView<N> {
    Const(N),
    Control(Seq<char>),
    Curve(Seq<char>),
    Sum(Box<PlanView<N>>, Box<PlanView<N>>),
    Mul(Box<PlanView<N>>, Box<PlanView<N>>),
    Clamp(Box<PlanView<N>>, N, N),
    Apply(Box<PlanView<N>>, MapFuncView),
    Oscillator(OscShape, Box<PlanView<N>>, Option<N>),
}

impl<N> SignalPlan<N> {
    pub open spec fn view(&self) -> PlanView<N>
        decreases self,
    {
        match self {
            SignalPlan::Const(v) => PlanView::Const(*v),
            SignalPlan::Control { field } => PlanView::Control(field@),
            SignalPlan::Curve { path } => PlanView::Curve(path@),
            SignalPlan::Sum(a, b) => PlanView::Sum(Box::new(a.view()), Box::new(b.view())),
            SignalPlan::Mul(a, b) => PlanView::Mul(Box::new(a.view()), Box::new(b.view())),
            SignalPlan::Clamp { input, min, max } => PlanView::Clamp(
                Box::new(input.view()),
                *min,
                *max,
            ),
            SignalPlan::Apply { input, func } => PlanView::Apply(Box::new(input.view()), func.view()),
            SignalPlan::Oscillator { shape, freq, phase } => PlanView::Oscillator(
                *shape,
                Box::new(freq.view()),
                *phase,
            ),
        }
    }
}

/// The reason an expression does not compile.
#[derive(Debug, Clone, PartialEq, Eq)]
pub struct SignalCompileError {
    pub message: String,
}

pub open spec fn arity_two_message(op: Seq<char>) -> Seq<char> {
    "'"@ + op + "' requires exactly 2 arguments"@
}

pub open spec fn unknown_shape_message(shape: Seq<char>) -> Seq<char> {
    "Unknown osc shape: '"@ + shape + "'"@
}

pub open spec fn unsupported_op_message(op: Seq<char>) -> Seq<char> {
    "Expr operator '"@ + op + "' is not supported"@
}

/// What a reference compiles to: `$name` is the control field `name`, any
/// other text a curve file path.
pub open spec fn ref_plan<N>(r: Seq<char>) -> PlanView<N> {
    if r.len() > 0 && r[0] == '$' {
        PlanView::Control(r.drop_first())
    } else {
        PlanView::Curve(r)
    }
}

/// The report for the curve file `path` among the curves that could not be
/// loaded (path and report pairs; the first pair for a path counts).
pub open spec fn curve_failure(failed: Seq<(String, String)>, path: Seq<char>) -> Option<Seq<char>>
    decreases failed.len(),
{
    if failed.len() == 0 {
        None
    } else if failed[0].0@ == path {
        Some(failed[0].1@)
    } else {
        curve_failure(failed.drop_first(), path)
    }
}

/// What a reference compiles to, given the curve files that could not be
/// loaded: a curve that could not be loaded is reported.
pub open spec fn ref_result<N>(r: Seq<char>, failed: Seq<(String, String)>) -> Result<PlanView<N>, Seq<char>> {
    match ref_plan::<N>(r) {
        PlanView::Curve(path) => match curve_failure(failed, path) {
            Some(m) => Err(m),
            None => Ok(PlanView::Curve(path)),
        },
        p => Ok(p),
    }
}

/// The compilation of a signal expression: its plan, or the message of the
/// first error met when arguments are checked and compiled left to right.
/// Curve files are loaded as they are met; `failed` holds those that could
/// not be loaded, with their reports.
pub open spec fn compile_spec<N>(e: SignalExpr<N>, failed: Seq<(String, String)>) -> Result<PlanView<N>, Seq<char>>
    decreases e,
{
    match e {
        SignalExpr::Const(v) => Ok(PlanView::Const(v)),
        SignalExpr::Ref(r) => ref_result(r@, failed),
        SignalExpr::Expr(x) => {
            let op = x.op@;
            let args = x.args@;
            if op == "sum"@ || op == "add"@ || op == "mul"@ || op == "multiply"@ {
                if args.len() != 2 {
                    Err(arity_two_message(op))
                } else {
                    match compile_spec(args[0], failed) {
                        Err(m) => Err(m),
                        Ok(a) => match compile_spec(args[1], failed) {
                            Err(m) => Err(m),
                            Ok(b) => if op == "sum"@ || op == "add"@ {
                                Ok(PlanView::Sum(Box::new(a), Box::new(b)))
                            } else {
                                Ok(PlanView::Mul(Box::new(a), Box::new(b)))
                            },
                        },
                    }
                }
            } else if op == "clamp"@ {
                if args.len() != 3 {
                    Err("'clamp' requires exactly 3 arguments: [input, min, max]"@)
                } else {
                    match compile_spec(args[0], failed) {
                        Err(m) => Err(m),
                        Ok(a) => match (args[1], args[2]) {
                            (SignalExpr::Const(lo), SignalExpr::Const(hi)) => Ok(
                                PlanView::Clamp(Box::new(a), lo, hi),
                            ),
                            (SignalExpr::Const(_), _) => Err("clamp max must be a constant"@),
                            _ => Err("clamp min must be a constant"@),
                        },
                    }
                }
            } else if op == "map"@ {
                if args.len() != 2 {
                    Err("'map' requires exactly 2 arguments: [input, func_name]"@)
                } else {
                    match compile_spec(args[0], failed) {
                        Err(m) => Err(m),
                        Ok(a) => match args[1] {
                            SignalExpr::Ref(f) => Ok(PlanView::Apply(Box::new(a), map_func_named(f@))),
                            _ => Err("map func_name must be a reference string"@),
                        },
                    }
                }
            } else if op == "osc"@ {
                if args.len() < 2 || args.len() > 3 {
                    Err("'osc' requires 2 or 3 arguments: [shape, frequency, phase?]"@)
                } else {
                    match args[0] {
                        SignalExpr::Ref(s) => {
                            let lower = lowercase_of(s@);
                            match osc_shape_named(lower) {
                                None => Err(unknown_shape_message(lower)),
                                Some(shape) => match compile_spec(args[1], failed) {
                                    Err(m) => Err(m),
                                    Ok(f) => if args.len() == 3 {
                                        match args[2] {
                                            SignalExpr::Const(p) => Ok(
                                                PlanView::Oscillator(shape, Box::new(f), Some(p)),
                                            ),
                                            _ => Err("osc phase must be a constant number"@),
                                        }
                                    } else {
                                        Ok(PlanView::Oscillator(shape, Box::new(f), None))
                                    },
                                },
                            }
                        },
                        _ => Err("osc shape must be a string"@),
                    }
                }
            } else {
                Err(unsupported_op_message(op))
            }
        },
    }
}

/// The compilation result of an expression: its plan or its error, as the
/// specification describes them.
pub open spec fn compiled_as<N>(
    e: SignalExpr<N>,
    failed: Seq<(String, String)>,
    r: Result<SignalPlan<N>, SignalCompileError>,
) -> bool {
    match r {
        Ok(p) => compile_spec(e, failed) == Ok::<PlanView<N>, Seq<char>>(p.view()),
        Err(err) => compile_spec(e, failed) == Err::<PlanView<N>, Seq<char>>(err.message@),
    }
}

/// The report for the curve file `path` among the curves that could not be
/// loaded, if it is among them.
fn find_curve_failure(failed: &Vec<(String, String)>, path: &str) -> (m: Option<String>)
    ensures
        match curve_failure(failed@, path@) {
            Some(t) => m matches Some(s) && s@ == t,
            None => m is None,
        },
{
    let mut i: usize = 0;
    assert(failed@.skip(0) =~= failed@);
    while i < failed.len()
        invariant
            i <= failed@.len(),
            curve_failure(failed@, path@) == curve_failure(failed@.skip(i as int), path@),
        decreases failed@.len() - i,
    {
        assert(failed@.skip(i as int).drop_first() =~= failed@.skip(i + 1));
        assert(failed@.skip(i as int)[0] == failed@[i as int]);
        if text_is(failed[i].0.as_str(), path) {
            return Some(failed[i].1.clone());
        }
        i = i + 1;
    }
    assert(failed@.skip(i as int).len() == 0);
    None
}

fn failed_with<N>(text: &str) -> (r: Result<SignalPlan<N>, SignalCompileError>)
    ensures
        r matches Err(e) && e.message@ == text@,
{
    Err(SignalCompileError { message: text.to_owned() })
}

/// Compile a signal expression into a signal plan.
///
/// `sum`/`add` and `mul`/`multiply` take two argument expressions; `clamp`
/// takes an expression and two constants; `map` an expression and a map
/// function name; `osc` a shape name (any letter case), a frequency
/// expression and an optional constant phase. A reference that is not a
/// control field names a curve file; `failed` lists the curve files that
/// could not be loaded, each with its report, which is the error when the
/// reference is met.
pub fn compile_signal<N: Copy>(expr: &SignalExpr<N>, failed: &Vec<(String, String)>) -> (r: Result<
    SignalPlan<N>,
    SignalCompileError,
>)
    ensures
        compiled_as(*expr, failed@, r),
    decreases expr,
{
    match expr {
        SignalExpr::Const(v) => Ok(SignalPlan::Const(*v)),
        SignalExpr::Ref(r) => {
            let n = r.unicode_len();
            if n > 0 && r.as_str().get_char(0) == '$' {
                let field = r.as_str().substring_char(1, n).to_owned();
                assert(field@ =~= r@.drop_first());
                Ok(SignalPlan::Control { field })
            } else {
                match find_curve_failure(failed, r.as_str()) {
                    Some(message) => Err(SignalCompileError { message }),
                    None => Ok(SignalPlan::Curve { path: r.clone() }),
                }
            }
        },
        SignalExpr::Expr(x) => {
            let op = x.op.as_str();
            let args = &x.args;
            let is_sum = text_is(op, "sum") || text_is(op, "add");
            let is_mul = text_is(op, "mul") || text_is(op, "multiply");
            if is_sum || is_mul {
                if args.len() != 2 {
                    let mut message = "'".to_owned();
                    message.append(op);
                    message.append("' requires exactly 2 arguments");
                    return Err(SignalCompileError { message });
                }
                assert(decreases_to!(*expr => args@[0]));
                let a = match compile_signal(&args[0], failed) {
                    Ok(a) => a,
                    Err(e) => return Err(e),
                };
                assert(decreases_to!(*expr => args@[1]));
                let b = match compile_signal(&args[1], failed) {
                    Ok(b) => b,
                    Err(e) => return Err(e),
                };
                if is_sum {
                    Ok(SignalPlan::Sum(Box::new(a), Box::new(b)))
                } else {
                    Ok(SignalPlan::Mul(Box::new(a), Box::new(b)))
                }
            } else if text_is(op, "clamp") {
                if args.len() != 3 {
                    return failed_with("'clamp' requires exactly 3 arguments: [input, min, max]");
                }
                assert(decreases_to!(*expr => args@[0]));
                let a = match compile_signal(&args[0], failed) {
                    Ok(a) => a,
                    Err(e) => return Err(e),
                };
                let lo = match &args[1] {
                    SignalExpr::Const(v) => *v,
                    _ => return failed_with("clamp min must be a constant"),
                };
                let hi = match &args[2] {
                    SignalExpr::Const(v) => *v,
                    _ => return failed_with("clamp max must be a constant"),
                };
                Ok(SignalPlan::Clamp { input: Box::new(a), min: lo, max: hi })
            } else if text_is(op, "map") {
                if args.len() != 2 {
                    return failed_with("'map' requires exactly 2 arguments: [input, func_name]");
                }
                assert(decreases_to!(*expr => args@[0]));
                let a = match compile_signal(&args[0], failed) {
                    Ok(a) => a,
                    Err(e) => return Err(e),
                };
                match &args[1] {
                    SignalExpr::Ref(f) => Ok(
                        SignalPlan::Apply { input: Box::new(a), func: map_func_from_name(f.as_str()) },
                    ),
                    _ => failed_with("map func_name must be a reference string"),
                }
            } else if text_is(op, "osc") {
                if args.len() < 2 || args.len() > 3 {
                    return failed_with(
                        "'osc' requires 2 or 3 arguments: [shape, frequency, phase?]",
                    );
                }
                let shape_text = match &args[0] {
                    SignalExpr::Ref(s) => s,
                    _ => return failed_with("osc shape must be a string"),
                };
                let lower = to_lowercase(shape_text.as_str());
                let shape = match osc_shape_from_lowercase(lower.as_str()) {
                    Some(shape) => shape,
                    None => {
                        let mut message = "Unknown osc shape: '".to_owned();
                        message.append(lower.as_str());
                        message.append("'");
                        return Err(SignalCompileError { message });
                    },
                };
                assert(decreases_to!(*expr => args@[1]));
                let f = match compile_signal(&args[1], failed) {
                    Ok(f) => f,
                    Err(e) => return Err(e),
                };
                let phase = if args.len() == 3 {
                    match &args[2] {
                        SignalExpr::Const(p) => Some(*p),
                        _ => return failed_with("osc phase must be a constant number"),
                    }
                } else {
                    None
                };
                Ok(SignalPlan::Oscillator { shape, freq: Box::new(f), phase })
            } else {
                let mut message = "Expr operator '".to_owned();
                message.append(op);
                message.append("' is not supported");
                Err(SignalCompileError { message })
            }
        },
    }
}


// ---------------------------------------------------------------------------
// What compilation does, operator by operator.
// ---------------------------------------------------------------------------

/// The operator names are pairwise different.
proof fn lemma_operator_names()
    ensures
        "sum"@ != "add"@, "sum"@ != "mul"@, "sum"@ != "multiply"@, "sum"@ != "clamp"@,
        "sum"@ != "map"@, "sum"@ != "osc"@, "add"@ != "mul"@, "add"@ != "multiply"@,
        "add"@ != "clamp"@, "add"@ != "map"@, "add"@ != "osc"@, "mul"@ != "multiply"@,
        "mul"@ != "clamp"@, "mul"@ != "map"@, "mul"@ != "osc"@, "multiply"@ != "clamp"@,
        "multiply"@ != "map"@, "multiply"@ != "osc"@, "clamp"@ != "map"@, "clamp"@ != "osc"@,
        "map"@ != "osc"@,
{
    reveal_strlit("sum");
    reveal_strlit("add");
    reveal_strlit("mul");
    reveal_strlit("multiply");
    reveal_strlit("clamp");
    reveal_strlit("map");
    reveal_strlit("osc");
    assert("sum"@[0] != "add"@[0]);
    assert("sum"@[0] != "mul"@[0]);
    assert("sum"@[0] != "map"@[0]);
    assert("sum"@[0] != "osc"@[0]);
    assert("add"@[0] != "mul"@[0]);
    assert("add"@[0] != "map"@[0]);
    assert("add"@[0] != "osc"@[0]);
    assert("mul"@[1] != "map"@[1]);
    assert("mul"@[0] != "osc"@[0]);
    assert("map"@[0] != "osc"@[0]);
    assert("mul"@.len() != "multiply"@.len());
    assert("multiply"@.len() != "clamp"@.len());
}

/// A reference compiles to a control field when it starts with `$` (the name
/// after the `$`), and otherwise to the curve file it names, unless that file
/// is among those that could not be loaded, whose report is the error.
pub proof fn law_references<N>(r: String, failed: Seq<(String, String)>)
    ensures
        r@.len() > 0 && r@[0] == '$' ==> compile_spec(SignalExpr::<N>::Ref(r), failed) == Ok::<
            PlanView<N>,
            Seq<char>,
        >(PlanView::Control(r@.subrange(1, r@.len() as int))),
        !(r@.len() > 0 && r@[0] == '$') && curve_failure(failed, r@) is None ==> compile_spec(
            SignalExpr::<N>::Ref(r),
            failed,
        ) == Ok::<PlanView<N>, Seq<char>>(PlanView::Curve(r@)),
        !(r@.len() > 0 && r@[0] == '$') && curve_failure(failed, r@) is Some ==> compile_spec(
            SignalExpr::<N>::Ref(r),
            failed,
        ) == Err::<PlanView<N>, Seq<char>>(curve_failure(failed, r@)->0),
{
    assert(r@.drop_first() =~= r@.subrange(1, r@.len() as int));
}

/// The two-operand operators: `sum` and `add` give `Sum`, `mul` and
/// `multiply` give `Mul`, of the first argument's plan and then the second
/// argument's plan. When an argument does not compile, the first failing
/// argument's error is the result.
pub proof fn law_binary_operators<N>(x: ExprOp<N>, failed: Seq<(String, String)>)
    requires
        x.args@.len() == 2,
    ensures
        ({
            let r = compile_spec(SignalExpr::Expr(x), failed);
            let first = compile_spec(x.args@[0], failed);
            let second = compile_spec(x.args@[1], failed);
            &&& (x.op@ == "sum"@ || x.op@ == "add"@) && first is Ok && second is Ok ==> r == Ok::<
                PlanView<N>,
                Seq<char>,
            >(PlanView::Sum(Box::new(first->Ok_0), Box::new(second->Ok_0)))
            &&& (x.op@ == "mul"@ || x.op@ == "multiply"@) && first is Ok && second is Ok ==> r
                == Ok::<PlanView<N>, Seq<char>>(
                PlanView::Mul(Box::new(first->Ok_0), Box::new(second->Ok_0)),
            )
            &&& (x.op@ == "sum"@ || x.op@ == "add"@ || x.op@ == "mul"@ || x.op@ == "multiply"@)
                && first is Err ==> r == first
            &&& (x.op@ == "sum"@ || x.op@ == "add"@ || x.op@ == "mul"@ || x.op@ == "multiply"@)
                && first is Ok && second is Err ==> r == second
        }),
{
    lemma_operator_names();
}

/// Two-operand operators take exactly two arguments.
pub proof fn law_binary_arity<N>(x: ExprOp<N>, failed: Seq<(String, String)>)
    requires
        x.args@.len() != 2,
        x.op@ == "sum"@ || x.op@ == "add"@ || x.op@ == "mul"@ || x.op@ == "multiply"@,
    ensures
        compile_spec(SignalExpr::Expr(x), failed) == Err::<PlanView<N>, Seq<char>>(
            "'"@ + x.op@ + "' requires exactly 2 arguments"@,
        ),
{
}

/// `clamp` compiles to the clamp of its first argument's plan between the
/// constants given as its second and third arguments, and to nothing else:
/// with three arguments whose first compiles, it succeeds exactly when the
/// bounds are constants.
pub proof fn law_clamp<N>(x: ExprOp<N>, failed: Seq<(String, String)>)
    requires
        x.op@ == "clamp"@,
    ensures
        ({
            let r = compile_spec(SignalExpr::Expr(x), failed);
            &&& r is Ok ==> x.args@.len() == 3 && compile_spec(x.args@[0], failed) is Ok && (
            x.args@[1] is Const) && (x.args@[2] is Const) && r->Ok_0 == PlanView::Clamp(
                Box::new(compile_spec(x.args@[0], failed)->Ok_0),
                x.args@[1]->Const_0,
                x.args@[2]->Const_0,
            )
            &&& x.args@.len() == 3 && compile_spec(x.args@[0], failed) is Ok && (
            x.args@[1] is Const) && (x.args@[2] is Const) ==> r is Ok
            &&& x.args@.len() == 3 && compile_spec(x.args@[0], failed) is Err ==> r
                == compile_spec(x.args@[0], failed)
            &&& x.args@.len() == 3 && compile_spec(x.args@[0], failed) is Ok && !(
            x.args@[1] is Const) ==> r == Err::<PlanView<N>, Seq<char>>(
                "clamp min must be a constant"@,
            )
            &&& x.args@.len() == 3 && compile_spec(x.args@[0], failed) is Ok && (
            x.args@[1] is Const) && !(x.args@[2] is Const) ==> r == Err::<PlanView<N>, Seq<char>>(
                "clamp max must be a constant"@,
            )
        }),
{
    lemma_operator_names();
}

/// `map` applies the map function named by its second argument to its first
/// argument's plan.
pub proof fn law_map<N>(x: ExprOp<N>, failed: Seq<(String, String)>)
    requires
        x.op@ == "map"@,
    ensures
        ({
            let r = compile_spec(SignalExpr::Expr(x), failed);
            &&& r is Ok ==> x.args@.len() == 2 && compile_spec(x.args@[0], failed) is Ok && (
            x.args@[1] is Ref) && r->Ok_0 == PlanView::Apply(
                Box::new(compile_spec(x.args@[0], failed)->Ok_0),
                map_func_named((x.args@[1]->Ref_0)@),
            )
            &&& x.args@.len() == 2 && compile_spec(x.args@[0], failed) is Ok && (
            x.args@[1] is Ref) ==> r is Ok
            &&& x.args@.len() == 2 && compile_spec(x.args@[0], failed) is Err ==> r
                == compile_spec(x.args@[0], failed)
        }),
{
    lemma_operator_names();
}

/// `osc` is an oscillator of the shape its first argument names (in any
/// letter case), at the frequency given by its second argument's plan, with
/// the constant phase of its third argument when there is one.
pub proof fn law_osc<N>(x: ExprOp<N>, failed: Seq<(String, String)>)
    requires
        x.op@ == "osc"@,
    ensures
        ({
            let r = compile_spec(SignalExpr::Expr(x), failed);
            &&& r is Ok ==> 2 <= x.args@.len() <= 3 && (x.args@[0] is Ref) && osc_shape_named(
                lowercase_of((x.args@[0]->Ref_0)@),
            ) is Some && compile_spec(x.args@[1], failed) is Ok && r->Ok_0 == PlanView::Oscillator(
                osc_shape_named(lowercase_of((x.args@[0]->Ref_0)@))->0,
                Box::new(compile_spec(x.args@[1], failed)->Ok_0),
                if x.args@.len() == 3 {
                    Some(x.args@[2]->Const_0)
                } else {
                    None
                },
            ) && (x.args@.len() == 3 ==> x.args@[2] is Const)
            &&& 2 <= x.args@.len() <= 3 && (x.args@[0] is Ref) && osc_shape_named(
                lowercase_of((x.args@[0]->Ref_0)@),
            ) is Some && compile_spec(x.args@[1], failed) is Ok && (x.args@.len() == 3
                ==> x.args@[2] is Const) ==> r is Ok
        }),
{
    lemma_operator_names();
}

/// Any other operator is reported as unsupported.
pub proof fn law_unknown_operator<N>(x: ExprOp<N>, failed: Seq<(String, String)>)
    requires
        x.op@ != "sum"@,
        x.op@ != "add"@,
        x.op@ != "mul"@,
        x.op@ != "multiply"@,
        x.op@ != "clamp"@,
        x.op@ != "map"@,
        x.op@ != "osc"@,
    ensures
        compile_spec(SignalExpr::Expr(x), failed) == Err::<PlanView<N>, Seq<char>>(
            "Expr operator '"@ + x.op@ + "' is not supported"@,
        ),
{
}

} // verus!
