//! Stack-formula expressions. A formula is compiled into a post-order list
//! of operations (numbers, variables, operators, function calls) in the
//! exact order a left-to-right evaluation performs them, together with the
//! syntax error that stops compilation, if any. Evaluating the operations
//! (in floating point) is left to the caller.
//!
//! Grammar (white space is ASCII space, tab, line feed, form feed, carriage return):
//! `expr := mul (('+'|'-') mul)*`, `mul := pow (('*'|'/'|'%') pow)*`,
//! `pow := unary ('^' unary)?`, `unary := ('+'|'-') unary | primary`,
//! `primary := number | '(' expr ')' | ident '(' args? ')' | ident`.
//! Variables: t, f (frame), s (start), x, y, r, g, b, a, pi, tau, e.
//! Functions: sin cos tan abs sqrt floor ceil (1 argument), pow min max mod (2).

use vstd::prelude::*;
use vstd::string::StrSliceExecFns;
use crate::text::{
    char_slice, chars_vec, concat2, decimal, owned, str_eq, string_push, trim_str, trimmed,
    usize_to_decimal,
};

verus! {

/// Error of a formula, as shown to the user.
#[derive(Debug, Clone, PartialEq, Eq)]
pub struct ExprError(pub String);

#[derive(Debug, Clone, Copy, PartialEq, Eq, Structural)]
pub enum ExprVar {
    T,
    F,
    S,
    X,
    Y,
    R,
    G,
    B,
    A,
    Pi,
    Tau,
    E,
}

#[derive(Debug, Clone, Copy, PartialEq, Eq, Structural)]
pub enum ExprFn {
    Sin,
    Cos,
    Tan,
    Abs,
    Sqrt,
    Floor,
    Ceil,
    Pow,
    Min,
    Max,
    Mod,
}

/// One step of a compiled formula.
#[derive(Debug, Clone, PartialEq, Eq)]
pub enum ExprOp {
    /// A number literal (its text; it is a valid `f64` literal).
    Num(String),
    Var(ExprVar),
    Neg,
    Add,
    Sub,
    Mul,
    Div,
    /// Euclidean remainder.
    Rem,
    Pow,
    /// Call with as many arguments as the function takes.
    Call(ExprFn),
}

pub ghost enum OpView {
    Num(Seq<char>),
    Var(ExprVar),
    Neg,
    Add,
    Sub,
    Mul,
    Div,
    Rem,
    Pow,
    Call(ExprFn),
}

impl View for ExprOp {
    type V = OpView;

    open spec fn view(&self) -> OpView {
        match self {
            ExprOp::Num(t) => OpView::Num(t@),
            ExprOp::Var(v) => OpView::Var(*v),
            ExprOp::Neg => OpView::Neg,
            ExprOp::Add => OpView::Add,
            ExprOp::Sub => OpView::Sub,
            ExprOp::Mul => OpView::Mul,
            ExprOp::Div => OpView::Div,
            ExprOp::Rem => OpView::Rem,
            ExprOp::Pow => OpView::Pow,
            ExprOp::Call(f) => OpView::Call(*f),
        }
    }
}

pub open spec fn ops_view(s: Seq<ExprOp>) -> Seq<OpView> {
    s.map_values(|o: ExprOp| o@)
}

/// Outcome of parsing one grammar rule from a position: the operations it
/// emitted and where it stopped, or the operations emitted before a syntax
/// error and the error text.
pub ghost enum Step {
    Done { ops: Seq<OpView>, pos: int },
    Fail { ops: Seq<OpView>, msg: Seq<char> },
    OutOfFuel,
}

/// Outcome of parsing a function's argument list (with the argument count).
pub ghost enum ArgsStep {
    Done { ops: Seq<OpView>, pos: int, count: nat },
    Fail { ops: Seq<OpView>, msg: Seq<char> },
    OutOfFuel,
}

pub open spec fn prepend(pre: Seq<OpView>, st: Step) -> Step {
    match st {
        Step::Done { ops, pos } => Step::Done { ops: pre + ops, pos },
        Step::Fail { ops, msg } => Step::Fail { ops: pre + ops, msg },
        Step::OutOfFuel => Step::OutOfFuel,
    }
}

pub open spec fn is_ascii_ws(c: char) -> bool {
    c == ' ' || c == '\t' || c == '\n' || (c as u32) == 12 || c == '\r'
}

pub open spec fn is_digit(c: char) -> bool {
    '0' <= c && c <= '9'
}

pub open spec fn is_alpha(c: char) -> bool {
    ('a' <= c && c <= 'z') || ('A' <= c && c <= 'Z')
}

pub open spec fn is_ident_start(c: char) -> bool {
    is_alpha(c) || c == '_'
}

pub open spec fn is_ident_char(c: char) -> bool {
    is_alpha(c) || is_digit(c) || c == '_'
}

pub open spec fn is_num_char(c: char) -> bool {
    is_digit(c) || c == '.'
}

/// `s[q] == c`, with `q` in range.
pub open spec fn at(s: Seq<char>, q: int, c: char) -> bool {
    0 <= q < s.len() && s[q] == c
}

/// Position after the white space starting at `pos`.
pub open spec fn ws(s: Seq<char>, pos: int) -> int
    decreases s.len() - pos,
{
    if 0 <= pos < s.len() && is_ascii_ws(s[pos]) {
        ws(s, pos + 1)
    } else {
        pos
    }
}

/// End of the run of characters satisfying `p` that starts at `pos`.
pub open spec fn run_end(s: Seq<char>, pos: int, p: spec_fn(char) -> bool) -> int
    decreases s.len() - pos,
{
    if 0 <= pos < s.len() && p(s[pos]) {
        run_end(s, pos + 1, p)
    } else {
        pos
    }
}

pub open spec fn digit_pred() -> spec_fn(char) -> bool {
    |c: char| is_digit(c)
}

pub open spec fn num_pred() -> spec_fn(char) -> bool {
    |c: char| is_num_char(c)
}

pub open spec fn ident_pred() -> spec_fn(char) -> bool {
    |c: char| is_ident_char(c)
}

pub open spec fn dot_count(m: Seq<char>) -> nat
    decreases m.len(),
{
    if m.len() == 0 {
        0
    } else {
        dot_count(m.drop_last()) + if m.last() == '.' { 1nat } else { 0nat }
    }
}

/// A run of digits and dots is a valid `f64` mantissa (`Digit+`,
/// `Digit+ '.' Digit*` or `Digit* '.' Digit+`): at most one dot and at
/// least one digit.
pub open spec fn valid_mantissa(m: Seq<char>) -> bool {
    dot_count(m) <= 1 && m.len() > dot_count(m)
}

/// End of the mantissa of a number token at `pos`.
pub open spec fn mant_end(s: Seq<char>, pos: int) -> int {
    run_end(s, pos, num_pred())
}

pub open spec fn has_exp(s: Seq<char>, pos: int) -> bool {
    at(s, mant_end(s, pos), 'e') || at(s, mant_end(s, pos), 'E')
}

/// Start of the exponent digits (after `e` and an optional sign).
pub open spec fn exp_digits_start(s: Seq<char>, pos: int) -> int {
    let e = mant_end(s, pos) + 1;
    if at(s, e, '+') || at(s, e, '-') {
        e + 1
    } else {
        e
    }
}

/// End of a number token at `pos`.
pub open spec fn number_end(s: Seq<char>, pos: int) -> int {
    if has_exp(s, pos) {
        run_end(s, exp_digits_start(s, pos), digit_pred())
    } else {
        mant_end(s, pos)
    }
}

/// A number token: valid when its mantissa is, and its exponent (if any)
/// has a digit.
pub open spec fn sp_number(s: Seq<char>, pos: int) -> Step {
    let e = number_end(s, pos);
    let text = s.subrange(pos, e);
    if valid_mantissa(s.subrange(pos, mant_end(s, pos))) && (!has_exp(s, pos) || e
        > exp_digits_start(s, pos)) {
        Step::Done { ops: seq![OpView::Num(text)], pos: e }
    } else {
        Step::Fail { ops: seq![], msg: "invalid number '"@ + text + "'"@ }
    }
}

pub open spec fn ascii_lower(c: char) -> char {
    if 'A' <= c && c <= 'Z' {
        (((c as u32) + 32) as u8) as char
    } else {
        c
    }
}

pub open spec fn lower(s: Seq<char>) -> Seq<char> {
    s.map_values(|c: char| ascii_lower(c))
}

pub open spec fn var_of(name: Seq<char>) -> Option<ExprVar> {
    if name == "t"@ {
        Some(ExprVar::T)
    } else if name == "f"@ || name == "frame"@ {
        Some(ExprVar::F)
    } else if name == "s"@ || name == "start"@ {
        Some(ExprVar::S)
    } else if name == "x"@ {
        Some(ExprVar::X)
    } else if name == "y"@ {
        Some(ExprVar::Y)
    } else if name == "r"@ {
        Some(ExprVar::R)
    } else if name == "g"@ {
        Some(ExprVar::G)
    } else if name == "b"@ {
        Some(ExprVar::B)
    } else if name == "a"@ {
        Some(ExprVar::A)
    } else if name == "pi"@ {
        Some(ExprVar::Pi)
    } else if name == "tau"@ {
        Some(ExprVar::Tau)
    } else if name == "e"@ {
        Some(ExprVar::E)
    } else {
        None
    }
}

pub open spec fn fn_of(name: Seq<char>) -> Option<ExprFn> {
    if name == "sin"@ {
        Some(ExprFn::Sin)
    } else if name == "cos"@ {
        Some(ExprFn::Cos)
    } else if name == "tan"@ {
        Some(ExprFn::Tan)
    } else if name == "abs"@ {
        Some(ExprFn::Abs)
    } else if name == "sqrt"@ {
        Some(ExprFn::Sqrt)
    } else if name == "floor"@ {
        Some(ExprFn::Floor)
    } else if name == "ceil"@ {
        Some(ExprFn::Ceil)
    } else if name == "pow"@ {
        Some(ExprFn::Pow)
    } else if name == "min"@ {
        Some(ExprFn::Min)
    } else if name == "max"@ {
        Some(ExprFn::Max)
    } else if name == "mod"@ || name == "modulus"@ {
        Some(ExprFn::Mod)
    } else {
        None
    }
}

pub open spec fn arity(f: ExprFn) -> nat {
    match f {
        ExprFn::Pow | ExprFn::Min | ExprFn::Max | ExprFn::Mod => 2,
        _ => 1,
    }
}

/// The name a formula uses to call `f`.
pub open spec fn fn_name(f: ExprFn) -> Seq<char> {
    match f {
        ExprFn::Sin => "sin"@,
        ExprFn::Cos => "cos"@,
        ExprFn::Tan => "tan"@,
        ExprFn::Abs => "abs"@,
        ExprFn::Sqrt => "sqrt"@,
        ExprFn::Floor => "floor"@,
        ExprFn::Ceil => "ceil"@,
        ExprFn::Pow => "pow"@,
        ExprFn::Min => "min"@,
        ExprFn::Max => "max"@,
        ExprFn::Mod => "mod"@,
    }
}

/// Law: a function name in a formula calls the function of that name and
/// no other: `fn_of(name)` is `f` exactly when `name` is `f`'s name (the
/// remainder may also be spelt `modulus`).
pub proof fn lemma_fn_names(name: Seq<char>, f: ExprFn)
    ensures
        fn_of(name) == Some(f) <==> (name == fn_name(f) || (f == ExprFn::Mod && name == "modulus"@)),
{
    match f {
        ExprFn::Sin => {
            reveal_strlit("sin");
        },
        ExprFn::Cos => {
            reveal_strlit("cos");
            reveal_strlit("sin");
            assert("cos"@[0] != "sin"@[0]);
        },
        ExprFn::Tan => {
            reveal_strlit("cos");
            reveal_strlit("sin");
            reveal_strlit("tan");
            assert("tan"@[0] != "sin"@[0]);
            assert("tan"@[0] != "cos"@[0]);
        },
        ExprFn::Abs => {
            reveal_strlit("abs");
            reveal_strlit("cos");
            reveal_strlit("sin");
            reveal_strlit("tan");
            assert("abs"@[0] != "sin"@[0]);
            assert("abs"@[0] != "cos"@[0]);
            assert("abs"@[0] != "tan"@[0]);
        },
        ExprFn::Sqrt => {
            reveal_strlit("abs");
            reveal_strlit("cos");
            reveal_strlit("sin");
            reveal_strlit("sqrt");
            reveal_strlit("tan");
            assert("sqrt"@.len() != "sin"@.len());
            assert("sqrt"@.len() != "cos"@.len());
            assert("sqrt"@.len() != "tan"@.len());
            assert("sqrt"@.len() != "abs"@.len());
        },
        ExprFn::Floor => {
            reveal_strlit("abs");
            reveal_strlit("cos");
            reveal_strlit("floor");
            reveal_strlit("sin");
            reveal_strlit("sqrt");
            reveal_strlit("tan");
            assert("floor"@.len() != "sin"@.len());
            assert("floor"@.len() != "cos"@.len());
            assert("floor"@.len() != "tan"@.len());
            assert("floor"@.len() != "abs"@.len());
            assert("floor"@.len() != "sqrt"@.len());
        },
        ExprFn::Ceil => {
            reveal_strlit("abs");
            reveal_strlit("ceil");
            reveal_strlit("cos");
            reveal_strlit("floor");
            reveal_strlit("sin");
            reveal_strlit("sqrt");
            reveal_strlit("tan");
            assert("ceil"@.len() != "sin"@.len());
            assert("ceil"@.len() != "cos"@.len());
            assert("ceil"@.len() != "tan"@.len());
            assert("ceil"@.len() != "abs"@.len());
            assert("ceil"@[0] != "sqrt"@[0]);
            assert("ceil"@.len() != "floor"@.len());
        },
        ExprFn::Pow => {
            reveal_strlit("abs");
            reveal_strlit("ceil");
            reveal_strlit("cos");
            reveal_strlit("floor");
            reveal_strlit("pow");
            reveal_strlit("sin");
            reveal_strlit("sqrt");
            reveal_strlit("tan");
            assert("pow"@[0] != "sin"@[0]);
            assert("pow"@[0] != "cos"@[0]);
            assert("pow"@[0] != "tan"@[0]);
            assert("pow"@[0] != "abs"@[0]);
            assert("pow"@.len() != "sqrt"@.len());
            assert("pow"@.len() != "floor"@.len());
            assert("pow"@.len() != "ceil"@.len());
        },
        ExprFn::Min => {
            reveal_strlit("abs");
            reveal_strlit("ceil");
            reveal_strlit("cos");
            reveal_strlit("floor");
            reveal_strlit("min");
            reveal_strlit("pow");
            reveal_strlit("sin");
            reveal_strlit("sqrt");
            reveal_strlit("tan");
            assert("min"@[0] != "sin"@[0]);
            assert("min"@[0] != "cos"@[0]);
            assert("min"@[0] != "tan"@[0]);
            assert("min"@[0] != "abs"@[0]);
            assert("min"@.len() != "sqrt"@.len());
            assert("min"@.len() != "floor"@.len());
            assert("min"@.len() != "ceil"@.len());
            assert("min"@[0] != "pow"@[0]);
        },
        ExprFn::Max => {
            reveal_strlit("abs");
            reveal_strlit("ceil");
            reveal_strlit("cos");
            reveal_strlit("floor");
            reveal_strlit("max");
            reveal_strlit("min");
            reveal_strlit("pow");
            reveal_strlit("sin");
            reveal_strlit("sqrt");
            reveal_strlit("tan");
            assert("max"@[0] != "sin"@[0]);
            assert("max"@[0] != "cos"@[0]);
            assert("max"@[0] != "tan"@[0]);
            assert("max"@[0] != "abs"@[0]);
            assert("max"@.len() != "sqrt"@.len());
            assert("max"@.len() != "floor"@.len());
            assert("max"@.len() != "ceil"@.len());
            assert("max"@[0] != "pow"@[0]);
            assert("max"@[1] != "min"@[1]);
        },
        ExprFn::Mod => {
            reveal_strlit("abs");
            reveal_strlit("ceil");
            reveal_strlit("cos");
            reveal_strlit("floor");
            reveal_strlit("max");
            reveal_strlit("min");
            reveal_strlit("mod");
            reveal_strlit("pow");
            reveal_strlit("sin");
            reveal_strlit("sqrt");
            reveal_strlit("tan");
            assert("mod"@[0] != "sin"@[0]);
            assert("mod"@[0] != "cos"@[0]);
            assert("mod"@[0] != "tan"@[0]);
            assert("mod"@[0] != "abs"@[0]);
            assert("mod"@.len() != "sqrt"@.len());
            assert("mod"@.len() != "floor"@.len());
            assert("mod"@.len() != "ceil"@.len());
            assert("mod"@[0] != "pow"@[0]);
            assert("mod"@[1] != "min"@[1]);
            assert("mod"@[1] != "max"@[1]);
            reveal_strlit("modulus");
            assert("modulus"@.len() != "sin"@.len());
            assert("modulus"@.len() != "cos"@.len());
            assert("modulus"@.len() != "tan"@.len());
            assert("modulus"@.len() != "abs"@.len());
            assert("modulus"@.len() != "sqrt"@.len());
            assert("modulus"@.len() != "floor"@.len());
            assert("modulus"@.len() != "ceil"@.len());
            assert("modulus"@.len() != "pow"@.len());
            assert("modulus"@.len() != "min"@.len());
            assert("modulus"@.len() != "max"@.len());
        },
    }
}

/// Law: a call of `f` by its name with its number of arguments, closed by
/// `)`, compiles to the single step calling `f`.
pub proof fn lemma_call_compiles(s: Seq<char>, f: ExprFn, q: int)
    requires
        at(s, ws(s, q), ')'),
    ensures
        finish_call(s, fn_name(f), arity(f), q) == (Step::Done { ops: seq![OpView::Call(f)], pos: ws(s, q) + 1 }),
{
    lemma_fn_names(fn_name(f), f);
}

/// First byte of the UTF-8 encoding of `c`, read as a character (what
/// `byte as char` shows for the offending byte).
pub open spec fn lead_char(c: char) -> char {
    (vstd::utf8::encode_scalar(c as u32)[0]) as char
}

/// The call once its argument list ended at `q`.
pub open spec fn finish_call(s: Seq<char>, name: Seq<char>, count: nat, q: int) -> Step {
    let q2 = ws(s, q);
    if !at(s, q2, ')') {
        Step::Fail { ops: seq![], msg: "expected ')' after function args"@ }
    } else {
        match fn_of(name) {
            None => Step::Fail { ops: seq![], msg: "unknown function '"@ + name + "'"@ },
            Some(f) => if arity(f) != count {
                Step::Fail {
                    ops: seq![],
                    msg: name + "() expects "@ + decimal(arity(f)) + " arg(s), got "@ + decimal(count),
                }
            } else {
                Step::Done { ops: seq![OpView::Call(f)], pos: q2 + 1 }
            },
        }
    }
}

pub open spec fn sp_expr(s: Seq<char>, pos: int, fuel: nat) -> Step
    decreases fuel,
{
    if fuel == 0 {
        Step::OutOfFuel
    } else {
        sp_add(s, pos, (fuel - 1) as nat)
    }
}

pub open spec fn sp_add(s: Seq<char>, pos: int, fuel: nat) -> Step
    decreases fuel,
{
    if fuel == 0 {
        Step::OutOfFuel
    } else {
        match sp_mul(s, pos, (fuel - 1) as nat) {
            Step::Done { ops, pos: p } => prepend(ops, sp_add_tail(s, p, (fuel - 1) as nat)),
            other => other,
        }
    }
}

pub open spec fn sp_add_tail(s: Seq<char>, pos: int, fuel: nat) -> Step
    decreases fuel,
{
    if fuel == 0 {
        Step::OutOfFuel
    } else {
        let q = ws(s, pos);
        if at(s, q, '+') || at(s, q, '-') {
            let op = if s[q] == '+' { OpView::Add } else { OpView::Sub };
            match sp_mul(s, q + 1, (fuel - 1) as nat) {
                Step::Done { ops, pos: p } => prepend(ops.push(op), sp_add_tail(s, p, (fuel - 1) as nat)),
                other => other,
            }
        } else {
            Step::Done { ops: seq![], pos: q }
        }
    }
}

pub open spec fn sp_mul(s: Seq<char>, pos: int, fuel: nat) -> Step
    decreases fuel,
{
    if fuel == 0 {
        Step::OutOfFuel
    } else {
        match sp_pow(s, pos, (fuel - 1) as nat) {
            Step::Done { ops, pos: p } => prepend(ops, sp_mul_tail(s, p, (fuel - 1) as nat)),
            other => other,
        }
    }
}

pub open spec fn sp_mul_tail(s: Seq<char>, pos: int, fuel: nat) -> Step
    decreases fuel,
{
    if fuel == 0 {
        Step::OutOfFuel
    } else {
        let q = ws(s, pos);
        if at(s, q, '*') || at(s, q, '/') || at(s, q, '%') {
            let op = if s[q] == '*' {
                OpView::Mul
            } else if s[q] == '/' {
                OpView::Div
            } else {
                OpView::Rem
            };
            match sp_pow(s, q + 1, (fuel - 1) as nat) {
                Step::Done { ops, pos: p } => prepend(ops.push(op), sp_mul_tail(s, p, (fuel - 1) as nat)),
                other => other,
            }
        } else {
            Step::Done { ops: seq![], pos: q }
        }
    }
}

pub open spec fn sp_pow(s: Seq<char>, pos: int, fuel: nat) -> Step
    decreases fuel,
{
    if fuel == 0 {
        Step::OutOfFuel
    } else {
        match sp_unary(s, pos, (fuel - 1) as nat) {
            Step::Done { ops, pos: p } => {
                let q = ws(s, p);
                if at(s, q, '^') {
                    match sp_unary(s, q + 1, (fuel - 1) as nat) {
                        Step::Done { ops: o2, pos: p2 } => Step::Done {
                            ops: ops + o2.push(OpView::Pow),
                            pos: p2,
                        },
                        other => prepend(ops, other),
                    }
                } else {
                    Step::Done { ops, pos: q }
                }
            },
            other => other,
        }
    }
}

pub open spec fn sp_unary(s: Seq<char>, pos: int, fuel: nat) -> Step
    decreases fuel,
{
    if fuel == 0 {
        Step::OutOfFuel
    } else {
        let q = ws(s, pos);
        if at(s, q, '+') {
            sp_unary(s, q + 1, (fuel - 1) as nat)
        } else if at(s, q, '-') {
            match sp_unary(s, q + 1, (fuel - 1) as nat) {
                Step::Done { ops, pos: p } => Step::Done { ops: ops.push(OpView::Neg), pos: p },
                other => other,
            }
        } else {
            sp_primary(s, q, (fuel - 1) as nat)
        }
    }
}

pub open spec fn sp_primary(s: Seq<char>, pos: int, fuel: nat) -> Step
    decreases fuel,
{
    if fuel == 0 {
        Step::OutOfFuel
    } else {
        let q = ws(s, pos);
        if q >= s.len() {
            Step::Fail { ops: seq![], msg: "unexpected end of expression"@ }
        } else if is_num_char(s[q]) {
            sp_number(s, q)
        } else if s[q] == '(' {
            match sp_expr(s, q + 1, (fuel - 1) as nat) {
                Step::Done { ops, pos: p } => {
                    let q2 = ws(s, p);
                    if at(s, q2, ')') {
                        Step::Done { ops, pos: q2 + 1 }
                    } else {
                        Step::Fail { ops, msg: "expected ')'"@ }
                    }
                },
                other => other,
            }
        } else if is_ident_start(s[q]) {
            let e = run_end(s, q + 1, ident_pred());
            let name = lower(s.subrange(q, e));
            let q2 = ws(s, e);
            if at(s, q2, '(') {
                let q3 = ws(s, q2 + 1);
                if at(s, q3, ')') {
                    finish_call(s, name, 0, q3)
                } else {
                    match sp_args(s, q3, (fuel - 1) as nat) {
                        ArgsStep::Done { ops, pos: p, count } => prepend(ops, finish_call(s, name, count, p)),
                        ArgsStep::Fail { ops, msg } => Step::Fail { ops, msg },
                        ArgsStep::OutOfFuel => Step::OutOfFuel,
                    }
                }
            } else {
                match var_of(name) {
                    Some(v) => Step::Done { ops: seq![OpView::Var(v)], pos: q2 },
                    None => Step::Fail {
                        ops: seq![],
                        msg: "unknown variable '"@ + name + "' (t,f,s,x,y,r,g,b,a)"@,
                    },
                }
            }
        } else {
            Step::Fail { ops: seq![], msg: "unexpected character '"@ + seq![lead_char(s[q])] + "'"@ }
        }
    }
}

pub open spec fn sp_args(s: Seq<char>, pos: int, fuel: nat) -> ArgsStep
    decreases fuel,
{
    if fuel == 0 {
        ArgsStep::OutOfFuel
    } else {
        match sp_expr(s, pos, (fuel - 1) as nat) {
            Step::Done { ops, pos: p } => {
                let q = ws(s, p);
                if at(s, q, ',') {
                    match sp_args(s, q + 1, (fuel - 1) as nat) {
                        ArgsStep::Done { ops: o2, pos: p2, count } => ArgsStep::Done {
                            ops: ops + o2,
                            pos: p2,
                            count: count + 1,
                        },
                        ArgsStep::Fail { ops: o2, msg } => ArgsStep::Fail { ops: ops + o2, msg },
                        ArgsStep::OutOfFuel => ArgsStep::OutOfFuel,
                    }
                } else {
                    ArgsStep::Done { ops, pos: q, count: 1 }
                }
            },
            Step::Fail { ops, msg } => ArgsStep::Fail { ops, msg },
            Step::OutOfFuel => ArgsStep::OutOfFuel,
        }
    }
}

/// Enough fuel for any formula of `n` characters.
pub open spec fn fuel_for(n: nat) -> nat {
    13 * (n + 1)
}

/// Compilation of a whole formula: the operations and the terminating error.
pub open spec fn spec_compile(input: Seq<char>) -> (Seq<OpView>, Option<Seq<char>>) {
    let t = trimmed(input);
    if t.len() == 0 {
        (seq![], Some("empty expression"@))
    } else {
        match sp_expr(t, 0, fuel_for(t.len())) {
            Step::Done { ops, pos } => {
                let q = ws(t, pos);
                if q < t.len() {
                    (ops, Some("unexpected trailing input: "@ + t.subrange(q, t.len() as int)))
                } else {
                    (ops, None)
                }
            },
            Step::Fail { ops, msg } => (ops, Some(msg)),
            Step::OutOfFuel => (seq![], None),
        }
    }
}


/// The parse of a rule agrees with the outcome `st`: same stop position or
/// error text, and the operations it appended are those of `st`.
pub open spec fn agrees(st: Step, r: Result<usize, String>, before: Seq<ExprOp>, after: Seq<ExprOp>) -> bool {
    match st {
        Step::Done { ops, pos } => match r {
            Ok(p) => p as int == pos && ops_view(after) == ops_view(before) + ops,
            Err(_) => false,
        },
        Step::Fail { ops, msg } => match r {
            Err(e) => e@ == msg && ops_view(after) == ops_view(before) + ops,
            Ok(_) => false,
        },
        Step::OutOfFuel => false,
    }
}

pub open spec fn agrees_args(st: ArgsStep, r: Result<(usize, usize), String>, before: Seq<ExprOp>, after: Seq<ExprOp>) -> bool {
    match st {
        ArgsStep::Done { ops, pos, count } => match r {
            Ok(pc) => pc.0 as int == pos && pc.1 as nat == count && ops_view(after) == ops_view(before)
                + ops,
            Err(_) => false,
        },
        ArgsStep::Fail { ops, msg } => match r {
            Err(e) => e@ == msg && ops_view(after) == ops_view(before) + ops,
            Ok(_) => false,
        },
        ArgsStep::OutOfFuel => false,
    }
}

proof fn lemma_ops_push(s: Seq<ExprOp>, o: ExprOp)
    ensures
        ops_view(s.push(o)) == ops_view(s).push(o@),
        ops_view(s.push(o)) == ops_view(s) + seq![o@],
{
    assert(ops_view(s.push(o)) =~= ops_view(s).push(o@));
    assert(ops_view(s.push(o)) =~= ops_view(s) + seq![o@]);
}

proof fn lemma_agrees_prepend(pre: Seq<OpView>, st: Step, r: Result<usize, String>, before: Seq<ExprOp>, mid: Seq<ExprOp>, after: Seq<ExprOp>)
    requires
        ops_view(mid) == ops_view(before) + pre,
        agrees(st, r, mid, after),
    ensures
        agrees(prepend(pre, st), r, before, after),
{
    match st {
        Step::Done { ops, pos } => {
            assert(ops_view(before) + (pre + ops) =~= ops_view(before) + pre + ops);
        },
        Step::Fail { ops, msg } => {
            assert(ops_view(before) + (pre + ops) =~= ops_view(before) + pre + ops);
        },
        Step::OutOfFuel => {},
    }
}

proof fn lemma_push_assoc(a: Seq<OpView>, b: Seq<OpView>, o: OpView)
    ensures
        (a + b).push(o) == a + b.push(o),
{
    assert((a + b).push(o) =~= a + b.push(o));
}

fn char_is_ascii_ws(c: char) -> (r: bool)
    ensures
        r == is_ascii_ws(c),
{
    c == ' ' || c == '\t' || c == '\n' || (c as u32) == 12 || c == '\r'
}

/// Skips ASCII white space from `i`.
pub fn skip_ws(b: &Vec<char>, i: usize) -> (r: usize)
    requires
        i <= b@.len(),
    ensures
        r == ws(b@, i as int),
        i <= r <= b@.len(),
{
    let mut j = i;
    while j < b.len() && char_is_ascii_ws(b[j])
        invariant
            i <= j <= b@.len(),
            ws(b@, i as int) == ws(b@, j as int),
        decreases b@.len() - j,
    {
        j = j + 1;
    }
    j
}

fn digit_run_end(s: &Vec<char>, pos: usize) -> (r: usize)
    requires
        pos <= s@.len(),
    ensures
        r == run_end(s@, pos as int, digit_pred()),
        pos <= r <= s@.len(),
{
    let mut j = pos;
    while j < s.len() && '0' <= s[j] && s[j] <= '9'
        invariant
            pos <= j <= s@.len(),
            run_end(s@, pos as int, digit_pred()) == run_end(s@, j as int, digit_pred()),
        decreases s@.len() - j,
    {
        j = j + 1;
    }
    j
}

fn num_run_end(s: &Vec<char>, pos: usize) -> (r: usize)
    requires
        pos <= s@.len(),
    ensures
        r == run_end(s@, pos as int, num_pred()),
        pos <= r <= s@.len(),
{
    let mut j = pos;
    while j < s.len() && (('0' <= s[j] && s[j] <= '9') || s[j] == '.')
        invariant
            pos <= j <= s@.len(),
            run_end(s@, pos as int, num_pred()) == run_end(s@, j as int, num_pred()),
        decreases s@.len() - j,
    {
        j = j + 1;
    }
    j
}

fn char_is_alpha(c: char) -> (r: bool)
    ensures
        r == is_alpha(c),
{
    ('a' <= c && c <= 'z') || ('A' <= c && c <= 'Z')
}

fn ident_run_end(s: &Vec<char>, pos: usize) -> (r: usize)
    requires
        pos <= s@.len(),
    ensures
        r == run_end(s@, pos as int, ident_pred()),
        pos <= r <= s@.len(),
{
    let mut j = pos;
    while j < s.len() && (char_is_alpha(s[j]) || ('0' <= s[j] && s[j] <= '9') || s[j] == '_')
        invariant
            pos <= j <= s@.len(),
            run_end(s@, pos as int, ident_pred()) == run_end(s@, j as int, ident_pred()),
        decreases s@.len() - j,
    {
        j = j + 1;
    }
    j
}

/// The characters `from..to` as a string.
fn collect(s: &Vec<char>, from: usize, to: usize) -> (r: String)
    requires
        from <= to <= s@.len(),
    ensures
        r@ == s@.subrange(from as int, to as int),
{
    let mut r = String::new();
    let mut k = from;
    while k < to
        invariant
            from <= k <= to <= s@.len(),
            r@ == s@.subrange(from as int, k as int),
        decreases to - k,
    {
        string_push(&mut r, s[k]);
        assert(s@.subrange(from as int, k + 1) =~= s@.subrange(from as int, k as int).push(s@[k as int]));
        k = k + 1;
    }
    r
}

/// The characters `from..to` with ASCII letters lowered.
fn collect_lower(s: &Vec<char>, from: usize, to: usize) -> (r: String)
    requires
        from <= to <= s@.len(),
    ensures
        r@ == lower(s@.subrange(from as int, to as int)),
{
    let mut r = String::new();
    let mut k = from;
    while k < to
        invariant
            from <= k <= to <= s@.len(),
            r@ == lower(s@.subrange(from as int, k as int)),
        decreases to - k,
    {
        let c = s[k];
        let l = if 'A' <= c && c <= 'Z' {
            (((c as u32) + 32) as u8) as char
        } else {
            c
        };
        string_push(&mut r, l);
        assert(lower(s@.subrange(from as int, k + 1)) =~= lower(s@.subrange(from as int, k as int)).push(l));
        k = k + 1;
    }
    r
}

fn dots_in(s: &Vec<char>, from: usize, to: usize) -> (r: usize)
    requires
        from <= to <= s@.len(),
    ensures
        r as nat == dot_count(s@.subrange(from as int, to as int)),
        r <= to - from,
{
    let mut n: usize = 0;
    let mut k = from;
    while k < to
        invariant
            from <= k <= to <= s@.len(),
            n as nat == dot_count(s@.subrange(from as int, k as int)),
            n <= k - from,
        decreases to - k,
    {
        assert(s@.subrange(from as int, k + 1).drop_last() =~= s@.subrange(from as int, k as int));
        if s[k] == '.' {
            n = n + 1;
        }
        k = k + 1;
    }
    n
}

fn lead_char_of(c: char) -> (r: char)
    ensures
        r == lead_char(c),
{
    broadcast use vstd::utf8::char_is_scalar;
    let u = c as u32;
    let b: u8 = if u <= 0x7f {
        (u & 0x7f) as u8
    } else if u <= 0x7ff {
        0xc0 | ((u >> 6) & 0x1f) as u8
    } else if u <= 0xffff {
        0xe0 | ((u >> 12) & 0x0f) as u8
    } else {
        0xf0 | ((u >> 18) & 0x7) as u8
    };
    b as char
}

fn lookup_var(name: &str) -> (r: Option<ExprVar>)
    ensures
        r == var_of(name@),
{
    if str_eq(name, "t") {
        Some(ExprVar::T)
    } else if str_eq(name, "f") || str_eq(name, "frame") {
        Some(ExprVar::F)
    } else if str_eq(name, "s") || str_eq(name, "start") {
        Some(ExprVar::S)
    } else if str_eq(name, "x") {
        Some(ExprVar::X)
    } else if str_eq(name, "y") {
        Some(ExprVar::Y)
    } else if str_eq(name, "r") {
        Some(ExprVar::R)
    } else if str_eq(name, "g") {
        Some(ExprVar::G)
    } else if str_eq(name, "b") {
        Some(ExprVar::B)
    } else if str_eq(name, "a") {
        Some(ExprVar::A)
    } else if str_eq(name, "pi") {
        Some(ExprVar::Pi)
    } else if str_eq(name, "tau") {
        Some(ExprVar::Tau)
    } else if str_eq(name, "e") {
        Some(ExprVar::E)
    } else {
        None
    }
}

fn lookup_fn(name: &str) -> (r: Option<ExprFn>)
    ensures
        r == fn_of(name@),
{
    if str_eq(name, "sin") {
        Some(ExprFn::Sin)
    } else if str_eq(name, "cos") {
        Some(ExprFn::Cos)
    } else if str_eq(name, "tan") {
        Some(ExprFn::Tan)
    } else if str_eq(name, "abs") {
        Some(ExprFn::Abs)
    } else if str_eq(name, "sqrt") {
        Some(ExprFn::Sqrt)
    } else if str_eq(name, "floor") {
        Some(ExprFn::Floor)
    } else if str_eq(name, "ceil") {
        Some(ExprFn::Ceil)
    } else if str_eq(name, "pow") {
        Some(ExprFn::Pow)
    } else if str_eq(name, "min") {
        Some(ExprFn::Min)
    } else if str_eq(name, "max") {
        Some(ExprFn::Max)
    } else if str_eq(name, "mod") || str_eq(name, "modulus") {
        Some(ExprFn::Mod)
    } else {
        None
    }
}

/// Number of arguments a function takes.
pub fn fn_arity(f: ExprFn) -> (n: usize)
    ensures
        n as nat == arity(f),
{
    match f {
        ExprFn::Pow | ExprFn::Min | ExprFn::Max | ExprFn::Mod => 2,
        _ => 1,
    }
}

fn parse_number(s: &Vec<char>, pos: usize, ops: &mut Vec<ExprOp>) -> (r: Result<usize, String>)
    requires
        pos < s@.len(),
        is_num_char(s@[pos as int]),
    ensures
        agrees(sp_number(s@, pos as int), r, old(ops)@, final(ops)@),
        r matches Ok(p) ==> pos < p <= s@.len(),
{
    let me = num_run_end(s, pos);
    let mut e = me;
    let mut exp = false;
    let mut exp_ok = true;
    if me < s.len() && (s[me] == 'e' || s[me] == 'E') {
        exp = true;
        let mut d = me + 1;
        if d < s.len() && (s[d] == '+' || s[d] == '-') {
            d = d + 1;
        }
        e = digit_run_end(s, d);
        exp_ok = e > d;
    }
    assert(e as int == number_end(s@, pos as int));
    let text = collect(s, pos, e);
    let dots = dots_in(s, pos, me);
    if dots <= 1 && me - pos > dots && exp_ok {
        proof {
            lemma_ops_push(old(ops)@, ExprOp::Num(text));
        }
        ops.push(ExprOp::Num(text));
        Ok(e)
    } else {
        let mut msg = concat2("invalid number '", text.as_str());
        msg.append("'");
        Err(msg)
    }
}

fn finish_call_exec(s: &Vec<char>, name: &String, count: usize, q: usize, ops: &mut Vec<ExprOp>) -> (r: Result<usize, String>)
    requires
        q <= s@.len(),
    ensures
        agrees(finish_call(s@, name@, count as nat, q as int), r, old(ops)@, final(ops)@),
        r matches Ok(p) ==> q < p <= s@.len(),
{
    let q2 = skip_ws(s, q);
    if !(q2 < s.len() && s[q2] == ')') {
        return Err(owned("expected ')' after function args"));
    }
    match lookup_fn(name.as_str()) {
        None => {
            let mut msg = concat2("unknown function '", name.as_str());
            msg.append("'");
            Err(msg)
        },
        Some(f) => {
            let n = fn_arity(f);
            if n != count {
                let mut msg = concat2(name.as_str(), "() expects ");
                msg.append(usize_to_decimal(n).as_str());
                msg.append(" arg(s), got ");
                msg.append(usize_to_decimal(count).as_str());
                Err(msg)
            } else {
                proof {
                    lemma_ops_push(old(ops)@, ExprOp::Call(f));
                }
                ops.push(ExprOp::Call(f));
                Ok(q2 + 1)
            }
        },
    }
}


fn parse_expr(s: &Vec<char>, pos: usize, ops: &mut Vec<ExprOp>, Ghost(fuel): Ghost<nat>) -> (r: Result<usize, String>)
    requires
        pos <= s@.len(),
        fuel >= 13 * (s@.len() - pos) + 12,
    ensures
        agrees(sp_expr(s@, pos as int, fuel), r, old(ops)@, final(ops)@),
        r matches Ok(p) ==> pos < p <= s@.len(),
    decreases fuel,
{
    parse_add(s, pos, ops, Ghost((fuel - 1) as nat))
}

fn parse_add(s: &Vec<char>, pos: usize, ops: &mut Vec<ExprOp>, Ghost(fuel): Ghost<nat>) -> (r: Result<usize, String>)
    requires
        pos <= s@.len(),
        fuel >= 13 * (s@.len() - pos) + 11,
    ensures
        agrees(sp_add(s@, pos as int, fuel), r, old(ops)@, final(ops)@),
        r matches Ok(p) ==> pos < p <= s@.len(),
    decreases fuel,
{
    let ghost before = ops@;
    let f1 = Ghost((fuel - 1) as nat);
    match parse_mul(s, pos, ops, f1) {
        Err(e) => Err(e),
        Ok(p) => {
            let ghost mid = ops@;
            let r = parse_add_tail(s, p, ops, f1);
            proof {
                if let Step::Done { ops: m, pos: _ } = sp_mul(s@, pos as int, f1@) {
                    lemma_agrees_prepend(m, sp_add_tail(s@, p as int, f1@), r, before, mid, ops@);
                }
            }
            r
        },
    }
}

fn parse_add_tail(s: &Vec<char>, pos: usize, ops: &mut Vec<ExprOp>, Ghost(fuel): Ghost<nat>) -> (r: Result<usize, String>)
    requires
        pos <= s@.len(),
        fuel >= 13 * (s@.len() - pos) + 10,
    ensures
        agrees(sp_add_tail(s@, pos as int, fuel), r, old(ops)@, final(ops)@),
        r matches Ok(p) ==> pos <= p <= s@.len(),
    decreases fuel,
{
    let ghost before = ops@;
    let f1 = Ghost((fuel - 1) as nat);
    let q = skip_ws(s, pos);
    if q < s.len() && (s[q] == '+' || s[q] == '-') {
        let is_add = s[q] == '+';
        match parse_mul(s, q + 1, ops, f1) {
            Err(e) => Err(e),
            Ok(p) => {
                let ghost mid = ops@;
                let op = if is_add { ExprOp::Add } else { ExprOp::Sub };
                proof {
                    lemma_ops_push(ops@, op);
                }
                ops.push(op);
                let ghost mid2 = ops@;
                let r = parse_add_tail(s, p, ops, f1);
                proof {
                    if let Step::Done { ops: m, pos: _ } = sp_mul(s@, q + 1, f1@) {
                        lemma_push_assoc(ops_view(before), m, op@);
                        lemma_agrees_prepend(m.push(op@), sp_add_tail(s@, p as int, f1@), r, before, mid2, ops@);
                    }
                }
                r
            },
        }
    } else {
        Ok(q)
    }
}

fn parse_mul(s: &Vec<char>, pos: usize, ops: &mut Vec<ExprOp>, Ghost(fuel): Ghost<nat>) -> (r: Result<usize, String>)
    requires
        pos <= s@.len(),
        fuel >= 13 * (s@.len() - pos) + 9,
    ensures
        agrees(sp_mul(s@, pos as int, fuel), r, old(ops)@, final(ops)@),
        r matches Ok(p) ==> pos < p <= s@.len(),
    decreases fuel,
{
    let ghost before = ops@;
    let f1 = Ghost((fuel - 1) as nat);
    match parse_pow(s, pos, ops, f1) {
        Err(e) => Err(e),
        Ok(p) => {
            let ghost mid = ops@;
            let r = parse_mul_tail(s, p, ops, f1);
            proof {
                if let Step::Done { ops: m, pos: _ } = sp_pow(s@, pos as int, f1@) {
                    lemma_agrees_prepend(m, sp_mul_tail(s@, p as int, f1@), r, before, mid, ops@);
                }
            }
            r
        },
    }
}

fn parse_mul_tail(s: &Vec<char>, pos: usize, ops: &mut Vec<ExprOp>, Ghost(fuel): Ghost<nat>) -> (r: Result<usize, String>)
    requires
        pos <= s@.len(),
        fuel >= 13 * (s@.len() - pos) + 8,
    ensures
        agrees(sp_mul_tail(s@, pos as int, fuel), r, old(ops)@, final(ops)@),
        r matches Ok(p) ==> pos <= p <= s@.len(),
    decreases fuel,
{
    let ghost before = ops@;
    let f1 = Ghost((fuel - 1) as nat);
    let q = skip_ws(s, pos);
    if q < s.len() && (s[q] == '*' || s[q] == '/' || s[q] == '%') {
        let c = s[q];
        match parse_pow(s, q + 1, ops, f1) {
            Err(e) => Err(e),
            Ok(p) => {
                let op = if c == '*' {
                    ExprOp::Mul
                } else if c == '/' {
                    ExprOp::Div
                } else {
                    ExprOp::Rem
                };
                proof {
                    lemma_ops_push(ops@, op);
                }
                ops.push(op);
                let ghost mid2 = ops@;
                let r = parse_mul_tail(s, p, ops, f1);
                proof {
                    if let Step::Done { ops: m, pos: _ } = sp_pow(s@, q + 1, f1@) {
                        lemma_push_assoc(ops_view(before), m, op@);
                        lemma_agrees_prepend(m.push(op@), sp_mul_tail(s@, p as int, f1@), r, before, mid2, ops@);
                    }
                }
                r
            },
        }
    } else {
        Ok(q)
    }
}

fn parse_pow(s: &Vec<char>, pos: usize, ops: &mut Vec<ExprOp>, Ghost(fuel): Ghost<nat>) -> (r: Result<usize, String>)
    requires
        pos <= s@.len(),
        fuel >= 13 * (s@.len() - pos) + 7,
    ensures
        agrees(sp_pow(s@, pos as int, fuel), r, old(ops)@, final(ops)@),
        r matches Ok(p) ==> pos < p <= s@.len(),
    decreases fuel,
{
    let ghost before = ops@;
    let f1 = Ghost((fuel - 1) as nat);
    match parse_unary(s, pos, ops, f1) {
        Err(e) => Err(e),
        Ok(p) => {
            let ghost mid = ops@;
            let q = skip_ws(s, p);
            if q < s.len() && s[q] == '^' {
                let r2 = parse_unary(s, q + 1, ops, f1);
                match r2 {
                    Err(e) => {
                        proof {
                            if let Step::Done { ops: m, pos: _ } = sp_unary(s@, pos as int, f1@) {
                                lemma_agrees_prepend(m, sp_unary(s@, q + 1, f1@), r2, before, mid, ops@);
                            }
                        }
                        Err(e)
                    },
                    Ok(p2) => {
                        let ghost mid2 = ops@;
                        proof {
                            lemma_ops_push(ops@, ExprOp::Pow);
                        }
                        ops.push(ExprOp::Pow);
                        proof {
                            if let Step::Done { ops: m, pos: _ } = sp_unary(s@, pos as int, f1@) {
                                if let Step::Done { ops: o2, pos: _ } = sp_unary(s@, q + 1, f1@) {
                                    assert(ops_view(ops@) =~= ops_view(before) + (m + o2.push(OpView::Pow)));
                                }
                            }
                        }
                        Ok(p2)
                    },
                }
            } else {
                Ok(q)
            }
        },
    }
}

fn parse_unary(s: &Vec<char>, pos: usize, ops: &mut Vec<ExprOp>, Ghost(fuel): Ghost<nat>) -> (r: Result<usize, String>)
    requires
        pos <= s@.len(),
        fuel >= 13 * (s@.len() - pos) + 6,
    ensures
        agrees(sp_unary(s@, pos as int, fuel), r, old(ops)@, final(ops)@),
        r matches Ok(p) ==> pos < p <= s@.len(),
    decreases fuel,
{
    let f1 = Ghost((fuel - 1) as nat);
    let q = skip_ws(s, pos);
    if q < s.len() && s[q] == '+' {
        parse_unary(s, q + 1, ops, f1)
    } else if q < s.len() && s[q] == '-' {
        match parse_unary(s, q + 1, ops, f1) {
            Err(e) => Err(e),
            Ok(p) => {
                proof {
                    lemma_ops_push(ops@, ExprOp::Neg);
                }
                ops.push(ExprOp::Neg);
                proof {
                    if let Step::Done { ops: m, pos: _ } = sp_unary(s@, q + 1, f1@) {
                        lemma_push_assoc(ops_view(old(ops)@), m, OpView::Neg);
                    }
                }
                Ok(p)
            },
        }
    } else {
        parse_primary(s, q, ops, f1)
    }
}

fn parse_primary(s: &Vec<char>, pos: usize, ops: &mut Vec<ExprOp>, Ghost(fuel): Ghost<nat>) -> (r: Result<usize, String>)
    requires
        pos <= s@.len(),
        fuel >= 13 * (s@.len() - pos) + 5,
    ensures
        agrees(sp_primary(s@, pos as int, fuel), r, old(ops)@, final(ops)@),
        r matches Ok(p) ==> pos < p <= s@.len(),
    decreases fuel,
{
    let ghost before = ops@;
    let f1 = Ghost((fuel - 1) as nat);
    let q = skip_ws(s, pos);
    if q >= s.len() {
        return Err(owned("unexpected end of expression"));
    }
    let c = s[q];
    if ('0' <= c && c <= '9') || c == '.' {
        return parse_number(s, q, ops);
    }
    if c == '(' {
        match parse_expr(s, q + 1, ops, f1) {
            Err(e) => {
                return Err(e);
            },
            Ok(p) => {
                let q2 = skip_ws(s, p);
                if q2 < s.len() && s[q2] == ')' {
                    return Ok(q2 + 1);
                } else {
                    return Err(owned("expected ')'"));
                }
            },
        }
    }
    if char_is_alpha(c) || c == '_' {
        let e = ident_run_end(s, q + 1);
        let name = collect_lower(s, q, e);
        let q2 = skip_ws(s, e);
        if q2 < s.len() && s[q2] == '(' {
            let q3 = skip_ws(s, q2 + 1);
            if q3 < s.len() && s[q3] == ')' {
                return finish_call_exec(s, &name, 0, q3, ops);
            }
            match parse_args(s, q3, ops, f1) {
                Err(e) => {
                    return Err(e);
                },
                Ok(pc) => {
                    let ghost mid = ops@;
                    let r = finish_call_exec(s, &name, pc.1, pc.0, ops);
                    proof {
                        if let ArgsStep::Done { ops: m, pos: _, count: _ } = sp_args(s@, q3 as int, f1@) {
                            lemma_agrees_prepend(m, finish_call(s@, name@, pc.1 as nat, pc.0 as int), r, before, mid, ops@);
                        }
                    }
                    return r;
                },
            }
        }
        match lookup_var(name.as_str()) {
            Some(v) => {
                proof {
                    lemma_ops_push(ops@, ExprOp::Var(v));
                }
                ops.push(ExprOp::Var(v));
                return Ok(q2);
            },
            None => {
                let mut msg = concat2("unknown variable '", name.as_str());
                msg.append("' (t,f,s,x,y,r,g,b,a)");
                return Err(msg);
            },
        }
    }
    let mut msg = owned("unexpected character '");
    let lc = lead_char_of(c);
    assert(msg@.push(lc) =~= msg@ + seq![lc]);
    string_push(&mut msg, lc);
    msg.append("'");
    Err(msg)
}

fn parse_args(s: &Vec<char>, pos: usize, ops: &mut Vec<ExprOp>, Ghost(fuel): Ghost<nat>) -> (r: Result<(usize, usize), String>)
    requires
        pos <= s@.len(),
        fuel >= 13 * (s@.len() - pos) + 13,
    ensures
        agrees_args(sp_args(s@, pos as int, fuel), r, old(ops)@, final(ops)@),
        r matches Ok(pc) ==> pos < pc.0 <= s@.len() && pc.1 <= pc.0 - pos,
    decreases fuel,
{
    let ghost before = ops@;
    let f1 = Ghost((fuel - 1) as nat);
    match parse_expr(s, pos, ops, f1) {
        Err(e) => Err(e),
        Ok(p) => {
            let ghost mid = ops@;
            let q = skip_ws(s, p);
            if q < s.len() && s[q] == ',' {
                match parse_args(s, q + 1, ops, f1) {
                    Err(e) => {
                        proof {
                            if let Step::Done { ops: m, pos: _ } = sp_expr(s@, pos as int, f1@) {
                                if let ArgsStep::Fail { ops: o2, msg: _ } = sp_args(s@, q + 1, f1@) {
                                    assert(ops_view(ops@) =~= ops_view(before) + (m + o2));
                                }
                            }
                        }
                        Err(e)
                    },
                    Ok(pc) => {
                        proof {
                            if let Step::Done { ops: m, pos: _ } = sp_expr(s@, pos as int, f1@) {
                                if let ArgsStep::Done { ops: o2, pos: _, count: _ } = sp_args(s@, q + 1, f1@) {
                                    assert(ops_view(ops@) =~= ops_view(before) + (m + o2));
                                }
                            }
                        }
                        Ok((pc.0, pc.1 + 1))
                    },
                }
            } else {
                Ok((q, 1))
            }
        },
    }
}

/// A compiled formula: the operations to evaluate in order, and the error
/// that stopped compilation (reported once the operations before it have
/// been evaluated without error).
#[derive(Debug, Clone, PartialEq, Eq)]
pub struct CompiledExpr {
    pub ops: Vec<ExprOp>,
    pub error: Option<ExprError>,
}

pub open spec fn error_text(e: Option<ExprError>) -> Option<Seq<char>> {
    match e {
        Some(ExprError(m)) => Some(m@),
        None => None,
    }
}

/// Compiles a formula (trimmed of surrounding white space).
pub fn compile_expr(expr: &str) -> (r: CompiledExpr)
    ensures
        ops_view(r.ops@) == spec_compile(expr@).0,
        error_text(r.error) == spec_compile(expr@).1,
        // a formula that compiles without error is a well-formed evaluation
        // program: run in order on an empty stack it never pops a missing
        // operand and leaves exactly one value, the result
        r.error is None ==> is_value(ops_view(r.ops@)),
{
    let t = trim_str(expr);
    let s = chars_vec(t.as_str());
    let n = s.len();
    if n == 0 {
        let ops: Vec<ExprOp> = Vec::new();
        assert(ops_view(ops@) =~= Seq::<OpView>::empty());
        return CompiledExpr { ops, error: Some(ExprError(owned("empty expression"))) };
    }
    let mut ops: Vec<ExprOp> = Vec::new();
    assert(ops_view(ops@) =~= Seq::<OpView>::empty());
    match parse_expr(&s, 0, &mut ops, Ghost(fuel_for(n as nat))) {
        Err(e) => {
            assert(ops_view(ops@) =~= Seq::<OpView>::empty() + ops_view(ops@));
            CompiledExpr { ops, error: Some(ExprError(e)) }
        },
        Ok(p) => {
            assert(ops_view(ops@) =~= Seq::<OpView>::empty() + ops_view(ops@));
            proof {
                lemma_expr_value(s@, 0, fuel_for(n as nat));
            }
            let q = skip_ws(&s, p);
            if q < n {
                let rest = char_slice(t.as_str(), q, n);
                let msg = concat2("unexpected trailing input: ", rest.as_str());
                CompiledExpr { ops, error: Some(ExprError(msg)) }
            } else {
                CompiledExpr { ops, error: None }
            }
        },
    }
}


/// How many values an operation takes from the evaluation stack.
pub open spec fn op_need(o: OpView) -> int {
    match o {
        OpView::Num(_) | OpView::Var(_) => 0,
        OpView::Neg => 1,
        OpView::Call(f) => arity(f) as int,
        _ => 2,
    }
}

/// How an operation changes the height of the evaluation stack.
pub open spec fn op_effect(o: OpView) -> int {
    match o {
        OpView::Num(_) | OpView::Var(_) => 1,
        OpView::Neg => 0,
        OpView::Call(f) => 1 - arity(f),
        _ => -1,
    }
}

/// Evaluating `ops` on a stack of height `d` never pops an empty stack.
pub open spec fn runs_from(ops: Seq<OpView>, d: int) -> bool
    decreases ops.len(),
{
    if ops.len() == 0 {
        true
    } else {
        d >= op_need(ops[0]) && runs_from(ops.drop_first(), d + op_effect(ops[0]))
    }
}

/// Net change of the stack height over `ops`.
pub open spec fn stack_effect(ops: Seq<OpView>) -> int
    decreases ops.len(),
{
    if ops.len() == 0 {
        0
    } else {
        op_effect(ops[0]) + stack_effect(ops.drop_first())
    }
}

proof fn lemma_runs_concat(a: Seq<OpView>, b: Seq<OpView>, d: int)
    requires
        runs_from(a, d),
        runs_from(b, d + stack_effect(a)),
    ensures
        runs_from(a + b, d),
        stack_effect(a + b) == stack_effect(a) + stack_effect(b),
    decreases a.len(),
{
    if a.len() == 0 {
        assert(a + b =~= b);
    } else {
        lemma_runs_concat(a.drop_first(), b, d + op_effect(a[0]));
        assert((a + b).drop_first() =~= a.drop_first() + b);
    }
}

proof fn lemma_runs_higher(ops: Seq<OpView>, d: int, d2: int)
    requires
        runs_from(ops, d),
        d <= d2,
    ensures
        runs_from(ops, d2),
    decreases ops.len(),
{
    if ops.len() > 0 {
        lemma_runs_higher(ops.drop_first(), d + op_effect(ops[0]), d2 + op_effect(ops[0]));
    }
}

proof fn lemma_single(o: OpView, d: int)
    requires
        d >= op_need(o),
    ensures
        runs_from(seq![o], d),
        stack_effect(seq![o]) == op_effect(o),
{
    let one = seq![o];
    assert(one.drop_first() =~= Seq::<OpView>::empty());
    assert(one[0] == o);
    assert(runs_from(one.drop_first(), d + op_effect(o)));
    assert(stack_effect(one.drop_first()) == 0);
}

/// A value: runs on any stack and leaves one more value.
pub open spec fn is_value(ops: Seq<OpView>) -> bool {
    runs_from(ops, 0) && stack_effect(ops) == 1
}

/// An operator tail: runs on a stack holding its left operand and leaves the height unchanged.
pub open spec fn is_tail(ops: Seq<OpView>) -> bool {
    runs_from(ops, 1) && stack_effect(ops) == 0
}

proof fn lemma_value_then_op(v: Seq<OpView>, o: OpView)
    requires
        is_value(v),
        op_need(o) == 2,
        op_effect(o) == -1,
    ensures
        runs_from(v.push(o), 1),
        stack_effect(v.push(o)) == 0,
{
    lemma_runs_higher(v, 0, 1);
    lemma_single(o, 2);
    lemma_runs_concat(v, seq![o], 1);
    assert(v + seq![o] =~= v.push(o));
}

proof fn lemma_number_value(s: Seq<char>, pos: int)
    ensures
        sp_number(s, pos) matches Step::Done { ops, pos: _ } ==> is_value(ops),
{
    let text = s.subrange(pos, number_end(s, pos));
    lemma_single(OpView::Num(text), 0);
}

proof fn lemma_finish_call_value(s: Seq<char>, name: Seq<char>, args: Seq<OpView>, count: nat, q: int)
    requires
        runs_from(args, 0),
        stack_effect(args) == count,
    ensures
        prepend(args, finish_call(s, name, count, q)) matches Step::Done { ops, pos: _ } ==> is_value(ops),
{
    if let Step::Done { ops, pos: _ } = finish_call(s, name, count, q) {
        let f = fn_of(name).unwrap();
        lemma_single(OpView::Call(f), count as int);
        lemma_runs_concat(args, ops, 0);
    }
}

proof fn lemma_expr_value(s: Seq<char>, pos: int, fuel: nat)
    ensures
        sp_expr(s, pos, fuel) matches Step::Done { ops, pos: _ } ==> is_value(ops),
    decreases fuel, 10int,
{
    if fuel > 0 {
        lemma_add_value(s, pos, (fuel - 1) as nat);
    }
}

proof fn lemma_add_value(s: Seq<char>, pos: int, fuel: nat)
    ensures
        sp_add(s, pos, fuel) matches Step::Done { ops, pos: _ } ==> is_value(ops),
    decreases fuel, 9int,
{
    if fuel > 0 {
        let f1 = (fuel - 1) as nat;
        lemma_mul_value(s, pos, f1);
        if let Step::Done { ops: m, pos: p } = sp_mul(s, pos, f1) {
            lemma_add_tail_tail(s, p, f1);
            if let Step::Done { ops: t, pos: _ } = sp_add_tail(s, p, f1) {
                lemma_runs_concat(m, t, 0);
            }
        }
    }
}

proof fn lemma_add_tail_tail(s: Seq<char>, pos: int, fuel: nat)
    ensures
        sp_add_tail(s, pos, fuel) matches Step::Done { ops, pos: _ } ==> is_tail(ops),
    decreases fuel, 9int,
{
    if fuel > 0 {
        let f1 = (fuel - 1) as nat;
        let q = ws(s, pos);
        if at(s, q, '+') || at(s, q, '-') {
            let op = if s[q] == '+' { OpView::Add } else { OpView::Sub };
            lemma_mul_value(s, q + 1, f1);
            if let Step::Done { ops: m, pos: p } = sp_mul(s, q + 1, f1) {
                lemma_value_then_op(m, op);
                lemma_add_tail_tail(s, p, f1);
                if let Step::Done { ops: t, pos: _ } = sp_add_tail(s, p, f1) {
                    lemma_runs_concat(m.push(op), t, 1);
                }
            }
        }
    }
}

proof fn lemma_mul_value(s: Seq<char>, pos: int, fuel: nat)
    ensures
        sp_mul(s, pos, fuel) matches Step::Done { ops, pos: _ } ==> is_value(ops),
    decreases fuel, 8int,
{
    if fuel > 0 {
        let f1 = (fuel - 1) as nat;
        lemma_pow_value(s, pos, f1);
        if let Step::Done { ops: m, pos: p } = sp_pow(s, pos, f1) {
            lemma_mul_tail_tail(s, p, f1);
            if let Step::Done { ops: t, pos: _ } = sp_mul_tail(s, p, f1) {
                lemma_runs_concat(m, t, 0);
            }
        }
    }
}

proof fn lemma_mul_tail_tail(s: Seq<char>, pos: int, fuel: nat)
    ensures
        sp_mul_tail(s, pos, fuel) matches Step::Done { ops, pos: _ } ==> is_tail(ops),
    decreases fuel, 8int,
{
    if fuel > 0 {
        let f1 = (fuel - 1) as nat;
        let q = ws(s, pos);
        if at(s, q, '*') || at(s, q, '/') || at(s, q, '%') {
            let op = if s[q] == '*' {
                OpView::Mul
            } else if s[q] == '/' {
                OpView::Div
            } else {
                OpView::Rem
            };
            lemma_pow_value(s, q + 1, f1);
            if let Step::Done { ops: m, pos: p } = sp_pow(s, q + 1, f1) {
                lemma_value_then_op(m, op);
                lemma_mul_tail_tail(s, p, f1);
                if let Step::Done { ops: t, pos: _ } = sp_mul_tail(s, p, f1) {
                    lemma_runs_concat(m.push(op), t, 1);
                }
            }
        }
    }
}

proof fn lemma_pow_value(s: Seq<char>, pos: int, fuel: nat)
    ensures
        sp_pow(s, pos, fuel) matches Step::Done { ops, pos: _ } ==> is_value(ops),
    decreases fuel, 7int,
{
    if fuel > 0 {
        let f1 = (fuel - 1) as nat;
        lemma_unary_value(s, pos, f1);
        if let Step::Done { ops: b, pos: p } = sp_unary(s, pos, f1) {
            let q = ws(s, p);
            if at(s, q, '^') {
                lemma_unary_value(s, q + 1, f1);
                if let Step::Done { ops: e, pos: _ } = sp_unary(s, q + 1, f1) {
                    lemma_runs_higher(e, 0, 1);
                    lemma_single(OpView::Pow, 2);
                    lemma_runs_concat(e, seq![OpView::Pow], 1);
                    assert(e + seq![OpView::Pow] =~= e.push(OpView::Pow));
                    lemma_runs_concat(b, e.push(OpView::Pow), 0);
                }
            }
        }
    }
}

proof fn lemma_unary_value(s: Seq<char>, pos: int, fuel: nat)
    ensures
        sp_unary(s, pos, fuel) matches Step::Done { ops, pos: _ } ==> is_value(ops),
    decreases fuel, 6int,
{
    if fuel > 0 {
        let f1 = (fuel - 1) as nat;
        let q = ws(s, pos);
        if at(s, q, '+') {
            lemma_unary_value(s, q + 1, f1);
        } else if at(s, q, '-') {
            lemma_unary_value(s, q + 1, f1);
            if let Step::Done { ops: v, pos: _ } = sp_unary(s, q + 1, f1) {
                lemma_single(OpView::Neg, 1);
                lemma_runs_concat(v, seq![OpView::Neg], 0);
                assert(v + seq![OpView::Neg] =~= v.push(OpView::Neg));
            }
        } else {
            lemma_primary_value(s, q, f1);
        }
    }
}

proof fn lemma_primary_value(s: Seq<char>, pos: int, fuel: nat)
    ensures
        sp_primary(s, pos, fuel) matches Step::Done { ops, pos: _ } ==> is_value(ops),
    decreases fuel, 5int,
{
    if fuel > 0 {
        let f1 = (fuel - 1) as nat;
        let q = ws(s, pos);
        if q < s.len() {
            if is_num_char(s[q]) {
                lemma_number_value(s, q);
            } else if s[q] == '(' {
                lemma_expr_value(s, q + 1, f1);
            } else if is_ident_start(s[q]) {
                let e = run_end(s, q + 1, ident_pred());
                let name = lower(s.subrange(q, e));
                let q2 = ws(s, e);
                if at(s, q2, '(') {
                    let q3 = ws(s, q2 + 1);
                    if at(s, q3, ')') {
                        lemma_finish_call_value(s, name, seq![], 0, q3);
                        assert(prepend(seq![], finish_call(s, name, 0, q3)) == finish_call(s, name, 0, q3)) by {
                            match finish_call(s, name, 0, q3) {
                                Step::Done { ops, pos } => {
                                    assert(Seq::<OpView>::empty() + ops =~= ops);
                                },
                                Step::Fail { ops, msg } => {
                                    assert(Seq::<OpView>::empty() + ops =~= ops);
                                },
                                Step::OutOfFuel => {},
                            }
                        }
                    } else {
                        lemma_args_values(s, q3, f1);
                        if let ArgsStep::Done { ops: a, pos: p, count } = sp_args(s, q3, f1) {
                            lemma_finish_call_value(s, name, a, count, p);
                        }
                    }
                } else if var_of(name) is Some {
                    lemma_single(OpView::Var(var_of(name).unwrap()), 0);
                }
            }
        }
    }
}

proof fn lemma_args_values(s: Seq<char>, pos: int, fuel: nat)
    ensures
        sp_args(s, pos, fuel) matches ArgsStep::Done { ops, pos: _, count } ==> runs_from(ops, 0)
            && stack_effect(ops) == count,
    decreases fuel, 11int,
{
    if fuel > 0 {
        let f1 = (fuel - 1) as nat;
        lemma_expr_value(s, pos, f1);
        if let Step::Done { ops: v, pos: p } = sp_expr(s, pos, f1) {
            let q = ws(s, p);
            if at(s, q, ',') {
                lemma_args_values(s, q + 1, f1);
                if let ArgsStep::Done { ops: rest, pos: _, count: _ } = sp_args(s, q + 1, f1) {
                    lemma_runs_higher(rest, 0, 1);
                    lemma_runs_concat(v, rest, 0);
                }
            }
        }
    }
}

} // verus!
