use vadadee_doc::expr::{compile_expr, ExprError, ExprFn, ExprOp, ExprVar};

fn num(s: &str) -> ExprOp {
    ExprOp::Num(s.to_string())
}

fn ok_ops(src: &str) -> Vec<ExprOp> {
    let c = compile_expr(src);
    assert_eq!(c.error, None, "{src}");
    c.ops
}

fn err_of(src: &str) -> (Vec<ExprOp>, String) {
    let c = compile_expr(src);
    match c.error {
        Some(ExprError(m)) => (c.ops, m),
        None => panic!("expected an error for {src}"),
    }
}

#[test]
fn precedence_of_operators() {
    assert_eq!(ok_ops("1+2*3"), vec![num("1"), num("2"), num("3"), ExprOp::Mul, ExprOp::Add]);
    assert_eq!(ok_ops("t*100"), vec![ExprOp::Var(ExprVar::T), num("100"), ExprOp::Mul]);
    assert_eq!(ok_ops("100+20*t"), vec![num("100"), num("20"), ExprOp::Var(ExprVar::T), ExprOp::Mul, ExprOp::Add]);
    assert_eq!(ok_ops("1-2-3"), vec![num("1"), num("2"), ExprOp::Sub, num("3"), ExprOp::Sub]);
    assert_eq!(ok_ops("(-1) % 5"), vec![num("1"), ExprOp::Neg, num("5"), ExprOp::Rem]);
    assert_eq!(ok_ops("-2^2"), vec![num("2"), ExprOp::Neg, num("2"), ExprOp::Pow]);
    assert_eq!(ok_ops("8/2/2"), vec![num("8"), num("2"), ExprOp::Div, num("2"), ExprOp::Div]);
}

#[test]
fn functions_and_variables() {
    assert_eq!(ok_ops("sin(0)"), vec![num("0"), ExprOp::Call(ExprFn::Sin)]);
    assert_eq!(ok_ops("abs(-3)"), vec![num("3"), ExprOp::Neg, ExprOp::Call(ExprFn::Abs)]);
    assert_eq!(ok_ops("mod(7, 5)"), vec![num("7"), num("5"), ExprOp::Call(ExprFn::Mod)]);
    assert_eq!(ok_ops("mod(-1, 5)"), vec![num("1"), ExprOp::Neg, num("5"), ExprOp::Call(ExprFn::Mod)]);
    assert_eq!(ok_ops("SIN(Pi)"), vec![ExprOp::Var(ExprVar::Pi), ExprOp::Call(ExprFn::Sin)]);
    assert_eq!(ok_ops("  x + y  "), vec![ExprOp::Var(ExprVar::X), ExprOp::Var(ExprVar::Y), ExprOp::Add]);
    assert_eq!(ok_ops("frame"), vec![ExprOp::Var(ExprVar::F)]);
    assert_eq!(ok_ops("start"), vec![ExprOp::Var(ExprVar::S)]);
    assert_eq!(ok_ops("1e3"), vec![num("1e3")]);
    assert_eq!(ok_ops(".5"), vec![num(".5")]);
    assert_eq!(ok_ops("max(1, min(2, 3))"), vec![num("1"), num("2"), num("3"), ExprOp::Call(ExprFn::Min), ExprOp::Call(ExprFn::Max)]);
}

#[test]
fn compile_errors() {
    assert_eq!(err_of(""), (vec![], "empty expression".to_string()));
    assert_eq!(err_of("   "), (vec![], "empty expression".to_string()));
    assert_eq!(err_of("1 2"), (vec![num("1")], "unexpected trailing input: 2".to_string()));
    assert_eq!(err_of("foo"), (vec![], "unknown variable 'foo' (t,f,s,x,y,r,g,b,a)".to_string()));
    assert_eq!(err_of("bar(1)"), (vec![num("1")], "unknown function 'bar'".to_string()));
    assert_eq!(err_of("sin(1, 2)"), (vec![num("1"), num("2")], "sin() expects 1 arg(s), got 2".to_string()));
    assert_eq!(err_of("pow()"), (vec![], "pow() expects 2 arg(s), got 0".to_string()));
    assert_eq!(err_of("(1"), (vec![num("1")], "expected ')'".to_string()));
    assert_eq!(err_of("min(1, 2"), (vec![num("1"), num("2")], "expected ')' after function args".to_string()));
    assert_eq!(err_of("1+"), (vec![num("1")], "unexpected end of expression".to_string()));
    assert_eq!(err_of("1.2.3"), (vec![], "invalid number '1.2.3'".to_string()));
    assert_eq!(err_of("#"), (vec![], "unexpected character '#'".to_string()));
}
