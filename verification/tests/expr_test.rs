use mini_zinc::op::conf::ExprConf;
use mini_zinc::op::expr::{Expr, ExprError, ExprOp};

#[test]
fn test_expr_parse() -> Result<(), ExprError> {
    let expr = Expr::parse("@0")?;
    assert!(matches!(expr.op, ExprOp::Input(0)));
    assert!(expr.children.is_empty());

    let expr = Expr::parse("1.000000")?;
    assert!(matches!(&expr.op, ExprOp::Constant(s) if s.parse::<f32>().unwrap() == 1.0));
    assert!(expr.children.is_empty());

    let expr = Expr::parse("add(@0,@1)")?;
    assert!(matches!(expr.op, ExprOp::Add));
    assert_eq!(expr.children.len(), 2);

    let expr = Expr::parse("mul(@0,@1)")?;
    assert!(matches!(expr.op, ExprOp::Mul));
    assert_eq!(expr.children.len(), 2);

    let expr = Expr::parse("sub(@0,@1)")?;
    assert!(matches!(expr.op, ExprOp::Sub));
    assert_eq!(expr.children.len(), 2);

    let expr = Expr::parse("add(mul(@0,@1),add(@2,@3))")?;
    assert!(matches!(expr.op, ExprOp::Add));
    assert_eq!(expr.children.len(), 2);

    let expr = Expr::parse("sub(1.000000,@0)")?;
    assert!(matches!(expr.op, ExprOp::Sub));
    assert_eq!(expr.children.len(), 2);
    if let ExprOp::Constant(val) = &expr.children[0].op {
        assert_eq!(val.parse::<f32>().unwrap(), 1.0);
    } else {
        panic!("Expected constant");
    }

    Ok(())
}

#[test]
fn test_expr_parse_error() {
    assert!(Expr::parse("@").is_err());
    assert!(Expr::parse("@a").is_err());

    assert!(Expr::parse("add(@0,@1").is_err());
    assert!(Expr::parse("add(@0,,@1)").is_err());
    assert!(Expr::parse("sub(@0,@1").is_err());
}

#[test]
fn expr_numbers_and_nesting() {
    let e = Expr::parse("neg(-2.5e+3)").unwrap();
    assert!(matches!(e.op, ExprOp::Neg));
    assert_eq!(e.children.len(), 1);
    assert_eq!(e.children[0].op, ExprOp::Constant("-2.5e+3".to_string()));
    assert_eq!(Expr::parse("1e").unwrap_err(), ExprError::BadNumber);
    assert_eq!(Expr::parse("add(@0,1E)").unwrap_err(), ExprError::BadNumber);
    assert_eq!(Expr::parse("pow(@0)").unwrap_err(), ExprError::NoMatch);
    let e = Expr::parse("add()").unwrap();
    assert!(e.children.is_empty());
    let e = Expr::parse(".5").unwrap();
    assert_eq!(e.op, ExprOp::Constant(".5".to_string()));
    let e = Expr::parse("@12trailing").unwrap();
    assert_eq!(e.op, ExprOp::Input(12));
}

#[test]
fn expr_conf_makes_layer() {
    let layer = ExprConf { expr: "mul(@0,@1)".to_string() }.to_layer().unwrap();
    assert!(matches!(layer.ast.op, ExprOp::Mul));
    assert!(ExprConf { expr: "mul(@0".to_string() }.to_layer().is_err());
}
