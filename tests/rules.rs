use minilang::ast::LazyOperatorKind;
use minilang::ir::{CastKind, Expression, Literal, Statement, TypedExpression, Value};
use minilang::lowering::{as_lvalue, as_rvalue, cast_kind, lower_lazy, lower_while};
use minilang::ty::{Type, TypeId, TypeTable, BOOLEAN_INDEX, INT_INDEX};

fn type_handle(index: usize) -> TypeId {
    TypeId { index }
}

fn lit(n: i64) -> TypedExpression {
    TypedExpression { ty: type_handle(INT_INDEX), expr: Expression::Value(Value::Literal(Literal::IntLiteral(n))) }
}

fn is_bool_literal(e: &TypedExpression, b: bool) -> bool {
    e.ty == type_handle(BOOLEAN_INDEX)
        && matches!(e.expr, Expression::Value(Value::Literal(Literal::BooleanLiteral(x))) if x == b)
}

#[test]
fn cast_table_allows_the_listed_casts_only() {
    let p = Type::Pointer(type_handle(INT_INDEX));
    assert_eq!(cast_kind(&Type::Int, &Type::Double, type_handle(2)), Some(CastKind::IntToDouble));
    assert_eq!(cast_kind(&Type::Double, &Type::Int, type_handle(1)), Some(CastKind::DoubleToInt));
    assert_eq!(cast_kind(&Type::Boolean, &Type::Int, type_handle(1)), Some(CastKind::BooleanToInt));
    assert_eq!(cast_kind(&Type::Int, &Type::Boolean, type_handle(3)), Some(CastKind::IntToBoolean));
    assert_eq!(cast_kind(&p, &Type::Int, type_handle(1)), Some(CastKind::PtrToInt));
    assert_eq!(cast_kind(&Type::Int, &p, type_handle(9)), Some(CastKind::IntToPtr(type_handle(9))));
    assert_eq!(cast_kind(&Type::Double, &Type::Boolean, type_handle(3)), None);
    assert_eq!(cast_kind(&p, &p, type_handle(5)), None);
    assert_eq!(cast_kind(&Type::String, &Type::Int, type_handle(1)), None);
}

#[test]
fn logical_and_lowers_to_ternary_with_false() {
    let e = lower_lazy(LazyOperatorKind::LogicalAnd, lit(1), lit(2));
    assert_eq!(e.ty, type_handle(BOOLEAN_INDEX));
    match e.expr {
        Expression::Ternary { condition, true_expr, false_expr } => {
            assert!(matches!(condition.expr, Expression::Value(Value::Literal(Literal::IntLiteral(1)))));
            assert!(matches!(true_expr.expr, Expression::Value(Value::Literal(Literal::IntLiteral(2)))));
            assert!(is_bool_literal(&false_expr, false));
        },
        other => panic!("{:?}", other),
    }
}

#[test]
fn logical_or_lowers_to_ternary_with_true() {
    let e = lower_lazy(LazyOperatorKind::LogicalOr, lit(1), lit(2));
    match e.expr {
        Expression::Ternary { condition, true_expr, false_expr } => {
            assert!(matches!(condition.expr, Expression::Value(Value::Literal(Literal::IntLiteral(1)))));
            assert!(is_bool_literal(&true_expr, true));
            assert!(matches!(false_expr.expr, Expression::Value(Value::Literal(Literal::IntLiteral(2)))));
        },
        other => panic!("{:?}", other),
    }
}

#[test]
fn while_becomes_for_without_init_or_step() {
    let s = lower_while(lit(1), vec![Statement::Break]);
    match s {
        Statement::For { init, condition, step, body } => {
            assert!(matches!(*init, Statement::Block(ref b) if b.is_empty()));
            assert!(matches!(condition.expr, Expression::Value(Value::Literal(Literal::IntLiteral(1)))));
            assert!(step.is_none());
            assert!(matches!(body[..], [Statement::Break]));
        },
        other => panic!("{:?}", other),
    }
}

#[test]
fn places_are_read_and_values_are_stored() {
    let mut table = TypeTable::new();
    let place_ty = table.intern(Type::LValue(type_handle(INT_INDEX), true));
    let place = TypedExpression { ty: place_ty, expr: Expression::Value(Value::Local(minilang::ir::IdentifierId { index: 0 })) };
    let read = as_rvalue(place, &table);
    assert_eq!(read.ty, type_handle(INT_INDEX));
    assert!(matches!(read.expr, Expression::LValueToRValue(_)));
    let value = as_rvalue(lit(3), &table);
    assert!(matches!(value.expr, Expression::Value(_)));

    let stored = as_lvalue(lit(4), &mut table);
    assert!(matches!(stored.expr, Expression::RValueToLValue(_)));
    assert!(matches!(table.get(stored.ty), Type::LValue(t, false) if *t == type_handle(INT_INDEX)));
    let again = TypedExpression { ty: place_ty, expr: Expression::Value(Value::Local(minilang::ir::IdentifierId { index: 1 })) };
    let kept = as_lvalue(again, &mut table);
    assert_eq!(kept.ty, place_ty);
    assert!(matches!(kept.expr, Expression::Value(Value::Local(_))));
}
