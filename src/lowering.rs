use vstd::prelude::*;

use crate::ast::LazyOperatorKind;
use crate::ir::{CastKind, Expression, Literal, Statement, TypedExpression, Value};
use crate::ty::{Type, TypeId, TypeShape, TypeTable, BOOLEAN_INDEX};

verus! {

/// The casts that `as` allows, by source and target type; any other is an invalid
/// cast.
pub open spec fn cast_table(from: TypeShape, to: TypeShape, to_id: TypeId) -> Option<CastKind> {
    match (from, to) {
        (TypeShape::Int, TypeShape::Double) => Some(CastKind::IntToDouble),
        (TypeShape::Double, TypeShape::Int) => Some(CastKind::DoubleToInt),
        (TypeShape::Boolean, TypeShape::Int) => Some(CastKind::BooleanToInt),
        (TypeShape::Int, TypeShape::Boolean) => Some(CastKind::IntToBoolean),
        (TypeShape::Pointer(_), TypeShape::Int) => Some(CastKind::PtrToInt),
        (TypeShape::Int, TypeShape::Pointer(_)) => Some(CastKind::IntToPtr(to_id)),
        _ => None,
    }
}

/// The kind of the cast `from as to`, where `to_id` is the handle of `to`.
pub fn cast_kind(from: &Type, to: &Type, to_id: TypeId) -> (r: Option<CastKind>)
    ensures
        r == cast_table(from@, to@, to_id),
{
    match (from, to) {
        (Type::Int, Type::Double) => Some(CastKind::IntToDouble),
        (Type::Double, Type::Int) => Some(CastKind::DoubleToInt),
        (Type::Boolean, Type::Int) => Some(CastKind::BooleanToInt),
        (Type::Int, Type::Boolean) => Some(CastKind::IntToBoolean),
        (Type::Pointer(_), Type::Int) => Some(CastKind::PtrToInt),
        (Type::Int, Type::Pointer(_)) => Some(CastKind::IntToPtr(to_id)),
        _ => None,
    }
}

/// The boolean constant `b`.
pub open spec fn bool_constant(b: bool) -> TypedExpression {
    TypedExpression {
        ty: TypeId { index: BOOLEAN_INDEX },
        expr: Expression::Value(Value::Literal(Literal::BooleanLiteral(b))),
    }
}

fn make_bool_constant(b: bool) -> (r: TypedExpression)
    ensures
        r == bool_constant(b),
{
    TypedExpression {
        ty: TypeId { index: BOOLEAN_INDEX },
        expr: Expression::Value(Value::Literal(Literal::BooleanLiteral(b))),
    }
}

/// `a && b` becomes `a ? b : false`, and `a || b` becomes `a ? true : b`: the right
/// operand runs only when the left one does not decide.
pub fn lower_lazy(op: LazyOperatorKind, lhs: TypedExpression, rhs: TypedExpression) -> (r:
    TypedExpression)
    ensures
        r.ty == (TypeId { index: BOOLEAN_INDEX }),
        op == LazyOperatorKind::LogicalAnd ==> r.expr == (Expression::Ternary {
            condition: Box::new(lhs),
            true_expr: Box::new(rhs),
            false_expr: Box::new(bool_constant(false)),
        }),
        op == LazyOperatorKind::LogicalOr ==> r.expr == (Expression::Ternary {
            condition: Box::new(lhs),
            true_expr: Box::new(bool_constant(true)),
            false_expr: Box::new(rhs),
        }),
{
    let expr = match op {
        LazyOperatorKind::LogicalAnd => Expression::Ternary {
            condition: Box::new(lhs),
            true_expr: Box::new(rhs),
            false_expr: Box::new(make_bool_constant(false)),
        },
        LazyOperatorKind::LogicalOr => Expression::Ternary {
            condition: Box::new(lhs),
            true_expr: Box::new(make_bool_constant(true)),
            false_expr: Box::new(rhs),
        },
    };
    TypedExpression { ty: TypeId { index: BOOLEAN_INDEX }, expr }
}

/// `while (c) b` becomes `for (; c;) b`.
pub fn lower_while(condition: TypedExpression, body: Vec<Statement>) -> (r: Statement)
    ensures
        r is For,
        r->For_condition == condition,
        r->For_body == body,
        r->For_step is None,
        *r->For_init is Block && r->For_init->Block_0@.len() == 0,
{
    Statement::For {
        init: Box::new(Statement::Block(Vec::new())),
        condition,
        step: None,
        body,
    }
}

/// An operand used as a value: a place is read, a value is taken as it is.
pub fn as_rvalue(e: TypedExpression, table: &TypeTable) -> (r: TypedExpression)
    requires
        table.valid_id(e.ty),
    ensures
        table.shape(e.ty) is LValue ==> r == (TypedExpression {
            ty: table.shape(e.ty)->LValue_0,
            expr: Expression::LValueToRValue(Box::new(e)),
        }),
        !(table.shape(e.ty) is LValue) ==> r == e,
{
    match table.get(e.ty) {
        Type::LValue(t, _) => {
            let t = *t;
            TypedExpression { ty: t, expr: Expression::LValueToRValue(Box::new(e)) }
        },
        _ => e,
    }
}

/// An operand used as a place: a place is taken as it is, a value is stored in a
/// temporary, which is a place that cannot be assigned.
pub fn as_lvalue(e: TypedExpression, table: &mut TypeTable) -> (r: TypedExpression)
    requires
        old(table).wf(),
        old(table).valid_id(e.ty),
    ensures
        final(table).wf(),
        old(table).shape(e.ty) is LValue ==> r == e && final(table).shapes() == old(
            table,
        ).shapes(),
        !(old(table).shape(e.ty) is LValue) ==> r.expr == Expression::RValueToLValue(Box::new(e))
            && final(table).valid_id(r.ty) && final(table).shape(r.ty) == TypeShape::LValue(
            e.ty,
            false,
        ),
{
    let is_place = match table.get(e.ty) {
        Type::LValue(_, _) => true,
        _ => false,
    };
    if is_place {
        return e;
    }
    let ty = table.intern(Type::LValue(e.ty, false));
    TypedExpression { ty, expr: Expression::RValueToLValue(Box::new(e)) }
}

} // verus!
