use vstd::prelude::*;

use crate::ast;
use crate::ir;
use crate::ty::{Type, TypeShape};
use crate::ast::BinaryOperatorKind as B;
use crate::ast::UnaryOperatorKind as U;
use crate::ir::BinaryOperatorKind as K;
use crate::ir::UnaryOperatorKind as UK;

verus! {

/// The operator table: for a source operator and the types of its two operands, the
/// type of the result and the monomorphic operator that computes it.
pub open spec fn binop_table(op: ast::BinaryOperatorKind, l: TypeShape, r: TypeShape) -> Option<
    (TypeShape, ir::BinaryOperatorKind),
> {
    match (op, l, r) {
        (B::Plus, TypeShape::Int, TypeShape::Int) => Some((TypeShape::Int, K::IntPlus)),
        (B::Plus, TypeShape::Double, TypeShape::Double) => Some((TypeShape::Double, K::DoublePlus)),
        (B::Plus, TypeShape::Pointer(t), TypeShape::Int) => Some(
            (TypeShape::Pointer(t), K::PtrPlusOffset),
        ),
        (B::Minus, TypeShape::Int, TypeShape::Int) => Some((TypeShape::Int, K::IntMinus)),
        (B::Minus, TypeShape::Double, TypeShape::Double) => Some(
            (TypeShape::Double, K::DoubleMinus),
        ),
        (B::Minus, TypeShape::Pointer(t), TypeShape::Int) => Some(
            (TypeShape::Pointer(t), K::PtrMinusOffset),
        ),
        (B::Minus, TypeShape::Pointer(t), TypeShape::Pointer(u)) => if t == u {
            Some((TypeShape::Int, K::PtrDiff))
        } else {
            None
        },
        (B::Multiply, TypeShape::Int, TypeShape::Int) => Some((TypeShape::Int, K::IntMultiply)),
        (B::Multiply, TypeShape::Double, TypeShape::Double) => Some(
            (TypeShape::Double, K::DoubleMultiply),
        ),
        (B::Divide, TypeShape::Int, TypeShape::Int) => Some((TypeShape::Int, K::IntDivide)),
        (B::Divide, TypeShape::Double, TypeShape::Double) => Some(
            (TypeShape::Double, K::DoubleDivide),
        ),
        (B::Modulo, TypeShape::Int, TypeShape::Int) => Some((TypeShape::Int, K::IntModulo)),
        (B::Equal, TypeShape::Int, TypeShape::Int) => Some((TypeShape::Boolean, K::IntEqual)),
        (B::Equal, TypeShape::Double, TypeShape::Double) => Some(
            (TypeShape::Boolean, K::DoubleEqual),
        ),
        (B::Equal, TypeShape::Boolean, TypeShape::Boolean) => Some(
            (TypeShape::Boolean, K::BooleanEqual),
        ),
        (B::Equal, TypeShape::Pointer(_), TypeShape::Int) => Some(
            (TypeShape::Boolean, K::PtrEqual),
        ),
        (B::Equal, TypeShape::Pointer(t), TypeShape::Pointer(u)) => if t == u {
            Some((TypeShape::Boolean, K::PtrEqual))
        } else {
            None
        },
        (B::NotEqual, TypeShape::Int, TypeShape::Int) => Some(
            (TypeShape::Boolean, K::IntNotEqual),
        ),
        (B::NotEqual, TypeShape::Double, TypeShape::Double) => Some(
            (TypeShape::Boolean, K::DoubleNotEqual),
        ),
        (B::NotEqual, TypeShape::Boolean, TypeShape::Boolean) => Some(
            (TypeShape::Boolean, K::BooleanNotEqual),
        ),
        (B::NotEqual, TypeShape::Pointer(_), TypeShape::Int) => Some(
            (TypeShape::Boolean, K::PtrNotEqual),
        ),
        (B::NotEqual, TypeShape::Pointer(t), TypeShape::Pointer(u)) => if t == u {
            Some((TypeShape::Boolean, K::PtrNotEqual))
        } else {
            None
        },
        (B::Less, TypeShape::Int, TypeShape::Int) => Some((TypeShape::Boolean, K::IntLess)),
        (B::Less, TypeShape::Double, TypeShape::Double) => Some(
            (TypeShape::Boolean, K::DoubleLess),
        ),
        (B::LessEqual, TypeShape::Int, TypeShape::Int) => Some(
            (TypeShape::Boolean, K::IntLessEqual),
        ),
        (B::LessEqual, TypeShape::Double, TypeShape::Double) => Some(
            (TypeShape::Boolean, K::DoubleLessEqual),
        ),
        (B::Greater, TypeShape::Int, TypeShape::Int) => Some((TypeShape::Boolean, K::IntGreater)),
        (B::Greater, TypeShape::Double, TypeShape::Double) => Some(
            (TypeShape::Boolean, K::DoubleGreater),
        ),
        (B::GreaterEqual, TypeShape::Int, TypeShape::Int) => Some(
            (TypeShape::Boolean, K::IntGreaterEqual),
        ),
        (B::GreaterEqual, TypeShape::Double, TypeShape::Double) => Some(
            (TypeShape::Boolean, K::DoubleGreaterEqual),
        ),
        _ => None,
    }
}

/// The unary operator table; `*` on a pointer yields a mutable place of the pointee.
pub open spec fn unop_table(op: ast::UnaryOperatorKind, t: TypeShape) -> Option<
    (TypeShape, ir::UnaryOperatorKind),
> {
    match (op, t) {
        (U::Minus, TypeShape::Int) => Some((TypeShape::Int, UK::IntMinus)),
        (U::Minus, TypeShape::Double) => Some((TypeShape::Double, UK::DoubleMinus)),
        (U::LogicalNot, TypeShape::Boolean) => Some((TypeShape::Boolean, UK::BooleanNot)),
        (U::PtrDeref, TypeShape::Pointer(p)) => Some((TypeShape::LValue(p, true), UK::PointerDeref)),
        _ => None,
    }
}

/// What `r` says of a table lookup: nothing found, or this type and operator.
pub open spec fn selection_matches<K>(
    r: Option<(Type, K)>,
    expected: Option<(TypeShape, K)>,
) -> bool {
    match r {
        None => expected is None,
        Some((t, k)) => expected == Some((t@, k)),
    }
}

/// Type-checks a binary operator and picks the monomorphic operator for it.
pub fn binop_typeck(binop: ast::BinaryOperatorKind, lhs: &Type, rhs: &Type) -> (r: Option<
    (Type, ir::BinaryOperatorKind),
>)
    ensures
        selection_matches(r, binop_table(binop, lhs@, rhs@)),
{
    match (binop, lhs, rhs) {
        (B::Plus, Type::Int, Type::Int) => Some((Type::Int, K::IntPlus)),
        (B::Plus, Type::Double, Type::Double) => Some((Type::Double, K::DoublePlus)),
        (B::Plus, Type::Pointer(t), Type::Int) => Some((Type::Pointer(*t), K::PtrPlusOffset)),
        (B::Minus, Type::Int, Type::Int) => Some((Type::Int, K::IntMinus)),
        (B::Minus, Type::Double, Type::Double) => Some((Type::Double, K::DoubleMinus)),
        (B::Minus, Type::Pointer(t), Type::Int) => Some((Type::Pointer(*t), K::PtrMinusOffset)),
        (B::Minus, Type::Pointer(t), Type::Pointer(u)) => {
            if *t == *u {
                Some((Type::Int, K::PtrDiff))
            } else {
                None
            }
        },
        (B::Multiply, Type::Int, Type::Int) => Some((Type::Int, K::IntMultiply)),
        (B::Multiply, Type::Double, Type::Double) => Some((Type::Double, K::DoubleMultiply)),
        (B::Divide, Type::Int, Type::Int) => Some((Type::Int, K::IntDivide)),
        (B::Divide, Type::Double, Type::Double) => Some((Type::Double, K::DoubleDivide)),
        (B::Modulo, Type::Int, Type::Int) => Some((Type::Int, K::IntModulo)),
        (B::Equal, Type::Int, Type::Int) => Some((Type::Boolean, K::IntEqual)),
        (B::Equal, Type::Double, Type::Double) => Some((Type::Boolean, K::DoubleEqual)),
        (B::Equal, Type::Boolean, Type::Boolean) => Some((Type::Boolean, K::BooleanEqual)),
        (B::Equal, Type::Pointer(_), Type::Int) => Some((Type::Boolean, K::PtrEqual)),
        (B::Equal, Type::Pointer(t), Type::Pointer(u)) => {
            if *t == *u {
                Some((Type::Boolean, K::PtrEqual))
            } else {
                None
            }
        },
        (B::NotEqual, Type::Int, Type::Int) => Some((Type::Boolean, K::IntNotEqual)),
        (B::NotEqual, Type::Double, Type::Double) => Some((Type::Boolean, K::DoubleNotEqual)),
        (B::NotEqual, Type::Boolean, Type::Boolean) => Some((Type::Boolean, K::BooleanNotEqual)),
        (B::NotEqual, Type::Pointer(_), Type::Int) => Some((Type::Boolean, K::PtrNotEqual)),
        (B::NotEqual, Type::Pointer(t), Type::Pointer(u)) => {
            if *t == *u {
                Some((Type::Boolean, K::PtrNotEqual))
            } else {
                None
            }
        },
        (B::Less, Type::Int, Type::Int) => Some((Type::Boolean, K::IntLess)),
        (B::Less, Type::Double, Type::Double) => Some((Type::Boolean, K::DoubleLess)),
        (B::LessEqual, Type::Int, Type::Int) => Some((Type::Boolean, K::IntLessEqual)),
        (B::LessEqual, Type::Double, Type::Double) => Some((Type::Boolean, K::DoubleLessEqual)),
        (B::Greater, Type::Int, Type::Int) => Some((Type::Boolean, K::IntGreater)),
        (B::Greater, Type::Double, Type::Double) => Some((Type::Boolean, K::DoubleGreater)),
        (B::GreaterEqual, Type::Int, Type::Int) => Some((Type::Boolean, K::IntGreaterEqual)),
        (B::GreaterEqual, Type::Double, Type::Double) => Some(
            (Type::Boolean, K::DoubleGreaterEqual),
        ),
        _ => None,
    }
}

/// Type-checks a unary operator and picks the monomorphic operator for it.
pub fn unop_typeck(unop: ast::UnaryOperatorKind, sub: &Type) -> (r: Option<
    (Type, ir::UnaryOperatorKind),
>)
    ensures
        selection_matches(r, unop_table(unop, sub@)),
{
    match (unop, sub) {
        (U::Minus, Type::Int) => Some((Type::Int, UK::IntMinus)),
        (U::Minus, Type::Double) => Some((Type::Double, UK::DoubleMinus)),
        (U::LogicalNot, Type::Boolean) => Some((Type::Boolean, UK::BooleanNot)),
        (U::PtrDeref, Type::Pointer(p)) => Some((Type::LValue(*p, true), UK::PointerDeref)),
        _ => None,
    }
}


/// Whether `op` accepts operands of types `l` and `r`: numbers of one kind for
/// arithmetic and ordering (integers only for `%`), an integer offset on the right of a
/// pointer for `+` and `-`, two pointers to one type for `-`, and any pair of one
/// scalar kind, or a pointer and an integer, for `==` and `!=`.
pub open spec fn operands_accepted(op: ast::BinaryOperatorKind, l: TypeShape, r: TypeShape) -> bool {
    let arith = (l is Int && r is Int) || (l is Double && r is Double);
    let ptr_offset = l is Pointer && r is Int;
    let same_ptr = l is Pointer && r == l;
    match op {
        B::Plus => arith || ptr_offset,
        B::Minus => arith || ptr_offset || same_ptr,
        B::Multiply | B::Divide => arith,
        B::Modulo => l is Int && r is Int,
        B::Equal | B::NotEqual => arith || (l is Boolean && r is Boolean) || ptr_offset || same_ptr,
        B::Less | B::LessEqual | B::Greater | B::GreaterEqual => arith,
    }
}

/// The typing of each monomorphic operator: the operand types it takes and the type
/// `t` of its result.
pub open spec fn binop_signature(
    k: ir::BinaryOperatorKind,
    l: TypeShape,
    r: TypeShape,
    t: TypeShape,
) -> bool {
    match k {
        K::IntPlus | K::IntMinus | K::IntMultiply | K::IntDivide | K::IntModulo => l is Int
            && r is Int && t is Int,
        K::DoublePlus | K::DoubleMinus | K::DoubleMultiply | K::DoubleDivide => l is Double
            && r is Double && t is Double,
        K::IntEqual | K::IntNotEqual | K::IntLess | K::IntLessEqual | K::IntGreater
        | K::IntGreaterEqual => l is Int && r is Int && t is Boolean,
        K::DoubleEqual | K::DoubleNotEqual | K::DoubleLess | K::DoubleLessEqual
        | K::DoubleGreater | K::DoubleGreaterEqual => l is Double && r is Double && t is Boolean,
        K::BooleanEqual | K::BooleanNotEqual => l is Boolean && r is Boolean && t is Boolean,
        K::PtrPlusOffset | K::PtrMinusOffset => l is Pointer && r is Int && t == l,
        K::PtrDiff => l is Pointer && r == l && t is Int,
        K::PtrEqual | K::PtrNotEqual => l is Pointer && (r == l || r is Int) && t is Boolean,
    }
}

/// The source operator that each monomorphic operator implements.
pub open spec fn binop_source(k: ir::BinaryOperatorKind) -> ast::BinaryOperatorKind {
    match k {
        K::IntPlus | K::DoublePlus | K::PtrPlusOffset => B::Plus,
        K::IntMinus | K::DoubleMinus | K::PtrMinusOffset | K::PtrDiff => B::Minus,
        K::IntMultiply | K::DoubleMultiply => B::Multiply,
        K::IntDivide | K::DoubleDivide => B::Divide,
        K::IntModulo => B::Modulo,
        K::IntEqual | K::DoubleEqual | K::BooleanEqual | K::PtrEqual => B::Equal,
        K::IntNotEqual | K::DoubleNotEqual | K::BooleanNotEqual | K::PtrNotEqual => B::NotEqual,
        K::IntLess | K::DoubleLess => B::Less,
        K::IntLessEqual | K::DoubleLessEqual => B::LessEqual,
        K::IntGreater | K::DoubleGreater => B::Greater,
        K::IntGreaterEqual | K::DoubleGreaterEqual => B::GreaterEqual,
    }
}

/// Whether a type can be the type of a value: neither a place tag nor incomplete.
pub open spec fn is_value_shape(t: TypeShape) -> bool {
    !(t is LValue) && !(t is Incomplete)
}

/// Operator selection is total on the operand pairs that an operator accepts and
/// finds nothing on every other pair; what it selects implements that operator,
/// takes exactly those operand types, and yields a value type.
pub proof fn operator_selection_law(op: ast::BinaryOperatorKind, l: TypeShape, r: TypeShape)
    ensures
        binop_table(op, l, r) is Some <==> operands_accepted(op, l, r),
        binop_table(op, l, r) is Some ==> ({
            let (t, k) = binop_table(op, l, r)->0;
            &&& binop_signature(k, l, r, t)
            &&& binop_source(k) == op
            &&& is_value_shape(t)
        }),
{
}

/// Unary selection yields a value type for `-` and `!`, and a place of the pointee
/// for `*`; it finds nothing on every other operand type.
pub proof fn unary_selection_law(op: ast::UnaryOperatorKind, t: TypeShape)
    ensures
        unop_table(op, t) is Some <==> (match op {
            U::Minus => t is Int || t is Double,
            U::LogicalNot => t is Boolean,
            U::PtrDeref => t is Pointer,
        }),
        unop_table(op, t) is Some && op != U::PtrDeref ==> (unop_table(op, t)->0).0 == t,
        unop_table(op, t) is Some && op == U::PtrDeref ==> (unop_table(op, t)->0).0
            == TypeShape::LValue(t->Pointer_0, true),
{
}

} // verus!
