use vstd::prelude::*;

use crate::span::Span;
use crate::ty::{FunctionType, TypeId};

verus! {

/// A local variable or parameter of one function.
#[derive(Debug, Clone, Copy, PartialEq, Eq, Hash, Structural)]
pub struct IdentifierId {
    pub index: usize,
}

/// A handle to a string kept in a string `Interner`.
#[derive(Debug, Clone, Copy, PartialEq, Eq, Hash, Structural)]
pub struct InternerId {
    pub index: usize,
}

/// A literal value. A double literal keeps its decimal text; it is read as an
/// IEEE-754 binary64 value where machine code is produced.
#[derive(Debug)]
pub enum Literal {
    IntLiteral(i64),
    DoubleLiteral(String),
    BooleanLiteral(bool),
    StringLiteral(InternerId),
}

#[derive(Debug)]
pub enum Value {
    Literal(Literal),
    Local(IdentifierId),
    Global(String),
}

#[derive(Debug, Clone, Copy, PartialEq, Eq, Structural)]
pub enum CastKind {
    IntToDouble,
    DoubleToInt,
    BooleanToInt,
    IntToBoolean,
    PtrToInt,
    IntToPtr(TypeId),
}

/// A binary operator whose operand types are fixed.
#[derive(Debug, Clone, Copy, PartialEq, Eq, Structural)]
pub enum BinaryOperatorKind {
    IntPlus,
    DoublePlus,
    IntMinus,
    DoubleMinus,
    IntMultiply,
    DoubleMultiply,
    IntDivide,
    DoubleDivide,
    IntModulo,
    IntEqual,
    DoubleEqual,
    BooleanEqual,
    IntNotEqual,
    DoubleNotEqual,
    BooleanNotEqual,
    IntLess,
    DoubleLess,
    IntLessEqual,
    DoubleLessEqual,
    IntGreater,
    DoubleGreater,
    IntGreaterEqual,
    DoubleGreaterEqual,
    PtrPlusOffset,
    PtrMinusOffset,
    PtrDiff,
    PtrEqual,
    PtrNotEqual,
}

/// The short-circuit operators; the translator lowers them to `Ternary`.
#[derive(Debug, Clone, Copy, PartialEq, Eq, Structural)]
pub enum LazyOperatorKind {
    BooleanLogicalAnd,
    BooleanLogicalOr,
}

#[derive(Debug, Clone, Copy, PartialEq, Eq, Structural)]
pub enum UnaryOperatorKind {
    IntMinus,
    DoubleMinus,
    BooleanNot,
    PointerDeref,
}

#[derive(Debug, Clone, Copy, PartialEq, Eq, Structural)]
pub enum LValueUnaryOperatorKind {
    IntIncrement,
    IntDecrement,
    LValueToPtr,
}

/// An expression together with the type of its result.
#[derive(Debug)]
pub struct TypedExpression {
    pub ty: TypeId,
    pub expr: Expression,
}

#[derive(Debug)]
pub enum Expression {
    Block(Box<BlockExpression>),
    LValueToRValue(Box<TypedExpression>),
    RValueToLValue(Box<TypedExpression>),
    Value(Value),
    Assign { lhs: Box<TypedExpression>, rhs: Box<TypedExpression> },
    BinaryOperator {
        binop: BinaryOperatorKind,
        lhs: Box<TypedExpression>,
        rhs: Box<TypedExpression>,
    },
    UnaryOperator { unop: UnaryOperatorKind, sub: Box<TypedExpression> },
    LValueUnaryOperator { lvalue_unop: LValueUnaryOperatorKind, sub: Box<TypedExpression> },
    Cast { kind: CastKind, sub: Box<TypedExpression> },
    BitCast { dest_ty: TypeId, sub: Box<TypedExpression> },
    FunctionCall { function: Box<TypedExpression>, args: Vec<TypedExpression> },
    FieldAccess { sub: Box<TypedExpression>, index: usize },
    Ternary {
        condition: Box<TypedExpression>,
        true_expr: Box<TypedExpression>,
        false_expr: Box<TypedExpression>,
    },
}

/// Statements run for their effects, then a value.
#[derive(Debug)]
pub struct BlockExpression {
    pub stmts: Vec<Statement>,
    pub final_expr: TypedExpression,
}

#[derive(Debug)]
pub enum Statement {
    Block(Vec<Statement>),
    If { condition: TypedExpression, body: Vec<Statement>, else_clause: Vec<Statement> },
    For {
        init: Box<Statement>,
        condition: TypedExpression,
        step: Option<TypedExpression>,
        body: Vec<Statement>,
    },
    Return(Option<TypedExpression>),
    Expression(TypedExpression),
    Break,
    Continue,
}

/// A local variable hoisted to the top of its function.
#[derive(Debug, Clone, Copy, PartialEq, Eq, Structural)]
pub struct VarDecl {
    pub ty: TypeId,
    pub id: IdentifierId,
}

#[derive(Debug)]
pub struct Function {
    pub name: String,
    pub return_ty: TypeId,
    pub parameters: Vec<(TypeId, IdentifierId)>,
    pub var_declarations: Vec<VarDecl>,
    pub body: Vec<Statement>,
    pub span: Span,
}

#[derive(Debug)]
pub struct ExternFunction {
    pub name: String,
    pub ty: FunctionType,
    pub span: Span,
}

#[derive(Debug)]
pub enum Declaration {
    ExternFunction(ExternFunction),
    Function(Function),
}

#[derive(Debug)]
pub struct Program {
    pub declarations: Vec<Declaration>,
}

} // verus!
