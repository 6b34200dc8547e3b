use vstd::prelude::*;

use crate::span::{Span, Spanned};

verus! {

#[derive(Debug)]
pub struct Program {
    pub declarations: Vec<Declaration>,
}

#[derive(Debug)]
pub enum Declaration {
    Struct(Struct),
    ExternFunction(ExternFunction),
    Function(Function),
}

#[derive(Debug)]
pub struct Struct {
    pub name: String,
    pub fields: Vec<(Spanned<String>, Spanned<Type>)>,
    pub span: Span,
}

#[derive(Debug)]
pub struct ExternFunction {
    pub return_ty: Spanned<Type>,
    pub name: String,
    pub parameters: Vec<Spanned<Type>>,
    pub is_vararg: bool,
    pub span: Span,
}

#[derive(Debug)]
pub struct Function {
    pub return_ty: Spanned<Type>,
    pub name: String,
    pub parameters: Vec<(String, Spanned<Type>)>,
    pub body: BlockStatement,
    pub span: Span,
}

#[derive(Debug)]
pub enum Statement {
    Empty,
    Block(BlockStatement),
    Let(LetStatement),
    If(IfStatement),
    While(WhileStatement),
    For(ForStatement),
    Return(Option<Spanned<Expression>>),
    Expression(Spanned<Expression>),
    Break,
    Continue,
}

#[derive(Debug)]
pub struct BlockStatement {
    pub statements: Vec<Spanned<Statement>>,
}

impl BlockStatement {
    pub fn from_vec(statements: Vec<Spanned<Statement>>) -> (r: BlockStatement)
        ensures
            r.statements == statements,
    {
        BlockStatement { statements }
    }
}

#[derive(Debug)]
pub struct LetStatement {
    pub name: String,
    pub ty: Option<Spanned<Type>>,
    pub value: Spanned<Expression>,
}

#[derive(Debug)]
pub struct IfStatement {
    pub condition: Spanned<Expression>,
    pub body: Box<Spanned<Statement>>,
    pub else_clause: Option<Box<Spanned<Statement>>>,
}

#[derive(Debug)]
pub struct WhileStatement {
    pub condition: Spanned<Expression>,
    pub body: Box<Spanned<Statement>>,
}

#[derive(Debug)]
pub struct ForStatement {
    pub init: Box<Spanned<Statement>>,
    pub condition: Spanned<Expression>,
    pub step: Option<Spanned<Expression>>,
    pub body: Box<Spanned<Statement>>,
}

/// A literal as written in the source. A double literal keeps its decimal text.
#[derive(Debug)]
pub enum Literal {
    IntLiteral(i64),
    DoubleLiteral(String),
    BooleanLiteral(bool),
    StringLiteral(String),
}

#[derive(Debug)]
pub enum Expression {
    Literal(Literal),
    Identifier(String),
    Parenthesis(Box<Spanned<Expression>>),
    Assign { lhs: Box<Spanned<Expression>>, rhs: Box<Spanned<Expression>> },
    BinaryOperator {
        binop: BinaryOperatorKind,
        lhs: Box<Spanned<Expression>>,
        rhs: Box<Spanned<Expression>>,
    },
    LazyOperator {
        lazyop: LazyOperatorKind,
        lhs: Box<Spanned<Expression>>,
        rhs: Box<Spanned<Expression>>,
    },
    UnaryOperator { unop: UnaryOperatorKind, sub: Box<Spanned<Expression>> },
    LValueUnaryOperator { lvalue_unop: LValueUnaryOperatorKind, sub: Box<Spanned<Expression>> },
    Cast { as_ty: Spanned<Type>, sub: Box<Spanned<Expression>> },
    Subscript { array: Box<Spanned<Expression>>, index: Box<Spanned<Expression>> },
    FunctionCall { function: Box<Spanned<Expression>>, args: Vec<Spanned<Expression>> },
    TupleLiteral { values: Vec<Spanned<Expression>> },
    ArrayLiteral { values: Vec<Spanned<Expression>> },
    ArrayFillLiteral { value: Box<Spanned<Expression>>, size: usize },
    StructLiteral { struct_name: String, fields: Vec<(Spanned<String>, Spanned<Expression>)> },
    FieldAccess { expr: Box<Spanned<Expression>>, field: Field },
    Nullptr,
}

/// The field named after a dot: a struct field by name, or a tuple component by
/// position.
#[derive(Debug)]
pub enum Field {
    Named(String),
    Index(usize),
}

#[derive(Debug, Clone, Copy, PartialEq, Eq, Structural)]
pub enum BinaryOperatorKind {
    Plus,
    Minus,
    Multiply,
    Divide,
    Modulo,
    Equal,
    NotEqual,
    Less,
    LessEqual,
    Greater,
    GreaterEqual,
}

#[derive(Debug, Clone, Copy, PartialEq, Eq, Structural)]
pub enum LazyOperatorKind {
    LogicalAnd,
    LogicalOr,
}

#[derive(Debug, Clone, Copy, PartialEq, Eq, Structural)]
pub enum UnaryOperatorKind {
    Minus,
    LogicalNot,
    PtrDeref,
}

#[derive(Debug, Clone, Copy, PartialEq, Eq, Structural)]
pub enum LValueUnaryOperatorKind {
    Increment,
    Decrement,
    AddressOf,
}

/// A type as written in the source, before names are resolved.
#[derive(Debug)]
pub enum Type {
    Void,
    Identifier(String),
    Pointer(Box<Spanned<Type>>),
    Array(Box<Spanned<Type>>, usize),
    Function(Box<FunctionType>),
    Tuple(Vec<Spanned<Type>>),
}

#[derive(Debug)]
pub struct FunctionType {
    pub return_ty: Spanned<Type>,
    pub parameters_ty: Vec<Spanned<Type>>,
    pub is_vararg: bool,
}


/// A type as written, with the span of each part, seen as a mathematical value.
pub enum TypeSyntax {
    Void,
    Identifier(Seq<char>),
    Pointer(Box<SpannedTypeSyntax>),
    Array(Box<SpannedTypeSyntax>, usize),
    Function(Box<SpannedTypeSyntax>, Seq<SpannedTypeSyntax>, bool),
    Tuple(Seq<SpannedTypeSyntax>),
}

pub struct SpannedTypeSyntax {
    pub ty: TypeSyntax,
    pub span: Span,
}

pub open spec fn type_syntax(t: Type) -> TypeSyntax
    decreases t, 1int,
{
    match t {
        Type::Void => TypeSyntax::Void,
        Type::Identifier(s) => TypeSyntax::Identifier(s@),
        Type::Pointer(b) => TypeSyntax::Pointer(Box::new(spanned_syntax(*b))),
        Type::Array(b, n) => TypeSyntax::Array(Box::new(spanned_syntax(*b)), n),
        Type::Function(f) => TypeSyntax::Function(
            Box::new(spanned_syntax(f.return_ty)),
            types_syntax(f.parameters_ty@),
            f.is_vararg,
        ),
        Type::Tuple(ts) => TypeSyntax::Tuple(types_syntax(ts@)),
    }
}

pub open spec fn spanned_syntax(t: Spanned<Type>) -> SpannedTypeSyntax
    decreases t, 2int,
{
    SpannedTypeSyntax { ty: type_syntax(t.inner), span: t.span }
}

pub open spec fn types_syntax(ts: Seq<Spanned<Type>>) -> Seq<SpannedTypeSyntax>
    decreases ts, 0int,
{
    if ts.len() == 0 {
        Seq::empty()
    } else {
        seq![spanned_syntax(ts[0])] + types_syntax(ts.drop_first())
    }
}


broadcast use vstd::std_specs::vec::group_vec_axioms;

proof fn lemma_types_syntax_push(s: Seq<Spanned<Type>>, x: Spanned<Type>)
    ensures
        types_syntax(s.push(x)) == types_syntax(s).push(spanned_syntax(x)),
    decreases s.len(),
{
    if s.len() == 0 {
        assert(s.push(x).drop_first() =~= Seq::<Spanned<Type>>::empty());
        assert(s.push(x)[0] == x);
        assert(types_syntax(Seq::<Spanned<Type>>::empty()) == Seq::<SpannedTypeSyntax>::empty());
        assert(types_syntax(s.push(x)) =~= seq![spanned_syntax(x)]);
    } else {
        assert(s.push(x).drop_first() =~= s.drop_first().push(x));
        lemma_types_syntax_push(s.drop_first(), x);
        assert(types_syntax(s.push(x)) =~= types_syntax(s).push(spanned_syntax(x)));
    }
}

/// A deep copy of a written type.
pub fn copy_type(t: &Type) -> (r: Type)
    ensures
        type_syntax(r) == type_syntax(*t),
    decreases t, 1int,
{
    match t {
        Type::Void => Type::Void,
        Type::Identifier(s) => Type::Identifier(s.clone()),
        Type::Pointer(b) => Type::Pointer(Box::new(copy_spanned_type(b))),
        Type::Array(b, n) => Type::Array(Box::new(copy_spanned_type(b)), *n),
        Type::Function(f) => {
            let return_ty = copy_spanned_type(&f.return_ty);
            let parameters_ty = copy_types(&f.parameters_ty);
            Type::Function(Box::new(FunctionType { return_ty, parameters_ty, is_vararg: f.is_vararg }))
        },
        Type::Tuple(ts) => Type::Tuple(copy_types(ts)),
    }
}

/// A deep copy of a written type with its span.
pub fn copy_spanned_type(t: &Spanned<Type>) -> (r: Spanned<Type>)
    ensures
        spanned_syntax(r) == spanned_syntax(*t),
    decreases t, 2int,
{
    Spanned::new(copy_type(&t.inner), t.span)
}

/// A deep copy of a list of written types.
pub fn copy_types(ts: &Vec<Spanned<Type>>) -> (r: Vec<Spanned<Type>>)
    ensures
        types_syntax(r@) == types_syntax(ts@),
    decreases ts, 0int,
{
    let mut out: Vec<Spanned<Type>> = Vec::new();
    let mut i: usize = 0;
    while i < ts.len()
        invariant
            i <= ts.len(),
            types_syntax(out@) == types_syntax(ts@.subrange(0, i as int)),
        decreases ts.len() - i,
    {
        proof {
            assert(decreases_to!(*ts => ts[i as int]));
        }
        let c = copy_spanned_type(&ts[i]);
        proof {
            lemma_types_syntax_push(out@, c);
            lemma_types_syntax_push(ts@.subrange(0, i as int), ts@[i as int]);
            assert(ts@.subrange(0, i as int).push(ts@[i as int]) =~= ts@.subrange(0, i + 1));
        }
        out.push(c);
        i = i + 1;
    }
    assert(ts@.subrange(0, i as int) =~= ts@);
    out
}

impl ExternFunction {
    /// The signature: return type, parameter types and whether it takes more
    /// arguments than it declares.
    pub fn get_type(&self) -> (r: FunctionType)
        ensures
            spanned_syntax(r.return_ty) == spanned_syntax(self.return_ty),
            types_syntax(r.parameters_ty@) == types_syntax(self.parameters@),
            r.is_vararg == self.is_vararg,
    {
        let return_ty = copy_spanned_type(&self.return_ty);
        let parameters_ty = copy_types(&self.parameters);
        FunctionType { return_ty, parameters_ty, is_vararg: self.is_vararg }
    }
}

impl Function {
    /// The signature: return type and parameter types; a function never takes more
    /// arguments than it declares.
    pub fn get_type(&self) -> (r: FunctionType)
        ensures
            spanned_syntax(r.return_ty) == spanned_syntax(self.return_ty),
            types_syntax(r.parameters_ty@) == types_syntax(
                self.parameters@.map_values(|p: (String, Spanned<Type>)| p.1),
            ),
            !r.is_vararg,
    {
        let ghost ps = self.parameters@.map_values(|p: (String, Spanned<Type>)| p.1);
        let return_ty = copy_spanned_type(&self.return_ty);
        let mut parameters_ty: Vec<Spanned<Type>> = Vec::new();
        let mut i: usize = 0;
        while i < self.parameters.len()
            invariant
                i <= self.parameters.len(),
                ps == self.parameters@.map_values(|p: (String, Spanned<Type>)| p.1),
                types_syntax(parameters_ty@) == types_syntax(ps.subrange(0, i as int)),
            decreases self.parameters.len() - i,
        {
            let c = copy_spanned_type(&self.parameters[i].1);
            proof {
                lemma_types_syntax_push(parameters_ty@, c);
                lemma_types_syntax_push(ps.subrange(0, i as int), ps[i as int]);
                assert(ps.subrange(0, i as int).push(ps[i as int]) =~= ps.subrange(0, i + 1));
            }
            parameters_ty.push(c);
            i = i + 1;
        }
        assert(ps.subrange(0, i as int) =~= ps);
        FunctionType { return_ty, parameters_ty, is_vararg: false }
    }
}

} // verus!
