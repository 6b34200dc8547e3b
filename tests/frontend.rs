use minilang::ast::{
    self, BinaryOperatorKind as B, BlockStatement, ForStatement, IfStatement, Statement,
    UnaryOperatorKind as U, WhileStatement,
};
use minilang::backend::lower_types;
use minilang::bir::BackendType;
use minilang::errors::TranslationErrorKind;
use minilang::interner::Interner;
use minilang::ir::{self, BinaryOperatorKind as K, InternerId};
use minilang::lexer::Lexer;
use minilang::loops::{check_block_jumps, check_body_jumps};
use minilang::span::{Span, Spanned};
use minilang::token::Token;
use minilang::ty::{
    same_type, FunctionType, StructType, Type, TypeId, TypeTable, BOOLEAN_INDEX, DOUBLE_INDEX,
    INT_INDEX,
};
use minilang::typeck::{binop_typeck, unop_typeck};

fn handle(index: usize) -> TypeId {
    TypeId { index }
}

fn shape_name(t: &Type) -> String {
    format!("{:?}", t)
}

#[test]
fn arithmetic_selection_follows_the_table() {
    let r = binop_typeck(B::Plus, &Type::Int, &Type::Int).unwrap();
    assert!(matches!(r, (Type::Int, K::IntPlus)));
    let r = binop_typeck(B::Divide, &Type::Double, &Type::Double).unwrap();
    assert!(matches!(r, (Type::Double, K::DoubleDivide)));
    assert!(binop_typeck(B::Modulo, &Type::Double, &Type::Double).is_none());
    let r = binop_typeck(B::Modulo, &Type::Int, &Type::Int).unwrap();
    assert!(matches!(r, (Type::Int, K::IntModulo)));
    assert!(binop_typeck(B::Plus, &Type::Int, &Type::Double).is_none());
    assert!(binop_typeck(B::Plus, &Type::Boolean, &Type::Boolean).is_none());
}

#[test]
fn comparison_selection_follows_the_table() {
    let r = binop_typeck(B::Less, &Type::Double, &Type::Double).unwrap();
    assert!(matches!(r, (Type::Boolean, K::DoubleLess)));
    let r = binop_typeck(B::GreaterEqual, &Type::Int, &Type::Int).unwrap();
    assert!(matches!(r, (Type::Boolean, K::IntGreaterEqual)));
    let r = binop_typeck(B::Equal, &Type::Boolean, &Type::Boolean).unwrap();
    assert!(matches!(r, (Type::Boolean, K::BooleanEqual)));
    assert!(binop_typeck(B::Less, &Type::Boolean, &Type::Boolean).is_none());
    assert!(binop_typeck(B::Equal, &Type::String, &Type::String).is_none());
}

#[test]
fn pointer_selection_follows_the_table() {
    let p = Type::Pointer(handle(1));
    let q = Type::Pointer(handle(2));
    let r = binop_typeck(B::Plus, &p, &Type::Int).unwrap();
    assert!(matches!(r, (Type::Pointer(t), K::PtrPlusOffset) if t == handle(1)));
    let r = binop_typeck(B::Minus, &p, &Type::Int).unwrap();
    assert!(matches!(r, (Type::Pointer(t), K::PtrMinusOffset) if t == handle(1)));
    let r = binop_typeck(B::Minus, &p, &Type::Pointer(handle(1))).unwrap();
    assert!(matches!(r, (Type::Int, K::PtrDiff)));
    assert!(binop_typeck(B::Minus, &p, &q).is_none());
    assert!(binop_typeck(B::Plus, &p, &Type::Pointer(handle(1))).is_none());
    assert!(binop_typeck(B::Plus, &Type::Int, &p).is_none());
    let r = binop_typeck(B::Equal, &p, &Type::Int).unwrap();
    assert!(matches!(r, (Type::Boolean, K::PtrEqual)));
    let r = binop_typeck(B::NotEqual, &p, &Type::Pointer(handle(1))).unwrap();
    assert!(matches!(r, (Type::Boolean, K::PtrNotEqual)));
    assert!(binop_typeck(B::Less, &p, &Type::Pointer(handle(1))).is_none());
}

fn sample_types() -> Vec<Type> {
    vec![
        Type::Void,
        Type::Int,
        Type::Double,
        Type::Boolean,
        Type::String,
        Type::Pointer(handle(1)),
        Type::Pointer(handle(2)),
        Type::LValue(handle(1), true),
        Type::Array(handle(1), 3),
        Type::Tuple(vec![handle(1), handle(2)]),
        Type::Incomplete,
    ]
}

fn accepted(op: B, l: &Type, r: &Type) -> bool {
    let arith = matches!((l, r), (Type::Int, Type::Int) | (Type::Double, Type::Double));
    let ptr_offset = matches!((l, r), (Type::Pointer(_), Type::Int));
    let same_ptr = matches!((l, r), (Type::Pointer(a), Type::Pointer(b)) if a == b);
    match op {
        B::Plus => arith || ptr_offset,
        B::Minus => arith || ptr_offset || same_ptr,
        B::Multiply | B::Divide => arith,
        B::Modulo => matches!((l, r), (Type::Int, Type::Int)),
        B::Equal | B::NotEqual => {
            arith || matches!((l, r), (Type::Boolean, Type::Boolean)) || ptr_offset || same_ptr
        },
        _ => arith,
    }
}

#[test]
fn selection_is_total_on_accepted_pairs_and_none_elsewhere() {
    let ops = [
        B::Plus,
        B::Minus,
        B::Multiply,
        B::Divide,
        B::Modulo,
        B::Equal,
        B::NotEqual,
        B::Less,
        B::LessEqual,
        B::Greater,
        B::GreaterEqual,
    ];
    for op in ops {
        for l in sample_types() {
            for r in sample_types() {
                let sel = binop_typeck(op, &l, &r);
                assert_eq!(sel.is_some(), accepted(op, &l, &r), "{:?} {:?} {:?}", op, l, r);
                if let Some((t, _)) = sel {
                    assert!(!matches!(t, Type::LValue(..) | Type::Incomplete));
                }
            }
        }
    }
}

#[test]
fn unary_selection_follows_the_table() {
    assert!(matches!(unop_typeck(U::Minus, &Type::Int), Some((Type::Int, ir::UnaryOperatorKind::IntMinus))));
    assert!(matches!(
        unop_typeck(U::Minus, &Type::Double),
        Some((Type::Double, ir::UnaryOperatorKind::DoubleMinus))
    ));
    assert!(matches!(
        unop_typeck(U::LogicalNot, &Type::Boolean),
        Some((Type::Boolean, ir::UnaryOperatorKind::BooleanNot))
    ));
    assert!(matches!(
        unop_typeck(U::PtrDeref, &Type::Pointer(handle(2))),
        Some((Type::LValue(t, true), ir::UnaryOperatorKind::PointerDeref)) if t == handle(2)
    ));
    assert!(unop_typeck(U::LogicalNot, &Type::Int).is_none());
    assert!(unop_typeck(U::Minus, &Type::Boolean).is_none());
    assert!(unop_typeck(U::PtrDeref, &Type::Int).is_none());
}

#[test]
fn type_table_interns_each_type_once() {
    let mut table = TypeTable::new();
    assert_eq!(table.size(), 5);
    assert_eq!(table.get_int_ty(), handle(INT_INDEX));
    assert!(matches!(table.get(handle(INT_INDEX)), Type::Int));
    assert_eq!(table.intern(Type::Double), handle(DOUBLE_INDEX));
    let p = table.intern(Type::Pointer(handle(INT_INDEX)));
    assert_eq!(p, handle(5));
    assert_eq!(table.intern(Type::Pointer(handle(INT_INDEX))), p);
    let t = table.intern(Type::Tuple(vec![handle(1), handle(3)]));
    assert_eq!(table.intern(Type::Tuple(vec![handle(1), handle(3)])), t);
    assert_ne!(table.intern(Type::Tuple(vec![handle(3), handle(1)])), t);
    assert_eq!(table.size(), 8);
}

#[test]
fn recursive_struct_through_pointer() {
    let mut table = TypeTable::new();
    let node = table.declare_struct("Node".to_string());
    let next = table.intern(Type::Pointer(node));
    table.define_struct(node, vec![("value".to_string(), handle(INT_INDEX)), ("next".to_string(), next)]);
    match table.get(node) {
        Type::Struct(s) => {
            assert_eq!(s.name, "Node");
            assert_eq!(s.fields.len(), 2);
            assert_eq!(s.fields[1].1, next);
        },
        other => panic!("{:?}", other),
    }
    let (types, map) = lower_types(&table);
    assert_eq!(map.len(), table.size());
    match &types[map[node.index]] {
        BackendType::Struct(Some(name), fields) => {
            assert_eq!(name, "Node");
            assert_eq!(fields, &vec![map[INT_INDEX], map[next.index]]);
        },
        other => panic!("{:?}", other),
    }
    assert!(matches!(types[map[next.index]], BackendType::Pointer(t) if t == map[node.index]));
}

#[test]
fn lowered_primitive_types() {
    let mut table = TypeTable::new();
    let f = table.intern(Type::FunctionPtr(FunctionType {
        return_ty: handle(INT_INDEX),
        parameters_ty: vec![handle(DOUBLE_INDEX)],
        is_vararg: true,
    }));
    let (types, map) = lower_types(&table);
    assert!(matches!(types[map[0]], BackendType::Void));
    assert!(matches!(types[map[INT_INDEX]], BackendType::Int(64)));
    assert!(matches!(types[map[DOUBLE_INDEX]], BackendType::Double));
    assert!(matches!(types[map[BOOLEAN_INDEX]], BackendType::Int(1)));
    match types[map[4]] {
        BackendType::Pointer(b) => assert!(matches!(types[b], BackendType::Int(8))),
        ref other => panic!("{:?}", other),
    }
    match types[map[f.index]] {
        BackendType::Pointer(g) => match &types[g] {
            BackendType::Function(r, ps, va) => {
                assert_eq!(*r, map[INT_INDEX]);
                assert_eq!(ps, &vec![map[DOUBLE_INDEX]]);
                assert!(*va);
            },
            other => panic!("{:?}", other),
        },
        ref other => panic!("{:?}", other),
    }
}

#[test]
fn has_default_value_for_scalars_and_their_aggregates() {
    let mut table = TypeTable::new();
    assert!(Type::Int.has_default_value(&table));
    assert!(Type::Double.has_default_value(&table));
    assert!(Type::Boolean.has_default_value(&table));
    assert!(!Type::String.has_default_value(&table));
    assert!(!Type::Pointer(handle(1)).has_default_value(&table));
    let arr = table.intern(Type::Array(handle(INT_INDEX), 3));
    assert!(Type::Array(handle(INT_INDEX), 3).has_default_value(&table));
    assert!(Type::Tuple(vec![arr, handle(BOOLEAN_INDEX)]).has_default_value(&table));
    assert!(!Type::Tuple(vec![arr, handle(4)]).has_default_value(&table));
    let p = table.declare_struct("P".to_string());
    table.define_struct(p, vec![("x".to_string(), handle(INT_INDEX)), ("a".to_string(), arr)]);
    assert!(Type::Array(p, 2).has_default_value(&table));
    let q = table.declare_struct("Q".to_string());
    let sp = table.intern(Type::Pointer(q));
    table.define_struct(q, vec![("next".to_string(), sp)]);
    assert!(!Type::Array(q, 2).has_default_value(&table));
    assert!(Type::Struct(StructType { name: "E".to_string(), fields: vec![] }).has_default_value(&table));
}

#[test]
fn same_type_compares_shapes() {
    assert!(same_type(&Type::Tuple(vec![handle(1)]), &Type::Tuple(vec![handle(1)])));
    assert!(!same_type(&Type::Tuple(vec![handle(1)]), &Type::Tuple(vec![handle(2)])));
    assert!(!same_type(&Type::LValue(handle(1), true), &Type::LValue(handle(1), false)));
    assert_eq!(shape_name(&Type::Int), "Int");
}

#[test]
fn string_interner_shares_ids() {
    let mut strings = Interner::new();
    let a = strings.intern("abc");
    let b = strings.intern("xyz");
    let c = strings.intern("abc");
    assert_eq!(a, c);
    assert_ne!(a, b);
    assert_eq!(a, InternerId { index: 0 });
    assert_eq!(strings.get_ref(b), "xyz");
    assert_eq!(strings.len(), 2);
}

fn spanned<T>(inner: T, start: usize, len: usize) -> Spanned<T> {
    Spanned { inner, span: Span { start, len } }
}

#[test]
fn break_outside_loop_is_rejected_with_its_span() {
    let body = BlockStatement::from_vec(vec![
        spanned(Statement::Empty, 0, 1),
        spanned(
            Statement::If(IfStatement {
                condition: spanned(ast::Expression::Literal(ast::Literal::BooleanLiteral(true)), 4, 4),
                body: Box::new(spanned(Statement::Break, 10, 5)),
                else_clause: None,
            }),
            1,
            16,
        ),
    ]);
    let err = check_body_jumps(&body).unwrap_err();
    assert_eq!(err.inner, TranslationErrorKind::BreakOutsideLoop);
    assert_eq!(err.span, Span { start: 10, len: 5 });
}

#[test]
fn continue_outside_loop_is_rejected_with_its_span() {
    let stmts = vec![spanned(Statement::Continue, 7, 8), spanned(Statement::Break, 20, 5)];
    let err = check_block_jumps(&stmts, false).unwrap_err();
    assert_eq!(err.inner, TranslationErrorKind::ContinueOutsideLoop);
    assert_eq!(err.span, Span { start: 7, len: 8 });
}

#[test]
fn jumps_inside_loops_are_accepted() {
    let cond = || spanned(ast::Expression::Literal(ast::Literal::BooleanLiteral(true)), 0, 4);
    let w = Statement::While(WhileStatement {
        condition: cond(),
        body: Box::new(spanned(
            Statement::Block(BlockStatement::from_vec(vec![
                spanned(Statement::Break, 1, 5),
                spanned(Statement::Continue, 2, 8),
            ])),
            0,
            20,
        )),
    });
    let f = Statement::For(ForStatement {
        init: Box::new(spanned(Statement::Empty, 0, 1)),
        condition: cond(),
        step: None,
        body: Box::new(spanned(Statement::Break, 3, 5)),
    });
    let body = BlockStatement::from_vec(vec![spanned(w, 0, 30), spanned(f, 30, 30)]);
    assert!(check_body_jumps(&body).is_ok());
    let bad_init = Statement::For(ForStatement {
        init: Box::new(spanned(Statement::Break, 40, 5)),
        condition: cond(),
        step: None,
        body: Box::new(spanned(Statement::Empty, 0, 1)),
    });
    let err = check_block_jumps(&vec![spanned(bad_init, 40, 20)], false).unwrap_err();
    assert_eq!(err.span, Span { start: 40, len: 5 });
}

#[test]
fn function_signature_from_declaration() {
    let int_ty = || spanned(ast::Type::Identifier("int".to_string()), 5, 3);
    let f = ast::Function {
        return_ty: int_ty(),
        name: "f".to_string(),
        parameters: vec![
            ("a".to_string(), spanned(ast::Type::Pointer(Box::new(int_ty())), 9, 4)),
            ("b".to_string(), spanned(ast::Type::Tuple(vec![int_ty(), int_ty()]), 20, 10)),
        ],
        body: BlockStatement::from_vec(vec![]),
        span: Span { start: 0, len: 40 },
    };
    let t = f.get_type();
    assert!(!t.is_vararg);
    assert_eq!(t.parameters_ty.len(), 2);
    assert_eq!(format!("{:?}", t.return_ty), format!("{:?}", int_ty()));
    assert_eq!(format!("{:?}", t.parameters_ty[0]), format!("{:?}", f.parameters[0].1));
    assert_eq!(format!("{:?}", t.parameters_ty[1]), format!("{:?}", f.parameters[1].1));
    let e = ast::ExternFunction {
        return_ty: int_ty(),
        name: "printf".to_string(),
        parameters: vec![spanned(ast::Type::Pointer(Box::new(int_ty())), 1, 2)],
        is_vararg: true,
        span: Span { start: 0, len: 10 },
    };
    let t = e.get_type();
    assert!(t.is_vararg);
    assert_eq!(format!("{:?}", t.parameters_ty), format!("{:?}", e.parameters));
}

fn lex_kinds(src: &str) -> Vec<Token> {
    let mut lexer = Lexer::new(src);
    let mut out = Vec::new();
    loop {
        let t = lexer.next_token().expect("lexing failed").inner;
        if matches!(t, Token::EOF) {
            return out;
        }
        out.push(t);
    }
}

#[test]
fn printing_tokens_and_lexing_again_gives_the_same_tokens() {
    let src = "struct P { x: int } fn main(): int { let s: string = \"a \\\" b\"; \
               /* c */ let d: double = 1.5e+3; return p.x*p.x + 42 - -1 >= 0 && !false; }";
    let tokens = lex_kinds(src);
    let mut printed = String::new();
    for t in &tokens {
        let text: String = t.text().into_iter().collect();
        printed.push_str(&text);
        printed.push(' ');
    }
    let again = lex_kinds(&printed);
    assert_eq!(format!("{:?}", tokens), format!("{:?}", again));
    assert!(tokens.len() > 40);
}

#[test]
fn token_text_of_integers_and_keywords() {
    let t: String = Token::IntegerLiteral(9012).text().into_iter().collect();
    assert_eq!(t, "9012");
    let t: String = Token::IntegerLiteral(-5).text().into_iter().collect();
    assert_eq!(t, "-5");
    let t: String = Token::IntegerLiteral(i64::MIN).text().into_iter().collect();
    assert_eq!(t, "-9223372036854775808");
    let t: String = Token::Keyword(minilang::token::Keyword::Nullptr).text().into_iter().collect();
    assert_eq!(t, "nullptr");
    assert!(Token::EOF.text().is_empty());
}
