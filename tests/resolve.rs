use minilang::ast::{FunctionType as FnSyntax, Type as Syntax};
use minilang::errors::TranslationErrorKind;
use minilang::resolve::{resolve_type, resolve_types};
use minilang::span::{Span, Spanned};
use minilang::symbol_table::SymbolTable;
use minilang::ty::{Type, TypeId, TypeTable, BOOLEAN_INDEX, DOUBLE_INDEX, INT_INDEX, STRING_INDEX, VOID_INDEX};

fn syn(t: Syntax, start: usize, len: usize) -> Spanned<Syntax> {
    Spanned { inner: t, span: Span { start, len } }
}

fn name(n: &str, start: usize) -> Spanned<Syntax> {
    syn(Syntax::Identifier(n.to_string()), start, n.len())
}

#[test]
fn primitive_names_resolve_to_their_handles() {
    let mut table = TypeTable::new();
    let structs: SymbolTable<TypeId> = SymbolTable::new();
    for (n, i) in [("int", INT_INDEX), ("double", DOUBLE_INDEX), ("boolean", BOOLEAN_INDEX), ("string", STRING_INDEX), ("void", VOID_INDEX)] {
        assert_eq!(resolve_type(&name(n, 0), &structs, &mut table), Ok(TypeId { index: i }));
    }
    assert_eq!(resolve_type(&syn(Syntax::Void, 0, 4), &structs, &mut table), Ok(TypeId { index: VOID_INDEX }));
    assert_eq!(table.size(), 5);
}

#[test]
fn composite_types_are_interned_once() {
    let mut table = TypeTable::new();
    let structs: SymbolTable<TypeId> = SymbolTable::new();
    let ptr = syn(Syntax::Pointer(Box::new(name("int", 1))), 0, 4);
    let p1 = resolve_type(&ptr, &structs, &mut table).unwrap();
    let p2 = resolve_type(&ptr, &structs, &mut table).unwrap();
    assert_eq!(p1, p2);
    assert!(matches!(table.get(p1), Type::Pointer(t) if *t == TypeId { index: INT_INDEX }));
    let arr = syn(Syntax::Array(Box::new(name("double", 3)), 7), 0, 9);
    let a = resolve_type(&arr, &structs, &mut table).unwrap();
    assert!(matches!(table.get(a), Type::Array(t, 7) if *t == TypeId { index: DOUBLE_INDEX }));
}

#[test]
fn struct_names_come_from_the_symbol_table() {
    let mut table = TypeTable::new();
    let p = table.declare_struct("P".to_string());
    let mut structs: SymbolTable<TypeId> = SymbolTable::new();
    structs.insert("P".to_string(), p).unwrap();
    let tuple = syn(Syntax::Tuple(vec![name("P", 1), name("int", 4)]), 0, 9);
    let t = resolve_type(&tuple, &structs, &mut table).unwrap();
    match table.get(t) {
        Type::Tuple(cs) => assert_eq!(cs, &vec![p, TypeId { index: INT_INDEX }]),
        other => panic!("{:?}", other),
    }
}

#[test]
fn unknown_name_is_reported_with_its_span() {
    let mut table = TypeTable::new();
    let structs: SymbolTable<TypeId> = SymbolTable::new();
    let tuple = syn(Syntax::Tuple(vec![name("int", 1), name("Foo", 6), name("Bar", 11)]), 0, 15);
    let err = resolve_type(&tuple, &structs, &mut table).unwrap_err();
    assert_eq!(err.inner, TranslationErrorKind::UnknownType);
    assert_eq!(err.span, Span { start: 6, len: 3 });
    let err = resolve_types(&vec![name("Baz", 20)], &structs, &mut table).unwrap_err();
    assert_eq!(err.span, Span { start: 20, len: 3 });
}

#[test]
fn function_pointer_types_resolve() {
    let mut table = TypeTable::new();
    let structs: SymbolTable<TypeId> = SymbolTable::new();
    let f = syn(
        Syntax::Function(Box::new(FnSyntax {
            return_ty: name("int", 0),
            parameters_ty: vec![name("double", 5), name("boolean", 13)],
            is_vararg: true,
        })),
        0,
        25,
    );
    let id = resolve_type(&f, &structs, &mut table).unwrap();
    match table.get(id) {
        Type::FunctionPtr(ft) => {
            assert_eq!(ft.return_ty, TypeId { index: INT_INDEX });
            assert_eq!(ft.parameters_ty, vec![TypeId { index: DOUBLE_INDEX }, TypeId { index: BOOLEAN_INDEX }]);
            assert!(ft.is_vararg);
        },
        other => panic!("{:?}", other),
    }
}
