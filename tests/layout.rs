use minilang::ast;
use minilang::errors::TranslationErrorKind;
use minilang::layout::{
    check_duplicate_fields, check_value_recursion, declare_structs, define_struct_fields,
    find_recursive_value_type, lay_out_structs,
};
use minilang::symbol_table::SymbolTable;
use minilang::span::{Span, Spanned};
use minilang::ty::{Type, TypeId, TypeTable, INT_INDEX};

fn int_ty() -> TypeId {
    TypeId { index: INT_INDEX }
}

#[test]
fn self_reference_through_a_pointer_is_allowed() {
    let mut table = TypeTable::new();
    let node = table.declare_struct("Node".to_string());
    let next = table.intern(Type::Pointer(node));
    table.define_struct(node, vec![("v".to_string(), int_ty()), ("next".to_string(), next)]);
    assert_eq!(find_recursive_value_type(&table), None);
}

#[test]
fn mutual_containment_by_value_is_found() {
    let mut table = TypeTable::new();
    let a = table.declare_struct("A".to_string());
    let b = table.declare_struct("B".to_string());
    table.define_struct(a, vec![("b".to_string(), b)]);
    table.define_struct(b, vec![("a".to_string(), a), ("n".to_string(), int_ty())]);
    assert_eq!(find_recursive_value_type(&table), Some(a));
}

#[test]
fn containment_through_an_array_and_a_tuple_is_found() {
    let mut table = TypeTable::new();
    let s = table.declare_struct("S".to_string());
    let arr = table.intern(Type::Array(s, 4));
    let tup = table.intern(Type::Tuple(vec![int_ty(), arr]));
    table.define_struct(s, vec![("t".to_string(), tup)]);
    assert_eq!(find_recursive_value_type(&table), Some(s));
}

#[test]
fn plain_aggregates_are_fine() {
    let mut table = TypeTable::new();
    let s = table.declare_struct("P".to_string());
    table.define_struct(s, vec![("x".to_string(), int_ty()), ("y".to_string(), int_ty())]);
    let arr = table.intern(Type::Array(s, 3));
    table.intern(Type::Tuple(vec![arr, s]));
    assert_eq!(find_recursive_value_type(&table), None);
}

fn field(name: &str, start: usize) -> (Spanned<String>, Spanned<ast::Type>) {
    (
        Spanned { inner: name.to_string(), span: Span { start, len: name.len() } },
        Spanned { inner: ast::Type::Identifier("int".to_string()), span: Span { start: start + 3, len: 3 } },
    )
}

#[test]
fn repeated_field_name_is_rejected_at_the_repeat() {
    let fields = vec![field("x", 10), field("y", 20), field("x", 30), field("y", 40)];
    let err = check_duplicate_fields(&fields).unwrap_err();
    assert_eq!(err.inner, TranslationErrorKind::DuplicateField);
    assert_eq!(err.span, Span { start: 30, len: 1 });
    assert!(check_duplicate_fields(&vec![field("x", 0), field("y", 5)]).is_ok());
    assert!(check_duplicate_fields(&vec![]).is_ok());
}

#[test]
fn recursive_struct_is_rejected_at_its_declaration() {
    let mut table = TypeTable::new();
    let ok = table.declare_struct("Ok".to_string());
    table.define_struct(ok, vec![("n".to_string(), int_ty())]);
    let bad = table.declare_struct("Bad".to_string());
    table.define_struct(bad, vec![("me".to_string(), bad)]);
    let decl = |name: &str, start: usize| ast::Struct {
        name: name.to_string(),
        fields: vec![],
        span: Span { start, len: 10 },
    };
    let decls = vec![decl("Ok", 0), decl("Bad", 50)];
    let err = check_value_recursion(&decls, &vec![ok, bad], &table).unwrap_err();
    assert_eq!(err.inner, TranslationErrorKind::RecursiveValueType);
    assert_eq!(err.span, Span { start: 50, len: 10 });
    assert!(check_value_recursion(&vec![decl("Ok", 0)], &vec![ok], &table).is_ok());
}

fn struct_decl(name: &str, start: usize) -> ast::Struct {
    ast::Struct { name: name.to_string(), fields: vec![], span: Span { start, len: 8 } }
}

#[test]
fn struct_names_are_declared_in_order() {
    let mut table = TypeTable::new();
    let mut structs: SymbolTable<TypeId> = SymbolTable::new();
    let decls = vec![struct_decl("A", 0), struct_decl("B", 10)];
    let ids = declare_structs(&decls, &mut structs, &mut table).unwrap();
    assert_eq!(ids, vec![TypeId { index: 5 }, TypeId { index: 6 }]);
    assert_eq!(structs.lookup(&"B".to_string()), Some(&ids[1]));
    assert!(matches!(table.get(ids[0]), Type::Struct(s) if s.name == "A" && s.fields.is_empty()));
}

#[test]
fn repeated_struct_name_is_a_duplicate_declaration() {
    let mut table = TypeTable::new();
    let mut structs: SymbolTable<TypeId> = SymbolTable::new();
    let decls = vec![struct_decl("A", 0), struct_decl("B", 10), struct_decl("A", 20)];
    let err = declare_structs(&decls, &mut structs, &mut table).unwrap_err();
    assert_eq!(err.inner, TranslationErrorKind::DuplicateDeclaration);
    assert_eq!(err.span, Span { start: 20, len: 8 });
}

fn typed_field(name: &str, ty: &str, start: usize) -> (Spanned<String>, Spanned<ast::Type>) {
    (
        Spanned { inner: name.to_string(), span: Span { start, len: name.len() } },
        Spanned { inner: ast::Type::Identifier(ty.to_string()), span: Span { start: start + 4, len: ty.len() } },
    )
}

#[test]
fn struct_fields_are_laid_out_in_order() {
    let mut table = TypeTable::new();
    let mut structs: SymbolTable<TypeId> = SymbolTable::new();
    let decl = ast::Struct {
        name: "P".to_string(),
        fields: vec![typed_field("x", "int", 10), typed_field("next", "P", 20)],
        span: Span { start: 0, len: 40 },
    };
    let ids = declare_structs(&vec![struct_decl("P", 0)], &mut structs, &mut table).unwrap();
    define_struct_fields(&decl, ids[0], &structs, &mut table).unwrap();
    match table.get(ids[0]) {
        Type::Struct(s) => {
            assert_eq!(s.name, "P");
            assert_eq!(s.fields, vec![("x".to_string(), TypeId { index: INT_INDEX }), ("next".to_string(), ids[0])]);
        },
        other => panic!("{:?}", other),
    }
    assert_eq!(find_recursive_value_type(&table), Some(ids[0]));
}

#[test]
fn field_errors_come_in_order() {
    let mut table = TypeTable::new();
    let mut structs: SymbolTable<TypeId> = SymbolTable::new();
    let ids = declare_structs(&vec![struct_decl("Q", 0)], &mut structs, &mut table).unwrap();
    let both = ast::Struct {
        name: "Q".to_string(),
        fields: vec![typed_field("a", "Nope", 10), typed_field("a", "int", 30)],
        span: Span { start: 0, len: 40 },
    };
    let err = define_struct_fields(&both, ids[0], &structs, &mut table).unwrap_err();
    assert_eq!(err.inner, TranslationErrorKind::DuplicateField);
    assert_eq!(err.span, Span { start: 30, len: 1 });
    let unknown = ast::Struct {
        name: "Q".to_string(),
        fields: vec![typed_field("a", "int", 10), typed_field("b", "Nope", 30)],
        span: Span { start: 0, len: 40 },
    };
    let err = define_struct_fields(&unknown, ids[0], &structs, &mut table).unwrap_err();
    assert_eq!(err.inner, TranslationErrorKind::UnknownType);
    assert_eq!(err.span, Span { start: 34, len: 4 });
}

#[test]
fn structs_are_laid_out_with_forward_references() {
    let mut table = TypeTable::new();
    let mut structs: SymbolTable<TypeId> = SymbolTable::new();
    let list = ast::Struct {
        name: "List".to_string(),
        fields: vec![typed_field("head", "Item", 0)],
        span: Span { start: 0, len: 30 },
    };
    let item = ast::Struct {
        name: "Item".to_string(),
        fields: vec![typed_field("v", "int", 40), typed_field("w", "double", 50)],
        span: Span { start: 35, len: 30 },
    };
    let ids = lay_out_structs(&vec![list, item], &mut structs, &mut table).unwrap();
    match table.get(ids[0]) {
        Type::Struct(s) => assert_eq!(s.fields, vec![("head".to_string(), ids[1])]),
        other => panic!("{:?}", other),
    }
}

#[test]
fn struct_layout_errors_come_in_phase_order() {
    let mut table = TypeTable::new();
    let mut structs: SymbolTable<TypeId> = SymbolTable::new();
    let me = ast::Struct {
        name: "Me".to_string(),
        fields: vec![typed_field("me", "Me", 5)],
        span: Span { start: 0, len: 20 },
    };
    let err = lay_out_structs(&vec![me], &mut structs, &mut table).unwrap_err();
    assert_eq!(err.inner, TranslationErrorKind::RecursiveValueType);
    assert_eq!(err.span, Span { start: 0, len: 20 });

    let mut table = TypeTable::new();
    let mut structs: SymbolTable<TypeId> = SymbolTable::new();
    let a = ast::Struct { name: "A".to_string(), fields: vec![typed_field("x", "Missing", 5)], span: Span { start: 0, len: 20 } };
    let b = ast::Struct { name: "A".to_string(), fields: vec![], span: Span { start: 30, len: 5 } };
    let err = lay_out_structs(&vec![a, b], &mut structs, &mut table).unwrap_err();
    assert_eq!(err.inner, TranslationErrorKind::DuplicateDeclaration);
    assert_eq!(err.span, Span { start: 30, len: 5 });
}
