use minilang::errors::TranslationErrorKind;
use minilang::symbol_table::SymbolTable;

#[test]
fn inner_scope_shadows_outer() {
    let mut t: SymbolTable<u32> = SymbolTable::new();
    assert_eq!(t.insert("x".to_string(), 1), Ok(()));
    t.push_scope();
    assert_eq!(t.depth(), 2);
    assert_eq!(t.lookup(&"x".to_string()), Some(&1));
    assert_eq!(t.insert("x".to_string(), 2), Ok(()));
    assert_eq!(t.lookup(&"x".to_string()), Some(&2));
    t.pop_scope();
    assert_eq!(t.lookup(&"x".to_string()), Some(&1));
}

#[test]
fn redeclaration_in_one_scope_is_rejected() {
    let mut t: SymbolTable<u32> = SymbolTable::new();
    assert_eq!(t.insert("f".to_string(), 1), Ok(()));
    assert_eq!(t.insert("f".to_string(), 2), Err(TranslationErrorKind::DuplicateDeclaration));
    assert_eq!(t.lookup(&"f".to_string()), Some(&1));
}

#[test]
fn unknown_and_popped_names_are_not_found() {
    let mut t: SymbolTable<u32> = SymbolTable::new();
    assert_eq!(t.lookup(&"y".to_string()), None);
    t.push_scope();
    assert_eq!(t.insert("y".to_string(), 5), Ok(()));
    t.pop_scope();
    assert_eq!(t.lookup(&"y".to_string()), None);
    assert_eq!(t.depth(), 1);
}
