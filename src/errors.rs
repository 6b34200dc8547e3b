use vstd::prelude::*;

verus! {

/// The errors of the translator from syntax trees to the IR.
#[derive(Debug, Clone, Copy, PartialEq, Eq, Structural)]
pub enum TranslationErrorKind {
    UndeclaredName,
    DuplicateDeclaration,
    UnknownType,
    IncompleteType,
    DuplicateField,
    UnknownField,
    TypeMismatch,
    NotAPlace,
    NotCallable,
    ArityMismatch,
    InvalidCast,
    BreakOutsideLoop,
    ContinueOutsideLoop,
    ReturnTypeMismatch,
    RecursiveValueType,
}

} // verus!
