use vstd::prelude::*;

use crate::ast::{BlockStatement, Statement};
use crate::errors::TranslationErrorKind;
use crate::span::{Span, Spanned};

verus! {

broadcast use vstd::std_specs::vec::group_vec_axioms;

/// The first `break` or `continue` of a statement that no loop encloses, with the
/// span of its keyword; `in_loop` says whether a loop encloses the statement itself.
pub open spec fn stray_jump(st: Spanned<Statement>, in_loop: bool) -> Option<
    (TranslationErrorKind, Span),
>
    decreases st, 1int,
{
    match st.inner {
        Statement::Break => if in_loop {
            None
        } else {
            Some((TranslationErrorKind::BreakOutsideLoop, st.span))
        },
        Statement::Continue => if in_loop {
            None
        } else {
            Some((TranslationErrorKind::ContinueOutsideLoop, st.span))
        },
        Statement::Block(b) => stray_jump_in(b.statements@, in_loop),
        Statement::If(s) => match stray_jump(*s.body, in_loop) {
            Some(e) => Some(e),
            None => match s.else_clause {
                Some(e) => stray_jump(*e, in_loop),
                None => None,
            },
        },
        Statement::While(w) => stray_jump(*w.body, true),
        Statement::For(f) => match stray_jump(*f.init, in_loop) {
            Some(e) => Some(e),
            None => stray_jump(*f.body, true),
        },
        _ => None,
    }
}

/// The first stray `break` or `continue` of a sequence of statements.
pub open spec fn stray_jump_in(s: Seq<Spanned<Statement>>, in_loop: bool) -> Option<
    (TranslationErrorKind, Span),
>
    decreases s, 0int,
{
    if s.len() == 0 {
        None
    } else {
        match stray_jump(s[0], in_loop) {
            Some(e) => Some(e),
            None => stray_jump_in(s.drop_first(), in_loop),
        }
    }
}


/// Whether a check result reports exactly the stray jump `expected`, or none.
pub open spec fn reports(r: Result<(), Spanned<TranslationErrorKind>>, expected: Option<(TranslationErrorKind, Span)>) -> bool {
    match r {
        Ok(()) => expected is None,
        Err(e) => expected == Some((e.inner, e.span)),
    }
}

/// Rejects the first `break` or `continue` of `statement` that no loop encloses,
/// with the span of its keyword.
pub fn check_loop_jumps(statement: &Spanned<Statement>, in_loop: bool) -> (r: Result<
    (),
    Spanned<TranslationErrorKind>,
>)
    ensures
        reports(r, stray_jump(*statement, in_loop)),
    decreases statement, 1int,
{
    match &statement.inner {
        Statement::Break => {
            if in_loop {
                Ok(())
            } else {
                Err(Spanned::new(TranslationErrorKind::BreakOutsideLoop, statement.span))
            }
        },
        Statement::Continue => {
            if in_loop {
                Ok(())
            } else {
                Err(Spanned::new(TranslationErrorKind::ContinueOutsideLoop, statement.span))
            }
        },
        Statement::Block(b) => check_block_jumps(&b.statements, in_loop),
        Statement::If(s) => {
            check_loop_jumps(&s.body, in_loop)?;
            match &s.else_clause {
                Some(e) => check_loop_jumps(e, in_loop),
                None => Ok(()),
            }
        },
        Statement::While(w) => check_loop_jumps(&w.body, true),
        Statement::For(f) => {
            check_loop_jumps(&f.init, in_loop)?;
            check_loop_jumps(&f.body, true)
        },
        _ => Ok(()),
    }
}

/// Rejects the first stray `break` or `continue` of a sequence of statements.
pub fn check_block_jumps(statements: &Vec<Spanned<Statement>>, in_loop: bool) -> (r: Result<
    (),
    Spanned<TranslationErrorKind>,
>)
    ensures
        reports(r, stray_jump_in(statements@, in_loop)),
    decreases statements, 0int,
{
    let mut i: usize = 0;
    assert(statements@.subrange(0, statements@.len() as int) =~= statements@);
    while i < statements.len()
        invariant
            i <= statements.len(),
            stray_jump_in(statements@, in_loop) == stray_jump_in(
                statements@.subrange(i as int, statements@.len() as int),
                in_loop,
            ),
        decreases statements.len() - i,
    {
        proof {
            assert(decreases_to!(*statements => statements[i as int]));
            let rest = statements@.subrange(i as int, statements@.len() as int);
            assert(rest.drop_first() =~= statements@.subrange(i + 1, statements@.len() as int));
            assert(rest[0] == statements@[i as int]);
        }
        check_loop_jumps(&statements[i], in_loop)?;
        i = i + 1;
    }
    Ok(())
}

/// Rejects the first stray `break` or `continue` of a function body.
pub fn check_body_jumps(body: &BlockStatement) -> (r: Result<(), Spanned<TranslationErrorKind>>)
    ensures
        reports(r, stray_jump_in(body.statements@, false)),
{
    check_block_jumps(&body.statements, false)
}

} // verus!
