use vstd::prelude::*;

use crate::ast::Type as Syntax;
use crate::errors::TranslationErrorKind;
use crate::lexer::spells;
use crate::relex::string_chars;
use crate::span::{Span, Spanned};
use crate::symbol_table::{resolve, SymbolTable};
use crate::ty::{
    FunctionType, Type, TypeId, TypeShape, TypeTable, BOOLEAN_INDEX, DOUBLE_INDEX, INT_INDEX,
    STRING_INDEX, VOID_INDEX,
};

verus! {

broadcast use vstd::std_specs::vec::group_vec_axioms;

/// The primitive type that a name spells, if any.
pub open spec fn primitive_named(name: Seq<char>) -> Option<usize> {
    if name =~= seq!['i', 'n', 't'] {
        Some(INT_INDEX)
    } else if name =~= seq!['d', 'o', 'u', 'b', 'l', 'e'] {
        Some(DOUBLE_INDEX)
    } else if name =~= seq!['b', 'o', 'o', 'l', 'e', 'a', 'n'] {
        Some(BOOLEAN_INDEX)
    } else if name =~= seq!['s', 't', 'r', 'i', 'n', 'g'] {
        Some(STRING_INDEX)
    } else if name =~= seq!['v', 'o', 'i', 'd'] {
        Some(VOID_INDEX)
    } else {
        None
    }
}

/// The type a name stands for: a primitive, or else a declared struct.
pub open spec fn named_type(structs: Seq<Seq<(Seq<char>, TypeId)>>, name: Seq<char>) -> Option<TypeId> {
    match primitive_named(name) {
        Some(i) => Some(TypeId { index: i }),
        None => resolve(structs, name),
    }
}

/// The span of the first name in a written type that stands for no type.
pub open spec fn first_unknown(structs: Seq<Seq<(Seq<char>, TypeId)>>, st: Spanned<Syntax>) -> Option<Span>
    decreases st, 2int,
{
    match st.inner {
        Syntax::Void => None,
        Syntax::Identifier(n) => if named_type(structs, n@) is None {
            Some(st.span)
        } else {
            None
        },
        Syntax::Pointer(b) => first_unknown(structs, *b),
        Syntax::Array(b, _) => first_unknown(structs, *b),
        Syntax::Function(f) => match first_unknown(structs, f.return_ty) {
            Some(s) => Some(s),
            None => first_unknown_in(structs, f.parameters_ty@),
        },
        Syntax::Tuple(ts) => first_unknown_in(structs, ts@),
    }
}

pub open spec fn first_unknown_in(structs: Seq<Seq<(Seq<char>, TypeId)>>, ts: Seq<Spanned<Syntax>>) -> Option<Span>
    decreases ts, 0int,
{
    if ts.len() == 0 {
        None
    } else {
        match first_unknown(structs, ts[0]) {
            Some(s) => Some(s),
            None => first_unknown_in(structs, ts.drop_first()),
        }
    }
}

/// Whether the handle `id` of `table` is the type written as `t`.
pub open spec fn denotes(table: TypeTable, structs: Seq<Seq<(Seq<char>, TypeId)>>, t: Syntax, id: TypeId) -> bool
    decreases t, 1int,
{
    &&& table.valid_id(id)
    &&& match t {
        Syntax::Void => id.index == VOID_INDEX,
        Syntax::Identifier(n) => named_type(structs, n@) == Some(id),
        Syntax::Pointer(b) => table.shape(id) is Pointer && denotes(
            table,
            structs,
            b.inner,
            table.shape(id)->Pointer_0,
        ),
        Syntax::Array(b, n) => table.shape(id) is Array && table.shape(id)->Array_1 == n
            && denotes(table, structs, b.inner, table.shape(id)->Array_0),
        Syntax::Tuple(ts) => table.shape(id) is Tuple && denotes_all(
            table,
            structs,
            ts@,
            table.shape(id)->Tuple_0,
        ),
        Syntax::Function(f) => table.shape(id) is FunctionPtr && table.shape(id)->FunctionPtr_2
            == f.is_vararg && denotes(
            table,
            structs,
            f.return_ty.inner,
            table.shape(id)->FunctionPtr_0,
        ) && denotes_all(table, structs, f.parameters_ty@, table.shape(id)->FunctionPtr_1),
    }
}

/// Whether the handles `cs` are, in order, the types written as `ts`.
pub open spec fn denotes_all(
    table: TypeTable,
    structs: Seq<Seq<(Seq<char>, TypeId)>>,
    ts: Seq<Spanned<Syntax>>,
    cs: Seq<TypeId>,
) -> bool
    decreases ts, 0int,
{
    &&& ts.len() == cs.len()
    &&& (ts.len() == 0 || (denotes(table, structs, ts[0].inner, cs[0]) && denotes_all(
        table,
        structs,
        ts.drop_first(),
        cs.drop_first(),
    )))
}

/// `b` holds every type of `a`, at the same handles.
pub open spec fn extends(a: TypeTable, b: TypeTable) -> bool {
    &&& a.len() <= b.len()
    &&& forall|i: int| 0 <= i < a.len() ==> #[trigger] b.shapes()[i] == a.shapes()[i]
}

proof fn lemma_denotes_extends(
    a: TypeTable,
    b: TypeTable,
    structs: Seq<Seq<(Seq<char>, TypeId)>>,
    t: Syntax,
    id: TypeId,
)
    requires
        extends(a, b),
        denotes(a, structs, t, id),
    ensures
        denotes(b, structs, t, id),
    decreases t, 1int,
{
    assert(b.shapes()[id.index as int] == a.shapes()[id.index as int]);
    match t {
        Syntax::Pointer(bx) => {
            lemma_denotes_extends(a, b, structs, bx.inner, a.shape(id)->Pointer_0);
        },
        Syntax::Array(bx, _) => {
            lemma_denotes_extends(a, b, structs, bx.inner, a.shape(id)->Array_0);
        },
        Syntax::Tuple(ts) => {
            lemma_denotes_all_extends(a, b, structs, ts@, a.shape(id)->Tuple_0);
        },
        Syntax::Function(f) => {
            lemma_denotes_extends(a, b, structs, f.return_ty.inner, a.shape(id)->FunctionPtr_0);
            lemma_denotes_all_extends(a, b, structs, f.parameters_ty@, a.shape(id)->FunctionPtr_1);
        },
        _ => {},
    }
}

pub proof fn lemma_denotes_all_extends(
    a: TypeTable,
    b: TypeTable,
    structs: Seq<Seq<(Seq<char>, TypeId)>>,
    ts: Seq<Spanned<Syntax>>,
    cs: Seq<TypeId>,
)
    requires
        extends(a, b),
        denotes_all(a, structs, ts, cs),
    ensures
        denotes_all(b, structs, ts, cs),
    decreases ts, 0int,
{
    if ts.len() > 0 {
        lemma_denotes_extends(a, b, structs, ts[0].inner, cs[0]);
        lemma_denotes_all_extends(a, b, structs, ts.drop_first(), cs.drop_first());
    }
}

pub proof fn lemma_denotes_all_valid(
    table: TypeTable,
    structs: Seq<Seq<(Seq<char>, TypeId)>>,
    ts: Seq<Spanned<Syntax>>,
    cs: Seq<TypeId>,
)
    requires
        denotes_all(table, structs, ts, cs),
    ensures
        forall|i: int| 0 <= i < cs.len() ==> (#[trigger] cs[i]).index < table.len(),
    decreases ts.len(),
{
    if ts.len() > 0 {
        lemma_denotes_all_valid(table, structs, ts.drop_first(), cs.drop_first());
        assert(denotes(table, structs, ts[0].inner, cs[0]));
        assert(table.valid_id(cs[0]));
        assert forall|i: int| 0 <= i < cs.len() implies (#[trigger] cs[i]).index < table.len() by {
            if i > 0 {
                assert(cs[i] == cs.drop_first()[i - 1]);
            }
        }
    }
}

pub proof fn lemma_denotes_all_push(
    table: TypeTable,
    structs: Seq<Seq<(Seq<char>, TypeId)>>,
    ts: Seq<Spanned<Syntax>>,
    cs: Seq<TypeId>,
    t: Spanned<Syntax>,
    c: TypeId,
)
    requires
        denotes_all(table, structs, ts, cs),
        denotes(table, structs, t.inner, c),
    ensures
        denotes_all(table, structs, ts.push(t), cs.push(c)),
    decreases ts.len(),
{
    if ts.len() == 0 {
        assert(ts.push(t).drop_first() =~= Seq::<Spanned<Syntax>>::empty());
        assert(cs.push(c).drop_first() =~= Seq::<TypeId>::empty());
        assert(ts.push(t)[0] == t);
        assert(cs.push(c)[0] == c);
        assert(denotes_all(table, structs, Seq::<Spanned<Syntax>>::empty(), Seq::<TypeId>::empty()));
    } else {
        lemma_denotes_all_push(table, structs, ts.drop_first(), cs.drop_first(), t, c);
        assert(ts.push(t).drop_first() =~= ts.drop_first().push(t));
        assert(cs.push(c).drop_first() =~= cs.drop_first().push(c));
        assert(ts.push(t)[0] == ts[0]);
        assert(cs.push(c)[0] == cs[0]);
    }
}

proof fn lemma_first_unknown_in_push(
    structs: Seq<Seq<(Seq<char>, TypeId)>>,
    ts: Seq<Spanned<Syntax>>,
    t: Spanned<Syntax>,
)
    requires
        first_unknown_in(structs, ts) is None,
    ensures
        first_unknown_in(structs, ts.push(t)) == first_unknown(structs, t),
    decreases ts.len(),
{
    if ts.len() == 0 {
        assert(ts.push(t).drop_first() =~= Seq::<Spanned<Syntax>>::empty());
        assert(ts.push(t)[0] == t);
        assert(first_unknown_in(structs, Seq::<Spanned<Syntax>>::empty()) is None);
    } else {
        assert(first_unknown(structs, ts[0]) is None);
        lemma_first_unknown_in_push(structs, ts.drop_first(), t);
        assert(ts.push(t).drop_first() =~= ts.drop_first().push(t));
        assert(ts.push(t)[0] == ts[0]);
    }
}

/// The interned handle of a primitive type name.
fn primitive_index(name: &String) -> (r: Option<usize>)
    ensures
        r == primitive_named(name@),
{
    let cs = string_chars(name);
    let n = cs.len();
    if spells(&cs, 0, n, &vec!['i', 'n', 't']) {
        Some(INT_INDEX)
    } else if spells(&cs, 0, n, &vec!['d', 'o', 'u', 'b', 'l', 'e']) {
        Some(DOUBLE_INDEX)
    } else if spells(&cs, 0, n, &vec!['b', 'o', 'o', 'l', 'e', 'a', 'n']) {
        Some(BOOLEAN_INDEX)
    } else if spells(&cs, 0, n, &vec!['s', 't', 'r', 'i', 'n', 'g']) {
        Some(STRING_INDEX)
    } else if spells(&cs, 0, n, &vec!['v', 'o', 'i', 'd']) {
        Some(VOID_INDEX)
    } else {
        assert(cs@.subrange(0, n as int) =~= cs@);
        None
    }
}


/// Every struct name bound in `structs` stands for a type of `table`.
pub open spec fn structs_valid(table: TypeTable, structs: Seq<Seq<(Seq<char>, TypeId)>>) -> bool {
    forall|name: Seq<char>| #[trigger] resolve(structs, name) is Some ==> table.valid_id(
        resolve(structs, name)->0,
    )
}

pub proof fn lemma_extends_trans(a: TypeTable, b: TypeTable, c: TypeTable)
    requires
        extends(a, b),
        extends(b, c),
    ensures
        extends(a, c),
{
    assert forall|i: int| 0 <= i < a.len() implies #[trigger] c.shapes()[i] == a.shapes()[i] by {
        assert(c.shapes()[i] == b.shapes()[i]);
    }
}

proof fn lemma_extends_refl(a: TypeTable)
    ensures
        extends(a, a),
{
}

pub proof fn lemma_structs_valid_extends(a: TypeTable, b: TypeTable, structs: Seq<Seq<(Seq<char>, TypeId)>>)
    requires
        extends(a, b),
        structs_valid(a, structs),
    ensures
        structs_valid(b, structs),
{
}

proof fn lemma_intern_extends(a: TypeTable, b: TypeTable, t: TypeShape)
    requires
        a.shapes().contains(t) ==> b.shapes() == a.shapes(),
        !a.shapes().contains(t) ==> b.shapes() == a.shapes().push(t),
    ensures
        extends(a, b),
{
    if !a.shapes().contains(t) {
        assert forall|i: int| 0 <= i < a.len() implies #[trigger] b.shapes()[i] == a.shapes()[i] by {
            assert(a.shapes().push(t)[i] == a.shapes()[i]);
        }
    }
}

/// The handle of a written type, interning what it is built from; a name that stands
/// for no type is an unknown type, reported with its span.
pub fn resolve_type(st: &Spanned<Syntax>, structs: &SymbolTable<TypeId>, table: &mut TypeTable) -> (r: Result<
    TypeId,
    Spanned<TranslationErrorKind>,
>)
    requires
        old(table).wf(),
        structs_valid(*old(table), structs.view_scopes()),
    ensures
        final(table).wf(),
        extends(*old(table), *final(table)),
        r is Err <==> first_unknown(structs.view_scopes(), *st) is Some,
        r is Err ==> r->Err_0.inner == TranslationErrorKind::UnknownType && r->Err_0.span
            == first_unknown(structs.view_scopes(), *st)->0,
        r is Ok ==> denotes(*final(table), structs.view_scopes(), st.inner, r->Ok_0),
    decreases st, 2int,
{
    let ghost sv = structs.view_scopes();
    proof {
        lemma_extends_refl(*old(table));
    }
    match &st.inner {
        Syntax::Void => Ok(TypeId { index: VOID_INDEX }),
        Syntax::Identifier(n) => {
            match primitive_index(n) {
                Some(i) => Ok(TypeId { index: i }),
                None => match structs.lookup(n) {
                    Some(id) => Ok(*id),
                    None => Err(Spanned::new(TranslationErrorKind::UnknownType, st.span)),
                },
            }
        },
        Syntax::Pointer(b) => {
            let c = resolve_type(b, structs, table)?;
            let ghost mid = *table;
            let id = table.intern(Type::Pointer(c));
            proof {
                lemma_intern_extends(mid, *table, TypeShape::Pointer(c));
                lemma_denotes_extends(mid, *table, sv, b.inner, c);
                lemma_extends_trans(*old(table), mid, *table);
            }
            Ok(id)
        },
        Syntax::Array(b, size) => {
            let c = resolve_type(b, structs, table)?;
            let ghost mid = *table;
            let id = table.intern(Type::Array(c, *size));
            proof {
                lemma_intern_extends(mid, *table, TypeShape::Array(c, *size));
                lemma_denotes_extends(mid, *table, sv, b.inner, c);
                lemma_extends_trans(*old(table), mid, *table);
            }
            Ok(id)
        },
        Syntax::Tuple(ts) => {
            let cs = resolve_types(ts, structs, table)?;
            let ghost mid = *table;
            let ghost cv = cs@;
            proof {
                lemma_denotes_all_valid(mid, sv, ts@, cv);
            }
            let id = table.intern(Type::Tuple(cs));
            proof {
                lemma_intern_extends(mid, *table, TypeShape::Tuple(cv));
                lemma_denotes_all_extends(mid, *table, sv, ts@, cv);
                lemma_extends_trans(*old(table), mid, *table);
            }
            Ok(id)
        },
        Syntax::Function(f) => {
            let ret = resolve_type(&f.return_ty, structs, table)?;
            let ghost after_ret = *table;
            proof {
                lemma_structs_valid_extends(*old(table), after_ret, sv);
            }
            let params = resolve_types(&f.parameters_ty, structs, table)?;
            let ghost mid = *table;
            let ghost pv = params@;
            proof {
                lemma_denotes_extends(after_ret, mid, sv, f.return_ty.inner, ret);
                lemma_denotes_all_valid(mid, sv, f.parameters_ty@, pv);
                lemma_extends_trans(*old(table), after_ret, mid);
            }
            let ft = FunctionType { return_ty: ret, parameters_ty: params, is_vararg: f.is_vararg };
            let id = table.intern(Type::FunctionPtr(ft));
            proof {
                lemma_intern_extends(mid, *table, TypeShape::FunctionPtr(ret, pv, f.is_vararg));
                lemma_denotes_extends(mid, *table, sv, f.return_ty.inner, ret);
                lemma_denotes_all_extends(mid, *table, sv, f.parameters_ty@, pv);
                lemma_extends_trans(*old(table), mid, *table);
            }
            Ok(id)
        },
    }
}

/// The handles of a list of written types, in order; the first unknown name is
/// reported with its span.
pub fn resolve_types(ts: &Vec<Spanned<Syntax>>, structs: &SymbolTable<TypeId>, table: &mut TypeTable) -> (r: Result<
    Vec<TypeId>,
    Spanned<TranslationErrorKind>,
>)
    requires
        old(table).wf(),
        structs_valid(*old(table), structs.view_scopes()),
    ensures
        final(table).wf(),
        extends(*old(table), *final(table)),
        r is Err <==> first_unknown_in(structs.view_scopes(), ts@) is Some,
        r is Err ==> r->Err_0.inner == TranslationErrorKind::UnknownType && r->Err_0.span
            == first_unknown_in(structs.view_scopes(), ts@)->0,
        r is Ok ==> denotes_all(*final(table), structs.view_scopes(), ts@, r->Ok_0@),
    decreases ts, 0int,
{
    let ghost sv = structs.view_scopes();
    let mut out: Vec<TypeId> = Vec::new();
    let mut i: usize = 0;
    proof {
        lemma_extends_refl(*old(table));
        assert(ts@.subrange(0, ts@.len() as int) =~= ts@);
        assert(ts@.subrange(0, 0) =~= Seq::<Spanned<Syntax>>::empty());
        assert(denotes_all(*table, sv, Seq::<Spanned<Syntax>>::empty(), Seq::<TypeId>::empty()));
    }
    while i < ts.len()
        invariant
            sv == structs.view_scopes(),
            i <= ts.len(),
            table.wf(),
            extends(*old(table), *table),
            structs_valid(*table, sv),
            first_unknown_in(sv, ts@) == first_unknown_in(sv, ts@.subrange(i as int, ts@.len() as int)),
            denotes_all(*table, sv, ts@.subrange(0, i as int), out@),
        decreases ts.len() - i,
    {
        proof {
            assert(decreases_to!(*ts => ts[i as int]));
            let rest = ts@.subrange(i as int, ts@.len() as int);
            assert(rest.drop_first() =~= ts@.subrange(i + 1, ts@.len() as int));
            assert(rest[0] == ts@[i as int]);
        }
        let ghost before = *table;
        let c = resolve_type(&ts[i], structs, table)?;
        proof {
            lemma_denotes_all_extends(before, *table, sv, ts@.subrange(0, i as int), out@);
            lemma_denotes_all_push(*table, sv, ts@.subrange(0, i as int), out@, ts@[i as int], c);
            assert(ts@.subrange(0, i as int).push(ts@[i as int]) =~= ts@.subrange(0, i + 1));
            lemma_extends_trans(*old(table), before, *table);
            lemma_structs_valid_extends(before, *table, sv);
        }
        out.push(c);
        i = i + 1;
    }
    proof {
        assert(ts@.subrange(0, i as int) =~= ts@);
        assert(ts@.subrange(i as int, ts@.len() as int) =~= Seq::<Spanned<Syntax>>::empty());
    }
    Ok(out)
}


} // verus!
