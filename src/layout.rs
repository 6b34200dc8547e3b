use vstd::prelude::*;

use crate::ast;
use crate::errors::TranslationErrorKind;
use crate::span::{Span, Spanned};
use crate::resolve::{
    denotes, denotes_all, first_unknown, first_unknown_in, resolve_type, structs_valid,
};
use crate::symbol_table::{
    find_in_scope, lemma_find_in_scope_push, lemma_resolve_single, resolve, SymbolTable,
};
use crate::ty::{Type, TypeId, TypeShape, TypeTable};

verus! {

/// `b` is laid out inside `a`: a field of struct `a`, the element type of array `a`,
/// or a component of tuple `a`. A pointer does not lay out what it points to.
pub open spec fn embeds(table: TypeTable, a: int, b: int) -> bool {
    &&& 0 <= a < table.len()
    &&& match table.shapes()[a] {
        TypeShape::Struct(_, fs) => exists|i: int| 0 <= i < fs.len() && (#[trigger] fs[i]).1.index == b,
        TypeShape::Array(c, _) => c.index == b,
        TypeShape::Tuple(cs) => exists|i: int| 0 <= i < cs.len() && (#[trigger] cs[i]).index == b,
        _ => false,
    }
}

/// A chain of types, each laid out inside the one before it.
pub open spec fn embed_path(table: TypeTable, path: Seq<int>) -> bool {
    &&& path.len() >= 2
    &&& forall|i: int| 0 <= i < path.len() - 1 ==> #[trigger] embeds(table, path[i], path[i + 1])
}

/// Whether type `t` contains itself by value, which no finite layout allows.
pub open spec fn embeds_itself(table: TypeTable, t: int) -> bool {
    exists|path: Seq<int>|
        #[trigger] embed_path(table, path) && path[0] == t && path.last() == t
}

/// Whether `v` can be reached from `t` through one or more embeddings.
spec fn reached_by(table: TypeTable, t: int, v: int, path: Seq<int>) -> bool {
    embed_path(table, path) && path[0] == t && path.last() == v
}

/// The types laid out directly inside `node`, as handles.
fn embedded(table: &TypeTable, node: usize) -> (r: Vec<usize>)
    requires
        table.wf(),
        node < table.len(),
    ensures
        forall|b: usize| embeds(*table, node as int, b as int) <==> r@.contains(b),
        forall|i: int| 0 <= i < r.len() ==> (#[trigger] r@[i]) < table.len(),
{
    proof {
        assert(crate::ty::components_below(
            table.shapes()[node as int],
            if table.shapes()[node as int] is Struct {
                table.len() as int
            } else {
                node as int
            },
        ));
    }
    let mut out: Vec<usize> = Vec::new();
    match table.get(TypeId { index: node }) {
        Type::Struct(s) => {
            let ghost fs = crate::ty::fields_view(s.fields@);
            let mut i: usize = 0;
            while i < s.fields.len()
                invariant
                    i <= s.fields.len(),
                    fs == crate::ty::fields_view(s.fields@),
                    table.shapes()[node as int] == TypeShape::Struct(s.name@, fs),
                    crate::ty::components_below(table.shapes()[node as int], table.len() as int),
                    forall|b: usize|
                        (exists|k: int| 0 <= k < i && (#[trigger] fs[k]).1.index == b) <==> out@.contains(b),
                    forall|k: int| 0 <= k < out.len() ==> (#[trigger] out@[k]) < table.len(),
                decreases s.fields.len() - i,
            {
                let c = s.fields[i].1.index;
                proof {
                    assert(fs[i as int].1.index == c);
                    assert(fs.len() == s.fields.len());
                    assert(crate::ty::components_below(TypeShape::Struct(s.name@, fs), table.len() as int));
                    assert(fs[i as int].1.index < table.len());
                    assert(out@.push(c).last() == c);
                    assert forall|b: usize|
                        (exists|k: int| 0 <= k < i + 1 && (#[trigger] fs[k]).1.index == b) <==> #[trigger] out@.push(c).contains(b) by {
                        if out@.push(c).contains(b) {
                            let j = choose|j: int| 0 <= j < out@.push(c).len() && out@.push(c)[j] == b;
                            if j < out.len() {
                                assert(out@.contains(b));
                            }
                        }
                        if exists|k: int| 0 <= k < i + 1 && (#[trigger] fs[k]).1.index == b {
                            let k = choose|k: int| 0 <= k < i + 1 && (#[trigger] fs[k]).1.index == b;
                            if k < i {
                                assert(out@.contains(b));
                                let j = choose|j: int| 0 <= j < out.len() && out@[j] == b;
                                assert(out@.push(c)[j] == b);
                            } else {
                                assert(out@.push(c)[out.len() as int] == c);
                            }
                        }
                    }
                }
                out.push(c);
                i = i + 1;
            }
        },
        Type::Array(c, _) => {
            out.push(c.index);
            proof {
                assert forall|b: usize| embeds(*table, node as int, b as int) <==> #[trigger] out@.contains(b) by {
                    if out@.contains(b) {
                        let j = choose|j: int| 0 <= j < out.len() && out@[j] == b;
                    }
                    if embeds(*table, node as int, b as int) {
                        assert(out@[0] == c.index);
                    }
                }
            }
        },
        Type::Tuple(cs) => {
            let mut i: usize = 0;
            while i < cs.len()
                invariant
                    i <= cs.len(),
                    table.shapes()[node as int] == TypeShape::Tuple(cs@),
                    crate::ty::components_below(table.shapes()[node as int], node as int),
                    node < table.len(),
                    forall|b: usize|
                        (exists|k: int| 0 <= k < i && (#[trigger] cs@[k]).index == b) <==> out@.contains(b),
                    forall|k: int| 0 <= k < out.len() ==> (#[trigger] out@[k]) < table.len(),
                decreases cs.len() - i,
            {
                let c = cs[i].index;
                proof {
                    assert(crate::ty::components_below(TypeShape::Tuple(cs@), node as int));
                    assert(cs@[i as int].index < node);
                    assert forall|b: usize|
                        (exists|k: int| 0 <= k < i + 1 && (#[trigger] cs@[k]).index == b) <==> #[trigger] out@.push(c).contains(b) by {
                        if out@.push(c).contains(b) {
                            let j = choose|j: int| 0 <= j < out@.push(c).len() && out@.push(c)[j] == b;
                            if j < out.len() {
                                assert(out@.contains(b));
                            }
                        }
                        if exists|k: int| 0 <= k < i + 1 && (#[trigger] cs@[k]).index == b {
                            let k = choose|k: int| 0 <= k < i + 1 && (#[trigger] cs@[k]).index == b;
                            if k < i {
                                assert(out@.contains(b));
                                let j = choose|j: int| 0 <= j < out.len() && out@[j] == b;
                                assert(out@.push(c)[j] == b);
                            } else {
                                assert(out@.push(c)[out.len() as int] == c);
                            }
                        }
                    }
                }
                out.push(c);
                i = i + 1;
            }
        },
        _ => {},
    }
    out
}


spec fn count_true(s: Seq<bool>) -> nat
    decreases s.len(),
{
    if s.len() == 0 {
        0
    } else {
        count_true(s.drop_last()) + if s.last() {
            1nat
        } else {
            0nat
        }
    }
}

proof fn lemma_count_true_bound(s: Seq<bool>)
    ensures
        count_true(s) <= s.len(),
    decreases s.len(),
{
    if s.len() > 0 {
        lemma_count_true_bound(s.drop_last());
    }
}

proof fn lemma_count_true_set(s: Seq<bool>, i: int)
    requires
        0 <= i < s.len(),
        !s[i],
    ensures
        count_true(s.update(i, true)) == count_true(s) + 1,
    decreases s.len(),
{
    if i < s.len() - 1 {
        assert(s.update(i, true).drop_last() =~= s.drop_last().update(i, true));
        lemma_count_true_set(s.drop_last(), i);
    } else {
        assert(s.update(i, true).drop_last() =~= s.drop_last());
    }
}

/// Every type on a chain that leaves `t` is visited, when the visited types that
/// were processed contain everything laid out inside them.
proof fn lemma_chain_visited(
    table: TypeTable,
    visited: Seq<bool>,
    processed: Set<int>,
    t: int,
    path: Seq<int>,
    k: int,
)
    requires
        embed_path(table, path),
        path[0] == t,
        1 <= k < path.len(),
        forall|c: int| #[trigger] embeds(table, t, c) ==> 0 <= c < visited.len() && visited[c],
        forall|v: int| 0 <= v < visited.len() && #[trigger] visited[v] ==> processed.contains(v),
        forall|v: int, c: int|
            #[trigger] processed.contains(v) && #[trigger] embeds(table, v, c) ==> 0 <= c
                < visited.len() && visited[c],
    ensures
        0 <= path[k] < visited.len() && visited[path[k]],
    decreases k,
{
    let i = k - 1;
    assert(embeds(table, path[i], path[i + 1]));
    if k > 1 {
        lemma_chain_visited(table, visited, processed, t, path, k - 1);
    }
}

/// Whether `t` contains itself by value: a breadth-first walk through what is laid
/// out inside it.
fn reaches_back(table: &TypeTable, t: usize) -> (r: bool)
    requires
        table.wf(),
        t < table.len(),
    ensures
        r == embeds_itself(*table, t as int),
{
    let n = table.size();
    let mut visited: Vec<bool> = Vec::new();
    let mut i: usize = 0;
    while i < n
        invariant
            i <= n,
            visited.len() == i,
            forall|v: int| 0 <= v < i ==> !visited@[v],
        decreases n - i,
    {
        visited.push(false);
        i = i + 1;
    }
    proof {
        assert(count_true(visited@) == 0) by {
            lemma_count_none(visited@);
        }
    }
    let mut work: Vec<usize> = Vec::new();
    let ghost mut paths: Map<int, Seq<int>> = Map::empty();
    let ghost mut processed: Set<int> = Set::empty();
    let seeds = embedded(table, t);
    let mut j: usize = 0;
    while j < seeds.len()
        invariant
            n == table.len(),
            table.wf(),
            t < n,
            j <= seeds.len(),
            visited.len() == n,
            forall|b: usize| embeds(*table, t as int, b as int) <==> seeds@.contains(b),
            forall|k: int| 0 <= k < seeds.len() ==> (#[trigger] seeds@[k]) < n,
            !visited@[t as int],
            processed == Set::<int>::empty(),
            forall|v: int|
                0 <= v < n && #[trigger] visited@[v] ==> paths.contains_key(v) && reached_by(
                    *table,
                    t as int,
                    v,
                    paths[v],
                ),
            forall|k: int| 0 <= k < work.len() ==> (#[trigger] work@[k]) < n && visited@[work@[k] as int],
            forall|v: int|
                0 <= v < n && #[trigger] visited@[v] ==> processed.contains(v) || work@.contains(
                    v as usize,
                ),
            forall|k: int| 0 <= k < j ==> visited@[(#[trigger] seeds@[k]) as int],
            count_true(visited@) <= n,
        decreases seeds.len() - j,
    {
        let c = seeds[j];
        assert(seeds@.contains(c));
        if c == t {
            proof {
                let path = seq![t as int, t as int];
                assert(embed_path(*table, path));
            }
            return true;
        }
        if !visited[c] {
            proof {
                lemma_count_true_set(visited@, c as int);
                lemma_count_true_bound(visited@.update(c as int, true));
                let path = seq![t as int, c as int];
                assert(embed_path(*table, path));
                paths = paths.insert(c as int, path);
                lemma_push_contains(work@, c);
            }
            visited.set(c, true);
            work.push(c);
        }
        j = j + 1;
    }
    assert forall|c: int| #[trigger] embeds(*table, t as int, c) implies 0 <= c < visited.len()
        && visited@[c] by {
        assert(seeds@.contains(c as usize));
        let k = choose|k: int| 0 <= k < seeds.len() && seeds@[k] == c as usize;
    }
    while work.len() > 0
        invariant
            n == table.len(),
            table.wf(),
            t < n,
            visited.len() == n,
            !visited@[t as int],
            forall|c: int| #[trigger] embeds(*table, t as int, c) ==> 0 <= c < visited.len()
                && visited@[c],
            forall|v: int|
                0 <= v < n && #[trigger] visited@[v] ==> paths.contains_key(v) && reached_by(
                    *table,
                    t as int,
                    v,
                    paths[v],
                ),
            forall|k: int| 0 <= k < work.len() ==> (#[trigger] work@[k]) < n && visited@[work@[k] as int],
            forall|v: int|
                0 <= v < n && #[trigger] visited@[v] ==> processed.contains(v) || work@.contains(
                    v as usize,
                ),
            forall|v: int, c: int|
                #[trigger] processed.contains(v) && #[trigger] embeds(*table, v, c) ==> 0 <= c < n
                    && visited@[c],
            forall|v: int| #[trigger] processed.contains(v) ==> 0 <= v < n && visited@[v],
            count_true(visited@) <= n,
        decreases n - count_true(visited@), work.len(),
    {
        let ghost old_work = work@;
        let node = work.pop().unwrap();
        let ghost count_before = count_true(visited@);
        let ghost len_after_pop = work.len();
        proof {
            assert(work@ == old_work.drop_last());
            assert(node == old_work.last());
            lemma_pop_contains(old_work);
        }
        let kids = embedded(table, node);
        let mut j: usize = 0;
        while j < kids.len()
            invariant
                n == table.len(),
                table.wf(),
                t < n,
                node < n,
                visited@[node as int],
                j <= kids.len(),
                visited.len() == n,
                !visited@[t as int],
                forall|b: usize| embeds(*table, node as int, b as int) <==> kids@.contains(b),
                forall|k: int| 0 <= k < kids.len() ==> (#[trigger] kids@[k]) < n,
                forall|c: int| #[trigger] embeds(*table, t as int, c) ==> 0 <= c < visited.len()
                    && visited@[c],
                forall|v: int|
                    0 <= v < n && #[trigger] visited@[v] ==> paths.contains_key(v) && reached_by(
                        *table,
                        t as int,
                        v,
                        paths[v],
                    ),
                forall|k: int| 0 <= k < work.len() ==> (#[trigger] work@[k]) < n && visited@[work@[k] as int],
                forall|v: int|
                    0 <= v < n && #[trigger] visited@[v] ==> v == node || processed.contains(v)
                        || work@.contains(v as usize),
                forall|v: int, c: int|
                    #[trigger] processed.contains(v) && #[trigger] embeds(*table, v, c) ==> 0 <= c
                        < n && visited@[c],
                forall|v: int| #[trigger] processed.contains(v) ==> 0 <= v < n && visited@[v],
                forall|k: int| 0 <= k < j ==> visited@[(#[trigger] kids@[k]) as int],
                count_before <= count_true(visited@) <= n,
                count_true(visited@) == count_before ==> work.len() == len_after_pop,
            decreases kids.len() - j,
        {
            let c = kids[j];
            assert(kids@.contains(c));
            if c == t {
                proof {
                    let path = paths[node as int].push(t as int);
                    assert(embed_path(*table, path)) by {
                        assert forall|i: int| 0 <= i < path.len() - 1 implies #[trigger] embeds(
                            *table,
                            path[i],
                            path[i + 1],
                        ) by {
                            if i < path.len() - 2 {
                                assert(embeds(*table, paths[node as int][i], paths[node as int][i + 1]));
                            }
                        }
                    }
                    assert(path[0] == t && path.last() == t);
                }
                return true;
            }
            if !visited[c] {
                proof {
                    lemma_count_true_set(visited@, c as int);
                    lemma_count_true_bound(visited@.update(c as int, true));
                    let path = paths[node as int].push(c as int);
                    assert(embed_path(*table, path)) by {
                        assert forall|i: int| 0 <= i < path.len() - 1 implies #[trigger] embeds(
                            *table,
                            path[i],
                            path[i + 1],
                        ) by {
                            if i < path.len() - 2 {
                                assert(embeds(*table, paths[node as int][i], paths[node as int][i + 1]));
                            }
                        }
                    }
                    paths = paths.insert(c as int, path);
                    lemma_push_contains(work@, c);
                }
                visited.set(c, true);
                work.push(c);
            }
            j = j + 1;
        }
        proof {
            processed = processed.insert(node as int);
            assert forall|c: int| #[trigger] embeds(*table, node as int, c) implies 0 <= c < n
                && visited@[c] by {
                assert(kids@.contains(c as usize));
                let k = choose|k: int| 0 <= k < kids.len() && kids@[k] == c as usize;
            }
        }
    }
    proof {
        if embeds_itself(*table, t as int) {
            let path = choose|path: Seq<int>|
                #[trigger] embed_path(*table, path) && path[0] == t && path.last() == t;
            lemma_chain_visited(*table, visited@, processed, t as int, path, path.len() - 1);
        }
    }
    false
}

proof fn lemma_push_contains(s: Seq<usize>, x: usize)
    ensures
        s.push(x).contains(x),
        forall|y: usize| s.contains(y) ==> #[trigger] s.push(x).contains(y),
{
    assert(s.push(x)[s.len() as int] == x);
    assert forall|y: usize| s.contains(y) implies #[trigger] s.push(x).contains(y) by {
        let k = choose|k: int| 0 <= k < s.len() && s[k] == y;
        assert(s.push(x)[k] == y);
    }
}

proof fn lemma_pop_contains(s: Seq<usize>)
    requires
        s.len() > 0,
    ensures
        forall|y: usize| s.contains(y) ==> y == s.last() || #[trigger] s.drop_last().contains(y),
{
    assert forall|y: usize| s.contains(y) implies y == s.last() || #[trigger] s.drop_last().contains(y) by {
        let k = choose|k: int| 0 <= k < s.len() && s[k] == y;
        if k < s.len() - 1 {
            assert(s.drop_last()[k] == y);
        }
    }
}

proof fn lemma_count_none(s: Seq<bool>)
    requires
        forall|v: int| 0 <= v < s.len() ==> !s[v],
    ensures
        count_true(s) == 0,
    decreases s.len(),
{
    if s.len() > 0 {
        lemma_count_none(s.drop_last());
    }
}

/// The first type of the table that contains itself by value, if any: such a type
/// is a recursive value type, which no layout can hold.
pub fn find_recursive_value_type(table: &TypeTable) -> (r: Option<TypeId>)
    requires
        table.wf(),
    ensures
        r is Some ==> table.valid_id(r->0) && embeds_itself(*table, r->0.index as int) && forall|u: int|
            0 <= u < r->0.index ==> !embeds_itself(*table, u),
        r is None ==> forall|u: int| 0 <= u < table.len() ==> !embeds_itself(*table, u),
{
    let n = table.size();
    let mut i: usize = 0;
    while i < n
        invariant
            n == table.len(),
            table.wf(),
            i <= n,
            forall|u: int| 0 <= u < i ==> !embeds_itself(*table, u),
        decreases n - i,
    {
        if reaches_back(table, i) {
            return Some(TypeId { index: i });
        }
        i = i + 1;
    }
    None
}


/// Whether the name at `k` repeats an earlier one.
pub open spec fn repeats_earlier(names: Seq<Seq<char>>, k: int) -> bool {
    exists|j: int| 0 <= j < k && #[trigger] names[j] == names[k]
}

/// The position, from `k` on, of the first name that repeats an earlier one.
pub open spec fn first_repeat_from(names: Seq<Seq<char>>, k: int) -> Option<int>
    decreases names.len() - k,
{
    if k < 0 || k >= names.len() {
        None
    } else if repeats_earlier(names, k) {
        Some(k)
    } else {
        first_repeat_from(names, k + 1)
    }
}

/// The position of the first name that repeats an earlier one.
pub open spec fn first_repeat(names: Seq<Seq<char>>) -> Option<int> {
    first_repeat_from(names, 0)
}

pub open spec fn field_names(fields: Seq<(Spanned<String>, Spanned<ast::Type>)>) -> Seq<Seq<char>> {
    fields.map_values(|f: (Spanned<String>, Spanned<ast::Type>)| f.0.inner@)
}

/// Rejects the first field of a struct whose name an earlier field has, with the span
/// of that name.
pub fn check_duplicate_fields(fields: &Vec<(Spanned<String>, Spanned<ast::Type>)>) -> (r: Result<
    (),
    Spanned<TranslationErrorKind>,
>)
    ensures
        r is Ok <==> first_repeat(field_names(fields@)) is None,
        r is Err ==> r->Err_0.inner == TranslationErrorKind::DuplicateField && r->Err_0.span
            == fields@[first_repeat(field_names(fields@))->0].0.span,
{
    let ghost names = field_names(fields@);
    let mut k: usize = 0;
    while k < fields.len()
        invariant
            k <= fields.len(),
            names == field_names(fields@),
            first_repeat(names) == first_repeat_from(names, k as int),
        decreases fields.len() - k,
    {
        let mut j: usize = 0;
        while j < k
            invariant
                j <= k < fields.len(),
                names == field_names(fields@),
                first_repeat(names) == first_repeat_from(names, k as int),
                forall|i: int| 0 <= i < j ==> names[i] != names[k as int],
            decreases k - j,
        {
            if fields[j].0.inner == fields[k].0.inner {
                proof {
                    assert(names[j as int] == names[k as int]);
                    assert(repeats_earlier(names, k as int));
                }
                return Err(Spanned::new(TranslationErrorKind::DuplicateField, fields[k].0.span));
            }
            j = j + 1;
        }
        proof {
            assert(!repeats_earlier(names, k as int));
        }
        k = k + 1;
    }
    Ok(())
}

/// Rejects the first declared struct that contains itself by value, with the span of
/// its declaration; `ids` are the handles of the declarations, in order.
pub fn check_value_recursion(decls: &Vec<ast::Struct>, ids: &Vec<TypeId>, table: &TypeTable) -> (r: Result<
    (),
    Spanned<TranslationErrorKind>,
>)
    requires
        table.wf(),
        ids.len() == decls.len(),
        forall|k: int| 0 <= k < ids.len() ==> table.valid_id(#[trigger] ids@[k]),
    ensures
        r is Ok <==> forall|k: int| 0 <= k < ids.len() ==> !embeds_itself(*table, (#[trigger] ids@[k]).index as int),
        r is Err ==> r->Err_0.inner == TranslationErrorKind::RecursiveValueType && exists|k: int|
            0 <= k < ids.len() && embeds_itself(*table, ids@[k].index as int) && r->Err_0.span
                == decls@[k].span && forall|m: int| 0 <= m < k ==> !embeds_itself(*table, (#[trigger] ids@[m]).index as int),
{
    let mut k: usize = 0;
    while k < ids.len()
        invariant
            table.wf(),
            k <= ids.len(),
            ids.len() == decls.len(),
            forall|i: int| 0 <= i < ids.len() ==> table.valid_id(#[trigger] ids@[i]),
            forall|m: int| 0 <= m < k ==> !embeds_itself(*table, (#[trigger] ids@[m]).index as int),
        decreases ids.len() - k,
    {
        assert(table.valid_id(ids@[k as int]));
        if reaches_back(table, ids[k].index) {
            return Err(Spanned::new(TranslationErrorKind::RecursiveValueType, decls[k].span));
        }
        k = k + 1;
    }
    Ok(())
}


pub open spec fn struct_names(decls: Seq<ast::Struct>) -> Seq<Seq<char>> {
    decls.map_values(|d: ast::Struct| d.name@)
}

/// The position, from `k` on, of the first struct name that is already bound in
/// `bound` or repeats an earlier one.
pub open spec fn first_redeclared_from(bound: Seq<(Seq<char>, TypeId)>, names: Seq<Seq<char>>, k: int) -> Option<
    int,
>
    decreases names.len() - k,
{
    if k < 0 || k >= names.len() {
        None
    } else if find_in_scope(bound, names[k]) is Some || repeats_earlier(names, k) {
        Some(k)
    } else {
        first_redeclared_from(bound, names, k + 1)
    }
}

/// Gives every declared struct its handle, before any field is laid out, so that
/// fields may name any struct. A name bound twice is a duplicate declaration, reported
/// at the later declaration.
pub fn declare_structs(decls: &Vec<ast::Struct>, structs: &mut SymbolTable<TypeId>, table: &mut TypeTable) -> (r: Result<
    Vec<TypeId>,
    Spanned<TranslationErrorKind>,
>)
    requires
        old(table).wf(),
        old(structs).view_scopes().len() == 1,
        forall|name: Seq<char>|
            #[trigger] old(table).has_struct(name) ==> find_in_scope(
                old(structs).view_scopes()[0],
                name,
            ) is Some,
    ensures
        final(table).wf(),
        r is Err <==> first_redeclared_from(
            old(structs).view_scopes()[0],
            struct_names(decls@),
            0,
        ) is Some,
        r is Err ==> r->Err_0.inner == TranslationErrorKind::DuplicateDeclaration && r->Err_0.span
            == decls@[first_redeclared_from(old(structs).view_scopes()[0], struct_names(decls@), 0)->0].span,
        r is Ok ==> r->Ok_0.len() == decls.len(),
        r is Ok ==> crate::resolve::extends(*old(table), *final(table)),
        r is Ok ==> final(table).len() == old(table).len() + decls.len(),
        r is Ok ==> final(structs).view_scopes().len() == 1,
        r is Ok ==> structs_valid(*old(table), old(structs).view_scopes()) ==> structs_valid(
            *final(table),
            final(structs).view_scopes(),
        ),
        r is Ok ==> forall|k: int|
            0 <= k < decls.len() ==> (#[trigger] r->Ok_0@[k]).index == old(table).len() + k,
        r is Ok ==> forall|k: int|
            0 <= k < decls.len() ==> #[trigger] final(table).valid_id(r->Ok_0@[k]),
        r is Ok ==> forall|k: int|
            0 <= k < decls.len() ==> #[trigger] final(table).shape(r->Ok_0@[k])
                == TypeShape::Struct(decls@[k].name@, seq![]),
        r is Ok ==> forall|k: int|
            0 <= k < decls.len() ==> #[trigger] resolve(final(structs).view_scopes(), decls@[k].name@)
                == Some(r->Ok_0@[k]),
{
    let ghost orig = structs.view_scopes()[0];
    let ghost names = struct_names(decls@);
    let mut ids: Vec<TypeId> = Vec::new();
    let mut k: usize = 0;
    while k < decls.len()
        invariant
            k <= decls.len(),
            names == struct_names(decls@),
            orig == old(structs).view_scopes()[0],
            table.wf(),
            structs.view_scopes().len() == 1,
            ids.len() == k,
            first_redeclared_from(orig, names, 0) == first_redeclared_from(orig, names, k as int),
            forall|n: Seq<char>|
                #[trigger] find_in_scope(structs.view_scopes()[0], n) is Some <==> (find_in_scope(
                    orig,
                    n,
                ) is Some || exists|j: int| 0 <= j < k && names[j] == n),
            forall|n: Seq<char>|
                #[trigger] table.has_struct(n) ==> find_in_scope(structs.view_scopes()[0], n) is Some,
            forall|j: int|
                0 <= j < k ==> table.valid_id(#[trigger] ids@[j]) && table.shape(ids@[j])
                    == TypeShape::Struct(names[j], seq![]) && find_in_scope(
                    structs.view_scopes()[0],
                    names[j],
                ) == Some(ids@[j]) && ids@[j].index == old(table).len() + j,
            table.len() == old(table).len() + k,
            crate::resolve::extends(*old(table), *table),
            forall|n: Seq<char>|
                #[trigger] find_in_scope(structs.view_scopes()[0], n) is Some ==> find_in_scope(
                    orig,
                    n,
                ) is Some || exists|j: int| 0 <= j < k && names[j] == n && find_in_scope(
                    structs.view_scopes()[0],
                    n,
                ) == Some(ids@[j]),
            forall|n: Seq<char>|
                find_in_scope(orig, n) is Some ==> #[trigger] find_in_scope(structs.view_scopes()[0], n)
                    == find_in_scope(orig, n),
        decreases decls.len() - k,
    {
        let name = decls[k].name.clone();
        let id = TypeId { index: table.size() };
        let ghost before_scope = structs.view_scopes()[0];
        let ghost before_scopes = structs.view_scopes();
        let ghost before_table = *table;
        proof {
            assert(names[k as int] == name@);
            assert(before_scopes.last() == before_scope);
        }
        match structs.insert(name, id) {
            Err(_) => {
                proof {
                    assert(find_in_scope(before_scope, names[k as int]) is Some);
                    if !(find_in_scope(orig, names[k as int]) is Some) {
                        let j = choose|j: int| 0 <= j < k && names[j] == names[k as int];
                        assert(repeats_earlier(names, k as int));
                    }
                    assert(first_redeclared_from(orig, names, k as int) == Some(k as int));
                }
                return Err(
                    Spanned::new(TranslationErrorKind::DuplicateDeclaration, decls[k].span),
                );
            },
            Ok(()) => {},
        }
        proof {
            assert(!(find_in_scope(before_scope, names[k as int]) is Some));
            assert(!repeats_earlier(names, k as int)) by {
                if repeats_earlier(names, k as int) {
                    let j = choose|j: int| 0 <= j < k && #[trigger] names[j] == names[k as int];
                    assert(find_in_scope(before_scope, names[j]) is Some);
                }
            }
            assert(structs.view_scopes()[0] == before_scope.push((names[k as int], id)));
        }
        let declared = table.declare_struct(decls[k].name.clone());
        proof {
            assert(declared == id);
            let e = (names[k as int], id);
            assert forall|n: Seq<char>|
                #[trigger] find_in_scope(structs.view_scopes()[0], n) is Some <==> (find_in_scope(
                    orig,
                    n,
                ) is Some || exists|j: int| 0 <= j < k + 1 && names[j] == n) by {
                lemma_find_in_scope_push(before_scope, e, n);
                if n == names[k as int] {
                    assert(0 <= k < k + 1 && names[k as int] == n);
                }
                if exists|j: int| 0 <= j < k + 1 && names[j] == n {
                    let j = choose|j: int| 0 <= j < k + 1 && names[j] == n;
                    if j < k {
                        assert(exists|i: int| 0 <= i < k && names[i] == n);
                    }
                }
            }
            assert forall|n: Seq<char>| #[trigger] table.has_struct(n) implies find_in_scope(
                structs.view_scopes()[0],
                n,
            ) is Some by {
                let i = choose|i: int|
                    0 <= i < table.len() && (#[trigger] table.shapes()[i]) is Struct
                        && table.shapes()[i]->Struct_0 == n;
                lemma_find_in_scope_push(before_scope, e, n);
                if i < before_table.len() {
                    assert(table.shapes()[i] == before_table.shapes()[i]);
                    assert(before_table.has_struct(n));
                }
            }
            assert forall|i: int| 0 <= i < old(table).len() implies #[trigger] table.shapes()[i]
                == old(table).shapes()[i] by {
                assert(table.shapes()[i] == before_table.shapes()[i]);
            }
            assert forall|n: Seq<char>|
                #[trigger] find_in_scope(structs.view_scopes()[0], n) is Some implies find_in_scope(
                    orig,
                    n,
                ) is Some || exists|j: int| 0 <= j < k + 1 && names[j] == n && find_in_scope(
                    structs.view_scopes()[0],
                    n,
                ) == Some(ids@.push(id)[j]) by {
                lemma_find_in_scope_push(before_scope, e, n);
                if n == names[k as int] {
                    assert(ids@.push(id)[k as int] == id);
                } else if !(find_in_scope(orig, n) is Some) {
                    let j = choose|j: int| 0 <= j < k && names[j] == n && find_in_scope(
                        before_scope,
                        n,
                    ) == Some(ids@[j]);
                    assert(ids@.push(id)[j] == ids@[j]);
                }
            }
            assert forall|n: Seq<char>|
                find_in_scope(orig, n) is Some implies #[trigger] find_in_scope(structs.view_scopes()[0], n)
                == find_in_scope(orig, n) by {
                lemma_find_in_scope_push(before_scope, e, n);
                if n == names[k as int] {
                    assert(find_in_scope(before_scope, n) is Some);
                }
            }
            assert forall|j: int|
                0 <= j < k + 1 implies table.valid_id(#[trigger] ids@.push(id)[j]) && table.shape(
                ids@.push(id)[j],
            ) == TypeShape::Struct(names[j], seq![]) && find_in_scope(structs.view_scopes()[0], names[j])
                == Some(ids@.push(id)[j]) && ids@.push(id)[j].index == old(table).len() + j by {
                lemma_find_in_scope_push(before_scope, e, names[j]);
                if j < k {
                    assert(ids@.push(id)[j] == ids@[j]);
                    assert(table.shapes()[ids@[j].index as int] == before_table.shapes()[ids@[j].index as int]);
                    assert(names[j] != names[k as int]) by {
                        if names[j] == names[k as int] {
                            assert(repeats_earlier(names, k as int));
                        }
                    }
                }
            }
        }
        ids.push(id);
        k = k + 1;
    }
    proof {
        assert forall|j: int| 0 <= j < k implies #[trigger] resolve(structs.view_scopes(), decls@[j].name@) == Some(ids@[j]) by {
            assert(names[j] == decls@[j].name@);
            lemma_resolve_single(structs.view_scopes(), decls@[j].name@);
        }
        if structs_valid(*old(table), old(structs).view_scopes()) {
            assert forall|n: Seq<char>| #[trigger] resolve(structs.view_scopes(), n) is Some implies table.valid_id(
                resolve(structs.view_scopes(), n)->0,
            ) by {
                lemma_resolve_single(structs.view_scopes(), n);
                lemma_resolve_single(old(structs).view_scopes(), n);
            }
        }
    }
    Ok(ids)
}


/// The written types of a struct's fields, in order.
pub open spec fn field_types(fields: Seq<(Spanned<String>, Spanned<ast::Type>)>) -> Seq<Spanned<ast::Type>> {
    fields.map_values(|f: (Spanned<String>, Spanned<ast::Type>)| f.1)
}

/// `b` holds every type of `a` at the same handle, but for the fields of the struct
/// `id`.
pub open spec fn same_but_fields(a: TypeTable, b: TypeTable, id: int) -> bool {
    &&& a.len() <= b.len()
    &&& a.shapes()[id] is Struct
    &&& b.shapes()[id] is Struct
    &&& forall|i: int| 0 <= i < a.len() && i != id ==> #[trigger] b.shapes()[i] == a.shapes()[i]
}

proof fn lemma_denotes_fields_update(
    a: TypeTable,
    b: TypeTable,
    id: int,
    structs: Seq<Seq<(Seq<char>, TypeId)>>,
    t: ast::Type,
    c: TypeId,
)
    requires
        same_but_fields(a, b, id),
        denotes(a, structs, t, c),
    ensures
        denotes(b, structs, t, c),
    decreases t, 1int,
{
    if c.index != id {
        assert(b.shapes()[c.index as int] == a.shapes()[c.index as int]);
    }
    match t {
        ast::Type::Pointer(bx) => {
            lemma_denotes_fields_update(a, b, id, structs, bx.inner, a.shape(c)->Pointer_0);
        },
        ast::Type::Array(bx, _) => {
            lemma_denotes_fields_update(a, b, id, structs, bx.inner, a.shape(c)->Array_0);
        },
        ast::Type::Tuple(ts) => {
            lemma_denotes_all_fields_update(a, b, id, structs, ts@, a.shape(c)->Tuple_0);
        },
        ast::Type::Function(f) => {
            lemma_denotes_fields_update(a, b, id, structs, f.return_ty.inner, a.shape(c)->FunctionPtr_0);
            lemma_denotes_all_fields_update(a, b, id, structs, f.parameters_ty@, a.shape(c)->FunctionPtr_1);
        },
        _ => {},
    }
}

proof fn lemma_denotes_all_fields_update(
    a: TypeTable,
    b: TypeTable,
    id: int,
    structs: Seq<Seq<(Seq<char>, TypeId)>>,
    ts: Seq<Spanned<ast::Type>>,
    cs: Seq<TypeId>,
)
    requires
        same_but_fields(a, b, id),
        denotes_all(a, structs, ts, cs),
    ensures
        denotes_all(b, structs, ts, cs),
    decreases ts, 0int,
{
    if ts.len() > 0 {
        lemma_denotes_fields_update(a, b, id, structs, ts[0].inner, cs[0]);
        lemma_denotes_all_fields_update(a, b, id, structs, ts.drop_first(), cs.drop_first());
    }
}

/// Lays out the fields of the declared struct `id`: a repeated field name is rejected
/// first, then the first field type that names no type; otherwise the struct gets its
/// fields, in order, with their resolved types.
pub fn define_struct_fields(
    decl: &ast::Struct,
    id: TypeId,
    structs: &SymbolTable<TypeId>,
    table: &mut TypeTable,
) -> (r: Result<(), Spanned<TranslationErrorKind>>)
    requires
        old(table).wf(),
        old(table).valid_id(id),
        old(table).shape(id) is Struct,
        structs_valid(*old(table), structs.view_scopes()),
    ensures
        final(table).wf(),
        r is Err <==> (first_repeat(field_names(decl.fields@)) is Some || first_unknown_in(
            structs.view_scopes(),
            field_types(decl.fields@),
        ) is Some),
        first_repeat(field_names(decl.fields@)) is Some ==> r is Err && r->Err_0.inner
            == TranslationErrorKind::DuplicateField && r->Err_0.span
            == decl.fields@[first_repeat(field_names(decl.fields@))->0].0.span,
        first_repeat(field_names(decl.fields@)) is None && r is Err ==> r->Err_0.inner
            == TranslationErrorKind::UnknownType && r->Err_0.span == first_unknown_in(
            structs.view_scopes(),
            field_types(decl.fields@),
        )->0,
        r is Ok ==> same_but_fields(*old(table), *final(table), id.index as int),
        old(table).len() <= final(table).len(),
        structs_valid(*final(table), structs.view_scopes()),
        r is Ok ==> final(table).valid_id(id) && final(table).shape(id) is Struct
            && final(table).shape(id)->Struct_0 == old(table).shape(id)->Struct_0 && ({
            let fs = final(table).shape(id)->Struct_1;
            &&& fs.len() == decl.fields.len()
            &&& forall|k: int| 0 <= k < fs.len() ==> (#[trigger] fs[k]).0 == decl.fields@[k].0.inner@
            &&& denotes_all(
                *final(table),
                structs.view_scopes(),
                field_types(decl.fields@),
                fs.map_values(|f: (Seq<char>, TypeId)| f.1),
            )
        }),
{
    check_duplicate_fields(&decl.fields)?;
    let ghost sv = structs.view_scopes();
    let ghost ts = field_types(decl.fields@);
    let mut out: Vec<(String, TypeId)> = Vec::new();
    let mut i: usize = 0;
    proof {
        assert(ts.subrange(0, ts.len() as int) =~= ts);
        assert(ts.subrange(0, 0) =~= Seq::<Spanned<ast::Type>>::empty());
        assert(out@.map_values(|f: (String, TypeId)| f.1) =~= Seq::<TypeId>::empty());
        assert(denotes_all(*table, sv, Seq::<Spanned<ast::Type>>::empty(), Seq::<TypeId>::empty()));
    }
    while i < decl.fields.len()
        invariant
            sv == structs.view_scopes(),
            ts == field_types(decl.fields@),
            first_repeat(field_names(decl.fields@)) is None,
            i <= decl.fields.len(),
            out.len() == i,
            table.wf(),
            crate::resolve::extends(*old(table), *table),
            structs_valid(*table, sv),
            first_unknown_in(sv, ts) == first_unknown_in(sv, ts.subrange(i as int, ts.len() as int)),
            denotes_all(*table, sv, ts.subrange(0, i as int), out@.map_values(|f: (String, TypeId)| f.1)),
            forall|k: int| 0 <= k < i ==> (#[trigger] out@[k]).0@ == decl.fields@[k].0.inner@,
        decreases decl.fields.len() - i,
    {
        proof {
            let rest = ts.subrange(i as int, ts.len() as int);
            assert(rest.drop_first() =~= ts.subrange(i + 1, ts.len() as int));
            assert(rest[0] == ts[i as int]);
            assert(ts[i as int] == decl.fields@[i as int].1);
        }
        let ghost before = *table;
        let ghost before_ids = out@.map_values(|f: (String, TypeId)| f.1);
        let c = resolve_type(&decl.fields[i].1, structs, table)?;
        proof {
            crate::resolve::lemma_denotes_all_extends(before, *table, sv, ts.subrange(0, i as int), before_ids);
            crate::resolve::lemma_denotes_all_push(*table, sv, ts.subrange(0, i as int), before_ids, ts[i as int], c);
            assert(ts.subrange(0, i as int).push(ts[i as int]) =~= ts.subrange(0, i + 1));
            crate::resolve::lemma_extends_trans(*old(table), before, *table);
            crate::resolve::lemma_structs_valid_extends(before, *table, sv);
        }
        let name = decl.fields[i].0.inner.clone();
        out.push((name, c));
        proof {
            assert(out@.map_values(|f: (String, TypeId)| f.1) =~= before_ids.push(c));
        }
        i = i + 1;
    }
    let ghost mid = *table;
    let ghost ids = out@.map_values(|f: (String, TypeId)| f.1);
    proof {
        assert(ts.subrange(0, i as int) =~= ts);
        assert(ts.subrange(i as int, ts.len() as int) =~= Seq::<Spanned<ast::Type>>::empty());
        crate::resolve::lemma_denotes_all_valid(mid, sv, ts, ids);
        assert forall|k: int| 0 <= k < out.len() implies (#[trigger] out@[k]).1.index < mid.len() by {
            assert(ids[k] == out@[k].1);
        }
        assert(mid.shapes()[id.index as int] == old(table).shapes()[id.index as int]);
    }
    let ghost fv = crate::ty::fields_view(out@);
    table.define_struct(id, out);
    proof {
        assert(same_but_fields(mid, *table, id.index as int));
        lemma_denotes_all_fields_update(mid, *table, id.index as int, sv, ts, ids);
        assert(fv.map_values(|f: (Seq<char>, TypeId)| f.1) =~= ids);
        assert forall|i: int| 0 <= i < old(table).len() && i != id.index implies #[trigger] table.shapes()[i]
            == old(table).shapes()[i] by {
            assert(table.shapes()[i] == mid.shapes()[i]);
            assert(mid.shapes()[i] == old(table).shapes()[i]);
        }
    }
    Ok(())
}


/// The error in laying out one struct's fields, if any: a repeated name first, then
/// an unknown field type.
pub open spec fn field_error(
    structs: Seq<Seq<(Seq<char>, TypeId)>>,
    fields: Seq<(Spanned<String>, Spanned<ast::Type>)>,
) -> Option<(TranslationErrorKind, Span)> {
    match first_repeat(field_names(fields)) {
        Some(k) => Some((TranslationErrorKind::DuplicateField, fields[k].0.span)),
        None => match first_unknown_in(structs, field_types(fields)) {
            Some(sp) => Some((TranslationErrorKind::UnknownType, sp)),
            None => None,
        },
    }
}

/// The first field error among the declarations from `k` on.
pub open spec fn first_field_error_from(
    structs: Seq<Seq<(Seq<char>, TypeId)>>,
    decls: Seq<ast::Struct>,
    k: int,
) -> Option<(TranslationErrorKind, Span)>
    decreases decls.len() - k,
{
    if k < 0 || k >= decls.len() {
        None
    } else {
        match field_error(structs, decls[k].fields@) {
            Some(e) => Some(e),
            None => first_field_error_from(structs, decls, k + 1),
        }
    }
}

/// What a table says of the declared struct `id`: its name and its fields, in order,
/// with the types they are written with.
pub open spec fn laid_out_as(
    table: TypeTable,
    structs: Seq<Seq<(Seq<char>, TypeId)>>,
    decl: ast::Struct,
    id: TypeId,
) -> bool {
    &&& table.valid_id(id)
    &&& table.shape(id) is Struct
    &&& table.shape(id)->Struct_0 == decl.name@
    &&& table.shape(id)->Struct_1.len() == decl.fields.len()
    &&& forall|k: int|
        0 <= k < decl.fields.len() ==> (#[trigger] table.shape(id)->Struct_1[k]).0
            == decl.fields@[k].0.inner@
    &&& denotes_all(
        table,
        structs,
        field_types(decl.fields@),
        table.shape(id)->Struct_1.map_values(|f: (Seq<char>, TypeId)| f.1),
    )
}

/// Lays out all declared structs: every name gets its handle first, so that fields
/// may name any struct; then each struct's fields are laid out; then a struct that
/// contains itself by value is rejected. Errors come in that order.
pub fn lay_out_structs(decls: &Vec<ast::Struct>, structs: &mut SymbolTable<TypeId>, table: &mut TypeTable) -> (r: Result<
    Vec<TypeId>,
    Spanned<TranslationErrorKind>,
>)
    requires
        old(table).wf(),
        old(structs).view_scopes().len() == 1,
        structs_valid(*old(table), old(structs).view_scopes()),
        forall|name: Seq<char>|
            #[trigger] old(table).has_struct(name) ==> find_in_scope(
                old(structs).view_scopes()[0],
                name,
            ) is Some,
    ensures
        final(table).wf(),
        first_redeclared_from(old(structs).view_scopes()[0], struct_names(decls@), 0) is Some ==> r is Err
            && r->Err_0.inner == TranslationErrorKind::DuplicateDeclaration && r->Err_0.span
            == decls@[first_redeclared_from(old(structs).view_scopes()[0], struct_names(decls@), 0)->0].span,
        first_redeclared_from(old(structs).view_scopes()[0], struct_names(decls@), 0) is None
            && first_field_error_from(final(structs).view_scopes(), decls@, 0) is Some ==> r is Err
            && Some((r->Err_0.inner, r->Err_0.span)) == first_field_error_from(
            final(structs).view_scopes(),
            decls@,
            0,
        ),
        r is Err && r->Err_0.inner == TranslationErrorKind::RecursiveValueType ==> exists|k: int|
            0 <= k < decls.len() && r->Err_0.span == decls@[k].span && resolve(
                final(structs).view_scopes(),
                decls@[k].name@,
            ) is Some && embeds_itself(
                *final(table),
                resolve(final(structs).view_scopes(), decls@[k].name@)->0.index as int,
            ),
        r is Ok ==> r->Ok_0.len() == decls.len(),
        r is Ok ==> forall|k: int|
            0 <= k < decls.len() ==> resolve(final(structs).view_scopes(), decls@[k].name@) == Some(
                #[trigger] r->Ok_0@[k],
            ) && laid_out_as(*final(table), final(structs).view_scopes(), decls@[k], r->Ok_0@[k])
                && !embeds_itself(*final(table), r->Ok_0@[k].index as int),
        r is Ok <==> first_redeclared_from(old(structs).view_scopes()[0], struct_names(decls@), 0) is None
            && first_field_error_from(final(structs).view_scopes(), decls@, 0) is None && forall|k: int|
            0 <= k < decls.len() ==> !embeds_itself(
                *final(table),
                (#[trigger] resolve(final(structs).view_scopes(), decls@[k].name@))->0.index as int,
            ),
{
    let ghost table0 = *table;
    let ghost orig = structs.view_scopes()[0];
    let ids = match declare_structs(decls, structs, table) {
        Ok(ids) => ids,
        Err(e) => {
            return Err(e);
        },
    };
    let ghost sv = structs.view_scopes();
    let ghost table1 = *table;
    proof {
        assert(first_redeclared_from(orig, struct_names(decls@), 0) is None);
        assert forall|j: int| 0 <= j < decls.len() implies #[trigger] table.shapes()[ids@[j].index as int]
            == TypeShape::Struct(decls@[j].name@, seq![]) by {
            assert(table.shape(ids@[j]) == TypeShape::Struct(decls@[j].name@, seq![]));
        }
    }
    let mut k: usize = 0;
    while k < decls.len()
        invariant
            sv == structs.view_scopes(),
            ids.len() == decls.len(),
            k <= decls.len(),
            table.wf(),
            table1.len() <= table.len(),
            structs_valid(*table, sv),
            first_field_error_from(sv, decls@, 0) == first_field_error_from(sv, decls@, k as int),
            forall|j: int|
                0 <= j < decls.len() ==> (#[trigger] ids@[j]).index == table0.len() + j
                    && resolve(sv, decls@[j].name@) == Some(ids@[j]),
            table1.len() == table0.len() + decls.len(),
            first_redeclared_from(old(structs).view_scopes()[0], struct_names(decls@), 0) is None,
            forall|j: int|
                k <= j < decls.len() ==> #[trigger] table.shapes()[ids@[j].index as int]
                    == TypeShape::Struct(decls@[j].name@, seq![]),
            forall|j: int|
                0 <= j < k ==> #[trigger] laid_out_as(*table, sv, decls@[j], ids@[j]),
        decreases decls.len() - k,
    {
        let ghost before = *table;
        assert(table.shapes()[ids@[k as int].index as int] == TypeShape::Struct(decls@[k as int].name@, seq![]));
        match define_struct_fields(&decls[k], ids[k], structs, table) {
            Ok(()) => {},
            Err(e) => {
                proof {
                    assert(field_error(sv, decls@[k as int].fields@) is Some);
                }
                return Err(e);
            },
        }
        proof {
            assert(field_error(sv, decls@[k as int].fields@) is None);
            let id = ids@[k as int].index as int;
            assert forall|j: int| k + 1 <= j < decls.len() implies #[trigger] table.shapes()[ids@[j].index as int]
                == TypeShape::Struct(decls@[j].name@, seq![]) by {
                assert(ids@[j].index != id);
                assert(table.shapes()[ids@[j].index as int] == before.shapes()[ids@[j].index as int]);
            }
            assert forall|j: int| 0 <= j < k + 1 implies #[trigger] laid_out_as(*table, sv, decls@[j], ids@[j]) by {
                if j < k {
                    assert(ids@[j].index != id);
                    assert(laid_out_as(before, sv, decls@[j], ids@[j]));
                    assert(table.shapes()[ids@[j].index as int] == before.shapes()[ids@[j].index as int]);
                    let fs = before.shape(ids@[j])->Struct_1;
                    lemma_denotes_all_fields_update(
                        before,
                        *table,
                        id,
                        sv,
                        field_types(decls@[j].fields@),
                        fs.map_values(|f: (Seq<char>, TypeId)| f.1),
                    );
                }
            }
        }
        k = k + 1;
    }
    match check_value_recursion(decls, &ids, table) {
        Ok(()) => {},
        Err(e) => {
            proof {
                let j = choose|j: int|
                    0 <= j < ids.len() && embeds_itself(*table, ids@[j].index as int) && e.span
                        == decls@[j].span && forall|m: int|
                        0 <= m < j ==> !embeds_itself(*table, (#[trigger] ids@[m]).index as int);
                assert(resolve(sv, decls@[j].name@) == Some(ids@[j]));
            }
            return Err(e);
        },
    }
    proof {
        assert forall|j: int| 0 <= j < decls.len() implies !embeds_itself(
            *table,
            (#[trigger] resolve(sv, decls@[j].name@))->0.index as int,
        ) by {
            assert(resolve(sv, decls@[j].name@) == Some(ids@[j]));
        }
    }
    Ok(ids)
}

} // verus!
