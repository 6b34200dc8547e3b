use vstd::prelude::*;

use crate::bir::{
    block_terminated, is_terminator, terminators_last, ArithOp, BackendFunction, BackendModule,
    BackendType, BackendTypeView, Conversion, Instruction, IntPredicate, Operand, RealPredicate,
};
use crate::interner::Interner;
use crate::ir;
use crate::bir::blocks_well_formed;
use crate::ty::{FunctionType, Type, TypeId, TypeShape, TypeTable};

verus! {

/// The backend type indices of a sequence of types.
pub open spec fn ids_map(map: Seq<usize>, cs: Seq<TypeId>) -> Seq<usize> {
    cs.map_values(|c: TypeId| map[c.index as int])
}

/// The backend type indices of the field types of a struct.
pub open spec fn fields_map(map: Seq<usize>, fs: Seq<(Seq<char>, TypeId)>) -> Seq<usize> {
    fs.map_values(|f: (Seq<char>, TypeId)| map[f.1.index as int])
}

/// Whether entry `k` of `types` is the backend form of the type `t`, given the backend
/// index `map[c]` of each type `c`.
///
/// An `int` is 64 bits wide; a boolean is 1 bit; a string is a pointer to bytes; a
/// place of `T` is a pointer to `T`, as is a pointer; a tuple is a literal struct; a
/// struct is a named struct; a function pointer points to a function type. An
/// incomplete type becomes `void`: no value of it reaches the backend.
pub open spec fn lowers_to(types: Seq<BackendTypeView>, map: Seq<usize>, t: TypeShape, k: int) -> bool {
    &&& 0 <= k < types.len()
    &&& match t {
        TypeShape::Void | TypeShape::Incomplete => types[k] == BackendTypeView::Void,
        TypeShape::Int => types[k] == BackendTypeView::Int(64),
        TypeShape::Double => types[k] == BackendTypeView::Double,
        TypeShape::Boolean => types[k] == BackendTypeView::Int(1),
        TypeShape::String => types[k] is Pointer && types[k]->Pointer_0 < types.len()
            && types[types[k]->Pointer_0 as int] == BackendTypeView::Int(8),
        TypeShape::LValue(c, _) => types[k] == BackendTypeView::Pointer(map[c.index as int]),
        TypeShape::Pointer(c) => types[k] == BackendTypeView::Pointer(map[c.index as int]),
        TypeShape::Array(c, n) => types[k] == BackendTypeView::Array(map[c.index as int], n),
        TypeShape::Tuple(cs) => types[k] == BackendTypeView::Struct(None, ids_map(map, cs)),
        TypeShape::Struct(name, fs) => types[k] == BackendTypeView::Struct(
            Some(name),
            fields_map(map, fs),
        ),
        TypeShape::FunctionPtr(r, ps, va) => types[k] is Pointer && types[k]->Pointer_0
            < types.len() && types[types[k]->Pointer_0 as int] == BackendTypeView::Function(
            map[r.index as int],
            ids_map(map, ps),
            va,
        ),
    }
}

pub open spec fn types_view(types: Seq<BackendType>) -> Seq<BackendTypeView> {
    types.map_values(|t: BackendType| t@)
}

/// Whether `map` gives every type of `table` its backend form in `types`.
pub open spec fn lowers_table(table: TypeTable, types: Seq<BackendType>, map: Seq<usize>) -> bool {
    &&& map.len() == table.len()
    &&& forall|i: int|
        0 <= i < table.len() ==> lowers_to(
            types_view(types),
            map,
            #[trigger] table.shapes()[i],
            map[i] as int,
        )
}

proof fn lemma_lowers_to_push(
    types: Seq<BackendTypeView>,
    map: Seq<usize>,
    t: TypeShape,
    k: int,
    x: BackendTypeView,
)
    requires
        lowers_to(types, map, t, k),
    ensures
        lowers_to(types.push(x), map, t, k),
{
    assert(types.push(x)[k] == types[k]);
    if types[k] is Pointer && types[k]->Pointer_0 < types.len() {
        assert(types.push(x)[types[k]->Pointer_0 as int] == types[types[k]->Pointer_0 as int]);
    }
}

/// Adding backend types after the lowered ones keeps the lowering.
proof fn lemma_lowers_table_push(table: TypeTable, types: Seq<BackendType>, map: Seq<usize>, x: BackendType)
    requires
        lowers_table(table, types, map),
    ensures
        lowers_table(table, types.push(x), map),
{
    assert(types_view(types.push(x)) =~= types_view(types).push(x@));
    assert forall|i: int| 0 <= i < table.len() implies lowers_to(
        types_view(types.push(x)),
        map,
        #[trigger] table.shapes()[i],
        map[i] as int,
    ) by {
        lemma_lowers_to_push(types_view(types), map, table.shapes()[i], map[i] as int, x@);
    }
}

fn map_ids(map: &Vec<usize>, ids: &Vec<TypeId>) -> (r: Vec<usize>)
    requires
        forall|i: int| 0 <= i < ids.len() ==> (#[trigger] ids@[i]).index < map.len(),
    ensures
        r@ == ids_map(map@, ids@),
{
    let mut out: Vec<usize> = Vec::new();
    let mut i: usize = 0;
    while i < ids.len()
        invariant
            i <= ids.len(),
            forall|j: int| 0 <= j < ids.len() ==> (#[trigger] ids@[j]).index < map.len(),
            out@ =~= ids_map(map@, ids@.subrange(0, i as int)),
        decreases ids.len() - i,
    {
        out.push(map[ids[i].index]);
        i = i + 1;
        assert(ids_map(map@, ids@.subrange(0, i as int)) =~= ids_map(
            map@,
            ids@.subrange(0, i - 1),
        ).push(map@[ids@[i - 1].index as int]));
    }
    assert(ids@.subrange(0, i as int) =~= ids@);
    out
}

fn map_fields(map: &Vec<usize>, fields: &Vec<(String, TypeId)>) -> (r: Vec<usize>)
    requires
        forall|i: int| 0 <= i < fields.len() ==> (#[trigger] fields@[i]).1.index < map.len(),
    ensures
        r@ == fields_map(map@, crate::ty::fields_view(fields@)),
{
    let ghost fv = crate::ty::fields_view(fields@);
    let mut out: Vec<usize> = Vec::new();
    let mut i: usize = 0;
    while i < fields.len()
        invariant
            i <= fields.len(),
            fv == crate::ty::fields_view(fields@),
            forall|j: int| 0 <= j < fields.len() ==> (#[trigger] fields@[j]).1.index < map.len(),
            out@ =~= fields_map(map@, fv.subrange(0, i as int)),
        decreases fields.len() - i,
    {
        out.push(map[fields[i].1.index]);
        i = i + 1;
        assert(fields_map(map@, fv.subrange(0, i as int)) =~= fields_map(
            map@,
            fv.subrange(0, i - 1),
        ).push(map@[fv[i - 1].1.index as int]));
    }
    assert(fv.subrange(0, i as int) =~= fv);
    out
}

fn push_type(types: &mut Vec<BackendType>, t: BackendType) -> (r: usize)
    ensures
        r == old(types).len(),
        types_view(final(types)@) == types_view(old(types)@).push(t@),
        final(types)@ == old(types)@.push(t),
{
    let r = types.len();
    types.push(t);
    assert(types_view(types@) =~= types_view(old(types)@).push(t@));
    r
}

/// The backend types of every type of `table`, and the index of each: named structs
/// are declared first, with no fields, and their fields are set once every type
/// has its index, so that a struct can point to itself.
pub fn lower_types(table: &TypeTable) -> (r: (Vec<BackendType>, Vec<usize>))
    requires
        table.wf(),
    ensures
        lowers_table(*table, r.0@, r.1@),
{
    let n = table.size();
    let mut types: Vec<BackendType> = Vec::new();
    let mut map: Vec<usize> = Vec::new();
    let mut i: usize = 0;
    while i < n
        invariant
            n == table.len(),
            table.wf(),
            i <= n,
            map.len() == i,
            forall|j: int, l: int| 0 <= j < l < i ==> map@[j] < map@[l],
            forall|j: int| 0 <= j < i ==> map@[j] < types.len(),
            forall|j: int|
                0 <= j < i ==> ({
                    let t = #[trigger] table.shapes()[j];
                    &&& !(t is Struct) ==> lowers_to(types_view(types@), map@, t, map@[j] as int)
                    &&& t is Struct ==> types_view(types@)[map@[j] as int]
                        == BackendTypeView::Struct(Some(t->Struct_0), seq![])
                }),
            forall|m: int|
                0 <= m < types.len() && (#[trigger] types_view(types@)[m]) is Struct
                    && types_view(types@)[m]->Struct_0 is Some ==> exists|j: int|
                    0 <= j < i && map@[j] == m && table.shapes()[j] is Struct,
        decreases n - i,
    {
        let ghost before = types_view(types@);
        let ghost old_map = map@;
        let ghost shape = table.shapes()[i as int];
        proof {
            assert(crate::ty::components_below(
                shape,
                if shape is Struct {
                    n as int
                } else {
                    i as int
                },
            ));
        }
        let k = match table.get(TypeId { index: i }) {
            Type::Void | Type::Incomplete => push_type(&mut types, BackendType::Void),
            Type::Int => push_type(&mut types, BackendType::Int(64)),
            Type::Double => push_type(&mut types, BackendType::Double),
            Type::Boolean => push_type(&mut types, BackendType::Int(1)),
            Type::String => {
                let byte = push_type(&mut types, BackendType::Int(8));
                push_type(&mut types, BackendType::Pointer(byte))
            },
            Type::LValue(c, _) => push_type(&mut types, BackendType::Pointer(map[c.index])),
            Type::Pointer(c) => push_type(&mut types, BackendType::Pointer(map[c.index])),
            Type::Array(c, size) => push_type(&mut types, BackendType::Array(map[c.index], *size)),
            Type::Tuple(cs) => {
                let fields = map_ids(&map, cs);
                push_type(&mut types, BackendType::Struct(None, fields))
            },
            Type::Struct(s) => {
                let t = BackendType::Struct(Some(s.name.clone()), Vec::new());
                proof {
                    assert(t@ == BackendTypeView::Struct(Some(shape->Struct_0), seq![]));
                }
                push_type(&mut types, t)
            },
            Type::FunctionPtr(f) => {
                let params = map_ids(&map, &f.parameters_ty);
                let func = push_type(
                    &mut types,
                    BackendType::Function(map[f.return_ty.index], params, f.is_vararg),
                );
                push_type(&mut types, BackendType::Pointer(func))
            },
        };
        map.push(k);
        proof {
            let tv = types_view(types@);
            assert forall|j: int| 0 <= j < before.len() implies tv[j] == before[j] by {}
            assert forall|j: int|
                0 <= j < i + 1 implies ({
                let t = #[trigger] table.shapes()[j];
                &&& !(t is Struct) ==> lowers_to(tv, map@, t, map@[j] as int)
                &&& t is Struct ==> tv[map@[j] as int] == BackendTypeView::Struct(
                    Some(t->Struct_0),
                    seq![],
                )
            }) by {
                let t = table.shapes()[j];
                if j == i && !(t is Struct) {
                    match t {
                        TypeShape::Tuple(cs) => {
                            assert(ids_map(map@, cs) =~= ids_map(old_map, cs));
                        },
                        TypeShape::FunctionPtr(r, ps, va) => {
                            assert(ids_map(map@, ps) =~= ids_map(old_map, ps));
                        },
                        _ => {},
                    }
                }
                if j < i {
                    assert(map@[j] < before.len());
                    if !(t is Struct) {
                        assert(lowers_to(before, old_map, t, map@[j] as int));
                        assert(crate::ty::components_below(t, j));
                        match t {
                            TypeShape::Tuple(cs) => {
                                assert(ids_map(map@, cs) =~= ids_map(old_map, cs));
                            },
                            TypeShape::FunctionPtr(r, ps, va) => {
                                assert(ids_map(map@, ps) =~= ids_map(old_map, ps));
                            },
                            _ => {},
                        }
                    }
                }
            }
            assert forall|m: int|
                0 <= m < types.len() && (#[trigger] tv[m]) is Struct && tv[m]->Struct_0 is Some
                    implies exists|j: int|
                    0 <= j < i + 1 && map@[j] == m && table.shapes()[j] is Struct by {
                if m < before.len() {
                    let j = choose|j: int| 0 <= j < i && map@[j] == m && table.shapes()[j] is Struct;
                    assert(0 <= j < i + 1 && map@[j] == m && table.shapes()[j] is Struct);
                } else {
                    assert(m == k);
                    assert(map@[i as int] == m);
                }
            }
        }
        i = i + 1;
    }
    let mut i: usize = 0;
    while i < n
        invariant
            n == table.len(),
            table.wf(),
            i <= n,
            map.len() == n,
            forall|j: int, l: int| 0 <= j < l < n ==> map@[j] < map@[l],
            forall|j: int| 0 <= j < n ==> map@[j] < types.len(),
            forall|j: int|
                0 <= j < n ==> ({
                    let t = #[trigger] table.shapes()[j];
                    &&& (!(t is Struct) || j < i) ==> lowers_to(
                        types_view(types@),
                        map@,
                        t,
                        map@[j] as int,
                    )
                    &&& (t is Struct && j >= i) ==> types_view(types@)[map@[j] as int]
                        == BackendTypeView::Struct(Some(t->Struct_0), seq![])
                }),
            forall|m: int|
                0 <= m < types.len() && (#[trigger] types_view(types@)[m]) is Struct
                    && types_view(types@)[m]->Struct_0 is Some ==> exists|j: int|
                    0 <= j < n && map@[j] == m && table.shapes()[j] is Struct,
        decreases n - i,
    {
        let ghost before = types_view(types@);
        proof {
            assert(crate::ty::components_below(table.shapes()[i as int], n as int));
        }
        if let Type::Struct(s) = table.get(TypeId { index: i }) {
            proof {
                assert forall|j: int| 0 <= j < s.fields.len() implies (#[trigger] s.fields@[j]).1.index
                    < map.len() by {
                    assert(crate::ty::fields_view(s.fields@)[j].1 == s.fields@[j].1);
                }
            }
            let fields = map_fields(&map, &s.fields);
            let t = BackendType::Struct(Some(s.name.clone()), fields);
            let m0 = map[i];
            types.set(m0, t);
            proof {
                let tv = types_view(types@);
                assert(tv =~= before.update(m0 as int, t@));
                assert forall|j: int|
                    0 <= j < n implies ({
                    let t = #[trigger] table.shapes()[j];
                    &&& (!(t is Struct) || j < i + 1) ==> lowers_to(tv, map@, t, map@[j] as int)
                    &&& (t is Struct && j >= i + 1) ==> tv[map@[j] as int]
                        == BackendTypeView::Struct(Some(t->Struct_0), seq![])
                }) by {
                    let t = table.shapes()[j];
                    if j != i {
                        assert(map@[j] != m0);
                        if !(t is Struct) && (t is String || t is FunctionPtr) {
                            let p = before[map@[j] as int]->Pointer_0;
                            assert(p != m0);
                        }
                    }
                }
                assert forall|m: int|
                    0 <= m < types.len() && (#[trigger] tv[m]) is Struct && tv[m]->Struct_0 is Some
                        implies exists|j: int|
                        0 <= j < n && map@[j] == m && table.shapes()[j] is Struct by {
                    if m == m0 {
                        assert(map@[i as int] == m && table.shapes()[i as int] is Struct);
                    }
                }
            }
        }
        i = i + 1;
    }
    (types, map)
}


broadcast use vstd::std_specs::vec::group_vec_axioms;

/// Where `break` and `continue` jump inside a loop: its end block and its
/// condition block.
#[derive(Debug, Clone, Copy, PartialEq, Eq, Structural)]
pub struct LoopTargets {
    pub break_bb: usize,
    pub continue_bb: usize,
}

/// No instruction is in block `b`.
pub open spec fn untouched(insts: Seq<(usize, Instruction)>, b: int) -> bool {
    forall|k: int| 0 <= k < insts.len() ==> (#[trigger] insts[k]).0 != b
}

/// The lowering of one module: the backend types, the functions, and the body of
/// the function being lowered, built one instruction at a time at the end of the
/// current block.
pub struct Backend<'s, 't> {
    pub strings: &'s Interner,
    pub tyctxt: &'t TypeTable,
    pub types: Vec<BackendType>,
    pub ty_map: Vec<usize>,
    pub functions: Vec<BackendFunction>,
    pub reals: Vec<String>,
    pub insts: Vec<(usize, Instruction)>,
    pub num_blocks: usize,
    pub current: usize,
    pub ids: Vec<(ir::IdentifierId, Operand)>,
}

/// The layout rules of a body under construction: no instruction after a
/// terminator in its block, every instruction in an existing block, and a current
/// block that exists.
pub open spec fn laid_out(b: Backend) -> bool {
    &&& terminators_last(b.insts@)
    &&& forall|k: int| 0 <= k < b.insts@.len() ==> (#[trigger] b.insts@[k]).0 < b.num_blocks
    &&& b.current < b.num_blocks
}

/// A body under construction whose current block is still open.
pub open spec fn open_body(b: Backend) -> bool {
    &&& laid_out(b)
    &&& !block_terminated(b.insts@, b.current as int)
}

/// The block discipline of a body under construction, given the set `pending` of
/// blocks that were created and not yet entered: the current block is open and not
/// pending, pending blocks are empty, and every other block is terminated.
pub open spec fn inv(b: Backend, pending: Set<int>) -> bool {
    &&& open_body(b)
    &&& !pending.contains(b.current as int)
    &&& forall|x: int| #[trigger] pending.contains(x) ==> 0 <= x < b.num_blocks && untouched(b.insts@, x)
    &&& forall|x: int|
        0 <= x < b.num_blocks && x != b.current && !pending.contains(x)
            ==> #[trigger] block_terminated(b.insts@, x)
}

/// Whatever blocks were pending before are pending after, with the discipline kept.
pub open spec fn preserves(a: Backend, b: Backend) -> bool {
    &&& forall|p: Set<int>| #[trigger] inv(a, p) ==> inv(b, p)
    &&& frame(a, b)
}

/// The parts of the lowering that a function body does not change.
pub open spec fn frame(a: Backend, b: Backend) -> bool {
    &&& (a.reals@.len() > 0 ==> b.reals@.len() > 0 && b.reals@[0] == a.reals@[0])
    &&& b.ty_map == a.ty_map
    &&& b.types == a.types
    &&& b.functions == a.functions
    &&& b.strings == a.strings
    &&& b.tyctxt == a.tyctxt
}

/// The locals' slots and the real constants, which a body's lowering leaves alone.
pub open spec fn fixed(a: Backend, b: Backend) -> bool {
    &&& b.ids == a.ids
    &&& b.reals == a.reals
}

/// `b` is `a` with `inst` ending the current block, then `next` as the current block
/// and `added` more blocks.
pub open spec fn stepped(a: Backend, b: Backend, inst: Instruction, next: usize, added: nat) -> bool {
    &&& b.insts@ == a.insts@.push((a.current, inst))
    &&& b.current == next
    &&& b.num_blocks == a.num_blocks + added
    &&& frame(a, b)
    &&& fixed(a, b)
}

/// `b` is `a` with `inst` ending the current block and a new block, which nothing
/// jumps to, as the current one; past the largest block count, `b` is `a`.
pub open spec fn terminated_with(a: Backend, b: Backend, inst: Instruction) -> bool {
    if a.num_blocks == usize::MAX {
        b == a
    } else {
        stepped(a, b, inst, a.num_blocks, 1)
    }
}

/// `b` is `a` with `code` appended to the current block.
pub open spec fn appended(a: Backend, b: Backend, code: Seq<Instruction>) -> bool {
    &&& b.insts@ == a.insts@ + in_block(code, a.current)
    &&& b.current == a.current
    &&& b.num_blocks == a.num_blocks
    &&& frame(a, b)
    &&& fixed(a, b)
}

proof fn lemma_preserves_refl(a: Backend)
    ensures
        preserves(a, a),
{
}

impl<'s, 't> Backend<'s, 't> {
    /// The backend type of `ty`; a handle outside the table (which the translator
    /// never produces) gets the first backend type.
    fn codegen_type(&self, ty: TypeId) -> (r: usize)
        ensures
            ty.index < self.ty_map.len() ==> r == self.ty_map@[ty.index as int],
            ty.index >= self.ty_map.len() ==> r == 0,
    {
        if ty.index < self.ty_map.len() {
            self.ty_map[ty.index]
        } else {
            0
        }
    }

    /// Appends `inst` to the current block.
    fn emit(&mut self, inst: Instruction) -> (r: Operand)
        requires
            open_body(*old(self)),
            !is_terminator(inst),
        ensures
            open_body(*final(self)),
            preserves(*old(self), *final(self)),
            final(self).insts@ == old(self).insts@.push((old(self).current, inst)),
            final(self).current == old(self).current,
            final(self).num_blocks == old(self).num_blocks,
            final(self).ids == old(self).ids,
            final(self).reals == old(self).reals,
            r == Operand::Inst(old(self).insts@.len() as usize),
    {
        let r = Operand::Inst(self.insts.len());
        let cur = self.current;
        let ghost before = *self;
        self.insts.push((cur, inst));
        proof {
            let insts = self.insts@;
            assert forall|k: int, j: int|
                0 <= k < j < insts.len() && is_terminator(#[trigger] insts[k].1) implies #[trigger] insts[j].0
                != insts[k].0 by {
                if j == insts.len() - 1 {
                    assert(insts[k] == before.insts@[k]);
                    if insts[k].0 == cur {
                        assert(block_terminated(before.insts@, cur as int));
                    }
                } else {
                    assert(insts[k] == before.insts@[k]);
                    assert(insts[j] == before.insts@[j]);
                }
            }
            assert forall|p: Set<int>| #[trigger] inv(before, p) implies inv(*self, p) by {
                assert forall|x: int| #[trigger] p.contains(x) implies 0 <= x < self.num_blocks
                    && untouched(self.insts@, x) by {
                    assert forall|k: int| 0 <= k < self.insts@.len() implies (#[trigger] self.insts@[k]).0 != x by {
                        if k < before.insts@.len() {
                            assert(self.insts@[k] == before.insts@[k]);
                        }
                    }
                }
                assert forall|x: int|
                    0 <= x < self.num_blocks && x != self.current && !p.contains(x) implies #[trigger] block_terminated(self.insts@, x) by {
                    assert(block_terminated(before.insts@, x));
                    let k = choose|k: int|
                        0 <= k < before.insts@.len() && before.insts@[k].0 == x && is_terminator(
                            #[trigger] before.insts@[k].1,
                        );
                    assert(self.insts@[k] == before.insts@[k]);
                }
            }
            assert(!block_terminated(self.insts@, cur as int)) by {
                if block_terminated(self.insts@, cur as int) {
                    let k = choose|k: int|
                        0 <= k < self.insts@.len() && self.insts@[k].0 == cur && is_terminator(
                            #[trigger] self.insts@[k].1,
                        );
                    assert(k < before.insts@.len());
                    assert(self.insts@[k] == before.insts@[k]);
                }
            }
        }
        r
    }

    /// Ends the current block with `inst`.
    fn build_terminator(&mut self, inst: Instruction)
        requires
            open_body(*old(self)),
            is_terminator(inst),
        ensures
            laid_out(*final(self)),
            final(self).insts@ == old(self).insts@.push((old(self).current, inst)),
            final(self).current == old(self).current,
            final(self).num_blocks == old(self).num_blocks,
            frame(*old(self), *final(self)),
            fixed(*old(self), *final(self)),
            block_terminated(final(self).insts@, old(self).current as int),
    {
        let cur = self.current;
        let ghost before = *self;
        self.insts.push((cur, inst));
        proof {
            let insts = self.insts@;
            assert forall|k: int, j: int|
                0 <= k < j < insts.len() && is_terminator(#[trigger] insts[k].1) implies #[trigger] insts[j].0
                != insts[k].0 by {
                assert(insts[k] == before.insts@[k]);
                if j == insts.len() - 1 {
                    if insts[k].0 == cur {
                        assert(block_terminated(before.insts@, cur as int));
                    }
                } else {
                    assert(insts[j] == before.insts@[j]);
                }
            }
            assert(is_terminator(insts[insts.len() - 1].1));
        }
    }

}


/// Instructions placed in block `b`.
pub open spec fn in_block(code: Seq<Instruction>, b: usize) -> Seq<(usize, Instruction)> {
    code.map_values(|i: Instruction| (b, i))
}

/// The single instruction of an arithmetic or comparison operator: integer
/// comparisons are signed, floating-point comparisons unordered.
pub open spec fn binop_instruction(k: ir::BinaryOperatorKind, l: Operand, r: Operand) -> Instruction {
    match k {
        ir::BinaryOperatorKind::IntPlus => Instruction::Arith(ArithOp::Add, l, r),
        ir::BinaryOperatorKind::DoublePlus => Instruction::Arith(ArithOp::FAdd, l, r),
        ir::BinaryOperatorKind::IntMinus => Instruction::Arith(ArithOp::Sub, l, r),
        ir::BinaryOperatorKind::DoubleMinus => Instruction::Arith(ArithOp::FSub, l, r),
        ir::BinaryOperatorKind::IntMultiply => Instruction::Arith(ArithOp::Mul, l, r),
        ir::BinaryOperatorKind::DoubleMultiply => Instruction::Arith(ArithOp::FMul, l, r),
        ir::BinaryOperatorKind::IntDivide => Instruction::Arith(ArithOp::SDiv, l, r),
        ir::BinaryOperatorKind::DoubleDivide => Instruction::Arith(ArithOp::FDiv, l, r),
        ir::BinaryOperatorKind::IntModulo => Instruction::Arith(ArithOp::SRem, l, r),
        ir::BinaryOperatorKind::IntEqual => Instruction::ICmp(IntPredicate::Eq, l, r),
        ir::BinaryOperatorKind::DoubleEqual => Instruction::FCmp(RealPredicate::Ueq, l, r),
        ir::BinaryOperatorKind::BooleanEqual => Instruction::ICmp(IntPredicate::Eq, l, r),
        ir::BinaryOperatorKind::IntNotEqual => Instruction::ICmp(IntPredicate::Ne, l, r),
        ir::BinaryOperatorKind::DoubleNotEqual => Instruction::FCmp(RealPredicate::Une, l, r),
        ir::BinaryOperatorKind::BooleanNotEqual => Instruction::ICmp(IntPredicate::Ne, l, r),
        ir::BinaryOperatorKind::IntLess => Instruction::ICmp(IntPredicate::Slt, l, r),
        ir::BinaryOperatorKind::DoubleLess => Instruction::FCmp(RealPredicate::Ult, l, r),
        ir::BinaryOperatorKind::IntLessEqual => Instruction::ICmp(IntPredicate::Sle, l, r),
        ir::BinaryOperatorKind::DoubleLessEqual => Instruction::FCmp(RealPredicate::Ule, l, r),
        ir::BinaryOperatorKind::IntGreater => Instruction::ICmp(IntPredicate::Sgt, l, r),
        ir::BinaryOperatorKind::DoubleGreater => Instruction::FCmp(RealPredicate::Ugt, l, r),
        ir::BinaryOperatorKind::IntGreaterEqual => Instruction::ICmp(IntPredicate::Sge, l, r),
        ir::BinaryOperatorKind::DoubleGreaterEqual => Instruction::FCmp(RealPredicate::Uge, l, r),
        ir::BinaryOperatorKind::PtrPlusOffset => Instruction::Gep(l, r),
        ir::BinaryOperatorKind::PtrDiff => Instruction::PtrDiff(l, r),
        ir::BinaryOperatorKind::PtrEqual => Instruction::ICmp(IntPredicate::Eq, l, r),
        ir::BinaryOperatorKind::PtrNotEqual => Instruction::ICmp(IntPredicate::Ne, l, r),
        ir::BinaryOperatorKind::PtrMinusOffset => Instruction::Gep(l, r),
    }
}

/// The instructions of a binary operator whose first instruction gets index `base`.
/// Subtracting an offset from a pointer negates the offset and indexes by it; a
/// pointer compared with an integer compares with that integer turned into a pointer
/// of the left type.
pub open spec fn binop_code(
    k: ir::BinaryOperatorKind,
    l: Operand,
    r: Operand,
    int_ty: usize,
    lhs_ty: usize,
    rhs_is_pointer: bool,
    base: int,
) -> Seq<Instruction> {
    if k == ir::BinaryOperatorKind::PtrMinusOffset {
        seq![
            Instruction::Arith(ArithOp::Sub, Operand::ConstInt(int_ty, 0), r),
            Instruction::Gep(l, Operand::Inst(base as usize)),
        ]
    } else if (k == ir::BinaryOperatorKind::PtrEqual || k == ir::BinaryOperatorKind::PtrNotEqual)
        && !rhs_is_pointer {
        seq![
            Instruction::Convert(Conversion::IntToPtr, r, lhs_ty),
            binop_instruction(k, l, Operand::Inst(base as usize)),
        ]
    } else {
        seq![binop_instruction(k, l, r)]
    }
}

/// The instructions of a unary operator, and the operand that holds its result when
/// no instruction is needed (a dereference: the place is the pointer itself).
pub open spec fn unop_code(
    k: ir::UnaryOperatorKind,
    v: Operand,
    int_ty: usize,
    double_ty: usize,
) -> Seq<Instruction> {
    match k {
        ir::UnaryOperatorKind::IntMinus => seq![
            Instruction::Arith(ArithOp::Sub, Operand::ConstInt(int_ty, 0), v),
        ],
        ir::UnaryOperatorKind::DoubleMinus => seq![
            Instruction::Arith(ArithOp::FSub, Operand::ConstReal(double_ty, 0), v),
        ],
        ir::UnaryOperatorKind::BooleanNot => seq![Instruction::Not(v)],
        ir::UnaryOperatorKind::PointerDeref => seq![],
    }
}

/// The instruction of a cast: integer to double and back (truncating toward zero),
/// boolean to integer by zero extension, integer to boolean by comparing with zero,
/// and pointer to integer and back.
pub open spec fn cast_instruction(
    kind: ir::CastKind,
    v: Operand,
    int_ty: usize,
    double_ty: usize,
    target_ty: usize,
) -> Instruction {
    match kind {
        ir::CastKind::IntToDouble => Instruction::Convert(Conversion::SIToFP, v, double_ty),
        ir::CastKind::DoubleToInt => Instruction::Convert(Conversion::FPToSI, v, int_ty),
        ir::CastKind::BooleanToInt => Instruction::Convert(Conversion::ZExt, v, int_ty),
        ir::CastKind::IntToBoolean => Instruction::ICmp(
            IntPredicate::Ne,
            v,
            Operand::ConstInt(int_ty, 0),
        ),
        ir::CastKind::PtrToInt => Instruction::Convert(Conversion::PtrToInt, v, int_ty),
        ir::CastKind::IntToPtr(_) => Instruction::Convert(Conversion::IntToPtr, v, target_ty),
    }
}

/// The backend index of a type, as `codegen_type` gives it.
pub open spec fn type_index(b: Backend, ty: TypeId) -> usize {
    if ty.index < b.ty_map.len() {
        b.ty_map@[ty.index as int]
    } else {
        0
    }
}

/// What an emitter that stays in the current block does: it appends `code` there.
pub open spec fn emitted(a: Backend, b: Backend, code: Seq<Instruction>) -> bool {
    &&& open_body(b)
    &&& preserves(a, b)
    &&& b.insts@ == a.insts@ + in_block(code, a.current)
    &&& b.current == a.current
    &&& b.num_blocks == a.num_blocks
    &&& b.ids == a.ids
    &&& b.reals == a.reals
}

impl<'s, 't> Backend<'s, 't> {
    fn codegen_binop(
        &mut self,
        binop: ir::BinaryOperatorKind,
        lhs: Operand,
        rhs: Operand,
        lhs_ty: TypeId,
        rhs_is_pointer: bool,
    ) -> (r: Operand)
        requires
            open_body(*old(self)),
        ensures
            emitted(
                *old(self),
                *final(self),
                binop_code(
                    binop,
                    lhs,
                    rhs,
                    type_index(*old(self), TypeId { index: crate::ty::INT_INDEX }),
                    type_index(*old(self), lhs_ty),
                    rhs_is_pointer,
                    old(self).insts@.len() as int,
                ),
            ),
            r == Operand::Inst((final(self).insts@.len() - 1) as usize),
    {
        let ghost start = *self;
        let int_ty = self.codegen_type(TypeId { index: crate::ty::INT_INDEX });
        let base = self.insts.len();
        let inst = match binop {
            ir::BinaryOperatorKind::IntPlus => Instruction::Arith(ArithOp::Add, lhs, rhs),
            ir::BinaryOperatorKind::DoublePlus => Instruction::Arith(ArithOp::FAdd, lhs, rhs),
            ir::BinaryOperatorKind::IntMinus => Instruction::Arith(ArithOp::Sub, lhs, rhs),
            ir::BinaryOperatorKind::DoubleMinus => Instruction::Arith(ArithOp::FSub, lhs, rhs),
            ir::BinaryOperatorKind::IntMultiply => Instruction::Arith(ArithOp::Mul, lhs, rhs),
            ir::BinaryOperatorKind::DoubleMultiply => Instruction::Arith(ArithOp::FMul, lhs, rhs),
            ir::BinaryOperatorKind::IntDivide => Instruction::Arith(ArithOp::SDiv, lhs, rhs),
            ir::BinaryOperatorKind::DoubleDivide => Instruction::Arith(ArithOp::FDiv, lhs, rhs),
            ir::BinaryOperatorKind::IntModulo => Instruction::Arith(ArithOp::SRem, lhs, rhs),
            ir::BinaryOperatorKind::IntEqual => Instruction::ICmp(IntPredicate::Eq, lhs, rhs),
            ir::BinaryOperatorKind::DoubleEqual => Instruction::FCmp(RealPredicate::Ueq, lhs, rhs),
            ir::BinaryOperatorKind::BooleanEqual => Instruction::ICmp(IntPredicate::Eq, lhs, rhs),
            ir::BinaryOperatorKind::IntNotEqual => Instruction::ICmp(IntPredicate::Ne, lhs, rhs),
            ir::BinaryOperatorKind::DoubleNotEqual => Instruction::FCmp(
                RealPredicate::Une,
                lhs,
                rhs,
            ),
            ir::BinaryOperatorKind::BooleanNotEqual => Instruction::ICmp(
                IntPredicate::Ne,
                lhs,
                rhs,
            ),
            ir::BinaryOperatorKind::IntLess => Instruction::ICmp(IntPredicate::Slt, lhs, rhs),
            ir::BinaryOperatorKind::DoubleLess => Instruction::FCmp(RealPredicate::Ult, lhs, rhs),
            ir::BinaryOperatorKind::IntLessEqual => Instruction::ICmp(IntPredicate::Sle, lhs, rhs),
            ir::BinaryOperatorKind::DoubleLessEqual => Instruction::FCmp(
                RealPredicate::Ule,
                lhs,
                rhs,
            ),
            ir::BinaryOperatorKind::IntGreater => Instruction::ICmp(IntPredicate::Sgt, lhs, rhs),
            ir::BinaryOperatorKind::DoubleGreater => Instruction::FCmp(
                RealPredicate::Ugt,
                lhs,
                rhs,
            ),
            ir::BinaryOperatorKind::IntGreaterEqual => Instruction::ICmp(
                IntPredicate::Sge,
                lhs,
                rhs,
            ),
            ir::BinaryOperatorKind::DoubleGreaterEqual => Instruction::FCmp(
                RealPredicate::Uge,
                lhs,
                rhs,
            ),
            ir::BinaryOperatorKind::PtrPlusOffset => Instruction::Gep(lhs, rhs),
            ir::BinaryOperatorKind::PtrDiff => Instruction::PtrDiff(lhs, rhs),
            ir::BinaryOperatorKind::PtrMinusOffset => {
                let neg = self.emit(
                    Instruction::Arith(ArithOp::Sub, Operand::ConstInt(int_ty, 0), rhs),
                );
                let ghost mid = *self;
                let r = self.emit(Instruction::Gep(lhs, neg));
                proof {
                    assert(self.insts@ =~= start.insts@ + in_block(
                        binop_code(binop, lhs, rhs, int_ty, type_index(start, lhs_ty), rhs_is_pointer, base as int),
                        start.current,
                    ));
                }
                return r;
            },
            ir::BinaryOperatorKind::PtrEqual | ir::BinaryOperatorKind::PtrNotEqual => {
                let pred = if binop == ir::BinaryOperatorKind::PtrEqual {
                    IntPredicate::Eq
                } else {
                    IntPredicate::Ne
                };
                if rhs_is_pointer {
                    Instruction::ICmp(pred, lhs, rhs)
                } else {
                    let lhs_bty = self.codegen_type(lhs_ty);
                    let p = self.emit(Instruction::Convert(Conversion::IntToPtr, rhs, lhs_bty));
                    let ghost mid = *self;
                    let r = self.emit(Instruction::ICmp(pred, lhs, p));
                    proof {
                        assert(self.insts@ =~= start.insts@ + in_block(
                            binop_code(binop, lhs, rhs, int_ty, lhs_bty, rhs_is_pointer, base as int),
                            start.current,
                        ));
                    }
                    return r;
                }
            },
        };
        let r = self.emit(inst);
        proof {
            assert(self.insts@ =~= start.insts@ + in_block(
                binop_code(binop, lhs, rhs, int_ty, type_index(start, lhs_ty), rhs_is_pointer, base as int),
                start.current,
            ));
        }
        r
    }
}


/// The operand that stands for a local: its stack slot, when it has one.
pub open spec fn slot_of(ids: Seq<(ir::IdentifierId, Operand)>, id: ir::IdentifierId, ty: usize) -> Operand
    decreases ids.len(),
{
    if ids.len() == 0 {
        Operand::Undef(ty)
    } else if ids.last().0 == id {
        ids.last().1
    } else {
        slot_of(ids.drop_last(), id, ty)
    }
}

impl<'s, 't> Backend<'s, 't> {
    fn codegen_unop(&mut self, unop: ir::UnaryOperatorKind, sub: Operand) -> (r: Operand)
        requires
            open_body(*old(self)),
        ensures
            emitted(
                *old(self),
                *final(self),
                unop_code(
                    unop,
                    sub,
                    type_index(*old(self), TypeId { index: crate::ty::INT_INDEX }),
                    type_index(*old(self), TypeId { index: crate::ty::DOUBLE_INDEX }),
                ),
            ),
            unop == ir::UnaryOperatorKind::PointerDeref ==> r == sub,
            unop != ir::UnaryOperatorKind::PointerDeref ==> r == Operand::Inst(
                old(self).insts@.len() as usize,
            ),
    {
        let ghost start = *self;
        let int_ty = self.codegen_type(TypeId { index: crate::ty::INT_INDEX });
        let double_ty = self.codegen_type(TypeId { index: crate::ty::DOUBLE_INDEX });
        let inst = match unop {
            ir::UnaryOperatorKind::IntMinus => Instruction::Arith(
                ArithOp::Sub,
                Operand::ConstInt(int_ty, 0),
                sub,
            ),
            ir::UnaryOperatorKind::DoubleMinus => Instruction::Arith(
                ArithOp::FSub,
                Operand::ConstReal(double_ty, 0),
                sub,
            ),
            ir::UnaryOperatorKind::BooleanNot => Instruction::Not(sub),
            ir::UnaryOperatorKind::PointerDeref => {
                proof {
                    lemma_preserves_refl(start);
                    assert(self.insts@ =~= start.insts@ + in_block(seq![], start.current));
                }
                return sub;
            },
        };
        let r = self.emit(inst);
        proof {
            assert(self.insts@ =~= start.insts@ + in_block(
                unop_code(unop, sub, int_ty, double_ty),
                start.current,
            ));
        }
        r
    }

    /// Emits one instruction that stays in the current block.
    fn emit_one(&mut self, inst: Instruction) -> (r: Operand)
        requires
            open_body(*old(self)),
            !is_terminator(inst),
        ensures
            emitted(*old(self), *final(self), seq![inst]),
            r == Operand::Inst(old(self).insts@.len() as usize),
    {
        let ghost start = *self;
        let ghost i = inst;
        let r = self.emit(inst);
        proof {
            assert(self.insts@ =~= start.insts@ + in_block(seq![i], start.current));
        }
        r
    }

    fn codegen_cast(&mut self, kind: ir::CastKind, sub: Operand) -> (r: Operand)
        requires
            open_body(*old(self)),
        ensures
            emitted(
                *old(self),
                *final(self),
                seq![
                    cast_instruction(
                        kind,
                        sub,
                        type_index(*old(self), TypeId { index: crate::ty::INT_INDEX }),
                        type_index(*old(self), TypeId { index: crate::ty::DOUBLE_INDEX }),
                        match kind {
                            ir::CastKind::IntToPtr(t) => type_index(*old(self), t),
                            _ => 0,
                        },
                    ),
                ],
            ),
            r == Operand::Inst(old(self).insts@.len() as usize),
    {
        let int_ty = self.codegen_type(TypeId { index: crate::ty::INT_INDEX });
        let double_ty = self.codegen_type(TypeId { index: crate::ty::DOUBLE_INDEX });
        let inst = match kind {
            ir::CastKind::IntToDouble => Instruction::Convert(Conversion::SIToFP, sub, double_ty),
            ir::CastKind::DoubleToInt => Instruction::Convert(Conversion::FPToSI, sub, int_ty),
            ir::CastKind::BooleanToInt => Instruction::Convert(Conversion::ZExt, sub, int_ty),
            ir::CastKind::IntToBoolean => Instruction::ICmp(
                IntPredicate::Ne,
                sub,
                Operand::ConstInt(int_ty, 0),
            ),
            ir::CastKind::PtrToInt => Instruction::Convert(Conversion::PtrToInt, sub, int_ty),
            ir::CastKind::IntToPtr(t) => {
                let ptr_ty = self.codegen_type(t);
                Instruction::Convert(Conversion::IntToPtr, sub, ptr_ty)
            },
        };
        self.emit_one(inst)
    }

    fn codegen_bitcast(&mut self, dest_ty: TypeId, sub: Operand) -> (r: Operand)
        requires
            open_body(*old(self)),
        ensures
            emitted(
                *old(self),
                *final(self),
                seq![Instruction::BitCast(sub, type_index(*old(self), dest_ty))],
            ),
            r == Operand::Inst(old(self).insts@.len() as usize),
    {
        let llvm_dest_ty = self.codegen_type(dest_ty);
        self.emit_one(Instruction::BitCast(sub, llvm_dest_ty))
    }

    /// A field of a struct or tuple place, by index.
    fn codegen_field_access(&mut self, indexed: Operand, index: usize) -> (r: Operand)
        requires
            open_body(*old(self)),
        ensures
            emitted(*old(self), *final(self), seq![Instruction::StructGep(indexed, index)]),
            r == Operand::Inst(old(self).insts@.len() as usize),
    {
        self.emit_one(Instruction::StructGep(indexed, index))
    }

    /// The value stored at a place.
    fn codegen_l2r_expr(&mut self, place: Operand) -> (r: Operand)
        requires
            open_body(*old(self)),
        ensures
            emitted(*old(self), *final(self), seq![Instruction::Load(place)]),
            r == Operand::Inst(old(self).insts@.len() as usize),
    {
        self.emit_one(Instruction::Load(place))
    }

    /// A temporary slot holding `value`, whose backend type is `ty`.
    fn codegen_r2l_expr(&mut self, value: Operand, ty: TypeId) -> (r: Operand)
        requires
            open_body(*old(self)),
        ensures
            emitted(
                *old(self),
                *final(self),
                seq![
                    Instruction::Alloca(type_index(*old(self), ty)),
                    Instruction::Store(value, Operand::Inst(old(self).insts@.len() as usize)),
                ],
            ),
            r == Operand::Inst(old(self).insts@.len() as usize),
    {
        let ghost start = *self;
        let llvm_ty = self.codegen_type(ty);
        let ptr = self.emit(Instruction::Alloca(llvm_ty));
        let ghost mid = *self;
        self.emit(Instruction::Store(value, ptr));
        proof {
            assert(self.insts@ =~= start.insts@ + in_block(
                seq![Instruction::Alloca(llvm_ty), Instruction::Store(value, ptr)],
                start.current,
            ));
        }
        ptr
    }

    /// Stores `rhs` at the place `lhs`; the value of the assignment is `rhs`.
    fn codegen_assign(&mut self, lhs: Operand, rhs: Operand) -> (r: Operand)
        requires
            open_body(*old(self)),
        ensures
            emitted(*old(self), *final(self), seq![Instruction::Store(rhs, lhs)]),
            r == rhs,
    {
        self.emit_one(Instruction::Store(rhs, lhs));
        rhs
    }

    /// Adds one to, or takes one from, the integer at a place; the result is the place.
    fn codegen_incdecrement(&mut self, ptr: Operand, inc: bool) -> (r: Operand)
        requires
            open_body(*old(self)),
        ensures
            emitted(
                *old(self),
                *final(self),
                seq![
                    Instruction::Load(ptr),
                    Instruction::Arith(
                        if inc {
                            ArithOp::Add
                        } else {
                            ArithOp::Sub
                        },
                        Operand::Inst(old(self).insts@.len() as usize),
                        Operand::ConstInt(
                            type_index(*old(self), TypeId { index: crate::ty::INT_INDEX }),
                            1,
                        ),
                    ),
                    Instruction::Store(Operand::Inst((old(self).insts@.len() + 1) as usize), ptr),
                ],
            ),
            r == ptr,
    {
        let ghost start = *self;
        let c1 = Operand::ConstInt(self.codegen_type(TypeId { index: crate::ty::INT_INDEX }), 1);
        let value = self.emit(Instruction::Load(ptr));
        let ghost s1 = *self;
        let op = if inc {
            ArithOp::Add
        } else {
            ArithOp::Sub
        };
        let value2 = self.emit(Instruction::Arith(op, value, c1));
        let ghost s2 = *self;
        self.emit(Instruction::Store(value2, ptr));
        proof {
            assert(self.insts@ =~= start.insts@ + in_block(
                seq![
                    Instruction::Load(ptr),
                    Instruction::Arith(op, value, c1),
                    Instruction::Store(value2, ptr),
                ],
                start.current,
            ));
        }
        ptr
    }

    /// The address of a place is the place itself.
    fn codegen_addressof(&mut self, place: Operand) -> (r: Operand)
        ensures
            *final(self) == *old(self),
            r == place,
    {
        place
    }

    fn codegen_funccall(&mut self, func: Operand, args: Vec<Operand>) -> (r: Operand)
        requires
            open_body(*old(self)),
        ensures
            emitted(*old(self), *final(self), seq![Instruction::Call(func, args)]),
            r == Operand::Inst(old(self).insts@.len() as usize),
    {
        self.emit_one(Instruction::Call(func, args))
    }

    /// The stack slot of a local.
    fn codegen_identifier(&self, id: ir::IdentifierId, ty: usize) -> (r: Operand)
        ensures
            r == slot_of(self.ids@, id, ty),
    {
        let mut i = self.ids.len();
        assert(self.ids@.subrange(0, i as int) =~= self.ids@);
        while i > 0
            invariant
                i <= self.ids.len(),
                slot_of(self.ids@, id, ty) == slot_of(self.ids@.subrange(0, i as int), id, ty),
            decreases i,
        {
            assert(self.ids@.subrange(0, i as int).drop_last() =~= self.ids@.subrange(0, i - 1));
            if self.ids[i - 1].0 == id {
                return self.ids[i - 1].1;
            }
            i = i - 1;
        }
        Operand::Undef(ty)
    }
}


impl<'s, 't> Backend<'s, 't> {
    /// A new empty block, pending until it is entered.
    fn new_block(&mut self, pending: Ghost<Set<int>>) -> (r: usize)
        requires
            inv(*old(self), pending@),
            old(self).num_blocks < usize::MAX,
        ensures
            inv(*final(self), pending@.insert(r as int)),
            r == old(self).num_blocks,
            !pending@.contains(r as int),
            final(self).num_blocks == old(self).num_blocks + 1,
            final(self).insts == old(self).insts,
            final(self).current == old(self).current,
            frame(*old(self), *final(self)),
            fixed(*old(self), *final(self)),
    {
        let r = self.num_blocks;
        self.num_blocks = r + 1;
        r
    }

    /// Ends the current block with `inst` and enters the pending block `next`.
    fn jump_to(&mut self, inst: Instruction, next: usize, pending: Ghost<Set<int>>)
        requires
            inv(*old(self), pending@),
            is_terminator(inst),
            pending@.contains(next as int),
        ensures
            inv(*final(self), pending@.remove(next as int)),
            final(self).insts@ == old(self).insts@.push((old(self).current, inst)),
            final(self).current == next,
            final(self).num_blocks == old(self).num_blocks,
            frame(*old(self), *final(self)),
            fixed(*old(self), *final(self)),
    {
        let ghost before = *self;
        let ghost cur = self.current as int;
        self.build_terminator(inst);
        self.current = next;
        proof {
            let p = pending@.remove(next as int);
            let insts = self.insts@;
            assert forall|k: int| 0 <= k < insts.len() implies (#[trigger] insts[k]).0 != next by {
                if k < before.insts@.len() {
                    assert(insts[k] == before.insts@[k]);
                }
            }
            assert forall|x: int| #[trigger] p.contains(x) implies 0 <= x < self.num_blocks
                && untouched(insts, x) by {
                assert forall|k: int| 0 <= k < insts.len() implies (#[trigger] insts[k]).0 != x by {
                    if k < before.insts@.len() {
                        assert(insts[k] == before.insts@[k]);
                    }
                }
            }
            assert forall|x: int|
                0 <= x < self.num_blocks && x != self.current && !p.contains(x) implies #[trigger] block_terminated(insts, x) by {
                if x != cur {
                    assert(block_terminated(before.insts@, x));
                    let k = choose|k: int|
                        0 <= k < before.insts@.len() && before.insts@[k].0 == x && is_terminator(
                            #[trigger] before.insts@[k].1,
                        );
                    assert(insts[k] == before.insts@[k]);
                }
            }
        }
    }

    /// Ends the current block with `inst`, then continues in a new block that nothing
    /// jumps to. Past the largest block count nothing is emitted.
    fn terminate_block(&mut self, inst: Instruction, pending: Ghost<Set<int>>)
        requires
            inv(*old(self), pending@),
            is_terminator(inst),
        ensures
            inv(*final(self), pending@),
            frame(*old(self), *final(self)),
            terminated_with(*old(self), *final(self), inst),
    {
        if self.num_blocks == usize::MAX {
            return;
        }
        let next = self.new_block(pending);
        let ghost with_next = pending@.insert(next as int);
        self.jump_to(inst, next, Ghost(with_next));
        assert(with_next.remove(next as int) =~= pending@);
    }

    fn codegen_return_statement(&mut self, value: Option<Operand>, pending: Ghost<Set<int>>)
        requires
            inv(*old(self), pending@),
        ensures
            inv(*final(self), pending@),
            frame(*old(self), *final(self)),
            terminated_with(
                *old(self),
                *final(self),
                match value {
                    Some(v) => Instruction::Ret(v),
                    None => Instruction::RetVoid,
                },
            ),
    {
        match value {
            Some(v) => self.terminate_block(Instruction::Ret(v), pending),
            None => self.terminate_block(Instruction::RetVoid, pending),
        }
    }

    /// `break` jumps to the end block of the innermost loop.
    fn codegen_break_statement(&mut self, loops: Option<LoopTargets>, pending: Ghost<Set<int>>)
        requires
            inv(*old(self), pending@),
        ensures
            inv(*final(self), pending@),
            frame(*old(self), *final(self)),
            terminated_with(
                *old(self),
                *final(self),
                match loops {
                    Some(t) => Instruction::Br(t.break_bb),
                    None => Instruction::Unreachable,
                },
            ),
    {
        match loops {
            Some(t) => self.terminate_block(Instruction::Br(t.break_bb), pending),
            None => self.terminate_block(Instruction::Unreachable, pending),
        }
    }

    /// `continue` jumps to the condition block of the innermost loop.
    fn codegen_continue_statement(&mut self, loops: Option<LoopTargets>, pending: Ghost<Set<int>>)
        requires
            inv(*old(self), pending@),
        ensures
            inv(*final(self), pending@),
            frame(*old(self), *final(self)),
            terminated_with(
                *old(self),
                *final(self),
                match loops {
                    Some(t) => Instruction::Br(t.continue_bb),
                    None => Instruction::Unreachable,
                },
            ),
    {
        match loops {
            Some(t) => self.terminate_block(Instruction::Br(t.continue_bb), pending),
            None => self.terminate_block(Instruction::Unreachable, pending),
        }
    }
}


/// The code of `++` (`inc`) or `--` on the integer place `ptr`, whose first instruction
/// gets index `n`: load, add or subtract one, store back.
pub open spec fn incdec_code(inc: bool, ptr: Operand, int_ty: usize, n: int) -> Seq<Instruction> {
    seq![
        Instruction::Load(ptr),
        Instruction::Arith(
            if inc {
                ArithOp::Add
            } else {
                ArithOp::Sub
            },
            Operand::Inst(n as usize),
            Operand::ConstInt(int_ty, 1),
        ),
        Instruction::Store(Operand::Inst((n + 1) as usize), ptr),
    ]
}

/// The code of an operator on a place: `++` and `--` update it, `&` is the place
/// itself.
pub open spec fn lvalue_unop_code(
    k: ir::LValueUnaryOperatorKind,
    ptr: Operand,
    int_ty: usize,
    n: int,
) -> Seq<Instruction> {
    match k {
        ir::LValueUnaryOperatorKind::IntIncrement => incdec_code(true, ptr, int_ty, n),
        ir::LValueUnaryOperatorKind::IntDecrement => incdec_code(false, ptr, int_ty, n),
        ir::LValueUnaryOperatorKind::LValueToPtr => seq![],
    }
}

/// A string constant: a pointer to a global holding the interned text (empty for an
/// id the interner does not hold), seen as a `string`.
pub open spec fn string_lowered(a: Backend, id: ir::InternerId, b: Backend, r: Operand) -> bool {
    let n = a.insts@.len() as int;
    &&& b.insts@.len() == n + 2
    &&& b.insts@.subrange(0, n) == a.insts@
    &&& b.insts@[n].0 == a.current
    &&& b.insts@[n].1 is GlobalStringPtr
    &&& (id.index < a.strings.contents().len() ==> b.insts@[n].1->GlobalStringPtr_0@
        == a.strings.contents()[id.index as int])
    &&& (id.index >= a.strings.contents().len() ==> b.insts@[n].1->GlobalStringPtr_0@.len() == 0)
    &&& b.insts@[n + 1] == (
        a.current,
        Instruction::BitCast(
            Operand::Inst(n as usize),
            type_index(a, TypeId { index: crate::ty::STRING_INDEX }),
        ),
    )
    &&& b.current == a.current
    &&& b.num_blocks == a.num_blocks
    &&& frame(a, b)
    &&& fixed(a, b)
    &&& r == Operand::Inst((n + 1) as usize)
}

/// The operand of a literal: a constant of its backend type; a double's text is
/// added to the real constants; a string is `string_lowered`.
pub open spec fn literal_lowered(a: Backend, lit: ir::Literal, b: Backend, r: Operand) -> bool {
    match lit {
        ir::Literal::IntLiteral(i) => appended(a, b, seq![]) && r == Operand::ConstInt(
            type_index(a, TypeId { index: crate::ty::INT_INDEX }),
            i,
        ),
        ir::Literal::BooleanLiteral(v) => appended(a, b, seq![]) && r == Operand::ConstInt(
            type_index(a, TypeId { index: crate::ty::BOOLEAN_INDEX }),
            if v {
                1
            } else {
                0
            },
        ),
        ir::Literal::DoubleLiteral(d) => {
            &&& b.insts == a.insts
            &&& b.current == a.current
            &&& b.num_blocks == a.num_blocks
            &&& frame(a, b)
            &&& b.ids == a.ids
            &&& b.reals@.len() == a.reals@.len() + 1
            &&& b.reals@.last()@ == d@
            &&& b.reals@.drop_last() == a.reals@
            &&& r == Operand::ConstReal(
                type_index(a, TypeId { index: crate::ty::DOUBLE_INDEX }),
                a.reals@.len() as usize,
            )
        },
        ir::Literal::StringLiteral(id) => string_lowered(a, id, b, r),
    }
}

/// The function named `name`, or an undefined value of type `ty` when there is none.
pub open spec fn global_operand(a: Backend, name: Seq<char>, ty: usize, r: Operand) -> bool {
    ||| (r is Function && r->Function_0 < a.functions.len() && a.functions@[r->Function_0 as int].name@
        == name)
    ||| (r == Operand::Undef(ty) && forall|i: int|
        0 <= i < a.functions.len() ==> (#[trigger] a.functions@[i]).name@ != name)
}

/// The operand of a value: a literal, the stack slot of a local, or a function.
pub open spec fn value_lowered(a: Backend, value: ir::Value, ty: TypeId, b: Backend, r: Operand) -> bool {
    match value {
        ir::Value::Literal(lit) => literal_lowered(a, lit, b, r),
        ir::Value::Local(id) => appended(a, b, seq![]) && r == slot_of(a.ids@, id, type_index(a, ty)),
        ir::Value::Global(name) => appended(a, b, seq![]) && global_operand(a, name@, type_index(a, ty), r),
    }
}

/// What an emitter leaves behind: an open current block, the same current block and
/// block count, and the block discipline kept.
pub open spec fn stays(a: Backend, b: Backend) -> bool {
    &&& open_body(b)
    &&& preserves(a, b)
    &&& b.current == a.current
    &&& b.num_blocks == a.num_blocks
}

impl<'s, 't> Backend<'s, 't> {
    /// A string constant: a pointer to its bytes, seen as a `string`. An id that the
    /// interner does not hold (which the translator never produces) gives the empty
    /// string.
    fn codegen_string_literal(&mut self, id: ir::InternerId) -> (r: Operand)
        requires
            open_body(*old(self)),
        ensures
            stays(*old(self), *final(self)),
            string_lowered(*old(self), id, *final(self), r),
    {
        let text = if id.index < self.strings.len() {
            self.strings.get_ref(id).clone()
        } else {
            String::new()
        };
        let ghost t = text;
        let gs = self.emit_one(Instruction::GlobalStringPtr(text));
        let s_ty = self.codegen_type(TypeId { index: crate::ty::STRING_INDEX });
        let ghost mid = *self;
        let r = self.emit_one(Instruction::BitCast(gs, s_ty));
        proof {
            let n = old(self).insts@.len() as int;
            assert(mid.insts@[n] == (old(self).current, Instruction::GlobalStringPtr(t)));
            assert(self.insts@[n] == mid.insts@[n]);
            assert(self.insts@.subrange(0, n) =~= old(self).insts@);
            assert(self.insts@[n + 1] == (old(self).current, Instruction::BitCast(gs, s_ty)));
        }
        r
    }

    fn codegen_literal(&mut self, literal: &ir::Literal) -> (r: Operand)
        requires
            open_body(*old(self)),
        ensures
            stays(*old(self), *final(self)),
            literal_lowered(*old(self), *literal, *final(self), r),
    {
        match literal {
            ir::Literal::IntLiteral(i) => {
                let ty = self.codegen_type(TypeId { index: crate::ty::INT_INDEX });
                assert(self.insts@ + in_block(seq![], self.current) =~= self.insts@);
                Operand::ConstInt(ty, *i)
            },
            ir::Literal::DoubleLiteral(d) => {
                let ty = self.codegen_type(TypeId { index: crate::ty::DOUBLE_INDEX });
                let index = self.reals.len();
                let ghost before = self.reals@;
                self.reals.push(d.clone());
                assert(self.reals@.drop_last() =~= before);
                Operand::ConstReal(ty, index)
            },
            ir::Literal::BooleanLiteral(b) => {
                let ty = self.codegen_type(TypeId { index: crate::ty::BOOLEAN_INDEX });
                assert(self.insts@ + in_block(seq![], self.current) =~= self.insts@);
                Operand::ConstInt(
                    ty,
                    if *b {
                        1
                    } else {
                        0
                    },
                )
            },
            ir::Literal::StringLiteral(id) => self.codegen_string_literal(*id),
        }
    }

    /// The function named `name`; a name with no function (which the translator
    /// never produces) is undefined.
    fn codegen_global(&self, name: &String, ty: usize) -> (r: Operand)
        ensures
            r is Function ==> r->Function_0 < self.functions.len()
                && self.functions@[r->Function_0 as int].name@ == name@,
            !(r is Function) ==> r == Operand::Undef(ty) && forall|i: int|
                0 <= i < self.functions.len() ==> (#[trigger] self.functions@[i]).name@ != name@,
    {
        let mut i: usize = 0;
        while i < self.functions.len()
            invariant
                i <= self.functions.len(),
                forall|j: int| 0 <= j < i ==> (#[trigger] self.functions@[j]).name@ != name@,
            decreases self.functions.len() - i,
        {
            if self.functions[i].name == *name {
                return Operand::Function(i);
            }
            i = i + 1;
        }
        Operand::Undef(ty)
    }

    fn codegen_value(&mut self, value: &ir::Value, ty: TypeId) -> (r: Operand)
        requires
            open_body(*old(self)),
        ensures
            stays(*old(self), *final(self)),
            value_lowered(*old(self), *value, ty, *final(self), r),
    {
        proof {
            assert(self.insts@ + in_block(seq![], self.current) =~= self.insts@);
        }
        match value {
            ir::Value::Literal(lit) => self.codegen_literal(lit),
            ir::Value::Local(id) => {
                let t = self.codegen_type(ty);
                self.codegen_identifier(*id, t)
            },
            ir::Value::Global(name) => {
                let t = self.codegen_type(ty);
                self.codegen_global(name, t)
            },
        }
    }

    fn codegen_lvalue_unop(&mut self, lvalue_unop: ir::LValueUnaryOperatorKind, sub: Operand) -> (r: Operand)
        requires
            open_body(*old(self)),
        ensures
            emitted(
                *old(self),
                *final(self),
                lvalue_unop_code(
                    lvalue_unop,
                    sub,
                    type_index(*old(self), TypeId { index: crate::ty::INT_INDEX }),
                    old(self).insts@.len() as int,
                ),
            ),
            r == sub,
    {
        proof {
            assert(self.insts@ + in_block(seq![], self.current) =~= self.insts@);
        }
        match lvalue_unop {
            ir::LValueUnaryOperatorKind::IntIncrement => self.codegen_incdecrement(sub, true),
            ir::LValueUnaryOperatorKind::IntDecrement => self.codegen_incdecrement(sub, false),
            ir::LValueUnaryOperatorKind::LValueToPtr => self.codegen_addressof(sub),
        }
    }

    /// Whether `ty` is a pointer type of the table.
    fn is_pointer_type(&self, ty: TypeId) -> (r: bool)
        ensures
            r == (ty.index < self.tyctxt.len() && self.tyctxt.shape(ty) is Pointer),
    {
        if ty.index < self.tyctxt.size() {
            match self.tyctxt.get(ty) {
                Type::Pointer(_) => true,
                _ => false,
            }
        } else {
            false
        }
    }
}


/// `b` is `a` with `added` new blocks and nothing else.
pub open spec fn grown(a: Backend, b: Backend, added: nat) -> bool {
    &&& b.insts@ == a.insts@
    &&& b.current == a.current
    &&& b.num_blocks == a.num_blocks + added
    &&& frame(a, b)
    &&& fixed(a, b)
}

/// `b` is `a` with a call of `f` on `args` appended to the current block.
pub open spec fn call_appended(a: Backend, b: Backend, f: Operand, args: Seq<Operand>) -> bool {
    &&& b.insts@.len() == a.insts@.len() + 1
    &&& b.insts@ == a.insts@.push((a.current, b.insts@.last().1))
    &&& b.insts@.last().1 is Call
    &&& b.insts@.last().1->Call_0 == f
    &&& b.insts@.last().1->Call_1@ == args
    &&& b.current == a.current
    &&& b.num_blocks == a.num_blocks
    &&& frame(a, b)
    &&& fixed(a, b)
}

/// `b` is `a` with a phi of type `ty` appended to the current block, taking `tv`
/// from block `tb` and `fv` from block `fb`.
pub open spec fn phi_appended(a: Backend, b: Backend, ty: usize, tv: Operand, tb: usize, fv: Operand, fb: usize) -> bool {
    &&& b.insts@.len() == a.insts@.len() + 1
    &&& b.insts@ == a.insts@.push((a.current, b.insts@.last().1))
    &&& b.insts@.last().1 is Phi
    &&& b.insts@.last().1->Phi_0 == ty
    &&& b.insts@.last().1->Phi_1@ == seq![(tv, tb), (fv, fb)]
    &&& b.current == a.current
    &&& b.num_blocks == a.num_blocks
    &&& frame(a, b)
    &&& fixed(a, b)
}

/// Whether `ty` is a pointer type of the table.
pub open spec fn pointer_type(a: Backend, ty: TypeId) -> bool {
    ty.index < a.tyctxt.len() && a.tyctxt.shape(ty) is Pointer
}

/// The intermediate bodies and values of one lowering, with those of the parts it
/// lowers: what makes each step of the lowering relations below explicit.
pub struct Trace<'s, 't> {
    pub states: Seq<Backend<'s, 't>>,
    pub vals: Seq<Operand>,
    pub subs: Seq<Trace<'s, 't>>,
}

/// Lowering the expression `e` takes the body from `a` to `b` and yields `r`, through
/// the steps `t`. The operands are lowered left to right (the left operand before
/// the right one, the callee before the arguments), then the operator's own code is
/// appended.
pub open spec fn expr_lowered<'s, 't>(
    a: Backend<'s, 't>,
    e: ir::TypedExpression,
    loops: Option<LoopTargets>,
    b: Backend<'s, 't>,
    r: Operand,
    t: Trace<'s, 't>,
) -> bool
    decreases e, 1int,
{
    let int_ty = type_index(a, TypeId { index: crate::ty::INT_INDEX });
    let double_ty = type_index(a, TypeId { index: crate::ty::DOUBLE_INDEX });
    let m = t.states[0];
    let v = t.vals[0];
    match e.expr {
        ir::Expression::Block(blk) => block_expr_lowered(a, *blk, loops, b, r, t),
        ir::Expression::LValueToRValue(sub) => expr_lowered(a, *sub, loops, m, v, t.subs[0])
            && appended(m, b, seq![Instruction::Load(v)]) && r == Operand::Inst(
            m.insts@.len() as usize,
        ),
        ir::Expression::RValueToLValue(sub) => expr_lowered(a, *sub, loops, m, v, t.subs[0])
            && appended(
            m,
            b,
            seq![
                Instruction::Alloca(type_index(a, sub.ty)),
                Instruction::Store(v, Operand::Inst(m.insts@.len() as usize)),
            ],
        ) && r == Operand::Inst(m.insts@.len() as usize),
        ir::Expression::Value(value) => value_lowered(a, value, e.ty, b, r),
        ir::Expression::Assign { lhs, rhs } => expr_lowered(a, *lhs, loops, m, v, t.subs[0])
            && expr_lowered(m, *rhs, loops, t.states[1], t.vals[1], t.subs[1]) && appended(
            t.states[1],
            b,
            seq![Instruction::Store(t.vals[1], v)],
        ) && r == t.vals[1],
        ir::Expression::BinaryOperator { binop, lhs, rhs } => expr_lowered(
            a,
            *lhs,
            loops,
            m,
            v,
            t.subs[0],
        ) && expr_lowered(m, *rhs, loops, t.states[1], t.vals[1], t.subs[1]) && appended(
            t.states[1],
            b,
            binop_code(
                binop,
                v,
                t.vals[1],
                int_ty,
                type_index(a, lhs.ty),
                pointer_type(a, rhs.ty),
                t.states[1].insts@.len() as int,
            ),
        ) && r == Operand::Inst((b.insts@.len() - 1) as usize),
        ir::Expression::UnaryOperator { unop, sub } => expr_lowered(a, *sub, loops, m, v, t.subs[0])
            && appended(m, b, unop_code(unop, v, int_ty, double_ty)) && r == if unop
            == ir::UnaryOperatorKind::PointerDeref {
            v
        } else {
            Operand::Inst(m.insts@.len() as usize)
        },
        ir::Expression::LValueUnaryOperator { lvalue_unop, sub } => expr_lowered(
            a,
            *sub,
            loops,
            m,
            v,
            t.subs[0],
        ) && appended(m, b, lvalue_unop_code(lvalue_unop, v, int_ty, m.insts@.len() as int)) && r
            == v,
        ir::Expression::Cast { kind, sub } => expr_lowered(a, *sub, loops, m, v, t.subs[0])
            && appended(
            m,
            b,
            seq![
                cast_instruction(
                    kind,
                    v,
                    int_ty,
                    double_ty,
                    match kind {
                        ir::CastKind::IntToPtr(target) => type_index(a, target),
                        _ => 0,
                    },
                ),
            ],
        ) && r == Operand::Inst(m.insts@.len() as usize),
        ir::Expression::BitCast { dest_ty, sub } => expr_lowered(a, *sub, loops, m, v, t.subs[0])
            && appended(m, b, seq![Instruction::BitCast(v, type_index(a, dest_ty))]) && r
            == Operand::Inst(m.insts@.len() as usize),
        ir::Expression::FunctionCall { function, args } => expr_lowered(
            a,
            *function,
            loops,
            m,
            v,
            t.subs[0],
        ) && args_lowered(m, args@, loops, t.states[1], t.subs[1].vals, t.subs[1]) && call_appended(
            t.states[1],
            b,
            v,
            t.subs[1].vals,
        ) && r == Operand::Inst(t.states[1].insts@.len() as usize),
        ir::Expression::FieldAccess { sub, index } => expr_lowered(a, *sub, loops, m, v, t.subs[0])
            && appended(m, b, seq![Instruction::StructGep(v, index)]) && r == Operand::Inst(
            m.insts@.len() as usize,
        ),
        ir::Expression::Ternary { condition, .. } => expr_lowered(
            a,
            *condition,
            loops,
            m,
            v,
            t.subs[0],
        ) && ternary_lowered(m, v, e, type_index(a, e.ty), loops, b, r, t.subs[1]),
    }
}

/// The rest of `c ? x : y` once the condition `c` is lowered into `a`: three new
/// blocks; the current block ends with `CondBr(c, true_bb, false_bb)`; each arm is
/// lowered in its own block and ends with `Br(final_bb)`; the body continues in
/// `final_bb`, whose phi of the two arms' values, by the blocks the arms ended in,
/// is the result. Past the largest block count nothing is emitted.
pub open spec fn ternary_lowered<'s, 't>(
    a: Backend<'s, 't>,
    c: Operand,
    e: ir::TypedExpression,
    ty: usize,
    loops: Option<LoopTargets>,
    b: Backend<'s, 't>,
    r: Operand,
    t: Trace<'s, 't>,
) -> bool
    decreases e, 0int,
{
    match e.expr {
        ir::Expression::Ternary { true_expr, false_expr, .. } => if a.num_blocks > usize::MAX - 3 {
            b == a && r == Operand::Undef(ty)
        } else {
            let true_bb = a.num_blocks;
            let false_bb = (a.num_blocks + 1) as usize;
            let final_bb = (a.num_blocks + 2) as usize;
            let s = t.states;
            &&& stepped(a, s[0], Instruction::CondBr(c, true_bb, false_bb), true_bb, 3)
            &&& expr_lowered(s[0], *true_expr, loops, s[1], t.vals[0], t.subs[0])
            &&& stepped(s[1], s[2], Instruction::Br(final_bb), false_bb, 0)
            &&& expr_lowered(s[2], *false_expr, loops, s[3], t.vals[1], t.subs[1])
            &&& stepped(s[3], s[4], Instruction::Br(final_bb), final_bb, 0)
            &&& phi_appended(s[4], b, ty, t.vals[0], s[1].current, t.vals[1], s[3].current)
            &&& r == Operand::Inst(s[4].insts@.len() as usize)
        },
        _ => false,
    }
}

/// The arguments `es`, lowered in order, with their values `vs`.
pub open spec fn args_lowered<'s, 't>(
    a: Backend<'s, 't>,
    es: Seq<ir::TypedExpression>,
    loops: Option<LoopTargets>,
    b: Backend<'s, 't>,
    vs: Seq<Operand>,
    t: Trace<'s, 't>,
) -> bool
    decreases es, 0int,
{
    if es.len() == 0 {
        b == a && vs.len() == 0
    } else {
        &&& vs.len() == es.len()
        &&& args_lowered(a, es.drop_last(), loops, t.states[0], vs.drop_last(), t.subs[0])
        &&& expr_lowered(t.states[0], es.last(), loops, b, vs.last(), t.subs[1])
    }
}

/// An expression block: its statements, then its final expression, whose value it
/// has.
pub open spec fn block_expr_lowered<'s, 't>(
    a: Backend<'s, 't>,
    blk: ir::BlockExpression,
    loops: Option<LoopTargets>,
    b: Backend<'s, 't>,
    r: Operand,
    t: Trace<'s, 't>,
) -> bool
    decreases blk, 2int,
{
    &&& stmts_lowered(a, blk.stmts@, loops, t.states[0], t.subs[0])
    &&& expr_lowered(t.states[0], blk.final_expr, loops, b, r, t.subs[1])
}

/// The statements `ss`, lowered in order.
pub open spec fn stmts_lowered<'s, 't>(
    a: Backend<'s, 't>,
    ss: Seq<ir::Statement>,
    loops: Option<LoopTargets>,
    b: Backend<'s, 't>,
    t: Trace<'s, 't>,
) -> bool
    decreases ss, 0int,
{
    if ss.len() == 0 {
        b == a
    } else {
        &&& stmts_lowered(a, ss.drop_last(), loops, t.states[0], t.subs[0])
        &&& stmt_lowered(t.states[0], ss.last(), loops, b, t.subs[1])
    }
}

/// Lowering the statement `s` takes the body from `a` to `b`. `return` lowers its
/// value, then ends the block with `Ret` (or `RetVoid`); `break` and `continue` end it
/// with a branch to the innermost loop's end or condition block (`Unreachable`
/// outside a loop); each of these continues in a new block that nothing jumps to.
pub open spec fn stmt_lowered<'s, 't>(
    a: Backend<'s, 't>,
    s: ir::Statement,
    loops: Option<LoopTargets>,
    b: Backend<'s, 't>,
    t: Trace<'s, 't>,
) -> bool
    decreases s, 1int,
{
    match s {
        ir::Statement::Block(v) => stmts_lowered(a, v@, loops, b, t),
        ir::Statement::If { .. } => if_lowered(a, s, loops, b, t),
        ir::Statement::For { .. } => for_lowered(a, s, loops, b, t),
        ir::Statement::Return(value) => match value {
            Some(e) => expr_lowered(a, e, loops, t.states[0], t.vals[0], t.subs[0])
                && terminated_with(t.states[0], b, Instruction::Ret(t.vals[0])),
            None => terminated_with(a, b, Instruction::RetVoid),
        },
        ir::Statement::Expression(e) => expr_lowered(a, e, loops, b, t.vals[0], t.subs[0]),
        ir::Statement::Break => terminated_with(
            a,
            b,
            match loops {
                Some(l) => Instruction::Br(l.break_bb),
                None => Instruction::Unreachable,
            },
        ),
        ir::Statement::Continue => terminated_with(
            a,
            b,
            match loops {
                Some(l) => Instruction::Br(l.continue_bb),
                None => Instruction::Unreachable,
            },
        ),
    }
}

/// `if`: the condition is lowered; three new blocks; the current block ends with
/// `CondBr(cond, then_bb, else_bb)`; the body is lowered in `then_bb` and the else
/// clause in `else_bb`, each followed by `Br(end_bb)`; the body continues in `end_bb`.
pub open spec fn if_lowered<'s, 't>(
    a: Backend<'s, 't>,
    s: ir::Statement,
    loops: Option<LoopTargets>,
    b: Backend<'s, 't>,
    t: Trace<'s, 't>,
) -> bool
    decreases s, 0int,
{
    match s {
        ir::Statement::If { condition, body, else_clause } => {
            let st = t.states;
            let m1 = st[0];
            let c = t.vals[0];
            &&& expr_lowered(a, condition, loops, m1, c, t.subs[0])
            &&& if m1.num_blocks > usize::MAX - 3 {
                b == m1
            } else {
                let then_bb = m1.num_blocks;
                let else_bb = (m1.num_blocks + 1) as usize;
                let end_bb = (m1.num_blocks + 2) as usize;
                &&& stepped(m1, st[1], Instruction::CondBr(c, then_bb, else_bb), then_bb, 3)
                &&& stmts_lowered(st[1], body@, loops, st[2], t.subs[1])
                &&& stepped(st[2], st[3], Instruction::Br(end_bb), else_bb, 0)
                &&& stmts_lowered(st[3], else_clause@, loops, st[4], t.subs[2])
                &&& stepped(st[4], b, Instruction::Br(end_bb), end_bb, 0)
            }
        },
        _ => false,
    }
}

/// `for`: three new blocks, `loop_bb`, `then_bb` and `end_bb`; the initializer is
/// lowered and the current block ends with `Br(loop_bb)`; `loop_bb` lowers the
/// condition and ends with `CondBr(cond, then_bb, end_bb)`; `then_bb` lowers the body
/// and then the step, with `break` going to `end_bb` and `continue` to `loop_bb`, and
/// ends with `Br(loop_bb)`; the body continues in `end_bb`.
pub open spec fn for_lowered<'s, 't>(
    a: Backend<'s, 't>,
    s: ir::Statement,
    loops: Option<LoopTargets>,
    b: Backend<'s, 't>,
    t: Trace<'s, 't>,
) -> bool
    decreases s, 0int,
{
    match s {
        ir::Statement::For { init, condition, step, body } => if a.num_blocks > usize::MAX - 3 {
            b == a
        } else {
            let loop_bb = a.num_blocks;
            let then_bb = (a.num_blocks + 1) as usize;
            let end_bb = (a.num_blocks + 2) as usize;
            let inner = Some(LoopTargets { break_bb: end_bb, continue_bb: loop_bb });
            let st = t.states;
            &&& grown(a, st[0], 3)
            &&& stmt_lowered(st[0], *init, loops, st[1], t.subs[0])
            &&& stepped(st[1], st[2], Instruction::Br(loop_bb), loop_bb, 0)
            &&& expr_lowered(st[2], condition, loops, st[3], t.vals[0], t.subs[1])
            &&& stepped(st[3], st[4], Instruction::CondBr(t.vals[0], then_bb, end_bb), then_bb, 0)
            &&& stmts_lowered(st[4], body@, inner, st[5], t.subs[2])
            &&& match step {
                Some(e) => expr_lowered(st[5], e, inner, st[6], t.vals[1], t.subs[3]) && stepped(
                    st[6],
                    b,
                    Instruction::Br(loop_bb),
                    end_bb,
                    0,
                ),
                None => stepped(st[5], b, Instruction::Br(loop_bb), end_bb, 0),
            }
        },
        _ => false,
    }
}

impl<'s, 't> Backend<'s, 't> {
    fn codegen_block_statement(
        &mut self,
        block: &Vec<ir::Statement>,
        loops: Option<LoopTargets>,
        pending: Ghost<Set<int>>,
    )
        requires
            inv(*old(self), pending@),
        ensures
            inv(*final(self), pending@),
            frame(*old(self), *final(self)),
            exists|t: Trace<'s, 't>| #[trigger] stmts_lowered(*old(self), block@, loops, *final(self), t),
        decreases block, 0int,
    {
        let ghost start = *self;
        let ghost mut tr = Trace { states: Seq::empty(), vals: Seq::empty(), subs: Seq::empty() };
        let mut i: usize = 0;
        proof {
            assert(block@.subrange(0, 0) =~= Seq::<ir::Statement>::empty());
        }
        while i < block.len()
            invariant
                i <= block.len(),
                inv(*self, pending@),
                frame(*old(self), *self),
                start == *old(self),
                stmts_lowered(start, block@.subrange(0, i as int), loops, *self, tr),
            decreases block.len() - i,
        {
            proof {
                assert(decreases_to!(*block => block[i as int]));
            }
            let ghost before = *self;
            self.codegen_statement(&block[i], loops, pending);
            proof {
                let ts = choose|t: Trace<'s, 't>| stmt_lowered(before, block@[i as int], loops, *self, t);
                let sub = block@.subrange(0, i + 1);
                assert(sub.drop_last() =~= block@.subrange(0, i as int));
                assert(sub.last() == block@[i as int]);
                let nt = Trace { states: seq![before], vals: Seq::empty(), subs: seq![tr, ts] };
                assert(stmts_lowered(start, sub, loops, *self, nt));
                tr = nt;
            }
            i = i + 1;
        }
        proof {
            assert(block@.subrange(0, i as int) =~= block@);
            assert(stmts_lowered(start, block@, loops, *self, tr));
        }
    }

    fn codegen_statement(
        &mut self,
        statement: &ir::Statement,
        loops: Option<LoopTargets>,
        pending: Ghost<Set<int>>,
    )
        requires
            inv(*old(self), pending@),
        ensures
            inv(*final(self), pending@),
            frame(*old(self), *final(self)),
            exists|t: Trace<'s, 't>| #[trigger] stmt_lowered(*old(self), *statement, loops, *final(self), t),
        decreases statement, 1int,
    {
        let ghost start = *self;
        match statement {
            ir::Statement::Block(block) => {
                self.codegen_block_statement(block, loops, pending);
                proof {
                    let t = choose|t: Trace<'s, 't>| stmts_lowered(start, block@, loops, *self, t);
                    assert(stmt_lowered(start, *statement, loops, *self, t));
                }
            },
            ir::Statement::If { .. } => {
                self.codegen_if(statement, loops, pending);
                proof {
                    let t = choose|t: Trace<'s, 't>| if_lowered(start, *statement, loops, *self, t);
                    assert(stmt_lowered(start, *statement, loops, *self, t));
                }
            },
            ir::Statement::For { .. } => {
                self.codegen_for(statement, loops, pending);
                proof {
                    let t = choose|t: Trace<'s, 't>| for_lowered(start, *statement, loops, *self, t);
                    assert(stmt_lowered(start, *statement, loops, *self, t));
                }
            },
            ir::Statement::Return(expr) => {
                match expr {
                    Some(e) => {
                        let v = self.codegen_expression(e, loops, pending);
                        let ghost m = *self;
                        self.codegen_return_statement(Some(v), pending);
                        proof {
                            let te = choose|t: Trace<'s, 't>| expr_lowered(start, *e, loops, m, v, t);
                            let t = Trace { states: seq![m], vals: seq![v], subs: seq![te] };
                            assert(stmt_lowered(start, *statement, loops, *self, t));
                        }
                    },
                    None => {
                        self.codegen_return_statement(None, pending);
                        proof {
                            let t = Trace { states: Seq::empty(), vals: Seq::empty(), subs: Seq::empty() };
                            assert(stmt_lowered(start, *statement, loops, *self, t));
                        }
                    },
                }
            },
            ir::Statement::Expression(expr) => {
                let v = self.codegen_expression(expr, loops, pending);
                proof {
                    let te = choose|t: Trace<'s, 't>| expr_lowered(start, *expr, loops, *self, v, t);
                    let t = Trace { states: Seq::empty(), vals: seq![v], subs: seq![te] };
                    assert(stmt_lowered(start, *statement, loops, *self, t));
                }
            },
            ir::Statement::Break => {
                self.codegen_break_statement(loops, pending);
                proof {
                    let t = Trace { states: Seq::empty(), vals: Seq::empty(), subs: Seq::empty() };
                    assert(stmt_lowered(start, *statement, loops, *self, t));
                }
            },
            ir::Statement::Continue => {
                self.codegen_continue_statement(loops, pending);
                proof {
                    let t = Trace { states: Seq::empty(), vals: Seq::empty(), subs: Seq::empty() };
                    assert(stmt_lowered(start, *statement, loops, *self, t));
                }
            },
        }
    }

    /// `if`: the condition picks the `then` or the `else` block; both continue at the
    /// end block.
    fn codegen_if(
        &mut self,
        statement: &ir::Statement,
        loops: Option<LoopTargets>,
        pending: Ghost<Set<int>>,
    )
        requires
            inv(*old(self), pending@),
            statement is If,
        ensures
            inv(*final(self), pending@),
            frame(*old(self), *final(self)),
            exists|t: Trace<'s, 't>| #[trigger] if_lowered(*old(self), *statement, loops, *final(self), t),
        decreases statement, 0int,
    {
        let ghost start = *self;
        if let ir::Statement::If { condition, body, else_clause } = statement {
            let cond = self.codegen_expression(condition, loops, pending);
            let ghost m1 = *self;
            let ghost tc = choose|t: Trace<'s, 't>| expr_lowered(start, *condition, loops, m1, cond, t);
            if self.num_blocks > usize::MAX - 3 {
                proof {
                    let t = Trace { states: seq![m1], vals: seq![cond], subs: seq![tc] };
                    assert(if_lowered(start, *statement, loops, *self, t));
                }
                return;
            }
            let then_bb = self.new_block(pending);
            let ghost then_pending = pending@.insert(then_bb as int);
            let else_bb = self.new_block(Ghost(then_pending));
            let ghost branches_pending = then_pending.insert(else_bb as int);
            let end_bb = self.new_block(Ghost(branches_pending));
            let ghost all_pending = branches_pending.insert(end_bb as int);
            self.jump_to(Instruction::CondBr(cond, then_bb, else_bb), then_bb, Ghost(all_pending));
            let ghost m2 = *self;
            let ghost else_end_pending = all_pending.remove(then_bb as int);
            self.codegen_block_statement(body, loops, Ghost(else_end_pending));
            let ghost m3 = *self;
            self.jump_to(Instruction::Br(end_bb), else_bb, Ghost(else_end_pending));
            let ghost m4 = *self;
            let ghost end_pending = else_end_pending.remove(else_bb as int);
            self.codegen_block_statement(else_clause, loops, Ghost(end_pending));
            let ghost m5 = *self;
            self.jump_to(Instruction::Br(end_bb), end_bb, Ghost(end_pending));
            assert(end_pending.remove(end_bb as int) =~= pending@);
            proof {
                let tb = choose|t: Trace<'s, 't>| stmts_lowered(m2, body@, loops, m3, t);
                let te = choose|t: Trace<'s, 't>| stmts_lowered(m4, else_clause@, loops, m5, t);
                assert(stepped(m1, m2, Instruction::CondBr(cond, then_bb, else_bb), then_bb, 3));
                assert(stepped(m3, m4, Instruction::Br(end_bb), else_bb, 0));
                assert(stepped(m5, *self, Instruction::Br(end_bb), end_bb, 0));
                let t = Trace { states: seq![m1, m2, m3, m4, m5], vals: seq![cond], subs: seq![tc, tb, te] };
                assert(if_lowered(start, *statement, loops, *self, t));
            }
        }
    }

    /// `for`: the initializer, then the condition block, which enters the body or
    /// leaves for the end block; the body runs the step and goes back to the
    /// condition. Inside the body `break` leaves for the end block and `continue`
    /// goes to the condition block.
    fn codegen_for(
        &mut self,
        statement: &ir::Statement,
        loops: Option<LoopTargets>,
        pending: Ghost<Set<int>>,
    )
        requires
            inv(*old(self), pending@),
            statement is For,
        ensures
            inv(*final(self), pending@),
            frame(*old(self), *final(self)),
            exists|t: Trace<'s, 't>| #[trigger] for_lowered(*old(self), *statement, loops, *final(self), t),
        decreases statement, 0int,
    {
        let ghost start = *self;
        if let ir::Statement::For { init, condition, step, body } = statement {
            if self.num_blocks > usize::MAX - 3 {
                proof {
                    let t = Trace { states: Seq::empty(), vals: Seq::empty(), subs: Seq::empty() };
                    assert(for_lowered(start, *statement, loops, *self, t));
                }
                return;
            }
            let loop_bb = self.new_block(pending);
            let ghost loop_pending = pending@.insert(loop_bb as int);
            let then_bb = self.new_block(Ghost(loop_pending));
            let ghost loop_then_pending = loop_pending.insert(then_bb as int);
            let end_bb = self.new_block(Ghost(loop_then_pending));
            let ghost all_pending = loop_then_pending.insert(end_bb as int);
            let ghost m0 = *self;
            self.codegen_statement(init, loops, Ghost(all_pending));
            let ghost m1 = *self;
            self.jump_to(Instruction::Br(loop_bb), loop_bb, Ghost(all_pending));
            let ghost m2 = *self;
            let ghost then_end_pending = all_pending.remove(loop_bb as int);
            let cond = self.codegen_expression(condition, loops, Ghost(then_end_pending));
            let ghost m3 = *self;
            self.jump_to(Instruction::CondBr(cond, then_bb, end_bb), then_bb, Ghost(then_end_pending));
            let ghost m4 = *self;
            let ghost end_pending = then_end_pending.remove(then_bb as int);
            let inner = Some(LoopTargets { break_bb: end_bb, continue_bb: loop_bb });
            self.codegen_block_statement(body, inner, Ghost(end_pending));
            let ghost m5 = *self;
            let ghost mut m6 = *self;
            let ghost mut sv = Operand::Undef(0);
            if let Some(st) = step {
                let v = self.codegen_expression(st, inner, Ghost(end_pending));
                proof {
                    m6 = *self;
                    sv = v;
                }
            }
            self.jump_to(Instruction::Br(loop_bb), end_bb, Ghost(end_pending));
            assert(end_pending.remove(end_bb as int) =~= pending@);
            proof {
                let ti = choose|t: Trace<'s, 't>| stmt_lowered(m0, **init, loops, m1, t);
                let tc = choose|t: Trace<'s, 't>| expr_lowered(m2, *condition, loops, m3, cond, t);
                let tb = choose|t: Trace<'s, 't>| stmts_lowered(m4, body@, inner, m5, t);
                let ts = match step {
                    Some(st) => choose|t: Trace<'s, 't>| expr_lowered(m5, *st, inner, m6, sv, t),
                    None => tb,
                };
                assert(grown(start, m0, 3));
                assert(stepped(m1, m2, Instruction::Br(loop_bb), loop_bb, 0));
                assert(stepped(m3, m4, Instruction::CondBr(cond, then_bb, end_bb), then_bb, 0));
                match step {
                    Some(st) => {
                        assert(stepped(m6, *self, Instruction::Br(loop_bb), end_bb, 0));
                    },
                    None => {
                        assert(stepped(m5, *self, Instruction::Br(loop_bb), end_bb, 0));
                    },
                }
                let t = Trace {
                    states: seq![m0, m1, m2, m3, m4, m5, m6],
                    vals: seq![cond, sv],
                    subs: seq![ti, tc, tb, ts],
                };
                assert(for_lowered(start, *statement, loops, *self, t));
            }
        }
    }

    fn codegen_args(
        &mut self,
        args: &Vec<ir::TypedExpression>,
        loops: Option<LoopTargets>,
        pending: Ghost<Set<int>>,
    ) -> (r: Vec<Operand>)
        requires
            inv(*old(self), pending@),
        ensures
            inv(*final(self), pending@),
            frame(*old(self), *final(self)),
            r.len() == args.len(),
            exists|t: Trace<'s, 't>| #[trigger] args_lowered(*old(self), args@, loops, *final(self), r@, t),
        decreases args, 0int,
    {
        let ghost start = *self;
        let ghost mut tr = Trace { states: Seq::empty(), vals: Seq::empty(), subs: Seq::empty() };
        let mut values: Vec<Operand> = Vec::new();
        let mut i: usize = 0;
        proof {
            assert(args@.subrange(0, 0) =~= Seq::<ir::TypedExpression>::empty());
        }
        while i < args.len()
            invariant
                i <= args.len(),
                values.len() == i,
                inv(*self, pending@),
                frame(*old(self), *self),
                start == *old(self),
                args_lowered(start, args@.subrange(0, i as int), loops, *self, values@, tr),
            decreases args.len() - i,
        {
            proof {
                assert(decreases_to!(*args => args[i as int]));
            }
            let ghost before = *self;
            let ghost before_values = values@;
            let v = self.codegen_expression(&args[i], loops, pending);
            values.push(v);
            proof {
                let te = choose|t: Trace<'s, 't>| expr_lowered(before, args@[i as int], loops, *self, v, t);
                let sub = args@.subrange(0, i + 1);
                assert(sub.drop_last() =~= args@.subrange(0, i as int));
                assert(sub.last() == args@[i as int]);
                assert(values@.drop_last() =~= before_values);
                assert(values@.last() == v);
                let nt = Trace { states: seq![before], vals: Seq::empty(), subs: seq![tr, te] };
                assert(args_lowered(start, sub, loops, *self, values@, nt));
                tr = nt;
            }
            i = i + 1;
        }
        proof {
            assert(args@.subrange(0, i as int) =~= args@);
            assert(args_lowered(start, args@, loops, *self, values@, tr));
        }
        values
    }

    /// The statements of an expression block, then its final expression.
    fn codegen_expr_block(
        &mut self,
        block: &ir::BlockExpression,
        loops: Option<LoopTargets>,
        pending: Ghost<Set<int>>,
    ) -> (r: Operand)
        requires
            inv(*old(self), pending@),
        ensures
            inv(*final(self), pending@),
            frame(*old(self), *final(self)),
            exists|t: Trace<'s, 't>| #[trigger] block_expr_lowered(*old(self), *block, loops, *final(self), r, t),
        decreases block, 0int,
    {
        self.codegen_block_statement(&block.stmts, loops, pending);
        let ghost m = *self;
        let r = self.codegen_expression(&block.final_expr, loops, pending);
        proof {
            let ts = choose|t: Trace<'s, 't>| stmts_lowered(*old(self), block.stmts@, loops, m, t);
            let te = choose|t: Trace<'s, 't>| expr_lowered(m, block.final_expr, loops, *self, r, t);
            let t = Trace { states: seq![m], vals: Seq::empty(), subs: seq![ts, te] };
            assert(block_expr_lowered(*old(self), *block, loops, *self, r, t));
        }
        r
    }

    /// `c ? a : b`: each branch in its own block, joined by a phi in the end block.
    fn codegen_ternary(
        &mut self,
        expr: &ir::TypedExpression,
        loops: Option<LoopTargets>,
        pending: Ghost<Set<int>>,
    ) -> (r: Operand)
        requires
            inv(*old(self), pending@),
            expr.expr is Ternary,
        ensures
            inv(*final(self), pending@),
            frame(*old(self), *final(self)),
            exists|t: Trace<'s, 't>| #[trigger] expr_lowered(*old(self), *expr, loops, *final(self), r, t),
        decreases expr, 0int,
    {
        let ghost start = *self;
        let ty = self.codegen_type(expr.ty);
        if let ir::Expression::Ternary { condition, true_expr, false_expr } = &expr.expr {
            let cond = self.codegen_expression(condition, loops, pending);
            let ghost m1 = *self;
            let ghost tc = choose|t: Trace<'s, 't>| expr_lowered(start, **condition, loops, m1, cond, t);
            if self.num_blocks > usize::MAX - 3 {
                proof {
                    let tt = Trace { states: Seq::empty(), vals: Seq::empty(), subs: Seq::empty() };
                    assert(ternary_lowered(m1, cond, *expr, ty, loops, *self, Operand::Undef(ty), tt));
                    let t = Trace { states: seq![m1], vals: seq![cond], subs: seq![tc, tt] };
                    assert(expr_lowered(start, *expr, loops, *self, Operand::Undef(ty), t));
                }
                return Operand::Undef(ty);
            }
            let true_bb = self.new_block(pending);
            let ghost true_pending = pending@.insert(true_bb as int);
            let false_bb = self.new_block(Ghost(true_pending));
            let ghost branches_pending = true_pending.insert(false_bb as int);
            let final_bb = self.new_block(Ghost(branches_pending));
            let ghost all_pending = branches_pending.insert(final_bb as int);
            self.jump_to(Instruction::CondBr(cond, true_bb, false_bb), true_bb, Ghost(all_pending));
            let ghost m2 = *self;
            let ghost false_final_pending = all_pending.remove(true_bb as int);
            let true_value = self.codegen_expression(true_expr, loops, Ghost(false_final_pending));
            let ghost m3 = *self;
            let true_from = self.current;
            self.jump_to(Instruction::Br(final_bb), false_bb, Ghost(false_final_pending));
            let ghost m4 = *self;
            let ghost final_pending = false_final_pending.remove(false_bb as int);
            let false_value = self.codegen_expression(false_expr, loops, Ghost(final_pending));
            let ghost m5 = *self;
            let false_from = self.current;
            self.jump_to(Instruction::Br(final_bb), final_bb, Ghost(final_pending));
            let ghost m6 = *self;
            assert(final_pending.remove(final_bb as int) =~= pending@);
            let incoming = vec![(true_value, true_from), (false_value, false_from)];
            let ghost inc = incoming@;
            let r = self.emit_one(Instruction::Phi(ty, incoming));
            proof {
                let t1 = choose|t: Trace<'s, 't>| expr_lowered(m2, **true_expr, loops, m3, true_value, t);
                let t2 = choose|t: Trace<'s, 't>| expr_lowered(m4, **false_expr, loops, m5, false_value, t);
                assert(inc =~= seq![(true_value, true_from), (false_value, false_from)]);
                assert(stepped(m1, m2, Instruction::CondBr(cond, true_bb, false_bb), true_bb, 3));
                assert(stepped(m3, m4, Instruction::Br(final_bb), false_bb, 0));
                assert(stepped(m5, m6, Instruction::Br(final_bb), final_bb, 0));
                assert(self.insts@.last() == (m6.current, Instruction::Phi(ty, incoming)));
                assert(self.insts@ =~= m6.insts@.push((m6.current, self.insts@.last().1)));
                assert(phi_appended(m6, *self, ty, true_value, m3.current, false_value, m5.current));
                let tt = Trace {
                    states: seq![m2, m3, m4, m5, m6],
                    vals: seq![true_value, false_value],
                    subs: seq![t1, t2],
                };
                assert(ternary_lowered(m1, cond, *expr, ty, loops, *self, r, tt));
                let t = Trace { states: seq![m1], vals: seq![cond], subs: seq![tc, tt] };
                assert(expr_lowered(start, *expr, loops, *self, r, t));
            }
            r
        } else {
            Operand::Undef(ty)
        }
    }

    fn codegen_expression(
        &mut self,
        expr: &ir::TypedExpression,
        loops: Option<LoopTargets>,
        pending: Ghost<Set<int>>,
    ) -> (r: Operand)
        requires
            inv(*old(self), pending@),
        ensures
            inv(*final(self), pending@),
            frame(*old(self), *final(self)),
            exists|t: Trace<'s, 't>| #[trigger] expr_lowered(*old(self), *expr, loops, *final(self), r, t),
        decreases expr, 1int,
    {
        let ghost start = *self;
        match &expr.expr {
            ir::Expression::Block(block) => {
                let r = self.codegen_expr_block(block, loops, pending);
                proof {
                    let t = choose|t: Trace<'s, 't>| block_expr_lowered(start, **block, loops, *self, r, t);
                    assert(expr_lowered(start, *expr, loops, *self, r, t));
                }
                r
            },
            ir::Expression::LValueToRValue(sub) => {
                let v = self.codegen_expression(sub, loops, pending);
                let ghost m = *self;
                let r = self.codegen_l2r_expr(v);
                proof {
                    let ts = choose|t: Trace<'s, 't>| expr_lowered(start, **sub, loops, m, v, t);
                    let t = Trace { states: seq![m], vals: seq![v], subs: seq![ts] };
                    assert(expr_lowered(start, *expr, loops, *self, r, t));
                }
                r
            },
            ir::Expression::RValueToLValue(sub) => {
                let v = self.codegen_expression(sub, loops, pending);
                let ghost m = *self;
                let r = self.codegen_r2l_expr(v, sub.ty);
                proof {
                    let ts = choose|t: Trace<'s, 't>| expr_lowered(start, **sub, loops, m, v, t);
                    let t = Trace { states: seq![m], vals: seq![v], subs: seq![ts] };
                    assert(expr_lowered(start, *expr, loops, *self, r, t));
                }
                r
            },
            ir::Expression::Value(value) => {
                let r = self.codegen_value(value, expr.ty);
                proof {
                    let t = Trace { states: Seq::empty(), vals: Seq::empty(), subs: Seq::empty() };
                    assert(expr_lowered(start, *expr, loops, *self, r, t));
                }
                r
            },
            ir::Expression::Assign { lhs, rhs } => {
                let l = self.codegen_expression(lhs, loops, pending);
                let ghost m1 = *self;
                let rv = self.codegen_expression(rhs, loops, pending);
                let ghost m2 = *self;
                let res = self.codegen_assign(l, rv);
                proof {
                    let t1 = choose|t: Trace<'s, 't>| expr_lowered(start, **lhs, loops, m1, l, t);
                    let t2 = choose|t: Trace<'s, 't>| expr_lowered(m1, **rhs, loops, m2, rv, t);
                    let t = Trace { states: seq![m1, m2], vals: seq![l, rv], subs: seq![t1, t2] };
                    assert(expr_lowered(start, *expr, loops, *self, res, t));
                }
                res
            },
            ir::Expression::BinaryOperator { binop, lhs, rhs } => {
                let l = self.codegen_expression(lhs, loops, pending);
                let ghost m1 = *self;
                let rv = self.codegen_expression(rhs, loops, pending);
                let ghost m2 = *self;
                let rhs_is_pointer = self.is_pointer_type(rhs.ty);
                let res = self.codegen_binop(*binop, l, rv, lhs.ty, rhs_is_pointer);
                proof {
                    let t1 = choose|t: Trace<'s, 't>| expr_lowered(start, **lhs, loops, m1, l, t);
                    let t2 = choose|t: Trace<'s, 't>| expr_lowered(m1, **rhs, loops, m2, rv, t);
                    let t = Trace { states: seq![m1, m2], vals: seq![l, rv], subs: seq![t1, t2] };
                    assert(expr_lowered(start, *expr, loops, *self, res, t));
                }
                res
            },
            ir::Expression::UnaryOperator { unop, sub } => {
                let v = self.codegen_expression(sub, loops, pending);
                let ghost m = *self;
                let r = self.codegen_unop(*unop, v);
                proof {
                    let ts = choose|t: Trace<'s, 't>| expr_lowered(start, **sub, loops, m, v, t);
                    let t = Trace { states: seq![m], vals: seq![v], subs: seq![ts] };
                    assert(expr_lowered(start, *expr, loops, *self, r, t));
                }
                r
            },
            ir::Expression::LValueUnaryOperator { lvalue_unop, sub } => {
                let v = self.codegen_expression(sub, loops, pending);
                let ghost m = *self;
                let r = self.codegen_lvalue_unop(*lvalue_unop, v);
                proof {
                    let ts = choose|t: Trace<'s, 't>| expr_lowered(start, **sub, loops, m, v, t);
                    let t = Trace { states: seq![m], vals: seq![v], subs: seq![ts] };
                    assert(expr_lowered(start, *expr, loops, *self, r, t));
                }
                r
            },
            ir::Expression::Cast { kind, sub } => {
                let v = self.codegen_expression(sub, loops, pending);
                let ghost m = *self;
                let r = self.codegen_cast(*kind, v);
                proof {
                    let ts = choose|t: Trace<'s, 't>| expr_lowered(start, **sub, loops, m, v, t);
                    let t = Trace { states: seq![m], vals: seq![v], subs: seq![ts] };
                    assert(expr_lowered(start, *expr, loops, *self, r, t));
                }
                r
            },
            ir::Expression::BitCast { dest_ty, sub } => {
                let v = self.codegen_expression(sub, loops, pending);
                let ghost m = *self;
                let r = self.codegen_bitcast(*dest_ty, v);
                proof {
                    let ts = choose|t: Trace<'s, 't>| expr_lowered(start, **sub, loops, m, v, t);
                    let t = Trace { states: seq![m], vals: seq![v], subs: seq![ts] };
                    assert(expr_lowered(start, *expr, loops, *self, r, t));
                }
                r
            },
            ir::Expression::FunctionCall { function, args } => {
                let f = self.codegen_expression(function, loops, pending);
                let ghost m1 = *self;
                let values = self.codegen_args(args, loops, pending);
                let ghost m2 = *self;
                let ghost vs = values@;
                let r = self.codegen_funccall(f, values);
                proof {
                    let tf = choose|t: Trace<'s, 't>| expr_lowered(start, **function, loops, m1, f, t);
                    let ta = choose|t: Trace<'s, 't>| args_lowered(m1, args@, loops, m2, vs, t);
                    let ta2 = Trace { states: ta.states, vals: vs, subs: ta.subs };
                    assert(args_lowered(m1, args@, loops, m2, vs, ta2));
                    assert(self.insts@.last() == (m2.current, Instruction::Call(f, values)));
                    assert(self.insts@ =~= m2.insts@.push((m2.current, self.insts@.last().1)));
                    let t = Trace { states: seq![m1, m2], vals: seq![f], subs: seq![tf, ta2] };
                    assert(expr_lowered(start, *expr, loops, *self, r, t));
                }
                r
            },
            ir::Expression::FieldAccess { sub, index } => {
                let v = self.codegen_expression(sub, loops, pending);
                let ghost m = *self;
                let r = self.codegen_field_access(v, *index);
                proof {
                    let ts = choose|t: Trace<'s, 't>| expr_lowered(start, **sub, loops, m, v, t);
                    let t = Trace { states: seq![m], vals: seq![v], subs: seq![ts] };
                    assert(expr_lowered(start, *expr, loops, *self, r, t));
                }
                r
            },
            ir::Expression::Ternary { .. } => self.codegen_ternary(expr, loops, pending),
        }
    }
}

proof fn lemma_params_code_len(a: Backend, ps: Seq<(TypeId, ir::IdentifierId)>)
    ensures
        params_code(a, ps).len() == 2 * ps.len(),
    decreases ps.len(),
{
    if ps.len() > 0 {
        lemma_params_code_len(a, ps.drop_last());
    }
}

proof fn lemma_vars_code_len(a: Backend, vs: Seq<ir::VarDecl>)
    ensures
        vars_code(a, vs).len() == vs.len(),
    decreases vs.len(),
{
    if vs.len() > 0 {
        lemma_vars_code_len(a, vs.drop_last());
    }
}

/// `a` holds the declarations that `b` holds: the same backend types, type map,
/// strings and type table, and functions with the same names and types in the same
/// places.
pub open spec fn same_declarations(a: Backend, b: Backend) -> bool {
    &&& a.types == b.types
    &&& a.ty_map == b.ty_map
    &&& a.strings == b.strings
    &&& a.tyctxt == b.tyctxt
    &&& a.functions.len() == b.functions.len()
    &&& forall|k: int|
        0 <= k < a.functions.len() ==> (#[trigger] a.functions@[k]).name@ == b.functions@[k].name@
            && a.functions@[k].ty == b.functions@[k].ty
}

/// `a` is a lowering state for module `m`, built from `strings` and `table`: it
/// holds `m`'s types, and every function of `m` declared under the same name and type.
pub open spec fn declares_module<'s, 't>(
    a: Backend<'s, 't>,
    m: BackendModule,
    strings: &'s Interner,
    table: &'t TypeTable,
) -> bool {
    &&& a.types == m.types
    &&& a.ty_map == m.type_map
    &&& a.strings == strings
    &&& a.tyctxt == table
    &&& a.functions.len() == m.functions.len()
    &&& forall|k: int|
        0 <= k < a.functions.len() ==> (#[trigger] a.functions@[k]).name@ == m.functions@[k].name@
            && a.functions@[k].ty == m.functions@[k].ty
}

/// The backend type index that `map` gives `id`; the first one for a handle outside it.
pub open spec fn backend_index(map: Seq<usize>, id: TypeId) -> usize {
    if id.index < map.len() {
        map[id.index as int]
    } else {
        0
    }
}

/// The backend function type of a declaration: return and parameter types, and
/// whether it takes extra arguments, which only an extern function declared with
/// `...` does.
pub open spec fn signature_of(map: Seq<usize>, d: ir::Declaration) -> BackendTypeView {
    match d {
        ir::Declaration::ExternFunction(f) => BackendTypeView::Function(
            backend_index(map, f.ty.return_ty),
            f.ty.parameters_ty@.map_values(|t: TypeId| backend_index(map, t)),
            f.ty.is_vararg,
        ),
        ir::Declaration::Function(f) => BackendTypeView::Function(
            backend_index(map, f.return_ty),
            f.parameters@.map_values(|p: (TypeId, ir::IdentifierId)| backend_index(map, p.0)),
            false,
        ),
    }
}

/// The entry code for the parameters `ps`: for each, a stack slot in the entry block
/// and a store of the argument into it.
pub open spec fn params_code(a: Backend, ps: Seq<(TypeId, ir::IdentifierId)>) -> Seq<(usize, Instruction)>
    decreases ps.len(),
{
    if ps.len() == 0 {
        Seq::empty()
    } else {
        let n = ps.len() - 1;
        params_code(a, ps.drop_last()).push((0usize, Instruction::Alloca(type_index(a, ps.last().0)))).push(
            (0usize, Instruction::Store(Operand::Param(n as usize), Operand::Inst((2 * n) as usize))),
        )
    }
}

/// The entry code for the locals `vs`: a stack slot each in the entry block.
pub open spec fn vars_code(a: Backend, vs: Seq<ir::VarDecl>) -> Seq<(usize, Instruction)>
    decreases vs.len(),
{
    if vs.len() == 0 {
        Seq::empty()
    } else {
        vars_code(a, vs.drop_last()).push((0usize, Instruction::Alloca(type_index(a, vs.last().ty))))
    }
}

/// The slots of the parameters, then of the locals, in the order they were made.
pub open spec fn entry_slots(ps: Seq<(TypeId, ir::IdentifierId)>, vs: Seq<ir::VarDecl>) -> Seq<(ir::IdentifierId, Operand)> {
    Seq::new(ps.len(), |i: int| (ps[i].1, Operand::Inst((2 * i) as usize))) + Seq::new(
        vs.len(),
        |j: int| (vs[j].id, Operand::Inst((2 * ps.len() + j) as usize)),
    )
}

/// The body of a lowered function: the entry code, then the lowered statements
/// starting in the entry block with the entry slots as the locals, then
/// `Unreachable` at the end of the block the statements end in.
pub open spec fn function_lowered(a: Backend, f: ir::Function, insts: Seq<(usize, Instruction)>, num_blocks: int) -> bool {
    exists|s0: Backend, s1: Backend, t: Trace|
        #[trigger] stmts_lowered(s0, f.body@, None, s1, t) && s0.insts@ == params_code(
            a,
            f.parameters@,
        ) + vars_code(a, f.var_declarations@) && s0.current == 0 && s0.num_blocks == 1
            && s0.ids@ == entry_slots(f.parameters@, f.var_declarations@) && s0.ty_map == a.ty_map
            && s0.types == a.types && s0.functions == a.functions && s0.strings == a.strings
            && s0.tyctxt == a.tyctxt && insts == s1.insts@.push((s1.current, Instruction::Unreachable))
            && num_blocks == s1.num_blocks
}

impl<'s, 't> Backend<'s, 't> {
    fn new(strings: &'s Interner, tyctxt: &'t TypeTable) -> (r: Backend<'s, 't>)
        requires
            tyctxt.wf(),
        ensures
            lowers_table(*tyctxt, r.types@, r.ty_map@),
            r.functions.len() == 0,
            r.strings == strings,
            r.tyctxt == tyctxt,
            r.reals@.len() == 1,
            r.reals@[0]@ == "0.0"@,
    {
        let (types, ty_map) = lower_types(tyctxt);
        let mut reals: Vec<String> = Vec::new();
        reals.push(String::from_str("0.0"));
        Backend {
            strings,
            tyctxt,
            types,
            ty_map,
            functions: Vec::new(),
            reals,
            insts: Vec::new(),
            num_blocks: 1,
            current: 0,
            ids: Vec::new(),
        }
    }

    /// The backend function type of a signature, added to the module's types.
    fn codegen_function_type(&mut self, func_ty: &FunctionType) -> (r: usize)
        ensures
            r == old(self).types.len(),
            final(self).types@ == old(self).types@.push(
                BackendType::Function(
                    type_index(*old(self), func_ty.return_ty),
                    final(self).types@[r as int]->Function_1,
                    func_ty.is_vararg,
                ),
            ),
            final(self).types@[r as int]->Function_1@ == func_ty.parameters_ty@.map_values(
                |t: TypeId| type_index(*old(self), t),
            ),
            final(self).functions == old(self).functions,
            final(self).ty_map == old(self).ty_map,
            final(self).strings == old(self).strings,
            final(self).tyctxt == old(self).tyctxt,
            final(self).reals == old(self).reals,
    {
        let ret_ty = self.codegen_type(func_ty.return_ty);
        let mut params: Vec<usize> = Vec::new();
        let mut i: usize = 0;
        while i < func_ty.parameters_ty.len()
            invariant
                i <= func_ty.parameters_ty.len(),
                *self == *old(self),
                params@ =~= func_ty.parameters_ty@.subrange(0, i as int).map_values(
                    |t: TypeId| type_index(*old(self), t),
                ),
            decreases func_ty.parameters_ty.len() - i,
        {
            let t = self.codegen_type(func_ty.parameters_ty[i]);
            params.push(t);
            i = i + 1;
        }
        assert(func_ty.parameters_ty@.subrange(0, i as int) =~= func_ty.parameters_ty@);
        let r = self.types.len();
        self.types.push(BackendType::Function(ret_ty, params, func_ty.is_vararg));
        r
    }

    fn pre_codegen_extern_function(&mut self, exfunc: &ir::ExternFunction)
        ensures
            final(self).types@.len() == old(self).types@.len() + 1,
            final(self).types@.drop_last() == old(self).types@,
            final(self).functions.len() == old(self).functions.len() + 1,
            forall|j: int|
                0 <= j < old(self).functions.len() ==> final(self).functions@[j] == old(
                    self,
                ).functions@[j],
            final(self).functions@.last().name@ == exfunc.name@,
            !final(self).functions@.last().defined,
            final(self).reals == old(self).reals,
            final(self).functions@.last().ty == old(self).types.len(),
            final(self).types@.last()@ == signature_of(
                old(self).ty_map@,
                ir::Declaration::ExternFunction(*exfunc),
            ),
            final(self).ty_map == old(self).ty_map,
            final(self).strings == old(self).strings,
            final(self).tyctxt == old(self).tyctxt,
    {
        let ty = self.codegen_function_type(&exfunc.ty);
        assert(self.types@.drop_last() =~= old(self).types@);
        assert(self.types@.last()@ == signature_of(
            old(self).ty_map@,
            ir::Declaration::ExternFunction(*exfunc),
        )) by {
            assert(self.types@[ty as int]->Function_1@ =~= exfunc.ty.parameters_ty@.map_values(
                |t: TypeId| backend_index(old(self).ty_map@, t),
            ));
        }
        self.functions.push(
            BackendFunction {
                name: exfunc.name.clone(),
                ty,
                defined: false,
                num_blocks: 0,
                instructions: Vec::new(),
            },
        );
    }

    fn pre_codegen_function(&mut self, function: &ir::Function)
        ensures
            final(self).types@.len() == old(self).types@.len() + 1,
            final(self).types@.drop_last() == old(self).types@,
            final(self).functions.len() == old(self).functions.len() + 1,
            forall|j: int|
                0 <= j < old(self).functions.len() ==> final(self).functions@[j] == old(
                    self,
                ).functions@[j],
            final(self).functions@.last().name@ == function.name@,
            final(self).functions@.last().defined,
            final(self).reals == old(self).reals,
            final(self).functions@.last().ty == old(self).types.len(),
            final(self).types@.last()@ == signature_of(
                old(self).ty_map@,
                ir::Declaration::Function(*function),
            ),
            final(self).ty_map == old(self).ty_map,
            final(self).strings == old(self).strings,
            final(self).tyctxt == old(self).tyctxt,
    {
        let mut parameters_ty: Vec<TypeId> = Vec::new();
        let mut i: usize = 0;
        while i < function.parameters.len()
            invariant
                i <= function.parameters.len(),
                parameters_ty@ =~= function.parameters@.subrange(0, i as int).map_values(
                    |p: (TypeId, ir::IdentifierId)| p.0,
                ),
            decreases function.parameters.len() - i,
        {
            parameters_ty.push(function.parameters[i].0);
            i = i + 1;
        }
        assert(function.parameters@.subrange(0, i as int) =~= function.parameters@);
        let func_ty = FunctionType { return_ty: function.return_ty, parameters_ty, is_vararg: false };
        let ty = self.codegen_function_type(&func_ty);
        assert(self.types@.drop_last() =~= old(self).types@);
        assert(self.types@.last()@ == signature_of(
            old(self).ty_map@,
            ir::Declaration::Function(*function),
        )) by {
            assert(self.types@[ty as int]->Function_1@ =~= function.parameters@.map_values(
                |p: (TypeId, ir::IdentifierId)| backend_index(old(self).ty_map@, p.0),
            ));
        }
        self.functions.push(
            BackendFunction {
                name: function.name.clone(),
                ty,
                defined: true,
                num_blocks: 0,
                instructions: Vec::new(),
            },
        );
    }

    /// A parameter is copied into a stack slot of its own.
    fn codegen_parameter(&mut self, ty: TypeId, id: ir::IdentifierId, index: usize)
        requires
            open_body(*old(self)),
        ensures
            open_body(*final(self)),
            preserves(*old(self), *final(self)),
            final(self).current == old(self).current,
            final(self).num_blocks == old(self).num_blocks,
            final(self).insts@ == old(self).insts@ + in_block(
                seq![
                    Instruction::Alloca(type_index(*old(self), ty)),
                    Instruction::Store(
                        Operand::Param(index),
                        Operand::Inst(old(self).insts@.len() as usize),
                    ),
                ],
                old(self).current,
            ),
            final(self).ids@ == old(self).ids@.push((id, Operand::Inst(old(self).insts@.len() as usize))),
    {
        let ptr = self.codegen_r2l_expr(Operand::Param(index), ty);
        self.ids.push((id, ptr));
    }

    /// A local variable gets a stack slot of its own.
    fn codegen_vardecl(&mut self, ty: TypeId, id: ir::IdentifierId)
        requires
            open_body(*old(self)),
        ensures
            open_body(*final(self)),
            preserves(*old(self), *final(self)),
            final(self).current == old(self).current,
            final(self).num_blocks == old(self).num_blocks,
            final(self).insts@ == old(self).insts@ + in_block(
                seq![Instruction::Alloca(type_index(*old(self), ty))],
                old(self).current,
            ),
            final(self).ids@ == old(self).ids@.push((id, Operand::Inst(old(self).insts@.len() as usize))),
    {
        let llvm_ty = self.codegen_type(ty);
        let ptr = self.emit_one(Instruction::Alloca(llvm_ty));
        self.ids.push((id, ptr));
    }

    /// The body, then `unreachable` where control would run off its end.
    fn codegen_block_statement_terminated(&mut self, block: &Vec<ir::Statement>)
        requires
            inv(*old(self), Set::empty()),
        ensures
            blocks_well_formed(final(self).insts@, final(self).num_blocks as int),
            frame(*old(self), *final(self)),
            exists|s1: Backend<'s, 't>, t: Trace<'s, 't>|
                #[trigger] stmts_lowered(*old(self), block@, None, s1, t) && final(self).insts@
                    == s1.insts@.push((s1.current, Instruction::Unreachable)) && final(self).num_blocks
                    == s1.num_blocks,
    {
        self.codegen_block_statement(block, None, Ghost(Set::empty()));
        let ghost before = *self;
        self.build_terminator(Instruction::Unreachable);
        proof {
            let t = choose|t: Trace<'s, 't>| stmts_lowered(*old(self), block@, None, before, t);
            assert(stmts_lowered(*old(self), block@, None, before, t));
            assert forall|x: int| 0 <= x < self.num_blocks implies block_terminated(self.insts@, x) by {
                if x != before.current {
                    assert(block_terminated(before.insts@, x));
                    let k = choose|k: int|
                        0 <= k < before.insts@.len() && before.insts@[k].0 == x && is_terminator(
                            #[trigger] before.insts@[k].1,
                        );
                    assert(self.insts@[k] == before.insts@[k]);
                }
            }
        }
    }

    fn codegen_function(&mut self, function: &ir::Function, index: usize)
        requires
            index < old(self).functions.len(),
        ensures
            final(self).functions.len() == old(self).functions.len(),
            forall|j: int|
                0 <= j < old(self).functions.len() && j != index ==> final(self).functions@[j]
                    == old(self).functions@[j],
            final(self).functions@[index as int].name == old(self).functions@[index as int].name,
            final(self).functions@[index as int].defined == old(self).functions@[index as int].defined,
            final(self).functions@[index as int].ty == old(self).functions@[index as int].ty,
            old(self).reals@.len() > 0 ==> final(self).reals@.len() > 0 && final(self).reals@[0]
                == old(self).reals@[0],
            blocks_well_formed(
                final(self).functions@[index as int].instructions@,
                final(self).functions@[index as int].num_blocks as int,
            ),
            function_lowered(
                *old(self),
                *function,
                final(self).functions@[index as int].instructions@,
                final(self).functions@[index as int].num_blocks as int,
            ),
            final(self).strings == old(self).strings,
            final(self).tyctxt == old(self).tyctxt,
            final(self).types == old(self).types,
            final(self).ty_map == old(self).ty_map,
    {
        self.insts = Vec::new();
        self.num_blocks = 1;
        self.current = 0;
        self.ids = Vec::new();
        proof {
            assert(inv(*self, Set::empty()));
            assert(self.insts@ =~= params_code(*old(self), function.parameters@.subrange(0, 0)));
            assert(self.ids@ =~= entry_slots(function.parameters@.subrange(0, 0), Seq::empty()));
        }
        let mut i: usize = 0;
        while i < function.parameters.len()
            invariant
                i <= function.parameters.len(),
                self.insts@ == params_code(*old(self), function.parameters@.subrange(0, i as int)),
                self.ids@ == entry_slots(function.parameters@.subrange(0, i as int), Seq::empty()),
                self.current == 0,
                self.num_blocks == 1,
                inv(*self, Set::empty()),
                self.functions == old(self).functions,
                self.strings == old(self).strings,
                self.tyctxt == old(self).tyctxt,
                self.types == old(self).types,
                self.ty_map == old(self).ty_map,
                old(self).reals@.len() > 0 ==> self.reals@.len() > 0 && self.reals@[0]
                    == old(self).reals@[0],
            decreases function.parameters.len() - i,
        {
            let (ty, id) = function.parameters[i];
            let ghost before = *self;
            self.codegen_parameter(ty, id, i);
            proof {
                let ps = function.parameters@.subrange(0, i + 1);
                assert(ps.drop_last() =~= function.parameters@.subrange(0, i as int));
                assert(ps.last() == (ty, id));
                assert(before.insts@.len() == 2 * i) by {
                    lemma_params_code_len(*old(self), function.parameters@.subrange(0, i as int));
                }
                assert(self.insts@ =~= params_code(*old(self), ps));
                assert(self.ids@ =~= entry_slots(ps, Seq::empty()));
            }
            i = i + 1;
        }
        proof {
            assert(function.parameters@.subrange(0, i as int) =~= function.parameters@);
            assert(self.insts@ =~= params_code(*old(self), function.parameters@) + vars_code(
                *old(self),
                function.var_declarations@.subrange(0, 0),
            ));
            assert(self.ids@ =~= entry_slots(function.parameters@, function.var_declarations@.subrange(0, 0)));
        }
        let mut j: usize = 0;
        while j < function.var_declarations.len()
            invariant
                j <= function.var_declarations.len(),
                self.insts@ == params_code(*old(self), function.parameters@) + vars_code(
                    *old(self),
                    function.var_declarations@.subrange(0, j as int),
                ),
                self.ids@ == entry_slots(
                    function.parameters@,
                    function.var_declarations@.subrange(0, j as int),
                ),
                self.current == 0,
                self.num_blocks == 1,
                inv(*self, Set::empty()),
                self.functions == old(self).functions,
                self.strings == old(self).strings,
                self.tyctxt == old(self).tyctxt,
                self.types == old(self).types,
                self.ty_map == old(self).ty_map,
                old(self).reals@.len() > 0 ==> self.reals@.len() > 0 && self.reals@[0]
                    == old(self).reals@[0],
            decreases function.var_declarations.len() - j,
        {
            let decl = function.var_declarations[j];
            let ghost before = *self;
            self.codegen_vardecl(decl.ty, decl.id);
            proof {
                let vs = function.var_declarations@.subrange(0, j + 1);
                assert(vs.drop_last() =~= function.var_declarations@.subrange(0, j as int));
                assert(vs.last() == decl);
                lemma_params_code_len(*old(self), function.parameters@);
                lemma_vars_code_len(*old(self), function.var_declarations@.subrange(0, j as int));
                assert(self.insts@ =~= params_code(*old(self), function.parameters@) + vars_code(*old(self), vs));
                assert(self.ids@ =~= entry_slots(function.parameters@, vs));
            }
            j = j + 1;
        }
        proof {
            assert(function.var_declarations@.subrange(0, j as int) =~= function.var_declarations@);
        }
        let ghost s0 = *self;
        self.codegen_block_statement_terminated(&function.body);
        let ghost s_end = *self;
        let mut insts: Vec<(usize, Instruction)> = Vec::new();
        core::mem::swap(&mut insts, &mut self.insts);
        let old_entry = self.functions.remove(index);
        let entry = BackendFunction {
            name: old_entry.name,
            ty: old_entry.ty,
            defined: old_entry.defined,
            num_blocks: self.num_blocks,
            instructions: insts,
        };
        self.functions.insert(index, entry);
        proof {
            assert forall|k: int|
                0 <= k < old(self).functions.len() && k != index implies self.functions@[k]
                == old(self).functions@[k] by {
                if k < index {
                } else {
                }
            }
            let (s1, t) = choose|s1: Backend<'s, 't>, t: Trace<'s, 't>|
                #[trigger] stmts_lowered(s0, function.body@, None, s1, t) && s_end.insts@
                    == s1.insts@.push((s1.current, Instruction::Unreachable)) && s_end.num_blocks
                    == s1.num_blocks;
            assert(stmts_lowered(s0, function.body@, None, s1, t));
        }
    }

    /// The module: its types and its functions.
    fn into_exec_module(self) -> (r: BackendModule)
        ensures
            r.functions == self.functions,
            r.reals == self.reals,
            r.types == self.types,
            r.type_map == self.ty_map,
    {
        BackendModule {
            types: self.types,
            type_map: self.ty_map,
            functions: self.functions,
            reals: self.reals,
        }
    }
}

/// Lowers a program to a backend module: every function is declared first, so that
/// a call finds its callee wherever it stands, then each body is lowered. Every type
/// of the table has its backend form, and every block of every lowered body ends
/// with a terminator and holds no other.
pub fn llvm_codegen_program<'s, 't>(
    program: &ir::Program,
    strings: &'s Interner,
    types: &'t TypeTable,
) -> (r: BackendModule)
    requires
        types.wf(),
    ensures
        lowers_table(*types, r.types@, r.type_map@),
        r.functions.len() == program.declarations.len(),
        forall|i: int|
            0 <= i < r.functions.len() ==> (#[trigger] r.functions@[i]).name@ == match program.declarations@[i] {
                ir::Declaration::ExternFunction(f) => f.name@,
                ir::Declaration::Function(f) => f.name@,
            },
        forall|i: int|
            0 <= i < r.functions.len() ==> ((#[trigger] r.functions@[i]).defined
                <==> program.declarations@[i] is Function),
        forall|i: int|
            0 <= i < r.functions.len() && (#[trigger] r.functions@[i]).defined ==> blocks_well_formed(
                r.functions@[i].instructions@,
                r.functions@[i].num_blocks as int,
            ),
        forall|i: int|
            0 <= i < r.functions.len() ==> (#[trigger] r.functions@[i]).ty < r.types.len()
                && r.types@[r.functions@[i].ty as int]@ == signature_of(
                r.type_map@,
                program.declarations@[i],
            ),
        forall|i: int|
            0 <= i < r.functions.len() && program.declarations@[i] is Function ==> exists|
                a: Backend<'s, 't>,
            |
                #[trigger] function_lowered(
                    a,
                    program.declarations@[i]->Function_0,
                    r.functions@[i].instructions@,
                    r.functions@[i].num_blocks as int,
                ) && declares_module(a, r, strings, types),
        r.reals@.len() > 0,
        r.reals@[0]@ == "0.0"@,
{
    let mut backend = Backend::new(strings, types);
    let n = program.declarations.len();
    let mut i: usize = 0;
    while i < n
        invariant
            n == program.declarations.len(),
            i <= n,
            backend.functions.len() == i,
            backend.tyctxt == types,
            backend.strings == strings,
            backend.reals@.len() > 0,
            backend.reals@[0]@ == "0.0"@,
            lowers_table(*types, backend.types@, backend.ty_map@),
            forall|j: int|
                0 <= j < i ==> (#[trigger] backend.functions@[j]).name@ == match program.declarations@[j] {
                    ir::Declaration::ExternFunction(f) => f.name@,
                    ir::Declaration::Function(f) => f.name@,
                },
            forall|j: int|
                0 <= j < i ==> ((#[trigger] backend.functions@[j]).defined
                    <==> program.declarations@[j] is Function),
            forall|j: int|
                0 <= j < i ==> (#[trigger] backend.functions@[j]).ty < backend.types.len()
                    && backend.types@[backend.functions@[j].ty as int]@ == signature_of(
                    backend.ty_map@,
                    program.declarations@[j],
                ),
        decreases n - i,
    {
        let ghost before = backend.types@;
        match &program.declarations[i] {
            ir::Declaration::ExternFunction(exfunc) => backend.pre_codegen_extern_function(exfunc),
            ir::Declaration::Function(func) => backend.pre_codegen_function(func),
        }
        proof {
            assert(backend.types@ =~= before.push(backend.types@.last()));
            lemma_lowers_table_push(*types, before, backend.ty_map@, backend.types@.last());
            assert forall|j: int| 0 <= j < i implies (#[trigger] backend.functions@[j]).ty
                < backend.types.len() && backend.types@[backend.functions@[j].ty as int]@
                == signature_of(backend.ty_map@, program.declarations@[j]) by {
                assert(backend.types@[backend.functions@[j].ty as int] == before[backend.functions@[j].ty as int]);
            }
        }
        i = i + 1;
    }
    let mut i: usize = 0;
    while i < n
        invariant
            n == program.declarations.len(),
            i <= n,
            backend.functions.len() == n,
            backend.tyctxt == types,
            backend.strings == strings,
            backend.reals@.len() > 0,
            backend.reals@[0]@ == "0.0"@,
            forall|j: int|
                0 <= j < i && program.declarations@[j] is Function ==> exists|a: Backend<'s, 't>|
                    #[trigger] function_lowered(
                        a,
                        program.declarations@[j]->Function_0,
                        backend.functions@[j].instructions@,
                        backend.functions@[j].num_blocks as int,
                    ) && same_declarations(a, backend),
            lowers_table(*types, backend.types@, backend.ty_map@),
            forall|j: int|
                0 <= j < n ==> (#[trigger] backend.functions@[j]).name@ == match program.declarations@[j] {
                    ir::Declaration::ExternFunction(f) => f.name@,
                    ir::Declaration::Function(f) => f.name@,
                },
            forall|j: int|
                0 <= j < n ==> ((#[trigger] backend.functions@[j]).defined
                    <==> program.declarations@[j] is Function),
            forall|j: int|
                0 <= j < i && (#[trigger] backend.functions@[j]).defined ==> blocks_well_formed(
                    backend.functions@[j].instructions@,
                    backend.functions@[j].num_blocks as int,
                ),
            forall|j: int|
                0 <= j < n ==> (#[trigger] backend.functions@[j]).ty < backend.types.len()
                    && backend.types@[backend.functions@[j].ty as int]@ == signature_of(
                    backend.ty_map@,
                    program.declarations@[j],
                ),
        decreases n - i,
    {
        let ghost before = backend;
        if let ir::Declaration::Function(function) = &program.declarations[i] {
            backend.codegen_function(function, i);
        }
        proof {
            assert forall|j: int|
                0 <= j < i + 1 && program.declarations@[j] is Function implies exists|a: Backend<'s, 't>|
                    #[trigger] function_lowered(
                        a,
                        program.declarations@[j]->Function_0,
                        backend.functions@[j].instructions@,
                        backend.functions@[j].num_blocks as int,
                    ) && same_declarations(a, backend) by {
                if j < i {
                    let a = choose|a: Backend<'s, 't>|
                        #[trigger] function_lowered(
                            a,
                            program.declarations@[j]->Function_0,
                            before.functions@[j].instructions@,
                            before.functions@[j].num_blocks as int,
                        ) && same_declarations(a, before);
                    assert(backend.functions@[j] == before.functions@[j]);
                    assert(same_declarations(a, backend));
                } else {
                    assert(same_declarations(before, backend));
                    assert(function_lowered(
                        before,
                        program.declarations@[j]->Function_0,
                        backend.functions@[j].instructions@,
                        backend.functions@[j].num_blocks as int,
                    ));
                }
            }
        }
        i = i + 1;
    }
    let ghost last = backend;
    let r = backend.into_exec_module();
    proof {
        assert forall|i: int|
            0 <= i < r.functions.len() && program.declarations@[i] is Function implies exists|
                a: Backend<'s, 't>,
            |
                #[trigger] function_lowered(
                    a,
                    program.declarations@[i]->Function_0,
                    r.functions@[i].instructions@,
                    r.functions@[i].num_blocks as int,
                ) && declares_module(a, r, strings, types) by {
            let a = choose|a: Backend<'s, 't>|
                #[trigger] function_lowered(
                    a,
                    program.declarations@[i]->Function_0,
                    last.functions@[i].instructions@,
                    last.functions@[i].num_blocks as int,
                ) && same_declarations(a, last);
            assert(declares_module(a, r, strings, types));
        }
    }
    r
}

} // verus!
