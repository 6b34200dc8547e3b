use vstd::prelude::*;

verus! {

/// A handle to a type interned in a `TypeTable`: two handles of one table are equal
/// exactly when the types they stand for are equal.
#[derive(Debug, Clone, Copy, PartialEq, Eq, Hash, Structural)]
pub struct TypeId {
    pub index: usize,
}

/// A type of the language, with its component types given as handles.
///
/// `LValue(t, mutable)` tags an expression that designates storage of type `t`; it is
/// used only inside the translator. `Incomplete` stands for a struct whose fields are
/// not laid out yet.
#[derive(Debug)]
pub enum Type {
    Void,
    Int,
    Double,
    Boolean,
    String,
    LValue(TypeId, bool),
    Pointer(TypeId),
    Array(TypeId, usize),
    Tuple(Vec<TypeId>),
    Struct(StructType),
    FunctionPtr(FunctionType),
    Incomplete,
}

/// The layout of a declared struct: its name and its fields in declaration order.
#[derive(Debug)]
pub struct StructType {
    pub name: String,
    pub fields: Vec<(String, TypeId)>,
}

/// The signature of a function: return type, parameter types, and whether extra
/// arguments may follow the declared ones.
#[derive(Debug)]
pub struct FunctionType {
    pub return_ty: TypeId,
    pub parameters_ty: Vec<TypeId>,
    pub is_vararg: bool,
}

/// What a type is, with its sequences seen as mathematical sequences.
pub enum TypeShape {
    Void,
    Int,
    Double,
    Boolean,
    String,
    LValue(TypeId, bool),
    Pointer(TypeId),
    Array(TypeId, usize),
    Tuple(Seq<TypeId>),
    Struct(Seq<char>, Seq<(Seq<char>, TypeId)>),
    FunctionPtr(TypeId, Seq<TypeId>, bool),
    Incomplete,
}

pub open spec fn fields_view(fields: Seq<(String, TypeId)>) -> Seq<(Seq<char>, TypeId)> {
    fields.map_values(|f: (String, TypeId)| (f.0@, f.1))
}

impl FunctionType {
    pub open spec fn shape(&self) -> TypeShape {
        TypeShape::FunctionPtr(self.return_ty, self.parameters_ty@, self.is_vararg)
    }
}

impl View for Type {
    type V = TypeShape;

    open spec fn view(&self) -> TypeShape {
        match self {
            Type::Void => TypeShape::Void,
            Type::Int => TypeShape::Int,
            Type::Double => TypeShape::Double,
            Type::Boolean => TypeShape::Boolean,
            Type::String => TypeShape::String,
            Type::LValue(t, m) => TypeShape::LValue(*t, *m),
            Type::Pointer(t) => TypeShape::Pointer(*t),
            Type::Array(t, n) => TypeShape::Array(*t, *n),
            Type::Tuple(ts) => TypeShape::Tuple(ts@),
            Type::Struct(s) => TypeShape::Struct(s.name@, fields_view(s.fields@)),
            Type::FunctionPtr(f) => f.shape(),
            Type::Incomplete => TypeShape::Incomplete,
        }
    }
}

/// Equality of two sequences of type handles.
pub fn ids_equal(a: &Vec<TypeId>, b: &Vec<TypeId>) -> (r: bool)
    ensures
        r == (a@ == b@),
{
    if a.len() != b.len() {
        return false;
    }
    let mut i: usize = 0;
    while i < a.len()
        invariant
            i <= a.len(),
            a.len() == b.len(),
            forall|j: int| 0 <= j < i ==> a@[j] == b@[j],
        decreases a.len() - i,
    {
        if a[i] != b[i] {
            return false;
        }
        i = i + 1;
    }
    assert(a@ =~= b@);
    true
}

/// Equality of two strings, by their characters.
pub fn strings_equal(a: &String, b: &String) -> (r: bool)
    ensures
        r == (a@ == b@),
{
    *a == *b
}

/// Equality of two field lists, by names and types.
pub fn fields_equal(a: &Vec<(String, TypeId)>, b: &Vec<(String, TypeId)>) -> (r: bool)
    ensures
        r == (fields_view(a@) == fields_view(b@)),
{
    if a.len() != b.len() {
        assert(fields_view(a@).len() != fields_view(b@).len());
        return false;
    }
    let mut i: usize = 0;
    while i < a.len()
        invariant
            i <= a.len(),
            a.len() == b.len(),
            forall|j: int| 0 <= j < i ==> fields_view(a@)[j] == fields_view(b@)[j],
        decreases a.len() - i,
    {
        if !strings_equal(&a[i].0, &b[i].0) || a[i].1 != b[i].1 {
            assert(fields_view(a@)[i as int] != fields_view(b@)[i as int]);
            return false;
        }
        i = i + 1;
    }
    assert(fields_view(a@) =~= fields_view(b@));
    true
}

/// Equality of two types, by their shapes.
pub fn same_type(a: &Type, b: &Type) -> (r: bool)
    ensures
        r == (a@ == b@),
{
    match (a, b) {
        (Type::Void, Type::Void) => true,
        (Type::Int, Type::Int) => true,
        (Type::Double, Type::Double) => true,
        (Type::Boolean, Type::Boolean) => true,
        (Type::String, Type::String) => true,
        (Type::Incomplete, Type::Incomplete) => true,
        (Type::LValue(x, mx), Type::LValue(y, my)) => *x == *y && *mx == *my,
        (Type::Pointer(x), Type::Pointer(y)) => *x == *y,
        (Type::Array(x, nx), Type::Array(y, ny)) => *x == *y && *nx == *ny,
        (Type::Tuple(xs), Type::Tuple(ys)) => ids_equal(xs, ys),
        (Type::Struct(x), Type::Struct(y)) => strings_equal(&x.name, &y.name) && fields_equal(
            &x.fields,
            &y.fields,
        ),
        (Type::FunctionPtr(x), Type::FunctionPtr(y)) => x.return_ty == y.return_ty && x.is_vararg
            == y.is_vararg && ids_equal(&x.parameters_ty, &y.parameters_ty),
        _ => false,
    }
}


/// Every type that `t` names directly has a handle below `bound`.
pub open spec fn components_below(t: TypeShape, bound: int) -> bool {
    match t {
        TypeShape::LValue(c, _) => c.index < bound,
        TypeShape::Pointer(c) => c.index < bound,
        TypeShape::Array(c, _) => c.index < bound,
        TypeShape::Tuple(cs) => forall|i: int| 0 <= i < cs.len() ==> (#[trigger] cs[i]).index < bound,
        TypeShape::Struct(_, fs) => forall|i: int|
            0 <= i < fs.len() ==> (#[trigger] fs[i]).1.index < bound,
        TypeShape::FunctionPtr(r, ps, _) => r.index < bound && forall|i: int|
            0 <= i < ps.len() ==> (#[trigger] ps[i]).index < bound,
        _ => true,
    }
}

/// The handles that every table gives to the primitive types.
pub const VOID_INDEX: usize = 0;
pub const INT_INDEX: usize = 1;
pub const DOUBLE_INDEX: usize = 2;
pub const BOOLEAN_INDEX: usize = 3;
pub const STRING_INDEX: usize = 4;

/// The type interner: each distinct type is stored once, and a `TypeId` is its place.
///
/// Structs are nominal: `declare_struct` gives a name its handle before the fields are
/// known, so that a field may point back to the struct itself.
pub struct TypeTable {
    types: Vec<Type>,
}

impl TypeTable {
    pub closed spec fn shapes(&self) -> Seq<TypeShape> {
        self.types@.map_values(|t: Type| t@)
    }

    pub open spec fn len(&self) -> nat {
        self.shapes().len()
    }

    pub open spec fn valid_id(&self, id: TypeId) -> bool {
        id.index < self.len()
    }

    pub open spec fn shape(&self, id: TypeId) -> TypeShape {
        self.shapes()[id.index as int]
    }

    pub open spec fn wf(&self) -> bool {
        &&& self.len() >= 5
        &&& self.shapes()[VOID_INDEX as int] == TypeShape::Void
        &&& self.shapes()[INT_INDEX as int] == TypeShape::Int
        &&& self.shapes()[DOUBLE_INDEX as int] == TypeShape::Double
        &&& self.shapes()[BOOLEAN_INDEX as int] == TypeShape::Boolean
        &&& self.shapes()[STRING_INDEX as int] == TypeShape::String
        &&& forall|i: int, j: int|
            0 <= i < j < self.len() ==> self.shapes()[i] != self.shapes()[j]
        &&& forall|i: int, j: int|
            0 <= i < j < self.len() && self.shapes()[i] is Struct && self.shapes()[j] is Struct
                ==> self.shapes()[i]->Struct_0 != self.shapes()[j]->Struct_0
        &&& forall|i: int|
            0 <= i < self.len() ==> components_below(
                #[trigger] self.shapes()[i],
                if self.shapes()[i] is Struct {
                    self.len() as int
                } else {
                    i
                },
            )
    }

    /// A table that holds the primitive types only.
    pub fn new() -> (r: TypeTable)
        ensures
            r.wf(),
            r.len() == 5,
    {
        let mut types: Vec<Type> = Vec::new();
        types.push(Type::Void);
        types.push(Type::Int);
        types.push(Type::Double);
        types.push(Type::Boolean);
        types.push(Type::String);
        let r = TypeTable { types };
        assert(r.shapes() =~= seq![
            TypeShape::Void,
            TypeShape::Int,
            TypeShape::Double,
            TypeShape::Boolean,
            TypeShape::String,
        ]);
        r
    }

    pub fn get(&self, id: TypeId) -> (r: &Type)
        requires
            self.valid_id(id),
        ensures
            r@ == self.shape(id),
    {
        &self.types[id.index]
    }

    pub fn size(&self) -> (r: usize)
        ensures
            r == self.len(),
    {
        self.types.len()
    }

    pub fn get_void_ty(&self) -> (r: TypeId)
        ensures
            r.index == VOID_INDEX,
    {
        TypeId { index: VOID_INDEX }
    }

    pub fn get_int_ty(&self) -> (r: TypeId)
        ensures
            r.index == INT_INDEX,
    {
        TypeId { index: INT_INDEX }
    }

    pub fn get_double_ty(&self) -> (r: TypeId)
        ensures
            r.index == DOUBLE_INDEX,
    {
        TypeId { index: DOUBLE_INDEX }
    }

    pub fn get_boolean_ty(&self) -> (r: TypeId)
        ensures
            r.index == BOOLEAN_INDEX,
    {
        TypeId { index: BOOLEAN_INDEX }
    }

    pub fn get_string_ty(&self) -> (r: TypeId)
        ensures
            r.index == STRING_INDEX,
    {
        TypeId { index: STRING_INDEX }
    }

    /// The handle of `t`: the one it already has, or a new one at the end.
    pub fn intern(&mut self, t: Type) -> (r: TypeId)
        requires
            old(self).wf(),
            !(t is Struct),
            components_below(t@, old(self).len() as int),
        ensures
            final(self).wf(),
            final(self).valid_id(r),
            final(self).shape(r) == t@,
            old(self).shapes().contains(t@) ==> final(self).shapes() == old(self).shapes(),
            !old(self).shapes().contains(t@) ==> final(self).shapes() == old(self).shapes().push(
                t@,
            ),
    {
        let mut i: usize = 0;
        while i < self.types.len()
            invariant
                i <= self.types.len(),
                self.wf(),
                self.shapes() == old(self).shapes(),
                forall|j: int| 0 <= j < i ==> self.shapes()[j] != t@,
            decreases self.types.len() - i,
        {
            if same_type(&self.types[i], &t) {
                return TypeId { index: i };
            }
            i = i + 1;
        }
        let ghost before = self.shapes();
        assert(!before.contains(t@));
        self.types.push(t);
        assert(self.shapes() =~= before.push(t@));
        TypeId { index: i }
    }

    /// Whether some type of the table is a struct named `name`.
    pub open spec fn has_struct(&self, name: Seq<char>) -> bool {
        exists|i: int|
            0 <= i < self.len() && (#[trigger] self.shapes()[i]) is Struct
                && self.shapes()[i]->Struct_0 == name
    }

    /// A new struct named `name`, with no fields yet.
    pub fn declare_struct(&mut self, name: String) -> (r: TypeId)
        requires
            old(self).wf(),
            !old(self).has_struct(name@),
        ensures
            final(self).wf(),
            r.index == old(self).len(),
            final(self).shapes() == old(self).shapes().push(TypeShape::Struct(name@, seq![])),
    {
        let ghost before = self.shapes();
        let fields: Vec<(String, TypeId)> = Vec::new();
        let t = Type::Struct(StructType { name, fields });
        assert(fields_view(fields@) =~= seq![]);
        let r = TypeId { index: self.types.len() };
        assert forall|i: int| 0 <= i < before.len() implies before[i] != t@ by {
            if before[i] == t@ {
                assert(self.has_struct(t@->Struct_0));
            }
        }
        self.types.push(t);
        assert(self.shapes() =~= before.push(t@));
        r
    }

    /// Lays out the fields of the struct `id`.
    pub fn define_struct(&mut self, id: TypeId, fields: Vec<(String, TypeId)>)
        requires
            old(self).wf(),
            old(self).valid_id(id),
            old(self).shape(id) is Struct,
            forall|i: int| 0 <= i < fields.len() ==> (#[trigger] fields@[i]).1.index < old(self).len(),
        ensures
            final(self).wf(),
            final(self).shapes() == old(self).shapes().update(
                id.index as int,
                TypeShape::Struct(old(self).shape(id)->Struct_0, fields_view(fields@)),
            ),
    {
        let ghost before = self.shapes();
        let name = match &self.types[id.index] {
            Type::Struct(s) => s.name.clone(),
            _ => String::new(),
        };
        let t = Type::Struct(StructType { name, fields });
        assert forall|i: int| 0 <= i < fields_view(fields@).len() implies (#[trigger] fields_view(fields@)[i]).1.index < before.len() by {
            assert(fields_view(fields@)[i].1 == fields@[i].1);
        }
        self.types.set(id.index, t);
        assert(self.shapes() =~= before.update(id.index as int, t@));
        assert forall|i: int, j: int| 0 <= i < j < self.len() implies self.shapes()[i] != self.shapes()[j] by {
            if i == id.index || j == id.index {
                if self.shapes()[i] == self.shapes()[j] {
                    assert(before[i] is Struct && before[j] is Struct);
                }
            }
        }
    }
}


/// Whether a value of shape `t` gets a zero fill when a `let` has no initializer,
/// looking at most `depth` levels into `table`: the scalars do, and an array, tuple or
/// struct does when all its components do. A layout without recursion by value nests
/// fewer levels than the table has types, so `depth == table.len()` decides it.
pub open spec fn fillable(table: TypeTable, t: TypeShape, depth: nat) -> bool
    decreases depth,
{
    match t {
        TypeShape::Int | TypeShape::Double | TypeShape::Boolean => true,
        TypeShape::Array(c, _) => depth > 0 && c.index < table.len() && fillable(
            table,
            table.shape(c),
            (depth - 1) as nat,
        ),
        TypeShape::Tuple(cs) => depth > 0 && forall|i: int|
            0 <= i < cs.len() ==> (#[trigger] cs[i]).index < table.len() && fillable(
                table,
                table.shape(cs[i]),
                (depth - 1) as nat,
            ),
        TypeShape::Struct(_, fs) => depth > 0 && forall|i: int|
            0 <= i < fs.len() ==> (#[trigger] fs[i]).1.index < table.len() && fillable(
                table,
                table.shape(fs[i].1),
                (depth - 1) as nat,
            ),
        _ => false,
    }
}

proof fn lemma_tuple_component(cs: Seq<TypeId>, bound: int, i: int)
    requires
        components_below(TypeShape::Tuple(cs), bound),
        0 <= i < cs.len(),
    ensures
        cs[i].index < bound,
{
    let t = TypeShape::Tuple(cs);
    assert(t->Tuple_0 == cs);
    assert(components_below(t, bound));
    assert(t->Tuple_0[i].index < bound);
}

proof fn lemma_field_component(name: Seq<char>, fs: Seq<(Seq<char>, TypeId)>, bound: int, i: int)
    requires
        components_below(TypeShape::Struct(name, fs), bound),
        0 <= i < fs.len(),
    ensures
        fs[i].1.index < bound,
{
    let t = TypeShape::Struct(name, fs);
    assert(t->Struct_1 == fs);
    assert(components_below(t, bound));
    assert(t->Struct_1[i].1.index < bound);
}

fn fillable_type(t: &Type, table: &TypeTable, depth: usize) -> (r: bool)
    requires
        table.wf(),
        components_below(t@, table.len() as int),
    ensures
        r == fillable(*table, t@, depth as nat),
    decreases depth,
{
    match t {
        Type::Int | Type::Double | Type::Boolean => true,
        Type::Array(c, _) => {
            if depth == 0 {
                return false;
            }
            proof {
                assert(components_below(
                    table.shape(*c),
                    if table.shape(*c) is Struct { table.len() as int } else { c.index as int },
                ));
            }
            fillable_type(table.get(*c), table, depth - 1)
        },
        Type::Tuple(cs) => {
            if depth == 0 {
                return false;
            }
            let mut i: usize = 0;
            while i < cs.len()
                invariant
                    table.wf(),
                    depth > 0,
                    t@ == TypeShape::Tuple(cs@),
                    components_below(t@, table.len() as int),
                    i <= cs.len(),
                    forall|j: int|
                        0 <= j < i ==> (#[trigger] cs@[j]).index < table.len() && fillable(
                            *table,
                            table.shape(cs@[j]),
                            (depth - 1) as nat,
                        ),
                decreases cs.len() - i,
            {
                let c = cs[i];
                proof {
                    let bound = table.len() as int;
                    assert(components_below(TypeShape::Tuple(cs@), bound));
                    lemma_tuple_component(cs@, bound, i as int);
                    assert(cs@[i as int].index < bound);
                    assert(components_below(
                        table.shape(c),
                        if table.shape(c) is Struct { table.len() as int } else { c.index as int },
                    ));
                }
                if !fillable_type(table.get(c), table, depth - 1) {
                    return false;
                }
                i = i + 1;
            }
            true
        },
        Type::Struct(st) => {
            if depth == 0 {
                return false;
            }
            let ghost fs = fields_view(st.fields@);
            let mut i: usize = 0;
            while i < st.fields.len()
                invariant
                    table.wf(),
                    depth > 0,
                    fs == fields_view(st.fields@),
                    t@ == TypeShape::Struct(st.name@, fs),
                    components_below(t@, table.len() as int),
                    i <= st.fields.len(),
                    forall|j: int|
                        0 <= j < i ==> (#[trigger] fs[j]).1.index < table.len() && fillable(
                            *table,
                            table.shape(fs[j].1),
                            (depth - 1) as nat,
                        ),
                decreases st.fields.len() - i,
            {
                let c = st.fields[i].1;
                proof {
                    assert(fs[i as int].1 == c);
                    let bound = table.len() as int;
                    assert(components_below(TypeShape::Struct(st.name@, fs), bound));
                    assert(fs.len() == st.fields.len());
                    lemma_field_component(st.name@, fs, bound, i as int);
                    assert(fs[i as int].1.index < bound);
                    assert(components_below(
                        table.shape(c),
                        if table.shape(c) is Struct { table.len() as int } else { c.index as int },
                    ));
                }
                if !fillable_type(table.get(c), table, depth - 1) {
                    return false;
                }
                i = i + 1;
            }
            true
        },
        _ => false,
    }
}

impl Type {
    /// Whether a variable of this type without an initializer is filled with zeros:
    /// scalars are, and aggregates whose components all are.
    pub fn has_default_value(&self, table: &TypeTable) -> (r: bool)
        requires
            table.wf(),
            components_below(self@, table.len() as int),
        ensures
            r == fillable(*table, self@, table.len()),
    {
        fillable_type(self, table, table.size())
    }
}

} // verus!
