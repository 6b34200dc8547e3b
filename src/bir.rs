use vstd::prelude::*;

verus! {

/// A type of the backend IR. Component types are indices into the module's type list.
#[derive(Debug)]
pub enum BackendType {
    Void,
    Int(u32),
    Double,
    Pointer(usize),
    Array(usize, usize),
    /// A struct: named (declared first, its body set afterwards) or literal.
    Struct(Option<String>, Vec<usize>),
    Function(usize, Vec<usize>, bool),
}

pub enum BackendTypeView {
    Void,
    Int(u32),
    Double,
    Pointer(usize),
    Array(usize, usize),
    Struct(Option<Seq<char>>, Seq<usize>),
    Function(usize, Seq<usize>, bool),
}

impl View for BackendType {
    type V = BackendTypeView;

    open spec fn view(&self) -> BackendTypeView {
        match self {
            BackendType::Void => BackendTypeView::Void,
            BackendType::Int(w) => BackendTypeView::Int(*w),
            BackendType::Double => BackendTypeView::Double,
            BackendType::Pointer(t) => BackendTypeView::Pointer(*t),
            BackendType::Array(t, n) => BackendTypeView::Array(*t, *n),
            BackendType::Struct(name, fields) => BackendTypeView::Struct(
                match name {
                    Some(n) => Some(n@),
                    None => None,
                },
                fields@,
            ),
            BackendType::Function(r, ps, va) => BackendTypeView::Function(*r, ps@, *va),
        }
    }
}

/// A value used by an instruction.
#[derive(Debug, Clone, Copy, PartialEq, Eq, Structural)]
pub enum Operand {
    /// The result of the instruction at this index of the function.
    Inst(usize),
    /// The function's parameter at this position.
    Param(usize),
    /// An integer constant of the given type.
    ConstInt(usize, i64),
    /// A floating-point constant of the given type, whose decimal text is at this
    /// index of the module's real constants.
    ConstReal(usize, usize),
    /// The function at this index of the module.
    Function(usize),
    /// A value that is never defined: the use of a name that has no storage.
    Undef(usize),
}

#[derive(Debug, Clone, Copy, PartialEq, Eq, Structural)]
pub enum ArithOp {
    Add,
    Sub,
    Mul,
    SDiv,
    SRem,
    FAdd,
    FSub,
    FMul,
    FDiv,
}

#[derive(Debug, Clone, Copy, PartialEq, Eq, Structural)]
pub enum IntPredicate {
    Eq,
    Ne,
    Slt,
    Sle,
    Sgt,
    Sge,
}

/// Unordered floating-point comparisons: true when either operand is NaN.
#[derive(Debug, Clone, Copy, PartialEq, Eq, Structural)]
pub enum RealPredicate {
    Ueq,
    Une,
    Ult,
    Ule,
    Ugt,
    Uge,
}

#[derive(Debug, Clone, Copy, PartialEq, Eq, Structural)]
pub enum Conversion {
    SIToFP,
    FPToSI,
    ZExt,
    Trunc,
    PtrToInt,
    IntToPtr,
}

/// One instruction of the backend IR. Block targets are block indices of the function.
#[derive(Debug)]
pub enum Instruction {
    Alloca(usize),
    Load(Operand),
    /// Stores the first operand through the second.
    Store(Operand, Operand),
    Br(usize),
    CondBr(Operand, usize, usize),
    Ret(Operand),
    RetVoid,
    Unreachable,
    Call(Operand, Vec<Operand>),
    Gep(Operand, Operand),
    StructGep(Operand, usize),
    BitCast(Operand, usize),
    GlobalStringPtr(String),
    Arith(ArithOp, Operand, Operand),
    ICmp(IntPredicate, Operand, Operand),
    FCmp(RealPredicate, Operand, Operand),
    Not(Operand),
    Convert(Conversion, Operand, usize),
    PtrDiff(Operand, Operand),
    /// A value of the given type chosen by the block control came from.
    Phi(usize, Vec<(Operand, usize)>),
}

pub open spec fn is_terminator(i: Instruction) -> bool {
    i is Br || i is CondBr || i is Ret || i is RetVoid || i is Unreachable
}

/// A function of the backend module. A defined function has blocks; its
/// instructions are listed in the order they were emitted, each with its block.
#[derive(Debug)]
pub struct BackendFunction {
    pub name: String,
    pub ty: usize,
    pub defined: bool,
    pub num_blocks: usize,
    pub instructions: Vec<(usize, Instruction)>,
}

/// Whether block `b` holds a terminator.
pub open spec fn block_terminated(insts: Seq<(usize, Instruction)>, b: int) -> bool {
    exists|k: int| 0 <= k < insts.len() && insts[k].0 == b && is_terminator(#[trigger] insts[k].1)
}

/// No instruction follows a terminator in its block.
pub open spec fn terminators_last(insts: Seq<(usize, Instruction)>) -> bool {
    forall|k: int, j: int|
        0 <= k < j < insts.len() && is_terminator(#[trigger] insts[k].1) ==> #[trigger] insts[j].0
            != insts[k].0
}

/// Every block of a function body ends with a terminator, and holds no other.
pub open spec fn blocks_well_formed(insts: Seq<(usize, Instruction)>, num_blocks: int) -> bool {
    &&& terminators_last(insts)
    &&& forall|k: int| 0 <= k < insts.len() ==> (#[trigger] insts[k]).0 < num_blocks
    &&& forall|b: int| 0 <= b < num_blocks ==> block_terminated(insts, b)
}

/// The module handed to a machine-code emitter.
#[derive(Debug)]
pub struct BackendModule {
    pub types: Vec<BackendType>,
    /// The index in `types` of each type of the type table the module was lowered with.
    pub type_map: Vec<usize>,
    pub functions: Vec<BackendFunction>,
    pub reals: Vec<String>,
}

} // verus!
