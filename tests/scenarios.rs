use minilang::ast::LazyOperatorKind;
use minilang::backend::llvm_codegen_program;
use minilang::lowering::lower_lazy;
use minilang::bir::{
    ArithOp, BackendModule, BackendType, Conversion, Instruction, IntPredicate, Operand,
};
use minilang::interner::Interner;
use minilang::ir::{
    BinaryOperatorKind, Declaration, Expression, ExternFunction, Function, IdentifierId,
    InternerId, LValueUnaryOperatorKind, Literal, Program, Statement, TypedExpression,
    UnaryOperatorKind, Value, VarDecl,
};
use minilang::span::Span;
use minilang::ty::{FunctionType, Type, TypeId, TypeTable};

#[derive(Clone, Copy, Debug, PartialEq)]
enum V {
    I(i64),
    B(bool),
    P(usize, usize),
    F(usize),
    Undef,
}

#[derive(Debug, PartialEq)]
enum Trap {
    DivisionByZero,
    Unreachable,
    Unsupported,
}

struct Machine<'m> {
    module: &'m BackendModule,
    memory: Vec<Vec<V>>,
    output: String,
}

impl<'m> Machine<'m> {
    fn size_of(&self, ty: usize) -> usize {
        match &self.module.types[ty] {
            BackendType::Array(e, n) => n * self.size_of(*e),
            BackendType::Struct(_, fields) => fields.iter().map(|f| self.size_of(*f)).sum(),
            _ => 1,
        }
    }

    fn operand(&self, values: &[V], args: &[V], o: Operand) -> V {
        match o {
            Operand::Inst(k) => values[k],
            Operand::Param(i) => args[i],
            Operand::ConstInt(ty, n) => match self.module.types[ty] {
                BackendType::Int(1) => V::B(n != 0),
                _ => V::I(n),
            },
            Operand::Function(i) => V::F(i),
            _ => V::Undef,
        }
    }

    fn call(&mut self, f: usize, args: Vec<V>) -> Result<V, Trap> {
        let func = &self.module.functions[f];
        if !func.defined {
            if func.name == "printf" {
                if let V::P(cell, _) = args[0] {
                    for v in &self.memory[cell] {
                        if let V::I(c) = v {
                            self.output.push(*c as u8 as char);
                        }
                    }
                }
                return Ok(V::I(0));
            }
            return Err(Trap::Unsupported);
        }
        let insts = &func.instructions;
        let mut values = vec![V::Undef; insts.len()];
        let mut block = 0usize;
        let mut prev = usize::MAX;
        loop {
            let ids: Vec<usize> = (0..insts.len()).filter(|&k| insts[k].0 == block).collect();
            let mut next = None;
            for k in ids {
                let o = |v: Operand| self.operand(&values, &args, v);
                let r = match &insts[k].1 {
                    Instruction::Alloca(ty) => {
                        let size = self.size_of(*ty);
                        self.memory.push(vec![V::Undef; size]);
                        V::P(self.memory.len() - 1, 0)
                    },
                    Instruction::Load(p) => match o(*p) {
                        V::P(c, off) => self.memory[c][off],
                        _ => return Err(Trap::Unsupported),
                    },
                    Instruction::Store(v, p) => {
                        let v = o(*v);
                        match o(*p) {
                            V::P(c, off) => self.memory[c][off] = v,
                            _ => return Err(Trap::Unsupported),
                        }
                        V::Undef
                    },
                    Instruction::Arith(op, a, b) => match (o(*a), o(*b)) {
                        (V::I(x), V::I(y)) => V::I(match op {
                            ArithOp::Add => x.wrapping_add(y),
                            ArithOp::Sub => x.wrapping_sub(y),
                            ArithOp::Mul => x.wrapping_mul(y),
                            ArithOp::SDiv | ArithOp::SRem if y == 0 => {
                                return Err(Trap::DivisionByZero)
                            },
                            ArithOp::SDiv => x.wrapping_div(y),
                            ArithOp::SRem => x.wrapping_rem(y),
                            _ => return Err(Trap::Unsupported),
                        }),
                        _ => return Err(Trap::Unsupported),
                    },
                    Instruction::ICmp(pred, a, b) => {
                        let (x, y) = match (o(*a), o(*b)) {
                            (V::I(x), V::I(y)) => (x as i128, y as i128),
                            (V::B(x), V::B(y)) => (x as i128, y as i128),
                            (V::P(c, x), V::P(d, y)) if c == d => (x as i128, y as i128),
                            _ => return Err(Trap::Unsupported),
                        };
                        V::B(match pred {
                            IntPredicate::Eq => x == y,
                            IntPredicate::Ne => x != y,
                            IntPredicate::Slt => x < y,
                            IntPredicate::Sle => x <= y,
                            IntPredicate::Sgt => x > y,
                            IntPredicate::Sge => x >= y,
                        })
                    },
                    Instruction::Not(v) => match o(*v) {
                        V::B(b) => V::B(!b),
                        _ => return Err(Trap::Unsupported),
                    },
                    Instruction::Convert(Conversion::ZExt, v, _) => match o(*v) {
                        V::B(b) => V::I(b as i64),
                        _ => return Err(Trap::Unsupported),
                    },
                    Instruction::Gep(p, i) => match (o(*p), o(*i)) {
                        (V::P(c, off), V::I(i)) => V::P(c, (off as i64 + i) as usize),
                        _ => return Err(Trap::Unsupported),
                    },
                    Instruction::StructGep(p, i) => match o(*p) {
                        V::P(c, off) => V::P(c, off + i),
                        _ => return Err(Trap::Unsupported),
                    },
                    Instruction::PtrDiff(a, b) => match (o(*a), o(*b)) {
                        (V::P(_, x), V::P(_, y)) => V::I(x as i64 - y as i64),
                        _ => return Err(Trap::Unsupported),
                    },
                    Instruction::BitCast(v, _) => o(*v),
                    Instruction::GlobalStringPtr(s) => {
                        self.memory.push(s.bytes().map(|b| V::I(b as i64)).collect());
                        V::P(self.memory.len() - 1, 0)
                    },
                    Instruction::Call(f, call_args) => {
                        let a: Vec<V> = call_args.iter().map(|x| o(*x)).collect();
                        match o(*f) {
                            V::F(g) => self.call(g, a)?,
                            _ => return Err(Trap::Unsupported),
                        }
                    },
                    Instruction::Phi(_, incoming) => {
                        let (v, _) = incoming.iter().find(|(_, b)| *b == prev).unwrap();
                        o(*v)
                    },
                    Instruction::Br(t) => {
                        next = Some(*t);
                        V::Undef
                    },
                    Instruction::CondBr(c, t, e) => {
                        next = Some(if o(*c) == V::B(true) { *t } else { *e });
                        V::Undef
                    },
                    Instruction::Ret(v) => return Ok(o(*v)),
                    Instruction::RetVoid => return Ok(V::Undef),
                    Instruction::Unreachable => return Err(Trap::Unreachable),
                    _ => return Err(Trap::Unsupported),
                };
                values[k] = r;
                if next.is_some() {
                    break;
                }
            }
            prev = block;
            block = next.ok_or(Trap::Unreachable)?;
        }
    }
}

fn run(program: &Program, strings: &Interner, table: &TypeTable) -> (Result<V, Trap>, String) {
    let module = llvm_codegen_program(program, strings, table);
    assert_terminated(&module);
    let main = module.functions.iter().position(|f| f.name == "main").unwrap();
    let mut m = Machine { module: &module, memory: Vec::new(), output: String::new() };
    let r = m.call(main, Vec::new());
    let out = m.output.clone();
    (r, out)
}

fn is_terminator(i: &Instruction) -> bool {
    matches!(
        i,
        Instruction::Br(_)
            | Instruction::CondBr(..)
            | Instruction::Ret(_)
            | Instruction::RetVoid
            | Instruction::Unreachable
    )
}

fn assert_terminated(module: &BackendModule) {
    for f in module.functions.iter().filter(|f| f.defined) {
        for b in 0..f.num_blocks {
            let in_block: Vec<&Instruction> =
                f.instructions.iter().filter(|(x, _)| *x == b).map(|(_, i)| i).collect();
            assert!(!in_block.is_empty());
            assert!(is_terminator(in_block[in_block.len() - 1]));
            assert!(in_block[..in_block.len() - 1].iter().all(|i| !is_terminator(i)));
        }
    }
}

fn ty(index: usize) -> TypeId {
    TypeId { index }
}

const INT: TypeId = TypeId { index: 1 };
const BOOL: TypeId = TypeId { index: 3 };

fn te(ty: TypeId, expr: Expression) -> TypedExpression {
    TypedExpression { ty, expr }
}

fn int_lit(n: i64) -> TypedExpression {
    te(INT, Expression::Value(Value::Literal(Literal::IntLiteral(n))))
}

fn boolean(b: bool) -> TypedExpression {
    te(BOOL, Expression::Value(Value::Literal(Literal::BooleanLiteral(b))))
}

fn place(id: usize, t: TypeId) -> TypedExpression {
    te(t, Expression::Value(Value::Local(IdentifierId { index: id })))
}

fn load(e: TypedExpression, t: TypeId) -> TypedExpression {
    te(t, Expression::LValueToRValue(Box::new(e)))
}

fn binop(op: BinaryOperatorKind, l: TypedExpression, r: TypedExpression, t: TypeId) -> TypedExpression {
    te(t, Expression::BinaryOperator { binop: op, lhs: Box::new(l), rhs: Box::new(r) })
}

fn assign(l: TypedExpression, r: TypedExpression) -> Statement {
    let t = r.ty;
    Statement::Expression(te(t, Expression::Assign { lhs: Box::new(l), rhs: Box::new(r) }))
}

fn main_fn(vars: Vec<VarDecl>, body: Vec<Statement>) -> Function {
    Function {
        name: "main".to_string(),
        return_ty: INT,
        parameters: vec![],
        var_declarations: vars,
        body,
        span: Span { start: 0, len: 1 },
    }
}

fn var(id: usize, t: TypeId) -> VarDecl {
    VarDecl { ty: t, id: IdentifierId { index: id } }
}

#[test]
fn returns_one_plus_two_times_three() {
    let table = TypeTable::new();
    let body = vec![Statement::Return(Some(binop(
        BinaryOperatorKind::IntPlus,
        int_lit(1),
        binop(BinaryOperatorKind::IntMultiply, int_lit(2), int_lit(3), INT),
        INT,
    )))];
    let program = Program { declarations: vec![Declaration::Function(main_fn(vec![], body))] };
    let module = llvm_codegen_program(&program, &Interner::new(), &table);
    let f = &module.functions[0];
    assert_eq!(f.num_blocks, 2);
    assert!(matches!(f.instructions[0], (0, Instruction::Arith(ArithOp::Mul, _, _))));
    assert!(matches!(
        f.instructions[1],
        (0, Instruction::Arith(ArithOp::Add, _, Operand::Inst(0)))
    ));
    assert!(matches!(f.instructions[2], (0, Instruction::Ret(Operand::Inst(1)))));
    assert!(matches!(f.instructions[3], (1, Instruction::Unreachable)));
    assert_eq!(run(&program, &Interner::new(), &table).0, Ok(V::I(7)));
}

#[test]
fn for_loop_sums_to_forty_five() {
    let mut table = TypeTable::new();
    let lint = table.intern(Type::LValue(INT, true));
    let x = || place(0, lint);
    let i = || place(1, lint);
    let init = assign(i(), int_lit(0));
    let cond = binop(BinaryOperatorKind::IntLess, load(i(), INT), int_lit(10), BOOL);
    let step = te(
        lint,
        Expression::LValueUnaryOperator {
            lvalue_unop: LValueUnaryOperatorKind::IntIncrement,
            sub: Box::new(i()),
        },
    );
    let body = vec![
        assign(x(), int_lit(0)),
        Statement::For {
            init: Box::new(init),
            condition: cond,
            step: Some(step),
            body: vec![assign(
                x(),
                binop(BinaryOperatorKind::IntPlus, load(x(), INT), load(i(), INT), INT),
            )],
        },
        Statement::Return(Some(load(x(), INT))),
    ];
    let program = Program {
        declarations: vec![Declaration::Function(main_fn(vec![var(0, INT), var(1, INT)], body))],
    };
    assert_eq!(run(&program, &Interner::new(), &table).0, Ok(V::I(45)));
}

#[test]
fn extern_printf_prints_hi() {
    let mut table = TypeTable::new();
    let i8_ptr = table.intern(Type::Pointer(ty(4)));
    let mut strings = Interner::new();
    let hi = strings.intern("hi\n");
    assert_eq!(hi, InternerId { index: 0 });
    let printf = ExternFunction {
        name: "printf".to_string(),
        ty: FunctionType { return_ty: INT, parameters_ty: vec![i8_ptr], is_vararg: true },
        span: Span { start: 0, len: 6 },
    };
    let call = te(
        INT,
        Expression::FunctionCall {
            function: Box::new(te(INT, Expression::Value(Value::Global("printf".to_string())))),
            args: vec![te(ty(4), Expression::Value(Value::Literal(Literal::StringLiteral(hi))))],
        },
    );
    let body = vec![Statement::Expression(call), Statement::Return(Some(int_lit(0)))];
    let program = Program {
        declarations: vec![
            Declaration::ExternFunction(printf),
            Declaration::Function(main_fn(vec![], body)),
        ],
    };
    let (r, out) = run(&program, &strings, &table);
    assert_eq!(r, Ok(V::I(0)));
    assert_eq!(out, "hi\n");
    let module = llvm_codegen_program(&program, &strings, &table);
    assert!(!module.functions[0].defined);
    assert!(matches!(module.types[module.functions[0].ty], BackendType::Function(_, _, true)));
}

#[test]
fn pointer_parameter_returns_forty_two() {
    let mut table = TypeTable::new();
    let ptr = table.intern(Type::Pointer(INT));
    let lptr = table.intern(Type::LValue(ptr, true));
    let lint = table.intern(Type::LValue(INT, true));
    let deref = te(
        lint,
        Expression::UnaryOperator {
            unop: UnaryOperatorKind::PointerDeref,
            sub: Box::new(load(place(0, lptr), ptr)),
        },
    );
    let f = Function {
        name: "f".to_string(),
        return_ty: INT,
        parameters: vec![(ptr, IdentifierId { index: 0 })],
        var_declarations: vec![],
        body: vec![Statement::Return(Some(binop(
            BinaryOperatorKind::IntPlus,
            load(deref, INT),
            int_lit(1),
            INT,
        )))],
        span: Span { start: 0, len: 1 },
    };
    let address = te(
        ptr,
        Expression::LValueUnaryOperator {
            lvalue_unop: LValueUnaryOperatorKind::LValueToPtr,
            sub: Box::new(place(0, lint)),
        },
    );
    let call = te(
        INT,
        Expression::FunctionCall {
            function: Box::new(te(INT, Expression::Value(Value::Global("f".to_string())))),
            args: vec![address],
        },
    );
    let body = vec![assign(place(0, lint), int_lit(41)), Statement::Return(Some(call))];
    let program = Program {
        declarations: vec![
            Declaration::Function(f),
            Declaration::Function(main_fn(vec![var(0, INT)], body)),
        ],
    };
    assert_eq!(run(&program, &Interner::new(), &table).0, Ok(V::I(42)));
}

#[test]
fn struct_fields_give_twenty_five() {
    let mut table = TypeTable::new();
    let p = table.declare_struct("P".to_string());
    table.define_struct(p, vec![("x".to_string(), INT), ("y".to_string(), INT)]);
    let lp = table.intern(Type::LValue(p, true));
    let lint = table.intern(Type::LValue(INT, true));
    let field = |i: usize| {
        te(lint, Expression::FieldAccess { sub: Box::new(place(0, lp)), index: i })
    };
    let sq = |i: usize| binop(BinaryOperatorKind::IntMultiply, load(field(i), INT), load(field(i), INT), INT);
    let body = vec![
        assign(field(0), int_lit(3)),
        assign(field(1), int_lit(4)),
        Statement::Return(Some(binop(BinaryOperatorKind::IntPlus, sq(0), sq(1), INT))),
    ];
    let program = Program {
        declarations: vec![Declaration::Function(main_fn(vec![var(0, p)], body))],
    };
    assert_eq!(run(&program, &Interner::new(), &table).0, Ok(V::I(25)));
    let module = llvm_codegen_program(&program, &Interner::new(), &table);
    assert!(module
        .types
        .iter()
        .any(|t| matches!(t, BackendType::Struct(Some(n), f) if n == "P" && f.len() == 2)));
}

#[test]
fn array_elements_sum_to_six() {
    let mut table = TypeTable::new();
    let arr = table.intern(Type::Array(INT, 3));
    let larr = table.intern(Type::LValue(arr, true));
    let ptr = table.intern(Type::Pointer(INT));
    let lint = table.intern(Type::LValue(INT, true));
    let elem = |i: i64| {
        let base = te(
            ptr,
            Expression::BitCast {
                dest_ty: ptr,
                sub: Box::new(te(
                    ptr,
                    Expression::LValueUnaryOperator {
                        lvalue_unop: LValueUnaryOperatorKind::LValueToPtr,
                        sub: Box::new(place(0, larr)),
                    },
                )),
            },
        );
        te(
            lint,
            Expression::UnaryOperator {
                unop: UnaryOperatorKind::PointerDeref,
                sub: Box::new(binop(BinaryOperatorKind::PtrPlusOffset, base, int_lit(i), ptr)),
            },
        )
    };
    let mut body = vec![];
    for i in 0..3 {
        body.push(assign(elem(i), int_lit(i + 1)));
    }
    let sum = binop(
        BinaryOperatorKind::IntPlus,
        binop(BinaryOperatorKind::IntPlus, load(elem(0), INT), load(elem(1), INT), INT),
        load(elem(2), INT),
        INT,
    );
    body.push(Statement::Return(Some(sum)));
    let program = Program {
        declarations: vec![Declaration::Function(main_fn(vec![var(0, arr)], body))],
    };
    assert_eq!(run(&program, &Interner::new(), &table).0, Ok(V::I(6)));
}

fn short_circuit_program(lhs: bool) -> Program {
    let div = binop(BinaryOperatorKind::IntDivide, int_lit(1), int_lit(0), INT);
    let rhs = binop(BinaryOperatorKind::IntEqual, div, int_lit(0), BOOL);
    let and = lower_lazy(LazyOperatorKind::LogicalAnd, boolean(lhs), rhs);
    let body = vec![
        Statement::If {
            condition: and,
            body: vec![Statement::Return(Some(int_lit(1)))],
            else_clause: vec![],
        },
        Statement::Return(Some(int_lit(0))),
    ];
    Program { declarations: vec![Declaration::Function(main_fn(vec![], body))] }
}

#[test]
fn logical_and_evaluates_right_side_only_when_left_is_true() {
    let table = TypeTable::new();
    let (r, _) = run(&short_circuit_program(true), &Interner::new(), &table);
    assert_eq!(r, Err(Trap::DivisionByZero));
    let (r, _) = run(&short_circuit_program(false), &Interner::new(), &table);
    assert_eq!(r, Ok(V::I(0)));
}

#[test]
fn ternary_joins_at_a_phi() {
    let table = TypeTable::new();
    let program = short_circuit_program(false);
    let module = llvm_codegen_program(&program, &Interner::new(), &table);
    let f = &module.functions[0];
    let phi = f.instructions.iter().find(|(_, i)| matches!(i, Instruction::Phi(..))).unwrap();
    if let Instruction::Phi(_, incoming) = &phi.1 {
        assert_eq!(incoming.len(), 2);
        assert_ne!(incoming[0].1, incoming[1].1);
    }
}

#[test]
fn break_jumps_to_loop_end_and_continue_to_condition() {
    let table = TypeTable::new();
    let body = vec![
        Statement::For {
            init: Box::new(Statement::Block(vec![])),
            condition: boolean(true),
            step: None,
            body: vec![Statement::Break, Statement::Continue],
        },
        Statement::Return(Some(int_lit(3))),
    ];
    let program = Program { declarations: vec![Declaration::Function(main_fn(vec![], body))] };
    let module = llvm_codegen_program(&program, &Interner::new(), &table);
    let f = &module.functions[0];
    let cond_br = f
        .instructions
        .iter()
        .find_map(|(_, i)| match i {
            Instruction::CondBr(_, t, e) => Some((*t, *e)),
            _ => None,
        })
        .unwrap();
    let (then_bb, end_bb) = cond_br;
    let loop_bb = then_bb - 1;
    let in_then: Vec<&Instruction> =
        f.instructions.iter().filter(|(b, _)| *b == then_bb).map(|(_, i)| i).collect();
    assert!(matches!(in_then[0], Instruction::Br(t) if *t == end_bb));
    let brs_to_loop = f
        .instructions
        .iter()
        .filter(|(_, i)| matches!(i, Instruction::Br(t) if *t == loop_bb))
        .count();
    assert_eq!(brs_to_loop, 3);
    assert_eq!(run(&program, &Interner::new(), &table).0, Ok(V::I(3)));
}

#[test]
fn break_outside_loop_lowers_to_unreachable() {
    let table = TypeTable::new();
    let body = vec![Statement::Break];
    let program = Program { declarations: vec![Declaration::Function(main_fn(vec![], body))] };
    let module = llvm_codegen_program(&program, &Interner::new(), &table);
    assert!(matches!(module.functions[0].instructions[0], (0, Instruction::Unreachable)));
}

#[test]
fn every_block_ends_in_a_terminator() {
    let table = TypeTable::new();
    let body = vec![
        Statement::Return(Some(int_lit(1))),
        Statement::Return(Some(int_lit(2))),
        Statement::If { condition: boolean(true), body: vec![], else_clause: vec![] },
    ];
    let program = Program { declarations: vec![Declaration::Function(main_fn(vec![], body))] };
    let module = llvm_codegen_program(&program, &Interner::new(), &table);
    assert_terminated(&module);
    assert_eq!(module.functions[0].num_blocks, 6);
}
