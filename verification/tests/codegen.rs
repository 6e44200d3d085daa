use tuc::codegen::{
    gen_from_block, gen_instructions, select_instructions, Instruction, InstructionArgument,
    PlatformRegister, Register, VirtualRegisterProvider,
};
use tuc::ir::{Block, Function, Opcode};

fn c(n: i32) -> Box<Opcode> {
    Box::new(Opcode::ConstInt32(n))
}

// Selecting instructions for `10 / 2` yields, in order: move immediate
// 10 into vreg0; move immediate 2 into vreg1; move vreg0 into the fixed
// dividend register; divide by vreg1; move the fixed quotient register
// into vreg2 — final result vreg2, five instructions total.
#[test]
fn division_lowering() {
    let tree = Opcode::Div(c(10), c(2));
    let mut vrp = VirtualRegisterProvider::new();
    let seq = select_instructions(&tree, &mut vrp);
    assert_eq!(seq.instructions.len(), 5);
    assert_eq!(
        seq.instructions,
        vec![
            Instruction::mov(Register::Virtual(0), InstructionArgument::Int32Value(10)),
            Instruction::mov(Register::Virtual(1), InstructionArgument::Int32Value(2)),
            Instruction::mov(
                Register::Real(PlatformRegister::rax),
                InstructionArgument::Register(Register::Virtual(0)),
            ),
            Instruction::div(Register::Virtual(1)),
            Instruction::mov(
                Register::Virtual(2),
                InstructionArgument::Register(Register::Real(PlatformRegister::rax)),
            ),
        ]
    );
    assert_eq!(seq.dest, Register::Virtual(2));
}

// Selection for `(A op B)` emits all of A's instructions, then all of
// B's, then exactly one combining instruction into A's result register.
#[test]
fn binary_selection_order() {
    let a = Opcode::Add(c(1), c(2));
    let b = Opcode::ConstInt32(3);
    let tree = Opcode::Mul(Box::new(a), Box::new(b));
    let mut vrp = VirtualRegisterProvider::new();
    let seq = select_instructions(&tree, &mut vrp);

    let mut vrp_a = VirtualRegisterProvider::new();
    let seq_a = select_instructions(&Opcode::Add(c(1), c(2)), &mut vrp_a);
    let mut expected = seq_a.instructions.clone();
    expected.push(Instruction::mov(Register::Virtual(2), InstructionArgument::Int32Value(3)));
    expected.push(Instruction::imul(
        seq_a.dest,
        InstructionArgument::Register(Register::Virtual(2)),
    ));
    assert_eq!(seq.instructions, expected);
    assert_eq!(seq.dest, seq_a.dest);
    assert_eq!(seq.instructions.len(), seq_a.instructions.len() + 1 + 1);
}

// The division lowering's returned result location is never the fixed
// dividend/quotient register, even when a division result is divided
// again.
#[test]
fn division_result_is_never_the_fixed_register() {
    let tree = Opcode::Div(Box::new(Opcode::Div(c(100), c(5))), c(2));
    let mut vrp = VirtualRegisterProvider::new();
    let seq = select_instructions(&tree, &mut vrp);
    assert!(matches!(seq.dest, Register::Virtual(_)));
    assert_ne!(seq.dest, Register::Real(PlatformRegister::rax));
}

#[test]
fn subtraction_is_destructive_into_left() {
    let tree = Opcode::Sub(c(7), c(3));
    let mut vrp = VirtualRegisterProvider::new();
    let seq = select_instructions(&tree, &mut vrp);
    assert_eq!(
        seq.instructions,
        vec![
            Instruction::mov(Register::Virtual(0), InstructionArgument::Int32Value(7)),
            Instruction::mov(Register::Virtual(1), InstructionArgument::Int32Value(3)),
            Instruction::isub(Register::Virtual(0), InstructionArgument::Register(Register::Virtual(1))),
        ]
    );
    assert_eq!(seq.dest, Register::Virtual(0));
}

#[test]
fn provider_counts_from_zero() {
    let mut vrp = VirtualRegisterProvider::new();
    assert_eq!(vrp.get(), Register::Virtual(0));
    assert_eq!(vrp.get(), Register::Virtual(1));
    vrp.reset();
    assert_eq!(vrp.get(), Register::Virtual(0));
}

// One register pool spans the whole lowering: a later opcode tree
// never reuses a virtual register of an earlier one, and a function
// starts with its label.
#[test]
fn function_selection() {
    let f = Function {
        name: "main".to_string(),
        ir: vec![Block { id: 0, opcodes: vec![Box::new(Opcode::Add(c(1), c(2))), c(9)] }],
    };
    let insts = gen_instructions(&f);
    assert_eq!(insts[0], Instruction::LABEL("main".to_string()));
    assert_eq!(
        insts[1..],
        vec![
            Instruction::mov(Register::Virtual(0), InstructionArgument::Int32Value(1)),
            Instruction::mov(Register::Virtual(1), InstructionArgument::Int32Value(2)),
            Instruction::iadd(Register::Virtual(0), InstructionArgument::Register(Register::Virtual(1))),
            Instruction::mov(Register::Virtual(2), InstructionArgument::Int32Value(9)),
        ][..]
    );

    let mut vrp = VirtualRegisterProvider::new();
    let same = gen_from_block(&f.ir[0], &mut vrp);
    assert_eq!(insts[1..], same[..]);
}

// Virtual registers are never reused across a block's opcode trees:
// two constant statements land in two distinct registers.
#[test]
fn no_register_reuse_across_opcodes() {
    let b = Block { id: 0, opcodes: vec![c(1), c(2)] };
    let mut vrp = VirtualRegisterProvider::new();
    let insts = gen_from_block(&b, &mut vrp);
    assert_eq!(
        insts,
        vec![
            Instruction::mov(Register::Virtual(0), InstructionArgument::Int32Value(1)),
            Instruction::mov(Register::Virtual(1), InstructionArgument::Int32Value(2)),
        ]
    );
}

// The pool runs on across blocks of one function.
#[test]
fn one_pool_across_blocks() {
    let f = Function {
        name: "f".to_string(),
        ir: vec![
            Block { id: 0, opcodes: vec![c(1)] },
            Block { id: 1, opcodes: vec![c(2)] },
        ],
    };
    let insts = gen_instructions(&f);
    assert_eq!(
        insts[1..],
        vec![
            Instruction::mov(Register::Virtual(0), InstructionArgument::Int32Value(1)),
            Instruction::mov(Register::Virtual(1), InstructionArgument::Int32Value(2)),
        ][..]
    );
}
