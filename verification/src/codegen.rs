//! Instruction selection: a post-order walk over arithmetic expression
//! trees emitting flat pseudo-machine instructions over an unbounded
//! pool of virtual registers, with one fixed physical register pair
//! reserved for hardware division.

use vstd::prelude::*;
use crate::ir;
use crate::ir::Opcode;

verus! {

pub type Symbol = String;

/// The physical registers of the target model. Only the fixed
/// dividend/quotient register (`rax`) is used by this selector.
#[allow(non_camel_case_types)]
#[derive(Eq, PartialEq, Copy, Clone, Debug, Structural)]
pub enum PlatformRegister {
    rax,
    rcx,
    rdx,
    rbx,
    rsp,
    rbp,
    rsi,
    rdi,
    r4,
    r5,
    r6,
    r7,
    r8,
    r9,
    r10,
    r11,
    r12,
    r13,
    r14,
    r15,
}

/// A physical register or one of the unbounded virtual registers.
#[derive(Eq, PartialEq, Copy, Clone, Debug, Structural)]
pub enum Register {
    Real(PlatformRegister),
    Virtual(u32),
}

/// Supplier of fresh virtual registers, numbered from zero.
#[derive(Debug)]
pub struct VirtualRegisterProvider {
    pub index: u32,
}

impl VirtualRegisterProvider {
    pub fn new() -> (r: VirtualRegisterProvider)
        ensures
            r.index == 0,
    {
        VirtualRegisterProvider { index: 0 }
    }

    /// The next unused virtual register.
    pub fn get(&mut self) -> (r: Register)
        requires
            old(self).index < u32::MAX,
        ensures
            final(self).index == old(self).index + 1,
            r == Register::Virtual(old(self).index),
    {
        let r = Register::Virtual(self.index);
        self.index = self.index + 1;
        r
    }

    pub fn reset(&mut self)
        ensures
            final(self).index == 0,
    {
        self.index = 0;
    }
}

/// A register or an immediate operand.
#[allow(non_camel_case_types)]
#[derive(Eq, PartialEq, Copy, Clone, Debug, Structural)]
pub enum InstructionArgument {
    Register(Register),
    Int32Value(i32),
}

/// One pseudo-machine instruction. The two-operand arithmetic forms are
/// destructive into their first operand; `div` divides the fixed
/// dividend register by its operand, leaving the quotient in the fixed
/// register.
#[allow(non_camel_case_types)]
#[derive(Eq, PartialEq, Clone, Debug)]
pub enum Instruction {
    LABEL(String),
    mov(Register, InstructionArgument),
    iadd(Register, InstructionArgument),
    isub(Register, InstructionArgument),
    imul(Register, InstructionArgument),
    div(Register),
    push(Register),
    pop(Register),
}

pub type InstructionList = Vec<Instruction>;

/// The instructions selected for one subtree and the register holding
/// its result.
#[derive(Debug)]
pub struct InstructionSequence {
    pub dest: Register,
    pub instructions: InstructionList,
}

/// The selector's input domain: trees of integer constants and the four
/// arithmetic operations only.
pub open spec fn arith_only(op: Opcode) -> bool
    decreases op,
{
    match op {
        Opcode::ConstInt32(_) => true,
        Opcode::Add(l, r) => arith_only(*l) && arith_only(*r),
        Opcode::Sub(l, r) => arith_only(*l) && arith_only(*r),
        Opcode::Mul(l, r) => arith_only(*l) && arith_only(*r),
        Opcode::Div(l, r) => arith_only(*l) && arith_only(*r),
        _ => false,
    }
}

/// How many virtual registers selecting this tree allocates: one per
/// constant leaf and one more per division.
pub open spec fn num_vregs(op: Opcode) -> nat
    decreases op,
{
    match op {
        Opcode::ConstInt32(_) => 1,
        Opcode::Add(l, r) => num_vregs(*l) + num_vregs(*r),
        Opcode::Sub(l, r) => num_vregs(*l) + num_vregs(*r),
        Opcode::Mul(l, r) => num_vregs(*l) + num_vregs(*r),
        Opcode::Div(l, r) => num_vregs(*l) + num_vregs(*r) + 1,
        _ => 0,
    }
}

/// Post-order instruction selection for one tree, with `ctr` the next
/// unused virtual-register number: the instructions emitted, the result
/// location, and the next unused number afterwards.
///
/// A constant moves its immediate into a fresh virtual register. An
/// add, subtract or multiply selects the left subtree, then the right,
/// then writes destructively into the left result register, fixing
/// left-to-right evaluation order. A division moves the left result
/// into the fixed dividend register, divides by the right result, and
/// copies the quotient out into a fresh virtual register so the result
/// location is never the fixed register itself.
pub open spec fn spec_select(op: Opcode, ctr: nat) -> (Seq<Instruction>, Register, nat)
    decreases op,
{
    match op {
        Opcode::ConstInt32(i) => (
            seq![Instruction::mov(Register::Virtual(ctr as u32), InstructionArgument::Int32Value(i))],
            Register::Virtual(ctr as u32),
            ctr + 1,
        ),
        Opcode::Add(l, r) => {
            let (li, ld, c1) = spec_select(*l, ctr);
            let (ri, rd, c2) = spec_select(*r, c1);
            (li + ri + seq![Instruction::iadd(ld, InstructionArgument::Register(rd))], ld, c2)
        },
        Opcode::Sub(l, r) => {
            let (li, ld, c1) = spec_select(*l, ctr);
            let (ri, rd, c2) = spec_select(*r, c1);
            (li + ri + seq![Instruction::isub(ld, InstructionArgument::Register(rd))], ld, c2)
        },
        Opcode::Mul(l, r) => {
            let (li, ld, c1) = spec_select(*l, ctr);
            let (ri, rd, c2) = spec_select(*r, c1);
            (li + ri + seq![Instruction::imul(ld, InstructionArgument::Register(rd))], ld, c2)
        },
        Opcode::Div(l, r) => {
            let (li, ld, c1) = spec_select(*l, ctr);
            let (ri, rd, c2) = spec_select(*r, c1);
            (
                li + ri + seq![
                    Instruction::mov(
                        Register::Real(PlatformRegister::rax),
                        InstructionArgument::Register(ld),
                    ),
                    Instruction::div(rd),
                    Instruction::mov(
                        Register::Virtual(c2 as u32),
                        InstructionArgument::Register(Register::Real(PlatformRegister::rax)),
                    ),
                ],
                Register::Virtual(c2 as u32),
                c2 + 1,
            )
        },
        _ => (Seq::<Instruction>::empty(), Register::Virtual(0), ctr),
    }
}

/// Selection allocates exactly `num_vregs` virtual registers.
pub proof fn lemma_select_count(op: Opcode, ctr: nat)
    ensures
        spec_select(op, ctr).2 == ctr + num_vregs(op),
    decreases op,
{
    match op {
        Opcode::Add(l, r) | Opcode::Sub(l, r) | Opcode::Mul(l, r) | Opcode::Div(l, r) => {
            lemma_select_count(*l, ctr);
            lemma_select_count(*r, spec_select(*l, ctr).2);
        },
        _ => {},
    }
}

/// The returned result location of selection is always a virtual
/// register — in particular it is never the fixed dividend/quotient
/// register that the division lowering clobbers.
pub proof fn lemma_select_dest_virtual(op: Opcode, ctr: nat)
    requires
        arith_only(op),
    ensures
        spec_select(op, ctr).1 is Virtual,
        spec_select(op, ctr).1 != Register::Real(PlatformRegister::rax),
    decreases op,
{
    match op {
        Opcode::Add(l, r) | Opcode::Sub(l, r) | Opcode::Mul(l, r) => {
            lemma_select_dest_virtual(*l, ctr);
        },
        _ => {},
    }
}

/// Selecting `(A op B)` for an add, subtract or multiply emits all of
/// A's instructions, then all of B's, then exactly one combining
/// instruction, which writes into A's result register.
pub proof fn lemma_select_binary_order(a: Opcode, b: Opcode, op: Opcode, ctr: nat)
    requires
        op == Opcode::Add(Box::new(a), Box::new(b)) || op == Opcode::Sub(Box::new(a), Box::new(b))
            || op == Opcode::Mul(Box::new(a), Box::new(b)),
    ensures
        ({
            let (ai, ad, c1) = spec_select(a, ctr);
            let (bi, bd, c2) = spec_select(b, c1);
            let combining = if op == Opcode::Add(Box::new(a), Box::new(b)) {
                Instruction::iadd(ad, InstructionArgument::Register(bd))
            } else if op == Opcode::Sub(Box::new(a), Box::new(b)) {
                Instruction::isub(ad, InstructionArgument::Register(bd))
            } else {
                Instruction::imul(ad, InstructionArgument::Register(bd))
            };
            spec_select(op, ctr).0 == ai + bi + seq![combining]
        }),
{
}

/// Selecting `(A / B)` emits all of A's instructions, then all of B's,
/// then exactly three: a move of A's result into the fixed dividend
/// register, the division by B's result, and a move of the fixed
/// quotient register into the fresh result register.
pub proof fn lemma_select_div_order(a: Opcode, b: Opcode, ctr: nat)
    ensures
        ({
            let (ai, ad, c1) = spec_select(a, ctr);
            let (bi, bd, c2) = spec_select(b, c1);
            spec_select(Opcode::Div(Box::new(a), Box::new(b)), ctr).0 == ai + bi + seq![
                Instruction::mov(
                    Register::Real(PlatformRegister::rax),
                    InstructionArgument::Register(ad),
                ),
                Instruction::div(bd),
                Instruction::mov(
                    Register::Virtual(c2 as u32),
                    InstructionArgument::Register(Register::Real(PlatformRegister::rax)),
                ),
            ]
        }),
{
}

/// Select instructions for one arithmetic tree, drawing virtual
/// registers from `vrp`.
pub fn select_instructions(opcode: &Opcode, vrp: &mut VirtualRegisterProvider) -> (r:
    InstructionSequence)
    requires
        arith_only(*opcode),
        old(vrp).index + num_vregs(*opcode) <= u32::MAX,
    ensures
        r.instructions@ == spec_select(*opcode, old(vrp).index as nat).0,
        r.dest == spec_select(*opcode, old(vrp).index as nat).1,
        final(vrp).index as nat == spec_select(*opcode, old(vrp).index as nat).2,
    decreases *opcode,
{
    let mut instructions: InstructionList = Vec::new();
    let dest: Register;
    match opcode {
        Opcode::ConstInt32(i) => {
            let d = vrp.get();
            instructions.push(Instruction::mov(d, InstructionArgument::Int32Value(*i)));
            dest = d;
        },
        Opcode::Add(l, r) => {
            proof {
                lemma_select_count(**l, old(vrp).index as nat);
            }
            let mut left = select_instructions(l, vrp);
            let mut right = select_instructions(r, vrp);
            instructions.append(&mut left.instructions);
            instructions.append(&mut right.instructions);
            instructions.push(Instruction::iadd(left.dest, InstructionArgument::Register(right.dest)));
            dest = left.dest;
        },
        Opcode::Sub(l, r) => {
            proof {
                lemma_select_count(**l, old(vrp).index as nat);
            }
            let mut left = select_instructions(l, vrp);
            let mut right = select_instructions(r, vrp);
            instructions.append(&mut left.instructions);
            instructions.append(&mut right.instructions);
            instructions.push(Instruction::isub(left.dest, InstructionArgument::Register(right.dest)));
            dest = left.dest;
        },
        Opcode::Mul(l, r) => {
            proof {
                lemma_select_count(**l, old(vrp).index as nat);
            }
            let mut left = select_instructions(l, vrp);
            let mut right = select_instructions(r, vrp);
            instructions.append(&mut left.instructions);
            instructions.append(&mut right.instructions);
            instructions.push(Instruction::imul(left.dest, InstructionArgument::Register(right.dest)));
            dest = left.dest;
        },
        Opcode::Div(l, r) => {
            proof {
                lemma_select_count(**l, old(vrp).index as nat);
                lemma_select_count(**r, spec_select(**l, old(vrp).index as nat).2);
            }
            let mut left = select_instructions(l, vrp);
            let mut right = select_instructions(r, vrp);
            instructions.append(&mut left.instructions);
            instructions.append(&mut right.instructions);
            instructions.push(Instruction::mov(
                Register::Real(PlatformRegister::rax),
                InstructionArgument::Register(left.dest),
            ));
            instructions.push(Instruction::div(right.dest));
            let d = vrp.get();
            instructions.push(Instruction::mov(
                d,
                InstructionArgument::Register(Register::Real(PlatformRegister::rax)),
            ));
            dest = d;
        },
        _ => {
            proof {
                assert(false);
            }
            dest = Register::Virtual(0);
        },
    }
    InstructionSequence { dest, instructions }
}

/// How many virtual registers a whole block's opcode trees allocate.
pub open spec fn block_vregs(ops: Seq<Box<Opcode>>) -> nat
    decreases ops.len(),
{
    if ops.len() == 0 {
        0
    } else {
        block_vregs(ops.drop_last()) + num_vregs(*ops.last())
    }
}

/// A prefix of a block allocates no more registers than the whole
/// block.
pub proof fn lemma_block_vregs_prefix(ops: Seq<Box<Opcode>>, m: int)
    requires
        0 <= m <= ops.len(),
    ensures
        block_vregs(ops.take(m)) <= block_vregs(ops),
    decreases ops.len(),
{
    if m == ops.len() {
        assert(ops.take(m) =~= ops);
    } else {
        assert(ops.drop_last().take(m) =~= ops.take(m));
        lemma_block_vregs_prefix(ops.drop_last(), m);
    }
}

/// The instructions selected for every opcode tree of a block, in
/// order, and the register counter afterwards: one register pool spans
/// the whole block, so virtual registers are never reused across its
/// opcode trees.
pub open spec fn spec_gen_from_block(ops: Seq<Box<Opcode>>, ctr: nat) -> (Seq<Instruction>, nat)
    decreases ops.len(),
{
    if ops.len() == 0 {
        (Seq::<Instruction>::empty(), ctr)
    } else {
        let (pre, c1) = spec_gen_from_block(ops.drop_last(), ctr);
        let (insts, _, c2) = spec_select(*ops.last(), c1);
        (pre + insts, c2)
    }
}

/// Selecting a whole block advances the counter by exactly the block's
/// register demand.
pub proof fn lemma_gen_from_block_count(ops: Seq<Box<Opcode>>, ctr: nat)
    ensures
        spec_gen_from_block(ops, ctr).1 == ctr + block_vregs(ops),
    decreases ops.len(),
{
    if ops.len() > 0 {
        lemma_gen_from_block_count(ops.drop_last(), ctr);
        lemma_select_count(*ops.last(), spec_gen_from_block(ops.drop_last(), ctr).1);
    }
}

/// A block the selector accepts: every opcode tree is arithmetic-only.
pub open spec fn block_selectable(b: ir::Block) -> bool {
    forall|k: int| 0 <= k < b.opcodes@.len() ==> arith_only(*(#[trigger] b.opcodes@[k]))
}

/// Select instructions for every opcode tree of one block, in order,
/// drawing from the one register pool of the whole lowering.
#[verifier::loop_isolation(false)]
pub fn gen_from_block(block: &ir::Block, vrp: &mut VirtualRegisterProvider) -> (r: InstructionList)
    requires
        block_selectable(*block),
        old(vrp).index + block_vregs(block.opcodes@) <= u32::MAX,
    ensures
        r@ == spec_gen_from_block(block.opcodes@, old(vrp).index as nat).0,
        final(vrp).index as nat == spec_gen_from_block(block.opcodes@, old(vrp).index as nat).1,
{
    let ghost c0 = old(vrp).index as nat;
    let mut instructions: InstructionList = Vec::new();
    let mut k: usize = 0;
    while k < block.opcodes.len()
        invariant
            k <= block.opcodes@.len(),
            (instructions@, vrp.index as nat) == spec_gen_from_block(
                block.opcodes@.take(k as int),
                c0,
            ),
        decreases block.opcodes@.len() - k,
    {
        proof {
            assert(block.opcodes@.take(k + 1).drop_last() =~= block.opcodes@.take(k as int));
            assert(block.opcodes@.take(k + 1).last() == block.opcodes@[k as int]);
            lemma_gen_from_block_count(block.opcodes@.take(k as int), c0);
            lemma_block_vregs_prefix(block.opcodes@, k + 1);
            assert(block_vregs(block.opcodes@.take(k + 1)) == block_vregs(
                block.opcodes@.take(k as int),
            ) + num_vregs(*block.opcodes@[k as int]));
        }
        let mut seqr = select_instructions(&block.opcodes[k], vrp);
        instructions.append(&mut seqr.instructions);
        k = k + 1;
    }
    proof {
        assert(block.opcodes@.take(block.opcodes@.len() as int) =~= block.opcodes@);
    }
    instructions
}

/// The instructions of all blocks of a function, in block order, with
/// the one register counter threaded on from block to block.
pub open spec fn spec_gen_blocks(blocks: Seq<ir::Block>, ctr: nat) -> (Seq<Instruction>, nat)
    decreases blocks.len(),
{
    if blocks.len() == 0 {
        (Seq::<Instruction>::empty(), ctr)
    } else {
        let (pre, c1) = spec_gen_blocks(blocks.drop_last(), ctr);
        let (insts, c2) = spec_gen_from_block(blocks.last().opcodes@, c1);
        (pre + insts, c2)
    }
}

/// How many virtual registers a whole function allocates.
pub open spec fn fn_vregs(blocks: Seq<ir::Block>) -> nat
    decreases blocks.len(),
{
    if blocks.len() == 0 {
        0
    } else {
        fn_vregs(blocks.drop_last()) + block_vregs(blocks.last().opcodes@)
    }
}

pub proof fn lemma_fn_vregs_prefix(blocks: Seq<ir::Block>, m: int)
    requires
        0 <= m <= blocks.len(),
    ensures
        fn_vregs(blocks.take(m)) <= fn_vregs(blocks),
    decreases blocks.len(),
{
    if m == blocks.len() {
        assert(blocks.take(m) =~= blocks);
    } else {
        assert(blocks.drop_last().take(m) =~= blocks.take(m));
        lemma_fn_vregs_prefix(blocks.drop_last(), m);
    }
}

/// Selecting a whole function advances the counter by exactly its
/// register demand.
pub proof fn lemma_gen_blocks_count(blocks: Seq<ir::Block>, ctr: nat)
    ensures
        spec_gen_blocks(blocks, ctr).1 == ctr + fn_vregs(blocks),
    decreases blocks.len(),
{
    if blocks.len() > 0 {
        lemma_gen_blocks_count(blocks.drop_last(), ctr);
        lemma_gen_from_block_count(
            blocks.last().opcodes@,
            spec_gen_blocks(blocks.drop_last(), ctr).1,
        );
    }
}

/// Select instructions for a whole function: its label, then each
/// block's instructions in order, all drawing from one register pool
/// numbered from zero.
#[verifier::loop_isolation(false)]
pub fn gen_instructions(function: &ir::Function) -> (r: InstructionList)
    requires
        forall|k: int| 0 <= k < function.ir@.len() ==> block_selectable(#[trigger] function.ir@[k]),
        fn_vregs(function.ir@) <= u32::MAX,
    ensures
        r@.len() >= 1,
        r@[0] matches Instruction::LABEL(s) && s@ == function.name@,
        r@.skip(1) == spec_gen_blocks(function.ir@, 0).0,
{
    let mut instructions: InstructionList = Vec::new();
    instructions.push(Instruction::LABEL(function.name.clone()));
    let mut vrp = VirtualRegisterProvider::new();
    let mut k: usize = 0;
    while k < function.ir.len()
        invariant
            k <= function.ir@.len(),
            instructions@.len() >= 1,
            instructions@[0] matches Instruction::LABEL(s) && s@ == function.name@,
            (instructions@.skip(1), vrp.index as nat) == spec_gen_blocks(
                function.ir@.take(k as int),
                0,
            ),
        decreases function.ir@.len() - k,
    {
        proof {
            assert(function.ir@.take(k + 1).drop_last() =~= function.ir@.take(k as int));
            assert(function.ir@.take(k + 1).last() == function.ir@[k as int]);
            lemma_gen_blocks_count(function.ir@.take(k as int), 0);
            lemma_fn_vregs_prefix(function.ir@, k + 1);
            assert(fn_vregs(function.ir@.take(k + 1)) == fn_vregs(function.ir@.take(k as int))
                + block_vregs(function.ir@[k as int].opcodes@));
        }
        let mut insts = gen_from_block(&function.ir[k], &mut vrp);
        instructions.append(&mut insts);
        proof {
            assert(instructions@.skip(1) =~= spec_gen_blocks(function.ir@.take(k + 1), 0).0);
        }
        k = k + 1;
    }
    proof {
        assert(function.ir@.take(function.ir@.len() as int) =~= function.ir@);
    }
    instructions
}

} // verus!
