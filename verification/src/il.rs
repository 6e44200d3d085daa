//! The basic-block intermediate representation: opcodes over
//! single-assignment values, block terminators, and the `Body` that a
//! compilation unit lowers to.

use vstd::prelude::*;
use crate::value::{Value, ValueTable};
use crate::utils::Const;

verus! {

/// Arithmetic opcode kinds.
#[derive(Debug, Clone, Copy, PartialEq, Eq, Structural)]
pub enum Arith2 {
    Add,
    Sub,
    Mul,
    Div,
}

/// Comparison opcode kinds.
#[derive(Debug, Clone, Copy, PartialEq, Eq, Structural)]
pub enum Compare {
    LT,
    LE,
    EQ,
    GT,
    GE,
}

/// One straight-line instruction of a basic block. The first value of
/// each variant is the destination.
#[derive(Debug, Clone, Copy, PartialEq, Eq, Structural)]
pub enum OpCode {
    Arith2(Arith2, Value, Value, Value),
    Compare(Compare, Value, Value, Value),
    Copy(Value, Value),
    SetConst(Value, Const),
}

/// Identifier of a basic block, unique within its `Body`.
#[derive(Debug, Clone, Copy, PartialEq, Eq, Structural)]
pub struct BasicBlockId(pub i32);

/// How control leaves a basic block. Only `Fallthrough` is produced by
/// the current generator; the other variants exist for control flow
/// that is not lowered yet.
#[derive(Debug, Clone, PartialEq)]
pub enum Terminator {
    Branch(BasicBlockId, Compare, Value, Value, Vec<Value>),
    Jump(BasicBlockId, Vec<Value>),
    Fallthrough,
    Return,
}

/// Mathematical mirror of `Terminator`.
pub enum SpecTerminator {
    Branch(BasicBlockId, Compare, Value, Value, Seq<Value>),
    Jump(BasicBlockId, Seq<Value>),
    Fallthrough,
    Return,
}

impl View for Terminator {
    type V = SpecTerminator;

    open spec fn view(&self) -> SpecTerminator {
        match self {
            Terminator::Branch(t, c, l, r, args) => SpecTerminator::Branch(*t, *c, *l, *r, args@),
            Terminator::Jump(t, args) => SpecTerminator::Jump(*t, args@),
            Terminator::Fallthrough => SpecTerminator::Fallthrough,
            Terminator::Return => SpecTerminator::Return,
        }
    }
}

/// A basic block: the values it assumes already defined (`argVals`,
/// acting as phi-node inputs), its opcodes, its terminator, and the
/// values it hands to whatever consumes it next (`nextVals`).
#[allow(non_snake_case)]
#[derive(Debug, Clone, PartialEq)]
pub struct BasicBlock {
    pub id: BasicBlockId,
    pub argVals: Vec<Value>,
    pub opcodes: Vec<OpCode>,
    pub terminator: Terminator,
    pub nextVals: Vec<Value>,
}

/// Mathematical mirror of `BasicBlock`.
#[allow(non_snake_case)]
pub struct SpecBasicBlock {
    pub id: BasicBlockId,
    pub argVals: Seq<Value>,
    pub opcodes: Seq<OpCode>,
    pub terminator: SpecTerminator,
    pub nextVals: Seq<Value>,
}

impl View for BasicBlock {
    type V = SpecBasicBlock;

    open spec fn view(&self) -> SpecBasicBlock {
        SpecBasicBlock {
            id: self.id,
            argVals: self.argVals@,
            opcodes: self.opcodes@,
            terminator: self.terminator@,
            nextVals: self.nextVals@,
        }
    }
}

/// The destination value written by an opcode.
pub open spec fn opcode_dest(op: OpCode) -> Value {
    match op {
        OpCode::Arith2(_, d, _, _) => d,
        OpCode::Compare(_, d, _, _) => d,
        OpCode::Copy(d, _) => d,
        OpCode::SetConst(d, _) => d,
    }
}

/// The source values an opcode consumes.
pub open spec fn opcode_sources(op: OpCode) -> Seq<Value> {
    match op {
        OpCode::Arith2(_, _, l, r) => seq![l, r],
        OpCode::Compare(_, _, l, r) => seq![l, r],
        OpCode::Copy(_, s) => seq![s],
        OpCode::SetConst(_, _) => Seq::<Value>::empty(),
    }
}

/// The values a terminator consumes, including the arguments it hands
/// to its target block.
pub open spec fn terminator_sources(t: SpecTerminator) -> Seq<Value> {
    match t {
        SpecTerminator::Branch(_, _, l, r, args) => seq![l, r] + args,
        SpecTerminator::Jump(_, args) => args,
        SpecTerminator::Fallthrough => Seq::<Value>::empty(),
        SpecTerminator::Return => Seq::<Value>::empty(),
    }
}

/// A value is available at opcode position `k` of a block when it is an
/// entry value of the block or was produced by an earlier opcode.
pub open spec fn available_at(b: SpecBasicBlock, k: int, v: Value) -> bool {
    b.argVals.contains(v) || exists|j: int| 0 <= j < k && opcode_dest(#[trigger] b.opcodes[j]) == v
}

/// Define-before-use: every value consumed by an opcode or by the
/// terminator of the block is an entry value or was produced earlier in
/// the same block.
pub open spec fn block_wf(b: SpecBasicBlock) -> bool {
    &&& forall|k: int, s: int|
        0 <= k < b.opcodes.len() && 0 <= s < opcode_sources(b.opcodes[k]).len()
            ==> available_at(b, k, #[trigger] opcode_sources(b.opcodes[k])[s])
    &&& forall|s: int|
        0 <= s < terminator_sources(b.terminator).len()
            ==> available_at(b, b.opcodes.len() as int, #[trigger] terminator_sources(b.terminator)[s])
}

/// Mathematical mirror of `Body`.
pub struct SpecBody {
    pub code: Seq<SpecBasicBlock>,
    pub values: Seq<Value>,
}

/// All basic blocks of one compilation unit plus the value table that
/// owns their values.
#[derive(Debug, Clone, PartialEq)]
pub struct Body {
    pub code: Vec<BasicBlock>,
    pub values: ValueTable,
}

impl View for Body {
    type V = SpecBody;

    open spec fn view(&self) -> SpecBody {
        SpecBody { code: self.code@.map_values(|b: BasicBlock| b@), values: self.values@ }
    }
}

impl Body {
    pub fn new() -> (b: Body)
        ensures
            b@.code =~= Seq::<SpecBasicBlock>::empty(),
            b@.values =~= Seq::<Value>::empty(),
            b.values.wf(),
    {
        Body { code: Vec::new(), values: ValueTable::new() }
    }
}

} // verus!
