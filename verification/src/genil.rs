//! Lowering of the typed AST to the basic-block intermediate
//! representation. Each `Let` or `Assignment` statement becomes exactly
//! one basic block; the whole lowering is a pure function of the input
//! program, stated here by spec functions that the executable generator
//! is proved to follow.

use vstd::prelude::*;
use vstd::string::*;
use crate::ast;
use crate::ast::{BareExpression, BareStatement, BinaryOperator, Expression, Program, Statement};
use crate::il;
use crate::il::{
    block_wf, opcode_dest, opcode_sources, Arith2, BasicBlock, BasicBlockId, Body, OpCode,
    SpecBasicBlock, SpecTerminator, Terminator,
};
use crate::symtab;
use crate::symtab::{
    frame_define, frame_index, lookup, lookup_depth, spec_revalue, table_bounded, table_live,
    table_set_value, SpecFrame, SpecSymtabError, SymbolTable,
};
use crate::value::{Value, ValueTable};

verus! {

/// Failures of IL generation.
#[derive(Debug, Clone, PartialEq)]
pub enum Error {
    /// A symbol-table operation failed (an undefined symbol, or a scope
    /// underflow surfaced from below).
    BadSymbolUse(symtab::Error),
    /// An identifier was read that is declared but was never assigned a
    /// value.
    ValuelessSymbol(String),
    /// A statement shape this generator does not lower.
    MalformedProgram,
}

/// Mathematical mirror of `Error`.
pub enum SpecGenError {
    BadSymbolUse(SpecSymtabError),
    ValuelessSymbol(Seq<char>),
    MalformedProgram,
}

impl View for Error {
    type V = SpecGenError;

    open spec fn view(&self) -> SpecGenError {
        match self {
            Error::BadSymbolUse(e) => SpecGenError::BadSymbolUse(e@),
            Error::ValuelessSymbol(s) => SpecGenError::ValuelessSymbol(s@),
            Error::MalformedProgram => SpecGenError::MalformedProgram,
        }
    }
}

impl Error {
    /// A short description of the error kind.
    pub fn description(&self) -> (r: String)
        ensures
            (self is BadSymbolUse ==> r@ == "Improper use of a symbol"@),
            (self is ValuelessSymbol ==> r@ == "Symbol has no value associated with it"@),
            (self is MalformedProgram ==> r@ == "AST is malformed."@),
    {
        match self {
            Error::BadSymbolUse(_) => String::from_str("Improper use of a symbol"),
            Error::ValuelessSymbol(_) => String::from_str("Symbol has no value associated with it"),
            Error::MalformedProgram => String::from_str("AST is malformed."),
        }
    }

    /// The wrapped symbol-table error, when there is one.
    pub fn cause(&self) -> (r: Option<&symtab::Error>)
        ensures
            match self {
                Error::BadSymbolUse(e) => r matches Some(c) && *c == *e,
                _ => r is None,
            },
    {
        match self {
            Error::BadSymbolUse(e) => Some(e),
            _ => None,
        }
    }
}

/// The IR arithmetic kind of a surface operator (one-to-one).
pub open spec fn spec_to_il_op(op: BinaryOperator) -> Arith2 {
    match op {
        BinaryOperator::Add => Arith2::Add,
        BinaryOperator::Sub => Arith2::Sub,
        BinaryOperator::Mul => Arith2::Mul,
        BinaryOperator::Div => Arith2::Div,
    }
}

/// Lowering of one expression against a symbol table `t`, with `next`
/// the next unused value identifier: the opcodes emitted, the value
/// holding the result, and the next unused identifier afterwards. An
/// error carries the next unused identifier at the point of failure,
/// so a failed identifier lookup allocates nothing.
///
/// An identifier emits no opcodes and yields the symbol's current
/// value; a literal allocates a fresh value and sets it; a binary
/// operation emits the left operand's opcodes, then the right
/// operand's, then one arithmetic opcode into a fresh value.
pub open spec fn spec_from_expression(
    e: Expression,
    t: Seq<SpecFrame>,
    next: nat,
) -> Result<(Seq<OpCode>, Value, nat), (SpecGenError, nat)>
    decreases e,
{
    match e.item.item {
        BareExpression::Identifier(s) => match lookup(t, s@) {
            Some(entry) => match entry.value {
                Some(v) => Ok((Seq::<OpCode>::empty(), v, next)),
                None => Err((SpecGenError::ValuelessSymbol(s@), next)),
            },
            None => Err((SpecGenError::BadSymbolUse(SpecSymtabError::UndefinedSymbol(s@)), next)),
        },
        BareExpression::Literal(c) => Ok((
            seq![OpCode::SetConst(Value { id: next as usize }, c)],
            Value { id: next as usize },
            next + 1,
        )),
        BareExpression::BinaryOp(op, lhs, rhs) => match spec_from_expression(*lhs, t, next) {
            Err(e1) => Err(e1),
            Ok((lops, lv, n1)) => match spec_from_expression(*rhs, t, n1) {
                Err(e2) => Err(e2),
                Ok((rops, rv, n2)) => Ok((
                    lops + rops + seq![
                        OpCode::Arith2(spec_to_il_op(op), Value { id: n2 as usize }, lv, rv)
                    ],
                    Value { id: n2 as usize },
                    n2 + 1,
                )),
            },
        },
    }
}

/// Lowering of one statement: the basic block it becomes, together with
/// the symbol table, next value identifier and next block identifier
/// afterwards.
///
/// `Let` first gives every live symbol a fresh value; the live values
/// then become the block's entry values. `Assignment` keeps the current
/// live values as entry values and requires the symbol to exist. Both
/// record the live values after binding as the block's exit values and
/// close the block with `Fallthrough`. Any other statement shape is
/// `MalformedProgram`.
/// An error carries the symbol table and value counter at the point of
/// failure: a statement shape the generator does not lower leaves both
/// tables untouched.
pub open spec fn spec_from_statment(
    stmt: Statement,
    t: Seq<SpecFrame>,
    next: nat,
    ctr: int,
) -> Result<(SpecBasicBlock, Seq<SpecFrame>, nat, int), (SpecGenError, Seq<SpecFrame>, nat)> {
    match stmt.item {
        BareStatement::Let(var, expr) => {
            let (t1, n1) = spec_revalue(t, next);
            let args = table_live(t1);
            match spec_from_expression(expr, t1, n1) {
                Err((e, n)) => Err((e, t1, n)),
                Ok((ops, v, n2)) => {
                    let t2 = t1.update(t1.len() - 1, frame_define(t1.last(), var.item@, expr.item.t));
                    let t3 = table_set_value(t2, var.item@, v);
                    Ok((
                        SpecBasicBlock {
                            id: BasicBlockId(ctr as i32),
                            argVals: args,
                            opcodes: ops,
                            terminator: SpecTerminator::Fallthrough,
                            nextVals: table_live(t3),
                        },
                        t3,
                        n2,
                        ctr + 1,
                    ))
                },
            }
        },
        BareStatement::Assignment(var, expr) => {
            let args = table_live(t);
            match spec_from_expression(expr, t, next) {
                Err((e, n)) => Err((e, t, n)),
                Ok((ops, v, n2)) => {
                    if lookup(t, var.item.item@) is Some {
                        let t2 = table_set_value(t, var.item.item@, v);
                        Ok((
                            SpecBasicBlock {
                                id: BasicBlockId(ctr as i32),
                                argVals: args,
                                opcodes: ops,
                                terminator: SpecTerminator::Fallthrough,
                                nextVals: table_live(t2),
                            },
                            t2,
                            n2,
                            ctr + 1,
                        ))
                    } else {
                        Err((
                            SpecGenError::BadSymbolUse(
                                SpecSymtabError::UndefinedSymbol(var.item.item@),
                            ),
                            t,
                            n2,
                        ))
                    }
                },
            }
        },
        _ => Err((SpecGenError::MalformedProgram, t, next)),
    }
}

/// Lowering of a statement list, one block per statement, threading the
/// table and both counters; the first error aborts the whole list.
pub open spec fn spec_from_statment_list(
    stmts: Seq<Statement>,
    t: Seq<SpecFrame>,
    next: nat,
    ctr: int,
) -> Result<(Seq<SpecBasicBlock>, Seq<SpecFrame>, nat, int), (SpecGenError, Seq<SpecFrame>, nat)>
    decreases stmts.len(),
{
    if stmts.len() == 0 {
        Ok((Seq::<SpecBasicBlock>::empty(), t, next, ctr))
    } else {
        match spec_from_statment_list(stmts.drop_last(), t, next, ctr) {
            Err(e) => Err(e),
            Ok((blks, t1, n1, c1)) => match spec_from_statment(stmts.last(), t1, n1, c1) {
                Err(e) => Err(e),
                Ok((b, t2, n2, c2)) => Ok((blks.push(b), t2, n2, c2)),
            },
        }
    }
}

/// The empty symbol table a compilation unit starts from: one empty
/// root frame.
pub open spec fn initial_table() -> Seq<SpecFrame> {
    seq![Seq::<(Seq<char>, symtab::SymbolTableEntry)>::empty()]
}

/// Whole-unit lowering: fresh tables, block identifiers from zero, no
/// partial body on error.
pub open spec fn spec_gen_il(p: Program) -> Result<il::SpecBody, SpecGenError> {
    match spec_from_statment_list(p.body@, initial_table(), 0, 0) {
        Err((e, _, _)) => Err(e),
        Ok((blks, t, n, c)) => Ok(il::SpecBody {
            code: blks,
            values: Seq::new(n, |i: int| Value { id: i as usize }),
        }),
    }
}

/// The owned state of one compilation unit's lowering: its value table,
/// its symbol table, and the next unused block identifier.
pub struct IlGenerator {
    pub values: ValueTable,
    pub symbol_table: SymbolTable,
    pub block_counter: i32,
}

impl IlGenerator {
    /// Both tables well formed.
    pub open spec fn wf(&self) -> bool {
        self.values.wf() && self.symbol_table.wf()
    }

    pub fn new() -> (g: IlGenerator)
        ensures
            g.wf(),
            g.values@ =~= Seq::<Value>::empty(),
            g.symbol_table@ == initial_table(),
            g.block_counter == 0,
    {
        IlGenerator {
            values: ValueTable::new(),
            symbol_table: SymbolTable::new(),
            block_counter: 0,
        }
    }

    /// Close a block over the given pieces, stamping it with the next
    /// unused block identifier.
    pub fn new_block(
        &mut self,
        in_vals: Vec<Value>,
        opcodes: Vec<OpCode>,
        terminator: Terminator,
        out_vals: Vec<Value>,
    ) -> (b: BasicBlock)
        requires
            old(self).block_counter < i32::MAX,
        ensures
            final(self).block_counter == old(self).block_counter + 1,
            final(self).values == old(self).values,
            final(self).symbol_table == old(self).symbol_table,
            b@ == (SpecBasicBlock {
                id: BasicBlockId(old(self).block_counter),
                argVals: in_vals@,
                opcodes: opcodes@,
                terminator: terminator@,
                nextVals: out_vals@,
            }),
    {
        let id = self.block_counter;
        self.block_counter = self.block_counter + 1;
        BasicBlock { id: BasicBlockId(id), argVals: in_vals, opcodes, terminator, nextVals: out_vals }
    }

    /// The IR arithmetic kind of a surface operator.
    pub fn to_il_op(&self, op: BinaryOperator) -> (r: Arith2)
        ensures
            r == spec_to_il_op(op),
    {
        match op {
            BinaryOperator::Add => Arith2::Add,
            BinaryOperator::Sub => Arith2::Sub,
            BinaryOperator::Mul => Arith2::Mul,
            BinaryOperator::Div => Arith2::Div,
        }
    }

    /// Assigns new values to all live symbols.
    pub fn revalue_live_symbols(&mut self)
        requires
            old(self).wf(),
        ensures
            final(self).wf(),
            final(self).block_counter == old(self).block_counter,
            final(self).symbol_table@
                == spec_revalue(old(self).symbol_table@, old(self).values.next_id()).0,
            final(self).values.next_id()
                == spec_revalue(old(self).symbol_table@, old(self).values.next_id()).1,
    {
        self.symbol_table.revalue_live(&mut self.values);
    }

    /// Lower one expression bottom-up, emitting opcodes into fresh
    /// values; the symbol table and block counter are untouched.
    pub fn from_expression(&mut self, expr: &Expression) -> (r: Result<(Vec<OpCode>, Value), Error>)
        requires
            old(self).wf(),
        ensures
            final(self).wf(),
            final(self).symbol_table == old(self).symbol_table,
            final(self).block_counter == old(self).block_counter,
            (match spec_from_expression(*expr, old(self).symbol_table@, old(self).values.next_id()) {
                Ok((ops, v, n)) => r matches Ok(p) && p.0@ == ops && p.1 == v
                    && final(self).values.next_id() == n,
                Err((e, n)) => r matches Err(err) && err@ == e
                    && final(self).values.next_id() == n,
            }),
        decreases *expr,
    {
        match expr.unwrap_pos().unwrap_type() {
            BareExpression::Identifier(s) => {
                match self.symbol_table.get_value(s.as_str()) {
                    Ok(Some(v)) => Ok((Vec::new(), v)),
                    Ok(None) => Err(Error::ValuelessSymbol(s.clone())),
                    Err(e) => Err(Error::BadSymbolUse(e)),
                }
            },
            BareExpression::Literal(c) => {
                let v = self.values.new_value();
                let mut ops: Vec<OpCode> = Vec::new();
                ops.push(OpCode::SetConst(v, *c));
                Ok((ops, v))
            },
            BareExpression::BinaryOp(op, lhs, rhs) => {
                let (mut lops, l) = match self.from_expression(lhs) {
                    Ok(p) => p,
                    Err(e) => {
                        return Err(e);
                    },
                };
                let (mut rops, r) = match self.from_expression(rhs) {
                    Ok(p) => p,
                    Err(e) => {
                        return Err(e);
                    },
                };
                let mut ops: Vec<OpCode> = Vec::new();
                ops.append(&mut lops);
                ops.append(&mut rops);
                let val = self.values.new_value();
                ops.push(OpCode::Arith2(self.to_il_op(*op), val, l, r));
                Ok((ops, val))
            },
        }
    }

    /// Lower one statement to exactly one basic block. `Let` gives all
    /// live symbols fresh values first (the block's entry values), then
    /// defines and binds the symbol; `Assignment` binds an existing
    /// symbol; any other statement is `MalformedProgram`.
    pub fn from_statment(&mut self, statement: &Statement) -> (r: Result<Vec<BasicBlock>, Error>)
        requires
            old(self).wf(),
            old(self).block_counter < i32::MAX,
        ensures
            final(self).wf(),
            (match spec_from_statment(
                *statement,
                old(self).symbol_table@,
                old(self).values.next_id(),
                old(self).block_counter as int,
            ) {
                Ok((blk, t2, n2, c2)) => r matches Ok(blocks) && blocks@.len() == 1
                    && blocks@[0]@ == blk
                    && final(self).symbol_table@ == t2
                    && final(self).values.next_id() == n2
                    && final(self).block_counter as int == c2,
                Err((e, t2, n2)) => r matches Err(err) && err@ == e
                    && final(self).symbol_table@ == t2
                    && final(self).values.next_id() == n2
                    && final(self).block_counter == old(self).block_counter,
            }),
    {
        match statement.unwrap_pos() {
            BareStatement::Let(var, expr) => {
                self.revalue_live_symbols();
                let in_values = self.symbol_table.get_live_values();
                let ty = expr.unwrap_pos().get_type();
                let (ops, val) = match self.from_expression(expr) {
                    Ok(p) => p,
                    Err(e) => {
                        return Err(e);
                    },
                };
                let ghost t1 = self.symbol_table@;
                match self.symbol_table.define_symbol(var.item.clone(), ty) {
                    Ok(()) => {},
                    Err(e) => {
                        return Err(Error::BadSymbolUse(e));
                    },
                }
                proof {
                    crate::symtab::lemma_define_then_lookup(t1, var.item@, ty);
                }
                match self.symbol_table.set_value(var.item.as_str(), val) {
                    Ok(()) => {},
                    Err(e) => {
                        proof {
                            assert(false);
                        }
                        return Err(Error::BadSymbolUse(e));
                    },
                }
                let out_values = self.symbol_table.get_live_values();
                let blk = self.new_block(in_values, ops, Terminator::Fallthrough, out_values);
                let mut blocks: Vec<BasicBlock> = Vec::new();
                blocks.push(blk);
                Ok(blocks)
            },
            BareStatement::Assignment(var, expr) => {
                let in_values = self.symbol_table.get_live_values();
                let (ops, val) = match self.from_expression(expr) {
                    Ok(p) => p,
                    Err(e) => {
                        return Err(e);
                    },
                };
                match self.symbol_table.set_value(var.item.item.as_str(), val) {
                    Ok(()) => {},
                    Err(e) => {
                        return Err(Error::BadSymbolUse(e));
                    },
                }
                let out_values = self.symbol_table.get_live_values();
                let blk = self.new_block(in_values, ops, Terminator::Fallthrough, out_values);
                let mut blocks: Vec<BasicBlock> = Vec::new();
                blocks.push(blk);
                Ok(blocks)
            },
            _ => Err(Error::MalformedProgram),
        }
    }

    /// Lower a statement list in order, one block per statement; the
    /// first error aborts the whole list.
    #[verifier::loop_isolation(false)]
    pub fn from_statment_list(&mut self, statements: &ast::StatementList) -> (r: Result<
        Vec<BasicBlock>,
        Error,
    >)
        requires
            old(self).wf(),
            old(self).block_counter + statements@.len() <= i32::MAX,
        ensures
            final(self).wf(),
            (match spec_from_statment_list(
                statements@,
                old(self).symbol_table@,
                old(self).values.next_id(),
                old(self).block_counter as int,
            ) {
                Ok((blks, t2, n2, c2)) => r matches Ok(blocks)
                    && blocks@.map_values(|b: BasicBlock| b@) == blks
                    && final(self).symbol_table@ == t2
                    && final(self).values.next_id() == n2
                    && final(self).block_counter as int == c2,
                Err((e, t2, n2)) => r matches Err(err) && err@ == e
                    && final(self).symbol_table@ == t2
                    && final(self).values.next_id() == n2,
            }),
    {
        let ghost t0 = old(self).symbol_table@;
        let ghost n0 = old(self).values.next_id();
        let ghost c0 = old(self).block_counter as int;
        let mut blocks: Vec<BasicBlock> = Vec::new();
        proof {
            assert(statements@.take(0) =~= Seq::<Statement>::empty());
            assert(blocks@.map_values(|b: BasicBlock| b@) =~= Seq::<SpecBasicBlock>::empty());
        }
        let mut i: usize = 0;
        while i < statements.len()
            invariant
                self.wf(),
                i <= statements@.len(),
                self.block_counter == c0 + i,
                spec_from_statment_list(statements@.take(i as int), t0, n0, c0) == Ok::<_, (
                    SpecGenError,
                    Seq<SpecFrame>,
                    nat,
                )>((
                    blocks@.map_values(|b: BasicBlock| b@),
                    self.symbol_table@,
                    self.values.next_id(),
                    self.block_counter as int,
                )),
            decreases statements@.len() - i,
        {
            proof {
                assert(statements@.take(i + 1).drop_last() =~= statements@.take(i as int));
                assert(statements@.take(i + 1).last() == statements@[i as int]);
            }
            let mut nb = match self.from_statment(&statements[i]) {
                Ok(b) => b,
                Err(e) => {
                    proof {
                        lemma_list_err_prefix(statements@, t0, n0, c0, i + 1);
                    }
                    return Err(e);
                },
            };
            blocks.append(&mut nb);
            proof {
                assert(blocks@.map_values(|b: BasicBlock| b@)
                    =~= spec_from_statment_list(statements@.take(i + 1), t0, n0, c0)->Ok_0.0);
            }
            i = i + 1;
        }
        proof {
            assert(statements@.take(statements@.len() as int) =~= statements@);
        }
        Ok(blocks)
    }
}

/// Once some prefix of the statement list fails, the whole list fails
/// with that same error.
pub proof fn lemma_list_err_prefix(
    stmts: Seq<Statement>,
    t: Seq<SpecFrame>,
    next: nat,
    ctr: int,
    m: int,
)
    requires
        0 <= m <= stmts.len(),
        spec_from_statment_list(stmts.take(m), t, next, ctr) is Err,
    ensures
        spec_from_statment_list(stmts, t, next, ctr)
            == spec_from_statment_list(stmts.take(m), t, next, ctr),
    decreases stmts.len(),
{
    if m == stmts.len() {
        assert(stmts.take(m) =~= stmts);
    } else {
        assert(stmts.drop_last().take(m) =~= stmts.take(m));
        lemma_list_err_prefix(stmts.drop_last(), t, next, ctr, m);
    }
}

/// Whole-unit lowering: fresh empty tables, block identifiers counted
/// from zero; the first error anywhere aborts generation and no partial
/// body is returned.
pub fn gen_il(program: &Program) -> (r: Result<Body, Error>)
    requires
        program.body@.len() <= i32::MAX,
    ensures
        (match spec_gen_il(*program) {
            Ok(sb) => r matches Ok(body) && body@ == sb && body.values.wf(),
            Err(e) => r matches Err(err) && err@ == e,
        }),
{
    let mut il_generator = IlGenerator::new();
    let code = match il_generator.from_statment_list(&program.body) {
        Ok(c) => c,
        Err(e) => {
            return Err(e);
        },
    };
    let body = Body { code, values: il_generator.values };
    proof {
        let n = body.values.next_id();
        assert(body.values@ =~= Seq::new(n, |i: int| Value { id: i as usize }));
    }
    Ok(body)
}


/// Running IL generation twice on the same AST yields structurally
/// identical bodies: by `gen_il`'s contract each result equals
/// `spec_gen_il` of the program, a pure function of the program alone.
pub proof fn lemma_gen_il_deterministic(p: &Program, b1: il::SpecBody, b2: il::SpecBody)
    requires
        Ok::<il::SpecBody, SpecGenError>(b1) == spec_gen_il(*p),
        Ok::<il::SpecBody, SpecGenError>(b2) == spec_gen_il(*p),
    ensures
        b1 == b2,
{
}

/// Every source of every opcode is a given live value or the
/// destination of an earlier opcode of the same list.
pub open spec fn sources_ok(ops: Seq<OpCode>, live: Seq<Value>) -> bool {
    forall|k: int, s: int|
        0 <= k < ops.len() && 0 <= s < opcode_sources(ops[k]).len() ==> {
            let src = #[trigger] opcode_sources(ops[k])[s];
            live.contains(src) || exists|j: int|
                0 <= j < k && opcode_dest(#[trigger] ops[j]) == src
        }
}

/// The result value of a lowered expression is a live value or the
/// destination of one of its opcodes.
pub open spec fn result_ok(ops: Seq<OpCode>, live: Seq<Value>, v: Value) -> bool {
    live.contains(v) || exists|j: int| 0 <= j < ops.len() && opcode_dest(#[trigger] ops[j]) == v
}

/// Expression lowering consumes only values of live symbols or values
/// produced earlier in its own opcode list, and yields a result it
/// either read from a live symbol or produced itself.
pub proof fn lemma_expr_sources(e: Expression, t: Seq<SpecFrame>, next: nat)
    ensures
        match spec_from_expression(e, t, next) {
            Ok((ops, v, n2)) => {
                &&& sources_ok(ops, table_live(t))
                &&& result_ok(ops, table_live(t), v)
            },
            Err(_) => true,
        },
    decreases e,
{
    match e.item.item {
        BareExpression::Identifier(s) => match lookup(t, s@) {
            Some(entry) => match entry.value {
                Some(v) => {
                    let d = lookup_depth(t, s@);
                    crate::symtab::lemma_lookup_depth_props(t, s@);
                    let i = frame_index(t[d], s@);
                    crate::symtab::lemma_frame_index_props(t[d], s@);
                    crate::symtab::lemma_frame_live_contains(t[d], i, v);
                    crate::symtab::lemma_table_live_frame(t, d, v);
                },
                None => {},
            },
            None => {},
        },
        BareExpression::Literal(c) => {
            let ops = seq![OpCode::SetConst(Value { id: next as usize }, c)];
            assert(opcode_dest(ops[0]) == Value { id: next as usize });
        },
        BareExpression::BinaryOp(op, lhs, rhs) => {
            lemma_expr_sources(*lhs, t, next);
            match spec_from_expression(*lhs, t, next) {
                Err(_) => {},
                Ok((lops, lv, n1)) => {
                    lemma_expr_sources(*rhs, t, n1);
                    match spec_from_expression(*rhs, t, n1) {
                        Err(_) => {},
                        Ok((rops, rv, n2)) => {
                    let arith = OpCode::Arith2(spec_to_il_op(op), Value { id: n2 as usize }, lv, rv);
                    let ops = lops + rops + seq![arith];
                    let live = table_live(t);
                    assert forall|k: int, sx: int|
                        0 <= k < ops.len() && 0 <= sx < opcode_sources(ops[k]).len() implies {
                            let src = #[trigger] opcode_sources(ops[k])[sx];
                            live.contains(src) || exists|j: int|
                                0 <= j < k && opcode_dest(#[trigger] ops[j]) == src
                        } by {
                        if k < lops.len() {
                            assert(ops[k] == lops[k]);
                            let src = opcode_sources(lops[k])[sx];
                            if !live.contains(src) {
                                let j = choose|j: int|
                                    0 <= j < k && opcode_dest(#[trigger] lops[j]) == src;
                                assert(ops[j] == lops[j]);
                                assert(opcode_dest(ops[j]) == src);
                            }
                        } else if k < lops.len() + rops.len() {
                            let k2 = k - lops.len();
                            assert(ops[k] == rops[k2]);
                            let src = opcode_sources(rops[k2])[sx];
                            if !live.contains(src) {
                                let j = choose|j: int|
                                    0 <= j < k2 && opcode_dest(#[trigger] rops[j]) == src;
                                assert(ops[lops.len() + j] == rops[j]);
                                assert(opcode_dest(ops[lops.len() + j]) == src);
                            }
                        } else {
                            assert(ops[k] == arith);
                            let src = opcode_sources(arith)[sx];
                            assert(src == lv || src == rv);
                            if src == lv && !live.contains(lv) {
                                let j = choose|j: int|
                                    0 <= j < lops.len() && opcode_dest(#[trigger] lops[j]) == lv;
                                assert(ops[j] == lops[j]);
                                assert(opcode_dest(ops[j]) == lv);
                            } else if src == rv && !live.contains(rv) {
                                let j = choose|j: int|
                                    0 <= j < rops.len() && opcode_dest(#[trigger] rops[j]) == rv;
                                assert(ops[lops.len() + j] == rops[j]);
                                assert(opcode_dest(ops[lops.len() + j]) == rv);
                            }
                        }
                    }
                            assert(opcode_dest(ops[ops.len() - 1]) == Value { id: n2 as usize });
                        },
                    }
                },
            }
        },
    }
}

/// Define-before-use for one lowered statement: in the block it
/// produces, every value consumed by an opcode or by the terminator is
/// an entry value or was produced earlier in the same block.
pub proof fn lemma_statement_block_wf(stmt: Statement, t: Seq<SpecFrame>, next: nat, ctr: int)
    ensures
        match spec_from_statment(stmt, t, next, ctr) {
            Ok((blk, t2, n2, c2)) => block_wf(blk),
            Err(_) => true,
        },
{
    match stmt.item {
        BareStatement::Let(var, expr) => {
            let (t1, n1) = spec_revalue(t, next);
            lemma_expr_sources(expr, t1, n1);
        },
        BareStatement::Assignment(var, expr) => {
            lemma_expr_sources(expr, t, next);
        },
        _ => {},
    }
}

proof fn lemma_list_blocks_wf(stmts: Seq<Statement>, t: Seq<SpecFrame>, next: nat, ctr: int)
    ensures
        match spec_from_statment_list(stmts, t, next, ctr) {
            Ok((blks, t2, n2, c2)) => forall|k: int|
                0 <= k < blks.len() ==> block_wf(#[trigger] blks[k]),
            Err(_) => true,
        },
    decreases stmts.len(),
{
    if stmts.len() > 0 {
        lemma_list_blocks_wf(stmts.drop_last(), t, next, ctr);
        match spec_from_statment_list(stmts.drop_last(), t, next, ctr) {
            Err(_) => {},
            Ok((blks, t1, n1, c1)) => {
                lemma_statement_block_wf(stmts.last(), t1, n1, c1);
            },
        }
    }
}

/// Define-before-use for a whole generated body: in every block, every
/// value consumed by its opcodes or terminator is in its entry values
/// or was produced by an earlier opcode of the same block.
pub proof fn lemma_gen_il_blocks_wf(p: Program)
    ensures
        match spec_gen_il(p) {
            Ok(sb) => forall|k: int| 0 <= k < sb.code.len() ==> block_wf(#[trigger] sb.code[k]),
            Err(_) => true,
        },
{
    lemma_list_blocks_wf(p.body@, initial_table(), 0, 0);
}


/// Destination identifiers strictly increase along an opcode list.
pub open spec fn dests_increasing(ops: Seq<OpCode>) -> bool {
    forall|k1: int, k2: int|
        0 <= k1 < k2 < ops.len() ==> opcode_dest(#[trigger] ops[k1]).id < opcode_dest(
            #[trigger] ops[k2],
        ).id
}

/// Every value a block mentions — entry values, opcode destinations and
/// sources, terminator sources, exit values — has an identifier below
/// `n`.
pub open spec fn block_values_lt(b: SpecBasicBlock, n: nat) -> bool {
    &&& forall|k: int| 0 <= k < b.argVals.len() ==> (#[trigger] b.argVals[k]).id < n
    &&& forall|k: int| 0 <= k < b.opcodes.len() ==> opcode_dest(#[trigger] b.opcodes[k]).id < n
    &&& forall|k: int, s: int|
        0 <= k < b.opcodes.len() && 0 <= s < opcode_sources(b.opcodes[k]).len()
            ==> (#[trigger] opcode_sources(b.opcodes[k])[s]).id < n
    &&& forall|s: int|
        0 <= s < il::terminator_sources(b.terminator).len()
            ==> (#[trigger] il::terminator_sources(b.terminator)[s]).id < n
    &&& forall|k: int| 0 <= k < b.nextVals.len() ==> (#[trigger] b.nextVals[k]).id < n
}

/// Expression lowering only moves the value counter forward.
pub proof fn lemma_expr_counter_monotone(e: Expression, t: Seq<SpecFrame>, next: nat)
    ensures
        match spec_from_expression(e, t, next) {
            Ok((_, _, n2)) => n2 >= next,
            Err((_, n)) => n >= next,
        },
    decreases e,
{
    match e.item.item {
        BareExpression::BinaryOp(op, lhs, rhs) => {
            lemma_expr_counter_monotone(*lhs, t, next);
            match spec_from_expression(*lhs, t, next) {
                Err(_) => {},
                Ok((_, _, n1)) => {
                    lemma_expr_counter_monotone(*rhs, t, n1);
                },
            }
        },
        _ => {},
    }
}

/// Against a table whose values were all issued before `next`,
/// expression lowering writes strictly increasing fresh identifiers in
/// the range it consumes, reads only identifiers below its final
/// counter, and yields such a result.
pub proof fn lemma_expr_bounds(e: Expression, t: Seq<SpecFrame>, next: nat)
    requires
        table_bounded(t, next),
        (match spec_from_expression(e, t, next) {
            Ok((_, _, n2)) => n2 <= usize::MAX,
            Err(_) => true,
        }),
    ensures
        match spec_from_expression(e, t, next) {
            Ok((ops, v, n2)) => {
                &&& next <= n2
                &&& dests_increasing(ops)
                &&& forall|k: int|
                    0 <= k < ops.len() ==> next <= opcode_dest(#[trigger] ops[k]).id < n2
                &&& forall|k: int, s: int|
                    0 <= k < ops.len() && 0 <= s < opcode_sources(ops[k]).len()
                        ==> (#[trigger] opcode_sources(ops[k])[s]).id < n2
                &&& v.id < n2
            },
            Err(_) => true,
        },
    decreases e,
{
    match e.item.item {
        BareExpression::Identifier(s) => {
            match lookup(t, s@) {
                Some(entry) => match entry.value {
                    Some(v) => {
                        let d = lookup_depth(t, s@);
                        crate::symtab::lemma_lookup_depth_props(t, s@);
                        let i = frame_index(t[d], s@);
                        crate::symtab::lemma_frame_index_props(t[d], s@);
                        assert(t[d][i].1.value == Some(v));
                    },
                    None => {},
                },
                None => {},
            }
        },
        BareExpression::Literal(_) => {},
        BareExpression::BinaryOp(op, lhs, rhs) => {
            lemma_expr_counter_monotone(*lhs, t, next);
            match spec_from_expression(*lhs, t, next) {
                Err(_) => {},
                Ok((lops, lv, n1)) => {
                    lemma_expr_counter_monotone(*rhs, t, n1);
                    match spec_from_expression(*rhs, t, n1) {
                        Err(_) => {},
                        Ok((rops, rv, n2)) => {
                            lemma_expr_bounds(*lhs, t, next);
                            crate::symtab::lemma_table_bounded_monotone(t, next, n1);
                            lemma_expr_bounds(*rhs, t, n1);
                            let arith = OpCode::Arith2(
                                spec_to_il_op(op),
                                Value { id: n2 as usize },
                                lv,
                                rv,
                            );
                            let ops = lops + rops + seq![arith];
                            assert forall|k: int| 0 <= k < ops.len() implies next <= opcode_dest(
                                #[trigger] ops[k],
                            ).id < n2 + 1 by {
                                if k < lops.len() {
                                    assert(ops[k] == lops[k]);
                                } else if k < lops.len() + rops.len() {
                                    assert(ops[k] == rops[k - lops.len()]);
                                } else {
                                    assert(ops[k] == arith);
                                }
                            }
                            assert forall|k1: int, k2: int|
                                0 <= k1 < k2 < ops.len() implies opcode_dest(
                                #[trigger] ops[k1],
                            ).id < opcode_dest(#[trigger] ops[k2]).id by {
                                if k1 < lops.len() {
                                    assert(ops[k1] == lops[k1]);
                                } else if k1 < lops.len() + rops.len() {
                                    assert(ops[k1] == rops[k1 - lops.len()]);
                                } else {
                                    assert(ops[k1] == arith);
                                }
                                if k2 < lops.len() {
                                    assert(ops[k2] == lops[k2]);
                                } else if k2 < lops.len() + rops.len() {
                                    assert(ops[k2] == rops[k2 - lops.len()]);
                                } else {
                                    assert(ops[k2] == arith);
                                }
                            }
                            assert forall|k: int, sx: int|
                                0 <= k < ops.len() && 0 <= sx < opcode_sources(ops[k]).len()
                                    implies (#[trigger] opcode_sources(ops[k])[sx]).id < n2
                                + 1 by {
                                if k < lops.len() {
                                    assert(ops[k] == lops[k]);
                                } else if k < lops.len() + rops.len() {
                                    assert(ops[k] == rops[k - lops.len()]);
                                } else {
                                    assert(ops[k] == arith);
                                    assert(opcode_sources(arith)[sx] == lv || opcode_sources(
                                        arith,
                                    )[sx] == rv);
                                }
                            }
                        },
                    }
                },
            }
        },
    }
}


/// Statement lowering only moves the value counter forward.
pub proof fn lemma_statement_counter_monotone(stmt: Statement, t: Seq<SpecFrame>, next: nat, ctr: int)
    ensures
        match spec_from_statment(stmt, t, next, ctr) {
            Ok((_, _, n2, _)) => n2 >= next,
            Err(_) => true,
        },
{
    match stmt.item {
        BareStatement::Let(var, expr) => {
            let (t1, n1) = spec_revalue(t, next);
            crate::symtab::lemma_revalue_monotone(t, next);
            lemma_expr_counter_monotone(expr, t1, n1);
        },
        BareStatement::Assignment(var, expr) => {
            lemma_expr_counter_monotone(expr, t, next);
        },
        _ => {},
    }
}

/// Against a bounded table, one lowered statement's block writes
/// strictly increasing fresh identifiers in the counter range it
/// consumes, mentions only identifiers below its final counter, and
/// leaves the table bounded by that counter.
pub proof fn lemma_statement_bounds(stmt: Statement, t: Seq<SpecFrame>, next: nat, ctr: int)
    requires
        table_bounded(t, next),
        t.len() >= 1,
        (match spec_from_statment(stmt, t, next, ctr) {
            Ok((_, _, n2, _)) => n2 <= usize::MAX,
            Err(_) => true,
        }),
    ensures
        match spec_from_statment(stmt, t, next, ctr) {
            Ok((blk, t2, n2, c2)) => {
                &&& next <= n2
                &&& t2.len() >= 1
                &&& table_bounded(t2, n2)
                &&& dests_increasing(blk.opcodes)
                &&& forall|k: int|
                    0 <= k < blk.opcodes.len() ==> next <= opcode_dest(#[trigger] blk.opcodes[k]).id
                        < n2
                &&& block_values_lt(blk, n2)
            },
            Err(_) => true,
        },
{
    match stmt.item {
        BareStatement::Let(var, expr) => {
            let (t1, n1) = spec_revalue(t, next);
            crate::symtab::lemma_revalue_monotone(t, next);
            match spec_from_expression(expr, t1, n1) {
                Err(_) => {},
                Ok((ops, v, n2)) => {
                    lemma_expr_counter_monotone(expr, t1, n1);
                    crate::symtab::lemma_revalue_bounded(t, next, n1);
                    lemma_expr_bounds(expr, t1, n1);
                    crate::symtab::lemma_table_live_bounded(t1, n1);
                    crate::symtab::lemma_revalue_len(t, next);
                    let t2 = t1.update(t1.len() - 1, frame_define(t1.last(), var.item@, expr.item.t));
                    crate::symtab::lemma_table_bounded_monotone(t1, n1, n2);
                    crate::symtab::lemma_define_bounded(t1, var.item@, expr.item.t, n2);
                    crate::symtab::lemma_define_then_lookup(t1, var.item@, expr.item.t);
                    crate::symtab::lemma_set_value_bounded(t2, var.item@, v, n2);
                    crate::symtab::lemma_lookup_depth_props(t2, var.item@);
                    let t3 = table_set_value(t2, var.item@, v);
                    crate::symtab::lemma_table_live_bounded(t3, n2);
                },
            }
        },
        BareStatement::Assignment(var, expr) => {
            match spec_from_expression(expr, t, next) {
                Err(_) => {},
                Ok((ops, v, n2)) => {
                    lemma_expr_counter_monotone(expr, t, next);
                    if lookup(t, var.item.item@) is Some {
                        lemma_expr_bounds(expr, t, next);
                        crate::symtab::lemma_table_live_bounded(t, next);
                        crate::symtab::lemma_table_bounded_monotone(t, next, n2);
                        crate::symtab::lemma_set_value_bounded(t, var.item.item@, v, n2);
                        crate::symtab::lemma_lookup_depth_props(t, var.item.item@);
                        let t2 = table_set_value(t, var.item.item@, v);
                        crate::symtab::lemma_table_live_bounded(t2, n2);
                    }
                },
            }
        },
        _ => {},
    }
}


/// Lowering a statement list only moves the value counter forward.
pub proof fn lemma_list_counter_monotone(
    stmts: Seq<Statement>,
    t: Seq<SpecFrame>,
    next: nat,
    ctr: int,
)
    ensures
        match spec_from_statment_list(stmts, t, next, ctr) {
            Ok((_, _, n2, _)) => n2 >= next,
            Err(_) => true,
        },
    decreases stmts.len(),
{
    if stmts.len() > 0 {
        lemma_list_counter_monotone(stmts.drop_last(), t, next, ctr);
        match spec_from_statment_list(stmts.drop_last(), t, next, ctr) {
            Err(_) => {},
            Ok((_, t1, n1, c1)) => {
                lemma_statement_counter_monotone(stmts.last(), t1, n1, c1);
            },
        }
    }
}

/// Across the blocks of a lowered statement list, opcode destinations
/// strictly increase in program order — along each block and from each
/// block to the next — and every mentioned value lies below the final
/// counter.
pub proof fn lemma_list_bounds(stmts: Seq<Statement>, t: Seq<SpecFrame>, next: nat, ctr: int)
    requires
        table_bounded(t, next),
        t.len() >= 1,
        (match spec_from_statment_list(stmts, t, next, ctr) {
            Ok((_, _, n2, _)) => n2 <= usize::MAX,
            Err(_) => true,
        }),
    ensures
        match spec_from_statment_list(stmts, t, next, ctr) {
            Ok((blks, t2, n2, c2)) => {
                &&& next <= n2
                &&& t2.len() >= 1
                &&& table_bounded(t2, n2)
                &&& forall|i: int, k: int|
                    0 <= i < blks.len() && 0 <= k < blks[i].opcodes.len() ==> next <= opcode_dest(
                        #[trigger] blks[i].opcodes[k],
                    ).id < n2
                &&& forall|i: int| 0 <= i < blks.len() ==> block_values_lt(#[trigger] blks[i], n2)
                &&& forall|i1: int, k1: int, i2: int, k2: int|
                    0 <= i1 < blks.len() && 0 <= k1 < blks[i1].opcodes.len() && 0 <= i2 < blks.len()
                        && 0 <= k2 < blks[i2].opcodes.len() && (i1 < i2 || (i1 == i2 && k1 < k2))
                        ==> opcode_dest(#[trigger] blks[i1].opcodes[k1]).id < opcode_dest(
                        #[trigger] blks[i2].opcodes[k2],
                    ).id
            },
            Err(_) => true,
        },
    decreases stmts.len(),
{
    if stmts.len() > 0 {
        match spec_from_statment_list(stmts.drop_last(), t, next, ctr) {
            Err(_) => {},
            Ok((blks1, t1, n1, c1)) => {
                match spec_from_statment(stmts.last(), t1, n1, c1) {
                    Err(_) => {},
                    Ok((b, t2, n2, c2)) => {
                        lemma_statement_counter_monotone(stmts.last(), t1, n1, c1);
                        lemma_list_bounds(stmts.drop_last(), t, next, ctr);
                        lemma_statement_bounds(stmts.last(), t1, n1, c1);
                        let blks = blks1.push(b);
                        assert forall|i: int|
                            0 <= i < blks.len() implies block_values_lt(#[trigger] blks[i], n2) by {
                            if i < blks1.len() {
                                assert(blks[i] == blks1[i]);
                                assert(block_values_lt(blks1[i], n1));
                            } else {
                                assert(blks[i] == b);
                            }
                        }
                        assert forall|i: int, k: int|
                            0 <= i < blks.len() && 0 <= k < blks[i].opcodes.len() implies next
                            <= opcode_dest(#[trigger] blks[i].opcodes[k]).id < n2 by {
                            if i < blks1.len() {
                                assert(blks[i] == blks1[i]);
                            } else {
                                assert(blks[i] == b);
                            }
                        }
                        assert forall|i1: int, k1: int, i2: int, k2: int|
                            0 <= i1 < blks.len() && 0 <= k1 < blks[i1].opcodes.len() && 0 <= i2
                                < blks.len() && 0 <= k2 < blks[i2].opcodes.len() && (i1 < i2 || (i1
                                == i2 && k1 < k2)) implies opcode_dest(
                            #[trigger] blks[i1].opcodes[k1],
                        ).id < opcode_dest(#[trigger] blks[i2].opcodes[k2]).id by {
                            if i1 < blks1.len() {
                                assert(blks[i1] == blks1[i1]);
                            } else {
                                assert(blks[i1] == b);
                            }
                            if i2 < blks1.len() {
                                assert(blks[i2] == blks1[i2]);
                            } else {
                                assert(blks[i2] == b);
                            }
                        }
                    },
                }
            },
        }
    }
}

/// Single assignment at the level of a whole generated body: every
/// opcode destination across all blocks is pairwise distinct, and every
/// value a block mentions — entry values, opcode destinations and
/// sources, terminator sources, exit values — was issued by the body's
/// value table.
pub proof fn lemma_gen_il_single_assignment(p: Program)
    requires
        (match spec_gen_il(p) {
            Ok(sb) => sb.values.len() <= usize::MAX,
            Err(_) => true,
        }),
    ensures
        match spec_gen_il(p) {
            Ok(sb) => {
                &&& forall|i1: int, k1: int, i2: int, k2: int|
                    0 <= i1 < sb.code.len() && 0 <= k1 < sb.code[i1].opcodes.len() && 0 <= i2
                        < sb.code.len() && 0 <= k2 < sb.code[i2].opcodes.len() && !(i1 == i2 && k1
                        == k2) ==> opcode_dest(#[trigger] sb.code[i1].opcodes[k1]) != opcode_dest(
                        #[trigger] sb.code[i2].opcodes[k2],
                    )
                &&& forall|i: int, k: int|
                    0 <= i < sb.code.len() && 0 <= k < sb.code[i].opcodes.len()
                        ==> sb.values.contains(opcode_dest(#[trigger] sb.code[i].opcodes[k]))
                &&& forall|i: int, k: int, sx: int|
                    0 <= i < sb.code.len() && 0 <= k < sb.code[i].opcodes.len() && 0 <= sx
                        < opcode_sources(sb.code[i].opcodes[k]).len() ==> sb.values.contains(
                        #[trigger] opcode_sources(sb.code[i].opcodes[k])[sx],
                    )
                &&& forall|i: int, k: int|
                    0 <= i < sb.code.len() && 0 <= k < sb.code[i].argVals.len()
                        ==> sb.values.contains(#[trigger] sb.code[i].argVals[k])
                &&& forall|i: int, sx: int|
                    0 <= i < sb.code.len() && 0 <= sx < il::terminator_sources(
                        sb.code[i].terminator,
                    ).len() ==> sb.values.contains(
                        #[trigger] il::terminator_sources(sb.code[i].terminator)[sx],
                    )
                &&& forall|i: int, k: int|
                    0 <= i < sb.code.len() && 0 <= k < sb.code[i].nextVals.len()
                        ==> sb.values.contains(#[trigger] sb.code[i].nextVals[k])
            },
            Err(_) => true,
        },
{
    match spec_from_statment_list(p.body@, initial_table(), 0, 0) {
        Err(_) => {},
        Ok((blks, t2, n, c)) => {
            assert(table_bounded(initial_table(), 0));
            lemma_list_bounds(p.body@, initial_table(), 0, 0);
            let sb = spec_gen_il(p)->Ok_0;
            assert(sb.values.len() == n);
            assert forall|v: Value| v.id < n implies sb.values.contains(v) by {
                assert(sb.values[v.id as int] == v);
            }
            assert forall|i1: int, k1: int, i2: int, k2: int|
                0 <= i1 < sb.code.len() && 0 <= k1 < sb.code[i1].opcodes.len() && 0 <= i2
                    < sb.code.len() && 0 <= k2 < sb.code[i2].opcodes.len() && !(i1 == i2 && k1
                    == k2) implies opcode_dest(#[trigger] sb.code[i1].opcodes[k1]) != opcode_dest(
                #[trigger] sb.code[i2].opcodes[k2],
            ) by {
                if i1 < i2 || (i1 == i2 && k1 < k2) {
                    assert(opcode_dest(sb.code[i1].opcodes[k1]).id < opcode_dest(
                        sb.code[i2].opcodes[k2],
                    ).id);
                } else {
                    assert(opcode_dest(sb.code[i2].opcodes[k2]).id < opcode_dest(
                        sb.code[i1].opcodes[k1],
                    ).id);
                }
            }
        },
    }
}

} // verus!