//! The expression-tree intermediate representation consumed by the
//! instruction selector, and an older three-address instruction form
//! kept for diagnostics: nested opcode trees grouped into blocks, and a
//! flat list of symbolic instructions.

use vstd::prelude::*;
use vstd::string::*;
use crate::source::SourceSnippit;
use crate::lexer::is_digit;
use crate::utils::{dec_digits, str_chars, str_eq, u32_to_string};

verus! {

pub type Symbol = String;

/// A literal operand of the symbolic instruction form, kept as the
/// spelling it had in the source.
#[derive(Debug, Clone, PartialEq)]
pub enum Value {
    Integer(String),
    Decimal(String),
}

/// A symbol or a literal operand.
#[derive(Debug, Clone, PartialEq)]
pub enum SymVal {
    Symbol(Symbol),
    Value(Value),
}

/// One three-address instruction: destination symbol and operands.
#[derive(Debug, Clone, PartialEq)]
pub enum Instruction {
    Add(Symbol, SymVal, SymVal),
    Sub(Symbol, SymVal, SymVal),
    Mul(Symbol, SymVal, SymVal),
    Div(Symbol, SymVal, SymVal),
    Move(Symbol, SymVal),
}

/// A flat list of symbolic instructions.
#[derive(Debug)]
pub struct IR {
    pub instructions: Vec<Instruction>,
}

/// Mathematical mirror of `Value`.
pub enum SpecIrValue {
    Integer(Seq<char>),
    Decimal(Seq<char>),
}

impl View for Value {
    type V = SpecIrValue;

    open spec fn view(&self) -> SpecIrValue {
        match self {
            Value::Integer(s) => SpecIrValue::Integer(s@),
            Value::Decimal(s) => SpecIrValue::Decimal(s@),
        }
    }
}

/// Mathematical mirror of `SymVal`.
pub enum SpecSymVal {
    Symbol(Seq<char>),
    Value(SpecIrValue),
}

impl View for SymVal {
    type V = SpecSymVal;

    open spec fn view(&self) -> SpecSymVal {
        match self {
            SymVal::Symbol(s) => SpecSymVal::Symbol(s@),
            SymVal::Value(v) => SpecSymVal::Value(v@),
        }
    }
}

/// Mathematical mirror of `Instruction`.
pub enum SpecIrInstruction {
    Add(Seq<char>, SpecSymVal, SpecSymVal),
    Sub(Seq<char>, SpecSymVal, SpecSymVal),
    Mul(Seq<char>, SpecSymVal, SpecSymVal),
    Div(Seq<char>, SpecSymVal, SpecSymVal),
    Move(Seq<char>, SpecSymVal),
}

impl View for Instruction {
    type V = SpecIrInstruction;

    open spec fn view(&self) -> SpecIrInstruction {
        match self {
            Instruction::Add(d, a, b) => SpecIrInstruction::Add(d@, a@, b@),
            Instruction::Sub(d, a, b) => SpecIrInstruction::Sub(d@, a@, b@),
            Instruction::Mul(d, a, b) => SpecIrInstruction::Mul(d@, a@, b@),
            Instruction::Div(d, a, b) => SpecIrInstruction::Div(d@, a@, b@),
            Instruction::Move(d, a) => SpecIrInstruction::Move(d@, a@),
        }
    }
}

/// An expression tree for the instruction selector: an integer
/// constant, a variable read or write, or an arithmetic node over two
/// subtrees. Floating-point constants are not supported at this stage.
#[derive(Debug)]
pub enum Opcode {
    ConstInt32(i32),
    Get(Symbol),
    Assign(Symbol, Box<Opcode>),
    Add(Box<Opcode>, Box<Opcode>),
    Sub(Box<Opcode>, Box<Opcode>),
    Mul(Box<Opcode>, Box<Opcode>),
    Div(Box<Opcode>, Box<Opcode>),
}

pub type OpcodeList = Vec<Box<Opcode>>;

pub type BlockId = u32;

/// A group of opcode trees evaluated in order.
#[derive(Debug)]
pub struct Block {
    pub id: BlockId,
    pub opcodes: OpcodeList,
}

pub type BlockList = Vec<Block>;

/// A named function body: the blocks the instruction selector walks.
#[derive(Debug)]
pub struct Function {
    pub name: String,
    pub ir: BlockList,
}


/// A literal of the oldest surface-tree form: the spelling of an
/// integer or decimal number.
#[derive(Debug, Clone, PartialEq)]
pub enum Literal {
    Integer(String),
    Decimal(String),
}

/// An expression node of the oldest surface-tree form.
#[derive(Debug)]
pub enum ExprNode {
    Literal(Literal, usize),
    Identifier(SourceSnippit),
    BinaryOperator(crate::ast::BinaryOperator, Box<ExprNode>, Box<ExprNode>, usize),
}

/// A node of the oldest surface-tree form: a named procedure of
/// expression statements.
#[derive(Debug)]
pub enum ASTNode {
    Proc(String, Vec<ASTNode>),
    Expression(ExprNode),
}

/// Per-base-name counters for generated symbol names.
pub type SymbolCounterTable = Vec<(String, u32)>;

/// View of the counter table.
pub open spec fn ctr_view(t: Seq<(String, u32)>) -> Seq<(Seq<char>, u32)> {
    t.map_values(|p: (String, u32)| (p.0@, p.1))
}

/// Index of the first counter for `name`, or -1 when absent.
pub open spec fn ctr_index(t: Seq<(Seq<char>, u32)>, name: Seq<char>) -> int
    decreases t.len(),
{
    if t.len() == 0 {
        -1
    } else if t[0].0 == name {
        0
    } else {
        let r = ctr_index(t.drop_first(), name);
        if r < 0 {
            -1
        } else {
            r + 1
        }
    }
}

pub proof fn lemma_ctr_index_props(t: Seq<(Seq<char>, u32)>, name: Seq<char>)
    ensures
        -1 <= ctr_index(t, name) < t.len(),
        ctr_index(t, name) >= 0 ==> t[ctr_index(t, name)].0 == name,
        ctr_index(t, name) == -1 ==> forall|j: int|
            0 <= j < t.len() ==> (#[trigger] t[j]).0 != name,
    decreases t.len(),
{
    if t.len() > 0 && t[0].0 != name {
        lemma_ctr_index_props(t.drop_first(), name);
        assert forall|j: int| 1 <= j < t.len() implies t.drop_first()[j - 1] == (#[trigger] t[j]) by {}
    }
}

pub proof fn lemma_ctr_index_is(t: Seq<(Seq<char>, u32)>, name: Seq<char>, i: int)
    requires
        0 <= i < t.len(),
        t[i].0 == name,
        forall|j: int| 0 <= j < i ==> (#[trigger] t[j]).0 != name,
    ensures
        ctr_index(t, name) == i,
    decreases t.len(),
{
    if i > 0 {
        lemma_ctr_index_is(t.drop_first(), name, i - 1);
    }
}

/// A generated symbol name: the base name, a dollar sign, and the
/// current count for that base name.
pub open spec fn name_with(base: Seq<char>, n: nat) -> Seq<char> {
    base + seq!['$'] + dec_digits(n)
}

/// A counter bumped by one; at the top of its range it stays put.
pub open spec fn bumped(c: u32) -> u32 {
    if c < u32::MAX {
        (c + 1) as u32
    } else {
        c
    }
}

/// Generating a symbol bumps the base name's counter (starting it at
/// one) and spells the bumped count into the name.
pub open spec fn spec_gen_symbol(t: Seq<(Seq<char>, u32)>, base: Seq<char>) -> (Seq<char>, Seq<
    (Seq<char>, u32),
>) {
    let i = ctr_index(t, base);
    if i >= 0 {
        (name_with(base, bumped(t[i].1) as nat), t.update(i, (base, bumped(t[i].1))))
    } else {
        (name_with(base, 1), t.push((base, 1)))
    }
}

/// Generate a fresh symbol name from a base name, unique for as long as
/// all names come from the same counter table and its counters have not
/// reached the top of their range.
#[verifier::loop_isolation(false)]
pub fn gen_symbol(base_name: &str, sym_counters: &mut SymbolCounterTable) -> (r: Symbol)
    ensures
        r@ == spec_gen_symbol(ctr_view(old(sym_counters)@), base_name@).0,
        ctr_view(final(sym_counters)@) == spec_gen_symbol(ctr_view(old(sym_counters)@), base_name@).1,
{
    let ghost tv = ctr_view(sym_counters@);
    let mut i: usize = 0;
    let mut found: Option<usize> = None;
    while i < sym_counters.len() && found.is_none()
        invariant
            i <= sym_counters@.len(),
            tv.len() == sym_counters@.len(),
            (match found {
                Some(k) => k == i && k < tv.len() && tv[k as int].0 == base_name@
                    && (forall|j: int| 0 <= j < k ==> (#[trigger] tv[j]).0 != base_name@),
                None => forall|j: int| 0 <= j < i ==> (#[trigger] tv[j]).0 != base_name@,
            }),
        decreases sym_counters@.len() - i + (if found.is_none() { 1int } else { 0int }),
    {
        if str_eq(sym_counters[i].0.as_str(), base_name) {
            found = Some(i);
        } else {
            i = i + 1;
        }
    }
    let count: u32;
    match found {
        Some(k) => {
            proof {
                lemma_ctr_index_is(tv, base_name@, k as int);
            }
            let c = sym_counters[k].1;
            let c2 = if c < u32::MAX {
                c + 1
            } else {
                c
            };
            let nm = sym_counters[k].0.clone();
            sym_counters[k] = (nm, c2);
            count = c2;
            proof {
                assert(ctr_view(sym_counters@) =~~= spec_gen_symbol(tv, base_name@).1);
            }
        },
        None => {
            proof {
                lemma_ctr_index_props(tv, base_name@);
            }
            sym_counters.push((base_name.to_owned(), 1));
            count = 1;
            proof {
                assert(ctr_view(sym_counters@) =~~= spec_gen_symbol(tv, base_name@).1);
            }
        },
    }
    let mut r = base_name.to_owned();
    crate::utils::push_char(&mut r, '$');
    let cs = u32_to_string(count);
    r.append(cs.as_str());
    proof {
        assert(r@ =~= name_with(base_name@, count as nat));
    }
    r
}

/// The operand denoting one expression node: literals by their
/// spelling, identifiers and nested operations by generated symbols;
/// a nested operation first emits its own instructions.
pub open spec fn spec_gen_operand(node: ExprNode, t: Seq<(Seq<char>, u32)>) -> (
    Seq<SpecIrInstruction>,
    SpecSymVal,
    Seq<(Seq<char>, u32)>,
)
    decreases node, 1int,
{
    match node {
        ExprNode::Literal(Literal::Integer(v), _) => (
            Seq::<SpecIrInstruction>::empty(),
            SpecSymVal::Value(SpecIrValue::Integer(v@)),
            t,
        ),
        ExprNode::Literal(Literal::Decimal(v), _) => (
            Seq::<SpecIrInstruction>::empty(),
            SpecSymVal::Value(SpecIrValue::Decimal(v@)),
            t,
        ),
        ExprNode::Identifier(s) => {
            let (nm, t2) = spec_gen_symbol(t, s.snippit@);
            (Seq::<SpecIrInstruction>::empty(), SpecSymVal::Symbol(nm), t2)
        },
        ExprNode::BinaryOperator(_, _, _, _) => {
            let (d, t2) = spec_gen_symbol(t, Seq::<char>::empty());
            let (insts, t3) = spec_insts_for_expr(node, d, t2);
            (insts, SpecSymVal::Symbol(d), t3)
        },
    }
}

/// The three-address instructions computing one operation node into the
/// destination symbol `dest`: the left operand's instructions, the
/// right operand's, then one combining instruction.
pub open spec fn spec_insts_for_expr(
    expr: ExprNode,
    dest: Seq<char>,
    t: Seq<(Seq<char>, u32)>,
) -> (Seq<SpecIrInstruction>, Seq<(Seq<char>, u32)>)
    decreases expr, 0int,
{
    match expr {
        ExprNode::BinaryOperator(op, l, r, _) => {
            let (li, left, t2) = spec_gen_operand(*l, t);
            let (ri, right, t3) = spec_gen_operand(*r, t2);
            let inst = match op {
                crate::ast::BinaryOperator::Add => SpecIrInstruction::Add(dest, left, right),
                crate::ast::BinaryOperator::Sub => SpecIrInstruction::Sub(dest, left, right),
                crate::ast::BinaryOperator::Mul => SpecIrInstruction::Mul(dest, left, right),
                crate::ast::BinaryOperator::Div => SpecIrInstruction::Div(dest, left, right),
            };
            (li + ri + seq![inst], t3)
        },
        _ => (Seq::<SpecIrInstruction>::empty(), t),
    }
}


/// The views of an instruction list.
pub open spec fn insts_view(is: Seq<Instruction>) -> Seq<SpecIrInstruction> {
    is.map_values(|i: Instruction| i@)
}

/// An operation node, the only shape `insts_for_expr` accepts.
pub open spec fn is_operation(e: ExprNode) -> bool {
    e is BinaryOperator
}

/// Emit the operand for one expression node, appending any
/// instructions a nested operation needs.
pub fn gen_operand(
    node: &ExprNode,
    instructions: &mut Vec<Instruction>,
    sym_counters: &mut SymbolCounterTable,
) -> (r: SymVal)
    ensures
        ({
            let (insts, sv, t2) = spec_gen_operand(*node, ctr_view(old(sym_counters)@));
            &&& insts_view(final(instructions)@) =~= insts_view(old(instructions)@) + insts
            &&& r@ == sv
            &&& ctr_view(final(sym_counters)@) == t2
        }),
    decreases *node, 1int,
{
    match node {
        ExprNode::Literal(Literal::Integer(v), _) => SymVal::Value(Value::Integer(v.clone())),
        ExprNode::Literal(Literal::Decimal(v), _) => SymVal::Value(Value::Decimal(v.clone())),
        ExprNode::Identifier(s) => SymVal::Symbol(gen_symbol(s.snippit.as_str(), sym_counters)),
        ExprNode::BinaryOperator(_, _, _, _) => {
            proof {
                reveal_strlit("");
                assert(""@ =~= Seq::<char>::empty());
            }
            let d = gen_symbol("", sym_counters);
            let mut insts = insts_for_expr(node, d.as_str(), sym_counters);
            instructions.append(&mut insts);
            SymVal::Symbol(d)
        },
    }
}

/// Emit the three-address instructions computing one operation node
/// into the destination symbol `dest`.
pub fn insts_for_expr(
    expr: &ExprNode,
    dest: &str,
    sym_counters: &mut SymbolCounterTable,
) -> (r: Vec<Instruction>)
    requires
        is_operation(*expr),
    ensures
        ({
            let (insts, t2) = spec_insts_for_expr(*expr, dest@, ctr_view(old(sym_counters)@));
            insts_view(r@) =~= insts && ctr_view(final(sym_counters)@) == t2
        }),
    decreases *expr, 0int,
{
    let mut instructions: Vec<Instruction> = Vec::new();
    match expr {
        ExprNode::BinaryOperator(op, l, r, _) => {
            let left = gen_operand(l, &mut instructions, sym_counters);
            let right = gen_operand(r, &mut instructions, sym_counters);
            let d = dest.to_owned();
            let inst = match op {
                crate::ast::BinaryOperator::Add => Instruction::Add(d, left, right),
                crate::ast::BinaryOperator::Sub => Instruction::Sub(d, left, right),
                crate::ast::BinaryOperator::Mul => Instruction::Mul(d, left, right),
                crate::ast::BinaryOperator::Div => Instruction::Div(d, left, right),
            };
            instructions.push(inst);
        },
        _ => {
            proof {
                assert(false);
            }
        },
    }
    instructions
}

/// The instructions of a whole procedure: each expression statement
/// computed into a generated symbol, in order.
pub open spec fn spec_gen_stmts(nodes: Seq<ASTNode>, t: Seq<(Seq<char>, u32)>) -> (
    Seq<SpecIrInstruction>,
    Seq<(Seq<char>, u32)>,
)
    decreases nodes.len(),
{
    if nodes.len() == 0 {
        (Seq::<SpecIrInstruction>::empty(), t)
    } else {
        let (pre, t1) = spec_gen_stmts(nodes.drop_last(), t);
        match nodes.last() {
            ASTNode::Expression(e) => {
                let (d, t2) = spec_gen_symbol(t1, Seq::<char>::empty());
                let (insts, t3) = spec_insts_for_expr(e, d, t2);
                (pre + insts, t3)
            },
            _ => (pre, t1),
        }
    }
}

/// The whole symbolic instruction list for one procedure: its
/// statements' instructions followed by a move of zero into the return
/// register.
pub open spec fn spec_gen_ir(root: ASTNode) -> Seq<SpecIrInstruction> {
    match root {
        ASTNode::Proc(_, nodes) => spec_gen_stmts(nodes@, Seq::<(Seq<char>, u32)>::empty()).0
            + seq![
            SpecIrInstruction::Move("rax"@, SpecSymVal::Value(SpecIrValue::Integer("0"@)))
        ],
        _ => Seq::<SpecIrInstruction>::empty(),
    }
}

/// The node shapes this generator accepts: a procedure of operation
/// statements.
pub open spec fn gen_ir_input_ok(root: ASTNode) -> bool {
    match root {
        ASTNode::Proc(_, nodes) => forall|k: int|
            0 <= k < nodes@.len() ==> ((#[trigger] nodes@[k]) matches ASTNode::Expression(e)
                && is_operation(e)),
        _ => false,
    }
}

#[verifier::loop_isolation(false)]
fn gen_instructions(ast_root: &ASTNode) -> (r: IR)
    requires
        gen_ir_input_ok(*ast_root),
    ensures
        insts_view(r.instructions@) == spec_gen_ir(*ast_root),
{
    let mut instructions: Vec<Instruction> = Vec::new();
    let mut sym_counters: SymbolCounterTable = Vec::new();

    let program = match ast_root {
        ASTNode::Proc(_, p) => p,
        _ => {
            proof {
                assert(false);
            }
            return IR { instructions };
        },
    };
    let ghost nodes = program@;
    proof {
        reveal_strlit("");
        assert(""@ =~= Seq::<char>::empty());
        assert(ctr_view(sym_counters@) =~= Seq::<(Seq<char>, u32)>::empty());
        assert(nodes.take(0) =~= Seq::<ASTNode>::empty());
        assert(insts_view(instructions@) =~= Seq::<SpecIrInstruction>::empty());
    }
    let mut k: usize = 0;
    while k < program.len()
        invariant
            k <= nodes.len(),
            (insts_view(instructions@), ctr_view(sym_counters@)) == spec_gen_stmts(
                nodes.take(k as int),
                Seq::<(Seq<char>, u32)>::empty(),
            ),
        decreases nodes.len() - k,
    {
        proof {
            assert(nodes.take(k + 1).drop_last() =~= nodes.take(k as int));
            assert(nodes.take(k + 1).last() == nodes[k as int]);
        }
        let expr = match &program[k] {
            ASTNode::Expression(e) => e,
            _ => {
                proof {
                    assert(false);
                }
                continue ;
            },
        };
        let d = gen_symbol("", &mut sym_counters);
        let mut insts = insts_for_expr(expr, d.as_str(), &mut sym_counters);
        let ghost pre = insts_view(instructions@);
        instructions.append(&mut insts);
        proof {
            assert(insts_view(instructions@) =~= spec_gen_stmts(
                nodes.take(k + 1),
                Seq::<(Seq<char>, u32)>::empty(),
            ).0);
        }
        k = k + 1;
    }
    proof {
        assert(nodes.take(nodes.len() as int) =~= nodes);
    }
    instructions.push(Instruction::Move(
        String::from_str("rax"),
        SymVal::Value(Value::Integer(String::from_str("0"))),
    ));
    proof {
        assert(insts_view(instructions@) =~= spec_gen_ir(*ast_root));
    }
    IR { instructions }
}

/// Generate the flat symbolic instruction list for one procedure.
pub fn gen_ir(ast_root: &ASTNode) -> (r: IR)
    requires
        gen_ir_input_ok(*ast_root),
    ensures
        insts_view(r.instructions@) == spec_gen_ir(*ast_root),
{
    gen_instructions(ast_root)
}


/// Mathematical mirror of `Opcode`.
pub enum SpecOpcode {
    ConstInt32(i32),
    Get(Seq<char>),
    Assign(Seq<char>, Box<SpecOpcode>),
    Add(Box<SpecOpcode>, Box<SpecOpcode>),
    Sub(Box<SpecOpcode>, Box<SpecOpcode>),
    Mul(Box<SpecOpcode>, Box<SpecOpcode>),
    Div(Box<SpecOpcode>, Box<SpecOpcode>),
}

/// The view of an opcode tree.
pub open spec fn opcode_view(op: Opcode) -> SpecOpcode
    decreases op,
{
    match op {
        Opcode::ConstInt32(i) => SpecOpcode::ConstInt32(i),
        Opcode::Get(s) => SpecOpcode::Get(s@),
        Opcode::Assign(s, e) => SpecOpcode::Assign(s@, Box::new(opcode_view(*e))),
        Opcode::Add(l, r) => SpecOpcode::Add(Box::new(opcode_view(*l)), Box::new(opcode_view(*r))),
        Opcode::Sub(l, r) => SpecOpcode::Sub(Box::new(opcode_view(*l)), Box::new(opcode_view(*r))),
        Opcode::Mul(l, r) => SpecOpcode::Mul(Box::new(opcode_view(*l)), Box::new(opcode_view(*r))),
        Opcode::Div(l, r) => SpecOpcode::Div(Box::new(opcode_view(*l)), Box::new(opcode_view(*r))),
    }
}

/// Every character is a decimal digit.
pub open spec fn all_digits(s: Seq<char>) -> bool {
    forall|k: int| 0 <= k < s.len() ==> is_digit(#[trigger] s[k])
}

/// A spelling this stage accepts as a 32-bit integer literal: decimal
/// digits with an optional minus sign, denoting a value whose
/// magnitude fits the positive range.
pub open spec fn int_literal_ok(s: Seq<char>) -> bool {
    if s.len() == 0 {
        false
    } else if s[0] == '-' {
        s.len() > 1 && all_digits(s.skip(1)) && crate::lexer::digits_val(s.skip(1)) <= i32::MAX
    } else {
        all_digits(s) && crate::lexer::digits_val(s) <= i32::MAX
    }
}

/// The value an integer literal denotes.
pub open spec fn int_literal_val(s: Seq<char>) -> int {
    if s.len() > 0 && s[0] == '-' {
        -crate::lexer::digits_val(s.skip(1))
    } else {
        crate::lexer::digits_val(s)
    }
}

/// Parse an integer literal the old surface tree carries as text.
#[verifier::loop_isolation(false)]
fn parse_int_literal(s: &str) -> (r: i32)
    requires
        int_literal_ok(s@),
    ensures
        r as int == int_literal_val(s@),
{
    let chars = str_chars(s);
    let n = chars.len();
    let neg = chars[0] == '-';
    let start: usize = if neg {
        1
    } else {
        0
    };
    proof {
        if neg {
            assert forall|k: int| start <= k < n implies is_digit(#[trigger] chars@[k]) by {
                assert(chars@.skip(1)[k - 1] == chars@[k]);
            }
            assert(chars@.subrange(start as int, n as int) =~= chars@.skip(1));
        } else {
            assert(chars@.subrange(start as int, n as int) =~= chars@);
        }
    }
    let m = match crate::lexer::parse_digits_range(&chars, start, n) {
        Some(m) => m,
        None => {
            proof {
                assert(false);
            }
            0
        },
    };
    if neg {
        -m
    } else {
        m
    }
}

/// The shapes the opcode-tree builder accepts as an operand: an
/// identifier, or a tree it accepts.
pub open spec fn operand_shape_ok(e: ExprNode) -> bool
    decreases e, 1int,
{
    match e {
        ExprNode::Identifier(_) => true,
        _ => tree_shape_ok(e),
    }
}

/// The shapes the opcode-tree builder accepts at the root: an integer
/// literal, or an operation over acceptable operands. Decimal literals
/// are not supported at this stage.
pub open spec fn tree_shape_ok(e: ExprNode) -> bool
    decreases e, 0int,
{
    match e {
        ExprNode::Literal(Literal::Integer(v), _) => int_literal_ok(v@),
        ExprNode::Literal(Literal::Decimal(_), _) => false,
        ExprNode::Identifier(_) => false,
        ExprNode::BinaryOperator(_, l, r, _) => operand_shape_ok(*l) && operand_shape_ok(*r),
    }
}

/// The opcode tree an expression node builds: literals by value,
/// identifier operands as reads, operations node for node.
pub open spec fn spec_gen_opcodes_from_expr(e: ExprNode) -> SpecOpcode
    decreases e, 1int,
{
    match e {
        ExprNode::Literal(Literal::Integer(v), _) => SpecOpcode::ConstInt32(
            int_literal_val(v@) as i32,
        ),
        ExprNode::BinaryOperator(op, l, r, _) => {
            let ln = Box::new(spec_gen_operand_opcode(*l));
            let rn = Box::new(spec_gen_operand_opcode(*r));
            match op {
                crate::ast::BinaryOperator::Add => SpecOpcode::Add(ln, rn),
                crate::ast::BinaryOperator::Sub => SpecOpcode::Sub(ln, rn),
                crate::ast::BinaryOperator::Mul => SpecOpcode::Mul(ln, rn),
                crate::ast::BinaryOperator::Div => SpecOpcode::Div(ln, rn),
            }
        },
        _ => SpecOpcode::ConstInt32(0),
    }
}

/// An operand position: identifiers become reads, anything else builds
/// its own tree.
pub open spec fn spec_gen_operand_opcode(e: ExprNode) -> SpecOpcode
    decreases e, 2int,
{
    match e {
        ExprNode::Identifier(s) => SpecOpcode::Get(s.snippit@),
        _ => spec_gen_opcodes_from_expr(e),
    }
}

/// Build the opcode tree of one expression node.
pub fn gen_opcodes_from_expr(expr: &ExprNode) -> (r: Box<Opcode>)
    requires
        tree_shape_ok(*expr),
    ensures
        opcode_view(*r) == spec_gen_opcodes_from_expr(*expr),
    decreases *expr, 1int,
{
    match expr {
        ExprNode::Literal(Literal::Integer(v), _) => Box::new(Opcode::ConstInt32(parse_int_literal(
            v.as_str(),
        ))),
        ExprNode::BinaryOperator(op, l, r, _) => {
            let ln = gen_operand_opcode(l);
            let rn = gen_operand_opcode(r);
            Box::new(
                match op {
                    crate::ast::BinaryOperator::Add => Opcode::Add(ln, rn),
                    crate::ast::BinaryOperator::Sub => Opcode::Sub(ln, rn),
                    crate::ast::BinaryOperator::Mul => Opcode::Mul(ln, rn),
                    crate::ast::BinaryOperator::Div => Opcode::Div(ln, rn),
                },
            )
        },
        _ => {
            proof {
                assert(false);
            }
            Box::new(Opcode::ConstInt32(0))
        },
    }
}

fn gen_operand_opcode(e: &ExprNode) -> (r: Box<Opcode>)
    requires
        operand_shape_ok(*e),
    ensures
        opcode_view(*r) == spec_gen_operand_opcode(*e),
    decreases *e, 2int,
{
    match e {
        ExprNode::Identifier(snippit) => Box::new(Opcode::Get(snippit.snippit.clone())),
        _ => gen_opcodes_from_expr(e),
    }
}

/// Build the opcode tree of one statement node, which must be an
/// expression statement.
pub fn gen_opcodes(node: &ASTNode) -> (r: Box<Opcode>)
    requires
        *node matches ASTNode::Expression(e) && tree_shape_ok(e),
    ensures
        (match *node {
            ASTNode::Expression(e) => opcode_view(*r) == spec_gen_opcodes_from_expr(e),
            _ => false,
        }),
{
    match node {
        ASTNode::Expression(expr) => gen_opcodes_from_expr(expr),
        _ => {
            proof {
                assert(false);
            }
            Box::new(Opcode::ConstInt32(0))
        },
    }
}

/// Group the opcode trees of all statement nodes into one block.
#[verifier::loop_isolation(false)]
pub fn gen_blocks(ast_nodes: &Vec<ASTNode>) -> (r: BlockList)
    requires
        forall|k: int|
            0 <= k < ast_nodes@.len() ==> ((#[trigger] ast_nodes@[k]) matches ASTNode::Expression(e)
                && tree_shape_ok(e)),
    ensures
        r@.len() == 1,
        r@[0].id == 0,
        r@[0].opcodes@.len() == ast_nodes@.len(),
        forall|k: int|
            0 <= k < ast_nodes@.len() ==> (match ast_nodes@[k] {
                ASTNode::Expression(e) => opcode_view(*(#[trigger] r@[0].opcodes@[k]))
                    == spec_gen_opcodes_from_expr(e),
                _ => false,
            }),
{
    let id: BlockId = 0;
    let mut opcodes: OpcodeList = Vec::new();
    let mut k: usize = 0;
    while k < ast_nodes.len()
        invariant
            k <= ast_nodes@.len(),
            opcodes@.len() == k,
            forall|j: int|
                0 <= j < k ==> (match ast_nodes@[j] {
                    ASTNode::Expression(e) => opcode_view(*(#[trigger] opcodes@[j]))
                        == spec_gen_opcodes_from_expr(e),
                    _ => false,
                }),
        decreases ast_nodes@.len() - k,
    {
        opcodes.push(gen_opcodes(&ast_nodes[k]));
        k = k + 1;
    }
    let mut blocks: BlockList = Vec::new();
    blocks.push(Block { id, opcodes });
    blocks
}

/// Evaluate a procedure node into its block list: one block holding
/// the opcode tree of each expression statement, in order.
pub fn evaluate_ast(ast: &ASTNode) -> (r: BlockList)
    requires
        (match *ast {
            ASTNode::Proc(_, nodes) => forall|k: int|
                0 <= k < nodes@.len() ==> ((#[trigger] nodes@[k]) matches ASTNode::Expression(e)
                    && tree_shape_ok(e)),
            _ => false,
        }),
    ensures
        r@.len() == 1,
        r@[0].id == 0,
        (match *ast {
            ASTNode::Proc(_, nodes) => r@[0].opcodes@.len() == nodes@.len() && forall|k: int|
                0 <= k < nodes@.len() ==> (match nodes@[k] {
                    ASTNode::Expression(e) => opcode_view(*(#[trigger] r@[0].opcodes@[k]))
                        == spec_gen_opcodes_from_expr(e),
                    _ => false,
                }),
            _ => false,
        }),
{
    match ast {
        ASTNode::Proc(_, nodes) => gen_blocks(nodes),
        _ => {
            proof {
                assert(false);
            }
            Vec::new()
        },
    }
}

} // verus!