use tuc::ast::{
    BareExpression, BareStatement, Program, Statement, Type, WithPos, WithType,
};
use tuc::genil::{gen_il, Error, IlGenerator};
use tuc::il::{Arith2, OpCode, Terminator};
use tuc::symtab;
use tuc::utils::{Const, Position};
use tuc::value::Value;

fn at(pos: usize) -> Position {
    Position { pos }
}

fn lit(n: i32, pos: usize) -> tuc::ast::Expression {
    WithPos { item: WithType { item: BareExpression::Literal(Const::I32(n)), t: Type::I32 }, position: at(pos) }
}

fn ident(name: &str, pos: usize) -> tuc::ast::Expression {
    WithPos {
        item: WithType { item: BareExpression::Identifier(name.to_string()), t: Type::I32 },
        position: at(pos),
    }
}

fn binop(
    op: tuc::ast::BinaryOperator,
    lhs: tuc::ast::Expression,
    rhs: tuc::ast::Expression,
    pos: usize,
) -> tuc::ast::Expression {
    WithPos {
        item: WithType { item: BareExpression::BinaryOp(op, Box::new(lhs), Box::new(rhs)), t: Type::I32 },
        position: at(pos),
    }
}

fn let_stmt(name: &str, expr: tuc::ast::Expression, pos: usize) -> Statement {
    WithPos {
        item: BareStatement::Let(WithPos { item: name.to_string(), position: at(pos) }, expr),
        position: at(pos),
    }
}

fn assign_stmt(name: &str, expr: tuc::ast::Expression, pos: usize) -> Statement {
    WithPos {
        item: BareStatement::Assignment(
            WithPos { item: WithType { item: name.to_string(), t: Type::I32 }, position: at(pos) },
            expr,
        ),
        position: at(pos),
    }
}

fn v(id: usize) -> Value {
    Value { id }
}

// AST `let x = 1 + 2;` lowers to one block with opcodes
// [Set(v0,1), Set(v1,2), Add(v2,v0,v1)], terminator Fallthrough, and the
// symbol `x` bound to v2.
#[test]
fn let_binds_fresh_value() {
    let mut g = IlGenerator::new();
    let stmt = let_stmt("x", binop(tuc::ast::BinaryOperator::Add, lit(1, 9), lit(2, 13), 11), 5);
    let blocks = g.from_statment(&stmt).unwrap();
    assert_eq!(blocks.len(), 1);
    let b = &blocks[0];
    assert_eq!(b.argVals, Vec::<Value>::new());
    assert_eq!(
        b.opcodes,
        vec![
            OpCode::SetConst(v(0), Const::I32(1)),
            OpCode::SetConst(v(1), Const::I32(2)),
            OpCode::Arith2(Arith2::Add, v(2), v(0), v(1)),
        ]
    );
    assert!(matches!(b.terminator, Terminator::Fallthrough));
    assert_eq!(b.nextVals, vec![v(2)]);
    assert_eq!(g.symbol_table.get_value("x"), Ok(Some(v(2))));
}

// AST `x = x + 1;` with `x` already bound to v2: the identifier lookup
// emits zero opcodes and yields v2; the block's opcodes are
// [Set(v3,1), Add(v4,v2,v3)]; `x` is rebound to v4.
#[test]
fn assignment_rebinds_symbol() {
    let mut g = IlGenerator::new();
    let vals = g.values.new_values(3);
    g.symbol_table.define_symbol("x".to_string(), Type::I32).unwrap();
    g.symbol_table.set_value("x", vals[2]).unwrap();
    assert_eq!(g.symbol_table.get_value("x"), Ok(Some(v(2))));

    // The identifier lookup alone emits no opcodes and yields v2.
    let (ops, val) = g.from_expression(&ident("x", 1)).unwrap();
    assert_eq!(ops, Vec::<OpCode>::new());
    assert_eq!(val, v(2));

    let stmt = assign_stmt("x", binop(tuc::ast::BinaryOperator::Add, ident("x", 5), lit(1, 9), 7), 1);
    let blocks = g.from_statment(&stmt).unwrap();
    assert_eq!(blocks.len(), 1);
    let b = &blocks[0];
    assert_eq!(b.argVals, vec![v(2)]);
    assert_eq!(
        b.opcodes,
        vec![OpCode::SetConst(v(3), Const::I32(1)), OpCode::Arith2(Arith2::Add, v(4), v(2), v(3))]
    );
    assert_eq!(b.nextVals, vec![v(4)]);
    assert_eq!(g.symbol_table.get_value("x"), Ok(Some(v(4))));
}

// Looking up an identifier that was declared but never assigned fails
// with ValuelessSymbol.
#[test]
fn valueless_symbol_is_rejected() {
    let mut g = IlGenerator::new();
    g.symbol_table.define_symbol("y".to_string(), Type::I32).unwrap();
    let r = g.from_expression(&ident("y", 1));
    assert_eq!(r, Err(Error::ValuelessSymbol("y".to_string())));
}

// Generation aborts on the first statement shape it does not lower.
#[test]
fn print_statement_is_malformed() {
    let prog = Program {
        body: vec![WithPos { item: BareStatement::Print(lit(1, 7)), position: at(1) }],
    };
    assert_eq!(gen_il(&prog), Err(Error::MalformedProgram));
}

// An assignment to an undefined symbol is rejected.
#[test]
fn assignment_to_undefined_symbol() {
    let prog = Program { body: vec![assign_stmt("z", lit(1, 5), 1)] };
    assert_eq!(
        gen_il(&prog),
        Err(Error::BadSymbolUse(symtab::Error::UndefinedSymbol("z".to_string())))
    );
}

// Running IL generation twice on the same AST with fresh empty tables
// yields structurally identical bodies.
#[test]
fn generation_is_deterministic() {
    let make = || Program {
        body: vec![
            let_stmt("x", binop(tuc::ast::BinaryOperator::Add, lit(1, 9), lit(2, 13), 11), 1),
            let_stmt("y", binop(tuc::ast::BinaryOperator::Mul, ident("x", 24), lit(3, 28), 26), 16),
            assign_stmt("x", binop(tuc::ast::BinaryOperator::Sub, ident("y", 35), ident("x", 39), 37), 31),
        ],
    };
    let b1 = gen_il(&make()).unwrap();
    let b2 = gen_il(&make()).unwrap();
    assert_eq!(b1, b2);
}

// Every value consumed by a block's opcodes is an entry value of the
// block or was produced by an earlier opcode of the same block.
#[test]
fn blocks_define_before_use() {
    let prog = Program {
        body: vec![
            let_stmt("x", lit(1, 9), 1),
            let_stmt("y", binop(tuc::ast::BinaryOperator::Add, ident("x", 24), lit(2, 28), 26), 16),
            assign_stmt("y", binop(tuc::ast::BinaryOperator::Div, ident("y", 35), ident("x", 39), 37), 31),
        ],
    };
    let body = gen_il(&prog).unwrap();
    for b in &body.code {
        let mut defined: Vec<Value> = b.argVals.clone();
        for op in &b.opcodes {
            let (dest, sources) = match op {
                OpCode::Arith2(_, d, l, r) => (*d, vec![*l, *r]),
                OpCode::Compare(_, d, l, r) => (*d, vec![*l, *r]),
                OpCode::Copy(d, s) => (*d, vec![*s]),
                OpCode::SetConst(d, _) => (*d, vec![]),
            };
            for s in sources {
                assert!(defined.contains(&s), "value used before definition");
            }
            defined.push(dest);
        }
    }
}

// A `let` statement gives all live symbols fresh values at the block
// boundary, so the second block's entry values are fresh.
#[test]
fn let_revalues_live_symbols() {
    let prog = Program {
        body: vec![let_stmt("x", lit(1, 9), 1), let_stmt("y", ident("x", 24), 16)],
    };
    let body = gen_il(&prog).unwrap();
    assert_eq!(body.code.len(), 2);
    assert_eq!(body.code[0].argVals, Vec::<Value>::new());
    assert_eq!(body.code[0].nextVals, vec![v(0)]);
    // x is revalued to the fresh v1 at the second block's entry.
    assert_eq!(body.code[1].argVals, vec![v(1)]);
    assert_eq!(body.code[1].nextVals, vec![v(1), v(1)]);
}

// Error descriptions name the error kind.
#[test]
fn genil_error_descriptions() {
    assert_eq!(
        Error::MalformedProgram.description(),
        "AST is malformed.".to_string()
    );
    assert_eq!(
        Error::ValuelessSymbol("a".to_string()).description(),
        "Symbol has no value associated with it".to_string()
    );
    let e = Error::BadSymbolUse(symtab::Error::ScopeUnderflow);
    assert_eq!(e.description(), "Improper use of a symbol".to_string());
    assert_eq!(e.cause(), Some(&symtab::Error::ScopeUnderflow));
    assert_eq!(Error::MalformedProgram.cause(), None);
}

// Opcode destinations are pairwise distinct across all blocks of one
// body, and every value a block mentions was issued by the body's
// value table.
#[test]
fn single_assignment_across_body() {
    let prog = Program {
        body: vec![
            let_stmt("x", binop(tuc::ast::BinaryOperator::Add, lit(1, 9), lit(2, 13), 11), 1),
            let_stmt("y", binop(tuc::ast::BinaryOperator::Div, ident("x", 24), lit(3, 28), 26), 16),
            assign_stmt("x", binop(tuc::ast::BinaryOperator::Mul, ident("y", 35), ident("x", 39), 37), 31),
        ],
    };
    let body = gen_il(&prog).unwrap();
    // The next value a copy of the table would issue bounds everything
    // issued so far.
    let issued_count = body.values.clone().new_value().id;
    let mut dests: Vec<Value> = Vec::new();
    for b in &body.code {
        let mut mentioned: Vec<Value> = Vec::new();
        mentioned.extend(b.argVals.iter().cloned());
        mentioned.extend(b.nextVals.iter().cloned());
        for op in &b.opcodes {
            let (dest, sources) = match op {
                OpCode::Arith2(_, d, l, r) => (*d, vec![*l, *r]),
                OpCode::Compare(_, d, l, r) => (*d, vec![*l, *r]),
                OpCode::Copy(d, s) => (*d, vec![*s]),
                OpCode::SetConst(d, _) => (*d, vec![]),
            };
            assert!(!dests.contains(&dest), "destination assigned twice");
            dests.push(dest);
            mentioned.push(dest);
            mentioned.extend(sources);
        }
        for v in mentioned {
            assert!(v.id < issued_count, "value was never issued");
        }
    }
}
