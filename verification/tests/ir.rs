use tuc::ast::BinaryOperator;
use tuc::ir::{
    evaluate_ast, gen_ir, gen_opcodes_from_expr, gen_operand, gen_symbol, insts_for_expr, ASTNode,
    ExprNode, Instruction, Literal, Opcode, SymVal, SymbolCounterTable, Value,
};
use tuc::source::{FilePosition, SourceSnippit};

fn snip(name: &str) -> SourceSnippit {
    SourceSnippit {
        snippit: name.to_string(),
        position: FilePosition { file_path: "t".to_string(), index: 0, line: 1, column: 1 },
    }
}

fn int_lit(s: &str) -> Box<ExprNode> {
    Box::new(ExprNode::Literal(Literal::Integer(s.to_string()), 0))
}

// Generated names carry a per-base counter: the same base name counts
// up, different base names count independently.
#[test]
fn symbol_names_count_per_base() {
    let mut t: SymbolCounterTable = Vec::new();
    assert_eq!(gen_symbol("a", &mut t), "a$1".to_string());
    assert_eq!(gen_symbol("a", &mut t), "a$2".to_string());
    assert_eq!(gen_symbol("b", &mut t), "b$1".to_string());
    assert_eq!(gen_symbol("", &mut t), "$1".to_string());
    assert_eq!(gen_symbol("a", &mut t), "a$3".to_string());
}

#[test]
fn operands_for_leaves() {
    let mut t: SymbolCounterTable = Vec::new();
    let mut insts: Vec<Instruction> = Vec::new();
    let sv = gen_operand(&int_lit("42"), &mut insts, &mut t);
    assert_eq!(sv, SymVal::Value(Value::Integer("42".to_string())));
    assert!(insts.is_empty());
    let sv = gen_operand(&ExprNode::Identifier(snip("x")), &mut insts, &mut t);
    assert_eq!(sv, SymVal::Symbol("x$1".to_string()));
    assert!(insts.is_empty());
}

// A nested operation computes into a generated symbol before the outer
// instruction uses it.
#[test]
fn instructions_for_nested_expression() {
    // (1 + 2) * 3 computed into "d".
    let inner = Box::new(ExprNode::BinaryOperator(BinaryOperator::Add, int_lit("1"), int_lit("2"), 0));
    let tree = ExprNode::BinaryOperator(BinaryOperator::Mul, inner, int_lit("3"), 0);
    let mut t: SymbolCounterTable = Vec::new();
    let insts = insts_for_expr(&tree, "d", &mut t);
    assert_eq!(
        insts,
        vec![
            Instruction::Add(
                "$1".to_string(),
                SymVal::Value(Value::Integer("1".to_string())),
                SymVal::Value(Value::Integer("2".to_string())),
            ),
            Instruction::Mul(
                "d".to_string(),
                SymVal::Symbol("$1".to_string()),
                SymVal::Value(Value::Integer("3".to_string())),
            ),
        ]
    );
}

// A whole procedure ends with a move of zero into the return register.
#[test]
fn procedure_instructions() {
    let stmt = ASTNode::Expression(ExprNode::BinaryOperator(
        BinaryOperator::Sub,
        int_lit("9"),
        int_lit("4"),
        0,
    ));
    let root = ASTNode::Proc("main".to_string(), vec![stmt]);
    let ir = gen_ir(&root);
    assert_eq!(
        ir.instructions,
        vec![
            Instruction::Sub(
                "$1".to_string(),
                SymVal::Value(Value::Integer("9".to_string())),
                SymVal::Value(Value::Integer("4".to_string())),
            ),
            Instruction::Move("rax".to_string(), SymVal::Value(Value::Integer("0".to_string()))),
        ]
    );
}

// The opcode-tree builder maps literals, identifier operands and the
// four operations one for one.
#[test]
fn opcode_tree_from_expression() {
    let tree = ExprNode::BinaryOperator(
        BinaryOperator::Div,
        Box::new(ExprNode::Identifier(snip("x"))),
        Box::new(ExprNode::Literal(Literal::Integer("-3".to_string()), 0)),
        0,
    );
    let op = gen_opcodes_from_expr(&tree);
    match *op {
        Opcode::Div(l, r) => {
            assert!(matches!(*l, Opcode::Get(ref s) if s == "x"));
            assert!(matches!(*r, Opcode::ConstInt32(-3)));
        }
        other => panic!("expected a division node, got {:?}", other),
    }
}

#[test]
fn blocks_from_statements() {
    let stmt = ASTNode::Expression(ExprNode::BinaryOperator(
        BinaryOperator::Add,
        int_lit("1"),
        int_lit("2"),
        0,
    ));
    let root = ASTNode::Proc("main".to_string(), vec![stmt]);
    let blocks = evaluate_ast(&root);
    assert_eq!(blocks.len(), 1);
    assert_eq!(blocks[0].id, 0);
    assert_eq!(blocks[0].opcodes.len(), 1);
    assert!(matches!(*blocks[0].opcodes[0], Opcode::Add(_, _)));
}
