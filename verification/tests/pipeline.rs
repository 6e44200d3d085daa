use tuc::ast::{BareExpression, BareStatement, BinaryOperator, Expression, Program, Type, WithPos, WithType};
use tuc::genil::gen_il;
use tuc::il::{BasicBlock, BasicBlockId, Body, Terminator};
use tuc::lexer::TokenIterator;
use tuc::parser::parse_program;
use tuc::semantics::{analyze_semantics, Error, TypeAnalyzer};
use tuc::symtab;
use tuc::utils::{format_list, i32_to_string, u32_to_string, Position};
use tuc::token::{as_keyword, Keyword};
use tuc::value::ValueTable;
use tuc::wasmgen::generate_wat;

fn parsed(src: &str) -> Program {
    parse_program(TokenIterator::new(src)).unwrap()
}

// The whole front end chained together: source text to basic blocks to
// module text.
#[test]
fn source_to_module_text() {
    let p = parsed("let x = 1 + 2 ;\nlet y = x * 3 ;");
    let p = analyze_semantics(p).unwrap();
    let body = gen_il(&p).unwrap();
    assert_eq!(body.code.len(), 2);
    assert!(body.code.iter().all(|b| matches!(b.terminator, Terminator::Fallthrough)));
    let wat = generate_wat(&body).unwrap();
    assert_eq!(
        wat,
        "(module\n  (func (export \"main\") (result i32)\n    block 0\n    end ;; block 0\n    block 1\n    end ;; block 1\n    i32.const 0 ;; final return value\n  ) ;; end of function 'main'\n) ;; end of module\n"
    );
}

// Semantic analysis resolves every expression type; `Unknown` does not
// survive on analyzed paths.
#[test]
fn analysis_resolves_types() {
    let p = parsed("let x = 1 ;");
    let p = analyze_semantics(p).unwrap();
    match &p.body[0].item {
        BareStatement::Let(_, expr) => assert_eq!(expr.item.t, Type::I32),
        other => panic!("expected a let statement, got {:?}", other),
    }
}

#[test]
fn analysis_rejects_undefined_symbol() {
    let p = parsed("let x = y + 1 ;");
    match analyze_semantics(p) {
        Err(Error::SymbolError(symtab::Error::UndefinedSymbol(s), _)) => {
            assert_eq!(s, "y".to_string());
        }
        other => panic!("expected an undefined-symbol error, got {:?}", other),
    }
}

// An operand type mismatch is reported with both operand types.
#[test]
fn analysis_rejects_operand_mismatch() {
    let mut analyzer = TypeAnalyzer::new();
    analyzer.symbol_table.define_symbol("u".to_string(), Type::Unknown).unwrap();
    let expr: Expression = WithPos {
        item: WithType {
            item: BareExpression::BinaryOp(
                BinaryOperator::Add,
                Box::new(WithPos {
                    item: WithType {
                        item: BareExpression::Identifier("u".to_string()),
                        t: Type::Unknown,
                    },
                    position: Position { pos: 1 },
                }),
                Box::new(WithPos {
                    item: WithType {
                        item: BareExpression::Literal(tuc::utils::Const::I32(1)),
                        t: Type::I32,
                    },
                    position: Position { pos: 5 },
                }),
            ),
            t: Type::Unknown,
        },
        position: Position { pos: 3 },
    };
    match analyzer.type_of_expr(expr) {
        Err(Error::OperandTypeMissmatch(_, lt, rt, _)) => {
            assert_eq!(lt, Type::Unknown);
            assert_eq!(rt, Type::I32);
        }
        other => panic!("expected an operand mismatch, got {:?}", other),
    }
}

#[test]
fn decimal_spellings() {
    assert_eq!(u32_to_string(0), "0".to_string());
    assert_eq!(u32_to_string(7), "7".to_string());
    assert_eq!(u32_to_string(4294967295), "4294967295".to_string());
    assert_eq!(i32_to_string(-2147483648), "-2147483648".to_string());
    assert_eq!(i32_to_string(120), "120".to_string());
    assert_eq!(i32_to_string(-1), "-1".to_string());
}

#[test]
fn format_list_layout() {
    assert_eq!(format_list(&vec![]), "".to_string());
    assert_eq!(format_list(&vec!["a".to_string()]), "a".to_string());
    assert_eq!(
        format_list(&vec!["a".to_string(), "b".to_string(), "c".to_string()]),
        "a, b, c".to_string()
    );
}

#[test]
fn keyword_recognition() {
    assert_eq!(as_keyword("print"), Some(Keyword::PRINT));
    assert_eq!(as_keyword("let"), Some(Keyword::LET));
    assert_eq!(as_keyword("letter"), None);
    assert_eq!(as_keyword(""), None);
}

// A `Return` terminator emits an indented `return` line inside its
// block.
#[test]
fn return_terminator_text() {
    let body = Body {
        code: vec![BasicBlock {
            id: BasicBlockId(7),
            argVals: vec![],
            opcodes: vec![],
            terminator: Terminator::Return,
            nextVals: vec![],
        }],
        values: ValueTable::new(),
    };
    let wat = generate_wat(&body).unwrap();
    assert_eq!(
        wat,
        "(module\n  (func (export \"main\") (result i32)\n    block 7\n      return\n    end ;; block 7\n    i32.const 0 ;; final return value\n  ) ;; end of function 'main'\n) ;; end of module\n"
    );
}
