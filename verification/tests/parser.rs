use tuc::ast::{BareExpression, BareStatement, BinaryOperator, Expression};
use tuc::lexer::TokenIterator;
use tuc::parser::{parse_expression, parse_program, parse_statement, ParseError, ParserError};
use tuc::token::{Operator, Token, TokenType};
use tuc::utils::{Const, Position};

fn tokens_of(src: &str) -> Vec<Token> {
    let mut it = TokenIterator::new(src);
    let mut out = Vec::new();
    while let Some(t) = it.next() {
        let t = t.expect("lexing failed");
        if let TokenType::COMMENT(_) = t.token {
            continue;
        }
        out.push(t);
    }
    out
}

fn expect_lit(e: &Expression, n: i32) {
    match &e.item.item {
        BareExpression::Literal(Const::I32(v)) => assert_eq!(*v, n),
        other => panic!("expected literal {}, got {:?}", n, other),
    }
}

fn expect_ident(e: &Expression, name: &str) {
    match &e.item.item {
        BareExpression::Identifier(s) => assert_eq!(s, name),
        other => panic!("expected identifier {}, got {:?}", name, other),
    }
}

#[test]
fn parse_single_literal() {
    let toks = tokens_of("42");
    let mut pos = 0;
    let e = parse_expression(&toks, &mut pos).unwrap();
    expect_lit(&e, 42);
    assert_eq!(pos, 1);
}

// Multiplication binds more strongly than addition.
#[test]
fn parse_precedence() {
    let toks = tokens_of("1 + 2 * 3");
    let mut pos = 0;
    let e = parse_expression(&toks, &mut pos).unwrap();
    match &e.item.item {
        BareExpression::BinaryOp(BinaryOperator::Add, lhs, rhs) => {
            expect_lit(lhs, 1);
            match &rhs.item.item {
                BareExpression::BinaryOp(BinaryOperator::Mul, l2, r2) => {
                    expect_lit(l2, 2);
                    expect_lit(r2, 3);
                }
                other => panic!("expected multiplication, got {:?}", other),
            }
        }
        other => panic!("expected addition at the root, got {:?}", other),
    }
}

// Operators of equal precedence associate to the left.
#[test]
fn parse_left_associativity() {
    let toks = tokens_of("10 - 4 - 3");
    let mut pos = 0;
    let e = parse_expression(&toks, &mut pos).unwrap();
    match &e.item.item {
        BareExpression::BinaryOp(BinaryOperator::Sub, lhs, rhs) => {
            expect_lit(rhs, 3);
            match &lhs.item.item {
                BareExpression::BinaryOp(BinaryOperator::Sub, l2, r2) => {
                    expect_lit(l2, 10);
                    expect_lit(r2, 4);
                }
                other => panic!("expected nested subtraction, got {:?}", other),
            }
        }
        other => panic!("expected subtraction at the root, got {:?}", other),
    }
}

// Parentheses group; the expression ends at an unmatched closing one.
#[test]
fn parse_parentheses() {
    let toks = tokens_of("( 1 + 2 ) * x");
    let mut pos = 0;
    let e = parse_expression(&toks, &mut pos).unwrap();
    match &e.item.item {
        BareExpression::BinaryOp(BinaryOperator::Mul, lhs, rhs) => {
            expect_ident(rhs, "x");
            match &lhs.item.item {
                BareExpression::BinaryOp(BinaryOperator::Add, _, _) => {}
                other => panic!("expected grouped addition, got {:?}", other),
            }
        }
        other => panic!("expected multiplication at the root, got {:?}", other),
    }
}

// An operator with no right operand is rejected.
#[test]
fn parse_missing_rhs() {
    let toks = tokens_of("+");
    let mut pos = 0;
    let r = parse_expression(&toks, &mut pos);
    match r {
        Err(e) => assert!(matches!(e.item, ParserError::MissingRHS(_))),
        Ok(e) => panic!("expected an error, got {:?}", e),
    }
}

#[test]
fn parse_empty_expression() {
    let toks = tokens_of("");
    let mut pos = 0;
    let r = parse_expression(&toks, &mut pos);
    match r {
        Err(e) => assert!(matches!(e.item, ParserError::ExpectingExpressionToken)),
        Ok(e) => panic!("expected an error, got {:?}", e),
    }
}

#[test]
fn parse_let_statement() {
    let toks = tokens_of("let x = 1 + 2 ;");
    let mut pos = 0;
    let st = parse_statement(&toks, &mut pos).unwrap();
    assert_eq!(pos, toks.len());
    match &st.item {
        BareStatement::Let(name, expr) => {
            assert_eq!(name.item, "x".to_string());
            assert_eq!(name.position, Position { pos: 5 });
            match &expr.item.item {
                BareExpression::BinaryOp(BinaryOperator::Add, _, _) => {}
                other => panic!("expected addition, got {:?}", other),
            }
        }
        other => panic!("expected a let statement, got {:?}", other),
    }
}

#[test]
fn parse_print_statement() {
    let toks = tokens_of("print ( x ) ;");
    let mut pos = 0;
    let st = parse_statement(&toks, &mut pos).unwrap();
    assert_eq!(pos, toks.len());
    match &st.item {
        BareStatement::Print(expr) => expect_ident(expr, "x"),
        other => panic!("expected a print statement, got {:?}", other),
    }
}

#[test]
fn parse_whole_program() {
    let p = parse_program(TokenIterator::new(
        "let x = 1 + 2 ; # intro\nlet y = x * 3 ;\nprint ( y ) ;",
    ))
    .unwrap();
    assert_eq!(p.body.len(), 3);
    assert!(matches!(p.body[0].item, BareStatement::Let(_, _)));
    assert!(matches!(p.body[1].item, BareStatement::Let(_, _)));
    assert!(matches!(p.body[2].item, BareStatement::Print(_)));
}

#[test]
fn parse_program_unexpected_token() {
    let r = parse_program(TokenIterator::new("let 5 = 1 ;"));
    match r {
        Err(e) => assert!(matches!(e.item, ParseError::UnexpectedToken(_))),
        Ok(p) => panic!("expected an error, got {:?}", p),
    }
}

#[test]
fn parse_program_lexer_error() {
    let r = parse_program(TokenIterator::new("let x = @ ;"));
    match r {
        Err(e) => {
            assert!(matches!(e.item, ParseError::LexerError(_)));
            assert_eq!(e.position, Position { pos: 9 });
        }
        Ok(p) => panic!("expected an error, got {:?}", p),
    }
}

#[test]
fn parse_program_missing_semicolon() {
    let r = parse_program(TokenIterator::new("let x = 1"));
    match r {
        Err(e) => assert!(matches!(e.item, ParseError::ExpectingMoreTokens)),
        Ok(p) => panic!("expected an error, got {:?}", p),
    }
}

#[test]
fn operator_precedence_values() {
    assert_eq!(Operator::ADD.precedence(), 2);
    assert_eq!(Operator::SUB.precedence(), 2);
    assert_eq!(Operator::MUL.precedence(), 3);
    assert_eq!(Operator::DIV.precedence(), 3);
    assert_eq!(Operator::ADD.associativity(), tuc::parser::Associativity::Left);
}
