use tuc::lexer::{LexerError, TokenIterator};
use tuc::token::{Keyword, Operator, TokenType};
use tuc::utils::{Const, Position};

fn assert_next_is(iter: &mut TokenIterator, token: TokenType, pos: usize) {
    let t = iter.next();
    assert!(t.is_some());
    let t = t.unwrap();
    assert!(t.is_ok(), "Expected to be Ok(): t = {:?}", t);
    let t = t.unwrap();
    assert_eq!(token, t.token, "Wrong token type");
    assert_eq!(Position { pos }, t.pos, "Wrong token position");
}

#[test]
fn scan_ident_1() {
    let mut iter = TokenIterator::new("foo");
    assert_next_is(&mut iter, TokenType::IDENT("foo".to_string()), 1);
}

#[test]
fn scan_keyword_1() {
    let mut iter = TokenIterator::new("print");
    assert_next_is(&mut iter, TokenType::KEYWORD(Keyword::PRINT), 1);
}

#[test]
fn scan_keyword_2() {
    let mut iter = TokenIterator::new("let");
    assert_next_is(&mut iter, TokenType::KEYWORD(Keyword::LET), 1);
}

#[test]
fn scan_const_1() {
    let mut iter = TokenIterator::new("123");
    assert_next_is(&mut iter, TokenType::CONST(Const::I32(123)), 1);
}

#[test]
fn scan_comment_1() {
    let mut iter = TokenIterator::new("# some text");
    assert_next_is(&mut iter, TokenType::COMMENT(" some text".to_string()), 1);
}

#[test]
fn scan_expr_1() {
    let mut iter = TokenIterator::new(" 1 / a + b * 3 ; # comment \n print ( x ) ;");
    assert_next_is(&mut iter, TokenType::CONST(Const::I32(1)), 2);
    assert_next_is(&mut iter, TokenType::OPERATOR(Operator::DIV), 4);
    assert_next_is(&mut iter, TokenType::IDENT("a".to_string()), 6);
    assert_next_is(&mut iter, TokenType::OPERATOR(Operator::ADD), 8);
    assert_next_is(&mut iter, TokenType::IDENT("b".to_string()), 10);
    assert_next_is(&mut iter, TokenType::OPERATOR(Operator::MUL), 12);
    assert_next_is(&mut iter, TokenType::CONST(Const::I32(3)), 14);
    assert_next_is(&mut iter, TokenType::SEMICOLON, 16);
    assert_next_is(&mut iter, TokenType::COMMENT(" comment ".to_string()), 18);
    assert_next_is(&mut iter, TokenType::KEYWORD(Keyword::PRINT), 30);
    assert_next_is(&mut iter, TokenType::LPAREN, 36);
    assert_next_is(&mut iter, TokenType::IDENT("x".to_string()), 38);
    assert_next_is(&mut iter, TokenType::RPAREN, 40);
    assert_next_is(&mut iter, TokenType::SEMICOLON, 42);
}

#[test]
fn scan_assign_1() {
    let mut iter = TokenIterator::new("x = 1");
    assert_next_is(&mut iter, TokenType::IDENT("x".to_string()), 1);
    assert_next_is(&mut iter, TokenType::ASSIGN, 3);
    assert_next_is(&mut iter, TokenType::CONST(Const::I32(1)), 5);
    assert!(iter.next().is_none());
}

#[test]
fn scan_int_overflow() {
    // 2^31 does not fit the 32-bit signed integer type.
    let mut iter = TokenIterator::new("2147483648");
    let t = iter.next().unwrap();
    match t {
        Err(e) => {
            assert_eq!(e.item, LexerError::ParseIntError("2147483648".to_string()));
            assert_eq!(e.position, Position { pos: 1 });
        }
        Ok(t) => panic!("expected an error, got {:?}", t),
    }
}

#[test]
fn scan_int_max() {
    let mut iter = TokenIterator::new("2147483647");
    assert_next_is(&mut iter, TokenType::CONST(Const::I32(2147483647)), 1);
}

#[test]
fn scan_unexpected_char() {
    let mut iter = TokenIterator::new("  @");
    let t = iter.next().unwrap();
    match t {
        Err(e) => {
            assert_eq!(e.item, LexerError::UnexpectedCharacter('@'));
            assert_eq!(e.position, Position { pos: 3 });
        }
        Ok(t) => panic!("expected an error, got {:?}", t),
    }
}

#[test]
fn scan_empty_source() {
    let mut iter = TokenIterator::new("");
    assert!(iter.next().is_none());
}

#[test]
fn scan_comment_at_eof_without_newline() {
    let mut iter = TokenIterator::new("#abc");
    assert_next_is(&mut iter, TokenType::COMMENT("abc".to_string()), 1);
    assert!(iter.next().is_none());
}
