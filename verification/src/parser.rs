//! The parser: a shunting-yard expression parser over a token list,
//! and a small statement parser producing the typed AST (with types
//! still unresolved — semantic analysis fills them in).

use vstd::prelude::*;
use crate::ast;
use crate::ast::{BareExpression, BareStatement, BinaryOperator, Expression, Program, Statement};
use crate::lexer;
use crate::lexer::{SpecLexerError, TokenIterator};
use crate::token::{Keyword, Operator, SpecToken, SpecTokenType, Token, TokenType};
use crate::utils::{Position, WithPos};

verus! {

/// Operator associativity. Every operator of this language associates
/// to the left.
#[derive(Debug, Clone, Copy, PartialEq, Eq, Structural)]
pub enum Associativity {
    Left,
    Rigth,
}

/// Binding strength of an operator: multiplicative above additive.
pub open spec fn spec_precedence(op: Operator) -> u32 {
    match op {
        Operator::ADD => 2,
        Operator::SUB => 2,
        Operator::MUL => 3,
        Operator::DIV => 3,
    }
}

pub open spec fn spec_associativity(op: Operator) -> Associativity {
    Associativity::Left
}

impl Operator {
    pub fn precedence(self) -> (r: u32)
        ensures
            r == spec_precedence(self),
    {
        match self {
            Operator::ADD => 2,
            Operator::SUB => 2,
            Operator::MUL => 3,
            Operator::DIV => 3,
        }
    }

    pub fn associativity(self) -> (r: Associativity)
        ensures
            r == spec_associativity(self),
    {
        Associativity::Left
    }
}

/// The AST operator of an operator token (one-to-one).
pub open spec fn spec_op_ast(op: Operator) -> BinaryOperator {
    match op {
        Operator::ADD => BinaryOperator::Add,
        Operator::SUB => BinaryOperator::Sub,
        Operator::MUL => BinaryOperator::Mul,
        Operator::DIV => BinaryOperator::Div,
    }
}

fn op_ast(op: Operator) -> (r: BinaryOperator)
    ensures
        r == spec_op_ast(op),
{
    match op {
        Operator::ADD => BinaryOperator::Add,
        Operator::SUB => BinaryOperator::Sub,
        Operator::MUL => BinaryOperator::Mul,
        Operator::DIV => BinaryOperator::Div,
    }
}

/// Failures of the expression parser.
#[derive(Debug, Clone, PartialEq)]
pub enum ParserError {
    NonOpTokenInOpStack(TokenType),
    NonOpOrLParenTokenInOpStack(TokenType),
    MissingLHS(Operator),
    MissingRHS(Operator),
    ExpectingExpressionToken,
    LexerError(lexer::Error),
}

/// Mathematical mirror of `ParserError`.
pub enum SpecParserError {
    NonOpTokenInOpStack(SpecTokenType),
    NonOpOrLParenTokenInOpStack(SpecTokenType),
    MissingLHS(Operator),
    MissingRHS(Operator),
    ExpectingExpressionToken,
    LexerError(SpecLexerError, Position),
}

impl View for ParserError {
    type V = SpecParserError;

    open spec fn view(&self) -> SpecParserError {
        match self {
            ParserError::NonOpTokenInOpStack(t) => SpecParserError::NonOpTokenInOpStack(t@),
            ParserError::NonOpOrLParenTokenInOpStack(t) => SpecParserError::NonOpOrLParenTokenInOpStack(
                t@,
            ),
            ParserError::MissingLHS(o) => SpecParserError::MissingLHS(*o),
            ParserError::MissingRHS(o) => SpecParserError::MissingRHS(*o),
            ParserError::ExpectingExpressionToken => SpecParserError::ExpectingExpressionToken,
            ParserError::LexerError(e) => SpecParserError::LexerError(e.item@, e.position),
        }
    }
}

/// Failures of the statement and program parsers.
#[derive(Debug, Clone, PartialEq)]
pub enum ParseError {
    UnexpectedToken(TokenType),
    ExpectingMoreTokens,
    ExpressionParserError(ParserError),
    LexerError(lexer::Error),
}

/// Mathematical mirror of `ParseError`.
pub enum SpecParseError {
    UnexpectedToken(SpecTokenType),
    ExpectingMoreTokens,
    ExpressionParserError(SpecParserError),
    LexerError(SpecLexerError, Position),
}

impl View for ParseError {
    type V = SpecParseError;

    open spec fn view(&self) -> SpecParseError {
        match self {
            ParseError::UnexpectedToken(t) => SpecParseError::UnexpectedToken(t@),
            ParseError::ExpectingMoreTokens => SpecParseError::ExpectingMoreTokens,
            ParseError::ExpressionParserError(e) => SpecParseError::ExpressionParserError(e@),
            ParseError::LexerError(e) => SpecParseError::LexerError(e.item@, e.position),
        }
    }
}

/// Pop two operands and push the operation `p` combining them, typed
/// `Unknown` and positioned at `tpos`.
pub open spec fn spec_pop_op(p: Operator, tpos: Position, exprs: Seq<Expression>) -> Result<
    Seq<Expression>,
    (SpecParserError, Position),
> {
    if exprs.len() == 0 {
        Err((SpecParserError::MissingRHS(p), tpos))
    } else if exprs.len() == 1 {
        Err((SpecParserError::MissingLHS(p), tpos))
    } else {
        let rhs = exprs.last();
        let lhs = exprs[exprs.len() - 2];
        Ok(exprs.take(exprs.len() - 2).push(WithPos {
            item: ast::WithType {
                item: BareExpression::BinaryOp(spec_op_ast(p), Box::new(lhs), Box::new(rhs)),
                t: ast::Type::Unknown,
            },
            position: tpos,
        }))
    }
}

/// On reading operator `o`, pop stacked operators that bind at least
/// as strongly (all operators are left-associative), combining
/// operands as they pop.
pub open spec fn spec_shift_ops(
    o: Operator,
    tpos: Position,
    exprs: Seq<Expression>,
    ops: Seq<Token>,
) -> Result<(Seq<Expression>, Seq<Token>), (SpecParserError, Position)>
    decreases ops.len(),
{
    if ops.len() > 0 {
        match ops.last().token {
            TokenType::OPERATOR(p) => {
                if spec_precedence(p) > spec_precedence(o) || (spec_precedence(p)
                    == spec_precedence(o) && spec_associativity(p) == Associativity::Left) {
                    match spec_pop_op(p, tpos, exprs) {
                        Err(e) => Err(e),
                        Ok(exprs2) => spec_shift_ops(o, tpos, exprs2, ops.drop_last()),
                    }
                } else {
                    Ok((exprs, ops))
                }
            },
            _ => Ok((exprs, ops)),
        }
    } else {
        Ok((exprs, ops))
    }
}

/// On reading a closing parenthesis, pop operators until the matching
/// opening parenthesis; `true` when one was found.
pub open spec fn spec_rparen(exprs: Seq<Expression>, ops: Seq<Token>) -> Result<
    (Seq<Expression>, Seq<Token>, bool),
    (SpecParserError, Position),
>
    decreases ops.len(),
{
    if ops.len() == 0 {
        Ok((exprs, ops, false))
    } else {
        let t = ops.last();
        match t.token {
            TokenType::OPERATOR(p) => match spec_pop_op(p, t.pos, exprs) {
                Err(e) => Err(e),
                Ok(exprs2) => spec_rparen(exprs2, ops.drop_last()),
            },
            TokenType::LPAREN => Ok((exprs, ops.drop_last(), true)),
            _ => Err((SpecParserError::NonOpOrLParenTokenInOpStack(t.token@), t.pos)),
        }
    }
}

/// At the end of the token run, pop every remaining operator.
pub open spec fn spec_drain(exprs: Seq<Expression>, ops: Seq<Token>) -> Result<
    Seq<Expression>,
    (SpecParserError, Position),
>
    decreases ops.len(),
{
    if ops.len() == 0 {
        Ok(exprs)
    } else {
        let t = ops.last();
        match t.token {
            TokenType::OPERATOR(p) => match spec_pop_op(p, t.pos, exprs) {
                Err(e) => Err(e),
                Ok(exprs2) => spec_drain(exprs2, ops.drop_last()),
            },
            _ => Err((SpecParserError::NonOpTokenInOpStack(t.token@), t.pos)),
        }
    }
}

/// Finishing the expression: drain the operator stack; exactly one
/// expression must remain.
pub open spec fn spec_finish(exprs: Seq<Expression>, ops: Seq<Token>, i: int) -> (Result<
    Expression,
    (SpecParserError, Position),
>, int) {
    match spec_drain(exprs, ops) {
        Err(e) => (Err(e), i),
        Ok(exprs2) => if exprs2.len() == 1 {
            (Ok(exprs2.last()), i)
        } else {
            (Err((SpecParserError::ExpectingExpressionToken, Position { pos: 0 })), i)
        },
    }
}

/// One pass of the shunting-yard algorithm from token position `i`
/// with the given expression and operator stacks: the parsed
/// expression (or first error) and the position of the first token not
/// consumed. A token that cannot belong to an expression ends it; a
/// closing parenthesis with no opening one on the stack ends it when
/// exactly one expression has been built, and is left unconsumed.
pub open spec fn spec_parse_expr(
    tokens: Seq<Token>,
    i: int,
    exprs: Seq<Expression>,
    ops: Seq<Token>,
) -> (Result<Expression, (SpecParserError, Position)>, int)
    decreases tokens.len() - i,
{
    if i < 0 || i >= tokens.len() {
        spec_finish(exprs, ops, i)
    } else {
        let tok = tokens[i];
        match tok.token {
            TokenType::IDENT(s) => spec_parse_expr(
                tokens,
                i + 1,
                exprs.push(WithPos {
                    item: ast::WithType {
                        item: BareExpression::Identifier(s),
                        t: ast::Type::Unknown,
                    },
                    position: tok.pos,
                }),
                ops,
            ),
            TokenType::CONST(c) => spec_parse_expr(
                tokens,
                i + 1,
                exprs.push(WithPos {
                    item: ast::WithType { item: BareExpression::Literal(c), t: ast::Type::I32 },
                    position: tok.pos,
                }),
                ops,
            ),
            TokenType::OPERATOR(o) => match spec_shift_ops(o, tok.pos, exprs, ops) {
                Err(e) => (Err(e), i + 1),
                Ok((exprs2, ops2)) => spec_parse_expr(tokens, i + 1, exprs2, ops2.push(tok)),
            },
            TokenType::LPAREN => spec_parse_expr(tokens, i + 1, exprs, ops.push(tok)),
            TokenType::RPAREN => match spec_rparen(exprs, ops) {
                Err(e) => (Err(e), i),
                Ok((exprs2, ops2, inexpr)) => if !inexpr && exprs2.len() == 1 {
                    (Ok(exprs2.last()), i)
                } else {
                    spec_parse_expr(tokens, i + 1, exprs2, ops2)
                },
            },
            _ => spec_finish(exprs, ops, i),
        }
    }
}

fn pop_op(p: Operator, tpos: Position, exprs: &mut Vec<Expression>) -> (r: Result<
    (),
    WithPos<ParserError>,
>)
    ensures
        match spec_pop_op(p, tpos, old(exprs)@) {
            Ok(exprs2) => r is Ok && final(exprs)@ == exprs2,
            Err((ek, ep)) => r matches Err(e) && e.item@ == ek && e.position == ep,
        },
{
    if exprs.len() == 0 {
        return Err(WithPos { item: ParserError::MissingRHS(p), position: tpos });
    }
    let rhs = exprs.pop().unwrap();
    if exprs.len() == 0 {
        return Err(WithPos { item: ParserError::MissingLHS(p), position: tpos });
    }
    let lhs = exprs.pop().unwrap();
    exprs.push(WithPos {
        item: ast::WithType {
            item: BareExpression::BinaryOp(op_ast(p), Box::new(lhs), Box::new(rhs)),
            t: ast::Type::Unknown,
        },
        position: tpos,
    });
    proof {
        assert(final(exprs)@ =~= match spec_pop_op(p, tpos, old(exprs)@) {
            Ok(e2) => e2,
            Err(_) => final(exprs)@,
        });
    }
    Ok(())
}

fn shift_ops(
    o: Operator,
    tpos: Position,
    exprs: &mut Vec<Expression>,
    ops: &mut Vec<Token>,
) -> (r: Result<(), WithPos<ParserError>>)
    ensures
        match spec_shift_ops(o, tpos, old(exprs)@, old(ops)@) {
            Ok((exprs2, ops2)) => r is Ok && final(exprs)@ == exprs2 && final(ops)@ == ops2,
            Err((ek, ep)) => r matches Err(e) && e.item@ == ek && e.position == ep,
        },
    decreases old(ops)@.len(),
{
    if ops.len() > 0 {
        let top_is_op: Option<Operator> = match &ops[ops.len() - 1].token {
            TokenType::OPERATOR(p) => Some(*p),
            _ => None,
        };
        match top_is_op {
            Some(p) => {
                if p.precedence() > o.precedence() || (p.precedence() == o.precedence()
                    && p.associativity() == Associativity::Left) {
                    match pop_op(p, tpos, exprs) {
                        Err(e) => Err(e),
                        Ok(()) => {
                            ops.pop();
                            proof {
                                assert(ops@ =~= old(ops)@.drop_last());
                            }
                            shift_ops(o, tpos, exprs, ops)
                        },
                    }
                } else {
                    Ok(())
                }
            },
            None => Ok(()),
        }
    } else {
        Ok(())
    }
}

fn rparen_ops(exprs: &mut Vec<Expression>, ops: &mut Vec<Token>) -> (r: Result<
    bool,
    WithPos<ParserError>,
>)
    ensures
        match spec_rparen(old(exprs)@, old(ops)@) {
            Ok((exprs2, ops2, inexpr)) => r matches Ok(b) && b == inexpr && final(exprs)@ == exprs2
                && final(ops)@ == ops2,
            Err((ek, ep)) => r matches Err(e) && e.item@ == ek && e.position == ep,
        },
    decreases old(ops)@.len(),
{
    if ops.len() == 0 {
        return Ok(false);
    }
    let idx = ops.len() - 1;
    let is_op: Option<Operator> = match &ops[idx].token {
        TokenType::OPERATOR(p) => Some(*p),
        _ => None,
    };
    let tpos = ops[idx].pos;
    match is_op {
        Some(p) => match pop_op(p, tpos, exprs) {
            Err(e) => Err(e),
            Ok(()) => {
                ops.pop();
                proof {
                    assert(ops@ =~= old(ops)@.drop_last());
                }
                rparen_ops(exprs, ops)
            },
        },
        None => {
            let t = ops.pop().unwrap();
            proof {
                assert(ops@ =~= old(ops)@.drop_last());
            }
            match t.token {
                TokenType::LPAREN => Ok(true),
                other => Err(WithPos {
                    item: ParserError::NonOpOrLParenTokenInOpStack(other),
                    position: t.pos,
                }),
            }
        },
    }
}

fn drain_ops(exprs: &mut Vec<Expression>, ops: &mut Vec<Token>) -> (r: Result<
    (),
    WithPos<ParserError>,
>)
    ensures
        match spec_drain(old(exprs)@, old(ops)@) {
            Ok(exprs2) => r is Ok && final(exprs)@ == exprs2,
            Err((ek, ep)) => r matches Err(e) && e.item@ == ek && e.position == ep,
        },
    decreases old(ops)@.len(),
{
    if ops.len() == 0 {
        return Ok(());
    }
    let idx = ops.len() - 1;
    let is_op: Option<Operator> = match &ops[idx].token {
        TokenType::OPERATOR(p) => Some(*p),
        _ => None,
    };
    let tpos = ops[idx].pos;
    match is_op {
        Some(p) => match pop_op(p, tpos, exprs) {
            Err(e) => Err(e),
            Ok(()) => {
                ops.pop();
                proof {
                    assert(ops@ =~= old(ops)@.drop_last());
                }
                drain_ops(exprs, ops)
            },
        },
        None => {
            let t = ops.pop().unwrap();
            Err(WithPos { item: ParserError::NonOpTokenInOpStack(t.token), position: t.pos })
        },
    }
}

fn finish_expr(exprs: &mut Vec<Expression>, ops: &mut Vec<Token>) -> (r: Result<
    Expression,
    WithPos<ParserError>,
>)
    ensures
        ({
            let (res, _) = spec_finish(old(exprs)@, old(ops)@, 0);
            match res {
                Ok(e) => r matches Ok(x) && x == e,
                Err((ek, ep)) => r matches Err(e2) && e2.item@ == ek && e2.position == ep,
            }
        }),
{
    match drain_ops(exprs, ops) {
        Err(e) => Err(e),
        Ok(()) => {
            if exprs.len() == 1 {
                Ok(exprs.pop().unwrap())
            } else {
                Err(WithPos {
                    item: ParserError::ExpectingExpressionToken,
                    position: Position { pos: 0 },
                })
            }
        },
    }
}

fn parse_expr_rec(
    tokens: &Vec<Token>,
    i: usize,
    exprs: &mut Vec<Expression>,
    ops: &mut Vec<Token>,
) -> (r: (Result<Expression, WithPos<ParserError>>, usize))
    requires
        i <= tokens@.len(),
    ensures
        r.1 <= tokens@.len(),
        ({
            let (res, ni) = spec_parse_expr(tokens@, i as int, old(exprs)@, old(ops)@);
            r.1 == ni && match res {
                Ok(e) => r.0 matches Ok(x) && x == e,
                Err((ek, ep)) => r.0 matches Err(e2) && e2.item@ == ek && e2.position == ep,
            }
        }),
    decreases tokens@.len() - i,
{
    if i == tokens.len() {
        return (finish_expr(exprs, ops), i);
    }
    let tok = &tokens[i];
    match &tok.token {
        TokenType::IDENT(s) => {
            exprs.push(WithPos {
                item: ast::WithType {
                    item: BareExpression::Identifier(s.clone()),
                    t: ast::Type::Unknown,
                },
                position: tok.pos,
            });
            parse_expr_rec(tokens, i + 1, exprs, ops)
        },
        TokenType::CONST(c) => {
            exprs.push(WithPos {
                item: ast::WithType { item: BareExpression::Literal(*c), t: ast::Type::I32 },
                position: tok.pos,
            });
            parse_expr_rec(tokens, i + 1, exprs, ops)
        },
        TokenType::OPERATOR(o) => {
            match shift_ops(*o, tok.pos, exprs, ops) {
                Err(e) => (Err(e), i + 1),
                Ok(()) => {
                    ops.push(Token { token: TokenType::OPERATOR(*o), pos: tok.pos });
                    proof {
                        assert(Token { token: TokenType::OPERATOR(*o), pos: tok.pos }
                            == tokens@[i as int]);
                    }
                    parse_expr_rec(tokens, i + 1, exprs, ops)
                },
            }
        },
        TokenType::LPAREN => {
            ops.push(Token { token: TokenType::LPAREN, pos: tok.pos });
            proof {
                assert(Token { token: TokenType::LPAREN, pos: tok.pos } == tokens@[i as int]);
            }
            parse_expr_rec(tokens, i + 1, exprs, ops)
        },
        TokenType::RPAREN => {
            match rparen_ops(exprs, ops) {
                Err(e) => (Err(e), i),
                Ok(inexpr) => {
                    if !inexpr && exprs.len() == 1 {
                        (Ok(exprs.pop().unwrap()), i)
                    } else {
                        parse_expr_rec(tokens, i + 1, exprs, ops)
                    }
                },
            }
        },
        _ => (finish_expr(exprs, ops), i),
    }
}

/// Parse one expression with Dijkstra's shunting-yard algorithm,
/// starting at `*pos`; on return `*pos` is the first token not
/// consumed. Evaluation order and precedence follow `spec_parse_expr`.
pub fn parse_expression(tokens: &Vec<Token>, pos: &mut usize) -> (r: Result<
    Expression,
    WithPos<ParserError>,
>)
    requires
        *old(pos) <= tokens@.len(),
    ensures
        *final(pos) <= tokens@.len(),
        ({
            let (res, ni) = spec_parse_expr(
                tokens@,
                *old(pos) as int,
                Seq::<Expression>::empty(),
                Seq::<Token>::empty(),
            );
            *final(pos) == ni && match res {
                Ok(e) => r matches Ok(x) && x == e,
                Err((ek, ep)) => r matches Err(e2) && e2.item@ == ek && e2.position == ep,
            }
        }),
{
    let mut exprs: Vec<Expression> = Vec::new();
    let mut ops: Vec<Token> = Vec::new();
    let (r, ni) = parse_expr_rec(tokens, *pos, &mut exprs, &mut ops);
    *pos = ni;
    r
}


/// The parsed statement starting at token `i`, and the position of the
/// next token: `print ( expr ) ;` or `let name = expr ;`; anything else
/// is an unexpected token.
pub open spec fn spec_parse_statement(tokens: Seq<Token>, i: int) -> (Result<
    Statement,
    (SpecParseError, Position),
>, int) {
    if i < 0 || i >= tokens.len() {
        (Err((SpecParseError::ExpectingMoreTokens, Position { pos: 0 })), i)
    } else {
        let tok = tokens[i];
        match tok.token {
            TokenType::KEYWORD(Keyword::PRINT) => {
                if i + 1 >= tokens.len() {
                    (Err((SpecParseError::ExpectingMoreTokens, tok.pos)), i + 1)
                } else if !(tokens[i + 1].token is LPAREN) {
                    (Err((SpecParseError::UnexpectedToken(tokens[i + 1].token@), tokens[i + 1].pos)), i + 2)
                } else {
                    let (er, ni) = spec_parse_expr(
                        tokens,
                        i + 2,
                        Seq::<Expression>::empty(),
                        Seq::<Token>::empty(),
                    );
                    match er {
                        Err((ek, ep)) => (Err((SpecParseError::ExpressionParserError(ek), ep)), ni),
                        Ok(e) => if ni >= tokens.len() {
                            (Err((SpecParseError::ExpectingMoreTokens, e.position)), ni)
                        } else if !(tokens[ni].token is RPAREN) {
                            (Err((SpecParseError::UnexpectedToken(tokens[ni].token@), tokens[ni].pos)), ni + 1)
                        } else if ni + 1 >= tokens.len() {
                            (Err((SpecParseError::ExpectingMoreTokens, tokens[ni].pos)), ni + 1)
                        } else if !(tokens[ni + 1].token is SEMICOLON) {
                            (Err((SpecParseError::UnexpectedToken(tokens[ni + 1].token@), tokens[ni + 1].pos)), ni + 2)
                        } else {
                            (Ok(WithPos { item: BareStatement::Print(e), position: tok.pos }), ni + 2)
                        },
                    }
                }
            },
            TokenType::KEYWORD(Keyword::LET) => {
                if i + 1 >= tokens.len() {
                    (Err((SpecParseError::ExpectingMoreTokens, tok.pos)), i + 1)
                } else {
                    match tokens[i + 1].token {
                        TokenType::IDENT(nm) => {
                            if i + 2 >= tokens.len() {
                                (Err((SpecParseError::ExpectingMoreTokens, tok.pos)), i + 2)
                            } else if !(tokens[i + 2].token is ASSIGN) {
                                (Err((SpecParseError::UnexpectedToken(tokens[i + 2].token@), tokens[i + 2].pos)), i + 3)
                            } else {
                                let (er, ni) = spec_parse_expr(
                                    tokens,
                                    i + 3,
                                    Seq::<Expression>::empty(),
                                    Seq::<Token>::empty(),
                                );
                                match er {
                                    Err((ek, ep)) => (Err((SpecParseError::ExpressionParserError(ek), ep)), ni),
                                    Ok(e) => if ni >= tokens.len() {
                                        (Err((SpecParseError::ExpectingMoreTokens, e.position)), ni)
                                    } else if !(tokens[ni].token is SEMICOLON) {
                                        (Err((SpecParseError::UnexpectedToken(tokens[ni].token@), tokens[ni].pos)), ni + 1)
                                    } else {
                                        (Ok(WithPos {
                                            item: BareStatement::Let(
                                                WithPos { item: nm, position: tokens[i + 1].pos },
                                                e,
                                            ),
                                            position: tok.pos,
                                        }), ni + 1)
                                    },
                                }
                            }
                        },
                        other => (Err((SpecParseError::UnexpectedToken(other@), tokens[i + 1].pos)), i + 2),
                    }
                }
            },
            t => (Err((SpecParseError::UnexpectedToken(t@), tok.pos)), i + 1),
        }
    }
}

/// Parsing never moves backwards and never runs past the tokens.
pub proof fn lemma_parse_expr_advances(
    tokens: Seq<Token>,
    i: int,
    exprs: Seq<Expression>,
    ops: Seq<Token>,
)
    requires
        0 <= i <= tokens.len(),
    ensures
        i <= spec_parse_expr(tokens, i, exprs, ops).1 <= tokens.len(),
    decreases tokens.len() - i,
{
    if i < tokens.len() {
        let tok = tokens[i];
        match tok.token {
            TokenType::IDENT(s) => {
                lemma_parse_expr_advances(
                    tokens,
                    i + 1,
                    exprs.push(WithPos {
                        item: ast::WithType {
                            item: BareExpression::Identifier(s),
                            t: ast::Type::Unknown,
                        },
                        position: tok.pos,
                    }),
                    ops,
                );
            },
            TokenType::CONST(c) => {
                lemma_parse_expr_advances(
                    tokens,
                    i + 1,
                    exprs.push(WithPos {
                        item: ast::WithType { item: BareExpression::Literal(c), t: ast::Type::I32 },
                        position: tok.pos,
                    }),
                    ops,
                );
            },
            TokenType::OPERATOR(o) => {
                match spec_shift_ops(o, tok.pos, exprs, ops) {
                    Err(_) => {},
                    Ok((exprs2, ops2)) => {
                        lemma_parse_expr_advances(tokens, i + 1, exprs2, ops2.push(tok));
                    },
                }
            },
            TokenType::LPAREN => {
                lemma_parse_expr_advances(tokens, i + 1, exprs, ops.push(tok));
            },
            TokenType::RPAREN => {
                match spec_rparen(exprs, ops) {
                    Err(_) => {},
                    Ok((exprs2, ops2, inexpr)) => {
                        if !(!inexpr && exprs2.len() == 1) {
                            lemma_parse_expr_advances(tokens, i + 1, exprs2, ops2);
                        }
                    },
                }
            },
            _ => {},
        }
    }
}

/// A successfully parsed statement consumes at least one token.
pub proof fn lemma_parse_statement_advances(tokens: Seq<Token>, i: int)
    requires
        0 <= i <= tokens.len(),
    ensures
        spec_parse_statement(tokens, i).0 is Ok ==> i < spec_parse_statement(tokens, i).1
            <= tokens.len(),
{
    if i < tokens.len() {
        match tokens[i].token {
            TokenType::KEYWORD(Keyword::PRINT) => {
                if i + 1 < tokens.len() && tokens[i + 1].token is LPAREN {
                    lemma_parse_expr_advances(
                        tokens,
                        i + 2,
                        Seq::<Expression>::empty(),
                        Seq::<Token>::empty(),
                    );
                }
            },
            TokenType::KEYWORD(Keyword::LET) => {
                if i + 2 < tokens.len() && tokens[i + 2].token is ASSIGN {
                    lemma_parse_expr_advances(
                        tokens,
                        i + 3,
                        Seq::<Expression>::empty(),
                        Seq::<Token>::empty(),
                    );
                }
            },
            _ => {},
        }
    }
}

/// The statements parsed from token `i` to the end of the list; the
/// first error aborts the whole parse.
pub open spec fn spec_parse_statement_list(tokens: Seq<Token>, i: int) -> Result<
    Seq<Statement>,
    (SpecParseError, Position),
>
    decreases tokens.len() - i,
{
    if i < 0 || i >= tokens.len() {
        Ok(Seq::<Statement>::empty())
    } else {
        let (sr, ni) = spec_parse_statement(tokens, i);
        match sr {
            Err(e) => Err(e),
            Ok(st) => if i < ni <= tokens.len() {
                match spec_parse_statement_list(tokens, ni) {
                    Err(e) => Err(e),
                    Ok(rest) => Ok(seq![st] + rest),
                }
            } else {
                Err((SpecParseError::ExpectingMoreTokens, Position { pos: 0 }))
            },
        }
    }
}

/// Parse one statement starting at `*pos`; on success `*pos` is moved
/// past it.
pub fn parse_statement(tokens: &Vec<Token>, pos: &mut usize) -> (r: Result<
    Statement,
    WithPos<ParseError>,
>)
    requires
        *old(pos) < tokens@.len(),
    ensures
        *final(pos) <= tokens@.len() + 2,
        ({
            let (res, ni) = spec_parse_statement(tokens@, *old(pos) as int);
            *final(pos) == ni && match res {
                Ok(st) => r matches Ok(x) && x == st,
                Err((ek, ep)) => r matches Err(e) && e.item@ == ek && e.position == ep,
            }
        }),
{
    let i = *pos;
    let n = tokens.len();
    let tok = &tokens[i];
    let tokpos = tok.pos;
    match &tok.token {
        TokenType::KEYWORD(Keyword::PRINT) => {
            if i + 1 >= n {
                *pos = i + 1;
                return Err(WithPos { item: ParseError::ExpectingMoreTokens, position: tokpos });
            }
            match &tokens[i + 1].token {
                TokenType::LPAREN => {},
                other => {
                    *pos = i + 2;
                    return Err(WithPos {
                        item: ParseError::UnexpectedToken(other.duplicate()),
                        position: tokens[i + 1].pos,
                    });
                },
            }
            *pos = i + 2;
            let e = match parse_expression(tokens, pos) {
                Ok(e) => e,
                Err(pe) => {
                    return Err(WithPos {
                        item: ParseError::ExpressionParserError(pe.item),
                        position: pe.position,
                    });
                },
            };
            let ni = *pos;
            if ni >= tokens.len() {
                return Err(WithPos { item: ParseError::ExpectingMoreTokens, position: e.position });
            }
            match &tokens[ni].token {
                TokenType::RPAREN => {},
                other => {
                    *pos = ni + 1;
                    return Err(WithPos {
                        item: ParseError::UnexpectedToken(other.duplicate()),
                        position: tokens[ni].pos,
                    });
                },
            }
            if ni + 1 >= tokens.len() {
                *pos = ni + 1;
                return Err(WithPos { item: ParseError::ExpectingMoreTokens, position: tokens[ni].pos });
            }
            match &tokens[ni + 1].token {
                TokenType::SEMICOLON => {},
                other => {
                    *pos = ni + 2;
                    return Err(WithPos {
                        item: ParseError::UnexpectedToken(other.duplicate()),
                        position: tokens[ni + 1].pos,
                    });
                },
            }
            *pos = ni + 2;
            Ok(WithPos { item: BareStatement::Print(e), position: tokpos })
        },
        TokenType::KEYWORD(Keyword::LET) => {
            if i + 1 >= n {
                *pos = i + 1;
                return Err(WithPos { item: ParseError::ExpectingMoreTokens, position: tokpos });
            }
            let nm = match &tokens[i + 1].token {
                TokenType::IDENT(nm) => nm.clone(),
                other => {
                    *pos = i + 2;
                    return Err(WithPos {
                        item: ParseError::UnexpectedToken(other.duplicate()),
                        position: tokens[i + 1].pos,
                    });
                },
            };
            let nmpos = tokens[i + 1].pos;
            if i + 2 >= n {
                *pos = i + 2;
                return Err(WithPos { item: ParseError::ExpectingMoreTokens, position: tokpos });
            }
            match &tokens[i + 2].token {
                TokenType::ASSIGN => {},
                other => {
                    *pos = i + 3;
                    return Err(WithPos {
                        item: ParseError::UnexpectedToken(other.duplicate()),
                        position: tokens[i + 2].pos,
                    });
                },
            }
            *pos = i + 3;
            let e = match parse_expression(tokens, pos) {
                Ok(e) => e,
                Err(pe) => {
                    return Err(WithPos {
                        item: ParseError::ExpressionParserError(pe.item),
                        position: pe.position,
                    });
                },
            };
            let ni = *pos;
            if ni >= tokens.len() {
                return Err(WithPos { item: ParseError::ExpectingMoreTokens, position: e.position });
            }
            match &tokens[ni].token {
                TokenType::SEMICOLON => {},
                other => {
                    *pos = ni + 1;
                    return Err(WithPos {
                        item: ParseError::UnexpectedToken(other.duplicate()),
                        position: tokens[ni].pos,
                    });
                },
            }
            *pos = ni + 1;
            Ok(WithPos {
                item: BareStatement::Let(WithPos { item: nm, position: nmpos }, e),
                position: tokpos,
            })
        },
        other => {
            *pos = i + 1;
            Err(WithPos { item: ParseError::UnexpectedToken(other.duplicate()), position: tokpos })
        },
    }
}

/// Parse statements until the token list is exhausted; the first error
/// aborts the whole parse.
#[verifier::loop_isolation(false)]
pub fn parse_statement_list(tokens: &Vec<Token>, pos: &mut usize) -> (r: Result<
    ast::StatementList,
    WithPos<ParseError>,
>)
    requires
        *old(pos) <= tokens@.len(),
    ensures
        match spec_parse_statement_list(tokens@, *old(pos) as int) {
            Ok(ss) => r matches Ok(sts) && sts@ == ss,
            Err((ek, ep)) => r matches Err(e) && e.item@ == ek && e.position == ep,
        },
{
    let ghost i0 = *old(pos) as int;
    let mut stmts: ast::StatementList = Vec::new();
    while *pos < tokens.len()
        invariant
            *pos <= tokens@.len(),
            (match spec_parse_statement_list(tokens@, *pos as int) {
                Ok(rest) => spec_parse_statement_list(tokens@, i0) == Ok::<_, (
                    SpecParseError,
                    Position,
                )>(stmts@ + rest),
                Err(e) => spec_parse_statement_list(tokens@, i0) == Err::<Seq<Statement>, _>(e),
            }),
        decreases tokens@.len() - *pos,
    {
        proof {
            lemma_parse_statement_advances(tokens@, *pos as int);
        }
        let ghost cur = *pos as int;
        let st = match parse_statement(tokens, pos) {
            Ok(st) => st,
            Err(e) => {
                return Err(e);
            },
        };
        let ghost prev = stmts@;
        stmts.push(st);
        proof {
            let ni = *pos as int;
            let (sr, sni) = spec_parse_statement(tokens@, cur);
            assert(sni == ni);
            assert(sr == Ok::<Statement, (SpecParseError, Position)>(st));
            match spec_parse_statement_list(tokens@, ni) {
                Ok(rest) => {
                    assert(spec_parse_statement_list(tokens@, cur) == Ok::<_, (
                        SpecParseError,
                        Position,
                    )>(seq![st] + rest));
                    assert(stmts@ + rest =~= prev + (seq![st] + rest));
                },
                Err(e) => {
                    assert(spec_parse_statement_list(tokens@, cur) == Err::<Seq<Statement>, _>(e));
                },
            }
        }
    }
    proof {
        assert(stmts@ + Seq::<Statement>::empty() =~= stmts@);
    }
    Ok(stmts)
}

/// The views of a token list.
pub open spec fn tokens_view(ts: Seq<Token>) -> Seq<SpecToken> {
    ts.map_values(|t: Token| t@)
}

/// The non-comment tokens of the source from position `i` on, or the
/// first lexing error.
pub open spec fn spec_program_tokens(s: Seq<char>, i: int) -> Result<
    Seq<SpecToken>,
    (SpecLexerError, Position),
>
    decreases s.len() - i,
{
    let (r, ni) = crate::lexer::spec_next_token(s, i);
    match r {
        None => Ok(Seq::<SpecToken>::empty()),
        Some(Err((ek, ep))) => Err((ek, ep)),
        Some(Ok(st)) => if i < ni <= s.len() {
            match spec_program_tokens(s, ni) {
                Err(e) => Err(e),
                Ok(rest) => if st.token is Comment {
                    Ok(rest)
                } else {
                    Ok(seq![st] + rest)
                },
            }
        } else {
            Err((SpecLexerError::ExpectingMoreCharacters, Position { pos: 0 }))
        },
    }
}

/// A token successfully scanned consumes at least one character.
pub proof fn lemma_next_token_advances(s: Seq<char>, i: int)
    requires
        0 <= i <= s.len(),
    ensures
        ({
            let (r, ni) = crate::lexer::spec_next_token(s, i);
            i <= ni <= s.len() && (r matches Some(Ok(_)) ==> i < ni)
        }),
{
    lemma_skip_ws_bounds(s, i);
    let j = crate::lexer::skip_ws(s, i);
    if j < s.len() {
        let c = s[j];
        if c == '#' {
            lemma_comment_end_bounds(s, j + 1);
        } else if crate::lexer::is_ident_start(c) {
            lemma_ident_end_bounds(s, j);
            assert(crate::lexer::is_ident_char(c));
            assert(crate::lexer::ident_end(s, j) == crate::lexer::ident_end(s, j + 1));
            lemma_ident_end_bounds(s, j + 1);
        } else if crate::lexer::is_digit(c) {
            lemma_digits_end_bounds(s, j);
            assert(crate::lexer::digits_end(s, j) == crate::lexer::digits_end(s, j + 1));
            lemma_digits_end_bounds(s, j + 1);
        }
    }
}

proof fn lemma_skip_ws_bounds(s: Seq<char>, i: int)
    requires
        0 <= i <= s.len(),
    ensures
        i <= crate::lexer::skip_ws(s, i) <= s.len(),
    decreases s.len() - i,
{
    if i < s.len() && crate::lexer::is_space(s[i]) {
        lemma_skip_ws_bounds(s, i + 1);
    }
}

proof fn lemma_ident_end_bounds(s: Seq<char>, i: int)
    requires
        0 <= i <= s.len(),
    ensures
        i <= crate::lexer::ident_end(s, i) <= s.len(),
    decreases s.len() - i,
{
    if i < s.len() && crate::lexer::is_ident_char(s[i]) {
        lemma_ident_end_bounds(s, i + 1);
    }
}

proof fn lemma_digits_end_bounds(s: Seq<char>, i: int)
    requires
        0 <= i <= s.len(),
    ensures
        i <= crate::lexer::digits_end(s, i) <= s.len(),
    decreases s.len() - i,
{
    if i < s.len() && crate::lexer::is_digit(s[i]) {
        lemma_digits_end_bounds(s, i + 1);
    }
}

proof fn lemma_comment_end_bounds(s: Seq<char>, i: int)
    requires
        0 <= i <= s.len(),
    ensures
        i <= crate::lexer::comment_end(s, i) <= s.len(),
    decreases s.len() - i,
{
    if i < s.len() && s[i] != '\n' {
        lemma_comment_end_bounds(s, i + 1);
    }
}

/// Parse a whole program: lex the source, drop comment tokens, and
/// parse the statement list. The first lexing or parsing error aborts.
#[verifier::loop_isolation(false)]
pub fn parse_program(lexer: TokenIterator) -> (r: Result<Program, WithPos<ParseError>>)
    requires
        lexer.wf(),
    ensures
        (match spec_program_tokens(lexer.spec_src(), lexer.spec_index()) {
            Err((ek, ep)) => r matches Err(e)
                && e.item@ == SpecParseError::LexerError(ek, ep) && e.position == ep,
            Ok(sts) => exists|ts: Seq<Token>|
                #[trigger] tokens_view(ts) == sts && (match spec_parse_statement_list(
                    ts,
                    0,
                ) {
                    Ok(ss) => r matches Ok(p) && p.body@ == ss,
                    Err((ek, ep)) => r matches Err(e) && e.item@ == ek && e.position == ep,
                }),
        }),
{
    let mut lexer = lexer;
    proof {
        lexer.lemma_wf_bounds();
    }
    let ghost s = lexer.spec_src();
    let ghost i0 = lexer.spec_index();
    let mut tokens: Vec<Token> = Vec::new();
    proof {
        assert(tokens_view(tokens@) =~= Seq::<SpecToken>::empty());
    }
    loop
        invariant
            lexer.wf(),
            lexer.spec_src() == s,
            0 <= lexer.spec_index() <= s.len(),
            (match spec_program_tokens(s, lexer.spec_index()) {
                Ok(rest) => spec_program_tokens(s, i0) == Ok::<_, (SpecLexerError, Position)>(
                    tokens_view(tokens@) + rest,
                ),
                Err(e) => spec_program_tokens(s, i0) == Err::<Seq<SpecToken>, _>(e),
            }),
        decreases s.len() - lexer.spec_index() + 1,
    {
        proof {
            lemma_next_token_advances(s, lexer.spec_index());
        }
        let ghost cur = lexer.spec_index();
        match lexer.next() {
            None => {
                break;
            },
            Some(Err(e)) => {
                let ep = e.position;
                return Err(WithPos { item: ParseError::LexerError(e), position: ep });
            },
            Some(Ok(t)) => {
                let is_comment = match &t.token {
                    TokenType::COMMENT(_) => true,
                    _ => false,
                };
                proof {
                    let ni = lexer.spec_index();
                    let (lr, lni) = crate::lexer::spec_next_token(s, cur);
                    assert(lni == ni);
                    assert(lr matches Some(Ok(st2)) && st2.token == t@.token && st2.pos == t@.pos);
                }
                if !is_comment {
                    let ghost prevtv = tokens_view(tokens@);
                    let ghost tview = t@;
                    tokens.push(t);
                    proof {
                        let ni = lexer.spec_index();
                        let tv = tokens_view(tokens@);
                        assert(tv =~= prevtv.push(tview));
                        match spec_program_tokens(s, ni) {
                            Ok(rest) => {
                                assert(spec_program_tokens(s, cur) == Ok::<_, (
                                    SpecLexerError,
                                    Position,
                                )>(seq![tview] + rest));
                                assert(tv + rest =~= prevtv + (seq![tview] + rest));
                            },
                            Err(e) => {
                                assert(spec_program_tokens(s, cur) == Err::<Seq<SpecToken>, _>(e));
                            },
                        }
                    }
                } else {
                    proof {
                        let ni = lexer.spec_index();
                        match spec_program_tokens(s, ni) {
                            Ok(rest) => {
                                assert(spec_program_tokens(s, cur) == Ok::<_, (
                                    SpecLexerError,
                                    Position,
                                )>(rest));
                            },
                            Err(e) => {
                                assert(spec_program_tokens(s, cur) == Err::<Seq<SpecToken>, _>(e));
                            },
                        }
                    }
                }
            },
        }
    }
    proof {
        assert(tokens_view(tokens@) + Seq::<SpecToken>::empty()
            =~= tokens_view(tokens@));
    }
    let mut pos: usize = 0;
    let body = match parse_statement_list(&tokens, &mut pos) {
        Ok(b) => b,
        Err(e) => {
            return Err(e);
        },
    };
    Ok(Program { body })
}

} // verus!