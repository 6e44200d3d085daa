//! Semantic analysis: resolves the type of every expression node,
//! rejecting operand and assignment type mismatches, and tracks symbol
//! declarations in a scoped symbol table. The analyzed program carries
//! no `Unknown` placeholders on the paths this pass covers.

use vstd::prelude::*;
use crate::ast;
use crate::ast::{BareExpression, BareStatement, BinaryOperator, Expression, Program, Statement};
use crate::symtab;
use crate::symtab::{frame_define, lookup, SpecFrame, SpecSymtabError, SymbolTable};
use crate::utils::Position;

verus! {

/// Failures of semantic analysis.
#[derive(Debug, Clone, PartialEq)]
pub enum Error {
    /// The two operand types of a binary operator differ.
    OperandTypeMissmatch(BinaryOperator, ast::Type, ast::Type, Position),
    /// A symbol was assigned a value of a type other than its own.
    AssignmentTypeMissmatch(String, ast::Type, ast::Type, Position),
    /// A symbol-table failure, such as an undefined symbol.
    SymbolError(symtab::Error, Position),
}

/// Mathematical mirror of `Error`.
pub enum SpecSemError {
    OperandTypeMissmatch(BinaryOperator, ast::Type, ast::Type, Position),
    AssignmentTypeMissmatch(Seq<char>, ast::Type, ast::Type, Position),
    SymbolError(SpecSymtabError, Position),
}

impl View for Error {
    type V = SpecSemError;

    open spec fn view(&self) -> SpecSemError {
        match self {
            Error::OperandTypeMissmatch(op, lt, rt, p) => SpecSemError::OperandTypeMissmatch(
                *op,
                *lt,
                *rt,
                *p,
            ),
            Error::AssignmentTypeMissmatch(s, st, et, p) => SpecSemError::AssignmentTypeMissmatch(
                s@,
                *st,
                *et,
                *p,
            ),
            Error::SymbolError(e, p) => SpecSemError::SymbolError(e@, *p),
        }
    }
}

/// The type resolved for an expression against the symbol table `t`,
/// and the expression re-annotated with it (identifiers by their
/// declared type, literals by their own type, operations by their
/// matching operand type).
pub open spec fn spec_type_of_expr(e: Expression, t: Seq<SpecFrame>) -> Result<
    (Expression, ast::Type),
    SpecSemError,
>
    decreases e,
{
    match e.item.item {
        BareExpression::Identifier(s) => match lookup(t, s@) {
            Some(entry) => Ok((
                ast::WithPos {
                    item: ast::WithType { item: BareExpression::Identifier(s), t: entry.ty },
                    position: e.position,
                },
                entry.ty,
            )),
            None => Err(SpecSemError::SymbolError(
                SpecSymtabError::UndefinedSymbol(s@),
                e.position,
            )),
        },
        BareExpression::Literal(c) => Ok((
            ast::WithPos {
                item: ast::WithType { item: BareExpression::Literal(c), t: ast::Type::I32 },
                position: e.position,
            },
            ast::Type::I32,
        )),
        BareExpression::BinaryOp(op, lhs, rhs) => match spec_type_of_expr(*lhs, t) {
            Err(e1) => Err(e1),
            Ok((l2, lt)) => match spec_type_of_expr(*rhs, t) {
                Err(e2) => Err(e2),
                Ok((r2, rt)) => if lt != rt {
                    Err(SpecSemError::OperandTypeMissmatch(op, lt, rt, e.position))
                } else {
                    Ok((
                        ast::WithPos {
                            item: ast::WithType {
                                item: BareExpression::BinaryOp(op, Box::new(l2), Box::new(r2)),
                                t: lt,
                            },
                            position: e.position,
                        },
                        lt,
                    ))
                },
            },
        },
    }
}

/// The statement shapes this analysis handles.
pub open spec fn stmt_supported(st: Statement) -> bool {
    st.item is Let || st.item is Assignment
}

/// One statement analyzed against the symbol table `t`: the annotated
/// statement and the table afterwards. A `let` declares its symbol
/// with the expression's type; an assignment requires the symbol's
/// declared type to equal the expression's type.
pub open spec fn spec_types_in_statement(st: Statement, t: Seq<SpecFrame>) -> Result<
    (Statement, Seq<SpecFrame>),
    SpecSemError,
> {
    match st.item {
        BareStatement::Let(var, expr) => match spec_type_of_expr(expr, t) {
            Err(e) => Err(e),
            Ok((e2, ty)) => Ok((
                ast::WithPos { item: BareStatement::Let(var, e2), position: st.position },
                t.update(t.len() - 1, frame_define(t.last(), var.item@, ty)),
            )),
        },
        BareStatement::Assignment(var, expr) => match lookup(t, var.item.item@) {
            None => Err(SpecSemError::SymbolError(
                SpecSymtabError::UndefinedSymbol(var.item.item@),
                var.position,
            )),
            Some(entry) => match spec_type_of_expr(expr, t) {
                Err(e) => Err(e),
                Ok((e2, ty)) => if entry.ty == ty {
                    Ok((
                        ast::WithPos {
                            item: BareStatement::Assignment(
                                ast::WithPos {
                                    item: ast::WithType { item: var.item.item, t: entry.ty },
                                    position: var.position,
                                },
                                e2,
                            ),
                            position: st.position,
                        },
                        t,
                    ))
                } else {
                    Err(SpecSemError::AssignmentTypeMissmatch(
                        var.item.item@,
                        entry.ty,
                        ty,
                        var.position,
                    ))
                },
            },
        },
        _ => Err(SpecSemError::SymbolError(
            SpecSymtabError::UndefinedSymbol(Seq::<char>::empty()),
            st.position,
        )),
    }
}

/// A statement list analyzed in order against a growing table.
pub open spec fn spec_analyze(stmts: Seq<Statement>, t: Seq<SpecFrame>) -> Result<
    Seq<Statement>,
    SpecSemError,
>
    decreases stmts.len(),
{
    if stmts.len() == 0 {
        Ok(Seq::<Statement>::empty())
    } else {
        match spec_analyze(stmts.drop_last(), t) {
            Err(e) => Err(e),
            Ok(pre) => {
                match spec_analyze_state(stmts.drop_last(), t) {
                    Err(e) => Err(e),
                    Ok(t1) => match spec_types_in_statement(stmts.last(), t1) {
                        Err(e) => Err(e),
                        Ok((st2, _)) => Ok(pre.push(st2)),
                    },
                }
            },
        }
    }
}

/// The symbol table after analyzing a statement list.
pub open spec fn spec_analyze_state(stmts: Seq<Statement>, t: Seq<SpecFrame>) -> Result<
    Seq<SpecFrame>,
    SpecSemError,
>
    decreases stmts.len(),
{
    if stmts.len() == 0 {
        Ok(t)
    } else {
        match spec_analyze_state(stmts.drop_last(), t) {
            Err(e) => Err(e),
            Ok(t1) => match spec_types_in_statement(stmts.last(), t1) {
                Err(e) => Err(e),
                Ok((_, t2)) => Ok(t2),
            },
        }
    }
}

/// Once a prefix of the statement list fails to analyze, the whole
/// list fails with that same error.
pub proof fn lemma_analyze_err_prefix(stmts: Seq<Statement>, t: Seq<SpecFrame>, m: int)
    requires
        0 <= m <= stmts.len(),
        spec_analyze(stmts.take(m), t) is Err,
    ensures
        spec_analyze(stmts, t) == spec_analyze(stmts.take(m), t),
    decreases stmts.len(),
{
    if m == stmts.len() {
        assert(stmts.take(m) =~= stmts);
    } else {
        assert(stmts.drop_last().take(m) =~= stmts.take(m));
        lemma_analyze_err_prefix(stmts.drop_last(), t, m);
    }
}

/// The type-analysis pass: a scoped symbol table tracking declared
/// types.
pub struct TypeAnalyzer {
    pub symbol_table: SymbolTable,
}

impl TypeAnalyzer {
    pub fn new() -> (r: TypeAnalyzer)
        ensures
            r.symbol_table.wf(),
            r.symbol_table@ == crate::genil::initial_table(),
    {
        TypeAnalyzer { symbol_table: SymbolTable::new() }
    }

    /// Resolve the type of one expression, re-annotating every node.
    pub fn type_of_expr(&mut self, expr: Expression) -> (r: Result<(Expression, ast::Type), Error>)
        requires
            old(self).symbol_table.wf(),
        ensures
            final(self).symbol_table.wf(),
            final(self).symbol_table == old(self).symbol_table,
            (match spec_type_of_expr(expr, old(self).symbol_table@) {
                Ok(p) => r matches Ok(q) && q == p,
                Err(e) => r matches Err(err) && err@ == e,
            }),
        decreases expr,
    {
        let position = expr.position;
        match expr.item.item {
            BareExpression::Identifier(s) => {
                match self.symbol_table.get_type(s.as_str()) {
                    Ok(ty) => Ok((
                        ast::WithPos {
                            item: ast::WithType { item: BareExpression::Identifier(s), t: ty },
                            position,
                        },
                        ty,
                    )),
                    Err(e) => Err(Error::SymbolError(e, position)),
                }
            },
            BareExpression::Literal(c) => {
                let ty = c.get_type();
                Ok((
                    ast::WithPos {
                        item: ast::WithType { item: BareExpression::Literal(c), t: ty },
                        position,
                    },
                    ty,
                ))
            },
            BareExpression::BinaryOp(op, lhs, rhs) => {
                let (l2, lt) = match self.type_of_expr(*lhs) {
                    Ok(p) => p,
                    Err(e) => {
                        return Err(e);
                    },
                };
                let (r2, rt) = match self.type_of_expr(*rhs) {
                    Ok(p) => p,
                    Err(e) => {
                        return Err(e);
                    },
                };
                if lt != rt {
                    return Err(Error::OperandTypeMissmatch(op, lt, rt, position));
                }
                Ok((
                    ast::WithPos {
                        item: ast::WithType {
                            item: BareExpression::BinaryOp(op, Box::new(l2), Box::new(r2)),
                            t: lt,
                        },
                        position,
                    },
                    lt,
                ))
            },
        }
    }

    /// Analyze one statement, updating the symbol table.
    pub fn types_in_statement(&mut self, statement: Statement) -> (r: Result<Statement, Error>)
        requires
            old(self).symbol_table.wf(),
            stmt_supported(statement),
        ensures
            final(self).symbol_table.wf(),
            (match spec_types_in_statement(statement, old(self).symbol_table@) {
                Ok((st2, t2)) => r matches Ok(x) && x == st2 && final(self).symbol_table@ == t2,
                Err(e) => r matches Err(err) && err@ == e,
            }),
    {
        let position = statement.position;
        match statement.item {
            BareStatement::Let(var, expr) => {
                let (e2, ty) = match self.type_of_expr(expr) {
                    Ok(p) => p,
                    Err(e) => {
                        return Err(e);
                    },
                };
                let name = var.item.clone();
                match self.symbol_table.define_symbol(name, ty) {
                    Ok(()) => {},
                    Err(e) => {
                        return Err(Error::SymbolError(e, position));
                    },
                }
                Ok(ast::WithPos { item: BareStatement::Let(var, e2), position })
            },
            BareStatement::Assignment(var, expr) => {
                let sym_ty = match self.symbol_table.get_type(var.item.item.as_str()) {
                    Ok(ty) => ty,
                    Err(e) => {
                        return Err(Error::SymbolError(e, var.position));
                    },
                };
                let (e2, ty) = match self.type_of_expr(expr) {
                    Ok(p) => p,
                    Err(e) => {
                        return Err(e);
                    },
                };
                if sym_ty == ty {
                    Ok(ast::WithPos {
                        item: BareStatement::Assignment(
                            ast::WithPos {
                                item: ast::WithType { item: var.item.item, t: sym_ty },
                                position: var.position,
                            },
                            e2,
                        ),
                        position,
                    })
                } else {
                    Err(Error::AssignmentTypeMissmatch(var.item.item, sym_ty, ty, var.position))
                }
            },
            _ => {
                proof {
                    assert(false);
                }
                Err(Error::SymbolError(symtab::Error::ScopeUnderflow, position))
            },
        }
    }

    /// Analyze a whole program in statement order.
    #[verifier::loop_isolation(false)]
    pub fn analyze_types(&mut self, program: Program) -> (r: Result<Program, Error>)
        requires
            old(self).symbol_table.wf(),
            forall|k: int|
                0 <= k < program.body@.len() ==> stmt_supported(#[trigger] program.body@[k]),
        ensures
            final(self).symbol_table.wf(),
            (match spec_analyze(program.body@, old(self).symbol_table@) {
                Ok(ss) => r matches Ok(p2) && p2.body@ == ss,
                Err(e) => r matches Err(err) && err@ == e,
            }),
    {
        let ghost t0 = self.symbol_table@;
        let mut body = program.body;
        let mut out: Vec<Statement> = Vec::new();
        let n = body.len();
        let mut k: usize = 0;
        proof {
            assert(body@.take(0) =~= Seq::<Statement>::empty());
            assert(out@ =~= Seq::<Statement>::empty());
        }
        while k < n
            invariant
                self.symbol_table.wf(),
                k <= n,
                n == program.body@.len(),
                body@ =~= program.body@.skip(k as int),
                out@.len() == k,
                spec_analyze(program.body@.take(k as int), t0) == Ok::<_, SpecSemError>(out@),
                spec_analyze_state(program.body@.take(k as int), t0) == Ok::<_, SpecSemError>(
                    self.symbol_table@,
                ),
            decreases n - k,
        {
            proof {
                assert(program.body@.take(k + 1).drop_last() =~= program.body@.take(k as int));
                assert(program.body@.take(k + 1).last() == program.body@[k as int]);
            }
            let st = body.remove(0);
            proof {
                assert(st == program.body@[k as int]);
                assert(body@ =~= program.body@.skip(k + 1));
            }
            let st2 = match self.types_in_statement(st) {
                Ok(s) => s,
                Err(e) => {
                    proof {
                        lemma_analyze_err_prefix(program.body@, t0, k + 1);
                    }
                    return Err(e);
                },
            };
            out.push(st2);
            k = k + 1;
        }
        proof {
            assert(program.body@.take(n as int) =~= program.body@);
        }
        Ok(Program { body: out })
    }
}

/// Analyze a program with a fresh symbol table.
pub fn analyze_semantics(program: Program) -> (r: Result<Program, Error>)
    requires
        forall|k: int| 0 <= k < program.body@.len() ==> stmt_supported(#[trigger] program.body@[k]),
    ensures
        (match spec_analyze(program.body@, crate::genil::initial_table()) {
            Ok(ss) => r matches Ok(p2) && p2.body@ == ss,
            Err(e) => r matches Err(err) && err@ == e,
        }),
{
    let mut analyzer = TypeAnalyzer::new();
    analyzer.analyze_types(program)
}

} // verus!
