//! The parser: recursive descent with one precedence level per function.

use vstd::prelude::*;

use crate::lexer::token::{kind_id, same_kind, Token, TokenType};

use self::error::{perr_of, ParserError, PErr};
use self::types::{
    expr_wf, lemma_stmts_wf_index, stmt_name, stmt_wf, Expr, Operator, OperatorType, Stmt, Value,
};

pub mod error;
pub mod types;

verus! {

/// What parsing a primary expression does to the position, and what it
/// yields: a literal, a parenthesized expression, or a variable reference;
/// any other token is refused.
pub open spec fn sp_primary(t: Seq<Token>, i: nat) -> (Result<Expr, PErr>, nat)
    decreases t.len() - i, 2int,
{
    if i >= t.len() {
        (Err(PErr::EndOfTokens), i)
    } else {
        let tok = t[i as int];
        match tok.token_type {
            TokenType::Nil => (Ok(Expr::Literal { value: Value::Nil }), i + 1),
            TokenType::False => (Ok(Expr::Literal { value: Value::Boolean(false) }), i + 1),
            TokenType::True => (Ok(Expr::Literal { value: Value::Boolean(true) }), i + 1),
            TokenType::Str(s) => (Ok(Expr::Literal { value: Value::Str(s) }), i + 1),
            TokenType::Number(d) => (Ok(Expr::Literal { value: Value::Number(d) }), i + 1),
            TokenType::LeftParen => {
                let (r1, i1) = sp_expression(t, i + 1);
                match r1 {
                    Ok(inner) => if i1 < t.len() && t[i1 as int].token_type is RightParen {
                        (Ok(Expr::Grouping { inner: Box::new(inner) }), i1 + 1)
                    } else {
                        (
                            Err(
                                PErr::Missing {
                                    kind: kind_id(TokenType::RightParen),
                                    message: "expected ')' after expression."@,
                                },
                            ),
                            i1,
                        )
                    },
                    Err(e) => (Err(e), i1),
                }
            },
            TokenType::Identifier(s) => (
                Ok(
                    Expr::Variable {
                        name: Token {
                            token_type: TokenType::Identifier(s),
                            line: tok.line,
                            col: tok.col,
                        },
                    },
                ),
                i + 1,
            ),
            _ => (Err(PErr::NotAPrimary(tok)), i + 1),
        }
    }
}

/// What parsing a unary expression does: `!` or `-` applied to a primary
/// expression, or a primary expression alone.
pub open spec fn sp_unary(t: Seq<Token>, i: nat) -> (Result<Expr, PErr>, nat)
    decreases t.len() - i, 4int,
{
    if i < t.len() && (t[i as int].token_type is Bang || t[i as int].token_type is Minus) {
        let tok = t[i as int];
        let op = Operator {
            operator_type: if tok.token_type is Bang {
                OperatorType::Bang
            } else {
                OperatorType::Minus
            },
            src_line: tok.line,
            src_col: tok.col,
        };
        let (r1, i1) = sp_primary(t, i + 1);
        match r1 {
            Ok(e) => (Ok(Expr::Unary { operator: op, right: Box::new(e) }), i1),
            Err(e) => (Err(e), i1),
        }
    } else {
        sp_primary(t, i)
    }
}

/// Folds further `*` and `/` operands onto an already parsed left operand,
/// left-associatively.
pub open spec fn sp_factor_tail(t: Seq<Token>, i: nat, acc: Expr) -> (Result<Expr, PErr>, nat)
    decreases t.len() - i, 5int,
{
    if i < t.len() && (t[i as int].token_type is Slash || t[i as int].token_type is Star) {
        let tok = t[i as int];
        let op = Operator {
            operator_type: if tok.token_type is Slash {
                OperatorType::Slash
            } else {
                OperatorType::Star
            },
            src_line: tok.line,
            src_col: tok.col,
        };
        let (r1, i1) = sp_unary(t, i + 1);
        match r1 {
            Ok(rhs) => {
                let acc2 = Expr::Binary { left: Box::new(acc), operator: op, right: Box::new(rhs) };
                if i1 > i && i1 <= t.len() {
                    sp_factor_tail(t, i1, acc2)
                } else {
                    (Ok(acc2), i1)
                }
            },
            Err(e) => (Err(e), i1),
        }
    } else {
        (Ok(acc), i)
    }
}

/// What parsing a factor does: unary expressions folded over `*` and `/`.
pub open spec fn sp_factor(t: Seq<Token>, i: nat) -> (Result<Expr, PErr>, nat)
    decreases t.len() - i, 6int,
{
    let (r, i1) = sp_unary(t, i);
    match r {
        Ok(e) => if i >= i1 || i1 > t.len() {
            (Ok(e), i1)
        } else {
            sp_factor_tail(t, i1, e)
        },
        Err(e) => (Err(e), i1),
    }
}

/// Folds further `+` and `-` operands onto an already parsed left operand,
/// left-associatively.
pub open spec fn sp_term_tail(t: Seq<Token>, i: nat, acc: Expr) -> (Result<Expr, PErr>, nat)
    decreases t.len() - i, 7int,
{
    if i < t.len() && (t[i as int].token_type is Minus || t[i as int].token_type is Plus) {
        let tok = t[i as int];
        let op = Operator {
            operator_type: if tok.token_type is Minus {
                OperatorType::Minus
            } else {
                OperatorType::Plus
            },
            src_line: tok.line,
            src_col: tok.col,
        };
        let (r1, i1) = sp_factor(t, i + 1);
        match r1 {
            Ok(rhs) => {
                let acc2 = Expr::Binary { left: Box::new(acc), operator: op, right: Box::new(rhs) };
                if i1 > i && i1 <= t.len() {
                    sp_term_tail(t, i1, acc2)
                } else {
                    (Ok(acc2), i1)
                }
            },
            Err(e) => (Err(e), i1),
        }
    } else {
        (Ok(acc), i)
    }
}

/// What parsing a term does: factors folded over `+` and `-`.
pub open spec fn sp_term(t: Seq<Token>, i: nat) -> (Result<Expr, PErr>, nat)
    decreases t.len() - i, 8int,
{
    let (r, i1) = sp_factor(t, i);
    match r {
        Ok(e) => if i >= i1 || i1 > t.len() {
            (Ok(e), i1)
        } else {
            sp_term_tail(t, i1, e)
        },
        Err(e) => (Err(e), i1),
    }
}

/// Folds further comparison operands onto an already parsed left operand,
/// left-associatively.
pub open spec fn sp_comparison_tail(t: Seq<Token>, i: nat, acc: Expr) -> (Result<Expr, PErr>, nat)
    decreases t.len() - i, 9int,
{
    if i < t.len() && (t[i as int].token_type is Less || t[i as int].token_type is LessEqual || t[
        i as int
    ].token_type is Greater || t[i as int].token_type is GreaterEqual) {
        let tok = t[i as int];
        let op = Operator {
            operator_type: match tok.token_type {
                TokenType::Less => OperatorType::Less,
                TokenType::LessEqual => OperatorType::LessEqual,
                TokenType::Greater => OperatorType::Greater,
                _ => OperatorType::GreaterEqual,
            },
            src_line: tok.line,
            src_col: tok.col,
        };
        let (r1, i1) = sp_term(t, i + 1);
        match r1 {
            Ok(rhs) => {
                let acc2 = Expr::Binary { left: Box::new(acc), operator: op, right: Box::new(rhs) };
                if i1 > i && i1 <= t.len() {
                    sp_comparison_tail(t, i1, acc2)
                } else {
                    (Ok(acc2), i1)
                }
            },
            Err(e) => (Err(e), i1),
        }
    } else {
        (Ok(acc), i)
    }
}

/// What parsing a comparison does: terms folded over `<`, `<=`, `>`, `>=`.
pub open spec fn sp_comparison(t: Seq<Token>, i: nat) -> (Result<Expr, PErr>, nat)
    decreases t.len() - i, 10int,
{
    let (r, i1) = sp_term(t, i);
    match r {
        Ok(e) => if i >= i1 || i1 > t.len() {
            (Ok(e), i1)
        } else {
            sp_comparison_tail(t, i1, e)
        },
        Err(e) => (Err(e), i1),
    }
}

/// Folds further `!=` and `==` operands onto an already parsed left
/// operand, left-associatively.
pub open spec fn sp_equality_tail(t: Seq<Token>, i: nat, acc: Expr) -> (Result<Expr, PErr>, nat)
    decreases t.len() - i, 11int,
{
    if i < t.len() && (t[i as int].token_type is BangEqual || t[
        i as int
    ].token_type is EqualEqual) {
        let tok = t[i as int];
        let op = Operator {
            operator_type: if tok.token_type is BangEqual {
                OperatorType::BangEqual
            } else {
                OperatorType::EqualEqual
            },
            src_line: tok.line,
            src_col: tok.col,
        };
        let (r1, i1) = sp_comparison(t, i + 1);
        match r1 {
            Ok(rhs) => {
                let acc2 = Expr::Binary { left: Box::new(acc), operator: op, right: Box::new(rhs) };
                if i1 > i && i1 <= t.len() {
                    sp_equality_tail(t, i1, acc2)
                } else {
                    (Ok(acc2), i1)
                }
            },
            Err(e) => (Err(e), i1),
        }
    } else {
        (Ok(acc), i)
    }
}

/// What parsing an equality does: comparisons folded over `!=` and `==`.
pub open spec fn sp_equality(t: Seq<Token>, i: nat) -> (Result<Expr, PErr>, nat)
    decreases t.len() - i, 12int,
{
    let (r, i1) = sp_comparison(t, i);
    match r {
        Ok(e) => if i >= i1 || i1 > t.len() {
            (Ok(e), i1)
        } else {
            sp_equality_tail(t, i1, e)
        },
        Err(e) => (Err(e), i1),
    }
}

/// What parsing an assignment does: an equality, and when an equals sign
/// follows, a right-associative assignment whose target must have parsed
/// to a plain variable; any other target is refused at the equals token,
/// after the right-hand side has been parsed.
pub open spec fn sp_assignment(t: Seq<Token>, i: nat) -> (Result<Expr, PErr>, nat)
    decreases t.len() - i, 14int,
{
    let (r, i1) = sp_equality(t, i);
    match r {
        Ok(e) => {
            if i1 < t.len() && t[i1 as int].token_type is Equal {
                let eq_tok = t[i1 as int];
                if i1 >= i {
                    let (r2, i2) = sp_assignment(t, i1 + 1);
                    match r2 {
                        Ok(v) => match e {
                            Expr::Variable { name } => (
                                Ok(Expr::Assign { name, value: Box::new(v) }),
                                i2,
                            ),
                            _ => (Err(PErr::BadAssignTarget(eq_tok)), i2),
                        },
                        Err(e2) => (Err(e2), i2),
                    }
                } else {
                    (Ok(e), i1)
                }
            } else {
                (Ok(e), i1)
            }
        },
        Err(e) => (Err(e), i1),
    }
}

/// What parsing an expression does: an assignment, the lowest precedence
/// level.
#[verifier::opaque]
pub open spec fn sp_expression(t: Seq<Token>, i: nat) -> (Result<Expr, PErr>, nat)
    decreases t.len() - i, 16int,
{
    sp_assignment(t, i)
}

/// An expression result agrees with its mathematical outcome.
pub open spec fn expr_result_matches(r: Result<Expr, ParserError>, s: Result<Expr, PErr>) -> bool {
    match (r, s) {
        (Ok(a), Ok(b)) => a == b,
        (Err(a), Err(b)) => perr_of(a) == b,
        _ => false,
    }
}

/// The mathematical shape of a parsed statement: blocks carry their
/// children as a sequence, everything else holds the very expressions and
/// tokens of the tree.
pub enum StmtView {
    Block(Seq<StmtView>),
    Expression(Expr),
    If { condition: Expr, then_branch: Box<StmtView>, else_branch: Option<Box<StmtView>> },
    Print(Expr),
    Var { name: Token, initializer: Option<Expr> },
    While { condition: Expr, body: Box<StmtView> },
}

/// The kind name of a statement shape; agrees with `stmt_name` on any
/// matching statement.
pub open spec fn stmt_view_name(v: StmtView) -> Seq<char> {
    match v {
        StmtView::Block(_) => "block"@,
        StmtView::Expression(_) => "expression statement"@,
        StmtView::If { .. } => "if statement"@,
        StmtView::Print(_) => "print statement"@,
        StmtView::Var { .. } => "variable declaration"@,
        StmtView::While { .. } => "while loop"@,
    }
}

/// A statement is exactly the tree its shape describes.
pub open spec fn stmt_matches(s: Stmt, v: StmtView) -> bool
    decreases s,
{
    match (s, v) {
        (Stmt::Block(ss), StmtView::Block(vs)) => stmts_match(ss@, vs),
        (Stmt::Expression(a), StmtView::Expression(b)) => a == b,
        (
            Stmt::If { condition: c1, then_branch: t1, else_branch: e1 },
            StmtView::If { condition: c2, then_branch: t2, else_branch: e2 },
        ) => c1 == c2 && stmt_matches(*t1, *t2) && (match (e1, e2) {
            (Some(a), Some(b)) => stmt_matches(*a, *b),
            (None, None) => true,
            _ => false,
        }),
        (Stmt::Print(a), StmtView::Print(b)) => a == b,
        (Stmt::Var { name: n1, initializer: i1 }, StmtView::Var { name: n2, initializer: i2 }) => n1
            == n2 && i1 == i2,
        (
            Stmt::While { condition: c1, body: b1 },
            StmtView::While { condition: c2, body: b2 },
        ) => c1 == c2 && stmt_matches(*b1, *b2),
        _ => false,
    }
}

/// A statement sequence matches a shape sequence pointwise.
pub open spec fn stmts_match(ss: Seq<Stmt>, vs: Seq<StmtView>) -> bool
    decreases ss,
{
    &&& ss.len() == vs.len()
    &&& if ss.len() == 0 {
        true
    } else {
        stmt_matches(ss.last(), vs.last()) && stmts_match(ss.drop_last(), vs.drop_last())
    }
}

/// A statement result agrees with its mathematical outcome.
pub open spec fn stmt_result_matches(r: Result<Stmt, ParserError>, s: Result<StmtView, PErr>) -> bool {
    match (r, s) {
        (Ok(a), Ok(b)) => stmt_matches(a, b),
        (Err(a), Err(b)) => perr_of(a) == b,
        _ => false,
    }
}

/// The tokens that may begin a statement, for resynchronization.
pub open spec fn starts_statement(tt: TokenType) -> bool {
    tt is Class || tt is Fun || tt is Var || tt is For || tt is If || tt is While || tt is Print
        || tt is Return
}

/// Where discarding tokens stops: just after a semicolon, just before a
/// token that begins a statement, or at the end.
pub open spec fn sp_sync_loop(t: Seq<Token>, i: nat) -> nat
    decreases t.len() - i,
{
    if i >= t.len() {
        i
    } else if i >= 1 && t[i as int - 1].token_type is Semicolon {
        i
    } else if starts_statement(t[i as int].token_type) {
        i
    } else {
        sp_sync_loop(t, i + 1)
    }
}

/// What resynchronization does to the position: one token is discarded
/// unconditionally, then tokens up to the next safe boundary.
pub open spec fn sp_sync(t: Seq<Token>, i: nat) -> nat {
    sp_sync_loop(
        t,
        if i < t.len() {
            i + 1
        } else {
            i
        },
    )
}

/// What parsing an expression statement does: an expression and its
/// required semicolon.
#[verifier::opaque]
pub open spec fn sp_expr_stmt(t: Seq<Token>, i: nat) -> (Result<StmtView, PErr>, nat)
    decreases t.len() - i, 18int,
{
    let (r, i1) = sp_expression(t, i);
    match r {
        Ok(e) => if i1 < t.len() && t[i1 as int].token_type is Semicolon {
            (Ok(StmtView::Expression(e)), i1 + 1)
        } else {
            (
                Err(
                    PErr::Missing {
                        kind: kind_id(TokenType::Semicolon),
                        message: "expected ';' after expression"@,
                    },
                ),
                i1,
            )
        },
        Err(e) => (Err(e), i1),
    }
}

/// What parsing a print statement does.
#[verifier::opaque]
pub open spec fn sp_print(t: Seq<Token>, i: nat) -> (Result<StmtView, PErr>, nat)
    decreases t.len() - i, 18int,
{
    if i < t.len() && t[i as int].token_type is Print {
        let (r, i1) = sp_expression(t, i + 1);
        match r {
            Ok(e) => if i1 < t.len() && t[i1 as int].token_type is Semicolon {
                (Ok(StmtView::Print(e)), i1 + 1)
            } else {
                (
                    Err(
                        PErr::Missing {
                            kind: kind_id(TokenType::Semicolon),
                            message: "expected ';' after value"@,
                        },
                    ),
                    i1,
                )
            },
            Err(e) => (Err(e), i1),
        }
    } else {
        (
            Err(
                PErr::Missing {
                    kind: kind_id(TokenType::Print),
                    message: "expected a `print` keyword"@,
                },
            ),
            i,
        )
    }
}

/// What parsing a variable declaration does: `var`, a name, an optional
/// initializer, and the required semicolon.
#[verifier::opaque]
pub open spec fn sp_var_decl(t: Seq<Token>, i: nat) -> (Result<StmtView, PErr>, nat)
    decreases t.len() - i, 18int,
{
    if !(i < t.len() && t[i as int].token_type is Var) {
        (
            Err(
                PErr::Missing { kind: kind_id(TokenType::Var), message: "expected a 'var' keyword"@ },
            ),
            i,
        )
    } else if !(i + 1 < t.len() && t[i as int + 1].token_type is Identifier) {
        (
            Err(
                PErr::Missing {
                    // the kind number of an identifier token
                    kind: 19,
                    message: "expected variable name"@,
                },
            ),
            i + 1,
        )
    } else {
        let name = t[i as int + 1];
        let (init, i2) = if i + 2 < t.len() && t[i as int + 2].token_type is Equal {
            let (r, i2) = sp_expression(t, i + 3);
            match r {
                Ok(e) => (Ok::<Option<Expr>, PErr>(Some(e)), i2),
                Err(e) => (Err::<Option<Expr>, PErr>(e), i2),
            }
        } else {
            (Ok::<Option<Expr>, PErr>(None), (i + 2) as nat)
        };
        match init {
            Ok(initializer) => if i2 < t.len() && t[i2 as int].token_type is Semicolon {
                (Ok(StmtView::Var { name, initializer }), i2 + 1)
            } else {
                (
                    Err(
                        PErr::Missing {
                            kind: kind_id(TokenType::Semicolon),
                            message: "expected ';' after variable declaration"@,
                        },
                    ),
                    i2,
                )
            },
            Err(e) => (Err(e), i2),
        }
    }
}

/// Folds the declarations of a block until its closing brace.
pub open spec fn sp_block_tail(t: Seq<Token>, i: nat, acc: Seq<StmtView>) -> (
    Result<StmtView, PErr>,
    nat,
)
    decreases t.len() - i, 26int,
{
    if i < t.len() && t[i as int].token_type is RightBrace {
        (Ok(StmtView::Block(acc)), i + 1)
    } else if i >= t.len() {
        (
            Err(
                PErr::Missing {
                    kind: kind_id(TokenType::RightBrace),
                    message: "expected '}' at end of block"@,
                },
            ),
            i,
        )
    } else {
        let (r, i1) = sp_declaration(t, i);
        match r {
            Ok(v) => if i1 > i && i1 <= t.len() {
                sp_block_tail(t, i1, acc.push(v))
            } else {
                (Ok(StmtView::Block(acc.push(v))), i1)
            },
            Err(e) => (Err(e), i1),
        }
    }
}


/// One step of the block fold: a successful declaration extends the
/// accumulated statements and moves the position forward.
#[verifier::rlimit(100)]
#[verifier::spinoff_prover]
proof fn lemma_block_tail_step(t: Seq<Token>, i: nat, acc: Seq<StmtView>, v: StmtView, i1: nat)
    requires
        i < t.len(),
        !(t[i as int].token_type is RightBrace),
        sp_declaration(t, i) == (Ok::<StmtView, PErr>(v), i1),
        i1 > i,
        i1 <= t.len(),
    ensures
        sp_block_tail(t, i, acc) == sp_block_tail(t, i1, acc.push(v)),
{
    reveal_with_fuel(sp_block_tail, 2);
    let d = sp_declaration(t, i);
    assert(d.0 == Ok::<StmtView, PErr>(v));
    assert(d.1 == i1);
    assert(!(i < t.len() && t[i as int].token_type is RightBrace));
    assert(!(i >= t.len()));
    assert(sp_block_tail(t, i, acc) == (match d.0 {
        Ok(vv) => if d.1 > i && d.1 <= t.len() {
            sp_block_tail(t, d.1, acc.push(vv))
        } else {
            (Ok(StmtView::Block(acc.push(vv))), d.1)
        },
        Err(e) => (Err(e), d.1),
    }));
}


/// One failing step of the block fold: a failed declaration ends the block
/// parse with that error.
#[verifier::rlimit(100)]
#[verifier::spinoff_prover]
proof fn lemma_block_tail_err(t: Seq<Token>, i: nat, acc: Seq<StmtView>, pe: PErr, i1: nat)
    requires
        i < t.len(),
        !(t[i as int].token_type is RightBrace),
        sp_declaration(t, i) == (Err::<StmtView, PErr>(pe), i1),
    ensures
        sp_block_tail(t, i, acc) == (Err::<StmtView, PErr>(pe), i1),
{
    reveal_with_fuel(sp_block_tail, 2);
    let d = sp_declaration(t, i);
    assert(sp_block_tail(t, i, acc) == (match d.0 {
        Ok(vv) => if d.1 > i && d.1 <= t.len() {
            sp_block_tail(t, d.1, acc.push(vv))
        } else {
            (Ok(StmtView::Block(acc.push(vv))), d.1)
        },
        Err(e) => (Err(e), d.1),
    }));
}



/// The children of a block shape; empty for any other shape.
pub open spec fn view_block_children(v: StmtView) -> Seq<StmtView> {
    match v {
        StmtView::Block(vs) => vs,
        _ => Seq::empty(),
    }
}

/// Matching statement and shape carry the same kind name.
proof fn lemma_matching_names(s: Stmt, v: StmtView)
    requires
        stmt_matches(s, v),
    ensures
        stmt_name(s) == stmt_view_name(v),
{
}

/// What parsing a block does: `{`, declarations, `}`.
#[verifier::opaque]
pub open spec fn sp_block(t: Seq<Token>, i: nat) -> (Result<StmtView, PErr>, nat)
    decreases t.len() - i, 18int,
{
    if i < t.len() && t[i as int].token_type is LeftBrace {
        sp_block_tail(t, i + 1, Seq::empty())
    } else {
        (
            Err(
                PErr::Missing {
                    kind: kind_id(TokenType::LeftBrace),
                    message: "expected '{' at start of block"@,
                },
            ),
            i,
        )
    }
}

/// What parsing an if statement does, the else binding to this innermost
/// if.
#[verifier::opaque]
pub open spec fn sp_if(t: Seq<Token>, i: nat) -> (Result<StmtView, PErr>, nat)
    decreases t.len() - i, 18int,
{
    if !(i < t.len() && t[i as int].token_type is If) {
        (
            Err(
                PErr::Missing { kind: kind_id(TokenType::If), message: "expected an 'if' keyword"@ },
            ),
            i,
        )
    } else if !(i + 1 < t.len() && t[i as int + 1].token_type is LeftParen) {
        (
            Err(
                PErr::Missing {
                    kind: kind_id(TokenType::LeftParen),
                    message: "expected '(' after if"@,
                },
            ),
            i + 1,
        )
    } else {
        let (rc, i2) = sp_expression(t, i + 2);
        match rc {
            Ok(condition) => if i2 < t.len() && t[i2 as int].token_type is RightParen {
                if i2 >= i {
                    let (rt, i3) = sp_statement(t, i2 + 1);
                    match rt {
                        Ok(then_branch) => if i3 < t.len() && t[i3 as int].token_type is Else {
                            if i3 >= i && i3 + 1 <= t.len() {
                                let (re, i4) = sp_statement(t, i3 + 1);
                                match re {
                                    Ok(else_branch) => (
                                        Ok(
                                            StmtView::If {
                                                condition,
                                                then_branch: Box::new(then_branch),
                                                else_branch: Some(Box::new(else_branch)),
                                            },
                                        ),
                                        i4,
                                    ),
                                    Err(e) => (Err(e), i4),
                                }
                            } else {
                                (Err(PErr::EndOfTokens), i3)
                            }
                        } else {
                            (
                                Ok(
                                    StmtView::If {
                                        condition,
                                        then_branch: Box::new(then_branch),
                                        else_branch: None,
                                    },
                                ),
                                i3,
                            )
                        },
                        Err(e) => (Err(e), i3),
                    }
                } else {
                    (Err(PErr::EndOfTokens), i2)
                }
            } else {
                (
                    Err(
                        PErr::Missing {
                            kind: kind_id(TokenType::RightParen),
                            message: "expected ')' after if condition"@,
                        },
                    ),
                    i2,
                )
            },
            Err(e) => (Err(e), i2),
        }
    }
}

/// What parsing a while statement does.
#[verifier::opaque]
pub open spec fn sp_while(t: Seq<Token>, i: nat) -> (Result<StmtView, PErr>, nat)
    decreases t.len() - i, 18int,
{
    if !(i < t.len() && t[i as int].token_type is While) {
        (
            Err(
                PErr::Missing {
                    kind: kind_id(TokenType::While),
                    message: "expected a 'while' keyword"@,
                },
            ),
            i,
        )
    } else if !(i + 1 < t.len() && t[i as int + 1].token_type is LeftParen) {
        (
            Err(
                PErr::Missing {
                    kind: kind_id(TokenType::LeftParen),
                    message: "expected '(' after while"@,
                },
            ),
            i + 1,
        )
    } else {
        let (rc, i2) = sp_expression(t, i + 2);
        match rc {
            Ok(condition) => if i2 < t.len() && t[i2 as int].token_type is RightParen {
                if i2 >= i {
                    let (rb, i3) = sp_statement(t, i2 + 1);
                    match rb {
                        Ok(body) => (
                            Ok(StmtView::While { condition, body: Box::new(body) }),
                            i3,
                        ),
                        Err(e) => (Err(e), i3),
                    }
                } else {
                    (Err(PErr::EndOfTokens), i2)
                }
            } else {
                (
                    Err(
                        PErr::Missing {
                            kind: kind_id(TokenType::RightParen),
                            message: "expected ')' after condition"@,
                        },
                    ),
                    i2,
                )
            },
            Err(e) => (Err(e), i2),
        }
    }
}

/// What parsing the body of a for loop and desugaring it does, once the
/// loop head is consumed: the body statement, the increment appended to it,
/// the while loop around it, and the block around the initializer.
#[verifier::opaque]
pub open spec fn sp_for_after(
    t: Seq<Token>,
    i: nat,
    initializer: Option<StmtView>,
    condition: Expr,
    increment: Option<Expr>,
) -> (Result<StmtView, PErr>, nat)
    decreases t.len() - i, 23int,
{
    let (rb, p6) = sp_statement(t, i);
    match rb {
        Err(e) => (Err(e), p6),
        Ok(body) => {
            let wrapped = match increment {
                Some(inc) => match body {
                    StmtView::Block(vs) => Ok(StmtView::Block(vs.push(StmtView::Expression(inc)))),
                    StmtView::Expression(_) => Ok(
                        StmtView::Block(seq![body, StmtView::Expression(inc)]),
                    ),
                    StmtView::Print(_) => Ok(
                        StmtView::Block(seq![body, StmtView::Expression(inc)]),
                    ),
                    _ => Err(
                        PErr::BadComponent {
                            expected: "a block, a print statement, or an expression statement"@,
                            got: stmt_view_name(body),
                        },
                    ),
                },
                None => Ok(body),
            };
            match wrapped {
                Err(e) => (Err(e), p6),
                Ok(new_body) => {
                    let w = StmtView::While { condition, body: Box::new(new_body) };
                    match initializer {
                        Some(init_view) => (Ok(StmtView::Block(seq![init_view, w])), p6),
                        None => (Ok(w), p6),
                    }
                },
            }
        },
    }
}

/// What parsing a for statement does: initializer, condition (true when
/// omitted) and increment between parentheses, then the body, desugared
/// into a while loop whose body ends with the increment, wrapped in a block
/// when an initializer exists.
#[verifier::opaque]
pub open spec fn sp_for(t: Seq<Token>, i: nat) -> (Result<StmtView, PErr>, nat)
    decreases t.len() - i, 20int,
{
    if !(i < t.len() && t[i as int].token_type is For) {
        (
            Err(
                PErr::Missing { kind: kind_id(TokenType::For), message: "expected a 'for' keyword"@ },
            ),
            i,
        )
    } else if !(i + 1 < t.len() && t[i as int + 1].token_type is LeftParen) {
        (
            Err(
                PErr::Missing {
                    kind: kind_id(TokenType::LeftParen),
                    message: "expected '(' after for"@,
                },
            ),
            i + 1,
        )
    } else {
        let p = i + 2;
        let (init, p1) = if p < t.len() && t[p as int].token_type is Semicolon {
            (Ok::<Option<StmtView>, PErr>(None), (p + 1) as nat)
        } else if p < t.len() && t[p as int].token_type is Var {
            let (r, p1) = sp_var_decl(t, p);
            match r {
                Ok(v) => (Ok::<Option<StmtView>, PErr>(Some(v)), p1),
                Err(e) => (Err::<Option<StmtView>, PErr>(e), p1),
            }
        } else {
            let (r, p1) = sp_expr_stmt(t, p);
            match r {
                Ok(v) => (Ok::<Option<StmtView>, PErr>(Some(v)), p1),
                Err(e) => (Err::<Option<StmtView>, PErr>(e), p1),
            }
        };
        match init {
            Err(e) => (Err(e), p1),
            Ok(initializer) => {
                let (cond, p2) = if !(p1 < t.len() && t[p1 as int].token_type is Semicolon) {
                    if p1 <= t.len() {
                        let (r, p2) = sp_expression(t, p1);
                        match r {
                            Ok(c) => (Ok::<Expr, PErr>(c), p2),
                            Err(e) => (Err::<Expr, PErr>(e), p2),
                        }
                    } else {
                        (Err::<Expr, PErr>(PErr::EndOfTokens), p1)
                    }
                } else {
                    (Ok::<Expr, PErr>(Expr::Literal { value: Value::Boolean(true) }), p1)
                };
                match cond {
                    Err(e) => (Err(e), p2),
                    Ok(condition) => {
                        if !(p2 < t.len() && t[p2 as int].token_type is Semicolon) {
                            (
                                Err(
                                    PErr::Missing {
                                        kind: kind_id(TokenType::Semicolon),
                                        message: "expected a ';' after loop condition"@,
                                    },
                                ),
                                p2,
                            )
                        } else {
                            let p3 = p2 + 1;
                            let (incr, p4) = if !(p3 < t.len() && t[p3 as int].token_type
                                is RightParen) {
                                if p3 <= t.len() {
                                    let (r, p4) = sp_expression(t, p3);
                                    match r {
                                        Ok(e) => (Ok::<Option<Expr>, PErr>(Some(e)), p4),
                                        Err(e) => (Err::<Option<Expr>, PErr>(e), p4),
                                    }
                                } else {
                                    (Err::<Option<Expr>, PErr>(PErr::EndOfTokens), p3 as nat)
                                }
                            } else {
                                (Ok::<Option<Expr>, PErr>(None), p3 as nat)
                            };
                            match incr {
                                Err(e) => (Err(e), p4),
                                Ok(increment) => {
                                    if !(p4 < t.len() && t[p4 as int].token_type is RightParen) {
                                        (
                                            Err(
                                                PErr::Missing {
                                                    kind: kind_id(TokenType::RightParen),
                                                    message: "expected ')' after loop increment"@,
                                                },
                                            ),
                                            p4,
                                        )
                                    } else {
                                        let p5 = p4 + 1;
                                        if p5 > i && p5 <= t.len() {
                                            sp_for_after(
                                                t,
                                                p5,
                                                initializer,
                                                condition,
                                                increment,
                                            )
                                        } else {
                                            (Err(PErr::EndOfTokens), p5)
                                        }
                                    }
                                },
                            }
                        }
                    },
                }
            },
        }
    }
}

/// What parsing one statement does, dispatched on the current token's
/// kind.
#[verifier::opaque]
pub open spec fn sp_statement(t: Seq<Token>, i: nat) -> (Result<StmtView, PErr>, nat)
    decreases t.len() - i, 22int,
{
    if i >= t.len() {
        (Err(PErr::EndOfTokens), i)
    } else {
        match t[i as int].token_type {
            TokenType::Print => sp_print(t, i),
            TokenType::LeftBrace => sp_block(t, i),
            TokenType::If => sp_if(t, i),
            TokenType::While => sp_while(t, i),
            TokenType::For => sp_for(t, i),
            _ => sp_expr_stmt(t, i),
        }
    }
}

/// What parsing one declaration does: a variable declaration, with
/// resynchronization on its failure, or any other statement.
#[verifier::opaque]
pub open spec fn sp_declaration(t: Seq<Token>, i: nat) -> (Result<StmtView, PErr>, nat)
    decreases t.len() - i, 24int,
{
    if i < t.len() && t[i as int].token_type is Var {
        let (r, i1) = sp_var_decl(t, i);
        match r {
            Ok(v) => (Ok(v), i1),
            Err(e) => (Err(e), sp_sync(t, i1)),
        }
    } else {
        sp_statement(t, i)
    }
}

/// Folds declarations until the tokens are exhausted or one fails.
#[verifier::opaque]
pub open spec fn sp_parse_tail(t: Seq<Token>, i: nat, acc: Seq<StmtView>) -> (
    Result<Seq<StmtView>, PErr>,
    nat,
)
    decreases t.len() - i, 28int,
{
    if i >= t.len() {
        (Ok(acc), i)
    } else {
        let (r, i1) = sp_declaration(t, i);
        match r {
            Ok(v) => if i1 > i && i1 <= t.len() {
                sp_parse_tail(t, i1, acc.push(v))
            } else {
                (Ok(acc.push(v)), i1)
            },
            Err(e) => (Err(e), i1),
        }
    }
}


/// One step of the program fold: a successful declaration extends the
/// accumulated statements and moves the position forward.
#[verifier::rlimit(100)]
#[verifier::spinoff_prover]
proof fn lemma_parse_tail_step(t: Seq<Token>, i: nat, acc: Seq<StmtView>, v: StmtView, i1: nat)
    requires
        i < t.len(),
        sp_declaration(t, i) == (Ok::<StmtView, PErr>(v), i1),
        i1 > i,
        i1 <= t.len(),
    ensures
        sp_parse_tail(t, i, acc) == sp_parse_tail(t, i1, acc.push(v)),
{
    reveal_with_fuel(sp_parse_tail, 2);
    let d = sp_declaration(t, i);
    assert(sp_parse_tail(t, i, acc) == (match d.0 {
        Ok(vv) => if d.1 > i && d.1 <= t.len() {
            sp_parse_tail(t, d.1, acc.push(vv))
        } else {
            (Ok(acc.push(vv)), d.1)
        },
        Err(e) => (Err(e), d.1),
    }));
}

/// One failing step of the program fold: a failed declaration ends the
/// parse with that error.
#[verifier::rlimit(100)]
#[verifier::spinoff_prover]
proof fn lemma_parse_tail_err(t: Seq<Token>, i: nat, acc: Seq<StmtView>, pe: PErr, i1: nat)
    requires
        i < t.len(),
        sp_declaration(t, i) == (Err::<StmtView, PErr>(pe), i1),
    ensures
        sp_parse_tail(t, i, acc) == (Err::<Seq<StmtView>, PErr>(pe), i1),
{
    reveal_with_fuel(sp_parse_tail, 2);
    let d = sp_declaration(t, i);
    assert(sp_parse_tail(t, i, acc) == (match d.0 {
        Ok(vv) => if d.1 > i && d.1 <= t.len() {
            sp_parse_tail(t, d.1, acc.push(vv))
        } else {
            (Ok(acc.push(vv)), d.1)
        },
        Err(e) => (Err(e), d.1),
    }));
}

/// What parsing a whole program does: declarations to the end of the
/// tokens, or the first error.
#[verifier::opaque]
pub open spec fn sp_parse(t: Seq<Token>, i: nat) -> (Result<Seq<StmtView>, PErr>, nat)
    decreases t.len() - i, 30int,
{
    sp_parse_tail(t, i, Seq::empty())
}

/// The parser, owning the token sequence and one progress position.
pub struct Parser {
    tokens: Vec<Token>,
    current: usize,
}

impl Parser {
    /// The tokens being parsed.
    pub closed spec fn toks(&self) -> Seq<Token> {
        self.tokens@
    }

    /// The position of the next unconsumed token.
    pub closed spec fn at(&self) -> nat {
        self.current as nat
    }

    /// The position stays in range and every token is within bounds.
    pub open spec fn wf(&self) -> bool {
        &&& self.at() <= self.toks().len()
        &&& forall|k: int| 0 <= k < self.toks().len() ==> (#[trigger] self.toks()[k]).wf()
    }

    pub fn new(tokens: Vec<Token>) -> (p: Parser)
        requires
            forall|k: int| 0 <= k < tokens@.len() ==> (#[trigger] tokens@[k]).wf(),
        ensures
            p.wf(),
            p.toks() == tokens@,
            p.at() == 0,
    {
        Parser { tokens, current: 0 }
    }

    /// Whether every token has been consumed.
    pub fn is_at_end(&self) -> (r: bool)
        ensures
            r == (self.at() >= self.toks().len()),
    {
        self.current >= self.tokens.len()
    }

    /// A copy of the next unconsumed token.
    fn peek(&self) -> (r: Option<Token>)
        requires
            self.wf(),
        ensures
            self.at() < self.toks().len() ==> r == Some(self.toks()[self.at() as int]),
            self.at() >= self.toks().len() ==> r is None,
    {
        if self.current < self.tokens.len() {
            Some(self.tokens[self.current].clone())
        } else {
            None
        }
    }

    /// Consumes and returns the next token.
    fn advance(&mut self) -> (r: Option<Token>)
        requires
            old(self).wf(),
        ensures
            final(self).wf(),
            final(self).toks() == old(self).toks(),
            old(self).at() < old(self).toks().len() ==> r == Some(
                old(self).toks()[old(self).at() as int],
            ) && final(self).at() == old(self).at() + 1,
            old(self).at() >= old(self).toks().len() ==> r is None && final(self).at() == old(
                self,
            ).at(),
    {
        if self.current < self.tokens.len() {
            let t = self.tokens[self.current].clone();
            self.current = self.current + 1;
            Some(t)
        } else {
            None
        }
    }

    /// Whether the next token's kind is among `kinds`; payloads play no
    /// part, and nothing matches at the end of the tokens.
    fn matches_any(&self, kinds: &[TokenType]) -> (r: bool)
        requires
            self.wf(),
        ensures
            r == (self.at() < self.toks().len() && exists|k: int|
                0 <= k < kinds@.len() && same_kind(
                    self.toks()[self.at() as int].token_type,
                    kinds@[k],
                )),
    {
        if self.current >= self.tokens.len() {
            return false;
        }
        let mut k: usize = 0;
        while k < kinds.len()
            invariant
                self.wf(),
                k <= kinds@.len(),
                self.at() < self.toks().len(),
                forall|j: int|
                    0 <= j < k ==> !same_kind(
                        self.toks()[self.at() as int].token_type,
                        kinds@[j],
                    ),
            decreases kinds@.len() - k,
        {
            if self.tokens[self.current].token_type.matches_kind(&kinds[k]) {
                return true;
            }
            k = k + 1;
        }
        false
    }

    /// The next token when it has the required kind, consuming it; the
    /// missing-token error, with the caller's hint, otherwise.
    fn consume(&mut self, token_type: TokenType, error_message: &str) -> (r: Result<
        Token,
        ParserError,
    >)
        requires
            old(self).wf(),
        ensures
            final(self).wf(),
            final(self).toks() == old(self).toks(),
            ({
                let i = old(self).at() as int;
                if i < old(self).toks().len() && same_kind(
                    old(self).toks()[i].token_type,
                    token_type,
                ) {
                    r == Ok::<Token, ParserError>(old(self).toks()[i]) && final(self).at() == i
                        + 1
                } else {
                    (r matches Err(e) && e matches ParserError::MissingExpectedToken {
                        token_type: tt,
                        message,
                    } && tt == token_type && message@ == error_message@) && final(self).at()
                        == old(self).at()
                }
            }),
            r matches Err(e) ==> e.wf(),
    {
        let matched = if self.current < self.tokens.len() {
            self.tokens[self.current].token_type.matches_kind(&token_type)
        } else {
            false
        };
        if matched {
            match self.advance() {
                Some(t) => Ok(t),
                None => {
                    proof {
                        assert(false);
                    }
                    Err(ParserError::UnexpectedEndOfTokens)
                },
            }
        } else {
            Err(
                ParserError::MissingExpectedToken {
                    token_type,
                    message: error_message.to_owned(),
                },
            )
        }
    }

    /// Parses one declaration after another until the tokens are exhausted,
    /// or stops at the first error.
    #[verifier::rlimit(100)]
    #[verifier::spinoff_prover]
    pub fn parse(&mut self) -> (r: Result<Vec<Stmt>, ParserError>)
        requires
            old(self).wf(),
        ensures
            final(self).wf(),
            final(self).toks() == old(self).toks(),
            r matches Ok(stmts) ==> final(self).at() == final(self).toks().len() && forall|k: int|
                0 <= k < stmts@.len() ==> #[trigger] stmt_wf(stmts@[k]),
            r matches Err(e) ==> e.wf(),
            ({
                let (sr, si) = sp_parse(old(self).toks(), old(self).at());
                (match (r, sr) {
                    (Ok(ss), Ok(vsr)) => stmts_match(ss@, vsr),
                    (Err(a), Err(b)) => perr_of(a) == b,
                    _ => false,
                }) && final(self).at() == si
            }),
        decreases old(self).toks().len() - old(self).at(), 14int,
    {
        proof {
            reveal(sp_parse);
        }
        let mut statements: Vec<Stmt> = Vec::new();
        let ghost mut vs: Seq<StmtView> = Seq::empty();
        loop
            invariant_except_break
                sp_parse(old(self).toks(), old(self).at()) == sp_parse_tail(
                    old(self).toks(),
                    self.at(),
                    vs,
                ),
            invariant
                self.wf(),
                self.toks() == old(self).toks(),
                old(self).at() <= self.at(),
                stmts_match(statements@, vs),
                forall|k: int| 0 <= k < statements@.len() ==> #[trigger] stmt_wf(statements@[k]),
            ensures
                self.wf(),
                self.toks() == old(self).toks(),
                self.at() == self.toks().len(),
                stmts_match(statements@, vs),
                forall|k: int| 0 <= k < statements@.len() ==> #[trigger] stmt_wf(statements@[k]),
                sp_parse(old(self).toks(), old(self).at()) == sp_parse_tail(
                    old(self).toks(),
                    self.at(),
                    vs,
                ),
            decreases self.toks().len() - self.at(),
        {
            if self.is_at_end() {
                break ;
            }
            let ghost pre_at = self.at();
            let ghost pre_vs = vs;
            let ghost pre_stmts = statements@;
            match self.declaration() {
                Ok(s) => {
                    proof {
                        let t = old(self).toks();
                        let (sr, si) = sp_declaration(t, pre_at);
                        assert(sr is Ok && si == self.at() && pre_at < si <= t.len());
                        if let Ok(v) = sr {
                            vs = vs.push(v);
                            lemma_parse_tail_step(t, pre_at, pre_vs, v, si);
                        } else {
                            assert(false);
                        }
                    }
                    statements.push(s);
                    proof {
                        assert(statements@.drop_last() =~= pre_stmts);
                        assert(vs.drop_last() =~= pre_vs);
                    }
                },
                Err(e) => {
                    proof {
                        let t = old(self).toks();
                        let (sr, si) = sp_declaration(t, pre_at);
                        if let Err(pe) = sr {
                            lemma_parse_tail_err(t, pre_at, vs, pe, si);
                        } else {
                            assert(false);
                        }
                    }
                    return Err(e);
                },
            }
        }
        proof {
            reveal(sp_parse_tail);
        }
        Ok(statements)
    }

    /// One declaration: a variable declaration, with resynchronization on
    /// failure, or any other statement.
    #[verifier::rlimit(100)]
    #[verifier::spinoff_prover]
    fn declaration(&mut self) -> (r: Result<Stmt, ParserError>)
        requires
            old(self).wf(),
        ensures
            final(self).wf(),
            final(self).toks() == old(self).toks(),
            old(self).at() <= final(self).at(),
            r matches Ok(s) ==> stmt_wf(s) && old(self).at() < final(self).at(),
            r matches Err(e) ==> e.wf(),
            ({
                let (sr, si) = sp_declaration(old(self).toks(), old(self).at());
                stmt_result_matches(r, sr) && final(self).at() == si
            }),
        decreases old(self).toks().len() - old(self).at(), 13int,
    {
        proof {
            reveal(sp_declaration);
        }
        if self.matches_any(&[TokenType::Var]) {
            match self.var_declaration() {
                Ok(s) => Ok(s),
                Err(e) => {
                    self.synchronize();
                    Err(e)
                },
            }
        } else {
            self.statement()
        }
    }

    /// `var` name (`=` initializer)? `;`.
    #[verifier::rlimit(50)]
    fn var_declaration(&mut self) -> (r: Result<Stmt, ParserError>)
        requires
            old(self).wf(),
        ensures
            final(self).wf(),
            final(self).toks() == old(self).toks(),
            old(self).at() <= final(self).at(),
            r matches Ok(s) ==> stmt_wf(s) && old(self).at() < final(self).at(),
            r matches Err(e) ==> e.wf(),
            ({
                let (sr, si) = sp_var_decl(old(self).toks(), old(self).at());
                stmt_result_matches(r, sr) && final(self).at() == si
            }),
        decreases old(self).toks().len() - old(self).at(), 12int,
    {
        proof {
            reveal(sp_var_decl);
        }
        let var_res = self.consume(TokenType::Var, "expected a 'var' keyword");
        match var_res {
            Ok(_) => {},
            Err(e) => {
                return Err(e);
            },
        }
        let name = match self.consume(
            TokenType::Identifier(String::new()),
            "expected variable name",
        ) {
            Ok(t) => t,
            Err(e) => {
                return Err(e);
            },
        };
        let initializer = if self.matches_any(&[TokenType::Equal]) {
            let _ = self.advance();
            match self.expression() {
                Ok(e) => Some(e),
                Err(e) => {
                    return Err(e);
                },
            }
        } else {
            None
        };
        match self.consume(TokenType::Semicolon, "expected ';' after variable declaration") {
            Ok(_) => {},
            Err(e) => {
                return Err(e);
            },
        }
        Ok(Stmt::Var { name, initializer })
    }

    /// One statement, dispatched on the current token's kind.
    #[verifier::rlimit(100)]
    #[verifier::spinoff_prover]
    fn statement(&mut self) -> (r: Result<Stmt, ParserError>)
        requires
            old(self).wf(),
        ensures
            final(self).wf(),
            final(self).toks() == old(self).toks(),
            old(self).at() <= final(self).at(),
            r matches Ok(s) ==> stmt_wf(s) && old(self).at() < final(self).at(),
            r matches Err(e) ==> e.wf(),
            ({
                let (sr, si) = sp_statement(old(self).toks(), old(self).at());
                stmt_result_matches(r, sr) && final(self).at() == si
            }),
        decreases old(self).toks().len() - old(self).at(), 11int,
    {
        proof {
            reveal(sp_statement);
        }
        let current_token = match self.peek() {
            Some(t) => t,
            None => {
                return Err(ParserError::UnexpectedEndOfTokens);
            },
        };
        match current_token.token_type {
            TokenType::Print => self.print_statement(),
            TokenType::LeftBrace => self.block(),
            TokenType::If => self.if_statement(),
            TokenType::While => self.while_statement(),
            TokenType::For => self.for_statement(),
            _ => self.expression_statement(),
        }
    }

    /// `{` declarations `}`.
    #[verifier::rlimit(50)]
    #[verifier::rlimit(100)]
    #[verifier::spinoff_prover]
    fn block(&mut self) -> (r: Result<Stmt, ParserError>)
        requires
            old(self).wf(),
        ensures
            final(self).wf(),
            final(self).toks() == old(self).toks(),
            old(self).at() <= final(self).at(),
            r matches Ok(s) ==> stmt_wf(s) && old(self).at() < final(self).at(),
            r matches Err(e) ==> e.wf(),
            ({
                let (sr, si) = sp_block(old(self).toks(), old(self).at());
                stmt_result_matches(r, sr) && final(self).at() == si
            }),
        decreases old(self).toks().len() - old(self).at(), 10int,
    {
        proof {
            reveal(sp_block);
        }
        match self.consume(TokenType::LeftBrace, "expected '{' at start of block") {
            Ok(_) => {},
            Err(e) => {
                return Err(e);
            },
        }
        let mut statements: Vec<Stmt> = Vec::new();
        let ghost mut vs: Seq<StmtView> = Seq::empty();
        loop
            invariant_except_break
                sp_block(old(self).toks(), old(self).at()) == sp_block_tail(
                    old(self).toks(),
                    self.at(),
                    vs,
                ),
            invariant
                self.wf(),
                self.toks() == old(self).toks(),
                old(self).at() < self.at(),
                stmts_match(statements@, vs),
                forall|k: int| 0 <= k < statements@.len() ==> #[trigger] stmt_wf(statements@[k]),
            ensures
                self.wf(),
                self.toks() == old(self).toks(),
                old(self).at() < self.at(),
                stmts_match(statements@, vs),
                forall|k: int| 0 <= k < statements@.len() ==> #[trigger] stmt_wf(statements@[k]),
                sp_block(old(self).toks(), old(self).at()) == sp_block_tail(
                    old(self).toks(),
                    self.at(),
                    vs,
                ),
                self.at() >= self.toks().len() || self.toks()[self.at() as int].token_type
                    is RightBrace,
            decreases self.toks().len() - self.at(),
        {
            if self.matches_any(&[TokenType::RightBrace]) {
                break ;
            }
            if self.is_at_end() {
                break ;
            }
            let ghost pre_at = self.at();
            let ghost pre_vs = vs;
            let ghost pre_stmts = statements@;
            match self.declaration() {
                Ok(s) => {
                    proof {
                        let t = old(self).toks();
                        let (sr, si) = sp_declaration(t, pre_at);
                        assert(sr is Ok && si == self.at() && pre_at < si <= t.len());
                        if let Ok(v) = sr {
                            vs = vs.push(v);
                            lemma_block_tail_step(t, pre_at, pre_vs, v, si);
                        } else {
                            assert(false);
                        }
                    }
                    statements.push(s);
                    proof {
                        assert(statements@.drop_last() =~= pre_stmts);
                        assert(vs.drop_last() =~= pre_vs);
                    }
                },
                Err(e) => {
                    proof {
                        let t = old(self).toks();
                        let (sr, si) = sp_declaration(t, pre_at);
                        if let Err(pe) = sr {
                            lemma_block_tail_err(t, pre_at, vs, pe, si);
                        } else {
                            assert(false);
                        }
                    }
                    return Err(e);
                },
            }
        }
        proof {
            reveal(sp_block_tail);
        }
        match self.consume(TokenType::RightBrace, "expected '}' at end of block") {
            Ok(_) => {},
            Err(e) => {
                return Err(e);
            },
        }
        proof {
            lemma_stmts_wf_index(statements@);
        }
        Ok(Stmt::Block(statements))
    }

    /// `print` expression `;`.
    #[verifier::rlimit(50)]
    #[verifier::spinoff_prover]
    fn print_statement(&mut self) -> (r: Result<Stmt, ParserError>)
        requires
            old(self).wf(),
        ensures
            final(self).wf(),
            final(self).toks() == old(self).toks(),
            old(self).at() <= final(self).at(),
            r matches Ok(s) ==> stmt_wf(s) && old(self).at() < final(self).at(),
            r matches Err(e) ==> e.wf(),
            ({
                let (sr, si) = sp_print(old(self).toks(), old(self).at());
                stmt_result_matches(r, sr) && final(self).at() == si
            }),
        decreases old(self).toks().len() - old(self).at(), 10int,
    {
        proof {
            reveal(sp_print);
        }
        match self.consume(TokenType::Print, "expected a `print` keyword") {
            Ok(_) => {},
            Err(e) => {
                return Err(e);
            },
        }
        let expr = match self.expression() {
            Ok(e) => e,
            Err(e) => {
                return Err(e);
            },
        };
        match self.consume(TokenType::Semicolon, "expected ';' after value") {
            Ok(_) => {},
            Err(e) => {
                return Err(e);
            },
        }
        Ok(Stmt::Print(expr))
    }

    /// `if (` condition `)` then-branch (`else` else-branch)?; an `else`
    /// binds to the nearest open `if`.
    #[verifier::rlimit(100)]
    #[verifier::spinoff_prover]
    fn if_statement(&mut self) -> (r: Result<Stmt, ParserError>)
        requires
            old(self).wf(),
        ensures
            final(self).wf(),
            final(self).toks() == old(self).toks(),
            old(self).at() <= final(self).at(),
            r matches Ok(s) ==> stmt_wf(s) && old(self).at() < final(self).at(),
            r matches Err(e) ==> e.wf(),
            ({
                let (sr, si) = sp_if(old(self).toks(), old(self).at());
                stmt_result_matches(r, sr) && final(self).at() == si
            }),
        decreases old(self).toks().len() - old(self).at(), 10int,
    {
        proof {
            reveal(sp_if);
        }
        match self.consume(TokenType::If, "expected an 'if' keyword") {
            Ok(_) => {},
            Err(e) => {
                return Err(e);
            },
        }
        match self.consume(TokenType::LeftParen, "expected '(' after if") {
            Ok(_) => {},
            Err(e) => {
                return Err(e);
            },
        }
        let condition = match self.expression() {
            Ok(e) => e,
            Err(e) => {
                return Err(e);
            },
        };
        match self.consume(TokenType::RightParen, "expected ')' after if condition") {
            Ok(_) => {},
            Err(e) => {
                return Err(e);
            },
        }
        let then_branch = match self.statement() {
            Ok(s) => Box::new(s),
            Err(e) => {
                return Err(e);
            },
        };
        let else_branch = if self.matches_any(&[TokenType::Else]) {
            let _ = self.advance();
            match self.statement() {
                Ok(s) => Some(Box::new(s)),
                Err(e) => {
                    return Err(e);
                },
            }
        } else {
            None
        };
        Ok(Stmt::If { condition, then_branch, else_branch })
    }

    /// `while (` condition `)` body.
    #[verifier::rlimit(100)]
    #[verifier::spinoff_prover]
    fn while_statement(&mut self) -> (r: Result<Stmt, ParserError>)
        requires
            old(self).wf(),
        ensures
            final(self).wf(),
            final(self).toks() == old(self).toks(),
            old(self).at() <= final(self).at(),
            r matches Ok(s) ==> stmt_wf(s) && old(self).at() < final(self).at(),
            r matches Err(e) ==> e.wf(),
            ({
                let (sr, si) = sp_while(old(self).toks(), old(self).at());
                stmt_result_matches(r, sr) && final(self).at() == si
            }),
        decreases old(self).toks().len() - old(self).at(), 10int,
    {
        proof {
            reveal(sp_while);
        }
        match self.consume(TokenType::While, "expected a 'while' keyword") {
            Ok(_) => {},
            Err(e) => {
                return Err(e);
            },
        }
        match self.consume(TokenType::LeftParen, "expected '(' after while") {
            Ok(_) => {},
            Err(e) => {
                return Err(e);
            },
        }
        let condition = match self.expression() {
            Ok(e) => e,
            Err(e) => {
                return Err(e);
            },
        };
        match self.consume(TokenType::RightParen, "expected ')' after condition") {
            Ok(_) => {},
            Err(e) => {
                return Err(e);
            },
        }
        let body = match self.statement() {
            Ok(s) => Box::new(s),
            Err(e) => {
                return Err(e);
            },
        };
        Ok(Stmt::While { condition, body })
    }

    /// `for (` initializer? `;` condition? `;` increment? `)` body,
    /// desugared into a block holding the initializer and a while loop whose
    /// body ends with the increment.
    #[verifier::rlimit(100)]
    #[verifier::spinoff_prover]
    fn for_statement(&mut self) -> (r: Result<Stmt, ParserError>)
        requires
            old(self).wf(),
        ensures
            final(self).wf(),
            final(self).toks() == old(self).toks(),
            old(self).at() <= final(self).at(),
            r matches Ok(s) ==> stmt_wf(s) && old(self).at() < final(self).at(),
            r matches Err(e) ==> e.wf(),
            ({
                let (sr, si) = sp_for(old(self).toks(), old(self).at());
                stmt_result_matches(r, sr) && final(self).at() == si
            }),
        decreases old(self).toks().len() - old(self).at(), 10int,
    {
        proof {
            reveal(sp_for);
        }
        match self.consume(TokenType::For, "expected a 'for' keyword") {
            Ok(_) => {},
            Err(e) => {
                return Err(e);
            },
        }
        match self.consume(TokenType::LeftParen, "expected '(' after for") {
            Ok(_) => {},
            Err(e) => {
                return Err(e);
            },
        }
        // The initializer.
        let ghost mut iv: Option<StmtView> = None;
        let initializer = if self.matches_any(&[TokenType::Semicolon]) {
            match self.consume(TokenType::Semicolon, "expected a ';' after loop initializer") {
                Ok(_) => {},
                Err(e) => {
                    return Err(e);
                },
            }
            None
        } else if self.matches_any(&[TokenType::Var]) {
            let ghost pre = self.at();
            match self.var_declaration() {
                Ok(s) => {
                    proof {
                        let (sr, si) = sp_var_decl(old(self).toks(), pre);
                        if let Ok(v) = sr {
                            iv = Some(v);
                        } else {
                            assert(false);
                        }
                    }
                    Some(s)
                },
                Err(e) => {
                    return Err(e);
                },
            }
        } else {
            let ghost pre = self.at();
            match self.expression_statement() {
                Ok(s) => {
                    proof {
                        let (sr, si) = sp_expr_stmt(old(self).toks(), pre);
                        if let Ok(v) = sr {
                            iv = Some(v);
                        } else {
                            assert(false);
                        }
                    }
                    Some(s)
                },
                Err(e) => {
                    return Err(e);
                },
            }
        };
        // The condition; a missing one means the loop runs until broken by
        // other means.
        let condition = if !self.matches_any(&[TokenType::Semicolon]) {
            match self.expression() {
                Ok(e) => e,
                Err(e) => {
                    return Err(e);
                },
            }
        } else {
            Expr::Literal { value: Value::Boolean(true) }
        };
        match self.consume(TokenType::Semicolon, "expected a ';' after loop condition") {
            Ok(_) => {},
            Err(e) => {
                return Err(e);
            },
        }
        // The increment.
        let increment = if !self.matches_any(&[TokenType::RightParen]) {
            match self.expression() {
                Ok(e) => Some(e),
                Err(e) => {
                    return Err(e);
                },
            }
        } else {
            None
        };
        match self.consume(TokenType::RightParen, "expected ')' after loop increment") {
            Ok(_) => {},
            Err(e) => {
                return Err(e);
            },
        }
        // The body, with the increment appended at its end; a separate step
        // so each piece carries its own proof.
        self.for_statement_body(initializer, condition, increment, Ghost(iv))
    }

    /// Parses a for loop's body and desugars the loop: the increment goes
    /// to the end of the body, a while loop wraps it, and a block wraps the
    /// initializer when there is one.
    #[verifier::rlimit(100)]
    #[verifier::spinoff_prover]
    fn for_statement_body(
        &mut self,
        initializer: Option<Stmt>,
        condition: Expr,
        increment: Option<Expr>,
        Ghost(iv): Ghost<Option<StmtView>>,
    ) -> (r: Result<Stmt, ParserError>)
        requires
            old(self).wf(),
            expr_wf(condition),
            match increment {
                Some(e) => expr_wf(e),
                None => true,
            },
            match (initializer, iv) {
                (Some(s), Some(v)) => stmt_matches(s, v) && stmt_wf(s),
                (None, None) => true,
                _ => false,
            },
        ensures
            final(self).wf(),
            final(self).toks() == old(self).toks(),
            old(self).at() <= final(self).at(),
            r matches Ok(s) ==> stmt_wf(s) && old(self).at() < final(self).at(),
            r matches Err(e) ==> e.wf(),
            ({
                let (sr, si) = sp_for_after(
                    old(self).toks(),
                    old(self).at(),
                    iv,
                    condition,
                    increment,
                );
                stmt_result_matches(r, sr) && final(self).at() == si
            }),
        decreases old(self).toks().len() - old(self).at(), 12int,
    {
        proof {
            reveal(sp_for_after);
        }
        let body = match self.statement() {
            Ok(s) => s,
            Err(e) => {
                return Err(e);
            },
        };
        let ghost t0 = old(self).toks();
        let ghost i0 = old(self).at();
        // Reassigned at once: the shape the parsed body statement matches.
        let ghost mut view = StmtView::Expression(condition);
        proof {
            let (sbr, sbi) = sp_statement(t0, i0);
            assert(sbr is Ok && sbi == self.at());
            if let Ok(b) = sbr {
                view = b;
            } else {
                assert(false);
            }
            assert(stmt_matches(body, view));
        }
        let body = if let Some(increment) = increment {
            let ghost incv = increment;
            let increment_stmt = Stmt::Expression(increment);
            let ghost inc_ghost = increment_stmt;
            let ok_shape = matches!(body, Stmt::Block(_)) || matches!(body, Stmt::Expression(_))
                || matches!(body, Stmt::Print(_));
            if !ok_shape {
                proof {
                    lemma_matching_names(body, view);
                }
                return Err(
                    ParserError::UnexpectedLanguageComponent {
                        expected: "a block, a print statement, or an expression statement".to_owned(),
                        got: body.name().to_owned(),
                    },
                );
            }
            match body {
                Stmt::Block(mut stmts) => {
                    let ghost pre = stmts@;
                    let ghost vs0 = view_block_children(view);
                    stmts.push(increment_stmt);
                    proof {
                        lemma_stmts_wf_index(pre);
                        lemma_stmts_wf_index(stmts@);
                        assert forall|k: int| 0 <= k < stmts@.len() implies #[trigger] stmt_wf(
                            stmts@[k],
                        ) by {
                            if k < pre.len() {
                                assert(stmts@[k] == pre[k]);
                            } else {
                                assert(stmts@[k] == inc_ghost);
                            }
                        }
                        assert(view is Block && view == StmtView::Block(vs0));
                        assert(stmts_match(pre, vs0));
                        view = StmtView::Block(vs0.push(StmtView::Expression(incv)));
                        assert(stmts@.drop_last() =~= pre);
                        assert(vs0.push(StmtView::Expression(incv)).drop_last() =~= vs0);
                        assert(stmts@.last() == Stmt::Expression(incv));
                        assert(stmt_matches(
                            Stmt::Expression(incv),
                            StmtView::Expression(incv),
                        ));
                        assert(stmts_match(stmts@, vs0.push(StmtView::Expression(incv))));
                    }
                    let rebuilt = Stmt::Block(stmts);
                    proof {
                        assert(stmt_matches(rebuilt, view));
                    }
                    rebuilt
                },
                other => {
                    let ghost other_ghost = other;
                    let ghost other_view = view;
                    let mut stmts: Vec<Stmt> = Vec::new();
                    stmts.push(other);
                    stmts.push(increment_stmt);
                    proof {
                        assert forall|k: int| 0 <= k < stmts@.len() implies #[trigger] stmt_wf(
                            stmts@[k],
                        ) by {
                            assert(stmts@[0] == other_ghost);
                            assert(stmts@[1] == inc_ghost);
                        }
                        lemma_stmts_wf_index(stmts@);
                        assert(stmts@.drop_last() =~= seq![other_ghost]);
                        assert(seq![other_ghost].drop_last() =~= Seq::<Stmt>::empty());
                        view = StmtView::Block(seq![other_view, StmtView::Expression(incv)]);
                        assert(seq![other_view, StmtView::Expression(incv)].drop_last()
                            =~= seq![other_view]);
                        assert(seq![other_view].drop_last() =~= Seq::<StmtView>::empty());
                        assert(stmts@.last() == Stmt::Expression(incv));
                        assert(stmt_matches(
                            Stmt::Expression(incv),
                            StmtView::Expression(incv),
                        ));
                        assert(stmts_match(Seq::<Stmt>::empty(), Seq::<StmtView>::empty()));
                        assert(stmts_match(seq![other_ghost], seq![other_view]));
                        assert(stmts_match(
                            stmts@,
                            seq![other_view, StmtView::Expression(incv)],
                        ));
                    }
                    let rebuilt = Stmt::Block(stmts);
                    proof {
                        assert(stmt_matches(rebuilt, view));
                    }
                    rebuilt
                },
            }
        } else {
            body
        };
        proof {
            assert(stmt_wf(body));
            assert(stmt_matches(body, view));
        }
        let desugared_for_loop = Stmt::While { condition, body: Box::new(body) };
        proof {
            assert(stmt_wf(desugared_for_loop));
            view = StmtView::While { condition, body: Box::new(view) };
            assert(stmt_matches(desugared_for_loop, view));
        }
        // A wrapping block scopes the initializer, when there is one.
        let desugared_for_loop = if let Some(initializer) = initializer {
            let ghost init_ghost = initializer;
            let ghost loop_ghost = desugared_for_loop;
            let ghost loop_view = view;
            let mut stmts: Vec<Stmt> = Vec::new();
            stmts.push(initializer);
            stmts.push(desugared_for_loop);
            proof {
                assert forall|k: int| 0 <= k < stmts@.len() implies #[trigger] stmt_wf(
                    stmts@[k],
                ) by {
                    assert(stmts@[0] == init_ghost);
                    assert(stmts@[1] == loop_ghost);
                }
                lemma_stmts_wf_index(stmts@);
                assert(stmts@.drop_last() =~= seq![init_ghost]);
                assert(seq![init_ghost].drop_last() =~= Seq::<Stmt>::empty());
                if let Some(ivv) = iv {
                    view = StmtView::Block(seq![ivv, loop_view]);
                    assert(seq![ivv, loop_view].drop_last() =~= seq![ivv]);
                    assert(seq![ivv].drop_last() =~= Seq::<StmtView>::empty());
                    assert(stmt_matches(init_ghost, ivv));
                    assert(stmts@.last() == loop_ghost);
                    assert(stmt_matches(loop_ghost, loop_view));
                    assert(stmts_match(Seq::<Stmt>::empty(), Seq::<StmtView>::empty()));
                    assert(stmts_match(seq![init_ghost], seq![ivv]));
                    assert(stmts_match(stmts@, seq![ivv, loop_view]));
                } else {
                    assert(false);
                }
            }
            let wrapped = Stmt::Block(stmts);
            proof {
                assert(stmt_matches(wrapped, view));
            }
            wrapped
        } else {
            desugared_for_loop
        };
        proof {
            assert(stmt_matches(desugared_for_loop, view));
        }
        Ok(desugared_for_loop)
    }

    /// An expression followed by the required `;`.
    #[verifier::rlimit(50)]
    #[verifier::spinoff_prover]
    fn expression_statement(&mut self) -> (r: Result<Stmt, ParserError>)
        requires
            old(self).wf(),
        ensures
            final(self).wf(),
            final(self).toks() == old(self).toks(),
            old(self).at() <= final(self).at(),
            r matches Ok(s) ==> stmt_wf(s) && old(self).at() < final(self).at(),
            r matches Err(e) ==> e.wf(),
            ({
                let (sr, si) = sp_expr_stmt(old(self).toks(), old(self).at());
                stmt_result_matches(r, sr) && final(self).at() == si
            }),
        decreases old(self).toks().len() - old(self).at(), 10int,
    {
        proof {
            reveal(sp_expr_stmt);
        }
        let expr = match self.expression() {
            Ok(e) => e,
            Err(e) => {
                return Err(e);
            },
        };
        match self.consume(TokenType::Semicolon, "expected ';' after expression") {
            Ok(_) => {},
            Err(e) => {
                return Err(e);
            },
        }
        Ok(Stmt::Expression(expr))
    }

    /// One expression, at the lowest precedence level.
    pub fn expression(&mut self) -> (r: Result<Expr, ParserError>)
        requires
            old(self).wf(),
        ensures
            final(self).wf(),
            final(self).toks() == old(self).toks(),
            old(self).at() <= final(self).at(),
            r matches Ok(x) ==> expr_wf(x) && old(self).at() < final(self).at(),
            r matches Err(e) ==> e.wf(),
            ({
                let (sr, si) = sp_expression(old(self).toks(), old(self).at());
                expr_result_matches(r, sr) && final(self).at() == si
            }),
        decreases old(self).toks().len() - old(self).at(), 8int,
    {
        proof {
            reveal(sp_expression);
        }
        self.assignment()
    }

    /// Assignment, right-associative; the left-hand side must have parsed
    /// to a plain variable.
    #[verifier::rlimit(100)]
    #[verifier::spinoff_prover]
    fn assignment(&mut self) -> (r: Result<Expr, ParserError>)
        requires
            old(self).wf(),
        ensures
            final(self).wf(),
            final(self).toks() == old(self).toks(),
            old(self).at() <= final(self).at(),
            r matches Ok(x) ==> expr_wf(x) && old(self).at() < final(self).at(),
            r matches Err(e) ==> e.wf(),
            ({
                let (sr, si) = sp_assignment(old(self).toks(), old(self).at());
                expr_result_matches(r, sr) && final(self).at() == si
            }),
        decreases old(self).toks().len() - old(self).at(), 7int,
    {
        let expr = match self.equality() {
            Ok(e) => e,
            Err(e) => {
                return Err(e);
            },
        };
        if self.matches_any(&[TokenType::Equal]) {
            let equals_token = match self.advance() {
                Some(t) => t,
                None => {
                    proof {
                        assert(false);
                    }
                    return Err(ParserError::UnexpectedEndOfTokens);
                },
            };
            let value = match self.assignment() {
                Ok(v) => v,
                Err(e) => {
                    return Err(e);
                },
            };
            if let Expr::Variable { name } = expr {
                return Ok(Expr::Assign { name, value: Box::new(value) });
            }
            return Err(ParserError::InvalidAssignmentTarget(equals_token));
        }
        Ok(expr)
    }

    /// Equality, left-associative over `==` and `!=`.
    #[verifier::rlimit(50)]
    fn equality(&mut self) -> (r: Result<Expr, ParserError>)
        requires
            old(self).wf(),
        ensures
            final(self).wf(),
            final(self).toks() == old(self).toks(),
            old(self).at() <= final(self).at(),
            r matches Ok(x) ==> expr_wf(x) && old(self).at() < final(self).at(),
            r matches Err(e) ==> e.wf(),
            ({
                let (sr, si) = sp_equality(old(self).toks(), old(self).at());
                expr_result_matches(r, sr) && final(self).at() == si
            }),
        decreases old(self).toks().len() - old(self).at(), 6int,
    {
        let mut expr = match self.comparison() {
            Ok(e) => e,
            Err(e) => {
                return Err(e);
            },
        };
        loop
            invariant_except_break
                sp_equality(old(self).toks(), old(self).at()) == sp_equality_tail(
                    old(self).toks(),
                    self.at(),
                    expr,
                ),
            invariant
                self.wf(),
                self.toks() == old(self).toks(),
                old(self).at() < self.at(),
                expr_wf(expr),
            ensures
                self.wf(),
                self.toks() == old(self).toks(),
                old(self).at() < self.at(),
                expr_wf(expr),
                sp_equality(old(self).toks(), old(self).at()) == (Ok::<Expr, PErr>(expr), self.at()),
            decreases self.toks().len() - self.at(),
        {
            if !self.matches_any(&[TokenType::BangEqual, TokenType::EqualEqual]) {
                break ;
            }
            let operator_token = match self.advance() {
                Some(t) => t,
                None => {
                    proof {
                        assert(false);
                    }
                    return Err(ParserError::UnexpectedEndOfTokens);
                },
            };
            let operator = match Operator::try_from(operator_token) {
                Ok(o) => o,
                Err(e) => {
                    return Err(e);
                },
            };
            let right = match self.comparison() {
                Ok(e) => e,
                Err(e) => {
                    return Err(e);
                },
            };
            expr = Expr::Binary { left: Box::new(expr), operator, right: Box::new(right) };
        }
        Ok(expr)
    }

    /// Comparison, left-associative over `<`, `<=`, `>`, `>=`.
    #[verifier::rlimit(50)]
    fn comparison(&mut self) -> (r: Result<Expr, ParserError>)
        requires
            old(self).wf(),
        ensures
            final(self).wf(),
            final(self).toks() == old(self).toks(),
            old(self).at() <= final(self).at(),
            r matches Ok(x) ==> expr_wf(x) && old(self).at() < final(self).at(),
            r matches Err(e) ==> e.wf(),
            ({
                let (sr, si) = sp_comparison(old(self).toks(), old(self).at());
                expr_result_matches(r, sr) && final(self).at() == si
            }),
        decreases old(self).toks().len() - old(self).at(), 5int,
    {
        let mut expr = match self.term() {
            Ok(e) => e,
            Err(e) => {
                return Err(e);
            },
        };
        loop
            invariant_except_break
                sp_comparison(old(self).toks(), old(self).at()) == sp_comparison_tail(
                    old(self).toks(),
                    self.at(),
                    expr,
                ),
            invariant
                self.wf(),
                self.toks() == old(self).toks(),
                old(self).at() < self.at(),
                expr_wf(expr),
            ensures
                self.wf(),
                self.toks() == old(self).toks(),
                old(self).at() < self.at(),
                expr_wf(expr),
                sp_comparison(old(self).toks(), old(self).at()) == (Ok::<Expr, PErr>(expr), self.at()),
            decreases self.toks().len() - self.at(),
        {
            if !self.matches_any(
                &[TokenType::Less, TokenType::LessEqual, TokenType::Greater, TokenType::GreaterEqual],
            ) {
                break ;
            }
            let operator_token = match self.advance() {
                Some(t) => t,
                None => {
                    proof {
                        assert(false);
                    }
                    return Err(ParserError::UnexpectedEndOfTokens);
                },
            };
            let operator = match Operator::try_from(operator_token) {
                Ok(o) => o,
                Err(e) => {
                    return Err(e);
                },
            };
            let right = match self.term() {
                Ok(e) => e,
                Err(e) => {
                    return Err(e);
                },
            };
            expr = Expr::Binary { left: Box::new(expr), operator, right: Box::new(right) };
        }
        Ok(expr)
    }

    /// Terms, left-associative over `+` and `-`.
    #[verifier::rlimit(100)]
    #[verifier::spinoff_prover]
    fn term(&mut self) -> (r: Result<Expr, ParserError>)
        requires
            old(self).wf(),
        ensures
            final(self).wf(),
            final(self).toks() == old(self).toks(),
            old(self).at() <= final(self).at(),
            r matches Ok(x) ==> expr_wf(x) && old(self).at() < final(self).at(),
            r matches Err(e) ==> e.wf(),
            ({
                let (sr, si) = sp_term(old(self).toks(), old(self).at());
                expr_result_matches(r, sr) && final(self).at() == si
            }),
        decreases old(self).toks().len() - old(self).at(), 4int,
    {
        let mut expr = match self.factor() {
            Ok(e) => e,
            Err(e) => {
                return Err(e);
            },
        };
        loop
            invariant_except_break
                sp_term(old(self).toks(), old(self).at()) == sp_term_tail(
                    old(self).toks(),
                    self.at(),
                    expr,
                ),
            invariant
                self.wf(),
                self.toks() == old(self).toks(),
                old(self).at() < self.at(),
                expr_wf(expr),
            ensures
                self.wf(),
                self.toks() == old(self).toks(),
                old(self).at() < self.at(),
                expr_wf(expr),
                sp_term(old(self).toks(), old(self).at()) == (Ok::<Expr, PErr>(expr), self.at()),
            decreases self.toks().len() - self.at(),
        {
            if !self.matches_any(&[TokenType::Minus, TokenType::Plus]) {
                break ;
            }
            let operator_token = match self.advance() {
                Some(t) => t,
                None => {
                    proof {
                        assert(false);
                    }
                    return Err(ParserError::UnexpectedEndOfTokens);
                },
            };
            let operator = match Operator::try_from(operator_token) {
                Ok(o) => o,
                Err(e) => {
                    return Err(e);
                },
            };
            let right = match self.factor() {
                Ok(e) => e,
                Err(e) => {
                    return Err(e);
                },
            };
            expr = Expr::Binary { left: Box::new(expr), operator, right: Box::new(right) };
        }
        Ok(expr)
    }

    /// Factors, left-associative over `*` and `/`.
    #[verifier::rlimit(100)]
    #[verifier::spinoff_prover]
    fn factor(&mut self) -> (r: Result<Expr, ParserError>)
        requires
            old(self).wf(),
        ensures
            final(self).wf(),
            final(self).toks() == old(self).toks(),
            old(self).at() <= final(self).at(),
            r matches Ok(x) ==> expr_wf(x) && old(self).at() < final(self).at(),
            r matches Err(e) ==> e.wf(),
            ({
                let (sr, si) = sp_factor(old(self).toks(), old(self).at());
                expr_result_matches(r, sr) && final(self).at() == si
            }),
        decreases old(self).toks().len() - old(self).at(), 3int,
    {
        let mut expr = match self.unary() {
            Ok(e) => e,
            Err(e) => {
                return Err(e);
            },
        };
        loop
            invariant_except_break
                sp_factor(old(self).toks(), old(self).at()) == sp_factor_tail(
                    old(self).toks(),
                    self.at(),
                    expr,
                ),
            invariant
                self.wf(),
                self.toks() == old(self).toks(),
                old(self).at() < self.at(),
                expr_wf(expr),
            ensures
                self.wf(),
                self.toks() == old(self).toks(),
                old(self).at() < self.at(),
                expr_wf(expr),
                sp_factor(old(self).toks(), old(self).at()) == (Ok::<Expr, PErr>(expr), self.at()),
            decreases self.toks().len() - self.at(),
        {
            if !self.matches_any(&[TokenType::Slash, TokenType::Star]) {
                break ;
            }
            let operator_token = match self.advance() {
                Some(t) => t,
                None => {
                    proof {
                        assert(false);
                    }
                    return Err(ParserError::UnexpectedEndOfTokens);
                },
            };
            let operator = match Operator::try_from(operator_token) {
                Ok(o) => o,
                Err(e) => {
                    return Err(e);
                },
            };
            let right = match self.unary() {
                Ok(e) => e,
                Err(e) => {
                    return Err(e);
                },
            };
            expr = Expr::Binary { left: Box::new(expr), operator, right: Box::new(right) };
        }
        Ok(expr)
    }

    /// A unary `!` or `-` applied to a primary expression, or a primary
    /// expression alone.
    fn unary(&mut self) -> (r: Result<Expr, ParserError>)
        requires
            old(self).wf(),
        ensures
            final(self).wf(),
            final(self).toks() == old(self).toks(),
            old(self).at() <= final(self).at(),
            r matches Ok(x) ==> expr_wf(x) && old(self).at() < final(self).at(),
            r matches Err(e) ==> e.wf(),
            ({
                let (sr, si) = sp_unary(old(self).toks(), old(self).at());
                expr_result_matches(r, sr) && final(self).at() == si
            }),
        decreases old(self).toks().len() - old(self).at(), 2int,
    {
        if self.matches_any(&[TokenType::Bang, TokenType::Minus]) {
            let operator_token = match self.advance() {
                Some(t) => t,
                None => {
                    proof {
                        assert(false);
                    }
                    return Err(ParserError::UnexpectedEndOfTokens);
                },
            };
            let operator = match Operator::try_from(operator_token) {
                Ok(o) => o,
                Err(e) => {
                    return Err(e);
                },
            };
            let right = match self.primary() {
                Ok(e) => e,
                Err(e) => {
                    return Err(e);
                },
            };
            return Ok(Expr::Unary { operator, right: Box::new(right) });
        }
        self.primary()
    }

    /// A literal, a parenthesized expression, or a variable reference.
    fn primary(&mut self) -> (r: Result<Expr, ParserError>)
        requires
            old(self).wf(),
        ensures
            final(self).wf(),
            final(self).toks() == old(self).toks(),
            old(self).at() <= final(self).at(),
            r matches Ok(x) ==> expr_wf(x) && old(self).at() < final(self).at(),
            r matches Err(e) ==> e.wf(),
            ({
                let (sr, si) = sp_primary(old(self).toks(), old(self).at());
                expr_result_matches(r, sr) && final(self).at() == si
            }),
        decreases old(self).toks().len() - old(self).at(), 1int,
    {
        proof {
            reveal(sp_expression);
        }
        let token = match self.advance() {
            Some(t) => t,
            None => {
                return Err(ParserError::UnexpectedEndOfTokens);
            },
        };
        let expr = match token.token_type {
            TokenType::Nil => Expr::Literal { value: Value::Nil },
            TokenType::False => Expr::Literal { value: Value::Boolean(false) },
            TokenType::True => Expr::Literal { value: Value::Boolean(true) },
            TokenType::Str(s) => Expr::Literal { value: Value::Str(s) },
            TokenType::Number(num) => Expr::Literal { value: Value::Number(num) },
            TokenType::LeftParen => {
                let inner_expr = match self.expression() {
                    Ok(e) => e,
                    Err(e) => {
                        return Err(e);
                    },
                };
                match self.consume(TokenType::RightParen, "expected ')' after expression.") {
                    Ok(_) => {},
                    Err(e) => {
                        return Err(e);
                    },
                }
                Expr::Grouping { inner: Box::new(inner_expr) }
            },
            TokenType::Identifier(s) => Expr::Variable {
                name: Token { token_type: TokenType::Identifier(s), line: token.line, col: token.col },
            },
            _ => {
                return Err(ParserError::InvalidPrimaryExpressionToken(token));
            },
        };
        Ok(expr)
    }

    /// Discards tokens until just after a semicolon or just before a token
    /// that begins a new statement, so one bad declaration does not poison
    /// the rest.
    fn synchronize(&mut self)
        requires
            old(self).wf(),
        ensures
            final(self).wf(),
            final(self).toks() == old(self).toks(),
            old(self).at() <= final(self).at(),
            final(self).at() == sp_sync(old(self).toks(), old(self).at()),
    {
        let _ = self.advance();
        loop
            invariant
                self.wf(),
                self.toks() == old(self).toks(),
                old(self).at() <= self.at(),
                sp_sync_loop(old(self).toks(), self.at()) == sp_sync(
                    old(self).toks(),
                    old(self).at(),
                ),
            ensures
                self.wf(),
                self.toks() == old(self).toks(),
                old(self).at() <= self.at(),
                self.at() == sp_sync(old(self).toks(), old(self).at()),
            decreases self.toks().len() - self.at(),
        {
            if self.current >= self.tokens.len() {
                break ;
            }
            if self.current >= 1 {
                if self.tokens[self.current - 1].token_type.matches_kind(
                    &TokenType::Semicolon,
                ) {
                    break ;
                }
            }
            let starts_statement = matches!(
                self.tokens[self.current].token_type,
                TokenType::Class | TokenType::Fun | TokenType::Var | TokenType::For
                    | TokenType::If | TokenType::While | TokenType::Print | TokenType::Return
            );
            if starts_statement {
                break ;
            }
            let _ = self.advance();
        }
    }
}

} // verus!
