//! The syntax tree: statements, expressions, runtime values and operators.

use vstd::prelude::*;

use crate::decimal::{render_num, Decimal};
use crate::lexer::token::{Token, TokenType};
use crate::parser::error::ParserError;

verus! {

/// A statement node.
#[derive(Debug, PartialEq)]
pub enum Stmt {
    Block(Vec<Stmt>),
    Expression(Expr),
    If { condition: Expr, then_branch: Box<Stmt>, else_branch: Option<Box<Stmt>> },
    Print(Expr),
    Var { name: Token, initializer: Option<Expr> },
    While { condition: Expr, body: Box<Stmt> },
}

/// The kind name of a statement.
pub open spec fn stmt_name(s: Stmt) -> Seq<char> {
    match s {
        Stmt::Block(_) => "block"@,
        Stmt::Expression(_) => "expression statement"@,
        Stmt::If { .. } => "if statement"@,
        Stmt::Print(_) => "print statement"@,
        Stmt::Var { .. } => "variable declaration"@,
        Stmt::While { .. } => "while loop"@,
    }
}

impl Stmt {
    /// The kind name of this statement.
    pub fn name(&self) -> (r: &'static str)
        ensures
            r@ == stmt_name(*self),
    {
        match self {
            Stmt::Block(_) => "block",
            Stmt::Expression(_) => "expression statement",
            Stmt::If { .. } => "if statement",
            Stmt::Print(_) => "print statement",
            Stmt::Var { .. } => "variable declaration",
            Stmt::While { .. } => "while loop",
        }
    }
}

/// An expression node.
#[derive(Debug, PartialEq)]
pub enum Expr {
    Assign { name: Token, value: Box<Expr> },
    Binary { left: Box<Expr>, operator: Operator, right: Box<Expr> },
    Grouping { inner: Box<Expr> },
    Literal { value: Value },
    Unary { operator: Operator, right: Box<Expr> },
    Variable { name: Token },
}

/// The shape the parser guarantees of every expression it produces: variable
/// and assignment names are identifier tokens, and number literals stay
/// within the decimal bounds.
pub open spec fn expr_wf(e: Expr) -> bool
    decreases e,
{
    match e {
        Expr::Assign { name, value } => name.wf() && expr_wf(*value),
        Expr::Binary { left, operator, right } => expr_wf(*left) && expr_wf(*right)
            && binary_op_allowed(operator.operator_type),
        Expr::Grouping { inner } => expr_wf(*inner),
        Expr::Literal { value } => value.wf(),
        Expr::Unary { operator, right } => expr_wf(*right),
        Expr::Variable { name } => name.token_type is Identifier,
    }
}

/// The shape the parser guarantees of each statement in a sequence.
pub open spec fn stmts_wf(v: Seq<Stmt>) -> bool
    decreases v,
{
    if v.len() == 0 {
        true
    } else {
        stmt_wf(v.first()) && stmts_wf(v.drop_first())
    }
}

/// A sequence of statements is well-formed exactly when each one is.
pub proof fn lemma_stmts_wf_index(v: Seq<Stmt>)
    ensures
        stmts_wf(v) <==> (forall|k: int| 0 <= k < v.len() ==> #[trigger] stmt_wf(v[k])),
    decreases v.len(),
{
    if v.len() > 0 {
        lemma_stmts_wf_index(v.drop_first());
        assert(forall|k: int|
            0 < k < v.len() ==> #[trigger] stmt_wf(v[k]) == stmt_wf(v.drop_first()[k - 1]));
        if stmts_wf(v) {
            assert forall|k: int| 0 <= k < v.len() implies #[trigger] stmt_wf(v[k]) by {
                if k == 0 {
                    assert(v[0] == v.first());
                } else {
                    assert(v[k] == v.drop_first()[k - 1]);
                }
            }
        }
        if forall|k: int| 0 <= k < v.len() ==> #[trigger] stmt_wf(v[k]) {
            assert(stmt_wf(v[0]));
            assert(v.first() == v[0]);
            assert forall|k: int| 0 <= k < v.drop_first().len() implies #[trigger] stmt_wf(
                v.drop_first()[k],
            ) by {
                assert(v.drop_first()[k] == v[k + 1]);
            }
        }
    }
}

/// The shape the parser guarantees of every statement it produces.
pub open spec fn stmt_wf(s: Stmt) -> bool
    decreases s,
{
    match s {
        Stmt::Block(stmts) => stmts_wf(stmts@),
        Stmt::Expression(e) => expr_wf(e),
        Stmt::If { condition, then_branch, else_branch } => expr_wf(condition) && stmt_wf(
            *then_branch,
        ) && (match else_branch {
            Some(b) => stmt_wf(*b),
            None => true,
        }),
        Stmt::Print(e) => expr_wf(e),
        Stmt::Var { name, initializer } => name.token_type is Identifier && (match initializer {
            Some(e) => expr_wf(e),
            None => true,
        }),
        Stmt::While { condition, body } => expr_wf(condition) && stmt_wf(*body),
    }
}

/// A runtime value of the language.
#[derive(Debug, PartialEq)]
pub enum Value {
    Boolean(bool),
    Nil,
    Number(Decimal),
    Str(String),
}

impl Clone for Value {
    fn clone(&self) -> (res: Self)
        ensures
            res == *self,
    {
        match self {
            Value::Boolean(b) => Value::Boolean(*b),
            Value::Nil => Value::Nil,
            Value::Number(d) => Value::Number(*d),
            Value::Str(s) => Value::Str(s.clone()),
        }
    }
}

/// The mathematical shape of a runtime value: numbers as exact decimals,
/// text as its characters.
pub enum Val {
    Bool(bool),
    Nil,
    Num(Decimal),
    Text(Seq<char>),
}

/// The mathematical value a runtime value stands for.
pub open spec fn val_of(v: Value) -> Val {
    match v {
        Value::Boolean(b) => Val::Bool(b),
        Value::Nil => Val::Nil,
        Value::Number(d) => Val::Num(d),
        Value::Str(s) => Val::Text(s@),
    }
}

/// Truthiness: nil is false, a number is false exactly when it is zero, a
/// boolean is itself, text is always true.
pub open spec fn truthy(v: Val) -> bool {
    match v {
        Val::Bool(b) => b,
        Val::Nil => false,
        Val::Num(d) => d.mantissa != 0,
        Val::Text(_) => true,
    }
}

/// Structural equality of values; two numbers are equal when they stand for
/// the same rational. Values of different kinds are never equal.
pub open spec fn val_eq(a: Val, b: Val) -> bool {
    match (a, b) {
        (Val::Bool(x), Val::Bool(y)) => x == y,
        (Val::Nil, Val::Nil) => true,
        (Val::Num(d1), Val::Num(d2)) => d1.same_value(d2),
        (Val::Text(x), Val::Text(y)) => x == y,
        _ => false,
    }
}

/// The printed form of a value: text verbatim, booleans and nil by name,
/// numbers in their canonical decimal form.
pub open spec fn stringify_val(v: Val) -> Seq<char> {
    match v {
        Val::Bool(b) => if b {
            "true"@
        } else {
            "false"@
        },
        Val::Nil => "nil"@,
        Val::Num(d) => render_num(d.mantissa as int, d.scale as nat),
        Val::Text(t) => t,
    }
}

impl Value {
    /// Whether the value is a number.
    pub fn is_number(&self) -> (r: bool)
        ensures
            r == (self is Number),
    {
        matches!(self, Value::Number(_))
    }

    /// Whether every value in the slice is a number.
    pub fn all_is_number(values: &[Value]) -> (r: bool)
        ensures
            r == forall|k: int| 0 <= k < values@.len() ==> values@[k] is Number,
    {
        let mut i: usize = 0;
        while i < values.len()
            invariant
                i <= values@.len(),
                forall|k: int| 0 <= k < i ==> values@[k] is Number,
            decreases values@.len() - i,
        {
            if !values[i].is_number() {
                return false;
            }
            i = i + 1;
        }
        true
    }

    /// Whether the value counts as true.
    pub fn is_truthy(&self) -> (r: bool)
        requires
            self.wf(),
        ensures
            r == truthy(val_of(*self)),
    {
        match self {
            Value::Boolean(boolean) => *boolean,
            Value::Nil => false,
            Value::Number(num) => num.mantissa != 0,
            Value::Str(_) => true,
        }
    }

    /// The number bounds, where the value holds a number.
    pub open spec fn wf(self) -> bool {
        match self {
            Value::Number(d) => d.wf(),
            _ => true,
        }
    }

    /// The value's printing format: what `print` writes.
    pub fn stringify(&self) -> (r: String)
        requires
            self.wf(),
        ensures
            r@ == stringify_val(val_of(*self)),
    {
        match self {
            Value::Str(string) => string.clone(),
            Value::Boolean(b) => {
                if *b {
                    "true".to_owned()
                } else {
                    "false".to_owned()
                }
            },
            Value::Nil => "nil".to_owned(),
            Value::Number(d) => d.render(),
        }
    }
}

/// An operator with the source position it was written at.
#[derive(Debug, Clone, Copy, PartialEq)]
pub struct Operator {
    pub operator_type: OperatorType,
    /// Line number in the source text.
    pub src_line: usize,
    /// Column number in the source text.
    pub src_col: usize,
}

/// The token kinds that act as operators.
#[derive(Debug, Clone, Copy, PartialEq, Eq, Structural)]
pub enum OperatorType {
    Dot,
    Minus,
    Plus,
    Slash,
    Star,
    Bang,
    BangEqual,
    Equal,
    EqualEqual,
    Greater,
    GreaterEqual,
    Less,
    LessEqual,
}

/// The written form of an operator.
pub open spec fn operator_text(ot: OperatorType) -> Seq<char> {
    match ot {
        OperatorType::Dot => "."@,
        OperatorType::Minus => "-"@,
        OperatorType::Plus => "+"@,
        OperatorType::Slash => "/"@,
        OperatorType::Star => "*"@,
        OperatorType::Bang => "!"@,
        OperatorType::BangEqual => "!="@,
        OperatorType::Equal => "="@,
        OperatorType::EqualEqual => "=="@,
        OperatorType::Greater => ">"@,
        OperatorType::GreaterEqual => ">="@,
        OperatorType::Less => "<"@,
        OperatorType::LessEqual => "<="@,
    }
}

/// The rendered form of a value inside a larger rendering: text is quoted,
/// everything else prints as `stringify_val` does.
pub open spec fn value_text(v: Val) -> Seq<char> {
    match v {
        Val::Text(t) => seq!['"'] + t + seq!['"'],
        _ => stringify_val(v),
    }
}

impl Operator {
    /// The written form of this operator.
    pub fn render(&self) -> (r: &'static str)
        ensures
            r@ == operator_text(self.operator_type),
    {
        match self.operator_type {
            OperatorType::Dot => ".",
            OperatorType::Minus => "-",
            OperatorType::Plus => "+",
            OperatorType::Slash => "/",
            OperatorType::Star => "*",
            OperatorType::Bang => "!",
            OperatorType::BangEqual => "!=",
            OperatorType::Equal => "=",
            OperatorType::EqualEqual => "==",
            OperatorType::Greater => ">",
            OperatorType::GreaterEqual => ">=",
            OperatorType::Less => "<",
            OperatorType::LessEqual => "<=",
        }
    }
}

impl Value {
    /// The rendered form of this value for diagnostics and tree renderings:
    /// text is quoted, everything else prints as `stringify` does.
    pub fn render(&self) -> (r: String)
        requires
            self.wf(),
        ensures
            r@ == value_text(val_of(*self)),
    {
        match self {
            Value::Str(t) => {
                let mut s = String::new();
                crate::strutil::push_char(&mut s, '"');
                s.append(t.as_str());
                crate::strutil::push_char(&mut s, '"');
                proof {
                    assert(s@ =~= value_text(val_of(*self)));
                }
                s
            },
            _ => self.stringify(),
        }
    }
}

/// The canonical rendering of an expression: every compound form in
/// parentheses with its operator first.
pub open spec fn expr_text(e: Expr) -> Seq<char>
    decreases e,
{
    match e {
        Expr::Binary { left, operator, right } => seq!['('] + operator_text(
            operator.operator_type,
        ) + seq![' '] + expr_text(*left) + seq![' '] + expr_text(*right) + seq![')'],
        Expr::Grouping { inner } => "(group "@ + expr_text(*inner) + seq![')'],
        Expr::Literal { value } => value_text(val_of(value)),
        Expr::Unary { operator, right } => seq!['('] + operator_text(operator.operator_type)
            + seq![' '] + expr_text(*right) + seq![')'],
        Expr::Assign { name, value } => "(assign "@ + crate::lexer::token::token_text(name)
            + " <- "@ + expr_text(*value) + seq![')'],
        Expr::Variable { name } => "(var "@ + crate::lexer::token::token_text(name) + seq![')'],
    }
}

/// The canonical rendering of a sequence of statements, each followed by
/// one space.
pub open spec fn stmts_text(v: Seq<Stmt>) -> Seq<char>
    decreases v,
{
    if v.len() == 0 {
        Seq::<char>::empty()
    } else {
        stmt_text(v.first()) + seq![' '] + stmts_text(v.drop_first())
    }
}

/// The canonical rendering of a statement.
pub open spec fn stmt_text(s: Stmt) -> Seq<char>
    decreases s,
{
    match s {
        Stmt::Block(stmts) => "{ "@ + stmts_text(stmts@) + " }"@,
        Stmt::Expression(e) => expr_text(e) + ";"@,
        Stmt::If { condition, then_branch, else_branch } => "(If "@ + expr_text(condition)
            + " then "@ + stmt_text(*then_branch) + (match else_branch {
            Some(b) => " else "@ + stmt_text(*b),
            None => Seq::<char>::empty(),
        }) + ")"@,
        Stmt::Print(e) => "(print "@ + expr_text(e) + ");"@,
        Stmt::Var { name, initializer } => "(var "@ + crate::lexer::token::token_text(name)
            + " = "@ + (match initializer {
            Some(e) => expr_text(e),
            None => "nil"@,
        }) + ");"@,
        Stmt::While { condition, body } => "(While "@ + expr_text(condition) + " is true => "@
            + stmt_text(*body) + ")"@,
    }
}

impl Expr {
    /// The canonical printed form of this expression.
    pub fn render(&self) -> (r: String)
        requires
            expr_wf(*self),
        ensures
            r@ == expr_text(*self),
        decreases *self,
    {
        let mut s = String::new();
        match self {
            Expr::Binary { left, operator, right } => {
                crate::strutil::push_char(&mut s, '(');
                s.append(operator.render());
                crate::strutil::push_char(&mut s, ' ');
                s.append(left.render().as_str());
                crate::strutil::push_char(&mut s, ' ');
                s.append(right.render().as_str());
                crate::strutil::push_char(&mut s, ')');
            },
            Expr::Grouping { inner } => {
                s.append("(group ");
                s.append(inner.render().as_str());
                crate::strutil::push_char(&mut s, ')');
            },
            Expr::Literal { value } => {
                s.append(value.render().as_str());
            },
            Expr::Unary { operator, right } => {
                crate::strutil::push_char(&mut s, '(');
                s.append(operator.render());
                crate::strutil::push_char(&mut s, ' ');
                s.append(right.render().as_str());
                crate::strutil::push_char(&mut s, ')');
            },
            Expr::Assign { name, value } => {
                s.append("(assign ");
                s.append(name.render().as_str());
                s.append(" <- ");
                s.append(value.render().as_str());
                crate::strutil::push_char(&mut s, ')');
            },
            Expr::Variable { name } => {
                s.append("(var ");
                s.append(name.render().as_str());
                crate::strutil::push_char(&mut s, ')');
            },
        }
        proof {
            assert(s@ =~= expr_text(*self));
        }
        s
    }
}

impl Stmt {
    /// The canonical printed form of this statement.
    pub fn render(&self) -> (r: String)
        requires
            stmt_wf(*self),
        ensures
            r@ == stmt_text(*self),
        decreases *self,
    {
        let mut s = String::new();
        match self {
            Stmt::Block(stmts) => {
                proof {
                    lemma_stmts_wf_index(stmts@);
                    assert(stmts@.subrange(0, stmts@.len() as int) =~= stmts@);
                }
                s.append("{ ");
                let mut i: usize = 0;
                loop
                    invariant
                        i <= stmts@.len(),
                        forall|k: int| 0 <= k < stmts@.len() ==> #[trigger] stmt_wf(stmts@[k]),
                        s@ + stmts_text(stmts@.subrange(i as int, stmts@.len() as int)) == "{ "@
                            + stmts_text(stmts@),
                        (*self) matches Stmt::Block(v) && v@ == stmts@,
                    ensures
                        s@ == "{ "@ + stmts_text(stmts@),
                    decreases stmts@.len() - i,
                {
                    if i >= stmts.len() {
                        proof {
                            let sub = stmts@.subrange(i as int, stmts@.len() as int);
                            assert(sub.len() == 0);
                            assert(stmts_text(sub) =~= Seq::<char>::empty());
                            assert(s@ + Seq::<char>::empty() =~= s@);
                        }
                        break ;
                    }
                    let ghost sub = stmts@.subrange(i as int, stmts@.len() as int);
                    let ghost s_pre = s@;
                    proof {
                        assert(sub.first() == stmts@[i as int]);
                        assert(sub.drop_first() =~= stmts@.subrange(
                            i as int + 1,
                            stmts@.len() as int,
                        ));
                    }
                    s.append(stmts[i].render().as_str());
                    crate::strutil::push_char(&mut s, ' ');
                    i = i + 1;
                    proof {
                        assert(s@ =~= s_pre + stmt_text(stmts@[i - 1]) + seq![' ']);
                        assert(s@ + stmts_text(stmts@.subrange(i as int, stmts@.len() as int))
                            =~= s_pre + stmts_text(sub));
                    }
                }
                s.append(" }");
                proof {
                    assert(s@ =~= "{ "@ + stmts_text(stmts@) + " }"@);
                }
            },
            Stmt::Expression(e) => {
                s.append(e.render().as_str());
                s.append(";");
                proof {
                    assert(s@ =~= expr_text(*e) + ";"@);
                }
            },
            Stmt::If { condition, then_branch, else_branch } => {
                s.append("(If ");
                s.append(condition.render().as_str());
                s.append(" then ");
                s.append(then_branch.render().as_str());
                match else_branch {
                    Some(b) => {
                        s.append(" else ");
                        s.append(b.render().as_str());
                    },
                    None => {},
                }
                s.append(")");
                proof {
                    assert(s@ =~= stmt_text(*self));
                }
            },
            Stmt::Print(e) => {
                s.append("(print ");
                s.append(e.render().as_str());
                s.append(");");
                proof {
                    assert(s@ =~= "(print "@ + expr_text(*e) + ");"@);
                }
            },
            Stmt::Var { name, initializer } => {
                s.append("(var ");
                s.append(name.render().as_str());
                s.append(" = ");
                match initializer {
                    Some(e) => {
                        s.append(e.render().as_str());
                    },
                    None => {
                        s.append("nil");
                    },
                }
                s.append(");");
                proof {
                    assert(s@ =~= stmt_text(*self));
                }
            },
            Stmt::While { condition, body } => {
                s.append("(While ");
                s.append(condition.render().as_str());
                s.append(" is true => ");
                s.append(body.render().as_str());
                s.append(")");
                proof {
                    assert(s@ =~= "(While "@ + expr_text(*condition) + " is true => "@
                        + stmt_text(**body) + ")"@);
                }
            },
        }
        proof {
            assert(s@ =~= stmt_text(*self));
        }
        s
    }
}

/// The operators the parser places between two operands; the others stand
/// only for assignment, negation, or field access.
pub open spec fn binary_op_allowed(ot: OperatorType) -> bool {
    !(ot is Dot || ot is Equal || ot is Bang)
}

/// The operator a token stands for, when it is operator-shaped.
pub open spec fn operator_of(t: TokenType) -> Option<OperatorType> {
    match t {
        TokenType::Dot => Some(OperatorType::Dot),
        TokenType::Minus => Some(OperatorType::Minus),
        TokenType::Plus => Some(OperatorType::Plus),
        TokenType::Slash => Some(OperatorType::Slash),
        TokenType::Star => Some(OperatorType::Star),
        TokenType::Bang => Some(OperatorType::Bang),
        TokenType::BangEqual => Some(OperatorType::BangEqual),
        TokenType::Equal => Some(OperatorType::Equal),
        TokenType::EqualEqual => Some(OperatorType::EqualEqual),
        TokenType::Greater => Some(OperatorType::Greater),
        TokenType::GreaterEqual => Some(OperatorType::GreaterEqual),
        TokenType::Less => Some(OperatorType::Less),
        TokenType::LessEqual => Some(OperatorType::LessEqual),
        _ => None,
    }
}

impl Operator {
    /// The checked conversion from a token: only operator-shaped token kinds
    /// yield an operator, keeping the token's position.
    pub fn try_from(token: Token) -> (r: Result<Operator, ParserError>)
        ensures
            match operator_of(token.token_type) {
                Some(ot) => r == Ok::<Operator, ParserError>(
                    Operator { operator_type: ot, src_line: token.line, src_col: token.col },
                ),
                None => r == Err::<Operator, ParserError>(
                    ParserError::InvalidTokenToOperatorConversion(token),
                ),
            },
    {
        let operator_type = match token.token_type {
            TokenType::Dot => OperatorType::Dot,
            TokenType::Minus => OperatorType::Minus,
            TokenType::Plus => OperatorType::Plus,
            TokenType::Slash => OperatorType::Slash,
            TokenType::Star => OperatorType::Star,
            TokenType::Bang => OperatorType::Bang,
            TokenType::BangEqual => OperatorType::BangEqual,
            TokenType::Equal => OperatorType::Equal,
            TokenType::EqualEqual => OperatorType::EqualEqual,
            TokenType::Greater => OperatorType::Greater,
            TokenType::GreaterEqual => OperatorType::GreaterEqual,
            TokenType::Less => OperatorType::Less,
            TokenType::LessEqual => OperatorType::LessEqual,
            _ => {
                return Err(ParserError::InvalidTokenToOperatorConversion(token));
            },
        };
        Ok(Operator { operator_type, src_line: token.line, src_col: token.col })
    }
}

} // verus!
