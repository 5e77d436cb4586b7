//! Expressions, and the recursive-descent parser that builds them.
use vstd::prelude::*;

use crate::interpreter::Statement;
use crate::scanner::{shows_function, value_text, Literal, Token, TokenType};

verus! {

/// An expression tree; each node owns its children.
pub enum Expression {
    Grouping { expression: Box<Expression> },
    Binary { left: Box<Expression>, operator: Token, right: Box<Expression> },
    Unary { operator: Token, right: Box<Expression> },
    Literal { literal_value: Literal },
    Var { name: Token },
    Assignment { name: Token, value: Box<Expression> },
}

/// The structure of an expression as text: `(op left right)` for binary
/// and prefix operators, `(group e)`, `(var name)`, `name=value`, and
/// literals as they display.
pub open spec fn expression_text<S: Fn(u64) -> String>(e: Expression, show: S) -> Seq<char>
    decreases e,
{
    match e {
        Expression::Grouping { expression } => seq!['(', 'g', 'r', 'o', 'u', 'p', ' ']
            + expression_text(*expression, show) + seq![')'],
        Expression::Binary { left, operator, right } => seq!['('] + operator.lexeme@ + seq![' ']
            + expression_text(*left, show) + seq![' '] + expression_text(*right, show) + seq![
            ')',
        ],
        Expression::Unary { operator, right } => seq!['('] + operator.lexeme@ + seq![' ']
            + expression_text(*right, show) + seq![')'],
        Expression::Literal { literal_value } => value_text(literal_value@, show),
        Expression::Var { name } => seq!['(', 'v', 'a', 'r', ' '] + name.lexeme@ + seq![')'],
        Expression::Assignment { name, value } => name.lexeme@ + seq!['='] + expression_text(
            *value,
            show,
        ),
    }
}

impl Expression {
    /// The structure of the expression as text; `show` writes numbers.
    pub fn to_custom_string<S: Fn(u64) -> String>(&self, show: &S) -> (r: String)
        requires
            forall|n: u64| call_requires(*show, (n,)),
        ensures
            shows_function(*show) ==> r@ == expression_text(*self, *show),
        decreases self,
    {
        proof {
            reveal_strlit("(group ");
            reveal_strlit(")");
            reveal_strlit("(");
            reveal_strlit(" ");
            reveal_strlit("(var ");
            reveal_strlit("=");
        }
        let mut r = String::new();
        match self {
            Expression::Grouping { expression } => {
                r.append("(group ");
                r.append(expression.to_custom_string(show).as_str());
                r.append(")");
            },
            Expression::Binary { left, operator, right } => {
                r.append("(");
                r.append(operator.lexeme());
                r.append(" ");
                r.append(left.to_custom_string(show).as_str());
                r.append(" ");
                r.append(right.to_custom_string(show).as_str());
                r.append(")");
            },
            Expression::Unary { operator, right } => {
                r.append("(");
                r.append(operator.lexeme());
                r.append(" ");
                r.append(right.to_custom_string(show).as_str());
                r.append(")");
            },
            Expression::Literal { literal_value } => {
                r = literal_value.to_custom_string(show);
            },
            Expression::Var { name } => {
                r.append("(var ");
                r.append(name.lexeme());
                r.append(")");
            },
            Expression::Assignment { name, value } => {
                r.append(name.lexeme());
                r.append("=");
                r.append(value.to_custom_string(show).as_str());
            },
        }
        proof {
            if shows_function(*show) {
                assert(r@ =~= expression_text(*self, *show));
            }
        }
        r
    }
}

/// A fatal parse error, with the line of the token where it was found.
#[derive(Clone, Copy, Debug, PartialEq, Eq, Structural)]
pub enum ParseError {
    /// `var` is not followed by a name.
    ExpectVariableName { line: usize },
    /// A statement does not end with `;`.
    ExpectSemicolon { line: usize },
    /// A group does not end with `)`.
    ExpectRightParen { line: usize },
    /// The left of an `=` is not a variable.
    InvalidAssignmentTarget { line: usize },
    /// No expression starts at this token.
    ExpectExpression { line: usize },
}

/// The left-associative binary precedence levels, loosest first.
#[derive(Clone, Copy, PartialEq, Eq, Structural)]
pub enum Level {
    Equality,
    Comparison,
    Term,
    Factor,
}

pub open spec fn is_level_op(lv: Level, k: TokenType) -> bool {
    match lv {
        Level::Equality => k == TokenType::BangEqual || k == TokenType::EqualEqual,
        Level::Comparison => k == TokenType::Greater || k == TokenType::GreaterEqual || k
            == TokenType::Less || k == TokenType::LessEqual,
        Level::Term => k == TokenType::Minus || k == TokenType::Plus,
        Level::Factor => k == TokenType::Slash || k == TokenType::Star,
    }
}

pub open spec fn rank(lv: Level) -> int {
    match lv {
        Level::Equality => 3,
        Level::Comparison => 2,
        Level::Term => 1,
        Level::Factor => 0,
    }
}

pub open spec fn next_level(lv: Level) -> Level {
    match lv {
        Level::Equality => Level::Comparison,
        Level::Comparison => Level::Term,
        Level::Term => Level::Factor,
        Level::Factor => Level::Factor,
    }
}

/// A token sequence that the parser accepts: it ends with the end token.
pub open spec fn terminated(t: Seq<Token>) -> bool {
    t.len() > 0 && t.last().token_type == TokenType::Eof
}

pub type Parsed<T> = Result<(T, int), ParseError>;

pub open spec fn kind_at(t: Seq<Token>, p: int) -> TokenType {
    t[p].token_type
}

pub open spec fn line_of(t: Seq<Token>, p: int) -> usize {
    t[p].line
}

/// `expression → assignment`
pub open spec fn spec_expression(t: Seq<Token>, p: int) -> Parsed<Expression>
    decreases t.len() - p, 11int,
{
    if p < 0 || p >= t.len() {
        Err(ParseError::ExpectExpression { line: 0 })
    } else {
        spec_assignment(t, p)
    }
}

/// `assignment → IDENTIFIER "=" assignment | equality`
pub open spec fn spec_assignment(t: Seq<Token>, p: int) -> Parsed<Expression>
    decreases t.len() - p, 10int,
{
    if p < 0 || p >= t.len() {
        Err(ParseError::ExpectExpression { line: 0 })
    } else {
        match spec_binary(t, p, Level::Equality) {
            Ok((e, q)) => if p < q < t.len() && kind_at(t, q) == TokenType::Equal {
                match spec_assignment(t, q + 1) {
                    Ok((v, r)) => match e {
                        Expression::Var { name } => Ok(
                            (Expression::Assignment { name, value: Box::new(v) }, r),
                        ),
                        _ => Err(ParseError::InvalidAssignmentTarget { line: line_of(t, q) }),
                    },
                    Err(err) => Err(err),
                }
            } else {
                Ok((e, q))
            },
            Err(err) => Err(err),
        }
    }
}

/// The operand of a binary level: the next tighter level.
pub open spec fn spec_operand(t: Seq<Token>, p: int, lv: Level) -> Parsed<Expression>
    decreases t.len() - p, 2 * rank(lv) + 2,
{
    if p < 0 || p >= t.len() {
        Err(ParseError::ExpectExpression { line: 0 })
    } else if lv == Level::Factor {
        spec_unary(t, p)
    } else {
        spec_binary(t, p, next_level(lv))
    }
}

/// `level → operand (OP operand)*`, folded to the left.
pub open spec fn spec_binary(t: Seq<Token>, p: int, lv: Level) -> Parsed<Expression>
    decreases t.len() - p, 2 * rank(lv) + 3,
{
    if p < 0 || p >= t.len() {
        Err(ParseError::ExpectExpression { line: 0 })
    } else {
        match spec_operand(t, p, lv) {
            Ok((e, q)) => if p <= q <= t.len() {
                spec_binary_rest(t, e, q, lv)
            } else {
                Ok((e, q))
            },
            Err(err) => Err(err),
        }
    }
}

/// The `(OP operand)*` tail of a binary level, after `left`.
pub open spec fn spec_binary_rest(t: Seq<Token>, left: Expression, q: int, lv: Level) -> Parsed<
    Expression,
>
    decreases t.len() - q, 2 * rank(lv) + 1,
{
    if q < 0 || q >= t.len() {
        Ok((left, q))
    } else if is_level_op(lv, kind_at(t, q)) {
        match spec_operand(t, q + 1, lv) {
            Ok((r, q2)) => {
                let e = Expression::Binary {
                    left: Box::new(left),
                    operator: t[q],
                    right: Box::new(r),
                };
                if q < q2 <= t.len() {
                    spec_binary_rest(t, e, q2, lv)
                } else {
                    Ok((e, q2))
                }
            },
            Err(err) => Err(err),
        }
    } else {
        Ok((left, q))
    }
}

/// `unary → ("!" | "-") unary | primary`
pub open spec fn spec_unary(t: Seq<Token>, p: int) -> Parsed<Expression>
    decreases t.len() - p, 1int,
{
    if p < 0 || p >= t.len() {
        Err(ParseError::ExpectExpression { line: 0 })
    } else if kind_at(t, p) == TokenType::Bang || kind_at(t, p) == TokenType::Minus {
        match spec_unary(t, p + 1) {
            Ok((r, q)) => Ok((Expression::Unary { operator: t[p], right: Box::new(r) }, q)),
            Err(err) => Err(err),
        }
    } else {
        spec_primary(t, p)
    }
}

/// `primary → NUMBER | STRING | "true" | "false" | "nil" | IDENTIFIER | "(" expression ")"`
pub open spec fn spec_primary(t: Seq<Token>, p: int) -> Parsed<Expression>
    decreases t.len() - p, 0int,
{
    if p < 0 || p >= t.len() {
        Err(ParseError::ExpectExpression { line: 0 })
    } else {
        let k = kind_at(t, p);
        if k == TokenType::True {
            Ok((Expression::Literal { literal_value: Literal::Boolean(true) }, p + 1))
        } else if k == TokenType::False {
            Ok((Expression::Literal { literal_value: Literal::Boolean(false) }, p + 1))
        } else if k == TokenType::Nil {
            Ok((Expression::Literal { literal_value: Literal::Nil }, p + 1))
        } else if k == TokenType::String || k == TokenType::Number {
            Ok((Expression::Literal { literal_value: t[p].literal }, p + 1))
        } else if k == TokenType::Identifier {
            Ok((Expression::Var { name: t[p] }, p + 1))
        } else if k == TokenType::LeftParen {
            match spec_expression(t, p + 1) {
                Ok((e, q)) => if 0 <= q < t.len() && kind_at(t, q) == TokenType::RightParen {
                    Ok((Expression::Grouping { expression: Box::new(e) }, q + 1))
                } else if 0 <= q < t.len() {
                    Err(ParseError::ExpectRightParen { line: line_of(t, q) })
                } else {
                    Err(ParseError::ExpectRightParen { line: 0 })
                },
                Err(err) => Err(err),
            }
        } else {
            Err(ParseError::ExpectExpression { line: line_of(t, p) })
        }
    }
}

/// The statement `s`, once a `;` at `q` ends it.
pub open spec fn spec_terminate(t: Seq<Token>, q: int, s: Statement) -> Parsed<Statement> {
    if 0 <= q < t.len() && kind_at(t, q) == TokenType::Semicolon {
        Ok((s, q + 1))
    } else if 0 <= q < t.len() {
        Err(ParseError::ExpectSemicolon { line: line_of(t, q) })
    } else {
        Err(ParseError::ExpectSemicolon { line: 0 })
    }
}

/// `"var" IDENTIFIER ("=" expression)? ";"`, after the `var`.
pub open spec fn spec_var_declaration(t: Seq<Token>, p: int) -> Parsed<Statement> {
    if p < 0 || p >= t.len() {
        Err(ParseError::ExpectVariableName { line: 0 })
    } else if kind_at(t, p) != TokenType::Identifier {
        Err(ParseError::ExpectVariableName { line: line_of(t, p) })
    } else if p + 1 < t.len() && kind_at(t, p + 1) == TokenType::Equal {
        match spec_expression(t, p + 2) {
            Ok((e, q)) => spec_terminate(t, q, Statement::Var { token: t[p], expression: e }),
            Err(err) => Err(err),
        }
    } else {
        spec_terminate(
            t,
            p + 1,
            Statement::Var {
                token: t[p],
                expression: Expression::Literal { literal_value: Literal::Nil },
            },
        )
    }
}

/// `"print" expression ";" | expression ";"`
pub open spec fn spec_statement(t: Seq<Token>, p: int) -> Parsed<Statement> {
    if p < 0 || p >= t.len() {
        Err(ParseError::ExpectExpression { line: 0 })
    } else if kind_at(t, p) == TokenType::Print {
        match spec_expression(t, p + 1) {
            Ok((e, q)) => spec_terminate(t, q, Statement::Print { expression: e }),
            Err(err) => Err(err),
        }
    } else {
        match spec_expression(t, p) {
            Ok((e, q)) => spec_terminate(t, q, Statement::Expression { expression: e }),
            Err(err) => Err(err),
        }
    }
}

/// `declaration → "var" IDENTIFIER ("=" expression)? ";" | statement`
pub open spec fn spec_declaration(t: Seq<Token>, p: int) -> Parsed<Statement> {
    if 0 <= p < t.len() && kind_at(t, p) == TokenType::Var {
        spec_var_declaration(t, p + 1)
    } else {
        spec_statement(t, p)
    }
}

/// `program → declaration* EOF`, from position `p` on.
pub open spec fn spec_program(t: Seq<Token>, p: int) -> Result<Seq<Statement>, ParseError>
    decreases t.len() - p,
{
    if p < 0 || p >= t.len() || kind_at(t, p) == TokenType::Eof {
        Ok(seq![])
    } else {
        match spec_declaration(t, p) {
            Ok((s, q)) => if p < q {
                match spec_program(t, q) {
                    Ok(rest) => Ok(seq![s] + rest),
                    Err(err) => Err(err),
                }
            } else {
                Ok(seq![s])
            },
            Err(err) => Err(err),
        }
    }
}

/// `r` is what the parse `s` from `from` gives, and a success ended at `to`,
/// past `from`.
pub open spec fn outcome<T>(r: Result<T, ParseError>, s: Parsed<T>, from: int, to: int) -> bool {
    match s {
        Ok((v, q)) => r == Ok::<T, ParseError>(v) && to == q && from < q,
        Err(err) => r == Err::<T, ParseError>(err),
    }
}

fn level_op(lv: Level, k: TokenType) -> (r: bool)
    ensures
        r == is_level_op(lv, k),
{
    match lv {
        Level::Equality => k == TokenType::BangEqual || k == TokenType::EqualEqual,
        Level::Comparison => k == TokenType::Greater || k == TokenType::GreaterEqual || k
            == TokenType::Less || k == TokenType::LessEqual,
        Level::Term => k == TokenType::Minus || k == TokenType::Plus,
        Level::Factor => k == TokenType::Slash || k == TokenType::Star,
    }
}

/// A cursor over a token sequence that ends with the end token.
pub struct Parser {
    tokens: Vec<Token>,
    current: usize,
}

impl Parser {
    pub closed spec fn tokens(&self) -> Seq<Token> {
        self.tokens@
    }

    pub closed spec fn position(&self) -> int {
        self.current as int
    }

    pub closed spec fn wf(&self) -> bool {
        terminated(self.tokens@) && self.current < self.tokens@.len()
    }

    pub fn new(tokens: Vec<Token>) -> (r: Self)
        requires
            terminated(tokens@),
        ensures
            r.wf(),
            r.tokens() == tokens@,
            r.position() == 0,
    {
        Parser { tokens, current: 0 }
    }

    fn peek(&self) -> (r: &Token)
        requires
            self.wf(),
        ensures
            *r == self.tokens@[self.current as int],
    {
        &self.tokens[self.current]
    }

    fn peek_type(&self) -> (r: TokenType)
        requires
            self.wf(),
        ensures
            r == kind_at(self.tokens@, self.current as int),
    {
        self.tokens[self.current].token_type
    }

    fn is_at_end(&self) -> (r: bool)
        requires
            self.wf(),
        ensures
            r == (kind_at(self.tokens@, self.current as int) == TokenType::Eof),
    {
        self.peek().is_eof()
    }

    /// The current token is of type `k`, and is not the end.
    fn check(&self, k: TokenType) -> (r: bool)
        requires
            self.wf(),
        ensures
            r == (kind_at(self.tokens@, self.current as int) != TokenType::Eof && kind_at(
                self.tokens@,
                self.current as int,
            ) == k),
    {
        if self.is_at_end() {
            return false;
        }
        self.peek().type_equals_to(&k)
    }

    /// Steps past the current token, unless it is the end.
    fn advance(&mut self)
        requires
            old(self).wf(),
        ensures
            final(self).wf(),
            final(self).tokens == old(self).tokens,
            final(self).current == if kind_at(old(self).tokens@, old(self).current as int)
                == TokenType::Eof {
                old(self).current as int
            } else {
                old(self).current + 1
            },
    {
        if !self.is_at_end() {
            let n = self.tokens.len();
            assert(self.current + 1 < n);
            self.current = self.current + 1;
        }
    }

    /// Steps past the current token where it is of type `k`.
    fn match_any(&mut self, k: TokenType) -> (r: bool)
        requires
            old(self).wf(),
            k != TokenType::Eof,
        ensures
            final(self).wf(),
            final(self).tokens == old(self).tokens,
            r == (kind_at(old(self).tokens@, old(self).current as int) == k),
            final(self).current == if r {
                old(self).current + 1
            } else {
                old(self).current as int
            },
    {
        if self.check(k) {
            self.advance();
            true
        } else {
            false
        }
    }

    /// Steps past a token of type `k`, or fails with `err`.
    fn consume(&mut self, k: TokenType, err: ParseError) -> (r: Result<(), ParseError>)
        requires
            old(self).wf(),
            k != TokenType::Eof,
        ensures
            final(self).wf(),
            final(self).tokens == old(self).tokens,
            kind_at(old(self).tokens@, old(self).current as int) == k ==> r is Ok
                && final(self).current == old(self).current + 1,
            kind_at(old(self).tokens@, old(self).current as int) != k ==> r == Err::<
                (),
                ParseError,
            >(err),
    {
        if self.match_any(k) {
            Ok(())
        } else {
            Err(err)
        }
    }

    /// Parses one expression from the current token on.
    pub fn parse_expression(&mut self) -> (r: Result<Expression, ParseError>)
        requires
            old(self).wf(),
        ensures
            final(self).wf(),
            final(self).tokens() == old(self).tokens(),
            outcome(
                r,
                spec_expression(old(self).tokens(), old(self).position()),
                old(self).position(),
                final(self).position(),
            ),
    {
        self.expression()
    }

    fn expression(&mut self) -> (r: Result<Expression, ParseError>)
        requires
            old(self).wf(),
        ensures
            final(self).wf(),
            final(self).tokens == old(self).tokens,
            outcome(
                r,
                spec_expression(old(self).tokens@, old(self).current as int),
                old(self).current as int,
                final(self).current as int,
            ),
        decreases old(self).tokens@.len() - old(self).current, 11int,
    {
        self.assignment()
    }

    fn assignment(&mut self) -> (r: Result<Expression, ParseError>)
        requires
            old(self).wf(),
        ensures
            final(self).wf(),
            final(self).tokens == old(self).tokens,
            outcome(
                r,
                spec_assignment(old(self).tokens@, old(self).current as int),
                old(self).current as int,
                final(self).current as int,
            ),
        decreases old(self).tokens@.len() - old(self).current, 10int,
    {
        let expression = match self.binary(Level::Equality) {
            Ok(e) => e,
            Err(err) => {
                return Err(err);
            },
        };
        let line = self.peek().line;
        if self.match_any(TokenType::Equal) {
            let value = match self.assignment() {
                Ok(v) => v,
                Err(err) => {
                    return Err(err);
                },
            };
            match expression {
                Expression::Var { name } => {
                    return Ok(Expression::Assignment { name, value: Box::new(value) });
                },
                _ => {
                    return Err(ParseError::InvalidAssignmentTarget { line });
                },
            }
        }
        Ok(expression)
    }

    fn operand(&mut self, lv: Level) -> (r: Result<Expression, ParseError>)
        requires
            old(self).wf(),
        ensures
            final(self).wf(),
            final(self).tokens == old(self).tokens,
            outcome(
                r,
                spec_operand(old(self).tokens@, old(self).current as int, lv),
                old(self).current as int,
                final(self).current as int,
            ),
        decreases old(self).tokens@.len() - old(self).current, 2 * rank(lv) + 2,
    {
        match lv {
            Level::Equality => self.binary(Level::Comparison),
            Level::Comparison => self.binary(Level::Term),
            Level::Term => self.binary(Level::Factor),
            Level::Factor => self.unary(),
        }
    }

    /// One left-associative level: `equality`, `comparison`, `term` or
    /// `factor` of the grammar.
    fn binary(&mut self, lv: Level) -> (r: Result<Expression, ParseError>)
        requires
            old(self).wf(),
        ensures
            final(self).wf(),
            final(self).tokens == old(self).tokens,
            outcome(
                r,
                spec_binary(old(self).tokens@, old(self).current as int, lv),
                old(self).current as int,
                final(self).current as int,
            ),
        decreases old(self).tokens@.len() - old(self).current, 2 * rank(lv) + 3,
    {
        let ghost t = self.tokens@;
        let ghost from = self.current as int;
        let mut expr = match self.operand(lv) {
            Ok(e) => e,
            Err(err) => {
                return Err(err);
            },
        };
        loop
            invariant
                self.wf(),
                self.tokens == old(self).tokens,
                t == old(self).tokens@,
                from == old(self).current,
                from < self.current,
                spec_binary(t, from, lv) == spec_binary_rest(t, expr, self.current as int, lv),
            decreases t.len() - self.current,
        {
            if !level_op(lv, self.peek_type()) {
                return Ok(expr);
            }
            let ghost q = self.current as int;
            let operator = self.peek().duplicate();
            self.advance();
            let right = match self.operand(lv) {
                Ok(e) => e,
                Err(err) => {
                    return Err(err);
                },
            };
            expr = Expression::Binary { left: Box::new(expr), operator, right: Box::new(right) };
        }
    }

    fn unary(&mut self) -> (r: Result<Expression, ParseError>)
        requires
            old(self).wf(),
        ensures
            final(self).wf(),
            final(self).tokens == old(self).tokens,
            outcome(
                r,
                spec_unary(old(self).tokens@, old(self).current as int),
                old(self).current as int,
                final(self).current as int,
            ),
        decreases old(self).tokens@.len() - old(self).current, 1int,
    {
        let k = self.peek_type();
        if k == TokenType::Bang || k == TokenType::Minus {
            let operator = self.peek().duplicate();
            self.advance();
            let right = match self.unary() {
                Ok(e) => e,
                Err(err) => {
                    return Err(err);
                },
            };
            return Ok(Expression::Unary { operator, right: Box::new(right) });
        }
        self.primary()
    }

    fn primary(&mut self) -> (r: Result<Expression, ParseError>)
        requires
            old(self).wf(),
        ensures
            final(self).wf(),
            final(self).tokens == old(self).tokens,
            outcome(
                r,
                spec_primary(old(self).tokens@, old(self).current as int),
                old(self).current as int,
                final(self).current as int,
            ),
        decreases old(self).tokens@.len() - old(self).current, 0int,
    {
        if self.match_any(TokenType::True) {
            return Ok(Expression::Literal { literal_value: Literal::Boolean(true) });
        }
        if self.match_any(TokenType::False) {
            return Ok(Expression::Literal { literal_value: Literal::Boolean(false) });
        }
        if self.match_any(TokenType::Nil) {
            return Ok(Expression::Literal { literal_value: Literal::Nil });
        }
        let k = self.peek_type();
        if k == TokenType::String || k == TokenType::Number {
            let literal_value = self.peek().literal.duplicate();
            self.advance();
            return Ok(Expression::Literal { literal_value });
        }
        if k == TokenType::Identifier {
            let name = self.peek().duplicate();
            self.advance();
            return Ok(Expression::Var { name });
        }
        if self.match_any(TokenType::LeftParen) {
            let expression = match self.expression() {
                Ok(e) => e,
                Err(err) => {
                    return Err(err);
                },
            };
            let line = self.peek().line;
            return match self.consume(
                TokenType::RightParen,
                ParseError::ExpectRightParen { line },
            ) {
                Ok(()) => Ok(Expression::Grouping { expression: Box::new(expression) }),
                Err(err) => Err(err),
            };
        }
        Err(ParseError::ExpectExpression { line: self.peek().line })
    }

    /// Parses declarations up to the end token: the whole program.
    pub fn parse(&mut self) -> (r: Result<Vec<Statement>, ParseError>)
        requires
            old(self).wf(),
        ensures
            final(self).wf(),
            final(self).tokens() == old(self).tokens(),
            match spec_program(old(self).tokens(), old(self).position()) {
                Ok(s) => r matches Ok(v) && v@ == s,
                Err(err) => r == Err::<Vec<Statement>, ParseError>(err),
            },
    {
        let ghost t = self.tokens@;
        let ghost from = self.current as int;
        let mut statements: Vec<Statement> = Vec::new();
        while !self.is_at_end()
            invariant
                self.wf(),
                self.tokens == old(self).tokens,
                t == self.tokens@,
                from == old(self).current,
                spec_program(t, from) == match spec_program(t, self.current as int) {
                    Ok(rest) => Ok(statements@ + rest),
                    Err(err) => Err(err),
                },
            decreases t.len() - self.current,
        {
            let ghost q = self.current as int;
            let statement = match self.declaration() {
                Ok(s) => s,
                Err(err) => {
                    return Err(err);
                },
            };
            let ghost before = statements@;
            statements.push(statement);
            proof {
                match spec_program(t, self.current as int) {
                    Ok(rest) => {
                        assert(before + (seq![statement] + rest) =~= statements@ + rest);
                    },
                    Err(err) => {},
                }
            }
        }
        proof {
            assert(statements@ + seq![] =~= statements@);
        }
        Ok(statements)
    }

    fn declaration(&mut self) -> (r: Result<Statement, ParseError>)
        requires
            old(self).wf(),
        ensures
            final(self).wf(),
            final(self).tokens == old(self).tokens,
            outcome(
                r,
                spec_declaration(old(self).tokens@, old(self).current as int),
                old(self).current as int,
                final(self).current as int,
            ),
    {
        if self.match_any(TokenType::Var) {
            return self.var_declaration();
        }
        self.statement()
    }

    /// Ends the statement `s` with the `;` that must follow it.
    fn terminate(&mut self, s: Statement) -> (r: Result<Statement, ParseError>)
        requires
            old(self).wf(),
        ensures
            final(self).wf(),
            final(self).tokens == old(self).tokens,
            outcome(
                r,
                spec_terminate(old(self).tokens@, old(self).current as int, s),
                old(self).current as int,
                final(self).current as int,
            ),
    {
        let line = self.peek().line;
        match self.consume(TokenType::Semicolon, ParseError::ExpectSemicolon { line }) {
            Ok(()) => Ok(s),
            Err(err) => Err(err),
        }
    }

    fn var_declaration(&mut self) -> (r: Result<Statement, ParseError>)
        requires
            old(self).wf(),
        ensures
            final(self).wf(),
            final(self).tokens == old(self).tokens,
            outcome(
                r,
                spec_var_declaration(old(self).tokens@, old(self).current as int),
                old(self).current as int,
                final(self).current as int,
            ),
    {
        if !self.check(TokenType::Identifier) {
            return Err(ParseError::ExpectVariableName { line: self.peek().line });
        }
        let token = self.peek().duplicate();
        self.advance();
        let expression = if self.match_any(TokenType::Equal) {
            match self.expression() {
                Ok(e) => e,
                Err(err) => {
                    return Err(err);
                },
            }
        } else {
            Expression::Literal { literal_value: Literal::Nil }
        };
        self.terminate(Statement::Var { token, expression })
    }

    fn statement(&mut self) -> (r: Result<Statement, ParseError>)
        requires
            old(self).wf(),
        ensures
            final(self).wf(),
            final(self).tokens == old(self).tokens,
            outcome(
                r,
                spec_statement(old(self).tokens@, old(self).current as int),
                old(self).current as int,
                final(self).current as int,
            ),
    {
        if self.match_any(TokenType::Print) {
            return self.print_statement();
        }
        self.expression_statement()
    }

    fn print_statement(&mut self) -> (r: Result<Statement, ParseError>)
        requires
            old(self).wf(),
        ensures
            final(self).wf(),
            final(self).tokens == old(self).tokens,
            match spec_expression(old(self).tokens@, old(self).current as int) {
                Ok((e, q)) => outcome(
                    r,
                    spec_terminate(old(self).tokens@, q, Statement::Print { expression: e }),
                    old(self).current as int,
                    final(self).current as int,
                ),
                Err(err) => r == Err::<Statement, ParseError>(err),
            },
    {
        let expression = match self.expression() {
            Ok(e) => e,
            Err(err) => {
                return Err(err);
            },
        };
        self.terminate(Statement::Print { expression })
    }

    fn expression_statement(&mut self) -> (r: Result<Statement, ParseError>)
        requires
            old(self).wf(),
        ensures
            final(self).wf(),
            final(self).tokens == old(self).tokens,
            match spec_expression(old(self).tokens@, old(self).current as int) {
                Ok((e, q)) => outcome(
                    r,
                    spec_terminate(old(self).tokens@, q, Statement::Expression { expression: e }),
                    old(self).current as int,
                    final(self).current as int,
                ),
                Err(err) => r == Err::<Statement, ParseError>(err),
            },
    {
        let expression = match self.expression() {
            Ok(e) => e,
            Err(err) => {
                return Err(err);
            },
        };
        self.terminate(Statement::Expression { expression })
    }
}

} // verus!
