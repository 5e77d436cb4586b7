//! Statements, the evaluation of expressions, and the execution of programs.
use vstd::prelude::*;

use crate::environment::{scope_assign, scope_define, scope_get, Environment};
use crate::number::{
    is_zero, negate, number_eq, number_le, number_lt, spec_is_zero, spec_negate, spec_number_eq,
    spec_number_le, spec_number_lt,
};
use crate::parser::Expression;
use crate::scanner::{Literal, Token, TokenType, Value};

verus! {

broadcast use {vstd::seq::group_seq_axioms, vstd::std_specs::vec::group_vec_axioms};

/// A statement of the language; a program is a sequence of them.
pub enum Statement {
    Expression { expression: Expression },
    Print { expression: Expression },
    Var { token: Token, expression: Expression },
    Block { statements: Vec<Statement> },
    If { condition: Expression, then_statement: Box<Statement> },
    IfElse {
        condition: Expression,
        then_statement: Box<Statement>,
        else_statement: Box<Statement>,
    },
}

/// The binary64 operations that round, which the caller supplies.
#[derive(Clone, Copy, Debug, PartialEq, Eq, Structural)]
pub enum ArithOp {
    Add,
    Subtract,
    Multiply,
    Divide,
}

/// A fatal runtime error.
#[derive(Clone, Debug, PartialEq)]
pub enum RuntimeError {
    /// A variable was read that no scope binds.
    UndefinedVariable { name: String },
    /// A variable was assigned that no scope binds.
    UndefinedAssignment { name: String },
    /// A number was divided by zero.
    DivisionByZero,
    /// No rule of the language combines these operands with this operator.
    UnsupportedBinary { left: Literal, operator: String, right: Literal },
    /// `==` or `!=` on values of two different kinds.
    MismatchedEquality { left: Literal, right: Literal },
    /// No rule of the language applies this prefix operator to this operand.
    UnsupportedUnary { operator: String, operand: Literal },
}

/// The mathematical model of a `RuntimeError`.
pub enum Fault {
    UndefinedVariable(Seq<char>),
    UndefinedAssignment(Seq<char>),
    DivisionByZero,
    UnsupportedBinary(Value, Seq<char>, Value),
    MismatchedEquality(Value, Value),
    UnsupportedUnary(Seq<char>, Value),
}

impl View for RuntimeError {
    type V = Fault;

    open spec fn view(&self) -> Fault {
        match self {
            RuntimeError::UndefinedVariable { name } => Fault::UndefinedVariable(name@),
            RuntimeError::UndefinedAssignment { name } => Fault::UndefinedAssignment(name@),
            RuntimeError::DivisionByZero => Fault::DivisionByZero,
            RuntimeError::UnsupportedBinary { left, operator, right } => Fault::UnsupportedBinary(
                left@,
                operator@,
                right@,
            ),
            RuntimeError::MismatchedEquality { left, right } => Fault::MismatchedEquality(
                left@,
                right@,
            ),
            RuntimeError::UnsupportedUnary { operator, operand } => Fault::UnsupportedUnary(
                operator@,
                operand@,
            ),
        }
    }
}

pub type Scopes = Seq<Map<Seq<char>, Value>>;

/// The closure `f` returns one result for each argument.
pub open spec fn is_function<F: Fn(ArithOp, u64, u64) -> u64>(f: F) -> bool {
    forall|op: ArithOp, a: u64, b: u64, r1: u64, r2: u64|
        call_ensures(f, (op, a, b), r1) && call_ensures(f, (op, a, b), r2) ==> r1 == r2
}

/// The closure `f` takes every argument.
pub open spec fn is_total<F: Fn(ArithOp, u64, u64) -> u64>(f: F) -> bool {
    forall|op: ArithOp, a: u64, b: u64| call_requires(f, (op, a, b))
}

/// What `f` returns on `op`, `a`, `b`.
pub open spec fn rounded<F: Fn(ArithOp, u64, u64) -> u64>(f: F, op: ArithOp, a: u64, b: u64) -> u64 {
    choose|r: u64| call_ensures(f, (op, a, b), r)
}

/// `==` on two values: `None` where they are of different kinds.
pub open spec fn values_equal(l: Value, r: Value) -> Option<bool> {
    match (l, r) {
        (Value::Number(a), Value::Number(b)) => Some(spec_number_eq(a, b)),
        (Value::Text(a), Value::Text(b)) => Some(a == b),
        (Value::Boolean(a), Value::Boolean(b)) => Some(a == b),
        (Value::Nil, Value::Nil) => Some(true),
        _ => None,
    }
}

/// The value of `l op r`, `l` and `r` evaluated.
pub open spec fn binary_value<F: Fn(ArithOp, u64, u64) -> u64>(
    l: Value,
    op: Token,
    r: Value,
    f: F,
) -> Result<Value, Fault> {
    let k = op.token_type;
    let unsupported = Err(Fault::UnsupportedBinary(l, op.lexeme@, r));
    let equality = values_equal(l, r);
    if l is Number && r is Number && (k == TokenType::Minus || k == TokenType::Plus || k
        == TokenType::Star || k == TokenType::Slash || k == TokenType::Greater || k
        == TokenType::GreaterEqual || k == TokenType::Less || k == TokenType::LessEqual) {
        let a = l->Number_0;
        let b = r->Number_0;
        if k == TokenType::Minus {
            Ok(Value::Number(rounded(f, ArithOp::Subtract, a, b)))
        } else if k == TokenType::Plus {
            Ok(Value::Number(rounded(f, ArithOp::Add, a, b)))
        } else if k == TokenType::Star {
            Ok(Value::Number(rounded(f, ArithOp::Multiply, a, b)))
        } else if k == TokenType::Slash {
            if spec_is_zero(b) {
                Err(Fault::DivisionByZero)
            } else {
                Ok(Value::Number(rounded(f, ArithOp::Divide, a, b)))
            }
        } else if k == TokenType::Greater {
            Ok(Value::Boolean(spec_number_lt(b, a)))
        } else if k == TokenType::GreaterEqual {
            Ok(Value::Boolean(spec_number_le(b, a)))
        } else if k == TokenType::Less {
            Ok(Value::Boolean(spec_number_lt(a, b)))
        } else {
            Ok(Value::Boolean(spec_number_le(a, b)))
        }
    } else if l is Text && r is Text && k == TokenType::Plus {
        Ok(Value::Text(l->Text_0 + r->Text_0))
    } else if k == TokenType::EqualEqual || k == TokenType::BangEqual {
        match equality {
            Some(b) => Ok(Value::Boolean(if k == TokenType::EqualEqual {
                b
            } else {
                !b
            })),
            None => Err(Fault::MismatchedEquality(l, r)),
        }
    } else {
        unsupported
    }
}

/// The value of `op v`, `v` evaluated: only `-` on a number is defined.
pub open spec fn unary_value(op: Token, v: Value) -> Result<Value, Fault> {
    if op.token_type == TokenType::Minus && v is Number {
        Ok(Value::Number(spec_negate(v->Number_0)))
    } else {
        Err(Fault::UnsupportedUnary(op.lexeme@, v))
    }
}

/// Evaluates `e` in the scopes `env`: its value or the error that stopped
/// it, and the scopes after its assignments.
pub open spec fn eval<F: Fn(ArithOp, u64, u64) -> u64>(e: Expression, env: Scopes, f: F) -> (
    Result<Value, Fault>,
    Scopes,
)
    decreases e,
{
    match e {
        Expression::Literal { literal_value } => (Ok(literal_value@), env),
        Expression::Grouping { expression } => eval(*expression, env, f),
        Expression::Var { name } => match scope_get(env, name.lexeme@) {
            Some(v) => (Ok(v), env),
            None => (Err(Fault::UndefinedVariable(name.lexeme@)), env),
        },
        Expression::Assignment { name, value } => {
            let (r, env1) = eval(*value, env, f);
            match r {
                Ok(v) => match scope_assign(env1, name.lexeme@, v) {
                    Some(env2) => (Ok(v), env2),
                    None => (Err(Fault::UndefinedAssignment(name.lexeme@)), env1),
                },
                Err(x) => (Err(x), env1),
            }
        },
        Expression::Unary { operator, right } => {
            let (r, env1) = eval(*right, env, f);
            match r {
                Ok(v) => (unary_value(operator, v), env1),
                Err(x) => (Err(x), env1),
            }
        },
        Expression::Binary { left, operator, right } => {
            let (rl, env1) = eval(*left, env, f);
            match rl {
                Ok(lv) => {
                    let (rr, env2) = eval(*right, env1, f);
                    match rr {
                        Ok(rv) => (binary_value(lv, operator, rv, f), env2),
                        Err(x) => (Err(x), env2),
                    }
                },
                Err(x) => (Err(x), env1),
            }
        },
    }
}

/// The state of a run: the scopes, and the values printed so far.
pub type RunState = (Scopes, Seq<Value>);

/// Executes `s` from the state `st`: `Ok` or the error that stopped it, and
/// the state after it.
pub open spec fn exec_statement<F: Fn(ArithOp, u64, u64) -> u64>(
    s: Statement,
    st: RunState,
    f: F,
) -> (Result<(), Fault>, RunState)
    decreases s,
{
    let (env, out) = st;
    match s {
        Statement::Expression { expression } => {
            let (r, env1) = eval(expression, env, f);
            match r {
                Ok(_) => (Ok(()), (env1, out)),
                Err(x) => (Err(x), (env1, out)),
            }
        },
        Statement::Print { expression } => {
            let (r, env1) = eval(expression, env, f);
            match r {
                Ok(v) => (Ok(()), (env1, out.push(v))),
                Err(x) => (Err(x), (env1, out)),
            }
        },
        Statement::Var { token, expression } => {
            let (r, env1) = eval(expression, env, f);
            match r {
                Ok(v) => (Ok(()), (scope_define(env1, token.lexeme@, v), out)),
                Err(x) => (Err(x), (env1, out)),
            }
        },
        Statement::Block { statements } => {
            let (r, st1) = exec_statements(statements@, (env.push(Map::empty()), out), f);
            (r, (st1.0.drop_last(), st1.1))
        },
        Statement::If { condition, then_statement } => {
            let (r, env1) = eval(condition, env, f);
            match r {
                Ok(Value::Boolean(true)) => exec_statement(*then_statement, (env1, out), f),
                Ok(_) => (Ok(()), (env1, out)),
                Err(x) => (Err(x), (env1, out)),
            }
        },
        Statement::IfElse { condition, then_statement, else_statement } => {
            let (r, env1) = eval(condition, env, f);
            match r {
                Ok(Value::Boolean(true)) => exec_statement(*then_statement, (env1, out), f),
                Ok(_) => exec_statement(*else_statement, (env1, out), f),
                Err(x) => (Err(x), (env1, out)),
            }
        },
    }
}

/// Executes `ss` in order from the state `st`, stopping at the first error.
pub open spec fn exec_statements<F: Fn(ArithOp, u64, u64) -> u64>(
    ss: Seq<Statement>,
    st: RunState,
    f: F,
) -> (Result<(), Fault>, RunState)
    decreases ss,
{
    if ss.len() == 0 {
        (Ok(()), st)
    } else {
        let (r, st1) = exec_statement(ss[0], st, f);
        match r {
            Ok(()) => exec_statements(ss.subrange(1, ss.len() as int), st1, f),
            Err(x) => (Err(x), st1),
        }
    }
}

fn values_equal_exec(left: &Literal, right: &Literal) -> (r: Option<bool>)
    ensures
        r == values_equal(left@, right@),
{
    match (left, right) {
        (Literal::Number(a), Literal::Number(b)) => Some(number_eq(*a, *b)),
        (Literal::Text(a), Literal::Text(b)) => Some(*a == *b),
        (Literal::Boolean(a), Literal::Boolean(b)) => Some(*a == *b),
        (Literal::Nil, Literal::Nil) => Some(true),
        _ => None,
    }
}

/// Applies a rounding operation through `arith`.
fn apply<F: Fn(ArithOp, u64, u64) -> u64>(arith: &F, op: ArithOp, a: u64, b: u64) -> (r: u64)
    requires
        is_total(*arith),
    ensures
        is_function(*arith) ==> r == rounded(*arith, op, a, b),
{
    let r = arith(op, a, b);
    proof {
        if is_function(*arith) {
            assert(call_ensures(*arith, (op, a, b), r));
            let c = rounded(*arith, op, a, b);
            assert(call_ensures(*arith, (op, a, b), c));
        }
    }
    r
}

impl Expression {
    /// Evaluates the expression in `environment`, whose bindings its
    /// assignments change; `arith` rounds `+ - * /` on numbers.
    pub fn evaluate<F: Fn(ArithOp, u64, u64) -> u64>(
        &self,
        environment: &mut Environment,
        arith: &F,
    ) -> (r: Result<Literal, RuntimeError>)
        requires
            old(environment).wf(),
            is_total(*arith),
        ensures
            final(environment).wf(),
            final(environment)@.len() == old(environment)@.len(),
            is_function(*arith) ==> match eval(*self, old(environment)@, *arith) {
                (Ok(v), env1) => r matches Ok(x) && x@ == v && final(environment)@ == env1,
                (Err(fault), _) => r matches Err(x) && x@ == fault,
            },
        decreases self,
    {
        match self {
            Expression::Literal { literal_value } => Ok(literal_value.duplicate()),
            Expression::Grouping { expression } => expression.evaluate(environment, arith),
            Expression::Var { name } => match environment.get(name.lexeme()) {
                Some(v) => Ok(v.duplicate()),
                None => Err(RuntimeError::UndefinedVariable { name: name.lexeme.clone() }),
            },
            Expression::Assignment { name, value } => {
                let v = match value.evaluate(environment, arith) {
                    Ok(v) => v,
                    Err(x) => {
                        return Err(x);
                    },
                };
                if environment.assign(name.lexeme(), v.duplicate()) {
                    Ok(v)
                } else {
                    Err(RuntimeError::UndefinedAssignment { name: name.lexeme.clone() })
                }
            },
            Expression::Unary { operator, right } => {
                let v = match right.evaluate(environment, arith) {
                    Ok(v) => v,
                    Err(x) => {
                        return Err(x);
                    },
                };
                Self::evaluate_unary(operator, v)
            },
            Expression::Binary { left, operator, right } => {
                let l = match left.evaluate(environment, arith) {
                    Ok(v) => v,
                    Err(x) => {
                        return Err(x);
                    },
                };
                let r = match right.evaluate(environment, arith) {
                    Ok(v) => v,
                    Err(x) => {
                        return Err(x);
                    },
                };
                Self::evaluate_binary(l, operator, r, arith)
            },
        }
    }

    fn evaluate_unary(operator: &Token, operand: Literal) -> (r: Result<Literal, RuntimeError>)
        ensures
            match unary_value(*operator, operand@) {
                Ok(v) => r matches Ok(x) && x@ == v,
                Err(fault) => r matches Err(x) && x@ == fault,
            },
    {
        match (operator.token_type, &operand) {
            (TokenType::Minus, Literal::Number(n)) => Ok(Literal::Number(negate(*n))),
            _ => Err(RuntimeError::UnsupportedUnary { operator: operator.lexeme.clone(), operand }),
        }
    }

    fn evaluate_binary<F: Fn(ArithOp, u64, u64) -> u64>(
        left: Literal,
        operator: &Token,
        right: Literal,
        arith: &F,
    ) -> (r: Result<Literal, RuntimeError>)
        requires
            is_total(*arith),
        ensures
            is_function(*arith) ==> match binary_value(left@, *operator, right@, *arith) {
                Ok(v) => r matches Ok(x) && x@ == v,
                Err(fault) => r matches Err(x) && x@ == fault,
            },
    {
        let k = operator.token_type;
        match (&left, &right) {
            (Literal::Number(a), Literal::Number(b)) => {
                let (a, b) = (*a, *b);
                match k {
                    TokenType::Minus => {
                        return Ok(Literal::Number(apply(arith, ArithOp::Subtract, a, b)));
                    },
                    TokenType::Plus => {
                        return Ok(Literal::Number(apply(arith, ArithOp::Add, a, b)));
                    },
                    TokenType::Star => {
                        return Ok(Literal::Number(apply(arith, ArithOp::Multiply, a, b)));
                    },
                    TokenType::Slash => {
                        if is_zero(b) {
                            return Err(RuntimeError::DivisionByZero);
                        }
                        return Ok(Literal::Number(apply(arith, ArithOp::Divide, a, b)));
                    },
                    TokenType::Greater => {
                        return Ok(Literal::Boolean(number_lt(b, a)));
                    },
                    TokenType::GreaterEqual => {
                        return Ok(Literal::Boolean(number_le(b, a)));
                    },
                    TokenType::Less => {
                        return Ok(Literal::Boolean(number_lt(a, b)));
                    },
                    TokenType::LessEqual => {
                        return Ok(Literal::Boolean(number_le(a, b)));
                    },
                    _ => {},
                }
            },
            (Literal::Text(a), Literal::Text(b)) => {
                if k == TokenType::Plus {
                    return Ok(Literal::Text(a.clone().concat(b.as_str())));
                }
            },
            _ => {},
        }
        if k == TokenType::EqualEqual || k == TokenType::BangEqual {
            return match values_equal_exec(&left, &right) {
                Some(b) => Ok(Literal::Boolean(
                    if k == TokenType::EqualEqual {
                        b
                    } else {
                        !b
                    },
                )),
                None => Err(RuntimeError::MismatchedEquality { left, right }),
            };
        }
        Err(RuntimeError::UnsupportedBinary { left, operator: operator.lexeme.clone(), right })
    }
}

/// An `if` runs its branch on the boolean `true` alone: on any other value of
/// its condition (the number `1` among them) it runs nothing and leaves the
/// state as the condition left it; an `if` with an `else` runs the `else`.
pub proof fn lemma_if_runs_only_on_true<F: Fn(ArithOp, u64, u64) -> u64>(
    condition: Expression,
    then_statement: Statement,
    else_statement: Statement,
    st: RunState,
    f: F,
)
    requires
        eval(condition, st.0, f).0 matches Ok(v) && v != Value::Boolean(true),
    ensures
        exec_statement(
            Statement::If { condition, then_statement: Box::new(then_statement) },
            st,
            f,
        ) == (Ok::<(), Fault>(()), (eval(condition, st.0, f).1, st.1)),
        exec_statement(
            Statement::IfElse {
                condition,
                then_statement: Box::new(then_statement),
                else_statement: Box::new(else_statement),
            },
            st,
            f,
        ) == exec_statement(else_statement, (eval(condition, st.0, f).1, st.1), f),
{
}

/// Executes statements against a current environment, and keeps the values
/// that `print` statements emit, in order.
pub struct Interpreter {
    environment: Environment,
    output: Vec<Literal>,
}

impl Interpreter {
    /// The scopes, and the values printed so far.
    pub closed spec fn state(&self) -> RunState {
        (self.environment@, self.output@.map_values(|l: Literal| l@))
    }

    pub closed spec fn wf(&self) -> bool {
        self.environment.wf()
    }

    pub fn new(environment: Environment) -> (r: Self)
        requires
            environment.wf(),
        ensures
            r.wf(),
            r.state() == (environment@, Seq::<Value>::empty()),
    {
        let r = Interpreter { environment, output: Vec::new() };
        proof {
            assert(r.state().1 =~= Seq::<Value>::empty());
        }
        r
    }

    /// The values that `print` statements emitted, in order.
    pub fn output(&self) -> (r: &Vec<Literal>)
        ensures
            r@.map_values(|l: Literal| l@) == self.state().1,
    {
        &self.output
    }

    /// The values that `print` statements emitted, in order, given up.
    pub fn into_output(self) -> (r: Vec<Literal>)
        ensures
            r@.map_values(|l: Literal| l@) == self.state().1,
    {
        self.output
    }

    /// The current environment.
    pub fn environment(&self) -> (r: &Environment)
        ensures
            r@ == self.state().0,
    {
        &self.environment
    }

    /// Executes `statements` in order, stopping at the first error. What was
    /// printed before an error stays in the output.
    pub fn interpret<F: Fn(ArithOp, u64, u64) -> u64>(
        &mut self,
        statements: Vec<Statement>,
        arith: &F,
    ) -> (r: Result<(), RuntimeError>)
        requires
            old(self).wf(),
            is_total(*arith),
        ensures
            final(self).wf(),
            is_function(*arith) ==> match exec_statements(
                statements@,
                old(self).state(),
                *arith,
            ) {
                (Ok(()), st) => r is Ok && final(self).state() == st,
                (Err(fault), st) => r matches Err(x) && x@ == fault && final(self).state().1
                    == st.1,
            },
    {
        self.execute_all(&statements, arith)
    }

    fn execute_all<F: Fn(ArithOp, u64, u64) -> u64>(
        &mut self,
        statements: &Vec<Statement>,
        arith: &F,
    ) -> (r: Result<(), RuntimeError>)
        requires
            old(self).wf(),
            is_total(*arith),
        ensures
            final(self).wf(),
            final(self).state().0.len() == old(self).state().0.len(),
            is_function(*arith) ==> match exec_statements(
                statements@,
                old(self).state(),
                *arith,
            ) {
                (Ok(()), st) => r is Ok && final(self).state() == st,
                (Err(fault), st) => r matches Err(x) && x@ == fault && final(self).state().1
                    == st.1,
            },
        decreases statements@, 1int,
    {
        let ghost ss = statements@;
        let mut i: usize = 0;
        proof {
            assert(ss.subrange(0, ss.len() as int) =~= ss);
        }
        while i < statements.len()
            invariant
                self.wf(),
                is_total(*arith),
                ss == statements@,
                i <= ss.len(),
                self.state().0.len() == old(self).state().0.len(),
                is_function(*arith) ==> exec_statements(ss, old(self).state(), *arith)
                    == exec_statements(ss.subrange(i as int, ss.len() as int), self.state(), *arith),
            decreases ss.len() - i,
        {
            let ghost rest = ss.subrange(i as int, ss.len() as int);
            proof {
                assert(rest[0] == ss[i as int]);
                assert(rest.subrange(1, rest.len() as int) =~= ss.subrange(i + 1, ss.len() as int));
                assert(decreases_to!(ss => ss[i as int]));
            }
            match self.execute(&statements[i], arith) {
                Ok(()) => {},
                Err(x) => {
                    return Err(x);
                },
            }
            i = i + 1;
        }
        Ok(())
    }

    fn execute<F: Fn(ArithOp, u64, u64) -> u64>(
        &mut self,
        statement: &Statement,
        arith: &F,
    ) -> (r: Result<(), RuntimeError>)
        requires
            old(self).wf(),
            is_total(*arith),
        ensures
            final(self).wf(),
            final(self).state().0.len() == old(self).state().0.len(),
            is_function(*arith) ==> match exec_statement(*statement, old(self).state(), *arith) {
                (Ok(()), st) => r is Ok && final(self).state() == st,
                (Err(fault), st) => r matches Err(x) && x@ == fault && final(self).state().1
                    == st.1,
            },
        decreases *statement, 0int,
    {
        let ghost out0 = self.output@;
        match statement {
            Statement::Print { expression } => {
                let value = match expression.evaluate(&mut self.environment, arith) {
                    Ok(v) => v,
                    Err(x) => {
                        return Err(x);
                    },
                };
                self.output.push(value);
                proof {
                    assert(self.output@.map_values(|l: Literal| l@) =~= out0.map_values(
                        |l: Literal| l@,
                    ).push(self.output@.last()@));
                }
                Ok(())
            },
            Statement::Expression { expression } => {
                match expression.evaluate(&mut self.environment, arith) {
                    Ok(_) => Ok(()),
                    Err(x) => Err(x),
                }
            },
            Statement::Var { token, expression } => {
                let value = match expression.evaluate(&mut self.environment, arith) {
                    Ok(v) => v,
                    Err(x) => {
                        return Err(x);
                    },
                };
                self.environment.define(token.lexeme(), value);
                Ok(())
            },
            Statement::Block { statements } => {
                let ghost st0 = self.state();
                self.environment.push_frame();
                proof {
                    assert(self.state() == (st0.0.push(Map::empty()), st0.1));
                }
                let r = self.execute_all(statements, arith);
                self.environment.pop_frame();
                r
            },
            Statement::If { condition, then_statement } => {
                let result = match condition.evaluate(&mut self.environment, arith) {
                    Ok(v) => v,
                    Err(x) => {
                        return Err(x);
                    },
                };
                match result {
                    Literal::Boolean(true) => self.execute(then_statement, arith),
                    _ => Ok(()),
                }
            },
            Statement::IfElse { condition, then_statement, else_statement } => {
                let result = match condition.evaluate(&mut self.environment, arith) {
                    Ok(v) => v,
                    Err(x) => {
                        return Err(x);
                    },
                };
                match result {
                    Literal::Boolean(true) => self.execute(then_statement, arith),
                    _ => self.execute(else_statement, arith),
                }
            },
        }
    }
}

} // verus!
