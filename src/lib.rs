//! A scanner, a recursive-descent parser and a tree-walking interpreter for a
//! small dynamically typed scripting language.
//!
//! Numbers of the language are IEEE-754 binary64 values. The library holds
//! them as their bit patterns: it negates, compares and tests them for zero
//! itself, and it takes the operations that round (decimal parsing,
//! `+ - * /`, display) as closures from its caller.
//!
//! Source text is read as Unicode scalar values: operators, digits, letters
//! and whitespace are ASCII, any other character is an error outside a string
//! literal, and a string literal keeps the characters between its quotes.
use vstd::prelude::*;

pub mod environment;
pub mod interpreter;
pub mod number;
pub mod parser;
pub mod scanner;

use crate::environment::Environment;
use crate::interpreter::{
    exec_statements, is_function, is_total, ArithOp, Interpreter, RuntimeError,
};
use crate::parser::{spec_program, ParseError, Parser};
use crate::scanner::{scan_from, tokens_match, Literal, ScanError, Scanner, Token, Value};

verus! {

/// The error that ended a run, by stage.
#[derive(Clone, Debug, PartialEq)]
pub enum Error {
    Scan(ScanError),
    Parse(ParseError),
    Runtime(RuntimeError),
}

/// What a run of `source` from a fresh environment does: scan, then parse,
/// then execute; the values printed, and how it ended.
pub open spec fn run_outcome<P: Fn(String) -> u64, F: Fn(ArithOp, u64, u64) -> u64>(
    source: Seq<char>,
    parse: P,
    arith: F,
    printed: Seq<Value>,
    ended: Result<(), Error>,
) -> bool {
    match scan_from(source, 0) {
        Err(e) => ended == Err::<(), Error>(Error::Scan(e)) && printed.len() == 0,
        Ok(lexemes) => exists|tokens: Seq<Token>|
            {
                &&& tokens_match(source, tokens, lexemes, parse)
                &&& match spec_program(tokens, 0) {
                    Err(e) => ended == Err::<(), Error>(Error::Parse(e)) && printed.len() == 0,
                    Ok(statements) => is_function(arith) ==> match exec_statements(
                        statements,
                        (seq![Map::empty()], seq![]),
                        arith,
                    ) {
                        (Ok(()), st) => ended is Ok && printed == st.1,
                        (Err(fault), st) => ended matches Err(Error::Runtime(x)) && x@ == fault
                            && printed == st.1,
                    },
                }
            },
    }
}

/// Runs a whole source text in a fresh environment. `parse` turns a number
/// lexeme into its binary64 bits, `arith` rounds `+ - * /`. Returns the
/// values that `print` emitted before the run ended, and how it ended.
pub fn run<P: Fn(String) -> u64, F: Fn(ArithOp, u64, u64) -> u64>(
    source: &str,
    parse: &P,
    arith: &F,
) -> (r: (Vec<Literal>, Result<(), Error>))
    requires
        source@.len() < usize::MAX,
        forall|s: String| call_requires(*parse, (s,)),
        is_total(*arith),
    ensures
        run_outcome(source@, *parse, *arith, r.0@.map_values(|l: Literal| l@), r.1),
{
    let mut scanner = Scanner::new(source);
    let tokens = match scanner.scan_tokens(parse) {
        Ok(t) => t,
        Err(e) => {
            let r = (Vec::new(), Err(Error::Scan(e)));
            assert(r.0@.map_values(|l: Literal| l@) =~= Seq::<Value>::empty());
            return r;
        },
    };
    let mut parser = Parser::new(tokens);
    let statements = match parser.parse() {
        Ok(s) => s,
        Err(e) => {
            let r = (Vec::new(), Err(Error::Parse(e)));
            assert(r.0@.map_values(|l: Literal| l@) =~= Seq::<Value>::empty());
            return r;
        },
    };
    let mut interpreter = Interpreter::new(Environment::new());
    let ended = match interpreter.interpret(statements, arith) {
        Ok(()) => Ok(()),
        Err(x) => Err(Error::Runtime(x)),
    };
    (interpreter.into_output(), ended)
}

} // verus!
