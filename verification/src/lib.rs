//! Hul: a small scripting language, lexed, parsed and interpreted, with each stage
//! proved to follow its specification.
use vstd::prelude::*;

pub mod text;
pub mod lexer;
pub mod spacing;
pub mod ast;
pub mod parser;
pub mod precedence;
pub mod value;
pub mod interpreter;
pub mod laws;

use crate::interpreter::{answers, host_ok, initial_state, run_program, unit_res, HostCall, HostReply, Interpreter, SHostCall, SHostReply};
use crate::lexer::tokenize;
use crate::parser::{parse_tokens, Parser};

verus! {

/// What running a source text gives, for a host that answers `h`: the `Print` requests
/// handed to the host, and the lexical error, or the syntax errors, or the outcome of
/// running the program from a fresh interpreter. Nothing is printed unless the text
/// lexes and parses.
pub open spec fn run_outcome(h: spec_fn(SHostCall) -> SHostReply, source: Seq<char>) -> (Seq<SHostCall>, Result<(), Seq<char>>) {
    match tokenize(source) {
        Err(m) => (Seq::empty(), Err(m)),
        Ok(ts) => match parse_tokens(ts) {
            Err(m) => (Seq::empty(), Err(m)),
            Ok(prog) => {
                let (st, r) = run_program(h, initial_state(), prog, u64::MAX as nat);
                (st.out, r)
            },
        },
    }
}

/// Lexes, parses and runs a source text; numbers and output go through `host`.
/// Returns the outcome, and as a ghost the log of the `Print` requests handed to the host.
pub fn run<F: Fn(HostCall) -> HostReply>(source: &str, host: &F) -> (res: (Result<(), String>, Ghost<Seq<SHostCall>>))
    requires
        source@.len() < usize::MAX,
        host_ok(*host),
    ensures
        unit_res(res.0) == run_outcome(answers(*host), source@).1,
        res.1@ == run_outcome(answers(*host), source@).0,
{
    let mut parser = match Parser::new(source) {
        Ok(p) => p,
        Err(e) => {
            return (Err(e), Ghost(Seq::empty()));
        },
    };
    let stmts = match parser.parse_program() {
        Ok(stmts) => stmts,
        Err(e) => {
            return (Err(e), Ghost(Seq::empty()));
        },
    };
    let mut interp = Interpreter::new();
    let r = interp.interpret(stmts.as_slice(), host);
    let ghost out = interp@.out;
    (r, Ghost(out))
}

} // verus!
