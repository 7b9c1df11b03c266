//! A tree-walking interpreter for a small Lisp-like language: tokenizer,
//! reader, lexically scoped environments, and a trampolined evaluator with
//! a registry of native functions.
//!
//! `tlisp_eval` runs a whole program in a fresh top-level environment; a
//! host that wants state across inputs owns an `Environment` and calls
//! `eval` against it repeatedly.

pub mod double;
pub mod words;
pub mod object;
pub mod operators;
pub mod environment;
pub mod eval;
pub mod lexer;
pub mod parser;
pub mod roundtrip;
pub mod runtime;

use vstd::prelude::*;

use crate::environment::{EnvV, Environment, FrameV};
use crate::eval::{eval_text_spec, EvalOut};
use crate::object::display_text;
use crate::runtime::{NativeId, Runtime};

verus! {

/// The environment a fresh top-level evaluation starts from: one empty root
/// frame and the full native registry.
pub open spec fn initial_env() -> EnvV {
    EnvV {
        frames: seq![FrameV { vars: Map::empty(), parent: None }],
        natives: Map::empty().insert("debug"@, NativeId::Debug).insert("eval"@, NativeId::Eval)
            .insert("cdr"@, NativeId::Cdr).insert("car"@, NativeId::Car).insert(
            "cons"@,
            NativeId::Cons,
        ).insert("format"@, NativeId::Format).insert("split"@, NativeId::Split).insert(
            "join"@,
            NativeId::Join,
        ),
    }
}

/// Evaluates a whole program in a fresh top-level environment and returns
/// the display text of its value, or the error message.
pub fn tlisp_eval(input: &str) -> (r: Result<String, String>)
    ensures
        match eval_text_spec(input@, 0, initial_env(), u64::MAX as nat) {
            EvalOut::Done(v, _e, _f) => match r {
                Ok(s) => s@ == display_text(v),
                Err(_) => false,
            },
            _ => r is Err,
        },
{
    let runtime = Runtime::new();
    let mut env = Environment::new(runtime);
    proof {
        assert(env@ =~~= initial_env());
    }
    let (res, _fuel) = eval::eval(input, 0, &mut env, u64::MAX);
    match res {
        Ok(object) => Ok(object.to_text()),
        Err(e) => Err(e),
    }
}

} // verus!
