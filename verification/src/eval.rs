//! The evaluator: a value tree and an environment become a value.
//!
//! Evaluation is a trampoline: a loop holds the current expression and the
//! current scope, and a call in tail position (a user function call, a
//! `cond` branch, a symbol that resolved to plain data) replaces them
//! instead of recursing, so self-recursive definitions run in constant
//! stack depth.  Only argument evaluation and the non-tail special forms
//! recurse.  Every step spends one unit of fuel; the spec interpreter
//! `spec_eval` is the meaning of the loop, fuel accounting included, and
//! the executable evaluator returns exactly what it says.

use vstd::prelude::*;

use crate::environment::{env_evolves, env_lookup, env_lookup_wf, env_wf, EnvV, Environment, FrameV};
use crate::object::{obj_views, obj_views_elts, obj_wf, obj_wf_mono, Object, ObjV};
use crate::operators;
use crate::operators::{
    and_run, chain_spec, div_spec, eq_pair, gt_pair, lt_pair, mod_spec, mult_spec, or_run,
    strict_eq_pair, sub_spec, sum_spec,
};
use crate::parser::{parse, spec_parse};
use crate::runtime::list::{car_spec, cdr_spec, cons_spec};
use crate::runtime::string::{format_spec, join_spec, split_spec};
use crate::runtime::NativeId;

verus! {

/// The outcome of an evaluation: a value with the environment and fuel it
/// left behind, an evaluation error, or fuel running out.
pub ghost enum EvalOut {
    Done(ObjV, EnvV, nat),
    Fail,
    Spin,
}

/// The outcome of evaluating a row of expressions left to right.
pub ghost enum SeqOut {
    Done(Seq<ObjV>, EnvV, nat),
    Fail,
    Spin,
}

/// A decision to continue the trampoline at an expression in a scope.
pub ghost enum StepOut {
    Go(ObjV, int, EnvV, nat),
    Fail,
    Spin,
}


/// The smaller of two fuel amounts.  Evaluation never returns more fuel
/// than it was given, so where it guards a recursive call it changes
/// nothing; it makes the descent visible to the termination checker.
pub open spec fn fmin(a: nat, b: nat) -> nat {
    if a <= b {
        a
    } else {
        b
    }
}

/// The arena after opening a fresh frame under `parent`.
pub open spec fn env_extend(e: EnvV, parent: int) -> EnvV {
    EnvV {
        frames: e.frames.push(FrameV { vars: Map::empty(), parent: Some(parent) }),
        natives: e.natives,
    }
}

/// The arena after binding `name` to `v` in frame `i`.
pub open spec fn env_set(e: EnvV, i: int, name: Seq<char>, v: ObjV) -> EnvV {
    EnvV {
        frames: e.frames.update(
            i,
            FrameV { vars: e.frames[i].vars.insert(name, v), parent: e.frames[i].parent },
        ),
        natives: e.natives,
    }
}

/// The arena after merging every binding of frame `src` into frame `dst`.
pub open spec fn env_update(e: EnvV, dst: int, src: int) -> EnvV {
    EnvV {
        frames: e.frames.update(
            dst,
            FrameV {
                vars: e.frames[dst].vars.union_prefer_right(e.frames[src].vars),
                parent: e.frames[dst].parent,
            },
        ),
        natives: e.natives,
    }
}


/// The arena after binding each name to the matching ready value in frame
/// `idx`, left to right.
pub open spec fn env_bind_all(e: EnvV, idx: int, names: Seq<Seq<char>>, vals: Seq<ObjV>) -> EnvV
    decreases names,
{
    if names.len() == 0 || names.len() != vals.len() {
        e
    } else {
        env_set(
            env_bind_all(e, idx, names.drop_last(), vals.drop_last()),
            idx,
            names.last(),
            vals.last(),
        )
    }
}

/// The truthiness rule: `false` and `Void` are falsy, all else is truthy.
pub open spec fn truthy(v: ObjV) -> bool {
    match v {
        ObjV::Bool(b) => b,
        ObjV::Void => false,
        _ => true,
    }
}

/// What a symbol evaluates to: the boolean and nil literals, then the
/// environment chain, then the native registry.
pub open spec fn symbol_spec(s: Seq<char>, i: int, e: EnvV) -> Result<ObjV, ()> {
    if s == "#t"@ {
        Ok(ObjV::Bool(true))
    } else if s == "#f"@ {
        Ok(ObjV::Bool(false))
    } else if s == "#nil"@ {
        Ok(ObjV::Void)
    } else {
        match env_lookup(e, i, s) {
            Some(v) => Ok(v),
            None => if e.natives.contains_key(s) {
                Ok(ObjV::Native(s))
            } else {
                Err(())
            },
        }
    }
}

/// The evaluated arguments with `Void` results dropped.
pub open spec fn drop_voids(s: Seq<ObjV>) -> Seq<ObjV>
    decreases s,
{
    if s.len() == 0 {
        Seq::empty()
    } else {
        let rest = drop_voids(s.drop_last());
        if s.last() is Void {
            rest
        } else {
            rest.push(s.last())
        }
    }
}

/// One layer of quoting stripped from each element.
pub open spec fn unquote_elems(items: Seq<ObjV>) -> Seq<ObjV> {
    Seq::new(
        items.len(),
        |i: int|
            match items[i] {
                ObjV::Quote(inner) => *inner,
                o => o,
            },
    )
}

/// The fixed operator semantics, dispatched by the operator's name.
pub open spec fn apply_operator(op: Seq<char>, args: Seq<ObjV>) -> Result<ObjV, ()> {
    if op == "+"@ {
        sum_spec(args)
    } else if op == "-"@ {
        sub_spec(args)
    } else if op == "*"@ {
        mult_spec(args)
    } else if op == "/"@ {
        div_spec(args)
    } else if op == "%"@ {
        mod_spec(args)
    } else if op == "<"@ {
        chain_spec(|a: ObjV, b: ObjV| lt_pair(a, b), args)
    } else if op == ">"@ {
        chain_spec(|a: ObjV, b: ObjV| gt_pair(a, b), args)
    } else if op == "="@ {
        chain_spec(|a: ObjV, b: ObjV| eq_pair(a, b), args)
    } else if op == "=="@ {
        chain_spec(|a: ObjV, b: ObjV| strict_eq_pair(a, b), args)
    } else if op == "and"@ {
        Ok(and_run(ObjV::Void, args))
    } else if op == "or"@ {
        Ok(or_run(ObjV::Void, args))
    } else {
        Err(())
    }
}

/// The parameter names of a lambda form's parameter list, if every element
/// is a symbol.
pub open spec fn param_names(items: Seq<ObjV>) -> Result<Seq<Seq<char>>, ()>
    decreases items,
{
    if items.len() == 0 {
        Ok(Seq::empty())
    } else {
        match param_names(items.drop_last()) {
            Ok(names) => match items.last() {
                ObjV::Symbol(s) => Ok(names.push(s)),
                _ => Err(()),
            },
            Err(e) => Err(e),
        }
    }
}

/// What the native a name resolves to returns for the evaluated arguments.
pub open spec fn apply_native(
    id: NativeId,
    args: Seq<ObjV>,
    i: int,
    e: EnvV,
    fuel: nat,
) -> EvalOut
    decreases fuel, 3int,
{
    match id {
        NativeId::Debug => EvalOut::Done(ObjV::Void, e, fuel),
        NativeId::Eval => {
            if args.len() == 0 {
                EvalOut::Fail
            } else {
                match args[0] {
                    ObjV::Quote(inner) => {
                        let prepared = match *inner {
                            ObjV::List(items) => ObjV::List(unquote_elems(items)),
                            o => o,
                        };
                        spec_eval(prepared, i, e, fuel)
                    },
                    _ => EvalOut::Fail,
                }
            }
        },
        NativeId::Car => EvalOut::Done(car_spec(args), e, fuel),
        NativeId::Cdr => EvalOut::Done(cdr_spec(args), e, fuel),
        NativeId::Cons => if args.len() == 0 {
            EvalOut::Fail
        } else {
            EvalOut::Done(cons_spec(args), e, fuel)
        },
        NativeId::Format => EvalOut::Done(format_spec(args), e, fuel),
        NativeId::Split => EvalOut::Done(split_spec(args), e, fuel),
        NativeId::Join => EvalOut::Done(join_spec(args), e, fuel),
    }
}

/// Evaluates a row of expressions left to right in scope `i`, threading the
/// environment and the fuel.
pub open spec fn spec_eval_elems(rest: Seq<ObjV>, i: int, e: EnvV, fuel: nat) -> SeqOut
    decreases fuel, 1int, rest.len(),
{
    if rest.len() == 0 {
        SeqOut::Done(Seq::empty(), e, fuel)
    } else {
        match spec_eval(rest[0], i, e, fuel) {
            EvalOut::Done(v, e2, f2) => match spec_eval_elems(rest.drop_first(), i, e2, fmin(f2, fuel)) {
                SeqOut::Done(vs, e3, f3) => SeqOut::Done(seq![v] + vs, e3, f3),
                SeqOut::Fail => SeqOut::Fail,
                SeqOut::Spin => SeqOut::Spin,
            },
            EvalOut::Fail => SeqOut::Fail,
            EvalOut::Spin => SeqOut::Spin,
        }
    }
}

/// Evaluates body forms left to right in scope `i`, the last result winning.
pub open spec fn spec_eval_body(forms: Seq<ObjV>, i: int, e: EnvV, fuel: nat) -> EvalOut
    decreases fuel, 1int, forms.len(),
{
    if forms.len() == 0 {
        EvalOut::Done(ObjV::Void, e, fuel)
    } else {
        match spec_eval(forms[0], i, e, fuel) {
            EvalOut::Done(v, e2, f2) => if forms.len() == 1 {
                EvalOut::Done(v, e2, f2)
            } else {
                spec_eval_body(forms.drop_first(), i, e2, fmin(f2, fuel))
            },
            out => out,
        }
    }
}

/// Evaluates `let` bindings left to right in the private frame `bind_idx`,
/// each becoming visible to the next.
pub open spec fn spec_eval_bindings(
    bindings: Seq<ObjV>,
    bind_idx: int,
    e: EnvV,
    fuel: nat,
) -> StepOut
    decreases fuel, 1int, bindings.len(),
{
    if bindings.len() == 0 {
        StepOut::Go(ObjV::Void, bind_idx, e, fuel)
    } else {
        match bindings[0] {
            ObjV::List(pair) => if pair.len() != 2 {
                StepOut::Fail
            } else {
                match pair[0] {
                    ObjV::Symbol(name) => match spec_eval(pair[1], bind_idx, e, fuel) {
                        EvalOut::Done(v, e2, f2) => spec_eval_bindings(
                            bindings.drop_first(),
                            bind_idx,
                            env_set(e2, bind_idx, name, v),
                            fmin(f2, fuel),
                        ),
                        EvalOut::Fail => StepOut::Fail,
                        EvalOut::Spin => StepOut::Spin,
                    },
                    _ => StepOut::Fail,
                }
            },
            _ => StepOut::Fail,
        }
    }
}

/// Scans `cond`'s condition and body pairs and picks the first body whose
/// condition evaluates truthy; no truthy condition means `Void`.
pub open spec fn spec_cond_pairs(rest: Seq<ObjV>, i: int, e: EnvV, fuel: nat) -> StepOut
    decreases fuel, 1int, rest.len(),
{
    if rest.len() == 0 {
        StepOut::Go(ObjV::Void, i, e, fuel)
    } else {
        let body = if rest.len() >= 2 {
            rest[1]
        } else {
            ObjV::Void
        };
        match spec_eval(rest[0], i, e, fuel) {
            EvalOut::Done(cv, e2, f2) => if truthy(cv) {
                StepOut::Go(body, i, e2, f2)
            } else {
                if rest.len() >= 2 {
                    spec_cond_pairs(rest.skip(2), i, e2, fmin(f2, fuel))
                } else {
                    spec_cond_pairs(rest.skip(1), i, e2, fmin(f2, fuel))
                }
            },
            EvalOut::Fail => StepOut::Fail,
            EvalOut::Spin => StepOut::Spin,
        }
    }
}

/// Binds the parameters of a call, each argument evaluated in the caller's
/// scope `caller` and bound in the fresh frame `new_idx`; an argument count
/// that does not match the parameter count, in either direction, is an
/// error.
pub open spec fn spec_bind_params(
    params: Seq<Seq<char>>,
    k: int,
    items: Seq<ObjV>,
    new_idx: int,
    caller: int,
    e: EnvV,
    fuel: nat,
) -> StepOut
    decreases fuel, 1int, params.len() - k,
{
    if k < 0 || k >= params.len() {
        if items.len() == params.len() + 1 {
            StepOut::Go(ObjV::Void, new_idx, e, fuel)
        } else {
            StepOut::Fail
        }
    } else if k + 1 >= items.len() {
        StepOut::Fail
    } else {
        match spec_eval(items[k + 1], caller, e, fuel) {
            EvalOut::Done(v, e2, f2) => spec_bind_params(
                params,
                k + 1,
                items,
                new_idx,
                caller,
                env_set(e2, new_idx, params[k], v),
                fmin(f2, fuel),
            ),
            EvalOut::Fail => StepOut::Fail,
            EvalOut::Spin => StepOut::Spin,
        }
    }
}

/// A call of a closure: a fresh frame extends the closure's captured scope,
/// the parameters are bound there (the argument count must match exactly),
/// and the body continues the trampoline.
pub open spec fn spec_call(
    params: Seq<Seq<char>>,
    body: ObjV,
    captured: int,
    items: Seq<ObjV>,
    caller: int,
    e: EnvV,
    fuel: nat,
) -> StepOut
    decreases fuel, 2int,
{
    let new_idx = e.frames.len() as int;
    let e1 = env_extend(e, captured);
    match spec_bind_params(params, 0, items, new_idx, caller, e1, fuel) {
        StepOut::Go(_v, _i, e2, f2) => StepOut::Go(body, new_idx, e2, f2),
        StepOut::Fail => StepOut::Fail,
        StepOut::Spin => StepOut::Spin,
    }
}

/// The `define` form: its expression's value is bound to the name in the
/// current frame, yielding `Void`; a parenthesized head is function sugar.
pub open spec fn spec_eval_define(items: Seq<ObjV>, i: int, e: EnvV, fuel: nat) -> EvalOut
    decreases fuel, 2int,
{
    if items.len() != 3 {
        EvalOut::Fail
    } else {
        match items[1] {
            ObjV::Symbol(name) => match spec_eval(items[2], i, e, fuel) {
                EvalOut::Done(v, e2, f2) => EvalOut::Done(ObjV::Void, env_set(e2, i, name, v), f2),
                out => out,
            },
            ObjV::List(sig) => {
                if sig.len() == 0 {
                    EvalOut::Fail
                } else {
                    match (sig[0], param_names(sig.drop_first())) {
                        (ObjV::Symbol(name), Ok(names)) => {
                            let lambda = ObjV::Lambda(names, Box::new(items[2]), i);
                            EvalOut::Done(ObjV::Void, env_set(e, i, name, lambda), fuel)
                        },
                        _ => EvalOut::Fail,
                    }
                }
            },
            _ => EvalOut::Fail,
        }
    }
}

/// The `defun` form: a closure over the current scope, bound to the name.
pub open spec fn spec_eval_defun(items: Seq<ObjV>, i: int, e: EnvV, fuel: nat) -> EvalOut {
    if items.len() != 4 {
        EvalOut::Fail
    } else {
        match (items[1], items[2]) {
            (ObjV::Symbol(name), ObjV::List(ps)) => match param_names(ps) {
                Ok(names) => {
                    let lambda = ObjV::Lambda(names, Box::new(items[3]), i);
                    EvalOut::Done(ObjV::Void, env_set(e, i, name, lambda), fuel)
                },
                Err(_) => EvalOut::Fail,
            },
            _ => EvalOut::Fail,
        }
    }
}

/// The `lambda` form: a closure over the current scope, returned bare.
pub open spec fn spec_eval_lambda(items: Seq<ObjV>, i: int, e: EnvV, fuel: nat) -> EvalOut {
    if items.len() != 3 {
        EvalOut::Fail
    } else {
        match items[1] {
            ObjV::List(ps) => match param_names(ps) {
                Ok(names) => EvalOut::Done(ObjV::Lambda(names, Box::new(items[2]), i), e, fuel),
                Err(_) => EvalOut::Fail,
            },
            _ => EvalOut::Fail,
        }
    }
}

/// The `let` form: bindings evaluate sequentially in a private frame, are
/// merged into a fresh frame over the current scope, and the body forms run
/// there.
pub open spec fn spec_eval_let(items: Seq<ObjV>, i: int, e: EnvV, fuel: nat) -> EvalOut
    decreases fuel, 2int,
{
    if items.len() < 3 {
        EvalOut::Fail
    } else {
        match items[1] {
            ObjV::List(bindings) => {
                let bind_idx = e.frames.len() as int;
                let e1 = env_extend(e, i);
                match spec_eval_bindings(bindings, bind_idx, e1, fuel) {
                    StepOut::Go(_v, _bi, e2, f2) => {
                        let body_idx = e2.frames.len() as int;
                        let e3 = env_update(env_extend(e2, i), body_idx, bind_idx);
                        spec_eval_body(items.skip(2), body_idx, e3, fmin(f2, fuel))
                    },
                    StepOut::Fail => EvalOut::Fail,
                    StepOut::Spin => EvalOut::Spin,
                }
            },
            _ => EvalOut::Fail,
        }
    }
}

/// The `do` form: one fresh scope, every expression evaluated in it, the
/// last result returned.
pub open spec fn spec_eval_do(items: Seq<ObjV>, i: int, e: EnvV, fuel: nat) -> EvalOut
    decreases fuel, 2int,
{
    let idx = e.frames.len() as int;
    spec_eval_body(items.drop_first(), idx, env_extend(e, i), fuel)
}

/// Dispatches a keyword-headed form to its special form.
pub open spec fn spec_eval_keyword(items: Seq<ObjV>, i: int, e: EnvV, fuel: nat) -> EvalOut
    decreases fuel, 3int,
{
    match items[0] {
        ObjV::Keyword(k) => {
            if k == "define"@ {
                spec_eval_define(items, i, e, fuel)
            } else if k == "defun"@ {
                spec_eval_defun(items, i, e, fuel)
            } else if k == "lambda"@ {
                spec_eval_lambda(items, i, e, fuel)
            } else if k == "let"@ {
                spec_eval_let(items, i, e, fuel)
            } else if k == "do"@ {
                spec_eval_do(items, i, e, fuel)
            } else {
                EvalOut::Fail
            }
        },
        _ => EvalOut::Fail,
    }
}

/// An operator-headed form: every remaining element evaluates, then the
/// operator's fold applies; fewer than two elements in all is an error.
pub open spec fn spec_eval_operator(items: Seq<ObjV>, i: int, e: EnvV, fuel: nat) -> EvalOut
    decreases fuel, 2int,
{
    if items.len() < 2 {
        EvalOut::Fail
    } else {
        match items[0] {
            ObjV::Operator(op) => match spec_eval_elems(items.drop_first(), i, e, fuel) {
                SeqOut::Done(args, e2, f2) => match apply_operator(op, args) {
                    Ok(v) => EvalOut::Done(v, e2, f2),
                    Err(_) => EvalOut::Fail,
                },
                SeqOut::Fail => EvalOut::Fail,
                SeqOut::Spin => EvalOut::Spin,
            },
            _ => EvalOut::Fail,
        }
    }
}

/// A native call: the remaining elements evaluate in the caller's scope and
/// the registry's function applies.
pub open spec fn spec_eval_native(name: Seq<char>, items: Seq<ObjV>, i: int, e: EnvV, fuel: nat) -> EvalOut
    decreases fuel, 4int,
{
    if !e.natives.contains_key(name) {
        EvalOut::Fail
    } else {
        match spec_eval_elems(items.drop_first(), i, e, fuel) {
            SeqOut::Done(args, e2, f2) => apply_native(e.natives[name], args, i, e2, fmin(f2, fuel)),
            SeqOut::Fail => EvalOut::Fail,
            SeqOut::Spin => EvalOut::Spin,
        }
    }
}

/// The meaning of the evaluator's trampoline, one fuel unit per step: what
/// evaluating `o` in scope `i` of arena `e` yields, how it leaves the arena,
/// and how much fuel remains.
pub open spec fn spec_eval(o: ObjV, i: int, e: EnvV, fuel: nat) -> EvalOut
    decreases fuel, 0int,
{
    if fuel == 0 {
        EvalOut::Spin
    } else {
        let f = (fuel - 1) as nat;
        match o {
            ObjV::List(items) => {
                if items.len() == 0 {
                    EvalOut::Fail
                } else {
                    match items[0] {
                        ObjV::Operator(_op) => spec_eval_operator(items, i, e, f),
                        ObjV::Keyword(_k) => spec_eval_keyword(items, i, e, f),
                        ObjV::Cond => {
                            if items.len() % 2 != 1 {
                                EvalOut::Fail
                            } else {
                                match spec_cond_pairs(items.drop_first(), i, e, f) {
                                    StepOut::Go(body, i2, e2, f2) => spec_eval(
                                        body,
                                        i2,
                                        e2,
                                        fmin(f2, f),
                                    ),
                                    StepOut::Fail => EvalOut::Fail,
                                    StepOut::Spin => EvalOut::Spin,
                                }
                            }
                        },
                        ObjV::Symbol(s) => match symbol_spec(s, i, e) {
                            Ok(resolved) => match resolved {
                                ObjV::Lambda(ps, body, captured) => {
                                    match spec_call(ps, *body, captured, items, i, e, f) {
                                        StepOut::Go(b, i2, e2, f2) => spec_eval(
                                            b,
                                            i2,
                                            e2,
                                            fmin(f2, f),
                                        ),
                                        StepOut::Fail => EvalOut::Fail,
                                        StepOut::Spin => EvalOut::Spin,
                                    }
                                },
                                ObjV::Native(_nm) => spec_eval_native(s, items, i, e, f),
                                v => spec_eval(v, i, e, f),
                            },
                            Err(_) => EvalOut::Fail,
                        },
                        ObjV::Lambda(ps, body, captured) => {
                            match spec_call(ps, *body, captured, items, i, e, f) {
                                StepOut::Go(b, i2, e2, f2) => spec_eval(b, i2, e2, fmin(f2, f)),
                                StepOut::Fail => EvalOut::Fail,
                                StepOut::Spin => EvalOut::Spin,
                            }
                        },
                        _ => match spec_eval_elems(items, i, e, f) {
                            SeqOut::Done(vs, e2, f2) => {
                                let kept = drop_voids(vs);
                                if kept.len() == 0 {
                                    EvalOut::Done(ObjV::Void, e2, f2)
                                } else {
                                    match kept[0] {
                                        ObjV::Bool(_) | ObjV::Integer(_) | ObjV::Float(_)
                                            | ObjV::Str(_) => EvalOut::Fail,
                                        ObjV::Lambda(ps2, body2, cap2) => {
                                            if kept.len() - 1 != ps2.len() {
                                                EvalOut::Fail
                                            } else {
                                                let idx = e2.frames.len() as int;
                                                let e3 = env_bind_all(
                                                    env_extend(e2, cap2),
                                                    idx,
                                                    ps2,
                                                    kept.drop_first(),
                                                );
                                                spec_eval(*body2, idx, e3, fmin(f2, f))
                                            }
                                        },
                                        _ => EvalOut::Done(ObjV::List(kept), e2, f2),
                                    }
                                }
                            },
                            SeqOut::Fail => EvalOut::Fail,
                            SeqOut::Spin => EvalOut::Spin,
                        },
                    }
                }
            },
            ObjV::Symbol(s) => match symbol_spec(s, i, e) {
                Ok(v) => EvalOut::Done(v, e, f),
                Err(_) => EvalOut::Fail,
            },
            ObjV::Lambda(_ps, _body, _captured) => EvalOut::Done(ObjV::Void, e, f),
            v => EvalOut::Done(v, e, f),
        }
    }
}


/// A non-symbol anywhere in the list makes the whole parameter list bad.
proof fn param_names_err_mono(items: Seq<ObjV>, j: int)
    requires
        0 <= j <= items.len(),
        param_names(items.take(j)) is Err,
    ensures
        param_names(items) is Err,
    decreases items.len() - j,
{
    if j < items.len() {
        assert(items.take(j + 1).drop_last() =~= items.take(j));
        param_names_err_mono(items, j + 1);
    } else {
        assert(items.take(j) =~= items);
    }
}


/// `cond` never changes the scope its chosen branch runs in.
proof fn cond_pairs_frame(rest: Seq<ObjV>, i: int, e: EnvV, fuel: nat)
    ensures
        spec_cond_pairs(rest, i, e, fuel) matches StepOut::Go(_b, i2, _e2, _f2) ==> i2 == i,
    decreases fuel, 1int, rest.len(),
{
    if rest.len() > 0 {
        match spec_eval(rest[0], i, e, fuel) {
            EvalOut::Done(cv, e2, f2) => {
                if !truthy(cv) {
                    if rest.len() >= 2 {
                        cond_pairs_frame(rest.skip(2), i, e2, fmin(f2, fuel));
                    } else {
                        cond_pairs_frame(rest.skip(1), i, e2, fmin(f2, fuel));
                    }
                }
            },
            _ => {},
        }
    }
}

/// Do all the values address only frames below `n`?
pub open spec fn objs_wf(vs: Seq<ObjV>, n: int) -> bool {
    forall|j: int| 0 <= j < vs.len() ==> obj_wf(#[trigger] vs[j], n)
}

/// What every evaluation step guarantees of the arena it leaves behind, and
/// how its executable result reads the spec outcome.
pub open spec fn eval_post(
    out: EvalOut,
    e0: EnvV,
    e1: EnvV,
    r: Result<Object, String>,
    fl: u64,
) -> bool {
    &&& e1.natives == e0.natives
    &&& e1.frames.len() >= e0.frames.len()
    &&& env_evolves(e0, e1)
    &&& env_wf(e1)
    &&& match out {
        EvalOut::Done(v, e2, f2) => match r {
            Ok(x) => x@ == v && e1 == e2 && fl as nat == f2 && obj_wf(v, e1.frames.len() as int),
            Err(_) => false,
        },
        _ => r is Err,
    }
}

/// Finished results prepended to the outcome of the elements still to come.
pub open spec fn seq_out_prepend(done: Seq<ObjV>, out: SeqOut) -> SeqOut {
    match out {
        SeqOut::Done(vs, e, f) => SeqOut::Done(done + vs, e, f),
        x => x,
    }
}

/// Moving one evaluated element onto the finished results keeps the whole
/// outcome.
proof fn seq_out_step(done: Seq<ObjV>, v: ObjV, out: SeqOut)
    ensures
        seq_out_prepend(done, match out {
            SeqOut::Done(vs, e, f) => SeqOut::Done(seq![v] + vs, e, f),
            x => x,
        }) == seq_out_prepend(done.push(v), out),
{
    match out {
        SeqOut::Done(vs, e, f) => {
            assert(done + (seq![v] + vs) =~= done.push(v) + vs);
        },
        _ => {},
    }
}

/// Evaluates a symbol: the boolean and nil literals, the environment chain,
/// then the native registry.
fn eval_symbol(s: &str, frame: usize, env: &Environment) -> (r: Result<Object, String>)
    requires
        env_wf(env@),
        frame < env@.frames.len(),
    ensures
        match r {
            Ok(v) => symbol_spec(s@, frame as int, env@) == Ok::<ObjV, ()>(v@) && obj_wf(
                v@,
                env@.frames.len() as int,
            ),
            Err(_) => symbol_spec(s@, frame as int, env@) is Err,
        },
{
    let t = String::from_str(s);
    if t == String::from_str("#t") {
        Ok(Object::Bool(true))
    } else if t == String::from_str("#f") {
        Ok(Object::Bool(false))
    } else if t == String::from_str("#nil") {
        Ok(Object::Void)
    } else {
        match env.get(frame, s) {
            Some(v) => Ok(v),
            None => {
                match env.get_runtime_fn(s) {
                    Some(_id) => Ok(Object::Native(t)),
                    None => Err(String::from_str("Unbound symbol: ").concat(s)),
                }
            },
        }
    }
}

/// Evaluates the elements of `items` from `start` on, left to right.
#[verifier::loop_isolation(false)]
fn eval_elems(
    items: &Vec<Object>,
    start: usize,
    frame: usize,
    env: &mut Environment,
    fuel: u64,
) -> (r: (Result<Vec<Object>, String>, u64))
    requires
        env_wf(old(env)@),
        frame < old(env)@.frames.len(),
        start <= items@.len(),
        objs_wf(obj_views(items@), old(env)@.frames.len() as int),
    ensures
        r.1 <= fuel,
        final(env)@.natives == old(env)@.natives,
        final(env)@.frames.len() >= old(env)@.frames.len(),
        env_evolves(old(env)@, final(env)@),
        env_wf(final(env)@),
        match spec_eval_elems(
            obj_views(items@).skip(start as int),
            frame as int,
            old(env)@,
            fuel as nat,
        ) {
            SeqOut::Done(vs, e2, f2) => match r.0 {
                Ok(out) => obj_views(out@) == vs && final(env)@ == e2 && r.1 as nat == f2
                    && objs_wf(vs, e2.frames.len() as int),
                Err(_) => false,
            },
            _ => r.0 is Err,
        },
    decreases fuel, 1int, items@.len() - start,
{
    let ghost e0 = old(env)@;
    let ghost vs_all = obj_views(items@);
    proof {
        obj_views_elts(items@);
    }
    let mut out: Vec<Object> = Vec::new();
    let mut k: usize = start;
    let mut fuel_left: u64 = fuel;
    while k < items.len()
        invariant
            start <= k <= items@.len(),
            fuel_left <= fuel,
            env_wf(env@),
            frame < env@.frames.len(),
            env@.natives == e0.natives,
            env@.frames.len() >= e0.frames.len(),
            env_evolves(e0, env@),
            out@.len() == k - start,
            objs_wf(obj_views(out@), env@.frames.len() as int),
            seq_out_prepend(
                obj_views(out@),
                spec_eval_elems(vs_all.skip(k as int), frame as int, env@, fuel_left as nat),
            ) == spec_eval_elems(vs_all.skip(start as int), frame as int, e0, fuel as nat),
        decreases items@.len() - k,
    {
        proof {
            assert(vs_all.skip(k as int)[0] == vs_all[k as int]);
            assert(vs_all.skip(k as int).drop_first() =~= vs_all.skip(k + 1));
        }
        let ghost env_before = env@;
        let ghost out_before = obj_views(out@);
        proof {
            obj_wf_mono(vs_all[k as int], e0.frames.len() as int, env@.frames.len() as int);
        }
        let (res, f2) = eval_object(&items[k], frame, env, fuel_left);
        let v = match res {
            Ok(v) => v,
            Err(msg) => {
                return (Err(msg), f2);
            },
        };
        proof {
            assert(fmin(f2 as nat, fuel_left as nat) == f2 as nat);
            seq_out_step(
                out_before,
                v@,
                spec_eval_elems(vs_all.skip(k + 1), frame as int, env@, f2 as nat),
            );
            assert((out@.push(v)).drop_last() =~= out@);
            assert((out@.push(v)).last() == v);
            assert(obj_views(out@.push(v)) =~= out_before.push(v@));
        }
        let ghost vv = v@;
        out.push(v);
        fuel_left = f2;
        k = k + 1;
        proof {
            assert forall|j: int|
                0 <= j < obj_views(out@).len() implies obj_wf(
                #[trigger] obj_views(out@)[j],
                env@.frames.len() as int,
            ) by {
                if j < obj_views(out@).len() - 1 {
                    assert(obj_views(out@)[j] == out_before[j]);
                    obj_wf_mono(
                        out_before[j],
                        env_before.frames.len() as int,
                        env@.frames.len() as int,
                    );
                } else {
                    assert(obj_views(out@)[j] == vv);
                }
            }
        }
    }
    proof {
        assert(vs_all.skip(items@.len() as int) =~= Seq::<ObjV>::empty());
    }
    (Ok(out), fuel_left)
}

/// Evaluates body forms left to right, the last result winning.
#[verifier::loop_isolation(false)]
fn eval_body(
    items: &Vec<Object>,
    start: usize,
    frame: usize,
    env: &mut Environment,
    fuel: u64,
) -> (r: (Result<Object, String>, u64))
    requires
        env_wf(old(env)@),
        frame < old(env)@.frames.len(),
        start <= items@.len(),
        objs_wf(obj_views(items@), old(env)@.frames.len() as int),
    ensures
        r.1 <= fuel,
        eval_post(
            spec_eval_body(
                obj_views(items@).skip(start as int),
                frame as int,
                old(env)@,
                fuel as nat,
            ),
            old(env)@,
            final(env)@,
            r.0,
            r.1,
        ),
    decreases fuel, 1int, items@.len() - start,
{
    let ghost e0 = old(env)@;
    let ghost vs_all = obj_views(items@);
    proof {
        obj_views_elts(items@);
    }
    if start == items.len() {
        proof {
            assert(vs_all.skip(start as int) =~= Seq::<ObjV>::empty());
        }
        return (Ok(Object::Void), fuel);
    }
    let mut result = Object::Void;
    let mut k: usize = start;
    let mut fuel_left: u64 = fuel;
    while k < items.len()
        invariant
            start <= k <= items@.len(),
            start < items@.len(),
            fuel_left <= fuel,
            env_wf(env@),
            frame < env@.frames.len(),
            env@.natives == e0.natives,
            env@.frames.len() >= e0.frames.len(),
            env_evolves(e0, env@),
            obj_wf(result@, env@.frames.len() as int),
            k == items@.len() ==> spec_eval_body(
                vs_all.skip(start as int),
                frame as int,
                e0,
                fuel as nat,
            ) == EvalOut::Done(result@, env@, fuel_left as nat),
            k < items@.len() ==> spec_eval_body(
                vs_all.skip(start as int),
                frame as int,
                e0,
                fuel as nat,
            ) == spec_eval_body(vs_all.skip(k as int), frame as int, env@, fuel_left as nat),
        decreases items@.len() - k,
    {
        proof {
            assert(vs_all.skip(k as int)[0] == vs_all[k as int]);
            assert(vs_all.skip(k as int).drop_first() =~= vs_all.skip(k + 1));
        }
        proof {
            obj_wf_mono(vs_all[k as int], e0.frames.len() as int, env@.frames.len() as int);
        }
        let (res, f2) = eval_object(&items[k], frame, env, fuel_left);
        let v = match res {
            Ok(v) => v,
            Err(msg) => {
                return (Err(msg), f2);
            },
        };
        proof {
            assert(fmin(f2 as nat, fuel_left as nat) == f2 as nat);
        }
        result = v;
        fuel_left = f2;
        k = k + 1;
    }
    (Ok(result), fuel_left)
}

/// The `define` special form.
fn eval_define(items: &Vec<Object>, frame: usize, env: &mut Environment, fuel: u64) -> (r: (
    Result<Object, String>,
    u64,
))
    requires
        env_wf(old(env)@),
        frame < old(env)@.frames.len(),
        objs_wf(obj_views(items@), old(env)@.frames.len() as int),
    ensures
        r.1 <= fuel,
        eval_post(
            spec_eval_define(obj_views(items@), frame as int, old(env)@, fuel as nat),
            old(env)@,
            final(env)@,
            r.0,
            r.1,
        ),
    decreases fuel, 2int,
{
    let ghost e0 = old(env)@;
    let ghost vs = obj_views(items@);
    proof {
        obj_views_elts(items@);
    }
    if items.len() != 3 {
        return (Err(String::from_str("Invalid number of forms for define")), fuel);
    }
    match &items[1] {
        Object::Symbol(name) => {
            let (res, f2) = eval_object(&items[2], frame, env, fuel);
            let v = match res {
                Ok(v) => v,
                Err(msg) => {
                    return (Err(msg), f2);
                },
            };
            env.set(frame, name.as_str(), v);
            proof {
                assert(env@ =~= env_set(
                    spec_eval_env(spec_eval(vs[2], frame as int, e0, fuel as nat)),
                    frame as int,
                    name@,
                    spec_eval_val(spec_eval(vs[2], frame as int, e0, fuel as nat)),
                ));
            }
            (Ok(Object::Void), f2)
        },
        Object::List(sig) => {
            proof {
                obj_views_elts(sig@);
            }
            if sig.len() == 0 {
                return (Err(String::from_str("Invalid symbol for define")), fuel);
            }
            match &sig[0] {
                Object::Symbol(name) => {
                    let mut params: Vec<String> = Vec::new();
                    let mut k: usize = 1;
                    #[verifier::loop_isolation(false)]
                    while k < sig.len()
                        invariant
                            1 <= k <= sig@.len(),
                            param_names(obj_views(sig@).drop_first().take(k - 1)) matches Ok(names)
                                && names.len() == params@.len() && (forall|j: int|
                                0 <= j < params@.len() ==> names[j] == (#[trigger] params@[j])@),
                        decreases sig@.len() - k,
                    {
                        proof {
                            assert(obj_views(sig@).drop_first().take(k as int).drop_last()
                                =~= obj_views(sig@).drop_first().take(k - 1));
                            assert(obj_views(sig@).drop_first().take(k as int).last()
                                == obj_views(sig@)[k as int]);
                        }
                        match &sig[k] {
                            Object::Symbol(p) => {
                                params.push(p.clone());
                            },
                            _ => {
                                proof {
                                    param_names_err_mono(obj_views(sig@).drop_first(), k as int);
                                }
                                return (Err(String::from_str("Invalid lambda parameter")), fuel);
                            },
                        }
                        k = k + 1;
                    }
                    proof {
                        assert(obj_views(sig@).drop_first().take(sig@.len() - 1) =~= obj_views(
                            sig@,
                        ).drop_first());
                    }
                    let body = items[2].duplicate();
                    let lambda = Object::Lambda(params, Box::new(body), frame);
                    proof {
                        let lam = lambda@;
                        assert(lam->Lambda_0 =~= param_names(
                            obj_views(sig@).drop_first(),
                        )->Ok_0);
                        assert(lam =~= ObjV::Lambda(
                            param_names(obj_views(sig@).drop_first())->Ok_0,
                            Box::new(vs[2]),
                            frame as int,
                        ));
                    }
                    env.set(frame, name.as_str(), lambda);
                    (Ok(Object::Void), fuel)
                },
                _ => (Err(String::from_str("Invalid symbol for define")), fuel),
            }
        },
        _ => (Err(String::from_str("Invalid symbol for define")), fuel),
    }
}

/// What an outcome says the arena is afterwards; meaningful for `Done`.
pub open spec fn spec_eval_env(out: EvalOut) -> EnvV {
    match out {
        EvalOut::Done(_v, e, _f) => e,
        _ => arbitrary(),
    }
}

/// What an outcome says the value is; meaningful for `Done`.
pub open spec fn spec_eval_val(out: EvalOut) -> ObjV {
    match out {
        EvalOut::Done(v, _e, _f) => v,
        _ => arbitrary(),
    }
}

/// Collects a parameter list's names, or fails on a non-symbol.
fn collect_params(ps: &Vec<Object>) -> (r: Result<Vec<String>, String>)
    ensures
        match r {
            Ok(out) => param_names(obj_views(ps@)) matches Ok(names) && names.len() == out@.len()
                && (forall|j: int| 0 <= j < out@.len() ==> names[j] == (#[trigger] out@[j])@),
            Err(_) => param_names(obj_views(ps@)) is Err,
        },
{
    proof {
        obj_views_elts(ps@);
    }
    let mut params: Vec<String> = Vec::new();
    let mut k: usize = 0;
    #[verifier::loop_isolation(false)]
    while k < ps.len()
        invariant
            k <= ps@.len(),
            param_names(obj_views(ps@).take(k as int)) matches Ok(names) && names.len()
                == params@.len() && (forall|j: int|
                0 <= j < params@.len() ==> names[j] == (#[trigger] params@[j])@),
        decreases ps@.len() - k,
    {
        proof {
            assert(obj_views(ps@).take(k + 1).drop_last() =~= obj_views(ps@).take(k as int));
            assert(obj_views(ps@).take(k + 1).last() == obj_views(ps@)[k as int]);
        }
        match &ps[k] {
            Object::Symbol(p) => {
                params.push(p.clone());
            },
            _ => {
                proof {
                    param_names_err_mono(obj_views(ps@), k + 1);
                }
                return Err(String::from_str("Invalid lambda parameter"));
            },
        }
        k = k + 1;
    }
    proof {
        assert(obj_views(ps@).take(ps@.len() as int) =~= obj_views(ps@));
    }
    Ok(params)
}

/// The `defun` special form.
fn eval_defun(items: &Vec<Object>, frame: usize, env: &mut Environment, fuel: u64) -> (r: (
    Result<Object, String>,
    u64,
))
    requires
        env_wf(old(env)@),
        frame < old(env)@.frames.len(),
        objs_wf(obj_views(items@), old(env)@.frames.len() as int),
    ensures
        r.1 <= fuel,
        eval_post(
            spec_eval_defun(obj_views(items@), frame as int, old(env)@, fuel as nat),
            old(env)@,
            final(env)@,
            r.0,
            r.1,
        ),
    decreases fuel, 2int,
{
    let ghost vs = obj_views(items@);
    proof {
        obj_views_elts(items@);
    }
    if items.len() != 4 {
        return (Err(String::from_str("Invalid number of forms for defun")), fuel);
    }
    let name = match &items[1] {
        Object::Symbol(s) => s,
        _ => {
            return (Err(String::from_str("Invalid symbol for defun")), fuel);
        },
    };
    let ps = match &items[2] {
        Object::List(l) => l,
        _ => {
            return (Err(String::from_str("Expected list of parameters")), fuel);
        },
    };
    let params = match collect_params(ps) {
        Ok(p) => p,
        Err(msg) => {
            return (Err(msg), fuel);
        },
    };
    let body = items[3].duplicate();
    let lambda = Object::Lambda(params, Box::new(body), frame);
    proof {
        assert(lambda@->Lambda_0 =~= param_names(obj_views(ps@))->Ok_0);
        assert(lambda@ =~= ObjV::Lambda(
            param_names(obj_views(ps@))->Ok_0,
            Box::new(vs[3]),
            frame as int,
        ));
    }
    env.set(frame, name.as_str(), lambda);
    (Ok(Object::Void), fuel)
}

/// The `lambda` special form.
fn eval_function_definition(items: &Vec<Object>, frame: usize, env: &mut Environment, fuel: u64) -> (r: (
    Result<Object, String>,
    u64,
))
    requires
        env_wf(old(env)@),
        frame < old(env)@.frames.len(),
        objs_wf(obj_views(items@), old(env)@.frames.len() as int),
    ensures
        r.1 <= fuel,
        eval_post(
            spec_eval_lambda(obj_views(items@), frame as int, old(env)@, fuel as nat),
            old(env)@,
            final(env)@,
            r.0,
            r.1,
        ),
    decreases fuel, 2int,
{
    let ghost vs = obj_views(items@);
    proof {
        obj_views_elts(items@);
    }
    if items.len() != 3 {
        return (Err(String::from_str("Invalid number of forms for lambda")), fuel);
    }
    let ps = match &items[1] {
        Object::List(l) => l,
        _ => {
            return (Err(String::from_str("Expected list of parameters")), fuel);
        },
    };
    let params = match collect_params(ps) {
        Ok(p) => p,
        Err(msg) => {
            return (Err(msg), fuel);
        },
    };
    let body = items[2].duplicate();
    let lambda = Object::Lambda(params, Box::new(body), frame);
    proof {
        assert(lambda@->Lambda_0 =~= param_names(obj_views(ps@))->Ok_0);
        assert(lambda@ =~= ObjV::Lambda(
            param_names(obj_views(ps@))->Ok_0,
            Box::new(vs[2]),
            frame as int,
        ));
    }
    (Ok(lambda), fuel)
}

/// A left fold whose step preserves well-formedness yields a well-formed
/// value.
proof fn fold_from_wf(
    step: spec_fn(ObjV, ObjV) -> Result<ObjV, ()>,
    acc: ObjV,
    rest: Seq<ObjV>,
    n: int,
)
    requires
        obj_wf(acc, n),
        objs_wf(rest, n),
        forall|a: ObjV, x: ObjV|
            (obj_wf(a, n) && obj_wf(x, n) && (#[trigger] step(a, x)) is Ok) ==> obj_wf(
                step(a, x)->Ok_0,
                n,
            ),
    ensures
        crate::operators::fold_from(step, acc, rest) is Ok ==> obj_wf(
            crate::operators::fold_from(step, acc, rest)->Ok_0,
            n,
        ),
    decreases rest.len(),
{
    if rest.len() > 0 {
        match step(acc, rest[0]) {
            Ok(a) => {
                assert(objs_wf(rest.drop_first(), n)) by {
                    assert(forall|j: int|
                        0 <= j < rest.drop_first().len() ==> #[trigger] rest.drop_first()[j]
                            == rest[j + 1]);
                }
                fold_from_wf(step, a, rest.drop_first(), n);
            },
            Err(_) => {},
        }
    }
}

/// `and` yields one of its arguments or a boolean, so a well-formed value.
proof fn and_run_wf(acc: ObjV, rest: Seq<ObjV>, n: int)
    requires
        obj_wf(acc, n),
        objs_wf(rest, n),
    ensures
        obj_wf(and_run(acc, rest), n),
    decreases rest.len(),
{
    if rest.len() > 0 {
        assert(objs_wf(rest.drop_first(), n)) by {
            assert(forall|j: int|
                0 <= j < rest.drop_first().len() ==> #[trigger] rest.drop_first()[j] == rest[j
                    + 1]);
        }
        match rest[0] {
            ObjV::Bool(b) => {
                if b {
                    and_run_wf(ObjV::Bool(true), rest.drop_first(), n);
                }
            },
            ObjV::Void => {},
            v => {
                and_run_wf(v, rest.drop_first(), n);
            },
        }
    }
}

/// `or` yields one of its arguments or a boolean, so a well-formed value.
proof fn or_run_wf(acc: ObjV, rest: Seq<ObjV>, n: int)
    requires
        obj_wf(acc, n),
        objs_wf(rest, n),
    ensures
        obj_wf(or_run(acc, rest), n),
    decreases rest.len(),
{
    if rest.len() > 0 {
        assert(objs_wf(rest.drop_first(), n)) by {
            assert(forall|j: int|
                0 <= j < rest.drop_first().len() ==> #[trigger] rest.drop_first()[j] == rest[j
                    + 1]);
        }
        match rest[0] {
            ObjV::Bool(b) => {
                if !b {
                    or_run_wf(ObjV::Bool(false), rest.drop_first(), n);
                }
            },
            ObjV::Void => {
                or_run_wf(ObjV::Void, rest.drop_first(), n);
            },
            _ => {},
        }
    }
}

/// An operator's value is well formed when its arguments are.
proof fn apply_operator_wf(op: Seq<char>, args: Seq<ObjV>, n: int)
    requires
        objs_wf(args, n),
    ensures
        apply_operator(op, args) is Ok ==> obj_wf(apply_operator(op, args)->Ok_0, n),
{
    if args.len() > 0 {
        assert(objs_wf(args.drop_first(), n)) by {
            assert(forall|j: int|
                0 <= j < args.drop_first().len() ==> #[trigger] args.drop_first()[j] == args[j
                    + 1]);
        }
        fold_from_wf(|a: ObjV, x: ObjV| crate::operators::sum_step(a, x), args[0], args.drop_first(), n);
        fold_from_wf(|a: ObjV, x: ObjV| crate::operators::sub_step(a, x), args[0], args.drop_first(), n);
        fold_from_wf(|a: ObjV, x: ObjV| crate::operators::mult_step(a, x), args[0], args.drop_first(), n);
        fold_from_wf(|a: ObjV, x: ObjV| crate::operators::div_step(a, x), args[0], args.drop_first(), n);
        fold_from_wf(|a: ObjV, x: ObjV| crate::operators::mod_step(a, x), args[0], args.drop_first(), n);
    }
    and_run_wf(ObjV::Void, args, n);
    or_run_wf(ObjV::Void, args, n);
}

/// An operator-headed form.
fn eval_operator(items: &Vec<Object>, frame: usize, env: &mut Environment, fuel: u64) -> (r: (
    Result<Object, String>,
    u64,
))
    requires
        env_wf(old(env)@),
        frame < old(env)@.frames.len(),
        objs_wf(obj_views(items@), old(env)@.frames.len() as int),
    ensures
        r.1 <= fuel,
        eval_post(
            spec_eval_operator(obj_views(items@), frame as int, old(env)@, fuel as nat),
            old(env)@,
            final(env)@,
            r.0,
            r.1,
        ),
    decreases fuel, 2int,
{
    let ghost vs = obj_views(items@);
    proof {
        obj_views_elts(items@);
    }
    if items.len() < 2 {
        return (Err(String::from_str("Invalid number of arguments for operator")), fuel);
    }
    let op = match &items[0] {
        Object::Operator(s) => s,
        _ => {
            return (Err(String::from_str("Operator must be a symbol")), fuel);
        },
    };
    let (res, f2) = eval_elems(items, 1, frame, env, fuel);
    let args = match res {
        Ok(v) => v,
        Err(msg) => {
            return (Err(msg), f2);
        },
    };
    let ghost avs = obj_views(args@);
    proof {
        assert(vs.skip(1) =~= vs.drop_first());
        apply_operator_wf(op@, avs, final(env)@.frames.len() as int);
    }
    let applied: Result<Object, String> = if *op == String::from_str("+") {
        operators::sum(&args)
    } else if *op == String::from_str("-") {
        operators::sub(&args)
    } else if *op == String::from_str("*") {
        operators::mult(&args)
    } else if *op == String::from_str("/") {
        operators::div(&args)
    } else if *op == String::from_str("%") {
        operators::mod_(&args)
    } else if *op == String::from_str("<") {
        operators::lt(&args)
    } else if *op == String::from_str(">") {
        operators::gt(&args)
    } else if *op == String::from_str("=") {
        operators::eq(&args)
    } else if *op == String::from_str("==") {
        operators::strict_eq(&args)
    } else if *op == String::from_str("and") {
        operators::and(&args)
    } else if *op == String::from_str("or") {
        operators::or(&args)
    } else {
        Err(String::from_str("Invalid infix operator"))
    };
    match applied {
        Ok(v) => (Ok(v), f2),
        Err(msg) => (Err(msg), f2),
    }
}

/// The `let` special form.
#[verifier::loop_isolation(false)]
fn eval_let(items: &Vec<Object>, frame: usize, env: &mut Environment, fuel: u64) -> (r: (
    Result<Object, String>,
    u64,
))
    requires
        env_wf(old(env)@),
        frame < old(env)@.frames.len(),
        objs_wf(obj_views(items@), old(env)@.frames.len() as int),
    ensures
        r.1 <= fuel,
        eval_post(
            spec_eval_let(obj_views(items@), frame as int, old(env)@, fuel as nat),
            old(env)@,
            final(env)@,
            r.0,
            r.1,
        ),
    decreases fuel, 2int,
{
    let ghost e0 = old(env)@;
    let ghost vs = obj_views(items@);
    proof {
        obj_views_elts(items@);
    }
    if items.len() < 3 {
        return (Err(String::from_str("Invalid number of forms for let")), fuel);
    }
    let bindings = match &items[1] {
        Object::List(l) => l,
        _ => {
            return (Err(String::from_str("Invalid bindings for let")), fuel);
        },
    };
    let ghost bvs = obj_views(bindings@);
    proof {
        obj_views_elts(bindings@);
        assert(obj_wf(vs[1], e0.frames.len() as int));
    }
    let bind_idx = env.extend(frame);
    let ghost e1 = env@;
    proof {
        assert(bvs.skip(0) =~= bvs);
    }
    let mut k: usize = 0;
    let mut fuel_left: u64 = fuel;
    while k < bindings.len()
        invariant
            k <= bindings@.len(),
            fuel_left <= fuel,
            env_wf(env@),
            bind_idx < env@.frames.len(),
            frame < env@.frames.len(),
            env@.natives == e0.natives,
            env@.frames.len() >= e1.frames.len(),
            e1.frames.len() == e0.frames.len() + 1,
            env_evolves(e0, env@),
            spec_eval_bindings(bvs, bind_idx as int, e1, fuel as nat) == spec_eval_bindings(
                bvs.skip(k as int),
                bind_idx as int,
                env@,
                fuel_left as nat,
            ),
        decreases bindings@.len() - k,
    {
        proof {
            assert(bvs.skip(k as int)[0] == bvs[k as int]);
            assert(bvs.skip(k as int).drop_first() =~= bvs.skip(k + 1));
            assert(obj_wf(bvs[k as int], e0.frames.len() as int));
            obj_wf_mono(bvs[k as int], e0.frames.len() as int, env@.frames.len() as int);
        }
        let pair = match &bindings[k] {
            Object::List(p) => p,
            _ => {
                return (Err(String::from_str("Invalid binding for let")), fuel_left);
            },
        };
        proof {
            obj_views_elts(pair@);
        }
        if pair.len() != 2 {
            return (Err(String::from_str("Invalid binding for let")), fuel_left);
        }
        let name = match &pair[0] {
            Object::Symbol(s) => s,
            _ => {
                return (Err(String::from_str("Invalid symbol for let")), fuel_left);
            },
        };
        let (res, f2) = eval_object(&pair[1], bind_idx, env, fuel_left);
        let v = match res {
            Ok(v) => v,
            Err(msg) => {
                return (Err(msg), f2);
            },
        };
        proof {
            assert(fmin(f2 as nat, fuel_left as nat) == f2 as nat);
        }
        env.set(bind_idx, name.as_str(), v);
        fuel_left = f2;
        k = k + 1;
    }
    proof {
        assert(bvs.skip(bindings@.len() as int) =~= Seq::<ObjV>::empty());
    }
    let body_idx = env.extend(frame);
    env.update(body_idx, bind_idx);
    proof {
        assert(env@ =~= env_update(
            env_extend(spec_step_env(spec_eval_bindings(bvs, bind_idx as int, e1, fuel as nat)), frame as int),
            body_idx as int,
            bind_idx as int,
        ));
        assert(objs_wf(vs, env@.frames.len() as int)) by {
            assert forall|j: int| 0 <= j < vs.len() implies obj_wf(#[trigger] vs[j], env@.frames.len() as int) by {
                obj_wf_mono(vs[j], e0.frames.len() as int, env@.frames.len() as int);
            }
        }
    }
    eval_body(items, 2, body_idx, env, fuel_left)
}

/// What a trampoline decision says the arena is; meaningful for `Go`.
pub open spec fn spec_step_env(out: StepOut) -> EnvV {
    match out {
        StepOut::Go(_v, _i, e, _f) => e,
        _ => arbitrary(),
    }
}

/// The `do` special form.
fn eval_do(items: &Vec<Object>, frame: usize, env: &mut Environment, fuel: u64) -> (r: (
    Result<Object, String>,
    u64,
))
    requires
        env_wf(old(env)@),
        frame < old(env)@.frames.len(),
        objs_wf(obj_views(items@), old(env)@.frames.len() as int),
        items@.len() >= 1,
    ensures
        r.1 <= fuel,
        eval_post(
            spec_eval_do(obj_views(items@), frame as int, old(env)@, fuel as nat),
            old(env)@,
            final(env)@,
            r.0,
            r.1,
        ),
    decreases fuel, 2int,
{
    let ghost vs = obj_views(items@);
    proof {
        obj_views_elts(items@);
    }
    let idx = env.extend(frame);
    proof {
        assert(vs.skip(1) =~= vs.drop_first());
        assert(objs_wf(vs, env@.frames.len() as int)) by {
            assert forall|j: int| 0 <= j < vs.len() implies obj_wf(#[trigger] vs[j], env@.frames.len() as int) by {
                obj_wf_mono(vs[j], old(env)@.frames.len() as int, env@.frames.len() as int);
            }
        }
    }
    eval_body(items, 1, idx, env, fuel)
}

/// Scans `cond`'s pairs and returns the body of the first truthy condition.
#[verifier::loop_isolation(false)]
fn eval_cond(items: &Vec<Object>, frame: usize, env: &mut Environment, fuel: u64) -> (r: (
    Result<Object, String>,
    u64,
))
    requires
        env_wf(old(env)@),
        frame < old(env)@.frames.len(),
        objs_wf(obj_views(items@), old(env)@.frames.len() as int),
        items@.len() >= 1,
    ensures
        r.1 <= fuel,
        final(env)@.natives == old(env)@.natives,
        final(env)@.frames.len() >= old(env)@.frames.len(),
        env_evolves(old(env)@, final(env)@),
        env_wf(final(env)@),
        match spec_cond_pairs(
            obj_views(items@).drop_first(),
            frame as int,
            old(env)@,
            fuel as nat,
        ) {
            StepOut::Go(body, _i2, e2, f2) => match r.0 {
                Ok(b) => b@ == body && final(env)@ == e2 && r.1 as nat == f2 && obj_wf(
                    body,
                    final(env)@.frames.len() as int,
                ),
                Err(_) => false,
            },
            _ => r.0 is Err,
        },
    decreases fuel, 2int,
{
    let ghost e0 = old(env)@;
    let ghost vs = obj_views(items@);
    proof {
        obj_views_elts(items@);
        assert(vs.skip(1) =~= vs.drop_first());
    }
    let mut k: usize = 1;
    let mut fuel_left: u64 = fuel;
    while k < items.len()
        invariant
            1 <= k <= vs.len(),
            fuel_left <= fuel,
            env_wf(env@),
            frame < env@.frames.len(),
            env@.natives == e0.natives,
            env@.frames.len() >= e0.frames.len(),
            env_evolves(e0, env@),
            spec_cond_pairs(vs.drop_first(), frame as int, e0, fuel as nat) == spec_cond_pairs(
                vs.skip(k as int),
                frame as int,
                env@,
                fuel_left as nat,
            ),
        decreases vs.len() - k,
    {
        proof {
            assert(vs.skip(k as int)[0] == vs[k as int]);
            if k + 1 < vs.len() {
                assert(vs.skip(k as int)[1] == vs[k + 1]);
            }
            if k + 2 <= vs.len() {
                assert(vs.skip(k as int).skip(2) =~= vs.skip(k + 2));
            }
            assert(vs.skip(k as int).skip(1) =~= vs.skip(k + 1));
            obj_wf_mono(vs[k as int], e0.frames.len() as int, env@.frames.len() as int);
        }
        let (res, f2) = eval_object(&items[k], frame, env, fuel_left);
        let cv = match res {
            Ok(v) => v,
            Err(msg) => {
                return (Err(msg), f2);
            },
        };
        proof {
            assert(fmin(f2 as nat, fuel_left as nat) == f2 as nat);
        }
        let truth = match &cv {
            Object::Bool(b) => *b,
            Object::Void => false,
            _ => true,
        };
        if truth {
            if k + 1 < items.len() {
                let body = items[k + 1].duplicate();
                proof {
                    obj_wf_mono(vs[k + 1], e0.frames.len() as int, env@.frames.len() as int);
                }
                return (Ok(body), f2);
            } else {
                return (Ok(Object::Void), f2);
            }
        }
        fuel_left = f2;
        if k + 1 < items.len() {
            k = k + 2;
        } else {
            k = k + 1;
        }
    }
    proof {
        assert(vs.skip(vs.len() as int) =~= Seq::<ObjV>::empty());
    }
    (Ok(Object::Void), fuel_left)
}

/// Calls a closure: a fresh frame over its captured scope, the parameters
/// bound to the arguments evaluated in the caller's scope (the argument
/// count must match the parameter count exactly), and the body handed back
/// to the trampoline with that frame.
#[verifier::loop_isolation(false)]
fn eval_function_call(
    params: &Vec<String>,
    body: &Object,
    captured: usize,
    items: &Vec<Object>,
    frame: usize,
    env: &mut Environment,
    fuel: u64,
) -> (r: (Result<(Object, usize), String>, u64))
    requires
        env_wf(old(env)@),
        frame < old(env)@.frames.len(),
        captured < old(env)@.frames.len(),
        obj_wf(body@, old(env)@.frames.len() as int),
        objs_wf(obj_views(items@), old(env)@.frames.len() as int),
    ensures
        r.1 <= fuel,
        final(env)@.natives == old(env)@.natives,
        final(env)@.frames.len() >= old(env)@.frames.len(),
        env_evolves(old(env)@, final(env)@),
        env_wf(final(env)@),
        match spec_call(
            crate::runtime::string::str_views(params@),
            body@,
            captured as int,
            obj_views(items@),
            frame as int,
            old(env)@,
            fuel as nat,
        ) {
            StepOut::Go(b, i2, e2, f2) => match r.0 {
                Ok((bb, idx)) => bb@ == b && idx as int == i2 && final(env)@ == e2 && r.1 as nat
                    == f2 && idx < final(env)@.frames.len() && obj_wf(
                    b,
                    final(env)@.frames.len() as int,
                ),
                Err(_) => false,
            },
            _ => r.0 is Err,
        },
    decreases fuel, 2int,
{
    let ghost e0 = old(env)@;
    let ghost vs = obj_views(items@);
    let ghost names = crate::runtime::string::str_views(params@);
    proof {
        obj_views_elts(items@);
    }
    let new_idx = env.extend(captured);
    let ghost e1 = env@;
    let mut k: usize = 0;
    let mut fuel_left: u64 = fuel;
    while k < params.len()
        invariant
            k <= names.len(),
            names.len() == params@.len(),
            fuel_left <= fuel,
            env_wf(env@),
            new_idx < env@.frames.len(),
            frame < env@.frames.len(),
            env@.natives == e0.natives,
            env@.frames.len() >= e1.frames.len(),
            e1.frames.len() == e0.frames.len() + 1,
            env_evolves(e0, env@),
            spec_bind_params(names, 0, vs, new_idx as int, frame as int, e1, fuel as nat)
                == spec_bind_params(
                names,
                k as int,
                vs,
                new_idx as int,
                frame as int,
                env@,
                fuel_left as nat,
            ),
        decreases names.len() - k,
    {
        if k + 1 >= items.len() {
            return (Err(String::from_str("Invalid number of arguments")), fuel_left);
        }
        proof {
            assert(obj_wf(vs[k + 1], e0.frames.len() as int));
            obj_wf_mono(vs[k + 1], e0.frames.len() as int, env@.frames.len() as int);
        }
        let (res, f2) = eval_object(&items[k + 1], frame, env, fuel_left);
        let v = match res {
            Ok(v) => v,
            Err(msg) => {
                return (Err(msg), f2);
            },
        };
        proof {
            assert(fmin(f2 as nat, fuel_left as nat) == f2 as nat);
        }
        env.set(new_idx, params[k].as_str(), v);
        fuel_left = f2;
        k = k + 1;
    }
    if items.len() == 0 || params.len() != items.len() - 1 {
        return (Err(String::from_str("Invalid number of arguments")), fuel_left);
    }
    proof {
        obj_wf_mono(body@, e0.frames.len() as int, env@.frames.len() as int);
    }
    (Ok((body.duplicate(), new_idx)), fuel_left)
}

/// Dispatches a keyword-headed form.
fn eval_keyword(items: &Vec<Object>, frame: usize, env: &mut Environment, fuel: u64) -> (r: (
    Result<Object, String>,
    u64,
))
    requires
        env_wf(old(env)@),
        frame < old(env)@.frames.len(),
        objs_wf(obj_views(items@), old(env)@.frames.len() as int),
        items@.len() >= 1,
    ensures
        r.1 <= fuel,
        eval_post(
            spec_eval_keyword(obj_views(items@), frame as int, old(env)@, fuel as nat),
            old(env)@,
            final(env)@,
            r.0,
            r.1,
        ),
    decreases fuel, 3int,
{
    proof {
        obj_views_elts(items@);
    }
    let k = match &items[0] {
        Object::Keyword(s) => s,
        _ => {
            return (Err(String::from_str("Invalid keyword")), fuel);
        },
    };
    if *k == String::from_str("define") {
        eval_define(items, frame, env, fuel)
    } else if *k == String::from_str("defun") {
        eval_defun(items, frame, env, fuel)
    } else if *k == String::from_str("lambda") {
        eval_function_definition(items, frame, env, fuel)
    } else if *k == String::from_str("let") {
        eval_let(items, frame, env, fuel)
    } else if *k == String::from_str("do") {
        eval_do(items, frame, env, fuel)
    } else {
        (Err(String::from_str("Unknown keyword")), fuel)
    }
}

/// The native `eval`: its single argument must be a quoted value; one layer
/// of quoting is unwrapped, including one layer on each element of a quoted
/// list, and the result evaluates in the current scope.
fn eval_eval(args: &Vec<Object>, frame: usize, env: &mut Environment, fuel: u64) -> (r: (
    Result<Object, String>,
    u64,
))
    requires
        env_wf(old(env)@),
        frame < old(env)@.frames.len(),
        objs_wf(obj_views(args@), old(env)@.frames.len() as int),
    ensures
        r.1 <= fuel,
        eval_post(
            apply_native(NativeId::Eval, obj_views(args@), frame as int, old(env)@, fuel as nat),
            old(env)@,
            final(env)@,
            r.0,
            r.1,
        ),
    decreases fuel, 3int,
{
    let ghost vs = obj_views(args@);
    proof {
        obj_views_elts(args@);
    }
    if args.len() == 0 {
        return (Err(String::from_str("Invalid number of arguments for eval")), fuel);
    }
    let unquoted = match &args[0] {
        Object::Quote(inner) => inner.duplicate(),
        _ => {
            return (Err(String::from_str("Invalid argument for eval: expected a quote")), fuel);
        },
    };
    let prepared = match unquoted {
        Object::List(list) => {
            proof {
                obj_views_elts(list@);
            }
            let ghost lvs = obj_views(list@);
            let mut out: Vec<Object> = Vec::new();
            let mut j: usize = 0;
            #[verifier::loop_isolation(false)]
            while j < list.len()
                invariant
                    j <= list@.len(),
                    out@.len() == j,
                    forall|i2: int|
                        0 <= i2 < j ==> (#[trigger] out@[i2])@ == unquote_elems(lvs)[i2],
                decreases list@.len() - j,
            {
                let e = match &list[j] {
                    Object::Quote(inner) => inner.duplicate(),
                    o => o.duplicate(),
                };
                out.push(e);
                j = j + 1;
            }
            let r = Object::List(out);
            proof {
                obj_views_elts(r->List_0@);
                assert(obj_views(r->List_0@) =~= unquote_elems(lvs));
            }
            r
        },
        o => o,
    };
    proof {
        assert(obj_wf(prepared@, old(env)@.frames.len() as int)) by {
            let n = old(env)@.frames.len() as int;
            assert(obj_wf(vs[0], n));
            match vs[0] {
                ObjV::Quote(inner) => {
                    assert(obj_wf(*inner, n));
                    match *inner {
                        ObjV::List(litems) => {
                            assert(obj_wf(ObjV::List(litems), n));
                            assert forall|i2: int|
                                0 <= i2 < unquote_elems(litems).len() implies obj_wf(
                                #[trigger] unquote_elems(litems)[i2],
                                n,
                            ) by {
                                assert(obj_wf(litems[i2], n));
                                match litems[i2] {
                                    ObjV::Quote(q) => {
                                        assert(obj_wf(*q, n));
                                    },
                                    _ => {},
                                }
                            }
                        },
                        _ => {},
                    }
                },
                _ => {},
            }
        }
    }
    eval_object(&prepared, frame, env, fuel)
}

/// A native call: resolve the registry entry, evaluate the remaining
/// elements in the caller's scope, and invoke it.
fn eval_native(s: &str, items: &Vec<Object>, frame: usize, env: &mut Environment, fuel: u64) -> (r: (
    Result<Object, String>,
    u64,
))
    requires
        env_wf(old(env)@),
        frame < old(env)@.frames.len(),
        objs_wf(obj_views(items@), old(env)@.frames.len() as int),
        items@.len() >= 1,
    ensures
        r.1 <= fuel,
        eval_post(
            spec_eval_native(s@, obj_views(items@), frame as int, old(env)@, fuel as nat),
            old(env)@,
            final(env)@,
            r.0,
            r.1,
        ),
    decreases fuel, 4int,
{
    let ghost e0 = old(env)@;
    let ghost vs = obj_views(items@);
    proof {
        obj_views_elts(items@);
    }
    let id = match env.get_runtime_fn(s) {
        Some(id) => id,
        None => {
            return (Err(String::from_str("Unknown native function")), fuel);
        },
    };
    let (res, f2) = eval_elems(items, 1, frame, env, fuel);
    let args = match res {
        Ok(v) => v,
        Err(msg) => {
            return (Err(msg), f2);
        },
    };
    let ghost avs = obj_views(args@);
    proof {
        assert(vs.skip(1) =~= vs.drop_first());
    }
    match id {
        NativeId::Debug => {
            crate::runtime::print_debug(&args);
            (Ok(Object::Void), f2)
        },
        NativeId::Eval => eval_eval(&args, frame, env, f2),
        NativeId::Car => {
            proof {
                car_cdr_cons_wf(avs, final(env)@.frames.len() as int);
            }
            match crate::runtime::list::car(&args) {
                Ok(v) => (Ok(v), f2),
                Err(msg) => (Err(msg), f2),
            }
        },
        NativeId::Cdr => {
            proof {
                car_cdr_cons_wf(avs, final(env)@.frames.len() as int);
            }
            match crate::runtime::list::cdr(&args) {
                Ok(v) => (Ok(v), f2),
                Err(msg) => (Err(msg), f2),
            }
        },
        NativeId::Cons => {
            proof {
                car_cdr_cons_wf(avs, final(env)@.frames.len() as int);
            }
            match crate::runtime::list::cons(&args) {
                Ok(v) => (Ok(v), f2),
                Err(msg) => (Err(msg), f2),
            }
        },
        NativeId::Format => {
            match crate::runtime::string::format_(&args) {
                Ok(v) => (Ok(v), f2),
                Err(msg) => (Err(msg), f2),
            }
        },
        NativeId::Split => {
            proof {
                split_wf(avs, final(env)@.frames.len() as int);
            }
            match crate::runtime::string::split(&args) {
                Ok(v) => (Ok(v), f2),
                Err(msg) => (Err(msg), f2),
            }
        },
        NativeId::Join => {
            match crate::runtime::string::join(&args) {
                Ok(v) => (Ok(v), f2),
                Err(msg) => (Err(msg), f2),
            }
        },
    }
}

/// The list primitives yield well-formed values from well-formed arguments.
proof fn car_cdr_cons_wf(args: Seq<ObjV>, n: int)
    requires
        objs_wf(args, n),
    ensures
        obj_wf(car_spec(args), n),
        obj_wf(cdr_spec(args), n),
        args.len() > 0 ==> obj_wf(cons_spec(args), n),
{
    let u = crate::runtime::list::unquote_spec(args);
    if args.len() > 0 {
        assert(obj_wf(args[0], n));
    }
    assert(obj_wf(u, n));
    match u {
        ObjV::List(litems) => {
            assert(forall|j: int| 0 <= j < litems.len() ==> obj_wf(#[trigger] litems[j], n));
            if litems.len() > 0 {
                assert(forall|j: int|
                    0 <= j < litems.drop_first().len() ==> #[trigger] litems.drop_first()[j]
                        == litems[j + 1]);
            }
        },
        _ => {},
    }
    if args.len() > 0 {
        let tail = if args.len() <= 1 {
            ObjV::Void
        } else {
            match args[1] {
                ObjV::Quote(inner) => *inner,
                _ => args[1],
            }
        };
        assert(obj_wf(tail, n)) by {
            if args.len() > 1 {
                assert(obj_wf(args[1], n));
            }
        }
        match tail {
            ObjV::List(titems) => {
                assert forall|j: int|
                    0 <= j < (seq![args[0]] + titems).len() implies obj_wf(
                    #[trigger] (seq![args[0]] + titems)[j],
                    n,
                ) by {
                    if j > 0 {
                        assert((seq![args[0]] + titems)[j] == titems[j - 1]);
                    }
                }
            },
            _ => {},
        }
    }
}

/// `split` yields a list of strings, so a well-formed value.
proof fn split_wf(args: Seq<ObjV>, n: int)
    ensures
        obj_wf(crate::runtime::string::split_spec(args), n),
{
    if args.len() > 0 {
        match args[0] {
            ObjV::Str(_s) => {
                match crate::runtime::string::split_spec(args) {
                    ObjV::List(parts) => {
                        assert(forall|j: int|
                            0 <= j < parts.len() ==> obj_wf(#[trigger] parts[j], n));
                    },
                    _ => {},
                }
            },
            _ => {},
        }
    }
}

/// Evaluates a value tree in scope `frame`: the trampoline.  One fuel unit
/// is spent per step; the result, the arena afterwards, and the remaining
/// fuel are exactly what `spec_eval` says of the inputs.
#[verifier::loop_isolation(false)]
pub fn eval_object(obj: &Object, frame: usize, env: &mut Environment, fuel: u64) -> (r: (
    Result<Object, String>,
    u64,
))
    requires
        env_wf(old(env)@),
        frame < old(env)@.frames.len(),
        obj_wf(obj@, old(env)@.frames.len() as int),
    ensures
        r.1 <= fuel,
        eval_post(
            spec_eval(obj@, frame as int, old(env)@, fuel as nat),
            old(env)@,
            final(env)@,
            r.0,
            r.1,
        ),
    decreases fuel, 0int,
{
    let ghost e0 = old(env)@;
    let mut cur = obj.duplicate();
    let mut cur_frame = frame;
    let mut fuel_left: u64 = fuel;
    loop
        invariant
            fuel_left <= fuel,
            env_wf(env@),
            cur_frame < env@.frames.len(),
            env@.natives == e0.natives,
            env@.frames.len() >= e0.frames.len(),
            env_evolves(e0, env@),
            obj_wf(cur@, env@.frames.len() as int),
            spec_eval(obj@, frame as int, e0, fuel as nat) == spec_eval(
                cur@,
                cur_frame as int,
                env@,
                fuel_left as nat,
            ),
        decreases fuel_left,
    {
        if fuel_left == 0 {
            return (Err(String::from_str("Evaluation ran out of fuel")), 0);
        }
        fuel_left = fuel_left - 1;
        let ghost fcur = fuel_left as nat;
        let ghost emid = env@;
        match cur {
            Object::List(items) => {
                proof {
                    obj_views_elts(items@);
                }
                let ghost vs = obj_views(items@);
                if items.len() == 0 {
                    return (Err(String::from_str("Cannot evaluate an empty list")), fuel_left);
                }
                match &items[0] {
                    Object::Operator(_op) => {
                        return eval_operator(&items, cur_frame, env, fuel_left);
                    },
                    Object::Keyword(_k) => {
                        return eval_keyword(&items, cur_frame, env, fuel_left);
                    },
                    Object::Cond => {
                        if items.len() % 2 != 1 {
                            return (
                                (
                                    Err(String::from_str("Cond requires an even number of forms")),
                                    fuel_left,
                                )
                            );
                        }
                        proof {
                            cond_pairs_frame(vs.drop_first(), cur_frame as int, env@, fuel_left as nat);
                        }
                        let (res, f2) = eval_cond(&items, cur_frame, env, fuel_left);
                        match res {
                            Ok(body) => {
                                proof {
                                    assert(fmin(f2 as nat, fcur) == f2 as nat);
                                }
                                cur = body;
                                fuel_left = f2;
                                proof {
                                    assert(spec_eval(obj@, frame as int, e0, fuel as nat)
                                        == spec_eval(cur@, cur_frame as int, env@, fuel_left as nat));
                                }
                            },
                            Err(msg) => {
                                return (Err(msg), f2);
                            },
                        }
                    },
                    Object::Symbol(s) => {
                        match eval_symbol(s.as_str(), cur_frame, env) {
                            Ok(resolved) => {
                                match resolved {
                                    Object::Lambda(ps, body, captured) => {
                                        proof {
                                            assert(symbol_spec(s@, cur_frame as int, env@)->Ok_0
                                                =~~= ObjV::Lambda(
                                                crate::runtime::string::str_views(ps@),
                                                Box::new(body@),
                                                captured as int,
                                            ));
                                        }
                                        let (res, f2) = eval_function_call(
                                            &ps,
                                            &body,
                                            captured,
                                            &items,
                                            cur_frame,
                                            env,
                                            fuel_left,
                                        );
                                        match res {
                                            Ok((b, idx)) => {
                                                proof {
                                                    assert(fmin(f2 as nat, fcur) == f2 as nat);
                                                }
                                                cur = b;
                                                cur_frame = idx;
                                                fuel_left = f2;
                                                proof {
                                                    assert(spec_eval(obj@, frame as int, e0, fuel as nat)
                                                        == spec_eval(cur@, cur_frame as int, env@, fuel_left as nat));
                                                }
                                            },
                                            Err(msg) => {
                                                return (Err(msg), f2);
                                            },
                                        }
                                    },
                                    Object::Native(_nm) => {
                                        let rr = eval_native(
                                            s.as_str(),
                                            &items,
                                            cur_frame,
                                            env,
                                            fuel_left,
                                        );
                                        proof {
                                            assert(eval_post(
                                                spec_eval(obj@, frame as int, e0, fuel as nat),
                                                e0,
                                                env@,
                                                rr.0,
                                                rr.1,
                                            ));
                                        }
                                        return rr;
                                    },
                                    v => {
                                        cur = v;
                                        proof {
                                            assert(spec_eval(obj@, frame as int, e0, fuel as nat)
                                                == spec_eval(cur@, cur_frame as int, env@, fuel_left as nat));
                                        }
                                    },
                                }
                            },
                            Err(msg) => {
                                return (Err(msg), fuel_left);
                            },
                        }
                    },
                    Object::Lambda(ps, body, captured) => {
                        proof {
                            assert(obj_wf(vs[0], env@.frames.len() as int));
                            assert(vs[0] =~~= ObjV::Lambda(
                                crate::runtime::string::str_views(ps@),
                                Box::new(body@),
                                *captured as int,
                            ));
                        }
                        let (res, f2) = eval_function_call(
                            ps,
                            body,
                            *captured,
                            &items,
                            cur_frame,
                            env,
                            fuel_left,
                        );
                        match res {
                            Ok((b, idx)) => {
                                proof {
                                    assert(fmin(f2 as nat, fcur) == f2 as nat);
                                }
                                cur = b;
                                cur_frame = idx;
                                fuel_left = f2;
                                proof {
                                    assert(spec_eval(obj@, frame as int, e0, fuel as nat)
                                        == spec_eval(cur@, cur_frame as int, env@, fuel_left as nat));
                                }
                            },
                            Err(msg) => {
                                proof {
                                    assert(!(spec_call(
                                        crate::runtime::string::str_views(ps@),
                                        body@,
                                        *captured as int,
                                        vs,
                                        cur_frame as int,
                                        emid,
                                        fcur,
                                    ) is Go));
                                    assert(!(spec_eval(obj@, frame as int, e0, fuel as nat)
                                        is Done));
                                }
                                return (Err(msg), f2);
                            },
                        }
                    },
                    _ => {
                        proof {
                            assert(vs.skip(0) =~= vs);
                        }
                        let (res, f2) = eval_elems(&items, 0, cur_frame, env, fuel_left);
                        let evaluated = match res {
                            Ok(v) => v,
                            Err(msg) => {
                                return (Err(msg), f2);
                            },
                        };
                        proof {
                            obj_views_elts(evaluated@);
                        }
                        let ghost evs = obj_views(evaluated@);
                        let mut kept: Vec<Object> = Vec::new();
                        let mut j: usize = 0;
                        while j < evaluated.len()
                            invariant
                                j <= evs.len(),
                                obj_views(kept@) == drop_voids(evs.take(j as int)),
                            decreases evs.len() - j,
                        {
                            proof {
                                assert(evs.take(j + 1).drop_last() =~= evs.take(j as int));
                                assert(evs.take(j + 1).last() == evs[j as int]);
                            }
                            match &evaluated[j] {
                                Object::Void => {},
                                _ => {
                                    let ghost before = obj_views(kept@);
                                    let v = evaluated[j].duplicate();
                                    proof {
                                        assert((kept@.push(v)).drop_last() =~= kept@);
                                        assert((kept@.push(v)).last() == v);
                                    }
                                    kept.push(v);
                                    proof {
                                        assert(obj_views(kept@) =~= before.push(evs[j as int]));
                                    }
                                },
                            }
                            j = j + 1;
                        }
                        proof {
                            assert(evs.take(evs.len() as int) =~= evs);
                            obj_views_elts(kept@);
                            assert(fmin(f2 as nat, fcur) == f2 as nat);
                        }
                        if kept.len() == 0 {
                            return (Ok(Object::Void), f2);
                        }
                        let ghost kv = obj_views(kept@);
                        proof {
                            assert(kv == drop_voids(evs));
                            drop_voids_wf(evs, env@.frames.len() as int);
                        }
                        match &kept[0] {
                            Object::Bool(_) | Object::Integer(_) | Object::Float(_)
                                | Object::String(_) => {
                                return (
                                    (Err(String::from_str("Invalid head of list to call")), f2)
                                );
                            },
                            Object::Lambda(ps2, body2, cap2) => {
                                proof {
                                    assert(obj_wf(kv[0], env@.frames.len() as int));
                                    assert(kv[0] =~~= ObjV::Lambda(
                                        crate::runtime::string::str_views(ps2@),
                                        Box::new(body2@),
                                        *cap2 as int,
                                    ));
                                }
                                if ps2.len() != kept.len() - 1 {
                                    return (
                                        (Err(String::from_str("Invalid number of arguments")), f2)
                                    );
                                }
                                let ghost names = crate::runtime::string::str_views(ps2@);
                                let ghost vals = kv.drop_first();
                                let ghost pre_len = env@.frames.len() as int;
                                let new_idx = env.extend(*cap2);
                                let ghost e_base = env@;
                                let mut k: usize = 0;
                                while k < ps2.len()
                                    invariant
                                        k <= names.len(),
                                        names.len() == ps2@.len(),
                                        vals.len() == names.len(),
                                        env_wf(env@),
                                        new_idx < env@.frames.len(),
                                        env@.frames.len() == e_base.frames.len(),
                                        e_base.frames.len() == pre_len + 1,
                                        env@.natives == e_base.natives,
                                        env_evolves(e_base, env@),
                                        env@ == env_bind_all(
                                            e_base,
                                            new_idx as int,
                                            names.take(k as int),
                                            vals.take(k as int),
                                        ),
                                    decreases names.len() - k,
                                {
                                    proof {
                                        assert(names.take(k + 1).drop_last() =~= names.take(
                                            k as int,
                                        ));
                                        assert(vals.take(k + 1).drop_last() =~= vals.take(
                                            k as int,
                                        ));
                                        assert(names.take(k + 1).last() == names[k as int]);
                                        assert(vals.take(k + 1).last() == vals[k as int]);
                                        assert(vals[k as int] == kv[k + 1]);
                                        assert(obj_wf(kv[k + 1], pre_len));
                                        obj_wf_mono(kv[k + 1], pre_len, env@.frames.len() as int);
                                    }
                                    let v = kept[k + 1].duplicate();
                                    env.set(new_idx, ps2[k].as_str(), v);
                                    k = k + 1;
                                }
                                proof {
                                    assert(names.take(names.len() as int) =~= names);
                                    assert(vals.take(vals.len() as int) =~= vals);
                                }
                                let b = body2.duplicate();
                                proof {
                                    obj_wf_mono(b@, pre_len, env@.frames.len() as int);
                                }
                                cur = b;
                                cur_frame = new_idx;
                                fuel_left = f2;
                                proof {
                                    assert(spec_eval(obj@, frame as int, e0, fuel as nat)
                                        == spec_eval(cur@, cur_frame as int, env@, fuel_left as nat));
                                }
                            },
                            _ => {
                                let data = Object::List(kept);
                                proof {
                                    assert(obj_wf(data@, env@.frames.len() as int));
                                }
                                return (Ok(data), f2);
                            },
                        }
                    },
                }
            },
            Object::Symbol(s) => {
                return match eval_symbol(s.as_str(), cur_frame, env) {
                    Ok(v) => (Ok(v), fuel_left),
                    Err(msg) => (Err(msg), fuel_left),
                };
            },
            Object::Lambda(_ps, _body, _captured) => {
                return (Ok(Object::Void), fuel_left);
            },
            v => {
                return (Ok(v), fuel_left);
            },
        }
    }
}

/// Dropping the `Void` results keeps only well-formed values.
proof fn drop_voids_wf(s: Seq<ObjV>, n: int)
    requires
        objs_wf(s, n),
    ensures
        objs_wf(drop_voids(s), n),
    decreases s.len(),
{
    if s.len() > 0 {
        assert(objs_wf(s.drop_last(), n)) by {
            assert(forall|j: int|
                0 <= j < s.drop_last().len() ==> #[trigger] s.drop_last()[j] == s[j]);
        }
        drop_voids_wf(s.drop_last(), n);
        if !(s.last() is Void) {
            assert(forall|j: int|
                0 <= j < drop_voids(s).len() - 1 ==> #[trigger] drop_voids(s)[j] == drop_voids(
                    s.drop_last(),
                )[j]);
            assert(drop_voids(s).last() == s.last());
        }
    }
}

/// What a whole program evaluates to in scope `i`: a parse failure is an
/// error, else the parsed form's evaluation.
pub open spec fn eval_text_spec(s: Seq<char>, i: int, e: EnvV, fuel: nat) -> EvalOut {
    match spec_parse(s) {
        Ok(o) => spec_eval(o, i, e, fuel),
        Err(_) => EvalOut::Fail,
    }
}

/// Parses and evaluates a whole program against the caller's environment,
/// which persists across calls: frames are only added and bindings only
/// inserted, so what earlier successful forms bound survives a later
/// failure, and a parse failure changes nothing at all.
pub fn eval(program: &str, frame: usize, env: &mut Environment, fuel: u64) -> (r: (
    Result<Object, String>,
    u64,
))
    requires
        env_wf(old(env)@),
        frame < old(env)@.frames.len(),
    ensures
        r.1 <= fuel,
        spec_parse(program@) is Err ==> final(env)@ == old(env)@,
        eval_post(
            eval_text_spec(program@, frame as int, old(env)@, fuel as nat),
            old(env)@,
            final(env)@,
            r.0,
            r.1,
        ),
    decreases fuel, 5int,
{
    let parsed = match parse(program) {
        Ok(o) => o,
        Err(e) => {
            return (Err(e.text()), fuel);
        },
    };
    proof {
        crate::parser::spec_parse_no_closure(program@);
        crate::parser::no_closure_wf(parsed@, old(env)@.frames.len() as int);
    }
    eval_object(&parsed, frame, env, fuel)
}



} // verus!
