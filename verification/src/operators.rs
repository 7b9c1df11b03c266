//! The builtin operators: variadic left folds over the evaluated arguments,
//! the first argument seeding the fold.
//!
//! Arithmetic is 64-bit integer arithmetic (wrapping on overflow) unless a
//! double operand promotes the fold to double arithmetic; `+` also
//! concatenates strings.  Division and remainder by zero, and the one
//! overflowing division, are errors rather than faults.  `<` and `>` are
//! strictly monotonic chained comparisons, stopping at the first failing
//! adjacent pair; `=` is the loose chained equality with its cross-type
//! coercions; `==` is strict same-type equality; `and` and `or` short
//! circuit over the special values.

use vstd::prelude::*;

use crate::double::{
    double_add, double_div, double_eq, double_gt, double_lt, double_mul, double_of_i64, double_rem,
    double_sub, double_to_i64, fadd, fdiv, feq, fgt, flt, fmul, frem, fsub, i64_to_double,
    double_trunc_i64, SIGN_BIT,
};
use crate::object::{obj_views, obj_views_elts, Object, ObjV};
use vstd::wrapping::i64_specs;

verus! {

/// One `+` step: integer addition, promoted to double addition by a double
/// operand, or string concatenation.
pub open spec fn sum_step(acc: ObjV, x: ObjV) -> Result<ObjV, ()> {
    match acc {
        ObjV::Integer(n) => match x {
            ObjV::Integer(m) => Ok(ObjV::Integer(i64_specs::wrapping_add(m, n))),
            ObjV::Float(m) => Ok(ObjV::Float(double_add(m, double_of_i64(n)))),
            _ => Err(()),
        },
        ObjV::Float(n) => match x {
            ObjV::Integer(m) => Ok(ObjV::Float(double_add(double_of_i64(m), n))),
            ObjV::Float(m) => Ok(ObjV::Float(double_add(m, n))),
            _ => Err(()),
        },
        ObjV::Str(s) => match x {
            ObjV::Str(t) => Ok(ObjV::Str(s + t)),
            _ => Err(()),
        },
        _ => Err(()),
    }
}

/// Folds a step over the remaining arguments from the left.
pub open spec fn fold_from(
    step: spec_fn(ObjV, ObjV) -> Result<ObjV, ()>,
    acc: ObjV,
    rest: Seq<ObjV>,
) -> Result<ObjV, ()>
    decreases rest,
{
    if rest.len() == 0 {
        Ok(acc)
    } else {
        match step(acc, rest[0]) {
            Ok(a) => fold_from(step, a, rest.drop_first()),
            Err(e) => Err(e),
        }
    }
}

/// What `+` returns: the left fold of `sum_step` seeded with the first
/// argument.
pub open spec fn sum_spec(args: Seq<ObjV>) -> Result<ObjV, ()> {
    if args.len() == 0 {
        Err(())
    } else {
        fold_from(|a: ObjV, x: ObjV| sum_step(a, x), args[0], args.drop_first())
    }
}

/// One `-` step.
pub open spec fn sub_step(acc: ObjV, x: ObjV) -> Result<ObjV, ()> {
    match acc {
        ObjV::Integer(n) => match x {
            ObjV::Integer(m) => Ok(ObjV::Integer(i64_specs::wrapping_sub(n, m))),
            ObjV::Float(m) => Ok(ObjV::Float(double_sub(double_of_i64(n), m))),
            _ => Err(()),
        },
        ObjV::Float(n) => match x {
            ObjV::Integer(m) => Ok(ObjV::Float(double_sub(n, double_of_i64(m)))),
            ObjV::Float(m) => Ok(ObjV::Float(double_sub(n, m))),
            _ => Err(()),
        },
        _ => Err(()),
    }
}

/// What `-` returns: unary negation for a single argument, else the left
/// fold of `sub_step`.
pub open spec fn sub_spec(args: Seq<ObjV>) -> Result<ObjV, ()> {
    if args.len() == 0 {
        Err(())
    } else if args.len() == 1 {
        match args[0] {
            ObjV::Integer(n) => Ok(ObjV::Integer(i64_specs::wrapping_sub(0, n))),
            ObjV::Float(n) => Ok(ObjV::Float(n ^ SIGN_BIT)),
            _ => Err(()),
        }
    } else {
        fold_from(|a: ObjV, x: ObjV| sub_step(a, x), args[0], args.drop_first())
    }
}

/// One `*` step.
pub open spec fn mult_step(acc: ObjV, x: ObjV) -> Result<ObjV, ()> {
    match acc {
        ObjV::Integer(n) => match x {
            ObjV::Integer(m) => Ok(ObjV::Integer(i64_specs::wrapping_mul(m, n))),
            ObjV::Float(m) => Ok(ObjV::Float(double_mul(m, double_of_i64(n)))),
            _ => Err(()),
        },
        ObjV::Float(n) => match x {
            ObjV::Integer(m) => Ok(ObjV::Float(double_mul(double_of_i64(m), n))),
            ObjV::Float(m) => Ok(ObjV::Float(double_mul(m, n))),
            _ => Err(()),
        },
        _ => Err(()),
    }
}

/// What `*` returns.
pub open spec fn mult_spec(args: Seq<ObjV>) -> Result<ObjV, ()> {
    if args.len() == 0 {
        Err(())
    } else {
        fold_from(|a: ObjV, x: ObjV| mult_step(a, x), args[0], args.drop_first())
    }
}

/// One `/` step: integer division truncates; dividing by zero, or the one
/// division that overflows, is an error; a double operand promotes.
pub open spec fn div_step(acc: ObjV, x: ObjV) -> Result<ObjV, ()> {
    match acc {
        ObjV::Integer(n) => match x {
            ObjV::Integer(m) => match n.checked_div(m) {
                Some(q) => Ok(ObjV::Integer(q)),
                None => Err(()),
            },
            ObjV::Float(m) => Ok(ObjV::Float(double_div(double_of_i64(n), m))),
            _ => Err(()),
        },
        ObjV::Float(n) => match x {
            ObjV::Integer(m) => Ok(ObjV::Float(double_div(n, double_of_i64(m)))),
            ObjV::Float(m) => Ok(ObjV::Float(double_div(n, m))),
            _ => Err(()),
        },
        _ => Err(()),
    }
}

/// What `/` returns.
pub open spec fn div_spec(args: Seq<ObjV>) -> Result<ObjV, ()> {
    if args.len() == 0 {
        Err(())
    } else {
        fold_from(|a: ObjV, x: ObjV| div_step(a, x), args[0], args.drop_first())
    }
}

/// One `%` step, under the same guards as `/`.
pub open spec fn mod_step(acc: ObjV, x: ObjV) -> Result<ObjV, ()> {
    match acc {
        ObjV::Integer(n) => match x {
            ObjV::Integer(m) => match n.checked_rem(m) {
                Some(q) => Ok(ObjV::Integer(q)),
                None => Err(()),
            },
            ObjV::Float(m) => Ok(ObjV::Float(double_rem(double_of_i64(n), m))),
            _ => Err(()),
        },
        ObjV::Float(n) => match x {
            ObjV::Integer(m) => Ok(ObjV::Float(double_rem(n, double_of_i64(m)))),
            ObjV::Float(m) => Ok(ObjV::Float(double_rem(n, m))),
            _ => Err(()),
        },
        _ => Err(()),
    }
}

/// What `%` returns.
pub open spec fn mod_spec(args: Seq<ObjV>) -> Result<ObjV, ()> {
    if args.len() == 0 {
        Err(())
    } else {
        fold_from(|a: ObjV, x: ObjV| mod_step(a, x), args[0], args.drop_first())
    }
}

/// Is `prev < next`, numerically, an integer promoting to double against a
/// double?
pub open spec fn lt_pair(prev: ObjV, next: ObjV) -> Result<bool, ()> {
    match prev {
        ObjV::Integer(n) => match next {
            ObjV::Integer(m) => Ok(n < m),
            ObjV::Float(m) => Ok(double_lt(double_of_i64(n), m)),
            _ => Err(()),
        },
        ObjV::Float(n) => match next {
            ObjV::Integer(m) => Ok(double_lt(n, double_of_i64(m))),
            ObjV::Float(m) => Ok(double_lt(n, m)),
            _ => Err(()),
        },
        _ => Err(()),
    }
}

/// Is `prev > next`, under the same promotion?
pub open spec fn gt_pair(prev: ObjV, next: ObjV) -> Result<bool, ()> {
    match prev {
        ObjV::Integer(n) => match next {
            ObjV::Integer(m) => Ok(n > m),
            ObjV::Float(m) => Ok(double_gt(double_of_i64(n), m)),
            _ => Err(()),
        },
        ObjV::Float(n) => match next {
            ObjV::Integer(m) => Ok(double_gt(n, double_of_i64(m))),
            ObjV::Float(m) => Ok(double_gt(n, m)),
            _ => Err(()),
        },
        _ => Err(()),
    }
}

/// The loose `=` on one adjacent pair: its exact cross-type coercion table.
pub open spec fn eq_pair(prev: ObjV, next: ObjV) -> Result<bool, ()> {
    match (prev, next) {
        (ObjV::Integer(n), ObjV::Integer(m)) => Ok(n == m),
        (ObjV::Integer(n), ObjV::Float(m)) => Ok(n == double_to_i64(m)),
        (ObjV::Integer(_), ObjV::Bool(_)) => Ok(true),
        (ObjV::Integer(_), _) => Ok(false),
        (ObjV::Float(n), ObjV::Integer(m)) => Ok(double_eq(n, double_of_i64(m))),
        (ObjV::Float(n), ObjV::Float(m)) => Ok(double_eq(n, m)),
        (ObjV::Float(_), ObjV::Bool(_)) => Ok(true),
        (ObjV::Float(_), _) => Ok(false),
        (ObjV::Bool(n), ObjV::Bool(m)) => Ok(n == m),
        (ObjV::Bool(n), ObjV::Void) => Ok(!n),
        (ObjV::Bool(b), ObjV::Str(_)) => Ok(b),
        (ObjV::Bool(_), _) => Ok(false),
        (ObjV::Str(n), ObjV::Str(m)) => Ok(n == m),
        (ObjV::Str(_), ObjV::Bool(b)) => Ok(b),
        (ObjV::Str(_), _) => Ok(false),
        (ObjV::Void, ObjV::Void) => Ok(true),
        (ObjV::Void, ObjV::Bool(b)) => Ok(!b),
        (ObjV::Void, _) => Ok(false),
        _ => Err(()),
    }
}

/// The strict `==` on one adjacent pair: same type only, no coercion.
pub open spec fn strict_eq_pair(prev: ObjV, next: ObjV) -> Result<bool, ()> {
    match (prev, next) {
        (ObjV::Integer(n), ObjV::Integer(m)) => Ok(n == m),
        (ObjV::Integer(_), _) => Ok(false),
        (ObjV::Float(n), ObjV::Float(m)) => Ok(double_eq(n, m)),
        (ObjV::Float(_), _) => Ok(false),
        (ObjV::Bool(n), ObjV::Bool(m)) => Ok(n == m),
        (ObjV::Bool(_), _) => Ok(false),
        (ObjV::Str(n), ObjV::Str(m)) => Ok(n == m),
        (ObjV::Str(_), _) => Ok(false),
        (ObjV::Void, ObjV::Void) => Ok(true),
        (ObjV::Void, _) => Ok(false),
        _ => Err(()),
    }
}

/// Chains a pairwise comparison across the arguments, stopping at the first
/// failing adjacent pair.
pub open spec fn chain_run(
    pair: spec_fn(ObjV, ObjV) -> Result<bool, ()>,
    prev: ObjV,
    rest: Seq<ObjV>,
) -> Result<bool, ()>
    decreases rest,
{
    if rest.len() == 0 {
        Ok(true)
    } else {
        match pair(prev, rest[0]) {
            Ok(b) => if !b {
                Ok(false)
            } else {
                chain_run(pair, rest[0], rest.drop_first())
            },
            Err(e) => Err(e),
        }
    }
}

/// What a chained comparison returns over the whole argument list.
pub open spec fn chain_spec(
    pair: spec_fn(ObjV, ObjV) -> Result<bool, ()>,
    args: Seq<ObjV>,
) -> Result<ObjV, ()> {
    if args.len() == 0 {
        Err(())
    } else {
        match chain_run(pair, args[0], args.drop_first()) {
            Ok(b) => Ok(ObjV::Bool(b)),
            Err(e) => Err(e),
        }
    }
}

/// What `and` returns: `false` at the first false, `Void` at the first
/// `Void`, else the last evaluated value (`Void` for no arguments).
pub open spec fn and_run(acc: ObjV, rest: Seq<ObjV>) -> ObjV
    decreases rest,
{
    if rest.len() == 0 {
        acc
    } else {
        match rest[0] {
            ObjV::Bool(b) => if !b {
                ObjV::Bool(false)
            } else {
                and_run(ObjV::Bool(true), rest.drop_first())
            },
            ObjV::Void => ObjV::Void,
            v => and_run(v, rest.drop_first()),
        }
    }
}

/// What `or` returns: the first value that is neither false nor `Void`,
/// `true` at the first true, else what the fold ends on.
pub open spec fn or_run(acc: ObjV, rest: Seq<ObjV>) -> ObjV
    decreases rest,
{
    if rest.len() == 0 {
        acc
    } else {
        match rest[0] {
            ObjV::Bool(b) => if b {
                ObjV::Bool(true)
            } else {
                or_run(ObjV::Bool(false), rest.drop_first())
            },
            ObjV::Void => or_run(ObjV::Void, rest.drop_first()),
            v => v,
        }
    }
}

/// The `+` operator.
#[verifier::loop_isolation(false)]
pub fn sum(args: &Vec<Object>) -> (r: Result<Object, String>)
    requires
        args@.len() >= 1,
    ensures
        match r {
            Ok(v) => sum_spec(obj_views(args@)) == Ok::<ObjV, ()>(v@),
            Err(_) => sum_spec(obj_views(args@)) is Err,
        },
{
    proof {
        obj_views_elts(args@);
    }
    let ghost vs = obj_views(args@);
    let ghost step = |a: ObjV, x: ObjV| sum_step(a, x);
    let mut acc = args[0].duplicate();
    let mut i: usize = 1;
    proof {
        assert(vs.skip(1) =~= vs.drop_first());
    }
    while i < args.len()
        invariant
            1 <= i <= vs.len(),
            sum_spec(vs) == fold_from(step, acc@, vs.skip(i as int)),
        decreases vs.len() - i,
    {
        let x = &args[i];
        proof {
            assert(vs.skip(i as int)[0] == vs[i as int]);
            assert(vs.skip(i as int).drop_first() =~= vs.skip(i + 1));
        }
        let stepped: Object = match (acc, x) {
            (Object::Integer(n), Object::Integer(m)) => Object::Integer(m.wrapping_add(n)),
            (Object::Integer(n), Object::Float(m)) => Object::Float(fadd(*m, i64_to_double(n))),
            (Object::Float(n), Object::Integer(m)) => Object::Float(fadd(i64_to_double(*m), n)),
            (Object::Float(n), Object::Float(m)) => Object::Float(fadd(*m, n)),
            (Object::String(s), Object::String(t)) => Object::String(s.concat(t.as_str())),
            _ => {
                return Err(String::from_str("Expected int, float or string"));
            },
        };
        acc = stepped;
        i = i + 1;
    }
    proof {
        assert(vs.skip(vs.len() as int) =~= Seq::<ObjV>::empty());
    }
    Ok(acc)
}

/// The `-` operator.
#[verifier::loop_isolation(false)]
pub fn sub(args: &Vec<Object>) -> (r: Result<Object, String>)
    requires
        args@.len() >= 1,
    ensures
        match r {
            Ok(v) => sub_spec(obj_views(args@)) == Ok::<ObjV, ()>(v@),
            Err(_) => sub_spec(obj_views(args@)) is Err,
        },
{
    proof {
        obj_views_elts(args@);
    }
    let ghost vs = obj_views(args@);
    let ghost step = |a: ObjV, x: ObjV| sub_step(a, x);
    if args.len() == 1 {
        return match &args[0] {
            Object::Integer(n) => Ok(Object::Integer((0i64).wrapping_sub(*n))),
            Object::Float(n) => Ok(Object::Float(*n ^ SIGN_BIT)),
            _ => Err(String::from_str("Expected int or float")),
        };
    }
    let mut acc = args[0].duplicate();
    let mut i: usize = 1;
    proof {
        assert(vs.skip(1) =~= vs.drop_first());
    }
    while i < args.len()
        invariant
            1 <= i <= vs.len(),
            vs.len() >= 2,
            sub_spec(vs) == fold_from(step, acc@, vs.skip(i as int)),
        decreases vs.len() - i,
    {
        let x = &args[i];
        proof {
            assert(vs.skip(i as int)[0] == vs[i as int]);
            assert(vs.skip(i as int).drop_first() =~= vs.skip(i + 1));
        }
        let stepped: Object = match (acc, x) {
            (Object::Integer(n), Object::Integer(m)) => Object::Integer(n.wrapping_sub(*m)),
            (Object::Integer(n), Object::Float(m)) => Object::Float(fsub(i64_to_double(n), *m)),
            (Object::Float(n), Object::Integer(m)) => Object::Float(fsub(n, i64_to_double(*m))),
            (Object::Float(n), Object::Float(m)) => Object::Float(fsub(n, *m)),
            _ => {
                return Err(String::from_str("Expected int or float"));
            },
        };
        acc = stepped;
        i = i + 1;
    }
    proof {
        assert(vs.skip(vs.len() as int) =~= Seq::<ObjV>::empty());
    }
    Ok(acc)
}

/// The `*` operator.
#[verifier::loop_isolation(false)]
pub fn mult(args: &Vec<Object>) -> (r: Result<Object, String>)
    requires
        args@.len() >= 1,
    ensures
        match r {
            Ok(v) => mult_spec(obj_views(args@)) == Ok::<ObjV, ()>(v@),
            Err(_) => mult_spec(obj_views(args@)) is Err,
        },
{
    proof {
        obj_views_elts(args@);
    }
    let ghost vs = obj_views(args@);
    let ghost step = |a: ObjV, x: ObjV| mult_step(a, x);
    let mut acc = args[0].duplicate();
    let mut i: usize = 1;
    proof {
        assert(vs.skip(1) =~= vs.drop_first());
    }
    while i < args.len()
        invariant
            1 <= i <= vs.len(),
            mult_spec(vs) == fold_from(step, acc@, vs.skip(i as int)),
        decreases vs.len() - i,
    {
        let x = &args[i];
        proof {
            assert(vs.skip(i as int)[0] == vs[i as int]);
            assert(vs.skip(i as int).drop_first() =~= vs.skip(i + 1));
        }
        let stepped: Object = match (acc, x) {
            (Object::Integer(n), Object::Integer(m)) => Object::Integer(m.wrapping_mul(n)),
            (Object::Integer(n), Object::Float(m)) => Object::Float(fmul(*m, i64_to_double(n))),
            (Object::Float(n), Object::Integer(m)) => Object::Float(fmul(i64_to_double(*m), n)),
            (Object::Float(n), Object::Float(m)) => Object::Float(fmul(*m, n)),
            _ => {
                return Err(String::from_str("Expected int or float"));
            },
        };
        acc = stepped;
        i = i + 1;
    }
    proof {
        assert(vs.skip(vs.len() as int) =~= Seq::<ObjV>::empty());
    }
    Ok(acc)
}

/// The `/` operator.
#[verifier::loop_isolation(false)]
pub fn div(args: &Vec<Object>) -> (r: Result<Object, String>)
    requires
        args@.len() >= 1,
    ensures
        match r {
            Ok(v) => div_spec(obj_views(args@)) == Ok::<ObjV, ()>(v@),
            Err(_) => div_spec(obj_views(args@)) is Err,
        },
{
    proof {
        obj_views_elts(args@);
    }
    let ghost vs = obj_views(args@);
    let ghost step = |a: ObjV, x: ObjV| div_step(a, x);
    let mut acc = args[0].duplicate();
    let mut i: usize = 1;
    proof {
        assert(vs.skip(1) =~= vs.drop_first());
    }
    while i < args.len()
        invariant
            1 <= i <= vs.len(),
            div_spec(vs) == fold_from(step, acc@, vs.skip(i as int)),
        decreases vs.len() - i,
    {
        let x = &args[i];
        proof {
            assert(vs.skip(i as int)[0] == vs[i as int]);
            assert(vs.skip(i as int).drop_first() =~= vs.skip(i + 1));
        }
        let stepped: Object = match (acc, x) {
            (Object::Integer(n), Object::Integer(m)) => match n.checked_div(*m) {
                Some(q) => Object::Integer(q),
                None => {
                    return Err(String::from_str("Division by zero or overflow"));
                },
            },
            (Object::Integer(n), Object::Float(m)) => Object::Float(fdiv(i64_to_double(n), *m)),
            (Object::Float(n), Object::Integer(m)) => Object::Float(fdiv(n, i64_to_double(*m))),
            (Object::Float(n), Object::Float(m)) => Object::Float(fdiv(n, *m)),
            _ => {
                return Err(String::from_str("Expected int or float"));
            },
        };
        acc = stepped;
        i = i + 1;
    }
    proof {
        assert(vs.skip(vs.len() as int) =~= Seq::<ObjV>::empty());
    }
    Ok(acc)
}

/// The `%` operator.
#[verifier::loop_isolation(false)]
pub fn mod_(args: &Vec<Object>) -> (r: Result<Object, String>)
    requires
        args@.len() >= 1,
    ensures
        match r {
            Ok(v) => mod_spec(obj_views(args@)) == Ok::<ObjV, ()>(v@),
            Err(_) => mod_spec(obj_views(args@)) is Err,
        },
{
    proof {
        obj_views_elts(args@);
    }
    let ghost vs = obj_views(args@);
    let ghost step = |a: ObjV, x: ObjV| mod_step(a, x);
    let mut acc = args[0].duplicate();
    let mut i: usize = 1;
    proof {
        assert(vs.skip(1) =~= vs.drop_first());
    }
    while i < args.len()
        invariant
            1 <= i <= vs.len(),
            mod_spec(vs) == fold_from(step, acc@, vs.skip(i as int)),
        decreases vs.len() - i,
    {
        let x = &args[i];
        proof {
            assert(vs.skip(i as int)[0] == vs[i as int]);
            assert(vs.skip(i as int).drop_first() =~= vs.skip(i + 1));
        }
        let stepped: Object = match (acc, x) {
            (Object::Integer(n), Object::Integer(m)) => match n.checked_rem(*m) {
                Some(q) => Object::Integer(q),
                None => {
                    return Err(String::from_str("Division by zero or overflow"));
                },
            },
            (Object::Integer(n), Object::Float(m)) => Object::Float(frem(i64_to_double(n), *m)),
            (Object::Float(n), Object::Integer(m)) => Object::Float(frem(n, i64_to_double(*m))),
            (Object::Float(n), Object::Float(m)) => Object::Float(frem(n, *m)),
            _ => {
                return Err(String::from_str("Expected int or float"));
            },
        };
        acc = stepped;
        i = i + 1;
    }
    proof {
        assert(vs.skip(vs.len() as int) =~= Seq::<ObjV>::empty());
    }
    Ok(acc)
}

/// The `<` operator.
#[verifier::loop_isolation(false)]
pub fn lt(args: &Vec<Object>) -> (r: Result<Object, String>)
    requires
        args@.len() >= 1,
    ensures
        match r {
            Ok(v) => chain_spec(|a: ObjV, b: ObjV| lt_pair(a, b), obj_views(args@)) == Ok::<
                ObjV,
                (),
            >(v@),
            Err(_) => chain_spec(|a: ObjV, b: ObjV| lt_pair(a, b), obj_views(args@)) is Err,
        },
{
    proof {
        obj_views_elts(args@);
    }
    let ghost vs = obj_views(args@);
    let ghost pair = |a: ObjV, b: ObjV| lt_pair(a, b);
    let mut prev = args[0].duplicate();
    let mut i: usize = 1;
    proof {
        assert(vs.skip(1) =~= vs.drop_first());
    }
    while i < args.len()
        invariant
            1 <= i <= vs.len(),
            chain_run(pair, vs[0], vs.drop_first()) == chain_run(pair, prev@, vs.skip(i as int)),
        decreases vs.len() - i,
    {
        let x = &args[i];
        proof {
            assert(vs.skip(i as int)[0] == vs[i as int]);
            assert(vs.skip(i as int).drop_first() =~= vs.skip(i + 1));
        }
        let b: bool = match (&prev, x) {
            (Object::Integer(n), Object::Integer(m)) => *n < *m,
            (Object::Integer(n), Object::Float(m)) => flt(i64_to_double(*n), *m),
            (Object::Float(n), Object::Integer(m)) => flt(*n, i64_to_double(*m)),
            (Object::Float(n), Object::Float(m)) => flt(*n, *m),
            _ => {
                return Err(String::from_str("Expected int or float"));
            },
        };
        if !b {
            return Ok(Object::Bool(false));
        }
        prev = x.duplicate();
        i = i + 1;
    }
    proof {
        assert(vs.skip(vs.len() as int) =~= Seq::<ObjV>::empty());
    }
    Ok(Object::Bool(true))
}

/// The `>` operator.
#[verifier::loop_isolation(false)]
pub fn gt(args: &Vec<Object>) -> (r: Result<Object, String>)
    requires
        args@.len() >= 1,
    ensures
        match r {
            Ok(v) => chain_spec(|a: ObjV, b: ObjV| gt_pair(a, b), obj_views(args@)) == Ok::<
                ObjV,
                (),
            >(v@),
            Err(_) => chain_spec(|a: ObjV, b: ObjV| gt_pair(a, b), obj_views(args@)) is Err,
        },
{
    proof {
        obj_views_elts(args@);
    }
    let ghost vs = obj_views(args@);
    let ghost pair = |a: ObjV, b: ObjV| gt_pair(a, b);
    let mut prev = args[0].duplicate();
    let mut i: usize = 1;
    proof {
        assert(vs.skip(1) =~= vs.drop_first());
    }
    while i < args.len()
        invariant
            1 <= i <= vs.len(),
            chain_run(pair, vs[0], vs.drop_first()) == chain_run(pair, prev@, vs.skip(i as int)),
        decreases vs.len() - i,
    {
        let x = &args[i];
        proof {
            assert(vs.skip(i as int)[0] == vs[i as int]);
            assert(vs.skip(i as int).drop_first() =~= vs.skip(i + 1));
        }
        let b: bool = match (&prev, x) {
            (Object::Integer(n), Object::Integer(m)) => *n > *m,
            (Object::Integer(n), Object::Float(m)) => fgt(i64_to_double(*n), *m),
            (Object::Float(n), Object::Integer(m)) => fgt(*n, i64_to_double(*m)),
            (Object::Float(n), Object::Float(m)) => fgt(*n, *m),
            _ => {
                return Err(String::from_str("Expected int or float"));
            },
        };
        if !b {
            return Ok(Object::Bool(false));
        }
        prev = x.duplicate();
        i = i + 1;
    }
    proof {
        assert(vs.skip(vs.len() as int) =~= Seq::<ObjV>::empty());
    }
    Ok(Object::Bool(true))
}

/// One loose `=` comparison of adjacent values.
fn eq_pair_exec(prev: &Object, x: &Object) -> (r: Result<bool, String>)
    ensures
        match r {
            Ok(b) => eq_pair(prev@, x@) == Ok::<bool, ()>(b),
            Err(_) => eq_pair(prev@, x@) is Err,
        },
{
    match (prev, x) {
        (Object::Integer(n), Object::Integer(m)) => Ok(*n == *m),
        (Object::Integer(n), Object::Float(m)) => Ok(*n == double_trunc_i64(*m)),
        (Object::Integer(_), Object::Bool(_)) => Ok(true),
        (Object::Integer(_), _) => Ok(false),
        (Object::Float(n), Object::Integer(m)) => Ok(feq(*n, i64_to_double(*m))),
        (Object::Float(n), Object::Float(m)) => Ok(feq(*n, *m)),
        (Object::Float(_), Object::Bool(_)) => Ok(true),
        (Object::Float(_), _) => Ok(false),
        (Object::Bool(n), Object::Bool(m)) => Ok(*n == *m),
        (Object::Bool(n), Object::Void) => Ok(!*n),
        (Object::Bool(b), Object::String(_)) => Ok(*b),
        (Object::Bool(_), _) => Ok(false),
        (Object::String(n), Object::String(m)) => Ok(*n == *m),
        (Object::String(_), Object::Bool(b)) => Ok(*b),
        (Object::String(_), _) => Ok(false),
        (Object::Void, Object::Void) => Ok(true),
        (Object::Void, Object::Bool(b)) => Ok(!*b),
        (Object::Void, _) => Ok(false),
        _ => Err(String::from_str("Values cannot be compared")),
    }
}

/// One strict `==` comparison of adjacent values.
fn strict_eq_pair_exec(prev: &Object, x: &Object) -> (r: Result<bool, String>)
    ensures
        match r {
            Ok(b) => strict_eq_pair(prev@, x@) == Ok::<bool, ()>(b),
            Err(_) => strict_eq_pair(prev@, x@) is Err,
        },
{
    match (prev, x) {
        (Object::Integer(n), Object::Integer(m)) => Ok(*n == *m),
        (Object::Integer(_), _) => Ok(false),
        (Object::Float(n), Object::Float(m)) => Ok(feq(*n, *m)),
        (Object::Float(_), _) => Ok(false),
        (Object::Bool(n), Object::Bool(m)) => Ok(*n == *m),
        (Object::Bool(_), _) => Ok(false),
        (Object::String(n), Object::String(m)) => Ok(*n == *m),
        (Object::String(_), _) => Ok(false),
        (Object::Void, Object::Void) => Ok(true),
        (Object::Void, _) => Ok(false),
        _ => Err(String::from_str("Values cannot be compared")),
    }
}

/// The loose `=` operator.
#[verifier::loop_isolation(false)]
pub fn eq(args: &Vec<Object>) -> (r: Result<Object, String>)
    requires
        args@.len() >= 1,
    ensures
        match r {
            Ok(v) => chain_spec(|a: ObjV, b: ObjV| eq_pair(a, b), obj_views(args@)) == Ok::<
                ObjV,
                (),
            >(v@),
            Err(_) => chain_spec(|a: ObjV, b: ObjV| eq_pair(a, b), obj_views(args@)) is Err,
        },
{
    proof {
        obj_views_elts(args@);
    }
    let ghost vs = obj_views(args@);
    let ghost pair = |a: ObjV, b: ObjV| eq_pair(a, b);
    let mut prev = args[0].duplicate();
    let mut i: usize = 1;
    proof {
        assert(vs.skip(1) =~= vs.drop_first());
    }
    while i < args.len()
        invariant
            1 <= i <= vs.len(),
            chain_run(pair, vs[0], vs.drop_first()) == chain_run(pair, prev@, vs.skip(i as int)),
        decreases vs.len() - i,
    {
        let x = &args[i];
        proof {
            assert(vs.skip(i as int)[0] == vs[i as int]);
            assert(vs.skip(i as int).drop_first() =~= vs.skip(i + 1));
        }
        let b: bool = match eq_pair_exec(&prev, x) {
            Ok(b) => b,
            Err(e) => {
                return Err(e);
            },
        };
        if !b {
            return Ok(Object::Bool(false));
        }
        prev = x.duplicate();
        i = i + 1;
    }
    proof {
        assert(vs.skip(vs.len() as int) =~= Seq::<ObjV>::empty());
    }
    Ok(Object::Bool(true))
}

/// The strict `==` operator.
#[verifier::loop_isolation(false)]
pub fn strict_eq(args: &Vec<Object>) -> (r: Result<Object, String>)
    requires
        args@.len() >= 1,
    ensures
        match r {
            Ok(v) => chain_spec(|a: ObjV, b: ObjV| strict_eq_pair(a, b), obj_views(args@)) == Ok::<
                ObjV,
                (),
            >(v@),
            Err(_) => chain_spec(|a: ObjV, b: ObjV| strict_eq_pair(a, b), obj_views(args@)) is Err,
        },
{
    proof {
        obj_views_elts(args@);
    }
    let ghost vs = obj_views(args@);
    let ghost pair = |a: ObjV, b: ObjV| strict_eq_pair(a, b);
    let mut prev = args[0].duplicate();
    let mut i: usize = 1;
    proof {
        assert(vs.skip(1) =~= vs.drop_first());
    }
    while i < args.len()
        invariant
            1 <= i <= vs.len(),
            chain_run(pair, vs[0], vs.drop_first()) == chain_run(pair, prev@, vs.skip(i as int)),
        decreases vs.len() - i,
    {
        let x = &args[i];
        proof {
            assert(vs.skip(i as int)[0] == vs[i as int]);
            assert(vs.skip(i as int).drop_first() =~= vs.skip(i + 1));
        }
        let b: bool = match strict_eq_pair_exec(&prev, x) {
            Ok(b) => b,
            Err(e) => {
                return Err(e);
            },
        };
        if !b {
            return Ok(Object::Bool(false));
        }
        prev = x.duplicate();
        i = i + 1;
    }
    proof {
        assert(vs.skip(vs.len() as int) =~= Seq::<ObjV>::empty());
    }
    Ok(Object::Bool(true))
}

/// The `and` operator.
#[verifier::loop_isolation(false)]
pub fn and(args: &Vec<Object>) -> (r: Result<Object, String>)
    ensures
        r matches Ok(v) && v@ == and_run(ObjV::Void, obj_views(args@)),
{
    proof {
        obj_views_elts(args@);
    }
    let ghost vs = obj_views(args@);
    let mut acc = Object::Void;
    let mut i: usize = 0;
    proof {
        assert(vs.skip(0) =~= vs);
    }
    while i < args.len()
        invariant
            0 <= i <= vs.len(),
            and_run(ObjV::Void, vs) == and_run(acc@, vs.skip(i as int)),
        decreases vs.len() - i,
    {
        let x = &args[i];
        proof {
            assert(vs.skip(i as int)[0] == vs[i as int]);
            assert(vs.skip(i as int).drop_first() =~= vs.skip(i + 1));
        }
        match x {
            Object::Bool(b) => {
                if !*b {
                    return Ok(Object::Bool(false));
                }
                acc = Object::Bool(true);
            },
            Object::Void => {
                return Ok(Object::Void);
            },
            _ => {
                acc = x.duplicate();
            },
        }
        i = i + 1;
    }
    proof {
        assert(vs.skip(vs.len() as int) =~= Seq::<ObjV>::empty());
    }
    Ok(acc)
}

/// The `or` operator.
#[verifier::loop_isolation(false)]
pub fn or(args: &Vec<Object>) -> (r: Result<Object, String>)
    ensures
        r matches Ok(v) && v@ == or_run(ObjV::Void, obj_views(args@)),
{
    proof {
        obj_views_elts(args@);
    }
    let ghost vs = obj_views(args@);
    let mut acc = Object::Void;
    let mut i: usize = 0;
    proof {
        assert(vs.skip(0) =~= vs);
    }
    while i < args.len()
        invariant
            0 <= i <= vs.len(),
            or_run(ObjV::Void, vs) == or_run(acc@, vs.skip(i as int)),
        decreases vs.len() - i,
    {
        let x = &args[i];
        proof {
            assert(vs.skip(i as int)[0] == vs[i as int]);
            assert(vs.skip(i as int).drop_first() =~= vs.skip(i + 1));
        }
        match x {
            Object::Bool(b) => {
                if *b {
                    return Ok(Object::Bool(true));
                }
                acc = Object::Bool(false);
            },
            Object::Void => {
                acc = Object::Void;
            },
            _ => {
                return Ok(x.duplicate());
            },
        }
        i = i + 1;
    }
    proof {
        assert(vs.skip(vs.len() as int) =~= Seq::<ObjV>::empty());
    }
    Ok(acc)
}

/// Adding two integers is exact 64-bit addition: the wrapped sum always,
/// and the mathematical sum whenever it is representable.
pub proof fn sum_two_integers(a: i64, b: i64)
    ensures
        sum_spec(seq![ObjV::Integer(a), ObjV::Integer(b)]) == Ok::<ObjV, ()>(
            ObjV::Integer(i64_specs::wrapping_add(b, a)),
        ),
        i64::MIN <= a + b <= i64::MAX ==> sum_spec(seq![ObjV::Integer(a), ObjV::Integer(b)])
            == Ok::<ObjV, ()>(ObjV::Integer((a + b) as i64)),
{
    reveal_with_fuel(fold_from, 4);
    let args = seq![ObjV::Integer(a), ObjV::Integer(b)];
    assert(args.drop_first() =~= seq![ObjV::Integer(b)]);
    assert(args.drop_first().drop_first() =~= Seq::<ObjV>::empty());
    assert(args[0] == ObjV::Integer(a));
    assert(args.drop_first()[0] == ObjV::Integer(b));
}

/// Adding two strings concatenates them; adding an integer to a string is a
/// type error.
pub proof fn sum_strings(s: Seq<char>, t: Seq<char>, n: i64)
    ensures
        sum_spec(seq![ObjV::Str(s), ObjV::Str(t)]) == Ok::<ObjV, ()>(ObjV::Str(s + t)),
        sum_spec(seq![ObjV::Integer(n), ObjV::Str(s)]) is Err,
{
    reveal_with_fuel(fold_from, 4);
    let args = seq![ObjV::Str(s), ObjV::Str(t)];
    assert(args.drop_first() =~= seq![ObjV::Str(t)]);
    assert(args.drop_first().drop_first() =~= Seq::<ObjV>::empty());
    assert(args[0] == ObjV::Str(s));
    assert(args.drop_first()[0] == ObjV::Str(t));
    let bad = seq![ObjV::Integer(n), ObjV::Str(s)];
    assert(bad.drop_first() =~= seq![ObjV::Str(s)]);
    assert(bad[0] == ObjV::Integer(n));
    assert(bad.drop_first()[0] == ObjV::Str(s));
}

/// Is every argument an integer?
pub open spec fn all_integers(args: Seq<ObjV>) -> bool {
    forall|i: int| 0 <= i < args.len() ==> (#[trigger] args[i]) is Integer
}

/// Do the arguments ascend strictly at every adjacent pair?
pub open spec fn strictly_ascending(args: Seq<ObjV>) -> bool {
    forall|i: int|
        0 <= i < args.len() - 1 ==> (#[trigger] args[i])->Integer_0 < args[i + 1]->Integer_0
}

/// Do the arguments ascend strictly from position `k` on?
pub open spec fn ascending_from(args: Seq<ObjV>, k: int) -> bool
    decreases args.len() - k,
{
    if k < 0 || k + 1 >= args.len() {
        true
    } else {
        args[k]->Integer_0 < args[k + 1]->Integer_0 && ascending_from(args, k + 1)
    }
}

/// From position `k` on, the `<` chain is true exactly when the rest
/// ascends.
proof fn lt_chain_from(args: Seq<ObjV>, k: int)
    requires
        1 <= k <= args.len(),
        all_integers(args),
    ensures
        chain_run(|a: ObjV, b: ObjV| lt_pair(a, b), args[k - 1], args.skip(k)) == Ok::<bool, ()>(
            ascending_from(args, k - 1),
        ),
    decreases args.len() - k,
{
    if k == args.len() {
        assert(args.skip(k) =~= Seq::<ObjV>::empty());
    } else {
        assert(args.skip(k)[0] == args[k]);
        assert(args.skip(k).drop_first() =~= args.skip(k + 1));
        assert(args[k - 1] is Integer);
        assert(args[k] is Integer);
        lt_chain_from(args, k + 1);
    }
}

/// Ascending from `k` is ascending at every later adjacent pair.
proof fn ascending_from_is_forall(args: Seq<ObjV>, k: int)
    requires
        0 <= k <= args.len(),
    ensures
        ascending_from(args, k) == (forall|j: int|
            k <= j < args.len() - 1 ==> (#[trigger] args[j])->Integer_0 < args[j + 1]->Integer_0),
    decreases args.len() - k,
{
    if k + 1 < args.len() {
        ascending_from_is_forall(args, k + 1);
        if ascending_from(args, k) {
            assert forall|j: int|
                k <= j < args.len() - 1 implies (#[trigger] args[j])->Integer_0 < args[j
                + 1]->Integer_0 by {
                if j > k {
                    assert(ascending_from(args, k + 1));
                }
            }
        } else {
            if args[k]->Integer_0 < args[k + 1]->Integer_0 {
                assert(!ascending_from(args, k + 1));
                let w = choose|j: int|
                    k + 1 <= j < args.len() - 1 && !((#[trigger] args[j])->Integer_0 < args[j
                        + 1]->Integer_0);
                assert(!(args[w]->Integer_0 < args[w + 1]->Integer_0));
            }
        }
    }
}

/// The chained `<` over integers is true exactly when the arguments ascend
/// strictly, and it never fails on integers.
pub proof fn lt_chain_is_strict_ascent(args: Seq<ObjV>)
    requires
        args.len() >= 1,
        all_integers(args),
    ensures
        chain_spec(|a: ObjV, b: ObjV| lt_pair(a, b), args) == Ok::<ObjV, ()>(
            ObjV::Bool(strictly_ascending(args)),
        ),
{
    assert(args.skip(1) =~= args.drop_first());
    lt_chain_from(args, 1);
    ascending_from_is_forall(args, 0);
}

} // verus!
