//! Native list primitives.  Each accepts either a bare list or a list behind
//! one layer of quoting, the idiomatic way to hand literal list data to a
//! native without triggering call evaluation.

use vstd::prelude::*;

use crate::object::{obj_view, obj_views, obj_views_elts, Object, ObjV};
use crate::runtime::{register, NativeId};

verus! {

/// The value a native sees through its first argument: one layer of quoting
/// is stripped; a missing argument reads as `Void`.
pub open spec fn unquote_spec(args: Seq<ObjV>) -> ObjV {
    if args.len() == 0 {
        ObjV::Void
    } else {
        match args[0] {
            ObjV::Quote(inner) => *inner,
            _ => args[0],
        }
    }
}

/// What `car` returns: the first element of the (possibly quoted) list
/// argument, `Void` on an empty list or a non-list.
pub open spec fn car_spec(args: Seq<ObjV>) -> ObjV {
    match unquote_spec(args) {
        ObjV::List(items) => if items.len() == 0 {
            ObjV::Void
        } else {
            items[0]
        },
        _ => ObjV::Void,
    }
}

/// What `cdr` returns: the rest of the (possibly quoted) list argument,
/// `Void` on an empty list or a non-list.
pub open spec fn cdr_spec(args: Seq<ObjV>) -> ObjV {
    match unquote_spec(args) {
        ObjV::List(items) => if items.len() == 0 {
            ObjV::Void
        } else {
            ObjV::List(items.drop_first())
        },
        _ => ObjV::Void,
    }
}

/// What `cons` returns for at least one argument: the first argument pushed
/// onto the front of the second (unquoted) argument if that is a list, else
/// a one-element list of the first argument alone.
pub open spec fn cons_spec(args: Seq<ObjV>) -> ObjV {
    let tail = if args.len() <= 1 {
        ObjV::Void
    } else {
        match args[1] {
            ObjV::Quote(inner) => *inner,
            _ => args[1],
        }
    };
    match tail {
        ObjV::List(items) => ObjV::List(seq![args[0]] + items),
        _ => ObjV::List(seq![args[0]]),
    }
}

/// Strips one layer of quoting from the first argument.
pub(crate) fn unquote(args: &Vec<Object>) -> (r: Object)
    ensures
        r@ == unquote_spec(obj_views(args@)),
{
    proof {
        obj_views_elts(args@);
    }
    if args.len() == 0 {
        Object::Void
    } else {
        match &args[0] {
            Object::Quote(inner) => inner.duplicate(),
            other => other.duplicate(),
        }
    }
}

/// The `car` native.
pub(crate) fn car(args: &Vec<Object>) -> (r: Result<Object, String>)
    ensures
        r matches Ok(v) && v@ == car_spec(obj_views(args@)),
{
    let list = unquote(args);
    match list {
        Object::List(items) => {
            proof {
                obj_views_elts(items@);
            }
            if items.len() == 0 {
                Ok(Object::Void)
            } else {
                Ok(items[0].duplicate())
            }
        },
        _ => Ok(Object::Void),
    }
}

/// The `cdr` native.
pub(crate) fn cdr(args: &Vec<Object>) -> (r: Result<Object, String>)
    ensures
        r matches Ok(v) && v@ == cdr_spec(obj_views(args@)),
{
    let list = unquote(args);
    match list {
        Object::List(items) => {
            proof {
                obj_views_elts(items@);
            }
            if items.len() == 0 {
                Ok(Object::Void)
            } else {
                let mut rest: Vec<Object> = Vec::new();
                let mut i: usize = 1;
                #[verifier::loop_isolation(false)]
                while i < items.len()
                    invariant
                        1 <= i <= items.len(),
                        rest@.len() == i - 1,
                        forall|j: int| 0 <= j < i - 1 ==> rest@[j]@ == items@[j + 1]@,
                    decreases items.len() - i,
                {
                    rest.push(items[i].duplicate());
                    i = i + 1;
                }
                let r = Object::List(rest);
                proof {
                    obj_views_elts(rest@);
                    obj_views_elts(items@);
                    assert(obj_views(rest@) =~= obj_views(items@).drop_first());
                }
                Ok(r)
            }
        },
        _ => Ok(Object::Void),
    }
}

/// The `cons` native.
pub(crate) fn cons(args: &Vec<Object>) -> (r: Result<Object, String>)
    ensures
        args@.len() == 0 ==> r is Err,
        args@.len() > 0 ==> (r matches Ok(v) && v@ == cons_spec(obj_views(args@))),
{
    proof {
        obj_views_elts(args@);
    }
    if args.len() == 0 {
        return Err(String::from_str("Expects at least one argument"));
    }
    let head = args[0].duplicate();
    let tail = if args.len() >= 2 {
        match &args[1] {
            Object::Quote(inner) => inner.duplicate(),
            other => other.duplicate(),
        }
    } else {
        Object::Void
    };
    match tail {
        Object::List(items) => {
            let mut out: Vec<Object> = Vec::new();
            out.push(head);
            let mut i: usize = 0;
            #[verifier::loop_isolation(false)]
            while i < items.len()
                invariant
                    i <= items.len(),
                    out@.len() == i + 1,
                    out@[0]@ == obj_views(args@)[0],
                    forall|j: int| 1 <= j < i + 1 ==> out@[j]@ == items@[j - 1]@,
                decreases items.len() - i,
            {
                out.push(items[i].duplicate());
                i = i + 1;
            }
            let r = Object::List(out);
            proof {
                obj_views_elts(out@);
                obj_views_elts(items@);
                assert(obj_views(out@) =~= seq![obj_views(args@)[0]] + obj_views(items@));
            }
            Ok(r)
        },
        _ => {
            let r = Object::List(vec![head]);
            proof {
                obj_views_elts(r->List_0@);
                assert(obj_views(r->List_0@) =~= seq![obj_views(args@)[0]]);
            }
            Ok(r)
        },
    }
}

/// Registers the list natives.
pub fn load_list_fns(methods: &mut Vec<(String, NativeId)>)
    ensures
        crate::runtime::table_view(final(methods)@) == crate::runtime::table_view(old(methods)@).insert(
            "cdr"@,
            NativeId::Cdr,
        ).insert("car"@, NativeId::Car).insert("cons"@, NativeId::Cons),
{
    register(methods, "cdr", NativeId::Cdr);
    register(methods, "car", NativeId::Car);
    register(methods, "cons", NativeId::Cons);
}

} // verus!
