//! The runtime value model: a single closed tagged union shared by the
//! reader's output and the evaluator's input and output.
//!
//! `Object` is the executable value; `ObjV` is its mathematical shape, with
//! text as `Seq<char>`, lists as `Seq`, and a captured environment as the
//! index of its frame in the environment arena.  Every contract in the crate
//! speaks of `ObjV` values.

use vstd::prelude::*;

use crate::double::{double_text, format_double};
use crate::words::{format_i64, i64_text};

verus! {

/// The mathematical shape of a runtime value.
#[verifier::ext_equal]
pub ghost enum ObjV {
    Void,
    Cond,
    Quote(Box<ObjV>),
    Keyword(Seq<char>),
    Operator(Seq<char>),
    Float(u64),
    Integer(i64),
    Bool(bool),
    Str(Seq<char>),
    Symbol(Seq<char>),
    Lambda(Seq<Seq<char>>, Box<ObjV>, int),
    List(Seq<ObjV>),
    Native(Seq<char>),
}

/// A runtime value.  A float is carried as the 64 bits of its IEEE-754
/// encoding; a closure carries the arena index of the frame it captured.
#[derive(Debug, PartialEq)]
pub enum Object {
    Void,
    Cond,
    Quote(Box<Object>),
    Keyword(String),
    Operator(String),
    Float(u64),
    Integer(i64),
    Bool(bool),
    String(String),
    Symbol(String),
    Lambda(Vec<String>, Box<Object>, usize),
    List(Vec<Object>),
    Native(String),
}

/// The shape of an executable value.
pub open spec fn obj_view(o: Object) -> ObjV
    decreases o,
{
    match o {
        Object::Void => ObjV::Void,
        Object::Cond => ObjV::Cond,
        Object::Quote(inner) => ObjV::Quote(Box::new(obj_view(*inner))),
        Object::Keyword(s) => ObjV::Keyword(s.view()),
        Object::Operator(s) => ObjV::Operator(s.view()),
        Object::Float(bits) => ObjV::Float(bits),
        Object::Integer(n) => ObjV::Integer(n),
        Object::Bool(b) => ObjV::Bool(b),
        Object::String(s) => ObjV::Str(s.view()),
        Object::Symbol(s) => ObjV::Symbol(s.view()),
        Object::Lambda(params, body, env) => ObjV::Lambda(
            Seq::new(params.view().len(), |i: int| params.view()[i].view()),
            Box::new(obj_view(*body)),
            env as int,
        ),
        Object::List(items) => ObjV::List(obj_views(items.view())),
        Object::Native(s) => ObjV::Native(s.view()),
    }
}

/// The shapes of a sequence of executable values, elementwise.
pub open spec fn obj_views(items: Seq<Object>) -> Seq<ObjV>
    decreases items,
{
    if items.len() == 0 {
        Seq::empty()
    } else {
        obj_views(items.drop_last()).push(obj_view(items.last()))
    }
}

/// `obj_views` maps `obj_view` over its argument.
pub proof fn obj_views_elts(items: Seq<Object>)
    ensures
        obj_views(items).len() == items.len(),
        forall|i: int| 0 <= i < items.len() ==> #[trigger] obj_views(items)[i] == obj_view(items[i]),
    decreases items.len(),
{
    if items.len() > 0 {
        obj_views_elts(items.drop_last());
        assert forall|i: int| 0 <= i < items.len() implies #[trigger] obj_views(items)[i]
            == obj_view(items[i]) by {
            if i < items.len() - 1 {
                assert(items.drop_last()[i] == items[i]);
                assert(obj_views(items)[i] == obj_views(items.drop_last())[i]);
            } else {
                assert(obj_views(items)[i] == obj_view(items.last()));
            }
        }
    }
}

impl View for Object {
    type V = ObjV;

    open spec fn view(&self) -> ObjV {
        obj_view(*self)
    }
}

/// All closure environment indices inside `o` lie below `n`, so they address
/// frames of an arena of length `n`.
pub open spec fn obj_wf(o: ObjV, n: int) -> bool
    decreases o,
{
    match o {
        ObjV::Quote(inner) => obj_wf(*inner, n),
        ObjV::Lambda(_params, body, env) => 0 <= env < n && obj_wf(*body, n),
        ObjV::List(items) => forall|i: int| 0 <= i < items.len() ==> obj_wf(#[trigger] items[i], n),
        _ => true,
    }
}

/// Well-formedness is preserved when the arena only grows.
pub proof fn obj_wf_mono(o: ObjV, n: int, m: int)
    requires
        obj_wf(o, n),
        n <= m,
    ensures
        obj_wf(o, m),
    decreases o,
{
    match o {
        ObjV::Quote(inner) => obj_wf_mono(*inner, n, m),
        ObjV::Lambda(_params, body, _env) => obj_wf_mono(*body, n, m),
        ObjV::List(items) => {
            assert forall|i: int| 0 <= i < items.len() implies obj_wf(#[trigger] items[i], m) by {
                obj_wf_mono(items[i], n, m);
            }
        },
        _ => {},
    }
}

/// The canonical display text of a value.  Lists show their elements in
/// parentheses separated by spaces; a quote level shows as a leading
/// apostrophe; a closure shows as a lambda form; a string shows bare.
pub open spec fn display_text(o: ObjV) -> Seq<char>
    decreases o,
{
    match o {
        ObjV::Void => "#nil"@,
        ObjV::Cond => "cond"@,
        ObjV::Quote(inner) => "'"@ + display_text(*inner),
        ObjV::Keyword(s) => s,
        ObjV::Operator(s) => s,
        ObjV::Float(bits) => double_text(bits),
        ObjV::Integer(n) => i64_text(n),
        ObjV::Bool(b) => if b {
            "#t"@
        } else {
            "#f"@
        },
        ObjV::Str(s) => s,
        ObjV::Symbol(s) => s,
        ObjV::Lambda(params, body, _env) => "(lambda ("@ + join_names(params) + ") "@
            + display_text(*body) + ")"@,
        ObjV::List(items) => "("@ + display_items(items) + ")"@,
        ObjV::Native(s) => s,
    }
}

/// The display texts of list elements, separated by single spaces.
pub open spec fn display_items(items: Seq<ObjV>) -> Seq<char>
    decreases items,
{
    if items.len() == 0 {
        Seq::empty()
    } else if items.len() == 1 {
        display_text(items[0])
    } else {
        display_items(items.drop_last()) + " "@ + display_text(items.last())
    }
}

/// Parameter names separated by single spaces.
pub open spec fn join_names(names: Seq<Seq<char>>) -> Seq<char>
    decreases names,
{
    if names.len() == 0 {
        Seq::empty()
    } else if names.len() == 1 {
        names[0]
    } else {
        join_names(names.drop_last()) + " "@ + names.last()
    }
}

impl Object {
    /// The canonical display text of this value.
    #[verifier::loop_isolation(false)]
    pub fn to_text(&self) -> (r: String)
        ensures
            r@ == display_text(self@),
        decreases self,
    {
        match self {
            Object::Void => String::from_str("#nil"),
            Object::Cond => String::from_str("cond"),
            Object::Quote(inner) => {
                let mut s = String::from_str("'");
                s.append(inner.to_text().as_str());
                proof {
                    assert(s@ =~= display_text(self@));
                }
                s
            },
            Object::Keyword(s) => s.clone(),
            Object::Operator(s) => s.clone(),
            Object::Float(bits) => format_double(*bits),
            Object::Integer(n) => format_i64(*n),
            Object::Bool(b) => if *b {
                String::from_str("#t")
            } else {
                String::from_str("#f")
            },
            Object::String(s) => s.clone(),
            Object::Symbol(s) => s.clone(),
            Object::Lambda(params, _body, _env) => {
                let mut s = String::from_str("(lambda (");
                let ghost names = self@->Lambda_0;
                let mut i: usize = 0;
                proof {
                    assert(names.len() == params@.len());
                    assert(names.take(0) =~= Seq::<Seq<char>>::empty());
                    assert(join_names(names.take(0)) =~= Seq::<char>::empty());
                    assert(s@ =~= "(lambda ("@ + join_names(names.take(0)));
                }
                while i < params.len()
                    invariant
                        i <= params@.len(),
                        s@ == "(lambda ("@ + join_names(names.take(i as int)),
                    decreases params@.len() - i,
                {
                    if i > 0 {
                        s.append(" ");
                    }
                    s.append(params[i].as_str());
                    i = i + 1;
                    proof {
                        assert(names.take(i as int).drop_last() =~= names.take(i - 1));
                        assert(names.take(i as int).last() == names[i - 1]);
                        if i > 1 {
                            assert(s@ =~= "(lambda ("@ + join_names(names.take(i as int)));
                        } else {
                            assert(join_names(names.take(1)) == names[0]);
                            assert(s@ =~= "(lambda ("@ + join_names(names.take(i as int)));
                        }
                    }
                }
                proof {
                    assert(names.take(names.len() as int) =~= names);
                }
                s.append(") ");
                match self {
                    Object::Lambda(_p2, body, _e2) => {
                        proof {
                            assert(decreases_to!(*self => self->Lambda_1));
                        }
                        s.append(body.to_text().as_str());
                    },
                    _ => {},
                }
                s.append(")");
                proof {
                    assert(s@ =~= display_text(self@));
                }
                s
            },
            Object::List(items) => {
                let ghost vs = obj_views(items@);
                let mut s = String::from_str("(");
                let mut i: usize = 0;
                proof {
                    obj_views_elts(items@);
                    assert(vs.take(0) =~= Seq::<ObjV>::empty());
                    assert(s@ =~= "("@ + display_items(vs.take(0)));
                }
                while i < items.len()
                    invariant
                        i <= items@.len(),
                        s@ == "("@ + display_items(vs.take(i as int)),
                    decreases items@.len() - i,
                {
                    if i > 0 {
                        s.append(" ");
                    }
                    let it = &items[i];
                    proof {
                        assert(decreases_to!(*self => self->List_0));
                        assert(decreases_to!(self->List_0 => self->List_0@));
                        assert(decreases_to!(self->List_0@ => self->List_0@[i as int]));
                        assert(decreases_to!(*self => *it));
                    }
                    s.append(it.to_text().as_str());
                    i = i + 1;
                    proof {
                        assert(vs.take(i as int).drop_last() =~= vs.take(i - 1));
                        assert(vs.take(i as int).last() == vs[i - 1]);
                        if i > 1 {
                            assert(s@ =~= "("@ + display_items(vs.take(i as int)));
                        } else {
                            assert(display_items(vs.take(1)) == display_text(vs[0]));
                            assert(s@ =~= "("@ + display_items(vs.take(i as int)));
                        }
                    }
                }
                s.append(")");
                proof {
                    assert(vs.take(vs.len() as int) =~= vs);
                    assert(s@ =~= display_text(self@));
                }
                s
            },
            Object::Native(s) => s.clone(),
        }
    }

    /// A structural copy whose shape equals this value's.
    #[verifier::loop_isolation(false)]
    pub fn duplicate(&self) -> (r: Object)
        ensures
            r@ == self@,
        decreases self,
    {
        match self {
            Object::Void => Object::Void,
            Object::Cond => Object::Cond,
            Object::Quote(inner) => Object::Quote(Box::new(inner.duplicate())),
            Object::Keyword(s) => Object::Keyword(s.clone()),
            Object::Operator(s) => Object::Operator(s.clone()),
            Object::Float(bits) => Object::Float(*bits),
            Object::Integer(n) => Object::Integer(*n),
            Object::Bool(b) => Object::Bool(*b),
            Object::String(s) => Object::String(s.clone()),
            Object::Symbol(s) => Object::Symbol(s.clone()),
            Object::Native(s) => Object::Native(s.clone()),
            Object::Lambda(params, body, env) => {
                let mut ps: Vec<String> = Vec::new();
                let mut i: usize = 0;
                while i < params.len()
                    invariant
                        i <= params.len(),
                        ps@.len() == i,
                        forall|j: int| 0 <= j < i ==> ps@[j]@ == params@[j]@,
                    decreases params.len() - i,
                {
                    ps.push(params[i].clone());
                    i = i + 1;
                }
                let r = Object::Lambda(ps, Box::new(body.duplicate()), *env);
                proof {
                    assert(r@ =~= self@);
                }
                r
            },
            Object::List(items) => {
                let mut out: Vec<Object> = Vec::new();
                let mut i: usize = 0;
                while i < items.len()
                    invariant
                        i <= items.len(),
                        out@.len() == i,
                        forall|j: int| 0 <= j < i ==> out@[j]@ == items@[j]@,
                    decreases items.len() - i,
                {
                    let it = &items[i];
                    proof {
                        assert(decreases_to!(*self => self->List_0));
                        assert(decreases_to!(self->List_0 => self->List_0@));
                        assert(decreases_to!(self->List_0@ => self->List_0@[i as int]));
                        assert(decreases_to!(*self => *it));
                    }
                    out.push(it.duplicate());
                    i = i + 1;
                }
                let r = Object::List(out);
                proof {
                    obj_views_elts(out@);
                    obj_views_elts(items@);
                    assert(obj_views(out@) =~= obj_views(items@));
                    assert(r@ =~= self@);
                }
                r
            },
        }
    }
}

} // verus!
