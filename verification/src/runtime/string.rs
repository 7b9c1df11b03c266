//! Native string primitives: positional templating, splitting and joining.
//!
//! `format` fills the `{}` holes of a template with the display forms of
//! the remaining arguments, through the dyn-fmt crate.  `split` divides a
//! string by a separator, where the empty separator means one piece per
//! character and a single space means splitting on whitespace runs; `join`
//! concatenates the display forms of a list's elements around a separator.

use vstd::prelude::*;

use crate::object::{display_text, obj_views, obj_views_elts, Object, ObjV};
use crate::runtime::list::unquote_spec;
use crate::runtime::{register, NativeId};
use crate::words::chars_to_string;

verus! {

pub uninterp spec fn dyn_format_text(template: Seq<char>, args: Seq<Seq<char>>) -> Seq<char>;

pub uninterp spec fn split_parts(s: Seq<char>, sep: Seq<char>) -> Seq<Seq<char>>;

pub uninterp spec fn ws_parts(s: Seq<char>) -> Seq<Seq<char>>;

/// The texts of a sequence of strings, elementwise.
pub open spec fn str_views(ss: Seq<String>) -> Seq<Seq<char>> {
    Seq::new(ss.len(), |i: int| ss[i]@)
}

/// `parts` concatenated with `sep` between consecutive parts.
pub open spec fn join_texts(parts: Seq<Seq<char>>, sep: Seq<char>) -> Seq<char>
    decreases parts,
{
    if parts.len() == 0 {
        Seq::empty()
    } else if parts.len() == 1 {
        parts[0]
    } else {
        join_texts(parts.drop_last(), sep) + sep + parts.last()
    }
}

/// Relies on dyn-fmt's `AsStrFormatExt::format`: replaces the `{}` holes of
/// the template with the given arguments in order, ignoring extras and
/// leaving empty what has no argument; the result depends on the template
/// and the arguments alone.
#[verifier::external_body]
fn dyn_format(template: &String, args: &Vec<String>) -> (r: String)
    ensures
        r@ == dyn_format_text(template@, str_views(args@)),
{
    dyn_fmt::AsStrFormatExt::format(template, args)
}

/// Relies on `str::split` with a nonempty string pattern: the substrings
/// separated by the pattern's non-overlapping occurrences, in order, which
/// the separator rejoins into the original string.
#[verifier::external_body]
fn str_split(s: &str, sep: &str) -> (r: Vec<String>)
    requires
        sep@.len() > 0,
    ensures
        str_views(r@) == split_parts(s@, sep@),
        r@.len() >= 1,
        join_texts(str_views(r@), sep@) == s@,
{
    s.split(sep).map(|p: &str| p.to_string()).collect()
}

/// Relies on `str::split_whitespace`: the maximal runs of non-whitespace
/// characters, in order; the result depends on the string alone.
#[verifier::external_body]
fn str_split_ws(s: &str) -> (r: Vec<String>)
    ensures
        str_views(r@) == ws_parts(s@),
{
    s.split_whitespace().map(|p: &str| p.to_string()).collect()
}

/// What `format` returns: the filled template, or `Void` when there is no
/// template string to fill.
pub open spec fn format_spec(args: Seq<ObjV>) -> ObjV {
    if args.len() == 0 {
        ObjV::Void
    } else {
        match args[0] {
            ObjV::Str(t) => ObjV::Str(
                dyn_format_text(
                    t,
                    Seq::new((args.len() - 1) as nat, |i: int| display_text(args[i + 1])),
                ),
            ),
            _ => ObjV::Void,
        }
    }
}

/// The separator `split` and `join` read from a second argument: a string,
/// else empty.
pub open spec fn sep_spec(args: Seq<ObjV>) -> Seq<char> {
    if args.len() >= 2 {
        match args[1] {
            ObjV::Str(s) => s,
            _ => Seq::empty(),
        }
    } else {
        Seq::empty()
    }
}

/// What `split` returns: one string per character for the empty separator,
/// the whitespace-run pieces for a single space, else the pieces around the
/// separator; `Void` without a string to split.
pub open spec fn split_spec(args: Seq<ObjV>) -> ObjV {
    if args.len() == 0 {
        ObjV::Void
    } else {
        match args[0] {
            ObjV::Str(s) => {
                let sep = sep_spec(args);
                if sep.len() == 0 {
                    ObjV::List(Seq::new(s.len(), |i: int| ObjV::Str(seq![s[i]])))
                } else if sep == " "@ {
                    ObjV::List(Seq::new(ws_parts(s).len(), |i: int| ObjV::Str(ws_parts(s)[i])))
                } else {
                    ObjV::List(
                        Seq::new(split_parts(s, sep).len(), |i: int| ObjV::Str(split_parts(s, sep)[i])),
                    )
                }
            },
            _ => ObjV::Void,
        }
    }
}

/// What `join` returns: the display forms of the (possibly quoted) list's
/// elements joined by the separator; `Void` without a list.
pub open spec fn join_spec(args: Seq<ObjV>) -> ObjV {
    match unquote_spec(args) {
        ObjV::List(items) => ObjV::Str(
            join_texts(Seq::new(items.len(), |i: int| display_text(items[i])), sep_spec(args)),
        ),
        _ => ObjV::Void,
    }
}


/// What `split` guarantees beyond its value: with an ordinary separator
/// (neither empty nor the whitespace marker), joining the pieces with the
/// separator reproduces the string that was split.
pub open spec fn split_rejoins(args: Seq<ObjV>) -> bool {
    args.len() > 0 ==> match args[0] {
        ObjV::Str(s) => {
            let sep = sep_spec(args);
            (sep.len() > 0 && sep != " "@) ==> join_texts(split_parts(s, sep), sep) == s
        },
        _ => true,
    }
}

/// The `format` native.
#[verifier::loop_isolation(false)]
pub(crate) fn format_(args: &Vec<Object>) -> (r: Result<Object, String>)
    ensures
        r matches Ok(v) && v@ == format_spec(obj_views(args@)),
{
    proof {
        obj_views_elts(args@);
    }
    let ghost vs = obj_views(args@);
    if args.len() == 0 {
        return Ok(Object::Void);
    }
    match &args[0] {
        Object::String(t) => {
            let ghost shown = Seq::new((vs.len() - 1) as nat, |i: int| display_text(vs[i + 1]));
            let mut rendered: Vec<String> = Vec::new();
            let mut i: usize = 1;
            while i < args.len()
                invariant
                    1 <= i <= vs.len(),
                    rendered@.len() == i - 1,
                    forall|j: int| 0 <= j < i - 1 ==> (#[trigger] rendered@[j])@ == shown[j],
                decreases vs.len() - i,
            {
                rendered.push(args[i].to_text());
                i = i + 1;
            }
            let out = dyn_format(t, &rendered);
            proof {
                assert(str_views(rendered@) =~= shown);
            }
            Ok(Object::String(out))
        },
        _ => Ok(Object::Void),
    }
}

/// Reads the separator argument.
fn sep_of(args: &Vec<Object>) -> (r: String)
    ensures
        r@ == sep_spec(obj_views(args@)),
{
    proof {
        obj_views_elts(args@);
    }
    if args.len() >= 2 {
        match &args[1] {
            Object::String(s) => s.clone(),
            _ => String::new(),
        }
    } else {
        String::new()
    }
}

/// The `split` native.
#[verifier::loop_isolation(false)]
pub(crate) fn split(args: &Vec<Object>) -> (r: Result<Object, String>)
    ensures
        r matches Ok(v) && v@ == split_spec(obj_views(args@)),
        split_rejoins(obj_views(args@)),
{
    proof {
        obj_views_elts(args@);
    }
    let ghost vs = obj_views(args@);
    if args.len() == 0 {
        return Ok(Object::Void);
    }
    let text = match &args[0] {
        Object::String(s) => s.clone(),
        _ => {
            return Ok(Object::Void);
        },
    };
    let sep = sep_of(args);
    let ghost s = text@;
    if sep.as_str().is_empty() {
        let chars = crate::lexer::str_chars(text.as_str());
        let mut out: Vec<Object> = Vec::new();
        let mut i: usize = 0;
        while i < chars.len()
            invariant
                i <= s.len(),
                chars@ == s,
                out@.len() == i,
                forall|j: int| 0 <= j < i ==> (#[trigger] out@[j])@ == ObjV::Str(seq![s[j]]),
            decreases s.len() - i,
        {
            let mut one: Vec<char> = Vec::new();
            one.push(chars[i]);
            out.push(Object::String(chars_to_string(&one)));
            i = i + 1;
        }
        let r = Object::List(out);
        proof {
            obj_views_elts(out@);
            assert(obj_views(out@) =~= Seq::new(s.len(), |i: int| ObjV::Str(seq![s[i]])));
        }
        Ok(r)
    } else if sep == String::from_str(" ") {
        let parts = str_split_ws(text.as_str());
        let mut out: Vec<Object> = Vec::new();
        let mut i: usize = 0;
        while i < parts.len()
            invariant
                i <= parts@.len(),
                out@.len() == i,
                forall|j: int| 0 <= j < i ==> (#[trigger] out@[j])@ == ObjV::Str(ws_parts(s)[j]),
                str_views(parts@) == ws_parts(s),
            decreases parts@.len() - i,
        {
            proof {
                assert(str_views(parts@)[i as int] == parts@[i as int]@);
            }
            out.push(Object::String(parts[i].clone()));
            i = i + 1;
        }
        let r = Object::List(out);
        proof {
            obj_views_elts(out@);
            assert(obj_views(out@) =~= Seq::new(
                ws_parts(s).len(),
                |i: int| ObjV::Str(ws_parts(s)[i]),
            ));
        }
        Ok(r)
    } else {
        let parts = str_split(text.as_str(), sep.as_str());
        let mut out: Vec<Object> = Vec::new();
        let mut i: usize = 0;
        while i < parts.len()
            invariant
                i <= parts@.len(),
                out@.len() == i,
                forall|j: int|
                    0 <= j < i ==> (#[trigger] out@[j])@ == ObjV::Str(split_parts(s, sep@)[j]),
                str_views(parts@) == split_parts(s, sep@),
            decreases parts@.len() - i,
        {
            proof {
                assert(str_views(parts@)[i as int] == parts@[i as int]@);
            }
            out.push(Object::String(parts[i].clone()));
            i = i + 1;
        }
        let r = Object::List(out);
        proof {
            obj_views_elts(out@);
            assert(obj_views(out@) =~= Seq::new(
                split_parts(s, sep@).len(),
                |i: int| ObjV::Str(split_parts(s, sep@)[i]),
            ));
        }
        Ok(r)
    }
}

/// The `join` native.
#[verifier::loop_isolation(false)]
pub(crate) fn join(args: &Vec<Object>) -> (r: Result<Object, String>)
    ensures
        r matches Ok(v) && v@ == join_spec(obj_views(args@)),
{
    proof {
        obj_views_elts(args@);
    }
    let list = crate::runtime::list::unquote(args);
    let items = match list {
        Object::List(items) => items,
        _ => {
            return Ok(Object::Void);
        },
    };
    let sep = sep_of(args);
    let ghost shown = Seq::new(obj_views(items@).len(), |i: int| display_text(obj_views(items@)[i]));
    let mut out = String::new();
    let mut i: usize = 0;
    proof {
        obj_views_elts(items@);
        assert(shown.take(0) =~= Seq::<Seq<char>>::empty());
        assert(out@ =~= join_texts(shown.take(0), sep@));
    }
    while i < items.len()
        invariant
            i <= items@.len(),
            shown.len() == items@.len(),
            out@ == join_texts(shown.take(i as int), sep@),
        decreases items@.len() - i,
    {
        if i > 0 {
            out.append(sep.as_str());
        }
        out.append(items[i].to_text().as_str());
        i = i + 1;
        proof {
            assert(shown.take(i as int).drop_last() =~= shown.take(i - 1));
            assert(shown.take(i as int).last() == shown[i - 1]);
            if i > 1 {
                assert(out@ =~= join_texts(shown.take(i as int), sep@));
            } else {
                assert(join_texts(shown.take(1), sep@) == shown[0]);
                assert(out@ =~= join_texts(shown.take(i as int), sep@));
            }
        }
    }
    proof {
        assert(shown.take(shown.len() as int) =~= shown);
    }
    Ok(Object::String(out))
}

/// Registers the string natives.
pub fn load_string_fns(methods: &mut Vec<(String, NativeId)>)
    ensures
        crate::runtime::table_view(final(methods)@) == crate::runtime::table_view(old(methods)@).insert(
            "format"@,
            NativeId::Format,
        ).insert("split"@, NativeId::Split).insert("join"@, NativeId::Join),
{
    register(methods, "format", NativeId::Format);
    register(methods, "split", NativeId::Split);
    register(methods, "join", NativeId::Join);
}

} // verus!
