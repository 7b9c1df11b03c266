//! The reader: a token sequence becomes a nested value tree in one pass over
//! a stack of open list frames.
//!
//! `(` opens a frame; `)` closes the innermost one and appends it to the
//! frame below; a quote token adds one pending level of quoting to whatever
//! value completes next in the current frame.  An unmatched `)`, an
//! unmatched `(` at the end, and a quote followed by `)` or by the end of
//! the input are hard parse errors.  If the whole program is a single form
//! it is returned bare; zero forms read as `Void`; several become a list.

use vstd::prelude::*;

use crate::lexer::{spec_tokenize, token_views, tokenize, Token, TokenV};
use crate::object::{obj_views, obj_views_elts, Object, ObjV};

verus! {

/// A parse failure: its message.
#[derive(Debug)]
pub struct ParseError {
    err: String,
}

impl View for ParseError {
    type V = Seq<char>;

    closed spec fn view(&self) -> Seq<char> {
        self.err@
    }
}

impl ParseError {
    /// The error's message.
    pub fn text(&self) -> (r: String)
        ensures
            r@ == self@,
    {
        self.err.clone()
    }
}

/// One open list frame: the values read so far and the quote levels pending
/// before the next value.
pub ghost struct PFrame {
    pub items: Seq<ObjV>,
    pub quotes: nat,
}

/// The value of an atom token; parens and quote tokens are no atoms.  A bare
/// symbol is reclassified here: a special-form name becomes a keyword, an
/// operator name an operator, `cond` the conditional marker.
pub open spec fn atom_objv(t: TokenV) -> Result<ObjV, ()> {
    match t {
        TokenV::Integer(n) => Ok(ObjV::Integer(n)),
        TokenV::Float(bits) => Ok(ObjV::Float(bits)),
        TokenV::Str(s) => Ok(ObjV::Str(s)),
        TokenV::Keyword(s) => Ok(ObjV::Keyword(s)),
        TokenV::Operator(s) => Ok(ObjV::Operator(s)),
        TokenV::Cond => Ok(ObjV::Cond),
        TokenV::Symbol(w) => {
            if w == "define"@ || w == "defun"@ || w == "lambda"@ || w == "let"@ || w == "do"@ {
                Ok(ObjV::Keyword(w))
            } else if w == "+"@ || w == "-"@ || w == "*"@ || w == "/"@ || w == "<"@ || w == ">"@
                || w == "="@ || w == "=="@ || w == "%"@ || w == "or"@ || w == "and"@ {
                Ok(ObjV::Operator(w))
            } else if w == "cond"@ {
                Ok(ObjV::Cond)
            } else {
                Ok(ObjV::Symbol(w))
            }
        },
        _ => Err(()),
    }
}

/// `o` under `q` levels of quoting.
pub open spec fn quote_wrap(o: ObjV, q: nat) -> ObjV
    decreases q,
{
    if q == 0 {
        o
    } else {
        ObjV::Quote(Box::new(quote_wrap(o, (q - 1) as nat)))
    }
}

/// Appends a completed value to the top frame, wrapped in that frame's
/// pending quotes.
pub open spec fn stack_push_value(stack: Seq<PFrame>, o: ObjV) -> Seq<PFrame>
    recommends
        stack.len() > 0,
{
    let top = stack.last();
    stack.update(
        stack.len() - 1,
        PFrame { items: top.items.push(quote_wrap(o, top.quotes)), quotes: 0 },
    )
}

/// Runs the reader from token `i` with the given stack of open frames; the
/// bottom frame collects the top-level forms.
pub open spec fn spec_parse_run(ts: Seq<TokenV>, i: int, stack: Seq<PFrame>) -> Result<ObjV, ()>
    recommends
        stack.len() > 0,
    decreases ts.len() - i,
{
    if i < 0 || i >= ts.len() {
        if stack.len() != 1 || stack.last().quotes != 0 {
            Err(())
        } else {
            let forms = stack[0].items;
            if forms.len() == 0 {
                Ok(ObjV::Void)
            } else if forms.len() == 1 {
                Ok(forms[0])
            } else {
                Ok(ObjV::List(forms))
            }
        }
    } else {
        match ts[i] {
            TokenV::LParen => spec_parse_run(
                ts,
                i + 1,
                stack.push(PFrame { items: Seq::empty(), quotes: 0 }),
            ),
            TokenV::RParen => {
                if stack.len() <= 1 || stack.last().quotes != 0 {
                    Err(())
                } else {
                    let done = ObjV::List(stack.last().items);
                    spec_parse_run(ts, i + 1, stack_push_value(stack.drop_last(), done))
                }
            },
            TokenV::Quote => {
                let top = stack.last();
                spec_parse_run(
                    ts,
                    i + 1,
                    stack.update(
                        stack.len() - 1,
                        PFrame { items: top.items, quotes: top.quotes + 1 },
                    ),
                )
            },
            t => match atom_objv(t) {
                Ok(o) => spec_parse_run(ts, i + 1, stack_push_value(stack, o)),
                Err(_) => Err(()),
            },
        }
    }
}

/// What a whole program parses to: `Err` also when tokenization fails.
pub open spec fn spec_parse(s: Seq<char>) -> Result<ObjV, ()> {
    match spec_tokenize(s, 0) {
        None => Err(()),
        Some(ts) => spec_parse_run(ts, 0, seq![PFrame { items: Seq::empty(), quotes: 0 }]),
    }
}

struct ListFrame {
    items: Vec<Object>,
    quotes: usize,
}

impl View for ListFrame {
    type V = PFrame;

    closed spec fn view(&self) -> PFrame {
        PFrame { items: obj_views(self.items@), quotes: self.quotes as nat }
    }
}

/// The shapes of a stack of open frames, elementwise.
spec fn stack_views(stack: Seq<ListFrame>) -> Seq<PFrame> {
    Seq::new(stack.len(), |i: int| stack[i]@)
}

/// The value of an atom token; a paren or quote token is an error.
fn token_to_object(t: &Token) -> (r: Result<Object, ParseError>)
    ensures
        match r {
            Ok(o) => atom_objv(t@) == Ok::<ObjV, ()>(o@),
            Err(_) => atom_objv(t@) is Err,
        },
{
    match t {
        Token::Integer(n) => Ok(Object::Integer(*n)),
        Token::Float(bits) => Ok(Object::Float(*bits)),
        Token::String(s) => Ok(Object::String(s.clone())),
        Token::Keyword(s) => Ok(Object::Keyword(s.clone())),
        Token::Operator(s) => Ok(Object::Operator(s.clone())),
        Token::Cond => Ok(Object::Cond),
        Token::Symbol(w) => {
            let text = w.clone();
            if text == String::from_str("define") || text == String::from_str("defun") || text
                == String::from_str("lambda") || text == String::from_str("let") || text
                == String::from_str("do") {
                Ok(Object::Keyword(text))
            } else if text == String::from_str("+") || text == String::from_str("-") || text
                == String::from_str("*") || text == String::from_str("/") || text
                == String::from_str("<") || text == String::from_str(">") || text
                == String::from_str("=") || text == String::from_str("==") || text
                == String::from_str("%") || text == String::from_str("or") || text
                == String::from_str("and") {
                Ok(Object::Operator(text))
            } else if text == String::from_str("cond") {
                Ok(Object::Cond)
            } else {
                Ok(Object::Symbol(text))
            }
        },
        _ => Err(ParseError { err: String::from_str("Unexpected token") }),
    }
}

/// `o` under `q` levels of quoting.
fn apply_quotes(o: Object, q: usize) -> (r: Object)
    ensures
        r@ == quote_wrap(o@, q as nat),
{
    let mut out = o;
    let mut k: usize = 0;
    let ghost base = out@;
    #[verifier::loop_isolation(false)]
    while k < q
        invariant
            k <= q,
            out@ == quote_wrap(base, k as nat),
        decreases q - k,
    {
        out = Object::Quote(Box::new(out));
        k = k + 1;
        proof {
            quote_wrap_snoc(base, k as nat);
        }
    }
    out
}

/// One more level of quoting wraps around the outside.
proof fn quote_wrap_snoc(o: ObjV, q: nat)
    requires
        q > 0,
    ensures
        quote_wrap(o, q) == ObjV::Quote(Box::new(quote_wrap(o, (q - 1) as nat))),
{
}

/// Runs the reader over the whole token sequence.
#[verifier::loop_isolation(false)]
fn parse_list(tokens: &Vec<Token>) -> (r: Result<Object, ParseError>)
    ensures
        match r {
            Ok(o) => spec_parse_run(
                token_views(tokens@),
                0,
                seq![PFrame { items: Seq::empty(), quotes: 0 }],
            ) == Ok::<ObjV, ()>(o@),
            Err(_) => spec_parse_run(
                token_views(tokens@),
                0,
                seq![PFrame { items: Seq::empty(), quotes: 0 }],
            ) is Err,
        },
{
    let ghost ts = token_views(tokens@);
    let mut stack: Vec<ListFrame> = Vec::new();
    stack.push(ListFrame { items: Vec::new(), quotes: 0 });
    proof {
        obj_views_elts(stack@[0].items@);
        assert(stack_views(stack@) =~= seq![PFrame { items: Seq::empty(), quotes: 0 }]);
    }
    let n = tokens.len();
    let mut i: usize = 0;
    while i < n
        invariant
            i <= n,
            stack@.len() > 0,
            forall|k: int| 0 <= k < stack@.len() ==> (#[trigger] stack@[k]).quotes <= i,
            spec_parse_run(ts, 0, seq![PFrame { items: Seq::empty(), quotes: 0 }])
                == spec_parse_run(ts, i as int, stack_views(stack@)),
        decreases n - i,
    {
        let tok = &tokens[i];
        let ghost pv = stack_views(stack@);
        proof {
            assert(ts[i as int] == tok@);
        }
        match tok {
            Token::LParen => {
                stack.push(ListFrame { items: Vec::new(), quotes: 0 });
                proof {
                    obj_views_elts(stack@.last().items@);
                    assert(stack_views(stack@) =~= pv.push(
                        PFrame { items: Seq::empty(), quotes: 0 },
                    ));
                    assert(spec_parse_run(ts, i as int, pv) == spec_parse_run(
                        ts,
                        i + 1,
                        pv.push(PFrame { items: Seq::empty(), quotes: 0 }),
                    ));
                }
                i = i + 1;
            },
            Token::RParen => {
                if stack.len() <= 1 {
                    return Err(ParseError { err: String::from_str("Unexpected token: )") });
                }
                let top = stack.pop().unwrap();
                if top.quotes > 0 {
                    return Err(
                        ParseError { err: String::from_str("Quote must be followed by a value") },
                    );
                }
                let done = Object::List(top.items);
                proof {
                    assert(stack_views(stack@) =~= pv.drop_last());
                    assert(top@ == pv.last());
                    assert(done@ == ObjV::List(pv.last().items));
                }
                push_completed(&mut stack, done, i);
                proof {
                    assert(spec_parse_run(ts, i as int, pv) == spec_parse_run(
                        ts,
                        i + 1,
                        stack_push_value(pv.drop_last(), ObjV::List(pv.last().items)),
                    ));
                }
                i = i + 1;
            },
            Token::Quote => {
                let depth = stack.len();
                let top = &mut stack[depth - 1];
                let ghost oldtop = top@;
                top.quotes = top.quotes + 1;
                proof {
                    assert(stack_views(stack@) =~= pv.update(
                        pv.len() - 1,
                        PFrame { items: oldtop.items, quotes: (oldtop.quotes + 1) as nat },
                    ));
                    assert(spec_parse_run(ts, i as int, pv) == spec_parse_run(
                        ts,
                        i + 1,
                        stack_views(stack@),
                    ));
                }
                i = i + 1;
            },
            _ => {
                match token_to_object(tok) {
                    Ok(o) => {
                        proof {
                            assert(atom_objv(ts[i as int]) == Ok::<ObjV, ()>(o@));
                        }
                        push_completed(&mut stack, o, i);
                        proof {
                            assert(spec_parse_run(ts, i as int, pv) == spec_parse_run(
                                ts,
                                i + 1,
                                stack_push_value(pv, o@),
                            ));
                        }
                        i = i + 1;
                    },
                    Err(e) => {
                        return Err(e);
                    },
                }
            },
        }
    }
    if stack.len() != 1 {
        return Err(ParseError { err: String::from_str("Unmatched (") });
    }
    let top = stack.pop().unwrap();
    if top.quotes > 0 {
        return Err(ParseError { err: String::from_str("Quote must be followed by a value") });
    }
    let mut forms = top.items;
    proof {
        obj_views_elts(forms@);
    }
    if forms.len() == 0 {
        Ok(Object::Void)
    } else if forms.len() == 1 {
        let f = forms.pop().unwrap();
        Ok(f)
    } else {
        Ok(Object::List(forms))
    }
}

/// Appends a completed value to the top frame, wrapped in its pending
/// quotes, which are spent.
#[verifier::loop_isolation(false)]
fn push_completed(stack: &mut Vec<ListFrame>, o: Object, bound: usize)
    requires
        old(stack)@.len() > 0,
        forall|k: int| 0 <= k < old(stack)@.len() ==> (#[trigger] old(stack)@[k]).quotes <= bound,
    ensures
        stack_views(final(stack)@) == stack_push_value(stack_views(old(stack)@), o@),
        final(stack)@.len() == old(stack)@.len(),
        forall|k: int| 0 <= k < final(stack)@.len() ==> (#[trigger] final(stack)@[k]).quotes
            <= bound,
{
    let depth = stack.len();
    let top = &mut stack[depth - 1];
    let ghost oldtop = *top;
    let wrapped = apply_quotes(o, top.quotes);
    top.items.push(wrapped);
    top.quotes = 0;
    proof {
        obj_views_elts(top.items@);
        obj_views_elts(oldtop.items@);
        assert(obj_views(top.items@) =~= obj_views(oldtop.items@).push(wrapped@));
    }
    proof {
        assert(stack_views(stack@) =~= stack_push_value(stack_views(old(stack)@), o@));
    }
}

/// Reads a whole program: tokenize, then run the reader.
pub fn parse(program: &str) -> (r: Result<Object, ParseError>)
    ensures
        match r {
            Ok(o) => spec_parse(program@) == Ok::<ObjV, ()>(o@),
            Err(_) => spec_parse(program@) is Err,
        },
{
    match tokenize(program) {
        Ok(tokens) => parse_list(&tokens),
        Err(e) => Err(ParseError { err: e.text() }),
    }
}

/// Does the value hold no closure?  Nothing the reader builds does.
pub open spec fn no_closure(o: ObjV) -> bool
    decreases o,
{
    match o {
        ObjV::Lambda(_p, _b, _e) => false,
        ObjV::Quote(inner) => no_closure(*inner),
        ObjV::List(items) => forall|i: int| 0 <= i < items.len() ==> no_closure(#[trigger] items[i]),
        _ => true,
    }
}

/// A value without closures is well formed for any arena.
pub proof fn no_closure_wf(o: ObjV, n: int)
    requires
        no_closure(o),
    ensures
        crate::object::obj_wf(o, n),
    decreases o,
{
    match o {
        ObjV::Quote(inner) => no_closure_wf(*inner, n),
        ObjV::List(items) => {
            assert forall|i: int| 0 <= i < items.len() implies crate::object::obj_wf(
                #[trigger] items[i],
                n,
            ) by {
                no_closure_wf(items[i], n);
            }
        },
        _ => {},
    }
}

/// Quote wrapping introduces no closure.
proof fn quote_wrap_no_closure(o: ObjV, q: nat)
    requires
        no_closure(o),
    ensures
        no_closure(quote_wrap(o, q)),
    decreases q,
{
    if q > 0 {
        quote_wrap_no_closure(o, (q - 1) as nat);
    }
}

/// Does every value on the open-frame stack hold no closure?
pub open spec fn stack_no_closure(stack: Seq<PFrame>) -> bool {
    forall|k: int, i: int|
        0 <= k < stack.len() && 0 <= i < stack[k].items.len() ==> no_closure(
            #[trigger] stack[k].items[i],
        )
}

/// The reader only ever builds closure-free values.
proof fn spec_parse_run_no_closure(ts: Seq<TokenV>, i: int, stack: Seq<PFrame>)
    requires
        stack_no_closure(stack),
        stack.len() > 0,
    ensures
        spec_parse_run(ts, i, stack) is Ok ==> no_closure(spec_parse_run(ts, i, stack)->Ok_0),
    decreases ts.len() - i,
{
    if i < 0 || i >= ts.len() {
        if stack.len() == 1 && stack.last().quotes == 0 {
            let forms = stack[0].items;
            if forms.len() > 1 {
                assert(no_closure(ObjV::List(forms)));
            }
        }
    } else {
        match ts[i] {
            TokenV::LParen => {
                let stack2 = stack.push(PFrame { items: Seq::empty(), quotes: 0 });
                assert(stack_no_closure(stack2)) by {
                    assert(forall|k: int|
                        0 <= k < stack.len() ==> stack2[k] == #[trigger] stack[k]);
                }
                spec_parse_run_no_closure(ts, i + 1, stack2);
            },
            TokenV::RParen => {
                if !(stack.len() <= 1 || stack.last().quotes != 0) {
                    let done = ObjV::List(stack.last().items);
                    assert(no_closure(done));
                    push_value_no_closure(stack.drop_last(), done);
                    spec_parse_run_no_closure(ts, i + 1, stack_push_value(stack.drop_last(), done));
                }
            },
            TokenV::Quote => {
                let top = stack.last();
                let stack2 = stack.update(
                    stack.len() - 1,
                    PFrame { items: top.items, quotes: top.quotes + 1 },
                );
                assert(stack_no_closure(stack2)) by {
                    assert(forall|k: int|
                        0 <= k < stack.len() - 1 ==> stack2[k] == #[trigger] stack[k]);
                    assert(stack2.last().items == stack.last().items);
                }
                spec_parse_run_no_closure(ts, i + 1, stack2);
            },
            t => {
                match atom_objv(t) {
                    Ok(o) => {
                        assert(no_closure(o));
                        push_value_no_closure(stack, o);
                        spec_parse_run_no_closure(ts, i + 1, stack_push_value(stack, o));
                    },
                    Err(_) => {},
                }
            },
        }
    }
}

/// Appending a closure-free value keeps the stack closure free.
proof fn push_value_no_closure(stack: Seq<PFrame>, o: ObjV)
    requires
        stack_no_closure(stack),
        stack.len() > 0,
        no_closure(o),
    ensures
        stack_push_value(stack, o).len() == stack.len(),
        stack_no_closure(stack_push_value(stack, o)),
{
    quote_wrap_no_closure(o, stack.last().quotes);
    let stack2 = stack_push_value(stack, o);
    assert forall|k: int, i: int|
        0 <= k < stack2.len() && 0 <= i < stack2[k].items.len() implies no_closure(
        #[trigger] stack2[k].items[i],
    ) by {
        if k < stack.len() - 1 {
            assert(stack2[k] == stack[k]);
        } else {
            if i < stack[k].items.len() {
                assert(stack2[k].items[i] == stack[k].items[i]);
            } else {
                assert(stack2[k].items[i] == quote_wrap(o, stack.last().quotes));
            }
        }
    }
}

/// What a program parses to holds no closure.
pub proof fn spec_parse_no_closure(s: Seq<char>)
    ensures
        spec_parse(s) is Ok ==> no_closure(spec_parse(s)->Ok_0),
{
    match spec_tokenize(s, 0) {
        Some(ts) => {
            let init = seq![PFrame { items: Seq::empty(), quotes: 0 }];
            assert(stack_no_closure(init));
            spec_parse_run_no_closure(ts, 0, init);
        },
        None => {},
    }
}

} // verus!
