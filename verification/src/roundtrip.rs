//! The reader reads back what the printer prints: for every round-trippable
//! value, parsing its display text yields the value itself, so displaying,
//! parsing and displaying again yields the same text.
//!
//! Round-trippable are the values whose display forms are single tokens that
//! classify back to themselves — integers, word-shaped symbols, the operator
//! and keyword words, the conditional marker — together with quotings and
//! listings of such values.  A boolean or nil literal reads back as the
//! symbol it displays as, a string displays bare, a double's text comes from
//! the soft-float library, and a closure's form is informational only, so
//! those stand outside the class.

use vstd::prelude::*;

use crate::lexer::{
    classify_word, cons_token, cons_tokens, is_delim, is_ws, spec_tokenize, spec_word_token,
    TokenV,
};
use crate::object::{display_items, display_text, ObjV};
use crate::parser::{
    atom_objv, quote_wrap, spec_parse, spec_parse_run, stack_push_value, PFrame,
};
use crate::words::{is_digit, is_f64_text, is_i64_text, i64_text, i64_text_round_trip};

verus! {


/// A subrange equality, read pointwise.
proof fn sub_points<T>(s: Seq<T>, i: int, w: Seq<T>)
    requires
        0 <= i,
        i + w.len() <= s.len(),
        s.subrange(i, i + w.len()) == w,
    ensures
        forall|m: int| 0 <= m < w.len() ==> s[i + m] == #[trigger] w[m],
{
    assert forall|m: int| 0 <= m < w.len() implies s[i + m] == #[trigger] w[m] by {
        assert(s.subrange(i, i + w.len())[m] == s[i + m]);
    }
}

/// Is `s` one of the special-form words?
pub open spec fn kw_word(s: Seq<char>) -> bool {
    s == "define"@ || s == "defun"@ || s == "lambda"@ || s == "let"@ || s == "do"@
}

/// Is `s` one of the operator words?
pub open spec fn op_word(s: Seq<char>) -> bool {
    s == "+"@ || s == "-"@ || s == "*"@ || s == "/"@ || s == "<"@ || s == ">"@ || s == "="@ || s
        == "=="@ || s == "%"@ || s == "or"@ || s == "and"@
}

/// Can `s` stand alone as one word token: nonempty, free of delimiters, not
/// opening a string, quote or comment, and not reading as a number?
pub open spec fn word_shaped(s: Seq<char>) -> bool {
    &&& s.len() > 0
    &&& (forall|i: int| 0 <= i < s.len() ==> !is_delim(#[trigger] s[i]))
    &&& s[0] != '\''
    &&& s[0] != '"'
    &&& s[0] != ';'
    &&& !is_i64_text(s)
    &&& !is_f64_text(s)
}

/// The values whose display text reads back as the value itself.
pub open spec fn round_trippable(o: ObjV) -> bool
    decreases o,
{
    match o {
        ObjV::Integer(_n) => true,
        ObjV::Cond => true,
        ObjV::Symbol(s) => word_shaped(s) && !kw_word(s) && !op_word(s) && s != "cond"@,
        ObjV::Keyword(s) => word_shaped(s) && kw_word(s),
        ObjV::Operator(s) => word_shaped(s) && op_word(s) && !kw_word(s),
        ObjV::Quote(inner) => round_trippable(*inner),
        ObjV::List(items) => forall|i: int|
            0 <= i < items.len() ==> round_trippable(#[trigger] items[i]),
        _ => false,
    }
}

/// The token sequence a round-trippable value displays as.
pub open spec fn tokens_of(o: ObjV) -> Seq<TokenV>
    decreases o, 1int,
{
    match o {
        ObjV::Integer(n) => seq![TokenV::Integer(n)],
        ObjV::Cond => seq![TokenV::Symbol("cond"@)],
        ObjV::Symbol(s) => seq![TokenV::Symbol(s)],
        ObjV::Keyword(s) => seq![TokenV::Symbol(s)],
        ObjV::Operator(s) => seq![TokenV::Symbol(s)],
        ObjV::Quote(inner) => seq![TokenV::Quote] + tokens_of(*inner),
        ObjV::List(items) => seq![TokenV::LParen] + tokens_of_items(items) + seq![TokenV::RParen],
        _ => Seq::empty(),
    }
}

/// The token sequences of list elements, in order.
pub open spec fn tokens_of_items(items: Seq<ObjV>) -> Seq<TokenV>
    decreases items, 0int,
{
    if items.len() == 0 {
        Seq::empty()
    } else {
        tokens_of(items[0]) + tokens_of_items(items.drop_first())
    }
}

/// Element texts decompose from the front: the first element, a space, the
/// rest.
proof fn display_items_front(items: Seq<ObjV>)
    requires
        items.len() >= 2,
    ensures
        display_items(items) == display_text(items[0]) + " "@ + display_items(items.drop_first()),
    decreases items.len(),
{
    if items.len() == 2 {
        assert(items.drop_last() =~= seq![items[0]]);
        assert(items.drop_first() =~= seq![items[1]]);
        assert(display_items(seq![items[0]]) == display_text(items[0]));
        assert(display_items(seq![items[1]]) == display_text(items[1]));
    } else {
        display_items_front(items.drop_last());
        assert(items.drop_last()[0] == items[0]);
        assert(items.drop_last().drop_first() =~= items.drop_first().drop_last());
        assert(items.drop_first().last() == items.last());
        assert(display_items(items.drop_first()) == display_items(items.drop_first().drop_last())
            + " "@ + display_text(items.drop_first().last()));
        assert(display_text(items[0]) + " "@ + display_items(items.drop_first()) =~= (display_text(
            items[0],
        ) + " "@ + display_items(items.drop_last().drop_first())) + " "@ + display_text(
            items.last(),
        ));
    }
}

/// Scanning a word through its non-delimiter characters classifies the whole
/// word once a delimiter or the end arrives.
proof fn word_scan(s: Seq<char>, k: int, j: int, acc: Seq<char>)
    requires
        0 <= k <= j <= s.len(),
        forall|m: int| k <= m < j ==> !is_delim(#[trigger] s[m]),
        j == s.len() || is_delim(s[j]),
    ensures
        spec_word_token(s, k, acc) == cons_token(
            classify_word(acc + s.subrange(k, j)),
            spec_tokenize(s, j),
        ),
    decreases j - k,
{
    if k == j {
        assert(acc + s.subrange(k, j) =~= acc);
        if j == s.len() {
            assert(spec_tokenize(s, j) == Some(Seq::<TokenV>::empty()));
            assert(seq![classify_word(acc)] + Seq::<TokenV>::empty() =~= seq![
                classify_word(acc),
            ]);
        }
    } else {
        assert(!is_delim(s[k]));
        word_scan(s, k + 1, j, acc.push(s[k]));
        assert(acc.push(s[k]) + s.subrange(k + 1, j) =~= acc + s.subrange(k, j));
    }
}

/// A word-shaped text surrounded by a boundary tokenizes to its one
/// classified token.
proof fn tok_word(s: Seq<char>, i: int, w: Seq<char>)
    requires
        0 <= i,
        i + w.len() <= s.len(),
        s.subrange(i, i + w.len()) == w,
        i + w.len() == s.len() || is_delim(s[i + w.len()]),
        w.len() > 0,
        forall|m: int| 0 <= m < w.len() ==> !is_delim(#[trigger] w[m]),
        w[0] != '\'',
        w[0] != '"',
        w[0] != ';',
    ensures
        spec_tokenize(s, i) == cons_token(classify_word(w), spec_tokenize(s, i + w.len())),
{
    assert(s[i] == w[0]);
    assert(forall|m: int| i <= m < i + w.len() ==> s[m] == w[m - i]);
    assert(!is_delim(s[i]));
    assert(!is_ws(s[i]));
    word_scan(s, i + 1, i + w.len(), seq![s[i]]);
    assert(seq![s[i]] + s.subrange(i + 1, i + w.len()) =~= w);
}

/// The display text of a round-trippable value, followed by a boundary,
/// tokenizes to its token sequence followed by the rest.
proof fn tok_value(s: Seq<char>, i: int, o: ObjV)
    requires
        round_trippable(o),
        0 <= i,
        i + display_text(o).len() <= s.len(),
        s.subrange(i, i + display_text(o).len()) == display_text(o),
        i + display_text(o).len() == s.len() || is_delim(s[i + display_text(o).len()]),
    ensures
        spec_tokenize(s, i) == cons_tokens(
            tokens_of(o),
            spec_tokenize(s, i + display_text(o).len()),
        ),
    decreases o, 1int,
{
    let d = display_text(o);
    let j = i + d.len();
    match o {
        ObjV::Integer(n) => {
            i64_text_round_trip(n);
            crate::words::nat_text_value(if n < 0 { -(n as int) } else { n as int });
            assert(forall|m: int| 0 <= m < d.len() ==> !is_delim(#[trigger] d[m])) by {
                assert(forall|m: int|
                    0 <= m < d.len() ==> is_digit(#[trigger] d[m]) || d[m] == '-');
            }
            assert(d[0] != '\'' && d[0] != '"' && d[0] != ';') by {
                assert(is_digit(d[0]) || d[0] == '-');
            }
            tok_word(s, i, d);
            assert(classify_word(d) == TokenV::Integer(n));
            unfold_cons(TokenV::Integer(n), tokens_of(o), spec_tokenize(s, j));
        },
        ObjV::Cond => {
            cond_word_facts();
            tok_word(s, i, d);
            assert(classify_word(d) == TokenV::Symbol("cond"@));
            unfold_cons(TokenV::Symbol("cond"@), tokens_of(o), spec_tokenize(s, j));
        },
        ObjV::Symbol(w) => {
            tok_word(s, i, d);
            assert(classify_word(d) == TokenV::Symbol(w));
            unfold_cons(TokenV::Symbol(w), tokens_of(o), spec_tokenize(s, j));
        },
        ObjV::Keyword(w) => {
            tok_word(s, i, d);
            assert(classify_word(d) == TokenV::Symbol(w));
            unfold_cons(TokenV::Symbol(w), tokens_of(o), spec_tokenize(s, j));
        },
        ObjV::Operator(w) => {
            tok_word(s, i, d);
            assert(classify_word(d) == TokenV::Symbol(w));
            unfold_cons(TokenV::Symbol(w), tokens_of(o), spec_tokenize(s, j));
        },
        ObjV::Quote(inner) => {
            proof_strlit_quote();
            assert(d == "'"@ + display_text(*inner));
            sub_points(s, i, d);
            assert(s[i + 0] == d[0]);
            assert(s[i] == '\'');
            let di = display_text(*inner);
            assert(s.subrange(i + 1, i + 1 + di.len()) =~= di) by {
                assert forall|m: int| 0 <= m < di.len() implies s.subrange(
                    i + 1,
                    i + 1 + di.len(),
                )[m] == di[m] by {
                    assert(s[i + (1 + m)] == d[1 + m]);
                }
            }
            tok_value(s, i + 1, *inner);
            assert(spec_tokenize(s, i) == cons_token(TokenV::Quote, spec_tokenize(s, i + 1)));
            cons_cons(TokenV::Quote, tokens_of(*inner), spec_tokenize(s, j));
            assert(seq![TokenV::Quote] + tokens_of(*inner) == tokens_of(o));
        },
        ObjV::List(items) => {
            proof_strlit_parens();
            assert(d == "("@ + display_items(items) + ")"@);
            sub_points(s, i, d);
            assert(s[i + 0] == d[0]);
            assert(s[i] == '(');
            assert(spec_tokenize(s, i) == cons_token(TokenV::LParen, spec_tokenize(s, i + 1)));
            let mid = display_items(items);
            assert(s.subrange(i + 1, i + 1 + mid.len()) =~= mid) by {
                assert forall|m: int| 0 <= m < mid.len() implies s.subrange(
                    i + 1,
                    i + 1 + mid.len(),
                )[m] == mid[m] by {
                    assert(s[i + (1 + m)] == d[1 + m]);
                }
            }
            assert(s[i + (1 + mid.len())] == d[(1 + mid.len()) as int]);
            assert(s[i + 1 + mid.len()] == ')');
            tok_items(s, i + 1, items);
            assert(spec_tokenize(s, i + 1 + mid.len()) == cons_token(
                TokenV::RParen,
                spec_tokenize(s, j),
            ));
            assert(is_delim(')'));
            cons_all(items, s, j, mid.len() as int);
        },
        _ => {},
    }
}

/// Prepending one token then a sequence equals prepending their sum.
proof fn cons_cons(t: TokenV, ts: Seq<TokenV>, rest: Option<Seq<TokenV>>)
    ensures
        cons_token(t, cons_tokens(ts, rest)) == cons_tokens(seq![t] + ts, rest),
{
    match rest {
        Some(more) => {
            assert(seq![t] + (ts + more) =~= (seq![t] + ts) + more);
        },
        None => {},
    }
}

/// One classified token is its own one-token sequence.
proof fn unfold_cons(t: TokenV, ts: Seq<TokenV>, rest: Option<Seq<TokenV>>)
    requires
        ts == seq![t],
    ensures
        cons_token(t, rest) == cons_tokens(ts, rest),
{
    match rest {
        Some(more) => {
            assert(seq![t] + more =~= ts + more);
        },
        None => {},
    }
}

/// Collects the list case: paren tokens around the element tokens.
proof fn cons_all(items: Seq<ObjV>, s: Seq<char>, j: int, midlen: int)
    requires
        spec_tokenize(s, j - midlen - 2 + 1) == cons_tokens(
            tokens_of_items(items),
            cons_token(TokenV::RParen, spec_tokenize(s, j)),
        ),
        spec_tokenize(s, j - midlen - 2) == cons_token(
            TokenV::LParen,
            spec_tokenize(s, j - midlen - 2 + 1),
        ),
    ensures
        spec_tokenize(s, j - midlen - 2) == cons_tokens(
            seq![TokenV::LParen] + tokens_of_items(items) + seq![TokenV::RParen],
            spec_tokenize(s, j),
        ),
{
    match spec_tokenize(s, j) {
        Some(rest) => {
            assert(seq![TokenV::LParen] + (tokens_of_items(items) + (seq![TokenV::RParen] + rest))
                =~= (seq![TokenV::LParen] + tokens_of_items(items) + seq![TokenV::RParen]) + rest);
        },
        None => {},
    }
}

/// The display texts of list elements tokenize to their token sequences; a
/// closing parenthesis follows the last.
proof fn tok_items(s: Seq<char>, i: int, items: Seq<ObjV>)
    requires
        forall|k: int| 0 <= k < items.len() ==> round_trippable(#[trigger] items[k]),
        0 <= i,
        i + display_items(items).len() < s.len(),
        s.subrange(i, i + display_items(items).len()) == display_items(items),
        s[i + display_items(items).len()] == ')',
    ensures
        spec_tokenize(s, i) == cons_tokens(
            tokens_of_items(items),
            spec_tokenize(s, i + display_items(items).len()),
        ),
    decreases items, 0int,
{
    let mid = display_items(items);
    let j = i + mid.len();
    if items.len() == 0 {
        assert(tokens_of_items(items) == Seq::<TokenV>::empty());
        match spec_tokenize(s, j) {
            Some(rest) => {
                assert(Seq::<TokenV>::empty() + rest =~= rest);
            },
            None => {},
        }
    } else if items.len() == 1 {
        assert(mid == display_text(items[0]));
        assert(is_delim(')'));
        tok_value(s, i, items[0]);
        assert(tokens_of_items(items) =~= tokens_of(items[0]) + tokens_of_items(
            items.drop_first(),
        ));
        assert(items.drop_first().len() == 0);
        assert(tokens_of(items[0]) + Seq::<TokenV>::empty() =~= tokens_of(items[0]));
        match spec_tokenize(s, j) {
            Some(rest) => {
                assert(cons_tokens(tokens_of(items[0]), Some(rest)) == cons_tokens(
                    tokens_of_items(items),
                    Some(rest),
                ));
            },
            None => {},
        }
    } else {
        display_items_front(items);
        let d0 = display_text(items[0]);
        let drest = display_items(items.drop_first());
        assert(mid == d0 + " "@ + drest);
        proof_strlit_space();
        sub_points(s, i, mid);
        assert(s.subrange(i, i + d0.len()) =~= d0) by {
            assert forall|m: int| 0 <= m < d0.len() implies s.subrange(i, i + d0.len())[m]
                == d0[m] by {
                assert(s[i + m] == mid[m]);
            }
        }
        assert(s[i + d0.len()] == mid[d0.len() as int]);
        assert(s[i + d0.len()] == ' ');
        assert(is_delim(' '));
        tok_value(s, i, items[0]);
        assert(spec_tokenize(s, i + d0.len()) == spec_tokenize(s, i + d0.len() + 1));
        assert(s.subrange(i + d0.len() + 1, i + d0.len() + 1 + drest.len()) =~= drest) by {
            assert forall|m: int| 0 <= m < drest.len() implies s.subrange(
                i + d0.len() + 1,
                i + d0.len() + 1 + drest.len(),
            )[m] == drest[m] by {
                assert(s[i + (d0.len() + 1 + m)] == mid[d0.len() + 1 + m]);
            }
        }
        assert(i + d0.len() + 1 + drest.len() == j);
        tok_items(s, i + d0.len() + 1, items.drop_first());
        match spec_tokenize(s, j) {
            Some(rest) => {
                assert(tokens_of(items[0]) + (tokens_of_items(items.drop_first()) + rest) =~= (
                tokens_of(items[0]) + tokens_of_items(items.drop_first())) + rest);
                assert(tokens_of_items(items) == tokens_of(items[0]) + tokens_of_items(
                    items.drop_first(),
                ));
            },
            None => {},
        }
    }
}

/// The quote character is no delimiter and is the quote token's spelling.
proof fn proof_strlit_quote()
    ensures
        "'"@ == seq!['\''],
        "'"@.len() == 1,
{
    reveal_strlit("'");
    assert("'"@ =~= seq!['\'']);
}

/// The paren characters, revealed.
proof fn proof_strlit_parens()
    ensures
        "("@ == seq!['('],
        ")"@ == seq![')'],
{
    reveal_strlit("(");
    reveal_strlit(")");
    assert("("@ =~= seq!['(']);
    assert(")"@ =~= seq![')']);
}

/// The space character, revealed.
proof fn proof_strlit_space()
    ensures
        " "@ == seq![' '],
{
    reveal_strlit(" ");
    assert(" "@ =~= seq![' ']);
}

/// The word `cond` is word shaped: its letters are no delimiters and it
/// reads as no number.
proof fn cond_word_facts()
    ensures
        "cond"@.len() == 4,
        forall|m: int| 0 <= m < "cond"@.len() ==> !is_delim(#[trigger] "cond"@[m]),
        "cond"@[0] != '\'' && "cond"@[0] != '"' && "cond"@[0] != ';',
        !is_i64_text("cond"@),
        !is_f64_text("cond"@),
        classify_word("cond"@) == TokenV::Symbol("cond"@),
        atom_objv(TokenV::Symbol("cond"@)) == Ok::<ObjV, ()>(ObjV::Cond),
{
    reveal_strlit("cond");
    let t = "cond"@;
    assert(t.len() == 4);
    assert(t[0] == 'c' && t[1] == 'o' && t[2] == 'n' && t[3] == 'd');
    assert(!is_i64_text(t)) by {
        assert(crate::words::strip_sign(t) == t);
        assert(!is_digit(t[0]));
    }
    assert(!is_f64_text(t)) by {
        assert(crate::words::strip_sign(t) == t);
        assert(crate::words::lower_all(t).len() != "inf"@.len()) by {
            reveal_strlit("inf");
        }
        assert(crate::words::lower_all(t).len() != "infinity"@.len()) by {
            reveal_strlit("infinity");
        }
        assert(crate::words::lower_all(t).len() != "nan"@.len()) by {
            reveal_strlit("nan");
        }
        assert(!crate::words::is_decimal_body(t)) by {
            crate::words::find_exp_is_first(t);
            assert(crate::words::find_exp(t) == t.len()) by {
                crate::words::find_exp_is_first(t);
                if crate::words::find_exp(t) < t.len() {
                    assert(t[crate::words::find_exp(t)] == 'e' || t[crate::words::find_exp(t)]
                        == 'E');
                }
            }
            crate::words::find_dot_is_first(t);
            if crate::words::find_dot(t) == t.len() {
                assert(!is_digit(t[0]));
            } else {
                assert(t[crate::words::find_dot(t)] == '.');
            }
        }
    }
    assert(!kw_word(t)) by {
        reveal_strlit("define");
        reveal_strlit("defun");
        reveal_strlit("lambda");
        reveal_strlit("let");
        reveal_strlit("do");
    }
    assert(!op_word(t)) by {
        reveal_strlit("+");
        reveal_strlit("-");
        reveal_strlit("*");
        reveal_strlit("/");
        reveal_strlit("<");
        reveal_strlit(">");
        reveal_strlit("=");
        reveal_strlit("==");
        reveal_strlit("%");
        reveal_strlit("or");
        reveal_strlit("and");
    }
}

/// One extra pending quote wraps as one more quote layer.
proof fn quote_wrap_shift(o: ObjV, q: nat)
    ensures
        quote_wrap(o, q + 1) == quote_wrap(ObjV::Quote(Box::new(o)), q),
    decreases q,
{
    if q == 0 {
        assert(quote_wrap(o, 1) == ObjV::Quote(Box::new(quote_wrap(o, 0))));
        assert(quote_wrap(o, 0) == o);
        assert(quote_wrap(ObjV::Quote(Box::new(o)), 0) == ObjV::Quote(Box::new(o)));
    } else {
        quote_wrap_shift(o, (q - 1) as nat);
        assert(quote_wrap(o, q + 1) == ObjV::Quote(Box::new(quote_wrap(o, q))));
        assert(quote_wrap(ObjV::Quote(Box::new(o)), q) == ObjV::Quote(
            Box::new(quote_wrap(ObjV::Quote(Box::new(o)), (q - 1) as nat)),
        ));
    }
}

/// Feeding a round-trippable value's tokens to the reader appends the value
/// to the top frame.
proof fn parse_value(ts: Seq<TokenV>, i: int, stack: Seq<PFrame>, o: ObjV)
    requires
        round_trippable(o),
        0 <= i,
        i + tokens_of(o).len() <= ts.len(),
        ts.subrange(i, i + tokens_of(o).len()) == tokens_of(o),
        stack.len() > 0,
    ensures
        spec_parse_run(ts, i, stack) == spec_parse_run(
            ts,
            i + tokens_of(o).len(),
            stack_push_value(stack, o),
        ),
    decreases o, 1int,
{
    let n = tokens_of(o).len();
    assert(forall|m: int| i <= m < i + n ==> ts[m] == tokens_of(o)[m - i]);
    match o {
        ObjV::Integer(_n2) => {
            assert(ts[i] == TokenV::Integer(_n2));
            assert(atom_objv(ts[i]) == Ok::<ObjV, ()>(o));
        },
        ObjV::Cond => {
            cond_word_facts();
            assert(ts[i] == TokenV::Symbol("cond"@));
            assert(atom_objv(ts[i]) == Ok::<ObjV, ()>(o));
        },
        ObjV::Symbol(w) => {
            assert(ts[i] == TokenV::Symbol(w));
            assert(atom_objv(ts[i]) == Ok::<ObjV, ()>(o));
        },
        ObjV::Keyword(w) => {
            assert(ts[i] == TokenV::Symbol(w));
            assert(atom_objv(ts[i]) == Ok::<ObjV, ()>(o));
        },
        ObjV::Operator(w) => {
            assert(ts[i] == TokenV::Symbol(w));
            assert(atom_objv(ts[i]) == Ok::<ObjV, ()>(o));
        },
        ObjV::Quote(inner) => {
            assert(ts[i] == TokenV::Quote);
            let top = stack.last();
            let stack2 = stack.update(
                stack.len() - 1,
                PFrame { items: top.items, quotes: top.quotes + 1 },
            );
            sub_points(ts, i, tokens_of(o));
            assert(ts.subrange(i + 1, i + 1 + tokens_of(*inner).len()) =~= tokens_of(*inner)) by {
                assert forall|m: int| 0 <= m < tokens_of(*inner).len() implies ts.subrange(
                    i + 1,
                    i + 1 + tokens_of(*inner).len(),
                )[m] == tokens_of(*inner)[m] by {
                    assert(ts[i + (1 + m)] == tokens_of(o)[1 + m]);
                }
            }
            parse_value(ts, i + 1, stack2, *inner);
            quote_wrap_shift(*inner, top.quotes);
            assert(stack_push_value(stack2, *inner) =~= stack_push_value(stack, o));
        },
        ObjV::List(items) => {
            assert(ts[i] == TokenV::LParen);
            let stack2 = stack.push(PFrame { items: Seq::empty(), quotes: 0 });
            sub_points(ts, i, tokens_of(o));
            assert(ts.subrange(i + 1, i + 1 + tokens_of_items(items).len()) =~= tokens_of_items(
                items,
            )) by {
                assert forall|m: int| 0 <= m < tokens_of_items(items).len() implies ts.subrange(
                    i + 1,
                    i + 1 + tokens_of_items(items).len(),
                )[m] == tokens_of_items(items)[m] by {
                    assert(ts[i + (1 + m)] == tokens_of(o)[1 + m]);
                }
            }
            parse_items(ts, i + 1, stack2, items, Seq::empty());
            let j = i + 1 + tokens_of_items(items).len();
            assert(ts[i + (1 + tokens_of_items(items).len())] == tokens_of(o)[(1
                + tokens_of_items(items).len()) as int]);
            assert(ts[j] == TokenV::RParen);
            let full = stack.push(PFrame { items, quotes: 0 });
            assert(Seq::<ObjV>::empty() + items =~= items);
            assert(stack2.update(stack2.len() - 1, (PFrame { items, quotes: 0 as nat })) =~= full);
            assert(spec_parse_run(ts, i + 1, stack2) == spec_parse_run(ts, j, full));
            assert(full.len() > 1);
            assert(full.last().quotes == 0);
            assert(full.drop_last() =~= stack);
            assert(spec_parse_run(ts, j, full) == spec_parse_run(
                ts,
                j + 1,
                stack_push_value(stack, ObjV::List(full.last().items)),
            ));
        },
        _ => {},
    }
}

/// Feeding each element's tokens in turn collects the elements in the open
/// frame.
proof fn parse_items(
    ts: Seq<TokenV>,
    i: int,
    stack: Seq<PFrame>,
    items: Seq<ObjV>,
    done: Seq<ObjV>,
)
    requires
        forall|k: int| 0 <= k < items.len() ==> round_trippable(#[trigger] items[k]),
        0 <= i,
        i + tokens_of_items(items).len() <= ts.len(),
        ts.subrange(i, i + tokens_of_items(items).len()) == tokens_of_items(items),
        stack.len() > 1,
        stack.last() == (PFrame { items: done, quotes: 0 as nat }),
    ensures
        spec_parse_run(ts, i, stack) == spec_parse_run(
            ts,
            i + tokens_of_items(items).len(),
            stack.update(stack.len() - 1, (PFrame { items: done + items, quotes: 0 as nat })),
        ),
    decreases items, 0int,
{
    if items.len() == 0 {
        assert(done + items =~= done);
        assert(stack.update(stack.len() - 1, PFrame { items: done, quotes: 0 as nat }) =~= stack);
    } else {
        let t0 = tokens_of(items[0]);
        assert(tokens_of_items(items) == t0 + tokens_of_items(items.drop_first()));
        assert(ts.subrange(i, i + t0.len()) =~= t0);
        sub_points(ts, i, tokens_of_items(items));
        assert(ts.subrange(i, i + t0.len()) =~= t0) by {
            assert forall|m: int| 0 <= m < t0.len() implies ts.subrange(i, i + t0.len())[m]
                == t0[m] by {
                assert(ts[i + m] == tokens_of_items(items)[m]);
            }
        }
        parse_value(ts, i, stack, items[0]);
        let stack2 = stack_push_value(stack, items[0]);
        assert(stack2.len() == stack.len());
        assert(quote_wrap(items[0], 0) == items[0]);
        assert(stack2.last() == (PFrame { items: done.push(items[0]), quotes: 0 as nat }));
        assert(ts.subrange(
            i + t0.len(),
            i + t0.len() + tokens_of_items(items.drop_first()).len(),
        ) =~= tokens_of_items(items.drop_first())) by {
            assert forall|m: int|
                0 <= m < tokens_of_items(items.drop_first()).len() implies ts.subrange(
                i + t0.len(),
                i + t0.len() + tokens_of_items(items.drop_first()).len(),
            )[m] == tokens_of_items(items.drop_first())[m] by {
                assert(ts[i + (t0.len() + m)] == tokens_of_items(items)[t0.len() + m]);
            }
        }
        parse_items(ts, i + t0.len(), stack2, items.drop_first(), done.push(items[0]));
        assert(done.push(items[0]) + items.drop_first() =~= done + items);
        assert(stack2.update(
            stack2.len() - 1,
            PFrame { items: done + items, quotes: 0 as nat },
        ) =~= stack.update(stack.len() - 1, PFrame { items: done + items, quotes: 0 as nat }));
    }
}

/// Printing and reading back: parsing the display text of a round-trippable
/// value yields the value itself.
pub proof fn parse_display_round_trip(o: ObjV)
    requires
        round_trippable(o),
    ensures
        spec_parse(display_text(o)) == Ok::<ObjV, ()>(o),
{
    let d = display_text(o);
    assert(d.subrange(0, d.len() as int) =~= d);
    tok_value(d, 0, o);
    assert(spec_tokenize(d, d.len() as int) == Some(Seq::<TokenV>::empty()));
    let ts = tokens_of(o);
    assert(spec_tokenize(d, 0) == Some(ts + Seq::<TokenV>::empty()));
    assert(ts + Seq::<TokenV>::empty() =~= ts);
    let init = seq![PFrame { items: Seq::<ObjV>::empty(), quotes: 0 as nat }];
    assert(ts.subrange(0, ts.len() as int) =~= ts);
    parse_value(ts, 0, init, o);
    let fin = stack_push_value(init, o);
    assert(fin.last().quotes == 0);
    assert(fin.len() == 1);
    assert(fin[0].items =~= seq![o]);
    assert(spec_parse_run(ts, ts.len() as int, fin) == Ok::<ObjV, ()>(o));
}

/// Display is idempotent across a read: re-parsing the display text of a
/// round-trippable value and displaying again yields the same text.
pub proof fn display_round_trip_idempotent(o: ObjV)
    requires
        round_trippable(o),
    ensures
        spec_parse(display_text(o)) is Ok,
        display_text(spec_parse(display_text(o))->Ok_0) == display_text(o),
{
    parse_display_round_trip(o);
}

} // verus!
