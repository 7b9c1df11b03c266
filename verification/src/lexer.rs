//! The lexer: raw text to a flat token sequence, in one left-to-right scan
//! with no lookahead beyond one character.
//!
//! `(` and `)` always terminate the current word; `"` opens a string literal
//! that runs verbatim to the next `"`; `;` discards the rest of the line;
//! `'` is a standalone quote token; space, tab and newline separate words.
//! Any other run of characters is a word, classified as an integer, a
//! double, or a bare symbol; keyword, operator and `cond` classification is
//! deferred to the reader.

use vstd::prelude::*;

use crate::words::{
    chars_is_f64, chars_parse_i64, chars_to_string, f64_word_val, is_f64_text, is_i64_text,
    i64_of_text, word_float_bits,
};

verus! {

/// The mathematical shape of a token.
pub ghost enum TokenV {
    Integer(i64),
    Float(u64),
    Str(Seq<char>),
    Operator(Seq<char>),
    Keyword(Seq<char>),
    Symbol(Seq<char>),
    Quote,
    Cond,
    LParen,
    RParen,
}

/// A token.  A float is carried as the bits of its IEEE-754 encoding.
#[derive(Debug, PartialEq)]
pub enum Token {
    Integer(i64),
    Float(u64),
    String(String),
    Operator(String),
    Keyword(String),
    Symbol(String),
    Quote,
    Cond,
    LParen,
    RParen,
}

impl View for Token {
    type V = TokenV;

    open spec fn view(&self) -> TokenV {
        match self {
            Token::Integer(n) => TokenV::Integer(*n),
            Token::Float(bits) => TokenV::Float(*bits),
            Token::String(s) => TokenV::Str(s@),
            Token::Operator(s) => TokenV::Operator(s@),
            Token::Keyword(s) => TokenV::Keyword(s@),
            Token::Symbol(s) => TokenV::Symbol(s@),
            Token::Quote => TokenV::Quote,
            Token::Cond => TokenV::Cond,
            Token::LParen => TokenV::LParen,
            Token::RParen => TokenV::RParen,
        }
    }
}

/// The shapes of a sequence of tokens, elementwise.
pub open spec fn token_views(ts: Seq<Token>) -> Seq<TokenV> {
    Seq::new(ts.len(), |i: int| ts[i]@)
}

/// Tokenization failed: the input ended inside a string literal.
#[derive(Debug)]
pub struct TokenError {
    err: String,
}

impl View for TokenError {
    type V = Seq<char>;

    closed spec fn view(&self) -> Seq<char> {
        self.err@
    }
}

impl TokenError {
    /// The error's message.
    pub fn text(&self) -> (r: String)
        ensures
            r@ == self@,
    {
        self.err.clone()
    }
}

/// Is `c` one of the whitespace characters that separate words?
pub open spec fn is_ws(c: char) -> bool {
    c == ' ' || c == '\n' || c == '\t'
}

/// Does `c` end a word?
pub open spec fn is_delim(c: char) -> bool {
    is_ws(c) || c == '(' || c == ')'
}

/// How a finished word reads as a token: a 64-bit integer first, then a
/// double, else a bare symbol.  Keyword, operator and `cond` classification
/// is the reader's job, not the lexer's.
pub open spec fn classify_word(w: Seq<char>) -> TokenV {
    if is_i64_text(w) {
        TokenV::Integer(i64_of_text(w))
    } else if is_f64_text(w) {
        TokenV::Float(f64_word_val(w))
    } else {
        TokenV::Symbol(w)
    }
}

/// The tokens of `s` from position `i` on; `None` when the input ends
/// inside a string literal.
pub open spec fn spec_tokenize(s: Seq<char>, i: int) -> Option<Seq<TokenV>>
    decreases s.len() - i, 0int,
{
    if i < 0 || i >= s.len() {
        Some(Seq::empty())
    } else if s[i] == '(' {
        cons_token(TokenV::LParen, spec_tokenize(s, i + 1))
    } else if s[i] == ')' {
        cons_token(TokenV::RParen, spec_tokenize(s, i + 1))
    } else if s[i] == '\'' {
        cons_token(TokenV::Quote, spec_tokenize(s, i + 1))
    } else if s[i] == '"' {
        spec_string_token(s, i + 1, Seq::empty())
    } else if s[i] == ';' {
        spec_skip_comment(s, i + 1)
    } else if is_ws(s[i]) {
        spec_tokenize(s, i + 1)
    } else {
        spec_word_token(s, i + 1, seq![s[i]])
    }
}

/// Prepends a token to a tokenization outcome.
pub open spec fn cons_token(t: TokenV, rest: Option<Seq<TokenV>>) -> Option<Seq<TokenV>> {
    match rest {
        Some(ts) => Some(seq![t] + ts),
        None => None,
    }
}

/// Scans the inside of a string literal begun before `i`, with `acc` the
/// characters read so far.
pub open spec fn spec_string_token(s: Seq<char>, i: int, acc: Seq<char>) -> Option<Seq<TokenV>>
    decreases s.len() - i, 1int,
{
    if i < 0 || i >= s.len() {
        None
    } else if s[i] == '"' {
        cons_token(TokenV::Str(acc), spec_tokenize(s, i + 1))
    } else {
        spec_string_token(s, i + 1, acc.push(s[i]))
    }
}

/// Discards a comment through the end of its line.
pub open spec fn spec_skip_comment(s: Seq<char>, i: int) -> Option<Seq<TokenV>>
    decreases s.len() - i, 1int,
{
    if i < 0 || i >= s.len() {
        Some(Seq::empty())
    } else if s[i] == '\n' {
        spec_tokenize(s, i + 1)
    } else {
        spec_skip_comment(s, i + 1)
    }
}

/// Scans a word begun before `i`, with `acc` the characters read so far.
pub open spec fn spec_word_token(s: Seq<char>, i: int, acc: Seq<char>) -> Option<Seq<TokenV>>
    decreases s.len() - i, 1int,
{
    if i < 0 || i >= s.len() {
        Some(seq![classify_word(acc)])
    } else if is_delim(s[i]) {
        cons_token(classify_word(acc), spec_tokenize(s, i))
    } else {
        spec_word_token(s, i + 1, acc.push(s[i]))
    }
}

/// Relies on `str::chars`: the characters of a string slice, in order.
#[verifier::external_body]
pub(crate) fn str_chars(s: &str) -> (r: Vec<char>)
    ensures
        r@ == s@,
{
    s.chars().collect()
}

/// Classifies a finished word as a token.
fn word_token(word: Vec<char>) -> (r: Token)
    ensures
        r@ == classify_word(word@),
{
    match chars_parse_i64(&word) {
        Some(v) => Token::Integer(v),
        None => {
            if chars_is_f64(&word) {
                Token::Float(word_float_bits(&word))
            } else {
                Token::Symbol(chars_to_string(&word))
            }
        },
    }
}

/// Turns source text into its token sequence, or reports the string literal
/// the input ended inside of.
#[verifier::loop_isolation(false)]
pub fn tokenize(input: &str) -> (r: Result<Vec<Token>, TokenError>)
    ensures
        match r {
            Ok(tokens) => spec_tokenize(input@, 0) == Some(token_views(tokens@)),
            Err(_) => spec_tokenize(input@, 0) is None,
        },
{
    let chars = str_chars(input);
    let ghost s = input@;
    let n = chars.len();
    let mut tokens: Vec<Token> = Vec::new();
    let mut i: usize = 0;

    while i < n
        invariant
            i <= n,
            spec_tokenize(s, 0) == cons_tokens(token_views(tokens@), spec_tokenize(s, i as int)),
        decreases n - i,
    {
        let c = chars[i];
        if c == '(' {
            tokens.push(Token::LParen);
            proof {
                push_step(s, tokens@, spec_tokenize(s, i + 1));
            }
            i = i + 1;
        } else if c == ')' {
            tokens.push(Token::RParen);
            proof {
                push_step(s, tokens@, spec_tokenize(s, i + 1));
            }
            i = i + 1;
        } else if c == '\'' {
            tokens.push(Token::Quote);
            proof {
                push_step(s, tokens@, spec_tokenize(s, i + 1));
            }
            i = i + 1;
        } else if c == '"' {
            let mut word: Vec<char> = Vec::new();
            let mut j: usize = i + 1;
            while j < n && chars[j] != '"'
                invariant
                    i + 1 <= j <= n,
                    spec_string_token(s, i + 1, Seq::empty()) == spec_string_token(
                        s,
                        j as int,
                        word@,
                    ),
                decreases n - j,
            {
                word.push(chars[j]);
                j = j + 1;
            }
            if j >= n {
                return Err(
                    TokenError {
                        err: String::from_str("Unterminated string: ").concat(
                            chars_to_string(&word).as_str(),
                        ),
                    },
                );
            }
            let text = chars_to_string(&word);
            tokens.push(Token::String(text));
            proof {
                push_step(s, tokens@, spec_tokenize(s, j + 1));
            }
            i = j + 1;
        } else if c == ';' {
            let mut j: usize = i + 1;
            while j < n && chars[j] != '\n'
                invariant
                    i + 1 <= j <= n,
                    spec_skip_comment(s, i + 1) == spec_skip_comment(s, j as int),
                decreases n - j,
            {
                j = j + 1;
            }
            if j < n {
                i = j + 1;
            } else {
                i = j;
                proof {
                    assert(spec_skip_comment(s, j as int) == Some(Seq::<TokenV>::empty()));
                    assert(spec_tokenize(s, j as int) == Some(Seq::<TokenV>::empty()));
                }
            }
        } else if c == ' ' || c == '\n' || c == '\t' {
            i = i + 1;
        } else {
            let mut word: Vec<char> = Vec::new();
            word.push(c);
            let mut j: usize = i + 1;
            proof {
                assert(word@ =~= seq![s[i as int]]);
            }
            while j < n && !(chars[j] == ' ' || chars[j] == '\n' || chars[j] == '\t' || chars[j]
                == '(' || chars[j] == ')')
                invariant
                    i + 1 <= j <= n,
                    spec_word_token(s, i + 1, seq![s[i as int]]) == spec_word_token(
                        s,
                        j as int,
                        word@,
                    ),
                decreases n - j,
            {
                word.push(chars[j]);
                j = j + 1;
            }
            let tok = word_token(word);
            let ghost w = tok@;
            tokens.push(tok);
            proof {
                if j < n {
                    push_step(s, tokens@, spec_tokenize(s, j as int));
                } else {
                    push_step(s, tokens@, Some(Seq::<TokenV>::empty()));
                    assert(cons_token(w, Some(Seq::<TokenV>::empty())) == Some(seq![w] + Seq::<
                        TokenV,
                    >::empty()));
                    assert(seq![w] + Seq::<TokenV>::empty() =~= seq![w]);
                }
            }
            i = j;
        }
    }
    proof {
        assert(token_views(tokens@) + Seq::<TokenV>::empty() =~= token_views(tokens@));
    }
    Ok(tokens)
}

/// Appends finished tokens in front of a tokenization outcome.
pub open spec fn cons_tokens(ts: Seq<TokenV>, rest: Option<Seq<TokenV>>) -> Option<Seq<TokenV>> {
    match rest {
        Some(more) => Some(ts + more),
        None => None,
    }
}

/// Moving one token from the head of the remainder onto the finished
/// sequence keeps the whole outcome.
proof fn push_step(s: Seq<char>, done: Seq<Token>, rest: Option<Seq<TokenV>>)
    requires
        done.len() > 0,
    ensures
        cons_tokens(token_views(done.drop_last()), cons_token(done.last()@, rest)) == cons_tokens(
            token_views(done),
            rest,
        ),
{
    match rest {
        Some(more) => {
            assert(token_views(done.drop_last()) + (seq![done.last()@] + more) =~= token_views(
                done,
            ) + more);
        },
        None => {},
    }
}

} // verus!
