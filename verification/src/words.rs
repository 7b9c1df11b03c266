//! The numeric word forms the lexer classifies: decimal 64-bit integers and
//! the decimal double grammar (optional sign; digits with an optional dot on
//! either side; an optional exponent; the spellings of infinity and NaN,
//! case-insensitively).  Integer text is parsed and printed by verified
//! code; only a double's value comes from the soft-float library.

use vstd::prelude::*;

use crate::double::{parse_double, double_of_decimal, INF_BITS, NAN_BITS, SIGN_BIT};

verus! {

/// Is `c` a decimal digit?
pub open spec fn is_digit(c: char) -> bool {
    48 <= c as u32 <= 57
}

/// The value of a decimal digit.
pub open spec fn digit_val(c: char) -> int {
    c as u32 - 48
}

/// The decimal digit character for `d` in 0..10.
pub open spec fn digit_char(d: int) -> char {
    ((d + 48) as u8) as char
}

/// Is every character of `s` a decimal digit?
pub open spec fn all_digits(s: Seq<char>) -> bool {
    forall|i: int| 0 <= i < s.len() ==> is_digit(#[trigger] s[i])
}

/// The number a string of decimal digits denotes.
pub open spec fn dec_value(s: Seq<char>) -> int
    decreases s,
{
    if s.len() == 0 {
        0
    } else {
        dec_value(s.drop_last()) * 10 + digit_val(s.last())
    }
}

/// `s` without one leading sign character, if it has one.
pub open spec fn strip_sign(s: Seq<char>) -> Seq<char> {
    if s.len() > 0 && (s[0] == '+' || s[0] == '-') {
        s.drop_first()
    } else {
        s
    }
}

/// Does `s` start with a minus sign?
pub open spec fn is_neg_text(s: Seq<char>) -> bool {
    s.len() > 0 && s[0] == '-'
}

/// Is `s` the decimal text of a 64-bit signed integer?
pub open spec fn is_i64_text(s: Seq<char>) -> bool {
    let ds = strip_sign(s);
    &&& ds.len() > 0
    &&& all_digits(ds)
    &&& if is_neg_text(s) {
        -dec_value(ds) >= i64::MIN
    } else {
        dec_value(ds) <= i64::MAX
    }
}

/// The 64-bit integer decimal text denotes.
pub open spec fn i64_of_text(s: Seq<char>) -> i64 {
    if is_neg_text(s) {
        (-dec_value(strip_sign(s))) as i64
    } else {
        dec_value(strip_sign(s)) as i64
    }
}

/// The decimal text of a 64-bit integer: a minus sign when negative, then
/// the magnitude's digits without leading zeros.
pub open spec fn i64_text(n: i64) -> Seq<char> {
    if n < 0 {
        seq!['-'] + nat_text(-(n as int))
    } else {
        nat_text(n as int)
    }
}

/// The decimal digits of a nonnegative number.
pub open spec fn nat_text(v: int) -> Seq<char>
    decreases v,
{
    if v < 10 {
        seq![digit_char(if v < 0 { 0 } else { v })]
    } else {
        nat_text(v / 10).push(digit_char(v % 10))
    }
}

/// A digit string is nonnegative.
pub proof fn dec_value_nonneg(s: Seq<char>)
    requires
        all_digits(s),
    ensures
        dec_value(s) >= 0,
    decreases s,
{
    if s.len() > 0 {
        assert(all_digits(s.drop_last()));
        dec_value_nonneg(s.drop_last());
    }
}

/// Extending a digit string on the right can only grow its value.
pub proof fn dec_value_take_mono(s: Seq<char>, j: int)
    requires
        all_digits(s),
        0 <= j <= s.len(),
    ensures
        dec_value(s.take(j)) <= dec_value(s),
        dec_value(s.take(j)) >= 0,
    decreases s.len() - j,
{
    assert(all_digits(s.take(j)));
    dec_value_nonneg(s.take(j));
    if j < s.len() {
        dec_value_take_mono(s, j + 1);
        assert(s.take(j + 1).drop_last() =~= s.take(j));
        assert(dec_value(s.take(j + 1)) == dec_value(s.take(j)) * 10 + digit_val(s[j]));
    } else {
        assert(s.take(j) =~= s);
    }
}

/// The digits a nonnegative number prints as read back as that number.
pub proof fn nat_text_value(v: int)
    requires
        v >= 0,
    ensures
        all_digits(nat_text(v)),
        dec_value(nat_text(v)) == v,
        nat_text(v).len() > 0,
        is_digit(nat_text(v)[0]),
    decreases v,
{
    if v < 10 {
        assert(nat_text(v) =~= seq![digit_char(v)]);
        assert(seq![digit_char(v)].drop_last() =~= Seq::<char>::empty());
        assert(dec_value(Seq::<char>::empty()) == 0);
        assert(digit_char(v) as u32 == v + 48);
        assert(dec_value(nat_text(v)) == digit_val(digit_char(v)));
    } else {
        nat_text_value(v / 10);
        assert(nat_text(v).drop_last() =~= nat_text(v / 10));
        assert(nat_text(v)[0] == nat_text(v / 10)[0]);
        assert(all_digits(nat_text(v))) by {
            assert(forall|i: int|
                0 <= i < nat_text(v).len() - 1 ==> #[trigger] nat_text(v)[i] == nat_text(v / 10)[i]);
        }
    }
}

/// Printing a 64-bit integer and reading the text back yields the integer.
pub proof fn i64_text_round_trip(n: i64)
    ensures
        is_i64_text(i64_text(n)),
        i64_of_text(i64_text(n)) == n,
        i64_text(n).len() > 0,
    decreases n,
{
    if n < 0 {
        nat_text_value(-(n as int));
        assert(strip_sign(i64_text(n)) =~= nat_text(-(n as int)));
    } else {
        nat_text_value(n as int);
        assert(strip_sign(i64_text(n)) =~= nat_text(n as int));
    }
}

/// The first index at which an exponent marker appears, or the length.
pub open spec fn find_exp(s: Seq<char>) -> int
    decreases s,
{
    if s.len() == 0 {
        0
    } else if s[0] == 'e' || s[0] == 'E' {
        0
    } else {
        1 + find_exp(s.drop_first())
    }
}

/// The first index at which a dot appears, or the length.
pub open spec fn find_dot(s: Seq<char>) -> int
    decreases s,
{
    if s.len() == 0 {
        0
    } else if s[0] == '.' {
        0
    } else {
        1 + find_dot(s.drop_first())
    }
}

/// `find_exp` is the index of the first exponent marker.
pub proof fn find_exp_is_first(s: Seq<char>)
    ensures
        0 <= find_exp(s) <= s.len(),
        forall|j: int| 0 <= j < find_exp(s) ==> #[trigger] s[j] != 'e' && s[j] != 'E',
        find_exp(s) < s.len() ==> s[find_exp(s)] == 'e' || s[find_exp(s)] == 'E',
    decreases s,
{
    if s.len() > 0 && !(s[0] == 'e' || s[0] == 'E') {
        find_exp_is_first(s.drop_first());
        assert forall|j: int| 0 <= j < find_exp(s) implies #[trigger] s[j] != 'e' && s[j]
            != 'E' by {
            if j > 0 {
                assert(s[j] == s.drop_first()[j - 1]);
            }
        }
    }
}

/// `find_dot` is the index of the first dot.
pub proof fn find_dot_is_first(s: Seq<char>)
    ensures
        0 <= find_dot(s) <= s.len(),
        forall|j: int| 0 <= j < find_dot(s) ==> #[trigger] s[j] != '.',
        find_dot(s) < s.len() ==> s[find_dot(s)] == '.',
    decreases s,
{
    if s.len() > 0 && s[0] != '.' {
        find_dot_is_first(s.drop_first());
        assert forall|j: int| 0 <= j < find_dot(s) implies #[trigger] s[j] != '.' by {
            if j > 0 {
                assert(s[j] == s.drop_first()[j - 1]);
            }
        }
    }
}

/// A mantissa: digits with at most one dot and at least one digit in all.
pub open spec fn is_mantissa(s: Seq<char>) -> bool {
    let d = find_dot(s);
    if d == s.len() {
        s.len() > 0 && all_digits(s)
    } else {
        let before = s.take(d);
        let after = s.skip(d + 1);
        all_digits(before) && all_digits(after) && before.len() + after.len() > 0
    }
}

/// An exponent body: an optional sign, then at least one digit.
pub open spec fn is_exponent(s: Seq<char>) -> bool {
    let ds = strip_sign(s);
    ds.len() > 0 && all_digits(ds)
}

/// An unsigned decimal double: a mantissa, optionally followed by an
/// exponent marker and an exponent.
pub open spec fn is_decimal_body(s: Seq<char>) -> bool {
    let e = find_exp(s);
    if e == s.len() {
        is_mantissa(s)
    } else {
        is_mantissa(s.take(e)) && is_exponent(s.skip(e + 1))
    }
}

/// The lower-case image of an ASCII letter; other characters are unchanged.
pub open spec fn lower(c: char) -> char {
    if 65 <= c as u32 <= 90 {
        ((c as u32 + 32) as u8) as char
    } else {
        c
    }
}

/// `s` lower-cased character by character.
pub open spec fn lower_all(s: Seq<char>) -> Seq<char> {
    Seq::new(s.len(), |i: int| lower(s[i]))
}

/// Is `s` (unsigned) a spelling of infinity, case-insensitively?
pub open spec fn is_inf_body(s: Seq<char>) -> bool {
    lower_all(s) == "inf"@ || lower_all(s) == "infinity"@
}

/// Is `s` (unsigned) a spelling of NaN, case-insensitively?
pub open spec fn is_nan_body(s: Seq<char>) -> bool {
    lower_all(s) == "nan"@
}

/// Is `s` the decimal text of a double: an optional sign, then a decimal
/// number, a spelling of infinity, or a spelling of NaN?
pub open spec fn is_f64_text(s: Seq<char>) -> bool {
    let b = strip_sign(s);
    is_decimal_body(b) || is_inf_body(b) || is_nan_body(b)
}

/// Relies on `String::from_iter` over `str`'s character iterator: the built
/// string holds exactly the given characters.
#[verifier::external_body]
pub(crate) fn chars_to_string(w: &Vec<char>) -> (r: String)
    ensures
        r@ == w@,
{
    w.iter().collect()
}

/// Lower-cases one ASCII letter.
pub(crate) fn lower_char(c: char) -> (r: char)
    ensures
        r == lower(c),
{
    let code: u32 = c as u32;
    if 65 <= code && code <= 90 {
        ((code + 32) as u8) as char
    } else {
        c
    }
}

/// Is every character of `w` in `from..to` a decimal digit?
#[verifier::loop_isolation(false)]
fn all_digits_range(w: &Vec<char>, from: usize, to: usize) -> (r: bool)
    requires
        from <= to <= w@.len(),
    ensures
        r == all_digits(w@.subrange(from as int, to as int)),
{
    let ghost sub = w@.subrange(from as int, to as int);
    let mut i: usize = from;
    while i < to
        invariant
            from <= i <= to,
            forall|j: int| 0 <= j < i - from ==> is_digit(#[trigger] sub[j]),
        decreases to - i,
    {
        let code: u32 = w[i] as u32;
        if !(48 <= code && code <= 57) {
            proof {
                assert(sub[i - from] == w@[i as int]);
                assert(!is_digit(sub[i - from]));
            }
            return false;
        }
        i = i + 1;
    }
    true
}

/// The index of the first exponent marker in `w` at `from..to`, or `to`.
#[verifier::loop_isolation(false)]
fn find_exp_range(w: &Vec<char>, from: usize, to: usize) -> (r: usize)
    requires
        from <= to <= w@.len(),
    ensures
        r - from == find_exp(w@.subrange(from as int, to as int)),
        from <= r <= to,
{
    let ghost sub = w@.subrange(from as int, to as int);
    let mut i: usize = from;
    while i < to
        invariant
            from <= i <= to,
            forall|j: int| 0 <= j < i - from ==> #[trigger] sub[j] != 'e' && sub[j] != 'E',
        decreases to - i,
    {
        let c = w[i];
        if c == 'e' || c == 'E' {
            proof {
                find_exp_is_first(sub);
                assert(sub[i - from] == w@[i as int]);
                if (i - from) < find_exp(sub) {
                    assert(false);
                } else if (i - from) > find_exp(sub) {
                    assert(false);
                }
            }
            return i;
        }
        i = i + 1;
    }
    proof {
        find_exp_is_first(sub);
        if find_exp(sub) < sub.len() {
            assert(false);
        }
    }
    to
}

/// The index of the first dot in `w` at `from..to`, or `to`.
#[verifier::loop_isolation(false)]
fn find_dot_range(w: &Vec<char>, from: usize, to: usize) -> (r: usize)
    requires
        from <= to <= w@.len(),
    ensures
        r - from == find_dot(w@.subrange(from as int, to as int)),
        from <= r <= to,
{
    let ghost sub = w@.subrange(from as int, to as int);
    let mut i: usize = from;
    while i < to
        invariant
            from <= i <= to,
            forall|j: int| 0 <= j < i - from ==> #[trigger] sub[j] != '.',
        decreases to - i,
    {
        let c = w[i];
        if c == '.' {
            proof {
                find_dot_is_first(sub);
                assert(sub[i - from] == w@[i as int]);
                if (i - from) < find_dot(sub) {
                    assert(false);
                } else if (i - from) > find_dot(sub) {
                    assert(false);
                }
            }
            return i;
        }
        i = i + 1;
    }
    proof {
        find_dot_is_first(sub);
        if find_dot(sub) < sub.len() {
            assert(false);
        }
    }
    to
}

/// Parses decimal 64-bit integer text, exactly for the `is_i64_text` words.
#[verifier::loop_isolation(false)]
pub(crate) fn chars_parse_i64(w: &Vec<char>) -> (r: Option<i64>)
    ensures
        match r {
            Some(v) => is_i64_text(w@) && v == i64_of_text(w@),
            None => !is_i64_text(w@),
        },
{
    let n = w.len();
    let mut start: usize = 0;
    let mut neg: bool = false;
    if n > 0 && (w[0] == '+' || w[0] == '-') {
        start = 1;
        neg = w[0] == '-';
    }
    let ghost ds = strip_sign(w@);
    proof {
        assert(ds =~= w@.subrange(start as int, n as int));
    }
    if start == n {
        return None;
    }
    let mut acc: i64 = 0;
    let mut i: usize = start;
    while i < n
        invariant
            start <= i <= n,
            all_digits(ds.take(i - start)),
            acc <= 0,
            acc == -dec_value(ds.take(i - start)),
        decreases n - i,
    {
        let code: u32 = w[i] as u32;
        proof {
            assert(ds[i - start] == w@[i as int]);
        }
        if !(48 <= code && code <= 57) {
            proof {
                assert(!is_digit(ds[i - start]));
            }
            return None;
        }
        let d: i64 = (code - 48) as i64;
        proof {
            assert(ds.take(i + 1 - start).drop_last() =~= ds.take(i - start));
        }
        let acc10 = match acc.checked_mul(10) {
            Some(v) => v,
            None => {
                proof {
                    overflow_means_not_i64(w@, ds, i - start + 1, d as int);
                }
                return None;
            },
        };
        let acc2 = match acc10.checked_sub(d) {
            Some(v) => v,
            None => {
                proof {
                    overflow_means_not_i64(w@, ds, i - start + 1, d as int);
                }
                return None;
            },
        };
        acc = acc2;
        i = i + 1;
    }
    proof {
        assert(ds.take(n - start) =~= ds);
    }
    if neg {
        Some(acc)
    } else {
        if acc == i64::MIN {
            proof {
                dec_value_nonneg(ds);
            }
            return None;
        }
        Some(-acc)
    }
}

/// If the running magnitude has already left the 64-bit range, the whole
/// word is not 64-bit integer text.
proof fn overflow_means_not_i64(s: Seq<char>, ds: Seq<char>, j: int, d: int)
    requires
        ds == strip_sign(s),
        0 <= j <= ds.len(),
        all_digits(ds.take(j)),
        j > 0 ==> dec_value(ds.take(j)) == dec_value(ds.take(j - 1)) * 10 + d,
        j > 0 ==> d == digit_val(ds[j - 1]),
        j > 0,
        dec_value(ds.take(j)) > -(i64::MIN as int),
    ensures
        !is_i64_text(s),
{
    if all_digits(ds) {
        dec_value_take_mono(ds, j);
        assert(dec_value(ds) >= dec_value(ds.take(j)));
    }
}

/// Is `w` the decimal text of a double?
pub(crate) fn chars_is_f64(w: &Vec<char>) -> (r: bool)
    ensures
        r == is_f64_text(w@),
{
    let n = w.len();
    let mut start: usize = 0;
    if n > 0 && (w[0] == '+' || w[0] == '-') {
        start = 1;
    }
    let ghost b = strip_sign(w@);
    proof {
        assert(b =~= w@.subrange(start as int, n as int));
    }
    if is_inf_chars(w, start) || is_nan_chars(w, start) {
        return true;
    }
    // decimal body: mantissa, then optionally an exponent
    let e = find_exp_range(w, start, n);
    let ghost mant = w@.subrange(start as int, e as int);
    proof {
        assert(mant =~= b.take(e - start));
        assert(b.take(find_exp(b)) =~= w@.subrange(start as int, start + find_exp(b)));
        assert(find_exp(b) == e - start);
    }
    let mant_ok = is_mantissa_range(w, start, e);
    if !mant_ok {
        return false;
    }
    if e == n {
        return true;
    }
    // exponent: optional sign, then at least one digit
    let mut es: usize = e + 1;
    if es < n && (w[es] == '+' || w[es] == '-') {
        es = es + 1;
    }
    proof {
        assert(b.skip((e - start) + 1) =~= w@.subrange(e + 1, n as int));
        assert(strip_sign(w@.subrange(e + 1, n as int)) =~= w@.subrange(es as int, n as int));
    }
    if es == n {
        return false;
    }
    all_digits_range(w, es, n)
}

/// Is the mantissa range `from..to` of `w` well formed?
fn is_mantissa_range(w: &Vec<char>, from: usize, to: usize) -> (r: bool)
    requires
        from <= to <= w@.len(),
    ensures
        r == is_mantissa(w@.subrange(from as int, to as int)),
{
    let ghost m = w@.subrange(from as int, to as int);
    let d = find_dot_range(w, from, to);
    proof {
        assert(m.take(find_dot(m)) =~= w@.subrange(from as int, from + find_dot(m)));
    }
    if d == to {
        if from == to {
            return false;
        }
        all_digits_range(w, from, to)
    } else {
        proof {
            assert(m.take(d - from) =~= w@.subrange(from as int, d as int));
            assert(m.skip((d - from) + 1) =~= w@.subrange(d + 1, to as int));
        }
        let before_ok = all_digits_range(w, from, d);
        let after_ok = all_digits_range(w, d + 1, to);
        before_ok && after_ok && (from < d || d + 1 < to)
    }
}

/// Does `w` from `from` on spell infinity, case-insensitively?
fn is_inf_chars(w: &Vec<char>, from: usize) -> (r: bool)
    requires
        from <= w@.len(),
    ensures
        r == is_inf_body(w@.skip(from as int)),
{
    let n = w.len();
    let len = n - from;
    proof {
        reveal_strlit("inf");
        reveal_strlit("infinity");
    }
    if len == 3 {
        let r = lower_char(w[from]) == 'i' && lower_char(w[from + 1]) == 'n' && lower_char(
            w[from + 2],
        ) == 'f';
        proof {
            if r {
                assert(lower_all(w@.skip(from as int)) =~= "inf"@);
            } else {
                assert(lower_all(w@.skip(from as int)) != "inf"@) by {
                    if lower_all(w@.skip(from as int)) == "inf"@ {
                        assert(lower(w@[from as int]) == "inf"@[0]);
                        assert(lower(w@[from as int + 1]) == "inf"@[1]);
                        assert(lower(w@[from as int + 2]) == "inf"@[2]);
                    }
                }
                assert(lower_all(w@.skip(from as int)).len() != "infinity"@.len());
            }
        }
        r
    } else if len == 8 {
        let r = lower_char(w[from]) == 'i' && lower_char(w[from + 1]) == 'n' && lower_char(
            w[from + 2],
        ) == 'f' && lower_char(w[from + 3]) == 'i' && lower_char(w[from + 4]) == 'n' && lower_char(
            w[from + 5],
        ) == 'i' && lower_char(w[from + 6]) == 't' && lower_char(w[from + 7]) == 'y';
        proof {
            if r {
                assert(lower_all(w@.skip(from as int)) =~= "infinity"@);
            } else {
                assert(lower_all(w@.skip(from as int)) != "infinity"@) by {
                    if lower_all(w@.skip(from as int)) == "infinity"@ {
                        assert(lower(w@[from as int]) == "infinity"@[0]);
                        assert(lower(w@[from as int + 1]) == "infinity"@[1]);
                        assert(lower(w@[from as int + 2]) == "infinity"@[2]);
                        assert(lower(w@[from as int + 3]) == "infinity"@[3]);
                        assert(lower(w@[from as int + 4]) == "infinity"@[4]);
                        assert(lower(w@[from as int + 5]) == "infinity"@[5]);
                        assert(lower(w@[from as int + 6]) == "infinity"@[6]);
                        assert(lower(w@[from as int + 7]) == "infinity"@[7]);
                    }
                }
                assert(lower_all(w@.skip(from as int)).len() != "inf"@.len());
            }
        }
        r
    } else {
        proof {
            assert(lower_all(w@.skip(from as int)).len() != "inf"@.len());
            assert(lower_all(w@.skip(from as int)).len() != "infinity"@.len());
        }
        false
    }
}

/// Does `w` from `from` on spell NaN, case-insensitively?
fn is_nan_chars(w: &Vec<char>, from: usize) -> (r: bool)
    requires
        from <= w@.len(),
    ensures
        r == is_nan_body(w@.skip(from as int)),
{
    let n = w.len();
    proof {
        reveal_strlit("nan");
    }
    if n - from == 3 {
        let r = lower_char(w[from]) == 'n' && lower_char(w[from + 1]) == 'a' && lower_char(
            w[from + 2],
        ) == 'n';
        proof {
            if r {
                assert(lower_all(w@.skip(from as int)) =~= "nan"@);
            } else {
                assert(lower_all(w@.skip(from as int)) != "nan"@) by {
                    if lower_all(w@.skip(from as int)) == "nan"@ {
                        assert(lower(w@[from as int]) == "nan"@[0]);
                        assert(lower(w@[from as int + 1]) == "nan"@[1]);
                        assert(lower(w@[from as int + 2]) == "nan"@[2]);
                    }
                }
            }
        }
        r
    } else {
        proof {
            assert(lower_all(w@.skip(from as int)).len() != "nan"@.len());
        }
        false
    }
}

/// The double that float text denotes: a signed infinity, a NaN of the
/// spelled sign, or the correctly rounded value of the decimal.
pub open spec fn f64_word_val(w: Seq<char>) -> u64 {
    let b = strip_sign(w);
    let neg = is_neg_text(w);
    if is_inf_body(b) {
        if neg {
            INF_BITS | SIGN_BIT
        } else {
            INF_BITS
        }
    } else if is_nan_body(b) {
        if neg {
            NAN_BITS | SIGN_BIT
        } else {
            NAN_BITS
        }
    } else {
        double_of_decimal(w)
    }
}

/// The bits of the double a float word denotes.
pub(crate) fn word_float_bits(w: &Vec<char>) -> (r: u64)
    requires
        is_f64_text(w@),
    ensures
        r == f64_word_val(w@),
{
    let n = w.len();
    let mut start: usize = 0;
    let mut neg: bool = false;
    if n > 0 && (w[0] == '+' || w[0] == '-') {
        start = 1;
        neg = w[0] == '-';
    }
    proof {
        assert(strip_sign(w@) =~= w@.skip(start as int));
    }
    if is_inf_chars(w, start) {
        if neg {
            INF_BITS | SIGN_BIT
        } else {
            INF_BITS
        }
    } else if is_nan_chars(w, start) {
        if neg {
            NAN_BITS | SIGN_BIT
        } else {
            NAN_BITS
        }
    } else {
        let text = chars_to_string(w);
        parse_double(text.as_str())
    }
}

/// Prints a 64-bit integer as decimal text.
#[verifier::loop_isolation(false)]
pub(crate) fn format_i64(n: i64) -> (r: String)
    ensures
        r@ == i64_text(n),
{
    let neg = n < 0;
    let mut m: u64 = if n >= 0 {
        n as u64
    } else {
        (-(n as i128)) as u64
    };
    let ghost m0 = m as int;
    let mut out: Vec<char> = Vec::new();
    if m == 0 {
        out.push('0');
        proof {
            assert(out@ =~= nat_text(0));
        }
    } else {
        while m > 0
            invariant
                m >= 0,
                m0 > 0,
                m > 0 ==> nat_text(m0) =~= nat_text(m as int) + out@,
                m == 0 ==> nat_text(m0) =~= out@,
            decreases m,
        {
            let d = m % 10;
            let c = ((d + 48) as u8) as char;
            let ghost before = out@;
            out.insert(0, c);
            proof {
                assert(out@ =~= seq![c] + before);
                assert(c == digit_char((m as int) % 10));
                if m >= 10 {
                    assert(nat_text(m as int) =~= nat_text((m as int) / 10).push(c));
                    assert(nat_text((m as int) / 10) + (seq![c] + before) =~= nat_text(m as int)
                        + before);
                } else {
                    assert(nat_text(m as int) =~= seq![c]);
                    assert(seq![c] + before =~= nat_text(m as int) + before);
                }
            }
            m = m / 10;
        }
    }
    if neg {
        out.insert(0, '-');
        proof {
            assert(out@ =~= seq!['-'] + nat_text(m0));
        }
    }
    let r = chars_to_string(&out);
    proof {
        assert(r@ =~= i64_text(n));
    }
    r
}

} // verus!
