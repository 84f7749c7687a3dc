//! Text helpers shared by the phases: decimal rendering of integers,
//! character classes, and the quoted rendering of strings used in
//! diagnostics.
use vstd::prelude::*;
use vstd::string::StringExecFns;
use vstd::string::StrSliceExecFns;

verus! {

/// Trusted specification of std's `String::push`: as its documentation says,
/// it appends the given character to the end of the string.
pub assume_specification[ String::push ](s: &mut String, ch: char)
    ensures
        final(s)@ == old(s)@.push(ch),
;

/// The character of a decimal digit `d` (`0 <= d < 10`).
pub open spec fn digit_char(d: int) -> char {
    if d == 0 { '0' }
    else if d == 1 { '1' }
    else if d == 2 { '2' }
    else if d == 3 { '3' }
    else if d == 4 { '4' }
    else if d == 5 { '5' }
    else if d == 6 { '6' }
    else if d == 7 { '7' }
    else if d == 8 { '8' }
    else { '9' }
}

/// The decimal digits of `n`, most significant first, without leading zeros.
pub open spec fn nat_text(n: nat) -> Seq<char>
    decreases n,
{
    if n < 10 {
        seq![digit_char(n as int)]
    } else {
        nat_text(n / 10).push(digit_char((n % 10) as int))
    }
}

/// The decimal rendering of an integer, with a leading `-` when negative.
pub open spec fn int_text(n: int) -> Seq<char> {
    if n < 0 {
        seq!['-'] + nat_text((-n) as nat)
    } else {
        nat_text(n as nat)
    }
}

pub fn digit_to_char(d: u64) -> (c: char)
    requires
        d < 10,
    ensures
        c == digit_char(d as int),
{
    if d == 0 { '0' }
    else if d == 1 { '1' }
    else if d == 2 { '2' }
    else if d == 3 { '3' }
    else if d == 4 { '4' }
    else if d == 5 { '5' }
    else if d == 6 { '6' }
    else if d == 7 { '7' }
    else if d == 8 { '8' }
    else { '9' }
}

/// Appends the decimal digits of `n` to `s`.
pub fn push_u64_text(s: &mut String, n: u64)
    ensures
        final(s)@ == old(s)@ + nat_text(n as nat),
    decreases n,
{
    if n < 10 {
        s.push(digit_to_char(n));
    } else {
        push_u64_text(s, n / 10);
        s.push(digit_to_char(n % 10));
    }
}

/// The decimal rendering of an unsigned integer.
pub fn u64_to_text(n: u64) -> (r: String)
    ensures
        r@ == nat_text(n as nat),
{
    let mut s = String::new();
    push_u64_text(&mut s, n);
    assert(s@ =~= nat_text(n as nat));
    s
}

/// The decimal rendering of a `usize`.
pub fn usize_to_text(n: usize) -> (r: String)
    ensures
        r@ == nat_text(n as nat),
{
    u64_to_text(n as u64)
}

/// The decimal rendering of a signed integer, as `i64::to_string` gives it.
pub fn i64_to_text(n: i64) -> (r: String)
    ensures
        r@ == int_text(n as int),
{
    let mut s = String::new();
    if n < 0 {
        s.push('-');
        let m: u64 = if n == i64::MIN { 9223372036854775808u64 } else { (-n) as u64 };
        push_u64_text(&mut s, m);
        assert(s@ =~= int_text(n as int));
    } else {
        push_u64_text(&mut s, n as u64);
        assert(s@ =~= int_text(n as int));
    }
    s
}

/// Two different numbers have different renderings.
pub proof fn lemma_nat_text_injective(a: nat, b: nat)
    requires
        nat_text(a) == nat_text(b),
    ensures
        a == b,
    decreases a + b,
{
    let ta = nat_text(a);
    let tb = nat_text(b);
    if a < 10 && b < 10 {
        assert(ta[0] == tb[0]);
    } else if a < 10 {
        lemma_nat_text_len(b / 10);
        assert(tb.len() >= 2);
    } else if b < 10 {
        lemma_nat_text_len(a / 10);
        assert(ta.len() >= 2);
    } else {
        assert(ta.drop_last() == nat_text(a / 10));
        assert(tb.drop_last() == nat_text(b / 10));
        assert(ta.last() == tb.last());
        lemma_nat_text_injective(a / 10, b / 10);
    }
}

pub proof fn lemma_nat_text_len(n: nat)
    ensures
        nat_text(n).len() >= 1,
    decreases n,
{
    if n >= 10 {
        lemma_nat_text_len(n / 10);
    }
}

/// Whether `c` is an ASCII decimal digit.
pub open spec fn is_digit(c: char) -> bool {
    '0' <= c && c <= '9'
}

/// Whether `c` is an ASCII hexadecimal digit.
pub open spec fn is_hex_digit(c: char) -> bool {
    ('0' <= c && c <= '9') || ('a' <= c && c <= 'f') || ('A' <= c && c <= 'F')
}

/// The value of a hexadecimal digit.
pub open spec fn hex_digit_value(c: char) -> int {
    if '0' <= c && c <= '9' {
        (c as int) - ('0' as int)
    } else if 'a' <= c && c <= 'f' {
        (c as int) - ('a' as int) + 10
    } else {
        (c as int) - ('A' as int) + 10
    }
}

/// The number that a sequence of digits writes in the given base.
pub open spec fn digits_value(s: Seq<char>, base: int) -> int
    decreases s.len(),
{
    if s.len() == 0 {
        0
    } else {
        digits_value(s.drop_last(), base) * base + hex_digit_value(s.last())
    }
}

pub fn char_is_digit(c: char) -> (r: bool)
    ensures
        r == is_digit(c),
{
    '0' <= c && c <= '9'
}

pub fn char_is_hex_digit(c: char) -> (r: bool)
    ensures
        r == is_hex_digit(c),
{
    ('0' <= c && c <= '9') || ('a' <= c && c <= 'f') || ('A' <= c && c <= 'F')
}

/// Whether `char::is_alphabetic` holds of a character (Unicode's Alphabetic property).
pub uninterp spec fn alphabetic(c: char) -> bool;

/// Whether `char::is_alphanumeric` holds of a character (Unicode Alphabetic or Numeric).
pub uninterp spec fn alphanumeric(c: char) -> bool;

/// An ASCII letter.
pub open spec fn ascii_letter(c: char) -> bool {
    ('a' <= c && c <= 'z') || ('A' <= c && c <= 'Z')
}

/// Calls `char::is_alphabetic`; the result is named `alphabetic(c)`, a
/// property of the character alone given by Unicode's tables. std's source
/// answers ASCII letters with `true` and every other ASCII character with
/// `false` before it consults the tables, which only hold characters past
/// ASCII.
#[verifier::external_body]
pub(crate) fn is_alphabetic(c: char) -> (r: bool)
    ensures
        r == alphabetic(c),
        c <= '\x7f' ==> (r <==> ascii_letter(c)),
{
    c.is_alphabetic()
}

/// Calls `char::is_alphanumeric`; the result is named `alphanumeric(c)`, a
/// property of the character alone given by Unicode's tables. As its
/// documentation says, it is `is_alphabetic() || is_numeric()`; std's
/// `is_numeric` answers ASCII digits with `true` and every other ASCII
/// character with `false`, so on ASCII it holds of letters and digits only.
#[verifier::external_body]
pub(crate) fn is_alphanumeric(c: char) -> (r: bool)
    ensures
        r == alphanumeric(c),
        alphabetic(c) ==> r,
        c <= '\x7f' ==> (r <==> (ascii_letter(c) || ('0' <= c && c <= '9'))),
{
    c.is_alphanumeric()
}

/// The text that `format!("{:?}", s)` gives for a string: the characters in
/// double quotes, with quotes, backslashes and special characters escaped.
pub uninterp spec fn str_debug(s: Seq<char>) -> Seq<char>;

/// Renders a string with `<str as Debug>::fmt`; the result is named
/// `str_debug(s@)`, a function of the characters alone.
#[verifier::external_body]
pub(crate) fn debug_text(s: &str) -> (r: String)
    ensures
        r@ == str_debug(s@),
{
    format!("{:?}", s)
}

/// The end of the run of decimal digits that starts at `i`.
pub open spec fn digit_run_end(t: Seq<char>, i: nat) -> nat
    decreases t.len() - i,
{
    if i < t.len() && is_digit(t[i as int]) {
        digit_run_end(t, i + 1)
    } else {
        i
    }
}

/// The number that the leading decimal digits of `t` write, or `i64::MAX`
/// when that number does not fit.
pub open spec fn leading_number(t: Seq<char>) -> i64 {
    let v = digits_value(t.take(digit_run_end(t, 0) as int), 10);
    if v > i64::MAX { i64::MAX } else { v as i64 }
}

proof fn lemma_digits_value_nonneg(s: Seq<char>)
    requires
        forall|j: int| 0 <= j < s.len() ==> is_digit(#[trigger] s[j]),
    ensures
        digits_value(s, 10) >= 0,
    decreases s.len(),
{
    if s.len() > 0 {
        lemma_digits_value_nonneg(s.drop_last());
    }
}

/// The number that the leading decimal digits of a text write, saturated at
/// `i64::MAX`.
pub fn leading_number_of(t: &str) -> (r: i64)
    ensures
        r == leading_number(t@),
{
    let n = t.unicode_len();
    let mut i: usize = 0;
    let mut v: i64 = 0;
    while i < n && char_is_digit(t.get_char(i))
        invariant
            n == t@.len(),
            i <= n,
            digit_run_end(t@, i as nat) == digit_run_end(t@, 0),
            forall|j: int| 0 <= j < i ==> is_digit(#[trigger] t@[j]),
            v == (if digits_value(t@.take(i as int), 10) > i64::MAX { i64::MAX } else {
                digits_value(t@.take(i as int), 10) as i64 }),
        decreases n - i,
    {
        let c = t.get_char(i);
        let d: i64 = if c == '0' { 0 } else if c == '1' { 1 } else if c == '2' { 2 } else if c == '3' { 3 }
            else if c == '4' { 4 } else if c == '5' { 5 } else if c == '6' { 6 } else if c == '7' { 7 }
            else if c == '8' { 8 } else { 9 };
        proof {
            let p = t@.take(i as int);
            assert(t@.take(i + 1).drop_last() =~= p);
            assert forall|j: int| 0 <= j < p.len() implies is_digit(#[trigger] p[j]) by {
                assert(p[j] == t@[j]);
            }
            lemma_digits_value_nonneg(p);
            assert(hex_digit_value(c) == d);
        }
        if v > (i64::MAX - d) / 10 {
            v = i64::MAX;
        } else {
            v = v * 10 + d;
        }
        i = i + 1;
    }
    assert(digit_run_end(t@, i as nat) == i);
    v
}

/// The messages joined with a separator between each two.
pub open spec fn join(ss: Seq<Seq<char>>, sep: Seq<char>) -> Seq<char>
    decreases ss.len(),
{
    if ss.len() == 0 {
        Seq::empty()
    } else if ss.len() == 1 {
        ss[0]
    } else {
        join(ss.drop_last(), sep) + sep + ss.last()
    }
}

/// The strings joined by `; `.
pub fn join_strings(errors: &Vec<String>) -> (r: String)
    ensures
        r@ == join(errors@.map_values(|s: String| s@), "; "@),
{
    let ghost ev = errors@.map_values(|s: String| s@);
    let mut s = String::new();
    let mut i: usize = 0;
    while i < errors.len()
        invariant
            i <= errors@.len(),
            ev == errors@.map_values(|s: String| s@),
            s@ == join(ev.take(i as int), "; "@),
        decreases errors@.len() - i,
    {
        assert(ev.take(i + 1).drop_last() =~= ev.take(i as int));
        if i > 0 {
            push_str(&mut s, "; ");
        } else {
            assert(s@ =~= Seq::<char>::empty());
        }
        push_str(&mut s, errors[i].as_str());
        i = i + 1;
        assert(ev.take(i as int).last() == errors@[i - 1]@);
        assert(s@ =~= join(ev.take(i as int), "; "@));
    }
    assert(ev.take(i as int) =~= ev);
    s
}

/// Appends a string literal or slice.
pub fn push_str(s: &mut String, t: &str)
    ensures
        final(s)@ == old(s)@ + t@,
{
    s.append(t);
}

} // verus!
