use vstd::prelude::*;
use vstd::string::{StrSliceExecFns, StringExecFns};

use crate::text::char_index_from;

verus! {

pub open spec fn is_digit(c: char) -> bool {
    '0' <= c <= '9'
}

/// Every character is a decimal digit; the empty sequence qualifies.
pub open spec fn digits_only(s: Seq<char>) -> bool {
    forall|i: int| 0 <= i < s.len() ==> is_digit(#[trigger] s[i])
}

/// A non-empty run of decimal digits.
pub open spec fn all_digits(s: Seq<char>) -> bool {
    s.len() > 0 && digits_only(s)
}

pub open spec fn digit_val(c: char) -> int {
    if c == '0' {
        0
    } else if c == '1' {
        1
    } else if c == '2' {
        2
    } else if c == '3' {
        3
    } else if c == '4' {
        4
    } else if c == '5' {
        5
    } else if c == '6' {
        6
    } else if c == '7' {
        7
    } else if c == '8' {
        8
    } else {
        9
    }
}

/// The value of a digit sequence read as a decimal numeral.
pub open spec fn dec_val(s: Seq<char>) -> int
    decreases s.len(),
{
    if s.len() == 0 {
        0
    } else {
        dec_val(s.drop_last()) * 10 + digit_val(s.last())
    }
}

pub proof fn lemma_dec_val_nonneg(s: Seq<char>)
    ensures
        dec_val(s) >= 0,
    decreases s.len(),
{
    if s.len() > 0 {
        lemma_dec_val_nonneg(s.drop_last());
    }
}

pub fn digit_of(c: char) -> (r: u32)
    requires
        is_digit(c),
    ensures
        r == digit_val(c),
        r < 10,
{
    match c {
        '0' => 0,
        '1' => 1,
        '2' => 2,
        '3' => 3,
        '4' => 4,
        '5' => 5,
        '6' => 6,
        '7' => 7,
        '8' => 8,
        _ => 9,
    }
}

/// The digits of a decimal integer literal, past any sign.
pub open spec fn int_digits(s: Seq<char>) -> Seq<char> {
    if s.len() > 0 && (s[0] == '-' || s[0] == '+') {
        s.drop_first()
    } else {
        s
    }
}

/// The signed value of a decimal integer literal.
pub open spec fn int_value(s: Seq<char>) -> int {
    if s.len() > 0 && s[0] == '-' {
        -dec_val(int_digits(s))
    } else {
        dec_val(int_digits(s))
    }
}

/// What `str::parse::<i32>` yields: an optional sign, then decimal digits,
/// rejected when empty, malformed or out of range.
pub open spec fn parse_i32_spec(s: Seq<char>) -> Option<int> {
    if all_digits(int_digits(s)) && i32::MIN <= int_value(s) <= i32::MAX {
        Some(int_value(s))
    } else {
        None
    }
}

/// Parse a decimal integer as `str::parse::<i32>` does.
pub fn parse_i32(s: &str) -> (r: Option<i32>)
    ensures
        match r {
            Some(v) => parse_i32_spec(s@) == Some(v as int),
            None => parse_i32_spec(s@) is None,
        },
{
    let n = s.unicode_len();
    let mut i: usize = 0;
    let mut neg = false;
    if n > 0 {
        let c0 = s.get_char(0);
        if c0 == '-' || c0 == '+' {
            i = 1;
            neg = c0 == '-';
        }
    }
    let ghost ds = int_digits(s@);
    if i == n {
        // no digits at all
        assert(!all_digits(ds));
        return None;
    }
    let mut acc: i64 = 0;
    let mut big = false;
    let mut j: usize = i;
    while j < n
        invariant
            i <= j <= n == s@.len(),
            ds == int_digits(s@),
            ds =~= s@.skip(i as int),
            neg == (s@.len() > 0 && s@[0] == '-'),
            digits_only(s@.subrange(i as int, j as int)),
            !big ==> 0 <= acc <= 0x8000_0000i64 && acc == dec_val(s@.subrange(i as int, j as int)),
            big ==> dec_val(s@.subrange(i as int, j as int)) > 0x8000_0000i64,
        decreases n - j,
    {
        let c = s.get_char(j);
        if !(c >= '0' && c <= '9') {
            proof {
                assert(ds[j as int - i as int] == s@[j as int]);
                assert(!digits_only(ds));
            }
            return None;
        }
        let d = digit_of(c);
        let ghost prefix = s@.subrange(i as int, j as int);
        proof {
            assert(s@.subrange(i as int, j + 1 as int) =~= prefix.push(s@[j as int]));
            assert(s@.subrange(i as int, j + 1 as int).drop_last() =~= prefix);
            lemma_dec_val_nonneg(prefix);
        }
        if big {
            proof {
                lemma_dec_val_nonneg(s@.subrange(i as int, j + 1 as int));
            }
        } else {
            acc = acc * 10 + (d as i64);
            if acc > 0x8000_0000i64 {
                big = true;
            }
        }
        j += 1;
    }
    proof {
        assert(s@.subrange(i as int, n as int) =~= ds);
        assert(all_digits(ds));
    }
    if big {
        return None;
    }
    if neg {
        Some((-acc) as i32)
    } else {
        if acc > 0x7fff_ffffi64 {
            None
        } else {
            Some(acc as i32)
        }
    }
}

pub open spec fn digit_char(d: int) -> char {
    if d == 0 {
        '0'
    } else if d == 1 {
        '1'
    } else if d == 2 {
        '2'
    } else if d == 3 {
        '3'
    } else if d == 4 {
        '4'
    } else if d == 5 {
        '5'
    } else if d == 6 {
        '6'
    } else if d == 7 {
        '7'
    } else if d == 8 {
        '8'
    } else {
        '9'
    }
}

/// The decimal numeral of a non-negative number, without leading zeros.
pub open spec fn dec_str(n: int) -> Seq<char>
    decreases n,
{
    if n < 10 {
        seq![digit_char(n)]
    } else {
        dec_str(n / 10).push(digit_char(n % 10))
    }
}

fn digit_str(d: u32) -> (r: String)
    requires
        d < 10,
    ensures
        r@ =~= seq![digit_char(d as int)],
{
    let r: &str = match d {
        0 => "0",
        1 => "1",
        2 => "2",
        3 => "3",
        4 => "4",
        5 => "5",
        6 => "6",
        7 => "7",
        8 => "8",
        _ => "9",
    };
    proof {
        reveal_strlit("0");
        reveal_strlit("1");
        reveal_strlit("2");
        reveal_strlit("3");
        reveal_strlit("4");
        reveal_strlit("5");
        reveal_strlit("6");
        reveal_strlit("7");
        reveal_strlit("8");
        reveal_strlit("9");
    }
    r.to_owned()
}

/// The decimal numeral of `n`.
pub fn u32_to_string(n: u32) -> (r: String)
    ensures
        r@ == dec_str(n as int),
    decreases n,
{
    if n < 10 {
        digit_str(n)
    } else {
        let mut s = u32_to_string(n / 10);
        let tail = digit_str(n % 10);
        s.append(tail.as_str());
        proof {
            assert(dec_str((n / 10) as int).push(digit_char((n % 10) as int)) =~= dec_str(
                (n / 10) as int,
            ) + seq![digit_char((n % 10) as int)]);
        }
        s
    }
}

/// The least index at or after `i` holding an exponent marker `e` or `E`,
/// or the length if there is none.
pub open spec fn exp_index_from(s: Seq<char>, i: int) -> int
    decreases s.len() - i,
{
    if !(0 <= i < s.len()) {
        s.len() as int
    } else if s[i] == 'e' || s[i] == 'E' {
        i
    } else {
        exp_index_from(s, i + 1)
    }
}

pub proof fn lemma_exp_index_from(s: Seq<char>, i: int)
    requires
        0 <= i <= s.len(),
    ensures
        i <= exp_index_from(s, i) <= s.len(),
        forall|j: int|
            i <= j < exp_index_from(s, i) ==> #[trigger] s[j] != 'e' && s[j] != 'E',
        exp_index_from(s, i) < s.len() ==> (s[exp_index_from(s, i)] == 'e' || s[exp_index_from(
            s,
            i,
        )] == 'E'),
    decreases s.len() - i,
{
    if i < s.len() && !(s[i] == 'e' || s[i] == 'E') {
        lemma_exp_index_from(s, i + 1);
    }
}

pub open spec fn is_inf_kw(s: Seq<char>) -> bool {
    s.len() == 3 && (s[0] == 'i' || s[0] == 'I') && (s[1] == 'n' || s[1] == 'N') && (s[2] == 'f'
        || s[2] == 'F')
}

pub open spec fn is_infinity_kw(s: Seq<char>) -> bool {
    s.len() == 8 && (s[0] == 'i' || s[0] == 'I') && (s[1] == 'n' || s[1] == 'N') && (s[2] == 'f'
        || s[2] == 'F') && (s[3] == 'i' || s[3] == 'I') && (s[4] == 'n' || s[4] == 'N') && (s[5]
        == 'i' || s[5] == 'I') && (s[6] == 't' || s[6] == 'T') && (s[7] == 'y' || s[7] == 'Y')
}

pub open spec fn is_nan_kw(s: Seq<char>) -> bool {
    s.len() == 3 && (s[0] == 'n' || s[0] == 'N') && (s[1] == 'a' || s[1] == 'A') && (s[2] == 'n'
        || s[2] == 'N')
}

/// Digits with at most one decimal point and at least one digit.
pub open spec fn is_mantissa(m: Seq<char>) -> bool {
    let di = char_index_from(m, '.', 0);
    if di == m.len() {
        all_digits(m)
    } else {
        digits_only(m.take(di)) && digits_only(m.skip(di + 1)) && m.len() > 1
    }
}

/// An optional sign followed by a non-empty run of digits.
pub open spec fn is_exponent(x: Seq<char>) -> bool {
    if x.len() > 0 && (x[0] == '+' || x[0] == '-') {
        all_digits(x.drop_first())
    } else {
        all_digits(x)
    }
}

/// A mantissa, optionally followed by an exponent marker and an exponent.
pub open spec fn is_float_number(b: Seq<char>) -> bool {
    let ei = exp_index_from(b, 0);
    if ei == b.len() {
        is_mantissa(b)
    } else {
        is_mantissa(b.take(ei)) && is_exponent(b.skip(ei + 1))
    }
}

/// The grammar that `f64::from_str` documents: an optional sign, then
/// `inf`, `infinity` or `nan` (case-insensitive), or a decimal number with
/// optional fraction and exponent.
pub open spec fn is_float_literal(s: Seq<char>) -> bool {
    let b = if s.len() > 0 && (s[0] == '+' || s[0] == '-') {
        s.drop_first()
    } else {
        s
    };
    is_inf_kw(b) || is_infinity_kw(b) || is_nan_kw(b) || is_float_number(b)
}

fn digits_in_range(s: &str, from: usize, to: usize) -> (r: bool)
    requires
        from <= to <= s@.len(),
    ensures
        r == digits_only(s@.subrange(from as int, to as int)),
{
    let mut k: usize = from;
    while k < to
        invariant
            from <= k <= to <= s@.len(),
            forall|j: int| from <= j < k ==> is_digit(#[trigger] s@[j]),
        decreases to - k,
    {
        let c = s.get_char(k);
        if !(c >= '0' && c <= '9') {
            proof {
                assert(s@.subrange(from as int, to as int)[k - from] == s@[k as int]);
            }
            return false;
        }
        k += 1;
    }
    proof {
        assert forall|i: int| 0 <= i < to - from implies is_digit(
            #[trigger] s@.subrange(from as int, to as int)[i],
        ) by {
            assert(s@.subrange(from as int, to as int)[i] == s@[from + i]);
        }
    }
    true
}

fn keyword_check(b: &str) -> (r: bool)
    ensures
        r == (is_inf_kw(b@) || is_infinity_kw(b@) || is_nan_kw(b@)),
{
    let n = b.unicode_len();
    if n == 3 {
        let c0 = b.get_char(0);
        let c1 = b.get_char(1);
        let c2 = b.get_char(2);
        ((c0 == 'i' || c0 == 'I') && (c1 == 'n' || c1 == 'N') && (c2 == 'f' || c2 == 'F')) || ((c0
            == 'n' || c0 == 'N') && (c1 == 'a' || c1 == 'A') && (c2 == 'n' || c2 == 'N'))
    } else if n == 8 {
        let c0 = b.get_char(0);
        let c1 = b.get_char(1);
        let c2 = b.get_char(2);
        let c3 = b.get_char(3);
        let c4 = b.get_char(4);
        let c5 = b.get_char(5);
        let c6 = b.get_char(6);
        let c7 = b.get_char(7);
        (c0 == 'i' || c0 == 'I') && (c1 == 'n' || c1 == 'N') && (c2 == 'f' || c2 == 'F') && (c3
            == 'i' || c3 == 'I') && (c4 == 'n' || c4 == 'N') && (c5 == 'i' || c5 == 'I') && (c6
            == 't' || c6 == 'T') && (c7 == 'y' || c7 == 'Y')
    } else {
        false
    }
}

fn mantissa_check(m: &str) -> (r: bool)
    ensures
        r == is_mantissa(m@),
{
    let n = m.unicode_len();
    match crate::text::find_char(m, '.') {
        None => {
            proof {
                assert(m@.subrange(0, n as int) =~= m@);
            }
            n > 0 && digits_in_range(m, 0, n)
        },
        Some(di) => {
            proof {
                assert(m@.subrange(0, di as int) =~= m@.take(di as int));
                assert(m@.subrange(di + 1 as int, n as int) =~= m@.skip(di + 1));
            }
            let front = digits_in_range(m, 0, di);
            let back = digits_in_range(m, di + 1, n);
            front && back && n > 1
        },
    }
}

fn exponent_check(x: &str) -> (r: bool)
    ensures
        r == is_exponent(x@),
{
    let n = x.unicode_len();
    if n > 0 {
        let c0 = x.get_char(0);
        if c0 == '+' || c0 == '-' {
            proof {
                assert(x@.subrange(1, n as int) =~= x@.drop_first());
            }
            n > 1 && digits_in_range(x, 1, n)
        } else {
            proof {
                assert(x@.subrange(0, n as int) =~= x@);
            }
            digits_in_range(x, 0, n)
        }
    } else {
        false
    }
}

fn is_exp_char(c: char) -> (r: bool)
    ensures
        r == (c == 'e' || c == 'E'),
{
    c == 'e' || c == 'E'
}

fn number_check(b: &str) -> (r: bool)
    ensures
        r == is_float_number(b@),
{
    let n = b.unicode_len();
    let mut ei: usize = 0;
    while ei < n && !is_exp_char(b.get_char(ei))
        invariant
            ei <= n == b@.len(),
            forall|j: int| 0 <= j < ei ==> #[trigger] b@[j] != 'e' && b@[j] != 'E',
        decreases n - ei,
    {
        ei += 1;
    }
    proof {
        lemma_exp_index_from(b@, 0);
        assert(exp_index_from(b@, 0) == ei);
    }
    if ei == n {
        mantissa_check(b)
    } else {
        proof {
            assert(b@.subrange(0, ei as int) =~= b@.take(ei as int));
            assert(b@.subrange(ei + 1 as int, n as int) =~= b@.skip(ei + 1));
        }
        let front = mantissa_check(b.substring_char(0, ei));
        let back = exponent_check(b.substring_char(ei + 1, n));
        front && back
    }
}

/// Whether `s` is a numeric literal under the grammar that `f64::from_str`
/// documents.
pub fn is_numeric_literal(s: &str) -> (r: bool)
    ensures
        r == is_float_literal(s@),
{
    let n = s.unicode_len();
    if n > 0 {
        let c0 = s.get_char(0);
        if c0 == '+' || c0 == '-' {
            proof {
                assert(s@.subrange(1, n as int) =~= s@.drop_first());
            }
            let body = s.substring_char(1, n);
            return keyword_check(body) || number_check(body);
        }
    }
    keyword_check(s) || number_check(s)
}

} // verus!
