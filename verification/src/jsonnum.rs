//! The number token of the wire grammar.
//!
//! A number travels as its lexeme (the exact characters on the wire), so
//! nothing is lost between reading and writing a value. This module gives
//! the lexeme grammar, the decimal rendering of machine integers, and the
//! exact reading of a lexeme back as an `i64`.

use vstd::prelude::*;
use crate::strutil::push_char;

verus! {

broadcast use vstd::utf8::char_is_scalar, vstd::utf8::char_u32_cast;

/// Two characters are equal exactly when their code points are.
pub proof fn lemma_char_eq_code(a: char, b: char)
    ensures
        (a == b) <==> (a as u32 == b as u32),
        (a as u32) < 0x110000,
        (b as u32) < 0x110000,
{
    vstd::utf8::char_is_scalar(a);
    vstd::utf8::char_is_scalar(b);
    vstd::utf8::char_u32_cast(a, a as u32);
    vstd::utf8::char_u32_cast(b, b as u32);
}

pub open spec fn is_digit(c: char) -> bool {
    48 <= c as u32 && c as u32 <= 57
}

/// Characters that may occur anywhere in a number lexeme.
pub open spec fn is_num_char(c: char) -> bool {
    is_digit(c) || c == '-' || c == '+' || c == '.' || c == 'e' || c == 'E'
}

/// First position at or after `i` holding a non-digit.
pub open spec fn skip_digits(s: Seq<char>, i: int) -> int
    decreases s.len() - i,
{
    if 0 <= i < s.len() && is_digit(s[i]) {
        skip_digits(s, i + 1)
    } else {
        i
    }
}

/// Where a number starting at `i` ends, when the text from `i` begins
/// with a well-formed number: an optional minus sign, an integer part
/// without needless leading zeros, an optional fraction, an optional
/// exponent.
pub open spec fn num_scan(s: Seq<char>, i: int) -> Option<int> {
    let j = if 0 <= i < s.len() && s[i] == '-' {
        i + 1
    } else {
        i
    };
    if 0 <= j < s.len() && is_digit(s[j]) {
        let k = if s[j] == '0' {
            j + 1
        } else {
            skip_digits(s, j)
        };
        let after_frac = if k < s.len() && s[k] == '.' {
            if k + 1 < s.len() && is_digit(s[k + 1]) {
                Some(skip_digits(s, k + 1))
            } else {
                None
            }
        } else {
            Some(k)
        };
        match after_frac {
            None => None,
            Some(m) => if m < s.len() && (s[m] == 'e' || s[m] == 'E') {
                let p = if m + 1 < s.len() && (s[m + 1] == '+' || s[m + 1] == '-') {
                    m + 2
                } else {
                    m + 1
                };
                if p < s.len() && is_digit(s[p]) {
                    Some(skip_digits(s, p))
                } else {
                    None
                }
            } else {
                Some(m)
            },
        }
    } else {
        None
    }
}

/// The whole of `s` is one well-formed number.
pub open spec fn is_num_lexeme(s: Seq<char>) -> bool {
    num_scan(s, 0) == Some(s.len() as int)
}

pub proof fn lemma_skip_digits_bounds(s: Seq<char>, i: int)
    requires
        0 <= i <= s.len(),
    ensures
        i <= skip_digits(s, i) <= s.len(),
        forall|j: int| i <= j < skip_digits(s, i) ==> is_digit(s[j]),
        skip_digits(s, i) < s.len() ==> !is_digit(s[skip_digits(s, i)]),
    decreases s.len() - i,
{
    if i < s.len() && is_digit(s[i]) {
        lemma_skip_digits_bounds(s, i + 1);
    }
}

/// Every character of a well-formed number lexeme is a number character,
/// and the lexeme is non-empty and starts with a sign or digit.
pub proof fn lemma_num_lexeme_chars(s: Seq<char>)
    requires
        is_num_lexeme(s),
    ensures
        s.len() > 0,
        forall|j: int| 0 <= j < s.len() ==> is_num_char(s[j]),
        s[0] == '-' || is_digit(s[0]),
{
    let j = if 0 <= 0 < s.len() && s[0] == '-' {
        1int
    } else {
        0int
    };
    lemma_skip_digits_bounds(s, j);
    let k = if s[j] == '0' {
        j + 1
    } else {
        skip_digits(s, j)
    };
    if k < s.len() && s[k] == '.' {
        lemma_skip_digits_bounds(s, k + 1);
        let m = skip_digits(s, k + 1);
        if m < s.len() && (s[m] == 'e' || s[m] == 'E') {
            let p = if m + 1 < s.len() && (s[m + 1] == '+' || s[m + 1] == '-') {
                m + 2
            } else {
                m + 1
            };
            if p <= s.len() {
                lemma_skip_digits_bounds(s, p);
            }
        }
    } else {
        if k < s.len() && (s[k] == 'e' || s[k] == 'E') {
            let p = if k + 1 < s.len() && (s[k + 1] == '+' || s[k + 1] == '-') {
                k + 2
            } else {
                k + 1
            };
            if p <= s.len() {
                lemma_skip_digits_bounds(s, p);
            }
        }
    }
}

/// Decimal digits of `n`, most significant first.
pub open spec fn dec_chars(n: nat) -> Seq<char>
    decreases n,
{
    if n < 10 {
        seq![digit_char(n)]
    } else {
        dec_chars(n / 10).push(digit_char(n % 10))
    }
}

pub open spec fn digit_char(n: nat) -> char {
    if n == 0 {
        '0'
    } else if n == 1 {
        '1'
    } else if n == 2 {
        '2'
    } else if n == 3 {
        '3'
    } else if n == 4 {
        '4'
    } else if n == 5 {
        '5'
    } else if n == 6 {
        '6'
    } else if n == 7 {
        '7'
    } else if n == 8 {
        '8'
    } else {
        '9'
    }
}

/// The decimal rendering of a signed integer.
pub open spec fn int_lexeme(n: int) -> Seq<char> {
    if n < 0 {
        seq!['-'] + dec_chars((-n) as nat)
    } else {
        dec_chars(n as nat)
    }
}

proof fn lemma_dec_chars_digits(n: nat)
    ensures
        dec_chars(n).len() > 0,
        forall|j: int| 0 <= j < dec_chars(n).len() ==> is_digit(dec_chars(n)[j]),
        n > 0 ==> dec_chars(n)[0] != '0',
        n < 10 ==> dec_chars(n).len() == 1,
    decreases n,
{
    if n >= 10 {
        lemma_dec_chars_digits(n / 10);
    }
}

proof fn lemma_all_digits_scan(s: Seq<char>, i: int)
    requires
        0 <= i <= s.len(),
        forall|j: int| i <= j < s.len() ==> is_digit(s[j]),
    ensures
        skip_digits(s, i) == s.len(),
    decreases s.len() - i,
{
    if i < s.len() {
        lemma_all_digits_scan(s, i + 1);
    }
}

/// The decimal rendering of an integer is a well-formed number lexeme.
pub proof fn lemma_int_lexeme_wf(n: int)
    ensures
        is_num_lexeme(int_lexeme(n)),
{
    let s = int_lexeme(n);
    let m = if n < 0 {
        (-n) as nat
    } else {
        n as nat
    };
    lemma_dec_chars_digits(m);
    let j: int = if n < 0 {
        1
    } else {
        0
    };
    assert(forall|i: int| j <= i < s.len() ==> is_digit(s[i]));
    if m == 0 {
        assert(s[j] == '0');
        assert(s.len() == j + 1);
    } else {
        assert(s[j] != '0');
        lemma_all_digits_scan(s, j);
    }
}

/// Append the decimal digits of `n` to `out`.
pub fn push_dec(n: u64, out: &mut String)
    ensures
        final(out)@ == old(out)@ + dec_chars(n as nat),
    decreases n,
{
    if n < 10 {
        push_char(out, digit_of(n));
        assert(final(out)@ =~= old(out)@ + dec_chars(n as nat));
    } else {
        push_dec(n / 10, out);
        push_char(out, digit_of(n % 10));
        assert(final(out)@ =~= old(out)@ + dec_chars(n as nat));
    }
}

/// The digit character for `n`, which must be below ten.
pub fn digit_of(n: u64) -> (c: char)
    requires
        n < 10,
    ensures
        c == digit_char(n as nat),
{
    match n {
        0 => '0',
        1 => '1',
        2 => '2',
        3 => '3',
        4 => '4',
        5 => '5',
        6 => '6',
        7 => '7',
        8 => '8',
        _ => '9',
    }
}

/// Every character is a digit.
pub open spec fn all_digits(s: Seq<char>) -> bool {
    forall|j: int| 0 <= j < s.len() ==> is_digit(s[j])
}

/// A canonical run of digits: non-empty, and without a needless leading
/// zero.
pub open spec fn canonical_digits(s: Seq<char>) -> bool {
    s.len() > 0 && all_digits(s) && (s[0] != '0' || s.len() == 1)
}

pub open spec fn digit_val(c: char) -> int {
    c as u32 - '0' as u32
}

/// The value of a run of digits, most significant first.
pub open spec fn digits_val(s: Seq<char>) -> int
    decreases s.len(),
{
    if s.len() == 0 {
        0
    } else {
        digits_val(s.drop_last()) * 10 + digit_val(s.last())
    }
}

/// The integer a lexeme denotes, when the lexeme has integer form: an
/// optional minus sign followed by one canonical run of digits.
pub open spec fn int_form_val(s: Seq<char>) -> Option<int> {
    if s.len() > 0 && s[0] == '-' {
        if canonical_digits(s.drop_first()) {
            Some(-digits_val(s.drop_first()))
        } else {
            None
        }
    } else if canonical_digits(s) {
        Some(digits_val(s))
    } else {
        None
    }
}

pub open spec fn pow10(n: nat) -> int
    decreases n,
{
    if n == 0 {
        1
    } else {
        10 * pow10((n - 1) as nat)
    }
}

pub proof fn lemma_digits_val_lower(s: Seq<char>)
    requires
        s.len() > 0,
        all_digits(s),
        s[0] != '0',
    ensures
        digits_val(s) >= pow10((s.len() - 1) as nat),
    decreases s.len(),
{
    assert(is_digit(s[0]));
    assert(is_digit(s.last()));
    assert('0' as u32 == 48);
    lemma_char_eq_code(s[0], '0');
    if s.len() == 1 {
        assert(digit_val(s[0]) >= 1);
        assert(s.drop_last().len() == 0);
        assert(digits_val(s) == digits_val(s.drop_last()) * 10 + digit_val(s.last()));
        assert(digits_val(s.drop_last()) == 0);
        assert(pow10(0) == 1);
    } else {
        assert(s.drop_last()[0] == s[0]);
        assert(all_digits(s.drop_last())) by {
            assert(forall|j: int| 0 <= j < s.drop_last().len() ==> s.drop_last()[j] == s[j]);
        }
        lemma_digits_val_lower(s.drop_last());
        assert(0 <= digit_val(s.last()));
        assert(digits_val(s) == digits_val(s.drop_last()) * 10 + digit_val(s.last()));
        assert(pow10((s.len() - 1) as nat) == 10 * pow10((s.len() - 2) as nat));
        assert(digits_val(s.drop_last()) * 10 >= pow10((s.len() - 2) as nat) * 10);
    }
}

/// Read a lexeme of integer form back as a machine integer; `None` when
/// the lexeme is not of integer form or its value does not fit.
#[verifier::loop_isolation(false)]
#[verifier::rlimit(50)]
pub fn lexeme_to_int(s: &str) -> (r: Option<i64>)
    ensures
        r == match int_form_val(s@) {
            Some(v) => if -0x8000_0000_0000_0000 <= v <= 0x7fff_ffff_ffff_ffff {
                Some(v as i64)
            } else {
                None::<i64>
            },
            None => None::<i64>,
        },
{
    let n = s.unicode_len();
    let neg = n > 0 && s.get_char(0) == '-';
    let start: usize = if neg {
        1
    } else {
        0
    };
    let ghost digits = if neg {
        s@.drop_first()
    } else {
        s@
    };
    assert(digits =~= s@.subrange(start as int, n as int));
    if start >= n {
        return None;
    }
    if s.get_char(start) == '0' && n - start > 1 {
        return None;
    }
    if n - start >= 20 {
        // Even the smallest twenty-digit run of digits is beyond i64.
        proof {
            if canonical_digits(digits) {
                assert(digits[0] != '0');
                lemma_digits_val_lower(digits);
                lemma_pow10_monotone(19, (digits.len() - 1) as nat);
                reveal_with_fuel(pow10, 20);
                assert(pow10(19) == 10_000_000_000_000_000_000);
            }
        }
        return None;
    }
    let mut acc: i128 = 0;
    let mut j: usize = start;
    proof {
        assert(digits.subrange(0, 0) =~= Seq::<char>::empty());
        assert(pow10(0) == 1);
    }
    while j < n
        invariant
            start <= j <= n,
            n == s@.len(),
            n - start < 20,
            digits == s@.subrange(start as int, n as int),
            all_digits(digits.subrange(0, j - start)),
            acc == digits_val(digits.subrange(0, j - start)),
            0 <= acc < pow10((j - start) as nat),
        decreases n - j,
    {
        let c = s.get_char(j);
        let u = c as u32;
        if !(48 <= u && u <= 57) {
            proof {
                assert(digits[j - start] == c);
                assert(!is_digit(c));
                assert(!all_digits(digits));
                assert(!canonical_digits(digits));
                if neg {
                    assert(s@[0] == '-');
                    assert(int_form_val(s@) is None);
                } else {
                    assert(int_form_val(s@) is None);
                }
            }
            return None;
        }
        let d: i128 = u as i128 - 48;
        proof {
            let pre = digits.subrange(0, j - start);
            let cur = digits.subrange(0, j + 1 - start);
            assert(cur.drop_last() =~= pre);
            assert(cur.last() == digits[j - start] == c);
            assert('0' as u32 == 48);
            assert(0 <= d <= 9);
            lemma_pow10_monotone((j - start) as nat, 19);
            reveal_with_fuel(pow10, 20);
            assert(pow10(19) == 10_000_000_000_000_000_000);
            assert(pow10((j + 1 - start) as nat) == 10 * pow10((j - start) as nat));
        }
        acc = acc * 10 + d;
        j = j + 1;
    }
    proof {
        assert(digits.subrange(0, n - start) =~= digits);
        assert(canonical_digits(digits));
        if neg {
            assert(int_form_val(s@) == Some(-digits_val(digits)));
        } else {
            assert(s@[0] != '-');
            assert(int_form_val(s@) == Some(digits_val(digits)));
        }
        lemma_pow10_monotone((n - start) as nat, 19);
        reveal_with_fuel(pow10, 20);
        assert(pow10(19) == 10_000_000_000_000_000_000);
    }
    if neg {
        if acc <= 0x8000_0000_0000_0000 {
            let v: i128 = -acc;
            Some(v as i64)
        } else {
            None
        }
    } else {
        if acc <= 0x7fff_ffff_ffff_ffff {
            Some(acc as i64)
        } else {
            None
        }
    }
}

pub proof fn lemma_pow10_pos(a: nat)
    ensures
        pow10(a) >= 1,
    decreases a,
{
    if a > 0 {
        lemma_pow10_pos((a - 1) as nat);
    }
}

pub proof fn lemma_pow10_monotone(a: nat, b: nat)
    requires
        a <= b,
    ensures
        1 <= pow10(a) <= pow10(b),
    decreases b,
{
    if a == b {
        lemma_pow10_pos(a);
    } else {
        lemma_pow10_monotone(a, (b - 1) as nat);
    }
}

/// The decimal rendering of a signed integer, as a string.
pub fn int_to_lexeme(n: i64) -> (r: String)
    ensures
        r@ == int_lexeme(n as int),
{
    let mut out = String::new();
    if n < 0 {
        push_char(&mut out, '-');
        let wide: i128 = -(n as i128);
        let mag: u64 = wide as u64;
        push_dec(mag, &mut out);
        assert(out@ =~= int_lexeme(n as int));
    } else {
        push_dec(n as u64, &mut out);
    }
    out
}

} // verus!
