//! Decimal numerals: the value of a digit string, parsing a signed
//! 32-bit integer from text, and printing an integer back as text.

use vstd::prelude::*;
use crate::chars::digit_char;
use crate::chars::is_digit;
use crate::chars::digit_of;
use crate::chars::digit_value;
use crate::chars::is_digit_char;

verus! {

/// The value of a string of decimal digits, most significant first.
pub open spec fn digits_val(s: Seq<char>) -> int
    decreases s.len(),
{
    if s.len() == 0 {
        0
    } else {
        digits_val(s.drop_last()) * 10 + digit_of(s.last())
    }
}

/// Every character of `s` is a decimal digit.
pub open spec fn all_digits(s: Seq<char>) -> bool {
    forall|k: int| 0 <= k < s.len() ==> is_digit_char(#[trigger] s[k])
}

/// What `str::parse::<i32>` accepts: an optional single leading sign,
/// then one or more decimal digits, and a value within the 32-bit
/// signed range; anything else is rejected.
pub open spec fn spec_parse_i32(s: Seq<char>) -> Option<int> {
    if s.len() == 0 {
        None
    } else if s[0] == '+' || s[0] == '-' {
        let mag = s.subrange(1, s.len() as int);
        if mag.len() == 0 || !all_digits(mag) {
            None
        } else {
            let v = if s[0] == '-' {
                -digits_val(mag)
            } else {
                digits_val(mag)
            };
            if -2147483648 <= v <= 2147483647 {
                Some(v)
            } else {
                None
            }
        }
    } else if all_digits(s) {
        if digits_val(s) <= 2147483647 {
            Some(digits_val(s))
        } else {
            None
        }
    } else {
        None
    }
}

/// The decimal digits of a nonnegative integer, no sign, no leading
/// zeros (a lone zero for zero).
pub open spec fn dec_digits(n: int) -> Seq<char>
    decreases n,
{
    if n <= 9 {
        seq![digit_char(n)]
    } else {
        dec_digits(n / 10).push(digit_char(n % 10))
    }
}

/// The decimal text of an integer, with a leading minus sign when it
/// is negative.
pub open spec fn int_str(v: int) -> Seq<char> {
    if v < 0 {
        seq!['-'] + dec_digits(-v)
    } else {
        dec_digits(v)
    }
}

pub proof fn lemma_digits_val_nonneg(s: Seq<char>)
    requires
        all_digits(s),
    ensures
        digits_val(s) >= 0,
    decreases s.len(),
{
    if s.len() > 0 {
        assert(all_digits(s.drop_last()));
        lemma_digits_val_nonneg(s.drop_last());
    }
}

/// Appending digits to a numeral never shrinks its value.
pub proof fn lemma_digits_val_prefix(s: Seq<char>, m: int)
    requires
        all_digits(s),
        0 <= m <= s.len(),
    ensures
        digits_val(s.subrange(0, m)) <= digits_val(s),
    decreases s.len() - m,
{
    if m < s.len() {
        lemma_digits_val_prefix(s, m + 1);
        assert(s.subrange(0, m + 1).drop_last() =~= s.subrange(0, m));
        assert(all_digits(s.subrange(0, m)));
        lemma_digits_val_nonneg(s.subrange(0, m));
        assert(digits_val(s.subrange(0, m + 1)) == digits_val(s.subrange(0, m)) * 10 + digit_of(
            s.subrange(0, m + 1).last(),
        ));
    } else {
        assert(s.subrange(0, m) =~= s);
    }
}

/// Parses a signed 32-bit integer from text, exactly as
/// `spec_parse_i32` describes.
pub fn parse_i32(s: &str) -> (r: Option<i32>)
    ensures
        r is Some <==> spec_parse_i32(s@) is Some,
        r is Some ==> r->0 as int == spec_parse_i32(s@)->0,
{
    let n = s.unicode_len();
    if n == 0 {
        return None;
    }
    let c0 = s.get_char(0);
    let signed = c0 == '-' || c0 == '+';
    let neg = c0 == '-';
    let start: usize = if signed {
        1
    } else {
        0
    };
    if start == n {
        return None;
    }
    let ghost mag = if signed {
        s@.subrange(1, s@.len() as int)
    } else {
        s@
    };
    let mut acc: u64 = 0;
    let mut i: usize = start;
    while i < n
        invariant
            n == s@.len(),
            start <= i <= n,
            start <= 1,
            start < n,
            (s@[0] == '+' || s@[0] == '-') <==> start == 1,
            mag == (if start == 1 {
                s@.subrange(1, s@.len() as int)
            } else {
                s@
            }),
            forall|k: int| start <= k < i ==> is_digit_char(#[trigger] s@[k]),
            acc == digits_val(s@.subrange(start as int, i as int)),
            acc <= 2147483648,
        decreases n - i,
    {
        let c = s.get_char(i);
        if !is_digit(c) {
            proof {
                assert(mag[i - start] == s@[i as int]);
                assert(!all_digits(mag));
            }
            return None;
        }
        let d = digit_value(c);
        proof {
            assert(s@.subrange(start as int, i as int + 1).drop_last() =~= s@.subrange(
                start as int,
                i as int,
            ));
        }
        acc = acc * 10 + (d as u64);
        if acc > 2147483648 {
            proof {
                assert(forall|k: int| 0 <= k < mag.len() ==> mag[k] == s@[k + start]);
                if all_digits(mag) {
                    assert(mag.subrange(0, i + 1 - start) =~= s@.subrange(
                        start as int,
                        i as int + 1,
                    ));
                    lemma_digits_val_prefix(mag, i + 1 - start);
                    assert(digits_val(mag) > 2147483648);
                }
            }
            return None;
        }
        i = i + 1;
    }
    proof {
        assert(mag =~= s@.subrange(start as int, n as int));
        assert(all_digits(mag));
        if start == 0 {
            assert(!(s@[0] == '+' || s@[0] == '-'));
        }
    }
    if neg {
        let v: i64 = -(acc as i64);
        Some(v as i32)
    } else {
        if acc > 2147483647 {
            return None;
        }
        Some(acc as i32)
    }
}

/// Writes the decimal digits of `n` onto the end of `out`.
pub fn append_dec(out: &mut String, n: u32)
    ensures
        final(out)@ == old(out)@ + dec_digits(n as int),
    decreases n,
{
    if n <= 9 {
        out.append(digit_str(n));
    } else {
        let ghost before = out@;
        append_dec(out, n / 10);
        out.append(digit_str(n % 10));
        proof {
            assert(before + dec_digits(n as int / 10) + dec_digits((n % 10) as int) =~= before
                + dec_digits(n as int));
            assert((n % 10) as int <= 9);
            assert(dec_digits((n % 10) as int) =~= seq![digit_char((n % 10) as int)]);
            assert(dec_digits(n as int) =~= dec_digits(n as int / 10).push(
                digit_char(n as int % 10),
            ));
        }
    }
}

/// The one-character string for a decimal digit.
pub fn digit_str(d: u32) -> (r: &'static str)
    requires
        d <= 9,
    ensures
        r@ == seq![digit_char(d as int)],
{
    proof {
        reveal_strlit("0");
        reveal_strlit("1");
        reveal_strlit("2");
        reveal_strlit("3");
        reveal_strlit("4");
        reveal_strlit("5");
        reveal_strlit("6");
        reveal_strlit("7");
        reveal_strlit("8");
        reveal_strlit("9");
    }
    let r = if d == 0 {
        "0"
    } else if d == 1 {
        "1"
    } else if d == 2 {
        "2"
    } else if d == 3 {
        "3"
    } else if d == 4 {
        "4"
    } else if d == 5 {
        "5"
    } else if d == 6 {
        "6"
    } else if d == 7 {
        "7"
    } else if d == 8 {
        "8"
    } else {
        "9"
    };
    proof {
        assert(r@ =~= seq![digit_char(d as int)]);
    }
    r
}

/// The decimal text of a signed 32-bit integer.
pub fn i32_string(v: i32) -> (r: String)
    ensures
        r@ == int_str(v as int),
{
    let mut out = String::new();
    if v < 0 {
        out.append("-");
        let mag: u32 = (-(v as i64)) as u32;
        append_dec(&mut out, mag);
        proof {
            reveal_strlit("-");
            assert("-"@ =~= seq!['-']);
            assert(seq!['-'] + dec_digits(mag as int) =~= int_str(v as int));
        }
    } else {
        append_dec(&mut out, v as u32);
    }
    proof {
        assert(Seq::<char>::empty() + int_str(v as int) =~= int_str(v as int));
    }
    out
}

} // verus!
