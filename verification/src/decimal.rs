//! Decimal text of integers: an optional sign followed by one or more of the
//! digits `0` to `9`.

use vstd::prelude::*;
use vstd::string::*;

verus! {

/// Whether `c` is one of the digits `0` to `9`.
pub open spec fn is_digit(c: char) -> bool {
    48 <= c as u32 <= 57
}

/// The number that the digit `c` stands for.
pub open spec fn digit_value(c: char) -> int {
    c as u32 - 48
}

/// The digit that stands for `d`, a number below ten.
pub open spec fn digit_char(d: int) -> char {
    if d == 0 {
        '0'
    } else if d == 1 {
        '1'
    } else if d == 2 {
        '2'
    } else if d == 3 {
        '3'
    } else if d == 4 {
        '4'
    } else if d == 5 {
        '5'
    } else if d == 6 {
        '6'
    } else if d == 7 {
        '7'
    } else if d == 8 {
        '8'
    } else {
        '9'
    }
}

/// Whether `s` holds digits only.
pub open spec fn all_digits(s: Seq<char>) -> bool {
    forall|i: int| 0 <= i < s.len() ==> is_digit(#[trigger] s[i])
}

/// The number that the digits of `s` write in base ten.
pub open spec fn digits_value(s: Seq<char>) -> int
    decreases s.len(),
{
    if s.len() == 0 {
        0
    } else {
        10 * digits_value(s.drop_last()) + digit_value(s.last())
    }
}

/// The integer that `s` writes: an optional `+` or `-`, then at least one
/// digit and nothing else. `None` for any other text.
pub open spec fn parse_int(s: Seq<char>) -> Option<int> {
    let signed = s.len() > 0 && (s[0] == '-' || s[0] == '+');
    let body = if signed {
        s.drop_first()
    } else {
        s
    };
    if body.len() > 0 && all_digits(body) {
        if signed && s[0] == '-' {
            Some(-digits_value(body))
        } else {
            Some(digits_value(body))
        }
    } else {
        None
    }
}

/// The 32-bit integer that `s` writes. `None` if `s` writes no integer, or
/// one that does not fit.
pub open spec fn parse_i32(s: Seq<char>) -> Option<i32> {
    match parse_int(s) {
        Some(v) => if i32::MIN <= v <= i32::MAX {
            Some(v as i32)
        } else {
            None
        },
        None => None,
    }
}

/// The digits of `n` in base ten, without leading zeros.
pub open spec fn decimal(n: nat) -> Seq<char>
    decreases n,
{
    if n < 10 {
        seq![digit_char(n as int)]
    } else {
        decimal(n / 10).push(digit_char((n % 10) as int))
    }
}

/// The decimal text of `v`: its digits, after a `-` if it is negative.
pub open spec fn int_text(v: int) -> Seq<char> {
    if v < 0 {
        seq!['-'] + decimal((-v) as nat)
    } else {
        decimal(v as nat)
    }
}

/// The value of a run of digits is not negative, and not below the value
/// of any of its prefixes.
pub proof fn lemma_digits_value_monotone(s: Seq<char>, k: int)
    requires
        all_digits(s),
        0 <= k <= s.len(),
    ensures
        0 <= digits_value(s.take(k)) <= digits_value(s),
    decreases s.len() - k,
{
    if k == s.len() {
        assert(s.take(k) =~= s);
        lemma_digits_value_nonnegative(s);
    } else {
        lemma_digits_value_monotone(s, k + 1);
        assert(s.take(k + 1).drop_last() =~= s.take(k));
        assert(is_digit(s[k]));
        assert(s.take(k + 1).last() == s[k]);
        lemma_digits_value_nonnegative(s.take(k));
    }
}

/// The value of a run of digits is not negative.
pub proof fn lemma_digits_value_nonnegative(s: Seq<char>)
    requires
        all_digits(s),
    ensures
        0 <= digits_value(s),
    decreases s.len(),
{
    if s.len() > 0 {
        assert(is_digit(s.last()));
        lemma_digits_value_nonnegative(s.drop_last());
    }
}

/// The digits of `n` are digits, at least one, and write `n`.
pub proof fn lemma_decimal_writes(n: nat)
    ensures
        decimal(n).len() > 0,
        all_digits(decimal(n)),
        digits_value(decimal(n)) == n,
    decreases n,
{
    if n < 10 {
        let s = decimal(n);
        assert(s.drop_last() =~= Seq::<char>::empty());
        assert(digits_value(s.drop_last()) == 0);
    } else {
        lemma_decimal_writes(n / 10);
        let s = decimal(n);
        assert(s.drop_last() =~= decimal(n / 10));
        assert(s.last() == digit_char((n % 10) as int));
    }
}

/// Reading the decimal text of an integer gives the integer back.
pub proof fn lemma_int_text_round_trip(v: int)
    ensures
        parse_int(int_text(v)) == Some(v),
{
    if v < 0 {
        let m = (-v) as nat;
        lemma_decimal_writes(m);
        assert(int_text(v).drop_first() =~= decimal(m));
    } else {
        lemma_decimal_writes(v as nat);
        let s = decimal(v as nat);
        assert(is_digit(s[0]));
    }
}

/// The text of one digit.
fn digit_str(d: u32) -> (r: &'static str)
    requires
        d < 10,
    ensures
        r@ == seq![digit_char(d as int)],
{
    proof {
        reveal_strlit("0");
        reveal_strlit("1");
        reveal_strlit("2");
        reveal_strlit("3");
        reveal_strlit("4");
        reveal_strlit("5");
        reveal_strlit("6");
        reveal_strlit("7");
        reveal_strlit("8");
        reveal_strlit("9");
    }
    let r = if d == 0 {
        "0"
    } else if d == 1 {
        "1"
    } else if d == 2 {
        "2"
    } else if d == 3 {
        "3"
    } else if d == 4 {
        "4"
    } else if d == 5 {
        "5"
    } else if d == 6 {
        "6"
    } else if d == 7 {
        "7"
    } else if d == 8 {
        "8"
    } else {
        "9"
    };
    assert(r@ =~= seq![digit_char(d as int)]);
    r
}

/// Append the digits of `n` to `out`.
pub fn push_decimal(out: &mut String, n: u32)
    ensures
        final(out)@ == old(out)@ + decimal(n as nat),
    decreases n,
{
    if n >= 10 {
        push_decimal(out, n / 10);
    }
    out.append(digit_str(n % 10));
    proof {
        let digit = seq![digit_char((n % 10) as int)];
        if n >= 10 {
            assert(old(out)@ + decimal((n / 10) as nat) + digit =~= old(out)@ + decimal(
                (n / 10) as nat,
            ).push(digit[0]));
        }
    }
}

/// Append the decimal text of `v` to `out`.
pub fn push_i32(out: &mut String, v: i32)
    ensures
        final(out)@ == old(out)@ + int_text(v as int),
{
    if v < 0 {
        proof {
            reveal_strlit("-");
        }
        out.append("-");
        let magnitude: u32 = (-(v as i64)) as u32;
        push_decimal(out, magnitude);
        assert(old(out)@ + "-"@ + decimal(magnitude as nat) =~= old(out)@ + int_text(v as int));
    } else {
        push_decimal(out, v as u32);
    }
}

/// The 32-bit integer that `chars[lo..hi]` writes.
pub fn parse_i32_range(chars: &Vec<char>, lo: usize, hi: usize) -> (r: Option<i32>)
    requires
        lo <= hi <= chars.len(),
    ensures
        r == parse_i32(chars@.subrange(lo as int, hi as int)),
{
    let ghost s = chars@.subrange(lo as int, hi as int);
    let mut i: usize = lo;
    let mut negative = false;
    if i < hi && chars[i] == '-' {
        negative = true;
        i += 1;
    } else if i < hi && chars[i] == '+' {
        i += 1;
    }
    let start = i;
    let ghost body = chars@.subrange(start as int, hi as int);
    proof {
        if start > lo {
            assert(s.drop_first() =~= body);
        } else {
            assert(s =~= body);
        }
    }
    if start == hi {
        return None;
    }
    let mut magnitude: i64 = 0;
    assert(body.take(0) =~= Seq::<char>::empty());
    while i < hi
        invariant
            start <= i <= hi <= chars.len(),
            body == chars@.subrange(start as int, hi as int),
            s == chars@.subrange(lo as int, hi as int),
            !all_digits(body) ==> parse_int(s) is None,
            all_digits(body) ==> parse_int(s) == Some(
                if negative {
                    -digits_value(body)
                } else {
                    digits_value(body)
                },
            ),
            all_digits(body.take(i - start)),
            magnitude == digits_value(body.take(i - start)),
            0 <= magnitude <= 2147483648,
        decreases hi - i,
    {
        let code: u32 = chars[i] as u32;
        if code < 48 || code > 57 {
            assert(!is_digit(body[i - start]));
            return None;
        }
        proof {
            let longer = body.take(i - start + 1);
            assert(longer.drop_last() =~= body.take(i - start));
            assert(longer.last() == chars@[i as int]);
            assert forall|k: int| 0 <= k < longer.len() implies is_digit(#[trigger] longer[k]) by {
                if k < i - start {
                    assert(body.take(i - start)[k] == longer[k]);
                }
            }
        }
        magnitude = magnitude * 10 + (code - 48) as i64;
        if magnitude > 2147483648 {
            proof {
                if all_digits(body) {
                    lemma_digits_value_monotone(body, i - start + 1);
                }
            }
            return None;
        }
        i += 1;
    }
    assert(body.take(hi - start) =~= body);
    if negative {
        Some((-magnitude) as i32)
    } else if magnitude <= 2147483647 {
        Some(magnitude as i32)
    } else {
        None
    }
}

} // verus!
