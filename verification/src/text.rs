//! Character-level helpers shared by the argument parser and the path logic.

use vstd::prelude::*;

verus! {

/// Whether `s` begins with a dash, the mark of an option flag.
pub open spec fn starts_with_dash(s: Seq<char>) -> bool {
    s.len() > 0 && s[0] == '-'
}

/// Tests whether a string begins with `-`.
pub fn has_dash_prefix(s: &str) -> (res: bool)
    ensures
        res == starts_with_dash(s@),
{
    let n = s.unicode_len();
    n > 0 && s.get_char(0) == '-'
}

/// Tests whether `arg` holds exactly the characters of `lit`.
pub fn is_literal(arg: &String, lit: &str) -> (res: bool)
    ensures
        res == (arg@ == lit@),
{
    let other = String::from_str(lit);
    *arg == other
}

} // verus!

verus! {

/// Whether `c` is one of the ASCII digits `0` to `9`.
pub open spec fn is_digit(c: char) -> bool {
    '0' <= c && c <= '9'
}

/// The number that an ASCII digit stands for.
pub open spec fn digit_value(c: char) -> int {
    c as int - '0' as int
}

/// Whether every character of `s` is an ASCII digit.
pub open spec fn all_digits(s: Seq<char>) -> bool {
    forall|i: int| 0 <= i < s.len() ==> is_digit(#[trigger] s[i])
}

/// The value of a string of decimal digits, most significant first.
pub open spec fn decimal_value(s: Seq<char>) -> nat
    decreases s.len(),
{
    if s.len() == 0 {
        0
    } else {
        (decimal_value(s.drop_last()) * 10 + digit_value(s.last())) as nat
    }
}

/// What `str::parse` yields for an unsigned integer type whose largest value is
/// `max`: an optional leading `+`, then at least one ASCII digit and nothing
/// else, with a value that fits.
pub open spec fn unsigned_value(s: Seq<char>, max: nat) -> Option<nat> {
    let digits = if s.len() > 0 && s[0] == '+' {
        s.drop_first()
    } else {
        s
    };
    if digits.len() > 0 && all_digits(digits) && decimal_value(digits) <= max {
        Some(decimal_value(digits))
    } else {
        None
    }
}

proof fn lemma_decimal_value_step(s: Seq<char>, i: int)
    requires
        0 <= i < s.len(),
        is_digit(s[i]),
    ensures
        decimal_value(s.take(i + 1)) == decimal_value(s.take(i)) * 10 + digit_value(s[i]),
{
    assert(s.take(i + 1).drop_last() =~= s.take(i));
}

/// Parses `s` as an unsigned decimal number no larger than `max`, with the
/// rules of `str::parse` for unsigned integer types.
pub fn parse_unsigned(s: &str, max: usize) -> (res: Option<usize>)
    ensures
        res matches Some(v) ==> unsigned_value(s@, max as nat) == Some(v as nat),
        res is None ==> unsigned_value(s@, max as nat) is None,
{
    let n = s.unicode_len();
    let mut start: usize = 0;
    if n > 0 && s.get_char(0) == '+' {
        start = 1;
    }
    let ghost digits = if s@.len() > 0 && s@[0] == '+' {
        s@.drop_first()
    } else {
        s@
    };
    assert(digits =~= s@.subrange(start as int, n as int));
    if start == n {
        return None;
    }
    let mut acc: usize = 0;
    let mut overflowed = false;
    let mut i: usize = start;
    while i < n
        invariant
            start <= i <= n,
            n == s@.len(),
            digits =~= s@.subrange(start as int, n as int),
            digits == (if s@.len() > 0 && s@[0] == '+' {
                s@.drop_first()
            } else {
                s@
            }),
            all_digits(digits.take(i - start)),
            !overflowed ==> acc == decimal_value(digits.take(i - start)) && acc <= max,
            overflowed ==> decimal_value(digits.take(i - start)) > max,
        decreases n - i,
    {
        let c = s.get_char(i);
        if !('0' <= c && c <= '9') {
            assert(digits[i - start] == c);
            assert(!is_digit(digits[i - start]));
            assert(!all_digits(digits));
            assert(unsigned_value(s@, max as nat) is None);
            return None;
        }
        let d: usize = (c as u32 - '0' as u32) as usize;
        proof {
            lemma_decimal_value_step(digits, i - start);
            assert(digits.take(i - start + 1) =~= digits.take(i - start).push(c));
            assert(digits[i - start] == c);
        }
        if !overflowed {
            if d > max || acc > (max - d) / 10 {
                assert(acc * 10 + d > max) by (nonlinear_arith)
                    requires
                        d > max || acc > (max - d) / 10,
                        d <= max ==> (max - d) >= 0,
                        acc >= 0,
                ;
                overflowed = true;
            } else {
                assert(acc * 10 + d <= max) by (nonlinear_arith)
                    requires
                        acc <= (max - d) / 10,
                        d <= max,
                ;
                acc = acc * 10 + d;
            }
        } else {
            assert(decimal_value(digits.take(i - start)) * 10 + d > max) by (nonlinear_arith)
                requires
                    decimal_value(digits.take(i - start)) > max,
            ;
        }
        i = i + 1;
    }
    assert(digits.take(n - start) =~= digits);
    if overflowed {
        None
    } else {
        Some(acc)
    }
}

} // verus!
