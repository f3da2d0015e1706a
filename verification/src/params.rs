//! Reading the integer arguments of the table functions.

use vstd::prelude::*;
use crate::text::chars_of;

verus! {

/// Why a text is not an unsigned integer; the kinds of `ParseIntError`
/// that an unsigned parse can give.
#[derive(Clone, Copy, PartialEq, Eq, Debug)]
pub enum IntError {
    /// The text is empty.
    Empty,
    /// The text holds a character that is not a digit where a digit is due.
    InvalidDigit,
    /// The value is too large for `usize`.
    PosOverflow,
}

/// Whether `c` is an ASCII decimal digit.
pub open spec fn is_digit(c: char) -> bool {
    '0' <= c && c <= '9'
}

/// The value of the decimal digit `c`.
pub open spec fn digit_value(c: char) -> int {
    (c as u32) - ('0' as u32)
}

/// The value of a run of decimal digits, read left to right: the first
/// character that is not a digit, or the first digit that takes the value
/// past `usize::MAX`, decides the error.
pub open spec fn digits_value(d: Seq<char>) -> Result<int, IntError>
    decreases d.len(),
{
    if d.len() == 0 {
        Ok(0)
    } else {
        match digits_value(d.drop_last()) {
            Err(e) => Err(e),
            Ok(v) => if !is_digit(d.last()) {
                Err(IntError::InvalidDigit)
            } else if v * 10 + digit_value(d.last()) > usize::MAX {
                Err(IntError::PosOverflow)
            } else {
                Ok(v * 10 + digit_value(d.last()))
            },
        }
    }
}

/// What `str::parse::<usize>` gives for `s`: an optional leading `+`, then
/// decimal digits. A lone sign is an invalid digit; a `-` is never accepted.
pub open spec fn decimal_usize(s: Seq<char>) -> Result<usize, IntError> {
    if s.len() == 0 {
        Err(IntError::Empty)
    } else if s.len() == 1 && (s[0] == '+' || s[0] == '-') {
        Err(IntError::InvalidDigit)
    } else {
        let d = if s[0] == '+' { s.drop_first() } else { s };
        match digits_value(d) {
            Ok(v) => Ok(v as usize),
            Err(e) => Err(e),
        }
    }
}

proof fn lemma_digits_value_bounded(d: Seq<char>)
    ensures
        digits_value(d) matches Ok(v) ==> 0 <= v <= usize::MAX,
    decreases d.len(),
{
    if d.len() > 0 {
        lemma_digits_value_bounded(d.drop_last());
    }
}

/// Reads an argument as an unsigned integer, as `str::parse::<usize>` does.
pub fn parse_usize(s: &str) -> (r: Result<usize, IntError>)
    ensures
        r == decimal_usize(s@),
{
    let v = chars_of(s);
    let n = v.len();
    if n == 0 {
        return Err(IntError::Empty);
    }
    if n == 1 && (v[0] == '+' || v[0] == '-') {
        return Err(IntError::InvalidDigit);
    }
    let first: usize = if v[0] == '+' { 1 } else { 0 };
    let ghost d = if s@[0] == '+' { s@.drop_first() } else { s@ };
    assert(d =~= v@.subrange(first as int, n as int));
    let mut acc: usize = 0;
    let mut k = first;
    assert(v@.subrange(first as int, first as int) =~= Seq::<char>::empty());
    while k < n
        invariant
            first <= k <= n == v@.len(),
            v@ == s@,
            n > 0,
            !(n == 1 && (s@[0] == '+' || s@[0] == '-')),
            d == (if s@[0] == '+' { s@.drop_first() } else { s@ }),
            d == v@.subrange(first as int, n as int),
            digits_value(v@.subrange(first as int, k as int)) == Ok::<int, IntError>(acc as int),
        decreases n - k,
    {
        let c = v[k];
        assert(v@.subrange(first as int, k + 1).drop_last() =~= v@.subrange(
            first as int,
            k as int,
        ));
        if !('0' <= c && c <= '9') {
            proof {
                let whole = v@.subrange(first as int, n as int);
                assert(whole.take(k - first) =~= v@.subrange(first as int, k as int));
                assert(whole.take(k - first + 1) =~= v@.subrange(first as int, k + 1));
                lemma_digits_prefix_error(whole, k - first);
            }
            return Err(IntError::InvalidDigit);
        }
        let dv = (c as u32 - '0' as u32) as usize;
        assert(dv as int == digit_value(c));
        if acc > (usize::MAX - dv) / 10 {
            assert(acc * 10 + dv > usize::MAX) by (nonlinear_arith)
                requires
                    acc > (usize::MAX - dv) / 10,
                    dv <= 9,
            ;
            proof {
                let whole = v@.subrange(first as int, n as int);
                assert(whole.take(k - first) =~= v@.subrange(first as int, k as int));
                assert(whole.take(k - first + 1) =~= v@.subrange(first as int, k + 1));
                lemma_digits_prefix_error(whole, k - first);
            }
            return Err(IntError::PosOverflow);
        }
        assert(acc * 10 + dv <= usize::MAX) by (nonlinear_arith)
            requires
                acc <= (usize::MAX - dv) / 10,
                dv <= 9,
        ;
        acc = acc * 10 + dv;
        k = k + 1;
    }
    assert(v@.subrange(first as int, n as int) == d);
    Ok(acc)
}

/// A single decimal digit reads as its value.
pub proof fn lemma_one_digit(c: char)
    requires
        '0' <= c <= '9',
    ensures
        decimal_usize(seq![c]) == Ok::<usize, IntError>((c as u32 - '0' as u32) as usize),
{
    let t = seq![c];
    assert(t.drop_last() =~= Seq::<char>::empty());
    assert(digits_value(t.drop_last()) == Ok::<int, IntError>(0));
    assert(t.last() == c && t[0] == c);
    assert(digits_value(t) == Ok::<int, IntError>(digit_value(c)));
}

/// Appending a decimal digit `c` to a run of decimal digits that reads as
/// `v` gives `10 * v` plus the value of `c`, as long as that fits a
/// `usize`, and an overflow otherwise.
pub proof fn lemma_append_digit(s: Seq<char>, c: char)
    requires
        s.len() > 0,
        forall|i: int| 0 <= i < s.len() ==> '0' <= #[trigger] s[i] <= '9',
        '0' <= c <= '9',
    ensures
        decimal_usize(s) matches Ok(v) ==> decimal_usize(s.push(c)) == (if v * 10 + (c as u32
            - '0' as u32) <= usize::MAX {
            Ok::<usize, IntError>((v * 10 + (c as u32 - '0' as u32)) as usize)
        } else {
            Err(IntError::PosOverflow)
        }),
{
    let t = s.push(c);
    assert(t[0] == s[0]);
    assert('0' <= s[0] <= '9');
    assert(t.drop_last() =~= s);
    lemma_digits_value_bounded(s);
}

/// Once a prefix of a digit run fails, the whole run fails the same way.
proof fn lemma_digits_prefix_error(d: Seq<char>, m: int)
    requires
        0 <= m < d.len(),
        digits_value(d.take(m)) is Ok,
        digits_value(d.take(m + 1)) is Err,
    ensures
        digits_value(d) == digits_value(d.take(m + 1)),
    decreases d.len(),
{
    if d.len() > m + 1 {
        assert(d.drop_last().take(m) =~= d.take(m));
        assert(d.drop_last().take(m + 1) =~= d.take(m + 1));
        lemma_digits_prefix_error(d.drop_last(), m);
    } else {
        assert(d.take(m + 1) =~= d);
    }
}

} // verus!
