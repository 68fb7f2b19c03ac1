//! Decimal text for `u64` values: rendering, parsing, and the proof that
//! parsing inverts rendering. The JSON codec uses this for timestamps and
//! the tab controller for the numeric part of tab labels.

use vstd::prelude::*;

verus! {

/// An ASCII decimal digit.
pub open spec fn is_digit_char(c: char) -> bool {
    48 <= c as u32 && c as u32 <= 57
}

/// The numeric value of a decimal digit.
pub open spec fn digit_val(c: char) -> int {
    c as u32 - 48
}

/// The decimal digit with value `d`.
pub open spec fn char_of_digit(d: int) -> char {
    if d == 0 {
        '0'
    } else if d == 1 {
        '1'
    } else if d == 2 {
        '2'
    } else if d == 3 {
        '3'
    } else if d == 4 {
        '4'
    } else if d == 5 {
        '5'
    } else if d == 6 {
        '6'
    } else if d == 7 {
        '7'
    } else if d == 8 {
        '8'
    } else {
        '9'
    }
}

/// The decimal digits of `n`, most significant first, without leading zeros
/// (a single `'0'` for zero).
pub open spec fn spec_digits(n: u64) -> Seq<char>
    decreases n,
{
    if n < 10 {
        seq![char_of_digit(n as int)]
    } else {
        spec_digits((n / 10) as u64).push(char_of_digit((n % 10) as int))
    }
}

/// Reads digits from the front of `s` into `acc`, stopping at the first
/// non-digit; fails on overflow past `u64::MAX`.
pub open spec fn parse_digits_rec(s: Seq<char>, acc: u64) -> Option<(u64, Seq<char>)>
    decreases s.len(),
{
    if s.len() == 0 || !is_digit_char(s[0]) {
        Some((acc, s))
    } else if acc * 10 + digit_val(s[0]) <= u64::MAX {
        parse_digits_rec(s.drop_first(), (acc * 10 + digit_val(s[0])) as u64)
    } else {
        None
    }
}

/// Reads a decimal number from the front of `s`: at least one digit,
/// stopping at the first non-digit; fails when no digit leads or the value
/// does not fit in `u64`.
pub open spec fn spec_parse_u64(s: Seq<char>) -> Option<(u64, Seq<char>)> {
    if s.len() > 0 && is_digit_char(s[0]) {
        parse_digits_rec(s, 0)
    } else {
        None
    }
}

/// The exec digit with value `d`.
pub fn digit_char(d: u64) -> (c: char)
    requires
        d < 10,
    ensures
        c == char_of_digit(d as int),
{
    match d {
        0 => '0',
        1 => '1',
        2 => '2',
        3 => '3',
        4 => '4',
        5 => '5',
        6 => '6',
        7 => '7',
        8 => '8',
        _ => '9',
    }
}

/// Appends the decimal digits of `n` to `out`.
pub fn push_digits(n: u64, out: &mut Vec<char>)
    ensures
        final(out)@ == old(out)@ + spec_digits(n),
    decreases n,
{
    if n < 10 {
        out.push(digit_char(n));
        proof {
            assert(out@ =~= old(out)@ + spec_digits(n));
        }
    } else {
        push_digits(n / 10, out);
        out.push(digit_char(n % 10));
        proof {
            assert(out@ =~= old(out)@ + spec_digits(n));
        }
    }
}

/// Reads a decimal number from position `i` of `v`, as `spec_parse_u64`
/// reads the remainder of the text from there.
pub fn parse_u64_chars(v: &Vec<char>, i: usize) -> (r: Option<(u64, usize)>)
    requires
        i <= v@.len(),
    ensures
        match r {
            Some((n, j)) => i <= j <= v@.len() && spec_parse_u64(v@.skip(i as int)) == Some(
                (n, v@.skip(j as int)),
            ),
            None => spec_parse_u64(v@.skip(i as int)) is None,
        },
{
    if i == v.len() {
        return None;
    }
    let c0 = v[i];
    let cu0 = c0 as u32;
    proof {
        assert(v@.skip(i as int)[0] == v@[i as int]);
    }
    if !(48 <= cu0 && cu0 <= 57) {
        return None;
    }
    let mut acc: u64 = 0;
    let mut k: usize = i;
    loop
        invariant
            i <= k <= v@.len(),
            parse_digits_rec(v@.skip(i as int), 0) == parse_digits_rec(v@.skip(k as int), acc),
            v@.skip(i as int).len() > 0 && is_digit_char(v@.skip(i as int)[0]),
        decreases v@.len() - k,
    {
        if k == v.len() {
            proof {
                assert(v@.skip(k as int).len() == 0);
            }
            return Some((acc, k));
        }
        let c = v[k];
        let cu = c as u32;
        proof {
            assert(v@.skip(k as int)[0] == v@[k as int]);
        }
        if !(48 <= cu && cu <= 57) {
            return Some((acc, k));
        }
        let d = (cu - 48) as u64;
        proof {
            assert(digit_val(v@.skip(k as int)[0]) == d);
            assert(v@.skip(k as int).drop_first() =~= v@.skip(k as int + 1));
        }
        match acc.checked_mul(10) {
            None => {
                return None;
            },
            Some(t) => {
                match t.checked_add(d) {
                    None => {
                        return None;
                    },
                    Some(a2) => {
                        acc = a2;
                        k = k + 1;
                    },
                }
            },
        }
    }
}

/// The number of digits `spec_digits` renders for `n`.
pub open spec fn num_digits(n: u64) -> nat
    decreases n,
{
    if n < 10 {
        1
    } else {
        num_digits((n / 10) as u64) + 1
    }
}

/// Ten to the `k`.
pub open spec fn pow10(k: nat) -> int
    decreases k,
{
    if k == 0 {
        1
    } else {
        10 * pow10((k - 1) as nat)
    }
}

proof fn lemma_digits_first_is_digit(n: u64)
    ensures
        spec_digits(n).len() >= 1,
        is_digit_char(spec_digits(n)[0]),
    decreases n,
{
    if n >= 10 {
        lemma_digits_first_is_digit((n / 10) as u64);
    }
}

proof fn lemma_pow10_pos(k: nat)
    ensures
        pow10(k) >= 1,
    decreases k,
{
    if k > 0 {
        lemma_pow10_pos((k - 1) as nat);
    }
}

proof fn lemma_parse_digits_shift(n: u64, acc: u64, rest: Seq<char>)
    requires
        acc * pow10(num_digits(n)) + n <= u64::MAX,
    ensures
        parse_digits_rec(spec_digits(n) + rest, acc) == parse_digits_rec(
            rest,
            (acc * pow10(num_digits(n)) + n) as u64,
        ),
    decreases n,
{
    lemma_digits_first_is_digit(n);
    if n < 10 {
        let s = spec_digits(n) + rest;
        assert(s[0] == char_of_digit(n as int));
        assert(digit_val(s[0]) == n as int);
        assert(pow10(0) == 1);
        assert(pow10(1) == 10);
        assert(s.drop_first() =~= rest);
    } else {
        let m = (n / 10) as u64;
        let d = (n % 10) as int;
        let p = pow10(num_digits(m));
        lemma_pow10_pos(num_digits(m));
        let last = char_of_digit(d);
        assert(spec_digits(n) + rest =~= spec_digits(m) + (seq![last] + rest));
        assert(pow10(num_digits(n)) == 10 * p);
        assert(acc * (10 * p) == 10 * (acc * p)) by (nonlinear_arith);
        assert(10 * (acc * p) + n <= u64::MAX);
        assert(acc * p >= 0) by (nonlinear_arith)
            requires
                acc >= 0,
                p >= 1,
        ;
        assert(10 * m + d == n);
        assert(acc * p + m <= u64::MAX);
        lemma_parse_digits_shift(m, acc, seq![last] + rest);
        let mid = (acc * p + m) as u64;
        assert(mid == acc * p + m);
        let s2 = seq![last] + rest;
        assert(s2[0] == last);
        assert(is_digit_char(last));
        assert(digit_val(last) == d);
        assert(mid * 10 + d == acc * pow10(num_digits(n)) + n);
        assert(s2.drop_first() =~= rest);
    }
}

/// Parsing the rendered digits of `n` yields `n` back and leaves `rest`,
/// whenever `rest` does not begin with another digit.
pub proof fn lemma_digits_round_trip(n: u64, rest: Seq<char>)
    requires
        rest.len() == 0 || !is_digit_char(rest[0]),
    ensures
        spec_parse_u64(spec_digits(n) + rest) == Some((n, rest)),
{
    lemma_digits_first_is_digit(n);
    assert((spec_digits(n) + rest)[0] == spec_digits(n)[0]);
    assert(0 * pow10(num_digits(n)) + n <= u64::MAX) by {
        assert(0 * pow10(num_digits(n)) == 0) by (nonlinear_arith);
    }
    lemma_parse_digits_shift(n, 0, rest);
    assert((0 * pow10(num_digits(n)) + n) as u64 == n) by {
        assert(0 * pow10(num_digits(n)) == 0) by (nonlinear_arith);
    }
}

} // verus!
