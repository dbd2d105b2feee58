//! Decimal formatting and parsing of the integer wire types, with the
//! inversion lemmas the round-trip law rests on.

use vstd::prelude::*;

use crate::values::is_digit_char;

verus! {

/// The digit character of `n` (for `0 <= n < 10`).
pub open spec fn digit_char(n: int) -> char {
    if n == 0 {
        '0'
    } else if n == 1 {
        '1'
    } else if n == 2 {
        '2'
    } else if n == 3 {
        '3'
    } else if n == 4 {
        '4'
    } else if n == 5 {
        '5'
    } else if n == 6 {
        '6'
    } else if n == 7 {
        '7'
    } else if n == 8 {
        '8'
    } else {
        '9'
    }
}

/// The numeric value of a digit character.
pub open spec fn digit_val(c: char) -> nat {
    if c == '0' {
        0
    } else if c == '1' {
        1
    } else if c == '2' {
        2
    } else if c == '3' {
        3
    } else if c == '4' {
        4
    } else if c == '5' {
        5
    } else if c == '6' {
        6
    } else if c == '7' {
        7
    } else if c == '8' {
        8
    } else {
        9
    }
}

/// The decimal digit run of `n`, most significant digit first, without
/// leading zeros (`0` is the single digit `0`).
pub open spec fn dec_digits(n: nat) -> Seq<char>
    decreases n,
{
    if n < 10 {
        seq![digit_char(n as int)]
    } else {
        dec_digits(n / 10).push(digit_char((n % 10) as int))
    }
}

/// The decimal text of a signed integer: a minus sign for negatives,
/// then the digit run of the magnitude.
pub open spec fn dec_int(v: int) -> Seq<char> {
    if v < 0 {
        seq!['-'] + dec_digits((-v) as nat)
    } else {
        dec_digits(v as nat)
    }
}

/// The value of a digit run, most significant digit first.
pub open spec fn digits_val(s: Seq<char>) -> nat
    decreases s.len(),
{
    if s.len() == 0 {
        0
    } else {
        digits_val(s.drop_last()) * 10 + digit_val(s.last())
    }
}

/// The value of a signed digit run: an optional minus sign, then at
/// least one digit; anything else has no value.
pub open spec fn int_text_val(s: Seq<char>) -> Option<int> {
    if s.len() > 0 && s[0] == '-' {
        if all_digits_seq(s.skip(1)) {
            Some(-(digits_val(s.skip(1)) as int))
        } else {
            None
        }
    } else {
        if all_digits_seq(s) {
            Some(digits_val(s) as int)
        } else {
            None
        }
    }
}

/// A non-empty run of decimal digits.
pub open spec fn all_digits_seq(s: Seq<char>) -> bool {
    s.len() > 0 && (forall|i: int| 0 <= i < s.len() ==> is_digit_char(s[i]))
}

/// The digit run of `n` is made of digits and evaluates back to `n`.
pub proof fn lemma_dec_digits(n: nat)
    ensures
        dec_digits(n).len() >= 1,
        all_digits_seq(dec_digits(n)),
        digits_val(dec_digits(n)) == n,
    decreases n,
{
    if n < 10 {
        assert(dec_digits(n) == seq![digit_char(n as int)]);
        assert(digits_val(dec_digits(n)) == digits_val(
            dec_digits(n).drop_last(),
        ) * 10 + digit_val(dec_digits(n).last()));
        assert(dec_digits(n).drop_last() =~= Seq::<char>::empty());
    } else {
        lemma_dec_digits(n / 10);
        let s = dec_digits(n);
        assert(s == dec_digits(n / 10).push(digit_char((n % 10) as int)));
        assert(s.drop_last() =~= dec_digits(n / 10));
        assert(s.last() == digit_char((n % 10) as int));
        assert(digit_val(digit_char((n % 10) as int)) == n % 10);
        assert(digits_val(s) == (n / 10) * 10 + n % 10);
        assert(forall|i: int| 0 <= i < s.len() - 1 ==> s[i] == dec_digits(n / 10)[i]);
    }
}

/// The decimal text of an integer parses back to that integer.
pub proof fn lemma_dec_int(v: int)
    ensures
        dec_int(v).len() >= 1,
        int_text_val(dec_int(v)) == Some(v),
        v >= 0 ==> dec_int(v)[0] != '-',
        v < 0 ==> dec_int(v)[0] == '-',
        forall|i: int|
            0 <= i < dec_int(v).len() ==> (is_digit_char(#[trigger] dec_int(v)[i]) || dec_int(
                v,
            )[i] == '-'),
{
    if v < 0 {
        lemma_dec_digits((-v) as nat);
        let s = dec_int(v);
        assert(s[0] == '-');
        assert(s.skip(1) =~= dec_digits((-v) as nat));
        assert(int_text_val(s) == Some(-(digits_val(s.skip(1)) as int)));
        assert(forall|i: int| 1 <= i < s.len() ==> s[i] == dec_digits((-v) as nat)[i - 1]);
    } else {
        lemma_dec_digits(v as nat);
        assert(dec_int(v)[0] != '-') by {
            if dec_int(v)[0] == '-' {
                assert(is_digit_char(dec_digits(v as nat)[0]));
            }
        }
    }
}

/// Extending a digit run never shrinks its value.
pub proof fn lemma_digits_val_extend(s: Seq<char>, i: int, j: int)
    requires
        0 <= i <= j <= s.len(),
    ensures
        digits_val(s.take(j)) >= digits_val(s.take(i)),
    decreases j - i,
{
    if i < j {
        lemma_digits_val_extend(s, i, j - 1);
        assert(s.take(j).drop_last() =~= s.take(j - 1));
        assert(digits_val(s.take(j)) == digits_val(s.take(j - 1)) * 10 + digit_val(
            s.take(j).last(),
        ));
    }
}

/// The executable digit of `d < 10`.
pub fn digit_char_exec(d: u64) -> (r: char)
    requires
        d < 10,
    ensures
        r == digit_char(d as int),
{
    if d == 0 {
        '0'
    } else if d == 1 {
        '1'
    } else if d == 2 {
        '2'
    } else if d == 3 {
        '3'
    } else if d == 4 {
        '4'
    } else if d == 5 {
        '5'
    } else if d == 6 {
        '6'
    } else if d == 7 {
        '7'
    } else if d == 8 {
        '8'
    } else {
        '9'
    }
}

/// The numeric value of a digit character, executable.
pub fn digit_val_exec(c: char) -> (r: u64)
    requires
        is_digit_char(c),
    ensures
        r == digit_val(c),
        r < 10,
{
    if c == '0' {
        0
    } else if c == '1' {
        1
    } else if c == '2' {
        2
    } else if c == '3' {
        3
    } else if c == '4' {
        4
    } else if c == '5' {
        5
    } else if c == '6' {
        6
    } else if c == '7' {
        7
    } else if c == '8' {
        8
    } else {
        9
    }
}

/// Appends the digit run of `n`.
pub fn push_digits(out: &mut Vec<char>, n: u64)
    ensures
        final(out)@ == old(out)@ + dec_digits(n as nat),
    decreases n,
{
    if n < 10 {
        out.push(digit_char_exec(n));
        assert(out@ =~= old(out)@ + dec_digits(n as nat));
    } else {
        push_digits(out, n / 10);
        out.push(digit_char_exec(n % 10));
        assert(out@ =~= old(out)@ + dec_digits(n as nat));
    }
}

/// Appends the decimal text of a signed 64-bit integer.
pub fn push_int(out: &mut Vec<char>, v: i64)
    ensures
        final(out)@ == old(out)@ + dec_int(v as int),
{
    if v < 0 {
        out.push('-');
        let mag: u64 = ((-(v + 1)) as u64) + 1;
        assert(mag == -(v as int));
        push_digits(out, mag);
        assert(out@ =~= old(out)@ + dec_int(v as int));
    } else {
        push_digits(out, v as u64);
    }
}

/// Computes the value of the digit run `s[from..to]`, unless it exceeds
/// `cap`.
pub fn digits_value_capped(s: &Vec<char>, from: usize, to: usize, cap: u64) -> (r: Option<u64>)
    requires
        from <= to <= s@.len(),
        all_digits_seq(s@.subrange(from as int, to as int)),
    ensures
        ({
            let v = digits_val(s@.subrange(from as int, to as int));
            match r {
                Some(n) => n == v && v <= cap,
                None => v > cap,
            }
        }),
{
    let ghost run = s@.subrange(from as int, to as int);
    let mut acc: u64 = 0;
    let mut i: usize = from;
    while i < to
        invariant
            from <= i <= to <= s@.len(),
            all_digits_seq(run),
            run == s@.subrange(from as int, to as int),
            acc == digits_val(run.take(i - from)),
            acc <= cap,
            cap <= u64::MAX,
        decreases to - i,
    {
        assert(run[i - from] == s@[i as int]);
        assert(is_digit_char(s@[i as int]));
        let d = digit_val_exec(s[i]);
        proof {
            assert(run.take(i - from + 1).drop_last() =~= run.take(i - from));
            assert(digits_val(run.take(i - from + 1)) == acc * 10 + digit_val(run[i - from]));
        }
        if acc > cap / 10 || (acc == cap / 10 && d > cap % 10) {
            proof {
                assert(acc * 10 + d > cap) by (nonlinear_arith)
                    requires
                        acc <= u64::MAX,
                        d < 10,
                        cap <= u64::MAX,
                        acc > cap / 10 || (acc == cap / 10 && d > cap % 10),
                        cap == (cap / 10) * 10 + cap % 10,
                ;
                lemma_digits_val_extend(run, i - from + 1, run.len() as int);
                assert(run.take(run.len() as int) =~= run);
            }
            return None;
        }
        proof {
            assert(acc * 10 + d <= cap) by (nonlinear_arith)
                requires
                    d < 10,
                    acc <= cap / 10,
                    acc == cap / 10 ==> d <= cap % 10,
                    cap == (cap / 10) * 10 + cap % 10,
            ;
        }
        acc = acc * 10 + d;
        i += 1;
    }
    proof {
        assert(run.take(run.len() as int) =~= run);
    }
    Some(acc)
}

} // verus!
