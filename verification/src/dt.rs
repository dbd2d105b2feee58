//! The timestamp wire text `YYYYMMDDTHH:MM:SS`: fixed-width formatting,
//! parsing, and the inversion lemma between the two.

use vstd::prelude::*;

use crate::num::digit_char;
use crate::num::digit_val;
use crate::num::digit_char_exec;
use crate::num::digit_val_exec;
use crate::values::DateTime;
use crate::values::is_digit_char;

verus! {

/// The 17-character wire text of a timestamp, digit by digit.
pub open spec fn date_text(dt: DateTime) -> Seq<char> {
    seq![
        digit_char(dt.year as int / 1000),
        digit_char(dt.year as int / 100 % 10),
        digit_char(dt.year as int / 10 % 10),
        digit_char(dt.year as int % 10),
        digit_char(dt.month as int / 10),
        digit_char(dt.month as int % 10),
        digit_char(dt.day as int / 10),
        digit_char(dt.day as int % 10),
        'T',
        digit_char(dt.hour as int / 10),
        digit_char(dt.hour as int % 10),
        ':',
        digit_char(dt.minute as int / 10),
        digit_char(dt.minute as int % 10),
        ':',
        digit_char(dt.second as int / 10),
        digit_char(dt.second as int % 10),
    ]
}

/// The value of two digit characters.
pub open spec fn two_val(s: Seq<char>, at: int) -> int {
    digit_val(s[at]) * 10 + digit_val(s[at + 1]) as int
}

/// Parses the 17-character wire text back into a timestamp; rejects
/// wrong lengths, stray characters, and invalid calendar dates.
pub open spec fn parse_date(s: Seq<char>) -> Option<DateTime> {
    if s.len() == 17 && (forall|i: int|
        0 <= i < 17 && i != 8 && i != 11 && i != 14 ==> is_digit_char(s[i])) && s[8] == 'T'
        && s[11] == ':' && s[14] == ':' {
        let dt = DateTime {
            year: (digit_val(s[0]) * 1000 + digit_val(s[1]) * 100 + digit_val(s[2]) * 10
                + digit_val(s[3]) as int) as u16,
            month: two_val(s, 4) as u8,
            day: two_val(s, 6) as u8,
            hour: two_val(s, 9) as u8,
            minute: two_val(s, 12) as u8,
            second: two_val(s, 15) as u8,
        };
        if dt.wf() {
            Some(dt)
        } else {
            None
        }
    } else {
        None
    }
}

/// The digit of a digit character is the digit, and it is a digit.
pub proof fn lemma_digit_roundtrip(k: int)
    requires
        0 <= k < 10,
    ensures
        digit_val(digit_char(k)) == k,
        is_digit_char(digit_char(k)),
        digit_char(k) != '<',
        digit_char(k) != 'T',
        digit_char(k) != ':',
{
}

/// The wire text of a valid timestamp parses back to that timestamp.
#[verifier::rlimit(100)]
pub proof fn lemma_parse_date_text(dt: DateTime)
    requires
        dt.wf(),
    ensures
        parse_date(date_text(dt)) == Some(dt),
        date_text(dt).len() == 17,
        forall|i: int| 0 <= i < 17 ==> date_text(dt)[i] != '<',
{
    let s = date_text(dt);
    let y = dt.year as int;
    lemma_digit_roundtrip(y / 1000);
    lemma_digit_roundtrip(y / 100 % 10);
    lemma_digit_roundtrip(y / 10 % 10);
    lemma_digit_roundtrip(y % 10);
    lemma_digit_roundtrip(dt.month as int / 10);
    lemma_digit_roundtrip(dt.month as int % 10);
    lemma_digit_roundtrip(dt.day as int / 10);
    lemma_digit_roundtrip(dt.day as int % 10);
    lemma_digit_roundtrip(dt.hour as int / 10);
    lemma_digit_roundtrip(dt.hour as int % 10);
    lemma_digit_roundtrip(dt.minute as int / 10);
    lemma_digit_roundtrip(dt.minute as int % 10);
    lemma_digit_roundtrip(dt.second as int / 10);
    lemma_digit_roundtrip(dt.second as int % 10);
    assert((y / 1000) * 1000 + (y / 100 % 10) * 100 + (y / 10 % 10) * 10 + y % 10 == y)
        by (nonlinear_arith)
        requires
            0 <= y < 10000,
    ;
    lemma_two_recompose(dt.month as int);
    lemma_two_recompose(dt.day as int);
    lemma_two_recompose(dt.hour as int);
    lemma_two_recompose(dt.minute as int);
    lemma_two_recompose(dt.second as int);
}

/// A two-digit split recomposes to the number.
proof fn lemma_two_recompose(n: int)
    requires
        0 <= n < 100,
    ensures
        (n / 10) * 10 + n % 10 == n,
{
}

/// Appends the wire text of a timestamp.
#[verifier::rlimit(100)]
pub fn push_date(out: &mut Vec<char>, dt: &DateTime)
    requires
        dt.wf(),
    ensures
        final(out)@ == old(out)@ + date_text(*dt),
{
    let ghost t = date_text(*dt);
    let ghost base = out@;
    let y: u64 = dt.year as u64;
    out.push(digit_char_exec(y / 1000));
    proof {
        assert(out@ =~= base + t.take(1));
    }
    out.push(digit_char_exec(y / 100 % 10));
    proof {
        assert(out@ =~= base + t.take(2));
    }
    out.push(digit_char_exec(y / 10 % 10));
    proof {
        assert(out@ =~= base + t.take(3));
    }
    out.push(digit_char_exec(y % 10));
    proof {
        assert(out@ =~= base + t.take(4));
    }
    out.push(digit_char_exec(dt.month as u64 / 10));
    proof {
        assert(out@ =~= base + t.take(5));
    }
    out.push(digit_char_exec(dt.month as u64 % 10));
    proof {
        assert(out@ =~= base + t.take(6));
    }
    out.push(digit_char_exec(dt.day as u64 / 10));
    proof {
        assert(out@ =~= base + t.take(7));
    }
    out.push(digit_char_exec(dt.day as u64 % 10));
    proof {
        assert(out@ =~= base + t.take(8));
    }
    out.push('T');
    proof {
        assert(out@ =~= base + t.take(9));
    }
    out.push(digit_char_exec(dt.hour as u64 / 10));
    proof {
        assert(out@ =~= base + t.take(10));
    }
    out.push(digit_char_exec(dt.hour as u64 % 10));
    proof {
        assert(out@ =~= base + t.take(11));
    }
    out.push(':');
    proof {
        assert(out@ =~= base + t.take(12));
    }
    out.push(digit_char_exec(dt.minute as u64 / 10));
    proof {
        assert(out@ =~= base + t.take(13));
    }
    out.push(digit_char_exec(dt.minute as u64 % 10));
    proof {
        assert(out@ =~= base + t.take(14));
    }
    out.push(':');
    proof {
        assert(out@ =~= base + t.take(15));
    }
    out.push(digit_char_exec(dt.second as u64 / 10));
    proof {
        assert(out@ =~= base + t.take(16));
    }
    out.push(digit_char_exec(dt.second as u64 % 10));
    proof {
        assert(out@ =~= base + t.take(17));
    }
    proof {
        assert(t.take(17) =~= t);
    }
}

/// Parses `s[from..to]` as a timestamp, executable counterpart of
/// [`parse_date`].
pub fn parse_date_range(s: &Vec<char>, from: usize, to: usize) -> (r: Option<DateTime>)
    requires
        from <= to <= s@.len(),
    ensures
        r == parse_date(s@.subrange(from as int, to as int)),
{
    let ghost run = s@.subrange(from as int, to as int);
    if to - from != 17 {
        return None;
    }
    let mut i: usize = 0;
    while i < 17
        invariant
            i <= 17,
            from + 17 == to <= s@.len(),
            run == s@.subrange(from as int, to as int),
            forall|j: int| 0 <= j < i && j != 8 && j != 11 && j != 14 ==> is_digit_char(run[j]),
        decreases 17 - i,
    {
        if i != 8 && i != 11 && i != 14 {
            let c = s[from + i];
            assert(run[i as int] == c);
            let ok = c == '0' || c == '1' || c == '2' || c == '3' || c == '4' || c == '5' || c
                == '6' || c == '7' || c == '8' || c == '9';
            if !ok {
                return None;
            }
        }
        i += 1;
    }
    assert(run[8] == s@[from + 8] && run[11] == s@[from + 11] && run[14] == s@[from + 14]);
    if !(s[from + 8] == 'T' && s[from + 11] == ':' && s[from + 14] == ':') {
        return None;
    }
    assert(forall|j: int| 0 <= j < 17 ==> run[j] == s@[from + j]);
    let year = digit_val_exec(s[from]) * 1000 + digit_val_exec(s[from + 1]) * 100 + digit_val_exec(
        s[from + 2],
    ) * 10 + digit_val_exec(s[from + 3]);
    let month = digit_val_exec(s[from + 4]) * 10 + digit_val_exec(s[from + 5]);
    let day = digit_val_exec(s[from + 6]) * 10 + digit_val_exec(s[from + 7]);
    let hour = digit_val_exec(s[from + 9]) * 10 + digit_val_exec(s[from + 10]);
    let minute = digit_val_exec(s[from + 12]) * 10 + digit_val_exec(s[from + 13]);
    let second = digit_val_exec(s[from + 15]) * 10 + digit_val_exec(s[from + 16]);
    let dt = DateTime::new(
        year as u16,
        month as u8,
        day as u8,
        hour as u8,
        minute as u8,
        second as u8,
    );
    dt
}

} // verus!
