//! Base64 text for binary payloads: the encoding, a whitespace-tolerant
//! decoding, and the inversion lemma between the two.

use vstd::prelude::*;

use crate::text::is_ws;

verus! {

/// The base64 alphabet character of a sextet (`0 <= n < 64`).
pub open spec fn sextet_char(n: int) -> char {
    if n == 0 {
        'A'
    } else if n == 1 {
        'B'
    } else if n == 2 {
        'C'
    } else if n == 3 {
        'D'
    } else if n == 4 {
        'E'
    } else if n == 5 {
        'F'
    } else if n == 6 {
        'G'
    } else if n == 7 {
        'H'
    } else if n == 8 {
        'I'
    } else if n == 9 {
        'J'
    } else if n == 10 {
        'K'
    } else if n == 11 {
        'L'
    } else if n == 12 {
        'M'
    } else if n == 13 {
        'N'
    } else if n == 14 {
        'O'
    } else if n == 15 {
        'P'
    } else if n == 16 {
        'Q'
    } else if n == 17 {
        'R'
    } else if n == 18 {
        'S'
    } else if n == 19 {
        'T'
    } else if n == 20 {
        'U'
    } else if n == 21 {
        'V'
    } else if n == 22 {
        'W'
    } else if n == 23 {
        'X'
    } else if n == 24 {
        'Y'
    } else if n == 25 {
        'Z'
    } else if n == 26 {
        'a'
    } else if n == 27 {
        'b'
    } else if n == 28 {
        'c'
    } else if n == 29 {
        'd'
    } else if n == 30 {
        'e'
    } else if n == 31 {
        'f'
    } else if n == 32 {
        'g'
    } else if n == 33 {
        'h'
    } else if n == 34 {
        'i'
    } else if n == 35 {
        'j'
    } else if n == 36 {
        'k'
    } else if n == 37 {
        'l'
    } else if n == 38 {
        'm'
    } else if n == 39 {
        'n'
    } else if n == 40 {
        'o'
    } else if n == 41 {
        'p'
    } else if n == 42 {
        'q'
    } else if n == 43 {
        'r'
    } else if n == 44 {
        's'
    } else if n == 45 {
        't'
    } else if n == 46 {
        'u'
    } else if n == 47 {
        'v'
    } else if n == 48 {
        'w'
    } else if n == 49 {
        'x'
    } else if n == 50 {
        'y'
    } else if n == 51 {
        'z'
    } else if n == 52 {
        '0'
    } else if n == 53 {
        '1'
    } else if n == 54 {
        '2'
    } else if n == 55 {
        '3'
    } else if n == 56 {
        '4'
    } else if n == 57 {
        '5'
    } else if n == 58 {
        '6'
    } else if n == 59 {
        '7'
    } else if n == 60 {
        '8'
    } else if n == 61 {
        '9'
    } else if n == 62 {
        '+'
    } else {
        '/'
    }
}

/// The sextet of a base64 alphabet character; 64 marks a character
/// outside the alphabet (including `=`).
pub open spec fn char_sextet(c: char) -> int {
    if c == 'A' {
        0
    } else if c == 'B' {
        1
    } else if c == 'C' {
        2
    } else if c == 'D' {
        3
    } else if c == 'E' {
        4
    } else if c == 'F' {
        5
    } else if c == 'G' {
        6
    } else if c == 'H' {
        7
    } else if c == 'I' {
        8
    } else if c == 'J' {
        9
    } else if c == 'K' {
        10
    } else if c == 'L' {
        11
    } else if c == 'M' {
        12
    } else if c == 'N' {
        13
    } else if c == 'O' {
        14
    } else if c == 'P' {
        15
    } else if c == 'Q' {
        16
    } else if c == 'R' {
        17
    } else if c == 'S' {
        18
    } else if c == 'T' {
        19
    } else if c == 'U' {
        20
    } else if c == 'V' {
        21
    } else if c == 'W' {
        22
    } else if c == 'X' {
        23
    } else if c == 'Y' {
        24
    } else if c == 'Z' {
        25
    } else if c == 'a' {
        26
    } else if c == 'b' {
        27
    } else if c == 'c' {
        28
    } else if c == 'd' {
        29
    } else if c == 'e' {
        30
    } else if c == 'f' {
        31
    } else if c == 'g' {
        32
    } else if c == 'h' {
        33
    } else if c == 'i' {
        34
    } else if c == 'j' {
        35
    } else if c == 'k' {
        36
    } else if c == 'l' {
        37
    } else if c == 'm' {
        38
    } else if c == 'n' {
        39
    } else if c == 'o' {
        40
    } else if c == 'p' {
        41
    } else if c == 'q' {
        42
    } else if c == 'r' {
        43
    } else if c == 's' {
        44
    } else if c == 't' {
        45
    } else if c == 'u' {
        46
    } else if c == 'v' {
        47
    } else if c == 'w' {
        48
    } else if c == 'x' {
        49
    } else if c == 'y' {
        50
    } else if c == 'z' {
        51
    } else if c == '0' {
        52
    } else if c == '1' {
        53
    } else if c == '2' {
        54
    } else if c == '3' {
        55
    } else if c == '4' {
        56
    } else if c == '5' {
        57
    } else if c == '6' {
        58
    } else if c == '7' {
        59
    } else if c == '8' {
        60
    } else if c == '9' {
        61
    } else if c == '+' {
        62
    } else if c == '/' {
        63
    } else {
        64
    }
}

/// The two tables invert each other, and no alphabet character collides
/// with padding, whitespace or markup.
pub proof fn lemma_sextet_tables(n: int)
    requires
        0 <= n < 64,
    ensures
        char_sextet(sextet_char(n)) == n,
        sextet_char(n) != '=',
        !is_ws(sextet_char(n)),
        sextet_char(n) != '<',
{
}

/// The base64 text of a byte sequence, with `=` padding.
pub open spec fn b64_of(b: Seq<u8>) -> Seq<char>
    decreases b.len(),
{
    if b.len() == 0 {
        Seq::empty()
    } else if b.len() == 1 {
        let b0 = b[0] as int;
        seq![sextet_char(b0 / 4), sextet_char((b0 % 4) * 16), '=', '=']
    } else if b.len() == 2 {
        let b0 = b[0] as int;
        let b1 = b[1] as int;
        seq![
            sextet_char(b0 / 4),
            sextet_char((b0 % 4) * 16 + b1 / 16),
            sextet_char((b1 % 16) * 4),
            '=',
        ]
    } else {
        let b0 = b[0] as int;
        let b1 = b[1] as int;
        let b2 = b[2] as int;
        seq![
            sextet_char(b0 / 4),
            sextet_char((b0 % 4) * 16 + b1 / 16),
            sextet_char((b1 % 16) * 4 + b2 / 64),
            sextet_char(b2 % 64),
        ] + b64_of(b.skip(3))
    }
}

/// Decodes base64 text in groups of four characters; `=` padding is
/// accepted only in the final group.
pub open spec fn b64_parse(s: Seq<char>) -> Option<Seq<u8>>
    decreases s.len(),
{
    if s.len() == 0 {
        Some(Seq::empty())
    } else if s.len() < 4 {
        None
    } else {
        let s0 = char_sextet(s[0]);
        let s1 = char_sextet(s[1]);
        if s0 < 64 && s1 < 64 {
            if s[2] == '=' && s[3] == '=' && s.len() == 4 {
                Some(seq![(s0 * 4 + s1 / 16) as u8])
            } else if s[3] == '=' && s.len() == 4 {
                let s2 = char_sextet(s[2]);
                if s2 < 64 {
                    Some(seq![(s0 * 4 + s1 / 16) as u8, ((s1 % 16) * 16 + s2 / 4) as u8])
                } else {
                    None
                }
            } else {
                let s2 = char_sextet(s[2]);
                let s3 = char_sextet(s[3]);
                if s2 < 64 && s3 < 64 {
                    match b64_parse(s.skip(4)) {
                        Some(rest) => Some(
                            seq![
                                (s0 * 4 + s1 / 16) as u8,
                                ((s1 % 16) * 16 + s2 / 4) as u8,
                                ((s2 % 4) * 64 + s3) as u8,
                            ] + rest,
                        ),
                        None => None,
                    }
                } else {
                    None
                }
            }
        } else {
            None
        }
    }
}

/// Base64 text decodes back to exactly the bytes that were encoded.
pub proof fn lemma_b64_parse_of(b: Seq<u8>)
    ensures
        b64_parse(b64_of(b)) == Some(b),
    decreases b.len(),
{
    if b.len() == 0 {
    } else if b.len() == 1 {
        let b0 = b[0] as int;
        lemma_sextet_tables(b0 / 4);
        lemma_sextet_tables((b0 % 4) * 16);
        let e = b64_of(b);
        assert(e.len() == 4);
        let s0 = char_sextet(e[0]);
        let s1 = char_sextet(e[1]);
        assert(s0 == b0 / 4 && s1 == (b0 % 4) * 16);
        assert(s0 * 4 + s1 / 16 == b0) by (nonlinear_arith)
            requires
                0 <= b0 < 256,
                s0 == b0 / 4,
                s1 == (b0 % 4) * 16,
        ;
        assert(seq![(s0 * 4 + s1 / 16) as u8] =~= b);
    } else if b.len() == 2 {
        let b0 = b[0] as int;
        let b1 = b[1] as int;
        lemma_sextet_tables(b0 / 4);
        lemma_sextet_tables((b0 % 4) * 16 + b1 / 16);
        lemma_sextet_tables((b1 % 16) * 4);
        let e = b64_of(b);
        assert(e.len() == 4);
        let s0 = char_sextet(e[0]);
        let s1 = char_sextet(e[1]);
        let s2 = char_sextet(e[2]);
        assert(s0 * 4 + s1 / 16 == b0 && (s1 % 16) * 16 + s2 / 4 == b1) by (nonlinear_arith)
            requires
                0 <= b0 < 256,
                0 <= b1 < 256,
                s0 == b0 / 4,
                s1 == (b0 % 4) * 16 + b1 / 16,
                s2 == (b1 % 16) * 4,
        ;
        assert(seq![(s0 * 4 + s1 / 16) as u8, ((s1 % 16) * 16 + s2 / 4) as u8] =~= b);
    } else {
        lemma_b64_parse_of(b.skip(3));
        let b0 = b[0] as int;
        let b1 = b[1] as int;
        let b2 = b[2] as int;
        lemma_sextet_tables(b0 / 4);
        lemma_sextet_tables((b0 % 4) * 16 + b1 / 16);
        lemma_sextet_tables((b1 % 16) * 4 + b2 / 64);
        lemma_sextet_tables(b2 % 64);
        let e = b64_of(b);
        lemma_b64_of_len(b.skip(3));
        assert(e.skip(4) =~= b64_of(b.skip(3)));
        let s0 = char_sextet(e[0]);
        let s1 = char_sextet(e[1]);
        let s2 = char_sextet(e[2]);
        let s3 = char_sextet(e[3]);
        assert(s0 * 4 + s1 / 16 == b0 && (s1 % 16) * 16 + s2 / 4 == b1 && (s2 % 4) * 64 + s3
            == b2) by (nonlinear_arith)
            requires
                0 <= b0 < 256,
                0 <= b1 < 256,
                0 <= b2 < 256,
                s0 == b0 / 4,
                s1 == (b0 % 4) * 16 + b1 / 16,
                s2 == (b1 % 16) * 4 + b2 / 64,
                s3 == b2 % 64,
        ;
        assert(e.len() >= 8 || e.len() == 4);
        if e.len() == 4 {
            assert(b.len() == 3);
            assert(b64_parse(e) == Some(
                seq![(s0 * 4 + s1 / 16) as u8, ((s1 % 16) * 16 + s2 / 4) as u8, ((s2 % 4) * 64 + s3) as u8],
            ));
            assert(seq![b[0], b[1], b[2]] + b.skip(3) =~= b);
        } else {
            assert(seq![b[0], b[1], b[2]] + b.skip(3) =~= b);
        }
    }
}

/// The length of base64 text: four characters per started triple.
pub proof fn lemma_b64_of_len(b: Seq<u8>)
    ensures
        b.len() == 0 ==> b64_of(b).len() == 0,
        b.len() > 0 ==> b64_of(b).len() == 4 * ((b.len() + 2) / 3),
        b64_of(b).len() % 4 == 0,
    decreases b.len(),
{
    if b.len() >= 3 {
        lemma_b64_of_len(b.skip(3));
        let n = b.len() as int;
        assert(b64_of(b).len() == 4 + b64_of(b.skip(3)).len());
        if n > 3 {
            assert((n + 2) / 3 == (n - 1) / 3 + 1);
        }
    }
}

/// Base64 text contains no whitespace and no markup characters.
pub proof fn lemma_b64_of_clean(b: Seq<u8>)
    ensures
        forall|i: int|
            0 <= i < b64_of(b).len() ==> !is_ws(#[trigger] b64_of(b)[i]) && b64_of(b)[i] != '<',
    decreases b.len(),
{
    if b.len() == 0 {
    } else if b.len() == 1 {
        lemma_sextet_tables(b[0] as int / 4);
        lemma_sextet_tables((b[0] as int % 4) * 16);
    } else if b.len() == 2 {
        lemma_sextet_tables(b[0] as int / 4);
        lemma_sextet_tables((b[0] as int % 4) * 16 + b[1] as int / 16);
        lemma_sextet_tables((b[1] as int % 16) * 4);
    } else {
        lemma_b64_of_clean(b.skip(3));
        lemma_sextet_tables(b[0] as int / 4);
        lemma_sextet_tables((b[0] as int % 4) * 16 + b[1] as int / 16);
        lemma_sextet_tables((b[1] as int % 16) * 4 + b[2] as int / 64);
        lemma_sextet_tables(b[2] as int % 64);
        assert forall|i: int|
            0 <= i < b64_of(b).len() implies !is_ws(#[trigger] b64_of(b)[i]) && b64_of(b)[i]
            != '<' by {
            if i >= 4 {
                assert(b64_of(b)[i] == b64_of(b.skip(3))[i - 4]);
            }
        }
    }
}

/// The executable alphabet character of a sextet.
pub fn sextet_char_exec(n: u8) -> (r: char)
    requires
        n < 64,
    ensures
        r == sextet_char(n as int),
{
    if n == 0 {
        'A'
    } else if n == 1 {
        'B'
    } else if n == 2 {
        'C'
    } else if n == 3 {
        'D'
    } else if n == 4 {
        'E'
    } else if n == 5 {
        'F'
    } else if n == 6 {
        'G'
    } else if n == 7 {
        'H'
    } else if n == 8 {
        'I'
    } else if n == 9 {
        'J'
    } else if n == 10 {
        'K'
    } else if n == 11 {
        'L'
    } else if n == 12 {
        'M'
    } else if n == 13 {
        'N'
    } else if n == 14 {
        'O'
    } else if n == 15 {
        'P'
    } else if n == 16 {
        'Q'
    } else if n == 17 {
        'R'
    } else if n == 18 {
        'S'
    } else if n == 19 {
        'T'
    } else if n == 20 {
        'U'
    } else if n == 21 {
        'V'
    } else if n == 22 {
        'W'
    } else if n == 23 {
        'X'
    } else if n == 24 {
        'Y'
    } else if n == 25 {
        'Z'
    } else if n == 26 {
        'a'
    } else if n == 27 {
        'b'
    } else if n == 28 {
        'c'
    } else if n == 29 {
        'd'
    } else if n == 30 {
        'e'
    } else if n == 31 {
        'f'
    } else if n == 32 {
        'g'
    } else if n == 33 {
        'h'
    } else if n == 34 {
        'i'
    } else if n == 35 {
        'j'
    } else if n == 36 {
        'k'
    } else if n == 37 {
        'l'
    } else if n == 38 {
        'm'
    } else if n == 39 {
        'n'
    } else if n == 40 {
        'o'
    } else if n == 41 {
        'p'
    } else if n == 42 {
        'q'
    } else if n == 43 {
        'r'
    } else if n == 44 {
        's'
    } else if n == 45 {
        't'
    } else if n == 46 {
        'u'
    } else if n == 47 {
        'v'
    } else if n == 48 {
        'w'
    } else if n == 49 {
        'x'
    } else if n == 50 {
        'y'
    } else if n == 51 {
        'z'
    } else if n == 52 {
        '0'
    } else if n == 53 {
        '1'
    } else if n == 54 {
        '2'
    } else if n == 55 {
        '3'
    } else if n == 56 {
        '4'
    } else if n == 57 {
        '5'
    } else if n == 58 {
        '6'
    } else if n == 59 {
        '7'
    } else if n == 60 {
        '8'
    } else if n == 61 {
        '9'
    } else if n == 62 {
        '+'
    } else {
        '/'
    }
}

/// The executable sextet of a character (64 when outside the alphabet).
pub fn char_sextet_exec(c: char) -> (r: u8)
    ensures
        r == char_sextet(c),
        r <= 64,
{
    if c == 'A' {
        0
    } else if c == 'B' {
        1
    } else if c == 'C' {
        2
    } else if c == 'D' {
        3
    } else if c == 'E' {
        4
    } else if c == 'F' {
        5
    } else if c == 'G' {
        6
    } else if c == 'H' {
        7
    } else if c == 'I' {
        8
    } else if c == 'J' {
        9
    } else if c == 'K' {
        10
    } else if c == 'L' {
        11
    } else if c == 'M' {
        12
    } else if c == 'N' {
        13
    } else if c == 'O' {
        14
    } else if c == 'P' {
        15
    } else if c == 'Q' {
        16
    } else if c == 'R' {
        17
    } else if c == 'S' {
        18
    } else if c == 'T' {
        19
    } else if c == 'U' {
        20
    } else if c == 'V' {
        21
    } else if c == 'W' {
        22
    } else if c == 'X' {
        23
    } else if c == 'Y' {
        24
    } else if c == 'Z' {
        25
    } else if c == 'a' {
        26
    } else if c == 'b' {
        27
    } else if c == 'c' {
        28
    } else if c == 'd' {
        29
    } else if c == 'e' {
        30
    } else if c == 'f' {
        31
    } else if c == 'g' {
        32
    } else if c == 'h' {
        33
    } else if c == 'i' {
        34
    } else if c == 'j' {
        35
    } else if c == 'k' {
        36
    } else if c == 'l' {
        37
    } else if c == 'm' {
        38
    } else if c == 'n' {
        39
    } else if c == 'o' {
        40
    } else if c == 'p' {
        41
    } else if c == 'q' {
        42
    } else if c == 'r' {
        43
    } else if c == 's' {
        44
    } else if c == 't' {
        45
    } else if c == 'u' {
        46
    } else if c == 'v' {
        47
    } else if c == 'w' {
        48
    } else if c == 'x' {
        49
    } else if c == 'y' {
        50
    } else if c == 'z' {
        51
    } else if c == '0' {
        52
    } else if c == '1' {
        53
    } else if c == '2' {
        54
    } else if c == '3' {
        55
    } else if c == '4' {
        56
    } else if c == '5' {
        57
    } else if c == '6' {
        58
    } else if c == '7' {
        59
    } else if c == '8' {
        60
    } else if c == '9' {
        61
    } else if c == '+' {
        62
    } else if c == '/' {
        63
    } else {
        64
    }
}

/// Appends the base64 text of `b[pos..]`.
pub fn push_b64(out: &mut Vec<char>, b: &Vec<u8>, pos: usize)
    requires
        pos <= b@.len(),
    ensures
        final(out)@ == old(out)@ + b64_of(b@.skip(pos as int)),
    decreases b@.len() - pos,
{
    let ghost run = b@.skip(pos as int);
    let n = b.len() - pos;
    if n == 0 {
        assert(out@ =~= out@ + b64_of(run));
        return ;
    }
    let b0 = b[pos];
    assert(run[0] == b0);
    if n == 1 {
        out.push(sextet_char_exec(b0 / 4));
        out.push(sextet_char_exec((b0 % 4) * 16));
        out.push('=');
        out.push('=');
        assert(out@ =~= old(out)@ + b64_of(run));
    } else if n == 2 {
        let b1 = b[pos + 1];
        assert(run[1] == b1);
        out.push(sextet_char_exec(b0 / 4));
        out.push(sextet_char_exec((b0 % 4) * 16 + b1 / 16));
        out.push(sextet_char_exec((b1 % 16) * 4));
        out.push('=');
        assert(out@ =~= old(out)@ + b64_of(run));
    } else {
        let b1 = b[pos + 1];
        let b2 = b[pos + 2];
        assert(run[1] == b1 && run[2] == b2);
        out.push(sextet_char_exec(b0 / 4));
        out.push(sextet_char_exec((b0 % 4) * 16 + b1 / 16));
        out.push(sextet_char_exec((b1 % 16) * 4 + b2 / 64));
        out.push(sextet_char_exec(b2 % 64));
        let ghost mid = out@;
        push_b64(out, b, pos + 3);
        assert(run.skip(3) =~= b@.skip(pos as int + 3));
        assert(out@ =~= old(out)@ + b64_of(run));
    }
}

/// Decodes the base64 characters of `s[pos..]`, executable counterpart
/// of [`b64_parse`].
pub fn parse_b64(s: &Vec<char>, pos: usize) -> (r: Option<Vec<u8>>)
    requires
        pos <= s@.len(),
    ensures
        match r {
            Some(t) => b64_parse(s@.skip(pos as int)) == Some(t@),
            None => b64_parse(s@.skip(pos as int)) is None,
        },
    decreases s@.len() - pos,
{
    let ghost run = s@.skip(pos as int);
    let n = s.len() - pos;
    if n == 0 {
        assert(run =~= Seq::<char>::empty());
        return Some(Vec::new());
    }
    if n < 4 {
        return None;
    }
    assert(run[0] == s@[pos as int] && run[1] == s@[pos + 1] && run[2] == s@[pos + 2] && run[3]
        == s@[pos + 3]);
    let s0 = char_sextet_exec(s[pos]);
    let s1 = char_sextet_exec(s[pos + 1]);
    if !(s0 < 64 && s1 < 64) {
        return None;
    }
    if s[pos + 2] == '=' && s[pos + 3] == '=' && n == 4 {
        let mut v: Vec<u8> = Vec::new();
        v.push(s0 * 4 + s1 / 16);
        assert(v@ =~= seq![(char_sextet(run[0]) * 4 + char_sextet(run[1]) / 16) as u8]);
        return Some(v);
    }
    if s[pos + 3] == '=' && n == 4 {
        let s2 = char_sextet_exec(s[pos + 2]);
        if s2 < 64 {
            let mut v: Vec<u8> = Vec::new();
            v.push(s0 * 4 + s1 / 16);
            v.push((s1 % 16) * 16 + s2 / 4);
            assert(v@ =~= seq![
                (char_sextet(run[0]) * 4 + char_sextet(run[1]) / 16) as u8,
                ((char_sextet(run[1]) % 16) * 16 + char_sextet(run[2]) / 4) as u8,
            ]);
            return Some(v);
        }
        return None;
    }
    let s2 = char_sextet_exec(s[pos + 2]);
    let s3 = char_sextet_exec(s[pos + 3]);
    if !(s2 < 64 && s3 < 64) {
        return None;
    }
    let rest = parse_b64(s, pos + 4);
    assert(run.skip(4) =~= s@.skip(pos + 4));
    match rest {
        Some(t) => {
            let mut v: Vec<u8> = Vec::new();
            v.push(s0 * 4 + s1 / 16);
            v.push((s1 % 16) * 16 + s2 / 4);
            v.push((s2 % 4) * 64 + s3);
            let mut j: usize = 0;
            let ghost head = v@;
            while j < t.len()
                invariant
                    j <= t@.len(),
                    v@ == head + t@.take(j as int),
                decreases t@.len() - j,
            {
                v.push(t[j]);
                assert(v@ =~= head + t@.take(j + 1));
                j += 1;
            }
            assert(t@.take(t@.len() as int) =~= t@);
            assert(v@ =~= head + t@);
            Some(v)
        },
        None => None,
    }
}

} // verus!
