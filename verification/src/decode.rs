//! The decoding half of the wire codec: a recursive-descent grammar for
//! XML-RPC documents, written as spec functions, and the executable
//! parser proved equal to it.
//!
//! Whitespace between elements is tolerated; `<int>` is accepted as an
//! alias of `<i4>`; a value with no recognized type tag or a malformed
//! numeric, date or base64 body fails the whole decode. No partial
//! values are ever produced.

use vstd::prelude::*;

use crate::b64::b64_parse;
use crate::dt::parse_date;
use crate::escape::unescape;
use crate::num::int_text_val;
use crate::text::check_lit;
use crate::text::is_ws;
use crate::text::skip_ws;
use crate::text::matches_at;
use crate::text::ws_len;
use crate::text::lemma_ws_len_bound;
use crate::values::MemV;
use crate::values::ValV;
use crate::values::is_double_text;

verus! {

/// Index of the first `<` in `s` (or the length when there is none).
pub open spec fn lt_pos(s: Seq<char>) -> nat
    decreases s.len(),
{
    if s.len() == 0 {
        0
    } else if s[0] == '<' {
        0
    } else {
        1 + lt_pos(s.skip(1))
    }
}

/// Index of the first `>` in `s` (or the length when there is none).
pub open spec fn gt_pos(s: Seq<char>) -> nat
    decreases s.len(),
{
    if s.len() == 0 {
        0
    } else if s[0] == '>' {
        0
    } else {
        1 + gt_pos(s.skip(1))
    }
}

/// The first `<` really is first.
pub proof fn lemma_lt_pos(s: Seq<char>)
    ensures
        lt_pos(s) <= s.len(),
        forall|i: int| 0 <= i < lt_pos(s) ==> s[i] != '<',
        lt_pos(s) < s.len() ==> s[lt_pos(s) as int] == '<',
    decreases s.len(),
{
    if s.len() > 0 && s[0] != '<' {
        lemma_lt_pos(s.skip(1));
        assert forall|i: int| 0 <= i < lt_pos(s) implies s[i] != '<' by {
            if i > 0 {
                assert(s[i] == s.skip(1)[i - 1]);
            }
        }
        if lt_pos(s) < s.len() {
            assert(s[lt_pos(s) as int] == s.skip(1)[lt_pos(s.skip(1)) as int]);
        }
    }
}

/// The first `>` really is first.
pub proof fn lemma_gt_pos(s: Seq<char>)
    ensures
        gt_pos(s) <= s.len(),
        forall|i: int| 0 <= i < gt_pos(s) ==> s[i] != '>',
        gt_pos(s) < s.len() ==> s[gt_pos(s) as int] == '>',
    decreases s.len(),
{
    if s.len() > 0 && s[0] != '>' {
        lemma_gt_pos(s.skip(1));
        assert forall|i: int| 0 <= i < gt_pos(s) implies s[i] != '>' by {
            if i > 0 {
                assert(s[i] == s.skip(1)[i - 1]);
            }
        }
        if gt_pos(s) < s.len() {
            assert(s[gt_pos(s) as int] == s.skip(1)[gt_pos(s.skip(1)) as int]);
        }
    }
}

/// Strips whitespace everywhere, as base64 bodies allow it.
pub open spec fn strip_ws(s: Seq<char>) -> Seq<char>
    decreases s.len(),
{
    if s.len() == 0 {
        Seq::empty()
    } else if is_ws(s[0]) {
        strip_ws(s.skip(1))
    } else {
        seq![s[0]] + strip_ws(s.skip(1))
    }
}

/// Stripping whitespace from text without any leaves it unchanged.
pub proof fn lemma_strip_ws_clean(s: Seq<char>)
    requires
        forall|i: int| 0 <= i < s.len() ==> !is_ws(s[i]),
    ensures
        strip_ws(s) == s,
    decreases s.len(),
{
    if s.len() > 0 {
        assert(forall|i: int| 0 <= i < s.skip(1).len() ==> s.skip(1)[i] == s[i + 1]);
        lemma_strip_ws_clean(s.skip(1));
        assert(seq![s[0]] + s.skip(1) =~= s);
    }
}

/// Parses one `<value>` element, with leading whitespace; yields the
/// mirrored value and the number of characters consumed.
pub open spec fn p_value(s: Seq<char>) -> Option<(ValV, nat)>
    decreases s.len(), 1int,
    via p_value_decreases
{
    let w = ws_len(s) as int;
    let t = s.skip(w);
    if matches_at(t, 0, "<value>"@) {
        match p_typed(t.skip(7)) {
            Some((v, n)) => {
                let u = t.skip(7).skip(n as int);
                let w2 = ws_len(u) as int;
                if matches_at(u.skip(w2), 0, "</value>"@) {
                    Some((v, (w + 7 + n + w2 + 8) as nat))
                } else {
                    None
                }
            },
            None => None,
        }
    } else {
        None
    }
}

/// Parses the typed payload inside a `<value>` element, with leading
/// whitespace; yields the mirrored value and the characters consumed.
pub open spec fn p_typed(s: Seq<char>) -> Option<(ValV, nat)>
    decreases s.len(), 0int,
    via p_typed_decreases
{
    let w = ws_len(s) as int;
    let t = s.skip(w);
    if matches_at(t, 0, "<i4>"@) {
        let b = t.skip(4);
        let ln = lt_pos(b) as int;
        match int_text_val(b.take(ln)) {
            Some(v) => if -0x8000_0000 <= v <= 0x7fff_ffff && matches_at(b.skip(ln), 0, "</i4>"@) {
                Some((ValV::Integer(v as i32), (w + 4 + ln + 5) as nat))
            } else {
                None
            },
            None => None,
        }
    } else if matches_at(t, 0, "<int>"@) {
        let b = t.skip(5);
        let ln = lt_pos(b) as int;
        match int_text_val(b.take(ln)) {
            Some(v) => if -0x8000_0000 <= v <= 0x7fff_ffff && matches_at(b.skip(ln), 0, "</int>"@) {
                Some((ValV::Integer(v as i32), (w + 5 + ln + 6) as nat))
            } else {
                None
            },
            None => None,
        }
    } else if matches_at(t, 0, "<i8>"@) {
        let b = t.skip(4);
        let ln = lt_pos(b) as int;
        match int_text_val(b.take(ln)) {
            Some(v) => if -0x8000_0000_0000_0000 <= v <= 0x7fff_ffff_ffff_ffff && matches_at(
                b.skip(ln),
                0,
                "</i8>"@,
            ) {
                Some((ValV::Long(v as i64), (w + 4 + ln + 5) as nat))
            } else {
                None
            },
            None => None,
        }
    } else if matches_at(t, 0, "<boolean>"@) {
        let b = t.skip(9);
        let ln = lt_pos(b) as int;
        let body = b.take(ln);
        if matches_at(b.skip(ln), 0, "</boolean>"@) {
            if body == seq!['1'] || body == "true"@ {
                Some((ValV::Boolean(true), (w + 9 + ln + 10) as nat))
            } else if body == seq!['0'] || body == "false"@ {
                Some((ValV::Boolean(false), (w + 9 + ln + 10) as nat))
            } else {
                None
            }
        } else {
            None
        }
    } else if matches_at(t, 0, "<string>"@) {
        let b = t.skip(8);
        let ln = lt_pos(b) as int;
        match unescape(b.take(ln)) {
            Some(text) => if matches_at(b.skip(ln), 0, "</string>"@) {
                Some((ValV::String(text), (w + 8 + ln + 9) as nat))
            } else {
                None
            },
            None => None,
        }
    } else if matches_at(t, 0, "<double>"@) {
        let b = t.skip(8);
        let ln = lt_pos(b) as int;
        let body = b.take(ln);
        if is_double_text(body) && matches_at(b.skip(ln), 0, "</double>"@) {
            Some((ValV::Double(body), (w + 8 + ln + 9) as nat))
        } else {
            None
        }
    } else if matches_at(t, 0, "<dateTime.iso8601>"@) {
        let b = t.skip(18);
        let ln = lt_pos(b) as int;
        match parse_date(b.take(ln)) {
            Some(dt) => if matches_at(b.skip(ln), 0, "</dateTime.iso8601>"@) {
                Some((ValV::DateTime(dt), (w + 18 + ln + 19) as nat))
            } else {
                None
            },
            None => None,
        }
    } else if matches_at(t, 0, "<base64>"@) {
        let b = t.skip(8);
        let ln = lt_pos(b) as int;
        match b64_parse(strip_ws(b.take(ln))) {
            Some(bytes) => if matches_at(b.skip(ln), 0, "</base64>"@) {
                Some((ValV::Base64(bytes), (w + 8 + ln + 9) as nat))
            } else {
                None
            },
            None => None,
        }
    } else if matches_at(t, 0, "<struct>"@) {
        match p_members(t.skip(8)) {
            Some((ms, n)) => Some((ValV::Struct(ms), (w + 8 + n) as nat)),
            None => None,
        }
    } else if matches_at(t, 0, "<array>"@) {
        let a = t.skip(7);
        let wa = ws_len(a) as int;
        if matches_at(a.skip(wa), 0, "<data>"@) {
            match p_elems(a.skip(wa).skip(6)) {
                Some((es, n)) => {
                    let u = a.skip(wa).skip(6).skip(n as int);
                    let w2 = ws_len(u) as int;
                    if matches_at(u.skip(w2), 0, "</array>"@) {
                        Some((ValV::Array(es), (w + 7 + wa + 6 + n + w2 + 8) as nat))
                    } else {
                        None
                    }
                },
                None => None,
            }
        } else {
            None
        }
    } else if matches_at(t, 0, "<nil/>"@) {
        Some((ValV::Nil, (w + 6) as nat))
    } else {
        None
    }
}

/// Parses struct members up to and including the closing `</struct>`.
pub open spec fn p_members(s: Seq<char>) -> Option<(Seq<MemV>, nat)>
    decreases s.len(), 2int,
    via p_members_decreases
{
    let w = ws_len(s) as int;
    let t = s.skip(w);
    if matches_at(t, 0, "</struct>"@) {
        Some((Seq::empty(), (w + 9) as nat))
    } else if matches_at(t, 0, "<member>"@) {
        let u = t.skip(8);
        let w1 = ws_len(u) as int;
        let nm = u.skip(w1);
        if matches_at(nm, 0, "<name>"@) {
            let nb = nm.skip(6);
            let ln = lt_pos(nb) as int;
            match unescape(nb.take(ln)) {
                Some(name) => if matches_at(nb.skip(ln), 0, "</name>"@) {
                    match p_value(nb.skip(ln).skip(7)) {
                        Some((v, n)) => {
                            let rest = nb.skip(ln).skip(7).skip(n as int);
                            let w2 = ws_len(rest) as int;
                            if matches_at(rest.skip(w2), 0, "</member>"@) {
                                let k = (w + 8 + w1 + 6 + ln + 7 + n + w2 + 9) as nat;
                                if k > s.len() {
                                    None
                                } else {
                                    match p_members(s.skip(k as int)) {
                                        Some((ms, n2)) => Some(
                                            (seq![MemV { name, value: v }] + ms, (k + n2) as nat),
                                        ),
                                        None => None,
                                    }
                                }
                            } else {
                                None
                            }
                        },
                        None => None,
                    }
                } else {
                    None
                },
                None => None,
            }
        } else {
            None
        }
    } else {
        None
    }
}

/// Parses array elements up to and including the closing `</data>`.
pub open spec fn p_elems(s: Seq<char>) -> Option<(Seq<ValV>, nat)>
    decreases s.len(), 3int,
    via p_elems_decreases
{
    let w = ws_len(s) as int;
    let t = s.skip(w);
    if matches_at(t, 0, "</data>"@) {
        Some((Seq::empty(), (w + 7) as nat))
    } else {
        match p_value(t) {
            Some((v, n)) => if n == 0 || w + n > s.len() {
                None
            } else {
                match p_elems(s.skip(w + n)) {
                    Some((es, n2)) => Some((seq![v] + es, (w + n + n2) as nat)),
                    None => None,
                }
            },
            None => None,
        }
    }
}

/// Reveals every tag literal of the value grammar.
pub proof fn reveal_tags()
    ensures
        "<value>"@.len() == 7,
        "</value>"@.len() == 8,
        "<i4>"@.len() == 4,
        "</i4>"@.len() == 5,
        "<int>"@.len() == 5,
        "</int>"@.len() == 6,
        "<i8>"@.len() == 4,
        "</i8>"@.len() == 5,
        "<boolean>"@.len() == 9,
        "</boolean>"@.len() == 10,
        "<string>"@.len() == 8,
        "</string>"@.len() == 9,
        "<double>"@.len() == 8,
        "</double>"@.len() == 9,
        "<dateTime.iso8601>"@.len() == 18,
        "</dateTime.iso8601>"@.len() == 19,
        "<base64>"@.len() == 8,
        "</base64>"@.len() == 9,
        "<struct>"@.len() == 8,
        "</struct>"@.len() == 9,
        "<member>"@.len() == 8,
        "</member>"@.len() == 9,
        "<name>"@.len() == 6,
        "</name>"@.len() == 7,
        "<array>"@.len() == 7,
        "</array>"@.len() == 8,
        "<data>"@.len() == 6,
        "</data>"@.len() == 7,
        "<nil/>"@.len() == 6,
        "true"@.len() == 4,
        "false"@.len() == 5,
{
    reveal_strlit("<value>");
    reveal_strlit("</value>");
    reveal_strlit("<i4>");
    reveal_strlit("</i4>");
    reveal_strlit("<int>");
    reveal_strlit("</int>");
    reveal_strlit("<i8>");
    reveal_strlit("</i8>");
    reveal_strlit("<boolean>");
    reveal_strlit("</boolean>");
    reveal_strlit("<string>");
    reveal_strlit("</string>");
    reveal_strlit("<double>");
    reveal_strlit("</double>");
    reveal_strlit("<dateTime.iso8601>");
    reveal_strlit("</dateTime.iso8601>");
    reveal_strlit("<base64>");
    reveal_strlit("</base64>");
    reveal_strlit("<struct>");
    reveal_strlit("</struct>");
    reveal_strlit("<member>");
    reveal_strlit("</member>");
    reveal_strlit("<name>");
    reveal_strlit("</name>");
    reveal_strlit("<array>");
    reveal_strlit("</array>");
    reveal_strlit("<data>");
    reveal_strlit("</data>");
    reveal_strlit("<nil/>");
    reveal_strlit("true");
    reveal_strlit("false");
}

#[via_fn]
proof fn p_value_decreases(s: Seq<char>) {
    reveal_tags();
    lemma_ws_len_bound(s);
}

#[via_fn]
proof fn p_typed_decreases(s: Seq<char>) {
    reveal_tags();
    lemma_ws_len_bound(s);
    let w = ws_len(s) as int;
    let t = s.skip(w);
    if matches_at(t, 0, "<array>"@) {
        lemma_ws_len_bound(t.skip(7));
    }
}

#[via_fn]
proof fn p_members_decreases(s: Seq<char>) {
    reveal_tags();
    lemma_ws_len_bound(s);
    let w = ws_len(s) as int;
    let t = s.skip(w);
    if !matches_at(t, 0, "</struct>"@) && matches_at(t, 0, "<member>"@) {
        lemma_ws_len_bound(t.skip(8));
        let u = t.skip(8);
        let w1 = ws_len(u) as int;
        let nm = u.skip(w1);
        if matches_at(nm, 0, "<name>"@) {
            lemma_lt_pos(nm.skip(6));
        }
    }
}

#[via_fn]
proof fn p_elems_decreases(s: Seq<char>) {
    reveal_tags();
    lemma_ws_len_bound(s);
}


/// Composing two skips is skipping the sum.
pub proof fn lemma_skip_skip(s: Seq<char>, a: int, b: int)
    requires
        0 <= a,
        0 <= b,
        a + b <= s.len(),
    ensures
        s.skip(a).skip(b) == s.skip(a + b),
{
    assert(s.skip(a).skip(b) =~= s.skip(a + b));
}

/// A literal match reads the same through a shift of origin.
pub proof fn lemma_matches_shift(s: Seq<char>, pos: int, lit: Seq<char>)
    requires
        0 <= pos <= s.len(),
    ensures
        matches_at(s, pos, lit) == matches_at(s.skip(pos), 0, lit),
{
    if pos + lit.len() <= s.len() {
        assert(s.subrange(pos, pos + lit.len()) =~= s.skip(pos).subrange(0, lit.len() as int));
    }
}

/// Finds the first `<` at or after `pos`.
pub fn find_lt(s: &Vec<char>, pos: usize) -> (r: usize)
    requires
        pos <= s@.len(),
    ensures
        pos <= r <= s@.len(),
        r - pos == lt_pos(s@.skip(pos as int)),
    decreases s@.len() - pos,
{
    proof {
        lemma_lt_pos(s@.skip(pos as int));
    }
    if pos < s.len() {
        let c = s[pos];
        assert(s@.skip(pos as int)[0] == c);
        if c != '<' {
            let r = find_lt(s, pos + 1);
            assert(s@.skip(pos as int).skip(1) =~= s@.skip(pos as int + 1));
            return r;
        }
    }
    pos
}

/// Finds the first `>` at or after `pos`.
pub fn find_gt(s: &Vec<char>, pos: usize) -> (r: usize)
    requires
        pos <= s@.len(),
    ensures
        pos <= r <= s@.len(),
        r - pos == gt_pos(s@.skip(pos as int)),
    decreases s@.len() - pos,
{
    proof {
        lemma_gt_pos(s@.skip(pos as int));
    }
    if pos < s.len() {
        let c = s[pos];
        assert(s@.skip(pos as int)[0] == c);
        if c != '>' {
            let r = find_gt(s, pos + 1);
            assert(s@.skip(pos as int).skip(1) =~= s@.skip(pos as int + 1));
            return r;
        }
    }
    pos
}

/// Copies `s[from..to]` without its whitespace.
fn collect_non_ws(s: &Vec<char>, from: usize, to: usize) -> (r: Vec<char>)
    requires
        from <= to <= s@.len(),
    ensures
        r@ == strip_ws(s@.subrange(from as int, to as int)),
    decreases to - from,
{
    let ghost run = s@.subrange(from as int, to as int);
    if from == to {
        assert(run =~= Seq::<char>::empty());
        return Vec::new();
    }
    let c = s[from];
    assert(run[0] == c);
    let rest = collect_non_ws(s, from + 1, to);
    assert(run.skip(1) =~= s@.subrange(from as int + 1, to as int));
    if c == ' ' || c == '\t' || c == '\r' || c == '\n' {
        rest
    } else {
        let mut v: Vec<char> = Vec::new();
        v.push(c);
        let mut j: usize = 0;
        while j < rest.len()
            invariant
                j <= rest@.len(),
                v@ == seq![c] + rest@.take(j as int),
            decreases rest@.len() - j,
        {
            v.push(rest[j]);
            assert(v@ =~= seq![c] + rest@.take(j + 1));
            j += 1;
        }
        assert(rest@.take(rest@.len() as int) =~= rest@);
        v
    }
}


/// A skip of a take is the matching subrange.
pub proof fn lemma_skip_take(s: Seq<char>, a: int, k: int)
    requires
        0 <= a,
        0 <= k,
        a + k <= s.len(),
    ensures
        s.skip(a).take(k) == s.subrange(a, a + k),
{
    assert(s.skip(a).take(k) =~= s.subrange(a, a + k));
}

/// True when `s[from..to]` is a non-empty digit run.
fn all_digits_range(s: &Vec<char>, from: usize, to: usize) -> (r: bool)
    requires
        from <= to <= s@.len(),
    ensures
        r == crate::num::all_digits_seq(s@.subrange(from as int, to as int)),
{
    let ghost run = s@.subrange(from as int, to as int);
    if from == to {
        return false;
    }
    let mut i: usize = from;
    while i < to
        invariant
            from <= i <= to <= s@.len(),
            forall|j: int| from <= j < i ==> crate::values::is_digit_char(s@[j]),
            run == s@.subrange(from as int, to as int),
        decreases to - i,
    {
        let c = s[i];
        let ok = c == '0' || c == '1' || c == '2' || c == '3' || c == '4' || c == '5' || c == '6'
            || c == '7' || c == '8' || c == '9';
        if !ok {
            assert(run[i - from] == s@[i as int]);
            return false;
        }
        i += 1;
    }
    assert(forall|j: int| 0 <= j < run.len() ==> run[j] == s@[from + j]);
    true
}

/// Parses `s[from..to]` as a signed decimal; `None` when the text is no
/// signed digit run or its value leaves the 64-bit range.
fn parse_int_range(s: &Vec<char>, from: usize, to: usize) -> (r: Option<i64>)
    requires
        from <= to <= s@.len(),
    ensures
        ({
            let run = s@.subrange(from as int, to as int);
            match r {
                Some(v) => int_text_val(run) == Some(v as int),
                None => match int_text_val(run) {
                    Some(v) => v < i64::MIN || v > i64::MAX,
                    None => true,
                },
            }
        }),
{
    let ghost run = s@.subrange(from as int, to as int);
    if from == to {
        return None;
    }
    let neg = s[from] == '-';
    assert(run[0] == s@[from as int]);
    if neg {
        let dfrom = from + 1;
        if !all_digits_range(s, dfrom, to) {
            assert(run.skip(1) =~= s@.subrange(from as int + 1, to as int));
            return None;
        }
        assert(run.skip(1) =~= s@.subrange(from as int + 1, to as int));
        let cap: u64 = 9223372036854775808;
        match crate::num::digits_value_capped(s, dfrom, to, cap) {
            Some(mag) => {
                if mag == 9223372036854775808 {
                    Some(i64::MIN)
                } else {
                    Some(-(mag as i64))
                }
            },
            None => None,
        }
    } else {
        if !all_digits_range(s, from, to) {
            return None;
        }
        let cap: u64 = 9223372036854775807;
        match crate::num::digits_value_capped(s, from, to, cap) {
            Some(v) => Some(v as i64),
            None => None,
        }
    }
}

/// Parses one `<value>` element at `pos`, executable counterpart of
/// [`p_value`].
#[verifier::rlimit(100)]
#[verifier::spinoff_prover]
pub fn parse_value_at(s: &Vec<char>, pos: usize) -> (r: Option<(crate::values::Value, usize)>)
    requires
        pos <= s@.len(),
    ensures
        match r {
            Some((val, np)) => pos <= np <= s@.len() && p_value(s@.skip(pos as int)) == Some(
                (val@, (np - pos) as nat),
            ),
            None => p_value(s@.skip(pos as int)) is None,
        },
    decreases s@.len() - pos, 1int,
{
    proof {
        reveal_strlit("<value>");
        reveal_strlit("</value>");
        assert(s@.len() == s.len());
    }
    let ghost ss = s@.skip(pos as int);
    let wp = skip_ws(s, pos);
    proof {
        lemma_skip_skip(s@, pos as int, wp - pos);
        lemma_matches_shift(s@, wp as int, "<value>"@);
    }
    if !check_lit(s, wp, "<value>") {
        return None;
    }
    proof {
        lemma_skip_skip(s@, wp as int, 7);
    }
    match parse_typed_at(s, wp + 7) {
        Some((val, np1)) => {
            proof {
                lemma_skip_skip(s@, wp + 7, np1 - (wp + 7));
            }
            let wp2 = skip_ws(s, np1);
            proof {
                lemma_matches_shift(s@, wp2 as int, "</value>"@);
                lemma_skip_skip(s@, np1 as int, wp2 - np1);
            }
            if check_lit(s, wp2, "</value>") {
                Some((val, wp2 + 8))
            } else {
                None
            }
        },
        None => None,
    }
}

/// Parses the typed payload at `pos`, executable counterpart of
/// [`p_typed`].
#[verifier::rlimit(100)]
#[verifier::spinoff_prover]
pub fn parse_typed_at(s: &Vec<char>, pos: usize) -> (r: Option<(crate::values::Value, usize)>)
    requires
        pos <= s@.len(),
    ensures
        match r {
            Some((val, np)) => pos <= np <= s@.len() && p_typed(s@.skip(pos as int)) == Some(
                (val@, (np - pos) as nat),
            ),
            None => p_typed(s@.skip(pos as int)) is None,
        },
    decreases s@.len() - pos, 0int,
{
    proof {
        reveal_tags();
        assert(s@.len() == s.len());
    }
    let ghost ss = s@.skip(pos as int);
    let tp = skip_ws(s, pos);
    proof {
        lemma_skip_skip(s@, pos as int, tp - pos);
        lemma_matches_shift(s@, tp as int, "<i4>"@);
        lemma_matches_shift(s@, tp as int, "<int>"@);
        lemma_matches_shift(s@, tp as int, "<i8>"@);
        lemma_matches_shift(s@, tp as int, "<boolean>"@);
        lemma_matches_shift(s@, tp as int, "<string>"@);
        lemma_matches_shift(s@, tp as int, "<double>"@);
        lemma_matches_shift(s@, tp as int, "<dateTime.iso8601>"@);
        lemma_matches_shift(s@, tp as int, "<base64>"@);
        lemma_matches_shift(s@, tp as int, "<struct>"@);
        lemma_matches_shift(s@, tp as int, "<array>"@);
        lemma_matches_shift(s@, tp as int, "<nil/>"@);
    }
    let ghost t = s@.skip(tp as int);
    if check_lit(s, tp, "<i4>") {
        let bs = tp + 4;
        proof {
            lemma_skip_skip(s@, tp as int, 4);
        }
        let lp = find_lt(s, bs);
        proof {
            lemma_skip_take(s@, bs as int, lp - bs);
            lemma_skip_skip(s@, bs as int, lp - bs);
            lemma_matches_shift(s@, lp as int, "</i4>"@);
        }
        match parse_int_range(s, bs, lp) {
            Some(v) => {
                if -2147483648 <= v && v <= 2147483647 && check_lit(s, lp, "</i4>") {
                    Some((crate::values::Value::i4(v as i32), lp + 5))
                } else {
                    None
                }
            },
            None => None,
        }
    } else if check_lit(s, tp, "<int>") {
        let bs = tp + 5;
        proof {
            lemma_skip_skip(s@, tp as int, 5);
        }
        let lp = find_lt(s, bs);
        proof {
            lemma_skip_take(s@, bs as int, lp - bs);
            lemma_skip_skip(s@, bs as int, lp - bs);
            lemma_matches_shift(s@, lp as int, "</int>"@);
        }
        match parse_int_range(s, bs, lp) {
            Some(v) => {
                if -2147483648 <= v && v <= 2147483647 && check_lit(s, lp, "</int>") {
                    Some((crate::values::Value::i4(v as i32), lp + 6))
                } else {
                    None
                }
            },
            None => None,
        }
    } else if check_lit(s, tp, "<i8>") {
        let bs = tp + 4;
        proof {
            lemma_skip_skip(s@, tp as int, 4);
        }
        let lp = find_lt(s, bs);
        proof {
            lemma_skip_take(s@, bs as int, lp - bs);
            lemma_skip_skip(s@, bs as int, lp - bs);
            lemma_matches_shift(s@, lp as int, "</i8>"@);
        }
        match parse_int_range(s, bs, lp) {
            Some(v) => {
                if check_lit(s, lp, "</i8>") {
                    Some((crate::values::Value::i8(v), lp + 5))
                } else {
                    None
                }
            },
            None => None,
        }
    } else if check_lit(s, tp, "<boolean>") {
        let bs = tp + 9;
        proof {
            lemma_skip_skip(s@, tp as int, 9);
        }
        let lp = find_lt(s, bs);
        let ghost body = s@.skip(bs as int).take(lp - bs);
        proof {
            lemma_skip_take(s@, bs as int, lp - bs);
            lemma_skip_skip(s@, bs as int, lp - bs);
            lemma_matches_shift(s@, lp as int, "</boolean>"@);
            lemma_matches_shift(s@, bs as int, "true"@);
            lemma_matches_shift(s@, bs as int, "false"@);
        }
        if !check_lit(s, lp, "</boolean>") {
            return None;
        }
        let n = lp - bs;
        let one = n == 1 && s[bs] == '1';
        let tru = n == 4 && check_lit(s, bs, "true");
        let zero = n == 1 && s[bs] == '0';
        let fal = n == 5 && check_lit(s, bs, "false");
        proof {
            assert(body.len() == n);
            if n == 1 {
                assert(body[0] == s@[bs as int]);
                assert((body == seq!['1']) == (s@[bs as int] == '1')) by {
                    if s@[bs as int] == '1' {
                        assert(body =~= seq!['1']);
                    } else {
                        if body == seq!['1'] {
                            assert(body[0] == '1');
                        }
                    }
                }
                assert((body == seq!['0']) == (s@[bs as int] == '0')) by {
                    if s@[bs as int] == '0' {
                        assert(body =~= seq!['0']);
                    } else {
                        if body == seq!['0'] {
                            assert(body[0] == '0');
                        }
                    }
                }
            }
            if n == 4 {
                assert((body == "true"@) == matches_at(s@.skip(bs as int), 0, "true"@)) by {
                    if matches_at(s@.skip(bs as int), 0, "true"@) {
                        assert(body =~= s@.skip(bs as int).take(4));
                    } else {
                        if body == "true"@ {
                            assert(s@.skip(bs as int).take(4) == "true"@);
                        }
                    }
                }
            }
            if n == 5 {
                assert((body == "false"@) == matches_at(s@.skip(bs as int), 0, "false"@)) by {
                    if matches_at(s@.skip(bs as int), 0, "false"@) {
                        assert(body =~= s@.skip(bs as int).take(5));
                    } else {
                        if body == "false"@ {
                            assert(s@.skip(bs as int).take(5) == "false"@);
                        }
                    }
                }
            }
            assert(body == seq!['1'] ==> body.len() == 1);
            assert(body == seq!['0'] ==> body.len() == 1);
            assert(body == "true"@ ==> body.len() == 4);
            assert(body == "false"@ ==> body.len() == 5);
        }
        if one || tru {
            Some((crate::values::Value::boolean(true), lp + 10))
        } else if zero || fal {
            Some((crate::values::Value::boolean(false), lp + 10))
        } else {
            None
        }
    } else if check_lit(s, tp, "<string>") {
        let bs = tp + 8;
        proof {
            lemma_skip_skip(s@, tp as int, 8);
        }
        let lp = find_lt(s, bs);
        proof {
            lemma_skip_take(s@, bs as int, lp - bs);
            lemma_skip_skip(s@, bs as int, lp - bs);
            lemma_matches_shift(s@, lp as int, "</string>"@);
        }
        match crate::escape::unescape_range(s, bs, lp) {
            Some(text) => {
                if check_lit(s, lp, "</string>") {
                    Some(
                        (
                            crate::values::Value::string(crate::text::chars_to_string(&text)),
                            lp + 9,
                        ),
                    )
                } else {
                    None
                }
            },
            None => None,
        }
    } else if check_lit(s, tp, "<double>") {
        let bs = tp + 8;
        proof {
            lemma_skip_skip(s@, tp as int, 8);
        }
        let lp = find_lt(s, bs);
        proof {
            lemma_skip_take(s@, bs as int, lp - bs);
            lemma_skip_skip(s@, bs as int, lp - bs);
            lemma_matches_shift(s@, lp as int, "</double>"@);
        }
        let body = collect_range(s, bs, lp);
        if crate::values::is_double_text_exec(&body) && check_lit(s, lp, "</double>") {
            let d = crate::values::Double { text: crate::text::chars_to_string(&body) };
            Some((crate::values::Value::double(d), lp + 9))
        } else {
            None
        }
    } else if check_lit(s, tp, "<dateTime.iso8601>") {
        let bs = tp + 18;
        proof {
            lemma_skip_skip(s@, tp as int, 18);
        }
        let lp = find_lt(s, bs);
        proof {
            lemma_skip_take(s@, bs as int, lp - bs);
            lemma_skip_skip(s@, bs as int, lp - bs);
            lemma_matches_shift(s@, lp as int, "</dateTime.iso8601>"@);
        }
        match crate::dt::parse_date_range(s, bs, lp) {
            Some(dt) => {
                if check_lit(s, lp, "</dateTime.iso8601>") {
                    Some((crate::values::Value::datetime(dt), lp + 19))
                } else {
                    None
                }
            },
            None => None,
        }
    } else if check_lit(s, tp, "<base64>") {
        let bs = tp + 8;
        proof {
            lemma_skip_skip(s@, tp as int, 8);
        }
        let lp = find_lt(s, bs);
        proof {
            lemma_skip_take(s@, bs as int, lp - bs);
            lemma_skip_skip(s@, bs as int, lp - bs);
            lemma_matches_shift(s@, lp as int, "</base64>"@);
        }
        let clean = collect_non_ws(s, bs, lp);
        match crate::b64::parse_b64(&clean, 0) {
            Some(bytes) => {
                proof {
                    assert(clean@.skip(0) =~= clean@);
                }
                if check_lit(s, lp, "</base64>") {
                    Some((crate::values::Value::base64(bytes), lp + 9))
                } else {
                    None
                }
            },
            None => {
                proof {
                    assert(clean@.skip(0) =~= clean@);
                }
                None
            },
        }
    } else if check_lit(s, tp, "<struct>") {
        proof {
            lemma_skip_skip(s@, tp as int, 8);
        }
        match parse_members_at(s, tp + 8) {
            Some((members, np)) => {
                let ghost msv = members@;
                let val = crate::values::Value::structure(
                    crate::values::Struct::from_members(members),
                );
                proof {
                    crate::values::lemma_mems_v(msv);
                    assert(msv.map_values(|m: crate::values::Member| m@) =~= crate::values::mems_v(
                        msv,
                    ));
                }
                Some((val, np))
            },
            None => None,
        }
    } else if check_lit(s, tp, "<array>") {
        proof {
            lemma_skip_skip(s@, tp as int, 7);
        }
        let ap = skip_ws(s, tp + 7);
        proof {
            lemma_skip_skip(s@, tp + 7, ap - (tp + 7));
            lemma_matches_shift(s@, ap as int, "<data>"@);
        }
        if !check_lit(s, ap, "<data>") {
            return None;
        }
        proof {
            lemma_skip_skip(s@, ap as int, 6);
        }
        match parse_elems_at(s, ap + 6) {
            Some((elems, np)) => {
                proof {
                    lemma_skip_skip(s@, ap + 6, np - (ap + 6));
                }
                let wp2 = skip_ws(s, np);
                proof {
                    lemma_skip_skip(s@, np as int, wp2 - np);
                    lemma_matches_shift(s@, wp2 as int, "</array>"@);
                }
                if check_lit(s, wp2, "</array>") {
                    let ghost esv = elems@;
                    let val = crate::values::Value::array(
                        crate::values::Array::from_elements(elems),
                    );
                    proof {
                        crate::values::lemma_vals_v(esv);
                        assert(esv.map_values(|v: crate::values::Value| v@) =~= crate::values::vals_v(
                            esv,
                        ));
                    }
                    Some((val, wp2 + 8))
                } else {
                    None
                }
            },
            None => None,
        }
    } else if check_lit(s, tp, "<nil/>") {
        Some((crate::values::Value::nil(), tp + 6))
    } else {
        None
    }
}

/// Parses struct members at `pos`, executable counterpart of
/// [`p_members`].
#[verifier::rlimit(100)]
#[verifier::spinoff_prover]
pub fn parse_members_at(s: &Vec<char>, pos: usize) -> (r: Option<(Vec<crate::values::Member>, usize)>)
    requires
        pos <= s@.len(),
    ensures
        match r {
            Some((members, np)) => pos <= np <= s@.len() && p_members(s@.skip(pos as int)) == Some(
                (crate::values::mems_v(members@), (np - pos) as nat),
            ),
            None => p_members(s@.skip(pos as int)) is None,
        },
    decreases s@.len() - pos, 2int,
{
    proof {
        reveal_strlit("</struct>");
        reveal_strlit("<member>");
        reveal_strlit("<name>");
        reveal_strlit("</name>");
        reveal_strlit("</member>");
        assert(s@.len() == s.len());
    }
    let wp = skip_ws(s, pos);
    proof {
        lemma_skip_skip(s@, pos as int, wp - pos);
        lemma_matches_shift(s@, wp as int, "</struct>"@);
        lemma_matches_shift(s@, wp as int, "<member>"@);
    }
    if check_lit(s, wp, "</struct>") {
        let empty: Vec<crate::values::Member> = Vec::new();
        proof {
            assert(crate::values::mems_v(empty@) =~= Seq::<MemV>::empty());
        }
        return Some((empty, wp + 9));
    }
    if !check_lit(s, wp, "<member>") {
        return None;
    }
    proof {
        lemma_skip_skip(s@, wp as int, 8);
    }
    let w1 = skip_ws(s, wp + 8);
    proof {
        lemma_skip_skip(s@, wp + 8, w1 - (wp + 8));
        lemma_matches_shift(s@, w1 as int, "<name>"@);
    }
    if !check_lit(s, w1, "<name>") {
        return None;
    }
    let nbs = w1 + 6;
    proof {
        lemma_skip_skip(s@, w1 as int, 6);
    }
    let lp = find_lt(s, nbs);
    proof {
        lemma_skip_take(s@, nbs as int, lp - nbs);
        lemma_skip_skip(s@, nbs as int, lp - nbs);
        lemma_matches_shift(s@, lp as int, "</name>"@);
    }
    let name = match crate::escape::unescape_range(s, nbs, lp) {
        Some(t) => t,
        None => {
            return None;
        },
    };
    if !check_lit(s, lp, "</name>") {
        return None;
    }
    proof {
        lemma_skip_skip(s@, lp as int, 7);
    }
    match parse_value_at(s, lp + 7) {
        Some((val, np)) => {
            proof {
                lemma_skip_skip(s@, lp + 7, np - (lp + 7));
            }
            let w2 = skip_ws(s, np);
            proof {
                lemma_skip_skip(s@, np as int, w2 - np);
                lemma_matches_shift(s@, w2 as int, "</member>"@);
            }
            if !check_lit(s, w2, "</member>") {
                return None;
            }
            let k = w2 + 9;
            proof {
                lemma_skip_skip(s@, pos as int, k - pos);
            }
            match parse_members_at(s, k) {
                Some((rest, np2)) => {
                    let m = crate::values::Member::new(
                        crate::text::chars_to_string(&name),
                        val,
                    );
                    let ghost mv = m@;
                    let ghost restv = rest@;
                    let out = cons_member(m, rest);
                    proof {
                        crate::values::lemma_mems_v(out@);
                        crate::values::lemma_mems_v(restv);
                        assert(crate::values::mems_v(out@) =~= seq![mv]
                            + crate::values::mems_v(restv));
                    }
                    Some((out, np2))
                },
                None => None,
            }
        },
        None => None,
    }
}

/// Parses array elements at `pos`, executable counterpart of
/// [`p_elems`].
#[verifier::rlimit(100)]
#[verifier::spinoff_prover]
pub fn parse_elems_at(s: &Vec<char>, pos: usize) -> (r: Option<(Vec<crate::values::Value>, usize)>)
    requires
        pos <= s@.len(),
    ensures
        match r {
            Some((elems, np)) => pos <= np <= s@.len() && p_elems(s@.skip(pos as int)) == Some(
                (crate::values::vals_v(elems@), (np - pos) as nat),
            ),
            None => p_elems(s@.skip(pos as int)) is None,
        },
    decreases s@.len() - pos, 3int,
{
    proof {
        reveal_strlit("</data>");
        assert(s@.len() == s.len());
    }
    let wp = skip_ws(s, pos);
    proof {
        lemma_skip_skip(s@, pos as int, wp - pos);
        lemma_matches_shift(s@, wp as int, "</data>"@);
    }
    if check_lit(s, wp, "</data>") {
        let empty: Vec<crate::values::Value> = Vec::new();
        proof {
            assert(crate::values::vals_v(empty@) =~= Seq::<ValV>::empty());
        }
        return Some((empty, wp + 7));
    }
    match parse_value_at(s, wp) {
        Some((val, np)) => {
            if np == wp {
                return None;
            }
            proof {
                lemma_skip_skip(s@, pos as int, np - pos);
            }
            match parse_elems_at(s, np) {
                Some((rest, np2)) => {
                    let ghost vv = val@;
                    let ghost restv = rest@;
                    let out = cons_value(val, rest);
                    proof {
                        crate::values::lemma_vals_v(out@);
                        crate::values::lemma_vals_v(restv);
                        assert(crate::values::vals_v(out@) =~= seq![vv]
                            + crate::values::vals_v(restv));
                    }
                    Some((out, np2))
                },
                None => None,
            }
        },
        None => None,
    }
}


/// Puts one member in front of a parsed member list.
fn cons_member(m: crate::values::Member, rest: Vec<crate::values::Member>) -> (r: Vec<
    crate::values::Member,
>)
    ensures
        r@ == seq![m] + rest@,
{
    let ghost restv = rest@;
    proof {
        assert(rest@.len() == rest.len());
    }
    let mut out: Vec<crate::values::Member> = Vec::new();
    out.push(m);
    let ghost first = out@[0];
    let mut rest2 = rest;
    let mut j: usize = 0;
    while rest2.len() > 0
        invariant
            j <= restv.len(),
            restv.len() <= usize::MAX,
            rest2@ == restv.skip(j as int),
            out@.len() == j + 1,
            out@[0] == first,
            forall|i: int| 0 <= i < j ==> out@[i + 1] == restv[i],
        decreases restv.len() - j,
    {
        let next = rest2.remove(0);
        proof {
            assert(next == restv.skip(j as int)[0]);
            assert(rest2@ =~= restv.skip(j + 1));
        }
        proof {
            assert(j < restv.len());
        }
        out.push(next);
        j += 1;
    }
    proof {
        assert(restv.skip(j as int).len() == 0);
    }
    proof {
        assert(out@ =~= seq![first] + restv);
    }
    out
}

/// Puts one value in front of a parsed element list.
pub(crate) fn cons_value(v: crate::values::Value, rest: Vec<crate::values::Value>) -> (r: Vec<
    crate::values::Value,
>)
    ensures
        r@ == seq![v] + rest@,
{
    let ghost restv = rest@;
    proof {
        assert(rest@.len() == rest.len());
    }
    let mut out: Vec<crate::values::Value> = Vec::new();
    out.push(v);
    let ghost first = out@[0];
    let mut rest2 = rest;
    let mut j: usize = 0;
    while rest2.len() > 0
        invariant
            j <= restv.len(),
            restv.len() <= usize::MAX,
            rest2@ == restv.skip(j as int),
            out@.len() == j + 1,
            out@[0] == first,
            forall|i: int| 0 <= i < j ==> out@[i + 1] == restv[i],
        decreases restv.len() - j,
    {
        let next = rest2.remove(0);
        proof {
            assert(next == restv.skip(j as int)[0]);
            assert(rest2@ =~= restv.skip(j + 1));
        }
        proof {
            assert(j < restv.len());
        }
        out.push(next);
        j += 1;
    }
    proof {
        assert(restv.skip(j as int).len() == 0);
    }
    proof {
        assert(out@ =~= seq![first] + restv);
    }
    out
}

/// Copies `s[from..to]` into a fresh buffer.
fn collect_range(s: &Vec<char>, from: usize, to: usize) -> (r: Vec<char>)
    requires
        from <= to <= s@.len(),
    ensures
        r@ == s@.subrange(from as int, to as int),
{
    let mut v: Vec<char> = Vec::new();
    let mut i: usize = from;
    while i < to
        invariant
            from <= i <= to <= s@.len(),
            v@ == s@.subrange(from as int, i as int),
        decreases to - i,
    {
        v.push(s[i]);
        assert(v@ =~= s@.subrange(from as int, i + 1));
        i += 1;
    }
    v
}

} // verus!
