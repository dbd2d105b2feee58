//! Character-buffer utilities shared by the wire codec: conversions
//! between `str`/`String` and `Vec<char>`, literal matching, and
//! whitespace handling.

use vstd::prelude::*;

verus! {

/// Relies on `String::push`: appends exactly the one character to the
/// end of the string.
#[verifier::external_body]
pub fn push_char(s: &mut String, c: char)
    ensures
        final(s)@ == old(s)@.push(c),
{
    s.push(c)
}

/// Copies the characters of a text into a buffer.
pub fn str_to_chars(s: &str) -> (r: Vec<char>)
    ensures
        r@ == s@,
{
    let len = s.unicode_len();
    let mut r: Vec<char> = Vec::new();
    let mut i: usize = 0;
    while i < len
        invariant
            i <= len,
            len == s@.len(),
            r@ == s@.take(i as int),
        decreases len - i,
    {
        r.push(s.get_char(i));
        assert(r@ =~= s@.take(i + 1));
        i += 1;
    }
    assert(r@ =~= s@);
    r
}

/// Collects a character buffer back into an owned string.
pub fn chars_to_string(chars: &Vec<char>) -> (r: String)
    ensures
        r@ == chars@,
{
    let mut r = String::new();
    let mut i: usize = 0;
    while i < chars.len()
        invariant
            i <= chars@.len(),
            r@ == chars@.take(i as int),
        decreases chars@.len() - i,
    {
        push_char(&mut r, chars[i]);
        assert(r@ =~= chars@.take(i + 1));
        i += 1;
    }
    assert(r@ =~= chars@);
    r
}

/// Appends the characters of a literal to an output buffer.
pub fn push_str_chars(out: &mut Vec<char>, s: &str)
    ensures
        final(out)@ == old(out)@ + s@,
{
    let len = s.unicode_len();
    let mut i: usize = 0;
    while i < len
        invariant
            i <= len,
            len == s@.len(),
            out@ == old(out)@ + s@.take(i as int),
        decreases len - i,
    {
        out.push(s.get_char(i));
        assert(out@ =~= old(out)@ + s@.take(i + 1));
        i += 1;
    }
    assert(out@ =~= old(out)@ + s@);
}

/// True when `s` continues with the characters of `lit` at `pos`.
pub open spec fn matches_at(s: Seq<char>, pos: int, lit: Seq<char>) -> bool {
    pos + lit.len() <= s.len() && s.subrange(pos, pos + lit.len()) == lit
}

/// Compares the characters at `pos` against a literal.
pub fn check_lit(s: &Vec<char>, pos: usize, lit: &str) -> (r: bool)
    requires
        pos <= s@.len(),
    ensures
        r == matches_at(s@, pos as int, lit@),
{
    let len = lit.unicode_len();
    if len > s.len() - pos {
        return false;
    }
    let mut i: usize = 0;
    while i < len
        invariant
            i <= len,
            len == lit@.len(),
            pos + len <= s@.len(),
            s@.len() == s.len(),
            forall|j: int| 0 <= j < i ==> s@[pos + j] == lit@[j],
        decreases len - i,
    {
        assert(pos + i < s@.len());
        if s[pos + i] != lit.get_char(i) {
            assert(s@.subrange(pos as int, pos + len) != lit@) by {
                assert(s@.subrange(pos as int, pos + len)[i as int] == s@[pos + i]);
            }
            return false;
        }
        i += 1;
    }
    assert(s@.subrange(pos as int, pos + len) =~= lit@);
    true
}

/// True of the XML whitespace characters.
pub open spec fn is_ws(c: char) -> bool {
    c == ' ' || c == '\t' || c == '\r' || c == '\n'
}

/// The length of the run of whitespace at the front of `s`.
pub open spec fn ws_len(s: Seq<char>) -> nat
    decreases s.len(),
{
    if s.len() > 0 && is_ws(s[0]) {
        1 + ws_len(s.skip(1))
    } else {
        0
    }
}

/// The front whitespace run never exceeds the text.
pub proof fn lemma_ws_len_bound(s: Seq<char>)
    ensures
        ws_len(s) <= s.len(),
        forall|i: int| 0 <= i < ws_len(s) ==> is_ws(s[i]),
        ws_len(s) < s.len() ==> !is_ws(s[ws_len(s) as int]),
    decreases s.len(),
{
    if s.len() > 0 && is_ws(s[0]) {
        lemma_ws_len_bound(s.skip(1));
        assert forall|i: int| 0 <= i < ws_len(s) implies is_ws(s[i]) by {
            if i > 0 {
                assert(s[i] == s.skip(1)[i - 1]);
                assert(is_ws(s.skip(1)[i - 1]));
            }
        }
        if ws_len(s) < s.len() {
            assert(s[ws_len(s) as int] == s.skip(1)[ws_len(s.skip(1)) as int]);
        }
    }
}

/// A text that does not begin with whitespace has no run to skip.
pub proof fn lemma_ws_len_zero(s: Seq<char>)
    requires
        s.len() == 0 || !is_ws(s[0]),
    ensures
        ws_len(s) == 0,
{
}

/// Advances past the whitespace run starting at `pos`.
pub fn skip_ws(s: &Vec<char>, pos: usize) -> (r: usize)
    requires
        pos <= s@.len(),
    ensures
        pos <= r <= s@.len(),
        r - pos == ws_len(s@.skip(pos as int)),
    decreases s@.len() - pos,
{
    proof {
        lemma_ws_len_bound(s@.skip(pos as int));
    }
    if pos < s.len() {
        let c = s[pos];
        if c == ' ' || c == '\t' || c == '\r' || c == '\n' {
            assert(s@.skip(pos as int)[0] == c);
            let r = skip_ws(s, pos + 1);
            assert(s@.skip(pos as int).skip(1) =~= s@.skip(pos as int + 1));
            return r;
        }
        assert(s@.skip(pos as int)[0] == c);
    }
    pos
}

/// Compares two texts character by character.
pub fn str_eq(a: &str, b: &str) -> (r: bool)
    ensures
        r == (a@ == b@),
{
    let la = a.unicode_len();
    let lb = b.unicode_len();
    if la != lb {
        return false;
    }
    let mut i: usize = 0;
    while i < la
        invariant
            i <= la,
            la == a@.len(),
            la == b@.len(),
            forall|j: int| 0 <= j < i ==> a@[j] == b@[j],
        decreases la - i,
    {
        if a.get_char(i) != b.get_char(i) {
            return false;
        }
        i += 1;
    }
    assert(a@ =~= b@);
    true
}

} // verus!
