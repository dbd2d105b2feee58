//! XML escaping of text content: the five metacharacter entities, their
//! removal on decode, and the inversion lemma between the two.

use vstd::prelude::*;

use crate::text::check_lit;

verus! {

/// The wire form of one text character.
pub open spec fn esc_char(c: char) -> Seq<char> {
    if c == '&' {
        seq!['&', 'a', 'm', 'p', ';']
    } else if c == '<' {
        seq!['&', 'l', 't', ';']
    } else if c == '>' {
        seq!['&', 'g', 't', ';']
    } else if c == '"' {
        seq!['&', 'q', 'u', 'o', 't', ';']
    } else if c == '\'' {
        seq!['&', 'a', 'p', 'o', 's', ';']
    } else {
        seq![c]
    }
}

/// The wire form of a text: every character escaped in order.
pub open spec fn escape(s: Seq<char>) -> Seq<char>
    decreases s.len(),
{
    if s.len() == 0 {
        Seq::empty()
    } else {
        esc_char(s[0]) + escape(s.skip(1))
    }
}

/// True when `p` is a prefix of `s`.
pub open spec fn has_prefix(s: Seq<char>, p: Seq<char>) -> bool {
    p.len() <= s.len() && s.take(p.len() as int) == p
}

/// Removes the wire escapes from a content run; fails on a bare `&`
/// that starts no known entity.
pub open spec fn unescape(s: Seq<char>) -> Option<Seq<char>>
    decreases s.len(),
{
    if s.len() == 0 {
        Some(Seq::empty())
    } else if s[0] == '&' {
        if has_prefix(s, seq!['&', 'a', 'm', 'p', ';']) {
            prepend('&', unescape(s.skip(5)))
        } else if has_prefix(s, seq!['&', 'l', 't', ';']) {
            prepend('<', unescape(s.skip(4)))
        } else if has_prefix(s, seq!['&', 'g', 't', ';']) {
            prepend('>', unescape(s.skip(4)))
        } else if has_prefix(s, seq!['&', 'q', 'u', 'o', 't', ';']) {
            prepend('"', unescape(s.skip(6)))
        } else if has_prefix(s, seq!['&', 'a', 'p', 'o', 's', ';']) {
            prepend('\'', unescape(s.skip(6)))
        } else {
            None
        }
    } else {
        prepend(s[0], unescape(s.skip(1)))
    }
}

/// Puts one decoded character in front of an unescape result.
pub open spec fn prepend(c: char, rest: Option<Seq<char>>) -> Option<Seq<char>> {
    match rest {
        Some(t) => Some(seq![c] + t),
        None => None,
    }
}

/// Escaping distributes over appending one character.
pub proof fn lemma_escape_snoc(s: Seq<char>, c: char)
    ensures
        escape(s.push(c)) == escape(s) + esc_char(c),
    decreases s.len(),
{
    if s.len() == 0 {
        assert(s.push(c)[0] == c);
        assert(s.push(c).skip(1) =~= Seq::<char>::empty());
        assert(escape(s.push(c).skip(1)) =~= Seq::<char>::empty());
        assert(escape(s.push(c)) == esc_char(c) + escape(s.push(c).skip(1)));
        assert(esc_char(c) + Seq::<char>::empty() =~= esc_char(c));
        assert(escape(s) + esc_char(c) =~= esc_char(c));
    } else {
        lemma_escape_snoc(s.skip(1), c);
        assert(s.push(c).skip(1) =~= s.skip(1).push(c));
        assert(s.push(c)[0] == s[0]);
        assert(escape(s.push(c)) == esc_char(s[0]) + escape(s.skip(1).push(c)));
        assert(esc_char(s[0]) + (escape(s.skip(1)) + esc_char(c)) =~= (esc_char(s[0]) + escape(
            s.skip(1),
        )) + esc_char(c));
    }
}

/// Escaped text never contains the characters that end or start a tag.
pub proof fn lemma_escape_no_meta(s: Seq<char>)
    ensures
        forall|i: int| 0 <= i < escape(s).len() ==> escape(s)[i] != '<',
        forall|i: int| 0 <= i < escape(s).len() ==> escape(s)[i] != '>',
    decreases s.len(),
{
    if s.len() > 0 {
        lemma_escape_no_meta(s.skip(1));
        assert forall|i: int| 0 <= i < escape(s).len() implies escape(s)[i] != '<' && escape(
            s,
        )[i] != '>' by {
            if i < esc_char(s[0]).len() {
                assert(escape(s)[i] == esc_char(s[0])[i]);
            } else {
                assert(escape(s)[i] == escape(s.skip(1))[i - esc_char(s[0]).len()]);
            }
        }
    }
}

/// Unescaping recovers exactly the text that was escaped.
pub proof fn lemma_unescape_escape(s: Seq<char>)
    ensures
        unescape(escape(s)) == Some(s),
    decreases s.len(),
{
    if s.len() == 0 {
        assert(escape(s) =~= Seq::<char>::empty());
    } else {
        lemma_unescape_escape(s.skip(1));
        let c = s[0];
        let e = escape(s);
        assert(e == esc_char(c) + escape(s.skip(1)));
        let k = esc_char(c).len() as int;
        assert(e.skip(k) =~= escape(s.skip(1)));
        assert forall|j: int| 0 <= j < k implies e[j] == esc_char(c)[j] by {}
        if c == '&' {
            assert(has_prefix(e, seq!['&', 'a', 'm', 'p', ';'])) by {
                assert(e.take(5) =~= seq!['&', 'a', 'm', 'p', ';']);
            }
            assert(unescape(e) == prepend('&', unescape(e.skip(5))));
            assert(seq![c] + s.skip(1) =~= s);
        } else if c == '<' {
            assert(e[0] == '&');
            assert(!has_prefix(e, seq!['&', 'a', 'm', 'p', ';'])) by {
                if has_prefix(e, seq!['&', 'a', 'm', 'p', ';']) {
                    assert(e.take(5)[1] == 'a');
                }
            }
            assert(has_prefix(e, seq!['&', 'l', 't', ';'])) by {
                assert(e.take(4) =~= seq!['&', 'l', 't', ';']);
            }
            assert(seq![c] + s.skip(1) =~= s);
        } else if c == '>' {
            assert(e[0] == '&');
            assert(!has_prefix(e, seq!['&', 'a', 'm', 'p', ';'])) by {
                if has_prefix(e, seq!['&', 'a', 'm', 'p', ';']) {
                    assert(e.take(5)[1] == 'a');
                }
            }
            assert(!has_prefix(e, seq!['&', 'l', 't', ';'])) by {
                if has_prefix(e, seq!['&', 'l', 't', ';']) {
                    assert(e.take(4)[1] == 'l');
                }
            }
            assert(has_prefix(e, seq!['&', 'g', 't', ';'])) by {
                assert(e.take(4) =~= seq!['&', 'g', 't', ';']);
            }
            assert(seq![c] + s.skip(1) =~= s);
        } else if c == '"' {
            assert(e[0] == '&');
            assert(!has_prefix(e, seq!['&', 'a', 'm', 'p', ';'])) by {
                if has_prefix(e, seq!['&', 'a', 'm', 'p', ';']) {
                    assert(e.take(5)[1] == 'a');
                }
            }
            assert(!has_prefix(e, seq!['&', 'l', 't', ';'])) by {
                if has_prefix(e, seq!['&', 'l', 't', ';']) {
                    assert(e.take(4)[1] == 'l');
                }
            }
            assert(!has_prefix(e, seq!['&', 'g', 't', ';'])) by {
                if has_prefix(e, seq!['&', 'g', 't', ';']) {
                    assert(e.take(4)[1] == 'g');
                }
            }
            assert(has_prefix(e, seq!['&', 'q', 'u', 'o', 't', ';'])) by {
                assert(e.take(6) =~= seq!['&', 'q', 'u', 'o', 't', ';']);
            }
            assert(seq![c] + s.skip(1) =~= s);
        } else if c == '\'' {
            assert(e[0] == '&');
            assert(!has_prefix(e, seq!['&', 'a', 'm', 'p', ';'])) by {
                if has_prefix(e, seq!['&', 'a', 'm', 'p', ';']) {
                    assert(e.take(5)[2] == 'm');
                }
            }
            assert(!has_prefix(e, seq!['&', 'l', 't', ';'])) by {
                if has_prefix(e, seq!['&', 'l', 't', ';']) {
                    assert(e.take(4)[1] == 'l');
                }
            }
            assert(!has_prefix(e, seq!['&', 'g', 't', ';'])) by {
                if has_prefix(e, seq!['&', 'g', 't', ';']) {
                    assert(e.take(4)[1] == 'g');
                }
            }
            assert(!has_prefix(e, seq!['&', 'q', 'u', 'o', 't', ';'])) by {
                if has_prefix(e, seq!['&', 'q', 'u', 'o', 't', ';']) {
                    assert(e.take(6)[1] == 'q');
                }
            }
            assert(has_prefix(e, seq!['&', 'a', 'p', 'o', 's', ';'])) by {
                assert(e.take(6) =~= seq!['&', 'a', 'p', 'o', 's', ';']);
            }
            assert(seq![c] + s.skip(1) =~= s);
        } else {
            assert(e[0] == c);
            assert(e.skip(1) =~= escape(s.skip(1)));
            assert(seq![c] + s.skip(1) =~= s);
        }
    }
}

/// Appends the escaped form of a text to an output buffer.
pub fn push_escaped(out: &mut Vec<char>, s: &str)
    ensures
        final(out)@ == old(out)@ + escape(s@),
{
    let len = s.unicode_len();
    let mut i: usize = 0;
    proof {
        assert(s@.take(0) =~= Seq::<char>::empty());
        assert(out@ =~= out@ + escape(s@.take(0)));
    }
    while i < len
        invariant
            i <= len,
            len == s@.len(),
            out@ == old(out)@ + escape(s@.take(i as int)),
        decreases len - i,
    {
        let c = s.get_char(i);
        if c == '&' {
            out.push('&');
            out.push('a');
            out.push('m');
            out.push('p');
            out.push(';');
        } else if c == '<' {
            out.push('&');
            out.push('l');
            out.push('t');
            out.push(';');
        } else if c == '>' {
            out.push('&');
            out.push('g');
            out.push('t');
            out.push(';');
        } else if c == '"' {
            out.push('&');
            out.push('q');
            out.push('u');
            out.push('o');
            out.push('t');
            out.push(';');
        } else if c == '\'' {
            out.push('&');
            out.push('a');
            out.push('p');
            out.push('o');
            out.push('s');
            out.push(';');
        } else {
            out.push(c);
        }
        proof {
            lemma_escape_snoc(s@.take(i as int), c);
            assert(s@.take(i + 1) =~= s@.take(i as int).push(c));
            assert(out@ =~= old(out)@ + escape(s@.take(i + 1)));
        }
        i += 1;
    }
    proof {
        assert(s@.take(len as int) =~= s@);
    }
}

/// Removes the wire escapes from `s[from..to]`, executable counterpart
/// of [`unescape`].
pub fn unescape_range(s: &Vec<char>, from: usize, to: usize) -> (r: Option<Vec<char>>)
    requires
        from <= to <= s@.len(),
    ensures
        match r {
            Some(t) => unescape(s@.subrange(from as int, to as int)) == Some(t@),
            None => unescape(s@.subrange(from as int, to as int)) is None,
        },
    decreases to - from,
{
    let ghost run = s@.subrange(from as int, to as int);
    if from == to {
        assert(run =~= Seq::<char>::empty());
        return Some(Vec::new());
    }
    let c = s[from];
    assert(run[0] == c);
    if c != '&' {
        let rest = unescape_range(s, from + 1, to);
        assert(run.skip(1) =~= s@.subrange(from as int + 1, to as int));
        return match rest {
            Some(t) => Some(cons_char(c, t)),
            None => None,
        };
    }
    proof {
        reveal_strlit("&amp;");
        reveal_strlit("&lt;");
        reveal_strlit("&gt;");
        reveal_strlit("&quot;");
        reveal_strlit("&apos;");
    }
    let amp = check_lit(s, from, "&amp;") && to - from >= 5;
    proof {
        assert("&amp;"@ =~= seq!['&', 'a', 'm', 'p', ';']);
        lemma_entity_agree(s@, run, from as int, to as int, "&amp;"@, seq!['&', 'a', 'm', 'p', ';'], amp);
    }
    if amp {
        let rest = unescape_range(s, from + 5, to);
        assert(run.skip(5) =~= s@.subrange(from as int + 5, to as int));
        return match rest {
            Some(t) => Some(cons_char('&', t)),
            None => None,
        };
    }
    let lt = check_lit(s, from, "&lt;") && to - from >= 4;
    proof {
        assert("&lt;"@ =~= seq!['&', 'l', 't', ';']);
        lemma_entity_agree(s@, run, from as int, to as int, "&lt;"@, seq!['&', 'l', 't', ';'], lt);
    }
    if lt {
        let rest = unescape_range(s, from + 4, to);
        assert(run.skip(4) =~= s@.subrange(from as int + 4, to as int));
        return match rest {
            Some(t) => Some(cons_char('<', t)),
            None => None,
        };
    }
    let gt = check_lit(s, from, "&gt;") && to - from >= 4;
    proof {
        assert("&gt;"@ =~= seq!['&', 'g', 't', ';']);
        lemma_entity_agree(s@, run, from as int, to as int, "&gt;"@, seq!['&', 'g', 't', ';'], gt);
    }
    if gt {
        let rest = unescape_range(s, from + 4, to);
        assert(run.skip(4) =~= s@.subrange(from as int + 4, to as int));
        return match rest {
            Some(t) => Some(cons_char('>', t)),
            None => None,
        };
    }
    let quot = check_lit(s, from, "&quot;") && to - from >= 6;
    proof {
        assert("&quot;"@ =~= seq!['&', 'q', 'u', 'o', 't', ';']);
        lemma_entity_agree(s@, run, from as int, to as int, "&quot;"@, seq!['&', 'q', 'u', 'o', 't', ';'], quot);
    }
    if quot {
        let rest = unescape_range(s, from + 6, to);
        assert(run.skip(6) =~= s@.subrange(from as int + 6, to as int));
        return match rest {
            Some(t) => Some(cons_char('"', t)),
            None => None,
        };
    }
    let apos = check_lit(s, from, "&apos;") && to - from >= 6;
    proof {
        assert("&apos;"@ =~= seq!['&', 'a', 'p', 'o', 's', ';']);
        lemma_entity_agree(s@, run, from as int, to as int, "&apos;"@, seq!['&', 'a', 'p', 'o', 's', ';'], apos);
    }
    if apos {
        let rest = unescape_range(s, from + 6, to);
        assert(run.skip(6) =~= s@.subrange(from as int + 6, to as int));
        return match rest {
            Some(t) => Some(cons_char('\'', t)),
            None => None,
        };
    }
    None
}

/// The literal comparison against the full buffer agrees with the
/// prefix test on the bounded content run.
proof fn lemma_entity_agree(
    s: Seq<char>,
    run: Seq<char>,
    from: int,
    to: int,
    lit: Seq<char>,
    ent: Seq<char>,
    matched: bool,
)
    requires
        0 <= from <= to <= s.len(),
        run == s.subrange(from, to),
        lit == ent,
        matched == (crate::text::matches_at(s, from, lit) && to - from >= lit.len()),
    ensures
        matched == has_prefix(run, ent),
{
    if matched {
        assert(run.take(ent.len() as int) =~= s.subrange(from, from + lit.len() as int));
    } else {
        if has_prefix(run, ent) {
            assert(s.subrange(from, from + lit.len() as int) =~= run.take(ent.len() as int));
        }
    }
}

/// Prepends one character to a decoded buffer.
fn cons_char(c: char, t: Vec<char>) -> (r: Vec<char>)
    ensures
        r@ == seq![c] + t@,
{
    let mut v: Vec<char> = Vec::new();
    v.push(c);
    let mut t2 = t;
    let mut j: usize = 0;
    while j < t2.len()
        invariant
            j <= t2@.len(),
            v@ == seq![c] + t2@.take(j as int),
        decreases t2@.len() - j,
    {
        v.push(t2[j]);
        assert(v@ =~= seq![c] + t2@.take(j + 1));
        j += 1;
    }
    assert(t2@.take(t2@.len() as int) =~= t2@);
    v
}

} // verus!
