//! The laws this library states of itself, proved over the codec and
//! conversion specs.

use vstd::prelude::*;

use crate::convert::FromDXR;
use crate::convert::ToDXR;
use crate::encode::enc_typed;
use crate::values::ValV;

verus! {

/// Booleans travel as the literal texts `1` and `0`, never as the words
/// `true` and `false`.
pub proof fn lemma_boolean_encoding(b: bool)
    ensures
        enc_typed(ValV::Boolean(b)) == "<boolean>"@ + (if b {
            seq!['1']
        } else {
            seq!['0']
        }) + "</boolean>"@,
        enc_typed(ValV::Boolean(true)) != enc_typed(ValV::Boolean(false)),
{
    reveal_strlit("<boolean>");
    let t = enc_typed(ValV::Boolean(true));
    let f = enc_typed(ValV::Boolean(false));
    assert(t[9] == '1');
    assert(f[9] == '0');
}

/// `None` converts to the nil value and back to `None`; `Some` carries
/// its payload through unchanged.
pub proof fn lemma_option_round_trip(x: Option<i32>)
    ensures
        x is None ==> x.dxr_v() == ValV::Nil,
        <Option<i32> as FromDXR>::can_from(x.dxr_v()),
        <Option<i32> as FromDXR>::normal(x.dxr_v()) == x.dxr_v(),
{
}

/// Converting any of this crate's native types to a wire value and back
/// returns the value that was put in: `normal` is the identity on every
/// accepted mirrored value, for every conversion this crate defines.
pub proof fn lemma_conversion_round_trip(v: ValV)
    ensures
        <i32 as FromDXR>::can_from(v) ==> <i32 as FromDXR>::normal(v) == v,
        <i64 as FromDXR>::can_from(v) ==> <i64 as FromDXR>::normal(v) == v,
        <bool as FromDXR>::can_from(v) ==> <bool as FromDXR>::normal(v) == v,
        <String as FromDXR>::can_from(v) ==> <String as FromDXR>::normal(v) == v,
        <Option<i32> as FromDXR>::can_from(v) ==> <Option<i32> as FromDXR>::normal(v) == v,
{
}


/// A prefix comparison fails where one character differs.
proof fn lemma_not_prefix(t: Seq<char>, lit: Seq<char>, j: int)
    requires
        0 <= j < lit.len(),
        j < t.len(),
        t[j] != lit[j],
    ensures
        !crate::text::matches_at(t, 0, lit),
{
    if crate::text::matches_at(t, 0, lit) {
        assert(t.subrange(0, lit.len() as int)[j] == t[j]);
    }
}

/// The first `<` of a clean run followed by a tag is at the run's end.
proof fn lemma_lt_pos_concat(a: Seq<char>, b: Seq<char>)
    requires
        forall|i: int| 0 <= i < a.len() ==> a[i] != '<',
        b.len() > 0,
        b[0] == '<',
    ensures
        crate::decode::lt_pos(a + b) == a.len(),
    decreases a.len(),
{
    if a.len() == 0 {
        assert(a + b =~= b);
    } else {
        assert(a.skip(1) + b =~= (a + b).skip(1));
        assert(forall|i: int| 0 <= i < a.skip(1).len() ==> a.skip(1)[i] == a[i + 1]);
        lemma_lt_pos_concat(a.skip(1), b);
        assert((a + b)[0] == a[0]);
    }
}

/// A finite-decimal text holds only signs, digits and a dot: never `<`.
proof fn lemma_double_text_no_lt(t: Seq<char>)
    requires
        crate::values::is_double_text(t),
    ensures
        forall|i: int| 0 <= i < t.len() ==> t[i] != '<',
{
    let body = crate::values::double_body(t);
    let dot = choose|dot: int| #[trigger] crate::values::double_body_ok(body, dot);
    assert(crate::values::double_body_ok(body, dot));
    assert forall|i: int| 0 <= i < t.len() implies t[i] != '<' by {
        if t.len() > 0 && t[0] == '-' {
            if i > 0 {
                assert(t[i] == body[i - 1]);
                lemma_double_char(body, dot, i - 1);
            }
        } else {
            assert(t[i] == body[i]);
            lemma_double_char(body, dot, i);
        }
    }
}

/// One character of a valid double body is a digit or the dot.
proof fn lemma_double_char(body: Seq<char>, dot: int, j: int)
    requires
        crate::values::double_body_ok(body, dot),
        0 <= j < body.len(),
    ensures
        body[j] != '<',
{
    if dot == body.len() {
        assert(crate::values::is_digit_char(body[j]));
    } else if j < dot {
        assert(body.take(dot)[j] == body[j]);
        assert(crate::values::is_digit_char(body.take(dot)[j]));
    } else if j == dot {
    } else {
        assert(body.skip(dot + 1)[j - dot - 1] == body[j]);
        assert(crate::values::is_digit_char(body.skip(dot + 1)[j - dot - 1]));
    }
}

/// The typed payload of every leaf value parses back from its own
/// encoding, whatever follows it.
#[verifier::rlimit(100)]
#[verifier::spinoff_prover]
proof fn lemma_rt_typed_leaf(v: ValV, rest: Seq<char>)
    requires
        crate::values::val_wf(v),
        !(v is Struct),
        !(v is Array),
    ensures
        crate::decode::p_typed(enc_typed(v) + rest) == Some(
            (v, enc_typed(v).len() as nat),
        ),
    decreases v,
{
    reveal_strlit("<value>");
    reveal_strlit("</value>");
    reveal_strlit("<i4>");
    reveal_strlit("</i4>");
    reveal_strlit("<int>");
    reveal_strlit("</int>");
    reveal_strlit("<i8>");
    reveal_strlit("</i8>");
    reveal_strlit("<boolean>");
    reveal_strlit("</boolean>");
    reveal_strlit("<string>");
    reveal_strlit("</string>");
    reveal_strlit("<double>");
    reveal_strlit("</double>");
    reveal_strlit("<dateTime.iso8601>");
    reveal_strlit("</dateTime.iso8601>");
    reveal_strlit("<base64>");
    reveal_strlit("</base64>");
    reveal_strlit("<struct>");
    reveal_strlit("<array>");
    reveal_strlit("<nil/>");
    reveal_strlit("true");
    reveal_strlit("false");
    let e = enc_typed(v);
    let s = e + rest;
    assert(s[0] == e[0]);
    match v {
        ValV::Integer(i) => {
            assert(e[0] == '<' && e[1] == 'i');
            crate::text::lemma_ws_len_zero(s);
            assert(s.skip(0) =~= s);
            assert(crate::text::matches_at(s, 0, "<i4>"@)) by {
                assert(s.subrange(0, 4) =~= "<i4>"@);
            }
            let d = crate::num::dec_int(i as int);
            crate::num::lemma_dec_int(i as int);
            let b = s.skip(4);
            assert(b =~= d + ("</i4>"@ + rest));
            lemma_lt_pos_concat(d, "</i4>"@ + rest);
            assert(("</i4>"@ + rest)[0] == '<');
            let ln = d.len() as int;
            assert(b.take(ln) =~= d);
            assert(b.skip(ln) =~= "</i4>"@ + rest);
            assert(crate::text::matches_at(b.skip(ln), 0, "</i4>"@)) by {
                assert(b.skip(ln).subrange(0, 5) =~= "</i4>"@);
            }
        },
        ValV::Long(l) => {
            assert(e[0] == '<' && e[1] == 'i' && e[2] == '8');
            crate::text::lemma_ws_len_zero(s);
            assert(s.skip(0) =~= s);
            lemma_not_prefix(s, "<i4>"@, 2);
            lemma_not_prefix(s, "<int>"@, 2);
            assert(crate::text::matches_at(s, 0, "<i8>"@)) by {
                assert(s.subrange(0, 4) =~= "<i8>"@);
            }
            let d = crate::num::dec_int(l as int);
            crate::num::lemma_dec_int(l as int);
            let b = s.skip(4);
            assert(b =~= d + ("</i8>"@ + rest));
            lemma_lt_pos_concat(d, "</i8>"@ + rest);
            assert(("</i8>"@ + rest)[0] == '<');
            let ln = d.len() as int;
            assert(b.take(ln) =~= d);
            assert(b.skip(ln) =~= "</i8>"@ + rest);
            assert(crate::text::matches_at(b.skip(ln), 0, "</i8>"@)) by {
                assert(b.skip(ln).subrange(0, 5) =~= "</i8>"@);
            }
        },
        ValV::Boolean(bv) => {
            assert(e[0] == '<' && e[1] == 'b' && e[2] == 'o');
            crate::text::lemma_ws_len_zero(s);
            assert(s.skip(0) =~= s);
            lemma_not_prefix(s, "<i4>"@, 1);
            lemma_not_prefix(s, "<int>"@, 1);
            lemma_not_prefix(s, "<i8>"@, 1);
            assert(crate::text::matches_at(s, 0, "<boolean>"@)) by {
                assert(s.subrange(0, 9) =~= "<boolean>"@);
            }
            let d = if bv { seq!['1'] } else { seq!['0'] };
            let b = s.skip(9);
            assert(b =~= d + ("</boolean>"@ + rest));
            lemma_lt_pos_concat(d, "</boolean>"@ + rest);
            assert(("</boolean>"@ + rest)[0] == '<');
            let ln = d.len() as int;
            assert(b.take(ln) =~= d);
            assert(b.skip(ln) =~= "</boolean>"@ + rest);
            assert(crate::text::matches_at(b.skip(ln), 0, "</boolean>"@)) by {
                assert(b.skip(ln).subrange(0, 10) =~= "</boolean>"@);
            }
            if bv {
                assert(b.take(ln) == seq!['1']);
            } else {
                assert(b.take(ln) == seq!['0']);
                assert(b.take(ln) != seq!['1']) by {
                    assert(d[0] == '0');
                }
                assert(b.take(ln) != "true"@);
            }
        },
        ValV::String(txt) => {
            assert(e[0] == '<' && e[1] == 's');
            crate::text::lemma_ws_len_zero(s);
            assert(s.skip(0) =~= s);
            lemma_not_prefix(s, "<i4>"@, 1);
            lemma_not_prefix(s, "<int>"@, 1);
            lemma_not_prefix(s, "<i8>"@, 1);
            lemma_not_prefix(s, "<boolean>"@, 1);
            assert(crate::text::matches_at(s, 0, "<string>"@)) by {
                assert(s.subrange(0, 8) =~= "<string>"@);
            }
            let d = crate::escape::escape(txt);
            crate::escape::lemma_escape_no_meta(txt);
            crate::escape::lemma_unescape_escape(txt);
            let b = s.skip(8);
            assert(b =~= d + ("</string>"@ + rest));
            lemma_lt_pos_concat(d, "</string>"@ + rest);
            assert(("</string>"@ + rest)[0] == '<');
            let ln = d.len() as int;
            assert(b.take(ln) =~= d);
            assert(b.skip(ln) =~= "</string>"@ + rest);
            assert(crate::text::matches_at(b.skip(ln), 0, "</string>"@)) by {
                assert(b.skip(ln).subrange(0, 9) =~= "</string>"@);
            }
        },
        ValV::Double(txt) => {
            assert(e[0] == '<' && e[1] == 'd' && e[2] == 'o');
            crate::text::lemma_ws_len_zero(s);
            assert(s.skip(0) =~= s);
            lemma_not_prefix(s, "<i4>"@, 1);
            lemma_not_prefix(s, "<int>"@, 1);
            lemma_not_prefix(s, "<i8>"@, 1);
            lemma_not_prefix(s, "<boolean>"@, 1);
            lemma_not_prefix(s, "<string>"@, 1);
            assert(crate::text::matches_at(s, 0, "<double>"@)) by {
                assert(s.subrange(0, 8) =~= "<double>"@);
            }
            lemma_double_text_no_lt(txt);
            let b = s.skip(8);
            assert(b =~= txt + ("</double>"@ + rest));
            lemma_lt_pos_concat(txt, "</double>"@ + rest);
            assert(("</double>"@ + rest)[0] == '<');
            let ln = txt.len() as int;
            assert(b.take(ln) =~= txt);
            assert(b.skip(ln) =~= "</double>"@ + rest);
            assert(crate::text::matches_at(b.skip(ln), 0, "</double>"@)) by {
                assert(b.skip(ln).subrange(0, 9) =~= "</double>"@);
            }
        },
        ValV::DateTime(dt) => {
            assert(e[0] == '<' && e[1] == 'd' && e[2] == 'a');
            crate::text::lemma_ws_len_zero(s);
            assert(s.skip(0) =~= s);
            lemma_not_prefix(s, "<i4>"@, 1);
            lemma_not_prefix(s, "<int>"@, 1);
            lemma_not_prefix(s, "<i8>"@, 1);
            lemma_not_prefix(s, "<boolean>"@, 1);
            lemma_not_prefix(s, "<string>"@, 1);
            lemma_not_prefix(s, "<double>"@, 2);
            assert(crate::text::matches_at(s, 0, "<dateTime.iso8601>"@)) by {
                assert(s.subrange(0, 18) =~= "<dateTime.iso8601>"@);
            }
            let d = crate::dt::date_text(dt);
            crate::dt::lemma_parse_date_text(dt);
            let b = s.skip(18);
            assert(b =~= d + ("</dateTime.iso8601>"@ + rest));
            lemma_lt_pos_concat(d, "</dateTime.iso8601>"@ + rest);
            assert(("</dateTime.iso8601>"@ + rest)[0] == '<');
            let ln = d.len() as int;
            assert(b.take(ln) =~= d);
            assert(b.skip(ln) =~= "</dateTime.iso8601>"@ + rest);
            assert(crate::text::matches_at(b.skip(ln), 0, "</dateTime.iso8601>"@)) by {
                assert(b.skip(ln).subrange(0, 19) =~= "</dateTime.iso8601>"@);
            }
        },
        ValV::Base64(bytes) => {
            assert(e[0] == '<' && e[1] == 'b' && e[2] == 'a');
            crate::text::lemma_ws_len_zero(s);
            assert(s.skip(0) =~= s);
            lemma_not_prefix(s, "<i4>"@, 1);
            lemma_not_prefix(s, "<int>"@, 1);
            lemma_not_prefix(s, "<i8>"@, 1);
            lemma_not_prefix(s, "<boolean>"@, 2);
            lemma_not_prefix(s, "<string>"@, 1);
            lemma_not_prefix(s, "<double>"@, 1);
            lemma_not_prefix(s, "<dateTime.iso8601>"@, 1);
            assert(crate::text::matches_at(s, 0, "<base64>"@)) by {
                assert(s.subrange(0, 8) =~= "<base64>"@);
            }
            let d = crate::b64::b64_of(bytes);
            crate::b64::lemma_b64_of_clean(bytes);
            crate::b64::lemma_b64_parse_of(bytes);
            let b = s.skip(8);
            assert(b =~= d + ("</base64>"@ + rest));
            lemma_lt_pos_concat(d, "</base64>"@ + rest);
            assert(("</base64>"@ + rest)[0] == '<');
            let ln = d.len() as int;
            assert(b.take(ln) =~= d);
            crate::decode::lemma_strip_ws_clean(d);
            assert(b.skip(ln) =~= "</base64>"@ + rest);
            assert(crate::text::matches_at(b.skip(ln), 0, "</base64>"@)) by {
                assert(b.skip(ln).subrange(0, 9) =~= "</base64>"@);
            }
        },
        ValV::Nil => {
            assert(e[0] == '<' && e[1] == 'n');
            crate::text::lemma_ws_len_zero(s);
            assert(s.skip(0) =~= s);
            lemma_not_prefix(s, "<i4>"@, 1);
            lemma_not_prefix(s, "<int>"@, 1);
            lemma_not_prefix(s, "<i8>"@, 1);
            lemma_not_prefix(s, "<boolean>"@, 1);
            lemma_not_prefix(s, "<string>"@, 1);
            lemma_not_prefix(s, "<double>"@, 1);
            lemma_not_prefix(s, "<dateTime.iso8601>"@, 1);
            lemma_not_prefix(s, "<base64>"@, 1);
            lemma_not_prefix(s, "<struct>"@, 1);
            lemma_not_prefix(s, "<array>"@, 1);
            assert(crate::text::matches_at(s, 0, "<nil/>"@)) by {
                assert(s.subrange(0, 6) =~= "<nil/>"@);
            }
        },
        _ => {},
    }
}

/// Round trip: decoding the encoding of any well-formed leaf value —
/// every variant but struct and array — gives that value back, as one
/// whole document.
#[verifier::rlimit(100)]
#[verifier::spinoff_prover]
pub proof fn lemma_leaf_round_trip(v: ValV)
    requires
        crate::values::val_wf(v),
        !(v is Struct),
        !(v is Array),
    ensures
        crate::rpc::decode_value_spec(crate::encode::enc_value(v)) == Some(v),
{
    reveal_strlit("<value>");
    reveal_strlit("</value>");
    reveal_strlit("<i4>");
    reveal_strlit("</i4>");
    reveal_strlit("<int>");
    reveal_strlit("</int>");
    reveal_strlit("<i8>");
    reveal_strlit("</i8>");
    reveal_strlit("<boolean>");
    reveal_strlit("</boolean>");
    reveal_strlit("<string>");
    reveal_strlit("</string>");
    reveal_strlit("<double>");
    reveal_strlit("</double>");
    reveal_strlit("<dateTime.iso8601>");
    reveal_strlit("</dateTime.iso8601>");
    reveal_strlit("<base64>");
    reveal_strlit("</base64>");
    reveal_strlit("<struct>");
    reveal_strlit("<array>");
    reveal_strlit("<nil/>");
    reveal_strlit("true");
    reveal_strlit("false");
    reveal_strlit("<?");
    lemma_rt_typed_leaf(v, "</value>"@);
    let t = enc_typed(v);
    let e = crate::encode::enc_value(v);
    assert(e =~= "<value>"@ + (t + "</value>"@));
    assert(e[0] == '<' && e[1] == 'v');
    crate::text::lemma_ws_len_zero(e);
    lemma_not_prefix(e, "<?"@, 1);
    assert(crate::rpc::decl_skip(e) == Some(0nat)) by {
        assert(e.skip(0) =~= e);
    }
    assert(e.skip(0) =~= e);
    assert(crate::text::matches_at(e, 0, "<value>"@)) by {
        assert(e.subrange(0, 7) =~= "<value>"@);
    }
    assert(e.skip(7) =~= t + "</value>"@);
    assert(crate::decode::p_typed(e.skip(7)) == Some((v, t.len() as nat)));
    let u = e.skip(7).skip(t.len() as int);
    assert(u =~= "</value>"@);
    assert(u[0] == '<');
    crate::text::lemma_ws_len_zero(u);
    assert(u.skip(0) =~= u);
    assert(crate::text::matches_at(u, 0, "</value>"@)) by {
        assert(u.subrange(0, 8) =~= "</value>"@);
    }
    assert(crate::decode::p_value(e) == Some((v, e.len() as nat)));
    let tail = e.skip(0).skip(e.len() as int);
    assert(tail =~= Seq::<char>::empty());
    crate::text::lemma_ws_len_zero(tail);
}

} // verus!
