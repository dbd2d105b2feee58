//! The call and response envelopes: `methodCall` and `methodResponse`
//! documents, their grammar, and the typed client-side interpretation
//! of a response.

use vstd::prelude::*;

use crate::convert::FromDXR;
use crate::convert::ToDXR;
use crate::convert::ToParams;
use crate::decode::gt_pos;
use crate::decode::lemma_gt_pos;
use crate::decode::lt_pos;
use crate::decode::find_lt;
use crate::decode::find_gt;
use crate::decode::p_value;
use crate::decode::parse_value_at;
use crate::error::DxrError;
use crate::error::Error;
use crate::error::Fault;
use crate::escape::unescape;
use crate::text::check_lit;
use crate::text::matches_at;
use crate::text::skip_ws;
use crate::text::str_to_chars;
use crate::text::chars_to_string;
use crate::text::ws_len;
use crate::text::lemma_ws_len_bound;
use crate::values::ValV;
use crate::values::Value;
use crate::values::val_wf;
use crate::values::vals_v;
use crate::values::lemma_vals_v;

verus! {

/// A method call in the making: a method name and a typed payload that
/// flattens to positional parameters.
pub struct Call<P: ToParams> {
    /// The remote method name.
    pub method: String,
    /// The payload; one positional parameter per entry of its
    /// flattening.
    pub params: P,
}

impl<P: ToParams> Call<P> {
    /// Builds a call from a method name and a payload.
    pub fn new(method: String, params: P) -> (r: Call<P>)
        ensures
            r.method@ == method@,
            r.params == params,
    {
        Call { method, params }
    }

    /// Serializes this call as a `methodCall` document. The payload
    /// must flatten to well-formed values: every double and timestamp
    /// of this crate is well-formed by construction.
    pub fn as_xml(&self) -> (r: Result<String, DxrError>)
        requires
            forall|i: int|
                0 <= i < self.params.params_v().len() ==> val_wf(
                    #[trigger] self.params.params_v()[i],
                ),
        ensures
            r matches Ok(t) && t@ == crate::encode::enc_request(
                self.method@,
                self.params.params_v(),
            ),
    {
        let ps = match self.params.to_params() {
            Ok(ps) => ps,
            Err(e) => {
                return Err(e);
            },
        };
        proof {
            lemma_vals_v(ps@);
            assert forall|k: int| 0 <= k < ps@.len() implies val_wf(#[trigger] ps@[k]@) by {
                assert(vals_v(ps@)[k] == self.params.params_v()[k]);
                assert(val_wf(self.params.params_v()[k]));
            }
        }
        let r = crate::encode::request_to_xml(self.method.as_str(), &ps);
        Ok(r)
    }
}

/// What a `methodResponse` document carries: a value or a fault,
/// mutually exclusive by construction.
#[derive(Debug, PartialEq)]
pub enum MethodResponse {
    /// The call succeeded with this value.
    Success(Value),
    /// The remote side reported this fault.
    Fault(Fault),
}

/// Ghost mirror of a parsed response: the payload value, still marked
/// as success or fault.
pub ghost enum RespV {
    Success(ValV),
    Fault(ValV),
}

/// Characters consumed by leading whitespace and an optional XML
/// declaration; `None` when a declaration never closes.
pub open spec fn decl_skip(s: Seq<char>) -> Option<nat> {
    let w = ws_len(s) as int;
    let u = s.skip(w);
    if matches_at(u, 0, "<?"@) {
        let g = gt_pos(u) as int;
        if g < u.len() {
            Some((w + g + 1) as nat)
        } else {
            None
        }
    } else {
        Some(w as nat)
    }
}

/// Parses a whole document holding one value and nothing else.
pub open spec fn decode_value_spec(s: Seq<char>) -> Option<ValV> {
    match decl_skip(s) {
        Some(k) => match p_value(s.skip(k as int)) {
            Some((v, n)) => {
                let tail = s.skip(k as int).skip(n as int);
                if ws_len(tail) == tail.len() {
                    Some(v)
                } else {
                    None
                }
            },
            None => None,
        },
        None => None,
    }
}

/// Parses the parameter list of a `methodCall`, up to and including the
/// closing `</params>`.
pub open spec fn p_params(s: Seq<char>) -> Option<(Seq<ValV>, nat)>
    decreases s.len(),
    via p_params_decreases
{
    let w = ws_len(s) as int;
    let t = s.skip(w);
    if matches_at(t, 0, "</params>"@) {
        Some((Seq::empty(), (w + 9) as nat))
    } else if matches_at(t, 0, "<param>"@) {
        match p_value(t.skip(7)) {
            Some((v, n)) => {
                let u = t.skip(7).skip(n as int);
                let w2 = ws_len(u) as int;
                if matches_at(u.skip(w2), 0, "</param>"@) {
                    let k = (w + 7 + n + w2 + 8) as nat;
                    if k > s.len() {
                        None
                    } else {
                        match p_params(s.skip(k as int)) {
                            Some((ps, n2)) => Some((seq![v] + ps, (k + n2) as nat)),
                            None => None,
                        }
                    }
                } else {
                    None
                }
            },
            None => None,
        }
    } else {
        None
    }
}

#[via_fn]
proof fn p_params_decreases(s: Seq<char>) {
    reveal_strlit("</params>");
    reveal_strlit("<param>");
    lemma_ws_len_bound(s);
}

/// Parses a whole `methodCall` document into its method name and its
/// flat parameter list.
pub open spec fn p_request(s: Seq<char>) -> Option<(Seq<char>, Seq<ValV>)> {
    match decl_skip(s) {
        Some(k) => {
            let u = s.skip(k as int);
            let w1 = ws_len(u) as int;
            let m = u.skip(w1);
            if matches_at(m, 0, "<methodCall>"@) {
                let v = m.skip(12);
                let w2 = ws_len(v) as int;
                let n = v.skip(w2);
                if matches_at(n, 0, "<methodName>"@) {
                    let nb = n.skip(12);
                    let ln = lt_pos(nb) as int;
                    match unescape(nb.take(ln)) {
                        Some(name) => if matches_at(nb.skip(ln), 0, "</methodName>"@) {
                            let rest = nb.skip(ln).skip(13);
                            let w3 = ws_len(rest) as int;
                            let pr = rest.skip(w3);
                            if matches_at(pr, 0, "<params>"@) {
                                match p_params(pr.skip(8)) {
                                    Some((ps, n2)) => {
                                        let after = pr.skip(8).skip(n2 as int);
                                        let w4 = ws_len(after) as int;
                                        if matches_at(after.skip(w4), 0, "</methodCall>"@) {
                                            let tail = after.skip(w4).skip(13);
                                            if ws_len(tail) == tail.len() {
                                                Some((name, ps))
                                            } else {
                                                None
                                            }
                                        } else {
                                            None
                                        }
                                    },
                                    None => None,
                                }
                            } else {
                                None
                            }
                        } else {
                            None
                        },
                        None => None,
                    }
                } else {
                    None
                }
            } else {
                None
            }
        },
        None => None,
    }
}

/// Parses a whole `methodResponse` document: either one value under
/// `<params>` or one fault value under `<fault>`.
pub open spec fn p_response(s: Seq<char>) -> Option<RespV> {
    match decl_skip(s) {
        Some(k) => {
            let u = s.skip(k as int);
            let w1 = ws_len(u) as int;
            let m = u.skip(w1);
            if matches_at(m, 0, "<methodResponse>"@) {
                let b = m.skip(16);
                let w2 = ws_len(b) as int;
                let c = b.skip(w2);
                if matches_at(c, 0, "<fault>"@) {
                    match p_value(c.skip(7)) {
                        Some((v, n)) => {
                            let after = c.skip(7).skip(n as int);
                            let w3 = ws_len(after) as int;
                            if matches_at(after.skip(w3), 0, "</fault>"@) {
                                let e = after.skip(w3).skip(8);
                                let w4 = ws_len(e) as int;
                                if matches_at(e.skip(w4), 0, "</methodResponse>"@) {
                                    let tail = e.skip(w4).skip(17);
                                    if ws_len(tail) == tail.len() {
                                        Some(RespV::Fault(v))
                                    } else {
                                        None
                                    }
                                } else {
                                    None
                                }
                            } else {
                                None
                            }
                        },
                        None => None,
                    }
                } else if matches_at(c, 0, "<params>"@) {
                    let d = c.skip(8);
                    let w3 = ws_len(d) as int;
                    let e = d.skip(w3);
                    if matches_at(e, 0, "<param>"@) {
                        match p_value(e.skip(7)) {
                            Some((v, n)) => {
                                let after = e.skip(7).skip(n as int);
                                let w4 = ws_len(after) as int;
                                if matches_at(after.skip(w4), 0, "</param>"@) {
                                    let f = after.skip(w4).skip(8);
                                    let w5 = ws_len(f) as int;
                                    if matches_at(f.skip(w5), 0, "</params>"@) {
                                        let g = f.skip(w5).skip(9);
                                        let w6 = ws_len(g) as int;
                                        if matches_at(g.skip(w6), 0, "</methodResponse>"@) {
                                            let tail = g.skip(w6).skip(17);
                                            if ws_len(tail) == tail.len() {
                                                Some(RespV::Success(v))
                                            } else {
                                                None
                                            }
                                        } else {
                                            None
                                        }
                                    } else {
                                        None
                                    }
                                } else {
                                    None
                                }
                            },
                            None => None,
                        }
                    } else {
                        None
                    }
                } else {
                    None
                }
            } else {
                None
            }
        },
        None => None,
    }
}

/// The fault a fault value carries: a two-member struct of `faultCode`
/// and `faultString`, as this crate emits it.
pub open spec fn fault_of(v: ValV) -> Option<(i32, Seq<char>)> {
    match v {
        ValV::Struct(ms) => if ms.len() == 2 && ms[0].name == "faultCode"@ && ms[0].value
            is Integer && ms[1].name == "faultString"@ && ms[1].value is String {
            Some((ms[0].value->Integer_0, ms[1].value->String_0))
        } else {
            None
        },
        _ => None,
    }
}

/// Consumes leading whitespace and an optional XML declaration,
/// executable counterpart of [`decl_skip`].
fn skip_decl(s: &Vec<char>) -> (r: Option<usize>)
    ensures
        match r {
            Some(k) => k <= s@.len() && decl_skip(s@) == Some(k as nat),
            None => decl_skip(s@) is None,
        },
{
    proof {
        reveal_strlit("<?");
    }
    let w = skip_ws(s, 0);
    proof {
        assert(s@.skip(0) =~= s@);
        crate::decode::lemma_matches_shift(s@, w as int, "<?"@);
    }
    if check_lit(s, w, "<?") {
        let g = find_gt(s, w);
        proof {
            crate::decode::lemma_skip_skip(s@, 0, w as int);
            lemma_gt_pos(s@.skip(w as int));
        }
        if g < s.len() {
            Some(g + 1)
        } else {
            None
        }
    } else {
        Some(w)
    }
}

/// Decodes a document holding exactly one value.
pub fn decode_value(text: &str) -> (r: Result<Value, DxrError>)
    ensures
        match decode_value_spec(text@) {
            Some(v) => r matches Ok(val) && val@ == v,
            None => r is Err,
        },
{
    let s = str_to_chars(text);
    let k = match skip_decl(&s) {
        Some(k) => k,
        None => {
            return Err(invalid("unterminated declaration"));
        },
    };
    match parse_value_at(&s, k) {
        Some((val, np)) => {
            proof {
                crate::decode::lemma_skip_skip(s@, k as int, np - k);
            }
            let e = skip_ws(&s, np);
            if e == s.len() {
                Ok(val)
            } else {
                Err(invalid("text after the value"))
            }
        },
        None => Err(invalid("malformed value")),
    }
}

/// A codec error with a short description.
fn invalid(msg: &str) -> (r: DxrError)
    ensures
        r is InvalidData,
{
    DxrError::InvalidData { error: String::from_str(msg) }
}

/// Parses the parameter list at `pos`, executable counterpart of
/// [`p_params`].
#[verifier::rlimit(100)]
#[verifier::spinoff_prover]
fn parse_params_at(s: &Vec<char>, pos: usize) -> (r: Option<(Vec<Value>, usize)>)
    requires
        pos <= s@.len(),
    ensures
        match r {
            Some((ps, np)) => pos <= np <= s@.len() && p_params(s@.skip(pos as int)) == Some(
                (vals_v(ps@), (np - pos) as nat),
            ),
            None => p_params(s@.skip(pos as int)) is None,
        },
    decreases s@.len() - pos,
{
    proof {
        reveal_strlit("</params>");
        reveal_strlit("<param>");
        reveal_strlit("</param>");
        assert(s@.len() == s.len());
    }
    let wp = skip_ws(s, pos);
    proof {
        crate::decode::lemma_skip_skip(s@, pos as int, wp - pos);
        crate::decode::lemma_matches_shift(s@, wp as int, "</params>"@);
        crate::decode::lemma_matches_shift(s@, wp as int, "<param>"@);
    }
    if check_lit(s, wp, "</params>") {
        let empty: Vec<Value> = Vec::new();
        proof {
            assert(vals_v(empty@) =~= Seq::<ValV>::empty());
        }
        return Some((empty, wp + 9));
    }
    if !check_lit(s, wp, "<param>") {
        return None;
    }
    proof {
        crate::decode::lemma_skip_skip(s@, wp as int, 7);
    }
    match parse_value_at(s, wp + 7) {
        Some((val, np)) => {
            proof {
                crate::decode::lemma_skip_skip(s@, wp + 7, np - (wp + 7));
            }
            let w2 = skip_ws(s, np);
            proof {
                crate::decode::lemma_skip_skip(s@, np as int, w2 - np);
                crate::decode::lemma_matches_shift(s@, w2 as int, "</param>"@);
            }
            if !check_lit(s, w2, "</param>") {
                return None;
            }
            let k = w2 + 8;
            proof {
                crate::decode::lemma_skip_skip(s@, pos as int, k - pos);
            }
            match parse_params_at(s, k) {
                Some((rest, np2)) => {
                    let ghost vv = val@;
                    let ghost restv = rest@;
                    let out = crate::decode::cons_value(val, rest);
                    proof {
                        lemma_vals_v(out@);
                        lemma_vals_v(restv);
                        assert(vals_v(out@) =~= seq![vv] + vals_v(restv));
                    }
                    Some((out, np2))
                },
                None => None,
            }
        },
        None => None,
    }
}

/// Parses a whole `methodCall` document into its method name and flat
/// parameter list; the server side of the codec.
#[verifier::rlimit(100)]
#[verifier::spinoff_prover]
pub fn parse_request(text: &str) -> (r: Result<(String, Vec<Value>), DxrError>)
    ensures
        match p_request(text@) {
            Some((name, ps)) => r matches Ok((m, vs)) && m@ == name && vals_v(vs@) == ps,
            None => r is Err,
        },
        r matches Err(e) ==> e is InvalidData,
{
    proof {
        reveal_strlit("<methodCall>");
        reveal_strlit("<methodName>");
        reveal_strlit("</methodName>");
        reveal_strlit("<params>");
        reveal_strlit("</methodCall>");
    }
    let s = str_to_chars(text);
    proof {
        assert(s@.len() == s.len());
    }
    let k = match skip_decl(&s) {
        Some(k) => k,
        None => {
            return Err(invalid("unterminated declaration"));
        },
    };
    let w1 = skip_ws(&s, k);
    proof {
        crate::decode::lemma_skip_skip(s@, k as int, w1 - k);
        crate::decode::lemma_matches_shift(s@, w1 as int, "<methodCall>"@);
    }
    if !check_lit(&s, w1, "<methodCall>") {
        return Err(invalid("not a methodCall document"));
    }
    let w2 = skip_ws(&s, w1 + 12);
    proof {
        crate::decode::lemma_skip_skip(s@, w1 as int, 12);
        crate::decode::lemma_skip_skip(s@, w1 + 12, w2 - (w1 + 12));
        crate::decode::lemma_matches_shift(s@, w2 as int, "<methodName>"@);
    }
    if !check_lit(&s, w2, "<methodName>") {
        return Err(invalid("missing methodName"));
    }
    let nbs = w2 + 12;
    proof {
        crate::decode::lemma_skip_skip(s@, w2 as int, 12);
    }
    let lp = find_lt(&s, nbs);
    proof {
        crate::decode::lemma_skip_take(s@, nbs as int, lp - nbs);
        crate::decode::lemma_skip_skip(s@, nbs as int, lp - nbs);
        crate::decode::lemma_matches_shift(s@, lp as int, "</methodName>"@);
    }
    let name = match crate::escape::unescape_range(&s, nbs, lp) {
        Some(t) => t,
        None => {
            return Err(invalid("malformed methodName"));
        },
    };
    if !check_lit(&s, lp, "</methodName>") {
        return Err(invalid("missing methodName close tag"));
    }
    let w3 = skip_ws(&s, lp + 13);
    proof {
        crate::decode::lemma_skip_skip(s@, lp as int, 13);
        crate::decode::lemma_skip_skip(s@, lp + 13, w3 - (lp + 13));
        crate::decode::lemma_matches_shift(s@, w3 as int, "<params>"@);
    }
    if !check_lit(&s, w3, "<params>") {
        return Err(invalid("missing params"));
    }
    proof {
        crate::decode::lemma_skip_skip(s@, w3 as int, 8);
    }
    match parse_params_at(&s, w3 + 8) {
        Some((ps, np)) => {
            proof {
                crate::decode::lemma_skip_skip(s@, w3 + 8, np - (w3 + 8));
            }
            let w4 = skip_ws(&s, np);
            proof {
                crate::decode::lemma_skip_skip(s@, np as int, w4 - np);
                crate::decode::lemma_matches_shift(s@, w4 as int, "</methodCall>"@);
            }
            if !check_lit(&s, w4, "</methodCall>") {
                return Err(invalid("missing methodCall close tag"));
            }
            proof {
                crate::decode::lemma_skip_skip(s@, w4 as int, 13);
            }
            let e = skip_ws(&s, w4 + 13);
            if e != s.len() {
                return Err(invalid("text after the document"));
            }
            Ok((chars_to_string(&name), ps))
        },
        None => Err(invalid("malformed params")),
    }
}

/// Parses a whole `methodResponse` document; the client side of the
/// codec. A fault value that lacks the `faultCode`/`faultString` shape
/// is a codec error.
/// The fault arm of a response document, after `<fault>` was matched
/// at `cpos`.
#[verifier::rlimit(100)]
#[verifier::spinoff_prover]
fn parse_fault_arm(s: &Vec<char>, cpos: usize) -> (r: Result<MethodResponse, DxrError>)
    requires
        cpos + 7 <= s@.len(),
    ensures
        ({
            let c = s@.skip(cpos as int);
            match p_value(c.skip(7)) {
                Some((v, n)) => {
                    let after = c.skip(7).skip(n as int);
                    let w3 = ws_len(after) as int;
                    if matches_at(after.skip(w3), 0, "</fault>"@) {
                        let e = after.skip(w3).skip(8);
                        let w4 = ws_len(e) as int;
                        if matches_at(e.skip(w4), 0, "</methodResponse>"@) {
                            let tail = e.skip(w4).skip(17);
                            if ws_len(tail) == tail.len() {
                                match fault_of(v) {
                                    Some((code, msg)) => r matches Ok(mr) && mr matches
                                        MethodResponse::Fault(f) && f.code == code && f.message@
                                        == msg,
                                    None => r is Err,
                                }
                            } else {
                                r is Err
                            }
                        } else {
                            r is Err
                        }
                    } else {
                        r is Err
                    }
                },
                None => r is Err,
            }
        }),
        r matches Err(e) ==> e is InvalidData,
{
    proof {
        reveal_strlit("</fault>");
        reveal_strlit("</methodResponse>");
        assert(s@.len() == s.len());
    }
    let ghost c = s@.skip(cpos as int);
    proof {
        crate::decode::lemma_skip_skip(s@, cpos as int, 7);
    }
    match parse_value_at(s, cpos + 7) {
        Some((val, np)) => {
            proof {
                crate::decode::lemma_skip_skip(s@, cpos + 7, np - (cpos + 7));
            }
            let w3 = skip_ws(s, np);
            proof {
                crate::decode::lemma_skip_skip(s@, np as int, w3 - np);
                crate::decode::lemma_matches_shift(s@, w3 as int, "</fault>"@);
            }
            if !check_lit(s, w3, "</fault>") {
                return Err(invalid("missing fault close tag"));
            }
            let w4 = skip_ws(s, w3 + 8);
            proof {
                crate::decode::lemma_skip_skip(s@, w3 as int, 8);
                crate::decode::lemma_skip_skip(s@, w3 + 8, w4 - (w3 + 8));
                crate::decode::lemma_matches_shift(s@, w4 as int, "</methodResponse>"@);
            }
            if !check_lit(s, w4, "</methodResponse>") {
                return Err(invalid("missing methodResponse close tag"));
            }
            proof {
                crate::decode::lemma_skip_skip(s@, w4 as int, 17);
            }
            let e = skip_ws(s, w4 + 17);
            if e != s.len() {
                return Err(invalid("text after the document"));
            }
            match fault_from_value(&val) {
                Some(f) => Ok(MethodResponse::Fault(f)),
                None => Err(invalid("malformed fault value")),
            }
        },
        None => Err(invalid("malformed fault")),
    }
}

/// The success arm of a response document, after `<params>` was matched
/// at `cpos`.
#[verifier::rlimit(100)]
#[verifier::spinoff_prover]
fn parse_success_arm(s: &Vec<char>, cpos: usize) -> (r: Result<MethodResponse, DxrError>)
    requires
        cpos + 8 <= s@.len(),
    ensures
        ({
            let c = s@.skip(cpos as int);
            let d = c.skip(8);
            let w3 = ws_len(d) as int;
            let e = d.skip(w3);
            if matches_at(e, 0, "<param>"@) {
                match p_value(e.skip(7)) {
                    Some((v, n)) => {
                        let after = e.skip(7).skip(n as int);
                        let w4 = ws_len(after) as int;
                        if matches_at(after.skip(w4), 0, "</param>"@) {
                            let f = after.skip(w4).skip(8);
                            let w5 = ws_len(f) as int;
                            if matches_at(f.skip(w5), 0, "</params>"@) {
                                let g = f.skip(w5).skip(9);
                                let w6 = ws_len(g) as int;
                                if matches_at(g.skip(w6), 0, "</methodResponse>"@) {
                                    let tail = g.skip(w6).skip(17);
                                    if ws_len(tail) == tail.len() {
                                        r matches Ok(mr) && mr matches MethodResponse::Success(
                                            val,
                                        ) && val@ == v
                                    } else {
                                        r is Err
                                    }
                                } else {
                                    r is Err
                                }
                            } else {
                                r is Err
                            }
                        } else {
                            r is Err
                        }
                    },
                    None => r is Err,
                }
            } else {
                r is Err
            }
        }),
        r matches Err(e) ==> e is InvalidData,
{
    proof {
        reveal_strlit("<param>");
        reveal_strlit("</param>");
        reveal_strlit("</params>");
        reveal_strlit("</methodResponse>");
        assert(s@.len() == s.len());
    }
    let w3 = skip_ws(s, cpos + 8);
    proof {
        crate::decode::lemma_skip_skip(s@, cpos as int, 8);
        crate::decode::lemma_skip_skip(s@, cpos + 8, w3 - (cpos + 8));
        crate::decode::lemma_matches_shift(s@, w3 as int, "<param>"@);
    }
    if !check_lit(s, w3, "<param>") {
        return Err(invalid("missing param"));
    }
    proof {
        crate::decode::lemma_skip_skip(s@, w3 as int, 7);
    }
    match parse_value_at(s, w3 + 7) {
        Some((val, np)) => {
            proof {
                crate::decode::lemma_skip_skip(s@, w3 + 7, np - (w3 + 7));
            }
            let w4 = skip_ws(s, np);
            proof {
                crate::decode::lemma_skip_skip(s@, np as int, w4 - np);
                crate::decode::lemma_matches_shift(s@, w4 as int, "</param>"@);
            }
            if !check_lit(s, w4, "</param>") {
                return Err(invalid("missing param close tag"));
            }
            let w5 = skip_ws(s, w4 + 8);
            proof {
                crate::decode::lemma_skip_skip(s@, w4 as int, 8);
                crate::decode::lemma_skip_skip(s@, w4 + 8, w5 - (w4 + 8));
                crate::decode::lemma_matches_shift(s@, w5 as int, "</params>"@);
            }
            if !check_lit(s, w5, "</params>") {
                return Err(invalid("missing params close tag"));
            }
            let w6 = skip_ws(s, w5 + 9);
            proof {
                crate::decode::lemma_skip_skip(s@, w5 as int, 9);
                crate::decode::lemma_skip_skip(s@, w5 + 9, w6 - (w5 + 9));
                crate::decode::lemma_matches_shift(s@, w6 as int, "</methodResponse>"@);
            }
            if !check_lit(s, w6, "</methodResponse>") {
                return Err(invalid("missing methodResponse close tag"));
            }
            proof {
                crate::decode::lemma_skip_skip(s@, w6 as int, 17);
            }
            let e = skip_ws(s, w6 + 17);
            if e != s.len() {
                return Err(invalid("text after the document"));
            }
            Ok(MethodResponse::Success(val))
        },
        None => Err(invalid("malformed response value")),
    }
}

/// Parses a whole `methodResponse` document; the client side of the
/// codec. A fault value that lacks the `faultCode`/`faultString` shape
/// is a codec error.
#[verifier::rlimit(100)]
#[verifier::spinoff_prover]
pub fn parse_response(text: &str) -> (r: Result<MethodResponse, DxrError>)
    ensures
        match p_response(text@) {
            Some(RespV::Success(v)) => r matches Ok(mr) && mr matches MethodResponse::Success(val)
                && val@ == v,
            Some(RespV::Fault(fv)) => match fault_of(fv) {
                Some((c, msg)) => r matches Ok(mr) && mr matches MethodResponse::Fault(f)
                    && f.code == c && f.message@ == msg,
                None => r is Err,
            },
            None => r is Err,
        },
        r matches Err(e) ==> e is InvalidData,
{
    proof {
        reveal_strlit("<methodResponse>");
        reveal_strlit("<fault>");
        reveal_strlit("<params>");
    }
    let s = str_to_chars(text);
    proof {
        assert(s@.len() == s.len());
    }
    let k = match skip_decl(&s) {
        Some(k) => k,
        None => {
            return Err(invalid("unterminated declaration"));
        },
    };
    let w1 = skip_ws(&s, k);
    proof {
        crate::decode::lemma_skip_skip(s@, k as int, w1 - k);
        crate::decode::lemma_matches_shift(s@, w1 as int, "<methodResponse>"@);
    }
    if !check_lit(&s, w1, "<methodResponse>") {
        return Err(invalid("not a methodResponse document"));
    }
    let w2 = skip_ws(&s, w1 + 16);
    proof {
        crate::decode::lemma_skip_skip(s@, w1 as int, 16);
        crate::decode::lemma_skip_skip(s@, w1 + 16, w2 - (w1 + 16));
        crate::decode::lemma_matches_shift(s@, w2 as int, "<fault>"@);
        crate::decode::lemma_matches_shift(s@, w2 as int, "<params>"@);
    }
    if check_lit(&s, w2, "<fault>") {
        parse_fault_arm(&s, w2)
    } else if check_lit(&s, w2, "<params>") {
        parse_success_arm(&s, w2)
    } else {
        Err(invalid("neither params nor fault"))
    }
}

/// Reads a fault out of its two-member struct value, executable
/// counterpart of [`fault_of`].
pub fn fault_from_value(v: &Value) -> (r: Option<Fault>)
    ensures
        match fault_of(v@) {
            Some((c, msg)) => r matches Some(f) && f.code == c && f.message@ == msg,
            None => r is None,
        },
{
    proof {
        reveal_strlit("faultCode");
        reveal_strlit("faultString");
    }
    match v.inner() {
        crate::values::Type::Struct { members } => {
            proof {
                crate::values::lemma_mems_v(members@);
            }
            if members.len() != 2 {
                return None;
            }
            let m0 = &members[0];
            let m1 = &members[1];
            if !crate::text::str_eq(m0.name.as_str(), "faultCode") {
                return None;
            }
            if !crate::text::str_eq(m1.name.as_str(), "faultString") {
                return None;
            }
            let code = match &m0.value.value {
                crate::values::Type::Integer(i) => *i,
                _ => {
                    return None;
                },
            };
            let message = match &m1.value.value {
                crate::values::Type::String(s) => s.clone(),
                _ => {
                    return None;
                },
            };
            Some(Fault { code, message })
        },
        _ => None,
    }
}

/// Interprets a parsed response against the expected return type: a
/// fault becomes a server-fault error, a value converts through
/// `FromDXR`, and a conversion failure keeps its kind.
pub fn interpret_response<R: FromDXR>(resp: MethodResponse) -> (r: Result<R, Error>)
    ensures
        match resp {
            MethodResponse::Fault(f) => r == Err::<R, Error>(Error::Fault(f)),
            MethodResponse::Success(v) => {
                &&& (r is Ok <==> R::can_from(v@))
                &&& (r matches Ok(x) ==> x.dxr_v() == R::normal(v@))
                &&& (r matches Err(e) ==> e matches Error::RPC(d) && d is WrongType)
            },
        },
{
    match resp {
        MethodResponse::Fault(f) => Err(Error::Fault(f)),
        MethodResponse::Success(v) => match R::from_dxr(&v) {
            Ok(x) => Ok(x),
            Err(e) => Err(Error::RPC(e)),
        },
    }
}

} // verus!
