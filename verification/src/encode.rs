//! The encoding half of the wire codec: the exact character sequence of
//! every value tree and of the request/response envelopes, and the
//! executable emitter proved against it.

use vstd::prelude::*;

use crate::b64::b64_of;
use crate::b64::push_b64;
use crate::dt::date_text;
use crate::dt::push_date;
use crate::error::Fault;
use crate::escape::escape;
use crate::escape::push_escaped;
use crate::num::dec_int;
use crate::num::push_int;
use crate::text::chars_to_string;
use crate::text::push_str_chars;
use crate::values::MemV;
use crate::values::ValV;
use crate::values::Value;
use crate::values::Type;
use crate::values::val_wf;
use crate::values::val_v;
use crate::values::mems_v;
use crate::values::vals_v;
use crate::values::lemma_mems_v;
use crate::values::lemma_vals_v;

verus! {

/// The wire text of a value without its `<value>` wrapper.
pub open spec fn enc_typed(v: ValV) -> Seq<char>
    decreases v, 0int,
{
    match v {
        ValV::Integer(i) => "<i4>"@ + dec_int(i as int) + "</i4>"@,
        ValV::Long(l) => "<i8>"@ + dec_int(l as int) + "</i8>"@,
        ValV::Boolean(b) => "<boolean>"@ + (if b {
            seq!['1']
        } else {
            seq!['0']
        }) + "</boolean>"@,
        ValV::String(s) => "<string>"@ + escape(s) + "</string>"@,
        ValV::Double(t) => "<double>"@ + t + "</double>"@,
        ValV::DateTime(dt) => "<dateTime.iso8601>"@ + date_text(dt) + "</dateTime.iso8601>"@,
        ValV::Base64(b) => "<base64>"@ + b64_of(b) + "</base64>"@,
        ValV::Struct(ms) => "<struct>"@ + enc_members(ms) + "</struct>"@,
        ValV::Array(es) => "<array><data>"@ + enc_elems(es) + "</data></array>"@,
        ValV::Nil => "<nil/>"@,
    }
}

/// The wire text of a value, wrapped in its `<value>` element.
pub open spec fn enc_value(v: ValV) -> Seq<char>
    decreases v, 1int,
{
    "<value>"@ + enc_typed(v) + "</value>"@
}

/// The wire text of one struct member.
pub open spec fn enc_member(m: MemV) -> Seq<char>
    decreases m, 2int,
{
    "<member><name>"@ + escape(m.name) + "</name>"@ + enc_value(m.value) + "</member>"@
}

/// The wire text of a member list, in order.
pub open spec fn enc_members(ms: Seq<MemV>) -> Seq<char>
    decreases ms, 3int,
    via enc_members_decreases
{
    if ms.len() == 0 {
        Seq::empty()
    } else {
        enc_member(ms[0]) + enc_members(ms.drop_first())
    }
}

/// The wire text of an element list, in order.
pub open spec fn enc_elems(es: Seq<ValV>) -> Seq<char>
    decreases es, 3int,
    via enc_elems_decreases
{
    if es.len() == 0 {
        Seq::empty()
    } else {
        enc_value(es[0]) + enc_elems(es.drop_first())
    }
}

#[via_fn]
proof fn enc_members_decreases(ms: Seq<MemV>) {
    broadcast use vstd::seq::axiom_seq_index_decreases;
    broadcast use vstd::seq::axiom_seq_subrange_decreases;

    if ms.len() > 0 {
        assert(decreases_to!(ms => ms[0]));
        assert(decreases_to!(ms => ms.subrange(1, ms.len() as int)));
    }
}

#[via_fn]
proof fn enc_elems_decreases(es: Seq<ValV>) {
    broadcast use vstd::seq::axiom_seq_index_decreases;
    broadcast use vstd::seq::axiom_seq_subrange_decreases;

    if es.len() > 0 {
        assert(decreases_to!(es => es[0]));
        assert(decreases_to!(es => es.subrange(1, es.len() as int)));
    }
}

/// Encoding a member list distributes over appending one member.
pub proof fn lemma_enc_members_snoc(ms: Seq<MemV>, m: MemV)
    ensures
        enc_members(ms.push(m)) == enc_members(ms) + enc_member(m),
    decreases ms.len(),
{
    if ms.len() == 0 {
        assert(ms.push(m)[0] == m);
        assert(ms.push(m).drop_first() =~= ms);
        assert(enc_members(ms.push(m)) =~= enc_members(ms) + enc_member(m));
    } else {
        lemma_enc_members_snoc(ms.drop_first(), m);
        assert(ms.push(m).drop_first() =~= ms.drop_first().push(m));
        assert(ms.push(m)[0] == ms[0]);
        assert(enc_member(ms[0]) + (enc_members(ms.drop_first()) + enc_member(m)) =~= (enc_member(
            ms[0],
        ) + enc_members(ms.drop_first())) + enc_member(m));
    }
}

/// Encoding an element list distributes over appending one element.
pub proof fn lemma_enc_elems_snoc(es: Seq<ValV>, v: ValV)
    ensures
        enc_elems(es.push(v)) == enc_elems(es) + enc_value(v),
    decreases es.len(),
{
    if es.len() == 0 {
        assert(es.push(v)[0] == v);
        assert(es.push(v).drop_first() =~= es);
        assert(enc_elems(es.push(v)) =~= enc_elems(es) + enc_value(v));
    } else {
        lemma_enc_elems_snoc(es.drop_first(), v);
        assert(es.push(v).drop_first() =~= es.drop_first().push(v));
        assert(es.push(v)[0] == es[0]);
        assert(enc_value(es[0]) + (enc_elems(es.drop_first()) + enc_value(v)) =~= (enc_value(
            es[0],
        ) + enc_elems(es.drop_first())) + enc_value(v));
    }
}

/// Appends the wire text of a value tree.
pub fn push_value(out: &mut Vec<char>, v: &Value)
    requires
        val_wf(v@),
    ensures
        final(out)@ == old(out)@ + enc_value(v@),
    decreases v,
{
    push_str_chars(out, "<value>");
    match &v.value {
        Type::Integer(i) => {
            push_str_chars(out, "<i4>");
            push_int(out, *i as i64);
            push_str_chars(out, "</i4>");
        },
        Type::Long(l) => {
            push_str_chars(out, "<i8>");
            push_int(out, *l);
            push_str_chars(out, "</i8>");
        },
        Type::Boolean(b) => {
            push_str_chars(out, "<boolean>");
            if *b {
                out.push('1');
            } else {
                out.push('0');
            }
            push_str_chars(out, "</boolean>");
            assert((if v@ is Boolean && v@->Boolean_0 {
                seq!['1']
            } else {
                seq!['0']
            }) =~= (if *b {
                seq!['1']
            } else {
                seq!['0']
            }));
        },
        Type::String(s) => {
            push_str_chars(out, "<string>");
            push_escaped(out, s.as_str());
            push_str_chars(out, "</string>");
        },
        Type::Double(d) => {
            push_str_chars(out, "<double>");
            push_str_chars(out, d.text.as_str());
            push_str_chars(out, "</double>");
        },
        Type::DateTime(dt) => {
            push_str_chars(out, "<dateTime.iso8601>");
            push_date(out, dt);
            push_str_chars(out, "</dateTime.iso8601>");
        },
        Type::Base64(b) => {
            push_str_chars(out, "<base64>");
            push_b64(out, b, 0);
            assert(b@.skip(0) =~= b@);
            push_str_chars(out, "</base64>");
        },
        Type::Struct { members } => {
            push_str_chars(out, "<struct>");
            let ghost ms = mems_v(members@);
            let ghost mid = out@;
            proof {
                lemma_mems_v(members@);
                assert(ms.take(0) =~= Seq::<MemV>::empty());
            }
            let mut i: usize = 0;
            while i < members.len()
                invariant
                    i <= members@.len(),
                    ms == mems_v(members@),
                    ms.len() == members@.len(),
                    forall|k: int|
                        0 <= k < members@.len() ==> ms[k] == (MemV {
                            name: members@[k].name@,
                            value: val_v(members@[k].value),
                        }),
                    out@ == mid + enc_members(ms.take(i as int)),
                    val_wf(v@),
                    v.value == (Type::Struct { members: *members }),
                decreases members@.len() - i,
            {
                let m = &members[i];
                push_str_chars(out, "<member><name>");
                push_escaped(out, m.name.as_str());
                push_str_chars(out, "</name>");
                proof {
                    broadcast use vstd::std_specs::vec::axiom_vec_decreases_to_view;
                    broadcast use vstd::seq::axiom_seq_index_decreases;

                    assert(decreases_to!(v => members));
                    assert(decreases_to!(members@ => members@[i as int]));
                    assert(v@ == ValV::Struct(ms));
                    assert(v@->Struct_0 == ms);
                    assert(val_wf(v@->Struct_0[i as int].value));
                    assert(val_wf(ms[i as int].value));
                }
                push_value(out, &m.value);
                push_str_chars(out, "</member>");
                proof {
                    lemma_enc_members_snoc(ms.take(i as int), ms[i as int]);
                    assert(ms.take(i + 1) =~= ms.take(i as int).push(ms[i as int]));
                    assert(out@ =~= mid + enc_members(ms.take(i + 1)));
                }
                i += 1;
            }
            proof {
                assert(ms.take(ms.len() as int) =~= ms);
            }
            push_str_chars(out, "</struct>");
        },
        Type::Array { data } => {
            push_str_chars(out, "<array><data>");
            let values = &data.values;
            let ghost es = vals_v(values@);
            let ghost mid = out@;
            proof {
                lemma_vals_v(values@);
                assert(es.take(0) =~= Seq::<ValV>::empty());
            }
            let mut i: usize = 0;
            while i < values.len()
                invariant
                    i <= values@.len(),
                    es == vals_v(values@),
                    es.len() == values@.len(),
                    forall|k: int| 0 <= k < values@.len() ==> es[k] == val_v(values@[k]),
                    out@ == mid + enc_elems(es.take(i as int)),
                    val_wf(v@),
                    v.value == (Type::Array { data: *data }),
                    values == data.values,
                decreases values@.len() - i,
            {
                proof {
                    broadcast use vstd::std_specs::vec::axiom_vec_decreases_to_view;
                    broadcast use vstd::seq::axiom_seq_index_decreases;

                    assert(decreases_to!(v => values));
                    assert(decreases_to!(values@ => values@[i as int]));
                    assert(v@ == ValV::Array(es));
                    assert(v@->Array_0 == es);
                    assert(val_wf(v@->Array_0[i as int]));
                    assert(val_wf(es[i as int]));
                }
                push_value(out, &values[i]);
                proof {
                    lemma_enc_elems_snoc(es.take(i as int), es[i as int]);
                    assert(es.take(i + 1) =~= es.take(i as int).push(es[i as int]));
                    assert(out@ =~= mid + enc_elems(es.take(i + 1)));
                }
                i += 1;
            }
            proof {
                assert(es.take(es.len() as int) =~= es);
            }
            push_str_chars(out, "</data></array>");
        },
        Type::Nil => {
            push_str_chars(out, "<nil/>");
        },
    }
    push_str_chars(out, "</value>");
    assert(out@ =~= old(out)@ + enc_value(v@));
}

/// The XML declaration every emitted document starts with.
pub open spec fn xml_decl() -> Seq<char> {
    "<?xml version=\"1.0\"?>"@
}

/// The wire text of a `methodCall` document.
pub open spec fn enc_request(method: Seq<char>, params: Seq<ValV>) -> Seq<char> {
    xml_decl() + "<methodCall><methodName>"@ + escape(method) + "</methodName><params>"@
        + enc_params(params) + "</params></methodCall>"@
}

/// The wire text of the parameter list: one `<param>` per entry.
pub open spec fn enc_params(ps: Seq<ValV>) -> Seq<char>
    decreases ps.len(),
{
    if ps.len() == 0 {
        Seq::empty()
    } else {
        ("<param>"@ + enc_value(ps[0]) + "</param>"@) + enc_params(ps.drop_first())
    }
}

/// Encoding a parameter list distributes over appending one parameter.
pub proof fn lemma_enc_params_snoc(ps: Seq<ValV>, v: ValV)
    ensures
        enc_params(ps.push(v)) == enc_params(ps) + ("<param>"@ + enc_value(v) + "</param>"@),
    decreases ps.len(),
{
    if ps.len() == 0 {
        assert(ps.push(v)[0] == v);
        assert(ps.push(v).drop_first() =~= ps);
        assert(enc_params(ps.push(v)) =~= enc_params(ps) + ("<param>"@ + enc_value(v)
            + "</param>"@));
    } else {
        lemma_enc_params_snoc(ps.drop_first(), v);
        assert(ps.push(v).drop_first() =~= ps.drop_first().push(v));
        assert(ps.push(v)[0] == ps[0]);
        let h = "<param>"@ + enc_value(ps[0]) + "</param>"@;
        let t = "<param>"@ + enc_value(v) + "</param>"@;
        assert(h + (enc_params(ps.drop_first()) + t) =~= (h + enc_params(ps.drop_first())) + t);
    }
}

/// The wire text of a successful `methodResponse` document.
pub open spec fn enc_response(v: ValV) -> Seq<char> {
    xml_decl() + "<methodResponse><params><param>"@ + enc_value(v)
        + "</param></params></methodResponse>"@
}

/// The value a fault travels as: a struct of `faultCode` and
/// `faultString`.
pub open spec fn fault_value(code: i32, message: Seq<char>) -> ValV {
    ValV::Struct(
        seq![
            MemV { name: "faultCode"@, value: ValV::Integer(code) },
            MemV { name: "faultString"@, value: ValV::String(message) },
        ],
    )
}

/// The wire text of a fault `methodResponse` document.
pub open spec fn enc_fault_response(code: i32, message: Seq<char>) -> Seq<char> {
    xml_decl() + "<methodResponse><fault>"@ + enc_value(fault_value(code, message)) + "</fault></methodResponse>"@
}

/// Serializes one value to its wire text.
pub fn value_to_xml(v: &Value) -> (r: String)
    requires
        val_wf(v@),
    ensures
        r@ == enc_value(v@),
{
    let mut out: Vec<char> = Vec::new();
    push_value(&mut out, v);
    chars_to_string(&out)
}

/// Serializes a `methodCall` document from a method name and its flat
/// parameter list.
pub fn request_to_xml(method: &str, params: &Vec<Value>) -> (r: String)
    requires
        forall|i: int| 0 <= i < params@.len() ==> val_wf(#[trigger] params@[i]@),
    ensures
        r@ == enc_request(method@, vals_v(params@)),
{
    let ghost ps = vals_v(params@);
    proof {
        lemma_vals_v(params@);
    }
    let mut out: Vec<char> = Vec::new();
    push_str_chars(&mut out, "<?xml version=\"1.0\"?>");
    push_str_chars(&mut out, "<methodCall><methodName>");
    push_escaped(&mut out, method);
    push_str_chars(&mut out, "</methodName><params>");
    let ghost mid = out@;
    proof {
        assert(ps.take(0) =~= Seq::<ValV>::empty());
    }
    let mut i: usize = 0;
    while i < params.len()
        invariant
            i <= params@.len(),
            ps == vals_v(params@),
            ps.len() == params@.len(),
            forall|k: int| 0 <= k < params@.len() ==> ps[k] == val_v(params@[k]),
            forall|k: int| 0 <= k < params@.len() ==> val_wf(#[trigger] params@[k]@),
            out@ == mid + enc_params(ps.take(i as int)),
        decreases params@.len() - i,
    {
        push_str_chars(&mut out, "<param>");
        push_value(&mut out, &params[i]);
        push_str_chars(&mut out, "</param>");
        proof {
            lemma_enc_params_snoc(ps.take(i as int), ps[i as int]);
            assert(ps.take(i + 1) =~= ps.take(i as int).push(ps[i as int]));
            assert(out@ =~= mid + enc_params(ps.take(i + 1)));
        }
        i += 1;
    }
    proof {
        assert(ps.take(ps.len() as int) =~= ps);
    }
    push_str_chars(&mut out, "</params></methodCall>");
    let r = chars_to_string(&out);
    assert(r@ =~= enc_request(method@, ps));
    r
}

/// Serializes a successful `methodResponse` document around one value.
pub fn response_to_xml(v: &Value) -> (r: String)
    requires
        val_wf(v@),
    ensures
        r@ == enc_response(v@),
{
    let mut out: Vec<char> = Vec::new();
    push_str_chars(&mut out, "<?xml version=\"1.0\"?>");
    push_str_chars(&mut out, "<methodResponse><params><param>");
    push_value(&mut out, v);
    push_str_chars(&mut out, "</param></params></methodResponse>");
    let r = chars_to_string(&out);
    assert(r@ =~= enc_response(v@));
    r
}

/// Serializes a fault `methodResponse` document.
pub fn fault_to_xml(f: &Fault) -> (r: String)
    ensures
        r@ == enc_fault_response(f.code, f.message@),
{
    let mut members: Vec<crate::values::Member> = Vec::new();
    members.push(
        crate::values::Member::new(String::from_str("faultCode"), Value::i4(f.code)),
    );
    members.push(
        crate::values::Member::new(String::from_str("faultString"), Value::string(f.message.clone())),
    );
    let fv = Value::structure(crate::values::Struct::from_members(members));
    proof {
        assert(fv@ == fault_value(f.code, f.message@)) by {
            let ms = fv@->Struct_0;
            assert(ms =~= fault_value(f.code, f.message@)->Struct_0);
        }
        assert(val_wf(fv@)) by {
            let ms = fv@->Struct_0;
            assert(forall|i: int| 0 <= i < ms.len() ==> val_wf((#[trigger] ms[i]).value));
        }
    }
    let mut out: Vec<char> = Vec::new();
    push_str_chars(&mut out, "<?xml version=\"1.0\"?>");
    push_str_chars(&mut out, "<methodResponse><fault>");
    push_value(&mut out, &fv);
    push_str_chars(&mut out, "</fault></methodResponse>");
    let r = chars_to_string(&out);
    assert(r@ =~= enc_fault_response(f.code, f.message@));
    r
}

/// Escaping text without metacharacters leaves it unchanged.
pub proof fn lemma_escape_ident(s: Seq<char>)
    requires
        forall|i: int|
            0 <= i < s.len() ==> s[i] != '&' && s[i] != '<' && s[i] != '>' && s[i] != '"' && s[i]
                != '\'',
    ensures
        escape(s) == s,
    decreases s.len(),
{
    if s.len() > 0 {
        lemma_escape_ident(s.skip(1));
        assert(escape(s) == seq![s[0]] + escape(s.skip(1)));
        assert(seq![s[0]] + s.skip(1) =~= s);
    }
}

} // verus!
