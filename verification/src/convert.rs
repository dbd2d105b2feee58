//! The conversion framework: the bridge between native values and wire
//! values (`ToDXR` / `FromDXR`), and between native values and flat call
//! parameter lists (`ToParams` / `FromParams`).
//!
//! The same `Vec<T>` becomes one array-valued parameter through `ToDXR`
//! and one positional parameter per element through `ToParams`: the two
//! traits deliberately differ on collections.

use vstd::prelude::*;

use crate::error::DxrError;
use crate::values::DateTime;
use crate::values::Double;
use crate::values::ValV;
use crate::values::Value;
use crate::values::lemma_vals_v;
use crate::values::vals_v;

verus! {

/// Conversion into a wire value. `dxr_v` names the exact mirrored value
/// the conversion produces.
pub trait ToDXR: Sized {
    /// The mirrored wire value this native value converts to.
    spec fn dxr_v(&self) -> ValV;

    /// Converts into a wire value; total for every type of this crate.
    fn to_dxr(&self) -> (r: Result<Value, DxrError>)
        ensures
            r matches Ok(v) && v@ == self.dxr_v(),
    ;
}

/// Conversion out of a wire value. `can_from` says exactly which
/// mirrored values convert; on them, the result converts back to
/// `normal` of the input (the input itself, for every type here).
pub trait FromDXR: ToDXR {
    /// True of exactly the mirrored values this type accepts.
    spec fn can_from(v: ValV) -> bool;

    /// The mirrored value the result converts back to.
    spec fn normal(v: ValV) -> ValV;

    /// Converts from a wire value, or reports a wrong-type error.
    fn from_dxr(value: &Value) -> (r: Result<Self, DxrError>)
        ensures
            r is Ok <==> Self::can_from(value@),
            r matches Ok(x) ==> x.dxr_v() == Self::normal(value@),
            r matches Err(e) ==> e is WrongType,
    ;
}

impl ToDXR for i32 {
    open spec fn dxr_v(&self) -> ValV {
        ValV::Integer(*self)
    }

    fn to_dxr(&self) -> (r: Result<Value, DxrError>) {
        Ok(Value::i4(*self))
    }
}

impl FromDXR for i32 {
    open spec fn can_from(v: ValV) -> bool {
        v is Integer
    }

    open spec fn normal(v: ValV) -> ValV {
        v
    }

    fn from_dxr(value: &Value) -> (r: Result<Self, DxrError>) {
        match value.inner() {
            crate::values::Type::Integer(i) => Ok(*i),
            _ => Err(wrong_type("i4")),
        }
    }
}

impl ToDXR for i64 {
    open spec fn dxr_v(&self) -> ValV {
        ValV::Long(*self)
    }

    fn to_dxr(&self) -> (r: Result<Value, DxrError>) {
        Ok(Value::i8(*self))
    }
}

impl FromDXR for i64 {
    open spec fn can_from(v: ValV) -> bool {
        v is Long
    }

    open spec fn normal(v: ValV) -> ValV {
        v
    }

    fn from_dxr(value: &Value) -> (r: Result<Self, DxrError>) {
        match value.inner() {
            crate::values::Type::Long(l) => Ok(*l),
            _ => Err(wrong_type("i8")),
        }
    }
}

impl ToDXR for bool {
    open spec fn dxr_v(&self) -> ValV {
        ValV::Boolean(*self)
    }

    fn to_dxr(&self) -> (r: Result<Value, DxrError>) {
        Ok(Value::boolean(*self))
    }
}

impl FromDXR for bool {
    open spec fn can_from(v: ValV) -> bool {
        v is Boolean
    }

    open spec fn normal(v: ValV) -> ValV {
        v
    }

    fn from_dxr(value: &Value) -> (r: Result<Self, DxrError>) {
        match value.inner() {
            crate::values::Type::Boolean(b) => Ok(*b),
            _ => Err(wrong_type("boolean")),
        }
    }
}

impl ToDXR for String {
    open spec fn dxr_v(&self) -> ValV {
        ValV::String(self@)
    }

    fn to_dxr(&self) -> (r: Result<Value, DxrError>) {
        Ok(Value::string(self.clone()))
    }
}

impl FromDXR for String {
    open spec fn can_from(v: ValV) -> bool {
        v is String
    }

    open spec fn normal(v: ValV) -> ValV {
        v
    }

    fn from_dxr(value: &Value) -> (r: Result<Self, DxrError>) {
        match value.inner() {
            crate::values::Type::String(s) => Ok(s.clone()),
            _ => Err(wrong_type("string")),
        }
    }
}

impl ToDXR for Double {
    open spec fn dxr_v(&self) -> ValV {
        ValV::Double(self@)
    }

    fn to_dxr(&self) -> (r: Result<Value, DxrError>) {
        Ok(Value::double(Double { text: self.text.clone() }))
    }
}

impl FromDXR for Double {
    open spec fn can_from(v: ValV) -> bool {
        v is Double
    }

    open spec fn normal(v: ValV) -> ValV {
        v
    }

    fn from_dxr(value: &Value) -> (r: Result<Self, DxrError>) {
        match value.inner() {
            crate::values::Type::Double(d) => Ok(Double { text: d.text.clone() }),
            _ => Err(wrong_type("double")),
        }
    }
}

impl ToDXR for DateTime {
    open spec fn dxr_v(&self) -> ValV {
        ValV::DateTime(*self)
    }

    fn to_dxr(&self) -> (r: Result<Value, DxrError>) {
        Ok(Value::datetime(*self))
    }
}

impl FromDXR for DateTime {
    open spec fn can_from(v: ValV) -> bool {
        v is DateTime
    }

    open spec fn normal(v: ValV) -> ValV {
        v
    }

    fn from_dxr(value: &Value) -> (r: Result<Self, DxrError>) {
        match value.inner() {
            crate::values::Type::DateTime(dt) => Ok(*dt),
            _ => Err(wrong_type("dateTime.iso8601")),
        }
    }
}

impl<T: ToDXR> ToDXR for Vec<T> {
    open spec fn dxr_v(&self) -> ValV {
        ValV::Array(Seq::new(self@.len(), |i: int| self@[i].dxr_v()))
    }

    fn to_dxr(&self) -> (r: Result<Value, DxrError>) {
        let mut elems: Vec<Value> = Vec::new();
        let mut i: usize = 0;
        while i < self.len()
            invariant
                i <= self@.len(),
                elems@.len() == i,
                forall|k: int| 0 <= k < i ==> (#[trigger] elems@[k])@ == self@[k].dxr_v(),
            decreases self@.len() - i,
        {
            match self[i].to_dxr() {
                Ok(v) => {
                    elems.push(v);
                },
                Err(e) => {
                    return Err(e);
                },
            }
            i += 1;
        }
        let ghost ev = elems@;
        let r = Value::array(crate::values::Array::from_elements(elems));
        proof {
            crate::values::lemma_vals_v(ev);
            assert(ev.map_values(|v: Value| v@) =~= Seq::new(self@.len(), |i: int| self@[i].dxr_v()));
        }
        Ok(r)
    }
}

impl<T: FromDXR> FromDXR for Vec<T> {
    open spec fn can_from(v: ValV) -> bool {
        v matches ValV::Array(es) && (forall|i: int| 0 <= i < es.len() ==> T::can_from(
            #[trigger] es[i],
        ))
    }

    open spec fn normal(v: ValV) -> ValV {
        match v {
            ValV::Array(es) => ValV::Array(Seq::new(es.len(), |i: int| T::normal(es[i]))),
            _ => v,
        }
    }

    fn from_dxr(value: &Value) -> (r: Result<Self, DxrError>) {
        match value.inner() {
            crate::values::Type::Array { data } => {
                let values = &data.values;
                let ghost es = crate::values::vals_v(values@);
                proof {
                    crate::values::lemma_vals_v(values@);
                    assert(value@ == ValV::Array(es));
                }
                let mut out: Vec<T> = Vec::new();
                let mut i: usize = 0;
                while i < values.len()
                    invariant
                        i <= values@.len(),
                        es == crate::values::vals_v(values@),
                        es.len() == values@.len(),
                        forall|k: int| 0 <= k < values@.len() ==> es[k] == values@[k]@,
                        out@.len() == i,
                        forall|k: int| 0 <= k < i ==> T::can_from(#[trigger] es[k]),
                        forall|k: int|
                            0 <= k < i ==> (#[trigger] out@[k]).dxr_v() == T::normal(es[k]),
                        value@ == ValV::Array(es),
                    decreases values@.len() - i,
                {
                    match T::from_dxr(&values[i]) {
                        Ok(x) => {
                            out.push(x);
                        },
                        Err(e) => {
                            proof {
                                assert(value@->Array_0 == es);
                                assert(!T::can_from(value@->Array_0[i as int]));
                                assert(!Self::can_from(value@));
                            }
                            return Err(e);
                        },
                    }
                    i += 1;
                }
                proof {
                    assert(Self::can_from(value@));
                    assert(out.dxr_v() == Self::normal(value@)) by {
                        assert(Seq::new(out@.len(), |i: int| out@[i].dxr_v()) =~= Seq::new(
                            es.len(),
                            |i: int| T::normal(es[i]),
                        ));
                    }
                }
                Ok(out)
            },
            _ => Err(wrong_type("array")),
        }
    }
}

impl<T: ToDXR> ToDXR for Option<T> {
    open spec fn dxr_v(&self) -> ValV {
        match self {
            Some(x) => x.dxr_v(),
            None => ValV::Nil,
        }
    }

    fn to_dxr(&self) -> (r: Result<Value, DxrError>) {
        match self {
            Some(x) => x.to_dxr(),
            None => Ok(Value::nil()),
        }
    }
}

impl<T: FromDXR> FromDXR for Option<T> {
    open spec fn can_from(v: ValV) -> bool {
        v is Nil || T::can_from(v)
    }

    open spec fn normal(v: ValV) -> ValV {
        if v is Nil {
            ValV::Nil
        } else {
            T::normal(v)
        }
    }

    fn from_dxr(value: &Value) -> (r: Result<Self, DxrError>) {
        match value.inner() {
            crate::values::Type::Nil => Ok(None),
            _ => match T::from_dxr(value) {
                Ok(x) => Ok(Some(x)),
                Err(e) => Err(e),
            },
        }
    }
}

impl ToDXR for Value {
    open spec fn dxr_v(&self) -> ValV {
        self@
    }

    fn to_dxr(&self) -> (r: Result<Value, DxrError>) {
        Ok(self.duplicate())
    }
}

impl FromDXR for Value {
    open spec fn can_from(v: ValV) -> bool {
        true
    }

    open spec fn normal(v: ValV) -> ValV {
        v
    }

    fn from_dxr(value: &Value) -> (r: Result<Self, DxrError>) {
        Ok(value.duplicate())
    }
}

/// A wrong-type error naming the expected wire tag.
fn wrong_type(expected: &str) -> (r: DxrError)
    ensures
        r is WrongType,
{
    DxrError::WrongType {
        argument: String::from_str("value"),
        expected: String::from_str(expected),
    }
}

/// Conversion into a flat ordered parameter list.
pub trait ToParams: Sized {
    /// The mirrored parameter list this payload flattens to.
    spec fn params_v(&self) -> Seq<ValV>;

    /// Flattens into positional parameters.
    fn to_params(&self) -> (r: Result<Vec<Value>, DxrError>)
        ensures
            r matches Ok(ps) && vals_v(ps@) == self.params_v(),
    ;
}

/// Conversion out of a flat ordered parameter list, enforcing arity
/// before any element is converted.
pub trait FromParams: ToParams {
    /// The exact arity this target expects; `None` accepts any length.
    spec fn arity() -> Option<nat>;

    /// True of exactly the parameter lists that convert.
    spec fn can_from_params(ps: Seq<ValV>) -> bool;

    /// What the result flattens back to.
    spec fn params_normal(ps: Seq<ValV>) -> Seq<ValV>;

    /// Converts a parameter list, or reports a parameter-count or
    /// wrong-type error; a wrong count is always reported as a count
    /// error, even when the elements present would not convert.
    fn from_params(values: &[Value]) -> (r: Result<Self, DxrError>)
        ensures
            r is Ok <==> Self::can_from_params(vals_v(values@)),
            r matches Ok(x) ==> x.params_v() == Self::params_normal(vals_v(values@)),
            r matches Err(e) ==> (e is ParameterMismatch || e is WrongType),
            (match Self::arity() {
                Some(n) => values@.len() != n ==> (r matches Err(e)
                    && e matches DxrError::ParameterMismatch { argument, expected } && argument
                    == values@.len() && expected == n),
                None => true,
            }),
    ;
}

impl<A: ToDXR> ToParams for (A,) {
    open spec fn params_v(&self) -> Seq<ValV> {
        seq![self.0.dxr_v()]
    }

    fn to_params(&self) -> (r: Result<Vec<Value>, DxrError>) {
        let v0 = match self.0.to_dxr() {
            Ok(v) => v,
            Err(e) => {
                return Err(e);
            },
        };
        let mut ps: Vec<Value> = Vec::new();
        ps.push(v0);
        proof {
            lemma_vals_v(ps@);
            assert(vals_v(ps@) =~= self.params_v());
        }
        Ok(ps)
    }
}

impl<A: ToDXR, B: ToDXR> ToParams for (A, B) {
    open spec fn params_v(&self) -> Seq<ValV> {
        seq![self.0.dxr_v(), self.1.dxr_v()]
    }

    fn to_params(&self) -> (r: Result<Vec<Value>, DxrError>) {
        let v0 = match self.0.to_dxr() {
            Ok(v) => v,
            Err(e) => {
                return Err(e);
            },
        };
        let v1 = match self.1.to_dxr() {
            Ok(v) => v,
            Err(e) => {
                return Err(e);
            },
        };
        let mut ps: Vec<Value> = Vec::new();
        ps.push(v0);
        ps.push(v1);
        proof {
            lemma_vals_v(ps@);
            assert(vals_v(ps@) =~= self.params_v());
        }
        Ok(ps)
    }
}

impl<A: ToDXR, B: ToDXR, C: ToDXR> ToParams for (A, B, C) {
    open spec fn params_v(&self) -> Seq<ValV> {
        seq![self.0.dxr_v(), self.1.dxr_v(), self.2.dxr_v()]
    }

    fn to_params(&self) -> (r: Result<Vec<Value>, DxrError>) {
        let v0 = match self.0.to_dxr() {
            Ok(v) => v,
            Err(e) => {
                return Err(e);
            },
        };
        let v1 = match self.1.to_dxr() {
            Ok(v) => v,
            Err(e) => {
                return Err(e);
            },
        };
        let v2 = match self.2.to_dxr() {
            Ok(v) => v,
            Err(e) => {
                return Err(e);
            },
        };
        let mut ps: Vec<Value> = Vec::new();
        ps.push(v0);
        ps.push(v1);
        ps.push(v2);
        proof {
            lemma_vals_v(ps@);
            assert(vals_v(ps@) =~= self.params_v());
        }
        Ok(ps)
    }
}

impl<T: ToDXR> ToParams for Vec<T> {
    open spec fn params_v(&self) -> Seq<ValV> {
        Seq::new(self@.len(), |i: int| self@[i].dxr_v())
    }

    fn to_params(&self) -> (r: Result<Vec<Value>, DxrError>) {
        let mut ps: Vec<Value> = Vec::new();
        let mut i: usize = 0;
        while i < self.len()
            invariant
                i <= self@.len(),
                ps@.len() == i,
                forall|k: int| 0 <= k < i ==> (#[trigger] ps@[k])@ == self@[k].dxr_v(),
            decreases self@.len() - i,
        {
            match self[i].to_dxr() {
                Ok(v) => {
                    ps.push(v);
                },
                Err(e) => {
                    return Err(e);
                },
            }
            i += 1;
        }
        proof {
            lemma_vals_v(ps@);
            assert(vals_v(ps@) =~= self.params_v());
        }
        Ok(ps)
    }
}

impl<A: FromDXR + ToDXR> FromParams for (A,) {
    open spec fn arity() -> Option<nat> {
        Some(1)
    }

    open spec fn can_from_params(ps: Seq<ValV>) -> bool {
        ps.len() == 1 && A::can_from(ps[0])
    }

    open spec fn params_normal(ps: Seq<ValV>) -> Seq<ValV> {
        seq![A::normal(ps[0])]
    }

    fn from_params(values: &[Value]) -> (r: Result<Self, DxrError>) {
        proof {
            lemma_vals_v(values@);
        }
        if values.len() != 1 {
            return Err(param_mismatch(values.len(), 1));
        }
        let a = match A::from_dxr(&values[0]) {
            Ok(a) => a,
            Err(e) => {
                return Err(e);
            },
        };
        let r = (a,);
        proof {
            assert(r.params_v() =~= Self::params_normal(vals_v(values@)));
        }
        Ok(r)
    }
}

impl<A: FromDXR + ToDXR, B: FromDXR + ToDXR> FromParams for (A, B) {
    open spec fn arity() -> Option<nat> {
        Some(2)
    }

    open spec fn can_from_params(ps: Seq<ValV>) -> bool {
        ps.len() == 2 && A::can_from(ps[0]) && B::can_from(ps[1])
    }

    open spec fn params_normal(ps: Seq<ValV>) -> Seq<ValV> {
        seq![A::normal(ps[0]), B::normal(ps[1])]
    }

    fn from_params(values: &[Value]) -> (r: Result<Self, DxrError>) {
        proof {
            lemma_vals_v(values@);
        }
        if values.len() != 2 {
            return Err(param_mismatch(values.len(), 2));
        }
        let a = match A::from_dxr(&values[0]) {
            Ok(a) => a,
            Err(e) => {
                return Err(e);
            },
        };
        let b = match B::from_dxr(&values[1]) {
            Ok(b) => b,
            Err(e) => {
                return Err(e);
            },
        };
        let r = (a, b);
        proof {
            assert(r.params_v() =~= Self::params_normal(vals_v(values@)));
        }
        Ok(r)
    }
}

impl<A: FromDXR + ToDXR, B: FromDXR + ToDXR, C: FromDXR + ToDXR> FromParams for (A, B, C) {
    open spec fn arity() -> Option<nat> {
        Some(3)
    }

    open spec fn can_from_params(ps: Seq<ValV>) -> bool {
        ps.len() == 3 && A::can_from(ps[0]) && B::can_from(ps[1]) && C::can_from(ps[2])
    }

    open spec fn params_normal(ps: Seq<ValV>) -> Seq<ValV> {
        seq![A::normal(ps[0]), B::normal(ps[1]), C::normal(ps[2])]
    }

    fn from_params(values: &[Value]) -> (r: Result<Self, DxrError>) {
        proof {
            lemma_vals_v(values@);
        }
        if values.len() != 3 {
            return Err(param_mismatch(values.len(), 3));
        }
        let a = match A::from_dxr(&values[0]) {
            Ok(a) => a,
            Err(e) => {
                return Err(e);
            },
        };
        let b = match B::from_dxr(&values[1]) {
            Ok(b) => b,
            Err(e) => {
                return Err(e);
            },
        };
        let c = match C::from_dxr(&values[2]) {
            Ok(c) => c,
            Err(e) => {
                return Err(e);
            },
        };
        let r = (a, b, c);
        proof {
            assert(r.params_v() =~= Self::params_normal(vals_v(values@)));
        }
        Ok(r)
    }
}

impl<T: FromDXR + ToDXR> FromParams for Vec<T> {
    open spec fn arity() -> Option<nat> {
        None
    }

    open spec fn can_from_params(ps: Seq<ValV>) -> bool {
        forall|i: int| 0 <= i < ps.len() ==> T::can_from(#[trigger] ps[i])
    }

    open spec fn params_normal(ps: Seq<ValV>) -> Seq<ValV> {
        Seq::new(ps.len(), |i: int| T::normal(ps[i]))
    }

    fn from_params(values: &[Value]) -> (r: Result<Self, DxrError>) {
        proof {
            lemma_vals_v(values@);
        }
        let ghost ps = vals_v(values@);
        let mut out: Vec<T> = Vec::new();
        let mut i: usize = 0;
        while i < values.len()
            invariant
                i <= values@.len(),
                ps == vals_v(values@),
                ps.len() == values@.len(),
                forall|k: int| 0 <= k < values@.len() ==> ps[k] == values@[k]@,
                out@.len() == i,
                forall|k: int| 0 <= k < i ==> T::can_from(#[trigger] ps[k]),
                forall|k: int| 0 <= k < i ==> (#[trigger] out@[k]).dxr_v() == T::normal(ps[k]),
            decreases values@.len() - i,
        {
            match T::from_dxr(&values[i]) {
                Ok(x) => {
                    out.push(x);
                },
                Err(e) => {
                    proof {
                        assert(!T::can_from(ps[i as int]));
                    }
                    return Err(e);
                },
            }
            i += 1;
        }
        proof {
            assert(Self::can_from_params(ps));
            assert(out.params_v() =~= Self::params_normal(ps));
        }
        Ok(out)
    }
}

/// A parameter-count error carrying both lengths.
fn param_mismatch(argument: usize, expected: usize) -> (r: DxrError)
    ensures
        r == (DxrError::ParameterMismatch { argument, expected }),
{
    DxrError::ParameterMismatch { argument, expected }
}

} // verus!
