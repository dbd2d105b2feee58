//! The XML-RPC value model: a tagged union of every wire type, with
//! structs and arrays as ordered member and element lists.
//!
//! A value is a finite tree: each struct member and each array element is
//! owned by its parent. Contracts speak about values through the ghost
//! mirror [`ValV`], reached by `@`: it replaces every `String` and `Vec`
//! by its mathematical sequence. Well-formedness ([`val_wf`]) constrains
//! only the two variants whose payloads carry an internal grammar:
//! `Double` holds the decimal text of a finite number, and `DateTime`
//! holds a valid calendar date and time of day at whole-second precision.

use vstd::prelude::*;

verus! {

/// A single XML-RPC datum; holds exactly one [`Type`] variant.
#[derive(Debug, PartialEq)]
pub struct Value {
    /// The variant this value carries.
    pub value: Type,
}

/// The closed set of XML-RPC wire types.
///
/// `Long` (`<i8>`) and `Nil` (`<nil/>`) are protocol extensions; both are
/// always available here, and a peer without them simply rejects such
/// payloads at decode time.
#[derive(Debug, PartialEq)]
pub enum Type {
    /// Signed 32-bit decimal, encoded under the `i4` tag (`int` is
    /// accepted as an alias on decode).
    Integer(i32),
    /// Signed 64-bit decimal, encoded under the `i8` extension tag.
    Long(i64),
    /// Encoded as the literal text `0` or `1`, never `true`/`false`.
    Boolean(bool),
    /// XML-escaped text.
    String(String),
    /// Decimal text of a finite floating-point number.
    Double(Double),
    /// Whole-second timestamp, encoded as `YYYYMMDDTHH:MM:SS`.
    DateTime(DateTime),
    /// Binary data, encoded as base64 text.
    Base64(Vec<u8>),
    /// Ordered list of named members; names need not be unique.
    Struct { members: Vec<Member> },
    /// Ordered, heterogeneous list of values.
    Array { data: ArrayData },
    /// Absence of a value, encoded as the `nil` extension tag.
    Nil,
}

/// The decimal text of a finite double: an optional leading minus sign,
/// one or more digits, and an optional fraction of one or more digits.
///
/// Non-finite numbers have no such text, so a value that would encode as
/// `NaN` or an infinity cannot be constructed: the constructor rejects
/// the text instead of the encoder failing later.
#[derive(Clone, Debug, PartialEq)]
pub struct Double {
    /// The wire text; meaningful only when it meets [`is_double_text`].
    pub text: String,
}

/// A whole-second timestamp without a timezone: year 0 to 9999 in the
/// proleptic Gregorian calendar. Sub-second precision is not
/// representable on the wire and must be truncated before construction.
#[derive(Clone, Copy, Debug, PartialEq, Eq, Structural)]
pub struct DateTime {
    pub year: u16,
    pub month: u8,
    pub day: u8,
    pub hour: u8,
    pub minute: u8,
    pub second: u8,
}

/// One named entry of a struct value, order-preserving.
#[derive(Debug, PartialEq)]
pub struct Member {
    /// The member's name.
    pub name: String,
    /// The member's value.
    pub value: Value,
}

/// An ordered list of named members, as carried by a struct value.
#[derive(Debug, PartialEq)]
pub struct Struct {
    /// The ordered member list.
    pub members: Vec<Member>,
}

/// An ordered list of values, as carried by an array value.
#[derive(Debug, PartialEq)]
pub struct Array {
    /// The element list.
    pub data: ArrayData,
}

/// The element list inside an array value.
#[derive(Debug, PartialEq)]
pub struct ArrayData {
    /// The ordered elements.
    pub values: Vec<Value>,
}

/// Ghost mirror of a value tree: the shape every contract speaks about.
pub ghost enum ValV {
    Integer(i32),
    Long(i64),
    Boolean(bool),
    String(Seq<char>),
    Double(Seq<char>),
    DateTime(DateTime),
    Base64(Seq<u8>),
    Struct(Seq<MemV>),
    Array(Seq<ValV>),
    Nil,
}

/// Ghost mirror of one struct member.
pub ghost struct MemV {
    pub name: Seq<char>,
    pub value: ValV,
}

/// The ghost mirror of a value tree.
pub open spec fn val_v(v: Value) -> ValV
    decreases v,
    via val_v_decreases
{
    match v.value {
        Type::Integer(i) => ValV::Integer(i),
        Type::Long(l) => ValV::Long(l),
        Type::Boolean(b) => ValV::Boolean(b),
        Type::String(s) => ValV::String(s@),
        Type::Double(d) => ValV::Double(d.text@),
        Type::DateTime(dt) => ValV::DateTime(dt),
        Type::Base64(b) => ValV::Base64(b@),
        Type::Struct { members } => ValV::Struct(mems_v(members@)),
        Type::Array { data } => ValV::Array(vals_v(data.values@)),
        Type::Nil => ValV::Nil,
    }
}

/// The ghost mirror of an ordered member list.
pub open spec fn mems_v(ms: Seq<Member>) -> Seq<MemV>
    decreases ms,
    via mems_v_decreases
{
    if ms.len() == 0 {
        Seq::empty()
    } else {
        mems_v(ms.drop_last()).push(
            MemV { name: ms.last().name@, value: val_v(ms.last().value) },
        )
    }
}

/// The ghost mirror of an ordered value list.
pub open spec fn vals_v(vs: Seq<Value>) -> Seq<ValV>
    decreases vs,
    via vals_v_decreases
{
    if vs.len() == 0 {
        Seq::empty()
    } else {
        vals_v(vs.drop_last()).push(val_v(vs.last()))
    }
}

#[via_fn]
proof fn val_v_decreases(v: Value) {
    broadcast use vstd::std_specs::vec::axiom_vec_decreases_to_view;

    match v.value {
        Type::Struct { members } => {
            assert(decreases_to!(v => members));
        },
        Type::Array { data } => {
            assert(decreases_to!(v => data.values));
        },
        _ => {},
    }
}

#[via_fn]
proof fn mems_v_decreases(ms: Seq<Member>) {
    broadcast use vstd::seq::axiom_seq_index_decreases;
    broadcast use vstd::seq::axiom_seq_subrange_decreases;

    if ms.len() > 0 {
        assert(decreases_to!(ms => ms.subrange(0, ms.len() - 1)));
        assert(decreases_to!(ms => ms[ms.len() - 1]));
    }
}

#[via_fn]
proof fn vals_v_decreases(vs: Seq<Value>) {
    broadcast use vstd::seq::axiom_seq_index_decreases;
    broadcast use vstd::seq::axiom_seq_subrange_decreases;

    if vs.len() > 0 {
        assert(decreases_to!(vs => vs.subrange(0, vs.len() - 1)));
        assert(decreases_to!(vs => vs[vs.len() - 1]));
    }
}

/// The mirror of a list has one entry per member, in order.
pub proof fn lemma_mems_v(ms: Seq<Member>)
    ensures
        mems_v(ms).len() == ms.len(),
        forall|i: int|
            0 <= i < ms.len() ==> mems_v(ms)[i] == (MemV {
                name: ms[i].name@,
                value: val_v(ms[i].value),
            }),
    decreases ms.len(),
{
    if ms.len() > 0 {
        lemma_mems_v(ms.drop_last());
    }
}

/// The mirror of a list has one entry per element, in order.
pub proof fn lemma_vals_v(vs: Seq<Value>)
    ensures
        vals_v(vs).len() == vs.len(),
        forall|i: int| 0 <= i < vs.len() ==> vals_v(vs)[i] == val_v(vs[i]),
    decreases vs.len(),
{
    if vs.len() > 0 {
        lemma_vals_v(vs.drop_last());
    }
}

impl View for Value {
    type V = ValV;

    open spec fn view(&self) -> ValV {
        val_v(*self)
    }
}

impl View for Member {
    type V = MemV;

    open spec fn view(&self) -> MemV {
        MemV { name: self.name@, value: val_v(self.value) }
    }
}

impl View for Struct {
    type V = Seq<MemV>;

    open spec fn view(&self) -> Seq<MemV> {
        mems_v(self.members@)
    }
}

impl View for Array {
    type V = Seq<ValV>;

    open spec fn view(&self) -> Seq<ValV> {
        vals_v(self.data.values@)
    }
}

impl View for ArrayData {
    type V = Seq<ValV>;

    open spec fn view(&self) -> Seq<ValV> {
        vals_v(self.values@)
    }
}

impl View for Double {
    type V = Seq<char>;

    open spec fn view(&self) -> Seq<char> {
        self.text@
    }
}

/// Well-formedness of a mirrored value tree: the double and timestamp
/// payloads meet their grammars, recursively through structs and arrays.
pub open spec fn val_wf(v: ValV) -> bool
    decreases v,
{
    match v {
        ValV::Double(t) => is_double_text(t),
        ValV::DateTime(dt) => dt.wf(),
        ValV::Struct(ms) => forall|i: int| 0 <= i < ms.len() ==> val_wf((#[trigger] ms[i]).value),
        ValV::Array(es) => forall|i: int| 0 <= i < es.len() ==> val_wf(#[trigger] es[i]),
        _ => true,
    }
}

/// True of the digits `'0'` through `'9'`.
pub open spec fn is_digit_char(c: char) -> bool {
    c == '0' || c == '1' || c == '2' || c == '3' || c == '4' || c == '5' || c == '6' || c == '7'
        || c == '8' || c == '9'
}

/// True of a non-empty sequence made of decimal digits only.
pub open spec fn all_digits(s: Seq<char>) -> bool {
    s.len() > 0 && (forall|i: int| 0 <= i < s.len() ==> is_digit_char(s[i]))
}

/// One admissible split of a double's digit body at `dot`: either no
/// fraction at all, or digits on both sides of the dot.
pub open spec fn double_body_ok(body: Seq<char>, dot: int) -> bool {
    0 <= dot <= body.len() && (if dot == body.len() {
        all_digits(body)
    } else {
        body[dot] == '.' && all_digits(body.take(dot)) && all_digits(body.skip(dot + 1))
    })
}

/// The digit body of a double text: everything after the optional sign.
pub open spec fn double_body(s: Seq<char>) -> Seq<char> {
    if s.len() > 0 && s[0] == '-' {
        s.skip(1)
    } else {
        s
    }
}

/// The decimal grammar of a finite double: `-`? digits (`.` digits)?.
pub open spec fn is_double_text(s: Seq<char>) -> bool {
    exists|dot: int| #[trigger] double_body_ok(double_body(s), dot)
}

/// Days in a month of the proleptic Gregorian calendar.
pub open spec fn days_in_month(year: int, month: int) -> int {
    if month == 1 || month == 3 || month == 5 || month == 7 || month == 8 || month == 10 || month
        == 12 {
        31
    } else if month == 4 || month == 6 || month == 9 || month == 11 {
        30
    } else if year % 4 == 0 && (year % 100 != 0 || year % 400 == 0) {
        29
    } else {
        28
    }
}

impl DateTime {
    /// A valid calendar date within the four-digit year range, with a
    /// valid time of day.
    pub open spec fn wf(self) -> bool {
        &&& self.year <= 9999
        &&& 1 <= self.month <= 12
        &&& 1 <= self.day <= days_in_month(self.year as int, self.month as int)
        &&& self.hour < 24
        &&& self.minute < 60
        &&& self.second < 60
    }

    /// Builds a timestamp after checking calendar validity; rejects any
    /// field combination outside the wire-representable range.
    pub fn new(year: u16, month: u8, day: u8, hour: u8, minute: u8, second: u8) -> (r: Option<
        DateTime,
    >)
        ensures
            ({
                let dt = DateTime { year, month, day, hour, minute, second };
                if dt.wf() {
                    r == Some(dt)
                } else {
                    r is None
                }
            }),
    {
        let dt = DateTime { year, month, day, hour, minute, second };
        if year <= 9999 && 1 <= month && month <= 12 && 1 <= day && hour < 24 && minute < 60
            && second < 60 && day as u32 <= days_in_month_exec(year, month) {
            Some(dt)
        } else {
            None
        }
    }
}

/// Days in a month, executable counterpart of [`days_in_month`].
pub fn days_in_month_exec(year: u16, month: u8) -> (r: u32)
    ensures
        r == days_in_month(year as int, month as int),
{
    if month == 1 || month == 3 || month == 5 || month == 7 || month == 8 || month == 10 || month
        == 12 {
        31
    } else if month == 4 || month == 6 || month == 9 || month == 11 {
        30
    } else if year % 4 == 0 && (year % 100 != 0 || year % 400 == 0) {
        29
    } else {
        28
    }
}

impl Double {
    /// The carried text matches the finite-decimal grammar.
    pub open spec fn wf(self) -> bool {
        is_double_text(self.text@)
    }

    /// Accepts exactly the texts of the finite-decimal grammar
    /// (`-`? digits (`.` digits)?); everything else — notably the `NaN`
    /// and infinity spellings — is rejected as unrepresentable.
    pub fn from_text(text: &str) -> (r: Option<Double>)
        ensures
            match r {
                Some(d) => d@ == text@ && d.wf(),
                None => !is_double_text(text@),
            },
    {
        let chars = crate::text::str_to_chars(text);
        if is_double_text_exec(&chars) {
            Some(Double { text: text.to_owned() })
        } else {
            None
        }
    }

    /// Hands the decimal text back out.
    pub fn as_text(&self) -> (r: &str)
        ensures
            r@ == self@,
    {
        self.text.as_str()
    }
}

/// Checks the finite-decimal grammar over a character buffer.
pub fn is_double_text_exec(chars: &Vec<char>) -> (r: bool)
    ensures
        r == is_double_text(chars@),
{
    let ghost full = chars@;
    let start: usize = if chars.len() > 0 && chars[0] == '-' {
        1
    } else {
        0
    };
    let ghost body = double_body(full);
    assert(body =~= full.subrange(start as int, full.len() as int));
    // find the first dot, if any
    let mut dot: usize = chars.len();
    let mut i: usize = start;
    while i < chars.len()
        invariant
            start <= i <= chars.len(),
            dot == chars.len() || (start <= dot < i && full[dot as int] == '.' && (forall|j: int|
                start <= j < dot ==> full[j] != '.')),
            dot == chars.len() ==> (forall|j: int| start <= j < i ==> full[j] != '.'),
            full == chars@,
            start <= chars.len(),
        decreases chars.len() - i,
    {
        if chars[i] == '.' && dot == chars.len() {
            dot = i;
        }
        i += 1;
    }
    if dot == chars.len() {
        // no dot: the whole body must be digits
        let r = digits_only(chars, start, chars.len());
        assert(chars@.subrange(start as int, full.len() as int) == body);
        if r {
            assert(double_body_ok(body, body.len() as int));
            assert(is_double_text(full));
        } else {
            assert(!is_double_text(full)) by {
                assert forall|e: int| !double_body_ok(body, e) by {
                    if 0 <= e < body.len() {
                        assert(full[start + e] == body[e]);
                    }
                }
            }
        }
        r
    } else {
        let before = digits_only(chars, start, dot);
        let after = digits_only(chars, dot + 1, chars.len());
        let r = before && after;
        let ghost d = dot - start;
        assert(body[d as int] == '.') by {
            assert(full[dot as int] == body[d as int]);
        }
        assert(chars@.subrange(start as int, dot as int) =~= body.take(d as int));
        assert(chars@.subrange(dot as int + 1, full.len() as int) =~= body.skip(d as int + 1));
        if r {
            assert(double_body_ok(body, d as int));
            assert(is_double_text(full));
        } else {
            assert(!is_double_text(full)) by {
                assert forall|e: int| !double_body_ok(body, e) by {
                    if 0 <= e <= body.len() {
                        if e == body.len() {
                            assert(all_digits(body) ==> is_digit_char(body[d as int]));
                        } else if body[e] == '.' {
                            assert(full[start + e] == body[e]);
                            if e < d {
                                assert(start <= start + e < dot);
                                assert(false);
                            } else if e > d {
                                assert(all_digits(body.take(e)) ==> is_digit_char(
                                    body.take(e)[d as int]));
                            }
                        }
                    }
                }
            }
        }
        r
    }
}

/// True when `chars[from..to]` is a non-empty run of decimal digits.
fn digits_only(chars: &Vec<char>, from: usize, to: usize) -> (r: bool)
    requires
        from <= to <= chars@.len(),
    ensures
        r == all_digits(chars@.subrange(from as int, to as int)),
{
    let ghost range = chars@.subrange(from as int, to as int);
    if from == to {
        return false;
    }
    let mut i: usize = from;
    while i < to
        invariant
            from <= i <= to <= chars@.len(),
            forall|j: int| from <= j < i ==> is_digit_char(chars@[j]),
            range == chars@.subrange(from as int, to as int),
        decreases to - i,
    {
        let c = chars[i];
        let ok = c == '0' || c == '1' || c == '2' || c == '3' || c == '4' || c == '5' || c == '6'
            || c == '7' || c == '8' || c == '9';
        if !ok {
            assert(range[i - from] == chars@[i as int]);
            return false;
        }
        i += 1;
    }
    assert(forall|j: int| 0 <= j < range.len() ==> range[j] == chars@[from + j]);
    true
}

impl Value {
    /// The variant this value carries.
    pub open spec fn typ(self) -> Type {
        self.value
    }

    /// Structural well-formedness of the whole tree.
    pub open spec fn wf(self) -> bool {
        val_wf(self@)
    }

    /// Wraps a variant as a value.
    pub fn new(value: Type) -> (r: Value)
        ensures
            r == (Value { value }),
    {
        Value { value }
    }

    /// Reads the variant back out.
    pub fn inner(&self) -> (r: &Type)
        ensures
            r == self.value,
            val_v(Value { value: *r }) == self@,
    {
        &self.value
    }

    /// A 32-bit integer value (`<i4>`).
    pub fn i4(value: i32) -> (r: Value)
        ensures
            r@ == ValV::Integer(value),
    {
        Value::new(Type::Integer(value))
    }

    /// A 32-bit integer value, under the `int` tag alias of `i4`.
    pub fn integer(value: i32) -> (r: Value)
        ensures
            r@ == ValV::Integer(value),
    {
        Value::i4(value)
    }

    /// A 64-bit integer value (`<i8>`, extension).
    pub fn i8(value: i64) -> (r: Value)
        ensures
            r@ == ValV::Long(value),
    {
        Value::new(Type::Long(value))
    }

    /// A boolean value.
    pub fn boolean(value: bool) -> (r: Value)
        ensures
            r@ == ValV::Boolean(value),
    {
        Value::new(Type::Boolean(value))
    }

    /// A string value.
    pub fn string(value: String) -> (r: Value)
        ensures
            r@ == ValV::String(value@),
    {
        Value::new(Type::String(value))
    }

    /// A double value, carried as its finite-decimal text.
    pub fn double(value: Double) -> (r: Value)
        ensures
            r@ == ValV::Double(value@),
    {
        Value::new(Type::Double(value))
    }

    /// A whole-second timestamp value.
    pub fn datetime(value: DateTime) -> (r: Value)
        ensures
            r@ == ValV::DateTime(value),
    {
        Value::new(Type::DateTime(value))
    }

    /// A binary value, base64-encoded on the wire.
    pub fn base64(value: Vec<u8>) -> (r: Value)
        ensures
            r@ == ValV::Base64(value@),
    {
        Value::new(Type::Base64(value))
    }

    /// A struct value with the given ordered members.
    pub fn structure(value: Struct) -> (r: Value)
        ensures
            r@ == ValV::Struct(value@),
    {
        Value::new(Type::Struct { members: value.members })
    }

    /// An array value with the given ordered elements.
    pub fn array(value: Array) -> (r: Value)
        ensures
            r@ == ValV::Array(value@),
    {
        Value::new(Type::Array { data: value.data })
    }

    /// The nil value (extension): absence of a value.
    pub fn nil() -> (r: Value)
        ensures
            r@ == ValV::Nil,
    {
        Value::new(Type::Nil)
    }
}


impl Value {
    /// A deep copy whose mirror is the same value tree.
    pub fn duplicate(&self) -> (r: Value)
        ensures
            r@ == self@,
        decreases self,
    {
        match &self.value {
            Type::Integer(i) => Value::i4(*i),
            Type::Long(l) => Value::i8(*l),
            Type::Boolean(b) => Value::boolean(*b),
            Type::String(s) => Value::string(s.clone()),
            Type::Double(d) => Value::double(Double { text: d.text.clone() }),
            Type::DateTime(dt) => Value::datetime(*dt),
            Type::Base64(b) => {
                let mut copy: Vec<u8> = Vec::new();
                let mut i: usize = 0;
                while i < b.len()
                    invariant
                        i <= b@.len(),
                        copy@ == b@.take(i as int),
                    decreases b@.len() - i,
                {
                    copy.push(b[i]);
                    assert(copy@ =~= b@.take(i + 1));
                    i += 1;
                }
                assert(copy@ =~= b@);
                Value::base64(copy)
            },
            Type::Struct { members } => {
                let mut copy: Vec<Member> = Vec::new();
                let mut i: usize = 0;
                while i < members.len()
                    invariant
                        i <= members@.len(),
                        copy@.len() == i,
                        forall|k: int| 0 <= k < i ==> (#[trigger] copy@[k])@ == members@[k]@,
                        self.value == (Type::Struct { members: *members }),
                    decreases members@.len() - i,
                {
                    let m = &members[i];
                    proof {
                        broadcast use vstd::std_specs::vec::axiom_vec_decreases_to_view;
                        broadcast use vstd::seq::axiom_seq_index_decreases;

                        assert(self.value->Struct_members == *members);
                        assert(decreases_to!(self.value => self.value->Struct_members));
                        assert(decreases_to!(members@ => members@[i as int]));
                    }
                    let mv = m.value.duplicate();
                    copy.push(Member { name: m.name.clone(), value: mv });
                    i += 1;
                }
                proof {
                    lemma_mems_v(copy@);
                    lemma_mems_v(members@);
                    assert(mems_v(copy@) =~= mems_v(members@));
                }
                Value::new(Type::Struct { members: copy })
            },
            Type::Array { data } => {
                let values = &data.values;
                let mut copy: Vec<Value> = Vec::new();
                let mut i: usize = 0;
                while i < values.len()
                    invariant
                        i <= values@.len(),
                        copy@.len() == i,
                        forall|k: int| 0 <= k < i ==> (#[trigger] copy@[k])@ == values@[k]@,
                        self.value == (Type::Array { data: *data }),
                        values == data.values,
                    decreases values@.len() - i,
                {
                    proof {
                        broadcast use vstd::std_specs::vec::axiom_vec_decreases_to_view;
                        broadcast use vstd::seq::axiom_seq_index_decreases;

                        assert(self.value->Array_data == *data);
                        assert(decreases_to!(self.value => self.value->Array_data));
                        assert(decreases_to!(data.values@ => data.values@[i as int]));
                    }
                    let dv = values[i].duplicate();
                    copy.push(dv);
                    i += 1;
                }
                proof {
                    lemma_vals_v(copy@);
                    lemma_vals_v(values@);
                    assert(vals_v(copy@) =~= vals_v(values@));
                }
                Value::new(Type::Array { data: ArrayData { values: copy } })
            },
            Type::Nil => Value::nil(),
        }
    }
}

impl Member {
    /// Builds a named member.
    pub fn new(name: String, value: Value) -> (r: Member)
        ensures
            r@ == (MemV { name: name@, value: value@ }),
    {
        Member { name, value }
    }

    /// The member's name, as text.
    pub fn name(&self) -> (r: &str)
        ensures
            r@ == self@.name,
    {
        self.name.as_str()
    }

    /// The member's value, borrowed.
    pub fn value(&self) -> (r: &Value)
        ensures
            r@ == self@.value,
    {
        &self.value
    }
}

impl Struct {
    /// Builds a struct from its ordered member list.
    pub fn from_members(members: Vec<Member>) -> (r: Struct)
        ensures
            r@ == members@.map_values(|m: Member| m@),
    {
        let r = Struct { members };
        proof {
            lemma_mems_v(r.members@);
            assert(r@ =~= r.members@.map_values(|m: Member| m@));
        }
        r
    }
}

impl Array {
    /// Builds an array from its ordered element list.
    pub fn from_elements(values: Vec<Value>) -> (r: Array)
        ensures
            r@ == values@.map_values(|v: Value| v@),
    {
        let r = Array { data: ArrayData { values } };
        proof {
            lemma_vals_v(r.data.values@);
            assert(r@ =~= r.data.values@.map_values(|v: Value| v@));
        }
        r
    }
}

} // verus!
