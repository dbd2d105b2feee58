//! Wire-codec round trips: every value variant encodes to the exact
//! XML-RPC text and decodes back to an equal value.

use dxr::rpc::decode_value;
use dxr::encode::value_to_xml;
use dxr::values::Array;
use dxr::values::DateTime;
use dxr::values::Double;
use dxr::values::Member;
use dxr::values::Struct;
use dxr::values::Value;

fn roundtrip(v: &Value) -> Value {
    let text = value_to_xml(v);
    decode_value(text.as_str()).expect("decode of own encoding")
}

#[test]
fn integer_roundtrip() {
    let v = Value::i4(42);
    assert_eq!(value_to_xml(&v), "<value><i4>42</i4></value>");
    assert_eq!(roundtrip(&v), Value::i4(42));
    let n = Value::i4(-2147483648);
    assert_eq!(value_to_xml(&n), "<value><i4>-2147483648</i4></value>");
    assert_eq!(roundtrip(&n), Value::i4(-2147483648));
}

#[test]
fn long_roundtrip() {
    let v = Value::i8(9223372036854775807);
    assert_eq!(value_to_xml(&v), "<value><i8>9223372036854775807</i8></value>");
    assert_eq!(roundtrip(&v), Value::i8(9223372036854775807));
}

#[test]
fn boolean_encoding_is_numeric() {
    assert_eq!(value_to_xml(&Value::boolean(true)), "<value><boolean>1</boolean></value>");
    assert_eq!(value_to_xml(&Value::boolean(false)), "<value><boolean>0</boolean></value>");
    assert_eq!(roundtrip(&Value::boolean(true)), Value::boolean(true));
    assert_eq!(roundtrip(&Value::boolean(false)), Value::boolean(false));
    // the textual forms are tolerated on decode
    let t = decode_value("<value><boolean>true</boolean></value>").unwrap();
    assert_eq!(t, Value::boolean(true));
    let f = decode_value("<value><boolean>false</boolean></value>").unwrap();
    assert_eq!(f, Value::boolean(false));
}

#[test]
fn string_escaping_roundtrip() {
    let v = Value::string(String::from("a < b & c > \"d\" 'e'"));
    let text = value_to_xml(&v);
    assert_eq!(
        text,
        "<value><string>a &lt; b &amp; c &gt; &quot;d&quot; &apos;e&apos;</string></value>"
    );
    assert_eq!(roundtrip(&v), v);
}

#[test]
fn double_roundtrip() {
    let d = Double::from_text("2.5").unwrap();
    let v = Value::double(d);
    assert_eq!(value_to_xml(&v), "<value><double>2.5</double></value>");
    assert_eq!(roundtrip(&v), v);
    // non-finite spellings are unrepresentable, not encoded
    assert!(Double::from_text("NaN").is_none());
    assert!(Double::from_text("inf").is_none());
    assert!(Double::from_text("").is_none());
    assert!(Double::from_text("1.").is_none());
    assert!(Double::from_text("-0.5").is_some());
}

#[test]
fn datetime_roundtrip() {
    let dt = DateTime::new(2024, 2, 29, 23, 59, 58).unwrap();
    let v = Value::datetime(dt);
    assert_eq!(
        value_to_xml(&v),
        "<value><dateTime.iso8601>20240229T23:59:58</dateTime.iso8601></value>"
    );
    assert_eq!(roundtrip(&v), v);
    // an invalid calendar date never becomes a value
    assert!(DateTime::new(2023, 2, 29, 0, 0, 0).is_none());
    assert!(DateTime::new(2023, 13, 1, 0, 0, 0).is_none());
}

#[test]
fn base64_roundtrip() {
    let v = Value::base64(b"HELLOWORLD".to_vec());
    assert_eq!(value_to_xml(&v), "<value><base64>SEVMTE9XT1JMRA==</base64></value>");
    assert_eq!(roundtrip(&v), v);
    let short = Value::base64(vec![1]);
    assert_eq!(roundtrip(&short), short);
    let two = Value::base64(vec![1, 2]);
    assert_eq!(roundtrip(&two), two);
    let empty = Value::base64(vec![]);
    assert_eq!(roundtrip(&empty), empty);
}

#[test]
fn nil_roundtrip() {
    let v = Value::nil();
    assert_eq!(value_to_xml(&v), "<value><nil/></value>");
    assert_eq!(roundtrip(&v), v);
}

#[test]
fn struct_and_array_roundtrip() {
    let inner = Value::array(Array::from_elements(vec![Value::i4(1), Value::string(
        String::from("two"),
    )]));
    let v = Value::structure(Struct::from_members(vec![
        Member::new(String::from("alpha"), Value::i4(-7)),
        Member::new(String::from("alpha"), Value::boolean(true)),
        Member::new(String::from("list"), inner),
    ]));
    assert_eq!(roundtrip(&v), v);
    // duplicate member names pass through the codec untouched
    let text = value_to_xml(&v);
    assert_eq!(text.matches("<name>alpha</name>").count(), 2);
}

#[test]
fn whitespace_and_int_alias_tolerated() {
    let v = decode_value(" <value> <int>7</int> </value> ").unwrap();
    assert_eq!(v, Value::i4(7));
    let w = decode_value("<?xml version=\"1.0\"?>\n<value><i4>7</i4></value>").unwrap();
    assert_eq!(w, Value::i4(7));
    let ws_b64 = decode_value("<value><base64>SEVM\nTE9X\nT1JMRA==</base64></value>").unwrap();
    assert_eq!(ws_b64, Value::base64(b"HELLOWORLD".to_vec()));
}

#[test]
fn malformed_documents_are_rejected() {
    assert!(decode_value("<value><i4>12wrong</i4></value>").is_err());
    assert!(decode_value("<value><i4>2147483648</i4></value>").is_err());
    assert!(decode_value("<value><unknown>1</unknown></value>").is_err());
    assert!(decode_value("<value><boolean>2</boolean></value>").is_err());
    assert!(decode_value("<value><dateTime.iso8601>20230229T00:00:00</dateTime.iso8601></value>")
        .is_err());
    assert!(decode_value("<value><double>1.2.3</double></value>").is_err());
    assert!(decode_value("<value><string>a &unknown; b</string></value>").is_err());
    assert!(decode_value("<value><i4>1</i4></value>junk").is_err());
    assert!(decode_value("<value>").is_err());
}
