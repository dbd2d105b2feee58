//! End-to-end call flows over an in-memory transport: the adder and
//! echo servers of the protocol, arity and type mismatches, and
//! shutdown as a distinct outcome.

use dxr::convert::FromDXR;
use dxr::convert::FromParams;
use dxr::convert::ToDXR;
use dxr::convert::ToParams;
use dxr::encode::fault_to_xml;
use dxr::encode::response_to_xml;
use dxr::error::Error;
use dxr::error::Fault;
use dxr::rpc::Call;
use dxr::rpc::MethodResponse;
use dxr::rpc::interpret_response;
use dxr::rpc::parse_response;
use dxr::server::Dispatch;
use dxr::server::ServeEvent;
use dxr::server::ServeOutcome;
use dxr::server::dispatch_request;
use dxr::server::fault_from_error;
use dxr::server::serve_step;
use dxr::values::Value;

/// The add server: two integers in, their sum out.
fn add_handler(params: &[Value]) -> Result<Value, Fault> {
    let (a, b): (i32, i32) = match FromParams::from_params(params) {
        Ok(p) => p,
        Err(e) => return Err(fault_from_error(&e)),
    };
    Ok((a + b).to_dxr().unwrap())
}

/// The echo server: every parameter back as one array value.
fn echo_handler(params: &[Value]) -> Result<Value, Fault> {
    let elems: Vec<Value> = params.iter().map(|p| p.duplicate()).collect();
    Ok(Value::array(dxr::values::Array::from_elements(elems)))
}

/// One round trip through the wire: serialize the call, dispatch it,
/// run the handler, serialize the response, parse it back.
fn transport<P: ToParams>(methods: &Vec<String>, call: &Call<P>) -> MethodResponse {
    let request = call.as_xml().unwrap();
    let response_text = match dispatch_request(methods, request.as_str()) {
        Dispatch::Found { index, params } => {
            let outcome = if index == 0 {
                add_handler(&params)
            } else {
                echo_handler(&params)
            };
            match outcome {
                Ok(v) => response_to_xml(&v),
                Err(f) => fault_to_xml(&f),
            }
        }
        Dispatch::NotFound { fault } => fault_to_xml(&fault),
        Dispatch::Malformed { fault } => fault_to_xml(&fault),
    };
    parse_response(response_text.as_str()).unwrap()
}

fn registry() -> Vec<String> {
    vec![String::from("add"), String::from("echo")]
}

#[test]
fn adder() {
    let methods = registry();

    // add with tuple params
    let (a, b) = (2i32, 3i32);
    let call = Call::new(String::from("add"), (a, b));
    let resp = transport(&methods, &call);
    let r: Result<i32, Error> = interpret_response(resp);
    assert_eq!(r.unwrap(), a + b);

    // add with vec params
    let call = Call::new(String::from("add"), vec![2i32, 3i32]);
    let resp = transport(&methods, &call);
    let r: Result<i32, Error> = interpret_response(resp);
    assert_eq!(r.unwrap(), 5);

    // argument number mismatch surfaces as a server fault
    let call = Call::new(String::from("add"), (2i32, 3i32, 4i32));
    let resp = transport(&methods, &call);
    let r: Result<i32, Error> = interpret_response(resp);
    assert!(r.unwrap_err().is_server_fault());

    // argument type mismatch surfaces as a server fault
    let call = Call::new(String::from("add"), (String::from("12"), String::from("24")));
    let resp = transport(&methods, &call);
    let r: Result<i32, Error> = interpret_response(resp);
    assert!(r.unwrap_err().is_server_fault());

    // unknown method name gets the reserved fault code
    let call = Call::new(String::from("subtract"), (2i32, 3i32));
    let resp = transport(&methods, &call);
    let r: Result<i32, Error> = interpret_response(resp);
    let err = r.unwrap_err();
    assert!(err.is_server_fault());
    match err.fault() {
        Some(f) => assert_eq!(f.code, dxr::server::METHOD_NOT_FOUND),
        None => unreachable!(),
    }
}

#[test]
fn echo() {
    let methods = registry();

    // a single integer comes back exactly
    let call = Call::new(String::from("echo"), (42i32,));
    let resp = transport(&methods, &call);
    let r: Result<Vec<i32>, Error> = interpret_response(resp);
    assert_eq!(r.unwrap(), vec![42]);

    // strings survive the double escape-unescape
    let call = Call::new(String::from("echo"), (String::from("HELLO WORLD"),));
    let resp = transport(&methods, &call);
    let r: Result<Vec<String>, Error> = interpret_response(resp);
    assert_eq!(r.unwrap(), vec![String::from("HELLO WORLD")]);

    // bytes round trip through base64
    let call = Call::new(String::from("echo"), (Value::base64(b"HELLOWORLD".to_vec()),));
    let resp = transport(&methods, &call);
    let r: Result<Vec<Value>, Error> = interpret_response(resp);
    assert_eq!(r.unwrap(), vec![Value::base64(b"HELLOWORLD".to_vec())]);

    // options: None travels as nil, Some as its payload
    let call = Call::new(String::from("echo"), (Some(42i32), Option::<i32>::None));
    let resp = transport(&methods, &call);
    let r: Result<Vec<Option<i32>>, Error> = interpret_response(resp);
    assert_eq!(r.unwrap(), vec![Some(42), None]);

    // wrong expected return type is a wrong-type client error
    let call = Call::new(String::from("echo"), (-12i32,));
    let resp = transport(&methods, &call);
    let r: Result<Vec<String>, Error> = interpret_response(resp);
    assert!(r.unwrap_err().is_wrong_type());
}

#[test]
fn echo_many_calls_no_crosstalk() {
    // each call gets exactly the value it sent, over many requests
    let methods = registry();
    let mut i = 0i32;
    while i < 50 {
        let call = Call::new(String::from("echo"), (i, i + 1));
        let resp = transport(&methods, &call);
        let r: Result<Vec<i32>, Error> = interpret_response(resp);
        assert_eq!(r.unwrap(), vec![i, i + 1]);
        i += 1;
    }
}

#[test]
fn arity_is_checked_before_elements() {
    // a short list is a count error even when its elements are bad
    let vals = vec![Value::string(String::from("not a number"))];
    let r: Result<(i32, i32), dxr::error::DxrError> = FromParams::from_params(&vals);
    match r.unwrap_err() {
        dxr::error::DxrError::ParameterMismatch { argument, expected } => {
            assert_eq!(argument, 1);
            assert_eq!(expected, 2);
        }
        _ => panic!("expected a parameter-count error"),
    }
}

#[test]
fn type_mismatch_is_wrong_type() {
    let vals = vec![Value::string(String::from("12")), Value::string(String::from("24"))];
    let r: Result<(i32, i32), dxr::error::DxrError> = FromParams::from_params(&vals);
    assert!(matches!(r.unwrap_err(), dxr::error::DxrError::WrongType { .. }));
}

#[test]
fn shutdown_is_cancelled_not_failure() {
    let methods = registry();
    let stopped = serve_step(&methods, ServeEvent::Shutdown);
    match stopped {
        Err(outcome) => {
            assert!(outcome.is_cancelled());
            assert_eq!(outcome, ServeOutcome::Cancelled);
            assert_ne!(outcome, ServeOutcome::Closed);
        }
        Ok(_) => panic!("shutdown must stop the loop"),
    }
    // an ordinary request keeps the loop running
    let call = Call::new(String::from("add"), (1i32, 2i32));
    let req = call.as_xml().unwrap();
    assert!(serve_step(&methods, ServeEvent::Request(req)).is_ok());
}

#[test]
fn response_documents_parse_back() {
    let ok = response_to_xml(&Value::i4(9));
    assert_eq!(parse_response(ok.as_str()).unwrap(), MethodResponse::Success(Value::i4(9)));
    let f = Fault::new(-32601, String::from("requested method not found"));
    let fx = fault_to_xml(&f);
    match parse_response(fx.as_str()).unwrap() {
        MethodResponse::Fault(g) => {
            assert_eq!(g.code, -32601);
            assert_eq!(g.message, String::from("requested method not found"));
        }
        MethodResponse::Success(_) => panic!("fault document must parse as a fault"),
    }
}

/// A native record with one member per field, in declaration order.
#[derive(Clone, Debug, PartialEq)]
struct TestStruct {
    integer: i32,
    long: i64,
    string: String,
    double: dxr::values::Double,
    list: Vec<dxr::values::Double>,
    option: Option<i32>,
}

fn test_struct_to_value(s: &TestStruct) -> Result<Value, dxr::error::DxrError> {
    {
        let value = s;
        let mut members = Vec::new();
        members.push(dxr::values::Member::new(String::from("integer"), value.integer.to_dxr()?));
        members.push(dxr::values::Member::new(String::from("long"), value.long.to_dxr()?));
        members.push(dxr::values::Member::new(String::from("string"), value.string.to_dxr()?));
        members.push(dxr::values::Member::new(String::from("double"), value.double.to_dxr()?));
        members.push(dxr::values::Member::new(String::from("list"), value.list.to_dxr()?));
        members.push(dxr::values::Member::new(String::from("option"), value.option.to_dxr()?));
        Ok(Value::structure(dxr::values::Struct::from_members(members)))
    }
}

fn member_value(v: &Value, name: &str) -> Value {
    match v.inner() {
        dxr::values::Type::Struct { members } => {
            for m in members {
                if m.name() == name {
                    return m.value().duplicate();
                }
            }
            panic!("missing member");
        }
        _ => panic!("not a struct"),
    }
}

fn test_struct_from_value(value: &Value) -> Result<TestStruct, dxr::error::DxrError> {
    {
        let list = Vec::<dxr::values::Double>::from_dxr(&member_value(value, "list"))?;
        Ok(TestStruct {
            integer: i32::from_dxr(&member_value(value, "integer"))?,
            long: i64::from_dxr(&member_value(value, "long"))?,
            string: String::from_dxr(&member_value(value, "string"))?,
            double: dxr::values::Double::from_dxr(&member_value(value, "double"))?,
            list,
            option: Option::<i32>::from_dxr(&member_value(value, "option"))?,
        })
    }
}

#[test]
fn struct_round_trip() {
    let value = TestStruct {
        integer: 21,
        long: 42,
        string: String::from("HELLO WORLD!"),
        double: dxr::values::Double::from_text("2.5").unwrap(),
        list: vec![
            dxr::values::Double::from_text("1.5").unwrap(),
            dxr::values::Double::from_text("2.5").unwrap(),
        ],
        option: Some(-21),
    };
    let wire = test_struct_to_value(&value).unwrap();
    let back = test_struct_from_value(&wire).unwrap();
    assert_eq!(back, value);
    // and through the full codec as well
    let text = dxr::encode::value_to_xml(&wire);
    let decoded = dxr::rpc::decode_value(text.as_str()).unwrap();
    let again = test_struct_from_value(&decoded).unwrap();
    assert_eq!(again, value);
}
