use oneclient_core::json::{decode_json, encode_json};
use oneclient_core::perform::{
    perform_input, perform_input_request, perform_output, perform_output_exception,
    perform_output_result, PerformException, PerformExceptionErrorCode, PerformOutput,
};
use oneclient_core::value::HostValue;

fn s(x: &str) -> String {
    x.to_string()
}

fn obj(entries: Vec<(&str, HostValue)>) -> HostValue {
    HostValue::Object(entries.into_iter().map(|(k, v)| (s(k), v)).collect())
}

fn string(x: &str) -> HostValue {
    HostValue::String(s(x))
}

#[test]
fn test_message_in_perform_input() {
    let actual = perform_input_request();
    assert_eq!(actual, obj(vec![("kind", string("perform-input"))]));
    assert_eq!(
        encode_json(&actual).unwrap(),
        br#"{"kind":"perform-input"}"#.to_vec()
    );
}

#[test]
fn test_message_out_perform_input() {
    let actual = obj(vec![
        ("kind", string("ok")),
        ("profile_url", string("quz")),
        ("map_url", string("foo")),
        ("usecase", string("bar")),
        ("map_input", HostValue::Bool(true)),
        ("map_vars", HostValue::Null),
        ("map_secrets", obj(vec![("TOKEN", string("banana"))])),
    ]);

    let input = perform_input(&actual).unwrap();
    assert_eq!(input.profile_url, "quz");
    assert_eq!(input.map_url, "foo");
    assert_eq!(input.usecase, "bar");
    assert_eq!(input.map_input, HostValue::Bool(true));
    assert_eq!(input.map_vars, HostValue::Null);
    assert_eq!(input.map_secrets, obj(vec![("TOKEN", string("banana"))]));
}

#[test]
fn test_message_in_perform_output() {
    let actual = perform_output(PerformOutput { map_result: Ok(string("hello")) });

    assert_eq!(
        actual,
        obj(vec![
            ("kind", string("perform-output")),
            ("map_result", obj(vec![("Ok", string("hello"))])),
        ])
    );
    assert_eq!(
        encode_json(&actual).unwrap(),
        br#"{"kind":"perform-output","map_result":{"Ok":"hello"}}"#.to_vec()
    );
}

#[test]
fn test_message_out_perform_output() {
    let actual = obj(vec![("kind", string("ok"))]);
    assert!(perform_output_result(&actual).is_ok());
}

#[test]
fn perform_output_error_value() {
    let actual = perform_output(PerformOutput { map_result: Err(HostValue::Bool(false)) });
    assert_eq!(
        encode_json(&actual).unwrap(),
        br#"{"kind":"perform-output","map_result":{"Err":false}}"#.to_vec()
    );
}

#[test]
fn perform_input_err_answer() {
    let answer = obj(vec![("kind", string("err")), ("error", string("boom"))]);
    let e = perform_input(&answer).unwrap_err();
    assert_eq!(
        e.error_code,
        PerformExceptionErrorCode::PerformInputError
    );
    assert_eq!(e.message, "perform-input error: boom");
}

#[test]
fn perform_input_missing_field() {
    let answer = obj(vec![("kind", string("ok")), ("profile_url", string("quz"))]);
    assert!(perform_input(&answer).is_err());
}

#[test]
fn perform_output_err_answer() {
    let answer = obj(vec![("kind", string("err")), ("error", string("nope"))]);
    let e = perform_output_result(&answer).unwrap_err();
    assert_eq!(e.message, "perform-output error: nope");
}

#[test]
fn json_round_trip_keeps_order() {
    let v = obj(vec![
        ("z", HostValue::Number(serde_json::Number::from(3))),
        ("a", HostValue::Array(vec![HostValue::Null, HostValue::Bool(true), string("x\"y")])),
        ("m", obj(vec![("k2", string("v")), ("k1", HostValue::Number(serde_json::Number::from(-7)))])),
    ]);
    let text = encode_json(&v).unwrap();
    assert_eq!(
        text,
        br#"{"z":3,"a":[null,true,"x\"y"],"m":{"k2":"v","k1":-7}}"#.to_vec()
    );
    assert_eq!(decode_json(&text).unwrap(), v);
}

#[test]
fn json_decode_rejects_bad_text() {
    assert!(decode_json(b"{\"a\":").is_err());
}

#[test]
fn perform_output_exception_message() {
    let m = perform_output_exception(PerformException {
        error_code: PerformExceptionErrorCode::CoreNotReady,
        message: s("no core"),
    });
    assert_eq!(
        encode_json(&m).unwrap(),
        br#"{"kind":"perform-output-exception","exception":{"error_code":"CoreNotReady","message":"no core"}}"#.to_vec()
    );
}

#[test]
fn json_repeated_key_keeps_first_place_last_value() {
    let v = obj(vec![("a", string("1")), ("b", string("2")), ("a", string("3"))]);
    assert_eq!(encode_json(&v).unwrap(), br#"{"a":"3","b":"2"}"#.to_vec());
}
