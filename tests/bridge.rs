use oneclient_core::bridge::{
    base64_to_bytes, bytes_to_base64, bytes_to_utf8, record_to_urlencoded, utf8_to_bytes,
    BridgeError,
};
use oneclient_core::events::{metrics_message, Event, EventLevel, VecEventBuffer};
use oneclient_core::json::encode_json;
use oneclient_core::json::key_path_exec;
use oneclient_core::lifecycle::{transition, EngineState, LifecycleAction, LifecycleError, LifecycleEvent};
use oneclient_core::mock::{mock_perform, MockOutcome};
use oneclient_core::perform::PerformExceptionErrorCode;
use oneclient_core::value::HostValue;

fn s(x: &str) -> String {
    x.to_string()
}

fn strings(xs: &[&str]) -> HostValue {
    HostValue::Array(xs.iter().map(|x| HostValue::String(s(x))).collect())
}

#[test]
fn utf8_round_trip() {
    for text in ["", "hello", "žluťoučký kůň", "😀 a"] {
        let bytes = utf8_to_bytes(text);
        assert_eq!(bytes, text.as_bytes().to_vec());
        assert_eq!(bytes_to_utf8(&bytes).unwrap(), text);
    }
}

#[test]
fn utf8_invalid_bytes() {
    match bytes_to_utf8(&[0xff, 0x61]) {
        Err(BridgeError::Type(m)) => assert!(m.starts_with("Could not decode bytes at UTF-8: ")),
        Ok(_) => panic!("expected an error"),
    }
}

#[test]
fn base64_round_trip() {
    assert_eq!(bytes_to_base64(b"hello").unwrap(), "aGVsbG8=");
    for bytes in [vec![], vec![0u8], vec![1, 2, 3, 4, 5], (0..=255u8).collect::<Vec<u8>>()] {
        let text = bytes_to_base64(&bytes).unwrap();
        assert_eq!(base64_to_bytes(&text).unwrap(), bytes);
    }
}

#[test]
fn base64_invalid_input() {
    match base64_to_bytes("a$==") {
        Err(BridgeError::Type(m)) => assert!(m.starts_with("Could not decode string as base64: ")),
        Ok(_) => panic!("expected an error"),
    }
}

#[test]
fn urlencoded_keeps_order() {
    let record = HostValue::Object(vec![
        (s("b"), strings(&["1", "2"])),
        (s("a"), strings(&["x y", "é&="])),
        (s("empty"), strings(&[])),
    ]);
    assert_eq!(
        record_to_urlencoded(&record).unwrap(),
        "b=1&b=2&a=x+y&a=%C3%A9%26%3D"
    );
}

#[test]
fn urlencoded_rejects_non_strings() {
    let record = HostValue::Object(vec![(s("a"), HostValue::Array(vec![HostValue::Bool(true)]))]);
    assert_eq!(
        record_to_urlencoded(&record).unwrap_err(),
        BridgeError::Type(s("Values must be string arrays"))
    );
    let record = HostValue::Object(vec![(s("a"), HostValue::String(s("x")))]);
    assert!(record_to_urlencoded(&record).is_err());
}

#[test]
fn key_paths() {
    assert_eq!(key_path_exec(&s("/a//b/")), vec![s("a"), s("b")]);
    assert_eq!(key_path_exec(&s("a/b")), vec![s("a/b")]);
    assert_eq!(key_path_exec(&s("/")), Vec::<String>::new());
}

#[test]
fn lifecycle_admissible_sequence() {
    let mut state = EngineState::Uninitialized;
    for (event, action) in [
        (LifecycleEvent::Setup, LifecycleAction::Initialize),
        (LifecycleEvent::Perform, LifecycleAction::RunPerform),
        (LifecycleEvent::SendMetrics, LifecycleAction::RunSendMetrics),
        (LifecycleEvent::Perform, LifecycleAction::RunPerform),
        (LifecycleEvent::Teardown, LifecycleAction::Release),
    ] {
        let (next, a) = transition(state, event);
        assert_eq!(a, action);
        state = next;
    }
    assert_eq!(state, EngineState::TornDown);
}

#[test]
fn lifecycle_deviations_rejected() {
    assert_eq!(
        transition(EngineState::Uninitialized, LifecycleEvent::Perform).1,
        LifecycleAction::Reject(LifecycleError::NotReady)
    );
    assert_eq!(
        transition(EngineState::Ready, LifecycleEvent::Setup).1,
        LifecycleAction::Reject(LifecycleError::AlreadySetup)
    );
    assert_eq!(
        transition(EngineState::TornDown, LifecycleEvent::Teardown).1,
        LifecycleAction::Reject(LifecycleError::NotSetupOrTornDown)
    );
    assert_eq!(
        transition(EngineState::Uninitialized, LifecycleEvent::Teardown).1,
        LifecycleAction::Reject(LifecycleError::NotSetupOrTornDown)
    );
    assert_eq!(LifecycleError::AlreadySetup.message(), "Already setup");
}

#[test]
fn mock_panic_then_teardown_dumps() {
    assert_eq!(mock_perform(&s("CORE_PERFORM_PANIC")), MockOutcome::Panic);
    let (state, _) = transition(EngineState::Ready, LifecycleEvent::PerformPanicked);
    assert_eq!(state, EngineState::Poisoned);
    let (state, action) = transition(state, LifecycleEvent::Teardown);
    assert_eq!(state, EngineState::TornDown);
    assert_eq!(action, LifecycleAction::DumpDeveloperBuffer);
}

#[test]
fn mock_other_usecases() {
    assert_eq!(mock_perform(&s("CORE_PERFORM_TRUE")), MockOutcome::Result(HostValue::Bool(true)));
    match mock_perform(&s("CORE_PERFORM_INPUT_VALIDATION_ERROR")) {
        MockOutcome::Exception(e) => {
            assert_eq!(e.error_code, PerformExceptionErrorCode::InputValidationError);
            assert_eq!(e.message, "Test validation error");
        }
        _ => panic!("expected an exception"),
    }
    assert_eq!(mock_perform(&s("OTHER")), MockOutcome::UnknownUsecase);
}

#[test]
fn event_buffer_drains_in_order() {
    let mut buffer = VecEventBuffer::new();
    buffer.append(Event { target: s("@user"), level: EventLevel::Info, fields: vec![(s("a"), s("1"))] });
    buffer.append(Event { target: s("metrics"), level: EventLevel::Debug, fields: vec![] });
    assert_eq!(buffer.len(), 2);
    assert_eq!(buffer.events()[0].target, "@user");
    let drained = buffer.drain();
    assert_eq!(drained.len(), 2);
    assert_eq!(drained[0].target, "@user");
    assert_eq!(drained[1].target, "metrics");
    assert_eq!(buffer.len(), 0);
}

#[test]
fn metrics_message_shape() {
    let m = metrics_message(Event {
        target: s("@metrics"),
        level: EventLevel::Info,
        fields: vec![(s("a"), s("1")), (s("b"), s("2"))],
    });
    assert_eq!(
        encode_json(&m).unwrap(),
        br#"{"kind":"metrics-send","target":"@metrics","fields":{"a":"1","b":"2"}}"#.to_vec()
    );
}
