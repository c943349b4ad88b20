use serde_json::Value;

use dryguard::json::JsonValue;
use dryguard::lsp::message::{
    message_of_shape, method_not_found_payload_of, notification_payload_of,
    null_result_payload_of, request_payload_of, IdShape, MessageError, MessageShape, RequestId,
    ResponseFailure, ResponseOutcome, ServerMessage, ServerRequestId,
};

/// The JSON a payload is written as.
fn printed(value: &JsonValue) -> Value {
    match value {
        JsonValue::Null => Value::Null,
        JsonValue::Bool(b) => Value::Bool(*b),
        JsonValue::Natural(n) => Value::from(*n),
        JsonValue::Integer(n) => Value::from(*n),
        JsonValue::Ratio { numerator, denominator } => {
            Value::from(*numerator as f64 / *denominator as f64)
        }
        JsonValue::Text(text) => Value::from(text.as_str()),
        JsonValue::Array(items) => Value::Array(items.iter().map(printed).collect()),
        JsonValue::Object(members) => {
            let mut map = serde_json::Map::new();
            for (key, member) in members {
                map.insert(key.clone(), printed(member));
            }
            Value::Object(map)
        }
        JsonValue::Embedded(embedded) => embedded.clone(),
    }
}

/// The payload as written, read back.
fn parsed(payload: &JsonValue) -> Value {
    serde_json::from_str(&printed(payload).to_string()).expect("the payload is JSON")
}

fn value(text: &str) -> Value {
    serde_json::from_str(text).expect("the text is JSON")
}

#[test]
fn test_request_payload_of_carries_the_id_method_and_params() {
    let payload = request_payload_of(RequestId::first(), "initialize", Some(value(r#"{"a": 1}"#)));

    assert_eq!(
        parsed(&payload),
        value(r#"{"jsonrpc": "2.0", "id": 1, "method": "initialize", "params": {"a": 1}}"#)
    );
}

#[test]
fn test_request_payload_of_without_params_omits_the_key() {
    let payload = request_payload_of(RequestId::first(), "shutdown", None);

    assert_eq!(
        parsed(&payload),
        value(r#"{"jsonrpc": "2.0", "id": 1, "method": "shutdown"}"#)
    );
}

#[test]
fn test_notification_payload_of_carries_no_id() {
    let payload = notification_payload_of("exit", None);

    assert_eq!(parsed(&payload), value(r#"{"jsonrpc": "2.0", "method": "exit"}"#));
}

#[test]
fn test_notification_payload_of_carries_its_params() {
    let payload = notification_payload_of("initialized", Some(value("{}")));

    assert_eq!(
        parsed(&payload),
        value(r#"{"jsonrpc": "2.0", "method": "initialized", "params": {}}"#)
    );
}

#[test]
fn test_server_message_from_a_response_with_a_result_is_a_success() {
    let message = ServerMessage::from_json(r#"{"jsonrpc":"2.0","id":1,"result":{"a":1}}"#)
        .expect("the message reads");

    assert_eq!(
        message,
        ServerMessage::Response {
            id: RequestId::first(),
            outcome: ResponseOutcome::Success(value(r#"{"a": 1}"#)),
        }
    );
}

#[test]
fn test_server_message_from_a_response_with_a_null_result_is_a_success() {
    let message = ServerMessage::from_json(r#"{"jsonrpc":"2.0","id":1,"result":null}"#)
        .expect("the message reads");

    assert_eq!(
        message,
        ServerMessage::Response {
            id: RequestId::first(),
            outcome: ResponseOutcome::Success(Value::Null),
        }
    );
}

#[test]
fn test_server_message_from_a_response_with_an_error_is_a_failure() {
    let payload = r#"{"jsonrpc":"2.0","id":1,"error":{"code":-32601,"message":"unknown"}}"#;

    let message = ServerMessage::from_json(payload).expect("the message reads");

    assert_eq!(
        message,
        ServerMessage::Response {
            id: RequestId::first(),
            outcome: ResponseOutcome::Failure(ResponseFailure {
                code: -32601,
                message: "unknown".to_owned(),
            }),
        }
    );
}

#[test]
fn test_server_message_without_an_id_is_a_notification() {
    let payload = r#"{"jsonrpc":"2.0","method":"window/logMessage","params":{"type":3}}"#;

    let message = ServerMessage::from_json(payload).expect("the message reads");

    assert_eq!(
        message,
        ServerMessage::Notification {
            method: "window/logMessage".to_owned(),
            params: Some(value(r#"{"type": 3}"#)),
        }
    );
}

#[test]
fn test_server_message_from_a_notification_keeps_the_params_it_carries() {
    let payload =
        r#"{"jsonrpc":"2.0","method":"$/progress","params":{"token":"tk","value":{"kind":"end"}}}"#;

    let message = ServerMessage::from_json(payload).expect("the message reads");

    assert_eq!(
        message,
        ServerMessage::Notification {
            method: "$/progress".to_owned(),
            params: Some(value(r#"{"token": "tk", "value": {"kind": "end"}}"#)),
        }
    );
}

#[test]
fn test_server_message_with_an_id_and_a_method_is_a_request() {
    let payload = r#"{"jsonrpc":"2.0","id":7,"method":"client/registerCapability"}"#;

    let message = ServerMessage::from_json(payload).expect("the message reads");

    assert_eq!(
        message,
        ServerMessage::Request {
            id: ServerRequestId::Number(7),
            method: "client/registerCapability".to_owned(),
            params: None,
        }
    );
}

#[test]
fn test_server_message_from_a_request_with_a_string_id_keeps_it_as_text() {
    let payload = r#"{"jsonrpc":"2.0","id":"req-1","method":"window/showMessageRequest"}"#;

    let message = ServerMessage::from_json(payload).expect("the message reads");

    assert_eq!(
        message,
        ServerMessage::Request {
            id: ServerRequestId::Text("req-1".to_owned()),
            method: "window/showMessageRequest".to_owned(),
            params: None,
        }
    );
}

#[test]
fn test_server_message_from_a_request_with_an_id_that_cannot_be_echoed_reports_it() {
    let payload = r#"{"jsonrpc":"2.0","id":[1],"method":"window/showMessageRequest"}"#;

    let error = ServerMessage::from_json(payload).expect_err("the message does not read");

    assert!(matches!(error, MessageError::RequestIdNotSupported { .. }));
}

#[test]
fn test_null_result_payload_of_answers_with_the_id_it_was_given() {
    let payload = null_result_payload_of(&ServerRequestId::Text("tk-1".to_owned()));

    let message = parsed(&payload);
    assert_eq!(message["id"], Value::from("tk-1"));
    assert_eq!(message["result"], Value::Null);
}

#[test]
fn test_method_not_found_payload_of_answers_with_the_id_it_was_given() {
    let payload =
        method_not_found_payload_of(&ServerRequestId::Number(7), "window/showMessageRequest");

    let answer = parsed(&payload);
    assert_eq!(answer["id"], Value::from(7));
    assert_eq!(answer["error"]["code"], Value::from(-32601));
}

#[test]
fn test_method_not_found_payload_of_keeps_a_string_id_as_a_string() {
    let payload =
        method_not_found_payload_of(&ServerRequestId::Text("req-1".to_owned()), "any/method");

    assert_eq!(parsed(&payload)["id"], Value::from("req-1"));
}

#[test]
fn test_method_not_found_payload_of_names_the_method_it_refuses() {
    let payload = method_not_found_payload_of(&ServerRequestId::Number(3), "any/method");

    assert_eq!(
        parsed(&payload)["error"]["message"],
        Value::from("dryguard は any/method を支えていません")
    );
}

#[test]
fn test_server_message_from_a_non_json_payload_reports_it() {
    let error = ServerMessage::from_json("not json").expect_err("the message does not read");

    assert!(matches!(error, MessageError::NotJson(_)));
}

#[test]
fn test_server_message_without_an_id_or_a_method_is_unrecognized() {
    let error =
        ServerMessage::from_json(r#"{"jsonrpc":"2.0"}"#).expect_err("the message does not read");

    assert!(matches!(error, MessageError::Unrecognized));
}

#[test]
fn test_server_message_from_a_response_without_a_result_or_an_error_reports_it() {
    let error = ServerMessage::from_json(r#"{"jsonrpc":"2.0","id":1}"#)
        .expect_err("the message does not read");

    assert!(matches!(error, MessageError::ResponseWithoutOutcome));
}

#[test]
fn test_server_message_from_a_response_with_a_string_id_reports_it() {
    let payload = r#"{"jsonrpc":"2.0","id":"seven","result":null}"#;

    let error = ServerMessage::from_json(payload).expect_err("the message does not read");

    assert!(matches!(
        error,
        MessageError::ResponseIdNotANumber { id } if id == "\"seven\""
    ));
}

#[test]
fn test_server_message_from_a_response_with_an_error_missing_its_code_reports_it() {
    let payload = r#"{"jsonrpc":"2.0","id":1,"error":{"message":"unknown"}}"#;

    let error = ServerMessage::from_json(payload).expect_err("the message does not read");

    assert!(matches!(error, MessageError::MalformedResponseFailure));
}

#[test]
fn test_message_of_shape_checks_the_id_of_a_response_before_its_outcome() {
    let shape: MessageShape<u8> = MessageShape {
        id: Some(IdShape {
            unsigned: None,
            signed: Some(-1),
            text: None,
            written: "-1".to_owned(),
        }),
        method: None,
        params: None,
        error: None,
        result: None,
    };

    assert!(matches!(
        message_of_shape(shape),
        Err(MessageError::ResponseIdNotANumber { id }) if id == "-1"
    ));
}
