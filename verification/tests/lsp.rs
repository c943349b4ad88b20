use dryguard::lsp::framing::{framed_bytes_of, payload_of, ByteStream, FramingError};
use dryguard::lsp::hover::{outcome_of_markup, HoverOutcome, SignatureText};
use dryguard::lsp::message::RequestId;
use dryguard::lsp::ServerCommand;

fn read_payload(framed: &str) -> Result<String, FramingError> {
    payload_of(&mut ByteStream::new(framed.as_bytes()))
}

#[test]
fn test_framed_bytes_of_a_payload_counts_bytes_not_characters() {
    let framed = framed_bytes_of(r#"{"a":"あ"}"#);

    assert_eq!(
        String::from_utf8(framed).expect("UTF-8"),
        "Content-Length: 11\r\n\r\n{\"a\":\"あ\"}"
    );
}

#[test]
fn test_payload_of_a_framed_message_returns_the_body() {
    let payload = read_payload("Content-Length: 7\r\n\r\n{\"a\":1}").expect("a frame");

    assert_eq!(payload, r#"{"a":1}"#);
}

#[test]
fn test_payload_of_skips_headers_other_than_content_length() {
    let framed = "Content-Length: 7\r\nContent-Type: application/vscode-jsonrpc\r\n\r\n{\"a\":1}";

    assert_eq!(read_payload(framed).expect("a frame"), r#"{"a":1}"#);
}

#[test]
fn test_payload_of_accepts_a_content_length_header_in_any_case() {
    let payload = read_payload("content-length: 7\r\n\r\n{\"a\":1}").expect("a frame");

    assert_eq!(payload, r#"{"a":1}"#);
}

#[test]
fn test_payload_of_called_twice_returns_the_second_frame() {
    let framed = "Content-Length: 7\r\n\r\n{\"a\":1}Content-Length: 7\r\n\r\n{\"b\":2}";
    let mut reader = ByteStream::new(framed.as_bytes());

    payload_of(&mut reader).expect("the first frame");

    assert_eq!(payload_of(&mut reader).expect("the second frame"), r#"{"b":2}"#);
}

#[test]
fn test_payload_of_at_the_end_of_input_reports_the_server_closed() {
    let error = read_payload("").expect_err("no frame");

    assert!(matches!(error, FramingError::ServerClosed));
}

#[test]
fn test_payload_of_with_headers_cut_off_reports_a_truncated_frame() {
    let error = read_payload("Content-Length: 7\r\n").expect_err("no frame");

    assert!(matches!(error, FramingError::TruncatedFrame));
}

#[test]
fn test_payload_of_with_a_body_shorter_than_content_length_reports_a_truncated_frame() {
    let error = read_payload("Content-Length: 7\r\n\r\n{\"a\"").expect_err("no frame");

    assert!(matches!(error, FramingError::TruncatedFrame));
}

#[test]
fn test_payload_of_without_content_length_reports_it_missing() {
    let framed = "Content-Type: application/vscode-jsonrpc\r\n\r\n{\"a\":1}";

    let error = read_payload(framed).expect_err("no frame");

    assert!(matches!(error, FramingError::MissingContentLength));
}

#[test]
fn test_payload_of_with_a_non_numeric_content_length_reports_it_malformed() {
    let error = read_payload("Content-Length: seven\r\n\r\n{\"a\":1}").expect_err("no frame");

    assert!(matches!(
        error,
        FramingError::MalformedContentLength { value } if value == "seven"
    ));
}

#[test]
fn test_payload_of_with_a_non_utf8_body_reports_it() {
    let mut framed = b"Content-Length: 2\r\n\r\n".to_vec();
    framed.extend_from_slice(&[0xff, 0xfe]);

    let error = payload_of(&mut ByteStream::new(&framed)).expect_err("no frame");

    assert!(matches!(error, FramingError::NotUtf8));
}

#[test]
fn test_payload_of_a_framed_payload_gives_the_payload_back() {
    for payload in ["", "{}", r#"{"jsonrpc":"2.0","id":1,"result":"日本"}"#] {
        let mut reader = ByteStream::new(&framed_bytes_of(payload));
        assert_eq!(payload_of(&mut reader).expect("a frame"), payload);
        assert!(matches!(payload_of(&mut reader), Err(FramingError::ServerClosed)));
    }
}

#[test]
fn test_payload_of_with_a_header_that_is_not_utf8_reports_it() {
    let mut framed = b"X-Note: ".to_vec();
    framed.extend_from_slice(&[0xff, b'\r', b'\n']);
    framed.extend_from_slice(b"Content-Length: 2\r\n\r\n{}");

    let error = payload_of(&mut ByteStream::new(&framed)).expect_err("no frame");

    assert!(matches!(error, FramingError::UnreadableHeader));
}

#[test]
fn test_payload_of_uses_the_last_content_length_header() {
    let payload = read_payload("Content-Length: 1\r\nContent-Length: 2\r\n\r\n{}").expect("a frame");

    assert_eq!(payload, "{}");
}

#[test]
fn test_signature_text_of_a_spelling_that_is_only_whitespace_cannot_be_made() {
    assert_eq!(SignatureText::new("   ".to_owned()), None);
}

#[test]
fn test_signature_text_of_a_spelling_padded_with_whitespace_keeps_the_padding() {
    let padded = SignatureText::new("  function decl(): void  ".to_owned());

    assert_eq!(
        padded.map(|text| text.as_str().to_owned()),
        Some("  function decl(): void  ".to_owned())
    );
}

#[test]
fn test_hover_outcome_of_a_fenced_signature_is_the_signature() {
    let outcome = outcome_of_markup(Some("```typescript\nfunction decl(a: string): number\n```"));

    assert_eq!(
        outcome,
        HoverOutcome::Answered(
            SignatureText::new("function decl(a: string): number".to_owned()).expect("a signature")
        )
    );
}

#[test]
fn test_hover_outcome_keeps_every_line_inside_the_fence() {
    let outcome = outcome_of_markup(Some("text\n  ```ts\nfunction f(\n  a: A,\n): B\n```\nmore"));

    assert_eq!(
        outcome,
        HoverOutcome::Answered(SignatureText::new("function f(\n  a: A,\n): B".to_owned()).expect("a signature"))
    );
}

#[test]
fn test_hover_outcome_of_a_fence_holding_only_a_blank_line_is_not_read() {
    assert_eq!(outcome_of_markup(Some("```typescript\n\n```")), HoverOutcome::Unreadable);
}

#[test]
fn test_hover_outcome_without_a_fence_is_unreadable() {
    assert_eq!(outcome_of_markup(Some("function decl(): void")), HoverOutcome::Unreadable);
    assert_eq!(outcome_of_markup(None), HoverOutcome::Unreadable);
}

#[test]
fn test_request_id_next_advances_by_one() {
    assert_eq!(RequestId::first().next().number(), 2);
}

#[test]
fn test_request_id_next_stops_at_the_largest() {
    let mut id = RequestId::first();
    for _ in 0..3 {
        id = id.next();
    }
    assert_eq!(id.number(), 4);
    assert_eq!(id.text(), "4");
}

#[test]
fn test_server_command_for_typescript_speaks_over_stdio() {
    let command = ServerCommand::typescript();

    assert_eq!(command.program(), "typescript-language-server");
    assert_eq!(command.args(), &vec!["--stdio".to_owned()]);
}
