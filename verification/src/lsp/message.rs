//! Request ids: the ones this client numbers its requests with, and the ones a server
//! numbers its own requests with.
use vstd::prelude::*;

use serde_json::Value;

use crate::lsp::value::{
    copy_of_value, json_member, json_signed, json_text, json_unsigned, json_written, member_of,
    member_text, parsed_json, signed_of_value, text_of_value, text_reads, unsigned_of_value,
    value_of_text, written_value,
};
use crate::json::{
    lemma_members_model_add, members_model, object_of, push_member, text_value, JsonModel,
    JsonValue,
};
use crate::text::{chars_of, decimal, decimal_text, push_str, string_of};

verus! {

/// The id of a request this client sends, counted from 1.
#[derive(Debug, Clone, Copy, PartialEq, Eq)]
pub struct RequestId(u64);

/// The id of a request the server sends: a number or a string, kept to be sent back as is.
#[derive(Debug, Clone, PartialEq, Eq)]
pub enum ServerRequestId {
    Number(i64),
    Text(String),
}

impl RequestId {
    pub closed spec fn view(&self) -> nat {
        self.0 as nat
    }

    /// The id of the first request: 1.
    pub fn first() -> (id: RequestId)
        ensures
            id@ == 1,
    {
        RequestId(1)
    }

    /// The id after this one, stopping at the largest.
    pub fn next(self) -> (id: RequestId)
        ensures
            id@ == if self@ == u64::MAX {
                self@
            } else {
                self@ + 1
            },
    {
        RequestId(self.0.saturating_add(1))
    }

    /// The number.
    pub fn number(self) -> (n: u64)
        ensures
            n == self@,
    {
        self.0
    }

    /// The number in decimal.
    pub fn text(self) -> (t: String)
        ensures
            t@ == decimal(self@),
    {
        decimal_text(self.0)
    }
}

/// A failure the server answered a request with.
#[derive(Debug, Clone, PartialEq, Eq)]
pub struct ResponseFailure {
    /// The JSON-RPC error code.
    pub code: i64,
    /// The server's account of it.
    pub message: String,
}

/// How the server answered a request: its result, or a failure. `P` is the JSON value the
/// result is held as.
#[derive(Debug, Clone, PartialEq)]
pub enum ResponseOutcome<P> {
    Success(P),
    Failure(ResponseFailure),
}

/// One message from the server. `P` is the JSON value a result or parameters are held as.
///
/// Only a response and a request carry an id; only a request and a notification carry a
/// method.
#[derive(Debug, Clone, PartialEq)]
pub enum ServerMessage<P> {
    /// The answer to one of this client's requests.
    Response { id: RequestId, outcome: ResponseOutcome<P> },
    /// A request from the server, to be answered under its own id.
    Request { id: ServerRequestId, method: String, params: Option<P> },
    /// A notification from the server; nothing is sent back.
    Notification { method: String, params: Option<P> },
}

/// Why a payload could not be read as a message.
#[derive(Debug)]
pub enum MessageError {
    /// Not JSON.
    NotJson(serde_json::Error),
    /// Neither an id nor a method: no response, request or notification.
    Unrecognized,
    /// A response's id is no number; this client numbers its requests.
    ResponseIdNotANumber { id: String },
    /// A request's id is neither a number nor a string; it cannot be sent back.
    RequestIdNotSupported { id: String },
    /// A response with neither a result nor an error.
    ResponseWithoutOutcome,
    /// A response's error without both its code and its message.
    MalformedResponseFailure,
}

/// What was read of an id: the number it holds as a `u64` and as an `i64` where it fits,
/// the text it holds if it is a string, and how it is written.
pub struct IdShape {
    pub unsigned: Option<u64>,
    pub signed: Option<i64>,
    pub text: Option<String>,
    pub written: String,
}

/// What was read of a response's error: its code and its message, where each is there and
/// of its kind.
pub struct ErrorShape {
    pub code: Option<i64>,
    pub message: Option<String>,
}

/// What was read of a message: its `id` member; its `method` where that is a string; its
/// `params`, `error` and `result` members (a `null` result is a result).
pub struct MessageShape<P> {
    pub id: Option<IdShape>,
    pub method: Option<String>,
    pub params: Option<P>,
    pub error: Option<ErrorShape>,
    pub result: Option<P>,
}

/// The id of a server's request as it can be sent back: a number, else a string.
pub open spec fn server_request_id(id: IdShape) -> Option<ServerRequestId> {
    match id.signed {
        Some(n) => Some(ServerRequestId::Number(n)),
        None => match id.text {
            Some(t) => Some(ServerRequestId::Text(t)),
            None => None,
        },
    }
}

/// How a response with the given id comes out: a failure where it has an error (which
/// must hold a code and a message), else its result (which must be there).
pub open spec fn response_reading<P>(id: u64, error: Option<ErrorShape>, result: Option<P>) -> Result<
    (u64, ResponseOutcome<P>),
    MessageError,
> {
    match error {
        Some(e) => match (e.code, e.message) {
            (Some(code), Some(message)) => Ok(
                (id, ResponseOutcome::Failure(ResponseFailure { code, message })),
            ),
            _ => Err(MessageError::MalformedResponseFailure),
        },
        None => match result {
            Some(r) => Ok((id, ResponseOutcome::Success(r))),
            None => Err(MessageError::ResponseWithoutOutcome),
        },
    }
}

/// Whether `result` is the message a shape is, as [`message_of_shape`] reads it.
pub open spec fn message_read<P>(shape: MessageShape<P>, result: Result<ServerMessage<P>, MessageError>) -> bool {
    &&& shape.id is None && shape.method is None ==> (result matches Err(MessageError::Unrecognized))
    &&& shape.id is None && shape.method is Some ==> result == Ok::<ServerMessage<P>, MessageError>(
        ServerMessage::Notification { method: shape.method->0, params: shape.params },
    )
    &&& shape.id is Some && shape.method is Some ==> match server_request_id(shape.id->0) {
        Some(id) => result == Ok::<ServerMessage<P>, MessageError>(
            ServerMessage::Request { id, method: shape.method->0, params: shape.params },
        ),
        None => (result matches Err(MessageError::RequestIdNotSupported { id }) && id
            == shape.id->0.written),
    }
    &&& shape.id is Some && shape.method is None ==> match shape.id->0.unsigned {
        None => (result matches Err(MessageError::ResponseIdNotANumber { id }) && id
            == shape.id->0.written),
        Some(n) => match response_reading(n, shape.error, shape.result) {
            Ok((number, outcome)) => (result matches Ok(ServerMessage::Response { id, outcome: o })
                && id@ == number && o == outcome),
            Err(MessageError::MalformedResponseFailure) => (result matches Err(
                MessageError::MalformedResponseFailure,
            )),
            Err(_) => (result matches Err(MessageError::ResponseWithoutOutcome)),
        },
    }
}

/// The message a shape is: an id without a method is a response (whose id must be a
/// number), an id with a method a request (whose id must be a number or a string), a
/// method alone a notification; neither is no message.
pub fn message_of_shape<P>(shape: MessageShape<P>) -> (result: Result<ServerMessage<P>, MessageError>)
    ensures
        message_read(shape, result),
        shape.id is None && shape.method is None ==> result matches Err(MessageError::Unrecognized),
        shape.id is None && shape.method is Some ==> result == Ok::<ServerMessage<P>, MessageError>(
            ServerMessage::Notification { method: shape.method->0, params: shape.params },
        ),
        shape.id is Some && shape.method is Some ==> match server_request_id(shape.id->0) {
            Some(id) => result == Ok::<ServerMessage<P>, MessageError>(
                ServerMessage::Request { id, method: shape.method->0, params: shape.params },
            ),
            None => result matches Err(MessageError::RequestIdNotSupported { id }) && id
                == shape.id->0.written,
        },
        shape.id is Some && shape.method is None ==> match shape.id->0.unsigned {
            None => result matches Err(MessageError::ResponseIdNotANumber { id }) && id
                == shape.id->0.written,
            Some(n) => match response_reading(n, shape.error, shape.result) {
                Ok((number, outcome)) => result matches Ok(ServerMessage::Response { id, outcome: o })
                    && id@ == number && o == outcome,
                Err(MessageError::MalformedResponseFailure) => result matches Err(
                    MessageError::MalformedResponseFailure,
                ),
                Err(_) => result matches Err(MessageError::ResponseWithoutOutcome),
            },
        },
{
    match (shape.id, shape.method) {
        (None, None) => Err(MessageError::Unrecognized),
        (None, Some(method)) => Ok(ServerMessage::Notification { method, params: shape.params }),
        (Some(id), Some(method)) => {
            let server_id = match id.signed {
                Some(n) => ServerRequestId::Number(n),
                None => match id.text {
                    Some(t) => ServerRequestId::Text(t),
                    None => {
                        return Err(MessageError::RequestIdNotSupported { id: id.written });
                    },
                },
            };
            Ok(ServerMessage::Request { id: server_id, method, params: shape.params })
        },
        (Some(id), None) => {
            let number = match id.unsigned {
                Some(n) => n,
                None => {
                    return Err(MessageError::ResponseIdNotANumber { id: id.written });
                },
            };
            let outcome = match shape.error {
                Some(error) => match (error.code, error.message) {
                    (Some(code), Some(message)) => ResponseOutcome::Failure(
                        ResponseFailure { code, message },
                    ),
                    _ => {
                        return Err(MessageError::MalformedResponseFailure);
                    },
                },
                None => match shape.result {
                    Some(r) => ResponseOutcome::Success(r),
                    None => {
                        return Err(MessageError::ResponseWithoutOutcome);
                    },
                },
            };
            Ok(ServerMessage::Response { id: RequestId(number), outcome })
        },
    }
}

/// Whether an id shape is what a JSON id reads as: its `u64` and `i64` numbers, its text,
/// and how it is written.
pub open spec fn id_shape_reads(shape: IdShape, id: Value) -> bool {
    &&& shape.unsigned == json_unsigned(id)
    &&& shape.signed == json_signed(id)
    &&& text_reads(shape.text, json_text(id))
    &&& shape.written@ == json_written(id)
}

/// Whether a message shape is what a JSON message reads as: its `id` member read as an id;
/// its `method` member's text; its `params` member; its `error` member's `code` as an
/// `i64` and `message` text; its `result` member.
pub open spec fn shape_reads(shape: MessageShape<Value>, message: Value) -> bool {
    &&& match json_member(message, "id"@) {
        Some(id) => (shape.id matches Some(s) && id_shape_reads(s, id)),
        None => shape.id is None,
    }
    &&& text_reads(shape.method, member_text(message, "method"@))
    &&& shape.params == json_member(message, "params"@)
    &&& match json_member(message, "error"@) {
        Some(error) => (shape.error matches Some(e) && e.code == match json_member(error, "code"@) {
            Some(code) => json_signed(code),
            None => None,
        } && text_reads(e.message, member_text(error, "message"@))),
        None => shape.error is None,
    }
    &&& shape.result == json_member(message, "result"@)
}

/// What a JSON value's id reads as.
fn id_shape_of(id: &Value) -> (shape: IdShape)
    ensures
        id_shape_reads(shape, *id),
{
    IdShape {
        unsigned: unsigned_of_value(id),
        signed: signed_of_value(id),
        text: text_of_value(id),
        written: written_value(id),
    }
}

/// What a JSON message reads as: its members, each read as [`MessageShape`] says.
pub fn shape_of(message: &Value) -> (shape: MessageShape<Value>)
    ensures
        shape_reads(shape, *message),
{
    let id = match member_of(message, "id") {
        Some(id) => Some(id_shape_of(id)),
        None => None,
    };
    let method = match member_of(message, "method") {
        Some(method) => text_of_value(method),
        None => None,
    };
    let params = match member_of(message, "params") {
        Some(params) => Some(copy_of_value(params)),
        None => None,
    };
    let error = match member_of(message, "error") {
        Some(error) => {
            let code = match member_of(error, "code") {
                Some(code) => signed_of_value(code),
                None => None,
            };
            let text = match member_of(error, "message") {
                Some(text) => text_of_value(text),
                None => None,
            };
            Some(ErrorShape { code, message: text })
        },
        None => None,
    };
    let result = match member_of(message, "result") {
        Some(result) => Some(copy_of_value(result)),
        None => None,
    };
    MessageShape { id, method, params, error, result }
}

impl ServerMessage<Value> {
    /// Reads a payload as a message: JSON first, then its members as [`shape_of`] reads
    /// them, then [`message_of_shape`].
    ///
    /// # Errors
    ///
    /// Not JSON; otherwise as [`message_of_shape`] says.
    pub fn from_json(payload: &str) -> (result: Result<ServerMessage<Value>, MessageError>)
        ensures
            parsed_json(payload@) is None ==> result matches Err(MessageError::NotJson(_)),
            parsed_json(payload@) is Some ==> exists|shape: MessageShape<Value>|
                #[trigger] shape_reads(shape, parsed_json(payload@)->Some_0) && message_read(
                    shape,
                    result,
                ),
    {
        let message = match value_of_text(payload) {
            Ok(message) => message,
            Err(cause) => {
                return Err(MessageError::NotJson(cause));
            },
        };
        let shape = shape_of(&message);
        let ghost read = shape;
        let result = message_of_shape(shape);
        assert(shape_reads(read, parsed_json(payload@)->Some_0) && message_read(read, result));
        result
    }
}

/// The error code of a method this client does not support (JSON-RPC's method not found).
pub const METHOD_NOT_FOUND: i64 = -32601;

/// The version member every message carries.
pub open spec fn version_member() -> (Seq<char>, JsonModel) {
    ("jsonrpc"@, JsonModel::Text("2.0"@))
}

/// The parameters member, where there are parameters; none at all otherwise (a `null`
/// would reach a server as something other than no parameters).
pub open spec fn params_members(has_params: bool) -> Seq<(Seq<char>, JsonModel)> {
    if has_params {
        seq![("params"@, JsonModel::Embedded)]
    } else {
        seq![]
    }
}

/// A request: the version, the id, the method, and the parameters where there are any.
pub open spec fn request_model(id: nat, method: Seq<char>, has_params: bool) -> JsonModel {
    JsonModel::Object(
        seq![
            version_member(),
            ("id"@, JsonModel::Natural(id)),
            ("method"@, JsonModel::Text(method)),
        ] + params_members(has_params),
    )
}

/// A notification: as a request, without an id (which would have the server answer it).
pub open spec fn notification_model(method: Seq<char>, has_params: bool) -> JsonModel {
    JsonModel::Object(
        seq![version_member(), ("method"@, JsonModel::Text(method))] + params_members(has_params),
    )
}

/// A server's id, sent back as it came: a number as a number, a string as a string.
pub open spec fn server_id_model(id: ServerRequestId) -> JsonModel {
    match id {
        ServerRequestId::Number(n) => JsonModel::Integer(n as int),
        ServerRequestId::Text(t) => JsonModel::Text(t@),
    }
}

/// The answer `null` to a server's request.
pub open spec fn null_result_model(id: ServerRequestId) -> JsonModel {
    JsonModel::Object(
        seq![version_member(), ("id"@, server_id_model(id)), ("result"@, JsonModel::Null)],
    )
}

/// The sentence a refusal of `method` carries.
pub open spec fn unsupported_text(method: Seq<char>) -> Seq<char> {
    "dryguard は "@ + method + " を支えていません"@
}

/// The answer "method not found" to a server's request for `method`.
pub open spec fn method_not_found_model(id: ServerRequestId, method: Seq<char>) -> JsonModel {
    JsonModel::Object(
        seq![
            version_member(),
            ("id"@, server_id_model(id)),
            (
                "error"@,
                JsonModel::Object(
                    seq![
                        ("code"@, JsonModel::Integer(METHOD_NOT_FOUND as int)),
                        ("message"@, JsonModel::Text(unsupported_text(method))),
                    ],
                ),
            ),
        ],
    )
}

/// Puts the version member first.
fn with_version() -> (members: Vec<(String, JsonValue)>)
    ensures
        members_model(members@) == seq![version_member()],
{
    let mut members: Vec<(String, JsonValue)> = Vec::new();
    proof {
        lemma_members_model_add(members@, members@);
    }
    push_member(&mut members, "jsonrpc", text_value("2.0"));
    assert(members_model(members@) =~= seq![version_member()]);
    members
}

/// Puts the parameters last, where there are any.
fn push_params(members: &mut Vec<(String, JsonValue)>, params: Option<Value>)
    ensures
        members_model(final(members)@) == members_model(old(members)@) + params_members(
            params is Some,
        ),
        final(members)@.len() == old(members)@.len() + (if params is Some { 1int } else { 0int }),
        final(members)@.take(old(members)@.len() as int) == old(members)@,
        params matches Some(p) ==> final(members)@.last().1 == JsonValue::Embedded(p),
{
    match params {
        Some(p) => {
            push_member(members, "params", JsonValue::Embedded(p));
            assert(members_model(members@) =~= members_model(old(members)@) + params_members(true));
        },
        None => {
            assert(members_model(members@) =~= members_model(old(members)@) + params_members(false));
            assert(members@.take(old(members)@.len() as int) =~= old(members)@);
        },
    }
}

/// The payload of a request that is answered: its id, its method, and its parameters where
/// there are any, the parameters carried as they are.
pub fn request_payload_of(id: RequestId, method: &str, params: Option<Value>) -> (payload: JsonValue)
    ensures
        payload.model() == request_model(id@, method@, params is Some),
        params matches Some(p) ==> (payload matches JsonValue::Object(members) && members@.last().1
            == JsonValue::Embedded(p)),
{
    let mut members = with_version();
    push_member(&mut members, "id", JsonValue::Natural(id.number()));
    push_member(&mut members, "method", text_value(method));
    let ghost head = members_model(members@);
    assert(head =~= seq![
        version_member(),
        ("id"@, JsonModel::Natural(id@)),
        ("method"@, JsonModel::Text(method@)),
    ]);
    push_params(&mut members, params);
    let payload = object_of(members);
    payload
}

/// The payload of a notification: its method, and its parameters where there are any; no
/// id, so that the server answers nothing.
pub fn notification_payload_of(method: &str, params: Option<Value>) -> (payload: JsonValue)
    ensures
        payload.model() == notification_model(method@, params is Some),
        params matches Some(p) ==> (payload matches JsonValue::Object(members) && members@.last().1
            == JsonValue::Embedded(p)),
{
    let mut members = with_version();
    push_member(&mut members, "method", text_value(method));
    let ghost head = members_model(members@);
    assert(head =~= seq![version_member(), ("method"@, JsonModel::Text(method@))]);
    push_params(&mut members, params);
    let payload = object_of(members);
    payload
}

/// A server's id as it goes back.
fn server_id_value_of(id: &ServerRequestId) -> (value: JsonValue)
    ensures
        value.model() == server_id_model(*id),
{
    match id {
        ServerRequestId::Number(n) => JsonValue::Integer(*n),
        ServerRequestId::Text(t) => text_value(t.as_str()),
    }
}

/// The payload that answers a server's request with `null`: it was received, and there is
/// nothing to return (as for a request to create a progress token).
pub fn null_result_payload_of(id: &ServerRequestId) -> (payload: JsonValue)
    ensures
        payload.model() == null_result_model(*id),
{
    let mut members = with_version();
    push_member(&mut members, "id", server_id_value_of(id));
    push_member(&mut members, "result", JsonValue::Null);
    let payload = object_of(members);
    assert(payload.model()->Object_0 =~= null_result_model(*id)->Object_0);
    payload
}

/// The payload that refuses a server's request for a method this client does not support,
/// rather than leave the server waiting for an answer.
pub fn method_not_found_payload_of(id: &ServerRequestId, method: &str) -> (payload: JsonValue)
    ensures
        payload.model() == method_not_found_model(*id, method@),
{
    let mut message = chars_of("dryguard は ");
    push_str(&mut message, method);
    push_str(&mut message, " を支えていません");
    let mut error: Vec<(String, JsonValue)> = Vec::new();
    proof {
        lemma_members_model_add(error@, error@);
    }
    push_member(&mut error, "code", JsonValue::Integer(METHOD_NOT_FOUND));
    push_member(&mut error, "message", JsonValue::Text(string_of(&message)));
    let error = object_of(error);
    assert(error.model()->Object_0 =~= method_not_found_model(*id, method@)->Object_0[2].1->Object_0);
    let mut members = with_version();
    push_member(&mut members, "id", server_id_value_of(id));
    push_member(&mut members, "error", error);
    let payload = object_of(members);
    assert(payload.model()->Object_0 =~= method_not_found_model(*id, method@)->Object_0);
    payload
}

} // verus!
