use vstd::prelude::*;

verus! {

/// Port that the demo server listens on unless told otherwise.
pub const DEFAULT_SERVER_PORT: u16 = 8080;

/// Number of demo nodes that the server exposes.
pub const NODES_COUNT: u32 = 16;

/// A greeting message.
#[derive(Debug, Clone)]
pub struct HelloMessage {
    pub message: String,
}

/// A request to greet someone by name.
#[derive(Debug, Clone)]
pub struct HelloRequest {
    pub name: String,
}

/// The answer to a hello request.
#[derive(Debug, Clone)]
pub struct HelloResponse {
    pub message: String,
}

/// The runtime that served a request.
#[derive(Debug, Clone, Copy, PartialEq, Eq, Structural)]
pub enum RuntimeKind {
    Tokio,
    Compio,
}

/// Separates failures to execute a request from failures reported by the API.
#[derive(Debug)]
pub enum HelloError<T> {
    /// The request could not be carried out.
    Transport(T),
    /// The server answered with this non-success HTTP status code.
    Api(u16),
    /// The server answered with success but the body is not a hello response.
    Protocol(String),
}

/// Whether an HTTP status code reports success (2xx).
pub open spec fn is_success_status(status: u16) -> bool {
    200 <= status <= 299
}

/// Classifies the answer to a hello request: a non-success status is an API
/// error, whatever the body; on success, a body that could not be decoded is
/// a protocol error, with the decoder's message.
pub fn hello_reply<T>(status: u16, body: Result<HelloResponse, String>) -> (reply: Result<
    HelloResponse,
    HelloError<T>,
>)
    ensures
        !is_success_status(status) ==> (reply matches Err(HelloError::Api(code)) && code == status),
        is_success_status(status) && body is Ok ==> (reply matches Ok(response) && response
            == body->Ok_0),
        is_success_status(status) && body is Err ==> (reply matches Err(
            HelloError::Protocol(message),
        ) && message == body->Err_0),
{
    if status < 200 || status > 299 {
        return Err(HelloError::Api(status));
    }
    match body {
        Ok(response) => Ok(response),
        Err(message) => Err(HelloError::Protocol(message)),
    }
}

} // verus!
