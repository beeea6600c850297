//! The parts of an HTTP request that the server reads, and the responses it
//! builds, as plain values.
use vstd::prelude::*;
use vstd::utf8::encode_utf8;
use crate::text::concat;

verus! {

/// The methods that the server tells apart.
#[derive(Debug, Clone, Copy, PartialEq, Eq)]
pub enum RequestMethod {
    Get,
    Post,
    Other,
}

/// What the server reads of a request before its body.
#[derive(Debug, Clone)]
pub struct RequestHead {
    pub method: RequestMethod,
    /// The path of the request's URI (`/dir/file.txt`).
    pub path: String,
    /// The first `Authorization` header, as raw bytes.
    pub authorization: Option<Vec<u8>>,
    /// The first `Content-Type` header, as raw bytes.
    pub content_type: Option<Vec<u8>>,
}

/// Status codes the server answers with.
pub const STATUS_OK: u16 = 200;
pub const STATUS_CREATED: u16 = 201;
pub const STATUS_BAD_REQUEST: u16 = 400;
pub const STATUS_UNAUTHORIZED: u16 = 401;
pub const STATUS_FORBIDDEN: u16 = 403;
pub const STATUS_NOT_FOUND: u16 = 404;
pub const STATUS_INTERNAL_SERVER_ERROR: u16 = 500;

/// A complete response: status, `Content-Type`, an optional `Content-Length`
/// and the body.
#[derive(Debug, Clone)]
pub struct SimpleResponse {
    pub status: u16,
    pub content_type: String,
    pub content_length: Option<usize>,
    pub body: Vec<u8>,
}

/// Calls `<mime::Mime as ToString>::to_string` on `mime::TEXT_PLAIN`, which the
/// `mime` crate defines as `text/plain`; the contract says that text.
#[verifier::external_body]
pub(crate) fn text_plain_mime() -> (r: String)
    ensures
        r@ == "text/plain"@,
{
    mime_guess::mime::TEXT_PLAIN.to_string()
}

/// Calls `<mime::Mime as ToString>::to_string` on `mime::TEXT_HTML`, which the
/// `mime` crate defines as `text/html`; the contract says that text.
#[verifier::external_body]
pub(crate) fn text_html_mime() -> (r: String)
    ensures
        r@ == "text/html"@,
{
    mime_guess::mime::TEXT_HTML.to_string()
}

/// The bytes of a string.
pub fn string_bytes(s: &str) -> (r: Vec<u8>)
    ensures
        r@ == encode_utf8(s@),
{
    s.as_bytes_vec()
}

/// The plain-text response that carries `message` with the given status.
pub open spec fn is_simple_response(r: SimpleResponse, message: Seq<char>, status: u16) -> bool {
    &&& r.status == status
    &&& r.content_type@ == "text/plain"@
    &&& r.body@ == encode_utf8(message)
    &&& r.content_length == Some(r.body@.len() as usize)
}

/// A plain-text response with the given message and status.
pub fn construct_simple_response(message: String, status: u16) -> (r: SimpleResponse)
    ensures
        is_simple_response(r, message@, status),
{
    let body = string_bytes(message.as_str());
    let length = body.len();
    SimpleResponse { status, content_type: text_plain_mime(), content_length: Some(length), body }
}

/// The message of a refused authorization.
pub open spec fn unauthorized_message(endpoint: Seq<char>) -> Seq<char> {
    "You are not authorized to access "@ + endpoint
}

/// The response to a request whose password is wrong or missing.
pub fn construct_invalid_password_response(endpoint: &str) -> (r: SimpleResponse)
    ensures
        is_simple_response(r, unauthorized_message(endpoint@), STATUS_UNAUTHORIZED),
{
    construct_simple_response(
        concat("You are not authorized to access ", endpoint),
        STATUS_UNAUTHORIZED,
    )
}

/// The message for a resource that is not found.
pub open spec fn not_found_message(endpoint: Seq<char>) -> Seq<char> {
    endpoint + " Not Found"@
}

/// The response for a resource that is not found.
pub fn construct_not_found_response(endpoint: &str) -> (r: SimpleResponse)
    ensures
        is_simple_response(r, not_found_message(endpoint@), STATUS_NOT_FOUND),
{
    construct_simple_response(concat(endpoint, " Not Found"), STATUS_NOT_FOUND)
}

/// A plain-text response: the given status, `text/plain`, the message's
/// UTF-8 bytes as the body, and the body's length as the content length.
pub proof fn lemma_simple_response_exactly(r: SimpleResponse, message: Seq<char>, status: u16)
    ensures
        is_simple_response(r, message, status) <==> (r.status == status && r.content_type@
            == "text/plain"@ && r.body@ == encode_utf8(message) && r.content_length == Some(
            encode_utf8(message).len() as usize,
        )),
{
}

} // verus!
