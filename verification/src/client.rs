//! The client value and what surrounds one query: the URL it is posted
//! to, the encoded request body, and the decoding of the reply body.
//!
//! The HTTPS POST itself is outside the library: the embedding program
//! builds the URL and body with the functions here, performs the
//! transport, and hands the reply body back to `decode_api_response`.

use vstd::prelude::*;

use crate::json::DecodeError;
use crate::lang::Language;
use crate::structure::decode_response_text;
use crate::structure::{ApiEvent, ApiQuery, ApiQueryV, ApiRequest, ApiResponse};

verus! {

/// Base URL the client uses when none is given.
pub const DEFAULT_BASE_URL: &'static str = "https://api.api.ai/v1";

/// Protocol version the client asks for when none is given.
pub const DEFAULT_VERSION: &'static str = "20150910";

/// Coordinates calls to the service's REST interface. The value is
/// immutable after construction; the access token must be supplied by the
/// caller, while the version and base URL have defaults.
#[derive(Debug, Clone, PartialEq, Eq)]
pub struct ApiAIClient {
    pub version: String,
    pub access_token: String,
    pub base_url: String,
}

impl Default for ApiAIClient {
    /// A client for the default endpoint, with an empty access token.
    fn default() -> (r: ApiAIClient)
        ensures
            r.access_token@.len() == 0,
            r.version@ == DEFAULT_VERSION@,
            r.base_url@ == DEFAULT_BASE_URL@,
    {
        ApiAIClient {
            access_token: String::new(),
            version: String::from_str(DEFAULT_VERSION),
            base_url: String::from_str(DEFAULT_BASE_URL),
        }
    }
}

impl ApiAIClient {
    /// The URL one query is posted to: the base URL followed by the query
    /// path and the protocol version.
    pub fn query_url(&self) -> (r: String)
        ensures
            r@ == self.base_url@ + "/query?v="@ + self.version@,
    {
        let mut url = self.base_url.clone();
        url.append("/query?v=");
        url.append(self.version.as_str());
        url
    }
}

/// What can go wrong around one query: the reply body did not decode, or
/// the transport itself failed (the latter is raised by the embedding
/// program, never by the library).
pub enum ApiError {
    SerializationError(DecodeError),
    HttpError(String),
}

/// Decode the body of a reply. Every failure is a
/// `SerializationError`; transport errors are not this function's to
/// raise.
pub fn decode_api_response(body: &str) -> (r: Result<ApiResponse, ApiError>)
    ensures
        match r {
            Ok(resp) => decode_response_text(body@) == Some(resp@),
            Err(e) => decode_response_text(body@) is None && e is SerializationError,
        },
{
    match ApiResponse::decode(body) {
        Ok(resp) => Ok(resp),
        Err(e) => Err(ApiError::SerializationError(e)),
    }
}

/// Relies on uuid's `Uuid::new_v4` and its hyphenated formatter: a fresh
/// random version-4 identifier, written as 36 characters (32 hexadecimal
/// digits in five hyphen-separated groups).
#[verifier::external_body]
fn fresh_session_id() -> (r: String)
    ensures
        r@.len() == 36,
{
    uuid::Uuid::new_v4().hyphenated().to_string()
}

impl ApiRequest {
    /// A request carrying a free-text query, in English, with no
    /// contexts, under a freshly generated session identifier.
    pub fn with_query(query: String) -> (r: ApiRequest)
        ensures
            r@.payload == ApiQueryV::Query(query@),
            r@.session_id.len() == 36,
            r@.lang == Language::English,
            r@.contexts.len() == 0,
    {
        ApiRequest {
            payload: ApiQuery::Query(query),
            session_id: fresh_session_id(),
            lang: Language::English,
            contexts: Vec::new(),
        }
    }

    /// A request carrying an event, in English, with no contexts, under a
    /// freshly generated session identifier.
    pub fn with_event(event: ApiEvent) -> (r: ApiRequest)
        ensures
            r@.payload == ApiQueryV::Event(event@),
            r@.session_id.len() == 36,
            r@.lang == Language::English,
            r@.contexts.len() == 0,
    {
        ApiRequest {
            payload: ApiQuery::Event(event),
            session_id: fresh_session_id(),
            lang: Language::English,
            contexts: Vec::new(),
        }
    }
}

} // verus!
