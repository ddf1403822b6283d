//! The typed request and response structures, and their mapping to and
//! from the JSON wire shape.
//!
//! Each executable type has a mathematical view (the `...V` structs). The
//! `..._json` spec functions define the wire shape a value is encoded
//! into, and the `..._from_json` spec functions define which wire values
//! decode, and to what. The executable encoders and decoders are proved
//! against these definitions, and the round-trip lemmas at the end show
//! that decoding an encoded value gives the value back.

use vstd::prelude::*;

use crate::json::{DecodeError, Json, JsonV};
use crate::json::jview_members;
use crate::lang::{lang_code, lang_from_code, Language};

verus! {

/// A conversation context: a name, a string-to-string parameter mapping
/// (kept in wire order), and an optional remaining lifespan in turns.
#[derive(Debug, Clone, PartialEq, Eq)]
pub struct ApiContext {
    pub name: String,
    pub parameters: Vec<(String, String)>,
    pub lifespan: Option<i32>,
}

pub struct ApiContextV {
    pub name: Seq<char>,
    pub parameters: Seq<(Seq<char>, Seq<char>)>,
    pub lifespan: Option<i32>,
}

impl View for ApiContext {
    type V = ApiContextV;

    open spec fn view(&self) -> ApiContextV {
        ApiContextV {
            name: self.name@,
            parameters: self.parameters@.map_values(|p: (String, String)| (p.0@, p.1@)),
            lifespan: self.lifespan,
        }
    }
}

/// An event that can be sent in place of a text query: a name and an
/// optional string-to-string data mapping.
#[derive(Debug, Clone, PartialEq, Eq)]
pub struct ApiEvent {
    pub name: String,
    pub data: Option<Vec<(String, String)>>,
}

pub struct ApiEventV {
    pub name: Seq<char>,
    pub data: Option<Seq<(Seq<char>, Seq<char>)>>,
}

impl View for ApiEvent {
    type V = ApiEventV;

    open spec fn view(&self) -> ApiEventV {
        ApiEventV {
            name: self.name@,
            data: match self.data {
                Some(d) => Some(d@.map_values(|p: (String, String)| (p.0@, p.1@))),
                None => None,
            },
        }
    }
}

/// The request payload: exactly one of a free-text query or an event.
#[derive(Debug, Clone, PartialEq, Eq)]
pub enum ApiQuery {
    Query(String),
    Event(ApiEvent),
}

pub enum ApiQueryV {
    Query(Seq<char>),
    Event(ApiEventV),
}

impl View for ApiQuery {
    type V = ApiQueryV;

    open spec fn view(&self) -> ApiQueryV {
        match self {
            ApiQuery::Query(q) => ApiQueryV::Query(q@),
            ApiQuery::Event(e) => ApiQueryV::Event(e@),
        }
    }
}

/// A request to the service: the payload, a session identifier, the
/// language of the conversation, and the ordered conversation contexts.
#[derive(Debug, Clone, PartialEq, Eq)]
pub struct ApiRequest {
    pub payload: ApiQuery,
    pub session_id: String,
    pub lang: Language,
    pub contexts: Vec<ApiContext>,
}

pub struct ApiRequestV {
    pub payload: ApiQueryV,
    pub session_id: Seq<char>,
    pub lang: Language,
    pub contexts: Seq<ApiContextV>,
}

impl View for ApiRequest {
    type V = ApiRequestV;

    open spec fn view(&self) -> ApiRequestV {
        ApiRequestV {
            payload: self.payload@,
            session_id: self.session_id@,
            lang: self.lang,
            contexts: self.contexts@.map_values(|c: ApiContext| c@),
        }
    }
}

/// A fulfillment message: plain speech or an image, each carried on the
/// wire as a flat object with a numeric `type` discriminant (0 for text,
/// 3 for an image) derived purely from the variant.
#[derive(Debug, Clone, PartialEq, Eq)]
pub enum ApiMessage {
    Text { speech: String },
    Image { image_url: String },
}

pub enum ApiMessageV {
    Text { speech: Seq<char> },
    Image { image_url: Seq<char> },
}

impl View for ApiMessage {
    type V = ApiMessageV;

    open spec fn view(&self) -> ApiMessageV {
        match self {
            ApiMessage::Text { speech } => ApiMessageV::Text { speech: speech@ },
            ApiMessage::Image { image_url } => ApiMessageV::Image { image_url: image_url@ },
        }
    }
}

impl ApiMessage {
    /// A plain-speech message.
    pub fn new_text(speech: String) -> (r: ApiMessage)
        ensures
            r@ == (ApiMessageV::Text { speech: speech@ }),
    {
        ApiMessage::Text { speech }
    }

    /// An image message.
    pub fn new_image(image_url: String) -> (r: ApiMessage)
        ensures
            r@ == (ApiMessageV::Image { image_url: image_url@ }),
    {
        ApiMessage::Image { image_url }
    }
}

/// The reply payload for a matched intent: speech and, optionally, a list
/// of rich messages (omitted from the wire form when absent).
#[derive(Debug, Clone, PartialEq, Eq)]
pub struct ApiFulfillment {
    pub speech: String,
    pub messages: Option<Vec<ApiMessage>>,
}

pub struct ApiFulfillmentV {
    pub speech: Seq<char>,
    pub messages: Option<Seq<ApiMessageV>>,
}

impl View for ApiFulfillment {
    type V = ApiFulfillmentV;

    open spec fn view(&self) -> ApiFulfillmentV {
        ApiFulfillmentV {
            speech: self.speech@,
            messages: match self.messages {
                Some(ms) => Some(ms@.map_values(|m: ApiMessage| m@)),
                None => None,
            },
        }
    }
}

/// Intent metadata. The webhook flags are carried as the literal strings
/// `"true"` / `"false"` and default to `"false"` when absent.
#[derive(Debug, Clone, PartialEq, Eq)]
pub struct ApiMetadata {
    pub intent_id: Option<String>,
    pub webhook_used: String,
    pub webhook_slotfilling_used: String,
    pub intent_name: Option<String>,
}

pub struct ApiMetadataV {
    pub intent_id: Option<Seq<char>>,
    pub webhook_used: Seq<char>,
    pub webhook_slotfilling_used: Seq<char>,
    pub intent_name: Option<Seq<char>>,
}

impl View for ApiMetadata {
    type V = ApiMetadataV;

    open spec fn view(&self) -> ApiMetadataV {
        ApiMetadataV {
            intent_id: match self.intent_id {
                Some(ref s) => Some(s@),
                None => None,
            },
            webhook_used: self.webhook_used@,
            webhook_slotfilling_used: self.webhook_slotfilling_used@,
            intent_name: match self.intent_name {
                Some(ref s) => Some(s@),
                None => None,
            },
        }
    }
}

/// The request status the service reports: an HTTP-like code, an error
/// type label, and optional error details (omitted when absent).
#[derive(Debug, Clone, PartialEq, Eq)]
pub struct ApiStatus {
    pub code: i32,
    pub error_type: String,
    pub error_details: Option<String>,
}

pub struct ApiStatusV {
    pub code: i32,
    pub error_type: Seq<char>,
    pub error_details: Option<Seq<char>>,
}

impl View for ApiStatus {
    type V = ApiStatusV;

    open spec fn view(&self) -> ApiStatusV {
        ApiStatusV {
            code: self.code,
            error_type: self.error_type@,
            error_details: match self.error_details {
                Some(ref s) => Some(s@),
                None => None,
            },
        }
    }
}

/// The matching confidence score, an exact decimal: an integer part and
/// the fraction digits, normalized so that the fraction carries no
/// trailing zeros (`1` and `1.0` on the wire both decode to the same
/// value). It is encoded back with at least one fraction digit.
#[derive(Debug, Clone, PartialEq, Eq)]
pub struct ApiScore {
    pub int_part: u64,
    pub frac: Vec<u8>,
}

pub struct ApiScoreV {
    pub int_part: nat,
    pub frac: Seq<u8>,
}

impl View for ApiScore {
    type V = ApiScoreV;

    open spec fn view(&self) -> ApiScoreV {
        ApiScoreV { int_part: self.int_part as nat, frac: self.frac@ }
    }
}

/// A normalized score: no trailing zero among the fraction digits.
pub open spec fn wf_score(sc: ApiScoreV) -> bool {
    sc.frac.len() == 0 || sc.frac.last() != 0
}

/// The result of a query: what was matched and what to reply.
#[derive(Debug, Clone, PartialEq, Eq)]
pub struct ApiResult {
    pub source: String,
    pub resolved_query: String,
    pub action: String,
    pub action_incomplete: bool,
    pub parameters: Vec<(String, String)>,
    pub contexts: Vec<ApiContext>,
    pub metadata: ApiMetadata,
    pub fulfillment: ApiFulfillment,
    pub score: ApiScore,
}

pub struct ApiResultV {
    pub source: Seq<char>,
    pub resolved_query: Seq<char>,
    pub action: Seq<char>,
    pub action_incomplete: bool,
    pub parameters: Seq<(Seq<char>, Seq<char>)>,
    pub contexts: Seq<ApiContextV>,
    pub metadata: ApiMetadataV,
    pub fulfillment: ApiFulfillmentV,
    pub score: ApiScoreV,
}

impl View for ApiResult {
    type V = ApiResultV;

    open spec fn view(&self) -> ApiResultV {
        ApiResultV {
            source: self.source@,
            resolved_query: self.resolved_query@,
            action: self.action@,
            action_incomplete: self.action_incomplete,
            parameters: self.parameters@.map_values(|p: (String, String)| (p.0@, p.1@)),
            contexts: self.contexts@.map_values(|c: ApiContext| c@),
            metadata: self.metadata@,
            fulfillment: self.fulfillment@,
            score: self.score@,
        }
    }
}

/// A whole reply from the service.
#[derive(Debug, Clone, PartialEq, Eq)]
pub struct ApiResponse {
    pub id: String,
    pub timestamp: String,
    pub lang: Language,
    pub result: ApiResult,
    pub status: ApiStatus,
    pub session_id: String,
}

pub struct ApiResponseV {
    pub id: Seq<char>,
    pub timestamp: Seq<char>,
    pub lang: Language,
    pub result: ApiResultV,
    pub status: ApiStatusV,
    pub session_id: Seq<char>,
}

impl View for ApiResponse {
    type V = ApiResponseV;

    open spec fn view(&self) -> ApiResponseV {
        ApiResponseV {
            id: self.id@,
            timestamp: self.timestamp@,
            lang: self.lang,
            result: self.result@,
            status: self.status@,
            session_id: self.session_id@,
        }
    }
}

// ---------------------------------------------------------------------
// The wire shape each value is encoded into.
// ---------------------------------------------------------------------

/// A string-to-string mapping as a JSON object, in order.
pub open spec fn params_json(ps: Seq<(Seq<char>, Seq<char>)>) -> Seq<(Seq<char>, JsonV)> {
    ps.map_values(|p: (Seq<char>, Seq<char>)| (p.0, JsonV::Str(p.1)))
}

pub open spec fn context_json(c: ApiContextV) -> JsonV {
    JsonV::Obj(
        seq![
            ("name"@, JsonV::Str(c.name)),
            ("parameters"@, JsonV::Obj(params_json(c.parameters))),
            (
                "lifespan"@,
                match c.lifespan {
                    Some(n) => JsonV::Int(n as int),
                    None => JsonV::Null,
                },
            ),
        ],
    )
}

pub open spec fn contexts_json(cs: Seq<ApiContextV>) -> JsonV {
    JsonV::Arr(cs.map_values(|c: ApiContextV| context_json(c)))
}

/// An absent data mapping is written as an explicit null, not omitted.
pub open spec fn event_json(e: ApiEventV) -> JsonV {
    JsonV::Obj(
        seq![
            ("name"@, JsonV::Str(e.name)),
            (
                "data"@,
                match e.data {
                    Some(d) => JsonV::Obj(params_json(d)),
                    None => JsonV::Null,
                },
            ),
        ],
    )
}

/// The single request member the payload contributes: `query` for text,
/// `event` for an event.
pub open spec fn query_member(q: ApiQueryV) -> (Seq<char>, JsonV) {
    match q {
        ApiQueryV::Query(s) => ("query"@, JsonV::Str(s)),
        ApiQueryV::Event(e) => ("event"@, event_json(e)),
    }
}

/// The payload alone as a one-member object.
pub open spec fn payload_json(q: ApiQueryV) -> JsonV {
    JsonV::Obj(seq![query_member(q)])
}

/// The whole request object. An empty session identifier is omitted;
/// the contexts always appear, as an array, even when empty.
pub open spec fn request_json(r: ApiRequestV) -> JsonV {
    JsonV::Obj(
        seq![query_member(r.payload)] + (if r.session_id.len() == 0 {
            Seq::empty()
        } else {
            seq![("sessionId"@, JsonV::Str(r.session_id))]
        }) + seq![
            ("lang"@, JsonV::Str(lang_code(r.lang))),
            ("contexts"@, contexts_json(r.contexts)),
        ],
    )
}

pub open spec fn message_json(m: ApiMessageV) -> JsonV {
    match m {
        ApiMessageV::Text { speech } => JsonV::Obj(
            seq![("speech"@, JsonV::Str(speech)), ("type"@, JsonV::Int(0))],
        ),
        ApiMessageV::Image { image_url } => JsonV::Obj(
            seq![("imageUrl"@, JsonV::Str(image_url)), ("type"@, JsonV::Int(3))],
        ),
    }
}

pub open spec fn messages_json(ms: Seq<ApiMessageV>) -> JsonV {
    JsonV::Arr(ms.map_values(|m: ApiMessageV| message_json(m)))
}

/// The score is always written with a fractional part, `1` as `1.0`.
pub open spec fn score_json(sc: ApiScoreV) -> JsonV {
    JsonV::Flt {
        neg: false,
        int_part: sc.int_part,
        frac: if sc.frac.len() == 0 {
            seq![0u8]
        } else {
            sc.frac
        },
    }
}

/// An absent intent id is written as null; an absent intent name is
/// omitted.
pub open spec fn metadata_json(m: ApiMetadataV) -> JsonV {
    JsonV::Obj(
        seq![
            (
                "intentId"@,
                match m.intent_id {
                    Some(s) => JsonV::Str(s),
                    None => JsonV::Null,
                },
            ),
            ("webhookUsed"@, JsonV::Str(m.webhook_used)),
            ("webhookForSlotFillingUsed"@, JsonV::Str(m.webhook_slotfilling_used)),
        ] + (match m.intent_name {
            Some(s) => seq![("intentName"@, JsonV::Str(s))],
            None => Seq::empty(),
        }),
    )
}

/// Absent messages are omitted from the wire form, not written as null.
pub open spec fn fulfillment_json(f: ApiFulfillmentV) -> JsonV {
    JsonV::Obj(
        seq![("speech"@, JsonV::Str(f.speech))] + (match f.messages {
            Some(ms) => seq![("messages"@, messages_json(ms))],
            None => Seq::empty(),
        }),
    )
}

/// Absent error details are omitted, not written as null.
pub open spec fn status_json(st: ApiStatusV) -> JsonV {
    JsonV::Obj(
        seq![("code"@, JsonV::Int(st.code as int)), ("errorType"@, JsonV::Str(st.error_type))]
            + (match st.error_details {
            Some(s) => seq![("errorDetails"@, JsonV::Str(s))],
            None => Seq::empty(),
        }),
    )
}

pub open spec fn result_json(r: ApiResultV) -> JsonV {
    JsonV::Obj(
        seq![
            ("source"@, JsonV::Str(r.source)),
            ("resolvedQuery"@, JsonV::Str(r.resolved_query)),
            ("action"@, JsonV::Str(r.action)),
            ("actionIncomplete"@, JsonV::Bool(r.action_incomplete)),
            ("parameters"@, JsonV::Obj(params_json(r.parameters))),
            ("contexts"@, contexts_json(r.contexts)),
            ("metadata"@, metadata_json(r.metadata)),
            ("fulfillment"@, fulfillment_json(r.fulfillment)),
            ("score"@, score_json(r.score)),
        ],
    )
}

pub open spec fn response_json(r: ApiResponseV) -> JsonV {
    JsonV::Obj(
        seq![
            ("id"@, JsonV::Str(r.id)),
            ("timestamp"@, JsonV::Str(r.timestamp)),
            ("lang"@, JsonV::Str(lang_code(r.lang))),
            ("result"@, result_json(r.result)),
            ("status"@, status_json(r.status)),
            ("sessionId"@, JsonV::Str(r.session_id)),
        ],
    )
}

// ---------------------------------------------------------------------
// Which wire values decode, and to what.
// ---------------------------------------------------------------------

/// The value under the first member with the given key, if any. Keys are
/// looked up by name, so members may arrive in any order.
pub open spec fn obj_get(ms: Seq<(Seq<char>, JsonV)>, key: Seq<char>) -> Option<JsonV>
    decreases ms,
{
    if ms.len() == 0 {
        None
    } else if ms[0].0 == key {
        Some(ms[0].1)
    } else {
        obj_get(ms.drop_first(), key)
    }
}

/// A required string member.
pub open spec fn req_str(ms: Seq<(Seq<char>, JsonV)>, key: Seq<char>) -> Option<Seq<char>> {
    match obj_get(ms, key) {
        Some(JsonV::Str(s)) => Some(s),
        _ => None,
    }
}

/// An optional string member: absent and null both decode to `None`.
/// The outer option is the success of decoding itself.
pub open spec fn opt_str(ms: Seq<(Seq<char>, JsonV)>, key: Seq<char>) -> Option<
    Option<Seq<char>>,
> {
    match obj_get(ms, key) {
        None => Some(None),
        Some(JsonV::Null) => Some(None),
        Some(JsonV::Str(s)) => Some(Some(s)),
        Some(_) => None,
    }
}

/// A string member with a default for when the key is absent.
pub open spec fn str_or(ms: Seq<(Seq<char>, JsonV)>, key: Seq<char>, dflt: Seq<char>) -> Option<
    Seq<char>,
> {
    match obj_get(ms, key) {
        None => Some(dflt),
        Some(JsonV::Str(s)) => Some(s),
        Some(_) => None,
    }
}

/// A boolean member with a default for when the key is absent.
pub open spec fn bool_or(ms: Seq<(Seq<char>, JsonV)>, key: Seq<char>, dflt: bool) -> Option<
    bool,
> {
    match obj_get(ms, key) {
        None => Some(dflt),
        Some(JsonV::Bool(b)) => Some(b),
        Some(_) => None,
    }
}

/// The language member: absent defaults to English; an unrecognized code
/// or a non-string is a decode failure.
pub open spec fn lang_field(ms: Seq<(Seq<char>, JsonV)>) -> Option<Language> {
    match obj_get(ms, "lang"@) {
        None => Some(Language::English),
        Some(JsonV::Str(s)) => lang_from_code(s),
        Some(_) => None,
    }
}

/// A string-to-string mapping from object members: every value must be a
/// string.
pub open spec fn params_from_members(ms: Seq<(Seq<char>, JsonV)>) -> Option<
    Seq<(Seq<char>, Seq<char>)>,
>
    decreases ms,
{
    if ms.len() == 0 {
        Some(Seq::empty())
    } else {
        match ms[0].1 {
            JsonV::Str(s) => match params_from_members(ms.drop_first()) {
                Some(rest) => Some(seq![(ms[0].0, s)] + rest),
                None => None,
            },
            _ => None,
        }
    }
}

pub open spec fn params_from_json(v: JsonV) -> Option<Seq<(Seq<char>, Seq<char>)>> {
    match v {
        JsonV::Obj(ms) => params_from_members(ms),
        _ => None,
    }
}

pub open spec fn context_from_json(v: JsonV) -> Option<ApiContextV> {
    match v {
        JsonV::Obj(ms) => match req_str(ms, "name"@) {
            None => None,
            Some(name) => match obj_get(ms, "parameters"@) {
                None => None,
                Some(pv) => match params_from_json(pv) {
                    None => None,
                    Some(parameters) => match obj_get(ms, "lifespan"@) {
                        None => Some(ApiContextV { name, parameters, lifespan: None }),
                        Some(JsonV::Null) => Some(
                            ApiContextV { name, parameters, lifespan: None },
                        ),
                        Some(JsonV::Int(n)) => if i32::MIN <= n <= i32::MAX {
                            Some(ApiContextV { name, parameters, lifespan: Some(n as i32) })
                        } else {
                            None
                        },
                        Some(_) => None,
                    },
                },
            },
        },
        _ => None,
    }
}

pub open spec fn contexts_from_items(items: Seq<JsonV>) -> Option<Seq<ApiContextV>>
    decreases items,
{
    if items.len() == 0 {
        Some(Seq::empty())
    } else {
        match context_from_json(items[0]) {
            None => None,
            Some(c) => match contexts_from_items(items.drop_first()) {
                Some(rest) => Some(seq![c] + rest),
                None => None,
            },
        }
    }
}

pub open spec fn contexts_from_json(v: JsonV) -> Option<Seq<ApiContextV>> {
    match v {
        JsonV::Arr(items) => contexts_from_items(items),
        _ => None,
    }
}

pub open spec fn event_from_json(v: JsonV) -> Option<ApiEventV> {
    match v {
        JsonV::Obj(ms) => match req_str(ms, "name"@) {
            None => None,
            Some(name) => match obj_get(ms, "data"@) {
                None => Some(ApiEventV { name, data: None }),
                Some(JsonV::Null) => Some(ApiEventV { name, data: None }),
                Some(JsonV::Obj(dms)) => match params_from_members(dms) {
                    Some(d) => Some(ApiEventV { name, data: Some(d) }),
                    None => None,
                },
                Some(_) => None,
            },
        },
        _ => None,
    }
}

/// A request decodes only when exactly one of `query` and `event` is
/// present. An absent session identifier decodes to the empty string;
/// `lang` and `contexts` are required.
pub open spec fn request_from_json(v: JsonV) -> Option<ApiRequestV> {
    match v {
        JsonV::Obj(ms) => {
            let payload = match (obj_get(ms, "query"@), obj_get(ms, "event"@)) {
                (Some(JsonV::Str(q)), None) => Some(ApiQueryV::Query(q)),
                (None, Some(ev)) => match event_from_json(ev) {
                    Some(e) => Some(ApiQueryV::Event(e)),
                    None => None,
                },
                _ => None,
            };
            match payload {
                None => None,
                Some(payload) => match str_or(ms, "sessionId"@, Seq::empty()) {
                    None => None,
                    Some(session_id) => match obj_get(ms, "lang"@) {
                        Some(JsonV::Str(ls)) => match lang_from_code(ls) {
                            None => None,
                            Some(lang) => match obj_get(ms, "contexts"@) {
                                None => None,
                                Some(cv) => match contexts_from_json(cv) {
                                    None => None,
                                    Some(contexts) => Some(
                                        ApiRequestV { payload, session_id, lang, contexts },
                                    ),
                                },
                            },
                        },
                        _ => None,
                    },
                },
            }
        },
        _ => None,
    }
}

/// A message decodes from its discriminant: 0 together with `speech`
/// gives text, 3 together with `imageUrl` gives an image, and anything
/// else is rejected.
pub open spec fn message_from_json(v: JsonV) -> Option<ApiMessageV> {
    match v {
        JsonV::Obj(ms) => match obj_get(ms, "type"@) {
            Some(JsonV::Int(t)) => if t == 0 {
                match req_str(ms, "speech"@) {
                    Some(speech) => Some(ApiMessageV::Text { speech }),
                    None => None,
                }
            } else if t == 3 {
                match req_str(ms, "imageUrl"@) {
                    Some(image_url) => Some(ApiMessageV::Image { image_url }),
                    None => None,
                }
            } else {
                None
            },
            _ => None,
        },
        _ => None,
    }
}

pub open spec fn messages_from_items(items: Seq<JsonV>) -> Option<Seq<ApiMessageV>>
    decreases items,
{
    if items.len() == 0 {
        Some(Seq::empty())
    } else {
        match message_from_json(items[0]) {
            None => None,
            Some(m) => match messages_from_items(items.drop_first()) {
                Some(rest) => Some(seq![m] + rest),
                None => None,
            },
        }
    }
}

pub open spec fn fulfillment_from_json(v: JsonV) -> Option<ApiFulfillmentV> {
    match v {
        JsonV::Obj(ms) => match req_str(ms, "speech"@) {
            None => None,
            Some(speech) => match obj_get(ms, "messages"@) {
                None => Some(ApiFulfillmentV { speech, messages: None }),
                Some(JsonV::Null) => Some(ApiFulfillmentV { speech, messages: None }),
                Some(JsonV::Arr(items)) => match messages_from_items(items) {
                    Some(msv) => Some(ApiFulfillmentV { speech, messages: Some(msv) }),
                    None => None,
                },
                Some(_) => None,
            },
        },
        _ => None,
    }
}

pub open spec fn metadata_from_json(v: JsonV) -> Option<ApiMetadataV> {
    match v {
        JsonV::Obj(ms) => match opt_str(ms, "intentId"@) {
            None => None,
            Some(intent_id) => match str_or(ms, "webhookUsed"@, "false"@) {
                None => None,
                Some(webhook_used) => match str_or(ms, "webhookForSlotFillingUsed"@, "false"@) {
                    None => None,
                    Some(webhook_slotfilling_used) => match opt_str(ms, "intentName"@) {
                        None => None,
                        Some(intent_name) => Some(
                            ApiMetadataV {
                                intent_id,
                                webhook_used,
                                webhook_slotfilling_used,
                                intent_name,
                            },
                        ),
                    },
                },
            },
        },
        _ => None,
    }
}

pub open spec fn status_from_json(v: JsonV) -> Option<ApiStatusV> {
    match v {
        JsonV::Obj(ms) => match obj_get(ms, "code"@) {
            Some(JsonV::Int(code)) => if i32::MIN <= code <= i32::MAX {
                match req_str(ms, "errorType"@) {
                    None => None,
                    Some(error_type) => match opt_str(ms, "errorDetails"@) {
                        None => None,
                        Some(error_details) => Some(
                            ApiStatusV { code: code as i32, error_type, error_details },
                        ),
                    },
                }
            } else {
                None
            },
            _ => None,
        },
        _ => None,
    }
}

/// Trailing zero fraction digits carry no value and are dropped.
pub open spec fn strip_zeros(frac: Seq<u8>) -> Seq<u8>
    decreases frac,
{
    if frac.len() > 0 && frac.last() == 0 {
        strip_zeros(frac.drop_last())
    } else {
        frac
    }
}

/// A score decodes from an integer or from a non-negative decimal; the
/// fraction is normalized by dropping trailing zeros.
pub open spec fn score_from_json(v: JsonV) -> Option<ApiScoreV> {
    match v {
        JsonV::Int(n) => if 0 <= n <= u64::MAX {
            Some(ApiScoreV { int_part: n as nat, frac: Seq::empty() })
        } else {
            None
        },
        JsonV::Flt { neg, int_part, frac } => if neg {
            None
        } else {
            Some(ApiScoreV { int_part, frac: strip_zeros(frac) })
        },
        _ => None,
    }
}

pub open spec fn result_from_json(v: JsonV) -> Option<ApiResultV> {
    match v {
        JsonV::Obj(ms) => match (req_str(ms, "source"@), req_str(ms, "resolvedQuery"@), req_str(
            ms,
            "action"@,
        )) {
            (Some(source), Some(resolved_query), Some(action)) => match bool_or(
                ms,
                "actionIncomplete"@,
                false,
            ) {
                None => None,
                Some(action_incomplete) => match obj_get(ms, "parameters"@) {
                    None => None,
                    Some(pv) => match params_from_json(pv) {
                        None => None,
                        Some(parameters) => {
                            let contexts = match obj_get(ms, "contexts"@) {
                                None => Some(Seq::<ApiContextV>::empty()),
                                Some(cv) => contexts_from_json(cv),
                            };
                            match contexts {
                                None => None,
                                Some(contexts) => match obj_get(ms, "metadata"@) {
                                    None => None,
                                    Some(mv) => match metadata_from_json(mv) {
                                        None => None,
                                        Some(metadata) => match obj_get(ms, "fulfillment"@) {
                                            None => None,
                                            Some(fv) => match fulfillment_from_json(fv) {
                                                None => None,
                                                Some(fulfillment) => match obj_get(
                                                    ms,
                                                    "score"@,
                                                ) {
                                                    None => None,
                                                    Some(sv) => match score_from_json(sv) {
                                                        None => None,
                                                        Some(score) => Some(
                                                            ApiResultV {
                                                                source,
                                                                resolved_query,
                                                                action,
                                                                action_incomplete,
                                                                parameters,
                                                                contexts,
                                                                metadata,
                                                                fulfillment,
                                                                score,
                                                            },
                                                        ),
                                                    },
                                                },
                                            },
                                        },
                                    },
                                },
                            }
                        },
                    },
                },
            },
            _ => None,
        },
        _ => None,
    }
}

pub open spec fn response_from_json(v: JsonV) -> Option<ApiResponseV> {
    match v {
        JsonV::Obj(ms) => match (req_str(ms, "id"@), req_str(ms, "timestamp"@)) {
            (Some(id), Some(timestamp)) => match lang_field(ms) {
                None => None,
                Some(lang) => match obj_get(ms, "result"@) {
                    None => None,
                    Some(rv) => match result_from_json(rv) {
                        None => None,
                        Some(result) => match obj_get(ms, "status"@) {
                            None => None,
                            Some(sv) => match status_from_json(sv) {
                                None => None,
                                Some(status) => match req_str(ms, "sessionId"@) {
                                    None => None,
                                    Some(session_id) => Some(
                                        ApiResponseV {
                                            id,
                                            timestamp,
                                            lang,
                                            result,
                                            status,
                                            session_id,
                                        },
                                    ),
                                },
                            },
                        },
                    },
                },
            },
            _ => None,
        },
        _ => None,
    }
}


// ---------------------------------------------------------------------
// Executable encoders.
// ---------------------------------------------------------------------

/// One member of an object under construction, with its key written as a
/// literal.
fn member(key: &str, value: Json) -> (r: (String, Json))
    ensures
        r.0@ == key@,
        r.1 == value,
{
    (String::from_str(key), value)
}

fn params_to_json(ps: &Vec<(String, String)>) -> (r: Vec<(String, Json)>)
    ensures
        jview_members(r@) == params_json(ps@.map_values(|p: (String, String)| (p.0@, p.1@))),
{
    broadcast use crate::json::lemma_jview_members_len, crate::json::lemma_jview_members_index;

    let mut out: Vec<(String, Json)> = Vec::new();
    let mut i: usize = 0;
    while i < ps.len()
        invariant
            i <= ps@.len(),
            out@.len() == i,
            forall|k: int|
                0 <= k < i ==> jview_members(out@)[k] == (ps@[k].0@, JsonV::Str(ps@[k].1@)),
        decreases ps@.len() - i,
    {
        let key = ps[i].0.clone();
        let val = Json::Str(ps[i].1.clone());
        let ghost kv = key@;
        let ghost vv = crate::json::jview(val);
        let ghost prev = out@;
        out.push((key, val));
        proof {
            assert(out@.len() == i + 1);
            assert forall|k: int| 0 <= k < i + 1 implies jview_members(out@)[k] == (
                ps@[k].0@,
                JsonV::Str(ps@[k].1@),
            ) by {
                crate::json::lemma_jview_members_len(out@);
                crate::json::lemma_jview_members_index(out@, k);
                if k < i {
                    assert(out@[k] == prev[k]);
                    crate::json::lemma_jview_members_index(prev, k);
                    assert(jview_members(prev)[k] == (ps@[k].0@, JsonV::Str(ps@[k].1@)));
                } else {
                    assert(out@[k].0@ == kv);
                    assert(crate::json::jview(out@[k].1) == vv);
                }
            }
        }
        i += 1;
    }
    proof {
        assert(jview_members(out@) =~= params_json(
            ps@.map_values(|p: (String, String)| (p.0@, p.1@)),
        ));
    }
    out
}

impl ApiContext {
    /// The wire form of this context.
    pub fn to_json(&self) -> (r: Json)
        ensures
            r@ == context_json(self@),
    {
        let mut ms: Vec<(String, Json)> = Vec::new();
        ms.push(member("name", Json::Str(self.name.clone())));
        ms.push(member("parameters", Json::Obj(params_to_json(&self.parameters))));
        ms.push(
            member(
                "lifespan",
                match self.lifespan {
                    Some(n) => Json::Int(n as i64),
                    None => Json::Null,
                },
            ),
        );
        let r = Json::Obj(ms);
        proof {
            broadcast use
                crate::json::lemma_jview_members_len,
                crate::json::lemma_jview_members_index,
            ;

            assert(jview_members(ms@) =~= context_json(self@)->Obj_0);
        }
        r
    }
}

fn contexts_to_json(cs: &Vec<ApiContext>) -> (r: Json)
    ensures
        r@ == contexts_json(cs@.map_values(|c: ApiContext| c@)),
{
    broadcast use crate::json::lemma_jview_items_len, crate::json::lemma_jview_items_index;

    let mut out: Vec<Json> = Vec::new();
    let mut i: usize = 0;
    while i < cs.len()
        invariant
            i <= cs@.len(),
            out@.len() == i,
            forall|k: int|
                0 <= k < i ==> crate::json::jview_items(out@)[k] == context_json(cs@[k]@),
        decreases cs@.len() - i,
    {
        let cj = cs[i].to_json();
        let ghost cjv = cj@;
        let ghost prev = out@;
        out.push(cj);
        proof {
            assert(out@.len() == i + 1);
            assert forall|k: int| 0 <= k < i + 1 implies crate::json::jview_items(out@)[k]
                == context_json(cs@[k]@) by {
                crate::json::lemma_jview_items_len(out@);
                crate::json::lemma_jview_items_index(out@, k);
                if k < i {
                    assert(out@[k] == prev[k]);
                    crate::json::lemma_jview_items_index(prev, k);
                    assert(crate::json::jview_items(prev)[k] == context_json(cs@[k]@));
                } else {
                    assert(crate::json::jview(out@[k]) == cjv);
                }
            }
        }
        i += 1;
    }
    let r = Json::Arr(out);
    proof {
        assert(crate::json::jview_items(out@) =~= cs@.map_values(|c: ApiContext| c@).map_values(
            |c: ApiContextV| context_json(c),
        ));
    }
    r
}

impl ApiEvent {
    /// The wire form of this event; an absent data mapping is written as
    /// an explicit null.
    pub fn to_json(&self) -> (r: Json)
        ensures
            r@ == event_json(self@),
    {
        let mut ms: Vec<(String, Json)> = Vec::new();
        ms.push(member("name", Json::Str(self.name.clone())));
        ms.push(
            member(
                "data",
                match &self.data {
                    Some(d) => Json::Obj(params_to_json(d)),
                    None => Json::Null,
                },
            ),
        );
        let r = Json::Obj(ms);
        proof {
            broadcast use
                crate::json::lemma_jview_members_len,
                crate::json::lemma_jview_members_index,
            ;

            assert(jview_members(ms@) =~= event_json(self@)->Obj_0);
        }
        r
    }
}

impl ApiQuery {
    /// The wire form of the payload alone: a one-member object, `query`
    /// for text and `event` for an event.
    pub fn to_json(&self) -> (r: Json)
        ensures
            r@ == payload_json(self@),
    {
        let m = match self {
            ApiQuery::Query(q) => member("query", Json::Str(q.clone())),
            ApiQuery::Event(e) => member("event", e.to_json()),
        };
        let mut ms: Vec<(String, Json)> = Vec::new();
        ms.push(m);
        let r = Json::Obj(ms);
        proof {
            broadcast use
                crate::json::lemma_jview_members_len,
                crate::json::lemma_jview_members_index,
            ;

            assert(jview_members(ms@) =~= seq![query_member(self@)]);
        }
        r
    }
}

impl ApiRequest {
    /// The wire form of the whole request. An empty session identifier is
    /// omitted; the contexts always appear, even when empty.
    pub fn to_json(&self) -> (r: Json)
        ensures
            r@ == request_json(self@),
    {
        let mut ms: Vec<(String, Json)> = Vec::new();
        let m = match &self.payload {
            ApiQuery::Query(q) => member("query", Json::Str(q.clone())),
            ApiQuery::Event(e) => member("event", e.to_json()),
        };
        ms.push(m);
        if self.session_id.as_str().unicode_len() > 0 {
            ms.push(member("sessionId", Json::Str(self.session_id.clone())));
        }
        ms.push(member("lang", Json::Str(String::from_str(self.lang.value()))));
        ms.push(member("contexts", contexts_to_json(&self.contexts)));
        let r = Json::Obj(ms);
        proof {
            broadcast use
                crate::json::lemma_jview_members_len,
                crate::json::lemma_jview_members_index,
            ;

            assert(jview_members(ms@) =~= request_json(self@)->Obj_0);
        }
        r
    }
}

impl ApiMessage {
    /// The wire form of this message: the variant's own field and the
    /// numeric discriminant derived from the variant.
    pub fn to_json(&self) -> (r: Json)
        ensures
            r@ == message_json(self@),
    {
        let mut ms: Vec<(String, Json)> = Vec::new();
        match self {
            ApiMessage::Text { speech } => {
                ms.push(member("speech", Json::Str(speech.clone())));
                ms.push(member("type", Json::Int(0)));
            },
            ApiMessage::Image { image_url } => {
                ms.push(member("imageUrl", Json::Str(image_url.clone())));
                ms.push(member("type", Json::Int(3)));
            },
        }
        let r = Json::Obj(ms);
        proof {
            broadcast use
                crate::json::lemma_jview_members_len,
                crate::json::lemma_jview_members_index,
            ;

            assert(jview_members(ms@) =~= message_json(self@)->Obj_0);
        }
        r
    }
}

fn messages_to_json(ms: &Vec<ApiMessage>) -> (r: Json)
    ensures
        r@ == messages_json(ms@.map_values(|m: ApiMessage| m@)),
{
    broadcast use crate::json::lemma_jview_items_len, crate::json::lemma_jview_items_index;

    let mut out: Vec<Json> = Vec::new();
    let mut i: usize = 0;
    while i < ms.len()
        invariant
            i <= ms@.len(),
            out@.len() == i,
            forall|k: int|
                0 <= k < i ==> crate::json::jview_items(out@)[k] == message_json(ms@[k]@),
        decreases ms@.len() - i,
    {
        let mj = ms[i].to_json();
        let ghost mjv = mj@;
        let ghost prev = out@;
        out.push(mj);
        proof {
            assert(out@.len() == i + 1);
            assert forall|k: int| 0 <= k < i + 1 implies crate::json::jview_items(out@)[k]
                == message_json(ms@[k]@) by {
                crate::json::lemma_jview_items_len(out@);
                crate::json::lemma_jview_items_index(out@, k);
                if k < i {
                    assert(out@[k] == prev[k]);
                    crate::json::lemma_jview_items_index(prev, k);
                    assert(crate::json::jview_items(prev)[k] == message_json(ms@[k]@));
                } else {
                    assert(crate::json::jview(out@[k]) == mjv);
                }
            }
        }
        i += 1;
    }
    let r = Json::Arr(out);
    proof {
        assert(crate::json::jview_items(out@) =~= ms@.map_values(|m: ApiMessage| m@).map_values(
            |m: ApiMessageV| message_json(m),
        ));
    }
    r
}

fn copy_digits(v: &Vec<u8>) -> (r: Vec<u8>)
    ensures
        r@ == v@,
{
    let mut out: Vec<u8> = Vec::new();
    let mut i: usize = 0;
    while i < v.len()
        invariant
            i <= v@.len(),
            out@ == v@.take(i as int),
        decreases v@.len() - i,
    {
        out.push(v[i]);
        proof {
            assert(out@ =~= v@.take(i + 1 as int));
        }
        i += 1;
    }
    proof {
        assert(v@.take(v@.len() as int) =~= v@);
    }
    out
}

impl ApiScore {
    /// The wire form of the score, always with at least one fraction
    /// digit.
    pub fn to_json(&self) -> (r: Json)
        ensures
            r@ == score_json(self@),
    {
        let frac = if self.frac.len() == 0 {
            let mut one: Vec<u8> = Vec::new();
            one.push(0u8);
            proof {
                assert(one@ =~= seq![0u8]);
            }
            one
        } else {
            copy_digits(&self.frac)
        };
        Json::Flt { neg: false, int_part: self.int_part, frac }
    }
}

impl ApiFulfillment {
    /// The wire form of this fulfillment; absent messages are omitted.
    pub fn to_json(&self) -> (r: Json)
        ensures
            r@ == fulfillment_json(self@),
    {
        let mut ms: Vec<(String, Json)> = Vec::new();
        ms.push(member("speech", Json::Str(self.speech.clone())));
        match &self.messages {
            Some(list) => {
                ms.push(member("messages", messages_to_json(list)));
            },
            None => {},
        }
        let r = Json::Obj(ms);
        proof {
            broadcast use
                crate::json::lemma_jview_members_len,
                crate::json::lemma_jview_members_index,
            ;

            assert(jview_members(ms@) =~= fulfillment_json(self@)->Obj_0);
        }
        r
    }
}

impl ApiMetadata {
    /// The wire form of the metadata; an absent intent id is written as
    /// null, an absent intent name is omitted.
    pub fn to_json(&self) -> (r: Json)
        ensures
            r@ == metadata_json(self@),
    {
        let mut ms: Vec<(String, Json)> = Vec::new();
        ms.push(
            member(
                "intentId",
                match &self.intent_id {
                    Some(s) => Json::Str(s.clone()),
                    None => Json::Null,
                },
            ),
        );
        ms.push(member("webhookUsed", Json::Str(self.webhook_used.clone())));
        ms.push(
            member("webhookForSlotFillingUsed", Json::Str(self.webhook_slotfilling_used.clone())),
        );
        match &self.intent_name {
            Some(s) => {
                ms.push(member("intentName", Json::Str(s.clone())));
            },
            None => {},
        }
        let r = Json::Obj(ms);
        proof {
            broadcast use
                crate::json::lemma_jview_members_len,
                crate::json::lemma_jview_members_index,
            ;

            assert(jview_members(ms@) =~= metadata_json(self@)->Obj_0);
        }
        r
    }
}

impl ApiStatus {
    /// The wire form of the status; absent error details are omitted.
    pub fn to_json(&self) -> (r: Json)
        ensures
            r@ == status_json(self@),
    {
        let mut ms: Vec<(String, Json)> = Vec::new();
        ms.push(member("code", Json::Int(self.code as i64)));
        ms.push(member("errorType", Json::Str(self.error_type.clone())));
        match &self.error_details {
            Some(s) => {
                ms.push(member("errorDetails", Json::Str(s.clone())));
            },
            None => {},
        }
        let r = Json::Obj(ms);
        proof {
            broadcast use
                crate::json::lemma_jview_members_len,
                crate::json::lemma_jview_members_index,
            ;

            assert(jview_members(ms@) =~= status_json(self@)->Obj_0);
        }
        r
    }
}

impl ApiResult {
    /// The wire form of the result, with the renamed fields written under
    /// their wire names.
    pub fn to_json(&self) -> (r: Json)
        ensures
            r@ == result_json(self@),
    {
        let mut ms: Vec<(String, Json)> = Vec::new();
        ms.push(member("source", Json::Str(self.source.clone())));
        ms.push(member("resolvedQuery", Json::Str(self.resolved_query.clone())));
        ms.push(member("action", Json::Str(self.action.clone())));
        ms.push(member("actionIncomplete", Json::Bool(self.action_incomplete)));
        ms.push(member("parameters", Json::Obj(params_to_json(&self.parameters))));
        ms.push(member("contexts", contexts_to_json(&self.contexts)));
        ms.push(member("metadata", self.metadata.to_json()));
        ms.push(member("fulfillment", self.fulfillment.to_json()));
        ms.push(member("score", self.score.to_json()));
        let r = Json::Obj(ms);
        proof {
            broadcast use
                crate::json::lemma_jview_members_len,
                crate::json::lemma_jview_members_index,
            ;

            assert(jview_members(ms@) =~= result_json(self@)->Obj_0);
        }
        r
    }
}

impl ApiResponse {
    /// The wire form of the whole response.
    pub fn to_json(&self) -> (r: Json)
        ensures
            r@ == response_json(self@),
    {
        let mut ms: Vec<(String, Json)> = Vec::new();
        ms.push(member("id", Json::Str(self.id.clone())));
        ms.push(member("timestamp", Json::Str(self.timestamp.clone())));
        ms.push(member("lang", Json::Str(String::from_str(self.lang.value()))));
        ms.push(member("result", self.result.to_json()));
        ms.push(member("status", self.status.to_json()));
        ms.push(member("sessionId", Json::Str(self.session_id.clone())));
        let r = Json::Obj(ms);
        proof {
            broadcast use
                crate::json::lemma_jview_members_len,
                crate::json::lemma_jview_members_index,
            ;

            assert(jview_members(ms@) =~= response_json(self@)->Obj_0);
        }
        r
    }
}

// ---------------------------------------------------------------------
// Executable decoders.
// ---------------------------------------------------------------------

/// Look a key up among an object's members, first match wins.
fn obj_get_exec<'a>(ms: &'a Vec<(String, Json)>, key: &str) -> (r: Option<&'a Json>)
    ensures
        match r {
            Some(j) => obj_get(jview_members(ms@), key@) == Some(j@),
            None => obj_get(jview_members(ms@), key@) is None,
        },
{
    let ghost jms = jview_members(ms@);
    proof {
        crate::json::lemma_jview_members_len(ms@);
    }
    let mut i: usize = 0;
    proof {
        assert(jms.skip(0) =~= jms);
    }
    while i < ms.len()
        invariant
            i <= ms@.len(),
            jms == jview_members(ms@),
            jms.len() == ms@.len(),
            obj_get(jms, key@) == obj_get(jms.skip(i as int), key@),
        decreases ms@.len() - i,
    {
        proof {
            crate::json::lemma_jview_members_index(ms@, i as int);
            assert(jms.skip(i as int)[0] == jms[i as int]);
            assert(jms.skip(i as int).drop_first() =~= jms.skip(i + 1 as int));
        }
        if crate::text::str_eq(ms[i].0.as_str(), key) {
            return Some(&ms[i].1);
        }
        i += 1;
    }
    proof {
        assert(jms.skip(i as int) =~= Seq::<(Seq<char>, JsonV)>::empty());
    }
    None
}

/// A required string member, cloned out of the tree.
fn get_req_str(ms: &Vec<(String, Json)>, key: &str) -> (r: Result<String, DecodeError>)
    ensures
        match r {
            Ok(sv) => req_str(jview_members(ms@), key@) == Some(sv@),
            Err(_) => req_str(jview_members(ms@), key@) is None,
        },
{
    match obj_get_exec(ms, key) {
        Some(Json::Str(sv)) => Ok(sv.clone()),
        Some(_) => Err(DecodeError::new("field is not a string")),
        None => Err(DecodeError::new("required field is missing")),
    }
}

/// An optional string member: absent and null both give `None`.
fn get_opt_str(ms: &Vec<(String, Json)>, key: &str) -> (r: Result<Option<String>, DecodeError>)
    ensures
        match r {
            Ok(o) => opt_str(jview_members(ms@), key@) == Some(
                match o {
                    Some(sv) => Some(sv@),
                    None => None,
                },
            ),
            Err(_) => opt_str(jview_members(ms@), key@) is None,
        },
{
    match obj_get_exec(ms, key) {
        Some(Json::Str(sv)) => Ok(Some(sv.clone())),
        Some(Json::Null) => Ok(None),
        Some(_) => Err(DecodeError::new("field is neither a string nor null")),
        None => Ok(None),
    }
}

/// A string member with a default for an absent key.
fn get_str_or(ms: &Vec<(String, Json)>, key: &str, dflt: &str) -> (r: Result<
    String,
    DecodeError,
>)
    ensures
        match r {
            Ok(sv) => str_or(jview_members(ms@), key@, dflt@) == Some(sv@),
            Err(_) => str_or(jview_members(ms@), key@, dflt@) is None,
        },
{
    match obj_get_exec(ms, key) {
        Some(Json::Str(sv)) => Ok(sv.clone()),
        Some(_) => Err(DecodeError::new("field is not a string")),
        None => Ok(String::from_str(dflt)),
    }
}

/// A boolean member with a default for an absent key.
fn get_bool_or(ms: &Vec<(String, Json)>, key: &str, dflt: bool) -> (r: Result<
    bool,
    DecodeError,
>)
    ensures
        match r {
            Ok(b) => bool_or(jview_members(ms@), key@, dflt) == Some(b),
            Err(_) => bool_or(jview_members(ms@), key@, dflt) is None,
        },
{
    match obj_get_exec(ms, key) {
        Some(Json::Bool(b)) => Ok(*b),
        Some(_) => Err(DecodeError::new("field is not a boolean")),
        None => Ok(dflt),
    }
}

fn params_from_members_exec(ms: &Vec<(String, Json)>) -> (r: Result<
    Vec<(String, String)>,
    DecodeError,
>)
    ensures
        match r {
            Ok(ps) => params_from_members(jview_members(ms@)) == Some(
                ps@.map_values(|p: (String, String)| (p.0@, p.1@)),
            ),
            Err(_) => params_from_members(jview_members(ms@)) is None,
        },
{
    let ghost jms = jview_members(ms@);
    proof {
        crate::json::lemma_jview_members_len(ms@);
    }
    let mut out: Vec<(String, String)> = Vec::new();
    let mut i: usize = 0;
    proof {
        let f = |p: (String, String)| (p.0@, p.1@);
        assert(jms.skip(0) =~= jms);
        assert(out@.map_values(f) =~= Seq::<(Seq<char>, Seq<char>)>::empty());
        match params_from_members(jms) {
            Some(rest) => {
                assert(out@.map_values(f) + rest =~= rest);
            },
            None => {},
        }
    }
    while i < ms.len()
        invariant
            i <= ms@.len(),
            jms == jview_members(ms@),
            jms.len() == ms@.len(),
            match params_from_members(jms.skip(i as int)) {
                Some(rest) => params_from_members(jms) == Some(
                    out@.map_values(|p: (String, String)| (p.0@, p.1@)) + rest,
                ),
                None => params_from_members(jms) is None,
            },
        decreases ms@.len() - i,
    {
        proof {
            crate::json::lemma_jview_members_index(ms@, i as int);
            assert(jms.skip(i as int)[0] == jms[i as int]);
            assert(jms.skip(i as int).drop_first() =~= jms.skip(i + 1 as int));
        }
        let value: &Json = &ms[i].1;
        match value {
            Json::Str(sv) => {
                let key = ms[i].0.clone();
                let sval = sv.clone();
                let ghost kv = key@;
                let ghost vv = sval@;
                let ghost prev = out@;
                out.push((key, sval));
                proof {
                    let f = |p: (String, String)| (p.0@, p.1@);
                    assert(out@.map_values(f) =~= prev.map_values(f) + seq![(kv, vv)]);
                    match params_from_members(jms.skip(i + 1 as int)) {
                        Some(rest2) => {
                            assert(params_from_members(jms.skip(i as int)) == Some(
                                seq![(kv, vv)] + rest2,
                            ));
                            assert(prev.map_values(f) + (seq![(kv, vv)] + rest2) =~= out@.map_values(
                                f,
                            ) + rest2);
                        },
                        None => {},
                    }
                }
                i += 1;
            },
            _ => {
                return Err(DecodeError::new("parameter value is not a string"));
            },
        }
    }
    proof {
        let f = |p: (String, String)| (p.0@, p.1@);
        assert(jms.skip(i as int) =~= Seq::<(Seq<char>, JsonV)>::empty());
        assert(out@.map_values(f) + Seq::<(Seq<char>, Seq<char>)>::empty() =~= out@.map_values(f));
    }
    Ok(out)
}

fn params_from_json_exec(j: &Json) -> (r: Result<Vec<(String, String)>, DecodeError>)
    ensures
        match r {
            Ok(ps) => params_from_json(j@) == Some(
                ps@.map_values(|p: (String, String)| (p.0@, p.1@)),
            ),
            Err(_) => params_from_json(j@) is None,
        },
{
    match j {
        Json::Obj(ms) => params_from_members_exec(ms),
        _ => Err(DecodeError::new("mapping is not an object")),
    }
}

impl ApiContext {
    /// Decode one context from its wire form.
    pub fn from_json(j: &Json) -> (r: Result<ApiContext, DecodeError>)
        ensures
            match r {
                Ok(c) => context_from_json(j@) == Some(c@),
                Err(_) => context_from_json(j@) is None,
            },
    {
        let ms = match j {
            Json::Obj(ms) => ms,
            _ => {
                return Err(DecodeError::new("context is not an object"));
            },
        };
        let name = match get_req_str(ms, "name") {
            Ok(sv) => sv,
            Err(e) => {
                return Err(e);
            },
        };
        let parameters = match obj_get_exec(ms, "parameters") {
            Some(pj) => match params_from_json_exec(pj) {
                Ok(ps) => ps,
                Err(e) => {
                    return Err(e);
                },
            },
            None => {
                return Err(DecodeError::new("context parameters are missing"));
            },
        };
        let lifespan = match obj_get_exec(ms, "lifespan") {
            None => None,
            Some(Json::Null) => None,
            Some(Json::Int(n)) => {
                if *n < -2147483648i64 || *n > 2147483647i64 {
                    return Err(DecodeError::new("context lifespan is out of range"));
                } else {
                    Some(*n as i32)
                }
            },
            Some(_) => {
                return Err(DecodeError::new("context lifespan is not an integer"));
            },
        };
        Ok(ApiContext { name, parameters, lifespan })
    }
}

fn contexts_from_items_exec(items: &Vec<Json>) -> (r: Result<Vec<ApiContext>, DecodeError>)
    ensures
        match r {
            Ok(cs) => contexts_from_items(crate::json::jview_items(items@)) == Some(
                cs@.map_values(|c: ApiContext| c@),
            ),
            Err(_) => contexts_from_items(crate::json::jview_items(items@)) is None,
        },
{
    let ghost jitems = crate::json::jview_items(items@);
    proof {
        crate::json::lemma_jview_items_len(items@);
    }
    let mut out: Vec<ApiContext> = Vec::new();
    let mut i: usize = 0;
    proof {
        let f = |c: ApiContext| c@;
        assert(jitems.skip(0) =~= jitems);
        assert(out@.map_values(f) =~= Seq::<ApiContextV>::empty());
        match contexts_from_items(jitems) {
            Some(rest) => {
                assert(out@.map_values(f) + rest =~= rest);
            },
            None => {},
        }
    }
    while i < items.len()
        invariant
            i <= items@.len(),
            jitems == crate::json::jview_items(items@),
            jitems.len() == items@.len(),
            match contexts_from_items(jitems.skip(i as int)) {
                Some(rest) => contexts_from_items(jitems) == Some(
                    out@.map_values(|c: ApiContext| c@) + rest,
                ),
                None => contexts_from_items(jitems) is None,
            },
        decreases items@.len() - i,
    {
        proof {
            crate::json::lemma_jview_items_index(items@, i as int);
            assert(jitems.skip(i as int)[0] == jitems[i as int]);
            assert(jitems.skip(i as int).drop_first() =~= jitems.skip(i + 1 as int));
        }
        match ApiContext::from_json(&items[i]) {
            Ok(c) => {
                let ghost cv = c@;
                let ghost prev = out@;
                out.push(c);
                proof {
                    let f = |c: ApiContext| c@;
                    assert(out@.map_values(f) =~= prev.map_values(f) + seq![cv]);
                    match contexts_from_items(jitems.skip(i + 1 as int)) {
                        Some(rest2) => {
                            assert(contexts_from_items(jitems.skip(i as int)) == Some(
                                seq![cv] + rest2,
                            ));
                            assert(prev.map_values(f) + (seq![cv] + rest2) =~= out@.map_values(f)
                                + rest2);
                        },
                        None => {},
                    }
                }
                i += 1;
            },
            Err(e) => {
                return Err(e);
            },
        }
    }
    proof {
        let f = |c: ApiContext| c@;
        assert(jitems.skip(i as int) =~= Seq::<JsonV>::empty());
        assert(out@.map_values(f) + Seq::<ApiContextV>::empty() =~= out@.map_values(f));
    }
    Ok(out)
}

fn contexts_from_json_exec(j: &Json) -> (r: Result<Vec<ApiContext>, DecodeError>)
    ensures
        match r {
            Ok(cs) => contexts_from_json(j@) == Some(cs@.map_values(|c: ApiContext| c@)),
            Err(_) => contexts_from_json(j@) is None,
        },
{
    match j {
        Json::Arr(items) => contexts_from_items_exec(items),
        _ => Err(DecodeError::new("contexts are not an array")),
    }
}

impl ApiEvent {
    /// Decode one event from its wire form.
    pub fn from_json(j: &Json) -> (r: Result<ApiEvent, DecodeError>)
        ensures
            match r {
                Ok(e) => event_from_json(j@) == Some(e@),
                Err(_) => event_from_json(j@) is None,
            },
    {
        let ms = match j {
            Json::Obj(ms) => ms,
            _ => {
                return Err(DecodeError::new("event is not an object"));
            },
        };
        let name = match get_req_str(ms, "name") {
            Ok(sv) => sv,
            Err(e) => {
                return Err(e);
            },
        };
        let data = match obj_get_exec(ms, "data") {
            None => None,
            Some(Json::Null) => None,
            Some(Json::Obj(dms)) => match params_from_members_exec(dms) {
                Ok(d) => Some(d),
                Err(e) => {
                    return Err(e);
                },
            },
            Some(_) => {
                return Err(DecodeError::new("event data is not an object"));
            },
        };
        Ok(ApiEvent { name, data })
    }
}

impl ApiMessage {
    /// Decode one message from its wire form; an unrecognized discriminant
    /// or a missing distinguishing field is rejected.
    pub fn from_json(j: &Json) -> (r: Result<ApiMessage, DecodeError>)
        ensures
            match r {
                Ok(m) => message_from_json(j@) == Some(m@),
                Err(_) => message_from_json(j@) is None,
            },
    {
        let ms = match j {
            Json::Obj(ms) => ms,
            _ => {
                return Err(DecodeError::new("message is not an object"));
            },
        };
        let t: i64 = match obj_get_exec(ms, "type") {
            Some(Json::Int(t)) => *t,
            Some(_) => {
                return Err(DecodeError::new("message type is not an integer"));
            },
            None => {
                return Err(DecodeError::new("message type is missing"));
            },
        };
        if t == 0 {
            match get_req_str(ms, "speech") {
                Ok(speech) => Ok(ApiMessage::Text { speech }),
                Err(e) => Err(e),
            }
        } else if t == 3 {
            match get_req_str(ms, "imageUrl") {
                Ok(image_url) => Ok(ApiMessage::Image { image_url }),
                Err(e) => Err(e),
            }
        } else {
            Err(DecodeError::new("unsupported message type"))
        }
    }
}

fn messages_from_items_exec(items: &Vec<Json>) -> (r: Result<Vec<ApiMessage>, DecodeError>)
    ensures
        match r {
            Ok(msv) => messages_from_items(crate::json::jview_items(items@)) == Some(
                msv@.map_values(|m: ApiMessage| m@),
            ),
            Err(_) => messages_from_items(crate::json::jview_items(items@)) is None,
        },
{
    let ghost jitems = crate::json::jview_items(items@);
    proof {
        crate::json::lemma_jview_items_len(items@);
    }
    let mut out: Vec<ApiMessage> = Vec::new();
    let mut i: usize = 0;
    proof {
        let f = |m: ApiMessage| m@;
        assert(jitems.skip(0) =~= jitems);
        assert(out@.map_values(f) =~= Seq::<ApiMessageV>::empty());
        match messages_from_items(jitems) {
            Some(rest) => {
                assert(out@.map_values(f) + rest =~= rest);
            },
            None => {},
        }
    }
    while i < items.len()
        invariant
            i <= items@.len(),
            jitems == crate::json::jview_items(items@),
            jitems.len() == items@.len(),
            match messages_from_items(jitems.skip(i as int)) {
                Some(rest) => messages_from_items(jitems) == Some(
                    out@.map_values(|m: ApiMessage| m@) + rest,
                ),
                None => messages_from_items(jitems) is None,
            },
        decreases items@.len() - i,
    {
        proof {
            crate::json::lemma_jview_items_index(items@, i as int);
            assert(jitems.skip(i as int)[0] == jitems[i as int]);
            assert(jitems.skip(i as int).drop_first() =~= jitems.skip(i + 1 as int));
        }
        match ApiMessage::from_json(&items[i]) {
            Ok(m) => {
                let ghost mv = m@;
                let ghost prev = out@;
                out.push(m);
                proof {
                    let f = |m: ApiMessage| m@;
                    assert(out@.map_values(f) =~= prev.map_values(f) + seq![mv]);
                    match messages_from_items(jitems.skip(i + 1 as int)) {
                        Some(rest2) => {
                            assert(messages_from_items(jitems.skip(i as int)) == Some(
                                seq![mv] + rest2,
                            ));
                            assert(prev.map_values(f) + (seq![mv] + rest2) =~= out@.map_values(f)
                                + rest2);
                        },
                        None => {},
                    }
                }
                i += 1;
            },
            Err(e) => {
                return Err(e);
            },
        }
    }
    proof {
        let f = |m: ApiMessage| m@;
        assert(jitems.skip(i as int) =~= Seq::<JsonV>::empty());
        assert(out@.map_values(f) + Seq::<ApiMessageV>::empty() =~= out@.map_values(f));
    }
    Ok(out)
}

impl ApiFulfillment {
    /// Decode a fulfillment from its wire form.
    pub fn from_json(j: &Json) -> (r: Result<ApiFulfillment, DecodeError>)
        ensures
            match r {
                Ok(f) => fulfillment_from_json(j@) == Some(f@),
                Err(_) => fulfillment_from_json(j@) is None,
            },
    {
        let ms = match j {
            Json::Obj(ms) => ms,
            _ => {
                return Err(DecodeError::new("fulfillment is not an object"));
            },
        };
        let speech = match get_req_str(ms, "speech") {
            Ok(sv) => sv,
            Err(e) => {
                return Err(e);
            },
        };
        let messages = match obj_get_exec(ms, "messages") {
            None => None,
            Some(Json::Null) => None,
            Some(Json::Arr(items)) => match messages_from_items_exec(items) {
                Ok(list) => Some(list),
                Err(e) => {
                    return Err(e);
                },
            },
            Some(_) => {
                return Err(DecodeError::new("fulfillment messages are not an array"));
            },
        };
        Ok(ApiFulfillment { speech, messages })
    }
}

impl ApiMetadata {
    /// Decode metadata from its wire form, with the documented defaults
    /// for absent members.
    pub fn from_json(j: &Json) -> (r: Result<ApiMetadata, DecodeError>)
        ensures
            match r {
                Ok(m) => metadata_from_json(j@) == Some(m@),
                Err(_) => metadata_from_json(j@) is None,
            },
    {
        let ms = match j {
            Json::Obj(ms) => ms,
            _ => {
                return Err(DecodeError::new("metadata is not an object"));
            },
        };
        let intent_id = match get_opt_str(ms, "intentId") {
            Ok(o) => o,
            Err(e) => {
                return Err(e);
            },
        };
        let webhook_used = match get_str_or(ms, "webhookUsed", "false") {
            Ok(sv) => sv,
            Err(e) => {
                return Err(e);
            },
        };
        let webhook_slotfilling_used = match get_str_or(ms, "webhookForSlotFillingUsed", "false") {
            Ok(sv) => sv,
            Err(e) => {
                return Err(e);
            },
        };
        let intent_name = match get_opt_str(ms, "intentName") {
            Ok(o) => o,
            Err(e) => {
                return Err(e);
            },
        };
        Ok(ApiMetadata { intent_id, webhook_used, webhook_slotfilling_used, intent_name })
    }
}

impl ApiStatus {
    /// Decode a status from its wire form.
    pub fn from_json(j: &Json) -> (r: Result<ApiStatus, DecodeError>)
        ensures
            match r {
                Ok(st) => status_from_json(j@) == Some(st@),
                Err(_) => status_from_json(j@) is None,
            },
    {
        let ms = match j {
            Json::Obj(ms) => ms,
            _ => {
                return Err(DecodeError::new("status is not an object"));
            },
        };
        let code: i32 = match obj_get_exec(ms, "code") {
            Some(Json::Int(n)) => {
                if *n < -2147483648i64 || *n > 2147483647i64 {
                    return Err(DecodeError::new("status code is out of range"));
                } else {
                    *n as i32
                }
            },
            Some(_) => {
                return Err(DecodeError::new("status code is not an integer"));
            },
            None => {
                return Err(DecodeError::new("status code is missing"));
            },
        };
        let error_type = match get_req_str(ms, "errorType") {
            Ok(sv) => sv,
            Err(e) => {
                return Err(e);
            },
        };
        let error_details = match get_opt_str(ms, "errorDetails") {
            Ok(o) => o,
            Err(e) => {
                return Err(e);
            },
        };
        Ok(ApiStatus { code, error_type, error_details })
    }
}

impl ApiScore {
    /// Decode a score from an integer or a non-negative decimal,
    /// normalizing the fraction.
    pub fn from_json(j: &Json) -> (r: Result<ApiScore, DecodeError>)
        ensures
            match r {
                Ok(sc) => score_from_json(j@) == Some(sc@),
                Err(_) => score_from_json(j@) is None,
            },
    {
        match j {
            Json::Int(n) => {
                if *n < 0 {
                    Err(DecodeError::new("score is negative"))
                } else {
                    Ok(ApiScore { int_part: *n as u64, frac: Vec::new() })
                }
            },
            Json::Flt { neg, int_part, frac } => {
                if *neg {
                    Err(DecodeError::new("score is negative"))
                } else {
                    let mut digits = copy_digits(frac);
                    while digits.len() > 0 && digits[digits.len() - 1] == 0
                        invariant
                            strip_zeros(digits@) == strip_zeros(frac@),
                        decreases digits@.len(),
                    {
                        let ghost prev = digits@;
                        digits.pop();
                        proof {
                            assert(digits@ =~= prev.drop_last());
                        }
                    }
                    Ok(ApiScore { int_part: *int_part, frac: digits })
                }
            },
            _ => Err(DecodeError::new("score is not a number")),
        }
    }
}

impl ApiResult {
    /// Decode a result from its wire form, with the documented defaults
    /// for absent members.
    pub fn from_json(j: &Json) -> (r: Result<ApiResult, DecodeError>)
        ensures
            match r {
                Ok(res) => result_from_json(j@) == Some(res@),
                Err(_) => result_from_json(j@) is None,
            },
    {
        let ms = match j {
            Json::Obj(ms) => ms,
            _ => {
                return Err(DecodeError::new("result is not an object"));
            },
        };
        let source = match get_req_str(ms, "source") {
            Ok(sv) => sv,
            Err(e) => {
                return Err(e);
            },
        };
        let resolved_query = match get_req_str(ms, "resolvedQuery") {
            Ok(sv) => sv,
            Err(e) => {
                return Err(e);
            },
        };
        let action = match get_req_str(ms, "action") {
            Ok(sv) => sv,
            Err(e) => {
                return Err(e);
            },
        };
        let action_incomplete = match get_bool_or(ms, "actionIncomplete", false) {
            Ok(b) => b,
            Err(e) => {
                return Err(e);
            },
        };
        let parameters = match obj_get_exec(ms, "parameters") {
            Some(pj) => match params_from_json_exec(pj) {
                Ok(ps) => ps,
                Err(e) => {
                    return Err(e);
                },
            },
            None => {
                return Err(DecodeError::new("result parameters are missing"));
            },
        };
        let contexts = match obj_get_exec(ms, "contexts") {
            None => Vec::new(),
            Some(cj) => match contexts_from_json_exec(cj) {
                Ok(cs) => cs,
                Err(e) => {
                    return Err(e);
                },
            },
        };
        proof {
            assert(Seq::<ApiContextV>::empty() =~= Seq::<ApiContext>::empty().map_values(
                |c: ApiContext| c@,
            ));
        }
        let metadata = match obj_get_exec(ms, "metadata") {
            Some(mj) => match ApiMetadata::from_json(mj) {
                Ok(m) => m,
                Err(e) => {
                    return Err(e);
                },
            },
            None => {
                return Err(DecodeError::new("result metadata is missing"));
            },
        };
        let fulfillment = match obj_get_exec(ms, "fulfillment") {
            Some(fj) => match ApiFulfillment::from_json(fj) {
                Ok(f) => f,
                Err(e) => {
                    return Err(e);
                },
            },
            None => {
                return Err(DecodeError::new("result fulfillment is missing"));
            },
        };
        let score = match obj_get_exec(ms, "score") {
            Some(sj) => match ApiScore::from_json(sj) {
                Ok(sc) => sc,
                Err(e) => {
                    return Err(e);
                },
            },
            None => {
                return Err(DecodeError::new("result score is missing"));
            },
        };
        Ok(
            ApiResult {
                source,
                resolved_query,
                action,
                action_incomplete,
                parameters,
                contexts,
                metadata,
                fulfillment,
                score,
            },
        )
    }
}

impl ApiResponse {
    /// Decode a whole response from its wire form.
    pub fn from_json(j: &Json) -> (r: Result<ApiResponse, DecodeError>)
        ensures
            match r {
                Ok(resp) => response_from_json(j@) == Some(resp@),
                Err(_) => response_from_json(j@) is None,
            },
    {
        let ms = match j {
            Json::Obj(ms) => ms,
            _ => {
                return Err(DecodeError::new("response is not an object"));
            },
        };
        let id = match get_req_str(ms, "id") {
            Ok(sv) => sv,
            Err(e) => {
                return Err(e);
            },
        };
        let timestamp = match get_req_str(ms, "timestamp") {
            Ok(sv) => sv,
            Err(e) => {
                return Err(e);
            },
        };
        let lang = match obj_get_exec(ms, "lang") {
            None => Language::English,
            Some(Json::Str(sv)) => match Language::from_code(sv.as_str()) {
                Ok(l) => l,
                Err(e) => {
                    return Err(e);
                },
            },
            Some(_) => {
                return Err(DecodeError::new("response language is not a string"));
            },
        };
        let result = match obj_get_exec(ms, "result") {
            Some(rj) => match ApiResult::from_json(rj) {
                Ok(res) => res,
                Err(e) => {
                    return Err(e);
                },
            },
            None => {
                return Err(DecodeError::new("response result is missing"));
            },
        };
        let status = match obj_get_exec(ms, "status") {
            Some(sj) => match ApiStatus::from_json(sj) {
                Ok(st) => st,
                Err(e) => {
                    return Err(e);
                },
            },
            None => {
                return Err(DecodeError::new("response status is missing"));
            },
        };
        let session_id = match get_req_str(ms, "sessionId") {
            Ok(sv) => sv,
            Err(e) => {
                return Err(e);
            },
        };
        Ok(ApiResponse { id, timestamp, lang, result, status, session_id })
    }
}

impl ApiRequest {
    /// Decode a request from its wire form: exactly one of `query` and
    /// `event` must be present, an absent session identifier decodes to
    /// the empty string, and `lang` and `contexts` are required.
    pub fn from_json(j: &Json) -> (r: Result<ApiRequest, DecodeError>)
        ensures
            match r {
                Ok(req) => request_from_json(j@) == Some(req@),
                Err(_) => request_from_json(j@) is None,
            },
    {
        let ms = match j {
            Json::Obj(ms) => ms,
            _ => {
                return Err(DecodeError::new("request is not an object"));
            },
        };
        let qj = obj_get_exec(ms, "query");
        let ej = obj_get_exec(ms, "event");
        let payload = match (qj, ej) {
            (Some(Json::Str(q)), None) => ApiQuery::Query(q.clone()),
            (None, Some(evj)) => match ApiEvent::from_json(evj) {
                Ok(e) => ApiQuery::Event(e),
                Err(e) => {
                    return Err(e);
                },
            },
            _ => {
                return Err(
                    DecodeError::new("request must hold exactly one of a query or an event"),
                );
            },
        };
        let session_id = match get_str_or(ms, "sessionId", "") {
            Ok(sv) => sv,
            Err(e) => {
                return Err(e);
            },
        };
        proof {
            reveal_strlit("");
            assert(""@ =~= Seq::<char>::empty());
        }
        let lang = match obj_get_exec(ms, "lang") {
            Some(Json::Str(sv)) => match Language::from_code(sv.as_str()) {
                Ok(l) => l,
                Err(e) => {
                    return Err(e);
                },
            },
            Some(_) => {
                return Err(DecodeError::new("request language is not a string"));
            },
            None => {
                return Err(DecodeError::new("request language is missing"));
            },
        };
        let contexts = match obj_get_exec(ms, "contexts") {
            Some(cj) => match contexts_from_json_exec(cj) {
                Ok(cs) => cs,
                Err(e) => {
                    return Err(e);
                },
            },
            None => {
                return Err(DecodeError::new("request contexts are missing"));
            },
        };
        Ok(ApiRequest { payload, session_id, lang, contexts })
    }
}

// ---------------------------------------------------------------------
// Text-level decoding: parse the document, then read the tree.
// ---------------------------------------------------------------------

pub open spec fn decode_response_text(s: Seq<char>) -> Option<ApiResponseV> {
    match crate::parse::parse_doc(s) {
        Some(v) => response_from_json(v),
        None => None,
    }
}

pub open spec fn decode_request_text(s: Seq<char>) -> Option<ApiRequestV> {
    match crate::parse::parse_doc(s) {
        Some(v) => request_from_json(v),
        None => None,
    }
}

pub open spec fn decode_event_text(s: Seq<char>) -> Option<ApiEventV> {
    match crate::parse::parse_doc(s) {
        Some(v) => event_from_json(v),
        None => None,
    }
}

pub open spec fn decode_message_text(s: Seq<char>) -> Option<ApiMessageV> {
    match crate::parse::parse_doc(s) {
        Some(v) => message_from_json(v),
        None => None,
    }
}

impl ApiResponse {
    /// Decode a response from JSON text.
    pub fn decode(s: &str) -> (r: Result<ApiResponse, DecodeError>)
        ensures
            match r {
                Ok(x) => decode_response_text(s@) == Some(x@),
                Err(_) => decode_response_text(s@) is None,
            },
    {
        match crate::parse::parse_json(s) {
            Ok(j) => ApiResponse::from_json(&j),
            Err(e) => Err(e),
        }
    }
}

impl ApiRequest {
    /// Decode a request from JSON text.
    pub fn decode(s: &str) -> (r: Result<ApiRequest, DecodeError>)
        ensures
            match r {
                Ok(x) => decode_request_text(s@) == Some(x@),
                Err(_) => decode_request_text(s@) is None,
            },
    {
        match crate::parse::parse_json(s) {
            Ok(j) => ApiRequest::from_json(&j),
            Err(e) => Err(e),
        }
    }

    /// Encode this request as JSON text, ready to be posted.
    pub fn encode(&self) -> (r: String)
        ensures
            r@ == crate::json::text_of(request_json(self@)),
    {
        self.to_json().to_text()
    }
}

impl ApiEvent {
    /// Decode an event from JSON text.
    pub fn decode(s: &str) -> (r: Result<ApiEvent, DecodeError>)
        ensures
            match r {
                Ok(x) => decode_event_text(s@) == Some(x@),
                Err(_) => decode_event_text(s@) is None,
            },
    {
        match crate::parse::parse_json(s) {
            Ok(j) => ApiEvent::from_json(&j),
            Err(e) => Err(e),
        }
    }
}

impl ApiMessage {
    /// Decode a message from JSON text.
    pub fn decode(s: &str) -> (r: Result<ApiMessage, DecodeError>)
        ensures
            match r {
                Ok(x) => decode_message_text(s@) == Some(x@),
                Err(_) => decode_message_text(s@) is None,
            },
    {
        match crate::parse::parse_json(s) {
            Ok(j) => ApiMessage::from_json(&j),
            Err(e) => Err(e),
        }
    }
}

// ---------------------------------------------------------------------
// Round trips: decoding an encoded value gives the value back.
// ---------------------------------------------------------------------

/// Lengths and first characters of the wire keys, so that lookups can
/// tell them apart.
pub proof fn lemma_wire_keys()
    ensures
        "name"@.len() == 4,
        "name"@[0] == 'n',
        "parameters"@.len() == 10,
        "parameters"@[0] == 'p',
        "lifespan"@.len() == 8,
        "lifespan"@[0] == 'l',
        "data"@.len() == 4,
        "data"@[0] == 'd',
        "query"@.len() == 5,
        "query"@[0] == 'q',
        "event"@.len() == 5,
        "event"@[0] == 'e',
        "sessionId"@.len() == 9,
        "sessionId"@[0] == 's',
        "lang"@.len() == 4,
        "lang"@[0] == 'l',
        "contexts"@.len() == 8,
        "contexts"@[0] == 'c',
        "speech"@.len() == 6,
        "speech"@[0] == 's',
        "type"@.len() == 4,
        "type"@[0] == 't',
        "imageUrl"@.len() == 8,
        "imageUrl"@[0] == 'i',
        "messages"@.len() == 8,
        "messages"@[0] == 'm',
        "intentId"@.len() == 8,
        "intentId"@[0] == 'i',
        "webhookUsed"@.len() == 11,
        "webhookUsed"@[0] == 'w',
        "webhookForSlotFillingUsed"@.len() == 25,
        "webhookForSlotFillingUsed"@[0] == 'w',
        "intentName"@.len() == 10,
        "intentName"@[0] == 'i',
        "code"@.len() == 4,
        "code"@[0] == 'c',
        "errorType"@.len() == 9,
        "errorType"@[0] == 'e',
        "errorDetails"@.len() == 12,
        "errorDetails"@[0] == 'e',
        "source"@.len() == 6,
        "source"@[0] == 's',
        "resolvedQuery"@.len() == 13,
        "resolvedQuery"@[0] == 'r',
        "action"@.len() == 6,
        "action"@[0] == 'a',
        "actionIncomplete"@.len() == 16,
        "actionIncomplete"@[0] == 'a',
        "metadata"@.len() == 8,
        "metadata"@[0] == 'm',
        "fulfillment"@.len() == 11,
        "fulfillment"@[0] == 'f',
        "score"@.len() == 5,
        "score"@[0] == 's',
        "id"@.len() == 2,
        "id"@[0] == 'i',
        "timestamp"@.len() == 9,
        "timestamp"@[0] == 't',
        "result"@.len() == 6,
        "result"@[0] == 'r',
        "false"@.len() == 5,
        "false"@[0] == 'f',
        "status"@.len() == 6,
        "status"@[0] == 's',
{
    reveal_strlit("name");
    reveal_strlit("parameters");
    reveal_strlit("lifespan");
    reveal_strlit("data");
    reveal_strlit("query");
    reveal_strlit("event");
    reveal_strlit("sessionId");
    reveal_strlit("lang");
    reveal_strlit("contexts");
    reveal_strlit("speech");
    reveal_strlit("type");
    reveal_strlit("imageUrl");
    reveal_strlit("messages");
    reveal_strlit("intentId");
    reveal_strlit("webhookUsed");
    reveal_strlit("webhookForSlotFillingUsed");
    reveal_strlit("intentName");
    reveal_strlit("code");
    reveal_strlit("errorType");
    reveal_strlit("errorDetails");
    reveal_strlit("source");
    reveal_strlit("resolvedQuery");
    reveal_strlit("action");
    reveal_strlit("actionIncomplete");
    reveal_strlit("metadata");
    reveal_strlit("fulfillment");
    reveal_strlit("score");
    reveal_strlit("id");
    reveal_strlit("timestamp");
    reveal_strlit("result");
    reveal_strlit("false");
    reveal_strlit("status");
}

pub proof fn lemma_obj_get_at(ms: Seq<(Seq<char>, JsonV)>, key: Seq<char>, i: int)
    requires
        0 <= i < ms.len(),
        ms[i].0 == key,
        forall|j: int| 0 <= j < i ==> (#[trigger] ms[j].0) != key,
    ensures
        obj_get(ms, key) == Some(ms[i].1),
    decreases i,
{
    if i > 0 {
        lemma_obj_get_at(ms.drop_first(), key, i - 1);
    }
}

pub proof fn lemma_obj_get_none(ms: Seq<(Seq<char>, JsonV)>, key: Seq<char>)
    requires
        forall|j: int| 0 <= j < ms.len() ==> (#[trigger] ms[j].0) != key,
    ensures
        obj_get(ms, key) is None,
    decreases ms.len(),
{
    if ms.len() > 0 {
        lemma_obj_get_none(ms.drop_first(), key);
    }
}

pub proof fn lemma_params_round_trip(ps: Seq<(Seq<char>, Seq<char>)>)
    ensures
        params_from_members(params_json(ps)) == Some(ps),
    decreases ps.len(),
{
    let ms = params_json(ps);
    if ps.len() == 0 {
        assert(ms.len() == 0);
        assert(params_from_members(ms) == Some(Seq::<(Seq<char>, Seq<char>)>::empty()));
        assert(Seq::<(Seq<char>, Seq<char>)>::empty() =~= ps);
    } else {
        lemma_params_round_trip(ps.drop_first());
        assert(ms.drop_first() =~= params_json(ps.drop_first()));
        assert(ms[0] == (ps[0].0, JsonV::Str(ps[0].1)));
        assert(ps[0] == (ps[0].0, ps[0].1));
        assert(seq![(ps[0].0, ps[0].1)] + ps.drop_first() =~= ps);
    }
}

/// Every fulfillment message decodes from its own encoding: the
/// discriminant and the variant field always find the variant they came
/// from.
pub proof fn lemma_message_round_trip(m: ApiMessageV)
    ensures
        message_from_json(message_json(m)) == Some(m),
{
    lemma_wire_keys();
    match m {
        ApiMessageV::Text { speech } => {
            let ms = message_json(m)->Obj_0;
            assert(ms[0] == ("speech"@, JsonV::Str(speech)));
            assert(ms[1] == ("type"@, JsonV::Int(0)));
            lemma_obj_get_at(ms, "type"@, 1);
            lemma_obj_get_at(ms, "speech"@, 0);
        },
        ApiMessageV::Image { image_url } => {
            let ms = message_json(m)->Obj_0;
            assert(ms[0] == ("imageUrl"@, JsonV::Str(image_url)));
            assert(ms[1] == ("type"@, JsonV::Int(3)));
            lemma_obj_get_at(ms, "type"@, 1);
            lemma_obj_get_at(ms, "imageUrl"@, 0);
        },
    }
}

pub proof fn lemma_messages_round_trip(msv: Seq<ApiMessageV>)
    ensures
        messages_from_items(msv.map_values(|m: ApiMessageV| message_json(m))) == Some(msv),
    decreases msv.len(),
{
    let items = msv.map_values(|m: ApiMessageV| message_json(m));
    if msv.len() == 0 {
        assert(items.len() == 0);
        assert(Seq::<ApiMessageV>::empty() =~= msv);
    } else {
        lemma_messages_round_trip(msv.drop_first());
        assert(items.drop_first() =~= msv.drop_first().map_values(
            |m: ApiMessageV| message_json(m),
        ));
        assert(items[0] == message_json(msv[0]));
        lemma_message_round_trip(msv[0]);
        assert(seq![msv[0]] + msv.drop_first() =~= msv);
    }
}

/// Every conversation context decodes from its own encoding.
pub proof fn lemma_context_round_trip(c: ApiContextV)
    ensures
        context_from_json(context_json(c)) == Some(c),
{
    lemma_wire_keys();
    let ms = context_json(c)->Obj_0;
    assert(ms[0] == ("name"@, JsonV::Str(c.name)));
    assert(ms[1] == ("parameters"@, JsonV::Obj(params_json(c.parameters))));
    lemma_obj_get_at(ms, "name"@, 0);
    lemma_obj_get_at(ms, "parameters"@, 1);
    lemma_obj_get_at(ms, "lifespan"@, 2);
    lemma_params_round_trip(c.parameters);
}

/// A context sequence round-trips through its encoding with the order
/// kept: position by position, each context comes back where it stood.
pub proof fn lemma_contexts_round_trip(cs: Seq<ApiContextV>)
    ensures
        contexts_from_json(contexts_json(cs)) == Some(cs),
    decreases cs.len(),
{
    let items = cs.map_values(|c: ApiContextV| context_json(c));
    if cs.len() == 0 {
        assert(items.len() == 0);
        assert(Seq::<ApiContextV>::empty() =~= cs);
    } else {
        lemma_contexts_round_trip(cs.drop_first());
        let items2 = cs.drop_first().map_values(|c: ApiContextV| context_json(c));
        assert(items.drop_first() =~= items2);
        assert(contexts_from_json(contexts_json(cs.drop_first())) == contexts_from_items(
            items2,
        ));
        assert(items[0] == context_json(cs[0]));
        lemma_context_round_trip(cs[0]);
        assert(seq![cs[0]] + cs.drop_first() =~= cs);
    }
}

/// Every event decodes from its own encoding; in particular an absent
/// data mapping survives the explicit null it is written as.
pub proof fn lemma_event_round_trip(e: ApiEventV)
    ensures
        event_from_json(event_json(e)) == Some(e),
{
    lemma_wire_keys();
    let ms = event_json(e)->Obj_0;
    assert(ms[0] == ("name"@, JsonV::Str(e.name)));
    lemma_obj_get_at(ms, "name"@, 0);
    lemma_obj_get_at(ms, "data"@, 1);
    match e.data {
        Some(d) => {
            lemma_params_round_trip(d);
        },
        None => {},
    }
}

/// Every request decodes from its own encoding: the payload keeps its
/// kind, an omitted empty session identifier comes back empty, the
/// language code maps back to the language, and the contexts keep their
/// order.
pub proof fn lemma_request_round_trip(r: ApiRequestV)
    ensures
        request_from_json(request_json(r)) == Some(r),
{
    lemma_wire_keys();
    crate::lang::lemma_language_round_trip(r.lang);
    let ms = request_json(r)->Obj_0;
    let qm = query_member(r.payload);
    if r.session_id.len() == 0 {
        assert(ms =~= seq![
            qm,
            ("lang"@, JsonV::Str(lang_code(r.lang))),
            ("contexts"@, contexts_json(r.contexts)),
        ]);
    } else {
        assert(ms =~= seq![
            qm,
            ("sessionId"@, JsonV::Str(r.session_id)),
            ("lang"@, JsonV::Str(lang_code(r.lang))),
            ("contexts"@, contexts_json(r.contexts)),
        ]);
    }
    match r.payload {
        ApiQueryV::Query(q) => {
            assert(qm == ("query"@, JsonV::Str(q)));
            lemma_obj_get_at(ms, "query"@, 0);
            lemma_obj_get_none(ms, "event"@);
        },
        ApiQueryV::Event(e) => {
            assert(qm == ("event"@, event_json(e)));
            lemma_obj_get_at(ms, "event"@, 0);
            lemma_obj_get_none(ms, "query"@);
            lemma_event_round_trip(e);
        },
    }
    if r.session_id.len() == 0 {
        lemma_obj_get_none(ms, "sessionId"@);
        assert(Seq::<char>::empty() =~= r.session_id);
        lemma_obj_get_at(ms, "lang"@, 1);
        lemma_obj_get_at(ms, "contexts"@, 2);
    } else {
        lemma_obj_get_at(ms, "sessionId"@, 1);
        lemma_obj_get_at(ms, "lang"@, 2);
        lemma_obj_get_at(ms, "contexts"@, 3);
    }
    lemma_contexts_round_trip(r.contexts);
}

/// A normalized score decodes from its own encoding: writing the score
/// with at least one fraction digit and dropping trailing zeros on the
/// way back cancel out.
pub proof fn lemma_score_round_trip(sc: ApiScoreV)
    requires
        wf_score(sc),
    ensures
        score_from_json(score_json(sc)) == Some(sc),
{
    if sc.frac.len() == 0 {
        let frac = seq![0u8];
        assert(frac.last() == 0);
        assert(frac.drop_last() =~= Seq::<u8>::empty());
        assert(strip_zeros(frac) == strip_zeros(Seq::<u8>::empty()));
        assert(strip_zeros(Seq::<u8>::empty()) =~= sc.frac);
    } else {
        assert(strip_zeros(sc.frac) == sc.frac);
    }
}

pub proof fn lemma_metadata_round_trip(m: ApiMetadataV)
    ensures
        metadata_from_json(metadata_json(m)) == Some(m),
{
    lemma_wire_keys();
    let ms = metadata_json(m)->Obj_0;
    match m.intent_name {
        Some(n) => {
            assert(ms =~= seq![
                (
                    "intentId"@,
                    match m.intent_id {
                        Some(s) => JsonV::Str(s),
                        None => JsonV::Null,
                    },
                ),
                ("webhookUsed"@, JsonV::Str(m.webhook_used)),
                ("webhookForSlotFillingUsed"@, JsonV::Str(m.webhook_slotfilling_used)),
                ("intentName"@, JsonV::Str(n)),
            ]);
            lemma_obj_get_at(ms, "intentName"@, 3);
        },
        None => {
            assert(ms =~= seq![
                (
                    "intentId"@,
                    match m.intent_id {
                        Some(s) => JsonV::Str(s),
                        None => JsonV::Null,
                    },
                ),
                ("webhookUsed"@, JsonV::Str(m.webhook_used)),
                ("webhookForSlotFillingUsed"@, JsonV::Str(m.webhook_slotfilling_used)),
            ]);
            lemma_obj_get_none(ms, "intentName"@);
        },
    }
    lemma_obj_get_at(ms, "intentId"@, 0);
    lemma_obj_get_at(ms, "webhookUsed"@, 1);
    lemma_obj_get_at(ms, "webhookForSlotFillingUsed"@, 2);
}

pub proof fn lemma_fulfillment_round_trip(f: ApiFulfillmentV)
    ensures
        fulfillment_from_json(fulfillment_json(f)) == Some(f),
{
    lemma_wire_keys();
    let ms = fulfillment_json(f)->Obj_0;
    match f.messages {
        Some(msv) => {
            assert(ms =~= seq![
                ("speech"@, JsonV::Str(f.speech)),
                ("messages"@, messages_json(msv)),
            ]);
            lemma_obj_get_at(ms, "messages"@, 1);
            lemma_messages_round_trip(msv);
        },
        None => {
            assert(ms =~= seq![("speech"@, JsonV::Str(f.speech))]);
            lemma_obj_get_none(ms, "messages"@);
        },
    }
    lemma_obj_get_at(ms, "speech"@, 0);
}

pub proof fn lemma_status_round_trip(st: ApiStatusV)
    ensures
        status_from_json(status_json(st)) == Some(st),
{
    lemma_wire_keys();
    let ms = status_json(st)->Obj_0;
    match st.error_details {
        Some(d) => {
            assert(ms =~= seq![
                ("code"@, JsonV::Int(st.code as int)),
                ("errorType"@, JsonV::Str(st.error_type)),
                ("errorDetails"@, JsonV::Str(d)),
            ]);
            lemma_obj_get_at(ms, "errorDetails"@, 2);
        },
        None => {
            assert(ms =~= seq![
                ("code"@, JsonV::Int(st.code as int)),
                ("errorType"@, JsonV::Str(st.error_type)),
            ]);
            lemma_obj_get_none(ms, "errorDetails"@);
        },
    }
    lemma_obj_get_at(ms, "code"@, 0);
    lemma_obj_get_at(ms, "errorType"@, 1);
}

pub proof fn lemma_result_round_trip(r: ApiResultV)
    requires
        wf_score(r.score),
    ensures
        result_from_json(result_json(r)) == Some(r),
{
    lemma_wire_keys();
    let ms = result_json(r)->Obj_0;
    assert(ms[0] == ("source"@, JsonV::Str(r.source)));
    assert(ms[1] == ("resolvedQuery"@, JsonV::Str(r.resolved_query)));
    assert(ms[2] == ("action"@, JsonV::Str(r.action)));
    assert(ms[3] == ("actionIncomplete"@, JsonV::Bool(r.action_incomplete)));
    assert(ms[4] == ("parameters"@, JsonV::Obj(params_json(r.parameters))));
    assert(ms[5] == ("contexts"@, contexts_json(r.contexts)));
    assert(ms[6] == ("metadata"@, metadata_json(r.metadata)));
    assert(ms[7] == ("fulfillment"@, fulfillment_json(r.fulfillment)));
    assert(ms[8] == ("score"@, score_json(r.score)));
    lemma_obj_get_at(ms, "source"@, 0);
    lemma_obj_get_at(ms, "resolvedQuery"@, 1);
    lemma_obj_get_at(ms, "action"@, 2);
    lemma_obj_get_at(ms, "actionIncomplete"@, 3);
    lemma_obj_get_at(ms, "parameters"@, 4);
    lemma_obj_get_at(ms, "contexts"@, 5);
    lemma_obj_get_at(ms, "metadata"@, 6);
    lemma_obj_get_at(ms, "fulfillment"@, 7);
    lemma_obj_get_at(ms, "score"@, 8);
    lemma_params_round_trip(r.parameters);
    lemma_contexts_round_trip(r.contexts);
    lemma_metadata_round_trip(r.metadata);
    lemma_fulfillment_round_trip(r.fulfillment);
    lemma_score_round_trip(r.score);
}

/// A whole response decodes from its own encoding, field defaults and
/// renames included, as long as its score is normalized.
pub proof fn lemma_response_round_trip(r: ApiResponseV)
    requires
        wf_score(r.result.score),
    ensures
        response_from_json(response_json(r)) == Some(r),
{
    lemma_wire_keys();
    crate::lang::lemma_language_round_trip(r.lang);
    let ms = response_json(r)->Obj_0;
    assert(ms[0] == ("id"@, JsonV::Str(r.id)));
    assert(ms[1] == ("timestamp"@, JsonV::Str(r.timestamp)));
    assert(ms[2] == ("lang"@, JsonV::Str(lang_code(r.lang))));
    assert(ms[3] == ("result"@, result_json(r.result)));
    assert(ms[4] == ("status"@, status_json(r.status)));
    assert(ms[5] == ("sessionId"@, JsonV::Str(r.session_id)));
    lemma_obj_get_at(ms, "id"@, 0);
    lemma_obj_get_at(ms, "timestamp"@, 1);
    lemma_obj_get_at(ms, "lang"@, 2);
    lemma_obj_get_at(ms, "result"@, 3);
    lemma_obj_get_at(ms, "status"@, 4);
    lemma_obj_get_at(ms, "sessionId"@, 5);
    lemma_result_round_trip(r.result);
    lemma_status_round_trip(r.status);
}

} // verus!
