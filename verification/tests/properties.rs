use apiai::client::{decode_api_response, ApiAIClient, ApiError};
use apiai::json::Json;
use apiai::lang::Language;
use apiai::structure::{ApiContext, ApiEvent, ApiMessage, ApiQuery, ApiRequest, ApiResponse};

const ALL_LANGUAGES: [Language; 15] = [
    Language::BrazilianPortuguese,
    Language::ChineseCantonese,
    Language::ChineseSimplified,
    Language::ChineseTraditional,
    Language::English,
    Language::Dutch,
    Language::French,
    Language::German,
    Language::Italian,
    Language::Japanese,
    Language::Korean,
    Language::Portuguese,
    Language::Russian,
    Language::Spanish,
    Language::Ukranian,
];

#[test]
fn test_language_codes_round_trip() {
    let codes = [
        "pt-BR", "zh-HK", "zh-CN", "zh-TW", "en", "nl", "fr", "de", "it", "ja", "ko", "pt", "ru",
        "es", "uk",
    ];
    for (i, lang) in ALL_LANGUAGES.iter().enumerate() {
        assert_eq!(lang.value(), codes[i]);
        assert_eq!(Language::from_code(lang.value()).unwrap(), *lang);
    }
}

#[test]
fn test_unrecognized_language_code_fails_with_description() {
    let err = Language::from_code("xx").unwrap_err();
    assert_eq!(err.message, "Language xx was not a supported string.");
}

#[test]
fn test_message_round_trip_both_variants() {
    let text = ApiMessage::new_text(String::from("hi there"));
    let image = ApiMessage::new_image(String::from("https://example.com/cat.png"));
    for m in [text, image] {
        let back = ApiMessage::decode(m.to_json().to_text().as_str()).unwrap();
        assert_eq!(back, m);
    }
}

#[test]
fn test_message_rejects_unknown_discriminant() {
    assert!(ApiMessage::decode(r#"{"type":5,"speech":"hi"}"#).is_err());
}

#[test]
fn test_message_rejects_missing_distinguishing_field() {
    assert!(ApiMessage::decode(r#"{"type":0}"#).is_err());
    assert!(ApiMessage::decode(r#"{"speech":"hi"}"#).is_err());
}

#[test]
fn test_message_decodes_with_keys_in_either_order() {
    let a = ApiMessage::decode(r#"{"type":3,"imageUrl":"u"}"#).unwrap();
    let b = ApiMessage::decode(r#"{"imageUrl":"u","type":3}"#).unwrap();
    assert_eq!(a, b);
}

#[test]
fn test_context_sequence_round_trips_in_order() {
    let contexts = vec![
        ApiContext {
            name: String::from("first"),
            parameters: vec![(String::from("k"), String::from("v"))],
            lifespan: Some(3),
        },
        ApiContext {
            name: String::from("second"),
            parameters: Vec::new(),
            lifespan: None,
        },
    ];
    let req = ApiRequest {
        payload: ApiQuery::Query(String::from("hello")),
        session_id: String::from("s1"),
        lang: Language::French,
        contexts,
    };
    let back = ApiRequest::decode(req.encode().as_str()).unwrap();
    assert_eq!(back, req);
    let names: Vec<&str> = back.contexts.iter().map(|c| c.name.as_str()).collect();
    assert_eq!(names, vec!["first", "second"]);
}

#[test]
fn test_request_round_trips_with_empty_session() {
    let req = ApiRequest {
        payload: ApiQuery::Query(String::from("hello")),
        session_id: String::new(),
        lang: Language::Japanese,
        contexts: Vec::new(),
    };
    let text = req.encode();
    assert_eq!(text, r#"{"query":"hello","lang":"ja","contexts":[]}"#);
    let back = ApiRequest::decode(text.as_str()).unwrap();
    assert_eq!(back, req);
}

#[test]
fn test_request_rejects_both_or_neither_payload() {
    assert!(ApiRequest::decode(
        r#"{"query":"q","event":{"name":"e","data":null},"lang":"en","contexts":[]}"#
    )
    .is_err());
    assert!(ApiRequest::decode(r#"{"lang":"en","contexts":[]}"#).is_err());
}

#[test]
fn test_fresh_session_ids_are_generated_per_request() {
    let a = ApiRequest::with_query(String::from("hi"));
    let b = ApiRequest::with_query(String::from("hi"));
    assert_eq!(a.session_id.chars().count(), 36);
    assert_eq!(b.session_id.chars().count(), 36);
    assert_ne!(a.session_id, b.session_id);
    assert_eq!(a.lang, Language::English);
    assert!(a.contexts.is_empty());
}

#[test]
fn test_event_builder_request() {
    let req = ApiRequest::with_event(ApiEvent { name: String::from("Welcome"), data: None });
    match &req.payload {
        ApiQuery::Event(e) => assert_eq!(e.name, "Welcome"),
        ApiQuery::Query(_) => panic!("payload is supposed to be an event"),
    }
}

#[test]
fn test_omitted_optional_response_fields_default() {
    let body = r#"{
      "id": "i", "timestamp": "t",
      "result": {
        "source": "agent", "resolvedQuery": "q", "action": "a",
        "parameters": {},
        "metadata": {},
        "fulfillment": {"speech": "s"},
        "score": 0.25
      },
      "status": {"code": 200, "errorType": "success"},
      "sessionId": "sid"
    }"#;
    let resp = ApiResponse::decode(body).unwrap();
    assert_eq!(resp.lang, Language::English);
    assert_eq!(resp.result.action_incomplete, false);
    assert!(resp.result.contexts.is_empty());
    assert!(resp.result.metadata.intent_id.is_none());
    assert!(resp.result.metadata.intent_name.is_none());
    assert_eq!(resp.result.metadata.webhook_used, "false");
    assert_eq!(resp.result.metadata.webhook_slotfilling_used, "false");
    assert!(resp.result.fulfillment.messages.is_none());
    assert_eq!(resp.result.score.int_part, 0);
    assert_eq!(resp.result.score.frac, vec![2, 5]);
}

#[test]
fn test_response_with_unrecognized_language_fails() {
    let body = r#"{
      "id": "i", "timestamp": "t", "lang": "xx",
      "result": {
        "source": "agent", "resolvedQuery": "q", "action": "a",
        "parameters": {}, "metadata": {},
        "fulfillment": {"speech": "s"}, "score": 1
      },
      "status": {"code": 200, "errorType": "success"},
      "sessionId": "sid"
    }"#;
    let err = ApiResponse::decode(body).unwrap_err();
    assert_eq!(err.message, "Language xx was not a supported string.");
}

#[test]
fn test_response_missing_required_field_fails() {
    assert!(ApiResponse::decode(r#"{"id":"i"}"#).is_err());
}

#[test]
fn test_transport_body_decode_errors_are_serialization_errors() {
    let err = decode_api_response("not json at all").unwrap_err();
    assert!(matches!(err, ApiError::SerializationError(_)));
}

#[test]
fn test_query_url_from_defaults() {
    let client = ApiAIClient { access_token: String::from("token"), ..Default::default() };
    assert_eq!(client.query_url(), "https://api.api.ai/v1/query?v=20150910");
}

#[test]
fn test_json_text_escaping() {
    let j = Json::Str(String::from("a\"b\\c\nd"));
    assert_eq!(j.to_text(), "\"a\\\"b\\\\c\\nd\"");
}

#[test]
fn test_json_number_printing() {
    assert_eq!(Json::Int(-42).to_text(), "-42");
    assert_eq!(Json::Int(0).to_text(), "0");
    assert_eq!(
        Json::Flt { neg: false, int_part: 0, frac: vec![8, 5] }.to_text(),
        "0.85"
    );
}

#[test]
fn test_json_parse_unicode_escape() {
    let j = apiai::parse::parse_json(r#""\u0041!""#).unwrap();
    match j {
        Json::Str(s) => assert_eq!(s, "A!"),
        _ => panic!("not a string"),
    }
}

#[test]
fn test_json_parse_rejects_malformed_documents() {
    assert!(apiai::parse::parse_json("").is_err());
    assert!(apiai::parse::parse_json("{").is_err());
    assert!(apiai::parse::parse_json("[1,]").is_err());
    assert!(apiai::parse::parse_json("01").is_err());
    assert!(apiai::parse::parse_json("1e5").is_err());
    assert!(apiai::parse::parse_json("\"unterminated").is_err());
    assert!(apiai::parse::parse_json("{}extra").is_err());
}

#[test]
fn test_json_parse_whitespace_and_nesting() {
    let j = apiai::parse::parse_json(" [ 1 , {\"a\": [true, null]} ] ").unwrap();
    match &j {
        Json::Arr(items) => {
            assert_eq!(items.len(), 2);
            assert!(matches!(items[0], Json::Int(1)));
        },
        _ => panic!("not an array"),
    }
    assert_eq!(j.to_text(), r#"[1,{"a":[true,null]}]"#);
}

#[test]
fn test_response_round_trips_through_text() {
    let response = ApiResponse {
        id: String::from("id-1"),
        timestamp: String::from("2017-02-09T15:38:26.548Z"),
        lang: Language::Korean,
        result: apiai::structure::ApiResult {
            source: String::from("agent"),
            resolved_query: String::from("hello"),
            action: String::from("greet"),
            action_incomplete: true,
            parameters: vec![(String::from("name"), String::from("Sam"))],
            contexts: vec![ApiContext {
                name: String::from("ctx"),
                parameters: Vec::new(),
                lifespan: Some(2),
            }],
            metadata: apiai::structure::ApiMetadata {
                intent_id: None,
                webhook_used: String::from("true"),
                webhook_slotfilling_used: String::from("false"),
                intent_name: None,
            },
            fulfillment: apiai::structure::ApiFulfillment {
                speech: String::from("hi"),
                messages: Some(vec![
                    ApiMessage::new_text(String::from("hi")),
                    ApiMessage::new_image(String::from("https://example.com/a.png")),
                ]),
            },
            score: apiai::structure::ApiScore { int_part: 0, frac: vec![9, 7] },
        },
        status: apiai::structure::ApiStatus {
            code: 200,
            error_type: String::from("success"),
            error_details: Some(String::from("nothing went wrong")),
        },
        session_id: String::from("s-1"),
    };
    let back = ApiResponse::decode(response.to_json().to_text().as_str()).unwrap();
    assert_eq!(back, response);
}
