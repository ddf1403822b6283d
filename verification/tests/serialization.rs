use apiai::json::Json;
use apiai::lang::Language;
use apiai::structure::{
    ApiEvent, ApiFulfillment, ApiMessage, ApiMetadata, ApiQuery, ApiRequest, ApiResponse,
    ApiResult, ApiScore, ApiStatus,
};

/// The JSON text a language serializes to: its code as a JSON string.
fn language_json(lang: Language) -> String {
    Json::Str(String::from(lang.value())).to_text()
}

/// Read the language out of a one-member `{"lang": ...}` object.
fn language_from_lang_object(text: &str) -> Language {
    let parsed = apiai::parse::parse_json(text).unwrap();
    let members = match parsed {
        Json::Obj(members) => members,
        _ => panic!("not an object"),
    };
    let code = members
        .iter()
        .find(|m| m.0 == "lang")
        .map(|m| match &m.1 {
            Json::Str(code) => code.clone(),
            _ => panic!("lang is not a string"),
        })
        .unwrap();
    Language::from_code(code.as_str()).unwrap()
}

#[test]
fn serialization_tests_test_language_json_serialization() {
    let english = Language::English;

    assert!(String::from("\"en\"") == language_json(english));
}

#[test]
fn serialization_tests_test_language_json_deserialization() {
    let en_str: &'static str = "{\"lang\":\"en\"}";

    let lang = language_from_lang_object(en_str);

    assert!(lang == Language::English);
}

#[test]
fn test_apiquery_query_json_serialization() {
    let q = ApiQuery::Query(String::from("hello moto"));
    let query_string = "{\"query\":\"hello moto\"}";

    assert!(String::from(query_string) == q.to_json().to_text());
}

#[test]
fn test_apiquery_event_no_args_json_serialization() {
    let e = ApiQuery::Event(ApiEvent { name: String::from("Welcome"), data: Option::None });
    let event_string = "{\"event\":{\"name\":\"Welcome\",\"data\":null}}";

    assert!(String::from(event_string) == e.to_json().to_text());
}

#[test]
fn test_apiquery_event_with_args_json_serialization() {
    let data = vec![(String::from("client"), String::from("Slack"))];

    let e = ApiQuery::Event(ApiEvent { name: String::from("Welcome"), data: Option::Some(data) });

    let event_string = "{\"event\":{\"name\":\"Welcome\",\"data\":{\"client\":\"Slack\"}}}";

    assert!(String::from(event_string) == e.to_json().to_text());
}

#[test]
fn test_serialize_language_json() {
    let english = Language::English;

    assert!(String::from("\"en\"") == language_json(english));
}

#[test]
fn test_deserialize_language() {
    let en_str: &'static str = "{\"lang\":\"en\"}";

    let lang = language_from_lang_object(en_str);

    assert_eq!(lang, Language::English);
}

#[test]
fn test_serialize_event_no_args() {
    let e = ApiEvent { name: String::from("Welcome"), data: Option::None };
    let event_string = "{\"name\":\"Welcome\",\"data\":null}";

    assert_eq!(String::from(event_string), e.to_json().to_text());
}

#[test]
fn test_serialize_event_with_args_json() {
    let data = vec![(String::from("client"), String::from("Slack"))];

    let e = ApiEvent { name: String::from("Welcome"), data: Option::Some(data) };

    let event_string = "{\"name\":\"Welcome\",\"data\":{\"client\":\"Slack\"}}";

    assert_eq!(String::from(event_string), e.to_json().to_text());
}

#[test]
fn test_deserialize_apiquery_event_with_args() {
    let event_string = "{\"name\":\"Welcome\",\"data\":{\"client\":\"Slack\"}}";

    let evt: ApiEvent = ApiEvent::decode(event_string).unwrap();

    assert_eq!(evt.name, String::from("Welcome"));

    let data = evt.data.unwrap();
    assert_eq!(data.iter().find(|p| p.0 == "client").unwrap().1, "Slack");
}

#[test]
fn test_deserialize_apiquery_event_without_args() {
    let event_string = "{\"name\":\"Welcome\"}";

    let evt: ApiEvent = ApiEvent::decode(event_string).unwrap();

    assert_eq!(evt.name, String::from("Welcome"));

    assert!(evt.data.is_none());
}

#[test]
fn test_serialize_apirequest_query() {
    let query_string = r#"{"query":"hello moto","sessionId":"12345","lang":"en","contexts":[]}"#;

    let req = ApiRequest {
        payload: ApiQuery::Query(String::from("hello moto")),
        session_id: String::from("12345"),
        lang: Language::English,
        contexts: Vec::new(),
    };

    assert_eq!(query_string, req.encode());
}

#[test]
fn test_serialize_apirequest_event_no_data() {
    let query_string =
        r#"{"event":{"name":"Welcome","data":null},"sessionId":"12345","lang":"en","contexts":[]}"#;

    let e = ApiEvent { name: String::from("Welcome"), data: Option::None };

    let req = ApiRequest {
        payload: ApiQuery::Event(e),
        session_id: String::from("12345"),
        lang: Language::English,
        contexts: Vec::new(),
    };

    assert_eq!(query_string, req.encode());
}

#[test]
fn test_deserialize_apirequest_event_no_data() {
    let query_string =
        r#"{"event":{"name":"Welcome","data":null},"sessionId":"12345","lang":"en","contexts":[]}"#;

    let req: ApiRequest = ApiRequest::decode(query_string).unwrap();

    let event = match req.payload {
        ApiQuery::Event(event) => event,
        ApiQuery::Query(_) => panic!("payload is supposed to be an event"),
    };

    assert_eq!(event.name, "Welcome");
    assert!(event.data.is_none());
}

#[test]
fn test_deserialize_apirequest_event_with_data() {
    let query_string = r#"{"event":{"name":"Welcome","data":{"test":"arg1"}},"sessionId":"12345","lang":"en","contexts":[]}"#;

    let req: ApiRequest = ApiRequest::decode(query_string).unwrap();

    let event = match req.payload {
        ApiQuery::Event(event) => event,
        ApiQuery::Query(_) => panic!("payload is supposed to be an event"),
    };

    assert_eq!(event.name, "Welcome");
    let data = event.data.unwrap();

    assert_eq!(data.iter().find(|p| p.0 == "test").unwrap().1, "arg1");
}

#[test]
fn test_serialize_apimessage_text() {
    let apimessage = ApiMessage::new_text(String::from("Hello"));

    let msg_string = r#"{"speech":"Hello","type":0}"#;

    assert_eq!(msg_string, apimessage.to_json().to_text());
}

#[test]
fn test_deserialize_apimessage_text() {
    let msg_string = r#"{"type":0,"speech":"Hello"}"#;
    let msg: ApiMessage = ApiMessage::decode(msg_string).unwrap();

    match msg {
        ApiMessage::Text { speech } => {
            assert_eq!(speech, String::from("Hello"));
        },

        _ => panic!("Type is suppsed to be text"),
    };
}

#[test]
fn test_deserialize_api_response() {
    let json_string = r#"{
  "id": "b340a1f7-abee-4e13-9bdd-5e8938a48b7d",
  "timestamp": "2017-02-09T15:38:26.548Z",
  "lang": "en",
  "result": {
    "source": "agent",
    "resolvedQuery": "my name is Sam and I live in Paris",
    "action": "greetings",
    "actionIncomplete": false,
    "parameters": {},
    "contexts": [],
    "metadata": {
      "intentId": "9f41ef7c-82fa-42a7-9a30-49a93e2c14d0",
      "webhookUsed": "false",
      "webhookForSlotFillingUsed": "false",
      "intentName": "greetings"
    },
    "fulfillment": {
      "speech": "Hi Sam! Nice to meet you!",
      "messages": [
        {
          "type": 0,
          "speech": "Hi Sam! Nice to meet you!"
        }
      ]
    },
    "score": 1
  },
  "status": {
    "code": 200,
    "errorType": "success"
  },
  "sessionId": "4b6a6779-b8ea-4094-b2ed-a302ba201815"
}"#;

    let msg: ApiResponse = ApiResponse::decode(json_string).unwrap();

    assert_eq!(msg.status.code, 200);
    assert_eq!(msg.session_id, String::from("4b6a6779-b8ea-4094-b2ed-a302ba201815"));
    assert_eq!(msg.result.score, ApiScore { int_part: 1, frac: vec![] });
    assert_eq!(msg.result.fulfillment.speech, String::from("Hi Sam! Nice to meet you!"));
}

#[test]
fn test_serialize_api_response() {
    let status = ApiStatus {
        code: 200,
        error_type: String::from("success"),
        error_details: Option::None,
    };

    let msg = ApiMessage::new_text(String::from("Hi Sam! Nice to meet you!"));

    let fulfillment = ApiFulfillment {
        speech: String::from("Hi Sam! Nice to meet you!"),
        messages: Option::Some(vec![msg]),
    };

    let metadata = ApiMetadata {
        intent_id: Option::Some(String::from("9f41ef7c-82fa-42a7-9a30-49a93e2c14d0")),
        webhook_used: String::from("false"),
        webhook_slotfilling_used: String::from("false"),
        intent_name: Option::Some(String::from("greetings")),
    };

    let result = ApiResult {
        source: String::from("agent"),
        resolved_query: String::from("My name is Sam and I live in Paris"),
        action: String::from("greetings"),
        action_incomplete: false,
        parameters: Vec::new(),
        contexts: Vec::new(),
        metadata,
        fulfillment,
        score: ApiScore { int_part: 1, frac: vec![] },
    };

    let response = ApiResponse {
        id: String::from("b340a1f7-abee-4e13-9bdd-5e8938a48b7d"),
        timestamp: String::from("2017-02-09T15:38:26.548Z"),
        lang: Language::English,
        result,
        status,
        session_id: String::from("4b6a6779-b8ea-4094-b2ed-a302ba201815"),
    };

    let ideal_output = r#"{"id":"b340a1f7-abee-4e13-9bdd-5e8938a48b7d","timestamp":"2017-02-09T15:38:26.548Z","lang":"en","result":{"source":"agent","resolvedQuery":"My name is Sam and I live in Paris","action":"greetings","actionIncomplete":false,"parameters":{},"contexts":[],"metadata":{"intentId":"9f41ef7c-82fa-42a7-9a30-49a93e2c14d0","webhookUsed":"false","webhookForSlotFillingUsed":"false","intentName":"greetings"},"fulfillment":{"speech":"Hi Sam! Nice to meet you!","messages":[{"speech":"Hi Sam! Nice to meet you!","type":0}]},"score":1.0},"status":{"code":200,"errorType":"success"},"sessionId":"4b6a6779-b8ea-4094-b2ed-a302ba201815"}"#;

    assert_eq!(ideal_output, response.to_json().to_text())
}

#[test]
fn tests_test_language_json_serialization() {
    let english = Language::English;

    assert!(String::from("\"en\"") == language_json(english));
}

#[test]
fn tests_test_language_json_deserialization() {
    let en_str: &'static str = "{\"lang\":\"en\"}";

    let lang = language_from_lang_object(en_str);

    assert!(lang == Language::English);
}
