use message_relay::json::encode_request_body;
use message_relay::json::parse_reply;
use message_relay::relay::build_request;
use message_relay::relay::is_success_status;
use message_relay::relay::relay_outcome;
use message_relay::relay::request_body;
use message_relay::relay::AIResponse;
use message_relay::relay::HttpOutcome;
use message_relay::relay::RelayError;
use message_relay::relay::RelayErrorKind;

fn ok_reply(r: Result<AIResponse, RelayError>) -> String {
    match r {
        Ok(resp) => resp.reply,
        Err(e) => panic!("expected a reply, got error: {}", e.text),
    }
}

fn err_of(r: Result<AIResponse, RelayError>) -> RelayError {
    match r {
        Ok(resp) => panic!("expected an error, got reply: {}", resp.reply),
        Err(e) => e,
    }
}

#[test]
fn encodes_plain_message() {
    assert_eq!(encode_request_body("hello"), "{\"message\":\"hello\"}");
}

#[test]
fn encodes_empty_message() {
    assert_eq!(encode_request_body(""), "{\"message\":\"\"}");
}

#[test]
fn encodes_specials() {
    assert_eq!(
        encode_request_body("a\"b\\c\nd\re\tf\u{8}g\u{c}h\u{1}"),
        "{\"message\":\"a\\\"b\\\\c\\nd\\re\\tf\\bg\\fh\\u0001\"}"
    );
}

#[test]
fn encodes_unicode_verbatim() {
    assert_eq!(
        encode_request_body("héllo 😀"),
        "{\"message\":\"héllo 😀\"}"
    );
}

#[test]
fn request_record_keeps_message() {
    let req = build_request(String::from("hi there"));
    assert_eq!(req.message, "hi there");
    assert_eq!(request_body(&req), "{\"message\":\"hi there\"}");
}

#[test]
fn parses_plain_reply() {
    assert_eq!(
        parse_reply("{\"reply\":\"hello-reply\"}"),
        Some(String::from("hello-reply"))
    );
}

#[test]
fn parses_empty_reply() {
    assert_eq!(parse_reply("{\"reply\":\"\"}"), Some(String::from("")));
}

#[test]
fn parses_reply_with_whitespace() {
    assert_eq!(
        parse_reply("  { \"reply\" : \"x\" }\n"),
        Some(String::from("x"))
    );
}

#[test]
fn parses_reply_with_escapes() {
    assert_eq!(
        parse_reply("{\"reply\":\"a\\\"b\\\\c\\nd\\/e\\bf\\fg\"}"),
        Some(String::from("a\"b\\c\nd/e\u{8}f\u{c}g"))
    );
}

#[test]
fn parses_reply_with_unicode_escapes() {
    assert_eq!(
        parse_reply("{\"reply\":\"\\u0041\\u00e9\\u0416\"}"),
        Some(String::from("AéЖ"))
    );
}

#[test]
fn parses_reply_with_raw_unicode() {
    assert_eq!(
        parse_reply("{\"reply\":\"héllo 😀\"}"),
        Some(String::from("héllo 😀"))
    );
}

#[test]
fn rejects_missing_reply_field() {
    assert_eq!(parse_reply("{\"answer\":\"x\"}"), None);
    assert_eq!(parse_reply("{}"), None);
}

#[test]
fn parses_reply_beside_extra_members() {
    assert_eq!(
        parse_reply("{\"reply\":\"\",\"a\":1}"),
        Some(String::from(""))
    );
    assert_eq!(
        parse_reply("{\"model\":\"m-1\",\"reply\":\"r\"}"),
        Some(String::from("r"))
    );
    assert_eq!(
        parse_reply("{ \"a\" : true , \"reply\" : \"r\" , \"b\" : null }"),
        Some(String::from("r"))
    );
}

#[test]
fn parses_reply_beside_nested_members() {
    assert_eq!(
        parse_reply(
            "{\"reply\":\"r\",\"usage\":{\"in\":5,\"arr\":[1,-2.5e3,true,null,\"s\"],\"deep\":{\"x\":[{}]}}}"
        ),
        Some(String::from("r"))
    );
    assert_eq!(
        parse_reply("{\"a\":{},\"b\":[],\"reply\":\"r\"}"),
        Some(String::from("r"))
    );
}

#[test]
fn parses_reply_named_by_escaped_key() {
    assert_eq!(
        parse_reply("{\"re\\u0070ly\":\"r\"}"),
        Some(String::from("r"))
    );
}

#[test]
fn rejects_duplicate_reply_member() {
    assert_eq!(parse_reply("{\"reply\":\"a\",\"reply\":\"b\"}"), None);
}

#[test]
fn rejects_malformed_extra_members() {
    assert_eq!(parse_reply("{\"a\":01,\"reply\":\"r\"}"), None);
    assert_eq!(parse_reply("{\"a\":tru,\"reply\":\"r\"}"), None);
    assert_eq!(parse_reply("{\"reply\":\"r\",}"), None);
    assert_eq!(parse_reply("{\"a\":1 \"reply\":\"r\"}"), None);
    assert_eq!(parse_reply("{\"a\":1.,\"reply\":\"r\"}"), None);
    assert_eq!(parse_reply("{a:1,\"reply\":\"r\"}"), None);
}

#[test]
fn bounds_nesting_of_skipped_values() {
    let shallow = format!(
        "{{\"a\":{}{},\"reply\":\"r\"}}",
        "[".repeat(50),
        "]".repeat(50)
    );
    assert_eq!(parse_reply(&shallow), Some(String::from("r")));
    let deep = format!(
        "{{\"a\":{}{},\"reply\":\"r\"}}",
        "[".repeat(200),
        "]".repeat(200)
    );
    assert_eq!(parse_reply(&deep), None);
}

#[test]
fn rejects_non_object_bodies() {
    assert_eq!(parse_reply("[1, 2]"), None);
    assert_eq!(parse_reply("\"reply\""), None);
    assert_eq!(parse_reply("42"), None);
    assert_eq!(parse_reply(""), None);
}

#[test]
fn rejects_non_string_reply() {
    assert_eq!(parse_reply("{\"reply\": 5}"), None);
}

#[test]
fn rejects_truncated_reply() {
    assert_eq!(parse_reply("{\"reply\":\"x"), None);
    assert_eq!(parse_reply("{\"reply\":\"x\""), None);
}

#[test]
fn rejects_trailing_garbage() {
    assert_eq!(parse_reply("{\"reply\":\"x\"} extra"), None);
}

#[test]
fn parses_surrogate_pair_escape() {
    assert_eq!(
        parse_reply("{\"reply\":\"\\ud83d\\ude00!\"}"),
        Some(String::from("😀!"))
    );
}

#[test]
fn rejects_lone_surrogate_escape() {
    assert_eq!(parse_reply("{\"reply\":\"\\ud800\"}"), None);
    assert_eq!(parse_reply("{\"reply\":\"\\udc00\"}"), None);
    assert_eq!(parse_reply("{\"reply\":\"\\ud83d\\u0041\"}"), None);
}

#[test]
fn rejects_raw_control_character() {
    assert_eq!(parse_reply("{\"reply\":\"a\u{1}b\"}"), None);
}

#[test]
fn success_statuses() {
    assert!(!is_success_status(199));
    assert!(is_success_status(200));
    assert!(is_success_status(299));
    assert!(!is_success_status(300));
    assert!(!is_success_status(404));
    assert!(!is_success_status(500));
}

#[test]
fn relay_hello_scenario() {
    let outcome = HttpOutcome::Response {
        status: 200,
        body: String::from("{\"reply\": \"hello-reply\"}"),
    };
    assert_eq!(ok_reply(relay_outcome(&outcome)), "hello-reply");
}

#[test]
fn relay_accepts_reply_beside_extra_members() {
    let outcome = HttpOutcome::Response {
        status: 200,
        body: String::from("{\"reply\":\"ok\",\"model\":\"m-1\",\"usage\":{\"tokens\":42}}"),
    };
    assert_eq!(ok_reply(relay_outcome(&outcome)), "ok");
}

#[test]
fn relay_reports_status_code() {
    let outcome = HttpOutcome::Response {
        status: 404,
        body: String::from("{\"reply\": \"ignored\"}"),
    };
    let e = err_of(relay_outcome(&outcome));
    assert_eq!(e.kind, RelayErrorKind::Status);
    assert!(e.text.contains("404"));
    assert_eq!(e.text, "API请求失败: 状态码 404");
}

#[test]
fn relay_reports_server_error_code() {
    let outcome = HttpOutcome::Response {
        status: 500,
        body: String::from(""),
    };
    let e = err_of(relay_outcome(&outcome));
    assert_eq!(e.kind, RelayErrorKind::Status);
    assert!(e.text.contains("500"));
}

#[test]
fn relay_status_boundaries() {
    let body = String::from("{\"reply\":\"ok\"}");
    let low = HttpOutcome::Response { status: 199, body: body.clone() };
    assert_eq!(err_of(relay_outcome(&low)).kind, RelayErrorKind::Status);
    let high = HttpOutcome::Response { status: 300, body: body.clone() };
    assert_eq!(err_of(relay_outcome(&high)).kind, RelayErrorKind::Status);
    let edge = HttpOutcome::Response { status: 299, body };
    assert_eq!(ok_reply(relay_outcome(&edge)), "ok");
}

#[test]
fn relay_reports_transport_failure() {
    let outcome = HttpOutcome::TransportFailure {
        detail: String::from("connection refused"),
    };
    let e = err_of(relay_outcome(&outcome));
    assert_eq!(e.kind, RelayErrorKind::Transport);
    assert_eq!(e.text, "发送请求失败: connection refused");
}

#[test]
fn relay_reports_shape_mismatch() {
    let outcome = HttpOutcome::Response {
        status: 200,
        body: String::from("{\"answer\": true}"),
    };
    let e = err_of(relay_outcome(&outcome));
    assert_eq!(e.kind, RelayErrorKind::Parse);
    assert_eq!(e.text, "解析响应失败: body is not a reply object");
}

#[test]
fn relay_reports_unreadable_body_as_parse_failure() {
    let outcome = HttpOutcome::BodyUnreadable {
        status: 200,
        detail: String::from("body stream cut short"),
    };
    let e = err_of(relay_outcome(&outcome));
    assert_eq!(e.kind, RelayErrorKind::Parse);
    assert_eq!(e.text, "解析响应失败: body stream cut short");
}

#[test]
fn relay_prefers_status_over_unreadable_body() {
    let outcome = HttpOutcome::BodyUnreadable {
        status: 503,
        detail: String::from("body stream cut short"),
    };
    let e = err_of(relay_outcome(&outcome));
    assert_eq!(e.kind, RelayErrorKind::Status);
    assert!(e.text.contains("503"));
}

#[test]
fn relay_calls_are_independent() {
    let outcome = HttpOutcome::Response {
        status: 200,
        body: String::from("{\"reply\":\"same answer\"}"),
    };
    let first = ok_reply(relay_outcome(&outcome));
    let second = ok_reply(relay_outcome(&outcome));
    assert_eq!(first, "same answer");
    assert_eq!(second, "same answer");
    assert_eq!(first, second);
}

#[test]
fn encoded_request_parses_as_reply_shape_only_for_reply() {
    // The encoder frames a "message" member, so the reply parser must not
    // accept it: the two documents are distinct shapes.
    let body = encode_request_body("hello");
    assert_eq!(parse_reply(&body), None);
}
