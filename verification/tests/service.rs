use hyper::header::{HeaderName, HeaderValue};
use hyper::{HeaderMap, Uri};
use sentry_mirror::config::{ConfigData, DataCategory, KeyRing, OutboundEntry};
use sentry_mirror::logging::LogFormat;
use sentry_mirror::request::read_and_decode_body;
use sentry_mirror::service::{
    forward, format_headers, format_pairs, handle_request, on_outcome,
    Forward, Outcome, OutboundCall, ProxyResponse, RaceStep, Refusal,
    Step,
};
use sentry_mirror::state::AppState;
use sentry_mirror::uri::RequestUri;

fn make_test_config() -> ConfigData {
    ConfigData {
        sentry_dsn: None,
        sentry_env: None,
        traces_sample_rate_bits: None,
        log_filter: "debug".into(),
        log_format: LogFormat::Text,
        statsd_addr: None,
        default_metrics_tags: None,
        ip: "127.0.0.1".into(),
        port: 3000,
        verbose: true,
        keys: vec![
            KeyRing {
                inbound: Some(
                    "https://eeeeee12345678901234567890123456@localhost:3000/1234".to_string(),
                ),
                outbound: vec![
                    OutboundEntry::Dsn(Some(
                        "https://aaaaaaaa123456789012345678901234@target.example.com/5678"
                            .to_string(),
                    )),
                    OutboundEntry::Dsn(Some(
                        "https://bbbbbbbb234567890123456789012345@other.example.com/9012"
                            .to_string(),
                    )),
                ],
            },
            KeyRing {
                inbound: Some(
                    "https://ddddddd1234567890123456789012345@localhost:3000/3456".to_string(),
                ),
                outbound: vec![OutboundEntry::Dsn(Some(
                    "https://bbbbbb12345678901234567890123456@target.example.com/7890".to_string(),
                ))],
            },
        ],
        modify_envelope_header: true,
    }
}

fn make_app_state() -> AppState {
    AppState::from_config(make_test_config()).unwrap()
}

fn target(uri: &str) -> RequestUri {
    let uri: Uri = uri.parse().unwrap();
    RequestUri { path: uri.path().to_string(), query: uri.query().map(|q| q.to_string()) }
}

fn extract_body(response: ProxyResponse) -> String {
    String::from_utf8(response.body).unwrap()
}

fn answered(step: Step) -> ProxyResponse {
    match step {
        Step::Health(response) => response,
        Step::Refuse { response, .. } => response,
        Step::ReadBody { .. } => panic!("not answered"),
    }
}

#[test]
fn test_handle_request_health() {
    let state = make_app_state();
    let headers = HeaderMap::new();
    let step = handle_request(&state, "GET", &target("http://example.com/health"), &headers);
    let response = answered(step);
    assert_eq!(200, response.status);
    assert_eq!("ok", extract_body(response));
}

#[test]
fn test_handle_request_proxy_incorrect_method() {
    let state = make_app_state();
    let headers = HeaderMap::new();
    let step = handle_request(&state, "GET", &target("http://localhost:3000/store"), &headers);
    let response = answered(step);

    assert_eq!(405, response.status);
    assert_eq!("Method not allowed", extract_body(response));
}

#[test]
fn test_handle_proxy_no_dsn() {
    let state = make_app_state();
    let headers = HeaderMap::new();
    let step = handle_request(&state, "POST", &target("http://localhost:3000/store"), &headers);
    assert!(matches!(step, Step::Refuse { refusal: Refusal::NoKey, log_body: true, .. }));
    let response = answered(step);

    assert_eq!(400, response.status);
    assert_eq!("No DSN found", extract_body(response));
}

#[test]
fn test_handle_proxy_incorrect_dsn() {
    let state = make_app_state();
    let mut headers = HeaderMap::new();
    headers.insert("Authorization", "sentry_key=not-there".parse().unwrap());
    let step = handle_request(&state, "POST", &target("http://localhost:3000/store"), &headers);
    match &step {
        Step::Refuse { refusal: Refusal::UnknownKey { public_key }, log_body: false, .. } => {
            assert_eq!(public_key, "not-there")
        }
        _ => panic!("not refused"),
    }
    let response = answered(step);

    assert_eq!(400, response.status);
    assert_eq!("No DSN found", extract_body(response));
}

#[test]
fn health_check_takes_get_only() {
    let state = make_app_state();
    let headers = HeaderMap::new();
    let step = handle_request(&state, "POST", &target("http://example.com/health"), &headers);
    assert!(matches!(step, Step::Refuse { refusal: Refusal::NoKey, .. }));
    let step = handle_request(&state, "PUT", &target("http://example.com/health"), &headers);
    assert_eq!(405, answered(step).status);
}

#[test]
fn body_without_key_is_logged_in_verbose_mode_only() {
    let state = AppState::from_config(ConfigData { verbose: false, ..make_test_config() }).unwrap();
    let headers = HeaderMap::new();
    let step = handle_request(&state, "POST", &target("http://localhost:3000/store"), &headers);
    assert!(matches!(step, Step::Refuse { refusal: Refusal::NoKey, log_body: false, .. }));
    let response = answered(step);
    assert_eq!(400, response.status);
    assert!(response.headers.is_empty());
    assert_eq!("No DSN found", extract_body(response));
}

#[test]
fn verbose_mode_changes_no_answer() {
    let verbose = make_app_state();
    let quiet = AppState::from_config(ConfigData { verbose: false, ..make_test_config() }).unwrap();
    let headers = HeaderMap::new();
    for (method, uri) in [
        ("GET", "http://h/health"),
        ("GET", "http://h/store"),
        ("POST", "http://h/store"),
        ("POST", "http://h/store?sentry_key=cafe"),
    ] {
        let loud = answered(handle_request(&verbose, method, &target(uri), &headers));
        let silent = answered(handle_request(&quiet, method, &target(uri), &headers));
        assert_eq!(loud.status, silent.status);
        assert_eq!(loud.headers, silent.headers);
        assert_eq!(loud.body, silent.body);
    }
    let key = "ddddddd1234567890123456789012345";
    let uri = target("http://h/api/1/envelope/");
    let body = b"{\"dsn\":1}\n".to_vec();
    let loud = calls(forward(&verbose, key, &uri, &headers, Ok(body.clone())));
    let silent = calls(forward(&quiet, key, &uri, &headers, Ok(body)));
    assert_eq!(loud.len(), silent.len());
    for (a, b) in loud.iter().zip(&silent) {
        assert_eq!((&a.uri, &a.headers, &a.body), (&b.uri, &b.headers, &b.body));
    }
}

fn claimed_key(step: Step) -> String {
    match step {
        Step::ReadBody { public_key } => public_key,
        _ => panic!("not forwarded"),
    }
}

#[test]
fn configured_key_is_found_in_headers_and_query() {
    let state = make_app_state();
    let mut headers = HeaderMap::new();
    headers.insert(
        "X-Sentry-Auth",
        "Sentry sentry_key=eeeeee12345678901234567890123456, sentry_version=7".parse().unwrap(),
    );
    let uri = target("http://localhost:3000/api/1234/envelope/");
    let key = claimed_key(handle_request(&state, "POST", &uri, &headers));
    assert_eq!(key, "eeeeee12345678901234567890123456");

    let uri = target(
        "http://localhost:3000/api/3456/envelope/?sentry_version=7&sentry_key=ddddddd1234567890123456789012345",
    );
    let key = claimed_key(handle_request(&state, "POST", &uri, &HeaderMap::new()));
    assert_eq!(key, "ddddddd1234567890123456789012345");
}

fn calls(next: Forward) -> Vec<OutboundCall> {
    match next {
        Forward::Send { calls, .. } => calls,
        _ => panic!("not sent"),
    }
}

#[test]
fn request_is_mirrored_to_every_destination() {
    let state = make_app_state();
    let mut headers = HeaderMap::new();
    headers.insert(
        "X-Sentry-Auth",
        "Sentry sentry_key=eeeeee12345678901234567890123456, sentry_version=7".parse().unwrap(),
    );
    headers.insert("Host", "localhost:3000".parse().unwrap());
    let uri = target("http://localhost:3000/api/1234/envelope/");
    let body = b"{\"dsn\":\"x\"}\n{\"type\":\"event\"}\n\xff\x00".to_vec();
    let key = "eeeeee12345678901234567890123456";
    let sent = calls(forward(&state, key, &uri, &headers, Ok(body.clone())));
    assert_eq!(sent.len(), 2);

    assert_eq!(sent[0].host, "target.example.com");
    assert_eq!(sent[0].method, "POST");
    assert_eq!(sent[0].uri, "https://target.example.com/api/5678/envelope/");
    assert_eq!(
        sent[0].headers.get("x-sentry-auth").unwrap(),
        "Sentry sentry_key=aaaaaaaa123456789012345678901234, sentry_version=7"
    );
    assert!(!sent[0].headers.contains_key("host"));
    assert_eq!(
        sent[0].body,
        b"{\"dsn\":\"https://aaaaaaaa123456789012345678901234@target.example.com/5678\"}\n{\"type\":\"event\"}\n\xff\x00"
    );

    assert_eq!(sent[1].host, "other.example.com");
    assert_eq!(sent[1].uri, "https://other.example.com/api/9012/envelope/");

    let config = ConfigData { modify_envelope_header: false, ..make_test_config() };
    let state = AppState::from_config(config).unwrap();
    let sent = calls(forward(&state, key, &uri, &headers, Ok(body.clone())));
    assert_eq!(sent[0].body, body);
    assert_eq!(sent[1].body, body);
}

#[test]
fn unreadable_body_is_a_bad_request() {
    let state = make_app_state();
    let key = "ddddddd1234567890123456789012345";
    let uri = target("http://localhost:3000/api/1234/envelope/");
    let mut headers = HeaderMap::new();
    let body = read_and_decode_body(&state.config, None, &headers);
    match forward(&state, key, &uri, &headers, body) {
        Forward::Refuse { reason, response } => {
            assert_eq!(reason, "could not read request body");
            assert_eq!(response.status, 400);
        }
        _ => panic!("not refused"),
    }
    headers.insert("Content-Encoding", "gzip".parse().unwrap());
    let body = read_and_decode_body(&state.config, Some(b"no gzip".to_vec()), &headers);
    match forward(&state, key, &uri, &headers, body) {
        Forward::Refuse { reason, response } => {
            assert_eq!(reason, "could not decode request body");
            assert_eq!(extract_body(response), "No DSN found");
        }
        _ => panic!("not refused"),
    }
}

#[test]
fn unknown_key_is_not_forwarded() {
    let state = make_app_state();
    let uri = target("http://localhost:3000/api/1234/envelope/");
    let next = forward(&state, "cafe", &uri, &HeaderMap::new(), Ok(Vec::new()));
    assert!(matches!(next, Forward::Refuse { .. }));
}

#[test]
fn request_that_cannot_be_rewritten_is_unbuildable() {
    let state = make_app_state();
    let key = "ddddddd1234567890123456789012345";
    let uri = target("http://localhost:3000/api/1234/envelope/");
    let mut headers = HeaderMap::new();
    let value = HeaderValue::from_bytes(b"sentry_key=\xe4").unwrap();
    headers.insert("Authorization", value);
    let next = forward(&state, key, &uri, &headers, Ok(Vec::new()));
    assert!(matches!(next, Forward::Unbuildable));
}

fn filtered_state() -> AppState {
    let detailed = |dsn: &str, categories: Option<Vec<DataCategory>>| OutboundEntry::Detailed {
        dsn: Some(dsn.to_string()),
        categories,
    };
    let config = ConfigData {
        keys: vec![KeyRing {
            inbound: Some("https://abc@mirror.example.com/1".to_string()),
            outbound: vec![
                detailed("https://a1@one.example.com/1", Some(vec![DataCategory::Errors])),
                detailed("https://a2@two.example.com/2", Some(vec![DataCategory::Replays])),
                detailed("https://a3@three.example.com/3", None),
                OutboundEntry::Dsn(Some("https://a4@four.example.com/4".to_string())),
                detailed("https://a5@five.example.com/5", Some(Vec::new())),
            ],
        }],
        ..ConfigData::default()
    };
    AppState::from_config(config).unwrap()
}

fn hosts(path: &str, body: &[u8]) -> Vec<String> {
    let uri = RequestUri { path: path.to_string(), query: None };
    let next = forward(&filtered_state(), "abc", &uri, &HeaderMap::new(), Ok(body.to_vec()));
    calls(next).into_iter().map(|call| call.host).collect()
}

#[test]
fn categories_filter_destinations() {
    assert_eq!(
        hosts("/api/1/store/", b""),
        ["one.example.com", "three.example.com", "four.example.com"]
    );
    assert_eq!(
        hosts("/api/1/envelope/", b"{}\n{\"type\":\"replay_event\"}\n"),
        ["two.example.com", "three.example.com", "four.example.com"]
    );
    assert_eq!(
        hosts("/api/1/envelope/", b"{}\n{\"type\":\"profile\"}\n"),
        ["three.example.com", "four.example.com"]
    );
}

#[test]
fn category_is_told_with_the_requests() {
    let uri = RequestUri { path: "/api/1/store/".to_string(), query: None };
    match forward(&filtered_state(), "abc", &uri, &HeaderMap::new(), Ok(Vec::new())) {
        Forward::Send { category, .. } => assert_eq!(category, Some(DataCategory::Errors)),
        _ => panic!("not sent"),
    }
}

#[test]
fn unknown_category_goes_everywhere() {
    assert_eq!(hosts("/api/1/envelope/", b"{}\n{\"type\":\"other\"}\n").len(), 5);
    assert_eq!(hosts("/api/1/unknown/", b"").len(), 5);
}

fn race(outcomes: Vec<Outcome>) -> ProxyResponse {
    for outcome in outcomes {
        if let RaceStep::Respond(response) = on_outcome(Some(outcome)) {
            return response;
        }
    }
    match on_outcome(None) {
        RaceStep::Respond(response) => response,
        RaceStep::Wait => panic!("no answer"),
    }
}

#[test]
fn first_readable_response_is_the_answer() {
    let response = race(vec![
        Outcome::TimedOut,
        Outcome::Failed,
        Outcome::Unreadable,
        Outcome::Answered(b"first".to_vec()),
        Outcome::Answered(b"second".to_vec()),
    ]);
    assert_eq!(response.status, 200);
    assert_eq!(
        response.headers,
        [
            ("Access-Control-Allow-Origin".to_string(), "*".to_string()),
            (
                "Access-Control-Expose-Headers".to_string(),
                "x-sentry-error,x-sentry-rate-limit,retry-after".to_string()
            ),
            ("Cross-Origin-Resource-Policy".to_string(), "cross-origin".to_string()),
        ]
    );
    assert_eq!(response.body, b"first");
}

#[test]
fn empty_response_is_an_answer_too() {
    let response =
        race(vec![Outcome::Answered(Vec::new()), Outcome::Answered(b"second".to_vec())]);
    assert_eq!(response.body, b"");
}

#[test]
fn answer_is_empty_where_nothing_could_be_read() {
    let response = race(vec![Outcome::TimedOut, Outcome::Failed, Outcome::Unreadable]);
    assert_eq!(response.status, 200);
    assert_eq!(response.headers.len(), 3);
    assert_eq!(response.body, b"");
}

#[test]
fn headers_are_logged_line_by_line() {
    assert_eq!(format_headers(&HeaderMap::new()), "Invalid headers");
    let mut headers = HeaderMap::new();
    headers.append("Accept", "a".parse().unwrap());
    headers.append("Accept", "b".parse().unwrap());
    assert_eq!(format_headers(&headers), " accept: a\n accept: b\n");
    headers.append("X-Other", "c".parse().unwrap());
    headers.append("Accept", "d".parse().unwrap());
    let mut expected = String::new();
    for (name, value) in headers.iter() {
        expected.push_str(&format!(" {}: {}\n", name, value.to_str().unwrap()));
    }
    assert_eq!(format_headers(&headers), expected);
    let pairs = vec![
        (HeaderName::from_static("name"), HeaderValue::from_bytes(b"\xe4").unwrap()),
        (HeaderName::from_static("other"), HeaderValue::from_static("x y")),
    ];
    assert_eq!(format_pairs(&pairs), " name: <invalid>\n other: x y\n");
}
