use std::io::Read;

use flate2::read::{DeflateEncoder, GzEncoder};
use flate2::Compression;
use hyper::header::{HeaderName, HeaderValue};
use hyper::HeaderMap;
use sentry_mirror::auth::{find_key, replace_public_key};
use sentry_mirror::config::{from_args, ConfigData, DataCategory, KeyRing, OutboundEntry};
use sentry_mirror::dsn::{from_request, Dsn};
use sentry_mirror::logging::{reporting, LogFormat, LoggingConfig, Severity};
use sentry_mirror::request::{
    can_build, categorize_type, decode_body, decode_received, detect_data_category,
    format_body_for_log, log_decoded, log_received, make_outbound_request, make_path,
    read_and_decode_body, replace_envelope_dsn, BodyError, OutboundRequest, ReadError,
};
use sentry_mirror::state::{format_key_map, make_key_map, AppState};
use sentry_mirror::uri::RequestUri;

fn dsn(text: &str) -> Dsn {
    Dsn::parse(text).unwrap()
}

fn uri(path: &str, query: Option<&str>) -> RequestUri {
    RequestUri { path: path.to_string(), query: query.map(|q| q.to_string()) }
}

fn build(
    config: &ConfigData,
    target: &RequestUri,
    headers: &HeaderMap,
    outbound: &Dsn,
) -> OutboundRequest {
    assert!(can_build(target, headers, outbound));
    make_outbound_request(config, target, headers, outbound).unwrap()
}

fn keyed(public_key: &str) -> Dsn {
    Dsn { public_key: public_key.to_string(), ..dsn("https://k@h/1") }
}

#[test]
fn dsn_reads_back_what_it_writes() {
    let text = "http://public-key@sentry-mirror.acme.org:9000/1847101";
    let parsed = dsn(text);
    assert_eq!(parsed.scheme, "http");
    assert_eq!(parsed.public_key, "public-key");
    assert_eq!(parsed.host, "sentry-mirror.acme.org:9000");
    assert_eq!(parsed.project_id, "1847101");
    assert_eq!(parsed.to_text(), text);
}

#[test]
fn malformed_dsn_is_refused() {
    for text in [
        "",
        "host",
        "://k@h/1",
        "https://k@h",
        "https://k@h/",
        "https://@h/1",
        "https://k@/1",
        "https:/k@h/1",
        "https://h/1",
        "https://k@h/1/2",
    ] {
        assert!(Dsn::parse(text).is_none(), "{}", text);
    }
}

#[test]
fn key_is_looked_for_in_both_headers_and_the_query() {
    let mut headers = HeaderMap::new();
    let target = uri("/", Some("a=b&sentry_key=fromquery&c=d"));
    assert_eq!(from_request(&target, &headers).unwrap(), "fromquery");
    headers.insert("Authorization", "sentry_key=standard".parse().unwrap());
    assert_eq!(from_request(&target, &headers).unwrap(), "standard");
    headers.insert("X-Sentry-Auth", "Sentry sentry_key=own,x".parse().unwrap());
    assert_eq!(from_request(&target, &headers).unwrap(), "own");
    headers.insert("X-Sentry-Auth", HeaderValue::from_bytes(b"sentry_key=\xff").unwrap());
    assert_eq!(from_request(&target, &headers).unwrap(), "standard");
    assert!(from_request(&uri("/", None), &HeaderMap::new()).is_none());
    assert!(from_request(&uri("/", Some("sentry_key=")), &HeaderMap::new()).is_none());
}

#[test]
fn first_marked_key_is_replaced() {
    let outbound = keyed("outbound");
    let replaced = |text: &str| replace_public_key(text, &outbound);
    assert_eq!(replaced("sentry_key=abc&x=1"), "sentry_key=outbound&x=1");
    assert_eq!(replaced("sentry_key=abcxyz"), "sentry_key=outboundxyz");
    assert_eq!(replaced("sentry_key=a,sentry_key=b"), "sentry_key=outbound,sentry_key=b");
    assert_eq!(replaced("sentry_key=XY,sentry_key=b"), "sentry_key=XY,sentry_key=outbound");
    assert_eq!(replaced("sentry_key="), "sentry_key=");
    assert_eq!(replaced("\u{e4}\u{df}sentry_key=1\u{e4}"), "\u{e4}\u{df}sentry_key=outbound\u{e4}");
    assert_eq!(replaced("nothing"), "nothing");
    assert_eq!(replaced(""), "");
}

#[test]
fn references_in_a_key_are_expanded() {
    assert_eq!(replace_public_key("sentry_key=abc", &keyed("x$1")), "sentry_key=xabc");
    assert_eq!(replace_public_key("sentry_key=abc", &keyed("x$$")), "sentry_key=x$");
}

#[test]
fn later_key_stands() {
    let text = "v=7,sentry_key=abc,z";
    let once = replace_public_key(text, &keyed("00"));
    assert_eq!(once, "v=7,sentry_key=00,z");
    let twice = replace_public_key(&once, &keyed("ff1"));
    assert_eq!(twice, replace_public_key(text, &keyed("ff1")));
    assert_eq!(find_key(&twice).unwrap(), "ff1");
}

#[test]
fn project_id_is_replaced_in_ingest_paths() {
    assert_eq!(make_path("/api/42/envelope/", "6789"), "/api/6789/envelope/");
    assert_eq!(make_path("/api/42/store", "6789"), "/api/6789/store");
    assert_eq!(make_path("//api//42//store//", "6789"), "//api//6789//store//");
    assert_eq!(make_path("/api/42/minidump/", "6789"), "/api/42/minidump/");
    assert_eq!(make_path("/other/42/store/", "6789"), "/other/42/store/");
    assert_eq!(make_path("/api/store/", "6789"), "/api/store/");
    assert_eq!(make_path("", "6789"), "");
}

#[test]
fn nothing_but_the_project_id_is_replaced() {
    assert_eq!(
        make_path("/api/1/integration/oltp/v1/traces/", "6789"),
        "/api/6789/integration/oltp/v1/traces/"
    );
    assert_eq!(make_path("/api/api/store/", "6789"), "/api/6789/store/");
    assert_eq!(make_path("/api/a/store/a", "6789"), "/api/6789/store/a");
    let target = uri("/api/1/integration/oltp/v1/traces/", None);
    let outbound = dsn("https://outbound@o789.ingest.sentry.io/6789");
    let headers = HeaderMap::new();
    assert_eq!(
        build(&ConfigData::default(), &target, &headers, &outbound).uri.to_string(),
        "https://o789.ingest.sentry.io/api/6789/integration/oltp/v1/traces/"
    );
}

#[test]
fn repeated_header_is_forwarded_with_its_last_value() {
    let mut headers = HeaderMap::new();
    headers.append("Accept", "first".parse().unwrap());
    headers.append("Accept", "last".parse().unwrap());
    headers.append("X-Opaque", HeaderValue::from_bytes(b"\xff\xfe").unwrap());
    let target = uri("/api/1/envelope/", Some(""));
    let outbound = dsn("https://k@h.example.com:8080/2");
    let request = build(&ConfigData::default(), &target, &headers, &outbound);
    assert_eq!(request.uri.to_string(), "https://h.example.com:8080/api/2/envelope/");
    let values: Vec<&HeaderValue> = request.headers.get_all("accept").iter().collect();
    assert_eq!(values, ["last"]);
    assert_eq!(request.headers.get("x-opaque").unwrap().as_bytes(), b"\xff\xfe");
    assert_eq!(request.headers.len(), 2);
}

#[test]
fn outbound_uri_has_no_fragment_and_a_path() {
    let headers = HeaderMap::new();
    let config = ConfigData::default();
    let outbound = dsn("https://k@h/2#x");
    let target = uri("/api/1/store/", None);
    assert_eq!(build(&config, &target, &headers, &outbound).uri.to_string(), "https://h/api/2");
    let outbound = dsn("https://k@h/2");
    let target = uri("", Some("a=b"));
    assert_eq!(build(&config, &target, &headers, &outbound).uri.to_string(), "https://h/?a=b");
}

#[test]
fn requests_that_cannot_be_built_are_told() {
    let target = uri("/api/1/store/", None);
    let outbound = dsn("https://k@h/2");
    let mut headers = HeaderMap::new();
    assert!(can_build(&target, &headers, &outbound));
    assert!(!can_build(&target, &headers, &dsn("https://k@a b/2")));
    assert!(!can_build(&target, &headers, &dsn("ht tp://k@h/2")));
    assert!(!can_build(&target, &headers, &dsn("https://k@h/2 3")));
    headers.insert("X-Sentry-Auth", "sentry_key=abc".parse().unwrap());
    assert!(can_build(&target, &headers, &outbound));
    assert!(!can_build(&target, &headers, &dsn("https://k\n@h/2")));
    headers.append("X-Sentry-Auth", HeaderValue::from_bytes(b"\xe4").unwrap());
    assert!(!can_build(&target, &headers, &outbound));
}

#[test]
fn many_headers_are_forwarded() {
    let target = uri("/api/1/store/", None);
    let outbound = dsn("https://k@h/2");
    let mut headers = HeaderMap::new();
    for i in 0..9000u32 {
        let name = HeaderName::from_bytes(format!("x-{}", i).as_bytes()).unwrap();
        headers.insert(name, HeaderValue::from_static("v"));
    }
    let request = build(&ConfigData::default(), &target, &headers, &outbound);
    assert_eq!(request.headers.keys_len(), 9000);
}

#[test]
fn odd_names_and_marks_are_forwarded_as_they_are() {
    let target = uri("/api/1/store/", None);
    let outbound = dsn("https://k@h/2");
    let mut headers = HeaderMap::new();
    headers.insert(
        "x-a name of more than sixty four characters that holds some spaces",
        HeaderValue::from_static("odd"),
    );
    let mut secret = HeaderValue::from_static("secret");
    secret.set_sensitive(true);
    headers.insert("X-Secret", secret);
    let request = build(&ConfigData::default(), &target, &headers, &outbound);
    assert_eq!(request.headers.len(), 2);
    assert!(request.headers.get("x-secret").unwrap().is_sensitive());
    for (name, value) in headers.iter() {
        assert_eq!(request.headers.get(name), Some(value));
    }
}

#[test]
fn envelope_without_anything_to_replace_is_left() {
    let outbound = dsn("https://k@h/2");
    assert!(replace_envelope_dsn(b"\n{\"dsn\":\"x\"}", &outbound).is_none());
    assert!(replace_envelope_dsn(b"{\"a\":1}", &outbound).is_none());
    assert!(replace_envelope_dsn(b"\xff\n{}", &outbound).is_none());
    assert!(replace_envelope_dsn(b"no json\n{}", &outbound).is_none());
    assert!(replace_envelope_dsn(b"[\"dsn\"]\n{}", &outbound).is_none());
    assert!(replace_envelope_dsn(b"{\"trace\":{}}\n{}", &outbound).is_none());
    assert!(replace_envelope_dsn(b"{\"trace\":\"public_key\"}\n{}", &outbound).is_none());
}

#[test]
fn envelope_keeps_other_members_and_all_bytes_behind_its_header() {
    let outbound = dsn("https://k@h/2");
    let body = b"{ \"trace\": {\"public_key\": 1, \"a\": [1.5, null]}, \"b\": \"x\\ny\" }\n\xff\n\n\x00";
    let rewritten = replace_envelope_dsn(body, &outbound).unwrap();
    assert_eq!(
        rewritten,
        b"{\"b\":\"x\\ny\",\"trace\":{\"a\":[1.5,null],\"public_key\":\"k\"}}\n\xff\n\n\x00"
    );
    assert_eq!(replace_envelope_dsn(b"{\"dsn\":null}\n", &outbound).unwrap(), b"{\"dsn\":\"https://k@h/2\"}\n");
}

#[test]
fn envelope_of_one_line_is_rewritten() {
    let outbound = dsn("https://outbound@o789.ingest.sentry.io/6789");
    assert_eq!(
        replace_envelope_dsn(b"{\"dsn\":\"value\"}", &outbound).unwrap(),
        b"{\"dsn\":\"https://outbound@o789.ingest.sentry.io/6789\"}"
    );
}

#[test]
fn later_dsn_stands_in_envelope() {
    let bodies: [&[u8]; 3] = [
        b"{\"dsn\":\"x\",\"trace\":{\"public_key\":\"y\"}}\nrest",
        b"{\"dsn\":\"x\"}",
        b"{\"trace\":{\"public_key\":0,\"n\":[-9223372036854775808,18446744073709551615]},\"e\":\"\\u0001\\n\\\"\"}\n\n",
    ];
    let other = dsn("http://z@g/3");
    for body in bodies {
        let once = replace_envelope_dsn(body, &dsn("https://k@h/2")).unwrap();
        assert_eq!(replace_envelope_dsn(&once, &other), replace_envelope_dsn(body, &other));
        assert_eq!(replace_envelope_dsn(&once, &dsn("https://k@h/2")).unwrap(), once);
    }
}

#[test]
fn deep_headers_are_rewritten_as_far_as_they_are_parsed() {
    let outbound = dsn("https://k@h/2");
    let nested = |depth: usize| {
        let (open, close) = ("[".repeat(depth - 1), "]".repeat(depth - 1));
        format!("{{\"a\":{}{},\"dsn\":1}}", open, close).into_bytes()
    };
    let once = replace_envelope_dsn(&nested(127), &outbound).unwrap();
    let other = dsn("http://z@g/3");
    assert_eq!(replace_envelope_dsn(&once, &other), replace_envelope_dsn(&nested(127), &other));
    assert!(replace_envelope_dsn(&nested(128), &outbound).is_none());
}

#[test]
fn last_value_of_an_auth_header_claims_the_outbound_key() {
    let mut headers = HeaderMap::new();
    headers.append("Authorization", "sentry_key=abc".parse().unwrap());
    headers.append("Authorization", "x,sentry_key=def,y".parse().unwrap());
    let target = uri("/api/1/store/", None);
    let request = build(&ConfigData::default(), &target, &headers, &dsn("https://new@h/2"));
    assert_eq!(request.headers.get("authorization").unwrap(), "x,sentry_key=new,y");
    assert_eq!(from_request(&target, &request.headers).unwrap(), "new");
}

#[test]
fn decoding_undoes_encoding() {
    let mut noise = Vec::new();
    let mut state: u32 = 1;
    for _ in 0..200_000 {
        state = state.wrapping_mul(1664525).wrapping_add(1013904223);
        noise.push((state >> 24) as u8);
    }
    let contents: [Vec<u8>; 4] =
        [Vec::new(), b"x".to_vec(), vec![b'a'; 1_000_000], noise];
    for data in &contents {
        for level in [0u32, 1, 6, 9] {
            let mut gzip = Vec::new();
            GzEncoder::new(&data[..], Compression::new(level)).read_to_end(&mut gzip).unwrap();
            assert_eq!(&decode_body(b"gzip", &gzip).unwrap(), data);
            let mut deflate = Vec::new();
            DeflateEncoder::new(&data[..], Compression::new(level))
                .read_to_end(&mut deflate)
                .unwrap();
            assert_eq!(&decode_body(b"deflate", &deflate).unwrap(), data);
        }
        for quality in [0i32, 5] {
            let params = brotli::enc::BrotliEncoderParams { quality, ..Default::default() };
            let mut br = Vec::new();
            brotli::CompressorReader::with_params(&data[..], 4096, &params)
                .read_to_end(&mut br)
                .unwrap();
            assert_eq!(&decode_body(b"br", &br).unwrap(), data);
        }
        for level in [1i32, 19] {
            let zstd = zstd::encode_all(&data[..], level).unwrap();
            assert_eq!(&decode_body(b"zstd", &zstd).unwrap(), data);
        }
    }
}

#[test]
fn decode_errors_tell_the_reason() {
    assert!(matches!(decode_body(b"identity", b"x"), Err(BodyError::UnsupportedCodec)));
    assert!(matches!(decode_body(b"GZIP", b"x"), Err(BodyError::UnsupportedCodec)));
    assert!(matches!(decode_body(b"\xff", b"x"), Err(BodyError::InvalidHeader)));
    for encoding in ["gzip", "deflate", "br", "zstd"] {
        let result = decode_body(encoding.as_bytes(), b"some content to be compressed");
        assert!(matches!(result, Err(BodyError::CouldNotDecode(_))), "{}", encoding);
    }
}

#[test]
fn body_that_cannot_be_read_or_decoded_gives_a_message() {
    let config = ConfigData::default();
    let mut headers = HeaderMap::new();
    assert_eq!(
        read_and_decode_body(&config, None, &headers).unwrap_err(),
        "could not read request body"
    );
    assert_eq!(read_and_decode_body(&config, Some(b"raw".to_vec()), &headers).unwrap(), b"raw");
    headers.insert("Content-Encoding", "unknown".parse().unwrap());
    assert_eq!(
        read_and_decode_body(&config, Some(b"raw".to_vec()), &headers).unwrap_err(),
        "could not decode request body"
    );
}

#[test]
fn bodies_are_logged_as_text_or_hexadecimal() {
    assert_eq!(format_body_for_log(b"hello", "Body"), "Body (utf8; len=5): hello");
    assert_eq!(format_body_for_log(b"", "Body"), "Body (utf8; len=0): ");
    assert_eq!(format_body_for_log(b"\xff\x0a\x00", "Body"), "Body (binary hex; len=3): 0xff0a00");
    let long = vec![b'a'; 16385];
    assert_eq!(
        format_body_for_log(&long, "Body"),
        format!("Body (utf8, truncated; len=16385): {}", "a".repeat(16384))
    );
    assert_eq!(
        format_body_for_log(&long[..16384], "Body"),
        format!("Body (utf8; len=16384): {}", "a".repeat(16384))
    );
    let mut binary = vec![0xabu8; 20000];
    binary[0] = 0x01;
    assert_eq!(
        format_body_for_log(&binary, "Body"),
        format!("Body (binary hex, truncated; len=20000): 0x01{}", "ab".repeat(16383))
    );
}

#[test]
fn bodies_are_logged_in_verbose_mode() {
    let mut headers = HeaderMap::new();
    let quiet = ConfigData::default();
    let verbose = ConfigData { verbose: true, ..ConfigData::default() };
    assert!(log_received(&quiet, b"x").is_none());
    assert_eq!(log_received(&verbose, b"x").unwrap(), "Raw Request Body (utf8; len=1): x");
    assert!(log_decoded(&verbose, &headers, b"x").is_none());
    headers.insert("Content-Encoding", "gzip".parse().unwrap());
    assert_eq!(
        log_decoded(&verbose, &headers, b"plain").unwrap(),
        "Decoded Request Body (utf8; len=5): plain"
    );
    assert!(log_decoded(&quiet, &headers, b"x").is_none());
    let unchanged = ConfigData { modify_envelope_header: false, ..verbose };
    assert!(log_decoded(&unchanged, &headers, b"x").is_none());
}

#[test]
fn reading_fails_for_a_reason() {
    let config = ConfigData::default();
    let mut headers = HeaderMap::new();
    headers.insert("Content-Encoding", "unknown".parse().unwrap());
    let error = decode_received(&config, None, &headers).unwrap_err();
    assert!(matches!(error, ReadError::Unreceived));
    assert_eq!(error.message(), "could not read request body");
    let error = decode_received(&config, Some(b"raw".to_vec()), &headers).unwrap_err();
    assert!(matches!(error, ReadError::Undecoded(BodyError::UnsupportedCodec)));
    assert_eq!(error.message(), "could not decode request body");
    headers.insert("Content-Encoding", "zstd".parse().unwrap());
    let error = decode_received(&config, Some(b"raw".to_vec()), &headers).unwrap_err();
    assert!(matches!(error, ReadError::Undecoded(BodyError::CouldNotDecode(_))));
}

#[test]
fn item_types_have_categories() {
    let expected = [
        ("event", DataCategory::Errors),
        ("transaction", DataCategory::Transactions),
        ("sessions", DataCategory::Sessions),
        ("client_report", DataCategory::ClientReports),
        ("replay_event", DataCategory::Replays),
        ("metric_buckets", DataCategory::Metrics),
        ("profile", DataCategory::Profiling),
        ("minidump", DataCategory::Minidumps),
        ("check_in", DataCategory::CheckIn),
    ];
    for (name, category) in expected {
        assert_eq!(categorize_type(name), Some(category));
        let body = format!("{{}}\n{{\"type\":\"{}\"}}", name);
        let target = uri("/api/1/envelope/", None);
        assert_eq!(detect_data_category(&target, body.as_bytes()), Some(category));
    }
    assert_eq!(categorize_type("attachment"), None);
}

#[test]
fn category_is_unknown_where_nothing_tells_it() {
    let envelope = uri("/api/1/envelope/", None);
    assert_eq!(detect_data_category(&envelope, b"{\"type\":\"event\"}"), None);
    assert_eq!(detect_data_category(&envelope, b"{}\n{\"type\":1}\n"), None);
    assert_eq!(detect_data_category(&envelope, b"{}\n[]\n"), None);
    assert_eq!(detect_data_category(&envelope, b"{}\nevent\n"), None);
    assert_eq!(detect_data_category(&envelope, b"{}\n\xff\n"), None);
    assert_eq!(detect_data_category(&uri("/api/1/other/", None), b"{}\n{\"type\":\"event\"}"), None);
}

#[test]
fn traces_paths_are_transactions() {
    let traces = Some(DataCategory::Transactions);
    assert_eq!(detect_data_category(&uri("/api/1/integration/oltp/v1/traces", None), b""), traces);
    assert_eq!(detect_data_category(&uri("/api/1/traces/", None), b""), traces);
    assert_eq!(detect_data_category(&uri("/api/1/traces/x", None), b""), None);
    assert_eq!(
        detect_data_category(&uri("/minidump/store/traces/", None), b""),
        Some(DataCategory::Minidumps)
    );
}

#[test]
fn default_settings() {
    let config = ConfigData::default();
    assert_eq!(config.bind_addr(), "127.0.0.1:3000");
    assert_eq!(config.log_filter, "info");
    assert_eq!(config.log_format, LogFormat::Text);
    assert!(!config.verbose && config.modify_envelope_header && config.keys.is_empty());
    let config = ConfigData { ip: "0.0.0.0".to_string(), port: 0, ..config };
    assert_eq!(config.bind_addr(), "0.0.0.0:0");
}

#[test]
fn verbose_mode_shows_debug_logs() {
    let set = |verbose: bool, log_filter: &str| ConfigData {
        verbose,
        log_filter: log_filter.to_string(),
        ..ConfigData::default()
    };
    assert_eq!(from_args(true, set(false, "warn")), set(true, "debug"));
    assert_eq!(from_args(false, set(true, "warn")), set(true, "debug"));
    assert_eq!(from_args(false, set(false, "warn")), set(false, "warn"));
    assert_eq!(from_args(false, set(false, " \t\u{3000}")), set(false, "info"));
    assert_eq!(from_args(true, set(false, "")), set(true, "debug"));
}

#[test]
fn logging_settings_are_picked_out() {
    let config = ConfigData {
        sentry_dsn: Some("https://k@h/1".to_string()),
        sentry_env: Some("prod".to_string()),
        traces_sample_rate_bits: Some(0.5f32.to_bits()),
        log_format: LogFormat::Json,
        ..ConfigData::default()
    };
    let logging = LoggingConfig::from_config(&config);
    assert_eq!(logging.sentry_dsn.unwrap(), "https://k@h/1");
    assert_eq!(logging.sentry_env.unwrap(), "prod");
    assert_eq!(f32::from_bits(logging.traces_sample_rate_bits), 0.5);
    assert_eq!(logging.log_filter, "info");
    assert_eq!(logging.log_format, LogFormat::Json);
    let logging = LoggingConfig::from_config(&ConfigData::default());
    assert_eq!(f32::from_bits(logging.traces_sample_rate_bits), 0.0);
}

#[test]
fn reporting_follows_severity() {
    let taken = |severity: Severity| (reporting(severity).event, reporting(severity).log);
    assert_eq!(taken(Severity::Error), (true, true));
    assert_eq!(taken(Severity::Warn), (false, true));
    assert_eq!(taken(Severity::Info), (false, true));
    assert_eq!(taken(Severity::Debug), (false, false));
    assert_eq!(taken(Severity::Trace), (false, false));
}

fn ring(inbound: Option<&str>, outbound: &[&str]) -> KeyRing {
    KeyRing {
        inbound: inbound.map(|text| text.to_string()),
        outbound: outbound.iter().map(|text| OutboundEntry::Dsn(Some(text.to_string()))).collect(),
    }
}

#[test]
fn key_map_holds_each_key_once() {
    let keys = vec![
        ring(Some("https://a@h/1"), &["https://x@one/1"]),
        ring(Some("https://b@h/2"), &[]),
        ring(Some("https://a@h/3"), &["https://y@two/2", "https://z@three/3"]),
        ring(None, &["https://w@four/4"]),
    ];
    let map = make_key_map(&keys).unwrap();
    assert_eq!(map.rings().len(), 2);
    let targets = map.get("a").unwrap();
    assert_eq!(targets.len(), 2);
    assert_eq!(targets[0].dsn.host, "two");
    assert_eq!(targets[1].dsn.host, "three");
    assert!(map.get("b").unwrap().is_empty());
    assert!(map.get("w").is_none());
}

#[test]
fn keys_are_listed_with_their_destinations() {
    let keys = vec![
        ring(Some("https://a@h/1"), &["https://x@one/1", "http://y@two:80/2"]),
        ring(Some("https://b@h/2"), &[]),
    ];
    let map = make_key_map(&keys).unwrap();
    assert_eq!(
        format_key_map(&map),
        "inbound: a\n  outbound: https://x@one/1\n  outbound: http://y@two:80/2\ninbound: b\n"
    );
    assert_eq!(format_key_map(&make_key_map(&Vec::new()).unwrap()), "");
}

#[test]
fn malformed_keys_are_refused() {
    assert!(make_key_map(&vec![ring(Some("nonsense"), &[])]).is_none());
    let keys = vec![ring(Some("https://a@h/1"), &["nonsense"])];
    assert!(AppState::from_config(ConfigData { keys, ..ConfigData::default() }).is_none());
    let keys = vec![KeyRing {
        inbound: Some("https://a@h/1".to_string()),
        outbound: vec![OutboundEntry::Dsn(None)],
    }];
    let state = AppState::from_config(ConfigData { keys, ..ConfigData::default() }).unwrap();
    assert!(state.keymap.get("a").unwrap().is_empty());
}
