use std::io::Read;

use flate2::read::{DeflateEncoder, GzEncoder};
use flate2::Compression;
use hyper::header::HeaderValue;
use hyper::{HeaderMap, Uri};
use sentry_mirror::config::{ConfigData, DataCategory};
use sentry_mirror::dsn::Dsn;
use sentry_mirror::request::{
    can_build, decode_body, detect_data_category, make_outbound_request, read_and_decode_body,
    replace_envelope_dsn, OutboundRequest,
};
use sentry_mirror::uri::RequestUri;

fn target(uri: &str) -> RequestUri {
    let uri: Uri = uri.parse().unwrap();
    RequestUri { path: uri.path().to_string(), query: uri.query().map(|q| q.to_string()) }
}

fn dsn(text: &str) -> Dsn {
    Dsn::parse(text).unwrap()
}

fn outbound_request(
    config: &ConfigData,
    uri: &RequestUri,
    headers: &HeaderMap,
    outbound: &Dsn,
) -> OutboundRequest {
    assert!(can_build(uri, headers, outbound));
    make_outbound_request(config, uri, headers, outbound).unwrap()
}

fn string_list_to_bytes(lines: Vec<&str>) -> Vec<u8> {
    lines.join("\n").into_bytes()
}

#[test]
fn make_outbound_request_remove_proxy_headers() {
    let config = ConfigData::default();
    let outbound = dsn("https://outbound@o123.ingest.sentry.io/6789");
    let uri = target("https://o123.ingest.sentry.io/api/1/envelope/");

    let mut headers = HeaderMap::new();
    headers.insert("Origin", "example.com".parse().unwrap());
    headers.insert("Content-Length", "42".parse().unwrap());
    headers.insert("Host", "sentry.example.com".parse().unwrap());
    headers.insert("X-Forwarded-For", "127.0.0.1".parse().unwrap());
    headers.insert("Content-Encoding", "gzip".parse().unwrap());

    let req = outbound_request(&config, &uri, &headers, &outbound);
    let headers = &req.headers;
    assert!(!headers.contains_key("Content-Encoding"));
    assert!(!headers.contains_key("Content-Length"));
    assert!(!headers.contains_key("Host"));
    assert!(!headers.contains_key("X-Forwared-For"));
    assert!(!headers.contains_key("X-Forwarded-For"));
    assert!(headers.contains_key("Origin"));
}

#[test]
fn test_detect_data_category_from_path_store() {
    let uri = target("https://o123.ingest.sentry.io/api/1/store/");
    let cat = detect_data_category(&uri, b"");
    assert!(matches!(cat, Some(DataCategory::Errors)));
}

#[test]
fn test_detect_data_category_from_path_minidump() {
    let uri = target("https://o123.ingest.sentry.io/api/1/minidump/");
    let cat = detect_data_category(&uri, b"");
    assert!(matches!(cat, Some(DataCategory::Minidumps)));
}

#[test]
fn test_detect_data_category_from_envelope_headers() {
    let l1 = r#"{"dsn":"https://deadbeef@ingest.sentry.io/1"}"#;
    let l2 = r#"{"type":"transaction","length":5}"#;
    let body = string_list_to_bytes(vec![l1, l2, "12345"]);
    let uri = target("https://o123.ingest.sentry.io/api/1/envelope/");
    let cat = detect_data_category(&uri, &body);
    assert!(matches!(cat, Some(DataCategory::Transactions)));
}

#[test]
fn test_detect_data_category_from_path_cron() {
    let uri = target("https://o123.ingest.sentry.io/api/cron/my-monitor/");
    let cat = detect_data_category(&uri, b"");
    assert!(matches!(cat, Some(DataCategory::CheckIn)));
}

#[test]
fn test_detect_data_category_from_envelope_check_in() {
    let l1 = r#"{"dsn":"https://deadbeef@ingest.sentry.io/1"}"#;
    let l2 = r#"{"type":"check_in","length":2}"#;
    let body = string_list_to_bytes(vec![l1, l2, "{}"]);
    let uri = target("https://o123.ingest.sentry.io/api/1/envelope/");
    let cat = detect_data_category(&uri, &body);
    assert!(matches!(cat, Some(DataCategory::CheckIn)));
}

#[test]
fn test_detect_data_category_from_envelope_sessions() {
    let l1 = r#"{"dsn":"https://deadbeef@ingest.sentry.io/1"}"#;
    let l2 = r#"{"type":"sessions","length":2}"#;
    let body = string_list_to_bytes(vec![l1, l2, "{}"]);
    let uri = target("https://o123.ingest.sentry.io/api/1/envelope/");
    let cat = detect_data_category(&uri, &body);
    assert!(matches!(cat, Some(DataCategory::Sessions)));
}

#[test]
fn test_detect_data_category_from_envelope_client_report() {
    let l1 = r#"{"dsn":"https://deadbeef@ingest.sentry.io/1"}"#;
    let l2 = r#"{"type":"client_report","length":2}"#;
    let body = string_list_to_bytes(vec![l1, l2, "{}"]);
    let uri = target("https://o123.ingest.sentry.io/api/1/envelope/");
    let cat = detect_data_category(&uri, &body);
    assert!(matches!(cat, Some(DataCategory::ClientReports)));
}

#[test]
fn make_outbound_request_replace_sentry_auth_header() {
    let config = ConfigData::default();
    let outbound = dsn("https://outbound@o123.ingest.sentry.io/6789");
    let uri = target("https://o123.ingest.sentry.io/api/1/envelope/");

    let mut headers = HeaderMap::new();
    headers.insert("Origin", "example.com".parse().unwrap());
    headers.insert("X-Sentry-Auth", "sentry_key=abcdef".parse().unwrap());

    let req = outbound_request(&config, &uri, &headers, &outbound);
    let header_val = req.headers.get("X-Sentry-Auth").unwrap();
    assert_eq!(header_val, "sentry_key=outbound");
    assert!(req.headers.contains_key("Origin"));
    assert_eq!(req.method, "POST");
}

#[test]
fn make_outbound_request_replace_authorization_header() {
    let config = ConfigData::default();
    let outbound = dsn("https://outbound@o789.ingest.sentry.io/6789");
    let uri = target("https://o123.ingest.sentry.io/api/1/envelope/");

    let mut headers = HeaderMap::new();
    headers.insert("Content-Type", "application/json".parse().unwrap());
    headers.insert("Authorization", "sentry_version=7,sentry_key=abcdef".parse().unwrap());

    let req = outbound_request(&config, &uri, &headers, &outbound);

    let mut header_val = req.headers.get("Authorization").unwrap();
    assert_eq!(header_val, "sentry_version=7,sentry_key=outbound");

    header_val = req.headers.get("Content-Type").unwrap();
    assert_eq!(header_val, "application/json");
    assert_eq!(req.method, "POST");
}

#[test]
fn make_outbound_request_replace_query_key() {
    let config = ConfigData::default();
    let outbound = dsn("https://outbound@o789.ingest.sentry.io/6789");
    let uri =
        target("https://o123.ingest.sentry.io/api/1/envelope/?sentry_key=abcdef&sentry_version=7");

    let headers = HeaderMap::new();
    let req = outbound_request(&config, &uri, &headers, &outbound);
    assert_eq!(
        req.uri,
        "https://o789.ingest.sentry.io/api/6789/envelope/?sentry_key=outbound&sentry_version=7"
    );
}

#[test]
fn make_outbound_request_replace_path_host_and_scheme() {
    let config = ConfigData::default();
    let outbound = dsn("https://outbound@o789.ingest.sentry.io/6789");
    let uri = target("http://o123.ingest.sentry.io/api/1/envelope/");

    let mut headers = HeaderMap::new();
    headers.insert("Host", "o555.ingest.sentry.io".parse().unwrap());
    headers.insert("Content-Type", "application/json".parse().unwrap());
    headers.insert("Authorization", "sentry_version=7,sentry_key=abcdef".parse().unwrap());

    let req = outbound_request(&config, &uri, &headers, &outbound);
    assert_eq!(req.uri, "https://o789.ingest.sentry.io/api/6789/envelope/");
}

#[test]
fn make_outbound_request_replace_project_id_oltp_url() {
    let config = ConfigData::default();
    let outbound = dsn("https://outbound@o789.ingest.sentry.io/6789");
    let uri = target("https://o123.ingest.sentry.io/api/123/integration/oltp/v1/traces/");

    let headers = HeaderMap::new();
    let req = outbound_request(&config, &uri, &headers, &outbound);
    assert_eq!(req.uri, "https://o789.ingest.sentry.io/api/6789/integration/oltp/v1/traces/");
}

#[test]
fn make_outbound_request_content_encoding_header() {
    let config = ConfigData::default();
    let outbound = dsn("https://outbound@o123.ingest.sentry.io/6789");
    let uri = target("https://o123.ingest.sentry.io/api/1/envelope/");

    let mut headers = HeaderMap::new();
    headers.insert("Origin", "example.com".parse().unwrap());
    headers.insert("X-Sentry-Auth", "sentry_key=abcdef".parse().unwrap());
    headers.insert("Content-Encoding", "br".parse().unwrap());

    let req = outbound_request(&config, &uri, &headers, &outbound);
    assert!(
        !req.headers.contains_key("Content-Encoding"),
        "should be absent when envelope_header modification is on"
    );

    let config = ConfigData { modify_envelope_header: false, ..ConfigData::default() };
    let req = outbound_request(&config, &uri, &headers, &outbound);
    assert!(
        req.headers.contains_key("Content-Encoding"),
        "should be present when the body is unchanged."
    );
}

#[test]
fn test_replace_envelope_dsn_empty_body() {
    let outbound = dsn("https://outbound@o789.ingest.sentry.io/6789");
    let result = replace_envelope_dsn(b"", &outbound);

    assert!(result.is_none());
}

#[test]
fn test_replace_envelope_dsn_missing_key() {
    let outbound = dsn("https://outbound@o789.ingest.sentry.io/6789");
    let lines = vec![r#"{"key":"value"}"#, r#"{"second":"line"}"#];
    let body = string_list_to_bytes(lines);
    let result = replace_envelope_dsn(&body, &outbound);

    assert!(result.is_none());
}

#[test]
fn test_replace_envelope_dsn_only_first_line() {
    let outbound = dsn("https://outbound@o789.ingest.sentry.io/6789");
    let lines = vec![r#"{"dsn":"value"}"#, r#"{"second":"line", "dsn":"value"}"#];
    let body = string_list_to_bytes(lines);
    let result = replace_envelope_dsn(&body, &outbound);

    assert!(result.is_some());
    let new_body = result.unwrap();
    let expected_lines = vec![
        r#"{"dsn":"https://outbound@o789.ingest.sentry.io/6789"}"#,
        r#"{"second":"line", "dsn":"value"}"#,
    ];
    let expected = string_list_to_bytes(expected_lines);
    assert_eq!(new_body, expected);
}

#[test]
fn test_replace_envelope_dsn_present() {
    let outbound = dsn("https://outbound@o789.ingest.sentry.io/6789");
    let lines = vec![
        r#"{"dsn":"https://deadbeef@ingest.sentry.io/123","event_id":"5cb13bb8-eb7f-4a50-a8d8-9d309fd1049d"}"#,
        r#"{"message":"something failed"}"#,
    ];
    let body = string_list_to_bytes(lines);
    let result = replace_envelope_dsn(&body, &outbound);

    assert!(result.is_some());

    let new_body = result.unwrap();
    assert!(!new_body.is_empty());

    let expected_lines = vec![
        r#"{"dsn":"https://outbound@o789.ingest.sentry.io/6789","event_id":"5cb13bb8-eb7f-4a50-a8d8-9d309fd1049d"}"#,
        r#"{"message":"something failed"}"#,
    ];
    let expected = string_list_to_bytes(expected_lines);
    assert_eq!(new_body, expected);
}

#[test]
fn test_replace_envelope_dsn_trace_public_key() {
    let outbound = dsn("https://outbound@o789.ingest.sentry.io/6789");
    let lines = vec![
        r#"{"dsn":"http://abcdef@localhost:3000/12345","trace":{"public_key":"abcdef"}}"#,
        r#"{"second":"line", "dsn":"value"}"#,
    ];
    let body = string_list_to_bytes(lines);
    let result = replace_envelope_dsn(&body, &outbound);

    assert!(result.is_some());
    let new_body = result.unwrap();
    let expected_lines = vec![
        r#"{"dsn":"https://outbound@o789.ingest.sentry.io/6789","trace":{"public_key":"outbound"}}"#,
        r#"{"second":"line", "dsn":"value"}"#,
    ];
    let expected = string_list_to_bytes(expected_lines);
    assert_eq!(new_body, expected);
}

#[test]
fn test_decode_body_gzip() {
    let contents = b"some content to be compressed";
    let mut encoder = GzEncoder::new(&contents[..], Compression::fast());
    let mut buffer_out = Vec::new();
    encoder.read_to_end(&mut buffer_out).unwrap();

    let header_val: HeaderValue = "gzip".parse().unwrap();
    let res = decode_body(header_val.as_bytes(), &buffer_out);
    assert!(res.is_ok());
    let decoded = res.unwrap();

    assert_eq!(decoded.as_slice(), contents, "should get the same data back");
}

#[test]
fn test_decode_body_deflate() {
    let contents = b"some content to be compressed";
    let mut encoder = DeflateEncoder::new(&contents[..], Compression::fast());
    let mut buffer_out = Vec::new();
    encoder.read_to_end(&mut buffer_out).unwrap();

    let header_val: HeaderValue = "deflate".parse().unwrap();
    let res = decode_body(header_val.as_bytes(), &buffer_out);
    assert!(res.is_ok());
    let decoded = res.unwrap();

    assert_eq!(decoded.as_slice(), contents, "should get the same data back");
}

#[test]
fn test_decode_body_brotli() {
    let contents = b"some content to be compressed";
    let params = brotli::enc::BrotliEncoderParams::default();
    let mut encoder = brotli::CompressorReader::with_params(&contents[..], 4096, &params);
    let mut buffer_out = Vec::new();
    encoder.read_to_end(&mut buffer_out).unwrap();

    let header_val: HeaderValue = "br".parse().unwrap();
    let res = decode_body(header_val.as_bytes(), &buffer_out);
    assert!(res.is_ok());
    let decoded = res.unwrap();

    assert_eq!(decoded.as_slice(), contents, "should get the same data back");
}

#[test]
fn test_decode_body_zstd() {
    let contents = b"some content to be compressed";
    let mut encoder = zstd::stream::read::Encoder::new(&contents[..], 2).unwrap();
    let mut buffer_out = Vec::new();
    encoder.read_to_end(&mut buffer_out).unwrap();

    let header_val: HeaderValue = "zstd".parse().unwrap();
    let res = decode_body(header_val.as_bytes(), &buffer_out);
    assert!(res.is_ok());
    let decoded = res.unwrap();

    assert_eq!(decoded.as_slice(), contents, "should get the same data back");
}

#[test]
fn test_decode_body_error() {
    let contents = "some content to be compressed";
    let header_val: HeaderValue = "deflate".parse().unwrap();
    let res = decode_body(header_val.as_bytes(), contents.as_bytes());
    assert!(res.is_err());
}

#[test]
fn test_read_and_decode_body() {
    let config = ConfigData::default();
    assert!(config.modify_envelope_header, "Should default to true");

    let contents = b"some content to be compressed";
    let mut encoder = DeflateEncoder::new(&contents[..], Compression::fast());
    let mut buffer_out = Vec::new();
    encoder.read_to_end(&mut buffer_out).unwrap();

    let mut headers = HeaderMap::new();
    headers.insert("Content-Encoding", "deflate".parse().unwrap());
    let result = read_and_decode_body(&config, Some(buffer_out), &headers);

    assert!(result.is_ok());
    let new_bytes = result.unwrap();
    assert_eq!(new_bytes, b"some content to be compressed");
}

#[test]
fn test_read_and_decode_body_decode_disabled() {
    let mut config = ConfigData::default();
    config.modify_envelope_header = false;

    let contents = b"some content to be compressed";
    let mut encoder = DeflateEncoder::new(&contents[..], Compression::fast());
    let mut buffer_out = Vec::new();
    encoder.read_to_end(&mut buffer_out).unwrap();

    let expected_bytes = buffer_out.clone();
    let mut headers = HeaderMap::new();
    headers.insert("Content-Encoding", "deflate".parse().unwrap());
    let result = read_and_decode_body(&config, Some(buffer_out), &headers);

    assert!(result.is_ok());
    let new_bytes = result.unwrap();
    assert_eq!(new_bytes, expected_bytes);
    assert_ne!(new_bytes, b"some content to be compressed");
}
