//! What is read from an inbound request, and what is sent on to an outbound DSN.
use hyper::header::{HeaderName, HeaderValue};
use hyper::{HeaderMap, Uri};
use serde_json::Value;
use vstd::prelude::*;
use vstd::string::*;
use vstd::utf8::*;

use crate::auth::{
    claimed_key, is_delimiter, is_key, key_marker, law_key_replaced, law_marked_key_replaced,
    law_new_key_claimed, law_unmarked_text_kept, lemma_claim_not_empty, lemma_replaced_chars, replace_public_key,
    with_key,
};
use crate::codec::{
    brotli_decoded, decode_brotli, decode_deflate, decode_gzip, decode_zstd, deflate_decoded,
    gzip_decoded, zstd_decoded,
};
use crate::config::{ConfigData, DataCategory};
use crate::dsn::{dsn_text, header_key, Dsn, DsnParts, AUTHORIZATION_HEADER, SENTRY_X_AUTH_HEADER};
use crate::headers::{
    clone_value, copy_bytes, copy_name, first_value, grouped, has_distinct_names, header_contents,
    header_pairs, insert_header, is_header_value, is_value_byte, is_visible, is_visible_byte, lemma_grouped_names,
    lemma_grouped_pair, lemma_grouped_step, listed, name_text, new_headers, parse_value, value_bytes,
    value_text, visible_text, MAX_HEADER_NAMES,
};
use crate::json::{
    get_member, has_integers_only, is_nested_within, json_contents, json_parsed, json_printed, json_text, member_mut,
    parse_json, print_json, text_value, Json, MAX_NESTING,
};
use crate::text::{
    chars_of, contains, copy_range, decimal, decimal_text, ends_with, find_byte, find_char,
    find_segment, first_of, has_part, hex, hex_text, is_suffix, lemma_encoded_line, lemma_first_of,
    lemma_first_of_unique, lemma_has_part, lemma_segment_at, lemma_segment_start, lemma_segments_first,
    lemma_segments_head, lemma_segments_run, lemma_segments_single, occurs_in,
    push_range, same_text, segment_start, segments, spelled, split_segments, text_between, text_of,
    utf8_text,
};
use crate::uri::{absolute_uri, build_uri, uri_accepted, uri_text, RequestUri};

verus! {

/// The document with the DSN and the trace key of its envelope replaced, each where it is
/// there, or `None` where it holds neither.
pub open spec fn rewritten_header(header: Json, outbound: DsnParts) -> Option<Json> {
    let addressed = if header.member("dsn"@) is Some {
        header.with_member("dsn"@, Json::Text(dsn_text(outbound)))
    } else {
        header
    };
    match addressed.member("trace"@) {
        Some(trace) if trace.member("public_key"@) is Some => Some(
            addressed.with_member(
                "trace"@,
                trace.with_member("public_key"@, Json::Text(outbound.public_key)),
            ),
        ),
        _ => if header.member("dsn"@) is Some {
            Some(addressed)
        } else {
            None
        },
    }
}

/// Replaces the DSN and the trace key in the parsed header of an envelope, each where it is
/// there, and tells whether anything was replaced.
pub fn rewrite_header(header: &mut Value, outbound: &Dsn) -> (modified: bool)
    ensures
        modified == (rewritten_header(json_contents(*old(header)), outbound@) is Some),
        modified ==> Some(json_contents(*final(header))) == rewritten_header(
            json_contents(*old(header)),
            outbound@,
        ),
        !modified ==> json_contents(*final(header)) == json_contents(*old(header)),
{
    let mut modified = false;
    if get_member(header, "dsn").is_some() {
        *member_mut(header, "dsn") = json_text(outbound.to_text());
        modified = true;
    }
    let traced = match get_member(header, "trace") {
        Some(trace) => get_member(trace, "public_key").is_some(),
        None => false,
    };
    if traced {
        *member_mut(member_mut(header, "trace"), "public_key") = json_text(
            outbound.public_key.clone(),
        );
        modified = true;
    }
    modified
}

/// The document in the first line of a body, or `None` where that line is no JSON text.
pub open spec fn envelope_header(body: Seq<u8>) -> Option<Json> {
    let line = body.take(first_of(body, 0x0au8, 0));
    if valid_utf8(line) {
        json_parsed(decode_utf8(line))
    } else {
        None
    }
}

/// What stands behind the first line of a body, the line break included.
pub open spec fn behind_line(body: Seq<u8>) -> Seq<u8> {
    body.skip(first_of(body, 0x0au8, 0))
}

/// An envelope with its header rewritten for an outbound DSN: the first line replaced, and
/// every byte behind it kept. `None` where the first line is no JSON text or holds nothing
/// to replace.
pub open spec fn rewritten_envelope(body: Seq<u8>, outbound: DsnParts) -> Option<Seq<u8>> {
    match envelope_header(body) {
        Some(header) => match rewritten_header(header, outbound) {
            Some(new_header) => Some(encode_utf8(json_printed(new_header)) + behind_line(body)),
            None => None,
        },
        None => None,
    }
}

/// A first line without line breaks of its own ends where what stands behind it starts.
proof fn lemma_line_replaced(line: Seq<char>, body: Seq<u8>)
    requires
        !line.contains('\n'),
    ensures
        first_of(encode_utf8(line) + behind_line(body), 0x0au8, 0) == encode_utf8(line).len(),
        behind_line(encode_utf8(line) + behind_line(body)) == behind_line(body),
        (encode_utf8(line) + behind_line(body)).contains(0x0au8) == body.contains(0x0au8),
{
    let head = encode_utf8(line);
    let tail = behind_line(body);
    let whole = head + tail;
    let end = first_of(body, 0x0au8, 0);
    lemma_first_of(body, 0x0au8, 0);
    lemma_encoded_line(line);
    assert forall|j: int| 0 <= j < head.len() implies whole[j] != 0x0a by {
        assert(head.contains(head[j]));
    }
    if end < body.len() {
        assert(whole[head.len() as int] == body[end]);
        assert(body.contains(body[end]));
        assert(whole.contains(whole[head.len() as int]));
    } else {
        assert(tail =~= Seq::empty());
        assert(!whole.contains(0x0au8));
        assert(!body.contains(0x0au8));
    }
    lemma_first_of_unique(whole, 0x0au8, 0, head.len() as int);
    assert(behind_line(whole) =~= tail);
}

/// Replaces the DSN and the trace key in the header line of an envelope. The rest of the
/// body is copied as it is, whatever it holds. An envelope that was rewritten can be
/// rewritten for another DSN as if it had not been, where the numbers in its header are
/// integers of 64 bits.
pub fn replace_envelope_dsn(body: &[u8], outbound: &Dsn) -> (rewritten: Option<Vec<u8>>)
    ensures
        rewritten is Some <==> rewritten_envelope(body@, outbound@) is Some,
        rewritten matches Some(bytes) ==> rewritten_envelope(body@, outbound@) == Some(bytes@),
        rewritten matches Some(bytes) ==> behind_line(bytes@) == behind_line(body@),
        rewritten matches Some(bytes) ==> bytes@.contains(0x0au8) == body@.contains(0x0au8),
        rewritten matches Some(bytes) ==> has_integers_only(
            envelope_header(body@)->0,
        ) ==> forall|other: DsnParts| #[trigger]
            rewritten_envelope(bytes@, other) == rewritten_envelope(body@, other),
{
    let end: usize = find_byte(body, 0x0a, 0);
    let line = copy_range(body, 0, end);
    assert(line@ =~= body@.take(end as int));
    let text = match utf8_text(line.as_slice()) {
        Some(text) => text,
        None => return None,
    };
    let mut header = match parse_json(text.as_str()) {
        Ok(header) => header,
        Err(_) => return None,
    };
    if !rewrite_header(&mut header, outbound) {
        return None;
    }
    let header_line = print_json(&header);
    let header_bytes = header_line.as_str().as_bytes();
    let mut rewritten = copy_range(header_bytes, 0, header_bytes.len());
    push_range(&mut rewritten, body, end, body.len());
    assert(rewritten@ =~= encode_utf8(header_line@) + behind_line(body@));
    proof {
        lemma_line_replaced(header_line@, body@);
        if has_integers_only(envelope_header(body@)->0) {
            lemma_integers_kept(envelope_header(body@)->0, outbound@);
            assert forall|other: DsnParts| #[trigger]
                rewritten_envelope(rewritten@, other) == rewritten_envelope(body@, other) by {
                law_later_envelope_stands(body@, outbound@, other);
            }
        }
    }
    Some(rewritten)
}

/// A header whose numbers are integers keeps that when it is rewritten, and is nested no
/// deeper.
proof fn lemma_integers_kept(header: Json, outbound: DsnParts)
    requires
        is_nested_within(header, MAX_NESTING as nat),
        has_integers_only(header),
    ensures
        rewritten_header(header, outbound) matches Some(new_header) ==> is_nested_within(
            new_header,
            MAX_NESTING as nat,
        ) && has_integers_only(new_header),
{
    reveal_with_fuel(is_nested_within, 3);
    reveal_with_fuel(has_integers_only, 3);
    if let Json::Object(members) = header {
        if members.contains_key("trace"@) {
            assert(is_nested_within(members["trace"@], 126));
            assert(has_integers_only(members["trace"@]));
        }
    }
}

/// The category that the path of a request alone decides.
pub open spec fn path_category(path: Seq<char>) -> Option<DataCategory> {
    if occurs_in("/minidump"@, path) {
        Some(DataCategory::Minidumps)
    } else if occurs_in("/store"@, path) {
        Some(DataCategory::Errors)
    } else if occurs_in("/integration/oltp/v1/traces"@, path) || is_suffix("/traces/"@, path) {
        Some(DataCategory::Transactions)
    } else if occurs_in("/cron/"@, path) {
        Some(DataCategory::CheckIn)
    } else {
        None
    }
}

/// The category of an envelope item type.
pub open spec fn type_category(item_type: Seq<char>) -> Option<DataCategory> {
    if item_type == "event"@ {
        Some(DataCategory::Errors)
    } else if item_type == "transaction"@ {
        Some(DataCategory::Transactions)
    } else if item_type == "sessions"@ {
        Some(DataCategory::Sessions)
    } else if item_type == "client_report"@ {
        Some(DataCategory::ClientReports)
    } else if item_type == "replay_event"@ {
        Some(DataCategory::Replays)
    } else if item_type == "metric_buckets"@ {
        Some(DataCategory::Metrics)
    } else if item_type == "profile"@ {
        Some(DataCategory::Profiling)
    } else if item_type == "minidump"@ {
        Some(DataCategory::Minidumps)
    } else if item_type == "check_in"@ {
        Some(DataCategory::CheckIn)
    } else {
        None
    }
}

/// The category of an envelope item with a parsed header.
pub open spec fn item_category(header: Json) -> Option<DataCategory> {
    match header.member("type"@) {
        Some(Json::Text(item_type)) => type_category(item_type),
        _ => None,
    }
}

/// The second line of a body, where there is one: what stands between the first line break
/// and the second one, or the end.
pub open spec fn second_line(body: Seq<u8>) -> Option<Seq<u8>> {
    let first = first_of(body, 0x0au8, 0);
    if first < body.len() {
        Some(body.subrange(first + 1, first_of(body, 0x0au8, first + 1)))
    } else {
        None
    }
}

/// The category of an envelope, which its first item decides.
pub open spec fn envelope_category(body: Seq<u8>) -> Option<DataCategory> {
    match second_line(body) {
        Some(line) if valid_utf8(line) => match json_parsed(decode_utf8(line)) {
            Some(header) => item_category(header),
            None => None,
        },
        _ => None,
    }
}

/// The category of a request: what its path decides, or for an envelope its first item.
pub open spec fn request_category(path: Seq<char>, body: Seq<u8>) -> Option<DataCategory> {
    match path_category(path) {
        Some(category) => Some(category),
        None => if occurs_in("/envelope"@, path) {
            envelope_category(body)
        } else {
            None
        },
    }
}

/// Maps an envelope item type to its category.
pub fn categorize_type(item_type: &str) -> (category: Option<DataCategory>)
    ensures
        category == type_category(item_type@),
{
    if same_text(item_type, "event") {
        Some(DataCategory::Errors)
    } else if same_text(item_type, "transaction") {
        Some(DataCategory::Transactions)
    } else if same_text(item_type, "sessions") {
        Some(DataCategory::Sessions)
    } else if same_text(item_type, "client_report") {
        Some(DataCategory::ClientReports)
    } else if same_text(item_type, "replay_event") {
        Some(DataCategory::Replays)
    } else if same_text(item_type, "metric_buckets") {
        Some(DataCategory::Metrics)
    } else if same_text(item_type, "profile") {
        Some(DataCategory::Profiling)
    } else if same_text(item_type, "minidump") {
        Some(DataCategory::Minidumps)
    } else if same_text(item_type, "check_in") {
        Some(DataCategory::CheckIn)
    } else {
        None
    }
}

/// Decides the category of an envelope item by its parsed header.
pub fn categorize_item(header: &Value) -> (category: Option<DataCategory>)
    ensures
        category == item_category(json_contents(*header)),
{
    match get_member(header, "type") {
        Some(item_type) => match text_value(item_type) {
            Some(text) => categorize_type(text.as_str()),
            None => None,
        },
        None => None,
    }
}

/// Detects the data category of a request by its path and, for an envelope, by the header
/// of its first item. Returns `None` where the category cannot be determined.
pub fn detect_data_category(uri: &RequestUri, body: &[u8]) -> (category: Option<DataCategory>)
    ensures
        category == request_category(uri.path@, body@),
{
    let path = chars_of(uri.path.as_str());
    let path = path.as_slice();
    if contains(path, "/minidump") {
        return Some(DataCategory::Minidumps);
    }
    if contains(path, "/store") {
        return Some(DataCategory::Errors);
    }
    if contains(path, "/integration/oltp/v1/traces") || ends_with(path, "/traces/") {
        return Some(DataCategory::Transactions);
    }
    if contains(path, "/cron/") {
        return Some(DataCategory::CheckIn);
    }
    if contains(path, "/envelope") {
        let first: usize = find_byte(body, 0x0a, 0);
        if first < body.len() {
            let second: usize = find_byte(body, 0x0a, first + 1);
            let line = copy_range(body, first + 1, second);
            if let Some(text) = utf8_text(line.as_slice()) {
                if let Ok(header) = parse_json(text.as_str()) {
                    return categorize_item(&header);
                }
            }
        }
    }
    None
}

/// Why a body could not be decoded.
#[derive(Debug)]
pub enum BodyError {
    /// The encoding is none that the mirror decodes.
    UnsupportedCodec,
    /// The decoder refused the body.
    CouldNotDecode(std::io::Error),
    /// The encoding header cannot be read as text.
    InvalidHeader,
}

/// The decoded body, for an encoding that the mirror decodes: `None` for other encodings,
/// and `Some(None)` where the decoder refuses the body.
pub open spec fn decoded_body(encoding: Seq<char>, body: Seq<u8>) -> Option<Option<Seq<u8>>> {
    if encoding == "gzip"@ {
        Some(gzip_decoded(body))
    } else if encoding == "deflate"@ {
        Some(deflate_decoded(body))
    } else if encoding == "br"@ {
        Some(brotli_decoded(body))
    } else if encoding == "zstd"@ {
        Some(zstd_decoded(body))
    } else {
        None
    }
}

/// What a decoder returned, as the outcome for the body.
pub fn decoder_outcome(result: Result<Vec<u8>, std::io::Error>) -> (outcome: Result<
    Vec<u8>,
    BodyError,
>)
    ensures
        result matches Ok(bytes) ==> outcome == Ok::<Vec<u8>, BodyError>(bytes),
        result matches Err(error) ==> outcome == Err::<Vec<u8>, BodyError>(
            BodyError::CouldNotDecode(error),
        ),
{
    match result {
        Ok(bytes) => Ok(bytes),
        Err(error) => Err(BodyError::CouldNotDecode(error)),
    }
}

/// Decodes a compressed body by the value of its encoding header.
pub fn decode_body(encoding_header: &[u8], body: &[u8]) -> (result: Result<Vec<u8>, BodyError>)
    ensures
        result is Ok <==> is_visible(encoding_header@) && decoded_body(
            visible_text(encoding_header@),
            body@,
        ) matches Some(Some(_)),
        result matches Ok(bytes) ==> decoded_body(visible_text(encoding_header@), body@) == Some(
            Some(bytes@),
        ),
        result matches Err(BodyError::InvalidHeader) <==> !is_visible(encoding_header@),
        result matches Err(BodyError::UnsupportedCodec) <==> is_visible(encoding_header@)
            && decoded_body(visible_text(encoding_header@), body@) is None,
        result matches Err(BodyError::CouldNotDecode(_)) <==> is_visible(encoding_header@)
            && decoded_body(visible_text(encoding_header@), body@) == Some(None::<Seq<u8>>),
{
    let encoding = match value_text(encoding_header) {
        Some(text) => text,
        None => return Err(BodyError::InvalidHeader),
    };
    let encoding = encoding.as_str();
    proof {
        reveal_strlit("gzip");
        reveal_strlit("deflate");
        reveal_strlit("br");
        reveal_strlit("zstd");
    }
    if same_text(encoding, "gzip") {
        decoder_outcome(decode_gzip(body))
    } else if same_text(encoding, "deflate") {
        decoder_outcome(decode_deflate(body))
    } else if same_text(encoding, "br") {
        decoder_outcome(decode_brotli(body))
    } else if same_text(encoding, "zstd") {
        decoder_outcome(decode_zstd(body))
    } else {
        Err(BodyError::UnsupportedCodec)
    }
}

/// The most bytes of a body that a log line shows.
pub const MAX_LOG_BODY_BYTES: usize = 16384;

/// The log line of a body: as text where the bytes shown are text, and as hexadecimal
/// digits where they are not.
pub open spec fn body_log(body: Seq<u8>, label: Seq<char>) -> Seq<char> {
    let truncated = body.len() > MAX_LOG_BODY_BYTES;
    let shown = if truncated {
        body.take(MAX_LOG_BODY_BYTES as int)
    } else {
        body
    };
    if valid_utf8(shown) {
        let kind = if truncated {
            " (utf8, truncated; len="@
        } else {
            " (utf8; len="@
        };
        label + kind + decimal(body.len()) + "): "@ + decode_utf8(shown)
    } else {
        let kind = if truncated {
            " (binary hex, truncated; len="@
        } else {
            " (binary hex; len="@
        };
        label + kind + decimal(body.len()) + "): "@ + "0x"@ + hex(shown)
    }
}

/// Renders a body for a log line, with its length, and cut off where it is long.
pub fn format_body_for_log(body: &[u8], label: &str) -> (line: String)
    ensures
        line@ == body_log(body@, label@),
{
    let truncated = body.len() > MAX_LOG_BODY_BYTES;
    let length: usize = if truncated {
        MAX_LOG_BODY_BYTES
    } else {
        body.len()
    };
    let shown = copy_range(body, 0, length);
    assert(shown@ =~= if truncated {
        body@.take(MAX_LOG_BODY_BYTES as int)
    } else {
        body@
    });
    let mut line = label.to_owned();
    match utf8_text(shown.as_slice()) {
        Some(text) => {
            line.append(
                if truncated {
                    " (utf8, truncated; len="
                } else {
                    " (utf8; len="
                },
            );
            line.append(decimal_text(body.len()).as_str());
            line.append("): ");
            line.append(text.as_str());
        },
        None => {
            line.append(
                if truncated {
                    " (binary hex, truncated; len="
                } else {
                    " (binary hex; len="
                },
            );
            line.append(decimal_text(body.len()).as_str());
            line.append("): ");
            line.append("0x");
            line.append(hex_text(shown.as_slice()).as_str());
        },
    }
    line
}

/// The encoding header of a body that has to be decoded: the first one there is, and only
/// where envelope headers are rewritten.
pub open spec fn body_encoding(
    modify_envelope_header: bool,
    contents: Map<Seq<char>, Seq<Seq<u8>>>,
) -> Option<Seq<u8>> {
    if modify_envelope_header && contents.contains_key("content-encoding"@) {
        Some(contents["content-encoding"@][0])
    } else {
        None
    }
}

/// The body to work with, or `None` where it could not be decoded.
pub open spec fn plain_body(encoding: Option<Seq<u8>>, raw: Seq<u8>) -> Option<Seq<u8>> {
    match encoding {
        None => Some(raw),
        Some(header) => if is_visible(header) {
            match decoded_body(visible_text(header), raw) {
                Some(Some(bytes)) => Some(bytes),
                _ => None,
            }
        } else {
            None
        },
    }
}

/// Whether an error is the one that a body with a given encoding header fails with.
pub open spec fn is_failure(error: BodyError, header: Seq<u8>, body: Seq<u8>) -> bool {
    match error {
        BodyError::InvalidHeader => !is_visible(header),
        BodyError::UnsupportedCodec => is_visible(header) && decoded_body(
            visible_text(header),
            body,
        ) is None,
        BodyError::CouldNotDecode(_) => is_visible(header) && decoded_body(
            visible_text(header),
            body,
        ) == Some(None::<Seq<u8>>),
    }
}

/// Why there is no body to work with.
#[derive(Debug)]
pub enum ReadError {
    /// Receiving the body failed.
    Unreceived,
    /// Decoding the body failed.
    Undecoded(BodyError),
}

impl ReadError {
    /// The text for a reason.
    pub open spec fn text(self) -> Seq<char> {
        match self {
            ReadError::Unreceived => "could not read request body"@,
            ReadError::Undecoded(_) => "could not decode request body"@,
        }
    }

    /// Says in words why there is no body.
    pub fn message(&self) -> (message: String)
        ensures
            message@ == self.text(),
    {
        match self {
            ReadError::Unreceived => "could not read request body".to_owned(),
            ReadError::Undecoded(_) => "could not decode request body".to_owned(),
        }
    }
}

/// Decodes a body that was received, unless envelope headers stay as they are: `read` is
/// the body, or `None` where receiving it failed.
pub fn decode_received(
    config: &ConfigData,
    read: Option<Vec<u8>>,
    headers: &HeaderMap,
) -> (body: Result<Vec<u8>, ReadError>)
    ensures
        read is None <==> body matches Err(ReadError::Unreceived),
        read matches Some(raw) ==> ({
            let encoding = body_encoding(config.modify_envelope_header, header_contents(*headers));
            match plain_body(encoding, raw@) {
                Some(bytes) => body matches Ok(b) && b@ == bytes,
                None => body matches Err(ReadError::Undecoded(error)) && is_failure(
                    error,
                    encoding->0,
                    raw@,
                ),
            }
        }),
{
    let raw = match read {
        Some(raw) => raw,
        None => return Err(ReadError::Unreceived),
    };
    if !config.modify_envelope_header {
        return Ok(raw);
    }
    proof {
        reveal_strlit("content-encoding");
    }
    match first_value(headers, "content-encoding") {
        None => Ok(raw),
        Some(encoding) => match decode_body(encoding.as_slice(), raw.as_slice()) {
            Ok(bytes) => Ok(bytes),
            Err(error) => Err(ReadError::Undecoded(error)),
        },
    }
}

/// What becomes of reading a body: the body to work with, or the words for why there is
/// none.
pub open spec fn read_outcome(encoding: Option<Seq<u8>>, read: Option<Seq<u8>>) -> Result<
    Seq<u8>,
    Seq<char>,
> {
    match read {
        None => Err("could not read request body"@),
        Some(raw) => match plain_body(encoding, raw) {
            Some(body) => Ok(body),
            None => Err("could not decode request body"@),
        },
    }
}

/// The bytes of a body that was received.
pub open spec fn received_bytes(read: Option<Vec<u8>>) -> Option<Seq<u8>> {
    match read {
        Some(bytes) => Some(bytes@),
        None => None,
    }
}

/// The bytes of a body, or the words for why there is none.
pub open spec fn body_or_reason(body: Result<Vec<u8>, String>) -> Result<Seq<u8>, Seq<char>> {
    match body {
        Ok(bytes) => Ok(bytes@),
        Err(message) => Err(message@),
    }
}

/// Completes the reading of a request body: `read` is the body as it was received, or
/// `None` where receiving it failed. A compressed body is decoded, unless envelope headers
/// stay as they are.
pub fn read_and_decode_body(
    config: &ConfigData,
    read: Option<Vec<u8>>,
    headers: &HeaderMap,
) -> (body: Result<Vec<u8>, String>)
    ensures
        body_or_reason(body) == read_outcome(
            body_encoding(config.modify_envelope_header, header_contents(*headers)),
            received_bytes(read),
        ),
{
    match decode_received(config, read, headers) {
        Ok(bytes) => Ok(bytes),
        Err(error) => Err(error.message()),
    }
}

/// Renders a body as it was received for the log, in verbose mode.
pub fn log_received(config: &ConfigData, raw: &[u8]) -> (line: Option<String>)
    ensures
        line is Some <==> config.verbose,
        line matches Some(text) ==> text@ == body_log(raw@, "Raw Request Body"@),
{
    if config.verbose {
        Some(format_body_for_log(raw, "Raw Request Body"))
    } else {
        None
    }
}

/// Tests whether a body has to be decoded.
pub fn must_decode(config: &ConfigData, headers: &HeaderMap) -> (result: bool)
    ensures
        result == (body_encoding(config.modify_envelope_header, header_contents(*headers)) is Some),
{
    proof {
        reveal_strlit("content-encoding");
    }
    config.modify_envelope_header && first_value(headers, "content-encoding").is_some()
}

/// Renders a body that was decoded for the log, in verbose mode. A body that came without
/// an encoding to decode is none.
pub fn log_decoded(config: &ConfigData, headers: &HeaderMap, decoded: &[u8]) -> (line: Option<
    String,
>)
    ensures
        line is Some <==> config.verbose && body_encoding(
            config.modify_envelope_header,
            header_contents(*headers),
        ) is Some,
        line matches Some(text) ==> text@ == body_log(decoded@, "Decoded Request Body"@),
{
    if config.verbose && must_decode(config, headers) {
        Some(format_body_for_log(decoded, "Decoded Request Body"))
    } else {
        None
    }
}

/// The three path segments that take data in.
pub open spec fn is_ingest_segment(segment: Seq<char>) -> bool {
    segment == "envelope"@ || segment == "store"@ || segment == "integration"@
}

/// Where the project id of an ingest path starts: at the second segment.
pub open spec fn project_start(path: Seq<char>) -> int {
    segment_start(path, '/', first_of(path, '/', segment_start(path, '/', 0)))
}

/// The path for an outbound project: where the path is that of an ingest endpoint, its
/// second segment, the project id, is replaced. The rest is kept as it is.
pub open spec fn outbound_path(path: Seq<char>, project_id: Seq<char>) -> Seq<char> {
    let parts = segments(path, '/');
    if parts.len() >= 3 && parts[0] == "api"@ && is_ingest_segment(parts[2]) {
        let at = project_start(path);
        path.take(at) + project_id + path.skip(at + parts[1].len())
    } else {
        path
    }
}

/// The second segment stands where the project id starts.
proof fn lemma_project_start(path: Seq<char>)
    requires
        segments(path, '/').len() >= 2,
    ensures
        ({
            let at = project_start(path);
            let project = segments(path, '/')[1];
            &&& 0 <= at && at + project.len() <= path.len()
            &&& path.subrange(at, at + project.len()) == project
        }),
{
    assert(path.skip(0) =~= path);
    lemma_segment_at(path, '/', 0);
    lemma_segment_at(path, '/', first_of(path, '/', segment_start(path, '/', 0)));
}

/// The path and query for an outbound DSN: the project id and the key replaced, and no
/// query where it is empty.
pub open spec fn outbound_target(
    path: Seq<char>,
    query: Option<Seq<char>>,
    outbound: DsnParts,
) -> Seq<char> {
    let new_path = outbound_path(path, outbound.project_id);
    match query {
        Some(text) if with_key(text, outbound.public_key).len() > 0 => new_path + "?"@ + with_key(
            text,
            outbound.public_key,
        ),
        _ => new_path,
    }
}

/// Whether a header is not forwarded.
pub open spec fn is_dropped(modify_envelope_header: bool, name: Seq<char>) -> bool {
    ||| name == "host"@
    ||| name == "x-forwarded-for"@
    ||| name == "content-length"@
    ||| modify_envelope_header && name == "content-encoding"@
}

/// Whether a header carries a key.
pub open spec fn is_auth(name: Seq<char>) -> bool {
    name == AUTHORIZATION_HEADER@ || name == SENTRY_X_AUTH_HEADER@
}

/// A header value for an outbound DSN: with its key replaced where the header carries one.
pub open spec fn outbound_value(
    name: Seq<char>,
    value: Seq<u8>,
    public_key: Seq<char>,
) -> Seq<u8> {
    if is_auth(name) {
        encode_utf8(with_key(visible_text(value), public_key))
    } else {
        value
    }
}

/// Whether a header value can be rewritten for an outbound DSN: one that carries a key has
/// to be readable, and to be a header value still with the key replaced.
pub open spec fn is_rewritable(
    name: Seq<char>,
    value: Seq<u8>,
    public_key: Seq<char>,
) -> bool {
    is_auth(name) ==> is_visible(value) && is_header_value(
        outbound_value(name, value, public_key),
    )
}

/// Whether all header values can be rewritten.
pub open spec fn all_rewritable(
    contents: Map<Seq<char>, Seq<Seq<u8>>>,
    public_key: Seq<char>,
) -> bool {
    forall|name: Seq<char>, i: int|
        contents.contains_key(name) && 0 <= i < contents[name].len() ==> is_rewritable(
            name,
            #[trigger] contents[name][i],
            public_key,
        )
}

/// The headers of an outbound request: those that are forwarded, each with the last of its
/// values.
pub open spec fn outbound_headers(
    modify_envelope_header: bool,
    contents: Map<Seq<char>, Seq<Seq<u8>>>,
    public_key: Seq<char>,
) -> Map<Seq<char>, Seq<Seq<u8>>> {
    Map::new(
        |name: Seq<char>| contents.contains_key(name) && !is_dropped(modify_envelope_header, name),
        |name: Seq<char>| seq![outbound_value(name, contents[name].last(), public_key)],
    )
}

/// Whether an outbound request can be built: the `http` crate accepts its URI, and the
/// headers that carry a key can be rewritten.
pub open spec fn is_buildable(
    path: Seq<char>,
    query: Option<Seq<char>>,
    contents: Map<Seq<char>, Seq<Seq<u8>>>,
    outbound: DsnParts,
) -> bool {
    &&& uri_accepted(outbound.scheme, outbound.host, outbound_target(path, query, outbound))
    &&& all_rewritable(contents, outbound.public_key)
}

/// A request to an outbound DSN, without its body.
pub struct OutboundRequest {
    pub method: String,
    pub uri: Uri,
    pub headers: HeaderMap,
}

/// Makes the path for an outbound project.
pub fn make_path(path: &str, project_id: &str) -> (new_path: String)
    ensures
        new_path@ == outbound_path(path@, project_id@),
{
    let chars = chars_of(path);
    let parts = split_segments(chars.as_slice(), '/');
    let ghost all = segments(path@, '/');
    assert(spelled(parts@) == all);
    if parts.len() >= 3 {
        let first = text_of(parts[0].as_slice());
        let third = text_of(parts[2].as_slice());
        assert(all[0] == first@ && all[1] == parts@[1]@ && all[2] == third@);
        let third = third.as_str();
        if same_text(first.as_str(), "api") && (same_text(third, "envelope") || same_text(
            third,
            "store",
        ) || same_text(third, "integration")) {
            proof {
                lemma_project_start(path@);
            }
            let all = chars.as_slice();
            let length: usize = all.len();
            let end: usize = find_char(all, '/', find_segment(all, '/', 0));
            let at: usize = find_segment(all, '/', end);
            let mut new_path = text_between(all, 0, at);
            new_path.append(project_id);
            new_path.append(text_between(all, at + parts[1].len(), length).as_str());
            assert(path@.subrange(0, at as int) =~= path@.take(at as int));
            assert(path@.subrange(at + parts@[1]@.len(), length as int) =~= path@.skip(
                at + parts@[1]@.len(),
            ));
            return new_path;
        }
    }
    text_of(chars.as_slice())
}

/// Makes the path and query for an outbound DSN.
pub fn make_target(uri: &RequestUri, outbound: &Dsn) -> (target: String)
    ensures
        target@ == outbound_target(uri.path@, uri.query_text(), outbound@),
{
    let mut target = make_path(uri.path.as_str(), outbound.project_id.as_str());
    if let Some(query) = &uri.query {
        let query = replace_public_key(query.as_str(), outbound);
        if chars_of(query.as_str()).len() > 0 {
            target.append("?");
            target.append(query.as_str());
        }
    }
    target
}

/// Tests whether a header is not forwarded.
pub fn dropped(modify_envelope_header: bool, name: &str) -> (result: bool)
    ensures
        result == is_dropped(modify_envelope_header, name@),
{
    same_text(name, "host") || same_text(name, "x-forwarded-for") || same_text(
        name,
        "content-length",
    ) || (modify_envelope_header && same_text(name, "content-encoding"))
}

/// Makes the header value for an outbound DSN, or `None` where it cannot be rewritten.
pub fn make_value(name: &HeaderName, value: &HeaderValue, outbound: &Dsn) -> (new_value: Option<
    HeaderValue,
>)
    ensures
        new_value is Some <==> is_rewritable(
            name_text(*name),
            value_bytes(*value),
            outbound.public_key@,
        ),
        new_value matches Some(v) ==> value_bytes(v) == outbound_value(
            name_text(*name),
            value_bytes(*value),
            outbound.public_key@,
        ),
{
    let text = copy_name(name);
    let text = text.as_str();
    if same_text(text, AUTHORIZATION_HEADER) || same_text(text, SENTRY_X_AUTH_HEADER) {
        match value_text(copy_bytes(value).as_slice()) {
            Some(claim) => parse_value(replace_public_key(claim.as_str(), outbound).as_str()),
            None => None,
        }
    } else {
        Some(clone_value(value))
    }
}

/// Tests whether the outbound request for a DSN can be built.
pub fn can_build(uri: &RequestUri, headers: &HeaderMap, outbound: &Dsn) -> (result: bool)
    ensures
        result == is_buildable(uri.path@, uri.query_text(), header_contents(*headers), outbound@),
{
    let target = make_target(uri, outbound);
    let accepted = build_uri(
        outbound.scheme.as_str(),
        outbound.host.as_str(),
        target.as_str(),
    ).is_some();
    let pairs = header_pairs(headers);
    let ghost list = listed(pairs@);
    let mut rewritable = true;
    let mut i: usize = 0;
    while i < pairs.len()
        invariant
            i <= pairs@.len(),
            list == listed(pairs@),
            rewritable == all_rewritable(
                grouped(list.take(i as int)),
                outbound.public_key@,
            ),
        decreases pairs@.len() - i,
    {
        if make_value(&pairs[i].0, &pairs[i].1, outbound).is_none() {
            rewritable = false;
        }
        proof {
            lemma_rewritable_step(list, i as int, outbound.public_key@);
        }
        i += 1;
    }
    assert(list.take(i as int) =~= list);
    accepted && rewritable
}

/// One more pair can be rewritten exactly when its own value can.
proof fn lemma_rewritable_step(pairs: Seq<(Seq<char>, Seq<u8>)>, i: int, public_key: Seq<char>)
    requires
        0 <= i < pairs.len(),
    ensures
        all_rewritable(grouped(pairs.take(i + 1)), public_key) <==> all_rewritable(
            grouped(pairs.take(i)),
            public_key,
        ) && is_rewritable(pairs[i].0, pairs[i].1, public_key),
{
    lemma_grouped_step(pairs, i);
    let before = grouped(pairs.take(i));
    let after = grouped(pairs.take(i + 1));
    let name = pairs[i].0;
    assert(after[name].last() == pairs[i].1);
    if all_rewritable(after, public_key) {
        let last = after[name].len() - 1;
        assert(is_rewritable(name, after[name][last], public_key));
        assert forall|n: Seq<char>, j: int|
            before.contains_key(n) && 0 <= j < before[n].len() implies is_rewritable(
            n,
            #[trigger] before[n][j],
            public_key,
        ) by {
            assert(after[n][j] == before[n][j]);
        }
    }
}

/// Copies the relevant parts of a request into a new one for an outbound DSN. Returns `None`
/// where its header map has no room for the headers, which it always has for up to
/// `MAX_HEADER_NAMES` names.
pub fn make_outbound_request(
    config: &ConfigData,
    uri: &RequestUri,
    headers: &HeaderMap,
    outbound: &Dsn,
) -> (made: Option<OutboundRequest>)
    requires
        is_buildable(uri.path@, uri.query_text(), header_contents(*headers), outbound@),
    ensures
        header_contents(*headers).len() <= MAX_HEADER_NAMES ==> made is Some,
        made matches Some(request) ==> request.method@ == "POST"@,
        made matches Some(request) ==> uri_text(request.uri) == absolute_uri(
            outbound.scheme@,
            outbound.host@,
            outbound_target(uri.path@, uri.query_text(), outbound@),
        ),
        made matches Some(request) ==> header_contents(request.headers) == outbound_headers(
            config.modify_envelope_header,
            header_contents(*headers),
            outbound.public_key@,
        ),
{
    let target = make_target(uri, outbound);
    let new_uri = build_uri(
        outbound.scheme.as_str(),
        outbound.host.as_str(),
        target.as_str(),
    ).unwrap();
    let mut new_headers = new_headers();
    let pairs = header_pairs(headers);
    let ghost contents = header_contents(*headers);
    let ghost list = listed(pairs@);
    let mut i: usize = 0;
    assert(list.take(0) =~= Seq::<(Seq<char>, Seq<u8>)>::empty());
    while i < pairs.len()
        invariant
            i <= pairs@.len(),
            list == listed(pairs@),
            contents == grouped(list),
            contents == header_contents(*headers),
            all_rewritable(contents, outbound.public_key@),
            has_distinct_names(new_headers),
            header_contents(new_headers) == outbound_headers(
                config.modify_envelope_header,
                grouped(list.take(i as int)),
                outbound.public_key@,
            ),
        decreases pairs@.len() - i,
    {
        proof {
            lemma_grouped_step(list, i as int);
            lemma_grouped_names(list, i as int);
            lemma_grouped_pair(list, i as int);
            assert(header_contents(new_headers).dom().subset_of(contents.dom()));
            vstd::set_lib::lemma_len_subset(header_contents(new_headers).dom(), contents.dom());
        }
        let name = &pairs[i].0;
        if !dropped(config.modify_envelope_header, copy_name(name).as_str()) {
            let new_value = make_value(name, &pairs[i].1, outbound).unwrap();
            if !insert_header(&mut new_headers, name, new_value) {
                return None;
            }
        }
        i += 1;
        assert(header_contents(new_headers) =~= outbound_headers(
            config.modify_envelope_header,
            grouped(list.take(i as int)),
            outbound.public_key@,
        ));
    }
    assert(list.take(i as int) =~= list);
    Some(OutboundRequest { method: "POST".to_owned(), uri: new_uri, headers: new_headers })
}

/// The header of an envelope is addressed to the outbound DSN: where it has a DSN, that is
/// the outbound one, and where it names a trace key, that is the outbound public key.
/// Every other member is kept, in the header and in its trace.
pub proof fn law_envelope_header_addressed(header: Json, outbound: DsnParts)
    requires
        rewritten_header(header, outbound) is Some,
    ensures
        ({
            let new_header = rewritten_header(header, outbound)->0;
            &&& header.member("dsn"@) is Some ==> new_header.member("dsn"@) == Some(
                Json::Text(dsn_text(outbound)),
            )
            &&& header.member("dsn"@) is None ==> new_header.member("dsn"@) is None
            &&& forall|name: Seq<char>|
                name != "dsn"@ && name != "trace"@ ==> #[trigger] new_header.member(name)
                    == header.member(name)
            &&& header.member("trace"@) matches Some(trace) ==> (new_header.member(
                "trace"@,
            ) matches Some(new_trace) && (trace.member("public_key"@) is Some
                ==> new_trace.member("public_key"@) == Some(Json::Text(outbound.public_key))) && (
            trace.member("public_key"@) is None ==> new_trace == trace) && forall|name: Seq<char>|
                name != "public_key"@ ==> #[trigger] new_trace.member(name) == trace.member(name))
            &&& header.member("trace"@) is None ==> new_header.member("trace"@) is None
        }),
{
    reveal_strlit("dsn");
    reveal_strlit("trace");
    assert("dsn"@.len() != "trace"@.len());
}

/// An envelope header that was addressed once can be addressed again, and the later DSN
/// stands.
pub proof fn law_later_dsn_stands(header: Json, first: DsnParts, second: DsnParts)
    requires
        rewritten_header(header, first) is Some,
    ensures
        rewritten_header(rewritten_header(header, first)->0, second) == rewritten_header(
            header,
            second,
        ),
{
    reveal_strlit("dsn");
    reveal_strlit("trace");
    assert("dsn"@.len() != "trace"@.len());
    let once = rewritten_header(header, first)->0;
    if let Json::Object(members) = header {
        let dsn = header.member("dsn"@) is Some;
        let base = if dsn {
            members.insert("dsn"@, Json::Text(dsn_text(second)))
        } else {
            members
        };
        let once_members = once->Object_0;
        let twice = if dsn {
            once_members.insert("dsn"@, Json::Text(dsn_text(second)))
        } else {
            once_members
        };
        match header.member("trace"@) {
            Some(Json::Object(trace)) if trace.contains_key("public_key"@) => {
                let new_trace = trace.insert("public_key"@, Json::Text(second.public_key));
                let trace_once = trace.insert("public_key"@, Json::Text(first.public_key));
                assert(trace_once.insert("public_key"@, Json::Text(second.public_key))
                    =~= new_trace);
                assert(twice.insert("trace"@, Json::Object(new_trace)) =~= base.insert(
                    "trace"@,
                    Json::Object(new_trace),
                ));
            },
            _ => {
                assert(twice =~= base);
            },
        }
    }
}

/// An envelope that was addressed once can be addressed again, and the later DSN stands, in
/// every byte: rewriting it for a second DSN gives what rewriting the first envelope for
/// that DSN gives, where the rewritten header is printed on one line that is parsed back
/// to it.
pub proof fn law_later_envelope_stands(body: Seq<u8>, first: DsnParts, second: DsnParts)
    requires
        rewritten_envelope(body, first) is Some,
        ({
            let header = rewritten_header(envelope_header(body)->0, first)->0;
            json_parsed(json_printed(header)) == Some(header) && !json_printed(header).contains(
                '\n',
            )
        }),
    ensures
        rewritten_envelope(rewritten_envelope(body, first)->0, second) == rewritten_envelope(
            body,
            second,
        ),
{
    let header = rewritten_header(envelope_header(body)->0, first)->0;
    let line = json_printed(header);
    let once = rewritten_envelope(body, first)->0;
    lemma_line_replaced(line, body);
    assert(once.take(encode_utf8(line).len() as int) =~= encode_utf8(line));
    encode_utf8_valid_utf8(line);
    encode_utf8_decode_utf8(line);
    law_later_dsn_stands(envelope_header(body)->0, first, second);
}

/// The headers of an outbound request: those that belong to the connection of the inbound
/// one are never there, nor is an encoding that the body no longer has, and every other
/// header of the inbound request is.
pub proof fn law_headers_forwarded(
    modify_envelope_header: bool,
    contents: Map<Seq<char>, Seq<Seq<u8>>>,
    public_key: Seq<char>,
)
    ensures
        ({
            let forwarded = outbound_headers(modify_envelope_header, contents, public_key);
            &&& !forwarded.contains_key("host"@)
            &&& !forwarded.contains_key("x-forwarded-for"@)
            &&& !forwarded.contains_key("content-length"@)
            &&& forwarded.contains_key("content-encoding"@) <==> contents.contains_key(
                "content-encoding"@,
            ) && !modify_envelope_header
            &&& forall|name: Seq<char>|
                name != "host"@ && name != "x-forwarded-for"@ && name != "content-length"@ && name
                    != "content-encoding"@ ==> #[trigger] forwarded.contains_key(name)
                    == contents.contains_key(name)
            &&& forall|name: Seq<char>|
                #[trigger] forwarded.contains_key(name) && name != "authorization"@ && name
                    != "x-sentry-auth"@ ==> forwarded[name] == seq![contents[name].last()]
        }),
{
    reveal_strlit("host");
    reveal_strlit("x-forwarded-for");
    reveal_strlit("content-length");
    reveal_strlit("content-encoding");
    assert("content-encoding"@.len() == 16 && "content-length"@.len() == 14);
    assert("x-forwarded-for"@.len() == 15 && "host"@.len() == 4);
}

/// The bytes of a text of visible characters are readable, and spell the text.
proof fn lemma_visible_round_trip(text: Seq<char>)
    requires
        forall|i: int| 0 <= i < text.len() ==> ' ' <= #[trigger] text[i] <= '~' || text[i] == '\t',
    ensures
        is_visible(encode_utf8(text)),
        visible_text(encode_utf8(text)) == text,
{
    assert(is_ascii_chars(text));
    is_ascii_chars_encode_utf8(text);
    let bytes = encode_utf8(text);
    assert forall|i: int| 0 <= i < bytes.len() implies is_visible_byte(#[trigger] bytes[i]) by {
        assert(text[i] as u8 == bytes[i]);
    }
    assert forall|i: int| 0 <= i < bytes.len() implies bytes[i] as char == text[i] by {
        assert(text[i] as u8 == bytes[i]);
    }
    assert(visible_text(bytes) =~= text);
}

/// An authentication header claims the outbound key once it is forwarded, where the last of
/// its values, which is the one that is forwarded, claims a key of the form that is
/// replaced.
pub proof fn law_header_claims_outbound_key(
    modify_envelope_header: bool,
    contents: Map<Seq<char>, Seq<Seq<u8>>>,
    name: Seq<char>,
    public_key: Seq<char>,
)
    requires
        name == "authorization"@ || name == "x-sentry-auth"@,
        contents.contains_key(name) && is_visible(contents[name].last()),
        claimed_key(visible_text(contents[name].last())) matches Some(old_key) && is_key(old_key),
        public_key.len() > 0,
        forall|i: int| 0 <= i < public_key.len() ==> ' ' < #[trigger] public_key[i] <= '~',
        forall|i: int|
            0 <= i < public_key.len() ==> !is_delimiter(#[trigger] public_key[i]) && public_key[i]
                != '$',
    ensures
        header_key(
            outbound_headers(modify_envelope_header, contents, public_key),
            name,
        ) == Some(public_key),
{
    reveal_strlit("host");
    reveal_strlit("x-forwarded-for");
    reveal_strlit("content-length");
    reveal_strlit("content-encoding");
    reveal_strlit("authorization");
    reveal_strlit("x-sentry-auth");
    reveal_strlit("sentry_key=");
    assert("x-forwarded-for"@.len() == 15 && "host"@.len() == 4);
    assert("content-length"@.len() == 14 && "content-encoding"@.len() == 16);
    assert("authorization"@.len() == 13 && "x-sentry-auth"@.len() == 13);
    let value = contents[name].last();
    let text = visible_text(value);
    assert(!public_key.contains('$'));
    law_new_key_claimed(text, public_key);
    law_key_replaced(text, public_key);
    let new_text = with_key(text, public_key);
    lemma_replaced_chars(text, public_key);
    assert forall|i: int| 0 <= i < new_text.len() implies ' ' <= #[trigger] new_text[i] <= '~'
        || new_text[i] == '\t' by {
        if !key_marker().contains(new_text[i]) && !public_key.contains(new_text[i]) {
            assert(text.contains(new_text[i]));
            let j = choose|j: int| 0 <= j < text.len() && text[j] == new_text[i];
            assert(is_visible_byte(value[j]));
        }
    }
    lemma_visible_round_trip(new_text);
}

/// A body is forwarded byte for byte where envelope headers stay as they are, and decoded
/// otherwise only where its encoding is given.
pub proof fn law_body_kept(
    modify_envelope_header: bool,
    contents: Map<Seq<char>, Seq<Seq<u8>>>,
    raw: Seq<u8>,
)
    requires
        !modify_envelope_header || !contents.contains_key("content-encoding"@),
    ensures
        plain_body(body_encoding(modify_envelope_header, contents), raw) == Some(raw),
{
}

/// The path of an ingest endpoint of one project becomes the path of the same endpoint of
/// another project.
pub proof fn law_project_id_replaced(
    old_id: Seq<char>,
    endpoint: Seq<char>,
    rest: Seq<char>,
    new_id: Seq<char>,
)
    requires
        old_id.len() > 0 && !old_id.contains('/'),
        is_ingest_segment(endpoint),
        rest.len() > 0 ==> rest[0] == '/',
    ensures
        outbound_path("/api/"@ + old_id + "/"@ + endpoint + rest, new_id) == "/api/"@ + new_id
            + "/"@ + endpoint + rest,
{
    reveal_strlit("/api/");
    reveal_strlit("api");
    reveal_strlit("/");
    reveal_strlit("envelope");
    reveal_strlit("store");
    reveal_strlit("integration");
    let path = "/api/"@ + old_id + "/"@ + endpoint + rest;
    let tail = "/"@ + endpoint + rest;
    let none = Seq::<char>::empty();
    assert(!endpoint.contains('/'));
    assert(!"api"@.contains('/'));
    let last = endpoint + rest;
    let third = old_id + seq!['/'] + last;
    let second = "api"@ + seq!['/'] + third;
    assert(path =~= none + seq!['/'] + second);
    lemma_segments_head(none, second, '/');
    lemma_segments_head("api"@, third, '/');
    lemma_segments_head(old_id, last, '/');
    let parts = segments(path, '/');
    if rest.len() == 0 {
        assert(last =~= endpoint);
        lemma_segments_single(endpoint, '/');
    } else {
        assert(last =~= endpoint + seq!['/'] + rest.skip(1));
        lemma_segments_head(endpoint, rest.skip(1), '/');
    }
    assert(parts.len() >= 3 && parts[0] == "api"@ && parts[1] == old_id && parts[2] == endpoint);
    assert(path[0] == '/' && path[1] == 'a' && path[2] == 'p' && path[3] == 'i' && path[4] == '/');
    assert(path[5] == old_id[0] && old_id.contains(old_id[0]));
    reveal_with_fuel(segment_start, 3);
    lemma_first_of_unique(path, '/', 1, 4);
    assert(project_start(path) == 5);
    assert(path.take(5) =~= "/api/"@);
    assert(path.skip((5 + old_id.len()) as int) =~= tail);
    assert("/api/"@ + new_id + tail =~= "/api/"@ + new_id + "/"@ + endpoint + rest);
}

/// The header of an envelope is rewritten exactly where it has a DSN or names a trace key.
/// What is rewritten is still an object.
pub proof fn law_header_rewritten_where_needed(header: Json, outbound: DsnParts)
    ensures
        rewritten_header(header, outbound) is Some <==> header.member("dsn"@) is Some || (
        header.member("trace"@) matches Some(trace) && trace.member("public_key"@) is Some),
        rewritten_header(header, outbound) matches Some(new_header) ==> new_header is Object,
{
    reveal_strlit("dsn");
    reveal_strlit("trace");
    assert("dsn"@.len() != "trace"@.len());
}

/// Objects have the members they hold, and nothing else has any.
pub proof fn law_members(document: Json, members: Map<Seq<char>, Json>, name: Seq<char>)
    ensures
        members.contains_key(name) ==> Json::Object(members).member(name) == Some(members[name]),
        !members.contains_key(name) ==> Json::Object(members).member(name) is None,
        !(document is Object) ==> document.member(name) is None,
{
}

/// A body whose first line is a text, with or without more behind it.
pub open spec fn lines(line: Seq<u8>, more: Option<Seq<u8>>) -> Seq<u8> {
    match more {
        Some(rest) => line + seq![0x0au8] + rest,
        None => line,
    }
}

/// The first line of a body ends at its first line break.
proof fn lemma_first_line(line: Seq<u8>, more: Option<Seq<u8>>)
    requires
        !line.contains(0x0au8),
    ensures
        first_of(lines(line, more), 0x0au8, 0) == line.len(),
        lines(line, more).take(line.len() as int) == line,
        lines(line, more) == line + lines(line, more).skip(line.len() as int),
{
    let body = lines(line, more);
    assert forall|j: int| 0 <= j < line.len() implies body[j] != 0x0a by {
        assert(line.contains(line[j]));
    }
    lemma_first_of_unique(body, 0x0au8, 0, line.len() as int);
    assert(body.take(line.len() as int) =~= line);
    assert(body =~= line + body.skip(line.len() as int));
}

/// Of an envelope only the header line is rewritten, to the new header in print, whether or
/// not other lines follow; those are kept. Where the header line is no JSON document, or
/// one with neither a DSN nor a trace key, nothing is rewritten.
pub proof fn law_header_line_rewritten(
    line: Seq<char>,
    more: Option<Seq<u8>>,
    outbound: DsnParts,
)
    requires
        !line.contains('\n'),
    ensures
        ({
            let rewritten = rewritten_envelope(lines(encode_utf8(line), more), outbound);
            &&& json_parsed(line) is None ==> rewritten is None
            &&& json_parsed(line) matches Some(header) ==> {
                let needed = header.member("dsn"@) is Some || (header.member(
                    "trace"@,
                ) matches Some(trace) && trace.member("public_key"@) is Some);
                &&& !needed ==> rewritten is None
                &&& needed ==> rewritten == Some(
                    lines(encode_utf8(json_printed(rewritten_header(header, outbound)->0)), more),
                )
            }
        }),
{
    let bytes = encode_utf8(line);
    let body = lines(bytes, more);
    lemma_encoded_line(line);
    lemma_first_line(bytes, more);
    encode_utf8_valid_utf8(line);
    encode_utf8_decode_utf8(line);
    if let Some(header) = json_parsed(line) {
        law_header_rewritten_where_needed(header, outbound);
        if let Some(new_header) = rewritten_header(header, outbound) {
            let new_line = encode_utf8(json_printed(new_header));
            assert(new_line + behind_line(body) =~= lines(new_line, more));
        }
    }
}

/// An envelope whose first line is no text is not rewritten.
pub proof fn law_binary_line_not_rewritten(
    line: Seq<u8>,
    more: Option<Seq<u8>>,
    outbound: DsnParts,
)
    requires
        !line.contains(0x0au8),
        !valid_utf8(line),
    ensures
        rewritten_envelope(lines(line, more), outbound) is None,
{
    lemma_first_line(line, more);
}

/// The key in a query is replaced wherever it stands there: what stands before its marker
/// and what stands behind it is sent on as it is, behind the path for the outbound project.
pub proof fn law_query_key_replaced(
    path: Seq<char>,
    before: Seq<char>,
    old_key: Seq<char>,
    behind: Seq<char>,
    outbound: DsnParts,
)
    requires
        old_key.len() > 0,
        forall|i: int|
            0 <= i < old_key.len() ==> 'a' <= #[trigger] old_key[i] <= 'f' || '0' <= old_key[i]
                <= '9',
        behind.len() > 0 ==> !('a' <= behind[0] <= 'f' || '0' <= behind[0] <= '9'),
        forall|x: Seq<char>, c: char, y: Seq<char>|
            x.len() < before.len() && ('a' <= c <= 'f' || '0' <= c <= '9') ==> before
                + "sentry_key="@ + old_key + behind != #[trigger] (x + "sentry_key="@ + seq![c]
                + y),
        !outbound.public_key.contains('$'),
    ensures
        outbound_target(path, Some(before + "sentry_key="@ + old_key + behind), outbound)
            == outbound_path(path, outbound.project_id) + "?"@ + (before + "sentry_key="@
            + outbound.public_key + behind),
{
    reveal_strlit("sentry_key=");
    law_marked_key_replaced(before, old_key, behind, outbound.public_key);
}

/// A query that marks no key is sent on as it is; where it is empty or not there, no question
/// mark is sent either.
pub proof fn law_query_kept(path: Seq<char>, query: Seq<char>, outbound: DsnParts)
    requires
        forall|x: Seq<char>, c: char, y: Seq<char>|
            'a' <= c <= 'f' || '0' <= c <= '9' ==> query != #[trigger] (x + "sentry_key="@ + seq![c]
                + y),
    ensures
        outbound_target(path, None, outbound) == outbound_path(path, outbound.project_id),
        query.len() > 0 ==> outbound_target(path, Some(query), outbound) == outbound_path(
            path,
            outbound.project_id,
        ) + "?"@ + query,
        query.len() == 0 ==> outbound_target(path, Some(query), outbound) == outbound_path(
            path,
            outbound.project_id,
        ),
{
    law_unmarked_text_kept(query, outbound.public_key);
}

/// A query that claims a key of hexadecimal digits claims the outbound key once it is
/// forwarded.
pub proof fn law_query_claims_outbound_key(
    path: Seq<char>,
    query: Seq<char>,
    outbound: DsnParts,
) -> (new_query: Seq<char>)
    requires
        claimed_key(query) matches Some(old_key) && forall|i: int|
            0 <= i < old_key.len() ==> 'a' <= #[trigger] old_key[i] <= 'f' || '0' <= old_key[i]
                <= '9',
        outbound.public_key.len() > 0,
        forall|i: int|
            0 <= i < outbound.public_key.len() ==> #[trigger] outbound.public_key[i] != ','
                && outbound.public_key[i] != '&' && outbound.public_key[i] != ';'
                && outbound.public_key[i] != ' ' && outbound.public_key[i] != '$',
    ensures
        outbound_target(path, Some(query), outbound) == outbound_path(path, outbound.project_id)
            + "?"@ + new_query,
        claimed_key(new_query) == Some(outbound.public_key),
{
    reveal_strlit("sentry_key=");
    let key = outbound.public_key;
    let old_key = claimed_key(query)->0;
    lemma_claim_not_empty(query);
    assert(is_key(old_key));
    assert(!key.contains('$'));
    law_new_key_claimed(query, key);
    with_key(query, key)
}

/// Whether a text is made up of slashes alone.
pub open spec fn is_slashes(s: Seq<char>) -> bool {
    forall|i: int| 0 <= i < s.len() ==> #[trigger] s[i] == '/'
}

/// The segments of a path that is put together from segments and slashes.
proof fn lemma_path_segments(
    s1: Seq<char>,
    a: Seq<char>,
    s2: Seq<char>,
    b: Seq<char>,
    s3: Seq<char>,
    tail: Seq<char>,
)
    requires
        is_slashes(s1) && is_slashes(s2) && is_slashes(s3),
        !a.contains('/') && !b.contains('/'),
        s2.len() > 0 || b.len() == 0 && s3.len() == 0 && tail.len() == 0,
        s3.len() > 0 || tail.len() == 0,
    ensures
        segments(s1 + a + s2 + b + s3 + tail, '/') == (if a.len() > 0 {
            seq![a]
        } else {
            seq![]
        }) + (if b.len() > 0 {
            seq![b]
        } else {
            seq![]
        }) + segments(tail, '/'),
{
    let behind_b = s3 + tail;
    let behind_a = s2 + (b + behind_b);
    assert(s1 + a + s2 + b + s3 + tail =~= s1 + (a + behind_a));
    lemma_segments_run(s1, a + behind_a, '/');
    if behind_a.len() > 0 {
        assert(behind_a[0] == s2[0]);
    }
    lemma_segments_first(a, behind_a, '/');
    lemma_segments_run(s2, b + behind_b, '/');
    if behind_b.len() > 0 {
        assert(behind_b[0] == s3[0]);
    }
    lemma_segments_first(b, behind_b, '/');
    lemma_segments_run(s3, tail, '/');
    let last = segments(tail, '/');
    assert((if a.len() > 0 {
        seq![a]
    } else {
        seq![]
    }) + (if b.len() > 0 {
        seq![b]
    } else {
        seq![]
    }) + last =~= segments(s1 + a + s2 + b + s3 + tail, '/'));
}

/// In the path of an ingest endpoint the project id is replaced, and nothing else, however
/// many slashes stand between the segments and whatever follows the endpoint.
pub proof fn law_ingest_path(
    s1: Seq<char>,
    s2: Seq<char>,
    old_id: Seq<char>,
    s3: Seq<char>,
    endpoint: Seq<char>,
    rest: Seq<char>,
    new_id: Seq<char>,
)
    requires
        is_slashes(s1) && is_slashes(s2) && is_slashes(s3),
        s2.len() > 0 && s3.len() > 0,
        old_id.len() > 0 && !old_id.contains('/'),
        endpoint == "envelope"@ || endpoint == "store"@ || endpoint == "integration"@,
        rest.len() > 0 ==> rest[0] == '/',
    ensures
        outbound_path(s1 + "api"@ + s2 + old_id + s3 + (endpoint + rest), new_id) == s1 + "api"@
            + s2 + new_id + s3 + (endpoint + rest),
{
    reveal_strlit("api");
    reveal_strlit("envelope");
    reveal_strlit("store");
    reveal_strlit("integration");
    let path = s1 + "api"@ + s2 + old_id + s3 + (endpoint + rest);
    assert(!"api"@.contains('/'));
    assert(!endpoint.contains('/'));
    lemma_path_segments(s1, "api"@, s2, old_id, s3, endpoint + rest);
    lemma_segments_first(endpoint, rest, '/');
    let parts = segments(path, '/');
    assert(parts.len() >= 3 && parts[0] == "api"@ && parts[1] == old_id && parts[2] == endpoint);
    let first = s1.len() as int;
    let end = first + 3;
    let at = end + s2.len();
    assert forall|j: int| 0 <= j < first implies #[trigger] path[j] == '/' by {
        assert(path[j] == s1[j]);
    }
    assert(path[first] == 'a' && path[first + 1] == 'p' && path[first + 2] == 'i');
    lemma_segment_start(path, '/', 0, first);
    assert(path[end] == s2[0]);
    lemma_first_of_unique(path, '/', first, end);
    assert forall|j: int| end <= j < at implies #[trigger] path[j] == '/' by {
        assert(path[j] == s2[j - end]);
    }
    assert(path[at] == old_id[0] && old_id.contains(old_id[0]));
    lemma_segment_start(path, '/', end, at);
    assert(path.take(at) =~= s1 + "api"@ + s2);
    assert(path.skip(at + old_id.len()) =~= s3 + (endpoint + rest));
    assert(s1 + "api"@ + s2 + new_id + (s3 + (endpoint + rest)) =~= s1 + "api"@ + s2 + new_id + s3
        + (endpoint + rest));
}

/// Every other path is sent on as it is: one whose first segment is not `api`, or whose third
/// segment is no ingest endpoint.
pub proof fn law_other_path_kept(
    s1: Seq<char>,
    a: Seq<char>,
    s2: Seq<char>,
    b: Seq<char>,
    s3: Seq<char>,
    c: Seq<char>,
    rest: Seq<char>,
    new_id: Seq<char>,
)
    requires
        is_slashes(s1) && is_slashes(s2) && is_slashes(s3),
        s2.len() > 0 && s3.len() > 0,
        a.len() > 0 && b.len() > 0 && c.len() > 0,
        !a.contains('/') && !b.contains('/') && !c.contains('/'),
        rest.len() > 0 ==> rest[0] == '/',
        a != "api"@ || c != "envelope"@ && c != "store"@ && c != "integration"@,
    ensures
        outbound_path(s1 + a + s2 + b + s3 + (c + rest), new_id) == s1 + a + s2 + b + s3 + (c
            + rest),
{
    lemma_path_segments(s1, a, s2, b, s3, c + rest);
    lemma_segments_first(c, rest, '/');
    let parts = segments(s1 + a + s2 + b + s3 + (c + rest), '/');
    assert(parts[0] == a && parts[2] == c);
}

/// A path of fewer than three segments is sent on as it is.
pub proof fn law_short_path_kept(
    s1: Seq<char>,
    a: Seq<char>,
    s2: Seq<char>,
    b: Seq<char>,
    s3: Seq<char>,
    new_id: Seq<char>,
)
    requires
        is_slashes(s1) && is_slashes(s2) && is_slashes(s3),
        !a.contains('/') && !b.contains('/'),
        s2.len() > 0 || b.len() == 0 && s3.len() == 0,
    ensures
        outbound_path(s1 + a + s2 + b + s3, new_id) == s1 + a + s2 + b + s3,
{
    let none = Seq::<char>::empty();
    lemma_path_segments(s1, a, s2, b, s3, none);
    assert(s1 + a + s2 + b + s3 + none =~= s1 + a + s2 + b + s3);
    lemma_empty_segments();
}

proof fn lemma_empty_segments()
    ensures
        segments(Seq::empty(), '/').len() == 0,
{
    if segments(Seq::<char>::empty(), '/').len() > 0 {
        assert(Seq::<char>::empty().skip(0) =~= Seq::empty());
        lemma_segment_at(Seq::empty(), '/', 0);
    }
}

/// A header that carries a key is forwarded with the last of its values, in which the key is
/// replaced as in any text.
pub proof fn law_auth_header_forwarded(
    modify_envelope_header: bool,
    contents: Map<Seq<char>, Seq<Seq<u8>>>,
    name: Seq<char>,
    text: Seq<char>,
    public_key: Seq<char>,
)
    requires
        name == "authorization"@ || name == "x-sentry-auth"@,
        contents.contains_key(name) && contents[name].last() == encode_utf8(text),
        forall|i: int| 0 <= i < text.len() ==> ' ' <= #[trigger] text[i] <= '~' || text[i] == '\t',
    ensures
        ({
            let forwarded = outbound_headers(modify_envelope_header, contents, public_key);
            forwarded.contains_key(name) && forwarded[name] == seq![
                encode_utf8(with_key(text, public_key)),
            ]
        }),
{
    reveal_strlit("host");
    reveal_strlit("x-forwarded-for");
    reveal_strlit("content-length");
    reveal_strlit("content-encoding");
    reveal_strlit("authorization");
    reveal_strlit("x-sentry-auth");
    assert("x-forwarded-for"@.len() == 15 && "host"@.len() == 4);
    assert("content-length"@.len() == 14 && "content-encoding"@.len() == 16);
    assert("authorization"@.len() == 13 && "x-sentry-auth"@.len() == 13);
    lemma_visible_round_trip(text);
}

/// Whether a request can be built depends on its URI, and on nothing else where no header
/// carries a key.
pub proof fn law_buildable_without_keys(
    path: Seq<char>,
    query: Option<Seq<char>>,
    contents: Map<Seq<char>, Seq<Seq<u8>>>,
    outbound: DsnParts,
)
    requires
        !contents.contains_key("authorization"@),
        !contents.contains_key("x-sentry-auth"@),
    ensures
        is_buildable(path, query, contents, outbound) <==> uri_accepted(
            outbound.scheme,
            outbound.host,
            outbound_target(path, query, outbound),
        ),
{
}

/// Headers that carry a key do not stand in the way of a request, where they are made up of
/// visible characters and so is the outbound key.
pub proof fn law_buildable_with_keys(
    path: Seq<char>,
    query: Option<Seq<char>>,
    contents: Map<Seq<char>, Seq<Seq<u8>>>,
    outbound: DsnParts,
)
    requires
        uri_accepted(outbound.scheme, outbound.host, outbound_target(path, query, outbound)),
        forall|name: Seq<char>, i: int, j: int|
            (name == "authorization"@ || name == "x-sentry-auth"@) && contents.contains_key(name)
                && 0 <= i < contents[name].len() && 0 <= j < contents[name][i].len() ==> 32
                <= #[trigger] contents[name][i][j] <= 126,
        forall|i: int|
            0 <= i < outbound.public_key.len() ==> ' ' <= #[trigger] outbound.public_key[i] <= '~'
                && outbound.public_key[i] != '$',
    ensures
        is_buildable(path, query, contents, outbound),
{
    reveal_strlit("sentry_key=");
    let key = outbound.public_key;
    assert(!key.contains('$'));
    assert forall|name: Seq<char>, i: int|
        contents.contains_key(name) && 0 <= i < contents[name].len() implies is_rewritable(
        name,
        #[trigger] contents[name][i],
        key,
    ) by {
        if is_auth(name) {
            let value = contents[name][i];
            assert forall|j: int| 0 <= j < value.len() implies is_visible_byte(
                #[trigger] value[j],
            ) by {
                assert(32 <= contents[name][i][j] <= 126);
            }
            let text = visible_text(value);
            let new_text = with_key(text, key);
            lemma_replaced_chars(text, key);
            assert forall|j: int| 0 <= j < new_text.len() implies ' ' <= #[trigger] new_text[j]
                <= '~' || new_text[j] == '\t' by {
                if !key_marker().contains(new_text[j]) && !key.contains(new_text[j]) {
                    assert(text.contains(new_text[j]));
                    let k = choose|k: int| 0 <= k < text.len() && text[k] == new_text[j];
                    assert(32 <= contents[name][i][k] <= 126);
                }
            }
            lemma_visible_round_trip(new_text);
            let bytes = encode_utf8(new_text);
            assert forall|j: int| 0 <= j < bytes.len() implies is_value_byte(
                #[trigger] bytes[j],
            ) by {
                assert(is_visible_byte(bytes[j]));
            }
        }
    }
}

/// A header that carries a key and holds a byte that no text shows keeps a request from being
/// built.
pub proof fn law_unreadable_key_header(
    path: Seq<char>,
    query: Option<Seq<char>>,
    contents: Map<Seq<char>, Seq<Seq<u8>>>,
    outbound: DsnParts,
    name: Seq<char>,
    i: int,
    j: int,
)
    requires
        name == "authorization"@ || name == "x-sentry-auth"@,
        contents.contains_key(name) && 0 <= i < contents[name].len(),
        0 <= j < contents[name][i].len(),
        contents[name][i][j] < 32 && contents[name][i][j] != 9 || contents[name][i][j] >= 127,
    ensures
        !is_buildable(path, query, contents, outbound),
{
    assert(!is_visible_byte(contents[name][i][j]));
    assert(!is_rewritable(name, contents[name][i], outbound.public_key));
}

/// The bytes of the names of the encodings that are decoded.
proof fn lemma_encoding_names()
    ensures
        is_visible(seq![0x67u8, 0x7a, 0x69, 0x70]),
        visible_text(seq![0x67u8, 0x7a, 0x69, 0x70]) == "gzip"@,
        is_visible(seq![0x64u8, 0x65, 0x66, 0x6c, 0x61, 0x74, 0x65]),
        visible_text(seq![0x64u8, 0x65, 0x66, 0x6c, 0x61, 0x74, 0x65]) == "deflate"@,
        is_visible(seq![0x62u8, 0x72]),
        visible_text(seq![0x62u8, 0x72]) == "br"@,
        is_visible(seq![0x7au8, 0x73, 0x74, 0x64]),
        visible_text(seq![0x7au8, 0x73, 0x74, 0x64]) == "zstd"@,
        "gzip"@ != "deflate"@ && "gzip"@ != "br"@ && "gzip"@ != "zstd"@,
        "deflate"@ != "br"@ && "deflate"@ != "zstd"@ && "br"@ != "zstd"@,
{
    reveal_strlit("gzip");
    reveal_strlit("deflate");
    reveal_strlit("br");
    reveal_strlit("zstd");
    assert(visible_text(seq![0x67u8, 0x7a, 0x69, 0x70]) =~= "gzip"@);
    assert(visible_text(seq![0x64u8, 0x65, 0x66, 0x6c, 0x61, 0x74, 0x65]) =~= "deflate"@);
    assert(visible_text(seq![0x62u8, 0x72]) =~= "br"@);
    assert(visible_text(seq![0x7au8, 0x73, 0x74, 0x64]) =~= "zstd"@);
    assert("gzip"@[0] != "zstd"@[0]);
    assert("gzip"@.len() == 4 && "deflate"@.len() == 7 && "br"@.len() == 2);
}

/// The body to work with is what the decoder that the encoding header names gives, in every
/// byte, and there is none where that decoder fails. The header is compared byte for byte;
/// under any other one there is no body.
pub proof fn law_decoder_by_header(header: Seq<u8>, raw: Seq<u8>)
    ensures
        plain_body(Some(seq![0x67u8, 0x7a, 0x69, 0x70]), raw) == gzip_decoded(raw),
        plain_body(Some(seq![0x64u8, 0x65, 0x66, 0x6c, 0x61, 0x74, 0x65]), raw) == deflate_decoded(
            raw,
        ),
        plain_body(Some(seq![0x62u8, 0x72]), raw) == brotli_decoded(raw),
        plain_body(Some(seq![0x7au8, 0x73, 0x74, 0x64]), raw) == zstd_decoded(raw),
        header != seq![0x67u8, 0x7a, 0x69, 0x70] && header != seq![
            0x64u8,
            0x65,
            0x66,
            0x6c,
            0x61,
            0x74,
            0x65,
        ] && header != seq![0x62u8, 0x72] && header != seq![0x7au8, 0x73, 0x74, 0x64]
            ==> plain_body(Some(header), raw) is None,
        plain_body(None, raw) == Some(raw),
{
    lemma_encoding_names();
    if is_visible(header) {
        let text = visible_text(header);
        let gzip = seq![0x67u8, 0x7a, 0x69, 0x70];
        let deflate = seq![0x64u8, 0x65, 0x66, 0x6c, 0x61, 0x74, 0x65];
        let br = seq![0x62u8, 0x72];
        let zstd = seq![0x7au8, 0x73, 0x74, 0x64];
        lemma_visible_text_tells(header, gzip);
        lemma_visible_text_tells(header, deflate);
        lemma_visible_text_tells(header, br);
        lemma_visible_text_tells(header, zstd);
    }
}

/// Header values that spell the same text are the same.
proof fn lemma_visible_text_tells(a: Seq<u8>, b: Seq<u8>)
    ensures
        visible_text(a) == visible_text(b) ==> a == b,
{
    if visible_text(a) == visible_text(b) {
        assert(a.len() == visible_text(a).len() && b.len() == visible_text(b).len());
        assert forall|i: int| 0 <= i < a.len() implies a[i] == b[i] by {
            assert(visible_text(a)[i] == a[i] as char);
            assert(visible_text(b)[i] == b[i] as char);
        }
        assert(a =~= b);
    }
}

/// What a decoder gives goes by the name of the encoding, and no other name is decoded.
pub proof fn law_decoder_by_name(encoding: Seq<char>, body: Seq<u8>)
    ensures
        decoded_body("gzip"@, body) == Some(gzip_decoded(body)),
        decoded_body("deflate"@, body) == Some(deflate_decoded(body)),
        decoded_body("br"@, body) == Some(brotli_decoded(body)),
        decoded_body("zstd"@, body) == Some(zstd_decoded(body)),
        encoding != "gzip"@ && encoding != "deflate"@ && encoding != "br"@ && encoding != "zstd"@
            ==> decoded_body(encoding, body) is None,
{
    lemma_encoding_names();
}

/// A body is decoded by the first of its encoding headers, and only where envelope headers
/// are rewritten.
pub proof fn law_encoding_read(modify_envelope_header: bool, contents: Map<Seq<char>, Seq<Seq<u8>>>)
    ensures
        !modify_envelope_header ==> body_encoding(modify_envelope_header, contents) is None,
        !contents.contains_key("content-encoding"@) ==> body_encoding(
            modify_envelope_header,
            contents,
        ) is None,
        modify_envelope_header && contents.contains_key("content-encoding"@) ==> body_encoding(
            modify_envelope_header,
            contents,
        ) == Some(contents["content-encoding"@][0]),
{
}

/// Reading a body gives the body to work with wherever there is one, and otherwise tells
/// whether receiving or decoding it failed.
pub proof fn law_reading_told(encoding: Option<Seq<u8>>, raw: Seq<u8>)
    ensures
        read_outcome(encoding, None) == Err::<Seq<u8>, Seq<char>>("could not read request body"@),
        plain_body(encoding, raw) matches Some(body) ==> read_outcome(encoding, Some(raw)) == Ok::<
            Seq<u8>,
            Seq<char>,
        >(body),
        plain_body(encoding, raw) is None ==> read_outcome(encoding, Some(raw)) == Err::<
            Seq<u8>,
            Seq<char>,
        >("could not decode request body"@),
{
}

/// The item types that have a category, each with its own, and no others.
pub proof fn law_item_types(item_type: Seq<char>)
    ensures
        item_type == "event"@ ==> type_category(item_type) == Some(DataCategory::Errors),
        item_type == "transaction"@ ==> type_category(item_type) == Some(
            DataCategory::Transactions,
        ),
        item_type == "sessions"@ ==> type_category(item_type) == Some(DataCategory::Sessions),
        item_type == "client_report"@ ==> type_category(item_type) == Some(
            DataCategory::ClientReports,
        ),
        item_type == "replay_event"@ ==> type_category(item_type) == Some(DataCategory::Replays),
        item_type == "metric_buckets"@ ==> type_category(item_type) == Some(DataCategory::Metrics),
        item_type == "profile"@ ==> type_category(item_type) == Some(DataCategory::Profiling),
        item_type == "minidump"@ ==> type_category(item_type) == Some(DataCategory::Minidumps),
        item_type == "check_in"@ ==> type_category(item_type) == Some(DataCategory::CheckIn),
        type_category(item_type) is Some ==> item_type == "event"@ || item_type == "transaction"@
            || item_type == "sessions"@ || item_type == "client_report"@ || item_type
            == "replay_event"@ || item_type == "metric_buckets"@ || item_type == "profile"@
            || item_type == "minidump"@ || item_type == "check_in"@,
{
    reveal_strlit("event");
    reveal_strlit("transaction");
    reveal_strlit("sessions");
    reveal_strlit("client_report");
    reveal_strlit("replay_event");
    reveal_strlit("metric_buckets");
    reveal_strlit("profile");
    reveal_strlit("minidump");
    reveal_strlit("check_in");
    assert("event"@.len() == 5 && "transaction"@.len() == 11 && "sessions"@.len() == 8);
    assert("client_report"@.len() == 13 && "replay_event"@.len() == 12);
    assert("metric_buckets"@.len() == 14 && "profile"@.len() == 7);
    assert("minidump"@.len() == 8 && "check_in"@.len() == 8);
    assert("sessions"@[0] == 's' && "minidump"@[0] == 'm' && "check_in"@[0] == 'c');
}

/// What a path holds decides the category of a request, whatever its body: the endpoints
/// for minidumps, for stored events, for traces and for check-ins, in this order where it
/// holds more than one.
pub proof fn law_endpoint_categories(path: Seq<char>, body: Seq<u8>)
    ensures
        has_part(path, "/minidump"@) ==> request_category(path, body) == Some(
            DataCategory::Minidumps,
        ),
        !has_part(path, "/minidump"@) && has_part(path, "/store"@) ==> request_category(path, body)
            == Some(DataCategory::Errors),
        !has_part(path, "/minidump"@) && !has_part(path, "/store"@) && (has_part(
            path,
            "/integration/oltp/v1/traces"@,
        ) || exists|start: Seq<char>| path == #[trigger] (start + "/traces/"@))
            ==> request_category(path, body) == Some(DataCategory::Transactions),
        !has_part(path, "/minidump"@) && !has_part(path, "/store"@) && !has_part(
            path,
            "/integration/oltp/v1/traces"@,
        ) && !(exists|start: Seq<char>| path == #[trigger] (start + "/traces/"@)) && has_part(
            path,
            "/cron/"@,
        ) ==> request_category(path, body) == Some(DataCategory::CheckIn),
{
    lemma_path_parts(path);
}

/// What a path holds, as the search for it finds it.
proof fn lemma_path_parts(path: Seq<char>)
    ensures
        has_part(path, "/minidump"@) == occurs_in("/minidump"@, path),
        has_part(path, "/store"@) == occurs_in("/store"@, path),
        has_part(path, "/integration/oltp/v1/traces"@) == occurs_in(
            "/integration/oltp/v1/traces"@,
            path,
        ),
        has_part(path, "/cron/"@) == occurs_in("/cron/"@, path),
        has_part(path, "/envelope"@) == occurs_in("/envelope"@, path),
        (exists|start: Seq<char>| path == #[trigger] (start + "/traces/"@)) == is_suffix(
            "/traces/"@,
            path,
        ),
{
    lemma_has_part(path, "/minidump"@);
    lemma_has_part(path, "/store"@);
    lemma_has_part(path, "/integration/oltp/v1/traces"@);
    lemma_has_part(path, "/cron/"@);
    lemma_has_part(path, "/envelope"@);
    let end = "/traces/"@;
    if exists|start: Seq<char>| path == #[trigger] (start + end) {
        let start = choose|start: Seq<char>| path == #[trigger] (start + end);
        let at = path.len() - end.len();
        assert(path.subrange(at, at + end.len()) =~= end);
    }
    if is_suffix(end, path) {
        let at = path.len() - end.len();
        assert(path =~= path.take(at) + end) by {
            let found = path.subrange(at, at + end.len());
            assert forall|j: int| at <= j < path.len() implies path[j] == end[j - at] by {
                assert(found[j - at] == path[j]);
            }
        }
    }
}

/// Whether a path decides no category by itself.
pub open spec fn is_undecided(path: Seq<char>) -> bool {
    &&& !has_part(path, "/minidump"@)
    &&& !has_part(path, "/store"@)
    &&& !has_part(path, "/integration/oltp/v1/traces"@)
    &&& !has_part(path, "/cron/"@)
    &&& forall|start: Seq<char>| path != #[trigger] (start + "/traces/"@)
}

/// The category of an envelope is that of its first item: of the type that the item's header,
/// the second line, gives as a text. The lines before and behind that header do not matter.
pub proof fn law_first_item_decides(
    path: Seq<char>,
    first: Seq<u8>,
    line: Seq<char>,
    more: Option<Seq<u8>>,
)
    requires
        is_undecided(path),
        has_part(path, "/envelope"@),
        !first.contains(0x0au8),
        !line.contains('\n'),
    ensures
        ({
            let body = lines(first, Some(lines(encode_utf8(line), more)));
            let category = request_category(path, body);
            &&& json_parsed(line) is None ==> category is None
            &&& json_parsed(line) matches Some(header) ==> {
                &&& header.member("type"@) matches Some(Json::Text(item_type)) ==> category
                    == type_category(item_type)
                &&& !(header.member("type"@) matches Some(Json::Text(_))) ==> category is None
            }
        }),
{
    lemma_path_parts(path);
    let bytes = encode_utf8(line);
    let second = lines(bytes, more);
    let body = lines(first, Some(second));
    lemma_encoded_line(line);
    lemma_second_line(first, bytes, more);
    encode_utf8_valid_utf8(line);
    encode_utf8_decode_utf8(line);
}

/// The second line of a body stands between its first two line breaks.
proof fn lemma_second_line(first: Seq<u8>, second: Seq<u8>, more: Option<Seq<u8>>)
    requires
        !first.contains(0x0au8),
        !second.contains(0x0au8),
    ensures
        second_line(lines(first, Some(lines(second, more)))) == Some(second),
{
    let rest = lines(second, more);
    let body = lines(first, Some(rest));
    lemma_first_line(first, Some(rest));
    let from = first.len() as int + 1;
    let end = from + second.len();
    assert forall|j: int| from <= j < end implies body[j] != 0x0a by {
        assert(body[j] == second[j - from]);
        assert(second.contains(second[j - from]));
    }
    lemma_first_of_unique(body, 0x0au8, from, end);
    assert(body.subrange(from, end) =~= second);
}

/// An envelope of one line, or whose second line is no text, is of no known category; nor is
/// a request to any other endpoint.
pub proof fn law_category_unknown(
    path: Seq<char>,
    first: Seq<u8>,
    second: Seq<u8>,
    more: Option<Seq<u8>>,
    body: Seq<u8>,
)
    requires
        is_undecided(path),
        !first.contains(0x0au8),
        !second.contains(0x0au8),
        !valid_utf8(second),
    ensures
        request_category(path, first) is None,
        request_category(path, lines(first, Some(lines(second, more)))) is None,
        !has_part(path, "/envelope"@) ==> request_category(path, body) is None,
{
    lemma_path_parts(path);
    lemma_second_line(first, second, more);
    lemma_first_line(first, None);
}

/// A body that is text is logged as that text, with its length in bytes.
pub proof fn law_text_logged(text: Seq<char>, label: Seq<char>)
    requires
        encode_utf8(text).len() <= 16384,
    ensures
        body_log(encode_utf8(text), label) == label + " (utf8; len="@ + decimal(
            encode_utf8(text).len(),
        ) + "): "@ + text,
{
    encode_utf8_valid_utf8(text);
    encode_utf8_decode_utf8(text);
}

/// A body that is no text is logged in hexadecimal digits, and a long one by its beginning,
/// with the length of the whole.
pub proof fn law_body_logged(body: Seq<u8>, label: Seq<char>)
    ensures
        body.len() <= 16384 && !valid_utf8(body) ==> body_log(body, label) == label
            + " (binary hex; len="@ + decimal(body.len()) + "): "@ + "0x"@ + hex(body),
        body.len() > 16384 && valid_utf8(body.take(16384)) ==> body_log(body, label) == label
            + " (utf8, truncated; len="@ + decimal(body.len()) + "): "@ + decode_utf8(
            body.take(16384),
        ),
        body.len() > 16384 && !valid_utf8(body.take(16384)) ==> body_log(body, label) == label
            + " (binary hex, truncated; len="@ + decimal(body.len()) + "): "@ + "0x"@ + hex(
            body.take(16384),
        ),
{
}

/// The error of a body that cannot be decoded tells the reason: a header that cannot be read
/// as text, an encoding that is not decoded, or a decoder that failed.
pub proof fn law_failure_told(error: BodyError, text: Seq<char>, header: Seq<u8>, body: Seq<u8>)
    requires
        forall|i: int| 0 <= i < text.len() ==> ' ' <= #[trigger] text[i] <= '~' || text[i] == '\t',
    ensures
        is_failure(error, encode_utf8(text), body) && error is UnsupportedCodec ==> text != "gzip"@
            && text != "deflate"@ && text != "br"@ && text != "zstd"@,
        is_failure(error, encode_utf8(text), body) && error is CouldNotDecode ==> (text == "gzip"@
            && gzip_decoded(body) is None) || (text == "deflate"@ && deflate_decoded(body) is None)
            || (text == "br"@ && brotli_decoded(body) is None) || (text == "zstd"@ && zstd_decoded(
            body,
        ) is None),
        !(is_failure(error, encode_utf8(text), body) && error is InvalidHeader),
        (exists|i: int|
            0 <= i < header.len() && !(32 <= #[trigger] header[i] <= 126 || header[i] == 9))
            ==> is_failure(error, header, body) == (error is InvalidHeader),
{
    lemma_visible_round_trip(text);
    lemma_encoding_names();
    if exists|i: int|
        0 <= i < header.len() && !(32 <= #[trigger] header[i] <= 126 || header[i] == 9) {
        let i = choose|i: int|
            0 <= i < header.len() && !(32 <= #[trigger] header[i] <= 126 || header[i] == 9);
        assert(!is_visible_byte(header[i]));
    }
}

/// What is handed on of a body is the body in every byte, or the reason in every word.
pub proof fn law_body_handed_on(body: Vec<u8>, reason: String)
    ensures
        received_bytes(Some(body)) == Some(body@),
        received_bytes(None) is None,
        body_or_reason(Ok(body)) == Ok::<Seq<u8>, Seq<char>>(body@),
        body_or_reason(Err(reason)) == Err::<Seq<u8>, Seq<char>>(reason@),
{
}

} // verus!
