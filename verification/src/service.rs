//! How a request is answered, step by step: each function takes what has happened so far
//! and says what to do next.
use hyper::header::{HeaderName, HeaderValue};
use hyper::{HeaderMap, Uri};
use vstd::prelude::*;
use vstd::string::*;

use crate::config::{ConfigData, DataCategory};
use crate::dsn::{from_request, request_key, Dsn, DsnParts};
use crate::headers::{
    copy_bytes, copy_name, header_contents, header_list, header_pairs, is_visible, is_visible_byte,
    listed,
    value_text, visible_text, MAX_HEADER_NAMES,
};
use crate::request::{
    behind_line, body_encoding, body_or_reason, can_build, detect_data_category, is_buildable,
    make_outbound_request, outbound_headers, outbound_target, plain_body, read_outcome,
    replace_envelope_dsn, request_category, rewritten_envelope,
};
use crate::state::{target_list, AppState, OutboundTarget, TargetParts};
use crate::text::{copy_range, same_text};
use crate::uri::{absolute_uri, law_uri_printed, uri_text, RequestUri};

verus! {

/// How many seconds an outbound request may take.
pub const OUTBOUND_TIMEOUT_SECS: u64 = 30;

/// An answer to an inbound request.
#[derive(Debug)]
pub struct ProxyResponse {
    pub status: u16,
    pub headers: Vec<(String, String)>,
    pub body: Vec<u8>,
}

/// The status, headers and body of an answer.
#[verifier::ext_equal]
pub struct ResponseParts {
    pub status: u16,
    pub headers: Seq<(Seq<char>, Seq<char>)>,
    pub body: Seq<u8>,
}

impl View for ProxyResponse {
    type V = ResponseParts;

    open spec fn view(&self) -> ResponseParts {
        ResponseParts {
            status: self.status,
            headers: Seq::new(
                self.headers@.len(),
                |i: int| (self.headers@[i].0@, self.headers@[i].1@),
            ),
            body: self.body@,
        }
    }
}

/// An answer without headers, whose body is a text.
pub open spec fn plain_answer(status: u16, text: Seq<char>) -> ResponseParts {
    ResponseParts { status, headers: Seq::empty(), body: vstd::utf8::encode_utf8(text) }
}

/// The answer to a health check.
pub open spec fn health_answer() -> ResponseParts {
    plain_answer(200, "ok"@)
}

/// The answer to a request that cannot be attributed to a configured key, or whose body
/// cannot be read.
pub open spec fn bad_request_answer() -> ResponseParts {
    plain_answer(400, "No DSN found"@)
}

/// The answer to a request with a method other than POST.
pub open spec fn method_answer() -> ResponseParts {
    plain_answer(405, "Method not allowed"@)
}

/// The answer to a mirrored request: a body of an outbound response, with the headers that
/// browsers need.
pub open spec fn mirrored_answer(body: Seq<u8>) -> ResponseParts {
    ResponseParts {
        status: 200,
        headers: seq![
            ("Access-Control-Allow-Origin"@, "*"@),
            ("Access-Control-Expose-Headers"@, "x-sentry-error,x-sentry-rate-limit,retry-after"@),
            ("Cross-Origin-Resource-Policy"@, "cross-origin"@),
        ],
        body,
    }
}

fn plain_response(status: u16, text: &str) -> (response: ProxyResponse)
    ensures
        response@ == plain_answer(status, text@),
{
    let bytes = text.as_bytes();
    let body = copy_range(bytes, 0, bytes.len());
    assert(body@ =~= bytes@);
    let response = ProxyResponse { status, headers: Vec::new(), body };
    assert(response@ =~= plain_answer(status, text@));
    response
}

/// Answers a health check.
pub fn handle_health() -> (response: ProxyResponse)
    ensures
        response@ == health_answer(),
{
    plain_response(200, "ok")
}

/// Answers a request that cannot be attributed to a configured key.
pub fn bad_request_response() -> (response: ProxyResponse)
    ensures
        response@ == bad_request_answer(),
{
    plain_response(400, "No DSN found")
}

/// Answers a mirrored request.
pub fn mirrored_response(body: Vec<u8>) -> (response: ProxyResponse)
    ensures
        response@ == mirrored_answer(body@),
{
    let mut headers: Vec<(String, String)> = Vec::new();
    headers.push(("Access-Control-Allow-Origin".to_owned(), "*".to_owned()));
    headers.push(
        (
            "Access-Control-Expose-Headers".to_owned(),
            "x-sentry-error,x-sentry-rate-limit,retry-after".to_owned(),
        ),
    );
    headers.push(("Cross-Origin-Resource-Policy".to_owned(), "cross-origin".to_owned()));
    let response = ProxyResponse { status: 200, headers, body };
    assert(response@ =~= mirrored_answer(body@));
    response
}

/// Why a request is not mirrored.
#[derive(Debug)]
pub enum Refusal {
    /// Its method is not POST.
    Method,
    /// It claims no key.
    NoKey,
    /// It claims a key that is not configured.
    UnknownKey { public_key: String },
}

/// The model of a refusal.
#[verifier::ext_equal]
pub enum RefusalParts {
    Method,
    NoKey,
    UnknownKey(Seq<char>),
}

impl View for Refusal {
    type V = RefusalParts;

    open spec fn view(&self) -> RefusalParts {
        match self {
            Refusal::Method => RefusalParts::Method,
            Refusal::NoKey => RefusalParts::NoKey,
            Refusal::UnknownKey { public_key } => RefusalParts::UnknownKey(public_key@),
        }
    }
}

/// The answer to a request that is refused.
pub open spec fn refusal_answer(refusal: RefusalParts) -> ResponseParts {
    match refusal {
        RefusalParts::Method => method_answer(),
        RefusalParts::NoKey | RefusalParts::UnknownKey(_) => bad_request_answer(),
    }
}

/// Answers a request that is refused.
pub fn refusal_response(refusal: &Refusal) -> (response: ProxyResponse)
    ensures
        response@ == refusal_answer(refusal@),
{
    match refusal {
        Refusal::Method => plain_response(405, "Method not allowed"),
        Refusal::NoKey | Refusal::UnknownKey { .. } => bad_request_response(),
    }
}

/// What to do with a request whose method, target and headers are known.
#[derive(Debug)]
pub enum Step {
    /// Answer it as a health check.
    Health(ProxyResponse),
    /// Answer it as one that is not mirrored. In verbose mode, a body that no key goes with
    /// is read for the log first.
    Refuse { refusal: Refusal, response: ProxyResponse, log_body: bool },
    /// Read its body, and forward it as one that claims a configured key.
    ReadBody { public_key: String },
}

/// The model of a step.
#[verifier::ext_equal]
pub enum StepParts {
    Health(ResponseParts),
    Refuse { refusal: RefusalParts, response: ResponseParts, log_body: bool },
    ReadBody(Seq<char>),
}

impl View for Step {
    type V = StepParts;

    open spec fn view(&self) -> StepParts {
        match self {
            Step::Health(response) => StepParts::Health(response@),
            Step::Refuse { refusal, response, log_body } => StepParts::Refuse {
                refusal: refusal@,
                response: response@,
                log_body: *log_body,
            },
            Step::ReadBody { public_key } => StepParts::ReadBody(public_key@),
        }
    }
}

impl StepParts {
    /// The step without the reading of a body for the log.
    pub open spec fn without_log(self) -> StepParts {
        match self {
            StepParts::Refuse { refusal, response, .. } => StepParts::Refuse {
                refusal,
                response,
                log_body: false,
            },
            _ => self,
        }
    }
}

/// The step that refuses a request.
pub open spec fn refused(verbose: bool, refusal: RefusalParts) -> StepParts {
    StepParts::Refuse {
        refusal,
        response: refusal_answer(refusal),
        log_body: verbose && refusal is NoKey,
    }
}

/// The first step for a request to be mirrored: only a POST request that claims a
/// configured key has its body read to be forwarded.
pub open spec fn proxy_step(
    verbose: bool,
    keys: Map<Seq<char>, Seq<TargetParts>>,
    method: Seq<char>,
    claimed: Option<Seq<char>>,
) -> StepParts {
    if method != "POST"@ {
        refused(verbose, RefusalParts::Method)
    } else {
        match claimed {
            None => refused(verbose, RefusalParts::NoKey),
            Some(key) => if keys.contains_key(key) {
                StepParts::ReadBody(key)
            } else {
                refused(verbose, RefusalParts::UnknownKey(key))
            },
        }
    }
}

fn refuse(verbose: bool, refusal: Refusal) -> (step: Step)
    ensures
        step@ == refused(verbose, refusal@),
{
    let response = refusal_response(&refusal);
    let log_body = match refusal {
        Refusal::NoKey => verbose,
        _ => false,
    };
    Step::Refuse { refusal, response, log_body }
}

/// Whether a request is a health check.
pub open spec fn is_health_check(method: Seq<char>, path: Seq<char>) -> bool {
    method == "GET"@ && path == "/health"@
}

/// The first step for any request.
pub open spec fn request_step(
    verbose: bool,
    keys: Map<Seq<char>, Seq<TargetParts>>,
    method: Seq<char>,
    path: Seq<char>,
    claimed: Option<Seq<char>>,
) -> StepParts {
    if is_health_check(method, path) {
        StepParts::Health(health_answer())
    } else {
        proxy_step(verbose, keys, method, claimed)
    }
}

/// Decides what to do with a request to be mirrored.
pub fn handle_proxy(
    state: &AppState,
    method: &str,
    uri: &RequestUri,
    headers: &HeaderMap,
) -> (step: Step)
    ensures
        step@ == proxy_step(
            state.config.verbose,
            state.keymap@,
            method@,
            request_key(uri.query_text(), header_contents(*headers)),
        ),
{
    if !same_text(method, "POST") {
        return refuse(state.config.verbose, Refusal::Method);
    }
    match from_request(uri, headers) {
        None => refuse(state.config.verbose, Refusal::NoKey),
        Some(public_key) => if state.keymap.get(public_key.as_str()).is_some() {
            Step::ReadBody { public_key }
        } else {
            refuse(state.config.verbose, Refusal::UnknownKey { public_key })
        },
    }
}

/// Decides what to do with a request.
pub fn handle_request(
    state: &AppState,
    method: &str,
    uri: &RequestUri,
    headers: &HeaderMap,
) -> (step: Step)
    ensures
        step@ == request_step(
            state.config.verbose,
            state.keymap@,
            method@,
            uri.path@,
            request_key(uri.query_text(), header_contents(*headers)),
        ),
{
    if same_text(method, "GET") && same_text(uri.path.as_str(), "/health") {
        Step::Health(handle_health())
    } else {
        handle_proxy(state, method, uri, headers)
    }
}

/// A header as a line of the log.
pub open spec fn header_line(name: Seq<char>, value: Seq<u8>) -> Seq<char> {
    " "@ + name + ": "@ + (if is_visible(value) {
        visible_text(value)
    } else {
        "<invalid>"@
    }) + "\n"@
}

/// Headers as lines of the log.
pub open spec fn header_lines(pairs: Seq<(Seq<char>, Seq<u8>)>) -> Seq<char>
    decreases pairs.len(),
{
    if pairs.len() == 0 {
        Seq::empty()
    } else {
        header_lines(pairs.drop_last()) + header_line(pairs.last().0, pairs.last().1)
    }
}

/// What the log shows of headers.
pub open spec fn headers_log(pairs: Seq<(Seq<char>, Seq<u8>)>) -> Seq<char> {
    if pairs.len() == 0 {
        "Invalid headers"@
    } else {
        header_lines(pairs)
    }
}

/// Renders headers for the log, one line each.
pub fn format_pairs(pairs: &Vec<(HeaderName, HeaderValue)>) -> (text: String)
    ensures
        text@ == headers_log(listed(pairs@)),
{
    if pairs.len() == 0 {
        return "Invalid headers".to_owned();
    }
    let ghost list = listed(pairs@);
    let mut text = "".to_owned();
    proof {
        reveal_strlit("");
        assert(text@ =~= Seq::empty());
    }
    let mut i: usize = 0;
    while i < pairs.len()
        invariant
            i <= pairs@.len(),
            list == listed(pairs@),
            text@ == header_lines(list.take(i as int)),
        decreases pairs@.len() - i,
    {
        let ghost before = text@;
        text.append(" ");
        text.append(copy_name(&pairs[i].0).as_str());
        text.append(": ");
        match value_text(copy_bytes(&pairs[i].1).as_slice()) {
            Some(value) => text.append(value.as_str()),
            None => text.append("<invalid>"),
        }
        text.append("\n");
        assert(text@ =~= before + header_line(list[i as int].0, list[i as int].1));
        i += 1;
        assert(list.take(i as int).drop_last() =~= list.take(i - 1));
    }
    assert(list.take(i as int) =~= list);
    text
}

/// Renders the headers of a request for the log, in the order in which the header map holds
/// them.
pub fn format_headers(headers: &HeaderMap) -> (text: String)
    ensures
        text@ == headers_log(header_list(*headers)),
{
    let pairs = header_pairs(headers);
    format_pairs(&pairs)
}

/// Whether an outbound destination takes data of a category. Without a list of categories
/// it takes everything, and data of an unknown category goes everywhere.
pub open spec fn is_wanted(target: TargetParts, category: Option<DataCategory>) -> bool {
    match (target.categories, category) {
        (Some(list), Some(detected)) => list.contains(detected),
        _ => true,
    }
}

/// The destinations that take data of a category, in their order.
pub open spec fn wanted(targets: Seq<TargetParts>, category: Option<DataCategory>) -> Seq<
    TargetParts,
> {
    targets.filter(|target: TargetParts| is_wanted(target, category))
}

fn lists(categories: &Vec<DataCategory>, category: DataCategory) -> (found: bool)
    ensures
        found == categories@.contains(category),
{
    let mut i: usize = 0;
    while i < categories.len()
        invariant
            i <= categories@.len(),
            forall|j: int| 0 <= j < i ==> categories@[j] != category,
        decreases categories@.len() - i,
    {
        if categories[i] == category {
            return true;
        }
        i += 1;
    }
    false
}

/// Tests whether an outbound destination takes data of a category.
pub fn takes(target: &OutboundTarget, category: Option<DataCategory>) -> (result: bool)
    ensures
        result == is_wanted(target@, category),
{
    match (&target.categories, category) {
        (Some(list), Some(detected)) => lists(list, detected),
        _ => true,
    }
}

/// A request to be sent to an outbound destination.
pub struct OutboundCall {
    pub host: String,
    pub method: String,
    pub uri: Uri,
    pub headers: HeaderMap,
    pub body: Vec<u8>,
}

/// The model of a request to be sent.
#[verifier::ext_equal]
pub struct CallParts {
    pub host: Seq<char>,
    pub method: Seq<char>,
    pub uri: Seq<char>,
    pub headers: Map<Seq<char>, Seq<Seq<u8>>>,
    pub body: Seq<u8>,
}

impl View for OutboundCall {
    type V = CallParts;

    open spec fn view(&self) -> CallParts {
        CallParts {
            host: self.host@,
            method: self.method@,
            uri: uri_text(self.uri),
            headers: header_contents(self.headers),
            body: self.body@,
        }
    }
}

/// The models of requests to be sent.
pub open spec fn call_list(calls: Seq<OutboundCall>) -> Seq<CallParts> {
    Seq::new(calls.len(), |i: int| calls[i]@)
}

/// What is known of an inbound request once its body is read.
#[verifier::ext_equal]
pub struct InboundParts {
    pub path: Seq<char>,
    pub query: Option<Seq<char>>,
    pub headers: Map<Seq<char>, Seq<Seq<u8>>>,
    pub body: Seq<u8>,
}

/// The body for an outbound DSN: the envelope header rewritten, where that is switched on
/// and there is something to rewrite, and else the body as it came.
pub open spec fn outbound_body(
    modify_envelope_header: bool,
    body: Seq<u8>,
    outbound: DsnParts,
) -> Seq<u8> {
    if modify_envelope_header {
        match rewritten_envelope(body, outbound) {
            Some(new_body) => new_body,
            None => body,
        }
    } else {
        body
    }
}

/// The request to an outbound DSN that mirrors an inbound one.
pub open spec fn call_for(
    modify_envelope_header: bool,
    inbound: InboundParts,
    outbound: DsnParts,
) -> CallParts {
    CallParts {
        host: outbound.host,
        method: "POST"@,
        uri: absolute_uri(
            outbound.scheme,
            outbound.host,
            outbound_target(inbound.path, inbound.query, outbound),
        ),
        headers: outbound_headers(modify_envelope_header, inbound.headers, outbound.public_key),
        body: outbound_body(modify_envelope_header, inbound.body, outbound),
    }
}

/// Whether the requests to all the destinations can be built.
pub open spec fn all_buildable(inbound: InboundParts, targets: Seq<TargetParts>) -> bool {
    forall|i: int|
        0 <= i < targets.len() ==> is_buildable(
            inbound.path,
            inbound.query,
            inbound.headers,
            (#[trigger] targets[i]).dsn,
        )
}

/// The requests that mirror an inbound one to destinations.
pub open spec fn calls_for(
    modify_envelope_header: bool,
    inbound: InboundParts,
    targets: Seq<TargetParts>,
) -> Seq<CallParts> {
    targets.map_values(
        |target: TargetParts| call_for(modify_envelope_header, inbound, target.dsn),
    )
}

/// Makes the body for an outbound DSN.
pub fn make_body(config: &ConfigData, body: &[u8], outbound: &Dsn) -> (new_body: Vec<u8>)
    ensures
        new_body@ == outbound_body(config.modify_envelope_header, body@, outbound@),
        behind_line(new_body@) == behind_line(body@),
{
    if config.modify_envelope_header {
        if let Some(new_body) = replace_envelope_dsn(body, outbound) {
            return new_body;
        }
    }
    let copy = copy_range(body, 0, body.len());
    assert(copy@ =~= body@);
    copy
}

/// Makes the requests that mirror an inbound one to every destination that takes its data,
/// or returns `None` where one of them cannot be built. That includes headers that a header
/// map has no room for, which it always has for up to `MAX_HEADER_NAMES` names.
pub fn make_calls(
    config: &ConfigData,
    uri: &RequestUri,
    headers: &HeaderMap,
    body: &[u8],
    targets: &Vec<OutboundTarget>,
    category: Option<DataCategory>,
) -> (calls: Option<Vec<OutboundCall>>)
    ensures
        ({
            let inbound = InboundParts {
                path: uri.path@,
                query: uri.query_text(),
                headers: header_contents(*headers),
                body: body@,
            };
            let chosen = wanted(target_list(targets@), category);
            &&& calls is Some ==> all_buildable(inbound, chosen)
            &&& all_buildable(inbound, chosen) && inbound.headers.len() <= MAX_HEADER_NAMES
                ==> calls is Some
            &&& calls matches Some(list) ==> call_list(list@) == calls_for(
                config.modify_envelope_header,
                inbound,
                chosen,
            )
            &&& calls matches Some(list) ==> forall|i: int|
                0 <= i < list@.len() ==> behind_line((#[trigger] list@[i]).body@) == behind_line(
                    body@,
                )
        }),
{
    let ghost inbound = InboundParts {
        path: uri.path@,
        query: uri.query_text(),
        headers: header_contents(*headers),
        body: body@,
    };
    let ghost all = target_list(targets@);
    let mut calls: Vec<OutboundCall> = Vec::new();
    let mut i: usize = 0;
    proof {
        assert(all.take(0) =~= Seq::empty());
        lemma_wanted_empty(category);
    }
    while i < targets.len()
        invariant
            i <= targets@.len(),
            all == target_list(targets@),
            inbound == (InboundParts {
                path: uri.path@,
                query: uri.query_text(),
                headers: header_contents(*headers),
                body: body@,
            }),
            all_buildable(inbound, wanted(all.take(i as int), category)),
            forall|j: int|
                0 <= j < calls@.len() ==> behind_line((#[trigger] calls@[j]).body@) == behind_line(
                    body@,
                ),
            call_list(calls@) == calls_for(
                config.modify_envelope_header,
                inbound,
                wanted(all.take(i as int), category),
            ),
        decreases targets@.len() - i,
    {
        let ghost before = wanted(all.take(i as int), category);
        let ghost target = all[i as int];
        proof {
            lemma_wanted_step(all, i as int, category);
            assert(target == targets@[i as int]@);
        }
        if takes(&targets[i], category) {
            let outbound = &targets[i].dsn;
            if !can_build(uri, headers, outbound) {
                proof {
                    lemma_wanted_kept(all, i as int, category);
                    assert(wanted(all, category).contains(target));
                }
                return None;
            }
            let request = match make_outbound_request(config, uri, headers, outbound) {
                Some(request) => request,
                None => return None,
            };
            let ghost earlier = calls@;
            calls.push(
                OutboundCall {
                    host: outbound.host.clone(),
                    method: request.method,
                    uri: request.uri,
                    headers: request.headers,
                    body: make_body(config, body, outbound),
                },
            );
            proof {
                assert(calls@.last()@ == call_for(
                    config.modify_envelope_header,
                    inbound,
                    target.dsn,
                ));
                assert(call_list(calls@) =~= call_list(earlier).push(calls@.last()@));
                assert(calls_for(config.modify_envelope_header, inbound, before.push(target))
                    =~= calls_for(config.modify_envelope_header, inbound, before).push(
                    call_for(config.modify_envelope_header, inbound, target.dsn),
                ));
            }
        }
        i += 1;
    }
    assert(all.take(i as int) =~= all);
    Some(calls)
}

/// A destination that takes the data is among those that do.
proof fn lemma_wanted_kept(targets: Seq<TargetParts>, i: int, category: Option<DataCategory>)
    requires
        0 <= i < targets.len(),
        is_wanted(targets[i], category),
    ensures
        wanted(targets, category).contains(targets[i]),
{
    law_category_filter(targets, category);
    assert(targets.contains(targets[i]));
}

proof fn lemma_wanted_empty(category: Option<DataCategory>)
    ensures
        wanted(Seq::empty(), category) == Seq::<TargetParts>::empty(),
{
    reveal(Seq::filter);
}

proof fn lemma_wanted_step(targets: Seq<TargetParts>, i: int, category: Option<DataCategory>)
    requires
        0 <= i < targets.len(),
    ensures
        wanted(targets.take(i + 1), category) == if is_wanted(targets[i], category) {
            wanted(targets.take(i), category).push(targets[i])
        } else {
            wanted(targets.take(i), category)
        },
{
    reveal(Seq::filter);
    assert(targets.take(i + 1).drop_last() =~= targets.take(i));
}

/// What to do with a request once its body is read.
pub enum Forward {
    /// Answer it as a bad request, for this reason.
    Refuse { reason: String, response: ProxyResponse },
    /// Send these requests at the same time, and answer with the first response.
    Send { calls: Vec<OutboundCall>, category: Option<DataCategory> },
    /// A request to one of the destinations cannot be built.
    Unbuildable,
}

/// The model of what to do with a request once its body is read.
#[verifier::ext_equal]
pub enum ForwardParts {
    Refuse { reason: Seq<char>, response: ResponseParts },
    Send { calls: Seq<CallParts>, category: Option<DataCategory> },
    Unbuildable,
}

impl View for Forward {
    type V = ForwardParts;

    open spec fn view(&self) -> ForwardParts {
        match self {
            Forward::Refuse { reason, response } => ForwardParts::Refuse {
                reason: reason@,
                response: response@,
            },
            Forward::Send { calls, category } => ForwardParts::Send {
                calls: call_list(calls@),
                category: *category,
            },
            Forward::Unbuildable => ForwardParts::Unbuildable,
        }
    }
}

/// What to do with a request whose body is read and decoded, for the destinations of its
/// key.
pub open spec fn mirroring(
    modify_envelope_header: bool,
    inbound: InboundParts,
    targets: Seq<TargetParts>,
) -> ForwardParts {
    let category = request_category(inbound.path, inbound.body);
    let chosen = wanted(targets, category);
    if all_buildable(inbound, chosen) {
        ForwardParts::Send { calls: calls_for(modify_envelope_header, inbound, chosen), category }
    } else {
        ForwardParts::Unbuildable
    }
}

/// What to do with a request once its body is read, or reading it failed.
pub open spec fn forwarding(
    modify_envelope_header: bool,
    keys: Map<Seq<char>, Seq<TargetParts>>,
    public_key: Seq<char>,
    path: Seq<char>,
    query: Option<Seq<char>>,
    headers: Map<Seq<char>, Seq<Seq<u8>>>,
    body: Result<Seq<u8>, Seq<char>>,
) -> ForwardParts {
    if !keys.contains_key(public_key) {
        ForwardParts::Refuse { reason: "unknown key"@, response: bad_request_answer() }
    } else {
        match body {
            Err(reason) => ForwardParts::Refuse { reason, response: bad_request_answer() },
            Ok(body) => mirroring(
                modify_envelope_header,
                InboundParts { path, query, headers, body },
                keys[public_key],
            ),
        }
    }
}

/// Decides what to do with a request that claims a public key, once its body is read: `body`
/// is what reading and decoding it gave. Headers that an outbound header map has no room
/// for make it unbuildable too; there is always room for up to `MAX_HEADER_NAMES` names.
pub fn forward(
    state: &AppState,
    public_key: &str,
    uri: &RequestUri,
    headers: &HeaderMap,
    body: Result<Vec<u8>, String>,
) -> (next: Forward)
    ensures
        ({
            let expected = forwarding(
                state.config.modify_envelope_header,
                state.keymap@,
                public_key@,
                uri.path@,
                uri.query_text(),
                header_contents(*headers),
                body_or_reason(body),
            );
            ||| next@ == expected
            ||| expected is Send && next@ is Unbuildable && header_contents(*headers).len()
                > MAX_HEADER_NAMES
        }),
{
    let targets = match state.keymap.get(public_key) {
        Some(targets) => targets,
        None => return Forward::Refuse {
            reason: "unknown key".to_owned(),
            response: bad_request_response(),
        },
    };
    let body = match body {
        Ok(body) => body,
        Err(reason) => return Forward::Refuse { reason, response: bad_request_response() },
    };
    let category = detect_data_category(uri, body.as_slice());
    match make_calls(&state.config, uri, headers, body.as_slice(), targets, category) {
        Some(calls) => Forward::Send { calls, category },
        None => Forward::Unbuildable,
    }
}

impl AppState {
    /// The first step for a request.
    pub open spec fn step_for(
        self,
        method: Seq<char>,
        uri: RequestUri,
        headers: Map<Seq<char>, Seq<Seq<u8>>>,
    ) -> StepParts {
        request_step(
            self.config.verbose,
            self.keymap@,
            method,
            uri.path@,
            request_key(uri.query_text(), headers),
        )
    }

    /// What to do with a request once its body is received, or receiving it failed.
    pub open spec fn forwarding_for(
        self,
        public_key: Seq<char>,
        uri: RequestUri,
        headers: Map<Seq<char>, Seq<Seq<u8>>>,
        read: Option<Seq<u8>>,
    ) -> ForwardParts {
        forwarding(
            self.config.modify_envelope_header,
            self.keymap@,
            public_key,
            uri.path@,
            uri.query_text(),
            headers,
            read_outcome(body_encoding(self.config.modify_envelope_header, headers), read),
        )
    }
}

/// What became of an outbound request.
#[derive(Debug)]
pub enum Outcome {
    /// A response came, with this body.
    Answered(Vec<u8>),
    /// A response came, but its body could not be read.
    Unreadable,
    /// The request failed.
    Failed,
    /// No response came in time.
    TimedOut,
}

/// What to do while outbound requests are under way.
#[derive(Debug)]
pub enum RaceStep {
    /// Wait for the next outcome.
    Wait,
    /// Give up the requests that are still under way, and answer.
    Respond(ProxyResponse),
}

/// The answer that an outcome settles, if it does; `None` stands for the end, where no
/// request is under way any more.
pub open spec fn settled(outcome: Option<Outcome>) -> Option<ResponseParts> {
    match outcome {
        Some(Outcome::Answered(body)) => Some(mirrored_answer(body@)),
        Some(_) => None,
        None => Some(mirrored_answer(Seq::empty())),
    }
}

/// Decides what to do after an outcome: the first body that can be read is the answer, and
/// an empty one where there is none in the end.
pub fn on_outcome(outcome: Option<Outcome>) -> (step: RaceStep)
    ensures
        match settled(outcome) {
            Some(answer) => step matches RaceStep::Respond(response) && response@ == answer,
            None => step is Wait,
        },
{
    match outcome {
        Some(Outcome::Answered(body)) => RaceStep::Respond(mirrored_response(body)),
        Some(_) => RaceStep::Wait,
        None => {
            let body: Vec<u8> = Vec::new();
            RaceStep::Respond(mirrored_response(body))
        },
    }
}

/// The answer that a run of outcomes settles, one after the other, with the end of all
/// outbound requests behind the last one.
pub open spec fn race(outcomes: Seq<Outcome>) -> ResponseParts
    decreases outcomes.len(),
{
    if outcomes.len() == 0 {
        settled(None)->0
    } else {
        match settled(Some(outcomes[0])) {
            Some(answer) => answer,
            None => race(outcomes.drop_first()),
        }
    }
}

/// Outbound requests do not depend on each other: whichever of them fail, come too late or
/// cannot be read, before or behind the others, the answer is the one that the rest settles.
pub proof fn law_failures_change_nothing(before: Seq<Outcome>, failure: Outcome, behind: Seq<Outcome>)
    requires
        !(failure is Answered),
    ensures
        race(before + seq![failure] + behind) == race(before + behind),
    decreases before.len(),
{
    let with = before + seq![failure] + behind;
    let without = before + behind;
    if before.len() == 0 {
        assert(with.drop_first() =~= without);
    } else {
        law_failures_change_nothing(before.drop_first(), failure, behind);
        assert(with.drop_first() =~= before.drop_first() + seq![failure] + behind);
        assert(without.drop_first() =~= before.drop_first() + behind);
    }
}

/// The first response that can be read is the answer, whatever comes behind it.
pub proof fn law_first_response_answers(before: Seq<Outcome>, body: Vec<u8>, behind: Seq<Outcome>)
    requires
        forall|i: int| 0 <= i < before.len() ==> !((#[trigger] before[i]) is Answered),
    ensures
        race(before + seq![Outcome::Answered(body)] + behind) == mirrored_answer(body@),
    decreases before.len(),
{
    let all = before + seq![Outcome::Answered(body)] + behind;
    if before.len() > 0 {
        assert(all[0] == before[0]);
        law_first_response_answers(before.drop_first(), body, behind);
        assert(all.drop_first() =~= before.drop_first() + seq![Outcome::Answered(body)] + behind);
    }
}

/// Where no response can be read, the answer is empty and no failure.
pub proof fn law_no_response_is_empty(outcomes: Seq<Outcome>)
    requires
        forall|i: int| 0 <= i < outcomes.len() ==> !((#[trigger] outcomes[i]) is Answered),
    ensures
        race(outcomes) == mirrored_answer(Seq::empty()),
    decreases outcomes.len(),
{
    if outcomes.len() > 0 {
        assert(!(outcomes[0] is Answered));
        law_no_response_is_empty(outcomes.drop_first());
    }
}

/// Only a POST request that claims a configured key is mirrored: any other method is
/// answered as not allowed, unless it is a health check, and a POST request without a
/// configured key is answered as a bad request.
pub proof fn law_only_configured_keys_mirrored(
    verbose: bool,
    keys: Map<Seq<char>, Seq<TargetParts>>,
    method: Seq<char>,
    path: Seq<char>,
    claimed: Option<Seq<char>>,
)
    ensures
        ({
            let step = request_step(verbose, keys, method, path, claimed);
            let configured = claimed is Some && keys.contains_key(claimed->0);
            let health = method == "GET"@ && path == "/health"@;
            &&& step is ReadBody <==> method == "POST"@ && configured
            &&& step is ReadBody ==> step == StepParts::ReadBody(claimed->0)
            &&& step is Health <==> health
            &&& step matches StepParts::Health(response) ==> response == (ResponseParts {
                status: 200,
                headers: Seq::empty(),
                body: vstd::utf8::encode_utf8("ok"@),
            })
            &&& step matches StepParts::Refuse { response, refusal, log_body } ==> if method
                != "POST"@ {
                &&& refusal is Method && !log_body
                &&& response == (ResponseParts {
                    status: 405,
                    headers: Seq::empty(),
                    body: vstd::utf8::encode_utf8("Method not allowed"@),
                })
            } else {
                &&& refusal == (match claimed {
                    None => RefusalParts::NoKey,
                    Some(key) => RefusalParts::UnknownKey(key),
                })
                &&& log_body == (verbose && claimed is None)
                &&& response == (ResponseParts {
                    status: 400,
                    headers: Seq::empty(),
                    body: vstd::utf8::encode_utf8("No DSN found"@),
                })
            }
        }),
{
    reveal_strlit("GET");
    reveal_strlit("POST");
    assert("GET"@.len() != "POST"@.len());
}

/// Verbose mode only adds to the log: whatever the request, the same step is taken, with the
/// same answer or key, but that a body which no key goes with is read for the log. What is
/// read of a body, and what is forwarded, does not depend on the mode at all.
pub proof fn law_verbose_only_logs(
    keys: Map<Seq<char>, Seq<TargetParts>>,
    method: Seq<char>,
    path: Seq<char>,
    claimed: Option<Seq<char>>,
)
    ensures
        ({
            let quiet = request_step(false, keys, method, path, claimed);
            let verbose = request_step(true, keys, method, path, claimed);
            &&& quiet.without_log() == verbose.without_log()
            &&& quiet == quiet.without_log()
            &&& verbose != quiet ==> (verbose matches StepParts::Refuse { refusal, .. } && refusal
                is NoKey)
        }),
{
}

/// Two mirrors whose settings differ in verbose mode alone do the same with every request:
/// both steps, with the body read in between, agree in everything but the log.
pub proof fn law_verbose_states_agree(
    quiet: AppState,
    verbose: AppState,
    method: Seq<char>,
    uri: RequestUri,
    headers: Map<Seq<char>, Seq<Seq<u8>>>,
    public_key: Seq<char>,
    read: Option<Seq<u8>>,
)
    requires
        verbose.keymap@ == quiet.keymap@,
        verbose.config == (ConfigData { verbose: verbose.config.verbose, ..quiet.config }),
    ensures
        quiet.step_for(method, uri, headers).without_log() == verbose.step_for(
            method,
            uri,
            headers,
        ).without_log(),
        quiet.forwarding_for(public_key, uri, headers, read) == verbose.forwarding_for(
            public_key,
            uri,
            headers,
            read,
        ),
{
    let claimed = request_key(uri.query_text(), headers);
    law_verbose_only_logs(quiet.keymap@, method, uri.path@, claimed);
}

/// A body that cannot be received or decoded is a bad request, and nothing is sent.
pub proof fn law_unreadable_body_refused(
    modify_envelope_header: bool,
    keys: Map<Seq<char>, Seq<TargetParts>>,
    public_key: Seq<char>,
    path: Seq<char>,
    query: Option<Seq<char>>,
    headers: Map<Seq<char>, Seq<Seq<u8>>>,
    received: Option<Seq<u8>>,
)
    requires
        received is None || plain_body(
            body_encoding(modify_envelope_header, headers),
            received->0,
        ) is None,
    ensures
        forwarding(
            modify_envelope_header,
            keys,
            public_key,
            path,
            query,
            headers,
            read_outcome(body_encoding(modify_envelope_header, headers), received),
        ) matches ForwardParts::Refuse { response, .. } && response == bad_request_answer(),
{
}

/// A destination gets data unless it lists categories and the data is known to be of
/// another one: without a list it gets everything, and data of an unknown category goes
/// everywhere. The destinations keep their order.
pub proof fn law_category_filter(targets: Seq<TargetParts>, category: Option<DataCategory>)
    ensures
        forall|target: TargetParts| #[trigger]
            wanted(targets, category).contains(target) <==> targets.contains(target) && (
            target.categories is None || category is None || target.categories->0.contains(
                category->0,
            )),
        category is None ==> wanted(targets, category) == targets,
        (forall|i: int| 0 <= i < targets.len() ==> (#[trigger] targets[i]).categories is None)
            ==> wanted(targets, category) == targets,
    decreases targets.len(),
{
    reveal(Seq::filter);
    if targets.len() == 0 {
        lemma_wanted_empty(category);
        assert(targets =~= Seq::empty());
    } else {
        let shorter = targets.drop_last();
        let last = targets.last();
        law_category_filter(shorter, category);
        assert(targets =~= shorter.push(last));
        assert(targets.take(targets.len() - 1) =~= shorter);
        assert(targets.take(targets.len() as int) =~= targets);
        lemma_wanted_step(targets, targets.len() - 1, category);
        let kept = wanted(targets, category);
        let before = wanted(shorter, category);
        assert forall|target: TargetParts| #[trigger] kept.contains(target) <==> targets.contains(
            target,
        ) && (target.categories is None || category is None || target.categories->0.contains(
            category->0,
        )) by {
            assert(before.contains(target) <==> shorter.contains(target) && is_wanted(
                target,
                category,
            ));
            assert(targets.contains(target) <==> shorter.contains(target) || target == last) by {
                if shorter.contains(target) {
                    let j = choose|j: int| 0 <= j < shorter.len() && shorter[j] == target;
                    assert(targets[j] == target);
                }
                if target == last {
                    assert(targets[targets.len() - 1] == target);
                }
            }
            if is_wanted(last, category) {
                assert(kept.contains(target) <==> before.contains(target) || target == last) by {
                    if before.contains(target) {
                        let j = choose|j: int| 0 <= j < before.len() && before[j] == target;
                        assert(kept[j] == target);
                    }
                    assert(kept[before.len() as int] == last);
                }
            }
        }
        if forall|i: int| 0 <= i < targets.len() ==> (#[trigger] targets[i]).categories is None {
            assert forall|i: int| 0 <= i < shorter.len() implies (
            #[trigger] shorter[i]).categories is None by {
                assert(targets[i].categories is None);
            }
            assert(targets[targets.len() - 1].categories is None);
        }
    }
}

/// Each destination that takes the data is sent one request, in order, which goes by POST
/// to the host of its DSN and depends on no other destination.
pub proof fn law_one_call_per_destination(
    modify_envelope_header: bool,
    inbound: InboundParts,
    targets: Seq<TargetParts>,
)
    ensures
        mirroring(modify_envelope_header, inbound, targets) matches ForwardParts::Send { calls, .. }
            ==> {
            let chosen = wanted(targets, request_category(inbound.path, inbound.body));
            &&& calls.len() == chosen.len()
            &&& forall|i: int|
                0 <= i < chosen.len() ==> {
                    &&& #[trigger] calls[i] == call_for(
                        modify_envelope_header,
                        inbound,
                        chosen[i].dsn,
                    )
                    &&& calls[i].method == "POST"@
                    &&& calls[i].host == chosen[i].dsn.host
                }
        },
{
}

/// A body in which there is nothing to rewrite is sent on byte for byte, and so is every
/// body where envelope headers stay as they are. Where there is something to rewrite, the
/// rewritten envelope is sent.
pub proof fn law_body_sent(modify_envelope_header: bool, inbound: InboundParts, outbound: DsnParts)
    ensures
        ({
            let sent = call_for(modify_envelope_header, inbound, outbound).body;
            &&& outbound_body(modify_envelope_header, inbound.body, outbound) == sent
            &&& !modify_envelope_header ==> sent == inbound.body
            &&& rewritten_envelope(inbound.body, outbound) is None ==> sent == inbound.body
            &&& modify_envelope_header && rewritten_envelope(inbound.body, outbound) is Some
                ==> sent == rewritten_envelope(inbound.body, outbound)->0
        }),
{
}

/// A request to a destination goes by POST to the host and scheme of its DSN, with the path
/// and query, the headers and the body for that DSN.
pub proof fn law_call_addressed(
    modify_envelope_header: bool,
    inbound: InboundParts,
    outbound: DsnParts,
)
    requires
        ({
            let target = outbound_target(inbound.path, inbound.query, outbound);
            target.len() > 0 && target[0] == '/' && !target.contains('#')
        }),
    ensures
        ({
            let call = call_for(modify_envelope_header, inbound, outbound);
            &&& call.method == "POST"@
            &&& call.host == outbound.host
            &&& call.uri == outbound.scheme + "://"@ + outbound.host + outbound_target(
                inbound.path,
                inbound.query,
                outbound,
            )
            &&& call.headers == outbound_headers(
                modify_envelope_header,
                inbound.headers,
                outbound.public_key,
            )
        }),
{
    law_uri_printed(
        outbound.scheme,
        outbound.host,
        outbound_target(inbound.path, inbound.query, outbound),
    );
}

/// Destinations are chosen one by one and in order: of two lists, what is chosen of the first
/// stands before what is chosen of the second, and a destination is chosen once for each
/// time that it is listed, unless it lists categories and the data is of another one.
pub proof fn law_destinations_chosen_in_order(
    first: Seq<TargetParts>,
    second: Seq<TargetParts>,
    target: TargetParts,
    category: Option<DataCategory>,
)
    ensures
        wanted(first + second, category) == wanted(first, category) + wanted(second, category),
        target.categories is None || category is None || target.categories->0.contains(
            category->0,
        ) ==> wanted(seq![target], category) == seq![target],
        target.categories is Some && category is Some && !target.categories->0.contains(category->0)
            ==> wanted(seq![target], category) == Seq::<TargetParts>::empty(),
{
    Seq::filter_distributes_over_add(
        first,
        second,
        |target: TargetParts| is_wanted(target, category),
    );
    let one = seq![target];
    lemma_wanted_step(one, 0, category);
    lemma_wanted_empty(category);
    assert(one.take(1) =~= one);
    assert(one.take(0) =~= Seq::empty());
    assert(Seq::<TargetParts>::empty().push(target) =~= one);
}

/// A request with a configured key and a body is mirrored to the destinations of that key,
/// chosen by the category of its data, wherever the requests to all of them can be built.
/// Without the key or the body it is a bad request.
pub proof fn law_forwarding(
    modify_envelope_header: bool,
    keys: Map<Seq<char>, Seq<TargetParts>>,
    public_key: Seq<char>,
    inbound: InboundParts,
    reason: Seq<char>,
)
    ensures
        ({
            let next = forwarding(
                modify_envelope_header,
                keys,
                public_key,
                inbound.path,
                inbound.query,
                inbound.headers,
                Ok(inbound.body),
            );
            let failed = forwarding(
                modify_envelope_header,
                keys,
                public_key,
                inbound.path,
                inbound.query,
                inbound.headers,
                Err(reason),
            );
            let category = request_category(inbound.path, inbound.body);
            let chosen = wanted(keys[public_key], category);
            let buildable = forall|i: int|
                0 <= i < chosen.len() ==> is_buildable(
                    inbound.path,
                    inbound.query,
                    inbound.headers,
                    (#[trigger] chosen[i]).dsn,
                );
            &&& keys.contains_key(public_key) && buildable ==> next is Send && next->category
                == category && next->calls.len() == chosen.len() && forall|i: int|
                0 <= i < chosen.len() ==> #[trigger] next->calls[i] == call_for(
                    modify_envelope_header,
                    inbound,
                    chosen[i].dsn,
                )
            &&& keys.contains_key(public_key) && !buildable ==> next is Unbuildable
            &&& !keys.contains_key(public_key) ==> next is Refuse && failed is Refuse
            &&& keys.contains_key(public_key) ==> failed is Refuse && failed->reason == reason
            &&& next is Refuse ==> next->Refuse_response.status == 400
            &&& failed->Refuse_response.status == 400
        }),
{
}

/// The answer to a mirrored request hands on the body of the outbound response in every byte,
/// with the headers that let a browser read it.
pub proof fn law_mirrored_answer(body: Seq<u8>)
    ensures
        mirrored_answer(body).status == 200,
        mirrored_answer(body).body == body,
        mirrored_answer(body).headers == seq![
            ("Access-Control-Allow-Origin"@, "*"@),
            (
                "Access-Control-Expose-Headers"@,
                "x-sentry-error,x-sentry-rate-limit,retry-after"@,
            ),
            ("Cross-Origin-Resource-Policy"@, "cross-origin"@),
        ],
{
}

/// Headers are logged one line each, in order, with the text of the value, or with a word for
/// a value that is no text.
pub proof fn law_headers_logged(
    pairs: Seq<(Seq<char>, Seq<u8>)>,
    name: Seq<char>,
    value: Seq<u8>,
    text: Seq<char>,
)
    requires
        text.len() == value.len(),
        forall|i: int| 0 <= i < value.len() ==> value[i] as char == #[trigger] text[i],
    ensures
        headers_log(Seq::empty()) == "Invalid headers"@,
        header_lines(Seq::empty()) == Seq::<char>::empty(),
        headers_log(pairs + seq![(name, value)]) == header_lines(pairs + seq![(name, value)]),
        (forall|i: int|
            0 <= i < value.len() ==> 32 <= #[trigger] value[i] <= 126 || value[i] == 9)
            ==> header_lines(pairs + seq![(name, value)]) == header_lines(pairs) + (" "@ + name
            + ": "@ + text + "\n"@),
        (exists|i: int|
            0 <= i < value.len() && !(32 <= #[trigger] value[i] <= 126 || value[i] == 9))
            ==> header_lines(pairs + seq![(name, value)]) == header_lines(pairs) + (" "@ + name
            + ": "@ + "<invalid>"@ + "\n"@),
{
    let all = pairs + seq![(name, value)];
    assert(all.drop_last() =~= pairs);
    if forall|i: int| 0 <= i < value.len() ==> 32 <= #[trigger] value[i] <= 126 || value[i] == 9 {
        assert forall|i: int| 0 <= i < value.len() implies is_visible_byte(#[trigger] value[i]) by {
            assert(32 <= value[i] <= 126 || value[i] == 9);
        }
        assert(visible_text(value) =~= text);
    } else {
        let i = choose|i: int|
            0 <= i < value.len() && !(32 <= #[trigger] value[i] <= 126 || value[i] == 9);
        assert(!is_visible_byte(value[i]));
    }
}

/// An answer is shown with its status, all of its headers in order, and its body.
pub proof fn law_answer_shown(response: ProxyResponse, i: int)
    ensures
        response@.status == response.status,
        response@.body == response.body@,
        response@.headers.len() == response.headers@.len(),
        0 <= i < response.headers@.len() ==> response@.headers[i] == (
            response.headers@[i].0@,
            response.headers@[i].1@,
        ),
{
}

/// Requests are shown in full and in order, each with its host, method, URI, headers and
/// body.
pub proof fn law_calls_shown(calls: Seq<OutboundCall>, i: int)
    ensures
        call_list(calls).len() == calls.len(),
        0 <= i < calls.len() ==> {
            &&& call_list(calls)[i].host == calls[i].host@
            &&& call_list(calls)[i].method == calls[i].method@
            &&& call_list(calls)[i].uri == uri_text(calls[i].uri)
            &&& call_list(calls)[i].headers == header_contents(calls[i].headers)
            &&& call_list(calls)[i].body == calls[i].body@
        },
{
}

/// A step is shown with all that it carries: the answer, the reason for a refusal and whether
/// a body is read for the log, or the key; and what is done then with the requests and their
/// category, or the reason and the answer.
pub proof fn law_steps_shown(step: Step, next: Forward)
    ensures
        step matches Step::Health(response) ==> step@ == StepParts::Health(response@),
        step matches Step::Refuse { refusal: Refusal::Method, response, log_body } ==> step@ == (
        StepParts::Refuse { refusal: RefusalParts::Method, response: response@, log_body }),
        step matches Step::Refuse { refusal: Refusal::NoKey, response, log_body } ==> step@ == (
        StepParts::Refuse { refusal: RefusalParts::NoKey, response: response@, log_body }),
        step matches Step::Refuse {
            refusal: Refusal::UnknownKey { public_key },
            response,
            log_body,
        } ==> step@ == (StepParts::Refuse {
            refusal: RefusalParts::UnknownKey(public_key@),
            response: response@,
            log_body,
        }),
        step matches Step::ReadBody { public_key } ==> step@ == StepParts::ReadBody(public_key@),
        next matches Forward::Refuse { reason, response } ==> next@ == (ForwardParts::Refuse {
            reason: reason@,
            response: response@,
        }),
        next matches Forward::Send { calls, category } ==> next@ == (ForwardParts::Send {
            calls: call_list(calls@),
            category,
        }),
        next is Unbuildable ==> next@ is Unbuildable,
{
}

/// No outbound request is waited for longer than half a minute, however many there are.
pub proof fn law_waiting_is_bounded(seconds: int)
    ensures
        seconds <= OUTBOUND_TIMEOUT_SECS <==> seconds <= 30,
{
}

} // verus!
