//! Fetch requests of a peer: what is asked of the HTTP client, and what the peer is
//! answered.

use crate::base64::{base64_bytes, base64_encode, base64_text, law_base64_round_trip};
use crate::handshake::Outgoing;
use crate::headers::{
    asked, field_map, fields, lines, request_headers, response_headers, text_object, to_set,
    HeaderValue,
};
use crate::json::{entries_view, lemma_no_entries, put, Json, JsonView};
use crate::text::{
    ascii_lower, ascii_upper, decimal, decimal_value, law_ascii_upper_forgets_case,
    law_decimal_reads_back, push_decimal, same_text, utf8_text,
};
use vstd::prelude::*;
use vstd::utf8::{decode_utf8, encode_utf8, valid_utf8};

verus! {

/// The tag of fetch requests and of the answers to them.
pub const FETCH_TAG: &'static str = "fetch";

/// A request of a peer.
#[derive(Debug)]
pub struct FetchRequest {
    /// What the answer is to be marked with.
    pub id: Option<String>,
    pub url: String,
    pub options: Option<FetchOptions>,
}

/// The options of a request.
#[derive(Debug)]
pub struct FetchOptions {
    pub method: Option<String>,
    /// The headers, in the order in which they are to be set.
    pub headers: Option<Vec<(String, HeaderValue)>>,
    pub body: Option<String>,
    /// Whether the body of the response is wanted in base64 whatever it is, and not
    /// only where it is no UTF-8 text.
    pub raw: Option<bool>,
}

impl Default for FetchOptions {
    fn default() -> (options: FetchOptions)
        ensures
            options == default_options(),
    {
        FetchOptions { method: None, headers: None, body: None, raw: None }
    }
}

/// An HTTP method.
#[derive(Debug)]
pub enum Method {
    Get,
    Post,
    Put,
    Delete,
    Head,
    Patch,
    Options,
    Connect,
    Trace,
    Other(String),
}

/// What a [`Method`] stands for.
#[verifier::ext_equal]
pub enum MethodView {
    Get,
    Post,
    Put,
    Delete,
    Head,
    Patch,
    Options,
    Connect,
    Trace,
    Other(Seq<char>),
}

impl View for Method {
    type V = MethodView;

    open spec fn view(&self) -> MethodView {
        match self {
            Method::Get => MethodView::Get,
            Method::Post => MethodView::Post,
            Method::Put => MethodView::Put,
            Method::Delete => MethodView::Delete,
            Method::Head => MethodView::Head,
            Method::Patch => MethodView::Patch,
            Method::Options => MethodView::Options,
            Method::Connect => MethodView::Connect,
            Method::Trace => MethodView::Trace,
            Method::Other(name) => MethodView::Other(name@),
        }
    }
}

/// The method of a name in upper case.
pub open spec fn method_named(name: Seq<char>) -> MethodView {
    if name == "GET"@ {
        MethodView::Get
    } else if name == "POST"@ {
        MethodView::Post
    } else if name == "PUT"@ {
        MethodView::Put
    } else if name == "DELETE"@ {
        MethodView::Delete
    } else if name == "HEAD"@ {
        MethodView::Head
    } else if name == "PATCH"@ {
        MethodView::Patch
    } else if name == "OPTIONS"@ {
        MethodView::Options
    } else if name == "CONNECT"@ {
        MethodView::Connect
    } else if name == "TRACE"@ {
        MethodView::Trace
    } else {
        MethodView::Other(name)
    }
}

/// The method of a name, whatever the case of its ASCII letters.
pub fn parse_method(method: &str) -> (parsed: Method)
    ensures
        parsed@ == method_named(ascii_upper(method@)),
{
    let name: String = method.to_ascii_uppercase();
    let upper: &str = name.as_str();
    if same_text(upper, "GET") {
        Method::Get
    } else if same_text(upper, "POST") {
        Method::Post
    } else if same_text(upper, "PUT") {
        Method::Put
    } else if same_text(upper, "DELETE") {
        Method::Delete
    } else if same_text(upper, "HEAD") {
        Method::Head
    } else if same_text(upper, "PATCH") {
        Method::Patch
    } else if same_text(upper, "OPTIONS") {
        Method::Options
    } else if same_text(upper, "CONNECT") {
        Method::Connect
    } else if same_text(upper, "TRACE") {
        Method::Trace
    } else {
        Method::Other(name)
    }
}

/// What is asked of the HTTP client.
#[derive(Debug)]
pub struct HttpRequest {
    pub method: Method,
    pub url: String,
    /// The headers to set, in order.
    pub headers: Vec<(String, String)>,
    pub body: Option<Vec<u8>>,
}

/// What a [`HttpRequest`] stands for.
#[verifier::ext_equal]
pub struct HttpRequestView {
    pub method: MethodView,
    pub url: Seq<char>,
    pub headers: Seq<(Seq<char>, Seq<char>)>,
    pub body: Option<Seq<u8>>,
}

impl View for HttpRequest {
    type V = HttpRequestView;

    open spec fn view(&self) -> HttpRequestView {
        HttpRequestView {
            method: self.method@,
            url: self.url@,
            headers: lines(self.headers@),
            body: match self.body {
                Some(bytes) => Some(bytes@),
                None => None,
            },
        }
    }
}

/// The call that a request comes to.
pub open spec fn call_for(
    method: Seq<char>,
    url: Seq<char>,
    headers: Option<Vec<(String, HeaderValue)>>,
    body: Option<String>,
) -> HttpRequestView {
    HttpRequestView {
        method: method_named(ascii_upper(method)),
        url,
        headers: match headers {
            Some(h) => to_set(asked(h@)),
            None => Seq::empty(),
        },
        body: match body {
            Some(text) => Some(encode_utf8(text@)),
            None => None,
        },
    }
}

/// Prepares the call of the HTTP client: the method by its name, the headers whose
/// names are header names, and the body in UTF-8.
pub fn build_request(
    method: &str,
    url: &str,
    headers: Option<Vec<(String, HeaderValue)>>,
    body: Option<String>,
) -> (request: HttpRequest)
    ensures
        request@ == call_for(method@, url@, headers, body),
{
    let set: Vec<(String, String)> = match &headers {
        Some(h) => request_headers(h),
        None => Vec::new(),
    };
    let bytes: Option<Vec<u8>> = match &body {
        Some(text) => Some(vstd::slice::slice_to_vec(text.as_str().as_bytes())),
        None => None,
    };
    let request = HttpRequest {
        method: parse_method(method),
        url: url.to_string(),
        headers: set,
        body: bytes,
    };
    assert(request@ =~= call_for(method@, url@, headers, body));
    request
}

/// The options of a request that gives none.
pub open spec fn default_options() -> FetchOptions {
    FetchOptions { method: None, headers: None, body: None, raw: None }
}

/// The options of a request.
pub open spec fn options_of(req: FetchRequest) -> FetchOptions {
    match req.options {
        Some(options) => options,
        None => default_options(),
    }
}

/// The method of a request, in upper case; `GET` where it names none.
pub open spec fn method_of(options: FetchOptions) -> Seq<char> {
    ascii_upper(
        match options.method {
            Some(name) => name@,
            None => "GET"@,
        },
    )
}

/// What a request of a peer comes to.
#[derive(Debug)]
pub struct FetchPlan {
    /// What the answer is to be marked with.
    pub id: Option<String>,
    /// The name of the method, in upper case.
    pub method: String,
    /// Whether the body of the response is wanted in base64 whatever it is.
    pub raw: bool,
    /// The call to make.
    pub request: HttpRequest,
}

/// Works out what a request of a peer comes to.
pub fn handle_request(req: FetchRequest) -> (plan: FetchPlan)
    ensures
        plan.id == req.id,
        plan.method@ == method_of(options_of(req)),
        plan.raw == (options_of(req).raw == Some(true)),
        plan.request@ == call_for(
            method_of(options_of(req)),
            req.url@,
            options_of(req).headers,
            options_of(req).body,
        ),
{
    let options: FetchOptions = match req.options {
        Some(options) => options,
        None => FetchOptions::default(),
    };
    let method: String = match &options.method {
        Some(name) => name.as_str().to_ascii_uppercase(),
        None => "GET".to_ascii_uppercase(),
    };
    let raw: bool = match options.raw {
        Some(b) => b,
        None => false,
    };
    let request: HttpRequest = build_request(
        method.as_str(),
        req.url.as_str(),
        options.headers,
        options.body,
    );
    FetchPlan { id: req.id, method, raw, request }
}

/// The reason phrase of a status, of those that the answers spell out.
pub open spec fn reason(status: u16) -> Seq<char> {
    if status == 200 {
        "OK"@
    } else if status == 201 {
        "Created"@
    } else if status == 204 {
        "No Content"@
    } else if status == 301 {
        "Moved Permanently"@
    } else if status == 302 {
        "Found"@
    } else if status == 304 {
        "Not Modified"@
    } else if status == 400 {
        "Bad Request"@
    } else if status == 401 {
        "Unauthorized"@
    } else if status == 403 {
        "Forbidden"@
    } else if status == 404 {
        "Not Found"@
    } else if status == 500 {
        "Internal Server Error"@
    } else if status == 502 {
        "Bad Gateway"@
    } else if status == 503 {
        "Service Unavailable"@
    } else {
        ""@
    }
}

/// The reason phrase of a status; empty for a status without one here.
pub fn status_text(status: u16) -> (text: &'static str)
    ensures
        text@ == reason(status),
{
    match status {
        200 => "OK",
        201 => "Created",
        204 => "No Content",
        301 => "Moved Permanently",
        302 => "Found",
        304 => "Not Modified",
        400 => "Bad Request",
        401 => "Unauthorized",
        403 => "Forbidden",
        404 => "Not Found",
        500 => "Internal Server Error",
        502 => "Bad Gateway",
        503 => "Service Unavailable",
        _ => "",
    }
}

/// The status in an answer; zero where it has none.
pub open spec fn status_in(response: JsonView) -> u16 {
    match response.get("status"@) {
        Some(v) => match v.as_u64() {
            Some(n) => (n % 0x1_0000) as u16,
            None => 0,
        },
        None => 0,
    }
}

/// Reads the status out of an answer; zero where it has none. A number that is too
/// large loses its top bits.
pub fn status_from(v: &Json) -> (status: u16)
    ensures
        status == status_in(v@),
{
    match v.get("status") {
        Some(s) => match s.as_u64() {
            Some(n) => {
                assert(n as u16 == n % 0x1_0000) by (bit_vector);
                #[verifier::truncate] (n as u16)
            },
            None => 0,
        },
        None => 0,
    }
}

/// What the HTTP client came back with.
#[derive(Debug)]
pub struct HttpResponse {
    pub status: u16,
    /// The headers, by name and value, in the order in which the client lists them.
    pub headers: Vec<(String, Vec<u8>)>,
    pub body: Vec<u8>,
}

/// The body of a response as text, and whether that text is base64: it is where
/// that was asked for, and where the body is no UTF-8 text.
pub open spec fn body_field(body: Seq<u8>, raw: bool) -> (Seq<char>, bool) {
    if raw || !valid_utf8(body) {
        (base64_text(body), true)
    } else {
        (decode_utf8(body), false)
    }
}

/// An answer's fields.
pub open spec fn answer(
    ok: bool,
    status: u16,
    status_text: Seq<char>,
    headers: JsonView,
    body: (Seq<char>, bool),
) -> JsonView {
    JsonView::Object(
        map![
            "ok"@ => JsonView::Bool(ok),
            "status"@ => JsonView::Integer(status as int),
            "statusText"@ => JsonView::Text(status_text),
            "headers"@ => headers,
            "body"@ => JsonView::Text(body.0),
            "raw"@ => JsonView::Bool(body.1),
        ],
    )
}

/// The answer that a response makes: in order where its status is in the 200s.
pub open spec fn response_answer(response: HttpResponse, raw: bool) -> JsonView {
    answer(
        200 <= response.status < 300,
        response.status,
        reason(response.status),
        text_object(field_map(fields(response.headers@))),
        body_field(response.body@, raw),
    )
}

/// The answer when there was no response.
pub open spec fn failure_answer(message: Seq<char>) -> JsonView {
    answer(false, 0, message, JsonView::Object(Map::empty()), (Seq::empty(), false))
}

/// Builds an answer of its fields.
fn build_answer(
    ok: bool,
    status: u16,
    status_text: String,
    headers: Json,
    body: String,
    raw: bool,
) -> (json: Json)
    ensures
        json@ == answer(ok, status, status_text@, headers@, (body@, raw)),
{
    let mut entries: Vec<(String, Json)> = Vec::new();
    proof {
        lemma_no_entries();
        assert(entries_view(entries@) =~= Map::empty());
    }
    put(&mut entries, "ok", Json::Bool(ok));
    put(&mut entries, "status", Json::Integer(status as i128));
    put(&mut entries, "statusText", Json::Text(status_text));
    put(&mut entries, "headers", headers);
    put(&mut entries, "body", Json::Text(body));
    put(&mut entries, "raw", Json::Bool(raw));
    let json: Json = Json::object(entries);
    assert(json@ =~= answer(ok, status, status_text@, headers@, (body@, raw)));
    json
}

/// Builds the answer that a response makes.
pub fn build_response(response: &HttpResponse, raw: bool) -> (json: Json)
    ensures
        json@ == response_answer(*response, raw),
{
    let headers: Json = response_headers(&response.headers);
    let (body, is_base64): (String, bool) = if raw {
        (base64_encode(response.body.as_slice()), true)
    } else {
        match utf8_text(response.body.clone()) {
            Some(text) => (text, false),
            None => (base64_encode(response.body.as_slice()), true),
        }
    };
    let ok: bool = 200 <= response.status && response.status < 300;
    build_answer(
        ok,
        response.status,
        status_text(response.status).to_string(),
        headers,
        body,
        is_base64,
    )
}

/// Why there was no response, with what the HTTP client said.
#[derive(Debug)]
pub enum FetchError {
    /// The request could not be sent.
    Send(String),
    /// The body of the response could not be read.
    ReadBody(String),
}

impl FetchError {
    /// The message of the error.
    pub open spec fn text(self) -> Seq<char> {
        match self {
            FetchError::Send(cause) => "send failed: "@ + cause@,
            FetchError::ReadBody(cause) => "read body failed: "@ + cause@,
        }
    }

    /// The message of the error.
    pub fn message(&self) -> (text: String)
        ensures
            text@ == self.text(),
    {
        match self {
            FetchError::Send(cause) => "send failed: ".to_string().concat(cause.as_str()),
            FetchError::ReadBody(cause) => "read body failed: ".to_string().concat(cause.as_str()),
        }
    }
}

/// The message with an answer, marked as the request asked for.
pub open spec fn marked(resp: JsonView, id: Option<String>) -> JsonView {
    match id {
        Some(id) => JsonView::Object(map!["resp"@ => resp, "id"@ => JsonView::Text(id@)]),
        None => JsonView::Object(map!["resp"@ => resp]),
    }
}

/// What came of a request.
#[derive(Debug)]
pub struct FetchResult {
    /// Whether there was a response, whatever its status.
    pub success: bool,
    /// The status of the response, or why there was none, to be recorded.
    pub note: String,
    /// The message to send to the peer.
    pub message: Outgoing,
}

/// Works out what a peer is answered. There is an answer either way: the response,
/// or the reason why there was none.
pub fn finish_request(
    id: Option<String>,
    raw: bool,
    outcome: Result<HttpResponse, FetchError>,
) -> (result: FetchResult)
    ensures
        result.success == (outcome is Ok),
        result.note@ == match outcome {
            Ok(response) => "HTTP "@ + decimal(response.status as nat),
            Err(err) => err.text(),
        },
        result.message.tag@ == FETCH_TAG@,
        result.message.body@ == marked(
            match outcome {
                Ok(response) => response_answer(response, raw),
                Err(err) => failure_answer(err.text()),
            },
            id,
        ),
{
    let (success, note, resp): (bool, String, Json) = match &outcome {
        Ok(response) => {
            let resp: Json = build_response(response, raw);
            proof {
                law_status_reads_back(*response, raw);
            }
            let mut note: String = "HTTP ".to_string();
            push_decimal(&mut note, status_from(&resp) as u64);
            (true, note, resp)
        },
        Err(err) => {
            let message: String = err.message();
            proof {
                lemma_no_entries();
            }
            let none: Vec<(String, Json)> = Vec::new();
            assert(none@ =~= Seq::empty());
            let resp: Json = build_answer(
                false,
                0,
                message.clone(),
                Json::object(none),
                String::new(),
                false,
            );
            (false, message, resp)
        },
    };
    let mut entries: Vec<(String, Json)> = Vec::new();
    proof {
        lemma_no_entries();
        assert(entries_view(entries@) =~= Map::empty());
    }
    put(&mut entries, "resp", resp);
    if let Some(id) = &id {
        put(&mut entries, "id", Json::Text(id.clone()));
    }
    let body: Json = Json::object(entries);
    assert(body@ =~= marked(resp@, id));
    FetchResult { success, note, message: Outgoing { tag: FETCH_TAG, body } }
}

/// The keys of an answer are distinct.
proof fn lemma_answer_keys_differ()
    ensures
        "ok"@ != "status"@,
        "status"@ != "statusText"@,
        "status"@ != "headers"@,
        "status"@ != "body"@,
        "status"@ != "raw"@,
        "ok"@ != "statusText"@,
        "ok"@ != "headers"@,
        "ok"@ != "body"@,
        "ok"@ != "raw"@,
        "statusText"@ != "headers"@,
        "statusText"@ != "body"@,
        "statusText"@ != "raw"@,
        "headers"@ != "body"@,
        "headers"@ != "raw"@,
        "body"@ != "raw"@,
        "resp"@ != "id"@,
{
    reveal_strlit("ok");
    reveal_strlit("status");
    reveal_strlit("statusText");
    reveal_strlit("headers");
    reveal_strlit("body");
    reveal_strlit("raw");
    reveal_strlit("resp");
    reveal_strlit("id");
    assert("ok"@.len() == 2 && "status"@.len() == 6 && "statusText"@.len() == 10 && "headers"@.len()
        == 7 && "body"@.len() == 4 && "raw"@.len() == 3 && "resp"@.len() == 4 && "id"@.len() == 2);
}

/// The status that an answer is read to have is the status of the response.
pub proof fn law_status_reads_back(response: HttpResponse, raw: bool)
    ensures
        status_in(response_answer(response, raw)) == response.status,
{
    lemma_answer_keys_differ();
}

/// The body of a response survives in the answer, whatever bytes it holds: the
/// peer gets it back by reading base64 where the answer is marked as raw, and by
/// encoding the text in UTF-8 where it is not. An answer is so marked whenever that
/// was asked for.
pub proof fn law_body_survives(body: Seq<u8>, raw: bool)
    ensures
        body_field(body, raw).1 ==> base64_bytes(body_field(body, raw).0) == Some(body),
        !body_field(body, raw).1 ==> encode_utf8(body_field(body, raw).0) == body,
        raw ==> body_field(body, raw).1,
        !raw && valid_utf8(body) ==> !body_field(body, raw).1,
{
    law_base64_round_trip(body);
    if valid_utf8(body) {
        vstd::utf8::decode_utf8_encode_utf8(body);
    }
}

/// Every field of an answer is found under its key.
pub proof fn law_answer_has_its_fields(
    ok: bool,
    status: u16,
    status_text: Seq<char>,
    headers: JsonView,
    body: (Seq<char>, bool),
)
    ensures
        ({
            let a = answer(ok, status, status_text, headers, body);
            &&& a.get("ok"@) == Some(JsonView::Bool(ok))
            &&& a.get("status"@) == Some(JsonView::Integer(status as int))
            &&& a.get("statusText"@) == Some(JsonView::Text(status_text))
            &&& a.get("headers"@) == Some(headers)
            &&& a.get("body"@) == Some(JsonView::Text(body.0))
            &&& a.get("raw"@) == Some(JsonView::Bool(body.1))
        }),
{
    lemma_answer_keys_differ();
}

/// The answer to a request carries the request's mark, exactly where it has one.
pub proof fn law_answers_are_marked(resp: JsonView, id: Option<String>)
    ensures
        marked(resp, id).get("resp"@) == Some(resp),
        marked(resp, id).get("id"@) == match id {
            Some(id) => Some(JsonView::Text(id@)),
            None => None,
        },
{
    lemma_answer_keys_differ();
}

/// The case of a method's ASCII letters makes no difference: a name in lower case or
/// in upper case gives the method of the name itself.
pub proof fn law_method_case_is_ignored(name: Seq<char>)
    ensures
        method_named(ascii_upper(ascii_lower(name))) == method_named(ascii_upper(name)),
        method_named(ascii_upper(ascii_upper(name))) == method_named(ascii_upper(name)),
{
    law_ascii_upper_forgets_case(name);
}

/// The name of a method.
pub open spec fn method_name(method: MethodView) -> Seq<char> {
    match method {
        MethodView::Get => "GET"@,
        MethodView::Post => "POST"@,
        MethodView::Put => "PUT"@,
        MethodView::Delete => "DELETE"@,
        MethodView::Head => "HEAD"@,
        MethodView::Patch => "PATCH"@,
        MethodView::Options => "OPTIONS"@,
        MethodView::Connect => "CONNECT"@,
        MethodView::Trace => "TRACE"@,
        MethodView::Other(name) => name,
    }
}

/// A method has the name that it was asked for by, in upper case, and a method that has
/// a name of its own is never one of the others.
pub proof fn law_method_keeps_its_name(name: &str, method: Method)
    requires
        call_ensures(parse_method, (name,), method),
    ensures
        method_name(method@) == ascii_upper(name@),
        method@ matches MethodView::Other(other) ==> other != "GET"@ && other != "POST"@ && other
            != "PUT"@ && other != "DELETE"@ && other != "HEAD"@ && other != "PATCH"@ && other
            != "OPTIONS"@ && other != "CONNECT"@ && other != "TRACE"@,
{
}

/// Whether two lists of headers have the same names and texts.
pub open spec fn same_lines(a: Seq<(String, String)>, b: Seq<(String, String)>) -> bool {
    &&& a.len() == b.len()
    &&& forall|i: int|
        0 <= i < a.len() ==> (#[trigger] a[i]).0@ == b[i].0@ && a[i].1@ == b[i].1@
}

/// Lists that stand for the same lines have the same names and texts.
proof fn lemma_same_lines(a: Seq<(String, String)>, b: Seq<(String, String)>)
    requires
        lines(a) == lines(b),
    ensures
        same_lines(a, b),
{
    assert(lines(a).len() == a.len() && lines(b).len() == b.len());
    assert forall|i: int| 0 <= i < a.len() implies (#[trigger] a[i]).0@ == b[i].0@ && a[i].1@
        == b[i].1@ by {
        assert(lines(a)[i] == lines(b)[i]);
    }
}

/// A call carries a body exactly where one is given, whatever the method, the address
/// and the headers, and the body reads as the text that was given.
pub proof fn law_call_carries_the_body(
    method: Seq<char>,
    url: Seq<char>,
    headers: Option<Vec<(String, HeaderValue)>>,
    body: Option<String>,
)
    ensures
        call_for(method, url, headers, body).body is Some <==> body is Some,
        body matches Some(text) ==> valid_utf8(call_for(method, url, headers, body).body->0)
            && decode_utf8(call_for(method, url, headers, body).body->0) == text@,
{
    broadcast use {vstd::utf8::encode_utf8_decode_utf8, vstd::utf8::encode_utf8_valid_utf8};

}

/// Each part of a call comes from its own part of the request, whatever the others are:
/// the method by its name; the address as it is; the headers that are set for those
/// asked for, and none where none are; and a body exactly where one is given, which
/// reads as the text that was given.
pub proof fn law_call_parts_are_independent(
    method: &str,
    url: &str,
    headers: Option<Vec<(String, HeaderValue)>>,
    body: Option<String>,
    request: HttpRequest,
    parsed: Method,
    set: Vec<(String, String)>,
)
    requires
        call_ensures(build_request, (method, url, headers, body), request),
        call_ensures(parse_method, (method,), parsed),
        headers is Some ==> call_ensures(request_headers, (&headers->0,), set),
    ensures
        request.method@ == parsed@,
        request.url@ == url@,
        headers is None ==> request.headers@.len() == 0,
        headers is Some ==> same_lines(request.headers@, set@),
        request.body is Some <==> body is Some,
        request.body matches Some(bytes) ==> valid_utf8(bytes@) && decode_utf8(bytes@) == body->0@,
{
    law_call_carries_the_body(method@, url@, headers, body);
    assert(request@ == call_for(method@, url@, headers, body));
    if headers is Some {
        lemma_same_lines(request.headers@, set@);
    } else {
        assert(lines(request.headers@).len() == 0);
    }
}

/// A request without options is one whose options are all left out.
pub proof fn law_default_options_are_empty(options: FetchOptions)
    requires
        call_ensures(FetchOptions::default, (), options),
    ensures
        options.method is None,
        options.headers is None,
        options.body is None,
        options.raw is None,
{
}

/// What a request comes to: the mark and the address are those of the request; the
/// method is the one that it names, in upper case, and `GET` where it names none; raw is
/// wanted exactly where it says so; and the call carries its headers and its body, where
/// it has them, whatever the method.
pub proof fn law_request_is_carried_out_as_asked(
    req: FetchRequest,
    plan: FetchPlan,
    set: Vec<(String, String)>,
)
    requires
        call_ensures(handle_request, (req,), plan),
        req.options is Some && req.options->0.headers is Some ==> call_ensures(
            request_headers,
            (&req.options->0.headers->0,),
            set,
        ),
    ensures
        plan.id is Some <==> req.id is Some,
        plan.id matches Some(id) ==> id@ == req.id->0@,
        plan.request.url@ == req.url@,
        plan.method@ == method_name(plan.request.method@),
        req.options is None || req.options->0.method is None ==> plan.method@ == "GET"@,
        req.options is Some && req.options->0.method is Some ==> plan.method@ == ascii_upper(
            req.options->0.method->0@,
        ),
        plan.raw <==> req.options is Some && req.options->0.raw == Some(true),
        req.options is Some && req.options->0.headers is Some ==> same_lines(
            plan.request.headers@,
            set@,
        ),
        req.options is None || req.options->0.headers is None ==> plan.request.headers@.len() == 0,
        plan.request.body is Some <==> req.options is Some && req.options->0.body is Some,
        plan.request.body matches Some(bytes) ==> valid_utf8(bytes@) && decode_utf8(bytes@)
            == req.options->0.body->0@,
{
    let options = options_of(req);
    law_call_carries_the_body(method_of(options), req.url@, options.headers, options.body);
    law_ascii_upper_forgets_case(
        match options.method {
            Some(name) => name@,
            None => "GET"@,
        },
    );
    assert(ascii_upper("GET"@) =~= "GET"@) by {
        reveal_strlit("GET");
    }
    if options.headers is Some {
        lemma_same_lines(plan.request.headers@, set@);
    } else {
        assert(lines(plan.request.headers@).len() == 0);
    }
}

/// The reason phrase of each status, for all of them.
pub proof fn law_reason_phrases(status: u16, text: &'static str)
    requires
        call_ensures(status_text, (status,), text),
    ensures
        match status {
            200 => text@ == "OK"@,
            201 => text@ == "Created"@,
            204 => text@ == "No Content"@,
            301 => text@ == "Moved Permanently"@,
            302 => text@ == "Found"@,
            304 => text@ == "Not Modified"@,
            400 => text@ == "Bad Request"@,
            401 => text@ == "Unauthorized"@,
            403 => text@ == "Forbidden"@,
            404 => text@ == "Not Found"@,
            500 => text@ == "Internal Server Error"@,
            502 => text@ == "Bad Gateway"@,
            503 => text@ == "Service Unavailable"@,
            _ => text@.len() == 0,
        },
{
    reveal_strlit("");
}

/// The status read out of an answer is the integer under `status`, less its top bits
/// where it is too large, and zero where there is no integer from zero up.
pub proof fn law_status_is_what_the_answer_carries(json: &Json, status: u16)
    requires
        call_ensures(status_from, (json,), status),
    ensures
        match json@.get("status"@) {
            Some(JsonView::Integer(n)) => if 0 <= n <= u16::MAX {
                status == n
            } else if 0 <= n <= u64::MAX {
                status == n % 0x1_0000
            } else {
                status == 0
            },
            _ => status == 0,
        },
{
}

/// An answer is in order exactly where the status of the response is in the 200s,
/// whatever the headers and the body are and however the body is shown.
pub proof fn law_ok_is_by_status_alone(response: HttpResponse, raw: bool)
    ensures
        response_answer(response, raw).get("ok"@) == Some(
            JsonView::Bool(200 <= response.status && response.status <= 299),
        ),
        response_answer(response, raw).get("ok"@) == Some(JsonView::Bool(true)) <==> 200
            <= response.status < 300,
{
    lemma_answer_keys_differ();
}

/// What a response is answered with, field by field and nothing else: whether the status
/// is in the 200s, by the status alone; the status; its reason phrase; the headers; and
/// the body. The body is marked as raw exactly where that was asked for or it is no
/// UTF-8 text, and is then its base64; otherwise it is the text that encodes to it.
pub proof fn law_response_is_told_field_by_field(
    response: &HttpResponse,
    raw: bool,
    json: Json,
    phrase: &'static str,
    headers: Json,
    bytes: &[u8],
    encoded: String,
)
    requires
        call_ensures(build_response, (response, raw), json),
        call_ensures(status_text, (response.status,), phrase),
        call_ensures(response_headers, (&response.headers,), headers),
        call_ensures(base64_encode, (bytes,), encoded),
        bytes@ == response.body@,
    ensures
        json@ matches JsonView::Object(m) && {
            &&& m.dom() =~= set!["ok"@, "status"@, "statusText"@, "headers"@, "body"@, "raw"@]
            &&& m["ok"@] == JsonView::Bool(200 <= response.status && response.status <= 299)
            &&& m["status"@] == JsonView::Integer(response.status as int)
            &&& m["statusText"@] == JsonView::Text(phrase@)
            &&& m["headers"@] == headers@
            &&& m["raw"@] == JsonView::Bool(raw || !valid_utf8(response.body@))
            &&& raw || !valid_utf8(response.body@) ==> m["body"@] == JsonView::Text(encoded@)
            &&& !raw && valid_utf8(response.body@) ==> (
            m["body"@] matches JsonView::Text(text) && encode_utf8(text) == response.body@)
        },
{
    lemma_answer_keys_differ();
    law_body_survives(response.body@, raw);
    assert(json@ == response_answer(*response, raw));
}

/// The message of an error says what failed and then what the HTTP client said.
pub proof fn law_error_says_what_failed(err: &FetchError, text: String)
    requires
        call_ensures(FetchError::message, (err,), text),
    ensures
        *err matches FetchError::Send(cause) ==> text@ == "send failed: "@ + cause@,
        *err matches FetchError::ReadBody(cause) ==> text@ == "read body failed: "@ + cause@,
{
}

/// A peer is always answered, under the tag of fetch requests. The message holds the
/// answer, the request's mark exactly where it has one, and nothing else.
pub proof fn law_every_request_is_answered(
    id: Option<String>,
    raw: bool,
    outcome: Result<HttpResponse, FetchError>,
    result: FetchResult,
)
    requires
        call_ensures(finish_request, (id, raw, outcome), result),
    ensures
        result.message.tag@ == "fetch"@,
        result.message.body@ matches JsonView::Object(m) && {
            &&& m.contains_key("resp"@)
            &&& m.dom() =~= if id is Some {
                set!["resp"@, "id"@]
            } else {
                set!["resp"@]
            }
            &&& id is Some ==> m["id"@] == JsonView::Text(id->0@)
        },
        result.success <==> outcome is Ok,
{
    lemma_answer_keys_differ();
}

/// A response is answered with what it makes, and noted by its status, whatever that is.
pub proof fn law_response_is_passed_on(
    id: Option<String>,
    raw: bool,
    response: HttpResponse,
    result: FetchResult,
    json: Json,
)
    requires
        call_ensures(finish_request, (id, raw, Ok::<HttpResponse, FetchError>(response)), result),
        call_ensures(build_response, (&response, raw), json),
    ensures
        result.success,
        result.message.body@.get("resp"@) == Some(json@),
        result.note@.len() > 5,
        result.note@.take(5) == "HTTP "@,
        decimal_value(result.note@.skip(5)) == response.status,
        result.note@.len() > 6 ==> result.note@[5] != '0',
{
    lemma_answer_keys_differ();
    let digits = decimal(response.status as nat);
    law_decimal_reads_back(response.status as nat);
    reveal_strlit("HTTP ");
    assert(result.note@ == "HTTP "@ + digits);
    assert(result.note@.take(5) =~= "HTTP "@);
    assert(result.note@.skip(5) =~= digits);
    assert(result.note@[5] == digits[0]);
}

/// Where there was no response, the peer is told so, with the message of the error as the
/// reason phrase, and the same message is noted. The answer is not in order, has status
/// zero, no headers and an empty body that is not raw, and nothing else.
pub proof fn law_failure_is_told(
    id: Option<String>,
    raw: bool,
    err: FetchError,
    result: FetchResult,
    message: String,
)
    requires
        call_ensures(finish_request, (id, raw, Err::<HttpResponse, FetchError>(err)), result),
        call_ensures(FetchError::message, (&err,), message),
    ensures
        !result.success,
        result.note@ == message@,
        result.message.body@.get("resp"@) matches Some(JsonView::Object(m)) && {
            &&& m.dom() =~= set!["ok"@, "status"@, "statusText"@, "headers"@, "body"@, "raw"@]
            &&& m["ok"@] == JsonView::Bool(false)
            &&& m["status"@] == JsonView::Integer(0)
            &&& m["statusText"@] == JsonView::Text(message@)
            &&& m["headers"@] == JsonView::Object(Map::empty())
            &&& m["body"@] == JsonView::Text(Seq::empty())
            &&& m["raw"@] == JsonView::Bool(false)
        },
{
    lemma_answer_keys_differ();
    assert(result.message.body@.get("resp"@) == Some(failure_answer(message@)));
}

} // verus!
