//! Talking to a retrieval service: what is asked of it, and what its replies
//! are answered with.

use vstd::prelude::*;
use vstd::string::*;
use vstd::utf8::encode_utf8;

use crate::api::{answer_model, api_error, api_error_model, ApiError, ApiErrorModel};
use crate::encoding::{encode_model, law_encoding_tells_texts_apart, urlencoding_encode};
use crate::json::{empty_object, json_text, json_text_model, parse_json_bytes, parsed_json_bytes};
use crate::json::{Json, JsonModel};
use crate::paths::{file_name, file_name_model};
use crate::text::{decimal_model, join, opt_text};
use crate::tools::{argument_model, one_text_tool, text_argument, text_result, tool_model};
use crate::tools::ToolSpec;

verus! {

/// How a request is made.
#[derive(Debug, Clone, Copy, PartialEq, Eq, Structural)]
pub enum Method {
    Get,
    Post,
}

/// A request to the service.
#[derive(Debug, PartialEq)]
pub struct ServiceRequest {
    pub method: Method,
    pub url: String,
    /// Sent as JSON.
    pub body: Option<Json>,
    /// Sent as `Authorization: Bearer`.
    pub bearer: Option<String>,
}

pub struct ServiceRequestModel {
    pub method: Method,
    pub url: Seq<char>,
    pub body: Option<JsonModel>,
    pub bearer: Option<Seq<char>>,
}

impl View for ServiceRequest {
    type V = ServiceRequestModel;

    open spec fn view(&self) -> ServiceRequestModel {
        ServiceRequestModel {
            method: self.method,
            url: self.url@,
            body: match self.body {
                Some(j) => Some(j@),
                None => None,
            },
            bearer: match self.bearer {
                Some(k) => Some(k@),
                None => None,
            },
        }
    }
}

/// A reply of the service: its status, and its body, or why that could not be
/// read.
#[derive(Debug, PartialEq, Eq)]
pub struct ServiceReply {
    pub status: u16,
    pub body: Result<Vec<u8>, String>,
}

fn owned(s: Option<&str>) -> (r: Option<String>)
    ensures
        match r {
            Some(t) => opt_text(s) == Some(t@),
            None => opt_text(s) is None,
        },
{
    match s {
        Some(t) => Some(t.to_owned()),
        None => None,
    }
}

/// The status says that the request succeeded.
pub open spec fn is_success(status: u16) -> bool {
    200 <= status < 300
}

/// The answer where no service is configured.
pub open spec fn not_configured() -> ApiErrorModel {
    api_error_model(503, "RAG_SERVICE_URL is not configured on this bridge"@)
}

/// A request to post `body` to `path` of the service.
pub open spec fn post_model(
    url: Seq<char>,
    key: Option<Seq<char>>,
    path: Seq<char>,
    body: JsonModel,
) -> ServiceRequestModel {
    ServiceRequestModel { method: Method::Post, url: url + path, body: Some(body), bearer: key }
}

/// A request to get `path` of the service.
pub open spec fn get_model(
    url: Seq<char>,
    key: Option<Seq<char>>,
    path: Seq<char>,
) -> ServiceRequestModel {
    ServiceRequestModel { method: Method::Get, url: url + path, body: None, bearer: key }
}

/// The body of a query.
pub open spec fn query_body(query: Seq<char>) -> JsonModel {
    empty_object().with("query"@, JsonModel::Text(query))
}

/// The body that hands a document over.
pub open spec fn ingest_body(text: Seq<char>, id: Seq<char>) -> JsonModel {
    empty_object().with("text"@, JsonModel::Text(text)).with("id"@, JsonModel::Text(id))
}

/// What a request to make, or the error in its place, is in terms of models.
pub open spec fn request_model(r: Result<ServiceRequest, ApiError>) -> Result<
    ServiceRequestModel,
    ApiErrorModel,
> {
    match r {
        Ok(q) => Ok(q@),
        Err(e) => Err(e@),
    }
}

fn query_request(url: &str, key: Option<&str>, query: &str) -> (r: ServiceRequest)
    ensures
        r@ == post_model(url@, opt_text(key), "/query"@, query_body(query@)),
{
    ServiceRequest {
        method: Method::Post,
        url: join(url, "/query"),
        body: Some(Json::object().with("query", Json::text_of(query))),
        bearer: owned(key),
    }
}

/// The address of the service, or the answer where none is configured.
pub open spec fn service_url_model(url: Option<Seq<char>>) -> Result<Seq<char>, ApiErrorModel> {
    match url {
        Some(u) => Ok(u),
        None => Err(not_configured()),
    }
}

/// The address of the service, or the answer where none is configured.
pub fn rag_service_url(url: Option<&str>) -> (r: Result<String, ApiError>)
    ensures
        (match r {
            Ok(u) => Ok(u@),
            Err(e) => Err(e@),
        }) == service_url_model(opt_text(url)),
{
    match url {
        Some(u) => Ok(u.to_owned()),
        None => Err(
            api_error(503, "RAG_SERVICE_URL is not configured on this bridge"),
        ),
    }
}

/// The request that asks the service `query`, or the answer where none is
/// configured.
pub open spec fn query_model(
    url: Option<Seq<char>>,
    key: Option<Seq<char>>,
    query: Seq<char>,
) -> Result<ServiceRequestModel, ApiErrorModel> {
    match url {
        Some(u) => Ok(post_model(u, key, "/query"@, query_body(query))),
        None => Err(not_configured()),
    }
}

/// The request that asks the service `query`, with no model involved.
pub fn rag_query_handler(url: Option<&str>, key: Option<&str>, query: &str) -> (r: Result<
    ServiceRequest,
    ApiError,
>)
    ensures
        request_model(r) == query_model(opt_text(url), opt_text(key), query@),
{
    match rag_service_url(url) {
        Ok(u) => Ok(query_request(u.as_str(), key, query)),
        Err(e) => Err(e),
    }
}

/// The name under which a document is handed over: the one given, else the
/// last part of its path, else the path.
pub open spec fn document_id(path: Seq<char>, id: Option<Seq<char>>) -> Seq<char> {
    match id {
        Some(i) => i,
        None => match file_name_model(path) {
            Some(name) => name,
            None => path,
        },
    }
}

/// The request that hands the document at `path` over to the service, given
/// its whole text, or why that could not be had.
pub open spec fn ingest_model(
    url: Option<Seq<char>>,
    key: Option<Seq<char>>,
    path: Seq<char>,
    id: Option<Seq<char>>,
    text: Result<Seq<char>, Seq<char>>,
) -> Result<ServiceRequestModel, ApiErrorModel> {
    match url {
        Some(u) => match text {
            Ok(t) => Ok(post_model(u, key, "/ingest"@, ingest_body(t, document_id(path, id)))),
            Err(e) => Err(api_error_model(400, e)),
        },
        None => Err(not_configured()),
    }
}

/// The request that hands the document at `path` over to the service, given
/// its whole text, or why that could not be had.
pub fn rag_ingest_handler(
    url: Option<&str>,
    key: Option<&str>,
    path: &str,
    id: Option<&str>,
    text: Result<String, String>,
) -> (r: Result<ServiceRequest, ApiError>)
    ensures
        request_model(r) == ingest_model(
            opt_text(url),
            opt_text(key),
            path@,
            opt_text(id),
            text_result(text),
        ),
{
    let u = match rag_service_url(url) {
        Ok(u) => u,
        Err(e) => {
            return Err(e);
        },
    };
    let t = match text {
        Ok(t) => t,
        Err(e) => {
            return Err(api_error(400, e.as_str()));
        },
    };
    let doc_id = match id {
        Some(i) => i.to_owned(),
        None => match file_name(path) {
            Some(name) => name,
            None => path.to_owned(),
        },
    };
    Ok(
        ServiceRequest {
            method: Method::Post,
            url: join(u.as_str(), "/ingest"),
            body: Some(
                Json::object().with("text", Json::Text(t)).with("id", Json::Text(doc_id)),
            ),
            bearer: owned(key),
        },
    )
}

/// The request for `path` of the service, or the answer where none is
/// configured.
pub open spec fn fetch_model(
    url: Option<Seq<char>>,
    key: Option<Seq<char>>,
    path: Seq<char>,
) -> Result<ServiceRequestModel, ApiErrorModel> {
    match url {
        Some(u) => Ok(get_model(u, key, path)),
        None => Err(not_configured()),
    }
}

fn get_request(url: Option<&str>, key: Option<&str>, path: &str) -> (r: Result<
    ServiceRequest,
    ApiError,
>)
    ensures
        request_model(r) == fetch_model(opt_text(url), opt_text(key), path@),
{
    match rag_service_url(url) {
        Ok(u) => Ok(
            ServiceRequest {
                method: Method::Get,
                url: join(u.as_str(), path),
                body: None,
                bearer: owned(key),
            },
        ),
        Err(e) => Err(e),
    }
}

/// The request for the list of documents that the service holds.
pub open spec fn documents_request_model(
    url: Option<Seq<char>>,
    key: Option<Seq<char>>,
) -> Result<ServiceRequestModel, ApiErrorModel> {
    fetch_model(url, key, "/documents"@)
}

/// The request for the list of documents that the service holds.
pub fn rag_documents_handler(url: Option<&str>, key: Option<&str>) -> (r: Result<
    ServiceRequest,
    ApiError,
>)
    ensures
        request_model(r) == documents_request_model(opt_text(url), opt_text(key)),
{
    get_request(url, key, "/documents")
}

/// The path of one document at the service.
pub open spec fn document_path(id: Seq<char>) -> Seq<char> {
    "/documents/"@ + encode_model(encode_utf8(id))
}

/// The request for the exact text of one document.
pub open spec fn document_request_model(
    url: Option<Seq<char>>,
    key: Option<Seq<char>>,
    id: Seq<char>,
) -> Result<ServiceRequestModel, ApiErrorModel> {
    fetch_model(url, key, document_path(id))
}

/// The request for the exact text of one document.
pub fn rag_document_handler(url: Option<&str>, key: Option<&str>, id: &str) -> (r: Result<
    ServiceRequest,
    ApiError,
>)
    ensures
        request_model(r) == document_request_model(opt_text(url), opt_text(key), id@),
{
    let path = join("/documents/", urlencoding_encode(id).as_str());
    get_request(url, key, path.as_str())
}

/// What came of a request: why it was not sent, or a status and a body, where
/// the body could not be read for a reason, is not JSON, or is.
pub enum OutcomeModel {
    NotSent(Seq<char>),
    NotRead(u16, Seq<char>),
    NotJson(u16, Seq<u8>),
    Replied(u16, JsonModel),
}

pub open spec fn outcome_model(sent: Result<ServiceReply, String>) -> OutcomeModel {
    match sent {
        Err(e) => OutcomeModel::NotSent(e@),
        Ok(reply) => match reply.body {
            Err(e) => OutcomeModel::NotRead(reply.status, e@),
            Ok(bytes) => match parsed_json_bytes(bytes@) {
                None => OutcomeModel::NotJson(reply.status, bytes@),
                Some(j) => OutcomeModel::Replied(reply.status, j),
            },
        },
    }
}

/// What is said of a request that was not sent.
pub open spec fn not_sent_message(reason: Seq<char>) -> Seq<char> {
    "RAG service request failed: "@ + reason
}

/// What is said of a reply that is not JSON.
pub open spec fn not_json_message(reason: Seq<char>) -> Seq<char> {
    "RAG service returned a non-JSON response: "@ + reason
}

fn not_sent_text(reason: &str) -> (r: String)
    ensures
        r@ == not_sent_message(reason@),
{
    join("RAG service request failed: ", reason)
}

fn not_json_text(reason: &str) -> (r: String)
    ensures
        r@ == not_json_message(reason@),
{
    join("RAG service returned a non-JSON response: ", reason)
}

/// What is answered where a query was asked or a document handed over: the
/// service's JSON, or a bad gateway, with the service's own body where that is
/// JSON. A body that is not JSON is complained of in the words that `reqwest`
/// has for one.
pub open spec fn posted(outcome: OutcomeModel) -> Result<JsonModel, ApiErrorModel> {
    match outcome {
        OutcomeModel::NotSent(e) => Err(api_error_model(502, not_sent_message(e))),
        OutcomeModel::NotRead(_, e) => Err(api_error_model(502, not_json_message(e))),
        OutcomeModel::NotJson(_, _) => Err(
            api_error_model(502, not_json_message("error decoding response body"@)),
        ),
        OutcomeModel::Replied(status, body) => if is_success(status) {
            Ok(body)
        } else {
            Err(ApiErrorModel { status: 502, body })
        },
    }
}

/// The answer to a post whose reply has this status and this JSON body.
pub fn relay_posted(status: u16, body: Json) -> (r: Result<Json, ApiError>)
    ensures
        answer_model(r) == posted(OutcomeModel::Replied(status, body@)),
{
    if 200 <= status && status < 300 {
        Ok(body)
    } else {
        Err(ApiError { status: 502, body })
    }
}

/// The answer to a query or to a document handed over, given what came of the
/// request.
pub fn rag_post_answer(sent: Result<ServiceReply, String>) -> (r: Result<Json, ApiError>)
    ensures
        answer_model(r) == posted(outcome_model(sent)),
{
    let reply = match sent {
        Ok(reply) => reply,
        Err(e) => {
            return Err(api_error(502, not_sent_text(e.as_str()).as_str()));
        },
    };
    match reply.body {
        Err(e) => Err(api_error(502, not_json_text(e.as_str()).as_str())),
        Ok(bytes) => match parse_json_bytes(&bytes) {
            None => Err(api_error(502, not_json_text("error decoding response body").as_str())),
            Some(body) => relay_posted(reply.status, body),
        },
    }
}

/// The body of an error that is passed on: JSON, or whatever bytes the service
/// sent.
#[derive(Debug, PartialEq)]
pub enum ErrorBody {
    Json(Json),
    Raw(Vec<u8>),
}

/// An error that is passed on: its status and its body.
#[derive(Debug, PartialEq)]
pub struct ServiceError {
    pub status: u16,
    pub body: ErrorBody,
}

pub enum ErrorBodyModel {
    Json(JsonModel),
    Raw(Seq<u8>),
}

pub struct ServiceErrorModel {
    pub status: u16,
    pub body: ErrorBodyModel,
}

impl View for ErrorBody {
    type V = ErrorBodyModel;

    open spec fn view(&self) -> ErrorBodyModel {
        match self {
            ErrorBody::Json(j) => ErrorBodyModel::Json(j@),
            ErrorBody::Raw(bytes) => ErrorBodyModel::Raw(bytes@),
        }
    }
}

impl View for ServiceError {
    type V = ServiceErrorModel;

    open spec fn view(&self) -> ServiceErrorModel {
        ServiceErrorModel { status: self.status, body: self.body@ }
    }
}

/// The answer to a request for documents, in terms of models.
pub open spec fn documents_model(r: Result<Json, ServiceError>) -> Result<
    JsonModel,
    ServiceErrorModel,
> {
    match r {
        Ok(j) => Ok(j@),
        Err(e) => Err(e@),
    }
}

/// An error of this status with a body that holds `message` alone.
pub open spec fn own_error(status: u16, message: Seq<char>) -> ServiceErrorModel {
    ServiceErrorModel { status, body: ErrorBodyModel::Json(api_error_model(status, message).body) }
}

/// The status of a complaint about a reply: the service's own where that is an
/// error, else a bad gateway.
pub open spec fn error_status(status: u16) -> u16 {
    if is_success(status) {
        502
    } else {
        status
    }
}

/// What a request for documents is answered: the service's JSON, or the error
/// that it returned, as it is, JSON or not. A success that is not JSON, and a
/// service that cannot be reached, are a bad gateway.
pub open spec fn fetched(outcome: OutcomeModel) -> Result<JsonModel, ServiceErrorModel> {
    match outcome {
        OutcomeModel::NotSent(e) => Err(own_error(502, not_sent_message(e))),
        OutcomeModel::NotRead(status, e) => Err(
            own_error(error_status(status), not_json_message(e)),
        ),
        OutcomeModel::NotJson(status, bytes) => if is_success(status) {
            Err(own_error(502, not_json_message("error decoding response body"@)))
        } else {
            Err(ServiceErrorModel { status, body: ErrorBodyModel::Raw(bytes) })
        },
        OutcomeModel::Replied(status, body) => if is_success(status) {
            Ok(body)
        } else {
            Err(ServiceErrorModel { status, body: ErrorBodyModel::Json(body) })
        },
    }
}

fn own_service_error(status: u16, message: &str) -> (r: ServiceError)
    ensures
        r@ == own_error(status, message@),
{
    ServiceError { status, body: ErrorBody::Json(api_error(status, message).body) }
}

/// The answer to a request for documents whose reply has this status and these
/// bytes, which stand for `parsed` if they are JSON.
pub fn relay_fetched(status: u16, bytes: Vec<u8>, parsed: Option<Json>) -> (r: Result<
    Json,
    ServiceError,
>)
    ensures
        documents_model(r) == fetched(
            match parsed {
                Some(j) => OutcomeModel::Replied(status, j@),
                None => OutcomeModel::NotJson(status, bytes@),
            },
        ),
{
    let success = 200 <= status && status < 300;
    match parsed {
        Some(body) => if success {
            Ok(body)
        } else {
            Err(ServiceError { status, body: ErrorBody::Json(body) })
        },
        None => if success {
            Err(
                own_service_error(
                    502,
                    not_json_text("error decoding response body").as_str(),
                ),
            )
        } else {
            Err(ServiceError { status, body: ErrorBody::Raw(bytes) })
        },
    }
}

/// The answer to a request for documents, given what came of the request. Not
/// every service keeps documents: whatever error it returns is passed on as it
/// is.
pub fn rag_service_get(sent: Result<ServiceReply, String>) -> (r: Result<Json, ServiceError>)
    ensures
        documents_model(r) == fetched(outcome_model(sent)),
{
    let reply = match sent {
        Ok(reply) => reply,
        Err(e) => {
            return Err(own_service_error(502, not_sent_text(e.as_str()).as_str()));
        },
    };
    match reply.body {
        Err(e) => {
            let status: u16 = if 200 <= reply.status && reply.status < 300 {
                502
            } else {
                reply.status
            };
            Err(own_service_error(status, not_json_text(e.as_str()).as_str()))
        },
        Ok(bytes) => {
            let parsed = parse_json_bytes(&bytes);
            relay_fetched(reply.status, bytes, parsed)
        },
    }
}

/// The tool with which a model asks the service for context. It decides to
/// call it; nothing is put into a conversation by itself.
pub fn build_rag_query_tool() -> (r: ToolSpec)
    ensures
        r@ == tool_model(
            "rag_query"@,
            "RAG Query"@,
            "Query the configured RAG (retrieval-augmented generation) service for context relevant to a question — e.g. from an internal knowledge base or document store. Only performs a real retrieval when a RAG service has been configured server-side; otherwise says so plainly instead of making anything up."@,
            "query"@,
            "The question or search query to retrieve relevant context for."@,
        ),
{
    one_text_tool(
        "rag_query",
        "RAG Query",
        "Query the configured RAG (retrieval-augmented generation) service for context relevant to a question — e.g. from an internal knowledge base or document store. Only performs a real retrieval when a RAG service has been configured server-side; otherwise says so plainly instead of making anything up.",
        "query",
        "The question or search query to retrieve relevant context for.",
    )
}

/// What a call of the tool starts with.
#[derive(Debug, PartialEq)]
pub enum ToolStep {
    /// Answer with this text; nothing was retrieved.
    Say(String),
    /// Make this request.
    Ask(ServiceRequest),
}

pub enum ToolStepModel {
    Say(Seq<char>),
    Ask(ServiceRequestModel),
}

pub open spec fn tool_step_model(r: Result<ToolStep, String>) -> Result<ToolStepModel, Seq<char>> {
    match r {
        Ok(ToolStep::Say(s)) => Ok(ToolStepModel::Say(s@)),
        Ok(ToolStep::Ask(q)) => Ok(ToolStepModel::Ask(q@)),
        Err(e) => Err(e@),
    }
}

/// What a call of the tool with `args` starts with.
pub open spec fn tool_call_model(
    args: JsonModel,
    url: Option<Seq<char>>,
    key: Option<Seq<char>>,
) -> Result<ToolStepModel, Seq<char>> {
    match argument_model(args, "query"@, "missing required 'query' argument"@) {
        Err(e) => Err(e),
        Ok(query) => match url {
            None => Ok(
                ToolStepModel::Say(
                    "RAG service is not configured on this bridge (RAG_SERVICE_URL is unset) — no real retrieval was performed, this is not fabricated context. Set RAG_SERVICE_URL to a real endpoint to enable this tool for real."@,
                ),
            ),
            Some(u) => Ok(ToolStepModel::Ask(post_model(u, key, "/query"@, query_body(query)))),
        },
    }
}

/// What a call of the tool with `args` starts with. Without a service it says
/// so: no retrieved text is made up.
pub fn rag_tool_call(args: &Json, url: Option<&str>, key: Option<&str>) -> (r: Result<
    ToolStep,
    String,
>)
    ensures
        tool_step_model(r) == tool_call_model(args@, opt_text(url), opt_text(key)),
{
    match text_argument(args, "query", "missing required 'query' argument") {
        Err(e) => Err(e),
        Ok(query) => match url {
            None => Ok(
                ToolStep::Say(
                    "RAG service is not configured on this bridge (RAG_SERVICE_URL is unset) — no real retrieval was performed, this is not fabricated context. Set RAG_SERVICE_URL to a real endpoint to enable this tool for real.".to_owned(),
                ),
            ),
            Some(u) => Ok(ToolStep::Ask(query_request(u, key, query.as_str()))),
        },
    }
}

/// A status that HTTP knows: three digits.
pub open spec fn is_status(status: u16) -> bool {
    100 <= status <= 999
}

/// The words that `reqwest::StatusCode` has for a status.
pub uninterp spec fn reason_phrase(status: u16) -> Seq<char>;

/// `Display` of `reqwest::StatusCode`, made with `from_u16`: the number, a
/// space, and the words for it. The words are left to the name. `from_u16`
/// accepts exactly the numbers of three digits.
#[verifier::external_body]
fn status_text(status: u16) -> (r: String)
    requires
        is_status(status),
    ensures
        r@ == decimal_model(status as nat) + " "@ + reason_phrase(status),
{
    reqwest::StatusCode::from_u16(status).unwrap().to_string()
}

/// What to tell the model where the service did not answer the tool's request
/// at `url` with success.
pub open spec fn tool_sent_model(url: Seq<char>, sent: Result<u16, Seq<char>>) -> Result<
    (),
    Seq<char>,
> {
    match sent {
        Err(e) => Err("RAG service request to "@ + url + " failed: "@ + e),
        Ok(status) => if is_success(status) {
            Ok(())
        } else {
            Err(
                "RAG service returned HTTP "@ + (decimal_model(status as nat) + " "@
                    + reason_phrase(status)),
            )
        },
    }
}

/// Whether the service answered the tool's request at `url`: nothing where it
/// did, else what to tell the model.
pub fn rag_tool_sent(url: &str, sent: Result<u16, String>) -> (r: Result<(), String>)
    requires
        sent matches Ok(status) ==> is_status(status),
    ensures
        (match r {
            Ok(()) => Ok(()),
            Err(m) => Err(m@),
        }) == tool_sent_model(
            url@,
            match sent {
                Ok(status) => Ok(status),
                Err(e) => Err(e@),
            },
        ),
{
    match sent {
        Err(e) => {
            let mut m = join("RAG service request to ", url);
            m.append(" failed: ");
            m.append(e.as_str());
            Err(m)
        },
        Ok(status) => if 200 <= status && status < 300 {
            Ok(())
        } else {
            Err(join("RAG service returned HTTP ", status_text(status).as_str()))
        },
    }
}

/// What the tool answers, given the body of the service's reply, or why that
/// could not be read.
pub open spec fn tool_answer_model(body: Result<Vec<u8>, String>) -> Result<
    Seq<char>,
    Seq<char>,
> {
    match body {
        Err(e) => Err("RAG service returned a non-JSON or unexpected response: "@ + e@),
        Ok(bytes) => match parsed_json_bytes(bytes@) {
            None => Err(
                "RAG service returned a non-JSON or unexpected response: "@
                    + "error decoding response body"@,
            ),
            Some(j) => Ok(json_text_model(j)),
        },
    }
}

/// What the tool answers, given the body of the service's reply, or why that
/// could not be read: the JSON as text.
pub fn rag_tool_answer(body: Result<Vec<u8>, String>) -> (r: Result<String, String>)
    ensures
        text_result(r) == tool_answer_model(body),
{
    match body {
        Err(e) => Err(
            join("RAG service returned a non-JSON or unexpected response: ", e.as_str()),
        ),
        Ok(bytes) => match parse_json_bytes(&bytes) {
            None => Err(
                join(
                    "RAG service returned a non-JSON or unexpected response: ",
                    "error decoding response body",
                ),
            ),
            Some(j) => Ok(json_text(&j)),
        },
    }
}

/// The service's key is sent with every request if there is one, and never
/// otherwise; requests go to the configured address and nowhere else.
pub proof fn law_requests_go_to_the_service(
    url: Seq<char>,
    key: Option<Seq<char>>,
    path: Seq<char>,
    body: JsonModel,
)
    ensures
        post_model(url, key, path, body).bearer == key,
        get_model(url, key, path).bearer == key,
        url.is_prefix_of(post_model(url, key, path, body).url),
        url.is_prefix_of(get_model(url, key, path).url),
{
    assert(url =~= (url + path).take(url.len() as int));
}

/// A post succeeds exactly when the service replied with success and JSON, and
/// then the service's own JSON is the answer, unchanged; all else is a bad
/// gateway.
pub proof fn law_only_successful_json_is_passed_on(outcome: OutcomeModel)
    ensures
        match posted(outcome) {
            Ok(body) => exists|status: u16|
                is_success(status) && outcome == OutcomeModel::Replied(status, body),
            Err(e) => {
                &&& e.status == 502
                &&& forall|status: u16, body: JsonModel|
                    outcome == OutcomeModel::Replied(status, body) ==> !is_success(status)
                        && e.body == body
            },
        },
{
    match outcome {
        OutcomeModel::Replied(status, body) => {
            assert(is_success(status) || !is_success(status));
        },
        _ => {},
    }
}

/// A request for documents succeeds exactly when the service replied with
/// success and JSON, and then the service's own JSON is the answer; a failure
/// is never told as a success.
pub proof fn law_documents_come_from_the_service(outcome: OutcomeModel)
    ensures
        match fetched(outcome) {
            Ok(body) => exists|status: u16|
                is_success(status) && outcome == OutcomeModel::Replied(status, body),
            Err(e) => {
                &&& !is_success(e.status)
                &&& forall|status: u16, body: JsonModel|
                    outcome == OutcomeModel::Replied(status, body) ==> !is_success(status)
            },
        },
{
    match outcome {
        OutcomeModel::Replied(status, body) => {
            assert(is_success(status) || !is_success(status));
        },
        _ => {},
    }
}

/// Whatever error the service returns to a request for documents is passed on
/// as it is: its status, and its body, JSON or not.
pub proof fn law_service_errors_are_passed_on(status: u16, body: JsonModel, bytes: Seq<u8>)
    requires
        !is_success(status),
    ensures
        fetched(OutcomeModel::Replied(status, body)) == Err::<JsonModel, ServiceErrorModel>(
            ServiceErrorModel { status, body: ErrorBodyModel::Json(body) },
        ),
        fetched(OutcomeModel::NotJson(status, bytes)) == Err::<JsonModel, ServiceErrorModel>(
            ServiceErrorModel { status, body: ErrorBodyModel::Raw(bytes) },
        ),
{
}

/// Two documents are asked for at two addresses, as the addresses are written.
/// A client that resolves the segments `.` and `..` before it sends a request
/// takes the ids `.` and `..` elsewhere.
pub proof fn law_documents_have_their_own_address(a: Seq<char>, b: Seq<char>)
    requires
        document_path(a) == document_path(b),
    ensures
        a == b,
{
    let n = "/documents/"@.len() as int;
    let x = encode_model(encode_utf8(a));
    let y = encode_model(encode_utf8(b));
    assert(x =~= document_path(a).skip(n));
    assert(y =~= document_path(b).skip(n));
    law_encoding_tells_texts_apart(a, b);
}

/// A query is posted to the service's own address with the question as it was
/// asked, and nothing else in the body; the key goes along exactly where there
/// is one.
pub proof fn law_a_query_is_asked_as_it_is(
    url: Seq<char>,
    key: Option<Seq<char>>,
    query: Seq<char>,
)
    ensures
        service_url_model(Some(url)) == Ok::<Seq<char>, ApiErrorModel>(url),
        query_model(Some(url), key, query) is Ok,
        ({
            let request = query_model(Some(url), key, query)->Ok_0;
            &&& request.method == Method::Post
            &&& request.url == url + "/query"@
            &&& request.bearer == key
            &&& request.body is Some
            &&& (request.body->0).text_member("query"@) == Some(query)
            &&& forall|k: Seq<char>| (request.body->0).member(k) is Some ==> k == "query"@
        }),
{
}

/// A document is handed over whole: whatever its length, the text that is
/// posted is the document's text, and nothing else goes with it but its name.
pub proof fn law_a_document_is_handed_over_whole(
    url: Seq<char>,
    key: Option<Seq<char>>,
    path: Seq<char>,
    id: Option<Seq<char>>,
    text: Seq<char>,
)
    ensures
        ingest_model(Some(url), key, path, id, Ok(text)) is Ok,
        ({
            let request = ingest_model(Some(url), key, path, id, Ok(text))->Ok_0;
            &&& request.method == Method::Post
            &&& request.url == url + "/ingest"@
            &&& request.bearer == key
            &&& request.body is Some
            &&& (request.body->0).text_member("text"@) == Some(text)
            &&& (request.body->0).text_member("id"@) == match id {
                Some(given) => Some(given),
                None => match file_name_model(path) {
                    Some(name) => Some(name),
                    None => Some(path),
                },
            }
            &&& forall|k: Seq<char>|
                (request.body->0).member(k) is Some ==> k == "text"@ || k == "id"@
        }),
{
    reveal_strlit("text");
    reveal_strlit("id");
    assert("text"@.len() != "id"@.len());
}

/// A document that could not be read is a bad request, and the reason is told
/// as it is.
pub proof fn law_an_unreadable_document_is_refused(
    url: Seq<char>,
    key: Option<Seq<char>>,
    path: Seq<char>,
    id: Option<Seq<char>>,
    reason: Seq<char>,
)
    ensures
        ingest_model(Some(url), key, path, id, Err(reason)) is Err,
        ingest_model(Some(url), key, path, id, Err(reason))->Err_0.status == 400,
        ingest_model(Some(url), key, path, id, Err(reason))->Err_0.body.text_member("error"@)
            == Some(reason),
{
}

/// The documents are asked for under the service's own address, one of them by
/// its encoded name, with the key exactly where there is one.
pub proof fn law_documents_are_asked_of_the_service(
    url: Seq<char>,
    key: Option<Seq<char>>,
    id: Seq<char>,
)
    ensures
        documents_request_model(Some(url), key) is Ok,
        ({
            let request = documents_request_model(Some(url), key)->Ok_0;
            &&& request.method == Method::Get
            &&& request.url == url + "/documents"@
            &&& request.bearer == key
            &&& request.body is None
        }),
        document_request_model(Some(url), key, id) is Ok,
        ({
            let request = document_request_model(Some(url), key, id)->Ok_0;
            &&& request.method == Method::Get
            &&& request.url == url + "/documents/"@ + encode_model(encode_utf8(id))
            &&& request.bearer == key
            &&& request.body is None
        }),
{
    assert(url + ("/documents/"@ + encode_model(encode_utf8(id))) =~= url + "/documents/"@
        + encode_model(encode_utf8(id)));
}

/// Without a service nothing is asked of one: every request is answered that it
/// is unavailable, whatever it is about.
pub proof fn law_without_a_service_nothing_is_asked(
    key: Option<Seq<char>>,
    query: Seq<char>,
    path: Seq<char>,
    id: Option<Seq<char>>,
    text: Result<Seq<char>, Seq<char>>,
)
    ensures
        query_model(None, key, query) is Err,
        query_model(None, key, query)->Err_0.status == 503,
        query_model(None, key, query)->Err_0.body.text_member("error"@) == Some(
            "RAG_SERVICE_URL is not configured on this bridge"@,
        ),
        ingest_model(None, key, path, id, text) == query_model(None, key, query),
        documents_request_model(None, key) == query_model(None, key, query),
        document_request_model(None, key, path) == query_model(None, key, query),
        not_configured() == query_model(None, key, query)->Err_0,
        service_url_model(None) == Err::<Seq<char>, ApiErrorModel>(not_configured()),
{
}

/// What a reply to a post is answered, for every status and every body. JSON
/// with a success is the answer as it is; JSON with any other status is a bad
/// gateway with the service's own body; what is not JSON, or could not be read
/// or sent, is a bad gateway that says so.
pub proof fn law_posts_are_answered_by_the_reply(
    status: u16,
    bytes: Vec<u8>,
    reason: String,
    body: JsonModel,
)
    ensures
        ({
            let answer = posted(outcome_model(Ok(ServiceReply { status, body: Ok(bytes) })));
            match parsed_json_bytes(bytes@) {
                Some(j) => if 200 <= status <= 299 {
                    answer == Ok::<JsonModel, ApiErrorModel>(j)
                } else {
                    answer == Err::<JsonModel, ApiErrorModel>(
                        ApiErrorModel { status: 502, body: j },
                    )
                },
                None => {
                    &&& answer is Err
                    &&& answer->Err_0.status == 502
                    &&& answer->Err_0.body.text_member("error"@) == Some(
                        "RAG service returned a non-JSON response: "@
                            + "error decoding response body"@,
                    )
                },
            }
        }),
        ({
            let answer = posted(outcome_model(Ok(ServiceReply { status, body: Err(reason) })));
            &&& answer is Err
            &&& answer->Err_0.status == 502
            &&& answer->Err_0.body.text_member("error"@) == Some(
                "RAG service returned a non-JSON response: "@ + reason@,
            )
        }),
        ({
            let answer = posted(outcome_model(Err(reason)));
            &&& answer is Err
            &&& answer->Err_0.status == 502
            &&& answer->Err_0.body.text_member("error"@) == Some(
                "RAG service request failed: "@ + reason@,
            )
        }),
        200 <= status <= 299 ==> posted(OutcomeModel::Replied(status, body)) == Ok::<
            JsonModel,
            ApiErrorModel,
        >(body),
        !(200 <= status <= 299) ==> posted(OutcomeModel::Replied(status, body)) == Err::<
            JsonModel,
            ApiErrorModel,
        >(ApiErrorModel { status: 502, body }),
{
}

/// What a reply to a request for documents is answered, for every status and
/// every body. JSON with a success is the answer as it is; any other status is
/// passed on, with the very body that came with it; a success that is not JSON,
/// and a service that cannot be reached, are a bad gateway that says so.
pub proof fn law_documents_are_answered_by_the_reply(status: u16, bytes: Vec<u8>, reason: String)
    ensures
        ({
            let answer = fetched(outcome_model(Ok(ServiceReply { status, body: Ok(bytes) })));
            match parsed_json_bytes(bytes@) {
                Some(j) => if 200 <= status <= 299 {
                    answer == Ok::<JsonModel, ServiceErrorModel>(j)
                } else {
                    &&& answer is Err
                    &&& answer->Err_0.status == status
                    &&& answer->Err_0.body == ErrorBodyModel::Json(j)
                },
                None => if 200 <= status <= 299 {
                    &&& answer is Err
                    &&& answer->Err_0.status == 502
                    &&& answer->Err_0.body matches ErrorBodyModel::Json(e)
                    &&& e.text_member("error"@) == Some(
                        "RAG service returned a non-JSON response: "@
                            + "error decoding response body"@,
                    )
                } else {
                    &&& answer is Err
                    &&& answer->Err_0.status == status
                    &&& answer->Err_0.body == ErrorBodyModel::Raw(bytes@)
                },
            }
        }),
        ({
            let answer = fetched(outcome_model(Ok(ServiceReply { status, body: Err(reason) })));
            &&& answer is Err
            &&& 200 <= status <= 299 ==> answer->Err_0.status == 502
            &&& !(200 <= status <= 299) ==> answer->Err_0.status == status
            &&& answer->Err_0.body matches ErrorBodyModel::Json(e)
            &&& e.text_member("error"@) == Some(
                "RAG service returned a non-JSON response: "@ + reason@,
            )
        }),
        ({
            let answer = fetched(outcome_model(Err(reason)));
            &&& answer is Err
            &&& answer->Err_0.status == 502
            &&& answer->Err_0.body matches ErrorBodyModel::Json(e)
            &&& e.text_member("error"@) == Some("RAG service request failed: "@ + reason@)
        }),
{
}

/// The model's own query is the query that is asked: with a service the tool
/// makes the very request that the endpoint makes for it; without one it asks
/// nothing and says so; without a query it does neither.
pub proof fn law_the_tool_asks_what_the_model_asked(
    args: JsonModel,
    url: Seq<char>,
    key: Option<Seq<char>>,
    query: Seq<char>,
)
    ensures
        args.member("query"@) == Some(JsonModel::Text(query)) ==> {
            &&& tool_call_model(args, Some(url), key) == Ok::<ToolStepModel, Seq<char>>(
                ToolStepModel::Ask(query_model(Some(url), key, query)->Ok_0),
            )
            &&& tool_call_model(args, None, key) is Ok
            &&& tool_call_model(args, None, key)->Ok_0 is Say
        },
        args.member("query"@) is None || !(args.member("query"@)->0 is Text) ==> {
            &&& tool_call_model(args, Some(url), key) == Err::<ToolStepModel, Seq<char>>(
                "missing required 'query' argument"@,
            )
            &&& tool_call_model(args, None, key) == Err::<ToolStepModel, Seq<char>>(
                "missing required 'query' argument"@,
            )
        },
{
}

/// The tool goes on exactly where the service replied with success; else the
/// model is told the status, or where and why the request failed.
pub proof fn law_the_tool_tells_of_failures(url: Seq<char>, status: u16, reason: Seq<char>)
    ensures
        200 <= status <= 299 <==> tool_sent_model(url, Ok(status)) is Ok,
        !(200 <= status <= 299) ==> tool_sent_model(url, Ok(status))->Err_0
            == "RAG service returned HTTP "@ + decimal_model(status as nat) + " "@ + reason_phrase(
            status,
        ),
        tool_sent_model(url, Err(reason)) == Err::<(), Seq<char>>(
            "RAG service request to "@ + url + " failed: "@ + reason,
        ),
{
    assert("RAG service returned HTTP "@ + (decimal_model(status as nat) + " "@ + reason_phrase(
        status,
    )) =~= "RAG service returned HTTP "@ + decimal_model(status as nat) + " "@ + reason_phrase(
        status,
    ));
}

/// The tool answers with the service's JSON, all of it, and with an error where
/// there is none.
pub proof fn law_the_tool_answers_with_the_reply(bytes: Vec<u8>, reason: String)
    ensures
        match parsed_json_bytes(bytes@) {
            Some(j) => tool_answer_model(Ok(bytes)) == Ok::<Seq<char>, Seq<char>>(
                json_text_model(j),
            ),
            None => tool_answer_model(Ok(bytes)) is Err,
        },
        tool_answer_model(Err(reason)) == Err::<Seq<char>, Seq<char>>(
            "RAG service returned a non-JSON or unexpected response: "@ + reason@,
        ),
{
}

/// Nothing of a request, or of an error that is passed on, is left out of what
/// is said of it.
pub proof fn law_requests_are_told_apart(
    a: ServiceRequest,
    b: ServiceRequest,
    x: ServiceError,
    y: ServiceError,
    e: ApiError,
    j: Json,
    s: String,
)
    ensures
        a@ == b@ ==> {
            &&& a.method == b.method
            &&& a.url@ == b.url@
            &&& a.body is Some <==> b.body is Some
            &&& a.body is Some ==> (a.body->0)@ == (b.body->0)@
            &&& a.bearer is Some <==> b.bearer is Some
            &&& a.bearer is Some ==> (a.bearer->0)@ == (b.bearer->0)@
        },
        x@ == y@ ==> x.status == y.status && match (x.body, y.body) {
            (ErrorBody::Json(p), ErrorBody::Json(q)) => p@ == q@,
            (ErrorBody::Raw(p), ErrorBody::Raw(q)) => p@ == q@,
            _ => false,
        },
        request_model(Ok(a)) == Ok::<ServiceRequestModel, ApiErrorModel>(a@),
        request_model(Err(e)) == Err::<ServiceRequestModel, ApiErrorModel>(e@),
        documents_model(Ok(j)) == Ok::<JsonModel, ServiceErrorModel>(j@),
        documents_model(Err(x)) == Err::<JsonModel, ServiceErrorModel>(x@),
        tool_step_model(Ok(ToolStep::Ask(a))) == Ok::<ToolStepModel, Seq<char>>(
            ToolStepModel::Ask(a@),
        ),
        tool_step_model(Ok(ToolStep::Say(s))) == Ok::<ToolStepModel, Seq<char>>(
            ToolStepModel::Say(s@),
        ),
        tool_step_model(Err(s)) == Err::<ToolStepModel, Seq<char>>(s@),
{
}

} // verus!
