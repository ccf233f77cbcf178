//! Error replies.

use vstd::prelude::*;
use vstd::string::*;

use crate::json::{empty_object, Json, JsonModel};

verus! {

/// An error reply: its HTTP status and its body.
#[derive(Debug, PartialEq)]
pub struct ApiError {
    pub status: u16,
    pub body: Json,
}

pub struct ApiErrorModel {
    pub status: u16,
    pub body: JsonModel,
}

impl View for ApiError {
    type V = ApiErrorModel;

    open spec fn view(&self) -> ApiErrorModel {
        ApiErrorModel { status: self.status, body: self.body@ }
    }
}

/// The reply with this status and a body that holds `error` alone.
pub open spec fn api_error_model(status: u16, error: Seq<char>) -> ApiErrorModel {
    ApiErrorModel { status, body: empty_object().with("error"@, JsonModel::Text(error)) }
}

/// What a fallible answer is, in terms of models.
pub open spec fn answer_model(r: Result<Json, ApiError>) -> Result<JsonModel, ApiErrorModel> {
    match r {
        Ok(j) => Ok(j@),
        Err(e) => Err(e@),
    }
}

/// The reply with this status and a body that holds `error` alone.
pub fn api_error(status: u16, error: &str) -> (r: ApiError)
    ensures
        r@ == api_error_model(status, error@),
{
    ApiError { status, body: Json::object().with("error", Json::text_of(error)) }
}

/// The answer to a question after the bridge's health.
pub open spec fn health_model(session_id: Seq<char>) -> JsonModel {
    empty_object().with("status"@, JsonModel::Text("ok"@)).with(
        "session_id"@,
        JsonModel::Text(session_id),
    )
}

/// The answer to a question after the bridge's health: that it is well, and
/// the session it is in.
pub fn health(session_id: &str) -> (r: Json)
    ensures
        r@ == health_model(session_id@),
{
    Json::object().with("status", Json::text_of("ok")).with(
        "session_id",
        Json::text_of(session_id),
    )
}

/// An error reply has the status asked for and a body that says `error` and
/// nothing else.
pub proof fn law_an_error_says_its_error(status: u16, error: Seq<char>)
    ensures
        api_error_model(status, error).status == status,
        api_error_model(status, error).body.text_member("error"@) == Some(error),
        forall|k: Seq<char>|
            api_error_model(status, error).body.member(k) is Some ==> k == "error"@,
{
}

/// Nothing of a reply is left out of what is said of it: replies that are said
/// to be the same have the same status and the same body, and no error is said
/// to be a success.
pub proof fn law_replies_are_told_apart(a: ApiError, b: ApiError, j: Json, k: Json)
    ensures
        a@ == b@ ==> a.status == b.status && a.body@ == b.body@,
        answer_model(Err(a)) == answer_model(Err(b)) ==> a.status == b.status && a.body@ == b.body@,
        answer_model(Ok(j)) == answer_model(Ok(k)) ==> j@ == k@,
        answer_model(Ok(j)) is Ok,
        answer_model(Err(a)) is Err,
{
}

/// The bridge's health names the session, whichever it is, beside the word
/// that all is well.
pub proof fn law_health_names_the_session(session_id: Seq<char>)
    ensures
        health_model(session_id).text_member("session_id"@) == Some(session_id),
        health_model(session_id).text_member("status"@) == Some("ok"@),
        forall|k: Seq<char>|
            health_model(session_id).member(k) is Some ==> k == "session_id"@ || k == "status"@,
{
    reveal_strlit("session_id");
    reveal_strlit("status");
    assert("session_id"@.len() != "status"@.len());
}

} // verus!
