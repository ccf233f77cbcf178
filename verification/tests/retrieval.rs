use loop_bridge::api::{api_error, ApiError};
use loop_bridge::encoding::urlencoding_encode;
use loop_bridge::json::{json_text, parse_json, parse_json_bytes, Json};
use loop_bridge::rag::{
    build_rag_query_tool, rag_document_handler, rag_documents_handler, rag_ingest_handler,
    rag_post_answer, rag_query_handler, rag_service_get, rag_service_url, rag_tool_answer,
    rag_tool_call, rag_tool_sent, relay_fetched, relay_posted, ErrorBody, Method, ServiceError,
    ServiceReply, ServiceRequest, ToolStep,
};

fn reply(status: u16, body: &str) -> Result<ServiceReply, String> {
    Ok(ServiceReply { status, body: Ok(body.as_bytes().to_vec()) })
}

fn unconfigured() -> ApiError {
    api_error(503, "RAG_SERVICE_URL is not configured on this bridge")
}

#[test]
fn encoding_keeps_plain_characters() {
    assert_eq!(urlencoding_encode("AZaz09-_.~"), "AZaz09-_.~");
    assert_eq!(urlencoding_encode(""), "");
}

#[test]
fn encoding_escapes_the_rest() {
    assert_eq!(urlencoding_encode("a b/c?d#e%f"), "a%20b%2Fc%3Fd%23e%25f");
    assert_eq!(urlencoding_encode("é"), "%C3%A9");
    assert_eq!(urlencoding_encode("\n\u{7f}"), "%0A%7F");
}

#[test]
fn encoding_tells_texts_apart() {
    assert_ne!(urlencoding_encode("a/b"), urlencoding_encode("a%2Fb"));
    assert_eq!(urlencoding_encode("a%2Fb"), "a%252Fb");
}

#[test]
fn queries_are_posted() {
    let r = rag_query_handler(Some("http://r"), Some("k"), "why?").unwrap();
    assert_eq!(
        r,
        ServiceRequest {
            method: Method::Post,
            url: "http://r/query".to_string(),
            body: Some(Json::object().with("query", Json::text_of("why?"))),
            bearer: Some("k".to_string()),
        }
    );
    assert_eq!(json_text(&r.body.unwrap()), "{\"query\":\"why?\"}");
    assert_eq!(rag_query_handler(Some("http://r"), None, "q").unwrap().bearer, None);
}

#[test]
fn nothing_is_asked_without_a_service() {
    assert_eq!(rag_query_handler(None, Some("k"), "q"), Err(unconfigured()));
    assert_eq!(rag_documents_handler(None, None), Err(unconfigured()));
    assert_eq!(rag_document_handler(None, None, "d"), Err(unconfigured()));
    assert_eq!(
        rag_ingest_handler(None, None, "p", None, Err("e".to_string())),
        Err(unconfigured())
    );
    assert_eq!(rag_service_url(None), Err(unconfigured()));
    assert_eq!(rag_service_url(Some("u")), Ok("u".to_string()));
}

#[test]
fn documents_are_handed_over_whole() {
    let r = rag_ingest_handler(Some("http://r"), None, "/d/a.txt", None, Ok("body".to_string()));
    let r = r.unwrap();
    assert_eq!(r.method, Method::Post);
    assert_eq!(r.url, "http://r/ingest");
    assert_eq!(json_text(&r.body.unwrap()), "{\"id\":\"a.txt\",\"text\":\"body\"}");
}

#[test]
fn documents_are_named() {
    let id = |path, id| {
        let r = rag_ingest_handler(Some("u"), None, path, id, Ok("t".to_string())).unwrap();
        r.body.unwrap().text_member("id").unwrap().to_string()
    };
    assert_eq!(id("/d/a.txt", Some("mine")), "mine");
    assert_eq!(id("/d/a.txt", None), "a.txt");
    assert_eq!(id("..", None), "..");
    assert_eq!(id("a/..", None), "a/..");
}

#[test]
fn unreadable_documents_are_a_bad_request() {
    assert_eq!(
        rag_ingest_handler(Some("u"), None, "p", None, Err("file not found: p".to_string())),
        Err(api_error(400, "file not found: p"))
    );
}

#[test]
fn documents_have_their_own_address() {
    let r = rag_document_handler(Some("http://r"), Some("k"), "my doc/1").unwrap();
    assert_eq!(r.method, Method::Get);
    assert_eq!(r.url, "http://r/documents/my%20doc%2F1");
    assert_eq!(r.body, None);
    assert_eq!(r.bearer, Some("k".to_string()));
    let all = rag_documents_handler(Some("http://r"), None).unwrap();
    assert_eq!(all.url, "http://r/documents");
}

#[test]
fn good_replies_are_passed_on() {
    let j = parse_json("{\"answer\":1}").unwrap();
    assert_eq!(rag_post_answer(reply(200, "{\"answer\":1}")), Ok(j));
    assert_eq!(rag_service_get(reply(299, "[]")), Ok(Json::Array(vec![])));
}

#[test]
fn refused_posts_are_a_bad_gateway() {
    let refused = || Err(ApiError { status: 502, body: Json::text_of("no") });
    assert_eq!(rag_post_answer(reply(404, "\"no\"")), refused());
    assert_eq!(rag_post_answer(reply(300, "\"no\"")), refused());
    assert_eq!(relay_posted(199, Json::text_of("no")), refused());
}

#[test]
fn failed_posts_are_a_bad_gateway() {
    assert_eq!(
        rag_post_answer(Err("refused".to_string())),
        Err(api_error(502, "RAG service request failed: refused"))
    );
    assert_eq!(
        rag_post_answer(Ok(ServiceReply { status: 200, body: Err("cut off".to_string()) })),
        Err(api_error(502, "RAG service returned a non-JSON response: cut off"))
    );
    assert_eq!(
        rag_post_answer(reply(404, "<html>")),
        Err(api_error(
            502,
            "RAG service returned a non-JSON response: error decoding response body"
        ))
    );
}

#[test]
fn errors_about_documents_are_passed_on_as_they_are() {
    for status in [199, 300, 404, 500, 503] {
        assert_eq!(
            rag_service_get(reply(status, "\"no\"")),
            Err(ServiceError { status, body: ErrorBody::Json(Json::text_of("no")) })
        );
        assert_eq!(
            rag_service_get(reply(status, "<html>")),
            Err(ServiceError { status, body: ErrorBody::Raw(b"<html>".to_vec()) })
        );
    }
    assert_eq!(
        relay_fetched(404, vec![0xff], None),
        Err(ServiceError { status: 404, body: ErrorBody::Raw(vec![0xff]) })
    );
}

#[test]
fn failures_about_documents_are_told() {
    let own = |status, message: &str| {
        Err(ServiceError { status, body: ErrorBody::Json(api_error(status, message).body) })
    };
    assert_eq!(
        rag_service_get(Err("refused".to_string())),
        own(502, "RAG service request failed: refused")
    );
    let cut = |status| rag_service_get(Ok(ServiceReply { status, body: Err("cut".to_string()) }));
    assert_eq!(cut(200), own(502, "RAG service returned a non-JSON response: cut"));
    assert_eq!(cut(404), own(404, "RAG service returned a non-JSON response: cut"));
    assert_eq!(
        rag_service_get(reply(200, "<html>")),
        own(502, "RAG service returned a non-JSON response: error decoding response body")
    );
}

#[test]
fn bytes_are_read_as_json() {
    assert_eq!(parse_json_bytes(&b"[true]".to_vec()), Some(Json::Array(vec![Json::Bool(true)])));
    assert_eq!(parse_json_bytes(&vec![0xff]), None);
    assert_eq!(parse_json_bytes(&vec![]), None);
}

#[test]
fn rag_tool_is_announced() {
    let t = build_rag_query_tool();
    assert_eq!(t.name, "rag_query");
    assert_eq!(t.label, "RAG Query");
    assert!(t.description.starts_with("Query the configured RAG (retrieval-augmented generation)"));
    assert!(t.description.ends_with("otherwise says so plainly instead of making anything up."));
    assert_eq!(
        json_text(&t.parameters),
        "{\"properties\":{\"query\":{\"description\":\"The question or search query to retrieve \
         relevant context for.\",\"type\":\"string\"}},\"required\":[\"query\"],\
         \"type\":\"object\"}"
    );
}

#[test]
fn rag_tool_asks_the_service() {
    let args = parse_json("{\"query\":\"why?\"}").unwrap();
    let asked = rag_query_handler(Some("u"), Some("k"), "why?").unwrap();
    assert_eq!(rag_tool_call(&args, Some("u"), Some("k")), Ok(ToolStep::Ask(asked)));
}

#[test]
fn rag_tool_makes_nothing_up() {
    let args = parse_json("{\"query\":\"why?\"}").unwrap();
    assert_eq!(
        rag_tool_call(&args, None, None),
        Ok(ToolStep::Say(
            "RAG service is not configured on this bridge (RAG_SERVICE_URL is \
             unset) — no real retrieval was performed, this is not fabricated \
             context. Set RAG_SERVICE_URL to a real endpoint to enable this \
             tool for real."
                .to_string()
        ))
    );
    let missing = Err("missing required 'query' argument".to_string());
    assert_eq!(rag_tool_call(&Json::object(), None, None), missing);
    assert_eq!(rag_tool_call(&Json::object(), Some("u"), None), missing);
}

#[test]
fn rag_tool_tells_of_failures() {
    assert_eq!(rag_tool_sent("http://r", Ok(204)), Ok(()));
    assert_eq!(
        rag_tool_sent("http://r", Err("refused".to_string())),
        Err("RAG service request to http://r failed: refused".to_string())
    );
    assert_eq!(
        rag_tool_sent("http://r", Ok(404)),
        Err("RAG service returned HTTP 404 Not Found".to_string())
    );
    assert_eq!(
        rag_tool_sent("http://r", Ok(799)),
        Err("RAG service returned HTTP 799 <unknown status code>".to_string())
    );
}

#[test]
fn rag_tool_answers_with_the_reply() {
    assert_eq!(
        rag_tool_answer(Ok(b" {\"b\": 1, \"a\": [ ]} ".to_vec())),
        Ok("{\"a\":[],\"b\":1}".to_string())
    );
    assert_eq!(
        rag_tool_answer(Ok(b"x".to_vec())),
        Err("RAG service returned a non-JSON or unexpected response: \
             error decoding response body"
            .to_string())
    );
    assert_eq!(
        rag_tool_answer(Err("cut off".to_string())),
        Err("RAG service returned a non-JSON or unexpected response: cut off".to_string())
    );
}
