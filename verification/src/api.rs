//! The replies of the backend's HTTP interface: the envelope every answer is wrapped in
//! and the messages of the model endpoints.
use vstd::prelude::*;
use crate::ids::{is_uuid_text, lemma_uuid_prefix, new_id};
use crate::text::{concat, decimal, decimal_string};

verus! {

#[verifier::external_type_specification]
#[verifier::external_body]
pub struct ExJsonValue(serde_json::Value);

/// The envelope of an answer: `status` is `success` or `error`, `message` says what
/// happened, and `data`, when present, is the JSON payload.
pub struct ApiResponse {
    pub status: String,
    pub message: String,
    pub data: Option<serde_json::Value>,
}

impl ApiResponse {
    /// A successful answer.
    pub fn success(message: &str, data: Option<serde_json::Value>) -> (r: ApiResponse)
        ensures
            r.status@ == "success"@,
            r.message@ == message@,
            r.data == data,
    {
        ApiResponse { status: "success".to_string(), message: message.to_string(), data }
    }

    /// A refusal, which carries no payload.
    pub fn error(message: &str) -> (r: ApiResponse)
        ensures
            r.status@ == "error"@,
            r.message@ == message@,
            r.data is None,
    {
        ApiResponse { status: "error".to_string(), message: message.to_string(), data: None }
    }
}

/// The answer to a health check.
pub fn health() -> (r: ApiResponse)
    ensures
        r.status@ == "success"@,
        r.message@ == "Backend is healthy"@,
        r.data is None,
{
    ApiResponse::success("Backend is healthy", None)
}

/// The answer for a model id that names no model: 404, `Model not found`.
pub fn model_not_found() -> (r: (u16, ApiResponse))
    ensures
        r.0 == 404,
        r.1.status@ == "error"@,
        r.1.message@ == "Model not found"@,
        r.1.data is None,
{
    (404, ApiResponse::error("Model not found"))
}

/// The value of the `Content-Security-Policy` header.
pub open spec fn csp_policy() -> Seq<char> {
    "default-src 'self'; script-src 'self' 'unsafe-inline'; style-src 'self' 'unsafe-inline'; img-src 'self' data: https:; connect-src 'self' ws: wss:; font-src 'self' data:;"@
}

/// The security headers set on every response, as name and value, in the order they are set.
pub fn security_headers() -> (r: Vec<(String, String)>)
    ensures
        r.len() == 6,
        r[0].0@ == "X-Content-Type-Options"@ && r[0].1@ == "nosniff"@,
        r[1].0@ == "X-Frame-Options"@ && r[1].1@ == "DENY"@,
        r[2].0@ == "X-XSS-Protection"@ && r[2].1@ == "1; mode=block"@,
        r[3].0@ == "Referrer-Policy"@ && r[3].1@ == "strict-origin-when-cross-origin"@,
        r[4].0@ == "Permissions-Policy"@ && r[4].1@ == "geolocation=(), microphone=(), camera=()"@,
        r[5].0@ == "Content-Security-Policy"@ && r[5].1@ == csp_policy(),
{
    let mut r: Vec<(String, String)> = Vec::new();
    r.push(("X-Content-Type-Options".to_string(), "nosniff".to_string()));
    r.push(("X-Frame-Options".to_string(), "DENY".to_string()));
    r.push(("X-XSS-Protection".to_string(), "1; mode=block".to_string()));
    r.push(("Referrer-Policy".to_string(), "strict-origin-when-cross-origin".to_string()));
    r.push(("Permissions-Policy".to_string(), "geolocation=(), microphone=(), camera=()".to_string()));
    r.push(
        (
            "Content-Security-Policy".to_string(),
            "default-src 'self'; script-src 'self' 'unsafe-inline'; style-src 'self' 'unsafe-inline'; img-src 'self' data: https:; connect-src 'self' ws: wss:; font-src 'self' data:;".to_string(),
        ),
    );
    r
}

/// What a call to the dataset service came to.
pub enum ServiceOutcome {
    /// The service could not be reached; the error text.
    Unreachable(String),
    /// The service answered with a status other than success.
    Failed,
    /// The answer could not be read; the error text.
    Unreadable(String),
    /// The answer, as JSON.
    Answered(serde_json::Value),
}

/// The reply to a call to the dataset service: 200 with the service's answer and
/// `success_message`, or 500 with what went wrong.
pub fn service_reply(outcome: ServiceOutcome, success_message: &str) -> (r: (u16, ApiResponse))
    ensures
        match outcome {
            ServiceOutcome::Unreachable(e) => r.0 == 500 && r.1.status@ == "error"@ && r.1.message@
                == "Failed to connect to Python service: "@ + e@ && r.1.data is None,
            ServiceOutcome::Failed => r.0 == 500 && r.1.status@ == "error"@ && r.1.message@
                == "Python service error"@ && r.1.data is None,
            ServiceOutcome::Unreadable(e) => r.0 == 500 && r.1.status@ == "error"@ && r.1.message@
                == "Failed to parse response: "@ + e@ && r.1.data is None,
            ServiceOutcome::Answered(v) => r.0 == 200 && r.1.status@ == "success"@ && r.1.message@
                == success_message@ && r.1.data == Some(v),
        },
{
    match outcome {
        ServiceOutcome::Unreachable(e) => {
            let m = concat("Failed to connect to Python service: ", e.as_str());
            (500, ApiResponse::error(m.as_str()))
        },
        ServiceOutcome::Failed => (500, ApiResponse::error("Python service error")),
        ServiceOutcome::Unreadable(e) => {
            let m = concat("Failed to parse response: ", e.as_str());
            (500, ApiResponse::error(m.as_str()))
        },
        ServiceOutcome::Answered(v) => (200, ApiResponse::success(success_message, Some(v))),
    }
}

/// The first 8 bytes of `s`, as characters.
pub open spec fn short_id(s: Seq<char>) -> Seq<char> {
    vstd::utf8::decode_utf8(vstd::utf8::encode_utf8(s).subrange(0, 8))
}

/// The message for a model just created under `model_id`.
pub fn model_created_message(model_id: &str) -> (m: String)
    requires
        vstd::utf8::is_char_boundary(vstd::utf8::encode_utf8(model_id@), 8),
    ensures
        m@ == "Model "@ + short_id(model_id@) + " created successfully"@,
{
    broadcast use vstd::utf8::group_utf8_lib;

    let (head, _) = model_id.split_at(8);
    proof {
        assert(vstd::utf8::decode_utf8(vstd::utf8::encode_utf8(head@)) == head@);
    }
    let a = concat("Model ", head);
    concat(a.as_str(), " created successfully")
}

/// A fresh id for a new model, with the message that announces it.
pub fn new_model_id() -> (r: (String, String))
    ensures
        is_uuid_text(r.0@),
        r.1@ == "Model "@ + short_id(r.0@) + " created successfully"@,
{
    let id = new_id();
    proof {
        lemma_uuid_prefix(id@);
    }
    let message = model_created_message(id.as_str());
    (id, message)
}

/// The message for a listing of `n` models.
pub fn models_found_message(n: u64) -> (m: String)
    ensures
        m@ == "Found "@ + decimal(n as nat) + " models"@,
{
    let d = decimal_string(n);
    let a = concat("Found ", d.as_str());
    concat(a.as_str(), " models")
}

/// The message for `n` models removed at once.
pub fn models_cleared_message(n: u64) -> (m: String)
    ensures
        m@ == "Cleared "@ + decimal(n as nat) + " models from memory"@,
{
    let d = decimal_string(n);
    let a = concat("Cleared ", d.as_str());
    concat(a.as_str(), " models from memory")
}

/// The reply to a deletion: 200 when a model was removed, else 404.
pub fn delete_reply(removed: bool) -> (r: (u16, ApiResponse))
    ensures
        removed ==> r.0 == 200 && r.1.status@ == "success"@ && r.1.message@ == "Model deleted successfully"@,
        !removed ==> r.0 == 404 && r.1.status@ == "error"@ && r.1.message@ == "Model not found"@,
        r.1.data is None,
{
    if removed {
        (200, ApiResponse::success("Model deleted successfully", None))
    } else {
        model_not_found()
    }
}

/// The message for a model configuration that was refused, with the refusal's text.
pub fn creation_failed_message(reason: &str, importing: bool) -> (m: String)
    ensures
        m@ == (if importing {
            "Model import failed: "@
        } else {
            "Model creation failed: "@
        }) + reason@,
{
    if importing {
        concat("Model import failed: ", reason)
    } else {
        concat("Model creation failed: ", reason)
    }
}

} // verus!
