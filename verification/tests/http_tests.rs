use bismillah::api::{
    creation_failed_message, delete_reply, health, model_created_message, model_not_found,
    models_cleared_message, models_found_message, service_reply, ApiResponse, ServiceOutcome,
};
use bismillah::datasets::{curated_url, dataset_url, preview_url, python_service_url, search_url};

#[test]
fn service_address() {
    assert_eq!(python_service_url(None, None), "http://localhost:55322");
    assert_eq!(
        python_service_url(Some("py".to_string()), Some("9000".to_string())),
        "http://py:9000"
    );
}

#[test]
fn dataset_addresses() {
    let base = "http://localhost:55322";
    assert_eq!(curated_url(base), "http://localhost:55322/datasets/curated");
    assert_eq!(search_url(base, None, None), "http://localhost:55322/datasets/search");
    assert_eq!(
        search_url(base, Some("image net & co".to_string()), Some("20".to_string())),
        "http://localhost:55322/datasets/search?query=image%20net%20%26%20co&limit=20"
    );
    assert_eq!(
        search_url(base, None, Some("5".to_string())),
        "http://localhost:55322/datasets/search?limit=5"
    );
    assert_eq!(
        preview_url(base, "squad", Some("plain text".to_string()), Some("train".to_string()), Some("10".to_string())),
        "http://localhost:55322/datasets/squad/preview?config=plain%20text&split=train&sample_size=10"
    );
    assert_eq!(preview_url(base, "squad", None, None, None), "http://localhost:55322/datasets/squad/preview");
    assert_eq!(dataset_url(base, "squad", "download"), "http://localhost:55322/datasets/squad/download");
}

#[test]
fn encoding_keeps_unreserved_characters() {
    assert_eq!(
        search_url("b", Some("a-Z_0.~".to_string()), None),
        "b/datasets/search?query=a-Z_0.~"
    );
    assert_eq!(search_url("b", Some("é/".to_string()), None), "b/datasets/search?query=%C3%A9%2F");
}

#[test]
fn backend_envelopes() {
    let ok = ApiResponse::success("done", None);
    assert_eq!(ok.status, "success");
    assert_eq!(ok.message, "done");
    assert!(ok.data.is_none());
    let err = ApiResponse::error("nope");
    assert_eq!(err.status, "error");
    assert_eq!(err.message, "nope");
    let h = health();
    assert_eq!(h.status, "success");
    assert_eq!(h.message, "Backend is healthy");
    let (code, r) = model_not_found();
    assert_eq!(code, 404);
    assert_eq!(r.message, "Model not found");
}

#[test]
fn service_replies() {
    let (code, r) = service_reply(ServiceOutcome::Unreachable("refused".to_string()), "ok");
    assert_eq!(code, 500);
    assert_eq!(r.status, "error");
    assert_eq!(r.message, "Failed to connect to Python service: refused");
    let (code, r) = service_reply(ServiceOutcome::Failed, "ok");
    assert_eq!(code, 500);
    assert_eq!(r.message, "Python service error");
    let (code, r) = service_reply(ServiceOutcome::Unreadable("eof".to_string()), "ok");
    assert_eq!(code, 500);
    assert_eq!(r.message, "Failed to parse response: eof");
    let value = serde_json::Value::from(vec![1, 2]);
    let (code, r) = service_reply(ServiceOutcome::Answered(value.clone()), "Curated datasets retrieved");
    assert_eq!(code, 200);
    assert_eq!(r.status, "success");
    assert_eq!(r.message, "Curated datasets retrieved");
    assert_eq!(r.data, Some(value));
}

#[test]
fn model_messages() {
    assert_eq!(
        model_created_message("0123abcd-0000-4000-8000-000000000000"),
        "Model 0123abcd created successfully"
    );
    assert_eq!(models_found_message(3), "Found 3 models");
    assert_eq!(models_cleared_message(0), "Cleared 0 models from memory");
    assert_eq!(creation_failed_message("bad", false), "Model creation failed: bad");
    assert_eq!(creation_failed_message("bad", true), "Model import failed: bad");
    let (code, r) = delete_reply(true);
    assert_eq!(code, 200);
    assert_eq!(r.message, "Model deleted successfully");
    let (code, r) = delete_reply(false);
    assert_eq!(code, 404);
    assert_eq!(r.message, "Model not found");
}

#[test]
fn security_header_values() {
    let h = bismillah::api::security_headers();
    let names: Vec<&str> = h.iter().map(|(n, _)| n.as_str()).collect();
    assert_eq!(
        names,
        vec![
            "X-Content-Type-Options",
            "X-Frame-Options",
            "X-XSS-Protection",
            "Referrer-Policy",
            "Permissions-Policy",
            "Content-Security-Policy"
        ]
    );
    assert_eq!(h[0].1, "nosniff");
    assert_eq!(h[1].1, "DENY");
    assert!(h[5].1.starts_with("default-src 'self';"));
}

#[test]
fn new_model_ids_are_announced() {
    let (id, message) = bismillah::api::new_model_id();
    assert_eq!(id.len(), 36);
    assert_eq!(id.as_bytes()[8], b'-');
    assert_eq!(message, format!("Model {} created successfully", &id[..8]));
    let (other, _) = bismillah::api::new_model_id();
    assert_ne!(id, other);
}
