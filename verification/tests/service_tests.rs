use bismillah::inference::{
    health_report, infer_text, models_from_backend, offered_from_backend, ApiResponse, AppState,
    BackendModel, ChatMessage, ModelInfo, SendMessageRequest, StartChatRequest,
    TextInferenceRequest, TEXT_INFERENCE_MS,
};

fn is_uuid(s: &str) -> bool {
    s.len() == 36
        && s.chars().enumerate().all(|(i, c)| {
            if i == 8 || i == 13 || i == 18 || i == 23 {
                c == '-'
            } else {
                c.is_ascii_hexdigit() && !c.is_ascii_uppercase()
            }
        })
}

fn backend(id: Option<&str>, name: Option<&str>, created_at: Option<&str>) -> BackendModel {
    BackendModel {
        id: id.map(|s| s.to_string()),
        name: name.map(|s| s.to_string()),
        description: None,
        input_type: None,
        created_at: created_at.map(|s| s.to_string()),
    }
}

#[test]
fn text_inference_is_simulated() {
    let r = infer_text(&TextInferenceRequest { model_id: "m".to_string(), prompt: "hello".to_string() });
    assert_eq!(r.generated_text, "AI Response to: hello");
    assert_eq!(r.inference_time_ms, 100);
    assert_eq!(TEXT_INFERENCE_MS, 100);
}

#[test]
fn service_envelopes() {
    let ok = ApiResponse::success(5u32);
    assert!(ok.success);
    assert_eq!(ok.data, Some(5));
    assert_eq!(ok.error, None);
    assert!(!ok.timestamp.is_empty());
    let err: ApiResponse<u32> = ApiResponse::error("boom".to_string());
    assert!(!err.success);
    assert_eq!(err.data, None);
    assert_eq!(err.error, Some("boom".to_string()));
}

#[test]
fn health_reports_status_and_time() {
    let h = health_report();
    assert_eq!(h.len(), 2);
    assert_eq!(h[0], ("status".to_string(), "healthy".to_string()));
    assert_eq!(h[1].0, "timestamp");
}

#[test]
fn chat_history_reads_back_what_was_sent() {
    let mut state = AppState::new();
    let session = state.start_chat(StartChatRequest { model_id: "m1".to_string() });
    assert_eq!(session.model_id, "m1");
    assert!(is_uuid(&session.id));
    assert_eq!(state.sessions.len(), 1);

    let reply = state.send_message(session.id.clone(), SendMessageRequest { content: "hi".to_string() });
    assert_eq!(reply.role, "assistant");
    assert_eq!(reply.content, "AI Response to: hi");
    assert_eq!(reply.session_id, session.id);
    assert!(is_uuid(&reply.id));

    let other = state.start_chat(StartChatRequest { model_id: "m2".to_string() });
    state.send_message(other.id.clone(), SendMessageRequest { content: "elsewhere".to_string() });
    state.send_message(session.id.clone(), SendMessageRequest { content: "again".to_string() });

    let history = state.history(&session.id);
    let lines: Vec<(&str, &str)> =
        history.iter().map(|m: &ChatMessage| (m.role.as_str(), m.content.as_str())).collect();
    assert_eq!(
        lines,
        vec![
            ("user", "hi"),
            ("assistant", "AI Response to: hi"),
            ("user", "again"),
            ("assistant", "AI Response to: again"),
        ]
    );
    assert_eq!(state.history(&other.id).len(), 2);
    assert!(state.history("no-such-session").is_empty());
}

#[test]
fn models_are_found_by_id() {
    let mut state = AppState::new();
    assert!(state.find_model("a").is_none());
    let model = |id: &str, name: &str| ModelInfo {
        id: id.to_string(),
        name: name.to_string(),
        description: String::new(),
        model_type: "unknown".to_string(),
        status: "available".to_string(),
        created_at: "2024-01-01T00:00:00Z".to_string(),
    };
    state.models.push(model("a", "first"));
    state.models.push(model("b", "second"));
    state.models.push(model("a", "shadowed"));
    assert_eq!(state.find_model("a").unwrap().name, "first");
    assert_eq!(state.find_model("b").unwrap().name, "second");
    assert!(state.find_model("c").is_none());
}

#[test]
fn backend_models_are_offered() {
    let list = vec![
        BackendModel {
            id: Some("m1".to_string()),
            name: Some("Net".to_string()),
            description: Some("a net".to_string()),
            input_type: Some("text".to_string()),
            created_at: Some("2024-05-01T12:00:00+02:00".to_string()),
        },
        backend(None, Some("nameless id"), None),
        backend(Some("m2"), None, None),
        backend(Some("m3"), Some("Plain"), Some("yesterday")),
        backend(Some("m4"), Some("Dated"), None),
    ];
    let models = offered_from_backend(&list, "NOW");
    assert_eq!(models.len(), 3);
    assert_eq!(models[0].id, "m1");
    assert_eq!(models[0].description, "a net");
    assert_eq!(models[0].model_type, "text");
    assert_eq!(models[0].status, "available");
    assert_eq!(models[0].created_at, "2024-05-01T10:00:00Z");
    assert_eq!(models[1].id, "m3");
    assert_eq!(models[1].description, "");
    assert_eq!(models[1].model_type, "unknown");
    assert_eq!(models[1].created_at, "NOW");
    assert_eq!(models[2].id, "m4");
    assert_eq!(models[2].created_at, "NOW");
}

#[test]
fn backend_models_listed_now() {
    let list = vec![backend(Some("m1"), Some("Net"), None)];
    let models = models_from_backend(&list);
    assert_eq!(models.len(), 1);
    assert!(models[0].created_at.ends_with('Z'));
}
