use bismillah::chat::{
    assistant_content, content_disposition, conversation_title, route_to_model, upload_content_type, upload_locations,
    ConversationListQuery, MessageContent, MessageRole,
};

fn text_of(c: &MessageContent) -> &str {
    match c {
        MessageContent::Text(t) => t.as_str(),
        _ => panic!("not text"),
    }
}

#[test]
fn text_without_model_is_echoed() {
    let reply = route_to_model(&MessageContent::Text("hi".to_string()), None, &vec![]).unwrap();
    assert_eq!(text_of(&reply), "I received your message: hi");
}

#[test]
fn text_to_a_known_model() {
    let id = "0123456789abcdef".to_string();
    let reply =
        route_to_model(&MessageContent::Text("hi".to_string()), Some(id.clone()), &vec![id]).unwrap();
    assert_eq!(text_of(&reply), "Echo from model 01234567: hi");
}

#[test]
fn text_to_an_unknown_model() {
    let r = route_to_model(
        &MessageContent::Text("hi".to_string()),
        Some("missing-model".to_string()),
        &vec!["other-model-id".to_string()],
    );
    match r {
        Err(e) => assert_eq!(e, "Model not found"),
        Ok(_) => panic!("expected a refusal"),
    }
}

#[test]
fn images_are_acknowledged() {
    let with = MessageContent::Image { url: "u".to_string(), caption: Some("a cat".to_string()) };
    let reply = route_to_model(&with, None, &vec![]).unwrap();
    assert_eq!(
        text_of(&reply),
        "I see an image with caption: a cat. Image analysis would be processed here."
    );
    let without = MessageContent::Image { url: "u".to_string(), caption: None };
    let reply = route_to_model(&without, None, &vec![]).unwrap();
    assert_eq!(text_of(&reply), "I see an image. Image analysis would be processed here.");
}

#[test]
fn other_contents_get_the_fixed_answer() {
    let doc = MessageContent::Document {
        url: "u".to_string(),
        filename: "f.pdf".to_string(),
        mime_type: "application/pdf".to_string(),
    };
    let reply = route_to_model(&doc, None, &vec![]).unwrap();
    assert_eq!(
        text_of(&reply),
        "I can process this type of content, but the handler isn't implemented yet."
    );
    let audio = MessageContent::Audio { url: "u".to_string(), duration_bits: Some(2.5f64.to_bits()) };
    let reply = route_to_model(&audio, None, &vec![]).unwrap();
    assert_eq!(
        text_of(&reply),
        "I can process this type of content, but the handler isn't implemented yet."
    );
}

#[test]
fn mixed_messages_answer_each_part() {
    let mixed = MessageContent::Mixed(vec![
        MessageContent::Text("one".to_string()),
        MessageContent::Video { url: "v".to_string(), caption: None },
    ]);
    let reply = route_to_model(&mixed, None, &vec![]).unwrap();
    match reply {
        MessageContent::Mixed(parts) => {
            assert_eq!(parts.len(), 2);
            assert_eq!(text_of(&parts[0]), "I received your message: one");
            assert_eq!(
                text_of(&parts[1]),
                "I can process this type of content, but the handler isn't implemented yet."
            );
        }
        _ => panic!("expected a mixed reply"),
    }
}

#[test]
fn mixed_parts_without_reply_are_left_out() {
    let mixed = MessageContent::Mixed(vec![
        MessageContent::Text("one".to_string()),
        MessageContent::Image { url: "i".to_string(), caption: None },
    ]);
    let reply = route_to_model(&mixed, Some("unknown".to_string()), &vec![]).unwrap();
    match reply {
        MessageContent::Mixed(parts) => {
            assert_eq!(parts.len(), 1);
            assert_eq!(text_of(&parts[0]), "I see an image. Image analysis would be processed here.");
        }
        _ => panic!("expected a mixed reply"),
    }
}

#[test]
fn role_names_round_trip() {
    for role in [MessageRole::User, MessageRole::Assistant, MessageRole::System] {
        assert_eq!(MessageRole::from_name(&role.name()), role);
    }
    assert_eq!(MessageRole::Assistant.name(), "assistant");
    assert_eq!(MessageRole::from_name("moderator"), MessageRole::User);
}

#[test]
fn conversation_paging() {
    let q = ConversationListQuery { limit: None, offset: None, search: None };
    assert_eq!(q.conversation_page(), (50, 0));
    assert_eq!(q.message_page(), (100, 0));
    assert_eq!(q.search_pattern(), None);

    let q = ConversationListQuery { limit: Some(1000), offset: Some(20), search: Some("rust".to_string()) };
    assert_eq!(q.conversation_page(), (100, 20));
    assert_eq!(q.message_page(), (500, 20));
    assert_eq!(q.search_pattern(), Some("%rust%".to_string()));

    let q = ConversationListQuery { limit: Some(7), offset: None, search: None };
    assert_eq!(q.conversation_page(), (7, 0));
    assert_eq!(q.message_page(), (7, 0));
}

#[test]
fn conversation_titles() {
    assert_eq!(conversation_title(None), "New Conversation");
    assert_eq!(conversation_title(Some("Plans".to_string())), "Plans");
}

#[test]
fn uploads() {
    let (path, url) = upload_locations("abc");
    assert_eq!(path, "uploads/abc");
    assert_eq!(url, "/files/abc");
    assert_eq!(upload_content_type(None), "application/octet-stream");
    assert_eq!(upload_content_type(Some("image/png".to_string())), "image/png");
    assert_eq!(content_disposition("a b.txt"), "inline; filename=\"a b.txt\"");
}

#[test]
fn assistant_apologises_when_routing_fails() {
    let c = assistant_content(&MessageContent::Text("hi".to_string()), Some("missing".to_string()), &vec![]);
    assert_eq!(text_of(&c), "I'm sorry, I encountered an error processing your request.");
    let c = assistant_content(&MessageContent::Text("hi".to_string()), None, &vec![]);
    assert_eq!(text_of(&c), "I received your message: hi");
}

#[test]
fn conversation_listing_statement() {
    let plain = ConversationListQuery { limit: None, offset: None, search: None };
    assert_eq!(
        plain.conversation_sql(),
        "SELECT id, title, created_at, updated_at, user_id, metadata FROM conversations ORDER BY updated_at DESC LIMIT ? OFFSET ?"
    );
    let searched = ConversationListQuery { limit: None, offset: None, search: Some("x".to_string()) };
    assert_eq!(
        searched.conversation_sql(),
        "SELECT id, title, created_at, updated_at, user_id, metadata FROM conversations WHERE title LIKE ? ORDER BY updated_at DESC LIMIT ? OFFSET ?"
    );
}
