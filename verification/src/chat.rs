//! Chat conversations: message roles, message contents and the replies the assistant gives.
use vstd::prelude::*;
use crate::text::{concat, str_eq};

verus! {

/// Who wrote a message.
#[derive(Debug, PartialEq, Eq, Structural, Clone, Copy)]
pub enum MessageRole {
    User,
    Assistant,
    System,
}

/// What a message holds. The duration of an audio clip is kept as the bit pattern of its
/// `f64` value.
pub enum MessageContent {
    Text(String),
    Image { url: String, caption: Option<String> },
    Video { url: String, caption: Option<String> },
    Audio { url: String, duration_bits: Option<u64> },
    Document { url: String, filename: String, mime_type: String },
    Mixed(Vec<MessageContent>),
}

/// A `MessageContent` as plain values.
pub enum ContentView {
    Text(Seq<char>),
    Image { url: Seq<char>, caption: Option<Seq<char>> },
    Video { url: Seq<char>, caption: Option<Seq<char>> },
    Audio { url: Seq<char>, duration_bits: Option<u64> },
    Document { url: Seq<char>, filename: Seq<char>, mime_type: Seq<char> },
    Mixed(Seq<ContentView>),
}

pub open spec fn opt_view(o: Option<String>) -> Option<Seq<char>> {
    match o {
        Some(s) => Some(s@),
        None => None,
    }
}

pub open spec fn content_view(c: MessageContent) -> ContentView
    decreases c,
{
    match c {
        MessageContent::Text(t) => ContentView::Text(t@),
        MessageContent::Image { url, caption } => ContentView::Image { url: url@, caption: opt_view(caption) },
        MessageContent::Video { url, caption } => ContentView::Video { url: url@, caption: opt_view(caption) },
        MessageContent::Audio { url, duration_bits } => ContentView::Audio { url: url@, duration_bits },
        MessageContent::Document { url, filename, mime_type } => ContentView::Document {
            url: url@,
            filename: filename@,
            mime_type: mime_type@,
        },
        MessageContent::Mixed(v) => ContentView::Mixed(contents_view(v@)),
    }
}

pub open spec fn contents_view(cs: Seq<MessageContent>) -> Seq<ContentView>
    decreases cs,
{
    if cs.len() == 0 {
        Seq::empty()
    } else {
        contents_view(cs.drop_last()).push(content_view(cs.last()))
    }
}

/// The first 8 bytes of `s`, as characters.
pub open spec fn byte_prefix8(s: Seq<char>) -> Seq<char> {
    vstd::utf8::decode_utf8(vstd::utf8::encode_utf8(s).subrange(0, 8))
}

pub open spec fn caption_note(caption: Option<Seq<char>>) -> Seq<char> {
    match caption {
        Some(c) => " with caption: "@ + c,
        None => Seq::empty(),
    }
}

/// The assistant's reply to `c`, or why it has none. Text goes to the model `model_id`
/// when one is named (the model must be among `known`), images are acknowledged with their
/// caption, each part of a mixed message is answered in turn (parts without a reply are
/// left out), and other contents get a fixed answer.
pub open spec fn reply_to(c: ContentView, model_id: Option<Seq<char>>, known: Seq<Seq<char>>) -> Result<
    ContentView,
    Seq<char>,
>
    decreases c,
{
    match c {
        ContentView::Text(t) => match model_id {
            Some(id) => if known.contains(id) {
                Ok(ContentView::Text("Echo from model "@ + byte_prefix8(id) + ": "@ + t))
            } else {
                Err("Model not found"@)
            },
            None => Ok(ContentView::Text("I received your message: "@ + t)),
        },
        ContentView::Image { url, caption } => Ok(
            ContentView::Text(
                "I see an image"@ + caption_note(caption) + ". Image analysis would be processed here."@,
            ),
        ),
        ContentView::Mixed(cs) => Ok(ContentView::Mixed(replies_to(cs, model_id, known))),
        _ => Ok(
            ContentView::Text(
                "I can process this type of content, but the handler isn't implemented yet."@,
            ),
        ),
    }
}

/// The replies to the parts that have one, in order.
pub open spec fn replies_to(cs: Seq<ContentView>, model_id: Option<Seq<char>>, known: Seq<Seq<char>>) -> Seq<
    ContentView,
>
    decreases cs,
{
    if cs.len() == 0 {
        Seq::empty()
    } else {
        let rest = replies_to(cs.drop_last(), model_id, known);
        match reply_to(cs.last(), model_id, known) {
            Ok(r) => rest.push(r),
            Err(_) => rest,
        }
    }
}

pub open spec fn known_ids(v: Seq<String>) -> Seq<Seq<char>> {
    v.map_values(|s: String| s@)
}

/// The first 8 bytes of a model id may be cut off from it.
pub open spec fn id_prefix_ok(model_id: Option<String>, known: Seq<String>) -> bool {
    match model_id {
        Some(id) => known_ids(known).contains(id@) ==> vstd::utf8::is_char_boundary(
            vstd::utf8::encode_utf8(id@),
            8,
        ),
        None => true,
    }
}

pub open spec fn reply_view(r: Result<MessageContent, String>) -> Result<ContentView, Seq<char>> {
    match r {
        Ok(c) => Ok(content_view(c)),
        Err(e) => Err(e@),
    }
}

fn is_known(known: &Vec<String>, id: &String) -> (r: bool)
    ensures
        r == known_ids(known@).contains(id@),
{
    let mut i: usize = 0;
    while i < known.len()
        invariant
            i <= known.len(),
            forall|k: int| 0 <= k < i ==> #[trigger] known_ids(known@)[k] != id@,
        decreases known.len() - i,
    {
        if known[i] == *id {
            assert(known_ids(known@)[i as int] == id@);
            return true;
        }
        i = i + 1;
    }
    false
}

fn reply(content: &MessageContent, model_id: &Option<String>, known: &Vec<String>) -> (r: Result<
    MessageContent,
    String,
>)
    requires
        id_prefix_ok(*model_id, known@),
    ensures
        reply_view(r) == reply_to(content_view(*content), opt_view(*model_id), known_ids(known@)),
    decreases content,
{
    broadcast use vstd::utf8::group_utf8_lib;

    match content {
        MessageContent::Text(text) => {
            match model_id {
                Some(id) => {
                    if is_known(known, id) {
                        let (head, _) = id.as_str().split_at(8);
                        proof {
                            assert(head@ == byte_prefix8(id@)) by {
                                assert(vstd::utf8::decode_utf8(vstd::utf8::encode_utf8(head@)) == head@);
                            }
                        }
                        let a = concat("Echo from model ", head);
                        let b = concat(a.as_str(), ": ");
                        Ok(MessageContent::Text(concat(b.as_str(), text.as_str())))
                    } else {
                        Err("Model not found".to_string())
                    }
                },
                None => Ok(MessageContent::Text(concat("I received your message: ", text.as_str()))),
            }
        },
        MessageContent::Image { url: _, caption } => {
            let note = match caption {
                Some(c) => concat(" with caption: ", c.as_str()),
                None => String::new(),
            };
            let a = concat("I see an image", note.as_str());
            Ok(MessageContent::Text(concat(a.as_str(), ". Image analysis would be processed here.")))
        },
        MessageContent::Mixed(contents) => {
            let mut responses: Vec<MessageContent> = Vec::new();
            let mut i: usize = 0;
            while i < contents.len()
                invariant
                    id_prefix_ok(*model_id, known@),
                    *content == MessageContent::Mixed(*contents),
                    i <= contents.len(),
                    contents_view(responses@) == replies_to(
                        contents_view(contents@.take(i as int)),
                        opt_view(*model_id),
                        known_ids(known@),
                    ),
                decreases contents.len() - i,
            {
                proof {
                    assert(contents@.take(i + 1).drop_last() =~= contents@.take(i as int));
                    lemma_contents_view_len(contents@.take(i + 1));
                    assert(contents_view(contents@.take(i + 1)).drop_last() =~= contents_view(
                        contents@.take(i as int),
                    ));
                    assert(contents_view(contents@.take(i + 1)).last() == content_view(contents@[i as int]));
                }
                let ghost before = responses@;
                proof {
                    assert(content->Mixed_0 == *contents);
                    assert(decreases_to!(*content => content->Mixed_0));
                    assert(decreases_to!(*contents => contents@));
                    assert(decreases_to!(contents@ => contents@[i as int]));
                }
                match reply(&contents[i], model_id, known) {
                    Ok(r) => {
                        responses.push(r);
                        proof {
                            assert(responses@.drop_last() =~= before);
                        }
                    },
                    Err(_) => {},
                }
                i = i + 1;
            }
            proof {
                assert(contents@.take(contents.len() as int) =~= contents@);
            }
            Ok(MessageContent::Mixed(responses))
        },
        _ => Ok(
            MessageContent::Text(
                "I can process this type of content, but the handler isn't implemented yet.".to_string(),
            ),
        ),
    }
}

proof fn lemma_contents_view_len(cs: Seq<MessageContent>)
    ensures
        contents_view(cs).len() == cs.len(),
    decreases cs.len(),
{
    if cs.len() > 0 {
        lemma_contents_view_len(cs.drop_last());
    }
}

/// The assistant's reply to a message, given the ids of the models that exist.
pub fn route_to_model(content: &MessageContent, model_id: Option<String>, known_models: &Vec<String>) -> (r: Result<
    MessageContent,
    String,
>)
    requires
        id_prefix_ok(model_id, known_models@),
    ensures
        reply_view(r) == reply_to(content_view(*content), opt_view(model_id), known_ids(known_models@)),
{
    reply(content, &model_id, known_models)
}

/// What the assistant answers when a message cannot be routed.
pub open spec fn apology() -> Seq<char> {
    "I'm sorry, I encountered an error processing your request."@
}

/// The content of the assistant's answer to a message: the reply, or an apology where the
/// message has none.
pub fn assistant_content(content: &MessageContent, model_id: Option<String>, known_models: &Vec<String>) -> (r:
    MessageContent)
    requires
        id_prefix_ok(model_id, known_models@),
    ensures
        content_view(r) == match reply_to(content_view(*content), opt_view(model_id), known_ids(known_models@)) {
            Ok(c) => c,
            Err(_) => ContentView::Text(apology()),
        },
{
    match route_to_model(content, model_id, known_models) {
        Ok(c) => c,
        Err(_) => MessageContent::Text("I'm sorry, I encountered an error processing your request.".to_string()),
    }
}

pub open spec fn role_name(r: MessageRole) -> Seq<char> {
    match r {
        MessageRole::User => "user"@,
        MessageRole::Assistant => "assistant"@,
        MessageRole::System => "system"@,
    }
}

impl MessageRole {
    /// The name a role is stored under.
    pub fn name(&self) -> (s: String)
        ensures
            s@ == role_name(*self),
    {
        match self {
            MessageRole::User => "user".to_string(),
            MessageRole::Assistant => "assistant".to_string(),
            MessageRole::System => "system".to_string(),
        }
    }

    /// The role stored under `s`; any name other than those of the roles reads as `User`.
    pub fn from_name(s: &str) -> (r: MessageRole)
        ensures
            r == (if s@ == "assistant"@ {
                MessageRole::Assistant
            } else if s@ == "system"@ {
                MessageRole::System
            } else {
                MessageRole::User
            }),
    {
        proof {
            lemma_role_names_distinct();
        }
        if str_eq(s, "user") {
            MessageRole::User
        } else if str_eq(s, "assistant") {
            MessageRole::Assistant
        } else if str_eq(s, "system") {
            MessageRole::System
        } else {
            MessageRole::User
        }
    }
}

/// Reading back the name a role is stored under gives the role.
pub proof fn law_role_name_round_trip(r: MessageRole)
    ensures
        (if role_name(r) == "assistant"@ {
            MessageRole::Assistant
        } else if role_name(r) == "system"@ {
            MessageRole::System
        } else {
            MessageRole::User
        }) == r,
{
    lemma_role_names_distinct();
}

proof fn lemma_role_names_distinct()
    ensures
        "user"@ != "assistant"@,
        "user"@ != "system"@,
        "assistant"@ != "system"@,
{
    reveal_strlit("user");
    reveal_strlit("assistant");
    reveal_strlit("system");
    assert("user"@[0] != "assistant"@[0]);
    assert("user"@[0] != "system"@[0]);
    assert("assistant"@[0] != "system"@[0]);
}

/// Paging and search of a conversation or message list.
pub struct ConversationListQuery {
    pub limit: Option<i64>,
    pub offset: Option<i64>,
    pub search: Option<String>,
}

pub open spec fn min_i64(a: i64, b: i64) -> i64 {
    if a < b {
        a
    } else {
        b
    }
}

impl ConversationListQuery {
    /// Limit and offset of a conversation list: 50 conversations unless asked, never more
    /// than 100, from the start unless asked.
    pub fn conversation_page(&self) -> (r: (i64, i64))
        ensures
            r.0 == min_i64(
                match self.limit {
                    Some(l) => l,
                    None => 50,
                },
                100,
            ),
            r.1 == match self.offset {
                Some(o) => o,
                None => 0,
            },
    {
        let limit = match self.limit {
            Some(l) => l,
            None => 50,
        };
        let limit = if limit < 100 {
            limit
        } else {
            100
        };
        let offset = match self.offset {
            Some(o) => o,
            None => 0,
        };
        (limit, offset)
    }

    /// Limit and offset of a message list: 100 messages unless asked, never more than 500.
    pub fn message_page(&self) -> (r: (i64, i64))
        ensures
            r.0 == min_i64(
                match self.limit {
                    Some(l) => l,
                    None => 100,
                },
                500,
            ),
            r.1 == match self.offset {
                Some(o) => o,
                None => 0,
            },
    {
        let limit = match self.limit {
            Some(l) => l,
            None => 100,
        };
        let limit = if limit < 500 {
            limit
        } else {
            500
        };
        let offset = match self.offset {
            Some(o) => o,
            None => 0,
        };
        (limit, offset)
    }

    /// The statement that lists conversations, newest first: it filters on the title only
    /// when a search text is given, and takes the limit and offset as its last two values.
    pub fn conversation_sql(&self) -> (r: String)
        ensures
            r@ == "SELECT id, title, created_at, updated_at, user_id, metadata FROM conversations"@
                + (if self.search is Some {
                " WHERE title LIKE ?"@
            } else {
                Seq::empty()
            }) + " ORDER BY updated_at DESC LIMIT ? OFFSET ?"@,
    {
        let base = "SELECT id, title, created_at, updated_at, user_id, metadata FROM conversations";
        let filtered = match &self.search {
            Some(_) => concat(base, " WHERE title LIKE ?"),
            None => base.to_string(),
        };
        proof {
            assert(base@ + Seq::<char>::empty() =~= base@);
        }
        concat(filtered.as_str(), " ORDER BY updated_at DESC LIMIT ? OFFSET ?")
    }

    /// The `LIKE` pattern that matches titles containing the search text.
    pub fn search_pattern(&self) -> (r: Option<String>)
        ensures
            match self.search {
                Some(s) => r matches Some(p) && p@ == "%"@ + s@ + "%"@,
                None => r is None,
            },
    {
        match &self.search {
            Some(s) => {
                let a = concat("%", s.as_str());
                Some(concat(a.as_str(), "%"))
            },
            None => None,
        }
    }
}

/// The title of a new conversation.
pub fn conversation_title(title: Option<String>) -> (r: String)
    ensures
        r@ == match title {
            Some(t) => t@,
            None => "New Conversation"@,
        },
{
    match title {
        Some(t) => t,
        None => "New Conversation".to_string(),
    }
}

/// Where an uploaded file is stored and the URL it is served under.
pub fn upload_locations(file_id: &str) -> (r: (String, String))
    ensures
        r.0@ == "uploads/"@ + file_id@,
        r.1@ == "/files/"@ + file_id@,
{
    (concat("uploads/", file_id), concat("/files/", file_id))
}

/// The content type of an upload, `application/octet-stream` when none is given.
pub fn upload_content_type(content_type: Option<String>) -> (r: String)
    ensures
        r@ == match content_type {
            Some(c) => c@,
            None => "application/octet-stream"@,
        },
{
    match content_type {
        Some(c) => c,
        None => "application/octet-stream".to_string(),
    }
}

/// The `Content-Disposition` header a stored file is served with.
pub fn content_disposition(original_filename: &str) -> (r: String)
    ensures
        r@ == "inline; filename=\""@ + original_filename@ + "\""@,
{
    let a = concat("inline; filename=\"", original_filename);
    concat(a.as_str(), "\"")
}

} // verus!
