//! The inference service: the models it offers, simulated text inference, and chat
//! sessions whose messages it keeps in memory.
use vstd::prelude::*;
use crate::ids::{is_uuid_text, new_id, now_rfc3339, now_utc_text, rfc3339_as_utc, utc_text_of};
use crate::text::{concat, str_eq};

verus! {

/// The answer envelope of the inference service. `timestamp` is the time of the answer,
/// in RFC 3339.
pub struct ApiResponse<T> {
    pub success: bool,
    pub data: Option<T>,
    pub error: Option<String>,
    pub timestamp: String,
}

impl<T> ApiResponse<T> {
    /// A successful answer carrying `data`.
    pub fn success(data: T) -> (r: Self)
        ensures
            r.success,
            r.data == Some(data),
            r.error is None,
    {
        ApiResponse { success: true, data: Some(data), error: None, timestamp: now_rfc3339() }
    }

    /// A failed answer carrying the error text.
    pub fn error(error: String) -> (r: Self)
        ensures
            !r.success,
            r.data is None,
            r.error == Some(error),
    {
        ApiResponse { success: false, data: None, error: Some(error), timestamp: now_rfc3339() }
    }
}

/// A model the service can run. `created_at` is an RFC 3339 time in UTC.
pub struct ModelInfo {
    pub id: String,
    pub name: String,
    pub description: String,
    pub model_type: String,
    pub status: String,
    pub created_at: String,
}

/// A chat with one model. `created_at` is an RFC 3339 time in UTC.
pub struct ChatSession {
    pub id: String,
    pub model_id: String,
    pub created_at: String,
}

/// One message of a chat: `role` is `user` or `assistant`.
pub struct ChatMessage {
    pub id: String,
    pub session_id: String,
    pub role: String,
    pub content: String,
    pub timestamp: String,
}

pub struct ModelView {
    pub id: Seq<char>,
    pub name: Seq<char>,
    pub description: Seq<char>,
    pub model_type: Seq<char>,
    pub status: Seq<char>,
    pub created_at: Seq<char>,
}

pub struct SessionView {
    pub id: Seq<char>,
    pub model_id: Seq<char>,
    pub created_at: Seq<char>,
}

pub struct MessageView {
    pub id: Seq<char>,
    pub session_id: Seq<char>,
    pub role: Seq<char>,
    pub content: Seq<char>,
    pub timestamp: Seq<char>,
}

impl View for ModelInfo {
    type V = ModelView;

    open spec fn view(&self) -> ModelView {
        ModelView {
            id: self.id@,
            name: self.name@,
            description: self.description@,
            model_type: self.model_type@,
            status: self.status@,
            created_at: self.created_at@,
        }
    }
}

impl View for ChatSession {
    type V = SessionView;

    open spec fn view(&self) -> SessionView {
        SessionView { id: self.id@, model_id: self.model_id@, created_at: self.created_at@ }
    }
}

impl View for ChatMessage {
    type V = MessageView;

    open spec fn view(&self) -> MessageView {
        MessageView {
            id: self.id@,
            session_id: self.session_id@,
            role: self.role@,
            content: self.content@,
            timestamp: self.timestamp@,
        }
    }
}

pub open spec fn models_view(v: Seq<ModelInfo>) -> Seq<ModelView> {
    v.map_values(|m: ModelInfo| m@)
}

pub open spec fn sessions_view(v: Seq<ChatSession>) -> Seq<SessionView> {
    v.map_values(|s: ChatSession| s@)
}

pub open spec fn messages_view(v: Seq<ChatMessage>) -> Seq<MessageView> {
    v.map_values(|m: ChatMessage| m@)
}

impl ModelInfo {
    /// A copy with equal fields.
    pub fn copied(&self) -> (r: ModelInfo)
        ensures
            r@ == self@,
    {
        ModelInfo {
            id: self.id.clone(),
            name: self.name.clone(),
            description: self.description.clone(),
            model_type: self.model_type.clone(),
            status: self.status.clone(),
            created_at: self.created_at.clone(),
        }
    }
}

impl ChatSession {
    /// A copy with equal fields.
    pub fn copied(&self) -> (r: ChatSession)
        ensures
            r@ == self@,
    {
        ChatSession {
            id: self.id.clone(),
            model_id: self.model_id.clone(),
            created_at: self.created_at.clone(),
        }
    }
}

impl ChatMessage {
    /// A copy with equal fields.
    pub fn copied(&self) -> (r: ChatMessage)
        ensures
            r@ == self@,
    {
        ChatMessage {
            id: self.id.clone(),
            session_id: self.session_id.clone(),
            role: self.role.clone(),
            content: self.content.clone(),
            timestamp: self.timestamp.clone(),
        }
    }
}

/// A request to run a model on a prompt.
pub struct TextInferenceRequest {
    pub model_id: String,
    pub prompt: String,
}

/// The text a model produced and how long it took.
pub struct TextInferenceResponse {
    pub generated_text: String,
    pub inference_time_ms: u64,
}

/// A request to open a chat with a model.
pub struct StartChatRequest {
    pub model_id: String,
}

/// A message sent into a chat.
pub struct SendMessageRequest {
    pub content: String,
}

/// What the simulated model answers to `prompt`.
pub open spec fn ai_reply(prompt: Seq<char>) -> Seq<char> {
    "AI Response to: "@ + prompt
}

/// How long a simulated text inference is said to take, in milliseconds.
pub const TEXT_INFERENCE_MS: u64 = 100;

/// Runs the simulated model on the request's prompt.
pub fn infer_text(request: &TextInferenceRequest) -> (r: TextInferenceResponse)
    ensures
        r.generated_text@ == ai_reply(request.prompt@),
        r.inference_time_ms == TEXT_INFERENCE_MS,
{
    TextInferenceResponse {
        generated_text: concat("AI Response to: ", request.prompt.as_str()),
        inference_time_ms: TEXT_INFERENCE_MS,
    }
}

/// The entries of the health report: `status` is `healthy`, `timestamp` the time now.
pub fn health_report() -> (r: Vec<(String, String)>)
    ensures
        r.len() == 2,
        r[0].0@ == "status"@,
        r[0].1@ == "healthy"@,
        r[1].0@ == "timestamp"@,
{
    let mut r: Vec<(String, String)> = Vec::new();
    r.push(("status".to_string(), "healthy".to_string()));
    r.push(("timestamp".to_string(), now_rfc3339()));
    r
}

/// The messages of session `sid`, in the order they were sent.
pub open spec fn in_session(sid: Seq<char>) -> spec_fn(MessageView) -> bool {
    |m: MessageView| m.session_id == sid
}

pub open spec fn session_history(ms: Seq<MessageView>, sid: Seq<char>) -> Seq<MessageView> {
    ms.filter(in_session(sid))
}

/// The index of the first model with id `id`, if any.
pub open spec fn first_model_with(ms: Seq<ModelView>, id: Seq<char>) -> Option<int> {
    if exists|i: int| 0 <= i < ms.len() && ms[i].id == id {
        Some(choose|i: int| 0 <= i < ms.len() && ms[i].id == id && (forall|j: int| 0 <= j < i ==> ms[j].id != id))
    } else {
        None
    }
}

/// What the service keeps: the models it offers, the chats opened and every message sent.
pub struct AppState {
    pub models: Vec<ModelInfo>,
    pub sessions: Vec<ChatSession>,
    pub messages: Vec<ChatMessage>,
}

impl AppState {
    /// A state with nothing in it.
    pub fn new() -> (r: AppState)
        ensures
            r.models@.len() == 0,
            r.sessions@.len() == 0,
            r.messages@.len() == 0,
    {
        AppState { models: Vec::new(), sessions: Vec::new(), messages: Vec::new() }
    }

    /// The model with id `id`: the first one, where several have it.
    pub fn find_model(&self, id: &str) -> (r: Option<ModelInfo>)
        ensures
            match first_model_with(models_view(self.models@), id@) {
                None => r is None,
                Some(i) => r matches Some(m) && m@ == self.models@[i]@,
            },
    {
        let mut i: usize = 0;
        while i < self.models.len()
            invariant
                i <= self.models@.len(),
                forall|j: int| 0 <= j < i ==> (#[trigger] self.models@[j]).id@ != id@,
            decreases self.models@.len() - i,
        {
            if str_eq(self.models[i].id.as_str(), id) {
                proof {
                    let ms = models_view(self.models@);
                    assert(ms[i as int].id == id@);
                    let k = choose|k: int|
                        0 <= k < ms.len() && ms[k].id == id@ && (forall|j: int| 0 <= j < k ==> ms[j].id != id@);
                    assert(ms[i as int].id == id@ && (forall|j: int| 0 <= j < i ==> ms[j].id != id@));
                    if k < i {
                        assert(self.models@[k]@ == ms[k]);
                    } else if k > i {
                        assert(ms[i as int].id != id@);
                    }
                }
                return Some(self.models[i].copied());
            }
            i = i + 1;
        }
        proof {
            let ms = models_view(self.models@);
            assert forall|j: int| 0 <= j < ms.len() implies ms[j].id != id@ by {
                assert(self.models@[j]@ == ms[j]);
            }
        }
        None
    }

    /// Opens a chat with the requested model. The session gets a fresh id and the time now.
    pub fn start_chat(&mut self, request: StartChatRequest) -> (r: ChatSession)
        ensures
            r.model_id@ == request.model_id@,
            is_uuid_text(r.id@),
            sessions_view(final(self).sessions@) == sessions_view(old(self).sessions@).push(r@),
            final(self).models@ == old(self).models@,
            final(self).messages@ == old(self).messages@,
    {
        let session = ChatSession { id: new_id(), model_id: request.model_id, created_at: now_utc_text() };
        let stored = session.copied();
        self.sessions.push(stored);
        proof {
            assert(sessions_view(self.sessions@) =~= sessions_view(old(self).sessions@).push(session@));
        }
        session
    }

    /// Sends `request.content` into chat `session_id`: the message is kept, then the model's
    /// answer, which is returned.
    pub fn send_message(&mut self, session_id: String, request: SendMessageRequest) -> (r: ChatMessage)
        ensures
            r.session_id@ == session_id@,
            r.role@ == "assistant"@,
            r.content@ == ai_reply(request.content@),
            is_uuid_text(r.id@),
            exists|u: MessageView|
                {
                    &&& u.session_id == session_id@
                    &&& u.role == "user"@
                    &&& u.content == request.content@
                    &&& is_uuid_text(u.id)
                    &&& messages_view(final(self).messages@) == messages_view(old(self).messages@).push(u).push(r@)
                },
            final(self).models@ == old(self).models@,
            final(self).sessions@ == old(self).sessions@,
    {
        let ghost before = messages_view(self.messages@);
        let user = ChatMessage {
            id: new_id(),
            session_id: session_id.clone(),
            role: "user".to_string(),
            content: request.content.clone(),
            timestamp: now_utc_text(),
        };
        let ghost u = user@;
        self.messages.push(user);
        let reply = ChatMessage {
            id: new_id(),
            session_id: session_id,
            role: "assistant".to_string(),
            content: concat("AI Response to: ", request.content.as_str()),
            timestamp: now_utc_text(),
        };
        self.messages.push(reply.copied());
        proof {
            assert(messages_view(self.messages@) =~= before.push(u).push(reply@));
            assert(is_uuid_text(u.id));
        }
        reply
    }

    /// The messages of chat `session_id`, in the order they were sent.
    pub fn history(&self, session_id: &str) -> (r: Vec<ChatMessage>)
        ensures
            messages_view(r@) == session_history(messages_view(self.messages@), session_id@),
    {
        let mut r: Vec<ChatMessage> = Vec::new();
        let mut i: usize = 0;
        while i < self.messages.len()
            invariant
                i <= self.messages@.len(),
                messages_view(r@) == session_history(messages_view(self.messages@.subrange(0, i as int)), session_id@),
            decreases self.messages@.len() - i,
        {
            proof {
                let pre = self.messages@.subrange(0, i as int);
                let post = self.messages@.subrange(0, i + 1);
                assert(messages_view(post) =~= messages_view(pre).push(self.messages@[i as int]@));
                messages_view(pre).lemma_filter_push(self.messages@[i as int]@, in_session(session_id@));
            }
            if str_eq(self.messages[i].session_id.as_str(), session_id) {
                let m = self.messages[i].copied();
                let ghost old_r = r@;
                r.push(m);
                proof {
                    assert(messages_view(r@) =~= messages_view(old_r).push(m@));
                }
            }
            i = i + 1;
        }
        proof {
            assert(self.messages@.subrange(0, self.messages@.len() as int) =~= self.messages@);
        }
        r
    }
}

/// A model as the backend lists it: each field is the string the backend gave, or `None`
/// where the field is missing or not a string.
pub struct BackendModel {
    pub id: Option<String>,
    pub name: Option<String>,
    pub description: Option<String>,
    pub input_type: Option<String>,
    pub created_at: Option<String>,
}

pub open spec fn text_or(o: Option<String>, default: Seq<char>) -> Seq<char> {
    match o {
        Some(s) => s@,
        None => default,
    }
}

/// The creation time offered for a backend model: its `created_at` in UTC where that is an
/// RFC 3339 time, else `now`.
pub open spec fn created_time(o: Option<String>, now: Seq<char>) -> Seq<char> {
    match o {
        Some(s) => match rfc3339_as_utc(s@) {
            Some(t) => t,
            None => now,
        },
        None => now,
    }
}

/// Whether a backend model can be offered: it has an id and a name.
pub open spec fn offerable(b: BackendModel) -> bool {
    b.id is Some && b.name is Some
}

/// The model offered for backend model `b`, `now` standing for the time of the listing.
pub open spec fn offered(b: BackendModel, now: Seq<char>) -> ModelView {
    ModelView {
        id: text_or(b.id, Seq::empty()),
        name: text_or(b.name, Seq::empty()),
        description: text_or(b.description, Seq::empty()),
        model_type: text_or(b.input_type, "unknown"@),
        status: "available"@,
        created_at: created_time(b.created_at, now),
    }
}

/// The models offered for the backend's list, in its order.
pub open spec fn offered_models(bs: Seq<BackendModel>, now: Seq<char>) -> Seq<ModelView>
    decreases bs.len(),
{
    if bs.len() == 0 {
        Seq::empty()
    } else {
        let rest = offered_models(bs.drop_last(), now);
        if offerable(bs.last()) {
            rest.push(offered(bs.last(), now))
        } else {
            rest
        }
    }
}

fn text_or_default(o: &Option<String>, default: &str) -> (r: String)
    ensures
        r@ == text_or(*o, default@),
{
    match o {
        Some(s) => s.clone(),
        None => default.to_string(),
    }
}

/// The models offered for the backend's list, in its order, with `now` as the creation
/// time of those whose own is missing or unreadable.
pub fn offered_from_backend(backend: &Vec<BackendModel>, now: &str) -> (r: Vec<ModelInfo>)
    ensures
        models_view(r@) == offered_models(backend@, now@),
{
    let mut r: Vec<ModelInfo> = Vec::new();
    let mut i: usize = 0;
    while i < backend.len()
        invariant
            i <= backend@.len(),
            models_view(r@) == offered_models(backend@.subrange(0, i as int), now@),
        decreases backend@.len() - i,
    {
        let b = &backend[i];
        proof {
            assert(backend@.subrange(0, i + 1).drop_last() =~= backend@.subrange(0, i as int));
            assert(backend@.subrange(0, i + 1).last() == backend@[i as int]);
        }
        if b.id.is_some() && b.name.is_some() {
            let created_at = match &b.created_at {
                Some(s) => match utc_text_of(s.as_str()) {
                    Some(t) => t,
                    None => now.to_string(),
                },
                None => now.to_string(),
            };
            let m = ModelInfo {
                id: text_or_default(&b.id, ""),
                name: text_or_default(&b.name, ""),
                description: text_or_default(&b.description, ""),
                model_type: text_or_default(&b.input_type, "unknown"),
                status: "available".to_string(),
                created_at,
            };
            let ghost old_r = r@;
            r.push(m);
            proof {
                reveal_strlit("");
                assert(*b == backend@[i as int]);
                assert(m.description@ == text_or(b.description, Seq::empty()));
                assert(m.created_at@ == created_time(b.created_at, now@));
                assert(m@ == offered(backend@[i as int], now@));
                assert(models_view(r@) =~= models_view(old_r).push(m@));
            }
        }
        i = i + 1;
    }
    proof {
        assert(backend@.subrange(0, backend@.len() as int) =~= backend@);
    }
    r
}

/// The models offered for the backend's list, listed now: as `offered_from_backend` with
/// the time of the call.
pub fn models_from_backend(backend: &Vec<BackendModel>) -> (r: Vec<ModelInfo>)
    ensures
        exists|now: Seq<char>| models_view(r@) == offered_models(backend@, now),
{
    let now = now_utc_text();
    offered_from_backend(backend, now.as_str())
}

/// Reading `session_id`'s chat after a message and its answer were sent to it gives what it
/// gave before, then the two; the other chats read as before.
pub proof fn law_history_after_send(
    before: Seq<MessageView>,
    sent: MessageView,
    answer: MessageView,
    session_id: Seq<char>,
    other: Seq<char>,
)
    requires
        sent.session_id == session_id,
        answer.session_id == session_id,
        other != session_id,
    ensures
        session_history(before.push(sent).push(answer), session_id)
            == session_history(before, session_id).push(sent).push(answer),
        session_history(before.push(sent).push(answer), other) == session_history(before, other),
{
    before.lemma_filter_push(sent, in_session(session_id));
    before.push(sent).lemma_filter_push(answer, in_session(session_id));
    before.lemma_filter_push(sent, in_session(other));
    before.push(sent).lemma_filter_push(answer, in_session(other));
}

} // verus!
