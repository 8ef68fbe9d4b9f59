//! The answers of the service in the form that clients of chat completions know.
use crate::session::SessionId;
use crate::text;
use crate::text::push_decimal;
use vstd::prelude::*;

verus! {

/// What kind of object an answer is.
pub const CHAT_COMPLETION_OBJECT: &'static str = "chat.completion";

/// Where chats are completed.
pub const V1_CHAT_COMPLETIONS: &'static str = "/v1/chat/completions";

/// Where chats are completed.
pub open spec fn chat_completions() -> Seq<char> {
    V1_CHAT_COMPLETIONS@
}

/// One of the possible answers to a chat.
pub struct Choice<F> {
    pub index: i32,
    pub content: String,
    pub finish_reason: Option<F>,
}

/// The answer to a chat.
pub struct ChatCompletion<F> {
    pub id: String,
    pub object: String,
    pub created: i32,
    pub model: String,
    pub choices: Vec<Choice<F>>,
}

/// The name of a session in an answer.
pub open spec fn session_name(id: SessionId) -> Seq<char> {
    "SessionId("@ + text::decimal(id.0 as nat) + ")"@
}

/// The answer to a chat: one choice, with the message of the session.
pub fn create_chat_completion_response<F>(
    id: SessionId,
    created: i32,
    model: String,
    message: String,
    finish_reason: Option<F>,
) -> (response: ChatCompletion<F>)
    ensures
        response.id@ == session_name(id),
        response.object@ == CHAT_COMPLETION_OBJECT@,
        response.object@ == "chat.completion"@,
        response.created == created,
        response.model == model,
        response.choices@ == seq![Choice { index: 0, content: message, finish_reason }],
{
    let mut name = "SessionId(".to_owned();
    push_decimal(&mut name, id.0);
    name.push(')');
    proof {
        reveal_strlit(")");
        assert(")"@ =~= seq![')']);
        assert(name@ =~= session_name(id));
    }
    let mut choices: Vec<Choice<F>> = Vec::new();
    choices.push(Choice { index: 0, content: message, finish_reason });
    ChatCompletion {
        id: name,
        object: CHAT_COMPLETION_OBJECT.to_owned(),
        created,
        model,
        choices,
    }
}

/// An answer names its session by the number of it, so no two sessions have the same name.
pub proof fn law_sessions_have_their_own_names(a: SessionId, b: SessionId)
    ensures
        session_name(a) == "SessionId("@ + text::decimal(a.0 as nat) + ")"@,
        session_name(a) == session_name(b) ==> a == b,
{
    if session_name(a) == session_name(b) {
        let x = text::decimal(a.0 as nat);
        let y = text::decimal(b.0 as nat);
        let n = "SessionId("@.len() as int;
        let m = ")"@.len() as int;
        assert(session_name(a).len() == n + x.len() + m);
        assert(session_name(b).len() == n + y.len() + m);
        assert(session_name(a).subrange(n, n + x.len()) =~= x);
        assert(session_name(b).subrange(n, n + y.len()) =~= y);
        text::lemma_decimal_injective(a.0 as nat, b.0 as nat);
    }
}

} // verus!
