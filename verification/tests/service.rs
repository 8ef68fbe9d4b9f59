use llama_serve::chat::BaseArgs;
use llama_serve::service::openai::{create_chat_completion_response, V1_CHAT_COMPLETIONS};
use llama_serve::service::{
    answer, call, check_messages, messages, route, Answer, ChatRequest, RequestMessage, ReturnReason,
    Role, Route, ServiceArgs, ServiceManager,
};
use llama_serve::session::{DistKVCache, SessionId};
use openai_struct::{
    ChatCompletionRequestMessage, ChatCompletionRequestUserMessage, CreateChatCompletionRequest,
    ModelIdsShared,
};
use serde_json::Value;

#[test]
fn service_arguments() {
    let plan = ServiceArgs {
        base: BaseArgs {
            model: "m.gguf".to_string(),
            gpus: vec![1],
            max_steps: 7,
            no_cuda_graph: false,
        },
        port: 8080,
    }
    .service();
    assert_eq!(plan.config.model, "m.gguf");
    assert_eq!(plan.config.gpus, vec![1]);
    assert!(plan.config.use_cuda_graph);
    assert_eq!((plan.port, plan.max_steps), (8080, 7));
}

#[test]
fn routes() {
    assert_eq!(V1_CHAT_COMPLETIONS, "/v1/chat/completions");
    assert_eq!(route("POST", "/v1/chat/completions"), Route::CompleteChat);
    assert_eq!(route("GET", "/v1/chat/completions"), Route::NotFound);
    assert_eq!(route("POST", "/v1/chat"), Route::NotFound);
    assert_eq!(route("post", "/v1/chat/completions"), Route::NotFound);
}

#[test]
fn messages_of_requests() {
    let request = ChatRequest {
        messages: vec![
            RequestMessage::System(Value::String("Be \"brief\"".into())),
            RequestMessage::User(Value::String("Tell a story".into())),
            RequestMessage::User(Value::Array(vec![Value::from(1), Value::Null])),
        ],
        max_tokens: Some(256),
    };
    let messages = messages(&request);
    assert_eq!(messages.len(), 3);
    assert_eq!(messages[0].role, Role::System);
    assert_eq!(messages[0].content, "\"Be \\\"brief\\\"\"");
    assert_eq!(messages[1].role, Role::User);
    assert_eq!(messages[1].content, "\"Tell a story\"");
    assert_eq!(messages[2].content, "[1,null]");
}

#[test]
fn test_post_send() {
    let req_body = serde_json::to_string(&CreateChatCompletionRequest {
        model: ModelIdsShared {},
        messages: vec![ChatCompletionRequestMessage::User(ChatCompletionRequestUserMessage {
            content: Value::String("Tell a story".into()),
            name: None,
        })],
        metadata: None,
        service_tier: None,
        audio: None,
        function_call: None,
        functions: None,
        max_completion_tokens: None,
        max_tokens: Some(256),
        modalities: None,
        n: None,
        parallel_tool_calls: None,
        prediction: None,
        reasoning_effort: None,
        response_format: None,
        store: None,
        tool_choice: None,
        tools: None,
        top_logprobs: None,
        web_search_options: None,
        frequency_penalty: None,
        logit_bias: None,
        logprobs: None,
        presence_penalty: None,
        seed: None,
        stop: None,
        stream: Some(true),
        stream_options: None,
        temperature: None,
        top_p: None,
        user: None,
    })
    .unwrap();
    let request = match call("POST", V1_CHAT_COMPLETIONS, req_body.as_bytes()) {
        Answer::Complete(request) => request,
        _ => panic!(),
    };
    assert_eq!(request.max_tokens, Some(256));
    assert!(check_messages(&request));
    let messages = messages(&request);
    assert_eq!(messages.len(), 1);
    assert_eq!(messages[0].role, Role::User);
    assert_eq!(messages[0].content, "\"Tell a story\"");
    let mut manager = ServiceManager::new(100);
    let (session, _) = manager.complete_chat(request.max_tokens, vec![1], (), (), fresh);
    assert_eq!(manager.sessions[&session.id.0].remaining_steps, 256);
}

const BODY: &str = "{\"model\": {}, \"messages\": [\
    {\"role\": \"system\", \"content\": \"Be brief\", \"name\": null}, \
    {\"role\": \"user\", \"content\": [1, null], \"name\": null}]}";

#[test]
fn calls() {
    match call("POST", "/v1/chat/completions", BODY.as_bytes()) {
        Answer::Complete(request) => {
            assert_eq!(request.max_tokens, None);
            let messages = messages(&request);
            assert_eq!(messages.len(), 2);
            assert_eq!(messages[0].role, Role::System);
            assert_eq!(messages[0].content, "\"Be brief\"");
            assert_eq!(messages[1].role, Role::User);
            assert_eq!(messages[1].content, "[1,null]");
        }
        _ => panic!(),
    }
    assert!(matches!(call("GET", "/v1/chat/completions", BODY.as_bytes()), Answer::NotFound));
    assert!(matches!(call("POST", "/", b"no JSON"), Answer::NotFound));
    for body in ["", "no JSON", "{}", "[1]", "{\"model\": {}}"] {
        match call("POST", "/v1/chat/completions", body.as_bytes()) {
            Answer::WrongJson(text) => assert!(!text.is_empty()),
            _ => panic!("{body}"),
        }
    }
    assert!(matches!(answer(Err("why".to_string())), Answer::WrongJson(text) if text == "why"));
    let request = ChatRequest { messages: vec![], max_tokens: Some(3) };
    assert!(matches!(answer(Ok(request)), Answer::Complete(request) if request.max_tokens == Some(3)));
}

#[test]
fn only_users_and_the_system_can_be_answered() {
    let body = BODY.replace("\"system\"", "\"developer\"");
    match call("POST", "/v1/chat/completions", body.as_bytes()) {
        Answer::Complete(request) => {
            assert!(matches!(request.messages[0], RequestMessage::Developer));
            assert!(!check_messages(&request));
        }
        Answer::WrongJson(text) => panic!("{text}"),
        Answer::NotFound => panic!(),
    }
}

fn fresh() -> DistKVCache<&'static str> {
    DistKVCache { parts: "new", pos: 0 }
}

#[test]
fn conversations_are_kept_and_taken_up_again() {
    let mut manager = ServiceManager::new(32);
    let (session, input) = manager.complete_chat(None, vec![1, 2], 'x', "first", fresh);
    assert_eq!(session.id, SessionId(0));
    assert_eq!(session.sample_args, 'x');
    assert_eq!(session.cache.parts, "new");
    assert_eq!(input, vec![1, 2]);
    assert_eq!(manager.sessions[&0].remaining_steps, 32);
    let (session, _) = manager.complete_chat(Some(4), vec![9], 'x', "second", fresh);
    assert_eq!(session.id, SessionId(1));
    assert_eq!(manager.sessions[&1].remaining_steps, 4);
    assert!(manager.answers(SessionId(0)) && manager.answers(SessionId(1)));
    assert!(!manager.answers(SessionId(2)));
    manager.output(SessionId(0), &vec![3]);
    manager.output(SessionId(0), &vec![4, 5]);
    assert_eq!(manager.sessions[&0].tokens, vec![1, 2, 3, 4, 5]);
    assert_eq!(manager.sessions[&1].tokens, vec![9]);
    assert_eq!(manager.sender(SessionId(0)), Some(&"first"));
    assert_eq!(manager.sender(SessionId(7)), None);
    let cache = DistKVCache { parts: "kept", pos: 5 };
    let sender = manager.finish(100, SessionId(0), ReturnReason::Finish, cache);
    assert_eq!(sender, "first");
    assert!(!manager.answers(SessionId(0)));
    let (session, input) =
        manager.complete_chat(Some(-1), vec![1, 2, 3, 4, 5, 6], 'x', "third", fresh);
    assert_eq!(session.id, SessionId(2));
    assert_eq!(session.cache.parts, "kept");
    assert_eq!(session.cache.pos, 5);
    assert_eq!(input, vec![6]);
    assert_eq!(manager.sessions[&2].remaining_steps, -1i32 as usize);
}

#[test]
fn outputs_are_delivered_until_one_cannot_be() {
    let mut manager = ServiceManager::new(32);
    let _ = manager.complete_chat(None, vec![1], (), 'a', fresh);
    let _ = manager.complete_chat(None, vec![2], (), 'b', fresh);
    let outputs =
        vec![(SessionId(0), vec![10]), (SessionId(1), vec![20]), (SessionId(0), vec![11])];
    assert!(manager.deliver(&outputs, 0, true));
    assert!(manager.deliver(&outputs, 1, true));
    assert_eq!(manager.sessions[&1].tokens, vec![2, 20]);
    assert!(!manager.deliver(&outputs, 2, false));
    assert_eq!(manager.sessions[&0].tokens, vec![1, 10]);
    assert!(manager.deliver(&outputs, 2, true));
    assert_eq!(manager.sessions[&0].tokens, vec![1, 10, 11]);
    assert!(!manager.deliver(&outputs, 3, true));
}

#[test]
fn responses() {
    let response = create_chat_completion_response(
        SessionId(12),
        1700000000,
        "llama".to_string(),
        "Once".to_string(),
        Some('s'),
    );
    assert_eq!(response.id, "SessionId(12)");
    assert_eq!(response.id, format!("{:?}", SessionId(12)));
    assert_eq!(response.object, "chat.completion");
    assert_eq!(response.created, 1700000000);
    assert_eq!(response.model, "llama");
    assert_eq!(response.choices.len(), 1);
    assert_eq!(response.choices[0].index, 0);
    assert_eq!(response.choices[0].content, "Once");
    assert_eq!(response.choices[0].finish_reason, Some('s'));
}
