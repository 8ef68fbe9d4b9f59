//! Answering chat requests over the network: which requests there are, what they start, and
//! what becomes of the answers.
pub mod openai;

use crate::chat::{BaseArgs, ServiceConfig};
use crate::service_::{cache_manager, CacheManager, Sent};
use crate::session::{DistKVCache, SessionId};
use openai_struct::{ChatCompletionRequestMessage, CreateChatCompletionRequest};
use serde_json::Value;
use std::collections::BTreeMap;
use tokeneer::utok;
use vstd::prelude::*;

verus! {

broadcast use {vstd::laws_eq::group_laws_eq, vstd::laws_cmp::group_laws_cmp};

/// A value in JSON.
#[verifier::external_type_specification]
#[verifier::external_body]
pub struct ExValue(Value);

/// A value in JSON, written out.
pub uninterp spec fn json_text(value: &Value) -> Seq<char>;

/// The `Display` of `serde_json::Value` writes a value out as JSON: always the same text for
/// one value. A string stands in quotes there.
#[verifier::external_body]
fn write_json(value: &Value) -> (text: String)
    ensures
        text@ == json_text(value),
{
    value.to_string()
}

/// The arguments of a service.
pub struct ServiceArgs {
    pub base: BaseArgs,
    pub port: u16,
}

/// How a service is run: what it is made of, where it listens, and how many tokens an answer
/// has at most unless the request says so.
pub struct ServicePlan {
    pub config: ServiceConfig,
    pub port: u16,
    pub max_steps: usize,
}

impl ServiceArgs {
    /// The service that the arguments ask for.
    pub fn service(self) -> (plan: ServicePlan)
        ensures
            plan.config.model == self.base.model,
            plan.config.gpus == self.base.gpus,
            plan.config.use_cuda_graph == !self.base.no_cuda_graph,
            plan.port == self.port,
            plan.max_steps == self.base.max_steps,
    {
        let ServiceArgs { base, port } = self;
        let BaseArgs { model, gpus, max_steps, no_cuda_graph } = base;
        ServicePlan {
            config: ServiceConfig { model, gpus, use_cuda_graph: !no_cuda_graph },
            port,
            max_steps,
        }
    }
}

/// What a request over the network asks for.
#[derive(Clone, Copy, PartialEq, Eq, Structural, Debug)]
pub enum Route {
    /// The completion of a chat.
    CompleteChat,
    /// Something that is not there.
    NotFound,
}

/// What a method and a path ask for.
pub fn route(method: &str, path: &str) -> (route: Route)
    ensures
        route == if method@ == "POST"@ && path@ == openai::chat_completions() {
            Route::CompleteChat
        } else {
            Route::NotFound
        },
        route is CompleteChat <==> method@ == "POST"@ && path@ == "/v1/chat/completions"@,
{
    if method.to_owned() == "POST".to_owned() && path.to_owned()
        == openai::V1_CHAT_COMPLETIONS.to_owned() {
        Route::CompleteChat
    } else {
        Route::NotFound
    }
}

/// A message of a request. Only what users and the system say can be answered; of the other
/// kinds, the kind is all that matters.
pub enum RequestMessage {
    User(Value),
    System(Value),
    Developer,
    Assistant,
    Tool,
    Function,
}

impl RequestMessage {
    /// The message is a user's or the system's.
    pub open spec fn is_spoken(self) -> bool {
        self is User || self is System
    }
}

/// A request to complete a chat.
pub struct ChatRequest {
    pub messages: Vec<RequestMessage>,
    pub max_tokens: Option<i32>,
}

/// What the body of a request says: its messages and the tokens that it asks for, or what is
/// wrong with it.
pub uninterp spec fn parsed_request(body: Seq<u8>) -> Result<
    (Seq<RequestMessage>, Option<i32>),
    Seq<char>,
>;

/// `serde_json::from_slice` reads a body as a request to complete a chat, as
/// `openai_struct::CreateChatCompletionRequest` has it: always the same request for one body,
/// or the same account of what is wrong with it. Of the request, its messages in their order
/// and the number of tokens that it asks for are handed out.
#[verifier::external_body]
fn parse_request(body: &[u8]) -> (request: Result<ChatRequest, String>)
    ensures
        match request {
            Ok(request) => parsed_request(body@) == Ok::<
                (Seq<RequestMessage>, Option<i32>),
                Seq<char>,
            >((request.messages@, request.max_tokens)),
            Err(text) => parsed_request(body@) == Err::<
                (Seq<RequestMessage>, Option<i32>),
                Seq<char>,
            >(text@),
        },
{
    let request = serde_json::from_slice::<CreateChatCompletionRequest>(body);
    let request = request.map_err(|error| error.to_string())?;
    let messages = request.messages.into_iter().map(
        |message| match message {
            ChatCompletionRequestMessage::User(message) => RequestMessage::User(message.content),
            ChatCompletionRequestMessage::System(message) => RequestMessage::System(message.content),
            ChatCompletionRequestMessage::Developer(_) => RequestMessage::Developer,
            ChatCompletionRequestMessage::Assistant(_) => RequestMessage::Assistant,
            ChatCompletionRequestMessage::Tool(_) => RequestMessage::Tool,
            ChatCompletionRequestMessage::Function(_) => RequestMessage::Function,
        },
    ).collect();
    Ok(ChatRequest { messages, max_tokens: request.max_tokens })
}

/// What a request over the network is answered with.
pub enum Answer {
    /// That there is nothing there.
    NotFound,
    /// That its body is not such a request, and why.
    WrongJson(String),
    /// The completion of a chat.
    Complete(ChatRequest),
}

/// What a request over the network is answered with. Its body is read only where chats are
/// completed.
pub fn call(method: &str, path: &str, body: &[u8]) -> (answer: Answer)
    ensures
        answer is NotFound <==> !(method@ == "POST"@ && path@ == openai::chat_completions()),
        answer is NotFound <==> !(method@ == "POST"@ && path@ == "/v1/chat/completions"@),
        answer is WrongJson <==> !(answer is NotFound) && parsed_request(body@) is Err,
        answer matches Answer::WrongJson(text) ==> parsed_request(body@) == Err::<
            (Seq<RequestMessage>, Option<i32>),
            Seq<char>,
        >(text@),
        answer matches Answer::Complete(request) ==> parsed_request(body@) == Ok::<
            (Seq<RequestMessage>, Option<i32>),
            Seq<char>,
        >((request.messages@, request.max_tokens)),
{
    match route(method, path) {
        Route::NotFound => Answer::NotFound,
        Route::CompleteChat => answer(parse_request(body)),
    }
}

/// What a request to complete a chat is answered with, once its body was read.
pub fn answer(request: Result<ChatRequest, String>) -> (answer: Answer)
    ensures
        answer == match request {
            Ok(request) => Answer::Complete(request),
            Err(text) => Answer::WrongJson(text),
        },
{
    match request {
        Ok(request) => Answer::Complete(request),
        Err(text) => Answer::WrongJson(text),
    }
}

/// Whether all messages of a request are of users or of the system.
pub fn check_messages(request: &ChatRequest) -> (fine: bool)
    ensures
        fine == forall|i: int|
            0 <= i < request.messages.len() ==> (#[trigger] request.messages@[i]).is_spoken(),
{
    let mut i: usize = 0;
    while i < request.messages.len()
        invariant
            i <= request.messages.len(),
            forall|j: int| 0 <= j < i ==> (#[trigger] request.messages@[j]).is_spoken(),
        decreases request.messages.len() - i,
    {
        match &request.messages[i] {
            RequestMessage::User(_) => {},
            RequestMessage::System(_) => {},
            _ => {
                assert(!request.messages@[i as int].is_spoken());
                return false;
            },
        }
        i = i + 1;
    }
    true
}

/// Who says something.
#[derive(Clone, Copy, PartialEq, Eq, Structural, Debug)]
pub enum Role {
    User,
    System,
}

/// Something that is said.
pub struct Message {
    pub role: Role,
    pub content: String,
}

/// A message of a request as it is handed to the model.
pub open spec fn is_said(message: Message, request: RequestMessage) -> bool {
    match request {
        RequestMessage::User(content) => message.role == Role::User && message.content@
            == json_text(&content),
        RequestMessage::System(content) => message.role == Role::System && message.content@
            == json_text(&content),
        _ => false,
    }
}

/// The messages of a request as they are handed to the model, in their order.
pub fn messages(request: &ChatRequest) -> (messages: Vec<Message>)
    requires
        forall|i: int|
            0 <= i < request.messages.len() ==> (#[trigger] request.messages@[i]).is_spoken(),
    ensures
        messages.len() == request.messages.len(),
        forall|i: int|
            0 <= i < messages.len() ==> is_said(#[trigger] messages@[i], request.messages@[i]),
{
    let mut messages: Vec<Message> = Vec::new();
    let mut i: usize = 0;
    while i < request.messages.len()
        invariant
            i <= request.messages.len(),
            forall|i: int|
                0 <= i < request.messages.len() ==> (#[trigger] request.messages@[i]).is_spoken(),
            messages.len() == i,
            forall|j: int| 0 <= j < i ==> is_said(#[trigger] messages@[j], request.messages@[j]),
        decreases request.messages.len() - i,
    {
        assert(request.messages@[i as int].is_spoken());
        match &request.messages[i] {
            RequestMessage::User(content) => {
                messages.push(Message { role: Role::User, content: write_json(content) });
            },
            RequestMessage::System(content) => {
                messages.push(Message { role: Role::System, content: write_json(content) });
            },
            _ => {},
        }
        i = i + 1;
    }
    messages
}

/// The tokens that an answer may have: as many as the request says, else `max_steps`.
pub open spec fn steps_of(max_tokens: Option<i32>, max_steps: usize) -> usize {
    match max_tokens {
        Some(max_tokens) => max_tokens as usize,
        None => max_steps,
    }
}

/// A session that is being answered: where the answer goes, all tokens of the conversation
/// so far, and how many tokens the answer may have.
pub struct SessionInfo<T> {
    pub sender: T,
    pub tokens: Vec<utok>,
    pub remaining_steps: usize,
}

/// Why a session has come back.
#[derive(Clone, Copy, PartialEq, Eq, Structural, Debug)]
pub enum ReturnReason {
    Finish,
    Overflow,
    NoDecode,
}

/// Keeps the sessions that are being answered and the caches of those that were.
pub struct ServiceManager<T, P> {
    pub max_steps: usize,
    /// The sessions that are being answered, by their numbers.
    pub sessions: BTreeMap<usize, SessionInfo<T>>,
    pub cache_manager: CacheManager<P>,
}

impl<T, P> ServiceManager<T, P> {
    /// No session has a number that is still to be given.
    pub open spec fn wf(&self) -> bool {
        forall|k: usize| #[trigger]
            self.sessions@.contains_key(k) ==> k < self.cache_manager.next_id
    }

    /// Nothing is being answered, and nothing is kept.
    pub fn new(max_steps: usize) -> (manager: Self)
        ensures
            manager.wf(),
            manager.max_steps == max_steps,
            manager.sessions@ == Map::<usize, SessionInfo<T>>::empty(),
            manager.cache_manager.caches@ == Map::<u64, (Vec<utok>, DistKVCache<P>)>::empty(),
            manager.cache_manager.next_id == 0,
    {
        ServiceManager { max_steps, sessions: BTreeMap::new(), cache_manager: CacheManager::new() }
    }

    /// Whether a session is being answered.
    pub fn answers(&self, id: SessionId) -> (answers: bool)
        ensures
            answers == self.sessions@.contains_key(id.0),
    {
        self.sessions.contains_key(&id.0)
    }

    /// Starts the next session on the tokens of a request, from the kept cache that has most
    /// of them, and takes note of where the answer goes.
    pub fn complete_chat<S, F: FnOnce() -> DistKVCache<P>>(
        &mut self,
        max_tokens: Option<i32>,
        tokens: Vec<utok>,
        sample_args: S,
        sender: T,
        new_cache: F,
    ) -> (sent: (Session<S, P>, Vec<utok>))
        requires
            old(self).wf(),
            old(self).cache_manager.next_id < usize::MAX,
            new_cache.requires(()),
            forall|cache: DistKVCache<P>|
                new_cache.ensures((), cache) ==> cache.pos <= tokens@.len(),
        ensures
            final(self).wf(),
            final(self).max_steps == old(self).max_steps,
            final(self).cache_manager.next_id == old(self).cache_manager.next_id + 1,
            !old(self).sessions@.contains_key(old(self).cache_manager.next_id),
            final(self).sessions@ == old(self).sessions@.insert(
                old(self).cache_manager.next_id,
                (SessionInfo {
                    sender,
                    tokens,
                    remaining_steps: steps_of(max_tokens, old(self).max_steps),
                }),
            ),
            sent.0.id == SessionId(old(self).cache_manager.next_id),
            sent.0.sample_args == sample_args,
            sent.1@ == tokens@.skip(sent.0.cache.pos as int),
            old(self).cache_manager.caches@.is_empty() ==> final(self).cache_manager.caches@
                == old(self).cache_manager.caches@ && new_cache.ensures((), sent.0.cache),
            !old(self).cache_manager.caches@.is_empty() ==> {
                let key = cache_manager::best_key(old(self).cache_manager.caches@, tokens@);
                &&& cache_manager::is_best(old(self).cache_manager.caches@, tokens@, key)
                &&& final(self).cache_manager.caches@ == old(self).cache_manager.caches@.remove(key)
                &&& sent.0.cache.parts == old(self).cache_manager.caches@[key].1.parts
                &&& sent.0.cache.pos == cache_manager::common(
                    old(self).cache_manager.caches@[key].0@,
                    tokens@,
                )
            },
    {
        let remaining_steps: usize = match max_tokens {
            Some(max_tokens) => #[verifier::truncate] (max_tokens as usize),
            None => self.max_steps,
        };
        let Sent { id, tokens, session, input } = self.cache_manager.send(
            tokens,
            sample_args,
            new_cache,
        );
        self.sessions.insert(id.0, SessionInfo { sender, tokens, remaining_steps });
        (session, input)
    }

    /// Takes note that a session has finished: its cache is kept, at the time `now`, with
    /// all the tokens of the conversation. Hands out where its answer went.
    pub fn finish(&mut self, now: u64, id: SessionId, reason: ReturnReason, cache: DistKVCache<
        P,
    >) -> (sender: T)
        requires
            old(self).wf(),
            old(self).sessions@.contains_key(id.0),
            reason is Finish,
        ensures
            final(self).wf(),
            final(self).max_steps == old(self).max_steps,
            final(self).cache_manager.next_id == old(self).cache_manager.next_id,
            final(self).sessions@ == old(self).sessions@.remove(id.0),
            final(self).cache_manager.caches@ == old(self).cache_manager.caches@.insert(
                now,
                (old(self).sessions@[id.0].tokens, cache),
            ),
            sender == old(self).sessions@[id.0].sender,
    {
        let SessionInfo { sender, tokens, .. } = self.sessions.remove(&id.0).unwrap();
        self.cache_manager.insert(now, tokens, cache);
        sender
    }

    /// Takes note of tokens that a session has put out.
    pub fn output(&mut self, id: SessionId, tokens: &Vec<utok>)
        requires
            old(self).wf(),
            old(self).sessions@.contains_key(id.0),
        ensures
            final(self).wf(),
            noted(*old(self), *final(self), id, tokens@),
    {
        let mut info = self.sessions.remove(&id.0).unwrap();
        let ghost before = info.tokens@;
        let mut i: usize = 0;
        while i < tokens.len()
            invariant
                i <= tokens.len(),
                info.tokens@ == before + tokens@.take(i as int),
                info.sender == old(self).sessions@[id.0].sender,
                info.remaining_steps == old(self).sessions@[id.0].remaining_steps,
            decreases tokens.len() - i,
        {
            info.tokens.push(tokens[i]);
            assert(tokens@.take(i as int + 1) =~= tokens@.take(i as int).push(tokens@[i as int]));
            i = i + 1;
        }
        assert(tokens@.take(tokens.len() as int) =~= tokens@);
        self.sessions.insert(id.0, info);
        assert(self.sessions@.dom() =~= old(self).sessions@.dom());
    }

    /// Goes on with the outputs of some sessions, of which `next` were sent: takes note of the
    /// next one, which is then to be sent. Nothing is to be sent after the last one, nor after
    /// one that could not be sent.
    pub fn deliver(
        &mut self,
        outputs: &Vec<(SessionId, Vec<utok>)>,
        next: usize,
        sent: bool,
    ) -> (deliver: bool)
        requires
            old(self).wf(),
            sent && next < outputs.len() ==> old(self).sessions@.contains_key(
                outputs@[next as int].0.0,
            ),
        ensures
            final(self).wf(),
            deliver == (sent && next < outputs.len()),
            !deliver ==> *final(self) == *old(self),
            deliver ==> noted(
                *old(self),
                *final(self),
                outputs@[next as int].0,
                outputs@[next as int].1@,
            ),
    {
        if !sent || next >= outputs.len() {
            return false;
        }
        self.output(outputs[next].0, &outputs[next].1);
        true
    }

    /// Where the answer of a session goes.
    pub fn sender(&self, id: SessionId) -> (sender: Option<&T>)
        ensures
            match sender {
                Some(sender) => self.sessions@.contains_key(id.0) && *sender
                    == self.sessions@[id.0].sender,
                None => !self.sessions@.contains_key(id.0),
            },
    {
        match self.sessions.get(&id.0) {
            Some(info) => Some(&info.sender),
            None => None,
        }
    }
}

/// A manager after it took note of tokens that a session has put out: they stand behind the
/// tokens of that conversation, and nothing else has changed.
pub open spec fn noted<T, P>(
    before: ServiceManager<T, P>,
    after: ServiceManager<T, P>,
    id: SessionId,
    tokens: Seq<utok>,
) -> bool {
    &&& after.max_steps == before.max_steps
    &&& after.cache_manager == before.cache_manager
    &&& after.sessions@.dom() == before.sessions@.dom()
    &&& forall|k: usize| #[trigger]
        before.sessions@.contains_key(k) && k != id.0 ==> after.sessions@[k]
            == before.sessions@[k]
    &&& after.sessions@[id.0].sender == before.sessions@[id.0].sender
    &&& after.sessions@[id.0].tokens@ == before.sessions@[id.0].tokens@ + tokens
    &&& after.sessions@[id.0].remaining_steps == before.sessions@[id.0].remaining_steps
}

/// A conversation that has finished is taken up again where it ended: a request that begins
/// with all that was said gets a cache that has at least that much of it.
pub proof fn law_conversations_are_taken_up_again<P>(
    caches: cache_manager::Caches<P>,
    now: u64,
    history: Vec<utok>,
    cache: DistKVCache<P>,
    tokens: Seq<utok>,
)
    requires
        history@.is_prefix_of(tokens),
    ensures
        ({
            let kept = caches.insert(now, (history, cache));
            let best = cache_manager::best_key(kept, tokens);
            &&& !kept.is_empty()
            &&& cache_manager::is_best(kept, tokens, best)
            &&& cache_manager::common(kept[best].0@, tokens) >= history@.len()
        }),
{
    let kept = caches.insert(now, (history, cache));
    assert(kept.contains_key(now));
    cache_manager::law_best_exists(kept, tokens);
    cache_manager::law_kept_conversation_is_not_fed_again(kept, tokens, now);
}

/// A session with its part of the cache.
pub type Session<S, P> = crate::session::Session<S, DistKVCache<P>>;

/// An answer may have as many tokens as its request says, and as many as the service allows where
/// the request says nothing.
pub proof fn law_requests_limit_their_answers(max_tokens: Option<i32>, max_steps: usize)
    ensures
        max_tokens is None ==> steps_of(max_tokens, max_steps) == max_steps,
        max_tokens matches Some(n) ==> (n >= 0 ==> steps_of(max_tokens, max_steps) == n),
        max_tokens matches Some(n) ==> steps_of(max_tokens, max_steps) == n as usize,
{
}

/// Tokens that a session puts out go behind the tokens of its own conversation, in their order;
/// no other conversation changes, and no session comes or goes.
pub proof fn law_outputs_are_noted_with_their_session<T, P>(
    before: ServiceManager<T, P>,
    after: ServiceManager<T, P>,
    id: SessionId,
    tokens: Seq<utok>,
    k: usize,
)
    requires
        noted(before, after, id, tokens),
        before.sessions@.contains_key(id.0),
        before.sessions@.contains_key(k),
    ensures
        after.sessions@.dom() == before.sessions@.dom(),
        k != id.0 ==> after.sessions@[k] == before.sessions@[k],
        after.sessions@[id.0].tokens@ == before.sessions@[id.0].tokens@ + tokens,
        after.sessions@[id.0].sender == before.sessions@[id.0].sender,
        after.sessions@[id.0].remaining_steps == before.sessions@[id.0].remaining_steps,
        after.max_steps == before.max_steps,
        after.cache_manager == before.cache_manager,
{
}

/// What is handed to the model is who said something and what, written out in JSON; nothing is
/// handed to it of what others than users and the system say.
pub proof fn law_messages_say_who_and_what(message: Message, request: RequestMessage)
    requires
        is_said(message, request),
    ensures
        request is User <==> message.role == Role::User,
        request is System <==> message.role == Role::System,
        request matches RequestMessage::User(content) ==> message.content@ == json_text(&content),
        request matches RequestMessage::System(content) ==> message.content@ == json_text(&content),
{
}

/// A request can be answered exactly when all its messages are of users or of the system.
pub proof fn law_who_can_be_answered(message: RequestMessage)
    ensures
        message.is_spoken() <==> !(message is Developer || message is Assistant || message is Tool
            || message is Function),
{
}

} // verus!
