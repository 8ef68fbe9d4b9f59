//! Chatting: what the command line asks for, and the plain chat line by line. The chat
//! screen is in [`tui`].
pub mod app_session;
pub mod tui;

use vstd::prelude::*;
use vstd::string::StringExecFns;

verus! {

/// What every command needs to know: the model file, the devices to run it on, how many
/// tokens to answer with at most, and whether to do without recorded device graphs.
pub struct BaseArgs {
    pub model: String,
    pub gpus: Vec<i32>,
    pub max_steps: usize,
    pub no_cuda_graph: bool,
}

/// The arguments of a chat.
pub struct ChatArgs {
    pub base: BaseArgs,
    /// On a screen rather than line by line.
    pub tui: bool,
}

/// What a service is made of.
pub struct ServiceConfig {
    pub model: String,
    pub gpus: Vec<i32>,
    pub use_cuda_graph: bool,
}

/// How to chat once the service runs.
pub enum ChatMode {
    /// Line by line.
    Simple(usize),
    /// On a screen.
    Screen(usize),
}

impl ChatArgs {
    /// The service that the arguments ask for, and the way to chat with it, with the number
    /// of tokens that an answer has at most.
    pub fn chat(self) -> (plan: (ServiceConfig, ChatMode))
        ensures
            plan.0.model == self.base.model,
            plan.0.gpus == self.base.gpus,
            plan.0.use_cuda_graph == !self.base.no_cuda_graph,
            plan.1 == (if self.tui {
                ChatMode::Screen(self.base.max_steps)
            } else {
                ChatMode::Simple(self.base.max_steps)
            }),
    {
        let ChatArgs { base, tui: advanced } = self;
        let BaseArgs { model, gpus, max_steps, no_cuda_graph } = base;
        let service = ServiceConfig { model, gpus, use_cuda_graph: !no_cuda_graph };
        if !advanced {
            (service, ChatMode::Simple(max_steps))
        } else {
            (service, ChatMode::Screen(max_steps))
        }
    }
}

/// Whose turn it is in a chat line by line.
pub enum Turn {
    /// A line of the user's is awaited.
    User,
    /// An answer is awaited, for so many more messages of the service at most.
    Assistant(usize),
}

/// A chat line by line. Its session is with the service while an answer is awaited, and
/// stays there if the answer is not complete after as many messages as it may have tokens.
pub struct Simple<Se> {
    pub session: Option<Se>,
    pub max_steps: usize,
    pub turn: Turn,
}

/// What follows a line of the user's.
pub enum Reply<Se> {
    /// The line was empty: ask for another one.
    Again,
    /// Start the session on the line, for so many tokens at most, and print a text.
    Start(Se, String, usize, String),
}

/// What is printed in front of a line of the user's.
pub const USER: &'static str = "user> ";

/// What is printed in front of an answer.
pub open spec fn answer_begin() -> Seq<char> {
    "assistant> "@
}

/// What is printed behind an answer.
pub open spec fn answer_end() -> Seq<char> {
    "\n=== over ===\n"@
}

/// Some texts, one behind the other.
pub open spec fn joined(texts: Seq<String>) -> Seq<char>
    decreases texts.len(),
{
    if texts.len() == 0 {
        seq![]
    } else {
        joined(texts.drop_last()) + texts.last()@
    }
}

impl<Se> Simple<Se> {
    /// While an answer is awaited the session is away, and at least one and at most
    /// `max_steps` more messages are waited for.
    pub open spec fn wf(self) -> bool {
        self.turn matches Turn::Assistant(left) ==> self.session is None && 0 < left
            <= self.max_steps
    }

    /// A chat in which the user has not written anything yet.
    pub fn new(session: Se, max_steps: usize) -> (chat: Self)
        ensures
            chat == (Simple { session: Some(session), max_steps, turn: Turn::User }),
            chat.wf(),
    {
        Simple { session: Some(session), max_steps, turn: Turn::User }
    }

    /// A session is there to be started.
    pub fn ready(&self) -> (ready: bool)
        ensures
            ready == (self.session is Some),
    {
        self.session.is_some()
    }

    /// Takes a line of the user's, with the line feed at its end. An empty one is passed
    /// over.
    pub fn read_line(&mut self, line: String) -> (reply: Reply<Se>)
        requires
            old(self).turn is User,
            line@.len() > 1 ==> old(self).session is Some,
            line@.len() > 0,
            line@.last() == '\n',
        ensures
            final(self).wf(),
            line@.len() == 1 ==> reply is Again && *final(self) == *old(self),
            line@.len() > 1 ==> (reply matches Reply::Start(session, prompt, steps, text) && {
                &&& old(self).session == Some(session)
                &&& prompt@ == line@.drop_last()
                &&& steps == old(self).max_steps
                &&& old(self).max_steps > 0 ==> text@ == "assistant> "@
                &&& old(self).max_steps == 0 ==> text@ == "assistant> "@ + "\n=== over ===\n"@
                &&& text@ == if old(self).max_steps == 0 {
                    answer_begin() + answer_end()
                } else {
                    answer_begin()
                }
                &&& *final(self) == (Simple {
                    session: None::<Se>,
                    max_steps: old(self).max_steps,
                    turn: if old(self).max_steps == 0 {
                        Turn::User
                    } else {
                        Turn::Assistant(old(self).max_steps)
                    },
                })
            }),
    {
        let mut line = line;
        let _ = line.pop();
        if line.as_str().is_empty() {
            return Reply::Again;
        }
        let mut text = "assistant> ".to_owned();
        self.turn = Turn::Assistant(self.max_steps);
        if self.max_steps == 0 {
            self.turn = Turn::User;
            text.append("\n=== over ===\n");
        }
        Reply::Start(self.session.take().unwrap(), line, self.max_steps, text)
    }

    /// Takes a message of the service: pieces of the answer, and sessions that came back, of
    /// which the first is the one whose answer is complete. Hands out what is printed.
    pub fn receive(&mut self, outputs: &Vec<String>, returned: Vec<Se>) -> (text: String)
        requires
            old(self).wf(),
            old(self).turn is Assistant,
        ensures
            final(self).wf(),
            final(self).max_steps == old(self).max_steps,
            final(self).session == if returned.len() > 0 {
                Some(returned@[0])
            } else {
                old(self).session
            },
            ({
                let left = old(self).turn->Assistant_0;
                let over = returned.len() > 0 || left == 1;
                &&& final(self).turn == if over {
                    Turn::User
                } else {
                    Turn::Assistant((left - 1) as usize)
                }
                &&& over ==> text@ == joined(outputs@) + "\n=== over ===\n"@
                &&& text@ == if over {
                    joined(outputs@) + answer_end()
                } else {
                    joined(outputs@)
                }
            }),
    {
        let mut text = String::new();
        let mut i: usize = 0;
        while i < outputs.len()
            invariant
                i <= outputs.len(),
                text@ == joined(outputs@.take(i as int)),
            decreases outputs.len() - i,
        {
            text.append(outputs[i].as_str());
            assert(outputs@.take(i as int + 1).drop_last() =~= outputs@.take(i as int));
            i = i + 1;
        }
        assert(outputs@.take(outputs.len() as int) =~= outputs@);
        let left: usize = match self.turn {
            Turn::User => 1,
            Turn::Assistant(left) => left,
        };
        let mut returned = returned;
        let over = returned.len() > 0 || left == 1;
        if returned.len() > 0 {
            self.session = Some(returned.remove(0));
        }
        if over {
            self.turn = Turn::User;
            text.append("\n=== over ===\n");
        } else {
            self.turn = Turn::Assistant(left - 1);
        }
        text
    }
}

/// The pieces of an answer are printed one behind the other, with nothing between them.
pub proof fn law_pieces_are_printed_in_order(texts: Seq<String>)
    ensures
        joined(texts) == texts.map_values(|t: String| t@).flatten(),
    decreases texts.len(),
{
    let all = texts.map_values(|t: String| t@);
    if texts.len() == 0 {
        assert(all =~= Seq::<Seq<char>>::empty());
    } else {
        let front = texts.drop_last().map_values(|t: String| t@);
        law_pieces_are_printed_in_order(texts.drop_last());
        assert(all.drop_last() =~= front);
        all.lemma_flatten_and_flatten_alt_are_equivalent();
        front.lemma_flatten_and_flatten_alt_are_equivalent();
    }
}

} // verus!
