//! One conversation of the chat screen.
use crate::session::SessionId;
use vstd::prelude::*;
use vstd::string::StringExecFns;

verus! {

/// A conversation: its messages, the user's and the assistant's in turn, and the session
/// behind it while no answer is under way.
pub struct AppSession<Se> {
    id: SessionId,
    name: String,
    session: Option<Se>,
    msgs: Vec<String>,
}

/// What a conversation holds.
#[verifier::ext_equal]
pub struct SessionModel<Se> {
    pub id: SessionId,
    pub name: Seq<char>,
    pub session: Option<Se>,
    pub msgs: Seq<Seq<char>>,
}

impl<Se> SessionModel<Se> {
    /// An answer is under way.
    pub open spec fn busy(self) -> bool {
        self.session is None
    }

    /// The last message is the user's.
    pub open spec fn users_turn(self) -> bool {
        self.msgs.len() % 2 == 1
    }

    /// There is a message to write to, and an answer is under way exactly when that
    /// message is the assistant's.
    pub open spec fn in_turn(self) -> bool {
        self.msgs.len() > 0 && (self.busy() <==> !self.users_turn())
    }

    /// The conversation with `text` as its last message.
    pub open spec fn with_last(self, text: Seq<char>) -> Self {
        SessionModel { msgs: self.msgs.drop_last().push(text), ..self }
    }

    /// The conversation once its last message was sent: an answer begins.
    pub open spec fn started(self) -> Self {
        SessionModel { session: None, msgs: self.msgs.push(seq![]), ..self }
    }

    /// The conversation once the answer is complete and `session` came back.
    pub open spec fn idled(self, session: Se) -> Self {
        SessionModel { session: Some(session), msgs: self.msgs.push(seq![]), ..self }
    }
}

impl<Se> View for AppSession<Se> {
    type V = SessionModel<Se>;

    closed spec fn view(&self) -> SessionModel<Se> {
        SessionModel {
            id: self.id,
            name: self.name@,
            session: self.session,
            msgs: self.msgs@.map_values(|m: String| m@),
        }
    }
}

impl<Se> AppSession<Se> {
    /// A conversation in which the user has not written anything yet.
    pub fn new(id: SessionId, name: &str, session: Se) -> (s: Self)
        ensures
            s@ == (SessionModel {
                id,
                name: name@,
                session: Some(session),
                msgs: seq![Seq::<char>::empty()],
            }),
            s@.in_turn(),
    {
        let mut msgs: Vec<String> = Vec::new();
        msgs.push(String::new());
        let s = AppSession { id, name: name.to_owned(), session: Some(session), msgs };
        assert(s@.msgs =~= seq![Seq::<char>::empty()]);
        s
    }

    /// Which conversation this is.
    pub fn id(&self) -> (id: SessionId)
        ensures
            id == self@.id,
    {
        self.id
    }

    /// What it is called.
    pub fn name(&self) -> (name: &str)
        ensures
            name@ == self@.name,
    {
        self.name.as_str()
    }

    /// Whether an answer is under way.
    pub fn is_busy(&self) -> (busy: bool)
        ensures
            busy == self@.busy(),
    {
        self.session.is_none()
    }

    /// What was said so far.
    pub fn msgs(&self) -> (msgs: &Vec<String>)
        ensures
            msgs@.map_values(|m: String| m@) == self@.msgs,
    {
        &self.msgs
    }

    /// Writes `ch` behind the last message.
    pub fn push(&mut self, ch: char)
        requires
            old(self)@.msgs.len() > 0,
        ensures
            final(self)@ == old(self)@.with_last(old(self)@.msgs.last().push(ch)),
    {
        match self.msgs.pop() {
            Some(mut last) => {
                last.push(ch);
                self.msgs.push(last);
            },
            None => {},
        }
        assert(self@.msgs =~= old(self)@.with_last(old(self)@.msgs.last().push(ch)).msgs);
    }

    /// Takes the last character off the last message, if it has one.
    pub fn pop(&mut self)
        requires
            old(self)@.msgs.len() > 0,
        ensures
            final(self)@ == old(self)@.with_last(erased(old(self)@.msgs.last())),
    {
        match self.msgs.pop() {
            Some(mut last) => {
                let _ = last.pop();
                self.msgs.push(last);
            },
            None => {},
        }
        assert(self@.msgs =~= old(self)@.with_last(erased(old(self)@.msgs.last())).msgs);
    }

    /// Writes `text` behind the last message.
    pub fn push_str(&mut self, text: &str)
        requires
            old(self)@.msgs.len() > 0,
        ensures
            final(self)@ == old(self)@.with_last(old(self)@.msgs.last() + text@),
    {
        match self.msgs.pop() {
            Some(mut last) => {
                last.append(text);
                self.msgs.push(last);
            },
            None => {},
        }
        assert(self@.msgs =~= old(self)@.with_last(old(self)@.msgs.last() + text@).msgs);
    }

    /// Sends the last message: hands the session out together with that message, and makes
    /// room for the answer. Does nothing while an answer is under way.
    pub fn start(&mut self) -> (started: Option<(Se, String)>)
        requires
            old(self)@.msgs.len() > 0,
        ensures
            match started {
                Some((session, prompt)) => {
                    &&& old(self)@.session == Some(session)
                    &&& prompt@ == old(self)@.msgs.last()
                    &&& final(self)@ == old(self)@.started()
                },
                None => old(self)@.busy() && final(self)@ == old(self)@,
            },
    {
        match self.session.take() {
            Some(session) => {
                let prompt = self.msgs[self.msgs.len() - 1].clone();
                self.msgs.push(String::new());
                assert(self@.msgs =~= old(self)@.started().msgs);
                Some((session, prompt))
            },
            None => None,
        }
    }

    /// Takes the session back when the answer is complete, and makes room for the user's
    /// next message.
    pub fn idle(&mut self, session: Se)
        ensures
            final(self)@ == old(self)@.idled(session),
    {
        self.session = Some(session);
        self.msgs.push(String::new());
        assert(self@.msgs =~= old(self)@.idled(session).msgs);
    }
}

/// A message without its last character.
pub open spec fn erased(text: Seq<char>) -> Seq<char> {
    if text.len() == 0 {
        text
    } else {
        text.drop_last()
    }
}

/// Sending gives the turn to the assistant, and the answer's end gives it back: the two
/// write in turn, whoever is first.
pub proof fn law_turns_alternate<Se>(model: SessionModel<Se>, session: Se)
    requires
        model.in_turn(),
    ensures
        !model.busy() ==> model.started().in_turn() && !model.started().users_turn(),
        model.busy() ==> model.idled(session).in_turn() && model.idled(session).users_turn(),
{
}

/// Erasing takes back what was typed last.
pub proof fn law_erase_undoes_typing<Se>(model: SessionModel<Se>, ch: char)
    requires
        model.msgs.len() > 0,
    ensures
        ({
            let typed = model.with_last(model.msgs.last().push(ch));
            typed.with_last(erased(typed.msgs.last())) == model
        }),
{
    let typed = model.with_last(model.msgs.last().push(ch));
    assert(typed.msgs.last().drop_last() =~= model.msgs.last());
    assert(typed.with_last(erased(typed.msgs.last())).msgs =~= model.msgs);
}

/// Writing to a conversation changes its last message and nothing else.
pub proof fn law_writing_changes_the_last_message<Se>(model: SessionModel<Se>, text: Seq<char>)
    requires
        model.msgs.len() > 0,
    ensures
        model.with_last(text).id == model.id,
        model.with_last(text).name == model.name,
        model.with_last(text).session == model.session,
        model.with_last(text).msgs == model.msgs.update(model.msgs.len() - 1, text),
{
    assert(model.with_last(text).msgs =~= model.msgs.update(model.msgs.len() - 1, text));
}

/// Sending a message and taking an answer's end in both begin an empty message and leave all that
/// was said as it is. The session is away after the first and back after the second.
pub proof fn law_turns_begin_empty<Se>(model: SessionModel<Se>, session: Se)
    ensures
        model.started().id == model.id,
        model.started().name == model.name,
        model.started().session is None,
        model.started().msgs == model.msgs.push(Seq::<char>::empty()),
        model.idled(session).id == model.id,
        model.idled(session).name == model.name,
        model.idled(session).session == Some(session),
        model.idled(session).msgs == model.msgs.push(Seq::<char>::empty()),
{
}

/// Erasing takes the last character, if there is one, and leaves the others.
pub proof fn law_erasing_takes_the_last_character(text: Seq<char>, ch: char)
    ensures
        erased(Seq::<char>::empty()) == Seq::<char>::empty(),
        erased(text.push(ch)) == text,
{
    assert(text.push(ch).drop_last() =~= text);
}

/// The user writes the first message and every second one after it.
pub proof fn law_turns_are_counted<Se>(model: SessionModel<Se>)
    ensures
        model.users_turn() <==> model.msgs.len() % 2 == 1,
        model.busy() <==> model.session is None,
{
}

} // verus!
