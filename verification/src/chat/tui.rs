//! The chat screen: what keys do, what is shown, and where.
use super::app_session;
use super::app_session::{AppSession, SessionModel};
use crate::session::SessionId;
use crate::text;
use crate::text::{count_rows, push_decimal};
use std::collections::HashMap;
use vstd::prelude::*;
use vstd::string::StringExecFns;

verus! {

broadcast use vstd::std_specs::hash::group_hash_axioms;

/// Half a second, in nanoseconds.
pub const HALF_SECOND: u64 = 500_000_000;

/// A second, in nanoseconds.
pub const SECOND: u64 = 1_000_000_000;

/// Where keys go: to the list of conversations, with one of them under the cursor, or to
/// the conversation, whose cursor has been blinking since some time (in nanoseconds).
#[derive(Clone, Copy, PartialEq, Eq, Structural, Debug)]
pub enum Focus {
    List(usize),
    Main(u64),
}

impl Focus {
    /// Keys go to the list.
    pub fn select(&self) -> (b: bool)
        ensures
            b == (self is List),
    {
        matches!(self, Focus::List(_))
    }

    /// Keys go to the conversation.
    pub fn chat(&self) -> (b: bool)
        ensures
            b == (self is Main),
    {
        matches!(self, Focus::Main(_))
    }
}

/// Whose turn it is to write.
#[derive(Clone, Copy, PartialEq, Eq, Structural, Debug)]
pub enum State {
    User,
    Assistant,
}

/// The modifier keys that are held, as far as they matter.
#[derive(Clone, Copy, PartialEq, Eq, Structural, Debug)]
pub enum KeyModifiers {
    /// Control alone.
    Control,
    /// Shift alone.
    Shift,
    /// None, or any others.
    Other,
}

/// The key that was pressed, as far as it matters.
#[derive(Clone, Copy, PartialEq, Eq, Structural, Debug)]
pub enum KeyCode {
    Char(char),
    Enter,
    Esc,
    Backspace,
    Left,
    Right,
    Up,
    Down,
    Other,
}

/// A key press.
#[derive(Clone, Copy, PartialEq, Eq, Structural, Debug)]
pub struct KeyEvent {
    pub modifiers: KeyModifiers,
    pub code: KeyCode,
}

/// What a key press means.
#[derive(Clone, Copy, PartialEq, Eq, Structural, Debug)]
pub enum Command {
    /// Leave the chat.
    Stop,
    /// Break the answer off that is under way.
    Cancel,
    /// Write a character.
    Type(char),
    /// Erase a character.
    Erase,
    /// Go to the list.
    ToList,
    /// Go to the conversation.
    ToMain,
    /// Move or scroll up.
    Up,
    /// Move or scroll down.
    Down,
    /// Pick the conversation under the cursor.
    Pick,
    /// Send the message.
    Send,
    /// Begin a new conversation.
    Add,
    /// Drop the current conversation.
    Remove,
    /// Nothing.
    Nothing,
}

/// What a key press means where the keys go to `focus`.
pub open spec fn meaning(key: KeyEvent, focus: Focus) -> Command {
    match key.code {
        KeyCode::Char(ch) => if key.modifiers is Control && (ch == 'c' || ch == 'C') {
            Command::Stop
        } else if focus is Main {
            Command::Type(ch)
        } else if ch == '+' || ch == '=' {
            Command::Add
        } else if ch == '-' {
            Command::Remove
        } else {
            Command::Nothing
        },
        KeyCode::Esc => Command::Cancel,
        KeyCode::Enter => if focus is List {
            Command::Pick
        } else if key.modifiers is Shift {
            Command::Type('\n')
        } else {
            Command::Send
        },
        KeyCode::Backspace => if focus is Main {
            Command::Erase
        } else {
            Command::Nothing
        },
        KeyCode::Left => if focus is Main {
            Command::ToList
        } else {
            Command::Nothing
        },
        KeyCode::Right => if focus is List {
            Command::ToMain
        } else {
            Command::Nothing
        },
        KeyCode::Up => Command::Up,
        KeyCode::Down => Command::Down,
        KeyCode::Other => Command::Nothing,
    }
}

fn command(key: KeyEvent, focus: &Focus) -> (command: Command)
    ensures
        command == meaning(key, *focus),
{
    match (key.modifiers, key.code) {
        (KeyModifiers::Control, KeyCode::Char('c')) => Command::Stop,
        (KeyModifiers::Control, KeyCode::Char('C')) => Command::Stop,
        (_, KeyCode::Esc) => Command::Cancel,
        (_, KeyCode::Char(ch)) if focus.chat() => Command::Type(ch),
        (KeyModifiers::Shift, KeyCode::Enter) if focus.chat() => Command::Type('\n'),
        (_, KeyCode::Backspace) if focus.chat() => Command::Erase,
        (_, KeyCode::Left) if focus.chat() => Command::ToList,
        (_, KeyCode::Right) if focus.select() => Command::ToMain,
        (_, KeyCode::Up) => Command::Up,
        (_, KeyCode::Down) => Command::Down,
        (_, KeyCode::Enter) => if focus.select() {
            Command::Pick
        } else {
            Command::Send
        },
        (_, KeyCode::Char('+')) if focus.select() => Command::Add,
        (_, KeyCode::Char('=')) if focus.select() => Command::Add,
        (_, KeyCode::Char('-')) if focus.select() => Command::Remove,
        _ => Command::Nothing,
    }
}

/// What the screen asks for after a key press.
pub enum Action<Se> {
    /// Nothing.
    Nothing,
    /// Stop the answer of a session.
    Stop(SessionId),
    /// Start a session on a message, for so many steps at most.
    Start(Se, String, usize),
    /// Make a cache for a new conversation and add that.
    NewSession,
}

/// The chat screen.
pub struct App<Se> {
    max_steps: usize,
    stop: bool,
    focus: Focus,
    current: usize,
    sessions: HashMap<usize, AppSession<Se>>,
    sess_list: Vec<SessionId>,
    pos: usize,
    hc: usize,
    ha: usize,
}

/// What the chat screen holds: the conversations in the order of the list, which of them
/// is shown, where keys go, and how far the text is scrolled. `hc` and `ha` are the rows
/// that the text takes and the rows that there are, as they were last drawn.
#[verifier::ext_equal]
pub struct AppModel<Se> {
    pub max_steps: usize,
    pub stop: bool,
    pub focus: Focus,
    pub current: usize,
    pub sessions: Map<usize, SessionModel<Se>>,
    pub list: Seq<SessionId>,
    pub pos: usize,
    pub hc: usize,
    pub ha: usize,
}

/// `a - b`, or 0 where that is below 0.
pub open spec fn sat_sub(a: usize, b: usize) -> usize {
    if a >= b {
        (a - b) as usize
    } else {
        0
    }
}

/// The smaller of two numbers.
pub open spec fn smaller(a: usize, b: usize) -> usize {
    if a <= b {
        a
    } else {
        b
    }
}

impl<Se> AppModel<Se> {
    /// The list names each conversation once and no others, and each has a message to
    /// write to. The conversations can be counted.
    pub open spec fn wf(self) -> bool {
        &&& self.list.len() <= usize::MAX
        &&& self.list.no_duplicates()
        &&& forall|i: int|
            0 <= i < self.list.len() ==> self.sessions.contains_key((#[trigger] self.list[i]).0)
        &&& forall|k: usize| #[trigger]
            self.sessions.contains_key(k) ==> {
                &&& self.list.contains(SessionId(k))
                &&& self.sessions[k].id == SessionId(k)
                &&& self.sessions[k].msgs.len() > 0
            }
    }

    /// One of the conversations is shown.
    pub open spec fn shows_one(self) -> bool {
        self.current < self.list.len()
    }

    /// In every conversation an answer is under way exactly when it is the assistant's
    /// turn.
    pub open spec fn in_turn(self) -> bool {
        forall|k: usize| #[trigger]
            self.sessions.contains_key(k) ==> self.sessions[k].in_turn()
    }

    /// The conversation that is shown.
    pub open spec fn shown(self) -> SessionModel<Se> {
        self.sessions[self.list[self.current as int].0]
    }

    /// Whose turn it is in the conversation that is shown.
    pub open spec fn state(self) -> State {
        if self.shown().users_turn() {
            State::User
        } else {
            State::Assistant
        }
    }

    /// The screen with another state of the conversation that is shown.
    pub open spec fn with_shown(self, session: SessionModel<Se>) -> Self {
        AppModel {
            sessions: self.sessions.insert(self.list[self.current as int].0, session),
            ..self
        }
    }

    /// The screen after a command, at the time `now`.
    pub open spec fn after(self, command: Command, now: u64) -> Self {
        match command {
            Command::Stop => AppModel { stop: true, ..self },
            Command::Cancel => self,
            Command::Type(ch) => self.with_shown(
                self.shown().with_last(self.shown().msgs.last().push(ch)),
            ),
            Command::Erase => self.with_shown(
                self.shown().with_last(app_session::erased(self.shown().msgs.last())),
            ),
            Command::ToList => AppModel { focus: Focus::List(self.current), ..self },
            Command::ToMain => AppModel { focus: Focus::Main(now), ..self },
            Command::Up => match self.focus {
                Focus::List(i) => AppModel { focus: Focus::List(sat_sub(i, 1)), ..self },
                Focus::Main(_) => AppModel { pos: sat_sub(self.pos, 1), ..self },
            },
            Command::Down => match self.focus {
                Focus::List(i) => AppModel {
                    focus: Focus::List(
                        smaller(
                            if i == usize::MAX {
                                i
                            } else {
                                (i + 1) as usize
                            },
                            self.list.len() as usize,
                        ),
                    ),
                    ..self
                },
                Focus::Main(_) => AppModel {
                    pos: if self.pos == usize::MAX {
                        self.pos
                    } else {
                        (self.pos + 1) as usize
                    },
                    ..self
                },
            },
            Command::Pick => match self.focus {
                Focus::List(i) => AppModel { current: i, ..self },
                Focus::Main(_) => self,
            },
            Command::Send => if self.shown().busy() {
                self
            } else {
                self.with_shown(self.shown().started())
            },
            Command::Add => self,
            Command::Remove => if self.list.len() > 1 {
                let last = (self.list.len() - 2) as usize;
                AppModel {
                    sessions: self.sessions.remove(self.list[self.current as int].0),
                    list: self.list.remove(self.current as int),
                    current: smaller(self.current, last),
                    focus: match self.focus {
                        Focus::List(i) => Focus::List(smaller(i, last)),
                        Focus::Main(since) => Focus::Main(since),
                    },
                    ..self
                }
            } else {
                self
            },
            Command::Nothing => self,
        }
    }

    /// The screen with one more conversation, which is picked in the list.
    pub open spec fn added(self, session: SessionModel<Se>) -> Self {
        AppModel {
            sessions: self.sessions.insert(session.id.0, session),
            list: self.list.push(session.id),
            current: self.list.len() as usize,
            focus: Focus::List(self.list.len() as usize),
            ..self
        }
    }

    /// What a command asks for.
    pub open spec fn asks(self, command: Command, action: Action<Se>) -> bool {
        match command {
            Command::Cancel => if self.state() is Assistant {
                action == Action::<Se>::Stop(self.list[self.current as int])
            } else {
                action is Nothing
            },
            Command::Send => match self.shown().session {
                Some(session) => action matches Action::Start(se, prompt, steps) && se == session
                    && prompt@ == self.shown().msgs.last() && steps == self.max_steps,
                None => action is Nothing,
            },
            Command::Add => action is NewSession,
            _ => action is Nothing,
        }
    }
}

impl<Se> View for App<Se> {
    type V = AppModel<Se>;

    closed spec fn view(&self) -> AppModel<Se> {
        AppModel {
            max_steps: self.max_steps,
            stop: self.stop,
            focus: self.focus,
            current: self.current,
            sessions: self.sessions@.map_values(|s: AppSession<Se>| s@),
            list: self.sess_list@,
            pos: self.pos,
            hc: self.hc,
            ha: self.ha,
        }
    }
}

impl<Se> App<Se> {
    /// A screen with one conversation, to which keys go. It is called "default".
    pub fn new(id: SessionId, session: Se, max_steps: usize, now: u64) -> (app: Self)
        ensures
            app@ == (AppModel {
                max_steps,
                stop: false,
                focus: Focus::Main(now),
                current: 0,
                sessions: Map::<usize, SessionModel<Se>>::empty().insert(
                    id.0,
                    begun(id, "default"@, session),
                ),
                list: seq![id],
                pos: 0,
                hc: 1,
                ha: 1,
            }),
            app@.wf(),
            app@.shows_one(),
            app@.in_turn(),
    {
        let session = AppSession::new(id, "default", session);
        let ghost model = session@;
        let mut sessions: HashMap<usize, AppSession<Se>> = HashMap::new();
        sessions.insert(id.0, session);
        let mut sess_list: Vec<SessionId> = Vec::new();
        sess_list.push(id);
        let app = App {
            max_steps,
            stop: false,
            focus: Focus::Main(now),
            current: 0,
            sessions,
            sess_list,
            pos: 0,
            hc: 1,
            ha: 1,
        };
        proof {
            assert(app@.sessions =~= Map::<usize, SessionModel<Se>>::empty().insert(
                model.id.0,
                model,
            ));
            assert(app@.list =~= seq![model.id]);
            assert(app@.list[0] == model.id);
            assert(app@.list.contains(model.id));
        }
        app
    }

    /// The chat is over.
    pub fn stopped(&self) -> (stop: bool)
        ensures
            stop == self@.stop,
    {
        self.stop
    }

    /// Whether one of the conversations is shown. That is not so after the place behind the
    /// end of the list was picked.
    pub fn shows_one(&self) -> (shows: bool)
        ensures
            shows == self@.shows_one(),
    {
        self.current < self.sess_list.len()
    }

    /// Whether there is a conversation of that name.
    pub fn knows(&self, id: SessionId) -> (knows: bool)
        ensures
            knows == self@.sessions.contains_key(id.0),
    {
        let knows = self.sessions.contains_key(&id.0);
        assert(knows == self.sessions@.contains_key(id.0));
        knows
    }

    /// Which conversation is shown.
    pub fn current_id(&self) -> (id: SessionId)
        requires
            self@.shows_one(),
        ensures
            id == self@.list[self@.current as int],
    {
        self.sess_list[self.current]
    }

    /// Takes a conversation out, changes nothing else.
    fn take(&mut self, id: SessionId) -> (session: AppSession<Se>)
        requires
            old(self)@.sessions.contains_key(id.0),
        ensures
            session@ == old(self)@.sessions[id.0],
            final(self)@ == (AppModel {
                sessions: old(self)@.sessions.remove(id.0),
                ..old(self)@
            }),
    {
        let session = self.sessions.remove(&id.0);
        assert(self@.sessions =~= old(self)@.sessions.remove(id.0));
        session.unwrap()
    }

    /// Puts a conversation in, changes nothing else.
    fn put(&mut self, session: AppSession<Se>)
        ensures
            final(self)@ == (AppModel {
                sessions: old(self)@.sessions.insert(session@.id.0, session@),
                ..old(self)@
            }),
    {
        let id = session.id();
        let ghost model = session@;
        self.sessions.insert(id.0, session);
        assert(self@.sessions =~= old(self)@.sessions.insert(model.id.0, model));
    }

    /// Whose turn it is in the conversation that is shown.
    pub fn state(&self) -> (state: State)
        requires
            self@.wf(),
            self@.shows_one(),
        ensures
            state == self@.state(),
    {
        let id = self.current_id();
        assert(self@.sessions.contains_key(self@.list[self.current as int].0));
        match self.sessions.get(&id.0) {
            Some(session) => {
                let msgs = session.msgs();
                assert(msgs@.map_values(|m: String| m@).len() == msgs@.len());
                if msgs.len() % 2 == 0 {
                    State::Assistant
                } else {
                    State::User
                }
            },
            None => State::User,
        }
    }

    /// How long to wait for a key before the next look at the answers, in milliseconds.
    pub fn poll_interval(&self) -> (millis: u64)
        requires
            self@.wf(),
            self@.shows_one(),
        ensures
            millis == match self@.state() {
                State::User => 250u64,
                State::Assistant => 5,
            },
    {
        match self.state() {
            State::User => 250,
            State::Assistant => 5,
        }
    }

    /// Does what a key press means, at the time `now`, and hands out what that asks for.
    pub fn on_key_event(&mut self, key: KeyEvent, now: u64) -> (action: Action<Se>)
        requires
            old(self)@.wf(),
            old(self)@.shows_one(),
        ensures
            final(self)@ == old(self)@.after(meaning(key, old(self)@.focus), now),
            final(self)@.wf(),
            old(self)@.asks(meaning(key, old(self)@.focus), action),
    {
        let ghost before = self@;
        let command = command(key, &self.focus);
        proof {
            law_keys_keep_the_list(before, command, now);
        }
        match command {
            Command::Stop => {
                self.stop = true;
            },
            Command::Cancel => {
                return self.cancel();
            },
            Command::Type(ch) => {
                assert(before.sessions.contains_key(before.list[before.current as int].0));
                let mut session = self.take(self.current_id());
                session.push(ch);
                self.put(session);
                assert(self@.sessions =~= before.after(command, now).sessions);
            },
            Command::Erase => {
                assert(before.sessions.contains_key(before.list[before.current as int].0));
                let mut session = self.take(self.current_id());
                session.pop();
                self.put(session);
                assert(self@.sessions =~= before.after(command, now).sessions);
            },
            Command::ToList => {
                self.focus = Focus::List(self.current);
            },
            Command::ToMain => {
                self.focus = Focus::Main(now);
            },
            Command::Up => match self.focus {
                Focus::List(i) => {
                    self.focus = Focus::List(if i > 0 { i - 1 } else { 0 });
                },
                Focus::Main(_) => {
                    self.pos = if self.pos > 0 { self.pos - 1 } else { 0 };
                },
            },
            Command::Down => match self.focus {
                Focus::List(i) => {
                    let next: usize = if i == usize::MAX { i } else { i + 1 };
                    let len: usize = self.sess_list.len();
                    self.focus = Focus::List(if next <= len { next } else { len });
                },
                Focus::Main(_) => {
                    self.pos = if self.pos == usize::MAX { self.pos } else { self.pos + 1 };
                },
            },
            Command::Pick => match self.focus {
                Focus::List(i) => {
                    self.current = i;
                },
                Focus::Main(_) => {},
            },
            Command::Send => {
                return self.send();
            },
            Command::Add => {
                return Action::NewSession;
            },
            Command::Remove => {
                self.remove_shown();
            },
            Command::Nothing => {},
        }
        Action::Nothing
    }

    /// Does what a key event means. Only keys that are pressed count, not those that are
    /// released or held.
    pub fn handle_key(&mut self, press: bool, key: KeyEvent, now: u64) -> (action: Action<Se>)
        requires
            old(self)@.wf(),
            old(self)@.shows_one(),
        ensures
            final(self)@.wf(),
            press ==> final(self)@ == old(self)@.after(meaning(key, old(self)@.focus), now)
                && old(self)@.asks(meaning(key, old(self)@.focus), action),
            !press ==> final(self)@ == old(self)@ && action is Nothing,
    {
        if press {
            self.on_key_event(key, now)
        } else {
            Action::Nothing
        }
    }

    /// Sends the message of the conversation that is shown, unless an answer is under way.
    fn send(&mut self) -> (action: Action<Se>)
        requires
            old(self)@.wf(),
            old(self)@.shows_one(),
        ensures
            final(self)@ == old(self)@.after(Command::Send, 0),
            old(self)@.asks(Command::Send, action),
    {
        let ghost before = self@;
        assert(before.sessions.contains_key(before.list[before.current as int].0));
        let max_steps: usize = self.max_steps;
        let mut session = self.take(self.current_id());
        let started = session.start();
        self.put(session);
        assert(self@.sessions =~= before.after(Command::Send, 0).sessions);
        match started {
            Some((session, prompt)) => Action::Start(session, prompt, max_steps),
            None => Action::Nothing,
        }
    }

    /// Breaks the answer off that is under way in the conversation that is shown.
    fn cancel(&self) -> (action: Action<Se>)
        requires
            self@.wf(),
            self@.shows_one(),
        ensures
            self@.asks(Command::Cancel, action),
    {
        match self.state() {
            State::Assistant => Action::Stop(self.current_id()),
            State::User => Action::Nothing,
        }
    }

    /// Drops the conversation that is shown, unless it is the only one.
    fn remove_shown(&mut self)
        requires
            old(self)@.wf(),
            old(self)@.shows_one(),
        ensures
            final(self)@ == old(self)@.after(Command::Remove, 0),
    {
        if self.sess_list.len() > 1 {
            let _ = self.take(self.current_id());
            let _ = self.sess_list.remove(self.current);
            let last: usize = self.sess_list.len() - 1;
            if self.current > last {
                self.current = last;
            }
            match self.focus {
                Focus::List(i) => {
                    if i > last {
                        self.focus = Focus::List(last);
                    }
                },
                Focus::Main(_) => {},
            }
        }
    }

    /// Adds a conversation to the list and picks it there. It is called "new session".
    pub fn add_session(&mut self, id: SessionId, session: Se)
        requires
            old(self)@.wf(),
            !old(self)@.sessions.contains_key(id.0),
        ensures
            final(self)@ == old(self)@.added(begun(id, "new session"@, session)),
            final(self)@.wf(),
            final(self)@.shows_one(),
    {
        let session = AppSession::new(id, "new session", session);
        let ghost before = self@;
        let ghost model = session@;
        self.sess_list.push(id);
        assert(before.list.len() < self.sess_list.len());
        self.put(session);
        self.current = self.sess_list.len() - 1;
        self.focus = Focus::List(self.current);
        proof {
            lemma_added_keeps_the_list(before, model);
        }
    }

    /// The line of the list for each conversation: its name, in brackets while an answer is
    /// under way.
    pub fn sess_list(&self) -> (labels: Vec<String>)
        requires
            self@.wf(),
        ensures
            labels@.map_values(|l: String| l@) == self@.list.map_values(
                |id: SessionId| label(self@.sessions[id.0]),
            ),
    {
        let mut labels: Vec<String> = Vec::new();
        let mut i: usize = 0;
        while i < self.sess_list.len()
            invariant
                self@.wf(),
                i <= self.sess_list.len(),
                labels.len() == i,
                forall|j: int|
                    0 <= j < i ==> (#[trigger] labels@[j])@ == label(
                        self@.sessions[self.sess_list@[j].0],
                    ),
            decreases self.sess_list.len() - i,
        {
            let id = self.sess_list[i];
            assert(self@.sessions.contains_key(self@.list[i as int].0));
            let mut text = String::new();
            match self.sessions.get(&id.0) {
                Some(session) => {
                    let busy = session.is_busy();
                    if busy {
                        text.push('[');
                    }
                    text.append(session.name());
                    if busy {
                        text.push(']');
                    }
                    assert(text@ =~= label(session@));
                },
                None => {},
            }
            labels.push(text);
            i = i + 1;
        }
        assert(labels@.map_values(|l: String| l@) =~= self@.list.map_values(
            |id: SessionId| label(self@.sessions[id.0]),
        ));
        labels
    }

    /// Which line of the list is under the cursor.
    pub fn list_state(&self) -> (selected: usize)
        ensures
            selected == match self@.focus {
                Focus::List(i) => i,
                Focus::Main(_) => self@.current,
            },
    {
        match self.focus {
            Focus::List(i) => i,
            Focus::Main(_) => self.current,
        }
    }

    /// Where keys go.
    pub fn focus(&self) -> (focus: Focus)
        ensures
            focus == self@.focus,
    {
        self.focus
    }

    /// Lays the conversation that is shown out for an area, at the time `now`: its text,
    /// with the cursor while that is to be seen, and how far the text is scrolled.
    pub fn render_main_dialog(&mut self, area: Rect, now: u64) -> (dialog: Dialog)
        requires
            old(self)@.wf(),
            old(self)@.shows_one(),
            area.width > 0,
        ensures
            final(self)@ == old(self)@.drawn(area, now),
            final(self)@.wf(),
            dialog.text@ == old(self)@.text(now),
            dialog.scroll == final(self)@.pos as u16,
            dialog.content_length == sat_sub(final(self)@.hc, final(self)@.ha),
            dialog.position == final(self)@.pos,
    {
        let id = self.current_id();
        assert(self@.sessions.contains_key(self@.list[self.current as int].0));
        let mut text = match self.sessions.get(&id.0) {
            Some(session) => written(session.msgs()),
            None => String::new(),
        };
        let user = match self.state() {
            State::User => true,
            State::Assistant => false,
        };
        match self.focus {
            Focus::Main(since) if user => {
                let elapsed: u64 = if now >= since { now - since } else { 0 };
                if elapsed < HALF_SECOND {
                } else if elapsed < SECOND {
                    let _ = text.pop();
                    text.push('_');
                } else {
                    self.focus = Focus::Main(now);
                }
            },
            _ => {},
        }
        assert(text@ =~= old(self)@.text(now));
        self.hc = count_rows(text.as_str(), area.width as usize);
        self.ha = area.height as usize;
        let room: usize = if self.hc >= self.ha { self.hc - self.ha } else { 0 };
        if self.pos > room {
            self.pos = room;
        }
        Dialog {
            text,
            scroll: #[verifier::truncate] (self.pos as u16),
            content_length: room,
            position: self.pos,
        }
    }

    /// The text of the state bar.
    pub fn state_bar(&self) -> (text: String)
        requires
            self@.wf(),
            self@.shows_one(),
        ensures
            text@ == "msgs: "@ + text::decimal(self@.shown().msgs.len()) + ", pos: "@
                + text::decimal(self@.pos as nat) + "/"@ + text::decimal(self@.ha as nat) + "/"@
                + text::decimal(self@.hc as nat),
    {
        let id = self.current_id();
        assert(self@.sessions.contains_key(self@.list[self.current as int].0));
        let msgs: usize = match self.sessions.get(&id.0) {
            Some(session) => {
                let msgs = session.msgs();
                assert(msgs@.map_values(|m: String| m@).len() == msgs@.len());
                msgs.len()
            },
            None => 0,
        };
        let mut text = "msgs: ".to_owned();
        push_decimal(&mut text, msgs);
        text.append(", pos: ");
        push_decimal(&mut text, self.pos);
        text.append("/");
        push_decimal(&mut text, self.ha);
        text.append("/");
        push_decimal(&mut text, self.hc);
        text
    }

    /// Takes in what the service has sent: writes each piece of an answer behind its
    /// conversation's last message, then gives the session of the first answer that is
    /// complete back to its conversation.
    pub fn handle_service(
        &mut self,
        outputs: &Vec<(SessionId, String)>,
        finished: Vec<(SessionId, Se)>,
    )
        requires
            old(self)@.wf(),
            forall|i: int|
                0 <= i < outputs.len() ==> old(self)@.sessions.contains_key(
                    (#[trigger] outputs@[i]).0.0,
                ),
            finished.len() > 0 ==> old(self)@.sessions.contains_key(finished@[0].0.0),
        ensures
            final(self)@ == old(self)@.answered(pieces(outputs@), first_of(finished@)),
            final(self)@.wf(),
    {
        let mut finished = finished;
        let finished = if finished.len() > 0 {
            Some(finished.remove(0))
        } else {
            None
        };
        let ghost before = self@;
        let mut i: usize = 0;
        while i < outputs.len()
            invariant
                i <= outputs.len(),
                forall|j: int|
                    0 <= j < outputs.len() ==> before.sessions.contains_key(
                        (#[trigger] outputs@[j]).0.0,
                    ),
                self@ == before.fed(pieces(outputs@).take(i as int)),
                self@.wf(),
                self@.sessions.dom() == before.sessions.dom(),
                self@.list == before.list,
            decreases outputs.len() - i,
        {
            let id = outputs[i].0;
            let ghost now = self@;
            assert(before.sessions.contains_key(outputs@[i as int].0.0));
            assert(self@.sessions.contains_key(id.0));
            let mut session = self.take(id);
            session.push_str(outputs[i].1.as_str());
            self.put(session);
            proof {
                let some = pieces(outputs@).take(i as int + 1);
                assert(some.drop_last() =~= pieces(outputs@).take(i as int));
                assert(some.last() == (id, outputs@[i as int].1@));
                assert(self@.sessions =~= before.fed(some).sessions);
                assert(self@.sessions.dom() =~= before.sessions.dom());
            }
            i = i + 1;
        }
        assert(pieces(outputs@).take(outputs.len() as int) =~= pieces(outputs@));
        let ghost fed = self@;
        match finished {
            Some((id, back)) => {
                assert(self@.sessions.contains_key(id.0));
                let mut session = self.take(id);
                session.idle(back);
                self.put(session);
                assert(self@.sessions =~= before.answered(pieces(outputs@), finished).sessions);
            },
            None => {},
        }
    }
}

/// A conversation in which nothing was said yet.
pub open spec fn begun<Se>(id: SessionId, name: Seq<char>, session: Se) -> SessionModel<Se> {
    SessionModel { id, name, session: Some(session), msgs: seq![Seq::<char>::empty()] }
}

/// The line of the list for a conversation.
pub open spec fn label<Se>(session: SessionModel<Se>) -> Seq<char> {
    if session.busy() {
        seq!['['] + session.name + seq![']']
    } else {
        session.name
    }
}

/// What stands before the message at position `i`: who wrote it.
pub open spec fn speaker(i: int) -> Seq<char> {
    if i % 2 == 0 {
        "user> "@
    } else {
        "assistant> "@
    }
}

/// A conversation as it is shown: each message on a line of its own, behind who wrote it.
pub open spec fn dialog(msgs: Seq<Seq<char>>) -> Seq<char>
    decreases msgs.len(),
{
    if msgs.len() == 0 {
        seq![]
    } else {
        (dialog(msgs.drop_last()) + speaker(msgs.len() - 1) + msgs.last()).push('\n')
    }
}

fn written(msgs: &Vec<String>) -> (text: String)
    ensures
        text@ == dialog(msgs@.map_values(|m: String| m@)),
{
    let ghost all = msgs@.map_values(|m: String| m@);
    let mut text = String::new();
    let mut i: usize = 0;
    while i < msgs.len()
        invariant
            i <= msgs.len(),
            all == msgs@.map_values(|m: String| m@),
            text@ == dialog(all.take(i as int)),
        decreases msgs.len() - i,
    {
        text.append(if i % 2 == 0 { "user> " } else { "assistant> " });
        text.append(msgs[i].as_str());
        text.push('\n');
        assert(all.take(i as int + 1).drop_last() =~= all.take(i as int));
        i = i + 1;
    }
    assert(all.take(msgs.len() as int) =~= all);
    text
}

/// An area of the screen.
#[derive(Clone, Copy, PartialEq, Eq, Structural, Debug)]
pub struct Rect {
    pub x: u16,
    pub y: u16,
    pub width: u16,
    pub height: u16,
}

/// The shown conversation, laid out: the text, the row at which it begins, and what the
/// scroll bar shows.
pub struct Dialog {
    pub text: String,
    pub scroll: u16,
    pub content_length: usize,
    pub position: usize,
}

/// The first of some sessions that came back.
pub open spec fn first_of<Se>(finished: Seq<(SessionId, Se)>) -> Option<(SessionId, Se)> {
    if finished.len() > 0 {
        Some(finished[0])
    } else {
        None
    }
}

/// Pieces of answers, each with the conversation that it belongs to.
pub open spec fn pieces(outputs: Seq<(SessionId, String)>) -> Seq<(SessionId, Seq<char>)> {
    outputs.map_values(|o: (SessionId, String)| (o.0, o.1@))
}

impl<Se> AppModel<Se> {
    /// The cursor of the shown conversation has been blinking so long; none where the user
    /// does not write there.
    pub open spec fn blinking(self, now: u64) -> Option<int> {
        match self.focus {
            Focus::Main(since) if self.state() is User => Some(
                if now >= since {
                    now - since
                } else {
                    0
                },
            ),
            _ => None,
        }
    }

    /// The text of the shown conversation at the time `now`. In the second half of each
    /// second a cursor stands at its end.
    pub open spec fn text(self, now: u64) -> Seq<char> {
        let text = dialog(self.shown().msgs);
        match self.blinking(now) {
            Some(elapsed) if HALF_SECOND <= elapsed < SECOND => text.drop_last().push('_'),
            _ => text,
        }
    }

    /// The screen after the shown conversation was drawn. The text is not scrolled past its
    /// end.
    pub open spec fn drawn(self, area: Rect, now: u64) -> Self {
        let hc = text::capped(text::text_rows(self.text(now), area.width as nat));
        AppModel {
            focus: match self.blinking(now) {
                Some(elapsed) if elapsed >= SECOND => Focus::Main(now),
                _ => self.focus,
            },
            hc,
            ha: area.height as usize,
            pos: smaller(self.pos, sat_sub(hc, area.height as usize)),
            ..self
        }
    }

    /// The screen after pieces of answers came in.
    pub open spec fn fed(self, pieces: Seq<(SessionId, Seq<char>)>) -> Self
        decreases pieces.len(),
    {
        if pieces.len() == 0 {
            self
        } else {
            let before = self.fed(pieces.drop_last());
            let (id, text) = pieces.last();
            let session = before.sessions[id.0];
            AppModel {
                sessions: before.sessions.insert(
                    id.0,
                    session.with_last(session.msgs.last() + text),
                ),
                ..before
            }
        }
    }

    /// The screen after pieces of answers came in, and the session of a complete one.
    pub open spec fn answered(
        self,
        pieces: Seq<(SessionId, Seq<char>)>,
        finished: Option<(SessionId, Se)>,
    ) -> Self {
        let fed = self.fed(pieces);
        match finished {
            Some((id, session)) => AppModel {
                sessions: fed.sessions.insert(id.0, fed.sessions[id.0].idled(session)),
                ..fed
            },
            None => fed,
        }
    }
}

/// How much of a stretch there is on a screen, whose coordinates end with the largest `u16`.
pub open spec fn room(start: u16, len: u16) -> int {
    if start + len <= u16::MAX {
        len as int
    } else {
        u16::MAX - start
    }
}

/// The smaller of two lengths.
pub open spec fn shorter(a: int, b: int) -> int {
    if a <= b {
        a
    } else {
        b
    }
}

/// An area split into two rows: the lower one has the given height as far as there is room,
/// the upper one has the rest.
pub open spec fn split_rows(area: Rect, length: u16) -> (Rect, Rect) {
    let all = room(area.y, area.height);
    let lower = shorter(length as int, all);
    (
        Rect { height: (all - lower) as u16, ..area },
        Rect { y: (area.y + all - lower) as u16, height: lower as u16, ..area },
    )
}

/// An area split into two columns with a space between them: the left one has the given
/// width as far as there is room besides the space, the right one has the rest.
pub open spec fn split_columns(area: Rect, length: u16, spacing: u16) -> (Rect, Rect) {
    let all = room(area.x, area.width);
    let gap = shorter(spacing as int, all);
    let left = shorter(length as int, all - gap);
    (
        Rect { width: left as u16, ..area },
        Rect { x: (area.x + left + gap) as u16, width: (all - gap - left) as u16, ..area },
    )
}

/// `ratatui::layout::Layout::vertical` and its `areas`, for a row that fills what is left
/// and a row of a given height below it. A given height comes before filling what is left,
/// so the lower row has it as far as there is room, and the upper row has all the rest. What
/// `fill` is has no say, since nothing else fills.
#[verifier::external_body]
fn rows(fill: u16, length: u16, area: Rect) -> (split: (Rect, Rect))
    ensures
        split == split_rows(area, length),
{
    let rows = ratatui::layout::Layout::vertical(
        [ratatui::layout::Constraint::Fill(fill), ratatui::layout::Constraint::Length(length)],
    );
    let [a, b] = rows.areas(
        ratatui::layout::Rect { x: area.x, y: area.y, width: area.width, height: area.height },
    );
    (
        Rect { x: a.x, y: a.y, width: a.width, height: a.height },
        Rect { x: b.x, y: b.y, width: b.width, height: b.height },
    )
}

/// `ratatui::layout::Layout::horizontal` and its `areas`, for a column of a given width and
/// a column that fills what is left, with a space between them. The space comes before a
/// given width, and that before filling what is left: each of the three has what it asks for
/// as far as those before it leave room, and the right column has all the rest. What `fill`
/// is has no say, since nothing else fills.
#[verifier::external_body]
fn columns(length: u16, fill: u16, spacing: u16, area: Rect) -> (split: (Rect, Rect))
    requires
        spacing <= i16::MAX,
    ensures
        split == split_columns(area, length, spacing),
{
    let columns = ratatui::layout::Layout::horizontal(
        [ratatui::layout::Constraint::Length(length), ratatui::layout::Constraint::Fill(fill)],
    ).spacing(spacing);
    let [a, b] = columns.areas(
        ratatui::layout::Rect { x: area.x, y: area.y, width: area.width, height: area.height },
    );
    (
        Rect { x: a.x, y: a.y, width: a.width, height: a.height },
        Rect { x: b.x, y: b.y, width: b.width, height: b.height },
    )
}

/// The areas of the list, the conversation and the state bar on a screen: the state bar is
/// three rows high and stands below the others, the list is thirty columns wide and stands
/// left of the conversation, with an empty column between them.
pub open spec fn screen(frame: Rect) -> (Rect, Rect, Rect) {
    let (upper, bottom) = split_rows(frame, 3);
    let (list, main) = split_columns(upper, 30, 1);
    (list, main, bottom)
}

/// The areas of the list, the conversation and the state bar on a screen.
pub fn areas(frame: Rect) -> (areas: (Rect, Rect, Rect))
    ensures
        areas == screen(frame),
{
    let (main, bottom) = rows(1, 3, frame);
    let (list, main) = columns(30, 1, 1, main);
    (list, main, bottom)
}

/// One area lies within another.
pub open spec fn inside(inner: Rect, outer: Rect) -> bool {
    &&& outer.x <= inner.x
    &&& inner.x + inner.width <= outer.x + outer.width
    &&& outer.y <= inner.y
    &&& inner.y + inner.height <= outer.y + outer.height
}

/// The areas of a screen lie on it and do not overlap, whatever its size.
pub proof fn law_areas_share_the_screen(frame: Rect)
    ensures
        ({
            let (list, main, bottom) = screen(frame);
            &&& inside(list, frame)
            &&& inside(main, frame)
            &&& inside(bottom, frame)
            &&& list.x + list.width <= main.x
            &&& list.y + list.height <= bottom.y
            &&& main.y + main.height <= bottom.y
        }),
{
}

/// A screen wider than the list and the empty column has room for the conversation.
pub proof fn law_wide_screens_show_the_conversation(frame: Rect)
    requires
        frame.x + frame.width <= u16::MAX,
        frame.width > 31,
    ensures
        screen(frame).0.width == 30,
        screen(frame).1.width == frame.width - 31,
{
}

/// Whatever key is pressed, the list goes on naming each conversation once and no others,
/// and at least one conversation is left.
pub proof fn law_keys_keep_the_list<Se>(app: AppModel<Se>, command: Command, now: u64)
    requires
        app.wf(),
        app.shows_one(),
    ensures
        app.after(command, now).wf(),
        app.after(command, now).list.len() > 0,
{
    let after = app.after(command, now);
    let shown = app.list[app.current as int];
    assert(app.sessions.contains_key(shown.0));
    if command is Remove && app.list.len() > 1 {
        let at = app.current as int;
        assert forall|i: int, j: int|
            0 <= i < after.list.len() && 0 <= j < after.list.len() && i != j implies after.list[i]
            != after.list[j] by {
            let a = if i < at { i } else { i + 1 };
            let b = if j < at { j } else { j + 1 };
            assert(after.list[i] == app.list[a] && after.list[j] == app.list[b]);
        }
        assert forall|i: int| 0 <= i < after.list.len() implies after.sessions.contains_key(
            (#[trigger] after.list[i]).0,
        ) by {
            let a = if i < at { i } else { i + 1 };
            assert(after.list[i] == app.list[a]);
            assert(app.sessions.contains_key(app.list[a].0));
            assert(app.list[a] != app.list[at]);
        }
        assert forall|k: usize| #[trigger] after.sessions.contains_key(k) implies {
            &&& after.list.contains(SessionId(k))
            &&& after.sessions[k].id == SessionId(k)
            &&& after.sessions[k].msgs.len() > 0
        } by {
            assert(app.sessions.contains_key(k));
            let a = choose|a: int| 0 <= a < app.list.len() && app.list[a] == SessionId(k);
            assert(a != at);
            let i = if a < at { a } else { a - 1 };
            assert(after.list[i] == SessionId(k));
        }
    } else {
        assert forall|i: int| 0 <= i < after.list.len() implies after.sessions.contains_key(
            (#[trigger] after.list[i]).0,
        ) by {
            assert(app.sessions.contains_key(app.list[i].0));
        }
        assert forall|k: usize| #[trigger] after.sessions.contains_key(k) implies {
            &&& after.list.contains(SessionId(k))
            &&& after.sessions[k].id == SessionId(k)
            &&& after.sessions[k].msgs.len() > 0
        } by {
            assert(app.sessions.contains_key(k));
        }
    }
}

/// One of the conversations stays shown, whatever key is pressed, unless the place behind
/// the end of the list is picked.
pub proof fn law_one_stays_shown<Se>(app: AppModel<Se>, command: Command, now: u64)
    requires
        app.wf(),
        app.shows_one(),
        command is Pick ==> (app.focus matches Focus::List(i) ==> i < app.list.len()),
    ensures
        app.after(command, now).shows_one(),
{
}

/// The cursor of the list never moves further than the place behind its end.
pub proof fn law_cursor_stays_at_the_list<Se>(app: AppModel<Se>, command: Command, now: u64)
    requires
        app.wf(),
        app.shows_one(),
        app.focus matches Focus::List(i) ==> i <= app.list.len(),
    ensures
        app.after(command, now).focus matches Focus::List(i) ==> i <= app.after(
            command,
            now,
        ).list.len(),
{
}

/// Whatever key is pressed, in every conversation an answer stays under way exactly when it
/// is the assistant's turn.
pub proof fn law_keys_keep_turns<Se>(app: AppModel<Se>, command: Command, now: u64)
    requires
        app.wf(),
        app.shows_one(),
        app.in_turn(),
    ensures
        app.after(command, now).in_turn(),
{
    let after = app.after(command, now);
    let shown = app.list[app.current as int];
    assert(app.sessions.contains_key(shown.0));
    assert forall|k: usize| #[trigger] after.sessions.contains_key(k) implies after.sessions[k].in_turn() by {
        assert(app.sessions.contains_key(k));
    }
}

/// Only Control-C ends the chat, and nothing takes that back.
pub proof fn law_only_control_c_stops<Se>(app: AppModel<Se>, key: KeyEvent, now: u64)
    ensures
        app.after(meaning(key, app.focus), now).stop == (app.stop || (key.modifiers is Control && (
        key.code == KeyCode::Char('c') || key.code == KeyCode::Char('C')))),
{
}

/// Going to the list and back changes nothing but the time at which the cursor began to
/// blink.
pub proof fn law_right_undoes_left<Se>(
    app: AppModel<Se>,
    there: KeyModifiers,
    back: KeyModifiers,
    left: u64,
    now: u64,
)
    requires
        app.focus is Main,
    ensures
        ({
            let to_list = meaning(KeyEvent { modifiers: there, code: KeyCode::Left }, app.focus);
            let list = app.after(to_list, left);
            let to_main = meaning(KeyEvent { modifiers: back, code: KeyCode::Right }, list.focus);
            list.after(to_main, now) == (AppModel { focus: Focus::Main(now), ..app })
        }),
{
}

proof fn lemma_added_keeps_the_list<Se>(app: AppModel<Se>, session: SessionModel<Se>)
    requires
        app.wf(),
        app.list.len() < usize::MAX,
        session.msgs.len() > 0,
        !app.sessions.contains_key(session.id.0),
    ensures
        app.added(session).wf(),
{
    let added = app.added(session);
    assert(added.list[app.list.len() as int] == session.id);
    assert forall|i: int| 0 <= i < added.list.len() implies added.sessions.contains_key(
        (#[trigger] added.list[i]).0,
    ) by {
        if i < app.list.len() {
            assert(app.sessions.contains_key(app.list[i].0));
        }
    }
    assert forall|i: int| 0 <= i < app.list.len() implies app.list[i] != session.id by {
        assert(app.sessions.contains_key(app.list[i].0));
    }
    assert forall|k: usize| #[trigger] added.sessions.contains_key(k) implies {
        &&& added.list.contains(SessionId(k))
        &&& added.sessions[k].id == SessionId(k)
        &&& added.sessions[k].msgs.len() > 0
    } by {
        if k != session.id.0 {
            assert(app.sessions.contains_key(k));
            let a = choose|a: int| 0 <= a < app.list.len() && app.list[a] == SessionId(k);
            assert(added.list[a] == SessionId(k));
        }
    }
}

/// A new conversation stands behind the others in the list and is picked there; none of them
/// is dropped or moved, and in it, too, the two write in turn.
pub proof fn law_adding_keeps_the_others<Se>(app: AppModel<Se>, id: SessionId, session: Se)
    requires
        app.wf(),
        app.list.len() < usize::MAX,
        !app.sessions.contains_key(id.0),
    ensures
        ({
            let added = app.added(begun(id, "new session"@, session));
            &&& added.wf()
            &&& added.list == app.list.push(id)
            &&& added.current == app.list.len()
            &&& added.focus == Focus::List(app.list.len() as usize)
            &&& added.shown() == begun(id, "new session"@, session)
            &&& added.pos == app.pos
            &&& added.hc == app.hc
            &&& added.ha == app.ha
            &&& added.stop == app.stop
            &&& added.max_steps == app.max_steps
            &&& forall|k: usize| #[trigger]
                app.sessions.contains_key(k) ==> added.sessions.contains_key(k)
                    && added.sessions[k] == app.sessions[k]
            &&& app.in_turn() ==> added.in_turn()
        }),
{
    let new = begun(id, "new session"@, session);
    lemma_added_keeps_the_list(app, new);
    let added = app.added(new);
    if app.in_turn() {
        assert forall|k: usize| #[trigger] added.sessions.contains_key(k) implies added.sessions[k].in_turn() by {
            if k != id.0 {
                assert(app.sessions.contains_key(k));
            }
        }
    }
}

/// A new conversation is the one that is dropped next: the others are as they were.
pub proof fn law_remove_undoes_add<Se>(app: AppModel<Se>, session: SessionModel<Se>, now: u64)
    requires
        app.wf(),
        app.shows_one(),
        app.list.len() < usize::MAX,
        !app.sessions.contains_key(session.id.0),
    ensures
        app.added(session).shows_one(),
        app.added(session).after(Command::Remove, now).sessions == app.sessions,
        app.added(session).after(Command::Remove, now).list == app.list,
{
    let added = app.added(session);
    assert(added.list.remove(app.list.len() as int) =~= app.list);
    assert(added.sessions.remove(session.id.0) =~= app.sessions);
}

/// Drawing changes no conversation, and leaves the text scrolled no further than to its end.
pub proof fn law_drawing_bounds_the_scroll<Se>(app: AppModel<Se>, area: Rect, now: u64)
    ensures
        app.drawn(area, now).sessions == app.sessions,
        app.drawn(area, now).list == app.list,
        app.drawn(area, now).current == app.current,
        app.drawn(area, now).pos <= sat_sub(app.drawn(area, now).hc, app.drawn(area, now).ha),
        app.drawn(area, now).pos <= app.pos,
{
}

/// The cursor shows only in the second half of the second since it began to blink, and it
/// takes the place of the last line feed: the text keeps its length.
pub proof fn law_cursor_takes_one_place<Se>(app: AppModel<Se>, now: u64)
    requires
        app.shown().msgs.len() > 0,
    ensures
        app.text(now).len() == dialog(app.shown().msgs).len(),
        app.text(now).drop_last() == dialog(app.shown().msgs).drop_last(),
        app.text(now).last() == '_' <==> (app.blinking(now) matches Some(elapsed) && HALF_SECOND
            <= elapsed < SECOND),
{
    assert(app.text(now).drop_last() =~= dialog(app.shown().msgs).drop_last());
}

/// Pieces of an answer that come in one after the other read as one.
pub proof fn law_pieces_add_up<Se>(app: AppModel<Se>, id: SessionId, a: Seq<char>, b: Seq<char>)
    requires
        app.wf(),
        app.sessions.contains_key(id.0),
    ensures
        app.fed(seq![(id, a), (id, b)]) == app.fed(seq![(id, a + b)]),
{
    reveal_with_fuel(AppModel::fed, 3);
    let two = seq![(id, a), (id, b)];
    let one = seq![(id, a + b)];
    assert(two.drop_last() =~= seq![(id, a)]);
    assert(seq![(id, a)].drop_last() =~= Seq::<(SessionId, Seq<char>)>::empty());
    assert(one.drop_last() =~= Seq::<(SessionId, Seq<char>)>::empty());
    let s = app.sessions[id.0];
    let t = s.with_last(s.msgs.last() + a);
    assert(t.msgs.last() + b =~= s.msgs.last() + (a + b));
    assert(t.with_last(t.msgs.last() + b).msgs =~= s.with_last(s.msgs.last() + (a + b)).msgs);
    assert(app.fed(two).sessions =~= app.fed(one).sessions);
}

proof fn lemma_fed_keeps_turns<Se>(app: AppModel<Se>, pieces: Seq<(SessionId, Seq<char>)>)
    requires
        app.in_turn(),
        forall|i: int|
            0 <= i < pieces.len() ==> app.sessions.contains_key((#[trigger] pieces[i]).0.0),
    ensures
        app.fed(pieces).in_turn(),
        app.fed(pieces).sessions.dom() == app.sessions.dom(),
        forall|k: usize| #[trigger]
            app.sessions.contains_key(k) ==> app.fed(pieces).sessions[k].busy()
                == app.sessions[k].busy(),
    decreases pieces.len(),
{
    if pieces.len() > 0 {
        let fed = app.fed(pieces);
        let before = app.fed(pieces.drop_last());
        assert forall|i: int| 0 <= i < pieces.drop_last().len() implies app.sessions.contains_key(
            (#[trigger] pieces.drop_last()[i]).0.0,
        ) by {
            assert(app.sessions.contains_key(pieces[i].0.0));
        }
        lemma_fed_keeps_turns(app, pieces.drop_last());
        assert(app.sessions.contains_key(pieces[pieces.len() - 1].0.0));
        assert(before.sessions.contains_key(pieces.last().0.0));
        assert(fed.sessions.dom() =~= app.sessions.dom());
        assert forall|k: usize| #[trigger] fed.sessions.contains_key(k) implies fed.sessions[k].in_turn() by {
            assert(before.sessions.contains_key(k));
        }
    }
}

/// Answers keep the turns too: in every conversation an answer stays under way exactly when
/// it is the assistant's turn, if the session that comes back is that of an answer under way.
pub proof fn law_answers_keep_turns<Se>(
    app: AppModel<Se>,
    pieces: Seq<(SessionId, Seq<char>)>,
    finished: Option<(SessionId, Se)>,
)
    requires
        app.in_turn(),
        forall|i: int|
            0 <= i < pieces.len() ==> app.sessions.contains_key((#[trigger] pieces[i]).0.0),
        finished matches Some((id, _)) ==> app.sessions.contains_key(id.0)
            && app.sessions[id.0].busy(),
    ensures
        app.answered(pieces, finished).in_turn(),
{
    lemma_fed_keeps_turns(app, pieces);
    let fed = app.fed(pieces);
    let after = app.answered(pieces, finished);
    assert forall|k: usize| #[trigger] after.sessions.contains_key(k) implies after.sessions[k].in_turn() by {
        assert(fed.sessions.contains_key(k));
    }
}

/// What some pieces hold for one conversation, one behind the other.
spec fn texts_for(pieces: Seq<(SessionId, Seq<char>)>, k: usize) -> Seq<char> {
    pieces.fold_left(
        Seq::<char>::empty(),
        |text: Seq<char>, p: (SessionId, Seq<char>)|
            if p.0.0 == k {
                text + p.1
            } else {
                text
            },
    )
}

proof fn lemma_fed_sorts_the_pieces<Se>(
    app: AppModel<Se>,
    pieces: Seq<(SessionId, Seq<char>)>,
    k: usize,
)
    requires
        forall|i: int|
            0 <= i < pieces.len() ==> app.sessions.contains_key((#[trigger] pieces[i]).0.0),
        forall|k: usize| #[trigger]
            app.sessions.contains_key(k) ==> app.sessions[k].msgs.len() > 0,
        app.sessions.contains_key(k),
    ensures
        app.fed(pieces).sessions.dom() == app.sessions.dom(),
        app.fed(pieces).sessions[k].msgs == app.sessions[k].msgs.update(
            app.sessions[k].msgs.len() - 1,
            app.sessions[k].msgs.last() + texts_for(pieces, k),
        ),
        app.fed(pieces).sessions[k].id == app.sessions[k].id,
        app.fed(pieces).sessions[k].name == app.sessions[k].name,
        app.fed(pieces).sessions[k].session == app.sessions[k].session,
        app.fed(pieces) == (AppModel { sessions: app.fed(pieces).sessions, ..app }),
    decreases pieces.len(),
{
    reveal_with_fuel(Seq::fold_left, 2);
    let old_msgs = app.sessions[k].msgs;
    if pieces.len() == 0 {
        assert(old_msgs.last() + Seq::<char>::empty() =~= old_msgs.last());
        assert(old_msgs.update(old_msgs.len() - 1, old_msgs.last()) =~= old_msgs);
    } else {
        let front = pieces.drop_last();
        assert forall|i: int| 0 <= i < front.len() implies app.sessions.contains_key(
            (#[trigger] front[i]).0.0,
        ) by {
            assert(app.sessions.contains_key(pieces[i].0.0));
        }
        assert(app.sessions.contains_key(pieces[pieces.len() - 1].0.0));
        let (id, text) = pieces.last();
        lemma_fed_sorts_the_pieces(app, front, k);
        lemma_fed_sorts_the_pieces(app, front, id.0);
        let before = app.fed(front);
        let after = app.fed(pieces);
        assert(after.sessions.dom() =~= app.sessions.dom());
        if id.0 == k {
            assert(before.sessions[k].msgs.last() == old_msgs.last() + texts_for(front, k));
            assert((old_msgs.last() + texts_for(front, k)) + text =~= old_msgs.last() + (texts_for(
                front,
                k,
            ) + text));
            assert(after.sessions[k].msgs =~= old_msgs.update(
                old_msgs.len() - 1,
                old_msgs.last() + texts_for(pieces, k),
            ));
        }
    }
}

proof fn lemma_pieces_of_outputs(outputs: Seq<(SessionId, String)>, k: usize)
    ensures
        texts_for(pieces(outputs), k) == outputs.fold_left(
            Seq::<char>::empty(),
            |text: Seq<char>, o: (SessionId, String)|
                if o.0.0 == k {
                    text + o.1@
                } else {
                    text
                },
        ),
    decreases outputs.len(),
{
    reveal_with_fuel(Seq::fold_left, 2);
    if outputs.len() > 0 {
        lemma_pieces_of_outputs(outputs.drop_last(), k);
        assert(pieces(outputs).drop_last() =~= pieces(outputs.drop_last()));
        assert(pieces(outputs).last() == (outputs.last().0, outputs.last().1@));
    }
}

/// After pieces of answers came in, the last message of a conversation is what it was, followed
/// by the texts of the pieces that carry the number of that conversation, in their order. All
/// else of it is as it was, so one that no piece names has not changed. If the first session that
/// came back is its own, it has that session back and begins another message. Nothing else on the
/// screen changes.
pub proof fn law_each_piece_goes_to_its_conversation<Se>(
    app: AppModel<Se>,
    outputs: Seq<(SessionId, String)>,
    finished: Seq<(SessionId, Se)>,
    k: usize,
)
    requires
        app.sessions.contains_key(k),
        forall|k: usize| #[trigger]
            app.sessions.contains_key(k) ==> app.sessions[k].msgs.len() > 0,
        forall|i: int|
            0 <= i < outputs.len() ==> app.sessions.contains_key((#[trigger] outputs[i]).0.0),
        finished.len() > 0 ==> app.sessions.contains_key(finished[0].0.0),
    ensures
        ({
            let after = app.answered(pieces(outputs), first_of(finished));
            let was = app.sessions[k];
            let is = after.sessions[k];
            let added = outputs.fold_left(
                Seq::<char>::empty(),
                |text: Seq<char>, o: (SessionId, String)|
                    if o.0.0 == k {
                        text + o.1@
                    } else {
                        text
                    },
            );
            let msgs = was.msgs.update(was.msgs.len() - 1, was.msgs.last() + added);
            &&& after == (AppModel { sessions: after.sessions, ..app })
            &&& after.sessions.dom() == app.sessions.dom()
            &&& is.id == was.id
            &&& is.name == was.name
            &&& finished.len() > 0 && finished[0].0.0 == k ==> is.session == Some(finished[0].1)
                && is.msgs == msgs.push(Seq::<char>::empty())
            &&& finished.len() == 0 || finished[0].0.0 != k ==> is.session == was.session && is.msgs
                == msgs
        }),
{
    let all = pieces(outputs);
    assert forall|i: int| 0 <= i < all.len() implies app.sessions.contains_key(
        (#[trigger] all[i]).0.0,
    ) by {
        assert(app.sessions.contains_key(outputs[i].0.0));
    }
    lemma_fed_sorts_the_pieces(app, all, k);
    lemma_pieces_of_outputs(outputs, k);
    let after = app.answered(all, first_of(finished));
    assert(after.sessions.dom() =~= app.sessions.dom());
}

/// A conversation that no piece names and whose session does not come back is as it was.
pub proof fn law_other_conversations_stay<Se>(
    app: AppModel<Se>,
    outputs: Seq<(SessionId, String)>,
    finished: Seq<(SessionId, Se)>,
    k: usize,
)
    requires
        app.sessions.contains_key(k),
        forall|k: usize| #[trigger]
            app.sessions.contains_key(k) ==> app.sessions[k].msgs.len() > 0,
        forall|i: int|
            0 <= i < outputs.len() ==> app.sessions.contains_key((#[trigger] outputs[i]).0.0)
                && outputs[i].0.0 != k,
        finished.len() > 0 ==> app.sessions.contains_key(finished[0].0.0) && finished[0].0.0 != k,
    ensures
        app.answered(pieces(outputs), first_of(finished)).sessions[k] == app.sessions[k],
{
    law_each_piece_goes_to_its_conversation(app, outputs, finished, k);
    lemma_nothing_for(outputs, k);
    let was = app.sessions[k].msgs;
    assert(was.last() + Seq::<char>::empty() =~= was.last());
    assert(was.update(was.len() - 1, was.last()) =~= was);
}

proof fn lemma_nothing_for(outputs: Seq<(SessionId, String)>, k: usize)
    requires
        forall|i: int| 0 <= i < outputs.len() ==> (#[trigger] outputs[i]).0.0 != k,
    ensures
        outputs.fold_left(
            Seq::<char>::empty(),
            |text: Seq<char>, o: (SessionId, String)|
                if o.0.0 == k {
                    text + o.1@
                } else {
                    text
                },
        ) == Seq::<char>::empty(),
    decreases outputs.len(),
{
    reveal_with_fuel(Seq::fold_left, 2);
    if outputs.len() > 0 {
        assert forall|i: int| 0 <= i < outputs.drop_last().len() implies (
        #[trigger] outputs.drop_last()[i]).0.0 != k by {
            assert(outputs[i].0.0 != k);
        }
        lemma_nothing_for(outputs.drop_last(), k);
        assert(outputs[outputs.len() - 1].0.0 != k);
    }
}

/// While keys go to the conversation that is shown, what is typed goes behind its last message:
/// every character but Control-C, and a line feed for Shift and Enter. Backspace takes the last
/// character away. Nothing else changes and nothing is asked for.
pub proof fn law_typing_goes_to_the_shown_conversation<Se>(
    app: AppModel<Se>,
    key: KeyEvent,
    now: u64,
    action: Action<Se>,
)
    requires
        app.wf(),
        app.shows_one(),
        app.focus is Main,
    ensures
        ({
            let id = app.list[app.current as int].0;
            let was = app.sessions[id];
            let after = app.after(meaning(key, app.focus), now);
            let last = was.msgs.len() - 1;
            let written = |text: Seq<char>|
                AppModel {
                    sessions: app.sessions.insert(
                        id,
                        SessionModel { msgs: was.msgs.update(last, text), ..was },
                    ),
                    ..app
                };
            &&& (key.code matches KeyCode::Char(ch) ==> (!(key.modifiers is Control && (ch == 'c'
                || ch == 'C')) ==> after == written(was.msgs[last].push(ch))))
            &&& key.code is Enter && key.modifiers is Shift ==> after == written(
                was.msgs[last].push('\n'),
            )
            &&& key.code is Backspace && was.msgs[last].len() > 0 ==> after == written(
                was.msgs[last].drop_last(),
            )
            &&& key.code is Backspace && was.msgs[last].len() == 0 ==> after == written(seq![])
            &&& (key.code is Char || key.code is Backspace || (key.code is Enter
                && key.modifiers is Shift)) && app.asks(meaning(key, app.focus), action)
                ==> action is Nothing
        }),
{
    let id = app.list[app.current as int].0;
    assert(app.sessions.contains_key(id));
    let was = app.sessions[id];
    let after = app.after(meaning(key, app.focus), now);
    let last = was.msgs.len() - 1;
    match key.code {
        KeyCode::Char(ch) => {
            assert(was.msgs.drop_last().push(was.msgs[last].push(ch)) =~= was.msgs.update(
                last,
                was.msgs[last].push(ch),
            ));
        },
        KeyCode::Enter => {
            assert(was.msgs.drop_last().push(was.msgs[last].push('\n')) =~= was.msgs.update(
                last,
                was.msgs[last].push('\n'),
            ));
        },
        KeyCode::Backspace => {
            let left = if was.msgs[last].len() == 0 {
                seq![]
            } else {
                was.msgs[last].drop_last()
            };
            assert(app_session::erased(was.msgs[last]) =~= left);
            assert(was.msgs.drop_last().push(left) =~= was.msgs.update(last, left));
        },
        _ => {},
    }
}

/// Enter sends the message of the shown conversation as it stands, with the session that is
/// there, for as many steps as an answer may have; the conversation is then without its session
/// and has an empty message more. Where the session is away, nothing happens.
pub proof fn law_enter_sends_the_message<Se>(
    app: AppModel<Se>,
    key: KeyEvent,
    now: u64,
    action: Action<Se>,
)
    requires
        app.wf(),
        app.shows_one(),
        app.focus is Main,
        key.code is Enter,
        !(key.modifiers is Shift),
        app.asks(meaning(key, app.focus), action),
    ensures
        ({
            let id = app.list[app.current as int].0;
            let was = app.sessions[id];
            let after = app.after(meaning(key, app.focus), now);
            match was.session {
                Some(session) => {
                    &&& action matches Action::Start(se, prompt, steps) && se == session && prompt@
                        == was.msgs[was.msgs.len() - 1] && steps == app.max_steps
                    &&& after == (AppModel {
                        sessions: app.sessions.insert(
                            id,
                            SessionModel {
                                session: None,
                                msgs: was.msgs.push(Seq::<char>::empty()),
                                ..was
                            },
                        ),
                        ..app
                    })
                },
                None => action is Nothing && after == app,
            }
        }),
{
}

/// Escape stops the answer of the shown conversation if one is awaited there: if it has an even
/// number of messages. It changes nothing on the screen.
pub proof fn law_escape_stops_the_answer<Se>(
    app: AppModel<Se>,
    key: KeyEvent,
    now: u64,
    action: Action<Se>,
)
    requires
        app.shows_one(),
        key.code is Esc,
        app.asks(meaning(key, app.focus), action),
    ensures
        app.after(meaning(key, app.focus), now) == app,
        app.sessions[app.list[app.current as int].0].msgs.len() % 2 == 0 ==> (
        action matches Action::Stop(id) && id == app.list[app.current as int]),
        app.sessions[app.list[app.current as int].0].msgs.len() % 2 == 1 ==> action is Nothing,
{
}

/// In the list, the arrows move the cursor by one, no further up than to the first line and no
/// further down than behind the last one; Enter shows what is under it; Right goes to the
/// conversation. No conversation changes.
pub proof fn law_keys_move_in_the_list<Se>(app: AppModel<Se>, key: KeyEvent, now: u64, i: usize)
    requires
        app.list.len() <= usize::MAX,
        app.focus == Focus::List(i),
        i <= app.list.len(),
    ensures
        ({
            let after = app.after(meaning(key, app.focus), now);
            &&& key.code is Up ==> after == (AppModel {
                focus: Focus::List(
                    if i == 0 {
                        0
                    } else {
                        (i - 1) as usize
                    },
                ),
                ..app
            })
            &&& key.code is Down ==> after == (AppModel {
                focus: Focus::List(
                    if i == app.list.len() {
                        i
                    } else {
                        (i + 1) as usize
                    },
                ),
                ..app
            })
            &&& key.code is Enter ==> after == (AppModel { current: i, ..app })
            &&& key.code is Right ==> after == (AppModel { focus: Focus::Main(now), ..app })
            &&& key.code is Left || key.code is Backspace || key.code is Other ==> after == app
            &&& (key.code matches KeyCode::Char(ch) ==> (ch != '-' && !(key.modifiers is Control && (
            ch == 'c' || ch == 'C')) ==> after == app))
        }),
{
}

/// In the conversation, the arrows scroll by one row, and Left goes to the line of the list of
/// the conversation that is shown.
pub proof fn law_keys_scroll_the_conversation<Se>(app: AppModel<Se>, key: KeyEvent, now: u64)
    requires
        app.focus is Main,
    ensures
        ({
            let after = app.after(meaning(key, app.focus), now);
            &&& key.code is Up && app.pos > 0 ==> after == (AppModel {
                pos: (app.pos - 1) as usize,
                ..app
            })
            &&& key.code is Up && app.pos == 0 ==> after == app
            &&& key.code is Down && app.pos < usize::MAX ==> after == (AppModel {
                pos: (app.pos + 1) as usize,
                ..app
            })
            &&& key.code is Down && app.pos == usize::MAX ==> after == app
            &&& key.code is Left ==> after == (AppModel { focus: Focus::List(app.current), ..app })
            &&& key.code is Right || key.code is Other ==> after == app
        }),
{
}

/// Plus and the equals sign ask for a new conversation, in the list only; moving, going and
/// picking ask for nothing.
pub proof fn law_what_keys_ask_for<Se>(app: AppModel<Se>, key: KeyEvent, action: Action<Se>)
    requires
        app.asks(meaning(key, app.focus), action),
    ensures
        action is NewSession <==> app.focus is List && (key.code == KeyCode::Char('+') || key.code
            == KeyCode::Char('=')),
        action is Stop ==> key.code is Esc,
        action is Start ==> key.code is Enter && app.focus is Main && !(key.modifiers is Shift),
{
}

/// Minus drops the conversation that is shown, in the list only and unless it is the only one:
/// the others keep their order and are as they were, and the next one, or the last one where
/// there is none, is shown.
pub proof fn law_minus_drops_the_shown_conversation<Se>(app: AppModel<Se>, key: KeyEvent, now: u64)
    requires
        app.wf(),
        app.shows_one(),
        app.focus is List,
        key.code == KeyCode::Char('-'),
    ensures
        ({
            let at = app.current as int;
            let n = app.list.len();
            let after = app.after(meaning(key, app.focus), now);
            &&& n == 1 ==> after == app
            &&& n > 1 ==> {
                &&& after.list == app.list.take(at) + app.list.skip(at + 1)
                &&& after.sessions.dom() == app.sessions.dom().remove(app.list[at].0)
                &&& forall|k: usize| #[trigger]
                    app.sessions.contains_key(k) && k != app.list[at].0 ==> after.sessions[k]
                        == app.sessions[k]
                &&& after.current == if at < n - 1 {
                    at
                } else {
                    n - 2
                }
                &&& app.focus->List_0 < n - 1 ==> after.focus == app.focus
                &&& app.focus->List_0 >= n - 1 ==> after.focus == Focus::List((n - 2) as usize)
                &&& after.pos == app.pos
                &&& after.stop == app.stop
                &&& after.max_steps == app.max_steps
            }
        }),
{
    let at = app.current as int;
    let after = app.after(meaning(key, app.focus), now);
    if app.list.len() > 1 {
        assert(after.list =~= app.list.take(at) + app.list.skip(at + 1));
        assert(after.sessions.dom() =~= app.sessions.dom().remove(app.list[at].0));
    }
}

/// A conversation is shown message by message, each behind who wrote it, the user first, and with
/// a line feed behind it.
pub proof fn law_messages_are_shown_in_turn(msgs: Seq<Seq<char>>, msg: Seq<char>)
    ensures
        dialog(Seq::<Seq<char>>::empty()).len() == 0,
        msgs.len() % 2 == 0 ==> dialog(msgs.push(msg)) == dialog(msgs) + "user> "@ + msg + seq![
            '\n',
        ],
        msgs.len() % 2 == 1 ==> dialog(msgs.push(msg)) == dialog(msgs) + "assistant> "@ + msg
            + seq!['\n'],
{
    assert(msgs.push(msg).drop_last() =~= msgs);
    let who = speaker(msgs.len() as int);
    assert(dialog(msgs.push(msg)) =~= dialog(msgs) + who + msg + seq!['\n']);
}

/// A line of the list is the name of the conversation, in brackets exactly while its session is
/// away.
pub proof fn law_lines_of_the_list<Se>(session: SessionModel<Se>)
    ensures
        session.session is Some ==> label(session) == session.name,
        session.session is None ==> label(session).len() == session.name.len() + 2 && label(
            session,
        )[0] == '[' && label(session).last() == ']' && label(session).subrange(
            1,
            label(session).len() - 1,
        ) == session.name,
{
    if session.session is None {
        assert(label(session).subrange(1, label(session).len() - 1) =~= session.name);
    }
}

/// A new conversation has its name and its session, and one message in which nothing stands.
pub proof fn law_conversations_begin_empty<Se>(id: SessionId, name: Seq<char>, session: Se)
    ensures
        begun(id, name, session).id == id,
        begun(id, name, session).name == name,
        begun(id, name, session).session == Some(session),
        begun(id, name, session).msgs.len() == 1,
        begun(id, name, session).msgs[0].len() == 0,
{
}

/// The cursor of the shown conversation is to be seen in the second half of the second since it
/// began to blink, and begins anew after that; only where the user writes there.
pub proof fn law_the_cursor_blinks<Se>(app: AppModel<Se>, area: Rect, now: u64)
    ensures
        ({
            let msgs = app.sessions[app.list[app.current as int].0].msgs;
            let text = dialog(msgs);
            let writing = app.focus is Main && msgs.len() % 2 == 1;
            &&& !writing ==> app.text(now) == text && app.drawn(area, now).focus == app.focus
            &&& writing ==> {
                let since = app.focus->Main_0;
                &&& now < since + 500_000_000 ==> app.text(now) == text && app.drawn(area, now).focus
                    == app.focus
                &&& since + 500_000_000 <= now < since + 1_000_000_000 ==> app.text(now)
                    == text.drop_last().push('_') && app.drawn(area, now).focus == app.focus
                &&& since + 1_000_000_000 <= now ==> app.text(now) == text && app.drawn(
                    area,
                    now,
                ).focus == Focus::Main(now)
            }
        }),
{
}

/// Drawing takes note of the rows of the area and of the text, and scrolls back to the end of the
/// text where that was passed. It changes nothing else but when the cursor blinks.
pub proof fn law_drawing_scrolls_back<Se>(app: AppModel<Se>, area: Rect, now: u64)
    ensures
        ({
            let after = app.drawn(area, now);
            let rows = text::text_rows(app.text(now), area.width as nat);
            &&& after.ha == area.height
            &&& rows <= usize::MAX ==> after.hc == rows
            &&& after.hc >= after.ha && app.pos > after.hc - after.ha ==> after.pos == after.hc
                - after.ha
            &&& after.hc >= after.ha && app.pos <= after.hc - after.ha ==> after.pos == app.pos
            &&& after.hc < after.ha ==> after.pos == 0
            &&& after.sessions == app.sessions
            &&& after.list == app.list
            &&& after.current == app.current
            &&& after.stop == app.stop
            &&& after.max_steps == app.max_steps
        }),
{
}

/// On a screen that is large enough, the state bar has the three lowest rows, the list the thirty
/// leftmost columns above it, and the conversation all but a column of the rest.
pub proof fn law_areas_of_large_screens(frame: Rect)
    requires
        frame.x + frame.width <= u16::MAX,
        frame.y + frame.height <= u16::MAX,
        frame.width >= 31,
        frame.height >= 3,
    ensures
        screen(frame).0 == (Rect { width: 30, height: (frame.height - 3) as u16, ..frame }),
        screen(frame).1 == (Rect {
            x: (frame.x + 31) as u16,
            width: (frame.width - 31) as u16,
            height: (frame.height - 3) as u16,
            ..frame
        }),
        screen(frame).2 == (Rect {
            y: (frame.y + frame.height - 3) as u16,
            height: 3,
            ..frame
        }),
{
}

/// It is the user's turn to write where the shown conversation has an odd number of messages.
pub proof fn law_whose_turn_it_is<Se>(app: AppModel<Se>)
    ensures
        app.state() is User <==> app.sessions[app.list[app.current as int].0].msgs.len() % 2 == 1,
{
}

/// Control-C ends the chat and changes nothing else, wherever keys go; nothing is asked for.
pub proof fn law_control_c_only_stops<Se>(
    app: AppModel<Se>,
    key: KeyEvent,
    now: u64,
    action: Action<Se>,
)
    requires
        key.modifiers is Control,
        key.code == KeyCode::Char('c') || key.code == KeyCode::Char('C'),
        app.asks(meaning(key, app.focus), action),
    ensures
        app.after(meaning(key, app.focus), now) == (AppModel { stop: true, ..app }),
        action is Nothing,
{
}

/// On any screen the state bar has as many of its three rows as there are, and the areas above it
/// have the others. Of the columns, one stays empty, the list has as many of its thirty as are
/// left, and the conversation has the others.
pub proof fn law_areas_use_the_screen(frame: Rect)
    requires
        frame.x + frame.width <= u16::MAX,
        frame.y + frame.height <= u16::MAX,
    ensures
        ({
            let (list, main, bottom) = screen(frame);
            &&& bottom.height == if frame.height < 3 {
                frame.height
            } else {
                3
            }
            &&& bottom.width == frame.width
            &&& bottom.x == frame.x
            &&& bottom.y + bottom.height == frame.y + frame.height
            &&& list.height + bottom.height == frame.height
            &&& main.height == list.height
            &&& list.x == frame.x
            &&& list.y == frame.y
            &&& main.y == frame.y
            &&& main.x + main.width == frame.x + frame.width
            &&& frame.width > 0 ==> list.width + 1 + main.width == frame.width
            &&& frame.width > 0 ==> list.width == if frame.width < 31 {
                frame.width - 1
            } else {
                30
            }
        }),
{
}

} // verus!
