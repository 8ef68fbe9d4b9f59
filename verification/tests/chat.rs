use llama_serve::chat::app_session::AppSession;
use llama_serve::chat::tui::{
    areas, Action, App, Focus, KeyCode, KeyEvent, KeyModifiers, Rect, State, HALF_SECOND, SECOND,
};
use llama_serve::chat::{BaseArgs, ChatArgs, ChatMode, Reply, Simple, Turn, USER};
use llama_serve::session::SessionId;

fn base() -> BaseArgs {
    BaseArgs {
        model: "model.gguf".to_string(),
        gpus: vec![0, 1],
        max_steps: 16,
        no_cuda_graph: true,
    }
}

#[test]
fn chat_arguments() {
    let (service, mode) = ChatArgs { base: base(), tui: false }.chat();
    assert_eq!(service.model, "model.gguf");
    assert_eq!(service.gpus, vec![0, 1]);
    assert!(!service.use_cuda_graph);
    assert!(matches!(mode, ChatMode::Simple(16)));
    let (_, mode) = ChatArgs { base: base(), tui: true }.chat();
    assert!(matches!(mode, ChatMode::Screen(16)));
}

#[test]
fn simple_chat() {
    assert_eq!(USER, "user> ");
    let mut chat = Simple::new('s', 3);
    assert!(chat.ready());
    assert!(matches!(chat.read_line("\n".to_string()), Reply::Again));
    match chat.read_line("hello\n".to_string()) {
        Reply::Start(session, prompt, steps, text) => {
            assert_eq!(session, 's');
            assert_eq!(prompt, "hello");
            assert_eq!(steps, 3);
            assert_eq!(text, "assistant> ");
        }
        Reply::Again => panic!(),
    }
    assert!(!chat.ready());
    let text = chat.receive(&vec!["Hi".to_string(), " there".to_string()], vec![]);
    assert_eq!(text, "Hi there");
    assert!(matches!(chat.turn, Turn::Assistant(2)));
    let text = chat.receive(&vec!["!".to_string()], vec!['t', 'u']);
    assert_eq!(text, "!\n=== over ===\n");
    assert!(chat.ready());
    assert_eq!(chat.session, Some('t'));
    assert!(matches!(chat.turn, Turn::User));
}

#[test]
fn simple_chat_that_runs_out_of_steps() {
    let mut chat = Simple::new('s', 2);
    let _ = chat.read_line("hello\n".to_string());
    assert_eq!(chat.receive(&vec![], vec![]), "");
    assert_eq!(chat.receive(&vec!["x".to_string()], vec![]), "x\n=== over ===\n");
    assert!(matches!(chat.turn, Turn::User));
    assert!(!chat.ready());
    assert!(matches!(chat.read_line("\n".to_string()), Reply::Again));
}

#[test]
fn simple_chat_without_steps() {
    let mut chat = Simple::new('s', 0);
    match chat.read_line("hello\n".to_string()) {
        Reply::Start(_, _, steps, text) => {
            assert_eq!(steps, 0);
            assert_eq!(text, "assistant> \n=== over ===\n");
        }
        Reply::Again => panic!(),
    }
    assert!(matches!(chat.turn, Turn::User));
}

#[test]
fn turns_alternate() {
    let mut session = AppSession::new(SessionId(3), "default", 'a');
    assert_eq!(session.id(), SessionId(3));
    assert_eq!(session.name(), "default");
    assert!(!session.is_busy());
    assert_eq!(session.msgs(), &vec![String::new()]);
    session.push('h');
    session.push('i');
    session.push('!');
    session.pop();
    let (se, prompt) = session.start().unwrap();
    assert_eq!((se, prompt.as_str()), ('a', "hi"));
    assert!(session.is_busy());
    assert!(session.start().is_none());
    session.push_str("hel");
    session.push_str("lo");
    session.idle('b');
    assert!(!session.is_busy());
    assert_eq!(session.msgs(), &vec!["hi".to_string(), "hello".to_string(), String::new()]);
    session.pop();
    assert_eq!(session.msgs()[2], "");
}

fn key(code: KeyCode) -> KeyEvent {
    KeyEvent { modifiers: KeyModifiers::Other, code }
}

fn with(modifiers: KeyModifiers, code: KeyCode) -> KeyEvent {
    KeyEvent { modifiers, code }
}

fn app() -> App<char> {
    App::new(SessionId(0), 'a', 9, 100)
}

const AREA: Rect = Rect { x: 0, y: 0, width: 20, height: 2 };

fn shown(app: &mut App<char>) -> String {
    app.render_main_dialog(AREA, 100).text
}

#[test]
fn focus() {
    assert!(Focus::List(1).select());
    assert!(!Focus::List(1).chat());
    assert!(Focus::Main(1).chat());
    assert!(!Focus::Main(1).select());
}

#[test]
fn typing_and_erasing() {
    let mut app = app();
    for ch in "hey+-=".chars() {
        assert!(matches!(app.on_key_event(key(KeyCode::Char(ch)), 0), Action::Nothing));
    }
    assert_eq!(shown(&mut app), "user> hey+-=\n");
    let _ = app.on_key_event(key(KeyCode::Backspace), 0);
    let _ = app.on_key_event(with(KeyModifiers::Shift, KeyCode::Enter), 0);
    let _ = app.on_key_event(with(KeyModifiers::Control, KeyCode::Char('a')), 0);
    let _ = app.on_key_event(with(KeyModifiers::Shift, KeyCode::Char('C')), 0);
    assert_eq!(shown(&mut app), "user> hey+-\naC\n");
    assert!(!app.stopped());
}

#[test]
fn control_c_stops() {
    for ch in ['c', 'C'] {
        let mut app = app();
        let _ = app.on_key_event(with(KeyModifiers::Control, KeyCode::Char(ch)), 0);
        assert!(app.stopped());
        assert_eq!(shown(&mut app), "user> \n");
    }
}

#[test]
fn sending_and_being_answered() {
    let mut app = app();
    assert_eq!(app.state(), State::User);
    assert_eq!(app.poll_interval(), 250);
    assert!(matches!(app.on_key_event(key(KeyCode::Esc), 0), Action::Nothing));
    let _ = app.on_key_event(key(KeyCode::Char('x')), 0);
    match app.on_key_event(key(KeyCode::Enter), 0) {
        Action::Start(session, prompt, steps) => {
            assert_eq!((session, prompt.as_str(), steps), ('a', "x", 9));
        }
        _ => panic!(),
    }
    assert_eq!(app.state(), State::Assistant);
    assert_eq!(app.poll_interval(), 5);
    assert_eq!(app.sess_list(), vec!["[default]".to_string()]);
    assert!(matches!(app.on_key_event(key(KeyCode::Enter), 0), Action::Nothing));
    assert!(matches!(app.on_key_event(key(KeyCode::Esc), 0), Action::Stop(SessionId(0))));
    app.handle_service(
        &vec![(SessionId(0), "y".to_string()), (SessionId(0), "z".to_string())],
        vec![],
    );
    assert_eq!(shown(&mut app), "user> x\nassistant> yz\n");
    app.handle_service(&vec![(SessionId(0), "!".to_string())], vec![(SessionId(0), 'b'), (SessionId(9), 'c')]);
    assert_eq!(app.sess_list(), vec!["default".to_string()]);
    assert_eq!(shown(&mut app), "user> x\nassistant> yz!\nuser> \n");
    assert_eq!(app.state_bar(), "msgs: 3, pos: 0/2/3");
}

#[test]
fn left_and_right() {
    let mut app = app();
    let _ = app.on_key_event(key(KeyCode::Right), 5);
    assert_eq!(app.focus(), Focus::Main(100));
    let _ = app.on_key_event(key(KeyCode::Left), 5);
    assert_eq!(app.focus(), Focus::List(0));
    let _ = app.on_key_event(key(KeyCode::Left), 5);
    let _ = app.on_key_event(key(KeyCode::Backspace), 5);
    let _ = app.on_key_event(key(KeyCode::Char('q')), 5);
    assert_eq!(app.focus(), Focus::List(0));
    let _ = app.on_key_event(key(KeyCode::Right), 7);
    assert_eq!(app.focus(), Focus::Main(7));
    assert_eq!(shown(&mut app), "user> \n");
}

#[test]
fn adding_and_removing() {
    let mut app = app();
    let _ = app.on_key_event(key(KeyCode::Left), 0);
    let _ = app.on_key_event(key(KeyCode::Char('-')), 0);
    assert_eq!(app.current_id(), SessionId(0));
    for (i, ch) in ['+', '='].into_iter().enumerate() {
        assert!(matches!(app.on_key_event(key(KeyCode::Char(ch)), 0), Action::NewSession));
        app.add_session(SessionId(5 + i), 'n');
        assert_eq!(app.current_id(), SessionId(5 + i));
        assert_eq!(app.focus(), Focus::List(1 + i));
        assert_eq!(app.list_state(), 1 + i);
    }
    assert_eq!(app.sess_list(), vec!["default", "new session", "new session"]);
    let _ = app.on_key_event(key(KeyCode::Char('-')), 0);
    assert_eq!(app.current_id(), SessionId(5));
    assert_eq!(app.focus(), Focus::List(1));
    let _ = app.on_key_event(key(KeyCode::Up), 0);
    let _ = app.on_key_event(key(KeyCode::Up), 0);
    assert_eq!(app.focus(), Focus::List(0));
    let _ = app.on_key_event(key(KeyCode::Enter), 0);
    assert_eq!(app.current_id(), SessionId(0));
    let _ = app.on_key_event(key(KeyCode::Char('-')), 0);
    assert_eq!(app.current_id(), SessionId(5));
    assert_eq!(app.sess_list(), vec!["new session"]);
    let _ = app.on_key_event(key(KeyCode::Char('-')), 0);
    assert_eq!(app.sess_list(), vec!["new session"]);
}

#[test]
fn the_cursor_stops_behind_the_list() {
    let mut app = app();
    let _ = app.on_key_event(key(KeyCode::Left), 0);
    for _ in 0..3 {
        let _ = app.on_key_event(key(KeyCode::Down), 0);
    }
    assert_eq!(app.focus(), Focus::List(1));
    assert_eq!(app.current_id(), SessionId(0));
    assert!(app.knows(SessionId(0)) && !app.knows(SessionId(1)));
    assert!(app.shows_one());
    let _ = app.on_key_event(key(KeyCode::Enter), 0);
    assert!(!app.shows_one());
}

#[test]
fn scrolling() {
    let mut app = app();
    for _ in 0..30 {
        let _ = app.on_key_event(key(KeyCode::Char('w')), 0);
    }
    for _ in 0..5 {
        let _ = app.on_key_event(key(KeyCode::Down), 0);
    }
    let dialog = app.render_main_dialog(Rect { x: 1, y: 1, width: 10, height: 2 }, 100);
    assert_eq!(dialog.scroll, 2);
    assert_eq!(dialog.position, 2);
    assert_eq!(dialog.content_length, 2);
    assert_eq!(app.state_bar(), "msgs: 1, pos: 2/2/4");
    let _ = app.on_key_event(key(KeyCode::Up), 0);
    let dialog = app.render_main_dialog(Rect { x: 1, y: 1, width: 10, height: 2 }, 100);
    assert_eq!(dialog.scroll, 1);
    let dialog = app.render_main_dialog(Rect { x: 1, y: 1, width: 80, height: 9 }, 100);
    assert_eq!((dialog.scroll, dialog.content_length), (0, 0));
}

#[test]
fn the_cursor_blinks() {
    let mut app = app();
    assert_eq!(app.render_main_dialog(AREA, 50).text, "user> \n");
    assert_eq!(app.render_main_dialog(AREA, 100 + HALF_SECOND - 1).text, "user> \n");
    assert_eq!(app.render_main_dialog(AREA, 100 + HALF_SECOND).text, "user> _");
    assert_eq!(app.render_main_dialog(AREA, 100 + SECOND - 1).text, "user> _");
    assert_eq!(app.focus(), Focus::Main(100));
    assert_eq!(app.render_main_dialog(AREA, 100 + SECOND).text, "user> \n");
    assert_eq!(app.focus(), Focus::Main(100 + SECOND));
    let _ = app.on_key_event(key(KeyCode::Left), 0);
    assert_eq!(app.render_main_dialog(AREA, 100 + SECOND + HALF_SECOND).text, "user> \n");
}

#[test]
fn the_cursor_is_hidden_while_an_answer_comes() {
    let mut app = app();
    let _ = app.on_key_event(key(KeyCode::Enter), 0);
    assert_eq!(app.render_main_dialog(AREA, 100 + HALF_SECOND).text, "user> \nassistant> \n");
    assert_eq!(app.focus(), Focus::Main(100));
}

#[test]
fn areas_of_a_screen() {
    let (list, main, bottom) = areas(Rect { x: 0, y: 0, width: 100, height: 40 });
    assert_eq!(list, Rect { x: 0, y: 0, width: 30, height: 37 });
    assert_eq!(main, Rect { x: 31, y: 0, width: 69, height: 37 });
    assert_eq!(bottom, Rect { x: 0, y: 37, width: 100, height: 3 });
    for (x, y) in [(0, 0), (3, 4)] {
        for width in 0..100 {
            for height in 0..8 {
                let (list, main, bottom) = areas(Rect { x, y, width, height });
                let low = height.min(3);
                let gap = width.min(1);
                let left = (width - gap).min(30);
                assert_eq!(list, Rect { x, y, width: left, height: height - low });
                assert_eq!(
                    main,
                    Rect {
                        x: x + left + gap,
                        y,
                        width: width - gap - left,
                        height: height - low
                    }
                );
                assert_eq!(bottom, Rect { x, y: y + height - low, width, height: low });
            }
        }
    }
}

#[test]
fn areas_at_the_end_of_all_coordinates() {
    let x = u16::MAX - 40;
    let y = u16::MAX - 10;
    let (list, main, bottom) = areas(Rect { x, y, width: 100, height: 100 });
    assert_eq!(list, Rect { x, y, width: 30, height: 7 });
    assert_eq!(main, Rect { x: x + 31, y, width: 9, height: 7 });
    assert_eq!(bottom, Rect { x, y: y + 7, width: 100, height: 3 });
    let (list, main, bottom) = areas(Rect { x: 0, y: 0, width: u16::MAX, height: u16::MAX });
    assert_eq!(list, Rect { x: 0, y: 0, width: 30, height: u16::MAX - 3 });
    assert_eq!(main, Rect { x: 31, y: 0, width: u16::MAX - 31, height: u16::MAX - 3 });
    assert_eq!(bottom, Rect { x: 0, y: u16::MAX - 3, width: u16::MAX, height: 3 });
}

#[test]
fn only_pressed_keys_count() {
    let mut app = app();
    assert!(matches!(app.handle_key(false, key(KeyCode::Char('x')), 0), Action::Nothing));
    assert_eq!(shown(&mut app), "user> \n");
    assert!(matches!(app.handle_key(true, key(KeyCode::Char('x')), 0), Action::Nothing));
    assert_eq!(shown(&mut app), "user> x\n");
}
