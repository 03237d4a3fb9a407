use gptui::cli::thread_at;
use gptui::error::Error;
use gptui::llm::LlmModel;
use gptui::modes::ChatAction;
use gptui::modes::ChatMode;
use gptui::modes::CopyAction;
use gptui::modes::CopyMode;
use gptui::modes::ListAction;
use gptui::modes::ListMode;
use gptui::modes::Modes;
use gptui::modes::Screen;
use gptui::modes::TermEvent;
use gptui::session::Thread;
use gptui::tui::InputEvent;
use gptui::tui::KeyCode;
use gptui::tui::Modifiers;

fn key(code: KeyCode, modifiers: Modifiers) -> TermEvent {
    TermEvent::Input(InputEvent::Key(code, modifiers))
}

#[test]
fn keys_of_the_chat() {
    let cases = [
        (KeyCode::Up, Modifiers::Control, Some(ChatAction::ScrollUp)),
        (KeyCode::Up, Modifiers::Bare, None),
        (KeyCode::Down, Modifiers::Control, Some(ChatAction::ScrollDown)),
        (KeyCode::Char(' '), Modifiers::Alt, Some(ChatAction::EnterCopyMode)),
        (KeyCode::Char(' '), Modifiers::Bare, Some(ChatAction::TypeChar(' '))),
        (KeyCode::Char('a'), Modifiers::Shift, Some(ChatAction::TypeChar('A'))),
        (KeyCode::Char('a'), Modifiers::Control, Some(ChatAction::TypeChar('a'))),
        (KeyCode::Esc, Modifiers::Other, Some(ChatAction::ExitChat)),
        (KeyCode::Enter, Modifiers::Bare, None),
        (KeyCode::Backspace, Modifiers::Bare, None),
    ];
    for (code, modifiers, action) in cases {
        assert_eq!(ChatMode::parse_event(&key(code, modifiers)), Ok(action));
    }
    for quiet in [
        TermEvent::Tick,
        TermEvent::Render,
        TermEvent::Init,
        TermEvent::Quit,
        TermEvent::Input(InputEvent::ScrollUp),
    ] {
        assert_eq!(ChatMode::parse_event(&quiet), Ok(None));
        assert_eq!(ListMode::parse_event(&quiet), Ok(None));
        assert_eq!(CopyMode::parse_event(&quiet), Ok(None));
        assert_eq!(quiet.raise_err(), Ok(()));
    }
    let failed = TermEvent::Error("broken pipe".to_string());
    assert_eq!(failed.raise_err(), Err(Error::Other("broken pipe".to_string())));
    assert_eq!(
        ChatMode::parse_event(&failed),
        Err(Error::Other("broken pipe".to_string()))
    );
    assert!(ListMode::parse_event(&failed).is_err());
    assert!(CopyMode::parse_event(&failed).is_err());
}

#[test]
fn keys_of_the_list_and_of_the_choice() {
    let list = [
        (KeyCode::Enter, Some(ListAction::EnterChat)),
        (KeyCode::Char('n'), Some(ListAction::NewChat)),
        (KeyCode::Char('N'), None),
        (KeyCode::Up, Some(ListAction::SelectionUp)),
        (KeyCode::Down, Some(ListAction::SelectionDown)),
        (KeyCode::Esc, None),
    ];
    for (code, action) in list {
        assert_eq!(ListMode::parse_event(&key(code, Modifiers::Bare)), Ok(action));
    }
    let copy = [
        (KeyCode::Char('0'), Some(CopyAction::InputCodeBlockDigit(0))),
        (KeyCode::Char('7'), Some(CopyAction::InputCodeBlockDigit(7))),
        (KeyCode::Char('9'), Some(CopyAction::InputCodeBlockDigit(9))),
        (KeyCode::Char('x'), None),
        (KeyCode::Char('٣'), None),
        (KeyCode::Enter, Some(CopyAction::SubmitCopySelection)),
        (KeyCode::Esc, Some(CopyAction::ExitCopyMode)),
        (KeyCode::Up, Some(CopyAction::ScrollUp)),
        (KeyCode::Down, Some(CopyAction::ScrollDown)),
        (KeyCode::Backspace, None),
    ];
    for (code, action) in copy {
        assert_eq!(CopyMode::parse_event(&key(code, Modifiers::Shift)), Ok(action));
    }
}

#[test]
fn screens_follow_the_actions() {
    let mut app = Modes::new();
    assert_eq!(app.screen, Screen::default());
    assert_eq!(app.update(&key(KeyCode::Char('k'), Modifiers::Bare)), Ok(()));
    assert_eq!(app.update(&key(KeyCode::Char('k'), Modifiers::Bare)), Ok(()));
    assert_eq!(app.update(&key(KeyCode::Char('j'), Modifiers::Bare)), Ok(()));
    assert_eq!(app.update(&key(KeyCode::Char('x'), Modifiers::Bare)), Ok(()));
    assert_eq!(app.count, 1);
    app.update(&key(KeyCode::Char(' '), Modifiers::Alt)).unwrap();
    assert_eq!(app.screen, Screen::Copy);
    app.update(&key(KeyCode::Char('k'), Modifiers::Bare)).unwrap();
    app.update(&key(KeyCode::Char('5'), Modifiers::Bare)).unwrap();
    assert_eq!((app.screen, app.count), (Screen::Copy, 1));
    app.update(&key(KeyCode::Esc, Modifiers::Bare)).unwrap();
    assert_eq!(app.screen, Screen::Chat);
    app.update(&key(KeyCode::Esc, Modifiers::Bare)).unwrap();
    assert_eq!(app.screen, Screen::List);
    app.update(&key(KeyCode::Char('n'), Modifiers::Bare)).unwrap();
    assert_eq!(app.screen, Screen::List);
    app.update(&key(KeyCode::Enter, Modifiers::Bare)).unwrap();
    assert_eq!(app.screen, Screen::Chat);
    assert!(app.update(&TermEvent::Error("lost".to_string())).is_err());
    assert!(!app.should_quit);
    app.update(&TermEvent::Quit).unwrap();
    assert!(app.should_quit);

    let mut edge = Modes {
        screen: Screen::Chat,
        should_quit: false,
        count: i32::MAX,
    };
    ChatMode::update(&mut edge, ChatAction::TypeChar('k'));
    assert_eq!(edge.count, i32::MAX);
    edge.count = i32::MIN;
    ChatMode::update(&mut edge, ChatAction::TypeChar('j'));
    assert_eq!(edge.count, i32::MIN);
    ListMode::update(&mut edge, ListAction::NewChat);
    CopyMode::update(&mut edge, CopyAction::ScrollUp);
    assert_eq!(edge.screen, Screen::Chat);
}

#[test]
fn numbers_name_the_threads_of_a_list() {
    let a = Thread::new(vec![], LlmModel::GPT4, 11);
    let b = Thread::new(vec![], LlmModel::GPT4, 22);
    let list = vec![(11u128, &a), (22u128, &b)];
    assert_eq!(thread_at(&list, 1), Some(11));
    assert_eq!(thread_at(&list, 2), Some(22));
    for bad in [0, 3, -1, i64::MIN, i64::MAX] {
        assert_eq!(thread_at(&list, bad), None);
    }
    assert_eq!(thread_at(&vec![], 1), None);
}
