use gptui::client::reply_items;
use gptui::db::Store;
use gptui::error::Error;
use gptui::highlight::Highlighter;
use gptui::llm::LlmModel;
use gptui::message::Message;
use gptui::message::Role;
use gptui::render::DisplayLine;
use gptui::session::Session;
use gptui::session::Summary;
use gptui::session::Thread;
use gptui::tui::test_tui;
use gptui::tui::to_ascii_uppercase;
use gptui::tui::App;
use gptui::tui::Controls;
use gptui::tui::InputEvent;
use gptui::tui::KeyCode;
use gptui::tui::Modifiers;
use gptui::tui::Outcome;
use gptui::tui::ReplyItem;

fn app_with(messages: Vec<Message>) -> App {
    let mut session = Session::new(Store::new());
    session.put_thread(Thread::new(messages, LlmModel::GPT35Turbo, 1));
    App::new(session, 1).unwrap()
}

fn three_blocks() -> App {
    app_with(vec![
        Message::new(Role::System, "You are terse", 1),
        Message::new(Role::User, "show me", 2),
        Message::new(
            Role::Assistant,
            "```py\nfirst\n```\nthen\n```js\nsecond\n```\nand\n```\nthird\n```",
            3,
        ),
    ])
}

fn key(app: &mut App, code: KeyCode, modifiers: Modifiers) -> Outcome {
    app.update_awaiting_send(InputEvent::Key(code, modifiers))
}

fn typed(app: &mut App, text: &str) {
    for c in text.chars() {
        key(app, KeyCode::Char(c), Modifiers::Bare);
    }
}

#[test]
fn copy_mode_range() {
    let mut app = three_blocks();
    key(&mut app, KeyCode::Char('w'), Modifiers::Control);
    assert!(app.controls().copy_mode());
    assert!(matches!(
        key(&mut app, KeyCode::Char('2'), Modifiers::Bare),
        Outcome::Nothing
    ));
    assert_eq!(app.controls().selected_block_index(), Some(2));
    assert_eq!(app.controls().bottom_text(), None);
    match key(&mut app, KeyCode::Enter, Modifiers::Bare) {
        Outcome::Copy(text) => assert_eq!(text, "second"),
        other => panic!("unexpected {other:?}"),
    }
    assert!(!app.controls().copy_mode());
    assert_eq!(app.controls().bottom_text(), Some("Copied 'second'"));

    key(&mut app, KeyCode::Char('w'), Modifiers::Control);
    key(&mut app, KeyCode::Char('9'), Modifiers::Bare);
    assert_eq!(app.controls().bottom_text(), Some("No selection for '9'!"));
    assert!(!app.controls().copy_mode());
    assert_eq!(app.controls().user_message(), "");
}

#[test]
fn copy_mode_digits_escape_and_zero() {
    let mut app = three_blocks();
    key(&mut app, KeyCode::Char('w'), Modifiers::Control);
    key(&mut app, KeyCode::Char('x'), Modifiers::Bare);
    assert!(app.controls().copy_mode());
    assert!(matches!(
        key(&mut app, KeyCode::Enter, Modifiers::Bare),
        Outcome::Nothing
    ));
    assert!(app.controls().copy_mode());
    key(&mut app, KeyCode::Char('0'), Modifiers::Bare);
    assert_eq!(app.controls().bottom_text(), Some("No selection for '0'!"));
    assert!(!app.controls().copy_mode());

    key(&mut app, KeyCode::Char('w'), Modifiers::Control);
    key(&mut app, KeyCode::Char('1'), Modifiers::Bare);
    assert_eq!(app.controls().selected_block_index(), Some(1));
    key(&mut app, KeyCode::Char('2'), Modifiers::Bare);
    assert_eq!(app.controls().bottom_text(), Some("No selection for '12'!"));
    assert!(!app.controls().copy_mode());

    key(&mut app, KeyCode::Char('w'), Modifiers::Control);
    key(&mut app, KeyCode::Char('3'), Modifiers::Bare);
    key(&mut app, KeyCode::Esc, Modifiers::Bare);
    assert!(!app.controls().copy_mode());
    assert_eq!(app.controls().selected_block_index(), Some(3));

    key(&mut app, KeyCode::Char('w'), Modifiers::Control);
    for _ in 0..30 {
        key(&mut app, KeyCode::Char('w'), Modifiers::Control);
    }
    assert!(app.controls().copy_mode());
}

#[test]
fn shown_numbers_select_the_shown_blocks() {
    let mut app = app_with(vec![
        Message::new(Role::System, "plain prompt", 1),
        Message::new(Role::User, "```a\none\n```", 2),
        Message::new(Role::Assistant, "x\n```b\ntwo\n```\ny\n```c\nthree\n```", 3),
    ]);
    let frame = app.ui(92, 100);
    let mut shown: Vec<(usize, String)> = Vec::new();
    let mut code = String::new();
    for line in &frame.lines {
        match line {
            DisplayLine::Code(spans) => {
                code = spans.iter().map(|s| s.text.trim_end()).collect();
            }
            DisplayLine::Annotation(n) => shown.push((*n, code.clone())),
            _ => {}
        }
    }
    assert_eq!(
        shown,
        vec![
            (1, "one".to_string()),
            (2, "two".to_string()),
            (3, "three".to_string())
        ]
    );
    for (number, text) in shown {
        key(&mut app, KeyCode::Char('w'), Modifiers::Control);
        typed(&mut app, &number.to_string());
        match key(&mut app, KeyCode::Enter, Modifiers::Bare) {
            Outcome::Copy(copied) => assert_eq!(copied, text),
            other => panic!("unexpected {other:?}"),
        }
    }
}

#[test]
fn keys_of_the_input_window() {
    let mut app = three_blocks();
    typed(&mut app, "ab");
    key(&mut app, KeyCode::Char('c'), Modifiers::Shift);
    key(&mut app, KeyCode::Char('é'), Modifiers::Shift);
    key(&mut app, KeyCode::Char('d'), Modifiers::Other);
    key(&mut app, KeyCode::Enter, Modifiers::Bare);
    key(&mut app, KeyCode::Char('x'), Modifiers::Alt);
    assert_eq!(app.controls().user_message(), "abCéd\nx");
    key(&mut app, KeyCode::Backspace, Modifiers::Bare);
    key(&mut app, KeyCode::Backspace, Modifiers::Control);
    assert_eq!(app.controls().user_message(), "abCéd");
    key(&mut app, KeyCode::Other, Modifiers::Bare);
    key(&mut app, KeyCode::Esc, Modifiers::Bare);
    app.update_awaiting_send(InputEvent::Other);
    assert_eq!(app.controls().user_message(), "abCéd");
    assert!(!app.should_show_editor());
    key(&mut app, KeyCode::Char('e'), Modifiers::Control);
    assert!(app.should_show_editor());
    assert!(!app.should_quit());
    key(&mut app, KeyCode::Char('c'), Modifiers::Control);
    assert!(app.should_quit());
    assert_eq!(to_ascii_uppercase('a'), 'A');
    assert_eq!(to_ascii_uppercase('z'), 'Z');
    assert_eq!(to_ascii_uppercase('A'), 'A');
    assert_eq!(to_ascii_uppercase('1'), '1');
    assert_eq!(to_ascii_uppercase('ß'), 'ß');
    for c in ['a', 'm', 'z', '{', '`', 'é', ' '] {
        assert_eq!(to_ascii_uppercase(c), c.to_ascii_uppercase());
    }
}

#[test]
fn empty_message_is_not_sent() {
    let mut app = three_blocks();
    assert!(matches!(
        key(&mut app, KeyCode::Enter, Modifiers::Alt),
        Outcome::Nothing
    ));
    assert!(!app.is_recieving());
    assert_eq!(app.thread().len(), 3);
    assert_eq!(app.controls().user_message(), "");
}

#[test]
fn sending_and_receiving() {
    let mut app = app_with(vec![Message::new(Role::System, "You are terse", 1)]);
    typed(&mut app, "Hello");
    let requests = match key(&mut app, KeyCode::Enter, Modifiers::Alt) {
        Outcome::Send(r) => r,
        other => panic!("unexpected {other:?}"),
    };
    assert!(app.is_recieving());
    assert_eq!(app.controls().user_message(), "");
    assert!(requests.title.is_none());
    assert!(!requests.summary);
    assert!(requests.reply.stream);
    assert_eq!(requests.reply.model, "gpt-3.5-turbo");
    let sent: Vec<(&str, &str)> = requests
        .reply
        .messages
        .iter()
        .map(|m| (m.role.as_str(), m.content.as_str()))
        .collect();
    assert_eq!(sent, vec![("system", "You are terse"), ("user", "Hello")]);

    // the keyboard is not listened to while the reply comes in
    assert!(matches!(
        app.update(Some(InputEvent::Key(KeyCode::Char('x'), Modifiers::Bare))),
        Outcome::Nothing
    ));
    assert_eq!(app.controls().user_message(), "");

    for token in ["Hi", " ", "there"] {
        app.update_recieving(ReplyItem::Token(token.to_string()));
        assert!(app.is_recieving());
        assert_eq!(app.thread().len(), 2);
    }
    app.update_recieving(ReplyItem::End);
    assert!(!app.is_recieving());
    assert_eq!(app.thread().len(), 3);
    let last = app.thread().last_message().unwrap();
    assert!(last.is_assistant());
    assert_eq!(last.content(), "Hi there");

    typed(&mut app, "More");
    match app.update(Some(InputEvent::Key(KeyCode::Enter, Modifiers::Alt))) {
        Outcome::Send(r) => {
            let title = r.title.unwrap();
            assert_eq!(title.messages[1].content, app.thread().transcript());
            assert_eq!(r.reply.messages.len(), 4);
        }
        other => panic!("unexpected {other:?}"),
    }
    app.title_arrived("Greetings");
    assert_eq!(app.thread().thread_title(), Some("Greetings"));
    app.update_recieving(ReplyItem::Token("partial".to_string()));
    app.update_recieving(ReplyItem::Closed);
    assert!(!app.is_recieving());
    assert_eq!(app.thread().len(), 4);
    assert_eq!(
        app.controls().bottom_text(),
        Some("Channel error: the reply was cut off")
    );
    typed(&mut app, "Again");
    match key(&mut app, KeyCode::Enter, Modifiers::Alt) {
        Outcome::Send(r) => assert!(r.title.is_none()),
        other => panic!("unexpected {other:?}"),
    }
    app.update_recieving(ReplyItem::Token("fresh".to_string()));
    app.update_recieving(ReplyItem::End);
    assert_eq!(app.thread().last_message().unwrap().content(), "fresh");
}

#[test]
fn summary_is_asked_for_over_seven_tenths_of_the_context() {
    // the thread's own model takes 4096 tokens, whatever the persona's does:
    // 2867 of them are no more than seven tenths, 2868 are
    for (tokens, over) in [(2867usize, false), (2868, true)] {
        let mut app = app_with(vec![
            Message::new(Role::System, "", 1),
            Message::new_from_db(Role::User, "a".to_string(), 2, Some(tokens - 1)),
            Message::new_from_db(Role::Assistant, "b".to_string(), 3, Some(0)),
        ]);
        typed(&mut app, "four");
        match key(&mut app, KeyCode::Enter, Modifiers::Alt) {
            Outcome::Send(r) => {
                assert_eq!(r.summary, over, "{tokens}");
                assert_eq!(r.title.is_some(), !over, "{tokens}");
            }
            other => panic!("unexpected {other:?}"),
        }
        app.summary_arrived(Summary::new(1, 1, 3, "short"));
        assert_eq!(app.thread().summaries().len(), 1);
        app.summary_arrived(Summary::new(1, 1, 30, "too far"));
        assert_eq!(app.thread().summaries().len(), 1);
    }
}

#[test]
fn scrolling() {
    let mut c = Controls::new();
    assert_eq!(c.max_scroll(), 0);
    c.scroll_down(1);
    assert_eq!(c.chat_scroll(), 0);
    c.measured(50, 20);
    assert_eq!(c.max_scroll(), 32);
    c.scroll_down(2);
    c.scroll_down(1);
    assert_eq!(c.chat_scroll(), 3);
    c.scroll_up(1);
    assert_eq!(c.chat_scroll(), 2);
    c.scroll_up(5);
    assert_eq!(c.chat_scroll(), 0);
    c.scroll_down(usize::MAX);
    assert_eq!(c.chat_scroll(), 32);
    c.scroll_down(usize::MAX);
    assert_eq!(c.chat_scroll(), 32);
    c.measured(20, 20);
    assert_eq!(c.max_scroll(), 0);
    c.measured(21, 20);
    assert_eq!(c.max_scroll(), 3);
    c.scroll_to_end();
    assert_eq!(c.chat_scroll(), 3);
    c.measured(usize::MAX, 0);
    assert_eq!(c.max_scroll(), usize::MAX);

    let mut app = three_blocks();
    app.ui(92, 4);
    key(&mut app, KeyCode::Down, Modifiers::Bare);
    app.update_awaiting_send(InputEvent::ScrollDown);
    assert_eq!(app.controls().chat_scroll(), 3);
    key(&mut app, KeyCode::Up, Modifiers::Control);
    assert_eq!(app.controls().chat_scroll(), 2);
    app.update_awaiting_send(InputEvent::ScrollUp);
    assert_eq!(app.controls().chat_scroll(), 0);
}

#[test]
fn frame_of_the_screen() {
    let mut app = three_blocks();
    let frame = app.ui(92, 4);
    assert_eq!(frame.lines.len(), 4);
    assert!(matches!(frame.lines[0], DisplayLine::Header(_)));
    assert_eq!(frame.lines[1], DisplayLine::Plain("show me".to_string()));
    assert_eq!(frame.lines[2], DisplayLine::Blank);
    assert_eq!(frame.title, "show me");
    assert_eq!(frame.scroll_label, "100%");
    assert_eq!(frame.status, "[Ready!]");
    assert!(!frame.receiving && !frame.copy_mode);
    assert_eq!(frame.alert, None);
    assert_eq!(frame.input, "");
    // 3 lines of the user's message and 10 of the assistant's: 13 in all
    assert_eq!(app.controls().max_scroll(), 11);
    for (steps, label) in [(1, "09%"), (2, "27%"), (3, "55%"), (5, "100%"), (1, "100%")] {
        for _ in 0..steps {
            key(&mut app, KeyCode::Down, Modifiers::Bare);
        }
        assert_eq!(app.ui(92, 4).scroll_label, label);
    }
    let last = app.ui(92, 4);
    assert_eq!(last.lines.len(), 2);
    assert_eq!(last.lines[1], DisplayLine::Blank);

    key(&mut app, KeyCode::Char('w'), Modifiers::Control);
    key(&mut app, KeyCode::Char('3'), Modifiers::Bare);
    typed(&mut app, "");
    let copying = app.ui(92, 4);
    assert!(copying.copy_mode);
    assert_eq!(copying.alert, Some("3".to_string()));

    let narrow = app.ui(11, 4);
    assert_eq!(narrow.title, "");
    let small = app.ui(12 + 5, 4);
    assert_eq!(small.title, "...");
    app.title_arrived("A long title for a small window");
    assert_eq!(app.ui(12 + 10, 4).title, "A lon...");
}

#[test]
fn editor_text_replaces_the_input() {
    let mut c = Controls::new();
    c.editor_done(Some("  from the editor \n"));
    assert_eq!(c.user_message(), "from the editor");
    c.editor_done(Some(" \n\t"));
    assert_eq!(c.user_message(), "from the editor");
    c.editor_done(None);
    assert_eq!(c.user_message(), "from the editor");
    assert!(!c.should_show_editor());
    assert_eq!(c.take_message(), "from the editor");
    assert_eq!(c.user_message(), "");
    c.set_alert("careful");
    assert_eq!(c.bottom_text(), Some("careful"));
}

#[test]
fn lost_answers_are_told() {
    let mut app = three_blocks();
    app.answer_lost(true);
    assert_eq!(
        app.controls().bottom_text(),
        Some("Channel error: the answer was lost")
    );
    app.alert("other");
    app.answer_lost(false);
    assert_eq!(
        app.controls().bottom_text(),
        Some("Channel error: the answer was lost")
    );
    app.scroll_to_end();
    assert!(app.save().is_ok());
    assert_eq!(app.session().store().threads.len(), 1);
}

#[test]
fn screen_needs_its_thread() {
    assert_eq!(test_tui(), Ok(()));
    let session = Session::new(Store::new());
    assert!(matches!(
        App::new(session, 1),
        Err(Error::Other(text)) if text == "Could not load active thread"
    ));
}

#[test]
fn reply_of_the_channel_becomes_a_message() {
    let mut app = app_with(vec![Message::new(Role::System, "You are terse", 1)]);
    typed(&mut app, "Hello");
    assert!(matches!(
        key(&mut app, KeyCode::Enter, Modifiers::Alt),
        Outcome::Send(_)
    ));
    let record = |content: &str| {
        format!(
            "data: {{\"id\":\"c\",\"created\":1,\"choices\":[{{\"delta\":{{\"content\":\"{content}\"}}}}]}}\n"
        )
    };
    let pieces = vec![
        record("Hi"),
        record(" "),
        record("there"),
        "data: [DONE]\n".to_string(),
    ];
    let mut seen: Vec<Option<String>> = Vec::new();
    for item in reply_items(&pieces).unwrap() {
        seen.push(item.clone());
        assert!(app.is_recieving());
        app.update_recieving(match item {
            Some(token) => ReplyItem::Token(token),
            None => ReplyItem::End,
        });
    }
    assert_eq!(
        seen,
        vec![
            Some("Hi".to_string()),
            Some(" ".to_string()),
            Some("there".to_string()),
            None
        ]
    );
    assert!(!app.is_recieving());
    let last = app.thread().last_message().unwrap();
    assert!(last.is_assistant());
    assert_eq!(last.content(), "Hi there");
    assert_eq!(app.thread().len(), 3);
}

#[test]
fn highlighting_colours_the_thread_that_is_shown() {
    let mut app = three_blocks();
    assert!(!app.thread().messages().iter().all(|m| m.is_styled()));
    let plain = app.ui(92, 100);
    app.highlight(&Highlighter::new());
    assert!(app.thread().messages().iter().all(|m| m.is_styled()));
    assert!(app.thread().code_blocks().iter().all(|b| b.is_styled()));
    let coloured = app.ui(92, 100);
    assert_eq!(coloured.lines.len(), plain.lines.len());
    let styles = |frame: &gptui::tui::Frame| {
        frame
            .lines
            .iter()
            .filter_map(|l| match l {
                DisplayLine::Code(spans) => Some(spans.len()),
                _ => None,
            })
            .collect::<Vec<usize>>()
    };
    assert_eq!(styles(&plain), vec![1, 1, 1]);
    assert!(styles(&coloured).iter().all(|n| *n > 1));
    app.update_recieving(ReplyItem::Token("```rs\nlet a = 1;\n```".to_string()));
    app.highlight(&Highlighter::new());
    app.update_recieving(ReplyItem::End);
    assert!(app.thread().messages().iter().all(|m| m.is_styled()));
}

#[test]
fn copy_mode_counts_the_blocks_that_are_shown() {
    // the block of the system's message is not on the screen and has no
    // number: 1 is the first block of the assistant's message
    let mut app = app_with(vec![
        Message::new(Role::System, "```sh\nhidden\n```", 1),
        Message::new(Role::User, "show me", 2),
        Message::new(Role::Assistant, "```py\nfirst\n```\nand\n```js\nsecond\n```", 3),
    ]);
    let shown = app.thread().tui_formatted_messages(20);
    assert_eq!(shown.len(), 2);
    let numbers: Vec<usize> = shown
        .iter()
        .flatten()
        .filter_map(|l| match l {
            DisplayLine::Annotation(n) => Some(*n),
            _ => None,
        })
        .collect();
    assert_eq!(numbers, vec![1, 2]);
    let texts: Vec<&str> = app
        .thread()
        .shown_code_blocks()
        .iter()
        .map(|b| b.content.as_str())
        .collect();
    assert_eq!(texts, vec!["first", "second"]);
    assert_eq!(app.thread().code_blocks().len(), 3);

    key(&mut app, KeyCode::Char('w'), Modifiers::Control);
    key(&mut app, KeyCode::Char('1'), Modifiers::Bare);
    match key(&mut app, KeyCode::Enter, Modifiers::Bare) {
        Outcome::Copy(text) => assert_eq!(text, "first"),
        other => panic!("unexpected {other:?}"),
    }
    key(&mut app, KeyCode::Char('w'), Modifiers::Control);
    key(&mut app, KeyCode::Char('3'), Modifiers::Bare);
    assert_eq!(app.controls().bottom_text(), Some("No selection for '3'!"));
    assert!(!app.controls().copy_mode());
}

#[test]
fn a_block_without_its_line_is_not_counted() {
    // the first message has two fences on one line of text each, but the
    // second stands inside a line: its line is not one that stands for a
    // block, so the block is not shown and the next message's block is 2
    let first = Message::new(Role::User, "```a\none\n```\ntext ```b\ntwo\n``` more", 2);
    assert_eq!(first.code_blocks().len(), 2);
    assert_eq!(first.marker_lines(), 1);
    assert_eq!(first.shown_count(), 1);
    assert!(!first.shows_all_blocks());
    let mut app = app_with(vec![
        Message::new(Role::System, "", 1),
        first,
        Message::new(Role::Assistant, "```c\nthree\n```", 3),
    ]);
    let texts: Vec<&str> = app
        .thread()
        .shown_code_blocks()
        .iter()
        .map(|b| b.content.as_str())
        .collect();
    assert_eq!(texts, vec!["one", "three"]);
    key(&mut app, KeyCode::Char('w'), Modifiers::Control);
    key(&mut app, KeyCode::Char('2'), Modifiers::Bare);
    match key(&mut app, KeyCode::Enter, Modifiers::Bare) {
        Outcome::Copy(text) => assert_eq!(text, "three"),
        other => panic!("unexpected {other:?}"),
    }
}
