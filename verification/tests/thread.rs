use gptui::client::stream_thread_reply;
use gptui::error::Error;
use gptui::llm::LlmModel;
use gptui::llm::PromptSetting;
use gptui::message::Message;
use gptui::message::Role;
use gptui::render::DisplayLine;
use gptui::session::Summary;
use gptui::session::Thread;
use gptui::thread::FIRST_INSTANT;
use gptui::thread::LAST_INSTANT;

fn thread_of(texts: &[(Role, &str, i64)]) -> Thread {
    Thread::new(
        texts
            .iter()
            .map(|(r, t, ts)| Message::new(*r, t, *ts))
            .collect(),
        LlmModel::GPT35Turbo,
        7,
    )
}

fn contents(msgs: &[Message]) -> Vec<String> {
    msgs.iter().map(|m| m.content().to_string()).collect()
}

#[test]
fn timestamps_never_decrease() {
    let mut t = thread_of(&[
        (Role::System, "p", 100),
        (Role::User, "a", 50),
        (Role::Assistant, "b", 200),
        (Role::User, "c", 150),
    ]);
    t.add_message(Message::new(Role::Assistant, "d", 10));
    t.update("e");
    t.commit_message().unwrap();
    let times: Vec<i64> = t.messages().iter().map(|m| m.timestamp_millis()).collect();
    assert_eq!(times.len(), 6);
    assert_eq!(&times[..5], &[100, 100, 200, 200, 200]);
    for pair in times.windows(2) {
        assert!(pair[0] <= pair[1]);
    }
}

#[test]
fn ordered_messages_are_kept_as_they_are() {
    let t = thread_of(&[(Role::System, "p", 1), (Role::User, "a", 1), (Role::User, "b", 9)]);
    let times: Vec<i64> = t.messages().iter().map(|m| m.timestamp_millis()).collect();
    assert_eq!(times, vec![1, 1, 9]);
    assert_eq!(t.len(), 3);
    assert_eq!(t.id(), 7);
    assert_eq!(t.model(), LlmModel::GPT35Turbo);
    assert_eq!(t.prompt(), &PromptSetting::default());
    assert_eq!(t.thread_title(), None);
}

#[test]
fn incoming_reply_is_kept_apart_until_it_ends() {
    let mut t = thread_of(&[(Role::System, "p", 1), (Role::User, "hello", 2)]);
    t.update("Hi");
    t.update(" ");
    t.update("there");
    assert_eq!(t.len(), 2);
    assert_eq!(t.commit_message(), Ok(()));
    assert_eq!(t.len(), 3);
    let last = t.last_message().unwrap();
    assert!(last.is_assistant());
    assert_eq!(last.content(), "Hi there");
    assert_eq!(t.commit_message(), Ok(()));
    assert_eq!(t.len(), 3);

    t.set_incoming_message("draft");
    t.clear_incoming_message();
    t.commit_message().unwrap();
    assert_eq!(t.len(), 3);

    t.update("old");
    t.set_incoming_message("new");
    t.commit_message().unwrap();
    assert_eq!(t.last_message().unwrap().content(), "new");
}

#[test]
fn first_and_last_message() {
    let empty = thread_of(&[]);
    assert!(empty.first_message().is_none());
    assert!(empty.last_message().is_none());
    assert_eq!(empty.init_time(), None);
    let only_system = thread_of(&[(Role::System, "p", 1)]);
    assert!(only_system.first_message().is_none());
    assert_eq!(only_system.last_message().unwrap().content(), "p");
    assert_eq!(only_system.init_time(), None);
    let t = thread_of(&[
        (Role::System, "p", 1),
        (Role::System, "q", 2),
        (Role::User, "a", 3),
        (Role::Assistant, "b", 4),
    ]);
    assert_eq!(t.first_message().unwrap().content(), "a");
    assert_eq!(t.last_message().unwrap().content(), "b");
    assert_eq!(t.init_time(), Some(3));
    assert_eq!(t.non_sys_messages().len(), 2);
    assert_eq!(t.messages().len(), 4);
}

#[test]
fn tokens_are_counted() {
    let mut t = Thread::new(
        vec![
            Message::new(Role::System, "12345678", 1),
            Message::new_from_db(Role::User, "ignored because counted".to_string(), 2, Some(100)),
            Message::new(Role::Assistant, "123", 3),
            Message::new(Role::User, "éééé", 4),
        ],
        LlmModel::GPT4,
        1,
    );
    assert_eq!(t.total_tokens(), 2 + 100 + 0 + 2);
    assert_eq!(t.token_use(), (104, 8192));
    t.add_message(Message::new_from_db(
        Role::User,
        String::new(),
        5,
        Some(usize::MAX),
    ));
    assert_eq!(t.total_tokens(), usize::MAX);
    // the persona's model does not count: the thread's own does
    t.set_prompt(PromptSetting {
        model: LlmModel::GPT35Turbo,
        ..PromptSetting::default()
    });
    assert_eq!(t.token_use().1, 8192);
    let small = Thread::new(vec![Message::new(Role::System, "", 1)], LlmModel::GPT35Turbo, 2);
    assert_eq!(small.prompt().model, LlmModel::GPT4);
    assert_eq!(small.token_use(), (0, 4096));
}

#[test]
fn summary_as_a_message() {
    let m = Summary::new(7, 1, 3, "abc").as_message(42);
    assert_eq!(m.content(), "**Summary of elided messages:** abc");
    assert_eq!(m.role(), Role::System);
    assert_eq!(m.timestamp_millis(), 42);
}

#[test]
fn titles_and_previews() {
    let mut t = thread_of(&[(Role::System, "p", 1)]);
    assert_eq!(t.display_title(), "...");
    assert_eq!(t.list_preview_at("now"), None);
    assert_eq!(t.list_preview(), None);
    let long = "x".repeat(300);
    t.add_message(Message::new(Role::User, &long, 1_700_000_000_000));
    assert_eq!(t.display_title(), format!("{}...", "x".repeat(97)));
    assert_eq!(
        t.list_preview_at("2023-11-14 22:13"),
        Some(format!("2023-11-14 22:13 {}...", "x".repeat(197)))
    );
    let listed = t.list_preview().unwrap();
    assert!(listed.ends_with(&format!(" {}...", "x".repeat(197))));
    assert_eq!(listed.len(), "2023-11-14 22:13".len() + 1 + 200);
    assert_eq!(&listed[4..5], "-");
    t.set_title("A title");
    assert_eq!(t.thread_title(), Some("A title"));
    assert_eq!(t.display_title(), "A title");
    assert_eq!(t.list_preview_at("t"), Some("t A title".to_string()));
}

#[test]
fn identifier_in_simple_form() {
    let t = Thread::new(vec![], LlmModel::GPT4, 0x0123456789abcdef_0011223344556677);
    assert_eq!(t.str_id(), "0123456789abcdef0011223344556677");
    let small = Thread::new(vec![], LlmModel::GPT4, 10);
    assert_eq!(small.str_id(), "0000000000000000000000000000000a");
}

#[test]
fn headers_of_the_roles() {
    let mut t = thread_of(&[]);
    let user = t.message_display_header(Role::User);
    assert_eq!((user.text.as_str(), user.color.as_str()), ("User", "green"));
    assert!(user.underlined && !user.bold);
    let system = t.message_display_header(Role::System);
    assert_eq!((system.text.as_str(), system.color.as_str()), ("System", "magenta"));
    assert!(system.underlined && system.bold);
    let asst = t.message_display_header(Role::Assistant);
    assert_eq!((asst.text.as_str(), asst.color.as_str()), ("Assistant", "blue"));
    t.set_prompt(PromptSetting {
        label: "Poet".to_string(),
        prompt: "Rhyme".to_string(),
        model: LlmModel::GPT4,
        color: Some("lightred".to_string()),
    });
    let poet = t.message_display_header(Role::Assistant);
    assert_eq!((poet.text.as_str(), poet.color.as_str()), ("Poet", "lightred"));
}

#[test]
fn code_blocks_of_all_messages() {
    let t = thread_of(&[
        (Role::System, "```a\n1\n```", 1),
        (Role::User, "none", 2),
        (Role::Assistant, "```b\n2\n```\n```c\n3\n```", 3),
    ]);
    let langs: Vec<Option<&str>> = t
        .code_blocks()
        .iter()
        .map(|b| b.language.as_deref())
        .collect();
    assert_eq!(langs, vec![Some("a"), Some("b"), Some("c")]);
}

#[test]
fn summaries_take_the_place_of_messages() {
    let mut t = thread_of(&[
        (Role::System, "p", 10),
        (Role::User, "a", 20),
        (Role::Assistant, "b", 30),
        (Role::User, "c", 40),
        (Role::Assistant, "d", 50),
        (Role::User, "e", 60),
    ]);
    assert_eq!(contents(&t.minified_messages()), vec!["p", "a", "b", "c", "d", "e"]);
    t.add_summary(Summary::new(7, 1, 3, "short"));
    t.add_summary(Summary::new(7, 1, 4, "longer"));
    t.add_summary(Summary::new(7, 2, 6, "overlaps"));
    t.add_summary(Summary::new(7, 4, 5, "single"));
    t.add_summary(Summary::new(7, 5, 9, "beyond the end"));
    t.add_summary(Summary::new(7, 3, 3, "empty"));
    assert_eq!(t.summaries().len(), 4);
    let sent = t.minified_messages();
    assert_eq!(
        contents(&sent),
        vec![
            "p",
            "**Summary of elided messages:** longer",
            "**Summary of elided messages:** single",
            "e"
        ]
    );
    assert!(sent[1].is_system());
    assert_eq!(sent[1].timestamp_millis(), 40);
    assert_eq!(sent[2].timestamp_millis(), 50);
    // no kept message lies within a run that a summary stands for
    let kept: Vec<usize> = vec![0, 5];
    for (start, end) in [(1usize, 4usize), (4, 5)] {
        assert!(kept.iter().all(|i| !(start <= *i && *i < end)));
    }
}

#[test]
fn last_of_equal_summaries_is_chosen() {
    let mut t = thread_of(&[(Role::System, "p", 1), (Role::User, "a", 2), (Role::User, "b", 3)]);
    t.add_summary(Summary::new(7, 0, 2, "first"));
    t.add_summary(Summary::new(7, 0, 2, "second"));
    assert_eq!(
        contents(&t.minified_messages()),
        vec!["**Summary of elided messages:** second", "b"]
    );
    let s = Summary::new(3, 0, 1, "x");
    assert_eq!((s.thread_id(), s.start(), s.end(), s.text()), (3, 0, 1, "x"));
    let m = s.as_message(77);
    assert!(m.is_system());
    assert_eq!(m.timestamp_millis(), 77);
}

#[test]
fn wire_body_of_a_thread() {
    let mut t = thread_of(&[
        (Role::System, "p", 1),
        (Role::User, "a", 2),
        (Role::Assistant, "b", 3),
    ]);
    t.add_summary(Summary::new(7, 1, 3, "s"));
    let body = t.as_json_body();
    assert_eq!(body.model, "gpt-3.5-turbo");
    assert!(body.stream);
    let pairs: Vec<(&str, &str)> = body
        .messages
        .iter()
        .map(|m| (m.role.as_str(), m.content.as_str()))
        .collect();
    assert_eq!(
        pairs,
        vec![
            ("system", "p"),
            ("system", "**Summary of elided messages:** s")
        ]
    );
}

#[test]
fn reply_is_asked_for_after_the_user_only() {
    let asked = "The most recent messege in the thread must be from a user";
    let empty = thread_of(&[]);
    assert_eq!(
        stream_thread_reply(&empty),
        Err(Error::Other(asked.to_string()))
    );
    let after_assistant = thread_of(&[(Role::User, "a", 1), (Role::Assistant, "b", 2)]);
    assert_eq!(
        stream_thread_reply(&after_assistant),
        Err(Error::Other(asked.to_string()))
    );
    let mut ready = thread_of(&[(Role::System, "p", 1), (Role::User, "a", 2)]);
    ready.update("partial reply does not count");
    let body = stream_thread_reply(&ready).unwrap();
    assert_eq!(body.messages.len(), 2);
    assert_eq!(body, ready.as_json_body());
}

#[test]
fn title_is_asked_for_with_the_transcript() {
    let t = thread_of(&[
        (Role::System, "p", 1),
        (Role::User, "question", 2),
        (Role::Assistant, "answer", 3),
    ]);
    assert_eq!(t.transcript(), "User:\nquestion\n\nAssistant:\nanswer\n");
    let body = t.title_request();
    assert_eq!(body.model, "gpt-3.5-turbo");
    assert!(!body.stream);
    assert_eq!(body.messages.len(), 2);
    assert_eq!(body.messages[0].role, "system");
    assert!(body.messages[0]
        .content
        .contains("Each title should be no more than 100 characters in length."));
    assert!(body.messages[0].content.starts_with("\n        Your task"));
    assert_eq!(body.messages[1].role, "user");
    assert_eq!(body.messages[1].content, t.transcript());
    assert_eq!(thread_of(&[(Role::System, "p", 1)]).transcript(), "");
}

#[test]
fn thread_is_shown_with_one_counter_for_all_blocks() {
    let mut t = thread_of(&[
        (Role::System, "```sys\nhidden\n```", 1),
        (Role::User, "look\n```a\n1\n```", 2),
        (Role::Assistant, "```b\n2\n```\nand\n```c\n3\n```", 3),
    ]);
    t.update("```d\n4\n```");
    let blocks = t.tui_formatted_messages(4);
    assert_eq!(blocks.len(), 3);
    let numbers: Vec<usize> = blocks
        .iter()
        .flatten()
        .filter_map(|l| match l {
            DisplayLine::Annotation(n) => Some(*n),
            _ => None,
        })
        .collect();
    assert_eq!(numbers, vec![1, 2, 3, 4]);
    for block in &blocks {
        assert!(matches!(block.first(), Some(DisplayLine::Header(_))));
        assert_eq!(block.last(), Some(&DisplayLine::Blank));
    }
    match &blocks[0][0] {
        DisplayLine::Header(h) => assert_eq!(h.text, "User"),
        other => panic!("unexpected {other:?}"),
    }
    assert_eq!(blocks[0][1], DisplayLine::Plain("look".to_string()));
    assert_eq!(blocks[0].len(), 5);
}

#[test]
fn threads_are_listed_as_far_as_the_calendar_goes() {
    assert_eq!(FIRST_INSTANT, -8_334_601_228_800_000);
    assert_eq!(LAST_INSTANT, 8_210_266_876_799_999);
    for (began, listed) in [
        (0, true),
        (1_700_000_000_000, true),
        (-1, true),
        (LAST_INSTANT, true),
        (LAST_INSTANT - 86_400_000, true),
        (LAST_INSTANT + 1, false),
        (FIRST_INSTANT, true),
        (FIRST_INSTANT + 86_400_000, true),
        (FIRST_INSTANT - 1, false),
        (i64::MAX, false),
        (i64::MIN, false),
    ] {
        let t = thread_of(&[(Role::User, "said", began)]);
        let line = t.list_preview();
        assert_eq!(line.is_some(), listed, "{began}");
        if let Some(line) = line {
            assert!(line.ends_with(" said"), "{line}");
        }
    }
    // a thread in which nothing was said is not listed, whenever it began
    assert_eq!(thread_of(&[(Role::System, "p", 0)]).list_preview(), None);
}
