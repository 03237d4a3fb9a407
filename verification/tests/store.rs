use gptui::db::DbStore;
use gptui::db::MessageRow;
use gptui::db::Store;
use gptui::db::TextRow;
use gptui::error::Error;
use gptui::llm::LlmModel;
use gptui::message::Message;
use gptui::message::Role;
use gptui::session::Summary;
use gptui::session::Thread;

fn two_messages(id: u128) -> Thread {
    Thread::new(
        vec![
            Message::new(Role::System, "prompt", 1000),
            Message::new_from_db(Role::User, "hello".to_string(), 2000, Some(3)),
        ],
        LlmModel::GPT35Turbo,
        id,
    )
}

fn same_messages(a: &Thread, b: &Thread) -> bool {
    let (x, y) = (a.messages(), b.messages());
    x.len() == y.len()
        && x.iter().zip(y.iter()).all(|(m, n)| {
            m.role() == n.role()
                && m.content() == n.content()
                && m.timestamp_millis() == n.timestamp_millis()
                && m.token_count() == n.token_count()
        })
}

#[test]
fn idempotent_save() {
    let t = two_messages(1);
    let mut store = Store::new();
    t.to_db(&mut store).unwrap();
    let rows_after_one = store.messages.clone();
    let (threads, titles, summaries) = (
        store.threads.clone(),
        store.titles.clone(),
        store.summaries.len(),
    );
    t.to_db(&mut store).unwrap();
    assert_eq!(store.messages, rows_after_one);
    assert_eq!(store.messages.len(), 2);
    assert_eq!(store.threads, threads);
    assert_eq!(store.titles, titles);
    assert_eq!(store.summaries.len(), summaries);
    let loaded = Thread::from_db(&store, 1).unwrap();
    let texts: Vec<&str> = loaded.messages().iter().map(|m| m.content()).collect();
    assert_eq!(texts, vec!["prompt", "hello"]);
}

#[test]
fn load_after_save_gives_the_thread_back() {
    let mut t = two_messages(9);
    t.add_message(Message::new(Role::Assistant, "```py\nx\n```", 2000));
    t.set_title("Greeting");
    t.add_summary(Summary::new(9, 1, 2, "s1"));
    t.add_summary(Summary::new(9, 1, 3, "s2"));
    let mut store = Store::new();
    two_messages(4).to_db(&mut store).unwrap();
    t.to_db(&mut store).unwrap();
    let loaded = Thread::from_db(&store, 9).unwrap();
    assert!(same_messages(&loaded, &t));
    assert_eq!(loaded.model(), t.model());
    assert_eq!(loaded.thread_title(), Some("Greeting"));
    assert_eq!(loaded.id(), 9);
    let runs: Vec<(usize, usize, &str)> = loaded
        .summaries()
        .iter()
        .map(|s| (s.start(), s.end(), s.text()))
        .collect();
    assert_eq!(runs, vec![(1, 2, "s1"), (1, 3, "s2")]);
    assert_eq!(loaded.code_blocks().len(), 1);
}

#[test]
fn only_newer_messages_are_written() {
    let mut t = two_messages(1);
    let mut store = Store::new();
    t.to_db(&mut store).unwrap();
    t.add_message(Message::new(Role::Assistant, "same time as the newest", 2000));
    t.add_message(Message::new(Role::User, "newer", 2001));
    t.set_title("late title");
    t.to_db(&mut store).unwrap();
    let texts: Vec<&str> = store.messages.iter().map(|r| r.content.as_str()).collect();
    assert_eq!(texts, vec!["prompt", "hello", "newer"]);
    assert_eq!(store.newest_timestamp(1), Some(2001));
    assert_eq!(store.newest_timestamp(2), None);
    assert_eq!(
        store.titles,
        vec![TextRow {
            id: 1,
            content: "late title".to_string()
        }]
    );
    t.set_title("other title");
    t.to_db(&mut store).unwrap();
    // a later title takes the place of the earlier one, in the same row
    assert_eq!(store.titles.len(), 1);
    assert_eq!(store.titles[0].content, "other title");
    assert_eq!(Thread::from_db(&store, 1).unwrap().thread_title(), Some("other title"));
    assert_eq!(
        store.threads,
        vec![TextRow {
            id: 1,
            content: "gpt-3.5-turbo".to_string()
        }]
    );
    assert_eq!(
        store.messages[1],
        MessageRow {
            thread_id: 1,
            role: 2,
            content: "hello".to_string(),
            timestamp: 2000,
            tokens: Some(3)
        }
    );
}

#[test]
fn messages_are_read_in_the_order_of_their_times() {
    let mut store = Store::new();
    store.threads.push(TextRow {
        id: 5,
        content: "gpt-4".to_string(),
    });
    for (content, timestamp, thread_id) in
        [("c", 30, 5), ("a", 10, 5), ("x", 5, 6), ("b1", 20, 5), ("b2", 20, 5)]
    {
        store.messages.push(MessageRow {
            thread_id,
            role: 2,
            content: content.to_string(),
            timestamp,
            tokens: None,
        });
    }
    let t = Thread::from_db(&store, 5).unwrap();
    let texts: Vec<&str> = t.messages().iter().map(|m| m.content()).collect();
    assert_eq!(texts, vec!["a", "b1", "b2", "c"]);
    assert_eq!(t.model(), LlmModel::GPT4);
    let rows: Vec<i64> = store.rows_by_time(5).iter().map(|r| r.timestamp).collect();
    assert_eq!(rows, vec![10, 20, 20, 30]);
}

#[test]
fn what_cannot_be_read_is_refused() {
    let mut store = Store::new();
    assert!(matches!(
        Thread::from_db(&store, 1),
        Err(Error::DbRetrievalError(_))
    ));
    store.threads.push(TextRow {
        id: 1,
        content: "gpt-5".to_string(),
    });
    assert_eq!(
        Thread::from_db(&store, 1).unwrap_err(),
        Error::DbRetrievalError("gpt-5 is not a valid model".to_string())
    );
    store.threads[0].content = "gpt-4".to_string();
    assert!(Thread::from_db(&store, 1).is_ok());
    for bad_role in [0, 4, -1, i64::MAX] {
        store.messages.clear();
        store.messages.push(MessageRow {
            thread_id: 1,
            role: bad_role,
            content: String::new(),
            timestamp: 0,
            tokens: None,
        });
        assert!(matches!(
            Thread::from_db(&store, 1),
            Err(Error::DbRetrievalError(_))
        ));
        assert!(matches!(
            Thread::get_all(&store),
            Err(Error::DbRetrievalError(_))
        ));
    }
}

#[test]
fn all_threads_are_read() {
    let mut store = Store::new();
    two_messages(3).to_db(&mut store).unwrap();
    two_messages(1).to_db(&mut store).unwrap();
    let all = Thread::get_all(&store).unwrap();
    let ids: Vec<u128> = all.iter().map(|t| t.id()).collect();
    assert_eq!(ids, vec![3, 1]);
    assert!(all.iter().all(|t| t.len() == 2));
    assert_eq!(Thread::get_all(&Store::new()).unwrap().len(), 0);
}

#[test]
fn delete_leaves_no_row_of_the_thread() {
    let mut gone = two_messages(1);
    gone.set_title("t");
    gone.add_summary(Summary::new(1, 0, 1, "s"));
    let stays = two_messages(2);
    let mut store = Store::new();
    gone.to_db(&mut store).unwrap();
    stays.to_db(&mut store).unwrap();
    assert_eq!(gone.drop_from_db(&mut store), Ok(true));
    assert!(store.threads.iter().all(|r| r.id == 2));
    assert!(store.messages.iter().all(|r| r.thread_id == 2));
    assert!(store.titles.is_empty());
    assert!(store.summaries.is_empty());
    assert_eq!(store.messages.len(), 2);
    assert_eq!(gone.drop_from_db(&mut store), Ok(false));
    assert!(Thread::from_db(&store, 2).is_ok());
}

#[test]
fn a_thread_that_grew_is_read_back_whole() {
    let mut t = two_messages(5);
    let mut store = Store::new();
    two_messages(6).to_db(&mut store).unwrap();
    t.to_db(&mut store).unwrap();
    t.to_db(&mut store).unwrap();
    t.add_message(Message::new(Role::Assistant, "hi", 2001));
    t.add_message(Message::new(Role::User, "more", 2001));
    t.set_title("grown");
    t.add_summary(Summary::new(5, 1, 3, "s"));
    t.to_db(&mut store).unwrap();
    t.to_db(&mut store).unwrap();
    let back = Thread::from_db(&store, 5).unwrap();
    assert!(same_messages(&back, &t));
    assert_eq!(back.messages().len(), 4);
    assert_eq!(back.thread_title(), Some("grown"));
    assert_eq!(back.summaries().len(), 1);
    assert_eq!(back.model(), t.model());
    assert_eq!(store.messages.len(), 6);
    assert!(same_messages(&Thread::from_db(&store, 6).unwrap(), &two_messages(6)));
}
