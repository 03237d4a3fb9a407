use gptui::db::DbStore;
use gptui::db::Store;
use gptui::error::Error;
use gptui::llm::LlmModel;
use gptui::llm::PromptSetting;
use gptui::message::Message;
use gptui::message::Role;
use gptui::session::Session;
use gptui::session::Thread;

fn thread_begun_at(id: u128, at: i64) -> Thread {
    Thread::new(
        vec![
            Message::new(Role::System, "prompt", 0),
            Message::new(Role::User, "first", at),
        ],
        LlmModel::GPT4,
        id,
    )
}

#[test]
fn ordered_listing() {
    let mut session = Session::new(Store::new());
    session.put_thread(thread_begun_at(3, 3000));
    session.put_thread(thread_begun_at(1, 1000));
    session.put_thread(thread_begun_at(2, 2000));
    session.put_thread(Thread::new(
        vec![Message::new(Role::System, "nothing said", 500)],
        LlmModel::GPT4,
        4,
    ));
    let ids: Vec<u128> = session.ordered_threads().iter().map(|(id, _)| *id).collect();
    assert_eq!(ids, vec![1, 2, 3]);
    for (id, thread) in session.ordered_threads() {
        assert_eq!(thread.id(), id);
    }
    assert_eq!(session.nonempty_count(), 4);
    session.put_thread(Thread::new(vec![], LlmModel::GPT4, 5));
    assert_eq!(session.nonempty_count(), 4);
    let mut all = session.thread_ids();
    all.sort();
    assert_eq!(all, vec![1, 2, 3, 4, 5]);
}

#[test]
fn new_thread_begins_with_the_persona() {
    let mut session = Session::new(Store::new());
    let persona = PromptSetting {
        label: "Poet".to_string(),
        prompt: "Answer in rhyme".to_string(),
        model: LlmModel::GPT35Turbo,
        color: Some("cyan".to_string()),
    };
    let id = session.new_thread(&persona).unwrap();
    let other = session.new_thread(&persona).unwrap();
    assert_ne!(id, other);
    let t = session.thread_by_id(id).unwrap();
    assert_eq!(t.id(), id);
    assert_eq!(t.model(), LlmModel::GPT35Turbo);
    assert_eq!(t.prompt(), &persona);
    assert_eq!(t.len(), 1);
    assert!(t.messages()[0].is_system());
    assert_eq!(t.messages()[0].content(), "Answer in rhyme");
    assert!(t.messages()[0].timestamp_millis() > 1_600_000_000_000);
    assert_eq!(t.thread_title(), None);
    assert!(session.ordered_threads().is_empty());
    assert!(session.thread_by_id(id ^ 1).is_none() || id ^ 1 == other);
}

#[test]
fn identifier_in_use_is_refused() {
    let mut session = Session::new(Store::new());
    assert_eq!(session.new_thread_as(&PromptSetting::default(), 255, 10), Ok(255));
    session.take_thread(255).map(|mut t| {
        t.set_title("kept");
        session.put_thread(t);
    });
    assert_eq!(
        session.new_thread_as(&PromptSetting::default(), 255, 20),
        Err(Error::Other(
            "Thread ID was already present: 000000000000000000000000000000ff".to_string()
        ))
    );
    assert_eq!(session.thread_by_id(255).unwrap().thread_title(), Some("kept"));
    assert_eq!(
        session.thread_by_id(255).unwrap().messages()[0].timestamp_millis(),
        10
    );
}

#[test]
fn threads_are_saved_loaded_and_deleted() {
    let mut session = Session::new(Store::new());
    session.put_thread(thread_begun_at(1, 1000));
    session.put_thread(thread_begun_at(2, 2000));
    session.save_to_db().unwrap();
    session.save_to_db().unwrap();
    assert_eq!(session.store().threads.len(), 2);
    assert_eq!(session.store().messages.len(), 4);

    let mut again = Session::new(session.store().clone());
    assert!(again.thread_by_id(1).is_none());
    again.load_threads().unwrap();
    assert_eq!(again.thread_by_id(1).unwrap().len(), 2);
    assert_eq!(again.thread_by_id(2).unwrap().init_time(), Some(2000));

    assert_eq!(again.delete_thread(1), Ok(true));
    assert_eq!(again.delete_thread(1), Ok(false));
    assert!(again.thread_by_id(1).is_none());
    assert!(again.store().messages.iter().all(|r| r.thread_id == 2));
    assert_eq!(again.store().threads.len(), 1);

    let taken = again.take_thread(2).unwrap();
    assert_eq!(taken.id(), 2);
    assert!(again.take_thread(2).is_none());
    assert_eq!(again.delete_thread(2), Ok(false));
    assert_eq!(again.store().threads.len(), 1);
}

#[test]
fn threads_that_cannot_be_read_change_nothing() {
    let mut store = Store::new();
    thread_begun_at(1, 1000).to_db(&mut store).unwrap();
    store.threads[0].content = "no model".to_string();
    let mut session = Session::new(store);
    session.put_thread(thread_begun_at(7, 7000));
    assert!(matches!(
        session.load_threads(),
        Err(Error::DbRetrievalError(_))
    ));
    assert!(session.thread_by_id(7).is_some());
}

#[test]
fn threads_that_began_together_stand_by_their_identifiers() {
    let mut session = Session::new(Store::new());
    for id in [9u128, 3, 7, 1, 5] {
        session.put_thread(thread_begun_at(id, 1000));
    }
    session.put_thread(thread_begun_at(8, 999));
    let ids: Vec<u128> = session.ordered_threads().iter().map(|(id, _)| *id).collect();
    assert_eq!(ids, vec![8, 1, 3, 5, 7, 9]);
    assert_eq!(session.sorted_ids(), vec![1, 3, 5, 7, 8, 9]);
    session.save_to_db().unwrap();
    let saved: Vec<u128> = session.store().threads.iter().map(|r| r.id).collect();
    assert_eq!(saved, vec![1, 3, 5, 7, 8, 9]);
}

#[test]
fn new_thread_takes_the_first_free_identifier() {
    let mut session = Session::new(Store::new());
    assert_eq!(session.free_id(5), 5);
    for id in [5u128, 6, 7, 9, u128::MAX, 0] {
        session.put_thread(thread_begun_at(id, 1));
    }
    assert_eq!(session.free_id(4), 4);
    assert_eq!(session.free_id(5), 8);
    assert_eq!(session.free_id(7), 8);
    assert_eq!(session.free_id(8), 8);
    assert_eq!(session.free_id(9), 10);
    assert_eq!(session.free_id(u128::MAX), 1);
    assert_eq!(session.free_id(u128::MAX - 1), u128::MAX - 1);
    assert_eq!(session.free_id(0), 1);
    for _ in 0..50 {
        let before = session.thread_ids().len();
        let id = session.new_thread(&PromptSetting::default()).unwrap();
        assert_eq!(session.thread_ids().len(), before + 1);
        assert_eq!(session.thread_by_id(id).unwrap().len(), 1);
    }
}
