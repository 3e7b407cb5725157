use conversation_store::database::{Database, StoreError};
use conversation_store::message::{Content, ContentKind, CreateMessage, Message, UpdateMessage};

fn text(s: &str) -> Content {
    Content::from_text(s.to_string())
}

fn text_of(m: &Message) -> String {
    match &m.content {
        Content::Single(ContentKind::Text { text }) => text.clone(),
        _ => panic!("not a single text item"),
    }
}

fn store_with_thread(id: u128) -> Database {
    let mut db = Database::new();
    db.create_thread_with_id(id).unwrap();
    db
}

#[test]
fn create_and_get_thread() {
    let mut db = Database::new();
    let t = db.create_thread();
    assert!(t.summary.is_none());
    assert!(t.summary_embedding.is_none());
    let got = db.get_thread(t.id()).unwrap();
    assert_eq!(got.id, t.id);
    assert_eq!(db.list_threads().len(), 1);
}

#[test]
fn fresh_thread_ids_differ() {
    let mut db = Database::new();
    let a = db.create_thread();
    let b = db.create_thread();
    assert_ne!(a.id, b.id);
    let ids: Vec<u128> = db.list_threads().iter().map(|t| t.id).collect();
    assert_eq!(ids, vec![a.id, b.id]);
}

#[test]
fn taken_thread_id_is_internal_error() {
    let mut db = store_with_thread(7);
    assert_eq!(db.create_thread_with_id(7).err().map(|e| e.message()), Some("internal server error".to_string()));
    assert_eq!(db.list_threads().len(), 1);
}

#[test]
fn missing_thread_is_not_found() {
    let mut db = Database::new();
    assert_eq!(db.get_thread(1).unwrap_err(), StoreError::ThreadNotFound);
    assert_eq!(db.delete_thread(1).unwrap_err(), StoreError::ThreadNotFound);
    assert_eq!(
        db.get_thread_messages(1, None, None).err(),
        Some(StoreError::ThreadNotFound)
    );
    let r = db.create_message(1, CreateMessage { content: text("hi") });
    assert_eq!(r.err(), Some(StoreError::ThreadNotFound));
}

#[test]
fn delete_thread_cascades() {
    let mut db = store_with_thread(1);
    db.create_thread_with_id(2).unwrap();
    db.insert_message(Message::new(10, 1, text("a"), 5)).unwrap();
    db.insert_message(Message::new(11, 1, text("b"), 6)).unwrap();
    db.insert_message(Message::new(12, 2, text("c"), 7)).unwrap();
    db.delete_thread(1).unwrap();
    assert_eq!(db.get_thread(1).unwrap_err(), StoreError::ThreadNotFound);
    assert_eq!(
        db.get_thread_messages(1, None, None).err(),
        Some(StoreError::ThreadNotFound)
    );
    assert_eq!(db.save_message_embedding(10, &vec![1]).unwrap_err(), StoreError::MessageNotFound);
    let other = db.get_thread_messages(2, None, None).unwrap();
    assert_eq!(other.total, 1);
    assert_eq!(other.messages[0].id, 12);
}

#[test]
fn creation_after_delete_fails() {
    let mut db = store_with_thread(1);
    db.delete_thread(1).unwrap();
    let r = db.insert_message(Message::new(10, 1, text("late"), 5));
    assert_eq!(r.err(), Some(StoreError::ThreadNotFound));
}

#[test]
fn taken_message_id_is_internal_error() {
    let mut db = store_with_thread(1);
    db.insert_message(Message::new(10, 1, text("a"), 5)).unwrap();
    let r = db.insert_message(Message::new(10, 1, text("b"), 6));
    assert_eq!(r.err(), Some(StoreError::Internal));
    assert_eq!(db.get_thread_messages(1, None, None).unwrap().total, 1);
}

#[test]
fn create_message_records_time_and_thread() {
    let mut db = store_with_thread(1);
    let m = db.create_message(1, CreateMessage { content: text("hello") }).unwrap();
    assert_eq!(m.thread_id, 1);
    assert!(m.created_at > 0);
    assert!(m.embedding.is_none());
    let n = db.create_message(1, CreateMessage { content: text("again") }).unwrap();
    assert_ne!(m.id, n.id);
}

#[test]
fn end_to_end_hello() {
    let mut db = Database::new();
    let t = db.create_thread();
    let m = db
        .create_message(t.id, CreateMessage { content: text("hello") })
        .unwrap();
    let page = db.get_thread_messages(t.id, None, None).unwrap();
    assert_eq!(page.total, 1);
    assert_eq!(page.offset, 0);
    assert_eq!(page.limit, 1);
    assert_eq!(page.messages.len(), 1);
    assert_eq!(page.messages[0].id, m.id);
    assert_eq!(text_of(&page.messages[0]), "hello");
}

fn thread_of_four() -> Database {
    let mut db = store_with_thread(1);
    for (i, t) in [(10u128, 100u128), (11, 200), (12, 300), (13, 400)] {
        db.insert_message(Message::new(i, 1, text(&format!("m{}", i)), t)).unwrap();
    }
    db
}

#[test]
fn page_of_two_after_one_gives_second_and_third() {
    let db = thread_of_four();
    let page = db.get_thread_messages(1, Some(2), Some(1)).unwrap();
    let ids: Vec<u128> = page.messages.iter().map(|m| m.id).collect();
    assert_eq!(ids, vec![11, 12]);
    assert_eq!(page.total, 4);
    assert_eq!(page.offset, 1);
    assert_eq!(page.limit, 2);
}

#[test]
fn offset_past_end_is_empty() {
    let db = thread_of_four();
    let page = db.get_thread_messages(1, Some(3), Some(9)).unwrap();
    assert!(page.messages.is_empty());
    assert_eq!(page.total, 4);
    assert_eq!(page.offset, 9);
    assert_eq!(page.limit, 3);
}

#[test]
fn limit_past_end_is_cut() {
    let db = thread_of_four();
    let page = db.get_thread_messages(1, Some(usize::MAX), Some(2)).unwrap();
    let ids: Vec<u128> = page.messages.iter().map(|m| m.id).collect();
    assert_eq!(ids, vec![12, 13]);
}

#[test]
fn total_ignores_limit_and_offset() {
    let db = thread_of_four();
    for (l, o) in [(Some(0), None), (Some(1), Some(3)), (None, Some(2))] {
        assert_eq!(db.get_thread_messages(1, l, o).unwrap().total, 4);
    }
}

#[test]
fn messages_are_ordered_by_time_ties_by_insertion() {
    let mut db = store_with_thread(1);
    db.insert_message(Message::new(10, 1, text("a"), 300)).unwrap();
    db.insert_message(Message::new(11, 1, text("b"), 100)).unwrap();
    db.insert_message(Message::new(12, 1, text("c"), 300)).unwrap();
    db.insert_message(Message::new(13, 1, text("d"), 200)).unwrap();
    let ids: Vec<u128> = db
        .get_thread_messages(1, None, None)
        .unwrap()
        .messages
        .iter()
        .map(|m| m.id)
        .collect();
    assert_eq!(ids, vec![11, 13, 10, 12]);
}

#[test]
fn totals_follow_creates_and_deletes() {
    let mut db = thread_of_four();
    db.delete_message(1, 11).unwrap();
    let page = db.get_thread_messages(1, None, None).unwrap();
    assert_eq!(page.total, 3);
    let ids: Vec<u128> = page.messages.iter().map(|m| m.id).collect();
    assert_eq!(ids, vec![10, 12, 13]);
}

#[test]
fn update_then_read_keeps_id_and_time() {
    let mut db = thread_of_four();
    db.save_message_embedding(12, &vec![3, 4]).unwrap();
    let m = db
        .update_message(1, 12, UpdateMessage { content: text("new") })
        .unwrap();
    assert_eq!(m.id, 12);
    assert_eq!(m.created_at, 300);
    assert_eq!(m.embedding, Some(vec![3, 4]));
    let page = db.get_thread_messages(1, None, None).unwrap();
    let read = page.messages.iter().find(|m| m.id == 12).unwrap();
    assert_eq!(text_of(read), "new");
    assert_eq!(read.created_at, 300);
    assert_eq!(read.thread_id, 1);
    assert_eq!(page.total, 4);
}

#[test]
fn update_and_delete_errors() {
    let mut db = thread_of_four();
    db.create_thread_with_id(2).unwrap();
    let up = |c: &str| UpdateMessage { content: text(c) };
    assert_eq!(db.update_message(9, 10, up("x")).err(), Some(StoreError::ThreadNotFound));
    assert_eq!(db.update_message(1, 99, up("x")).err(), Some(StoreError::MessageNotFound));
    assert_eq!(db.delete_message(9, 10).unwrap_err(), StoreError::ThreadNotFound);
    assert_eq!(db.delete_message(1, 99).unwrap_err(), StoreError::MessageNotFound);
    assert_eq!(db.get_thread_messages(1, None, None).unwrap().total, 4);
}

#[test]
fn message_is_reached_through_any_live_thread() {
    let mut db = thread_of_four();
    db.create_thread_with_id(2).unwrap();
    let m = db
        .update_message(2, 10, UpdateMessage { content: text("moved") })
        .unwrap();
    assert_eq!(m.thread_id, 1);
    assert_eq!(text_of(&m), "moved");
    db.delete_message(2, 11).unwrap();
    let page = db.get_thread_messages(1, None, None).unwrap();
    let ids: Vec<u128> = page.messages.iter().map(|m| m.id).collect();
    assert_eq!(ids, vec![10, 12, 13]);
    assert_eq!(db.get_thread_messages(2, None, None).unwrap().total, 0);
}

#[test]
fn create_message_avoids_taken_ids() {
    let mut db = store_with_thread(1);
    for i in 0u128..3 {
        db.insert_message(Message::new(i, 1, text("x"), 1)).unwrap();
    }
    let m = db.create_message(1, CreateMessage { content: text("y") }).unwrap();
    assert!(m.id > 2);
    assert_eq!(db.get_thread_messages(1, None, None).unwrap().total, 4);
}

#[test]
fn status_codes() {
    assert_eq!(StoreError::ThreadNotFound.status(), 404);
    assert_eq!(StoreError::MessageNotFound.status(), 404);
    assert_eq!(StoreError::Internal.status(), 500);
}

#[test]
fn summary_and_embedding_written_together() {
    let mut db = store_with_thread(1);
    db.create_thread_with_id(2).unwrap();
    db.update_thread_summary_and_embedding(1, "short".to_string(), &vec![7, 8, 9])
        .unwrap();
    let t = db.get_thread(1).unwrap();
    assert_eq!(t.summary.as_deref(), Some("short"));
    assert_eq!(t.summary_embedding, Some(vec![7, 8, 9]));
    assert_eq!(
        db.update_thread_summary_and_embedding(5, "x".to_string(), &vec![]).unwrap_err(),
        StoreError::ThreadNotFound
    );
}

#[test]
fn threads_with_embeddings_skip_unknown_and_bare() {
    let mut db = store_with_thread(1);
    db.create_thread_with_id(2).unwrap();
    db.create_thread_with_id(3).unwrap();
    db.update_thread_summary_and_embedding(1, "a".to_string(), &vec![1]).unwrap();
    db.update_thread_summary_and_embedding(3, "c".to_string(), &vec![3]).unwrap();
    let found: Vec<u128> = db
        .get_threads_with_embeddings(&vec![3, 2, 42, 1])
        .iter()
        .map(|t| t.id)
        .collect();
    assert_eq!(found, vec![1, 3]);
    assert!(db.get_threads_with_embeddings(&vec![2]).is_empty());
}

#[test]
fn error_texts() {
    assert_eq!(StoreError::ThreadNotFound.message(), "thread not found");
    assert_eq!(StoreError::MessageNotFound.message(), "message not found");
    assert_eq!(StoreError::Internal.message(), "internal server error");
}
