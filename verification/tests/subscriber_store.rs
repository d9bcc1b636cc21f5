use infrabot::subscribers::{
    ChangeError, LoadError, SubscribeOutcome, Subscriber, SubscriberStore, DOCUMENT_VERSION,
};
use std::cell::RefCell;

/// The persisted document, kept in memory: its version and subscribers.
type Document = RefCell<Option<(u8, Vec<Subscriber>)>>;

fn persist_into(document: &Document) -> impl FnOnce(&[Subscriber]) -> Result<(), String> + '_ {
    move |subscribers: &[Subscriber]| {
        *document.borrow_mut() = Some((DOCUMENT_VERSION, subscribers.to_vec()));
        Ok(())
    }
}

fn load(path: &str, document: &Document) -> SubscriberStore {
    match document.borrow().clone() {
        None => SubscriberStore::empty(path.to_string()),
        Some((version, subscribers)) => {
            SubscriberStore::from_document(path.to_string(), version, subscribers).unwrap()
        }
    }
}

#[test]
fn persists_multiple_subscribers_and_unsubscribes_independently() {
    let path = "/tmp/infrabot-subscribers/subscribers.json";
    let document: Document = RefCell::new(None);
    let mut store = load(path, &document);
    assert_eq!(store.subscribe(42, 42, persist_into(&document)).unwrap(), SubscribeOutcome::Added);
    assert_eq!(store.subscribe(77, 77, persist_into(&document)).unwrap(), SubscribeOutcome::Added);
    assert_eq!(store.len(), 2);

    let mut restored = load(path, &document);
    assert!(restored.is_subscribed(42));
    assert!(restored.is_subscribed(77));
    assert!(restored.unsubscribe(42, persist_into(&document)).unwrap());
    assert!(!restored.is_subscribed(42));
    assert!(restored.is_subscribed(77));
}

#[test]
fn subscribe_reports_what_changed() {
    let document: Document = RefCell::new(None);
    let mut store = SubscriberStore::empty("/tmp/s.json".to_string());
    assert_eq!(store.subscribe(42, 1, persist_into(&document)).unwrap(), SubscribeOutcome::Added);
    assert_eq!(
        store.subscribe(42, 1, persist_into(&document)).unwrap(),
        SubscribeOutcome::AlreadySubscribed
    );
    assert_eq!(store.subscribe(42, 2, persist_into(&document)).unwrap(), SubscribeOutcome::Updated);
    assert_eq!(store.chat_ids(), vec![2]);
    assert_eq!(
        store.subscribe(0, 2, persist_into(&document)).err(),
        Some(ChangeError::InvalidIdentity)
    );
    assert!(!store.unsubscribe(7, persist_into(&document)).unwrap());
    assert_eq!(store.path(), "/tmp/s.json");
}

#[test]
fn failed_persistence_undoes_the_change() {
    let mut store = SubscriberStore::empty("/tmp/s.json".to_string());
    let failing = |_: &[Subscriber]| -> Result<(), String> { Err("disk full".to_string()) };
    assert_eq!(
        store.subscribe(42, 1, failing).err(),
        Some(ChangeError::Persist("disk full".to_string()))
    );
    assert!(!store.is_subscribed(42));
    assert_eq!(store.len(), 0);
}

#[test]
fn chat_ids_follow_user_order() {
    let document: Document = RefCell::new(None);
    let mut store = SubscriberStore::empty("/tmp/s.json".to_string());
    store.subscribe(77, 7, persist_into(&document)).unwrap();
    store.subscribe(42, 4, persist_into(&document)).unwrap();
    assert_eq!(store.chat_ids(), vec![4, 7]);
    let (_, saved) = document.borrow().clone().unwrap();
    assert_eq!(saved.iter().map(|s| s.user_id).collect::<Vec<_>>(), vec![42, 77]);
}

#[test]
fn refuses_bad_documents() {
    let one = Subscriber { user_id: 42, chat_id: 1, subscribed_at: 0 };
    assert_eq!(
        SubscriberStore::from_document("p".into(), 2, vec![one]).err(),
        Some(LoadError::UnsupportedVersion(2))
    );
    assert_eq!(
        SubscriberStore::from_document("p".into(), 1, vec![one, one]).err(),
        Some(LoadError::DuplicateUser)
    );
    let zero = Subscriber { user_id: 0, chat_id: 1, subscribed_at: 0 };
    assert_eq!(
        SubscriberStore::from_document("p".into(), 1, vec![zero]).err(),
        Some(LoadError::InvalidIdentity)
    );
}

#[test]
fn failed_unsubscribe_keeps_the_subscriber_and_a_written_document_holds_the_change() {
    let document: Document = RefCell::new(None);
    let mut store = SubscriberStore::empty("/tmp/s.json".to_string());
    store.subscribe(42, 4, persist_into(&document)).unwrap();
    store.subscribe(77, 7, persist_into(&document)).unwrap();
    let failing = |_: &[Subscriber]| -> Result<(), String> { Err("read-only".to_string()) };
    assert_eq!(
        store.unsubscribe(42, failing).err(),
        Some(ChangeError::Persist("read-only".to_string()))
    );
    assert!(store.is_subscribed(42));
    assert!(store.unsubscribe(42, persist_into(&document)).unwrap());
    let (_, saved) = document.borrow().clone().unwrap();
    assert_eq!(saved.iter().map(|s| (s.user_id, s.chat_id)).collect::<Vec<_>>(), vec![(77, 7)]);
}
