//! Telegram users subscribed to notifications, one chat each, kept in ascending
//! order of user id. Every change is handed to a persistence step before it
//! is kept; a change that could not be persisted is undone.
use crate::primitives::unix_now;
use crate::table::{assoc_map, keys_unique, lemma_absent, lemma_entry, lemma_insert_at, lemma_len, lemma_push, lemma_remove_at, lemma_update, has_key};
use vstd::prelude::*;

verus! {

/// The version of the persisted subscriber document.
pub const DOCUMENT_VERSION: u8 = 1;

#[derive(Clone, Copy, Debug, PartialEq, Eq)]
pub struct Subscriber {
    pub user_id: i64,
    pub chat_id: i64,
    pub subscribed_at: u64,
}

#[derive(Debug, PartialEq, Eq)]
pub enum SubscribeOutcome {
    Added,
    Updated,
    AlreadySubscribed,
}

/// Why a change was refused.
#[derive(Debug, PartialEq, Eq)]
pub enum ChangeError<E> {
    /// A user or chat id of zero.
    InvalidIdentity,
    /// The persistence step failed; the change was undone.
    Persist(E),
}

/// Why a persisted document was refused.
#[derive(Debug, PartialEq, Eq)]
pub enum LoadError {
    UnsupportedVersion(u8),
    InvalidIdentity,
    DuplicateUser,
}

pub struct SubscriberStore {
    path: String,
    subscribers: Vec<Subscriber>,
}

pub open spec fn keyed(s: Seq<Subscriber>) -> Seq<(i64, Subscriber)> {
    s.map_values(|x: Subscriber| (x.user_id, x))
}

/// Strictly ascending user ids, and no zero id.
pub open spec fn well_ordered(s: Seq<Subscriber>) -> bool {
    &&& forall|i: int, j: int| 0 <= i < j < s.len() ==> s[i].user_id < s[j].user_id
    &&& forall|i: int| 0 <= i < s.len() ==> (#[trigger] s[i]).user_id != 0 && s[i].chat_id != 0
}

/// The subscribers a document holds, checked in order: the first entry with a
/// zero id, or with a user already seen, refuses the document.
pub open spec fn document_prefix(list: Seq<Subscriber>, n: int) -> Result<
    Map<i64, Subscriber>,
    LoadError,
>
    decreases n,
{
    if n <= 0 {
        Ok(Map::empty())
    } else {
        match document_prefix(list, n - 1) {
            Err(e) => Err(e),
            Ok(m) => {
                let x = list[n - 1];
                if x.user_id == 0 || x.chat_id == 0 {
                    Err(LoadError::InvalidIdentity)
                } else if m.contains_key(x.user_id) {
                    Err(LoadError::DuplicateUser)
                } else {
                    Ok(m.insert(x.user_id, x))
                }
            },
        }
    }
}

pub open spec fn document_subscribers(version: u8, list: Seq<Subscriber>) -> Result<
    Map<i64, Subscriber>,
    LoadError,
> {
    if version != DOCUMENT_VERSION {
        Err(LoadError::UnsupportedVersion(version))
    } else {
        document_prefix(list, list.len() as int)
    }
}

proof fn lemma_prefix_error_sticks(list: Seq<Subscriber>, k: int, m: int)
    requires
        0 <= k <= m,
        document_prefix(list, k) is Err,
    ensures
        document_prefix(list, m) == document_prefix(list, k),
    decreases m - k,
{
    if m > k {
        lemma_prefix_error_sticks(list, k, m - 1);
    }
}

proof fn lemma_ordered_unique(s: Seq<Subscriber>)
    requires
        well_ordered(s),
    ensures
        keys_unique(keyed(s)),
{
    assert forall|i: int, j: int|
        0 <= i < keyed(s).len() && 0 <= j < keyed(s).len() && i != j implies keyed(s)[i].0
        != keyed(s)[j].0 by {
        if i < j {
            assert(s[i].user_id < s[j].user_id);
        } else {
            assert(s[j].user_id < s[i].user_id);
        }
    }
}

impl View for SubscriberStore {
    type V = Map<i64, Subscriber>;

    closed spec fn view(&self) -> Map<i64, Subscriber> {
        assoc_map(keyed(self.subscribers@))
    }
}

impl SubscriberStore {
    /// The subscribers in ascending order of user id.
    pub closed spec fn entries(&self) -> Seq<Subscriber> {
        self.subscribers@
    }

    /// The file the subscribers are persisted to.
    pub closed spec fn file(&self) -> Seq<char> {
        self.path@
    }

    pub closed spec fn wf(&self) -> bool {
        well_ordered(self.subscribers@)
    }

    /// The ordered entries are exactly the subscribers of the view.
    pub proof fn lemma_entries(&self)
        requires
            self.wf(),
        ensures
            well_ordered(self.entries()),
            self@ == assoc_map(keyed(self.entries())),
            self@.dom().finite(),
            self@.dom().len() == self.entries().len(),
    {
        lemma_ordered_unique(self.subscribers@);
        lemma_len(keyed(self.subscribers@));
    }

    /// The file the subscribers are persisted to.
    pub fn path(&self) -> (path: &String)
        ensures
            path@ == self.file(),
    {
        &self.path
    }

    /// A store with no subscribers.
    pub fn empty(path: String) -> (store: Self)
        ensures
            store.wf(),
            store@ == Map::<i64, Subscriber>::empty(),
            store.file() == path@,
    {
        let store = SubscriberStore { path, subscribers: Vec::new() };
        assert(store@ =~= Map::<i64, Subscriber>::empty());
        store
    }

    /// The first position whose user id is at least `user_id`.
    fn position(&self, user_id: i64) -> (pos: usize)
        requires
            self.wf(),
        ensures
            pos <= self.subscribers@.len(),
            forall|i: int| 0 <= i < pos ==> self.subscribers@[i].user_id < user_id,
            pos < self.subscribers@.len() ==> self.subscribers@[pos as int].user_id >= user_id,
    {
        let mut i: usize = 0;
        while i < self.subscribers.len() && self.subscribers[i].user_id < user_id
            invariant
                0 <= i <= self.subscribers@.len(),
                forall|j: int| 0 <= j < i ==> self.subscribers@[j].user_id < user_id,
            decreases self.subscribers@.len() - i,
        {
            i = i + 1;
        }
        i
    }

    /// Whether position `pos` (from `position`) holds `user_id`, and the view
    /// facts that follow.
    proof fn lemma_position(&self, user_id: i64, pos: int)
        requires
            self.wf(),
            0 <= pos <= self.subscribers@.len(),
            forall|i: int| 0 <= i < pos ==> self.subscribers@[i].user_id < user_id,
            pos < self.subscribers@.len() ==> self.subscribers@[pos].user_id >= user_id,
        ensures
            self@.contains_key(user_id) <==> (pos < self.subscribers@.len()
                && self.subscribers@[pos].user_id == user_id),
            self@.contains_key(user_id) ==> self@[user_id] == self.subscribers@[pos],
            !has_key(keyed(self.subscribers@), user_id) <==> !self@.contains_key(user_id),
    {
        let s = self.subscribers@;
        lemma_ordered_unique(s);
        if pos < s.len() && s[pos].user_id == user_id {
            lemma_entry(keyed(s), pos);
        } else {
            assert forall|i: int| 0 <= i < keyed(s).len() implies keyed(s)[i].0 != user_id by {
                if i >= pos && pos < s.len() {
                    if i > pos {
                        assert(s[pos].user_id < s[i].user_id);
                    }
                }
            }
        }
    }

    /// Checks a persisted document and builds the store it describes.
    pub fn from_document(path: String, version: u8, subscribers: Vec<Subscriber>) -> (loaded:
        Result<Self, LoadError>)
        ensures
            match loaded {
                Ok(store) => store.wf() && store.file() == path@ && document_subscribers(
                    version,
                    subscribers@,
                ) == Ok::<Map<i64, Subscriber>, LoadError>(store@),
                Err(e) => document_subscribers(version, subscribers@) == Err::<
                    Map<i64, Subscriber>,
                    LoadError,
                >(e),
            },
    {
        if version != DOCUMENT_VERSION {
            return Err(LoadError::UnsupportedVersion(version));
        }
        let mut store = SubscriberStore::empty(path);
        let mut n: usize = 0;
        while n < subscribers.len()
            invariant
                0 <= n <= subscribers@.len(),
                version == DOCUMENT_VERSION,
                store.wf(),
                store.file() == path@,
                document_prefix(subscribers@, n as int) == Ok::<Map<i64, Subscriber>, LoadError>(
                    store@,
                ),
            decreases subscribers@.len() - n,
        {
            let x = subscribers[n];
            if x.user_id == 0 || x.chat_id == 0 {
                proof {
                    lemma_prefix_error_sticks(subscribers@, n + 1, subscribers@.len() as int);
                }
                return Err(LoadError::InvalidIdentity);
            }
            let pos = store.position(x.user_id);
            proof {
                store.lemma_position(x.user_id, pos as int);
            }
            if pos < store.subscribers.len() && store.subscribers[pos].user_id == x.user_id {
                proof {
                    lemma_prefix_error_sticks(subscribers@, n + 1, subscribers@.len() as int);
                }
                return Err(LoadError::DuplicateUser);
            }
            let ghost before = store.subscribers@;
            store.subscribers.insert(pos, x);
            proof {
                lemma_ordered_unique(before);
                lemma_insert_at(keyed(before), pos as int, x.user_id, x);
                assert(keyed(store.subscribers@) =~= keyed(before).insert(
                    pos as int,
                    (x.user_id, x),
                ));
                assert(well_ordered(store.subscribers@)) by {
                    let s = store.subscribers@;
                    assert forall|i: int, j: int| 0 <= i < j < s.len() implies s[i].user_id
                        < s[j].user_id by {
                        let si = if i < pos {
                            i
                        } else if i == pos {
                            -1
                        } else {
                            i - 1
                        };
                        let sj = if j < pos {
                            j
                        } else if j == pos {
                            -1
                        } else {
                            j - 1
                        };
                        if si >= 0 {
                            assert(s[i] == before[si]);
                        }
                        if sj >= 0 {
                            assert(s[j] == before[sj]);
                        }
                    }
                }
            }
            n = n + 1;
        }
        assert(subscribers@.len() as int == n as int);
        Ok(store)
    }

    /// The number of subscribers.
    pub fn len(&self) -> (count: usize)
        requires
            self.wf(),
        ensures
            count == self@.dom().len(),
    {
        proof {
            self.lemma_entries();
        }
        self.subscribers.len()
    }

    /// Whether `user_id` is subscribed.
    pub fn is_subscribed(&self, user_id: i64) -> (subscribed: bool)
        requires
            self.wf(),
        ensures
            subscribed == self@.contains_key(user_id),
    {
        let pos = self.position(user_id);
        proof {
            self.lemma_position(user_id, pos as int);
        }
        pos < self.subscribers.len() && self.subscribers[pos].user_id == user_id
    }

    /// The chat of every subscriber, in ascending order of user id.
    pub fn chat_ids(&self) -> (chats: Vec<i64>)
        requires
            self.wf(),
        ensures
            chats@ == self.entries().map_values(|s: Subscriber| s.chat_id),
    {
        let mut chats: Vec<i64> = Vec::new();
        let mut i: usize = 0;
        while i < self.subscribers.len()
            invariant
                0 <= i <= self.subscribers@.len(),
                chats@ == self.subscribers@.take(i as int).map_values(|s: Subscriber| s.chat_id),
            decreases self.subscribers@.len() - i,
        {
            chats.push(self.subscribers[i].chat_id);
            assert(self.subscribers@.take(i + 1).map_values(|s: Subscriber| s.chat_id)
                =~= chats@);
            i = i + 1;
        }
        assert(self.subscribers@.take(i as int) =~= self.subscribers@);
        chats
    }
}


/// The subscribe step: refused for a zero id; a no-op for a user already
/// subscribed with the same chat; otherwise the user's entry is (re)written
/// with the chat and a subscription time.
pub open spec fn subscribe_outcome(before: Map<i64, Subscriber>, user_id: i64, chat_id: i64) -> Option<SubscribeOutcome> {
    if user_id == 0 || chat_id == 0 {
        None
    } else if before.contains_key(user_id) && before[user_id].chat_id == chat_id {
        Some(SubscribeOutcome::AlreadySubscribed)
    } else if before.contains_key(user_id) {
        Some(SubscribeOutcome::Updated)
    } else {
        Some(SubscribeOutcome::Added)
    }
}

impl SubscriberStore {
    /// Subscribes `user_id` with `chat_id`. A change is handed to `persist`
    /// (the subscribers in ascending order of user id) before it is kept; when
    /// `persist` fails the store is left as it was and its error is returned.
    pub fn subscribe<E, F: FnOnce(&[Subscriber]) -> Result<(), E>>(
        &mut self,
        user_id: i64,
        chat_id: i64,
        persist: F,
    ) -> (result: Result<SubscribeOutcome, ChangeError<E>>)
        requires
            old(self).wf(),
            forall|document: &[Subscriber]| call_requires(persist, (document,)),
        ensures
            final(self).wf(),
            final(self).file() == old(self).file(),
            subscribe_outcome(old(self)@, user_id, chat_id) is None ==> result
                == Err::<SubscribeOutcome, ChangeError<E>>(ChangeError::InvalidIdentity)
                && final(self)@ == old(self)@,
            subscribe_outcome(old(self)@, user_id, chat_id) == Some(
                SubscribeOutcome::AlreadySubscribed,
            ) ==> result == Ok::<SubscribeOutcome, ChangeError<E>>(
                SubscribeOutcome::AlreadySubscribed,
            ) && final(self)@ == old(self)@,
            match result {
                Ok(outcome) => Some(outcome) == subscribe_outcome(old(self)@, user_id, chat_id)
                    && (outcome != SubscribeOutcome::AlreadySubscribed ==> exists|at: u64|
                    final(self)@ == old(self)@.insert(
                        user_id,
                        Subscriber { user_id, chat_id, subscribed_at: at },
                    )),
                Err(ChangeError::Persist(_)) => final(self)@ == old(self)@ && subscribe_outcome(
                    old(self)@,
                    user_id,
                    chat_id,
                ) is Some,
                Err(ChangeError::InvalidIdentity) => subscribe_outcome(old(self)@, user_id, chat_id)
                    is None,
            },
            result matches Ok(outcome) && outcome != SubscribeOutcome::AlreadySubscribed ==> exists|
                document: &[Subscriber],
                answer: Result<(), E>,
            |
                document@ == final(self).entries() && answer is Ok && call_ensures(
                    persist,
                    (document,),
                    answer,
                ),
            result matches Err(ChangeError::Persist(error)) ==> exists|document: &[Subscriber]|
                well_ordered(document@) && (exists|at: u64|
                    assoc_map(keyed(document@)) == old(self)@.insert(
                        user_id,
                        Subscriber { user_id, chat_id, subscribed_at: at },
                    )) && call_ensures(persist, (document,), Err::<(), E>(error)),
    {
        if user_id == 0 || chat_id == 0 {
            return Err(ChangeError::InvalidIdentity);
        }
        let pos = self.position(user_id);
        proof {
            self.lemma_position(user_id, pos as int);
            lemma_ordered_unique(self.subscribers@);
        }
        let found = pos < self.subscribers.len() && self.subscribers[pos].user_id == user_id;
        if found && self.subscribers[pos].chat_id == chat_id {
            return Ok(SubscribeOutcome::AlreadySubscribed);
        }
        let outcome = if found {
            SubscribeOutcome::Updated
        } else {
            SubscribeOutcome::Added
        };
        let ghost before = self.subscribers@;
        let ghost before_view = self@;
        let entry = Subscriber { user_id, chat_id, subscribed_at: unix_now() };
        let previous: Option<Subscriber> = if found {
            let p = self.subscribers[pos];
            self.subscribers.set(pos, entry);
            proof {
                lemma_update(keyed(before), pos as int, entry);
                assert(keyed(self.subscribers@) =~= keyed(before).update(
                    pos as int,
                    (keyed(before)[pos as int].0, entry),
                ));
            }
            Some(p)
        } else {
            self.subscribers.insert(pos, entry);
            proof {
                lemma_insert_at(keyed(before), pos as int, user_id, entry);
                assert(keyed(self.subscribers@) =~= keyed(before).insert(
                    pos as int,
                    (user_id, entry),
                ));
            }
            None
        };
        proof {
            let s = self.subscribers@;
            assert(well_ordered(s)) by {
                assert forall|i: int, j: int| 0 <= i < j < s.len() implies s[i].user_id
                    < s[j].user_id by {
                    if found {
                        if i != pos && j != pos {
                            assert(s[i] == before[i] && s[j] == before[j]);
                        } else if i == pos {
                            assert(s[j] == before[j]);
                        } else {
                            assert(s[i] == before[i]);
                        }
                    } else {
                        let si = if i < pos {
                            i
                        } else if i == pos {
                            -1
                        } else {
                            i - 1
                        };
                        let sj = if j < pos {
                            j
                        } else if j == pos {
                            -1
                        } else {
                            j - 1
                        };
                        if si >= 0 {
                            assert(s[i] == before[si]);
                        }
                        if sj >= 0 {
                            assert(s[j] == before[sj]);
                        }
                    }
                }
            }
        }
        let ghost written = self.subscribers@;
        let document = self.subscribers.as_slice();
        let persisted = persist(document);
        proof {
            assert(document@ == written);
        }
        match persisted {
            Ok(()) => {
                assert(exists|d: &[Subscriber], answer: Result<(), E>|
                    d@ == written && answer is Ok && call_ensures(persist, (d,), answer));
                Ok(outcome)
            },
            Err(error) => {
                assert(exists|d: &[Subscriber]|
                    d@ == written && call_ensures(persist, (d,), Err::<(), E>(error)));
                match previous {
                    Some(p) => {
                        self.subscribers.set(pos, p);
                    },
                    None => {
                        self.subscribers.remove(pos);
                    },
                }
                assert(self.subscribers@ =~= before);
                Err(ChangeError::Persist(error))
            },
        }
    }

    /// Unsubscribes `user_id`: `Ok(false)` when it was not subscribed.
    /// Otherwise the removal is handed to `persist` before it is kept; when
    /// `persist` fails the store is left as it was and its error is returned.
    pub fn unsubscribe<E, F: FnOnce(&[Subscriber]) -> Result<(), E>>(
        &mut self,
        user_id: i64,
        persist: F,
    ) -> (result: Result<bool, ChangeError<E>>)
        requires
            old(self).wf(),
            forall|document: &[Subscriber]| call_requires(persist, (document,)),
        ensures
            final(self).wf(),
            final(self).file() == old(self).file(),
            !old(self)@.contains_key(user_id) ==> result == Ok::<bool, ChangeError<E>>(false)
                && final(self)@ == old(self)@,
            match result {
                Ok(true) => old(self)@.contains_key(user_id) && final(self)@ == old(self)@.remove(
                    user_id,
                ),
                Ok(false) => !old(self)@.contains_key(user_id) && final(self)@ == old(self)@,
                Err(ChangeError::Persist(_)) => old(self)@.contains_key(user_id) && final(self)@
                    == old(self)@,
                Err(ChangeError::InvalidIdentity) => false,
            },
            result == Ok::<bool, ChangeError<E>>(true) ==> exists|
                document: &[Subscriber],
                answer: Result<(), E>,
            |
                document@ == final(self).entries() && answer is Ok && call_ensures(
                    persist,
                    (document,),
                    answer,
                ),
            result matches Err(ChangeError::Persist(error)) ==> exists|document: &[Subscriber]|
                well_ordered(document@) && assoc_map(keyed(document@)) == old(self)@.remove(user_id)
                    && call_ensures(persist, (document,), Err::<(), E>(error)),
    {
        let pos = self.position(user_id);
        proof {
            self.lemma_position(user_id, pos as int);
            lemma_ordered_unique(self.subscribers@);
        }
        if !(pos < self.subscribers.len() && self.subscribers[pos].user_id == user_id) {
            return Ok(false);
        }
        let ghost before = self.subscribers@;
        let previous = self.subscribers.remove(pos);
        proof {
            lemma_remove_at(keyed(before), pos as int);
            assert(keyed(self.subscribers@) =~= keyed(before).remove(pos as int));
            let s = self.subscribers@;
            assert(well_ordered(s)) by {
                assert forall|i: int, j: int| 0 <= i < j < s.len() implies s[i].user_id
                    < s[j].user_id by {
                    let si = if i < pos {
                        i
                    } else {
                        i + 1
                    };
                    let sj = if j < pos {
                        j
                    } else {
                        j + 1
                    };
                    assert(s[i] == before[si]);
                    assert(s[j] == before[sj]);
                }
            }
        }
        let ghost written = self.subscribers@;
        let document = self.subscribers.as_slice();
        let persisted = persist(document);
        proof {
            assert(document@ == written);
        }
        match persisted {
            Ok(()) => {
                assert(exists|d: &[Subscriber], answer: Result<(), E>|
                    d@ == written && answer is Ok && call_ensures(persist, (d,), answer));
                Ok(true)
            },
            Err(error) => {
                assert(exists|d: &[Subscriber]|
                    d@ == written && call_ensures(persist, (d,), Err::<(), E>(error)));
                self.subscribers.insert(pos, previous);
                assert(self.subscribers@ =~= before);
                Err(ChangeError::Persist(error))
            },
        }
    }
}


proof fn lemma_ordered_prefix(list: Seq<Subscriber>, n: int)
    requires
        well_ordered(list),
        0 <= n <= list.len(),
    ensures
        document_prefix(list, n) == Ok::<Map<i64, Subscriber>, LoadError>(
            assoc_map(keyed(list.take(n))),
        ),
    decreases n,
{
    if n == 0 {
        assert(assoc_map(keyed(list.take(0))) =~= Map::<i64, Subscriber>::empty());
    } else {
        lemma_ordered_prefix(list, n - 1);
        let before = list.take(n - 1);
        let x = list[n - 1];
        assert(keyed(list.take(n)) =~= keyed(before).push((x.user_id, x)));
        assert(well_ordered(before));
        lemma_ordered_unique(before);
        assert forall|i: int| 0 <= i < keyed(before).len() implies keyed(before)[i].0 != x.user_id by {
            assert(before[i].user_id < x.user_id);
        }
        lemma_absent(keyed(before), x.user_id);
        lemma_push(keyed(before), x.user_id, x);
    }
}

/// The document of a store, read back, gives the same subscribers: its
/// entries in ascending order of user id, under the current version.
pub proof fn law_persisted_document_loads_back(store: SubscriberStore)
    requires
        store.wf(),
    ensures
        document_subscribers(DOCUMENT_VERSION, store.entries()) == Ok::<
            Map<i64, Subscriber>,
            LoadError,
        >(store@),
{
    store.lemma_entries();
    let list = store.entries();
    lemma_ordered_prefix(list, list.len() as int);
    assert(list.take(list.len() as int) =~= list);
}

} // verus!
