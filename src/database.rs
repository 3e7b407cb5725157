use vstd::prelude::*;
use vstd::set_lib::{lemma_int_range, lemma_len_subset, set_int_range};

use crate::message::{
    duplicate_embedding, duplicate_optional_embedding, ContentView, CreateMessage, Embedding,
    Message, MessageView, UpdateMessage,
};
use crate::outside::random_id;
use crate::thread::{Thread, ThreadView};

verus! {

/// Why a store operation failed.
#[derive(Clone, Copy, PartialEq, Eq, Structural, Debug)]
pub enum StoreError {
    ThreadNotFound,
    MessageNotFound,
    /// An id given by the caller is already in use.
    Internal,
}

impl StoreError {
    /// The HTTP status that callers answer with: 404 for what is missing, 500
    /// for anything else.
    pub fn status(&self) -> (r: u16)
        ensures
            *self == StoreError::ThreadNotFound ==> r == 404,
            *self == StoreError::MessageNotFound ==> r == 404,
            *self == StoreError::Internal ==> r == 500,
    {
        match self {
            StoreError::ThreadNotFound => 404,
            StoreError::MessageNotFound => 404,
            StoreError::Internal => 500,
        }
    }

    /// The text that callers show for this error.
    pub fn message(&self) -> (r: String)
        ensures
            *self == StoreError::ThreadNotFound ==> r@ == "thread not found"@,
            *self == StoreError::MessageNotFound ==> r@ == "message not found"@,
            *self == StoreError::Internal ==> r@ == "internal server error"@,
    {
        match self {
            StoreError::ThreadNotFound => String::from_str("thread not found"),
            StoreError::MessageNotFound => String::from_str("message not found"),
            StoreError::Internal => String::from_str("internal server error"),
        }
    }
}

/// The whole content of a store: its threads in order of creation, and its
/// messages ordered by `created_at`, ties in order of insertion.
pub struct StoreView {
    pub threads: Seq<ThreadView>,
    pub messages: Seq<MessageView>,
}

/// Thread ids are pairwise distinct.
pub open spec fn thread_ids_unique(s: Seq<ThreadView>) -> bool {
    forall|i: int, j: int| 0 <= i < s.len() && 0 <= j < s.len() && i != j ==> #[trigger] s[i].id != #[trigger] s[j].id
}

/// Message ids are pairwise distinct.
pub open spec fn message_ids_unique(s: Seq<MessageView>) -> bool {
    forall|i: int, j: int| 0 <= i < s.len() && 0 <= j < s.len() && i != j ==> #[trigger] s[i].id != #[trigger] s[j].id
}

/// Messages are in non-decreasing order of `created_at`.
pub open spec fn ordered_by_time(s: Seq<MessageView>) -> bool {
    forall|i: int, j: int| 0 <= i <= j < s.len() ==> #[trigger] s[i].created_at <= #[trigger] s[j].created_at
}

/// Where a message created at time `t` goes: after every message created at or
/// before `t` that is not followed by a later one.
pub open spec fn insert_pos(s: Seq<MessageView>, t: u128) -> nat
    decreases s.len(),
{
    if s.len() == 0 {
        0
    } else if s.last().created_at <= t {
        s.len()
    } else {
        insert_pos(s.drop_last(), t)
    }
}

/// The slice of `s` that starts at `offset` and holds at most `limit` items.
pub open spec fn page<A>(s: Seq<A>, offset: int, limit: int) -> Seq<A> {
    let start = if offset < s.len() { offset } else { s.len() as int };
    let end = if offset + limit < s.len() { offset + limit } else { s.len() as int };
    s.subrange(start, end)
}

impl StoreView {
    pub open spec fn empty() -> StoreView {
        StoreView { threads: Seq::empty(), messages: Seq::empty() }
    }

    pub open spec fn has_thread(self, id: u128) -> bool {
        exists|i: int| 0 <= i < self.threads.len() && #[trigger] self.threads[i].id == id
    }

    pub open spec fn has_message(self, id: u128) -> bool {
        exists|i: int| 0 <= i < self.messages.len() && #[trigger] self.messages[i].id == id
    }

    /// The message `mid` exists and belongs to thread `tid`.
    pub open spec fn has_message_in(self, tid: u128, mid: u128) -> bool {
        exists|i: int|
            0 <= i < self.messages.len() && #[trigger] self.messages[i].id == mid
                && self.messages[i].thread_id == tid
    }

    pub open spec fn thread_index(self, id: u128) -> int {
        choose|i: int| 0 <= i < self.threads.len() && #[trigger] self.threads[i].id == id
    }

    pub open spec fn message_index(self, id: u128) -> int {
        choose|i: int| 0 <= i < self.messages.len() && #[trigger] self.messages[i].id == id
    }

    /// The thread ids, in store order.
    pub open spec fn thread_ids(self) -> Seq<int> {
        self.threads.map_values(|t: ThreadView| t.id as int)
    }

    /// The message ids, in store order.
    pub open spec fn message_ids(self) -> Seq<int> {
        self.messages.map_values(|m: MessageView| m.id as int)
    }

    pub open spec fn thread(self, id: u128) -> ThreadView {
        self.threads[self.thread_index(id)]
    }

    pub open spec fn message(self, id: u128) -> MessageView {
        self.messages[self.message_index(id)]
    }

    /// The messages of thread `tid`, oldest first.
    pub open spec fn messages_of(self, tid: u128) -> Seq<MessageView> {
        self.messages.filter(|m: MessageView| m.thread_id == tid)
    }

    /// Ids are unique, every message belongs to a live thread, and messages are
    /// ordered by time.
    pub open spec fn wf(self) -> bool {
        &&& thread_ids_unique(self.threads)
        &&& message_ids_unique(self.messages)
        &&& forall|i: int| 0 <= i < self.messages.len() ==> self.has_thread(#[trigger] self.messages[i].thread_id)
        &&& ordered_by_time(self.messages)
    }

    /// The store with a new empty thread `id`.
    pub open spec fn with_thread(self, id: u128) -> StoreView {
        StoreView {
            threads: self.threads.push(ThreadView { id, summary: None, summary_embedding: None }),
            messages: self.messages,
        }
    }

    /// The store without thread `id` and without every message it owns.
    pub open spec fn without_thread(self, id: u128) -> StoreView {
        StoreView {
            threads: self.threads.remove(self.thread_index(id)),
            messages: self.messages.filter(|m: MessageView| m.thread_id != id),
        }
    }

    /// The store with message `m` placed after every message not later than it.
    pub open spec fn with_message(self, m: MessageView) -> StoreView {
        StoreView {
            threads: self.threads,
            messages: self.messages.insert(insert_pos(self.messages, m.created_at) as int, m),
        }
    }

    /// The store with message `mid`'s content replaced by `c`.
    pub open spec fn with_content(self, mid: u128, c: ContentView) -> StoreView {
        StoreView {
            threads: self.threads,
            messages: self.messages.update(
                self.message_index(mid),
                MessageView { content: c, ..self.message(mid) },
            ),
        }
    }

    /// The store with message `mid`'s embedding set to `e`.
    pub open spec fn with_message_embedding(self, mid: u128, e: Seq<u32>) -> StoreView {
        StoreView {
            threads: self.threads,
            messages: self.messages.update(
                self.message_index(mid),
                MessageView { embedding: Some(e), ..self.message(mid) },
            ),
        }
    }

    /// The store without message `mid`.
    pub open spec fn without_message(self, mid: u128) -> StoreView {
        StoreView { threads: self.threads, messages: self.messages.remove(self.message_index(mid)) }
    }

    /// The store with thread `tid`'s summary and summary embedding replaced together.
    pub open spec fn with_summary(self, tid: u128, s: Seq<char>, e: Seq<u32>) -> StoreView {
        StoreView {
            threads: self.threads.update(
                self.thread_index(tid),
                ThreadView { id: tid, summary: Some(s), summary_embedding: Some(e) },
            ),
            messages: self.messages,
        }
    }
}


/// Filtering keeps ids unique and time order, and keeps only messages of `s`.
pub proof fn lemma_filter_keeps_wf(s: Seq<MessageView>, p: spec_fn(MessageView) -> bool)
    requires
        message_ids_unique(s),
        ordered_by_time(s),
    ensures
        message_ids_unique(s.filter(p)),
        ordered_by_time(s.filter(p)),
        forall|i: int| 0 <= i < s.filter(p).len() ==> s.contains(#[trigger] s.filter(p)[i]),
    decreases s.len(),
{
    reveal(Seq::filter);
    if s.len() > 0 {
        let d = s.drop_last();
        lemma_filter_keeps_wf(d, p);
        let fd = d.filter(p);
        let f = s.filter(p);
        assert forall|i: int| 0 <= i < fd.len() implies exists|k: int|
            0 <= k < s.len() - 1 && s[k] == #[trigger] fd[i] by {
            assert(d.contains(fd[i]));
            let k = choose|k: int| 0 <= k < d.len() && d[k] == fd[i];
            assert(s[k] == fd[i]);
        }
        if p(s.last()) {
            assert(f == fd.push(s.last()));
            assert forall|i: int, j: int| 0 <= i < f.len() && 0 <= j < f.len() && i != j implies #[trigger] f[i].id != #[trigger] f[j].id by {
                if i < fd.len() && j < fd.len() {
                    assert(f[i] == fd[i] && f[j] == fd[j]);
                } else if i < fd.len() {
                    let k = choose|k: int| 0 <= k < s.len() - 1 && s[k] == #[trigger] fd[i];
                    assert(s[k].id != s[s.len() - 1].id);
                } else {
                    let k = choose|k: int| 0 <= k < s.len() - 1 && s[k] == #[trigger] fd[j];
                    assert(s[k].id != s[s.len() - 1].id);
                }
            }
            assert forall|i: int, j: int| 0 <= i <= j < f.len() implies #[trigger] f[i].created_at <= #[trigger] f[j].created_at by {
                if j < fd.len() {
                    assert(f[i] == fd[i] && f[j] == fd[j]);
                } else if i < fd.len() {
                    let k = choose|k: int| 0 <= k < s.len() - 1 && s[k] == #[trigger] fd[i];
                    assert(s[k].created_at <= s[s.len() - 1].created_at);
                }
            }
            assert forall|i: int| 0 <= i < f.len() implies s.contains(#[trigger] f[i]) by {
                if i < fd.len() {
                    let k = choose|k: int| 0 <= k < s.len() - 1 && s[k] == #[trigger] fd[i];
                    assert(s[k] == f[i]);
                } else {
                    assert(s[s.len() - 1] == f[i]);
                }
            }
        } else {
            assert forall|i: int| 0 <= i < f.len() implies s.contains(#[trigger] f[i]) by {
                let k = choose|k: int| 0 <= k < s.len() - 1 && s[k] == #[trigger] fd[i];
                assert(s[k] == f[i]);
            }
        }
    }
}

/// Placing `m` at `p`, after messages not later than it and before later ones,
/// keeps time order.
proof fn lemma_insert_keeps_order(s: Seq<MessageView>, p: int, m: MessageView)
    requires
        ordered_by_time(s),
        0 <= p <= s.len(),
        p > 0 ==> s[p - 1].created_at <= m.created_at,
        forall|k: int| p <= k < s.len() ==> m.created_at < #[trigger] s[k].created_at,
    ensures
        ordered_by_time(s.insert(p, m)),
{
    let n = s.insert(p, m);
    assert forall|i: int, j: int| 0 <= i <= j < n.len() implies #[trigger] n[i].created_at <= #[trigger] n[j].created_at by {
        if i < p && j < p {
            assert(n[i] == s[i] && n[j] == s[j]);
        } else if i < p && j == p {
            assert(s[i].created_at <= s[p - 1].created_at);
        } else if i < p {
            assert(n[j] == s[j - 1]);
            assert(s[i].created_at <= s[j - 1].created_at);
        } else if i == p && j > p {
            assert(n[j] == s[j - 1]);
        } else if i > p {
            assert(n[i] == s[i - 1] && n[j] == s[j - 1]);
        }
    }
}

/// Where `insert_pos` places a message: after those not later than it, before
/// those later.
pub proof fn lemma_insert_pos(s: Seq<MessageView>, t: u128)
    ensures
        insert_pos(s, t) <= s.len(),
        insert_pos(s, t) > 0 ==> s[insert_pos(s, t) - 1].created_at <= t,
        forall|k: int| insert_pos(s, t) <= k < s.len() ==> t < #[trigger] s[k].created_at,
    decreases s.len(),
{
    if s.len() > 0 && s.last().created_at > t {
        let d = s.drop_last();
        lemma_insert_pos(d, t);
        assert forall|k: int| insert_pos(s, t) <= k < s.len() implies t < #[trigger] s[k].created_at by {
            if k < s.len() - 1 {
                assert(s[k] == d[k]);
            }
        }
        if insert_pos(s, t) > 0 {
            assert(s[insert_pos(s, t) - 1] == d[insert_pos(d, t) - 1]);
        }
    }
}

/// Removing a thread together with its messages keeps the store well formed.
pub proof fn lemma_without_thread_wf(before: StoreView, id: u128)
    requires
        before.wf(),
        before.has_thread(id),
    ensures
        before.without_thread(id).wf(),
        !before.without_thread(id).has_thread(id),
        forall|j: int| 0 <= j < before.without_thread(id).messages.len()
            ==> (#[trigger] before.without_thread(id).messages[j]).thread_id != id,
{
    let i = before.thread_index(id);
    let keep = |m: MessageView| m.thread_id != id;
    let after = before.without_thread(id);
    lemma_filter_keeps_wf(before.messages, keep);
    assert forall|a: int, b: int| 0 <= a < after.threads.len() && 0 <= b < after.threads.len() && a != b implies #[trigger] after.threads[a].id != #[trigger] after.threads[b].id by {
        let a0 = if a < i { a } else { a + 1 };
        let b0 = if b < i { b } else { b + 1 };
        assert(after.threads[a] == before.threads[a0] && after.threads[b] == before.threads[b0]);
    }
    assert forall|j: int| 0 <= j < after.messages.len() implies (#[trigger] after.messages[j]).thread_id != id by {
        before.messages.lemma_filter_pred(keep, j);
    }
    assert forall|j: int| 0 <= j < after.messages.len() implies after.has_thread(#[trigger] after.messages[j].thread_id) by {
        let m = after.messages[j];
        assert(before.messages.contains(m));
        before.messages.lemma_filter_pred(keep, j);
        let q = choose|q: int| 0 <= q < before.messages.len() && before.messages[q] == m;
        let t = choose|t: int| 0 <= t < before.threads.len() && #[trigger] before.threads[t].id == before.messages[q].thread_id;
        assert(t != i);
        let t1 = if t < i { t } else { t - 1 };
        assert(after.threads[t1].id == m.thread_id);
    }
    assert forall|a: int| 0 <= a < after.threads.len() implies #[trigger] after.threads[a].id != id by {
        let a0 = if a < i { a } else { a + 1 };
        assert(after.threads[a] == before.threads[a0]);
    }
}

/// Adding a message with a fresh id to a live thread keeps the store well formed.
pub proof fn lemma_with_message_wf(before: StoreView, m: MessageView)
    requires
        before.wf(),
        before.has_thread(m.thread_id),
        !before.has_message(m.id),
    ensures
        before.with_message(m).wf(),
{
    let ms = before.messages;
    let p = insert_pos(ms, m.created_at) as int;
    lemma_insert_pos(ms, m.created_at);
    let after = before.with_message(m);
    lemma_insert_keeps_order(ms, p, m);
    assert forall|a: int, b: int| 0 <= a < after.messages.len() && 0 <= b < after.messages.len() && a != b implies #[trigger] after.messages[a].id != #[trigger] after.messages[b].id by {
        if a != p && b != p {
            let a0 = if a < p { a } else { a - 1 };
            let b0 = if b < p { b } else { b - 1 };
            assert(after.messages[a] == ms[a0] && after.messages[b] == ms[b0]);
        } else if a == p {
            let b0 = if b < p { b } else { b - 1 };
            assert(after.messages[b] == ms[b0]);
        } else {
            let a0 = if a < p { a } else { a - 1 };
            assert(after.messages[a] == ms[a0]);
        }
    }
    assert forall|j: int| 0 <= j < after.messages.len() implies after.has_thread(#[trigger] after.messages[j].thread_id) by {
        if j != p {
            let j0 = if j < p { j } else { j - 1 };
            assert(after.messages[j] == ms[j0]);
        }
    }
}

/// Adding an empty thread with an unused id keeps the store well formed.
pub proof fn lemma_with_thread_wf(before: StoreView, id: u128)
    requires
        before.wf(),
        !before.has_thread(id),
    ensures
        before.with_thread(id).wf(),
{
    let after = before.with_thread(id);
    assert forall|a: int, b: int| 0 <= a < after.threads.len() && 0 <= b < after.threads.len() && a != b implies #[trigger] after.threads[a].id != #[trigger] after.threads[b].id by {
        if a < before.threads.len() && b < before.threads.len() {
            assert(after.threads[a] == before.threads[a] && after.threads[b] == before.threads[b]);
        } else if a < before.threads.len() {
            assert(after.threads[a] == before.threads[a]);
        } else {
            assert(after.threads[b] == before.threads[b]);
        }
    }
    assert forall|j: int| 0 <= j < after.messages.len() implies after.has_thread(#[trigger] after.messages[j].thread_id) by {
        let k = choose|k: int| 0 <= k < before.threads.len() && #[trigger] before.threads[k].id == before.messages[j].thread_id;
        assert(after.threads[k].id == after.messages[j].thread_id);
    }
}

/// Some integer from 0 to `ids.len()` is not among `ids`.
proof fn lemma_some_unused(ids: Seq<int>)
    ensures
        exists|w: int| 0 <= w <= ids.len() && !ids.contains(w),
{
    if forall|w: int| 0 <= w <= ids.len() ==> ids.contains(w) {
        let r = set_int_range(0, ids.len() as int + 1);
        lemma_int_range(0, ids.len() as int + 1);
        assert(r.subset_of(ids.to_set()));
        ids.lemma_cardinality_of_set();
        lemma_len_subset(r, ids.to_set());
    }
}

/// Putting in place of a message one with the same id, thread and time keeps
/// the store well formed.
pub proof fn lemma_update_message_wf(before: StoreView, i: int, nv: MessageView)
    requires
        before.wf(),
        0 <= i < before.messages.len(),
        nv.id == before.messages[i].id,
        nv.thread_id == before.messages[i].thread_id,
        nv.created_at == before.messages[i].created_at,
    ensures
        (StoreView { threads: before.threads, messages: before.messages.update(i, nv) }).wf(),
{
    let after = StoreView { threads: before.threads, messages: before.messages.update(i, nv) };
    assert forall|a: int, b: int| 0 <= a < after.messages.len() && 0 <= b < after.messages.len() && a != b implies #[trigger] after.messages[a].id != #[trigger] after.messages[b].id by {
        assert(before.messages[a].id == after.messages[a].id);
        assert(before.messages[b].id == after.messages[b].id);
    }
    assert forall|a: int, b: int| 0 <= a <= b < after.messages.len() implies #[trigger] after.messages[a].created_at <= #[trigger] after.messages[b].created_at by {
        assert(before.messages[a].created_at == after.messages[a].created_at);
        assert(before.messages[b].created_at == after.messages[b].created_at);
    }
    assert forall|j: int| 0 <= j < after.messages.len() implies after.has_thread(#[trigger] after.messages[j].thread_id) by {
        assert(before.messages[j].thread_id == after.messages[j].thread_id);
    }
}

/// Removing a message keeps the store well formed.
pub proof fn lemma_without_message_wf(before: StoreView, mid: u128)
    requires
        before.wf(),
        before.has_message(mid),
    ensures
        before.without_message(mid).wf(),
{
    let i = before.message_index(mid);
    let after = before.without_message(mid);
    assert forall|a: int, b: int| 0 <= a < after.messages.len() && 0 <= b < after.messages.len() && a != b implies #[trigger] after.messages[a].id != #[trigger] after.messages[b].id by {
        let a0 = if a < i { a } else { a + 1 };
        let b0 = if b < i { b } else { b + 1 };
        assert(after.messages[a] == before.messages[a0] && after.messages[b] == before.messages[b0]);
    }
    assert forall|a: int, b: int| 0 <= a <= b < after.messages.len() implies #[trigger] after.messages[a].created_at <= #[trigger] after.messages[b].created_at by {
        let a0 = if a < i { a } else { a + 1 };
        let b0 = if b < i { b } else { b + 1 };
        assert(after.messages[a] == before.messages[a0] && after.messages[b] == before.messages[b0]);
    }
    assert forall|j: int| 0 <= j < after.messages.len() implies after.has_thread(#[trigger] after.messages[j].thread_id) by {
        let j0 = if j < i { j } else { j + 1 };
        assert(after.messages[j] == before.messages[j0]);
    }
}

/// Replacing a thread's summary and embedding keeps the store well formed.
proof fn lemma_with_summary_wf(before: StoreView, tid: u128, nv: ThreadView)
    requires
        before.wf(),
        before.has_thread(tid),
        nv == before.with_summary(tid, nv.summary.unwrap(), nv.summary_embedding.unwrap()).threads[before.thread_index(tid)],
    ensures
        (StoreView { threads: before.threads.update(before.thread_index(tid), nv), messages: before.messages }).wf(),
{
    let i = before.thread_index(tid);
    let after = StoreView { threads: before.threads.update(i, nv), messages: before.messages };
    assert(before.threads[i].id == tid);
    assert forall|a: int, b: int| 0 <= a < after.threads.len() && 0 <= b < after.threads.len() && a != b implies #[trigger] after.threads[a].id != #[trigger] after.threads[b].id by {
        assert(before.threads[a].id == after.threads[a].id);
        assert(before.threads[b].id == after.threads[b].id);
    }
    assert forall|j: int| 0 <= j < after.messages.len() implies after.has_thread(#[trigger] after.messages[j].thread_id) by {
        let t = choose|t: int| 0 <= t < before.threads.len() && #[trigger] before.threads[t].id == before.messages[j].thread_id;
        assert(after.threads[t].id == before.threads[t].id);
    }
}

/// The in-memory store: a table of threads and a table of messages. The set of
/// messages that a thread owns is read off the message table, so it always
/// equals the set of messages whose `thread_id` is that thread.
pub struct Database {
    threads: Vec<Thread>,
    messages: Vec<Message>,
}

pub open spec fn threads_view(v: Seq<Thread>) -> Seq<ThreadView> {
    v.map_values(|t: Thread| t@)
}

pub open spec fn messages_view(v: Seq<Message>) -> Seq<MessageView> {
    v.map_values(|m: Message| m@)
}

impl View for Database {
    type V = StoreView;

    closed spec fn view(&self) -> StoreView {
        StoreView { threads: threads_view(self.threads@), messages: messages_view(self.messages@) }
    }
}

/// The page of a thread's messages that `get_thread_messages` returns.
pub struct ThreadMessages {
    pub messages: Vec<Message>,
    /// How many messages the thread has in all.
    pub total: usize,
    pub offset: usize,
    pub limit: usize,
}

/// Whether `id` is among `ids`.
pub fn contains_id(ids: &Vec<u128>, id: u128) -> (r: bool)
    ensures
        r == ids@.contains(id),
{
    let mut i: usize = 0;
    while i < ids.len()
        invariant
            i <= ids@.len(),
            forall|k: int| 0 <= k < i ==> ids@[k] != id,
        decreases ids.len() - i,
    {
        if ids[i] == id {
            assert(ids@[i as int] == id);
            return true;
        }
        i += 1;
    }
    false
}

impl Database {
    /// An empty store.
    pub fn new() -> (r: Database)
        ensures
            r@ == StoreView::empty(),
            r@.wf(),
    {
        let r = Database { threads: Vec::new(), messages: Vec::new() };
        assert(r@.threads =~= Seq::empty());
        assert(r@.messages =~= Seq::empty());
        r
    }

    fn find_thread(&self, id: u128) -> (r: Option<usize>)
        requires
            self@.wf(),
        ensures
            r is None <==> !self@.has_thread(id),
            r matches Some(i) ==> i < self.threads@.len() && i == self@.thread_index(id),
    {
        let mut i: usize = 0;
        while i < self.threads.len()
            invariant
                self@.wf(),
                i <= self.threads@.len(),
                forall|k: int| 0 <= k < i ==> #[trigger] self.threads@[k].id != id,
            decreases self.threads.len() - i,
        {
            if self.threads[i].id == id {
                assert(self@.threads[i as int].id == id);
                let ghost j = self@.thread_index(id);
                assert(self@.threads[j].id == id);
                return Some(i);
            }
            i += 1;
        }
        assert forall|k: int| 0 <= k < self@.threads.len() implies #[trigger] self@.threads[k].id != id by {
            assert(self@.threads[k] == self.threads@[k]@);
        }
        None
    }

    fn find_message(&self, id: u128) -> (r: Option<usize>)
        requires
            self@.wf(),
        ensures
            r is None <==> !self@.has_message(id),
            r matches Some(i) ==> i < self.messages@.len() && i == self@.message_index(id),
    {
        let mut i: usize = 0;
        while i < self.messages.len()
            invariant
                self@.wf(),
                i <= self.messages@.len(),
                forall|k: int| 0 <= k < i ==> #[trigger] self.messages@[k].id != id,
            decreases self.messages.len() - i,
        {
            if self.messages[i].id == id {
                assert(self@.messages[i as int].id == id);
                let ghost j = self@.message_index(id);
                assert(self@.messages[j].id == id);
                return Some(i);
            }
            i += 1;
        }
        assert forall|k: int| 0 <= k < self@.messages.len() implies #[trigger] self@.messages[k].id != id by {
            assert(self@.messages[k] == self.messages@[k]@);
        }
        None
    }

    /// Adds the empty thread `id`, which no thread has yet.
    fn add_thread(&mut self, id: u128) -> (t: Thread)
        requires
            old(self)@.wf(),
            !old(self)@.has_thread(id),
        ensures
            final(self)@.wf(),
            final(self)@ == old(self)@.with_thread(id),
            t@ == (ThreadView { id, summary: None, summary_embedding: None }),
    {
        let ghost before = self@;
        let t = Thread::with_id(id);
        self.threads.push(t.duplicate());
        assert(self@.threads =~= before.threads.push(t@));
        assert forall|i: int| 0 <= i < self@.messages.len() implies self@.has_thread(
            #[trigger] self@.messages[i].thread_id,
        ) by {
            let k = choose|k: int| 0 <= k < before.threads.len() && #[trigger] before.threads[k].id == before.messages[i].thread_id;
            assert(self@.threads[k].id == self@.messages[i].thread_id);
        }
        t
    }

    /// Adds an empty thread with the given id; fails with `Internal`, leaving the
    /// store as it was, where a thread already has that id.
    pub fn create_thread_with_id(&mut self, id: u128) -> (r: Result<Thread, StoreError>)
        requires
            old(self)@.wf(),
        ensures
            final(self)@.wf(),
            old(self)@.has_thread(id) ==> r == Err::<Thread, StoreError>(StoreError::Internal)
                && final(self)@ == old(self)@,
            !old(self)@.has_thread(id) ==> r is Ok && final(self)@ == old(self)@.with_thread(id),
            r matches Ok(t) ==> t@ == (ThreadView { id, summary: None, summary_embedding: None }),
    {
        match self.find_thread(id) {
            Some(_) => Err(StoreError::Internal),
            None => Ok(self.add_thread(id)),
        }
    }

    /// `drawn` where no thread has it, else the least integer that no thread has.
    fn unused_thread_id(&self, drawn: u128) -> (r: u128)
        requires
            self@.wf(),
        ensures
            !self@.has_thread(r),
            !self@.has_thread(drawn) ==> r == drawn,
    {
        if self.find_thread(drawn).is_none() {
            return drawn;
        }
        let ghost ids = self@.thread_ids();
        proof {
            lemma_some_unused(ids);
        }
        let n = self.threads.len();
        let mut c: u128 = 0;
        while self.find_thread(c).is_some()
            invariant
                self@.wf(),
                n as int == ids.len(),
                ids == self@.thread_ids(),
                c <= ids.len(),
                forall|k: int| 0 <= k < c ==> ids.contains(k),
                exists|w: int| 0 <= w <= ids.len() && !ids.contains(w),
            decreases ids.len() - c,
        {
            assert(ids.contains(c as int)) by {
                let i = choose|i: int| 0 <= i < self@.threads.len() && #[trigger] self@.threads[i].id == c;
                assert(ids[i] == c as int);
            }
            proof {
                if c as int == ids.len() {
                    let w = choose|w: int| 0 <= w <= ids.len() && !ids.contains(w);
                    assert(ids.contains(w));
                }
            }
            assert(c < n);
            c = c + 1;
        }
        assert(!self@.has_thread(c));
        c
    }

    /// `drawn` where no message has it, else the least integer that no message has.
    fn unused_message_id(&self, drawn: u128) -> (r: u128)
        requires
            self@.wf(),
        ensures
            !self@.has_message(r),
            !self@.has_message(drawn) ==> r == drawn,
    {
        if self.find_message(drawn).is_none() {
            return drawn;
        }
        let ghost ids = self@.message_ids();
        proof {
            lemma_some_unused(ids);
        }
        let n = self.messages.len();
        let mut c: u128 = 0;
        while self.find_message(c).is_some()
            invariant
                self@.wf(),
                n as int == ids.len(),
                ids == self@.message_ids(),
                c <= ids.len(),
                forall|k: int| 0 <= k < c ==> ids.contains(k),
                exists|w: int| 0 <= w <= ids.len() && !ids.contains(w),
            decreases ids.len() - c,
        {
            assert(ids.contains(c as int)) by {
                let i = choose|i: int| 0 <= i < self@.messages.len() && #[trigger] self@.messages[i].id == c;
                assert(ids[i] == c as int);
            }
            proof {
                if c as int == ids.len() {
                    let w = choose|w: int| 0 <= w <= ids.len() && !ids.contains(w);
                    assert(ids.contains(w));
                }
            }
            assert(c < n);
            c = c + 1;
        }
        assert(!self@.has_message(c));
        c
    }

    /// Adds an empty thread with a fresh random id. Should the drawn id be
    /// taken, the least id that no thread has is used instead.
    pub fn create_thread(&mut self) -> (t: Thread)
        requires
            old(self)@.wf(),
        ensures
            final(self)@.wf(),
            !old(self)@.has_thread(t.id),
            final(self)@ == old(self)@.with_thread(t.id),
            t@ == (ThreadView { id: t.id, summary: None, summary_embedding: None }),
    {
        let id = self.unused_thread_id(random_id());
        self.add_thread(id)
    }

    /// Removes thread `id` and every message it owns; `ThreadNotFound`, leaving
    /// the store as it was, where there is no such thread.
    pub fn delete_thread(&mut self, id: u128) -> (r: Result<(), StoreError>)
        requires
            old(self)@.wf(),
        ensures
            final(self)@.wf(),
            r is Ok <==> old(self)@.has_thread(id),
            r is Ok ==> final(self)@ == old(self)@.without_thread(id),
            r matches Err(e) ==> e == StoreError::ThreadNotFound && final(self)@ == old(self)@,
    {
        let i = match self.find_thread(id) {
            Some(i) => i,
            None => return Err(StoreError::ThreadNotFound),
        };
        let ghost before = self@;
        let kept = self.messages_where(id, false);
        let _ = self.threads.remove(i);
        self.messages = kept;
        assert(self@ == before.without_thread(id)) by {
            assert(self@.threads =~= before.threads.remove(i as int));
        }
        proof {
            lemma_without_thread_wf(before, id);
        }
        Ok(())
    }

    /// Copies of the messages of thread `tid` where `same` holds, else of all
    /// other messages; in store order.
    fn messages_where(&self, tid: u128, same: bool) -> (r: Vec<Message>)
        ensures
            same ==> messages_view(r@) == self@.messages.filter(|m: MessageView| m.thread_id == tid),
            !same ==> messages_view(r@) == self@.messages.filter(|m: MessageView| m.thread_id != tid),
    {
        let ghost ms = self@.messages;
        let ghost sel = |m: MessageView| m.thread_id == tid;
        let ghost other = |m: MessageView| m.thread_id != tid;
        let mut r: Vec<Message> = Vec::new();
        let mut k: usize = 0;
        while k < self.messages.len()
            invariant
                ms == self@.messages,
                k <= self.messages@.len(),
                sel == (|m: MessageView| m.thread_id == tid),
                other == (|m: MessageView| m.thread_id != tid),
                same ==> messages_view(r@) == ms.subrange(0, k as int).filter(sel),
                !same ==> messages_view(r@) == ms.subrange(0, k as int).filter(other),
            decreases self.messages.len() - k,
        {
            let ghost sub = ms.subrange(0, k as int + 1);
            assert(sub.drop_last() =~= ms.subrange(0, k as int));
            assert(sub.last() == self.messages@[k as int]@);
            reveal(Seq::filter);
            if (self.messages[k].thread_id == tid) == same {
                let ghost old_r = r@;
                r.push(self.messages[k].duplicate());
                assert(messages_view(r@) =~= messages_view(old_r).push(self.messages@[k as int]@));
            }
            k += 1;
        }
        assert(ms.subrange(0, k as int) =~= ms);
        r
    }

    /// Stores `msg` in its thread, after every message created at or before it.
    /// `ThreadNotFound` where its thread does not exist, `Internal` where its id
    /// is taken; either way the store stays as it was.
    #[verifier::rlimit(40)]
    pub fn insert_message(&mut self, msg: Message) -> (r: Result<Message, StoreError>)
        requires
            old(self)@.wf(),
        ensures
            final(self)@.wf(),
            !old(self)@.has_thread(msg.thread_id) ==> r == Err::<Message, StoreError>(StoreError::ThreadNotFound),
            old(self)@.has_thread(msg.thread_id) && old(self)@.has_message(msg.id) ==> r == Err::<Message, StoreError>(StoreError::Internal),
            old(self)@.has_thread(msg.thread_id) && !old(self)@.has_message(msg.id) ==> r is Ok,
            r matches Ok(m) ==> m@ == msg@ && final(self)@ == old(self)@.with_message(msg@),
            r is Err ==> final(self)@ == old(self)@,
    {
        if self.find_thread(msg.thread_id).is_none() {
            return Err(StoreError::ThreadNotFound);
        }
        if self.find_message(msg.id).is_some() {
            return Err(StoreError::Internal);
        }
        let ghost before = self@;
        let ghost ms = before.messages;
        let now = msg.created_at;
        let mut p: usize = self.messages.len();
        assert(ms.subrange(0, p as int) =~= ms);
        while p > 0 && self.messages[p - 1].created_at > now
            invariant
                self@ == before,
                ms == before.messages,
                p <= ms.len(),
                insert_pos(ms, now) == insert_pos(ms.subrange(0, p as int), now),
                forall|k: int| p <= k < ms.len() ==> now < #[trigger] ms[k].created_at,
            decreases p,
        {
            assert(self.messages@[p - 1]@ == ms[p - 1]);
            assert(ms.subrange(0, p as int).drop_last() =~= ms.subrange(0, p - 1));
            p -= 1;
        }
        assert(p > 0 ==> self.messages@[p - 1]@ == ms[p - 1]);
        assert(insert_pos(ms, now) == p);
        let out = msg.duplicate();
        self.messages.insert(p, msg);
        assert(self@.messages =~= ms.insert(p as int, out@));
        proof {
            lemma_with_message_wf(before, out@);
        }
        Ok(out)
    }

    /// Creates a message with the given body in thread `thread_id`, with a fresh
    /// random id and the current time; `ThreadNotFound`, the store left as it
    /// was, where there is no such thread. Should the drawn id be taken, the
    /// least id that no message has is used instead.
    pub fn create_message(&mut self, thread_id: u128, input: CreateMessage) -> (r: Result<Message, StoreError>)
        requires
            old(self)@.wf(),
        ensures
            final(self)@.wf(),
            r is Ok <==> old(self)@.has_thread(thread_id),
            r matches Ok(m) ==> m.thread_id == thread_id && m@.content == input.content@
                && m@.embedding is None && !old(self)@.has_message(m.id)
                && final(self)@ == old(self)@.with_message(m@),
            r matches Err(e) ==> e == StoreError::ThreadNotFound && final(self)@ == old(self)@,
    {
        if self.find_thread(thread_id).is_none() {
            return Err(StoreError::ThreadNotFound);
        }
        let mut msg = input.into_message(thread_id);
        msg.id = self.unused_message_id(msg.id);
        self.insert_message(msg)
    }

    /// The index of message `mid` where thread `tid` exists, or the error that
    /// names what is missing.
    fn locate(&self, tid: u128, mid: u128) -> (r: Result<usize, StoreError>)
        requires
            self@.wf(),
        ensures
            !self@.has_thread(tid) ==> r == Err::<usize, StoreError>(StoreError::ThreadNotFound),
            self@.has_thread(tid) && !self@.has_message(mid) ==> r == Err::<usize, StoreError>(StoreError::MessageNotFound),
            self@.has_thread(tid) && self@.has_message(mid) ==> r is Ok,
            r matches Ok(i) ==> i < self.messages@.len() && i == self@.message_index(mid),
    {
        if self.find_thread(tid).is_none() {
            return Err(StoreError::ThreadNotFound);
        }
        match self.find_message(mid) {
            Some(i) => Ok(i),
            None => Err(StoreError::MessageNotFound),
        }
    }

    /// Puts `msg` at index `i` in place of a message with the same id, thread
    /// and time.
    fn replace_message(&mut self, i: usize, msg: Message)
        requires
            old(self)@.wf(),
            i < old(self).messages@.len(),
            msg.id == old(self)@.messages[i as int].id,
            msg.thread_id == old(self)@.messages[i as int].thread_id,
            msg.created_at == old(self)@.messages[i as int].created_at,
        ensures
            final(self)@.wf(),
            final(self)@ == (StoreView { threads: old(self)@.threads, messages: old(self)@.messages.update(i as int, msg@) }),
    {
        let ghost before = self@;
        let ghost nv = msg@;
        self.messages.set(i, msg);
        assert(self@.messages =~= before.messages.update(i as int, nv));
        proof {
            lemma_update_message_wf(before, i as int, nv);
        }
    }

    /// Replaces the content of message `mid`, keeping its id, thread, time and
    /// embedding. `ThreadNotFound` where thread `tid` does not exist,
    /// `MessageNotFound` where the message does not; the store then stays as it was.
    pub fn update_message(&mut self, tid: u128, mid: u128, update: UpdateMessage) -> (r: Result<Message, StoreError>)
        requires
            old(self)@.wf(),
        ensures
            final(self)@.wf(),
            !old(self)@.has_thread(tid) ==> r == Err::<Message, StoreError>(StoreError::ThreadNotFound),
            old(self)@.has_thread(tid) && !old(self)@.has_message(mid) ==> r == Err::<Message, StoreError>(StoreError::MessageNotFound),
            old(self)@.has_thread(tid) && old(self)@.has_message(mid) ==> r is Ok,
            r matches Ok(m) ==> final(self)@ == old(self)@.with_content(mid, update.content@)
                && m@ == (MessageView { content: update.content@, ..old(self)@.message(mid) }),
            r is Err ==> final(self)@ == old(self)@,
    {
        let i = match self.locate(tid, mid) {
            Ok(i) => i,
            Err(e) => return Err(e),
        };
        let cur = &self.messages[i];
        let msg = Message {
            id: cur.id,
            thread_id: cur.thread_id,
            content: update.content,
            created_at: cur.created_at,
            embedding: duplicate_optional_embedding(&cur.embedding),
        };
        let out = msg.duplicate();
        self.replace_message(i, msg);
        Ok(out)
    }

    /// Removes message `mid`; fails as `update_message` does.
    pub fn delete_message(&mut self, tid: u128, mid: u128) -> (r: Result<(), StoreError>)
        requires
            old(self)@.wf(),
        ensures
            final(self)@.wf(),
            !old(self)@.has_thread(tid) ==> r == Err::<(), StoreError>(StoreError::ThreadNotFound),
            old(self)@.has_thread(tid) && !old(self)@.has_message(mid) ==> r == Err::<(), StoreError>(StoreError::MessageNotFound),
            old(self)@.has_thread(tid) && old(self)@.has_message(mid) ==> r is Ok,
            r is Ok ==> final(self)@ == old(self)@.without_message(mid),
            r is Err ==> final(self)@ == old(self)@,
    {
        let i = match self.locate(tid, mid) {
            Ok(i) => i,
            Err(e) => return Err(e),
        };
        let ghost before = self@;
        let _ = self.messages.remove(i);
        assert(self@.messages =~= before.messages.remove(i as int));
        proof {
            lemma_without_message_wf(before, mid);
        }
        Ok(())
    }

    /// Attaches embedding `e` to message `mid`; `MessageNotFound`, the store left
    /// as it was, where there is no such message.
    pub fn save_message_embedding(&mut self, mid: u128, e: &Embedding) -> (r: Result<(), StoreError>)
        requires
            old(self)@.wf(),
        ensures
            final(self)@.wf(),
            r is Ok <==> old(self)@.has_message(mid),
            r is Ok ==> final(self)@ == old(self)@.with_message_embedding(mid, e@),
            r matches Err(err) ==> err == StoreError::MessageNotFound && final(self)@ == old(self)@,
    {
        let i = match self.find_message(mid) {
            Some(i) => i,
            None => return Err(StoreError::MessageNotFound),
        };
        let cur = &self.messages[i];
        let msg = Message {
            id: cur.id,
            thread_id: cur.thread_id,
            content: cur.content.duplicate(),
            created_at: cur.created_at,
            embedding: Some(duplicate_embedding(e)),
        };
        self.replace_message(i, msg);
        Ok(())
    }

    /// Replaces thread `tid`'s summary and summary embedding in one step;
    /// `ThreadNotFound`, the store left as it was, where the thread is gone.
    pub fn update_thread_summary_and_embedding(&mut self, tid: u128, summary: String, e: &Embedding) -> (r: Result<(), StoreError>)
        requires
            old(self)@.wf(),
        ensures
            final(self)@.wf(),
            r is Ok <==> old(self)@.has_thread(tid),
            r is Ok ==> final(self)@ == old(self)@.with_summary(tid, summary@, e@),
            r matches Err(err) ==> err == StoreError::ThreadNotFound && final(self)@ == old(self)@,
    {
        let i = match self.find_thread(tid) {
            Some(i) => i,
            None => return Err(StoreError::ThreadNotFound),
        };
        let ghost before = self@;
        let t = Thread { id: tid, summary: Some(summary), summary_embedding: Some(duplicate_embedding(e)) };
        let ghost nv = t@;
        self.threads.set(i, t);
        assert(self@.threads =~= before.threads.update(i as int, nv));
        proof {
            lemma_with_summary_wf(before, tid, nv);
        }
        Ok(())
    }

    /// A page of thread `tid`'s messages, oldest first: from `offset` (default
    /// 0), at most `limit` of them (default: all), with the thread's total count.
    /// An offset past the end gives an empty page. `ThreadNotFound` where there
    /// is no such thread.
    pub fn get_thread_messages(&self, tid: u128, limit: Option<usize>, offset: Option<usize>) -> (r: Result<ThreadMessages, StoreError>)
        requires
            self@.wf(),
        ensures
            r is Ok <==> self@.has_thread(tid),
            r matches Err(e) ==> e == StoreError::ThreadNotFound,
            r matches Ok(p) ==> {
                &&& p.total == self@.messages_of(tid).len()
                &&& p.offset == match offset { Some(o) => o, None => 0 }
                &&& p.limit == match limit { Some(l) => l, None => p.total }
                &&& messages_view(p.messages@) == page(self@.messages_of(tid), p.offset as int, p.limit as int)
            },
    {
        if self.find_thread(tid).is_none() {
            return Err(StoreError::ThreadNotFound);
        }
        let all = self.messages_where(tid, true);
        let ghost mine = messages_view(all@);
        assert(mine == self@.messages_of(tid));
        let total = all.len();
        let off = match offset {
            Some(o) => o,
            None => 0,
        };
        let lim = match limit {
            Some(l) => l,
            None => total,
        };
        let start = if off < total { off } else { total };
        let end = if off >= total {
            total
        } else if lim >= total - off {
            total
        } else {
            off + lim
        };
        let mut out: Vec<Message> = Vec::new();
        let mut j: usize = start;
        while j < end
            invariant
                start <= j <= end <= all@.len(),
                messages_view(out@) == messages_view(all@).subrange(start as int, j as int),
            decreases end - j,
        {
            let ghost old_out = out@;
            out.push(all[j].duplicate());
            assert(messages_view(out@) =~= messages_view(old_out).push(all@[j as int]@));
            j += 1;
            assert(messages_view(out@) =~= messages_view(all@).subrange(start as int, j as int));
        }
        assert(page(mine, off as int, lim as int) =~= mine.subrange(start as int, end as int));
        Ok(ThreadMessages { messages: out, total, offset: off, limit: lim })
    }

    /// The requested threads that exist and carry a summary embedding, in order
    /// of creation; unknown ids are passed over.
    pub fn get_threads_with_embeddings(&self, ids: &Vec<u128>) -> (r: Vec<Thread>)
        ensures
            threads_view(r@) == self@.threads.filter(
                |t: ThreadView| ids@.contains(t.id) && t.summary_embedding is Some,
            ),
    {
        let ghost ts = self@.threads;
        let ghost sel = |t: ThreadView| ids@.contains(t.id) && t.summary_embedding is Some;
        let mut r: Vec<Thread> = Vec::new();
        let mut k: usize = 0;
        while k < self.threads.len()
            invariant
                ts == self@.threads,
                k <= self.threads@.len(),
                sel == (|t: ThreadView| ids@.contains(t.id) && t.summary_embedding is Some),
                threads_view(r@) == ts.subrange(0, k as int).filter(sel),
            decreases self.threads.len() - k,
        {
            let ghost sub = ts.subrange(0, k as int + 1);
            assert(sub.drop_last() =~= ts.subrange(0, k as int));
            assert(sub.last() == self.threads@[k as int]@);
            reveal(Seq::filter);
            if self.threads[k].summary_embedding.is_some() && contains_id(ids, self.threads[k].id) {
                let ghost old_r = r@;
                r.push(self.threads[k].duplicate());
                assert(threads_view(r@) =~= threads_view(old_r).push(self.threads@[k as int]@));
            }
            k += 1;
        }
        assert(ts.subrange(0, k as int) =~= ts);
        r
    }

    /// Every thread, in order of creation.
    pub fn list_threads(&self) -> (r: Vec<Thread>)
        ensures
            threads_view(r@) == self@.threads,
    {
        let mut r: Vec<Thread> = Vec::new();
        let mut i: usize = 0;
        while i < self.threads.len()
            invariant
                i <= self.threads@.len(),
                r@.len() == i,
                forall|k: int| 0 <= k < i ==> #[trigger] r@[k]@ == self.threads@[k]@,
            decreases self.threads.len() - i,
        {
            r.push(self.threads[i].duplicate());
            i += 1;
        }
        assert(threads_view(r@) =~= self@.threads);
        r
    }

    /// The thread `id`; `ThreadNotFound` where there is none.
    pub fn get_thread(&self, id: u128) -> (r: Result<Thread, StoreError>)
        requires
            self@.wf(),
        ensures
            r is Ok <==> self@.has_thread(id),
            r matches Ok(t) ==> t@ == self@.thread(id),
            r matches Err(e) ==> e == StoreError::ThreadNotFound,
    {
        match self.find_thread(id) {
            Some(i) => Ok(self.threads[i].duplicate()),
            None => Err(StoreError::ThreadNotFound),
        }
    }
}

} // verus!
