use vstd::prelude::*;

use crate::database::{
    lemma_filter_keeps_wf, lemma_with_message_wf, lemma_with_thread_wf, lemma_without_message_wf,
    lemma_update_message_wf, lemma_without_thread_wf, ordered_by_time, page, StoreView,
};
use crate::message::{ContentView, MessageView};

verus! {

broadcast use vstd::seq_lib::group_filter_ensures;

/// A call on the store, with the ids and time it drew.
pub enum StoreOp {
    CreateThread(u128),
    DeleteThread(u128),
    CreateMessage(MessageView),
    UpdateMessage(u128, u128, ContentView),
    DeleteMessage(u128, u128),
}

/// The store after `op`, as that operation's contract fixes it; an operation
/// that fails leaves the store as it was.
pub open spec fn step(s: StoreView, op: StoreOp) -> StoreView {
    match op {
        StoreOp::CreateThread(id) => if !s.has_thread(id) { s.with_thread(id) } else { s },
        StoreOp::DeleteThread(id) => if s.has_thread(id) { s.without_thread(id) } else { s },
        StoreOp::CreateMessage(m) => if s.has_thread(m.thread_id) && !s.has_message(m.id) {
            s.with_message(m)
        } else {
            s
        },
        StoreOp::UpdateMessage(tid, mid, c) => if s.has_thread(tid) && s.has_message(mid) {
            s.with_content(mid, c)
        } else {
            s
        },
        StoreOp::DeleteMessage(tid, mid) => if s.has_thread(tid) && s.has_message(mid) {
            s.without_message(mid)
        } else {
            s
        },
    }
}

/// The store after the operations `ops`, in order.
pub open spec fn run(s: StoreView, ops: Seq<StoreOp>) -> StoreView
    decreases ops.len(),
{
    if ops.len() == 0 {
        s
    } else {
        step(run(s, ops.drop_last()), ops.last())
    }
}

/// How many of `ops` created a message in thread `tid`.
pub open spec fn created_in(s: StoreView, ops: Seq<StoreOp>, tid: u128) -> int
    decreases ops.len(),
{
    if ops.len() == 0 {
        0
    } else {
        let before = run(s, ops.drop_last());
        created_in(s, ops.drop_last(), tid) + match ops.last() {
            StoreOp::CreateMessage(m) => if m.thread_id == tid && before.has_thread(m.thread_id)
                && !before.has_message(m.id) {
                1int
            } else {
                0
            },
            _ => 0,
        }
    }
}

/// How many of `ops` deleted a message of thread `tid`.
pub open spec fn deleted_in(s: StoreView, ops: Seq<StoreOp>, tid: u128) -> int
    decreases ops.len(),
{
    if ops.len() == 0 {
        0
    } else {
        let before = run(s, ops.drop_last());
        deleted_in(s, ops.drop_last(), tid) + match ops.last() {
            StoreOp::DeleteMessage(t, mid) => if before.has_thread(t) && before.has_message(mid)
                && before.message(mid).thread_id == tid {
                1int
            } else {
                0
            },
            _ => 0,
        }
    }
}

/// Every operation keeps the store well formed.
pub proof fn step_keeps_wf(s: StoreView, op: StoreOp)
    requires
        s.wf(),
    ensures
        step(s, op).wf(),
{
    match op {
        StoreOp::CreateThread(id) => if !s.has_thread(id) {
            lemma_with_thread_wf(s, id);
        },
        StoreOp::DeleteThread(id) => if s.has_thread(id) {
            lemma_without_thread_wf(s, id);
        },
        StoreOp::CreateMessage(m) => if s.has_thread(m.thread_id) && !s.has_message(m.id) {
            lemma_with_message_wf(s, m);
        },
        StoreOp::UpdateMessage(tid, mid, c) => if s.has_thread(tid) && s.has_message(mid) {
            let i = s.message_index(mid);
            lemma_update_message_wf(s, i, MessageView { content: c, ..s.message(mid) });
        },
        StoreOp::DeleteMessage(tid, mid) => if s.has_thread(tid) && s.has_message(mid) {
            lemma_without_message_wf(s, mid);
        },
    }
}

/// Any sequence of operations keeps the store well formed: every message
/// belongs to a live thread, so no message is ever orphaned.
pub proof fn run_keeps_wf(s: StoreView, ops: Seq<StoreOp>)
    requires
        s.wf(),
    ensures
        run(s, ops).wf(),
    decreases ops.len(),
{
    if ops.len() > 0 {
        run_keeps_wf(s, ops.drop_last());
        step_keeps_wf(run(s, ops.drop_last()), ops.last());
    }
}

/// A well-formed store without thread `id` holds no message of it.
proof fn lemma_no_messages_of_missing(s: StoreView, id: u128)
    requires
        s.wf(),
        !s.has_thread(id),
    ensures
        s.messages_of(id).len() == 0,
        forall|j: int| 0 <= j < s.messages.len() ==> (#[trigger] s.messages[j]).thread_id != id,
{
    let sel = |m: MessageView| m.thread_id == id;
    assert forall|j: int| 0 <= j < s.messages.len() implies (#[trigger] s.messages[j]).thread_id != id by {
        assert(s.has_thread(s.messages[j].thread_id));
    }
    if s.messages_of(id).len() > 0 {
        lemma_filter_keeps_wf(s.messages, sel);
        assert(sel(s.messages.filter(sel)[0]));
        assert(s.messages.contains(s.messages.filter(sel)[0]));
    }
}

/// After thread `id` is deleted, it stays gone through any later operations
/// that do not create a thread with that same id: `get_thread` and
/// `get_thread_messages` fail with `ThreadNotFound`, and no message names it.
pub proof fn deleted_thread_stays_gone(s: StoreView, id: u128, ops: Seq<StoreOp>)
    requires
        s.wf(),
        s.has_thread(id),
        forall|i: int| 0 <= i < ops.len() ==> ops[i] != StoreOp::CreateThread(id),
    ensures
        run(s.without_thread(id), ops).wf(),
        !run(s.without_thread(id), ops).has_thread(id),
        run(s.without_thread(id), ops).messages_of(id).len() == 0,
        forall|j: int| 0 <= j < run(s.without_thread(id), ops).messages.len()
            ==> (#[trigger] run(s.without_thread(id), ops).messages[j]).thread_id != id,
    decreases ops.len(),
{
    deleted_thread_is_gone(s, id);
    let d = s.without_thread(id);
    run_keeps_wf(d, ops);
    lemma_stays_missing(d, id, ops);
    lemma_no_messages_of_missing(run(d, ops), id);
}

/// A thread that is missing stays missing through operations that do not
/// create it.
proof fn lemma_stays_missing(s: StoreView, id: u128, ops: Seq<StoreOp>)
    requires
        s.wf(),
        !s.has_thread(id),
        forall|i: int| 0 <= i < ops.len() ==> ops[i] != StoreOp::CreateThread(id),
    ensures
        !run(s, ops).has_thread(id),
    decreases ops.len(),
{
    if ops.len() > 0 {
        let d = ops.drop_last();
        assert forall|i: int| 0 <= i < d.len() implies d[i] != StoreOp::CreateThread(id) by {
            assert(d[i] == ops[i]);
        }
        lemma_stays_missing(s, id, d);
        run_keeps_wf(s, d);
        let b = run(s, d);
        assert(ops.last() == ops[ops.len() - 1]);
        match ops.last() {
            StoreOp::CreateThread(x) => if !b.has_thread(x) {
                assert forall|k: int| 0 <= k < b.with_thread(x).threads.len() implies #[trigger] b.with_thread(x).threads[k].id != id by {
                    if k < b.threads.len() {
                        assert(b.with_thread(x).threads[k] == b.threads[k]);
                    }
                }
            },
            StoreOp::DeleteThread(x) => if b.has_thread(x) {
                let i = b.thread_index(x);
                assert forall|k: int| 0 <= k < b.without_thread(x).threads.len() implies #[trigger] b.without_thread(x).threads[k].id != id by {
                    let k0 = if k < i { k } else { k + 1 };
                    assert(b.without_thread(x).threads[k] == b.threads[k0]);
                }
            },
            _ => {},
        }
    }
}

/// Filtering by a weaker predicate first changes nothing.
proof fn lemma_filter_filter(s: Seq<MessageView>, p: spec_fn(MessageView) -> bool, q: spec_fn(MessageView) -> bool)
    requires
        forall|x: MessageView| #[trigger] q(x) ==> p(x),
    ensures
        s.filter(p).filter(q) == s.filter(q),
    decreases s.len(),
{
    reveal(Seq::filter);
    if s.len() > 0 {
        let d = s.drop_last();
        lemma_filter_filter(d, p, q);
        let f = d.filter(p);
        if p(s.last()) {
            assert(f.push(s.last()).drop_last() =~= f);
        }
    }
}

/// Replacing a message's content leaves every thread's total as it was.
proof fn lemma_update_keeps_totals(s: StoreView, mid: u128, c: ContentView, tid: u128)
    requires
        s.wf(),
        s.has_message(mid),
    ensures
        s.with_content(mid, c).messages_of(tid).len() == s.messages_of(tid).len(),
{
    let ms = s.messages;
    let i = s.message_index(mid);
    let x = MessageView { content: c, ..s.message(mid) };
    let a = ms.subrange(0, i);
    let b = ms.subrange(i + 1, ms.len() as int);
    assert(ms =~= a + seq![ms[i]] + b);
    assert(ms.update(i, x) =~= a + seq![x] + b);
    lemma_filter_split_len(a, ms[i], b, |m: MessageView| m.thread_id == tid);
    lemma_filter_split_len(a, x, b, |m: MessageView| m.thread_id == tid);
}

/// How one operation other than deleting thread `tid` changes its total.
proof fn lemma_step_total(b: StoreView, op: StoreOp, tid: u128)
    requires
        b.wf(),
        op != StoreOp::DeleteThread(tid),
    ensures
        step(b, op).messages_of(tid).len() == b.messages_of(tid).len() + match op {
            StoreOp::CreateMessage(m) => if m.thread_id == tid && b.has_thread(m.thread_id)
                && !b.has_message(m.id) {
                1int
            } else {
                0
            },
            StoreOp::DeleteMessage(t, mid) => if b.has_thread(t) && b.has_message(mid)
                && b.message(mid).thread_id == tid {
                -1int
            } else {
                0
            },
            _ => 0,
        },
{
    match op {
        StoreOp::CreateThread(_) => {},
        StoreOp::DeleteThread(x) => if b.has_thread(x) {
            lemma_filter_filter(
                b.messages,
                |m: MessageView| m.thread_id != x,
                |m: MessageView| m.thread_id == tid,
            );
        },
        StoreOp::CreateMessage(m) => if b.has_thread(m.thread_id) && !b.has_message(m.id) {
            create_adds_one_to_total(b, m, tid);
        },
        StoreOp::UpdateMessage(t, mid, c) => if b.has_thread(t) && b.has_message(mid) {
            lemma_update_keeps_totals(b, mid, c, tid);
        },
        StoreOp::DeleteMessage(t, mid) => if b.has_thread(t) && b.has_message(mid) {
            let i = b.message_index(mid);
            assert(b.messages[i].id == mid);
            delete_takes_one_from_total(b, b.message(mid).thread_id, mid, tid);
        },
    }
}

/// Through any operations that do not delete thread `tid`, its total grows by
/// the messages created in it and shrinks by those deleted from it, whatever
/// page is asked for.
pub proof fn total_is_created_minus_deleted(s: StoreView, tid: u128, ops: Seq<StoreOp>)
    requires
        s.wf(),
        forall|i: int| 0 <= i < ops.len() ==> ops[i] != StoreOp::DeleteThread(tid),
    ensures
        run(s, ops).messages_of(tid).len() == s.messages_of(tid).len() + created_in(s, ops, tid)
            - deleted_in(s, ops, tid),
    decreases ops.len(),
{
    if ops.len() > 0 {
        let d = ops.drop_last();
        assert forall|i: int| 0 <= i < d.len() implies d[i] != StoreOp::DeleteThread(tid) by {
            assert(d[i] == ops[i]);
        }
        total_is_created_minus_deleted(s, tid, d);
        run_keeps_wf(s, d);
        assert(ops.last() == ops[ops.len() - 1]);
        lemma_step_total(run(s, d), ops.last(), tid);
    }
}

/// How many items of `a + [x] + b` a filter keeps.
proof fn lemma_filter_split_len(a: Seq<MessageView>, x: MessageView, b: Seq<MessageView>, p: spec_fn(MessageView) -> bool)
    ensures
        (a + seq![x] + b).filter(p).len() == a.filter(p).len() + (if p(x) { 1int } else { 0 }) + b.filter(p).len(),
        (a + b).filter(p).len() == a.filter(p).len() + b.filter(p).len(),
{
    Seq::filter_distributes_over_add(a + seq![x], b, p);
    Seq::filter_distributes_over_add(a, seq![x], p);
    Seq::filter_distributes_over_add(a, b, p);
    reveal_with_fuel(Seq::filter, 2);
    assert(seq![x].drop_last() =~= Seq::<MessageView>::empty());
}

/// A thread's messages, as `get_thread_messages` hands them out, are in
/// non-decreasing order of creation time.
pub proof fn thread_messages_in_time_order(s: StoreView, tid: u128)
    requires
        s.wf(),
    ensures
        ordered_by_time(s.messages_of(tid)),
{
    lemma_filter_keeps_wf(s.messages, |m: MessageView| m.thread_id == tid);
}

/// Once a thread is deleted, neither it nor any message of it can be read: the
/// store no longer has the thread, so `get_thread` and `get_thread_messages`
/// fail with `ThreadNotFound`, and no message left names it. The store stays
/// well formed, so this holds after any sequence of operations.
pub proof fn deleted_thread_is_gone(s: StoreView, id: u128)
    requires
        s.wf(),
        s.has_thread(id),
    ensures
        s.without_thread(id).wf(),
        !s.without_thread(id).has_thread(id),
        s.without_thread(id).messages_of(id).len() == 0,
        forall|j: int| 0 <= j < s.without_thread(id).messages.len()
            ==> (#[trigger] s.without_thread(id).messages[j]).thread_id != id,
{
    lemma_without_thread_wf(s, id);
    let n = s.without_thread(id);
    let sel = |m: MessageView| m.thread_id == id;
    if n.messages_of(id).len() > 0 {
        lemma_filter_keeps_wf(n.messages, sel);
        assert(sel(n.messages.filter(sel)[0]));
        assert(n.messages.contains(n.messages.filter(sel)[0]));
    }
}

/// Creating a message adds one to the total of its own thread and leaves the
/// totals of all other threads as they were.
pub proof fn create_adds_one_to_total(s: StoreView, m: MessageView, tid: u128)
    requires
        s.wf(),
        s.has_thread(m.thread_id),
        !s.has_message(m.id),
    ensures
        s.with_message(m).messages_of(tid).len() == s.messages_of(tid).len() + (if tid == m.thread_id {
            1int
        } else {
            0
        }),
{
    let ms = s.messages;
    let p = crate::database::insert_pos(ms, m.created_at) as int;
    crate::database::lemma_insert_pos(ms, m.created_at);
    let a = ms.subrange(0, p);
    let b = ms.subrange(p, ms.len() as int);
    assert(ms.insert(p, m) =~= a + seq![m] + b);
    assert(ms =~= a + b);
    lemma_filter_split_len(a, m, b, |x: MessageView| x.thread_id == tid);
}

/// Deleting a message takes one from the total of its thread and leaves the
/// totals of all other threads as they were.
pub proof fn delete_takes_one_from_total(s: StoreView, tid: u128, mid: u128, other: u128)
    requires
        s.wf(),
        s.has_message_in(tid, mid),
    ensures
        s.without_message(mid).messages_of(other).len() + (if other == tid { 1int } else { 0 })
            == s.messages_of(other).len(),
{
    let ms = s.messages;
    let i = s.message_index(mid);
    let w = choose|w: int| 0 <= w < ms.len() && #[trigger] ms[w].id == mid && ms[w].thread_id == tid;
    assert(ms[i].id == mid);
    assert(i == w);
    let a = ms.subrange(0, i);
    let b = ms.subrange(i + 1, ms.len() as int);
    assert(ms =~= a + seq![ms[i]] + b);
    assert(ms.remove(i) =~= a + b);
    lemma_filter_split_len(a, ms[i], b, |x: MessageView| x.thread_id == other);
}

/// With messages created at strictly increasing times, the page at offset 1 of
/// length 2 holds exactly the second and third oldest messages of the thread.
pub proof fn page_of_two_after_one(s: StoreView, tid: u128)
    requires
        s.wf(),
        s.messages_of(tid).len() >= 3,
        forall|i: int, j: int| 0 <= i < j < s.messages_of(tid).len()
            ==> #[trigger] s.messages_of(tid)[i].created_at < #[trigger] s.messages_of(tid)[j].created_at,
    ensures
        page(s.messages_of(tid), 1, 2) == seq![s.messages_of(tid)[1], s.messages_of(tid)[2]],
        forall|k: int| 0 <= k < s.messages_of(tid).len() && k != 0 && k != 1 && k != 2
            ==> s.messages_of(tid)[2].created_at < #[trigger] s.messages_of(tid)[k].created_at,
        s.messages_of(tid)[0].created_at < s.messages_of(tid)[1].created_at,
{
    let mo = s.messages_of(tid);
    assert(page(mo, 1, 2) =~= seq![mo[1], mo[2]]);
    assert forall|k: int| 0 <= k < mo.len() && k != 0 && k != 1 && k != 2 implies mo[2].created_at < #[trigger] mo[k].created_at by {
        assert(mo[2].created_at < mo[k].created_at);
    }
    assert(mo[0].created_at < mo[1].created_at);
}

/// Replacing a message's content and then reading its thread gives the message
/// with the new content and its id, thread and creation time unchanged, and
/// the thread's total unchanged.
pub proof fn update_then_read(s: StoreView, tid: u128, mid: u128, c: ContentView)
    requires
        s.wf(),
        s.has_message_in(tid, mid),
    ensures
        s.with_content(mid, c).messages_of(tid).contains(MessageView { content: c, ..s.message(mid) }),
        s.message(mid).id == mid,
        s.message(mid).thread_id == tid,
        s.with_content(mid, c).messages_of(tid).len() == s.messages_of(tid).len(),
{
    let ms = s.messages;
    let i = s.message_index(mid);
    let w = choose|w: int| 0 <= w < ms.len() && #[trigger] ms[w].id == mid && ms[w].thread_id == tid;
    assert(ms[i].id == mid);
    assert(i == w);
    let x = MessageView { content: c, ..s.message(mid) };
    let n = ms.update(i, x);
    let sel = |m: MessageView| m.thread_id == tid;
    assert(n[i] == x);
    n.lemma_filter_contains(sel, i);
    let a = ms.subrange(0, i);
    let b = ms.subrange(i + 1, ms.len() as int);
    assert(ms =~= a + seq![ms[i]] + b);
    assert(n =~= a + seq![x] + b);
    lemma_filter_split_len(a, ms[i], b, sel);
    lemma_filter_split_len(a, x, b, sel);
}

/// A thread deleted while a message is created on it leaves no orphan, in
/// either order: deleted first, the thread is gone and the creation fails with
/// `ThreadNotFound`; created first, the message is stored under the live thread,
/// and the delete then removes it with the thread.
pub proof fn delete_and_create_leave_no_orphan(s: StoreView, m: MessageView)
    requires
        s.wf(),
        s.has_thread(m.thread_id),
        !s.has_message(m.id),
    ensures
        !s.without_thread(m.thread_id).has_thread(m.thread_id),
        s.with_message(m).wf(),
        s.with_message(m).has_thread(m.thread_id),
        s.with_message(m).messages_of(m.thread_id).contains(m),
        s.with_message(m).without_thread(m.thread_id).wf(),
        s.with_message(m).without_thread(m.thread_id).messages_of(m.thread_id).len() == 0,
{
    let t = m.thread_id;
    deleted_thread_is_gone(s, t);
    lemma_with_message_wf(s, m);
    let n = s.with_message(m);
    let p = crate::database::insert_pos(s.messages, m.created_at) as int;
    crate::database::lemma_insert_pos(s.messages, m.created_at);
    assert(n.messages[p] == m);
    n.messages.lemma_filter_contains(|x: MessageView| x.thread_id == t, p);
    deleted_thread_is_gone(n, t);
}

} // verus!
