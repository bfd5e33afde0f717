//! What the dispatcher guarantees, stated over the model of the store and
//! proved for every store, every request and every sequence of requests.
//!
//! Requests reach the store one at a time: each runs in a transaction of its
//! own, so a history of concurrent requests is some sequence of them.

use vstd::prelude::*;
use crate::batch::{batch_size_of, MAX_BATCH_SIZE, MIN_BATCH_SIZE};
use crate::invariants::{
    lemma_acquire_wf, lemma_heartbeat_wf, lemma_oldest_stale_exists, lemma_oldest_stale_is,
    lemma_record_wf, lemma_remove_wf, lemma_row_of, lemma_row_of_exists, lemma_set_cursor_wf,
    lemma_submit_wf,
};
use crate::model::{
    has_result, record_all, record_one, result_ids, ResultModel, StoreModel, TaskRange,
    LEASE_TIMEOUT_SECS, RELEASE_BACKDATE_SECS,
};

verus! {

/// One request to the store: a worker's, with the time at which it is
/// served, or the operator's for the cursor to stand at `start_id`.
pub enum Request {
    Acquire { worker: Seq<char>, batch_size: int, now: int },
    Heartbeat { task_id: int, worker: Seq<char>, now: int },
    Submit { task_id: int, ids: Seq<int>, now: int },
    Release { task_id: int, worker: Seq<char>, now: int },
    SetCursor { start_id: int },
}

/// The store after one request.
pub open spec fn step(s: StoreModel, request: Request) -> StoreModel {
    match request {
        Request::Acquire { worker, batch_size, now } => s.after_acquire(worker, batch_size, now),
        Request::Heartbeat { task_id, worker, now } => s.after_heartbeat(task_id, worker, now),
        Request::Submit { task_id, ids, now } => s.after_submit(task_id, ids, now),
        Request::Release { task_id, worker, now } => s.after_release(task_id, worker, now),
        Request::SetCursor { start_id } => s.after_set_cursor(start_id),
    }
}

/// The store after a sequence of requests, served first to last.
pub open spec fn run(s: StoreModel, requests: Seq<Request>) -> StoreModel
    decreases requests.len(),
{
    if requests.len() == 0 {
        s
    } else {
        step(run(s, requests.drop_last()), requests.last())
    }
}

/// The range that request `k` of a history carves anew, if it carves one: a
/// request for a task that finds no stale lease to take over.
pub open spec fn carved_at(s: StoreModel, requests: Seq<Request>, k: int) -> Option<TaskRange> {
    let before = run(s, requests.take(k));
    match requests[k] {
        Request::Acquire { worker, batch_size, now } => if before.has_stale(now) {
            None
        } else {
            before.new_task_reply(batch_size)
        },
        _ => None,
    }
}

/// Every request keeps the store well formed.
pub proof fn lemma_step_wf(s: StoreModel, request: Request)
    requires
        s.wf(),
    ensures
        step(s, request).wf(),
{
    match request {
        Request::Acquire { worker, batch_size, now } => lemma_acquire_wf(
            s,
            worker,
            batch_size,
            now,
        ),
        Request::Heartbeat { task_id, worker, now } => lemma_heartbeat_wf(s, task_id, worker, now),
        Request::Submit { task_id, ids, now } => lemma_submit_wf(s, task_id, ids, now),
        Request::Release { task_id, worker, now } => lemma_heartbeat_wf(s, task_id, worker, now),
        Request::SetCursor { start_id } => lemma_set_cursor_wf(s, start_id),
    }
}

/// Every history keeps the store well formed. In particular the leases of
/// any reachable store cover pairwise disjoint ranges below the cursor.
pub proof fn lemma_run_wf(s: StoreModel, requests: Seq<Request>)
    requires
        s.wf(),
    ensures
        run(s, requests).wf(),
    decreases requests.len(),
{
    if requests.len() > 0 {
        lemma_run_wf(s, requests.drop_last());
        lemma_step_wf(run(s, requests.drop_last()), requests.last());
    }
}

/// No request moves the cursor back, and none takes a task number back.
pub proof fn lemma_step_cursor_monotonic(s: StoreModel, request: Request)
    requires
        s.wf(),
    ensures
        s.cursor <= step(s, request).cursor,
        s.last_task_id <= step(s, request).last_task_id,
{
}

/// The cursor never decreases: after any history, and after any longer
/// history that starts with it, the cursor is at least what it was.
pub proof fn lemma_cursor_never_decreases(s: StoreModel, requests: Seq<Request>, m: int, n: int)
    requires
        s.wf(),
        0 <= m <= n <= requests.len(),
    ensures
        run(s, requests.take(m)).cursor <= run(s, requests.take(n)).cursor,
        run(s, requests.take(m)).last_task_id <= run(s, requests.take(n)).last_task_id,
        s.cursor <= run(s, requests.take(m)).cursor,
    decreases n - m, m,
{
    if m < n {
        lemma_cursor_never_decreases(s, requests, m, n - 1);
        let shorter = requests.take(n - 1);
        assert(requests.take(n).drop_last() =~= shorter);
        lemma_run_wf(s, shorter);
        lemma_step_cursor_monotonic(run(s, shorter), requests.take(n).last());
    } else if m > 0 {
        lemma_cursor_never_decreases(s, requests, m - 1, m - 1);
        let shorter = requests.take(m - 1);
        assert(requests.take(m).drop_last() =~= shorter);
        lemma_run_wf(s, shorter);
        lemma_step_cursor_monotonic(run(s, shorter), requests.take(m).last());
    }
}

/// Ranges are disjoint: two ranges carved anew in one history share no ID,
/// whatever other requests the history holds. The later one starts above
/// the end of the earlier one and has the higher task number.
pub proof fn lemma_carved_ranges_disjoint(
    s: StoreModel,
    requests: Seq<Request>,
    i: int,
    j: int,
)
    requires
        s.wf(),
        0 <= i < j < requests.len(),
        carved_at(s, requests, i) is Some,
        carved_at(s, requests, j) is Some,
    ensures
        carved_at(s, requests, i)->0.end_id < carved_at(s, requests, j)->0.start_id,
        carved_at(s, requests, i)->0.task_id < carved_at(s, requests, j)->0.task_id,
        carved_at(s, requests, i)->0.disjoint_from(carved_at(s, requests, j)->0),
{
    let before_i = run(s, requests.take(i));
    let after_i = run(s, requests.take(i + 1));
    let before_j = run(s, requests.take(j));
    assert(requests.take(i + 1).drop_last() =~= requests.take(i));
    assert(requests.take(i + 1).last() == requests[i]);
    assert(after_i == step(before_i, requests[i]));
    lemma_cursor_never_decreases(s, requests, i + 1, j);
}

/// A range carved anew is as wide as the batch size asks, and starts where
/// the cursor stood; the cursor then stands right after its end.
pub proof fn lemma_carved_width(s: StoreModel, worker: Seq<char>, batch_size: int, now: int)
    requires
        s.wf(),
        !s.has_stale(now),
        s.can_carve(batch_size),
    ensures
        s.acquire_reply(batch_size, now) is Some,
        s.acquire_reply(batch_size, now)->0.width() == batch_size,
        s.acquire_reply(batch_size, now)->0.start_id == s.cursor,
        s.after_acquire(worker, batch_size, now).cursor == s.acquire_reply(batch_size, now)->0.end_id
            + 1,
{
}

/// The batch size follows the worker's throughput: thirty times the IDs per
/// second it reported, held between the least and the greatest width, and
/// 3000 for a worker that reported nothing. A range carved anew for the
/// worker has that width.
pub proof fn lemma_batch_size_clamp(
    s: StoreModel,
    worker: Seq<char>,
    last_performance: Option<u32>,
    now: int,
)
    requires
        s.wf(),
        !s.has_stale(now),
        s.cursor + batch_size_of(last_performance) <= i64::MAX,
        s.last_task_id < i32::MAX,
    ensures
        MIN_BATCH_SIZE <= batch_size_of(last_performance) <= MAX_BATCH_SIZE,
        last_performance is None ==> batch_size_of(last_performance) == 3000,
        last_performance matches Some(speed) ==> batch_size_of(last_performance) == (if 30 * speed
            < 1000 {
            1000
        } else if 30 * speed > 50000 {
            50000
        } else {
            30 * speed
        }),
        s.acquire_reply(batch_size_of(last_performance), now) is Some,
        s.acquire_reply(batch_size_of(last_performance), now)->0.width() == batch_size_of(
            last_performance,
        ),
{
}

/// A recorded ID stays recorded, with the row it had.
pub proof fn lemma_record_all_keeps(results: Seq<ResultModel>, ids: Seq<int>, now: int)
    ensures
        results.len() <= record_all(results, ids, now).len(),
        forall|k: int|
            0 <= k < results.len() ==> (#[trigger] record_all(results, ids, now)[k]) == results[k],
        forall|id: int|
            has_result(results, id) ==> #[trigger] has_result(record_all(results, ids, now), id),
    decreases ids.len(),
{
    if ids.len() > 0 {
        let mid = record_all(results, ids.drop_last(), now);
        lemma_record_all_keeps(results, ids.drop_last(), now);
        let after = record_one(mid, ids.last(), now);
        assert(after == record_all(results, ids, now));
        assert forall|id: int| has_result(results, id) implies #[trigger] has_result(
            after,
            id,
        ) by {
            let k = choose|k: int| 0 <= k < results.len() && (#[trigger] results[k]).id == id;
            assert(after[k] == results[k]);
        }
    }
}

/// The IDs recorded after a submission are those recorded before it and
/// those submitted, and no others.
pub proof fn lemma_record_all_ids(results: Seq<ResultModel>, ids: Seq<int>, now: int)
    ensures
        forall|id: int|
            #[trigger] has_result(record_all(results, ids, now), id) <==> has_result(results, id)
                || ids.contains(id),
        result_ids(record_all(results, ids, now)) == result_ids(results).union(ids.to_set()),
    decreases ids.len(),
{
    let after = record_all(results, ids, now);
    if ids.len() == 0 {
        assert forall|id: int| #[trigger] has_result(after, id) <==> has_result(results, id)
            || ids.contains(id) by {}
    } else {
        let front = ids.drop_last();
        let mid = record_all(results, front, now);
        lemma_record_all_ids(results, front, now);
        assert forall|id: int| #[trigger] has_result(after, id) <==> has_result(results, id)
            || ids.contains(id) by {
            if has_result(after, id) {
                let k = choose|k: int| 0 <= k < after.len() && (#[trigger] after[k]).id == id;
                if k < mid.len() {
                    assert(mid[k].id == id);
                    assert(has_result(mid, id));
                    if front.contains(id) {
                        let w = choose|w: int| 0 <= w < front.len() && front[w] == id;
                        assert(ids[w] == id);
                    }
                } else {
                    assert(id == ids.last());
                    assert(ids[ids.len() - 1] == id);
                }
            }
            if has_result(results, id) || ids.contains(id) {
                if has_result(results, id) || front.contains(id) {
                    assert(has_result(mid, id));
                    let k = choose|k: int| 0 <= k < mid.len() && (#[trigger] mid[k]).id == id;
                    assert(after[k].id == id);
                } else {
                    let w = choose|w: int| 0 <= w < ids.len() && ids[w] == id;
                    if w < front.len() {
                        assert(front[w] == id);
                    }
                    assert(id == ids.last());
                    if !has_result(mid, id) {
                        assert(after[mid.len() as int].id == id);
                    } else {
                        let k = choose|k: int| 0 <= k < mid.len() && (#[trigger] mid[k]).id == id;
                        assert(after[k].id == id);
                    }
                }
            }
        }
    }
    assert(result_ids(after) =~= result_ids(results).union(ids.to_set())) by {
        assert forall|id: int| result_ids(after).contains(id) <==> result_ids(results).union(
            ids.to_set(),
        ).contains(id) by {
            assert(has_result(after, id) <==> has_result(results, id) || ids.contains(id));
        }
    }
}

/// Recording IDs that are all recorded already changes nothing.
pub proof fn lemma_record_all_noop(results: Seq<ResultModel>, ids: Seq<int>, now: int)
    requires
        forall|k: int| 0 <= k < ids.len() ==> has_result(results, #[trigger] ids[k]),
    ensures
        record_all(results, ids, now) == results,
    decreases ids.len(),
{
    if ids.len() > 0 {
        let front = ids.drop_last();
        assert forall|k: int| 0 <= k < front.len() implies has_result(
            results,
            #[trigger] front[k],
        ) by {
            assert(front[k] == ids[k]);
        }
        lemma_record_all_noop(results, front, now);
        assert(has_result(results, ids[ids.len() - 1]));
    }
}

/// Submitting is idempotent: a submission made twice leaves the store as
/// the submission made once does, whenever the second one arrives. The set
/// of recorded IDs is then that of before together with the submitted ones.
pub proof fn lemma_submit_idempotent(
    s: StoreModel,
    task_id: int,
    ids: Seq<int>,
    first: int,
    second: int,
)
    requires
        s.wf(),
    ensures
        s.after_submit(task_id, ids, first).after_submit(task_id, ids, second) == s.after_submit(
            task_id,
            ids,
            first,
        ),
        result_ids(s.after_submit(task_id, ids, first).results) == result_ids(s.results).union(
            ids.to_set(),
        ),
{
    let recorded = s.after_record(ids, first);
    let once = s.after_submit(task_id, ids, first);
    lemma_record_wf(s, ids, first);
    lemma_remove_wf(recorded, task_id);
    lemma_record_all_ids(s.results, ids, first);
    assert(once.results == recorded.results);
    assert forall|k: int| 0 <= k < ids.len() implies has_result(
        once.results,
        #[trigger] ids[k],
    ) by {
        assert(ids.contains(ids[k]));
    }
    lemma_record_all_noop(once.results, ids, second);
    let again = once.after_record(ids, second);
    assert(again == once);
    lemma_removed_task_is_gone(recorded, task_id);
}

/// Once a lease is deleted, no lease has its number.
pub proof fn lemma_removed_task_is_gone(s: StoreModel, task_id: int)
    requires
        s.wf(),
    ensures
        !s.after_remove(task_id).has_task(task_id),
{
    let t = s.after_remove(task_id);
    if s.has_task(task_id) {
        lemma_row_of_exists(s, task_id);
        let i = s.row_of(task_id);
        if t.has_task(task_id) {
            let k = choose|k: int| 0 <= k < t.leases.len() && (#[trigger] t.leases[k]).task_id
                == task_id;
            let k0 = if k < i { k } else { k + 1 };
            assert(s.leases[k0].task_id == task_id);
            lemma_row_of(s, task_id, k0);
        }
    }
}

/// Timeout recovery: a lease without a heartbeat for more than the timeout
/// is handed out by the next request for a task, provided that it is the
/// one with the oldest heartbeat (the first such, where several share it).
/// The requesting worker gets the lease's own range under its own number,
/// the lease is in that worker's hands with a heartbeat at the time of the
/// request, and the cursor stays where it was.
pub proof fn lemma_timeout_recovery(
    s: StoreModel,
    i: int,
    worker: Seq<char>,
    batch_size: int,
    now: int,
)
    requires
        s.wf(),
        s.is_oldest_stale(now, i),
    ensures
        s.leases[i].last_heartbeat < now - LEASE_TIMEOUT_SECS,
        s.acquire_reply(batch_size, now) == Some(s.leases[i].range()),
        s.after_acquire(worker, batch_size, now).leases == s.leases.update(
            i,
            s.leases[i].handed_to(worker, now),
        ),
        s.after_acquire(worker, batch_size, now).cursor == s.cursor,
        s.after_acquire(worker, batch_size, now).last_task_id == s.last_task_id,
        s.after_acquire(worker, batch_size, now).results == s.results,
{
    lemma_oldest_stale_is(s, now, i);
}

/// While any lease is stale, a request for a task takes over a stale lease
/// and carves nothing.
pub proof fn lemma_stale_lease_goes_first(
    s: StoreModel,
    worker: Seq<char>,
    batch_size: int,
    now: int,
)
    requires
        s.wf(),
        s.has_stale(now),
    ensures
        s.acquire_reply(batch_size, now) is Some,
        s.has_task(s.acquire_reply(batch_size, now)->0.task_id),
        s.leases[s.row_of(s.acquire_reply(batch_size, now)->0.task_id)].is_stale(now),
        s.after_acquire(worker, batch_size, now).cursor == s.cursor,
{
    lemma_oldest_stale_exists(s, now);
    let i = s.oldest_stale(now);
    lemma_row_of(s, s.leases[i].task_id, i);
}

/// A request for a task never hands out a lease that is still alive: the
/// number it returns is that of a lease that was stale at the time of the
/// request, or of no lease at all until then.
pub proof fn lemma_only_stale_or_new(s: StoreModel, batch_size: int, now: int)
    requires
        s.wf(),
        s.acquire_reply(batch_size, now) is Some,
    ensures
        ({
            let task_id = s.acquire_reply(batch_size, now)->0.task_id;
            if s.has_task(task_id) {
                s.leases[s.row_of(task_id)].is_stale(now)
            } else {
                !s.has_stale(now) && task_id == s.last_task_id + 1
            }
        }),
{
    if s.has_stale(now) {
        lemma_oldest_stale_exists(s, now);
        let i = s.oldest_stale(now);
        lemma_row_of(s, s.leases[i].task_id, i);
    } else {
        let task_id = s.last_task_id + 1;
        if s.has_task(task_id) {
            let k = s.row_of(task_id);
            assert(s.leases[k].task_id <= s.last_task_id);
        }
    }
}

/// The lease that a request for a task hands out is, right after, in the
/// hands of the asking worker with a heartbeat at the time of the request.
pub proof fn lemma_acquired_lease_is_held(
    s: StoreModel,
    worker: Seq<char>,
    batch_size: int,
    now: int,
)
    requires
        s.wf(),
        s.acquire_reply(batch_size, now) is Some,
    ensures
        ({
            let after = s.after_acquire(worker, batch_size, now);
            let task = s.acquire_reply(batch_size, now)->0;
            &&& after.has_task(task.task_id)
            &&& after.holds(task.task_id, worker)
            &&& after.leases[after.row_of(task.task_id)].range() == task
            &&& after.leases[after.row_of(task.task_id)].last_heartbeat == now
        }),
{
    let after = s.after_acquire(worker, batch_size, now);
    let task = s.acquire_reply(batch_size, now)->0;
    lemma_acquire_wf(s, worker, batch_size, now);
    if s.has_stale(now) {
        lemma_oldest_stale_exists(s, now);
        let i = s.oldest_stale(now);
        assert(after.leases[i].task_id == task.task_id);
        assert(after.leases[i].worker_id == worker);
        lemma_row_of(after, task.task_id, i);
    } else {
        let i = s.leases.len() as int;
        assert(after.leases[i].task_id == task.task_id);
        assert(after.leases[i].worker_id == worker);
        lemma_row_of(after, task.task_id, i);
    }
}

/// No double lease: of two requests for a task, one served right after the
/// other, the second does not get the task of the first while that lease is
/// alive, that is, up to the timeout after the first.
pub proof fn lemma_no_double_lease(
    s: StoreModel,
    first_worker: Seq<char>,
    first_batch: int,
    first_now: int,
    second_batch: int,
    second_now: int,
)
    requires
        s.wf(),
        second_now - first_now <= LEASE_TIMEOUT_SECS,
        s.acquire_reply(first_batch, first_now) is Some,
        s.after_acquire(first_worker, first_batch, first_now).acquire_reply(
            second_batch,
            second_now,
        ) is Some,
    ensures
        s.acquire_reply(first_batch, first_now)->0.task_id != s.after_acquire(
            first_worker,
            first_batch,
            first_now,
        ).acquire_reply(second_batch, second_now)->0.task_id,
{
    let after = s.after_acquire(first_worker, first_batch, first_now);
    lemma_acquire_wf(s, first_worker, first_batch, first_now);
    lemma_acquired_lease_is_held(s, first_worker, first_batch, first_now);
    lemma_only_stale_or_new(after, second_batch, second_now);
}

/// A heartbeat keeps a lease: after a heartbeat that was acknowledged, no
/// request for a task gets that lease until the timeout has passed.
pub proof fn lemma_heartbeat_keeps_lease(
    s: StoreModel,
    task_id: int,
    worker: Seq<char>,
    beat_at: int,
    batch_size: int,
    now: int,
)
    requires
        s.wf(),
        s.holds(task_id, worker),
        now - beat_at <= LEASE_TIMEOUT_SECS,
    ensures
        s.after_heartbeat(task_id, worker, beat_at).acquire_reply(batch_size, now) matches Some(
            task,
        ) ==> task.task_id != task_id,
{
    let after = s.after_heartbeat(task_id, worker, beat_at);
    lemma_heartbeat_wf(s, task_id, worker, beat_at);
    lemma_row_of_exists(s, task_id);
    let i = s.row_of(task_id);
    assert(after.leases[i].task_id == task_id);
    assert(after.leases[i].last_heartbeat == beat_at);
    lemma_row_of(after, task_id, i);
    if after.acquire_reply(batch_size, now) is Some {
        lemma_only_stale_or_new(after, batch_size, now);
    }
}

/// A lease that its holder gave back is stale at once, and stays the
/// holder's until another worker takes it over.
pub proof fn lemma_released_lease_is_stale(s: StoreModel, task_id: int, worker: Seq<char>, now: int)
    requires
        s.wf(),
        s.holds(task_id, worker),
        i64::MIN + RELEASE_BACKDATE_SECS <= now,
    ensures
        ({
            let after = s.after_release(task_id, worker, now);
            &&& after.has_task(task_id)
            &&& after.holds(task_id, worker)
            &&& after.leases[after.row_of(task_id)].is_stale(now)
            &&& after.leases[after.row_of(task_id)].range() == s.leases[s.row_of(task_id)].range()
            &&& after.has_stale(now)
            &&& after.cursor == s.cursor
        }),
{
    let after = s.after_release(task_id, worker, now);
    lemma_heartbeat_wf(s, task_id, worker, now);
    lemma_row_of_exists(s, task_id);
    let i = s.row_of(task_id);
    assert(after.leases[i].task_id == task_id);
    assert(after.leases[i].worker_id == worker);
    lemma_row_of(after, task_id, i);
    assert(after.leases[i].is_stale(now));
}

/// Results are recorded before the lease is deleted. A store that stopped
/// between the two still holds every lease, the submitted task's among
/// them, untouched, so the range is handed out again once its lease is
/// stale; and it holds every ID of the submission.
pub proof fn lemma_lease_survives_recording(s: StoreModel, ids: Seq<int>, now: int)
    requires
        s.wf(),
    ensures
        s.after_record(ids, now).wf(),
        s.after_record(ids, now).leases == s.leases,
        s.after_record(ids, now).cursor == s.cursor,
        s.after_record(ids, now).last_task_id == s.last_task_id,
        forall|k: int|
            0 <= k < ids.len() ==> has_result(s.after_record(ids, now).results, #[trigger] ids[k]),
{
    lemma_record_wf(s, ids, now);
    lemma_record_all_ids(s.results, ids, now);
    assert forall|k: int| 0 <= k < ids.len() implies has_result(
        s.after_record(ids, now).results,
        #[trigger] ids[k],
    ) by {
        assert(ids.contains(ids[k]));
    }
}

/// A store that stopped between recording and deleting hands the range out
/// again: once the lease is the oldest stale one, the next request for a
/// task gets it, exactly as if nothing had been recorded.
pub proof fn lemma_crashed_lease_is_handed_out_again(
    s: StoreModel,
    ids: Seq<int>,
    crashed_at: int,
    i: int,
    worker: Seq<char>,
    batch_size: int,
    now: int,
)
    requires
        s.wf(),
        s.is_oldest_stale(now, i),
    ensures
        s.after_record(ids, crashed_at).acquire_reply(batch_size, now) == Some(
            s.leases[i].range(),
        ),
        s.after_record(ids, crashed_at).after_acquire(worker, batch_size, now).leases
            == s.leases.update(i, s.leases[i].handed_to(worker, now)),
{
    let crashed = s.after_record(ids, crashed_at);
    lemma_record_wf(s, ids, crashed_at);
    assert(crashed.leases == s.leases);
    assert(crashed.is_oldest_stale(now, i));
    lemma_timeout_recovery(crashed, i, worker, batch_size, now);
}

/// No request loses a result: an ID that is recorded stays recorded.
pub proof fn lemma_step_keeps_results(s: StoreModel, request: Request, id: int)
    requires
        has_result(s.results, id),
    ensures
        has_result(step(s, request).results, id),
{
    match request {
        Request::Submit { task_id, ids, now } => {
            lemma_record_all_keeps(s.results, ids, now);
        },
        _ => {},
    }
}

/// No history loses a result.
pub proof fn lemma_run_keeps_results(s: StoreModel, requests: Seq<Request>, id: int)
    requires
        has_result(s.results, id),
    ensures
        has_result(run(s, requests).results, id),
    decreases requests.len(),
{
    if requests.len() > 0 {
        lemma_run_keeps_results(s, requests.drop_last(), id);
        lemma_step_keeps_results(run(s, requests.drop_last()), requests.last(), id);
    }
}

/// Nothing is lost when a submission is cut short after recording and the
/// range is then worked and submitted again, after any requests in
/// between: every ID of the first submission and every ID of the second is
/// recorded at the end, and the lease is gone.
pub proof fn lemma_resubmit_after_crash(
    s: StoreModel,
    task_id: int,
    ids: Seq<int>,
    crashed_at: int,
    between: Seq<Request>,
    ids_again: Seq<int>,
    now: int,
)
    requires
        s.wf(),
    ensures
        ({
            let done = run(s.after_record(ids, crashed_at), between).after_submit(
                task_id,
                ids_again,
                now,
            );
            &&& done.wf()
            &&& !done.has_task(task_id)
            &&& forall|k: int| 0 <= k < ids.len() ==> has_result(done.results, #[trigger] ids[k])
            &&& forall|k: int|
                0 <= k < ids_again.len() ==> has_result(done.results, #[trigger] ids_again[k])
        }),
{
    let crashed = s.after_record(ids, crashed_at);
    let later = run(crashed, between);
    let done = later.after_submit(task_id, ids_again, now);
    lemma_lease_survives_recording(s, ids, crashed_at);
    lemma_run_wf(crashed, between);
    lemma_submit_wf(later, task_id, ids_again, now);
    lemma_record_wf(later, ids_again, now);
    lemma_removed_task_is_gone(later.after_record(ids_again, now), task_id);
    lemma_lease_survives_recording(later, ids_again, now);
    assert forall|k: int| 0 <= k < ids.len() implies has_result(
        done.results,
        #[trigger] ids[k],
    ) by {
        lemma_run_keeps_results(crashed, between, ids[k]);
        lemma_record_all_keeps(later.results, ids_again, now);
    }
}

} // verus!
