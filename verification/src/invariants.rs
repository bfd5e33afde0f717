//! What every operation keeps: a well-formed store stays well formed.

use vstd::prelude::*;
use crate::model::{
    backdated, has_result, record_all, record_one, LeaseModel, ResultModel, StoreModel,
};

verus! {

/// No ID occurs in two rows of `results`.
pub open spec fn distinct_ids(results: Seq<ResultModel>) -> bool {
    forall|i: int, j: int|
        0 <= i < j < results.len() ==> (#[trigger] results[i]).id != (#[trigger] results[j]).id
}

/// Only one row can be the one that recovery picks.
pub proof fn lemma_oldest_stale_unique(s: StoreModel, now: int, i: int, j: int)
    requires
        s.is_oldest_stale(now, i),
        s.is_oldest_stale(now, j),
    ensures
        i == j,
{
    if i < j {
        assert(s.leases[j].last_heartbeat < s.leases[i].last_heartbeat);
        assert(s.leases[i].last_heartbeat <= s.leases[j].last_heartbeat);
    } else if j < i {
        assert(s.leases[i].last_heartbeat < s.leases[j].last_heartbeat);
        assert(s.leases[j].last_heartbeat <= s.leases[i].last_heartbeat);
    }
}

/// A row that meets the rule of recovery is the row that recovery picks.
pub proof fn lemma_oldest_stale_is(s: StoreModel, now: int, i: int)
    requires
        s.is_oldest_stale(now, i),
    ensures
        s.has_stale(now),
        s.oldest_stale(now) == i,
{
    assert(s.leases[i].is_stale(now));
    let picked = s.oldest_stale(now);
    assert(s.is_oldest_stale(now, picked));
    lemma_oldest_stale_unique(s, now, i, picked);
}

/// Where some lease is stale, recovery picks a row, and that row meets the
/// rule of recovery.
pub proof fn lemma_oldest_stale_exists(s: StoreModel, now: int)
    requires
        s.has_stale(now),
    ensures
        s.is_oldest_stale(now, s.oldest_stale(now)),
{
    let first = lemma_oldest_row(s.leases.len() as int, s);
    let witness = choose|i: int| 0 <= i < s.leases.len() && (#[trigger] s.leases[i]).is_stale(now);
    assert(s.leases[first].last_heartbeat <= s.leases[witness].last_heartbeat);
    assert(s.is_oldest_stale(now, first));
}

/// Among the first `n` rows, the first of those with the oldest heartbeat.
proof fn lemma_oldest_row(n: int, s: StoreModel) -> (best: int)
    requires
        1 <= n <= s.leases.len(),
    ensures
        0 <= best < n,
        forall|j: int|
            0 <= j < n ==> s.leases[best].last_heartbeat <= (
            #[trigger] s.leases[j]).last_heartbeat,
        forall|j: int|
            0 <= j < best ==> s.leases[best].last_heartbeat < (
            #[trigger] s.leases[j]).last_heartbeat,
    decreases n,
{
    if n == 1 {
        0
    } else {
        let before = lemma_oldest_row(n - 1, s);
        if s.leases[n - 1].last_heartbeat < s.leases[before].last_heartbeat {
            n - 1
        } else {
            before
        }
    }
}

/// Among the first `n` rows, the first with the number `task_id`, where one
/// of them has it.
proof fn lemma_first_row(s: StoreModel, task_id: int, n: int) -> (first: int)
    requires
        0 <= n <= s.leases.len(),
        exists|i: int| 0 <= i < n && (#[trigger] s.leases[i]).task_id == task_id,
    ensures
        0 <= first < n,
        s.is_row_of(task_id, first),
    decreases n,
{
    let witness = choose|i: int| 0 <= i < n && (#[trigger] s.leases[i]).task_id == task_id;
    if exists|i: int| 0 <= i < n - 1 && (#[trigger] s.leases[i]).task_id == task_id {
        lemma_first_row(s, task_id, n - 1)
    } else {
        assert(witness == n - 1);
        n - 1
    }
}

/// Where a lease has the number `task_id`, the row of that number is the
/// first such row.
pub proof fn lemma_row_of_exists(s: StoreModel, task_id: int)
    requires
        s.has_task(task_id),
    ensures
        s.is_row_of(task_id, s.row_of(task_id)),
{
    let first = lemma_first_row(s, task_id, s.leases.len() as int);
    assert(s.is_row_of(task_id, first));
}

/// The first row with a number is the row of that number.
pub proof fn lemma_row_of_is(s: StoreModel, task_id: int, i: int)
    requires
        s.is_row_of(task_id, i),
    ensures
        s.has_task(task_id),
        s.row_of(task_id) == i,
{
    assert(s.leases[i].task_id == task_id);
    let picked = s.row_of(task_id);
    assert(s.is_row_of(task_id, picked));
    if picked < i {
        assert(s.leases[picked].task_id != task_id);
    } else if i < picked {
        assert(s.leases[i].task_id != task_id);
    }
}

/// In a well-formed store a task number names one row.
pub proof fn lemma_row_of(s: StoreModel, task_id: int, i: int)
    requires
        s.wf(),
        0 <= i < s.leases.len(),
        s.leases[i].task_id == task_id,
    ensures
        s.has_task(task_id),
        s.row_of(task_id) == i,
        s.is_row_of(task_id, i),
{
    assert forall|j: int| 0 <= j < i implies (#[trigger] s.leases[j]).task_id != task_id by {
        assert(s.leases[j].task_id < s.leases[i].task_id);
    }
    lemma_row_of_is(s, task_id, i);
}

/// Replacing a row by one with the same number and range keeps the store
/// well formed.
pub proof fn lemma_update_row_wf(s: StoreModel, i: int, row: LeaseModel)
    requires
        s.wf(),
        0 <= i < s.leases.len(),
        row.task_id == s.leases[i].task_id,
        row.start_id == s.leases[i].start_id,
        row.end_id == s.leases[i].end_id,
    ensures
        (StoreModel { leases: s.leases.update(i, row), ..s }).wf(),
{
    let t = StoreModel { leases: s.leases.update(i, row), ..s };
    assert forall|a: int, b: int| 0 <= a < b < t.leases.len() implies (#[trigger] t.leases[a]).task_id
        < (#[trigger] t.leases[b]).task_id by {
        assert(s.leases[a].task_id < s.leases[b].task_id);
    }
    assert forall|a: int, b: int| 0 <= a < b < t.leases.len() implies (#[trigger] t.leases[a])
        .disjoint_from(#[trigger] t.leases[b]) by {
        assert(s.leases[a].disjoint_from(s.leases[b]));
    }
    assert forall|a: int| 0 <= a < t.leases.len() implies {
        &&& 1 <= (#[trigger] t.leases[a]).task_id <= t.last_task_id
        &&& 0 <= t.leases[a].start_id <= t.leases[a].end_id < t.cursor
    } by {
        assert(1 <= s.leases[a].task_id <= s.last_task_id);
    }
}

/// Handing a lease to another worker keeps the store well formed.
pub proof fn lemma_re_lease_wf(s: StoreModel, i: int, worker: Seq<char>, now: int)
    requires
        s.wf(),
        0 <= i < s.leases.len(),
    ensures
        s.re_lease(i, worker, now).wf(),
{
    lemma_update_row_wf(s, i, s.leases[i].handed_to(worker, now));
}

/// Carving a new range keeps the store well formed.
pub proof fn lemma_carve_wf(s: StoreModel, worker: Seq<char>, batch_size: int, now: int)
    requires
        s.wf(),
        1 <= batch_size,
    ensures
        s.carve(worker, batch_size, now).wf(),
{
    let t = s.carve(worker, batch_size, now);
    let n = s.leases.len() as int;
    assert forall|a: int| 0 <= a < t.leases.len() implies {
        &&& 1 <= (#[trigger] t.leases[a]).task_id <= t.last_task_id
        &&& 0 <= t.leases[a].start_id <= t.leases[a].end_id < t.cursor
    } by {
        if a < n {
            assert(1 <= s.leases[a].task_id <= s.last_task_id);
        }
    }
    assert forall|a: int, b: int| 0 <= a < b < t.leases.len() implies (#[trigger] t.leases[a]).task_id
        < (#[trigger] t.leases[b]).task_id by {
        assert(1 <= s.leases[a].task_id <= s.last_task_id);
        if b < n {
            assert(s.leases[a].task_id < s.leases[b].task_id);
        }
    }
    assert forall|a: int, b: int| 0 <= a < b < t.leases.len() implies (#[trigger] t.leases[a])
        .disjoint_from(#[trigger] t.leases[b]) by {
        assert(s.leases[a].end_id < s.cursor);
        if b < n {
            assert(s.leases[a].disjoint_from(s.leases[b]));
        }
    }
}

/// Asking for a task keeps the store well formed.
pub proof fn lemma_acquire_wf(s: StoreModel, worker: Seq<char>, batch_size: int, now: int)
    requires
        s.wf(),
    ensures
        s.after_new_task(worker, batch_size, now).wf(),
        s.after_acquire(worker, batch_size, now).wf(),
{
    if s.can_carve(batch_size) {
        lemma_carve_wf(s, worker, batch_size, now);
    }
    if s.has_stale(now) {
        lemma_oldest_stale_exists(s, now);
        lemma_re_lease_wf(s, s.oldest_stale(now), worker, now);
    }
}

/// Setting the heartbeat of an existing lease keeps the store well formed.
pub proof fn lemma_with_heartbeat_wf(s: StoreModel, task_id: int, at: int)
    requires
        s.wf(),
        s.has_task(task_id),
    ensures
        s.with_heartbeat(task_id, at).wf(),
{
    lemma_row_of_exists(s, task_id);
    let i = s.row_of(task_id);
    lemma_update_row_wf(s, i, s.leases[i].beaten_at(at));
}

/// A heartbeat and a release keep the store well formed.
pub proof fn lemma_heartbeat_wf(s: StoreModel, task_id: int, worker: Seq<char>, now: int)
    requires
        s.wf(),
    ensures
        s.after_heartbeat(task_id, worker, now).wf(),
        s.after_release(task_id, worker, now).wf(),
{
    if s.holds(task_id, worker) {
        lemma_with_heartbeat_wf(s, task_id, now);
        lemma_with_heartbeat_wf(s, task_id, backdated(now));
    }
}

/// Moving the cursor on keeps the store well formed.
pub proof fn lemma_set_cursor_wf(s: StoreModel, start_id: int)
    requires
        s.wf(),
    ensures
        s.after_set_cursor(start_id).wf(),
{
    let t = s.after_set_cursor(start_id);
    assert forall|a: int| 0 <= a < t.leases.len() implies {
        &&& 1 <= (#[trigger] t.leases[a]).task_id <= t.last_task_id
        &&& 0 <= t.leases[a].start_id <= t.leases[a].end_id < t.cursor
    } by {
        assert(s.leases[a].end_id < s.cursor);
    }
}

/// An insert that leaves existing rows alone records no ID twice.
pub proof fn lemma_record_one_distinct(results: Seq<ResultModel>, id: int, now: int)
    requires
        distinct_ids(results),
    ensures
        distinct_ids(record_one(results, id, now)),
{
    let after = record_one(results, id, now);
    if !has_result(results, id) {
        assert forall|i: int, j: int| 0 <= i < j < after.len() implies (#[trigger] after[i]).id != (
        #[trigger] after[j]).id by {
            if j < results.len() {
                assert(results[i].id != results[j].id);
            } else {
                assert(results[i].id != id);
            }
        }
    }
}

/// Recording a submission's IDs records no ID twice.
pub proof fn lemma_record_all_distinct(results: Seq<ResultModel>, ids: Seq<int>, now: int)
    requires
        distinct_ids(results),
    ensures
        distinct_ids(record_all(results, ids, now)),
    decreases ids.len(),
{
    if ids.len() > 0 {
        lemma_record_all_distinct(results, ids.drop_last(), now);
        lemma_record_one_distinct(record_all(results, ids.drop_last(), now), ids.last(), now);
    }
}

/// Recording results keeps the store well formed.
pub proof fn lemma_record_wf(s: StoreModel, ids: Seq<int>, now: int)
    requires
        s.wf(),
    ensures
        s.after_record(ids, now).wf(),
{
    lemma_record_all_distinct(s.results, ids, now);
}

/// Deleting a lease keeps the store well formed.
pub proof fn lemma_remove_wf(s: StoreModel, task_id: int)
    requires
        s.wf(),
    ensures
        s.after_remove(task_id).wf(),
{
    if s.has_task(task_id) {
        lemma_row_of_exists(s, task_id);
        let i = s.row_of(task_id);
        let t = s.after_remove(task_id);
        assert forall|a: int| 0 <= a < t.leases.len() implies {
            &&& 1 <= (#[trigger] t.leases[a]).task_id <= t.last_task_id
            &&& 0 <= t.leases[a].start_id <= t.leases[a].end_id < t.cursor
        } by {
            if a < i {
                assert(1 <= s.leases[a].task_id <= s.last_task_id);
            } else {
                assert(1 <= s.leases[a + 1].task_id <= s.last_task_id);
            }
        }
        assert forall|a: int, b: int| 0 <= a < b < t.leases.len() implies (#[trigger] t.leases[a])
            .task_id < (#[trigger] t.leases[b]).task_id by {
            let a0 = if a < i { a } else { a + 1 };
            let b0 = if b < i { b } else { b + 1 };
            assert(s.leases[a0].task_id < s.leases[b0].task_id);
        }
        assert forall|a: int, b: int| 0 <= a < b < t.leases.len() implies (#[trigger] t.leases[a])
            .disjoint_from(#[trigger] t.leases[b]) by {
            let a0 = if a < i { a } else { a + 1 };
            let b0 = if b < i { b } else { b + 1 };
            assert(s.leases[a0].disjoint_from(s.leases[b0]));
        }
    }
}

/// A submission keeps the store well formed.
pub proof fn lemma_submit_wf(s: StoreModel, task_id: int, ids: Seq<int>, now: int)
    requires
        s.wf(),
    ensures
        s.after_submit(task_id, ids, now).wf(),
{
    lemma_record_wf(s, ids, now);
    lemma_remove_wf(s.after_record(ids, now), task_id);
}

} // verus!
