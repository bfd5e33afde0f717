//! The store as a mathematical value, and each dispatcher operation as a
//! function from one such value to the next.
//!
//! The store holds three relations: the cursor (the next ID that no task
//! covers yet), the leases (one row per range that is checked out and not
//! yet handed in) and the valid results. Rows of a relation are kept in the
//! order in which they were inserted, so leases are ordered by task number.

use vstd::prelude::*;

verus! {

/// A lease whose last heartbeat is more than this many seconds old may be
/// handed to another worker.
pub const LEASE_TIMEOUT_SECS: i64 = 60;

/// A released lease gets a heartbeat this many seconds in the past.
pub const RELEASE_BACKDATE_SECS: i64 = 61;

/// One row of the lease relation. Times are seconds since the epoch.
pub struct LeaseModel {
    pub task_id: int,
    pub start_id: int,
    pub end_id: int,
    pub worker_id: Seq<char>,
    pub last_heartbeat: int,
    pub created_at: int,
}

/// One row of the result relation.
pub struct ResultModel {
    pub id: int,
    pub found_at: int,
}

/// A range as a worker is told it.
pub struct TaskRange {
    pub task_id: int,
    pub start_id: int,
    pub end_id: int,
}

/// The whole store.
pub struct StoreModel {
    /// The next ID that no task covers yet.
    pub cursor: int,
    /// The highest task number given out so far; 0 before the first.
    pub last_task_id: int,
    pub leases: Seq<LeaseModel>,
    pub results: Seq<ResultModel>,
}

impl TaskRange {
    /// How many IDs the range holds.
    pub open spec fn width(self) -> int {
        self.end_id - self.start_id + 1
    }

    /// The two ranges have no ID in common.
    pub open spec fn disjoint_from(self, other: TaskRange) -> bool {
        self.end_id < other.start_id || other.end_id < self.start_id
    }
}

impl LeaseModel {
    /// The lease's heartbeat is strictly older than the timeout at time `now`.
    pub open spec fn is_stale(self, now: int) -> bool {
        self.last_heartbeat < now - LEASE_TIMEOUT_SECS
    }

    /// The two leases have no ID in common.
    pub open spec fn disjoint_from(self, other: LeaseModel) -> bool {
        self.end_id < other.start_id || other.end_id < self.start_id
    }

    /// The range as the leaseholder is told it.
    pub open spec fn range(self) -> TaskRange {
        TaskRange { task_id: self.task_id, start_id: self.start_id, end_id: self.end_id }
    }

    /// The same lease in the hands of `worker`, with a heartbeat at `now`.
    pub open spec fn handed_to(self, worker: Seq<char>, now: int) -> LeaseModel {
        LeaseModel { worker_id: worker, last_heartbeat: now, ..self }
    }

    /// The same lease with its heartbeat set to `at`.
    pub open spec fn beaten_at(self, at: int) -> LeaseModel {
        LeaseModel { last_heartbeat: at, ..self }
    }
}

/// The heartbeat that a lease released at `now` is given: far enough in the
/// past to be stale at once, as far as the clock's range allows.
pub open spec fn backdated(now: int) -> int {
    if now - RELEASE_BACKDATE_SECS < i64::MIN {
        i64::MIN as int
    } else {
        now - RELEASE_BACKDATE_SECS
    }
}

/// Some row of `results` holds `id`.
pub open spec fn has_result(results: Seq<ResultModel>, id: int) -> bool {
    exists|k: int| 0 <= k < results.len() && (#[trigger] results[k]).id == id
}

/// The IDs that `results` holds.
pub open spec fn result_ids(results: Seq<ResultModel>) -> Set<int> {
    Set::new(|id: int| has_result(results, id))
}

/// `results` after an insert of `id` that leaves an existing row alone.
pub open spec fn record_one(results: Seq<ResultModel>, id: int, now: int) -> Seq<ResultModel> {
    if has_result(results, id) {
        results
    } else {
        results.push(ResultModel { id, found_at: now })
    }
}

/// `results` after such an insert of each of `ids`, first to last.
pub open spec fn record_all(results: Seq<ResultModel>, ids: Seq<int>, now: int) -> Seq<
    ResultModel,
>
    decreases ids.len(),
{
    if ids.len() == 0 {
        results
    } else {
        record_one(record_all(results, ids.drop_last(), now), ids.last(), now)
    }
}

impl StoreModel {
    /// The store before anything has happened.
    pub open spec fn initial() -> StoreModel {
        StoreModel { cursor: 0, last_task_id: 0, leases: Seq::empty(), results: Seq::empty() }
    }

    /// What holds of a store that only the dispatcher has written: task
    /// numbers ascend and were all given out already, every lease covers a
    /// non-empty range below the cursor, no two leases share an ID, and no
    /// ID is recorded twice. Every operation keeps it; none needs it.
    pub open spec fn wf(self) -> bool {
        &&& 0 <= self.cursor
        &&& 0 <= self.last_task_id
        &&& forall|i: int|
            0 <= i < self.leases.len() ==> {
                &&& 1 <= (#[trigger] self.leases[i]).task_id <= self.last_task_id
                &&& 0 <= self.leases[i].start_id <= self.leases[i].end_id < self.cursor
            }
        &&& forall|i: int, j: int|
            0 <= i < j < self.leases.len() ==> (#[trigger] self.leases[i]).task_id < (
            #[trigger] self.leases[j]).task_id
        &&& forall|i: int, j: int|
            0 <= i < j < self.leases.len() ==> (#[trigger] self.leases[i]).disjoint_from(
                #[trigger] self.leases[j],
            )
        &&& forall|i: int, j: int|
            0 <= i < j < self.results.len() ==> (#[trigger] self.results[i]).id != (
            #[trigger] self.results[j]).id
    }

    /// Some lease is stale at `now`.
    pub open spec fn has_stale(self, now: int) -> bool {
        exists|i: int| 0 <= i < self.leases.len() && (#[trigger] self.leases[i]).is_stale(now)
    }

    /// Row `i` is the stale lease that recovery picks at `now`: none has an
    /// older heartbeat, and of those with the same heartbeat it comes first.
    pub open spec fn is_oldest_stale(self, now: int, i: int) -> bool {
        &&& 0 <= i < self.leases.len()
        &&& self.leases[i].is_stale(now)
        &&& forall|j: int|
            0 <= j < self.leases.len() ==> self.leases[i].last_heartbeat <= (
            #[trigger] self.leases[j]).last_heartbeat
        &&& forall|j: int|
            0 <= j < i ==> self.leases[i].last_heartbeat < (
            #[trigger] self.leases[j]).last_heartbeat
    }

    /// The row that recovery picks at `now`, where some lease is stale.
    pub open spec fn oldest_stale(self, now: int) -> int {
        choose|i: int| self.is_oldest_stale(now, i)
    }

    /// A new range of `batch_size` IDs can be carved: it is not empty, the
    /// IDs up to its end exist, and a task number is left for it.
    pub open spec fn can_carve(self, batch_size: int) -> bool {
        &&& 1 <= batch_size
        &&& self.cursor + batch_size <= i64::MAX
        &&& self.last_task_id < i32::MAX
    }

    /// The lease that a new range of `batch_size` IDs gets.
    pub open spec fn fresh_lease(self, worker: Seq<char>, batch_size: int, now: int) -> LeaseModel {
        LeaseModel {
            task_id: self.last_task_id + 1,
            start_id: self.cursor,
            end_id: self.cursor + batch_size - 1,
            worker_id: worker,
            last_heartbeat: now,
            created_at: now,
        }
    }

    /// The store after row `i` has gone to `worker`.
    pub open spec fn re_lease(self, i: int, worker: Seq<char>, now: int) -> StoreModel {
        StoreModel { leases: self.leases.update(i, self.leases[i].handed_to(worker, now)), ..self }
    }

    /// The store after a new range of `batch_size` IDs has gone to `worker`.
    pub open spec fn carve(self, worker: Seq<char>, batch_size: int, now: int) -> StoreModel {
        StoreModel {
            cursor: self.cursor + batch_size,
            last_task_id: self.last_task_id + 1,
            leases: self.leases.push(self.fresh_lease(worker, batch_size, now)),
            ..self
        }
    }

    /// The store after carving a new range, where one can be carved.
    pub open spec fn after_new_task(self, worker: Seq<char>, batch_size: int, now: int)
        -> StoreModel {
        if self.can_carve(batch_size) {
            self.carve(worker, batch_size, now)
        } else {
            self
        }
    }

    /// What the worker is told after carving a new range.
    pub open spec fn new_task_reply(self, batch_size: int) -> Option<TaskRange> {
        if self.can_carve(batch_size) {
            Some(
                TaskRange {
                    task_id: self.last_task_id + 1,
                    start_id: self.cursor,
                    end_id: self.cursor + batch_size - 1,
                },
            )
        } else {
            None
        }
    }

    /// The store after `worker` has asked for a task at `now`: the oldest
    /// stale lease goes to it; where none is stale, a new range is carved.
    pub open spec fn after_acquire(self, worker: Seq<char>, batch_size: int, now: int)
        -> StoreModel {
        if self.has_stale(now) {
            self.re_lease(self.oldest_stale(now), worker, now)
        } else {
            self.after_new_task(worker, batch_size, now)
        }
    }

    /// What `worker` is told when it asks for a task at `now`.
    pub open spec fn acquire_reply(self, batch_size: int, now: int) -> Option<TaskRange> {
        if self.has_stale(now) {
            Some(self.leases[self.oldest_stale(now)].range())
        } else {
            self.new_task_reply(batch_size)
        }
    }

    /// Some lease has the number `task_id`.
    pub open spec fn has_task(self, task_id: int) -> bool {
        exists|i: int| 0 <= i < self.leases.len() && (#[trigger] self.leases[i]).task_id == task_id
    }

    /// Row `i` is the first row with the number `task_id`. In a well-formed
    /// store it is the only one.
    pub open spec fn is_row_of(self, task_id: int, i: int) -> bool {
        &&& 0 <= i < self.leases.len()
        &&& self.leases[i].task_id == task_id
        &&& forall|j: int| 0 <= j < i ==> (#[trigger] self.leases[j]).task_id != task_id
    }

    /// The row of the lease with the number `task_id`, where there is one.
    pub open spec fn row_of(self, task_id: int) -> int {
        choose|i: int| self.is_row_of(task_id, i)
    }

    /// The lease `task_id` exists and is in the hands of `worker`.
    pub open spec fn holds(self, task_id: int, worker: Seq<char>) -> bool {
        self.has_task(task_id) && self.leases[self.row_of(task_id)].worker_id == worker
    }

    /// The store after the lease `task_id` got the heartbeat `at`.
    pub open spec fn with_heartbeat(self, task_id: int, at: int) -> StoreModel {
        let i = self.row_of(task_id);
        StoreModel { leases: self.leases.update(i, self.leases[i].beaten_at(at)), ..self }
    }

    /// The store after `worker` sent a heartbeat for `task_id` at `now`: the
    /// lease is refreshed where this worker holds it, and nothing changes
    /// otherwise.
    pub open spec fn after_heartbeat(self, task_id: int, worker: Seq<char>, now: int)
        -> StoreModel {
        if self.holds(task_id, worker) {
            self.with_heartbeat(task_id, now)
        } else {
            self
        }
    }

    /// The store after `worker` gave `task_id` back at `now`: the lease
    /// becomes stale where this worker holds it, and nothing changes
    /// otherwise.
    pub open spec fn after_release(self, task_id: int, worker: Seq<char>, now: int) -> StoreModel {
        if self.holds(task_id, worker) {
            self.with_heartbeat(task_id, backdated(now))
        } else {
            self
        }
    }

    /// The store after the operator asked for the cursor to stand at
    /// `start_id`: it moves there, unless that would take it back.
    pub open spec fn after_set_cursor(self, start_id: int) -> StoreModel {
        if self.cursor <= start_id {
            StoreModel { cursor: start_id, ..self }
        } else {
            self
        }
    }

    /// The store after `ids` were recorded as valid at `now`.
    pub open spec fn after_record(self, ids: Seq<int>, now: int) -> StoreModel {
        StoreModel { results: record_all(self.results, ids, now), ..self }
    }

    /// The store after the lease `task_id` was deleted, if there was one.
    pub open spec fn after_remove(self, task_id: int) -> StoreModel {
        if self.has_task(task_id) {
            StoreModel { leases: self.leases.remove(self.row_of(task_id)), ..self }
        } else {
            self
        }
    }

    /// The store after a submission: first the results are recorded, then
    /// the lease is deleted.
    pub open spec fn after_submit(self, task_id: int, ids: Seq<int>, now: int) -> StoreModel {
        self.after_record(ids, now).after_remove(task_id)
    }
}

} // verus!
