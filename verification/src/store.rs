//! The store in memory: the cursor, the leases and the valid results, with
//! the dispatcher's operations on them.

use vstd::prelude::*;
use crate::batch::{batch_size_of, calculate_batch_size};
use crate::invariants::{
    lemma_carve_wf, lemma_oldest_stale_is, lemma_re_lease_wf, lemma_record_wf, lemma_remove_wf,
    lemma_row_of_is, lemma_set_cursor_wf, lemma_with_heartbeat_wf,
};
use crate::model::{
    has_result, record_all, record_one, LeaseModel, ResultModel, StoreModel, TaskRange,
    LEASE_TIMEOUT_SECS, RELEASE_BACKDATE_SECS,
};
use crate::protocol::AcquireTaskResponse;

verus! {

/// The state of a lease. A lease exists only while its range is checked out.
#[derive(Debug, Clone, Copy, PartialEq, Eq)]
pub enum LeaseStatus {
    Running,
}

/// What became of a request that names a lease and its holder.
#[derive(Debug, Clone, Copy, PartialEq, Eq, Structural)]
pub enum LeaseOutcome {
    /// The lease exists and the named worker holds it.
    Acknowledged,
    /// No such lease, or another worker holds it.
    NotFound,
}

/// One outstanding range. Times are seconds since the epoch, in UTC.
#[derive(Debug, Clone, PartialEq, Eq)]
pub struct TaskLease {
    pub task_id: i32,
    pub start_id: i64,
    pub end_id: i64,
    pub worker_id: String,
    pub status: LeaseStatus,
    pub last_heartbeat: i64,
    pub created_at: i64,
}

/// One ID that probed as valid.
#[derive(Debug, Clone, Copy, PartialEq, Eq)]
pub struct ValidResult {
    pub id: i64,
    pub found_at: i64,
}

/// The cursor, the leases in the order of their task numbers, and the valid
/// results in the order in which they were first recorded.
///
/// A store that `new` or `from_parts` made is well formed, and every
/// operation keeps it so. `from_rows` takes rows as they are; the
/// operations work on such a store too, row by row as they are described,
/// and `is_well_formed` tells whether it is well formed.
#[derive(Debug, Clone)]
pub struct Store {
    next_start_id: i64,
    last_task_id: i32,
    leases: Vec<TaskLease>,
    results: Vec<ValidResult>,
}

impl View for AcquireTaskResponse {
    type V = TaskRange;

    open spec fn view(&self) -> TaskRange {
        TaskRange {
            task_id: self.task_id as int,
            start_id: self.start_id as int,
            end_id: self.end_id as int,
        }
    }
}

impl View for TaskLease {
    type V = LeaseModel;

    open spec fn view(&self) -> LeaseModel {
        LeaseModel {
            task_id: self.task_id as int,
            start_id: self.start_id as int,
            end_id: self.end_id as int,
            worker_id: self.worker_id@,
            last_heartbeat: self.last_heartbeat as int,
            created_at: self.created_at as int,
        }
    }
}

impl View for ValidResult {
    type V = ResultModel;

    open spec fn view(&self) -> ResultModel {
        ResultModel { id: self.id as int, found_at: self.found_at as int }
    }
}

/// The rows that `leases` stands for.
pub open spec fn lease_rows(leases: Seq<TaskLease>) -> Seq<LeaseModel> {
    Seq::new(leases.len(), |i: int| leases[i]@)
}

/// The rows that `results` stands for.
pub open spec fn result_rows(results: Seq<ValidResult>) -> Seq<ResultModel> {
    Seq::new(results.len(), |i: int| results[i]@)
}

/// The IDs of a submission as mathematical integers.
pub open spec fn id_values(ids: Seq<i64>) -> Seq<int> {
    Seq::new(ids.len(), |i: int| ids[i] as int)
}

/// The store that the four parts stand for.
pub open spec fn model_of(
    next_start_id: i64,
    last_task_id: i32,
    leases: Seq<TaskLease>,
    results: Seq<ValidResult>,
) -> StoreModel {
    StoreModel {
        cursor: next_start_id as int,
        last_task_id: last_task_id as int,
        leases: lease_rows(leases),
        results: result_rows(results),
    }
}

/// What a worker is told, as a mathematical value.
pub open spec fn reply_of(task: Option<AcquireTaskResponse>) -> Option<TaskRange> {
    match task {
        Some(t) => Some(t@),
        None => None,
    }
}

impl View for Store {
    type V = StoreModel;

    closed spec fn view(&self) -> StoreModel {
        model_of(self.next_start_id, self.last_task_id, self.leases@, self.results@)
    }
}

impl Store {
    /// The store is well formed: see `StoreModel::wf`.
    pub open spec fn wf(&self) -> bool {
        self@.wf()
    }

    /// An empty store with the cursor at 0.
    pub fn new() -> (store: Store)
        ensures
            store.wf(),
            store@ == StoreModel::initial(),
    {
        let store = Store {
            next_start_id: 0,
            last_task_id: 0,
            leases: Vec::new(),
            results: Vec::new(),
        };
        assert(store@.leases =~= Seq::empty());
        assert(store@.results =~= Seq::empty());
        store
    }

    /// Whether every lease has a number between 1 and `last_task_id` and a
    /// non-empty range of IDs from 0 up to below `cursor`, and the numbers
    /// ascend.
    fn leases_in_order(leases: &Vec<TaskLease>, cursor: i64, last_task_id: i32) -> (ok: bool)
        ensures
            ok <==> {
                &&& forall|i: int|
                    0 <= i < leases@.len() ==> {
                        &&& 1 <= (#[trigger] lease_rows(leases@)[i]).task_id <= last_task_id
                        &&& 0 <= lease_rows(leases@)[i].start_id <= lease_rows(leases@)[i].end_id
                            < cursor
                    }
                &&& forall|i: int, j: int|
                    0 <= i < j < leases@.len() ==> (#[trigger] lease_rows(leases@)[i]).task_id < (
                    #[trigger] lease_rows(leases@)[j]).task_id
            },
    {
        let ghost rows = lease_rows(leases@);
        let mut k: usize = 0;
        while k < leases.len()
            invariant
                k <= leases.len(),
                rows == lease_rows(leases@),
                forall|i: int|
                    0 <= i < k ==> {
                        &&& 1 <= (#[trigger] rows[i]).task_id <= last_task_id
                        &&& 0 <= rows[i].start_id <= rows[i].end_id < cursor
                    },
                forall|i: int, j: int|
                    0 <= i < j < k ==> (#[trigger] rows[i]).task_id < (#[trigger] rows[j]).task_id,
            decreases leases.len() - k,
        {
            let lease = &leases[k];
            assert(lease@ == rows[k as int]);
            if lease.task_id < 1 || lease.task_id > last_task_id || lease.start_id < 0
                || lease.start_id > lease.end_id || lease.end_id >= cursor {
                return false;
            }
            if k > 0 {
                assert(leases[k - 1]@ == rows[k - 1]);
                if leases[k - 1].task_id >= lease.task_id {
                    return false;
                }
                assert forall|i: int| 0 <= i < k implies (#[trigger] rows[i]).task_id < rows[k as int]
                    .task_id by {
                    if i < k - 1 {
                        assert(rows[i].task_id < rows[k - 1].task_id);
                    }
                }
            }
            k += 1;
        }
        true
    }

    /// Whether no two leases share an ID.
    fn leases_disjoint(leases: &Vec<TaskLease>) -> (ok: bool)
        ensures
            ok <==> forall|i: int, j: int|
                0 <= i < j < leases@.len() ==> (#[trigger] lease_rows(leases@)[i]).disjoint_from(
                    #[trigger] lease_rows(leases@)[j],
                ),
    {
        let ghost rows = lease_rows(leases@);
        let mut b: usize = 0;
        while b < leases.len()
            invariant
                b <= leases.len(),
                rows == lease_rows(leases@),
                forall|i: int, j: int|
                    0 <= i < j < b ==> (#[trigger] rows[i]).disjoint_from(#[trigger] rows[j]),
            decreases leases.len() - b,
        {
            let mut a: usize = 0;
            while a < b
                invariant
                    a <= b < leases.len(),
                    rows == lease_rows(leases@),
                    forall|i: int| 0 <= i < a ==> (#[trigger] rows[i]).disjoint_from(rows[b as int]),
                decreases b - a,
            {
                assert(leases[a as int]@ == rows[a as int]);
                assert(leases[b as int]@ == rows[b as int]);
                if !(leases[a].end_id < leases[b].start_id || leases[b].end_id
                    < leases[a].start_id) {
                    assert(!rows[a as int].disjoint_from(rows[b as int]));
                    return false;
                }
                a += 1;
            }
            b += 1;
        }
        true
    }

    /// Whether no ID is recorded twice.
    fn results_distinct(results: &Vec<ValidResult>) -> (ok: bool)
        ensures
            ok <==> forall|i: int, j: int|
                0 <= i < j < results@.len() ==> (#[trigger] result_rows(results@)[i]).id != (
                #[trigger] result_rows(results@)[j]).id,
    {
        let ghost rows = result_rows(results@);
        let mut b: usize = 0;
        while b < results.len()
            invariant
                b <= results.len(),
                rows == result_rows(results@),
                forall|i: int, j: int|
                    0 <= i < j < b ==> (#[trigger] rows[i]).id != (#[trigger] rows[j]).id,
            decreases results.len() - b,
        {
            let mut a: usize = 0;
            while a < b
                invariant
                    a <= b < results.len(),
                    rows == result_rows(results@),
                    forall|i: int| 0 <= i < a ==> (#[trigger] rows[i]).id != rows[b as int].id,
                decreases b - a,
            {
                assert(results[a as int]@ == rows[a as int]);
                assert(results[b as int]@ == rows[b as int]);
                if results[a].id == results[b].id {
                    assert(rows[a as int].id == rows[b as int].id);
                    return false;
                }
                a += 1;
            }
            b += 1;
        }
        true
    }

    /// The store that holds the given cursor, task counter, leases and
    /// results, whatever they are.
    pub fn from_rows(
        next_start_id: i64,
        last_task_id: i32,
        leases: Vec<TaskLease>,
        results: Vec<ValidResult>,
    ) -> (store: Store)
        ensures
            store@ == model_of(next_start_id, last_task_id, leases@, results@),
    {
        Store { next_start_id, last_task_id, leases, results }
    }

    /// The store that holds the given cursor, task counter, leases and
    /// results, provided that they make a well-formed store: the leases in
    /// the order of their task numbers, the results in the order in which
    /// they were recorded.
    pub fn from_parts(
        next_start_id: i64,
        last_task_id: i32,
        leases: Vec<TaskLease>,
        results: Vec<ValidResult>,
    ) -> (store: Option<Store>)
        ensures
            store is Some <==> model_of(next_start_id, last_task_id, leases@, results@).wf(),
            store matches Some(s) ==> s.wf() && s@ == model_of(
                next_start_id,
                last_task_id,
                leases@,
                results@,
            ),
    {
        let store = Store { next_start_id, last_task_id, leases, results };
        if store.is_well_formed() {
            Some(store)
        } else {
            None
        }
    }

    /// Whether the store is well formed.
    pub fn is_well_formed(&self) -> (ok: bool)
        ensures
            ok == self.wf(),
    {
        let ghost model = self@;
        let ghost rows = lease_rows(self.leases@);
        let ghost recorded = result_rows(self.results@);
        let ok = self.next_start_id >= 0 && self.last_task_id >= 0 && Self::leases_in_order(
            &self.leases,
            self.next_start_id,
            self.last_task_id,
        ) && Self::leases_disjoint(&self.leases) && Self::results_distinct(&self.results);
        proof {
            if model.wf() {
                assert forall|i: int| 0 <= i < rows.len() implies {
                    &&& 1 <= (#[trigger] rows[i]).task_id <= self.last_task_id
                    &&& 0 <= rows[i].start_id <= rows[i].end_id < self.next_start_id
                } by {
                    assert(1 <= model.leases[i].task_id <= model.last_task_id);
                }
                assert forall|i: int, j: int| 0 <= i < j < rows.len() implies (
                #[trigger] rows[i]).task_id < (#[trigger] rows[j]).task_id by {
                    assert(model.leases[i].task_id < model.leases[j].task_id);
                }
                assert forall|i: int, j: int| 0 <= i < j < rows.len() implies (
                #[trigger] rows[i]).disjoint_from(#[trigger] rows[j]) by {
                    assert(model.leases[i].disjoint_from(model.leases[j]));
                }
                assert forall|i: int, j: int| 0 <= i < j < recorded.len() implies (
                #[trigger] recorded[i]).id != (#[trigger] recorded[j]).id by {
                    assert(model.results[i].id != model.results[j].id);
                }
            }
        }
        ok
    }

    /// The next ID that no task covers yet.
    pub fn cursor(&self) -> (cursor: i64)
        ensures
            cursor == self@.cursor,
    {
        self.next_start_id
    }

    /// The highest task number given out so far.
    pub fn last_task_id(&self) -> (id: i32)
        ensures
            id == self@.last_task_id,
    {
        self.last_task_id
    }

    /// How many leases are outstanding.
    pub fn lease_count(&self) -> (count: usize)
        ensures
            count == self@.leases.len(),
    {
        self.leases.len()
    }

    /// The lease in row `row`, counted from 0 in the order of task numbers.
    pub fn lease_at(&self, row: usize) -> (lease: Option<&TaskLease>)
        ensures
            lease is Some <==> row < self@.leases.len(),
            lease matches Some(l) ==> l@ == self@.leases[row as int],
    {
        if row < self.leases.len() {
            Some(&self.leases[row])
        } else {
            None
        }
    }

    /// How many valid IDs are recorded.
    pub fn result_count(&self) -> (count: usize)
        ensures
            count == self@.results.len(),
    {
        self.results.len()
    }

    /// The result in row `row`, counted from 0 in the order of recording.
    pub fn result_at(&self, row: usize) -> (result: Option<ValidResult>)
        ensures
            result is Some <==> row < self@.results.len(),
            result matches Some(r) ==> r@ == self@.results[row as int],
    {
        if row < self.results.len() {
            Some(self.results[row])
        } else {
            None
        }
    }

    /// Whether `id` is recorded as valid.
    pub fn contains_result(&self, id: i64) -> (found: bool)
        ensures
            found == has_result(self@.results, id as int),
    {
        let mut k: usize = 0;
        while k < self.results.len()
            invariant
                k <= self.results.len(),
                forall|j: int| 0 <= j < k ==> (#[trigger] self@.results[j]).id != id,
            decreases self.results.len() - k,
        {
            if self.results[k].id == id {
                assert(self@.results[k as int].id == id);
                return true;
            }
            k += 1;
        }
        false
    }

    /// The first row with the number `task_id`.
    fn find_task(&self, task_id: i32) -> (row: Option<usize>)
        ensures
            row is Some <==> self@.has_task(task_id as int),
            row matches Some(i) ==> i < self@.leases.len() && self@.row_of(task_id as int) == i
                && self@.is_row_of(task_id as int, i as int),
    {
        let mut k: usize = 0;
        while k < self.leases.len()
            invariant
                k <= self.leases.len(),
                forall|j: int| 0 <= j < k ==> (#[trigger] self@.leases[j]).task_id != task_id,
            decreases self.leases.len() - k,
        {
            if self.leases[k].task_id == task_id {
                proof {
                    assert(self@.leases[k as int].task_id == task_id);
                    lemma_row_of_is(self@, task_id as int, k as int);
                }
                return Some(k);
            }
            k += 1;
        }
        None
    }

    /// The lease with the number `task_id`, if it is outstanding.
    pub fn find_lease(&self, task_id: i32) -> (lease: Option<&TaskLease>)
        ensures
            lease is Some <==> self@.has_task(task_id as int),
            lease matches Some(l) ==> l@ == self@.leases[self@.row_of(task_id as int)],
    {
        match self.find_task(task_id) {
            Some(row) => Some(&self.leases[row]),
            None => None,
        }
    }

    /// The row that recovery picks at `now`, if any lease is stale.
    fn find_oldest_stale(&self, now: i64) -> (row: Option<usize>)
        ensures
            row is Some <==> self@.has_stale(now as int),
            row matches Some(i) ==> self@.is_oldest_stale(now as int, i as int)
                && self@.oldest_stale(now as int) == i,
    {
        let n = self.leases.len();
        let limit = match now.checked_sub(LEASE_TIMEOUT_SECS) {
            Some(limit) => limit,
            None => {
                assert(!self@.has_stale(now as int));
                return None;
            },
        };
        if n == 0 {
            return None;
        }
        let mut best: usize = 0;
        let mut k: usize = 1;
        while k < n
            invariant
                n == self.leases.len(),
                1 <= k <= n,
                best < k,
                forall|j: int|
                    0 <= j < k ==> self@.leases[best as int].last_heartbeat <= (
                    #[trigger] self@.leases[j]).last_heartbeat,
                forall|j: int|
                    0 <= j < best ==> self@.leases[best as int].last_heartbeat < (
                    #[trigger] self@.leases[j]).last_heartbeat,
            decreases n - k,
        {
            if self.leases[k].last_heartbeat < self.leases[best].last_heartbeat {
                best = k;
            }
            k += 1;
        }
        if self.leases[best].last_heartbeat < limit {
            proof {
                assert(self@.leases[best as int].is_stale(now as int));
                lemma_oldest_stale_is(self@, now as int, best as int);
            }
            Some(best)
        } else {
            assert forall|j: int| 0 <= j < self@.leases.len() implies !(#[trigger] self@.leases[j])
                .is_stale(now as int) by {
                assert(self@.leases[best as int].last_heartbeat <= self@.leases[j].last_heartbeat);
            }
            None
        }
    }

    /// Carves a new range of `batch_size` IDs at the cursor and leases it to
    /// `worker_id`. Nothing is carved, and nothing changes, where the range
    /// would be empty or the IDs or the task numbers have run out.
    pub fn acquire_new_task(&mut self, worker_id: &str, batch_size: i64, now: i64) -> (task: Option<
        AcquireTaskResponse,
    >)
        ensures
            old(self).wf() ==> final(self).wf(),
            final(self)@ == old(self)@.after_new_task(worker_id@, batch_size as int, now as int),
            reply_of(task) == old(self)@.new_task_reply(batch_size as int),
    {
        if batch_size < 1 || self.last_task_id == i32::MAX {
            return None;
        }
        let start_id: i64 = self.next_start_id;
        let next_start_id: i64 = match start_id.checked_add(batch_size) {
            Some(next) => next,
            None => {
                return None;
            },
        };
        let end_id: i64 = next_start_id - 1;
        let task_id: i32 = self.last_task_id + 1;
        self.next_start_id = next_start_id;
        self.last_task_id = task_id;
        self.leases.push(
            TaskLease {
                task_id,
                start_id,
                end_id,
                worker_id: worker_id.to_owned(),
                status: LeaseStatus::Running,
                last_heartbeat: now,
                created_at: now,
            },
        );
        proof {
            let before = old(self)@;
            let after = before.carve(worker_id@, batch_size as int, now as int);
            assert(self@.leases =~= after.leases);
            assert(self@.results =~= after.results);
            if before.wf() {
                lemma_carve_wf(before, worker_id@, batch_size as int, now as int);
            }
        }
        Some(AcquireTaskResponse { task_id, start_id, end_id })
    }

    /// Hands `worker_id` a task at time `now`: the stale lease with the
    /// oldest heartbeat, or, where no lease is stale, a new range of
    /// `batch_size` IDs.
    pub fn try_acquire_task(&mut self, worker_id: &str, batch_size: i64, now: i64) -> (task: Option<
        AcquireTaskResponse,
    >)
        ensures
            old(self).wf() ==> final(self).wf(),
            final(self)@ == old(self)@.after_acquire(worker_id@, batch_size as int, now as int),
            reply_of(task) == old(self)@.acquire_reply(batch_size as int, now as int),
    {
        match self.find_oldest_stale(now) {
            Some(row) => {
                let task = AcquireTaskResponse {
                    task_id: self.leases[row].task_id,
                    start_id: self.leases[row].start_id,
                    end_id: self.leases[row].end_id,
                };
                self.leases[row].worker_id = worker_id.to_owned();
                self.leases[row].last_heartbeat = now;
                proof {
                    let before = old(self)@;
                    let after = before.re_lease(row as int, worker_id@, now as int);
                    assert(self@.leases =~= after.leases);
                    assert(self@.results =~= after.results);
                    if before.wf() {
                        lemma_re_lease_wf(before, row as int, worker_id@, now as int);
                    }
                }
                Some(task)
            },
            None => self.acquire_new_task(worker_id, batch_size, now),
        }
    }

    /// Serves a worker's request for a task at time `now`, with a batch
    /// size that follows the worker's last throughput.
    pub fn acquire(&mut self, worker_id: &str, last_performance: Option<u32>, now: i64) -> (task:
        Option<AcquireTaskResponse>)
        ensures
            old(self).wf() ==> final(self).wf(),
            final(self)@ == old(self)@.after_acquire(
                worker_id@,
                batch_size_of(last_performance),
                now as int,
            ),
            reply_of(task) == old(self)@.acquire_reply(batch_size_of(last_performance), now as int),
    {
        let batch_size = calculate_batch_size(last_performance);
        self.try_acquire_task(worker_id, batch_size, now)
    }

    /// Sets the heartbeat of the lease `task_id` to `at` where `worker_id`
    /// holds it.
    fn touch(&mut self, task_id: i32, worker_id: &str, at: i64) -> (outcome: LeaseOutcome)
        ensures
            old(self).wf() ==> final(self).wf(),
            outcome == LeaseOutcome::Acknowledged <==> old(self)@.holds(task_id as int, worker_id@),
            old(self)@.holds(task_id as int, worker_id@) ==> final(self)@ == old(self)@.with_heartbeat(
                task_id as int,
                at as int,
            ),
            !old(self)@.holds(task_id as int, worker_id@) ==> final(self)@ == old(self)@,
    {
        let worker: String = worker_id.to_owned();
        match self.find_task(task_id) {
            Some(row) => {
                if self.leases[row].worker_id == worker {
                    self.leases[row].last_heartbeat = at;
                    proof {
                        let before = old(self)@;
                        let after = before.with_heartbeat(task_id as int, at as int);
                        assert(self@.leases =~= after.leases);
                        assert(self@.results =~= after.results);
                        if before.wf() {
                            lemma_with_heartbeat_wf(before, task_id as int, at as int);
                        }
                    }
                    LeaseOutcome::Acknowledged
                } else {
                    LeaseOutcome::NotFound
                }
            },
            None => LeaseOutcome::NotFound,
        }
    }

    /// Records a heartbeat at time `now` for the lease `task_id` held by
    /// `worker_id`. A lease that is gone, or that another worker holds by
    /// now, is not found, and then nothing changes.
    pub fn heartbeat(&mut self, task_id: i32, worker_id: &str, now: i64) -> (outcome: LeaseOutcome)
        ensures
            old(self).wf() ==> final(self).wf(),
            outcome == LeaseOutcome::Acknowledged <==> old(self)@.holds(task_id as int, worker_id@),
            final(self)@ == old(self)@.after_heartbeat(task_id as int, worker_id@, now as int),
    {
        self.touch(task_id, worker_id, now)
    }

    /// Gives the lease `task_id` back at time `now`, so that the next
    /// request may take it over at once. Only the worker that holds the
    /// lease can give it back.
    pub fn release(&mut self, task_id: i32, worker_id: &str, now: i64) -> (outcome: LeaseOutcome)
        ensures
            old(self).wf() ==> final(self).wf(),
            outcome == LeaseOutcome::Acknowledged <==> old(self)@.holds(task_id as int, worker_id@),
            final(self)@ == old(self)@.after_release(task_id as int, worker_id@, now as int),
    {
        let at: i64 = match now.checked_sub(RELEASE_BACKDATE_SECS) {
            Some(at) => at,
            None => i64::MIN,
        };
        self.touch(task_id, worker_id, at)
    }

    /// Moves the cursor to `start_id` on the operator's behalf, and says
    /// whether it moved: the cursor never goes back.
    pub fn set_cursor(&mut self, start_id: i64) -> (moved: bool)
        ensures
            old(self).wf() ==> final(self).wf(),
            moved == (old(self)@.cursor <= start_id),
            final(self)@ == old(self)@.after_set_cursor(start_id as int),
    {
        if self.next_start_id <= start_id {
            self.next_start_id = start_id;
            proof {
                let after = old(self)@.after_set_cursor(start_id as int);
                assert(self@.leases =~= after.leases);
                assert(self@.results =~= after.results);
                if old(self).wf() {
                    lemma_set_cursor_wf(old(self)@, start_id as int);
                }
            }
            true
        } else {
            false
        }
    }

    /// Records each of `valid_ids` as valid, found at `now`. An ID that is
    /// recorded already keeps its row.
    pub fn record_results(&mut self, valid_ids: &Vec<i64>, now: i64)
        ensures
            old(self).wf() ==> final(self).wf(),
            final(self)@ == old(self)@.after_record(id_values(valid_ids@), now as int),
    {
        let ghost ids = id_values(valid_ids@);
        let mut k: usize = 0;
        assert(ids.take(0) =~= Seq::empty());
        assert(self@.results =~= record_all(old(self)@.results, ids.take(0), now as int));
        while k < valid_ids.len()
            invariant
                k <= valid_ids.len(),
                ids == id_values(valid_ids@),
                old(self).wf() ==> self.wf(),
                self@ == old(self)@.after_record(ids.take(k as int), now as int),
            decreases valid_ids.len() - k,
        {
            let id: i64 = valid_ids[k];
            let ghost before = self@;
            if !self.contains_result(id) {
                self.results.push(ValidResult { id, found_at: now });
            }
            proof {
                let seen = ids.take(k as int);
                let next = ids.take(k + 1);
                assert(next.drop_last() =~= seen);
                assert(next.last() == id as int);
                assert(self@.results =~= record_one(before.results, id as int, now as int));
                assert(self@.leases =~= before.leases);
                if old(self).wf() {
                    lemma_record_wf(old(self)@, next, now as int);
                }
            }
            k += 1;
        }
        assert(ids.take(k as int) =~= ids);
    }

    /// Deletes the lease `task_id`, and says whether there was one.
    pub fn remove_lease(&mut self, task_id: i32) -> (removed: bool)
        ensures
            old(self).wf() ==> final(self).wf(),
            removed == old(self)@.has_task(task_id as int),
            final(self)@ == old(self)@.after_remove(task_id as int),
    {
        match self.find_task(task_id) {
            Some(row) => {
                self.leases.remove(row);
                proof {
                    let before = old(self)@;
                    let after = before.after_remove(task_id as int);
                    assert(self@.leases =~= after.leases);
                    assert(self@.results =~= after.results);
                    if before.wf() {
                        lemma_remove_wf(before, task_id as int);
                    }
                }
                true
            },
            None => false,
        }
    }

    /// Takes in the results of task `task_id`: records the valid IDs, then
    /// deletes the lease. Whoever holds the lease by now, and whether it
    /// still exists, makes no difference to the results.
    pub fn submit_result(&mut self, task_id: i32, valid_ids: &Vec<i64>, now: i64)
        ensures
            old(self).wf() ==> final(self).wf(),
            final(self)@ == old(self)@.after_submit(task_id as int, id_values(valid_ids@), now as int),
    {
        self.record_results(valid_ids, now);
        self.remove_lease(task_id);
    }
}

} // verus!
