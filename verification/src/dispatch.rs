//! The coordinator's endpoints: each takes a request and the time, applies
//! it to the store, and says which status and which envelope go back.

use vstd::prelude::*;
use crate::batch::batch_size_of;
use crate::protocol::{
    AcquireTaskRequest, AcquireTaskResponse, ApiResponse, HeartbeatRequest, ReleaseTaskRequest,
    SubmitResultRequest,
};
use crate::store::{id_values, reply_of, LeaseOutcome, Store};

verus! {

/// Status of a request that was served.
pub const STATUS_OK: u16 = 200;

/// Status of a request that names a lease which its sender does not hold.
pub const STATUS_NOT_FOUND: u16 = 404;

/// Status of a request that failed in the store.
pub const STATUS_INTERNAL_ERROR: u16 = 500;

/// A status with the envelope that goes with it.
#[derive(Debug, Clone, PartialEq, Eq)]
pub struct Reply<T> {
    pub status: u16,
    pub body: ApiResponse<T>,
}

/// Error text of a request for a task that found none to hand out.
pub open spec fn no_task_text() -> Seq<char> {
    "no task available"@
}

/// Payload of an accepted submission.
pub open spec fn submitted_text() -> Seq<char> {
    "task submitted"@
}

/// Payload of an accepted release.
pub open spec fn released_text() -> Seq<char> {
    "task released"@
}

/// Error text of a release that names a lease which its sender does not hold.
pub open spec fn not_held_text() -> Seq<char> {
    "task not found"@
}

/// Serves a request for a task at time `now`. A request that finds no task
/// is served too: it is answered with a failed envelope.
pub fn acquire_task(store: &mut Store, request: &AcquireTaskRequest, now: i64) -> (reply: Reply<
    AcquireTaskResponse,
>)
    ensures
        old(store).wf() ==> final(store).wf(),
        final(store)@ == old(store)@.after_acquire(
            request.worker_id@,
            batch_size_of(request.last_performance),
            now as int,
        ),
        reply.status == STATUS_OK,
        reply.body.is_consistent(),
        reply_of(reply.body.data) == old(store)@.acquire_reply(
            batch_size_of(request.last_performance),
            now as int,
        ),
        reply.body.error matches Some(text) ==> text@ == no_task_text(),
{
    match store.acquire(request.worker_id.as_str(), request.last_performance, now) {
        Some(task) => Reply { status: STATUS_OK, body: ApiResponse::success(task) },
        None => Reply {
            status: STATUS_OK,
            body: ApiResponse::error("no task available".to_owned()),
        },
    }
}

/// Serves a heartbeat at time `now`: found where the sender holds the
/// lease, not found otherwise.
pub fn heartbeat(store: &mut Store, request: &HeartbeatRequest, now: i64) -> (status: u16)
    ensures
        old(store).wf() ==> final(store).wf(),
        final(store)@ == old(store)@.after_heartbeat(
            request.task_id as int,
            request.worker_id@,
            now as int,
        ),
        status == (if old(store)@.holds(request.task_id as int, request.worker_id@) {
            STATUS_OK
        } else {
            STATUS_NOT_FOUND
        }),
{
    match store.heartbeat(request.task_id, request.worker_id.as_str(), now) {
        LeaseOutcome::Acknowledged => STATUS_OK,
        LeaseOutcome::NotFound => STATUS_NOT_FOUND,
    }
}

/// Serves a submission at time `now`. Every submission is accepted,
/// whoever holds the lease and whether or not it still exists.
pub fn submit_result(store: &mut Store, request: &SubmitResultRequest, now: i64) -> (reply: Reply<
    String,
>)
    ensures
        old(store).wf() ==> final(store).wf(),
        final(store)@ == old(store)@.after_submit(
            request.task_id as int,
            id_values(request.valid_ids@),
            now as int,
        ),
        reply.status == STATUS_OK,
        reply.body.is_consistent(),
        reply.body.data matches Some(text) && text@ == submitted_text(),
{
    store.submit_result(request.task_id, &request.valid_ids, now);
    Reply { status: STATUS_OK, body: ApiResponse::success("task submitted".to_owned()) }
}

/// Serves a release at time `now`: accepted where the sender holds the
/// lease, not found otherwise.
pub fn release_task(store: &mut Store, request: &ReleaseTaskRequest, now: i64) -> (reply: Reply<
    String,
>)
    ensures
        old(store).wf() ==> final(store).wf(),
        final(store)@ == old(store)@.after_release(
            request.task_id as int,
            request.worker_id@,
            now as int,
        ),
        reply.body.is_consistent(),
        reply.body.success <==> old(store)@.holds(request.task_id as int, request.worker_id@),
        reply.status == (if reply.body.success {
            STATUS_OK
        } else {
            STATUS_NOT_FOUND
        }),
        reply.body.data matches Some(text) ==> text@ == released_text(),
        reply.body.error matches Some(text) ==> text@ == not_held_text(),
{
    match store.release(request.task_id, request.worker_id.as_str(), now) {
        LeaseOutcome::Acknowledged => Reply {
            status: STATUS_OK,
            body: ApiResponse::success("task released".to_owned()),
        },
        LeaseOutcome::NotFound => Reply {
            status: STATUS_NOT_FOUND,
            body: ApiResponse::error("task not found".to_owned()),
        },
    }
}

/// The reply to a request that could not be served because the store
/// failed; `detail` says how.
pub fn store_failure<T>(detail: String) -> (reply: Reply<T>)
    ensures
        reply.status == STATUS_INTERNAL_ERROR,
        reply.body.is_consistent(),
        !reply.body.success,
        reply.body.error == Some(detail),
{
    Reply { status: STATUS_INTERNAL_ERROR, body: ApiResponse::error(detail) }
}

} // verus!
