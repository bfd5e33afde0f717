use id_crawler::dispatch::{
    acquire_task, heartbeat, release_task, store_failure, submit_result, Reply,
    STATUS_INTERNAL_ERROR, STATUS_NOT_FOUND, STATUS_OK,
};
use id_crawler::protocol::{
    AcquireTaskRequest, AcquireTaskResponse, ApiResponse, EnvelopeError, HeartbeatRequest,
    ReleaseTaskRequest, SubmitResultRequest,
};
use id_crawler::store::Store;

const NOW: i64 = 1_700_000_000;

fn ask(worker_id: &str, last_performance: Option<u32>) -> AcquireTaskRequest {
    AcquireTaskRequest { worker_id: worker_id.to_string(), last_performance }
}

#[test]
fn success_envelope_carries_the_payload() {
    let response = ApiResponse::success(5u8);
    assert!(response.success);
    assert_eq!(response.data, Some(5));
    assert_eq!(response.error, None);
}

#[test]
fn error_envelope_carries_the_message() {
    let response: ApiResponse<u8> = ApiResponse::error("broken".to_string());
    assert!(!response.success);
    assert_eq!(response.data, None);
    assert_eq!(response.error, Some("broken".to_string()));
}

#[test]
fn payload_of_an_envelope() {
    assert_eq!(ApiResponse::success(5u8).into_payload(), Ok(5));
    let failed: ApiResponse<u8> = ApiResponse::error("broken".to_string());
    assert_eq!(failed.into_payload(), Err(EnvelopeError::Rejected("broken".to_string())));
    let silent: ApiResponse<u8> = ApiResponse { success: false, data: Some(1), error: None };
    assert_eq!(silent.into_payload(), Err(EnvelopeError::Unexplained));
    let hollow: ApiResponse<u8> = ApiResponse { success: true, data: None, error: None };
    assert_eq!(hollow.into_payload(), Err(EnvelopeError::MissingData));
}

#[test]
fn verdict_of_an_envelope() {
    assert_eq!(ApiResponse::success(5u8).into_verdict(), Ok(()));
    let hollow: ApiResponse<u8> = ApiResponse { success: true, data: None, error: None };
    assert_eq!(hollow.into_verdict(), Ok(()));
    let failed: ApiResponse<u8> = ApiResponse::error("broken".to_string());
    assert_eq!(failed.into_verdict(), Err(EnvelopeError::Rejected("broken".to_string())));
    let silent: ApiResponse<u8> = ApiResponse { success: false, data: None, error: None };
    assert_eq!(silent.into_verdict(), Err(EnvelopeError::Unexplained));
}

#[test]
fn envelope_error_messages() {
    assert_eq!(EnvelopeError::Rejected("broken".to_string()).message(), "broken");
    assert_eq!(EnvelopeError::Unexplained.message(), "unknown error");
    assert_eq!(EnvelopeError::MissingData.message(), "no task data");
}

#[test]
fn acquire_endpoint_hands_out_a_task() {
    let mut store = Store::new();
    let reply = acquire_task(&mut store, &ask("W1", None), NOW);
    assert_eq!(reply.status, STATUS_OK);
    assert_eq!(
        reply.body,
        ApiResponse::success(AcquireTaskResponse { task_id: 1, start_id: 0, end_id: 2999 })
    );
    let reply = acquire_task(&mut store, &ask("W1", Some(200)), NOW);
    assert_eq!(reply.body.data, Some(AcquireTaskResponse { task_id: 2, start_id: 3000, end_id: 8999 }));
    assert_eq!(store.find_lease(2).unwrap().worker_id, "W1");
}

#[test]
fn acquire_endpoint_answers_ok_when_there_is_no_task() {
    let mut store = Store::from_parts(i64::MAX, 0, vec![], vec![]).unwrap();
    let reply = acquire_task(&mut store, &ask("W1", None), NOW);
    assert_eq!(reply.status, 200);
    assert!(!reply.body.success);
    assert_eq!(reply.body.data, None);
    assert_eq!(reply.body.error, Some("no task available".to_string()));
}

#[test]
fn heartbeat_endpoint_answers_found_or_not_found() {
    let mut store = Store::new();
    acquire_task(&mut store, &ask("W1", None), NOW);
    let beat = |worker: &str, task_id: i32| HeartbeatRequest { task_id, worker_id: worker.to_string() };
    assert_eq!(heartbeat(&mut store, &beat("W1", 1), NOW + 10), 200);
    assert_eq!(store.find_lease(1).unwrap().last_heartbeat, NOW + 10);
    assert_eq!(heartbeat(&mut store, &beat("W2", 1), NOW + 20), 404);
    assert_eq!(heartbeat(&mut store, &beat("W1", 2), NOW + 20), STATUS_NOT_FOUND);
    assert_eq!(store.find_lease(1).unwrap().last_heartbeat, NOW + 10);
}

#[test]
fn submit_endpoint_takes_the_results_in() {
    let mut store = Store::new();
    acquire_task(&mut store, &ask("W1", None), NOW);
    let request = SubmitResultRequest { task_id: 1, valid_ids: vec![3, 1, 3] };
    let reply = submit_result(&mut store, &request, NOW + 30);
    assert_eq!(reply, Reply { status: 200, body: ApiResponse::success("task submitted".to_string()) });
    assert_eq!(store.result_count(), 2);
    assert_eq!(store.lease_count(), 0);
    let reply = submit_result(&mut store, &request, NOW + 40);
    assert_eq!(reply.status, STATUS_OK);
    assert_eq!(store.result_count(), 2);
}

#[test]
fn release_endpoint_needs_the_holder() {
    let mut store = Store::new();
    acquire_task(&mut store, &ask("W1", None), NOW);
    let foreign = ReleaseTaskRequest { task_id: 1, worker_id: "W2".to_string() };
    let reply = release_task(&mut store, &foreign, NOW + 1);
    assert_eq!(reply, Reply { status: 404, body: ApiResponse::error("task not found".to_string()) });
    let own = ReleaseTaskRequest { task_id: 1, worker_id: "W1".to_string() };
    let reply = release_task(&mut store, &own, NOW + 1);
    assert_eq!(reply, Reply { status: 200, body: ApiResponse::success("task released".to_string()) });
    let reply = acquire_task(&mut store, &ask("W2", None), NOW + 1);
    assert_eq!(reply.body.data.unwrap().task_id, 1);
}

#[test]
fn store_failure_is_an_internal_error() {
    let reply: Reply<String> = store_failure("disk full".to_string());
    assert_eq!(reply.status, STATUS_INTERNAL_ERROR);
    assert_eq!(reply.status, 500);
    assert_eq!(reply.body, ApiResponse::error("disk full".to_string()));
}
