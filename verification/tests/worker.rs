use id_crawler::probe::{classify_reply, has_content, ProbeOutcome, ProbeReply};
use id_crawler::protocol::{AcquireTaskResponse, HeartbeatRequest};
use id_crawler::worker::{
    heartbeat_report, measure_speed, next_probe_step, HeartbeatKeeper, HeartbeatReport, KeeperStep,
    ProbeStep, SignalAction, SignalHandler, WorkerAction, WorkerEvent, WorkerLoop, WorkerPhase,
    DEFAULT_CONCURRENCY, DEFAULT_HEARTBEAT_INTERVAL_SECS, DEFAULT_INITIAL_SPEED,
    DEFAULT_RETRY_INTERVAL_SECS,
};

fn task(task_id: i32, start_id: i64, end_id: i64) -> AcquireTaskResponse {
    AcquireTaskResponse { task_id, start_id, end_id }
}

#[test]
fn worker_defaults() {
    assert_eq!(DEFAULT_INITIAL_SPEED, 100);
    assert_eq!(DEFAULT_CONCURRENCY, 50);
    assert_eq!(DEFAULT_HEARTBEAT_INTERVAL_SECS, 10);
    assert_eq!(DEFAULT_RETRY_INTERVAL_SECS, 5);
}

#[test]
fn speed_is_ids_per_second_rounded_down() {
    assert_eq!(measure_speed(&task(1, 0, 2999), 30), 100);
    assert_eq!(measure_speed(&task(1, 0, 2999), 7), 428);
    assert_eq!(measure_speed(&task(1, 3000, 8999), 1), 6000);
    assert_eq!(measure_speed(&task(1, 0, 9), 11), 0);
    assert_eq!(measure_speed(&task(1, 5, 5), 1), 1);
}

#[test]
fn speed_of_a_run_under_a_second_is_the_width() {
    assert_eq!(measure_speed(&task(1, 100, 199), 0), 100);
}

#[test]
fn speed_is_capped_and_an_empty_range_counts_nothing() {
    assert_eq!(measure_speed(&task(1, i64::MIN, i64::MAX), 1), u32::MAX);
    assert_eq!(measure_speed(&task(1, 0, i64::MAX), 0), u32::MAX);
    assert_eq!(measure_speed(&task(1, 0, u32::MAX as i64), 1), u32::MAX);
    assert_eq!(measure_speed(&task(1, 0, u32::MAX as i64 - 1), 1), u32::MAX);
    assert_eq!(measure_speed(&task(1, 0, u32::MAX as i64 - 2), 1), u32::MAX - 1);
    assert_eq!(measure_speed(&task(1, i64::MIN, i64::MAX), u64::MAX), 1);
    assert_eq!(measure_speed(&task(1, 10, 9), 1), 0);
    assert_eq!(measure_speed(&task(1, i64::MAX, i64::MIN), 0), 0);
}

#[test]
fn worker_loop_runs_a_task_from_start_to_end() {
    let mut state = WorkerLoop::new(100, 5);
    assert_eq!(state.phase, WorkerPhase::Idle);
    assert_eq!(
        state.step(WorkerEvent::Wake { shutdown_requested: false }),
        WorkerAction::Acquire { last_performance: 100 }
    );
    assert_eq!(state.phase, WorkerPhase::Acquiring);
    let t = task(4, 3000, 8999);
    assert_eq!(state.step(WorkerEvent::Acquired { task: t }), WorkerAction::RunTask { task: t });
    assert_eq!(state.phase, WorkerPhase::Working { task: t });
    assert_eq!(state.current_task_id, 4);
    assert_eq!(
        state.step(WorkerEvent::Probed { elapsed_secs: 20, force_shutdown: false }),
        WorkerAction::Submit { task_id: 4 }
    );
    assert_eq!(state.phase, WorkerPhase::Submitting { task: t, speed: 300 });
    assert_eq!(state.current_speed, 100);
    assert_eq!(state.step(WorkerEvent::Submitted), WorkerAction::Sleep { secs: 1 });
    assert_eq!(state, WorkerLoop { phase: WorkerPhase::Idle, current_task_id: 0, current_speed: 300, retry_interval: 5 });
    assert_eq!(
        state.step(WorkerEvent::Wake { shutdown_requested: false }),
        WorkerAction::Acquire { last_performance: 300 }
    );
}

#[test]
fn worker_loop_retries_after_a_failure() {
    let mut state = WorkerLoop::new(100, 9);
    state.step(WorkerEvent::Wake { shutdown_requested: false });
    assert_eq!(state.step(WorkerEvent::AcquireFailed), WorkerAction::Sleep { secs: 9 });
    assert_eq!(state.phase, WorkerPhase::Idle);
    state.step(WorkerEvent::Wake { shutdown_requested: false });
    state.step(WorkerEvent::Acquired { task: task(2, 0, 999) });
    state.step(WorkerEvent::Probed { elapsed_secs: 1, force_shutdown: false });
    assert_eq!(state.step(WorkerEvent::SubmitFailed), WorkerAction::Sleep { secs: 9 });
    assert_eq!(state, WorkerLoop { phase: WorkerPhase::Idle, current_task_id: 2, current_speed: 100, retry_interval: 9 });
}

#[test]
fn worker_loop_ends_on_a_requested_shutdown_only_between_tasks() {
    let mut state = WorkerLoop::new(100, 5);
    state.step(WorkerEvent::Wake { shutdown_requested: false });
    assert_eq!(state.step(WorkerEvent::Wake { shutdown_requested: true }), WorkerAction::Ignore);
    assert_eq!(state.phase, WorkerPhase::Acquiring);
    state.step(WorkerEvent::AcquireFailed);
    assert_eq!(state.step(WorkerEvent::Wake { shutdown_requested: true }), WorkerAction::Exit);
    assert_eq!(state.phase, WorkerPhase::Shutdown);
    assert_eq!(state.step(WorkerEvent::Wake { shutdown_requested: false }), WorkerAction::Ignore);
    assert_eq!(state.step(WorkerEvent::Submitted), WorkerAction::Ignore);
    assert_eq!(state.phase, WorkerPhase::Shutdown);
}

#[test]
fn worker_loop_submits_nothing_after_a_forced_shutdown() {
    let mut state = WorkerLoop::new(100, 5);
    state.step(WorkerEvent::Wake { shutdown_requested: false });
    state.step(WorkerEvent::Acquired { task: task(2, 0, 999) });
    assert_eq!(
        state.step(WorkerEvent::Probed { elapsed_secs: 3, force_shutdown: true }),
        WorkerAction::Exit
    );
    assert_eq!(state.phase, WorkerPhase::Shutdown);
    assert_eq!(state.current_task_id, 2);
    assert_eq!(state.current_speed, 100);
}

#[test]
fn worker_loop_ignores_events_out_of_turn() {
    let mut state = WorkerLoop::new(100, 5);
    let before = state;
    assert_eq!(state.step(WorkerEvent::Submitted), WorkerAction::Ignore);
    assert_eq!(state.step(WorkerEvent::Acquired { task: task(1, 0, 9) }), WorkerAction::Ignore);
    assert_eq!(state.step(WorkerEvent::AcquireFailed), WorkerAction::Ignore);
    assert_eq!(state.step(WorkerEvent::SubmitFailed), WorkerAction::Ignore);
    assert_eq!(
        state.step(WorkerEvent::Probed { elapsed_secs: 1, force_shutdown: true }),
        WorkerAction::Ignore
    );
    assert_eq!(state, before);
}

#[test]
fn first_interrupt_asks_and_the_second_forces() {
    let mut handler = SignalHandler::new();
    assert_eq!(handler.on_interrupt(7), SignalAction::RequestShutdown);
    assert_eq!(handler.on_interrupt(7), SignalAction::ForceShutdown { release: Some(7) });
    assert_eq!(handler.on_interrupt(0), SignalAction::ForceShutdown { release: None });
    assert_eq!(handler.on_interrupt(-1), SignalAction::ForceShutdown { release: None });
}

#[test]
fn probe_steps() {
    assert_eq!(next_probe_step(None, false), ProbeStep::Probe);
    assert_eq!(next_probe_step(None, true), ProbeStep::Drop);
    assert_eq!(next_probe_step(Some(ProbeOutcome::Retry), false), ProbeStep::Probe);
    assert_eq!(next_probe_step(Some(ProbeOutcome::Retry), true), ProbeStep::Drop);
    assert_eq!(next_probe_step(Some(ProbeOutcome::Valid), false), ProbeStep::Keep);
    assert_eq!(next_probe_step(Some(ProbeOutcome::Valid), true), ProbeStep::Keep);
    assert_eq!(next_probe_step(Some(ProbeOutcome::Invalid), false), ProbeStep::Drop);
    assert_eq!(next_probe_step(Some(ProbeOutcome::Invalid), true), ProbeStep::Drop);
}

#[test]
fn heartbeat_reports() {
    assert_eq!(heartbeat_report(Some(200)), HeartbeatReport::Delivered);
    assert_eq!(heartbeat_report(Some(299)), HeartbeatReport::Delivered);
    assert_eq!(heartbeat_report(Some(199)), HeartbeatReport::Refused { status: 199 });
    assert_eq!(heartbeat_report(Some(300)), HeartbeatReport::Refused { status: 300 });
    assert_eq!(heartbeat_report(Some(404)), HeartbeatReport::Refused { status: 404 });
    assert_eq!(heartbeat_report(Some(500)), HeartbeatReport::Refused { status: 500 });
    assert_eq!(heartbeat_report(None), HeartbeatReport::Unreachable);
}

#[test]
fn keeper_sleeps_first_and_then_takes_turns() {
    let mut keeper = HeartbeatKeeper::new(3, "W1", 10);
    let post = KeeperStep::Post { request: HeartbeatRequest { task_id: 3, worker_id: "W1".to_string() } };
    assert_eq!(keeper.next_step(), KeeperStep::Sleep { secs: 10 });
    assert_eq!(keeper.next_step(), post);
    assert_eq!(keeper.next_step(), KeeperStep::Sleep { secs: 10 });
    assert_eq!(keeper.next_step(), post);
}

#[test]
fn reply_with_the_same_id_is_valid() {
    assert_eq!(classify_reply("C17", &ProbeReply::AppId("C17".to_string())), ProbeOutcome::Valid);
}

#[test]
fn reply_with_another_id_is_asked_again() {
    assert_eq!(classify_reply("C17", &ProbeReply::AppId("C18".to_string())), ProbeOutcome::Retry);
    assert_eq!(classify_reply("C17", &ProbeReply::AppId("".to_string())), ProbeOutcome::Retry);
    assert_eq!(classify_reply("C17", &ProbeReply::AppId("C170".to_string())), ProbeOutcome::Retry);
}

#[test]
fn every_other_reply_is_invalid() {
    for reply in [
        ProbeReply::Unreachable,
        ProbeReply::NoContent,
        ProbeReply::Unreadable,
        ProbeReply::NotAnObject,
        ProbeReply::NoAppId,
        ProbeReply::AppIdNotText,
    ] {
        assert_eq!(classify_reply("C17", &reply), ProbeOutcome::Invalid);
    }
}

#[test]
fn body_is_read_unless_the_reply_announces_none() {
    assert!(has_content(Some(1)));
    assert!(has_content(Some(u64::MAX)));
    assert!(has_content(None));
    assert!(!has_content(Some(0)));
}

#[test]
fn reply_of_unknown_length_that_echoes_the_id_is_valid() {
    assert!(has_content(None));
    assert_eq!(classify_reply("C42", &ProbeReply::AppId("C42".to_string())), ProbeOutcome::Valid);
    assert_eq!(classify_reply("C42", &ProbeReply::Unreadable), ProbeOutcome::Invalid);
}
