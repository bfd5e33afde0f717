//! The worker's side: the phases of its main loop, what it does on an
//! interrupt, how it measures its throughput, and how it treats the
//! outcome of a probe and of a heartbeat.
//!
//! Nothing here waits or sends. Each function takes what has just happened
//! and says what to do next; the caller does it and reports back.

use vstd::prelude::*;
use crate::model::TaskRange;
use crate::probe::ProbeOutcome;
use crate::protocol::{AcquireTaskResponse, HeartbeatRequest};

verus! {

/// IDs per second a worker claims before it has run a task.
pub const DEFAULT_INITIAL_SPEED: u32 = 100;

/// Probes a worker keeps in flight at once.
pub const DEFAULT_CONCURRENCY: usize = 50;

/// Seconds between two heartbeats.
pub const DEFAULT_HEARTBEAT_INTERVAL_SECS: u64 = 10;

/// Seconds a worker waits after a failed request before it starts over.
pub const DEFAULT_RETRY_INTERVAL_SECS: u64 = 5;

/// Seconds a worker rests between two tasks.
pub const PAUSE_BETWEEN_TASKS_SECS: u64 = 1;

/// How many IDs a range holds; none where it ends before it starts.
pub open spec fn id_count(task: TaskRange) -> int {
    if task.end_id < task.start_id {
        0
    } else {
        task.end_id - task.start_id + 1
    }
}

/// IDs per second, rounded down; a run of less than a second counts as one
/// second.
pub open spec fn speed_of(total_ids: int, elapsed_secs: int) -> int {
    if elapsed_secs < 1 {
        total_ids
    } else {
        total_ids / elapsed_secs
    }
}

/// `value`, or the greatest throughput that can be reported where `value`
/// is above it.
pub open spec fn capped(value: int) -> int {
    if value > u32::MAX {
        u32::MAX as int
    } else {
        value
    }
}

/// The throughput of a worker that probed all of `task` in `elapsed_secs`
/// whole seconds.
pub fn measure_speed(task: &AcquireTaskResponse, elapsed_secs: u64) -> (speed: u32)
    ensures
        speed == capped(speed_of(id_count(task@), elapsed_secs as int)),
{
    let total: u128 = if task.end_id < task.start_id {
        0
    } else {
        (task.end_id as i128 - task.start_id as i128 + 1) as u128
    };
    let speed: u128 = if elapsed_secs < 1 {
        total
    } else {
        total / (elapsed_secs as u128)
    };
    if speed > u32::MAX as u128 {
        u32::MAX
    } else {
        speed as u32
    }
}

/// Where the main loop stands.
#[derive(Debug, Clone, Copy, PartialEq, Eq, Structural)]
pub enum WorkerPhase {
    /// Between two tasks.
    Idle,
    /// A request for a task is under way.
    Acquiring,
    /// The probes of `task` are under way, and its heartbeats with them.
    Working { task: AcquireTaskResponse },
    /// The results of `task` are being handed in; `speed` is the throughput
    /// measured on it.
    Submitting { task: AcquireTaskResponse, speed: u32 },
    /// The loop has ended.
    Shutdown,
}

/// What has just happened to the main loop.
#[derive(Debug, Clone, Copy, PartialEq, Eq, Structural)]
pub enum WorkerEvent {
    /// The loop starts over; says whether a shutdown was requested.
    Wake { shutdown_requested: bool },
    /// The coordinator handed out `task`.
    Acquired { task: AcquireTaskResponse },
    /// The request for a task failed, or there was no task.
    AcquireFailed,
    /// Every probe of the range has resolved, after `elapsed_secs` whole
    /// seconds; says whether a forced shutdown cut the probing short.
    Probed { elapsed_secs: u64, force_shutdown: bool },
    /// The coordinator took the results in.
    Submitted,
    /// Handing in the results failed.
    SubmitFailed,
}

/// What the main loop is to do next.
#[derive(Debug, Clone, Copy, PartialEq, Eq, Structural)]
pub enum WorkerAction {
    /// Ask the coordinator for a task and report this throughput.
    Acquire { last_performance: u32 },
    /// Start the heartbeats for `task` and probe its range.
    RunTask { task: AcquireTaskResponse },
    /// Stop the heartbeats and hand in what was found for `task_id`.
    Submit { task_id: i32 },
    /// Wait, then start over.
    Sleep { secs: u64 },
    /// Leave the loop.
    Exit,
    /// The event does not belong to the phase: do nothing.
    Ignore,
}

/// The state of a worker's main loop.
#[derive(Debug, Clone, Copy, PartialEq, Eq, Structural)]
pub struct WorkerLoop {
    pub phase: WorkerPhase,
    /// The task that a forced shutdown has to give back; 0 where there is
    /// none. It stays set from the start of a task until its results are
    /// taken in.
    pub current_task_id: i32,
    /// The throughput reported with the next request for a task.
    pub current_speed: u32,
    /// Seconds to wait after a failed request.
    pub retry_interval: u64,
}

impl WorkerLoop {
    /// The loop after `event`. An event that does not belong to the phase
    /// changes nothing.
    pub open spec fn after(self, event: WorkerEvent) -> WorkerLoop {
        match self.phase {
            WorkerPhase::Idle => match event {
                WorkerEvent::Wake { shutdown_requested } => if shutdown_requested {
                    WorkerLoop { phase: WorkerPhase::Shutdown, ..self }
                } else {
                    WorkerLoop { phase: WorkerPhase::Acquiring, ..self }
                },
                _ => self,
            },
            WorkerPhase::Acquiring => match event {
                WorkerEvent::Acquired { task } => WorkerLoop {
                    phase: WorkerPhase::Working { task },
                    current_task_id: task.task_id,
                    ..self
                },
                WorkerEvent::AcquireFailed => WorkerLoop { phase: WorkerPhase::Idle, ..self },
                _ => self,
            },
            WorkerPhase::Working { task } => match event {
                WorkerEvent::Probed { elapsed_secs, force_shutdown } => if force_shutdown {
                    WorkerLoop { phase: WorkerPhase::Shutdown, ..self }
                } else {
                    WorkerLoop {
                        phase: WorkerPhase::Submitting {
                            task,
                            speed: capped(speed_of(id_count(task@), elapsed_secs as int)) as u32,
                        },
                        ..self
                    }
                },
                _ => self,
            },
            WorkerPhase::Submitting { task, speed } => match event {
                WorkerEvent::Submitted => WorkerLoop {
                    phase: WorkerPhase::Idle,
                    current_task_id: 0,
                    current_speed: speed,
                    ..self
                },
                WorkerEvent::SubmitFailed => WorkerLoop { phase: WorkerPhase::Idle, ..self },
                _ => self,
            },
            WorkerPhase::Shutdown => self,
        }
    }

    /// What the loop is to do on `event`.
    pub open spec fn action_on(self, event: WorkerEvent) -> WorkerAction {
        match self.phase {
            WorkerPhase::Idle => match event {
                WorkerEvent::Wake { shutdown_requested } => if shutdown_requested {
                    WorkerAction::Exit
                } else {
                    WorkerAction::Acquire { last_performance: self.current_speed }
                },
                _ => WorkerAction::Ignore,
            },
            WorkerPhase::Acquiring => match event {
                WorkerEvent::Acquired { task } => WorkerAction::RunTask { task },
                WorkerEvent::AcquireFailed => WorkerAction::Sleep { secs: self.retry_interval },
                _ => WorkerAction::Ignore,
            },
            WorkerPhase::Working { task } => match event {
                WorkerEvent::Probed { elapsed_secs, force_shutdown } => if force_shutdown {
                    WorkerAction::Exit
                } else {
                    WorkerAction::Submit { task_id: task.task_id }
                },
                _ => WorkerAction::Ignore,
            },
            WorkerPhase::Submitting { task, speed } => match event {
                WorkerEvent::Submitted => WorkerAction::Sleep { secs: PAUSE_BETWEEN_TASKS_SECS },
                WorkerEvent::SubmitFailed => WorkerAction::Sleep { secs: self.retry_interval },
                _ => WorkerAction::Ignore,
            },
            WorkerPhase::Shutdown => WorkerAction::Ignore,
        }
    }

    /// A loop that has not started, for a worker that claims
    /// `initial_speed` IDs per second.
    pub fn new(initial_speed: u32, retry_interval: u64) -> (state: WorkerLoop)
        ensures
            state == (WorkerLoop {
                phase: WorkerPhase::Idle,
                current_task_id: 0,
                current_speed: initial_speed,
                retry_interval,
            }),
    {
        WorkerLoop {
            phase: WorkerPhase::Idle,
            current_task_id: 0,
            current_speed: initial_speed,
            retry_interval,
        }
    }

    /// Takes `event` in and says what to do next.
    pub fn step(&mut self, event: WorkerEvent) -> (action: WorkerAction)
        ensures
            *final(self) == old(self).after(event),
            action == old(self).action_on(event),
    {
        match self.phase {
            WorkerPhase::Idle => match event {
                WorkerEvent::Wake { shutdown_requested } => {
                    if shutdown_requested {
                        self.phase = WorkerPhase::Shutdown;
                        WorkerAction::Exit
                    } else {
                        self.phase = WorkerPhase::Acquiring;
                        WorkerAction::Acquire { last_performance: self.current_speed }
                    }
                },
                _ => WorkerAction::Ignore,
            },
            WorkerPhase::Acquiring => match event {
                WorkerEvent::Acquired { task } => {
                    self.phase = WorkerPhase::Working { task };
                    self.current_task_id = task.task_id;
                    WorkerAction::RunTask { task }
                },
                WorkerEvent::AcquireFailed => {
                    self.phase = WorkerPhase::Idle;
                    WorkerAction::Sleep { secs: self.retry_interval }
                },
                _ => WorkerAction::Ignore,
            },
            WorkerPhase::Working { task } => match event {
                WorkerEvent::Probed { elapsed_secs, force_shutdown } => {
                    if force_shutdown {
                        self.phase = WorkerPhase::Shutdown;
                        WorkerAction::Exit
                    } else {
                        let speed = measure_speed(&task, elapsed_secs);
                        self.phase = WorkerPhase::Submitting { task, speed };
                        WorkerAction::Submit { task_id: task.task_id }
                    }
                },
                _ => WorkerAction::Ignore,
            },
            WorkerPhase::Submitting { task, speed } => match event {
                WorkerEvent::Submitted => {
                    self.phase = WorkerPhase::Idle;
                    self.current_task_id = 0;
                    self.current_speed = speed;
                    WorkerAction::Sleep { secs: PAUSE_BETWEEN_TASKS_SECS }
                },
                WorkerEvent::SubmitFailed => {
                    self.phase = WorkerPhase::Idle;
                    WorkerAction::Sleep { secs: self.retry_interval }
                },
                _ => WorkerAction::Ignore,
            },
            WorkerPhase::Shutdown => WorkerAction::Ignore,
        }
    }
}

/// What to do on an interrupt.
#[derive(Debug, Clone, Copy, PartialEq, Eq, Structural)]
pub enum SignalAction {
    /// Ask the main loop to end after the task at hand.
    RequestShutdown,
    /// Stop probing, give `release` back if it names a task, and exit.
    ForceShutdown { release: Option<i32> },
}

/// Counts the interrupts: the first asks for a shutdown, each later one
/// forces it.
#[derive(Debug, Clone, Copy, PartialEq, Eq, Structural)]
pub struct SignalHandler {
    pub first_signal: bool,
}

impl SignalHandler {
    /// A handler that has seen no interrupt yet.
    pub fn new() -> (handler: SignalHandler)
        ensures
            handler.first_signal,
    {
        SignalHandler { first_signal: true }
    }

    /// What to do on an interrupt while the task `current_task_id` is under
    /// way (0 where none is).
    pub open spec fn action_on_interrupt(self, current_task_id: i32) -> SignalAction {
        if self.first_signal {
            SignalAction::RequestShutdown
        } else if current_task_id > 0 {
            SignalAction::ForceShutdown { release: Some(current_task_id) }
        } else {
            SignalAction::ForceShutdown { release: None }
        }
    }

    /// Takes an interrupt in and says what to do.
    pub fn on_interrupt(&mut self, current_task_id: i32) -> (action: SignalAction)
        ensures
            !final(self).first_signal,
            action == old(self).action_on_interrupt(current_task_id),
    {
        if self.first_signal {
            self.first_signal = false;
            SignalAction::RequestShutdown
        } else if current_task_id > 0 {
            SignalAction::ForceShutdown { release: Some(current_task_id) }
        } else {
            SignalAction::ForceShutdown { release: None }
        }
    }
}

/// What to do with an ID in the fan-out.
#[derive(Debug, Clone, Copy, PartialEq, Eq, Structural)]
pub enum ProbeStep {
    /// Probe the ID, for the first time or again.
    Probe,
    /// The ID is valid: keep it.
    Keep,
    /// The ID yields nothing: it is invalid, or the probing was cut short.
    Drop,
}

/// What to do with an ID whose last probe ended in `last` (`None` before the
/// first probe). A stale answer is asked for again, as often as it takes;
/// only a forced shutdown ends that, and then the ID yields nothing.
pub open spec fn probe_step_of(last: Option<ProbeOutcome>, force_shutdown: bool) -> ProbeStep {
    match last {
        Some(ProbeOutcome::Valid) => ProbeStep::Keep,
        Some(ProbeOutcome::Invalid) => ProbeStep::Drop,
        _ => if force_shutdown {
            ProbeStep::Drop
        } else {
            ProbeStep::Probe
        },
    }
}

/// What to do with an ID whose last probe ended in `last` (`None` before the
/// first probe).
pub fn next_probe_step(last: Option<ProbeOutcome>, force_shutdown: bool) -> (step: ProbeStep)
    ensures
        step == probe_step_of(last, force_shutdown),
{
    match last {
        Some(ProbeOutcome::Valid) => ProbeStep::Keep,
        Some(ProbeOutcome::Invalid) => ProbeStep::Drop,
        _ => {
            if force_shutdown {
                ProbeStep::Drop
            } else {
                ProbeStep::Probe
            }
        },
    }
}

/// How a heartbeat fared.
#[derive(Debug, Clone, Copy, PartialEq, Eq, Structural)]
pub enum HeartbeatReport {
    /// The coordinator took it.
    Delivered,
    /// The coordinator answered with a status outside 200 to 299.
    Refused { status: u16 },
    /// The coordinator was not reached.
    Unreachable,
}

/// How a heartbeat fared, given the status that came back (`None` where
/// nothing came back). Whatever the report, the keeper goes on.
pub fn heartbeat_report(status: Option<u16>) -> (report: HeartbeatReport)
    ensures
        report == (match status {
            Some(code) => if 200 <= code <= 299 {
                HeartbeatReport::Delivered
            } else {
                HeartbeatReport::Refused { status: code }
            },
            None => HeartbeatReport::Unreachable,
        }),
{
    match status {
        Some(code) => {
            if 200 <= code && code <= 299 {
                HeartbeatReport::Delivered
            } else {
                HeartbeatReport::Refused { status: code }
            }
        },
        None => HeartbeatReport::Unreachable,
    }
}

/// What the heartbeat keeper is to do next.
#[derive(Debug, Clone, PartialEq, Eq)]
pub enum KeeperStep {
    Sleep { secs: u64 },
    Post { request: HeartbeatRequest },
}

/// Keeps a lease alive: sleeps, posts a heartbeat, and so on until it is
/// dropped. It sleeps first, because the lease has a fresh heartbeat when
/// the task starts.
#[derive(Debug, Clone, PartialEq, Eq)]
pub struct HeartbeatKeeper {
    pub task_id: i32,
    pub worker_id: String,
    pub interval: u64,
    /// Whether the next step is to post.
    pub due: bool,
}

impl HeartbeatKeeper {
    /// A keeper for the lease `task_id` of `worker_id`, about to sleep.
    pub fn new(task_id: i32, worker_id: &str, interval: u64) -> (keeper: HeartbeatKeeper)
        ensures
            keeper.task_id == task_id,
            keeper.worker_id@ == worker_id@,
            keeper.interval == interval,
            !keeper.due,
    {
        HeartbeatKeeper { task_id, worker_id: worker_id.to_owned(), interval, due: false }
    }

    /// The keeper's next step: a sleep and a post take turns.
    pub fn next_step(&mut self) -> (step: KeeperStep)
        ensures
            final(self).task_id == old(self).task_id,
            final(self).worker_id@ == old(self).worker_id@,
            final(self).interval == old(self).interval,
            final(self).due == !old(self).due,
            old(self).due ==> (step matches KeeperStep::Post { request } && request.task_id
                == old(self).task_id && request.worker_id@ == old(self).worker_id@),
            !old(self).due ==> step == (KeeperStep::Sleep { secs: old(self).interval }),
    {
        if self.due {
            self.due = false;
            KeeperStep::Post {
                request: HeartbeatRequest {
                    task_id: self.task_id,
                    worker_id: self.worker_id.clone(),
                },
            }
        } else {
            self.due = true;
            KeeperStep::Sleep { secs: self.interval }
        }
    }
}

} // verus!
