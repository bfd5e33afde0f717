//! Messages exchanged between the coordinator and its workers.

use vstd::prelude::*;

verus! {

/// A worker asks for a range to probe.
#[derive(Debug, Clone, PartialEq, Eq)]
pub struct AcquireTaskRequest {
    /// Identifier of the asking worker.
    pub worker_id: String,
    /// IDs per second the worker reached on its last task, if it has run one.
    pub last_performance: Option<u32>,
}

/// The range handed to a worker: every ID from `start_id` to `end_id`, both included.
#[derive(Debug, Clone, Copy, PartialEq, Eq, Structural)]
pub struct AcquireTaskResponse {
    pub task_id: i32,
    pub start_id: i64,
    pub end_id: i64,
}

/// A worker reports that it is still busy with a task.
#[derive(Debug, Clone, PartialEq, Eq)]
pub struct HeartbeatRequest {
    pub task_id: i32,
    pub worker_id: String,
}

/// A worker hands in the valid IDs it found in a task's range.
#[derive(Debug, Clone, PartialEq, Eq)]
pub struct SubmitResultRequest {
    pub task_id: i32,
    pub valid_ids: Vec<i64>,
}

/// A worker gives a task back before finishing it.
#[derive(Debug, Clone, PartialEq, Eq)]
pub struct ReleaseTaskRequest {
    pub task_id: i32,
    pub worker_id: String,
}

/// The envelope of every reply: either `data` or `error` is present, and
/// `success` says which.
#[derive(Debug, Clone, PartialEq, Eq)]
pub struct ApiResponse<T> {
    pub success: bool,
    pub data: Option<T>,
    pub error: Option<String>,
}

/// Why an envelope yields no payload.
#[derive(Debug, Clone, PartialEq, Eq)]
pub enum EnvelopeError {
    /// The sender reported a failure, with this message.
    Rejected(String),
    /// The sender reported a failure and gave no message.
    Unexplained,
    /// The sender reported success and sent no payload.
    MissingData,
}

impl<T> ApiResponse<T> {
    /// A successful envelope carries a payload and no error; a failed one
    /// carries an error and no payload.
    pub open spec fn is_consistent(&self) -> bool {
        if self.success {
            self.data is Some && self.error is None
        } else {
            self.data is None && self.error is Some
        }
    }

    /// What a receiver makes of the envelope when it expects a payload.
    pub open spec fn payload(self) -> Result<T, EnvelopeError> {
        if !self.success {
            match self.error {
                Some(msg) => Err(EnvelopeError::Rejected(msg)),
                None => Err(EnvelopeError::Unexplained),
            }
        } else {
            match self.data {
                Some(data) => Ok(data),
                None => Err(EnvelopeError::MissingData),
            }
        }
    }

    /// What a receiver makes of the envelope when only the verdict matters.
    pub open spec fn verdict(&self) -> Result<(), EnvelopeError> {
        if self.success {
            Ok(())
        } else {
            match self.error {
                Some(msg) => Err(EnvelopeError::Rejected(msg)),
                None => Err(EnvelopeError::Unexplained),
            }
        }
    }

    /// The envelope of a success that carries `data`.
    pub fn success(data: T) -> (response: Self)
        ensures
            response.success,
            response.data == Some(data),
            response.error is None,
            response.is_consistent(),
    {
        ApiResponse { success: true, data: Some(data), error: None }
    }

    /// The envelope of a failure explained by `msg`.
    pub fn error(msg: String) -> (response: Self)
        ensures
            !response.success,
            response.data is None,
            response.error == Some(msg),
            response.is_consistent(),
    {
        ApiResponse { success: false, data: None, error: Some(msg) }
    }

    /// Unpacks the payload of an envelope: the sender's failure comes first,
    /// then a missing payload.
    pub fn into_payload(self) -> (outcome: Result<T, EnvelopeError>)
        ensures
            outcome == self.payload(),
            self.is_consistent() ==> (outcome is Ok <==> self.success),
    {
        if !self.success {
            match self.error {
                Some(msg) => Err(EnvelopeError::Rejected(msg)),
                None => Err(EnvelopeError::Unexplained),
            }
        } else {
            match self.data {
                Some(data) => Ok(data),
                None => Err(EnvelopeError::MissingData),
            }
        }
    }

    /// Reads the verdict of an envelope whose payload is of no interest.
    pub fn into_verdict(self) -> (outcome: Result<(), EnvelopeError>)
        ensures
            outcome == self.verdict(),
            outcome is Ok <==> self.success,
    {
        if self.success {
            Ok(())
        } else {
            match self.error {
                Some(msg) => Err(EnvelopeError::Rejected(msg)),
                None => Err(EnvelopeError::Unexplained),
            }
        }
    }
}

impl EnvelopeError {
    /// The text shown for the error.
    pub open spec fn message_text(&self) -> Seq<char> {
        match self {
            EnvelopeError::Rejected(msg) => msg@,
            EnvelopeError::Unexplained => "unknown error"@,
            EnvelopeError::MissingData => "no task data"@,
        }
    }

    /// The text shown for the error: the sender's own message where it gave one.
    pub fn message(&self) -> (text: String)
        ensures
            text@ == self.message_text(),
    {
        match self {
            EnvelopeError::Rejected(msg) => msg.clone(),
            EnvelopeError::Unexplained => "unknown error".to_owned(),
            EnvelopeError::MissingData => "no task data".to_owned(),
        }
    }
}

} // verus!
