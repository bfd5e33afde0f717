//! What a probe's reply says of the ID that was asked for.
//!
//! The upstream names each ID by a text, and echoes that text in the reply
//! when it knows the ID. A reply is read into a `ProbeReply` by whoever
//! talks to the upstream; what it means is decided here.

use vstd::prelude::*;

verus! {

/// What a probe says of an ID.
#[derive(Debug, Clone, Copy, PartialEq, Eq, Structural)]
pub enum ProbeOutcome {
    /// The upstream echoed the ID that was asked for.
    Valid,
    /// The upstream knows no such ID, answered nothing, or was not reached.
    Invalid,
    /// The upstream echoed another ID: the answer is stale, ask again.
    Retry,
}

/// What came back from the upstream.
#[derive(Debug, Clone, PartialEq, Eq)]
pub enum ProbeReply {
    /// No reply: the request failed on the way.
    Unreachable,
    /// A reply without a body.
    NoContent,
    /// A body that is not a JSON document.
    Unreadable,
    /// A JSON document that is not an object.
    NotAnObject,
    /// An object without an echoed ID.
    NoAppId,
    /// An object whose echoed ID is not a text.
    AppIdNotText,
    /// An object that echoes this ID.
    AppId(String),
}

/// Whether a reply may have a body, given the length it announced: only a
/// reply that announces a length of 0 has none. A reply that announces no
/// length is read; if its body turns out empty, it is unreadable.
pub fn has_content(content_length: Option<u64>) -> (present: bool)
    ensures
        present <==> content_length != Some(0u64),
{
    match content_length {
        Some(length) => length > 0,
        None => true,
    }
}

/// What `reply` says of the ID named `expected`: valid where the reply
/// echoes that very name, to be asked again where it echoes another one,
/// and invalid in every other case, an unreachable upstream included.
pub open spec fn outcome_of(expected: Seq<char>, reply: ProbeReply) -> ProbeOutcome {
    match reply {
        ProbeReply::AppId(echoed) => if echoed@ == expected {
            ProbeOutcome::Valid
        } else {
            ProbeOutcome::Retry
        },
        _ => ProbeOutcome::Invalid,
    }
}

/// What `reply` says of the ID named `expected`.
pub fn classify_reply(expected: &str, reply: &ProbeReply) -> (outcome: ProbeOutcome)
    ensures
        outcome == outcome_of(expected@, *reply),
{
    match reply {
        ProbeReply::AppId(echoed) => {
            let wanted: String = expected.to_owned();
            if *echoed == wanted {
                ProbeOutcome::Valid
            } else {
                ProbeOutcome::Retry
            }
        },
        _ => ProbeOutcome::Invalid,
    }
}

} // verus!
