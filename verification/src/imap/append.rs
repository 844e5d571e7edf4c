//! Appending a draft, whose outcome survives a lost connection.
use vstd::prelude::*;

use super::{mailbox, mailbox_verdict, Error, Limits, Metrics};
use crate::text::{byte_len, utf8_len};

verus! {

#[derive(Clone, Copy, Debug, PartialEq, Eq, Structural)]
pub struct AppendUid {
    pub uid_validity: u32,
    pub uid: u32,
}

#[derive(Clone, Copy, Debug, PartialEq, Eq, Structural)]
pub enum AppendOutcome {
    Created { uid: Option<AppendUid> },
    Rejected,
    /// APPEND may have reached the provider. This outcome never permits automatic retry.
    Unknown,
}

/// What is said of a draft before it is sent: which input is refused, and why.
pub open spec fn admission(
    target: Seq<char>,
    header_bytes: nat,
    message_bytes: nat,
    limits: Limits,
) -> Result<(), Error> {
    match mailbox_verdict(target) {
        Err(error) => Err(error),
        Ok(()) => if !limits.valid() {
            Err(Error::InvalidInput)
        } else if header_bytes > limits.max_header_bytes || message_bytes + utf8_len(target) + 128
            > limits.max_operation_bytes {
            Err(Error::Limit)
        } else {
            Ok(())
        },
    }
}

/// Refuses a draft that the limits do not allow, before anything is sent.
pub fn check_draft(target: &str, header_bytes: usize, message_bytes: usize, limits: &Limits) -> (r: Result<
    (),
    Error,
>)
    ensures
        r == admission(target@, header_bytes as nat, message_bytes as nat, *limits),
{
    match mailbox(target) {
        Ok(()) => {},
        Err(error) => {
            return Err(error);
        },
    }
    match limits.validate() {
        Ok(()) => {},
        Err(error) => {
            return Err(error);
        },
    }
    let total: usize = message_bytes.saturating_add(byte_len(target)).saturating_add(128);
    if header_bytes > limits.max_header_bytes || total > limits.max_operation_bytes {
        return Err(Error::Limit);
    }
    Ok(())
}

/// Admits a draft, and forgets what was known of an earlier one.
pub fn prepare(
    target: &str,
    header_bytes: usize,
    message_bytes: usize,
    limits: &Limits,
    metrics: &mut Metrics,
) -> (r: Result<(), Error>)
    ensures
        r == admission(target@, header_bytes as nat, message_bytes as nat, *limits),
        *final(metrics) == (Metrics {
            append_outcome: None,
            append_wire_bytes: 0,
            mime_bytes: if r is Ok {
                message_bytes
            } else {
                0
            },
            ..*old(metrics)
        }),
{
    metrics.append_outcome = None;
    metrics.append_wire_bytes = 0;
    metrics.mime_bytes = 0;
    let admitted = check_draft(target, header_bytes, message_bytes, limits);
    if admitted.is_ok() {
        metrics.mime_bytes = message_bytes;
    }
    admitted
}

/// What happens to a draft on its way.
#[derive(Clone, Copy, Debug, PartialEq, Eq, Structural)]
pub enum AppendEvent {
    /// So many bytes are about to leave.
    Sending { bytes: usize },
    Accepted { uid: Option<AppendUid> },
    Refused,
}

/// What is known after an event. From the first byte on, the provider may have the draft.
pub open spec fn noted(metrics: Metrics, event: AppendEvent) -> Metrics {
    match event {
        AppendEvent::Sending { bytes } => Metrics {
            append_outcome: Some(AppendOutcome::Unknown),
            append_wire_bytes: if metrics.append_wire_bytes + bytes > usize::MAX {
                usize::MAX
            } else {
                (metrics.append_wire_bytes + bytes) as usize
            },
            ..metrics
        },
        AppendEvent::Accepted { uid } => Metrics {
            append_outcome: Some(AppendOutcome::Created { uid }),
            ..metrics
        },
        AppendEvent::Refused => Metrics { append_outcome: Some(AppendOutcome::Rejected), ..metrics },
    }
}

/// Keeps what an event tells of the draft, so that it survives a lost connection.
pub fn note(metrics: &mut Metrics, event: AppendEvent)
    ensures
        *final(metrics) == noted(*old(metrics), event),
{
    match event {
        AppendEvent::Sending { bytes } => {
            metrics.append_outcome = Some(AppendOutcome::Unknown);
            metrics.append_wire_bytes = metrics.append_wire_bytes.saturating_add(bytes);
        },
        AppendEvent::Accepted { uid } => {
            metrics.append_outcome = Some(AppendOutcome::Created { uid });
        },
        AppendEvent::Refused => {
            metrics.append_outcome = Some(AppendOutcome::Rejected);
        },
    }
}

/// The outcome of an append: what was learned of it, whatever became of the connection; without that,
/// the failure of the connection.
pub open spec fn settled(outcome: Option<AppendOutcome>, failure: Option<Error>) -> Result<
    AppendOutcome,
    Error,
> {
    match outcome {
        Some(outcome) => Ok(outcome),
        None => Err(
            match failure {
                Some(error) => error,
                None => Error::Protocol,
            },
        ),
    }
}

pub fn settle(outcome: Option<AppendOutcome>, failure: Option<Error>) -> (r: Result<
    AppendOutcome,
    Error,
>)
    ensures
        r == settled(outcome, failure),
{
    match outcome {
        Some(outcome) => Ok(outcome),
        None => Err(
            match failure {
                Some(error) => error,
                None => Error::Protocol,
            },
        ),
    }
}

/// What is known after all these events.
pub open spec fn noted_all(metrics: Metrics, events: Seq<AppendEvent>) -> Metrics
    decreases events.len(),
{
    if events.len() == 0 {
        metrics
    } else {
        noted(noted_all(metrics, events.drop_last()), events.last())
    }
}

/// An append of which anything was sent is never reported as a mere failure, which would invite another
/// attempt: unless the provider answered, its outcome is unknown.
pub proof fn sent_drafts_have_an_outcome(
    metrics: Metrics,
    events: Seq<AppendEvent>,
    failure: Option<Error>,
)
    requires
        events.len() > 0,
    ensures
        settled(noted_all(metrics, events).append_outcome, failure) == Ok::<AppendOutcome, Error>(
            match events.last() {
                AppendEvent::Sending { .. } => AppendOutcome::Unknown,
                AppendEvent::Accepted { uid } => AppendOutcome::Created { uid },
                AppendEvent::Refused => AppendOutcome::Rejected,
            },
        ),
{
}

/// A draft is sent exactly where its mailbox has a plain name, the limits are valid, and its headers and
/// the whole command fit them.
pub proof fn drafts_are_admitted_within_limits(target: Seq<char>, header_bytes: nat, message_bytes: nat, limits: Limits)
    ensures
        admission(target, header_bytes, message_bytes, limits) is Ok <==> mailbox_verdict(target) is Ok
            && limits.valid() && header_bytes <= limits.max_header_bytes && message_bytes + utf8_len(target) + 128
            <= limits.max_operation_bytes,
        mailbox_verdict(target) is Err ==> admission(target, header_bytes, message_bytes, limits) == mailbox_verdict(
            target,
        ),
        mailbox_verdict(target) is Ok && limits.valid() && admission(target, header_bytes, message_bytes, limits) is Err
            ==> admission(target, header_bytes, message_bytes, limits) == Err::<(), Error>(Error::Limit),
{
}

/// What is known of the outcome outweighs the failure of the connection; without it the failure counts.
pub proof fn outcomes_outweigh_failures(outcome: Option<AppendOutcome>, failure: Option<Error>)
    ensures
        outcome matches Some(known) ==> settled(outcome, failure) == Ok::<AppendOutcome, Error>(known),
        outcome is None ==> settled(outcome, failure) is Err,
        outcome is None ==> (failure matches Some(error) ==> settled(outcome, failure) == Err::<AppendOutcome, Error>(
            error,
        )),
        outcome is None && failure is None ==> settled(outcome, failure) == Err::<AppendOutcome, Error>(
            Error::Protocol,
        ),
{
}

/// Sending counts its bytes and leaves the outcome open; an answer settles it and counts nothing.
pub proof fn sending_leaves_the_outcome_open(metrics: Metrics, event: AppendEvent)
    ensures
        event matches AppendEvent::Sending { bytes } ==> noted(metrics, event).append_outcome == Some(
            AppendOutcome::Unknown,
        ) && (metrics.append_wire_bytes + bytes <= usize::MAX ==> noted(metrics, event).append_wire_bytes
            == metrics.append_wire_bytes + bytes),
        event is Refused ==> noted(metrics, event).append_outcome == Some(AppendOutcome::Rejected),
        event matches AppendEvent::Accepted { uid } ==> noted(metrics, event).append_outcome == Some(
            AppendOutcome::Created { uid },
        ),
        !(event is Sending) ==> noted(metrics, event).append_wire_bytes == metrics.append_wire_bytes,
        noted(metrics, event).wire_bytes == metrics.wire_bytes && noted(metrics, event).responses == metrics.responses,
{
}

} // verus!
