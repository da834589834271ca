//! The end-of-stream protocol of a finished sort's output: rows are read
//! and yielded until the runs are exhausted or a read fails; then the
//! scratch directory is cleaned up, once, before the stream ends, and a
//! failure of the cleanup is reported as one last error.

use vstd::prelude::*;

verus! {

/// Where the output stream stands.
#[derive(Debug, Clone, Copy, PartialEq, Eq, Structural)]
pub enum OutputPhase {
    /// Rows are still being merged.
    Merging,
    /// A read failed and was reported; cleanup is still to run.
    Failed,
    /// The cleanup is running.
    Closing,
    /// Cleanup is over; the stream yields nothing more.
    Done,
}

/// What just happened.
#[derive(Debug, Clone, Copy, PartialEq, Eq, Structural)]
pub enum OutputEvent {
    /// The consumer asks for the next item.
    Poll,
    /// The merge produced a row.
    RowRead,
    /// The merge has no rows left.
    RunsExhausted,
    /// Reading a row failed.
    ReadFailed,
    /// Removing the scratch directory succeeded.
    CleanupSucceeded,
    /// Removing the scratch directory failed.
    CleanupFailed,
}

/// What the stream must do next.
#[derive(Debug, Clone, Copy, PartialEq, Eq, Structural)]
pub enum OutputAction {
    /// Read the next row from the merge.
    ReadRow,
    /// Yield the row's value.
    YieldValue,
    /// Yield the error that just occurred.
    YieldError,
    /// Remove the scratch directory.
    CleanUp,
    /// End the stream.
    End,
}

/// Whether `event` can happen in `phase` under the protocol.
pub open spec fn valid_event(phase: OutputPhase, event: OutputEvent) -> bool {
    match phase {
        OutputPhase::Merging => event != OutputEvent::CleanupSucceeded && event
            != OutputEvent::CleanupFailed,
        OutputPhase::Failed => event == OutputEvent::Poll,
        OutputPhase::Closing => event == OutputEvent::CleanupSucceeded || event
            == OutputEvent::CleanupFailed,
        OutputPhase::Done => event == OutputEvent::Poll,
    }
}

/// The protocol's transition table.
pub open spec fn output_step_spec(phase: OutputPhase, event: OutputEvent) -> (
    OutputPhase,
    OutputAction,
) {
    match (phase, event) {
        (OutputPhase::Merging, OutputEvent::Poll) => (OutputPhase::Merging, OutputAction::ReadRow),
        (OutputPhase::Merging, OutputEvent::RowRead) => (
            OutputPhase::Merging,
            OutputAction::YieldValue,
        ),
        (OutputPhase::Merging, OutputEvent::RunsExhausted) => (
            OutputPhase::Closing,
            OutputAction::CleanUp,
        ),
        (OutputPhase::Merging, OutputEvent::ReadFailed) => (
            OutputPhase::Failed,
            OutputAction::YieldError,
        ),
        (OutputPhase::Failed, OutputEvent::Poll) => (OutputPhase::Closing, OutputAction::CleanUp),
        (OutputPhase::Closing, OutputEvent::CleanupSucceeded) => (
            OutputPhase::Done,
            OutputAction::End,
        ),
        (OutputPhase::Closing, OutputEvent::CleanupFailed) => (
            OutputPhase::Done,
            OutputAction::YieldError,
        ),
        _ => (OutputPhase::Done, OutputAction::End),
    }
}

/// One step of the output protocol. A poll while merging reads a row; a row
/// is yielded; exhaustion starts the cleanup; a failed read is yielded as an
/// error and the next poll starts the cleanup; a finished cleanup ends the
/// stream, after yielding its error if it failed; a finished stream stays
/// finished. An event the protocol does not allow in a phase finishes the
/// stream.
pub fn output_step(phase: OutputPhase, event: OutputEvent) -> (next: (OutputPhase, OutputAction))
    ensures
        next == output_step_spec(phase, event),
{
    match (phase, event) {
        (OutputPhase::Merging, OutputEvent::Poll) => (OutputPhase::Merging, OutputAction::ReadRow),
        (OutputPhase::Merging, OutputEvent::RowRead) => (
            OutputPhase::Merging,
            OutputAction::YieldValue,
        ),
        (OutputPhase::Merging, OutputEvent::RunsExhausted) => (
            OutputPhase::Closing,
            OutputAction::CleanUp,
        ),
        (OutputPhase::Merging, OutputEvent::ReadFailed) => (
            OutputPhase::Failed,
            OutputAction::YieldError,
        ),
        (OutputPhase::Failed, OutputEvent::Poll) => (OutputPhase::Closing, OutputAction::CleanUp),
        (OutputPhase::Closing, OutputEvent::CleanupSucceeded) => (
            OutputPhase::Done,
            OutputAction::End,
        ),
        (OutputPhase::Closing, OutputEvent::CleanupFailed) => (
            OutputPhase::Done,
            OutputAction::YieldError,
        ),
        _ => (OutputPhase::Done, OutputAction::End),
    }
}

/// Law: under the protocol, the stream ends only when finished or right
/// after a successful cleanup, so the scratch directory is always cleaned
/// up before the end; a cleanup starts only once the merge is exhausted or
/// a failed read has been reported; every error is yielded once, after
/// which no further row is read; and a finished stream stays finished.
pub proof fn law_cleanup_before_end(phase: OutputPhase, event: OutputEvent)
    ensures
        ({
            let next = output_step_spec(phase, event);
            &&& next.1 == OutputAction::End && phase != OutputPhase::Done ==> (phase
                == OutputPhase::Closing && event == OutputEvent::CleanupSucceeded) || !(
            valid_event(phase, event))
            &&& next.1 == OutputAction::CleanUp ==> (phase == OutputPhase::Merging && event
                == OutputEvent::RunsExhausted) || (phase == OutputPhase::Failed && event
                == OutputEvent::Poll)
            &&& phase == OutputPhase::Done ==> next == (OutputPhase::Done, OutputAction::End)
            &&& next.1 == OutputAction::YieldError ==> next.0 != OutputPhase::Merging
        }),
{
}

} // verus!
