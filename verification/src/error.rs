//! The closed set of failure kinds a flamegraph render can report.

use vstd::prelude::*;
use vstd::string::StringExecFns;

verus! {

/// What went wrong while producing a flamegraph. Every failure is terminal
/// for the current render call; nothing is retried.
#[derive(Debug)]
pub enum FlamegraphError {
    /// Copying a pre-existing destination to its backup sibling failed; the
    /// payload describes the underlying cause.
    BackupFailed(String),
    /// Opening or truncating the destination failed; the payload describes
    /// the underlying cause.
    CreateFailed(String),
    /// A stack's cost snapshot has no entry for the requested event type;
    /// the payload is that event type's name.
    MissingMetric(String),
    /// The external rendering engine rejected its input or failed
    /// internally; the payload describes the underlying cause.
    RenderFailed(String),
}

impl FlamegraphError {
    /// A human-readable description of the failure.
    pub fn message(&self) -> (r: String)
        ensures
            (match self {
                FlamegraphError::BackupFailed(cause) => r@ == "Error copying flamegraph file: "@
                    + cause@,
                FlamegraphError::CreateFailed(cause) => r@ == "Creating flamegraph file failed: "@
                    + cause@,
                FlamegraphError::MissingMetric(event) => r@
                    == "Error creating flamegraph: Event type '"@ + event@ + "' not found"@,
                FlamegraphError::RenderFailed(cause) => r@ == "Creating flamegraph file failed: "@
                    + cause@,
            }),
    {
        match self {
            FlamegraphError::BackupFailed(cause) => {
                let mut r = "Error copying flamegraph file: ".to_owned();
                r.append(cause.as_str());
                r
            },
            FlamegraphError::CreateFailed(cause) => {
                let mut r = "Creating flamegraph file failed: ".to_owned();
                r.append(cause.as_str());
                r
            },
            FlamegraphError::MissingMetric(event) => {
                let mut r = "Error creating flamegraph: Event type '".to_owned();
                r.append(event.as_str());
                r.append("' not found");
                proof {
                    assert(r@ =~= "Error creating flamegraph: Event type '"@ + event@
                        + "' not found"@);
                }
                r
            },
            FlamegraphError::RenderFailed(cause) => {
                let mut r = "Creating flamegraph file failed: ".to_owned();
                r.append(cause.as_str());
                r
            },
        }
    }
}

} // verus!
