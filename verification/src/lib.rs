/*!
An async facility for spawning OS processes, awaiting their termination, and
capturing their output.

The heart of the crate is the process reaper: a per-process singleton that
multiplexes arbitrarily many concurrent exit-waits onto one blocking OS wait,
run by a single background worker thread. This library holds the reaper's
decision core — every mutation of its shared state, and every choice the
worker makes, is a function here with a proved contract. The thin shell that
performs the actual OS calls (spawning, the blocking waits, pipe reads) drives
these functions from outside.
*/
use vstd::prelude::*;

pub mod assoc;
pub mod output;
pub mod parse;
pub mod reaper;
pub mod selector;
pub mod status;
pub mod sudo;
pub mod winworker;

verus! {

/// The error surface of the crate.
///
/// Payloads are the raw OS values: the callers that perform I/O translate
/// their platform error types to and from these.
#[derive(Debug, PartialEq, Eq, Structural)]
pub enum Error {
    /// An error reported by the async I/O collaborator while draining a pipe
    /// (raw OS error value).
    KirunaError(i32),
    /// An I/O error from spawning or from the standard library (raw OS error
    /// value).
    IOError(i32),
    /// A child exited with the contained non-zero status, surfaced as an
    /// error by `ExitStatus::check_err`.
    StatusError(i32),
    /// A Windows API error code.
    WinError(u32),
}

/// Marker called by integration tests to confirm the crate is linked.
pub fn test_is_present() {
}

} // verus!
