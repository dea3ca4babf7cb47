//! Exit-status helpers: the only interpretation the crate applies to a raw
//! exit status is the zero / non-zero classification made here.

use vstd::prelude::*;
use crate::Error;

verus! {

/// The sentinel returned by [`ExitStatus::check`] for a process that
/// terminated without a normal exit code (for example, by a signal).
pub const NO_CODE_SENTINEL: i32 = -1;

/// A child's exit status: `Some(code)` when the process exited normally with
/// `code`, `None` when it terminated without a normal exit code.
#[derive(Debug, Clone, Copy, PartialEq, Eq, Structural)]
pub struct ExitStatus {
    code: Option<i32>,
}

impl ExitStatus {
    /// The exit code, if the process exited normally.
    pub closed spec fn spec_code(&self) -> Option<i32> {
        self.code
    }

    pub fn new(code: Option<i32>) -> (r: ExitStatus)
        ensures
            r.spec_code() == code,
    {
        ExitStatus { code }
    }

    #[verifier::when_used_as_spec(spec_code)]
    pub fn code(&self) -> (r: Option<i32>)
        ensures
            r == self.spec_code(),
    {
        self.code
    }

    /// Checks for a non-zero status code: `Ok(())` iff the process exited
    /// with code zero; otherwise the non-zero code, or
    /// [`NO_CODE_SENTINEL`] when there is no code at all.
    pub fn check(&self) -> (r: Result<(), i32>)
        ensures
            r == Ok::<(), i32>(()) <==> self.spec_code() == Some(0i32),
            self.spec_code() matches Some(c) ==> (c != 0 ==> r == Err::<(), i32>(c)),
            self.spec_code() is None ==> r == Err::<(), i32>(NO_CODE_SENTINEL),
    {
        match self.code {
            None => Err(NO_CODE_SENTINEL),
            Some(0) => Ok(()),
            Some(other) => Err(other),
        }
    }

    /// [`ExitStatus::check`], with the non-zero code wrapped into
    /// [`Error::StatusError`].
    pub fn check_err(&self) -> (r: Result<(), Error>)
        ensures
            r == Ok::<(), Error>(()) <==> self.spec_code() == Some(0i32),
            self.spec_code() matches Some(c) ==> (c != 0 ==> r == Err::<(), Error>(
                Error::StatusError(c),
            )),
            self.spec_code() is None ==> r == Err::<(), Error>(
                Error::StatusError(NO_CODE_SENTINEL),
            ),
    {
        match self.check() {
            Ok(()) => Ok(()),
            Err(e) => Err(Error::StatusError(e)),
        }
    }
}

} // verus!
