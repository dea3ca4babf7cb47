//! Output capture: the result of awaiting a child's exit while draining its
//! standard output and standard error concurrently.
//!
//! The two pipe reads and the exit-wait run as three concurrent computations
//! in the shell — draining both pipes while awaiting exit is what avoids the
//! classic deadlock where the child blocks on a full pipe. Once all three
//! have settled, [`Output::from_parts`] combines their values: the reads are
//! merged fail-fast (exactly one read error is surfaced), and a non-zero exit
//! code is not an error — callers classify it with
//! [`crate::status::ExitStatus`].

use vstd::prelude::*;
use crate::Error;
use crate::status::ExitStatus;

verus! {

/// A fully drained pipe's contents.
#[derive(Debug)]
pub struct OutputBuffer {
    data: Vec<u8>,
}

impl View for OutputBuffer {
    type V = Seq<u8>;

    closed spec fn view(&self) -> Seq<u8> {
        self.data@
    }
}

impl OutputBuffer {
    /// Wrap the bytes a pipe read produced.
    pub fn new(data: Vec<u8>) -> (r: OutputBuffer)
        ensures
            r@ == data@,
    {
        OutputBuffer { data }
    }

    /// The captured bytes.
    pub fn as_slice(&self) -> (r: &[u8])
        ensures
            r@ == self@,
    {
        self.data.as_slice()
    }

    /// How many bytes were captured.
    pub fn len(&self) -> (r: usize)
        ensures
            r == self@.len(),
    {
        self.data.len()
    }
}

/// What `output` hands the caller: the exit status and both drained pipes.
#[derive(Debug)]
pub struct Output {
    pub status: ExitStatus,
    pub stdout: OutputBuffer,
    pub stderr: OutputBuffer,
}

impl Output {
    /// Combine the three settled computations. Read failures carry the raw
    /// OS error of the I/O collaborator; exactly one is surfaced, the
    /// standard-output read's first. On success the buffers hold exactly the
    /// bytes each read produced, and the exit status is passed through
    /// unjudged.
    pub fn from_parts(status: ExitStatus, stdout: Result<Vec<u8>, i32>, stderr: Result<
        Vec<u8>,
        i32,
    >) -> (r: Result<Output, Error>)
        ensures
            r is Ok <==> (stdout is Ok && stderr is Ok),
            r matches Ok(out) ==> out.status == status && out.stdout@ == stdout->Ok_0@
                && out.stderr@ == stderr->Ok_0@,
            stdout matches Err(e) ==> r == Err::<Output, Error>(Error::KirunaError(e)),
            stdout is Ok ==> (stderr matches Err(e) ==> r == Err::<Output, Error>(
                Error::KirunaError(e),
            )),
    {
        match (stdout, stderr) {
            (Ok(o), Ok(e)) => Ok(
                Output { status, stdout: OutputBuffer::new(o), stderr: OutputBuffer::new(e) },
            ),
            (Err(e), _) => Err(Error::KirunaError(e)),
            (Ok(_), Err(e)) => Err(Error::KirunaError(e)),
        }
    }
}

} // verus!
