//! The kinds of failure an encode or decode operation can report.
use vstd::prelude::*;

verus! {

/// Why an encode or decode operation stopped.
#[derive(Clone, Copy, Debug, PartialEq, Eq, Structural)]
pub enum ErrorKind {
    /// The byte sink or source behind a transcode reported a failure. The
    /// transcoder itself works on buffers in memory and never reports this
    /// kind; it is there for callers that put a sink or a source around it.
    Io,
    /// The magic number is wrong, or the buffer breaks a rule of the format.
    InvalidFormat,
    /// The buffer, or one of its streams, ends before its content does.
    Truncated,
    /// A variable-length integer does not fit the field it is read for.
    Overflow,
}

impl ErrorKind {
    /// A short fixed text for each kind.
    pub open spec fn description_text(self) -> Seq<char> {
        match self {
            ErrorKind::Io => "the byte sink or source failed"@,
            ErrorKind::InvalidFormat => "the buffer is not in the expected format"@,
            ErrorKind::Truncated => "the buffer ends before its content does"@,
            ErrorKind::Overflow => "a variable-length integer is too wide"@,
        }
    }

    /// A short fixed text that tells the kinds apart.
    pub fn description(&self) -> (text: &'static str)
        ensures
            text@ == self.description_text(),
    {
        match self {
            ErrorKind::Io => "the byte sink or source failed",
            ErrorKind::InvalidFormat => "the buffer is not in the expected format",
            ErrorKind::Truncated => "the buffer ends before its content does",
            ErrorKind::Overflow => "a variable-length integer is too wide",
        }
    }
}

} // verus!
