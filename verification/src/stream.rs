//! Status codes of chunked VGM streaming, as small integers for callers across a C boundary.
use vstd::prelude::*;

verus! {

/// Why pushing a chunk of VGM data failed.
#[derive(Clone, Copy, Debug, PartialEq, Eq, Structural)]
pub enum PushError {
    /// The header could not be read, or its fields are inconsistent.
    HeaderParse,
    /// The stream refused the pushed data.
    PushInvalid,
    /// A command could not be read while iterating.
    IterParse,
    /// A command could not be read during the final drain.
    FinalParse,
}

impl PushError {
    /// The numeric code of this error: 1 to 4, in declaration order.
    pub fn code(self) -> (code: u8)
        ensures
            code == push_error_code(self),
    {
        match self {
            PushError::HeaderParse => 1,
            PushError::PushInvalid => 2,
            PushError::IterParse => 3,
            PushError::FinalParse => 4,
        }
    }

    /// The error with numeric code `code`, if any.
    pub fn from_code(code: u8) -> (error: Option<PushError>)
        ensures
            error matches Some(e) ==> push_error_code(e) == code,
            error is None <==> !(1 <= code <= 4),
    {
        if code == 1 {
            Some(PushError::HeaderParse)
        } else if code == 2 {
            Some(PushError::PushInvalid)
        } else if code == 3 {
            Some(PushError::IterParse)
        } else if code == 4 {
            Some(PushError::FinalParse)
        } else {
            None
        }
    }
}

pub open spec fn push_error_code(error: PushError) -> u8 {
    match error {
        PushError::HeaderParse => 1,
        PushError::PushInvalid => 2,
        PushError::IterParse => 3,
        PushError::FinalParse => 4,
    }
}

/// The outcome of a streaming call: positive to continue, zero when finished, negative on error.
#[derive(Clone, Copy, Debug, PartialEq, Eq, Structural)]
pub enum PushStatus {
    /// A loop boundary was crossed; the caller rewinds to the restart position.
    LoopRewind,
    /// The caller sends the next chunk or calls again.
    NeedsMore,
    /// Playback has finished.
    EndOfStream,
    /// The header could not be read, or the stream was not set up.
    HeaderParse,
    /// The pushed chunk was refused.
    PushInvalid,
    /// A command could not be read while draining the stream.
    IterParse,
}

pub open spec fn push_status_code(status: PushStatus) -> int {
    match status {
        PushStatus::LoopRewind => 2,
        PushStatus::NeedsMore => 1,
        PushStatus::EndOfStream => 0,
        PushStatus::HeaderParse => -1,
        PushStatus::PushInvalid => -2,
        PushStatus::IterParse => -3,
    }
}

impl PushStatus {
    /// The numeric code of this status: 2 and 1 to continue, 0 when finished, -1 to -3 on
    /// errors.
    pub fn code(self) -> (code: i8)
        ensures
            code == push_status_code(self),
    {
        match self {
            PushStatus::LoopRewind => 2,
            PushStatus::NeedsMore => 1,
            PushStatus::EndOfStream => 0,
            PushStatus::HeaderParse => -1,
            PushStatus::PushInvalid => -2,
            PushStatus::IterParse => -3,
        }
    }

    /// The status with numeric code `code`, if any.
    pub fn from_code(code: i8) -> (status: Option<PushStatus>)
        ensures
            status matches Some(s) ==> push_status_code(s) == code,
            status is None <==> !(-3 <= code <= 2),
    {
        if code == 2 {
            Some(PushStatus::LoopRewind)
        } else if code == 1 {
            Some(PushStatus::NeedsMore)
        } else if code == 0 {
            Some(PushStatus::EndOfStream)
        } else if code == -1 {
            Some(PushStatus::HeaderParse)
        } else if code == -2 {
            Some(PushStatus::PushInvalid)
        } else if code == -3 {
            Some(PushStatus::IterParse)
        } else {
            None
        }
    }
}

/// Distinct statuses have distinct codes, so a code names its status.
pub proof fn lemma_push_status_codes_distinct(a: PushStatus, b: PushStatus)
    ensures
        push_status_code(a) == push_status_code(b) ==> a == b,
{
}

/// Distinct errors have distinct codes, so a code names its error.
pub proof fn lemma_push_error_codes_distinct(a: PushError, b: PushError)
    ensures
        push_error_code(a) == push_error_code(b) ==> a == b,
{
}

} // verus!
