//! How one read during a capture ended, and what the capture does with it.
use vstd::prelude::*;

verus! {

/// How one read of a report ended: data came back, nothing came back (a
/// timeout or an empty report), or the read failed.
#[derive(Debug, Clone, Copy, PartialEq, Eq, Structural)]
pub enum CaptureStatus {
    Data,
    Empty,
    Failed,
}

/// The status of a read that returned `Ok(size)` or failed (`Err`).
pub fn capture_status(read: Result<usize, ()>) -> (status: CaptureStatus)
    ensures
        status == match read {
            Ok(size) => if size > 0 {
                CaptureStatus::Data
            } else {
                CaptureStatus::Empty
            },
            Err(_) => CaptureStatus::Failed,
        },
{
    match read {
        Ok(size) => if size > 0 {
            CaptureStatus::Data
        } else {
            CaptureStatus::Empty
        },
        Err(_) => CaptureStatus::Failed,
    }
}

impl CaptureStatus {
    /// The word the series index records: `ok`, `empty` or `error`.
    pub fn label(self) -> (s: &'static str)
        ensures
            s@ == match self {
                CaptureStatus::Data => "ok"@,
                CaptureStatus::Empty => "empty"@,
                CaptureStatus::Failed => "error"@,
            },
    {
        match self {
            CaptureStatus::Data => "ok",
            CaptureStatus::Empty => "empty",
            CaptureStatus::Failed => "error",
        }
    }

    /// The extension of the file a series sample is saved to: the report
    /// itself (`bin`), or a text saying what happened (`txt`).
    pub fn file_extension(self) -> (s: &'static str)
        ensures
            s@ == if self == CaptureStatus::Data {
                "bin"@
            } else {
                "txt"@
            },
    {
        match self {
            CaptureStatus::Data => "bin",
            _ => "txt",
        }
    }

    /// The extension of the file a state capture keeps for a feature report:
    /// the report (`bin`), the error (`txt`), or no file for an empty one.
    pub fn state_feature_extension(self) -> (s: Option<&'static str>)
        ensures
            match self {
                CaptureStatus::Data => s matches Some(e) && e@ == "bin"@,
                CaptureStatus::Empty => s is None,
                CaptureStatus::Failed => s matches Some(e) && e@ == "txt"@,
            },
    {
        match self {
            CaptureStatus::Data => Some("bin"),
            CaptureStatus::Empty => None,
            CaptureStatus::Failed => Some("txt"),
        }
    }

    /// Whether a run of input samples stops here: after the first failed read.
    pub fn ends_sampling(self) -> (stop: bool)
        ensures
            stop == (self == CaptureStatus::Failed),
    {
        match self {
            CaptureStatus::Failed => true,
            _ => false,
        }
    }
}

} // verus!
