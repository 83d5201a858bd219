use vstd::prelude::*;

verus! {

/// Why an operation was refused.
#[derive(Clone, Copy, Debug, PartialEq, Eq, Structural)]
pub enum Error {
    /// The caller is anonymous, or is neither the owner nor a superuser.
    Unauthorized,
    /// Too many calls inside the burst window.
    RateLimited,
    /// Too many files created inside one day.
    DailyLimitReached,
    /// The caller is on the blocklist.
    Blocked,
    /// The process has no room left for a file of the largest size.
    CapacityExceeded,
    /// A chunk holds more bytes than a chunk may.
    OversizedChunk,
    /// A file declares no chunk or more than a file may have, or it is full:
    /// it holds as many chunks as it declared.
    TooManyChunks,
    /// The MIME type is not one of the supported ones.
    UnsupportedType,
    /// No such file, chunk or ledger entry.
    NotFound,
    /// A fresh chunk or file id is already taken: the counters are corrupt.
    AlreadyAllocated,
    /// The key of a record is larger than the store accepts.
    KeyTooLarge,
    /// A record is larger than the store accepts.
    ValueTooLarge,
}

impl Error {
    /// The text shown to the caller for this error.
    pub open spec fn spec_message(self) -> Seq<char> {
        match self {
            Error::Unauthorized => "Unauthorized"@,
            Error::RateLimited => "Rate limit reached"@,
            Error::DailyLimitReached => "Daily image limit reached"@,
            Error::Blocked => "Blocked"@,
            Error::CapacityExceeded => "Canister is full"@,
            Error::OversizedChunk => "Too many bytes in chunk"@,
            Error::TooManyChunks => "All chunks already allocated for file"@,
            Error::UnsupportedType => "Unsupported file type"@,
            Error::NotFound => "file not found"@,
            Error::AlreadyAllocated => "Attempting to overwrite chunk on insert"@,
            Error::KeyTooLarge => "Key is too large for the store"@,
            Error::ValueTooLarge => "Record is too large for the store"@,
        }
    }

    /// The text shown to the caller for this error.
    pub fn message(&self) -> (s: &'static str)
        ensures
            s@ == self.spec_message(),
    {
        match self {
            Error::Unauthorized => "Unauthorized",
            Error::RateLimited => "Rate limit reached",
            Error::DailyLimitReached => "Daily image limit reached",
            Error::Blocked => "Blocked",
            Error::CapacityExceeded => "Canister is full",
            Error::OversizedChunk => "Too many bytes in chunk",
            Error::TooManyChunks => "All chunks already allocated for file",
            Error::UnsupportedType => "Unsupported file type",
            Error::NotFound => "file not found",
            Error::AlreadyAllocated => "Attempting to overwrite chunk on insert",
            Error::KeyTooLarge => "Key is too large for the store",
            Error::ValueTooLarge => "Record is too large for the store",
        }
    }
}

} // verus!
