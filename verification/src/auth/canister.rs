//! Whether the process has room left.

use vstd::prelude::*;

use crate::auth::file::MAX_FILE_SIZE;
use crate::error::Error;

verus! {

/// The most bytes the process may hold: 16 GB.
pub const MAX_SIZE: u64 = 16000000000;

/// What is held back beside the files: 2 MB.
pub const SAFETY_BUFFER: u64 = 2000000;

/// Whether a process that holds `stable_memory_size` bytes has room for one
/// more file of the largest size.
pub open spec fn has_room(stable_memory_size: u64) -> bool {
    stable_memory_size + MAX_FILE_SIZE - SAFETY_BUFFER < MAX_SIZE
}

/// Checks that the process has room for a file of the largest size, and
/// returns the bytes it holds.
pub fn canister_storage_ok(stable_memory_size: u64) -> (r: Result<u64, Error>)
    ensures
        has_room(stable_memory_size) ==> r == Ok::<u64, Error>(stable_memory_size),
        !has_room(stable_memory_size) ==> r == Err::<u64, Error>(Error::CapacityExceeded),
{
    if stable_memory_size < MAX_SIZE - (MAX_FILE_SIZE - SAFETY_BUFFER) {
        Ok(stable_memory_size)
    } else {
        Err(Error::CapacityExceeded)
    }
}

} // verus!
