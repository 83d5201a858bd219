//! The checks that a call passes before the store is changed.

use vstd::prelude::*;
use vstd::string::StringExecFns;

use crate::auth::canister::{canister_storage_ok, has_room};
use crate::auth::moderation::is_blocked;
use crate::auth::ratelimit::{
    answer_of, blocklist_after, call_verdict, counts_after, logs_after, rate_limit, CallView,
    RateLimitMessageType,
};
use crate::auth::user::{get_logged_in_principal, get_logged_in_superuser, is_superuser};
use crate::auth::Auth;
use crate::database::chunks::{count_chunks_for_file, found_chunks, ChunkStore};
use crate::database::file::{get_file_by_id, FileStore};
use crate::error::Error;
use crate::identity::{anonymous_bytes, Identity};
use crate::models::file::{File, FileView};

verus! {

/// The most bytes of a file: six chunks of 1.9 MB.
pub const MAX_FILE_SIZE: u64 = 11400000;

/// The most chunks of a file.
pub const MAX_CHUNKS: u64 = 6;

/// The most bytes of a chunk: 1.9 MB, just below what one message can carry.
pub const CHUNK_SIZE: u64 = 1900000;

/// Whether a file may declare `number_of_chunks` chunks: one at least, for
/// the first chunk that every file is created of, and six at most. A file
/// that declared none would list more chunks than it declared from the
/// start.
pub open spec fn declared_count_accepted(number_of_chunks: u64) -> bool {
    1 <= number_of_chunks <= MAX_CHUNKS
}

/// Checks that a file declares no more chunks than a file may have, and no
/// fewer than the one it is created of.
pub fn file_size_accepted(caller: &Identity, number_of_chunks: u64) -> (r: Result<Identity, Error>)
    ensures
        r is Ok <==> declared_count_accepted(number_of_chunks),
        r matches Ok(who) ==> who@ == caller@,
        r is Err ==> r == Err::<Identity, Error>(Error::TooManyChunks),
{
    if 1 <= number_of_chunks && number_of_chunks <= MAX_CHUNKS {
        Ok(caller.clone())
    } else {
        Err(Error::TooManyChunks)
    }
}

/// Why `caller` may not change the file `file_id`, if it may not: it is
/// anonymous, there is no such file, or it neither owns the file nor is a
/// superuser.
pub open spec fn ownership_refusal(
    admins: Seq<Seq<char>>,
    files: Map<u64, FileView>,
    caller: Seq<u8>,
    file_id: u64,
) -> Option<Error> {
    if caller == anonymous_bytes() {
        Some(Error::Unauthorized)
    } else if !files.dom().contains(file_id) {
        Some(Error::NotFound)
    } else if !is_superuser(admins, caller) && files[file_id].owner != caller {
        Some(Error::Unauthorized)
    } else {
        None
    }
}

/// Checks that the caller owns the file or is a superuser, and returns the
/// file.
pub fn caller_owns_file_or_is_superuser(
    auth: &Auth,
    files: &FileStore,
    caller: &Identity,
    file_id: u64,
) -> (r: Result<File, Error>)
    ensures
        match ownership_refusal(auth.admins@, files@, caller@, file_id) {
            Some(e) => r == Err::<File, Error>(e),
            None => r matches Ok(file) && file@ == files@[file_id],
        },
{
    match get_logged_in_principal(caller) {
        Ok(_) => match get_file_by_id(files, &file_id) {
            Ok(file) => match get_logged_in_superuser(&auth.admins, caller) {
                Ok(_) => Ok(file),
                Err(_) => {
                    if file.owner == *caller {
                        Ok(file)
                    } else {
                        Err(Error::Unauthorized)
                    }
                },
            },
            Err(e) => Err(e),
        },
        Err(e) => Err(e),
    }
}

/// Checks that the file has room for one more chunk: fewer of its chunks are
/// stored than it declared. A file that holds as many as it declared is
/// full.
pub fn chunks_within_file_size(chunks: &ChunkStore, file: &File) -> (r: Result<String, Error>)
    ensures
        r is Ok <==> found_chunks(chunks@, file.chunk_ids@).len() < file.number_of_chunks,
        r matches Ok(s) ==> s@ == "Chunks are within filesize"@,
        r is Err ==> r == Err::<String, Error>(Error::TooManyChunks),
{
    let stored: usize = count_chunks_for_file(chunks, file);
    if (stored as u64) < file.number_of_chunks {
        Ok(String::from_str("Chunks are within filesize"))
    } else {
        Err(Error::TooManyChunks)
    }
}

/// Checks that a chunk holds no more bytes than a chunk may.
pub fn chunk_size_okay(caller: &Identity, number_of_bytes: usize) -> (r: Result<Identity, Error>)
    ensures
        r is Ok <==> number_of_bytes <= CHUNK_SIZE,
        r matches Ok(who) ==> who@ == caller@,
        r is Err ==> r == Err::<Identity, Error>(Error::OversizedChunk),
{
    if number_of_bytes as u64 <= CHUNK_SIZE {
        Ok(caller.clone())
    } else {
        Err(Error::OversizedChunk)
    }
}

/// Why a caller is not admitted, if it is not: it is anonymous, the limiter
/// turns it away, it is blocked and no superuser, or the process is full.
pub open spec fn admission_refusal(
    auth: &Auth,
    caller: Seq<u8>,
    call_type: RateLimitMessageType,
    now: u64,
    stable_memory_size: u64,
) -> Option<Error> {
    if caller == anonymous_bytes() {
        Some(Error::Unauthorized)
    } else {
        match answer_of(call_verdict(auth, caller, call_type, now)) {
            Err(e) => Some(e),
            Ok(_) => if !is_superuser(auth.admins@, caller) && auth.blocked@.dom().contains(
                caller,
            ) {
                Some(Error::Blocked)
            } else if !has_room(stable_memory_size) {
                Some(Error::CapacityExceeded)
            } else {
                None
            },
        }
    }
}

/// What a caller's passing by the limiter leaves of `before`: nothing new
/// for an anonymous caller, and else what `rate_limit` leaves.
pub open spec fn limiter_passed(
    before: &Auth,
    after: &Auth,
    caller: Seq<u8>,
    call_type: RateLimitMessageType,
    now: u64,
) -> bool {
    if caller == anonymous_bytes() {
        after.same_as(before)
    } else {
        &&& after.admins@ == before.admins@
        &&& after.calls@ == logs_after(
            before.calls@,
            call_verdict(before, caller, call_type, now),
            CallView { time: now, call_type, principal: caller },
        )
        &&& after.warnings@ == counts_after(
            before.warnings@,
            call_verdict(before, caller, call_type, now),
            caller,
        )
        &&& after.blocked@ == blocklist_after(
            before.blocked@,
            before.warnings@,
            call_verdict(before, caller, call_type, now),
            caller,
        )
    }
}

/// Admits a caller: it is not anonymous, the limiter lets it through, it is
/// not blocked unless a superuser, and the process, which holds
/// `stable_memory_size` bytes, has room for a file of the largest size.
pub fn caller_accepted(
    auth: &mut Auth,
    caller: &Identity,
    call_type: RateLimitMessageType,
    now: u64,
    stable_memory_size: u64,
) -> (r: Result<Identity, Error>)
    requires
        old(auth).wf(),
    ensures
        final(auth).wf(),
        limiter_passed(old(auth), final(auth), caller@, call_type, now),
        match admission_refusal(old(auth), caller@, call_type, now, stable_memory_size) {
            Some(e) => r == Err::<Identity, Error>(e),
            None => r matches Ok(who) && who@ == caller@,
        },
{
    match get_logged_in_principal(caller) {
        Ok(principal) => match rate_limit(auth, &principal, call_type, now) {
            Ok(_) => {
                let exempt = get_logged_in_superuser(&auth.admins, &principal).is_ok();
                if !exempt && is_blocked(&auth.blocked, &principal) {
                    Err(Error::Blocked)
                } else {
                    match canister_storage_ok(stable_memory_size) {
                        Ok(_) => Ok(principal),
                        Err(e) => Err(e),
                    }
                }
            },
            Err(e) => Err(e),
        },
        Err(e) => Err(e),
    }
}

} // verus!
