//! What any caller may ask for: to create a file, to add a chunk to it, to
//! delete it, and to read.

use vstd::prelude::*;

use crate::api::file::FEFile;
use crate::auth::file::{
    admission_refusal, caller_accepted, caller_owns_file_or_is_superuser, chunk_size_okay,
    chunks_within_file_size, declared_count_accepted, file_size_accepted, limiter_passed,
    ownership_refusal, CHUNK_SIZE,
};
use crate::auth::ratelimit::{answer_of, call_verdict, rate_limit, RateLimitMessageType};
use crate::auth::user::get_logged_in_principal;
use crate::database::chunks::{chunk_put, found_chunks, put_chunk_refusal};
use crate::database::consistency::{
    consistent, lemma_all_found, lemma_create_keeps_consistent, lemma_delete_keeps_consistent,
    lemma_put_keeps_consistent, stored_under_id,
};
use crate::database::file::{create_file_refusal, created_file, file_created, file_deleted};
use crate::error::Error;
use crate::identity::anonymous_bytes;
use crate::models::file::{FileChunk, FileView};
use crate::{CallContext, Canister};

verus! {

/// Why a file is not created, if it is not: the caller is not admitted, the
/// file declares no chunk or too many, the first chunk is too large, or the
/// store refuses.
pub open spec fn create_refusal(
    canister: &Canister,
    ctx: &CallContext,
    first_chunk: Seq<u8>,
    file_name: Seq<char>,
    number_of_chunks: u64,
    file_type: Seq<char>,
) -> Option<Error> {
    match admission_refusal(
        &canister.auth,
        ctx.caller@,
        RateLimitMessageType::CreateFile,
        ctx.now,
        ctx.stable_memory_size,
    ) {
        Some(e) => Some(e),
        None => if !declared_count_accepted(number_of_chunks) {
            Some(Error::TooManyChunks)
        } else if first_chunk.len() > CHUNK_SIZE {
            Some(Error::OversizedChunk)
        } else {
            create_file_refusal(
                &canister.db,
                &canister.deployment,
                first_chunk,
                file_name,
                number_of_chunks,
                file_type,
                ctx.caller@,
                ctx.now,
            )
        },
    }
}

/// Creates a file of its first chunk for the caller, who becomes its owner.
/// The file declares one chunk at least, the one it is created of, and six
/// at most. The caller passes by the limiter whether the file is created or
/// not; where it is not, the store stays as it was.
pub fn create_file(
    canister: &mut Canister,
    ctx: &CallContext,
    first_chunk: Vec<u8>,
    file_name: String,
    number_of_chunks: u64,
    file_type: String,
) -> (r: Result<FEFile, Error>)
    requires
        old(canister).wf(),
    ensures
        final(canister).wf(),
        final(canister).deployment == old(canister).deployment,
        final(canister).db.limits_as(&old(canister).db),
        consistent(old(canister).db.files@, old(canister).db.chunks@) ==> consistent(
            final(canister).db.files@,
            final(canister).db.chunks@,
        ),
        limiter_passed(
            &old(canister).auth,
            &final(canister).auth,
            ctx.caller@,
            RateLimitMessageType::CreateFile,
            ctx.now,
        ),
        match create_refusal(
            old(canister),
            ctx,
            first_chunk@,
            file_name@,
            number_of_chunks,
            file_type@,
        ) {
            Some(e) => r == Err::<FEFile, Error>(e) && final(canister).db.same_as(
                &old(canister).db,
            ),
            None => {
                &&& r matches Ok(fe)
                &&& fe@ == created_file(
                    &old(canister).db,
                    &old(canister).deployment,
                    first_chunk@,
                    file_name@,
                    number_of_chunks,
                    file_type@,
                    ctx.caller@,
                    ctx.now,
                ).fe_view()
                &&& file_created(
                    &old(canister).db,
                    &final(canister).db,
                    created_file(
                        &old(canister).db,
                        &old(canister).deployment,
                        first_chunk@,
                        file_name@,
                        number_of_chunks,
                        file_type@,
                        ctx.caller@,
                        ctx.now,
                    ),
                    first_chunk@,
                    ctx.now,
                )
            },
        },
{
    let principal = match caller_accepted(
        &mut canister.auth,
        &ctx.caller,
        RateLimitMessageType::CreateFile,
        ctx.now,
        ctx.stable_memory_size,
    ) {
        Ok(principal) => principal,
        Err(e) => {
            return Err(e);
        },
    };
    match file_size_accepted(&principal, number_of_chunks) {
        Ok(_) => {},
        Err(e) => {
            return Err(e);
        },
    }
    match chunk_size_okay(&principal, first_chunk.len()) {
        Ok(_) => {},
        Err(e) => {
            return Err(e);
        },
    }
    let ghost chunk = first_chunk@;
    match crate::database::file::create_file(
        &mut canister.db,
        &canister.deployment,
        first_chunk,
        file_name,
        number_of_chunks,
        file_type,
        principal,
        ctx.now,
    ) {
        Ok(file) => {
            proof {
                if consistent(old(canister).db.files@, old(canister).db.chunks@) {
                    lemma_create_keeps_consistent(
                        &old(canister).db,
                        &canister.db,
                        file@,
                        chunk,
                        ctx.now,
                    );
                }
            }
            Ok(file.create_fe_type())
        },
        Err(e) => Err(e),
    }
}

/// Whether the caller gets as far as the limiter when it asks to delete the
/// file `file_id`: it is not anonymous, and it owns the file or is a
/// superuser.
pub open spec fn may_delete(canister: &Canister, ctx: &CallContext, file_id: u64) -> bool {
    ownership_refusal(canister.auth.admins@, canister.db.files@, ctx.caller@, file_id) is None
}

/// Why a file is not deleted, if it is not: the caller may not delete it, or
/// the limiter turns the caller away.
pub open spec fn delete_refusal(canister: &Canister, ctx: &CallContext, file_id: u64) -> Option<
    Error,
> {
    match ownership_refusal(canister.auth.admins@, canister.db.files@, ctx.caller@, file_id) {
        Some(e) => Some(e),
        None => match answer_of(
            call_verdict(
                &canister.auth,
                ctx.caller@,
                RateLimitMessageType::DeleteFile,
                ctx.now,
            ),
        ) {
            Err(e) => Some(e),
            Ok(_) => None,
        },
    }
}

/// Deletes the file `file_id` with its chunks, for its owner or a superuser.
/// A caller who may delete the file passes by the limiter, where the
/// deletion makes up for the latest creation. Where the file is not deleted,
/// the store stays as it was.
pub fn delete_file(canister: &mut Canister, ctx: &CallContext, file_id: u64) -> (r: Result<
    String,
    Error,
>)
    requires
        old(canister).wf(),
    ensures
        final(canister).wf(),
        final(canister).deployment == old(canister).deployment,
        final(canister).db.limits_as(&old(canister).db),
        consistent(old(canister).db.files@, old(canister).db.chunks@) ==> consistent(
            final(canister).db.files@,
            final(canister).db.chunks@,
        ),
        may_delete(old(canister), ctx, file_id) ==> limiter_passed(
            &old(canister).auth,
            &final(canister).auth,
            ctx.caller@,
            RateLimitMessageType::DeleteFile,
            ctx.now,
        ),
        !may_delete(old(canister), ctx, file_id) ==> final(canister).auth.same_as(
            &old(canister).auth,
        ),
        match delete_refusal(old(canister), ctx, file_id) {
            Some(e) => r == Err::<String, Error>(e) && final(canister).db.same_as(
                &old(canister).db,
            ),
            None => {
                &&& r matches Ok(s)
                &&& s@ == "File deleted"@
                &&& file_deleted(&old(canister).db, &final(canister).db, file_id)
            },
        },
{
    match caller_owns_file_or_is_superuser(
        &canister.auth,
        &canister.db.files,
        &ctx.caller,
        file_id,
    ) {
        Ok(_) => {},
        Err(e) => {
            return Err(e);
        },
    }
    match rate_limit(&mut canister.auth, &ctx.caller, RateLimitMessageType::DeleteFile, ctx.now) {
        Ok(_) => {},
        Err(e) => {
            return Err(e);
        },
    }
    let r = crate::database::file::delete_file(&mut canister.db, file_id);
    proof {
        if consistent(old(canister).db.files@, old(canister).db.chunks@) {
            lemma_delete_keeps_consistent(&old(canister).db, &canister.db, file_id);
        }
    }
    r
}

/// Why a chunk is not added to the file `file_id`, if it is not: the caller
/// is anonymous, the limiter turns it away, it may not change the file, the
/// file is full, that is holds as many chunks as it declared or more, the
/// chunk is too large, or the store refuses.
pub open spec fn put_refusal(
    canister: &Canister,
    ctx: &CallContext,
    file_id: u64,
    chunk: Seq<u8>,
) -> Option<Error> {
    if ctx.caller@ == anonymous_bytes() {
        Some(Error::Unauthorized)
    } else {
        match answer_of(
            call_verdict(
                &canister.auth,
                ctx.caller@,
                RateLimitMessageType::UpdateFile,
                ctx.now,
            ),
        ) {
            Err(e) => Some(e),
            Ok(_) => match ownership_refusal(
                canister.auth.admins@,
                canister.db.files@,
                ctx.caller@,
                file_id,
            ) {
                Some(e) => Some(e),
                None => if found_chunks(
                    canister.db.chunks@,
                    canister.db.files@[file_id].chunk_ids,
                ).len() >= canister.db.files@[file_id].number_of_chunks {
                    Some(Error::TooManyChunks)
                } else if chunk.len() > CHUNK_SIZE {
                    Some(Error::OversizedChunk)
                } else {
                    put_chunk_refusal(&canister.db, canister.db.files@[file_id], chunk, ctx.now)
                },
            },
        }
    }
}

/// Adds a chunk to the file `file_id`, for its owner or a superuser, and
/// returns the file as it was before. A file that holds as many chunks as it
/// declared is full and takes none. The caller passes by the limiter whether
/// the chunk is added or not; where it is not, the store stays as it was.
pub fn put_chunk(
    canister: &mut Canister,
    ctx: &CallContext,
    file_id: u64,
    chunk: Vec<u8>,
    order_id: u64,
) -> (r: Result<FEFile, Error>)
    requires
        old(canister).wf(),
    ensures
        final(canister).wf(),
        final(canister).deployment == old(canister).deployment,
        final(canister).db.limits_as(&old(canister).db),
        consistent(old(canister).db.files@, old(canister).db.chunks@) ==> consistent(
            final(canister).db.files@,
            final(canister).db.chunks@,
        ),
        limiter_passed(
            &old(canister).auth,
            &final(canister).auth,
            ctx.caller@,
            RateLimitMessageType::UpdateFile,
            ctx.now,
        ),
        match put_refusal(old(canister), ctx, file_id, chunk@) {
            Some(e) => r == Err::<FEFile, Error>(e) && final(canister).db.same_as(
                &old(canister).db,
            ),
            None => {
                &&& r matches Ok(fe)
                &&& fe@ == old(canister).db.files@[file_id].fe_view()
                &&& chunk_put(
                    &old(canister).db,
                    &final(canister).db,
                    old(canister).db.files@[file_id],
                    chunk@,
                    order_id,
                    ctx.now,
                )
            },
        },
{
    let principal = match get_logged_in_principal(&ctx.caller) {
        Ok(principal) => principal,
        Err(e) => {
            return Err(e);
        },
    };
    match rate_limit(&mut canister.auth, &principal, RateLimitMessageType::UpdateFile, ctx.now) {
        Ok(_) => {},
        Err(e) => {
            return Err(e);
        },
    }
    let file = match caller_owns_file_or_is_superuser(
        &canister.auth,
        &canister.db.files,
        &principal,
        file_id,
    ) {
        Ok(file) => file,
        Err(e) => {
            return Err(e);
        },
    };
    match chunks_within_file_size(&canister.db.chunks, &file) {
        Ok(_) => {},
        Err(e) => {
            return Err(e);
        },
    }
    match chunk_size_okay(&principal, chunk.len()) {
        Ok(_) => {},
        Err(e) => {
            return Err(e);
        },
    }
    let ghost added = chunk@;
    match crate::database::chunks::put_chunk(&mut canister.db, &file, chunk, order_id, ctx.now) {
        Ok(_) => {
            proof {
                if consistent(old(canister).db.files@, old(canister).db.chunks@) {
                    lemma_put_keeps_consistent(
                        &old(canister).db,
                        &canister.db,
                        file_id,
                        added,
                        order_id,
                        ctx.now,
                    );
                }
            }
            Ok(file.create_fe_type())
        },
        Err(e) => Err(e),
    }
}

/// The chunk `chunk_id`, for any caller.
pub fn get_chunk_by_id(canister: &Canister, chunk_id: u64) -> (r: Result<FileChunk, Error>)
    ensures
        r is Ok <==> canister.db.chunks@.dom().contains(chunk_id),
        r matches Ok(c) ==> c@ == canister.db.chunks@[chunk_id],
        r is Err ==> r == Err::<FileChunk, Error>(Error::NotFound),
{
    crate::database::chunks::get_chunk_by_id(&canister.db.chunks, chunk_id)
}

/// The number that the next file gets, for any caller.
pub fn get_current_file_id(canister: &Canister) -> (r: Result<u64, Error>)
    ensures
        r == Ok::<u64, Error>(canister.db.files.next_id()),
{
    Ok(crate::database::file::get_current_file_id(&canister.db.files))
}

/// The file `file_id`, for any caller.
pub fn get_file_by_id(canister: &Canister, file_id: u64) -> (r: Result<FEFile, Error>)
    ensures
        r is Ok <==> canister.db.files@.dom().contains(file_id),
        r matches Ok(fe) ==> fe@ == canister.db.files@[file_id].fe_view(),
        r is Err ==> r == Err::<FEFile, Error>(Error::NotFound),
{
    match crate::database::file::get_file_by_id(&canister.db.files, &file_id) {
        Ok(file) => Ok(file.create_fe_type()),
        Err(e) => Err(e),
    }
}

/// A full file takes no further chunk: where a file lists as many chunks as
/// it declared, whoever gets as far as the count is refused for it.
pub proof fn lemma_full_file_refuses(
    canister: &Canister,
    ctx: &CallContext,
    file_id: u64,
    chunk: Seq<u8>,
)
    requires
        consistent(canister.db.files@, canister.db.chunks@),
        ctx.caller@ != anonymous_bytes(),
        answer_of(
            call_verdict(
                &canister.auth,
                ctx.caller@,
                RateLimitMessageType::UpdateFile,
                ctx.now,
            ),
        ) is Ok,
        ownership_refusal(canister.auth.admins@, canister.db.files@, ctx.caller@, file_id) is None,
        canister.db.files@[file_id].chunk_ids.len() >= canister.db.files@[file_id].number_of_chunks,
    ensures
        put_refusal(canister, ctx, file_id, chunk) == Some(Error::TooManyChunks),
{
    let file = canister.db.files@[file_id];
    assert forall|i: int| 0 <= i < file.chunk_ids.len() implies canister.db.chunks@.dom().contains(
        #[trigger] file.chunk_ids[i],
    ) by {
        assert(canister.db.chunks@.dom().contains(canister.db.files@[file_id].chunk_ids[i]));
    }
    lemma_all_found(canister.db.chunks@, file.chunk_ids);
}

/// No file declares more chunks than a file may have, nor fewer than one.
pub open spec fn declared_within_limit(files: Map<u64, FileView>) -> bool {
    forall|k: u64|
        files.dom().contains(k) ==> declared_count_accepted((#[trigger] files[k]).number_of_chunks)
}

/// A file that a caller creates declares no more chunks than a file may
/// have, so that no stored file ever does.
pub proof fn lemma_create_keeps_declared(
    canister: &Canister,
    after: &Canister,
    ctx: &CallContext,
    first_chunk: Seq<u8>,
    file_name: Seq<char>,
    number_of_chunks: u64,
    file_type: Seq<char>,
)
    requires
        declared_within_limit(canister.db.files@),
        create_refusal(canister, ctx, first_chunk, file_name, number_of_chunks, file_type) is None,
        file_created(
            &canister.db,
            &after.db,
            created_file(
                &canister.db,
                &canister.deployment,
                first_chunk,
                file_name,
                number_of_chunks,
                file_type,
                ctx.caller@,
                ctx.now,
            ),
            first_chunk,
            ctx.now,
        ),
    ensures
        declared_within_limit(after.db.files@),
{
}

/// Adding a chunk to a stored file leaves what the files declared as it was.
pub proof fn lemma_put_keeps_declared(
    canister: &Canister,
    after: &Canister,
    ctx: &CallContext,
    file_id: u64,
    chunk: Seq<u8>,
    order_id: u64,
)
    requires
        declared_within_limit(canister.db.files@),
        stored_under_id(canister.db.files@),
        canister.db.files@.dom().contains(file_id),
        chunk_put(
            &canister.db,
            &after.db,
            canister.db.files@[file_id],
            chunk,
            order_id,
            ctx.now,
        ),
    ensures
        declared_within_limit(after.db.files@),
        after.db.files@[file_id].owner == canister.db.files@[file_id].owner,
        after.db.files@[file_id].number_of_chunks == canister.db.files@[file_id].number_of_chunks,
{
}

/// A file that a caller creates lists no more chunks than it declared: the
/// store stays consistent.
pub proof fn lemma_create_file_keeps_consistent(
    canister: &Canister,
    after: &Canister,
    ctx: &CallContext,
    first_chunk: Seq<u8>,
    file_name: Seq<char>,
    number_of_chunks: u64,
    file_type: Seq<char>,
)
    requires
        consistent(canister.db.files@, canister.db.chunks@),
        create_refusal(canister, ctx, first_chunk, file_name, number_of_chunks, file_type) is None,
        file_created(
            &canister.db,
            &after.db,
            created_file(
                &canister.db,
                &canister.deployment,
                first_chunk,
                file_name,
                number_of_chunks,
                file_type,
                ctx.caller@,
                ctx.now,
            ),
            first_chunk,
            ctx.now,
        ),
    ensures
        consistent(after.db.files@, after.db.chunks@),
{
    lemma_create_keeps_consistent(
        &canister.db,
        &after.db,
        created_file(
            &canister.db,
            &canister.deployment,
            first_chunk,
            file_name,
            number_of_chunks,
            file_type,
            ctx.caller@,
            ctx.now,
        ),
        first_chunk,
        ctx.now,
    );
}

/// A chunk that a caller adds leaves the file with no more chunks than it
/// declared: the store stays consistent.
pub proof fn lemma_put_chunk_keeps_consistent(
    canister: &Canister,
    after: &Canister,
    ctx: &CallContext,
    file_id: u64,
    chunk: Seq<u8>,
    order_id: u64,
)
    requires
        consistent(canister.db.files@, canister.db.chunks@),
        put_refusal(canister, ctx, file_id, chunk) is None,
        chunk_put(
            &canister.db,
            &after.db,
            canister.db.files@[file_id],
            chunk,
            order_id,
            ctx.now,
        ),
    ensures
        consistent(after.db.files@, after.db.chunks@),
        after.db.files@[file_id].chunk_ids.len() <= after.db.files@[file_id].number_of_chunks,
{
    lemma_put_keeps_consistent(&canister.db, &after.db, file_id, chunk, order_id, ctx.now);
}

} // verus!
