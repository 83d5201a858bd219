//! What superusers may do to files.

use vstd::prelude::*;

use crate::api::file::FEFile;
use crate::auth::canister::{canister_storage_ok, has_room};
use crate::auth::file::{
    chunk_size_okay, declared_count_accepted, file_size_accepted, CHUNK_SIZE,
};
use crate::auth::user::{get_logged_in_superuser, is_superuser};
use crate::database::consistency::{consistent, lemma_create_keeps_consistent};
use crate::database::file::{create_file_refusal, created_file, file_created};
use crate::error::Error;
use crate::identity::Identity;
use crate::{CallContext, Canister};

verus! {

/// Why a superuser's file is not created, if it is not: the caller is no
/// superuser, the process is full, the file declares no chunk or too many,
/// the first chunk is too large, or the store refuses.
pub open spec fn prune_refusal(
    canister: &Canister,
    ctx: &CallContext,
    first_chunk: Seq<u8>,
    file_name: Seq<char>,
    number_of_chunks: u64,
    file_type: Seq<char>,
    principal: Seq<u8>,
) -> Option<Error> {
    if !is_superuser(canister.auth.admins@, ctx.caller@) {
        Some(Error::Unauthorized)
    } else if !has_room(ctx.stable_memory_size) {
        Some(Error::CapacityExceeded)
    } else if !declared_count_accepted(number_of_chunks) {
        Some(Error::TooManyChunks)
    } else if first_chunk.len() > CHUNK_SIZE {
        Some(Error::OversizedChunk)
    } else {
        create_file_refusal(
            &canister.db,
            &canister.deployment,
            first_chunk,
            file_name,
            number_of_chunks,
            file_type,
            principal,
            ctx.now,
        )
    }
}

/// Creates a file of its first chunk for `principal`, at the word of a
/// superuser: the limiter and the blocklist are not asked, the sizes and the
/// room are checked as for anyone. Where the file is not created, nothing
/// changes.
pub fn prune_file(
    canister: &mut Canister,
    ctx: &CallContext,
    first_chunk: Vec<u8>,
    file_name: String,
    number_of_chunks: u64,
    file_type: String,
    principal: Identity,
) -> (r: Result<FEFile, Error>)
    requires
        old(canister).wf(),
    ensures
        final(canister).wf(),
        final(canister).deployment == old(canister).deployment,
        final(canister).auth == old(canister).auth,
        final(canister).db.limits_as(&old(canister).db),
        consistent(old(canister).db.files@, old(canister).db.chunks@) ==> consistent(
            final(canister).db.files@,
            final(canister).db.chunks@,
        ),
        match prune_refusal(
            old(canister),
            ctx,
            first_chunk@,
            file_name@,
            number_of_chunks,
            file_type@,
            principal@,
        ) {
            Some(e) => r == Err::<FEFile, Error>(e) && final(canister).db.same_as(
                &old(canister).db,
            ),
            None => {
                &&& r matches Ok(fe)
                &&& fe@ == created_file(
                    &old(canister).db,
                    &old(canister).deployment,
                    first_chunk@,
                    file_name@,
                    number_of_chunks,
                    file_type@,
                    principal@,
                    ctx.now,
                ).fe_view()
                &&& file_created(
                    &old(canister).db,
                    &final(canister).db,
                    created_file(
                        &old(canister).db,
                        &old(canister).deployment,
                        first_chunk@,
                        file_name@,
                        number_of_chunks,
                        file_type@,
                        principal@,
                        ctx.now,
                    ),
                    first_chunk@,
                    ctx.now,
                )
            },
        },
{
    match get_logged_in_superuser(&canister.auth.admins, &ctx.caller) {
        Ok(_) => {},
        Err(e) => {
            return Err(e);
        },
    }
    match canister_storage_ok(ctx.stable_memory_size) {
        Ok(_) => {},
        Err(e) => {
            return Err(e);
        },
    }
    match file_size_accepted(&ctx.caller, number_of_chunks) {
        Ok(_) => {},
        Err(e) => {
            return Err(e);
        },
    }
    match chunk_size_okay(&ctx.caller, first_chunk.len()) {
        Ok(_) => {},
        Err(e) => {
            return Err(e);
        },
    }
    let ghost chunk = first_chunk@;
    match crate::database::file::create_file(
        &mut canister.db,
        &canister.deployment,
        first_chunk,
        file_name,
        number_of_chunks,
        file_type,
        principal,
        ctx.now,
    ) {
        Ok(file) => {
            proof {
                if consistent(old(canister).db.files@, old(canister).db.chunks@) {
                    lemma_create_keeps_consistent(
                        &old(canister).db,
                        &canister.db,
                        file@,
                        chunk,
                        ctx.now,
                    );
                }
            }
            Ok(file.create_fe_type())
        },
        Err(e) => Err(e),
    }
}

} // verus!
