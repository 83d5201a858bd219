//! What superusers may do to the blocklist.

use vstd::prelude::*;
use vstd::string::StringExecFns;

use crate::auth::moderation::blocked_entry;
use crate::auth::ratelimit::{logs_compacted, Warning};
use crate::auth::user::{get_logged_in_superuser, is_superuser};
use crate::codec::identity_views;
use crate::database::consistency::{consistent, lemma_removal_keeps_consistent};
use crate::database::file::{chunks_listed, owned_by};
use crate::error::Error;
use crate::identity::Identity;
use crate::{CallContext, Canister};

verus! {

/// Blocks `principal`, at the word of a superuser.
pub fn block_user(canister: &mut Canister, ctx: &CallContext, principal: &Identity) -> (r: Result<
    String,
    Error,
>)
    requires
        old(canister).wf(),
    ensures
        final(canister).wf(),
        final(canister).db == old(canister).db,
        final(canister).deployment == old(canister).deployment,
        final(canister).auth.admins == old(canister).auth.admins,
        final(canister).auth.calls == old(canister).auth.calls,
        final(canister).auth.warnings == old(canister).auth.warnings,
        r is Ok <==> is_superuser(old(canister).auth.admins@, ctx.caller@),
        r matches Ok(s) ==> s@ == "User blocked"@ && final(canister).auth.blocked@
            == old(canister).auth.blocked@.insert(principal@, blocked_entry(principal@)),
        r is Err ==> r == Err::<String, Error>(Error::Unauthorized) && final(canister).auth.blocked@
            == old(canister).auth.blocked@,
{
    match get_logged_in_superuser(&canister.auth.admins, &ctx.caller) {
        Ok(_) => {
            crate::auth::moderation::block_user(&mut canister.auth.blocked, principal);
            Ok(String::from_str("User blocked"))
        },
        Err(e) => Err(e),
    }
}

/// Blocks `principal` and deletes its files with their chunks, at the word
/// of a superuser.
pub fn block_and_delete_user(
    canister: &mut Canister,
    ctx: &CallContext,
    principal: &Identity,
) -> (r: Result<String, Error>)
    requires
        old(canister).wf(),
    ensures
        final(canister).wf(),
        final(canister).deployment == old(canister).deployment,
        final(canister).auth.admins == old(canister).auth.admins,
        final(canister).auth.calls == old(canister).auth.calls,
        final(canister).auth.warnings == old(canister).auth.warnings,
        final(canister).db.users == old(canister).db.users,
        final(canister).db.limits_as(&old(canister).db),
        consistent(old(canister).db.files@, old(canister).db.chunks@) ==> consistent(
            final(canister).db.files@,
            final(canister).db.chunks@,
        ),
        final(canister).db.files.next_id() == old(canister).db.files.next_id(),
        final(canister).db.chunks.next_id() == old(canister).db.chunks.next_id(),
        r is Ok <==> is_superuser(old(canister).auth.admins@, ctx.caller@),
        r matches Ok(s) ==> {
            &&& s@ == "User blocked and deleted"@
            &&& final(canister).auth.blocked@ == old(canister).auth.blocked@.insert(
                principal@,
                blocked_entry(principal@),
            )
            &&& final(canister).db.files@ == old(canister).db.files@.remove_keys(
                owned_by(old(canister).db.files@, principal@),
            )
            &&& final(canister).db.chunks@ == old(canister).db.chunks@.remove_keys(
                chunks_listed(
                    old(canister).db.files@,
                    owned_by(old(canister).db.files@, principal@),
                ),
            )
        },
        r is Err ==> r == Err::<String, Error>(Error::Unauthorized) && final(canister).auth.blocked@
            == old(canister).auth.blocked@ && final(canister).db.same_as(&old(canister).db),
{
    match get_logged_in_superuser(&canister.auth.admins, &ctx.caller) {
        Ok(_) => {
            crate::auth::moderation::block_and_delete_user(
                &mut canister.auth.blocked,
                &mut canister.db,
                principal,
            );
            proof {
                if consistent(old(canister).db.files@, old(canister).db.chunks@) {
                    lemma_removal_keeps_consistent(
                        old(canister).db.files@,
                        old(canister).db.chunks@,
                        owned_by(old(canister).db.files@, principal@),
                    );
                }
            }
            Ok(String::from_str("User blocked and deleted"))
        },
        Err(e) => Err(e),
    }
}

/// Takes `principal` off the blocklist, at the word of a superuser.
pub fn unblock_user(canister: &mut Canister, ctx: &CallContext, principal: &Identity) -> (r: Result<
    String,
    Error,
>)
    requires
        old(canister).wf(),
    ensures
        final(canister).wf(),
        final(canister).db == old(canister).db,
        final(canister).deployment == old(canister).deployment,
        final(canister).auth.admins == old(canister).auth.admins,
        final(canister).auth.calls == old(canister).auth.calls,
        final(canister).auth.warnings == old(canister).auth.warnings,
        r is Ok <==> is_superuser(old(canister).auth.admins@, ctx.caller@),
        r matches Ok(s) ==> s@ == "User unblocked"@ && final(canister).auth.blocked@
            == old(canister).auth.blocked@.remove(principal@),
        r is Err ==> r == Err::<String, Error>(Error::Unauthorized) && final(canister).auth.blocked@
            == old(canister).auth.blocked@,
{
    match get_logged_in_superuser(&canister.auth.admins, &ctx.caller) {
        Ok(_) => {
            crate::auth::moderation::unblock_user(&mut canister.auth.blocked, principal);
            Ok(String::from_str("User unblocked"))
        },
        Err(e) => Err(e),
    }
}

/// The counts of warnings, for a superuser.
pub fn get_warnings(canister: &Canister, ctx: &CallContext) -> (r: Result<Vec<Warning>, Error>)
    requires
        canister.wf(),
    ensures
        r is Ok <==> is_superuser(canister.auth.admins@, ctx.caller@),
        r matches Ok(all) ==> {
            &&& all@.len() == canister.auth.warnings.order().len()
            &&& forall|i: int|
                0 <= i < all@.len() ==> canister.auth.warnings@.dom().contains(
                    #[trigger] canister.auth.warnings.order()[i],
                ) && all@[i]@ == canister.auth.warnings@[canister.auth.warnings.order()[i]]
        },
        r is Err ==> r == Err::<Vec<Warning>, Error>(Error::Unauthorized),
{
    match get_logged_in_superuser(&canister.auth.admins, &ctx.caller) {
        Ok(_) => Ok(crate::auth::ratelimit::get_warnings(&canister.auth.warnings)),
        Err(e) => Err(e),
    }
}

/// The blocked identities, for a superuser.
pub fn get_blocked_users(canister: &Canister, ctx: &CallContext) -> (r: Result<
    Vec<Identity>,
    Error,
>)
    requires
        canister.wf(),
    ensures
        r is Ok <==> is_superuser(canister.auth.admins@, ctx.caller@),
        r matches Ok(all) ==> identity_views(all@) == canister.auth.blocked.order(),
        r is Err ==> r == Err::<Vec<Identity>, Error>(Error::Unauthorized),
{
    match get_logged_in_superuser(&canister.auth.admins, &ctx.caller) {
        Ok(_) => Ok(crate::auth::moderation::get_blocked_users(&canister.auth.blocked)),
        Err(e) => Err(e),
    }
}

/// Drops from the limiter's logs the calls that lie a day or more back, at
/// the word of a superuser.
pub fn forget_old_calls(canister: &mut Canister, ctx: &CallContext) -> (r: Result<String, Error>)
    requires
        old(canister).wf(),
    ensures
        final(canister).wf(),
        final(canister).db == old(canister).db,
        final(canister).deployment == old(canister).deployment,
        final(canister).auth.admins == old(canister).auth.admins,
        final(canister).auth.warnings == old(canister).auth.warnings,
        final(canister).auth.blocked == old(canister).auth.blocked,
        r is Ok <==> is_superuser(old(canister).auth.admins@, ctx.caller@),
        r matches Ok(s) ==> s@ == "Old calls forgotten"@ && final(canister).auth.calls@
            == logs_compacted(old(canister).auth.calls@, ctx.now),
        r is Err ==> r == Err::<String, Error>(Error::Unauthorized) && final(canister).auth.calls@
            == old(canister).auth.calls@,
{
    match get_logged_in_superuser(&canister.auth.admins, &ctx.caller) {
        Ok(_) => {
            crate::auth::ratelimit::forget_old_calls(&mut canister.auth.calls, ctx.now);
            Ok(String::from_str("Old calls forgotten"))
        },
        Err(e) => Err(e),
    }
}

} // verus!
