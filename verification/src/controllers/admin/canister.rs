//! What superusers may ask of the process itself.

use vstd::prelude::*;

use crate::api::canister::CanisterInfo;
use crate::auth::canister::has_room;
use crate::auth::user::{get_logged_in_superuser, is_superuser};
use crate::error::Error;
use crate::{CallContext, Canister};

verus! {

/// Hands the measurements of the process to a superuser.
pub fn collect_metrics(canister: &Canister, ctx: &CallContext, measured: CanisterInfo) -> (r:
    Result<CanisterInfo, Error>)
    ensures
        is_superuser(canister.auth.admins@, ctx.caller@) ==> r == Ok::<CanisterInfo, Error>(
            measured,
        ),
        !is_superuser(canister.auth.admins@, ctx.caller@) ==> r == Err::<CanisterInfo, Error>(
            Error::Unauthorized,
        ),
{
    match get_logged_in_superuser(&canister.auth.admins, &ctx.caller) {
        Ok(_) => Ok(measured),
        Err(e) => Err(e),
    }
}

/// Tells a superuser whether the process has room for a file of the largest
/// size, and how many bytes it holds.
pub fn canister_storage_ok(canister: &Canister, ctx: &CallContext) -> (r: Result<u64, Error>)
    ensures
        !is_superuser(canister.auth.admins@, ctx.caller@) ==> r == Err::<u64, Error>(
            Error::Unauthorized,
        ),
        is_superuser(canister.auth.admins@, ctx.caller@) && has_room(ctx.stable_memory_size) ==> r
            == Ok::<u64, Error>(ctx.stable_memory_size),
        is_superuser(canister.auth.admins@, ctx.caller@) && !has_room(ctx.stable_memory_size)
            ==> r == Err::<u64, Error>(Error::CapacityExceeded),
{
    match get_logged_in_superuser(&canister.auth.admins, &ctx.caller) {
        Ok(_) => crate::auth::canister::canister_storage_ok(ctx.stable_memory_size),
        Err(e) => Err(e),
    }
}

} // verus!
