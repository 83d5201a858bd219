//! Who calls: anonymous callers are turned away, and superusers are told
//! from the rest by a fixed list.

use vstd::prelude::*;

use crate::error::Error;
use crate::identity::{anonymous_bytes, principal_text, Identity};

verus! {

/// The identities that are exempt from the limits, each by its text.
pub struct Superusers {
    pub names: Vec<String>,
}

impl View for Superusers {
    type V = Seq<Seq<char>>;

    open spec fn view(&self) -> Seq<Seq<char>> {
        Seq::new(self.names@.len(), |i: int| self.names@[i]@)
    }
}

/// Whether `caller` is a superuser: not anonymous, and on the list.
pub open spec fn is_superuser(admins: Seq<Seq<char>>, caller: Seq<u8>) -> bool {
    caller != anonymous_bytes() && admins.contains(principal_text(caller))
}

/// The caller, unless anonymous.
pub fn get_logged_in_principal(caller: &Identity) -> (r: Result<Identity, Error>)
    ensures
        r is Ok <==> caller@ != anonymous_bytes(),
        r matches Ok(who) ==> who@ == caller@,
        r is Err ==> r == Err::<Identity, Error>(Error::Unauthorized),
{
    if caller.is_anonymous() {
        return Err(Error::Unauthorized);
    }
    Ok(caller.clone())
}

/// The caller, if a superuser.
pub fn get_logged_in_superuser(admins: &Superusers, caller: &Identity) -> (r: Result<
    Identity,
    Error,
>)
    ensures
        r is Ok <==> is_superuser(admins@, caller@),
        r matches Ok(who) ==> who@ == caller@,
        r is Err ==> r == Err::<Identity, Error>(Error::Unauthorized),
{
    if caller.is_anonymous() {
        return Err(Error::Unauthorized);
    }
    let text = caller.to_text();
    let mut i: usize = 0;
    while i < admins.names.len()
        invariant
            i <= admins.names@.len(),
            caller@ != anonymous_bytes(),
            text@ == principal_text(caller@),
            forall|j: int| 0 <= j < i ==> admins@[j] != text@,
        decreases admins.names@.len() - i,
    {
        if admins.names[i] == text {
            assert(admins@[i as int] == text@);
            return Ok(caller.clone());
        }
        i += 1;
    }
    Err(Error::Unauthorized)
}

} // verus!
