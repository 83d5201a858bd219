//! Who may do what: identities, limits and the blocklist.

use vstd::prelude::*;

pub mod canister;
pub mod file;
pub mod moderation;
pub mod ratelimit;
pub mod user;

verus! {

/// What admission rests on: the list of superusers, the limiter and the
/// blocklist.
pub struct Auth {
    pub admins: user::Superusers,
    pub calls: ratelimit::RateLimit,
    pub warnings: ratelimit::Warnings,
    pub blocked: moderation::BlockedStore,
}

impl Auth {
    /// Each of the three maps names an identity once at most.
    pub open spec fn wf(&self) -> bool {
        &&& self.calls.wf()
        &&& self.warnings.wf()
        &&& self.blocked.wf()
    }

    /// The two hold the same.
    pub open spec fn same_as(&self, other: &Auth) -> bool {
        &&& self.admins@ == other.admins@
        &&& self.calls@ == other.calls@
        &&& self.warnings@ == other.warnings@
        &&& self.blocked@ == other.blocked@
    }

    /// The state of a process that has seen no call, with the superusers
    /// named.
    pub fn new(admins: user::Superusers) -> (auth: Self)
        ensures
            auth.wf(),
            auth.admins == admins,
            auth.calls@ == Map::<Seq<u8>, Seq<ratelimit::CallView>>::empty(),
            auth.warnings@ == Map::<Seq<u8>, ratelimit::WarningView>::empty(),
            auth.blocked@ == Map::<Seq<u8>, moderation::BlockedView>::empty(),
    {
        Auth {
            admins,
            calls: ratelimit::RateLimit::new(),
            warnings: ratelimit::Warnings::new(),
            blocked: moderation::BlockedStore::new(),
        }
    }
}

} // verus!
