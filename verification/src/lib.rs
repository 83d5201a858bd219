//! A chunked object store for small binary assets, with per-identity quotas,
//! rate limiting, moderation and a stateless streaming protocol.

use vstd::prelude::*;

pub mod api;
pub mod auth;
pub mod codec;
pub mod controllers;
pub mod database;
pub mod error;
pub mod identity;
pub mod identity_map;
pub mod models;
pub mod text;

verus! {

/// The whole state of the process.
pub struct Canister {
    pub db: database::Database,
    pub auth: auth::Auth,
    pub deployment: database::file::Deployment,
}

/// What a call brings from outside: who calls, the moment in nanoseconds,
/// and the bytes of persistent memory that the process holds.
pub struct CallContext {
    pub caller: identity::Identity,
    pub now: u64,
    pub stable_memory_size: u64,
}

/// What is carried over a restart beside the records: the ledger, the two
/// counters and the blocklist.
pub struct PreStableState {
    pub users: database::users::UserStore,
    pub current_file_id: u64,
    pub current_chunk_id: u64,
    pub blocked: auth::moderation::BlockedStore,
}

/// What is found after a restart beside the records.
pub struct PostStableState {
    pub users: database::users::UserStore,
    pub current_file_id: u64,
    pub current_chunk_id: u64,
    pub blocked: auth::moderation::BlockedStore,
}

/// What a snapshot holds.
pub struct Snapshot {
    pub users: Map<Seq<u8>, database::users::UserInfoView>,
    pub current_file_id: u64,
    pub current_chunk_id: u64,
    pub blocked: Map<Seq<u8>, auth::moderation::BlockedView>,
}

impl View for PreStableState {
    type V = Snapshot;

    open spec fn view(&self) -> Snapshot {
        Snapshot {
            users: self.users@,
            current_file_id: self.current_file_id,
            current_chunk_id: self.current_chunk_id,
            blocked: self.blocked@,
        }
    }
}

impl View for PostStableState {
    type V = Snapshot;

    open spec fn view(&self) -> Snapshot {
        Snapshot {
            users: self.users@,
            current_file_id: self.current_file_id,
            current_chunk_id: self.current_chunk_id,
            blocked: self.blocked@,
        }
    }
}

impl PreStableState {
    /// Both maps name an identity once at most.
    pub open spec fn wf(&self) -> bool {
        self.users.wf() && self.blocked.wf()
    }

    /// What was saved, as it is found after the restart.
    pub fn into_post(self) -> (post: PostStableState)
        ensures
            post@ == self@,
            self.wf() ==> post.wf(),
    {
        PostStableState {
            users: self.users,
            current_file_id: self.current_file_id,
            current_chunk_id: self.current_chunk_id,
            blocked: self.blocked,
        }
    }
}

impl PostStableState {
    /// Both maps name an identity once at most.
    pub open spec fn wf(&self) -> bool {
        self.users.wf() && self.blocked.wf()
    }
}

impl Canister {
    /// Each map of the state names an identity once at most.
    pub open spec fn wf(&self) -> bool {
        self.db.users.wf() && self.auth.wf()
    }

    /// What a snapshot of the state holds.
    pub open spec fn snapshot(&self) -> Snapshot {
        Snapshot {
            users: self.db.users@,
            current_file_id: self.db.files.next_id(),
            current_chunk_id: self.db.chunks.next_id(),
            blocked: self.auth.blocked@,
        }
    }
}

/// The state of a process that starts for the first time: no files, no
/// chunks, both counters at 0, an empty ledger, an empty blocklist, and a
/// limiter that has seen no call. A process has one state: it opens its
/// persistent memory here or in `post_upgrade`, once.
pub fn init(deployment: database::file::Deployment, admins: auth::user::Superusers) -> (canister:
    Canister)
    ensures
        canister.wf(),
        canister.deployment == deployment,
        canister.auth.admins == admins,
        canister.db.files@ == Map::<u64, models::file::FileView>::empty(),
        canister.db.files.records() == Map::<u64, Seq<u8>>::empty(),
        canister.db.chunks@ == Map::<u64, models::file::FileChunkView>::empty(),
        canister.db.chunks.records() == Map::<u64, Seq<u8>>::empty(),
        canister.db.files.next_id() == 0,
        canister.db.chunks.next_id() == 0,
        canister.db.files.key_limit() == 8,
        canister.db.files.value_limit() == database::file::MAX_VALUE_SIZE,
        canister.db.chunks.key_limit() == 8,
        canister.db.chunks.value_limit() == database::chunks::MAX_VALUE_SIZE,
        canister.db.users@ == Map::<Seq<u8>, database::users::UserInfoView>::empty(),
        canister.auth.calls@ == Map::<Seq<u8>, Seq<auth::ratelimit::CallView>>::empty(),
        canister.auth.warnings@ == Map::<Seq<u8>, auth::ratelimit::WarningView>::empty(),
        canister.auth.blocked@ == Map::<Seq<u8>, auth::moderation::BlockedView>::empty(),
        database::consistency::consistent(canister.db.files@, canister.db.chunks@),
{
    let pool = database::stable::memory_pool_open();
    Canister {
        db: database::Database::create(pool, database::users::UserStore::new()),
        auth: auth::Auth::new(admins),
        deployment,
    }
}

/// Takes the snapshot of a process that is about to stop.
pub fn pre_upgrade(canister: Canister) -> (saved: PreStableState)
    ensures
        saved@ == canister.snapshot(),
        canister.wf() ==> saved.wf(),
{
    let current_file_id = database::file::get_current_file_id(&canister.db.files);
    let current_chunk_id = canister.db.chunks.current_id();
    PreStableState {
        users: canister.db.users,
        current_file_id,
        current_chunk_id,
        blocked: canister.auth.blocked,
    }
}

/// The state of a process that starts again: the records that the earlier
/// runs left, what the snapshot holds, and a limiter that has seen no call.
/// A process has one state: it opens its persistent memory here or in
/// `init`, once.
pub fn post_upgrade(
    state: PostStableState,
    deployment: database::file::Deployment,
    admins: auth::user::Superusers,
) -> (canister: Canister)
    ensures
        canister.snapshot() == state@,
        state.wf() ==> canister.wf(),
        canister.deployment == deployment,
        canister.auth.admins == admins,
        canister.auth.calls@ == Map::<Seq<u8>, Seq<auth::ratelimit::CallView>>::empty(),
        canister.auth.warnings@ == Map::<Seq<u8>, auth::ratelimit::WarningView>::empty(),
        canister.db.files.key_limit() >= 8,
        canister.db.files.value_limit() >= database::file::MAX_VALUE_SIZE,
        canister.db.chunks.key_limit() >= 8,
        canister.db.chunks.value_limit() >= database::chunks::MAX_VALUE_SIZE,
{
    let pool = database::stable::memory_pool_open();
    Canister {
        db: database::Database::open(
            pool,
            state.current_file_id,
            state.current_chunk_id,
            state.users,
        ),
        auth: auth::Auth {
            admins,
            calls: auth::ratelimit::RateLimit::new(),
            warnings: auth::ratelimit::Warnings::new(),
            blocked: state.blocked,
        },
        deployment,
    }
}

/// A snapshot that is taken, carried over and restored gives back the maps
/// and counters it was taken of.
pub proof fn lemma_snapshot_round_trip(
    before: Canister,
    saved: PreStableState,
    found: PostStableState,
    after: Canister,
)
    requires
        saved@ == before.snapshot(),
        found@ == saved@,
        after.snapshot() == found@,
    ensures
        after.db.users@ == before.db.users@,
        after.auth.blocked@ == before.auth.blocked@,
        after.db.files.next_id() == before.db.files.next_id(),
        after.db.chunks.next_id() == before.db.chunks.next_id(),
{
}

} // verus!
