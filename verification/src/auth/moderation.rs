//! The blocklist.

use vstd::prelude::*;

use crate::database::file::{chunks_listed, delete_all_files_by_prinicipal, owned_by};
use crate::database::Database;
use crate::identity::Identity;
use crate::identity_map::IdentityMap;

verus! {

/// An entry of the blocklist.
#[derive(Debug)]
pub struct Blocked {
    pub principal: Identity,
    pub metadata: String,
}

/// What an entry of the blocklist holds.
#[verifier::ext_equal]
pub struct BlockedView {
    pub principal: Seq<u8>,
    pub metadata: Seq<char>,
}

impl View for Blocked {
    type V = BlockedView;

    open spec fn view(&self) -> BlockedView {
        BlockedView { principal: self.principal@, metadata: self.metadata@ }
    }
}

/// The entry that blocking makes for an identity.
pub open spec fn blocked_entry(who: Seq<u8>) -> BlockedView {
    BlockedView { principal: who, metadata: Seq::empty() }
}

/// The blocklist.
pub struct BlockedStore {
    entries: IdentityMap<Blocked>,
}

impl BlockedStore {
    /// No identity has two entries.
    pub closed spec fn wf(&self) -> bool {
        self.entries.wf()
    }

    /// The entries by the bytes of each identity.
    pub closed spec fn view(&self) -> Map<Seq<u8>, BlockedView> {
        self.entries.map().map_values(|b: Blocked| b@)
    }

    /// The blocked identities in the order in which they are listed.
    pub closed spec fn order(&self) -> Seq<Seq<u8>> {
        self.entries.order()
    }

    /// A blocklist without entries.
    pub fn new() -> (s: Self)
        ensures
            s.wf(),
            s@ == Map::<Seq<u8>, BlockedView>::empty(),
            s.order() == Seq::<Seq<u8>>::empty(),
    {
        let s = BlockedStore { entries: IdentityMap::new() };
        assert(s@ =~= Map::<Seq<u8>, BlockedView>::empty());
        s
    }

    /// How many identities are blocked.
    pub fn len(&self) -> (n: usize)
        ensures
            n == self.order().len(),
    {
        self.entries.len()
    }

    /// The entry listed at place `i`.
    pub fn entry_at(&self, i: usize) -> (r: &Blocked)
        requires
            self.wf(),
            i < self.order().len(),
        ensures
            self@.dom().contains(self.order()[i as int]),
            self@[self.order()[i as int]] == r@,
    {
        self.entries.value_at(i)
    }

    /// Puts `entry` on the list under `who`, in place of any entry there.
    pub fn set(&mut self, who: Identity, entry: Blocked)
        requires
            old(self).wf(),
        ensures
            final(self).wf(),
            final(self)@ == old(self)@.insert(who@, entry@),
    {
        self.entries.insert(who, entry);
        assert(self@ =~= old(self)@.insert(who@, entry@));
    }

    /// The listing names each blocked identity, once.
    pub proof fn lemma_order(&self)
        requires
            self.wf(),
        ensures
            forall|i: int, j: int|
                0 <= i < j < self.order().len() ==> self.order()[i] != self.order()[j],
            forall|k: Seq<u8>| self@.dom().contains(k) <==> self.order().contains(k),
    {
        self.entries.lemma_order();
    }
}

/// Whether `principal` is blocked.
pub fn is_blocked(blocked: &BlockedStore, principal: &Identity) -> (r: bool)
    requires
        blocked.wf(),
    ensures
        r == blocked@.dom().contains(principal@),
{
    blocked.entries.contains(principal)
}

/// The blocked identities, in the order in which they are listed.
pub fn get_blocked_users(blocked: &BlockedStore) -> (r: Vec<Identity>)
    requires
        blocked.wf(),
    ensures
        crate::codec::identity_views(r@) == blocked.order(),
{
    let mut blocked_users: Vec<Identity> = Vec::new();
    let mut i: usize = 0;
    while i < blocked.entries.len()
        invariant
            blocked.wf(),
            i <= blocked.order().len(),
            blocked_users@.len() == i,
            forall|j: int| 0 <= j < i ==> (#[trigger] blocked_users@[j])@ == blocked.order()[j],
        decreases blocked.order().len() - i,
    {
        blocked_users.push(blocked.entries.key_at(i).clone());
        i += 1;
    }
    assert(crate::codec::identity_views(blocked_users@) =~= blocked.order());
    blocked_users
}

/// Blocks `principal`; an identity that is blocked already stays so.
pub fn block_user(blocked: &mut BlockedStore, principal: &Identity)
    requires
        old(blocked).wf(),
    ensures
        final(blocked).wf(),
        final(blocked)@ == old(blocked)@.insert(principal@, blocked_entry(principal@)),
{
    let entry = Blocked { principal: principal.clone(), metadata: String::new() };
    assert(entry@ =~= blocked_entry(principal@));
    blocked.set(principal.clone(), entry);
}

/// Takes `principal` off the blocklist; an identity that is not blocked
/// stays so.
pub fn unblock_user(blocked: &mut BlockedStore, principal: &Identity)
    requires
        old(blocked).wf(),
    ensures
        final(blocked).wf(),
        final(blocked)@ == old(blocked)@.remove(principal@),
{
    blocked.entries.remove(principal);
    assert(blocked@ =~= old(blocked)@.remove(principal@));
}

/// Blocks `principal`, and deletes every file it owns with the chunks that
/// those files list.
pub fn block_and_delete_user(
    blocked: &mut BlockedStore,
    db: &mut Database,
    principal: &Identity,
)
    requires
        old(blocked).wf(),
    ensures
        final(blocked).wf(),
        final(blocked)@ == old(blocked)@.insert(principal@, blocked_entry(principal@)),
        final(db).users == old(db).users,
        final(db).limits_as(old(db)),
        final(db).files.next_id() == old(db).files.next_id(),
        final(db).chunks.next_id() == old(db).chunks.next_id(),
        final(db).files@ == old(db).files@.remove_keys(owned_by(old(db).files@, principal@)),
        final(db).chunks@ == old(db).chunks@.remove_keys(
            chunks_listed(old(db).files@, owned_by(old(db).files@, principal@)),
        ),
{
    block_user(blocked, principal);
    delete_all_files_by_prinicipal(db, principal);
}

} // verus!
