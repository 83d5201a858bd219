//! The quota ledger: what each identity owns and how many bytes it has
//! written.

use std::collections::HashSet;

use vstd::prelude::*;

use crate::error::Error;
use crate::identity::Identity;
use crate::identity_map::IdentityMap;
use crate::models::file::File;

verus! {

/// The ledger's entry for one identity.
#[derive(Debug)]
pub struct UserInfo {
    pub blocked: bool,
    pub files_owned: HashSet<u64>,
    pub byte_limit: u64,
    pub bytes_used: u64,
}

/// What a ledger entry holds; the files owned are a set.
#[verifier::ext_equal]
pub struct UserInfoView {
    pub blocked: bool,
    pub files_owned: Set<u64>,
    pub byte_limit: u64,
    pub bytes_used: u64,
}

impl View for UserInfo {
    type V = UserInfoView;

    open spec fn view(&self) -> UserInfoView {
        UserInfoView {
            blocked: self.blocked,
            files_owned: self.files_owned@,
            byte_limit: self.byte_limit,
            bytes_used: self.bytes_used,
        }
    }
}

/// A copy of a set of numbers.
pub fn copy_ids(ids: &HashSet<u64>) -> (copy: HashSet<u64>)
    ensures
        copy@ == ids@,
{
    broadcast use vstd::std_specs::hash::group_hash_axioms;

    let mut copy: HashSet<u64> = HashSet::new();
    for id in it: ids.iter()
        invariant
            it.seq().unref().to_set() == ids@,
            copy@ == it.seq().take(it.index() as int).unref().to_set(),
            it.index() == it.seq().len() ==> copy@ == ids@,
    {
        copy.insert(*id);
        assert(it.seq().take(it.index() + 1).unref() =~= it.seq().take(
            it.index() as int,
        ).unref().push(*id));
        assert(it.seq().take(it.index() as int).unref().push(*id).to_set() == it.seq().take(
            it.index() as int,
        ).unref().to_set().insert(*id)) by {
            lemma_push_to_set(it.seq().take(it.index() as int).unref(), *id);
        }
        assert(it.index() + 1 == it.seq().len() ==> it.seq().take(it.index() + 1) =~= it.seq());
    }
    copy
}

impl Clone for UserInfo {
    fn clone(&self) -> (r: Self)
        ensures
            r@ == self@,
    {
        UserInfo {
            blocked: self.blocked,
            files_owned: copy_ids(&self.files_owned),
            byte_limit: self.byte_limit,
            bytes_used: self.bytes_used,
        }
    }
}

/// The entry of an identity that has written nothing yet.
pub open spec fn no_usage() -> UserInfoView {
    UserInfoView { blocked: false, files_owned: Set::empty(), byte_limit: 0, bytes_used: 0 }
}

/// The ledger's entry for `who`, or the empty entry where it has none.
pub open spec fn usage_of(ledger: Map<Seq<u8>, UserInfoView>, who: Seq<u8>) -> UserInfoView {
    if ledger.dom().contains(who) {
        ledger[who]
    } else {
        no_usage()
    }
}

/// The ledger once `who` has written `bytes` bytes, for the file `file` where
/// one is given.
pub open spec fn ledger_after(
    ledger: Map<Seq<u8>, UserInfoView>,
    who: Seq<u8>,
    file: Option<u64>,
    bytes: u64,
) -> Map<Seq<u8>, UserInfoView> {
    let before = usage_of(ledger, who);
    ledger.insert(
        who,
        UserInfoView {
            blocked: before.blocked,
            files_owned: match file {
                Some(id) => before.files_owned.insert(id),
                None => before.files_owned,
            },
            byte_limit: 0,
            bytes_used: (before.bytes_used + bytes) as u64,
        },
    )
}

/// The quota ledger.
pub struct UserStore {
    users: IdentityMap<UserInfo>,
}

impl UserStore {
    /// No identity has two entries.
    pub closed spec fn wf(&self) -> bool {
        self.users.wf()
    }

    /// The entries by the bytes of each identity.
    pub closed spec fn view(&self) -> Map<Seq<u8>, UserInfoView> {
        self.users.map().map_values(|u: UserInfo| u@)
    }

    /// The identities of the ledger in the order in which they are listed.
    pub closed spec fn order(&self) -> Seq<Seq<u8>> {
        self.users.order()
    }

    /// A ledger without entries.
    pub fn new() -> (s: Self)
        ensures
            s.wf(),
            s@ == Map::<Seq<u8>, UserInfoView>::empty(),
            s.order() == Seq::<Seq<u8>>::empty(),
    {
        let s = UserStore { users: IdentityMap::new() };
        assert(s@ =~= Map::<Seq<u8>, UserInfoView>::empty());
        s
    }

    /// How many identities have an entry.
    pub fn len(&self) -> (n: usize)
        ensures
            n == self.order().len(),
    {
        self.users.len()
    }

    /// The identity listed at place `i`, with its entry.
    pub fn entry_at(&self, i: usize) -> (r: (&Identity, &UserInfo))
        requires
            self.wf(),
            i < self.order().len(),
        ensures
            r.0@ == self.order()[i as int],
            self@.dom().contains(r.0@),
            self@[r.0@] == r.1@,
    {
        (self.users.key_at(i), self.users.value_at(i))
    }

    /// The listing names each identity of the ledger, once.
    pub proof fn lemma_order(&self)
        requires
            self.wf(),
        ensures
            forall|i: int, j: int|
                0 <= i < j < self.order().len() ==> self.order()[i] != self.order()[j],
            forall|k: Seq<u8>| self@.dom().contains(k) <==> self.order().contains(k),
    {
        self.users.lemma_order();
    }

    /// Sets the entry of `who`, in place of any entry there.
    pub fn set(&mut self, who: Identity, info: UserInfo)
        requires
            old(self).wf(),
        ensures
            final(self).wf(),
            final(self)@ == old(self)@.insert(who@, info@),
    {
        self.users.insert(who, info);
        assert(self@ =~= old(self)@.insert(who@, info@));
    }

    /// The bytes that `principal` has written.
    pub fn bytes_used(&self, principal: &Identity) -> (n: u64)
        requires
            self.wf(),
        ensures
            n == usage_of(self@, principal@).bytes_used,
    {
        match self.users.get(principal) {
            Some(info) => info.bytes_used,
            None => 0,
        }
    }

    fn record(&mut self, principal: &Identity, file: Option<u64>, bytes: u64) -> (r: Result<
        (),
        Error,
    >)
        requires
            old(self).wf(),
        ensures
            final(self).wf(),
            r is Ok <==> usage_of(old(self)@, principal@).bytes_used + bytes <= u64::MAX,
            r is Ok ==> final(self)@ == ledger_after(old(self)@, principal@, file, bytes),
            r is Err ==> r == Err::<(), Error>(Error::CapacityExceeded) && final(self)@
                == old(self)@,
    {
        let used: u64 = match self.users.get(principal) {
            Some(info) => info.bytes_used,
            None => 0,
        };
        if used > u64::MAX - bytes {
            return Err(Error::CapacityExceeded);
        }
        let (blocked, mut files_owned) = match self.users.remove(principal) {
            Some(info) => (info.blocked, info.files_owned),
            None => (false, HashSet::new()),
        };
        assert(files_owned@ == usage_of(old(self)@, principal@).files_owned);
        match file {
            Some(id) => {
                files_owned.insert(id);
            },
            None => {},
        }
        let info = UserInfo { blocked, files_owned, byte_limit: 0, bytes_used: used + bytes };
        self.users.insert(principal.clone(), info);
        assert(self@ =~= ledger_after(old(self)@, principal@, file, bytes));
        Ok(())
    }
}

/// The elements of a list with one more are those of the list, and that one.
pub proof fn lemma_push_to_set(s: Seq<u64>, x: u64)
    ensures
        s.push(x).to_set() == s.to_set().insert(x),
{
    let t = s.push(x);
    assert forall|y: u64| t.to_set().contains(y) <==> s.to_set().insert(x).contains(y) by {
        if t.contains(y) {
            let j = choose|j: int| 0 <= j < t.len() && t[j] == y;
            if j < s.len() {
                assert(s[j] == y);
            }
        }
        if s.contains(y) {
            let j = choose|j: int| 0 <= j < s.len() && s[j] == y;
            assert(t[j] == y);
        }
        if y == x {
            assert(t[s.len() as int] == y);
        }
    }
    assert(t.to_set() =~= s.to_set().insert(x));
}

/// A copy of the ledger's entry for `principal`.
pub fn get_user_info(users: &UserStore, principal: &Identity) -> (r: Result<UserInfo, Error>)
    requires
        users.wf(),
    ensures
        r is Ok <==> users@.dom().contains(principal@),
        r matches Ok(info) ==> info@ == users@[principal@],
        r is Err ==> r == Err::<UserInfo, Error>(Error::NotFound),
{
    match users.users.get(principal) {
        Some(info) => Ok(info.clone()),
        None => Err(Error::NotFound),
    }
}

/// Enters a file that `principal` has created, and the bytes of its first
/// chunk, in the ledger. The ledger stays as it was where the count of bytes
/// would no longer fit.
pub fn update_user_info_file(
    users: &mut UserStore,
    principal: &Identity,
    new_file: &File,
    bytes_used: u64,
) -> (r: Result<Identity, Error>)
    requires
        old(users).wf(),
    ensures
        final(users).wf(),
        r is Ok <==> usage_of(old(users)@, principal@).bytes_used + bytes_used <= u64::MAX,
        r matches Ok(who) ==> who@ == principal@ && final(users)@ == ledger_after(
            old(users)@,
            principal@,
            Some(new_file.id),
            bytes_used,
        ),
        r is Err ==> r == Err::<Identity, Error>(Error::CapacityExceeded) && final(users)@
            == old(users)@,
{
    match users.record(principal, Some(new_file.id), bytes_used) {
        Ok(_) => Ok(principal.clone()),
        Err(e) => Err(e),
    }
}

/// Enters the bytes of a chunk that was added to a file of `principal` in
/// the ledger. The ledger stays as it was where the count of bytes would no
/// longer fit.
pub fn update_user_info_chunk(users: &mut UserStore, principal: &Identity, bytes_used: u64) -> (r:
    Result<Identity, Error>)
    requires
        old(users).wf(),
    ensures
        final(users).wf(),
        r is Ok <==> usage_of(old(users)@, principal@).bytes_used + bytes_used <= u64::MAX,
        r matches Ok(who) ==> who@ == principal@ && final(users)@ == ledger_after(
            old(users)@,
            principal@,
            None,
            bytes_used,
        ),
        r is Err ==> r == Err::<Identity, Error>(Error::CapacityExceeded) && final(users)@
            == old(users)@,
{
    match users.record(principal, None, bytes_used) {
        Ok(_) => Ok(principal.clone()),
        Err(e) => Err(e),
    }
}

/// A write as the ledger sees it: the file that was created, if one was,
/// and the bytes written.
pub struct Write {
    pub file: Option<u64>,
    pub bytes: u64,
}

/// The bytes of a run of writes together.
pub open spec fn total_bytes(writes: Seq<Write>) -> nat
    decreases writes.len(),
{
    if writes.len() == 0 {
        0
    } else {
        total_bytes(writes.drop_last()) + writes.last().bytes as nat
    }
}

/// The files that a run of writes created.
pub open spec fn files_created(writes: Seq<Write>) -> Set<u64>
    decreases writes.len(),
{
    if writes.len() == 0 {
        Set::empty()
    } else {
        match writes.last().file {
            Some(id) => files_created(writes.drop_last()).insert(id),
            None => files_created(writes.drop_last()),
        }
    }
}

/// The ledger after a run of writes of `who`, one after the other.
pub open spec fn ledger_after_all(
    ledger: Map<Seq<u8>, UserInfoView>,
    who: Seq<u8>,
    writes: Seq<Write>,
) -> Map<Seq<u8>, UserInfoView>
    decreases writes.len(),
{
    if writes.len() == 0 {
        ledger
    } else {
        ledger_after(
            ledger_after_all(ledger, who, writes.drop_last()),
            who,
            writes.last().file,
            writes.last().bytes,
        )
    }
}

/// After a run of writes the ledger holds, for the one who wrote, the sum of
/// the bytes written on top of what it held, and the files created beside
/// those it listed; the entries of all others are as they were.
pub proof fn lemma_ledger_sums(ledger: Map<Seq<u8>, UserInfoView>, who: Seq<u8>, writes: Seq<Write>)
    requires
        usage_of(ledger, who).bytes_used + total_bytes(writes) <= u64::MAX,
    ensures
        usage_of(ledger_after_all(ledger, who, writes), who).bytes_used == usage_of(
            ledger,
            who,
        ).bytes_used + total_bytes(writes),
        usage_of(ledger_after_all(ledger, who, writes), who).files_owned == usage_of(
            ledger,
            who,
        ).files_owned.union(files_created(writes)),
        forall|other: Seq<u8>|
            other != who ==> #[trigger] usage_of(ledger_after_all(ledger, who, writes), other)
                == usage_of(ledger, other),
    decreases writes.len(),
{
    if writes.len() == 0 {
        assert(usage_of(ledger, who).files_owned.union(files_created(writes)) =~= usage_of(
            ledger,
            who,
        ).files_owned);
    } else {
        lemma_ledger_sums(ledger, who, writes.drop_last());
        let before = usage_of(ledger_after_all(ledger, who, writes.drop_last()), who).files_owned;
        let start = usage_of(ledger, who).files_owned;
        match writes.last().file {
            Some(id) => {
                assert(before.insert(id) =~= start.union(files_created(writes)));
            },
            None => {},
        }
        let mid = ledger_after_all(ledger, who, writes.drop_last());
        assert forall|other: Seq<u8>| other != who implies #[trigger] usage_of(
            ledger_after_all(ledger, who, writes),
            other,
        ) == usage_of(ledger, other) by {
            assert(usage_of(mid, other) == usage_of(ledger, other));
        }
    }
}

} // verus!
