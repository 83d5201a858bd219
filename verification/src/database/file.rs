//! The files of the store.

use ic_stable_structures::btreemap::InsertError;
use vstd::prelude::*;
use vstd::string::StringExecFns;

use crate::database::chunks::{insert_chunk, new_chunk, remove_chunk};
use crate::database::stable::{
    allocation_error, record_allocate, record_entries, record_get, record_insert,
    record_key_limit, record_list, record_remove, record_value_limit, RecordMap,
};
use crate::database::users::{ledger_after, update_user_info_file, usage_of};
use crate::database::Database;
use crate::error::Error;
use crate::identity::{principal_text, Identity};
use crate::models::file::{
    file_type_of_mime, hash_bytes, sha3_256, File, FileChunkView, FileType, FileView,
};
use crate::models::record::{decode_file, encode_file, file_bytes, parse_file};
use crate::text::{append_decimal, decimal};

verus! {

/// The number of a file.
pub type FileID = u64;

/// The most bytes that the key of a record takes.
pub const MAX_KEY_SIZE: u32 = 8;

/// The most bytes that the record of a file may take.
pub const MAX_VALUE_SIZE: u32 = 20000000;

/// The memory of the pool in which the files are kept.
pub const FILE_MEMORY: u8 = 1;

/// Where the process runs: its own identity, and whether on a developer's
/// machine or in production. The addresses of the files are made of these.
pub struct Deployment {
    pub canister: Identity,
    pub local: bool,
}

/// The files that records tell of, each under its number. A record that
/// tells of no file counts for nothing.
pub open spec fn files_in(records: Map<u64, Seq<u8>>) -> Map<u64, FileView> {
    Map::new(
        |k: u64| records.dom().contains(k) && parse_file(records[k]) is Some,
        |k: u64| parse_file(records[k])->0,
    )
}

/// The address under which a file is served.
pub open spec fn file_url(canister: Seq<char>, local: bool, slug: Seq<char>, id: u64) -> Seq<
    char,
> {
    if local {
        "http://"@ + canister + ".localhost:4943/"@ + slug + "/"@ + decimal(id as nat)
    } else {
        "https://"@ + canister + ".raw.ic0.app/"@ + slug + "/"@ + decimal(id as nat)
    }
}

/// A file as it is when it is created: one chunk, its owner the only
/// accessor, and the digest that of the first chunk.
pub open spec fn new_file(
    id: u64,
    chunk_id: u64,
    url: Seq<char>,
    file_name: Seq<char>,
    number_of_chunks: u64,
    file_type: FileType,
    owner: Seq<u8>,
    now: u64,
    first_chunk: Seq<u8>,
) -> FileView {
    FileView {
        id,
        url,
        chunk_ids: seq![chunk_id],
        number_of_chunks,
        file_name,
        file_type,
        owner,
        metadata: Seq::empty(),
        deleted_at: None,
        created_at: now,
        updated_at: now,
        accessors: seq![owner],
        hash: sha3_256(first_chunk),
    }
}

/// The store of files: their records, and the number that the next file
/// gets.
pub struct FileStore {
    map: RecordMap,
    next_id: u64,
}

impl FileStore {
    /// The records of the store.
    pub closed spec fn records(&self) -> Map<u64, Seq<u8>> {
        record_entries(self.map)
    }

    /// The number that the next file gets.
    pub closed spec fn next_id(&self) -> u64 {
        self.next_id
    }

    /// Why a record of `record_len` bytes cannot be added, if it cannot.
    pub closed spec fn refusal(&self, record_len: nat) -> Option<Error> {
        allocation_error(self.map, self.next_id, record_len)
    }

    /// The most bytes a record may take in this store.
    pub closed spec fn value_limit(&self) -> nat {
        record_value_limit(self.map)
    }

    /// The most bytes a key may take in this store.
    pub closed spec fn key_limit(&self) -> nat {
        record_key_limit(self.map)
    }

    /// The two stores hold the same and work alike.
    pub open spec fn same_as(&self, other: &FileStore) -> bool {
        &&& self.records() == other.records()
        &&& self.next_id() == other.next_id()
        &&& self.value_limit() == other.value_limit()
        &&& self.key_limit() == other.key_limit()
    }

    /// The files of the store.
    pub open spec fn view(&self) -> Map<u64, FileView> {
        files_in(self.records())
    }

    /// What `refusal` says, spelled out.
    pub proof fn lemma_refusal(&self, record_len: nat)
        ensures
            self.refusal(record_len) == (if self.next_id() == u64::MAX
                || self.records().dom().contains(self.next_id()) {
                Some(Error::AlreadyAllocated)
            } else if 8 > self.key_limit() {
                Some(Error::KeyTooLarge)
            } else if record_len > self.value_limit() {
                Some(Error::ValueTooLarge)
            } else {
                None
            }),
    {
    }

    /// The store that keeps its records in `map`, and gives the next file the
    /// number `next_id`.
    pub(crate) fn with_map(map: RecordMap, next_id: u64) -> (s: Self)
        ensures
            s.records() == record_entries(map),
            s.next_id() == next_id,
            s.key_limit() == record_key_limit(map),
            s.value_limit() == record_value_limit(map),
    {
        FileStore { map, next_id }
    }

    /// Stores `file` under the number that the next file gets, and moves that
    /// number on.
    fn add(&mut self, file: &File) -> (r: Result<(), Error>)
        requires
            file.id == old(self).next_id(),
        ensures
            final(self).value_limit() == old(self).value_limit(),
            final(self).key_limit() == old(self).key_limit(),
            match old(self).refusal(file_bytes(file@).len()) {
                Some(e) => r == Err::<(), Error>(e) && final(self).same_as(old(self)),
                None => r is Ok && final(self).next_id() == old(self).next_id() + 1
                    && final(self).records() == old(self).records().insert(
                    file.id,
                    file_bytes(file@),
                ) && final(self)@ == old(self)@.insert(file.id, file@),
            },
    {
        let bytes = encode_file(file);
        match record_allocate(&mut self.map, self.next_id, bytes) {
            Ok(_) => {
                self.next_id = self.next_id + 1;
                assert(self@ =~= old(self)@.insert(file.id, file@));
                Ok(())
            },
            Err(e) => Err(e),
        }
    }

    /// Every record of the store with its number, by rising number.
    pub(crate) fn list(&self) -> (r: Vec<(u64, Vec<u8>)>)
        ensures
            forall|i: int, j: int| 0 <= i < j < r@.len() ==> r@[i].0 < r@[j].0,
            forall|i: int|
                0 <= i < r@.len() ==> self.records().dom().contains(#[trigger] r@[i].0)
                    && self.records()[r@[i].0] == r@[i].1@,
            forall|k: u64|
                self.records().dom().contains(k) ==> exists|i: int|
                    0 <= i < r@.len() && #[trigger] r@[i].0 == k,
    {
        record_list(&self.map)
    }
}

/// The number that the next file gets.
pub fn get_current_file_id(files: &FileStore) -> (id: u64)
    ensures
        id == files.next_id(),
{
    files.next_id
}

/// The file `key`, if it is stored.
pub fn get_file(files: &FileStore, key: &FileID) -> (r: Option<File>)
    ensures
        r is Some <==> files@.dom().contains(*key),
        r matches Some(f) ==> f@ == files@[*key],
{
    match record_get(&files.map, *key) {
        Some(bytes) => decode_file(bytes.as_slice()),
        None => None,
    }
}

/// The file `file_id`.
pub fn get_file_by_id(files: &FileStore, file_id: &FileID) -> (r: Result<File, Error>)
    ensures
        r is Ok <==> files@.dom().contains(*file_id),
        r matches Ok(f) ==> f@ == files@[*file_id],
        r is Err ==> r == Err::<File, Error>(Error::NotFound),
{
    match get_file(files, file_id) {
        Some(file) => Ok(file),
        None => Err(Error::NotFound),
    }
}

/// Why the store refuses a record of `record_len` bytes under a number that
/// may be taken, if it does.
pub open spec fn insert_refusal(files: &FileStore, record_len: nat) -> Option<Error> {
    if 8 > files.key_limit() {
        Some(Error::KeyTooLarge)
    } else if record_len > files.value_limit() {
        Some(Error::ValueTooLarge)
    } else {
        None
    }
}

/// Stores `value` under `key`, in place of what was stored there, and returns
/// the file that was stored there. Where the store refuses the record for its
/// size, nothing changes.
pub fn insert_file(files: &mut FileStore, key: FileID, value: &File) -> (r: Result<
    Option<File>,
    Error,
>)
    ensures
        final(files).next_id() == old(files).next_id(),
        final(files).value_limit() == old(files).value_limit(),
        final(files).key_limit() == old(files).key_limit(),
        match insert_refusal(old(files), file_bytes(value@).len()) {
            Some(e) => r == Err::<Option<File>, Error>(e) && final(files).same_as(old(files)),
            None => {
                &&& final(files).records() == old(files).records().insert(key, file_bytes(value@))
                &&& final(files)@ == old(files)@.insert(key, value@)
                &&& r matches Ok(before)
                &&& before is Some <==> old(files)@.dom().contains(key)
                &&& before matches Some(f) ==> f@ == old(files)@[key]
            },
        },
{
    let bytes = encode_file(value);
    match record_insert(&mut files.map, key, bytes) {
        Ok(before) => {
            assert(files@ =~= old(files)@.insert(key, value@));
            match before {
                Some(b) => Ok(decode_file(b.as_slice())),
                None => Ok(None),
            }
        },
        Err(InsertError::KeyTooLarge { given: _, max: _ }) => Err(Error::KeyTooLarge),
        Err(InsertError::ValueTooLarge { given: _, max: _ }) => Err(Error::ValueTooLarge),
    }
}

/// Takes the file `key` out of the store, and returns it. Its chunks stay.
pub fn remove_file(files: &mut FileStore, key: &FileID) -> (r: Option<File>)
    ensures
        final(files).records() == old(files).records().remove(*key),
        final(files)@ == old(files)@.remove(*key),
        final(files).next_id() == old(files).next_id(),
        final(files).value_limit() == old(files).value_limit(),
        final(files).key_limit() == old(files).key_limit(),
        r is Some <==> old(files)@.dom().contains(*key),
        r matches Some(f) ==> f@ == old(files)@[*key],
{
    let r = match record_remove(&mut files.map, *key) {
        Some(bytes) => decode_file(bytes.as_slice()),
        None => None,
    };
    assert(files@ =~= old(files)@.remove(*key));
    r
}

/// The address under which the file `id` of kind `file_type` is served.
pub fn build_url(deployment: &Deployment, file_type: FileType, id: u64) -> (url: String)
    ensures
        url@ == file_url(
            principal_text(deployment.canister@),
            deployment.local,
            file_type.slug(),
            id,
        ),
{
    let canister = deployment.canister.to_text();
    let mut url = String::new();
    if deployment.local {
        url.append("http://");
        url.append(canister.as_str());
        url.append(".localhost:4943/");
    } else {
        url.append("https://");
        url.append(canister.as_str());
        url.append(".raw.ic0.app/");
    }
    url.append(file_type.url_slug());
    url.append("/");
    append_decimal(&mut url, id);
    assert(url@ =~= file_url(
        principal_text(deployment.canister@),
        deployment.local,
        file_type.slug(),
        id,
    ));
    url
}

/// Why a file cannot be created, if it cannot: the kind is unknown, the
/// owner's count of bytes would no longer fit, or one of the stores refuses
/// its record.
pub open spec fn create_file_refusal(
    db: &Database,
    deployment: &Deployment,
    first_chunk: Seq<u8>,
    file_name: Seq<char>,
    number_of_chunks: u64,
    file_type: Seq<char>,
    owner: Seq<u8>,
    now: u64,
) -> Option<Error> {
    if file_type_of_mime(file_type) is None {
        Some(Error::UnsupportedType)
    } else if usage_of(db.users@, owner).bytes_used + first_chunk.len() > u64::MAX {
        Some(Error::CapacityExceeded)
    } else if db.chunks.refusal(first_chunk.len() + 144) is Some {
        db.chunks.refusal(first_chunk.len() + 144)
    } else {
        db.files.refusal(
            file_bytes(
                created_file(
                    db,
                    deployment,
                    first_chunk,
                    file_name,
                    number_of_chunks,
                    file_type,
                    owner,
                    now,
                ),
            ).len(),
        )
    }
}

/// The file that `create_file` makes of what it is given.
pub open spec fn created_file(
    db: &Database,
    deployment: &Deployment,
    first_chunk: Seq<u8>,
    file_name: Seq<char>,
    number_of_chunks: u64,
    file_type: Seq<char>,
    owner: Seq<u8>,
    now: u64,
) -> FileView {
    let kind = file_type_of_mime(file_type)->0;
    new_file(
        db.files.next_id(),
        db.chunks.next_id(),
        file_url(
            principal_text(deployment.canister@),
            deployment.local,
            kind.slug(),
            db.files.next_id(),
        ),
        file_name,
        number_of_chunks,
        kind,
        owner,
        now,
        first_chunk,
    )
}

/// What creating `file` of `first_chunk` at the moment `now` makes of a
/// database: the file and its first chunk are stored under the next numbers,
/// both counters move on, and the ledger notes the file and the bytes for
/// the owner.
pub open spec fn file_created(
    before: &Database,
    after: &Database,
    file: FileView,
    first_chunk: Seq<u8>,
    now: u64,
) -> bool {
    &&& file.id == before.files.next_id()
    &&& file.chunk_ids == seq![before.chunks.next_id()]
    &&& !before.files@.dom().contains(file.id)
    &&& !before.chunks@.dom().contains(before.chunks.next_id())
    &&& after.files@ == before.files@.insert(file.id, file)
    &&& after.files.next_id() == before.files.next_id() + 1
    &&& after.chunks@ == before.chunks@.insert(
        before.chunks.next_id(),
        new_chunk(before.chunks.next_id(), file.id, first_chunk, 0, now),
    )
    &&& after.chunks.next_id() == before.chunks.next_id() + 1
    &&& after.users@ == ledger_after(
        before.users@,
        file.owner,
        Some(file.id),
        first_chunk.len() as u64,
    )
}

/// Creates a file of its first chunk: the chunk and the file get the next
/// numbers, both are stored, and the ledger notes the file and the bytes for
/// the owner. Where it is refused, nothing changes.
pub fn create_file(
    db: &mut Database,
    deployment: &Deployment,
    first_chunk: Vec<u8>,
    file_name: String,
    number_of_chunks: u64,
    file_type: String,
    owner: Identity,
    now: u64,
) -> (r: Result<File, Error>)
    requires
        old(db).users.wf(),
    ensures
        final(db).users.wf(),
        final(db).limits_as(old(db)),
        match create_file_refusal(
            old(db),
            deployment,
            first_chunk@,
            file_name@,
            number_of_chunks,
            file_type@,
            owner@,
            now,
        ) {
            Some(e) => r == Err::<File, Error>(e) && final(db).same_as(old(db)),
            None => {
                &&& r matches Ok(file)
                &&& file@ == created_file(
                    old(db),
                    deployment,
                    first_chunk@,
                    file_name@,
                    number_of_chunks,
                    file_type@,
                    owner@,
                    now,
                )
                &&& final(db).files.records() == old(db).files.records().insert(
                    file.id,
                    file_bytes(file@),
                )
                &&& file_created(old(db), final(db), file@, first_chunk@, now)
            },
        },
{
    proof {
        old(db).files.lemma_refusal(0);
    }
    let bytes_used: u64 = first_chunk.len() as u64;
    let kind = match FileType::convert_to_file_type(file_type.as_str()) {
        Ok(kind) => kind,
        Err(e) => {
            return Err(e);
        },
    };
    let used: u64 = db.users.bytes_used(&owner);
    if used > u64::MAX - bytes_used {
        return Err(Error::CapacityExceeded);
    }
    let id: u64 = db.files.next_id;
    let hash = hash_bytes(first_chunk.as_slice());
    let chunk_id: u64 = db.chunks.current_id();
    let ghost chunk_records = db.chunks.records();
    match insert_chunk(&mut db.chunks, id, first_chunk, 0, now) {
        Ok(_) => {},
        Err(e) => {
            return Err(e);
        },
    }
    let url = build_url(deployment, kind, id);
    let mut accessors: Vec<Identity> = Vec::new();
    accessors.push(owner.clone());
    let mut chunk_ids: Vec<u64> = Vec::new();
    chunk_ids.push(chunk_id);
    let file = File {
        id,
        url,
        chunk_ids,
        number_of_chunks,
        file_name,
        file_type: kind,
        owner,
        metadata: String::new(),
        deleted_at: None,
        created_at: now,
        updated_at: now,
        accessors,
        hash,
    };
    assert(file@ =~= created_file(
        old(db),
        deployment,
        first_chunk@,
        file_name@,
        number_of_chunks,
        file_type@,
        owner@,
        now,
    ));
    match db.files.add(&file) {
        Ok(_) => {},
        Err(e) => {
            remove_chunk(&mut db.chunks, chunk_id);
            db.chunks.set_current_id(chunk_id);
            assert(db.chunks.records() =~= chunk_records);
            return Err(e);
        },
    }
    match update_user_info_file(&mut db.users, &file.owner, &file, bytes_used) {
        Ok(_) => Ok(file),
        Err(e) => Err(e),
    }
}

/// The chunks that are left once those numbered in `ids` are gone.
pub open spec fn without_chunks(chunks: Map<u64, FileChunkView>, ids: Seq<u64>) -> Map<
    u64,
    FileChunkView,
> {
    chunks.remove_keys(ids.to_set())
}

/// Takes the record `file_id` out of the files, and the chunks numbered in
/// `chunk_ids` out of the chunks.
fn remove_with_chunks(db: &mut Database, file_id: FileID, chunk_ids: &Vec<u64>)
    ensures
        final(db).users == old(db).users,
        final(db).limits_as(old(db)),
        final(db).files.next_id() == old(db).files.next_id(),
        final(db).chunks.next_id() == old(db).chunks.next_id(),
        final(db).files.records() == old(db).files.records().remove(file_id),
        final(db).files@ == old(db).files@.remove(file_id),
        final(db).chunks.records() == old(db).chunks.records().remove_keys(chunk_ids@.to_set()),
        final(db).chunks@ == without_chunks(old(db).chunks@, chunk_ids@),
{
    remove_file(&mut db.files, &file_id);
    let mut i: usize = 0;
    assert(db.chunks.records() =~= old(db).chunks.records().remove_keys(
        chunk_ids@.take(0).to_set(),
    ));
    while i < chunk_ids.len()
        invariant
            i <= chunk_ids@.len(),
            db.chunks.records() == old(db).chunks.records().remove_keys(
                chunk_ids@.take(i as int).to_set(),
            ),
            db.chunks.next_id() == old(db).chunks.next_id(),
            db.chunks.value_limit() == old(db).chunks.value_limit(),
            db.chunks.key_limit() == old(db).chunks.key_limit(),
            db.users == old(db).users,
            db.files.records() == old(db).files.records().remove(file_id),
            db.files@ == old(db).files@.remove(file_id),
            db.files.next_id() == old(db).files.next_id(),
            db.files.value_limit() == old(db).files.value_limit(),
            db.files.key_limit() == old(db).files.key_limit(),
        decreases chunk_ids@.len() - i,
    {
        proof {
            let ids = chunk_ids@.take(i + 1);
            assert(ids =~= chunk_ids@.take(i as int).push(chunk_ids@[i as int]));
            crate::database::users::lemma_push_to_set(
                chunk_ids@.take(i as int),
                chunk_ids@[i as int],
            );
        }
        remove_chunk(&mut db.chunks, chunk_ids[i]);
        assert(db.chunks.records() =~= old(db).chunks.records().remove_keys(
            chunk_ids@.take(i + 1).to_set(),
        ));
        i += 1;
    }
    assert(chunk_ids@.take(i as int) =~= chunk_ids@);
    assert(db.chunks@ =~= without_chunks(old(db).chunks@, chunk_ids@));
}

/// What deleting the file `file_id` makes of a database: the file is gone,
/// and so is every chunk it listed.
pub open spec fn file_deleted(before: &Database, after: &Database, file_id: u64) -> bool {
    &&& after.files@ == before.files@.remove(file_id)
    &&& after.chunks@ == without_chunks(before.chunks@, before.files@[file_id].chunk_ids)
    &&& after.users@ == before.users@
    &&& after.files.next_id() == before.files.next_id()
    &&& after.chunks.next_id() == before.chunks.next_id()
}

/// Deletes the file `file_id` and every chunk it lists. Where there is no
/// such file, nothing changes.
pub fn delete_file(db: &mut Database, file_id: FileID) -> (r: Result<String, Error>)
    ensures
        final(db).users == old(db).users,
        final(db).limits_as(old(db)),
        final(db).files.next_id() == old(db).files.next_id(),
        final(db).chunks.next_id() == old(db).chunks.next_id(),
        r is Ok <==> old(db).files@.dom().contains(file_id),
        r matches Ok(s) ==> {
            &&& s@ == "File deleted"@
            &&& final(db).files@ == old(db).files@.remove(file_id)
            &&& final(db).files.records() == old(db).files.records().remove(file_id)
            &&& final(db).chunks@ == without_chunks(
                old(db).chunks@,
                old(db).files@[file_id].chunk_ids,
            )
            &&& final(db).chunks.records() == old(db).chunks.records().remove_keys(
                old(db).files@[file_id].chunk_ids.to_set(),
            )
        },
        r is Err ==> r == Err::<String, Error>(Error::NotFound) && final(db).same_as(old(db)),
{
    match get_file_by_id(&db.files, &file_id) {
        Ok(file) => {
            remove_with_chunks(db, file_id, &file.chunk_ids);
            Ok(String::from_str("File deleted"))
        },
        Err(e) => Err(e),
    }
}

/// The numbers of the files that `who` owns.
pub open spec fn owned_by(files: Map<u64, FileView>, who: Seq<u8>) -> Set<u64> {
    Set::new(|k: u64| files.dom().contains(k) && files[k].owner == who)
}

/// The numbers of the chunks that the files numbered in `keys` list.
pub open spec fn chunks_listed(files: Map<u64, FileView>, keys: Set<u64>) -> Set<u64> {
    Set::new(
        |c: u64|
            exists|k: u64|
                #![trigger keys.contains(k)]
                keys.contains(k) && files.dom().contains(k) && files[k].chunk_ids.contains(c),
    )
}

/// `file` is one of the files numbered in `keys`.
pub open spec fn file_among(files: Map<u64, FileView>, keys: Set<u64>, file: FileView) -> bool {
    exists|k: u64| #[trigger] keys.contains(k) && files[k] == file
}

/// `file` is in the list.
pub open spec fn file_listed(list: Seq<File>, file: FileView) -> bool {
    exists|i: int| 0 <= i < list.len() && (#[trigger] list[i])@ == file
}

/// Deletes every file that `principal` owns, with the chunks that those files
/// list, and returns the files, by rising number.
pub fn delete_all_files_by_prinicipal(db: &mut Database, principal: &Identity) -> (r: Vec<File>)
    ensures
        final(db).users == old(db).users,
        final(db).limits_as(old(db)),
        final(db).files.next_id() == old(db).files.next_id(),
        final(db).chunks.next_id() == old(db).chunks.next_id(),
        final(db).files.records() == old(db).files.records().remove_keys(
            owned_by(old(db).files@, principal@),
        ),
        final(db).files@ == old(db).files@.remove_keys(owned_by(old(db).files@, principal@)),
        final(db).chunks.records() == old(db).chunks.records().remove_keys(
            chunks_listed(old(db).files@, owned_by(old(db).files@, principal@)),
        ),
        final(db).chunks@ == old(db).chunks@.remove_keys(
            chunks_listed(old(db).files@, owned_by(old(db).files@, principal@)),
        ),
        r@.len() == owned_by(old(db).files@, principal@).len(),
        forall|i: int|
            0 <= i < r@.len() ==> file_among(
                old(db).files@,
                owned_by(old(db).files@, principal@),
                #[trigger] r@[i]@,
            ),
        forall|k: u64|
            #![trigger old(db).files@[k]]
            owned_by(old(db).files@, principal@).contains(k) ==> file_listed(
                r@,
                old(db).files@[k],
            ),
{
    let list = db.files.list();
    let mut deleted: Vec<File> = Vec::new();
    let ghost owned = owned_by(old(db).files@, principal@);
    let ghost mut keys: Seq<u64> = Seq::empty();
    let ghost mut gone: Set<u64> = Set::empty();
    let mut i: usize = 0;
    assert(db.files.records() =~= old(db).files.records().remove_keys(keys.to_set()));
    assert(db.chunks.records() =~= old(db).chunks.records().remove_keys(gone));
    while i < list.len()
        invariant
            i <= list@.len(),
            owned == owned_by(old(db).files@, principal@),
            forall|a: int, b: int| 0 <= a < b < list@.len() ==> list@[a].0 < list@[b].0,
            forall|a: int|
                0 <= a < list@.len() ==> old(db).files.records().dom().contains(
                    #[trigger] list@[a].0,
                ) && old(db).files.records()[list@[a].0] == list@[a].1@,
            forall|k: u64|
                old(db).files.records().dom().contains(k) ==> exists|a: int|
                    0 <= a < list@.len() && #[trigger] list@[a].0 == k,
            db.users == old(db).users,
            db.limits_as(old(db)),
            db.files.next_id() == old(db).files.next_id(),
            db.chunks.next_id() == old(db).chunks.next_id(),
            db.files.records() == old(db).files.records().remove_keys(keys.to_set()),
            db.chunks.records() == old(db).chunks.records().remove_keys(gone),
            gone == chunks_listed(old(db).files@, keys.to_set()),
            keys.len() == deleted@.len(),
            forall|t: int|
                0 <= t < keys.len() ==> owned.contains(#[trigger] keys[t]) && deleted@[t]@
                    == old(db).files@[keys[t]],
            forall|t: int, u: int| 0 <= t < u < keys.len() ==> keys[t] < keys[u],
            forall|t: int| 0 <= t < keys.len() && i < list@.len() ==> keys[t] < list@[i as int].0,
            forall|k: u64|
                owned.contains(k) && (exists|a: int| 0 <= a < i && #[trigger] list@[a].0 == k)
                    ==> keys.contains(k),
        decreases list@.len() - i,
    {
        let key: u64 = list[i].0;
        let ghost before_keys = keys;
        assert(!keys.contains(key));
        assert(db.files.records().dom().contains(key));
        assert(db.files.records()[key] == old(db).files.records()[key]);
        let mut taken: bool = false;
        match decode_file(list[i].1.as_slice()) {
            Some(file) => {
                if file.owner == *principal {
                    assert(owned.contains(key));
                    remove_with_chunks(db, key, &file.chunk_ids);
                    proof {
                        keys = keys.push(key);
                        crate::database::users::lemma_push_to_set(before_keys, key);
                        let more = file.chunk_ids@.to_set();
                        assert(db.files.records() =~= old(db).files.records().remove_keys(
                            keys.to_set(),
                        ));
                        assert(db.chunks.records() =~= old(db).chunks.records().remove_keys(
                            gone.union(more),
                        ));
                        assert(gone.union(more) =~= chunks_listed(old(db).files@, keys.to_set()))
                            by {
                            assert forall|c: u64|
                                gone.union(more).contains(c) <==> chunks_listed(
                                    old(db).files@,
                                    keys.to_set(),
                                ).contains(c) by {
                                if more.contains(c) {
                                    assert(keys.to_set().contains(key));
                                }
                                if gone.contains(c) {
                                    let k = choose|k: u64|
                                        #![trigger before_keys.to_set().contains(k)]
                                        before_keys.to_set().contains(k)
                                            && old(db).files@.dom().contains(k)
                                            && old(db).files@[k].chunk_ids.contains(c);
                                    assert(keys.to_set().contains(k));
                                }
                                if chunks_listed(old(db).files@, keys.to_set()).contains(c) {
                                    let k = choose|k: u64|
                                        #![trigger keys.to_set().contains(k)]
                                        keys.to_set().contains(k)
                                            && old(db).files@.dom().contains(k)
                                            && old(db).files@[k].chunk_ids.contains(c);
                                    if k != key {
                                        assert(before_keys.to_set().contains(k));
                                    }
                                }
                            }
                        }
                        gone = gone.union(more);
                    }
                    deleted.push(file);
                    taken = true;
                }
            },
            None => {},
        }
        proof {
            assert forall|k: u64|
                owned.contains(k) && (exists|a: int| 0 <= a < i + 1 && #[trigger] list@[a].0 == k)
                implies keys.contains(k) by {
                let a = choose|a: int| 0 <= a < i + 1 && #[trigger] list@[a].0 == k;
                if a == i {
                    assert(taken);
                    assert(keys[keys.len() - 1] == k);
                } else {
                    assert(before_keys.contains(k));
                    let t = choose|t: int| 0 <= t < before_keys.len() && before_keys[t] == k;
                    assert(keys[t] == k);
                }
            }
        }
        i += 1;
    }
    proof {
        assert(keys.to_set() =~= owned) by {
            assert forall|k: u64| keys.to_set().contains(k) <==> owned.contains(k) by {
                if keys.contains(k) {
                    let t = choose|t: int| 0 <= t < keys.len() && keys[t] == k;
                    assert(owned.contains(keys[t]));
                }
                if owned.contains(k) {
                    assert(old(db).files.records().dom().contains(k));
                }
            }
        }
        assert(db.files@ =~= old(db).files@.remove_keys(owned));
        assert(db.chunks@ =~= old(db).chunks@.remove_keys(gone));
        assert(keys.no_duplicates());
        keys.unique_seq_to_set();
        assert forall|t: int| 0 <= t < deleted@.len() implies file_among(
            old(db).files@,
            owned,
            #[trigger] deleted@[t]@,
        ) by {
            assert(owned.contains(keys[t]) && deleted@[t]@ == old(db).files@[keys[t]]);
        }
        assert forall|k: u64| owned.contains(k) implies file_listed(
            deleted@,
            #[trigger] old(db).files@[k],
        ) by {
            assert(keys.contains(k));
            let t = choose|t: int| 0 <= t < keys.len() && keys[t] == k;
            assert(deleted@[t]@ == old(db).files@[keys[t]]);
        }
    }
    deleted
}

/// Once the files of an identity are deleted, it owns none.
pub proof fn lemma_none_left(files: Map<u64, FileView>, who: Seq<u8>)
    ensures
        owned_by(files.remove_keys(owned_by(files, who)), who) == Set::<u64>::empty(),
        forall|k: u64|
            files.dom().contains(k) && files[k].owner != who ==> files.remove_keys(
                owned_by(files, who),
            ).dom().contains(k) && #[trigger] files.remove_keys(owned_by(files, who))[k]
                == files[k],
{
    assert(owned_by(files.remove_keys(owned_by(files, who)), who) =~= Set::<u64>::empty());
}

} // verus!
