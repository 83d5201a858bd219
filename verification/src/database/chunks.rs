//! The chunks of the stored objects.

use vstd::prelude::*;

use crate::database::file::{insert_file, insert_refusal};
use crate::database::Database;
use crate::database::stable::{
    allocation_error, record_allocate, record_entries, record_get, record_key_limit,
    record_remove, record_value_limit, RecordMap,
};
use crate::database::users::{ledger_after, update_user_info_chunk, usage_of};
use crate::error::Error;
use crate::models::file::{hash_bytes, sha3_256, File, FileChunk, FileChunkView, FileView};
use crate::models::record::{
    chunk_bytes, decode_chunk, encode_chunk, file_bytes, lemma_chunk_record_len, parse_chunk,
};

verus! {

/// The number of a chunk.
pub type ChunkID = u64;

/// The most bytes that the key of a record takes.
pub const MAX_KEY_SIZE: u32 = 8;

/// The most bytes that the record of a chunk may take: the 1.9 MB of the
/// largest chunk, and room for what is noted beside them.
pub const MAX_VALUE_SIZE: u32 = 2000000;

/// The memory of the pool in which the chunks are kept.
pub const CHUNK_MEMORY: u8 = 0;

/// The chunks that records tell of, each under its number. A record that
/// tells of no chunk counts for nothing.
pub open spec fn chunks_in(records: Map<u64, Seq<u8>>) -> Map<u64, FileChunkView> {
    Map::new(
        |k: u64| records.dom().contains(k) && parse_chunk(records[k]) is Some,
        |k: u64| parse_chunk(records[k])->0,
    )
}

/// A chunk as it is when it is first stored.
pub open spec fn new_chunk(id: u64, file_id: u64, data: Seq<u8>, order_id: u64, now: u64)
    -> FileChunkView {
    FileChunkView {
        id,
        file_id,
        order_id,
        chunk_data: data,
        metadata: Seq::empty(),
        deleted_at: None,
        created_at: now,
        updated_at: now,
        hash: sha3_256(data),
    }
}

/// Those of the chunks numbered in `ids` that are stored, in the order of
/// `ids`.
pub open spec fn found_chunks(chunks: Map<u64, FileChunkView>, ids: Seq<u64>) -> Seq<
    FileChunkView,
>
    decreases ids.len(),
{
    if ids.len() == 0 {
        Seq::empty()
    } else {
        let rest = found_chunks(chunks, ids.drop_last());
        if chunks.dom().contains(ids.last()) {
            rest.push(chunks[ids.last()])
        } else {
            rest
        }
    }
}

/// The last of `found` that has the place `order_id` in its file.
pub open spec fn chunk_by_order(found: Seq<FileChunkView>, order_id: u64) -> Option<
    FileChunkView,
>
    decreases found.len(),
{
    if found.len() == 0 {
        None
    } else if found.last().order_id == order_id {
        Some(found.last())
    } else {
        chunk_by_order(found.drop_last(), order_id)
    }
}

/// What each chunk of a list holds.
pub open spec fn chunk_views(chunks: Seq<FileChunk>) -> Seq<FileChunkView> {
    Seq::new(chunks.len(), |i: int| chunks[i]@)
}

/// The store of chunks: their records, and the number that the next chunk
/// gets.
pub struct ChunkStore {
    map: RecordMap,
    next_id: u64,
}

impl ChunkStore {
    /// The records of the store.
    pub closed spec fn records(&self) -> Map<u64, Seq<u8>> {
        record_entries(self.map)
    }

    /// The number that the next chunk gets.
    pub closed spec fn next_id(&self) -> u64 {
        self.next_id
    }

    /// Why a record of `record_len` bytes cannot be added, if it cannot.
    pub closed spec fn refusal(&self, record_len: nat) -> Option<Error> {
        allocation_error(self.map, self.next_id, record_len)
    }

    /// The most bytes a record may take in this store.
    pub closed spec fn value_limit(&self) -> nat {
        record_value_limit(self.map)
    }

    /// The most bytes a key may take in this store.
    pub closed spec fn key_limit(&self) -> nat {
        record_key_limit(self.map)
    }

    /// The two stores hold the same and work alike.
    pub open spec fn same_as(&self, other: &ChunkStore) -> bool {
        &&& self.records() == other.records()
        &&& self.next_id() == other.next_id()
        &&& self.value_limit() == other.value_limit()
        &&& self.key_limit() == other.key_limit()
    }

    /// The chunks of the store.
    pub open spec fn view(&self) -> Map<u64, FileChunkView> {
        chunks_in(self.records())
    }

    /// What `refusal` says, spelled out.
    pub proof fn lemma_refusal(&self, record_len: nat)
        ensures
            self.refusal(record_len) == (if self.next_id() == u64::MAX
                || self.records().dom().contains(self.next_id()) {
                Some(Error::AlreadyAllocated)
            } else if 8 > self.key_limit() {
                Some(Error::KeyTooLarge)
            } else if record_len > self.value_limit() {
                Some(Error::ValueTooLarge)
            } else {
                None
            }),
    {
    }

    /// The store that keeps its records in `map`, and gives the next chunk the
    /// number `next_id`.
    pub(crate) fn with_map(map: RecordMap, next_id: u64) -> (s: Self)
        ensures
            s.records() == record_entries(map),
            s.next_id() == next_id,
            s.key_limit() == record_key_limit(map),
            s.value_limit() == record_value_limit(map),
    {
        ChunkStore { map, next_id }
    }

    /// The number that the next chunk gets.
    pub fn current_id(&self) -> (id: u64)
        ensures
            id == self.next_id(),
    {
        self.next_id
    }

    /// Sets the number that the next chunk gets.
    pub(crate) fn set_current_id(&mut self, id: u64)
        ensures
            final(self).next_id() == id,
            final(self).records() == old(self).records(),
            final(self).value_limit() == old(self).value_limit(),
            final(self).key_limit() == old(self).key_limit(),
    {
        self.next_id = id;
    }

    fn get(&self, key: u64) -> (r: Option<FileChunk>)
        ensures
            r is Some <==> self@.dom().contains(key),
            r matches Some(c) ==> c@ == self@[key],
    {
        match record_get(&self.map, key) {
            Some(bytes) => decode_chunk(bytes.as_slice()),
            None => None,
        }
    }

    /// Stores `chunk` under the number that the next chunk gets, and moves
    /// that number on.
    fn insert(&mut self, chunk: &FileChunk) -> (r: Result<(), Error>)
        requires
            chunk.id == old(self).next_id(),
        ensures
            final(self).value_limit() == old(self).value_limit(),
            final(self).key_limit() == old(self).key_limit(),
            match old(self).refusal(chunk_bytes(chunk@).len()) {
                Some(e) => r == Err::<(), Error>(e) && final(self).same_as(old(self)),
                None => r is Ok && final(self).next_id() == old(self).next_id() + 1
                    && final(self).records() == old(self).records().insert(
                    chunk.id,
                    chunk_bytes(chunk@),
                )
                    && final(self)@ == old(self)@.insert(chunk.id, chunk@),
            },
    {
        let bytes = encode_chunk(chunk);
        match record_allocate(&mut self.map, self.next_id, bytes) {
            Ok(_) => {
                self.next_id = self.next_id + 1;
                assert(self@ =~= old(self)@.insert(chunk.id, chunk@));
                Ok(())
            },
            Err(e) => Err(e),
        }
    }
}

/// Takes the chunk `key` out of the store, and returns it.
pub fn remove_chunk(chunks: &mut ChunkStore, key: ChunkID) -> (r: Option<FileChunk>)
    ensures
        final(chunks).records() == old(chunks).records().remove(key),
        final(chunks)@ == old(chunks)@.remove(key),
        final(chunks).next_id() == old(chunks).next_id(),
        final(chunks).value_limit() == old(chunks).value_limit(),
        final(chunks).key_limit() == old(chunks).key_limit(),
        r is Some <==> old(chunks)@.dom().contains(key),
        r matches Some(c) ==> c@ == old(chunks)@[key],
{
    let r = match record_remove(&mut chunks.map, key) {
        Some(bytes) => decode_chunk(bytes.as_slice()),
        None => None,
    };
    assert(chunks@ =~= old(chunks)@.remove(key));
    r
}

/// The file once the chunk `chunk_id` has been added to it at the moment
/// `now`.
pub open spec fn with_chunk(file: FileView, chunk_id: u64, now: u64) -> FileView {
    FileView { chunk_ids: file.chunk_ids.push(chunk_id), updated_at: now, ..file }
}

/// Why a chunk cannot be added to a file, if it cannot: the owner's count of
/// bytes would no longer fit, or one of the stores refuses a record.
pub open spec fn put_chunk_refusal(db: &Database, file: FileView, chunk: Seq<u8>, now: u64)
    -> Option<Error> {
    if usage_of(db.users@, file.owner).bytes_used + chunk.len() > u64::MAX {
        Some(Error::CapacityExceeded)
    } else if db.chunks.refusal(chunk.len() + 144) is Some {
        db.chunks.refusal(chunk.len() + 144)
    } else {
        insert_refusal(
            &db.files,
            file_bytes(with_chunk(file, db.chunks.next_id(), now)).len(),
        )
    }
}

/// What adding `chunk` to `file` at the moment `now` makes of a database:
/// the chunk is stored under the next number, the file is stored again with
/// the chunk listed last, and the ledger notes the bytes for the owner.
pub open spec fn chunk_put(
    before: &Database,
    after: &Database,
    file: FileView,
    chunk: Seq<u8>,
    order_id: u64,
    now: u64,
) -> bool {
    &&& !before.chunks@.dom().contains(before.chunks.next_id())
    &&& after.chunks@ == before.chunks@.insert(
        before.chunks.next_id(),
        new_chunk(before.chunks.next_id(), file.id, chunk, order_id, now),
    )
    &&& after.chunks.next_id() == before.chunks.next_id() + 1
    &&& after.files@ == before.files@.insert(
        file.id,
        with_chunk(file, before.chunks.next_id(), now),
    )
    &&& after.files.next_id() == before.files.next_id()
    &&& after.users@ == ledger_after(before.users@, file.owner, None, chunk.len() as u64)
}

/// Stores a new chunk and adds it to `file`: the chunk gets the next number,
/// the file is stored again with the chunk listed last and `now` as the
/// moment of its last change, and the ledger notes the bytes for the file's
/// owner. Where it is refused, nothing changes.
pub fn put_chunk<'a>(
    db: &mut Database,
    file: &'a File,
    chunk: Vec<u8>,
    order_id: u64,
    now: u64,
) -> (r: Result<&'a File, Error>)
    requires
        old(db).users.wf(),
    ensures
        final(db).users.wf(),
        final(db).limits_as(old(db)),
        final(db).files.next_id() == old(db).files.next_id(),
        match put_chunk_refusal(old(db), file@, chunk@, now) {
            Some(e) => r == Err::<&File, Error>(e) && final(db).same_as(old(db)),
            None => {
                &&& r == Ok::<&File, Error>(file)
                &&& chunk_put(old(db), final(db), file@, chunk@, order_id, now)
            },
        },
{
    let bytes_used: u64 = chunk.len() as u64;
    let used: u64 = db.users.bytes_used(&file.owner);
    if used > u64::MAX - bytes_used {
        return Err(Error::CapacityExceeded);
    }
    let ghost chunk_records = db.chunks.records();
    let chunk_id: u64 = match insert_chunk(&mut db.chunks, file.id, chunk, order_id, now) {
        Ok(chunk_id) => chunk_id,
        Err(e) => {
            return Err(e);
        },
    };
    let mut updated_file = file.clone();
    updated_file.chunk_ids.push(chunk_id);
    updated_file.updated_at = now;
    assert(updated_file@ =~= with_chunk(file@, chunk_id, now));
    match insert_file(&mut db.files, file.id, &updated_file) {
        Ok(_) => {},
        Err(e) => {
            remove_chunk(&mut db.chunks, chunk_id);
            db.chunks.set_current_id(chunk_id);
            assert(db.chunks.records() =~= chunk_records);
            return Err(e);
        },
    }
    match update_user_info_chunk(&mut db.users, &file.owner, bytes_used) {
        Ok(_) => Ok(file),
        Err(e) => Err(e),
    }
}

/// Stores a new chunk of the file `file_id`, with its digest, and returns its
/// number. Where the store refuses it, nothing changes.
pub fn insert_chunk(
    chunks: &mut ChunkStore,
    file_id: u64,
    chunk_data: Vec<u8>,
    order_id: u64,
    now: u64,
) -> (r: Result<ChunkID, Error>)
    ensures
        final(chunks).value_limit() == old(chunks).value_limit(),
        final(chunks).key_limit() == old(chunks).key_limit(),
        match old(chunks).refusal(chunk_data@.len() + 144) {
            Some(e) => r == Err::<u64, Error>(e) && final(chunks).same_as(old(chunks)),
            None => {
                &&& r == Ok::<u64, Error>(old(chunks).next_id())
                &&& final(chunks).next_id() == old(chunks).next_id() + 1
                &&& !old(chunks).records().dom().contains(old(chunks).next_id())
                &&& final(chunks).records() == old(chunks).records().insert(
                    old(chunks).next_id(),
                    chunk_bytes(
                        new_chunk(old(chunks).next_id(), file_id, chunk_data@, order_id, now),
                    ),
                )
                &&& final(chunks)@ == old(chunks)@.insert(
                    old(chunks).next_id(),
                    new_chunk(old(chunks).next_id(), file_id, chunk_data@, order_id, now),
                )
            },
        },
{
    let id: u64 = chunks.next_id;
    let hash = hash_bytes(chunk_data.as_slice());
    let file_chunk = FileChunk {
        file_id,
        id,
        chunk_data,
        order_id,
        metadata: String::new(),
        deleted_at: None,
        created_at: now,
        updated_at: now,
        hash,
    };
    proof {
        assert(file_chunk@ =~= new_chunk(id, file_id, chunk_data@, order_id, now));
        lemma_chunk_record_len(file_chunk@);
    }
    match chunks.insert(&file_chunk) {
        Ok(_) => Ok(id),
        Err(e) => Err(e),
    }
}

/// The chunk `chunk_id`.
pub fn get_chunk_by_id(chunks: &ChunkStore, chunk_id: ChunkID) -> (r: Result<FileChunk, Error>)
    ensures
        r is Ok <==> chunks@.dom().contains(chunk_id),
        r matches Ok(c) ==> c@ == chunks@[chunk_id],
        r is Err ==> r == Err::<FileChunk, Error>(Error::NotFound),
{
    match chunks.get(chunk_id) {
        Some(chunk) => Ok(chunk),
        None => Err(Error::NotFound),
    }
}

/// Those chunks of `file` that are stored, in the order in which the file
/// lists them.
pub fn get_all_chunks_for_file(chunks: &ChunkStore, file: &File) -> (r: Result<
    Vec<FileChunk>,
    Error,
>)
    ensures
        r matches Ok(all) && chunk_views(all@) == found_chunks(chunks@, file.chunk_ids@),
{
    let mut all_chunks: Vec<FileChunk> = Vec::new();
    let mut i: usize = 0;
    assert(chunk_views(all_chunks@) =~= found_chunks(chunks@, file.chunk_ids@.take(0)));
    while i < file.chunk_ids.len()
        invariant
            i <= file.chunk_ids@.len(),
            chunk_views(all_chunks@) == found_chunks(chunks@, file.chunk_ids@.take(i as int)),
        decreases file.chunk_ids@.len() - i,
    {
        let ghost before = chunk_views(all_chunks@);
        let ghost ids = file.chunk_ids@.take(i + 1);
        assert(ids.drop_last() =~= file.chunk_ids@.take(i as int));
        assert(ids.last() == file.chunk_ids@[i as int]);
        match chunks.get(file.chunk_ids[i]) {
            Some(chunk) => {
                all_chunks.push(chunk);
                assert(chunk_views(all_chunks@) =~= before.push(chunk@));
            },
            None => {},
        }
        i += 1;
    }
    assert(file.chunk_ids@.take(i as int) =~= file.chunk_ids@);
    Ok(all_chunks)
}

/// How many chunks of `file` are stored.
pub fn count_chunks_for_file(chunks: &ChunkStore, file: &File) -> (n: usize)
    ensures
        n == found_chunks(chunks@, file.chunk_ids@).len(),
{
    let mut n: usize = 0;
    let mut i: usize = 0;
    while i < file.chunk_ids.len()
        invariant
            i <= file.chunk_ids@.len(),
            n <= i,
            n == found_chunks(chunks@, file.chunk_ids@.take(i as int)).len(),
        decreases file.chunk_ids@.len() - i,
    {
        let ghost ids = file.chunk_ids@.take(i + 1);
        assert(ids.drop_last() =~= file.chunk_ids@.take(i as int));
        assert(ids.last() == file.chunk_ids@[i as int]);
        if chunks.get(file.chunk_ids[i]).is_some() {
            n += 1;
        }
        i += 1;
    }
    assert(file.chunk_ids@.take(i as int) =~= file.chunk_ids@);
    n
}

/// The chunk of `file` that has the place `order_id`; the last such chunk
/// where the file lists several.
pub fn get_chunk_by_order_id_for_file(chunks: &ChunkStore, file: &File, order_id: u64) -> (r:
    Option<FileChunk>)
    ensures
        r is Some <==> chunk_by_order(found_chunks(chunks@, file.chunk_ids@), order_id) is Some,
        r matches Some(c) ==> chunk_by_order(found_chunks(chunks@, file.chunk_ids@), order_id)
            == Some(c@),
{
    let mut i: usize = file.chunk_ids.len();
    assert(file.chunk_ids@.take(i as int) =~= file.chunk_ids@);
    while i > 0
        invariant
            i <= file.chunk_ids@.len(),
            chunk_by_order(found_chunks(chunks@, file.chunk_ids@), order_id) == chunk_by_order(
                found_chunks(chunks@, file.chunk_ids@.take(i as int)),
                order_id,
            ),
        decreases i,
    {
        let ghost ids = file.chunk_ids@.take(i as int);
        assert(ids.drop_last() =~= file.chunk_ids@.take(i - 1));
        assert(ids.last() == file.chunk_ids@[i - 1]);
        i -= 1;
        match chunks.get(file.chunk_ids[i]) {
            Some(chunk) => {
                let ghost found = found_chunks(chunks@, ids);
                assert(found.last() == chunk@);
                assert(found.drop_last() =~= found_chunks(chunks@, ids.drop_last()));
                if chunk.order_id == order_id {
                    return Some(chunk);
                }
            },
            None => {},
        }
    }
    None
}

} // verus!
