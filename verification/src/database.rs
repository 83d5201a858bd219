//! The object store and the quota ledger.

use vstd::prelude::*;

pub mod chunks;
pub mod consistency;
pub mod file;
pub mod stable;
pub mod users;

verus! {

/// The files, their chunks, and the ledger of who wrote how much.
pub struct Database {
    pub files: file::FileStore,
    pub chunks: chunks::ChunkStore,
    pub users: users::UserStore,
}

impl Database {
    /// An empty database in the persistent memory `pool`, whatever that
    /// memory held, with the ledger given: no file and no chunk, both
    /// counters at 0, and stores that take records of the sizes that files
    /// and chunks may have.
    pub(crate) fn create(pool: stable::MemoryPool, users: users::UserStore) -> (db: Self)
        ensures
            db.users == users,
            db.files.records() == Map::<u64, Seq<u8>>::empty(),
            db.files@ == Map::<u64, crate::models::file::FileView>::empty(),
            db.files.next_id() == 0,
            db.files.key_limit() == file::MAX_KEY_SIZE,
            db.files.value_limit() == file::MAX_VALUE_SIZE,
            db.chunks.records() == Map::<u64, Seq<u8>>::empty(),
            db.chunks@ == Map::<u64, crate::models::file::FileChunkView>::empty(),
            db.chunks.next_id() == 0,
            db.chunks.key_limit() == chunks::MAX_KEY_SIZE,
            db.chunks.value_limit() == chunks::MAX_VALUE_SIZE,
    {
        let (chunk_map, file_map) = stable::record_maps_create(
            pool,
            chunks::CHUNK_MEMORY,
            chunks::MAX_KEY_SIZE,
            chunks::MAX_VALUE_SIZE,
            file::FILE_MEMORY,
            file::MAX_KEY_SIZE,
            file::MAX_VALUE_SIZE,
        );
        let db = Database {
            files: file::FileStore::with_map(file_map, 0),
            chunks: chunks::ChunkStore::with_map(chunk_map, 0),
            users,
        };
        assert(db.files@ =~= Map::<u64, crate::models::file::FileView>::empty());
        assert(db.chunks@ =~= Map::<u64, crate::models::file::FileChunkView>::empty());
        db
    }

    /// The database that earlier runs of the process left in the persistent
    /// memory `pool`, with the counters and the ledger given. Its stores take
    /// records of the sizes that files and chunks may have, at least.
    pub(crate) fn open(
        pool: stable::MemoryPool,
        next_file_id: u64,
        next_chunk_id: u64,
        users: users::UserStore,
    ) -> (db: Self)
        ensures
            db.users == users,
            db.files.next_id() == next_file_id,
            db.files.key_limit() >= file::MAX_KEY_SIZE,
            db.files.value_limit() >= file::MAX_VALUE_SIZE,
            db.chunks.next_id() == next_chunk_id,
            db.chunks.key_limit() >= chunks::MAX_KEY_SIZE,
            db.chunks.value_limit() >= chunks::MAX_VALUE_SIZE,
    {
        let (chunk_map, file_map) = stable::record_maps_open(
            pool,
            chunks::CHUNK_MEMORY,
            chunks::MAX_KEY_SIZE,
            chunks::MAX_VALUE_SIZE,
            file::FILE_MEMORY,
            file::MAX_KEY_SIZE,
            file::MAX_VALUE_SIZE,
        );
        Database {
            files: file::FileStore::with_map(file_map, next_file_id),
            chunks: chunks::ChunkStore::with_map(chunk_map, next_chunk_id),
            users,
        }
    }

    /// The two databases hold the same.
    pub open spec fn same_as(&self, other: &Database) -> bool {
        &&& self.files.same_as(&other.files)
        &&& self.chunks.same_as(&other.chunks)
        &&& self.users@ == other.users@
    }

    /// The stores of the two databases accept records of the same sizes.
    pub open spec fn limits_as(&self, other: &Database) -> bool {
        &&& self.files.value_limit() == other.files.value_limit()
        &&& self.files.key_limit() == other.files.key_limit()
        &&& self.chunks.value_limit() == other.chunks.value_limit()
        &&& self.chunks.key_limit() == other.chunks.key_limit()
    }
}

} // verus!
