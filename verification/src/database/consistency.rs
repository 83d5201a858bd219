//! What holds of the files and their chunks whatever callers do: every file
//! is stored under its number, every chunk that a file lists is stored, no
//! chunk is listed twice, and no file lists more chunks than it declared.

use vstd::prelude::*;

use crate::database::chunks::{chunk_put, found_chunks};
use crate::database::file::{chunks_listed, file_created, file_deleted};
use crate::database::Database;
use crate::models::file::{FileChunkView, FileView};

verus! {

/// Every chunk that a file lists is stored.
pub open spec fn all_listed_stored(
    files: Map<u64, FileView>,
    chunks: Map<u64, FileChunkView>,
) -> bool {
    forall|k: u64, i: int|
        files.dom().contains(k) && 0 <= i < files[k].chunk_ids.len() ==> chunks.dom().contains(
            #[trigger] files[k].chunk_ids[i],
        )
}

/// No chunk is listed twice, by one file or by two.
pub open spec fn no_chunk_twice(files: Map<u64, FileView>) -> bool {
    forall|k1: u64, i1: int, k2: u64, i2: int|
        files.dom().contains(k1) && files.dom().contains(k2) && 0 <= i1 < files[k1].chunk_ids.len()
            && 0 <= i2 < files[k2].chunk_ids.len() && (k1 != k2 || i1 != i2)
            ==> #[trigger] files[k1].chunk_ids[i1] != #[trigger] files[k2].chunk_ids[i2]
}

/// No file lists more chunks than it declared.
pub open spec fn within_declared(files: Map<u64, FileView>) -> bool {
    forall|k: u64|
        files.dom().contains(k) ==> (#[trigger] files[k]).chunk_ids.len()
            <= files[k].number_of_chunks
}

/// Every file is stored under its own number.
pub open spec fn stored_under_id(files: Map<u64, FileView>) -> bool {
    forall|k: u64| files.dom().contains(k) ==> (#[trigger] files[k]).id == k
}

/// The files and the chunks fit together.
pub open spec fn consistent(files: Map<u64, FileView>, chunks: Map<u64, FileChunkView>) -> bool {
    &&& stored_under_id(files)
    &&& all_listed_stored(files, chunks)
    &&& no_chunk_twice(files)
    &&& within_declared(files)
}

/// Where every chunk of a list is stored, all of them are found.
pub proof fn lemma_all_found(chunks: Map<u64, FileChunkView>, ids: Seq<u64>)
    requires
        forall|i: int| 0 <= i < ids.len() ==> chunks.dom().contains(#[trigger] ids[i]),
    ensures
        found_chunks(chunks, ids).len() == ids.len(),
    decreases ids.len(),
{
    if ids.len() > 0 {
        assert(forall|i: int| 0 <= i < ids.len() - 1 ==> #[trigger] ids.drop_last()[i] == ids[i]);
        lemma_all_found(chunks, ids.drop_last());
        assert(chunks.dom().contains(ids[ids.len() - 1]));
    }
}

/// A store without files is consistent.
pub proof fn lemma_empty_consistent(chunks: Map<u64, FileChunkView>)
    ensures
        consistent(Map::<u64, FileView>::empty(), chunks),
{
}

/// Creating a file that declares one chunk at least keeps the store
/// consistent.
pub proof fn lemma_create_keeps_consistent(
    before: &Database,
    after: &Database,
    file: FileView,
    first_chunk: Seq<u8>,
    now: u64,
)
    requires
        consistent(before.files@, before.chunks@),
        file.number_of_chunks >= 1,
        file_created(before, after, file, first_chunk, now),
    ensures
        consistent(after.files@, after.chunks@),
{
    let files = after.files@;
    assert forall|k: u64, i: int|
        files.dom().contains(k) && 0 <= i < files[k].chunk_ids.len() implies
        after.chunks@.dom().contains(#[trigger] files[k].chunk_ids[i]) by {
        if k != file.id {
            assert(before.chunks@.dom().contains(before.files@[k].chunk_ids[i]));
        }
    }
    assert forall|k1: u64, i1: int, k2: u64, i2: int|
        files.dom().contains(k1) && files.dom().contains(k2) && 0 <= i1 < files[k1].chunk_ids.len()
            && 0 <= i2 < files[k2].chunk_ids.len() && (k1 != k2 || i1 != i2) implies
        #[trigger] files[k1].chunk_ids[i1] != #[trigger] files[k2].chunk_ids[i2] by {
        if k1 != file.id {
            assert(before.chunks@.dom().contains(before.files@[k1].chunk_ids[i1]));
        }
        if k2 != file.id {
            assert(before.chunks@.dom().contains(before.files@[k2].chunk_ids[i2]));
        }
    }
}

/// Adding a chunk to a stored file that holds fewer chunks than it declared
/// keeps the store consistent: the file then lists no more than it
/// declared.
pub proof fn lemma_put_keeps_consistent(
    before: &Database,
    after: &Database,
    file_id: u64,
    chunk: Seq<u8>,
    order_id: u64,
    now: u64,
)
    requires
        consistent(before.files@, before.chunks@),
        before.files@.dom().contains(file_id),
        found_chunks(before.chunks@, before.files@[file_id].chunk_ids).len()
            < before.files@[file_id].number_of_chunks,
        chunk_put(before, after, before.files@[file_id], chunk, order_id, now),
    ensures
        consistent(after.files@, after.chunks@),
        after.files@[file_id].chunk_ids.len() <= after.files@[file_id].number_of_chunks,
{
    let old_file = before.files@[file_id];
    let files = after.files@;
    assert forall|i: int| 0 <= i < old_file.chunk_ids.len() implies before.chunks@.dom().contains(
        #[trigger] old_file.chunk_ids[i],
    ) by {
        assert(before.chunks@.dom().contains(before.files@[file_id].chunk_ids[i]));
    }
    lemma_all_found(before.chunks@, old_file.chunk_ids);
    assert forall|k: u64, i: int|
        files.dom().contains(k) && 0 <= i < files[k].chunk_ids.len() implies
        after.chunks@.dom().contains(#[trigger] files[k].chunk_ids[i]) by {
        if k != file_id {
            assert(before.chunks@.dom().contains(before.files@[k].chunk_ids[i]));
        } else if i < old_file.chunk_ids.len() {
            assert(before.chunks@.dom().contains(before.files@[k].chunk_ids[i]));
        }
    }
    assert forall|k1: u64, i1: int, k2: u64, i2: int|
        files.dom().contains(k1) && files.dom().contains(k2) && 0 <= i1 < files[k1].chunk_ids.len()
            && 0 <= i2 < files[k2].chunk_ids.len() && (k1 != k2 || i1 != i2) implies
        #[trigger] files[k1].chunk_ids[i1] != #[trigger] files[k2].chunk_ids[i2] by {
        let n = old_file.chunk_ids.len();
        let new1 = k1 == file_id && i1 == n;
        let new2 = k2 == file_id && i2 == n;
        if !new1 {
            assert(before.chunks@.dom().contains(before.files@[k1].chunk_ids[i1]));
        }
        if !new2 {
            assert(before.chunks@.dom().contains(before.files@[k2].chunk_ids[i2]));
        }
        if !new1 && !new2 {
            assert(before.files@[k1].chunk_ids[i1] != before.files@[k2].chunk_ids[i2]);
        }
    }
}

/// Deleting files with the chunks they list keeps the store consistent.
pub proof fn lemma_removal_keeps_consistent(
    files: Map<u64, FileView>,
    chunks: Map<u64, FileChunkView>,
    keys: Set<u64>,
)
    requires
        consistent(files, chunks),
    ensures
        consistent(files.remove_keys(keys), chunks.remove_keys(chunks_listed(files, keys))),
{
    let left = files.remove_keys(keys);
    let gone = chunks_listed(files, keys);
    assert forall|k: u64, i: int|
        left.dom().contains(k) && 0 <= i < left[k].chunk_ids.len() implies chunks.remove_keys(
        gone,
    ).dom().contains(#[trigger] left[k].chunk_ids[i]) by {
        let c = files[k].chunk_ids[i];
        assert(chunks.dom().contains(c));
        if gone.contains(c) {
            let k2 = choose|k2: u64|
                #![trigger keys.contains(k2)]
                keys.contains(k2) && files.dom().contains(k2) && files[k2].chunk_ids.contains(c);
            let i2 = choose|i2: int|
                0 <= i2 < files[k2].chunk_ids.len() && files[k2].chunk_ids[i2] == c;
            assert(files[k].chunk_ids[i] != files[k2].chunk_ids[i2]);
        }
    }
    assert forall|k1: u64, i1: int, k2: u64, i2: int|
        left.dom().contains(k1) && left.dom().contains(k2) && 0 <= i1 < left[k1].chunk_ids.len()
            && 0 <= i2 < left[k2].chunk_ids.len() && (k1 != k2 || i1 != i2) implies
        #[trigger] left[k1].chunk_ids[i1] != #[trigger] left[k2].chunk_ids[i2] by {
        assert(files[k1].chunk_ids[i1] != files[k2].chunk_ids[i2]);
    }
}

/// Deleting a file keeps the store consistent.
pub proof fn lemma_delete_keeps_consistent(before: &Database, after: &Database, file_id: u64)
    requires
        consistent(before.files@, before.chunks@),
        before.files@.dom().contains(file_id),
        file_deleted(before, after, file_id),
    ensures
        consistent(after.files@, after.chunks@),
{
    let keys = set![file_id];
    let files = before.files@;
    lemma_removal_keeps_consistent(files, before.chunks@, keys);
    assert(files.remove_keys(keys) =~= files.remove(file_id));
    assert(chunks_listed(files, keys) =~= files[file_id].chunk_ids.to_set()) by {
        assert forall|c: u64|
            chunks_listed(files, keys).contains(c) <==> files[file_id].chunk_ids.to_set().contains(
                c,
            ) by {
            if files[file_id].chunk_ids.contains(c) {
                assert(keys.contains(file_id));
            }
        }
    }
}

/// Every number in use lies below the counter that hands the numbers out.
pub open spec fn below_counters(db: &Database) -> bool {
    &&& forall|k: u64| db.files@.dom().contains(k) ==> k < db.files.next_id()
    &&& forall|k: u64| db.chunks@.dom().contains(k) ==> k < db.chunks.next_id()
}

/// A database without files or chunks uses no number.
pub proof fn lemma_empty_below_counters(db: &Database)
    requires
        db.files@ == Map::<u64, FileView>::empty(),
        db.chunks@ == Map::<u64, FileChunkView>::empty(),
    ensures
        below_counters(db),
{
}

/// Creating a file uses the two next numbers, and moves both counters past
/// them.
pub proof fn lemma_create_keeps_below_counters(
    before: &Database,
    after: &Database,
    file: FileView,
    first_chunk: Seq<u8>,
    now: u64,
)
    requires
        below_counters(before),
        file_created(before, after, file, first_chunk, now),
    ensures
        below_counters(after),
{
}

/// Adding a chunk to a stored file uses the next number for chunks, and
/// moves the counter past it.
pub proof fn lemma_put_keeps_below_counters(
    before: &Database,
    after: &Database,
    file_id: u64,
    chunk: Seq<u8>,
    order_id: u64,
    now: u64,
)
    requires
        below_counters(before),
        stored_under_id(before.files@),
        before.files@.dom().contains(file_id),
        chunk_put(before, after, before.files@[file_id], chunk, order_id, now),
    ensures
        below_counters(after),
{
}

/// Deleting a file frees numbers and uses none.
pub proof fn lemma_delete_keeps_below_counters(before: &Database, after: &Database, file_id: u64)
    requires
        below_counters(before),
        file_deleted(before, after, file_id),
    ensures
        below_counters(after),
{
}

} // verus!
