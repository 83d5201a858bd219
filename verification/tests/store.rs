use std::collections::HashSet;

use asset_canister::auth::user::Superusers;
use asset_canister::database::chunks::{
    get_all_chunks_for_file, get_chunk_by_id, get_chunk_by_order_id_for_file, insert_chunk,
    put_chunk, remove_chunk,
};
use asset_canister::database::file::{
    build_url, create_file, delete_all_files_by_prinicipal, delete_file, get_current_file_id,
    get_file, get_file_by_id, insert_file, remove_file, Deployment,
};
use asset_canister::database::users::{
    get_user_info, update_user_info_chunk, update_user_info_file, UserStore,
};
use asset_canister::error::Error;
use asset_canister::identity::Identity;
use asset_canister::models::file::{hash_bytes, FileType};
use asset_canister::{init, post_upgrade, pre_upgrade, Canister};

fn canister_id() -> Identity {
    Identity::from_slice(&[0, 0, 0, 0, 0, 0, 0, 7, 1, 1]).unwrap()
}

fn fresh(local: bool) -> Canister {
    init(Deployment { canister: canister_id(), local }, Superusers { names: vec![] })
}

fn alice() -> Identity {
    Identity::from_slice(&[10, 1]).unwrap()
}

fn bob() -> Identity {
    Identity::from_slice(&[10, 2]).unwrap()
}

fn make(c: &mut Canister, owner: &Identity, data: Vec<u8>, declared: u64, now: u64) -> u64 {
    let file = create_file(
        &mut c.db,
        &c.deployment,
        data,
        String::from("a.png"),
        declared,
        String::from("image/png"),
        owner.clone(),
        now,
    )
    .unwrap();
    file.id
}

#[test]
fn first_file_gets_number_zero() {
    let mut c = fresh(false);
    assert_eq!(get_current_file_id(&c.db.files), 0);
    let file = create_file(
        &mut c.db,
        &c.deployment,
        vec![1, 2, 3],
        String::from("a.png"),
        2,
        String::from("image/png"),
        alice(),
        77,
    )
    .unwrap();
    assert_eq!(file.id, 0);
    assert_eq!(file.chunk_ids, vec![0]);
    assert_eq!(file.number_of_chunks, 2);
    assert_eq!(file.file_name, "a.png");
    assert_eq!(file.file_type, FileType::PNG);
    assert!(file.owner == alice());
    assert_eq!(file.metadata, "");
    assert_eq!(file.deleted_at, None);
    assert_eq!(file.created_at, 77);
    assert_eq!(file.updated_at, 77);
    assert_eq!(file.accessors.len(), 1);
    assert!(file.accessors[0] == alice());
    assert_eq!(file.hash, hash_bytes(&[1, 2, 3]));
    assert_eq!(get_current_file_id(&c.db.files), 1);
    assert_eq!(c.db.chunks.current_id(), 1);
}

#[test]
fn url_names_canister_kind_and_number() {
    let text = canister_id().to_text();
    let prod = Deployment { canister: canister_id(), local: false };
    let local = Deployment { canister: canister_id(), local: true };
    assert_eq!(
        build_url(&prod, FileType::MP4, 12),
        format!("https://{}.raw.ic0.app/video/12", text)
    );
    assert_eq!(
        build_url(&local, FileType::GIF, 0),
        format!("http://{}.localhost:4943/image/0", text)
    );
}

#[test]
fn created_file_is_stored_with_its_chunk() {
    let mut c = fresh(true);
    let id = make(&mut c, &alice(), vec![9, 9], 1, 5);
    let stored = get_file_by_id(&c.db.files, &id).unwrap();
    assert_eq!(stored.url, format!("http://{}.localhost:4943/image/0", canister_id().to_text()));
    assert_eq!(stored.chunk_ids, vec![0]);
    let chunk = get_chunk_by_id(&c.db.chunks, 0).unwrap();
    assert_eq!(chunk.id, 0);
    assert_eq!(chunk.file_id, id);
    assert_eq!(chunk.order_id, 0);
    assert_eq!(chunk.chunk_data, vec![9, 9]);
    assert_eq!(chunk.metadata, "");
    assert_eq!(chunk.deleted_at, None);
    assert_eq!(chunk.created_at, 5);
    assert_eq!(chunk.updated_at, 5);
    assert_eq!(chunk.hash, hash_bytes(&[9, 9]));
}

#[test]
fn unsupported_type_creates_nothing() {
    let mut c = fresh(false);
    let r = create_file(
        &mut c.db,
        &c.deployment,
        vec![1],
        String::from("a.txt"),
        1,
        String::from("text/plain"),
        alice(),
        1,
    );
    assert_eq!(r.err(), Some(Error::UnsupportedType));
    assert_eq!(get_current_file_id(&c.db.files), 0);
    assert_eq!(c.db.chunks.current_id(), 0);
    assert!(get_file(&c.db.files, &0).is_none());
    assert!(get_chunk_by_id(&c.db.chunks, 0).is_err());
    assert!(get_user_info(&c.db.users, &alice()).is_err());
}

#[test]
fn chunk_too_large_for_the_store_creates_nothing() {
    let mut c = fresh(false);
    let r = create_file(
        &mut c.db,
        &c.deployment,
        vec![0u8; 2_000_000 - 143],
        String::from("a.png"),
        1,
        String::from("image/png"),
        alice(),
        1,
    );
    assert_eq!(r.err(), Some(Error::ValueTooLarge));
    assert_eq!(get_current_file_id(&c.db.files), 0);
    assert_eq!(c.db.chunks.current_id(), 0);
    assert!(get_user_info(&c.db.users, &alice()).is_err());
}

#[test]
fn largest_record_that_fits_is_stored() {
    let mut c = fresh(false);
    let id = insert_chunk(&mut c.db.chunks, 0, vec![1u8; 2_000_000 - 144], 0, 1).unwrap();
    assert_eq!(id, 0);
    assert_eq!(get_chunk_by_id(&c.db.chunks, 0).unwrap().chunk_data.len(), 2_000_000 - 144);
}

#[test]
fn file_too_large_for_the_store_leaves_no_chunk() {
    let mut c = fresh(false);
    let name: String = std::iter::repeat('x').take(20_000_001).collect();
    let r = create_file(
        &mut c.db,
        &c.deployment,
        vec![1, 2],
        name,
        1,
        String::from("image/png"),
        alice(),
        1,
    );
    assert_eq!(r.err(), Some(Error::ValueTooLarge));
    assert_eq!(get_current_file_id(&c.db.files), 0);
    assert_eq!(c.db.chunks.current_id(), 0);
    assert!(get_chunk_by_id(&c.db.chunks, 0).is_err());
    assert!(get_user_info(&c.db.users, &alice()).is_err());
}

#[test]
fn numbers_are_never_used_again() {
    let mut c = fresh(false);
    let a = make(&mut c, &alice(), vec![1], 1, 1);
    delete_file(&mut c.db, a).unwrap();
    let b = make(&mut c, &alice(), vec![2], 1, 2);
    assert_eq!(a, 0);
    assert_eq!(b, 1);
    assert_eq!(get_file_by_id(&c.db.files, &b).unwrap().chunk_ids, vec![1]);
}

#[test]
fn taken_number_is_not_overwritten() {
    let mut c = fresh(false);
    let a = make(&mut c, &alice(), vec![1], 1, 1);
    let mut stray = get_file_by_id(&c.db.files, &a).unwrap();
    stray.metadata = String::from("stray");
    insert_file(&mut c.db.files, 1, &stray).unwrap();
    let r = create_file(
        &mut c.db,
        &c.deployment,
        vec![2],
        String::from("b.png"),
        1,
        String::from("image/png"),
        bob(),
        2,
    );
    assert_eq!(r.err(), Some(Error::AlreadyAllocated));
    assert_eq!(get_file(&c.db.files, &1).unwrap().metadata, "stray");
    assert_eq!(get_current_file_id(&c.db.files), 1);
    assert_eq!(c.db.chunks.current_id(), 1);
    assert!(get_chunk_by_id(&c.db.chunks, 1).is_err());
    assert!(get_user_info(&c.db.users, &bob()).is_err());
}

#[test]
fn put_chunk_lists_the_chunk_last() {
    let mut c = fresh(false);
    let id = make(&mut c, &alice(), vec![1; 10], 3, 1);
    let file = get_file_by_id(&c.db.files, &id).unwrap();
    let same = put_chunk(&mut c.db, &file, vec![2; 20], 1, 50).unwrap();
    assert_eq!(same.chunk_ids, vec![0]);
    let stored = get_file_by_id(&c.db.files, &id).unwrap();
    assert_eq!(stored.chunk_ids, vec![0, 1]);
    assert_eq!(stored.updated_at, 50);
    assert_eq!(stored.created_at, 1);
    let chunk = get_chunk_by_id(&c.db.chunks, 1).unwrap();
    assert_eq!(chunk.file_id, id);
    assert_eq!(chunk.order_id, 1);
    assert_eq!(chunk.chunk_data, vec![2; 20]);
    assert_eq!(chunk.created_at, 50);
}

#[test]
fn ledger_sums_the_bytes_and_lists_the_files() {
    let mut c = fresh(false);
    let a = make(&mut c, &alice(), vec![1; 10], 3, 1);
    let file = get_file_by_id(&c.db.files, &a).unwrap();
    put_chunk(&mut c.db, &file, vec![2; 20], 1, 2).unwrap();
    let file = get_file_by_id(&c.db.files, &a).unwrap();
    put_chunk(&mut c.db, &file, vec![3; 300], 2, 3).unwrap();
    let b = make(&mut c, &alice(), vec![4; 4000], 1, 4);
    make(&mut c, &bob(), vec![5; 5], 1, 5);
    let info = get_user_info(&c.db.users, &alice()).unwrap();
    assert_eq!(info.bytes_used, 10 + 20 + 300 + 4000);
    assert_eq!(info.files_owned, HashSet::from([a, b]));
    assert_eq!(info.byte_limit, 0);
    assert!(!info.blocked);
    let other = get_user_info(&c.db.users, &bob()).unwrap();
    assert_eq!(other.bytes_used, 5);
    assert_eq!(other.files_owned, HashSet::from([2u64]));
}

#[test]
fn ledger_entry_is_made_on_first_write() {
    let mut users = UserStore::new();
    assert_eq!(get_user_info(&users, &alice()).err(), Some(Error::NotFound));
    update_user_info_chunk(&mut users, &alice(), 7).unwrap();
    let info = get_user_info(&users, &alice()).unwrap();
    assert_eq!(info.bytes_used, 7);
    assert!(info.files_owned.is_empty());
}

#[test]
fn ledger_refuses_a_sum_that_does_not_fit() {
    let mut c = fresh(false);
    let a = make(&mut c, &alice(), vec![1; 10], 3, 1);
    let file = get_file_by_id(&c.db.files, &a).unwrap();
    assert_eq!(
        update_user_info_chunk(&mut c.db.users, &alice(), u64::MAX - 9).err(),
        Some(Error::CapacityExceeded)
    );
    assert_eq!(get_user_info(&c.db.users, &alice()).unwrap().bytes_used, 10);
    update_user_info_file(&mut c.db.users, &alice(), &file, u64::MAX - 10).unwrap();
    assert_eq!(get_user_info(&c.db.users, &alice()).unwrap().bytes_used, u64::MAX);
    assert_eq!(get_user_info(&c.db.users, &alice()).unwrap().files_owned, HashSet::from([a]));
    let r = put_chunk(&mut c.db, &file, vec![1], 1, 9);
    assert_eq!(r.err(), Some(Error::CapacityExceeded));
    assert_eq!(c.db.chunks.current_id(), 1);
    assert_eq!(get_file_by_id(&c.db.files, &a).unwrap().chunk_ids, vec![0]);
}

#[test]
fn delete_takes_the_file_and_its_chunks() {
    let mut c = fresh(false);
    let a = make(&mut c, &alice(), vec![1], 2, 1);
    let b = make(&mut c, &alice(), vec![2], 2, 1);
    let file = get_file_by_id(&c.db.files, &a).unwrap();
    put_chunk(&mut c.db, &file, vec![3], 1, 2).unwrap();
    assert_eq!(delete_file(&mut c.db, a), Ok(String::from("File deleted")));
    assert_eq!(get_file_by_id(&c.db.files, &a).err(), Some(Error::NotFound));
    assert!(get_chunk_by_id(&c.db.chunks, 0).is_err());
    assert!(get_chunk_by_id(&c.db.chunks, 2).is_err());
    assert!(get_file_by_id(&c.db.files, &b).is_ok());
    assert!(get_chunk_by_id(&c.db.chunks, 1).is_ok());
    assert_eq!(get_user_info(&c.db.users, &alice()).unwrap().bytes_used, 3);
}

#[test]
fn delete_of_a_missing_file_is_not_found() {
    let mut c = fresh(false);
    make(&mut c, &alice(), vec![1], 2, 1);
    assert_eq!(delete_file(&mut c.db, 5), Err(Error::NotFound));
    assert!(get_file_by_id(&c.db.files, &0).is_ok());
    assert!(get_chunk_by_id(&c.db.chunks, 0).is_ok());
}

#[test]
fn chunk_by_order_takes_the_last_that_matches() {
    let mut c = fresh(false);
    let a = make(&mut c, &alice(), vec![0], 4, 1);
    for (data, order) in [(vec![1u8], 1u64), (vec![2u8], 1), (vec![3u8], 5)] {
        let file = get_file_by_id(&c.db.files, &a).unwrap();
        put_chunk(&mut c.db, &file, data, order, 2).unwrap();
    }
    let file = get_file_by_id(&c.db.files, &a).unwrap();
    assert_eq!(get_chunk_by_order_id_for_file(&c.db.chunks, &file, 0).unwrap().chunk_data, vec![0]);
    assert_eq!(get_chunk_by_order_id_for_file(&c.db.chunks, &file, 1).unwrap().chunk_data, vec![2]);
    assert_eq!(get_chunk_by_order_id_for_file(&c.db.chunks, &file, 5).unwrap().chunk_data, vec![3]);
    assert!(get_chunk_by_order_id_for_file(&c.db.chunks, &file, 2).is_none());
}

#[test]
fn all_chunks_skips_those_that_are_gone() {
    let mut c = fresh(false);
    let a = make(&mut c, &alice(), vec![0], 4, 1);
    let file = get_file_by_id(&c.db.files, &a).unwrap();
    put_chunk(&mut c.db, &file, vec![1], 1, 2).unwrap();
    let file = get_file_by_id(&c.db.files, &a).unwrap();
    put_chunk(&mut c.db, &file, vec![2], 2, 2).unwrap();
    let removed = remove_chunk(&mut c.db.chunks, 1).unwrap();
    assert_eq!(removed.chunk_data, vec![1]);
    assert!(remove_chunk(&mut c.db.chunks, 1).is_none());
    let file = get_file_by_id(&c.db.files, &a).unwrap();
    let all = get_all_chunks_for_file(&c.db.chunks, &file).unwrap();
    assert_eq!(all.len(), 2);
    assert_eq!(all[0].chunk_data, vec![0]);
    assert_eq!(all[1].chunk_data, vec![2]);
}

#[test]
fn insert_file_overwrites_and_returns_what_was_there() {
    let mut c = fresh(false);
    let a = make(&mut c, &alice(), vec![0], 4, 1);
    let mut file = get_file_by_id(&c.db.files, &a).unwrap();
    file.metadata = String::from("changed");
    let before = insert_file(&mut c.db.files, a, &file).unwrap().unwrap();
    assert_eq!(before.metadata, "");
    assert_eq!(get_file(&c.db.files, &a).unwrap().metadata, "changed");
    assert!(insert_file(&mut c.db.files, 40, &file).unwrap().is_none());
    assert_eq!(get_file(&c.db.files, &40).unwrap().id, a);
    assert_eq!(remove_file(&mut c.db.files, &40).unwrap().metadata, "changed");
    assert!(remove_file(&mut c.db.files, &40).is_none());
    assert_eq!(get_current_file_id(&c.db.files), 1);
}

#[test]
fn deleting_all_files_of_one_leaves_the_others() {
    let mut c = fresh(false);
    let a = make(&mut c, &alice(), vec![1], 2, 1);
    let b = make(&mut c, &bob(), vec![2], 2, 1);
    let d = make(&mut c, &alice(), vec![3], 2, 1);
    let file = get_file_by_id(&c.db.files, &a).unwrap();
    put_chunk(&mut c.db, &file, vec![4], 1, 2).unwrap();
    let gone = delete_all_files_by_prinicipal(&mut c.db, &alice());
    assert_eq!(gone.len(), 2);
    assert_eq!(gone[0].id, a);
    assert_eq!(gone[0].chunk_ids, vec![0, 3]);
    assert_eq!(gone[1].id, d);
    assert!(get_file(&c.db.files, &a).is_none());
    assert!(get_file(&c.db.files, &d).is_none());
    assert!(get_file(&c.db.files, &b).is_some());
    for chunk in [0u64, 2, 3] {
        assert!(get_chunk_by_id(&c.db.chunks, chunk).is_err());
    }
    assert_eq!(get_chunk_by_id(&c.db.chunks, 1).unwrap().chunk_data, vec![2]);
    assert!(delete_all_files_by_prinicipal(&mut c.db, &alice()).is_empty());
}

#[test]
fn snapshot_carries_ledger_counters_and_blocklist() {
    let mut c = fresh(false);
    make(&mut c, &alice(), vec![1; 10], 2, 1);
    make(&mut c, &bob(), vec![2; 20], 2, 1);
    asset_canister::auth::moderation::block_user(&mut c.auth.blocked, &bob());
    let saved = pre_upgrade(c);
    assert_eq!(saved.current_file_id, 2);
    assert_eq!(saved.current_chunk_id, 2);
    let found = saved.into_post();
    let c = post_upgrade(
        found,
        Deployment { canister: canister_id(), local: false },
        Superusers { names: vec![] },
    );
    assert_eq!(get_current_file_id(&c.db.files), 2);
    assert_eq!(c.db.chunks.current_id(), 2);
    assert_eq!(get_user_info(&c.db.users, &alice()).unwrap().bytes_used, 10);
    assert_eq!(
        get_user_info(&c.db.users, &alice()).unwrap().files_owned,
        HashSet::from([0u64])
    );
    assert_eq!(get_user_info(&c.db.users, &bob()).unwrap().bytes_used, 20);
    assert_eq!(c.db.users.len(), 2);
    assert!(asset_canister::auth::moderation::is_blocked(&c.auth.blocked, &bob()));
    assert!(!asset_canister::auth::moderation::is_blocked(&c.auth.blocked, &alice()));
    assert_eq!(c.auth.blocked.len(), 1);
}

#[test]
fn new_stores_list_nothing() {
    assert_eq!(UserStore::new().len(), 0);
    assert_eq!(asset_canister::auth::moderation::BlockedStore::new().len(), 0);
    let warnings = asset_canister::auth::ratelimit::Warnings::new();
    assert!(asset_canister::auth::ratelimit::get_warnings(&warnings).is_empty());
}

#[test]
fn a_copy_of_a_ledger_entry_holds_the_same_files() {
    let mut c = fresh(false);
    for i in 0..5u64 {
        make(&mut c, &alice(), vec![1], 1, i);
    }
    let info = get_user_info(&c.db.users, &alice()).unwrap();
    let copy = info.clone();
    assert_eq!(copy.files_owned, HashSet::from([0u64, 1, 2, 3, 4]));
    assert_eq!(copy.bytes_used, 5);
    assert_eq!(asset_canister::database::users::copy_ids(&HashSet::new()), HashSet::new());
}
