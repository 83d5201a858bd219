use asset_canister::api::canister::CanisterInfo;
use asset_canister::auth::canister::canister_storage_ok;
use asset_canister::auth::file::{
    caller_accepted, caller_owns_file_or_is_superuser, chunk_size_okay, chunks_within_file_size,
    file_size_accepted,
};
use asset_canister::auth::moderation::{block_and_delete_user, is_blocked};
use asset_canister::auth::ratelimit::RateLimitMessageType;
use asset_canister::auth::user::Superusers;
use asset_canister::controllers::admin;
use asset_canister::controllers::file::{
    create_file, delete_file, get_chunk_by_id, get_current_file_id, get_file_by_id, put_chunk,
};
use asset_canister::database::chunks::remove_chunk;
use asset_canister::database::file::Deployment;
use asset_canister::database::users::get_user_info;
use asset_canister::error::Error;
use asset_canister::identity::Identity;
use asset_canister::{init, CallContext, Canister};

const DAY: u64 = 86_400_000_000_000;

fn alice() -> Identity {
    Identity::from_slice(&[10, 1]).unwrap()
}

fn bob() -> Identity {
    Identity::from_slice(&[10, 2]).unwrap()
}

fn admin_id() -> Identity {
    Identity::from_slice(&[10, 3]).unwrap()
}

fn fresh() -> Canister {
    init(
        Deployment {
            canister: Identity::from_slice(&[0, 0, 0, 0, 0, 0, 0, 7, 1, 1]).unwrap(),
            local: false,
        },
        Superusers { names: vec![admin_id().to_text()] },
    )
}

fn ctx(caller: Identity, now: u64) -> CallContext {
    CallContext { caller, now, stable_memory_size: 1_000_000 }
}

fn png() -> String {
    String::from("image/png")
}

fn name() -> String {
    String::from("a.png")
}

#[test]
fn capacity_leaves_room_for_one_file_of_the_largest_size() {
    assert_eq!(canister_storage_ok(0), Ok(0));
    assert_eq!(canister_storage_ok(15_990_599_999), Ok(15_990_599_999));
    assert_eq!(canister_storage_ok(15_990_600_000), Err(Error::CapacityExceeded));
    assert_eq!(canister_storage_ok(u64::MAX), Err(Error::CapacityExceeded));
}

#[test]
fn a_file_declares_one_to_six_chunks() {
    assert!(file_size_accepted(&alice(), 1).unwrap() == alice());
    assert!(file_size_accepted(&alice(), 6).unwrap() == alice());
    assert_eq!(file_size_accepted(&alice(), 0).err(), Some(Error::TooManyChunks));
    assert_eq!(file_size_accepted(&alice(), 7).err(), Some(Error::TooManyChunks));
    assert_eq!(file_size_accepted(&admin_id(), 7).err(), Some(Error::TooManyChunks));
    assert_eq!(file_size_accepted(&admin_id(), 0).err(), Some(Error::TooManyChunks));
}

#[test]
fn a_chunk_holds_at_most_1_9_megabytes() {
    assert!(chunk_size_okay(&alice(), 0).is_ok());
    assert!(chunk_size_okay(&alice(), 1_900_000).unwrap() == alice());
    assert_eq!(chunk_size_okay(&alice(), 1_900_001).err(), Some(Error::OversizedChunk));
}

#[test]
fn create_stores_the_file_for_the_caller() {
    let mut c = fresh();
    let fe = create_file(&mut c, &ctx(alice(), 5), vec![1, 2, 3], name(), 3, png()).unwrap();
    assert_eq!(fe.id, 0);
    assert_eq!(fe.chunk_ids, vec![0]);
    assert_eq!(fe.number_of_chunks, 3);
    assert_eq!(fe.file_name, "a.png");
    assert_eq!(fe.file_type, "image/png");
    assert!(fe.owner == alice());
    assert_eq!(fe.created_at, 5);
    assert_eq!(get_current_file_id(&c), Ok(1));
    assert_eq!(get_file_by_id(&c, 0).unwrap().url, fe.url);
    assert_eq!(get_chunk_by_id(&c, 0).unwrap().chunk_data, vec![1, 2, 3]);
    assert_eq!(get_user_info(&c.db.users, &alice()).unwrap().bytes_used, 3);
}

#[test]
fn anonymous_callers_create_nothing() {
    let mut c = fresh();
    let r = create_file(&mut c, &ctx(Identity::anonymous(), 5), vec![1], name(), 1, png());
    assert_eq!(r.err(), Some(Error::Unauthorized));
    assert_eq!(get_current_file_id(&c), Ok(0));
    assert_eq!(get_file_by_id(&c, 0).err(), Some(Error::NotFound));
    assert_eq!(get_chunk_by_id(&c, 0).err(), Some(Error::NotFound));
}

#[test]
fn blocked_callers_create_nothing() {
    let mut c = fresh();
    admin::moderation::block_user(&mut c, &ctx(admin_id(), 1), &alice()).unwrap();
    let r = create_file(&mut c, &ctx(alice(), 5), vec![1], name(), 1, png());
    assert_eq!(r.err(), Some(Error::Blocked));
    admin::moderation::unblock_user(&mut c, &ctx(admin_id(), 6), &alice()).unwrap();
    assert!(create_file(&mut c, &ctx(alice(), 7), vec![1], name(), 1, png()).is_ok());
}

#[test]
fn a_full_process_creates_nothing() {
    let mut c = fresh();
    let full = CallContext { caller: alice(), now: 1, stable_memory_size: 15_990_600_000 };
    let r = create_file(&mut c, &full, vec![1], name(), 1, png());
    assert_eq!(r.err(), Some(Error::CapacityExceeded));
    assert_eq!(get_current_file_id(&c), Ok(0));
}

#[test]
fn too_many_chunks_declared_create_nothing() {
    let mut c = fresh();
    let r = create_file(&mut c, &ctx(alice(), 5), vec![1], name(), 7, png());
    assert_eq!(r.err(), Some(Error::TooManyChunks));
    assert!(create_file(&mut c, &ctx(alice(), 5), vec![1], name(), 6, png()).is_ok());
}

#[test]
fn an_oversized_first_chunk_creates_nothing() {
    let mut c = fresh();
    let r = create_file(&mut c, &ctx(alice(), 5), vec![0; 1_900_001], name(), 1, png());
    assert_eq!(r.err(), Some(Error::OversizedChunk));
    let fe = create_file(&mut c, &ctx(alice(), 5), vec![0; 1_900_000], name(), 1, png());
    assert!(fe.is_ok());
    assert_eq!(get_chunk_by_id(&c, 0).unwrap().chunk_data.len(), 1_900_000);
}

#[test]
fn an_unsupported_type_creates_nothing() {
    let mut c = fresh();
    let r = create_file(&mut c, &ctx(alice(), 5), vec![1], name(), 1, String::from("image/bmp"));
    assert_eq!(r.err(), Some(Error::UnsupportedType));
    assert_eq!(get_current_file_id(&c), Ok(0));
}

#[test]
fn the_fourth_file_of_a_day_is_not_created() {
    let mut c = fresh();
    for i in 0..3u64 {
        assert!(create_file(&mut c, &ctx(alice(), i), vec![1], name(), 1, png()).is_ok());
    }
    let r = create_file(&mut c, &ctx(alice(), 3), vec![1], name(), 1, png());
    assert_eq!(r.err(), Some(Error::DailyLimitReached));
    assert_eq!(get_current_file_id(&c), Ok(3));
    assert!(create_file(&mut c, &ctx(bob(), 3), vec![1], name(), 1, png()).is_ok());
    assert!(create_file(&mut c, &ctx(alice(), DAY + 2), vec![1], name(), 1, png()).is_ok());
}

#[test]
fn deleting_a_file_frees_a_creation() {
    let mut c = fresh();
    for i in 0..3u64 {
        create_file(&mut c, &ctx(alice(), i), vec![1], name(), 1, png()).unwrap();
    }
    assert_eq!(delete_file(&mut c, &ctx(alice(), 4), 2), Ok(String::from("File deleted")));
    assert!(create_file(&mut c, &ctx(alice(), 5), vec![1], name(), 1, png()).is_ok());
    let r = create_file(&mut c, &ctx(alice(), 6), vec![1], name(), 1, png());
    assert_eq!(r.err(), Some(Error::DailyLimitReached));
}

#[test]
fn superusers_are_not_limited_nor_blocked() {
    let mut c = fresh();
    admin::moderation::block_user(&mut c, &ctx(admin_id(), 1), &admin_id()).unwrap();
    for i in 0..5u64 {
        assert!(create_file(&mut c, &ctx(admin_id(), i), vec![1], name(), 1, png()).is_ok());
    }
    assert_eq!(get_current_file_id(&c), Ok(5));
}

#[test]
fn put_chunk_answers_with_the_file_as_it_was() {
    let mut c = fresh();
    create_file(&mut c, &ctx(alice(), 5), vec![1], name(), 2, png()).unwrap();
    let fe = put_chunk(&mut c, &ctx(alice(), 9), 0, vec![2, 2], 1).unwrap();
    assert_eq!(fe.chunk_ids, vec![0]);
    assert_eq!(fe.updated_at, 5);
    let now = get_file_by_id(&c, 0).unwrap();
    assert_eq!(now.chunk_ids, vec![0, 1]);
    assert_eq!(now.updated_at, 9);
    assert_eq!(get_chunk_by_id(&c, 1).unwrap().chunk_data, vec![2, 2]);
    assert_eq!(get_chunk_by_id(&c, 1).unwrap().order_id, 1);
    assert_eq!(get_user_info(&c.db.users, &alice()).unwrap().bytes_used, 3);
}

#[test]
fn only_the_owner_or_a_superuser_adds_chunks() {
    let mut c = fresh();
    create_file(&mut c, &ctx(alice(), 5), vec![1], name(), 3, png()).unwrap();
    let r = put_chunk(&mut c, &ctx(bob(), 6), 0, vec![2], 1);
    assert_eq!(r.err(), Some(Error::Unauthorized));
    let r = put_chunk(&mut c, &ctx(Identity::anonymous(), 6), 0, vec![2], 1);
    assert_eq!(r.err(), Some(Error::Unauthorized));
    let r = put_chunk(&mut c, &ctx(alice(), 6), 9, vec![2], 1);
    assert_eq!(r.err(), Some(Error::NotFound));
    assert_eq!(get_file_by_id(&c, 0).unwrap().chunk_ids, vec![0]);
    assert!(put_chunk(&mut c, &ctx(admin_id(), 7), 0, vec![2], 1).is_ok());
    assert_eq!(get_file_by_id(&c, 0).unwrap().chunk_ids, vec![0, 1]);
    assert_eq!(get_user_info(&c.db.users, &alice()).unwrap().bytes_used, 2);
}

#[test]
fn a_full_file_takes_no_further_chunk() {
    let mut c = fresh();
    create_file(&mut c, &ctx(alice(), 5), vec![1], name(), 2, png()).unwrap();
    assert!(put_chunk(&mut c, &ctx(alice(), 6), 0, vec![2], 1).is_ok());
    let r = put_chunk(&mut c, &ctx(alice(), 7), 0, vec![3], 2);
    assert_eq!(r.err(), Some(Error::TooManyChunks));
    assert_eq!(get_file_by_id(&c, 0).unwrap().chunk_ids, vec![0, 1]);
    assert_eq!(get_chunk_by_id(&c, 2).err(), Some(Error::NotFound));
    assert_eq!(get_user_info(&c.db.users, &alice()).unwrap().bytes_used, 2);
    let r = put_chunk(&mut c, &ctx(admin_id(), 8), 0, vec![3], 2);
    assert_eq!(r.err(), Some(Error::TooManyChunks));
}

#[test]
fn a_file_of_one_declared_chunk_is_full_when_created() {
    let mut c = fresh();
    create_file(&mut c, &ctx(alice(), 5), vec![1], name(), 1, png()).unwrap();
    let r = put_chunk(&mut c, &ctx(alice(), 6), 0, vec![2], 1);
    assert_eq!(r.err(), Some(Error::TooManyChunks));
    assert_eq!(get_file_by_id(&c, 0).unwrap().chunk_ids, vec![0]);
}

#[test]
fn a_file_that_declares_no_chunk_is_not_created() {
    let mut c = fresh();
    let r = create_file(&mut c, &ctx(alice(), 5), vec![1], name(), 0, png());
    assert_eq!(r.err(), Some(Error::TooManyChunks));
    assert_eq!(get_current_file_id(&c), Ok(0));
    assert_eq!(get_chunk_by_id(&c, 0).err(), Some(Error::NotFound));
    let r = admin::file::prune_file(&mut c, &ctx(admin_id(), 1), vec![1], name(), 0, png(), bob());
    assert_eq!(r.err(), Some(Error::TooManyChunks));
    assert_eq!(get_current_file_id(&c), Ok(0));
}

#[test]
fn chunks_are_counted_as_stored() {
    let mut c = fresh();
    create_file(&mut c, &ctx(alice(), 5), vec![1], name(), 2, png()).unwrap();
    let file = asset_canister::database::file::get_file(&c.db.files, &0).unwrap();
    assert_eq!(
        chunks_within_file_size(&c.db.chunks, &file),
        Ok(String::from("Chunks are within filesize"))
    );
    put_chunk(&mut c, &ctx(alice(), 6), 0, vec![2], 1).unwrap();
    let file = asset_canister::database::file::get_file(&c.db.files, &0).unwrap();
    assert_eq!(chunks_within_file_size(&c.db.chunks, &file).err(), Some(Error::TooManyChunks));
    remove_chunk(&mut c.db.chunks, 0);
    assert_eq!(
        chunks_within_file_size(&c.db.chunks, &file),
        Ok(String::from("Chunks are within filesize"))
    );
}

#[test]
fn an_oversized_chunk_is_not_added() {
    let mut c = fresh();
    create_file(&mut c, &ctx(alice(), 5), vec![1], name(), 2, png()).unwrap();
    let r = put_chunk(&mut c, &ctx(alice(), 6), 0, vec![0; 1_900_001], 1);
    assert_eq!(r.err(), Some(Error::OversizedChunk));
    assert_eq!(get_file_by_id(&c, 0).unwrap().chunk_ids, vec![0]);
}

#[test]
fn the_fifty_first_call_adds_no_chunk() {
    let mut c = fresh();
    create_file(&mut c, &ctx(alice(), 0), vec![1], name(), 6, png()).unwrap();
    for i in 1..50u64 {
        let r = put_chunk(&mut c, &ctx(alice(), i), 0, vec![0; 1_900_001], 1);
        assert_eq!(r.err(), Some(Error::OversizedChunk));
    }
    let r = put_chunk(&mut c, &ctx(alice(), 50), 0, vec![2], 1);
    assert_eq!(r.err(), Some(Error::RateLimited));
    assert_eq!(get_file_by_id(&c, 0).unwrap().chunk_ids, vec![0]);
}

#[test]
fn only_the_owner_or_a_superuser_deletes() {
    let mut c = fresh();
    create_file(&mut c, &ctx(alice(), 5), vec![1], name(), 2, png()).unwrap();
    create_file(&mut c, &ctx(alice(), 5), vec![1], name(), 2, png()).unwrap();
    assert_eq!(delete_file(&mut c, &ctx(bob(), 6), 0), Err(Error::Unauthorized));
    assert_eq!(delete_file(&mut c, &ctx(Identity::anonymous(), 6), 0), Err(Error::Unauthorized));
    assert_eq!(delete_file(&mut c, &ctx(alice(), 6), 7), Err(Error::NotFound));
    assert!(get_file_by_id(&c, 0).is_ok());
    assert!(delete_file(&mut c, &ctx(alice(), 6), 0).is_ok());
    assert!(delete_file(&mut c, &ctx(admin_id(), 6), 1).is_ok());
    assert_eq!(get_file_by_id(&c, 0).err(), Some(Error::NotFound));
    assert_eq!(get_file_by_id(&c, 1).err(), Some(Error::NotFound));
    assert_eq!(get_chunk_by_id(&c, 0).err(), Some(Error::NotFound));
}

#[test]
fn a_caller_who_may_not_delete_is_not_logged() {
    let mut c = fresh();
    create_file(&mut c, &ctx(alice(), 0), vec![1], name(), 2, png()).unwrap();
    for i in 0..60u64 {
        assert_eq!(delete_file(&mut c, &ctx(bob(), i), 0), Err(Error::Unauthorized));
    }
    assert!(create_file(&mut c, &ctx(bob(), 61), vec![1], name(), 2, png()).is_ok());
}

#[test]
fn caller_accepted_checks_in_order() {
    let mut c = fresh();
    let r = caller_accepted(
        &mut c.auth,
        &Identity::anonymous(),
        RateLimitMessageType::GetFile,
        1,
        u64::MAX,
    );
    assert_eq!(r.err(), Some(Error::Unauthorized));
    let r = caller_accepted(&mut c.auth, &alice(), RateLimitMessageType::GetFile, 1, u64::MAX);
    assert_eq!(r.err(), Some(Error::CapacityExceeded));
    asset_canister::auth::moderation::block_user(&mut c.auth.blocked, &alice());
    let r = caller_accepted(&mut c.auth, &alice(), RateLimitMessageType::GetFile, 1, u64::MAX);
    assert_eq!(r.err(), Some(Error::Blocked));
    for _ in 0..48u64 {
        let r = caller_accepted(&mut c.auth, &alice(), RateLimitMessageType::GetFile, 1, 0);
        assert_eq!(r.err(), Some(Error::Blocked));
    }
    let r = caller_accepted(&mut c.auth, &alice(), RateLimitMessageType::GetFile, 1, 0);
    assert_eq!(r.err(), Some(Error::RateLimited));
    let r = caller_accepted(&mut c.auth, &bob(), RateLimitMessageType::GetFile, 1, 0);
    assert!(r.unwrap() == bob());
}

#[test]
fn ownership_is_checked_against_the_stored_file() {
    let mut c = fresh();
    create_file(&mut c, &ctx(alice(), 0), vec![1], name(), 2, png()).unwrap();
    assert_eq!(
        caller_owns_file_or_is_superuser(&c.auth, &c.db.files, &alice(), 0).unwrap().id,
        0
    );
    assert!(caller_owns_file_or_is_superuser(&c.auth, &c.db.files, &admin_id(), 0).is_ok());
    assert_eq!(
        caller_owns_file_or_is_superuser(&c.auth, &c.db.files, &bob(), 0).err(),
        Some(Error::Unauthorized)
    );
    assert_eq!(
        caller_owns_file_or_is_superuser(&c.auth, &c.db.files, &admin_id(), 1).err(),
        Some(Error::NotFound)
    );
    assert_eq!(
        caller_owns_file_or_is_superuser(&c.auth, &c.db.files, &Identity::anonymous(), 1).err(),
        Some(Error::Unauthorized)
    );
}

#[test]
fn only_superusers_moderate() {
    let mut c = fresh();
    assert_eq!(
        admin::moderation::block_user(&mut c, &ctx(alice(), 1), &bob()).err(),
        Some(Error::Unauthorized)
    );
    assert_eq!(
        admin::moderation::block_and_delete_user(&mut c, &ctx(alice(), 1), &bob()).err(),
        Some(Error::Unauthorized)
    );
    assert_eq!(
        admin::moderation::unblock_user(&mut c, &ctx(alice(), 1), &bob()).err(),
        Some(Error::Unauthorized)
    );
    assert_eq!(
        admin::moderation::get_blocked_users(&c, &ctx(alice(), 1)).err(),
        Some(Error::Unauthorized)
    );
    assert_eq!(
        admin::moderation::get_warnings(&c, &ctx(alice(), 1)).err(),
        Some(Error::Unauthorized)
    );
    assert_eq!(
        admin::moderation::forget_old_calls(&mut c, &ctx(alice(), 1)).err(),
        Some(Error::Unauthorized)
    );
    assert_eq!(
        admin::moderation::forget_old_calls(&mut c, &ctx(admin_id(), 1)),
        Ok(String::from("Old calls forgotten"))
    );
    assert!(!is_blocked(&c.auth.blocked, &bob()));
    assert_eq!(
        admin::moderation::block_user(&mut c, &ctx(admin_id(), 1), &bob()),
        Ok(String::from("User blocked"))
    );
    let listed = admin::moderation::get_blocked_users(&c, &ctx(admin_id(), 1)).unwrap();
    assert_eq!(listed.len(), 1);
    assert!(listed[0] == bob());
    assert_eq!(
        admin::moderation::unblock_user(&mut c, &ctx(admin_id(), 1), &bob()),
        Ok(String::from("User unblocked"))
    );
    assert!(admin::moderation::get_blocked_users(&c, &ctx(admin_id(), 1)).unwrap().is_empty());
    assert!(admin::moderation::get_warnings(&c, &ctx(admin_id(), 1)).unwrap().is_empty());
}

#[test]
fn block_and_delete_leaves_no_file_of_the_blocked() {
    let mut c = fresh();
    create_file(&mut c, &ctx(alice(), 0), vec![1], name(), 2, png()).unwrap();
    create_file(&mut c, &ctx(bob(), 0), vec![2], name(), 2, png()).unwrap();
    put_chunk(&mut c, &ctx(alice(), 1), 0, vec![3], 1).unwrap();
    create_file(&mut c, &ctx(alice(), 2), vec![4], name(), 2, png()).unwrap();
    assert_eq!(
        admin::moderation::block_and_delete_user(&mut c, &ctx(admin_id(), 3), &alice()),
        Ok(String::from("User blocked and deleted"))
    );
    assert!(is_blocked(&c.auth.blocked, &alice()));
    assert!(get_file_by_id(&c, 0).is_err());
    assert!(get_file_by_id(&c, 2).is_err());
    assert!(get_file_by_id(&c, 1).unwrap().owner == bob());
    assert!(get_chunk_by_id(&c, 0).is_err());
    assert!(get_chunk_by_id(&c, 2).is_err());
    assert!(get_chunk_by_id(&c, 3).is_err());
    assert_eq!(get_chunk_by_id(&c, 1).unwrap().chunk_data, vec![2]);
    block_and_delete_user(&mut c.auth.blocked, &mut c.db, &bob());
    assert!(get_file_by_id(&c, 1).is_err());
}

#[test]
fn prune_creates_for_another_at_the_word_of_a_superuser() {
    let mut c = fresh();
    let r = admin::file::prune_file(&mut c, &ctx(alice(), 1), vec![1], name(), 1, png(), bob());
    assert_eq!(r.err(), Some(Error::Unauthorized));
    let fe = admin::file::prune_file(&mut c, &ctx(admin_id(), 1), vec![1], name(), 1, png(), bob())
        .unwrap();
    assert!(fe.owner == bob());
    assert_eq!(
        get_user_info(&c.db.users, &bob()).unwrap().files_owned,
        std::collections::HashSet::from([0u64])
    );
    let r = admin::file::prune_file(&mut c, &ctx(admin_id(), 1), vec![1], name(), 7, png(), bob());
    assert_eq!(r.err(), Some(Error::TooManyChunks));
    let r = admin::file::prune_file(
        &mut c,
        &ctx(admin_id(), 1),
        vec![0; 1_900_001],
        name(),
        1,
        png(),
        bob(),
    );
    assert_eq!(r.err(), Some(Error::OversizedChunk));
    let full = CallContext { caller: admin_id(), now: 1, stable_memory_size: u64::MAX };
    let r = admin::file::prune_file(&mut c, &full, vec![1], name(), 1, png(), bob());
    assert_eq!(r.err(), Some(Error::CapacityExceeded));
}

#[test]
fn only_superusers_see_the_measurements() {
    let c = fresh();
    let info = CanisterInfo { heap_memory_size: 1, memory_size: 2, cycles: 3 };
    assert_eq!(admin::canister::collect_metrics(&c, &ctx(admin_id(), 1), info), Ok(info));
    assert_eq!(
        admin::canister::collect_metrics(&c, &ctx(alice(), 1), info),
        Err(Error::Unauthorized)
    );
    assert_eq!(admin::canister::canister_storage_ok(&c, &ctx(admin_id(), 1)), Ok(1_000_000));
    assert_eq!(
        admin::canister::canister_storage_ok(&c, &ctx(alice(), 1)),
        Err(Error::Unauthorized)
    );
    let full = CallContext { caller: admin_id(), now: 1, stable_memory_size: u64::MAX };
    assert_eq!(admin::canister::canister_storage_ok(&c, &full), Err(Error::CapacityExceeded));
}
