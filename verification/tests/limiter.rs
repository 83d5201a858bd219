use asset_canister::auth::moderation::{
    block_user, get_blocked_users, is_blocked, unblock_user, BlockedStore,
};
use asset_canister::auth::ratelimit::{
    forget_old_calls, get_warnings, less_than_a_day, less_than_a_minute, rate_limit,
    sort_latest_first, RateLimitMessageType,
};
use asset_canister::auth::user::{get_logged_in_principal, get_logged_in_superuser, Superusers};
use asset_canister::auth::Auth;
use asset_canister::error::Error;
use asset_canister::identity::Identity;

const FIVE_MINUTES: u64 = 300_000_000_000;
const DAY: u64 = 86_400_000_000_000;

fn alice() -> Identity {
    Identity::from_slice(&[10, 1]).unwrap()
}

fn bob() -> Identity {
    Identity::from_slice(&[10, 2]).unwrap()
}

fn admin() -> Identity {
    Identity::from_slice(&[10, 3]).unwrap()
}

fn auth() -> Auth {
    Auth::new(Superusers { names: vec![admin().to_text()] })
}

#[test]
fn moments_are_sorted_latest_first() {
    assert_eq!(sort_latest_first(&vec![3, 1, 4, 1, 5, 9, 2, 6]), vec![9, 6, 5, 4, 3, 2, 1, 1]);
    assert_eq!(sort_latest_first(&vec![]), Vec::<u64>::new());
}

#[test]
fn window_is_open_at_its_far_end() {
    assert!(less_than_a_minute(1, FIVE_MINUTES));
    assert!(!less_than_a_minute(0, FIVE_MINUTES));
    assert!(less_than_a_minute(10, 10));
    assert!(less_than_a_minute(11, 10));
    assert!(less_than_a_day(1, DAY));
    assert!(!less_than_a_day(0, DAY));
}

#[test]
fn fifty_calls_pass_and_the_next_does_not() {
    let mut a = auth();
    let kinds = [
        RateLimitMessageType::GetFile,
        RateLimitMessageType::UpdateFile,
        RateLimitMessageType::DeleteFile,
    ];
    for i in 0..50u64 {
        let r = rate_limit(&mut a, &alice(), kinds[(i % 3) as usize], 1000 + i);
        assert_eq!(r, Ok(String::from("Rate limit okay")));
    }
    assert_eq!(
        rate_limit(&mut a, &alice(), RateLimitMessageType::GetFile, 1050),
        Err(Error::RateLimited)
    );
}

#[test]
fn calls_pass_again_once_the_window_has_moved_on() {
    let mut a = auth();
    for i in 0..50u64 {
        rate_limit(&mut a, &alice(), RateLimitMessageType::GetFile, 1000 + i).unwrap();
    }
    assert_eq!(
        rate_limit(&mut a, &alice(), RateLimitMessageType::GetFile, 1000 + FIVE_MINUTES - 1),
        Err(Error::RateLimited)
    );
    let mut a = auth();
    for i in 0..50u64 {
        rate_limit(&mut a, &alice(), RateLimitMessageType::GetFile, 1000 + i).unwrap();
    }
    assert_eq!(
        rate_limit(&mut a, &alice(), RateLimitMessageType::GetFile, 1000 + FIVE_MINUTES),
        Ok(String::from("Rate limit okay"))
    );
}

#[test]
fn a_call_that_was_turned_away_is_in_the_log() {
    let mut a = auth();
    for i in 0..50u64 {
        rate_limit(&mut a, &alice(), RateLimitMessageType::GetFile, 1000 + i).unwrap();
    }
    assert_eq!(
        rate_limit(&mut a, &alice(), RateLimitMessageType::GetFile, 1050),
        Err(Error::RateLimited)
    );
    assert_eq!(
        rate_limit(&mut a, &alice(), RateLimitMessageType::GetFile, 1000 + FIVE_MINUTES),
        Err(Error::RateLimited)
    );
    assert_eq!(
        rate_limit(&mut a, &alice(), RateLimitMessageType::GetFile, 1002 + FIVE_MINUTES),
        Ok(String::from("Rate limit okay"))
    );
}

#[test]
fn the_fiftieth_latest_call_decides() {
    let mut a = auth();
    rate_limit(&mut a, &alice(), RateLimitMessageType::GetFile, 0).unwrap();
    for i in 0..49u64 {
        rate_limit(&mut a, &alice(), RateLimitMessageType::GetFile, FIVE_MINUTES + i).unwrap();
    }
    assert_eq!(
        rate_limit(&mut a, &alice(), RateLimitMessageType::GetFile, FIVE_MINUTES + 50),
        Ok(String::from("Rate limit okay"))
    );
    assert_eq!(
        rate_limit(&mut a, &alice(), RateLimitMessageType::GetFile, FIVE_MINUTES + 51),
        Err(Error::RateLimited)
    );
}

#[test]
fn each_identity_has_its_own_log() {
    let mut a = auth();
    for i in 0..50u64 {
        rate_limit(&mut a, &alice(), RateLimitMessageType::GetFile, i).unwrap();
    }
    assert!(rate_limit(&mut a, &alice(), RateLimitMessageType::GetFile, 60).is_err());
    assert!(rate_limit(&mut a, &bob(), RateLimitMessageType::GetFile, 60).is_ok());
}

#[test]
fn three_creations_a_day_pass_and_the_fourth_does_not() {
    let mut a = auth();
    for i in 0..3u64 {
        assert_eq!(
            rate_limit(&mut a, &alice(), RateLimitMessageType::CreateFile, 100 + i),
            Ok(String::from("Rate limit okay"))
        );
    }
    assert_eq!(
        rate_limit(&mut a, &alice(), RateLimitMessageType::CreateFile, 100 + DAY - 1),
        Err(Error::DailyLimitReached)
    );
    assert!(rate_limit(&mut a, &alice(), RateLimitMessageType::UpdateFile, 200).is_ok());
}

#[test]
fn creations_pass_again_after_a_day() {
    let mut a = auth();
    for i in 0..3u64 {
        rate_limit(&mut a, &alice(), RateLimitMessageType::CreateFile, 100 + i).unwrap();
    }
    assert_eq!(
        rate_limit(&mut a, &alice(), RateLimitMessageType::CreateFile, 100 + DAY),
        Ok(String::from("Rate limit okay"))
    );
}

#[test]
fn a_creation_that_was_turned_away_is_in_the_log() {
    let mut a = auth();
    for i in 0..3u64 {
        rate_limit(&mut a, &alice(), RateLimitMessageType::CreateFile, i).unwrap();
    }
    assert!(rate_limit(&mut a, &alice(), RateLimitMessageType::CreateFile, 3).is_err());
    assert_eq!(
        rate_limit(&mut a, &alice(), RateLimitMessageType::CreateFile, DAY),
        Err(Error::DailyLimitReached)
    );
    assert_eq!(
        rate_limit(&mut a, &alice(), RateLimitMessageType::CreateFile, DAY + 2),
        Ok(String::from("Rate limit okay"))
    );
}

#[test]
fn a_deletion_makes_up_for_the_latest_creation() {
    let mut a = auth();
    rate_limit(&mut a, &alice(), RateLimitMessageType::CreateFile, 0).unwrap();
    rate_limit(&mut a, &alice(), RateLimitMessageType::DeleteFile, 1).unwrap();
    for i in 2..5u64 {
        assert!(rate_limit(&mut a, &alice(), RateLimitMessageType::CreateFile, i).is_ok());
    }
    assert_eq!(
        rate_limit(&mut a, &alice(), RateLimitMessageType::CreateFile, 5),
        Err(Error::DailyLimitReached)
    );
}

#[test]
fn without_the_deletion_the_creation_counts() {
    let mut a = auth();
    rate_limit(&mut a, &alice(), RateLimitMessageType::CreateFile, 0).unwrap();
    for i in 2..4u64 {
        assert!(rate_limit(&mut a, &alice(), RateLimitMessageType::CreateFile, i).is_ok());
    }
    assert_eq!(
        rate_limit(&mut a, &alice(), RateLimitMessageType::CreateFile, 4),
        Err(Error::DailyLimitReached)
    );
}

#[test]
fn a_deletion_takes_the_latest_creation_not_the_first() {
    let mut a = auth();
    rate_limit(&mut a, &alice(), RateLimitMessageType::CreateFile, 0).unwrap();
    rate_limit(&mut a, &alice(), RateLimitMessageType::CreateFile, DAY - 10).unwrap();
    rate_limit(&mut a, &alice(), RateLimitMessageType::DeleteFile, DAY - 9).unwrap();
    rate_limit(&mut a, &alice(), RateLimitMessageType::CreateFile, DAY - 8).unwrap();
    rate_limit(&mut a, &alice(), RateLimitMessageType::CreateFile, DAY - 7).unwrap();
    assert_eq!(
        rate_limit(&mut a, &alice(), RateLimitMessageType::CreateFile, DAY - 6),
        Err(Error::DailyLimitReached)
    );
}

#[test]
fn a_deletion_with_nothing_to_make_up_for_is_logged() {
    let mut a = auth();
    for i in 0..50u64 {
        assert!(rate_limit(&mut a, &alice(), RateLimitMessageType::DeleteFile, i).is_ok());
    }
    assert_eq!(
        rate_limit(&mut a, &alice(), RateLimitMessageType::DeleteFile, 50),
        Err(Error::RateLimited)
    );
}

#[test]
fn superusers_pass_and_leave_no_trace() {
    let mut a = auth();
    for i in 0..300u64 {
        assert_eq!(
            rate_limit(&mut a, &admin(), RateLimitMessageType::CreateFile, i),
            Ok(String::from("Superuser"))
        );
    }
    assert!(get_warnings(&a.warnings).is_empty());
    a.admins = Superusers { names: vec![] };
    assert_eq!(
        rate_limit(&mut a, &admin(), RateLimitMessageType::CreateFile, 300),
        Ok(String::from("Rate limit okay"))
    );
}

#[test]
fn calls_turned_away_are_counted() {
    let mut a = auth();
    for i in 0..50u64 {
        rate_limit(&mut a, &alice(), RateLimitMessageType::GetFile, i).unwrap();
    }
    assert!(get_warnings(&a.warnings).is_empty());
    for i in 0..3u64 {
        assert!(rate_limit(&mut a, &alice(), RateLimitMessageType::GetFile, 50 + i).is_err());
    }
    let warnings = get_warnings(&a.warnings);
    assert_eq!(warnings.len(), 1);
    assert_eq!(warnings[0].number, 3);
    assert!(warnings[0].principal == alice());
}

#[test]
fn two_hundred_and_one_calls_turned_away_block() {
    let mut a = auth();
    for _ in 0..50u64 {
        rate_limit(&mut a, &alice(), RateLimitMessageType::GetFile, 0).unwrap();
    }
    for _ in 0..200u64 {
        assert_eq!(
            rate_limit(&mut a, &alice(), RateLimitMessageType::GetFile, 1),
            Err(Error::RateLimited)
        );
    }
    assert!(!is_blocked(&a.blocked, &alice()));
    assert_eq!(
        rate_limit(&mut a, &alice(), RateLimitMessageType::GetFile, 1),
        Err(Error::RateLimited)
    );
    assert!(is_blocked(&a.blocked, &alice()));
    assert!(!is_blocked(&a.blocked, &bob()));
    let listed = get_blocked_users(&a.blocked);
    assert_eq!(listed.len(), 1);
    assert!(listed[0] == alice());
    assert_eq!(get_warnings(&a.warnings)[0].number, 201);
}

#[test]
fn blocking_twice_is_blocking_once() {
    let mut b = BlockedStore::new();
    assert!(!is_blocked(&b, &alice()));
    block_user(&mut b, &alice());
    block_user(&mut b, &alice());
    block_user(&mut b, &bob());
    assert!(is_blocked(&b, &alice()));
    assert_eq!(b.len(), 2);
    assert_eq!(b.entry_at(0).metadata, "");
    unblock_user(&mut b, &alice());
    assert!(!is_blocked(&b, &alice()));
    assert!(is_blocked(&b, &bob()));
    unblock_user(&mut b, &alice());
    assert_eq!(get_blocked_users(&b).len(), 1);
}

#[test]
fn anonymous_callers_are_not_logged_in() {
    assert_eq!(get_logged_in_principal(&Identity::anonymous()).err(), Some(Error::Unauthorized));
    assert!(get_logged_in_principal(&alice()).unwrap() == alice());
}

#[test]
fn superusers_are_those_on_the_list() {
    let admins = Superusers { names: vec![bob().to_text(), admin().to_text()] };
    assert!(get_logged_in_superuser(&admins, &admin()).unwrap() == admin());
    assert!(get_logged_in_superuser(&admins, &bob()).is_ok());
    assert_eq!(get_logged_in_superuser(&admins, &alice()).err(), Some(Error::Unauthorized));
    let with_anonymous = Superusers { names: vec![Identity::anonymous().to_text()] };
    assert_eq!(
        get_logged_in_superuser(&with_anonymous, &Identity::anonymous()).err(),
        Some(Error::Unauthorized)
    );
}

#[test]
fn forgetting_old_calls_changes_no_verdict() {
    let run = |forget: bool| {
        let mut a = auth();
        let mut answers = Vec::new();
        for i in 0..49u64 {
            answers.push(rate_limit(&mut a, &alice(), RateLimitMessageType::GetFile, i));
        }
        answers.push(rate_limit(&mut a, &alice(), RateLimitMessageType::CreateFile, DAY - 5));
        answers.push(rate_limit(&mut a, &alice(), RateLimitMessageType::CreateFile, DAY - 4));
        if forget {
            forget_old_calls(&mut a.calls, DAY + 10);
        }
        answers.push(rate_limit(&mut a, &alice(), RateLimitMessageType::CreateFile, DAY + 10));
        answers.push(rate_limit(&mut a, &alice(), RateLimitMessageType::CreateFile, DAY + 11));
        answers.push(rate_limit(&mut a, &alice(), RateLimitMessageType::DeleteFile, DAY + 12));
        answers.push(rate_limit(&mut a, &alice(), RateLimitMessageType::CreateFile, DAY + 13));
        answers.push(rate_limit(&mut a, &alice(), RateLimitMessageType::CreateFile, DAY + 14));
        for i in 0..50u64 {
            answers.push(rate_limit(&mut a, &alice(), RateLimitMessageType::GetFile, DAY + 20 + i));
        }
        answers
    };
    let kept = run(false);
    let forgotten = run(true);
    assert_eq!(kept, forgotten);
    assert_eq!(kept[51], Ok(String::from("Rate limit okay")));
    assert_eq!(kept[52], Err(Error::DailyLimitReached));
    assert_eq!(kept[53], Ok(String::from("Rate limit okay")));
    assert!(kept.iter().any(|r| *r == Err(Error::RateLimited)));
}

#[test]
fn forgetting_keeps_the_calls_of_the_last_day() {
    let mut a = auth();
    for i in 0..3u64 {
        rate_limit(&mut a, &alice(), RateLimitMessageType::CreateFile, 10 + i).unwrap();
    }
    forget_old_calls(&mut a.calls, DAY + 9);
    assert_eq!(
        rate_limit(&mut a, &alice(), RateLimitMessageType::CreateFile, DAY + 9),
        Err(Error::DailyLimitReached)
    );
    let mut a = auth();
    for i in 0..3u64 {
        rate_limit(&mut a, &alice(), RateLimitMessageType::CreateFile, 10 + i).unwrap();
    }
    forget_old_calls(&mut a.calls, DAY + 10);
    assert!(rate_limit(&mut a, &alice(), RateLimitMessageType::CreateFile, DAY + 10).is_ok());
}
