use reservation_sync::event::{CalendarEvent, Date, TimeOfDay, UserId};
use reservation_sync::login::{PendingLogins, RsAlgorithm};
use reservation_sync::remote::plan_sync;
use reservation_sync::store::ReservationTable;
use reservation_sync::sync::{affected_users, sync_due, FetchError, ProviderRun};
use reservation_sync::user::{PublicUserKey, User};
use reservation_sync::vault::{UserKey, UserSession, VaultKey};

fn event(id: &str) -> CalendarEvent {
    CalendarEvent {
        id: id.to_string(),
        title: "t".to_string(),
        detail: String::new(),
        invalid: false,
        date_begin: Date::from_days(300),
        time_begin: TimeOfDay::from_hms(9, 0, 0),
        date_end: None,
        time_end: None,
        location: None,
        url: None,
    }
}

#[test]
fn one_provider_timing_out_does_not_block_another() {
    let user = UserId(5);
    let mut t = ReservationTable::new();
    // Provider A times out: nothing is written for it.
    let a = ProviderRun { provider: VaultKey::Cgv, user_id: user, result: Err(FetchError::Timeout) };
    // Provider B succeeds and its events are committed.
    let written = t.upsert_events_at(user, &vec![event("bustago/1"), event("bustago/2")], 1_000, false);
    let b = ProviderRun { provider: VaultKey::Bustago, user_id: user, result: Ok(written.changed) };
    let users = affected_users(&vec![a, b]);
    assert_eq!(users, vec![user]);
    let ops = plan_sync(&t.changed_since(user, 0), &vec![]);
    assert_eq!(ops.len(), 2);
}

#[test]
fn affected_users_are_deduplicated_in_first_seen_order() {
    let runs = vec![
        ProviderRun { provider: VaultKey::Cgv, user_id: UserId(2), result: Ok(1) },
        ProviderRun { provider: VaultKey::Cgv, user_id: UserId(1), result: Ok(0) },
        ProviderRun { provider: VaultKey::Bustago, user_id: UserId(3), result: Err(FetchError::SessionExpired) },
        ProviderRun { provider: VaultKey::Bustago, user_id: UserId(2), result: Ok(4) },
        ProviderRun { provider: VaultKey::CatchTable, user_id: UserId(1), result: Ok(2) },
    ];
    assert_eq!(affected_users(&runs), vec![UserId(2), UserId(1)]);
    assert!(affected_users(&vec![]).is_empty());
}

#[test]
fn on_demand_sync_waits_for_the_minimum_interval() {
    assert!(!sync_due(1_000, 1_500, 600));
    assert!(sync_due(1_000, 1_600, 600));
    assert!(sync_due(i64::MIN, i64::MAX, i64::MAX));
}

#[test]
fn a_login_completes_once_while_live() {
    let mut p = PendingLogins::new();
    p.begin("tok".to_string(), 100);
    p.begin("other".to_string(), 100);
    assert!(p.complete(&"tok".to_string(), 150, 60));
    assert!(!p.complete(&"tok".to_string(), 150, 60));
    assert!(!p.complete(&"other".to_string(), 200, 60));
}

#[test]
fn expired_logins_are_evicted() {
    let mut p = PendingLogins::new();
    p.begin("old".to_string(), 0);
    p.begin("new".to_string(), 90);
    p.evict_expired(100, 50);
    assert!(!p.complete(&"old".to_string(), 100, 1_000));
    assert!(p.complete(&"new".to_string(), 100, 1_000));
}

#[test]
fn algorithms_have_header_names() {
    assert_eq!(RsAlgorithm::Rs256.name(), "RS256");
    assert_eq!(RsAlgorithm::Rs384.name(), "RS384");
    assert_eq!(RsAlgorithm::Rs512.name(), "RS512");
}

#[test]
fn user_states_answer_the_page_questions() {
    let out = User::default();
    assert!(!out.is_signed_in() && !out.is_locked() && !out.is_unlocked() && out.has_key());
    let fresh = User::SignedIn(PublicUserKey::NotExist);
    assert!(fresh.is_signed_in() && !fresh.has_key() && !fresh.is_unlocked());
    let locked = User::SignedIn(PublicUserKey::Locked(2));
    assert!(locked.is_locked() && locked.has_key() && !locked.is_unlocked());
    let open = User::SignedIn(PublicUserKey::Unlocked);
    assert!(open.is_unlocked() && open.has_key() && !open.is_locked());
    assert_eq!(PublicUserKey::from_key(&UserKey::Locked(3)), PublicUserKey::Locked(3));
    assert_eq!(PublicUserKey::from_key(&UserKey::NotExist), PublicUserKey::NotExist);
}

#[test]
fn the_session_decides_what_pages_see() {
    assert_eq!(User::of_session(None), User::SignedOut);
    let s = UserSession { user_id: UserId(1), key: UserKey::Locked(2) };
    assert_eq!(User::of_session(Some(&s)), User::SignedIn(PublicUserKey::Locked(2)));
}

#[test]
fn beginning_again_with_a_token_replaces_its_entry() {
    let mut p = PendingLogins::new();
    p.begin("tok".to_string(), 0);
    p.begin("tok".to_string(), 500);
    assert!(p.complete(&"tok".to_string(), 520, 60));
    assert!(!p.complete(&"tok".to_string(), 520, 60));
}
