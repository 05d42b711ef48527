use reservation_sync::event::UserId;
use reservation_sync::vault::{unlock_or_create, UnlockOutcome, UserKey, UserSession, UserVault, VaultError, VaultKey};

fn session() -> UserSession {
    UserSession { user_id: UserId(3), key: UserKey::NotExist }
}

fn sealed(o: Result<UnlockOutcome, VaultError>) -> Vec<u8> {
    match o {
        Ok(UnlockOutcome::Unlocked { sealed }) => sealed,
        other => panic!("expected an unlock, got {other:?}"),
    }
}

/// Writes a marker under `s` and reads it back under `other`: this works
/// only when both sessions hold the same master key.
fn same_key(s: &UserSession, other: &UserSession) -> bool {
    let mut v = UserVault::new();
    v.set_item(s, VaultKey::Cgv, b"marker").unwrap();
    v.get_item(other, VaultKey::Cgv).ok() == Some(b"marker".to_vec())
}

#[test]
fn first_unlock_creates_a_key() {
    let mut s = session();
    let blob = sealed(unlock_or_create(&mut s, None, "correct horse"));
    assert!(!blob.is_empty());
    assert!(matches!(s.key, UserKey::Unlocked(_)));
    let mut v = UserVault::new();
    assert!(v.set_item(&s, VaultKey::Cgv, b"x").is_ok());
}

#[test]
fn the_right_password_unlocks_the_same_key_and_reseals_it() {
    let mut s = session();
    let blob = sealed(unlock_or_create(&mut s, None, "pw"));
    let mut later = session();
    later.key = UserKey::Locked(0);
    let blob2 = sealed(unlock_or_create(&mut later, Some(&blob), "pw"));
    assert!(same_key(&s, &later));
    assert_ne!(blob2, blob);
    let mut third = session();
    sealed(unlock_or_create(&mut third, Some(&blob2), "pw"));
    assert!(same_key(&s, &third));
    let mut stranger = session();
    sealed(unlock_or_create(&mut stranger, None, "pw"));
    assert!(!same_key(&s, &stranger));
}

#[test]
fn a_wrong_password_counts_failed_attempts() {
    let mut s = session();
    let blob = sealed(unlock_or_create(&mut s, None, "pw"));
    let mut other = session();
    other.key = UserKey::Locked(0);
    assert!(matches!(unlock_or_create(&mut other, Some(&blob), "nope"), Ok(UnlockOutcome::WrongPassword)));
    assert!(matches!(other.key, UserKey::Locked(1)));
    assert!(matches!(unlock_or_create(&mut other, Some(&blob), "nope"), Ok(UnlockOutcome::WrongPassword)));
    assert!(matches!(other.key, UserKey::Locked(2)));
}

#[test]
fn a_wrong_password_relocks_an_unlocked_session() {
    let mut s = session();
    let blob = sealed(unlock_or_create(&mut s, None, "pw"));
    assert!(matches!(unlock_or_create(&mut s, Some(&blob), "bad"), Ok(UnlockOutcome::WrongPassword)));
    assert!(matches!(s.key, UserKey::Locked(1)));
}

#[test]
fn a_corrupt_blob_is_an_internal_error() {
    let mut s = session();
    s.key = UserKey::Locked(4);
    assert_eq!(unlock_or_create(&mut s, Some(&[1, 2, 3]), "pw").err(), Some(VaultError::Internal));
    assert!(matches!(s.key, UserKey::Locked(4)));
}

#[test]
fn an_item_reads_back_exactly() {
    let mut s = session();
    sealed(unlock_or_create(&mut s, None, "pw"));
    let mut v = UserVault::new();
    let secret = b"{\"id\":\"me\",\"password\":\"p\"}".to_vec();
    v.set_item(&s, VaultKey::Cgv, &secret).unwrap();
    assert_eq!(v.get_item(&s, VaultKey::Cgv).unwrap(), secret);
    assert_eq!(v.get_item(&s, VaultKey::Bustago).err(), Some(VaultError::Missing));
    v.set_item(&s, VaultKey::Cgv, b"second").unwrap();
    assert_eq!(v.get_item(&s, VaultKey::Cgv).unwrap(), b"second".to_vec());
    v.set_item(&s, VaultKey::Bustago, b"").unwrap();
    assert_eq!(v.get_item(&s, VaultKey::Bustago).unwrap(), Vec::<u8>::new());
    assert_eq!(v.get_item(&s, VaultKey::Cgv).unwrap(), b"second".to_vec());
}

#[test]
fn the_first_write_adds_a_zero_watermark_source() {
    let mut s = session();
    sealed(unlock_or_create(&mut s, None, "pw"));
    let mut v = UserVault::new();
    v.set_item(&s, VaultKey::CatchTable, b"a").unwrap();
    v.set_item(&s, VaultKey::CatchTable, b"b").unwrap();
    assert_eq!(v.sources().len(), 1);
    assert_eq!(v.sources()[0].key, VaultKey::CatchTable);
    assert_eq!(v.sources()[0].last_synced, 0);
}

#[test]
fn a_locked_session_can_neither_write_nor_read() {
    let mut s = session();
    let blob = sealed(unlock_or_create(&mut s, None, "pw"));
    let mut v = UserVault::new();
    v.set_item(&s, VaultKey::Cgv, b"secret").unwrap();
    assert!(matches!(unlock_or_create(&mut s, Some(&blob), "wrong"), Ok(UnlockOutcome::WrongPassword)));
    assert_eq!(v.get_item(&s, VaultKey::Cgv).err(), Some(VaultError::Locked));
    assert_eq!(v.set_item(&s, VaultKey::Cgv, b"x").err(), Some(VaultError::Locked));
    assert_eq!(v.get_item(&session(), VaultKey::Cgv).err(), Some(VaultError::Locked));
}

#[test]
fn another_key_cannot_read_an_item() {
    let mut a = session();
    sealed(unlock_or_create(&mut a, None, "pw"));
    let mut b = session();
    sealed(unlock_or_create(&mut b, None, "pw"));
    let mut v = UserVault::new();
    v.set_item(&a, VaultKey::Cgv, b"secret").unwrap();
    assert_eq!(v.get_item(&b, VaultKey::Cgv).err(), Some(VaultError::Crypto));
}

#[test]
fn vault_keys_have_stable_names() {
    let names: Vec<&str> = VaultKey::all().iter().map(|k| k.db_name()).collect();
    assert_eq!(names, vec!["cgv", "bustago", "naver_reservation", "catch_table"]);
    for k in VaultKey::all() {
        assert_eq!(VaultKey::from_db_name(k.db_name()).unwrap(), k);
    }
    let err = VaultKey::from_db_name("kobus").unwrap_err();
    assert_eq!(err.0, "kobus");
    assert_eq!(VaultKey::Bustago.display_name(), "버스타고");
    assert_eq!(VaultKey::Cgv.display_name(), "CGV");
}

#[test]
fn marking_a_source_synced_moves_only_its_watermark() {
    let mut s = session();
    sealed(unlock_or_create(&mut s, None, "pw"));
    let mut v = UserVault::new();
    v.set_item(&s, VaultKey::Cgv, b"a").unwrap();
    v.set_item(&s, VaultKey::Bustago, b"b").unwrap();
    v.mark_synced(VaultKey::Bustago, 777);
    assert_eq!(v.sources()[0].last_synced, 0);
    assert_eq!(v.sources()[1].key, VaultKey::Bustago);
    assert_eq!(v.sources()[1].last_synced, 777);
}

#[test]
fn a_new_session_is_locked_only_when_a_key_exists() {
    assert!(matches!(UserKey::on_sign_in(true), UserKey::Locked(0)));
    assert!(matches!(UserKey::on_sign_in(false), UserKey::NotExist));
}
