//! The per-user credential vault: a random master key sealed under the
//! user's password, held unsealed only in session memory, and the provider
//! secrets encrypted under it.
use vstd::prelude::*;

use aead::OsRng;
use chacha20poly1305::aead::{Aead, AeadCore, KeyInit};
use chacha20poly1305::{ChaCha20Poly1305, Key, Nonce};
use pwbox::pure::PureCrypto;
use pwbox::{ErasedPwBox, Eraser, Suite};

use crate::event::{Timestamp, UserId};

verus! {

/// Length of a master key in bytes.
pub const KEY_LEN: usize = 32;

/// Length of an item nonce in bytes.
pub const NONCE_LEN: usize = 12;

/// The master key that a sealed blob opens to under a password, if it opens.
pub uninterp spec fn unsealed_key(blob: Seq<u8>, password: Seq<char>) -> Option<Seq<u8>>;

/// The plaintext that a ciphertext decrypts to under a key and nonce, if it
/// authenticates.
pub uninterp spec fn decrypted_item(key: Seq<u8>, nonce: Seq<u8>, ciphertext: Seq<u8>) -> Option<Seq<u8>>;

/// The blob is a readable sealed box of the suite: it restores from CBOR,
/// and opening it can fail only on its authentication tag.
pub uninterp spec fn box_readable(blob: Seq<u8>) -> bool;

/// Plaintexts shorter than this (bytes) always encrypt.
pub const MAX_PLAINTEXT: u64 = 274877906880;

/// The bytes that a secret key holds.
pub uninterp spec fn secret_bytes(k: SecretKey) -> Seq<u8>;

/// An unsealed master key, kept in memory that is locked against swapping
/// and wiped on drop.
#[verifier::external_body]
pub struct SecretKey {
    inner: secure_string::SecureBytes,
}

impl SecretKey {
    /// Relies on secure_string's `SecureBytes::new`: takes the bytes as they are.
    #[verifier::external_body]
    pub(crate) fn new(bytes: Vec<u8>) -> (r: SecretKey)
        ensures
            secret_bytes(r) == bytes@,
    {
        SecretKey { inner: secure_string::SecureBytes::new(bytes) }
    }

    /// Relies on secure_string's `SecureBytes::unsecure`: the bytes held.
    #[verifier::external_body]
    pub(crate) fn expose(&self) -> (r: &[u8])
        ensures
            r@ == secret_bytes(*self),
    {
        self.inner.unsecure()
    }
}

/// Why a sealed blob did not open.
#[derive(Clone, Copy, Debug, PartialEq, Eq, Structural)]
pub enum KeyBoxError {
    /// The authentication tag did not match: a wrong password (or a box
    /// altered in place).
    WrongPassword,
    /// The blob is not a readable box.
    Corrupt,
}

/// Relies on pwbox's `PwBoxBuilder::seal` (scrypt with its default
/// parameters and ChaCha20-Poly1305, a fresh random salt and nonce), with the
/// box erased and written as CBOR by ciborium: a readable box that opens with
/// the same password to the key. pwbox panics on an empty message.
#[verifier::external_body]
fn seal_key(password: &str, key: &[u8]) -> (r: Option<Vec<u8>>)
    requires
        key@.len() > 0,
    ensures
        r is Some,
        r is Some ==> box_readable(r->0@),
        r is Some ==> unsealed_key(r->0@, password@) == Some(key@),
{
    let sealed = PureCrypto::build_box(&mut OsRng).seal(password, key).ok()?;
    let mut eraser = Eraser::new();
    eraser.add_suite::<PureCrypto>();
    let erased = eraser.erase(&sealed).ok()?;
    let mut out = Vec::new();
    ciborium::into_writer(&erased, &mut out).ok()?;
    Some(out)
}

/// Relies on pwbox's `RestoredPwBox::open`, on a box read from CBOR by
/// ciborium and restored by pwbox's `Eraser`: a deterministic result, with
/// `MacMismatch` when a readable box does not open under the password, and
/// another error when the blob is not a readable box.
#[verifier::external_body]
fn open_key(blob: &[u8], password: &str) -> (r: Result<Vec<u8>, KeyBoxError>)
    ensures
        r is Ok <==> unsealed_key(blob@, password@) is Some,
        r is Ok ==> unsealed_key(blob@, password@) == Some(r->Ok_0@),
        (r matches Err(KeyBoxError::WrongPassword)) <==> (box_readable(blob@) && unsealed_key(blob@, password@) is None),
        !box_readable(blob@) ==> r matches Err(KeyBoxError::Corrupt),
{
    let erased: ErasedPwBox = ciborium::from_reader(blob).map_err(|_| KeyBoxError::Corrupt)?;
    let mut eraser = Eraser::new();
    eraser.add_suite::<PureCrypto>();
    let restored = eraser.restore(&erased).map_err(|_| KeyBoxError::Corrupt)?;
    match restored.open(password) {
        Ok(key) => Ok(key.to_vec()),
        Err(pwbox::Error::MacMismatch) => Err(KeyBoxError::WrongPassword),
        Err(_) => Err(KeyBoxError::Corrupt),
    }
}

/// Relies on `KeyInit::generate_key` of ChaCha20Poly1305 with the OS random
/// source: a fresh 32-byte key.
#[verifier::external_body]
fn generate_key() -> (r: Vec<u8>)
    ensures
        r@.len() == KEY_LEN,
{
    ChaCha20Poly1305::generate_key(&mut OsRng).to_vec()
}

/// Relies on `AeadCore::generate_nonce` of ChaCha20Poly1305 with the OS
/// random source: a fresh 12-byte nonce.
#[verifier::external_body]
fn generate_nonce() -> (r: Vec<u8>)
    ensures
        r@.len() == NONCE_LEN,
{
    ChaCha20Poly1305::generate_nonce(&mut OsRng).to_vec()
}

/// Relies on `Aead::encrypt` of ChaCha20Poly1305: what it returns decrypts,
/// under the same key and nonce, to the plaintext; it fails only when the
/// plaintext reaches `u32::MAX` blocks of 64 bytes.
#[verifier::external_body]
fn encrypt(key: &[u8], nonce: &[u8], plaintext: &[u8]) -> (r: Option<Vec<u8>>)
    requires
        key@.len() == KEY_LEN,
        nonce@.len() == NONCE_LEN,
    ensures
        plaintext@.len() < MAX_PLAINTEXT ==> r is Some,
        r is Some ==> decrypted_item(key@, nonce@, r->0@) == Some(plaintext@),
{
    ChaCha20Poly1305::new(Key::from_slice(key)).encrypt(Nonce::from_slice(nonce), plaintext).ok()
}

/// Relies on `Aead::decrypt` of ChaCha20Poly1305: the plaintext when the tag
/// authenticates, an error otherwise.
#[verifier::external_body]
fn decrypt(key: &[u8], nonce: &[u8], ciphertext: &[u8]) -> (r: Option<Vec<u8>>)
    requires
        key@.len() == KEY_LEN,
        nonce@.len() == NONCE_LEN,
    ensures
        r is Some <==> decrypted_item(key@, nonce@, ciphertext@) is Some,
        r is Some ==> decrypted_item(key@, nonce@, ciphertext@) == Some(r->0@),
{
    ChaCha20Poly1305::new(Key::from_slice(key)).decrypt(Nonce::from_slice(nonce), ciphertext).ok()
}

/// The key state of a signed-in session.
pub enum UserKey {
    /// The user has no sealed key yet.
    NotExist,
    /// A sealed key exists and this many unlock attempts failed.
    Locked(usize),
    /// The master key, unsealed for this session only.
    Unlocked(SecretKey),
}

/// A signed-in user's volatile session state.
pub struct UserSession {
    pub user_id: UserId,
    pub key: UserKey,
}

impl UserKey {
    /// The key state of a session that has just signed in: locked with no
    /// failed attempt when the user has a sealed key, else without one.
    pub fn on_sign_in(has_sealed_key: bool) -> (r: UserKey)
        ensures
            has_sealed_key ==> r == UserKey::Locked(0),
            !has_sealed_key ==> r == UserKey::NotExist,
    {
        if has_sealed_key {
            UserKey::Locked(0)
        } else {
            UserKey::NotExist
        }
    }
}

/// The unsealed key that a session holds, if any.
pub open spec fn session_key(k: UserKey) -> Option<Seq<u8>> {
    match k {
        UserKey::Unlocked(s) => Some(secret_bytes(s)),
        _ => None,
    }
}

/// The failed-attempt count after one more wrong password.
pub open spec fn next_failures(k: UserKey) -> usize {
    match k {
        UserKey::Locked(n) => if n < usize::MAX {
            (n + 1) as usize
        } else {
            n
        },
        _ => 1,
    }
}

pub open spec fn opt_bytes(o: Option<&[u8]>) -> Option<Seq<u8>> {
    match o {
        Some(b) => Some(b@),
        None => None,
    }
}

/// A successful unlock of `stored` (or creation, when there is none) under
/// `password` gave the master key `key` and the new blob `sealed`: the old
/// blob opened to that key, and so does the new one.
pub open spec fn resealed(stored: Option<Seq<u8>>, sealed: Seq<u8>, password: Seq<char>, key: Seq<u8>) -> bool {
    &&& key.len() == KEY_LEN
    &&& box_readable(sealed)
    &&& unsealed_key(sealed, password) == Some(key)
    &&& (stored matches Some(b) ==> unsealed_key(b, password) == Some(key))
}

/// What an unlock attempt that reached a decision gives back.
#[derive(Debug)]
pub enum UnlockOutcome {
    /// The session holds the key; `sealed` is the freshly re-sealed blob to
    /// store in place of the old one.
    Unlocked { sealed: Vec<u8> },
    /// The password does not open the stored blob.
    WrongPassword,
}

/// Failures of vault operations.
#[derive(Clone, Copy, Debug, PartialEq, Eq, Structural)]
pub enum VaultError {
    /// The session holds no unsealed key.
    Locked,
    /// Nothing is stored under the requested provider.
    Missing,
    /// Encryption failed, or a stored item did not authenticate.
    Crypto,
    /// The sealed key could not be read, made or re-sealed.
    Internal,
}

/// Unlocks the session with `password`, or, when the user has no sealed key
/// (`stored` is `None`), creates a random master key sealed under it. Every
/// success re-seals the same key under fresh salt and nonce.
pub fn unlock_or_create(session: &mut UserSession, stored: Option<&[u8]>, password: &str) -> (r: Result<UnlockOutcome, VaultError>)
    ensures
        final(session).user_id == old(session).user_id,
        r is Err ==> r == Err::<UnlockOutcome, VaultError>(VaultError::Internal) && final(session).key == old(session).key,
        r matches Ok(UnlockOutcome::Unlocked { sealed }) ==> {
            &&& session_key(final(session).key) matches Some(k)
            &&& resealed(opt_bytes(stored), sealed@, password@, k)
        },
        r matches Ok(UnlockOutcome::WrongPassword) ==> {
            &&& stored matches Some(b) && unsealed_key(b@, password@) is None
            &&& final(session).key == UserKey::Locked(next_failures(old(session).key))
        },
        stored is None ==> r matches Ok(UnlockOutcome::Unlocked { .. }),
        (stored matches Some(b) && unsealed_key(b@, password@) matches Some(k) && k.len() == KEY_LEN)
            ==> r matches Ok(UnlockOutcome::Unlocked { .. }),
        (stored matches Some(b) && unsealed_key(b@, password@) matches Some(k) && k.len() != KEY_LEN)
            ==> r == Err::<UnlockOutcome, VaultError>(VaultError::Internal),
        (stored matches Some(b) && box_readable(b@) && unsealed_key(b@, password@) is None)
            ==> r matches Ok(UnlockOutcome::WrongPassword),
        (stored matches Some(b) && !box_readable(b@))
            ==> r == Err::<UnlockOutcome, VaultError>(VaultError::Internal),
{
    let key: Vec<u8> = match stored {
        None => generate_key(),
        Some(blob) => match open_key(blob, password) {
            Ok(k) => k,
            Err(KeyBoxError::WrongPassword) => {
                let failures = match session.key {
                    UserKey::Locked(n) => if n < usize::MAX {
                        n + 1
                    } else {
                        n
                    },
                    _ => 1,
                };
                session.key = UserKey::Locked(failures);
                return Ok(UnlockOutcome::WrongPassword);
            },
            Err(KeyBoxError::Corrupt) => {
                return Err(VaultError::Internal);
            },
        },
    };
    if key.len() != KEY_LEN {
        return Err(VaultError::Internal);
    }
    let sealed = match seal_key(password, key.as_slice()) {
        Some(s) => s,
        None => {
            return Err(VaultError::Internal);
        },
    };
    session.key = UserKey::Unlocked(SecretKey::new(key));
    Ok(UnlockOutcome::Unlocked { sealed })
}

/// The providers whose secrets the vault can hold.
#[derive(Clone, Copy, Debug, PartialEq, Eq, Structural, PartialOrd, Ord, Hash)]
pub enum VaultKey {
    Cgv,
    Bustago,
    NaverReservation,
    CatchTable,
}

/// The name under which a provider's rows are stored.
pub open spec fn db_name(k: VaultKey) -> Seq<char> {
    match k {
        VaultKey::Cgv => "cgv"@,
        VaultKey::Bustago => "bustago"@,
        VaultKey::NaverReservation => "naver_reservation"@,
        VaultKey::CatchTable => "catch_table"@,
    }
}

/// The name under which a provider is shown.
pub open spec fn display_name(k: VaultKey) -> Seq<char> {
    match k {
        VaultKey::Cgv => "CGV"@,
        VaultKey::Bustago => "버스타고"@,
        VaultKey::NaverReservation => "네이버 예약"@,
        VaultKey::CatchTable => "캐치테이블"@,
    }
}

/// A stored provider name that names no provider.
#[derive(Debug)]
pub struct VaultKeyDecodeError(pub String);

impl VaultKey {
    /// Every provider, in declaration order.
    pub fn all() -> (r: Vec<VaultKey>)
        ensures
            r@ == seq![VaultKey::Cgv, VaultKey::Bustago, VaultKey::NaverReservation, VaultKey::CatchTable],
    {
        let r = vec![VaultKey::Cgv, VaultKey::Bustago, VaultKey::NaverReservation, VaultKey::CatchTable];
        assert(r@ =~= seq![VaultKey::Cgv, VaultKey::Bustago, VaultKey::NaverReservation, VaultKey::CatchTable]);
        r
    }

    pub fn db_name(&self) -> (r: &'static str)
        ensures
            r@ == db_name(*self),
    {
        match self {
            VaultKey::Cgv => "cgv",
            VaultKey::Bustago => "bustago",
            VaultKey::NaverReservation => "naver_reservation",
            VaultKey::CatchTable => "catch_table",
        }
    }

    /// The name shown to users.
    pub fn display_name(&self) -> (r: &'static str)
        ensures
            r@ == display_name(*self),
    {
        match self {
            VaultKey::Cgv => "CGV",
            VaultKey::Bustago => "버스타고",
            VaultKey::NaverReservation => "네이버 예약",
            VaultKey::CatchTable => "캐치테이블",
        }
    }

    /// The provider stored under `name`.
    pub fn from_db_name(name: &str) -> (r: Result<VaultKey, VaultKeyDecodeError>)
        ensures
            r is Ok ==> db_name(r->Ok_0) == name@,
            r is Err ==> (forall|k: VaultKey| db_name(k) != name@) && r->Err_0.0@ == name@,
    {
        proof {
            reveal_strlit("cgv");
            reveal_strlit("bustago");
            reveal_strlit("naver_reservation");
            reveal_strlit("catch_table");
        }
        let s = name.to_owned();
        if s == "cgv".to_owned() {
            Ok(VaultKey::Cgv)
        } else if s == "bustago".to_owned() {
            Ok(VaultKey::Bustago)
        } else if s == "naver_reservation".to_owned() {
            Ok(VaultKey::NaverReservation)
        } else if s == "catch_table".to_owned() {
            Ok(VaultKey::CatchTable)
        } else {
            Err(VaultKeyDecodeError(s))
        }
    }
}

/// A request to store a provider's serialised configuration.
#[derive(Debug)]
pub struct SetQuery {
    pub key: String,
    pub data: Vec<u8>,
}

/// A provider's secret, encrypted under the master key.
#[derive(Debug)]
pub struct VaultItem {
    pub key: VaultKey,
    pub nonce: Vec<u8>,
    pub ciphertext: Vec<u8>,
}

pub struct ItemView {
    pub key: VaultKey,
    pub nonce: Seq<u8>,
    pub ciphertext: Seq<u8>,
}

impl View for VaultItem {
    type V = ItemView;

    open spec fn view(&self) -> ItemView {
        ItemView { key: self.key, nonce: self.nonce@, ciphertext: self.ciphertext@ }
    }
}

/// A provider that the user configured, and when it was last synced.
#[derive(Clone, Copy, Debug, PartialEq, Eq, Structural)]
pub struct SyncSource {
    pub key: VaultKey,
    pub last_synced: Timestamp,
}

pub open spec fn items_unique(items: Seq<ItemView>) -> bool {
    forall|i: int, j: int| 0 <= i < items.len() && 0 <= j < items.len() && i != j ==> items[i].key != items[j].key
}

/// The item stored for provider `k`, if any.
pub open spec fn item_of(items: Seq<ItemView>, k: VaultKey) -> Option<ItemView> {
    if exists|i: int| 0 <= i < items.len() && items[i].key == k {
        Some(items[choose|i: int| 0 <= i < items.len() && items[i].key == k])
    } else {
        None
    }
}

/// No two sync-tracking rows name the same provider.
pub open spec fn sources_unique(sources: Seq<SyncSource>) -> bool {
    forall|i: int, j: int| 0 <= i < sources.len() && 0 <= j < sources.len() && i != j ==> sources[i].key != sources[j].key
}

pub open spec fn has_source(sources: Seq<SyncSource>, k: VaultKey) -> bool {
    exists|i: int| 0 <= i < sources.len() && sources[i].key == k
}

/// What reading provider `k` gives with the session key `key`: `Locked`
/// without a key, `Missing` without an item, the plaintext when the item
/// authenticates and `Crypto` otherwise.
pub open spec fn fetched(items: Seq<ItemView>, key: Option<Seq<u8>>, k: VaultKey) -> Result<Seq<u8>, VaultError> {
    match key {
        None => Err(VaultError::Locked),
        Some(key) => match item_of(items, k) {
            None => Err(VaultError::Missing),
            Some(it) => if key.len() != KEY_LEN || it.nonce.len() != NONCE_LEN {
                Err(VaultError::Crypto)
            } else {
                match decrypted_item(key, it.nonce, it.ciphertext) {
                    Some(p) => Ok(p),
                    None => Err(VaultError::Crypto),
                }
            },
        },
    }
}

/// After a write of `v` for provider `k` under `key`: the item for `k` now
/// decrypts to `v`, and every other provider's item is as it was.
pub open spec fn stored_by_set(old_items: Seq<ItemView>, new_items: Seq<ItemView>, key: Seq<u8>, k: VaultKey, v: Seq<u8>) -> bool {
    &&& item_of(new_items, k) matches Some(it)
    &&& it.nonce.len() == NONCE_LEN
    &&& decrypted_item(key, it.nonce, it.ciphertext) == Some(v)
    &&& forall|k2: VaultKey| k2 != k ==> item_of(new_items, k2) == item_of(old_items, k2)
}

pub open spec fn bytes_result(r: Result<Vec<u8>, VaultError>) -> Result<Seq<u8>, VaultError> {
    match r {
        Ok(v) => Ok(v@),
        Err(e) => Err(e),
    }
}

pub proof fn lemma_item_of(items: Seq<ItemView>, k: VaultKey, i: int)
    requires
        items_unique(items),
        0 <= i < items.len(),
        items[i].key == k,
    ensures
        item_of(items, k) == Some(items[i]),
{
}

proof fn lemma_item_update(items: Seq<ItemView>, i: int, v: ItemView)
    requires
        items_unique(items),
        0 <= i < items.len(),
        items[i].key == v.key,
    ensures
        items_unique(items.update(i, v)),
        item_of(items.update(i, v), v.key) == Some(v),
        forall|k2: VaultKey| k2 != v.key ==> item_of(items.update(i, v), k2) == item_of(items, k2),
{
    let n = items.update(i, v);
    assert(forall|a: int| 0 <= a < n.len() ==> n[a].key == items[a].key);
    lemma_item_of(n, v.key, i);
    assert forall|k2: VaultKey| k2 != v.key implies item_of(n, k2) == item_of(items, k2) by {
        if exists|j: int| 0 <= j < items.len() && items[j].key == k2 {
            let j = choose|j: int| 0 <= j < items.len() && items[j].key == k2;
            lemma_item_of(items, k2, j);
            lemma_item_of(n, k2, j);
        }
    }
}

proof fn lemma_item_push(items: Seq<ItemView>, v: ItemView)
    requires
        items_unique(items),
        item_of(items, v.key) is None,
    ensures
        items_unique(items.push(v)),
        item_of(items.push(v), v.key) == Some(v),
        forall|k2: VaultKey| k2 != v.key ==> item_of(items.push(v), k2) == item_of(items, k2),
{
    let n = items.push(v);
    lemma_item_of(n, v.key, items.len() as int);
    assert forall|k2: VaultKey| k2 != v.key implies item_of(n, k2) == item_of(items, k2) by {
        if exists|j: int| 0 <= j < items.len() && items[j].key == k2 {
            let j = choose|j: int| 0 <= j < items.len() && items[j].key == k2;
            lemma_item_of(items, k2, j);
            lemma_item_of(n, k2, j);
        } else {
            assert(forall|j: int| 0 <= j < n.len() ==> n[j].key != k2);
        }
    }
}

/// A user's durable vault rows: the encrypted items and the sync-tracking
/// rows of the configured providers.
#[derive(Debug)]
pub struct UserVault {
    items: Vec<VaultItem>,
    sources: Vec<SyncSource>,
}

impl UserVault {
    pub closed spec fn items_view(&self) -> Seq<ItemView> {
        self.items@.map_values(|it: VaultItem| it@)
    }

    pub closed spec fn sources_view(&self) -> Seq<SyncSource> {
        self.sources@
    }

    pub open spec fn wf(&self) -> bool {
        &&& items_unique(self.items_view())
        &&& sources_unique(self.sources_view())
    }

    pub fn new() -> (r: UserVault)
        ensures
            r.wf(),
            r.items_view() == Seq::<ItemView>::empty(),
            r.sources_view() == Seq::<SyncSource>::empty(),
    {
        let r = UserVault { items: Vec::new(), sources: Vec::new() };
        assert(r.items_view() =~= Seq::<ItemView>::empty());
        r
    }

    /// Adds a stored item when its provider has none yet; returns whether it
    /// was added.
    pub fn load_item(&mut self, item: VaultItem) -> (r: bool)
        requires
            old(self).wf(),
        ensures
            final(self).wf(),
            r == (item_of(old(self).items_view(), item.key) is None),
            r ==> final(self).items_view() == old(self).items_view().push(item@),
            !r ==> final(self).items_view() == old(self).items_view(),
            final(self).sources_view() == old(self).sources_view(),
    {
        if self.find_item(item.key).is_some() {
            return false;
        }
        let ghost before = self.items_view();
        let ghost v = item@;
        self.items.push(item);
        assert(self.items_view() =~= before.push(v));
        proof {
            lemma_item_push(before, v);
        }
        true
    }

    /// Adds a stored sync-tracking row when its provider has none yet;
    /// returns whether it was added.
    pub fn load_source(&mut self, source: SyncSource) -> (r: bool)
        requires
            old(self).wf(),
        ensures
            final(self).wf(),
            r == !has_source(old(self).sources_view(), source.key),
            r ==> final(self).sources_view() == old(self).sources_view().push(source),
            !r ==> final(self).sources_view() == old(self).sources_view(),
            final(self).items_view() == old(self).items_view(),
    {
        if self.has_source(source.key) {
            return false;
        }
        self.sources.push(source);
        true
    }

    /// Records that provider `k` was synced at `now`.
    pub fn mark_synced(&mut self, k: VaultKey, now: Timestamp)
        requires
            old(self).wf(),
        ensures
            final(self).wf(),
            final(self).items_view() == old(self).items_view(),
            final(self).sources_view() == Seq::new(
                old(self).sources_view().len(),
                |i: int|
                    if old(self).sources_view()[i].key == k {
                        SyncSource { key: k, last_synced: now }
                    } else {
                        old(self).sources_view()[i]
                    },
            ),
    {
        let ghost start = self.sources@;
        let ghost items0 = self.items@;
        let mut i: usize = 0;
        while i < self.sources.len()
            invariant
                self.items@ == items0,
                i <= self.sources@.len() == start.len(),
                forall|j: int| 0 <= j < i ==> self.sources@[j] == (if start[j].key == k {
                    SyncSource { key: k, last_synced: now }
                } else {
                    start[j]
                }),
                forall|j: int| i <= j < start.len() ==> self.sources@[j] == start[j],
            decreases start.len() - i,
        {
            if self.sources[i].key == k {
                self.sources.set(i, SyncSource { key: k, last_synced: now });
            }
            i += 1;
        }
        assert(self.sources_view() =~= Seq::new(
            start.len(),
            |i: int|
                if start[i].key == k {
                    SyncSource { key: k, last_synced: now }
                } else {
                    start[i]
                },
        ));
    }

    /// The stored items.
    pub fn items(&self) -> (r: &Vec<VaultItem>)
        ensures
            r@.map_values(|it: VaultItem| it@) == self.items_view(),
    {
        &self.items
    }

    /// The providers configured so far, with their watermarks.
    pub fn sources(&self) -> (r: &Vec<SyncSource>)
        ensures
            r@ == self.sources_view(),
    {
        &self.sources
    }

    fn find_item(&self, k: VaultKey) -> (r: Option<usize>)
        requires
            self.wf(),
        ensures
            r is None ==> item_of(self.items_view(), k) is None,
            r matches Some(i) ==> i < self.items_view().len() && self.items_view()[i as int].key == k,
    {
        let mut i: usize = 0;
        while i < self.items.len()
            invariant
                i <= self.items@.len(),
                forall|j: int| 0 <= j < i ==> self.items_view()[j].key != k,
            decreases self.items@.len() - i,
        {
            if self.items[i].key == k {
                return Some(i);
            }
            i += 1;
        }
        None
    }

    fn has_source(&self, k: VaultKey) -> (r: bool)
        ensures
            r == has_source(self.sources_view(), k),
    {
        let mut i: usize = 0;
        while i < self.sources.len()
            invariant
                i <= self.sources@.len(),
                forall|j: int| 0 <= j < i ==> self.sources@[j].key != k,
            decreases self.sources@.len() - i,
        {
            if self.sources[i].key == k {
                return true;
            }
            i += 1;
        }
        false
    }

    /// Encrypts `plaintext` under the session's master key with a fresh
    /// nonce and stores it for provider `k`, replacing what was there. The
    /// first write for a provider also adds its sync-tracking row, with a
    /// zero watermark.
    pub fn set_item(&mut self, session: &UserSession, k: VaultKey, plaintext: &[u8]) -> (r: Result<(), VaultError>)
        requires
            old(self).wf(),
        ensures
            final(self).wf(),
            session_key(session.key) is None ==> r == Err::<(), VaultError>(VaultError::Locked),
            session_key(session.key) is Some ==> r is Ok || r == Err::<(), VaultError>(VaultError::Crypto),
            (session_key(session.key) matches Some(key) && key.len() == KEY_LEN && plaintext@.len() < MAX_PLAINTEXT)
                ==> r is Ok,
            r is Err ==> final(self).items_view() == old(self).items_view() && final(self).sources_view() == old(self).sources_view(),
            r is Ok ==> {
                &&& session_key(session.key) matches Some(key)
                &&& stored_by_set(old(self).items_view(), final(self).items_view(), key, k, plaintext@)
                &&& final(self).sources_view() == if has_source(old(self).sources_view(), k) {
                    old(self).sources_view()
                } else {
                    old(self).sources_view().push(SyncSource { key: k, last_synced: 0 })
                }
            },
    {
        let key = match &session.key {
            UserKey::Unlocked(s) => s.expose(),
            _ => {
                return Err(VaultError::Locked);
            },
        };
        if key.len() != KEY_LEN {
            return Err(VaultError::Crypto);
        }
        let nonce = generate_nonce();
        let ciphertext = match encrypt(key, nonce.as_slice(), plaintext) {
            Some(c) => c,
            None => {
                return Err(VaultError::Crypto);
            },
        };
        let item = VaultItem { key: k, nonce, ciphertext };
        let ghost before = self.items_view();
        let ghost v = item@;
        match self.find_item(k) {
            Some(i) => {
                self.items.set(i, item);
                assert(self.items_view() =~= before.update(i as int, v));
                proof {
                    lemma_item_update(before, i as int, v);
                }
            },
            None => {
                self.items.push(item);
                assert(self.items_view() =~= before.push(v));
                proof {
                    lemma_item_push(before, v);
                }
            },
        }
        if !self.has_source(k) {
            self.sources.push(SyncSource { key: k, last_synced: 0 });
        }
        Ok(())
    }

    /// Decrypts the item stored for provider `k` with the session's master
    /// key; a failure to authenticate is an error, never partial data.
    pub fn get_item(&self, session: &UserSession, k: VaultKey) -> (r: Result<Vec<u8>, VaultError>)
        requires
            self.wf(),
        ensures
            bytes_result(r) == fetched(self.items_view(), session_key(session.key), k),
    {
        let key = match &session.key {
            UserKey::Unlocked(s) => s.expose(),
            _ => {
                return Err(VaultError::Locked);
            },
        };
        let i = match self.find_item(k) {
            Some(i) => i,
            None => {
                return Err(VaultError::Missing);
            },
        };
        let item = &self.items[i];
        proof {
            lemma_item_of(self.items_view(), k, i as int);
        }
        if key.len() != KEY_LEN || item.nonce.len() != NONCE_LEN {
            return Err(VaultError::Crypto);
        }
        match decrypt(key, item.nonce.as_slice(), item.ciphertext.as_slice()) {
            Some(p) => Ok(p),
            None => Err(VaultError::Crypto),
        }
    }
}

/// A write followed by a read of the same provider, with the same master
/// key, gives back exactly what was written; other providers read as before.
pub proof fn lemma_vault_round_trip(old_items: Seq<ItemView>, new_items: Seq<ItemView>, key: Seq<u8>, k: VaultKey, v: Seq<u8>)
    requires
        key.len() == KEY_LEN,
        stored_by_set(old_items, new_items, key, k, v),
    ensures
        fetched(new_items, Some(key), k) == Ok::<Seq<u8>, VaultError>(v),
        forall|k2: VaultKey| k2 != k ==> fetched(new_items, Some(key), k2) == fetched(old_items, Some(key), k2),
{
}

/// After an unlock that was refused for a wrong password the session holds
/// no key, so every read fails with `Locked` rather than returning data.
pub proof fn lemma_wrong_password_denies(before: UserKey, items: Seq<ItemView>, k: VaultKey)
    ensures
        fetched(items, session_key(UserKey::Locked(next_failures(before))), k) == Err::<Seq<u8>, VaultError>(VaultError::Locked),
{
}

/// Re-sealing keeps the key: two unlocks of the same stored blob with the
/// same password yield blobs (whatever their random salts) that both open
/// to the one key the stored blob holds.
pub proof fn lemma_reseal_keeps_key(stored: Seq<u8>, sealed1: Seq<u8>, sealed2: Seq<u8>, password: Seq<char>, key1: Seq<u8>, key2: Seq<u8>)
    requires
        resealed(Some(stored), sealed1, password, key1),
        resealed(Some(stored), sealed2, password, key2),
    ensures
        key1 == key2,
        unsealed_key(sealed1, password) == unsealed_key(sealed2, password),
        unsealed_key(sealed1, password) == unsealed_key(stored, password),
{
}

} // verus!
