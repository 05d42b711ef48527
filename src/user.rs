//! What the browser side may learn of a user: signed in or not, and the
//! state of the vault key, never the key itself.
use vstd::prelude::*;

use crate::vault::{UserKey, UserSession};

verus! {

/// The vault key state without the key.
#[derive(Clone, Copy, Debug, PartialEq, Eq, Structural)]
pub enum PublicUserKey {
    NotExist,
    Locked(usize),
    Unlocked,
}

pub open spec fn public_key_of(k: UserKey) -> PublicUserKey {
    match k {
        UserKey::NotExist => PublicUserKey::NotExist,
        UserKey::Locked(n) => PublicUserKey::Locked(n),
        UserKey::Unlocked(_) => PublicUserKey::Unlocked,
    }
}

impl PublicUserKey {
    /// The public face of a session's key state.
    pub fn from_key(k: &UserKey) -> (r: PublicUserKey)
        ensures
            r == public_key_of(*k),
    {
        match k {
            UserKey::NotExist => PublicUserKey::NotExist,
            UserKey::Locked(n) => PublicUserKey::Locked(*n),
            UserKey::Unlocked(_) => PublicUserKey::Unlocked,
        }
    }
}

/// A visitor as the pages see them.
#[derive(Clone, Copy, Debug, PartialEq, Eq, Structural)]
pub enum User {
    SignedIn(PublicUserKey),
    SignedOut,
}

impl Default for User {
    fn default() -> (r: User)
        ensures
            r == User::SignedOut,
    {
        User::SignedOut
    }
}

impl User {
    /// What the pages learn of a visitor from their session, if any.
    pub fn of_session(session: Option<&UserSession>) -> (r: User)
        ensures
            session is None ==> r == User::SignedOut,
            session matches Some(s) ==> r == User::SignedIn(public_key_of(s.key)),
    {
        match session {
            Some(s) => User::SignedIn(PublicUserKey::from_key(&s.key)),
            None => User::SignedOut,
        }
    }

    pub fn is_signed_in(&self) -> (r: bool)
        ensures
            r == (*self is SignedIn),
    {
        match self {
            User::SignedIn(_) => true,
            User::SignedOut => false,
        }
    }

    pub fn is_locked(&self) -> (r: bool)
        ensures
            r == (*self matches User::SignedIn(PublicUserKey::Locked(_))),
    {
        match self {
            User::SignedIn(PublicUserKey::Locked(_)) => true,
            _ => false,
        }
    }

    pub fn is_unlocked(&self) -> (r: bool)
        ensures
            r == (*self == User::SignedIn(PublicUserKey::Unlocked)),
    {
        match self {
            User::SignedIn(PublicUserKey::Unlocked) => true,
            _ => false,
        }
    }

    /// False only for a signed-in user who has no sealed key yet.
    pub fn has_key(&self) -> (r: bool)
        ensures
            r == (*self != User::SignedIn(PublicUserKey::NotExist)),
    {
        match self {
            User::SignedIn(PublicUserKey::NotExist) => false,
            _ => true,
        }
    }
}

} // verus!
