//! Access control and authentication: access levels, users, credential
//! providers and password hashing.

pub mod password;
pub mod providers;

pub use password::Sha256Hasher;
pub use providers::{ConstCredentialProvider, NoCredentials};

use vstd::prelude::*;
use vstd::string::StringSliceAdditionalSpecFns;
use vstd::std_specs::cmp::PartialOrdSpec;
use core::cmp::Ordering;
use crate::error::CliError;
use crate::text::{str_chars, utf8_len};

verus! {

/// Access level trait for hierarchical permissions.
///
/// Applications implement it for an ordered type (usually an enum); a
/// higher value grants access to everything a lower one may reach.
pub trait AccessLevel: Copy + Clone + PartialOrd + Ord + 'static {
    /// Parse access level from string.
    fn from_str(s: &str) -> Option<Self> where Self: Sized;

    /// Convert access level to string representation.
    fn as_str(&self) -> &'static str;
}

/// Whether the access levels of `L` compare as their `PartialOrd`
/// specification says.
pub open spec fn ordered<L: AccessLevel>() -> bool {
    L::obeys_partial_cmp_spec()
}

/// `a` ranks strictly below `b`.
pub open spec fn level_below<L: AccessLevel>(a: L, b: L) -> bool {
    a.partial_cmp_spec(&b) == Some(Ordering::Less)
}

/// Whether a user at `user_level` (`None`: nobody logged in) may reach a
/// node that requires `level`: anyone may when nobody is logged in, else
/// the user's level must not rank below the node's.
pub open spec fn allows<L: AccessLevel>(user_level: Option<L>, level: L) -> bool {
    match user_level {
        None => true,
        Some(u) => !level_below(u, level),
    }
}

/// The access level of `user`, if any.
pub open spec fn level_of<L: AccessLevel>(user: Option<User<L>>) -> Option<L> {
    match user {
        None => None,
        Some(u) => Some(u.access_level),
    }
}

/// Whether a user at `user_level` may reach a node that requires `level`.
pub fn level_allows<L: AccessLevel>(user_level: Option<L>, level: L) -> (r: bool)
    ensures
        ordered::<L>() || user_level is None ==> r == allows(user_level, level),
{
    match user_level {
        None => true,
        Some(u) => !(u < level),
    }
}

/// Capacity of a username, in bytes.
pub const USERNAME_CAPACITY: usize = 32;

/// User information: name, access level, password hash and salt.
#[derive(Debug, Clone)]
pub struct User<L: AccessLevel> {
    /// Username (at most 32 bytes)
    pub username: String,
    /// User's access level
    pub access_level: L,
    /// Password hash
    pub password_hash: [u8; 32],
    /// Salt for password hashing
    pub salt: [u8; 16],
}

impl<L: AccessLevel> User<L> {
    /// Create a new user; fails with `BufferFull` when the name exceeds
    /// 32 bytes.
    pub fn new(username: &str, access_level: L, password_hash: [u8; 32], salt: [u8; 16]) -> (r:
        Result<Self, CliError>)
        ensures
            utf8_len(username@) <= USERNAME_CAPACITY <==> r is Ok,
            r is Err ==> r == Err::<Self, CliError>(CliError::BufferFull),
            r matches Ok(u) ==> u.username@ == username@ && u.access_level == access_level
                && u.password_hash == password_hash && u.salt == salt,
    {
        let n = username.as_bytes().len();
        if n > USERNAME_CAPACITY {
            return Err(CliError::BufferFull);
        }
        let name = String::from_str(username);
        Ok(User { username: name, access_level, password_hash, salt })
    }

    /// A copy of this user.
    pub fn duplicate(&self) -> (r: Self)
        ensures
            r.username@ == self.username@,
            r.access_level == self.access_level,
            r.password_hash == self.password_hash,
            r.salt == self.salt,
    {
        User {
            username: self.username.clone(),
            access_level: self.access_level,
            password_hash: self.password_hash,
            salt: self.salt,
        }
    }

    /// The characters of the username.
    pub fn name_chars(&self) -> (v: Vec<char>)
        ensures
            v@ == self.username@,
    {
        str_chars(self.username.as_str())
    }
}

/// Credential provider trait: user lookup and password verification.
///
/// Implementations must compare secrets in constant time.
///
/// `finds` and `accepts` state what the provider may answer: `find_user`
/// and `verify_password` return only answers they allow.
pub trait CredentialProvider<L: AccessLevel> {
    /// Provider-specific error type
    type Error;

    /// Whether `r` is an answer of this provider to a lookup of the name
    /// `username`. A provider that does not define it states nothing of
    /// its lookups.
    open spec fn finds(&self, username: Seq<char>, r: Result<Option<User<L>>, Self::Error>) -> bool {
        true
    }

    /// Whether `r` is this provider's verdict on `password` for `user`. A
    /// provider that does not define it states nothing of its verdicts.
    open spec fn accepts(&self, user: User<L>, password: Seq<char>, r: bool) -> bool {
        true
    }

    /// Find user by username (`Ok(None)` when there is none).
    fn find_user(&self, username: &str) -> (r: Result<Option<User<L>>, Self::Error>)
        ensures
            self.finds(username@, r),
    ;

    /// Verify password for user.
    fn verify_password(&self, user: &User<L>, password: &str) -> (r: bool)
        ensures
            self.accepts(*user, password@, r),
    ;

    /// List all usernames (for debugging/testing only).
    fn list_users(&self) -> Result<Vec<&str>, Self::Error>;
}

/// Whether `lu` is an outcome of logging in as `name` with `password`
/// that the answers of `p` allow: the user that `p` finds by that name
/// when it then accepts the password, else none.
pub open spec fn login_answer<L: AccessLevel, P: CredentialProvider<L>>(
    p: P,
    name: Seq<char>,
    password: Seq<char>,
    lu: Option<User<L>>,
) -> bool {
    match lu {
        Some(u) => p.finds(name, Ok(Some(u))) && p.accepts(u, password, true),
        None => exists|fr: Result<Option<User<L>>, P::Error>| #[trigger]
            p.finds(name, fr) && (fr matches Ok(Some(u)) ==> p.accepts(u, password, false)),
    }
}

/// Password hasher trait: salted hashing and constant-time verification.
///
/// `hash_of` names what `hash` computes; `verify` accepts exactly the
/// hash that `hash` would produce.
pub trait PasswordHasher {
    /// The hash of the UTF-8 bytes `password` with `salt`.
    spec fn hash_of(&self, password: Seq<u8>, salt: Seq<u8>) -> Seq<u8>;

    /// Hash password with salt; the result is 32 bytes.
    fn hash(&self, password: &str, salt: &[u8]) -> (h: [u8; 32])
        ensures
            h@ == self.hash_of(password.spec_bytes(), salt@),
    ;

    /// Verify password against hash using constant-time comparison.
    fn verify(&self, password: &str, salt: &[u8], hash: &[u8; 32]) -> (r: bool)
        ensures
            r == (self.hash_of(password.spec_bytes(), salt@) == hash@),
    ;
}

} // verus!
