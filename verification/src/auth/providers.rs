//! Constant credential provider with hardcoded users (for examples and
//! tests: credentials are visible in the binary).

use vstd::prelude::*;
use core::marker::PhantomData;
use vstd::string::StringSliceAdditionalSpecFns;
use vstd::utf8::encode_utf8;
use super::{login_answer, AccessLevel, CredentialProvider, PasswordHasher, User};
use crate::text::str_eq;

verus! {

/// Constant credential provider with hardcoded, pre-hashed users.
#[derive(Debug)]
pub struct ConstCredentialProvider<L: AccessLevel, H: PasswordHasher, const N: usize> {
    users: [User<L>; N],
    hasher: H,
}

impl<L: AccessLevel, H: PasswordHasher, const N: usize> ConstCredentialProvider<L, H, N> {
    /// Create a new const credential provider (credentials pre-hashed).
    pub fn new(users: [User<L>; N], hasher: H) -> (r: Self)
        ensures
            r.users() == users@,
            r.hasher() == hasher,
    {
        ConstCredentialProvider { users, hasher }
    }

    /// The users of this provider.
    pub closed spec fn users(&self) -> Seq<User<L>> {
        self.users@
    }

    /// The password hasher of this provider.
    pub closed spec fn hasher(&self) -> H {
        self.hasher
    }
}

impl<L: AccessLevel, H: PasswordHasher, const N: usize> CredentialProvider<L> for
    ConstCredentialProvider<L, H, N> {
    type Error = ();

    /// The lookup never fails: it gives the first user of that name, or
    /// none when no user has it.
    open spec fn finds(&self, username: Seq<char>, r: Result<Option<User<L>>, ()>) -> bool {
        r matches Ok(found) && match found {
            Some(u) => exists|i: int|
                0 <= i < self.users().len() && #[trigger] self.users()[i].username@ == username
                    && (forall|j: int| 0 <= j < i ==> self.users()[j].username@ != username)
                    && u.username@ == self.users()[i].username@ && u.access_level
                    == self.users()[i].access_level && u.password_hash
                    == self.users()[i].password_hash && u.salt == self.users()[i].salt,
            None => forall|i: int|
                0 <= i < self.users().len() ==> #[trigger] self.users()[i].username@ != username,
        }
    }

    /// The password is accepted exactly when its salted hash is the
    /// user's.
    open spec fn accepts(&self, user: User<L>, password: Seq<char>, r: bool) -> bool {
        r == (self.hasher().hash_of(encode_utf8(password), user.salt@) == user.password_hash@)
    }

    fn find_user(&self, username: &str) -> (r: Result<Option<User<L>>, ()>) {
        let mut i: usize = 0;
        while i < N
            invariant
                i <= N,
                N == self.users@.len(),
                forall|j: int| 0 <= j < i ==> #[trigger] self.users@[j].username@ != username@,
            decreases N - i,
        {
            if str_eq(self.users[i].username.as_str(), username) {
                let u = self.users[i].duplicate();
                assert(self.users()[i as int].username@ == username@);
                return Ok(Some(u));
            }
            i = i + 1;
        }
        Ok(None)
    }

    fn verify_password(&self, user: &User<L>, password: &str) -> (r: bool) {
        self.hasher.verify(password, &user.salt, &user.password_hash)
    }

    fn list_users(&self) -> (r: Result<Vec<&str>, ()>)
        ensures
            r matches Ok(v) && v@.len() == self.users().len() && forall|i: int|
                0 <= i < v@.len() ==> #[trigger] v@[i]@ == self.users()[i].username@,
    {
        let mut v: Vec<&str> = Vec::new();
        let mut i: usize = 0;
        while i < N
            invariant
                i <= N,
                N == self.users@.len(),
                v@.len() == i,
                forall|j: int| 0 <= j < i ==> #[trigger] v@[j]@ == self.users@[j].username@,
            decreases N - i,
        {
            v.push(self.users[i].username.as_str());
            i = i + 1;
        }
        Ok(v)
    }
}

/// Whether user `i` is the first of `users` named `name`.
pub open spec fn first_named<L: AccessLevel>(users: Seq<User<L>>, name: Seq<char>, i: int) -> bool {
    &&& 0 <= i < users.len()
    &&& users[i].username@ == name
    &&& forall|j: int| 0 <= j < i ==> users[j].username@ != name
}

/// With hard-coded users, a login as `name` succeeds exactly when the
/// password's salted hash is that of the first user of that name, who is
/// then the one logged in.
pub proof fn lemma_const_login<L: AccessLevel, H: PasswordHasher, const N: usize>(
    p: ConstCredentialProvider<L, H, N>,
    name: Seq<char>,
    password: Seq<char>,
    lu: Option<User<L>>,
)
    requires
        login_answer(p, name, password, lu),
    ensures
        match lu {
            Some(u) => exists|i: int|
                #[trigger] first_named(p.users(), name, i) && u.username@ == name && u.access_level
                    == p.users()[i].access_level && u.password_hash == p.users()[i].password_hash && u.salt
                    == p.users()[i].salt && p.hasher().hash_of(encode_utf8(password), u.salt@)
                    == u.password_hash@,
            None => forall|i: int|
                #[trigger] first_named(p.users(), name, i) ==> p.hasher().hash_of(
                    encode_utf8(password),
                    p.users()[i].salt@,
                ) != p.users()[i].password_hash@,
        },
{
    match lu {
        Some(u) => {
            let i = choose|i: int|
                0 <= i < p.users().len() && #[trigger] p.users()[i].username@ == name && (forall|j: int|
                    0 <= j < i ==> p.users()[j].username@ != name) && u.username@ == p.users()[i].username@
                    && u.access_level == p.users()[i].access_level && u.password_hash
                    == p.users()[i].password_hash && u.salt == p.users()[i].salt;
            assert(first_named(p.users(), name, i));
        },
        None => {
            let fr = choose|fr: Result<Option<User<L>>, ()>| #[trigger]
                p.finds(name, fr) && (fr matches Ok(Some(u)) ==> p.accepts(u, password, false));
            assert forall|i: int| #[trigger] first_named(p.users(), name, i) implies p.hasher().hash_of(
                encode_utf8(password),
                p.users()[i].salt@,
            ) != p.users()[i].password_hash@ by {
                if let Ok(Some(u)) = fr {
                    let k = choose|k: int|
                        0 <= k < p.users().len() && #[trigger] p.users()[k].username@ == name && (forall|j: int|
                            0 <= j < k ==> p.users()[j].username@ != name) && u.username@
                            == p.users()[k].username@ && u.access_level == p.users()[k].access_level
                            && u.password_hash == p.users()[k].password_hash && u.salt == p.users()[k].salt;
                    if k < i {
                        assert(p.users()[k].username@ != name);
                    } else if i < k {
                        assert(p.users()[i].username@ != name);
                    }
                } else {
                    assert(p.users()[i].username@ != name);
                }
            }
        },
    }
}

/// The credential provider of a shell without authentication: it knows
/// no user.
#[derive(Debug)]
pub struct NoCredentials<L: AccessLevel> {
    _level: PhantomData<L>,
}

impl<L: AccessLevel> NoCredentials<L> {
    /// The provider that knows no user.
    pub fn new() -> (r: Self) {
        NoCredentials { _level: PhantomData }
    }
}

impl<L: AccessLevel> CredentialProvider<L> for NoCredentials<L> {
    type Error = ();

    /// Every lookup finds nobody.
    open spec fn finds(&self, username: Seq<char>, r: Result<Option<User<L>>, ()>) -> bool {
        r matches Ok(found) && found is None
    }

    /// No password is accepted.
    open spec fn accepts(&self, user: User<L>, password: Seq<char>, r: bool) -> bool {
        !r
    }

    fn find_user(&self, username: &str) -> (r: Result<Option<User<L>>, ()>) {
        Ok(None)
    }

    fn verify_password(&self, user: &User<L>, password: &str) -> (r: bool) {
        false
    }

    fn list_users(&self) -> (r: Result<Vec<&str>, ()>)
        ensures
            r matches Ok(v) && v@.len() == 0,
    {
        Ok(Vec::new())
    }
}

} // verus!
