//! SHA-256 password hashing with constant-time verification.

use vstd::prelude::*;
use vstd::string::StringSliceAdditionalSpecFns;
use super::PasswordHasher;
use sha2::Digest;
use subtle::ConstantTimeEq;

verus! {

/// The SHA-256 digest of `data`.
pub uninterp spec fn sha256(data: Seq<u8>) -> Seq<u8>;

/// `sha2::Sha256::digest`: the 32-byte SHA-256 digest of `data`. The
/// contract only names the result as `sha256` of the input bytes.
#[verifier::external_body]
fn sha256_digest(data: &[u8]) -> (h: [u8; 32])
    ensures
        h@ == sha256(data@),
{
    let out = sha2::Sha256::digest(data);
    let mut h = [0u8; 32];
    h.copy_from_slice(out.as_slice());
    h
}

/// `subtle::ConstantTimeEq::ct_eq` on byte slices, converted to `bool`:
/// true exactly when both slices hold the same bytes.
#[verifier::external_body]
fn ct_eq_bytes(a: &[u8], b: &[u8]) -> (r: bool)
    ensures
        r == (a@ == b@),
{
    a.ct_eq(b).into()
}

/// The stored hash of `password` with `salt`: SHA-256 over the salt
/// followed by the UTF-8 bytes of the password.
pub open spec fn salted_hash(password: Seq<u8>, salt: Seq<u8>) -> Seq<u8> {
    sha256(salt + password)
}

/// SHA-256 password hasher with constant-time verification.
#[derive(Debug, Copy, Clone, Default)]
pub struct Sha256Hasher;

impl Sha256Hasher {
    /// Create a new SHA-256 hasher.
    pub fn new() -> (r: Self) {
        Sha256Hasher
    }
}

impl PasswordHasher for Sha256Hasher {
    open spec fn hash_of(&self, password: Seq<u8>, salt: Seq<u8>) -> Seq<u8> {
        salted_hash(password, salt)
    }

    fn hash(&self, password: &str, salt: &[u8]) -> (h: [u8; 32])
        ensures
            h@ == salted_hash(password.spec_bytes(), salt@),
    {
        let mut data: Vec<u8> = Vec::new();
        let mut i: usize = 0;
        while i < salt.len()
            invariant
                i <= salt@.len(),
                data@ == salt@.take(i as int),
            decreases salt.len() - i,
        {
            data.push(salt[i]);
            assert(salt@.take(i as int).push(salt@[i as int]) =~= salt@.take(i + 1));
            i = i + 1;
        }
        assert(salt@.take(i as int) =~= salt@);
        let bytes = password.as_bytes();
        let mut j: usize = 0;
        while j < bytes.len()
            invariant
                j <= bytes@.len(),
                data@ == salt@ + bytes@.take(j as int),
            decreases bytes.len() - j,
        {
            data.push(bytes[j]);
            assert(salt@ + bytes@.take(j + 1) =~= (salt@ + bytes@.take(j as int)).push(bytes@[j as int]));
            j = j + 1;
        }
        assert(bytes@.take(j as int) =~= bytes@);
        sha256_digest(data.as_slice())
    }

    fn verify(&self, password: &str, salt: &[u8], hash: &[u8; 32]) -> (r: bool)
        ensures
            r == (salted_hash(password.spec_bytes(), salt@) == hash@),
    {
        let computed = self.hash(password, salt);
        ct_eq_bytes(&computed, hash)
    }
}

} // verus!
