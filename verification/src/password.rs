//! The credential obfuscation primitive.
//!
//! A secret is never stored: it is mixed with a fresh 64-bit random salt and
//! hashed into an opaque 256-bit digest. [`Password::matches`] re-derives the
//! digest from a candidate secret and the stored salt, and compares all four
//! limbs unconditionally.

use vstd::bytes::{spec_u64_from_le_bytes, spec_u64_to_le_bytes, u64_from_le_bytes, u64_to_le_bytes};
use vstd::prelude::*;
use vstd::slice::{slice_subrange, slice_to_vec};
use vstd::utf8::encode_utf8;

verus! {

/// The digest of a salted secret, as named for the outside hash function: an
/// opaque value determined by the input bytes alone.
pub uninterp spec fn blake3_digest_of(input: Seq<u8>) -> Seq<u8>;

/// Relies on blake3::hash: a 256-bit digest that is a function of the input
/// bytes alone.
#[verifier::external_body]
fn blake3_hash(input: &[u8]) -> (r: [u8; 32])
    ensures
        r@ == blake3_digest_of(input@),
{
    *blake3::hash(input).as_bytes()
}

/// Relies on rand::random for a fresh 64-bit salt from the thread-local
/// cryptographically secure generator; nothing is assumed of the value.
#[verifier::external_body]
fn fresh_salt() -> u64 {
    rand::random()
}

/// A 256-bit unsigned integer held as four 64-bit limbs, least significant
/// first. Equality is the only operation: the digest is opaque.
#[derive(Debug, Clone, Copy)]
pub struct U256 {
    pub u_0: u64,
    pub u_1: u64,
    pub u_2: u64,
    pub u_3: u64,
}

impl U256 {
    /// The value whose limbs are read little-endian from a 32-byte string.
    pub open spec fn spec_from_bytes(b: Seq<u8>) -> U256 {
        U256 {
            u_0: spec_u64_from_le_bytes(b.subrange(0, 8)),
            u_1: spec_u64_from_le_bytes(b.subrange(8, 16)),
            u_2: spec_u64_from_le_bytes(b.subrange(16, 24)),
            u_3: spec_u64_from_le_bytes(b.subrange(24, 32)),
        }
    }
}

impl From<[u8; 32]> for U256 {
    fn from(value: [u8; 32]) -> (r: Self) {
        let s: &[u8] = vstd::array::array_as_slice(&value);
        let u_0 = u64_from_le_bytes(slice_subrange(s, 0, 8));
        let u_1 = u64_from_le_bytes(slice_subrange(s, 8, 16));
        let u_2 = u64_from_le_bytes(slice_subrange(s, 16, 24));
        let u_3 = u64_from_le_bytes(slice_subrange(s, 24, 32));
        U256 { u_0, u_1, u_2, u_3 }
    }
}

impl vstd::std_specs::convert::FromSpecImpl<[u8; 32]> for U256 {
    open spec fn obeys_from_spec() -> bool {
        true
    }

    open spec fn from_spec(v: [u8; 32]) -> U256 {
        U256::spec_from_bytes(v@)
    }
}

impl PartialEq for U256 {
    /// All four limbs are compared unconditionally, with no early exit on the
    /// first mismatch.
    fn eq(&self, other: &Self) -> (r: bool) {
        let e_0 = self.u_0 == other.u_0;
        let e_1 = self.u_1 == other.u_1;
        let e_2 = self.u_2 == other.u_2;
        let e_3 = self.u_3 == other.u_3;
        e_0 && e_1 && e_2 && e_3
    }
}

impl vstd::std_specs::cmp::PartialEqSpecImpl for U256 {
    open spec fn obeys_eq_spec() -> bool {
        true
    }

    open spec fn eq_spec(&self, other: &Self) -> bool {
        self.u_0 == other.u_0 && self.u_1 == other.u_1 && self.u_2 == other.u_2
            && self.u_3 == other.u_3
    }
}

/// The bytes hashed for a secret and a salt: the secret's UTF-8 encoding
/// followed by the salt's eight little-endian bytes.
pub open spec fn password_input(secret: Seq<char>, salt: u64) -> Seq<u8> {
    encode_utf8(secret) + spec_u64_to_le_bytes(salt)
}

/// The obfuscated form of a secret under a given salt.
pub open spec fn spec_hash_password(secret: Seq<char>, salt: u64) -> U256 {
    U256::spec_from_bytes(blake3_digest_of(password_input(secret, salt)))
}

/// Hash a secret into a 256-bit unsigned integer under the given salt.
fn hash_password(password: &str, salt: u64) -> (r: U256)
    ensures
        r == spec_hash_password(password@, salt),
{
    let mut input: Vec<u8> = slice_to_vec(password.as_bytes());
    let mut salt_bytes: Vec<u8> = u64_to_le_bytes(salt);
    input.append(&mut salt_bytes);
    let digest: [u8; 32] = blake3_hash(input.as_slice());
    U256::from(digest)
}

/// An obfuscated credential: the salted digest stored in place of a plaintext
/// secret, together with the salt it was derived under.
#[derive(Debug, Clone, Copy)]
pub struct Password {
    pub hash: U256,
    pub salt: u64,
}

impl Password {
    /// Whether a candidate secret re-derives the stored digest under the
    /// stored salt.
    pub open spec fn spec_matches(self, secret: Seq<char>) -> bool {
        self.hash == spec_hash_password(secret, self.salt)
    }

    /// Obfuscate the sensitive credential under a fresh random salt.
    pub fn generate(password: &str) -> (r: Self)
        ensures
            r.hash == spec_hash_password(password@, r.salt),
    {
        let salt: u64 = fresh_salt();
        let hash = hash_password(password, salt);
        Self { hash, salt }
    }

    /// Check if the provided credential is valid: the candidate's digest under
    /// the stored salt must equal the stored digest.
    pub fn matches(&self, password: &str) -> (r: bool)
        ensures
            r == self.spec_matches(password@),
    {
        let hash = hash_password(password, self.salt);
        if self.hash != hash {
            return false;
        }
        true
    }
}

/// Round trip: a credential whose digest was derived from a secret under its
/// own salt accepts that same secret.
pub proof fn lemma_generate_matches(c: Password, secret: Seq<char>)
    requires
        c.hash == spec_hash_password(secret, c.salt),
    ensures
        c.spec_matches(secret),
{
}

/// Rejection: a credential derived from one secret accepts a second secret
/// only if the two secrets' salted digests collide under the stored salt.
pub proof fn lemma_matches_needs_collision(c: Password, s1: Seq<char>, s2: Seq<char>)
    requires
        c.hash == spec_hash_password(s1, c.salt),
        spec_hash_password(s2, c.salt) != spec_hash_password(s1, c.salt),
    ensures
        !c.spec_matches(s2),
{
}

} // verus!
