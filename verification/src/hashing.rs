//! Hashing scheme of the engine. One cryptographic hash function is used
//! throughout: for the commitment hash that hides a name until it is
//! revealed, for the hash under which a registration is stored, and for the
//! composite hash that scopes a subnode under its parent.
use vstd::prelude::*;

verus! {

/// The digest of a byte string under the engine's hash function.
pub uninterp spec fn digest_of(bytes: Seq<u8>) -> Seq<u8>;

/// The eight bytes of a secret, least significant first.
pub open spec fn secret_bytes(secret: u64) -> Seq<u8> {
    seq![
        (secret >> 0u64) as u8,
        (secret >> 8u64) as u8,
        (secret >> 16u64) as u8,
        (secret >> 24u64) as u8,
        (secret >> 32u64) as u8,
        (secret >> 40u64) as u8,
        (secret >> 48u64) as u8,
        (secret >> 56u64) as u8,
    ]
}

/// The bytes a committer hashes: the plaintext name followed by the secret.
pub open spec fn commitment_input(name: Seq<u8>, secret: u64) -> Seq<u8> {
    name + secret_bytes(secret)
}

/// The hash under which a commitment to `name` with `secret` is stored.
pub open spec fn commitment_digest(name: Seq<u8>, secret: u64) -> Seq<u8> {
    digest_of(commitment_input(name, secret))
}

/// The composite hash under which a subnode of `parent` is stored.
pub open spec fn subnode_digest(parent: Seq<u8>, label_hash: Seq<u8>) -> Seq<u8> {
    digest_of(parent + label_hash)
}

/// Relies on blake2's `Blake2b256` (BLAKE2b with a 32-byte output): the
/// digest is a function of the input bytes alone and is 32 bytes long.
#[verifier::external_body]
fn blake2b_256(bytes: &Vec<u8>) -> (r: Vec<u8>)
    ensures
        r@ == digest_of(bytes@),
        r@.len() == 32,
{
    <blake2::Blake2b256 as blake2::Digest>::digest(bytes.as_slice()).to_vec()
}

/// Copies a byte string.
pub fn clone_bytes(v: &Vec<u8>) -> (r: Vec<u8>)
    ensures
        r@ == v@,
{
    let mut r: Vec<u8> = Vec::new();
    let mut i: usize = 0;
    while i < v.len()
        invariant
            i <= v.len(),
            r@ =~= v@.take(i as int),
        decreases v.len() - i,
    {
        r.push(v[i]);
        i += 1;
    }
    proof {
        assert(r@ =~= v@);
    }
    r
}

/// Computes the hash a committer publishes: the digest of the name followed
/// by the eight little-endian bytes of the caller-chosen secret.
pub fn commitment_hash(name: &Vec<u8>, secret: u64) -> (r: Vec<u8>)
    ensures
        r@ == commitment_digest(name@, secret),
        r@.len() == 32,
{
    let mut input = clone_bytes(name);
    input.push(#[verifier::truncate] ((secret >> 0u64) as u8));
    input.push(#[verifier::truncate] ((secret >> 8u64) as u8));
    input.push(#[verifier::truncate] ((secret >> 16u64) as u8));
    input.push(#[verifier::truncate] ((secret >> 24u64) as u8));
    input.push(#[verifier::truncate] ((secret >> 32u64) as u8));
    input.push(#[verifier::truncate] ((secret >> 40u64) as u8));
    input.push(#[verifier::truncate] ((secret >> 48u64) as u8));
    input.push(#[verifier::truncate] ((secret >> 56u64) as u8));
    proof {
        assert(input@ =~= commitment_input(name@, secret));
    }
    blake2b_256(&input)
}

/// Computes the hash under which a revealed name is registered.
pub fn name_hash(name: &Vec<u8>) -> (r: Vec<u8>)
    ensures
        r@ == digest_of(name@),
        r@.len() == 32,
{
    blake2b_256(name)
}

/// Computes the composite hash that identifies the subnode of `parent_hash`
/// with the given label hash.
pub fn subnode_hash(parent_hash: &Vec<u8>, label_hash: &Vec<u8>) -> (r: Vec<u8>)
    ensures
        r@ == subnode_digest(parent_hash@, label_hash@),
        r@.len() == 32,
{
    let mut input = clone_bytes(parent_hash);
    let mut i: usize = 0;
    while i < label_hash.len()
        invariant
            i <= label_hash.len(),
            input@ =~= parent_hash@ + label_hash@.take(i as int),
        decreases label_hash.len() - i,
    {
        input.push(label_hash[i]);
        i += 1;
    }
    proof {
        assert(input@ =~= parent_hash@ + label_hash@);
    }
    blake2b_256(&input)
}

} // verus!
