//! The cryptographic primitives: each is one call into a crate, behind a contract that names what
//! the call returns. The two calls that the machine can refuse are public, because contracts
//! elsewhere speak of them: a failure is owed to a call that failed, and to nothing else.

use argon2::{Algorithm, Argon2, Params, Version};
use chacha20poly1305::aead::{Aead, Payload};
use chacha20poly1305::{KeyInit, XChaCha20Poly1305, XNonce};
use hkdf::Hkdf;
use sha2::{Digest, Sha256};
use vstd::prelude::*;

verus! {

/// Bytes that Poly1305 adds to a message.
pub const TAG: usize = 16;

/// What HKDF-SHA256 (RFC 5869, extract then expand) derives from a salt, key material and an info
/// string, in `len` bytes.
pub uninterp spec fn hkdf_output(salt: Seq<u8>, ikm: Seq<u8>, info: Seq<u8>, len: nat) -> Seq<u8>;

/// What Argon2id (version 0x13, no secret, no associated data) derives from a password and a salt
/// in 32 bytes, with `m_kib` KiB of memory, `t` passes and `p` lanes.
pub uninterp spec fn argon2id_output(
    pass: Seq<u8>,
    salt: Seq<u8>,
    m_kib: u32,
    t: u32,
    p: u32,
) -> Seq<u8>;

/// What XChaCha20-Poly1305 makes of a message: the ciphertext and behind it the tag.
pub uninterp spec fn aead_seal(key: Seq<u8>, nonce: Seq<u8>, msg: Seq<u8>, aad: Seq<u8>) -> Seq<u8>;

/// What XChaCha20-Poly1305 gives back of a ciphertext with its tag, if the tag is right.
pub uninterp spec fn aead_open(
    key: Seq<u8>,
    nonce: Seq<u8>,
    ct: Seq<u8>,
    aad: Seq<u8>,
) -> Option<Seq<u8>>;

/// The SHA-256 digest.
pub uninterp spec fn sha256_output(data: Seq<u8>) -> Seq<u8>;

/// The parameters that Argon2 takes for a 32-byte output.
pub open spec fn argon2_accepts(m_kib: u32, t: u32, p: u32) -> bool {
    &&& m_kib >= 8
    &&& 1 <= p <= 0xFFFFFF
    &&& m_kib >= 8 * p
    &&& t >= 1
}

/// The longest password that Argon2 takes.
pub open spec fn argon2_max_pass() -> nat {
    0xFFFFFFFF
}

/// `hkdf::Hkdf::<Sha256>::new` and `expand`: the output has the length asked for and depends on
/// the arguments alone. Expansion fails only beyond 255 hash lengths, which is ruled out.
#[verifier::external_body]
pub(crate) fn hkdf_sha256(salt: &[u8], ikm: &[u8], info: &[u8], len: usize) -> (out: Vec<u8>)
    requires
        len <= 255 * 32,
    ensures
        out@ == hkdf_output(salt@, ikm@, info@, len as nat),
        out@.len() == len,
{
    let mut out = vec![0u8; len];
    Hkdf::<Sha256>::new(Some(salt), ikm).expand(info, &mut out).expect("hkdf expand");
    out
}

/// `argon2::Params::new` and `argon2::Argon2::hash_password_into`: a hash comes only for
/// parameters and a password that are within Argon2's limits, and then it depends on the
/// arguments alone. Within the limits the call can still fail where the machine refuses the
/// memory, so success is not promised.
#[verifier::external_body]
pub fn argon2id(pass: &[u8], salt: &[u8], m_kib: u32, t: u32, p: u32) -> (out: Option<
    Vec<u8>,
>)
    requires
        8 <= salt@.len() <= 64,
    ensures
        out matches Some(h) ==> {
            &&& argon2_accepts(m_kib, t, p)
            &&& pass@.len() <= argon2_max_pass()
            &&& h@ == argon2id_output(pass@, salt@, m_kib, t, p)
            &&& h@.len() == 32
        },
{
    let params = Params::new(m_kib, t, p, Some(32)).ok()?;
    let mut out = vec![0u8; 32];
    Argon2::new(Algorithm::Argon2id, Version::V0x13, params)
        .hash_password_into(pass, salt, &mut out)
        .ok()?;
    Some(out)
}

/// `XChaCha20Poly1305::new_from_slice` and `encrypt`: the result depends on the arguments alone,
/// is 16 bytes longer than the message, and decrypts to the message under the same key, nonce and
/// associated data. Encryption fails only for messages of some 256 GiB, which are ruled out.
#[verifier::external_body]
pub(crate) fn encrypt(key: &[u8], nonce: &[u8; 24], msg: &[u8], aad: &[u8]) -> (ct: Option<Vec<u8>>)
    requires
        key@.len() == 32,
        msg@.len() <= 0x10000000,
    ensures
        ct is Some,
        ct->0@ == aead_seal(key@, nonce@, msg@, aad@),
        ct->0@.len() == msg@.len() + TAG,
        aead_open(key@, nonce@, ct->0@, aad@) == Some(msg@),
{
    let c = XChaCha20Poly1305::new_from_slice(key).expect("32-byte key");
    let n = XNonce::try_from(&nonce[..]).expect("24-byte nonce");
    c.encrypt(&n, Payload { msg, aad }).ok()
}

/// `XChaCha20Poly1305::new_from_slice` and `decrypt`: the result depends on the arguments alone.
/// A ciphertext that is taken is 16 bytes longer than its message and is what encrypting that
/// message gives.
#[verifier::external_body]
pub(crate) fn decrypt(key: &[u8], nonce: &[u8; 24], ct: &[u8], aad: &[u8]) -> (msg: Option<Vec<u8>>)
    requires
        key@.len() == 32,
    ensures
        msg matches Some(m) ==> aead_open(key@, nonce@, ct@, aad@) == Some(m@),
        msg is None ==> aead_open(key@, nonce@, ct@, aad@) is None,
        msg matches Some(m) ==> {
            &&& ct@.len() == m@.len() + TAG
            &&& ct@ == aead_seal(key@, nonce@, m@, aad@)
        },
{
    let c = XChaCha20Poly1305::new_from_slice(key).expect("32-byte key");
    let n = XNonce::try_from(&nonce[..]).expect("24-byte nonce");
    c.decrypt(&n, Payload { msg: ct, aad }).ok()
}

#[verifier::external_type_specification]
#[verifier::external_body]
pub struct ExSha256(sha2::Sha256);

/// The bytes that a hasher has taken in.
pub uninterp spec fn hashed(h: sha2::Sha256) -> Seq<u8>;

/// `sha2::Sha256::new` (of the trait `Digest`): the hasher has taken in nothing.
#[verifier::external_body]
pub(crate) fn sha256_new() -> (h: Sha256)
    ensures
        hashed(h) == Seq::<u8>::empty(),
{
    Sha256::new()
}

/// `sha2::Sha256::update` (of the trait `Digest`): the bytes come behind those taken in before.
#[verifier::external_body]
pub(crate) fn sha256_update(h: &mut Sha256, data: &[u8])
    ensures
        hashed(*final(h)) == hashed(*old(h)) + data@,
{
    Digest::update(h, data)
}

/// `sha2::Sha256::finalize` (of the trait `Digest`): 32 bytes that depend on the bytes taken in
/// alone.
#[verifier::external_body]
pub(crate) fn sha256_finalize(h: Sha256) -> (out: [u8; 32])
    ensures
        out@ == sha256_output(hashed(h)),
{
    h.finalize().into()
}

/// `getrandom::fill` overwrites the buffer, or fails. On an empty buffer it succeeds at once;
/// otherwise nothing is promised of success and of the bytes.
#[verifier::external_body]
pub fn random_fill(dest: &mut [u8]) -> (ok: bool)
    ensures
        final(dest)@.len() == old(dest)@.len(),
        old(dest)@.len() == 0 ==> ok,
{
    getrandom::fill(dest).is_ok()
}

} // verus!
