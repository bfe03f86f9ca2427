//! The outside functions this library stands on, each behind a contract that
//! is taken on trust.
use vstd::prelude::*;

use argon2::{Algorithm, Argon2, Params, Version};
use chacha20poly1305::aead::{Aead, KeyInit, OsRng, Payload};
use chacha20poly1305::{ChaCha20Poly1305, Key, Nonce};
use rand::RngCore;
use zeroize::Zeroize;

verus! {

/// Length of a derived key.
pub const KEY_LEN: usize = 32;

/// Length of the salt of a file.
pub const SALT_LEN: usize = 16;

/// Length of the nonce of a record.
pub const NONCE_LEN: usize = 12;

/// Length of the tag that the cipher appends to a ciphertext.
pub const TAG_LEN: usize = 16;

/// The longest passphrase that Argon2 takes.
pub const MAX_ARGON2_PASSWORD_LEN: u64 = 0xffff_ffff;

/// The longest message that ChaCha20-Poly1305 takes: 2^32 - 2 blocks of 64 bytes.
pub const MAX_CHACHA_MESSAGE_LEN: u64 = 274_877_906_816;

/// The costs with which Argon2 can be called at all: its arithmetic stays in range, and its
/// memory is no larger than an allocation can be.
pub open spec fn argon2_can_run(mem_cost: u32, parallelism: u32) -> bool {
    8 * parallelism <= u32::MAX && 1024 * mem_cost <= isize::MAX
}

/// What Argon2 says of a cost tuple that it refuses; `None` of one that it takes.
pub open spec fn argon2_refusal(mem_cost: u32, time_cost: u32, parallelism: u32) -> Option<
    Seq<char>,
> {
    if mem_cost < 8 || mem_cost < 8 * parallelism {
        Some("memory cost is too small"@)
    } else if time_cost < 1 {
        Some("time cost is too small"@)
    } else if parallelism < 1 {
        Some("not enough threads"@)
    } else if parallelism > 0xff_ffff {
        Some("too many threads"@)
    } else {
        None
    }
}

/// The 32 bytes that Argon2id, version 0x13, derives from a passphrase and a
/// salt under a memory cost, a time cost and a number of lanes.
pub uninterp spec fn argon2id_key(
    passphrase: Seq<u8>,
    salt: Seq<u8>,
    mem_cost: u32,
    time_cost: u32,
    parallelism: u32,
) -> Seq<u8>;

/// ChaCha20-Poly1305: the ciphertext, with its tag behind it, of a message
/// under a key, a nonce and associated data.
pub uninterp spec fn aead_seal(
    key: Seq<u8>,
    nonce: Seq<u8>,
    aad: Seq<u8>,
    message: Seq<u8>,
) -> Seq<u8>;

/// ChaCha20-Poly1305: the message of a ciphertext with its tag, or `None` where
/// the tag does not match.
pub uninterp spec fn aead_open(
    key: Seq<u8>,
    nonce: Seq<u8>,
    aad: Seq<u8>,
    ciphertext: Seq<u8>,
) -> Option<Seq<u8>>;

/// `argon2::Params::new` with an output length of 32: whether Argon2 takes a cost
/// tuple, and its words where it does not. A parallelism whose eightfold leaves
/// `u32` is out, because the multiplication in `Params::new` would overflow.
#[verifier::external_body]
pub(crate) fn argon2_params(mem_cost: u32, time_cost: u32, parallelism: u32) -> (r: Result<
    (),
    String,
>)
    requires
        8 * parallelism <= u32::MAX,
    ensures
        r is Ok <==> argon2_refusal(mem_cost, time_cost, parallelism) is None,
        r matches Err(e) ==> argon2_refusal(mem_cost, time_cost, parallelism) == Some(e@),
{
    match Params::new(mem_cost, time_cost, parallelism, Some(KEY_LEN)) {
        Ok(_) => Ok(()),
        Err(e) => Err(e.to_string()),
    }
}

/// `argon2::Argon2::hash_password_into` for Argon2id, version 0x13, and an output
/// of 32 bytes. With a cost tuple that Argon2 takes and a 16-byte salt it fails on
/// an overlong passphrase alone; otherwise the output is named by `argon2id_key`.
/// Nothing is said of a machine that does not have the memory asked for.
#[verifier::external_body]
pub(crate) fn argon2id(
    passphrase: &[u8],
    salt: &[u8; SALT_LEN],
    mem_cost: u32,
    time_cost: u32,
    parallelism: u32,
) -> (r: Result<[u8; KEY_LEN], String>)
    requires
        argon2_can_run(mem_cost, parallelism),
        argon2_refusal(mem_cost, time_cost, parallelism) is None,
    ensures
        r is Ok <==> passphrase@.len() <= MAX_ARGON2_PASSWORD_LEN,
        r matches Ok(key) ==> key@ == argon2id_key(
            passphrase@,
            salt@,
            mem_cost,
            time_cost,
            parallelism,
        ),
        r matches Err(e) ==> e@ == "password is too long"@,
{
    let params = Params::new(mem_cost, time_cost, parallelism, Some(KEY_LEN))
        .map_err(|e| e.to_string())?;
    let argon2 = Argon2::new(Algorithm::Argon2id, Version::V0x13, params);
    let mut key = [0u8; KEY_LEN];
    argon2.hash_password_into(passphrase, salt, &mut key).map_err(|e| e.to_string())?;
    Ok(key)
}

/// `encrypt` of `chacha20poly1305::ChaCha20Poly1305`. It does not fail on a message that
/// its block counter can number. The ciphertext is named by `aead_seal`, is 16 bytes
/// longer than the message, and opens to the message again under the same key, nonce and
/// associated data. Messages that the counter cannot number are out, and so are those
/// that outgrow the largest allocation together with their tag.
#[verifier::external_body]
pub(crate) fn chacha_seal(
    key: &[u8; KEY_LEN],
    nonce: &[u8; NONCE_LEN],
    aad: &[u8],
    message: &[u8],
) -> (r: Option<Vec<u8>>)
    requires
        message@.len() <= MAX_CHACHA_MESSAGE_LEN,
        message@.len() + TAG_LEN <= isize::MAX,
    ensures
        r is Some,
        r matches Some(sealed) ==> sealed@ == aead_seal(key@, nonce@, aad@, message@),
        r matches Some(sealed) ==> sealed@.len() == message@.len() + TAG_LEN,
        r matches Some(sealed) ==> aead_open(key@, nonce@, aad@, sealed@) == Some(message@),
{
    ChaCha20Poly1305::new(Key::from_slice(key))
        .encrypt(Nonce::from_slice(nonce), Payload { msg: message, aad })
        .ok()
}

/// `decrypt` of `chacha20poly1305::ChaCha20Poly1305`, named by `aead_open`. A message
/// that comes back is 16 bytes shorter than its ciphertext. Ciphertexts of messages that
/// the cipher's block counter cannot number are out.
#[verifier::external_body]
pub(crate) fn chacha_open(
    key: &[u8; KEY_LEN],
    nonce: &[u8; NONCE_LEN],
    aad: &[u8],
    ciphertext: &[u8],
) -> (r: Option<Vec<u8>>)
    requires
        ciphertext@.len() <= MAX_CHACHA_MESSAGE_LEN + TAG_LEN,
    ensures
        r is None ==> aead_open(key@, nonce@, aad@, ciphertext@) is None,
        r matches Some(message) ==> aead_open(key@, nonce@, aad@, ciphertext@) == Some(message@),
        r matches Some(message) ==> message@.len() + TAG_LEN == ciphertext@.len(),
{
    ChaCha20Poly1305::new(Key::from_slice(key))
        .decrypt(Nonce::from_slice(nonce), Payload { msg: ciphertext, aad })
        .ok()
}

/// `fill_bytes` of `rand_core::OsRng`: `N` bytes of the operating system's random
/// source. Nothing holds of the bytes beyond their number, and nothing is said of a
/// system whose source fails.
#[verifier::external_body]
pub(crate) fn random_bytes<const N: usize>() -> (r: [u8; N]) {
    let mut bytes = [0u8; N];
    OsRng.fill_bytes(&mut bytes);
    bytes
}

/// `zeroize` on a byte vector: the bytes are overwritten and the vector is left empty.
#[verifier::external_body]
pub(crate) fn wipe_vec(bytes: &mut Vec<u8>)
    ensures
        final(bytes)@ == Seq::<u8>::empty(),
{
    bytes.zeroize();
}

/// `zeroize` on a byte array: every byte becomes zero.
#[verifier::external_body]
pub(crate) fn wipe_array<const N: usize>(bytes: &mut [u8; N])
    ensures
        final(bytes)@ == Seq::new(N as nat, |i: int| 0u8),
{
    bytes.zeroize();
}

/// `String::into_bytes`: the UTF-8 bytes of the text.
pub assume_specification[ String::into_bytes ](text: String) -> (bytes: Vec<u8>)
    ensures
        bytes@ == vstd::utf8::encode_utf8(text@),
;

} // verus!
