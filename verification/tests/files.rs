//! Whole files: what is sealed, what opens, what is refused.
use argon2::{Algorithm, Argon2, Params, Version};
use chacha20poly1305::aead::{Aead, KeyInit, Payload};
use chacha20poly1305::{ChaCha20Poly1305, Key, Nonce};
use seald::external::{NONCE_LEN, SALT_LEN};
use seald::header::{
    magic_bytes, read_header, write_header, FileHeader, CHUNK_PLAIN, CIPHER_CHACHA20POLY1305,
    HEADER_LEN, HEADER_VERSION, KDF_ARGON2ID,
};
use seald::open::{open_records, Opener};
use seald::output::{after_sink_step, first_sink_step, SinkAction};
use seald::policy::{derive_key, MAX_KDF_MEMORY_KIB};
use seald::seal::{chunk_count, seal_file, Sealer};
use seald::stream::append_pieces;
use seald::{
    decrypt_file, decrypt_file_with_policy, encrypt_file, encrypt_file_with_kdf_params,
    encrypt_file_with_policy, kdf_costs_for_level, Argon2Level,
};

fn header_bytes(mem: u32, time: u32, parallelism: u32) -> Vec<u8> {
    let mut bytes = magic_bytes();
    bytes.push(HEADER_VERSION);
    bytes.push(KDF_ARGON2ID);
    bytes.push(CIPHER_CHACHA20POLY1305);
    bytes.extend_from_slice(&mem.to_le_bytes());
    bytes.extend_from_slice(&time.to_le_bytes());
    bytes.extend_from_slice(&parallelism.to_le_bytes());
    bytes.extend_from_slice(&(CHUNK_PLAIN as u32).to_le_bytes());
    bytes.extend_from_slice(&[0u8; SALT_LEN]);
    bytes
}

fn light(input: &[u8]) -> Vec<u8> {
    encrypt_file_with_kdf_params(input, b"test-passphrase", 8_192, 1, 1, false).expect("seal")
}

/// What the header of a file sealed under `level` holds.
fn assert_header_holds_kdf_metadata(enc: &[u8], level: Argon2Level) {
    assert_eq!(&enc[0..4], b"SLD\x01");
    assert_eq!(enc[4], HEADER_VERSION);
    assert_eq!(enc[5], KDF_ARGON2ID);
    assert_eq!(enc[6], CIPHER_CHACHA20POLY1305);

    let mem = u32::from_le_bytes(enc[7..11].try_into().expect("mem cost bytes"));
    let time = u32::from_le_bytes(enc[11..15].try_into().expect("time cost bytes"));
    let parallelism = u32::from_le_bytes(enc[15..19].try_into().expect("parallelism bytes"));
    let chunk = u32::from_le_bytes(enc[19..23].try_into().expect("chunk bytes"));
    let (exp_mem, exp_time, exp_parallelism) = kdf_costs_for_level(level);
    assert_eq!(mem, exp_mem);
    assert_eq!(time, exp_time);
    assert_eq!(parallelism, exp_parallelism);
    assert_eq!(chunk, CHUNK_PLAIN as u32);
}

// The strong preset takes many seconds in a build without optimisation, so the key is
// derived once and serves both directions.
#[test]
fn round_trip_and_header_contains_kdf_metadata() {
    let plaintext = b"header-aware encryption test payload";
    let (mem, time, parallelism) = kdf_costs_for_level(Argon2Level::Strong);
    let header = FileHeader::from_kdf_params(mem, time, parallelism, [6u8; SALT_LEN]).expect("header");
    let key = derive_key(b"test-passphrase", &header.salt, mem, time, parallelism).expect("derive");

    let mut enc = Vec::new();
    write_header(&mut enc, &header);
    let mut sealer = Sealer::new(key, &header);
    append_pieces(&mut enc, &sealer.feed_with_random_nonce(plaintext).expect("seal chunk").0);
    append_pieces(&mut enc, &sealer.feed_with_random_nonce(b"").expect("seal marker").0);
    assert_header_holds_kdf_metadata(&enc, Argon2Level::Strong);

    let header = read_header(&enc).expect("read header");
    let mut roundtrip = Vec::new();
    open_records(Opener::new(key, &header), &enc[HEADER_LEN..], &mut roundtrip).expect("decrypt file");
    assert_eq!(roundtrip, plaintext);
}

#[test]
fn strong_files_hold_their_kdf_metadata() {
    let plaintext = b"header-aware encryption test payload";
    let enc = encrypt_file(plaintext, b"test-passphrase", Argon2Level::Strong).expect("encrypt file");
    assert_header_holds_kdf_metadata(&enc, Argon2Level::Strong);
    assert_eq!(enc.len(), plaintext.len() + HEADER_LEN + 2 * 40);
}

/// The records of "header-aware encryption test payload", sealed with "test-passphrase" under
/// the strong preset, a salt of sixes, and nonces of ones and of twos.
const STRONG_RECORDS: [u8; 116] = [
    0x00, 0x00, 0x00, 0x00, 0x00, 0x00, 0x00, 0x00, 0x01, 0x01, 0x01, 0x01, 0x01, 0x01,
    0x01, 0x01, 0x01, 0x01, 0x01, 0x01, 0x24, 0x00, 0x00, 0x00, 0x62, 0x32, 0x4b, 0xd4,
    0x2c, 0xc0, 0x70, 0x0a, 0x66, 0x23, 0x2a, 0x8d, 0x2d, 0x42, 0x89, 0xa6, 0xb9, 0x0e,
    0x99, 0x44, 0x1c, 0xa7, 0x3a, 0xcb, 0x6b, 0x3c, 0x71, 0xeb, 0xc6, 0x6f, 0x4c, 0x63,
    0x48, 0xf7, 0x60, 0x03, 0x48, 0xea, 0xce, 0xea, 0x93, 0x26, 0xa6, 0x93, 0xaa, 0x40,
    0xf1, 0x5a, 0x01, 0x88, 0xf2, 0x5c, 0x01, 0x00, 0x00, 0x00, 0x00, 0x00, 0x00, 0x00,
    0x02, 0x02, 0x02, 0x02, 0x02, 0x02, 0x02, 0x02, 0x02, 0x02, 0x02, 0x02, 0x00, 0x00,
    0x00, 0x00, 0xb4, 0x80, 0x95, 0x6d, 0x04, 0xd6, 0x45, 0x9b, 0x13, 0xea, 0xa4, 0xcb,
    0x84, 0x48, 0xc6, 0x15,
];

#[test]
fn a_recorded_strong_file_opens() {
    let (mem, time, parallelism) = kdf_costs_for_level(Argon2Level::Strong);
    let mut enc = header_bytes(mem, time, parallelism);
    enc[23..39].copy_from_slice(&[6u8; SALT_LEN]);
    enc.extend_from_slice(&STRONG_RECORDS);
    assert_header_holds_kdf_metadata(&enc, Argon2Level::Strong);
    let plaintext = decrypt_file(&enc, b"test-passphrase").expect("decrypt file");
    assert_eq!(plaintext, b"header-aware encryption test payload");
}

#[test]
fn files_of_a_preset_round_trip() {
    let plaintext = b"header-aware encryption test payload";
    let enc = encrypt_file(plaintext, b"test-passphrase", Argon2Level::Fast).expect("encrypt file");
    assert_header_holds_kdf_metadata(&enc, Argon2Level::Fast);
    let roundtrip = decrypt_file(&enc, b"test-passphrase").expect("decrypt file");
    assert_eq!(roundtrip, plaintext);
}

#[test]
fn decrypt_rejects_old_format_magic() {
    let err = decrypt_file(b"SLD\x02legacy", b"test-passphrase").expect_err("must reject old format");
    assert!(err.contains("unsupported format version"));
}

#[test]
fn decrypt_rejects_invalid_header_kdf_params() {
    let bytes = header_bytes(19_456, 3, 0);
    let err = decrypt_file(&bytes, b"test-passphrase").expect_err("invalid kdf header should fail");
    assert!(err.contains("in sld header"));
}

#[test]
fn decrypt_fails_if_authenticated_header_metadata_is_tampered() {
    let mut enc =
        encrypt_file(b"tamper test", b"test-passphrase", Argon2Level::Standard).expect("encrypt file");
    // kdf_time_cost is bytes [11..15]. Flip to a different valid value.
    let mut kdf_time = u32::from_le_bytes(enc[11..15].try_into().expect("kdf time bytes"));
    kdf_time = if kdf_time > 1 { kdf_time - 1 } else { kdf_time + 1 };
    enc[11..15].copy_from_slice(&kdf_time.to_le_bytes());

    let err = decrypt_file(&enc, b"test-passphrase")
        .expect_err("tampered metadata should fail decryption");
    assert!(err.contains("decrypt failed"));
}

#[test]
fn short_passphrase_is_rejected_by_default_policy() {
    let err = encrypt_file(b"weak passphrase policy test", b"shortpass", Argon2Level::Standard)
        .expect_err("short passphrase should be rejected");
    assert!(err.contains("passphrase too weak"));
}

#[test]
fn allow_weak_passphrase_override_allows_short_passphrase() {
    let plaintext = b"short passphrase allowed with explicit override";
    let enc = encrypt_file_with_policy(plaintext, b"shortpass", Argon2Level::Fast, true)
        .expect("encryption should allow short passphrase with override");
    let roundtrip = decrypt_file_with_policy(&enc, b"shortpass", true)
        .expect("decryption should allow short passphrase with override");
    assert_eq!(roundtrip, plaintext);
}

#[test]
fn encrypt_with_explicit_kdf_knobs_stores_those_values() {
    let enc = encrypt_file_with_kdf_params(
        b"explicit kdf knobs",
        b"test-passphrase",
        32_768,
        4,
        2,
        false,
    )
    .expect("encrypt with explicit kdf params");
    let mem = u32::from_le_bytes(enc[7..11].try_into().expect("mem cost bytes"));
    let time = u32::from_le_bytes(enc[11..15].try_into().expect("time cost bytes"));
    let parallelism = u32::from_le_bytes(enc[15..19].try_into().expect("parallelism bytes"));
    assert_eq!(mem, 32_768);
    assert_eq!(time, 4);
    assert_eq!(parallelism, 2);
}

#[test]
fn encrypt_with_invalid_kdf_knobs_is_rejected() {
    let err = encrypt_file_with_kdf_params(
        b"invalid kdf knobs",
        b"test-passphrase",
        19_456,
        3,
        0,
        false,
    )
    .expect_err("invalid parallelism should fail");
    assert!(err.contains("invalid Argon2 parallelism"));
}

#[test]
fn decrypt_rejects_missing_final_authentication_marker() {
    let bytes = header_bytes(19_456, 3, 1);
    let err = decrypt_file(&bytes, b"test-passphrase").expect_err("missing final marker should fail");
    assert!(err.contains("missing final authentication marker"));
}

#[test]
fn decrypt_rejects_excessive_kdf_memory_in_header() {
    let bytes = header_bytes(MAX_KDF_MEMORY_KIB + 1, 3, 1);
    let err = decrypt_file(&bytes, b"test-passphrase").expect_err("excessive kdf memory should fail");
    assert!(err.contains("invalid Argon2 memory cost"));
}

#[test]
fn decrypt_failure_does_not_leave_partial_output_file() {
    let mut plaintext = vec![0u8; CHUNK_PLAIN + 1024];
    for (i, b) in plaintext.iter_mut().enumerate() {
        *b = (i % 251) as u8;
    }
    let mut enc =
        encrypt_file(&plaintext, b"test-passphrase", Argon2Level::Standard).expect("encrypt file");
    // Corrupt one byte near the end so decrypt fails after some data was processed.
    let last = enc.len().saturating_sub(1);
    enc[last] ^= 0x80;

    let result = decrypt_file(&enc, b"test-passphrase");
    let ending = first_sink_step(true, result.is_ok());
    let err = result.expect_err("decrypt should fail on tampered ciphertext");
    assert!(err.contains("decrypt failed"));
    assert_eq!(ending, Some(SinkAction::RemoveTemp), "nothing may get the output's name");
    assert_eq!(after_sink_step(true, SinkAction::RemoveTemp, true), None);
}

#[test]
fn empty_input_still_has_its_marker() {
    let enc = light(b"");
    assert_eq!(enc.len(), HEADER_LEN + 40);
    assert_eq!(&enc[HEADER_LEN..HEADER_LEN + 8], &[0u8; 8]);
    assert_eq!(&enc[HEADER_LEN + 20..HEADER_LEN + 24], &[0u8; 4]);
    assert_eq!(decrypt_file(&enc, b"test-passphrase"), Ok(vec![]));
}

#[test]
fn several_chunks_round_trip() {
    let mut plaintext = vec![0u8; 2 * CHUNK_PLAIN + 7];
    for (i, b) in plaintext.iter_mut().enumerate() {
        *b = (i % 253) as u8;
    }
    let enc = light(&plaintext);
    assert_eq!(enc.len(), plaintext.len() + HEADER_LEN + 40 * 4);
    assert_eq!(decrypt_file(&enc, b"test-passphrase"), Ok(plaintext));
}

#[test]
fn a_full_last_chunk_is_not_followed_by_an_empty_one() {
    let plaintext = vec![9u8; CHUNK_PLAIN];
    let enc = light(&plaintext);
    assert_eq!(enc.len(), CHUNK_PLAIN + HEADER_LEN + 40 * 2);
    assert_eq!(decrypt_file(&enc, b"test-passphrase"), Ok(plaintext));
}

#[test]
fn chunks_are_counted_by_rounding_up() {
    assert_eq!(chunk_count(0), 0);
    assert_eq!(chunk_count(1), 1);
    assert_eq!(chunk_count(CHUNK_PLAIN), 1);
    assert_eq!(chunk_count(CHUNK_PLAIN + 1), 2);
}

#[test]
fn every_truncation_is_refused() {
    let enc = light(b"cut me");
    for n in [0, 3, 4, 6, 10, 14, 18, 22, 38] {
        assert!(decrypt_file(&enc[..n], b"test-passphrase").is_err());
    }
    for n in [39, 40, 50, 60, 63, 70, 85, 86, 90, 110, enc.len() - 1] {
        assert!(decrypt_file(&enc[..n], b"test-passphrase").is_err());
    }
}

#[test]
fn each_truncation_has_its_words() {
    let enc = light(b"cut me");
    let words = |n: usize| decrypt_file(&enc[..n], b"test-passphrase").expect_err("cut off");
    assert_eq!(words(3), "read header magic: failed to fill whole buffer");
    assert_eq!(words(5), "read header ids: failed to fill whole buffer");
    assert_eq!(words(8), "read kdf mem cost: failed to fill whole buffer");
    assert_eq!(words(12), "read kdf time cost: failed to fill whole buffer");
    assert_eq!(words(16), "read kdf parallelism: failed to fill whole buffer");
    assert_eq!(words(20), "read chunk size: failed to fill whole buffer");
    assert_eq!(words(38), "read salt: failed to fill whole buffer");
    assert_eq!(words(39), "missing final authentication marker");
    assert_eq!(words(46), "truncated chunk header: failed to fill whole buffer");
    assert_eq!(words(58), "read nonce: failed to fill whole buffer");
    assert_eq!(words(62), "read plaintext length: failed to fill whole buffer");
    assert_eq!(words(84), "read ciphertext: failed to fill whole buffer");
    assert_eq!(words(85), "missing final authentication marker");
}

#[test]
fn trailing_data_is_refused() {
    let mut enc = light(b"whole");
    enc.push(0);
    assert_eq!(
        decrypt_file(&enc, b"test-passphrase"),
        Err("truncated chunk header: failed to fill whole buffer".to_string())
    );
    enc.extend_from_slice(&[0u8; 7]);
    assert_eq!(
        decrypt_file(&enc, b"test-passphrase"),
        Err("trailing data after final authentication marker".to_string())
    );
}

#[test]
fn records_out_of_order_are_refused() {
    let mut enc = light(b"order");
    enc[HEADER_LEN] = 1;
    assert_eq!(
        decrypt_file(&enc, b"test-passphrase"),
        Err("chunk out of order or corrupt header".to_string())
    );
}

#[test]
fn overlong_chunks_are_refused() {
    let mut enc = light(b"length");
    enc[HEADER_LEN + 20..HEADER_LEN + 24].copy_from_slice(&(CHUNK_PLAIN as u32 + 1).to_le_bytes());
    assert_eq!(
        decrypt_file(&enc, b"test-passphrase"),
        Err("invalid chunk plaintext length (corrupt or tampered file)".to_string())
    );
}

#[test]
fn another_passphrase_does_not_open() {
    let enc = light(b"secret");
    assert_eq!(
        decrypt_file(&enc, b"best-passphrase"),
        Err("decrypt failed (wrong passphrase or corrupt data)".to_string())
    );
}

#[test]
fn header_errors_have_their_words() {
    let good = header_bytes(19_456, 3, 1);
    let words = |at: usize, value: u8| {
        let mut bytes = good.clone();
        bytes[at] = value;
        read_header(&bytes).expect_err("bad header")
    };
    assert_eq!(words(3, 2), "not an sld file (unsupported format version)");
    assert_eq!(words(4, 2), "unsupported sld header version");
    assert_eq!(words(5, 2), "unsupported KDF in sld header");
    assert_eq!(words(6, 2), "unsupported cipher in sld header");
    assert_eq!(
        words(8, 0),
        "invalid Argon2 memory cost: must be between 8192 and 262144 KiB in sld header"
    );
    assert_eq!(words(11, 11), "invalid Argon2 time cost: must be between 1 and 10 in sld header");
    assert_eq!(words(15, 9), "invalid Argon2 parallelism: must be between 1 and 8 in sld header");
    assert_eq!(words(19, 1), "unsupported chunk size in sld header");
}

#[test]
fn the_passphrase_is_looked_at_before_the_file() {
    assert_eq!(decrypt_file(b"", b""), Err("passphrase cannot be empty".to_string()));
    assert_eq!(
        decrypt_file(b"", b"shortpass"),
        Err("passphrase too weak: need at least 12 bytes".to_string())
    );
    assert_eq!(
        decrypt_file_with_policy(b"", b"shortpass", true),
        Err("read header magic: failed to fill whole buffer".to_string())
    );
}

#[test]
fn salts_and_nonces_differ_from_file_to_file() {
    let a = light(b"same");
    let b = light(b"same");
    assert_ne!(a[23..39], b[23..39]);
    assert_ne!(a[47..59], b[47..59]);
    assert_ne!(a[23..39], [0u8; 16]);
}

#[test]
fn a_file_with_given_salt_and_nonces_is_determined() {
    let salt = [7u8; SALT_LEN];
    let nonces = vec![[1u8; NONCE_LEN], [2u8; NONCE_LEN]];
    let file = seal_file(b"hello", b"test-passphrase", 8_192, 2, 3, false, salt, &nonces)
        .expect("seal");

    let params = Params::new(8_192, 2, 3, Some(32)).expect("params");
    let mut key = [0u8; 32];
    Argon2::new(Algorithm::Argon2id, Version::V0x13, params)
        .hash_password_into(b"test-passphrase", &salt, &mut key)
        .expect("derive");
    let cipher = ChaCha20Poly1305::new(Key::from_slice(&key));

    let mut expected = b"SLD\x01\x01\x01\x01".to_vec();
    expected.extend_from_slice(&8_192u32.to_le_bytes());
    expected.extend_from_slice(&2u32.to_le_bytes());
    expected.extend_from_slice(&3u32.to_le_bytes());
    expected.extend_from_slice(&262_144u32.to_le_bytes());
    expected.extend_from_slice(&salt);
    let prefix = expected[4..].to_vec();
    for (index, (nonce, msg)) in [([1u8; 12], &b"hello"[..]), ([2u8; 12], &b""[..])].iter().enumerate() {
        let mut aad = prefix.clone();
        aad.extend_from_slice(&(index as u64).to_le_bytes());
        let sealed = cipher
            .encrypt(Nonce::from_slice(nonce), Payload { msg, aad: &aad })
            .expect("encrypt");
        expected.extend_from_slice(&(index as u64).to_le_bytes());
        expected.extend_from_slice(nonce);
        expected.extend_from_slice(&(msg.len() as u32).to_le_bytes());
        expected.extend_from_slice(&sealed);
    }
    assert_eq!(file, expected);
    assert_eq!(decrypt_file(&file, b"test-passphrase"), Ok(b"hello".to_vec()));
}
