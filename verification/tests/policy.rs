//! Passphrases and costs.
use seald::policy::{
    derive_key, level_from_u32, resolve_kdf_params, validate_kdf_params, validate_passphrase,
};
use seald::{kdf_costs_for_level, Argon2Level};

#[test]
fn presets_have_their_costs() {
    assert_eq!(kdf_costs_for_level(Argon2Level::Fast), (32_768, 2, 1));
    assert_eq!(kdf_costs_for_level(Argon2Level::Standard), (65_536, 3, 1));
    assert_eq!(kdf_costs_for_level(Argon2Level::Strong), (131_072, 4, 1));
    assert_eq!(kdf_costs_for_level(Argon2Level::Paranoid), (262_144, 5, 1));
    assert_eq!(Argon2Level::default(), Argon2Level::Standard);
}

#[test]
fn presets_are_inside_the_policy() {
    for number in 0..4 {
        let level = level_from_u32(number).expect("preset");
        let (mem, time, parallelism) = kdf_costs_for_level(level);
        assert_eq!(validate_kdf_params(mem, time, parallelism), Ok(()));
    }
}

#[test]
fn numbers_stand_for_presets() {
    assert_eq!(level_from_u32(0), Ok(Argon2Level::Fast));
    assert_eq!(level_from_u32(1), Ok(Argon2Level::Standard));
    assert_eq!(level_from_u32(2), Ok(Argon2Level::Strong));
    assert_eq!(level_from_u32(3), Ok(Argon2Level::Paranoid));
    assert_eq!(
        level_from_u32(4),
        Err("invalid level (expected 0=fast, 1=standard, 2=strong, 3=paranoid)".to_string())
    );
}

#[test]
fn explicit_costs_override_the_preset() {
    assert_eq!(resolve_kdf_params(Argon2Level::Standard, None, None, None), (65_536, 3, 1));
    assert_eq!(
        resolve_kdf_params(Argon2Level::Standard, Some(8_192), None, Some(2)),
        (8_192, 3, 2)
    );
    assert_eq!(resolve_kdf_params(Argon2Level::Fast, None, Some(9), None), (32_768, 9, 1));
}

#[test]
fn cost_bounds_are_inclusive() {
    assert_eq!(validate_kdf_params(8_192, 1, 1), Ok(()));
    assert_eq!(validate_kdf_params(262_144, 10, 8), Ok(()));
    let memory = "invalid Argon2 memory cost: must be between 8192 and 262144 KiB".to_string();
    assert_eq!(validate_kdf_params(8_191, 1, 1), Err(memory.clone()));
    assert_eq!(validate_kdf_params(262_145, 0, 0), Err(memory));
    let time = "invalid Argon2 time cost: must be between 1 and 10".to_string();
    assert_eq!(validate_kdf_params(8_192, 0, 0), Err(time.clone()));
    assert_eq!(validate_kdf_params(8_192, 11, 1), Err(time));
    let parallelism = "invalid Argon2 parallelism: must be between 1 and 8".to_string();
    assert_eq!(validate_kdf_params(8_192, 1, 0), Err(parallelism.clone()));
    assert_eq!(validate_kdf_params(8_192, 1, 9), Err(parallelism));
}

#[test]
fn passphrase_rule() {
    let empty = Err("passphrase cannot be empty".to_string());
    assert_eq!(validate_passphrase(b"", false), empty);
    assert_eq!(validate_passphrase(b"", true), empty);
    assert_eq!(
        validate_passphrase(b"elevenbytes", false),
        Err("passphrase too weak: need at least 12 bytes".to_string())
    );
    assert_eq!(validate_passphrase(b"elevenbytes", true), Ok(()));
    assert_eq!(validate_passphrase(b"twelve bytes", false), Ok(()));
}

#[test]
fn argon2_says_what_it_refuses() {
    let salt = [0u8; 16];
    assert_eq!(derive_key(b"p", &salt, 7, 1, 1), Err("memory cost is too small".to_string()));
    assert_eq!(derive_key(b"p", &salt, 15, 1, 2), Err("memory cost is too small".to_string()));
    assert_eq!(derive_key(b"p", &salt, 8, 0, 1), Err("time cost is too small".to_string()));
    assert_eq!(derive_key(b"p", &salt, 8, 1, 0), Err("not enough threads".to_string()));
    assert_eq!(
        derive_key(b"p", &salt, 0x800_0000, 1, 0x100_0000),
        Err("too many threads".to_string())
    );
}

#[test]
fn keys_depend_on_every_argument() {
    let salt = [3u8; 16];
    let key = derive_key(b"passphrase", &salt, 64, 2, 1).expect("key");
    assert_eq!(derive_key(b"passphrase", &salt, 64, 2, 1), Ok(key));
    assert_ne!(derive_key(b"passphrasf", &salt, 64, 2, 1), Ok(key));
    assert_ne!(derive_key(b"passphrase", &[4u8; 16], 64, 2, 1), Ok(key));
    assert_ne!(derive_key(b"passphrase", &salt, 65, 2, 1), Ok(key));
    assert_ne!(derive_key(b"passphrase", &salt, 64, 3, 1), Ok(key));
    assert_ne!(derive_key(b"passphrase", &salt, 64, 2, 2), Ok(key));
}
