//! What passphrases and key-derivation costs are acceptable.
use vstd::prelude::*;

use crate::external;

verus! {

/// The shortest passphrase that is taken without an override.
pub const MIN_PASSPHRASE_LEN: usize = 12;

/// Bounds of the Argon2 memory cost, in KiB.
pub const MIN_KDF_MEMORY_KIB: u32 = 8_192;

pub const MAX_KDF_MEMORY_KIB: u32 = 262_144;

/// Bounds of the Argon2 time cost.
pub const MIN_KDF_TIME_COST: u32 = 1;

pub const MAX_KDF_TIME_COST: u32 = 10;

/// Bounds of the Argon2 parallelism.
pub const MIN_KDF_PARALLELISM: u32 = 1;

pub const MAX_KDF_PARALLELISM: u32 = 8;

/// Preset of key-derivation costs.
#[derive(Copy, Clone, Debug, PartialEq, Eq, Structural)]
pub enum Argon2Level {
    Fast,
    Standard,
    Strong,
    Paranoid,
}

impl Default for Argon2Level {
    fn default() -> (level: Self)
        ensures
            level == Argon2Level::Standard,
    {
        Argon2Level::Standard
    }
}

/// The memory cost, time cost and parallelism of a preset.
pub open spec fn level_costs(level: Argon2Level) -> (u32, u32, u32) {
    match level {
        Argon2Level::Fast => (32_768, 2, 1),
        Argon2Level::Standard => (65_536, 3, 1),
        Argon2Level::Strong => (131_072, 4, 1),
        Argon2Level::Paranoid => (262_144, 5, 1),
    }
}

/// The memory cost, time cost and parallelism of a preset.
pub fn kdf_costs_for_level(level: Argon2Level) -> (costs: (u32, u32, u32))
    ensures
        costs == level_costs(level),
{
    match level {
        Argon2Level::Fast => (32_768, 2, 1),
        Argon2Level::Standard => (65_536, 3, 1),
        Argon2Level::Strong => (131_072, 4, 1),
        Argon2Level::Paranoid => (262_144, 5, 1),
    }
}

/// The costs to use when a preset is given and any of its values may be
/// overridden one by one.
pub fn resolve_kdf_params(
    level: Argon2Level,
    kdf_memory_kib: Option<u32>,
    kdf_time_cost: Option<u32>,
    kdf_parallelism: Option<u32>,
) -> (costs: (u32, u32, u32))
    ensures
        costs.0 == (match kdf_memory_kib {
            Some(given) => given,
            None => level_costs(level).0,
        }),
        costs.1 == (match kdf_time_cost {
            Some(given) => given,
            None => level_costs(level).1,
        }),
        costs.2 == (match kdf_parallelism {
            Some(given) => given,
            None => level_costs(level).2,
        }),
{
    let (preset_mem, preset_time, preset_parallelism): (u32, u32, u32) = kdf_costs_for_level(level);
    (
        kdf_memory_kib.unwrap_or(preset_mem),
        kdf_time_cost.unwrap_or(preset_time),
        kdf_parallelism.unwrap_or(preset_parallelism),
    )
}

/// The number that stands for a preset: 0 to 3, from the fastest to the strongest.
pub open spec fn level_number(level: Argon2Level) -> u32 {
    match level {
        Argon2Level::Fast => 0,
        Argon2Level::Standard => 1,
        Argon2Level::Strong => 2,
        Argon2Level::Paranoid => 3,
    }
}

/// The preset that a number stands for.
pub fn level_from_u32(level: u32) -> (r: Result<Argon2Level, String>)
    ensures
        level == 0 ==> (r matches Ok(preset) && preset == Argon2Level::Fast),
        level == 1 ==> (r matches Ok(preset) && preset == Argon2Level::Standard),
        level == 2 ==> (r matches Ok(preset) && preset == Argon2Level::Strong),
        level == 3 ==> (r matches Ok(preset) && preset == Argon2Level::Paranoid),
        level <= 3 ==> (r matches Ok(preset) && level_number(preset) == level),
        level > 3 ==> (r matches Err(e) && e@
            == "invalid level (expected 0=fast, 1=standard, 2=strong, 3=paranoid)"@),
{
    match level {
        0 => Ok(Argon2Level::Fast),
        1 => Ok(Argon2Level::Standard),
        2 => Ok(Argon2Level::Strong),
        3 => Ok(Argon2Level::Paranoid),
        _ => Err(
            "invalid level (expected 0=fast, 1=standard, 2=strong, 3=paranoid)".to_string(),
        ),
    }
}

/// Why a passphrase is refused; `None` if it is not.
pub open spec fn passphrase_refusal(passphrase: Seq<u8>, allow_weak: bool) -> Option<Seq<char>> {
    if passphrase.len() == 0 {
        Some("passphrase cannot be empty"@)
    } else if !allow_weak && passphrase.len() < MIN_PASSPHRASE_LEN {
        Some("passphrase too weak: need at least 12 bytes"@)
    } else {
        None
    }
}

/// Refuses an empty passphrase, and, without the override, a short one.
pub fn validate_passphrase(passphrase: &[u8], allow_weak_passphrase: bool) -> (r: Result<
    (),
    String,
>)
    ensures
        r is Ok <==> passphrase_refusal(passphrase@, allow_weak_passphrase) is None,
        r matches Err(e) ==> passphrase_refusal(passphrase@, allow_weak_passphrase) == Some(e@),
{
    if passphrase.len() == 0 {
        return Err("passphrase cannot be empty".to_string());
    }
    if !allow_weak_passphrase && passphrase.len() < MIN_PASSPHRASE_LEN {
        return Err("passphrase too weak: need at least 12 bytes".to_string());
    }
    Ok(())
}

/// The cost tuples that the policy takes.
pub open spec fn costs_in_policy(mem_cost: u32, time_cost: u32, parallelism: u32) -> bool {
    &&& MIN_KDF_MEMORY_KIB <= mem_cost <= MAX_KDF_MEMORY_KIB
    &&& MIN_KDF_TIME_COST <= time_cost <= MAX_KDF_TIME_COST
    &&& MIN_KDF_PARALLELISM <= parallelism <= MAX_KDF_PARALLELISM
}

/// Why a cost tuple is refused; `None` if it is not. Of several reasons the first
/// one counts: memory, time, parallelism, and then what Argon2 itself refuses.
pub open spec fn costs_refusal(mem_cost: u32, time_cost: u32, parallelism: u32) -> Option<
    Seq<char>,
> {
    if !(MIN_KDF_MEMORY_KIB <= mem_cost <= MAX_KDF_MEMORY_KIB) {
        Some("invalid Argon2 memory cost: must be between 8192 and 262144 KiB"@)
    } else if !(MIN_KDF_TIME_COST <= time_cost <= MAX_KDF_TIME_COST) {
        Some("invalid Argon2 time cost: must be between 1 and 10"@)
    } else if !(MIN_KDF_PARALLELISM <= parallelism <= MAX_KDF_PARALLELISM) {
        Some("invalid Argon2 parallelism: must be between 1 and 8"@)
    } else if external::argon2_refusal(mem_cost, time_cost, parallelism) is Some {
        Some("invalid Argon2 parameters"@)
    } else {
        None
    }
}

/// Refuses cost tuples outside the policy or outside what Argon2 takes.
pub fn validate_kdf_params(mem_cost: u32, time_cost: u32, parallelism: u32) -> (r: Result<
    (),
    String,
>)
    ensures
        r is Ok <==> costs_refusal(mem_cost, time_cost, parallelism) is None,
        r matches Err(e) ==> costs_refusal(mem_cost, time_cost, parallelism) == Some(e@),
{
    if mem_cost < MIN_KDF_MEMORY_KIB || mem_cost > MAX_KDF_MEMORY_KIB {
        return Err(
            "invalid Argon2 memory cost: must be between 8192 and 262144 KiB".to_string(),
        );
    }
    if time_cost < MIN_KDF_TIME_COST || time_cost > MAX_KDF_TIME_COST {
        return Err("invalid Argon2 time cost: must be between 1 and 10".to_string());
    }
    if parallelism < MIN_KDF_PARALLELISM || parallelism > MAX_KDF_PARALLELISM {
        return Err("invalid Argon2 parallelism: must be between 1 and 8".to_string());
    }
    match external::argon2_params(mem_cost, time_cost, parallelism) {
        Ok(()) => Ok(()),
        Err(_) => Err("invalid Argon2 parameters".to_string()),
    }
}

/// What key derivation yields: the key, or the words of its failure.
pub open spec fn derived_key(
    passphrase: Seq<u8>,
    salt: Seq<u8>,
    mem_cost: u32,
    time_cost: u32,
    parallelism: u32,
) -> Result<Seq<u8>, Seq<char>> {
    match external::argon2_refusal(mem_cost, time_cost, parallelism) {
        Some(text) => Err(text),
        None => if passphrase.len() > external::MAX_ARGON2_PASSWORD_LEN {
            Err("password is too long"@)
        } else {
            Ok(external::argon2id_key(passphrase, salt, mem_cost, time_cost, parallelism))
        },
    }
}

/// Derives the key of a file with Argon2id.
pub fn derive_key(
    passphrase: &[u8],
    salt: &[u8; external::SALT_LEN],
    mem_cost: u32,
    time_cost: u32,
    parallelism: u32,
) -> (r: Result<[u8; external::KEY_LEN], String>)
    requires
        external::argon2_can_run(mem_cost, parallelism),
    ensures
        r is Ok <==> external::argon2_refusal(mem_cost, time_cost, parallelism) is None
            && passphrase@.len() <= 0xffff_ffff,
        r matches Ok(key) ==> key@ == external::argon2id_key(
            passphrase@,
            salt@,
            mem_cost,
            time_cost,
            parallelism,
        ),
        r matches Ok(key) ==> derived_key(passphrase@, salt@, mem_cost, time_cost, parallelism)
            == Ok::<Seq<u8>, Seq<char>>(key@),
        r matches Err(e) ==> derived_key(passphrase@, salt@, mem_cost, time_cost, parallelism)
            == Err::<Seq<u8>, Seq<char>>(e@),
{
    match external::argon2_params(mem_cost, time_cost, parallelism) {
        Ok(()) => external::argon2id(passphrase, salt, mem_cost, time_cost, parallelism),
        Err(e) => Err(e),
    }
}

/// The policy is the whole of the cost rule: a tuple is refused if and only if it is
/// outside the policy, for Argon2 takes every tuple inside it.
pub proof fn law_policy_decides(mem_cost: u32, time_cost: u32, parallelism: u32)
    ensures
        costs_refusal(mem_cost, time_cost, parallelism) is None <==> costs_in_policy(
            mem_cost,
            time_cost,
            parallelism,
        ),
        costs_in_policy(mem_cost, time_cost, parallelism) ==> external::argon2_refusal(
            mem_cost,
            time_cost,
            parallelism,
        ) is None,
{
}

/// Every preset is inside the policy.
pub proof fn law_presets_are_valid(level: Argon2Level)
    ensures
        costs_in_policy(level_costs(level).0, level_costs(level).1, level_costs(level).2),
{
}

/// The override lifts the length rule and nothing else: with it every passphrase but
/// the empty one is taken, and what is taken without it is taken with it.
pub proof fn law_override_admits_short_passphrases(passphrase: Seq<u8>)
    ensures
        passphrase_refusal(passphrase, true) is None <==> passphrase.len() > 0,
        passphrase_refusal(passphrase, false) is None <==> passphrase.len() >= MIN_PASSPHRASE_LEN,
{
}

/// What each preset costs, and the number that stands for it.
pub proof fn law_presets_have_their_costs()
    ensures
        level_costs(Argon2Level::Fast) == (32_768u32, 2u32, 1u32),
        level_costs(Argon2Level::Standard) == (65_536u32, 3u32, 1u32),
        level_costs(Argon2Level::Strong) == (131_072u32, 4u32, 1u32),
        level_costs(Argon2Level::Paranoid) == (262_144u32, 5u32, 1u32),
        level_number(Argon2Level::Fast) == 0,
        level_number(Argon2Level::Standard) == 1,
        level_number(Argon2Level::Strong) == 2,
        level_number(Argon2Level::Paranoid) == 3,
{
}

/// A passphrase is refused if it is empty, and, unless weak ones are allowed, if it has fewer
/// than 12 bytes; nothing else about it counts.
pub proof fn law_passphrase_rule(passphrase: Seq<u8>, allow_weak: bool)
    ensures
        passphrase_refusal(passphrase, allow_weak) is None <==> passphrase.len() >= 1 && (allow_weak
            || passphrase.len() >= 12),
        passphrase.len() == 0 ==> passphrase_refusal(passphrase, allow_weak) == Some(
            "passphrase cannot be empty"@,
        ),
        1 <= passphrase.len() < 12 ==> passphrase_refusal(passphrase, false) == Some(
            "passphrase too weak: need at least 12 bytes"@,
        ),
{
}

/// Costs are acceptable if and only if the memory is between 8192 and 262144 KiB, the time
/// cost between 1 and 10, and the parallelism between 1 and 8; the first cost outside its
/// bounds is the one that is named.
pub proof fn law_cost_rule(mem_cost: u32, time_cost: u32, parallelism: u32)
    ensures
        costs_refusal(mem_cost, time_cost, parallelism) is None <==> 8_192 <= mem_cost <= 262_144
            && 1 <= time_cost <= 10 && 1 <= parallelism <= 8,
        costs_in_policy(mem_cost, time_cost, parallelism) <==> 8_192 <= mem_cost <= 262_144 && 1
            <= time_cost <= 10 && 1 <= parallelism <= 8,
        mem_cost < 8_192 || mem_cost > 262_144 ==> costs_refusal(mem_cost, time_cost, parallelism)
            == Some("invalid Argon2 memory cost: must be between 8192 and 262144 KiB"@),
        8_192 <= mem_cost <= 262_144 && (time_cost < 1 || time_cost > 10) ==> costs_refusal(
            mem_cost,
            time_cost,
            parallelism,
        ) == Some("invalid Argon2 time cost: must be between 1 and 10"@),
        8_192 <= mem_cost <= 262_144 && 1 <= time_cost <= 10 && (parallelism < 1 || parallelism
            > 8) ==> costs_refusal(mem_cost, time_cost, parallelism) == Some(
            "invalid Argon2 parallelism: must be between 1 and 8"@,
        ),
{
}

/// Argon2 takes a cost tuple if and only if there is a pass and a lane, at most 2^24 - 1
/// lanes, and 8 KiB of memory for each lane; the first thing missing is the one it names.
pub proof fn law_argon2_rule(mem_cost: u32, time_cost: u32, parallelism: u32)
    ensures
        external::argon2_refusal(mem_cost, time_cost, parallelism) is None <==> mem_cost >= 8
            && mem_cost >= 8 * parallelism && time_cost >= 1 && 1 <= parallelism <= 16_777_215,
        mem_cost < 8 || mem_cost < 8 * parallelism ==> external::argon2_refusal(
            mem_cost,
            time_cost,
            parallelism,
        ) == Some("memory cost is too small"@),
        mem_cost >= 8 && mem_cost >= 8 * parallelism && time_cost == 0 ==> external::argon2_refusal(
            mem_cost,
            time_cost,
            parallelism,
        ) == Some("time cost is too small"@),
        mem_cost >= 8 && time_cost >= 1 && parallelism == 0 ==> external::argon2_refusal(
            mem_cost,
            time_cost,
            parallelism,
        ) == Some("not enough threads"@),
        mem_cost >= 8 * parallelism && time_cost >= 1 && parallelism > 16_777_215
            ==> external::argon2_refusal(mem_cost, time_cost, parallelism) == Some(
            "too many threads"@,
        ),
        external::argon2_can_run(mem_cost, parallelism) <==> 8 * parallelism <= u32::MAX && 1024
            * mem_cost <= isize::MAX,
{
}

/// The key is Argon2id of the whole passphrase, the whole salt and the three costs, for every
/// passphrase of at most 2^32 - 1 bytes and all costs that Argon2 takes.
pub proof fn law_key_comes_from_the_whole_passphrase(
    passphrase: Seq<u8>,
    salt: Seq<u8>,
    mem_cost: u32,
    time_cost: u32,
    parallelism: u32,
)
    ensures
        mem_cost >= 8 && mem_cost >= 8 * parallelism && time_cost >= 1 && 1 <= parallelism
            <= 16_777_215 && passphrase.len() <= 0xffff_ffff ==> derived_key(
            passphrase,
            salt,
            mem_cost,
            time_cost,
            parallelism,
        ) == Ok::<Seq<u8>, Seq<char>>(
            external::argon2id_key(passphrase, salt, mem_cost, time_cost, parallelism),
        ),
        mem_cost >= 8 && mem_cost >= 8 * parallelism && time_cost >= 1 && 1 <= parallelism
            <= 16_777_215 && passphrase.len() > 0xffff_ffff ==> derived_key(
            passphrase,
            salt,
            mem_cost,
            time_cost,
            parallelism,
        ) == Err::<Seq<u8>, Seq<char>>("password is too long"@),
        external::argon2_refusal(mem_cost, time_cost, parallelism) matches Some(text)
            ==> derived_key(passphrase, salt, mem_cost, time_cost, parallelism) == Err::<
            Seq<u8>,
            Seq<char>,
        >(text),
{
}

} // verus!
