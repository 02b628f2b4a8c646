use vstd::prelude::*;

verus! {

/// Persistent-entry TTL threshold below which a vault entry is extended.
pub const VAULT_TTL_THRESHOLD: u32 = 1000;
/// Lower bound, in ledgers, of a vault entry's TTL.
pub const VAULT_TTL_LEDGERS: u32 = 200_000;
/// Instance-storage TTL threshold below which the instance is extended.
pub const INSTANCE_TTL_THRESHOLD: u32 = 1000;
/// TTL, in ledgers, that instance storage is extended to.
pub const INSTANCE_TTL_LEDGERS: u32 = 200_000;
/// Approximate ledger close time in seconds (Stellar mainnet closes a ledger about every 5 s).
pub const LEDGER_SECOND: u32 = 5;
/// Maximum persistent entry TTL in ledgers (about 180 days at 5 s per ledger).
pub const MAX_PERSISTENT_TTL: u32 = 3_110_400;

/// The storage TTL, in ledgers, that a vault with the given check-in interval
/// gets: twice the interval, in ledgers, held between `VAULT_TTL_LEDGERS` and
/// `MAX_PERSISTENT_TTL`.
pub open spec fn ttl_ledgers_for(check_in_interval: u64) -> u32 {
    let ledgers = 2 * check_in_interval / (LEDGER_SECOND as int);
    let raised = if ledgers < VAULT_TTL_LEDGERS { VAULT_TTL_LEDGERS as int } else { ledgers };
    (if raised > MAX_PERSISTENT_TTL { MAX_PERSISTENT_TTL as int } else { raised }) as u32
}

/// Computes a persistent storage TTL (in ledgers) for a vault with the given
/// check-in interval: a 2x safety buffer so storage outlives the interval,
/// capped at the maximum persistent TTL.
pub fn vault_ttl_ledgers(check_in_interval: u64) -> (ledgers: u32)
    ensures
        ledgers == ttl_ledgers_for(check_in_interval),
        VAULT_TTL_LEDGERS <= ledgers <= MAX_PERSISTENT_TTL,
{
    // Past this interval the doubled interval, in ledgers, exceeds the cap.
    let cap_seconds: u64 = 5 * (MAX_PERSISTENT_TTL as u64);
    if check_in_interval >= cap_seconds {
        return MAX_PERSISTENT_TTL;
    }
    let ledgers: u64 = check_in_interval * 2 / (LEDGER_SECOND as u64);
    if ledgers < VAULT_TTL_LEDGERS as u64 {
        VAULT_TTL_LEDGERS
    } else if ledgers > MAX_PERSISTENT_TTL as u64 {
        MAX_PERSISTENT_TTL
    } else {
        ledgers as u32
    }
}

} // verus!
