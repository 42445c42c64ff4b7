//! Rate limits for repeated warnings.

use crate::clock::CLOCK_END;
use crate::key_map::KeyMap;
use crate::types::DcKey;
use std::collections::HashMap;
use vstd::prelude::*;

verus! {

broadcast use vstd::std_specs::hash::group_hash_axioms;

/// Whether a warning about `key` may be given at `now`.
pub open spec fn warn_due<K>(next_allowed: Map<K, u128>, key: K, now: u128) -> bool {
    next_allowed.contains_key(key) ==> now >= next_allowed[key]
}

/// The earliest times of the next warnings, once `key` was considered.
pub open spec fn after_warn<K>(
    next_allowed: Map<K, u128>,
    key: K,
    now: u128,
    cooldown: u128,
) -> Map<K, u128> {
    if warn_due(next_allowed, key, now) {
        next_allowed.insert(key, (now + cooldown) as u128)
    } else {
        next_allowed
    }
}

/// Whether to warn about a writer now; if so, the next warning about it has to
/// wait for the cooldown.
pub fn should_emit_writer_warn(
    next_allowed: &mut HashMap<u64, u128>,
    writer_id: u64,
    now: u128,
    cooldown: u128,
) -> (emit: bool)
    requires
        now <= CLOCK_END,
        cooldown <= CLOCK_END,
    ensures
        emit == warn_due(old(next_allowed)@, writer_id, now),
        final(next_allowed)@ == after_warn(old(next_allowed)@, writer_id, now, cooldown),
{
    let ready_at: u128 = match next_allowed.get(&writer_id) {
        Some(ready_at) => *ready_at,
        None => {
            next_allowed.insert(writer_id, now + cooldown);
            return true;
        },
    };
    if now >= ready_at {
        next_allowed.insert(writer_id, now + cooldown);
        return true;
    }
    false
}

/// Whether to warn about a data centre now; if so, the next warning about it
/// has to wait for the cooldown.
pub fn should_emit_rate_limited_warn(
    next_allowed: &mut KeyMap<DcKey, u128>,
    key: DcKey,
    now: u128,
    cooldown: u128,
) -> (emit: bool)
    requires
        now <= CLOCK_END,
        cooldown <= CLOCK_END,
    ensures
        emit == warn_due(old(next_allowed)@, key, now),
        final(next_allowed)@ == after_warn(old(next_allowed)@, key, now, cooldown),
{
    let ready_at: u128 = match next_allowed.get(&key) {
        Some(ready_at) => *ready_at,
        None => {
            next_allowed.insert(key, now + cooldown);
            return true;
        },
    };
    if now >= ready_at {
        next_allowed.insert(key, now + cooldown);
        return true;
    }
    false
}

/// Two warnings about one key lie at least the cooldown apart: after a warning
/// at `now` the next is due from `now + cooldown` on and not before. Other keys
/// are not held back.
pub proof fn warnings_keep_their_distance<K>(
    next_allowed: Map<K, u128>,
    key: K,
    now: u128,
    cooldown: u128,
    other: K,
    later: u128,
)
    requires
        warn_due(next_allowed, key, now),
        now + cooldown <= u128::MAX,
    ensures
        warn_due(after_warn(next_allowed, key, now, cooldown), key, later) <==> later >= now
            + cooldown,
        other != key ==> (warn_due(after_warn(next_allowed, key, now, cooldown), other, later)
            <==> warn_due(next_allowed, other, later)),
{
}

/// What was never warned about may be warned about at once, and what may be at
/// one time may be at every later one. A warning that is held back changes
/// nothing, and one that is given sets the time of the next for its key alone.
pub proof fn first_warning_is_due<K>(
    next_allowed: Map<K, u128>,
    key: K,
    now: u128,
    later: u128,
    cooldown: u128,
    other: K,
)
    requires
        now <= later,
        now + cooldown <= u128::MAX,
    ensures
        !next_allowed.contains_key(key) ==> warn_due(next_allowed, key, now),
        warn_due(next_allowed, key, now) ==> warn_due(next_allowed, key, later),
        next_allowed.contains_key(key) && next_allowed[key] > now ==> !warn_due(
            next_allowed,
            key,
            now,
        ) && after_warn(next_allowed, key, now, cooldown) == next_allowed,
        next_allowed.contains_key(key) && next_allowed[key] <= now ==> warn_due(
            next_allowed,
            key,
            now,
        ),
        warn_due(next_allowed, key, now) ==> after_warn(
            next_allowed,
            key,
            now,
            cooldown,
        ).contains_key(key) && after_warn(next_allowed, key, now, cooldown)[key] == now + cooldown,
        other != key ==> after_warn(next_allowed, key, now, cooldown).contains_key(other)
            == next_allowed.contains_key(other),
        other != key && next_allowed.contains_key(other) ==> after_warn(
            next_allowed,
            key,
            now,
            cooldown,
        )[other] == next_allowed[other],
{
}

} // verus!
