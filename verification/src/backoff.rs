//! How long to wait before trying again.

use vstd::arithmetic::power2::*;
use vstd::prelude::*;

use crate::primitives;

verus! {

/// The wait that is doubled with every attempt.
pub const RETRY_BASE_MS: u64 = 1_000;

/// The longest wait, before jitter.
pub const RETRY_MAX_DELAY_MS: u64 = 60_000;

/// The wait after `attempts` attempts, before jitter.
pub open spec fn plain_delay(attempts: u32) -> u64 {
    let doubled = RETRY_BASE_MS * pow2(attempts as nat);
    if doubled < RETRY_MAX_DELAY_MS {
        doubled as u64
    } else {
        RETRY_MAX_DELAY_MS
    }
}

/// The wait after `attempts` attempts: up to a quarter is added at random, so that nodes do not
/// retry in step.
pub open spec fn delay_with(attempts: u32, random: u64) -> u64 {
    let plain = plain_delay(attempts);
    (plain + random % (plain / 4 + 1) as u64) as u64
}

/// The wait is at least one second and at most seventy-five, grows with the attempts before
/// jitter, and jitter adds at most a quarter.
pub proof fn law_delay_is_bounded(attempts: u32, more: u32, random: u64)
    requires
        attempts <= more,
    ensures
        RETRY_BASE_MS <= plain_delay(attempts) <= RETRY_MAX_DELAY_MS,
        plain_delay(attempts) <= plain_delay(more),
        plain_delay(attempts) <= delay_with(attempts, random) <= plain_delay(attempts)
            + plain_delay(attempts) / 4,
        delay_with(attempts, random) <= 75_000,
{
    lemma_pow2_pos(attempts as nat);
    if attempts < more {
        lemma_pow2_strictly_increases(attempts as nat, more as nat);
    }
    let plain = plain_delay(attempts);
    assert(random % (plain / 4 + 1) as u64 <= plain / 4);
}

/// The wait after `attempts` attempts, with the given random number for jitter.
pub fn retry_delay_ms(attempts: u32, random: u64) -> (delay: u64)
    ensures
        delay == delay_with(attempts, random),
        delay <= 75_000,
{
    let mut plain: u64 = RETRY_BASE_MS;
    let mut i: u32 = 0;
    assert(pow2(0) == 1) by {
        lemma2_to64();
    }
    while i < attempts && plain < RETRY_MAX_DELAY_MS
        invariant
            i <= attempts,
            plain == if RETRY_BASE_MS * pow2(i as nat) < RETRY_MAX_DELAY_MS {
                RETRY_BASE_MS * pow2(i as nat)
            } else {
                RETRY_MAX_DELAY_MS as int
            },
        decreases attempts - i,
    {
        proof {
            lemma_pow2_unfold((i + 1) as nat);
        }
        plain = if plain * 2 < RETRY_MAX_DELAY_MS {
            plain * 2
        } else {
            RETRY_MAX_DELAY_MS
        };
        i += 1;
    }
    proof {
        if i < attempts {
            lemma_pow2_strictly_increases(i as nat, attempts as nat);
        }
        law_delay_is_bounded(attempts, attempts, random);
    }
    assert(plain == plain_delay(attempts));
    let jitter: u64 = random % (plain / 4 + 1);
    plain + jitter
}

/// The number eight bytes stand for, least significant first.
fn from_le_bytes(b: &[u8; 8]) -> (number: u64)
    ensures
        number == b@[0] + b@[1] * 0x100 + b@[2] * 0x1_0000 + b@[3] * 0x100_0000 + b@[4]
            * 0x1_0000_0000 + b@[5] * 0x100_0000_0000 + b@[6] * 0x1_0000_0000_0000 + b@[7]
            * 0x100_0000_0000_0000,
{
    b[0] as u64 + b[1] as u64 * 0x100 + b[2] as u64 * 0x1_0000 + b[3] as u64 * 0x100_0000
        + b[4] as u64 * 0x1_0000_0000 + b[5] as u64 * 0x100_0000_0000 + b[6] as u64
        * 0x1_0000_0000_0000 + b[7] as u64 * 0x100_0000_0000_0000
}

/// A fresh random number for jitter. Any number may come out.
pub fn random_jitter() -> (random: u64) {
    let raw: [u8; 8] = primitives::random_bytes();
    from_le_bytes(&raw)
}

/// The wait after `attempts` attempts, with fresh random jitter.
pub fn next_retry_delay_ms(attempts: u32) -> (delay: u64)
    ensures
        plain_delay(attempts) <= delay <= plain_delay(attempts) + plain_delay(attempts) / 4,
        exists|random: u64| delay == #[trigger] delay_with(attempts, random),
{
    let random: u64 = random_jitter();
    proof {
        law_delay_is_bounded(attempts, attempts, random);
    }
    retry_delay_ms(attempts, random)
}

/// The wait starts at one second, doubles with every attempt until it has reached a minute, and
/// stays there. Jitter can add any number of milliseconds up to a quarter of it.
pub proof fn law_delay_doubles(attempts: u32, jitter: u64)
    ensures
        plain_delay(0) == 1_000,
        attempts < u32::MAX ==> plain_delay((attempts + 1) as u32) == if 2 * plain_delay(attempts)
            < 60_000 {
            2 * plain_delay(attempts)
        } else {
            60_000
        },
        jitter <= plain_delay(attempts) / 4 ==> delay_with(attempts, jitter) == plain_delay(attempts)
            + jitter,
        plain_delay(attempts) <= delay_with(attempts, jitter) <= plain_delay(attempts)
            + plain_delay(attempts) / 4,
{
    law_delay_is_bounded(attempts, attempts, jitter);
    assert(pow2(0) == 1) by {
        lemma2_to64();
    }
    lemma_pow2_unfold((attempts + 1) as nat);
    let plain = plain_delay(attempts);
    if jitter <= plain / 4 {
        vstd::arithmetic::div_mod::lemma_small_mod(jitter as nat, (plain / 4 + 1) as nat);
    }
}

} // verus!
