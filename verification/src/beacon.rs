//! The schedule of the randomness beacon: which round is current at which
//! time.
use vstd::prelude::*;

verus! {

/// The time of the beacon's first round, in seconds since the epoch.
pub const GENESIS_TIME: u64 = 1692803367;

/// The seconds that pass between two rounds of the beacon.
pub const PERIOD: u64 = 3;

/// The round that is current at time `t`: one more than the number of whole
/// periods since the first round.
pub open spec fn round_at(t: int) -> int {
    (t - GENESIS_TIME) / (PERIOD as int) + 1
}

/// The time at which round `r` begins.
pub open spec fn round_start(r: int) -> int {
    GENESIS_TIME + (r - 1) * PERIOD
}

/// The round that is current at time `now`.
pub fn current_round(now: u64) -> (r: u64)
    requires
        now >= GENESIS_TIME,
    ensures
        r == round_at(now as int),
        r >= 1,
{
    (now - GENESIS_TIME) / PERIOD + 1
}

/// Rounds never go back as time goes on.
pub proof fn lemma_round_monotone(earlier: int, later: int)
    requires
        earlier <= later,
    ensures
        round_at(earlier) <= round_at(later),
{
}

/// A round lasts from its start to the start of the next: the round at `t`
/// is past round `r` exactly when the round after `r` has begun.
pub proof fn lemma_round_exceeds(t: int, r: int)
    ensures
        round_at(t) > r <==> t >= round_start(r + 1),
        round_at(t) == r <==> round_start(r) <= t < round_start(r + 1),
{
}

/// One period later the round is one higher.
pub proof fn lemma_round_steps_with_period(t: int)
    ensures
        round_at(t + PERIOD) == round_at(t) + 1,
{
}

} // verus!
