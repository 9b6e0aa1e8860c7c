use vstd::prelude::*;

verus! {

/// The round that follows `round`; the counter wraps at the end of its range.
pub open spec fn next_round(round: u64) -> u64 {
    if round == u64::MAX {
        0
    } else {
        (round + 1) as u64
    }
}

/// The round reached from `start` by `steps` advancements.
pub open spec fn advanced(start: u64, steps: nat) -> u64
    decreases steps,
{
    if steps == 0 {
        start
    } else {
        next_round(advanced(start, (steps - 1) as nat))
    }
}

/// Advancing `steps` times adds `steps` to the round, modulo the counter's
/// range; short of that range's end it adds exactly `steps`.
pub proof fn lemma_advanced_adds(start: u64, steps: nat)
    ensures
        advanced(start, steps) == (start + steps) % 0x1_0000_0000_0000_0000,
        start + steps <= u64::MAX ==> advanced(start, steps) == start + steps,
    decreases steps,
{
    if steps > 0 {
        lemma_advanced_adds(start, (steps - 1) as nat);
    }
}

/// The round counter: the current round number of the protocol.
pub struct RoundCounter {
    value: u64,
}

impl View for RoundCounter {
    type V = u64;

    closed spec fn view(&self) -> u64 {
        self.value
    }
}

impl RoundCounter {
    /// A counter that starts at `round`.
    pub fn new(round: u64) -> (counter: Self)
        ensures
            counter@ == round,
    {
        RoundCounter { value: round }
    }

    /// The current round.
    pub fn round(&self) -> (round: u64)
        ensures
            round == self@,
    {
        self.value
    }

    /// Advances the counter by exactly one round.
    pub fn increment_round(&mut self)
        ensures
            final(self)@ == next_round(old(self)@),
            final(self)@ == advanced(old(self)@, 1),
    {
        proof {
            reveal_with_fuel(advanced, 2);
        }
        self.value = self.value.wrapping_add(1);
    }
}

} // verus!
