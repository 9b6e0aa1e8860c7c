use crate::error::CommitteeError;
use std::collections::HashMap;
use vstd::prelude::*;
use vstd::std_specs::iter::IteratorSpec;

verus! {

/// The key that stands for a validator: opaque, compared and hashed only.
pub type ValidatorId = u64;

/// The sum of all stakes that a membership map holds.
pub open spec fn stake_sum(m: Map<ValidatorId, u64>) -> nat
    decreases m.dom().len(),
    when m.dom().finite()
    via stake_sum_decreases
{
    if m.dom().len() > 0 {
        let k = m.dom().choose();
        m[k] as nat + stake_sum(m.remove(k))
    } else {
        0
    }
}

#[via_fn]
proof fn stake_sum_decreases(m: Map<ValidatorId, u64>) {
    if m.dom().len() > 0 {
        let k = m.dom().choose();
        vstd::set_lib::axiom_is_empty_len0(m.dom());
        assert(m.dom().contains(k));
        assert(m.remove(k).dom() =~= m.dom().remove(k));
    }
}

/// The stake required to certify a decision: more than two thirds of `total`.
pub open spec fn quorum_of(total: nat) -> nat {
    2 * total / 3 + 1
}

/// The stake that guarantees one honest contribution: a third of `total`, rounded up.
pub open spec fn availability_of(total: nat) -> nat {
    (total + 2) / 3
}

/// Any member's stake can be split off the sum.
pub proof fn lemma_stake_sum_remove(m: Map<ValidatorId, u64>, k: ValidatorId)
    requires
        m.dom().finite(),
        m.contains_key(k),
    ensures
        stake_sum(m) == m[k] as nat + stake_sum(m.remove(k)),
    decreases m.dom().len(),
{
    let c = m.dom().choose();
    assert(m.dom().len() > 0) by {
        if m.dom().len() == 0 {
            vstd::set_lib::axiom_is_empty_len0(m.dom());
        }
    }
    if c != k {
        assert(m.dom().contains(c));
        assert(m.remove(c).dom() =~= m.dom().remove(c));
        assert(m.remove(k).dom() =~= m.dom().remove(k));
        lemma_stake_sum_remove(m.remove(c), k);
        lemma_stake_sum_remove(m.remove(k), c);
        assert(m.remove(c).remove(k) =~= m.remove(k).remove(c));
    }
}

/// A new member adds exactly its stake to the sum.
pub proof fn lemma_stake_sum_insert(m: Map<ValidatorId, u64>, k: ValidatorId, stake: u64)
    requires
        m.dom().finite(),
        !m.contains_key(k),
    ensures
        stake_sum(m.insert(k, stake)) == stake_sum(m) + stake as nat,
{
    lemma_stake_sum_remove(m.insert(k, stake), k);
    assert(m.insert(k, stake).remove(k) =~= m);
}

/// The membership after one registration: a validator that is present already
/// leaves it unchanged.
pub open spec fn register(m: Map<ValidatorId, u64>, id: ValidatorId, stake: u64) -> Map<
    ValidatorId,
    u64,
> {
    if m.contains_key(id) {
        m
    } else {
        m.insert(id, stake)
    }
}

/// The membership after registering each pair of `calls` in turn, starting
/// from the empty ledger.
pub open spec fn register_all(calls: Seq<(ValidatorId, u64)>) -> Map<ValidatorId, u64>
    decreases calls.len(),
{
    if calls.len() == 0 {
        Map::empty()
    } else {
        register(register_all(calls.drop_last()), calls.last().0, calls.last().1)
    }
}

/// Whether no validator occurs twice in `calls`.
pub open spec fn distinct_validators(calls: Seq<(ValidatorId, u64)>) -> bool {
    forall|i: int, j: int| 0 <= i < j < calls.len() ==> calls[i].0 != calls[j].0
}

/// Registrations of distinct validators all take effect: the ledger then has
/// one member for each call, each with the stake it was registered with, and
/// its total is the sum of the stakes registered.
pub proof fn lemma_register_distinct(calls: Seq<(ValidatorId, u64)>)
    requires
        distinct_validators(calls),
    ensures
        register_all(calls).dom().finite(),
        register_all(calls).dom().len() == calls.len(),
        stake_sum(register_all(calls)) == pair_sum(calls),
        forall|i: int|
            0 <= i < calls.len() ==> register_all(calls).contains_key(#[trigger] calls[i].0)
                && register_all(calls)[calls[i].0] == calls[i].1,
        forall|id: ValidatorId|
            register_all(calls).contains_key(id) ==> exists|i: int|
                0 <= i < calls.len() && #[trigger] calls[i].0 == id,
    decreases calls.len(),
{
    if calls.len() > 0 {
        let rest = calls.drop_last();
        let last = calls.last();
        let before = register_all(rest);
        assert forall|i: int, j: int| 0 <= i < j < rest.len() implies rest[i].0 != rest[j].0 by {
            assert(calls[i].0 != calls[j].0);
        }
        lemma_register_distinct(rest);
        if before.contains_key(last.0) {
            let i = choose|i: int| 0 <= i < rest.len() && #[trigger] rest[i].0 == last.0;
            assert(calls[i].0 != calls[calls.len() - 1].0);
        }
        lemma_stake_sum_insert(before, last.0, last.1);
        let after = register_all(calls);
        assert(after == before.insert(last.0, last.1));
        assert forall|i: int| 0 <= i < calls.len() implies after.contains_key(
            #[trigger] calls[i].0,
        ) && after[calls[i].0] == calls[i].1 by {
            if i < rest.len() {
                assert(rest[i] == calls[i]);
                assert(calls[i].0 != calls[calls.len() - 1].0);
            }
        }
        assert forall|id: ValidatorId| after.contains_key(id) implies exists|i: int|
            0 <= i < calls.len() && #[trigger] calls[i].0 == id by {
            if id == last.0 {
                assert(calls[calls.len() - 1].0 == id);
            } else {
                let i = choose|i: int| 0 <= i < rest.len() && #[trigger] rest[i].0 == id;
                assert(calls[i].0 == id);
            }
        }
    }
}

/// Three times the quorum threshold lies above twice the total, by at most three.
pub proof fn lemma_quorum_bounds(total: nat)
    ensures
        3 * quorum_of(total) > 2 * total,
        3 * quorum_of(total) <= 2 * total + 3,
{
}

/// The availability threshold is a third of the total, rounded up.
pub proof fn lemma_availability_bounds(total: nat)
    ensures
        3 * availability_of(total) >= total,
        3 * availability_of(total) <= total + 2,
{
}

/// Quorum and availability together exceed the total by exactly one.
pub proof fn lemma_thresholds_complement(total: nat)
    ensures
        quorum_of(total) + availability_of(total) == total + 1,
{
}

/// The quorum threshold of a stake total.
pub fn quorum_for_total(total: u64) -> (threshold: u64)
    ensures
        threshold == quorum_of(total as nat),
        3 * threshold > 2 * total,
        3 * threshold <= 2 * total + 3,
{
    let doubled: u128 = 2 * (total as u128);
    (doubled / 3 + 1) as u64
}

/// The availability threshold of a stake total.
pub fn availability_for_total(total: u64) -> (threshold: u64)
    ensures
        threshold == availability_of(total as nat),
        3 * threshold >= total,
        3 * threshold <= total + 2,
{
    total.saturating_add(2) / 3
}

/// The sum of the stakes in a sequence of `(validator, stake)` pairs.
pub open spec fn pair_sum(s: Seq<(ValidatorId, u64)>) -> nat
    decreases s.len(),
{
    if s.len() == 0 {
        0
    } else {
        pair_sum(s.drop_last()) + s.last().1 as nat
    }
}

/// The sum over a prefix never exceeds the sum over the whole sequence.
pub proof fn lemma_pair_sum_prefix(s: Seq<(ValidatorId, u64)>, n: int)
    requires
        0 <= n <= s.len(),
    ensures
        pair_sum(s.take(n)) <= pair_sum(s),
    decreases s.len(),
{
    if n == s.len() {
        assert(s.take(n) =~= s);
    } else {
        assert(s.drop_last().take(n) =~= s.take(n));
        lemma_pair_sum_prefix(s.drop_last(), n);
    }
}

/// Listing the members of a map once each, in any order, gives the map's sum.
pub proof fn lemma_pair_sum_of_map(s: Seq<(ValidatorId, u64)>, m: Map<ValidatorId, u64>)
    requires
        m.dom().finite(),
        s.no_duplicates(),
        s.to_set() == m.kv_pairs(),
    ensures
        pair_sum(s) == stake_sum(m),
    decreases s.len(),
{
    if s.len() == 0 {
        if m.dom().len() > 0 {
            let k = m.dom().choose();
            vstd::set_lib::axiom_is_empty_len0(m.dom());
            assert(m.dom().contains(k));
            assert(m.kv_pairs().contains((k, m[k])));
            assert(s.to_set().contains((k, m[k])));
        }
    } else {
        let last = s.last();
        let rest = s.drop_last();
        let k = last.0;
        assert(s.to_set().contains(last)) by {
            assert(s[s.len() - 1] == last);
        }
        assert(m.kv_pairs().contains(last));
        assert(m.contains_key(k) && m[k] == last.1);
        let smaller = m.remove(k);
        assert(rest.to_set() =~= smaller.kv_pairs()) by {
            assert forall|p: (ValidatorId, u64)| rest.to_set().contains(p) implies smaller.kv_pairs().contains(p) by {
                let i = choose|i: int| 0 <= i < rest.len() && rest[i] == p;
                assert(s[i] == p);
                assert(s.to_set().contains(p));
                assert(m.kv_pairs().contains(p));
                assert(s[i] != s[s.len() - 1]);
            }
            assert forall|p: (ValidatorId, u64)| smaller.kv_pairs().contains(p) implies rest.to_set().contains(p) by {
                assert(m.kv_pairs().contains(p));
                assert(s.to_set().contains(p));
                let i = choose|i: int| 0 <= i < s.len() && s[i] == p;
                assert(i < s.len() - 1);
                assert(rest[i] == p);
            }
        }
        lemma_pair_sum_of_map(rest, smaller);
        lemma_stake_sum_remove(m, k);
    }
}

/// The stake ledger: each registered validator with its stake. Members are
/// added one at a time and never removed or changed.
pub struct StakeLedger {
    stakes: HashMap<ValidatorId, u64>,
}

impl View for StakeLedger {
    type V = Map<ValidatorId, u64>;

    closed spec fn view(&self) -> Map<ValidatorId, u64> {
        self.stakes@
    }
}

impl StakeLedger {
    /// The total of all registered stakes, unbounded.
    pub open spec fn total(&self) -> nat {
        stake_sum(self@)
    }

    /// The membership is always a finite map.
    pub proof fn lemma_finite(&self)
        ensures
            self@.dom().finite(),
    {
        broadcast use vstd::std_specs::hash::group_hash_axioms;

    }

    /// An empty ledger.
    pub fn new() -> (ledger: Self)
        ensures
            ledger@ == Map::<ValidatorId, u64>::empty(),
    {
        StakeLedger { stakes: HashMap::new() }
    }

    /// Registers `id` with `stake`, unless it is registered already.
    pub fn add_validator(&mut self, id: ValidatorId, stake: u64) -> (result: Result<(), CommitteeError>)
        ensures
            final(self)@ == register(old(self)@, id, stake),
            old(self)@.contains_key(id) ==> result == Err::<(), CommitteeError>(
                CommitteeError::DuplicateMember,
            ) && final(self)@ == old(self)@,
            !old(self)@.contains_key(id) ==> result is Ok && final(self)@ == old(self)@.insert(
                id,
                stake,
            ) && final(self).total() == old(self).total() + stake as nat,
    {
        broadcast use vstd::std_specs::hash::group_hash_axioms;

        if self.stakes.contains_key(&id) {
            return Err(CommitteeError::DuplicateMember);
        }
        proof {
            self.lemma_finite();
            lemma_stake_sum_insert(self@, id, stake);
        }
        self.stakes.insert(id, stake);
        Ok(())
    }

    /// The number of registered validators.
    pub fn committee_size(&self) -> (count: usize)
        ensures
            count == self@.dom().len(),
    {
        broadcast use vstd::std_specs::hash::group_hash_axioms;

        self.stakes.len()
    }

    /// Whether `id` is registered.
    pub fn is_committee_member(&self, id: ValidatorId) -> (member: bool)
        ensures
            member == self@.contains_key(id),
    {
        broadcast use vstd::std_specs::hash::group_hash_axioms;

        self.stakes.contains_key(&id)
    }

    /// The stake of `id`, or zero where it is not registered.
    pub fn get_stake(&self, id: ValidatorId) -> (stake: u64)
        ensures
            stake == (if self@.contains_key(id) {
                self@[id]
            } else {
                0
            }),
    {
        broadcast use vstd::std_specs::hash::group_hash_axioms;

        match self.stakes.get(&id) {
            Some(stake) => *stake,
            None => 0,
        }
    }

    /// The sum of all registered stakes, or `StakeOverflow` where it does not
    /// fit in a `u64`.
    pub fn total_stake(&self) -> (result: Result<u64, CommitteeError>)
        ensures
            self.total() <= u64::MAX ==> result == Ok::<u64, CommitteeError>(self.total() as u64),
            self.total() > u64::MAX ==> result == Err::<u64, CommitteeError>(
                CommitteeError::StakeOverflow,
            ),
    {
        broadcast use vstd::std_specs::hash::group_hash_axioms;

        let mut power: u64 = 0;
        let ghost all: Seq<(ValidatorId, u64)> = self.stakes.iter().remaining().unref();
        for entry in iter: self.stakes.iter()
            invariant
                iter.seq().unref() == all,
                all.no_duplicates(),
                all.to_set() == self@.kv_pairs(),
                self@.dom().finite(),
                power == pair_sum(all.take(iter.index())),
        {
            let ghost at = iter.index();
            proof {
                assert(all.take(at + 1).drop_last() =~= all.take(at));
                assert(all.take(at + 1).last() == all[at]);
                lemma_pair_sum_prefix(all, at + 1);
                lemma_pair_sum_of_map(all, self@);
            }
            power = match power.checked_add(*entry.1) {
                Some(sum) => sum,
                None => {
                    return Err(CommitteeError::StakeOverflow);
                },
            };
        }
        proof {
            assert(all.take(all.len() as int) =~= all);
            lemma_pair_sum_of_map(all, self@);
        }
        Ok(power)
    }

    /// The stake required to certify a decision, or `StakeOverflow` where the
    /// total does not fit in a `u64`.
    pub fn quorum_threshold(&self) -> (result: Result<u64, CommitteeError>)
        ensures
            self.total() <= u64::MAX ==> result == Ok::<u64, CommitteeError>(
                quorum_of(self.total()) as u64,
            ),
            self.total() > u64::MAX ==> result == Err::<u64, CommitteeError>(
                CommitteeError::StakeOverflow,
            ),
    {
        match self.total_stake() {
            Ok(total) => Ok(quorum_for_total(total)),
            Err(e) => Err(e),
        }
    }

    /// The stake that guarantees one honest contribution, or `StakeOverflow`
    /// where the total does not fit in a `u64`.
    pub fn availability_threshold(&self) -> (result: Result<u64, CommitteeError>)
        ensures
            self.total() <= u64::MAX ==> result == Ok::<u64, CommitteeError>(
                availability_of(self.total()) as u64,
            ),
            self.total() > u64::MAX ==> result == Err::<u64, CommitteeError>(
                CommitteeError::StakeOverflow,
            ),
    {
        match self.total_stake() {
            Ok(total) => Ok(availability_for_total(total)),
            Err(e) => Err(e),
        }
    }
}

} // verus!
