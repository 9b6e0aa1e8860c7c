use crate::error::CommitteeError;
use crate::peers::{PeerAddr, PeerDirectory};
use crate::round::{advanced, next_round, RoundCounter};
use crate::sender::SenderBinding;
use crate::stake::{availability_of, quorum_of, register, StakeLedger, ValidatorId};
use vstd::prelude::*;

verus! {

/// The committee of one round-based protocol instance: who is a validator and
/// with how much stake, the current round, which peer is which validator, and
/// the sender that dispatches into the processing pipeline.
pub struct Committee<S> {
    /// Each validator with its stake.
    pub ledger: StakeLedger,
    /// The current round.
    pub round: RoundCounter,
    /// The peers' addresses and the validators behind them.
    pub peers: PeerDirectory,
    /// The sender, once installed.
    pub sender: SenderBinding<S>,
}

impl<S> Committee<S> {
    /// The committee's validity: that of its peer directory. Every committee
    /// that a program holds is valid.
    pub open spec fn wf(&self) -> bool {
        self.peers.wf()
    }

    /// A committee at `round`, with no validator, no peer and no sender.
    pub fn new(round: u64) -> (committee: Self)
        ensures
            committee.wf(),
            committee.round@ == round,
            committee.ledger@ == Map::<ValidatorId, u64>::empty(),
            forall|a: PeerAddr, v: ValidatorId| !committee.peers.is_bound(a, v),
            committee.sender@ is None,
    {
        Committee {
            ledger: StakeLedger::new(),
            round: RoundCounter::new(round),
            peers: PeerDirectory::new(),
            sender: SenderBinding::new(),
        }
    }

    /// The current round.
    pub fn round(&self) -> (round: u64)
        ensures
            round == self.round@,
    {
        self.round.round()
    }

    /// Advances the round by exactly one; nothing else changes.
    pub fn increment_round(&mut self)
        ensures
            final(self).round@ == next_round(old(self).round@),
            final(self).round@ == advanced(old(self).round@, 1),
            final(self).ledger == old(self).ledger,
            final(self).peers == old(self).peers,
            final(self).sender == old(self).sender,
    {
        self.round.increment_round();
    }

    /// Registers `id` with `stake`. A validator that is registered already is
    /// refused with `DuplicateMember`, and the committee stays as it was.
    pub fn add_validator(&mut self, id: ValidatorId, stake: u64) -> (result: Result<
        (),
        CommitteeError,
    >)
        ensures
            final(self).ledger@ == register(old(self).ledger@, id, stake),
            old(self).ledger@.contains_key(id) ==> result == Err::<(), CommitteeError>(
                CommitteeError::DuplicateMember,
            ) && final(self).ledger@ == old(self).ledger@,
            !old(self).ledger@.contains_key(id) ==> result is Ok && final(self).ledger@ == old(
                self,
            ).ledger@.insert(id, stake) && final(self).ledger.total() == old(self).ledger.total()
                + stake as nat,
            final(self).round == old(self).round,
            final(self).peers == old(self).peers,
            final(self).sender == old(self).sender,
    {
        self.ledger.add_validator(id, stake)
    }

    /// The stake ledger.
    pub fn committee(&self) -> (ledger: &StakeLedger)
        ensures
            *ledger == self.ledger,
    {
        &self.ledger
    }

    /// The number of validators.
    pub fn committee_size(&self) -> (count: usize)
        ensures
            count == self.ledger@.dom().len(),
    {
        self.ledger.committee_size()
    }

    /// Whether `id` is a validator of this committee.
    pub fn is_committee_member(&self, id: ValidatorId) -> (member: bool)
        ensures
            member == self.ledger@.contains_key(id),
    {
        self.ledger.is_committee_member(id)
    }

    /// The stake of `id`; zero for one that is no validator.
    pub fn get_stake(&self, id: ValidatorId) -> (stake: u64)
        ensures
            stake == (if self.ledger@.contains_key(id) {
                self.ledger@[id]
            } else {
                0
            }),
    {
        self.ledger.get_stake(id)
    }

    /// The sum of all stakes, or `StakeOverflow` where it does not fit in a
    /// `u64`.
    pub fn total_stake(&self) -> (result: Result<u64, CommitteeError>)
        ensures
            self.ledger.total() <= u64::MAX ==> result == Ok::<u64, CommitteeError>(
                self.ledger.total() as u64,
            ),
            self.ledger.total() > u64::MAX ==> result == Err::<u64, CommitteeError>(
                CommitteeError::StakeOverflow,
            ),
    {
        self.ledger.total_stake()
    }

    /// The stake required to certify a decision: more than two thirds of the
    /// total. `StakeOverflow` where the total does not fit in a `u64`.
    pub fn quorum_threshold(&self) -> (result: Result<u64, CommitteeError>)
        ensures
            self.ledger.total() <= u64::MAX ==> result == Ok::<u64, CommitteeError>(
                quorum_of(self.ledger.total()) as u64,
            ),
            self.ledger.total() > u64::MAX ==> result == Err::<u64, CommitteeError>(
                CommitteeError::StakeOverflow,
            ),
    {
        self.ledger.quorum_threshold()
    }

    /// The stake that guarantees one honest contribution: a third of the total,
    /// rounded up. `StakeOverflow` where the total does not fit in a `u64`.
    pub fn availability_threshold(&self) -> (result: Result<u64, CommitteeError>)
        ensures
            self.ledger.total() <= u64::MAX ==> result == Ok::<u64, CommitteeError>(
                availability_of(self.ledger.total()) as u64,
            ),
            self.ledger.total() > u64::MAX ==> result == Err::<u64, CommitteeError>(
                CommitteeError::StakeOverflow,
            ),
    {
        self.ledger.availability_threshold()
    }

    /// The address of the peer that is validator `id`, if it is connected.
    pub fn get_peer_ip(&self, id: ValidatorId) -> (addr: Option<PeerAddr>)
        ensures
            self.wf(),
            addr == self.peers.address_of(id),
    {
        self.peers.get_peer_ip(id)
    }

    /// The validator behind the peer at `addr`, if there is one.
    pub fn get_address(&self, addr: PeerAddr) -> (id: Option<ValidatorId>)
        ensures
            self.wf(),
            id == self.peers.validator_at(addr),
    {
        self.peers.get_address(addr)
    }

    /// Records that the peer at `addr` is validator `id`. A pair that held
    /// either of them before is dropped.
    pub fn insert_peer(&mut self, addr: PeerAddr, id: ValidatorId)
        ensures
            old(self).wf(),
            final(self).wf(),
            PeerDirectory::bound_in(&old(self).peers, &final(self).peers, addr, id),
            final(self).peers.validator_at(addr) == Some(id),
            final(self).peers.address_of(id) == Some(addr),
            final(self).ledger == old(self).ledger,
            final(self).round == old(self).round,
            final(self).sender == old(self).sender,
    {
        self.peers.insert_peer(addr, id);
    }

    /// Forgets the peer at `addr`, in both directions; nothing changes where
    /// none is recorded.
    pub fn remove_peer(&mut self, addr: PeerAddr)
        ensures
            old(self).wf(),
            final(self).wf(),
            PeerDirectory::unbound_in(&old(self).peers, &final(self).peers, addr),
            final(self).peers.validator_at(addr) is None,
            old(self).peers.validator_at(addr) matches Some(id) ==> final(self).peers.address_of(
                id,
            ) is None,
            final(self).ledger == old(self).ledger,
            final(self).round == old(self).round,
            final(self).sender == old(self).sender,
    {
        self.peers.remove_peer(addr);
    }

    /// The installed sender. It must have been installed.
    pub fn primary_sender(&self) -> (sender: &S)
        requires
            self.sender@ is Some,
        ensures
            self.sender@ == Some(*sender),
    {
        self.sender.primary_sender()
    }

    /// Installs the sender. None may have been installed before.
    pub fn set_primary_sender(&mut self, sender: S)
        requires
            old(self).sender@ is None,
        ensures
            final(self).sender@ == Some(sender),
            final(self).ledger == old(self).ledger,
            final(self).round == old(self).round,
            final(self).peers == old(self).peers,
    {
        self.sender.set_primary_sender(sender);
    }
}

} // verus!
