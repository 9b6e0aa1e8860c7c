use committee::committee::Committee;
use committee::error::CommitteeError;
use committee::stake::{availability_for_total, quorum_for_total, StakeLedger};

fn ledger_with(stakes: &[u64]) -> StakeLedger {
    let mut ledger = StakeLedger::new();
    for (i, stake) in stakes.iter().enumerate() {
        assert_eq!(ledger.add_validator(1000 + i as u64, *stake), Ok(()));
    }
    ledger
}

#[test]
fn empty_ledger_has_no_members_and_no_stake() {
    let ledger = StakeLedger::new();
    assert_eq!(ledger.committee_size(), 0);
    assert_eq!(ledger.total_stake(), Ok(0));
    assert!(!ledger.is_committee_member(7));
    assert_eq!(ledger.get_stake(7), 0);
}

#[test]
fn empty_ledger_thresholds() {
    let ledger = StakeLedger::new();
    assert_eq!(ledger.quorum_threshold(), Ok(1));
    assert_eq!(ledger.availability_threshold(), Ok(0));
}

#[test]
fn distinct_registrations_are_counted_and_summed() {
    let mut ledger = StakeLedger::new();
    let stakes: [u64; 5] = [5, 0, 17, 3, 1_000_000];
    let mut expected: u64 = 0;
    for (i, stake) in stakes.iter().enumerate() {
        assert_eq!(ledger.add_validator(i as u64 * 31, *stake), Ok(()));
        expected += *stake;
        assert_eq!(ledger.committee_size(), i + 1);
        assert_eq!(ledger.total_stake(), Ok(expected));
    }
    assert_eq!(ledger.total_stake(), Ok(1_000_025));
    for (i, stake) in stakes.iter().enumerate() {
        assert!(ledger.is_committee_member(i as u64 * 31));
        assert_eq!(ledger.get_stake(i as u64 * 31), *stake);
    }
}

#[test]
fn many_distinct_registrations_all_succeed() {
    let mut ledger = StakeLedger::new();
    for id in 0..500u64 {
        assert_eq!(ledger.add_validator(id, 2), Ok(()));
    }
    assert_eq!(ledger.committee_size(), 500);
    assert_eq!(ledger.total_stake(), Ok(1000));
}

#[test]
fn duplicate_registration_is_refused_and_changes_nothing() {
    let mut ledger = StakeLedger::new();
    assert_eq!(ledger.add_validator(42, 10), Ok(()));
    assert_eq!(ledger.add_validator(43, 5), Ok(()));
    assert_eq!(ledger.add_validator(42, 99), Err(CommitteeError::DuplicateMember));
    assert_eq!(ledger.add_validator(42, 10), Err(CommitteeError::DuplicateMember));
    assert_eq!(ledger.committee_size(), 2);
    assert_eq!(ledger.get_stake(42), 10);
    assert_eq!(ledger.get_stake(43), 5);
    assert_eq!(ledger.total_stake(), Ok(15));
}

#[test]
fn unknown_validator_has_zero_stake() {
    let ledger = ledger_with(&[4, 6]);
    assert!(!ledger.is_committee_member(1));
    assert_eq!(ledger.get_stake(1), 0);
    assert!(ledger.is_committee_member(1001));
    assert_eq!(ledger.get_stake(1001), 6);
}

#[test]
fn zero_stake_validator_is_a_member() {
    let ledger = ledger_with(&[0]);
    assert!(ledger.is_committee_member(1000));
    assert_eq!(ledger.get_stake(1000), 0);
    assert_eq!(ledger.committee_size(), 1);
    assert_eq!(ledger.total_stake(), Ok(0));
}

#[test]
fn quorum_threshold_of_ten_and_nine() {
    assert_eq!(ledger_with(&[4, 3, 2, 1]).quorum_threshold(), Ok(7));
    assert_eq!(ledger_with(&[3, 3, 3]).quorum_threshold(), Ok(7));
    assert_eq!(quorum_for_total(10), 7);
    assert_eq!(quorum_for_total(9), 7);
}

#[test]
fn availability_threshold_of_ten_and_nine() {
    assert_eq!(ledger_with(&[4, 3, 2, 1]).availability_threshold(), Ok(4));
    assert_eq!(ledger_with(&[3, 3, 3]).availability_threshold(), Ok(3));
    assert_eq!(availability_for_total(10), 4);
    assert_eq!(availability_for_total(9), 3);
}

#[test]
fn quorum_lies_just_above_two_thirds() {
    let totals: [u64; 9] = [0, 1, 2, 3, 4, 100, 1 << 40, u64::MAX - 1, u64::MAX];
    for total in totals {
        let q = quorum_for_total(total) as u128;
        let t = total as u128;
        assert!(3 * q > 2 * t);
        assert!(3 * q <= 2 * t + 3);
    }
}

#[test]
fn availability_is_a_third_rounded_up() {
    let totals: [u64; 9] = [0, 1, 2, 3, 4, 100, 1 << 40, u64::MAX - 1, u64::MAX];
    for total in totals {
        let a = availability_for_total(total) as u128;
        let t = total as u128;
        assert!(3 * a >= t);
        assert!(3 * a <= t + 2);
        assert_eq!(a + quorum_for_total(total) as u128, t + 1);
    }
}

#[test]
fn thresholds_of_small_totals() {
    assert_eq!(quorum_for_total(0), 1);
    assert_eq!(quorum_for_total(1), 1);
    assert_eq!(quorum_for_total(2), 2);
    assert_eq!(quorum_for_total(3), 3);
    assert_eq!(quorum_for_total(4), 3);
    assert_eq!(availability_for_total(0), 0);
    assert_eq!(availability_for_total(1), 1);
    assert_eq!(availability_for_total(2), 1);
    assert_eq!(availability_for_total(3), 1);
    assert_eq!(availability_for_total(4), 2);
}

#[test]
fn thresholds_at_the_largest_total() {
    let ledger = ledger_with(&[u64::MAX - 5, 5]);
    assert_eq!(ledger.total_stake(), Ok(u64::MAX));
    assert_eq!(ledger.quorum_threshold(), Ok(12297829382473034411));
    assert_eq!(ledger.availability_threshold(), Ok(6148914691236517205));
    assert_eq!(quorum_for_total(u64::MAX), 12297829382473034411);
    assert_eq!(availability_for_total(u64::MAX), 6148914691236517205);
    assert_eq!(availability_for_total(u64::MAX - 1), 6148914691236517205);
    assert_eq!(availability_for_total(u64::MAX - 2), 6148914691236517205);
    assert_eq!(availability_for_total(u64::MAX - 3), 6148914691236517204);
}

#[test]
fn overflowing_total_is_an_error() {
    let ledger = ledger_with(&[u64::MAX, 1]);
    assert_eq!(ledger.committee_size(), 2);
    assert_eq!(ledger.total_stake(), Err(CommitteeError::StakeOverflow));
    assert_eq!(ledger.quorum_threshold(), Err(CommitteeError::StakeOverflow));
    assert_eq!(ledger.availability_threshold(), Err(CommitteeError::StakeOverflow));
}

#[test]
fn overflow_is_found_in_any_order() {
    let ledger = ledger_with(&[1 << 63, 7, 1 << 62, 9, 1 << 62, 11]);
    assert_eq!(ledger.total_stake(), Err(CommitteeError::StakeOverflow));
    let ledger = ledger_with(&[1 << 63, 1 << 62, (1 << 62) - 1]);
    assert_eq!(ledger.total_stake(), Ok(u64::MAX));
}

#[test]
fn error_messages() {
    assert_eq!(CommitteeError::DuplicateMember.message(), "Validator already in committee");
    assert_eq!(
        CommitteeError::StakeOverflow.message(),
        "Failed to calculate total stake - overflow detected"
    );
}

#[test]
fn committee_serves_its_ledger() {
    let mut committee: Committee<String> = Committee::new(3);
    assert_eq!(committee.committee_size(), 0);
    assert_eq!(committee.add_validator(1, 4), Ok(()));
    assert_eq!(committee.add_validator(2, 6), Ok(()));
    assert_eq!(committee.add_validator(1, 6), Err(CommitteeError::DuplicateMember));
    assert_eq!(committee.committee_size(), 2);
    assert!(committee.is_committee_member(2));
    assert!(!committee.is_committee_member(3));
    assert_eq!(committee.get_stake(1), 4);
    assert_eq!(committee.get_stake(3), 0);
    assert_eq!(committee.total_stake(), Ok(10));
    assert_eq!(committee.quorum_threshold(), Ok(7));
    assert_eq!(committee.availability_threshold(), Ok(4));
    assert_eq!(committee.committee().committee_size(), 2);
    assert_eq!(committee.committee().get_stake(2), 6);
    assert_eq!(committee.round(), 3);
}

#[test]
fn committee_reports_overflow() {
    let mut committee: Committee<u8> = Committee::new(0);
    assert_eq!(committee.add_validator(1, u64::MAX), Ok(()));
    assert_eq!(committee.total_stake(), Ok(u64::MAX));
    assert_eq!(committee.add_validator(2, 1), Ok(()));
    assert_eq!(committee.total_stake(), Err(CommitteeError::StakeOverflow));
    assert_eq!(committee.quorum_threshold(), Err(CommitteeError::StakeOverflow));
    assert_eq!(committee.availability_threshold(), Err(CommitteeError::StakeOverflow));
}
