use committee::committee::Committee;
use committee::peers::{PeerAddr, PeerDirectory};

fn v4(last: u32, port: u16) -> PeerAddr {
    PeerAddr::V4 { ipv4: 0x0a00_0000 + last, port }
}

#[test]
fn empty_directory_finds_nothing() {
    let directory = PeerDirectory::new();
    assert_eq!(directory.get_address(v4(1, 4130)), None);
    assert_eq!(directory.get_peer_ip(1), None);
}

#[test]
fn bound_pair_is_found_both_ways() {
    let mut directory = PeerDirectory::new();
    directory.insert_peer(v4(1, 4130), 11);
    directory.insert_peer(v4(2, 4130), 22);
    assert_eq!(directory.get_address(v4(1, 4130)), Some(11));
    assert_eq!(directory.get_address(v4(2, 4130)), Some(22));
    assert_eq!(directory.get_peer_ip(11), Some(v4(1, 4130)));
    assert_eq!(directory.get_peer_ip(22), Some(v4(2, 4130)));
    assert_eq!(directory.get_address(v4(3, 4130)), None);
    assert_eq!(directory.get_peer_ip(33), None);
}

#[test]
fn rebinding_a_validator_moves_it() {
    let mut directory = PeerDirectory::new();
    let a = v4(1, 4130);
    let b = v4(1, 4131);
    directory.insert_peer(a, 7);
    directory.insert_peer(b, 7);
    assert_eq!(directory.get_peer_ip(7), Some(b));
    assert_eq!(directory.get_address(b), Some(7));
    assert_eq!(directory.get_address(a), None);
}

#[test]
fn rebinding_an_address_drops_the_old_validator() {
    let mut directory = PeerDirectory::new();
    let a = v4(1, 4130);
    directory.insert_peer(a, 7);
    directory.insert_peer(a, 8);
    assert_eq!(directory.get_address(a), Some(8));
    assert_eq!(directory.get_peer_ip(8), Some(a));
    assert_eq!(directory.get_peer_ip(7), None);
}

#[test]
fn binding_joins_two_old_pairs_into_one() {
    let mut directory = PeerDirectory::new();
    let a = v4(1, 1);
    let b = v4(2, 2);
    let c = v4(3, 3);
    directory.insert_peer(a, 1);
    directory.insert_peer(b, 2);
    directory.insert_peer(c, 3);
    directory.insert_peer(a, 2);
    assert_eq!(directory.get_address(a), Some(2));
    assert_eq!(directory.get_peer_ip(2), Some(a));
    assert_eq!(directory.get_peer_ip(1), None);
    assert_eq!(directory.get_address(b), None);
    assert_eq!(directory.get_address(c), Some(3));
    assert_eq!(directory.get_peer_ip(3), Some(c));
}

#[test]
fn binding_the_same_pair_again_changes_nothing() {
    let mut directory = PeerDirectory::new();
    let a = v4(1, 1);
    directory.insert_peer(a, 1);
    directory.insert_peer(a, 1);
    assert_eq!(directory.get_address(a), Some(1));
    assert_eq!(directory.get_peer_ip(1), Some(a));
    directory.remove_peer(a);
    assert_eq!(directory.get_address(a), None);
    assert_eq!(directory.get_peer_ip(1), None);
}

#[test]
fn unbinding_clears_both_directions() {
    let mut directory = PeerDirectory::new();
    let a = v4(1, 4130);
    let b = v4(2, 4130);
    directory.insert_peer(a, 7);
    directory.insert_peer(b, 8);
    directory.remove_peer(a);
    assert_eq!(directory.get_address(a), None);
    assert_eq!(directory.get_peer_ip(7), None);
    assert_eq!(directory.get_address(b), Some(8));
    assert_eq!(directory.get_peer_ip(8), Some(b));
}

#[test]
fn unbinding_an_unbound_address_is_a_no_op() {
    let mut directory = PeerDirectory::new();
    let a = v4(1, 4130);
    directory.remove_peer(a);
    directory.insert_peer(a, 7);
    directory.remove_peer(v4(1, 4131));
    assert_eq!(directory.get_address(a), Some(7));
    assert_eq!(directory.get_peer_ip(7), Some(a));
}

#[test]
fn addresses_differ_by_family_port_and_scope() {
    let mut directory = PeerDirectory::new();
    let four = PeerAddr::V4 { ipv4: 1, port: 80 };
    let six = PeerAddr::V6 { ipv6: 1, port: 80, flowinfo: 0, scope_id: 0 };
    let scoped = PeerAddr::V6 { ipv6: 1, port: 80, flowinfo: 0, scope_id: 2 };
    directory.insert_peer(four, 4);
    directory.insert_peer(six, 6);
    directory.insert_peer(scoped, 9);
    assert_eq!(directory.get_address(four), Some(4));
    assert_eq!(directory.get_address(six), Some(6));
    assert_eq!(directory.get_address(scoped), Some(9));
    assert_eq!(directory.get_address(PeerAddr::V4 { ipv4: 1, port: 81 }), None);
    assert_eq!(directory.get_peer_ip(6), Some(six));
}

#[test]
fn committee_tracks_its_peers() {
    let mut committee: Committee<u8> = Committee::new(0);
    let a = v4(1, 4130);
    let b = v4(2, 4130);
    assert_eq!(committee.get_address(a), None);
    committee.insert_peer(a, 5);
    assert_eq!(committee.get_address(a), Some(5));
    assert_eq!(committee.get_peer_ip(5), Some(a));
    committee.insert_peer(b, 5);
    assert_eq!(committee.get_peer_ip(5), Some(b));
    assert_eq!(committee.get_address(a), None);
    committee.remove_peer(b);
    assert_eq!(committee.get_address(b), None);
    assert_eq!(committee.get_peer_ip(5), None);
    assert_eq!(committee.committee_size(), 0);
    assert!(!committee.is_committee_member(5));
}
