use crate::stake::ValidatorId;
use vstd::prelude::*;

verus! {

/// A network endpoint of a peer: an IP address with its port.
#[derive(Clone, Copy, Debug, PartialEq, Eq, Structural)]
pub enum PeerAddr {
    /// An IPv4 endpoint; `ipv4` holds the four octets, the first one highest.
    V4 { ipv4: u32, port: u16 },
    /// An IPv6 endpoint; `ipv6` holds the sixteen octets, the first one highest.
    V6 { ipv6: u128, port: u16, flowinfo: u32, scope_id: u32 },
}

/// One entry of the peer directory: the validator reached at an address.
#[derive(Clone, Copy, Debug, PartialEq, Eq, Structural)]
struct Binding {
    addr: PeerAddr,
    id: ValidatorId,
}

/// Whether no address and no validator occurs in two entries of `s`.
spec fn one_to_one(s: Seq<Binding>) -> bool {
    forall|i: int, j: int|
        0 <= i < j < s.len() ==> s[i].addr != s[j].addr && s[i].id != s[j].id
}

/// Taking one entry out of a one-to-one list leaves a one-to-one list that
/// holds exactly the other entries.
proof fn lemma_remove_entry(s: Seq<Binding>, at: int)
    requires
        one_to_one(s),
        0 <= at < s.len(),
    ensures
        one_to_one(s.remove(at)),
        forall|b: Binding| #[trigger] s.remove(at).contains(b) <==> s.contains(b) && b != s[at],
{
    let r = s.remove(at);
    assert forall|i: int, j: int| 0 <= i < j < r.len() implies r[i].addr != r[j].addr && r[i].id
        != r[j].id by {
        let si = if i < at { i } else { i + 1 };
        let sj = if j < at { j } else { j + 1 };
        assert(r[i] == s[si] && r[j] == s[sj]);
    }
    assert forall|b: Binding| #[trigger] r.contains(b) implies s.contains(b) && b != s[at] by {
        let i = choose|i: int| 0 <= i < r.len() && r[i] == b;
        let si = if i < at { i } else { i + 1 };
        assert(s[si] == b);
        if si < at {
            assert(s[si].addr != s[at].addr);
        } else {
            assert(s[at].addr != s[si].addr);
        }
    }
    assert forall|b: Binding| s.contains(b) && b != s[at] implies #[trigger] r.contains(b) by {
        let i = choose|i: int| 0 <= i < s.len() && s[i] == b;
        let ri = if i < at { i } else { i - 1 };
        assert(r[ri] == b);
    }
}

/// Adding an entry whose address and validator are both new keeps a list
/// one-to-one.
proof fn lemma_push_entry(s: Seq<Binding>, b: Binding)
    requires
        one_to_one(s),
        forall|i: int| 0 <= i < s.len() ==> s[i].addr != b.addr && s[i].id != b.id,
    ensures
        one_to_one(s.push(b)),
        forall|x: Binding| #[trigger] s.push(b).contains(x) <==> s.contains(x) || x == b,
{
    let p = s.push(b);
    assert forall|x: Binding| #[trigger] p.contains(x) implies s.contains(x) || x == b by {
        let i = choose|i: int| 0 <= i < p.len() && p[i] == x;
        if i < s.len() {
            assert(s[i] == x);
        }
    }
    assert forall|x: Binding| s.contains(x) || x == b implies #[trigger] p.contains(x) by {
        if x == b {
            assert(p[s.len() as int] == x);
        } else {
            let i = choose|i: int| 0 <= i < s.len() && s[i] == x;
            assert(p[i] == x);
        }
    }
}

/// Where in `entries` the entry of `addr` stands, if there is one.
fn position_of_addr(entries: &Vec<Binding>, addr: PeerAddr) -> (found: Option<usize>)
    ensures
        match found {
            Some(at) => at < entries@.len() && entries@[at as int].addr == addr,
            None => forall|i: int| 0 <= i < entries@.len() ==> entries@[i].addr != addr,
        },
{
    let mut at: usize = 0;
    while at < entries.len()
        invariant
            at <= entries@.len(),
            forall|i: int| 0 <= i < at ==> entries@[i].addr != addr,
        decreases entries@.len() - at,
    {
        if entries[at].addr == addr {
            return Some(at);
        }
        at += 1;
    }
    None
}

/// Where in `entries` the entry of `id` stands, if there is one.
fn position_of_id(entries: &Vec<Binding>, id: ValidatorId) -> (found: Option<usize>)
    ensures
        match found {
            Some(at) => at < entries@.len() && entries@[at as int].id == id,
            None => forall|i: int| 0 <= i < entries@.len() ==> entries@[i].id != id,
        },
{
    let mut at: usize = 0;
    while at < entries.len()
        invariant
            at <= entries@.len(),
            forall|i: int| 0 <= i < at ==> entries@[i].id != id,
        decreases entries@.len() - at,
    {
        if entries[at].id == id {
            return Some(at);
        }
        at += 1;
    }
    None
}

/// The peer directory: which validator is reached at which address. An address
/// has at most one validator and a validator at most one address.
pub struct PeerDirectory {
    bindings: Vec<Binding>,
}

impl PeerDirectory {
    /// The directory's validity: its entries are one-to-one. Every directory
    /// that a program holds is valid.
    pub closed spec fn wf(&self) -> bool {
        one_to_one(self.bindings@)
    }

    #[verifier::type_invariant]
    spec fn inv(&self) -> bool {
        self.wf()
    }

    /// Whether the directory holds the pair of `addr` and `id`.
    pub closed spec fn is_bound(&self, addr: PeerAddr, id: ValidatorId) -> bool {
        self.bindings@.contains(Binding { addr, id })
    }

    /// The validator bound to `addr`, if there is one.
    pub open spec fn validator_at(&self, addr: PeerAddr) -> Option<ValidatorId> {
        if exists|id: ValidatorId| self.is_bound(addr, id) {
            Some(choose|id: ValidatorId| self.is_bound(addr, id))
        } else {
            None
        }
    }

    /// The address bound to `id`, if there is one.
    pub open spec fn address_of(&self, id: ValidatorId) -> Option<PeerAddr> {
        if exists|addr: PeerAddr| self.is_bound(addr, id) {
            Some(choose|addr: PeerAddr| self.is_bound(addr, id))
        } else {
            None
        }
    }

    /// What `after` holds once `addr` and `id` are bound to each other in
    /// `before`: the new pair, and every old pair that shares neither side
    /// with it.
    pub open spec fn bound_in(before: &Self, after: &Self, addr: PeerAddr, id: ValidatorId) -> bool {
        forall|a: PeerAddr, v: ValidatorId|
            #![trigger after.is_bound(a, v)]
            #![trigger before.is_bound(a, v)]
            after.is_bound(a, v) <==> (a == addr && v == id) || (before.is_bound(a, v) && a != addr
                && v != id)
    }

    /// What `after` holds once `addr` is unbound in `before`: every old pair
    /// but that of `addr`.
    pub open spec fn unbound_in(before: &Self, after: &Self, addr: PeerAddr) -> bool {
        forall|a: PeerAddr, v: ValidatorId|
            #![trigger after.is_bound(a, v)]
            #![trigger before.is_bound(a, v)]
            after.is_bound(a, v) <==> before.is_bound(a, v) && a != addr
    }

    /// In a valid directory the two lookups agree, and each side of a pair
    /// determines the other.
    pub proof fn lemma_consistent(&self)
        requires
            self.wf(),
        ensures
            forall|a: PeerAddr, v: ValidatorId|
                #![trigger self.is_bound(a, v)]
                self.is_bound(a, v) <==> self.validator_at(a) == Some(v),
            forall|a: PeerAddr, v: ValidatorId|
                #![trigger self.is_bound(a, v)]
                self.is_bound(a, v) <==> self.address_of(v) == Some(a),
            forall|a: PeerAddr, v: ValidatorId|
                self.validator_at(a) == Some(v) <==> self.address_of(v) == Some(a),
    {
        assert forall|a: PeerAddr, v: ValidatorId, w: ValidatorId|
            self.is_bound(a, v) && self.is_bound(a, w) implies v == w by {
            self.lemma_same_entry(Binding { addr: a, id: v }, Binding { addr: a, id: w });
        }
        assert forall|a: PeerAddr, b: PeerAddr, v: ValidatorId|
            self.is_bound(a, v) && self.is_bound(b, v) implies a == b by {
            self.lemma_same_entry(Binding { addr: a, id: v }, Binding { addr: b, id: v });
        }
    }

    /// Binding a validator anew moves it: bound at `first` and then at another
    /// address `second`, it is found at `second`, and nothing is found at
    /// `first` any more.
    pub proof fn lemma_rebind_moves(
        start: &Self,
        middle: &Self,
        end: &Self,
        first: PeerAddr,
        second: PeerAddr,
        id: ValidatorId,
    )
        requires
            start.wf(),
            middle.wf(),
            end.wf(),
            Self::bound_in(start, middle, first, id),
            Self::bound_in(middle, end, second, id),
            first != second,
        ensures
            end.address_of(id) == Some(second),
            end.validator_at(second) == Some(id),
            end.validator_at(first) is None,
    {
        end.lemma_consistent();
        assert(end.is_bound(second, id));
        assert forall|v: ValidatorId| !end.is_bound(first, v) by {
            if end.is_bound(first, v) {
                assert(middle.is_bound(first, v) && v != id);
                assert(middle.is_bound(first, id));
                middle.lemma_consistent();
            }
        }
    }

    /// What the lookups give after a binding: the new pair is found both ways,
    /// a pair that shared a side with it is gone, and every other lookup
    /// gives what it gave before.
    pub proof fn lemma_bind_lookups(before: &Self, after: &Self, addr: PeerAddr, id: ValidatorId)
        requires
            before.wf(),
            after.wf(),
            Self::bound_in(before, after, addr, id),
        ensures
            after.validator_at(addr) == Some(id),
            after.address_of(id) == Some(addr),
            forall|a: PeerAddr|
                a != addr ==> #[trigger] after.validator_at(a) == (if before.validator_at(a)
                    == Some(id) {
                    None
                } else {
                    before.validator_at(a)
                }),
            forall|v: ValidatorId|
                v != id ==> #[trigger] after.address_of(v) == (if before.address_of(v) == Some(
                    addr,
                ) {
                    None
                } else {
                    before.address_of(v)
                }),
    {
        before.lemma_consistent();
        after.lemma_consistent();
        assert(after.is_bound(addr, id));
        assert forall|a: PeerAddr| a != addr implies #[trigger] after.validator_at(a) == (
        if before.validator_at(a) == Some(id) {
            None
        } else {
            before.validator_at(a)
        }) by {
            if after.validator_at(a) is Some {
                let v = after.validator_at(a).unwrap();
                assert(after.is_bound(a, v));
                assert(before.is_bound(a, v));
            } else if before.validator_at(a) is Some {
                let v = before.validator_at(a).unwrap();
                assert(before.is_bound(a, v));
                if v != id {
                    assert(after.is_bound(a, v));
                }
            }
        }
        assert forall|v: ValidatorId| v != id implies #[trigger] after.address_of(v) == (
        if before.address_of(v) == Some(addr) {
            None
        } else {
            before.address_of(v)
        }) by {
            if after.address_of(v) is Some {
                let a = after.address_of(v).unwrap();
                assert(after.is_bound(a, v));
                assert(before.is_bound(a, v));
            } else if before.address_of(v) is Some {
                let a = before.address_of(v).unwrap();
                assert(before.is_bound(a, v));
                if a != addr {
                    assert(after.is_bound(a, v));
                }
            }
        }
    }

    /// Unbinding an address clears both directions: nothing is found at the
    /// address, and the validator that was bound to it has no address.
    pub proof fn lemma_unbind_clears(before: &Self, after: &Self, addr: PeerAddr)
        requires
            before.wf(),
            after.wf(),
            Self::unbound_in(before, after, addr),
        ensures
            after.validator_at(addr) is None,
            before.validator_at(addr) matches Some(id) ==> after.address_of(id) is None,
            forall|a: PeerAddr| a != addr ==> after.validator_at(a) == before.validator_at(a),
            forall|v: ValidatorId|
                before.address_of(v) != Some(addr) ==> after.address_of(v) == before.address_of(v),
    {
        before.lemma_consistent();
        after.lemma_consistent();
        assert forall|v: ValidatorId| before.address_of(v) != Some(addr) implies after.address_of(
            v,
        ) == before.address_of(v) by {
            if before.address_of(v) is Some {
                let a = before.address_of(v).unwrap();
                assert(before.is_bound(a, v));
                assert(after.is_bound(a, v));
            } else if after.address_of(v) is Some {
                let a = after.address_of(v).unwrap();
                assert(after.is_bound(a, v));
                assert(before.is_bound(a, v));
            }
        }
        assert forall|v: ValidatorId| !after.is_bound(addr, v) by {}
        if before.validator_at(addr) is Some {
            let id = before.validator_at(addr).unwrap();
            assert(before.is_bound(addr, id));
            assert forall|a: PeerAddr| !after.is_bound(a, id) by {
                if after.is_bound(a, id) {
                    assert(before.is_bound(a, id));
                }
            }
        }
        assert forall|a: PeerAddr| a != addr implies after.validator_at(a) == before.validator_at(
            a,
        ) by {
            if before.validator_at(a) is Some {
                let v = before.validator_at(a).unwrap();
                assert(before.is_bound(a, v));
                assert(after.is_bound(a, v));
            } else if after.validator_at(a) is Some {
                let v = after.validator_at(a).unwrap();
                assert(after.is_bound(a, v));
                assert(before.is_bound(a, v));
            }
        }
    }

    proof fn lemma_same_entry(&self, x: Binding, y: Binding)
        requires
            self.wf(),
            self.bindings@.contains(x),
            self.bindings@.contains(y),
            x.addr == y.addr || x.id == y.id,
        ensures
            x == y,
    {
        let s = self.bindings@;
        let i = choose|i: int| 0 <= i < s.len() && s[i] == x;
        let j = choose|j: int| 0 <= j < s.len() && s[j] == y;
        if i < j {
            assert(s[i].addr != s[j].addr && s[i].id != s[j].id);
        } else if j < i {
            assert(s[j].addr != s[i].addr && s[j].id != s[i].id);
        }
    }

    /// An empty directory.
    pub fn new() -> (directory: Self)
        ensures
            directory.wf(),
            forall|a: PeerAddr, v: ValidatorId| !directory.is_bound(a, v),
    {
        PeerDirectory { bindings: Vec::new() }
    }

    /// The address that `id` is bound to, if any.
    pub fn get_peer_ip(&self, id: ValidatorId) -> (addr: Option<PeerAddr>)
        ensures
            self.wf(),
            addr == self.address_of(id),
    {
        proof {
            use_type_invariant(self);
        }
        match position_of_id(&self.bindings, id) {
            Some(at) => {
                let found = self.bindings[at].addr;
                proof {
                    let entry = Binding { addr: found, id };
                    assert(self.bindings@[at as int] == entry);
                    assert(self.is_bound(found, id));
                    self.lemma_consistent();
                }
                Some(found)
            },
            None => {
                proof {
                    assert forall|a: PeerAddr| !self.is_bound(a, id) by {
                        if self.is_bound(a, id) {
                            let s = self.bindings@;
                            let i = choose|i: int|
                                0 <= i < s.len() && s[i] == (Binding { addr: a, id });
                            assert(s[i].id == id);
                        }
                    }
                }
                None
            },
        }
    }

    /// The validator that `addr` is bound to, if any.
    pub fn get_address(&self, addr: PeerAddr) -> (id: Option<ValidatorId>)
        ensures
            self.wf(),
            id == self.validator_at(addr),
    {
        proof {
            use_type_invariant(self);
        }
        match position_of_addr(&self.bindings, addr) {
            Some(at) => {
                let found = self.bindings[at].id;
                proof {
                    let entry = Binding { addr, id: found };
                    assert(self.bindings@[at as int] == entry);
                    assert(self.is_bound(addr, found));
                    self.lemma_consistent();
                }
                Some(found)
            },
            None => {
                proof {
                    assert forall|v: ValidatorId| !self.is_bound(addr, v) by {
                        if self.is_bound(addr, v) {
                            let s = self.bindings@;
                            let i = choose|i: int|
                                0 <= i < s.len() && s[i] == (Binding { addr, id: v });
                            assert(s[i].addr == addr);
                        }
                    }
                }
                None
            },
        }
    }

    /// Unbinds `addr`: its pair leaves the directory, in both directions.
    /// Nothing changes where `addr` is not bound.
    pub fn remove_peer(&mut self, addr: PeerAddr)
        ensures
            old(self).wf(),
            final(self).wf(),
            Self::unbound_in(old(self), final(self), addr),
            final(self).validator_at(addr) is None,
            old(self).validator_at(addr) matches Some(id) ==> final(self).address_of(id) is None,
    {
        proof {
            use_type_invariant(&*self);
        }
        let ghost before = self.bindings@;
        match position_of_addr(&self.bindings, addr) {
            Some(at) => {
                proof {
                    lemma_remove_entry(before, at as int);
                }
                let mut entries: Vec<Binding> = Vec::new();
                std::mem::swap(&mut self.bindings, &mut entries);
                entries.remove(at);
                self.bindings = entries;
                proof {
                    assert forall|a: PeerAddr, v: ValidatorId|
                        before.contains(Binding { addr: a, id: v }) && a == addr implies (Binding {
                            addr: a,
                            id: v,
                        }) == before[at as int] by {
                        old(self).lemma_same_entry(Binding { addr: a, id: v }, before[at as int]);
                    }
                }
            },
            None => {
                proof {
                    assert forall|a: PeerAddr, v: ValidatorId|
                        before.contains(Binding { addr: a, id: v }) implies a != addr by {
                        let i = choose|i: int|
                            0 <= i < before.len() && before[i] == (Binding { addr: a, id: v });
                        assert(before[i].addr == a);
                    }
                }
            },
        }
        proof {
            Self::lemma_unbind_clears(old(self), self, addr);
        }
    }

    /// Binds `addr` and `id` to each other. A pair that held `addr` or `id`
    /// before leaves the directory, so the last binding wins.
    pub fn insert_peer(&mut self, addr: PeerAddr, id: ValidatorId)
        ensures
            old(self).wf(),
            final(self).wf(),
            Self::bound_in(old(self), final(self), addr, id),
            final(self).validator_at(addr) == Some(id),
            final(self).address_of(id) == Some(addr),
    {
        proof {
            use_type_invariant(&*self);
        }
        let ghost before = self.bindings@;
        let at_addr = position_of_addr(&self.bindings, addr);
        let mut entries: Vec<Binding> = Vec::new();
        std::mem::swap(&mut self.bindings, &mut entries);
        match at_addr {
            Some(at) => {
                proof {
                    lemma_remove_entry(before, at as int);
                }
                entries.remove(at);
            },
            None => {},
        }
        let ghost without_addr = entries@;
        proof {
            assert forall|b: Binding| #[trigger]
                without_addr.contains(b) <==> before.contains(b) && b.addr != addr by {
                if before.contains(b) {
                    let i = choose|i: int| 0 <= i < before.len() && before[i] == b;
                    assert(before[i].addr == b.addr);
                    if b.addr == addr {
                        let at = choose|at: int|
                            0 <= at < before.len() && before[at].addr == addr;
                        old(self).lemma_same_entry(b, before[at]);
                    }
                }
            }
        }
        match position_of_id(&entries, id) {
            Some(at) => {
                proof {
                    lemma_remove_entry(without_addr, at as int);
                }
                entries.remove(at);
            },
            None => {},
        }
        let ghost without_both = entries@;
        proof {
            assert forall|b: Binding| #[trigger]
                without_both.contains(b) <==> without_addr.contains(b) && b.id != id by {
                if without_addr.contains(b) {
                    let i = choose|i: int| 0 <= i < without_addr.len() && without_addr[i] == b;
                    assert(without_addr[i].id == b.id);
                    if b.id == id {
                        let at = choose|at: int|
                            0 <= at < without_addr.len() && without_addr[at].id == id;
                        assert(without_addr.contains(without_addr[at]));
                        if i < at {
                            assert(without_addr[i].id != without_addr[at].id);
                        } else if at < i {
                            assert(without_addr[at].id != without_addr[i].id);
                        }
                    }
                }
            }
            assert forall|i: int| 0 <= i < without_both.len() implies without_both[i].addr != addr
                && without_both[i].id != id by {
                assert(without_both.contains(without_both[i]));
            }
            lemma_push_entry(without_both, Binding { addr, id });
        }
        entries.push(Binding { addr, id });
        self.bindings = entries;
        proof {
            assert(Self::bound_in(old(self), self, addr, id));
            assert(self.is_bound(addr, id));
            self.lemma_consistent();
        }
    }
}

} // verus!
