//! Candidate bind addresses: the host's discovered interface addresses,
//! filtered down to the non-loopback IPv4 ones that a listener can bind.
//! Enumeration order is preserved; discovery itself (the OS call) stays
//! outside the library and hands in plain `HostIp` values.
use vstd::prelude::*;

verus! {

/// One discovered host address: either an IPv4 address given by its four
/// octets, or an IPv6 address (never bindable here).
#[derive(Clone, Copy, PartialEq, Eq, Structural, Debug)]
pub enum HostIp {
    V4(u8, u8, u8, u8),
    V6,
}

impl HostIp {
    /// Whether this address lies in the IPv4 loopback range 127.0.0.0/8.
    pub open spec fn spec_is_loopback(self) -> bool {
        match self {
            HostIp::V4(a, _, _, _) => a == 127,
            HostIp::V6 => false,
        }
    }

    /// Whether this address is IPv4.
    pub open spec fn spec_is_ipv4(self) -> bool {
        self is V4
    }

    /// A listener can be bound to this address: IPv4 and not loopback.
    pub open spec fn spec_is_usable(self) -> bool {
        self.spec_is_ipv4() && !self.spec_is_loopback()
    }

    pub fn is_loopback(self) -> (r: bool)
        ensures
            r == self.spec_is_loopback(),
    {
        match self {
            HostIp::V4(a, _, _, _) => a == 127,
            HostIp::V6 => false,
        }
    }

    pub fn is_ipv4(self) -> (r: bool)
        ensures
            r == self.spec_is_ipv4(),
    {
        match self {
            HostIp::V4(..) => true,
            HostIp::V6 => false,
        }
    }

    pub fn is_usable(self) -> (r: bool)
        ensures
            r == self.spec_is_usable(),
    {
        self.is_ipv4() && !self.is_loopback()
    }
}

/// A discovered address together with its usability verdict.
#[derive(Clone, Copy, PartialEq, Eq, Structural, Debug)]
pub struct CandidateAddress {
    pub ip: HostIp,
    pub is_usable: bool,
}

impl CandidateAddress {
    /// The verdict flag agrees with what the address is.
    pub open spec fn wf(self) -> bool {
        self.is_usable == self.ip.spec_is_usable()
    }

    pub fn classify(ip: HostIp) -> (r: CandidateAddress)
        ensures
            r.ip == ip,
            r.wf(),
    {
        CandidateAddress { ip, is_usable: ip.is_usable() }
    }
}

/// The discovered addresses that survive filtering, in enumeration order.
pub open spec fn usable_of(ips: Seq<HostIp>) -> Seq<HostIp>
    decreases ips.len(),
{
    if ips.len() == 0 {
        Seq::<HostIp>::empty()
    } else if ips[0].spec_is_usable() {
        seq![ips[0]] + usable_of(ips.drop_first())
    } else {
        usable_of(ips.drop_first())
    }
}

/// Filters discovered addresses down to the bindable ones, keeping
/// enumeration order.
pub fn filter_usable(ips: &Vec<HostIp>) -> (r: Vec<CandidateAddress>)
    ensures
        r@.map_values(|c: CandidateAddress| c.ip) == usable_of(ips@),
        forall|k: int| 0 <= k < r@.len() ==> (#[trigger] r@[k]).wf() && r@[k].is_usable,
{
    let mut r: Vec<CandidateAddress> = Vec::new();
    let mut i: usize = 0;
    proof {
        assert(ips@.subrange(0, ips@.len() as int) =~= ips@);
        assert(r@.map_values(|c: CandidateAddress| c.ip) + usable_of(ips@) =~= usable_of(ips@));
    }
    while i < ips.len()
        invariant
            i <= ips@.len(),
            usable_of(ips@) == r@.map_values(|c: CandidateAddress| c.ip) + usable_of(
                ips@.subrange(i as int, ips@.len() as int),
            ),
            forall|k: int| 0 <= k < r@.len() ==> (#[trigger] r@[k]).wf() && r@[k].is_usable,
        decreases ips@.len() - i,
    {
        let ghost tail = ips@.subrange(i as int, ips@.len() as int);
        let ghost prevmap = r@.map_values(|c: CandidateAddress| c.ip);
        proof {
            assert(tail[0] == ips@[i as int]);
            assert(tail.drop_first() =~= ips@.subrange(i + 1, ips@.len() as int));
        }
        let ip = ips[i];
        if ip.is_usable() {
            let cand = CandidateAddress::classify(ip);
            r.push(cand);
            proof {
                assert(r@.map_values(|c: CandidateAddress| c.ip) =~= prevmap.push(ip));
                assert(prevmap + (seq![ip] + usable_of(tail.drop_first())) =~= prevmap.push(ip)
                    + usable_of(tail.drop_first()));
            }
        }
        i = i + 1;
    }
    proof {
        assert(ips@.subrange(ips@.len() as int, ips@.len() as int) =~= Seq::<HostIp>::empty());
        assert(r@.map_values(|c: CandidateAddress| c.ip) + Seq::<HostIp>::empty() =~= r@.map_values(
            |c: CandidateAddress| c.ip,
        ));
    }
    r
}

/// Every address that filtering keeps is IPv4 and non-loopback, whatever
/// was discovered.
pub proof fn lemma_filtered_all_usable(ips: Seq<HostIp>)
    ensures
        forall|k: int|
            0 <= k < usable_of(ips).len() ==> (#[trigger] usable_of(ips)[k]).spec_is_ipv4()
                && !usable_of(ips)[k].spec_is_loopback(),
    decreases ips.len(),
{
    if ips.len() == 0 {
    } else {
        lemma_filtered_all_usable(ips.drop_first());
        assert forall|k: int|
            0 <= k < usable_of(ips).len() implies (#[trigger] usable_of(ips)[k]).spec_is_ipv4()
            && !usable_of(ips)[k].spec_is_loopback() by {
            if ips[0].spec_is_usable() {
                if k > 0 {
                    assert(usable_of(ips)[k] == usable_of(ips.drop_first())[k - 1]);
                }
            } else {
                assert(usable_of(ips)[k] == usable_of(ips.drop_first())[k]);
            }
        }
    }
}

} // verus!
