//! The FQDN policy: when a response resolves an allowed domain, the resolved
//! address is to be added to the set of addresses that traffic may reach.
use vstd::prelude::*;
use vstd::string::*;
use crate::cilium_common::{AF_INET, AF_INET6, ipv4_bytes, RawIpAddr};
use crate::dns::DnsResponse;

verus! {

/// Why an observer could not take a decoded response into account.
#[derive(Debug, Clone, Copy, PartialEq, Eq, Structural)]
pub enum ObserverError {
    /// The response names an allowed domain but carries no address of a
    /// known family: decoding should have set one.
    UnparsedAddressFamily,
    /// The address could not be added to the set of allowed addresses.
    MapUpdateFailed,
}

/// The human-readable description of an observer error.
pub open spec fn observer_error_message(e: ObserverError) -> Seq<char> {
    match e {
        ObserverError::UnparsedAddressFamily => "Ip family should be already parsed, so this is a bug"@,
        ObserverError::MapUpdateFailed => "failed to insert the address into the allowed IP map"@,
    }
}

impl ObserverError {
    /// Describes the error in words.
    pub fn message(&self) -> (s: String)
        ensures
            s@ == observer_error_message(*self),
    {
        match self {
            ObserverError::UnparsedAddressFamily => String::from_str(
                "Ip family should be already parsed, so this is a bug",
            ),
            ObserverError::MapUpdateFailed => String::from_str(
                "failed to insert the address into the allowed IP map",
            ),
        }
    }
}

/// Something that is told of each decoded DNS response.
pub trait DnsObserver {
    fn update(&mut self, dns_response: &DnsResponse) -> Result<(), ObserverError>;
}

/// The names that these strings hold.
pub open spec fn names_of(v: Seq<String>) -> Seq<Seq<char>> {
    v.map_values(|s: String| s@)
}

/// Whether one of the strings of `v` is `name`.
fn names_contain(v: &Vec<String>, name: &String) -> (r: bool)
    ensures
        r == names_of(v@).contains(name@),
{
    let mut i: usize = 0;
    while i < v.len()
        invariant
            i <= v@.len(),
            forall|k: int| 0 <= k < i ==> v@[k]@ != name@,
        decreases v@.len() - i,
    {
        if v[i] == *name {
            assert(names_of(v@)[i as int] == name@);
            return true;
        }
        i = i + 1;
    }
    proof {
        if names_of(v@).contains(name@) {
            let k = choose|k: int| 0 <= k < names_of(v@).len() && names_of(v@)[k] == name@;
            assert(v@[k]@ == name@);
        }
    }
    false
}

/// The domains whose resolved addresses become reachable; no domain occurs
/// twice.
pub struct FqdnPolicyEngine {
    pub allowed_domains: Vec<String>,
}

impl FqdnPolicyEngine {
    /// The names of the allowed domains.
    pub open spec fn domains(&self) -> Seq<Seq<char>> {
        names_of(self.allowed_domains@)
    }

    /// True when `name` is one of the allowed domains.
    pub open spec fn allows(&self, name: Seq<char>) -> bool {
        self.domains().contains(name)
    }

    /// A policy that allows exactly the domains of `allowed_domains`, each
    /// kept once, in the order of their first occurrence.
    pub fn new(allowed_domains: Vec<String>) -> (r: Self)
        ensures
            r.domains().no_duplicates(),
            forall|d: Seq<char>| r.allows(d) <==> names_of(allowed_domains@).contains(d),
    {
        let mut kept: Vec<String> = Vec::new();
        let mut i: usize = 0;
        while i < allowed_domains.len()
            invariant
                i <= allowed_domains@.len(),
                names_of(kept@).no_duplicates(),
                forall|d: Seq<char>| #[trigger] names_of(kept@).contains(d) <==> names_of(
                    allowed_domains@.take(i as int),
                ).contains(d),
            decreases allowed_domains@.len() - i,
        {
            let ghost before = names_of(kept@);
            let ghost seen = names_of(allowed_domains@.take(i as int));
            let ghost next = names_of(allowed_domains@.take(i + 1));
            assert(next =~= seen.push(allowed_domains@[i as int]@));
            assert forall|d: Seq<char>| #[trigger] before.contains(d) <==> seen.contains(d) by {
                assert(names_of(kept@).contains(d) <==> names_of(allowed_domains@.take(i as int)).contains(d));
            }
            if !names_contain(&kept, &allowed_domains[i]) {
                let name = allowed_domains[i].clone();
                kept.push(name);
                assert(names_of(kept@) =~= before.push(allowed_domains@[i as int]@));
                assert forall|d: Seq<char>| #[trigger] names_of(kept@).contains(d) <==> next.contains(d) by {
                    if names_of(kept@).contains(d) {
                        let k = choose|k: int| 0 <= k < names_of(kept@).len() && names_of(kept@)[k] == d;
                        if k < before.len() {
                            assert(before[k] == d);
                            assert(before.contains(d));
                            let j = choose|j: int| 0 <= j < seen.len() && seen[j] == d;
                            assert(next[j] == d);
                        } else {
                            assert(next[i as int] == d);
                        }
                    }
                    if next.contains(d) {
                        let j = choose|j: int| 0 <= j < next.len() && next[j] == d;
                        if j < i {
                            assert(seen[j] == d);
                            assert(seen.contains(d));
                            assert(before.contains(d));
                            let k = choose|k: int| 0 <= k < before.len() && before[k] == d;
                            assert(names_of(kept@)[k] == d);
                        } else {
                            assert(names_of(kept@)[before.len() as int] == d);
                        }
                    }
                }
            } else {
                assert forall|d: Seq<char>| #[trigger] names_of(kept@).contains(d) <==> next.contains(d) by {
                    if names_of(kept@).contains(d) {
                        let j = choose|j: int| 0 <= j < seen.len() && seen[j] == d;
                        assert(next[j] == d);
                    }
                    if next.contains(d) {
                        let j = choose|j: int| 0 <= j < next.len() && next[j] == d;
                        if j < i {
                            assert(seen[j] == d);
                            assert(seen.contains(d));
                        } else {
                            assert(d == allowed_domains@[i as int]@);
                        }
                    }
                }
            }
            i = i + 1;
        }
        assert(allowed_domains@.take(i as int) =~= allowed_domains@);
        FqdnPolicyEngine { allowed_domains: kept }
    }

    /// Whether `name` is an allowed domain.
    pub fn is_allowed(&self, name: &String) -> (r: bool)
        ensures
            r == self.allows(name@),
    {
        names_contain(&self.allowed_domains, name)
    }

    /// The address that the response `dns_response` makes reachable: none
    /// when its domain is not allowed, else its first resolved address.
    pub fn allowed_ip(&self, dns_response: &DnsResponse) -> (r: Result<
        Option<RawIpAddr>,
        ObserverError,
    >)
        requires
            self.allows(dns_response.domain_name@) && dns_response.ip_family == AF_INET
                ==> dns_response.resolved_ip_raw@.len() >= 4,
            self.allows(dns_response.domain_name@) && dns_response.ip_family == AF_INET6
                ==> dns_response.resolved_ip_raw@.len() >= 16,
        ensures
            !self.allows(dns_response.domain_name@) ==> r == Ok::<
                Option<RawIpAddr>,
                ObserverError,
            >(None),
            self.allows(dns_response.domain_name@) && dns_response.ip_family == AF_INET ==> {
                &&& r matches Ok(Some(ip))
                &&& ip.bytes@ == ipv4_bytes(dns_response.resolved_ip_raw@)
                &&& ip.family == AF_INET
                &&& ip._pad == 0
            },
            self.allows(dns_response.domain_name@) && dns_response.ip_family == AF_INET6 ==> {
                &&& r matches Ok(Some(ip))
                &&& ip.bytes@ == dns_response.resolved_ip_raw@.take(16)
                &&& ip.family == AF_INET6
                &&& ip._pad == 0
            },
            self.allows(dns_response.domain_name@) && dns_response.ip_family != AF_INET
                && dns_response.ip_family != AF_INET6 ==> r == Err::<
                Option<RawIpAddr>,
                ObserverError,
            >(ObserverError::UnparsedAddressFamily),
    {
        if !self.is_allowed(&dns_response.domain_name) {
            return Ok(None);
        }
        let raw = &dns_response.resolved_ip_raw;
        if dns_response.ip_family == AF_INET {
            let ip = RawIpAddr::from_ipv4([raw[0], raw[1], raw[2], raw[3]]);
            assert(ipv4_bytes(seq![raw@[0], raw@[1], raw@[2], raw@[3]]) =~= ipv4_bytes(raw@));
            Ok(Some(ip))
        } else if dns_response.ip_family == AF_INET6 {
            let mut octets = [0u8; 16];
            let mut k: usize = 0;
            while k < 16
                invariant
                    k <= 16,
                    raw@.len() >= 16,
                    forall|m: int| 0 <= m < k ==> octets@[m] == raw@[m],
                decreases 16 - k,
            {
                octets[k] = raw[k];
                k = k + 1;
            }
            assert(octets@ =~= raw@.take(16));
            Ok(Some(RawIpAddr::from_ipv6(octets)))
        } else {
            Err(ObserverError::UnparsedAddressFamily)
        }
    }
}

} // verus!
