//! The one decision inside resolver construction: which address-family
//! lookup strategy a configuration code selects. Building and running the
//! resolver itself is I/O wiring and lives with the caller.

use vstd::prelude::*;

verus! {

/// How host lookups treat the two address families.
#[derive(Clone, Copy, PartialEq, Eq, Structural, Debug)]
pub enum IpStrategy {
    Ipv4Only,
    Ipv6Only,
    Ipv4AndIpv6,
    Ipv6ThenIpv4,
    Ipv4ThenIpv6,
}

/// Map a configured strategy code to the lookup strategy; every unassigned
/// code falls back to trying the v4 family first.
pub fn ip_lookup_strategy(code: u8) -> (r: IpStrategy)
    ensures
        code == 1 ==> r == IpStrategy::Ipv4Only,
        code == 2 ==> r == IpStrategy::Ipv6Only,
        code == 3 ==> r == IpStrategy::Ipv4AndIpv6,
        code == 4 ==> r == IpStrategy::Ipv6ThenIpv4,
        !(1 <= code <= 4) ==> r == IpStrategy::Ipv4ThenIpv6,
{
    match code {
        1 => IpStrategy::Ipv4Only,
        2 => IpStrategy::Ipv6Only,
        3 => IpStrategy::Ipv4AndIpv6,
        4 => IpStrategy::Ipv6ThenIpv4,
        _ => IpStrategy::Ipv4ThenIpv6,
    }
}

} // verus!
