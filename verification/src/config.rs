//! How a router is set up.
use vstd::prelude::*;

use crate::addr::IpAddr;

verus! {

/// A span of time: whole seconds, and the nanoseconds beyond them.
#[derive(Clone, Copy, Debug, PartialEq, Eq, Structural)]
pub struct Duration {
    pub secs: u64,
    pub subsec_nanos: u32,
}

/// The longest span of time, in nanoseconds.
pub const MAX_NANOS: u128 = 18_446_744_073_709_551_615_999_999_999;

impl Duration {
    /// The span in nanoseconds.
    pub open spec fn nanos(self) -> int {
        self.secs * 1_000_000_000 + self.subsec_nanos
    }

    /// The span is `n` nanoseconds long, or the longest one where that is longer.
    pub open spec fn is_nanos(self, n: int) -> bool {
        &&& self.subsec_nanos < 1_000_000_000
        &&& self.nanos() == if n <= MAX_NANOS { n } else { MAX_NANOS as int }
    }

    /// The span in nanoseconds.
    pub fn as_nanos(&self) -> (res: u128)
        ensures
            res == self.nanos(),
    {
        self.secs as u128 * 1_000_000_000 + self.subsec_nanos as u128
    }

    /// A number of nanoseconds, or the longest span where there are more.
    pub fn from_nanos(n: u128) -> (res: Self)
        ensures
            res.is_nanos(n as int),
    {
        let n: u128 = if n <= MAX_NANOS { n } else { MAX_NANOS };
        Duration { secs: (n / 1_000_000_000) as u64, subsec_nanos: (n % 1_000_000_000) as u32 }
    }

    /// A whole number of seconds.
    pub fn from_secs(secs: u64) -> (res: Self)
        ensures
            res == (Duration { secs, subsec_nanos: 0 }),
    {
        Duration { secs, subsec_nanos: 0 }
    }
}

/// On what of a remote endpoint a behaviour of address translation depends.
#[derive(Clone, Copy, Debug, PartialEq, Eq, Structural)]
pub enum EndpointDependencyType {
    EndpointIndependent,
    EndpointAddrDependent,
    EndpointAddrPortDependent,
}

/// Names settings of address translation to the code that owns the translators.
pub type NatSettingsId = u64;

/// How network addresses are translated between a router and its parent.
#[derive(Clone, Copy, Debug, PartialEq, Eq, Structural)]
pub struct NATType {
    pub mapping_behavior: EndpointDependencyType,
    pub filtering_behavior: EndpointDependencyType,
    pub hair_pining: bool,
    pub port_preservation: bool,
    pub mapping_life_time: Duration,
    /// The settings that only the translator reads. Zero stands for their default.
    pub others: NatSettingsId,
}

/// The translation that a router uses where its configuration names none.
pub open spec fn default_nat_type() -> NATType {
    NATType {
        mapping_behavior: EndpointDependencyType::EndpointIndependent,
        filtering_behavior: EndpointDependencyType::EndpointAddrPortDependent,
        hair_pining: false,
        port_preservation: false,
        mapping_life_time: Duration { secs: 30, subsec_nanos: 0 },
        others: 0,
    }
}

/// What a network address translator is made from.
#[derive(Debug)]
pub struct NatConfig {
    pub name: String,
    pub nat_type: NATType,
    pub mapped_ips: Vec<IpAddr>,
    pub local_ips: Vec<IpAddr>,
}

/// What a router is made from.
#[derive(Debug)]
pub struct RouterConfig {
    /// Name of the router. If it is empty, a unique name will be assigned.
    pub name: String,
    /// The router's network in CIDR notation, like "192.0.2.0/24".
    pub cidr: String,
    /// Static IP addresses to be assigned for this router, each of which may be paired with a local
    /// address of the router's network, like "203.0.113.1/192.0.2.1". If there is none, the parent
    /// router will assign an address.
    pub static_ips: Vec<String>,
    /// One more static IP address. Deprecated: use `static_ips`.
    pub static_ip: String,
    /// How many chunks the router's queue holds. Zero stands for any number.
    pub queue_size: usize,
    /// Effective only when this router has a parent router.
    pub nat_type: Option<NATType>,
    /// Minimum delay.
    pub min_delay: Duration,
    /// Maximum jitter.
    pub max_jitter: Duration,
}

impl Default for RouterConfig {
    fn default() -> (res: Self)
        ensures
            res.name@.len() == 0,
            res.cidr@.len() == 0,
            res.static_ips@.len() == 0,
            res.static_ip@.len() == 0,
            res.queue_size == 0,
            res.nat_type is None,
            res.min_delay == (Duration { secs: 0, subsec_nanos: 0 }),
            res.max_jitter == (Duration { secs: 0, subsec_nanos: 0 }),
    {
        RouterConfig {
            name: String::new(),
            cidr: String::new(),
            static_ips: Vec::new(),
            static_ip: String::new(),
            queue_size: 0,
            nat_type: None,
            min_delay: Duration::from_secs(0),
            max_jitter: Duration::from_secs(0),
        }
    }
}

} // verus!
