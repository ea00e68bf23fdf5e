//! What can go wrong when a router is set up or run.
use vstd::prelude::*;

verus! {

/// An error of the router.
#[derive(Clone, Copy, Debug, PartialEq, Eq, Structural)]
pub enum Error {
    /// The CIDR text of the configuration is not a network.
    InvalidCidr,
    /// A text is not an IP address.
    InvalidAddr,
    /// A local address that a static address is paired with lies outside the router's network.
    LocalIpBeyondStaticIpsSubset,
    /// Some static addresses have a local address and some have none.
    LocalIpNoStaticsIpsAssociated,
    /// The router is running already.
    RouterAlreadyStarted,
    /// The router is not running.
    RouterAlreadyStopped,
    /// An address of a network interface lies outside the router's network.
    StaticIpIsBeyondSubnet,
    /// The router has handed out all the addresses that it can.
    AddressSpaceExhausted,
    /// Interface `eth0` is missing, or has no address.
    NoIpaddrEth0,
}

} // verus!
