//! Network interface controllers.
use vstd::prelude::*;

use crate::addr::IpAddr;
use crate::interface::Interface;

verus! {

/// Names a network interface controller to the code that owns it. A router is one, too.
pub type NicId = u64;

/// A network interface controller that interfaces a router.
pub trait NIC {
    /// The interface that goes by a name.
    fn get_interface(&self, if_name: &str) -> Option<&Interface>;

    /// The addresses that the controller asks for.
    fn get_static_ips(&self) -> &[IpAddr];
}

} // verus!
