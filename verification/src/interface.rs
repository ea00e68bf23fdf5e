//! Network interfaces.
use vstd::prelude::*;

use crate::addr::{IpAddr, SocketAddr};

verus! {

/// The kind of an interface.
#[derive(Clone, Copy, Debug, PartialEq, Eq, Structural)]
pub enum Kind {
    Packet,
    Ipv4,
    Ipv6,
}

/// Where an interface sends on.
#[derive(Clone, Copy, Debug, PartialEq, Eq, Structural)]
pub enum NextHop {
    Broadcast(SocketAddr),
    Destination(SocketAddr),
}

/// A network interface.
#[derive(Debug)]
pub struct Interface {
    pub name: String,
    pub kind: Kind,
    pub addr: Option<SocketAddr>,
    pub mask: Option<SocketAddr>,
    pub hop: Option<NextHop>,
}

impl Interface {
    /// The interface is an IPv4 interface of this name, with this address, without mask and hop.
    pub open spec fn is_ipv4(self, name: Seq<char>, addr: Option<SocketAddr>) -> bool {
        &&& self.name@ == name
        &&& self.kind == Kind::Ipv4
        &&& self.addr == addr
        &&& self.mask is None
        &&& self.hop is None
    }

    /// Makes an IPv4 interface without mask and hop.
    pub fn ipv4(name: &str, addr: Option<SocketAddr>) -> (res: Self)
        ensures
            res.is_ipv4(name@, addr),
    {
        Interface { name: name.to_owned(), kind: Kind::Ipv4, addr, mask: None, hop: None }
    }
}

/// How many interfaces stand before the first that goes by a name: all of them, where none does.
pub open spec fn position(ifcs: Seq<Interface>, name: Seq<char>) -> nat
    decreases ifcs.len(),
{
    if ifcs.len() == 0 || ifcs[0].name@ == name {
        0
    } else {
        1 + position(ifcs.drop_first(), name)
    }
}

/// The first interface that goes by a name.
pub open spec fn first_named(ifcs: Seq<Interface>, name: Seq<char>) -> Option<Interface> {
    let i = position(ifcs, name);
    if i < ifcs.len() {
        Some(ifcs[i as int])
    } else {
        None
    }
}

/// The address of the first interface that goes by a name, where it has one.
pub open spec fn ip_of_named(ifcs: Seq<Interface>, name: Seq<char>) -> Option<IpAddr> {
    match first_named(ifcs, name) {
        Some(ifc) => match ifc.addr {
            Some(addr) => Some(addr.ip),
            None => None,
        },
        None => None,
    }
}

/// The interfaces, with an address given to the first that goes by a name.
pub open spec fn with_addr(
    ifcs: Seq<Interface>,
    name: Seq<char>,
    addr: SocketAddr,
) -> Seq<Interface> {
    let i = position(ifcs, name);
    if i < ifcs.len() {
        ifcs.update(i as int, Interface { addr: Some(addr), ..ifcs[i as int] })
    } else {
        ifcs
    }
}

/// The position is where the name first occurs, or the end.
pub proof fn lemma_position(ifcs: Seq<Interface>, name: Seq<char>, n: int)
    requires
        0 <= n <= ifcs.len(),
        forall|i: int| 0 <= i < n ==> (#[trigger] ifcs[i]).name@ != name,
        n < ifcs.len() ==> ifcs[n].name@ == name,
    ensures
        position(ifcs, name) == n,
    decreases ifcs.len(),
{
    if n > 0 {
        let rest = ifcs.drop_first();
        assert forall|i: int| 0 <= i < n - 1 implies (#[trigger] rest[i]).name@ != name by {
            assert(rest[i] == ifcs[i + 1]);
        }
        lemma_position(rest, name, n - 1);
    }
}

/// Before the position the name does not occur.
pub proof fn lemma_before_position(ifcs: Seq<Interface>, name: Seq<char>)
    ensures
        position(ifcs, name) <= ifcs.len(),
        forall|i: int| 0 <= i < position(ifcs, name) ==> (#[trigger] ifcs[i]).name@ != name,
        position(ifcs, name) < ifcs.len() ==> ifcs[position(ifcs, name) as int].name@ == name,
    decreases ifcs.len(),
{
    if ifcs.len() > 0 && ifcs[0].name@ != name {
        let rest = ifcs.drop_first();
        lemma_before_position(rest, name);
        assert forall|i: int| 0 <= i < position(ifcs, name) implies (#[trigger] ifcs[i]).name@
            != name by {
            if i > 0 {
                assert(rest[i - 1] == ifcs[i]);
            }
        }
    }
}

/// Where the first interface stands that goes by a name.
fn find_position(ifcs: &[Interface], name: &str) -> (res: usize)
    ensures
        res == position(ifcs@, name@),
        res <= ifcs@.len(),
{
    let wanted = name.to_owned();
    let mut i: usize = 0;
    while i < ifcs.len()
        invariant
            i <= ifcs@.len(),
            wanted@ == name@,
            forall|j: int| 0 <= j < i ==> (#[trigger] ifcs@[j]).name@ != name@,
        decreases ifcs@.len() - i,
    {
        if ifcs[i].name == wanted {
            proof {
                lemma_position(ifcs@, name@, i as int);
            }
            return i;
        }
        i = i + 1;
    }
    proof {
        lemma_position(ifcs@, name@, i as int);
    }
    i
}

/// Finds the first interface that goes by a name.
pub fn find_interface<'a>(ifcs: &'a [Interface], name: &str) -> (res: Option<&'a Interface>)
    ensures
        match res {
            Some(ifc) => first_named(ifcs@, name@) == Some(*ifc),
            None => first_named(ifcs@, name@) is None,
        },
{
    let i: usize = find_position(ifcs, name);
    if i < ifcs.len() {
        Some(&ifcs[i])
    } else {
        None
    }
}

/// Gives an address to the first interface that goes by a name.
pub fn set_addr(ifcs: &mut Vec<Interface>, name: &str, addr: SocketAddr)
    ensures
        final(ifcs)@ == with_addr(old(ifcs)@, name@, addr),
{
    let i: usize = find_position(ifcs.as_slice(), name);
    if i < ifcs.len() {
        ifcs[i].addr = Some(addr);
    }
}

} // verus!
