//! How a router gets to know the controllers below it and the router above it.
use vstd::arithmetic::power2::{lemma2_to64, lemma_pow2_pos, lemma_pow2_strictly_increases};
use vstd::prelude::*;

use crate::addr::{bits, net_contains, width, IpAddr, IpNet, SocketAddr};
use crate::config::{default_nat_type, Duration, EndpointDependencyType, NATType, NatConfig};
use crate::error::Error;
use crate::interface::{find_interface, first_named, ip_of_named, set_addr, with_addr, Interface};
use crate::nic::{NicId, NIC};
use crate::router::{Router, LAST_ID};

verus! {

/// How many of the first addresses lie in the network.
pub open spec fn inside(net: IpNet, ips: Seq<IpAddr>) -> nat
    decreases ips.len(),
{
    if ips.len() == 0 || !net.has(ips[0]) {
        0
    } else {
        1 + inside(net, ips.drop_first())
    }
}

/// The routes, with each of the addresses leading to `nic`.
pub open spec fn routed(
    nics: Map<IpAddr, NicId>,
    ips: Seq<IpAddr>,
    nic: NicId,
) -> Map<IpAddr, NicId> {
    nics.union_prefer_right(Map::new(|ip: IpAddr| ips.contains(ip), |ip: IpAddr| nic))
}

/// How many addresses are numbered from one on: those that differ in the last octet alone, or those of
/// the network where it has fewer.
pub open spec fn block(net: IpNet) -> int {
    if width(net.addr) - net.prefix_len < 8 {
        net.hosts()
    } else {
        256
    }
}

/// The address with the number `n`: it comes `n` places behind the first of the addresses that are
/// numbered with that of the network. Behind the last address of all, the first one follows. Addresses
/// of both families are numbered, so that no address is given to a second controller.
pub open spec fn numbered_ip(net: IpNet, n: int) -> IpAddr {
    let place = bits(net.addr) / block(net) * block(net) + n;
    match net.addr {
        IpAddr::V4(_) => IpAddr::V4(
            if place <= u32::MAX {
                place as u32
            } else {
                (place - u32::MAX - 1) as u32
            },
        ),
        IpAddr::V6(_) => IpAddr::V6(
            if place <= u128::MAX {
                place as u128
            } else {
                (place - u128::MAX - 1) as u128
            },
        ),
    }
}

/// The first of the addresses that are numbered with `a` is no address behind it.
pub proof fn lemma_base(a: int, size: int)
    by (nonlinear_arith)
    requires
        0 <= a,
        0 < size,
    ensures
        0 <= a / size * size <= a,
{
}

/// Computes [`block`].
fn block_size(net: IpNet) -> (res: u32)
    requires
        net.wf(),
    ensures
        res == block(net),
        0 < res <= 256,
{
    let host_bits: u8 = match net.addr {
        IpAddr::V4(_) => 32 - net.prefix_len,
        IpAddr::V6(_) => 128 - net.prefix_len,
    };
    if host_bits < 8 {
        proof {
            lemma2_to64();
            lemma_pow2_strictly_increases(host_bits as nat, 8);
            lemma_pow2_pos(host_bits as nat);
            vstd::bits::lemma_u32_shl_is_mul(1, host_bits as u32);
        }
        1u32 << host_bits
    } else {
        256
    }
}

/// Where a chunk goes.
#[derive(Clone, Copy, Debug, PartialEq, Eq, Structural)]
pub enum Hop {
    /// To the controller that its destination leads to.
    Deliver(NicId),
    /// Nowhere: its destination lies in the router's network, and leads to no controller.
    Unreachable,
    /// To the parent router, by way of the network address translator.
    ToParent(NicId),
    /// Nowhere: its destination lies outside the router's network, and there is no parent.
    NoRoute,
}

/// The first addresses that lie in the network are followed by the end, or by one that does not.
proof fn lemma_inside(net: IpNet, ips: Seq<IpAddr>, n: int)
    requires
        0 <= n <= ips.len(),
        forall|i: int| 0 <= i < n ==> net.has(#[trigger] ips[i]),
        n < ips.len() ==> !net.has(ips[n]),
    ensures
        inside(net, ips) == n,
    decreases ips.len(),
{
    if n > 0 {
        assert forall|i: int| 0 <= i < n - 1 implies net.has(#[trigger] ips.drop_first()[i]) by {
            assert(ips.drop_first()[i] == ips[i + 1]);
        }
        lemma_inside(net, ips.drop_first(), n - 1);
    }
}

/// To route one address more is to set its route.
proof fn lemma_routed_push(nics: Map<IpAddr, NicId>, ips: Seq<IpAddr>, ip: IpAddr, nic: NicId)
    ensures
        routed(nics, ips.push(ip), nic) == routed(nics, ips, nic).insert(ip, nic),
{
    let more = ips.push(ip);
    assert forall|k: IpAddr| #[trigger] more.contains(k) == (k == ip || ips.contains(k)) by {
        assert(more[ips.len() as int] == ip);
        if ips.contains(k) {
            let j = choose|j: int| 0 <= j < ips.len() && ips[j] == k;
            assert(more[j] == k);
        }
    }
    assert(routed(nics, more, nic) =~= routed(nics, ips, nic).insert(ip, nic));
}

impl<P, F> NIC for Router<P, F> {
    fn get_interface(&self, if_name: &str) -> (res: Option<&Interface>)
        ensures
            match res {
                Some(ifc) => first_named(self.interfaces@, if_name@) == Some(*ifc),
                None => first_named(self.interfaces@, if_name@) is None,
            },
    {
        find_interface(self.interfaces.as_slice(), if_name)
    }

    fn get_static_ips(&self) -> (res: &[IpAddr])
        ensures
            res@ == self.static_ips@,
    {
        self.static_ips.as_slice()
    }
}

impl<P, F> Router<P, F> {
    /// The interfaces of the router.
    pub fn get_interfaces(&self) -> (res: &[Interface])
        ensures
            res@ == self.interfaces@,
    {
        self.interfaces.as_slice()
    }

    /// The translation that the router uses: the default one where it was given none.
    pub open spec fn effective_nat_type(self) -> NATType {
        match self.nat_type {
            Some(nat_type) => nat_type,
            None => default_nat_type(),
        }
    }

    /// The local address that `ip` is paired with, if there is one.
    pub open spec fn local_ips_of(self, ip: IpAddr) -> Seq<IpAddr> {
        if self.static_local_ips@.dom().contains(ip) {
            seq![self.static_local_ips@[ip]]
        } else {
            Seq::empty()
        }
    }

    /// What comes of putting the router below a parent. The address of `eth0` decides.
    pub open spec fn parent_set(
        self,
        after: Self,
        parent: NicId,
        res: Result<NatConfig, Error>,
    ) -> bool {
        match ip_of_named(self.interfaces@, "eth0"@) {
            None => {
                &&& res matches Err(err) && err == Error::NoIpaddrEth0
                &&& after == (Router { parent: Some(parent), ..self })
            },
            Some(ip) => {
                &&& res matches Ok(plan) && {
                    &&& plan.name@ == self.name@
                    &&& plan.nat_type == self.effective_nat_type()
                    &&& plan.mapped_ips@ == seq![ip]
                    &&& plan.local_ips@ == self.local_ips_of(ip)
                }
                &&& after == (Router {
                    parent: Some(parent),
                    nat_type: Some(self.effective_nat_type()),
                    ..self
                })
            },
        }
    }

    /// Puts the router below a parent, which has assigned an address to `eth0` by then, and says how
    /// the router's network address translator is to be made. The parent is set in any case.
    pub fn set_parent(&mut self, parent: NicId) -> (res: Result<NatConfig, Error>)
        requires
            old(self).wf(),
        ensures
            final(self).wf(),
            old(self).parent_set(*final(self), parent, res),
    {
        self.parent = Some(parent);
        let ip = match find_interface(self.interfaces.as_slice(), "eth0") {
            Some(ifc) => match ifc.addr {
                Some(addr) => addr.ip,
                None => {
                    return Err(Error::NoIpaddrEth0);
                },
            },
            None => {
                return Err(Error::NoIpaddrEth0);
            },
        };
        let mut mapped_ips: Vec<IpAddr> = Vec::new();
        mapped_ips.push(ip);
        let mut local_ips: Vec<IpAddr> = Vec::new();
        if let Some(local) = self.static_local_ips.get(ip) {
            local_ips.push(local);
        }
        let nat_type = match self.nat_type {
            Some(nat_type) => nat_type,
            None => NATType {
                mapping_behavior: EndpointDependencyType::EndpointIndependent,
                filtering_behavior: EndpointDependencyType::EndpointAddrPortDependent,
                hair_pining: false,
                port_preservation: false,
                mapping_life_time: Duration::from_secs(30),
                others: 0,
            },
        };
        self.nat_type = Some(nat_type);
        Ok(NatConfig { name: self.name.clone(), nat_type, mapped_ips, local_ips })
    }

    /// The address of the router's network with the number `n`.
    fn ip_with_number(&self, n: u8) -> (res: IpAddr)
        requires
            self.ipv4net.wf(),
        ensures
            res == numbered_ip(self.ipv4net, n as int),
    {
        let size: u32 = block_size(self.ipv4net);
        match self.ipv4net.addr {
            IpAddr::V4(addr) => {
                proof {
                    lemma_base(addr as int, size as int);
                }
                IpAddr::V4((addr / size * size).wrapping_add(n as u32))
            },
            IpAddr::V6(addr) => {
                let size: u128 = size as u128;
                proof {
                    lemma_base(addr as int, size as int);
                }
                IpAddr::V6((addr / size * size).wrapping_add(n as u128))
            },
        }
    }

    /// What comes of handing out an address: after the last number there is none left.
    pub open spec fn ip_assigned(self, after: Self, res: Result<IpAddr, Error>) -> bool {
        if self.last_id == LAST_ID {
            after == self && res == Err::<IpAddr, Error>(Error::AddressSpaceExhausted)
        } else {
            &&& after == (Router { last_id: (self.last_id + 1) as u8, ..self })
            &&& res == Ok::<IpAddr, Error>(numbered_ip(self.ipv4net, self.last_id + 1))
        }
    }

    /// Hands out an address: the one with the next number.
    pub fn assign_ip_address(&mut self) -> (res: Result<IpAddr, Error>)
        requires
            old(self).wf(),
        ensures
            final(self).wf(),
            old(self).ip_assigned(*final(self), res),
    {
        if self.last_id == LAST_ID {
            return Err(Error::AddressSpaceExhausted);
        }
        self.last_id = self.last_id + 1;
        Ok(self.ip_with_number(self.last_id))
    }

    /// The addresses of a controller that asks for `asked`: the next one that the router hands out,
    /// where it asks for none.
    pub open spec fn ips_for(self, asked: Seq<IpAddr>) -> Seq<IpAddr> {
        if asked.len() == 0 {
            seq![numbered_ip(self.ipv4net, self.last_id + 1)]
        } else {
            asked
        }
    }

    /// What comes of adding a controller that asks for the addresses `asked`. The addresses are
    /// routed one after the other, up to the first that lies outside the router's network.
    pub open spec fn nic_added(
        self,
        after: Self,
        nic: NicId,
        asked: Seq<IpAddr>,
        res: Result<(), Error>,
    ) -> bool {
        if asked.len() == 0 && self.last_id == LAST_ID {
            after == self && res == Err::<(), Error>(Error::AddressSpaceExhausted)
        } else {
            let ips = self.ips_for(asked);
            let n = inside(self.ipv4net, ips);
            &&& after.nics@ == routed(self.nics@, ips.take(n as int), nic)
            &&& after == (Router {
                nics: after.nics,
                last_id: if asked.len() == 0 { (self.last_id + 1) as u8 } else { self.last_id },
                ..self
            })
            &&& res == if n == ips.len() {
                Ok::<(), Error>(())
            } else {
                Err::<(), Error>(Error::StaticIpIsBeyondSubnet)
            }
        }
    }

    /// Adds a controller that asks for the addresses `asked`.
    pub fn add_nic(&mut self, nic: NicId, asked: &[IpAddr]) -> (res: Result<(), Error>)
        requires
            old(self).wf(),
        ensures
            final(self).wf(),
            old(self).nic_added(*final(self), nic, asked@, res),
    {
        let mut ips: Vec<IpAddr> = Vec::new();
        ips.extend_from_slice(asked);
        assert(ips@ =~= asked@);
        if ips.len() == 0 {
            match self.assign_ip_address() {
                Ok(ip) => {
                    ips.push(ip);
                },
                Err(err) => {
                    return Err(err);
                },
            }
        }
        assert(ips@ =~= old(self).ips_for(asked@));
        let ghost start = *self;
        let mut i: usize = 0;
        proof {
            assert(routed(start.nics@, ips@.take(0), nic) =~= start.nics@);
        }
        while i < ips.len()
            invariant
                i <= ips@.len(),
                ips@ == old(self).ips_for(asked@),
                asked@.len() == 0 ==> old(self).last_id < LAST_ID,
                start == (Router {
                    last_id: if asked@.len() == 0 {
                        (old(self).last_id + 1) as u8
                    } else {
                        old(self).last_id
                    },
                    ..*old(self)
                }),
                self.wf(),
                self.nics@ == routed(start.nics@, ips@.take(i as int), nic),
                *self == (Router { nics: self.nics, ..start }),
                forall|j: int| 0 <= j < i ==> self.ipv4net.has(#[trigger] ips@[j]),
            decreases ips@.len() - i,
        {
            let ip = ips[i];
            if !net_contains(self.ipv4net, ip) {
                proof {
                    lemma_inside(self.ipv4net, ips@, i as int);
                }
                return Err(Error::StaticIpIsBeyondSubnet);
            }
            self.nics.insert(ip, nic);
            proof {
                lemma_routed_push(start.nics@, ips@.take(i as int), ip, nic);
                assert(ips@.take(i + 1) =~= ips@.take(i as int).push(ip));
            }
            i = i + 1;
        }
        proof {
            lemma_inside(self.ipv4net, ips@, i as int);
        }
        Ok(())
    }

    /// Adds a controller.
    pub fn add_net<N: NIC + ?Sized>(&mut self, id: NicId, nic: &N) -> (res: Result<(), Error>)
        requires
            old(self).wf(),
        ensures
            final(self).wf(),
            exists|asked: &[IpAddr]| #[trigger]
                call_ensures(N::get_static_ips, (nic,), asked) && old(self).nic_added(
                    *final(self),
                    id,
                    asked@,
                    res,
                ),
    {
        let _ifc = nic.get_interface("eth0");
        let asked = nic.get_static_ips();
        self.add_nic(id, asked)
    }

    /// What comes of adding a child router: it is added as a controller that asks for its static
    /// addresses. If that succeeds, it is a child, and its interface `eth0` has its first address.
    pub open spec fn router_added(
        self,
        after: Self,
        id: NicId,
        child: Self,
        child_after: Self,
        res: Result<(), Error>,
    ) -> bool {
        let asked = child.static_ips@;
        &&& self.nic_added(Router { children: self.children, ..after }, id, asked, res)
        &&& if res is Ok {
            &&& after.children@ == self.children@.push(id)
            &&& child_after.interfaces@ == with_addr(
                child.interfaces@,
                "eth0"@,
                SocketAddr { ip: self.ips_for(asked)[0], port: 0 },
            )
            &&& child_after == (Router { interfaces: child_after.interfaces, ..child })
        } else {
            after.children == self.children && child_after == child
        }
    }

    /// Adds a child router. A router is a controller: it is added as one, so that chunks are routed to
    /// it. It gets its address here.
    pub fn add_router(&mut self, id: NicId, router: &mut Router<P, F>) -> (res: Result<(), Error>)
        requires
            old(self).wf(),
        ensures
            final(self).wf(),
            old(router).wf() ==> final(router).wf(),
            old(self).router_added(*final(self), id, *old(router), *final(router), res),
    {
        match self.add_nic(id, router.get_static_ips()) {
            Ok(()) => {
                self.children.push(id);
                let ip = if router.static_ips.len() > 0 {
                    router.static_ips[0]
                } else {
                    self.ip_with_number(self.last_id)
                };
                set_addr(&mut router.interfaces, "eth0", SocketAddr { ip, port: 0 });
                Ok(())
            },
            Err(err) => Err(err),
        }
    }

    /// Where a chunk for `dst` goes.
    pub open spec fn hop_for(self, dst: IpAddr) -> Hop {
        if self.ipv4net.has(dst) {
            if self.nics@.dom().contains(dst) {
                Hop::Deliver(self.nics@[dst])
            } else {
                Hop::Unreachable
            }
        } else {
            match self.parent {
                Some(parent) => Hop::ToParent(parent),
                None => Hop::NoRoute,
            }
        }
    }

    /// Decides where a chunk for `dst` goes.
    pub fn hop(&self, dst: IpAddr) -> (res: Hop)
        requires
            self.wf(),
        ensures
            res == self.hop_for(dst),
    {
        if net_contains(self.ipv4net, dst) {
            match self.nics.get(dst) {
                Some(nic) => Hop::Deliver(nic),
                None => Hop::Unreachable,
            }
        } else {
            match self.parent {
                Some(parent) => Hop::ToParent(parent),
                None => Hop::NoRoute,
            }
        }
    }
}

} // verus!
