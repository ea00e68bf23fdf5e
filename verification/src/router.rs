//! The router.
use vstd::prelude::*;

use crate::addr::{cidr, cidr_value, IpAddr, IpNet, SocketAddr};
use crate::chunk_queue::ChunkQueue;
use crate::config::{Duration, NATType, RouterConfig};
use crate::error::Error;
use crate::interface::Interface;
use crate::ip_map::IpMap;
use crate::nic::NicId;
use crate::static_ips::{settings_value, StaticIps, StaticIpsView};
use crate::text::{decimal_text, router_name};

verus! {

/// The size of a queue for which the configuration sets none: no bound.
pub const DEFAULT_ROUTER_QUEUE_SIZE: usize = 0;

/// The last number that an address can be handed out with.
pub const LAST_ID: u8 = 0xfe;

/// Numbers the routers that are given no name.
#[derive(Debug)]
pub struct RouterIdCounter {
    pub next: u64,
}

impl RouterIdCounter {
    /// Starts to count at zero.
    pub fn new() -> (res: Self)
        ensures
            res.next == 0,
    {
        RouterIdCounter { next: 0 }
    }

    /// The counter after one number more. Behind the last number it starts again.
    pub open spec fn advanced(self) -> Self {
        RouterIdCounter { next: if self.next == u64::MAX { 0 } else { (self.next + 1) as u64 } }
    }

    /// Generates a router name.
    pub fn assign_router_name(&mut self) -> (res: String)
        ensures
            res@ == router_name(old(self).next as nat),
            *final(self) == old(self).advanced(),
    {
        let n: u64 = self.next;
        self.next = n.wrapping_add(1);
        "router".to_owned().concat(decimal_text(n).as_str())
    }
}

/// A router for chunks with a payload of type `P`, with filters of type `F`.
#[derive(Debug)]
pub struct Router<P, F> {
    pub name: String,
    pub interfaces: Vec<Interface>,
    /// The router's network, of either family.
    pub ipv4net: IpNet,
    /// The addresses that the router asks its parent for.
    pub static_ips: Vec<IpAddr>,
    /// The local addresses that static addresses are paired with.
    pub static_local_ips: IpMap<IpAddr>,
    /// The number of the address that was handed out last: its last octet.
    pub last_id: u8,
    /// The chunks that wait in the router.
    pub queue: ChunkQueue<P>,
    pub parent: Option<NicId>,
    pub children: Vec<NicId>,
    /// How addresses are translated between the router and its parent.
    pub nat_type: Option<NATType>,
    /// To which controller each address leads.
    pub nics: IpMap<NicId>,
    /// Whether the channel is open over which the running router is told to stop.
    pub done: bool,
    /// Whether the channel is open over which the running router is told of a new chunk.
    pub push_ch: bool,
    /// The filters, in the order in which they were added.
    pub chunk_filters: Vec<F>,
    pub min_delay: Duration,
    pub max_jitter: Duration,
}

impl<P, F> Router<P, F> {
    /// What every router keeps.
    pub open spec fn wf(self) -> bool {
        &&& self.ipv4net.wf()
        &&& self.static_view().sound(self.ipv4net)
        &&& self.static_view().balanced()
        &&& self.last_id <= LAST_ID
        &&& self.queue.wf()
        &&& forall|ip: IpAddr| #[trigger] self.nics@.dom().contains(ip) ==> self.ipv4net.has(ip)
        &&& self.done == self.push_ch
    }

    /// The router's static addresses and their local ones.
    pub open spec fn static_view(self) -> StaticIpsView {
        StaticIpsView { ips: self.static_ips@, locals: self.static_local_ips@ }
    }

    /// The router has just been made from these parts: it has interfaces `lo0` and `eth0`, the latter
    /// without an address, an empty queue, and does not run. It has no parent, children, routes or
    /// filters, and has handed out no address.
    pub open spec fn made_from(
        self,
        config: RouterConfig,
        net: IpNet,
        loopback: SocketAddr,
        name: Seq<char>,
        list: StaticIpsView,
    ) -> bool {
        &&& self.name@ == name
        &&& self.interfaces@.len() == 2
        &&& self.interfaces@[0].is_ipv4("lo0"@, Some(loopback))
        &&& self.interfaces@[1].is_ipv4("eth0"@, None)
        &&& self.ipv4net == net
        &&& self.static_view() == list
        &&& self.last_id == 0
        &&& self.queue@.len() == 0
        &&& self.queue.max_size == config.queue_size
        &&& self.parent is None
        &&& self.children@.len() == 0
        &&& self.nat_type == config.nat_type
        &&& self.nics@ == Map::<IpAddr, NicId>::empty()
        &&& !self.done
        &&& !self.push_ch
        &&& self.chunk_filters@.len() == 0
        &&& self.min_delay == config.min_delay
        &&& self.max_jitter == config.max_jitter
    }

    /// The name of a router that is made from `config` while the counter stands at `ids`.
    pub open spec fn name_for(config: RouterConfig, ids: RouterIdCounter) -> Seq<char> {
        if config.name@.len() == 0 {
            router_name(ids.next as nat)
        } else {
            config.name@
        }
    }

    /// What comes of making a router from `config`, once the text of its network has been read: the
    /// static addresses decide. A router without a name uses up a number in any case.
    pub open spec fn construction(
        config: RouterConfig,
        net: IpNet,
        loopback: SocketAddr,
        before: RouterIdCounter,
        after: RouterIdCounter,
        res: Result<Self, Error>,
    ) -> bool {
        &&& after == if config.name@.len() == 0 { before.advanced() } else { before }
        &&& match settings_value(net, config.static_ips@, config.static_ip@) {
            Err(err) => res == Err::<Self, Error>(err),
            Ok(list) => if list.balanced() {
                res matches Ok(router) && router.wf() && router.made_from(
                    config,
                    net,
                    loopback,
                    Self::name_for(config, before),
                    list,
                )
            } else {
                res == Err::<Self, Error>(Error::LocalIpNoStaticsIpsAssociated)
            },
        }
    }

    /// Makes a router from a configuration and what its texts say.
    pub fn assemble(
        config: RouterConfig,
        net: IpNet,
        loopback: SocketAddr,
        name: String,
        list: StaticIps,
    ) -> (res: Result<Self, Error>)
        requires
            net.wf(),
            list.wf(net),
        ensures
            match res {
                Ok(router) => {
                    &&& list@.balanced()
                    &&& router.wf()
                    &&& router.made_from(config, net, loopback, name@, list@)
                },
                Err(err) => !list@.balanced() && err == Error::LocalIpNoStaticsIpsAssociated,
            },
    {
        if !list.is_balanced() {
            return Err(Error::LocalIpNoStaticsIpsAssociated);
        }
        let queue_size: usize = if config.queue_size > 0 {
            config.queue_size
        } else {
            DEFAULT_ROUTER_QUEUE_SIZE
        };
        let mut interfaces: Vec<Interface> = Vec::new();
        interfaces.push(Interface::ipv4("lo0", Some(loopback)));
        interfaces.push(Interface::ipv4("eth0", None));
        Ok(
            Router {
                name,
                interfaces,
                ipv4net: net,
                static_ips: list.ips,
                static_local_ips: list.locals,
                last_id: 0,
                queue: ChunkQueue::new(queue_size),
                parent: None,
                children: Vec::new(),
                nat_type: config.nat_type,
                nics: IpMap::new(),
                done: false,
                push_ch: false,
                chunk_filters: Vec::new(),
                min_delay: config.min_delay,
                max_jitter: config.max_jitter,
            },
        )
    }

    /// Makes a router from a configuration, once the text of its network has been read.
    pub fn with_net(
        config: RouterConfig,
        net: IpNet,
        ids: &mut RouterIdCounter,
    ) -> (res: Result<Self, Error>)
        requires
            net.wf(),
        ensures
            Self::construction(
                config,
                net,
                (SocketAddr { ip: IpAddr::V4(0x7f00_0001), port: 0 }),
                *old(ids),
                *final(ids),
                res,
            ),
    {
        let loopback = SocketAddr { ip: IpAddr::V4(0x7f00_0001), port: 0 };
        let name = if config.name.as_str().is_empty() {
            ids.assign_router_name()
        } else {
            config.name.clone()
        };
        let list = match StaticIps::read(net, &config.static_ips, config.static_ip.as_str()) {
            Ok(list) => list,
            Err(err) => {
                return Err(err);
            },
        };
        Self::assemble(config, net, loopback, name, list)
    }

    /// Makes a router from a configuration. Its interface `lo0` has the address 127.0.0.1.
    pub fn new(config: RouterConfig, ids: &mut RouterIdCounter) -> (res: Result<Self, Error>)
        ensures
            match cidr_value(config.cidr@) {
                None => res == Err::<Self, Error>(Error::InvalidCidr) && *final(ids) == *old(ids),
                Some(net) => Self::construction(
                    config,
                    net,
                    (SocketAddr { ip: IpAddr::V4(0x7f00_0001), port: 0 }),
                    *old(ids),
                    *final(ids),
                    res,
                ),
            },
    {
        match cidr(config.cidr.as_str()) {
            Ok(net) => Self::with_net(config, net, ids),
            Err(err) => Err(err),
        }
    }
}

impl<P, F> Default for Router<P, F> {
    fn default() -> (res: Self)
        ensures
            res.wf(),
            res.name@.len() == 0,
            res.interfaces@.len() == 0,
            res.ipv4net == (IpNet { addr: IpAddr::V4(0), prefix_len: 0 }),
            res.static_view() == StaticIpsView::empty(),
            res.last_id == 0,
            res.queue@.len() == 0,
            res.queue.max_size == 0,
            res.parent is None,
            res.children@.len() == 0,
            res.nat_type is None,
            res.nics@ == Map::<IpAddr, NicId>::empty(),
            !res.done,
            !res.push_ch,
            res.chunk_filters@.len() == 0,
            res.min_delay == (Duration { secs: 0, subsec_nanos: 0 }),
            res.max_jitter == (Duration { secs: 0, subsec_nanos: 0 }),
    {
        Router {
            name: String::new(),
            interfaces: Vec::new(),
            ipv4net: IpNet { addr: IpAddr::V4(0), prefix_len: 0 },
            static_ips: Vec::new(),
            static_local_ips: IpMap::new(),
            last_id: 0,
            queue: ChunkQueue::new(0),
            parent: None,
            children: Vec::new(),
            nat_type: None,
            nics: IpMap::new(),
            done: false,
            push_ch: false,
            chunk_filters: Vec::new(),
            min_delay: Duration::from_secs(0),
            max_jitter: Duration::from_secs(0),
        }
    }
}

} // verus!
