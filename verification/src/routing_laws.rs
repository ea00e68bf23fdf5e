//! What the calls that set up routes do, said of their arguments and results.
use vstd::arithmetic::div_mod::{
    lemma_fundamental_div_mod, lemma_fundamental_div_mod_converse, lemma_mod_bound,
};
use vstd::arithmetic::mul::lemma_mul_is_commutative;
use vstd::arithmetic::power2::{
    lemma2_to64, lemma_pow2_adds, lemma_pow2_pos, lemma_pow2_strictly_increases, pow2,
};
use vstd::prelude::*;

use crate::addr::{IpAddr, IpNet, SocketAddr};
use crate::config::{Duration, EndpointDependencyType, NatConfig};
use crate::error::Error;
use crate::interface::{
    find_interface, lemma_before_position, lemma_position, position, set_addr, Interface, Kind,
};
use crate::laws::{numbered_ip_lies_in_network, numbered_ips_differ};
use crate::nic::{NicId, NIC};
use crate::router::Router;
use crate::routing::{inside, lemma_base, numbered_ip, routed, Hop};

verus! {

/// An address has the prefix of a network: it is of the same family, and agrees with the network's
/// address in all bits but the last ones, which the prefix leaves free.
pub open spec fn shares_prefix(net: IpNet, ip: IpAddr) -> bool {
    match (net.addr, ip) {
        (IpAddr::V4(a), IpAddr::V4(b)) => a as int / pow2((32 - net.prefix_len) as nat) as int
            == b as int / pow2((32 - net.prefix_len) as nat) as int,
        (IpAddr::V6(a), IpAddr::V6(b)) => a as int / pow2((128 - net.prefix_len) as nat) as int
            == b as int / pow2((128 - net.prefix_len) as nat) as int,
        _ => false,
    }
}

/// An address lies in a network where it has the network's prefix.
pub proof fn network_has_what_shares_its_prefix(net: IpNet, ip: IpAddr)
    ensures
        net.has(ip) <==> shares_prefix(net, ip),
{
}

/// Where a chunk goes is decided by its destination: to the controller that it leads to, or, outside
/// the router's network, to the parent. It goes nowhere where there is no such controller or parent.
/// Nothing else of the router plays a part.
pub proof fn hop_goes_by_the_destination<P, F>(r: &Router<P, F>, dst: IpAddr, res: Hop)
    requires
        call_ensures(Router::<P, F>::hop, (r, dst), res),
    ensures
        res is NoRoute <==> !shares_prefix(r.ipv4net, dst) && r.parent is None,
        res is ToParent <==> !shares_prefix(r.ipv4net, dst) && r.parent is Some,
        res is Unreachable <==> shares_prefix(r.ipv4net, dst) && !r.nics@.dom().contains(dst),
        res is Deliver <==> shares_prefix(r.ipv4net, dst) && r.nics@.dom().contains(dst),
        res matches Hop::ToParent(parent) ==> r.parent == Some(parent),
        res matches Hop::Deliver(nic) ==> r.nics@[dst] == nic,
{
}

/// The interface at `i` is the first that goes by the name.
pub open spec fn is_first(ifcs: Seq<Interface>, name: Seq<char>, i: int) -> bool {
    &&& 0 <= i < ifcs.len()
    &&& ifcs[i].name@ == name
    &&& forall|j: int| 0 <= j < i ==> (#[trigger] ifcs[j]).name@ != name
}

/// No interface goes by the name.
pub open spec fn is_missing(ifcs: Seq<Interface>, name: Seq<char>) -> bool {
    forall|j: int| 0 <= j < ifcs.len() ==> (#[trigger] ifcs[j]).name@ != name
}

/// The interface that is found by a name is the first that goes by it. None is found only where no
/// interface does.
pub proof fn first_interface_of_a_name_is_found(
    ifcs: &[Interface],
    name: &str,
    res: Option<&Interface>,
)
    requires
        call_ensures(find_interface, (ifcs, name), res),
    ensures
        res is None <==> is_missing(ifcs@, name@),
        res matches Some(ifc) ==> exists|i: int| #[trigger]
            is_first(ifcs@, name@, i) && *ifc == ifcs@[i],
{
    lemma_before_position(ifcs@, name@);
    if res is Some {
        assert(is_first(ifcs@, name@, position(ifcs@, name@) as int));
    }
}

/// A router answers for its interfaces and its static addresses.
pub proof fn router_answers_as_a_controller<P, F>(
    r: &Router<P, F>,
    name: &str,
    found: Option<&Interface>,
    ifcs: &[Interface],
    ips: &[IpAddr],
)
    requires
        call_ensures(<Router<P, F> as NIC>::get_interface, (r, name), found),
        call_ensures(Router::<P, F>::get_interfaces, (r,), ifcs),
        call_ensures(<Router<P, F> as NIC>::get_static_ips, (r,), ips),
    ensures
        ifcs@ == r.interfaces@,
        ips@ == r.static_ips@,
        found is None <==> is_missing(r.interfaces@, name@),
        found matches Some(ifc) ==> exists|i: int| #[trigger]
            is_first(r.interfaces@, name@, i) && *ifc == r.interfaces@[i],
{
    lemma_before_position(r.interfaces@, name@);
    if found is Some {
        assert(is_first(r.interfaces@, name@, position(r.interfaces@, name@) as int));
    }
}

/// The interfaces are the same, but for the address of the first that goes by the name.
pub open spec fn address_set(
    before: Seq<Interface>,
    after: Seq<Interface>,
    name: Seq<char>,
    addr: SocketAddr,
) -> bool {
    &&& after.len() == before.len()
    &&& forall|i: int|
        0 <= i < before.len() ==> {
            &&& (#[trigger] after[i]).name@ == before[i].name@
            &&& after[i].kind == before[i].kind
            &&& after[i].mask == before[i].mask
            &&& after[i].hop == before[i].hop
            &&& is_first(before, name, i) ==> after[i].addr == Some(addr)
            &&& !is_first(before, name, i) ==> after[i].addr == before[i].addr
        }
}

proof fn lemma_with_addr_sets(ifcs: Seq<Interface>, name: Seq<char>, addr: SocketAddr)
    ensures
        address_set(ifcs, crate::interface::with_addr(ifcs, name, addr), name, addr),
{
    lemma_before_position(ifcs, name);
    let n = position(ifcs, name) as int;
    assert forall|i: int| #[trigger] is_first(ifcs, name, i) implies i == n by {
        lemma_position(ifcs, name, i);
    }
    if n < ifcs.len() {
        assert(is_first(ifcs, name, n));
    }
}

/// An address is given to the first interface of a name, and to no other.
pub proof fn address_goes_to_the_first_of_a_name(
    ifcs: &mut Vec<Interface>,
    name: &str,
    addr: SocketAddr,
)
    requires
        call_ensures(set_addr, (ifcs, name, addr), ()),
    ensures
        address_set(old(ifcs)@, final(ifcs)@, name@, addr),
{
    lemma_with_addr_sets(old(ifcs)@, name@, addr);
}

/// An interface is made as it was asked for.
pub proof fn made_interface_is_as_asked(
    name: &str,
    addr: Option<SocketAddr>,
    res: Interface,
)
    requires
        call_ensures(Interface::ipv4, (name, addr), res),
    ensures
        res.name@ == name@,
        res.kind == Kind::Ipv4,
        res.addr == addr,
        res.mask is None,
        res.hop is None,
{
}

/// A router whose `eth0` has an address can be put below a parent. The translator is then made for that
/// address and the local one that it is paired with, if there is one. The router's own translation
/// type is used, whatever it is, and the default one only where it has none.
pub proof fn translator_is_made_for_eth0<P, F>(
    r: &mut Router<P, F>,
    parent: NicId,
    res: Result<NatConfig, Error>,
    i: int,
    addr: SocketAddr,
)
    requires
        is_first(old(r).interfaces@, "eth0"@, i),
        old(r).interfaces@[i].addr == Some(addr),
        call_ensures(Router::<P, F>::set_parent, (r, parent), res),
    ensures
        res matches Ok(plan) && {
            &&& plan.name@ == old(r).name@
            &&& plan.mapped_ips@.len() == 1
            &&& plan.mapped_ips@[0] == addr.ip
            &&& old(r).nat_type matches Some(given) ==> plan.nat_type == given
            &&& old(r).nat_type is None ==> {
                &&& plan.nat_type.mapping_behavior == EndpointDependencyType::EndpointIndependent
                &&& plan.nat_type.filtering_behavior
                    == EndpointDependencyType::EndpointAddrPortDependent
                &&& !plan.nat_type.hair_pining
                &&& !plan.nat_type.port_preservation
                &&& plan.nat_type.mapping_life_time == (Duration { secs: 30, subsec_nanos: 0 })
                &&& plan.nat_type.others == 0
            }
            &&& final(r).nat_type == Some(plan.nat_type)
            &&& old(r).static_local_ips@.dom().contains(addr.ip) ==> plan.local_ips@.len() == 1
                && plan.local_ips@[0] == old(r).static_local_ips@[addr.ip]
            &&& !old(r).static_local_ips@.dom().contains(addr.ip) ==> plan.local_ips@.len() == 0
        },
        final(r).parent == Some(parent),
        *final(r) == (Router { parent: final(r).parent, nat_type: final(r).nat_type, ..*old(r) }),
{
    lemma_position(old(r).interfaces@, "eth0"@, i);
}

/// A router that has no `eth0`, or none with an address, is refused a translator. Its parent is set all
/// the same, and nothing else changes.
pub proof fn no_translator_without_an_address<P, F>(
    r: &mut Router<P, F>,
    parent: NicId,
    res: Result<NatConfig, Error>,
)
    requires
        is_missing(old(r).interfaces@, "eth0"@) || exists|i: int| #[trigger]
            is_first(old(r).interfaces@, "eth0"@, i) && old(r).interfaces@[i].addr is None,
        call_ensures(Router::<P, F>::set_parent, (r, parent), res),
    ensures
        res matches Err(err) && err == Error::NoIpaddrEth0,
        final(r).parent == Some(parent),
        *final(r) == (Router { parent: final(r).parent, ..*old(r) }),
{
    let ifcs = old(r).interfaces@;
    if is_missing(ifcs, "eth0"@) {
        lemma_position(ifcs, "eth0"@, ifcs.len() as int);
    } else {
        let i = choose|i: int| #[trigger] is_first(ifcs, "eth0"@, i) && ifcs[i].addr is None;
        lemma_position(ifcs, "eth0"@, i);
    }
}

/// How many bits an address of the network's family has.
pub open spec fn family_bits(net: IpNet) -> int {
    if net.addr is V4 {
        32
    } else {
        128
    }
}

/// An address as a number.
pub open spec fn as_number(ip: IpAddr) -> int {
    match ip {
        IpAddr::V4(n) => n as int,
        IpAddr::V6(n) => n as int,
    }
}

/// The address is the one that goes by the number `n` in the network. In a network of at least 256
/// addresses it is the network's address with `n` for its last octet. In a smaller one it comes `n`
/// places behind the first, and lies outside where the network has too few addresses.
pub open spec fn goes_by_number(net: IpNet, n: int, ip: IpAddr) -> bool {
    let hosts = pow2((family_bits(net) - net.prefix_len) as nat) as int;
    &&& ip is V4 <==> net.addr is V4
    &&& hosts >= 256 ==> {
        &&& as_number(ip) / 256 == as_number(net.addr) / 256
        &&& as_number(ip) % 256 == n
    }
    &&& n < hosts ==> shares_prefix(net, ip)
    &&& hosts < 256 && n < hosts ==> as_number(ip) % hosts == n
    &&& n >= hosts ==> !shares_prefix(net, ip)
}

proof fn lemma_goes_by_number(net: IpNet, n: int)
    requires
        net.wf(),
        0 <= n < 256,
    ensures
        goes_by_number(net, n, numbered_ip(net, n)),
{
    let host_bits = (family_bits(net) - net.prefix_len) as nat;
    let hosts = pow2(host_bits) as int;
    let a = as_number(net.addr);
    let ip = numbered_ip(net, n);
    let b = as_number(ip);
    lemma2_to64();
    lemma_pow2_adds(64, 64);
    lemma_pow2_pos(host_bits);
    numbered_ip_lies_in_network(net, n);
    if host_bits < 8 {
        lemma_pow2_strictly_increases(host_bits, 8);
        let q = a / hosts;
        let k = pow2(net.prefix_len as nat) as int;
        lemma_pow2_adds(host_bits, net.prefix_len as nat);
        lemma_base(a, hosts);
        lemma_fundamental_div_mod(a, hosts);
        lemma_mod_bound(a, hosts);
        lemma_mul_is_commutative(hosts, q);
        assert(hosts * q + hosts <= hosts * k) by (nonlinear_arith)
            requires
                hosts > 0,
                hosts * q < hosts * k,
        ;
        if n < hosts {
            assert(b == hosts * q + n);
            lemma_fundamental_div_mod_converse(b, hosts, q, n);
        }
    } else if host_bits > 8 {
        lemma_pow2_strictly_increases(8, host_bits);
    }
}

/// A router hands out the address that goes by the next number, as long as there is one up to 254.
pub proof fn address_of_the_next_number_is_handed_out<P, F>(
    r: &mut Router<P, F>,
    res: Result<IpAddr, Error>,
)
    requires
        old(r).wf(),
        call_ensures(Router::<P, F>::assign_ip_address, (r,), res),
    ensures
        res is Err <==> old(r).last_id == 254,
        res matches Err(err) ==> err == Error::AddressSpaceExhausted && *final(r) == *old(r),
        res matches Ok(ip) ==> {
            &&& final(r).last_id == old(r).last_id + 1
            &&& goes_by_number(old(r).ipv4net, old(r).last_id + 1, ip)
        },
        *final(r) == (Router { last_id: final(r).last_id, ..*old(r) }),
{
    if res is Ok {
        lemma_goes_by_number(old(r).ipv4net, old(r).last_id + 1);
    }
}

/// Two addresses that are handed out one after the other differ.
pub proof fn handed_out_addresses_differ<P, F>(
    r: &mut Router<P, F>,
    later: &mut Router<P, F>,
    one: IpAddr,
    other: IpAddr,
)
    requires
        old(r).wf(),
        old(later).wf(),
        call_ensures(Router::<P, F>::assign_ip_address, (r,), Ok(one)),
        final(r).ipv4net == old(later).ipv4net,
        final(r).last_id <= old(later).last_id,
        call_ensures(Router::<P, F>::assign_ip_address, (later,), Ok(other)),
    ensures
        one != other,
{
    numbered_ips_differ(old(r).ipv4net, old(r).last_id + 1, old(later).last_id + 1);
}

/// Exactly the first `k` addresses of the list lie in the network before one that does not, or all
/// `k` of them.
pub open spec fn first_inside(net: IpNet, ips: Seq<IpAddr>, k: int) -> bool {
    &&& 0 <= k <= ips.len()
    &&& forall|i: int| 0 <= i < k ==> shares_prefix(net, #[trigger] ips[i])
    &&& k < ips.len() ==> !shares_prefix(net, ips[k])
}

/// The first `k` addresses lead to the controller, and each other address leads where it led before.
pub open spec fn leads_to(
    before: Map<IpAddr, NicId>,
    after: Map<IpAddr, NicId>,
    ips: Seq<IpAddr>,
    k: int,
    nic: NicId,
) -> bool {
    &&& forall|i: int|
        0 <= i < k ==> after.dom().contains(#[trigger] ips[i]) && after[ips[i]] == nic
    &&& forall|ip: IpAddr|
        (forall|i: int| 0 <= i < k ==> ips[i] != ip) ==> {
            &&& #[trigger] after.dom().contains(ip) == before.dom().contains(ip)
            &&& before.dom().contains(ip) ==> after[ip] == before[ip]
        }
}

/// A controller that asks for addresses was added or refused. It is refused where one of its addresses
/// lies outside the network. The addresses before that one lead to it then, and all where there is
/// none. No address is handed out, and nothing but the routes changes.
pub open spec fn controller_added<P, F>(
    before: Router<P, F>,
    after: Router<P, F>,
    nic: NicId,
    asked: Seq<IpAddr>,
    k: int,
    res: Result<(), Error>,
) -> bool {
    &&& res is Ok <==> k == asked.len()
    &&& res matches Err(err) ==> err == Error::StaticIpIsBeyondSubnet
    &&& leads_to(before.nics@, after.nics@, asked, k, nic)
    &&& after == (Router { nics: after.nics, ..before })
}

/// A controller that asks for no address was given `ip`, the one that goes by the next number, or
/// refused: where no number is left, and where the address lies outside the network.
pub open spec fn controller_served<P, F>(
    before: Router<P, F>,
    after: Router<P, F>,
    nic: NicId,
    ip: IpAddr,
    res: Result<(), Error>,
) -> bool {
    &&& before.last_id == 254 ==> {
        &&& res == Err::<(), Error>(Error::AddressSpaceExhausted)
        &&& after == before
    }
    &&& before.last_id != 254 ==> {
        &&& goes_by_number(before.ipv4net, before.last_id + 1, ip)
        &&& after.last_id == before.last_id + 1
        &&& res is Ok <==> shares_prefix(before.ipv4net, ip)
        &&& res is Ok ==> leads_to(before.nics@, after.nics@, seq![ip], 1, nic)
        &&& res matches Err(err) ==> err == Error::StaticIpIsBeyondSubnet && after.nics@
            == before.nics@
    }
    &&& after == (Router { nics: after.nics, last_id: after.last_id, ..before })
}

proof fn lemma_inside_is(net: IpNet, ips: Seq<IpAddr>, k: int)
    requires
        first_inside(net, ips, k),
    ensures
        inside(net, ips) == k,
    decreases ips.len(),
{
    if k > 0 {
        let rest = ips.drop_first();
        assert(shares_prefix(net, ips[0]));
        assert forall|i: int| 0 <= i < k - 1 implies shares_prefix(net, #[trigger] rest[i]) by {
            assert(rest[i] == ips[i + 1]);
        }
        lemma_inside_is(net, rest, k - 1);
    }
}

proof fn lemma_routed_leads(nics: Map<IpAddr, NicId>, ips: Seq<IpAddr>, k: int, nic: NicId)
    requires
        0 <= k <= ips.len(),
    ensures
        leads_to(nics, routed(nics, ips.take(k), nic), ips, k, nic),
{
    let first = ips.take(k);
    assert forall|i: int| 0 <= i < k implies first.contains(#[trigger] ips[i]) by {
        assert(first[i] == ips[i]);
    }
    assert forall|ip: IpAddr|
        (forall|i: int| 0 <= i < k ==> ips[i] != ip) implies !(#[trigger] first.contains(ip)) by {
        if first.contains(ip) {
            let i = choose|i: int| 0 <= i < first.len() && first[i] == ip;
            assert(ips[i] == ip);
        }
    }
}

proof fn lemma_controller_added<P, F>(
    before: Router<P, F>,
    after: Router<P, F>,
    nic: NicId,
    asked: Seq<IpAddr>,
    k: int,
    res: Result<(), Error>,
)
    requires
        asked.len() > 0,
        first_inside(before.ipv4net, asked, k),
        before.nic_added(after, nic, asked, res),
    ensures
        controller_added(before, after, nic, asked, k, res),
{
    lemma_inside_is(before.ipv4net, asked, k);
    lemma_routed_leads(before.nics@, asked, k, nic);
}

proof fn lemma_controller_served<P, F>(
    before: Router<P, F>,
    after: Router<P, F>,
    nic: NicId,
    asked: Seq<IpAddr>,
    res: Result<(), Error>,
)
    requires
        before.wf(),
        asked.len() == 0,
        before.nic_added(after, nic, asked, res),
    ensures
        controller_served(
            before,
            after,
            nic,
            numbered_ip(before.ipv4net, before.last_id + 1),
            res,
        ),
{
    if before.last_id != 254 {
        let net = before.ipv4net;
        let ip = numbered_ip(net, before.last_id + 1);
        let ips = seq![ip];
        lemma_goes_by_number(net, before.last_id + 1);
        assert(ips[0] == ip);
        let k: int = if shares_prefix(net, ip) { 1 } else { 0 };
        lemma_inside_is(net, ips, k);
        lemma_routed_leads(before.nics@, ips, k, nic);
        assert(routed(before.nics@, ips.take(0), nic) =~= before.nics@);
    }
}

/// A controller is reached at all the addresses that it asks for, up to one outside the network.
pub proof fn asked_addresses_lead_to_the_controller<P, F>(
    r: &mut Router<P, F>,
    nic: NicId,
    asked: &[IpAddr],
    res: Result<(), Error>,
    k: int,
)
    requires
        asked@.len() > 0,
        first_inside(old(r).ipv4net, asked@, k),
        call_ensures(Router::<P, F>::add_nic, (r, nic, asked), res),
    ensures
        controller_added(*old(r), *final(r), nic, asked@, k, res),
{
    lemma_controller_added(*old(r), *final(r), nic, asked@, k, res);
}

/// A controller that asks for no address is given the next one.
pub proof fn controller_without_address_is_given_one<P, F>(
    r: &mut Router<P, F>,
    nic: NicId,
    asked: &[IpAddr],
    res: Result<(), Error>,
)
    requires
        old(r).wf(),
        asked@.len() == 0,
        call_ensures(Router::<P, F>::add_nic, (r, nic, asked), res),
    ensures
        exists|ip: IpAddr| #[trigger] controller_served(*old(r), *final(r), nic, ip, res),
{
    lemma_controller_served(*old(r), *final(r), nic, asked@, res);
}

/// A controller that is added with its own addresses is treated by the addresses that it can ask for.
pub proof fn controller_is_added_by_its_addresses<P, F, N: NIC + ?Sized>(
    r: &mut Router<P, F>,
    id: NicId,
    nic: &N,
    res: Result<(), Error>,
    asked: Seq<IpAddr>,
    k: int,
)
    requires
        old(r).wf(),
        forall|ips: &[IpAddr]| #[trigger]
            call_ensures(N::get_static_ips, (nic,), ips) ==> ips@ == asked,
        first_inside(old(r).ipv4net, asked, k),
        call_ensures(Router::<P, F>::add_net::<N>, (r, id, nic), res),
    ensures
        asked.len() > 0 ==> controller_added(*old(r), *final(r), id, asked, k, res),
        asked.len() == 0 ==> exists|ip: IpAddr| #[trigger]
            controller_served(*old(r), *final(r), id, ip, res),
{
    if asked.len() > 0 {
        lemma_controller_added(*old(r), *final(r), id, asked, k, res);
    } else {
        lemma_controller_served(*old(r), *final(r), id, asked, res);
    }
}

/// What adding a router changed at it and in the list of children: its `eth0` has the address, and it
/// stands behind the other children, where it was accepted, and nothing where it was refused.
pub open spec fn child_joined<P, F>(
    before: Router<P, F>,
    after: Router<P, F>,
    id: NicId,
    child: Router<P, F>,
    child_after: Router<P, F>,
    ip: IpAddr,
    res: Result<(), Error>,
) -> bool {
    &&& res is Ok ==> {
        &&& after.children@.len() == before.children@.len() + 1
        &&& after.children@.last() == id
        &&& after.children@.drop_last() == before.children@
        &&& address_set(
            child.interfaces@,
            child_after.interfaces@,
            "eth0"@,
            SocketAddr { ip, port: 0 },
        )
        &&& child_after == (Router { interfaces: child_after.interfaces, ..child })
    }
    &&& res is Err ==> after.children@ == before.children@ && child_after == child
}

/// A router that has static addresses is added as a controller that asks for them, and its `eth0` gets
/// the first.
pub proof fn child_is_reached_at_its_static_addresses<P, F>(
    r: &mut Router<P, F>,
    id: NicId,
    child: &mut Router<P, F>,
    res: Result<(), Error>,
    k: int,
)
    requires
        old(child).static_ips@.len() > 0,
        first_inside(old(r).ipv4net, old(child).static_ips@, k),
        call_ensures(Router::<P, F>::add_router, (r, id, child), res),
    ensures
        controller_added(
            *old(r),
            (Router { children: old(r).children, ..*final(r) }),
            id,
            old(child).static_ips@,
            k,
            res,
        ),
        child_joined(
            *old(r),
            *final(r),
            id,
            *old(child),
            *final(child),
            old(child).static_ips@[0],
            res,
        ),
{
    let asked = old(child).static_ips@;
    lemma_controller_added(
        *old(r),
        Router { children: old(r).children, ..*final(r) },
        id,
        asked,
        k,
        res,
    );
    lemma_with_addr_sets(
        old(child).interfaces@,
        "eth0"@,
        SocketAddr { ip: asked[0], port: 0 },
    );
    if res is Ok {
        assert(final(r).children@.drop_last() =~= old(r).children@);
    }
}

/// A router that has no static address is given the next one, which its `eth0` gets.
pub proof fn child_without_address_is_given_one<P, F>(
    r: &mut Router<P, F>,
    id: NicId,
    child: &mut Router<P, F>,
    res: Result<(), Error>,
)
    requires
        old(r).wf(),
        old(child).static_ips@.len() == 0,
        call_ensures(Router::<P, F>::add_router, (r, id, child), res),
    ensures
        exists|ip: IpAddr|
            {
                &&& controller_served(
                    *old(r),
                    (Router { children: old(r).children, ..*final(r) }),
                    id,
                    ip,
                    res,
                )
                &&& #[trigger] child_joined(
                    *old(r),
                    *final(r),
                    id,
                    *old(child),
                    *final(child),
                    ip,
                    res,
                )
            },
{
    let ip = numbered_ip(old(r).ipv4net, old(r).last_id + 1);
    let routes_set = Router { children: old(r).children, ..*final(r) };
    lemma_controller_served(*old(r), routes_set, id, old(child).static_ips@, res);
    lemma_with_addr_sets(old(child).interfaces@, "eth0"@, SocketAddr { ip, port: 0 });
    if res is Ok {
        assert(final(r).children@.drop_last() =~= old(r).children@);
    }
    assert(child_joined(*old(r), *final(r), id, *old(child), *final(child), ip, res));
}

/// Once a controller has been added, chunks for its addresses are delivered to it.
pub proof fn chunks_reach_an_added_controller<P, F>(
    r: &mut Router<P, F>,
    nic: NicId,
    asked: &[IpAddr],
    i: int,
    hop: Hop,
)
    requires
        0 <= i < asked@.len(),
        first_inside(old(r).ipv4net, asked@, asked@.len() as int),
        call_ensures(Router::<P, F>::add_nic, (r, nic, asked), Ok(())),
        call_ensures(Router::<P, F>::hop, (&*final(r), asked@[i]), hop),
    ensures
        hop == Hop::Deliver(nic),
{
    asked_addresses_lead_to_the_controller(r, nic, asked, Ok(()), asked@.len() as int);
}

} // verus!
