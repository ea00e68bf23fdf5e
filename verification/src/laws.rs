//! What holds of routers across calls.
use vstd::arithmetic::div_mod::{
    lemma_div_denominator, lemma_fundamental_div_mod, lemma_fundamental_div_mod_converse,
    lemma_mod_bound,
};
use vstd::arithmetic::mul::lemma_mul_is_commutative;
use vstd::arithmetic::power2::{
    lemma2_to64, lemma_pow2_adds, lemma_pow2_pos, lemma_pow2_strictly_increases, pow2,
};
use vstd::prelude::*;

use crate::addr::{bits, width, IpAddr, IpNet, SocketAddr};
use crate::chunk_queue::Chunk;
use crate::config::{Duration, NatConfig, RouterConfig};
use crate::error::Error;
use crate::event_loop::{reaction, LoopAction, LoopEvent};
use crate::interface::{
    first_named, ip_of_named, lemma_before_position, lemma_position, position, with_addr, Interface,
};
use crate::nic::{NicId, NIC};
use crate::router::{Router, RouterIdCounter, LAST_ID};
use crate::routing::{block, inside, lemma_base, numbered_ip, routed, Hop};
use crate::running::{passed, Processed, PushOutcome};
use crate::static_ips::{entries_value, entry_value, settings_value, StaticIpsView};
use crate::text::{after_slash, decimal, digit, router_name};

verus! {

/// Different numbers have different notations.
proof fn lemma_decimal_injective(a: nat, b: nat)
    requires
        decimal(a) == decimal(b),
    ensures
        a == b,
    decreases a,
{
    let s = decimal(a);
    let t = decimal(b);
    assert(s.last() == t.last());
    assert(digit(a % 10) == s.last());
    assert(digit(b % 10) == t.last());
    assert(a % 10 == b % 10);
    if a < 10 && b < 10 {
    } else if a < 10 {
        lemma_decimal_not_empty(b / 10);
    } else if b < 10 {
        lemma_decimal_not_empty(a / 10);
    } else {
        assert(s.drop_last() =~= decimal(a / 10));
        assert(t.drop_last() =~= decimal(b / 10));
        lemma_decimal_injective(a / 10, b / 10);
    }
}

proof fn lemma_decimal_not_empty(n: nat)
    ensures
        decimal(n).len() > 0,
{
}

/// Routers that were numbered differently have different names.
pub proof fn router_names_differ(a: nat, b: nat)
    requires
        a != b,
    ensures
        router_name(a) != router_name(b),
{
    if router_name(a) == router_name(b) {
        let len = "router"@.len() as int;
        assert(router_name(a).skip(len) =~= decimal(a));
        assert(router_name(b).skip(len) =~= decimal(b));
        lemma_decimal_injective(a, b);
    }
}

/// The counter after `n` numbers more.
pub open spec fn advanced_by(ids: RouterIdCounter, n: nat) -> RouterIdCounter
    decreases n,
{
    if n == 0 {
        ids
    } else {
        advanced_by(ids, (n - 1) as nat).advanced()
    }
}

proof fn lemma_advanced_by(ids: RouterIdCounter, n: nat)
    ensures
        advanced_by(ids, n).next == (ids.next + n) % 0x1_0000_0000_0000_0000,
    decreases n,
{
    if n > 0 {
        lemma_advanced_by(ids, (n - 1) as nat);
    }
}

/// The names that a counter gives to routers without one are unique: no name comes twice among as many
/// routers as there are numbers.
pub proof fn assigned_names_are_unique(ids: RouterIdCounter, i: nat, j: nat)
    requires
        i < j < i + 0x1_0000_0000_0000_0000,
    ensures
        router_name(advanced_by(ids, i).next as nat) != router_name(
            advanced_by(ids, j).next as nat,
        ),
{
    lemma_advanced_by(ids, i);
    lemma_advanced_by(ids, j);
    router_names_differ(advanced_by(ids, i).next as nat, advanced_by(ids, j).next as nat);
}

/// An entry whose static address cannot be read may as well be left out of the list.
pub proof fn unreadable_entry_is_ignored(
    net: IpNet,
    before: Seq<String>,
    entry: String,
    behind: Seq<String>,
)
    requires
        entry_value(entry@).ip is None,
    ensures
        entries_value(net, before.push(entry) + behind) == entries_value(net, before + behind),
    decreases behind.len(),
{
    if behind.len() == 0 {
        assert(before.push(entry) + behind =~= before.push(entry));
        assert(before + behind =~= before);
        assert(before.push(entry).drop_last() =~= before);
    } else {
        unreadable_entry_is_ignored(net, before, entry, behind.drop_last());
        assert((before.push(entry) + behind).drop_last() =~= before.push(entry)
            + behind.drop_last());
        assert((before + behind).drop_last() =~= before + behind.drop_last());
    }
}

/// A list in which no static address is paired with a local one is never in error.
pub proof fn plain_entries_are_accepted(net: IpNet, entries: Seq<String>)
    requires
        forall|i: int| 0 <= i < entries.len() ==> after_slash(#[trigger] entries[i]@) is None,
    ensures
        entries_value(net, entries) matches Ok(list) && list.balanced() && list.locals == Map::<
            IpAddr,
            IpAddr,
        >::empty(),
    decreases entries.len(),
{
    if entries.len() > 0 {
        assert forall|i: int| 0 <= i < entries.drop_last().len() implies after_slash(
            #[trigger] entries.drop_last()[i]@,
        ) is None by {
            assert(entries.drop_last()[i] == entries[i]);
        }
        plain_entries_are_accepted(net, entries.drop_last());
        assert(entries.last() == entries[entries.len() - 1]);
    }
}

/// The deprecated setting of one static address says what the same text says as a last entry of the
/// list.
pub proof fn static_ip_equals_a_last_entry(net: IpNet, entries: Seq<String>, single: String)
    requires
        single@.len() > 0,
        after_slash(single@) is None,
    ensures
        settings_value(net, entries, single@) == entries_value(net, entries.push(single)),
{
    assert(entries.push(single).drop_last() =~= entries);
}

/// A configuration in which no static address is paired with a local one makes a router, whatever
/// network it names.
pub proof fn plain_config_makes_a_router<P, F>(
    config: RouterConfig,
    net: IpNet,
    loopback: SocketAddr,
    before: RouterIdCounter,
    after: RouterIdCounter,
    res: Result<Router<P, F>, Error>,
)
    requires
        forall|i: int|
            0 <= i < config.static_ips@.len() ==> after_slash(
                #[trigger] config.static_ips@[i]@,
            ) is None,
        Router::construction(config, net, loopback, before, after, res),
    ensures
        res is Ok,
{
    plain_entries_are_accepted(net, config.static_ips@);
}

/// A router that has a local address has one for each of its static addresses, and no static address
/// occurs twice.
pub proof fn local_ips_pair_with_static_ips<P, F>(router: Router<P, F>)
    requires
        router.wf(),
        router.static_local_ips@.dom().len() > 0,
    ensures
        router.static_ips@.no_duplicates(),
        router.static_local_ips@.dom() == router.static_ips@.to_set(),
{
    let ips = router.static_ips@;
    let paired = router.static_local_ips@.dom();
    assert(router.static_view().sound(router.ipv4net));
    ips.lemma_cardinality_of_set();
    assert forall|ip: IpAddr| paired.contains(ip) implies ips.to_set().contains(ip) by {
        assert(router.static_view().locals.dom().contains(ip));
    }
    vstd::set_lib::lemma_len_subset(paired, ips.to_set());
    vstd::set_lib::lemma_subset_equality(paired, ips.to_set());
    ips.lemma_no_dup_set_cardinality();
}

/// The local addresses that a router gives to its network address translator lie in its network.
pub proof fn local_ips_lie_in_network<P, F>(router: Router<P, F>, ip: IpAddr)
    requires
        router.wf(),
    ensures
        forall|i: int|
            0 <= i < router.local_ips_of(ip).len() ==> router.ipv4net.has(
                #[trigger] router.local_ips_of(ip)[i],
            ),
{
    if router.static_local_ips@.dom().contains(ip) {
        assert(router.static_view().locals.dom().contains(ip));
    }
}

/// Stopping undoes starting.
pub proof fn stop_undoes_start<P, F>(router: Router<P, F>)
    requires
        router.wf(),
        !router.done,
    ensures
        router.started().wf(),
        router.started().done,
        router.started().stopped() == router,
{
}

/// Starting undoes stopping.
pub proof fn start_undoes_stop<P, F>(router: Router<P, F>)
    requires
        router.wf(),
        router.done,
    ensures
        router.stopped().wf(),
        !router.stopped().done,
        router.stopped().started() == router,
{
}

/// A running router is told of each chunk that it takes in, and takes in each one where its queue has
/// no bound.
pub proof fn unbounded_queue_takes_all<P, F>(
    before: Router<P, F>,
    after: Router<P, F>,
    chunk: Chunk<P>,
    now: Duration,
    res: PushOutcome,
)
    requires
        before.wf(),
        before.done,
        before.queue.max_size == 0,
        before.chunk_pushed(after, chunk, now, res),
    ensures
        res == (PushOutcome::Queued { wake: true }),
        after.queue@.len() == before.queue@.len() + 1,
{
}

/// A chunk that is pushed leaves those in the queue where they are, and comes behind them.
pub proof fn push_keeps_queued_chunks<P, F>(
    before: Router<P, F>,
    after: Router<P, F>,
    chunk: Chunk<P>,
    now: Duration,
    res: PushOutcome,
)
    requires
        before.chunk_pushed(after, chunk, now, res),
    ensures
        before.queue@.is_prefix_of(after.queue@),
        res is Queued ==> after.queue@.last().chunk == chunk,
{
}

proof fn lemma_inside_bound(net: IpNet, ips: Seq<IpAddr>)
    ensures
        inside(net, ips) <= ips.len(),
        forall|i: int| 0 <= i < inside(net, ips) ==> net.has(#[trigger] ips[i]),
        inside(net, ips) < ips.len() ==> !net.has(ips[inside(net, ips) as int]),
    decreases ips.len(),
{
    if ips.len() > 0 && net.has(ips[0]) {
        let rest = ips.drop_first();
        lemma_inside_bound(net, rest);
        assert forall|i: int| 0 <= i < inside(net, ips) implies net.has(#[trigger] ips[i]) by {
            if i > 0 {
                assert(rest[i - 1] == ips[i]);
            }
        }
    }
}

/// Once a controller has been added, all its addresses lie in the router's network and lead to it, and
/// no other address leads elsewhere than before.
pub proof fn added_nic_is_reached<P, F>(
    before: Router<P, F>,
    after: Router<P, F>,
    nic: NicId,
    asked: Seq<IpAddr>,
)
    requires
        before.nic_added(after, nic, asked, Ok(())),
    ensures
        forall|i: int|
            0 <= i < before.ips_for(asked).len() ==> {
                let ip = #[trigger] before.ips_for(asked)[i];
                before.ipv4net.has(ip) && after.nics@.dom().contains(ip) && after.nics@[ip] == nic
            },
        forall|ip: IpAddr|
            !before.ips_for(asked).contains(ip) ==> {
                &&& #[trigger] after.nics@.dom().contains(ip) == before.nics@.dom().contains(ip)
                &&& before.nics@.dom().contains(ip) ==> after.nics@[ip] == before.nics@[ip]
            },
{
    let ips = before.ips_for(asked);
    lemma_inside_bound(before.ipv4net, ips);
    assert(ips.take(ips.len() as int) =~= ips);
    assert forall|i: int| 0 <= i < ips.len() implies {
        let ip = #[trigger] ips[i];
        before.ipv4net.has(ip) && after.nics@.dom().contains(ip) && after.nics@[ip] == nic
    } by {
        assert(ips.contains(ips[i]));
    }
}

/// Chunks for the addresses of a controller that has been added go to it.
pub proof fn added_nic_gets_its_chunks<P, F>(
    before: Router<P, F>,
    after: Router<P, F>,
    nic: NicId,
    asked: Seq<IpAddr>,
    i: int,
)
    requires
        before.nic_added(after, nic, asked, Ok(())),
        0 <= i < before.ips_for(asked).len(),
    ensures
        after.hop_for(before.ips_for(asked)[i]) == Hop::Deliver(nic),
{
    added_nic_is_reached(before, after, nic, asked);
}

/// Chunks for the addresses of a child router that has been added are routed to it.
pub proof fn added_router_gets_its_chunks<P, F>(
    before: Router<P, F>,
    after: Router<P, F>,
    id: NicId,
    child: Router<P, F>,
    added: Router<P, F>,
    i: int,
)
    requires
        before.router_added(after, id, child, added, Ok(())),
        0 <= i < before.ips_for(child.static_ips@).len(),
    ensures
        after.hop_for(before.ips_for(child.static_ips@)[i]) == Hop::Deliver(id),
        after.children@ == before.children@.push(id),
{
    let routed_to = Router { children: before.children, ..after };
    added_nic_gets_its_chunks(before, routed_to, id, child.static_ips@, i);
}

/// A controller is refused for its addresses only where one of them lies outside the router's network.
pub proof fn refused_nic_has_an_address_outside<P, F>(
    before: Router<P, F>,
    after: Router<P, F>,
    nic: NicId,
    asked: Seq<IpAddr>,
)
    requires
        before.nic_added(after, nic, asked, Err(Error::StaticIpIsBeyondSubnet)),
    ensures
        exists|i: int|
            0 <= i < before.ips_for(asked).len() && !before.ipv4net.has(
                #[trigger] before.ips_for(asked)[i],
            ),
{
    lemma_inside_bound(before.ipv4net, before.ips_for(asked));
}

/// A controller is added, or refused, without regard to the router's own static addresses, and chunks
/// are routed without regard to them: they matter to its parent alone.
pub proof fn own_static_ips_play_no_part<P, F>(
    a: Router<P, F>,
    b: Router<P, F>,
    a_after: Router<P, F>,
    b_after: Router<P, F>,
    nic: NicId,
    asked: Seq<IpAddr>,
    a_res: Result<(), Error>,
    b_res: Result<(), Error>,
    dst: IpAddr,
)
    requires
        b == (Router { static_ips: b.static_ips, static_local_ips: b.static_local_ips, ..a }),
        a.nic_added(a_after, nic, asked, a_res),
        b.nic_added(b_after, nic, asked, b_res),
    ensures
        a_res == b_res,
        a_after.nics@ == b_after.nics@,
        a_after.last_id == b_after.last_id,
        a_after.hop_for(dst) == b_after.hop_for(dst),
{
}

/// A router that is added as any controller is treated as one that asks for its static addresses, and
/// does not become a child.
pub proof fn router_added_as_controller_is_no_child<P, F>(
    before: Router<P, F>,
    after: Router<P, F>,
    id: NicId,
    router: &Router<P, F>,
    asked: &[IpAddr],
    res: Result<(), Error>,
)
    requires
        call_ensures(<Router<P, F> as NIC>::get_static_ips, (router,), asked),
        before.nic_added(after, id, asked@, res),
    ensures
        before.nic_added(after, id, router.static_ips@, res),
        after.children == before.children,
{
}

/// What comes of adding a controller depends on the router and on the addresses that the controller
/// asks for, and on nothing else.
pub proof fn adding_a_controller_is_determined<P, F>(
    before: Router<P, F>,
    one: Router<P, F>,
    other: Router<P, F>,
    nic: NicId,
    asked: Seq<IpAddr>,
    one_res: Result<(), Error>,
    other_res: Result<(), Error>,
)
    requires
        before.nic_added(one, nic, asked, one_res),
        before.nic_added(other, nic, asked, other_res),
    ensures
        one_res == other_res,
        one.nics@ == other.nics@,
        one == (Router { nics: one.nics, ..other }),
        one.children == before.children,
{
}

/// The first of the addresses that are numbered with that of the network.
spec fn base(net: IpNet) -> int {
    bits(net.addr) / block(net) * block(net)
}

/// How many addresses the network's family has.
spec fn addresses(net: IpNet) -> int {
    pow2(width(net.addr) as nat) as int
}

/// What [`numbered_ip`] comes to: the place behind the first numbered address, or the one that
/// follows behind the last address of all.
proof fn lemma_numbered(net: IpNet, n: int)
    requires
        net.wf(),
        0 <= n < 256,
    ensures
        0 < block(net) <= 256,
        0 <= base(net) <= bits(net.addr) < addresses(net),
        width(numbered_ip(net, n)) == width(net.addr),
        bits(numbered_ip(net, n)) == if base(net) + n < addresses(net) {
            base(net) + n
        } else {
            base(net) + n - addresses(net)
        },
{
    lemma2_to64();
    lemma_pow2_adds(64, 64);
    let host_bits = (width(net.addr) - net.prefix_len) as nat;
    lemma_pow2_pos(host_bits);
    if host_bits < 8 {
        lemma_pow2_strictly_increases(host_bits, 8);
    }
    lemma_base(bits(net.addr), block(net));
}

/// The addresses with the numbers below the size of a network are addresses of the network, and no
/// others are.
pub proof fn numbered_ip_lies_in_network(net: IpNet, n: int)
    requires
        net.wf(),
        0 <= n < 256,
    ensures
        net.has(numbered_ip(net, n)) <==> n < net.hosts(),
{
    let host_bits = (width(net.addr) - net.prefix_len) as nat;
    let h = net.hosts();
    let a = bits(net.addr);
    let b = bits(numbered_ip(net, n));
    lemma_numbered(net, n);
    lemma2_to64();
    lemma_pow2_pos(host_bits);
    if host_bits < 8 {
        let q = a / h;
        let k = pow2(net.prefix_len as nat) as int;
        lemma_pow2_adds(host_bits, net.prefix_len as nat);
        lemma_fundamental_div_mod(a, h);
        lemma_fundamental_div_mod(b, h);
        lemma_mod_bound(a, h);
        lemma_mod_bound(b, h);
        assert(addresses(net) == h * k);
        assert(base(net) == h * q) by {
            lemma_mul_is_commutative(h, q);
        }
        assert(h * q + h <= h * k) by (nonlinear_arith)
            requires
                h > 0,
                h * q < h * k,
        ;
        if n < h {
            lemma_fundamental_div_mod_converse(b, h, q, n);
        }
    } else {
        let k = pow2((host_bits - 8) as nat) as int;
        lemma_pow2_adds(8, (host_bits - 8) as nat);
        lemma_pow2_pos((host_bits - 8) as nat);
        lemma_pow2_adds(64, 64);
        assert(b == a / 256 * 256 + n);
        assert(b / 256 == a / 256);
        lemma_div_denominator(a, 256, k);
        lemma_div_denominator(b, 256, k);
    }
}

/// Different numbers stand for different addresses.
pub proof fn numbered_ips_differ(net: IpNet, i: int, j: int)
    requires
        net.wf(),
        0 <= i < j < 256,
    ensures
        numbered_ip(net, i) != numbered_ip(net, j),
{
    lemma_numbered(net, i);
    lemma_numbered(net, j);
    lemma2_to64();
    lemma_pow2_adds(64, 64);
}

/// A router assigns an address to a controller that asks for none exactly as long as it has a number
/// left and its network has an address with that number. The address then leads to the controller.
pub proof fn nic_without_address_is_served<P, F>(
    before: Router<P, F>,
    after: Router<P, F>,
    nic: NicId,
    res: Result<(), Error>,
)
    requires
        before.wf(),
        before.nic_added(after, nic, Seq::empty(), res),
    ensures
        res is Ok <==> before.last_id < LAST_ID && before.last_id + 1 < before.ipv4net.hosts(),
        res is Ok ==> after.nics@ == before.nics@.insert(
            numbered_ip(before.ipv4net, before.last_id + 1),
            nic,
        ),
        res is Err ==> after.nics@ == before.nics@,
{
    let net = before.ipv4net;
    let ip = numbered_ip(net, before.last_id + 1);
    let ips = seq![ip];
    numbered_ip_lies_in_network(net, before.last_id + 1);
    assert(inside(net, ips.drop_first()) == 0);
    assert(ips[0] == ip);
    assert(ips.take(1) =~= ips);
    assert(routed(before.nics@, ips, nic) =~= before.nics@.insert(ip, nic));
    assert(routed(before.nics@, ips.take(0), nic) =~= before.nics@);
}

/// A controller that was given an address keeps its chunks when others that ask for none are added
/// later.
pub proof fn served_nic_keeps_its_chunks<P, F>(
    before: Router<P, F>,
    after: Router<P, F>,
    n: int,
    nic: NicId,
    other: NicId,
    res: Result<(), Error>,
)
    requires
        before.wf(),
        0 < n <= before.last_id,
        before.hop_for(numbered_ip(before.ipv4net, n)) == Hop::Deliver(nic),
        before.nic_added(after, other, Seq::empty(), res),
    ensures
        after.hop_for(numbered_ip(before.ipv4net, n)) == Hop::Deliver(nic),
{
    nic_without_address_is_served(before, after, other, res);
    numbered_ips_differ(before.ipv4net, n, before.last_id + 1);
}

/// The router has an interface `eth0`.
pub open spec fn has_eth0<P, F>(router: Router<P, F>) -> bool {
    first_named(router.interfaces@, "eth0"@) is Some
}

/// A router that has just been made has an interface `eth0`, which has no address yet.
pub proof fn made_router_has_eth0<P, F>(
    router: Router<P, F>,
    config: RouterConfig,
    net: IpNet,
    loopback: SocketAddr,
    name: Seq<char>,
    list: StaticIpsView,
)
    requires
        router.made_from(config, net, loopback, name, list),
    ensures
        has_eth0(router),
        ip_of_named(router.interfaces@, "eth0"@) is None,
{
    reveal_strlit("lo0");
    reveal_strlit("eth0");
    assert("lo0"@.len() != "eth0"@.len());
    lemma_position(router.interfaces@, "eth0"@, 1);
}

/// To give an address to an interface is to give it to the one that goes by the name.
proof fn lemma_with_addr(ifcs: Seq<Interface>, name: Seq<char>, addr: SocketAddr)
    requires
        first_named(ifcs, name) is Some,
    ensures
        ip_of_named(with_addr(ifcs, name, addr), name) == Some(addr.ip),
{
    let n = position(ifcs, name) as int;
    let set = with_addr(ifcs, name, addr);
    lemma_before_position(ifcs, name);
    assert forall|i: int| 0 <= i < n implies (#[trigger] set[i]).name@ != name by {
        assert(set[i] == ifcs[i]);
    }
    lemma_position(set, name, n);
}

/// A child router has been assigned its first address by the time it has been added, so that it can be
/// put below its parent: the translator is made for that address.
pub proof fn added_router_can_be_put_below<P, F>(
    before: Router<P, F>,
    after: Router<P, F>,
    id: NicId,
    child: Router<P, F>,
    added: Router<P, F>,
    below: Router<P, F>,
    parent: NicId,
    res: Result<NatConfig, Error>,
)
    requires
        has_eth0(child),
        before.router_added(after, id, child, added, Ok(())),
        added.parent_set(below, parent, res),
    ensures
        res matches Ok(plan) && plan.mapped_ips@ == seq![before.ips_for(child.static_ips@)[0]],
        below.parent == Some(parent),
{
    let ip = before.ips_for(child.static_ips@)[0];
    lemma_with_addr(child.interfaces@, "eth0"@, SocketAddr { ip, port: 0 });
}

/// One call takes a router from one state to the next. It may be a call on the router, or one that adds
/// it to another router as a child.
pub open spec fn call<P, F: Fn(&Chunk<P>) -> bool>(
    before: Router<P, F>,
    after: Router<P, F>,
) -> bool {
    ||| after == before
    ||| after == before.started()
    ||| after == before.stopped()
    ||| exists|res: Result<IpAddr, Error>| #[trigger] before.ip_assigned(after, res)
    ||| exists|nic: NicId, asked: Seq<IpAddr>, res: Result<(), Error>| #[trigger]
        before.nic_added(after, nic, asked, res)
    ||| exists|id: NicId, child: Router<P, F>, added: Router<P, F>, res: Result<(), Error>|
        #[trigger] before.router_added(after, id, child, added, res)
    ||| exists|
        parent: Router<P, F>,
        parent_after: Router<P, F>,
        id: NicId,
        res: Result<(), Error>,
    | #[trigger] parent.router_added(parent_after, id, before, after, res)
    ||| exists|parent: NicId, res: Result<NatConfig, Error>| #[trigger]
        before.parent_set(after, parent, res)
    ||| exists|chunk: Chunk<P>, now: Duration, res: PushOutcome| #[trigger]
        before.chunk_pushed(after, chunk, now, res)
    ||| exists|now: Duration, res: Processed<P>| #[trigger]
        before.chunk_processed(after, now, res)
    ||| exists|filter: F| #[trigger] before.filter_added(after, filter)
}

/// No call changes the network of a router or takes back a number that an address was handed out with,
/// and none takes its interface `eth0` away.
pub proof fn calls_keep_the_count<P, F: Fn(&Chunk<P>) -> bool>(
    before: Router<P, F>,
    after: Router<P, F>,
)
    requires
        before.wf(),
        call(before, after),
    ensures
        after.ipv4net == before.ipv4net,
        before.last_id <= after.last_id,
        has_eth0(before) ==> has_eth0(after),
{
    if has_eth0(before) {
        if exists|
            parent: Router<P, F>,
            parent_after: Router<P, F>,
            id: NicId,
            res: Result<(), Error>,
        | #[trigger] parent.router_added(parent_after, id, before, after, res) {
            let (parent, parent_after, id, res) = choose|
                parent: Router<P, F>,
                parent_after: Router<P, F>,
                id: NicId,
                res: Result<(), Error>,
            | #[trigger] parent.router_added(parent_after, id, before, after, res);
            let ip = parent.ips_for(before.static_ips@)[0];
            lemma_with_addr(before.interfaces@, "eth0"@, SocketAddr { ip, port: 0 });
        }
    }
}

/// The states `i` and `i + 1` are valid, and one call lies between them.
pub open spec fn called<P, F: Fn(&Chunk<P>) -> bool>(states: Seq<Router<P, F>>, i: int) -> bool {
    states[i].wf() && states[i + 1].wf() && call(states[i], states[i + 1])
}

/// What holds of one call holds of any number of calls.
proof fn lemma_calls_keep_the_count<P, F: Fn(&Chunk<P>) -> bool>(
    states: Seq<Router<P, F>>,
    i: int,
    j: int,
)
    requires
        0 <= i <= j < states.len(),
        forall|k: int| 0 <= k < states.len() - 1 ==> #[trigger] called(states, k),
    ensures
        states[j].ipv4net == states[i].ipv4net,
        states[i].last_id <= states[j].last_id,
    decreases j - i,
{
    if i < j {
        assert(called(states, j - 1));
        lemma_calls_keep_the_count(states, i, j - 1);
        calls_keep_the_count(states[j - 1], states[j]);
    }
}

/// The call that takes a router from one state to the next hands out `ip`: on its own, to a controller,
/// or to a child router.
pub open spec fn hands_out<P, F>(before: Router<P, F>, after: Router<P, F>, ip: IpAddr) -> bool {
    ||| before.ip_assigned(after, Ok(ip))
    ||| exists|nic: NicId, asked: Seq<IpAddr>, res: Result<(), Error>|
        {
            &&& #[trigger] before.nic_added(after, nic, asked, res)
            &&& asked.len() == 0
            &&& before.last_id < LAST_ID
            &&& ip == before.ips_for(asked)[0]
        }
    ||| exists|id: NicId, child: Router<P, F>, added: Router<P, F>, res: Result<(), Error>|
        {
            &&& #[trigger] before.router_added(after, id, child, added, res)
            &&& child.static_ips@.len() == 0
            &&& before.last_id < LAST_ID
            &&& ip == before.ips_for(child.static_ips@)[0]
        }
}

proof fn lemma_hands_out<P, F>(before: Router<P, F>, after: Router<P, F>, ip: IpAddr)
    requires
        before.wf(),
        hands_out(before, after, ip),
    ensures
        before.last_id < LAST_ID,
        after.last_id == before.last_id + 1,
        ip == numbered_ip(before.ipv4net, after.last_id as int),
{
}

/// Two addresses that one router hands out differ, whatever calls lie in between. `states` is what the
/// router has been, call by call; one address is handed out behind the state `i`, and the other behind
/// the state `j`.
pub proof fn handed_out_ips_differ<P, F: Fn(&Chunk<P>) -> bool>(
    states: Seq<Router<P, F>>,
    i: int,
    j: int,
    one: IpAddr,
    other: IpAddr,
)
    requires
        forall|k: int| 0 <= k < states.len() - 1 ==> #[trigger] called(states, k),
        0 <= i < j < states.len() - 1,
        hands_out(states[i], states[i + 1], one),
        hands_out(states[j], states[j + 1], other),
    ensures
        one != other,
{
    assert(called(states, i) && called(states, j));
    lemma_hands_out(states[i], states[i + 1], one);
    lemma_hands_out(states[j], states[j + 1], other);
    lemma_calls_keep_the_count(states, i, j);
    lemma_calls_keep_the_count(states, i + 1, j);
    numbered_ips_differ(
        states[i].ipv4net,
        states[i + 1].last_id as int,
        states[j + 1].last_id as int,
    );
}

/// The call between the states `i` and `i + 1` hands out the address `ips[i]`.
pub open spec fn hands_out_at<P, F>(
    states: Seq<Router<P, F>>,
    ips: Seq<IpAddr>,
    i: int,
) -> bool {
    states[i].wf() && hands_out(states[i], states[i + 1], ips[i])
}

/// A router hands out at most as many addresses as there are numbers for them. `states` is what the
/// router has been after none, one, two, .. of the addresses `ips`.
pub proof fn addresses_run_out<P, F>(states: Seq<Router<P, F>>, ips: Seq<IpAddr>)
    requires
        states.len() == ips.len() + 1,
        states.first().wf(),
        forall|i: int| 0 <= i < ips.len() ==> #[trigger] hands_out_at(states, ips, i),
    ensures
        states.last().last_id == states.first().last_id + ips.len(),
        states.last().last_id <= LAST_ID,
        ips.len() <= LAST_ID,
    decreases ips.len(),
{
    if ips.len() > 0 {
        let n = ips.len() - 1;
        let fewer = states.drop_last();
        assert forall|i: int| 0 <= i < n implies #[trigger] hands_out_at(
            fewer,
            ips.drop_last(),
            i,
        ) by {
            assert(hands_out_at(states, ips, i));
        }
        addresses_run_out(fewer, ips.drop_last());
        assert(hands_out_at(states, ips, n));
        lemma_hands_out(states[n], states[n + 1], ips[n]);
    }
}

/// A filter that cannot let a chunk pass is enough to drop it, wherever the filter stands.
pub proof fn one_filter_drops_a_chunk<P, F: Fn(&Chunk<P>) -> bool>(
    filters: Seq<F>,
    n: int,
    chunk: &Chunk<P>,
)
    requires
        0 <= n < filters.len(),
        !call_ensures(filters[n], (chunk,), true),
    ensures
        !passed(filters, filters.len() as int, chunk),
{
}

/// A filter that is added is asked last: a chunk passes with it where it passes without it and the
/// filter itself lets it pass.
pub proof fn added_filter_is_asked_last<P, F: Fn(&Chunk<P>) -> bool>(
    filters: Seq<F>,
    filter: F,
    chunk: &Chunk<P>,
)
    ensures
        passed(filters.push(filter), (filters.len() + 1) as int, chunk) <==> {
            &&& passed(filters, filters.len() as int, chunk)
            &&& call_ensures(filter, (chunk,), true)
        },
{
    let more = filters.push(filter);
    if passed(more, (filters.len() + 1) as int, chunk) {
        assert forall|i: int| 0 <= i < filters.len() implies call_ensures(
            #[trigger] filters[i],
            (chunk,),
            true,
        ) by {
            assert(more[i] == filters[i]);
        }
        assert(more[filters.len() as int] == filter);
    }
}

/// A chunk that is due and that no filter drops is sent on: to the controller that its destination
/// leads to, where there is one.
pub proof fn due_chunk_is_delivered<P, F: Fn(&Chunk<P>) -> bool>(
    before: Router<P, F>,
    after: Router<P, F>,
    now: Duration,
    res: Processed<P>,
)
    requires
        before.wf(),
        before.first_is_due(now),
        forall|n: int|
            0 <= n < before.chunk_filters@.len() ==> !call_ensures(
                #[trigger] before.chunk_filters@[n],
                (&before.queue@[0].chunk,),
                false,
            ),
        before.nics@.dom().contains(before.queue@[0].chunk.destination),
        before.chunk_processed(after, now, res),
    ensures
        res == (Processed::Forward {
            chunk: before.queue@[0].chunk,
            hop: Hop::Deliver(before.nics@[before.queue@[0].chunk.destination]),
        }),
        after.queue@ == before.queue@.drop_first(),
{
}

/// A chunk that is due leaves the queue and goes nowhere where some filter cannot let it pass.
pub proof fn refused_chunk_goes_nowhere<P, F: Fn(&Chunk<P>) -> bool>(
    before: Router<P, F>,
    after: Router<P, F>,
    now: Duration,
    res: Processed<P>,
    n: int,
)
    requires
        before.first_is_due(now),
        0 <= n < before.chunk_filters@.len(),
        !call_ensures(before.chunk_filters@[n], (&before.queue@[0].chunk,), true),
        before.chunk_processed(after, now, res),
    ensures
        res == Processed::Filtered(before.queue@[0].chunk),
        after.queue@ == before.queue@.drop_first(),
        after == (Router { queue: after.queue, ..before }),
{
    one_filter_drops_a_chunk(before.chunk_filters@, n, &before.queue@[0].chunk);
}

/// No chunk leaves a router before it has waited for the least delay, and the chunks leave in the order
/// in which they wait.
pub proof fn chunks_leave_in_order_and_not_early<P, F: Fn(&Chunk<P>) -> bool>(
    before: Router<P, F>,
    after: Router<P, F>,
    now: Duration,
    res: Processed<P>,
)
    requires
        before.chunk_processed(after, now, res),
        res !is Rest,
    ensures
        before.queue@.len() > 0,
        before.queue@[0].timestamp.nanos() + before.min_delay.nanos() <= now.nanos(),
        after.queue@ == before.queue@.drop_first(),
        match res {
            Processed::Filtered(chunk) => chunk == before.queue@[0].chunk,
            Processed::Forward { chunk, .. } => chunk == before.queue@[0].chunk,
            Processed::Rest(_) => false,
        },
{
}

/// What is pushed into an empty queue comes out of it as soon as the least delay has passed.
pub proof fn pushed_chunk_comes_out<P, F: Fn(&Chunk<P>) -> bool>(
    before: Router<P, F>,
    pushed: Router<P, F>,
    after: Router<P, F>,
    chunk: Chunk<P>,
    then: Duration,
    now: Duration,
    outcome: PushOutcome,
    res: Processed<P>,
)
    requires
        before.wf(),
        before.done,
        before.queue@.len() == 0,
        before.chunk_pushed(pushed, chunk, then, outcome),
        pushed.chunk_processed(after, now, res),
        then.nanos() + before.min_delay.nanos() <= now.nanos(),
    ensures
        res is Filtered ==> res == Processed::Filtered(chunk),
        res is Forward ==> res == (Processed::Forward {
            chunk,
            hop: before.hop_for(chunk.destination),
        }),
        res !is Rest,
        after.queue@.len() == 0,
{
}

/// When no chunk is due, a running router waits for the next push exactly where its queue is empty, and
/// else sleeps.
pub proof fn router_waits_for_a_push_when_its_queue_is_empty<
    P,
    F: Fn(&Chunk<P>) -> bool,
    E,
>(before: Router<P, F>, after: Router<P, F>, now: Duration, d: Duration)
    requires
        before.chunk_processed(after, now, Processed::Rest(d)),
    ensures
        after == before,
        reaction(LoopEvent::<E>::Processed(Ok(d))) == if before.queue@.len() == 0 {
            LoopAction::WaitForPush
        } else {
            LoopAction::Sleep(d)
        },
{
}

/// The loop of a running router ends when the router is stopped or its chunks cannot be processed, and
/// then only.
pub proof fn loop_ends_when_done_or_failed<E>(event: LoopEvent<E>)
    ensures
        reaction(event) is Exit <==> (event is Done || (event matches LoopEvent::Processed(res)
            && res is Err)),
{
}

/// The loop of a running router never sleeps for no time.
pub proof fn loop_sleeps_for_some_time<E>(event: LoopEvent<E>)
    ensures
        reaction(event) != LoopAction::Sleep(Duration { secs: 0, subsec_nanos: 0 }),
{
}

} // verus!
