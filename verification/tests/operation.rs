use vnet_router::addr::{IpAddr, SocketAddr};
use vnet_router::chunk_queue::{Chunk, ChunkQueue, Stamped};
use vnet_router::config::{Duration, EndpointDependencyType, NATType, RouterConfig};
use vnet_router::error::Error;
use vnet_router::event_loop::{next_action, LoopAction, LoopEvent};
use vnet_router::interface::{set_addr, Interface};
use vnet_router::ip_map::IpMap;
use vnet_router::nic::NIC;
use vnet_router::router::{Router, RouterIdCounter};
use vnet_router::routing::Hop;
use vnet_router::running::{InboundOutcome, Processed, PushOutcome};

type TestRouter = Router<u32, fn(&Chunk<u32>) -> bool>;

struct Host {
    ips: Vec<IpAddr>,
}

impl NIC for Host {
    fn get_interface(&self, _if_name: &str) -> Option<&Interface> {
        None
    }

    fn get_static_ips(&self) -> &[IpAddr] {
        &self.ips
    }
}

fn v4(a: u8, b: u8, c: u8, d: u8) -> IpAddr {
    IpAddr::V4(u32::from_be_bytes([a, b, c, d]))
}

fn make(config: RouterConfig) -> TestRouter {
    TestRouter::new(config, &mut RouterIdCounter::new()).unwrap()
}

fn router(text: &str) -> TestRouter {
    make(RouterConfig { cidr: text.to_string(), ..RouterConfig::default() })
}

fn secs(n: u64) -> Duration {
    Duration { secs: n, subsec_nanos: 0 }
}

fn chunk(payload: u32) -> Chunk<u32> {
    Chunk { destination: v4(192, 0, 2, 1), payload }
}

/// Processes the next chunk: its payload and where it goes, or nothing where a filter dropped it.
fn forwarded(r: &mut TestRouter, now: Duration) -> Option<(u32, Hop)> {
    match r.process_chunks(now) {
        Processed::Forward { chunk, hop } => Some((chunk.payload, hop)),
        Processed::Filtered(_) => None,
        Processed::Rest(d) => panic!("no chunk is due for {:?}", d),
    }
}

/// The time for which no chunk is due.
fn rest(r: &mut TestRouter, now: Duration) -> Duration {
    match r.process_chunks(now) {
        Processed::Rest(d) => d,
        other => panic!("{:?}", other),
    }
}

#[test]
fn stop_follows_start() {
    let mut r = router("192.0.2.0/24");
    assert_eq!(r.stop(), Err(Error::RouterAlreadyStopped));
    assert_eq!(r.start(), Ok(()));
    assert!(r.done && r.push_ch);
    assert_eq!(r.start(), Err(Error::RouterAlreadyStarted));
    assert_eq!(r.stop(), Ok(()));
    assert!(!r.done && !r.push_ch);
    assert_eq!(r.stop(), Err(Error::RouterAlreadyStopped));
    assert_eq!(r.start(), Ok(()));
}

#[test]
fn chunks_wait_in_order() {
    let mut r = router("192.0.2.0/24");
    assert_eq!(r.push(chunk(1), secs(1)), PushOutcome::NotRunning);
    assert_eq!(r.start(), Ok(()));
    assert_eq!(r.push(chunk(2), secs(2)), PushOutcome::Queued { wake: true });
    assert_eq!(r.push(chunk(3), secs(3)), PushOutcome::Queued { wake: true });
    let waiting: Vec<(Duration, u32)> =
        r.queue.chunks.iter().map(|c| (c.timestamp, c.chunk.payload)).collect();
    assert_eq!(waiting, [(secs(2), 2), (secs(3), 3)]);
}

#[test]
fn full_queue_drops_chunks() {
    let mut r = make(RouterConfig {
        cidr: "192.0.2.0/24".to_string(),
        queue_size: 1,
        ..RouterConfig::default()
    });
    assert_eq!(r.start(), Ok(()));
    assert_eq!(r.push(chunk(1), secs(1)), PushOutcome::Queued { wake: true });
    assert_eq!(r.push(chunk(2), secs(2)), PushOutcome::QueueFull);
    assert_eq!(r.queue.chunks.len(), 1);
    assert_eq!(r.queue.chunks[0].chunk.payload, 1);
}

#[test]
fn inbound_chunks_are_pushed() {
    let mut r = router("192.0.2.0/24");
    let outcome: InboundOutcome<u8> = r.on_inbound_chunk(Ok(Some(chunk(1))), secs(1));
    assert!(matches!(outcome, InboundOutcome::Pushed(PushOutcome::NotRunning)));
    assert_eq!(r.start(), Ok(()));
    let outcome: InboundOutcome<u8> = r.on_inbound_chunk(Ok(None), secs(1));
    assert!(matches!(outcome, InboundOutcome::Dropped));
    let outcome: InboundOutcome<u8> = r.on_inbound_chunk(Err(9), secs(1));
    assert!(matches!(outcome, InboundOutcome::NatFailed(9)));
    assert!(r.queue.chunks.is_empty());
    let outcome: InboundOutcome<u8> = r.on_inbound_chunk(Ok(Some(chunk(4))), secs(1));
    assert!(matches!(outcome, InboundOutcome::Pushed(PushOutcome::Queued { wake: true })));
    assert_eq!(r.queue.chunks[0].chunk.payload, 4);
}

#[test]
fn outbound_chunks_are_pushed_at_the_parent() {
    let mut parent = router("192.0.2.0/24");
    assert_eq!(parent.start(), Ok(()));
    let none: Result<Option<Chunk<u32>>, u8> = Ok(None);
    assert_eq!(parent.on_outbound_chunk(none, secs(1)), Ok(None));
    assert_eq!(parent.on_outbound_chunk(Err(9u8), secs(1)), Err(9));
    assert!(parent.queue.chunks.is_empty());
    let some: Result<Option<Chunk<u32>>, u8> = Ok(Some(chunk(4)));
    let queued = PushOutcome::Queued { wake: true };
    assert_eq!(parent.on_outbound_chunk(some, secs(1)), Ok(Some(queued)));
    assert_eq!(parent.queue.chunks[0].chunk.payload, 4);
}

#[test]
fn loop_decisions() {
    let processed = |d: Duration| LoopEvent::<Error>::Processed(Ok(d));
    assert_eq!(next_action(processed(secs(0))), LoopAction::WaitForPush);
    let short = Duration { secs: 0, subsec_nanos: 1 };
    assert_eq!(next_action(processed(short)), LoopAction::Sleep(short));
    assert_eq!(next_action(processed(secs(2))), LoopAction::Sleep(secs(2)));
    let failed = LoopEvent::Processed(Err(Error::InvalidAddr));
    assert_eq!(next_action(failed), LoopAction::Exit);
    assert_eq!(next_action(LoopEvent::<Error>::Pushed), LoopAction::Process);
    assert_eq!(next_action(LoopEvent::<Error>::Elapsed), LoopAction::Process);
    assert_eq!(next_action(LoopEvent::<Error>::Done), LoopAction::Exit);
}

#[test]
fn queue_gives_back_what_was_pushed_first() {
    let mut queue: ChunkQueue<u32> = ChunkQueue::new(2);
    assert!(queue.peek().is_none());
    assert!(queue.pop().is_none());
    assert!(queue.push(Stamped { timestamp: secs(1), chunk: chunk(1) }));
    assert!(queue.push(Stamped { timestamp: secs(2), chunk: chunk(2) }));
    assert!(!queue.push(Stamped { timestamp: secs(3), chunk: chunk(3) }));
    assert_eq!(queue.peek().unwrap().chunk.payload, 1);
    assert_eq!(queue.pop().unwrap().chunk.payload, 1);
    assert_eq!(queue.peek().unwrap().chunk.payload, 2);
    assert_eq!(queue.pop().unwrap().timestamp, secs(2));
    assert!(queue.pop().is_none());
}

#[test]
fn chunks_go_where_their_destination_leads() {
    let mut r = router("192.0.2.0/24");
    assert_eq!(r.add_nic(7, &[v4(192, 0, 2, 5)]), Ok(()));
    assert_eq!(r.hop(v4(192, 0, 2, 5)), Hop::Deliver(7));
    assert_eq!(r.hop(v4(192, 0, 2, 6)), Hop::Unreachable);
    assert_eq!(r.hop(v4(192, 0, 3, 5)), Hop::NoRoute);
    assert_eq!(r.hop(IpAddr::V6(0xc000_0205)), Hop::NoRoute);
    r.parent = Some(3);
    assert_eq!(r.hop(v4(192, 0, 3, 5)), Hop::ToParent(3));
    assert_eq!(r.hop(v4(192, 0, 2, 5)), Hop::Deliver(7));
    assert_eq!(r.hop(v4(192, 0, 2, 6)), Hop::Unreachable);
}

#[test]
fn due_chunks_are_sent_on() {
    let mut r = router("192.0.2.0/24");
    assert_eq!(r.add_net(4, &Host { ips: vec![] }), Ok(()));
    assert_eq!(r.start(), Ok(()));
    assert_eq!(rest(&mut r, secs(1)), secs(0));
    r.push(chunk(1), secs(1));
    r.push(Chunk { destination: v4(192, 0, 2, 2), payload: 2 }, secs(1));
    r.push(Chunk { destination: v4(8, 8, 8, 8), payload: 3 }, secs(1));
    assert_eq!(forwarded(&mut r, secs(1)), Some((1, Hop::Deliver(4))));
    assert_eq!(forwarded(&mut r, secs(1)), Some((2, Hop::Unreachable)));
    assert_eq!(forwarded(&mut r, secs(1)), Some((3, Hop::NoRoute)));
    assert_eq!(rest(&mut r, secs(1)), secs(0));
}

#[test]
fn chunks_wait_for_the_least_delay() {
    let mut r = make(RouterConfig {
        cidr: "192.0.2.0/24".to_string(),
        min_delay: secs(5),
        ..RouterConfig::default()
    });
    assert_eq!(r.start(), Ok(()));
    r.push(chunk(1), secs(10));
    r.push(chunk(2), Duration { secs: 10, subsec_nanos: 3 });
    assert_eq!(rest(&mut r, secs(10)), secs(5));
    assert_eq!(
        rest(&mut r, Duration { secs: 14, subsec_nanos: 999_999_999 }),
        Duration { secs: 0, subsec_nanos: 1 }
    );
    assert_eq!(r.queue.chunks.len(), 2);
    assert_eq!(forwarded(&mut r, secs(15)), Some((1, Hop::Unreachable)));
    assert_eq!(rest(&mut r, secs(15)), Duration { secs: 0, subsec_nanos: 3 });
    assert_eq!(r.queue.chunks.len(), 1);
    assert_eq!(forwarded(&mut r, secs(16)), Some((2, Hop::Unreachable)));
}

#[test]
fn refused_chunks_go_nowhere() {
    let mut r = router("192.0.2.0/24");
    r.add_chunk_filter(|c| c.payload < 10);
    r.add_chunk_filter(|c| c.destination != v4(192, 0, 2, 9));
    assert_eq!(r.start(), Ok(()));
    r.push(chunk(10), secs(1));
    r.push(Chunk { destination: v4(192, 0, 2, 9), payload: 1 }, secs(1));
    r.push(chunk(2), secs(1));
    assert!(matches!(r.process_chunks(secs(1)), Processed::Filtered(c) if c.payload == 10));
    assert_eq!(forwarded(&mut r, secs(1)), None);
    assert_eq!(forwarded(&mut r, secs(1)), Some((2, Hop::Unreachable)));
    assert!(r.queue.chunks.is_empty());
}

#[test]
fn jitter_stays_below_its_greatest_value() {
    let mut r = router("192.0.2.0/24");
    assert_eq!(r.jitter(77), secs(0));
    r.max_jitter = Duration { secs: 1, subsec_nanos: 0 };
    assert_eq!(r.jitter(2_000_000_077), Duration { secs: 0, subsec_nanos: 77 });
    assert_eq!(r.jitter(999_999_999), Duration { secs: 0, subsec_nanos: 999_999_999 });
    assert_eq!(r.jitter(1_000_000_000), secs(0));
}

#[test]
fn addresses_are_handed_out_one_after_the_other() {
    let mut r = router("192.0.2.0/24");
    assert_eq!(r.assign_ip_address(), Ok(v4(192, 0, 2, 1)));
    assert_eq!(r.last_id, 1);
    assert_eq!(r.assign_ip_address(), Ok(v4(192, 0, 2, 2)));
    r.last_id = 9;
    assert_eq!(r.assign_ip_address(), Ok(v4(192, 0, 2, 10)));
    assert_eq!(router("192.0.2.77/24").assign_ip_address(), Ok(v4(192, 0, 2, 1)));
    assert_eq!(router("10.0.0.255/24").assign_ip_address(), Ok(v4(10, 0, 0, 1)));
    let mut six = router("fd00::/16");
    assert_eq!(six.assign_ip_address(), Ok(IpAddr::V6((0xfd00 << 112) + 1)));
    assert_eq!(six.assign_ip_address(), Ok(IpAddr::V6((0xfd00 << 112) + 2)));
    assert_eq!(router("fd00::ff/16").assign_ip_address(), Ok(IpAddr::V6((0xfd00 << 112) + 1)));
}

#[test]
fn small_networks_are_numbered_from_their_first_address() {
    let mut r = router("10.0.0.128/25");
    assert_eq!(r.add_nic(1, &[]), Ok(()));
    assert_eq!(r.nics.get(v4(10, 0, 0, 129)), Some(1));
    assert_eq!(r.add_nic(2, &[]), Ok(()));
    assert_eq!(r.hop(v4(10, 0, 0, 129)), Hop::Deliver(1));
    assert_eq!(r.hop(v4(10, 0, 0, 130)), Hop::Deliver(2));
    r.last_id = 126;
    assert_eq!(r.add_nic(3, &[]), Ok(()));
    assert_eq!(r.hop(v4(10, 0, 0, 255)), Hop::Deliver(3));
    assert_eq!(r.add_nic(4, &[]), Err(Error::StaticIpIsBeyondSubnet));
    assert_eq!(r.last_id, 128);
    assert_eq!(r.nics.len(), 3);

    assert_eq!(router("10.0.0.130/25").assign_ip_address(), Ok(v4(10, 0, 0, 129)));
    assert_eq!(router("10.0.5.7/16").assign_ip_address(), Ok(v4(10, 0, 5, 1)));
    assert_eq!(router("fd00::18/125").assign_ip_address(), Ok(IpAddr::V6((0xfd00 << 112) + 0x19)));
    let mut last = router("255.255.255.252/30");
    assert_eq!(last.assign_ip_address(), Ok(v4(255, 255, 255, 253)));
    last.last_id = 3;
    assert_eq!(last.assign_ip_address(), Ok(v4(0, 0, 0, 0)));
    assert_eq!(last.add_nic(1, &[]), Err(Error::StaticIpIsBeyondSubnet));
    assert_eq!(router("10.0.0.5/32").add_nic(1, &[]), Err(Error::StaticIpIsBeyondSubnet));
}

#[test]
fn routes_of_both_families_are_kept_apart() {
    let mut map: IpMap<u64> = IpMap::new();
    assert_eq!(map.len(), 0);
    map.insert(IpAddr::V4(5), 1);
    map.insert(IpAddr::V6(5), 2);
    map.insert(IpAddr::V4(5), 3);
    assert_eq!(map.len(), 2);
    assert_eq!(map.get(IpAddr::V4(5)), Some(3));
    assert_eq!(map.get(IpAddr::V6(5)), Some(2));
    assert_eq!(map.get(IpAddr::V6(6)), None);
}

#[test]
fn addresses_run_out_after_254() {
    let mut r = router("192.0.2.0/24");
    for n in 0..254u8 {
        assert_eq!(r.last_id, n);
        assert_eq!(r.assign_ip_address(), Ok(v4(192, 0, 2, n + 1)));
    }
    assert_eq!(r.assign_ip_address(), Err(Error::AddressSpaceExhausted));
    assert_eq!(r.last_id, 254);
    assert_eq!(r.add_nic(1, &[]), Err(Error::AddressSpaceExhausted));
    assert_eq!(r.nics.len(), 0);
    assert_eq!(r.add_nic(1, &[v4(192, 0, 2, 9)]), Ok(()));
}

#[test]
fn added_controllers_are_reached() {
    let mut r = router("192.0.2.0/24");
    assert_eq!(r.add_nic(1, &[v4(192, 0, 2, 5), v4(192, 0, 2, 255)]), Ok(()));
    assert_eq!(r.last_id, 0);
    assert_eq!(r.add_nic(2, &[v4(192, 0, 2, 5)]), Ok(()));
    assert_eq!(r.nics.get(v4(192, 0, 2, 5)), Some(2));
    assert_eq!(r.nics.get(v4(192, 0, 2, 255)), Some(1));
    assert_eq!(r.nics.get(v4(192, 0, 2, 6)), None);
}

#[test]
fn controller_without_address_is_served() {
    let mut r = router("192.0.2.0/24");
    assert_eq!(r.add_net(1, &Host { ips: vec![] }), Ok(()));
    assert_eq!(r.nics.get(v4(192, 0, 2, 1)), Some(1));
    assert_eq!(r.last_id, 1);
    assert_eq!(r.add_net(2, &Host { ips: vec![] }), Ok(()));
    assert_eq!(r.nics.get(v4(192, 0, 2, 1)), Some(1));
    assert_eq!(r.nics.get(v4(192, 0, 2, 2)), Some(2));
    assert_eq!(r.nics.len(), 2);
    let mut odd = router("10.0.0.255/24");
    assert_eq!(odd.add_net(1, &Host { ips: vec![] }), Ok(()));
    assert_eq!(odd.nics.get(v4(10, 0, 0, 1)), Some(1));
}

#[test]
fn address_outside_the_network_is_refused() {
    let mut r = router("192.0.2.0/24");
    let host = Host { ips: vec![v4(192, 0, 2, 5), v4(192, 0, 3, 0), v4(192, 0, 2, 6)] };
    assert_eq!(r.add_net(3, &host), Err(Error::StaticIpIsBeyondSubnet));
    assert_eq!(r.nics.get(v4(192, 0, 2, 5)), Some(3));
    assert_eq!(r.nics.get(v4(192, 0, 2, 6)), None);
    assert_eq!(r.add_nic(4, &[v4(192, 0, 1, 255)]), Err(Error::StaticIpIsBeyondSubnet));
    assert_eq!(r.add_nic(4, &[IpAddr::V6(0xc000_0205)]), Err(Error::StaticIpIsBeyondSubnet));
    let mut single = router("192.0.2.0/32");
    assert_eq!(single.add_nic(4, &[]), Err(Error::StaticIpIsBeyondSubnet));
    assert_eq!(single.last_id, 1);
}

#[test]
fn network_of_all_addresses() {
    let mut r = router("10.0.0.0/0");
    assert_eq!(r.add_nic(1, &[v4(255, 255, 255, 255), v4(0, 0, 0, 0)]), Ok(()));
    let mut six = router("::/0");
    assert_eq!(six.add_nic(1, &[IpAddr::V6(u128::MAX)]), Ok(()));
    assert_eq!(six.add_nic(1, &[v4(0, 0, 0, 0)]), Err(Error::StaticIpIsBeyondSubnet));
}

#[test]
fn child_router_is_a_controller() {
    let mut wan = router("192.0.2.0/24");
    let mut lan = make(RouterConfig {
        cidr: "10.0.0.0/8".to_string(),
        static_ips: vec!["192.0.2.9".to_string(), "192.0.2.10".to_string()],
        ..RouterConfig::default()
    });
    assert_eq!(wan.add_router(5, &mut lan), Ok(()));
    assert_eq!(wan.children, [5]);
    assert_eq!(wan.hop(v4(192, 0, 2, 9)), Hop::Deliver(5));
    assert_eq!(wan.hop(v4(192, 0, 2, 10)), Hop::Deliver(5));
    let mut stranger = make(RouterConfig {
        cidr: "10.0.0.0/8".to_string(),
        static_ips: vec!["198.51.100.9".to_string()],
        ..RouterConfig::default()
    });
    assert_eq!(wan.add_router(6, &mut stranger), Err(Error::StaticIpIsBeyondSubnet));
    assert_eq!(wan.children, [5]);
    assert_eq!(stranger.get_interface("eth0").unwrap().addr, None);
    assert_eq!(wan.add_net(7, &router("10.0.0.0/8")), Ok(()));
    assert_eq!(wan.children, [5]);
}

#[test]
fn child_router_gets_its_address() {
    let mut wan = router("192.0.2.0/24");
    let mut lan = router("10.0.0.0/8");
    assert_eq!(wan.add_router(5, &mut lan), Ok(()));
    let eth0 = lan.get_interface("eth0").unwrap();
    assert_eq!(eth0.addr, Some(SocketAddr { ip: v4(192, 0, 2, 1), port: 0 }));
    assert_eq!(lan.get_interface("lo0").unwrap().addr.unwrap().ip, v4(127, 0, 0, 1));
    assert_eq!(lan.set_parent(1).unwrap().mapped_ips, [v4(192, 0, 2, 1)]);
    assert_eq!(lan.parent, Some(1));

    let mut paired = make(RouterConfig {
        cidr: "10.0.0.0/8".to_string(),
        static_ips: vec!["192.0.2.9/10.0.0.9".to_string()],
        ..RouterConfig::default()
    });
    assert_eq!(wan.add_router(6, &mut paired), Ok(()));
    let plan = paired.set_parent(1).unwrap();
    assert_eq!(plan.mapped_ips, [v4(192, 0, 2, 9)]);
    assert_eq!(plan.local_ips, [v4(10, 0, 0, 9)]);
    assert_eq!(wan.last_id, 1);
}

#[test]
fn own_static_ips_play_no_part_below_a_root() {
    let mut plain = router("192.0.2.0/24");
    let mut paired = make(RouterConfig {
        cidr: "192.0.2.0/24".to_string(),
        static_ips: vec!["10.0.0.1/192.0.2.1".to_string()],
        ..RouterConfig::default()
    });
    for r in [&mut plain, &mut paired] {
        assert_eq!(r.add_nic(1, &[]), Ok(()));
        assert_eq!(r.nics.get(v4(192, 0, 2, 1)), Some(1));
        assert_eq!(r.add_nic(2, &[v4(10, 0, 0, 1)]), Err(Error::StaticIpIsBeyondSubnet));
        assert_eq!(r.last_id, 1);
    }
}

#[test]
fn address_is_set_at_the_first_interface_of_a_name() {
    let addr = SocketAddr { ip: v4(192, 0, 2, 3), port: 9 };
    let mut ifcs = vec![
        Interface::ipv4("lo0", None),
        Interface::ipv4("eth0", None),
        Interface::ipv4("eth0", None),
    ];
    set_addr(&mut ifcs, "eth0", addr);
    let addrs: Vec<Option<SocketAddr>> = ifcs.iter().map(|ifc| ifc.addr).collect();
    assert_eq!(addrs, [None, Some(addr), None]);
    set_addr(&mut ifcs, "eth1", addr);
    assert_eq!(ifcs[0].addr, None);
}

#[test]
fn parent_wants_an_address_at_eth0() {
    let mut lan = router("10.0.0.0/8");
    assert_eq!(lan.set_parent(1).err(), Some(Error::NoIpaddrEth0));
    assert_eq!(lan.parent, Some(1));
    assert!(lan.nat_type.is_none());
    let mut bare = TestRouter::default();
    assert_eq!(bare.set_parent(2).err(), Some(Error::NoIpaddrEth0));
}

#[test]
fn translator_is_planned() {
    let mut lan = make(RouterConfig {
        name: "lan".to_string(),
        cidr: "10.0.0.0/8".to_string(),
        static_ips: vec!["192.0.2.9/10.0.0.9".to_string()],
        ..RouterConfig::default()
    });
    lan.interfaces[1].addr = Some(SocketAddr { ip: v4(192, 0, 2, 9), port: 0 });
    let plan = lan.set_parent(1).unwrap();
    assert_eq!(plan.name, "lan");
    assert_eq!(plan.mapped_ips, [v4(192, 0, 2, 9)]);
    assert_eq!(plan.local_ips, [v4(10, 0, 0, 9)]);
    assert_eq!(plan.nat_type.mapping_behavior, EndpointDependencyType::EndpointIndependent);
    assert_eq!(plan.nat_type.filtering_behavior, EndpointDependencyType::EndpointAddrPortDependent);
    assert!(!plan.nat_type.hair_pining);
    assert!(!plan.nat_type.port_preservation);
    assert_eq!(plan.nat_type.mapping_life_time, secs(30));
    assert_eq!(plan.nat_type.others, 0);
    assert_eq!(lan.nat_type, Some(plan.nat_type));
    assert_eq!(lan.parent, Some(1));
    lan.interfaces[1].addr = Some(SocketAddr { ip: v4(192, 0, 2, 10), port: 0 });
    assert!(lan.set_parent(1).unwrap().local_ips.is_empty());
}

#[test]
fn given_translation_is_kept() {
    let nat_type = NATType {
        mapping_behavior: EndpointDependencyType::EndpointAddrDependent,
        filtering_behavior: EndpointDependencyType::EndpointIndependent,
        hair_pining: true,
        port_preservation: true,
        mapping_life_time: secs(5),
        others: 12,
    };
    let mut lan = make(RouterConfig {
        cidr: "10.0.0.0/8".to_string(),
        nat_type: Some(nat_type),
        ..RouterConfig::default()
    });
    lan.interfaces[1].addr = Some(SocketAddr { ip: v4(192, 0, 2, 9), port: 0 });
    assert_eq!(lan.set_parent(1).unwrap().nat_type, nat_type);
}

#[test]
fn filters_are_asked_in_order() {
    let mut r = router("192.0.2.0/24");
    assert!(r.passes_filters(&chunk(1)));
    r.add_chunk_filter(|c| c.payload < 10);
    r.add_chunk_filter(|c| {
        assert!(c.payload < 10);
        c.payload != 5
    });
    assert!(r.passes_filters(&chunk(1)));
    assert!(!r.passes_filters(&chunk(5)));
    assert!(!r.passes_filters(&chunk(10)));
}
