use vnet_router::addr::{cidr, IpAddr, IpNet, SocketAddr};
use vnet_router::chunk_queue::Chunk;
use vnet_router::config::{Duration, RouterConfig};
use vnet_router::error::Error;
use vnet_router::interface::Kind;
use vnet_router::nic::NIC;
use vnet_router::router::{Router, RouterIdCounter};
use vnet_router::static_ips::{read_entry, Entry, StaticIps};
use vnet_router::text::{cut_at_slash, decimal_text};

type TestRouter = Router<u32, fn(&Chunk<u32>) -> bool>;

fn v4(a: u8, b: u8, c: u8, d: u8) -> IpAddr {
    IpAddr::V4(u32::from_be_bytes([a, b, c, d]))
}

fn loopback() -> SocketAddr {
    SocketAddr { ip: v4(127, 0, 0, 1), port: 0 }
}

fn make(config: RouterConfig, ids: &mut RouterIdCounter) -> Result<TestRouter, Error> {
    TestRouter::new(config, ids)
}

fn with_ips(static_ips: &[&str]) -> RouterConfig {
    RouterConfig {
        cidr: "192.0.2.0/24".to_string(),
        static_ips: static_ips.iter().map(|s| s.to_string()).collect(),
        ..RouterConfig::default()
    }
}

fn failure(static_ips: &[&str]) -> Option<Error> {
    make(with_ips(static_ips), &mut RouterIdCounter::new()).err()
}

#[test]
fn cidr_is_read() {
    assert_eq!(cidr("192.0.2.0/24"), Ok(IpNet { addr: v4(192, 0, 2, 0), prefix_len: 24 }));
    assert_eq!(cidr("192.0.2.77/24"), Ok(IpNet { addr: v4(192, 0, 2, 77), prefix_len: 24 }));
    assert_eq!(cidr("fd00::/16"), Ok(IpNet { addr: IpAddr::V6(0xfd00 << 112), prefix_len: 16 }));
    assert_eq!(cidr("192.0.2.0/33"), Err(Error::InvalidCidr));
    assert_eq!(cidr("192.0.2.0"), Err(Error::InvalidCidr));
    assert_eq!(cidr(""), Err(Error::InvalidCidr));
}

#[test]
fn entry_is_read() {
    assert_eq!(read_entry("10.0.0.1"), Entry { ip: Some(v4(10, 0, 0, 1)), local: None });
    assert_eq!(
        read_entry("10.0.0.1/192.0.2.1"),
        Entry { ip: Some(v4(10, 0, 0, 1)), local: Some(Some(v4(192, 0, 2, 1))) }
    );
    assert_eq!(
        read_entry("::2/192.0.2.1/junk"),
        Entry { ip: Some(IpAddr::V6(2)), local: Some(Some(v4(192, 0, 2, 1))) }
    );
    assert_eq!(read_entry("10.0.0.1/"), Entry { ip: Some(v4(10, 0, 0, 1)), local: Some(None) });
    assert_eq!(read_entry("10.0.0.1/24"), Entry { ip: Some(v4(10, 0, 0, 1)), local: Some(None) });
    assert_eq!(read_entry("junk/192.0.2.1"), Entry { ip: None, local: Some(Some(v4(192, 0, 2, 1))) });
    assert_eq!(read_entry(""), Entry { ip: None, local: None });
}

#[test]
fn text_is_cut_at_its_first_slash() {
    assert_eq!(cut_at_slash("a/b/c"), ("a", Some("b/c")));
    assert_eq!(cut_at_slash("/b"), ("", Some("b")));
    assert_eq!(cut_at_slash("a/"), ("a", Some("")));
    assert_eq!(cut_at_slash("\u{e9}t\u{e9}"), ("\u{e9}t\u{e9}", None));
    assert_eq!(cut_at_slash(""), ("", None));
}

#[test]
fn numbers_are_written_in_decimal() {
    assert_eq!(decimal_text(0), "0");
    assert_eq!(decimal_text(9), "9");
    assert_eq!(decimal_text(10), "10");
    assert_eq!(decimal_text(1203), "1203");
    assert_eq!(decimal_text(u64::MAX), "18446744073709551615");
}

#[test]
fn assigned_names_are_counted() {
    let mut ids = RouterIdCounter::new();
    assert_eq!(ids.assign_router_name(), "router0");
    assert_eq!(ids.assign_router_name(), "router1");
    assert_eq!(ids.next, 2);
    ids.next = u64::MAX;
    assert_eq!(ids.assign_router_name(), "router18446744073709551615");
    assert_eq!(ids.next, 0);
}

#[test]
fn new_wants_a_network() {
    let mut ids = RouterIdCounter::new();
    let config = RouterConfig { cidr: "nonsense".to_string(), ..RouterConfig::default() };
    assert_eq!(TestRouter::new(config, &mut ids).err(), Some(Error::InvalidCidr));
    assert_eq!(ids.next, 0);
}

#[test]
fn plain_config_makes_a_router() {
    let mut ids = RouterIdCounter::new();
    let config = RouterConfig {
        name: "r1".to_string(),
        cidr: "192.0.2.0/24".to_string(),
        ..RouterConfig::default()
    };
    let router = TestRouter::new(config, &mut ids).unwrap();
    assert_eq!(router.name, "r1");
    assert_eq!(ids.next, 0);
    assert_eq!(router.get_interface("lo0").unwrap().addr, Some(loopback()));
}

#[test]
fn network_that_has_been_read_makes_a_router() {
    let mut ids = RouterIdCounter::new();
    let net = IpNet { addr: v4(10, 0, 0, 0), prefix_len: 8 };
    let router = TestRouter::with_net(RouterConfig::default(), net, &mut ids).unwrap();
    assert_eq!(router.name, "router0");
    assert_eq!(router.ipv4net, net);
    assert_eq!(ids.next, 1);
}

#[test]
fn durations_count_nanoseconds() {
    assert_eq!(Duration { secs: 2, subsec_nanos: 7 }.as_nanos(), 2_000_000_007);
    assert_eq!(Duration::from_nanos(2_000_000_007), Duration { secs: 2, subsec_nanos: 7 });
    assert_eq!(Duration::from_nanos(0), Duration::from_secs(0));
    let longest = Duration { secs: u64::MAX, subsec_nanos: 999_999_999 };
    assert_eq!(Duration::from_nanos(longest.as_nanos()), longest);
    assert_eq!(Duration::from_nanos(u128::MAX), longest);
}

#[test]
fn fresh_router() {
    let mut ids = RouterIdCounter::new();
    let router = make(with_ips(&[]), &mut ids).unwrap();
    assert_eq!(router.name, "router0");
    assert_eq!(ids.next, 1);
    assert_eq!(router.ipv4net, IpNet { addr: v4(192, 0, 2, 0), prefix_len: 24 });
    let ifcs = router.get_interfaces();
    assert_eq!(ifcs.len(), 2);
    assert_eq!(ifcs[0].name, "lo0");
    assert_eq!(ifcs[0].kind, Kind::Ipv4);
    assert_eq!(ifcs[0].addr, Some(loopback()));
    assert_eq!(ifcs[1].name, "eth0");
    assert_eq!(ifcs[1].kind, Kind::Ipv4);
    assert_eq!(ifcs[1].addr, None);
    assert_eq!(ifcs[1].mask, None);
    assert_eq!(ifcs[1].hop, None);
    assert!(router.get_static_ips().is_empty());
    assert_eq!(router.queue.max_size, 0);
    assert!(!router.done);
    assert!(!router.push_ch);
    assert_eq!(router.last_id, 0);
    assert!(router.parent.is_none());
}

#[test]
fn given_settings_are_kept() {
    let mut ids = RouterIdCounter::new();
    let config = RouterConfig {
        name: "wan".to_string(),
        queue_size: 7,
        min_delay: Duration { secs: 1, subsec_nanos: 5 },
        max_jitter: Duration { secs: 0, subsec_nanos: 9 },
        ..with_ips(&[])
    };
    let router = make(config, &mut ids).unwrap();
    assert_eq!(router.name, "wan");
    assert_eq!(ids.next, 0);
    assert_eq!(router.queue.max_size, 7);
    assert_eq!(router.min_delay, Duration { secs: 1, subsec_nanos: 5 });
    assert_eq!(router.max_jitter, Duration { secs: 0, subsec_nanos: 9 });
    assert!(router.nat_type.is_none());
}

#[test]
fn default_router() {
    let router = TestRouter::default();
    assert_eq!(router.name, "");
    assert!(router.interfaces.is_empty());
    assert_eq!(router.ipv4net, IpNet { addr: v4(0, 0, 0, 0), prefix_len: 0 });
    assert!(!router.done);
}

#[test]
fn interface_is_found_by_name() {
    let router = make(with_ips(&[]), &mut RouterIdCounter::new()).unwrap();
    assert_eq!(router.get_interface("lo0").map(|i| i.addr), Some(Some(loopback())));
    assert_eq!(router.get_interface("eth0").map(|i| i.addr), Some(None));
    assert!(router.get_interface("eth1").is_none());
}

#[test]
fn static_ips_keep_their_order() {
    let config = RouterConfig {
        static_ip: "10.0.0.3".to_string(),
        ..with_ips(&["10.0.0.2", "junk", "10.0.0.1", "", "::1"])
    };
    let router = make(config, &mut RouterIdCounter::new()).unwrap();
    assert_eq!(
        router.get_static_ips(),
        [v4(10, 0, 0, 2), v4(10, 0, 0, 1), IpAddr::V6(1), v4(10, 0, 0, 3)]
    );
    assert_eq!(router.static_local_ips.len(), 0);
}

#[test]
fn unreadable_deprecated_setting_is_ignored() {
    let config = RouterConfig { static_ip: "junk".to_string(), ..with_ips(&["10.0.0.2"]) };
    let router = make(config, &mut RouterIdCounter::new()).unwrap();
    assert_eq!(router.get_static_ips(), [v4(10, 0, 0, 2)]);
}

#[test]
fn deprecated_setting_equals_a_last_entry() {
    let config = RouterConfig { static_ip: "10.0.0.3".to_string(), ..with_ips(&["10.0.0.2"]) };
    let one = make(config, &mut RouterIdCounter::new()).unwrap();
    let other = make(with_ips(&["10.0.0.2", "10.0.0.3"]), &mut RouterIdCounter::new()).unwrap();
    assert_eq!(one.get_static_ips(), other.get_static_ips());
}

#[test]
fn local_ips_are_paired() {
    let config = with_ips(&["10.0.0.1/192.0.2.1", "10.0.0.2/192.0.2.2"]);
    let router = make(config, &mut RouterIdCounter::new()).unwrap();
    assert_eq!(router.get_static_ips(), [v4(10, 0, 0, 1), v4(10, 0, 0, 2)]);
    assert_eq!(router.static_local_ips.len(), 2);
    assert_eq!(router.static_local_ips.get(v4(10, 0, 0, 1)), Some(v4(192, 0, 2, 1)));
    assert_eq!(router.static_local_ips.get(v4(10, 0, 0, 2)), Some(v4(192, 0, 2, 2)));
    assert_eq!(router.static_local_ips.get(v4(10, 0, 0, 3)), None);
}

#[test]
fn static_ip_errors() {
    assert_eq!(failure(&["10.0.0.1/junk"]), Some(Error::InvalidAddr));
    assert_eq!(failure(&["10.0.0.1/24"]), Some(Error::InvalidAddr));
    assert_eq!(failure(&["10.0.0.1/192.0.3.1"]), Some(Error::LocalIpBeyondStaticIpsSubset));
    assert_eq!(failure(&["10.0.0.1/::1"]), Some(Error::LocalIpBeyondStaticIpsSubset));
    assert_eq!(
        failure(&["10.0.0.1/192.0.2.1", "10.0.0.2"]),
        Some(Error::LocalIpNoStaticsIpsAssociated)
    );
    assert_eq!(
        failure(&["10.0.0.1/192.0.2.1", "10.0.0.1/192.0.2.2"]),
        Some(Error::LocalIpNoStaticsIpsAssociated)
    );
    assert_eq!(failure(&["10.0.0.1/junk", "10.0.0.1/192.0.3.1"]), Some(Error::InvalidAddr));
    assert_eq!(failure(&["junk/junk"]), None);
}

#[test]
fn name_is_used_up_by_a_failure() {
    let mut ids = RouterIdCounter::new();
    assert!(make(with_ips(&["10.0.0.1/junk"]), &mut ids).is_err());
    assert_eq!(ids.next, 1);
}

#[test]
fn list_is_filled_by_entries() {
    let net = IpNet { addr: v4(192, 0, 2, 0), prefix_len: 24 };
    let mut list = StaticIps::new();
    let ip = v4(10, 0, 0, 1);
    assert_eq!(list.add_entry(net, Entry { ip: None, local: Some(None) }), Ok(()));
    assert!(list.ips.is_empty());
    assert_eq!(
        list.add_entry(net, Entry { ip: Some(ip), local: Some(None) }),
        Err(Error::InvalidAddr)
    );
    assert_eq!(
        list.add_entry(net, Entry { ip: Some(ip), local: Some(Some(v4(192, 0, 3, 0))) }),
        Err(Error::LocalIpBeyondStaticIpsSubset)
    );
    assert!(list.ips.is_empty());
    assert_eq!(
        list.add_entry(net, Entry { ip: Some(ip), local: Some(Some(v4(192, 0, 2, 255))) }),
        Ok(())
    );
    assert!(list.is_balanced());
    assert_eq!(list.add_entry(net, Entry { ip: Some(ip), local: None }), Ok(()));
    assert!(!list.is_balanced());
    list.add_single(Some(ip));
    list.add_single(None);
    assert_eq!(list.ips, [ip, ip, ip]);
    let made = TestRouter::assemble(with_ips(&[]), net, loopback(), "r".to_string(), list);
    assert_eq!(made.err(), Some(Error::LocalIpNoStaticsIpsAssociated));
}
