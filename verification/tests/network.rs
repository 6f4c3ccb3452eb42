use ffs::network::{
    choose_ip_version, domain_of, is_ipv4_multicast, is_ipv6_multicast, multicast_addr,
    multicast_bind_addr, IpVersion, PeerAddr, IPV4_MULTICAST_ADDR, IPV6_MULTICAST_ADDR,
    MULTICAST_LISTEN_PORT,
};
use ffs::network::paths::{is_inside_root, remote_path, PathPart};
use ffs::network::peers::PeerSet;

fn v4(ip: u32, port: u16) -> PeerAddr {
    PeerAddr::V4 { ip, port }
}

#[test]
fn is_multicast() {
    assert!(is_ipv4_multicast(IPV4_MULTICAST_ADDR));
    assert!(is_ipv6_multicast(IPV6_MULTICAST_ADDR));
}

#[test]
fn unicast_is_not_multicast() {
    assert!(!is_ipv4_multicast(0x7f00_0001));
    assert!(!is_ipv4_multicast(0xf000_0000));
    assert!(is_ipv4_multicast(0xefff_ffff));
    assert!(!is_ipv6_multicast(1));
    assert!(is_ipv6_multicast(u128::MAX));
}

#[test]
fn group_addresses() {
    assert_eq!(IPV4_MULTICAST_ADDR.to_be_bytes(), [224, 0, 0, 242]);
    assert_eq!(
        IPV6_MULTICAST_ADDR.to_be_bytes(),
        [0xff, 0x08, 0, 0, 0, 0, 0, 0, 0, 0, 0, 0, 0, 0xda, 0, 0xda]
    );
    assert_eq!(MULTICAST_LISTEN_PORT, 43549);
}

#[test]
fn clients_and_servers_meet() {
    let client = v4(0x7f00_0001, 1234);
    let server = v4(0xc0a8_0001, 4321);
    assert_eq!(domain_of(client), IpVersion::V4);
    assert_eq!(multicast_addr(client), v4(0xe000_00f2, 43549));
    assert_eq!(multicast_bind_addr(server), v4(0xc0a8_0001, 43549));

    let six = PeerAddr::V6 { ip: 7, port: 1, flowinfo: 2, scope_id: 3 };
    assert_eq!(domain_of(six), IpVersion::V6);
    assert_eq!(
        multicast_addr(six),
        PeerAddr::V6 { ip: IPV6_MULTICAST_ADDR, port: 43549, flowinfo: 0, scope_id: 0 }
    );
    assert_eq!(
        multicast_bind_addr(six),
        PeerAddr::V6 { ip: 7, port: 43549, flowinfo: 0, scope_id: 0 }
    );
}

#[test]
fn ip_version_defaults_to_six() {
    assert_eq!(choose_ip_version(true, false), IpVersion::V4);
    assert_eq!(choose_ip_version(false, true), IpVersion::V6);
    assert_eq!(choose_ip_version(false, false), IpVersion::V6);
}

#[test]
fn paths_inside_of_the_root() {
    for path in ["a", "a/b", ".", "...", "a/..b", "a../b", "a/b..", "..a", "caf\u{e9}/x", "a/.."] {
        assert!(is_inside_root(path), "{}", path);
    }
    for path in ["a/../b", "a/b/../..", "a/b/../../c", "\u{e9}/../x", "a//b", "a/./b", "a/"] {
        assert!(is_inside_root(path), "{}", path);
    }
    for path in ["", "/", "/a", "..", "../a", "./..", "a/../..", "a/../../b", "a//../../b"] {
        assert!(!is_inside_root(path), "{}", path);
    }
}

#[test]
fn paths_for_servers() {
    let name = |text: &str| PathPart::Name(String::from(text));
    let cases = vec![
        (vec![name("a")], Some("a")),
        (vec![PathPart::Current, name("a"), PathPart::Current, name("b")], Some("a/b")),
        (vec![PathPart::Root, name("a"), name("b")], Some("b")),
        (vec![PathPart::Parent, name("a"), name("b")], Some("b")),
        (vec![name("a"), PathPart::Parent, name("b")], Some("a/../b")),
        (vec![name("a"), PathPart::Parent, PathPart::Parent, name("b")], Some("b")),
        (vec![name("a"), name("b"), name("c")], Some("a/b/c")),
        (vec![name("a"), PathPart::Parent], None),
        (vec![PathPart::Root], None),
        (vec![PathPart::Current], None),
        (vec![], None),
    ];
    for (parts, expected) in cases {
        let path = remote_path(&parts);
        assert_eq!(path.as_deref(), expected);
        assert!(path.map_or(true, |path| is_inside_root(&path)));
    }
}

#[test]
fn peer_sets() {
    let mut set = PeerSet::new();
    assert!(set.is_empty());
    set.insert(v4(1, 1));
    set.insert(v4(1, 1));
    set.insert(v4(2, 1));
    assert!(set.contains(v4(1, 1)));
    let copy = set.copy();
    set.remove(v4(1, 1));
    assert!(!set.contains(v4(1, 1)));
    assert!(!set.is_empty());
    set.remove(v4(3, 1));
    set.remove(v4(2, 1));
    assert!(set.is_empty());
    assert!(copy.contains(v4(1, 1)) && copy.contains(v4(2, 1)));
}
