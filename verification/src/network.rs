//! Where clients and servers find each other.

use vstd::prelude::*;

pub mod client;
pub mod exchange;
pub mod laws;
pub mod paths;
pub mod peers;
pub mod repetition;
pub mod server;
pub mod transfer;

verus! {

/// The IPv6 group that servers listen to: `ff08::da:da`.
pub const IPV6_MULTICAST_ADDR: u128 = 0xff08_0000_0000_0000_0000_0000_00da_00da;

/// The IPv4 group that servers listen to: `224.0.0.242`.
pub const IPV4_MULTICAST_ADDR: u32 = 0xe000_00f2;

/// The port that servers listen to.
pub const MULTICAST_LISTEN_PORT: u16 = 43549;

/// The address of a socket.
#[allow(inconsistent_fields)]
#[derive(Debug, Clone, Copy, PartialEq, Eq, Structural)]
pub enum PeerAddr {
    V4 { ip: u32, port: u16 },
    V6 { ip: u128, port: u16, flowinfo: u32, scope_id: u32 },
}

/// The versions of the internet protocol.
#[derive(Debug, Clone, Copy, PartialEq, Eq, Structural)]
pub enum IpVersion {
    V4,
    V6,
}

/// A server that made itself known.
#[derive(Debug)]
pub struct ServerInfo {
    pub name: String,
    pub addr: PeerAddr,
}

/// Whether an IPv4 address is one of a group: those of `224.0.0.0/4`.
pub open spec fn in_ipv4_groups(ip: u32) -> bool {
    0xe000_0000 <= ip < 0xf000_0000
}

/// Whether an IPv6 address is one of a group: those of `ff00::/8`.
pub open spec fn in_ipv6_groups(ip: u128) -> bool {
    ip >= 0xff00_0000_0000_0000_0000_0000_0000_0000
}

/// Whether an IPv4 address is one of a group.
pub fn is_ipv4_multicast(ip: u32) -> (multicast: bool)
    ensures
        multicast == in_ipv4_groups(ip),
{
    0xe000_0000 <= ip && ip < 0xf000_0000
}

/// Whether an IPv6 address is one of a group.
pub fn is_ipv6_multicast(ip: u128) -> (multicast: bool)
    ensures
        multicast == in_ipv6_groups(ip),
{
    ip >= 0xff00_0000_0000_0000_0000_0000_0000_0000
}

/// The version of the internet protocol that an address belongs to.
pub open spec fn version_of(addr: PeerAddr) -> IpVersion {
    match addr {
        PeerAddr::V4 { .. } => IpVersion::V4,
        PeerAddr::V6 { .. } => IpVersion::V6,
    }
}

/// Where the servers of a version of the internet protocol listen.
pub open spec fn group_of(version: IpVersion) -> PeerAddr {
    match version {
        IpVersion::V4 => PeerAddr::V4 { ip: IPV4_MULTICAST_ADDR, port: MULTICAST_LISTEN_PORT },
        IpVersion::V6 => PeerAddr::V6 {
            ip: IPV6_MULTICAST_ADDR,
            port: MULTICAST_LISTEN_PORT,
            flowinfo: 0,
            scope_id: 0,
        },
    }
}

/// The address to which a server binds the socket for its group: its own, with the group's port.
pub open spec fn group_binding(addr: PeerAddr) -> PeerAddr {
    match addr {
        PeerAddr::V4 { ip, .. } => PeerAddr::V4 { ip, port: MULTICAST_LISTEN_PORT },
        PeerAddr::V6 { ip, .. } => PeerAddr::V6 {
            ip,
            port: MULTICAST_LISTEN_PORT,
            flowinfo: 0,
            scope_id: 0,
        },
    }
}

/// The version of the internet protocol that a socket for this address needs.
pub fn domain_of(addr: PeerAddr) -> (version: IpVersion)
    ensures
        version == version_of(addr),
{
    match addr {
        PeerAddr::V4 { .. } => IpVersion::V4,
        PeerAddr::V6 { .. } => IpVersion::V6,
    }
}

/// Where a client at this address finds servers.
pub fn multicast_addr(addr: PeerAddr) -> (group: PeerAddr)
    ensures
        group == group_of(version_of(addr)),
{
    match domain_of(addr) {
        IpVersion::V4 => PeerAddr::V4 { ip: IPV4_MULTICAST_ADDR, port: MULTICAST_LISTEN_PORT },
        IpVersion::V6 => PeerAddr::V6 {
            ip: IPV6_MULTICAST_ADDR,
            port: MULTICAST_LISTEN_PORT,
            flowinfo: 0,
            scope_id: 0,
        },
    }
}

/// Where a server at this address listens for its group.
pub fn multicast_bind_addr(addr: PeerAddr) -> (binding: PeerAddr)
    ensures
        binding == group_binding(addr),
{
    match addr {
        PeerAddr::V4 { ip, .. } => PeerAddr::V4 { ip, port: MULTICAST_LISTEN_PORT },
        PeerAddr::V6 { ip, .. } => PeerAddr::V6 {
            ip,
            port: MULTICAST_LISTEN_PORT,
            flowinfo: 0,
            scope_id: 0,
        },
    }
}

/// The version of the internet protocol that was asked for; the sixth where none was.
pub fn choose_ip_version(use_ipv4: bool, use_ipv6: bool) -> (version: IpVersion)
    requires
        !(use_ipv4 && use_ipv6),
    ensures
        version == if use_ipv4 {
            IpVersion::V4
        } else {
            IpVersion::V6
        },
{
    if use_ipv4 {
        IpVersion::V4
    } else {
        IpVersion::V6
    }
}

/// Clients and servers of one version of the internet protocol meet: the group that a client
/// addresses is a multicast group, of that version, and servers listen at the port that the
/// client addresses.
pub proof fn peers_meet(client: PeerAddr, server: PeerAddr)
    requires
        version_of(client) == version_of(server),
    ensures
        match group_of(version_of(client)) {
            PeerAddr::V4 { ip, port } => {
                &&& in_ipv4_groups(ip)
                &&& group_binding(server) matches PeerAddr::V4 { port: listening, .. }
                &&& listening == port
            },
            PeerAddr::V6 { ip, port, .. } => {
                &&& in_ipv6_groups(ip)
                &&& group_binding(server) matches PeerAddr::V6 { port: listening, .. }
                &&& listening == port
            },
        },
{
}

/// A multicast address is one that begins with the bits `1110`, for IPv4, or with eight ones, for
/// IPv6.
pub proof fn groups_begin_with_their_bits(v4: u32, v6: u128)
    ensures
        in_ipv4_groups(v4) <==> v4 / 0x1000_0000 == 14,
        in_ipv6_groups(v6) <==> v6 / 0x100_0000_0000_0000_0000_0000_0000_0000 == 255,
{
}

/// A server listens at its own address, with the port that its clients address, and with a socket
/// of its own version of the internet protocol; and so does a client send.
pub proof fn addresses_are_kept(addr: PeerAddr)
    ensures
        version_of(addr) is V4 <==> addr is V4,
        version_of(addr) is V6 <==> addr is V6,
        version_of(group_binding(addr)) == version_of(addr),
        version_of(group_of(version_of(addr))) == version_of(addr),
        match (addr, group_binding(addr)) {
            (PeerAddr::V4 { ip, .. }, PeerAddr::V4 { ip: own, port }) => own == ip && port == 43549,
            (PeerAddr::V6 { ip, .. }, PeerAddr::V6 { ip: own, port, .. }) => own == ip && port
                == 43549,
            _ => false,
        },
{
}

} // verus!
