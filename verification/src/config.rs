//! The settings of a tunnel end: the defaults of its options, the size of its
//! buffers, and what its interface and its socket are set up with.
//!
//! Both ends of a link use the same settings. The interface of each end has
//! the local address and names the peer address as its destination; the
//! rewriter makes up for that on the way out.

use crate::ipv4::MAX_HEADER_LEN;
use vstd::prelude::*;

verus! {

/// The largest IP packet that the interface hands over or takes.
pub const MTU: usize = 1460;

/// The UDP port that the socket binds to when none is given.
pub const PORT: u16 = 40890;

/// The size of the buffer that each forwarding loop owns.
pub const MAX_SIZE: usize = 1600;

/// The peer that the socket connects to when none is given.
pub const REMOTE: &'static str = "192.168.1.1:40890";

/// The name that the interface gets when none is given.
pub const TUN_NAME: &'static str = "udprelay";

/// Whether two addresses can be the two ends of a point-to-point link: they
/// differ, and they are the two host addresses of one block of four.
pub open spec fn point_to_point(local: Seq<u8>, peer: Seq<u8>) -> bool {
    &&& local.len() == 4
    &&& peer.len() == 4
    &&& local != peer
    &&& local.take(3) == peer.take(3)
    &&& local[3] as int / 4 == peer[3] as int / 4
    &&& 1 <= local[3] as int % 4 <= 2
    &&& 1 <= peer[3] as int % 4 <= 2
}

/// What the interface of a tunnel end is created with.
#[derive(Debug, PartialEq, Eq)]
pub struct TunSettings {
    /// The name of the interface.
    pub name: String,
    /// Whether the device carries Ethernet frames instead of IP packets.
    pub tap: bool,
    /// Whether the kernel puts four bytes of packet information before each
    /// packet.
    pub packet_info: bool,
    /// The largest packet that the interface carries.
    pub mtu: i32,
    /// The address of the interface.
    pub address: [u8; 4],
    /// The address at the other end of the link.
    pub destination: [u8; 4],
    /// Whether the interface is brought up when it is created.
    pub up: bool,
}

impl TunSettings {
    /// Whether the settings describe an interface that the relay can serve:
    /// one that carries bare IP packets, none of them larger than a
    /// forwarding buffer, between two addresses of one point-to-point link,
    /// and that is up from the start.
    pub open spec fn well_formed(&self) -> bool {
        &&& !self.tap
        &&& !self.packet_info
        &&& self.up
        &&& 0 < self.mtu <= MAX_SIZE
        &&& point_to_point(self.address@, self.destination@)
    }
}

/// What the socket of a tunnel end is bound to.
#[derive(Clone, Copy, Debug, PartialEq, Eq)]
pub struct UdpSettings {
    /// The local address to bind to.
    pub address: [u8; 4],
    /// The local port to bind to.
    pub port: u16,
}

/// The address of the interface: 169.254.1.1.
pub fn tun_local_addr() -> (address: [u8; 4])
    ensures
        address@ == seq![169u8, 254u8, 1u8, 1u8],
{
    [169, 254, 1, 1]
}

/// The address at the other end of the link: 169.254.1.2.
pub fn tun_peer_addr() -> (address: [u8; 4])
    ensures
        address@ == seq![169u8, 254u8, 1u8, 2u8],
{
    [169, 254, 1, 2]
}

/// The settings of the interface called `name`: a TUN device without packet
/// information, with the tunnel's MTU and its two addresses, brought up at
/// once.
pub fn tun_settings(name: String) -> (settings: TunSettings)
    ensures
        settings.name == name,
        settings.mtu == MTU,
        settings.address@ == seq![169u8, 254u8, 1u8, 1u8],
        settings.destination@ == seq![169u8, 254u8, 1u8, 2u8],
        settings.well_formed(),
{
    let address = tun_local_addr();
    let destination = tun_peer_addr();
    proof {
        assert(address@.take(3) =~= destination@.take(3));
    }
    TunSettings {
        name,
        tap: false,
        packet_info: false,
        mtu: MTU as i32,
        address,
        destination,
        up: true,
    }
}

/// The settings of the socket that listens on `port`: it binds to every local
/// address.
pub fn udp_settings(port: u16) -> (settings: UdpSettings)
    ensures
        settings.address@ == seq![0u8, 0u8, 0u8, 0u8],
        settings.port == port,
{
    UdpSettings { address: [0, 0, 0, 0], port }
}

/// A forwarding buffer holds the largest packet that the interface carries,
/// with room to spare for the longest IPv4 header.
pub proof fn buffer_holds_any_packet()
    ensures
        MTU + MAX_HEADER_LEN <= MAX_SIZE,
{
}

} // verus!
