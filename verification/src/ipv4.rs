//! The IPv4 header as the relay reads it: which buffers count as a header,
//! where the two address fields lie, and the calls into `pnet` that read and
//! write them.

use pnet::packet::ipv4::{Ipv4Packet, MutableIpv4Packet};
use vstd::prelude::*;

verus! {

/// Length in bytes of an IPv4 header without options.
pub const MIN_HEADER_LEN: usize = 20;

/// Length in bytes of the longest IPv4 header: fifteen words of options and
/// fixed fields.
pub const MAX_HEADER_LEN: usize = 60;

/// Offset of the source address field.
pub const SOURCE_OFFSET: usize = 12;

/// Offset of the destination address field.
pub const DESTINATION_OFFSET: usize = 16;

/// The version number that marks a packet as IPv4.
pub const VERSION: u8 = 4;

/// The smallest header length, in 32-bit words, that the header-length field
/// may announce.
pub const MIN_HEADER_WORDS: u8 = 5;

/// The version field: the high four bits of the first byte.
pub open spec fn version(packet: Seq<u8>) -> int {
    packet[0] as int / 16
}

/// The header-length field: the low four bits of the first byte, counting
/// 32-bit words.
pub open spec fn header_words(packet: Seq<u8>) -> int {
    packet[0] as int % 16
}

/// Whether `packet` starts with a usable IPv4 header: the fixed fields are all
/// there, the version is 4, and the header-length field announces at least the
/// fixed fields and no more than the packet holds.
pub open spec fn valid_header(packet: Seq<u8>) -> bool {
    &&& packet.len() >= MIN_HEADER_LEN
    &&& version(packet) == VERSION
    &&& header_words(packet) >= MIN_HEADER_WORDS
    &&& 4 * header_words(packet) <= packet.len()
}

/// The source address field of a header.
pub open spec fn source(packet: Seq<u8>) -> Seq<u8> {
    packet.subrange(SOURCE_OFFSET as int, DESTINATION_OFFSET as int)
}

/// The destination address field of a header.
pub open spec fn destination(packet: Seq<u8>) -> Seq<u8> {
    packet.subrange(DESTINATION_OFFSET as int, MIN_HEADER_LEN as int)
}

/// `packet` with its source address field replaced by `address`.
pub open spec fn with_source(packet: Seq<u8>, address: Seq<u8>) -> Seq<u8> {
    packet.subrange(0, SOURCE_OFFSET as int) + address + packet.subrange(
        DESTINATION_OFFSET as int,
        packet.len() as int,
    )
}

/// `packet` with its destination address field replaced by `address`.
pub open spec fn with_destination(packet: Seq<u8>, address: Seq<u8>) -> Seq<u8> {
    packet.subrange(0, DESTINATION_OFFSET as int) + address + packet.subrange(
        MIN_HEADER_LEN as int,
        packet.len() as int,
    )
}

/// The 16-bit word of `packet` at place `index`, the places counted in words
/// from the start of the packet. The first byte of a word is its high half.
pub open spec fn word(packet: Seq<u8>, index: int) -> int {
    packet[2 * index] as int * 256 + packet[2 * index + 1] as int
}

/// The sum of the first `count` 16-bit words of `packet`. The header checksum
/// is made so that this sum over the whole header, with the carries beyond 16
/// bits added back in, comes to `0xffff`.
pub open spec fn word_sum(packet: Seq<u8>, count: int) -> int
    decreases count,
{
    if count <= 0 {
        0
    } else {
        word_sum(packet, count - 1) + word(packet, count - 1)
    }
}

/// `Ipv4Packet::new` of pnet: it accepts a buffer exactly when the buffer
/// holds the twenty bytes of the fixed header fields, and looks at nothing
/// else.
#[verifier::external_body]
pub(crate) fn fixed_header_fits(packet: &[u8]) -> (fits: bool)
    ensures
        fits == (packet@.len() >= MIN_HEADER_LEN),
{
    Ipv4Packet::new(packet).is_some()
}

/// `Ipv4Packet::get_source` of pnet, on the packet that `Ipv4Packet::new`
/// makes of a buffer of twenty bytes or more: the four bytes at offsets 12 to
/// 15, in the order in which they lie in the buffer.
#[verifier::external_body]
pub(crate) fn read_source(packet: &[u8]) -> (address: [u8; 4])
    requires
        packet@.len() >= MIN_HEADER_LEN,
    ensures
        address@ == source(packet@),
{
    Ipv4Packet::new(packet).unwrap().get_source().octets()
}

/// `Ipv4Packet::get_destination` of pnet, on the packet that
/// `Ipv4Packet::new` makes of a buffer of twenty bytes or more: the four bytes
/// at offsets 16 to 19, in the order in which they lie in the buffer.
#[verifier::external_body]
pub(crate) fn read_destination(packet: &[u8]) -> (address: [u8; 4])
    requires
        packet@.len() >= MIN_HEADER_LEN,
    ensures
        address@ == destination(packet@),
{
    Ipv4Packet::new(packet).unwrap().get_destination().octets()
}

/// `MutableIpv4Packet::set_source` of pnet, on the packet that
/// `MutableIpv4Packet::new` makes of a buffer of twenty bytes or more: it
/// overwrites the four bytes at offsets 12 to 15 with the address and touches
/// no other byte.
#[verifier::external_body]
pub(crate) fn write_source(packet: &mut [u8], address: [u8; 4])
    requires
        old(packet)@.len() >= MIN_HEADER_LEN,
    ensures
        final(packet)@ == with_source(old(packet)@, address@),
{
    MutableIpv4Packet::new(packet).unwrap().set_source(address.into())
}

/// `MutableIpv4Packet::set_destination` of pnet, on the packet that
/// `MutableIpv4Packet::new` makes of a buffer of twenty bytes or more: it
/// overwrites the four bytes at offsets 16 to 19 with the address and touches
/// no other byte.
#[verifier::external_body]
pub(crate) fn write_destination(packet: &mut [u8], address: [u8; 4])
    requires
        old(packet)@.len() >= MIN_HEADER_LEN,
    ensures
        final(packet)@ == with_destination(old(packet)@, address@),
{
    MutableIpv4Packet::new(packet).unwrap().set_destination(address.into())
}

/// Tells whether `packet` starts with a usable IPv4 header.
pub fn check_header(packet: &[u8]) -> (valid: bool)
    ensures
        valid == valid_header(packet@),
{
    if !fixed_header_fits(packet) {
        return false;
    }
    let first: u8 = packet[0];
    let words: u8 = first % 16;
    first / 16 == VERSION && words >= MIN_HEADER_WORDS && 4 * (words as usize) <= packet.len()
}

} // verus!
