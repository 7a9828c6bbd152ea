//! The packet rewriter: what happens to a packet when it crosses from one
//! endpoint to the other.
//!
//! Both ends of the tunnel run the same configuration, so each believes that
//! its own interface has the local address and the peer the other one. A
//! packet that leaves through the transport therefore has its source and
//! destination addresses exchanged; the receiving end then sees a packet that
//! already fits its own interface. Nothing else in the packet changes: the
//! header checksum is a sum over 16-bit words and does not notice that two
//! fields have changed places. Packets that come in from the transport are
//! handed to the interface as they are.

use crate::ipv4::{
    check_header, destination, fixed_header_fits, header_words, read_destination, read_source,
    source, valid_header, version, word, word_sum, write_destination, write_source,
    MIN_HEADER_LEN, MIN_HEADER_WORDS, SOURCE_OFFSET, VERSION,
};
use vstd::prelude::*;

verus! {

/// The way a packet travels through the relay.
#[derive(Clone, Copy, Debug, PartialEq, Eq)]
pub enum Direction {
    /// From the interface to the transport.
    Outbound,
    /// From the transport to the interface.
    Inbound,
}

/// `packet` with its source and destination address fields exchanged. A
/// packet too short to hold both fields is left as it is.
pub open spec fn swapped(packet: Seq<u8>) -> Seq<u8> {
    if packet.len() >= MIN_HEADER_LEN {
        packet.subrange(0, SOURCE_OFFSET as int) + destination(packet) + source(packet)
            + packet.subrange(MIN_HEADER_LEN as int, packet.len() as int)
    } else {
        packet
    }
}

/// What the rewriter makes of `packet` on its way in `direction`: the packet
/// to hand on, or `None` where the packet is dropped.
pub open spec fn rewritten(direction: Direction, packet: Seq<u8>) -> Option<Seq<u8>> {
    match direction {
        Direction::Outbound => if valid_header(packet) {
            Some(swapped(packet))
        } else {
            None
        },
        Direction::Inbound => Some(packet),
    }
}

/// Exchanges the source and destination addresses of the IPv4 header at the
/// start of `packet`, in place. Returns whether the packet was long enough to
/// hold the two fields; one that is not stays untouched.
pub fn swap_addresses(packet: &mut [u8]) -> (done: bool)
    ensures
        done == (old(packet)@.len() >= MIN_HEADER_LEN),
        final(packet)@ == swapped(old(packet)@),
{
    if !fixed_header_fits(packet) {
        return false;
    }
    let source = read_source(packet);
    let destination = read_destination(packet);
    write_source(packet, destination);
    write_destination(packet, source);
    true
}

/// Applies the rewriter to `packet`, in place, for a packet that travels in
/// `direction`. Returns whether the packet is to be handed on; a packet that
/// is dropped stays untouched.
pub fn rewrite(direction: Direction, packet: &mut [u8]) -> (forward: bool)
    ensures
        forward == rewritten(direction, old(packet)@).is_some(),
        forward ==> final(packet)@ == rewritten(direction, old(packet)@).unwrap(),
        !forward ==> final(packet)@ == old(packet)@,
{
    match direction {
        Direction::Outbound => {
            if check_header(packet) {
                swap_addresses(packet)
            } else {
                false
            }
        },
        Direction::Inbound => true,
    }
}

/// One swap puts each address into the other's field and changes nothing
/// else: the length stays, and so does every byte outside the two fields.
pub proof fn swap_exchanges_the_addresses(packet: Seq<u8>)
    requires
        packet.len() >= MIN_HEADER_LEN,
    ensures
        swapped(packet).len() == packet.len(),
        source(swapped(packet)) == destination(packet),
        destination(swapped(packet)) == source(packet),
        forall|i: int|
            0 <= i < packet.len() && !(SOURCE_OFFSET <= i < MIN_HEADER_LEN) ==> swapped(packet)[i]
                == packet[i],
{
}

/// Swapping twice gives the packet back, byte for byte, whatever it holds.
pub proof fn swap_is_an_involution(packet: Seq<u8>)
    ensures
        swapped(swapped(packet)) == packet,
        source(swapped(swapped(packet))) == source(packet),
        destination(swapped(swapped(packet))) == destination(packet),
{
    assert(swapped(swapped(packet)) =~= packet);
}

/// A packet that the outbound rewriter has handed on is handed on again when
/// it is rewritten a second time, and comes out as it first went in.
pub proof fn outbound_twice_restores(packet: Seq<u8>)
    requires
        rewritten(Direction::Outbound, packet).is_some(),
    ensures
        rewritten(Direction::Outbound, rewritten(Direction::Outbound, packet).unwrap()) == Some(
            packet,
        ),
{
    swap_is_an_involution(packet);
    assert(swapped(packet)[0] == packet[0]);
}

/// The swap does not disturb the header checksum: the 16-bit words of the
/// header add up to the same sum after it as before, so a checksum that was
/// right stays right and need not be computed again.
pub proof fn swap_keeps_the_checksum(packet: Seq<u8>)
    requires
        valid_header(packet),
    ensures
        valid_header(swapped(packet)),
        header_words(swapped(packet)) == header_words(packet),
        word_sum(swapped(packet), 2 * header_words(swapped(packet))) == word_sum(
            packet,
            2 * header_words(packet),
        ),
{
    assert(swapped(packet)[0] == packet[0]);
    swap_keeps_the_sum_of_words(packet, 2 * header_words(packet));
}

/// The sum of the first `count` words is the same before and after the swap,
/// as soon as the words counted take in both address fields.
proof fn swap_keeps_the_sum_of_words(packet: Seq<u8>, count: int)
    requires
        MIN_HEADER_LEN <= 2 * count <= packet.len(),
    ensures
        word_sum(swapped(packet), count) == word_sum(packet, count),
    decreases count,
{
    let after = swapped(packet);
    if count == 10 {
        reveal_with_fuel(word_sum, 11);
        assert forall|i: int| 0 <= i < 6 implies word(after, i) == word(packet, i) by {}
        assert(word(after, 6) == word(packet, 8));
        assert(word(after, 7) == word(packet, 9));
        assert(word(after, 8) == word(packet, 6));
        assert(word(after, 9) == word(packet, 7));
    } else {
        swap_keeps_the_sum_of_words(packet, count - 1);
        assert(word(after, count - 1) == word(packet, count - 1));
    }
}

/// The inbound rewriter hands on every packet, and hands it on unchanged.
pub proof fn inbound_is_the_identity(packet: Seq<u8>)
    ensures
        rewritten(Direction::Inbound, packet) == Some(packet),
{
}

/// The outbound rewriter drops every packet that is shorter than the fixed
/// header, that is no IPv4 packet, or whose header-length field is below five
/// words or beyond the end of the packet.
pub proof fn outbound_drops_malformed(packet: Seq<u8>)
    requires
        packet.len() < MIN_HEADER_LEN || version(packet) != VERSION || header_words(packet)
            < MIN_HEADER_WORDS || 4 * header_words(packet) > packet.len(),
    ensures
        rewritten(Direction::Outbound, packet).is_none(),
{
}

/// The outbound rewriter maps different packets to different packets.
pub proof fn outbound_is_injective(first: Seq<u8>, second: Seq<u8>)
    requires
        rewritten(Direction::Outbound, first).is_some(),
        rewritten(Direction::Outbound, first) == rewritten(Direction::Outbound, second),
    ensures
        first == second,
{
    swap_is_an_involution(first);
    swap_is_an_involution(second);
}

} // verus!
