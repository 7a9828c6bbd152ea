//! A relay session seen from outside: the packets that go in at one endpoint
//! and the packets that come out at the other.
//!
//! The two forwarding loops of a session share no state. Each reads from one
//! endpoint and writes to the other, one packet at a time, so what a loop
//! sends is settled by what it has received, in the order in which it
//! received it.

use crate::ipv4::{destination, source, valid_header};
use crate::relay::{buffer_after, decide, Action, Event, Exit};
use crate::rewrite::{outbound_is_injective, rewritten, swap_exchanges_the_addresses, Direction};
use vstd::prelude::*;

verus! {

/// The packets that the loop of `direction` sends, in the order in which it
/// sends them, when its endpoint delivers `packets` in order.
pub open spec fn forwarded(direction: Direction, packets: Seq<Seq<u8>>) -> Seq<Seq<u8>>
    decreases packets.len(),
{
    if packets.len() == 0 {
        seq![]
    } else {
        let earlier = forwarded(direction, packets.drop_last());
        match rewritten(direction, packets.last()) {
            Some(packet) => earlier.push(packet),
            None => earlier,
        }
    }
}

/// How many of `packets` the loop of `direction` drops.
pub open spec fn dropped(direction: Direction, packets: Seq<Seq<u8>>) -> nat
    decreases packets.len(),
{
    if packets.len() == 0 {
        0
    } else {
        let earlier = dropped(direction, packets.drop_last());
        if rewritten(direction, packets.last()).is_none() {
            earlier + 1
        } else {
            earlier
        }
    }
}

/// The packets of one direction in a sequence of packets of both, in the
/// order in which they stand there.
pub open spec fn of_direction(
    packets: Seq<(Direction, Seq<u8>)>,
    direction: Direction,
) -> Seq<Seq<u8>>
    decreases packets.len(),
{
    if packets.len() == 0 {
        seq![]
    } else {
        let earlier = of_direction(packets.drop_last(), direction);
        if packets.last().0 == direction {
            earlier.push(packets.last().1)
        } else {
            earlier
        }
    }
}

/// The buffer of a loop once its endpoint has delivered `packet` into it: the
/// packet lies at the start, and behind it whatever lay there before.
pub open spec fn filled(buffer: Seq<u8>, packet: Seq<u8>) -> Seq<u8> {
    packet + buffer.skip(packet.len() as int)
}

/// One round of the loop of `direction`: its endpoint delivers `packet` into
/// `buffer` and the loop answers. The result is what the loop sends, if it
/// sends, and the buffer that it is left with.
pub open spec fn served(direction: Direction, buffer: Seq<u8>, packet: Seq<u8>) -> (
    Option<Seq<u8>>,
    Seq<u8>,
) {
    let event = Event::Received(packet.len() as usize);
    let full = filled(buffer, packet);
    let after = buffer_after(direction, full, event);
    match decide(direction, full, event) {
        Action::Send(len) => (Some(after.take(len as int)), after),
        _ => (None, after),
    }
}

/// The run of one loop that starts with `buffer` and has `packets` delivered
/// to it one after another: what it sends, in order, and the buffer that it
/// is left with.
pub open spec fn run(direction: Direction, buffer: Seq<u8>, packets: Seq<Seq<u8>>) -> (
    Seq<Seq<u8>>,
    Seq<u8>,
)
    decreases packets.len(),
{
    if packets.len() == 0 {
        (seq![], buffer)
    } else {
        let (sent, before) = run(direction, buffer, packets.drop_last());
        match served(direction, before, packets.last()) {
            (Some(packet), after) => (sent.push(packet), after),
            (None, after) => (sent, after),
        }
    }
}

/// The buffers of the two loops of a session.
pub struct Buffers {
    /// The buffer of the loop that carries packets outbound.
    pub outbound: Seq<u8>,
    /// The buffer of the loop that carries packets inbound.
    pub inbound: Seq<u8>,
}

impl Buffers {
    /// The buffer of the loop of `direction`.
    pub open spec fn of(self, direction: Direction) -> Seq<u8> {
        match direction {
            Direction::Outbound => self.outbound,
            Direction::Inbound => self.inbound,
        }
    }

    /// These buffers with that of the loop of `direction` replaced.
    pub open spec fn with(self, direction: Direction, buffer: Seq<u8>) -> Buffers {
        match direction {
            Direction::Outbound => Buffers { outbound: buffer, ..self },
            Direction::Inbound => Buffers { inbound: buffer, ..self },
        }
    }
}

/// The run of a session whose loops start with `buffers` and whose endpoints
/// deliver `arrivals` in this order, each to the loop of its direction: what
/// the session sends, each packet with the direction it travels in, and the
/// buffers at the end. The arrivals of the two directions may interleave in
/// any way.
pub open spec fn relayed(buffers: Buffers, arrivals: Seq<(Direction, Seq<u8>)>) -> (
    Seq<(Direction, Seq<u8>)>,
    Buffers,
)
    decreases arrivals.len(),
{
    if arrivals.len() == 0 {
        (seq![], buffers)
    } else {
        let (sent, before) = relayed(buffers, arrivals.drop_last());
        let (direction, packet) = arrivals.last();
        match served(direction, before.of(direction), packet) {
            (Some(out), after) => (sent.push((direction, out)), before.with(direction, after)),
            (None, after) => (sent, before.with(direction, after)),
        }
    }
}

/// How a session ends once both of its loops have ended: in failure if either
/// loop failed, cleanly if both were cancelled.
pub open spec fn outcome(outbound: Exit, inbound: Exit) -> Exit {
    if outbound == Exit::Failed || inbound == Exit::Failed {
        Exit::Failed
    } else {
        Exit::Cancelled
    }
}

/// Tells how a session ends, from the way its two loops ended.
pub fn session_exit(outbound: Exit, inbound: Exit) -> (exit: Exit)
    ensures
        exit == outcome(outbound, inbound),
{
    match (outbound, inbound) {
        (Exit::Cancelled, Exit::Cancelled) => Exit::Cancelled,
        _ => Exit::Failed,
    }
}

/// What leaves the interface of one end reaches the interface of the other
/// end as a packet from the peer to the local address: both ends can go by
/// the same pair of addresses.
pub proof fn far_end_sees_its_own_addresses(packet: Seq<u8>, local: Seq<u8>, peer: Seq<u8>)
    requires
        valid_header(packet),
        source(packet) == local,
        destination(packet) == peer,
    ensures
        rewritten(Direction::Outbound, packet).is_some(),
        ({
            let carried = rewritten(Direction::Outbound, packet).unwrap();
            let arrived = rewritten(Direction::Inbound, carried).unwrap();
            &&& arrived.len() == packet.len()
            &&& source(arrived) == peer
            &&& destination(arrived) == local
        }),
{
    swap_exchanges_the_addresses(packet);
}

/// Every packet that arrives is either forwarded or dropped, never both and
/// never twice; inbound, none is dropped.
pub proof fn every_packet_is_accounted_for(direction: Direction, packets: Seq<Seq<u8>>)
    ensures
        forwarded(direction, packets).len() + dropped(direction, packets) == packets.len(),
        direction == Direction::Inbound ==> dropped(direction, packets) == 0,
    decreases packets.len(),
{
    if packets.len() > 0 {
        every_packet_is_accounted_for(direction, packets.drop_last());
    }
}

/// Forwarding goes packet by packet: what is sent for one run of packets
/// followed by another is what is sent for the first run, followed by what is
/// sent for the second.
pub proof fn forwarding_is_sequential(
    direction: Direction,
    first: Seq<Seq<u8>>,
    second: Seq<Seq<u8>>,
)
    ensures
        forwarded(direction, first + second) == forwarded(direction, first) + forwarded(
            direction,
            second,
        ),
    decreases second.len(),
{
    if second.len() == 0 {
        assert(first + second =~= first);
        assert(forwarded(direction, first) + forwarded(direction, second) =~= forwarded(
            direction,
            first,
        ));
    } else {
        forwarding_is_sequential(direction, first, second.drop_last());
        assert((first + second).drop_last() =~= first + second.drop_last());
        assert((first + second).last() == second.last());
        let earlier = forwarded(direction, first) + forwarded(direction, second.drop_last());
        match rewritten(direction, second.last()) {
            Some(packet) => {
                assert(earlier.push(packet) =~= forwarded(direction, first) + forwarded(
                    direction,
                    second.drop_last(),
                ).push(packet));
            },
            None => {},
        }
    }
}

/// Where no packet is lost, the packets come out in the order in which they
/// went in: as many as went in, the one at each place being what the rewriter
/// makes of the one that went in at that place. Packets that differed going in
/// still differ coming out, so none is sent twice.
pub proof fn forwarding_keeps_order(direction: Direction, packets: Seq<Seq<u8>>)
    requires
        forall|i: int| 0 <= i < packets.len() ==> rewritten(direction, #[trigger] packets[i]).is_some(),
    ensures
        forwarded(direction, packets).len() == packets.len(),
        forall|i: int|
            0 <= i < packets.len() ==> Some(#[trigger] forwarded(direction, packets)[i])
                == rewritten(direction, packets[i]),
        packets.no_duplicates() ==> forwarded(direction, packets).no_duplicates(),
    decreases packets.len(),
{
    if packets.len() > 0 {
        let earlier = packets.drop_last();
        assert forall|i: int| 0 <= i < earlier.len() implies rewritten(
            direction,
            #[trigger] earlier[i],
        ).is_some() by {
            assert(earlier[i] == packets[i]);
        }
        forwarding_keeps_order(direction, earlier);
        assert(rewritten(direction, packets[packets.len() - 1]).is_some());
    }
    let sent = forwarded(direction, packets);
    if packets.no_duplicates() {
        assert forall|i: int, j: int| 0 <= i < sent.len() && 0 <= j < sent.len() && i != j implies sent[i]
            != sent[j] by {
            if sent[i] == sent[j] {
                rewriter_is_injective(direction, packets[i], packets[j]);
            }
        }
    }
}

/// The rewriter of either direction maps different packets to different
/// packets.
pub proof fn rewriter_is_injective(direction: Direction, first: Seq<u8>, second: Seq<u8>)
    requires
        rewritten(direction, first).is_some(),
        rewritten(direction, first) == rewritten(direction, second),
    ensures
        first == second,
{
    match direction {
        Direction::Outbound => outbound_is_injective(first, second),
        Direction::Inbound => {},
    }
}

/// A loop sends what the rewriter makes of the packet that has just come in,
/// whatever an earlier packet has left in the buffer, and the buffer keeps its
/// size.
pub proof fn a_round_serves_the_packet_that_came_in(
    direction: Direction,
    buffer: Seq<u8>,
    packet: Seq<u8>,
)
    requires
        packet.len() <= buffer.len() <= usize::MAX,
    ensures
        served(direction, buffer, packet).0 == rewritten(direction, packet),
        served(direction, buffer, packet).1.len() == buffer.len(),
{
    let full = filled(buffer, packet);
    let len = packet.len() as usize;
    assert(full.take(len as int) =~= packet);
    assert(full.skip(len as int) =~= buffer.skip(len as int));
    if let Some(out) = rewritten(direction, packet) {
        assert(out.len() == packet.len());
        assert((out + full.skip(len as int)).take(len as int) =~= out);
    }
}

/// Over a whole run a loop sends what the rewriter makes of each packet that
/// came in, in the order in which they came in.
pub proof fn a_run_sends_what_is_forwarded(
    direction: Direction,
    buffer: Seq<u8>,
    packets: Seq<Seq<u8>>,
)
    requires
        buffer.len() <= usize::MAX,
        forall|i: int| 0 <= i < packets.len() ==> (#[trigger] packets[i]).len() <= buffer.len(),
    ensures
        run(direction, buffer, packets).0 == forwarded(direction, packets),
        run(direction, buffer, packets).1.len() == buffer.len(),
    decreases packets.len(),
{
    if packets.len() > 0 {
        let earlier = packets.drop_last();
        assert forall|i: int| 0 <= i < earlier.len() implies (#[trigger] earlier[i]).len()
            <= buffer.len() by {
            assert(earlier[i] == packets[i]);
        }
        a_run_sends_what_is_forwarded(direction, buffer, earlier);
        assert(packets[packets.len() - 1].len() <= buffer.len());
        a_round_serves_the_packet_that_came_in(
            direction,
            run(direction, buffer, earlier).1,
            packets.last(),
        );
    }
}

/// The two directions do not interfere: however the arrivals of the two
/// directions interleave, what the session sends in one direction is what the
/// loop of that direction sends when it runs alone on its own arrivals, which
/// is what the rewriter makes of them, in their order. Where none of them is
/// malformed, as many packets leave in that direction as arrived in it.
pub proof fn directions_are_independent(
    buffers: Buffers,
    arrivals: Seq<(Direction, Seq<u8>)>,
    direction: Direction,
)
    requires
        buffers.outbound.len() <= usize::MAX,
        buffers.inbound.len() <= usize::MAX,
        forall|i: int|
            0 <= i < arrivals.len() ==> (#[trigger] arrivals[i]).1.len() <= buffers.of(
                arrivals[i].0,
            ).len(),
    ensures
        relayed(buffers, arrivals).1.of(direction) == run(
            direction,
            buffers.of(direction),
            of_direction(arrivals, direction),
        ).1,
        of_direction(relayed(buffers, arrivals).0, direction) == run(
            direction,
            buffers.of(direction),
            of_direction(arrivals, direction),
        ).0,
        of_direction(relayed(buffers, arrivals).0, direction) == forwarded(
            direction,
            of_direction(arrivals, direction),
        ),
        dropped(direction, of_direction(arrivals, direction)) == 0 ==> of_direction(
            relayed(buffers, arrivals).0,
            direction,
        ).len() == of_direction(arrivals, direction).len(),
    decreases arrivals.len(),
{
    let own = of_direction(arrivals, direction);
    if arrivals.len() > 0 {
        let earlier = arrivals.drop_last();
        assert forall|i: int| 0 <= i < earlier.len() implies (#[trigger] earlier[i]).1.len()
            <= buffers.of(earlier[i].0).len() by {
            assert(earlier[i] == arrivals[i]);
        }
        directions_are_independent(buffers, earlier, direction);
        let (sent, before) = relayed(buffers, earlier);
        let (way, packet) = arrivals.last();
        let own_earlier = of_direction(earlier, direction);
        match served(way, before.of(way), packet) {
            (Some(out), after) => {
                assert(sent.push((way, out)).drop_last() =~= sent);
                if way == direction {
                    assert(own_earlier.push(packet).drop_last() =~= own_earlier);
                }
            },
            (None, after) => {
                if way == direction {
                    assert(own_earlier.push(packet).drop_last() =~= own_earlier);
                }
            },
        }
    }
    packets_of_a_direction_fit(buffers, arrivals, direction);
    a_run_sends_what_is_forwarded(direction, buffers.of(direction), own);
    every_packet_is_accounted_for(direction, own);
}

/// Where every arrival fits the buffer of its loop, the arrivals of one
/// direction fit the buffer of that direction.
proof fn packets_of_a_direction_fit(
    buffers: Buffers,
    arrivals: Seq<(Direction, Seq<u8>)>,
    direction: Direction,
)
    requires
        forall|i: int|
            0 <= i < arrivals.len() ==> (#[trigger] arrivals[i]).1.len() <= buffers.of(
                arrivals[i].0,
            ).len(),
    ensures
        forall|i: int|
            0 <= i < of_direction(arrivals, direction).len() ==> (#[trigger] of_direction(
                arrivals,
                direction,
            )[i]).len() <= buffers.of(direction).len(),
    decreases arrivals.len(),
{
    if arrivals.len() > 0 {
        let earlier = arrivals.drop_last();
        assert forall|i: int| 0 <= i < earlier.len() implies (#[trigger] earlier[i]).1.len()
            <= buffers.of(earlier[i].0).len() by {
            assert(earlier[i] == arrivals[i]);
        }
        packets_of_a_direction_fit(buffers, earlier, direction);
        let own = of_direction(arrivals, direction);
        let own_earlier = of_direction(earlier, direction);
        assert forall|i: int| 0 <= i < own.len() implies (#[trigger] own[i]).len() <= buffers.of(
            direction,
        ).len() by {
            if i < own_earlier.len() {
                assert(own[i] == own_earlier[i]);
            } else {
                assert(own[i] == arrivals[arrivals.len() - 1].1);
            }
        }
    }
}

} // verus!
