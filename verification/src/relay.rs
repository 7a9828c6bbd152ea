//! The relay engine: what one forwarding loop does next.
//!
//! A loop owns one buffer and serves one direction. It asks its endpoint for
//! a packet, lets the rewriter look at what arrived, sends what the rewriter
//! hands on, and starts over. The waiting is done by the caller; the
//! decisions are made here. The function [`step`] takes what has just
//! happened and says what to do next.

use crate::ipv4::valid_header;
use crate::rewrite::{rewrite, rewritten, Direction};
use vstd::prelude::*;

verus! {

/// What has just happened to a forwarding loop.
#[derive(Clone, Copy, Debug, PartialEq, Eq)]
pub enum Event {
    /// The endpoint that the loop reads from has put a packet of this many
    /// bytes at the start of the buffer.
    Received(usize),
    /// The endpoint that the loop writes to has taken the bytes.
    Sent,
    /// An endpoint has reported an I/O error.
    Failed,
    /// The supervisor has asked the loop to end.
    Cancelled,
}

/// Why a forwarding loop ends.
#[derive(Clone, Copy, Debug, PartialEq, Eq)]
pub enum Exit {
    /// The supervisor asked for it.
    Cancelled,
    /// An endpoint failed.
    Failed,
}

/// What a forwarding loop does next.
#[derive(Clone, Copy, Debug, PartialEq, Eq)]
pub enum Action {
    /// Wait for the next packet and read it into the buffer.
    Receive,
    /// Hand the first so many bytes of the buffer to the other endpoint.
    Send(usize),
    /// Leave the loop.
    Stop(Exit),
}

/// The packet that an event has delivered: the filled part of the buffer.
/// There is none where the event is no delivery, or claims more bytes than
/// the buffer holds.
pub open spec fn delivered(buffer: Seq<u8>, event: Event) -> Option<Seq<u8>> {
    match event {
        Event::Received(len) if len <= buffer.len() => Some(buffer.take(len as int)),
        _ => None,
    }
}

/// The packet that the loop sends in answer to an event, if it sends one.
pub open spec fn emitted(direction: Direction, buffer: Seq<u8>, event: Event) -> Option<Seq<u8>> {
    match delivered(buffer, event) {
        Some(packet) => rewritten(direction, packet),
        None => None,
    }
}

/// The action that answers an event.
pub open spec fn decide(direction: Direction, buffer: Seq<u8>, event: Event) -> Action {
    match event {
        Event::Received(len) => if emitted(direction, buffer, event).is_some() {
            Action::Send(len)
        } else {
            Action::Receive
        },
        Event::Sent => Action::Receive,
        Event::Failed => Action::Stop(Exit::Failed),
        Event::Cancelled => Action::Stop(Exit::Cancelled),
    }
}

/// The buffer after the loop has answered an event: the packet to send takes
/// the place of the packet that came in, and nothing else changes.
pub open spec fn buffer_after(direction: Direction, buffer: Seq<u8>, event: Event) -> Seq<u8> {
    match (event, emitted(direction, buffer, event)) {
        (Event::Received(len), Some(packet)) => packet + buffer.skip(len as int),
        _ => buffer,
    }
}

/// Answers one event of the loop that serves `direction` and owns `buffer`.
///
/// A delivery is rewritten in place and sent at its full length, or skipped
/// where the rewriter drops it. A delivery that claims more bytes than the
/// buffer holds is skipped too, and the buffer is not read. A failure of an
/// endpoint or a request of the supervisor ends the loop; nothing else does.
pub fn step(direction: Direction, buffer: &mut [u8], event: Event) -> (action: Action)
    ensures
        action == decide(direction, old(buffer)@, event),
        final(buffer)@ == buffer_after(direction, old(buffer)@, event),
        final(buffer)@.len() == old(buffer)@.len(),
        action matches Action::Send(len) ==> len <= final(buffer)@.len(),
{
    match event {
        Event::Received(len) => {
            if len > buffer.len() {
                return Action::Receive;
            }
            let (packet, _) = buffer.split_at_mut(len);
            if rewrite(direction, packet) {
                Action::Send(len)
            } else {
                Action::Receive
            }
        },
        Event::Sent => Action::Receive,
        Event::Failed => Action::Stop(Exit::Failed),
        Event::Cancelled => Action::Stop(Exit::Cancelled),
    }
}

/// Whenever the loop sends, it sends the packet that the rewriter handed on,
/// at the length at which the packet came in; whenever the rewriter hands on
/// a delivered packet, the loop sends.
pub proof fn step_sends_what_the_rewriter_hands_on(
    direction: Direction,
    buffer: Seq<u8>,
    event: Event,
)
    ensures
        match decide(direction, buffer, event) {
            Action::Send(len) => event == Event::Received(len) && emitted(direction, buffer, event)
                == Some(buffer_after(direction, buffer, event).take(len as int)),
            _ => emitted(direction, buffer, event).is_none(),
        },
        buffer_after(direction, buffer, event).len() == buffer.len(),
{
    if let Action::Send(len) = decide(direction, buffer, event) {
        let packet = emitted(direction, buffer, event).unwrap();
        assert(packet.len() == len);
        assert((packet + buffer.skip(len as int)).take(len as int) =~= packet);
    }
}

/// Inbound, every delivery that fits the buffer is sent on at its full
/// length, and the bytes sent are the bytes received.
pub proof fn inbound_passes_through(buffer: Seq<u8>, len: usize)
    requires
        len <= buffer.len(),
    ensures
        decide(Direction::Inbound, buffer, Event::Received(len)) == Action::Send(len),
        buffer_after(Direction::Inbound, buffer, Event::Received(len)) == buffer,
        emitted(Direction::Inbound, buffer, Event::Received(len)) == Some(buffer.take(len as int)),
{
    assert(buffer.take(len as int) + buffer.skip(len as int) =~= buffer);
}

/// Outbound, a delivery without a usable IPv4 header, or one that claims
/// more bytes than the buffer holds, sends nothing and does not end the loop:
/// the loop goes on to the next packet, its buffer untouched.
pub proof fn outbound_skips_malformed(buffer: Seq<u8>, len: usize)
    requires
        len <= buffer.len() ==> !valid_header(buffer.take(len as int)),
    ensures
        decide(Direction::Outbound, buffer, Event::Received(len)) == Action::Receive,
        buffer_after(Direction::Outbound, buffer, Event::Received(len)) == buffer,
        emitted(Direction::Outbound, buffer, Event::Received(len)).is_none(),
{
}

/// The loop ends when an endpoint fails or the supervisor cancels it, and
/// on no other event.
pub proof fn only_failure_or_cancellation_stops(direction: Direction, buffer: Seq<u8>, event: Event)
    ensures
        decide(direction, buffer, event) == Action::Stop(Exit::Failed) <==> event == Event::Failed,
        decide(direction, buffer, event) == Action::Stop(Exit::Cancelled) <==> event
            == Event::Cancelled,
{
}

} // verus!
