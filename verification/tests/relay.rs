use udprelay::relay::{step, Action, Event, Exit};
use udprelay::rewrite::Direction;

fn packet(len: usize, source: [u8; 4], destination: [u8; 4], mark: u8) -> Vec<u8> {
    let mut bytes = vec![mark; len];
    bytes[0] = 0x45;
    bytes[12..16].copy_from_slice(&source);
    bytes[16..20].copy_from_slice(&destination);
    bytes
}

/// Puts `bytes` at the start of `buffer`, as an endpoint does when it
/// delivers a packet.
fn deliver(buffer: &mut [u8], bytes: &[u8]) -> Event {
    buffer[..bytes.len()].copy_from_slice(bytes);
    Event::Received(bytes.len())
}

#[test]
fn outbound_delivery_is_swapped_and_sent_at_full_length() {
    let mut buffer = [0xeeu8; 64];
    let given = packet(40, [172, 16, 16, 172], [172, 16, 16, 16], 0x5a);
    let event = deliver(&mut buffer, &given);
    assert_eq!(step(Direction::Outbound, &mut buffer, event), Action::Send(40));
    let expected = packet(40, [172, 16, 16, 16], [172, 16, 16, 172], 0x5a);
    assert_eq!(&buffer[..40], &expected[..]);
    assert_eq!(&buffer[40..], &[0xeeu8; 24]);
}

#[test]
fn outbound_three_bytes_send_nothing_and_the_loop_goes_on() {
    let mut buffer = [0u8; 32];
    let event = deliver(&mut buffer, &[0x01, 0x02, 0x03]);
    let before = buffer;
    assert_eq!(step(Direction::Outbound, &mut buffer, event), Action::Receive);
    assert_eq!(buffer, before);
}

#[test]
fn outbound_looks_at_the_delivered_bytes_only() {
    // A whole packet lies in the buffer from an earlier read, but only three
    // bytes have come in now.
    let mut buffer = [0u8; 64];
    let stale = packet(40, [1, 1, 1, 1], [2, 2, 2, 2], 7);
    buffer[..40].copy_from_slice(&stale);
    let before = buffer;
    assert_eq!(step(Direction::Outbound, &mut buffer, Event::Received(3)), Action::Receive);
    assert_eq!(buffer, before);
    assert_eq!(step(Direction::Outbound, &mut buffer, Event::Received(19)), Action::Receive);
    assert_eq!(buffer, before);
    assert_eq!(step(Direction::Outbound, &mut buffer, Event::Received(20)), Action::Send(20));
    assert_eq!(&buffer[12..20], &[2, 2, 2, 2, 1, 1, 1, 1]);
}

#[test]
fn outbound_empty_read_is_skipped() {
    let mut buffer = [0x45u8; 32];
    let before = buffer;
    assert_eq!(step(Direction::Outbound, &mut buffer, Event::Received(0)), Action::Receive);
    assert_eq!(buffer, before);
}

#[test]
fn outbound_bad_header_length_is_skipped() {
    let mut buffer = [0u8; 64];
    let mut bad = packet(40, [172, 16, 16, 172], [172, 16, 16, 16], 1);
    bad[0] = 0x43;
    let event = deliver(&mut buffer, &bad);
    let before = buffer;
    assert_eq!(step(Direction::Outbound, &mut buffer, event), Action::Receive);
    assert_eq!(buffer, before);

    bad[0] = 0x4b;
    let event = deliver(&mut buffer, &bad);
    let before = buffer;
    assert_eq!(step(Direction::Outbound, &mut buffer, event), Action::Receive);
    assert_eq!(buffer, before);
}

#[test]
fn inbound_delivery_is_sent_as_it_came() {
    let mut buffer = [0u8; 64];
    let given = packet(40, [172, 16, 16, 16], [172, 16, 16, 172], 0x33);
    let event = deliver(&mut buffer, &given);
    let before = buffer;
    assert_eq!(step(Direction::Inbound, &mut buffer, event), Action::Send(40));
    assert_eq!(buffer, before);
}

#[test]
fn inbound_sends_what_outbound_would_drop() {
    let mut buffer = [9u8; 16];
    let before = buffer;
    assert_eq!(step(Direction::Inbound, &mut buffer, Event::Received(3)), Action::Send(3));
    assert_eq!(step(Direction::Inbound, &mut buffer, Event::Received(0)), Action::Send(0));
    assert_eq!(step(Direction::Inbound, &mut buffer, Event::Received(16)), Action::Send(16));
    assert_eq!(buffer, before);
}

#[test]
fn delivery_larger_than_the_buffer_is_skipped() {
    for direction in [Direction::Outbound, Direction::Inbound] {
        let mut buffer = packet(40, [1, 2, 3, 4], [5, 6, 7, 8], 0);
        let before = buffer.clone();
        assert_eq!(step(direction, &mut buffer, Event::Received(41)), Action::Receive);
        assert_eq!(step(direction, &mut buffer, Event::Received(usize::MAX)), Action::Receive);
        assert_eq!(buffer, before);
    }
}

#[test]
fn delivery_that_fills_the_buffer_is_served() {
    let mut buffer = packet(40, [1, 2, 3, 4], [5, 6, 7, 8], 0);
    assert_eq!(step(Direction::Outbound, &mut buffer, Event::Received(40)), Action::Send(40));
    assert_eq!(buffer, packet(40, [5, 6, 7, 8], [1, 2, 3, 4], 0));
}

#[test]
fn after_a_send_the_loop_reads_again() {
    for direction in [Direction::Outbound, Direction::Inbound] {
        let mut buffer = packet(40, [1, 2, 3, 4], [5, 6, 7, 8], 0);
        let before = buffer.clone();
        assert_eq!(step(direction, &mut buffer, Event::Sent), Action::Receive);
        assert_eq!(buffer, before);
    }
}

#[test]
fn failure_and_cancellation_end_the_loop() {
    for direction in [Direction::Outbound, Direction::Inbound] {
        let mut buffer = packet(40, [1, 2, 3, 4], [5, 6, 7, 8], 0);
        let before = buffer.clone();
        assert_eq!(step(direction, &mut buffer, Event::Failed), Action::Stop(Exit::Failed));
        assert_eq!(step(direction, &mut buffer, Event::Cancelled), Action::Stop(Exit::Cancelled));
        assert_eq!(buffer, before);
    }
}

#[test]
fn step_works_on_an_empty_buffer() {
    let mut buffer: [u8; 0] = [];
    assert_eq!(step(Direction::Outbound, &mut buffer, Event::Received(0)), Action::Receive);
    assert_eq!(step(Direction::Inbound, &mut buffer, Event::Received(0)), Action::Send(0));
    assert_eq!(step(Direction::Inbound, &mut buffer, Event::Received(1)), Action::Receive);
}
