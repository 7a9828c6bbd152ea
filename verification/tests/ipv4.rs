use udprelay::ipv4::{
    check_header, DESTINATION_OFFSET, MAX_HEADER_LEN, MIN_HEADER_LEN, MIN_HEADER_WORDS,
    SOURCE_OFFSET, VERSION,
};

#[test]
fn header_constants() {
    assert_eq!(MIN_HEADER_LEN, 20);
    assert_eq!(MAX_HEADER_LEN, 60);
    assert_eq!(SOURCE_OFFSET, 12);
    assert_eq!(DESTINATION_OFFSET, 16);
    assert_eq!(VERSION, 4);
    assert_eq!(MIN_HEADER_WORDS, 5);
}

#[test]
fn plain_header_is_valid() {
    let mut bytes = [0u8; 20];
    bytes[0] = 0x45;
    assert!(check_header(&bytes));
}

#[test]
fn header_check_reads_both_halves_of_the_first_byte() {
    let mut bytes = [0u8; 64];
    for first in 0u16..256 {
        bytes[0] = first as u8;
        let version = first / 16;
        let words = first % 16;
        assert_eq!(check_header(&bytes), version == 4 && words >= 5, "first byte {first:#04x}");
    }
}

#[test]
fn header_check_holds_the_header_length_against_the_packet() {
    let bytes = {
        let mut bytes = [0u8; 64];
        bytes[0] = 0x48;
        bytes
    };
    for len in 0..=64 {
        assert_eq!(check_header(&bytes[..len]), len >= 32, "length {len}");
    }
}

#[test]
fn header_check_refuses_what_is_too_short_for_the_fixed_fields() {
    let bytes = {
        let mut bytes = [0u8; 20];
        bytes[0] = 0x45;
        bytes
    };
    for len in 0..20 {
        assert!(!check_header(&bytes[..len]), "length {len}");
    }
    assert!(check_header(&bytes));
}
