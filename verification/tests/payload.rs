use samn_common::radio::{
    addr_to_cc1101_hq_pipe, addr_to_nrf24_hq_pipe, addr_to_rx_pipe, payload_accepted, Payload,
    DEFAULT_PIPE,
};

#[test]
fn try_payload() {
    let mut payload = Payload::new_with_addr(&[1, 2, 3], 0x5555, 0x22);
    assert_eq!(payload.data(), [1, 2, 3]);
    assert_eq!(payload.len(), 3);
    assert_eq!(payload.len_is_valid(), true);
    assert_eq!(payload.header_length(), 4);
    assert_eq!(payload.has_address(), true);
    assert_eq!(payload.pipe(), 0x22);
    assert_eq!(payload.address(), Some(0x5555));
    assert_eq!(payload.packet(), &payload.0[..7]);

    payload.0[1] = 32 | (1 << 7);
    assert_eq!(payload.len_is_valid(), false);
    payload.0[1] = 28 | (1 << 7);
    assert_eq!(payload.len_is_valid(), true);
    payload.0[1] = 29 | (1 << 7);
    assert_eq!(payload.len_is_valid(), false);
}

#[test]
fn try_payload_from() {
    let mut data = [0u8; 32];
    data[0] = 1;
    data[1] = 2;
    data[2] = 3;
    let mut payload = Payload::new_with_addr_from_array(data.clone(), 3, 0x5555, 0x22);
    assert_eq!(payload.data(), [1, 2, 3]);
    assert_eq!(payload.len(), 3);
    assert_eq!(payload.len_is_valid(), true);
    assert_eq!(payload.header_length(), 4);
    assert_eq!(payload.has_address(), true);
    assert_eq!(payload.pipe(), 0x22);
    assert_eq!(payload.address(), Some(0x5555));
    assert_eq!(payload.packet(), &payload.0[..7]);

    payload.0[1] = 32 | (1 << 7);
    assert_eq!(payload.len_is_valid(), false);
    payload.0[1] = 28 | (1 << 7);
    assert_eq!(payload.len_is_valid(), true);
    payload.0[1] = 29 | (1 << 7);
    assert_eq!(payload.len_is_valid(), false);
}

#[test]
fn empty_payload_is_invalid() {
    let payload = Payload::new_with_addr(&[], 0x0102, 0x01);
    assert_eq!(payload.len(), 0);
    assert_eq!(payload.len_is_valid(), false);
    assert_eq!(payload.data(), &[] as &[u8]);
}

#[test]
fn default_payload_has_no_address() {
    let payload = Payload::default();
    assert_eq!(payload.pipe(), 0);
    assert_eq!(payload.len(), 0);
    assert_eq!(payload.has_address(), false);
    assert_eq!(payload.address(), None);
    assert_eq!(payload.header_length(), 2);
    assert_eq!(payload.len_is_valid(), false);
}

#[test]
fn address_is_little_endian() {
    let payload = Payload::new_with_addr(&[9], 0xab12, 0x33);
    assert_eq!(payload.0[2], 0x12);
    assert_eq!(payload.0[3], 0xab);
    assert_eq!(payload.address(), Some(0xab12));
}

#[test]
fn pipes_from_addresses() {
    assert_eq!(addr_to_rx_pipe(128), 0);
    assert_eq!(addr_to_rx_pipe(129), 1);
    assert_eq!(addr_to_rx_pipe(0), 128);
    assert_eq!(addr_to_rx_pipe(0x0187), 7);
    assert_eq!(addr_to_rx_pipe(0xffff), 127);
    assert_eq!(addr_to_nrf24_hq_pipe(0x1234), DEFAULT_PIPE);
    assert_eq!(addr_to_cc1101_hq_pipe(0x4321), DEFAULT_PIPE);
}

#[test]
fn address_filter_decisions() {
    let addressed = Payload::new_with_addr(&[1], 0x5555, 0x22);
    // No filter: everything passes.
    assert!(payload_accepted(&addressed, None));
    // Address in the list passes, address missing from the list does not.
    assert!(payload_accepted(&addressed, Some(&[0x1111, 0x5555])));
    assert!(!payload_accepted(&addressed, Some(&[0x1111, 0x2222])));
    assert!(!payload_accepted(&addressed, Some(&[])));
    // A frame without an address always passes.
    let unaddressed = Payload::default();
    assert!(payload_accepted(&unaddressed, Some(&[0x1111])));
}
