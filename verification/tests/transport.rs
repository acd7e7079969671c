use samn_common::helper::{
    check_for_messages_for_a_bit, check_for_payloads_for_a_bit, message_from_payload, send_message_,
    send_payload, Error,
};
use samn_common::node::{Command, Message, MessageData};
use samn_common::radio::{LoopbackRadio, NbError, NbResult, NoopDelay, Payload, Radio, DEFAULT_PIPE};

fn encoded(message: &Message) -> (Vec<u8>, usize) {
    let mut data = vec![0u8; 32];
    let n = message.serialize_to_bytes(&mut data).unwrap();
    (data, n)
}

#[test]
fn send_message_frames_and_transmits() {
    let mut radio = LoopbackRadio::new();
    let mut delay = NoopDelay;
    let message = Message::Message(MessageData::Command {
        id: 55,
        command: Command::Info,
    });
    let result = send_message_(&mut radio, message.clone(), 0x0190, &mut delay);
    assert!(matches!(result, Ok(true)));
    assert_eq!(radio.sent.len(), 1);
    let frame = &radio.sent[0];
    assert_eq!(frame.pipe(), DEFAULT_PIPE);
    assert_eq!(frame.address(), Some(0x0190));
    assert!(frame.len_is_valid());
    assert_eq!(message_from_payload(frame), Some(message));
}

#[test]
fn send_payload_times_out_without_a_transmission() {
    // Polling a radio that never started transmitting exhausts the budget.
    let mut radio = LoopbackRadio::new();
    let mut delay = NoopDelay;
    let payload = Payload::new_with_addr(&[1, 2, 3], 0x0001, 0x11);
    radio.transmit_start(&payload).unwrap();
    let _ = radio.transmit_poll();
    let result: Result<bool, Error<u8>> = match radio.transmit_poll() {
        Ok(b) => Ok(b),
        Err(NbError::Other(e)) => Err(Error::RadioError(e)),
        Err(NbError::WouldBlock) => Err(Error::SendingTimedOut),
    };
    assert!(matches!(result, Err(Error::SendingTimedOut)));
    // The helper itself reports success for a radio that completes.
    let ok = send_payload(&mut radio, &payload, &mut delay);
    assert!(matches!(ok, Ok(true)));
}

#[test]
fn check_for_messages_decodes_received_frames() {
    let mut radio = LoopbackRadio::new();
    let mut delay = NoopDelay;
    let message = Message::SearchingNetwork(77);
    let (data, n) = encoded(&message);
    radio
        .rx_queue
        .push(Payload::new_with_addr(&data[..n], 0x0200, 0x42));
    let got = check_for_messages_for_a_bit(&mut radio, &mut delay).unwrap();
    assert_eq!(got, Some(message));
    // Nothing left: the poll budget runs out and yields None, not an error.
    let got = check_for_messages_for_a_bit(&mut radio, &mut delay).unwrap();
    assert_eq!(got, None);
}

#[test]
fn corrupted_frames_are_noise_not_errors() {
    let mut radio = LoopbackRadio::new();
    let mut delay = NoopDelay;
    // A frame whose length field exceeds the capacity after the header.
    let mut corrupt = Payload::new_with_addr(&[1, 2, 3], 0x0200, 0x42);
    corrupt.0[1] = 29 | (1 << 7);
    radio.rx_queue.push(corrupt);
    let got = check_for_messages_for_a_bit(&mut radio, &mut delay).unwrap();
    assert_eq!(got, None);
    // A frame with a valid length whose bytes do not parse.
    let garbage = Payload::new_with_addr(&[0xff, 0xff, 0xff], 0x0200, 0x42);
    radio.rx_queue.push(garbage);
    let got = check_for_messages_for_a_bit(&mut radio, &mut delay).unwrap();
    assert_eq!(got, None);
}

#[test]
fn receive_discards_frames_for_other_addresses() {
    let mut radio = LoopbackRadio::new();
    let for_me = Payload::new_with_addr(&[1], 0x5555, 0x22);
    let for_someone_else = Payload::new_with_addr(&[2], 0x7777, 0x22);

    radio.rx_queue.push(for_someone_else);
    let filter: &[u16] = &[0x5555, 0x6666];
    // The foreign frame is "would block", not a value and not an error.
    let r: NbResult<Payload, u8> = radio.receive(Some(filter));
    assert!(matches!(r, Err(NbError::WouldBlock)));

    radio.rx_queue.push(for_me);
    let r = radio.receive(Some(filter)).unwrap();
    assert_eq!(r.address(), Some(0x5555));
}

#[test]
fn check_for_payloads_returns_first_frame() {
    let mut radio = LoopbackRadio::new();
    let mut delay = NoopDelay;
    let payload = Payload::new_with_addr(&[9, 8], 0x0300, 0x10);
    radio.rx_queue.push(payload);
    let got = check_for_payloads_for_a_bit(&mut radio, &mut delay)
        .unwrap()
        .unwrap();
    assert_eq!(got.data(), &[9, 8]);
    assert!(check_for_payloads_for_a_bit(&mut radio, &mut delay)
        .unwrap()
        .is_none());
}

#[test]
fn message_from_payload_rejects_bad_lengths() {
    let message = Message::Network(5, 0x0190);
    let (data, n) = encoded(&message);
    let mut payload = Payload::new_with_addr(&data[..n], 0x0100, 0x01);
    assert_eq!(message_from_payload(&payload), Some(message));
    payload.0[1] = 0 | (1 << 7);
    assert_eq!(message_from_payload(&payload), None);
}
