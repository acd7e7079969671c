use samn_common::bity::BitWriter;
use samn_common::node::{
    Board, Command, Limb, LimbType, Message, MessageData, NodeInfo, NodeSerializeError, Response,
    Sensor,
};

fn check(message: Message) {
    let mut data = vec![0u8; 32];
    let data_l = message.serialize_to_bytes(&mut data).unwrap();
    let message_out = Message::deserialize_from_bytes(&data).unwrap().0;
    assert!(data_l < 32);
    assert_eq!(message, message_out);
}

#[test]
fn serialize_limbs_bits() {
    check(Message::Message(MessageData::Response {
        id: Some(55),
        response: Response::Limbs([
            Some(Limb(
                0,
                LimbType::Sensor {
                    report_interval: 300,
                    data: Some(Sensor::TempHum((1000, 50))),
                },
            )),
            Some(Limb(
                2,
                LimbType::Sensor {
                    report_interval: 300,
                    data: Some(Sensor::TempHum((1000, 50))),
                },
            )),
            None,
        ]),
    }));

    check(Message::Message(MessageData::Command {
        id: 55,
        command: Command::Info,
    }));
    check(Message::Message(MessageData::Command {
        id: 55,
        command: Command::SetLimb(Limb(
            4,
            LimbType::Sensor {
                report_interval: 300,
                data: None,
            },
        )),
    }));
    check(Message::Message(MessageData::Command {
        id: 20,
        command: Command::Limbs,
    }));
}

#[test]
fn round_trip_all_message_variants() {
    check(Message::SearchingNetwork(0xdead_beef));
    check(Message::Network(0xdead_beef, 0x1234));
    check(Message::RelayMessage(
        7,
        MessageData::Command {
            id: 63,
            command: Command::ToggleLimb(15),
        },
    ));
    let mut diag = [0u8; 20];
    for (i, byte) in diag.iter_mut().enumerate() {
        *byte = (i as u8) * 3 + 1;
    }
    check(Message::DebugMessage(42, diag));
}

#[test]
fn round_trip_responses() {
    check(Message::Message(MessageData::Response {
        id: None,
        response: Response::Okay,
    }));
    check(Message::Message(MessageData::Response {
        id: Some(1),
        response: Response::Info(NodeInfo {
            board: Board::SamnSwitch,
            heartbeat_interval: 3600,
        }),
    }));
    check(Message::Message(MessageData::Response {
        id: Some(9),
        response: Response::Heartbeat(0xffff_ffff),
    }));
    check(Message::Message(MessageData::Response {
        id: Some(2),
        response: Response::ErrLimbNotFound,
    }));
    check(Message::Message(MessageData::Response {
        id: Some(3),
        response: Response::ErrLimbTypeDoesntMatch,
    }));
}

#[test]
fn round_trip_sensors_and_actuators() {
    check(Message::Message(MessageData::Response {
        id: Some(8),
        response: Response::Limbs([
            Some(Limb(
                1,
                LimbType::Sensor {
                    report_interval: 60,
                    data: Some(Sensor::Battery(100)),
                },
            )),
            Some(Limb(
                2,
                LimbType::Sensor {
                    report_interval: 60,
                    data: Some(Sensor::Current(1500)),
                },
            )),
            Some(Limb(
                3,
                LimbType::Actuator(samn_common::node::Actuator::Light(true)),
            )),
        ]),
    }));
    // A negative temperature survives the trip through the 16-bit field.
    check(Message::Message(MessageData::Response {
        id: Some(4),
        response: Response::Limbs([
            Some(Limb(
                0,
                LimbType::Sensor {
                    report_interval: 300,
                    data: Some(Sensor::TempHum((-1540, 99))),
                },
            )),
            None,
            None,
        ]),
    }));
    check(Message::Message(MessageData::Command {
        id: 11,
        command: Command::SetLimbType(LimbType::Actuator(samn_common::node::Actuator::Light(
            false,
        ))),
    }));
}

#[test]
fn command_info_exact_bytes() {
    // version 01, code 0000, is_command 1, id 110111, command code 0000:
    // seventeen bits, three bytes.
    let message = Message::Message(MessageData::Command {
        id: 55,
        command: Command::Info,
    });
    let mut data = vec![0u8; 32];
    let n = message.serialize_to_bytes(&mut data).unwrap();
    assert_eq!(n, 3);
    assert_eq!(&data[..3], &[0b0100_0011, 0b1011_1000, 0b0000_0000]);
    let (out, consumed) = Message::deserialize_from_bytes(&data).unwrap();
    assert_eq!(out, message);
    assert_eq!(consumed, 3);
}

#[test]
fn version_gate_rejects_other_versions() {
    // A valid message re-stamped with each wrong version must fail with the
    // version error, whatever else the buffer holds.
    let message = Message::Message(MessageData::Command {
        id: 55,
        command: Command::Info,
    });
    let mut data = vec![0u8; 32];
    message.serialize_to_bytes(&mut data).unwrap();
    for version in [0u8, 2, 3] {
        let mut tampered = data.clone();
        tampered[0] = (tampered[0] & 0b0011_1111) | (version << 6);
        assert!(matches!(
            Message::deserialize_from_bytes(&tampered),
            Err(NodeSerializeError::InvalidMessageVersion)
        ));
    }
}

#[test]
fn decode_rejects_unknown_codes() {
    // Message code 5 is unassigned.
    let mut writer = BitWriter::new(vec![0u8; 4]);
    writer.write_bits(1, 2).unwrap();
    writer.write_bits(5, 4).unwrap();
    writer.finalize();
    let buffer = writer.into_buffer();
    assert!(matches!(
        Message::deserialize_from_bytes(&buffer),
        Err(NodeSerializeError::InvalidMessageCode)
    ));

    // Command code 5 is unassigned.
    let mut writer = BitWriter::new(vec![0u8; 4]);
    writer.write_bits(1, 2).unwrap();
    writer.write_bits(0, 4).unwrap();
    writer.write_bits(1, 1).unwrap();
    writer.write_bits(0, 6).unwrap();
    writer.write_bits(5, 4).unwrap();
    writer.finalize();
    let buffer = writer.into_buffer();
    assert!(matches!(
        Message::deserialize_from_bytes(&buffer),
        Err(NodeSerializeError::InvalidCommandCode)
    ));

    // Response code 4 is unassigned (8 and 9 are taken by the two error
    // responses).
    let mut writer = BitWriter::new(vec![0u8; 4]);
    writer.write_bits(1, 2).unwrap();
    writer.write_bits(0, 4).unwrap();
    writer.write_bits(0, 1).unwrap();
    writer.write_bits(0, 6).unwrap();
    writer.write_bits(4, 4).unwrap();
    writer.finalize();
    let buffer = writer.into_buffer();
    assert!(matches!(
        Message::deserialize_from_bytes(&buffer),
        Err(NodeSerializeError::InvalidResponseCode)
    ));
}

#[test]
fn decode_of_truncated_buffer_underflows() {
    assert!(matches!(
        Message::deserialize_from_bytes(&[]),
        Err(NodeSerializeError::BitError(
            samn_common::bity::Error::BufferUnderflow
        ))
    ));
    // A relay message cut short after its header.
    let mut writer = BitWriter::new(vec![0u8; 1]);
    writer.write_bits(1, 2).unwrap();
    writer.write_bits(1, 4).unwrap();
    writer.finalize();
    let buffer = writer.into_buffer();
    assert!(matches!(
        Message::deserialize_from_bytes(&buffer),
        Err(NodeSerializeError::BitError(
            samn_common::bity::Error::BufferUnderflow
        ))
    ));
}

#[test]
fn serialize_reports_overflow() {
    // A debug message needs 198 bits; 8 bytes cannot hold it.
    let message = Message::DebugMessage(1, [0u8; 20]);
    let mut small = vec![0u8; 8];
    assert!(matches!(
        message.serialize_to_bytes(&mut small),
        Err(NodeSerializeError::BitError(
            samn_common::bity::Error::BufferOverflow
        ))
    ));
    let mut large = vec![0u8; 32];
    let n = message.serialize_to_bytes(&mut large).unwrap();
    assert_eq!(n, 25);
}

#[test]
fn serialize_fits_exactly_or_fails() {
    // The command-info message needs 17 bits: three bytes hold it, two do
    // not.
    let message = Message::Message(MessageData::Command {
        id: 55,
        command: Command::Info,
    });
    let mut two = vec![0u8; 2];
    assert!(matches!(
        message.serialize_to_bytes(&mut two),
        Err(NodeSerializeError::BitError(
            samn_common::bity::Error::BufferOverflow
        ))
    ));
    let mut three = vec![0u8; 3];
    assert_eq!(message.serialize_to_bytes(&mut three).unwrap(), 3);
}

#[test]
fn response_id_zero_means_none() {
    let message = Message::Message(MessageData::Response {
        id: None,
        response: Response::Okay,
    });
    let mut data = vec![0u8; 32];
    message.serialize_to_bytes(&mut data).unwrap();
    let (out, _) = Message::deserialize_from_bytes(&data).unwrap();
    assert_eq!(out, message);
}
