//! The mathematical model of the wire format.
//!
//! For every type of the message model there is a specification encoder
//! (`enc_*`) mapping a value to the bit sequence it puts on the wire, and a
//! specification parser (`parse_*`) mapping a bit sequence and a position to
//! either a value and the position after it, or the error the decoder
//! reports.  The executable codec in [`crate::node`] is verified against
//! these functions, and [`lemma_message_round_trip`] proves that parsing an
//! encoding yields the value back.
//!
//! Encoders are total: a field wider than its bit field is masked to the
//! field's width.  [`wf_message`] says when no masking happens — every
//! identifier lies within its declared range — which is exactly when the
//! round trip is the identity.

use vstd::prelude::*;

use crate::bity::{at, appended, bits_of, mask, read_val, stream, BitReader, BitWriter};
use crate::node::{
    Board, Command, Limb, LimbType, Limbs, Message, MessageData, NodeBitsResult,
    NodeInfo, NodeSerializeError, Response, Sensor, Actuator, MESSAGE_VERSION,
};

verus! {

// ---------------------------------------------------------------------------
// Well-formedness: every identifier fits the bit field that carries it.
// ---------------------------------------------------------------------------
/// The limb id fits its 4-bit field.
pub open spec fn wf_limb(l: Limb) -> bool {
    l.0 < 16
}

/// An optional limb slot is well-formed if an occupied slot is.
pub open spec fn wf_slot(o: Option<Limb>) -> bool {
    match o {
        Some(l) => wf_limb(l),
        None => true,
    }
}

/// Every limb id a command carries fits its 4-bit field.
pub open spec fn wf_command(c: Command) -> bool {
    match c {
        Command::Info => true,
        Command::Limbs => true,
        Command::SetLimb(l) => wf_limb(l),
        Command::ToggleLimb(id) => id < 16,
        Command::SetLimbType(_) => true,
    }
}

/// Every limb a response carries is well-formed.
pub open spec fn wf_response(r: Response) -> bool {
    match r {
        Response::Limbs(ls) => wf_slot(ls[0]) && wf_slot(ls[1]) && wf_slot(ls[2]),
        _ => true,
    }
}

/// The correlation id fits its 6-bit field; a response id of zero is
/// reserved to mean "none", so `Some(0)` is not well-formed.
pub open spec fn wf_msg_data(d: MessageData) -> bool {
    match d {
        MessageData::Command { id, command } => id < 64 && wf_command(command),
        MessageData::Response { id, response } => {
            &&& match id {
                Some(i) => 0 < i < 64,
                None => true,
            }
            &&& wf_response(response)
        },
    }
}

/// Every field of the message fits the bit field that carries it.
pub open spec fn wf_message(m: Message) -> bool {
    match m {
        Message::Message(d) => wf_msg_data(d),
        Message::RelayMessage(_, d) => wf_msg_data(d),
        _ => true,
    }
}

// ---------------------------------------------------------------------------
// Variant codes.  Order is the wire contract: codes are stable and must
// match between encoder and decoder.
// ---------------------------------------------------------------------------
/// The 2-bit code of a board revision.
pub open spec fn board_code(b: Board) -> u32 {
    match b {
        Board::SamnV8 => 0,
        Board::SamnV9 => 1,
        Board::SamnDC => 2,
        Board::SamnSwitch => 3,
    }
}

/// The 4-bit code of a sensor variant.
pub open spec fn sensor_code(s: Sensor) -> u32 {
    match s {
        Sensor::Battery(_) => 0,
        Sensor::TempHum(_) => 1,
        Sensor::Current(_) => 2,
    }
}

/// The 4-bit code of an actuator variant.
pub open spec fn actuator_code(a: Actuator) -> u32 {
    match a {
        Actuator::Light(_) => 0,
    }
}

/// The 4-bit code of a command variant.
pub open spec fn command_code(c: Command) -> u32 {
    match c {
        Command::Info => 0,
        Command::Limbs => 1,
        Command::SetLimb(_) => 2,
        Command::ToggleLimb(_) => 3,
        Command::SetLimbType(_) => 4,
    }
}

/// The 4-bit code of a response variant.
///
/// The two error variants have the logical ids 200 and 201; a 4-bit field
/// cannot hold those, so they travel as their low four bits, 8 and 9.
pub open spec fn response_code(r: Response) -> u32 {
    match r {
        Response::Okay => 0,
        Response::Info(_) => 1,
        Response::Limbs(_) => 2,
        Response::Heartbeat(_) => 3,
        Response::ErrLimbNotFound => 8,
        Response::ErrLimbTypeDoesntMatch => 9,
    }
}

/// The 4-bit code of a message variant.
pub open spec fn message_code(m: Message) -> u32 {
    match m {
        Message::Message(_) => 0,
        Message::RelayMessage(_, _) => 1,
        Message::SearchingNetwork(_) => 2,
        Message::Network(_, _) => 3,
        Message::DebugMessage(_, _) => 4,
    }
}

// ---------------------------------------------------------------------------
// Encoders.
// ---------------------------------------------------------------------------
/// A board is its 2-bit code.
pub open spec fn enc_board(b: Board) -> Seq<bool> {
    bits_of(board_code(b), 2)
}

/// Board code, then 16-bit heartbeat interval.
pub open spec fn enc_node_info(n: NodeInfo) -> Seq<bool> {
    enc_board(n.board) + bits_of(n.heartbeat_interval as u32, 16)
}

/// Sensor code, then the fields of the variant.
pub open spec fn enc_sensor(s: Sensor) -> Seq<bool> {
    bits_of(sensor_code(s), 4) + match s {
        Sensor::Battery(level) => bits_of(level as u32, 8),
        Sensor::TempHum((temp, hum)) => bits_of(temp as u16 as u32, 16) + bits_of(hum as u32, 8),
        Sensor::Current(current) => bits_of(current as u32, 16),
    }
}

/// Actuator code, then the fields of the variant.
pub open spec fn enc_actuator(a: Actuator) -> Seq<bool> {
    bits_of(actuator_code(a), 4) + match a {
        Actuator::Light(on) => bits_of(if on { 1u32 } else { 0u32 }, 1),
    }
}

/// A 1-bit sensor/actuator discriminant, then the fields: a sensor limb has
/// a 16-bit report interval and a 1-bit presence flag before an optional
/// sensor reading.
pub open spec fn enc_limb_type(lt: LimbType) -> Seq<bool> {
    match lt {
        LimbType::Sensor { report_interval, data } => bits_of(1, 1) + bits_of(
            report_interval as u32,
            16,
        ) + match data {
            Some(s) => bits_of(1, 1) + enc_sensor(s),
            None => bits_of(0, 1),
        },
        LimbType::Actuator(a) => bits_of(0, 1) + enc_actuator(a),
    }
}

/// A 4-bit limb id, then the limb type.
pub open spec fn enc_limb(l: Limb) -> Seq<bool> {
    bits_of(l.0 as u32, 4) + enc_limb_type(l.1)
}

/// A 1-bit presence flag, then the limb if present.
pub open spec fn enc_slot(o: Option<Limb>) -> Seq<bool> {
    match o {
        Some(l) => bits_of(1, 1) + enc_limb(l),
        None => bits_of(0, 1),
    }
}

/// The three limb slots in order.
pub open spec fn enc_limbs(ls: Limbs) -> Seq<bool> {
    enc_slot(ls[0]) + enc_slot(ls[1]) + enc_slot(ls[2])
}

/// Command code, then the fields of the variant.
pub open spec fn enc_command(c: Command) -> Seq<bool> {
    bits_of(command_code(c), 4) + match c {
        Command::Info => Seq::<bool>::empty(),
        Command::Limbs => Seq::<bool>::empty(),
        Command::SetLimb(l) => enc_limb(l),
        Command::ToggleLimb(id) => bits_of(id as u32, 4),
        Command::SetLimbType(lt) => enc_limb_type(lt),
    }
}

/// Response code, then the fields of the variant.
pub open spec fn enc_response(r: Response) -> Seq<bool> {
    bits_of(response_code(r), 4) + match r {
        Response::Okay => Seq::<bool>::empty(),
        Response::Info(n) => enc_node_info(n),
        Response::Limbs(ls) => enc_limbs(ls),
        Response::Heartbeat(t) => bits_of(t, 32),
        Response::ErrLimbNotFound => Seq::<bool>::empty(),
        Response::ErrLimbTypeDoesntMatch => Seq::<bool>::empty(),
    }
}

/// A 1-bit command/response discriminant, a 6-bit correlation id (0 for a
/// response without one), then the command or response.
pub open spec fn enc_msg_data(d: MessageData) -> Seq<bool> {
    match d {
        MessageData::Command { id, command } => bits_of(1, 1) + bits_of(id as u32, 6)
            + enc_command(command),
        MessageData::Response { id, response } => bits_of(0, 1) + bits_of(
            match id {
                Some(i) => i as u32,
                None => 0,
            },
            6,
        ) + enc_response(response),
    }
}

/// The bytes of a debug payload as a bit sequence, each byte most
/// significant bit first.
pub open spec fn enc_bytes(bs: Seq<u8>) -> Seq<bool> {
    stream(bs)
}

/// The 2-bit protocol version, the 4-bit message code, then the fields of
/// the variant.
pub open spec fn enc_message(m: Message) -> Seq<bool> {
    bits_of(MESSAGE_VERSION as u32, 2) + bits_of(message_code(m), 4) + match m {
        Message::Message(d) => enc_msg_data(d),
        Message::RelayMessage(node_id, d) => bits_of(node_id, 32) + enc_msg_data(d),
        Message::SearchingNetwork(node_id) => bits_of(node_id, 32),
        Message::Network(node_id, addr) => bits_of(node_id, 32) + bits_of(addr as u32, 16),
        Message::DebugMessage(node_id, msg) => bits_of(node_id, 32) + enc_bytes(msg@),
    }
}

// ---------------------------------------------------------------------------
// Parsers.  Each takes the bit stream and a position and yields the value
// and the position after it, or the error the decoder reports.
// ---------------------------------------------------------------------------
/// The error a parser reports when the stream runs out.
pub open spec fn underflow() -> NodeSerializeError {
    NodeSerializeError::BitError(crate::bity::Error::BufferUnderflow)
}

/// `w` bits as an unsigned value, most significant first.
pub open spec fn parse_u(s: Seq<bool>, pos: int, w: u32) -> Result<(u32, int), NodeSerializeError> {
    if pos + w <= s.len() {
        Ok((read_val(s, pos, w as int), pos + w))
    } else {
        Err(underflow())
    }
}

/// The board a 2-bit code names.
pub open spec fn board_of_code(c: u32) -> Result<Board, NodeSerializeError> {
    if c == 0 {
        Ok(Board::SamnV8)
    } else if c == 1 {
        Ok(Board::SamnV9)
    } else if c == 2 {
        Ok(Board::SamnDC)
    } else if c == 3 {
        Ok(Board::SamnSwitch)
    } else {
        Err(NodeSerializeError::InvalidBoardCode)
    }
}

/// A board from its 2-bit code.
pub open spec fn parse_board(s: Seq<bool>, pos: int) -> Result<(Board, int), NodeSerializeError> {
    match parse_u(s, pos, 2) {
        Ok((code, p)) => match board_of_code(code) {
            Ok(b) => Ok((b, p)),
            Err(e) => Err(e),
        },
        Err(e) => Err(e),
    }
}

/// A board, then a 16-bit heartbeat interval.
pub open spec fn parse_node_info(s: Seq<bool>, pos: int) -> Result<
    (NodeInfo, int),
    NodeSerializeError,
> {
    match parse_board(s, pos) {
        Ok((board, p)) => match parse_u(s, p, 16) {
            Ok((hb, p2)) => Ok((NodeInfo { board, heartbeat_interval: hb as u16 }, p2)),
            Err(e) => Err(e),
        },
        Err(e) => Err(e),
    }
}

/// A sensor from its 4-bit code and fields.
pub open spec fn parse_sensor(s: Seq<bool>, pos: int) -> Result<(Sensor, int), NodeSerializeError> {
    match parse_u(s, pos, 4) {
        Ok((code, p)) => {
            if code == 0 {
                match parse_u(s, p, 8) {
                    Ok((level, p2)) => Ok((Sensor::Battery(level as u8), p2)),
                    Err(e) => Err(e),
                }
            } else if code == 1 {
                match parse_u(s, p, 16) {
                    Ok((temp, p2)) => match parse_u(s, p2, 8) {
                        Ok((hum, p3)) => Ok(
                            (Sensor::TempHum((temp as i16, hum as u8)), p3),
                        ),
                        Err(e) => Err(e),
                    },
                    Err(e) => Err(e),
                }
            } else if code == 2 {
                match parse_u(s, p, 16) {
                    Ok((current, p2)) => Ok((Sensor::Current(current as u16), p2)),
                    Err(e) => Err(e),
                }
            } else {
                Err(NodeSerializeError::InvalidSensorCode)
            }
        },
        Err(e) => Err(e),
    }
}

/// An actuator from its 4-bit code and fields.
pub open spec fn parse_actuator(s: Seq<bool>, pos: int) -> Result<
    (Actuator, int),
    NodeSerializeError,
> {
    match parse_u(s, pos, 4) {
        Ok((code, p)) => {
            if code == 0 {
                match parse_u(s, p, 1) {
                    Ok((on, p2)) => Ok((Actuator::Light(on == 1), p2)),
                    Err(e) => Err(e),
                }
            } else {
                Err(NodeSerializeError::InvalidActuatorCode)
            }
        },
        Err(e) => Err(e),
    }
}

/// A limb type from its 1-bit discriminant and fields.
pub open spec fn parse_limb_type(s: Seq<bool>, pos: int) -> Result<
    (LimbType, int),
    NodeSerializeError,
> {
    match parse_u(s, pos, 1) {
        Ok((is_sensor, p)) => {
            if is_sensor == 1 {
                match parse_u(s, p, 16) {
                    Ok((ri, p2)) => match parse_u(s, p2, 1) {
                        Ok((has_data, p3)) => {
                            if has_data == 1 {
                                match parse_sensor(s, p3) {
                                    Ok((sensor, p4)) => Ok(
                                        (
                                            LimbType::Sensor {
                                                report_interval: ri as u16,
                                                data: Some(sensor),
                                            },
                                            p4,
                                        ),
                                    ),
                                    Err(e) => Err(e),
                                }
                            } else {
                                Ok(
                                    (
                                        LimbType::Sensor {
                                            report_interval: ri as u16,
                                            data: None,
                                        },
                                        p3,
                                    ),
                                )
                            }
                        },
                        Err(e) => Err(e),
                    },
                    Err(e) => Err(e),
                }
            } else {
                match parse_actuator(s, p) {
                    Ok((a, p2)) => Ok((LimbType::Actuator(a), p2)),
                    Err(e) => Err(e),
                }
            }
        },
        Err(e) => Err(e),
    }
}

/// A 4-bit limb id, then a limb type.
pub open spec fn parse_limb(s: Seq<bool>, pos: int) -> Result<(Limb, int), NodeSerializeError> {
    match parse_u(s, pos, 4) {
        Ok((id, p)) => match parse_limb_type(s, p) {
            Ok((lt, p2)) => Ok((Limb(id as u8, lt), p2)),
            Err(e) => Err(e),
        },
        Err(e) => Err(e),
    }
}

/// A 1-bit presence flag, then a limb if present.
pub open spec fn parse_slot(s: Seq<bool>, pos: int) -> Result<
    (Option<Limb>, int),
    NodeSerializeError,
> {
    match parse_u(s, pos, 1) {
        Ok((has, p)) => {
            if has == 1 {
                match parse_limb(s, p) {
                    Ok((l, p2)) => Ok((Some(l), p2)),
                    Err(e) => Err(e),
                }
            } else {
                Ok((None, p))
            }
        },
        Err(e) => Err(e),
    }
}

/// The three limb slots in order.
pub open spec fn parse_limbs(s: Seq<bool>, pos: int) -> Result<(Limbs, int), NodeSerializeError> {
    match parse_slot(s, pos) {
        Ok((s0, p0)) => match parse_slot(s, p0) {
            Ok((s1, p1)) => match parse_slot(s, p1) {
                Ok((s2, p2)) => Ok(([s0, s1, s2], p2)),
                Err(e) => Err(e),
            },
            Err(e) => Err(e),
        },
        Err(e) => Err(e),
    }
}

/// A command from its 4-bit code and fields.
pub open spec fn parse_command(s: Seq<bool>, pos: int) -> Result<
    (Command, int),
    NodeSerializeError,
> {
    match parse_u(s, pos, 4) {
        Ok((code, p)) => {
            if code == 0 {
                Ok((Command::Info, p))
            } else if code == 1 {
                Ok((Command::Limbs, p))
            } else if code == 2 {
                match parse_limb(s, p) {
                    Ok((l, p2)) => Ok((Command::SetLimb(l), p2)),
                    Err(e) => Err(e),
                }
            } else if code == 3 {
                match parse_u(s, p, 4) {
                    Ok((id, p2)) => Ok((Command::ToggleLimb(id as u8), p2)),
                    Err(e) => Err(e),
                }
            } else if code == 4 {
                match parse_limb_type(s, p) {
                    Ok((lt, p2)) => Ok((Command::SetLimbType(lt), p2)),
                    Err(e) => Err(e),
                }
            } else {
                Err(NodeSerializeError::InvalidCommandCode)
            }
        },
        Err(e) => Err(e),
    }
}

/// A response from its 4-bit code and fields.
pub open spec fn parse_response(s: Seq<bool>, pos: int) -> Result<
    (Response, int),
    NodeSerializeError,
> {
    match parse_u(s, pos, 4) {
        Ok((code, p)) => {
            if code == 0 {
                Ok((Response::Okay, p))
            } else if code == 1 {
                match parse_node_info(s, p) {
                    Ok((n, p2)) => Ok((Response::Info(n), p2)),
                    Err(e) => Err(e),
                }
            } else if code == 2 {
                match parse_limbs(s, p) {
                    Ok((ls, p2)) => Ok((Response::Limbs(ls), p2)),
                    Err(e) => Err(e),
                }
            } else if code == 3 {
                match parse_u(s, p, 32) {
                    Ok((t, p2)) => Ok((Response::Heartbeat(t), p2)),
                    Err(e) => Err(e),
                }
            } else if code == 8 {
                Ok((Response::ErrLimbNotFound, p))
            } else if code == 9 {
                Ok((Response::ErrLimbTypeDoesntMatch, p))
            } else {
                Err(NodeSerializeError::InvalidResponseCode)
            }
        },
        Err(e) => Err(e),
    }
}

/// Message data from its 1-bit discriminant, 6-bit id and fields.
pub open spec fn parse_msg_data(s: Seq<bool>, pos: int) -> Result<
    (MessageData, int),
    NodeSerializeError,
> {
    match parse_u(s, pos, 1) {
        Ok((is_command, p)) => match parse_u(s, p, 6) {
            Ok((id, p2)) => {
                if is_command == 1 {
                    match parse_command(s, p2) {
                        Ok((c, p3)) => Ok((MessageData::Command { id: id as u8, command: c }, p3)),
                        Err(e) => Err(e),
                    }
                } else {
                    match parse_response(s, p2) {
                        Ok((r, p3)) => Ok(
                            (
                                MessageData::Response {
                                    id: if id == 0 {
                                        None
                                    } else {
                                        Some(id as u8)
                                    },
                                    response: r,
                                },
                                p3,
                            ),
                        ),
                        Err(e) => Err(e),
                    }
                }
            },
            Err(e) => Err(e),
        },
        Err(e) => Err(e),
    }
}

/// Byte `k` of a byte sequence parsed from position `pos` of the stream.
pub open spec fn byte_k(s: Seq<bool>, pos: int, k: int) -> u8 {
    read_val(s, pos + 8 * k, 8) as u8
}

/// Twenty bytes, each most significant bit first.
pub open spec fn parse_bytes20(s: Seq<bool>, pos: int) -> Result<([u8; 20], int), NodeSerializeError> {
    if pos + 160 <= s.len() {
        Ok(
            (
                [
                    byte_k(s, pos, 0),
                    byte_k(s, pos, 1),
                    byte_k(s, pos, 2),
                    byte_k(s, pos, 3),
                    byte_k(s, pos, 4),
                    byte_k(s, pos, 5),
                    byte_k(s, pos, 6),
                    byte_k(s, pos, 7),
                    byte_k(s, pos, 8),
                    byte_k(s, pos, 9),
                    byte_k(s, pos, 10),
                    byte_k(s, pos, 11),
                    byte_k(s, pos, 12),
                    byte_k(s, pos, 13),
                    byte_k(s, pos, 14),
                    byte_k(s, pos, 15),
                    byte_k(s, pos, 16),
                    byte_k(s, pos, 17),
                    byte_k(s, pos, 18),
                    byte_k(s, pos, 19),
                ],
                pos + 160,
            ),
        )
    } else {
        Err(underflow())
    }
}

/// A whole message: the 2-bit protocol version (a mismatch is rejected
/// before anything else is read), the 4-bit message code, then the fields
/// of the variant.
pub open spec fn parse_message(s: Seq<bool>) -> Result<(Message, int), NodeSerializeError> {
    match parse_u(s, 0, 2) {
        Ok((version, p)) => {
            if version != MESSAGE_VERSION as u32 {
                Err(NodeSerializeError::InvalidMessageVersion)
            } else {
                match parse_u(s, p, 4) {
                    Ok((code, p2)) => {
                        if code == 0 {
                            match parse_msg_data(s, p2) {
                                Ok((d, p3)) => Ok((Message::Message(d), p3)),
                                Err(e) => Err(e),
                            }
                        } else if code == 1 {
                            match parse_u(s, p2, 32) {
                                Ok((node_id, p3)) => match parse_msg_data(s, p3) {
                                    Ok((d, p4)) => Ok((Message::RelayMessage(node_id, d), p4)),
                                    Err(e) => Err(e),
                                },
                                Err(e) => Err(e),
                            }
                        } else if code == 2 {
                            match parse_u(s, p2, 32) {
                                Ok((node_id, p3)) => Ok((Message::SearchingNetwork(node_id), p3)),
                                Err(e) => Err(e),
                            }
                        } else if code == 3 {
                            match parse_u(s, p2, 32) {
                                Ok((node_id, p3)) => match parse_u(s, p3, 16) {
                                    Ok((addr, p4)) => Ok(
                                        (Message::Network(node_id, addr as u16), p4),
                                    ),
                                    Err(e) => Err(e),
                                },
                                Err(e) => Err(e),
                            }
                        } else if code == 4 {
                            match parse_u(s, p2, 32) {
                                Ok((node_id, p3)) => match parse_bytes20(s, p3) {
                                    Ok((msg, p4)) => Ok((Message::DebugMessage(node_id, msg), p4)),
                                    Err(e) => Err(e),
                                },
                                Err(e) => Err(e),
                            }
                        } else {
                            Err(NodeSerializeError::InvalidMessageCode)
                        }
                    },
                    Err(e) => Err(e),
                }
            }
        },
        Err(e) => Err(e),
    }
}

// ---------------------------------------------------------------------------
// What one serializing or parsing step does to the writer or reader.
// ---------------------------------------------------------------------------
/// A serializing step on the writer: on success the cursor advanced over
/// exactly `piece`, written at the old cursor; on failure `piece` did not
/// fit, the error is the overflow error, and bits before the old cursor are
/// untouched.
pub open spec fn wrote(w0: BitWriter, w1: BitWriter, piece: Seq<bool>, r: NodeBitsResult<()>) -> bool {
    &&& w1.wf()
    &&& w1.bytes().len() == w0.bytes().len()
    &&& match r {
        Ok(()) => {
            &&& w0.cursor() + piece.len() <= w0.bytes().len() * 8
            &&& w1.cursor() == w0.cursor() + piece.len()
            &&& appended(stream(w0.bytes()), stream(w1.bytes()), w0.cursor(), piece)
        },
        Err(e) => {
            &&& e == NodeSerializeError::BitError(crate::bity::Error::BufferOverflow)
            &&& w0.cursor() + piece.len() > w0.bytes().len() * 8
            &&& forall|i: int|
                0 <= i < w0.cursor() ==> stream(w1.bytes())[i] == stream(w0.bytes())[i]
        },
    }
}

/// A parsing step on the reader: the outcome and the new cursor are the
/// ones the specification parser gives at the old cursor.
pub open spec fn parsed<T>(
    r0: BitReader,
    r1: BitReader,
    res: Result<(T, int), NodeSerializeError>,
    r: NodeBitsResult<T>,
) -> bool {
    &&& r1.wf()
    &&& r1.bytes() == r0.bytes()
    &&& match res {
        Ok((x, p)) => r == Ok::<T, NodeSerializeError>(x) && r1.cursor() == p,
        Err(e) => r == Err::<T, NodeSerializeError>(e),
    }
}

/// Two successive serializing steps make one step over the concatenation.
pub proof fn lemma_wrote_seq(
    w0: BitWriter,
    w1: BitWriter,
    w2: BitWriter,
    p1: Seq<bool>,
    p2: Seq<bool>,
    r2: NodeBitsResult<()>,
)
    requires
        wrote(w0, w1, p1, Ok(())),
        wrote(w1, w2, p2, r2),
    ensures
        wrote(w0, w2, p1 + p2, r2),
{
    match r2 {
        Ok(()) => {
            crate::bity::lemma_appended_trans(
                stream(w0.bytes()),
                stream(w1.bytes()),
                stream(w2.bytes()),
                w0.cursor(),
                p1,
                p2,
            );
        },
        Err(_) => {
            assert forall|i: int| 0 <= i < w0.cursor() implies stream(w2.bytes())[i] == stream(
                w0.bytes(),
            )[i] by {
                assert(stream(w2.bytes())[i] == stream(w1.bytes())[i]);
            }
        },
    }
}

/// Byte `k` of a byte sequence contributes bits `8k` to `8k + 7` of its bit
/// stream, most significant first.
pub proof fn lemma_stream_byte(bs: Seq<u8>, k: int)
    requires
        0 <= k < bs.len(),
    ensures
        forall|j: int|
            0 <= j < 8 ==> stream(bs)[8 * k + j] == #[trigger] bits_of(bs[k] as u32, 8)[j],
{
    assert forall|j: int| 0 <= j < 8 implies stream(bs)[8 * k + j] == #[trigger] bits_of(
        bs[k] as u32,
        8,
    )[j] by {
        lemma_div8(k, j);
        let b = bs[k];
        let kb = (7 - j) as u32;
        assert(((b >> kb) & 1 == 1) == (((b as u32) >> kb) & 1 == 1)) by (bit_vector)
            requires
                kb < 8,
        ;
    }
}

proof fn lemma_div8(bp: int, off: int)
    by (nonlinear_arith)
    requires
        0 <= off < 8,
        0 <= bp,
    ensures
        (8 * bp + off) / 8 == bp,
        (8 * bp + off) % 8 == off,
{
}

/// A failed step also fails for any longer piece: only the length of the
/// piece matters to a failure.
pub proof fn lemma_wrote_err_extend(
    w0: BitWriter,
    w1: BitWriter,
    p1: Seq<bool>,
    full: Seq<bool>,
    e: NodeSerializeError,
)
    requires
        wrote(w0, w1, p1, Err(e)),
        p1.len() <= full.len(),
    ensures
        wrote(w0, w1, full, Err(e)),
{
}


// ---------------------------------------------------------------------------
// Round trip: parsing an encoding yields the encoded value back.
// ---------------------------------------------------------------------------
/// The values of `mask` at the field widths the wire format uses.
proof fn lemma_mask_concrete()
    ensures
        mask(1) == 1,
        mask(2) == 3,
        mask(4) == 15,
        mask(6) == 63,
        mask(8) == 255,
        mask(16) == 65535,
        mask(32) == 0xffff_ffffu32,
{
    assert(mask(1) == 1 && mask(2) == 3 && mask(4) == 15 && mask(6) == 63 && mask(8) == 255
        && mask(16) == 65535 && mask(32) == 0xffff_ffffu32) by (bit_vector);
}

/// Masking does not change a value that already fits.
proof fn lemma_mask_small(v: u32, w: u32)
    requires
        w <= 32,
        v <= mask(w),
    ensures
        v & mask(w) == v,
{
    assert(v <= mask(w) ==> v & mask(w) == v) by (bit_vector)
        requires
            w <= 32,
    ;
}

/// A field encoded at `pos` parses to its masked value.
proof fn lemma_parse_bits(s: Seq<bool>, pos: int, v: u32, w: u32)
    requires
        w <= 32,
        at(s, pos, bits_of(v, w)),
    ensures
        parse_u(s, pos, w) == Ok::<(u32, int), NodeSerializeError>((v & mask(w), pos + w)),
{
    crate::bity::lemma_read_val_of_bits(s, pos, v, w);
}

/// As [`lemma_parse_bits`], for a value that fits its field.
proof fn lemma_parse_bits_small(s: Seq<bool>, pos: int, v: u32, w: u32)
    requires
        w <= 32,
        v <= mask(w),
        at(s, pos, bits_of(v, w)),
    ensures
        parse_u(s, pos, w) == Ok::<(u32, int), NodeSerializeError>((v, pos + w)),
{
    lemma_parse_bits(s, pos, v, w);
    lemma_mask_small(v, w);
}

proof fn lemma_board_round_trip(b: Board, s: Seq<bool>, pos: int)
    requires
        at(s, pos, enc_board(b)),
    ensures
        parse_board(s, pos) == Ok::<(Board, int), NodeSerializeError>(
            (b, pos + enc_board(b).len()),
        ),
{
    lemma_mask_concrete();
    lemma_parse_bits_small(s, pos, board_code(b), 2);
}

proof fn lemma_node_info_round_trip(n: NodeInfo, s: Seq<bool>, pos: int)
    requires
        at(s, pos, enc_node_info(n)),
    ensures
        parse_node_info(s, pos) == Ok::<(NodeInfo, int), NodeSerializeError>(
            (n, pos + enc_node_info(n).len()),
        ),
{
    lemma_mask_concrete();
    let p1 = enc_board(n.board);
    let p2 = bits_of(n.heartbeat_interval as u32, 16);
    crate::bity::lemma_at_concat(s, pos, p1, p2);
    lemma_board_round_trip(n.board, s, pos);
    lemma_parse_bits_small(s, pos + 2, n.heartbeat_interval as u32, 16);
}

proof fn lemma_sensor_round_trip(x: Sensor, s: Seq<bool>, pos: int)
    requires
        at(s, pos, enc_sensor(x)),
    ensures
        parse_sensor(s, pos) == Ok::<(Sensor, int), NodeSerializeError>(
            (x, pos + enc_sensor(x).len()),
        ),
{
    lemma_mask_concrete();
    let p1 = bits_of(sensor_code(x), 4);
    match x {
        Sensor::Battery(level) => {
            let p2 = bits_of(level as u32, 8);
            crate::bity::lemma_at_concat(s, pos, p1, p2);
            lemma_parse_bits_small(s, pos, sensor_code(x), 4);
            lemma_parse_bits_small(s, pos + 4, level as u32, 8);
        },
        Sensor::TempHum((temp, hum)) => {
            let p2 = bits_of(temp as u16 as u32, 16);
            let p3 = bits_of(hum as u32, 8);
            crate::bity::lemma_at_concat(s, pos, p1, p2 + p3);
            crate::bity::lemma_at_concat(s, pos + 4, p2, p3);
            lemma_parse_bits_small(s, pos, sensor_code(x), 4);
            lemma_parse_bits_small(s, pos + 4, temp as u16 as u32, 16);
            lemma_parse_bits_small(s, pos + 20, hum as u32, 8);
            assert((temp as u16 as u32) as i16 == temp) by (bit_vector);
        },
        Sensor::Current(current) => {
            let p2 = bits_of(current as u32, 16);
            crate::bity::lemma_at_concat(s, pos, p1, p2);
            lemma_parse_bits_small(s, pos, sensor_code(x), 4);
            lemma_parse_bits_small(s, pos + 4, current as u32, 16);
        },
    }
}

proof fn lemma_actuator_round_trip(x: Actuator, s: Seq<bool>, pos: int)
    requires
        at(s, pos, enc_actuator(x)),
    ensures
        parse_actuator(s, pos) == Ok::<(Actuator, int), NodeSerializeError>(
            (x, pos + enc_actuator(x).len()),
        ),
{
    lemma_mask_concrete();
    let p1 = bits_of(actuator_code(x), 4);
    match x {
        Actuator::Light(on) => {
            let bit: u32 = if on {
                1u32
            } else {
                0u32
            };
            let p2 = bits_of(bit, 1);
            crate::bity::lemma_at_concat(s, pos, p1, p2);
            lemma_parse_bits_small(s, pos, actuator_code(x), 4);
            lemma_parse_bits_small(s, pos + 4, bit, 1);
        },
    }
}

proof fn lemma_limb_type_round_trip(x: LimbType, s: Seq<bool>, pos: int)
    requires
        at(s, pos, enc_limb_type(x)),
    ensures
        parse_limb_type(s, pos) == Ok::<(LimbType, int), NodeSerializeError>(
            (x, pos + enc_limb_type(x).len()),
        ),
{
    lemma_mask_concrete();
    match x {
        LimbType::Sensor { report_interval, data } => {
            let p1 = bits_of(1, 1);
            let p2 = bits_of(report_interval as u32, 16);
            let p3 = match data {
                Some(sensor) => bits_of(1, 1) + enc_sensor(sensor),
                None => bits_of(0, 1),
            };
            crate::bity::lemma_at_concat(s, pos, p1 + p2, p3);
            crate::bity::lemma_at_concat(s, pos, p1, p2);
            lemma_parse_bits_small(s, pos, 1, 1);
            lemma_parse_bits_small(s, pos + 1, report_interval as u32, 16);
            match data {
                Some(sensor) => {
                    crate::bity::lemma_at_concat(s, pos + 17, bits_of(1, 1), enc_sensor(sensor));
                    lemma_parse_bits_small(s, pos + 17, 1, 1);
                    lemma_sensor_round_trip(sensor, s, pos + 18);
                },
                None => {
                    lemma_parse_bits_small(s, pos + 17, 0, 1);
                },
            }
        },
        LimbType::Actuator(a) => {
            let p1 = bits_of(0, 1);
            crate::bity::lemma_at_concat(s, pos, p1, enc_actuator(a));
            lemma_parse_bits_small(s, pos, 0, 1);
            lemma_actuator_round_trip(a, s, pos + 1);
        },
    }
}

proof fn lemma_limb_round_trip(x: Limb, s: Seq<bool>, pos: int)
    requires
        wf_limb(x),
        at(s, pos, enc_limb(x)),
    ensures
        parse_limb(s, pos) == Ok::<(Limb, int), NodeSerializeError>((x, pos + enc_limb(x).len())),
{
    lemma_mask_concrete();
    crate::bity::lemma_at_concat(s, pos, bits_of(x.0 as u32, 4), enc_limb_type(x.1));
    lemma_parse_bits_small(s, pos, x.0 as u32, 4);
    lemma_limb_type_round_trip(x.1, s, pos + 4);
}

proof fn lemma_slot_round_trip(x: Option<Limb>, s: Seq<bool>, pos: int)
    requires
        wf_slot(x),
        at(s, pos, enc_slot(x)),
    ensures
        parse_slot(s, pos) == Ok::<(Option<Limb>, int), NodeSerializeError>(
            (x, pos + enc_slot(x).len()),
        ),
{
    lemma_mask_concrete();
    match x {
        Some(l) => {
            crate::bity::lemma_at_concat(s, pos, bits_of(1, 1), enc_limb(l));
            lemma_parse_bits_small(s, pos, 1, 1);
            lemma_limb_round_trip(l, s, pos + 1);
        },
        None => {
            lemma_parse_bits_small(s, pos, 0, 1);
        },
    }
}

proof fn lemma_limbs_round_trip(ls: Limbs, s: Seq<bool>, pos: int)
    requires
        wf_slot(ls[0]),
        wf_slot(ls[1]),
        wf_slot(ls[2]),
        at(s, pos, enc_limbs(ls)),
    ensures
        parse_limbs(s, pos) == Ok::<(Limbs, int), NodeSerializeError>(
            (ls, pos + enc_limbs(ls).len()),
        ),
{
    let e0 = enc_slot(ls[0]);
    let e1 = enc_slot(ls[1]);
    let e2 = enc_slot(ls[2]);
    crate::bity::lemma_at_concat(s, pos, e0 + e1, e2);
    crate::bity::lemma_at_concat(s, pos, e0, e1);
    lemma_slot_round_trip(ls[0], s, pos);
    lemma_slot_round_trip(ls[1], s, pos + e0.len());
    lemma_slot_round_trip(ls[2], s, pos + e0.len() + e1.len());
    match parse_limbs(s, pos) {
        Ok((arr, _)) => {
            assert(arr =~= ls);
        },
        Err(_) => {
            assert(false);
        },
    }
}

proof fn lemma_command_round_trip(x: Command, s: Seq<bool>, pos: int)
    requires
        wf_command(x),
        at(s, pos, enc_command(x)),
    ensures
        parse_command(s, pos) == Ok::<(Command, int), NodeSerializeError>(
            (x, pos + enc_command(x).len()),
        ),
{
    lemma_mask_concrete();
    let p1 = bits_of(command_code(x), 4);
    match x {
        Command::Info => {
            crate::bity::lemma_at_concat(s, pos, p1, Seq::<bool>::empty());
            lemma_parse_bits_small(s, pos, command_code(x), 4);
        },
        Command::Limbs => {
            crate::bity::lemma_at_concat(s, pos, p1, Seq::<bool>::empty());
            lemma_parse_bits_small(s, pos, command_code(x), 4);
        },
        Command::SetLimb(l) => {
            crate::bity::lemma_at_concat(s, pos, p1, enc_limb(l));
            lemma_parse_bits_small(s, pos, command_code(x), 4);
            lemma_limb_round_trip(l, s, pos + 4);
        },
        Command::ToggleLimb(id) => {
            crate::bity::lemma_at_concat(s, pos, p1, bits_of(id as u32, 4));
            lemma_parse_bits_small(s, pos, command_code(x), 4);
            lemma_parse_bits_small(s, pos + 4, id as u32, 4);
        },
        Command::SetLimbType(lt) => {
            crate::bity::lemma_at_concat(s, pos, p1, enc_limb_type(lt));
            lemma_parse_bits_small(s, pos, command_code(x), 4);
            lemma_limb_type_round_trip(lt, s, pos + 4);
        },
    }
}

proof fn lemma_response_round_trip(x: Response, s: Seq<bool>, pos: int)
    requires
        wf_response(x),
        at(s, pos, enc_response(x)),
    ensures
        parse_response(s, pos) == Ok::<(Response, int), NodeSerializeError>(
            (x, pos + enc_response(x).len()),
        ),
{
    lemma_mask_concrete();
    let p1 = bits_of(response_code(x), 4);
    match x {
        Response::Okay => {
            crate::bity::lemma_at_concat(s, pos, p1, Seq::<bool>::empty());
            lemma_parse_bits_small(s, pos, response_code(x), 4);
        },
        Response::Info(n) => {
            crate::bity::lemma_at_concat(s, pos, p1, enc_node_info(n));
            lemma_parse_bits_small(s, pos, response_code(x), 4);
            lemma_node_info_round_trip(n, s, pos + 4);
        },
        Response::Limbs(ls) => {
            crate::bity::lemma_at_concat(s, pos, p1, enc_limbs(ls));
            lemma_parse_bits_small(s, pos, response_code(x), 4);
            lemma_limbs_round_trip(ls, s, pos + 4);
        },
        Response::Heartbeat(t) => {
            crate::bity::lemma_at_concat(s, pos, p1, bits_of(t, 32));
            lemma_parse_bits_small(s, pos, response_code(x), 4);
            lemma_parse_bits_small(s, pos + 4, t, 32);
        },
        Response::ErrLimbNotFound => {
            crate::bity::lemma_at_concat(s, pos, p1, Seq::<bool>::empty());
            lemma_parse_bits_small(s, pos, response_code(x), 4);
        },
        Response::ErrLimbTypeDoesntMatch => {
            crate::bity::lemma_at_concat(s, pos, p1, Seq::<bool>::empty());
            lemma_parse_bits_small(s, pos, response_code(x), 4);
        },
    }
}

#[verifier::rlimit(60)]
proof fn lemma_msg_data_round_trip(x: MessageData, s: Seq<bool>, pos: int)
    requires
        wf_msg_data(x),
        at(s, pos, enc_msg_data(x)),
    ensures
        parse_msg_data(s, pos) == Ok::<(MessageData, int), NodeSerializeError>(
            (x, pos + enc_msg_data(x).len()),
        ),
{
    lemma_mask_concrete();
    match x {
        MessageData::Command { id, command } => {
            let p1 = bits_of(1, 1);
            let p2 = bits_of(id as u32, 6);
            crate::bity::lemma_at_concat(s, pos, p1 + p2, enc_command(command));
            crate::bity::lemma_at_concat(s, pos, p1, p2);
            lemma_parse_bits_small(s, pos, 1, 1);
            lemma_parse_bits_small(s, pos + 1, id as u32, 6);
            lemma_command_round_trip(command, s, pos + 7);
        },
        MessageData::Response { id, response } => {
            let p1 = bits_of(0, 1);
            let idv: u32 = match id {
                Some(i) => i as u32,
                None => 0,
            };
            let p2 = bits_of(idv, 6);
            crate::bity::lemma_at_concat(s, pos, p1 + p2, enc_response(response));
            crate::bity::lemma_at_concat(s, pos, p1, p2);
            lemma_parse_bits_small(s, pos, 0, 1);
            lemma_parse_bits_small(s, pos + 1, idv, 6);
            lemma_response_round_trip(response, s, pos + 7);
        },
    }
}

proof fn lemma_bytes20_round_trip(msg: [u8; 20], s: Seq<bool>, pos: int)
    requires
        at(s, pos, enc_bytes(msg@)),
    ensures
        parse_bytes20(s, pos) == Ok::<([u8; 20], int), NodeSerializeError>((msg, pos + 160)),
{
    lemma_mask_concrete();
    assert forall|k: int| 0 <= k < 20 implies #[trigger] byte_k(s, pos, k) == msg@[k] by {
        lemma_stream_byte(msg@, k);
        assert forall|j: int| 0 <= j < 8 implies s[pos + 8 * k + j] == #[trigger] bits_of(
            msg@[k] as u32,
            8,
        )[j] by {
            assert(s[pos + (8 * k + j)] == enc_bytes(msg@)[8 * k + j]);
        }
        lemma_parse_bits_small(s, pos + 8 * k, msg@[k] as u32, 8);
        assert(read_val(s, pos + 8 * k, 8) == msg@[k] as u32);
    }
    match parse_bytes20(s, pos) {
        Ok((m, _)) => {
            assert(m =~= msg);
        },
        Err(_) => {
            assert(false);
        },
    }
}

/// **Round-trip law.**  A message whose identifiers lie in their declared
/// ranges parses back, field for field, from its own encoding, whatever
/// stands after it in the stream, and consumes exactly the bits the encoder
/// produced.
pub proof fn lemma_message_round_trip(m: Message, s: Seq<bool>)
    requires
        wf_message(m),
        at(s, 0, enc_message(m)),
    ensures
        parse_message(s) == Ok::<(Message, int), NodeSerializeError>(
            (m, enc_message(m).len() as int),
        ),
{
    lemma_mask_concrete();
    let pv = bits_of(MESSAGE_VERSION as u32, 2);
    let pc = bits_of(message_code(m), 4);
    let rest = match m {
        Message::Message(d) => enc_msg_data(d),
        Message::RelayMessage(node_id, d) => bits_of(node_id, 32) + enc_msg_data(d),
        Message::SearchingNetwork(node_id) => bits_of(node_id, 32),
        Message::Network(node_id, addr) => bits_of(node_id, 32) + bits_of(addr as u32, 16),
        Message::DebugMessage(node_id, msg) => bits_of(node_id, 32) + enc_bytes(msg@),
    };
    crate::bity::lemma_at_concat(s, 0, pv + pc, rest);
    crate::bity::lemma_at_concat(s, 0, pv, pc);
    lemma_parse_bits_small(s, 0, MESSAGE_VERSION as u32, 2);
    lemma_parse_bits_small(s, 2, message_code(m), 4);
    match m {
        Message::Message(d) => {
            lemma_msg_data_round_trip(d, s, 6);
        },
        Message::RelayMessage(node_id, d) => {
            crate::bity::lemma_at_concat(s, 6, bits_of(node_id, 32), enc_msg_data(d));
            lemma_parse_bits_small(s, 6, node_id, 32);
            lemma_msg_data_round_trip(d, s, 38);
        },
        Message::SearchingNetwork(node_id) => {
            lemma_parse_bits_small(s, 6, node_id, 32);
        },
        Message::Network(node_id, addr) => {
            crate::bity::lemma_at_concat(s, 6, bits_of(node_id, 32), bits_of(addr as u32, 16));
            lemma_parse_bits_small(s, 6, node_id, 32);
            lemma_parse_bits_small(s, 38, addr as u32, 16);
        },
        Message::DebugMessage(node_id, msg) => {
            crate::bity::lemma_at_concat(s, 6, bits_of(node_id, 32), enc_bytes(msg@));
            lemma_parse_bits_small(s, 6, node_id, 32);
            lemma_bytes20_round_trip(msg, s, 38);
        },
    }
}

/// **Version gate.**  A stream whose first two bits differ from the
/// protocol version fails to parse with the version-mismatch error,
/// whatever the rest of its content.
pub proof fn lemma_version_gate(s: Seq<bool>)
    requires
        s.len() >= 2,
        read_val(s, 0, 2) != MESSAGE_VERSION as u32,
    ensures
        parse_message(s) == Err::<(Message, int), NodeSerializeError>(
            NodeSerializeError::InvalidMessageVersion,
        ),
{
}


// ---------------------------------------------------------------------------
// Decoded values are well-formed: every identifier the parser yields came
// out of its own bit field, so it lies in the declared range.
// ---------------------------------------------------------------------------
proof fn lemma_parse_u_bound(s: Seq<bool>, pos: int, w: u32)
    requires
        w <= 32,
    ensures
        match parse_u(s, pos, w) {
            Ok((v, _)) => v <= mask(w),
            Err(_) => true,
        },
{
    crate::bity::lemma_read_val_bound(s, pos, w);
}

proof fn lemma_parse_limb_wf(s: Seq<bool>, pos: int)
    ensures
        match parse_limb(s, pos) {
            Ok((l, _)) => wf_limb(l),
            Err(_) => true,
        },
{
    lemma_mask_concrete();
    lemma_parse_u_bound(s, pos, 4);
}

proof fn lemma_parse_slot_wf(s: Seq<bool>, pos: int)
    ensures
        match parse_slot(s, pos) {
            Ok((o, _)) => wf_slot(o),
            Err(_) => true,
        },
{
    match parse_u(s, pos, 1) {
        Ok((has, p)) => {
            if has == 1 {
                lemma_parse_limb_wf(s, p);
            }
        },
        Err(_) => {},
    }
}

proof fn lemma_parse_command_wf(s: Seq<bool>, pos: int)
    ensures
        match parse_command(s, pos) {
            Ok((c, _)) => wf_command(c),
            Err(_) => true,
        },
{
    lemma_mask_concrete();
    match parse_u(s, pos, 4) {
        Ok((code, p)) => {
            if code == 2 {
                lemma_parse_limb_wf(s, p);
            } else if code == 3 {
                lemma_parse_u_bound(s, p, 4);
            }
        },
        Err(_) => {},
    }
}

proof fn lemma_parse_response_wf(s: Seq<bool>, pos: int)
    ensures
        match parse_response(s, pos) {
            Ok((r, _)) => wf_response(r),
            Err(_) => true,
        },
{
    match parse_u(s, pos, 4) {
        Ok((code, p)) => {
            if code == 2 {
                match parse_slot(s, p) {
                    Ok((s0, p0)) => {
                        lemma_parse_slot_wf(s, p);
                        match parse_slot(s, p0) {
                            Ok((s1, p1)) => {
                                lemma_parse_slot_wf(s, p0);
                                lemma_parse_slot_wf(s, p1);
                            },
                            Err(_) => {},
                        }
                    },
                    Err(_) => {},
                }
            }
        },
        Err(_) => {},
    }
}

proof fn lemma_parse_msg_data_wf(s: Seq<bool>, pos: int)
    ensures
        match parse_msg_data(s, pos) {
            Ok((d, _)) => wf_msg_data(d),
            Err(_) => true,
        },
{
    lemma_mask_concrete();
    match parse_u(s, pos, 1) {
        Ok((is_command, p)) => match parse_u(s, p, 6) {
            Ok((id, p2)) => {
                lemma_parse_u_bound(s, p, 6);
                if is_command == 1 {
                    lemma_parse_command_wf(s, p2);
                } else {
                    lemma_parse_response_wf(s, p2);
                }
            },
            Err(_) => {},
        },
        Err(_) => {},
    }
}

/// Every message the parser yields is well-formed: each identifier came out
/// of its own bit field and so lies in its declared range.  With
/// [`lemma_message_round_trip`] this means a decoded message re-encodes to
/// exactly the bits it was decoded from.
pub proof fn lemma_parse_message_wf(s: Seq<bool>)
    ensures
        match parse_message(s) {
            Ok((m, _)) => wf_message(m),
            Err(_) => true,
        },
{
    match parse_u(s, 0, 2) {
        Ok((version, p)) => {
            if version == MESSAGE_VERSION as u32 {
                match parse_u(s, p, 4) {
                    Ok((code, p2)) => {
                        if code == 0 {
                            lemma_parse_msg_data_wf(s, p2);
                        } else if code == 1 {
                            match parse_u(s, p2, 32) {
                                Ok((_, p3)) => lemma_parse_msg_data_wf(s, p3),
                                Err(_) => {},
                            }
                        }
                    },
                    Err(_) => {},
                }
            }
        },
        Err(_) => {},
    }
}

} // verus!
