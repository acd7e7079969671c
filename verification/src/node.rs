//! The message model and its bit-level codec.
//!
//! Every type serializes itself onto a shared [`BitWriter`] and deserializes
//! from a shared [`BitReader`], composing depth-first: a variant code first,
//! then the variant's fields in declaration order.  The contracts tie each
//! step to the specification encoder and parser in [`crate::wire`];
//! [`Message::serialize_to_bytes`] and [`Message::deserialize_from_bytes`]
//! are the two entry points for whole messages.
//!
//! Encoding is total: a field value wider than its bit field is masked to
//! the field's width, on every build.  Within the ranges the model declares
//! (limb ids below 16, command ids below 64) no masking happens and decoding
//! is the exact inverse, which [`crate::wire::lemma_message_round_trip`]
//! proves.

use vstd::prelude::*;

use crate::bity::{bits_of, mask, stream, BitReader, BitWriter};
use crate::discriminant::Discriminant;
use crate::wire::{
    actuator_code, board_code, byte_k, command_code, enc_actuator, enc_board, enc_bytes,
    enc_command, enc_limb, enc_limb_type, enc_message, enc_msg_data, enc_node_info, enc_response,
    enc_sensor, enc_slot, lemma_stream_byte, lemma_wrote_err_extend, lemma_wrote_seq, message_code,
    parse_actuator, parse_bytes20, parse_command, parse_limb, parse_limb_type, parse_message,
    parse_msg_data, parse_node_info, parse_response, parse_sensor, parse_slot, parse_u, parsed,
    response_code, sensor_code, wrote,
};

verus! {

/// Command ids are carried in 6 bits, so they range from 0 below this bound.
pub const COMMAND_ID_MAX: u8 = 64;

/// A node hosts at most this many limbs.
pub const LIMBS_MAX: usize = 3;

/// Serialized messages carry this 2-bit protocol version; decoding a buffer
/// with any other version fails.
pub const MESSAGE_VERSION: u8 = 1;

pub type NodeId = u32;

pub type NodeAddress = u16;

/// Limb ids are carried in 4 bits, so they range from 0 to 15.
pub type LimbId = u8;

/// The fixed limb slot array of a node; identity is positional.
pub type Limbs = [Option<Limb>; 3];

/// A decode or encode failure: a bit-level buffer error, an unknown variant
/// code, or a protocol version this implementation does not speak.
#[derive(Clone, Copy, Debug, PartialEq, Eq, Structural)]
pub enum NodeSerializeError {
    BitError(crate::bity::Error),
    InvalidBoardCode,
    InvalidSensorCode,
    InvalidActuatorCode,
    InvalidCommandCode,
    InvalidResponseCode,
    InvalidMessageCode,
    InvalidMessageVersion,
}

/// Room left above the codec's own ids for variants added later.
pub const ERROR_MAX: u8 = 20;

pub type NodeBitsResult<T> = Result<T, NodeSerializeError>;

impl Discriminant for NodeSerializeError {
    open spec fn disc_spec(&self) -> int {
        match self {
            NodeSerializeError::BitError(e) => e.disc_spec(),
            NodeSerializeError::InvalidBoardCode => 3,
            NodeSerializeError::InvalidSensorCode => 4,
            NodeSerializeError::InvalidActuatorCode => 5,
            NodeSerializeError::InvalidCommandCode => 6,
            NodeSerializeError::InvalidResponseCode => 7,
            NodeSerializeError::InvalidMessageCode => 8,
            NodeSerializeError::InvalidMessageVersion => 9,
        }
    }

    open spec fn disc_max_spec() -> int {
        ERROR_MAX as int
    }

    proof fn lemma_disc_in_range(&self) {
        match self {
            NodeSerializeError::BitError(e) => e.lemma_disc_in_range(),
            _ => {},
        }
    }

    proof fn lemma_disc_max_nonneg() {
    }

    fn discriminant(&self) -> (r: u8) {
        match self {
            NodeSerializeError::BitError(e) => e.discriminant(),
            NodeSerializeError::InvalidBoardCode => 3,
            NodeSerializeError::InvalidSensorCode => 4,
            NodeSerializeError::InvalidActuatorCode => 5,
            NodeSerializeError::InvalidCommandCode => 6,
            NodeSerializeError::InvalidResponseCode => 7,
            NodeSerializeError::InvalidMessageCode => 8,
            NodeSerializeError::InvalidMessageVersion => 9,
        }
    }

    fn discriminant_max() -> (r: u8) {
        ERROR_MAX
    }
}

/// Writes the low `bits` bits of `value`, reporting a failure as a codec
/// error.
fn wb(writer: &mut BitWriter, value: u32, bits: u8) -> (r: NodeBitsResult<()>)
    requires
        old(writer).wf(),
        bits <= 32,
    ensures
        wrote(*old(writer), *final(writer), bits_of(value, bits as u32), r),
{
    match writer.write_bits(value, bits) {
        Ok(()) => Ok(()),
        Err(e) => Err(NodeSerializeError::BitError(e)),
    }
}

/// Reads `bits` bits, reporting a failure as a codec error.
fn rb(reader: &mut BitReader, bits: u8) -> (r: NodeBitsResult<u32>)
    requires
        old(reader).wf(),
        bits <= 32,
    ensures
        parsed(
            *old(reader),
            *final(reader),
            parse_u(stream(old(reader).bytes()), old(reader).cursor(), bits as u32),
            r,
        ),
        r matches Ok(v) ==> v <= mask(bits as u32),
{
    match reader.read_bits(bits) {
        Ok(v) => Ok(v),
        Err(e) => Err(NodeSerializeError::BitError(e)),
    }
}

/// Identifies a hardware revision; carried inside [`NodeInfo`].
#[derive(Clone, Debug, PartialEq, Eq)]
pub enum Board {
    /// All samn boards up to and including revision 8.
    SamnV8,
    SamnV9,
    SamnDC,
    SamnSwitch,
}

impl Board {
    /// The board a 2-bit wire code names.
    fn code(code: u8) -> (r: NodeBitsResult<Board>)
        ensures
            r == crate::wire::board_of_code(code as u32),
    {
        match code {
            0 => Ok(Board::SamnV8),
            1 => Ok(Board::SamnV9),
            2 => Ok(Board::SamnDC),
            3 => Ok(Board::SamnSwitch),
            _ => Err(NodeSerializeError::InvalidBoardCode),
        }
    }
}

/// What a node reports about itself.
#[derive(Clone, Debug, PartialEq, Eq)]
pub struct NodeInfo {
    pub board: Board,
    /// Heartbeat interval in seconds.
    pub heartbeat_interval: u16,
}

impl NodeInfo {
    fn code(&self) -> (r: u8)
        ensures
            r as u32 == board_code(self.board),
    {
        match self.board {
            Board::SamnV8 => 0,
            Board::SamnV9 => 1,
            Board::SamnDC => 2,
            Board::SamnSwitch => 3,
        }
    }

    fn serialize_to_bits(&self, writer: &mut BitWriter) -> (r: NodeBitsResult<()>)
        requires
            old(writer).wf(),
        ensures
            wrote(*old(writer), *final(writer), enc_node_info(*self), r),
    {
        let ghost w0 = *old(writer);
        let ghost full = enc_node_info(*self);
        let ghost p1 = enc_board(self.board);
        let code = self.code();
        let r1 = wb(writer, code as u32, 2);
        if let Err(e) = r1 {
            proof {
                lemma_wrote_err_extend(w0, *writer, p1, full, e);
            }
            return Err(e);
        }
        let ghost w1 = *writer;
        let r2 = wb(writer, self.heartbeat_interval as u32, 16);
        proof {
            lemma_wrote_seq(w0, w1, *writer, p1, bits_of(self.heartbeat_interval as u32, 16), r2);
        }
        r2
    }

    fn deserialize_from_bits(reader: &mut BitReader) -> (r: NodeBitsResult<Self>)
        requires
            old(reader).wf(),
        ensures
            parsed(
                *old(reader),
                *final(reader),
                parse_node_info(stream(old(reader).bytes()), old(reader).cursor()),
                r,
            ),
    {
        let code = match rb(reader, 2) {
            Ok(v) => v,
            Err(e) => {
                return Err(e);
            },
        };
        proof {
            assert(mask(2) == 3) by (bit_vector);
        }
        let board = match Board::code(code as u8) {
            Ok(b) => b,
            Err(e) => {
                return Err(e);
            },
        };
        let heartbeat_interval = match rb(reader, 16) {
            Ok(v) => v,
            Err(e) => {
                return Err(e);
            },
        };
        Ok(NodeInfo { board, heartbeat_interval: heartbeat_interval as u16 })
    }
}

/// A sensor reading.
#[derive(Debug)]
pub enum Sensor {
    /// Battery level as a percentage, 0 to 100.
    Battery(u8),
    /// Temperature in centi-degrees Celsius and humidity as a percentage.
    TempHum((i16, u8)),
    /// Current in milliamps.
    Current(u16),
}

impl Clone for Sensor {
    fn clone(&self) -> (r: Self)
        ensures
            r == *self,
    {
        match self {
            Sensor::Battery(level) => Sensor::Battery(*level),
            Sensor::TempHum((temp, hum)) => Sensor::TempHum((*temp, *hum)),
            Sensor::Current(current) => Sensor::Current(*current),
        }
    }
}

impl PartialEq for Sensor {
    fn eq(&self, other: &Sensor) -> (r: bool) {
        match (self, other) {
            (Sensor::Battery(a), Sensor::Battery(b)) => a == b,
            (Sensor::TempHum((t1, h1)), Sensor::TempHum((t2, h2))) => t1 == t2 && h1 == h2,
            (Sensor::Current(a), Sensor::Current(b)) => a == b,
            _ => false,
        }
    }
}

impl vstd::std_specs::cmp::PartialEqSpecImpl for Sensor {
    open spec fn obeys_eq_spec() -> bool {
        true
    }

    open spec fn eq_spec(&self, other: &Sensor) -> bool {
        *self == *other
    }
}

impl Eq for Sensor {

}

impl Sensor {
    fn code(&self) -> (r: u8)
        ensures
            r as u32 == sensor_code(*self),
    {
        match self {
            Sensor::Battery(_) => 0,
            Sensor::TempHum(_) => 1,
            Sensor::Current(_) => 2,
        }
    }

    fn serialize_to_bits(&self, writer: &mut BitWriter) -> (r: NodeBitsResult<()>)
        requires
            old(writer).wf(),
        ensures
            wrote(*old(writer), *final(writer), enc_sensor(*self), r),
    {
        let ghost w0 = *old(writer);
        let ghost full = enc_sensor(*self);
        let ghost p1 = bits_of(sensor_code(*self), 4);
        let code = self.code();
        let r1 = wb(writer, code as u32, 4);
        if let Err(e) = r1 {
            proof {
                lemma_wrote_err_extend(w0, *writer, p1, full, e);
            }
            return Err(e);
        }
        let ghost w1 = *writer;
        match self {
            Sensor::Battery(level) => {
                let r2 = wb(writer, *level as u32, 8);
                proof {
                    lemma_wrote_seq(w0, w1, *writer, p1, bits_of(*level as u32, 8), r2);
                }
                r2
            },
            Sensor::TempHum((temp, hum)) => {
                let temp_bits: u32 = (*temp as u16) as u32;
                let ghost p2 = bits_of(temp_bits, 16);
                let r2 = wb(writer, temp_bits, 16);
                if let Err(e) = r2 {
                    proof {
                        lemma_wrote_seq(w0, w1, *writer, p1, p2, r2);
                        lemma_wrote_err_extend(w0, *writer, p1 + p2, full, e);
                    }
                    return Err(e);
                }
                let ghost w2 = *writer;
                let ghost p3 = bits_of(*hum as u32, 8);
                let r3 = wb(writer, *hum as u32, 8);
                proof {
                    lemma_wrote_seq(w1, w2, *writer, p2, p3, r3);
                    lemma_wrote_seq(w0, w1, *writer, p1, p2 + p3, r3);
                }
                r3
            },
            Sensor::Current(current) => {
                let r2 = wb(writer, *current as u32, 16);
                proof {
                    lemma_wrote_seq(w0, w1, *writer, p1, bits_of(*current as u32, 16), r2);
                }
                r2
            },
        }
    }

    fn deserialize_from_bits(reader: &mut BitReader) -> (r: NodeBitsResult<Self>)
        requires
            old(reader).wf(),
        ensures
            parsed(
                *old(reader),
                *final(reader),
                parse_sensor(stream(old(reader).bytes()), old(reader).cursor()),
                r,
            ),
    {
        let code = match rb(reader, 4) {
            Ok(v) => v,
            Err(e) => {
                return Err(e);
            },
        };
        match code {
            0 => {
                let level = match rb(reader, 8) {
                    Ok(v) => v,
                    Err(e) => {
                        return Err(e);
                    },
                };
                Ok(Sensor::Battery(level as u8))
            },
            1 => {
                let temp = match rb(reader, 16) {
                    Ok(v) => v,
                    Err(e) => {
                        return Err(e);
                    },
                };
                let hum = match rb(reader, 8) {
                    Ok(v) => v,
                    Err(e) => {
                        return Err(e);
                    },
                };
                Ok(Sensor::TempHum((temp as i16, hum as u8)))
            },
            2 => {
                let current = match rb(reader, 16) {
                    Ok(v) => v,
                    Err(e) => {
                        return Err(e);
                    },
                };
                Ok(Sensor::Current(current as u16))
            },
            _ => Err(NodeSerializeError::InvalidSensorCode),
        }
    }
}

/// An actuator state.
#[derive(Clone, Debug, PartialEq, Eq)]
pub enum Actuator {
    /// An on/off light.
    Light(bool),
}

impl Actuator {
    fn code(&self) -> (r: u8)
        ensures
            r as u32 == actuator_code(*self),
    {
        match self {
            Actuator::Light(_) => 0,
        }
    }

    fn serialize_to_bits(&self, writer: &mut BitWriter) -> (r: NodeBitsResult<()>)
        requires
            old(writer).wf(),
        ensures
            wrote(*old(writer), *final(writer), enc_actuator(*self), r),
    {
        let ghost w0 = *old(writer);
        let ghost full = enc_actuator(*self);
        let ghost p1 = bits_of(actuator_code(*self), 4);
        let code = self.code();
        let r1 = wb(writer, code as u32, 4);
        if let Err(e) = r1 {
            proof {
                lemma_wrote_err_extend(w0, *writer, p1, full, e);
            }
            return Err(e);
        }
        let ghost w1 = *writer;
        match self {
            Actuator::Light(on) => {
                let bit: u32 = if *on {
                    1
                } else {
                    0
                };
                let r2 = wb(writer, bit, 1);
                proof {
                    lemma_wrote_seq(w0, w1, *writer, p1, bits_of(bit, 1), r2);
                }
                r2
            },
        }
    }

    fn deserialize_from_bits(reader: &mut BitReader) -> (r: NodeBitsResult<Self>)
        requires
            old(reader).wf(),
        ensures
            parsed(
                *old(reader),
                *final(reader),
                parse_actuator(stream(old(reader).bytes()), old(reader).cursor()),
                r,
            ),
    {
        let code = match rb(reader, 4) {
            Ok(v) => v,
            Err(e) => {
                return Err(e);
            },
        };
        match code {
            0 => {
                let on = match rb(reader, 1) {
                    Ok(v) => v,
                    Err(e) => {
                        return Err(e);
                    },
                };
                Ok(Actuator::Light(on == 1))
            },
            _ => Err(NodeSerializeError::InvalidActuatorCode),
        }
    }
}

/// What a limb is: a sensor with a reporting interval and an optional last
/// reading, or an actuator.
#[derive(Clone, Debug, PartialEq, Eq)]
pub enum LimbType {
    Sensor {
        /// The reporting interval in seconds.
        report_interval: u16,
        data: Option<Sensor>,
    },
    Actuator(Actuator),
}

impl LimbType {
    fn serialize_to_bits(&self, writer: &mut BitWriter) -> (r: NodeBitsResult<()>)
        requires
            old(writer).wf(),
        ensures
            wrote(*old(writer), *final(writer), enc_limb_type(*self), r),
    {
        let ghost w0 = *old(writer);
        let ghost full = enc_limb_type(*self);
        match self {
            LimbType::Sensor { report_interval, data } => {
                let ghost p1 = bits_of(1, 1);
                let r1 = wb(writer, 1, 1);
                if let Err(e) = r1 {
                    proof {
                        lemma_wrote_err_extend(w0, *writer, p1, full, e);
                    }
                    return Err(e);
                }
                let ghost w1 = *writer;
                let ghost p2 = bits_of(*report_interval as u32, 16);
                let r2 = wb(writer, *report_interval as u32, 16);
                if let Err(e) = r2 {
                    proof {
                        lemma_wrote_seq(w0, w1, *writer, p1, p2, r2);
                        lemma_wrote_err_extend(w0, *writer, p1 + p2, full, e);
                    }
                    return Err(e);
                }
                let ghost w2 = *writer;
                match data {
                    Some(sensor) => {
                        let ghost p3 = bits_of(1, 1);
                        let r3 = wb(writer, 1, 1);
                        if let Err(e) = r3 {
                            proof {
                                lemma_wrote_seq(w1, w2, *writer, p2, p3, r3);
                                lemma_wrote_seq(w0, w1, *writer, p1, p2 + p3, r3);
                                lemma_wrote_err_extend(w0, *writer, p1 + (p2 + p3), full, e);
                            }
                            return Err(e);
                        }
                        let ghost w3 = *writer;
                        let ghost p4 = enc_sensor(*sensor);
                        let r4 = sensor.serialize_to_bits(writer);
                        proof {
                            lemma_wrote_seq(w2, w3, *writer, p3, p4, r4);
                            lemma_wrote_seq(w1, w2, *writer, p2, p3 + p4, r4);
                            lemma_wrote_seq(w0, w1, *writer, p1, p2 + (p3 + p4), r4);
                            assert(p1 + (p2 + (p3 + p4)) =~= (p1 + p2) + (p3 + p4));
                        }
                        r4
                    },
                    None => {
                        let ghost p3 = bits_of(0, 1);
                        let r3 = wb(writer, 0, 1);
                        proof {
                            lemma_wrote_seq(w1, w2, *writer, p2, p3, r3);
                            lemma_wrote_seq(w0, w1, *writer, p1, p2 + p3, r3);
                            assert(p1 + (p2 + p3) =~= (p1 + p2) + p3);
                        }
                        r3
                    },
                }
            },
            LimbType::Actuator(actuator) => {
                let ghost p1 = bits_of(0, 1);
                let r1 = wb(writer, 0, 1);
                if let Err(e) = r1 {
                    proof {
                        lemma_wrote_err_extend(w0, *writer, p1, full, e);
                    }
                    return Err(e);
                }
                let ghost w1 = *writer;
                let ghost p2 = enc_actuator(*actuator);
                let r2 = actuator.serialize_to_bits(writer);
                proof {
                    lemma_wrote_seq(w0, w1, *writer, p1, p2, r2);
                }
                r2
            },
        }
    }

    fn deserialize_from_bits(reader: &mut BitReader) -> (r: NodeBitsResult<Self>)
        requires
            old(reader).wf(),
        ensures
            parsed(
                *old(reader),
                *final(reader),
                parse_limb_type(stream(old(reader).bytes()), old(reader).cursor()),
                r,
            ),
    {
        let is_sensor = match rb(reader, 1) {
            Ok(v) => v,
            Err(e) => {
                return Err(e);
            },
        };
        if is_sensor == 1 {
            let report_interval = match rb(reader, 16) {
                Ok(v) => v,
                Err(e) => {
                    return Err(e);
                },
            };
            let has_data = match rb(reader, 1) {
                Ok(v) => v,
                Err(e) => {
                    return Err(e);
                },
            };
            let data = if has_data == 1 {
                match Sensor::deserialize_from_bits(reader) {
                    Ok(s) => Some(s),
                    Err(e) => {
                        return Err(e);
                    },
                }
            } else {
                None
            };
            Ok(LimbType::Sensor { report_interval: report_interval as u16, data })
        } else {
            let actuator = match Actuator::deserialize_from_bits(reader) {
                Ok(a) => a,
                Err(e) => {
                    return Err(e);
                },
            };
            Ok(LimbType::Actuator(actuator))
        }
    }
}

/// One sensor or actuator endpoint of a node: its 4-bit id and its type.
#[derive(Clone, Debug, PartialEq, Eq)]
pub struct Limb(pub LimbId, pub LimbType);

impl Limb {
    fn serialize_to_bits(&self, writer: &mut BitWriter) -> (r: NodeBitsResult<()>)
        requires
            old(writer).wf(),
        ensures
            wrote(*old(writer), *final(writer), enc_limb(*self), r),
    {
        let ghost w0 = *old(writer);
        let ghost full = enc_limb(*self);
        let ghost p1 = bits_of(self.0 as u32, 4);
        let r1 = wb(writer, self.0 as u32, 4);
        if let Err(e) = r1 {
            proof {
                lemma_wrote_err_extend(w0, *writer, p1, full, e);
            }
            return Err(e);
        }
        let ghost w1 = *writer;
        let ghost p2 = enc_limb_type(self.1);
        let r2 = self.1.serialize_to_bits(writer);
        proof {
            lemma_wrote_seq(w0, w1, *writer, p1, p2, r2);
        }
        r2
    }

    fn deserialize_from_bits(reader: &mut BitReader) -> (r: NodeBitsResult<Self>)
        requires
            old(reader).wf(),
        ensures
            parsed(
                *old(reader),
                *final(reader),
                parse_limb(stream(old(reader).bytes()), old(reader).cursor()),
                r,
            ),
    {
        let limb_id = match rb(reader, 4) {
            Ok(v) => v,
            Err(e) => {
                return Err(e);
            },
        };
        let limb_type = match LimbType::deserialize_from_bits(reader) {
            Ok(lt) => lt,
            Err(e) => {
                return Err(e);
            },
        };
        Ok(Limb(limb_id as u8, limb_type))
    }
}

/// Writes one limb slot: a presence bit, then the limb if present.
fn serialize_slot(slot: &Option<Limb>, writer: &mut BitWriter) -> (r: NodeBitsResult<()>)
    requires
        old(writer).wf(),
    ensures
        wrote(*old(writer), *final(writer), enc_slot(*slot), r),
{
    let ghost w0 = *old(writer);
    let ghost full = enc_slot(*slot);
    match slot {
        Some(limb) => {
            let ghost p1 = bits_of(1, 1);
            let r1 = wb(writer, 1, 1);
            if let Err(e) = r1 {
                proof {
                    lemma_wrote_err_extend(w0, *writer, p1, full, e);
                }
                return Err(e);
            }
            let ghost w1 = *writer;
            let ghost p2 = enc_limb(*limb);
            let r2 = limb.serialize_to_bits(writer);
            proof {
                lemma_wrote_seq(w0, w1, *writer, p1, p2, r2);
            }
            r2
        },
        None => wb(writer, 0, 1),
    }
}

/// Reads one limb slot: a presence bit, then the limb if present.
fn deserialize_slot(reader: &mut BitReader) -> (r: NodeBitsResult<Option<Limb>>)
    requires
        old(reader).wf(),
    ensures
        parsed(
            *old(reader),
            *final(reader),
            parse_slot(stream(old(reader).bytes()), old(reader).cursor()),
            r,
        ),
{
    let has_limb = match rb(reader, 1) {
        Ok(v) => v,
        Err(e) => {
            return Err(e);
        },
    };
    if has_limb == 1 {
        match Limb::deserialize_from_bits(reader) {
            Ok(l) => Ok(Some(l)),
            Err(e) => Err(e),
        }
    } else {
        Ok(None)
    }
}

/// A request sent to a node.
#[derive(Clone, Debug, PartialEq, Eq)]
pub enum Command {
    /// Asks for the node's [`NodeInfo`].
    Info,
    /// Asks for the node's limb states.
    Limbs,
    /// Replaces a limb.
    SetLimb(Limb),
    /// Toggles a limb.
    ToggleLimb(LimbId),
    /// Replaces a limb's type.
    SetLimbType(LimbType),
}

impl Command {
    fn code(&self) -> (r: u8)
        ensures
            r as u32 == command_code(*self),
    {
        match self {
            Command::Info => 0,
            Command::Limbs => 1,
            Command::SetLimb(_) => 2,
            Command::ToggleLimb(_) => 3,
            Command::SetLimbType(_) => 4,
        }
    }

    fn serialize_to_bits(&self, writer: &mut BitWriter) -> (r: NodeBitsResult<()>)
        requires
            old(writer).wf(),
        ensures
            wrote(*old(writer), *final(writer), enc_command(*self), r),
    {
        let ghost w0 = *old(writer);
        let ghost full = enc_command(*self);
        let ghost p1 = bits_of(command_code(*self), 4);
        let code = self.code();
        let r1 = wb(writer, code as u32, 4);
        if let Err(e) = r1 {
            proof {
                lemma_wrote_err_extend(w0, *writer, p1, full, e);
            }
            return Err(e);
        }
        let ghost w1 = *writer;
        match self {
            Command::Info => {
                proof {
                    assert(full =~= p1 + Seq::<bool>::empty());
                }
                Ok(())
            },
            Command::Limbs => {
                proof {
                    assert(full =~= p1 + Seq::<bool>::empty());
                }
                Ok(())
            },
            Command::SetLimb(limb) => {
                let ghost p2 = enc_limb(*limb);
                let r2 = limb.serialize_to_bits(writer);
                proof {
                    lemma_wrote_seq(w0, w1, *writer, p1, p2, r2);
                }
                r2
            },
            Command::ToggleLimb(limb_id) => {
                let ghost p2 = bits_of(*limb_id as u32, 4);
                let r2 = wb(writer, *limb_id as u32, 4);
                proof {
                    lemma_wrote_seq(w0, w1, *writer, p1, p2, r2);
                }
                r2
            },
            Command::SetLimbType(limb_type) => {
                let ghost p2 = enc_limb_type(*limb_type);
                let r2 = limb_type.serialize_to_bits(writer);
                proof {
                    lemma_wrote_seq(w0, w1, *writer, p1, p2, r2);
                }
                r2
            },
        }
    }

    fn deserialize_from_bits(reader: &mut BitReader) -> (r: NodeBitsResult<Self>)
        requires
            old(reader).wf(),
        ensures
            parsed(
                *old(reader),
                *final(reader),
                parse_command(stream(old(reader).bytes()), old(reader).cursor()),
                r,
            ),
    {
        let code = match rb(reader, 4) {
            Ok(v) => v,
            Err(e) => {
                return Err(e);
            },
        };
        match code {
            0 => Ok(Command::Info),
            1 => Ok(Command::Limbs),
            2 => {
                match Limb::deserialize_from_bits(reader) {
                    Ok(l) => Ok(Command::SetLimb(l)),
                    Err(e) => Err(e),
                }
            },
            3 => {
                let limb_id = match rb(reader, 4) {
                    Ok(v) => v,
                    Err(e) => {
                        return Err(e);
                    },
                };
                Ok(Command::ToggleLimb(limb_id as u8))
            },
            4 => {
                match LimbType::deserialize_from_bits(reader) {
                    Ok(lt) => Ok(Command::SetLimbType(lt)),
                    Err(e) => Err(e),
                }
            },
            _ => Err(NodeSerializeError::InvalidCommandCode),
        }
    }
}

/// A node's answer to a command.
#[derive(Clone, Debug, PartialEq, Eq)]
pub enum Response {
    /// A plain acknowledgment.
    Okay,
    Info(NodeInfo),
    Limbs(Limbs),
    Heartbeat(u32),
    /// The command named a limb the node does not have.  On the wire this
    /// travels as code 8: the low four bits of its logical id 200.
    ErrLimbNotFound,
    /// The command's limb type does not match the limb's.  On the wire this
    /// travels as code 9: the low four bits of its logical id 201.
    ErrLimbTypeDoesntMatch,
}

impl Response {
    fn code(&self) -> (r: u8)
        ensures
            r as u32 == response_code(*self),
    {
        match self {
            Response::Okay => 0,
            Response::Info(_) => 1,
            Response::Limbs(_) => 2,
            Response::Heartbeat(_) => 3,
            Response::ErrLimbNotFound => 8,
            Response::ErrLimbTypeDoesntMatch => 9,
        }
    }

    fn serialize_to_bits(&self, writer: &mut BitWriter) -> (r: NodeBitsResult<()>)
        requires
            old(writer).wf(),
        ensures
            wrote(*old(writer), *final(writer), enc_response(*self), r),
    {
        let ghost w0 = *old(writer);
        let ghost full = enc_response(*self);
        let ghost p1 = bits_of(response_code(*self), 4);
        let code = self.code();
        let r1 = wb(writer, code as u32, 4);
        if let Err(e) = r1 {
            proof {
                lemma_wrote_err_extend(w0, *writer, p1, full, e);
            }
            return Err(e);
        }
        let ghost w1 = *writer;
        match self {
            Response::Okay => {
                proof {
                    assert(full =~= p1 + Seq::<bool>::empty());
                }
                Ok(())
            },
            Response::Info(node_info) => {
                let ghost p2 = enc_node_info(*node_info);
                let r2 = node_info.serialize_to_bits(writer);
                proof {
                    lemma_wrote_seq(w0, w1, *writer, p1, p2, r2);
                }
                r2
            },
            Response::Limbs(limbs) => {
                let ghost p2 = enc_slot(limbs@[0]);
                let r2 = serialize_slot(&limbs[0], writer);
                if let Err(e) = r2 {
                    proof {
                        lemma_wrote_seq(w0, w1, *writer, p1, p2, r2);
                        lemma_wrote_err_extend(w0, *writer, p1 + p2, full, e);
                    }
                    return Err(e);
                }
                let ghost w2 = *writer;
                let ghost p3 = enc_slot(limbs@[1]);
                let r3 = serialize_slot(&limbs[1], writer);
                if let Err(e) = r3 {
                    proof {
                        lemma_wrote_seq(w1, w2, *writer, p2, p3, r3);
                        lemma_wrote_seq(w0, w1, *writer, p1, p2 + p3, r3);
                        lemma_wrote_err_extend(w0, *writer, p1 + (p2 + p3), full, e);
                    }
                    return Err(e);
                }
                let ghost w3 = *writer;
                let ghost p4 = enc_slot(limbs@[2]);
                let r4 = serialize_slot(&limbs[2], writer);
                proof {
                    lemma_wrote_seq(w2, w3, *writer, p3, p4, r4);
                    lemma_wrote_seq(w1, w2, *writer, p2, p3 + p4, r4);
                    lemma_wrote_seq(w0, w1, *writer, p1, p2 + (p3 + p4), r4);
                    assert(p1 + (p2 + (p3 + p4)) =~= full);
                }
                r4
            },
            Response::Heartbeat(timestamp) => {
                let ghost p2 = bits_of(*timestamp, 32);
                let r2 = wb(writer, *timestamp, 32);
                proof {
                    lemma_wrote_seq(w0, w1, *writer, p1, p2, r2);
                }
                r2
            },
            Response::ErrLimbNotFound => {
                proof {
                    assert(full =~= p1 + Seq::<bool>::empty());
                }
                Ok(())
            },
            Response::ErrLimbTypeDoesntMatch => {
                proof {
                    assert(full =~= p1 + Seq::<bool>::empty());
                }
                Ok(())
            },
        }
    }

    fn deserialize_from_bits(reader: &mut BitReader) -> (r: NodeBitsResult<Self>)
        requires
            old(reader).wf(),
        ensures
            parsed(
                *old(reader),
                *final(reader),
                parse_response(stream(old(reader).bytes()), old(reader).cursor()),
                r,
            ),
    {
        let code = match rb(reader, 4) {
            Ok(v) => v,
            Err(e) => {
                return Err(e);
            },
        };
        match code {
            0 => Ok(Response::Okay),
            1 => {
                match NodeInfo::deserialize_from_bits(reader) {
                    Ok(n) => Ok(Response::Info(n)),
                    Err(e) => Err(e),
                }
            },
            2 => {
                let s0 = match deserialize_slot(reader) {
                    Ok(s) => s,
                    Err(e) => {
                        return Err(e);
                    },
                };
                let s1 = match deserialize_slot(reader) {
                    Ok(s) => s,
                    Err(e) => {
                        return Err(e);
                    },
                };
                let s2 = match deserialize_slot(reader) {
                    Ok(s) => s,
                    Err(e) => {
                        return Err(e);
                    },
                };
                Ok(Response::Limbs([s0, s1, s2]))
            },
            3 => {
                let timestamp = match rb(reader, 32) {
                    Ok(v) => v,
                    Err(e) => {
                        return Err(e);
                    },
                };
                Ok(Response::Heartbeat(timestamp))
            },
            8 => Ok(Response::ErrLimbNotFound),
            9 => Ok(Response::ErrLimbTypeDoesntMatch),
            _ => Err(NodeSerializeError::InvalidResponseCode),
        }
    }
}

/// A command or a response, with a 6-bit id correlating the two.
#[derive(Clone, Debug, PartialEq, Eq)]
pub enum MessageData {
    Command {
        /// The id of this command, 0 to 63.
        id: u8,
        command: Command,
    },
    Response {
        /// The id of the command answered, if any; 0 on the wire means
        /// "none".
        id: Option<u8>,
        response: Response,
    },
}

impl MessageData {
    fn serialize_to_bits(&self, writer: &mut BitWriter) -> (r: NodeBitsResult<()>)
        requires
            old(writer).wf(),
        ensures
            wrote(*old(writer), *final(writer), enc_msg_data(*self), r),
    {
        let ghost w0 = *old(writer);
        let ghost full = enc_msg_data(*self);
        match self {
            MessageData::Command { id, command } => {
                let ghost p1 = bits_of(1, 1);
                let r1 = wb(writer, 1, 1);
                if let Err(e) = r1 {
                    proof {
                        lemma_wrote_err_extend(w0, *writer, p1, full, e);
                    }
                    return Err(e);
                }
                let ghost w1 = *writer;
                let ghost p2 = bits_of(*id as u32, 6);
                let r2 = wb(writer, *id as u32, 6);
                if let Err(e) = r2 {
                    proof {
                        lemma_wrote_seq(w0, w1, *writer, p1, p2, r2);
                        lemma_wrote_err_extend(w0, *writer, p1 + p2, full, e);
                    }
                    return Err(e);
                }
                let ghost w2 = *writer;
                let ghost p3 = enc_command(*command);
                let r3 = command.serialize_to_bits(writer);
                proof {
                    lemma_wrote_seq(w1, w2, *writer, p2, p3, r3);
                    lemma_wrote_seq(w0, w1, *writer, p1, p2 + p3, r3);
                    assert(p1 + (p2 + p3) =~= (p1 + p2) + p3);
                }
                r3
            },
            MessageData::Response { id, response } => {
                let ghost p1 = bits_of(0, 1);
                let r1 = wb(writer, 0, 1);
                if let Err(e) = r1 {
                    proof {
                        lemma_wrote_err_extend(w0, *writer, p1, full, e);
                    }
                    return Err(e);
                }
                let ghost w1 = *writer;
                let id_value: u8 = match id {
                    Some(i) => *i,
                    None => 0,
                };
                let ghost p2 = bits_of(id_value as u32, 6);
                let r2 = wb(writer, id_value as u32, 6);
                if let Err(e) = r2 {
                    proof {
                        lemma_wrote_seq(w0, w1, *writer, p1, p2, r2);
                        lemma_wrote_err_extend(w0, *writer, p1 + p2, full, e);
                    }
                    return Err(e);
                }
                let ghost w2 = *writer;
                let ghost p3 = enc_response(*response);
                let r3 = response.serialize_to_bits(writer);
                proof {
                    lemma_wrote_seq(w1, w2, *writer, p2, p3, r3);
                    lemma_wrote_seq(w0, w1, *writer, p1, p2 + p3, r3);
                    assert(p1 + (p2 + p3) =~= (p1 + p2) + p3);
                }
                r3
            },
        }
    }

    fn deserialize_from_bits(reader: &mut BitReader) -> (r: NodeBitsResult<Self>)
        requires
            old(reader).wf(),
        ensures
            parsed(
                *old(reader),
                *final(reader),
                parse_msg_data(stream(old(reader).bytes()), old(reader).cursor()),
                r,
            ),
    {
        let is_command = match rb(reader, 1) {
            Ok(v) => v,
            Err(e) => {
                return Err(e);
            },
        };
        let id = match rb(reader, 6) {
            Ok(v) => v,
            Err(e) => {
                return Err(e);
            },
        };
        if is_command == 1 {
            let command = match Command::deserialize_from_bits(reader) {
                Ok(c) => c,
                Err(e) => {
                    return Err(e);
                },
            };
            Ok(MessageData::Command { id: id as u8, command })
        } else {
            let response = match Response::deserialize_from_bits(reader) {
                Ok(resp) => resp,
                Err(e) => {
                    return Err(e);
                },
            };
            let id_option = if id == 0 {
                None
            } else {
                Some(id as u8)
            };
            Ok(MessageData::Response { id: id_option, response })
        }
    }
}

/// Reads the 20 bytes of a debug payload.
fn read_bytes20(reader: &mut BitReader) -> (r: NodeBitsResult<[u8; 20]>)
    requires
        old(reader).wf(),
    ensures
        parsed(
            *old(reader),
            *final(reader),
            parse_bytes20(stream(old(reader).bytes()), old(reader).cursor()),
            r,
        ),
{
    proof {
        crate::bity::lemma_reader_in_bounds(reader);
    }
    let ghost s = stream(reader.bytes());
    let ghost p0 = reader.cursor();
    let mut msg: [u8; 20] = [0u8; 20];
    let mut k: usize = 0;
    while k < 20
        invariant
            reader.wf(),
            k <= 20,
            reader.bytes() == old(reader).bytes(),
            s == stream(reader.bytes()),
            p0 == old(reader).cursor(),
            0 <= p0,
            reader.cursor() == p0 + 8 * k,
            forall|j: int| 0 <= j < k ==> msg@[j] == byte_k(s, p0, j),
        decreases 20 - k,
    {
        let v = match rb(reader, 8) {
            Ok(v) => v,
            Err(e) => {
                return Err(e);
            },
        };
        msg[k] = v as u8;
        k = k + 1;
    }
    proof {
        crate::bity::lemma_reader_in_bounds(reader);
        match parse_bytes20(s, p0) {
            Ok((m, _)) => {
                assert(msg@ =~= m@);
                assert(msg =~= m);
            },
            Err(_) => {
                assert(false);
            },
        }
    }
    Ok(msg)
}

/// The top-level envelope put on the radio.
#[derive(Clone, Debug, PartialEq, Eq)]
pub enum Message {
    /// A message for the receiver itself.
    Message(MessageData),
    /// Asks an intermediary to forward the data to this node id.
    RelayMessage(NodeId, MessageData),
    /// A node announcing itself before it has an address.
    SearchingNetwork(NodeId),
    /// An address assigned to this node id.
    Network(NodeId, NodeAddress),
    /// An opaque diagnostic payload.
    DebugMessage(NodeId, [u8; 20]),
}

impl Message {
    fn code(&self) -> (r: u8)
        ensures
            r as u32 == message_code(*self),
    {
        match self {
            Message::Message(_) => 0,
            Message::RelayMessage(_, _) => 1,
            Message::SearchingNetwork(_) => 2,
            Message::Network(_, _) => 3,
            Message::DebugMessage(_, _) => 4,
        }
    }

    fn serialize_to_bits(&self, writer: &mut BitWriter) -> (r: NodeBitsResult<()>)
        requires
            old(writer).wf(),
        ensures
            wrote(*old(writer), *final(writer), enc_message(*self), r),
    {
        let ghost w0 = *old(writer);
        let ghost full = enc_message(*self);
        let ghost pv = bits_of(MESSAGE_VERSION as u32, 2);
        let r1 = wb(writer, MESSAGE_VERSION as u32, 2);
        if let Err(e) = r1 {
            proof {
                lemma_wrote_err_extend(w0, *writer, pv, full, e);
            }
            return Err(e);
        }
        let ghost w1 = *writer;
        let ghost pc = bits_of(message_code(*self), 4);
        let code = self.code();
        let r2 = wb(writer, code as u32, 4);
        if let Err(e) = r2 {
            proof {
                lemma_wrote_seq(w0, w1, *writer, pv, pc, r2);
                lemma_wrote_err_extend(w0, *writer, pv + pc, full, e);
            }
            return Err(e);
        }
        let ghost w2 = *writer;
        match self {
            Message::Message(data) => {
                let ghost p3 = enc_msg_data(*data);
                let r3 = data.serialize_to_bits(writer);
                proof {
                    lemma_wrote_seq(w1, w2, *writer, pc, p3, r3);
                    lemma_wrote_seq(w0, w1, *writer, pv, pc + p3, r3);
                    assert(pv + (pc + p3) =~= (pv + pc) + p3);
                }
                r3
            },
            Message::RelayMessage(node_id, data) => {
                let ghost p3 = bits_of(*node_id, 32);
                let r3 = wb(writer, *node_id, 32);
                if let Err(e) = r3 {
                    proof {
                        lemma_wrote_seq(w1, w2, *writer, pc, p3, r3);
                        lemma_wrote_seq(w0, w1, *writer, pv, pc + p3, r3);
                        lemma_wrote_err_extend(w0, *writer, pv + (pc + p3), full, e);
                    }
                    return Err(e);
                }
                let ghost w3 = *writer;
                let ghost p4 = enc_msg_data(*data);
                let r4 = data.serialize_to_bits(writer);
                proof {
                    lemma_wrote_seq(w2, w3, *writer, p3, p4, r4);
                    lemma_wrote_seq(w1, w2, *writer, pc, p3 + p4, r4);
                    lemma_wrote_seq(w0, w1, *writer, pv, pc + (p3 + p4), r4);
                    assert(pv + (pc + (p3 + p4)) =~= (pv + pc) + (p3 + p4));
                }
                r4
            },
            Message::SearchingNetwork(node_id) => {
                let ghost p3 = bits_of(*node_id, 32);
                let r3 = wb(writer, *node_id, 32);
                proof {
                    lemma_wrote_seq(w1, w2, *writer, pc, p3, r3);
                    lemma_wrote_seq(w0, w1, *writer, pv, pc + p3, r3);
                    assert(pv + (pc + p3) =~= (pv + pc) + p3);
                }
                r3
            },
            Message::Network(node_id, node_address) => {
                let ghost p3 = bits_of(*node_id, 32);
                let r3 = wb(writer, *node_id, 32);
                if let Err(e) = r3 {
                    proof {
                        lemma_wrote_seq(w1, w2, *writer, pc, p3, r3);
                        lemma_wrote_seq(w0, w1, *writer, pv, pc + p3, r3);
                        lemma_wrote_err_extend(w0, *writer, pv + (pc + p3), full, e);
                    }
                    return Err(e);
                }
                let ghost w3 = *writer;
                let ghost p4 = bits_of(*node_address as u32, 16);
                let r4 = wb(writer, *node_address as u32, 16);
                proof {
                    lemma_wrote_seq(w2, w3, *writer, p3, p4, r4);
                    lemma_wrote_seq(w1, w2, *writer, pc, p3 + p4, r4);
                    lemma_wrote_seq(w0, w1, *writer, pv, pc + (p3 + p4), r4);
                    assert(pv + (pc + (p3 + p4)) =~= (pv + pc) + (p3 + p4));
                }
                r4
            },
            Message::DebugMessage(node_id, msg) => {
                let ghost p3 = bits_of(*node_id, 32);
                let r3 = wb(writer, *node_id, 32);
                if let Err(e) = r3 {
                    proof {
                        lemma_wrote_seq(w1, w2, *writer, pc, p3, r3);
                        lemma_wrote_seq(w0, w1, *writer, pv, pc + p3, r3);
                        lemma_wrote_err_extend(w0, *writer, pv + (pc + p3), full, e);
                    }
                    return Err(e);
                }
                let ghost w3 = *writer;
                let ghost pb = enc_bytes(msg@);
                let mut k: usize = 0;
                while k < 20
                    invariant
                        writer.wf(),
                        k <= 20,
                        msg@.len() == 20,
                        pb == enc_bytes(msg@),
                        w0 == *old(writer),
                        pv == bits_of(MESSAGE_VERSION as u32, 2),
                        pc == bits_of(message_code(*self), 4),
                        wrote(w0, w3, (pv + pc) + bits_of(*node_id, 32), Ok(())),
                        wrote(w3, *writer, pb.take(8 * k as int), Ok(())),
                        full == enc_message(*self),
                        full.len() == (pv + pc).len() + 32 + 160,
                    decreases 20 - k,
                {
                    let ghost wk = *writer;
                    let b = msg[k];
                    let ghost pk = bits_of(b as u32, 8);
                    let r5 = wb(writer, b as u32, 8);
                    if let Err(e) = r5 {
                        proof {
                            lemma_wrote_seq(w3, wk, *writer, pb.take(8 * k as int), pk, r5);
                            lemma_wrote_err_extend(w3, *writer, pb.take(8 * k as int) + pk, pb, e);
                            lemma_wrote_seq(w0, w3, *writer, (pv + pc) + bits_of(*node_id, 32), pb, r5);
                            lemma_wrote_err_extend(
                                w0,
                                *writer,
                                ((pv + pc) + bits_of(*node_id, 32)) + pb,
                                full,
                                e,
                            );
                        }
                        return Err(e);
                    }
                    proof {
                        lemma_wrote_seq(w3, wk, *writer, pb.take(8 * k as int), pk, r5);
                        lemma_stream_byte(msg@, k as int);
                        assert(pb.take(8 * k as int) + pk =~= pb.take(8 * (k + 1) as int));
                    }
                    k = k + 1;
                }
                proof {
                    assert(pb.take(160) =~= pb);
                    lemma_wrote_seq(w0, w3, *writer, (pv + pc) + bits_of(*node_id, 32), pb, Ok(()));
                    assert(((pv + pc) + bits_of(*node_id, 32)) + pb =~= full);
                }
                Ok(())
            },
        }
    }

    /// Serializes the message into `buffer`, returning the number of bytes
    /// written.  Fails with the overflow error exactly when the encoding
    /// does not fit the buffer.
    pub fn serialize_to_bytes(&self, buffer: &mut Vec<u8>) -> (r: NodeBitsResult<usize>)
        ensures
            final(buffer)@.len() == old(buffer)@.len(),
            match r {
                Ok(n) => {
                    &&& enc_message(*self).len() <= old(buffer)@.len() * 8
                    &&& crate::bity::appended(
                        stream(old(buffer)@),
                        stream(final(buffer)@),
                        0,
                        enc_message(*self),
                    )
                    &&& n == (enc_message(*self).len() + 7) / 8
                },
                Err(e) => {
                    &&& e == NodeSerializeError::BitError(crate::bity::Error::BufferOverflow)
                    &&& enc_message(*self).len() > old(buffer)@.len() * 8
                },
            },
    {
        let mut taken: Vec<u8> = Vec::new();
        core::mem::swap(buffer, &mut taken);
        let mut writer = BitWriter::new(taken);
        let r = self.serialize_to_bits(&mut writer);
        let n = writer.finalize();
        let mut written = writer.into_buffer();
        core::mem::swap(buffer, &mut written);
        match r {
            Ok(()) => Ok(n),
            Err(e) => Err(e),
        }
    }

    /// Deserializes a message from `buffer`, returning it and the number of
    /// bytes consumed.  The outcome, error cases included, is exactly what
    /// [`parse_message`] gives on the buffer's bit stream.
    pub fn deserialize_from_bytes(buffer: &[u8]) -> (r: NodeBitsResult<(Self, usize)>)
        ensures
            match parse_message(stream(buffer@)) {
                Ok((m, p)) => r == Ok::<(Message, usize), NodeSerializeError>(
                    (m, ((p + 7) / 8) as usize),
                ),
                Err(e) => r == Err::<(Message, usize), NodeSerializeError>(e),
            },
    {
        let mut reader = BitReader::new(buffer);
        let message_version = match rb(&mut reader, 2) {
            Ok(v) => v,
            Err(e) => {
                return Err(e);
            },
        };
        if message_version != MESSAGE_VERSION as u32 {
            return Err(NodeSerializeError::InvalidMessageVersion);
        }
        let code = match rb(&mut reader, 4) {
            Ok(v) => v,
            Err(e) => {
                return Err(e);
            },
        };
        let message = match code {
            0 => {
                match MessageData::deserialize_from_bits(&mut reader) {
                    Ok(data) => Message::Message(data),
                    Err(e) => {
                        return Err(e);
                    },
                }
            },
            1 => {
                let node_id = match rb(&mut reader, 32) {
                    Ok(v) => v,
                    Err(e) => {
                        return Err(e);
                    },
                };
                match MessageData::deserialize_from_bits(&mut reader) {
                    Ok(data) => Message::RelayMessage(node_id, data),
                    Err(e) => {
                        return Err(e);
                    },
                }
            },
            2 => {
                let node_id = match rb(&mut reader, 32) {
                    Ok(v) => v,
                    Err(e) => {
                        return Err(e);
                    },
                };
                Message::SearchingNetwork(node_id)
            },
            3 => {
                let node_id = match rb(&mut reader, 32) {
                    Ok(v) => v,
                    Err(e) => {
                        return Err(e);
                    },
                };
                let node_address = match rb(&mut reader, 16) {
                    Ok(v) => v,
                    Err(e) => {
                        return Err(e);
                    },
                };
                Message::Network(node_id, node_address as u16)
            },
            4 => {
                let node_id = match rb(&mut reader, 32) {
                    Ok(v) => v,
                    Err(e) => {
                        return Err(e);
                    },
                };
                let msg = match read_bytes20(&mut reader) {
                    Ok(m) => m,
                    Err(e) => {
                        return Err(e);
                    },
                };
                Message::DebugMessage(node_id, msg)
            },
            _ => {
                return Err(NodeSerializeError::InvalidMessageCode);
            },
        };
        let n = reader.finalize();
        Ok((message, n))
    }
}


/// Combining two readings of different variants is a caller error.
#[derive(Clone, Copy, Debug, PartialEq, Eq, Structural)]
pub enum CombineError {
    VariantMismatch,
}

/// Integer halving that rounds toward zero, as machine division does.
pub open spec fn div2_trunc(x: int) -> int {
    if x >= 0 {
        x / 2
    } else {
        -((-x) / 2)
    }
}

/// What combining two sensor readings yields: the per-field average for two
/// readings of the same variant, an error for different variants.
pub open spec fn combine_sensor(a: Sensor, b: Sensor) -> Result<Sensor, CombineError> {
    match (a, b) {
        (Sensor::Battery(x), Sensor::Battery(y)) => Ok(Sensor::Battery(((x + y) / 2) as u8)),
        (Sensor::TempHum((t1, h1)), Sensor::TempHum((t2, h2))) => Ok(
            Sensor::TempHum((div2_trunc(t1 + t2) as i16, ((h1 + h2) / 2) as u8)),
        ),
        (Sensor::Current(x), Sensor::Current(y)) => Ok(Sensor::Current(((x + y) / 2) as u16)),
        _ => Err(CombineError::VariantMismatch),
    }
}

/// What combining two actuator states yields: a light is latched on if
/// either source says on.
pub open spec fn combine_actuator(a: Actuator, b: Actuator) -> Result<Actuator, CombineError> {
    match (a, b) {
        (Actuator::Light(x), Actuator::Light(y)) => Ok(Actuator::Light(x || y)),
    }
}

/// What combining two limb types yields: intervals are averaged, optional
/// readings are combined where both are present, and different variants are
/// an error.
pub open spec fn combine_limb_type(a: LimbType, b: LimbType) -> Result<LimbType, CombineError> {
    match (a, b) {
        (
            LimbType::Sensor { report_interval: r1, data: d1 },
            LimbType::Sensor { report_interval: r2, data: d2 },
        ) => {
            let ri = ((r1 + r2) / 2) as u16;
            match (d1, d2) {
                (None, None) => Ok(LimbType::Sensor { report_interval: ri, data: None }),
                (None, Some(s)) => Ok(LimbType::Sensor { report_interval: ri, data: Some(s) }),
                (Some(s), None) => Ok(LimbType::Sensor { report_interval: ri, data: Some(s) }),
                (Some(s1), Some(s2)) => match combine_sensor(s1, s2) {
                    Ok(s) => Ok(LimbType::Sensor { report_interval: ri, data: Some(s) }),
                    Err(e) => Err(e),
                },
            }
        },
        (LimbType::Actuator(x), LimbType::Actuator(y)) => match combine_actuator(x, y) {
            Ok(a2) => Ok(LimbType::Actuator(a2)),
            Err(e) => Err(e),
        },
        _ => Err(CombineError::VariantMismatch),
    }
}

impl Sensor {
    /// Averages two readings of the same variant, field by field; readings
    /// of different variants do not combine.
    pub fn combine(self, rhs: Self) -> (r: Result<Self, CombineError>)
        ensures
            r == combine_sensor(self, rhs),
    {
        match (self, rhs) {
            (Sensor::Battery(x), Sensor::Battery(y)) => {
                Ok(Sensor::Battery(((x as u16 + y as u16) / 2) as u8))
            },
            (Sensor::TempHum((t1, h1)), Sensor::TempHum((t2, h2))) => {
                let sum: i32 = t1 as i32 + t2 as i32;
                let temp: i32 = sum / 2;
                let hum: u16 = (h1 as u16 + h2 as u16) / 2;
                Ok(Sensor::TempHum((temp as i16, hum as u8)))
            },
            (Sensor::Current(x), Sensor::Current(y)) => {
                Ok(Sensor::Current(((x as u32 + y as u32) / 2) as u16))
            },
            _ => Err(CombineError::VariantMismatch),
        }
    }
}

impl Actuator {
    /// Latches two light states together: on if either source says on.
    pub fn combine(self, rhs: Self) -> (r: Result<Self, CombineError>)
        ensures
            r == combine_actuator(self, rhs),
    {
        match (self, rhs) {
            (Actuator::Light(x), Actuator::Light(y)) => Ok(Actuator::Light(x || y)),
        }
    }
}

impl LimbType {
    /// Combines two limb types of the same variant; the reporting intervals
    /// are averaged and present readings combined.
    pub fn combine(self, rhs: Self) -> (r: Result<Self, CombineError>)
        ensures
            r == combine_limb_type(self, rhs),
    {
        match (self, rhs) {
            (
                LimbType::Sensor { report_interval: r1, data: d1 },
                LimbType::Sensor { report_interval: r2, data: d2 },
            ) => {
                let ri: u16 = ((r1 as u32 + r2 as u32) / 2) as u16;
                let data = match (d1, d2) {
                    (None, None) => None,
                    (None, Some(s)) => Some(s),
                    (Some(s), None) => Some(s),
                    (Some(s1), Some(s2)) => {
                        match s1.combine(s2) {
                            Ok(s) => Some(s),
                            Err(e) => {
                                return Err(e);
                            },
                        }
                    },
                };
                Ok(LimbType::Sensor { report_interval: ri, data })
            },
            (LimbType::Actuator(x), LimbType::Actuator(y)) => {
                match x.combine(y) {
                    Ok(a) => Ok(LimbType::Actuator(a)),
                    Err(e) => Err(e),
                }
            },
            _ => Err(CombineError::VariantMismatch),
        }
    }
}

} // verus!
