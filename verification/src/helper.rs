//! Bounded-polling transport: sending and receiving whole messages over any
//! [`Radio`].
//!
//! There is no scheduler on the target devices, so every wait is a bounded
//! busy-poll: a fixed cap of 255 attempts with a short caller-supplied delay
//! between them, which together form the timeout budget.  Exhausting the
//! transmit budget is the [`Error::SendingTimedOut`] error; exhausting the
//! receive budget yields `None`, which is not an error.
//!
//! What the radio hardware answers cannot be specified, so the contracts
//! here promise what is in the transport's own hands: the transmit path
//! never invents a serialization error, a message that cannot fit a frame
//! is reported as exactly that, and a received frame is decoded by
//! [`message_from_payload`], whose outcome is pinned bit for bit by
//! [`parse_message`].

use vstd::prelude::*;

use crate::discriminant::Discriminant;
use crate::node::{Message, NodeSerializeError};
use crate::radio::{addr_to_nrf24_hq_pipe, Delay, NbError, Payload, Radio};
use crate::wire::{enc_message, parse_message};
use crate::bity::stream;

verus! {

/// A transport failure: the radio's own error passed through unchanged, a
/// codec failure, or an exhausted transmit budget.
pub enum Error<E> {
    RadioError(E),
    SerializationError(NodeSerializeError),
    SendingTimedOut,
}

/// Room for the transport's own ids below the wrapped layers' ranges.
pub const ERROR_MAX: u8 = 10;

impl<E: Discriminant> Discriminant for Error<E> {
    open spec fn disc_spec(&self) -> int {
        match self {
            Error::RadioError(e) => ERROR_MAX + crate::node::ERROR_MAX + e.disc_spec(),
            Error::SerializationError(e) => ERROR_MAX + e.disc_spec(),
            Error::SendingTimedOut => 2,
        }
    }

    open spec fn disc_max_spec() -> int {
        ERROR_MAX + crate::node::ERROR_MAX + E::disc_max_spec()
    }

    proof fn lemma_disc_in_range(&self) {
        E::lemma_disc_max_nonneg();
        match self {
            Error::RadioError(e) => e.lemma_disc_in_range(),
            Error::SerializationError(e) => e.lemma_disc_in_range(),
            Error::SendingTimedOut => {},
        }
    }

    proof fn lemma_disc_max_nonneg() {
        E::lemma_disc_max_nonneg();
    }

    fn discriminant(&self) -> (r: u8) {
        match self {
            Error::RadioError(e) => {
                proof {
                    e.lemma_disc_in_range();
                }
                ERROR_MAX + crate::node::ERROR_MAX + e.discriminant()
            },
            Error::SerializationError(e) => {
                proof {
                    e.lemma_disc_in_range();
                }
                ERROR_MAX + e.discriminant()
            },
            Error::SendingTimedOut => 2,
        }
    }

    fn discriminant_max() -> (r: u8) {
        proof {
            E::lemma_disc_max_nonneg();
        }
        ERROR_MAX + crate::node::ERROR_MAX + E::discriminant_max()
    }
}

/// The transport's error ids never collide across layers: each variant's
/// ids occupy a range of their own, offset past the ranges of the layers
/// beneath it.
pub proof fn lemma_error_discriminant_ranges<E: Discriminant>(e: &Error<E>)
    ensures
        e is SendingTimedOut ==> e.disc_spec() == 2,
        e is SerializationError ==> 10 <= e.disc_spec() < 30,
        e is RadioError ==> 30 <= e.disc_spec() < 30 + E::disc_max_spec(),
{
    match e {
        Error::RadioError(re) => re.lemma_disc_in_range(),
        Error::SerializationError(se) => se.lemma_disc_in_range(),
        Error::SendingTimedOut => {},
    }
}

/// Within the codec layer the id determines the error: distinct decode
/// failures never share an id.
pub proof fn lemma_node_error_discriminant_injective(a: &NodeSerializeError, b: &NodeSerializeError)
    ensures
        a.disc_spec() == b.disc_spec() ==> a == b,
{
}

pub type SendResult<E> = Result<bool, Error<E>>;

/// Starts a transmission and polls it to completion, waiting 250
/// microseconds between polls, for at most 255 polls; an exhausted budget
/// is the timeout error.  Only radio errors and the timeout can come out of
/// the send path: it never reports a codec failure.
pub fn send_payload<E, R: Radio<E>, D: Delay>(radio: &mut R, payload: &Payload, delay: &mut D) -> (r:
    SendResult<E>)
    ensures
        !(r matches Err(Error::SerializationError(_))),
{
    match radio.transmit_start(payload) {
        Ok(()) => {},
        Err(e) => {
            return Err(Error::RadioError(e));
        },
    }
    let mut i: u16 = 0;
    while i < 255
        invariant
            i <= 255,
        decreases 255 - i,
    {
        match radio.transmit_poll() {
            Ok(success) => {
                return Ok(success);
            },
            Err(NbError::Other(e)) => {
                return Err(Error::RadioError(e));
            },
            Err(NbError::WouldBlock) => {},
        }
        delay.delay_us(250);
        i = i + 1;
    }
    Err(Error::SendingTimedOut)
}

/// Serializes a message, frames it with the sender's address on the
/// headquarters pipe, and sends it with [`send_payload`].  A message whose
/// encoding does not fit the 32-byte frame is reported as a serialization
/// error; any other failure comes from the radio or the timeout.
pub fn send_message_<E, R: Radio<E>, D: Delay>(
    radio: &mut R,
    message: Message,
    node_addr: u16,
    delay: &mut D,
) -> (r: SendResult<E>)
    ensures
        enc_message(message).len() > 256 ==> r == Err::<bool, Error<E>>(
            Error::SerializationError(
                NodeSerializeError::BitError(crate::bity::Error::BufferOverflow),
            ),
        ),
        enc_message(message).len() <= 256 ==> !(r matches Err(Error::SerializationError(_))),
{
    let mut data: Vec<u8> = Vec::new();
    let mut i: usize = 0;
    while i < 32
        invariant
            i <= 32,
            data@.len() == i,
        decreases 32 - i,
    {
        data.push(0u8);
        i = i + 1;
    }
    let data_l = match message.serialize_to_bytes(&mut data) {
        Ok(n) => n,
        Err(e) => {
            return Err(Error::SerializationError(e));
        },
    };
    let mut arr: [u8; 32] = [0u8; 32];
    let mut j: usize = 0;
    while j < 32
        invariant
            j <= 32,
            data@.len() == 32,
            forall|k: int| 0 <= k < j ==> arr@[k] == data@[k],
        decreases 32 - j,
    {
        arr[j] = data[j];
        j = j + 1;
    }
    let payload = Payload::new_with_addr_from_array(
        arr,
        data_l,
        node_addr,
        addr_to_nrf24_hq_pipe(node_addr),
    );
    send_payload(radio, &payload, delay)
}

/// Switches the radio to receive mode and polls for a frame, waiting 500
/// microseconds between polls, for at most 255 polls.  `Ok(None)` means
/// nothing arrived within the budget, which is not an error; what frame
/// arrives, if any, is the radio's to decide.
pub fn check_for_payloads_for_a_bit<E, R: Radio<E>, D: Delay>(radio: &mut R, delay: &mut D) -> (r:
    Result<Option<Payload>, E>)
{
    match radio.to_rx() {
        Ok(()) => {},
        Err(e) => {
            return Err(e);
        },
    }
    let mut i: u16 = 0;
    while i < 255
        invariant
            i <= 255,
        decreases 255 - i,
    {
        match radio.receive(None) {
            Ok(payload) => {
                return Ok(Some(payload));
            },
            Err(NbError::Other(e)) => {
                return Err(e);
            },
            Err(NbError::WouldBlock) => {},
        }
        delay.delay_us(500);
        i = i + 1;
    }
    Ok(None)
}

/// Decodes the message a frame carries: `None` for a frame whose length
/// field is invalid and for data that does not parse — both are treated as
/// foreign noise, never as a partial message.
pub fn message_from_payload(payload: &Payload) -> (r: Option<Message>)
    ensures
        r == (if !payload.spec_len_is_valid() {
            None::<Message>
        } else {
            match parse_message(stream(payload.spec_data())) {
                Ok((m, _)) => Some(m),
                Err(_) => None::<Message>,
            }
        }),
{
    if !payload.len_is_valid() {
        return None;
    }
    match Message::deserialize_from_bytes(payload.data()) {
        Ok((message, _)) => Some(message),
        Err(_) => None,
    }
}

/// Polls for a frame with [`check_for_payloads_for_a_bit`] and decodes it
/// with [`message_from_payload`]; a frame that fails to decode is silently
/// discarded, so a foreign or corrupted frame never aborts the polling
/// loop.  Whatever the radio delivered, a message handed to the caller is
/// the complete parse of some byte sequence — never a partial or corrupted
/// value.
pub fn check_for_messages_for_a_bit<E, R: Radio<E>, D: Delay>(radio: &mut R, delay: &mut D) -> (r:
    Result<Option<Message>, E>)
    ensures
        r matches Ok(Some(m)) ==> exists|bytes: Seq<u8>|
            match #[trigger] parse_message(stream(bytes)) {
                Ok((parsed_m, n)) => parsed_m == m,
                Err(_) => false,
            },
{
    match check_for_payloads_for_a_bit(radio, delay) {
        Ok(Some(payload)) => {
            let message = message_from_payload(&payload);
            proof {
                if message is Some {
                    let bytes = payload.spec_data();
                    assert(match parse_message(stream(bytes)) {
                        Ok((parsed_m, n)) => parsed_m == message->0,
                        Err(_) => false,
                    });
                }
            }
            Ok(message)
        },
        Ok(None) => Ok(None),
        Err(e) => Err(e),
    }
}

} // verus!
