//! Payload framing, the addressing scheme, and the radio capability trait.
//!
//! A [`Payload`] is the fixed 32-byte frame a transceiver sends and
//! receives: byte 0 is the pipe, byte 1 holds the data length in its low 7
//! bits and an address-present flag in its high bit, bytes 2 and 3 hold a
//! little-endian 16-bit address when that flag is set, and the data begins
//! right after the header.  Accessors are bounded by the computed offsets,
//! never by the whole buffer, so trailing garbage is never mistaken for
//! data.
//!
//! [`Radio`] is the capability a transceiver must offer: mode transitions,
//! blocking and non-blocking transmission, address-filtered reception and
//! FIFO flushes.  Hardware behaviour cannot be promised, so its methods
//! carry no contracts; the transport in [`crate::helper`] is verified to
//! drive any implementation with bounded polling.  [`LoopbackRadio`] is an
//! in-memory implementation used to exercise the transport.

use vstd::prelude::*;
use vstd::slice::{slice_index_get, slice_subrange};

verus! {

/// The well-known pipe that nodes use when transmitting to headquarters.
pub const DEFAULT_PIPE: u8 = 0x97u8;

/// The pipe a node with this address receives on.  Subtracting 128 keeps
/// node receive pipes out of the pipe range headquarters reserves.
pub fn addr_to_rx_pipe(addr: u16) -> (r: u8)
    ensures
        r as int == (addr + 128) % 256,
{
    (((addr as u32) + 128) % 256) as u8
}

/// The pipe a node uses to reach headquarters over the multi-pipe
/// transceiver: always the fixed well-known pipe, because that chip cannot
/// reliably discriminate several transmit pipes, so per-address
/// discrimination happens in the payload header instead.
pub fn addr_to_nrf24_hq_pipe(_addr: u16) -> (r: u8)
    ensures
        r == DEFAULT_PIPE,
{
    DEFAULT_PIPE
}

/// The pipe a node uses to reach headquarters over the raw transceiver.
pub fn addr_to_cc1101_hq_pipe(_addr: u16) -> (r: u8)
    ensures
        r == DEFAULT_PIPE,
{
    DEFAULT_PIPE
}

/// A fixed 32-byte radio frame: pipe, length and address-present flag, an
/// optional little-endian address, then the data.
pub struct Payload(pub [u8; 32]);

impl Payload {
    /// The pipe tag in byte 0.
    pub open spec fn spec_pipe(&self) -> u8 {
        self.0@[0]
    }

    /// Whether the high bit of byte 1 announces a 2-byte address.
    pub open spec fn spec_has_address(&self) -> bool {
        (self.0@[1] >> 7u32) & 1 == 1
    }

    /// The data length: the low 7 bits of byte 1.
    pub open spec fn spec_len(&self) -> int {
        (self.0@[1] & 0x7f) as int
    }

    /// The header is 4 bytes with an address, 2 without.
    pub open spec fn spec_header_length(&self) -> int {
        if self.spec_has_address() {
            4
        } else {
            2
        }
    }

    /// Header plus data length.
    pub open spec fn spec_len_total(&self) -> int {
        self.spec_len() + self.spec_header_length()
    }

    /// The address carried in bytes 2 and 3, low byte first, if any.
    pub open spec fn spec_address(&self) -> Option<u16> {
        if self.spec_has_address() {
            Some((self.0@[2] as u16) | ((self.0@[3] as u16) << 8u32))
        } else {
            None
        }
    }

    /// The length field is valid: nonzero and within the capacity left
    /// after the header.
    pub open spec fn spec_len_is_valid(&self) -> bool {
        self.spec_len() != 0 && self.spec_len() <= 32 - self.spec_header_length()
    }

    /// The data section: the bytes between the header and the frame length.
    pub open spec fn spec_data(&self) -> Seq<u8> {
        self.0@.subrange(self.spec_header_length(), self.spec_len_total())
    }

    /// Frames `data` with an address: pipe, length with the address flag
    /// set, the address low byte first, then the data.
    pub fn new_with_addr(data: &[u8], address: u16, pipe: u8) -> (r: Self)
        requires
            data@.len() <= 28,
        ensures
            r.spec_pipe() == pipe,
            r.spec_has_address(),
            r.spec_address() == Some(address),
            r.spec_len() == data@.len(),
            r.spec_data() == data@,
            r.spec_len_is_valid() == (data@.len() > 0),
    {
        let mut buf: [u8; 32] = [0u8; 32];
        buf[0] = pipe;
        let len8: u8 = data.len() as u8;
        buf[1] = len8 | 0x80;
        buf[2] = (address & 0xff) as u8;
        buf[3] = (address >> 8u32) as u8;
        let n = data.len();
        let mut i: usize = 0;
        while i < n
            invariant
                n == data@.len() <= 28,
                i <= n,
                buf@.len() == 32,
                buf@[0] == pipe,
                buf@[1] == (n as u8) | 0x80,
                buf@[2] == (address & 0xff) as u8,
                buf@[3] == (address >> 8u32) as u8,
                forall|j: int| 0 <= j < i ==> buf@[4 + j] == data@[j],
            decreases n - i,
        {
            buf[4 + i] = *slice_index_get(data, i);
            i = i + 1;
        }
        let r = Payload(buf);
        proof {
            let lb: u8 = (n as u8) | 0x80;
            assert((lb >> 7u32) & 1 == 1 && (lb & 0x7f) == n as u8) by (bit_vector)
                requires
                    lb == (n as u8) | 0x80,
                    n as u8 <= 28,
            ;
            let b2: u8 = (address & 0xff) as u8;
            let b3: u8 = (address >> 8u32) as u8;
            assert((b2 as u16) | ((b3 as u16) << 8u32) == address) by (bit_vector)
                requires
                    b2 == (address & 0xff) as u8,
                    b3 == (address >> 8u32) as u8,
            ;
            assert(r.spec_data() =~= data@);
        }
        r
    }

    /// Frames the first `data_len` bytes of a full 32-byte buffer, making
    /// room for the 4-byte header; the last 4 bytes of `data` are dropped.
    pub fn new_with_addr_from_array(data: [u8; 32], data_len: usize, address: u16, pipe: u8) -> (r:
        Self)
        ensures
            r.spec_pipe() == pipe,
            r.spec_has_address(),
            r.spec_address() == Some(address),
            r.spec_len() == (((data_len as u8) | 0x80) & 0x7f) as int,
            data_len <= 28 ==> r.spec_len() == data_len,
            data_len <= 28 ==> r.spec_data() == data@.subrange(0, data_len as int),
            data_len != 0 && data_len <= 28 ==> r.spec_len_is_valid(),
    {
        let mut buf: [u8; 32] = [0u8; 32];
        buf[0] = pipe;
        buf[1] = (data_len as u8) | 0x80;
        buf[2] = (address & 0xff) as u8;
        buf[3] = (address >> 8u32) as u8;
        let mut i: usize = 0;
        while i < 28
            invariant
                i <= 28,
                buf@.len() == 32,
                buf@[0] == pipe,
                buf@[1] == (data_len as u8) | 0x80,
                buf@[2] == (address & 0xff) as u8,
                buf@[3] == (address >> 8u32) as u8,
                forall|j: int| 0 <= j < i ==> buf@[4 + j] == data@[j],
            decreases 28 - i,
        {
            buf[4 + i] = data[i];
            i = i + 1;
        }
        let r = Payload(buf);
        proof {
            let lb: u8 = (data_len as u8) | 0x80;
            assert((lb >> 7u32) & 1 == 1 && (lb & 0x7f) == (data_len as u8) & 0x7f) by (bit_vector)
                requires
                    lb == (data_len as u8) | 0x80,
            ;
            if data_len <= 28 {
                assert((data_len as u8) & 0x7f == data_len as u8) by (bit_vector)
                    requires
                        data_len as u8 <= 28,
                ;
            }
            let b2: u8 = (address & 0xff) as u8;
            let b3: u8 = (address >> 8u32) as u8;
            assert((b2 as u16) | ((b3 as u16) << 8u32) == address) by (bit_vector)
                requires
                    b2 == (address & 0xff) as u8,
                    b3 == (address >> 8u32) as u8,
            ;
            if data_len <= 28 {
                assert(r.spec_data() =~= data@.subrange(0, data_len as int));
            }
        }
        r
    }

    /// Whether the frame carries an address.
    pub fn has_address(&self) -> (r: bool)
        ensures
            r == self.spec_has_address(),
    {
        ((self.0[1] >> 7u32) & 1) == 1
    }

    /// The destination address, if the frame carries one.
    pub fn address(&self) -> (r: Option<u16>)
        ensures
            r == self.spec_address(),
    {
        if self.has_address() {
            Some((self.0[2] as u16) | ((self.0[3] as u16) << 8u32))
        } else {
            None
        }
    }

    /// The header length: 4 bytes with an address, 2 without.
    pub fn header_length(&self) -> (r: usize)
        ensures
            r as int == self.spec_header_length(),
    {
        if self.has_address() {
            4
        } else {
            2
        }
    }

    /// The length of the data.
    pub fn len(&self) -> (r: usize)
        ensures
            r as int == self.spec_len(),
    {
        (self.0[1] & 0x7f) as usize
    }

    /// The total length of the frame: header plus data.
    pub fn len_total(&self) -> (r: usize)
        ensures
            r as int == self.spec_len_total(),
    {
        self.len() + self.header_length()
    }

    /// The pipe tag.
    pub fn pipe(&self) -> (r: u8)
        ensures
            r == self.spec_pipe(),
    {
        self.0[0]
    }

    /// Whether the length field is valid: nonzero and no larger than the
    /// capacity left after the header.  A frame failing this check is
    /// corrupt or truncated and is rejected before any deeper decode.
    pub fn len_is_valid(&self) -> (r: bool)
        ensures
            r == self.spec_len_is_valid(),
    {
        self.len() != 0 && self.len() <= 32 - self.header_length()
    }

    /// The data section of the frame.
    pub fn data(&self) -> (r: &[u8])
        requires
            self.spec_len_total() <= 32,
        ensures
            r@ == self.spec_data(),
    {
        slice_subrange(self.0.as_slice(), self.header_length(), self.len_total())
    }

    /// The header and data together: the bytes worth transmitting.
    pub fn packet(&self) -> (r: &[u8])
        requires
            self.spec_len_total() <= 32,
        ensures
            r@ == self.0@.subrange(0, self.spec_len_total()),
    {
        slice_subrange(self.0.as_slice(), 0, self.len_total())
    }
}

impl Clone for Payload {
    fn clone(&self) -> (r: Self)
        ensures
            r == *self,
    {
        Payload(self.0)
    }
}

impl Default for Payload {
    /// An all-zero frame: pipe 0, length 0, no address.
    fn default() -> (r: Self)
        ensures
            forall|i: int| 0 <= i < 32 ==> r.0@[i] == 0u8,
    {
        Payload([0u8; 32])
    }
}

/// Whether a received frame passes an address filter: a frame with no
/// address and a call with no filter always pass; otherwise the frame's
/// address must be in the list.  A frame that does not pass is discarded as
/// noise — treated as "nothing received yet", not as an error.
pub open spec fn spec_payload_accepted(p: Payload, filter: Option<Seq<u16>>) -> bool {
    match (p.spec_address(), filter) {
        (Some(addr), Some(addrs)) => addrs.contains(addr),
        _ => true,
    }
}

/// Decides [`spec_payload_accepted`] for a frame and an optional filter
/// list.
pub fn payload_accepted(payload: &Payload, rx_addresses: Option<&[u16]>) -> (r: bool)
    ensures
        r == spec_payload_accepted(
            *payload,
            match rx_addresses {
                Some(addrs) => Some(addrs@),
                None => None,
            },
        ),
{
    match (payload.address(), rx_addresses) {
        (Some(addr), Some(addrs)) => {
            let n = addrs.len();
            let mut i: usize = 0;
            while i < n
                invariant
                    n == addrs@.len(),
                    i <= n,
                    payload.spec_address() == Some(addr),
                    rx_addresses == Some(addrs),
                    forall|j: int| 0 <= j < i ==> addrs@[j] != addr,
                decreases n - i,
            {
                if *slice_index_get(addrs, i) == addr {
                    proof {
                        assert(addrs@[i as int] == addr);
                    }
                    return true;
                }
                i = i + 1;
            }
            false
        },
        _ => true,
    }
}

/// A waiting primitive supplied by the environment; polling loops insert a
/// short delay between attempts.
pub trait Delay {
    /// Waits for at least `us` microseconds.
    fn delay_us(&mut self, us: u32);

    /// Waits for at least `ms` milliseconds.
    fn delay_ms(&mut self, ms: u32);
}

/// A delay that does not wait; useful where polling is driven by a test or
/// the caller paces itself.
pub struct NoopDelay;

impl Delay for NoopDelay {
    fn delay_us(&mut self, _us: u32) {
    }

    fn delay_ms(&mut self, _ms: u32) {
    }
}

/// The outcome of one poll of a non-blocking operation: not ready yet, or
/// done, or failed with the transceiver's own error.
#[derive(Clone, Copy, Debug, PartialEq, Eq)]
pub enum NbError<E> {
    /// The operation failed.
    Other(E),
    /// The operation has not completed yet; poll again.
    WouldBlock,
}

pub type NbResult<T, E> = Result<T, NbError<E>>;

/// The operations a radio transceiver must support, written once per chip
/// family.  `E` is the chip's own error type, passed through opaquely.
///
/// The two supported chip families differ: one acknowledges and
/// retransmits in hardware and filters several pipes, the other is raw.
/// The interface is their common denominator; richer behaviour surfaces
/// only through the `Option<bool>` acknowledgment result of a transmit.
pub trait Radio<E> {
    /// Resets the device where possible and applies the baseline
    /// configuration; idempotent, and may block briefly using the supplied
    /// delay.
    fn init<D: Delay>(&mut self, delay: &mut D) -> Result<(), E>;

    /// A blocking transmit.  `Some(success)` reports the acknowledgment
    /// status where the chip has one; `None` means the chip has no concept
    /// of acknowledgment.
    fn transmit(&mut self, payload: &Payload) -> Result<Option<bool>, E>;

    /// Puts the frame in the FIFO and starts transmitting.
    fn transmit_start(&mut self, payload: &Payload) -> Result<(), E>;

    /// Polls a transmission started with `transmit_start` until it stops
    /// reporting `WouldBlock`.
    fn transmit_poll(&mut self) -> NbResult<bool, E>;

    /// Polls for a received frame.  With an address filter, a frame whose
    /// address is not in the list is discarded as `WouldBlock`
    /// ([`spec_payload_accepted`]), so one polling loop can serve several
    /// logical destinations.
    fn receive(&mut self, rx_addresses: Option<&[u16]>) -> NbResult<Payload, E>;

    /// Programs which pipes the hardware should accept, as far as it can;
    /// pipes beyond the hardware's capacity are ignored, not an error.
    fn set_rx_filter(&mut self, rx_pipes: &[u8]) -> Result<(), E>;

    /// Enters receive mode.
    fn to_rx(&mut self) -> Result<(), E>;

    /// Enters transmit mode.
    fn to_tx(&mut self) -> Result<(), E>;

    /// Leaves transmit and receive modes.
    fn to_idle(&mut self) -> Result<(), E>;

    /// Clears the receive FIFO.
    fn flush_rx(&mut self) -> Result<(), E>;

    /// Clears the transmit FIFO.
    fn flush_tx(&mut self) -> Result<(), E>;
}

/// An in-memory radio: transmitted frames are stored, received frames are
/// taken from a queue the caller loads.  It reports every transmission as
/// acknowledged and honours address filters like the real chips do.
pub struct LoopbackRadio {
    /// Frames waiting to be received, oldest first.
    pub rx_queue: Vec<Payload>,
    /// Frames transmitted so far, oldest first.
    pub sent: Vec<Payload>,
    /// Whether a transmission started and has not been polled to completion.
    pub transmitting: bool,
}

impl LoopbackRadio {
    /// A radio with empty queues.
    pub fn new() -> (r: Self)
        ensures
            r.rx_queue@.len() == 0,
            r.sent@.len() == 0,
    {
        LoopbackRadio { rx_queue: Vec::new(), sent: Vec::new(), transmitting: false }
    }
}

impl Radio<u8> for LoopbackRadio {
    fn init<D: Delay>(&mut self, _delay: &mut D) -> Result<(), u8> {
        Ok(())
    }

    fn transmit(&mut self, payload: &Payload) -> Result<Option<bool>, u8> {
        self.sent.push(payload.clone());
        Ok(Some(true))
    }

    fn transmit_start(&mut self, payload: &Payload) -> Result<(), u8> {
        self.sent.push(payload.clone());
        self.transmitting = true;
        Ok(())
    }

    fn transmit_poll(&mut self) -> NbResult<bool, u8> {
        if self.transmitting {
            self.transmitting = false;
            Ok(true)
        } else {
            Err(NbError::WouldBlock)
        }
    }

    fn receive(&mut self, rx_addresses: Option<&[u16]>) -> NbResult<Payload, u8> {
        if self.rx_queue.len() == 0 {
            return Err(NbError::WouldBlock);
        }
        let payload = self.rx_queue.remove(0);
        if payload_accepted(&payload, rx_addresses) {
            Ok(payload)
        } else {
            Err(NbError::WouldBlock)
        }
    }

    fn set_rx_filter(&mut self, _rx_pipes: &[u8]) -> Result<(), u8> {
        Ok(())
    }

    fn to_rx(&mut self) -> Result<(), u8> {
        Ok(())
    }

    fn to_tx(&mut self) -> Result<(), u8> {
        Ok(())
    }

    fn to_idle(&mut self) -> Result<(), u8> {
        Ok(())
    }

    fn flush_rx(&mut self) -> Result<(), u8> {
        Ok(())
    }

    fn flush_tx(&mut self) -> Result<(), u8> {
        Ok(())
    }
}

} // verus!
