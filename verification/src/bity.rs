//! MSB-first bit packing and unpacking over a byte buffer.
//!
//! The specification models a byte buffer as a *bit stream* ([`stream`]):
//! bit `i` of the stream is bit `7 - i % 8` of byte `i / 8`, so every byte
//! contributes its bits most significant first.  [`BitWriter`] appends bits
//! to the stream, [`BitReader`] consumes them; both keep a cursor into the
//! stream and fail exactly when asked to move it past the end.

use vstd::prelude::*;
use vstd::slice::slice_to_vec;

verus! {

/// A bit-level codec failure: the writer ran past the end of its buffer, or
/// the reader was asked for more bits than the buffer holds.
#[derive(Clone, Copy, Debug, PartialEq, Eq, Structural)]
pub enum Error {
    BufferOverflow,
    BufferUnderflow,
}

/// True iff bit `k` (counting from the least significant end) of `v` is set.
pub open spec fn bit_at(v: u32, k: u32) -> bool {
    (v >> k) & 1 == 1
}

/// True iff bit `k` (counting from the least significant end) of byte `b` is set.
pub open spec fn byte_bit(b: u8, k: u32) -> bool {
    (b >> k) & 1 == 1
}

/// The low `w` bits of `v`, most significant first.
pub open spec fn bits_of(v: u32, w: u32) -> Seq<bool>
    recommends
        w <= 32,
{
    Seq::new(w as nat, |i: int| bit_at(v, (w - 1 - i) as u32))
}

/// A byte buffer as a bit stream: bit `i` of the stream is bit `7 - i % 8` of
/// byte `i / 8`.
pub open spec fn stream(bytes: Seq<u8>) -> Seq<bool> {
    Seq::new(bytes.len() * 8, |i: int| byte_bit(bytes[i / 8], (7 - i % 8) as u32))
}

/// The value of the `w` bits of `s` that start at `pos`, most significant
/// first.
pub open spec fn read_val(s: Seq<bool>, pos: int, w: int) -> u32
    decreases w,
{
    if w <= 0 {
        0u32
    } else {
        (read_val(s, pos, w - 1) << 1u32) | (if s[pos + w - 1] { 1u32 } else { 0u32 })
    }
}

/// All ones in the low `w` bits.
pub open spec fn mask(w: u32) -> u32 {
    if w >= 32 {
        0xffff_ffffu32
    } else {
        ((1u32 << w) - 1) as u32
    }
}

/// `piece` stands in `s` at position `pos`.
pub open spec fn at(s: Seq<bool>, pos: int, piece: Seq<bool>) -> bool {
    &&& 0 <= pos
    &&& pos + piece.len() <= s.len()
    &&& forall|j: int| 0 <= j < piece.len() ==> s[pos + j] == piece[j]
}

/// `new_s` is `old_s` of the same length with `piece` written at position
/// `c0`: every bit before `c0` is unchanged and the bits of `piece` stand at
/// `c0`.  Bits after the piece are left unconstrained.
pub open spec fn appended(old_s: Seq<bool>, new_s: Seq<bool>, c0: int, piece: Seq<bool>) -> bool {
    &&& new_s.len() == old_s.len()
    &&& 0 <= c0
    &&& (forall|i: int| 0 <= i < c0 ==> new_s[i] == old_s[i])
    &&& at(new_s, c0, piece)
}

/// Two consecutive writes compose into one write of the concatenation.
pub proof fn lemma_appended_trans(
    s0: Seq<bool>,
    s1: Seq<bool>,
    s2: Seq<bool>,
    c0: int,
    p1: Seq<bool>,
    p2: Seq<bool>,
)
    requires
        appended(s0, s1, c0, p1),
        appended(s1, s2, c0 + p1.len(), p2),
    ensures
        appended(s0, s2, c0, p1 + p2),
{
    assert forall|i: int| 0 <= i < c0 implies s2[i] == s0[i] by {
        assert(s2[i] == s1[i]);
    }
    assert forall|j: int| 0 <= j < (p1 + p2).len() implies s2[c0 + j] == (p1 + p2)[j] by {
        if j < p1.len() {
            assert(s2[c0 + j] == s1[c0 + j]);
            assert(s1[c0 + j] == p1[j]);
        } else {
            assert(s2[c0 + p1.len() + (j - p1.len())] == p2[j - p1.len()]);
        }
    }
}

/// A concatenation standing at `pos` splits into its parts.
pub proof fn lemma_at_concat(s: Seq<bool>, pos: int, p1: Seq<bool>, p2: Seq<bool>)
    requires
        at(s, pos, p1 + p2),
    ensures
        at(s, pos, p1),
        at(s, pos + p1.len(), p2),
{
    assert forall|j: int| 0 <= j < p1.len() implies s[pos + j] == p1[j] by {
        assert(s[pos + j] == (p1 + p2)[j]);
    }
    assert forall|j: int| 0 <= j < p2.len() implies s[pos + p1.len() + j] == p2[j] by {
        assert(s[pos + (p1.len() + j)] == (p1 + p2)[p1.len() + j]);
    }
}

/// Reading back `w` bits written from `v` yields the low `w` bits of `v`.
pub proof fn lemma_read_val_of_bits(s: Seq<bool>, pos: int, v: u32, w: u32)
    requires
        w <= 32,
        at(s, pos, bits_of(v, w)),
    ensures
        read_val(s, pos, w as int) == v & mask(w),
    decreases w,
{
    if w == 0 {
        assert(v & mask(0) == 0) by (bit_vector);
    } else {
        let w1 = (w - 1) as u32;
        assert forall|j: int| 0 <= j < w1 implies s[pos + j] == bits_of(v >> 1u32, w1)[j] by {
            assert(s[pos + j] == bits_of(v, w)[j]);
            let ka = (w1 - 1 - j) as u32;
            let kb = (w - 1 - j) as u32;
            assert(bit_at(v >> 1u32, ka) == bit_at(v, kb)) by (bit_vector)
                requires
                    ka < 31u32,
                    kb == ka + 1,
            ;
        }
        lemma_read_val_of_bits(s, pos, v >> 1u32, w1);
        let rv1 = read_val(s, pos, w1 as int);
        let b: u32 = if s[pos + w - 1] {
            1u32
        } else {
            0u32
        };
        assert(s[pos + w - 1] == bits_of(v, w)[w - 1]);
        assert(bits_of(v, w)[w - 1] == bit_at(v, 0));
        assert(b == v & 1) by (bit_vector)
            requires
                b == (if (v >> 0u32) & 1 == 1 {
                    1u32
                } else {
                    0u32
                }),
        ;
        assert((((v >> 1u32) & mask(w1)) << 1u32) | (v & 1) == v & mask(w)) by (bit_vector)
            requires
                1 <= w <= 32,
                w1 == w - 1,
        ;
        assert(read_val(s, pos, w as int) == (rv1 << 1u32) | b);
    }
}

/// The value read from `w` bits fits in `w` bits.
pub proof fn lemma_read_val_bound(s: Seq<bool>, pos: int, w: u32)
    requires
        w <= 32,
    ensures
        read_val(s, pos, w as int) <= mask(w),
    decreases w,
{
    if w == 0 {
        assert(mask(0) == 0) by (bit_vector);
    } else {
        let w1 = (w - 1) as u32;
        lemma_read_val_bound(s, pos, w1);
        let rv1 = read_val(s, pos, w - 1);
        let b: u32 = if s[pos + w - 1] {
            1u32
        } else {
            0u32
        };
        assert((rv1 << 1u32) | b <= mask(w)) by (bit_vector)
            requires
                1 <= w <= 32,
                w1 == w - 1,
                b <= 1,
                rv1 <= mask(w1),
        ;
    }
}

proof fn lemma_div8(bp: int, off: int)
    by (nonlinear_arith)
    requires
        0 <= off < 8,
        0 <= bp,
    ensures
        (8 * bp + off) / 8 == bp,
        (8 * bp + off) % 8 == off,
{
}

proof fn lemma_div8_bounds(i: int, l: int)
    by (nonlinear_arith)
    requires
        0 <= i < 8 * l,
    ensures
        0 <= i / 8 < l,
        0 <= i % 8 < 8,
        i == 8 * (i / 8) + i % 8,
{
}

proof fn lemma_set_bit(b: u8, shift: u8, bv: u8)
    by (bit_vector)
    requires
        shift < 8,
        bv < 2,
    ensures
        forall|k: u32|
            k < 8 && k != shift ==> #[trigger] byte_bit((b & !(1u8 << shift)) | (bv << shift), k)
                == byte_bit(b, k),
        byte_bit((b & !(1u8 << shift)) | (bv << shift), shift as u32) == (bv == 1),
{
}

/// Writes bits into a byte buffer, most significant bit of each byte first.
pub struct BitWriter {
    buffer: Vec<u8>,
    byte_pos: usize,
    bit_pos: u8,
}

impl BitWriter {
    /// The buffer contents.
    pub closed spec fn bytes(&self) -> Seq<u8> {
        self.buffer@
    }

    /// The index of the next bit to be written.
    pub closed spec fn cursor(&self) -> int {
        self.byte_pos as int * 8 + self.bit_pos as int
    }

    /// The cursor lies within the buffer.
    pub closed spec fn wf(&self) -> bool {
        self.bit_pos < 8 && self.cursor() <= self.bytes().len() * 8
    }

    /// Takes ownership of the buffer to be written into; writing starts at
    /// its first bit.
    pub fn new(buffer: Vec<u8>) -> (w: Self)
        ensures
            w.wf(),
            w.bytes() == buffer@,
            w.cursor() == 0,
    {
        BitWriter { buffer, byte_pos: 0, bit_pos: 0 }
    }

    /// Writes the low `bits` bits of `value` at the cursor, most significant
    /// first.  Fails with `BufferOverflow` exactly when fewer than `bits`
    /// bits of buffer remain; bits before the cursor are never disturbed.
    pub fn write_bits(&mut self, value: u32, bits: u8) -> (r: Result<(), Error>)
        requires
            old(self).wf(),
            bits <= 32,
        ensures
            final(self).wf(),
            final(self).bytes().len() == old(self).bytes().len(),
            match r {
                Ok(()) => {
                    &&& old(self).cursor() + bits <= old(self).bytes().len() * 8
                    &&& final(self).cursor() == old(self).cursor() + bits
                    &&& appended(
                        stream(old(self).bytes()),
                        stream(final(self).bytes()),
                        old(self).cursor(),
                        bits_of(value, bits as u32),
                    )
                },
                Err(e) => {
                    &&& e == Error::BufferOverflow
                    &&& old(self).cursor() + bits > old(self).bytes().len() * 8
                    &&& forall|i: int|
                        0 <= i < old(self).cursor() ==> stream(final(self).bytes())[i] == stream(
                            old(self).bytes(),
                        )[i]
                },
            },
    {
        let w = bits;
        let ghost c0 = old(self).cursor();
        let ghost s0 = stream(old(self).bytes());
        let mut j: u8 = 0;
        while j < w
            invariant
                self.wf(),
                w == bits,
                w <= 32,
                j <= w,
                self.bytes().len() == old(self).bytes().len(),
                self.cursor() == c0 + j,
                c0 == old(self).cursor(),
                s0 == stream(old(self).bytes()),
                appended(s0, stream(self.bytes()), c0, bits_of(value, w as u32).take(j as int)),
            decreases w - j,
        {
            let i: u8 = w - 1 - j;
            let bit: u32 = (value >> (i as u32)) & 1;
            proof {
                assert(bit < 2 && (bit == 1) == bit_at(value, i as u32)) by (bit_vector)
                    requires
                        bit == (value >> (i as u32)) & 1,
                ;
            }
            if self.byte_pos >= self.buffer.len() {
                proof {
                    assert(self.cursor() == self.bytes().len() * 8);
                }
                return Err(Error::BufferOverflow);
            }
            let shift: u8 = 7 - self.bit_pos;
            let ghost s_pre = self.bytes();
            let ghost c = self.cursor();
            proof {
                lemma_div8(self.byte_pos as int, self.bit_pos as int);
            }
            let b: u8 = self.buffer[self.byte_pos];
            let nb: u8 = (b & !(1u8 << shift)) | ((bit as u8) << shift);
            self.buffer.set(self.byte_pos, nb);
            proof {
                lemma_set_bit(b, shift, bit as u8);
                let l = self.bytes().len() as int;
                assert forall|ix: int| 0 <= ix < 8 * l && ix != c implies stream(self.bytes())[ix]
                    == stream(s_pre)[ix] by {
                    lemma_div8_bounds(ix, l);
                    if ix / 8 == self.byte_pos as int {
                        assert(ix % 8 != self.bit_pos as int);
                        assert((7 - ix % 8) as u32 != shift as u32);
                        assert(self.bytes()[ix / 8] == nb);
                    } else {
                        assert(self.bytes()[ix / 8] == s_pre[ix / 8]);
                    }
                }
                assert(c / 8 == self.byte_pos as int && c % 8 == self.bit_pos as int);
                assert(stream(self.bytes())[c] == byte_bit(nb, shift as u32));
                assert(stream(self.bytes())[c] == bit_at(value, i as u32));
                assert(bits_of(value, w as u32)[j as int] == bit_at(value, i as u32));
                let piece = bits_of(value, w as u32);
                assert forall|j2: int| 0 <= j2 < j + 1 implies #[trigger] stream(
                    self.bytes(),
                )[c0 + j2] == piece.take(j as int + 1)[j2] by {
                    if j2 < j {
                        assert(stream(s_pre)[c0 + j2] == piece.take(j as int)[j2]);
                    }
                }
                assert(piece.take(j as int + 1).len() == j + 1);
            }
            self.bit_pos = self.bit_pos + 1;
            if self.bit_pos == 8 {
                self.byte_pos = self.byte_pos + 1;
                self.bit_pos = 0;
            }
            j = j + 1;
        }
        proof {
            assert(bits_of(value, w as u32).take(w as int) =~= bits_of(value, w as u32));
        }
        Ok(())
    }

    /// Returns the number of whole bytes touched so far, rounding up when the
    /// last byte is only partly filled; the cursor moves to that byte
    /// boundary.
    pub fn finalize(&mut self) -> (n: usize)
        requires
            old(self).wf(),
        ensures
            final(self).wf(),
            final(self).bytes() == old(self).bytes(),
            n == (old(self).cursor() + 7) / 8,
            final(self).cursor() == n * 8,
    {
        proof {
            if self.bit_pos != 0 {
                lemma_div8(self.byte_pos as int + 1, self.bit_pos as int - 1);
            } else {
                lemma_div8(self.byte_pos as int, 7);
            }
        }
        let l = self.buffer.len();
        if self.bit_pos != 0 {
            proof {
                assert(self.byte_pos < l);
            }
            self.byte_pos = self.byte_pos + 1;
            self.bit_pos = 0;
        }
        self.byte_pos
    }

    /// Hands the buffer back.
    pub fn into_buffer(self) -> (buffer: Vec<u8>)
        ensures
            buffer@ == self.bytes(),
    {
        self.buffer
    }
}

/// Reads bits from a byte buffer, most significant bit of each byte first.
pub struct BitReader {
    buffer: Vec<u8>,
    byte_pos: usize,
    bit_pos: u8,
}

impl BitReader {
    /// The buffer contents.
    pub closed spec fn bytes(&self) -> Seq<u8> {
        self.buffer@
    }

    /// The index of the next bit to be read.
    pub closed spec fn cursor(&self) -> int {
        self.byte_pos as int * 8 + self.bit_pos as int
    }

    /// The cursor lies within the buffer.
    pub closed spec fn wf(&self) -> bool {
        self.bit_pos < 8 && self.cursor() <= self.bytes().len() * 8
    }

    /// Starts reading at the first bit of `buffer`.
    pub fn new(buffer: &[u8]) -> (r: Self)
        ensures
            r.wf(),
            r.bytes() == buffer@,
            r.cursor() == 0,
    {
        BitReader { buffer: slice_to_vec(buffer), byte_pos: 0, bit_pos: 0 }
    }

    /// Reads `bits` bits at the cursor, most significant first.  Fails with
    /// `BufferUnderflow` exactly when fewer than `bits` bits remain.
    pub fn read_bits(&mut self, bits: u8) -> (r: Result<u32, Error>)
        requires
            old(self).wf(),
            bits <= 32,
        ensures
            final(self).wf(),
            final(self).bytes() == old(self).bytes(),
            match r {
                Ok(v) => {
                    &&& old(self).cursor() + bits <= old(self).bytes().len() * 8
                    &&& final(self).cursor() == old(self).cursor() + bits
                    &&& v == read_val(stream(old(self).bytes()), old(self).cursor(), bits as int)
                    &&& v <= mask(bits as u32)
                },
                Err(e) => {
                    &&& e == Error::BufferUnderflow
                    &&& old(self).cursor() + bits > old(self).bytes().len() * 8
                    &&& final(self).cursor() == old(self).bytes().len() * 8
                },
            },
    {
        let w = bits;
        let ghost c0 = old(self).cursor();
        let ghost s = stream(self.bytes());
        let mut value: u32 = 0;
        let mut j: u8 = 0;
        while j < w
            invariant
                self.wf(),
                w == bits,
                w <= 32,
                j <= w,
                self.bytes() == old(self).bytes(),
                self.cursor() == c0 + j,
                c0 == old(self).cursor(),
                s == stream(self.bytes()),
                value == read_val(s, c0, j as int),
                value <= mask(j as u32),
            decreases w - j,
        {
            if self.byte_pos >= self.buffer.len() {
                proof {
                    assert(self.cursor() == self.bytes().len() * 8);
                }
                return Err(Error::BufferUnderflow);
            }
            proof {
                lemma_div8(self.byte_pos as int, self.bit_pos as int);
            }
            let b: u8 = self.buffer[self.byte_pos];
            let shift: u8 = 7 - self.bit_pos;
            let bit: u32 = ((b >> shift) & 1) as u32;
            proof {
                let c = self.cursor();
                assert(stream(self.bytes())[c] == byte_bit(b, shift as u32));
                assert(bit < 2 && (bit == 1) == byte_bit(b, shift as u32)) by (bit_vector)
                    requires
                        bit == ((b >> shift) & 1) as u32,
                ;
                let v1 = value;
                let j1 = (j + 1) as u32;
                assert((v1 << 1u32) | bit <= mask(j1)) by (bit_vector)
                    requires
                        v1 <= mask(j as u32),
                        bit < 2,
                        j < 32,
                        j1 == j + 1,
                ;
            }
            value = (value << 1u32) | bit;
            self.bit_pos = self.bit_pos + 1;
            if self.bit_pos == 8 {
                self.byte_pos = self.byte_pos + 1;
                self.bit_pos = 0;
            }
            j = j + 1;
        }
        Ok(value)
    }

    /// Returns the number of whole bytes consumed so far, rounding up when
    /// the cursor stands inside a byte; the cursor moves to that byte
    /// boundary.
    pub fn finalize(&mut self) -> (n: usize)
        requires
            old(self).wf(),
        ensures
            final(self).wf(),
            final(self).bytes() == old(self).bytes(),
            n == (old(self).cursor() + 7) / 8,
            final(self).cursor() == n * 8,
    {
        proof {
            if self.bit_pos != 0 {
                lemma_div8(self.byte_pos as int + 1, self.bit_pos as int - 1);
            } else {
                lemma_div8(self.byte_pos as int, 7);
            }
        }
        let l = self.buffer.len();
        if self.bit_pos != 0 {
            proof {
                assert(self.byte_pos < l);
            }
            self.byte_pos = self.byte_pos + 1;
            self.bit_pos = 0;
        }
        self.byte_pos
    }
}


/// A well-formed reader's cursor lies between the start and the end of its
/// buffer.
pub proof fn lemma_reader_in_bounds(r: &BitReader)
    requires
        r.wf(),
    ensures
        0 <= r.cursor() <= r.bytes().len() * 8,
{
}

} // verus!
