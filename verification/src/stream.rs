//! Sequential big-endian read/write primitives over byte buffers.
//!
//! `OutOctetStream` grows an output buffer; `InOctetStream` is a
//! position-tracked cursor over an input buffer whose reads fail with
//! `DecodeError::UnexpectedEndOfInput` instead of running past the end.

use vstd::prelude::*;

verus! {

/// Why a decode call failed.
#[derive(Debug, Clone, Copy, PartialEq, Eq)]
pub enum DecodeError {
    /// A read asked for more bytes than remain in the buffer.
    UnexpectedEndOfInput,
    /// The leading type-discriminator byte matches no known command;
    /// the offending byte is carried for diagnostics.
    UnknownCommandType(u8),
}

/// The two big-endian bytes of a 16-bit value, most significant first.
pub open spec fn u16_be_bytes(v: u16) -> Seq<u8> {
    seq![((v >> 8) & 0xff) as u8, (v & 0xff) as u8]
}

/// The eight big-endian bytes of a 64-bit value, most significant first.
pub open spec fn u64_be_bytes(v: u64) -> Seq<u8> {
    seq![
        ((v >> 56) & 0xff) as u8,
        ((v >> 48) & 0xff) as u8,
        ((v >> 40) & 0xff) as u8,
        ((v >> 32) & 0xff) as u8,
        ((v >> 24) & 0xff) as u8,
        ((v >> 16) & 0xff) as u8,
        ((v >> 8) & 0xff) as u8,
        (v & 0xff) as u8,
    ]
}

/// The 16-bit value whose big-endian bytes are `hi`, `lo`.
pub open spec fn be16(hi: u8, lo: u8) -> u16 {
    ((hi as u16) << 8) | (lo as u16)
}

/// The 64-bit value whose big-endian bytes are `b[0]` through `b[7]`.
pub open spec fn be64(b: Seq<u8>) -> u64
    recommends
        b.len() == 8,
{
    ((b[0] as u64) << 56) | ((b[1] as u64) << 48) | ((b[2] as u64) << 40) | ((b[3] as u64) << 32)
        | ((b[4] as u64) << 24) | ((b[5] as u64) << 16) | ((b[6] as u64) << 8) | (b[7] as u64)
}

/// Recomposing the two big-endian bytes of a 16-bit value gives it back.
pub proof fn lemma_be16_round_trip(v: u16)
    ensures
        be16(u16_be_bytes(v)[0], u16_be_bytes(v)[1]) == v,
{
    assert(((((v >> 8) & 0xff) as u8 as u16) << 8) | ((v & 0xff) as u8 as u16) == v)
        by (bit_vector);
}

/// Recomposing the eight big-endian bytes of a 64-bit value gives it back.
pub proof fn lemma_be64_round_trip(v: u64)
    ensures
        be64(u64_be_bytes(v)) == v,
{
    assert(((((v >> 56) & 0xff) as u8 as u64) << 56) | ((((v >> 48) & 0xff) as u8 as u64) << 48)
        | ((((v >> 40) & 0xff) as u8 as u64) << 40) | ((((v >> 32) & 0xff) as u8 as u64) << 32)
        | ((((v >> 24) & 0xff) as u8 as u64) << 24) | ((((v >> 16) & 0xff) as u8 as u64) << 16)
        | ((((v >> 8) & 0xff) as u8 as u64) << 8) | ((v & 0xff) as u8 as u64) == v)
        by (bit_vector);
}

/// Growable output buffer: writes append big-endian bytes and never fail.
pub struct OutOctetStream {
    pub data: Vec<u8>,
}

impl OutOctetStream {
    /// A fresh, empty output buffer.
    pub fn new() -> (s: Self)
        ensures
            s.data@ == Seq::<u8>::empty(),
    {
        OutOctetStream { data: Vec::new() }
    }

    /// Appends one byte.
    pub fn write_u8(&mut self, v: u8)
        ensures
            final(self).data@ == old(self).data@.push(v),
    {
        self.data.push(v);
    }

    /// Appends the two big-endian bytes of `v`.
    pub fn write_u16(&mut self, v: u16)
        ensures
            final(self).data@ == old(self).data@ + u16_be_bytes(v),
    {
        self.data.push(((v >> 8) & 0xff) as u8);
        self.data.push((v & 0xff) as u8);
        assert(self.data@ =~= old(self).data@ + u16_be_bytes(v));
    }

    /// Appends the eight big-endian bytes of `v`.
    pub fn write_u64(&mut self, v: u64)
        ensures
            final(self).data@ == old(self).data@ + u64_be_bytes(v),
    {
        self.data.push(((v >> 56) & 0xff) as u8);
        self.data.push(((v >> 48) & 0xff) as u8);
        self.data.push(((v >> 40) & 0xff) as u8);
        self.data.push(((v >> 32) & 0xff) as u8);
        self.data.push(((v >> 24) & 0xff) as u8);
        self.data.push(((v >> 16) & 0xff) as u8);
        self.data.push(((v >> 8) & 0xff) as u8);
        self.data.push((v & 0xff) as u8);
        assert(self.data@ =~= old(self).data@ + u64_be_bytes(v));
    }
}

/// Position-tracked cursor over an input buffer. Reads advance the
/// position by the field width; a read past the end fails and leaves
/// the cursor where it was.
pub struct InOctetStream {
    pub data: Vec<u8>,
    pub pos: usize,
}

impl InOctetStream {
    /// The cursor position never passes the end of the buffer.
    pub open spec fn wf(self) -> bool {
        self.pos <= self.data@.len()
    }

    /// The bytes not yet consumed.
    pub open spec fn remaining(self) -> Seq<u8>
        recommends
            self.wf(),
    {
        self.data@.skip(self.pos as int)
    }

    /// A cursor at the start of `data`.
    pub fn new(data: Vec<u8>) -> (s: Self)
        ensures
            s.wf(),
            s.data@ == data@,
            s.pos == 0,
            s.remaining() == data@,
    {
        let s = InOctetStream { data, pos: 0 };
        assert(s.remaining() =~= s.data@);
        s
    }

    /// Reads one byte.
    pub fn read_u8(&mut self) -> (r: Result<u8, DecodeError>)
        requires
            old(self).wf(),
        ensures
            final(self).wf(),
            final(self).data@ == old(self).data@,
            match r {
                Ok(b) => {
                    &&& old(self).remaining().len() >= 1
                    &&& b == old(self).remaining()[0]
                    &&& final(self).pos == old(self).pos + 1
                },
                Err(e) => {
                    &&& e == DecodeError::UnexpectedEndOfInput
                    &&& old(self).remaining().len() < 1
                    &&& final(self).pos == old(self).pos
                },
            },
    {
        if self.pos < self.data.len() {
            let b = self.data[self.pos];
            self.pos = self.pos + 1;
            Ok(b)
        } else {
            Err(DecodeError::UnexpectedEndOfInput)
        }
    }

    /// Reads a 16-bit big-endian value.
    pub fn read_u16(&mut self) -> (r: Result<u16, DecodeError>)
        requires
            old(self).wf(),
        ensures
            final(self).wf(),
            final(self).data@ == old(self).data@,
            match r {
                Ok(v) => {
                    &&& old(self).remaining().len() >= 2
                    &&& v == be16(old(self).remaining()[0], old(self).remaining()[1])
                    &&& final(self).pos == old(self).pos + 2
                },
                Err(e) => {
                    &&& e == DecodeError::UnexpectedEndOfInput
                    &&& old(self).remaining().len() < 2
                    &&& final(self).pos == old(self).pos
                },
            },
    {
        if self.data.len() >= 2 && self.pos <= self.data.len() - 2 {
            let hi = self.data[self.pos];
            let lo = self.data[self.pos + 1];
            self.pos = self.pos + 2;
            Ok(((hi as u16) << 8) | (lo as u16))
        } else {
            Err(DecodeError::UnexpectedEndOfInput)
        }
    }

    /// Reads a 64-bit big-endian value.
    pub fn read_u64(&mut self) -> (r: Result<u64, DecodeError>)
        requires
            old(self).wf(),
        ensures
            final(self).wf(),
            final(self).data@ == old(self).data@,
            match r {
                Ok(v) => {
                    &&& old(self).remaining().len() >= 8
                    &&& v == be64(old(self).remaining().subrange(0, 8))
                    &&& final(self).pos == old(self).pos + 8
                },
                Err(e) => {
                    &&& e == DecodeError::UnexpectedEndOfInput
                    &&& old(self).remaining().len() < 8
                    &&& final(self).pos == old(self).pos
                },
            },
    {
        if self.data.len() >= 8 && self.pos <= self.data.len() - 8 {
            let b0 = self.data[self.pos];
            let b1 = self.data[self.pos + 1];
            let b2 = self.data[self.pos + 2];
            let b3 = self.data[self.pos + 3];
            let b4 = self.data[self.pos + 4];
            let b5 = self.data[self.pos + 5];
            let b6 = self.data[self.pos + 6];
            let b7 = self.data[self.pos + 7];
            self.pos = self.pos + 8;
            let v = ((b0 as u64) << 56) | ((b1 as u64) << 48) | ((b2 as u64) << 40)
                | ((b3 as u64) << 32) | ((b4 as u64) << 24) | ((b5 as u64) << 16)
                | ((b6 as u64) << 8) | (b7 as u64);
            proof {
                let rem = old(self).remaining();
                assert(rem.subrange(0, 8)[0] == b0);
                assert(rem.subrange(0, 8)[1] == b1);
                assert(rem.subrange(0, 8)[2] == b2);
                assert(rem.subrange(0, 8)[3] == b3);
                assert(rem.subrange(0, 8)[4] == b4);
                assert(rem.subrange(0, 8)[5] == b5);
                assert(rem.subrange(0, 8)[6] == b6);
                assert(rem.subrange(0, 8)[7] == b7);
            }
            Ok(v)
        } else {
            Err(DecodeError::UnexpectedEndOfInput)
        }
    }
}

} // verus!
