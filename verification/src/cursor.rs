//! The byte cursor: an ordered, finite sequence of bytes plus a read
//! position, exclusively owned by one generation call. Each primitive read
//! advances the position by exactly the bytes it consumed; a read that would
//! run past the end fails with [`DecodeError::InsufficientData`] and consumes
//! nothing. Multi-byte integers are read little-endian.

use crate::value::DecodeError;
use vstd::prelude::*;

verus! {

/// The mathematical state of a byte cursor: its bytes and its read position.
pub struct CursorModel {
    pub bytes: Seq<u8>,
    pub pos: int,
}

/// A finite byte buffer plus a read position.
pub struct ByteCursor {
    data: Vec<u8>,
    pos: usize,
}

/// What reading one unsigned byte returns, and the position after it.
pub open spec fn spec_read_u8(bytes: Seq<u8>, pos: int) -> (Result<u8, DecodeError>, int) {
    if 0 <= pos < bytes.len() {
        (Ok(bytes[pos]), pos + 1)
    } else {
        (Err(DecodeError::InsufficientData), pos)
    }
}

/// The unsigned 64-bit integer held little-endian in the eight bytes at `pos`.
pub open spec fn spec_u64_le(bytes: Seq<u8>, pos: int) -> u64 {
    (bytes[pos] as u64) | ((bytes[pos + 1] as u64) << 8) | ((bytes[pos + 2] as u64) << 16) | ((
    bytes[pos + 3] as u64) << 24) | ((bytes[pos + 4] as u64) << 32) | ((bytes[pos + 5] as u64)
        << 40) | ((bytes[pos + 6] as u64) << 48) | ((bytes[pos + 7] as u64) << 56)
}

/// What reading a little-endian unsigned 64-bit integer returns, and the
/// position after it.
pub open spec fn spec_read_u64(bytes: Seq<u8>, pos: int) -> (Result<u64, DecodeError>, int) {
    if 0 <= pos && pos + 8 <= bytes.len() {
        (Ok(spec_u64_le(bytes, pos)), pos + 8)
    } else {
        (Err(DecodeError::InsufficientData), pos)
    }
}

/// Reads one unsigned byte at `pos`, consuming nothing on failure.
pub(crate) fn read_u8_at(bytes: &Vec<u8>, pos: usize) -> (r: (Result<u8, DecodeError>, usize))
    requires
        pos <= bytes@.len(),
    ensures
        r.0 == spec_read_u8(bytes@, pos as int).0,
        r.1 as int == spec_read_u8(bytes@, pos as int).1,
        pos <= r.1 <= bytes@.len(),
{
    if pos < bytes.len() {
        (Ok(bytes[pos]), pos + 1)
    } else {
        (Err(DecodeError::InsufficientData), pos)
    }
}

/// Reads a little-endian unsigned 64-bit integer at `pos`, consuming nothing
/// on failure.
pub(crate) fn read_u64_at(bytes: &Vec<u8>, pos: usize) -> (r: (Result<u64, DecodeError>, usize))
    requires
        pos <= bytes@.len(),
    ensures
        r.0 == spec_read_u64(bytes@, pos as int).0,
        r.1 as int == spec_read_u64(bytes@, pos as int).1,
        pos <= r.1 <= bytes@.len(),
{
    if bytes.len() - pos >= 8 {
        let v = (bytes[pos] as u64) | ((bytes[pos + 1] as u64) << 8) | ((bytes[pos + 2] as u64)
            << 16) | ((bytes[pos + 3] as u64) << 24) | ((bytes[pos + 4] as u64) << 32) | ((
        bytes[pos + 5] as u64) << 40) | ((bytes[pos + 6] as u64) << 48) | ((bytes[pos + 7] as u64)
            << 56);
        (Ok(v), pos + 8)
    } else {
        (Err(DecodeError::InsufficientData), pos)
    }
}

impl View for ByteCursor {
    type V = CursorModel;

    closed spec fn view(&self) -> CursorModel {
        CursorModel { bytes: self.data@, pos: self.pos as int }
    }
}

impl ByteCursor {
    /// The read position never lies past the end of the buffer.
    pub open spec fn inv(self) -> bool {
        0 <= self@.pos <= self@.bytes.len()
    }

    /// Makes a cursor over `data`, positioned at its start.
    pub fn new(data: Vec<u8>) -> (c: ByteCursor)
        ensures
            c@.bytes == data@,
            c@.pos == 0,
            c.inv(),
    {
        ByteCursor { data, pos: 0 }
    }

    /// The current read position, counted in bytes from the start.
    pub fn position(&self) -> (p: usize)
        ensures
            p as int == self@.pos,
    {
        self.pos
    }

    /// How many bytes remain to be read.
    pub fn remaining(&self) -> (n: usize)
        requires
            self.inv(),
        ensures
            n as int == self@.bytes.len() - self@.pos,
    {
        self.data.len() - self.pos
    }

    /// The underlying buffer.
    pub(crate) fn buffer(&self) -> (b: &Vec<u8>)
        ensures
            b@ == self@.bytes,
    {
        &self.data
    }

    /// Moves the read position to `p`.
    pub(crate) fn advance_to(&mut self, p: usize)
        requires
            p as int <= old(self)@.bytes.len(),
        ensures
            final(self)@.bytes == old(self)@.bytes,
            final(self)@.pos == p as int,
            final(self).inv(),
    {
        self.pos = p;
    }

    /// Reads one unsigned byte.
    pub fn read_u8(&mut self) -> (r: Result<u8, DecodeError>)
        requires
            old(self).inv(),
        ensures
            final(self).inv(),
            final(self)@.bytes == old(self)@.bytes,
            r == spec_read_u8(old(self)@.bytes, old(self)@.pos).0,
            final(self)@.pos == spec_read_u8(old(self)@.bytes, old(self)@.pos).1,
    {
        let (r, p) = read_u8_at(&self.data, self.pos);
        self.pos = p;
        r
    }

    /// Reads one byte and interprets its lowest bit: odd is `true`, even is
    /// `false`.
    pub fn read_bool(&mut self) -> (r: Result<bool, DecodeError>)
        requires
            old(self).inv(),
        ensures
            final(self).inv(),
            final(self)@.bytes == old(self)@.bytes,
            final(self)@.pos == spec_read_u8(old(self)@.bytes, old(self)@.pos).1,
            ({
                let (br, _) = spec_read_u8(old(self)@.bytes, old(self)@.pos);
                match (r, br) {
                    (Ok(b), Ok(byte)) => b == (byte & 1 == 1),
                    (Err(e), Err(be)) => e == be,
                    _ => false,
                }
            }),
    {
        let (r, p) = read_u8_at(&self.data, self.pos);
        self.pos = p;
        match r {
            Ok(byte) => Ok(byte & 1 == 1),
            Err(e) => Err(e),
        }
    }

    /// Reads a little-endian unsigned 64-bit integer.
    pub fn read_u64(&mut self) -> (r: Result<u64, DecodeError>)
        requires
            old(self).inv(),
        ensures
            final(self).inv(),
            final(self)@.bytes == old(self)@.bytes,
            r == spec_read_u64(old(self)@.bytes, old(self)@.pos).0,
            final(self)@.pos == spec_read_u64(old(self)@.bytes, old(self)@.pos).1,
    {
        let (r, p) = read_u64_at(&self.data, self.pos);
        self.pos = p;
        r
    }

    /// Reads a little-endian signed 64-bit integer: the two's complement
    /// reinterpretation of the unsigned read.
    pub fn read_i64(&mut self) -> (r: Result<i64, DecodeError>)
        requires
            old(self).inv(),
        ensures
            final(self).inv(),
            final(self)@.bytes == old(self)@.bytes,
            final(self)@.pos == spec_read_u64(old(self)@.bytes, old(self)@.pos).1,
            ({
                let (ur, _) = spec_read_u64(old(self)@.bytes, old(self)@.pos);
                match (r, ur) {
                    (Ok(i), Ok(u)) => i == u as i64,
                    (Err(e), Err(ue)) => e == ue,
                    _ => false,
                }
            }),
    {
        let (r, p) = read_u64_at(&self.data, self.pos);
        self.pos = p;
        match r {
            Ok(u) => Ok(u as i64),
            Err(e) => Err(e),
        }
    }
}

} // verus!
