//! Low-level typed reads over an in-memory byte stream.
//!
//! `ByteFieldReader` is a cursor over a finite byte buffer. Every read takes
//! the little-endian fixed-width representation from the current position
//! and advances; when fewer bytes remain than a read requires it fails with
//! `TruncatedRead` and leaves the position unchanged. Text is decoded one
//! byte per character (the single-byte character width of the format).

use vstd::prelude::*;
use crate::errors::DecodeError;

verus! {

/// The little-endian 16-bit value stored at `b[i..i+2]`.
pub open spec fn le16(b: Seq<u8>, i: int) -> int {
    b[i] + 0x100 * b[i + 1]
}

/// The little-endian 32-bit value stored at `b[i..i+4]`.
pub open spec fn le32(b: Seq<u8>, i: int) -> int {
    le16(b, i) + 0x1_0000 * le16(b, i + 2)
}

/// The little-endian 64-bit value stored at `b[i..i+8]`.
pub open spec fn le64(b: Seq<u8>, i: int) -> int {
    le32(b, i) + 0x1_0000_0000 * le32(b, i + 4)
}

/// A 16-bit two's-complement reading of an unsigned value.
pub open spec fn as_i16(v: int) -> int {
    if v < 0x8000 {
        v
    } else {
        v - 0x1_0000
    }
}

/// A 32-bit two's-complement reading of an unsigned value.
pub open spec fn as_i32(v: int) -> int {
    if v < 0x8000_0000 {
        v
    } else {
        v - 0x1_0000_0000
    }
}

/// A 64-bit two's-complement reading of an unsigned value.
pub open spec fn as_i64(v: int) -> int {
    if v < 0x8000_0000_0000_0000 {
        v
    } else {
        v - 0x1_0000_0000_0000_0000
    }
}

/// The text a run of single-byte characters stands for: each byte is one
/// character with that code.
pub open spec fn single_byte_text(b: Seq<u8>) -> Seq<char> {
    Seq::new(b.len(), |i: int| (b[i] as u32) as char)
}

/// Relies on char::from_u32: returns the character with the given code
/// exactly when the code is a Unicode scalar value.
#[verifier::external_body]
fn char_from_u32(v: u32) -> (r: Option<char>)
    ensures
        r matches Some(c) ==> c as u32 == v,
        r is Some <==> (v < 0xD800 || (0xE000 <= v < 0x11_0000)),
{
    char::from_u32(v)
}

/// Relies on String::push: appends one character at the end.
#[verifier::external_body]
fn string_push(s: &mut String, c: char)
    ensures
        final(s)@ == old(s)@.push(c),
{
    s.push(c);
}

/// A cursor over a finite byte source with a current position.
pub struct ByteFieldReader {
    data: Vec<u8>,
    pos: usize,
}

impl ByteFieldReader {
    /// The bytes under the cursor.
    pub closed spec fn bytes(&self) -> Seq<u8> {
        self.data@
    }

    /// The current position; never beyond the end.
    pub closed spec fn position(&self) -> int {
        self.pos as int
    }

    pub open spec fn wf(&self) -> bool {
        0 <= self.position() <= self.bytes().len()
    }

    /// Bytes left between the position and the end.
    pub fn remaining(&self) -> (r: usize)
        requires
            self.wf(),
        ensures
            r == self.bytes().len() - self.position(),
            self.bytes().len() <= usize::MAX,
    {
        self.data.len() - self.pos
    }

    pub fn new(data: Vec<u8>) -> (r: ByteFieldReader)
        ensures
            r.bytes() == data@,
            r.position() == 0,
            r.wf(),
    {
        ByteFieldReader { data, pos: 0 }
    }

    /// Whether the stream is exhausted.
    pub fn at_end(&self) -> (r: bool)
        requires
            self.wf(),
        ensures
            r == (self.position() == self.bytes().len()),
    {
        self.pos == self.data.len()
    }

    /// One raw byte.
    pub fn byte(&mut self) -> (r: Result<u8, DecodeError>)
        requires
            old(self).wf(),
        ensures
            final(self).wf(),
            final(self).bytes() == old(self).bytes(),
            r matches Ok(v) ==> {
                &&& old(self).position() + 1 <= old(self).bytes().len()
                &&& v == old(self).bytes()[old(self).position()]
                &&& final(self).position() == old(self).position() + 1
            },
            r is Err <==> old(self).position() + 1 > old(self).bytes().len(),
            r matches Err(e) ==> e == DecodeError::TruncatedRead && *final(self) == *old(self),
    {
        if self.pos < self.data.len() {
            let b = self.data[self.pos];
            self.pos = self.pos + 1;
            Ok(b)
        } else {
            Err(DecodeError::TruncatedRead)
        }
    }

    /// A 2-byte little-endian unsigned value (ids, name lengths).
    pub fn ushort(&mut self) -> (r: Result<u16, DecodeError>)
        requires
            old(self).wf(),
        ensures
            final(self).wf(),
            final(self).bytes() == old(self).bytes(),
            r matches Ok(v) ==> {
                &&& old(self).position() + 2 <= old(self).bytes().len()
                &&& v == le16(old(self).bytes(), old(self).position())
                &&& final(self).position() == old(self).position() + 2
            },
            r is Err <==> old(self).position() + 2 > old(self).bytes().len(),
            r matches Err(e) ==> e == DecodeError::TruncatedRead && *final(self) == *old(self),
    {
        if self.remaining() >= 2 {
            let b0 = self.data[self.pos];
            let b1 = self.data[self.pos + 1];
            self.pos = self.pos + 2;
            Ok(b0 as u16 + 0x100 * (b1 as u16))
        } else {
            Err(DecodeError::TruncatedRead)
        }
    }

    /// A 2-byte little-endian signed value.
    pub fn short(&mut self) -> (r: Result<i16, DecodeError>)
        requires
            old(self).wf(),
        ensures
            final(self).wf(),
            final(self).bytes() == old(self).bytes(),
            r matches Ok(v) ==> {
                &&& old(self).position() + 2 <= old(self).bytes().len()
                &&& v == as_i16(le16(old(self).bytes(), old(self).position()))
                &&& final(self).position() == old(self).position() + 2
            },
            r is Err <==> old(self).position() + 2 > old(self).bytes().len(),
            r matches Err(e) ==> e == DecodeError::TruncatedRead && *final(self) == *old(self),
    {
        match self.ushort() {
            Ok(v) => {
                if v < 0x8000 {
                    Ok(v as i16)
                } else {
                    Ok((v as i32 - 0x1_0000) as i16)
                }
            },
            Err(e) => Err(e),
        }
    }

    /// A 4-byte little-endian unsigned value (sizes).
    pub fn uint(&mut self) -> (r: Result<u32, DecodeError>)
        requires
            old(self).wf(),
        ensures
            final(self).wf(),
            final(self).bytes() == old(self).bytes(),
            r matches Ok(v) ==> {
                &&& old(self).position() + 4 <= old(self).bytes().len()
                &&& v == le32(old(self).bytes(), old(self).position())
                &&& final(self).position() == old(self).position() + 4
            },
            r is Err <==> old(self).position() + 4 > old(self).bytes().len(),
            r matches Err(e) ==> e == DecodeError::TruncatedRead && *final(self) == *old(self),
    {
        if self.remaining() >= 4 {
            let b0 = self.data[self.pos] as u32;
            let b1 = self.data[self.pos + 1] as u32;
            let b2 = self.data[self.pos + 2] as u32;
            let b3 = self.data[self.pos + 3] as u32;
            self.pos = self.pos + 4;
            Ok(b0 + 0x100 * b1 + 0x1_0000 * (b2 + 0x100 * b3))
        } else {
            Err(DecodeError::TruncatedRead)
        }
    }

    /// A 4-byte little-endian signed value.
    pub fn integer(&mut self) -> (r: Result<i32, DecodeError>)
        requires
            old(self).wf(),
        ensures
            final(self).wf(),
            final(self).bytes() == old(self).bytes(),
            r matches Ok(v) ==> {
                &&& old(self).position() + 4 <= old(self).bytes().len()
                &&& v == as_i32(le32(old(self).bytes(), old(self).position()))
                &&& final(self).position() == old(self).position() + 4
            },
            r is Err <==> old(self).position() + 4 > old(self).bytes().len(),
            r matches Err(e) ==> e == DecodeError::TruncatedRead && *final(self) == *old(self),
    {
        match self.uint() {
            Ok(v) => {
                if v < 0x8000_0000 {
                    Ok(v as i32)
                } else {
                    Ok((v as i64 - 0x1_0000_0000) as i32)
                }
            },
            Err(e) => Err(e),
        }
    }

    /// An 8-byte little-endian unsigned value (the bit pattern of a double).
    pub fn ulong(&mut self) -> (r: Result<u64, DecodeError>)
        requires
            old(self).wf(),
        ensures
            final(self).wf(),
            final(self).bytes() == old(self).bytes(),
            r matches Ok(v) ==> {
                &&& old(self).position() + 8 <= old(self).bytes().len()
                &&& v == le64(old(self).bytes(), old(self).position())
                &&& final(self).position() == old(self).position() + 8
            },
            r is Err <==> old(self).position() + 8 > old(self).bytes().len(),
            r matches Err(e) ==> e == DecodeError::TruncatedRead && *final(self) == *old(self),
    {
        if self.remaining() >= 8 {
            let lo = match self.uint() {
                Ok(v) => v,
                Err(e) => {
                    return Err(e);
                },
            };
            let hi = match self.uint() {
                Ok(v) => v,
                Err(e) => {
                    return Err(e);
                },
            };
            Ok(lo as u64 + 0x1_0000_0000 * (hi as u64))
        } else {
            Err(DecodeError::TruncatedRead)
        }
    }

    /// An 8-byte little-endian signed value.
    pub fn longlong(&mut self) -> (r: Result<i64, DecodeError>)
        requires
            old(self).wf(),
        ensures
            final(self).wf(),
            final(self).bytes() == old(self).bytes(),
            r matches Ok(v) ==> {
                &&& old(self).position() + 8 <= old(self).bytes().len()
                &&& v == as_i64(le64(old(self).bytes(), old(self).position()))
                &&& final(self).position() == old(self).position() + 8
            },
            r is Err <==> old(self).position() + 8 > old(self).bytes().len(),
            r matches Err(e) ==> e == DecodeError::TruncatedRead && *final(self) == *old(self),
    {
        match self.ulong() {
            Ok(v) => {
                if v < 0x8000_0000_0000_0000 {
                    Ok(v as i64)
                } else {
                    Ok((v as i128 - 0x1_0000_0000_0000_0000) as i64)
                }
            },
            Err(e) => Err(e),
        }
    }

    /// The bit pattern of an 8-byte floating value followed by its 4-byte
    /// digits hint; the value bits are returned, the hint is discarded.
    pub fn double_bits(&mut self) -> (r: Result<u64, DecodeError>)
        requires
            old(self).wf(),
        ensures
            final(self).wf(),
            final(self).bytes() == old(self).bytes(),
            r matches Ok(v) ==> {
                &&& old(self).position() + 12 <= old(self).bytes().len()
                &&& v == le64(old(self).bytes(), old(self).position())
                &&& final(self).position() == old(self).position() + 12
            },
            r is Err <==> old(self).position() + 12 > old(self).bytes().len(),
            r matches Err(e) ==> e == DecodeError::TruncatedRead && *final(self) == *old(self),
    {
        if self.remaining() >= 12 {
            let bits = match self.ulong() {
                Ok(v) => v,
                Err(e) => {
                    return Err(e);
                },
            };
            match self.uint() {
                Ok(_digits) => Ok(bits),
                Err(e) => Err(e),
            }
        } else {
            Err(DecodeError::TruncatedRead)
        }
    }

    /// `n` bytes of text, one character per byte.
    pub fn string(&mut self, n: usize) -> (r: Result<String, DecodeError>)
        requires
            old(self).wf(),
        ensures
            final(self).wf(),
            final(self).bytes() == old(self).bytes(),
            r matches Ok(s) ==> {
                &&& old(self).position() + n <= old(self).bytes().len()
                &&& s@ == single_byte_text(
                    old(self).bytes().subrange(
                        old(self).position(),
                        old(self).position() + n,
                    ),
                )
                &&& final(self).position() == old(self).position() + n
            },
            r is Err <==> old(self).position() + n > old(self).bytes().len(),
            r matches Err(e) ==> e == DecodeError::TruncatedRead && *final(self) == *old(self),
    {
        if self.remaining() >= n {
            let ghost gdata: Seq<u8> = self.data@;
            let ghost start = self.pos as int;
            let mut out = String::new();
            let mut i: usize = 0;
            while i < n
                invariant
                    self.wf(),
                    self.pos == start + i,
                    0 <= start,
                    i <= n,
                    start + n <= gdata.len(),
                    gdata.len() <= usize::MAX,
                    self.data@ == gdata,
                    out@ == single_byte_text(gdata.subrange(start, start + i)),
                decreases n - i,
            {
                let b = self.data[self.pos];
                let c = match char_from_u32(b as u32) {
                    Some(c) => c,
                    None => {
                        proof {
                            assert(false);
                        }
                        ' '
                    },
                };
                string_push(&mut out, c);
                self.pos = self.pos + 1;
                i = i + 1;
                proof {
                    vstd::utf8::char_u32_cast(c, b as u32);
                    assert(out@ =~= single_byte_text(gdata.subrange(start, start + i)));
                }
            }
            Ok(out)
        } else {
            Err(DecodeError::TruncatedRead)
        }
    }

    /// The 1-byte field type code that introduces every field.
    pub fn field_type_code(&mut self) -> (r: Result<u8, DecodeError>)
        requires
            old(self).wf(),
        ensures
            final(self).wf(),
            final(self).bytes() == old(self).bytes(),
            r matches Ok(v) ==> {
                &&& old(self).position() + 1 <= old(self).bytes().len()
                &&& v == old(self).bytes()[old(self).position()]
                &&& final(self).position() == old(self).position() + 1
            },
            r is Err <==> old(self).position() + 1 > old(self).bytes().len(),
            r matches Err(e) ==> e == DecodeError::TruncatedRead && *final(self) == *old(self),
    {
        self.byte()
    }
}

} // verus!
