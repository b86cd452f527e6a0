//! The typed-field wire model.
//!
//! Every field of the two streams (dictionary and document) starts with a
//! 1-byte type code followed by a payload of fixed shape. `FieldType` is
//! the decoded field; `GField` is its mathematical image, and
//! `spec_read_field` states, for every byte stream and position, exactly
//! which field is stored there and where the next one begins.

use vstd::prelude::*;
use crate::errors::DecodeError;
use crate::reader::{le16, le32, le64, as_i16, as_i32, as_i64, single_byte_text, ByteFieldReader};

verus! {

/// One decoded wire field.
#[derive(Debug, Clone, PartialEq)]
pub enum FieldType {
    CharSize { value: u8 },
    StartTag { id: u16 },
    EndTag { id: u16 },
    Str { id: u16, size: u32, value: String },
    Int { id: u16, value: i16 },
    Bool { id: u16, value: bool },
    Long { id: u16, value: i32 },
    LongLong { id: u16, value: i64 },
    SizeT { id: u16, value: u32 },
    Float { id: u16, bits: u64 },
    Double { id: u16, bits: u64 },
    Data { size: u32, value: String },
    Raw { size: u32, value: String },
    Push,
    Pop,
    Name { id: u16, size: u16, value: String },
}

/// The mathematical image of a wire field; text is a character sequence.
pub enum GField {
    CharSize { value: u8 },
    StartTag { id: u16 },
    EndTag { id: u16 },
    Str { id: u16, text: Seq<char> },
    Int { id: u16, value: i16 },
    Bool { id: u16, value: bool },
    Long { id: u16, value: i32 },
    LongLong { id: u16, value: i64 },
    SizeT { id: u16, value: u32 },
    Float { id: u16, bits: u64 },
    Double { id: u16, bits: u64 },
    Data { text: Seq<char> },
    Raw { text: Seq<char> },
    Push,
    Pop,
    Name { id: u16, text: Seq<char> },
}

impl View for FieldType {
    type V = GField;

    open spec fn view(&self) -> GField {
        match *self {
            FieldType::CharSize { value } => GField::CharSize { value },
            FieldType::StartTag { id } => GField::StartTag { id },
            FieldType::EndTag { id } => GField::EndTag { id },
            FieldType::Str { id, size: _, value } => GField::Str { id, text: value@ },
            FieldType::Int { id, value } => GField::Int { id, value },
            FieldType::Bool { id, value } => GField::Bool { id, value },
            FieldType::Long { id, value } => GField::Long { id, value },
            FieldType::LongLong { id, value } => GField::LongLong { id, value },
            FieldType::SizeT { id, value } => GField::SizeT { id, value },
            FieldType::Float { id, bits } => GField::Float { id, bits },
            FieldType::Double { id, bits } => GField::Double { id, bits },
            FieldType::Data { size: _, value } => GField::Data { text: value@ },
            FieldType::Raw { size: _, value } => GField::Raw { text: value@ },
            FieldType::Push => GField::Push,
            FieldType::Pop => GField::Pop,
            FieldType::Name { id, size: _, value } => GField::Name { id, text: value@ },
        }
    }
}

/// Whether `n` more bytes are stored at position `i`.
pub open spec fn have(b: Seq<u8>, i: int, n: int) -> bool {
    i + n <= b.len()
}

/// The text carried by a counted run of bytes.
pub open spec fn text_at(b: Seq<u8>, i: int, n: int) -> Seq<char> {
    single_byte_text(b.subrange(i, i + n))
}

/// The field stored at position `i` of stream `b` and the position of the
/// field that follows it. The stated errors are exactly those of the wire
/// format: an unknown type code, a boolean byte other than 0 and 1, and a
/// payload that runs past the end of the stream.
pub open spec fn spec_read_field(b: Seq<u8>, i: int) -> Result<(GField, int), DecodeError> {
    if !have(b, i, 1) {
        Err(DecodeError::TruncatedRead)
    } else {
        let code = b[i];
        let j = i + 1;
        if code == 0 {
            if have(b, j, 1) {
                Ok((GField::CharSize { value: b[j] }, j + 1))
            } else {
                Err(DecodeError::TruncatedRead)
            }
        } else if code == 1 {
            if have(b, j, 2) {
                Ok((GField::StartTag { id: le16(b, j) as u16 }, j + 2))
            } else {
                Err(DecodeError::TruncatedRead)
            }
        } else if code == 2 {
            if have(b, j, 2) {
                Ok((GField::EndTag { id: le16(b, j) as u16 }, j + 2))
            } else {
                Err(DecodeError::TruncatedRead)
            }
        } else if code == 3 {
            if have(b, j, 6) {
                let n = le32(b, j + 2);
                if have(b, j + 6, n) {
                    Ok(
                        (
                            GField::Str { id: le16(b, j) as u16, text: text_at(b, j + 6, n) },
                            j + 6 + n,
                        ),
                    )
                } else {
                    Err(DecodeError::TruncatedRead)
                }
            } else {
                Err(DecodeError::TruncatedRead)
            }
        } else if code == 4 {
            if have(b, j, 4) {
                Ok(
                    (
                        GField::Int { id: le16(b, j) as u16, value: as_i16(le16(b, j + 2)) as i16 },
                        j + 4,
                    ),
                )
            } else {
                Err(DecodeError::TruncatedRead)
            }
        } else if code == 5 {
            if have(b, j, 3) {
                let v = b[j + 2];
                if v == 0 || v == 1 {
                    Ok((GField::Bool { id: le16(b, j) as u16, value: v == 1 }, j + 3))
                } else {
                    Err(DecodeError::InvalidBoolEncoding)
                }
            } else {
                Err(DecodeError::TruncatedRead)
            }
        } else if code == 6 {
            if have(b, j, 6) {
                Ok(
                    (
                        GField::Long { id: le16(b, j) as u16, value: as_i32(le32(b, j + 2)) as i32 },
                        j + 6,
                    ),
                )
            } else {
                Err(DecodeError::TruncatedRead)
            }
        } else if code == 7 {
            if have(b, j, 10) {
                Ok(
                    (
                        GField::LongLong {
                            id: le16(b, j) as u16,
                            value: as_i64(le64(b, j + 2)) as i64,
                        },
                        j + 10,
                    ),
                )
            } else {
                Err(DecodeError::TruncatedRead)
            }
        } else if code == 8 {
            if have(b, j, 6) {
                Ok(
                    (
                        GField::SizeT { id: le16(b, j) as u16, value: le32(b, j + 2) as u32 },
                        j + 6,
                    ),
                )
            } else {
                Err(DecodeError::TruncatedRead)
            }
        } else if code == 9 {
            if have(b, j, 14) {
                Ok(
                    (
                        GField::Float { id: le16(b, j) as u16, bits: le64(b, j + 2) as u64 },
                        j + 14,
                    ),
                )
            } else {
                Err(DecodeError::TruncatedRead)
            }
        } else if code == 10 {
            if have(b, j, 14) {
                Ok(
                    (
                        GField::Double { id: le16(b, j) as u16, bits: le64(b, j + 2) as u64 },
                        j + 14,
                    ),
                )
            } else {
                Err(DecodeError::TruncatedRead)
            }
        } else if code == 11 {
            if have(b, j, 4) {
                let n = le32(b, j);
                if have(b, j + 4, n) {
                    Ok((GField::Data { text: text_at(b, j + 4, n) }, j + 4 + n))
                } else {
                    Err(DecodeError::TruncatedRead)
                }
            } else {
                Err(DecodeError::TruncatedRead)
            }
        } else if code == 12 {
            if have(b, j, 4) {
                let n = le32(b, j);
                if have(b, j + 4, n) {
                    Ok((GField::Raw { text: text_at(b, j + 4, n) }, j + 4 + n))
                } else {
                    Err(DecodeError::TruncatedRead)
                }
            } else {
                Err(DecodeError::TruncatedRead)
            }
        } else if code == 13 {
            if have(b, j, 1) {
                Ok((GField::Push, j + 1))
            } else {
                Err(DecodeError::TruncatedRead)
            }
        } else if code == 14 {
            if have(b, j, 1) {
                Ok((GField::Pop, j + 1))
            } else {
                Err(DecodeError::TruncatedRead)
            }
        } else if code == 15 {
            if have(b, j, 4) {
                let n = le16(b, j + 2);
                if have(b, j + 4, n) {
                    Ok((GField::Name { id: le16(b, j) as u16, text: text_at(b, j + 4, n) }, j + 4 + n))
                } else {
                    Err(DecodeError::TruncatedRead)
                }
            } else {
                Err(DecodeError::TruncatedRead)
            }
        } else {
            Err(DecodeError::UnknownFieldCode)
        }
    }
}

/// A well-formed field occupies at least one byte and ends inside the stream.
pub proof fn lemma_read_field_advances(b: Seq<u8>, i: int)
    requires
        0 <= i,
        spec_read_field(b, i) is Ok,
    ensures
        i < spec_read_field(b, i)->Ok_0.1 <= b.len(),
{
}

/// Decodes single fields of the document stream.
pub struct ProjectDocReader {}

impl ProjectDocReader {
    pub fn new() -> (r: ProjectDocReader) {
        ProjectDocReader {  }
    }

    /// Reads the field stored at the reader's position, as
    /// `spec_read_field` states it.
    pub fn read_field(&self, r: &mut ByteFieldReader) -> (res: Result<FieldType, DecodeError>)
        requires
            old(r).wf(),
        ensures
            final(r).wf(),
            final(r).bytes() == old(r).bytes(),
            res matches Ok(f) ==> {
                &&& spec_read_field(old(r).bytes(), old(r).position()) matches Ok(p)
                &&& f@ == p.0
                &&& final(r).position() == p.1
            },
            res matches Err(e) ==> spec_read_field(old(r).bytes(), old(r).position())
                == Result::<(GField, int), DecodeError>::Err(e),
    {
        let ghost gi = r.position();
        let code = match r.field_type_code() {
            Ok(c) => c,
            Err(e) => {
                return Err(e);
            },
        };
        if code <= 7 {
            read_payload_low(r, code, Ghost(gi))
        } else {
            read_payload_high(r, code, Ghost(gi))
        }
    }
}

/// Payload of a field with type code 0 through 7, after the code byte.
fn read_payload_low(r: &mut ByteFieldReader, code: u8, Ghost(gi): Ghost<int>) -> (res: Result<
    FieldType,
    DecodeError,
>)
    requires
        old(r).wf(),
        code <= 7,
        0 <= gi,
        gi + 1 == old(r).position(),
        old(r).bytes()[gi] == code,
    ensures
        final(r).wf(),
        final(r).bytes() == old(r).bytes(),
        res matches Ok(f) ==> {
            &&& spec_read_field(old(r).bytes(), gi) matches Ok(p)
            &&& f@ == p.0
            &&& final(r).position() == p.1
        },
        res matches Err(e) ==> spec_read_field(old(r).bytes(), gi) == Result::<
            (GField, int),
            DecodeError,
        >::Err(e),
{
    match code {
        0 => {
            let value = match r.byte() {
                Ok(v) => v,
                Err(e) => {
                    return Err(e);
                },
            };
            Ok(FieldType::CharSize { value })
        },
        1 => {
            let id = match r.ushort() {
                Ok(v) => v,
                Err(e) => {
                    return Err(e);
                },
            };
            Ok(FieldType::StartTag { id })
        },
        2 => {
            let id = match r.ushort() {
                Ok(v) => v,
                Err(e) => {
                    return Err(e);
                },
            };
            Ok(FieldType::EndTag { id })
        },
        3 => {
            let id = match r.ushort() {
                Ok(v) => v,
                Err(e) => {
                    return Err(e);
                },
            };
            let size = match r.uint() {
                Ok(v) => v,
                Err(e) => {
                    return Err(e);
                },
            };
            let value = match r.string(size as usize) {
                Ok(v) => v,
                Err(e) => {
                    return Err(e);
                },
            };
            Ok(FieldType::Str { id, size, value })
        },
        4 => {
            let id = match r.ushort() {
                Ok(v) => v,
                Err(e) => {
                    return Err(e);
                },
            };
            let value = match r.short() {
                Ok(v) => v,
                Err(e) => {
                    return Err(e);
                },
            };
            Ok(FieldType::Int { id, value })
        },
        5 => {
            let id = match r.ushort() {
                Ok(v) => v,
                Err(e) => {
                    return Err(e);
                },
            };
            let v = match r.byte() {
                Ok(v) => v,
                Err(e) => {
                    return Err(e);
                },
            };
            if v == 0 || v == 1 {
                Ok(FieldType::Bool { id, value: v == 1 })
            } else {
                Err(DecodeError::InvalidBoolEncoding)
            }
        },
        6 => {
            let id = match r.ushort() {
                Ok(v) => v,
                Err(e) => {
                    return Err(e);
                },
            };
            let value = match r.integer() {
                Ok(v) => v,
                Err(e) => {
                    return Err(e);
                },
            };
            Ok(FieldType::Long { id, value })
        },
        _ => {
            let id = match r.ushort() {
                Ok(v) => v,
                Err(e) => {
                    return Err(e);
                },
            };
            let value = match r.longlong() {
                Ok(v) => v,
                Err(e) => {
                    return Err(e);
                },
            };
            Ok(FieldType::LongLong { id, value })
        },
    }
}

/// Payload of a field with type code 8 and above, after the code byte.
#[verifier::rlimit(100)]
fn read_payload_high(r: &mut ByteFieldReader, code: u8, Ghost(gi): Ghost<int>) -> (res: Result<
    FieldType,
    DecodeError,
>)
    requires
        old(r).wf(),
        code > 7,
        0 <= gi,
        gi + 1 == old(r).position(),
        old(r).bytes()[gi] == code,
    ensures
        final(r).wf(),
        final(r).bytes() == old(r).bytes(),
        res matches Ok(f) ==> {
            &&& spec_read_field(old(r).bytes(), gi) matches Ok(p)
            &&& f@ == p.0
            &&& final(r).position() == p.1
        },
        res matches Err(e) ==> spec_read_field(old(r).bytes(), gi) == Result::<
            (GField, int),
            DecodeError,
        >::Err(e),
{
    match code {
        8 => {
            let id = match r.ushort() {
                Ok(v) => v,
                Err(e) => {
                    return Err(e);
                },
            };
            let value = match r.uint() {
                Ok(v) => v,
                Err(e) => {
                    return Err(e);
                },
            };
            Ok(FieldType::SizeT { id, value })
        },
        9 => {
            let id = match r.ushort() {
                Ok(v) => v,
                Err(e) => {
                    return Err(e);
                },
            };
            let bits = match r.double_bits() {
                Ok(v) => v,
                Err(e) => {
                    return Err(e);
                },
            };
            Ok(FieldType::Float { id, bits })
        },
        10 => {
            let id = match r.ushort() {
                Ok(v) => v,
                Err(e) => {
                    return Err(e);
                },
            };
            let bits = match r.double_bits() {
                Ok(v) => v,
                Err(e) => {
                    return Err(e);
                },
            };
            Ok(FieldType::Double { id, bits })
        },
        11 => {
            let size = match r.uint() {
                Ok(v) => v,
                Err(e) => {
                    return Err(e);
                },
            };
            let value = match r.string(size as usize) {
                Ok(v) => v,
                Err(e) => {
                    return Err(e);
                },
            };
            Ok(FieldType::Data { size, value })
        },
        12 => {
            let size = match r.uint() {
                Ok(v) => v,
                Err(e) => {
                    return Err(e);
                },
            };
            let value = match r.string(size as usize) {
                Ok(v) => v,
                Err(e) => {
                    return Err(e);
                },
            };
            Ok(FieldType::Raw { size, value })
        },
        13 => {
            match r.byte() {
                Ok(_) => Ok(FieldType::Push),
                Err(e) => Err(e),
            }
        },
        14 => {
            match r.byte() {
                Ok(_) => Ok(FieldType::Pop),
                Err(e) => Err(e),
            }
        },
        15 => {
            let id = match r.ushort() {
                Ok(v) => v,
                Err(e) => {
                    return Err(e);
                },
            };
            let size = match r.ushort() {
                Ok(v) => v,
                Err(e) => {
                    return Err(e);
                },
            };
            let value = match r.string(size as usize) {
                Ok(v) => v,
                Err(e) => {
                    return Err(e);
                },
            };
            Ok(FieldType::Name { id, size, value })
        },
        _ => Err(DecodeError::UnknownFieldCode),
    }
}

} // verus!
