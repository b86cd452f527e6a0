//! Error taxonomy: decoding the typed-field streams, extracting entities,
//! addressing samples, and assembling audio buffers each have their own
//! error type. All of these are unrecoverable for the operation that
//! raised them; an absent entity (no labels, no blocks) is never an error.

use vstd::prelude::*;

verus! {

/// A malformed or unsupported typed-field stream.
#[derive(Debug, Clone, Copy, PartialEq, Eq, Structural)]
pub enum DecodeError {
    /// A field type code outside the known range appeared in the document stream.
    UnknownFieldCode,
    /// A field type code other than the two dictionary kinds appeared in the
    /// dictionary stream.
    UnknownDictFieldCode,
    /// A tag or attribute id is not present in the dictionary.
    UnknownTagId,
    /// An attribute field arrived while no tag frame was open.
    NoOpenTag,
    /// A boolean field carried a byte other than 0 or 1.
    InvalidBoolEncoding,
    /// A data field appeared; this encoding is not supported.
    UnsupportedDataField,
    /// A string field must be decoded under a declared character width other
    /// than one byte.
    UnsupportedCharWidth,
    /// Fewer bytes remain in the stream than the field requires.
    TruncatedRead,
}

/// A decoded document from which a required entity cannot be projected.
#[derive(Debug, Clone, PartialEq, Eq)]
pub enum ExtractError {
    /// No "project" tag with an integer "rate" attribute exists.
    MissingSampleRate,
    /// A matched tag lacks a required attribute; carries the attribute name.
    MissingAttribute(String),
    /// An attribute exists but its value cannot be read as the required
    /// numeric kind; carries the attribute name.
    AttributeParseError(String),
}

/// A time range that cannot be mapped onto the stored blocks.
#[derive(Debug, Clone, Copy, PartialEq, Eq, Structural)]
pub enum AddressError {
    /// A negative time position was given.
    NegativeTime,
    /// The sequence has no block covering the requested frame.
    BlockNotFound,
    /// The range starts and ends in different clips; slicing across clips is
    /// not supported.
    CrossClipSlice,
}

/// A failure while reading chunk bytes or converting them to samples.
#[derive(Debug, Clone, Copy, PartialEq, Eq, Structural)]
pub enum AudioError {
    /// The project has no wave blocks to read.
    NoWaveblocks,
    /// A chunk read returned fewer bytes than requested.
    ReadFailed,
    /// A seek inside a chunk failed.
    SeekFailed,
    /// An assembled byte buffer is not a whole number of 4-byte samples.
    MisalignedSampleBuffer,
}

} // verus!
