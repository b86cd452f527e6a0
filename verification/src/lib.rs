//! Decoder for an audio editor's project container format: a typed-field
//! bytestream document decoder with its ID-to-name dictionary, entity
//! extraction (labels, wave blocks, sequences, clips), and a sample
//! addressing and slicing engine that turns time ranges into chunk read
//! instructions and raw chunk bytes into sample words.

pub mod errors;
pub mod fixed;
pub mod reader;
pub mod fields;
pub mod tagdict;
pub mod document;
pub mod entities;
pub mod addressing;
pub mod slices;
pub mod audio;
