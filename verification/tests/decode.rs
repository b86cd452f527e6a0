use aup3conv::document::ProjectDoc;
use aup3conv::entities::{Label, Sequence, WaveBlock, WaveClip};
use aup3conv::errors::DecodeError;
use aup3conv::fixed::Fixed;
use aup3conv::tagdict::TagDict;

fn u16le(v: u16, out: &mut Vec<u8>) {
    out.push((v & 0xff) as u8);
    out.push((v >> 8) as u8);
}

fn u32le(v: u32, out: &mut Vec<u8>) {
    for k in 0..4 {
        out.push(((v >> (8 * k)) & 0xff) as u8);
    }
}

fn u64le(v: u64, out: &mut Vec<u8>) {
    for k in 0..8 {
        out.push(((v >> (8 * k)) & 0xff) as u8);
    }
}

fn char_size(width: u8, out: &mut Vec<u8>) {
    out.push(0);
    out.push(width);
}

fn name_entry(id: u16, name: &str, out: &mut Vec<u8>) {
    out.push(15);
    u16le(id, out);
    u16le(name.len() as u16, out);
    out.extend_from_slice(name.as_bytes());
}

fn start_tag(id: u16, out: &mut Vec<u8>) {
    out.push(1);
    u16le(id, out);
}

fn end_tag(id: u16, out: &mut Vec<u8>) {
    out.push(2);
    u16le(id, out);
}

fn str_field(id: u16, value: &str, out: &mut Vec<u8>) {
    out.push(3);
    u16le(id, out);
    u32le(value.len() as u32, out);
    out.extend_from_slice(value.as_bytes());
}

fn bool_field(id: u16, byte: u8, out: &mut Vec<u8>) {
    out.push(5);
    u16le(id, out);
    out.push(byte);
}

fn long_field(id: u16, value: i32, out: &mut Vec<u8>) {
    out.push(6);
    u16le(id, out);
    u32le(value as u32, out);
}

fn longlong_field(id: u16, value: i64, out: &mut Vec<u8>) {
    out.push(7);
    u16le(id, out);
    u64le(value as u64, out);
}

fn double_field(id: u16, value: f64, out: &mut Vec<u8>) {
    out.push(10);
    u16le(id, out);
    u64le(value.to_bits(), out);
    u32le(0, out);
}

const PROJECT: u16 = 1;
const RATE: u16 = 2;
const LABEL: u16 = 3;
const TITLE: u16 = 4;
const T: u16 = 5;
const T1: u16 = 6;
const WAVEBLOCK: u16 = 7;
const START: u16 = 8;
const BLOCKID: u16 = 9;
const SEQUENCE: u16 = 10;
const MAXSAMPLES: u16 = 11;
const NUMSAMPLES: u16 = 12;
const WAVECLIP: u16 = 13;
const OFFSET: u16 = 14;

fn test_dictionary() -> TagDict {
    let mut bytes = Vec::new();
    char_size(1, &mut bytes);
    name_entry(PROJECT, "project", &mut bytes);
    name_entry(RATE, "rate", &mut bytes);
    name_entry(LABEL, "label", &mut bytes);
    name_entry(TITLE, "title", &mut bytes);
    name_entry(T, "t", &mut bytes);
    name_entry(T1, "t1", &mut bytes);
    name_entry(WAVEBLOCK, "waveblock", &mut bytes);
    name_entry(START, "start", &mut bytes);
    name_entry(BLOCKID, "blockid", &mut bytes);
    name_entry(SEQUENCE, "sequence", &mut bytes);
    name_entry(MAXSAMPLES, "maxsamples", &mut bytes);
    name_entry(NUMSAMPLES, "numsamples", &mut bytes);
    name_entry(WAVECLIP, "waveclip", &mut bytes);
    name_entry(OFFSET, "offset", &mut bytes);
    let mut dict = TagDict::new();
    dict.decode(&bytes).unwrap();
    dict
}

#[test]
fn dictionary_resolves_names() {
    let dict = test_dictionary();
    assert_eq!(dict.char_size, 1);
    assert_eq!(dict.get(LABEL).unwrap(), "label");
    assert_eq!(dict.get(OFFSET).unwrap(), "offset");
    assert!(dict.get(99).is_none());
}

#[test]
fn dictionary_refuses_other_field_kinds() {
    let mut bytes = Vec::new();
    start_tag(PROJECT, &mut bytes);
    let mut dict = TagDict::new();
    assert_eq!(dict.decode(&bytes), Err(DecodeError::UnknownDictFieldCode));
}

#[test]
fn dictionary_refuses_truncated_entry() {
    let bytes = vec![15u8, 1];
    let mut dict = TagDict::new();
    assert_eq!(dict.decode(&bytes), Err(DecodeError::TruncatedRead));
}

#[test]
fn dictionary_refuses_wide_characters() {
    let mut bytes = Vec::new();
    char_size(2, &mut bytes);
    name_entry(PROJECT, "project", &mut bytes);
    let mut dict = TagDict::new();
    assert_eq!(dict.decode(&bytes), Err(DecodeError::UnsupportedCharWidth));
}

fn round_trip_document() -> Vec<u8> {
    let mut doc = Vec::new();
    char_size(1, &mut doc);
    start_tag(PROJECT, &mut doc);
    long_field(RATE, 44100, &mut doc);
    start_tag(WAVECLIP, &mut doc);
    double_field(OFFSET, 2.0, &mut doc);
    start_tag(SEQUENCE, &mut doc);
    longlong_field(MAXSAMPLES, 262144, &mut doc);
    longlong_field(NUMSAMPLES, 88200, &mut doc);
    start_tag(WAVEBLOCK, &mut doc);
    longlong_field(START, 0, &mut doc);
    longlong_field(BLOCKID, 5, &mut doc);
    end_tag(WAVEBLOCK, &mut doc);
    start_tag(WAVEBLOCK, &mut doc);
    longlong_field(START, 262144, &mut doc);
    longlong_field(BLOCKID, 6, &mut doc);
    end_tag(WAVEBLOCK, &mut doc);
    end_tag(SEQUENCE, &mut doc);
    end_tag(WAVECLIP, &mut doc);
    start_tag(LABEL, &mut doc);
    str_field(TITLE, "intro", &mut doc);
    double_field(T, 1.5, &mut doc);
    double_field(T1, 2.5, &mut doc);
    end_tag(LABEL, &mut doc);
    end_tag(PROJECT, &mut doc);
    doc
}

#[test]
fn document_round_trip_reproduces_entities() {
    let mut doc = ProjectDoc::new(test_dictionary());
    doc.decode(&round_trip_document()).unwrap();

    assert_eq!(doc.parse_sample_rate(), Some(44100));

    let labels = doc.parse_labels().unwrap().unwrap();
    let expected_label = Label {
        t: Fixed::from_f64_bits(1.5f64.to_bits()).unwrap(),
        t1: Fixed::from_f64_bits(2.5f64.to_bits()).unwrap(),
        title: String::from("intro"),
    };
    assert_eq!(labels, vec![expected_label]);

    let expected_blocks = vec![
        WaveBlock { start: 0, blockid: 5 },
        WaveBlock { start: 262144, blockid: 6 },
    ];
    assert_eq!(doc.parse_waveblocks().unwrap().unwrap(), expected_blocks);

    let expected_sequence = Sequence {
        maxsamples: 262144,
        numsamples: 88200,
        blocks: expected_blocks,
    };
    assert_eq!(doc.parse_sequences().unwrap().unwrap(), vec![expected_sequence.clone()]);

    let expected_clip = WaveClip {
        offset: Fixed::from_f64_bits(2.0f64.to_bits()).unwrap(),
        sequence: Some(expected_sequence),
    };
    assert_eq!(doc.parse_waveclips().unwrap().unwrap(), vec![expected_clip]);
}

#[test]
fn empty_projections_are_explicit_absences() {
    let mut doc = ProjectDoc::new(test_dictionary());
    let mut bytes = Vec::new();
    start_tag(PROJECT, &mut bytes);
    long_field(RATE, 48000, &mut bytes);
    end_tag(PROJECT, &mut bytes);
    doc.decode(&bytes).unwrap();
    assert_eq!(doc.parse_labels().unwrap(), None);
    assert_eq!(doc.parse_waveblocks().unwrap(), None);
    assert_eq!(doc.parse_sequences().unwrap(), None);
    assert_eq!(doc.parse_waveclips().unwrap(), None);
}

#[test]
fn missing_sample_rate_is_none() {
    let mut doc = ProjectDoc::new(test_dictionary());
    let mut bytes = Vec::new();
    start_tag(LABEL, &mut bytes);
    end_tag(LABEL, &mut bytes);
    doc.decode(&bytes).unwrap();
    assert_eq!(doc.parse_sample_rate(), None);
}

#[test]
fn bool_byte_two_fails() {
    let mut doc = ProjectDoc::new(test_dictionary());
    let mut bytes = Vec::new();
    start_tag(PROJECT, &mut bytes);
    bool_field(RATE, 2, &mut bytes);
    assert_eq!(doc.decode(&bytes), Err(DecodeError::InvalidBoolEncoding));
}

#[test]
fn field_code_sixteen_fails() {
    let mut doc = ProjectDoc::new(test_dictionary());
    let bytes = vec![16u8, 0, 0];
    assert_eq!(doc.decode(&bytes), Err(DecodeError::UnknownFieldCode));
}

#[test]
fn reading_past_end_fails() {
    let mut doc = ProjectDoc::new(test_dictionary());
    let bytes = vec![1u8, 1];
    assert_eq!(doc.decode(&bytes), Err(DecodeError::TruncatedRead));
}

#[test]
fn data_field_is_unsupported() {
    let mut doc = ProjectDoc::new(test_dictionary());
    let mut bytes = Vec::new();
    start_tag(PROJECT, &mut bytes);
    bytes.push(11);
    u32le(2, &mut bytes);
    bytes.extend_from_slice(b"xy");
    assert_eq!(doc.decode(&bytes), Err(DecodeError::UnsupportedDataField));
}

#[test]
fn unknown_tag_id_fails() {
    let mut doc = ProjectDoc::new(test_dictionary());
    let mut bytes = Vec::new();
    start_tag(200, &mut bytes);
    assert_eq!(doc.decode(&bytes), Err(DecodeError::UnknownTagId));
}

#[test]
fn attribute_without_open_tag_fails() {
    let mut doc = ProjectDoc::new(test_dictionary());
    let mut bytes = Vec::new();
    long_field(RATE, 44100, &mut bytes);
    assert_eq!(doc.decode(&bytes), Err(DecodeError::NoOpenTag));
}

#[test]
fn wide_character_string_fails() {
    let mut doc = ProjectDoc::new(test_dictionary());
    let mut bytes = Vec::new();
    char_size(4, &mut bytes);
    start_tag(LABEL, &mut bytes);
    str_field(TITLE, "abcd", &mut bytes);
    assert_eq!(doc.decode(&bytes), Err(DecodeError::UnsupportedCharWidth));
}

#[test]
fn raw_text_gathers_outside_tags() {
    let mut doc = ProjectDoc::new(test_dictionary());
    let mut bytes = Vec::new();
    bytes.push(12);
    u32le(5, &mut bytes);
    bytes.extend_from_slice(b"hello");
    bytes.push(12);
    u32le(6, &mut bytes);
    bytes.extend_from_slice(b" world");
    doc.decode(&bytes).unwrap();
    assert_eq!(doc.raw_text(), "hello world");
}

#[test]
fn push_pop_and_inline_names_are_ignored() {
    let mut doc = ProjectDoc::new(test_dictionary());
    let mut bytes = Vec::new();
    bytes.push(13);
    bytes.push(0);
    bytes.push(14);
    bytes.push(0);
    name_entry(LABEL, "renamed", &mut bytes);
    start_tag(LABEL, &mut bytes);
    end_tag(LABEL, &mut bytes);
    doc.decode(&bytes).unwrap();
    assert_eq!(doc.collected_tags().len(), 1);
    assert_eq!(doc.collected_tags()[0].name, "label");
}

#[test]
fn label_without_title_is_missing_attribute() {
    let mut doc = ProjectDoc::new(test_dictionary());
    let mut bytes = Vec::new();
    start_tag(LABEL, &mut bytes);
    double_field(T, 1.0, &mut bytes);
    double_field(T1, 2.0, &mut bytes);
    end_tag(LABEL, &mut bytes);
    doc.decode(&bytes).unwrap();
    assert_eq!(
        doc.parse_labels(),
        Err(aup3conv::errors::ExtractError::MissingAttribute(String::from("title")))
    );
}

#[test]
fn label_with_boolean_time_is_a_parse_error() {
    let mut doc = ProjectDoc::new(test_dictionary());
    let mut bytes = Vec::new();
    start_tag(LABEL, &mut bytes);
    str_field(TITLE, "x", &mut bytes);
    bool_field(T, 1, &mut bytes);
    end_tag(LABEL, &mut bytes);
    doc.decode(&bytes).unwrap();
    assert_eq!(
        doc.parse_labels(),
        Err(aup3conv::errors::ExtractError::AttributeParseError(String::from("t")))
    );
}

#[test]
fn waveblock_with_negative_start_is_a_parse_error() {
    let mut doc = ProjectDoc::new(test_dictionary());
    let mut bytes = Vec::new();
    start_tag(WAVEBLOCK, &mut bytes);
    longlong_field(START, -1, &mut bytes);
    longlong_field(BLOCKID, 4, &mut bytes);
    end_tag(WAVEBLOCK, &mut bytes);
    doc.decode(&bytes).unwrap();
    assert_eq!(
        doc.parse_waveblocks(),
        Err(aup3conv::errors::ExtractError::AttributeParseError(String::from("start")))
    );
}

#[test]
fn clip_without_following_sequence_is_empty() {
    let mut doc = ProjectDoc::new(test_dictionary());
    let mut bytes = Vec::new();
    start_tag(WAVECLIP, &mut bytes);
    double_field(OFFSET, 0.0, &mut bytes);
    end_tag(WAVECLIP, &mut bytes);
    doc.decode(&bytes).unwrap();
    let clips = doc.parse_waveclips().unwrap().unwrap();
    assert_eq!(clips.len(), 1);
    assert!(clips[0].sequence.is_none());
}

#[test]
fn sequence_owns_only_blocks_in_its_span() {
    let mut doc = ProjectDoc::new(test_dictionary());
    let mut bytes = Vec::new();
    start_tag(SEQUENCE, &mut bytes);
    longlong_field(MAXSAMPLES, 262144, &mut bytes);
    longlong_field(NUMSAMPLES, 100, &mut bytes);
    start_tag(WAVEBLOCK, &mut bytes);
    longlong_field(START, 0, &mut bytes);
    longlong_field(BLOCKID, 1, &mut bytes);
    end_tag(WAVEBLOCK, &mut bytes);
    end_tag(SEQUENCE, &mut bytes);
    // a later block at the same depth as the sequence is outside its span
    start_tag(WAVEBLOCK, &mut bytes);
    longlong_field(START, 0, &mut bytes);
    longlong_field(BLOCKID, 2, &mut bytes);
    end_tag(WAVEBLOCK, &mut bytes);
    doc.decode(&bytes).unwrap();
    let seqs = doc.parse_sequences().unwrap().unwrap();
    assert_eq!(seqs.len(), 1);
    assert_eq!(seqs[0].blocks, vec![WaveBlock { start: 0, blockid: 1 }]);
    // but the flat block projection sees both
    assert_eq!(doc.parse_waveblocks().unwrap().unwrap().len(), 2);
}

#[test]
fn sample_rate_from_a_whole_double_is_accepted() {
    let mut doc = ProjectDoc::new(test_dictionary());
    let mut bytes = Vec::new();
    start_tag(PROJECT, &mut bytes);
    double_field(RATE, 44100.0, &mut bytes);
    end_tag(PROJECT, &mut bytes);
    doc.decode(&bytes).unwrap();
    assert_eq!(doc.parse_sample_rate(), Some(44100));
}

#[test]
fn sample_rate_from_a_fractional_double_is_refused() {
    let mut doc = ProjectDoc::new(test_dictionary());
    let mut bytes = Vec::new();
    start_tag(PROJECT, &mut bytes);
    double_field(RATE, 44100.5, &mut bytes);
    end_tag(PROJECT, &mut bytes);
    doc.decode(&bytes).unwrap();
    assert_eq!(doc.parse_sample_rate(), None);
}

#[test]
fn label_times_accept_whole_integer_seconds() {
    let mut doc = ProjectDoc::new(test_dictionary());
    let mut bytes = Vec::new();
    start_tag(LABEL, &mut bytes);
    str_field(TITLE, "x", &mut bytes);
    longlong_field(T, 1, &mut bytes);
    longlong_field(T1, 2, &mut bytes);
    end_tag(LABEL, &mut bytes);
    doc.decode(&bytes).unwrap();
    let labels = doc.parse_labels().unwrap().unwrap();
    assert_eq!(labels[0].t, Fixed::from_seconds(1).unwrap());
    assert_eq!(labels[0].t1, Fixed::from_seconds(2).unwrap());
}

#[test]
fn a_later_attribute_setting_wins() {
    let mut doc = ProjectDoc::new(test_dictionary());
    let mut bytes = Vec::new();
    start_tag(PROJECT, &mut bytes);
    long_field(RATE, 22050, &mut bytes);
    long_field(RATE, 44100, &mut bytes);
    end_tag(PROJECT, &mut bytes);
    doc.decode(&bytes).unwrap();
    assert_eq!(doc.parse_sample_rate(), Some(44100));
}
