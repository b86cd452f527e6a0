use aup3conv::addressing::{locate, locate_clip, rel_block_offset, time_to_byte, time_to_frame};
use aup3conv::entities::{Sequence, WaveBlock, WaveClip};
use aup3conv::errors::AddressError;
use aup3conv::fixed::Fixed;

fn one_second() -> Fixed {
    Fixed::from_seconds(1).unwrap()
}

#[test]
fn ttf_lower() {
    assert_eq!(time_to_frame(Fixed::zero(), 44100), 0);
}

#[test]
fn ttf_one_sec() {
    assert_eq!(time_to_frame(one_second(), 44100), 44100);
}

#[test]
fn ttb_lower() {
    assert_eq!(time_to_byte(Fixed::zero(), 44100), 0);
}

#[test]
fn ttb_one_sec() {
    assert_eq!(time_to_byte(one_second(), 44100), 44100 * 4);
}

#[test]
fn ttf_rounds_half_away_from_zero() {
    // 0.5 seconds at 1 frame per second rounds up to 1.
    let half = Fixed::from_f64_bits(0.5f64.to_bits()).unwrap();
    assert_eq!(time_to_frame(half, 1), 1);
    // 0.4 seconds at 1 frame per second rounds down to 0.
    let low = Fixed::from_f64_bits(0.4f64.to_bits()).unwrap();
    assert_eq!(time_to_frame(low, 1), 0);
}

#[test]
fn ttb_is_four_per_frame() {
    let t = Fixed::from_f64_bits(1.5f64.to_bits()).unwrap();
    assert_eq!(time_to_byte(t, 44100), 4 * time_to_frame(t, 44100));
}

#[test]
fn rel_block_offset_subtracts_whole_blocks() {
    assert_eq!(rel_block_offset(100, 0, 50), 100);
    assert_eq!(rel_block_offset(100, 1, 50), 50);
}

fn two_block_sequence() -> Sequence {
    Sequence {
        maxsamples: 262144,
        numsamples: 88200,
        blocks: vec![
            WaveBlock { start: 0, blockid: 1 },
            WaveBlock { start: 44100, blockid: 2 },
        ],
    }
}

#[test]
fn locate_start_of_first_block() {
    let l = locate(0, &two_block_sequence()).unwrap();
    assert_eq!(l.blockid, 1);
    assert_eq!(l.index, 0);
    assert_eq!(l.byte_offset, 0);
}

#[test]
fn locate_end_of_first_block() {
    let l = locate(44099, &two_block_sequence()).unwrap();
    assert_eq!(l.blockid, 1);
    assert_eq!(l.byte_offset, 176396);
}

#[test]
fn locate_start_of_second_block() {
    let l = locate(44100, &two_block_sequence()).unwrap();
    assert_eq!(l.blockid, 2);
    assert_eq!(l.index, 1);
    assert_eq!(l.byte_offset, 0);
}

#[test]
fn locate_empty_sequence_fails() {
    let seq = Sequence { maxsamples: 0, numsamples: 0, blocks: vec![] };
    assert_eq!(locate(0, &seq), Err(AddressError::BlockNotFound));
}

#[test]
fn locate_clip_refuses_negative_time() {
    let clips: Vec<WaveClip> = vec![];
    let t = Fixed { units: -1 };
    assert_eq!(locate_clip(t, &clips), Err(AddressError::NegativeTime));
}

#[test]
fn locate_clip_takes_last_covering_clip() {
    let clips = vec![
        WaveClip { offset: Fixed::zero(), sequence: Some(two_block_sequence()) },
        WaveClip {
            offset: Fixed::from_seconds(10).unwrap(),
            sequence: Some(two_block_sequence()),
        },
    ];
    assert_eq!(locate_clip(Fixed::from_seconds(5).unwrap(), &clips), Ok(0));
    assert_eq!(locate_clip(Fixed::from_seconds(10).unwrap(), &clips), Ok(1));
}

#[test]
fn locate_clip_skips_empty_clips() {
    let clips = vec![
        WaveClip { offset: Fixed::zero(), sequence: Some(two_block_sequence()) },
        WaveClip { offset: Fixed::from_seconds(10).unwrap(), sequence: None },
    ];
    assert_eq!(locate_clip(Fixed::from_seconds(20).unwrap(), &clips), Ok(0));
}

#[test]
fn locate_clip_defaults_to_first_position() {
    let clips = vec![
        WaveClip {
            offset: Fixed::from_seconds(10).unwrap(),
            sequence: Some(two_block_sequence()),
        },
    ];
    assert_eq!(locate_clip(Fixed::zero(), &clips), Ok(0));
}

#[test]
fn fixed_from_f64_bits_exact_values() {
    assert_eq!(Fixed::from_f64_bits(0.0f64.to_bits()).unwrap().units, 0);
    assert_eq!(Fixed::from_f64_bits(1.0f64.to_bits()).unwrap().units, 1i64 << 32);
    assert_eq!(Fixed::from_f64_bits(0.5f64.to_bits()).unwrap().units, 1i64 << 31);
    assert_eq!(Fixed::from_f64_bits((-1.5f64).to_bits()).unwrap().units, -(3i64 << 31));
    assert_eq!(Fixed::from_f64_bits(f64::NAN.to_bits()), None);
    assert_eq!(Fixed::from_f64_bits(f64::INFINITY.to_bits()), None);
    assert_eq!(Fixed::from_f64_bits(1.0e300f64.to_bits()), None);
}
