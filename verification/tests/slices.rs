use aup3conv::audio::{assemble, bytes_to_samples, concat_chunks};
use aup3conv::entities::{Sequence, WaveBlock, WaveClip};
use aup3conv::errors::{AddressError, AudioError};
use aup3conv::fixed::Fixed;
use aup3conv::slices::{plan, ReadInstruction, CHUNK_BYTE_SIZE};

fn secs(s: i64) -> Fixed {
    Fixed::from_seconds(s).unwrap()
}

fn three_block_clip() -> Vec<WaveClip> {
    let seq = Sequence {
        maxsamples: 262144,
        numsamples: 786432,
        blocks: vec![
            WaveBlock { start: 0, blockid: 1 },
            WaveBlock { start: 262144, blockid: 2 },
            WaveBlock { start: 524288, blockid: 3 },
        ],
    };
    vec![WaveClip { offset: Fixed::zero(), sequence: Some(seq) }]
}

#[test]
fn plan_inside_one_block_is_one_instruction() {
    let clips = three_block_clip();
    let t0 = Fixed::from_f64_bits(0.25f64.to_bits()).unwrap();
    let t1 = Fixed::from_f64_bits(0.5f64.to_bits()).unwrap();
    let instrs = plan(t0, t1, &clips, 44100).unwrap();
    assert_eq!(
        instrs,
        vec![ReadInstruction { block_id: 1, start: 44100, stop: 88200 }]
    );
    // the byte span equals time_to_byte(t1) - time_to_byte(t0)
    let b0 = aup3conv::addressing::time_to_byte(t0, 44100);
    let b1 = aup3conv::addressing::time_to_byte(t1, 44100);
    assert_eq!(instrs[0].stop - instrs[0].start, b1 - b0);
}

#[test]
fn plan_spanning_three_blocks() {
    let clips = three_block_clip();
    // 1 s -> frame 44100 (first block); 13 s -> frame 573300 (third block)
    let instrs = plan(secs(1), secs(13), &clips, 44100).unwrap();
    assert_eq!(instrs.len(), 3);
    assert_eq!(
        instrs[0],
        ReadInstruction { block_id: 1, start: 4 * 44100, stop: CHUNK_BYTE_SIZE }
    );
    assert_eq!(
        instrs[1],
        ReadInstruction { block_id: 2, start: 0, stop: CHUNK_BYTE_SIZE }
    );
    assert_eq!(
        instrs[2],
        ReadInstruction { block_id: 3, start: 0, stop: 4 * (573300 - 524288) }
    );
}

#[test]
fn plan_adjacent_blocks_is_tail_then_head() {
    let clips = three_block_clip();
    // 1 s is in the first block, 7 s -> frame 308700 is in the second.
    let instrs = plan(secs(1), secs(7), &clips, 44100).unwrap();
    assert_eq!(
        instrs,
        vec![
            ReadInstruction { block_id: 1, start: 4 * 44100, stop: CHUNK_BYTE_SIZE },
            ReadInstruction { block_id: 2, start: 0, stop: 4 * (308700 - 262144) },
        ]
    );
}

#[test]
fn plan_respects_clip_offset() {
    let seq = Sequence {
        maxsamples: 262144,
        numsamples: 262144,
        blocks: vec![WaveBlock { start: 0, blockid: 9 }],
    };
    let clips = vec![WaveClip { offset: secs(10), sequence: Some(seq) }];
    let instrs = plan(secs(11), secs(12), &clips, 1000).unwrap();
    assert_eq!(
        instrs,
        vec![ReadInstruction { block_id: 9, start: 4000, stop: 8000 }]
    );
}

#[test]
fn plan_across_clips_is_unsupported() {
    let mut clips = three_block_clip();
    clips.push(WaveClip { offset: secs(100), sequence: Some(Sequence {
        maxsamples: 262144,
        numsamples: 262144,
        blocks: vec![WaveBlock { start: 0, blockid: 7 }],
    }) });
    assert_eq!(
        plan(secs(1), secs(100), &clips, 44100),
        Err(AddressError::CrossClipSlice)
    );
}

#[test]
fn plan_refuses_negative_times() {
    let clips = three_block_clip();
    assert_eq!(
        plan(Fixed { units: -1 }, Fixed { units: -1 }, &clips, 44100),
        Err(AddressError::NegativeTime)
    );
}

#[test]
fn plan_without_clips_finds_no_block() {
    let clips: Vec<WaveClip> = vec![];
    assert_eq!(
        plan(Fixed::zero(), secs(1), &clips, 44100),
        Err(AddressError::BlockNotFound)
    );
}

#[test]
fn bytes_become_little_endian_words() {
    let bytes = vec![1u8, 0, 0, 0, 0, 0, 0, 64];
    assert_eq!(bytes_to_samples(&bytes).unwrap(), vec![1u32, 0x4000_0000]);
}

#[test]
fn misaligned_buffer_is_refused() {
    let bytes = vec![0u8; 5];
    assert_eq!(
        bytes_to_samples(&bytes),
        Err(AudioError::MisalignedSampleBuffer)
    );
}

#[test]
fn concat_keeps_order() {
    let parts = vec![vec![1u8, 2], vec![], vec![3u8]];
    assert_eq!(concat_chunks(&parts), vec![1u8, 2, 3]);
}

#[test]
fn whole_chunks_divide_into_samples_exactly() {
    let n = 2usize;
    let parts = vec![vec![0u8; CHUNK_BYTE_SIZE as usize]; n];
    let samples = assemble(&parts).unwrap();
    assert_eq!(samples.len(), n * (CHUNK_BYTE_SIZE as usize) / 4);
}

#[test]
fn sample_words_carry_float_bits() {
    let mut bytes = Vec::new();
    bytes.extend_from_slice(&1.0f32.to_bits().to_le_bytes());
    bytes.extend_from_slice(&(-2.5f32).to_bits().to_le_bytes());
    let samples = bytes_to_samples(&bytes).unwrap();
    let floats: Vec<f32> = samples.into_iter().map(f32::from_bits).collect();
    assert_eq!(floats, vec![1.0f32, -2.5f32]);
}
