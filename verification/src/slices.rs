//! The slice planner: turns a [start, stop) time range into the ordered
//! chunk read instructions that cover it.
//!
//! Both ends are resolved to a clip, then to a block of that clip's
//! sequence. A range inside one block is a single read; a range across
//! blocks becomes the tail of the first block, one full-chunk read for
//! every block strictly between, and the head of the last block. Ranges
//! that span two clips are unsupported.

use vstd::prelude::*;
use crate::errors::AddressError;
use crate::entities::{WaveBlock, WaveClip, GWaveClip, gwaveclips};
use crate::fixed::Fixed;
use crate::addressing::{
    last_covering, last_clip, locate, locate_clip, lemma_last_covering, MAX_LOCATE_FRAME,
};
use vstd::arithmetic::mul::{lemma_mul_inequality, lemma_mul_upper_bound};
use vstd::arithmetic::div_mod::{lemma_div_is_ordered, lemma_div_pos_is_pos};

verus! {

/// The fixed capacity of a storage chunk in bytes (262,144 samples of 4
/// bytes each).
pub const CHUNK_BYTE_SIZE: u64 = 1048576;

/// One chunk read: the bytes of `[start, stop)` within the chunk keyed by
/// `block_id`.
#[derive(Debug, Clone, Copy, PartialEq, Eq, Structural)]
pub struct ReadInstruction {
    pub block_id: u64,
    pub start: u64,
    pub stop: u64,
}

/// The frame a time maps to relative to a clip offset: frames of
/// `t - off` seconds, rounded half away from zero, never negative.
pub open spec fn rel_frame(t: Fixed, off: Fixed, fps: u32) -> int {
    if t.units <= off.units {
        0
    } else {
        ((t.units - off.units) * fps + 0x8000_0000) / 0x1_0000_0000
    }
}

/// A relative frame is never negative and fits a 64-bit word.
pub proof fn lemma_rel_frame_range(t: Fixed, off: Fixed, fps: u32)
    ensures
        0 <= rel_frame(t, off, fps) <= u64::MAX,
{
    if t.units > off.units {
        let d = t.units - off.units;
        lemma_mul_upper_bound(d, 0xFFFF_FFFF_FFFF_FFFFu64 as int, fps as int, u32::MAX as int);
        lemma_div_is_ordered(
            d * fps + 0x8000_0000,
            (0xFFFF_FFFF_FFFF_FFFFu64 as int) * 0xFFFF_FFFF + 0x8000_0000,
            0x1_0000_0000,
        );
        assert(((0xFFFF_FFFF_FFFF_FFFFu64 as int) * 0xFFFF_FFFF + 0x8000_0000) / 0x1_0000_0000 <= u64::MAX);
        assert(d * fps >= 0) by (nonlinear_arith)
            requires
                d >= 0,
                fps >= 0,
        ;
        lemma_div_pos_is_pos(d * fps + 0x8000_0000, 0x1_0000_0000);
    }
}

/// A later time never maps to an earlier relative frame.
pub proof fn lemma_rel_frame_mono(t0: Fixed, t1: Fixed, off: Fixed, fps: u32)
    requires
        t0.units <= t1.units,
    ensures
        rel_frame(t0, off, fps) <= rel_frame(t1, off, fps),
{
    lemma_rel_frame_range(t0, off, fps);
    lemma_rel_frame_range(t1, off, fps);
    if t0.units > off.units {
        let d0 = t0.units - off.units;
        let d1 = t1.units - off.units;
        lemma_mul_inequality(d0, d1, fps as int);
        lemma_div_is_ordered(d0 * fps + 0x8000_0000, d1 * fps + 0x8000_0000, 0x1_0000_0000);
    }
}

/// A later frame is never covered by an earlier block.
pub proof fn lemma_last_covering_mono(blocks: Seq<WaveBlock>, f0: int, f1: int)
    requires
        f0 <= f1,
    ensures
        last_covering(blocks, f0) <= last_covering(blocks, f1),
    decreases blocks.len(),
{
    if blocks.len() > 0 {
        if blocks.last().start <= f0 {
        } else if blocks.last().start > f1 {
            lemma_last_covering_mono(blocks.drop_last(), f0, f1);
        } else {
            lemma_last_covering(blocks.drop_last(), f0);
        }
    }
}

/// Computes the frame a time maps to relative to a clip offset, as
/// `rel_frame` states it.
fn rel_frame_exec(t: Fixed, off: Fixed, fps: u32) -> (r: u64)
    ensures
        r == rel_frame(t, off, fps),
{
    if t.units <= off.units {
        return 0;
    }
    proof {
        lemma_rel_frame_range(t, off, fps);
        lemma_mul_upper_bound(
            t.units - off.units,
            0xFFFF_FFFF_FFFF_FFFFu64 as int,
            fps as int,
            u32::MAX as int,
        );
    }
    let d: u128 = (t.units as i128 - off.units as i128) as u128;
    let p: u128 = d * (fps as u128);
    ((p + 0x8000_0000) / 0x1_0000_0000) as u64
}

/// The full-chunk reads for the blocks at positions `j` (inclusive) to
/// `end` (exclusive).
pub open spec fn full_reads(blocks: Seq<WaveBlock>, j: int, end: int) -> Seq<ReadInstruction> {
    Seq::new(
        (end - j) as nat,
        |m: int|
            ReadInstruction { block_id: blocks[j + m].blockid, start: 0, stop: CHUNK_BYTE_SIZE },
    )
}

/// The clip a time resolves to: the last clip with a sequence starting
/// at or before it, or position 0 when none qualifies.
pub open spec fn clip_choice(clips: Seq<GWaveClip>, t: Fixed) -> int {
    if last_clip(clips, t) >= 0 {
        last_clip(clips, t)
    } else {
        0
    }
}

/// The read instructions a time range resolves to, or the error that
/// refuses it:
/// - a negative end is refused;
/// - with no clip, or an end that precedes every block of the clip's
///   sequence, or a clip with no sequence, there is nothing to read;
/// - a range whose ends resolve to different clips is unsupported;
/// - inside one block, one read from the start byte to the stop byte;
/// - across blocks, the tail of the first block up to the chunk capacity,
///   a full chunk for every block between, and the head of the last block.
pub open spec fn spec_plan(t0: Fixed, t1: Fixed, clips: Seq<GWaveClip>, fps: u32) -> Result<
    Seq<ReadInstruction>,
    AddressError,
> {
    if t0.units < 0 || t1.units < 0 {
        Err(AddressError::NegativeTime)
    } else if clips.len() == 0 {
        Err(AddressError::BlockNotFound)
    } else {
        let c0 = clip_choice(clips, t0);
        let c1 = clip_choice(clips, t1);
        if c0 != c1 {
            Err(AddressError::CrossClipSlice)
        } else {
            match clips[c0].sequence {
                None => Err(AddressError::BlockNotFound),
                Some(sq) => {
                    let off = clips[c0].offset;
                    let f0 = rel_frame(t0, off, fps);
                    let f1 = rel_frame(t1, off, fps);
                    let k0 = last_covering(sq.blocks, f0);
                    let k1 = last_covering(sq.blocks, f1);
                    if k0 < 0 || k1 < 0 {
                        Err(AddressError::BlockNotFound)
                    } else {
                        let b0 = sq.blocks[k0];
                        let b1 = sq.blocks[k1];
                        let o0 = (4 * (f0 - b0.start)) as u64;
                        let o1 = (4 * (f1 - b1.start)) as u64;
                        if k0 == k1 {
                            Ok(seq![ReadInstruction { block_id: b0.blockid, start: o0, stop: o1 }])
                        } else {
                            Ok(
                                seq![
                                    ReadInstruction {
                                        block_id: b0.blockid,
                                        start: o0,
                                        stop: CHUNK_BYTE_SIZE,
                                    },
                                ] + full_reads(sq.blocks, k0 + 1, k1) + seq![
                                    ReadInstruction { block_id: b1.blockid, start: 0, stop: o1 },
                                ],
                            )
                        }
                    }
                },
            }
        }
    }
}

/// Plans the chunk reads for a time range, as `spec_plan` states it. The
/// range must not run backwards, and the end of the range must resolve to
/// a frame whose byte position fits the addressing bound in every clip.
pub fn plan(t0: Fixed, t1: Fixed, clips: &Vec<WaveClip>, fps: u32) -> (r: Result<
    Vec<ReadInstruction>,
    AddressError,
>)
    requires
        t0.units <= t1.units,
        forall|i: int|
            0 <= i < clips@.len() ==> rel_frame(t1, #[trigger] clips@[i]@.offset, fps)
                <= MAX_LOCATE_FRAME,
    ensures
        match spec_plan(t0, t1, gwaveclips(clips@), fps) {
            Ok(instrs) => r matches Ok(v) && v@ == instrs,
            Err(e) => r matches Err(e2) && e2 == e,
        },
{
    let ghost gc = gwaveclips(clips@);
    if t0.units < 0 || t1.units < 0 {
        return Err(AddressError::NegativeTime);
    }
    if clips.len() == 0 {
        return Err(AddressError::BlockNotFound);
    }
    let c0 = match locate_clip(t0, clips) {
        Ok(i) => i,
        Err(e) => {
            return Err(e);
        },
    };
    let c1 = match locate_clip(t1, clips) {
        Ok(i) => i,
        Err(e) => {
            return Err(e);
        },
    };
    proof {
        crate::addressing::lemma_last_clip(gc, t0);
        crate::addressing::lemma_last_clip(gc, t1);
    }
    if c0 != c1 {
        return Err(AddressError::CrossClipSlice);
    }
    proof {
        assert(gc[c0 as int] == clips@[c0 as int]@);
    }
    let sq = match &clips[c0].sequence {
        None => {
            return Err(AddressError::BlockNotFound);
        },
        Some(s) => s,
    };
    let off = clips[c0].offset;
    let f0 = rel_frame_exec(t0, off, fps);
    let f1 = rel_frame_exec(t1, off, fps);
    proof {
        lemma_rel_frame_mono(t0, t1, off, fps);
        lemma_last_covering_mono(sq@.blocks, f0 as int, f1 as int);
        lemma_last_covering(sq@.blocks, f0 as int);
        lemma_last_covering(sq@.blocks, f1 as int);
    }
    let l0 = match locate(f0, sq) {
        Ok(l) => l,
        Err(_) => {
            return Err(AddressError::BlockNotFound);
        },
    };
    let l1 = match locate(f1, sq) {
        Ok(l) => l,
        Err(_) => {
            return Err(AddressError::BlockNotFound);
        },
    };
    let mut out: Vec<ReadInstruction> = Vec::new();
    if l0.index == l1.index {
        out.push(
            ReadInstruction { block_id: l0.blockid, start: l0.byte_offset, stop: l1.byte_offset },
        );
        proof {
            let instrs = spec_plan(t0, t1, gc, fps)->Ok_0;
            assert(out@ =~= instrs);
        }
        Ok(out)
    } else {
        let ghost k0 = l0.index as int;
        let ghost k1 = l1.index as int;
        out.push(
            ReadInstruction { block_id: l0.blockid, start: l0.byte_offset, stop: CHUNK_BYTE_SIZE },
        );
        let mut j: usize = l0.index + 1;
        while j < l1.index
            invariant
                l0.index < j <= l1.index,
                k0 == l0.index as int,
                k1 == l1.index as int,
                k1 <= sq@.blocks.len(),
                sq@.blocks.len() == sq.blocks@.len(),
                out@.len() == 1 + (j - (k0 + 1)),
                out@[0] == (ReadInstruction {
                    block_id: l0.blockid,
                    start: l0.byte_offset,
                    stop: CHUNK_BYTE_SIZE,
                }),
                forall|m: int|
                    1 <= m < out@.len() ==> out@[m] == (ReadInstruction {
                        block_id: sq@.blocks[k0 + m].blockid,
                        start: 0,
                        stop: CHUNK_BYTE_SIZE,
                    }),
            decreases l1.index - j,
        {
            proof {
                assert(sq@.blocks[j as int] == sq.blocks@[j as int]);
            }
            out.push(
                ReadInstruction { block_id: sq.blocks[j].blockid, start: 0, stop: CHUNK_BYTE_SIZE },
            );
            j = j + 1;
        }
        out.push(ReadInstruction { block_id: l1.blockid, start: 0, stop: l1.byte_offset });
        proof {
            let instrs = spec_plan(t0, t1, gc, fps)->Ok_0;
            let head = seq![
                ReadInstruction {
                    block_id: sq@.blocks[k0].blockid,
                    start: (4 * (rel_frame(t0, off, fps) - sq@.blocks[k0].start)) as u64,
                    stop: CHUNK_BYTE_SIZE,
                },
            ];
            let mids = full_reads(sq@.blocks, k0 + 1, k1);
            let tail = seq![
                ReadInstruction {
                    block_id: sq@.blocks[k1].blockid,
                    start: 0,
                    stop: (4 * (rel_frame(t1, off, fps) - sq@.blocks[k1].start)) as u64,
                },
            ];
            assert(instrs == head + mids + tail);
            assert(out@ =~= instrs);
        }
        Ok(out)
    }
}


/// A range that starts and ends inside one block plans exactly one read,
/// and its byte span is the byte span of the time range: with the
/// resolved clip placed at offset zero, the single instruction spans
/// `time_to_byte(t1) - time_to_byte(t0)` bytes.
pub proof fn lemma_plan_single_block(t0: Fixed, t1: Fixed, clips: Seq<GWaveClip>, fps: u32)
    requires
        0 <= t0.units <= t1.units,
        clips.len() > 0,
        clip_choice(clips, t0) == clip_choice(clips, t1),
        clips[clip_choice(clips, t0)].sequence is Some,
        clips[clip_choice(clips, t0)].offset.units == 0,
        ({
            let off = clips[clip_choice(clips, t0)].offset;
            let sq = clips[clip_choice(clips, t0)].sequence.unwrap();
            &&& last_covering(sq.blocks, rel_frame(t0, off, fps)) == last_covering(
                sq.blocks,
                rel_frame(t1, off, fps),
            )
            &&& last_covering(sq.blocks, rel_frame(t0, off, fps)) >= 0
            &&& 4 * rel_frame(t1, off, fps) <= u64::MAX
        }),
    ensures
        spec_plan(t0, t1, clips, fps) matches Ok(instrs) && instrs.len() == 1 && instrs[0].stop
            - instrs[0].start == crate::addressing::spec_time_to_byte(t1, fps)
            - crate::addressing::spec_time_to_byte(t0, fps),
{
    let c = clip_choice(clips, t0);
    let off = clips[c].offset;
    let sq = clips[c].sequence.unwrap();
    let f0 = rel_frame(t0, off, fps);
    let f1 = rel_frame(t1, off, fps);
    let k = last_covering(sq.blocks, f0);
    lemma_last_covering(sq.blocks, f0);
    lemma_rel_frame_mono(t0, t1, off, fps);
    lemma_rel_frame_range(t0, off, fps);
    assert(f0 == crate::addressing::spec_time_to_frame(t0, fps));
    assert(f1 == crate::addressing::spec_time_to_frame(t1, fps));
    let s = sq.blocks[k].start;
    assert(s <= f0);
    assert((4 * (f0 - s)) as u64 == 4 * (f0 - s));
    assert((4 * (f1 - s)) as u64 == 4 * (f1 - s));
}

/// A range that spans several blocks plans one instruction per covered
/// block: the tail of the first, a full chunk for every block strictly
/// between, and the head of the last; every middle instruction spans the
/// whole chunk.
pub proof fn lemma_plan_spanning_blocks(t0: Fixed, t1: Fixed, clips: Seq<GWaveClip>, fps: u32)
    requires
        0 <= t0.units <= t1.units,
        clips.len() > 0,
        clip_choice(clips, t0) == clip_choice(clips, t1),
        clips[clip_choice(clips, t0)].sequence is Some,
        ({
            let off = clips[clip_choice(clips, t0)].offset;
            let sq = clips[clip_choice(clips, t0)].sequence.unwrap();
            &&& last_covering(sq.blocks, rel_frame(t0, off, fps)) >= 0
            &&& last_covering(sq.blocks, rel_frame(t1, off, fps)) > last_covering(
                sq.blocks,
                rel_frame(t0, off, fps),
            )
        }),
    ensures
        spec_plan(t0, t1, clips, fps) matches Ok(instrs) && ({
            let off = clips[clip_choice(clips, t0)].offset;
            let sq = clips[clip_choice(clips, t0)].sequence.unwrap();
            let k0 = last_covering(sq.blocks, rel_frame(t0, off, fps));
            let k1 = last_covering(sq.blocks, rel_frame(t1, off, fps));
            &&& instrs.len() == k1 - k0 + 1
            &&& forall|m: int|
                1 <= m < instrs.len() - 1 ==> (#[trigger] instrs[m]).start == 0 && instrs[m].stop
                    == CHUNK_BYTE_SIZE
        }),
{
    let c = clip_choice(clips, t0);
    let off = clips[c].offset;
    let sq = clips[c].sequence.unwrap();
    let f0 = rel_frame(t0, off, fps);
    let f1 = rel_frame(t1, off, fps);
    let k0 = last_covering(sq.blocks, f0);
    let k1 = last_covering(sq.blocks, f1);
    let instrs = spec_plan(t0, t1, clips, fps)->Ok_0;
    assert(instrs.len() == 1 + (k1 - k0 - 1) + 1);
    assert forall|m: int|
        1 <= m < instrs.len() - 1 implies (#[trigger] instrs[m]).start == 0 && instrs[m].stop
        == CHUNK_BYTE_SIZE by {
        assert(instrs[m] == full_reads(sq.blocks, k0 + 1, k1)[m - 1]);
    }
}

} // verus!
