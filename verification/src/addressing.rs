//! Sample addressing: pure arithmetic from times to frames and bytes, and
//! from a frame position to the storage block that holds it.
//!
//! A frame is one sample index; each sample occupies 4 bytes (32-bit float
//! PCM). `time_to_frame` rounds half away from zero, and maps times at or
//! below zero to frame 0, as the saturating conversion of the original
//! format does.

use vstd::prelude::*;
use crate::errors::AddressError;
use crate::entities::{Sequence, WaveBlock, WaveClip, GWaveClip, gwaveclips};
use crate::fixed::Fixed;
use vstd::arithmetic::mul::lemma_mul_upper_bound;
use vstd::arithmetic::div_mod::lemma_div_is_ordered;

verus! {

/// The largest frame a block byte offset may be computed for: one quarter
/// of the unsigned 64-bit range, so that byte offsets cannot overflow.
pub const MAX_LOCATE_FRAME: u64 = 0x3FFF_FFFF_FFFF_FFFF;

/// The frame a time maps to: `t * fps` in seconds, rounded half away from
/// zero; times at or below zero map to frame 0.
pub open spec fn spec_time_to_frame(t: Fixed, fps: u32) -> int {
    if t.units <= 0 {
        0
    } else {
        (t.units * fps + 0x8000_0000) / 0x1_0000_0000
    }
}

/// The byte position of a frame: 4 bytes per sample.
pub open spec fn spec_time_to_byte(t: Fixed, fps: u32) -> int {
    4 * spec_time_to_frame(t, fps)
}

/// A time never maps past this bound.
pub proof fn lemma_time_to_frame_bound(t: Fixed, fps: u32)
    ensures
        0 <= spec_time_to_frame(t, fps) < 0x8000_0000_0000_0000,
{
    if t.units > 0 {
        lemma_mul_upper_bound(t.units as int, i64::MAX as int, fps as int, u32::MAX as int);
        lemma_div_is_ordered(
            t.units * fps + 0x8000_0000,
            i64::MAX * u32::MAX + 0x8000_0000,
            0x1_0000_0000,
        );
        assert((i64::MAX * u32::MAX + 0x8000_0000) / 0x1_0000_0000 < 0x8000_0000_0000_0000);
        vstd::arithmetic::div_mod::lemma_div_pos_is_pos(
            t.units * fps + 0x8000_0000,
            0x1_0000_0000,
        );
        assert(t.units * fps >= 0) by (nonlinear_arith)
            requires
                t.units >= 0,
                fps >= 0,
        ;
    }
}

/// Time zero maps to frame zero at every rate.
pub proof fn lemma_time_to_frame_zero(fps: u32)
    ensures
        spec_time_to_frame(Fixed { units: 0 }, fps) == 0,
{
}

/// The byte position of a non-negative time is exactly four bytes per
/// frame mapped to.
pub proof fn lemma_time_to_byte_four_per_frame(t: Fixed, fps: u32)
    requires
        t.units >= 0,
    ensures
        spec_time_to_byte(t, fps) == 4 * spec_time_to_frame(t, fps),
{
}

/// Converting a time to a frame, as `spec_time_to_frame` states it.
pub fn time_to_frame(time: Fixed, fps: u32) -> (r: u64)
    ensures
        r == spec_time_to_frame(time, fps),
{
    if time.units <= 0 {
        return 0;
    }
    proof {
        lemma_mul_upper_bound(time.units as int, i64::MAX as int, fps as int, u32::MAX as int);
        lemma_time_to_frame_bound(time, fps);
    }
    let p: u128 = (time.units as u128) * (fps as u128);
    ((p + 0x8000_0000) / 0x1_0000_0000) as u64
}

/// Converting a time to its byte position, as `spec_time_to_byte` states
/// it. The frame count must be small enough that four bytes per sample
/// still fit the unsigned 64-bit range.
pub fn time_to_byte(time: Fixed, fps: u32) -> (r: u64)
    requires
        spec_time_to_byte(time, fps) <= u64::MAX,
    ensures
        r == spec_time_to_byte(time, fps),
{
    proof {
        lemma_time_to_frame_bound(time, fps);
    }
    let f = time_to_frame(time, fps);
    4 * f
}

/// The byte position of `pos` relative to the start of block `block_idx`,
/// with blocks of `block_size` bytes each.
pub fn rel_block_offset(pos: usize, block_idx: u16, block_size: usize) -> (r: usize)
    requires
        block_idx * block_size <= pos,
    ensures
        r == pos - block_idx * block_size,
{
    pos - (block_idx as usize) * block_size
}

/// A located frame: which block of the sequence holds it, that block's
/// chunk key, and the byte offset of the frame inside the block.
#[derive(Debug, Clone, Copy, PartialEq, Eq, Structural)]
pub struct Located {
    pub index: usize,
    pub blockid: u64,
    pub byte_offset: u64,
}

/// The position of the last block whose start does not exceed `frame`,
/// or -1 when no block covers it.
pub open spec fn last_covering(blocks: Seq<WaveBlock>, frame: int) -> int
    decreases blocks.len(),
{
    if blocks.len() == 0 {
        -1
    } else if blocks.last().start <= frame {
        blocks.len() - 1
    } else {
        last_covering(blocks.drop_last(), frame)
    }
}

/// What `last_covering` returns: a covering position below every later
/// one, or -1 exactly when every block starts past the frame.
pub proof fn lemma_last_covering(blocks: Seq<WaveBlock>, frame: int)
    ensures
        -1 <= last_covering(blocks, frame) < blocks.len(),
        last_covering(blocks, frame) >= 0 ==> blocks[last_covering(blocks, frame)].start <= frame,
        forall|j: int|
            last_covering(blocks, frame) < j < blocks.len() ==> #[trigger] blocks[j].start > frame,
    decreases blocks.len(),
{
    if blocks.len() > 0 && blocks.last().start > frame {
        lemma_last_covering(blocks.drop_last(), frame);
        let k = last_covering(blocks, frame);
        assert(k >= 0 ==> blocks.drop_last()[k] == blocks[k]);
        assert forall|j: int| k < j < blocks.len() implies #[trigger] blocks[j].start > frame by {
            if j < blocks.len() - 1 {
                assert(blocks.drop_last()[j] == blocks[j]);
            }
        }
    }
}

proof fn lemma_last_covering_found(blocks: Seq<WaveBlock>, frame: int, i: int)
    requires
        0 <= i < blocks.len(),
        blocks[i].start <= frame,
        forall|j: int| i < j < blocks.len() ==> #[trigger] blocks[j].start > frame,
    ensures
        last_covering(blocks, frame) == i,
    decreases blocks.len(),
{
    if i < blocks.len() - 1 {
        lemma_last_covering_found(blocks.drop_last(), frame, i);
    }
}

proof fn lemma_last_covering_absent(blocks: Seq<WaveBlock>, frame: int)
    requires
        forall|j: int| 0 <= j < blocks.len() ==> #[trigger] blocks[j].start > frame,
    ensures
        last_covering(blocks, frame) == -1,
    decreases blocks.len(),
{
    if blocks.len() > 0 {
        lemma_last_covering_absent(blocks.drop_last(), frame);
    }
}

/// Locates the block of a sequence that holds a frame: the last block, in
/// stored order, whose start does not exceed the frame; fails when the
/// sequence has no block or the frame precedes every block.
pub fn locate(frame: u64, seq: &Sequence) -> (r: Result<Located, AddressError>)
    requires
        frame <= MAX_LOCATE_FRAME,
    ensures
        ({
            let k = last_covering(seq@.blocks, frame as int);
            &&& (r is Ok <==> k >= 0)
            &&& (r matches Ok(l) ==> {
                &&& l.index == k
                &&& l.blockid == seq@.blocks[k].blockid
                &&& l.byte_offset == 4 * (frame - seq@.blocks[k].start)
            })
            &&& (r matches Err(e) ==> e == AddressError::BlockNotFound)
        }),
{
    let n = seq.blocks.len();
    let mut i: usize = n;
    while i > 0
        invariant
            i <= n,
            n == seq.blocks@.len(),
            frame <= MAX_LOCATE_FRAME,
            forall|j: int| i <= j < n ==> #[trigger] seq.blocks@[j].start > frame,
        decreases i,
    {
        i = i - 1;
        if seq.blocks[i].start <= frame {
            proof {
                lemma_last_covering_found(seq.blocks@, frame as int, i as int);
            }
            return Ok(
                Located {
                    index: i,
                    blockid: seq.blocks[i].blockid,
                    byte_offset: 4 * (frame - seq.blocks[i].start),
                },
            );
        }
    }
    proof {
        lemma_last_covering_absent(seq.blocks@, frame as int);
    }
    Err(AddressError::BlockNotFound)
}

/// The position of the last clip with a sequence whose offset does not
/// exceed the time, or -1 when there is none.
pub open spec fn last_clip(clips: Seq<GWaveClip>, t: Fixed) -> int
    decreases clips.len(),
{
    if clips.len() == 0 {
        -1
    } else if clips.last().sequence is Some && clips.last().offset.units <= t.units {
        clips.len() - 1
    } else {
        last_clip(clips.drop_last(), t)
    }
}

/// What `last_clip` returns.
pub proof fn lemma_last_clip(clips: Seq<GWaveClip>, t: Fixed)
    ensures
        -1 <= last_clip(clips, t) < clips.len(),
        last_clip(clips, t) >= 0 ==> clips[last_clip(clips, t)].sequence is Some
            && clips[last_clip(clips, t)].offset.units <= t.units,
        forall|j: int|
            last_clip(clips, t) < j < clips.len() ==> !(#[trigger] clips[j].sequence is Some
                && clips[j].offset.units <= t.units),
    decreases clips.len(),
{
    if clips.len() > 0 && !(clips.last().sequence is Some && clips.last().offset.units
        <= t.units) {
        lemma_last_clip(clips.drop_last(), t);
        let k = last_clip(clips, t);
        assert(k >= 0 ==> clips.drop_last()[k] == clips[k]);
        assert forall|j: int|
            k < j < clips.len() implies !(#[trigger] clips[j].sequence is Some
            && clips[j].offset.units <= t.units) by {
            if j < clips.len() - 1 {
                assert(clips.drop_last()[j] == clips[j]);
            }
        }
    }
}

proof fn lemma_last_clip_found(clips: Seq<GWaveClip>, t: Fixed, i: int)
    requires
        0 <= i < clips.len(),
        clips[i].sequence is Some && clips[i].offset.units <= t.units,
        forall|j: int|
            i < j < clips.len() ==> !(#[trigger] clips[j].sequence is Some
                && clips[j].offset.units <= t.units),
    ensures
        last_clip(clips, t) == i,
    decreases clips.len(),
{
    if i < clips.len() - 1 {
        lemma_last_clip_found(clips.drop_last(), t, i);
    }
}

proof fn lemma_last_clip_absent(clips: Seq<GWaveClip>, t: Fixed)
    requires
        forall|j: int|
            0 <= j < clips.len() ==> !(#[trigger] clips[j].sequence is Some
                && clips[j].offset.units <= t.units),
    ensures
        last_clip(clips, t) == -1,
    decreases clips.len(),
{
    if clips.len() > 0 {
        lemma_last_clip_absent(clips.drop_last(), t);
    }
}

/// Locates the clip a time falls into: the last clip, in stored order,
/// that owns a sequence and starts at or before the time; position 0 when
/// no clip qualifies. A negative time is refused.
pub fn locate_clip(time: Fixed, clips: &Vec<WaveClip>) -> (r: Result<usize, AddressError>)
    ensures
        ({
            let k = last_clip(gwaveclips(clips@), time);
            &&& (time.units < 0 ==> (r matches Err(e) && e == AddressError::NegativeTime))
            &&& (time.units >= 0 ==> (r matches Ok(i) && (k >= 0 ==> i == k) && (k < 0 ==> i
                == 0)))
        }),
{
    if time.units < 0 {
        return Err(AddressError::NegativeTime);
    }
    let ghost gc = gwaveclips(clips@);
    let n = clips.len();
    let mut i: usize = n;
    while i > 0
        invariant
            time.units >= 0,
            i <= n,
            n == clips@.len(),
            gc == gwaveclips(clips@),
            forall|j: int|
                i <= j < n ==> !(#[trigger] gc[j].sequence is Some && gc[j].offset.units
                    <= time.units),
        decreases i,
    {
        i = i - 1;
        proof {
            assert(gc[i as int] == clips@[i as int]@);
        }
        let found = match clips[i].sequence {
            Some(_) => clips[i].offset.units <= time.units,
            None => false,
        };
        if found {
            proof {
                lemma_last_clip_found(gc, time, i as int);
            }
            return Ok(i);
        }
    }
    proof {
        lemma_last_clip_absent(gc, time);
    }
    Ok(0)
}

} // verus!
