//! Assembling raw chunk bytes into sample words.
//!
//! The bytes read for a slice plan are concatenated in instruction order;
//! the result must be a whole number of 4-byte samples, and each sample is
//! the little-endian 32-bit word of its four bytes. The words carry the
//! bit patterns of 32-bit float PCM samples; turning them into floats is
//! the caller's final, trivial step.

use vstd::prelude::*;
use crate::errors::AudioError;
use crate::reader::le32;
use crate::slices::CHUNK_BYTE_SIZE;
use vstd::arithmetic::div_mod::{lemma_div_multiples_vanish, lemma_mod_multiples_basic};

verus! {

/// The 32-bit sample words stored in a byte buffer, four bytes each.
pub open spec fn spec_samples(b: Seq<u8>) -> Seq<u32> {
    Seq::new((b.len() / 4) as nat, |i: int| le32(b, 4 * i) as u32)
}

/// The bytes of a list of chunk reads, in order.
pub open spec fn flatten_bytes(s: Seq<Vec<u8>>) -> Seq<u8>
    decreases s.len(),
{
    if s.len() == 0 {
        Seq::empty()
    } else {
        flatten_bytes(s.drop_last()) + s.last()@
    }
}

/// Reinterprets a byte buffer as its 32-bit sample words; a buffer that is
/// not a whole number of 4-byte samples is refused.
pub fn bytes_to_samples(buffer: &[u8]) -> (r: Result<Vec<u32>, AudioError>)
    ensures
        buffer@.len() % 4 == 0 ==> (r matches Ok(v) && v@ == spec_samples(buffer@)),
        buffer@.len() % 4 != 0 ==> (r matches Err(e) && e == AudioError::MisalignedSampleBuffer),
{
    let n = buffer.len();
    if n % 4 != 0 {
        return Err(AudioError::MisalignedSampleBuffer);
    }
    let count = n / 4;
    let mut out: Vec<u32> = Vec::new();
    let mut k: usize = 0;
    while k < count
        invariant
            k <= count,
            count == buffer@.len() / 4,
            buffer@.len() % 4 == 0,
            buffer@.len() <= usize::MAX,
            out@.len() == k,
            forall|m: int| 0 <= m < k ==> out@[m] == le32(buffer@, 4 * m) as u32,
        decreases count - k,
    {
        proof {
            vstd::arithmetic::div_mod::lemma_fundamental_div_mod(buffer@.len() as int, 4);
        }
        let b0 = buffer[4 * k] as u32;
        let b1 = buffer[4 * k + 1] as u32;
        let b2 = buffer[4 * k + 2] as u32;
        let b3 = buffer[4 * k + 3] as u32;
        out.push(b0 + 0x100 * b1 + 0x1_0000 * (b2 + 0x100 * b3));
        k = k + 1;
    }
    proof {
        assert(out@ =~= spec_samples(buffer@));
    }
    Ok(out)
}

/// Concatenates the bytes of a list of chunk reads, in order.
pub fn concat_chunks(parts: &Vec<Vec<u8>>) -> (r: Vec<u8>)
    ensures
        r@ == flatten_bytes(parts@),
{
    let mut out: Vec<u8> = Vec::new();
    let n = parts.len();
    let mut i: usize = 0;
    proof {
        assert(parts@.take(0) =~= Seq::<Vec<u8>>::empty());
    }
    while i < n
        invariant
            i <= n,
            n == parts@.len(),
            out@ == flatten_bytes(parts@.take(i as int)),
        decreases n - i,
    {
        let m = parts[i].len();
        let mut j: usize = 0;
        proof {
            assert(out@ + parts@[i as int]@.take(0) =~= out@);
        }
        let ghost base = out@;
        while j < m
            invariant
                j <= m,
                i < n,
                n == parts@.len(),
                m == parts@[i as int]@.len(),
                out@ == base + parts@[i as int]@.take(j as int),
            decreases m - j,
        {
            out.push(parts[i][j]);
            j = j + 1;
            proof {
                assert(out@ =~= base + parts@[i as int]@.take(j as int));
            }
        }
        i = i + 1;
        proof {
            assert(parts@.take(i as int).drop_last() =~= parts@.take(i - 1));
            assert(parts@.take(i as int).last() == parts@[i - 1]);
            assert(parts@[i - 1]@.take(m as int) =~= parts@[i - 1]@);
            assert(out@ =~= flatten_bytes(parts@.take(i as int)));
        }
    }
    proof {
        assert(parts@.take(n as int) =~= parts@);
    }
    out
}

/// Concatenates the bytes of the reads of a plan and reinterprets them as
/// sample words: the whole-project and sliced read paths both end here.
pub fn assemble(parts: &Vec<Vec<u8>>) -> (r: Result<Vec<u32>, AudioError>)
    ensures
        flatten_bytes(parts@).len() % 4 == 0 ==> (r matches Ok(v) && v@ == spec_samples(
            flatten_bytes(parts@),
        )),
        flatten_bytes(parts@).len() % 4 != 0 ==> (r matches Err(e) && e
            == AudioError::MisalignedSampleBuffer),
{
    let buf = concat_chunks(parts);
    bytes_to_samples(buf.as_slice())
}

/// Concatenating whole-chunk reads always divides into samples exactly:
/// the bytes of `n` reads of one full chunk each hold `n` times a quarter
/// chunk of samples, with no remainder.
pub proof fn lemma_whole_chunk_samples(parts: Seq<Vec<u8>>)
    requires
        forall|i: int| 0 <= i < parts.len() ==> (#[trigger] parts[i]@.len()) == CHUNK_BYTE_SIZE,
    ensures
        flatten_bytes(parts).len() == parts.len() * CHUNK_BYTE_SIZE,
        flatten_bytes(parts).len() % 4 == 0,
        spec_samples(flatten_bytes(parts)).len() == parts.len() * (CHUNK_BYTE_SIZE / 4),
    decreases parts.len(),
{
    let n = parts.len() as int;
    if n == 0 {
    } else {
        let dl = parts.drop_last();
        assert(forall|i: int| 0 <= i < dl.len() ==> (#[trigger] dl[i]@.len()) == CHUNK_BYTE_SIZE);
        lemma_whole_chunk_samples(dl);
        assert(flatten_bytes(parts).len() == (n - 1) * CHUNK_BYTE_SIZE + CHUNK_BYTE_SIZE);
        assert((n - 1) * CHUNK_BYTE_SIZE + CHUNK_BYTE_SIZE == n * CHUNK_BYTE_SIZE)
            by (nonlinear_arith);
    }
    lemma_mod_multiples_basic(n * 262144, 4);
    assert(n * CHUNK_BYTE_SIZE == (n * 262144) * 4) by (nonlinear_arith);
    lemma_div_multiples_vanish(n * 262144, 4);
    assert((4 * (n * 262144)) / 4 == n * 262144);
    assert(n * CHUNK_BYTE_SIZE == 4 * (n * 262144)) by (nonlinear_arith);
    assert(spec_samples(flatten_bytes(parts)).len() == flatten_bytes(parts).len() / 4);
    assert(n * (CHUNK_BYTE_SIZE as int / 4) == n * 262144);
}

} // verus!
