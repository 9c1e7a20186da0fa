//! Audio as samples and a rate.
use crate::codes::copy_frame;
use vstd::prelude::*;

verus! {

/// Mono audio. A sample is held as the bits of a single-precision number.
#[derive(Debug)]
pub struct AudioBuffer {
    pub samples: Vec<u32>,
    pub sample_rate: u32,
}

impl AudioBuffer {
    /// Audio of these samples.
    pub fn new(samples: Vec<u32>, sample_rate: u32) -> (r: AudioBuffer)
        ensures
            r.samples == samples,
            r.sample_rate == sample_rate,
    {
        AudioBuffer { samples, sample_rate }
    }

    /// The number of samples.
    pub fn len(&self) -> (r: usize)
        ensures
            r == self.samples@.len(),
    {
        self.samples.len()
    }

    /// Whether there are no samples.
    pub fn is_empty(&self) -> (r: bool)
        ensures
            r == (self.samples@.len() == 0),
    {
        self.samples.len() == 0
    }

    /// The same audio once more.
    pub fn copy(&self) -> (r: AudioBuffer)
        ensures
            r.samples@ == self.samples@,
            r.sample_rate == self.sample_rate,
    {
        AudioBuffer { samples: copy_frame(&self.samples), sample_rate: self.sample_rate }
    }

    /// The audio without its first `cut` samples.
    pub fn without_first(&self, cut: usize) -> (r: AudioBuffer)
        requires
            cut <= self.samples@.len(),
        ensures
            r.samples@ == self.samples@.skip(cut as int),
            r.sample_rate == self.sample_rate,
    {
        let n = self.samples.len();
        let mut rest: Vec<u32> = Vec::new();
        let mut i = cut;
        while i < n
            invariant
                n == self.samples@.len(),
                cut <= i <= n,
                rest@ == self.samples@.subrange(cut as int, i as int),
            decreases n - i,
        {
            rest.push(self.samples[i]);
            assert(self.samples@.subrange(cut as int, i + 1) =~= self.samples@.subrange(
                cut as int,
                i as int,
            ).push(self.samples@[i as int]));
            i = i + 1;
        }
        assert(self.samples@.subrange(cut as int, n as int) =~= self.samples@.skip(cut as int));
        AudioBuffer { samples: rest, sample_rate: self.sample_rate }
    }
}

/// How many of `samples` samples belong to the first `ref_len` of `total` frames,
/// where each frame has its share.
pub open spec fn share(ref_len: int, samples: int, total: int) -> int {
    ref_len * samples / if total > 0 {
        total
    } else {
        1
    }
}

/// How many samples to cut for the reference frames at the front.
pub fn reference_cut(ref_len: usize, samples: usize, total: usize) -> (r: usize)
    requires
        ref_len <= total,
    ensures
        r == share(ref_len as int, samples as int, total as int),
        r <= samples,
{
    if total == 0 {
        assert(ref_len * samples == 0) by (nonlinear_arith)
            requires
                ref_len == 0,
        ;
        return 0;
    }
    assert(0 <= ref_len * samples <= u128::MAX) by (nonlinear_arith)
        requires
            0 <= ref_len <= u64::MAX,
            0 <= samples <= u64::MAX,
    ;
    let product: u128 = ref_len as u128 * samples as u128;
    let cut: u128 = product / total as u128;
    assert(cut <= samples) by (nonlinear_arith)
        requires
            product == ref_len * samples,
            cut == product as int / total as int,
            ref_len <= total,
            total > 0,
    ;
    cut as usize
}

} // verus!
