//! The integer side of spectral analysis: how long a spectrum is, which
//! bins of a transform it keeps, and where its smallest and largest
//! magnitudes stand.

use vstd::prelude::*;

verus! {

/// Number of mixed samples that a block of `samples` interleaved samples
/// yields: one per whole frame of `channels` samples.
pub open spec fn frame_count(samples: nat, channels: nat) -> nat {
    samples / channels
}

/// Number of magnitudes in the spectrum of a block of `samples` interleaved
/// samples: half the number of its frames.
pub open spec fn spectrum_len(samples: nat, channels: nat) -> nat {
    frame_count(samples, channels) / 2
}

/// The bins of a transform that make up the spectrum: bin 0 (the constant
/// component) is skipped, and as many bins are kept as half the length of
/// the transform.
pub open spec fn kept_bins<T>(transform: Seq<T>) -> Seq<T> {
    if transform.len() == 0 {
        transform
    } else {
        transform.subrange(1, 1 + (transform.len() / 2) as int)
    }
}

/// Largest bit pattern of a binary32 number that is positive or zero: that
/// of positive infinity. The patterns beyond it are those of NaNs and of
/// negative numbers.
pub const LAST_MAGNITUDE: u32 = 0x7f80_0000;

/// The order key of a magnitude that is given by its binary32 bit pattern.
/// For a number that is positive or zero it is the pattern itself: such
/// patterns are ordered as their numbers are. A NaN and a negative number
/// are no magnitudes, and count as zero.
pub open spec fn order_key(bits: u32) -> u32 {
    if bits <= LAST_MAGNITUDE {
        bits
    } else {
        0
    }
}

/// The order key of every magnitude.
pub open spec fn order_keys(magnitudes: Seq<u32>) -> Seq<u32> {
    Seq::new(magnitudes.len(), |i: int| order_key(magnitudes[i]))
}

/// Whether all entries are equal (an empty sequence is flat).
pub open spec fn is_flat(keys: Seq<u32>) -> bool {
    forall|i: int, j: int| 0 <= i < keys.len() && 0 <= j < keys.len() ==> keys[i] == keys[j]
}

/// Whether `at` is the first position of a smallest entry.
pub open spec fn is_first_lowest(keys: Seq<u32>, at: int) -> bool {
    &&& 0 <= at < keys.len()
    &&& forall|i: int| 0 <= i < keys.len() ==> keys[at] <= keys[i]
    &&& forall|i: int| 0 <= i < at ==> keys[at] < keys[i]
}

/// Whether `at` is the first position of a largest entry.
pub open spec fn is_first_highest(keys: Seq<u32>, at: int) -> bool {
    &&& 0 <= at < keys.len()
    &&& forall|i: int| 0 <= i < keys.len() ==> keys[i] <= keys[at]
    &&& forall|i: int| 0 <= i < at ==> keys[i] < keys[at]
}

/// Number of interleaved samples in a block of `frames` frames, or `None`
/// where that number does not fit the machine.
pub fn block_samples(frames: usize, channels: u16) -> (samples: Option<usize>)
    ensures
        samples is Some <==> frames * channels <= usize::MAX,
        samples is Some ==> samples->0 == frames * channels,
{
    frames.checked_mul(channels as usize)
}

/// Length of the spectrum of a block of `samples` interleaved samples.
pub fn spectrum_size(samples: usize, channels: u16) -> (bins: usize)
    requires
        channels >= 1,
    ensures
        bins == spectrum_len(samples as nat, channels as nat),
{
    samples / (channels as usize) / 2
}

/// A block of `block_size` frames has a spectrum of `block_size / 2`
/// magnitudes, whatever the number of channels.
pub proof fn lemma_spectrum_len_of_block(block_size: nat, channels: nat)
    requires
        channels >= 1,
    ensures
        frame_count(channels * block_size, channels) == block_size,
        spectrum_len(channels * block_size, channels) == block_size / 2,
{
    assert((channels * block_size) / channels == block_size) by (nonlinear_arith)
        requires
            channels >= 1,
    ;
}

/// The spectrum keeps half as many bins as the transform has.
pub proof fn lemma_kept_bins_len<T>(transform: Seq<T>)
    ensures
        kept_bins(transform).len() == transform.len() / 2,
{
}

/// Selects from the bins of a transform those that make up the spectrum.
pub fn positive_bins<T: Copy>(transform: &[T]) -> (bins: Vec<T>)
    ensures
        bins@ == kept_bins(transform@),
        bins@.len() == transform@.len() / 2,
{
    let half = transform.len() / 2;
    let mut bins: Vec<T> = Vec::with_capacity(half);
    if half == 0 {
        assert(bins@ =~= kept_bins(transform@));
        return bins;
    }
    let mut i: usize = 0;
    assert(bins@ =~= transform@.subrange(1, 1));
    while i < half
        invariant
            i <= half,
            half == transform.len() / 2,
            half >= 1,
            bins@ == transform@.subrange(1, 1 + i),
        decreases half - i,
    {
        bins.push(transform[i + 1]);
        assert(bins@ =~= transform@.subrange(1, 2 + i));
        i += 1;
    }
    bins
}

/// Computes the order key of a magnitude from its bit pattern.
pub fn magnitude_key(bits: u32) -> (key: u32)
    ensures
        key == order_key(bits),
{
    if bits <= LAST_MAGNITUDE {
        bits
    } else {
        0
    }
}

/// Finds where the smallest and the largest magnitude stand, for
/// normalization. Magnitudes are given by their binary32 bit patterns and
/// compared by their order keys. A flat (or empty) input has no range to
/// normalize by, and the answer is `None`.
pub fn extremes(magnitudes: &[u32]) -> (range: Option<(usize, usize)>)
    ensures
        range is None <==> is_flat(order_keys(magnitudes@)),
        range matches Some((low, high)) ==> is_first_lowest(order_keys(magnitudes@), low as int)
            && is_first_highest(order_keys(magnitudes@), high as int),
{
    if magnitudes.len() == 0 {
        return None;
    }
    let ghost keys = order_keys(magnitudes@);
    let mut low: usize = 0;
    let mut high: usize = 0;
    let mut i: usize = 1;
    while i < magnitudes.len()
        invariant
            1 <= i <= magnitudes.len(),
            keys == order_keys(magnitudes@),
            is_first_lowest(keys.take(i as int), low as int),
            is_first_highest(keys.take(i as int), high as int),
        decreases magnitudes.len() - i,
    {
        let key = magnitude_key(magnitudes[i]);
        if key < magnitude_key(magnitudes[low]) {
            low = i;
        }
        if key > magnitude_key(magnitudes[high]) {
            high = i;
        }
        i += 1;
    }
    assert(keys.take(magnitudes.len() as int) =~= keys);
    assert(keys[low as int] == order_key(magnitudes@[low as int]));
    assert(keys[high as int] == order_key(magnitudes@[high as int]));
    if magnitude_key(magnitudes[low]) < magnitude_key(magnitudes[high]) {
        Some((low, high))
    } else {
        None
    }
}

} // verus!
