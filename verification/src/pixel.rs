//! The colour of one pixel: the truncated mean of the colours of its samples.

use crate::colour::{Rgb, Sample};
use vstd::prelude::*;

verus! {

/// The per-channel totals of a run of samples.
pub struct ChannelSums {
    pub r: int,
    pub g: int,
    pub b: int,
}

/// The sum, channel by channel, of the colours of `samples`.
pub open spec fn channel_sums(samples: Seq<Sample>) -> ChannelSums
    decreases samples.len(),
{
    if samples.len() == 0 {
        ChannelSums { r: 0, g: 0, b: 0 }
    } else {
        let rest = channel_sums(samples.drop_last());
        let c = samples.last().spec_colour();
        ChannelSums { r: rest.r + c.r, g: rest.g + c.g, b: rest.b + c.b }
    }
}

/// The colour of a pixel with the given samples: each channel is the sum of
/// that channel over the samples, divided by their number, rounded down.
pub open spec fn mean_colour(samples: Seq<Sample>) -> Rgb
    recommends
        samples.len() > 0,
{
    let sums = channel_sums(samples);
    let n = samples.len() as int;
    Rgb { r: (sums.r / n) as u8, g: (sums.g / n) as u8, b: (sums.b / n) as u8 }
}

/// No channel total is negative or exceeds 255 times the number of samples,
/// so every channel of the mean is a byte.
pub proof fn lemma_channel_sums_bounded(samples: Seq<Sample>)
    ensures
        0 <= channel_sums(samples).r <= 255 * samples.len(),
        0 <= channel_sums(samples).g <= 255 * samples.len(),
        0 <= channel_sums(samples).b <= 255 * samples.len(),
        samples.len() > 0 ==> {
            &&& 0 <= channel_sums(samples).r / (samples.len() as int) <= 255
            &&& 0 <= channel_sums(samples).g / (samples.len() as int) <= 255
            &&& 0 <= channel_sums(samples).b / (samples.len() as int) <= 255
        },
    decreases samples.len(),
{
    if samples.len() > 0 {
        lemma_channel_sums_bounded(samples.drop_last());
        let n = samples.len() as int;
        let sums = channel_sums(samples);
        lemma_quotient_bounded(sums.r, n);
        lemma_quotient_bounded(sums.g, n);
        lemma_quotient_bounded(sums.b, n);
    }
}

proof fn lemma_quotient_bounded(total: int, n: int)
    by (nonlinear_arith)
    requires
        n > 0,
        0 <= total <= 255 * n,
    ensures
        0 <= total / n <= 255,
{
}

/// Extending a run of samples by one adds that sample's colour to the totals.
proof fn lemma_channel_sums_step(samples: Seq<Sample>, i: int)
    requires
        0 <= i < samples.len(),
    ensures
        channel_sums(samples.take(i + 1)).r == channel_sums(samples.take(i)).r
            + samples[i].spec_colour().r,
        channel_sums(samples.take(i + 1)).g == channel_sums(samples.take(i)).g
            + samples[i].spec_colour().g,
        channel_sums(samples.take(i + 1)).b == channel_sums(samples.take(i)).b
            + samples[i].spec_colour().b,
{
    assert(samples.take(i + 1).drop_last() =~= samples.take(i));
}

/// Averages the colours of the samples of one pixel: each channel of the
/// result is the sum of that channel over all samples, divided by the number
/// of samples and rounded down.
pub fn average_samples(samples: &[Sample]) -> (pixel: Rgb)
    requires
        samples@.len() > 0,
    ensures
        pixel == mean_colour(samples@),
        pixel.r == channel_sums(samples@).r / (samples@.len() as int),
        pixel.g == channel_sums(samples@).g / (samples@.len() as int),
        pixel.b == channel_sums(samples@).b / (samples@.len() as int),
{
    let count = samples.len();
    let mut r: u128 = 0;
    let mut g: u128 = 0;
    let mut b: u128 = 0;
    let mut i: usize = 0;
    while i < count
        invariant
            count == samples@.len(),
            i <= count,
            r == channel_sums(samples@.take(i as int)).r,
            g == channel_sums(samples@.take(i as int)).g,
            b == channel_sums(samples@.take(i as int)).b,
        decreases count - i,
    {
        proof {
            lemma_channel_sums_bounded(samples@.take(i as int));
            lemma_channel_sums_step(samples@, i as int);
        }
        let c = samples[i].colour();
        r += c.r as u128;
        g += c.g as u128;
        b += c.b as u128;
        i += 1;
    }
    proof {
        assert(samples@.take(count as int) =~= samples@);
        lemma_channel_sums_bounded(samples@);
    }
    let n = count as u128;
    Rgb { r: (r / n) as u8, g: (g / n) as u8, b: (b / n) as u8 }
}

/// The totals of samples that all have the colour `c` are their number times
/// each channel of `c`.
proof fn lemma_uniform_sums(samples: Seq<Sample>, c: Rgb)
    requires
        forall|i: int| 0 <= i < samples.len() ==> (#[trigger] samples[i]).spec_colour() == c,
    ensures
        channel_sums(samples).r == samples.len() * c.r,
        channel_sums(samples).g == samples.len() * c.g,
        channel_sums(samples).b == samples.len() * c.b,
    decreases samples.len(),
{
    if samples.len() > 0 {
        let rest = samples.drop_last();
        assert forall|i: int| 0 <= i < rest.len() implies (#[trigger] rest[i]).spec_colour()
            == c by {
            assert(rest[i] == samples[i]);
        }
        lemma_uniform_sums(rest, c);
        let n = samples.len() as int;
        assert((n - 1) * c.r + c.r == n * c.r) by (nonlinear_arith);
        assert((n - 1) * c.g + c.g == n * c.g) by (nonlinear_arith);
        assert((n - 1) * c.b + c.b == n * c.b) by (nonlinear_arith);
    }
}

proof fn lemma_quotient_of_multiple(n: int, x: int)
    by (nonlinear_arith)
    requires
        n > 0,
        0 <= x,
    ensures
        (n * x) / n == x,
{
}

/// A pixel whose samples all have the same colour has that colour: averaging
/// loses nothing to rounding there.
pub proof fn lemma_uniform_samples_mean(samples: Seq<Sample>, c: Rgb)
    requires
        samples.len() > 0,
        forall|i: int| 0 <= i < samples.len() ==> (#[trigger] samples[i]).spec_colour() == c,
    ensures
        mean_colour(samples) == c,
{
    lemma_uniform_sums(samples, c);
    let n = samples.len() as int;
    lemma_quotient_of_multiple(n, c.r as int);
    lemma_quotient_of_multiple(n, c.g as int);
    lemma_quotient_of_multiple(n, c.b as int);
}

/// With one sample per pixel the pixel has exactly the colour of that sample.
pub proof fn lemma_single_sample_mean(sample: Sample)
    ensures
        mean_colour(seq![sample]) == sample.spec_colour(),
{
    lemma_uniform_samples_mean(seq![sample], sample.spec_colour());
}

/// A pixel none of whose samples escaped is pure white, however many samples
/// it has.
pub proof fn lemma_inside_pixel_is_white(samples: Seq<Sample>)
    requires
        samples.len() > 0,
        forall|i: int| 0 <= i < samples.len() ==> (#[trigger] samples[i]) is Inside,
    ensures
        mean_colour(samples) == (Rgb { r: 255, g: 255, b: 255 }),
{
    lemma_uniform_samples_mean(samples, Rgb::spec_white());
}

} // verus!
