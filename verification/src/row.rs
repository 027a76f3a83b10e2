//! One image row as bytes: three per pixel, left to right.

use crate::colour::{Rgb, Sample};
use crate::pixel::{
    average_samples, lemma_inside_pixel_is_white, lemma_single_sample_mean, mean_colour,
};
use vstd::prelude::*;
use vstd::slice::slice_subrange;

verus! {

/// The samples of the pixel in column `column`, where every pixel has
/// `num_samples` samples and `samples` holds them pixel after pixel.
pub open spec fn pixel_samples(samples: Seq<Sample>, column: int, num_samples: int) -> Seq<
    Sample,
> {
    samples.subrange(column * num_samples, (column + 1) * num_samples)
}

/// The byte that channel `channel` of colour `c` contributes: red, green and
/// blue are channels 0, 1 and 2.
pub open spec fn channel_byte(c: Rgb, channel: int) -> u8 {
    if channel == 0 {
        c.r
    } else if channel == 1 {
        c.g
    } else {
        c.b
    }
}

/// The bytes of a row of `width` pixels: byte `3 * x + k` is channel `k` of
/// the mean colour of the samples of column `x`.
pub open spec fn row_bytes(samples: Seq<Sample>, width: nat, num_samples: nat) -> Seq<u8> {
    Seq::new(
        3 * width,
        |i: int|
            channel_byte(mean_colour(pixel_samples(samples, i / 3, num_samples as int)), i % 3),
    )
}

/// Column `column + 1` starts where column `column` ends, and both lie inside
/// a row of `width` columns.
proof fn lemma_column_bounds(column: int, width: int, num_samples: int)
    by (nonlinear_arith)
    requires
        0 <= column < width,
        0 < num_samples,
    ensures
        0 <= column * num_samples,
        (column + 1) * num_samples == column * num_samples + num_samples,
        (column + 1) * num_samples <= width * num_samples,
{
}

/// Renders one row from the samples of its pixels.
///
/// `samples` holds `num_samples` samples for each of the `width` columns, the
/// samples of one pixel next to each other, the pixels from left to right.
/// The row has `3 * width` bytes: red, green and blue of each pixel's mean
/// colour.
pub fn render_row(width: u32, num_samples: u32, samples: &[Sample]) -> (row: Vec<u8>)
    requires
        num_samples > 0,
        samples@.len() == width * num_samples,
    ensures
        row@ == row_bytes(samples@, width as nat, num_samples as nat),
        row@.len() == 3 * width,
{
    let mut row: Vec<u8> = Vec::new();
    let per_pixel = num_samples as usize;
    let total = samples.len();
    let mut column: u32 = 0;
    while column < width
        invariant
            column <= width,
            num_samples > 0,
            per_pixel == num_samples,
            total == samples@.len() == width * num_samples,
            row@.len() == 3 * column,
            forall|i: int|
                0 <= i < 3 * column ==> row@[i] == channel_byte(
                    mean_colour(pixel_samples(samples@, i / 3, num_samples as int)),
                    i % 3,
                ),
        decreases width - column,
    {
        proof {
            lemma_column_bounds(column as int, width as int, num_samples as int);
        }
        let first = (column as usize) * per_pixel;
        let pixel = average_samples(slice_subrange(samples, first, first + per_pixel));
        row.push(pixel.r);
        row.push(pixel.g);
        row.push(pixel.b);
        column += 1;
    }
    assert(row@ =~= row_bytes(samples@, width as nat, num_samples as nat));
    row
}

/// With one sample per pixel every pixel of the row has exactly the colour of
/// its sample.
pub proof fn lemma_single_sample_row(samples: Seq<Sample>, width: nat)
    requires
        samples.len() == width,
    ensures
        row_bytes(samples, width, 1).len() == 3 * width,
        forall|x: int|
            0 <= x < width ==> {
                &&& row_bytes(samples, width, 1)[3 * x] == (#[trigger] samples[x]).spec_colour().r
                &&& row_bytes(samples, width, 1)[3 * x + 1] == samples[x].spec_colour().g
                &&& row_bytes(samples, width, 1)[3 * x + 2] == samples[x].spec_colour().b
            },
{
    assert forall|x: int| 0 <= x < width implies {
        &&& row_bytes(samples, width, 1)[3 * x] == (#[trigger] samples[x]).spec_colour().r
        &&& row_bytes(samples, width, 1)[3 * x + 1] == samples[x].spec_colour().g
        &&& row_bytes(samples, width, 1)[3 * x + 2] == samples[x].spec_colour().b
    } by {
        assert(pixel_samples(samples, x, 1) =~= seq![samples[x]]);
        lemma_single_sample_mean(samples[x]);
    }
}

/// A row none of whose samples escaped is pure white from end to end.
pub proof fn lemma_inside_row_is_white(samples: Seq<Sample>, width: nat, num_samples: nat)
    requires
        num_samples > 0,
        samples.len() == width * num_samples,
        forall|i: int| 0 <= i < samples.len() ==> (#[trigger] samples[i]) is Inside,
    ensures
        row_bytes(samples, width, num_samples) == Seq::new(3 * width, |i: int| 255u8),
{
    let row = row_bytes(samples, width, num_samples);
    assert forall|i: int| 0 <= i < 3 * width implies row[i] == 255u8 by {
        lemma_column_bounds(i / 3, width as int, num_samples as int);
        lemma_inside_pixel_is_white(pixel_samples(samples, i / 3, num_samples as int));
    }
    assert(row =~= Seq::new(3 * width, |i: int| 255u8));
}

} // verus!
