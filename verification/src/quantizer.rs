//! Folds a glyph's coverage samples into a bitmap: each sample is moved to
//! its place on the canvas, dropped if that place is off the canvas, and
//! thresholded to one bit.

use vstd::prelude::*;
use crate::bitmap::{on_canvas, Bitmap};
use crate::coverage::{coverage_is_ink, is_ink};
use crate::raster::{CoverageSample, GlyphRaster, GlyphRasterView, PixelBoundingBox};

verus! {

/// The canvas pixels that a glyph with these bounds and samples puts ink on:
/// those that some sample with a coverage above the threshold falls on.
pub open spec fn ink_of(bounds: PixelBoundingBox, samples: Seq<CoverageSample>) -> Set<(int, int)> {
    Set::new(
        |p: (int, int)|
            on_canvas(p.0, p.1) && exists|i: int|
                0 <= i < samples.len() && #[trigger] samples[i].inks(bounds, p.0, p.1),
    )
}

impl GlyphRasterView {
    /// The canvas pixels that the glyph puts ink on. A glyph without a
    /// bounding box puts ink on none, whatever its samples.
    pub open spec fn ink(self) -> Set<(int, int)> {
        match self.bounds {
            Some(bounds) => ink_of(bounds, self.samples),
            None => Set::empty(),
        }
    }
}

/// A glyph without samples has no ink.
pub proof fn lemma_no_samples_no_ink(bounds: PixelBoundingBox)
    ensures
        ink_of(bounds, Seq::<CoverageSample>::empty()) == Set::<(int, int)>::empty(),
{
    assert(ink_of(bounds, Seq::<CoverageSample>::empty()) =~= Set::<(int, int)>::empty());
}

/// One more sample adds the pixel that it inks, if that pixel is on the
/// canvas, and takes no ink away.
pub proof fn lemma_ink_of_push(
    bounds: PixelBoundingBox,
    samples: Seq<CoverageSample>,
    sample: CoverageSample,
)
    ensures
        ink_of(bounds, samples.push(sample)) == ink_of(bounds, samples).union(
            ink_of(bounds, seq![sample]),
        ),
        ink_of(bounds, samples).subset_of(ink_of(bounds, samples.push(sample))),
        ink_of(bounds, seq![sample]) == if coverage_is_ink(sample.coverage) && on_canvas(
            sample.column(bounds),
            sample.row(bounds),
        ) {
            set![(sample.column(bounds), sample.row(bounds))]
        } else {
            Set::<(int, int)>::empty()
        },
{
    let more = samples.push(sample);
    let one = seq![sample];
    let n = samples.len() as int;
    assert forall|p: (int, int)|
        ink_of(bounds, more).contains(p) <==> ink_of(bounds, samples).contains(p) || ink_of(
            bounds,
            one,
        ).contains(p) by {
        if ink_of(bounds, more).contains(p) {
            let i = choose|i: int| 0 <= i < more.len() && #[trigger] more[i].inks(bounds, p.0, p.1);
            if i < n {
                assert(samples[i].inks(bounds, p.0, p.1));
            } else {
                assert(one[0].inks(bounds, p.0, p.1));
            }
        }
        if ink_of(bounds, samples).contains(p) {
            let i = choose|i: int|
                0 <= i < samples.len() && #[trigger] samples[i].inks(bounds, p.0, p.1);
            assert(more[i].inks(bounds, p.0, p.1));
        }
        if ink_of(bounds, one).contains(p) {
            assert(more[n].inks(bounds, p.0, p.1));
        }
    }
    assert(ink_of(bounds, more) =~= ink_of(bounds, samples).union(ink_of(bounds, one)));
    let spot = (sample.column(bounds), sample.row(bounds));
    if coverage_is_ink(sample.coverage) && on_canvas(spot.0, spot.1) {
        assert(one[0].inks(bounds, spot.0, spot.1));
        assert(ink_of(bounds, one) =~= set![spot]);
    } else {
        assert(ink_of(bounds, one) =~= Set::<(int, int)>::empty());
    }
}

/// A sample on the canvas with a coverage above the threshold sets its
/// pixel, whatever came before it.
pub proof fn lemma_ink_sample_sets_its_pixel(
    bounds: PixelBoundingBox,
    samples: Seq<CoverageSample>,
    sample: CoverageSample,
)
    requires
        coverage_is_ink(sample.coverage),
        on_canvas(sample.column(bounds), sample.row(bounds)),
    ensures
        ink_of(bounds, samples.push(sample)) == ink_of(bounds, samples).insert(
            (sample.column(bounds), sample.row(bounds)),
        ),
{
    lemma_ink_of_push(bounds, samples, sample);
    assert(ink_of(bounds, samples.push(sample)) =~= ink_of(bounds, samples).insert(
        (sample.column(bounds), sample.row(bounds)),
    ));
}

/// Clipping: a sample that falls off the canvas changes no pixel.
pub proof fn lemma_clipped_sample_is_dropped(
    bounds: PixelBoundingBox,
    samples: Seq<CoverageSample>,
    sample: CoverageSample,
)
    requires
        !on_canvas(sample.column(bounds), sample.row(bounds)),
    ensures
        ink_of(bounds, samples.push(sample)) == ink_of(bounds, samples),
{
    lemma_ink_of_push(bounds, samples, sample);
    assert(ink_of(bounds, samples.push(sample)) =~= ink_of(bounds, samples));
}

/// Thresholding: a sample whose coverage is not above the threshold changes
/// no pixel.
pub proof fn lemma_faint_sample_is_dropped(
    bounds: PixelBoundingBox,
    samples: Seq<CoverageSample>,
    sample: CoverageSample,
)
    requires
        !coverage_is_ink(sample.coverage),
    ensures
        ink_of(bounds, samples.push(sample)) == ink_of(bounds, samples),
{
    lemma_ink_of_push(bounds, samples, sample);
    assert(ink_of(bounds, samples.push(sample)) =~= ink_of(bounds, samples));
}

/// Setting is idempotent: a sample that the glyph already has changes no
/// pixel when it comes again.
pub proof fn lemma_repeated_sample_changes_nothing(
    bounds: PixelBoundingBox,
    samples: Seq<CoverageSample>,
    i: int,
)
    requires
        0 <= i < samples.len(),
    ensures
        ink_of(bounds, samples.push(samples[i])) == ink_of(bounds, samples),
{
    let sample = samples[i];
    lemma_ink_of_push(bounds, samples, sample);
    if coverage_is_ink(sample.coverage) && on_canvas(sample.column(bounds), sample.row(bounds)) {
        assert(samples[i].inks(bounds, sample.column(bounds), sample.row(bounds)));
    }
    assert(ink_of(bounds, samples.push(sample)) =~= ink_of(bounds, samples));
}

/// The ink does not depend on the order in which the samples come, nor on
/// how often each one comes: two glyphs with the same samples have the same
/// ink.
pub proof fn lemma_ink_of_same_samples(
    bounds: PixelBoundingBox,
    first: Seq<CoverageSample>,
    second: Seq<CoverageSample>,
)
    requires
        forall|sample: CoverageSample| first.contains(sample) <==> second.contains(sample),
    ensures
        ink_of(bounds, first) == ink_of(bounds, second),
{
    assert forall|p: (int, int)| ink_of(bounds, first).contains(p) implies ink_of(
        bounds,
        second,
    ).contains(p) by {
        let i = choose|i: int| 0 <= i < first.len() && #[trigger] first[i].inks(bounds, p.0, p.1);
        assert(first.contains(first[i]));
        let j = choose|j: int| 0 <= j < second.len() && second[j] == first[i];
        assert(second[j].inks(bounds, p.0, p.1));
    }
    assert forall|p: (int, int)| ink_of(bounds, second).contains(p) implies ink_of(
        bounds,
        first,
    ).contains(p) by {
        let i = choose|i: int| 0 <= i < second.len() && #[trigger] second[i].inks(bounds, p.0, p.1);
        assert(second.contains(second[i]));
        let j = choose|j: int| 0 <= j < first.len() && first[j] == second[i];
        assert(first[j].inks(bounds, p.0, p.1));
    }
    assert(ink_of(bounds, first) =~= ink_of(bounds, second));
}

/// Applies one sample to `bitmap`: sets the pixel that the sample falls on
/// if that pixel is on the canvas and the coverage is above the threshold,
/// and changes nothing otherwise.
pub fn plot(bitmap: &mut Bitmap, bounds: &PixelBoundingBox, sample: &CoverageSample)
    ensures
        final(bitmap)@ == old(bitmap)@.union(ink_of(*bounds, seq![*sample])),
        !(coverage_is_ink(sample.coverage) && on_canvas(
            sample.column(*bounds),
            sample.row(*bounds),
        )) ==> *final(bitmap) == *old(bitmap),
{
    let px: i64 = bounds.min_x as i64 + sample.x as i64;
    let py: i64 = bounds.min_y as i64 + sample.y as i64;
    proof {
        lemma_ink_of_push(*bounds, Seq::empty(), *sample);
    }
    if 0 <= px && px < 32 && 0 <= py && py < 32 && is_ink(sample.coverage) {
        bitmap.set_pixel(px as usize, py as usize);
        assert(bitmap@ =~= old(bitmap)@.union(ink_of(*bounds, seq![*sample])));
    } else {
        assert(bitmap@ =~= old(bitmap)@.union(ink_of(*bounds, seq![*sample])));
    }
}

/// The Bitmap Quantizer: turns what the font reports for one glyph into one
/// bitmap.
///
/// A pixel of the result is set exactly when some sample falls on it with a
/// coverage above the threshold. Without a bounding box, or without samples,
/// all 32 rows are zero.
pub fn quantize(raster: &GlyphRaster) -> (bitmap: Bitmap)
    ensures
        bitmap@ == raster@.ink(),
        raster.bounds is None || raster.samples@.len() == 0 ==> bitmap.is_blank(),
{
    let mut bitmap = Bitmap::blank();
    if let Some(bounds) = raster.bounds {
        let count: usize = raster.samples.len();
        let mut i: usize = 0;
        proof {
            lemma_no_samples_no_ink(bounds);
        }
        while i < count
            invariant
                i <= count,
                count == raster.samples@.len(),
                bitmap@ == ink_of(bounds, raster.samples@.take(i as int)),
                i == 0 ==> bitmap.is_blank(),
            decreases count - i,
        {
            proof {
                let done = raster.samples@.take(i as int);
                lemma_ink_of_push(bounds, done, raster.samples@[i as int]);
                assert(done.push(raster.samples@[i as int]) =~= raster.samples@.take(i + 1));
            }
            plot(&mut bitmap, &bounds, &raster.samples[i]);
            i = i + 1;
        }
        assert(raster.samples@.take(count as int) =~= raster.samples@);
    }
    bitmap
}

} // verus!
