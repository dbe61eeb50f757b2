use vstd::prelude::*;
use vstd::arithmetic::div_mod::lemma_div_multiples_vanish;

use crate::blob::{blob_of, find_blob, lemma_blob_within_frame, lemma_no_blob_iff_dark, peak};
use crate::frame::{difference, sat_sub, subtract, Frame, FrameError, FrameView, LumaMap, LumaView};
use crate::imaging::{gaussian_blur, gaussian_blurred, grayscale_of, grayscale_rgba};

verus! {

/// Standard deviation, in pixels, of the blur applied to every frame.
pub const BLUR_SIGMA: u8 = 3;

/// A frame's luminance after grayscale conversion and Gaussian blur.
pub open spec fn smoothed_luminance(f: FrameView) -> Seq<u8> {
    gaussian_blurred(f.width, f.height, BLUR_SIGMA as nat, grayscale_of(f.data))
}

/// The baseline built from an ambient frame.
pub open spec fn baseline_of(f: FrameView) -> LumaView {
    LumaView { width: f.width, height: f.height, data: smoothed_luminance(f) }
}

/// The map of how much brighter each pixel of `lit` is than the baseline.
pub open spec fn difference_map(base: LumaView, lit: FrameView) -> Seq<u8> {
    difference(smoothed_luminance(lit), base.data)
}

/// The light found in `lit` against the baseline `base`.
pub open spec fn light_in(base: LumaView, lit: FrameView) -> Option<(u64, u64, u8)> {
    blob_of(difference_map(base, lit), lit.width)
}

/// Grayscale conversion followed by the Gaussian blur.
fn smooth(frame: &Frame) -> (r: LumaMap)
    requires
        frame@.wf(),
    ensures
        r@ == baseline_of(frame@),
        r@.wf(),
{
    let width = frame.width();
    let height = frame.height();
    proof {
        let n = (width * height) as int;
        assert(frame@.data.len() == 4 * n) by (nonlinear_arith)
            requires
                frame@.data.len() == width * height * 4,
                n == width * height,
        ;
        lemma_div_multiples_vanish(n, 4);
    }
    let gray = grayscale_rgba(width, height, frame.samples());
    let blurred = gaussian_blur(width, height, BLUR_SIGMA, gray);
    LumaMap::from_parts(width, height, blurred)
}

/// Builds the baseline from a frame captured with no light on: its
/// luminance, blurred.
pub fn read_base_frame(base: &Frame) -> (r: LumaMap)
    requires
        base@.wf(),
    ensures
        r@ == baseline_of(base@),
        r@.wf(),
{
    smooth(base)
}

/// Locates the light in `lit` against the baseline `base`: `lit` is smoothed
/// as the baseline was, the baseline is subtracted with clamping at zero, and
/// the light is the weighted centroid of the difference map's samples above
/// half its peak. A frame whose size differs from the baseline's is refused.
pub fn compute_light_pos(base: &LumaMap, lit: &Frame) -> (r: Result<Option<(u64, u64, u8)>, FrameError>)
    requires
        base@.wf(),
        lit@.wf(),
    ensures
        (base@.width != lit@.width || base@.height != lit@.height)
            <==> r == Err::<Option<(u64, u64, u8)>, FrameError>(FrameError::DimensionMismatch),
        (base@.width == lit@.width && base@.height == lit@.height)
            ==> r == Ok::<Option<(u64, u64, u8)>, FrameError>(light_in(base@, lit@)),
        r matches Ok(Some((x, y, intensity))) ==> {
            &&& x < lit@.width
            &&& y < lit@.height
            &&& intensity == peak(difference_map(base@, lit@)) / 2
        },
{
    if base.width() != lit.width() || base.height() != lit.height() {
        return Err(FrameError::DimensionMismatch);
    }
    let mut diff = smooth(lit);
    match subtract(&mut diff, base) {
        Ok(()) => {},
        Err(e) => return Err(e),
    }
    proof {
        lemma_blob_within_frame(diff@.data, diff@.width, diff@.height);
    }
    Ok(find_blob(&diff))
}

/// Building a baseline is deterministic: frames with the same size and
/// samples give the same baseline.
pub proof fn lemma_baseline_deterministic(a: FrameView, b: FrameView)
    requires
        a.width == b.width,
        a.height == b.height,
        a.data == b.data,
    ensures
        baseline_of(a) == baseline_of(b),
{
}

/// A frame compared against the baseline built from that same frame shows no
/// light: every difference is zero, so no sample passes the threshold.
pub proof fn lemma_unchanged_frame_is_dark(f: FrameView)
    ensures
        forall|i: int| 0 <= i < difference_map(baseline_of(f), f).len()
            ==> #[trigger] difference_map(baseline_of(f), f)[i] == 0,
        light_in(baseline_of(f), f) is None,
{
    let d = difference_map(baseline_of(f), f);
    assert forall|i: int| 0 <= i < d.len() implies d[i] == 0 by {
        assert(d[i] == sat_sub(smoothed_luminance(f)[i], smoothed_luminance(f)[i]));
    }
    lemma_no_blob_iff_dark(d, f.width);
}

} // verus!
