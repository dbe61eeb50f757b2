//! Locating a single point light in a camera frame by differencing it against
//! a smoothed ambient baseline and taking the intensity-weighted centroid of
//! the brightest difference pixels.

mod base_image;
mod blob;
mod frame;
mod imaging;
mod locate;

pub use base_image::{frame_info_of, rgba_view, BaseImage, FrameInfo};
pub use blob::{blob_of, find_blob, lemma_blob_within_frame, lemma_no_blob_iff_dark, lemma_peak_is_maximum, peak, threshold};
pub use frame::{difference, sat_sub, shape_check, subtract, MAX_SIDE, Frame, FrameError, FrameView, LumaMap, LumaView};
pub use imaging::{gaussian_blurred, grayscale_of, luma_of_rgb};
pub use locate::{
    baseline_of, compute_light_pos, difference_map, lemma_baseline_deterministic,
    lemma_unchanged_frame_is_dark, light_in, read_base_frame, smoothed_luminance,
    BLUR_SIGMA,
};
