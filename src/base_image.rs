use vstd::prelude::*;

use crate::frame::{shape_check, Frame, FrameError, FrameView, LumaMap, LumaView};
use crate::locate::{baseline_of, compute_light_pos, light_in, read_base_frame};

verus! {

/// A detection as handed to a host: `found` tells a light at (`x`, `y`)
/// apart from no light at all, in which case the other fields are zero.
#[derive(Debug, Clone, Copy, PartialEq, Eq, Structural)]
pub struct FrameInfo {
    pub found: bool,
    pub x: u64,
    pub y: u64,
    pub max_brightness: u8,
}

/// The host-facing record of a detection result.
pub open spec fn frame_info_of(light: Option<(u64, u64, u8)>) -> FrameInfo {
    match light {
        Some((x, y, max_brightness)) => FrameInfo { found: true, x, y, max_brightness },
        None => FrameInfo { found: false, x: 0, y: 0, max_brightness: 0 },
    }
}

/// The RGBA frame described by a size and a buffer.
pub open spec fn rgba_view(width: u32, height: u32, data: Seq<u8>) -> FrameView {
    FrameView { width: width as nat, height: height as nat, data }
}

/// A baseline held for a mapping session, fed with raw buffers.
pub struct BaseImage {
    image: LumaMap,
}

impl View for BaseImage {
    type V = LumaView;

    closed spec fn view(&self) -> LumaView {
        self.image@
    }
}

impl BaseImage {
    pub open spec fn wf(&self) -> bool {
        self@.wf()
    }

    /// Builds the baseline from a `width` x `height` RGBA buffer captured
    /// with no light on.
    pub fn new(width: u32, height: u32, img: Vec<u8>) -> (r: Result<BaseImage, FrameError>)
        ensures
            r is Ok <==> shape_check(width, height, 4, img@.len()) is Ok,
            r is Err ==> r->Err_0 == shape_check(width, height, 4, img@.len())->Err_0,
            r is Ok ==> r->Ok_0@ == baseline_of(rgba_view(width, height, img@)),
            r is Ok ==> r->Ok_0.wf(),
    {
        match Frame::new(width, height, img) {
            Ok(frame) => Ok(BaseImage { image: read_base_frame(&frame) }),
            Err(e) => Err(e),
        }
    }

    /// Takes a baseline that was built earlier, as its `width` x `height`
    /// luminance samples.
    pub fn from_init(width: u32, height: u32, img: Vec<u8>) -> (r: Result<BaseImage, FrameError>)
        ensures
            r is Ok <==> shape_check(width, height, 1, img@.len()) is Ok,
            r is Err ==> r->Err_0 == shape_check(width, height, 1, img@.len())->Err_0,
            r is Ok ==> r->Ok_0@ == (LumaView { width: width as nat, height: height as nat, data: img@ }),
            r is Ok ==> r->Ok_0.wf(),
    {
        match LumaMap::new(width, height, img) {
            Ok(image) => Ok(BaseImage { image }),
            Err(e) => Err(e),
        }
    }

    /// Locates the light in a `width` x `height` RGBA buffer against this
    /// baseline.
    pub fn compute_frame(&self, width: u32, height: u32, img: Vec<u8>) -> (r: Result<FrameInfo, FrameError>)
        requires
            self.wf(),
        ensures
            shape_check(width, height, 4, img@.len()) is Err
                ==> r == Err::<FrameInfo, FrameError>(shape_check(width, height, 4, img@.len())->Err_0),
            shape_check(width, height, 4, img@.len()) is Ok && (width != self@.width || height != self@.height)
                ==> r == Err::<FrameInfo, FrameError>(FrameError::DimensionMismatch),
            shape_check(width, height, 4, img@.len()) is Ok && width == self@.width && height == self@.height
                ==> r == Ok::<FrameInfo, FrameError>(frame_info_of(light_in(self@, rgba_view(width, height, img@)))),
    {
        let frame = match Frame::new(width, height, img) {
            Ok(frame) => frame,
            Err(e) => return Err(e),
        };
        match compute_light_pos(&self.image, &frame) {
            Ok(Some((x, y, max_brightness))) => Ok(FrameInfo { found: true, x, y, max_brightness }),
            Ok(None) => Ok(FrameInfo { found: false, x: 0, y: 0, max_brightness: 0 }),
            Err(e) => Err(e),
        }
    }

    /// The baseline's luminance samples, row by row.
    pub fn inner(&self) -> (r: Vec<u8>)
        ensures
            r@ == self@.data,
    {
        let src = self.image.samples();
        let mut out: Vec<u8> = Vec::new();
        let mut i: usize = 0;
        while i < src.len()
            invariant
                i <= src@.len(),
                out@ == src@.subrange(0, i as int),
            decreases src@.len() - i,
        {
            out.push(src[i]);
            i = i + 1;
        }
        assert(out@ =~= src@);
        out
    }
}

} // verus!
