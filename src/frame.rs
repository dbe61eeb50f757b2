use vstd::prelude::*;

verus! {

/// Why a pixel buffer was refused.
#[derive(Debug, Clone, Copy, PartialEq, Eq, Structural)]
pub enum FrameError {
    /// Width or height is zero.
    EmptyFrame,
    /// The buffer does not hold exactly one sample per pixel and channel.
    BufferLength,
    /// Two frames that must be compared have different dimensions.
    DimensionMismatch,
    /// Width or height exceeds `MAX_SIDE`.
    TooLarge,
}

/// The largest width or height accepted, in pixels.
pub const MAX_SIDE: u32 = 0x4000_0000;

/// Whether a buffer of `len` samples describes a `width` x `height` image with
/// `channels` samples per pixel, and if not, why.
pub open spec fn shape_check(width: u32, height: u32, channels: u32, len: nat) -> Result<(), FrameError> {
    if width == 0 || height == 0 {
        Err(FrameError::EmptyFrame)
    } else if width > MAX_SIDE || height > MAX_SIDE {
        Err(FrameError::TooLarge)
    } else if len != width * height * channels {
        Err(FrameError::BufferLength)
    } else {
        Ok(())
    }
}

/// What a captured frame holds: its size and its RGBA samples, row by row.
pub struct FrameView {
    pub width: nat,
    pub height: nat,
    pub data: Seq<u8>,
}

/// What a single-channel luminance map holds: its size and one sample per
/// pixel, row by row.
pub struct LumaView {
    pub width: nat,
    pub height: nat,
    pub data: Seq<u8>,
}

impl FrameView {
    pub open spec fn wf(self) -> bool {
        &&& self.width > 0
        &&& self.height > 0
        &&& self.width <= MAX_SIDE
        &&& self.height <= MAX_SIDE
        &&& self.data.len() == self.width * self.height * 4
    }
}

impl LumaView {
    pub open spec fn wf(self) -> bool {
        &&& self.width > 0
        &&& self.height > 0
        &&& self.width <= MAX_SIDE
        &&& self.height <= MAX_SIDE
        &&& self.data.len() == self.width * self.height
    }
}

/// `a - b`, clamped at zero.
pub open spec fn sat_sub(a: u8, b: u8) -> u8 {
    if a > b {
        (a - b) as u8
    } else {
        0
    }
}

/// The per-pixel difference `lit - base`, clamped at zero.
pub open spec fn difference(lit: Seq<u8>, base: Seq<u8>) -> Seq<u8> {
    Seq::new(lit.len(), |i: int| sat_sub(lit[i], base[i]))
}

/// A captured frame: four 8-bit channels (red, green, blue, alpha) per pixel,
/// stored row by row.
pub struct Frame {
    width: u32,
    height: u32,
    data: Vec<u8>,
}

/// A single-channel 8-bit luminance map, stored row by row.
pub struct LumaMap {
    width: u32,
    height: u32,
    data: Vec<u8>,
}

/// Checks that a buffer of `len` samples describes a non-empty
/// `width` x `height` image with `channels` samples per pixel.
fn check_shape(width: u32, height: u32, channels: u32, len: usize) -> (r: Result<(), FrameError>)
    ensures
        r == shape_check(width, height, channels, len as nat),
{
    if width == 0 || height == 0 {
        return Err(FrameError::EmptyFrame);
    }
    if width > MAX_SIDE || height > MAX_SIDE {
        return Err(FrameError::TooLarge);
    }
    proof {
        let (w, h, c) = (width as int, height as int, channels as int);
        assert(0 <= w * h <= 0xffff_ffff * 0xffff_ffff) by (nonlinear_arith)
            requires 0 <= w <= 0xffff_ffff, 0 <= h <= 0xffff_ffff;
        assert(0 <= w * h * c <= 0xffff_ffff * 0xffff_ffff * 0xffff_ffff) by (nonlinear_arith)
            requires 0 <= w * h <= 0xffff_ffff * 0xffff_ffff, 0 <= c <= 0xffff_ffff;
    }
    let expected: u128 = (width as u128) * (height as u128) * (channels as u128);
    if len as u128 != expected {
        Err(FrameError::BufferLength)
    } else {
        Ok(())
    }
}

impl View for Frame {
    type V = FrameView;

    closed spec fn view(&self) -> FrameView {
        FrameView { width: self.width as nat, height: self.height as nat, data: self.data@ }
    }
}

impl View for LumaMap {
    type V = LumaView;

    closed spec fn view(&self) -> LumaView {
        LumaView { width: self.width as nat, height: self.height as nat, data: self.data@ }
    }
}

impl Frame {
    /// Wraps an RGBA buffer of `width * height * 4` samples.
    pub fn new(width: u32, height: u32, data: Vec<u8>) -> (r: Result<Frame, FrameError>)
        ensures
            r is Ok <==> shape_check(width, height, 4, data@.len()) is Ok,
            r is Err ==> r->Err_0 == shape_check(width, height, 4, data@.len())->Err_0,
            r is Ok ==> r->Ok_0@ == (FrameView { width: width as nat, height: height as nat, data: data@ }),
            r is Ok ==> r->Ok_0@.wf(),
    {
        match check_shape(width, height, 4, data.len()) {
            Ok(()) => Ok(Frame { width, height, data }),
            Err(e) => Err(e),
        }
    }

    pub fn width(&self) -> (r: u32)
        ensures
            r == self@.width,
    {
        self.width
    }

    pub fn height(&self) -> (r: u32)
        ensures
            r == self@.height,
    {
        self.height
    }

    /// The RGBA samples, row by row.
    pub fn samples(&self) -> (r: &Vec<u8>)
        ensures
            r@ == self@.data,
    {
        &self.data
    }
}

impl LumaMap {
    /// Wraps a luminance buffer of `width * height` samples.
    pub fn new(width: u32, height: u32, data: Vec<u8>) -> (r: Result<LumaMap, FrameError>)
        ensures
            r is Ok <==> shape_check(width, height, 1, data@.len()) is Ok,
            r is Err ==> r->Err_0 == shape_check(width, height, 1, data@.len())->Err_0,
            r is Ok ==> r->Ok_0@ == (LumaView { width: width as nat, height: height as nat, data: data@ }),
            r is Ok ==> r->Ok_0@.wf(),
    {
        match check_shape(width, height, 1, data.len()) {
            Ok(()) => Ok(LumaMap { width, height, data }),
            Err(e) => Err(e),
        }
    }

    /// Wraps a buffer already known to have the right length.
    pub(crate) fn from_parts(width: u32, height: u32, data: Vec<u8>) -> (r: LumaMap)
        requires
            width > 0,
            height > 0,
            width <= MAX_SIDE,
            height <= MAX_SIDE,
            data@.len() == width * height,
        ensures
            r@ == (LumaView { width: width as nat, height: height as nat, data: data@ }),
            r@.wf(),
    {
        LumaMap { width, height, data }
    }

    pub fn width(&self) -> (r: u32)
        ensures
            r == self@.width,
    {
        self.width
    }

    pub fn height(&self) -> (r: u32)
        ensures
            r == self@.height,
    {
        self.height
    }

    /// The luminance samples, row by row.
    pub fn samples(&self) -> (r: &Vec<u8>)
        ensures
            r@ == self@.data,
    {
        &self.data
    }
}

/// Subtracts `rhs` from `lhs` sample by sample, clamping at zero: a pixel
/// darker in `lhs` than in `rhs` gives zero, never a wrapped value. Maps of
/// different sizes are refused and `lhs` is left as it was.
pub fn subtract(lhs: &mut LumaMap, rhs: &LumaMap) -> (r: Result<(), FrameError>)
    requires
        old(lhs)@.wf(),
        rhs@.wf(),
    ensures
        (old(lhs)@.width != rhs@.width || old(lhs)@.height != rhs@.height)
            ==> r == Err::<(), FrameError>(FrameError::DimensionMismatch),
        (old(lhs)@.width == rhs@.width && old(lhs)@.height == rhs@.height) ==> r is Ok,
        r is Err ==> *final(lhs) == *old(lhs),
        r is Ok ==> final(lhs)@ == (LumaView {
            width: old(lhs)@.width,
            height: old(lhs)@.height,
            data: difference(old(lhs)@.data, rhs@.data),
        }),
        final(lhs)@.wf(),
        r is Ok ==> forall|i: int|
            0 <= i < final(lhs)@.data.len() ==> {
                &&& final(lhs)@.data[i] <= old(lhs)@.data[i]
                &&& old(lhs)@.data[i] >= rhs@.data[i] ==> final(lhs)@.data[i] == old(lhs)@.data[i] - rhs@.data[i]
                &&& old(lhs)@.data[i] <= rhs@.data[i] ==> final(lhs)@.data[i] == 0
            },
{
    if lhs.width != rhs.width || lhs.height != rhs.height {
        return Err(FrameError::DimensionMismatch);
    }
    let n = lhs.data.len();
    let ghost before = lhs.data@;
    let mut i: usize = 0;
    while i < n
        invariant
            i <= n,
            n == before.len(),
            n == rhs.data@.len(),
            lhs.data@.len() == n,
            lhs.width == old(lhs).width,
            lhs.height == old(lhs).height,
            before == old(lhs).data@,
            forall|j: int| 0 <= j < i ==> lhs.data@[j] == sat_sub(before[j], rhs.data@[j]),
            forall|j: int| i <= j < n ==> lhs.data@[j] == before[j],
        decreases n - i,
    {
        let l = lhs.data[i];
        let r = rhs.data[i];
        let v: u8 = if l > r {
            l - r
        } else {
            0
        };
        lhs.data.set(i, v);
        i = i + 1;
    }
    assert(lhs.data@ =~= difference(before, rhs.data@));
    Ok(())
}

} // verus!
