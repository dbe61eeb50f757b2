use led_map::{
    compute_light_pos, find_blob, read_base_frame, subtract, BaseImage, Frame, FrameError, FrameInfo, LumaMap,
    MAX_SIDE,
};

fn luma(width: u32, height: u32, data: Vec<u8>) -> LumaMap {
    LumaMap::new(width, height, data).unwrap()
}

fn gray_frame(width: u32, height: u32, lit: &[(u32, u32, u8)]) -> Frame {
    let mut data = vec![0u8; (width * height * 4) as usize];
    for i in 0..(width * height) as usize {
        data[4 * i + 3] = 255;
    }
    for &(x, y, v) in lit {
        let i = ((y * width + x) * 4) as usize;
        data[i] = v;
        data[i + 1] = v;
        data[i + 2] = v;
    }
    Frame::new(width, height, data).unwrap()
}

#[test]
fn blob_single_bright_pixel() {
    let map = luma(3, 2, vec![0, 10, 0, 0, 20, 0]);
    assert_eq!(find_blob(&map), Some((1, 1, 10)));
}

#[test]
fn blob_weighted_centroid_rounds_down() {
    let map = luma(4, 1, vec![0, 100, 100, 0]);
    assert_eq!(find_blob(&map), Some((1, 0, 50)));
}

#[test]
fn blob_weighted_centroid_two_rows() {
    // peak 90, threshold 45: (0,0) w=90, (2,1) w=60, (1,1) w=45 excluded
    let map = luma(3, 2, vec![90, 0, 10, 0, 45, 60]);
    // x = (0*90 + 2*60) / 150 = 0, y = (0*90 + 1*60) / 150 = 0
    assert_eq!(find_blob(&map), Some((0, 0, 45)));
    let map = luma(3, 2, vec![50, 0, 10, 0, 45, 90]);
    // x = (0*50 + 2*90) / 140 = 1, y = 90 / 140 = 0
    assert_eq!(find_blob(&map), Some((1, 0, 45)));
}

#[test]
fn blob_threshold_is_strict() {
    let map = luma(2, 1, vec![10, 5]);
    assert_eq!(find_blob(&map), Some((0, 0, 5)));
}

#[test]
fn blob_all_zero_is_none() {
    let map = luma(4, 4, vec![0; 16]);
    assert_eq!(find_blob(&map), None);
}

#[test]
fn blob_single_unit_pixel_found() {
    let map = luma(4, 4, {
        let mut v = vec![0; 16];
        v[15] = 1;
        v
    });
    assert_eq!(find_blob(&map), Some((3, 3, 0)));
}

#[test]
fn subtract_saturates_at_zero() {
    let mut lit = luma(3, 1, vec![10, 5, 200]);
    let base = luma(3, 1, vec![3, 9, 200]);
    assert_eq!(subtract(&mut lit, &base), Ok(()));
    assert_eq!(lit.samples(), &vec![7, 0, 0]);
    let mut dark = luma(2, 1, vec![0, 0]);
    assert_eq!(subtract(&mut dark, &luma(2, 1, vec![255, 1])), Ok(()));
    assert_eq!(dark.samples(), &vec![0, 0]);
}

#[test]
fn subtract_refuses_other_sizes() {
    let mut lit = luma(3, 1, vec![10, 5, 200]);
    assert_eq!(subtract(&mut lit, &luma(2, 1, vec![1, 1])), Err(FrameError::DimensionMismatch));
    assert_eq!(subtract(&mut lit, &luma(1, 3, vec![1, 1, 1])), Err(FrameError::DimensionMismatch));
    assert_eq!(lit.samples(), &vec![10, 5, 200]);
}

#[test]
fn oversized_frames_are_refused() {
    assert_eq!(Frame::new(MAX_SIDE + 1, 1, vec![]).err(), Some(FrameError::TooLarge));
    assert_eq!(Frame::new(1, u32::MAX, vec![]).err(), Some(FrameError::TooLarge));
    assert_eq!(LumaMap::new(u32::MAX, 1, vec![]).err(), Some(FrameError::TooLarge));
    assert_eq!(BaseImage::new(1 << 31, 1, vec![]).err(), Some(FrameError::TooLarge));
    assert_eq!(BaseImage::from_init(1, MAX_SIDE + 1, vec![]).err(), Some(FrameError::TooLarge));
    assert_eq!(Frame::new(MAX_SIDE, 1, vec![0; 4]).err(), Some(FrameError::BufferLength));
}

#[test]
fn frame_rejects_bad_shapes() {
    assert_eq!(Frame::new(0, 4, vec![]).err(), Some(FrameError::EmptyFrame));
    assert_eq!(Frame::new(2, 2, vec![0; 15]).err(), Some(FrameError::BufferLength));
    assert!(Frame::new(2, 2, vec![0; 16]).is_ok());
    assert_eq!(LumaMap::new(3, 0, vec![]).err(), Some(FrameError::EmptyFrame));
    assert_eq!(LumaMap::new(2, 2, vec![0; 5]).err(), Some(FrameError::BufferLength));
}

#[test]
fn dimension_mismatch_is_an_error() {
    let base = read_base_frame(&gray_frame(4, 4, &[]));
    let lit = gray_frame(5, 4, &[(2, 1, 200)]);
    assert_eq!(compute_light_pos(&base, &lit), Err(FrameError::DimensionMismatch));
    let lit = gray_frame(4, 3, &[(2, 1, 200)]);
    assert_eq!(compute_light_pos(&base, &lit), Err(FrameError::DimensionMismatch));
}

#[test]
fn same_frame_shows_no_light() {
    let frame = gray_frame(16, 12, &[(3, 4, 90), (10, 2, 200)]);
    let base = read_base_frame(&frame);
    assert_eq!(compute_light_pos(&base, &frame), Ok(None));
}

#[test]
fn baseline_is_deterministic() {
    let frame = gray_frame(16, 12, &[(3, 4, 90), (10, 2, 200)]);
    let a = read_base_frame(&frame);
    let b = read_base_frame(&frame);
    assert_eq!(a.samples(), b.samples());
    assert_eq!((a.width(), a.height()), (16, 12));
}

fn uniform_baseline(rgba: [u8; 4]) -> Vec<u8> {
    let mut data = Vec::new();
    for _ in 0..64 {
        data.extend_from_slice(&rgba);
    }
    read_base_frame(&Frame::new(8, 8, data).unwrap()).samples().clone()
}

#[test]
fn baseline_takes_luminance_of_color() {
    // sRGB luma weights: pure red 54, pure green 182, pure blue 18; the blur
    // (kernel not normalised) then darkens a uniform image slightly
    let red = uniform_baseline([255, 0, 0, 255]);
    let green = uniform_baseline([0, 255, 0, 255]);
    let blue = uniform_baseline([0, 0, 255, 0]);
    assert_eq!(red.len(), 64);
    for i in 0..64 {
        assert!((40..=54).contains(&red[i]), "red gave {}", red[i]);
        assert!((150..=182).contains(&green[i]), "green gave {}", green[i]);
        assert!((10..=18).contains(&blue[i]), "blue gave {}", blue[i]);
    }
}

#[test]
fn blur_spreads_a_single_pixel() {
    let base = read_base_frame(&gray_frame(32, 32, &[(16, 16, 255)]));
    let s = base.samples();
    assert!(s[16 * 32 + 16] < 255);
    assert!(s[16 * 32 + 17] > 0);
    assert!(s[17 * 32 + 16] > 0);
}

#[test]
fn small_frame_single_light() {
    let base = read_base_frame(&gray_frame(4, 4, &[]));
    let lit = gray_frame(4, 4, &[(2, 1, 200)]);
    let (x, y, intensity) = compute_light_pos(&base, &lit).unwrap().unwrap();
    assert!((1..=3).contains(&x), "x = {}", x);
    assert!(y <= 2, "y = {}", y);
    assert!(intensity > 0);
}

#[test]
fn large_frame_single_light() {
    let base = read_base_frame(&gray_frame(64, 64, &[]));
    let lit = gray_frame(64, 64, &[(40, 20, 200)]);
    let (x, y, intensity) = compute_light_pos(&base, &lit).unwrap().unwrap();
    assert!((39..=41).contains(&x), "x = {}", x);
    assert!((19..=21).contains(&y), "y = {}", y);
    assert!(intensity > 0);
}

#[test]
fn light_on_ambient_background() {
    let ambient: Vec<(u32, u32, u8)> = (0..32).flat_map(|y| (0..32).map(move |x| (x, y, 60))).collect();
    let base = read_base_frame(&gray_frame(32, 32, &ambient));
    let mut lit_pixels = ambient.clone();
    lit_pixels[8 * 32 + 24] = (24, 8, 255);
    let (x, y, _) = compute_light_pos(&base, &gray_frame(32, 32, &lit_pixels)).unwrap().unwrap();
    assert!((23..=25).contains(&x), "x = {}", x);
    assert!((7..=9).contains(&y), "y = {}", y);
}

#[test]
fn base_image_round_trip() {
    assert_eq!(BaseImage::new(2, 2, vec![0; 3]).err(), Some(FrameError::BufferLength));
    assert_eq!(BaseImage::new(0, 2, vec![]).err(), Some(FrameError::EmptyFrame));
    let base = BaseImage::new(8, 8, vec![0; 256]).unwrap();
    assert_eq!(base.inner().len(), 64);
    let again = BaseImage::from_init(8, 8, base.inner()).unwrap();
    assert_eq!(again.inner(), base.inner());
    let lit = {
        let mut v = vec![0u8; 256];
        v[(2 * 8 + 6) * 4] = 255;
        v
    };
    assert_eq!(again.compute_frame(8, 8, lit.clone()), base.compute_frame(8, 8, lit));
    assert_eq!(BaseImage::from_init(8, 8, vec![0; 63]).err(), Some(FrameError::BufferLength));
}

#[test]
fn base_image_compute_frame() {
    let dark = vec![0u8; 256];
    let base = BaseImage::new(8, 8, dark.clone()).unwrap();
    assert_eq!(
        base.compute_frame(8, 8, dark.clone()),
        Ok(FrameInfo { found: false, x: 0, y: 0, max_brightness: 0 })
    );
    assert_eq!(base.compute_frame(4, 16, vec![0; 256]).err(), Some(FrameError::DimensionMismatch));
    assert_eq!(base.compute_frame(8, 8, vec![0; 255]).err(), Some(FrameError::BufferLength));
    let mut lit = dark;
    let i = (3 * 8 + 5) * 4;
    lit[i] = 255;
    lit[i + 1] = 255;
    lit[i + 2] = 255;
    let info = base.compute_frame(8, 8, lit).unwrap();
    assert!(info.found);
    assert!(info.max_brightness > 0);
    assert!(info.x < 8 && info.y < 8);
}

#[test]
fn base_image_from_init_locates_directly() {
    let base = BaseImage::from_init(2, 1, vec![0, 0]).unwrap();
    let info = base.compute_frame(2, 1, vec![0, 0, 0, 255, 0, 0, 0, 255]).unwrap();
    assert_eq!(info, FrameInfo { found: false, x: 0, y: 0, max_brightness: 0 });
}
