use screen_capture::BGR;
use screen_capture::ImageBGR;
use screen_capture::convert::{
    bgr_to_rgb_bytes, bgr_to_rgba_bytes, bgr_to_rgba_bytes_lanes, bgr_to_rgba_false_bytes,
    to_rgb, to_rgba, to_rgba_false, to_rgba_simple, RgbaBuffer,
};
use screen_capture::raster_image::RasterImageBGR;

fn sample_pixels(n: usize) -> Vec<BGR> {
    let mut v = Vec::new();
    for i in 0..n {
        v.push(BGR { b: (i * 3) as u8, g: (i * 5 + 1) as u8, r: (i * 7 + 2) as u8 });
    }
    v
}

#[test]
fn scalar_and_lane_paths_are_byte_identical() {
    for n in [0usize, 1, 7, 8, 9, 16, 31, 45] {
        let data = sample_pixels(n);
        let a = bgr_to_rgba_bytes(&data);
        let b = bgr_to_rgba_bytes_lanes(&data);
        assert_eq!(a, b, "length {}", n);
        assert_eq!(a.len(), n * 4);
    }
}

#[test]
fn scalar_path_exact_bytes() {
    let data = vec![BGR { b: 1, g: 2, r: 3 }, BGR { b: 4, g: 5, r: 6 }];
    let a = bgr_to_rgba_bytes(&data);
    assert_eq!(a, vec![3, 2, 1, 255, 6, 5, 4, 255]);
}

#[test]
fn false_path_swaps_channels_and_stays_translucent() {
    let data = vec![BGR { b: 1, g: 2, r: 3 }];
    let a = bgr_to_rgba_false_bytes(&data);
    assert_eq!(a, vec![1, 2, 3, 0]);
    let canonical = bgr_to_rgba_bytes(&data);
    assert_ne!(a, canonical);
}

#[test]
fn rgb_path_exact_bytes() {
    let data = vec![BGR { b: 1, g: 2, r: 3 }, BGR { b: 4, g: 5, r: 6 }];
    let a = bgr_to_rgb_bytes(&data);
    assert_eq!(a, vec![3, 2, 1, 6, 5, 4]);
}

#[test]
fn to_rgba_matches_image_crate_view() {
    let mut img = RasterImageBGR::filled(3, 2, BGR { b: 0, g: 0, r: 0 });
    let mut k = 0u8;
    for y in 0..2 {
        for x in 0..3 {
            img.set_pixel(x, y, BGR { b: k, g: k + 1, r: k + 2 });
            k += 10;
        }
    }
    let owned = to_rgba(&img).expect("conversion should succeed");
    assert_eq!(owned.image.width(), 3);
    assert_eq!(owned.image.height(), 2);
    for y in 0..2u32 {
        for x in 0..3u32 {
            let orig = img.pixel(x, y).unwrap();
            let px = owned.image.get_pixel(x, y);
            assert_eq!(px.0, [orig.r, orig.g, orig.b, 255]);
        }
    }
    let simple = to_rgba_simple(&img).expect("conversion should succeed");
    assert_eq!(simple.image.as_raw(), owned.image.as_raw());
}

#[test]
fn to_rgb_matches_image_crate_view() {
    let mut img = RasterImageBGR::filled(2, 2, BGR { b: 9, g: 8, r: 7 });
    img.set_pixel(1, 1, BGR { b: 1, g: 2, r: 3 });
    let owned = to_rgb(&img).expect("conversion should succeed");
    assert_eq!(owned.image.width(), 2);
    assert_eq!(owned.image.height(), 2);
    assert_eq!(owned.image.get_pixel(0, 0).0, [7, 8, 9]);
    assert_eq!(owned.image.get_pixel(1, 1).0, [3, 2, 1]);
}

#[test]
fn to_rgba_false_matches_raw_layout() {
    let img = RasterImageBGR::filled(2, 1, BGR { b: 10, g: 20, r: 30 });
    let owned = to_rgba_false(&img).expect("conversion should succeed");
    assert_eq!(owned.image.as_raw().as_slice(), &[10, 20, 30, 0, 10, 20, 30, 0]);
}

#[test]
fn rgba_buffer_from_image() {
    let img = RasterImageBGR::filled(2, 2, BGR { b: 5, g: 6, r: 7 });
    let buf = RgbaBuffer::from_image(&img).expect("conversion should succeed");
    assert_eq!(buf.width(), 2);
    assert_eq!(buf.height(), 2);
    assert_eq!(buf.data(), &[7, 6, 5, 255, 7, 6, 5, 255, 7, 6, 5, 255, 7, 6, 5, 255]);
    let copy = buf.clone();
    assert_eq!(copy.data(), buf.data());
}
