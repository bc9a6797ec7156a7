use screen_capture::{BGR, ImageBGR, ScreenCaptureError};
use screen_capture::raster_image::RasterImageBGR;
use screen_capture::rectangle::Rectangle;
use screen_capture::sampler::Sampler;

#[test]
fn test_rgb_order() {
    // Both supported platforms use the following to convert from the bytes
    // behind the pointer to the actual pixel values; the BGR struct follows
    // that order.
    let as_integer = 0x00112233;
    let masked = as_integer & 0x00FFFFFF;
    let p = BGR {
        r: ((masked >> 16) & 0xFF) as u8,
        g: ((masked >> 8) & 0xFF) as u8,
        b: (masked & 0xFF) as u8,
    };
    assert_eq!(p.r, 0x11);
    assert_eq!(p.g, 0x22);
    assert_eq!(p.b, 0x33);

    // So                 xxRRGGBB
    // let as_integer = 0x00112233;
    let q = BGR::from_i32(as_integer);
    assert_eq!(q.r, 0x11);
    assert_eq!(q.g, 0x22);
    assert_eq!(q.b, 0x33);
    assert_eq!(p, q);
}

#[test]
fn uniform_image_pixels_and_bounds() {
    let c = BGR { b: 12, g: 34, r: 56 };
    let img = RasterImageBGR::filled(17, 9, c);
    assert_eq!(img.width(), 17);
    assert_eq!(img.height(), 9);
    for y in 0..9 {
        for x in 0..17 {
            assert_eq!(img.pixel(x, y).unwrap(), c);
        }
    }
    // failing exactly at the first out-of-range coordinate
    assert!(matches!(img.pixel(17, 0), Err(ScreenCaptureError::Initialisation { .. })));
    assert!(matches!(img.pixel(0, 9), Err(ScreenCaptureError::Initialisation { .. })));
    assert!(matches!(img.pixel(17, 9), Err(ScreenCaptureError::Initialisation { .. })));
}

#[test]
fn from_2d_vec_lays_out_rows() {
    let rows = vec![
        vec![BGR { b: 1, g: 0, r: 0 }, BGR { b: 2, g: 0, r: 0 }],
        vec![BGR { b: 3, g: 0, r: 0 }, BGR { b: 4, g: 0, r: 0 }],
        vec![BGR { b: 5, g: 0, r: 0 }, BGR { b: 6, g: 0, r: 0 }],
    ];
    let img = RasterImageBGR::from_2d_vec(&rows);
    assert_eq!(img.width(), 2);
    assert_eq!(img.height(), 3);
    for y in 0..3u32 {
        for x in 0..2u32 {
            assert_eq!(img.pixel(x, y).unwrap(), rows[y as usize][x as usize]);
        }
    }
    let all = img.data().unwrap();
    assert_eq!(all.len(), 6);
    assert_eq!(all[0].b, 1);
    assert_eq!(all[5].b, 6);
}

#[test]
fn fill_rectangle_touches_only_the_rectangle() {
    let black = BGR { b: 0, g: 0, r: 0 };
    let red = BGR { b: 0, g: 0, r: 255 };
    let mut img = RasterImageBGR::filled(10, 10, black);
    img.fill_rectangle(2, 5, 3, 7, red);
    for y in 0..10 {
        for x in 0..10 {
            let expect = if (2..5).contains(&x) && (3..7).contains(&y) { red } else { black };
            assert_eq!(img.pixel(x, y).unwrap(), expect, "at ({}, {})", x, y);
        }
    }
}

#[test]
fn gradient_values_follow_the_integer_formula() {
    let mut img = RasterImageBGR::filled(100, 100, BGR { b: 9, g: 9, r: 9 });
    img.set_gradient(10, 90, 20, 80);
    for y in 20..80u32 {
        for x in 10..90u32 {
            let r = ((x - 10) as u64 * 255 / 80) as u8;
            let g = ((y - 20) as u64 * 255 / 60) as u8;
            let p = img.pixel(x, y).unwrap();
            assert_eq!(p.r, r);
            assert_eq!(p.g, g);
            assert_eq!(p.b, 255 - r);
        }
    }
    // outside the rectangle nothing changed
    assert_eq!(img.pixel(0, 0).unwrap(), BGR { b: 9, g: 9, r: 9 });
    assert_eq!(img.pixel(99, 99).unwrap(), BGR { b: 9, g: 9, r: 9 });
}

#[test]
fn data_rgb_mut_writes_through() {
    let mut img = RasterImageBGR::filled(4, 4, BGR { b: 0, g: 0, r: 0 });
    img.data_rgb_mut(1, 2).b = 77;
    assert_eq!(img.pixel(1, 2).unwrap().b, 77);
    assert_eq!(img.data_rgb(1, 2).b, 77);
    assert_eq!(img.pixel(2, 1).unwrap().b, 0);
}

#[test]
fn raster_copy_of_image() {
    let mut img = RasterImageBGR::filled(3, 3, BGR { b: 1, g: 2, r: 3 });
    img.set_pixel(2, 2, BGR { b: 7, g: 8, r: 9 });
    let copy = RasterImageBGR::new(&img).unwrap();
    assert_eq!(copy.width(), 3);
    assert_eq!(copy.height(), 3);
    for y in 0..3 {
        for x in 0..3 {
            assert_eq!(copy.pixel(x, y).unwrap(), img.pixel(x, y).unwrap());
        }
    }
}

#[test]
fn sampler_reads_prepared_positions() {
    let mut img = RasterImageBGR::filled(20, 20, BGR { b: 0, g: 0, r: 0 });
    img.set_pixel(5, 6, BGR { b: 11, g: 0, r: 0 });
    img.set_pixel(12, 13, BGR { b: 22, g: 0, r: 0 });
    let zones = vec![
        Rectangle { x_min: 4, x_max: 8, y_min: 5, y_max: 9 },
        Rectangle { x_min: 11, x_max: 15, y_min: 12, y_max: 16 },
    ];
    let sampler = Sampler::make_sampler(1, 1, &zones);
    let colors = sampler.sample(&img);
    assert_eq!(colors.len(), 2);
    assert_eq!(colors[0].b, 11);
    assert_eq!(colors[1].b, 22);
}
