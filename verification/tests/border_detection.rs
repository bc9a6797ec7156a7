use screen_capture::BGR;
use screen_capture::border_detection::{bisect, find_borders};
use screen_capture::raster_image::RasterImageBGR;

fn black() -> BGR {
    BGR { b: 0, g: 0, r: 0 }
}

fn white() -> BGR {
    BGR { b: 255, g: 255, r: 255 }
}

fn yellow() -> BGR {
    BGR { b: 0, g: 255, r: 255 }
}

#[test]
fn test_bisect() {
    //       0     1  2  3  4  5  6  7  8  9
    let z = [0u32, 0, 0, 0, 0, 1, 1, 1, 1, 1];
    let len = z.len() as u32 - 1;
    // Bisect to find the first index that is leq 5.
    let res = bisect(&|i| z[i as usize] == 0, 0u32, len);
    assert_eq!(res, 4);

    let res = bisect(&|i| z[i as usize] != 0, 0u32, len);
    assert_eq!(res, 5);

    let rz = z.iter().rev().collect::<Vec<&u32>>();
    let res = bisect(&|i| *rz[i as usize] == 0, 0u32, len);
    assert_eq!(res, 5);
    let res = bisect(&|i| *rz[i as usize] != 0, 0u32, len);
    assert_eq!(res, 4);

    // Completely black.
    let v = [0u32, 0, 0, 0, 0, 0, 0, 0, 0, 0, 0];

    // Bias low
    let res = bisect(&|i| v[i as usize] != 0, 0u32, len);
    assert_eq!(res, 0);

    // Bias high.
    let res = bisect(&|i| v[i as usize] == 0, 0u32, len);
    assert_eq!(res, len);

    // Completely white.
    let v = [1u32, 1, 1, 1, 1, 1, 1, 1, 1, 1, 1];

    // Bias low
    let res = bisect(&|i| v[i as usize] == 0, 0u32, len);
    assert_eq!(res, 0);

    // Bias high.
    let res = bisect(&|i| v[i as usize] != 0, 0u32, len);
    assert_eq!(res, len);
}

#[test]
fn test_fully_white() {
    let img = RasterImageBGR::filled(100, 100, white());
    let b = find_borders(&img, 5);

    assert_eq!(b.x_min, 0);
    assert_eq!(b.y_min, 0);
    assert_eq!(b.x_max, 99);
    assert_eq!(b.y_max, 99);
}

#[test]
fn free_floating_rectangle_borders() {
    let mut img = RasterImageBGR::filled(100, 100, black());
    img.fill_rectangle(30, 80, 20, 70, yellow());
    let b = find_borders(&img, 10);

    assert_eq!(b.x_min, 29); // last index that is black
    assert_eq!(b.y_min, 19); // last index that is black.
    assert_eq!(b.x_max, 79); // last index that is not black.
    assert_eq!(b.y_max, 69); // last index that is not black.
}

#[test]
fn horizontal_borders() {
    let mut img = RasterImageBGR::filled(100, 100, black());
    img.fill_rectangle(0, 100, 20, 70, yellow());
    let b = find_borders(&img, 10);

    assert_eq!(b.x_min, 0);
    assert_eq!(b.y_min, 19);
    assert_eq!(b.x_max, 99);
    assert_eq!(b.y_max, 69);
}

#[test]
fn vertical_borders() {
    let mut img = RasterImageBGR::filled(100, 100, black());
    img.fill_rectangle(30, 80, 0, 100, yellow());
    let b = find_borders(&img, 10);

    assert_eq!(b.x_min, 29);
    assert_eq!(b.y_min, 0);
    assert_eq!(b.x_max, 79);
    assert_eq!(b.y_max, 99);
}
