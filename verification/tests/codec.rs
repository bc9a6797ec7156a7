use screen_capture::{BGR, ImageBGR};
use screen_capture::raster_image::RasterImageBGR;
use screen_capture::util::{encode_bmp, encode_ppm, parse_ppm};

fn checkered(width: u32, height: u32) -> RasterImageBGR {
    let mut img = RasterImageBGR::filled(width, height, BGR { b: 0, g: 0, r: 0 });
    for y in 0..height {
        for x in 0..width {
            img.set_pixel(
                x,
                y,
                BGR { b: (x * 7 + y) as u8, g: (y * 11 + x) as u8, r: (x * 3 + y * 5) as u8 },
            );
        }
    }
    img
}

#[test]
fn ppm_encoding_exact_bytes() {
    let mut img = RasterImageBGR::filled(2, 1, BGR { b: 3, g: 2, r: 1 });
    img.set_pixel(1, 0, BGR { b: 10, g: 0, r: 255 });
    let bytes = encode_ppm(&img).unwrap();
    assert_eq!(bytes, b"P3\n2 1\n255\n1 2 3 255 0 10 \n".to_vec());
}

#[test]
fn ppm_round_trip_is_pixel_identical() {
    let img = checkered(13, 7);
    let bytes = encode_ppm(&img).unwrap();
    let back = parse_ppm(&bytes).expect("parsing the encoder output must succeed");
    assert_eq!(back.width(), 13);
    assert_eq!(back.height(), 7);
    for y in 0..7 {
        for x in 0..13 {
            assert_eq!(back.pixel(x, y).unwrap(), img.pixel(x, y).unwrap());
        }
    }
}

#[test]
fn ppm_round_trip_single_pixel() {
    let img = RasterImageBGR::filled(1, 1, BGR { b: 255, g: 128, r: 0 });
    let bytes = encode_ppm(&img).unwrap();
    assert_eq!(bytes, b"P3\n1 1\n255\n0 128 255 \n".to_vec());
    let back = parse_ppm(&bytes).unwrap();
    assert_eq!(back.pixel(0, 0).unwrap(), BGR { b: 255, g: 128, r: 0 });
}

#[test]
fn ppm_rejects_other_formats() {
    assert!(parse_ppm(b"P6\n1 1\n255\n\x00\x00\x00").is_err());
    assert!(parse_ppm(b"").is_err());
    assert!(parse_ppm(b"P3\n1 1\n254\n0 0 0 \n").is_err());
    assert!(parse_ppm(b"P3\n1 1\n255\n0 0 300 \n").is_err());
    assert!(parse_ppm(b"P3\n1 1\n255\n0 0 0 \nextra").is_err());
    assert!(parse_ppm(b"P3\n0 0\n255\n").is_err());
}

#[test]
fn ppm_accepts_exactly_the_encoded_form() {
    // the canonical form parses
    assert!(parse_ppm(b"P3\n1 1\n255\n7 8 9 \n").is_ok());
    // a non-canonical digit run does not
    assert!(parse_ppm(b"P3\n01 1\n255\n0 0 0 \n").is_err());
    assert!(parse_ppm(b"P3\n1 1\n255\n007 8 9 \n").is_err());
    // neither does extra spacing
    assert!(parse_ppm(b"P3\n1  1\n255\n0 0 0 \n").is_err());
    assert!(parse_ppm(b"P3\n1 1\n255\n0 0 0  \n").is_err());
}

#[test]
fn bmp_encoding_exact_bytes_1x1() {
    let img = RasterImageBGR::filled(1, 1, BGR { b: 9, g: 8, r: 7 });
    let bytes = encode_bmp(&img).unwrap();
    // 54 header bytes, 3 pixel bytes, 1 pad byte
    assert_eq!(bytes.len(), 58);
    assert_eq!(&bytes[0..2], b"BM");
    assert_eq!(&bytes[2..6], &58u32.to_le_bytes());
    assert_eq!(&bytes[6..10], &0u32.to_le_bytes());
    assert_eq!(&bytes[10..14], &54u32.to_le_bytes());
    assert_eq!(&bytes[14..18], &40u32.to_le_bytes());
    assert_eq!(&bytes[18..22], &1u32.to_le_bytes());
    assert_eq!(&bytes[22..26], &1u32.to_le_bytes());
    assert_eq!(&bytes[26..30], &((24u32 << 16) | 1).to_le_bytes());
    assert!(bytes[30..54].iter().all(|b| *b == 0));
    assert_eq!(&bytes[54..58], &[9, 8, 7, 0]);
}

#[test]
fn bmp_rows_are_written_bottom_up() {
    let mut img = RasterImageBGR::filled(2, 2, BGR { b: 0, g: 0, r: 0 });
    img.set_pixel(0, 0, BGR { b: 1, g: 2, r: 3 });
    img.set_pixel(1, 1, BGR { b: 4, g: 5, r: 6 });
    let bytes = encode_bmp(&img).unwrap();
    // width 2: 6 pixel bytes per row, 2 pad bytes
    assert_eq!(bytes.len(), 54 + 2 * 8);
    // bottom row (y == 1) first
    assert_eq!(&bytes[54..60], &[0, 0, 0, 4, 5, 6]);
    assert_eq!(&bytes[60..62], &[0, 0]);
    // top row (y == 0) second
    assert_eq!(&bytes[62..68], &[1, 2, 3, 0, 0, 0]);
    assert_eq!(&bytes[68..70], &[0, 0]);
}
