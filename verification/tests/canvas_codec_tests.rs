use rustshot::canvas::{Canvas, Rgba};
use rustshot::codec::CompressedImage;

fn solid(w: u32, h: u32, c: Rgba) -> Canvas {
    Canvas::create(w, h, c).expect("valid dimensions")
}

const WHITE: Rgba = Rgba { r: 255, g: 255, b: 255, a: 255 };
const RED: Rgba = Rgba { r: 200, g: 10, b: 30, a: 255 };

#[test]
fn create_rejects_zero_dimensions() {
    assert!(Canvas::create(0, 10, WHITE).is_none());
    assert!(Canvas::create(10, 0, WHITE).is_none());
    assert!(Canvas::create(1, 1, WHITE).is_some());
}

#[test]
fn create_fills_every_pixel() {
    let c = solid(7, 3, RED);
    assert_eq!(c.get_width(), 7);
    assert_eq!(c.get_height(), 3);
    for y in 0..3 {
        for x in 0..7 {
            assert_eq!(c.get_pixel(x, y), Some(RED));
        }
    }
}

#[test]
fn get_pixel_out_of_bounds_is_none() {
    let c = solid(4, 4, WHITE);
    assert_eq!(c.get_pixel(4, 0), None);
    assert_eq!(c.get_pixel(0, 4), None);
    assert_eq!(c.get_pixel(100, 100), None);
}

#[test]
fn set_pixel_writes_only_its_target() {
    let mut c = solid(5, 5, WHITE);
    c.set_pixel(2, 3, RED);
    assert_eq!(c.get_pixel(2, 3), Some(RED));
    assert_eq!(c.get_pixel(3, 2), Some(WHITE));
    assert_eq!(c.get_pixel(2, 2), Some(WHITE));
}

#[test]
fn set_pixel_out_of_bounds_is_noop() {
    let mut c = solid(3, 3, WHITE);
    c.set_pixel(3, 3, RED);
    for y in 0..3 {
        for x in 0..3 {
            assert_eq!(c.get_pixel(x, y), Some(WHITE));
        }
    }
}

#[test]
fn crop_extracts_subrectangle() {
    let mut c = solid(10, 10, WHITE);
    c.set_pixel(4, 5, RED);
    let r = c.crop(3, 4, 4, 4);
    assert_eq!(r.get_width(), 4);
    assert_eq!(r.get_height(), 4);
    assert_eq!(r.get_pixel(1, 1), Some(RED));
    assert_eq!(r.get_pixel(0, 0), Some(WHITE));
}

#[test]
fn crop_clamps_to_bounds() {
    let c = solid(10, 10, WHITE);
    // The requested rectangle runs past the right and bottom edges.
    let r = c.crop(6, 8, 100, 100);
    assert_eq!(r.get_width(), 4);
    assert_eq!(r.get_height(), 2);
    // A zero-size request still produces one pixel.
    let r2 = c.crop(0, 0, 0, 0);
    assert_eq!(r2.get_width(), 1);
    assert_eq!(r2.get_height(), 1);
    // A start beyond the edge is pulled back to the last pixel.
    let r3 = c.crop(100, 100, 5, 5);
    assert_eq!(r3.get_width(), 1);
    assert_eq!(r3.get_height(), 1);
}

#[test]
fn compress_decompress_round_trip_is_lossless() {
    // A canvas with a gradient, so every byte matters.
    let mut c = solid(16, 9, WHITE);
    for y in 0..9 {
        for x in 0..16 {
            c.set_pixel(
                x,
                y,
                Rgba { r: (x * 16) as u8, g: (y * 28) as u8, b: (x + y) as u8, a: 255 - x as u8 },
            );
        }
    }
    let entry = CompressedImage::new(&c, 3);
    assert_eq!(entry.get_crop_index(), 3);
    let back = entry.get_decompressed_image();
    assert_eq!(back.get_width(), 16);
    assert_eq!(back.get_height(), 9);
    for y in 0..9 {
        for x in 0..16 {
            assert_eq!(back.get_pixel(x, y), c.get_pixel(x, y));
        }
    }
}

#[test]
fn compression_actually_transforms_the_bytes() {
    let c = solid(8, 8, RED);
    let entry = CompressedImage::new(&c, 0);
    // A PNG stream starts with the fixed signature, not with raw pixels.
    assert_eq!(&entry.data[..8], &[137u8, 80, 78, 71, 13, 10, 26, 10]);
    assert_ne!(entry.data.len(), 8 * 8 * 4);
}
