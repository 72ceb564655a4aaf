use sion::grayscale8_bitmap::Grayscale8Bitmap;
use sion::grayscale_bitmap::GrayscaleBitmap;
use sion::mono_bitmap::{Bitmap, MonoBitmap};
use sion::raster16::Raster16;

#[test]
fn bitmap_create_bitmap() {
    let bitmap = Bitmap::new(10, 15);
    assert_eq!(bitmap.width(), 10);
    assert_eq!(bitmap.height(), 15);
    assert_eq!(bitmap.width_bytes(), 2);
    assert_eq!(bitmap.data().len(), 30);
}

#[test]
fn bitmap_pixels_are_off_by_default() {
    let bitmap = Bitmap::new(10, 15);
    assert_eq!(bitmap.get_pixel(0, 0), false);
    assert_eq!(bitmap.get_pixel(4, 5), false);
}

#[test]
fn bitmap_set_and_get_pixel() {
    let mut bitmap = Bitmap::new(10, 15);
    bitmap.set_pixel(3, 4, true);
    assert_eq!(bitmap.get_pixel(3, 4), true);
    bitmap.set_pixel(3, 4, false);
    assert_eq!(bitmap.get_pixel(3, 4), false);
}

#[test]
fn mono_bitmap_create_large_bitmap() {
    let bitmap = MonoBitmap::new(1000, 1000);
    assert_eq!(bitmap.width(), 1000);
    assert_eq!(bitmap.height(), 1000);
    assert_eq!(bitmap.data().len(), 125000);
}

#[test]
fn mono_bitmap_create_bitmap() {
    let bitmap = MonoBitmap::new(10, 15);
    assert_eq!(bitmap.width(), 10);
    assert_eq!(bitmap.height(), 15);
    assert_eq!(bitmap.width_bytes(), 2);
    assert_eq!(bitmap.data().len(), 30);
}

#[test]
fn mono_bitmap_pixels_are_off_by_default() {
    let bitmap = MonoBitmap::new(10, 15);
    assert_eq!(bitmap.get_pixel(0, 0), false);
    assert_eq!(bitmap.get_pixel(4, 5), false);
}

#[test]
fn mono_bitmap_set_and_get_pixel() {
    let mut bitmap = MonoBitmap::new(10, 15);
    bitmap.set_pixel(3, 4, true);
    assert_eq!(bitmap.get_pixel(3, 4), true);
    bitmap.set_pixel(3, 4, false);
    assert_eq!(bitmap.get_pixel(3, 4), false);
}

#[test]
fn mono_bitmap_pixels_share_bytes_independently() {
    let mut bitmap = MonoBitmap::new(10, 2);
    bitmap.set_pixel(0, 1, true);
    bitmap.set_pixel(7, 1, true);
    bitmap.set_pixel(8, 1, true);
    assert_eq!(bitmap.data(), &[0, 0, 0b1000_0001, 0b0000_0001]);
    bitmap.set_pixel(7, 1, false);
    assert!(bitmap.get_pixel(0, 1));
    assert!(!bitmap.get_pixel(7, 1));
    assert!(bitmap.get_pixel(8, 1));
    assert!(!bitmap.get_pixel(0, 0));
}

#[test]
fn grayscale8_bitmap_create_large_bitmap() {
    let bitmap = Grayscale8Bitmap::new(1000, 1000);
    assert_eq!(bitmap.width(), 1000);
    assert_eq!(bitmap.height(), 1000);
    assert_eq!(bitmap.data().len(), 1000 * 1000);
}

#[test]
fn grayscale8_bitmap_create_bitmap() {
    let bitmap = Grayscale8Bitmap::new(10, 15);
    assert_eq!(bitmap.width(), 10);
    assert_eq!(bitmap.height(), 15);
    assert_eq!(bitmap.data().len(), 150);
}

#[test]
fn grayscale8_bitmap_pixels_are_black_by_default() {
    let bitmap = Grayscale8Bitmap::new(10, 15);
    assert_eq!(bitmap.get_pixel(0, 0), 0);
    assert_eq!(bitmap.get_pixel(4, 5), 0);
}

#[test]
fn grayscale8_bitmap_set_and_get_pixel() {
    let mut bitmap = Grayscale8Bitmap::new(10, 15);
    bitmap.set_pixel(3, 4, 123);
    assert_eq!(bitmap.get_pixel(3, 4), 123);
    bitmap.set_pixel(3, 4, 255);
    assert_eq!(bitmap.get_pixel(3, 4), 255);
}

#[test]
fn grayscale8_bitmap_row_major_layout_and_extract() {
    let mut bitmap = Grayscale8Bitmap::new(4, 3);
    for y in 0..3u16 {
        for x in 0..4u16 {
            bitmap.set_pixel(x, y, (y * 10 + x) as u8);
        }
    }
    assert_eq!(bitmap.data()[6], 12);
    let part = bitmap.extract(1, 1, 2, 2);
    assert_eq!(part.width(), 2);
    assert_eq!(part.height(), 2);
    assert_eq!(part.data(), &[11, 12, 21, 22]);
    bitmap.data_mut()[0] = 99;
    assert_eq!(bitmap.get_pixel(0, 0), 99);
}

#[test]
fn grayscale_bitmap_create_large_bitmap() {
    let bitmap = GrayscaleBitmap::new(1000, 1000);
    assert_eq!(bitmap.width(), 1000);
    assert_eq!(bitmap.height(), 1000);
    assert_eq!(bitmap.get_pixel(999, 999), 0);
}

#[test]
fn grayscale_bitmap_create_bitmap() {
    let bitmap = GrayscaleBitmap::new(10, 15);
    assert_eq!(bitmap.width(), 10);
    assert_eq!(bitmap.height(), 15);
    assert_eq!(bitmap.get_pixel(9, 14), 0);
}

#[test]
fn grayscale_bitmap_pixels_are_black_by_default() {
    let bitmap = GrayscaleBitmap::new(10, 15);
    assert_eq!(bitmap.get_pixel(0, 0), 0);
    assert_eq!(bitmap.get_pixel(4, 5), 0);
}

#[test]
fn grayscale_bitmap_set_and_get_pixel() {
    let mut bitmap = GrayscaleBitmap::new(10, 15);
    bitmap.set_pixel(3, 4, 123);
    assert_eq!(bitmap.get_pixel(3, 4), 123);
    bitmap.set_pixel(3, 4, 255);
    assert_eq!(bitmap.get_pixel(3, 4), 255);
}

#[test]
fn raster16_create_large_bitmap() {
    let bitmap = Raster16::new(1000, 1000);
    assert_eq!(bitmap.width(), 1000);
    assert_eq!(bitmap.height(), 1000);
    assert_eq!(bitmap.get_pixel(999, 999), 0);
}

#[test]
fn raster16_create_bitmap() {
    let bitmap = Raster16::new(10, 15);
    assert_eq!(bitmap.width(), 10);
    assert_eq!(bitmap.height(), 15);
    assert_eq!(bitmap.get_pixel(9, 14), 0);
}

#[test]
fn raster16_pixels_are_black_by_default() {
    let bitmap = Raster16::new(10, 15);
    assert_eq!(bitmap.get_pixel(0, 0), 0);
    assert_eq!(bitmap.get_pixel(4, 5), 0);
}

#[test]
fn raster16_set_and_get_pixel() {
    let mut bitmap = Raster16::new(10, 15);
    bitmap.set_pixel(3, 4, 123);
    assert_eq!(bitmap.get_pixel(3, 4), 123);
    bitmap.set_pixel(3, 4, 255);
    assert_eq!(bitmap.get_pixel(3, 4), 255);
    bitmap.set_pixel(9, 14, 65535);
    assert_eq!(bitmap.get_pixel(9, 14), 65535);
    assert_eq!(bitmap.get_pixel(4, 3), 0);
}
