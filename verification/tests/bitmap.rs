use libgfx::bitmap::{Bitmap, BitmapFormat, DecodeError, StorageFormat};
use libgfx::{Color, IntSize};

#[test]
fn int_size_emptiness() {
    assert!(IntSize { width: 0, height: 5 }.is_empty());
    assert!(IntSize { width: 5, height: 0 }.is_empty());
    assert!(IntSize { width: -1, height: 5 }.is_empty());
    assert!(IntSize { width: 5, height: -1 }.is_empty());
    assert!(!IntSize { width: 1, height: 1 }.is_empty());
}

#[test]
fn color_packing_exact_values() {
    assert_eq!(Color::new().color, 0);
    assert_eq!(Color::from_rgb(1, 2, 3).color, 0xFF010203);
    assert_eq!(Color::from_rgb(0xFF, 0, 0).color, 0xFFFF0000);
    assert_eq!(Color::from_rgba(1, 2, 3, 4).color, 0x04010203);
    assert_eq!(Color::from_rgba(0, 0, 0, 0).color, 0);
    assert_eq!(Color::from_argb(0x12345678).color, 0x12345678);
}

#[test]
fn bitmap_format_validity() {
    assert!(BitmapFormat::is_valid(0));
    assert!(BitmapFormat::is_valid(1));
    assert!(BitmapFormat::is_valid(2));
    assert!(BitmapFormat::is_valid(3));
    assert!(!BitmapFormat::is_valid(4));
    assert!(!BitmapFormat::is_valid(u32::MAX));
}

#[test]
fn storage_format_is_four_bytes_per_pixel() {
    assert_eq!(StorageFormat::BGRx8888.bytes_per_pixel(), 4);
    assert_eq!(StorageFormat::BGRA8888.bytes_per_pixel(), 4);
    assert_eq!(StorageFormat::RGBA8888.bytes_per_pixel(), 4);
    assert_eq!(
        StorageFormat::from_bitmap_format(BitmapFormat::RGBA8888),
        StorageFormat::RGBA8888
    );
}

#[test]
fn minimum_pitch_is_four_bytes_per_column() {
    assert_eq!(Bitmap::minimum_pitch(10, BitmapFormat::BGRx8888), 40);
    assert_eq!(Bitmap::minimum_pitch(1, BitmapFormat::BGRA8888), 4);
}

#[test]
fn allocation_rejects_empty_sizes() {
    for size in [
        IntSize { width: 0, height: 5 },
        IntSize { width: 5, height: 0 },
        IntSize { width: -3, height: 5 },
        IntSize { width: 5, height: -3 },
    ] {
        let r = Bitmap::new(BitmapFormat::BGRx8888, size, 1);
        assert!(matches!(r, Err(DecodeError::Allocation)));
    }
}

#[test]
fn allocation_rejects_absurd_geometry() {
    let big = IntSize { width: 40000, height: 1 };
    assert!(matches!(
        Bitmap::new(BitmapFormat::BGRx8888, big, 1),
        Err(DecodeError::Allocation)
    ));
    let tall = IntSize { width: 1, height: 40000 };
    assert!(matches!(
        Bitmap::new(BitmapFormat::BGRx8888, tall, 1),
        Err(DecodeError::Allocation)
    ));
    let ok = IntSize { width: 4, height: 4 };
    assert!(matches!(
        Bitmap::new(BitmapFormat::BGRx8888, ok, 0),
        Err(DecodeError::Allocation)
    ));
    assert!(matches!(
        Bitmap::new(BitmapFormat::BGRx8888, ok, 5),
        Err(DecodeError::Allocation)
    ));
}

#[test]
fn allocation_zero_fills_exactly() {
    let bm = Bitmap::new(BitmapFormat::BGRA8888, IntSize { width: 3, height: 2 }, 2).unwrap();
    assert_eq!(bm.pitch, 3 * 2 * 4);
    assert_eq!(bm.data.len(), (3 * 2 * 4) * 2 * 2);
    assert!(bm.data.iter().all(|b| *b == 0));
    assert_eq!(bm.scale, 2);
    assert_eq!(bm.size, IntSize { width: 3, height: 2 });
}

#[test]
fn set_pixel_writes_little_endian_bytes() {
    let mut bm = Bitmap::new(BitmapFormat::BGRx8888, IntSize { width: 2, height: 2 }, 1).unwrap();
    bm.set_pixel(1, 0, 0x11223344);
    assert_eq!(&bm.data[4..8], &[0x44, 0x33, 0x22, 0x11]);
    assert!(bm.data[0..4].iter().all(|b| *b == 0));
    assert!(bm.data[8..].iter().all(|b| *b == 0));
    bm.set_pixel(0, 1, 0xAABBCCDD);
    assert_eq!(&bm.data[8..12], &[0xDD, 0xCC, 0xBB, 0xAA]);
    assert_eq!(&bm.data[4..8], &[0x44, 0x33, 0x22, 0x11]);
}

#[test]
fn clone_copies_bytes() {
    let mut bm = Bitmap::new(BitmapFormat::BGRx8888, IntSize { width: 1, height: 1 }, 1).unwrap();
    bm.set_pixel(0, 0, 0xFFFF0000);
    let copy = bm.clone();
    assert_eq!(copy.data, bm.data);
    assert_eq!(copy.pitch, bm.pitch);
    bm.set_pixel(0, 0, 0xFF00FF00);
    assert_eq!(&copy.data[0..4], &[0x00, 0x00, 0xFF, 0xFF]);
}
