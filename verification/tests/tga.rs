use libgfx::IntSize;
use libgfx::bitmap::{BitmapFormat, DecodeError};
use libgfx::imagedecoderplugin::{ImageDecoderPlugin, NaturalFrameFormat};
use libgfx::tgaloader::{TGAImageDecoderPlugin, parse_tga_header};

fn header(data_type: u8, width: u16, height: u16, bpp: u8, x_origin: i16, y_origin: i16) -> Vec<u8> {
    let mut v = vec![0u8; 18];
    v[2] = data_type;
    v[8..10].copy_from_slice(&x_origin.to_le_bytes());
    v[10..12].copy_from_slice(&y_origin.to_le_bytes());
    v[12..14].copy_from_slice(&width.to_le_bytes());
    v[14..16].copy_from_slice(&height.to_le_bytes());
    v[16] = bpp;
    v
}

fn packed_bgr(b: u8, g: u8, r: u8) -> [u8; 4] {
    // Little-endian bytes of 0xFF000000 | r << 16 | g << 8 | b.
    [b, g, r, 0xFF]
}

#[test]
fn parse_header_reads_packed_little_endian_fields() {
    let mut v = vec![0u8; 18];
    v[0] = 7;
    v[1] = 1;
    v[2] = 10;
    v[3..5].copy_from_slice(&(-2i16).to_le_bytes());
    v[5..7].copy_from_slice(&300i16.to_le_bytes());
    v[7] = 16;
    v[8..10].copy_from_slice(&(-1i16).to_le_bytes());
    v[10..12].copy_from_slice(&513i16.to_le_bytes());
    v[12..14].copy_from_slice(&0x1234u16.to_le_bytes());
    v[14..16].copy_from_slice(&2u16.to_le_bytes());
    v[16] = 32;
    v[17] = 0x20;
    let h = parse_tga_header(&v);
    assert_eq!(h.id_length, 7);
    assert_eq!(h.color_map_type, 1);
    assert_eq!(h.data_type_code, 10);
    assert_eq!(h.color_map_origin, -2);
    assert_eq!(h.color_map_length, 300);
    assert_eq!(h.color_map_depth, 16);
    assert_eq!(h.x_origin, -1);
    assert_eq!(h.y_origin, 513);
    assert_eq!(h.width, 0x1234);
    assert_eq!(h.height, 2);
    assert_eq!(h.bits_per_pixel, 32);
    assert_eq!(h.image_descriptor, 0x20);
}

#[test]
fn validation_checks_uncompressed_pixel_bytes() {
    let mut bytes = header(2, 2, 1, 24, 0, 0);
    bytes.extend_from_slice(&[0u8; 6]);
    assert!(TGAImageDecoderPlugin::validate_before_create(&bytes));
    bytes.pop();
    assert!(!TGAImageDecoderPlugin::validate_before_create(&bytes));
}

#[test]
fn create_rejects_short_input() {
    assert!(matches!(
        TGAImageDecoderPlugin::create(vec![0u8; 17]),
        Err(DecodeError::Format)
    ));
    assert!(matches!(
        TGAImageDecoderPlugin::create(Vec::new()),
        Err(DecodeError::Format)
    ));
}

#[test]
fn create_rejects_odd_bit_depth() {
    // A header claiming 15 bits per pixel is refused at construction.
    let bytes = header(2, 1, 1, 15, 0, 0);
    assert!(matches!(
        TGAImageDecoderPlugin::create(bytes),
        Err(DecodeError::Format)
    ));
    let bytes = header(2, 1, 1, 40, 0, 0);
    assert!(matches!(
        TGAImageDecoderPlugin::create(bytes),
        Err(DecodeError::Format)
    ));
    let bytes = header(2, 1, 1, 0, 0, 0);
    assert!(matches!(
        TGAImageDecoderPlugin::create(bytes),
        Err(DecodeError::Format)
    ));
}

#[test]
fn create_rejects_undersized_uncompressed_input() {
    // 2x2 at 24 bits needs 12 pixel bytes; hand it 5.
    let mut bytes = header(2, 2, 2, 24, 0, 0);
    bytes.extend_from_slice(&[1, 2, 3, 4, 5]);
    assert!(matches!(
        TGAImageDecoderPlugin::create(bytes),
        Err(DecodeError::Format)
    ));
}

#[test]
fn decode_single_red_pixel() {
    // 1x1, 24-bit, uncompressed, origin (0,0), pixel bytes blue,green,red.
    let mut bytes = header(2, 1, 1, 24, 0, 0);
    bytes.extend_from_slice(&[0x00, 0x00, 0xFF]);
    let mut decoder = TGAImageDecoderPlugin::create(bytes).unwrap();
    let frame = decoder.frame(0).unwrap();
    assert_eq!(frame.duration, 0);
    assert_eq!(frame.image.format, BitmapFormat::BGRx8888);
    assert_eq!(frame.image.size, IntSize { width: 1, height: 1 });
    assert_eq!(frame.image.scale, 1);
    assert_eq!(frame.image.pitch, 4);
    // Opaque red in BGRx byte order.
    assert_eq!(frame.image.data, vec![0x00, 0x00, 0xFF, 0xFF]);
}

#[test]
fn decode_32_bit_pixel() {
    // Disk order blue, green, red, alpha.
    let mut bytes = header(2, 1, 1, 32, 0, 0);
    bytes.extend_from_slice(&[1, 2, 3, 4]);
    let mut decoder = TGAImageDecoderPlugin::create(bytes).unwrap();
    let frame = decoder.frame(0).unwrap();
    assert_eq!(frame.image.format, BitmapFormat::BGRA8888);
    // Packed value 0x04030201, little-endian in the buffer.
    assert_eq!(frame.image.data, vec![1, 2, 3, 4]);
}

#[test]
fn frame_index_beyond_zero_is_unsupported() {
    let mut bytes = header(2, 1, 1, 24, 0, 0);
    bytes.extend_from_slice(&[0x00, 0x00, 0xFF]);
    let mut decoder = TGAImageDecoderPlugin::create(bytes).unwrap();
    assert!(matches!(decoder.frame(1), Err(DecodeError::Unsupported)));
    assert!(matches!(
        decoder.frame_with_ideal_size(7, None),
        Err(DecodeError::Unsupported)
    ));
}

#[test]
fn invalid_color_map_type_is_a_format_error() {
    let mut bytes = header(2, 1, 1, 24, 0, 0);
    bytes[1] = 2;
    bytes.extend_from_slice(&[0x00, 0x00, 0xFF]);
    let mut decoder = TGAImageDecoderPlugin::create(bytes).unwrap();
    assert!(matches!(decoder.frame(0), Err(DecodeError::Format)));
}

#[test]
fn unhandled_bit_depth_is_unsupported() {
    // 8 bits per pixel passes construction but has no decode path.
    let bytes = header(3, 1, 1, 8, 0, 0);
    let mut decoder = TGAImageDecoderPlugin::create(bytes).unwrap();
    assert!(matches!(decoder.frame(0), Err(DecodeError::Unsupported)));
}

#[test]
fn unhandled_data_type_is_unsupported() {
    // Color-mapped data type with a handled depth.
    let bytes = header(1, 1, 1, 24, 0, 0);
    let mut decoder = TGAImageDecoderPlugin::create(bytes).unwrap();
    assert!(matches!(decoder.frame(0), Err(DecodeError::Unsupported)));
}

#[test]
fn degenerate_geometry_is_an_allocation_error() {
    let bytes = header(2, 0, 1, 24, 0, 0);
    let mut decoder = TGAImageDecoderPlugin::create(bytes).unwrap();
    assert!(matches!(decoder.frame(0), Err(DecodeError::Allocation)));
    // Past the 16-bit signed ceiling; run-length type, so construction
    // needs no pixel bytes.
    let bytes = header(10, 40000, 1, 24, 0, 0);
    let mut decoder = TGAImageDecoderPlugin::create(bytes).unwrap();
    assert!(matches!(decoder.frame(0), Err(DecodeError::Allocation)));
}

#[test]
fn unsupported_y_origin_is_a_format_error() {
    let mut bytes = header(2, 1, 2, 24, 0, 1);
    bytes.extend_from_slice(&[0, 0, 1, 0, 0, 2]);
    let mut decoder = TGAImageDecoderPlugin::create(bytes).unwrap();
    assert!(matches!(decoder.frame(0), Err(DecodeError::Format)));
}

#[test]
fn unsupported_x_origin_is_a_format_error() {
    let mut bytes = header(2, 2, 1, 24, 1, 0);
    bytes.extend_from_slice(&[0, 0, 1, 0, 0, 2]);
    let mut decoder = TGAImageDecoderPlugin::create(bytes).unwrap();
    assert!(matches!(decoder.frame(0), Err(DecodeError::Format)));
}

#[test]
fn origin_flips_place_pixels() {
    // 2x2, four distinct colors in stream order, every supported origin
    // combination. The column rule never flips for an x origin of 0 or the
    // width; rows flip exactly when the y origin is 0.
    let stream: [[u8; 3]; 4] = [[1, 0, 0], [0, 1, 0], [0, 0, 1], [1, 1, 1]];
    for (x_origin, y_origin) in [(0i16, 0i16), (0, 2), (2, 0), (2, 2)] {
        let mut bytes = header(2, 2, 2, 24, x_origin, y_origin);
        for p in &stream {
            bytes.extend_from_slice(p);
        }
        let mut decoder = TGAImageDecoderPlugin::create(bytes).unwrap();
        let frame = decoder.frame(0).unwrap();
        for y in 0usize..2 {
            for x in 0usize..2 {
                let stream_row = if y_origin == 2 { y } else { 1 - y };
                let k = stream_row * 2 + x;
                let expected = packed_bgr(stream[k][0], stream[k][1], stream[k][2]);
                let off = y * 8 + x * 4;
                assert_eq!(
                    &frame.image.data[off..off + 4],
                    &expected,
                    "origin ({x_origin},{y_origin}) pixel ({x},{y})"
                );
            }
        }
    }
}

#[test]
fn negative_y_origin_means_top_left() {
    // 1x2: with a negative y origin the first stream pixel stays the top
    // row, as with a y origin of the full height.
    let stream: [[u8; 3]; 2] = [[1, 0, 0], [0, 1, 0]];
    let mut bytes = header(2, 1, 2, 24, 0, -5);
    for p in &stream {
        bytes.extend_from_slice(p);
    }
    let mut decoder = TGAImageDecoderPlugin::create(bytes).unwrap();
    let frame = decoder.frame(0).unwrap();
    assert_eq!(&frame.image.data[0..4], &packed_bgr(1, 0, 0));
    assert_eq!(&frame.image.data[4..8], &packed_bgr(0, 1, 0));
}

#[test]
fn x_origin_at_width_matches_x_origin_zero() {
    // Pins the asymmetric column rule: an x origin equal to the width does
    // not flip columns.
    let stream: [[u8; 3]; 2] = [[1, 0, 0], [0, 1, 0]];
    let mut decoded = Vec::new();
    for x_origin in [0i16, 2] {
        let mut bytes = header(2, 2, 1, 24, x_origin, 0);
        for p in &stream {
            bytes.extend_from_slice(p);
        }
        let mut decoder = TGAImageDecoderPlugin::create(bytes).unwrap();
        decoded.push(decoder.frame(0).unwrap().image.data);
    }
    assert_eq!(decoded[0], decoded[1]);
    assert_eq!(&decoded[0][0..4], &packed_bgr(1, 0, 0));
}

#[test]
fn rle_raw_packet_header_zero_is_one_pixel() {
    // Header byte 0x00: raw flag, count field 0, meaning exactly 1 pixel.
    let mut bytes = header(10, 1, 1, 24, 0, 1);
    bytes.extend_from_slice(&[0x00, 5, 6, 7]);
    let mut decoder = TGAImageDecoderPlugin::create(bytes).unwrap();
    let frame = decoder.frame(0).unwrap();
    assert_eq!(frame.image.data, packed_bgr(5, 6, 7).to_vec());
}

#[test]
fn rle_run_packet_0x81_is_a_two_pixel_run() {
    let mut bytes = header(10, 2, 1, 24, 0, 1);
    bytes.extend_from_slice(&[0x81, 5, 6, 7]);
    let mut decoder = TGAImageDecoderPlugin::create(bytes).unwrap();
    let frame = decoder.frame(0).unwrap();
    let expected = packed_bgr(5, 6, 7);
    assert_eq!(&frame.image.data[0..4], &expected);
    assert_eq!(&frame.image.data[4..8], &expected);
}

#[test]
fn rle_run_packet_is_truncated_to_the_budget() {
    // A 5-pixel run on a 2-pixel image fills exactly the 2 pixels.
    let mut bytes = header(10, 2, 1, 24, 0, 1);
    bytes.extend_from_slice(&[0x84, 5, 6, 7]);
    let mut decoder = TGAImageDecoderPlugin::create(bytes).unwrap();
    let frame = decoder.frame(0).unwrap();
    let expected = packed_bgr(5, 6, 7);
    assert_eq!(&frame.image.data[0..4], &expected);
    assert_eq!(&frame.image.data[4..8], &expected);
}

#[test]
fn rle_raw_packet_is_truncated_to_the_budget() {
    // A raw packet declaring 2 pixels on a 1-pixel image reads only one
    // pixel value and succeeds.
    let mut bytes = header(10, 1, 1, 24, 0, 1);
    bytes.extend_from_slice(&[0x01, 5, 6, 7]);
    let mut decoder = TGAImageDecoderPlugin::create(bytes).unwrap();
    let frame = decoder.frame(0).unwrap();
    assert_eq!(frame.image.data, packed_bgr(5, 6, 7).to_vec());
}

#[test]
fn rle_short_stream_is_a_format_error() {
    // 2 pixels declared, stream ends after one raw pixel.
    let mut bytes = header(10, 2, 1, 24, 0, 1);
    bytes.extend_from_slice(&[0x00, 5, 6, 7]);
    let mut decoder = TGAImageDecoderPlugin::create(bytes).unwrap();
    assert!(matches!(decoder.frame(0), Err(DecodeError::Format)));
}

#[test]
fn rle_mixed_packets_fill_in_stream_order() {
    // 2x2 bottom-up: a 3-pixel run then one raw pixel.
    let mut bytes = header(10, 2, 2, 24, 0, 0);
    bytes.extend_from_slice(&[0x82, 5, 6, 7]);
    bytes.extend_from_slice(&[0x00, 9, 8, 7]);
    let mut decoder = TGAImageDecoderPlugin::create(bytes).unwrap();
    let frame = decoder.frame(0).unwrap();
    let run = packed_bgr(5, 6, 7);
    let raw = packed_bgr(9, 8, 7);
    // Stream pixels 0,1 land on the bottom row, 2,3 on the top row.
    assert_eq!(&frame.image.data[8..12], &run);
    assert_eq!(&frame.image.data[12..16], &run);
    assert_eq!(&frame.image.data[0..4], &run);
    assert_eq!(&frame.image.data[4..8], &raw);
}

#[test]
fn decode_twice_is_byte_identical() {
    let mut bytes = header(2, 2, 2, 24, 0, 0);
    bytes.extend_from_slice(&[1, 2, 3, 4, 5, 6, 7, 8, 9, 10, 11, 12]);
    let mut decoder = TGAImageDecoderPlugin::create(bytes).unwrap();
    let first = decoder.frame(0).unwrap();
    let second = decoder.frame(0).unwrap();
    assert_eq!(first.image.data, second.image.data);
    assert_eq!(first.image.format, second.image.format);
    assert_eq!(first.image.pitch, second.image.pitch);
    assert_eq!(first.duration, second.duration);
    let third = decoder.frame_with_ideal_size(0, Some(IntSize { width: 9, height: 9 })).unwrap();
    assert_eq!(first.image.data, third.image.data);
}

#[test]
fn metadata_probes_describe_a_static_single_frame() {
    let mut bytes = header(2, 3, 2, 24, 0, 0);
    bytes.extend_from_slice(&[0u8; 18]);
    let decoder = TGAImageDecoderPlugin::create(bytes).unwrap();
    assert_eq!(decoder.size(), IntSize { width: 3, height: 2 });
    assert!(!decoder.is_animated());
    assert_eq!(decoder.loop_count(), 0);
    assert_eq!(decoder.frame_count(), 1);
    assert_eq!(decoder.first_animated_frame_index(), 0);
    assert_eq!(decoder.natural_frame_format(), NaturalFrameFormat::RGB);
}
