//! The TGA decoder: header parsing and validation, uncompressed and
//! run-length-encoded truecolor pixel streams, origin-dependent placement,
//! and an instance-local cache of the decoded frame.

use vstd::prelude::*;
use crate::{Color, IntSize, spec_pack_rgb, spec_pack_rgba};
use crate::bitmap::{Bitmap, BitmapFormat, DecodeError, spec_size_would_overflow};
use crate::imagedecoderplugin::{ImageDecoderPlugin, ImageFrameDescriptor};

verus! {

/// The byte count of the fixed TGA file header.
pub const TGA_HEADER_SIZE: usize = 18;

/// The data-type code of an uncompressed truecolor pixel stream.
pub const DATA_TYPE_UNCOMPRESSED_RGB: u8 = 2;

/// The data-type code of a run-length-encoded truecolor pixel stream.
pub const DATA_TYPE_RUN_LENGTH_ENCODED_RGB: u8 = 10;

/// The fixed 18-byte TGA file header, parsed field by field from the first
/// bytes of the input, little-endian where a field is wider than one byte.
#[derive(Debug, Clone, Copy, PartialEq, Eq, Structural)]
pub struct TGAHeader {
    pub id_length: u8,
    pub color_map_type: u8,
    pub data_type_code: u8,
    pub color_map_origin: i16,
    pub color_map_length: i16,
    pub color_map_depth: u8,
    pub x_origin: i16,
    pub y_origin: i16,
    pub width: u16,
    pub height: u16,
    pub bits_per_pixel: u8,
    pub image_descriptor: u8,
}

/// One packet header of a run-length-encoded stream: whether the packet is
/// raw, and how many pixels it covers (1 through 128).
pub struct TGAPixelPacketHeader {
    pub raw: bool,
    pub pixels_count: u8,
}

/// The unsigned 16-bit value stored little-endian at offset `i` of `b`.
pub open spec fn spec_u16_le(b: Seq<u8>, i: int) -> u16 {
    (b[i] + 0x100 * b[i + 1]) as u16
}

/// The signed reading of an unsigned 16-bit value, two's complement.
pub open spec fn spec_i16_of(v: u16) -> i16 {
    if v < 0x8000 {
        v as i16
    } else {
        (v - 0x10000) as i16
    }
}

/// The header described by the first 18 bytes of `b`.
pub open spec fn spec_parse_header(b: Seq<u8>) -> TGAHeader {
    TGAHeader {
        id_length: b[0],
        color_map_type: b[1],
        data_type_code: b[2],
        color_map_origin: spec_i16_of(spec_u16_le(b, 3)),
        color_map_length: spec_i16_of(spec_u16_le(b, 5)),
        color_map_depth: b[7],
        x_origin: spec_i16_of(spec_u16_le(b, 8)),
        y_origin: spec_i16_of(spec_u16_le(b, 10)),
        width: spec_u16_le(b, 12),
        height: spec_u16_le(b, 14),
        bits_per_pixel: b[16],
        image_descriptor: b[17],
    }
}

/// What header validation accepts: a depth that is a multiple of 8 between
/// 8 and 32, and, for an uncompressed truecolor stream, an input that holds
/// at least one pixel's worth of bytes for every pixel the header declares.
pub open spec fn spec_header_valid(h: TGAHeader, total_len: int) -> bool {
    &&& h.bits_per_pixel % 8 == 0
    &&& 8 <= h.bits_per_pixel <= 32
    &&& (h.data_type_code == DATA_TYPE_UNCOMPRESSED_RGB ==> total_len - TGA_HEADER_SIZE
        >= h.width * h.height * h.bits_per_pixel / 8)
}

/// How many bytes one pixel of the stream occupies.
pub open spec fn spec_bytes_per_pixel(h: TGAHeader) -> int {
    h.bits_per_pixel as int / 8
}

/// How many pixels the image holds.
pub open spec fn spec_pixel_count(h: TGAHeader) -> int {
    h.width * h.height
}

/// The pixel value packed from the `bytes_size` stream bytes at offset
/// `off`: blue, green, red and, for four-byte pixels, alpha, in disk order.
/// Three-byte pixels pack an opaque alpha.
pub open spec fn spec_pixel_at(b: Seq<u8>, off: int, bytes_size: int) -> u32 {
    if bytes_size == 3 {
        spec_pack_rgb(b[off + 2], b[off + 1], b[off])
    } else {
        spec_pack_rgba(b[off + 2], b[off + 1], b[off], b[off + 3])
    }
}

/// The y origin after the compatibility normalization: a negative value
/// stands for an origin at the full height of the picture.
pub open spec fn spec_norm_y_origin(h: TGAHeader) -> int {
    if h.y_origin < 0 {
        h.height as int
    } else {
        h.y_origin as int
    }
}

/// The two scan directions this decoder handles: the normalized y origin is
/// zero or the full height, and the x origin is zero or the full width.
pub open spec fn spec_origin_supported(h: TGAHeader) -> bool {
    &&& (spec_norm_y_origin(h) == 0 || spec_norm_y_origin(h) == h.height)
    &&& (h.x_origin == 0 || h.x_origin == h.width)
}

/// Whether stream rows are placed bottom-up: exactly when the normalized
/// y origin falls short of the full height.
pub open spec fn spec_flip_rows(h: TGAHeader) -> bool {
    spec_norm_y_origin(h) < h.height
}

/// Whether stream columns are placed right-to-left: exactly when the
/// x origin exceeds the full width.
pub open spec fn spec_flip_cols(h: TGAHeader) -> bool {
    h.x_origin > h.width
}

/// Which stream pixel lands at output position `(x, y)`: the origin flips
/// are involutions, so the source index is computed by flipping the
/// destination back.
pub open spec fn spec_src_index(h: TGAHeader, x: int, y: int) -> int {
    let row = if spec_flip_rows(h) {
        h.height - 1 - y
    } else {
        y
    };
    let col = if spec_flip_cols(h) {
        h.width - 1 - x
    } else {
        x
    };
    row * h.width + col
}

/// A packet prefix glued onto the rest of a decode, or a failure carried
/// through.
pub open spec fn spec_opt_prepend(prefix: Seq<u32>, rest: Option<Seq<u32>>) -> Option<Seq<u32>> {
    match rest {
        Option::Some(s) => Option::Some(prefix + s),
        Option::None => Option::None,
    }
}

/// The pixels of a run-length-encoded stream read from `b` at `pos`, until
/// `remaining` pixels are produced, or `None` where the stream ends short.
/// Each packet starts with a header byte: the low seven bits plus one give
/// the pixel count, the high bit clear marks a raw packet (that many pixel
/// values follow) and set marks a run (one pixel value follows, replicated).
/// A packet that would overrun the remaining budget is truncated to it; a
/// truncated raw packet reads only the pixels that fit.
pub open spec fn spec_rle_decode(b: Seq<u8>, pos: int, remaining: nat, bpb: int) -> Option<
    Seq<u32>,
>
    decreases remaining,
{
    if remaining == 0 {
        Option::Some(Seq::empty())
    } else if pos + 1 > b.len() {
        Option::None
    } else {
        let hdr = b[pos];
        let cnt = (hdr % 0x80) + 1;
        let take = if cnt <= remaining {
            cnt as int
        } else {
            remaining as int
        };
        if hdr < 0x80 {
            if pos + 1 + take * bpb > b.len() {
                Option::None
            } else {
                spec_opt_prepend(
                    Seq::new(take as nat, |i: int| spec_pixel_at(b, pos + 1 + i * bpb, bpb)),
                    spec_rle_decode(b, pos + 1 + take * bpb, (remaining - take) as nat, bpb),
                )
            }
        } else {
            if pos + 1 + bpb > b.len() {
                Option::None
            } else {
                spec_opt_prepend(
                    Seq::new(take as nat, |i: int| spec_pixel_at(b, pos + 1, bpb)),
                    spec_rle_decode(b, pos + 1 + bpb, (remaining - take) as nat, bpb),
                )
            }
        }
    }
}

/// The pixel sequence the input's stream declares, in stream order, or
/// `None` where the stream ends short of the image's pixel count.
pub open spec fn spec_pixel_stream(h: TGAHeader, b: Seq<u8>) -> Option<Seq<u32>> {
    let n = spec_pixel_count(h);
    let bpb = spec_bytes_per_pixel(h);
    if h.data_type_code == DATA_TYPE_UNCOMPRESSED_RGB {
        if 18 + n * bpb <= b.len() {
            Option::Some(Seq::new(n as nat, |k: int| spec_pixel_at(b, 18 + k * bpb, bpb)))
        } else {
            Option::None
        }
    } else {
        spec_rle_decode(b, 18, n as nat, bpb)
    }
}

/// The pixels with a source index below `count` are already placed in the
/// buffer, each at the position its origin flip sends it to.
pub open spec fn spec_prefix_placed(h: TGAHeader, pix: Seq<u32>, bm: Bitmap, count: int) -> bool {
    forall|x: int, y: int|
        0 <= x < h.width && 0 <= y < h.height && #[trigger] spec_src_index(h, x, y) < count
            ==> bm.spec_pixel(x, y) == pix[spec_src_index(h, x, y)]
}

/// What a completed decode leaves in the buffer: the format selected by the
/// depth, the header's dimensions at scale 1, and every pixel placed from
/// its source index.
pub open spec fn spec_decoded_bitmap(h: TGAHeader, pix: Seq<u32>, bm: Bitmap) -> bool {
    &&& bm.wf()
    &&& bm.format == (if h.bits_per_pixel == 24 {
        BitmapFormat::BGRx8888
    } else {
        BitmapFormat::BGRA8888
    })
    &&& bm.size == (IntSize { width: h.width as i32, height: h.height as i32 })
    &&& bm.scale == 1
    &&& forall|x: int, y: int|
        0 <= x < h.width && 0 <= y < h.height ==> #[trigger] bm.spec_pixel(x, y) == pix[
            spec_src_index(h, x, y)]
}

/// The allocation is refused exactly when a dimension is zero or past the
/// 16-bit signed ceiling; a frame is decoded at scale 1.
pub open spec fn spec_alloc_fails(h: TGAHeader) -> bool {
    spec_size_would_overflow(IntSize { width: h.width as i32, height: h.height as i32 }, 1)
}

/// The source mapping stays inside the stream and hits each index at most
/// once: with it, placing pixel after pixel never disturbs one already
/// placed.
pub proof fn lemma_src_index_bijective(h: TGAHeader, x: int, y: int)
    requires
        1 <= h.width,
        1 <= h.height,
        0 <= x < h.width,
        0 <= y < h.height,
    ensures
        0 <= spec_src_index(h, x, y) < h.width * h.height,
        forall|x2: int, y2: int|
            0 <= x2 < h.width && 0 <= y2 < h.height && #[trigger] spec_src_index(h, x2, y2)
                == spec_src_index(h, x, y) ==> x2 == x && y2 == y,
{
    let w = h.width as int;
    let hh = h.height as int;
    let row = if spec_flip_rows(h) {
        hh - 1 - y
    } else {
        y
    };
    let col = if spec_flip_cols(h) {
        w - 1 - x
    } else {
        x
    };
    assert(0 <= row < hh && 0 <= col < w);
    assert(0 <= row * w + col < hh * w && hh * w == w * hh) by (nonlinear_arith)
        requires
            0 <= row < hh,
            0 <= col < w,
            1 <= w,
    ;
    assert forall|x2: int, y2: int|
        0 <= x2 < h.width && 0 <= y2 < h.height && #[trigger] spec_src_index(h, x2, y2)
            == spec_src_index(h, x, y) implies x2 == x && y2 == y by {
        let row2 = if spec_flip_rows(h) {
            hh - 1 - y2
        } else {
            y2
        };
        let col2 = if spec_flip_cols(h) {
            w - 1 - x2
        } else {
            x2
        };
        assert(row2 == row && col2 == col) by (nonlinear_arith)
            requires
                0 <= col < w,
                0 <= col2 < w,
                0 <= row,
                0 <= row2,
                row2 * w + col2 == row * w + col,
        ;
    }
}

/// Reads the unsigned 16-bit little-endian value at offset `i`.
fn read_u16_le(bytes: &Vec<u8>, i: usize) -> (r: u16)
    requires
        i + 2 <= bytes@.len(),
    ensures
        r == spec_u16_le(bytes@, i as int),
{
    let n: usize = bytes.len();
    assert(i + 2 <= n);
    (bytes[i] as u16) + 0x100 * (bytes[i + 1] as u16)
}

/// Reads the signed 16-bit little-endian value at offset `i`.
fn read_i16_le(bytes: &Vec<u8>, i: usize) -> (r: i16)
    requires
        i + 2 <= bytes@.len(),
    ensures
        r == spec_i16_of(spec_u16_le(bytes@, i as int)),
{
    let v = read_u16_le(bytes, i);
    if v < 0x8000 {
        v as i16
    } else {
        -32768i16 + ((v - 0x8000) as i16)
    }
}

/// Parses the first 18 bytes as a TGA header, field by field at the fixed
/// offsets of the on-disk layout.
pub fn parse_tga_header(bytes: &Vec<u8>) -> (r: TGAHeader)
    requires
        bytes@.len() >= 18,
    ensures
        r == spec_parse_header(bytes@),
{
    TGAHeader {
        id_length: bytes[0],
        color_map_type: bytes[1],
        data_type_code: bytes[2],
        color_map_origin: read_i16_le(bytes, 3),
        color_map_length: read_i16_le(bytes, 5),
        color_map_depth: bytes[7],
        x_origin: read_i16_le(bytes, 8),
        y_origin: read_i16_le(bytes, 10),
        width: read_u16_le(bytes, 12),
        height: read_u16_le(bytes, 14),
        bits_per_pixel: bytes[16],
        image_descriptor: bytes[17],
    }
}

/// Reads one pixel value of `bytes_size` bytes at the cursor and advances
/// it. The disk order is blue, green, red and, for four-byte pixels, alpha.
/// Fails, leaving the cursor in place, exactly when fewer than `bytes_size`
/// bytes remain.
pub fn read_pixel_from_reader(bytes: &Vec<u8>, pos: &mut usize, bytes_size: usize) -> (r: Result<
    Color,
    DecodeError,
>)
    requires
        bytes_size == 3 || bytes_size == 4,
    ensures
        r is Ok <==> *old(pos) + bytes_size <= bytes@.len(),
        r is Ok ==> *final(pos) == *old(pos) + bytes_size && r->Ok_0.color == spec_pixel_at(
            bytes@,
            *old(pos) as int,
            bytes_size as int,
        ),
        r is Err ==> *final(pos) == *old(pos) && r->Err_0 == DecodeError::Format,
{
    if bytes.len() < bytes_size || *pos > bytes.len() - bytes_size {
        return Err(DecodeError::Format);
    }
    let base = *pos;
    let color = if bytes_size == 3 {
        Color::from_rgb(bytes[base + 2], bytes[base + 1], bytes[base])
    } else {
        Color::from_rgba(bytes[base + 2], bytes[base + 1], bytes[base], bytes[base + 3])
    };
    *pos = base + bytes_size;
    Ok(color)
}

/// Reads one packet header byte at the cursor and advances it. The low
/// seven bits plus one give the pixel count, so a packet always covers at
/// least one pixel; the high bit clear marks a raw packet. Fails, leaving
/// the cursor in place, exactly when no byte remains.
pub fn read_pixel_packet_header(bytes: &Vec<u8>, pos: &mut usize) -> (r: Result<
    TGAPixelPacketHeader,
    DecodeError,
>)
    ensures
        r is Ok <==> *old(pos) + 1 <= bytes@.len(),
        r is Ok ==> *final(pos) == *old(pos) + 1 && r->Ok_0.raw == (bytes@[*old(pos) as int]
            < 0x80) && r->Ok_0.pixels_count == bytes@[*old(pos) as int] % 0x80 + 1,
        r is Err ==> *final(pos) == *old(pos) && r->Err_0 == DecodeError::Format,
{
    if *pos >= bytes.len() {
        return Err(DecodeError::Format);
    }
    let header_byte = bytes[*pos];
    *pos = *pos + 1;
    let raw = header_byte < 0x80;
    let pixels_count = header_byte % 0x80 + 1;
    Ok(TGAPixelPacketHeader { raw, pixels_count })
}

/// Decodes an uncompressed truecolor stream into the buffer: one pixel per
/// destination cell in raster order, each placed through the origin flips.
/// Fails with a format error exactly when the stream ends short of the
/// image's pixel count.
fn decode_uncompressed_stream(
    bytes: &Vec<u8>,
    hdr: TGAHeader,
    bitmap: &mut Bitmap,
    flip_rows: bool,
    flip_cols: bool,
    bytes_per_pixel: usize,
) -> (r: Result<(), DecodeError>)
    requires
        old(bitmap).wf(),
        old(bitmap).scale == 1,
        old(bitmap).size.width == hdr.width as i32,
        old(bitmap).size.height == hdr.height as i32,
        bytes_per_pixel == spec_bytes_per_pixel(hdr),
        bytes_per_pixel == 3 || bytes_per_pixel == 4,
        flip_rows == spec_flip_rows(hdr),
        flip_cols == spec_flip_cols(hdr),
        hdr.data_type_code == DATA_TYPE_UNCOMPRESSED_RGB,
    ensures
        final(bitmap).wf(),
        final(bitmap).format == old(bitmap).format,
        final(bitmap).size == old(bitmap).size,
        final(bitmap).scale == old(bitmap).scale,
        final(bitmap).pitch == old(bitmap).pitch,
        r is Ok <==> spec_pixel_stream(hdr, bytes@) is Some,
        r is Ok ==> forall|x: int, y: int|
            0 <= x < hdr.width && 0 <= y < hdr.height ==> #[trigger] final(bitmap).spec_pixel(x, y)
                == spec_pixel_stream(hdr, bytes@)->Some_0[spec_src_index(hdr, x, y)],
        r is Err ==> r->Err_0 == DecodeError::Format,
{
    let w = hdr.width as usize;
    let hh = hdr.height as usize;
    let ghost b = bytes@;
    let ghost n = spec_pixel_count(hdr);
    let ghost bpb = bytes_per_pixel as int;
    let ghost pix = Seq::new(n as nat, |k: int| spec_pixel_at(b, 18 + k * bpb, bpb));
    let mut pos: usize = 18;
    let mut row: usize = 0;
    while row < hh
        invariant
            w == hdr.width,
            hh == hdr.height,
            1 <= w <= 0x7FFF,
            1 <= hh <= 0x7FFF,
            bpb == bytes_per_pixel,
            bytes_per_pixel == 3 || bytes_per_pixel == 4,
            bpb == spec_bytes_per_pixel(hdr),
            flip_rows == spec_flip_rows(hdr),
            flip_cols == spec_flip_cols(hdr),
            b == bytes@,
            n == spec_pixel_count(hdr),
            pix == Seq::new(n as nat, |k: int| spec_pixel_at(b, 18 + k * bpb, bpb)),
            row <= hh,
            pos == 18 + row * w * bpb,
            row > 0 ==> pos <= b.len(),
            hdr.data_type_code == DATA_TYPE_UNCOMPRESSED_RGB,
            bitmap.wf(),
            bitmap.scale == 1,
            bitmap.scale == old(bitmap).scale,
            bitmap.format == old(bitmap).format,
            bitmap.size == old(bitmap).size,
            bitmap.pitch == old(bitmap).pitch,
            bitmap.size.width == hdr.width as i32,
            bitmap.size.height == hdr.height as i32,
            spec_prefix_placed(hdr, pix, *bitmap, row * w as int),
        decreases hh - row,
    {
        let mut col: usize = 0;
        while col < w
            invariant
                w == hdr.width,
                hh == hdr.height,
                1 <= w <= 0x7FFF,
                1 <= hh <= 0x7FFF,
                bpb == bytes_per_pixel,
                bytes_per_pixel == 3 || bytes_per_pixel == 4,
                bpb == spec_bytes_per_pixel(hdr),
                flip_rows == spec_flip_rows(hdr),
                flip_cols == spec_flip_cols(hdr),
                b == bytes@,
                n == spec_pixel_count(hdr),
                pix == Seq::new(n as nat, |k: int| spec_pixel_at(b, 18 + k * bpb, bpb)),
                row < hh,
                col <= w,
                pos == 18 + (row * w + col) * bpb,
                (row > 0 || col > 0) ==> pos <= b.len(),
                hdr.data_type_code == DATA_TYPE_UNCOMPRESSED_RGB,
                bitmap.wf(),
                bitmap.scale == 1,
                bitmap.scale == old(bitmap).scale,
                bitmap.format == old(bitmap).format,
                bitmap.size == old(bitmap).size,
                bitmap.pitch == old(bitmap).pitch,
                bitmap.size.width == hdr.width as i32,
                bitmap.size.height == hdr.height as i32,
                spec_prefix_placed(hdr, pix, *bitmap, row * w + col),
            decreases w - col,
        {
            let ghost k = row * w + col;
            proof {
                assert(0 <= k && k + 1 <= n && (k + 1) * bpb <= n * bpb && (k + 1) * bpb == k * bpb
                    + bpb) by (nonlinear_arith)
                    requires
                        k == row * w + col,
                        n == w * hh,
                        0 <= row < hh,
                        0 <= col < w,
                        1 <= w,
                        0 < bpb,
                ;
            }
            let pixel = match read_pixel_from_reader(bytes, &mut pos, bytes_per_pixel) {
                Ok(c) => c,
                Err(_) => {
                    proof {
                        assert(18 + n * bpb > b.len());
                        assert(spec_pixel_stream(hdr, b) is None);
                    }
                    return Err(DecodeError::Format);
                },
            };
            let actual_row = if flip_rows {
                hh - 1 - row
            } else {
                row
            };
            let actual_col = if flip_cols {
                w - 1 - col
            } else {
                col
            };
            proof {
                lemma_src_index_bijective(hdr, actual_col as int, actual_row as int);
                assert(spec_src_index(hdr, actual_col as int, actual_row as int) == k);
                assert(pix[k as int] == spec_pixel_at(b, 18 + k * bpb, bpb));
            }
            let ghost bm_before = *bitmap;
            bitmap.set_pixel(actual_col as i32, actual_row as i32, pixel.color);
            proof {
                assert forall|x2: int, y2: int|
                    0 <= x2 < hdr.width && 0 <= y2 < hdr.height && #[trigger] spec_src_index(
                        hdr,
                        x2,
                        y2,
                    ) < k + 1 implies bitmap.spec_pixel(x2, y2) == pix[spec_src_index(
                    hdr,
                    x2,
                    y2,
                )] by {
                    if x2 == actual_col && y2 == actual_row {
                        assert(bitmap.spec_pixel(x2, y2) == pixel.color);
                    } else {
                        assert(spec_src_index(hdr, x2, y2) != k);
                        assert(bitmap.spec_pixel(x2, y2) == bm_before.spec_pixel(x2, y2));
                    }
                }
            }
            col = col + 1;
        }
        proof {
            assert((row * w + w) * bpb == (row + 1) * w * bpb && row * w + w == (row + 1) * w)
                by (nonlinear_arith);
        }
        row = row + 1;
    }
    proof {
        assert(hh * w * bpb == n * bpb && hh * w == w * hh) by (nonlinear_arith)
            requires
                n == w * hh,
        ;
        assert(18 + n * bpb <= b.len());
        assert(spec_pixel_stream(hdr, b) is Some);
        assert(spec_pixel_stream(hdr, b)->Some_0 == pix);
        assert forall|x: int, y: int| 0 <= x < hdr.width && 0 <= y < hdr.height implies #[trigger]
            bitmap.spec_pixel(x, y) == pix[spec_src_index(hdr, x, y)] by {
            lemma_src_index_bijective(hdr, x, y);
            assert(spec_src_index(hdr, x, y) < hh * w);
        }
    }
    Ok(())
}

/// Decodes a run-length-encoded truecolor stream into the buffer: packets
/// are consumed until the cumulative pixel count reaches the image's, each
/// decoded pixel placed through the origin flips. A packet that would
/// overrun the total is truncated to the remaining count. Fails with a
/// format error exactly when the stream ends short.
#[verifier::rlimit(100)]
fn decode_rle_stream(
    bytes: &Vec<u8>,
    hdr: TGAHeader,
    bitmap: &mut Bitmap,
    flip_rows: bool,
    flip_cols: bool,
    bytes_per_pixel: usize,
) -> (r: Result<(), DecodeError>)
    requires
        old(bitmap).wf(),
        old(bitmap).scale == 1,
        old(bitmap).size.width == hdr.width as i32,
        old(bitmap).size.height == hdr.height as i32,
        bytes_per_pixel == spec_bytes_per_pixel(hdr),
        bytes_per_pixel == 3 || bytes_per_pixel == 4,
        flip_rows == spec_flip_rows(hdr),
        flip_cols == spec_flip_cols(hdr),
        hdr.data_type_code == DATA_TYPE_RUN_LENGTH_ENCODED_RGB,
    ensures
        final(bitmap).wf(),
        final(bitmap).format == old(bitmap).format,
        final(bitmap).size == old(bitmap).size,
        final(bitmap).scale == old(bitmap).scale,
        final(bitmap).pitch == old(bitmap).pitch,
        r is Ok <==> spec_pixel_stream(hdr, bytes@) is Some,
        r is Ok ==> forall|x: int, y: int|
            0 <= x < hdr.width && 0 <= y < hdr.height ==> #[trigger] final(bitmap).spec_pixel(x, y)
                == spec_pixel_stream(hdr, bytes@)->Some_0[spec_src_index(hdr, x, y)],
        r is Err ==> r->Err_0 == DecodeError::Format,
{
    let w = hdr.width as usize;
    let hh = hdr.height as usize;
    let ghost b = bytes@;
    let ghost n = spec_pixel_count(hdr);
    let ghost bpb = bytes_per_pixel as int;
    proof {
        assert(n == w * hh && 1 <= n <= 0x7FFF * 0x7FFF) by (nonlinear_arith)
            requires
                w == hdr.width,
                hh == hdr.height,
                1 <= w <= 0x7FFF,
                1 <= hh <= 0x7FFF,
                n == hdr.width * hdr.height,
        ;
    }
    let pixel_count = w * hh;
    let mut pos: usize = 18;
    let mut pixel_index: usize = 0;
    let ghost mut written: Seq<u32> = Seq::empty();
    proof {
        let r0 = spec_rle_decode(b, 18, n as nat, bpb);
        if r0 is Some {
            assert(Seq::empty() + r0->Some_0 =~= r0->Some_0);
        }
    }
    while pixel_index < pixel_count
        invariant
            w == hdr.width,
            hh == hdr.height,
            1 <= w <= 0x7FFF,
            1 <= hh <= 0x7FFF,
            bpb == bytes_per_pixel,
            bytes_per_pixel == 3 || bytes_per_pixel == 4,
            bpb == spec_bytes_per_pixel(hdr),
            flip_rows == spec_flip_rows(hdr),
            flip_cols == spec_flip_cols(hdr),
            hdr.data_type_code == DATA_TYPE_RUN_LENGTH_ENCODED_RGB,
            b == bytes@,
            n == spec_pixel_count(hdr),
            n == pixel_count,
            n <= 0x7FFF * 0x7FFF,
            written.len() == (if pixel_index <= pixel_count {
                pixel_index as int
            } else {
                pixel_count as int
            }),
            spec_rle_decode(b, 18, n as nat, bpb) == spec_opt_prepend(
                written,
                spec_rle_decode(b, pos as int, (n - written.len()) as nat, bpb),
            ),
            bitmap.wf(),
            bitmap.scale == 1,
            bitmap.scale == old(bitmap).scale,
            bitmap.format == old(bitmap).format,
            bitmap.size == old(bitmap).size,
            bitmap.pitch == old(bitmap).pitch,
            bitmap.size.width == hdr.width as i32,
            bitmap.size.height == hdr.height as i32,
            spec_prefix_placed(hdr, written, *bitmap, written.len() as int),
        decreases pixel_count - written.len(),
    {
        let ghost rem = (n - written.len()) as nat;
        let ghost pos0 = pos as int;
        let packet = match read_pixel_packet_header(bytes, &mut pos) {
            Ok(p) => p,
            Err(_) => {
                proof {
                    assert(spec_rle_decode(b, pos0, rem, bpb) is None);
                }
                return Err(DecodeError::Format);
            },
        };
        let mut pixel = match read_pixel_from_reader(bytes, &mut pos, bytes_per_pixel) {
            Ok(c) => c,
            Err(_) => {
                proof {
                    let hdrb = b[pos0];
                    let cnt = (hdrb % 0x80) + 1;
                    let stake = if cnt <= rem {
                        cnt as int
                    } else {
                        rem as int
                    };
                    assert(stake * bpb >= bpb) by (nonlinear_arith)
                        requires
                            stake >= 1,
                            bpb >= 1,
                    ;
                    assert(spec_rle_decode(b, pos0, rem, bpb) is None);
                }
                return Err(DecodeError::Format);
            },
        };
        let cnt_usize = packet.pixels_count as usize;
        let max_pixel_index = if pixel_index + cnt_usize <= pixel_count {
            pixel_index + cnt_usize
        } else {
            pixel_count
        };
        let ghost take = (max_pixel_index - pixel_index) as int;
        let ghost pkt: Seq<u32> = if packet.raw {
            Seq::new(take as nat, |i: int| spec_pixel_at(b, pos0 + 1 + i * bpb, bpb))
        } else {
            Seq::new(take as nat, |i: int| spec_pixel_at(b, pos0 + 1, bpb))
        };
        proof {
            assert(1 <= take <= rem);
            assert(0 * bpb == 0);
            assert(pixel.color == pkt[0]);
        }
        let mut current_pixel_index = pixel_index;
        while current_pixel_index < max_pixel_index
            invariant
                w == hdr.width,
                hh == hdr.height,
                1 <= w <= 0x7FFF,
                1 <= hh <= 0x7FFF,
                bpb == bytes_per_pixel,
                bytes_per_pixel == 3 || bytes_per_pixel == 4,
                bpb == spec_bytes_per_pixel(hdr),
                flip_rows == spec_flip_rows(hdr),
                flip_cols == spec_flip_cols(hdr),
                b == bytes@,
                n == spec_pixel_count(hdr),
                n == pixel_count,
                n <= 0x7FFF * 0x7FFF,
                hdr.data_type_code == DATA_TYPE_RUN_LENGTH_ENCODED_RGB,
                pixel_index <= current_pixel_index <= max_pixel_index,
                pixel_index < max_pixel_index,
                max_pixel_index <= pixel_count,
                pixel_index == written.len(),
                rem == n - written.len(),
                pos0 + 1 <= b.len(),
                packet.raw == (b[pos0] < 0x80),
                packet.pixels_count == b[pos0] % 0x80 + 1,
                take == (if packet.pixels_count <= rem {
                    packet.pixels_count as int
                } else {
                    rem as int
                }),
                take == max_pixel_index - pixel_index,
                spec_rle_decode(b, 18, n as nat, bpb) == spec_opt_prepend(
                    written,
                    spec_rle_decode(b, pos0, rem, bpb),
                ),
                pkt == (if packet.raw {
                    Seq::new(take as nat, |i: int| spec_pixel_at(b, pos0 + 1 + i * bpb, bpb))
                } else {
                    Seq::new(take as nat, |i: int| spec_pixel_at(b, pos0 + 1, bpb))
                }),
                packet.raw ==> pos == pos0 + 1 + (if current_pixel_index - pixel_index + 1 <= take {
                    current_pixel_index - pixel_index + 1
                } else {
                    take
                }) * bpb,
                !packet.raw ==> pos == pos0 + 1 + bpb,
                pos <= b.len(),
                current_pixel_index < max_pixel_index ==> pixel.color == pkt[current_pixel_index
                    - pixel_index],
                bitmap.wf(),
                bitmap.scale == 1,
                bitmap.scale == old(bitmap).scale,
                bitmap.format == old(bitmap).format,
                bitmap.size == old(bitmap).size,
                bitmap.pitch == old(bitmap).pitch,
                bitmap.size.width == hdr.width as i32,
                bitmap.size.height == hdr.height as i32,
                spec_prefix_placed(hdr, written + pkt, *bitmap, current_pixel_index as int),
            decreases max_pixel_index - current_pixel_index,
        {
            let row = current_pixel_index / w;
            let col = current_pixel_index % w;
            proof {
                vstd::arithmetic::div_mod::lemma_fundamental_div_mod(
                    current_pixel_index as int,
                    w as int,
                );
                vstd::arithmetic::div_mod::lemma_mod_division_less_than_divisor(
                    current_pixel_index as int,
                    w as int,
                );
                assert(row < hh) by (nonlinear_arith)
                    requires
                        current_pixel_index == w * row + col,
                        0 <= col < w,
                        current_pixel_index < w * hh,
                        1 <= w,
                        0 <= row,
                ;
                assert(row * w + col == current_pixel_index) by (nonlinear_arith)
                    requires
                        current_pixel_index == w * row + col,
                ;
            }
            let actual_row = if flip_rows {
                hh - 1 - row
            } else {
                row
            };
            let actual_col = if flip_cols {
                w - 1 - col
            } else {
                col
            };
            proof {
                lemma_src_index_bijective(hdr, actual_col as int, actual_row as int);
                assert(spec_src_index(hdr, actual_col as int, actual_row as int)
                    == current_pixel_index);
                assert((written + pkt)[current_pixel_index as int] == pkt[current_pixel_index
                    - pixel_index]);
            }
            let ghost bm_before = *bitmap;
            bitmap.set_pixel(actual_col as i32, actual_row as i32, pixel.color);
            proof {
                assert forall|x2: int, y2: int|
                    0 <= x2 < hdr.width && 0 <= y2 < hdr.height && #[trigger] spec_src_index(
                        hdr,
                        x2,
                        y2,
                    ) < current_pixel_index + 1 implies bitmap.spec_pixel(x2, y2) == (written
                    + pkt)[spec_src_index(hdr, x2, y2)] by {
                    if x2 == actual_col && y2 == actual_row {
                        assert(bitmap.spec_pixel(x2, y2) == pixel.color);
                    } else {
                        assert(spec_src_index(hdr, x2, y2) != current_pixel_index);
                        assert(bitmap.spec_pixel(x2, y2) == bm_before.spec_pixel(x2, y2));
                    }
                }
            }
            if packet.raw && current_pixel_index + 1 < max_pixel_index {
                let ghost j = current_pixel_index - pixel_index;
                let next_pixel = match read_pixel_from_reader(bytes, &mut pos, bytes_per_pixel) {
                    Ok(c) => c,
                    Err(_) => {
                        proof {
                            assert((j + 2) * bpb <= take * bpb && (j + 1) * bpb + bpb == (j + 2)
                                * bpb) by (nonlinear_arith)
                                requires
                                    j + 2 <= take,
                                    bpb >= 1,
                            ;
                            assert(pos0 + 1 + take * bpb > b.len());
                            assert(spec_rle_decode(b, pos0, rem, bpb) is None);
                        }
                        return Err(DecodeError::Format);
                    },
                };
                pixel = next_pixel;
                proof {
                    assert((j + 1) * bpb == j * bpb + bpb) by (nonlinear_arith);
                    assert(pixel.color == pkt[j + 1]);
                }
            }
            current_pixel_index = current_pixel_index + 1;
        }
        proof {
            let hdrb = b[pos0];
            let cnt = (hdrb % 0x80) + 1;
            let stake = if cnt <= rem {
                cnt as int
            } else {
                rem as int
            };
            assert(stake == take);
            let npos = if packet.raw {
                pos0 + 1 + take * bpb
            } else {
                pos0 + 1 + bpb
            };
            assert(pos == npos);
            let rest = spec_rle_decode(b, npos, (rem - take) as nat, bpb);
            assert(spec_rle_decode(b, pos0, rem, bpb) == spec_opt_prepend(pkt, rest));
            if rest is Some {
                assert((written + pkt) + rest->Some_0 =~= written + (pkt + rest->Some_0));
            }
            assert(spec_rle_decode(b, 18, n as nat, bpb) == spec_opt_prepend(
                written + pkt,
                rest,
            ));
            written = written + pkt;
        }
        pixel_index = pixel_index + cnt_usize;
    }
    proof {
        assert(written.len() == pixel_count as int);
        assert(spec_rle_decode(b, pos as int, 0, bpb) == Option::Some(Seq::<u32>::empty()));
        assert(written + Seq::<u32>::empty() =~= written);
        assert(spec_rle_decode(b, 18, n as nat, bpb) == Option::Some(written));
        assert(spec_pixel_stream(hdr, b) is Some);
        assert(spec_pixel_stream(hdr, b)->Some_0 == written);
        assert forall|x: int, y: int| 0 <= x < hdr.width && 0 <= y < hdr.height implies #[trigger]
            bitmap.spec_pixel(x, y) == written[spec_src_index(hdr, x, y)] by {
            lemma_src_index_bijective(hdr, x, y);
            assert(hdr.width * hdr.height == n);
        }
    }
    Ok(())
}

/// A frame request that failed with exactly the given error.
pub open spec fn spec_frame_err(
    r: Result<ImageFrameDescriptor, DecodeError>,
    e: DecodeError,
) -> bool {
    r == Result::<ImageFrameDescriptor, DecodeError>::Err(e)
}

/// A decoder for the TGA raster format: holds the validated header, the
/// whole input, and a cache slot filled by the first successful decode.
pub struct TGAImageDecoderPlugin {
    header: TGAHeader,
    bytes: Vec<u8>,
    bitmap: Option<Bitmap>,
}

impl TGAImageDecoderPlugin {
    /// The header this decoder was constructed with.
    pub closed spec fn spec_header(&self) -> TGAHeader {
        self.header
    }

    /// The input bytes this decoder reads from.
    pub closed spec fn spec_bytes(&self) -> Seq<u8> {
        self.bytes@
    }

    /// The cached frame, filled by the first successful decode.
    pub closed spec fn spec_cache(&self) -> Option<Bitmap> {
        self.bitmap
    }

    /// A constructed decoder holds the header its own input parses to, and
    /// that header passed validation.
    pub open spec fn wf(&self) -> bool {
        &&& self.spec_bytes().len() >= 18
        &&& self.spec_header() == spec_parse_header(self.spec_bytes())
        &&& spec_header_valid(self.spec_header(), self.spec_bytes().len() as int)
    }

    /// The inputs construction accepts: at least a full header, and a
    /// header that passes validation against the input length.
    pub open spec fn spec_create_ok(bytes: Seq<u8>) -> bool {
        bytes.len() >= 18 && spec_header_valid(spec_parse_header(bytes), bytes.len() as int)
    }

    /// The dimensions of the decoded image, widened to signed 32-bit.
    pub open spec fn spec_size(&self) -> IntSize {
        IntSize {
            width: self.spec_header().width as i32,
            height: self.spec_header().height as i32,
        }
    }

    /// What a frame request returns, step by step in the order the checks
    /// are made: only frame 0 of this single-frame format exists; the color
    /// map type must be 0 or 1; a cached frame is answered with a copy of
    /// the cache; only depths 24 and 32 are implemented; the buffer geometry
    /// must be allocatable; only the two canonical scan origins are handled;
    /// only the two truecolor data types are implemented; and then the
    /// stream either decodes in full, filling the cache, or ends short.
    pub open spec fn frame_spec(
        pre: Self,
        frame_index: usize,
        r: Result<ImageFrameDescriptor, DecodeError>,
        post: Self,
    ) -> bool {
        let h = pre.spec_header();
        let b = pre.spec_bytes();
        &&& post.spec_header() == h
        &&& post.spec_bytes() == b
        &&& if frame_index != 0 {
            spec_frame_err(r, DecodeError::Unsupported) && post.spec_cache() == pre.spec_cache()
        } else if h.color_map_type > 1 {
            spec_frame_err(r, DecodeError::Format) && post.spec_cache() == pre.spec_cache()
        } else if pre.spec_cache() is Some {
            &&& r is Ok
            &&& r->Ok_0.duration == 0
            &&& r->Ok_0.image.congruent(&pre.spec_cache()->Some_0)
            &&& post.spec_cache() == pre.spec_cache()
        } else if h.bits_per_pixel != 24 && h.bits_per_pixel != 32 {
            spec_frame_err(r, DecodeError::Unsupported) && post.spec_cache() == pre.spec_cache()
        } else if spec_alloc_fails(h) {
            spec_frame_err(r, DecodeError::Allocation) && post.spec_cache() == pre.spec_cache()
        } else if !spec_origin_supported(h) {
            spec_frame_err(r, DecodeError::Format) && post.spec_cache() == pre.spec_cache()
        } else if h.data_type_code != DATA_TYPE_UNCOMPRESSED_RGB && h.data_type_code
            != DATA_TYPE_RUN_LENGTH_ENCODED_RGB {
            spec_frame_err(r, DecodeError::Unsupported) && post.spec_cache() == pre.spec_cache()
        } else {
            match spec_pixel_stream(h, b) {
                Option::Some(pix) => {
                    &&& r is Ok
                    &&& r->Ok_0.duration == 0
                    &&& spec_decoded_bitmap(h, pix, r->Ok_0.image)
                    &&& post.spec_cache() is Some
                    &&& post.spec_cache()->Some_0.congruent(&r->Ok_0.image)
                },
                Option::None => spec_frame_err(r, DecodeError::Format) && post.spec_cache()
                    == pre.spec_cache(),
            }
        }
    }

    fn new(bytes: Vec<u8>) -> (r: Self)
        ensures
            r.spec_bytes() == bytes@,
            r.spec_cache() is None,
    {
        Self {
            header: TGAHeader {
                id_length: 0,
                color_map_type: 0,
                data_type_code: 0,
                color_map_origin: 0,
                color_map_length: 0,
                color_map_depth: 0,
                x_origin: 0,
                y_origin: 0,
                width: 0,
                height: 0,
                bits_per_pixel: 0,
                image_descriptor: 0,
            },
            bytes,
            bitmap: None,
        }
    }

    /// Whether the input would survive construction: long enough for a
    /// header, and the header valid against the input length.
    pub fn validate_before_create(bytes: &Vec<u8>) -> (r: bool)
        ensures
            r == Self::spec_create_ok(bytes@),
    {
        if bytes.len() < TGA_HEADER_SIZE {
            return false;
        }
        let header = parse_tga_header(bytes);
        match Self::ensure_header_validity(&header, bytes.len()) {
            Ok(()) => true,
            Err(_) => false,
        }
    }

    /// Validates a parsed header against the input length: the depth must
    /// be a multiple of 8 between 8 and 32, and an uncompressed truecolor
    /// stream must have all of its pixel bytes present.
    pub fn ensure_header_validity(header: &TGAHeader, whole_image_size: usize) -> (r: Result<
        (),
        DecodeError,
    >)
        requires
            whole_image_size >= 18,
        ensures
            r is Ok <==> spec_header_valid(*header, whole_image_size as int),
            r is Err ==> r->Err_0 == DecodeError::Format,
    {
        if header.bits_per_pixel % 8 != 0 || header.bits_per_pixel < 8 || header.bits_per_pixel
            > 32 {
            return Err(DecodeError::Format);
        }
        let bytes_remaining = whole_image_size - TGA_HEADER_SIZE;
        if header.data_type_code == DATA_TYPE_UNCOMPRESSED_RGB {
            assert(header.width * header.height <= 0xFFFF * 0xFFFF && header.width * header.height
                >= 0) by (nonlinear_arith)
                requires
                    header.width <= 0xFFFF,
                    header.height <= 0xFFFF,
            ;
            let pixels = (header.width as u64) * (header.height as u64);
            assert(pixels * header.bits_per_pixel <= 0xFFFF * 0xFFFF * 32 && pixels
                * header.bits_per_pixel >= 0 && pixels * header.bits_per_pixel == header.width
                * header.height * header.bits_per_pixel) by (nonlinear_arith)
                requires
                    0 <= pixels <= 0xFFFF * 0xFFFF,
                    pixels == header.width * header.height,
                    header.bits_per_pixel <= 32,
            ;
            let needed = pixels * (header.bits_per_pixel as u64) / 8;
            if (bytes_remaining as u64) < needed {
                return Err(DecodeError::Format);
            }
        }
        Ok(())
    }

    /// Reads the 18 header bytes into this decoder and validates them.
    fn decode_tga_header(&mut self) -> (r: Result<(), DecodeError>)
        ensures
            final(self).spec_bytes() == old(self).spec_bytes(),
            final(self).spec_cache() == old(self).spec_cache(),
            r is Ok <==> Self::spec_create_ok(old(self).spec_bytes()),
            r is Ok ==> final(self).spec_header() == spec_parse_header(old(self).spec_bytes()),
            r is Err ==> r->Err_0 == DecodeError::Format,
    {
        if self.bytes.len() < TGA_HEADER_SIZE {
            return Err(DecodeError::Format);
        }
        self.header = parse_tga_header(&self.bytes);
        match Self::ensure_header_validity(&self.header, self.bytes.len()) {
            Ok(()) => Ok(()),
            Err(e) => Err(e),
        }
    }

    /// Constructs a decoder over the given input. Success is owed exactly
    /// when the input holds a full header that passes validation; every
    /// refused input is reported as a format error, never panicked on.
    pub fn create(bytes: Vec<u8>) -> (r: Result<Self, DecodeError>)
        ensures
            r is Ok <==> Self::spec_create_ok(bytes@),
            r is Err ==> r->Err_0 == DecodeError::Format,
            r is Ok ==> {
                let d = r->Ok_0;
                &&& d.wf()
                &&& d.spec_bytes() == bytes@
                &&& d.spec_header() == spec_parse_header(bytes@)
                &&& d.spec_cache() is None
            },
    {
        if !Self::validate_before_create(&bytes) {
            return Err(DecodeError::Format);
        }
        let mut decoder = Self::new(bytes);
        match decoder.decode_tga_header() {
            Ok(()) => Ok(decoder),
            Err(e) => Err(e),
        }
    }
}

impl ImageDecoderPlugin for TGAImageDecoderPlugin {
    /// The image dimensions from the header, widened to signed 32-bit.
    fn size(&self) -> (r: IntSize)
        ensures
            r == self.spec_size(),
    {
        IntSize { width: self.header.width as i32, height: self.header.height as i32 }
    }

    /// Decodes frame 0, ignoring the scaling hint. The whole behaviour —
    /// which inputs decode, which error each refused input earns, what every
    /// output pixel holds, and how the cache fills — is `frame_spec`.
    fn frame_with_ideal_size(&mut self, frame_index: usize, ideal_size: Option<IntSize>) -> (r:
        Result<ImageFrameDescriptor, DecodeError>)
        ensures
            Self::frame_spec(*old(self), frame_index, r, *final(self)),
    {
        let bits_per_pixel = self.header.bits_per_pixel;
        let color_map = self.header.color_map_type;
        let data_type = self.header.data_type_code;
        let width = self.header.width;
        let height = self.header.height;
        let x_origin = self.header.x_origin;
        let mut y_origin = self.header.y_origin;

        if frame_index != 0 {
            return Err(DecodeError::Unsupported);
        }
        if color_map > 1 {
            return Err(DecodeError::Format);
        }
        match &self.bitmap {
            Some(cached) => {
                return Ok(ImageFrameDescriptor { image: cached.clone(), duration: 0 });
            },
            None => {},
        }
        let format = if bits_per_pixel == 24 {
            BitmapFormat::BGRx8888
        } else if bits_per_pixel == 32 {
            BitmapFormat::BGRA8888
        } else {
            return Err(DecodeError::Unsupported);
        };
        let size = IntSize { width: width as i32, height: height as i32 };
        let mut bitmap = match Bitmap::new(format, size, 1) {
            Ok(bm) => bm,
            Err(e) => {
                return Err(e);
            },
        };
        // A negative y origin is a known encoder quirk meaning "origin at
        // the top height of the picture".
        if y_origin < 0 {
            y_origin = height as i16;
        }
        if y_origin != 0 && y_origin != height as i16 {
            return Err(DecodeError::Format);
        }
        if x_origin != 0 && x_origin != width as i16 {
            return Err(DecodeError::Format);
        }
        let bytes_per_pixel = (bits_per_pixel / 8) as usize;
        let flip_rows = !(y_origin >= height as i16);
        let flip_cols = x_origin > width as i16;
        proof {
            assert(flip_rows == spec_flip_rows(self.header));
            assert(flip_cols == spec_flip_cols(self.header));
            assert(bytes_per_pixel as int == spec_bytes_per_pixel(self.header));
        }
        let decode_result = if data_type == DATA_TYPE_UNCOMPRESSED_RGB {
            decode_uncompressed_stream(
                &self.bytes,
                self.header,
                &mut bitmap,
                flip_rows,
                flip_cols,
                bytes_per_pixel,
            )
        } else if data_type == DATA_TYPE_RUN_LENGTH_ENCODED_RGB {
            decode_rle_stream(
                &self.bytes,
                self.header,
                &mut bitmap,
                flip_rows,
                flip_cols,
                bytes_per_pixel,
            )
        } else {
            return Err(DecodeError::Unsupported);
        };
        match decode_result {
            Ok(()) => {},
            Err(e) => {
                return Err(e);
            },
        }
        self.bitmap = Some(bitmap.clone());
        Ok(ImageFrameDescriptor { image: bitmap, duration: 0 })
    }

    /// Decodes the frame at `frame_index` with no scaling hint, under the
    /// same contract as `frame_with_ideal_size`.
    fn frame(&mut self, frame_index: usize) -> (r: Result<ImageFrameDescriptor, DecodeError>)
        ensures
            Self::frame_spec(*old(self), frame_index, r, *final(self)),
    {
        self.frame_with_ideal_size(frame_index, None)
    }
}

/// Decoding a frame twice on one instance yields byte-identical pixel
/// buffers: the first successful decode fills the cache, and any later call
/// for the same frame answers with a copy of it.
pub proof fn lemma_decode_idempotent(
    d0: TGAImageDecoderPlugin,
    d1: TGAImageDecoderPlugin,
    d2: TGAImageDecoderPlugin,
    frame_index: usize,
    r1: Result<ImageFrameDescriptor, DecodeError>,
    r2: Result<ImageFrameDescriptor, DecodeError>,
)
    requires
        TGAImageDecoderPlugin::frame_spec(d0, frame_index, r1, d1),
        TGAImageDecoderPlugin::frame_spec(d1, frame_index, r2, d2),
        r1 is Ok,
    ensures
        r2 is Ok,
        r1->Ok_0.image.data@ == r2->Ok_0.image.data@,
        r1->Ok_0.image.format == r2->Ok_0.image.format,
        r1->Ok_0.image.size == r2->Ok_0.image.size,
        r1->Ok_0.image.scale == r2->Ok_0.image.scale,
        r1->Ok_0.image.pitch == r2->Ok_0.image.pitch,
        r1->Ok_0.duration == r2->Ok_0.duration,
{
    let h = d0.spec_header();
    assert(frame_index == 0);
    assert(h.color_map_type <= 1);
    if d0.spec_cache() is Some {
        assert(r1->Ok_0.image.congruent(&d0.spec_cache()->Some_0));
        assert(d1.spec_cache() == d0.spec_cache());
        assert(r2->Ok_0.image.congruent(&d1.spec_cache()->Some_0));
    } else {
        assert(d1.spec_cache() is Some);
        assert(d1.spec_cache()->Some_0.congruent(&r1->Ok_0.image));
        assert(r2->Ok_0.image.congruent(&d1.spec_cache()->Some_0));
    }
}

} // verus!
