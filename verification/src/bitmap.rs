//! Pixel-buffer storage: overflow-safe allocation of a zero-filled backing
//! store and in-place pixel writes at computed byte offsets.

use vstd::prelude::*;
use crate::{ARGB, IntSize};

verus! {

/// The pixel layouts a `Bitmap` can carry. Only validated numeric values
/// (0 through 3) may be interpreted as this enumeration; every variant other
/// than `Invalid` stores four bytes per pixel.
#[derive(Debug, Clone, Copy, PartialEq, Eq, Structural)]
pub enum BitmapFormat {
    Invalid,
    BGRx8888,
    BGRA8888,
    RGBA8888,
}

impl BitmapFormat {
    /// Whether a numeric value names one of the four format variants.
    pub fn is_valid(format: u32) -> (r: bool)
        ensures
            r == (format <= 3),
    {
        format <= 3
    }
}

/// The storage layouts behind the valid bitmap formats.
#[derive(Debug, Clone, Copy, PartialEq, Eq, Structural)]
pub enum StorageFormat {
    BGRx8888,
    BGRA8888,
    RGBA8888,
}

impl StorageFormat {
    /// The storage layout behind a valid bitmap format. The `Invalid`
    /// format has no storage layout and is left out by the precondition.
    pub fn from_bitmap_format(format: BitmapFormat) -> (r: Self)
        requires
            format != BitmapFormat::Invalid,
        ensures
            format == BitmapFormat::BGRx8888 ==> r == StorageFormat::BGRx8888,
            format == BitmapFormat::BGRA8888 ==> r == StorageFormat::BGRA8888,
            format == BitmapFormat::RGBA8888 ==> r == StorageFormat::RGBA8888,
    {
        match format {
            BitmapFormat::BGRx8888 => StorageFormat::BGRx8888,
            BitmapFormat::BGRA8888 => StorageFormat::BGRA8888,
            BitmapFormat::RGBA8888 => StorageFormat::RGBA8888,
            BitmapFormat::Invalid => StorageFormat::BGRx8888,  // unreachable by the precondition
        }
    }

    /// Every storage layout holds four bytes per pixel.
    pub fn bytes_per_pixel(&self) -> (r: u32)
        ensures
            r == 4,
    {
        match self {
            StorageFormat::BGRx8888 => 4,
            StorageFormat::BGRA8888 => 4,
            StorageFormat::RGBA8888 => 4,
        }
    }
}

/// Quarter-turn and half-turn rotations a caller may ask of a bitmap.
#[derive(Debug, Clone, Copy, PartialEq, Eq, Structural)]
pub enum RotationDirection {
    CounterClockwise,
    Flip,
    Clockwise,
}

/// Why a request was refused: the three failure kinds every operation of
/// this crate reports.
#[derive(Debug, Clone, Copy, PartialEq, Eq, Structural)]
pub enum DecodeError {
    /// The input is structurally wrong: truncated, or a field holds a value
    /// the format does not allow.
    Format,
    /// The input is structurally valid but uses a feature this decoder does
    /// not implement.
    Unsupported,
    /// The requested buffer geometry is empty, absurdly large, or its byte
    /// count would overflow address-width arithmetic.
    Allocation,
}

/// The byte stride of one row: four bytes for each of `physical_width` pixels.
pub open spec fn spec_minimum_pitch(physical_width: int) -> int {
    physical_width * 4
}

/// The conditions under which an allocation request is refused: an empty
/// size, a dimension above the 16-bit signed ceiling, a scale outside
/// 1 through 4, or a byte count past the address width.
pub open spec fn spec_size_would_overflow(size: IntSize, scale: int) -> bool {
    ||| size.width <= 0
    ||| size.height <= 0
    ||| size.width > 0x7FFF
    ||| size.height > 0x7FFF
    ||| scale < 1
    ||| scale > 4
    ||| size.width * scale * 4 * size.height * scale > usize::MAX
}

/// The 32-bit value stored little-endian in four bytes of `b` at `off`.
pub open spec fn spec_le32(b: Seq<u8>, off: int) -> u32 {
    (b[off] + b[off + 1] * 0x100 + b[off + 2] * 0x10000 + b[off + 3] * 0x1000000) as u32
}

/// A pixel buffer: a contiguous zero-initialized byte store plus the
/// format, logical size, intrinsic scale and row stride that address it.
#[derive(Debug)]
pub struct Bitmap {
    pub format: BitmapFormat,
    pub size: IntSize,
    pub scale: i32,
    pub pitch: u32,
    pub data: Vec<u8>,
}

/// Distinct pixel positions occupy disjoint four-byte ranges of the backing
/// store, provided each column index is below the physical row width and the
/// pitch is four bytes per such column.
pub proof fn lemma_pixel_ranges_disjoint(pitch: int, wphys: int, x1: int, y1: int, x2: int, y2: int)
    requires
        pitch == 4 * wphys,
        0 <= x1 < wphys,
        0 <= x2 < wphys,
        0 <= y1,
        0 <= y2,
        !(x1 == x2 && y1 == y2),
    ensures
        y1 * pitch + 4 * x1 + 4 <= y2 * pitch + 4 * x2 || y2 * pitch + 4 * x2 + 4 <= y1 * pitch + 4
            * x1,
{
    if y1 == y2 {
        assert(y1 * pitch == y2 * pitch);
    } else if y1 < y2 {
        assert((y1 + 1) * pitch <= y2 * pitch && y1 * pitch + pitch == (y1 + 1) * pitch)
            by (nonlinear_arith)
            requires
                y1 + 1 <= y2,
                pitch >= 0,
        ;
    } else {
        assert((y2 + 1) * pitch <= y1 * pitch && y2 * pitch + pitch == (y2 + 1) * pitch)
            by (nonlinear_arith)
            requires
                y2 + 1 <= y1,
                pitch >= 0,
        ;
    }
}

impl Bitmap {
    /// The internal consistency of a bitmap: a valid non-empty geometry,
    /// a pitch of four bytes per physical-row pixel, and a backing store of
    /// exactly `pitch * height * scale` bytes, no slack.
    pub open spec fn wf(&self) -> bool {
        &&& self.format != BitmapFormat::Invalid
        &&& 0 < self.size.width <= 0x7FFF
        &&& 0 < self.size.height <= 0x7FFF
        &&& 1 <= self.scale <= 4
        &&& self.pitch == self.size.width * self.scale * 4
        &&& self.data@.len() == self.pitch * self.size.height * self.scale
    }

    /// The pixel value stored at position `(x, y)` of the buffer, read as
    /// four little-endian bytes.
    pub open spec fn spec_pixel(&self, x: int, y: int) -> u32 {
        spec_le32(self.data@, y * self.pitch + x * 4)
    }

    /// Whether two bitmaps describe the same image: equal metadata and
    /// byte-identical backing stores.
    pub open spec fn congruent(&self, other: &Bitmap) -> bool {
        &&& self.format == other.format
        &&& self.size == other.size
        &&& self.scale == other.scale
        &&& self.pitch == other.pitch
        &&& self.data@ == other.data@
    }

    /// Allocates a pixel buffer, or refuses the geometry. Success is owed
    /// exactly when the size is non-empty, both dimensions are within the
    /// 16-bit signed ceiling, the scale lies in 1 through 4, and the byte
    /// count fits the address width.
    pub fn new(bitmap_format: BitmapFormat, size: IntSize, intrinsic_scale: i32) -> (r: Result<
        Self,
        DecodeError,
    >)
        requires
            bitmap_format != BitmapFormat::Invalid,
        ensures
            r is Ok <==> !spec_size_would_overflow(size, intrinsic_scale as int),
            r is Err ==> r->Err_0 == DecodeError::Allocation,
            r is Ok ==> {
                let bm = r->Ok_0;
                &&& bm.wf()
                &&& bm.format == bitmap_format
                &&& bm.size == size
                &&& bm.scale == intrinsic_scale
                &&& bm.pitch == spec_minimum_pitch(size.width * intrinsic_scale)
                &&& bm.data@ =~= Seq::<u8>::new(
                    (bm.pitch * size.height * intrinsic_scale) as nat,
                    |i: int| 0u8,
                )
            },
    {
        let data = match Self::allocate_backing_store(bitmap_format, size, intrinsic_scale) {
            Ok(data) => data,
            Err(e) => {
                return Err(e);
            },
        };
        assert(0 <= size.width * intrinsic_scale <= 0x7FFF * 4) by (nonlinear_arith)
            requires
                0 < size.width <= 0x7FFF,
                1 <= intrinsic_scale <= 4,
        ;
        let physical_width = (size.width as usize) * (intrinsic_scale as usize);
        let pitch = Self::minimum_pitch(physical_width, bitmap_format);
        Ok(Self { format: bitmap_format, size, scale: intrinsic_scale, pitch: pitch as u32, data })
    }

    /// The byte stride of one row of `physical_width` pixels in the given
    /// format.
    pub fn minimum_pitch(physical_width: usize, format: BitmapFormat) -> (r: usize)
        requires
            format != BitmapFormat::Invalid,
            physical_width * 4 <= usize::MAX,
        ensures
            r == spec_minimum_pitch(physical_width as int),
    {
        let storage_format = StorageFormat::from_bitmap_format(format);
        physical_width * (storage_format.bytes_per_pixel() as usize)
    }

    /// Writes the four little-endian bytes of `color` at position `(x, y)`.
    /// No bounds check is performed here by design: callers keep the
    /// coordinates inside the physical dimensions, as the precondition says.
    /// Every other pixel of the buffer is left as it was.
    pub fn set_pixel(&mut self, x: i32, y: i32, color: ARGB)
        requires
            old(self).wf(),
            0 <= x < old(self).size.width * old(self).scale,
            0 <= y < old(self).size.height * old(self).scale,
        ensures
            final(self).wf(),
            final(self).format == old(self).format,
            final(self).size == old(self).size,
            final(self).scale == old(self).scale,
            final(self).pitch == old(self).pitch,
            final(self).spec_pixel(x as int, y as int) == color,
            forall|x2: int, y2: int|
                0 <= x2 < old(self).size.width * old(self).scale && 0 <= y2 < old(
                    self,
                ).size.height * old(self).scale && !(x2 == x && y2 == y)
                    ==> final(self).spec_pixel(x2, y2) == old(self).spec_pixel(x2, y2),
    {
        let ghost sw = self.size.width as int;
        let ghost sh = self.size.height as int;
        let ghost sc = self.scale as int;
        let ghost wphys = sw * sc;
        let ghost hphys = sh * sc;
        let ghost p = self.pitch as int;
        assert(y * p + 4 * x + 4 <= hphys * p && y * p >= 0 && hphys * p == p * sh * sc)
            by (nonlinear_arith)
            requires
                p == 4 * wphys,
                wphys == sw * sc,
                hphys == sh * sc,
                0 <= x < wphys,
                0 <= y < hphys,
        ;
        let data_len: usize = self.data.len();
        let offset = (y as usize) * (self.pitch as usize) + (x as usize) * 4;
        assert(offset + 4 <= data_len);
        let b0 = (color % 0x100) as u8;
        let b1 = ((color / 0x100) % 0x100) as u8;
        let b2 = ((color / 0x10000) % 0x100) as u8;
        let b3 = (color / 0x1000000) as u8;
        self.data.set(offset, b0);
        self.data.set(offset + 1, b1);
        self.data.set(offset + 2, b2);
        self.data.set(offset + 3, b3);
        proof {
            assert(color % 0x100 + (color / 0x100 % 0x100) * 0x100 + (color / 0x10000 % 0x100)
                * 0x10000 + (color / 0x1000000) * 0x1000000 == color) by (bit_vector);
            assert forall|x2: int, y2: int|
                0 <= x2 < wphys && 0 <= y2 < hphys && !(x2 == x && y2 == y) implies self.spec_pixel(
                x2,
                y2,
            ) == old(self).spec_pixel(x2, y2) by {
                lemma_pixel_ranges_disjoint(p, wphys, x as int, y as int, x2, y2);
                assert(y2 * p + x2 * 4 + 4 <= hphys * p) by (nonlinear_arith)
                    requires
                        p == 4 * wphys,
                        0 <= x2 < wphys,
                        0 <= y2 < hphys,
                ;
            }
        }
    }

    /// Whether the requested geometry must be refused: empty, past the
    /// dimension ceiling, scale out of range, or a byte count that would
    /// overflow the platform's address width.
    pub fn size_would_overflow(format: BitmapFormat, size: IntSize, scale_factor: i32) -> (r: bool)
        requires
            format != BitmapFormat::Invalid,
        ensures
            r == spec_size_would_overflow(size, scale_factor as int),
    {
        if size.is_empty() {
            return true;
        }
        if size.width > 0x7FFF || size.height > 0x7FFF || scale_factor < 1 || scale_factor > 4 {
            return true;
        }
        assert(0 <= size.width * scale_factor <= 0x7FFF * 4) by (nonlinear_arith)
            requires
                0 < size.width <= 0x7FFF,
                1 <= scale_factor <= 4,
        ;
        let physical_width = (size.width as usize) * (scale_factor as usize);
        let pitch = Self::minimum_pitch(physical_width, format);
        assert(0 <= size.height * scale_factor <= 0x7FFF * 4) by (nonlinear_arith)
            requires
                0 < size.height <= 0x7FFF,
                1 <= scale_factor <= 4,
        ;
        let physical_height = (size.height as u64) * (scale_factor as u64);
        assert(0 <= pitch * physical_height <= 0x7FFF * 4 * 4 * 0x7FFF * 4 && pitch
            * physical_height == size.width * scale_factor * 4 * size.height * scale_factor)
            by (nonlinear_arith)
            requires
                pitch == size.width * scale_factor * 4,
                physical_height == size.height * scale_factor,
                0 <= pitch <= 0x7FFF * 4 * 4,
                0 <= physical_height <= 0x7FFF * 4,
        ;
        let total = (pitch as u64) * physical_height;
        total > (usize::MAX as u64)
    }

    /// Allocates the zero-filled backing store for the requested geometry,
    /// or refuses it, checking for arithmetic overflow before allocating.
    pub fn allocate_backing_store(format: BitmapFormat, size: IntSize, scale: i32) -> (r: Result<
        Vec<u8>,
        DecodeError,
    >)
        requires
            format != BitmapFormat::Invalid,
        ensures
            r is Ok <==> !spec_size_would_overflow(size, scale as int),
            r is Err ==> r->Err_0 == DecodeError::Allocation,
            r is Ok ==> r->Ok_0@ =~= Seq::<u8>::new(
                (spec_minimum_pitch(size.width * scale) * size.height * scale) as nat,
                |i: int| 0u8,
            ),
    {
        if size.is_empty() {
            return Err(DecodeError::Allocation);
        }
        if Self::size_would_overflow(format, size, scale) {
            return Err(DecodeError::Allocation);
        }
        assert(0 <= size.width * scale <= 0x7FFF * 4 && 0 <= size.height * scale <= 0x7FFF * 4)
            by (nonlinear_arith)
            requires
                0 < size.width <= 0x7FFF,
                0 < size.height <= 0x7FFF,
                1 <= scale <= 4,
        ;
        let physical_width = (size.width as usize) * (scale as usize);
        let pitch = Self::minimum_pitch(physical_width, format);
        let physical_height = (size.height as usize) * (scale as usize);
        assert(pitch * physical_height <= usize::MAX && pitch * physical_height == pitch
            * size.height * scale) by (nonlinear_arith)
            requires
                pitch == size.width * scale * 4,
                physical_height == size.height * scale,
                size.width * scale * 4 * size.height * scale <= usize::MAX,
                0 < scale <= 4,
                0 < size.height <= 0x7FFF,
        ;
        let data_size_in_bytes = pitch * physical_height;
        let mut data: Vec<u8> = Vec::new();
        let mut i: usize = 0;
        while i < data_size_in_bytes
            invariant
                data@.len() == i,
                i <= data_size_in_bytes,
                forall|j: int| 0 <= j < i ==> data@[j] == 0u8,
            decreases data_size_in_bytes - i,
        {
            data.push(0u8);
            i = i + 1;
        }
        Ok(data)
    }
}

impl Clone for Bitmap {
    /// An independent copy of the buffer: same metadata, byte-identical
    /// backing store.
    fn clone(&self) -> (r: Self)
        ensures
            r.congruent(self),
    {
        let data = self.data.clone();
        proof {
            assert(data@ =~= self.data@);
        }
        Bitmap {
            format: self.format,
            size: self.size,
            scale: self.scale,
            pitch: self.pitch,
            data,
        }
    }
}

} // verus!
