//! The decoder capability contract: the interface every raster-format
//! decoder implements, and the frame descriptor a decode produces.

use vstd::prelude::*;
use crate::IntSize;
use crate::bitmap::{Bitmap, DecodeError};

verus! {

/// One decoded frame: the pixel buffer and its display duration in
/// milliseconds (zero for static images).
pub struct ImageFrameDescriptor {
    pub image: Bitmap,
    pub duration: i32,
}

/// The color model a decoder's frames are intrinsically expressed in,
/// before any conversion.
#[derive(Debug, PartialEq, Eq, Structural)]
pub enum NaturalFrameFormat {
    RGB,
    Grayscale,
    CMYK,
    Vector,
}

/// The capability set every format decoder implements: geometry, animation
/// metadata, and per-frame decode. New formats plug in here without touching
/// callers. The defaults describe a static, single-frame RGB image; an
/// implementation states its own decode contract by strengthening
/// `frame_with_ideal_size` in its impl.
pub trait ImageDecoderPlugin: Sized {
    /// The image dimensions in pixels.
    fn size(&self) -> IntSize;

    /// Whether the image carries an animation. Static by default.
    fn is_animated(&self) -> (r: bool)
        default_ensures
            r == false,
    {
        false
    }

    /// How many times an animation loops. Zero by default.
    fn loop_count(&self) -> (r: usize)
        default_ensures
            r == 0,
    {
        0
    }

    /// How many frames the image holds. One by default.
    fn frame_count(&self) -> (r: usize)
        default_ensures
            r == 1,
    {
        1
    }

    /// The index of the first frame that belongs to the animation.
    /// Zero by default.
    fn first_animated_frame_index(&self) -> (r: usize)
        default_ensures
            r == 0,
    {
        0
    }

    /// Decodes the frame at `frame_index`. The ideal size is a scaling hint
    /// a decoder may ignore.
    fn frame_with_ideal_size(&mut self, frame_index: usize, ideal_size: Option<IntSize>) -> Result<
        ImageFrameDescriptor,
        DecodeError,
    >;

    /// Decodes the frame at `frame_index` with no scaling hint.
    fn frame(&mut self, frame_index: usize) -> Result<ImageFrameDescriptor, DecodeError> {
        self.frame_with_ideal_size(frame_index, None)
    }

    /// The color model this decoder's frames are expressed in.
    /// RGB by default.
    fn natural_frame_format(&self) -> (r: NaturalFrameFormat)
        default_ensures
            r == NaturalFrameFormat::RGB,
    {
        NaturalFrameFormat::RGB
    }
}

} // verus!
