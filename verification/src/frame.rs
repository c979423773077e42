//! Pixels and images of the `image` crate, and what this crate states of them.

use vstd::prelude::*;

verus! {

/// `image::Rgba`, carried through as it is: nothing is read inside it but
/// through `rgba_channels`.
#[verifier::external_type_specification]
#[verifier::external_body]
#[verifier::reject_recursive_types(T)]
pub struct ExRgba<T>(image::Rgba<T>);

/// The four channels of a pixel, in the order red, green, blue, alpha.
pub uninterp spec fn rgba_channels(pixel: image::Rgba<u8>) -> Seq<u8>;

/// `image::Rgba`, the tuple constructor: the pixel holds the four channels
/// it was given, in the order given.
#[verifier::external_body]
pub(crate) fn rgba_from_channels(r: u8, g: u8, b: u8, a: u8) -> (pixel: image::Rgba<u8>)
    ensures
        rgba_channels(pixel) == seq![r, g, b, a],
{
    image::Rgba([r, g, b, a])
}

/// An `image::ImageBuffer` of RGBA pixels over a vector of samples. The
/// buffer's own declaration is bound by the crate's `Pixel` trait, so it is
/// held here in a field that the verifier does not look into; what is said
/// of it is said through `frame_samples` and `frame_dimensions`.
#[verifier::external_body]
pub struct Frame {
    inner: image::ImageBuffer<image::Rgba<u8>, Vec<u8>>,
}

/// The samples that a frame holds, in storage order.
pub uninterp spec fn frame_samples(frame: Frame) -> Seq<u8>;

/// The width and height of a frame, in pixels.
pub uninterp spec fn frame_dimensions(frame: Frame) -> (u32, u32);

/// The number of samples in an image of the given dimensions: four for
/// each pixel.
pub open spec fn sample_count(width: u32, height: u32) -> nat {
    (4 * width * height) as nat
}

/// Whether an image of the given dimensions can be laid over `len`
/// samples: the sample count of one row and that of the whole image fit in
/// `usize`, and the samples are at least as many.
pub open spec fn samples_suffice(width: u32, height: u32, len: nat) -> bool {
    &&& 4 * width <= usize::MAX
    &&& sample_count(width, height) <= usize::MAX
    &&& sample_count(width, height) <= len
}

/// Where the first sample of pixel `(x, y)` stands among the samples of an
/// image `width` pixels wide: rows follow one another, top row first.
pub open spec fn sample_offset(width: u32, x: u32, y: u32) -> int {
    (y * width + x) * 4
}

/// The four samples of pixel `(x, y)` among the samples of an image
/// `width` pixels wide.
pub open spec fn pixel_samples(samples: Seq<u8>, width: u32, x: u32, y: u32) -> Seq<u8> {
    samples.subrange(sample_offset(width, x, y), sample_offset(width, x, y) + 4)
}

/// `image::ImageBuffer::from_raw`: the container is accepted exactly when
/// the sample count of one row and of the whole image fit in `usize` and
/// the container holds at least that many samples; the image then keeps the
/// container as it is, with the dimensions given.
#[verifier::external_body]
pub(crate) fn frame_from_raw(width: u32, height: u32, samples: Vec<u8>) -> (made: Option<Frame>)
    ensures
        made.is_some() == samples_suffice(width, height, samples@.len()),
        made.is_some() ==> frame_samples(made.unwrap()) == samples@,
        made.is_some() ==> frame_dimensions(made.unwrap()) == (width, height),
{
    match image::ImageBuffer::from_raw(width, height, samples) {
        Some(inner) => Some(Frame { inner }),
        None => None,
    }
}

/// `image::ImageBuffer::dimensions`: the width and height that the image
/// was made with.
#[verifier::external_body]
pub(crate) fn frame_size(frame: &Frame) -> (size: (u32, u32))
    ensures
        size == frame_dimensions(*frame),
{
    frame.inner.dimensions()
}

/// `image::ImageBuffer::get_pixel`: inside the bounds, the pixel at
/// `(x, y)` is the four samples that start at `(y * width + x) * 4`.
/// Outside the bounds the call panics.
#[verifier::external_body]
pub(crate) fn frame_pixel(frame: &Frame, x: u32, y: u32) -> (channels: [u8; 4])
    requires
        x < frame_dimensions(*frame).0,
        y < frame_dimensions(*frame).1,
    ensures
        channels@ == pixel_samples(frame_samples(*frame), frame_dimensions(*frame).0, x, y),
{
    frame.inner.get_pixel(x, y).0
}

/// `image::ImageBuffer::into_raw`: the container that the image holds.
#[verifier::external_body]
pub(crate) fn frame_into_raw(frame: Frame) -> (samples: Vec<u8>)
    ensures
        samples@ == frame_samples(frame),
{
    frame.inner.into_raw()
}

impl Frame {
    /// The samples of the frame, in storage order.
    pub open spec fn samples(self) -> Seq<u8> {
        frame_samples(self)
    }

    /// The width of the frame, in pixels.
    pub open spec fn spec_width(self) -> u32 {
        frame_dimensions(self).0
    }

    /// The height of the frame, in pixels.
    pub open spec fn spec_height(self) -> u32 {
        frame_dimensions(self).1
    }

    /// The width of the frame, in pixels.
    pub fn width(&self) -> (w: u32)
        ensures
            w == self.spec_width(),
    {
        frame_size(self).0
    }

    /// The height of the frame, in pixels.
    pub fn height(&self) -> (h: u32)
        ensures
            h == self.spec_height(),
    {
        frame_size(self).1
    }

    /// The four samples of the pixel at `(x, y)`; none outside the frame.
    pub fn pixel(&self, x: u32, y: u32) -> (channels: Option<[u8; 4]>)
        ensures
            channels.is_some() == (x < self.spec_width() && y < self.spec_height()),
            channels.is_some() ==> channels.unwrap()@ == pixel_samples(
                self.samples(),
                self.spec_width(),
                x,
                y,
            ),
    {
        let size: (u32, u32) = frame_size(self);
        if x < size.0 && y < size.1 {
            Some(frame_pixel(self, x, y))
        } else {
            None
        }
    }

    /// The samples of the frame, in storage order.
    pub fn into_raw(self) -> (samples: Vec<u8>)
        ensures
            samples@ == self.samples(),
    {
        frame_into_raw(self)
    }
}

} // verus!
