//! Lossless snapshot compression. A resting history entry is kept as a
//! PNG-encoded byte buffer together with the crop-lineage generation it
//! was derived from, and is decoded back into a `Canvas` on demand.

use vstd::prelude::*;
use crate::canvas::Canvas;

verus! {

/// The PNG encoding of an RGBA8 buffer of the given dimensions, as
/// produced by the png crate's encoder at eight-bit depth with default
/// settings. The encoding is a function of the dimensions and bytes
/// alone; its exact shape is never needed, only that decoding inverts it.
pub uninterp spec fn png_data_of(width: u32, height: u32, pixels: Seq<u8>) -> Seq<u8>;

/// Relies on png::Encoder / png::Writer: encoding an RGBA8 buffer with
/// eight-bit depth and default settings writes a deterministic byte
/// stream, named `png_data_of`. Writing to a `Vec` sink cannot fail, and
/// the header and data checks pass for a buffer of exactly
/// `width * height * 4` bytes with nonzero dimensions.
#[verifier::external_body]
fn png_encode_rgba(width: u32, height: u32, pixels: &Vec<u8>) -> (r: Vec<u8>)
    requires
        1 <= width,
        1 <= height,
        pixels@.len() == width * height * 4,
        width * height * 4 <= isize::MAX,
    ensures
        r@ == png_data_of(width, height, pixels@),
{
    let mut data: Vec<u8> = Vec::new();
    let mut enc = png::Encoder::new(&mut data, width, height);
    enc.set_color(png::ColorType::Rgba);
    enc.set_depth(png::BitDepth::Eight);
    let mut writer = enc.write_header().unwrap();
    writer.write_image_data(pixels.as_slice()).unwrap();
    writer.finish().unwrap();
    data
}

/// Relies on png::Decoder / png::Reader: PNG is lossless, so decoding a
/// buffer that is the encoding of an RGBA8 image with the given
/// dimensions yields back exactly the encoded bytes.
#[verifier::external_body]
fn png_decode_rgba(data: &Vec<u8>, width: u32, height: u32) -> (r: Vec<u8>)
    requires
        1 <= width,
        1 <= height,
        width * height * 4 <= isize::MAX,
        exists|p: Seq<u8>|
            p.len() == width * height * 4 && data@ == #[trigger] png_data_of(width, height, p),
    ensures
        r@.len() == width * height * 4,
        forall|p: Seq<u8>|
            p.len() == width * height * 4 && data@ == #[trigger] png_data_of(width, height, p)
                ==> r@ == p,
{
    let cursor = std::io::Cursor::new(data.as_slice());
    let limits = png::Limits { bytes: usize::MAX };
    let decoder = png::Decoder::new_with_limits(cursor, limits);
    let mut reader = decoder.read_info().unwrap();
    let size = reader.output_buffer_size().unwrap();
    let mut buf = vec![0u8; size];
    let info = reader.next_frame(&mut buf).unwrap();
    buf.truncate(info.buffer_size());
    buf
}

/// A canvas held in compressed form while it rests in the history stack,
/// tagged with the crop-lineage generation it belongs to. The ghost
/// `pixels` field records the encoded image, which decompression
/// recovers exactly.
pub struct CompressedImage {
    pub data: Vec<u8>,
    pub width: u32,
    pub height: u32,
    pub crop_index: usize,
    pub pixels: Ghost<Seq<u8>>,
}

impl CompressedImage {
    /// Well-formedness: the byte buffer is the PNG encoding of the
    /// recorded image.
    pub open spec fn wf(self) -> bool {
        &&& 1 <= self.width
        &&& 1 <= self.height
        &&& self.pixels@.len() == self.width * self.height * 4
        &&& self.width * self.height * 4 <= isize::MAX
        &&& self.data@ == png_data_of(self.width, self.height, self.pixels@)
    }

    /// The snapshot stands for `c`: same dimensions and pixel bytes.
    pub open spec fn holds(self, c: Canvas) -> bool {
        self.width == c.width && self.height == c.height && self.pixels@ == c.pixels@
    }

    /// Compress a canvas, remembering the crop-lineage generation it was
    /// derived from.
    pub fn new(image: &Canvas, crop_index: usize) -> (r: CompressedImage)
        requires
            image.wf(),
        ensures
            r.wf(),
            r.holds(*image),
            r.crop_index == crop_index,
    {
        let data = png_encode_rgba(image.width, image.height, &image.pixels);
        CompressedImage {
            data,
            width: image.width,
            height: image.height,
            crop_index,
            pixels: Ghost(image.pixels@),
        }
    }

    /// Decode the entry back into a working canvas; the round trip is
    /// lossless, pixel for pixel.
    pub fn get_decompressed_image(&self) -> (r: Canvas)
        requires
            self.wf(),
        ensures
            r.wf(),
            self.holds(r),
    {
        let pixels = png_decode_rgba(&self.data, self.width, self.height);
        Canvas { width: self.width, height: self.height, pixels }
    }

    pub fn get_crop_index(&self) -> (r: usize)
        ensures
            r == self.crop_index,
    {
        self.crop_index
    }
}

} // verus!
