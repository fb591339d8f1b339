//! The output image: unpremultiplied RGBA bytes with their size, and its
//! PNG encoding.

use vstd::prelude::*;
use crate::filter::copy_buffer;
use crate::pixel::is_buffer;
use rgb::FromSlice;

verus! {

#[verifier::external_type_specification]
#[verifier::external_body]
pub struct ExEncodingError(png::EncodingError);

/// The color bytes of premultiplied RGBA pixels turned back into straight
/// color.
pub uninterp spec fn demultiplied(data: Seq<u8>) -> Seq<u8>;

/// The PNG file of an 8-bit RGBA image of the given size.
pub uninterp spec fn png_rgba(data: Seq<u8>, width: u32, height: u32) -> Seq<u8>;

/// Relies on svgfilters::demultiply_alpha: each RGBA pixel gets its color
/// divided by its alpha, the alpha byte is left as it is, and a fully opaque
/// pixel keeps all four bytes.
#[verifier::external_body]
fn demultiply(data: &mut Vec<u8>)
    requires
        old(data)@.len() % 4 == 0,
    ensures
        final(data)@ == demultiplied(old(data)@),
        final(data)@.len() == old(data)@.len(),
        forall|k: int| 0 <= k < old(data)@.len() && k % 4 == 3 ==> #[trigger] final(data)@[k] == old(data)@[k],
        forall|k: int| 0 <= k < old(data)@.len() && old(data)@[k - k % 4 + 3] == 255 ==>
            #[trigger] final(data)@[k] == old(data)@[k],
{
    svgfilters::demultiply_alpha(data.as_mut_slice().as_rgba_mut());
}

/// Relies on png's Encoder: writes an 8-bit RGBA PNG of the given size
/// into memory. It fails only on a zero side (`Writer::init`) or on data
/// whose length does not match the size (`write_image_data`); writing into a
/// `Vec` does not fail.
#[verifier::external_body]
fn write_png(data: &Vec<u8>, width: u32, height: u32) -> (r: Result<Vec<u8>, png::EncodingError>)
    ensures
        r matches Ok(bytes) ==> bytes@ == png_rgba(data@, width, height),
        width > 0 && height > 0 && data@.len() == 4 * width * height ==> r is Ok,
{
    let mut bytes: Vec<u8> = Vec::new();
    {
        let mut encoder = png::Encoder::new(&mut bytes, width, height);
        encoder.set_color(png::ColorType::RGBA);
        encoder.set_depth(png::BitDepth::Eight);
        let mut writer = encoder.write_header()?;
        writer.write_image_data(data)?;
    }
    Ok(bytes)
}

/// The PNG encoder refused the image.
#[derive(Debug, Copy, Clone, PartialEq, Eq, Hash, Structural)]
pub struct EncodeError;

/// Whether `out` is the straight-color form of the premultiplied `canvas`:
/// the demultiplied bytes, of the same length, with every alpha byte kept
/// and every fully opaque pixel kept as it was.
pub open spec fn demultiplied_image(out: Seq<u8>, canvas: Seq<u8>) -> bool {
    &&& out == demultiplied(canvas)
    &&& out.len() == canvas.len()
    &&& forall|k: int| 0 <= k < canvas.len() && k % 4 == 3 ==> #[trigger] out[k] == canvas[k]
    &&& forall|k: int| 0 <= k < canvas.len() && canvas[k - k % 4 + 3] == 255 ==>
        #[trigger] out[k] == canvas[k]
}

/// A raster image that holds rendering results, as unpremultiplied RGBA
/// bytes. Its width and height are never zero, and it holds four bytes per
/// pixel.
pub struct Image {
    data: Vec<u8>,
    width: u32,
    height: u32,
}

impl View for Image {
    type V = (Seq<u8>, u32, u32);

    closed spec fn view(&self) -> (Seq<u8>, u32, u32) {
        (self.data@, self.width, self.height)
    }
}

impl Clone for Image {
    fn clone(&self) -> (r: Image)
        ensures
            r@ == self@,
    {
        proof { use_type_invariant(self); }
        Image { data: copy_buffer(&self.data), width: self.width, height: self.height }
    }
}

impl Image {
    #[verifier::type_invariant]
    spec fn wf(&self) -> bool {
        &&& self.width > 0
        &&& self.height > 0
        &&& is_buffer(self.data@, self.width as int, self.height as int)
    }

    /// Takes the premultiplied pixels of a rendered canvas and turns them into
    /// an image of straight color.
    pub fn from_canvas(data: Vec<u8>, width: u32, height: u32) -> (img: Image)
        requires
            width > 0,
            height > 0,
            is_buffer(data@, width as int, height as int),
        ensures
            img@.1 == width,
            img@.2 == height,
            img@.0.len() == 4 * width * height,
            demultiplied_image(img@.0, data@),
    {
        let mut data = data;
        assert(4 * width * height == 4 * (width * height)) by (nonlinear_arith);
        demultiply(&mut data);
        Image { data, width, height }
    }

    /// Returns the image width. Never zero.
    pub fn width(&self) -> (r: u32)
        ensures
            r == self@.1,
            r > 0,
    {
        proof { use_type_invariant(self); }
        self.width
    }

    /// Returns the image height. Never zero.
    pub fn height(&self) -> (r: u32)
        ensures
            r == self@.2,
            r > 0,
    {
        proof { use_type_invariant(self); }
        self.height
    }

    /// Returns the image size as width and height.
    pub fn size(&self) -> (r: (u32, u32))
        ensures
            r == (self@.1, self@.2),
            r.0 > 0 && r.1 > 0,
    {
        proof { use_type_invariant(self); }
        (self.width, self.height)
    }

    /// Returns the image content as RGBA bytes, four per pixel, row after row.
    pub fn data(&self) -> (r: &[u8])
        ensures
            r@ == self@.0,
            r@.len() == 4 * self@.1 * self@.2,
    {
        proof { use_type_invariant(self); }
        self.data.as_slice()
    }

    /// Returns the underlying data.
    pub fn take(self) -> (r: Vec<u8>)
        ensures
            r@ == self@.0,
            r@.len() == 4 * self@.1 * self@.2,
    {
        proof { use_type_invariant(&self); }
        self.data
    }

    /// Encodes the image as an 8-bit RGBA PNG file.
    pub fn encode_png(&self) -> (r: Result<Vec<u8>, EncodeError>)
        ensures
            r is Ok,
            r matches Ok(bytes) ==> bytes@ == png_rgba(self@.0, self@.1, self@.2),
    {
        proof { use_type_invariant(self); }
        match write_png(&self.data, self.width, self.height) {
            Ok(bytes) => Ok(bytes),
            Err(_) => Err(EncodeError),
        }
    }
}

} // verus!
