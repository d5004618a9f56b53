//! RGBA images as plain values, and the image and base64 codecs Bloom uses
//! to turn them into data URIs.
use vstd::prelude::*;
use crate::text::{chars_of, string_of, extend_chars};

verus! {

/// An 8-bit RGBA image: `pixels` holds `width * height` pixels of four
/// bytes each, row by row.
pub struct RgbaImage {
    pub width: u32,
    pub height: u32,
    pub pixels: Vec<u8>,
}

impl RgbaImage {
    /// The buffer holds exactly one RGBA pixel per position.
    pub open spec fn wf(&self) -> bool {
        self.pixels@.len() == self.width * self.height * 4
    }

    /// The four channels of the pixel at column `x`, row `y`.
    pub open spec fn pixel(&self, x: int, y: int) -> Seq<u8> {
        let at = (y * self.width + x) * 4;
        self.pixels@.subrange(at, at + 4)
    }

    /// The pixel at column `x`, row `y` as `[red, green, blue, alpha]`.
    pub fn get_pixel(&self, x: u32, y: u32) -> (p: [u8; 4])
        requires
            self.wf(),
            x < self.width,
            y < self.height,
        ensures
            p@ == self.pixel(x as int, y as int),
    {
        proof {
            assert((y * self.width + x) * 4 + 4 <= self.width * self.height * 4) by (nonlinear_arith)
                requires
                    x < self.width,
                    y < self.height,
            ;
            assert(y * self.width <= (y * self.width + x) * 4) by (nonlinear_arith);
        }
        let total = self.pixels.len();
        let row = (y as usize) * (self.width as usize);
        let idx = row + (x as usize);
        let at = idx * 4;
        let p = [self.pixels[at], self.pixels[at + 1], self.pixels[at + 2], self.pixels[at + 3]];
        assert(p@ =~= self.pixels@.subrange(at as int, at + 4));
        p
    }
}

/// How pixels are sampled when an image is scaled.
pub enum ResizeFilter {
    Triangle,
    Lanczos3,
}

/// What `image::DynamicImage::resize` makes of an RGBA image: the image
/// scaled, keeping its aspect ratio, to the largest size that fits within
/// the requested bounds, as `(width, height, pixels)`.
pub uninterp spec fn resized(
    width: u32,
    height: u32,
    pixels: Seq<u8>,
    max_width: u32,
    max_height: u32,
    filter: ResizeFilter,
) -> (u32, u32, Seq<u8>);

/// `image::DynamicImage::resize` on an RGBA buffer. Its documentation
/// promises a result that fits within the bounds (for bounds of at least one
/// pixel); the buffer it returns holds exactly its pixels.
#[verifier::external_body]
pub(crate) fn resize(image: &RgbaImage, max_width: u32, max_height: u32, filter: ResizeFilter) -> (r:
    RgbaImage)
    requires
        image.wf(),
    ensures
        r.wf(),
        max_width >= 1 && max_height >= 1 ==> r.width <= max_width && r.height <= max_height,
        (r.width, r.height, r.pixels@) == resized(
            image.width,
            image.height,
            image.pixels@,
            max_width,
            max_height,
            filter,
        ),
{
    let buffer = image::RgbaImage::from_raw(image.width, image.height, image.pixels.clone()).unwrap();
    let filter = match filter {
        ResizeFilter::Triangle => image::imageops::FilterType::Triangle,
        ResizeFilter::Lanczos3 => image::imageops::FilterType::Lanczos3,
    };
    let out = image::DynamicImage::ImageRgba8(buffer).resize(max_width, max_height, filter).into_rgba8();
    RgbaImage { width: out.width(), height: out.height(), pixels: out.into_raw() }
}

/// What `image::DynamicImage::resize` makes of the image that
/// `image::load_from_memory` decodes from a file's bytes, scaled in the
/// image's own colour type and then converted to RGBA, as
/// `(width, height, pixels)`.
pub uninterp spec fn resized_decoded(
    bytes: Seq<u8>,
    max_width: u32,
    max_height: u32,
    filter: ResizeFilter,
) -> (u32, u32, Seq<u8>);

/// `image::DynamicImage::resize` on the image decoded from `bytes`, which
/// must be an image `decode_image` accepts (decoding is repeated, and gives
/// the same image). The result fits within the bounds, as `resize` promises.
#[verifier::external_body]
pub(crate) fn resize_decoded(bytes: &[u8], max_width: u32, max_height: u32, filter: ResizeFilter) -> (r:
    RgbaImage)
    requires
        decoded_image(bytes@) is Ok,
    ensures
        r.wf(),
        max_width >= 1 && max_height >= 1 ==> r.width <= max_width && r.height <= max_height,
        (r.width, r.height, r.pixels@) == resized_decoded(bytes@, max_width, max_height, filter),
{
    let image = image::load_from_memory(bytes).unwrap();
    let filter = match filter {
        ResizeFilter::Triangle => image::imageops::FilterType::Triangle,
        ResizeFilter::Lanczos3 => image::imageops::FilterType::Lanczos3,
    };
    let out = image.resize(max_width, max_height, filter).into_rgba8();
    RgbaImage { width: out.width(), height: out.height(), pixels: out.into_raw() }
}

/// What `image::imageops::overlay` leaves in `bottom` after blending `top`
/// onto it with its top left corner at `(x, y)`.
pub uninterp spec fn overlaid(
    bottom_width: u32,
    bottom_height: u32,
    bottom: Seq<u8>,
    top_width: u32,
    top_height: u32,
    top: Seq<u8>,
    x: i64,
    y: i64,
) -> Seq<u8>;

/// `image::imageops::overlay` of two RGBA buffers. It blends in place, so
/// the bottom image keeps its size and stays well formed.
#[verifier::external_body]
pub(crate) fn overlay(bottom: &mut RgbaImage, top: &RgbaImage, x: i64, y: i64)
    requires
        old(bottom).wf(),
        top.wf(),
    ensures
        final(bottom).width == old(bottom).width,
        final(bottom).height == old(bottom).height,
        final(bottom).wf(),
        final(bottom).pixels@ == overlaid(
            old(bottom).width,
            old(bottom).height,
            old(bottom).pixels@,
            top.width,
            top.height,
            top.pixels@,
            x,
            y,
        ),
{
    let mut canvas = image::RgbaImage::from_raw(bottom.width, bottom.height, bottom.pixels.clone()).unwrap();
    let over = image::RgbaImage::from_raw(top.width, top.height, top.pixels.clone()).unwrap();
    image::imageops::overlay(&mut canvas, &over, x, y);
    bottom.pixels = canvas.into_raw();
}

/// What `image::write_buffer_with_format` produces for an RGBA buffer in
/// the PNG format: the encoded file, or the error's text.
pub uninterp spec fn png_encoding(width: u32, height: u32, pixels: Seq<u8>) -> Result<
    Seq<u8>,
    Seq<char>,
>;

/// `image::write_buffer_with_format` into memory, as PNG. The encoder
/// panics unless the buffer holds exactly four bytes per pixel, so the
/// image must be well formed.
#[verifier::external_body]
pub(crate) fn encode_png_bytes(image: &RgbaImage) -> (r: Result<Vec<u8>, String>)
    requires
        image.wf(),
    ensures
        match r {
            Ok(bytes) => png_encoding(image.width, image.height, image.pixels@) == Ok::<
                Seq<u8>,
                Seq<char>,
            >(bytes@),
            Err(e) => png_encoding(image.width, image.height, image.pixels@) == Err::<
                Seq<u8>,
                Seq<char>,
            >(e@),
        },
{
    let mut buffer = std::io::Cursor::new(Vec::new());
    match image::write_buffer_with_format(
        &mut buffer,
        &image.pixels,
        image.width,
        image.height,
        image::ColorType::Rgba8,
        image::ImageFormat::Png,
    ) {
        Ok(()) => Ok(buffer.into_inner()),
        Err(e) => Err(e.to_string()),
    }
}

/// What `image::load_from_memory` decodes from a file's bytes, converted
/// to RGBA: `(width, height, pixels)`, or the error's text.
pub uninterp spec fn decoded_image(bytes: Seq<u8>) -> Result<(u32, u32, Seq<u8>), Seq<char>>;

/// `image::load_from_memory`, converted to RGBA.
#[verifier::external_body]
pub(crate) fn decode_image(bytes: &[u8]) -> (r: Result<RgbaImage, String>)
    ensures
        match r {
            Ok(image) => image.wf() && decoded_image(bytes@) == Ok::<
                (u32, u32, Seq<u8>),
                Seq<char>,
            >((image.width, image.height, image.pixels@)),
            Err(e) => decoded_image(bytes@) == Err::<(u32, u32, Seq<u8>), Seq<char>>(e@),
        },
{
    match image::load_from_memory(bytes) {
        Ok(image) => {
            let rgba = image.into_rgba8();
            Ok(RgbaImage { width: rgba.width(), height: rgba.height(), pixels: rgba.into_raw() })
        },
        Err(e) => Err(e.to_string()),
    }
}

/// What `DynamicImage::write_to` writes, in the PNG format, for the image
/// `image::load_from_memory` decodes from a file's bytes: the image keeps
/// its own colour type (only types PNG cannot hold are converted by the
/// encoder). The encoded file, or the error's text.
pub uninterp spec fn png_reencoding(bytes: Seq<u8>) -> Result<Seq<u8>, Seq<char>>;

/// `DynamicImage::write_to` into memory as PNG, for the image that
/// `image::load_from_memory` decodes from `bytes` (its error, if decoding
/// fails, is passed on as text in the same way).
#[verifier::external_body]
pub(crate) fn reencode_png(bytes: &[u8]) -> (r: Result<Vec<u8>, String>)
    ensures
        match r {
            Ok(png) => png_reencoding(bytes@) == Ok::<Seq<u8>, Seq<char>>(png@),
            Err(e) => png_reencoding(bytes@) == Err::<Seq<u8>, Seq<char>>(e@),
        },
{
    let mut out = std::io::Cursor::new(Vec::new());
    match image::load_from_memory(bytes) {
        Ok(image) => match image.write_to(&mut out, image::ImageFormat::Png) {
            Ok(()) => Ok(out.into_inner()),
            Err(e) => Err(e.to_string()),
        },
        Err(e) => Err(e.to_string()),
    }
}

/// What the standard base64 engine makes of some bytes (RFC 4648 alphabet,
/// with padding).
pub uninterp spec fn base64_of(bytes: Seq<u8>) -> Seq<char>;

/// `base64::engine::general_purpose::STANDARD.encode`.
#[verifier::external_body]
pub(crate) fn base64_encode(bytes: &[u8]) -> (s: String)
    ensures
        s@ == base64_of(bytes@),
{
    base64::Engine::encode(&base64::engine::general_purpose::STANDARD, bytes)
}

/// What the standard base64 engine decodes from some text: the bytes, or
/// the error's text when the input is not valid padded base64.
pub uninterp spec fn base64_decoded(text: Seq<char>) -> Result<Seq<u8>, Seq<char>>;

/// `base64::engine::general_purpose::STANDARD.decode`.
#[verifier::external_body]
pub(crate) fn base64_decode(text: &str) -> (r: Result<Vec<u8>, String>)
    ensures
        match r {
            Ok(bytes) => base64_decoded(text@) == Ok::<Seq<u8>, Seq<char>>(bytes@),
            Err(e) => base64_decoded(text@) == Err::<Seq<u8>, Seq<char>>(e@),
        },
{
    base64::Engine::decode(&base64::engine::general_purpose::STANDARD, text).map_err(|e| e.to_string())
}

/// `data:<mime>;base64,<payload>`.
pub open spec fn data_uri_of(mime: Seq<char>, payload: Seq<char>) -> Seq<char> {
    seq!['d', 'a', 't', 'a', ':'] + mime + seq![';', 'b', 'a', 's', 'e', '6', '4', ','] + payload
}

/// A data URI carrying `bytes` under the given MIME type.
pub fn data_uri(mime: &str, bytes: &[u8]) -> (uri: String)
    ensures
        uri@ == data_uri_of(mime@, base64_of(bytes@)),
{
    let payload = base64_encode(bytes);
    let mut out: Vec<char> = Vec::new();
    out.push('d');
    out.push('a');
    out.push('t');
    out.push('a');
    out.push(':');
    let m = chars_of(mime);
    extend_chars(&mut out, &m);
    out.push(';');
    out.push('b');
    out.push('a');
    out.push('s');
    out.push('e');
    out.push('6');
    out.push('4');
    out.push(',');
    let p = chars_of(payload.as_str());
    extend_chars(&mut out, &p);
    assert(out@ =~= data_uri_of(mime@, base64_of(bytes@)));
    string_of(&out)
}

} // verus!
