//! Errors of the library.
use vstd::prelude::*;
use crate::image::RgbaImage;
use crate::text::{push_nat, push_str, string_of};

verus! {

/// What went wrong.
#[derive(Debug, Clone)]
pub enum Error {
    /// An engine name that is not known.
    InvalidEngine(String),
    /// The image bytes could not be decoded; the decoder's message.
    ImageDecode(String),
    /// Reading or writing failed; the I/O error's message.
    Io(String),
    /// The spline tracer failed; its message.
    Vtracer(String),
    /// SVG optimization failed.
    Optimization(String),
    /// An image format name that is not known.
    UnsupportedFormat(String),
    /// The image is larger than allowed.
    ImageTooLarge { width: u32, height: u32, max_w: u32, max_h: u32 },
    /// The request is malformed.
    BadRequest(String),
    /// A configuration value that is not known.
    InvalidConfig(String),
    /// Converting the SVG to another format failed.
    Conversion(String),
}

/// The text of an error, as its `Display` writes it.
pub open spec fn error_text(e: Error) -> Seq<char> {
    match e {
        Error::InvalidEngine(s) => "Invalid engine: "@ + s@,
        Error::ImageDecode(s) => "Image decode error: "@ + s@,
        Error::Io(s) => "IO error: "@ + s@,
        Error::Vtracer(s) => "vtracer error: "@ + s@,
        Error::Optimization(s) => "SVG optimization error: "@ + s@,
        Error::UnsupportedFormat(s) => "Unsupported image format: "@ + s@,
        Error::ImageTooLarge { width, height, max_w, max_h } => "Image too large: "@ + crate::text::nat_text(
            width as nat,
        ) + "x"@ + crate::text::nat_text(height as nat) + " exceeds maximum "@ + crate::text::nat_text(
            max_w as nat,
        ) + "x"@ + crate::text::nat_text(max_h as nat),
        Error::BadRequest(s) => "Invalid request: "@ + s@,
        Error::InvalidConfig(s) => "Invalid configuration: "@ + s@,
        Error::Conversion(s) => "Conversion error: "@ + s@,
    }
}

impl Error {
    /// The text of the error (see `error_text`).
    pub fn message(&self) -> (r: String)
        ensures
            r@ == error_text(*self),
    {
        let mut out: Vec<char> = Vec::new();
        match self {
            Error::InvalidEngine(s) => {
                push_str(&mut out, "Invalid engine: ");
                push_str(&mut out, s.as_str());
            },
            Error::ImageDecode(s) => {
                push_str(&mut out, "Image decode error: ");
                push_str(&mut out, s.as_str());
            },
            Error::Io(s) => {
                push_str(&mut out, "IO error: ");
                push_str(&mut out, s.as_str());
            },
            Error::Vtracer(s) => {
                push_str(&mut out, "vtracer error: ");
                push_str(&mut out, s.as_str());
            },
            Error::Optimization(s) => {
                push_str(&mut out, "SVG optimization error: ");
                push_str(&mut out, s.as_str());
            },
            Error::UnsupportedFormat(s) => {
                push_str(&mut out, "Unsupported image format: ");
                push_str(&mut out, s.as_str());
            },
            Error::ImageTooLarge { width, height, max_w, max_h } => {
                push_str(&mut out, "Image too large: ");
                push_nat(&mut out, *width as u64);
                push_str(&mut out, "x");
                push_nat(&mut out, *height as u64);
                push_str(&mut out, " exceeds maximum ");
                push_nat(&mut out, *max_w as u64);
                push_str(&mut out, "x");
                push_nat(&mut out, *max_h as u64);
            },
            Error::BadRequest(s) => {
                push_str(&mut out, "Invalid request: ");
                push_str(&mut out, s.as_str());
            },
            Error::InvalidConfig(s) => {
                push_str(&mut out, "Invalid configuration: ");
                push_str(&mut out, s.as_str());
            },
            Error::Conversion(s) => {
                push_str(&mut out, "Conversion error: ");
                push_str(&mut out, s.as_str());
            },
        }
        proof {
            assert(out@ =~= error_text(*self));
        }
        string_of(&out)
    }
}

/// `s` equals `w` up to ASCII case (`to_ascii_lowercase`); `w` is lower
/// case.
pub open spec fn ascii_lower_eq(s: Seq<char>, w: Seq<char>) -> bool {
    s.len() == w.len() && forall|i: int|
        0 <= i < s.len() ==> (if 'A' <= #[trigger] s[i] <= 'Z' { s[i] as int + 32 } else { s[i] as int }) == w[i] as int
}

/// The file extensions the image crate knows a format for
/// (`ImageFormat::from_extension`), matched up to ASCII case.
pub open spec fn image_extension_known(ext: Seq<char>) -> bool {
    ||| ascii_lower_eq(ext, "avif"@) ||| ascii_lower_eq(ext, "jpg"@) ||| ascii_lower_eq(ext, "jpeg"@)
    ||| ascii_lower_eq(ext, "jfif"@) ||| ascii_lower_eq(ext, "png"@) ||| ascii_lower_eq(ext, "apng"@)
    ||| ascii_lower_eq(ext, "gif"@) ||| ascii_lower_eq(ext, "webp"@) ||| ascii_lower_eq(ext, "tif"@)
    ||| ascii_lower_eq(ext, "tiff"@) ||| ascii_lower_eq(ext, "tga"@) ||| ascii_lower_eq(ext, "dds"@)
    ||| ascii_lower_eq(ext, "bmp"@) ||| ascii_lower_eq(ext, "ico"@) ||| ascii_lower_eq(ext, "hdr"@)
    ||| ascii_lower_eq(ext, "exr"@) ||| ascii_lower_eq(ext, "pbm"@) ||| ascii_lower_eq(ext, "pam"@)
    ||| ascii_lower_eq(ext, "ppm"@) ||| ascii_lower_eq(ext, "pgm"@) ||| ascii_lower_eq(ext, "pnm"@)
    ||| ascii_lower_eq(ext, "ff"@) ||| ascii_lower_eq(ext, "qoi"@)
}

/// What `image::load_from_memory` makes of some bytes, read as RGBA: width,
/// height and raw pixel bytes, or the error's text.
pub uninterp spec fn image_decode(data: Seq<u8>) -> Result<(u32, u32, Seq<u8>), Seq<char>>;

/// What `image::load_from_memory_with_format` makes of some bytes, read as
/// RGBA, with the format `ImageFormat::from_extension` gives for `ext`.
pub uninterp spec fn image_decode_as(data: Seq<u8>, ext: Seq<char>) -> Result<(u32, u32, Seq<u8>), Seq<char>>;

/// A decoding's outcome by the views of its parts.
pub open spec fn decode_view(d: Result<(u32, u32, Vec<u8>), String>) -> Result<(u32, u32, Seq<u8>), Seq<char>> {
    match d {
        Ok((w, h, raw)) => Ok((w, h, raw@)),
        Err(m) => Err(m@),
    }
}

/// A decoded buffer holds at least `width * height * 4` bytes.
pub open spec fn decode_fits(d: Result<(u32, u32, Vec<u8>), String>) -> bool {
    d matches Ok((w, h, raw)) ==> raw@.len() >= w as int * h as int * 4
}

/// `image::load_from_memory` (the format guessed from the bytes) and
/// `DynamicImage::into_rgba8`: the RGBA buffer's width, height and bytes, or
/// the error's `Display` text; named `image_decode`. An image buffer holds at
/// least `width * height * 4` bytes (`ImageBuffer::from_raw` checks it).
#[verifier::external_body]
fn decode_guessed(data: &[u8]) -> (r: Result<(u32, u32, Vec<u8>), String>)
    ensures
        image_decode(data@) == decode_view(r),
        decode_fits(r),
{
    match image::load_from_memory(data) {
        Ok(img) => {
            let img = img.into_rgba8();
            Ok((img.width(), img.height(), img.into_raw()))
        },
        Err(e) => Err(e.to_string()),
    }
}

/// `ImageFormat::from_extension`, then `image::load_from_memory_with_format`
/// and `DynamicImage::into_rgba8`: `None` where the extension names no
/// format (see `image_extension_known`), else as `decode_guessed`, named
/// `image_decode_as`.
#[verifier::external_body]
fn decode_as(data: &[u8], ext: &str) -> (r: Option<Result<(u32, u32, Vec<u8>), String>>)
    ensures
        r is None <==> !image_extension_known(ext@),
        r matches Some(d) ==> image_decode_as(data@, ext@) == decode_view(d),
        r matches Some(d) ==> decode_fits(d),
{
    match image::ImageFormat::from_extension(ext) {
        Some(f) => Some(match image::load_from_memory_with_format(data, f) {
            Ok(img) => {
                let img = img.into_rgba8();
                Ok((img.width(), img.height(), img.into_raw()))
            },
            Err(e) => Err(e.to_string()),
        }),
        None => None,
    }
}

/// The image a decoding gives: its pixels are the first `width * height`
/// of the buffer.
pub open spec fn decoded_image(img: RgbaImage, w: u32, h: u32, raw: Seq<u8>) -> bool {
    img.spec_width() == w && img.spec_height() == h && img.spec_data() == raw.take(w as int * h as int * 4)
}

/// What loading gives for a decoding's outcome.
pub open spec fn loaded(r: Result<RgbaImage, Error>, d: Result<(u32, u32, Seq<u8>), Seq<char>>) -> bool {
    match d {
        Ok((w, h, raw)) => r matches Ok(img) && decoded_image(img, w, h, raw),
        Err(m) => r matches Err(Error::ImageDecode(t)) && t@ == m,
    }
}

/// The image of a decoding: the first `width * height * 4` bytes.
fn image_of(w: u32, h: u32, raw: Vec<u8>) -> (img: RgbaImage)
    requires
        raw@.len() >= w as int * h as int * 4,
    ensures
        decoded_image(img, w, h, raw@),
{
    let mut raw = raw;
    let ghost full = raw@;
    let len: usize = raw.len();
    assert((w as usize) * (h as usize) <= len) by (nonlinear_arith)
        requires
            len >= w as int * h as int * 4,
    ;
    let n: usize = (w as usize) * (h as usize) * 4;
    raw.truncate(n);
    proof {
        assert(raw@ =~= full.take(n as int));
    }
    match RgbaImage::from_raw(w, h, raw) {
        Some(img) => img,
        None => {
            proof {
                assert(false);
            }
            RgbaImage::from_pixel(0, 0, [0, 0, 0, 0])
        },
    }
}

/// The image of a decoding, or its error as `Error::ImageDecode`.
fn load_decoded(d: Result<(u32, u32, Vec<u8>), String>) -> (r: Result<RgbaImage, Error>)
    requires
        decode_fits(d),
    ensures
        loaded(r, decode_view(d)),
{
    match d {
        Ok((w, h, raw)) => Ok(image_of(w, h, raw)),
        Err(m) => Err(Error::ImageDecode(m)),
    }
}

/// Loads an image from bytes, with an optional format hint (a file
/// extension): with a hint the bytes are decoded as that format, and an
/// extension that names no format is `UnsupportedFormat`; without one the
/// format is guessed from the bytes.
pub fn load_image_from_bytes(data: &[u8], format_hint: Option<&str>) -> (r: Result<RgbaImage, Error>)
    ensures
        match format_hint {
            None => loaded(r, image_decode(data@)),
            Some(ext) => if image_extension_known(ext@) {
                loaded(r, image_decode_as(data@, ext@))
            } else {
                r matches Err(Error::UnsupportedFormat(t)) && t@ == ext@
            },
        },
{
    match format_hint {
        None => load_decoded(decode_guessed(data)),
        Some(fmt) => match decode_as(data, fmt) {
            Some(d) => load_decoded(d),
            None => {
                let mut t: Vec<char> = Vec::new();
                push_str(&mut t, fmt);
                proof {
                    assert(t@ =~= fmt@);
                }
                Err(Error::UnsupportedFormat(string_of(&t)))
            },
        },
    }
}

} // verus!
