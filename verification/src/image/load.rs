//! Telling PNG from JPEG by their first bytes and decoding the contents of an image file.
use vstd::prelude::*;
use super::{Image, ImageError};
use super::png::{try_decode_png, png_overflows, png_spec, image_matches};
use super::jpeg::{try_decode_jpeg, jpeg_spec, JpegScan};
use super::scan::Step;
use crate::text::{string_of, append_str};

verus! {

/// A decoded image file: PNG pixels, or the blocks of a JPEG scan.
pub enum Decoded {
    Png(Image),
    Jpeg(JpegScan),
}

/// PNG files start with 89 50 4E 47.
pub open spec fn is_png(d: Seq<u8>) -> bool {
    d[0] == 0x89 && d[1] == 0x50 && d[2] == 0x4E && d[3] == 0x47
}

/// JPEG files start with FF D8 FF.
pub open spec fn is_jpeg(d: Seq<u8>) -> bool {
    d[0] == 0xFF && d[1] == 0xD8 && d[2] == 0xFF
}

pub open spec fn too_small_msg(path: Seq<char>) -> Seq<char> {
    "File '"@ + path + "' is too small to be an image"@
}

pub open spec fn failed_msg(kind: Seq<char>, path: Seq<char>, m: Seq<char>) -> Seq<char> {
    kind + " decode failed for '"@ + path + "': "@ + m
}

pub open spec fn unsupported_msg(path: Seq<char>) -> Seq<char> {
    "Unsupported image format for '"@ + path + "'. Supported: PNG, JPEG (jpg/jpeg)"@
}

fn error_for(kind: &str, path: &str, e: ImageError) -> (r: ImageError)
    ensures
        r.0@ == failed_msg(kind@, path@, e.0@),
{
    let mut msg = string_of(kind);
    append_str(&mut msg, " decode failed for '");
    append_str(&mut msg, path);
    append_str(&mut msg, "': ");
    append_str(&mut msg, e.0.as_str());
    ImageError(msg)
}

/// Decodes the contents `data` of the image file at `path`, by its first bytes; errors name
/// the file. `None` where a decoder would crash.
pub fn decode_image(path: &str, data: &[u8]) -> (r: Option<Result<Decoded, ImageError>>)
    ensures
        data@.len() < 4 ==> (r matches Some(Err(e)) && e.0@ == too_small_msg(path@)),
        data@.len() >= 4 && is_png(data@) ==> {
            &&& r is None <==> png_overflows(data@)
            &&& r matches Some(res) ==> match png_spec(data@) {
                Ok((info, rows)) => res matches Ok(Decoded::Png(img)) && image_matches(img, info, rows),
                Err(m) => res matches Err(e) && e.0@ == failed_msg("PNG"@, path@, m),
            }
        },
        data@.len() >= 4 && !is_png(data@) && is_jpeg(data@) ==> match jpeg_spec(data@) {
            Step::Done(v) => r matches Some(Ok(Decoded::Jpeg(s))) && s@ == v,
            Step::Fail(m) => r matches Some(Err(e)) && e.0@ == failed_msg("JPEG"@, path@, m),
            Step::Crash => r is None,
        },
        data@.len() >= 4 && !is_png(data@) && !is_jpeg(data@) ==> (r matches Some(Err(e)) && e.0@
            == unsupported_msg(path@)),
{
    if data.len() < 4 {
        let mut msg = string_of("File '");
        append_str(&mut msg, path);
        append_str(&mut msg, "' is too small to be an image");
        return Some(Err(ImageError(msg)));
    }
    if data[0] == 0x89 && data[1] == 0x50 && data[2] == 0x4E && data[3] == 0x47 {
        return match try_decode_png(data) {
            None => None,
            Some(Ok(img)) => Some(Ok(Decoded::Png(img))),
            Some(Err(e)) => Some(Err(error_for("PNG", path, e))),
        };
    }
    if data[0] == 0xFF && data[1] == 0xD8 && data[2] == 0xFF {
        return match try_decode_jpeg(data) {
            None => None,
            Some(Ok(s)) => Some(Ok(Decoded::Jpeg(s))),
            Some(Err(e)) => Some(Err(error_for("JPEG", path, e))),
        };
    }
    let mut msg = string_of("Unsupported image format for '");
    append_str(&mut msg, path);
    append_str(&mut msg, "'. Supported: PNG, JPEG (jpg/jpeg)");
    Some(Err(ImageError(msg)))
}

} // verus!
