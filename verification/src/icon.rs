//! Decoding of the embedded window icon to raw RGBA pixels. The decode
//! itself is delegated to the `image` crate; its result is a function of
//! the input bytes alone, so it is given a name the contracts speak of.

use vstd::prelude::*;

verus! {

/// What the `image` crate decodes the given bytes to: the raw RGBA8
/// pixels with the image's width and height, or nothing when the bytes
/// are not a valid image. Decoding depends on the bytes alone.
pub uninterp spec fn decoded_icon(bytes: Seq<u8>) -> Option<(Seq<u8>, nat, nat)>;

/// Relies on image::load_from_memory, DynamicImage::into_rgba8 and
/// ImageBuffer::dimensions / into_raw: the decode is deterministic in the
/// bytes, and an RGBA8 buffer holds at least four bytes per pixel.
#[verifier::external_body]
fn decode_rgba(bytes: &[u8]) -> (r: Option<(Vec<u8>, u32, u32)>)
    ensures
        r is Some <==> decoded_icon(bytes@) is Some,
        r matches Some(p) ==> {
            &&& decoded_icon(bytes@) == Some((p.0@, p.1 as nat, p.2 as nat))
            &&& p.0@.len() >= 4 * p.1 * p.2
        },
{
    match image::load_from_memory(bytes) {
        Ok(img) => {
            let rgba = img.into_rgba8();
            let (w, h) = rgba.dimensions();
            Some((rgba.into_raw(), w, h))
        },
        Err(_) => None,
    }
}

/// An icon decoded to raw RGBA pixels, ready for the windowing layer.
pub struct IconImage {
    pub rgba: Vec<u8>,
    pub width: u32,
    pub height: u32,
}

/// Decodes icon bytes to raw RGBA pixels; `None` when the bytes are not a
/// valid image, so a damaged icon degrades instead of aborting startup.
pub fn load_icon(bytes: &[u8]) -> (r: Option<IconImage>)
    ensures
        r is Some <==> decoded_icon(bytes@) is Some,
        r matches Some(icon) ==> {
            &&& decoded_icon(bytes@) == Some(
                (icon.rgba@, icon.width as nat, icon.height as nat),
            )
            &&& icon.rgba@.len() >= 4 * icon.width * icon.height
        },
{
    match decode_rgba(bytes) {
        Some((rgba, w, h)) => Some(IconImage { rgba, width: w, height: h }),
        None => None,
    }
}

} // verus!
