//! The photo transformation pipeline: decode a source image, re-encode it as
//! a full-size JPEG, and produce a downscaled JPEG preview.
//!
//! Decoding and encoding are done by the `image` crate behind the trusted
//! wrappers below; their results are deterministic functions of the input
//! bytes and parameters, so the contracts name them. The preview dimensions
//! are computed here, in verified code.

use vstd::prelude::*;

verus! {

/// The dimensions `(width, height)` the image crate decodes from `src`, or
/// `None` when the bytes are not a decodable image. A function of the bytes
/// alone.
pub uninterp spec fn image_dims_of(src: Seq<u8>) -> Option<(u32, u32)>;

/// Relies on `image::load_from_memory` and `DynamicImage::{width, height}`
/// (image crate): decoding is deterministic in the input bytes; the call
/// fails exactly on bytes the crate cannot decode.
#[verifier::external_body]
pub(crate) fn image_dims(src: &Vec<u8>) -> (r: Option<(u32, u32)>)
    ensures
        r == image_dims_of(src@),
{
    match image::load_from_memory(src.as_slice()) {
        Ok(img) => Some((img.width(), img.height())),
        Err(_) => None,
    }
}

/// The bytes of the full-size JPEG rendition of `src` at `quality`, or
/// `None` when `src` cannot be decoded or the result cannot be encoded. A
/// function of the bytes and the quality alone.
pub uninterp spec fn large_rendition(src: Seq<u8>, quality: u8) -> Option<Seq<u8>>;

/// Relies on `image::load_from_memory`, `DynamicImage::to_rgb8`,
/// `JpegEncoder::new_with_quality` and `ImageBuffer::write_with_encoder`
/// (image crate): the re-encoded image is a deterministic function of the
/// source bytes and the quality.
#[verifier::external_body]
pub(crate) fn encode_large(src: &Vec<u8>, quality: u8) -> (r: Option<Vec<u8>>)
    ensures
        r is Some <==> large_rendition(src@, quality) is Some,
        r matches Some(v) ==> large_rendition(src@, quality) == Some(v@),
{
    let img = match image::load_from_memory(src.as_slice()) {
        Ok(img) => img,
        Err(_) => return None,
    };
    let mut out: Vec<u8> = Vec::new();
    let enc = image::codecs::jpeg::JpegEncoder::new_with_quality(&mut out, quality);
    match img.to_rgb8().write_with_encoder(enc) {
        Ok(_) => Some(out),
        Err(_) => None,
    }
}

/// The bytes of the JPEG preview of `src`, downscaled to fit in
/// `(nwidth, nheight)` with Lanczos resampling and encoded at `quality`, or
/// `None` when decoding or encoding fails. A function of the arguments
/// alone.
pub uninterp spec fn small_rendition(src: Seq<u8>, nwidth: u32, nheight: u32, quality: u8) -> Option<
    Seq<u8>,
>;

/// Relies on `image::load_from_memory`, `DynamicImage::resize` with the
/// Lanczos3 filter, `DynamicImage::to_rgb8`, `JpegEncoder::new_with_quality`
/// and `ImageBuffer::write_with_encoder` (image crate): the downscaled
/// rendition is a deterministic function of the source bytes, the bounds and
/// the quality; `resize` accepts any bounds without panicking.
#[verifier::external_body]
pub(crate) fn encode_small(src: &Vec<u8>, nwidth: u32, nheight: u32, quality: u8) -> (r: Option<Vec<u8>>)
    ensures
        r is Some <==> small_rendition(src@, nwidth, nheight, quality) is Some,
        r matches Some(v) ==> small_rendition(src@, nwidth, nheight, quality) == Some(v@),
{
    let img = match image::load_from_memory(src.as_slice()) {
        Ok(img) => img,
        Err(_) => return None,
    };
    let small = img.resize(nwidth, nheight, image::imageops::FilterType::Lanczos3);
    let mut out: Vec<u8> = Vec::new();
    let enc = image::codecs::jpeg::JpegEncoder::new_with_quality(&mut out, quality);
    match small.to_rgb8().write_with_encoder(enc) {
        Ok(_) => Some(out),
        Err(_) => None,
    }
}

/// The preview bounds for an image of `width` x `height`: both dimensions
/// scaled by `min(max_size/width, max_size/height)` and truncated, so that
/// the scaled image fits inside a `max_size` square while keeping its aspect
/// ratio. Degenerate zero-pixel sources keep zero bounds.
pub open spec fn scaled_bounds(width: u32, height: u32, max_size: u32) -> (u32, u32) {
    let longer = if width >= height {
        width
    } else {
        height
    };
    if longer == 0 {
        (0u32, 0u32)
    } else {
        (
            ((width * max_size) / (longer as int)) as u32,
            ((height * max_size) / (longer as int)) as u32,
        )
    }
}

/// Computes the preview bounds, matching `scaled_bounds`.
pub fn preview_bounds(width: u32, height: u32, max_size: u32) -> (r: (u32, u32))
    ensures
        r == scaled_bounds(width, height, max_size),
{
    let longer: u64 = if width >= height {
        width as u64
    } else {
        height as u64
    };
    if longer == 0 {
        (0u32, 0u32)
    } else {
        proof {
            assert((width as int) * (max_size as int) <= 0xffff_ffff * 0xffff_ffff)
                by (nonlinear_arith)
                requires
                    0 <= width as int,
                    width as int <= 0xffff_ffff,
                    0 <= max_size as int,
                    max_size as int <= 0xffff_ffff,
            ;
            assert((height as int) * (max_size as int) <= 0xffff_ffff * 0xffff_ffff)
                by (nonlinear_arith)
                requires
                    0 <= height as int,
                    height as int <= 0xffff_ffff,
                    0 <= max_size as int,
                    max_size as int <= 0xffff_ffff,
            ;
        }
        let nw = (width as u64 * max_size as u64) / longer;
        let nh = (height as u64 * max_size as u64) / longer;
        proof {
            let l = longer as int;
            let w = width as int;
            let h = height as int;
            let m = max_size as int;
            assert(w * m / l <= m) by (nonlinear_arith)
                requires
                    1 <= l,
                    0 <= w <= l,
                    0 <= m,
            ;
            assert(h * m / l <= m) by (nonlinear_arith)
                requires
                    1 <= l,
                    0 <= h <= l,
                    0 <= m,
            ;
        }
        (nw as u32, nh as u32)
    }
}

/// Both renditions of a photo, or `None` when the source cannot be
/// transformed (it is skipped, not fatal).
pub open spec fn renditions_of(src: Seq<u8>, max_size: u32, quality: u8) -> Option<
    (Seq<u8>, Seq<u8>),
> {
    match image_dims_of(src) {
        None => None,
        Some(dims) => {
            let bounds = scaled_bounds(dims.0, dims.1, max_size);
            match (large_rendition(src, quality), small_rendition(src, bounds.0, bounds.1, quality)) {
                (Some(l), Some(s)) => Some((l, s)),
                _ => None,
            }
        },
    }
}

/// Runs the whole transform: decode, re-encode at full size, and encode the
/// downscaled preview. Returns `None` exactly when `renditions_of` does.
pub fn transform(src: &Vec<u8>, max_size: u32, quality: u8) -> (r: Option<(Vec<u8>, Vec<u8>)>)
    ensures
        r is Some <==> renditions_of(src@, max_size, quality) is Some,
        r matches Some(v) ==> renditions_of(src@, max_size, quality) == Some((v.0@, v.1@)),
{
    let dims = match image_dims(src) {
        Some(d) => d,
        None => {
            return None;
        },
    };
    let bounds = preview_bounds(dims.0, dims.1, max_size);
    let large = match encode_large(src, quality) {
        Some(l) => l,
        None => {
            return None;
        },
    };
    let small = match encode_small(src, bounds.0, bounds.1, quality) {
        Some(s) => s,
        None => {
            return None;
        },
    };
    Some((large, small))
}

} // verus!
