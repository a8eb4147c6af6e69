//! Raw RGB frames as handed over by the decoder.

use vstd::prelude::*;

verus! {

/// Calls `image::RgbImage::from_raw(width, height, data)` (an
/// `ImageBuffer<Rgb<u8>, Vec<u8>>`) and, when it accepts the buffer, hands
/// the buffer back with `into_raw`. Trusted: `from_raw` computes the needed
/// length as `3 * width`, then times `height`, each step with `checked_mul`
/// in `usize`, and accepts exactly when neither step overflows and the
/// length is at most `data.len()`; `into_raw` returns the buffer it was
/// given. (When the second step would overflow, the length exceeds every
/// `usize`, so the last comparison already fails.)
#[verifier::external_body]
fn rgb_image_raw(width: u32, height: u32, data: Vec<u8>) -> (r: Option<Vec<u8>>)
    ensures
        r is Some <==> (3 * width <= usize::MAX && 3 * width * height <= data@.len()),
        r matches Some(v) ==> v@ == data@,
{
    match image::RgbImage::from_raw(width, height, data) {
        Some(img) => Some(img.into_raw()),
        None => None,
    }
}

/// The bytes of an RGB frame of `width` x `height` pixels, checked to be
/// large enough for the image library (three bytes per pixel); `None` when
/// the buffer is too short or `3 * width` does not fit in a `usize`.
pub fn rgb_frame_bytes(width: u32, height: u32, data: Vec<u8>) -> (r: Option<Vec<u8>>)
    ensures
        r is Some <==> (3 * width <= usize::MAX && 3 * width * height <= data@.len()),
        r matches Some(v) ==> v@ == data@,
{
    rgb_image_raw(width, height, data)
}

} // verus!
