//! An app's shell icon as a small PNG `data:` URL.
//!
//! Drawing the icon (Win32 GDI) is the caller's: it hands over the 32x32 top-down
//! BGRA pixels; this module turns them into RGBA, encodes a PNG and wraps it.
use vstd::prelude::*;
use image::ImageEncoder;
use crate::bytes::{base64_encode, base64_fits, base64_fits_exec, base64_standard};
use crate::text::{push_str, string_of};

verus! {

/// Width and height of an icon, in pixels.
pub const ICON_SIZE: u32 = 32;

/// Bytes in the pixel buffer of one icon (four per pixel).
pub const ICON_BYTES: usize = 4096;

/// Some pixel of the BGRA buffer has a non-zero alpha byte.
pub open spec fn any_alpha(bgra: Seq<u8>) -> bool {
    exists|k: int| 0 <= k < bgra.len() && k % 4 == 3 && bgra[k] != 0
}

/// The RGBA buffer for a BGRA one: blue and red swap places; the alpha stays, unless
/// no pixel has any alpha, in which case every pixel is opaque.
pub open spec fn rgba_of(bgra: Seq<u8>) -> Seq<u8> {
    Seq::new(
        bgra.len(),
        |k: int|
            if k % 4 == 0 {
                bgra[k + 2]
            } else if k % 4 == 1 {
                bgra[k]
            } else if k % 4 == 2 {
                bgra[k - 2]
            } else if any_alpha(bgra) {
                bgra[k]
            } else {
                255u8
            },
    )
}

/// Converts BGRA pixels to RGBA (see [`rgba_of`]).
pub fn bgra_to_rgba(bgra: &[u8]) -> (r: Vec<u8>)
    requires
        bgra@.len() % 4 == 0,
    ensures
        r@ == rgba_of(bgra@),
{
    let mut alpha = false;
    let mut i: usize = 0;
    while i < bgra.len()
        invariant
            i <= bgra@.len(),
            i % 4 == 0,
            bgra@.len() % 4 == 0,
            alpha == exists|k: int| 0 <= k < i && k % 4 == 3 && bgra@[k] != 0,
        decreases bgra.len() - i,
    {
        if bgra[i + 3] != 0 {
            alpha = true;
        }
        proof {
            if !alpha {
                assert forall|k: int| 0 <= k < i + 4 && k % 4 == 3 implies bgra@[k] == 0 by {
                    if k >= i {
                        assert(k == i + 3);
                    }
                }
            }
        }
        i = i + 4;
    }
    let mut out: Vec<u8> = Vec::new();
    let mut j: usize = 0;
    while j < bgra.len()
        invariant
            j <= bgra@.len(),
            j % 4 == 0,
            bgra@.len() % 4 == 0,
            alpha == any_alpha(bgra@),
            out@.len() == j,
            forall|k: int| 0 <= k < j ==> out@[k] == rgba_of(bgra@)[k],
        decreases bgra.len() - j,
    {
        out.push(bgra[j + 2]);
        out.push(bgra[j + 1]);
        out.push(bgra[j]);
        out.push(if alpha {
            bgra[j + 3]
        } else {
            255
        });
        j = j + 4;
    }
    proof {
        assert(out@ =~= rgba_of(bgra@));
    }
    out
}

/// What `image`'s `PngEncoder::write_image` writes for 8-bit RGBA pixels of the given
/// size: the PNG bytes, or `None` when it reports an error.
pub uninterp spec fn png_rgba8(pixels: Seq<u8>, width: u32, height: u32) -> Option<Seq<u8>>;

/// `PngEncoder::new(..).write_image(pixels, width, height, ExtendedColorType::Rgba8)` of
/// `image` 0.25, into a byte vector. The encoding is named, not spelled out; the crate
/// panics unless the buffer holds exactly four bytes per pixel, which the precondition
/// asks for.
#[verifier::external_body]
fn encode_png(pixels: &[u8], width: u32, height: u32) -> (r: Option<Vec<u8>>)
    requires
        pixels@.len() == width * height * 4,
    ensures
        match r {
            Some(b) => png_rgba8(pixels@, width, height) == Some(b@),
            None => png_rgba8(pixels@, width, height) is None,
        },
{
    let mut png = Vec::new();
    match image::codecs::png::PngEncoder::new(&mut png).write_image(
        pixels,
        width,
        height,
        image::ExtendedColorType::Rgba8,
    ) {
        Ok(()) => Some(png),
        Err(_) => None,
    }
}

/// The `data:` URL of an icon drawn as 32x32 BGRA pixels: the PNG of its RGBA pixels,
/// base64-encoded; `None` when the encoder fails.
pub fn extract(bgra: &[u8]) -> (r: Option<String>)
    requires
        bgra@.len() == ICON_BYTES,
    ensures
        match png_rgba8(rgba_of(bgra@), ICON_SIZE, ICON_SIZE) {
            Some(png) => if base64_fits(png.len()) {
                r matches Some(u) && u@ == "data:image/png;base64,"@ + base64_standard(png)
            } else {
                r is None
            },
            None => r is None,
        },
{
    let rgba = bgra_to_rgba(bgra);
    let png = match encode_png(rgba.as_slice(), ICON_SIZE, ICON_SIZE) {
        Some(p) => p,
        None => {
            return None;
        },
    };
    if !base64_fits_exec(png.len()) {
        return None;
    }
    let mut url = string_of("data:image/png;base64,");
    let b = base64_encode(png.as_slice());
    push_str(&mut url, b.as_str());
    Some(url)
}

} // verus!
