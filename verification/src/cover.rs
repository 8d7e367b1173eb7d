//! Cover art: decoding the embedded picture of a track into premultiplied
//! RGBA pixels, ready to be handed to the user interface as a texture.
use vstd::prelude::*;

verus! {

/// What the image crate decodes from an image held in memory: the width,
/// the height and the 8-bit RGBA samples, row by row, of the picture
/// (`image::load_from_memory` followed by `DynamicImage::to_rgba8`); none
/// when the crate cannot decode the bytes.
pub uninterp spec fn decoded_rgba(data: Seq<u8>) -> Option<(u32, u32, Seq<u8>)>;

/// Calls `image::load_from_memory` (format guessed from the content) and
/// converts the picture with `DynamicImage::to_rgba8`; its result is named
/// by `decoded_rgba`. An RGBA buffer of the image crate holds at least
/// `width * height * 4` samples (`ImageBuffer::new` allocates exactly that
/// many, `ImageBuffer::from_raw` refuses fewer).
#[verifier::external_body]
fn decode_rgba8(data: &[u8]) -> (r: Option<(u32, u32, Vec<u8>)>)
    ensures
        match r {
            Some((w, h, raw)) => decoded_rgba(data@) == Some((w, h, raw@)),
            None => decoded_rgba(data@) is None,
        },
        r matches Some((w, h, raw)) ==> raw@.len() >= w as int * h as int * 4,
{
    let img = image::load_from_memory(data).ok()?;
    let rgba = img.to_rgba8();
    let (w, h) = rgba.dimensions();
    Some((w, h, rgba.into_raw()))
}

/// What holds of a colour channel `c` of straight alpha `a` and the
/// channel `o` it becomes once premultiplied: a zero channel stays zero,
/// and a dark channel (at most 10) becomes `c * a / 255` to within
/// one half.
pub open spec fn channel_premultiplied(c: u8, a: u8, o: u8) -> bool {
    &&& c == 0 ==> o == 0
    &&& c <= 10 ==> 255 * o <= c * a + 128 && c * a <= 255 * o + 128
}

/// Converts a colour with straight alpha into egui's premultiplied form
/// (`Color32::from_rgba_unmultiplied`, read back with `to_array`). The
/// source of egui 0.27 (`ecolor/src/color32.rs`, `ecolor/src/lib.rs`)
/// keeps the alpha, passes an opaque colour through and makes a fully
/// transparent one black. A partly transparent channel is scaled in
/// linear light with `f32` arithmetic: a zero channel stays zero, and a
/// channel of at most 10 takes the linear branch of the sRGB curve on
/// both ways (plain `f32` products and quotients, no `powf`), which gives
/// `c * a / 255` to within one half. Brighter channels go through
/// `f32::powf`, whose precision Rust leaves open, and are left unsaid.
#[verifier::external_body]
fn premultiply(r: u8, g: u8, b: u8, a: u8) -> (p: (u8, u8, u8, u8))
    ensures
        p.3 == a,
        a == 255 ==> p.0 == r && p.1 == g && p.2 == b,
        a == 0 ==> p.0 == 0 && p.1 == 0 && p.2 == 0,
        channel_premultiplied(r, a, p.0),
        channel_premultiplied(g, a, p.1),
        channel_premultiplied(b, a, p.2),
{
    let c = egui::Color32::from_rgba_unmultiplied(r, g, b, a).to_array();
    (c[0], c[1], c[2], c[3])
}

/// A decoded cover: its size and its premultiplied RGBA pixels, row by row.
pub struct CoverPixels {
    pub width: u32,
    pub height: u32,
    pub pixels: Vec<(u8, u8, u8, u8)>,
}

/// What holds of pixel `i` premultiplied from the straight-alpha samples
/// `raw[4 * i .. 4 * i + 4]`.
pub open spec fn premultiplied_from(p: (u8, u8, u8, u8), raw: Seq<u8>, i: int) -> bool {
    let r = raw[4 * i];
    let g = raw[4 * i + 1];
    let b = raw[4 * i + 2];
    let a = raw[4 * i + 3];
    &&& p.3 == a
    &&& a == 255 ==> p.0 == r && p.1 == g && p.2 == b
    &&& a == 0 ==> p.0 == 0 && p.1 == 0 && p.2 == 0
    &&& channel_premultiplied(r, a, p.0)
    &&& channel_premultiplied(g, a, p.1)
    &&& channel_premultiplied(b, a, p.2)
}

/// Premultiplies the first `width * height` RGBA pixels of `raw`.
pub fn premultiply_pixels(width: u32, height: u32, raw: &Vec<u8>) -> (c: CoverPixels)
    requires
        raw@.len() >= width as int * height as int * 4,
    ensures
        c.width == width,
        c.height == height,
        c.pixels@.len() == width as int * height as int,
        forall|i: int|
            0 <= i < c.pixels@.len() ==> #[trigger] premultiplied_from(c.pixels@[i], raw@, i),
{
    let total = raw.len();
    proof {
        assert(width as int * height as int <= raw@.len()) by (nonlinear_arith)
            requires
                raw@.len() >= width as int * height as int * 4,
        ;
    }
    let n: usize = (width as usize) * (height as usize);
    let mut pixels: Vec<(u8, u8, u8, u8)> = Vec::new();
    let mut i: usize = 0;
    while i < n
        invariant
            n == width as int * height as int,
            raw@.len() >= n * 4,
            raw@.len() == total,
            i <= n,
            pixels@.len() == i,
            forall|k: int| 0 <= k < i ==> #[trigger] premultiplied_from(pixels@[k], raw@, k),
        decreases n - i,
    {
        let base = 4 * i;
        let p = premultiply(raw[base], raw[base + 1], raw[base + 2], raw[base + 3]);
        pixels.push(p);
        i = i + 1;
    }
    CoverPixels { width, height, pixels }
}

/// Whether `c` holds its `width * height` pixels premultiplied, in order,
/// from the straight-alpha RGBA samples `raw`.
pub open spec fn premultiplied_cover(c: CoverPixels, raw: Seq<u8>) -> bool {
    &&& raw.len() >= c.width as int * c.height as int * 4
    &&& c.pixels@.len() == c.width as int * c.height as int
    &&& forall|i: int|
        0 <= i < c.pixels@.len() ==> #[trigger] premultiplied_from(c.pixels@[i], raw, i)
}

/// Decodes a cover picture into premultiplied RGBA pixels: none when the
/// image crate cannot decode it, else the picture at its own size with
/// each of its pixels premultiplied.
pub fn decode_cover_pixels(data: &[u8]) -> (r: Option<CoverPixels>)
    ensures
        r is None <==> decoded_rgba(data@) is None,
        decoded_rgba(data@) matches Some((w, h, raw)) ==> r matches Some(c) && c.width == w
            && c.height == h && premultiplied_cover(c, raw),
{
    match decode_rgba8(data) {
        Some((w, h, raw)) => Some(premultiply_pixels(w, h, &raw)),
        None => None,
    }
}

} // verus!
