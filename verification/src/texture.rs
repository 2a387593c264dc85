//! Texture images brought to four bytes per pixel (RGBA8) for upload.

use vstd::prelude::*;

verus! {

/// Channel layout of a decoded image.
#[derive(Debug, Clone, Copy, PartialEq, Eq, Structural)]
pub enum PixelFormat {
    /// Red, green, blue, alpha: one byte each.
    R8G8B8A8,
    /// Red, green, blue: one byte each.
    R8G8B8,
    /// Red, green: one byte each.
    R8G8,
    /// Any layout the loader does not convert.
    Other,
}

/// RGB bytes widened to RGBA: each group of three (the last one possibly shorter) followed
/// by an opaque alpha byte.
pub open spec fn rgb_to_rgba(p: Seq<u8>) -> Seq<u8>
    decreases p.len(),
{
    if p.len() == 0 {
        Seq::empty()
    } else {
        let k = if p.len() < 3 { p.len() as int } else { 3 };
        p.take(k) + seq![255u8] + rgb_to_rgba(p.skip(k))
    }
}

/// RG byte pairs widened to RGBA: blue zero, alpha opaque.
pub open spec fn rg_to_rgba(p: Seq<u8>) -> Seq<u8>
    decreases p.len(),
{
    if p.len() < 2 {
        Seq::empty()
    } else {
        seq![p[0], p[1], 0u8, 255u8] + rg_to_rgba(p.skip(2))
    }
}

/// The RGBA bytes of an image of `width x height` pixels in `format`.
pub open spec fn rgba_bytes(format: PixelFormat, width: u32, height: u32, pixels: Seq<u8>) -> Seq<u8> {
    match format {
        PixelFormat::R8G8B8A8 => pixels,
        PixelFormat::R8G8B8 => rgb_to_rgba(pixels),
        PixelFormat::R8G8 => rg_to_rgba(pixels),
        PixelFormat::Other => Seq::new((width * height * 4) as nat, |i: int| 255u8),
    }
}

/// A texture ready for upload: RGBA8 bytes, row by row.
pub struct TextureData {
    pub width: u32,
    pub height: u32,
    pub data: Vec<u8>,
}

fn widen_rgb(pixels: &[u8]) -> (out: Vec<u8>)
    ensures
        out@ == rgb_to_rgba(pixels@),
{
    let mut out: Vec<u8> = Vec::new();
    let mut i: usize = 0;
    assert(pixels@.skip(0) =~= pixels@);
    assert(out@ + rgb_to_rgba(pixels@) =~= rgb_to_rgba(pixels@));
    while i < pixels.len()
        invariant
            i <= pixels@.len(),
            rgb_to_rgba(pixels@) == out@ + rgb_to_rgba(pixels@.skip(i as int)),
        decreases pixels@.len() - i,
    {
        let k: usize = if pixels.len() - i < 3 { pixels.len() - i } else { 3 };
        let ghost rest = pixels@.skip(i as int);
        let ghost start = out@;
        let mut j: usize = 0;
        while j < k
            invariant
                j <= k,
                i + k <= pixels.len(),
                out@ == start + pixels@.subrange(i as int, i + j),
            decreases k - j,
        {
            out.push(pixels[i + j]);
            j = j + 1;
            assert(out@ =~= start + pixels@.subrange(i as int, i + j));
        }
        out.push(255);
        assert(rest.take(k as int) =~= pixels@.subrange(i as int, i + k));
        assert(rest.skip(k as int) =~= pixels@.skip(i + k));
        assert(out@ =~= start + rest.take(k as int) + seq![255u8]);
        i = i + k;
    }
    assert(pixels@.skip(i as int) =~= Seq::<u8>::empty());
    assert(out@ + Seq::<u8>::empty() =~= out@);
    out
}

fn widen_rg(pixels: &[u8]) -> (out: Vec<u8>)
    requires
        pixels@.len() % 2 == 0,
    ensures
        out@ == rg_to_rgba(pixels@),
{
    let mut out: Vec<u8> = Vec::new();
    let mut i: usize = 0;
    assert(pixels@.skip(0) =~= pixels@);
    assert(out@ + rg_to_rgba(pixels@) =~= rg_to_rgba(pixels@));
    while i < pixels.len()
        invariant
            i <= pixels@.len(),
            i % 2 == 0,
            pixels@.len() % 2 == 0,
            rg_to_rgba(pixels@) == out@ + rg_to_rgba(pixels@.skip(i as int)),
        decreases pixels@.len() - i,
    {
        let ghost rest = pixels@.skip(i as int);
        let ghost start = out@;
        out.push(pixels[i]);
        out.push(pixels[i + 1]);
        out.push(0);
        out.push(255);
        assert(rest.skip(2) =~= pixels@.skip(i + 2));
        assert(out@ =~= start + seq![rest[0], rest[1], 0u8, 255u8]);
        i = i + 2;
    }
    assert(pixels@.skip(i as int) =~= Seq::<u8>::empty());
    assert(out@ + Seq::<u8>::empty() =~= out@);
    out
}

impl TextureData {
    /// The texture of a decoded image of `width x height` pixels in `format`; a layout that
    /// is not converted becomes an opaque white image of that size.
    pub fn from_image(width: u32, height: u32, format: PixelFormat, pixels: Vec<u8>) -> (t: Self)
        requires
            format == PixelFormat::R8G8 ==> pixels@.len() % 2 == 0,
            format == PixelFormat::Other ==> width * height * 4 <= u32::MAX,
        ensures
            t.width == width,
            t.height == height,
            t.data@ == rgba_bytes(format, width, height, pixels@),
            format == PixelFormat::R8G8B8A8 ==> t.data@ == pixels@,
            format == PixelFormat::R8G8B8 && pixels@.len() % 3 == 0 ==> {
                &&& t.data@.len() == pixels@.len() / 3 * 4
                &&& forall|i: int, c: int|
                    0 <= i < pixels@.len() / 3 && 0 <= c < 3 ==> #[trigger] t.data@[4 * i + c] == pixels@[3 * i + c]
                &&& forall|i: int| 0 <= i < pixels@.len() / 3 ==> #[trigger] t.data@[4 * i + 3] == 255
            },
            format == PixelFormat::R8G8 ==> {
                &&& t.data@.len() == pixels@.len() / 2 * 4
                &&& forall|i: int|
                    0 <= i < pixels@.len() / 2 ==> #[trigger] t.data@[4 * i] == pixels@[2 * i] && t.data@[4 * i + 1]
                        == pixels@[2 * i + 1] && t.data@[4 * i + 2] == 0 && t.data@[4 * i + 3] == 255
            },
            format == PixelFormat::Other ==> t.data@.len() == width * height * 4 && forall|i: int|
                0 <= i < t.data@.len() ==> #[trigger] t.data@[i] == 255,
    {
        let data = match format {
            PixelFormat::R8G8B8A8 => pixels,
            PixelFormat::R8G8B8 => widen_rgb(pixels.as_slice()),
            PixelFormat::R8G8 => widen_rg(pixels.as_slice()),
            PixelFormat::Other => {
                proof {
                    assert(0 <= width * height <= width * height * 4) by (nonlinear_arith);
                }
                let n = (width * height * 4) as usize;
                let mut v: Vec<u8> = Vec::new();
                let mut i: usize = 0;
                while i < n
                    invariant
                        i <= n,
                        v@ == Seq::new(i as nat, |j: int| 255u8),
                    decreases n - i,
                {
                    v.push(255);
                    i = i + 1;
                }
                v
            },
        };
        proof {
            if format == PixelFormat::R8G8B8 && pixels@.len() % 3 == 0 {
                lemma_rgb_texture(width, height, pixels@);
            }
            if format == PixelFormat::R8G8 {
                lemma_rg_pixel_count(pixels@);
                assert forall|i: int| 0 <= i < pixels@.len() / 2 implies #[trigger] data@[4 * i] == pixels@[2 * i]
                    && data@[4 * i + 1] == pixels@[2 * i + 1] && data@[4 * i + 2] == 0 && data@[4 * i + 3] == 255 by {
                    lemma_rg_pixel(pixels@, i);
                }
            }
        }
        TextureData { width, height, data }
    }
}

/// Complete RGB input widens to four bytes per pixel: `len / 3` pixels.
pub proof fn lemma_rgb_pixel_count(p: Seq<u8>)
    requires
        p.len() % 3 == 0,
    ensures
        rgb_to_rgba(p).len() == p.len() / 3 * 4,
    decreases p.len(),
{
    if p.len() > 0 {
        assert(p.skip(3).len() == p.len() - 3);
        lemma_rgb_pixel_count(p.skip(3));
    }
}

/// Pixel `i` of complete RGB input becomes bytes `4i .. 4i + 4` of the widened data: its
/// three colour bytes `3i .. 3i + 3` in order, then opaque alpha.
pub proof fn lemma_rgb_pixel(p: Seq<u8>, i: int)
    requires
        0 <= i,
        3 * i + 3 <= p.len(),
    ensures
        4 * i + 4 <= rgb_to_rgba(p).len(),
        rgb_to_rgba(p)[4 * i] == p[3 * i],
        rgb_to_rgba(p)[4 * i + 1] == p[3 * i + 1],
        rgb_to_rgba(p)[4 * i + 2] == p[3 * i + 2],
        rgb_to_rgba(p)[4 * i + 3] == 255,
    decreases i,
{
    assert(p.take(3).len() == 3);
    if i > 0 {
        lemma_rgb_pixel(p.skip(3), i - 1);
        assert(rgb_to_rgba(p) == p.take(3) + seq![255u8] + rgb_to_rgba(p.skip(3)));
    }
}

/// An RGB image whose buffer holds `n` whole pixels becomes an RGBA texture of `4 n` bytes
/// in which pixel `i` has the colour bytes of source pixel `i` and opaque alpha.
pub proof fn lemma_rgb_texture(width: u32, height: u32, pixels: Seq<u8>)
    requires
        pixels.len() % 3 == 0,
    ensures
        rgba_bytes(PixelFormat::R8G8B8, width, height, pixels).len() == pixels.len() / 3 * 4,
        forall|i: int, c: int|
            0 <= i < pixels.len() / 3 && 0 <= c < 3 ==> #[trigger] rgba_bytes(PixelFormat::R8G8B8, width, height, pixels)[4 * i + c]
                == pixels[3 * i + c],
        forall|i: int|
            0 <= i < pixels.len() / 3 ==> #[trigger] rgba_bytes(PixelFormat::R8G8B8, width, height, pixels)[4 * i + 3] == 255,
{
    lemma_rgb_pixel_count(pixels);
    assert forall|i: int, c: int|
        0 <= i < pixels.len() / 3 && 0 <= c < 3 implies #[trigger] rgba_bytes(PixelFormat::R8G8B8, width, height, pixels)[4 * i + c]
            == pixels[3 * i + c] by {
        lemma_rgb_pixel(pixels, i);
    }
    assert forall|i: int|
        0 <= i < pixels.len() / 3 implies #[trigger] rgba_bytes(PixelFormat::R8G8B8, width, height, pixels)[4 * i + 3] == 255 by {
        lemma_rgb_pixel(pixels, i);
    }
}

/// Pixel `i` of RG input becomes bytes `4i .. 4i + 4` of the widened data: red and green
/// bytes `2i`, `2i + 1`, then zero blue and opaque alpha.
pub proof fn lemma_rg_pixel(p: Seq<u8>, i: int)
    requires
        0 <= i,
        2 * i + 2 <= p.len(),
    ensures
        4 * i + 4 <= rg_to_rgba(p).len(),
        rg_to_rgba(p)[4 * i] == p[2 * i],
        rg_to_rgba(p)[4 * i + 1] == p[2 * i + 1],
        rg_to_rgba(p)[4 * i + 2] == 0,
        rg_to_rgba(p)[4 * i + 3] == 255,
    decreases i,
{
    if i > 0 {
        lemma_rg_pixel(p.skip(2), i - 1);
    }
}

/// RG input widens to four bytes per pair: `len / 2` pixels.
pub proof fn lemma_rg_pixel_count(p: Seq<u8>)
    ensures
        rg_to_rgba(p).len() == p.len() / 2 * 4,
    decreases p.len(),
{
    if p.len() >= 2 {
        lemma_rg_pixel_count(p.skip(2));
    }
}

/// Every fourth byte of widened RG data, starting at the fourth, is opaque alpha.
pub proof fn lemma_rg_alpha_opaque(p: Seq<u8>, i: int)
    requires
        0 <= i,
        4 * i + 3 < rg_to_rgba(p).len(),
    ensures
        rg_to_rgba(p)[4 * i + 3] == 255,
    decreases p.len(),
{
    if i > 0 {
        lemma_rg_alpha_opaque(p.skip(2), i - 1);
    }
}

} // verus!
