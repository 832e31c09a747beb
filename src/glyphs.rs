//! Raster images drawn as bordered blocks of brightness glyphs.
use vstd::prelude::*;
use crate::filter::{acceptable_response, image_response_acceptable};
use crate::text::string_of;

verus! {

#[verifier::external_type_specification]
#[verifier::external_body]
pub struct ExDynamicImage(image::DynamicImage);

/// Glyphs from darkest to lightest.
pub const GLYPH_RAMP: [char; 10] = [' ', '.', ':', '-', '=', '+', '*', '#', '%', '@'];

/// Narrowest block drawn, in cells.
pub const MIN_BLOCK_WIDTH: u32 = 10;

/// Lowest block drawn, in rows.
pub const MIN_BLOCK_HEIGHT: u32 = 5;

/// Highest block drawn, in rows.
pub const MAX_BLOCK_HEIGHT: u32 = 50;

pub open spec fn ramp() -> Seq<char> {
    seq![' ', '.', ':', '-', '=', '+', '*', '#', '%', '@']
}

/// Index into the ramp of a luminance value.
pub open spec fn ramp_index(b: u8) -> int {
    (b as int * 9) / 255
}

pub open spec fn glyph_of(b: u8) -> char {
    ramp()[ramp_index(b)]
}

/// Rows for `width` cells of a source `src_w` by `src_h`, halved because a
/// cell is about twice as tall as it is wide, rounded to the nearest row.
pub open spec fn scaled_height(width: nat, src_w: nat, src_h: nat) -> nat {
    if src_w == 0 {
        0
    } else {
        (width * src_h + src_w) / (2 * src_w)
    }
}

/// Size of the block drawn for a source image, or `None` when it would be
/// narrower than `MIN_BLOCK_WIDTH` or its height falls outside
/// `MIN_BLOCK_HEIGHT..=MAX_BLOCK_HEIGHT`.
pub open spec fn block_size(src_w: u32, src_h: u32, max_width: u32) -> Option<(u32, u32)> {
    let w = if max_width <= src_w {
        max_width
    } else {
        src_w
    };
    let h = scaled_height(w as nat, src_w as nat, src_h as nat);
    if w < MIN_BLOCK_WIDTH || h < MIN_BLOCK_HEIGHT || h > MAX_BLOCK_HEIGHT {
        None
    } else {
        Some((w, h as u32))
    }
}

/// Width and height, in cells, of the block for a `src_w` by `src_h` image.
pub fn target_size(src_w: u32, src_h: u32, max_width: u32) -> (r: Option<(u32, u32)>)
    ensures
        r == block_size(src_w, src_h, max_width),
        r matches Some((w, h)) ==> MIN_BLOCK_WIDTH <= w <= max_width && w <= src_w
            && MIN_BLOCK_HEIGHT <= h <= MAX_BLOCK_HEIGHT,
{
    let w: u32 = if max_width <= src_w {
        max_width
    } else {
        src_w
    };
    if w < MIN_BLOCK_WIDTH {
        return None;
    }
    let wl = w as u64;
    let sw = src_w as u64;
    let sh = src_h as u64;
    assert(wl * sh <= 0xffff_ffff * 0xffff_ffff) by (nonlinear_arith)
        requires
            wl <= 0xffff_ffff,
            sh <= 0xffff_ffff,
    ;
    let h: u64 = (wl * sh + sw) / (2 * sw);
    if h < MIN_BLOCK_HEIGHT as u64 || h > MAX_BLOCK_HEIGHT as u64 {
        return None;
    }
    Some((w, h as u32))
}

/// A source whose scaled height falls outside
/// `MIN_BLOCK_HEIGHT..=MAX_BLOCK_HEIGHT` is not drawn.
pub proof fn lemma_size_rejection(src_w: u32, src_h: u32, max_width: u32)
    requires
        ({
            let w = if max_width <= src_w {
                max_width
            } else {
                src_w
            };
            let h = scaled_height(w as nat, src_w as nat, src_h as nat);
            h < MIN_BLOCK_HEIGHT || h > MAX_BLOCK_HEIGHT
        }),
    ensures
        block_size(src_w, src_h, max_width) is None,
{
}

/// A run of `n` horizontal border glyphs.
pub open spec fn border_run(n: nat) -> Seq<char> {
    Seq::new(n, |i: int| '─')
}

/// One row of glyphs for the luminance values `px`.
pub open spec fn glyph_row(px: Seq<u8>) -> Seq<char> {
    px.map_values(|b: u8| glyph_of(b))
}

/// The first `h` framed rows of a `w`-wide luminance grid.
pub open spec fn framed_rows(w: nat, h: nat, px: Seq<u8>) -> Seq<char>
    decreases h,
{
    if h == 0 {
        seq![]
    } else {
        framed_rows(w, (h - 1) as nat, px) + seq!['│'] + glyph_row(
            px.subrange((h - 1) * w, (h * w) as int),
        ) + seq!['│', '\n']
    }
}

/// The text of a block: a top border, one framed row per grid row, and a
/// bottom border, each ended by a newline.
pub open spec fn block_text(w: nat, h: nat, px: Seq<u8>) -> Seq<char> {
    seq!['┌'] + border_run(w) + seq!['┐', '\n'] + framed_rows(w, h, px) + seq!['└']
        + border_run(w) + seq!['┘', '\n']
}

pub fn push_border(out: &mut Vec<char>, n: u32)
    ensures
        final(out)@ == old(out)@ + border_run(n as nat),
{
    let mut i: u32 = 0;
    while i < n
        invariant
            i <= n,
            out@ == old(out)@ + border_run(i as nat),
        decreases n - i,
    {
        out.push('─');
        i = i + 1;
        assert(border_run(i as nat) =~= border_run((i - 1) as nat).push('─'));
    }
}

/// Draws a `width` by `height` grid of luminance values, row by row, as a
/// bordered glyph block.
pub fn glyph_block(width: u32, height: u32, px: &Vec<u8>) -> (r: String)
    requires
        px@.len() == width * height,
    ensures
        r@ == block_text(width as nat, height as nat, px@),
{
    let ramp_chars = GLYPH_RAMP;
    assert(ramp_chars@ =~= ramp());
    let mut out: Vec<char> = Vec::new();
    out.push('┌');
    push_border(&mut out, width);
    out.push('┐');
    out.push('\n');
    let ghost head = out@;
    let n = px.len();
    let mut y: u32 = 0;
    while y < height
        invariant
            n == px@.len(),
            y <= height,
            px@.len() == width * height,
            ramp_chars@ == ramp(),
            out@ == head + framed_rows(width as nat, y as nat, px@),
        decreases height - y,
    {
        let ghost before = out@;
        out.push('│');
        assert((y as int + 1) * width <= height * width) by (nonlinear_arith)
            requires
                y < height,
        ;
        assert(y as int * width + width == (y as int + 1) * width) by (nonlinear_arith);
        assert((y as int + 1) * width == (y as int + 1) * (width as int));
        assert(height * width == width * height) by (nonlinear_arith);
        let base: usize = (y as usize) * (width as usize);
        let mut x: u32 = 0;
        while x < width
            invariant
                x <= width,
                y < height,
                base == y * width,
                base + width <= px@.len(),
                n == px@.len(),
                ramp_chars@ == ramp(),
                out@ == before + seq!['│'] + glyph_row(px@.subrange(base as int, base + x)),
            decreases width - x,
        {
            let b = px[base + x as usize];
            let idx: usize = (b as usize * 9) / 255;
            out.push(ramp_chars[idx]);
            x = x + 1;
            assert(glyph_row(px@.subrange(base as int, base + x)) =~= glyph_row(
                px@.subrange(base as int, base + x - 1),
            ).push(glyph_of(b)));
        }
        out.push('│');
        out.push('\n');
        y = y + 1;
        assert(out@ =~= head + framed_rows(width as nat, y as nat, px@));
    }
    out.push('└');
    push_border(&mut out, width);
    out.push('┘');
    out.push('\n');
    assert(out@ =~= block_text(width as nat, height as nat, px@));
    string_of(&out)
}

/// Width and height in pixels of the raster image `image::load_from_memory`
/// decodes from `bytes`, or `None` when it cannot decode them.
pub uninterp spec fn decoded_size(bytes: Seq<u8>) -> Option<(u32, u32)>;

/// Relies on `image::load_from_memory` to decode the bytes, and on
/// `image::GenericImageView::dimensions` for the decoded size; the outcome
/// depends on the bytes alone.
#[verifier::external_body]
fn decode_image(bytes: &[u8]) -> (r: Option<(image::DynamicImage, u32, u32)>)
    ensures
        match r {
            Some((_, w, h)) => decoded_size(bytes@) == Some((w, h)),
            None => decoded_size(bytes@) is None,
        },
{
    match image::load_from_memory(bytes) {
        Ok(img) => {
            let (w, h) = image::GenericImageView::dimensions(&img);
            Some((img, w, h))
        },
        Err(_) => None,
    }
}

/// Relies on `image::DynamicImage::resize_exact` (Lanczos filter), which
/// yields a `w` by `h` image, and on `to_luma8` and `into_raw`: one
/// luminance byte per pixel, row by row.
#[verifier::external_body]
fn resized_luma(img: &image::DynamicImage, w: u32, h: u32) -> (r: Vec<u8>)
    requires
        w > 0,
        h > 0,
    ensures
        r@.len() == w * h,
{
    img.resize_exact(w, h, image::imageops::FilterType::Lanczos3).to_luma8().into_raw()
}

/// Size of the block drawn for the image `bytes` decode to, if any.
pub open spec fn converted_size(bytes: Seq<u8>, max_width: u32) -> Option<(u32, u32)> {
    match decoded_size(bytes) {
        Some((sw, sh)) => block_size(sw, sh, max_width),
        None => None,
    }
}

/// Decodes `image_bytes` and draws the picture at most `max_width` cells wide;
/// `None` when decoding fails or the block would be too small or too tall.
pub fn image_to_ascii(image_bytes: &[u8], max_width: u32) -> (r: Option<String>)
    ensures
        r is Some <==> converted_size(image_bytes@, max_width) is Some,
        r matches Some(s) ==> converted_size(image_bytes@, max_width) matches Some((w, h))
            && exists|px: Seq<u8>|
            px.len() == w * h && s@ == block_text(w as nat, h as nat, px),
{
    let (img, src_w, src_h) = match decode_image(image_bytes) {
        Some(d) => d,
        None => {
            return None;
        },
    };
    let (w, h) = match target_size(src_w, src_h, max_width) {
        Some(d) => d,
        None => {
            return None;
        },
    };
    let px = resized_luma(&img, w, h);
    let s = glyph_block(w, h, &px);
    Some(s)
}

/// The block for a fetched response: `None` unless the response passes
/// `image_response_acceptable`; otherwise what `image_to_ascii` makes of the
/// body.
pub fn image_response_to_ascii(content_type: &str, body: &[u8], max_width: u32) -> (r: Option<
    String,
>)
    ensures
        r is Some <==> acceptable_response(content_type@, body@.len()) && converted_size(
            body@,
            max_width,
        ) is Some,
        r matches Some(s) ==> converted_size(body@, max_width) matches Some((w, h))
            && exists|px: Seq<u8>|
            px.len() == w * h && s@ == block_text(w as nat, h as nat, px),
{
    if !image_response_acceptable(content_type, body.len()) {
        return None;
    }
    image_to_ascii(body, max_width)
}

} // verus!
