//! The output image and the assembly of tile results into it.

use vstd::prelude::*;
use vstd::arithmetic::div_mod::{lemma_fundamental_div_mod, lemma_fundamental_div_mod_converse};
use crate::color::ColorRgb;
use crate::tiles::{in_tile, lemma_tiles_cover, tile_spec, tile_width, Tile};

verus! {

/// An RGB image of the `image` crate, eight bits a channel, that the assembler writes into.
#[verifier::external_body]
pub struct Canvas {
    img: image::RgbImage,
}

/// The pixels of a canvas, row by row: the pixel at column `x`, row `y` is at `y * width + x`.
pub uninterp spec fn canvas_pixels(c: Canvas) -> Seq<ColorRgb>;

/// The width and height of a canvas.
pub uninterp spec fn canvas_size(c: Canvas) -> (u32, u32);

/// The channels of `pixels`, three bytes a pixel in the order red, green, blue.
pub open spec fn rgb_bytes(pixels: Seq<ColorRgb>) -> Seq<u8> {
    Seq::new(
        3 * pixels.len(),
        |k: int|
            if k % 3 == 0 {
                pixels[k / 3].0
            } else if k % 3 == 1 {
                pixels[k / 3].1
            } else {
                pixels[k / 3].2
            },
    )
}

/// Relies on image::ImageBuffer::new: an image of the given size whose channels are all zero.
/// It panics where three bytes a pixel do not fit in `usize`, first for one row
/// (`3 * width`) and then for the whole image, which `requires` leaves out.
#[verifier::external_body]
fn new_rgb_image(width: u32, height: u32) -> (c: Canvas)
    requires
        3 * width <= usize::MAX,
        3 * width * height <= usize::MAX,
    ensures
        canvas_size(c) == (width, height),
        canvas_pixels(c) == Seq::new((width * height) as nat, |i: int| (0u8, 0u8, 0u8)),
{
    Canvas { img: image::ImageBuffer::new(width, height) }
}

/// Relies on image::ImageBuffer::dimensions: the width and height the image was made with,
/// which hold `width * height` pixels.
#[verifier::external_body]
fn rgb_image_dimensions(c: &Canvas) -> (r: (u32, u32))
    ensures
        r == canvas_size(*c),
        canvas_pixels(*c).len() == r.0 * r.1,
{
    c.img.dimensions()
}

/// Relies on image::ImageBuffer::put_pixel: replaces the pixel at column `x`, row `y`.
/// It panics outside the image, which `requires` leaves out.
#[verifier::external_body]
fn put_rgb(c: &mut Canvas, x: u32, y: u32, color: ColorRgb)
    requires
        x < canvas_size(*old(c)).0,
        y < canvas_size(*old(c)).1,
    ensures
        canvas_size(*final(c)) == canvas_size(*old(c)),
        canvas_pixels(*final(c)) == canvas_pixels(*old(c)).update(
            y * canvas_size(*old(c)).0 + x,
            color,
        ),
{
    c.img.put_pixel(x, y, image::Rgb([color.0, color.1, color.2]))
}

/// Relies on image::ImageBuffer::into_raw: the image's bytes, row by row, three a pixel.
/// An image made by `ImageBuffer::new` holds no byte beyond its pixels.
#[verifier::external_body]
fn rgb_image_into_raw(c: Canvas) -> (r: Vec<u8>)
    ensures
        r@ == rgb_bytes(canvas_pixels(c)),
{
    c.img.into_raw()
}

impl Canvas {
    /// A black canvas of the given size, or `None` where the bytes of one row or of
    /// the whole image would not fit in `usize`.
    pub fn new(width: u32, height: u32) -> (r: Option<Canvas>)
        ensures
            r is Some <==> (3 * width <= usize::MAX && 3 * width * height <= usize::MAX),
            r matches Some(c) ==> canvas_size(c) == (width, height) && canvas_pixels(c) == Seq::new(
                (width * height) as nat,
                |i: int| (0u8, 0u8, 0u8),
            ),
    {
        proof {
            assert((width as u128) * (height as u128) <= 0xffff_ffff * 0xffff_ffff) by (nonlinear_arith)
                requires width <= 0xffff_ffff, height <= 0xffff_ffff;
        }
        let n: u128 = 3 * ((width as u128) * (height as u128));
        assert(n == 3 * width * height) by (nonlinear_arith)
            requires n == 3 * (width * height);
        if 3 * (width as u128) > usize::MAX as u128 || n > usize::MAX as u128 {
            None
        } else {
            Some(new_rgb_image(width, height))
        }
    }

    /// The canvas's bytes, row by row, three a pixel in the order red, green, blue.
    pub fn into_bytes(self) -> (r: Vec<u8>)
        ensures
            r@ == rgb_bytes(canvas_pixels(self)),
    {
        rgb_image_into_raw(self)
    }
}

/// Why a tile result does not fit an image.
#[derive(Clone, Copy, Debug, PartialEq, Eq, Structural)]
pub enum MergeError {
    /// The tile's columns are not a range within the image.
    TileOutOfBounds,
    /// The result does not hold one colour for each pixel of the tile.
    WrongLength,
}

/// Position, among the colours of tile `t` (row by row within the tile), of the
/// pixel at flat index `i` of an image `width` columns wide.
pub open spec fn tile_index(i: int, width: int, t: Tile) -> int {
    (i / width) * tile_width(t) + (i % width - t.column_start)
}

/// `pixels` with the columns of tile `t` taken from `colors`.
pub open spec fn merged(pixels: Seq<ColorRgb>, width: int, t: Tile, colors: Seq<ColorRgb>) -> Seq<ColorRgb> {
    Seq::new(
        pixels.len(),
        |i: int|
            if in_tile(i % width, t) {
                colors[tile_index(i, width, t)]
            } else {
                pixels[i]
            },
    )
}

spec fn merged_upto(pixels: Seq<ColorRgb>, width: int, t: Tile, colors: Seq<ColorRgb>, n: int) -> Seq<ColorRgb> {
    Seq::new(
        pixels.len(),
        |i: int|
            if in_tile(i % width, t) && tile_index(i, width, t) < n {
                colors[tile_index(i, width, t)]
            } else {
                pixels[i]
            },
    )
}

/// The pixel at column `x`, row `y` has flat index `y * width + x`, and its place
/// in tile `t` is `y * tile_width(t) + (x - column_start)`; no other pixel of the
/// tile has that place.
proof fn lemma_tile_place(width: int, t: Tile, x: int, y: int)
    requires
        0 <= t.column_start,
        t.column_end <= width,
        in_tile(x, t),
        0 <= y,
    ensures
        (y * width + x) % width == x,
        (y * width + x) / width == y,
        tile_index(y * width + x, width, t) == y * tile_width(t) + (x - t.column_start),
        forall|i: int|
            0 <= i && in_tile(i % width, t) && #[trigger] tile_index(i, width, t) == y * tile_width(
                t,
            ) + (x - t.column_start) ==> i == y * width + x,
{
    lemma_fundamental_div_mod_converse(y * width + x, width, y, x);
    assert forall|i: int|
        0 <= i && in_tile(i % width, t) && #[trigger] tile_index(i, width, t) == y * tile_width(t)
            + (x - t.column_start) implies i == y * width + x by {
        let tw = tile_width(t);
        lemma_fundamental_div_mod_converse(
            tile_index(i, width, t),
            tw,
            i / width,
            i % width - t.column_start,
        );
        lemma_fundamental_div_mod_converse(tile_index(i, width, t), tw, y, x - t.column_start);
        lemma_fundamental_div_mod(i, width);
        assert(width * y == y * width) by (nonlinear_arith);
    }
}

/// The place in tile `t` of a pixel of the tile lies within the tile's colours,
/// and leads back to the pixel's column and row.
pub(crate) proof fn lemma_tile_index_inverse(i: int, width: int, height: int, t: Tile)
    requires
        0 <= i < width * height,
        t.column_end <= width,
        in_tile(i % width, t),
    ensures
        0 <= tile_index(i, width, t) < tile_width(t) * height,
        tile_index(i, width, t) % tile_width(t) == i % width - t.column_start,
        tile_index(i, width, t) / tile_width(t) == i / width,
{
    let tw = tile_width(t);
    assert(width > 0) by (nonlinear_arith)
        requires 0 <= i < width * height, width >= 0;
    lemma_fundamental_div_mod(i, width);
    let q = i / width;
    assert(0 <= q < height) by (nonlinear_arith)
        requires width * q + i % width == i, 0 <= i < width * height, 0 <= i % width, width > 0;
    assert((q + 1) * tw <= height * tw && q * tw + tw == (q + 1) * tw && q * tw >= 0
        && height * tw == tw * height) by (nonlinear_arith)
        requires q + 1 <= height, tw > 0, q >= 0;
    lemma_fundamental_div_mod_converse(tile_index(i, width, t), tw, q, i % width - t.column_start);
}

/// Writes the colours of tile `t`, row by row within the tile, into the image at
/// their own columns and rows. The image is left as it was where the tile is not
/// a column range of the image or `colors` has not one colour per pixel of it.
pub fn merge_part(img: &mut Canvas, t: Tile, colors: &Vec<ColorRgb>) -> (r: Result<
    (),
    MergeError,
>)
    ensures
        canvas_size(*final(img)) == canvas_size(*old(img)),
        r == Err::<(), MergeError>(MergeError::TileOutOfBounds) <==> (t.column_start
            > t.column_end || t.column_end > canvas_size(*old(img)).0),
        r == Err::<(), MergeError>(MergeError::WrongLength) <==> (t.column_start
            <= t.column_end <= canvas_size(*old(img)).0 && colors@.len() != tile_width(t)
            * canvas_size(*old(img)).1),
        r is Ok ==> canvas_pixels(*final(img)) == merged(
            canvas_pixels(*old(img)),
            canvas_size(*old(img)).0 as int,
            t,
            colors@,
        ),
        r is Err ==> canvas_pixels(*final(img)) == canvas_pixels(*old(img)),
{
    let (width, height) = rgb_image_dimensions(img);
    if t.column_start > t.column_end || t.column_end > width {
        return Err(MergeError::TileOutOfBounds);
    }
    let tw: u32 = t.column_end - t.column_start;
    proof {
        assert((tw as u64) * (height as u64) <= 0xffff_ffff * 0xffff_ffff) by (nonlinear_arith)
            requires tw <= 0xffff_ffff, height <= 0xffff_ffff;
    }
    if colors.len() as u64 != (tw as u64) * (height as u64) {
        return Err(MergeError::WrongLength);
    }
    let ghost start_pixels = canvas_pixels(*img);
    let ghost w = width as int;
    let n = colors.len();
    let mut pos: usize = 0;
    assert(merged_upto(start_pixels, w, t, colors@, 0) =~= start_pixels);
    while pos < n
        invariant
            n == colors@.len(),
            n == tw * height,
            tw == tile_width(t),
            t.column_start <= t.column_end <= width,
            w == width,
            pos <= n,
            canvas_size(*img) == (width, height),
            start_pixels.len() == width * height,
            canvas_pixels(*img) == merged_upto(start_pixels, w, t, colors@, pos as int),
        decreases n - pos,
    {
        proof {
            assert(tw > 0) by (nonlinear_arith)
                requires pos < tw * height, pos >= 0;
        }
        let col: usize = pos % (tw as usize);
        let row: usize = pos / (tw as usize);
        proof {
            lemma_fundamental_div_mod(pos as int, tw as int);
            assert(row < height) by (nonlinear_arith)
                requires tw * row + col == pos, pos < tw * height, 0 <= col, tw > 0;
        }
        let x: u32 = t.column_start + col as u32;
        let y: u32 = row as u32;
        let ghost before = canvas_pixels(*img);
        put_rgb(img, x, y, colors[pos]);
        proof {
            lemma_tile_place(w, t, x as int, y as int);
            let k = y * w + x;
            assert(0 <= k < width * height) by (nonlinear_arith)
                requires k == y * w + x, y < height, x < w, w == width, 0 <= x, 0 <= y;
            assert(row * tw == tw * row) by (nonlinear_arith);
            assert(tile_index(k, w, t) == pos);
            assert forall|i: int| 0 <= i < start_pixels.len() implies #[trigger] canvas_pixels(
                *img,
            )[i] == merged_upto(start_pixels, w, t, colors@, pos + 1)[i] by {
                if i != k && in_tile(i % w, t) {
                    assert(tile_index(i, w, t) != pos);
                }
            }
            assert(canvas_pixels(*img) =~= merged_upto(
                start_pixels,
                w,
                t,
                colors@,
                pos + 1,
            ));
        }
        pos = pos + 1;
    }
    proof {
        assert forall|i: int| 0 <= i < start_pixels.len() && in_tile(i % w, t) implies tile_index(
            i,
            w,
            t,
        ) < n by {
            lemma_tile_index_inverse(i, w, height as int, t);
        }
        assert(canvas_pixels(*img) =~= merged(start_pixels, w, t, colors@));
    }
    Ok(())
}

/// The colours of tile `t`, row by row within the tile, of the image whose pixel
/// at column `x`, row `y` is `f(x, y)`.
pub open spec fn tile_colors(f: spec_fn(int, int) -> ColorRgb, t: Tile, height: int) -> Seq<ColorRgb> {
    Seq::new(
        (tile_width(t) * height) as nat,
        |p: int| f(t.column_start + p % tile_width(t), p / tile_width(t)),
    )
}

/// The image, `width` by `height`, whose pixel at column `x`, row `y` is `f(x, y)`.
pub open spec fn full_image(f: spec_fn(int, int) -> ColorRgb, width: int, height: int) -> Seq<ColorRgb> {
    Seq::new((width * height) as nat, |i: int| f(i % width, i / width))
}

/// `pixels` after the tile results of `parts` were merged into it, in their order.
pub open spec fn merge_all(pixels: Seq<ColorRgb>, width: int, parts: Seq<(Tile, Seq<ColorRgb>)>) -> Seq<
    ColorRgb,
>
    decreases parts.len(),
{
    if parts.len() == 0 {
        pixels
    } else {
        merged(merge_all(pixels, width, parts.drop_last()), width, parts.last().0, parts.last().1)
    }
}

proof fn lemma_merge_all_len(pixels: Seq<ColorRgb>, width: int, parts: Seq<(Tile, Seq<ColorRgb>)>)
    ensures
        merge_all(pixels, width, parts).len() == pixels.len(),
    decreases parts.len(),
{
    if parts.len() > 0 {
        lemma_merge_all_len(pixels, width, parts.drop_last());
    }
}

proof fn lemma_merge_all_pixel(
    f: spec_fn(int, int) -> ColorRgb,
    width: int,
    height: int,
    pixels: Seq<ColorRgb>,
    parts: Seq<(Tile, Seq<ColorRgb>)>,
    i: int,
)
    requires
        pixels.len() == width * height,
        0 <= i < width * height,
        forall|j: int|
            0 <= j < parts.len() ==> (#[trigger] parts[j]).1 == tile_colors(f, parts[j].0, height)
                && parts[j].0.column_end <= width,
    ensures
        merge_all(pixels, width, parts).len() == pixels.len(),
        merge_all(pixels, width, parts)[i] == if exists|j: int|
            0 <= j < parts.len() && in_tile(i % width, #[trigger] parts[j].0) {
            f(i % width, i / width)
        } else {
            pixels[i]
        },
    decreases parts.len(),
{
    if parts.len() > 0 {
        let rest = parts.drop_last();
        assert forall|j: int| 0 <= j < rest.len() implies (#[trigger] rest[j]).1 == tile_colors(
            f,
            rest[j].0,
            height,
        ) && rest[j].0.column_end <= width by {
            assert(rest[j] == parts[j]);
        }
        lemma_merge_all_pixel(f, width, height, pixels, rest, i);
        let t = parts.last().0;
        let last = parts.len() - 1;
        assert(parts[last] == parts.last());
        if in_tile(i % width, t) {
            lemma_tile_index_inverse(i, width, height, t);
        } else {
            if exists|j: int| 0 <= j < parts.len() && in_tile(i % width, #[trigger] parts[j].0) {
                let j = choose|j: int| 0 <= j < parts.len() && in_tile(i % width, #[trigger] parts[j].0);
                assert(rest[j] == parts[j]);
            }
            if exists|j: int| 0 <= j < rest.len() && in_tile(i % width, #[trigger] rest[j].0) {
                let j = choose|j: int| 0 <= j < rest.len() && in_tile(i % width, #[trigger] rest[j].0);
                assert(rest[j] == parts[j]);
            }
        }
    }
}

/// Some result of `parts` is for tile `t`.
pub open spec fn has_part(parts: Seq<(Tile, Seq<ColorRgb>)>, t: Tile) -> bool {
    exists|j: int| 0 <= j < parts.len() && (#[trigger] parts[j]).0 == t
}

/// Splitting the image into tiles does not change it: whatever the number of
/// equal tiles, merging a result for each of them, in any order of arrival, gives
/// the image whose every pixel is computed on its own.
pub proof fn lemma_tiling_independent(
    f: spec_fn(int, int) -> ColorRgb,
    width: u32,
    height: u32,
    threads: u32,
    pixels: Seq<ColorRgb>,
    parts: Seq<(Tile, Seq<ColorRgb>)>,
)
    requires
        threads > 0,
        width % threads == 0,
        pixels.len() == width * height,
        forall|j: int|
            0 <= j < parts.len() ==> (#[trigger] parts[j]).1 == tile_colors(f, parts[j].0, height as int)
                && parts[j].0.column_end <= width,
        forall|k: int| 0 <= k < threads ==> #[trigger] has_part(parts, tile_spec(width, threads, k)),
    ensures
        merge_all(pixels, width as int, parts) == full_image(f, width as int, height as int),
{
    let w = width as int;
    assert forall|i: int| 0 <= i < w * height implies #[trigger] merge_all(pixels, w, parts)[i]
        == full_image(f, w, height as int)[i] by {
        lemma_merge_all_pixel(f, w, height as int, pixels, parts, i);
        assert(w > 0) by (nonlinear_arith)
            requires 0 <= i < w * height, w >= 0;
        let x = i % w;
        lemma_tiles_cover(width, threads, x);
        let k = x / ((width / threads) as int);
        assert(has_part(parts, tile_spec(width, threads, k)));
        let j = choose|j: int| 0 <= j < parts.len() && (#[trigger] parts[j]).0 == tile_spec(width, threads, k);
        assert(in_tile(x, parts[j].0));
    }
    lemma_merge_all_len(pixels, w, parts);
    assert(merge_all(pixels, w, parts) =~= full_image(f, w, height as int));
}

} // verus!
