//! Rendering: the colours of one tile, and a whole image tile by tile.

use vstd::prelude::*;
use vstd::arithmetic::div_mod::lemma_fundamental_div_mod_converse;
use crate::color::ColorRgb;
use crate::raster::{
    canvas_pixels, canvas_size, lemma_tile_index_inverse, merge_part, tile_index, Canvas, MergeError,
};
use crate::tiles::{in_tile, partition, tile_spec, tile_width, PartitionError, Tile};

verus! {

/// Why an image could not be rendered.
#[derive(Clone, Copy, Debug, PartialEq, Eq, Structural)]
pub enum RenderError {
    /// The width cannot be split into the tiles asked for.
    Partition(PartitionError),
    /// The bytes of one row or of the whole image would not fit in `usize`.
    TooLarge,
}

/// `colors` holds, row by row within tile `t`, a colour that `pixel` may give for
/// each of the tile's pixels.
pub open spec fn tile_rendered<F: Fn(u32, u32) -> ColorRgb>(
    pixel: F,
    t: Tile,
    height: u32,
    colors: Seq<ColorRgb>,
) -> bool {
    &&& colors.len() == tile_width(t) * height
    &&& forall|p: int|
        0 <= p < colors.len() ==> pixel.ensures(
            ((t.column_start + p % tile_width(t)) as u32, (p / tile_width(t)) as u32),
            #[trigger] colors[p],
        )
}

/// `pixels` holds, row by row, a colour that `pixel` may give for each pixel of a
/// `width` by `height` image.
pub open spec fn image_rendered<F: Fn(u32, u32) -> ColorRgb>(
    pixel: F,
    width: u32,
    height: u32,
    pixels: Seq<ColorRgb>,
) -> bool {
    &&& pixels.len() == width * height
    &&& forall|i: int|
        0 <= i < pixels.len() ==> pixel.ensures(
            ((i % width as int) as u32, (i / width as int) as u32),
            #[trigger] pixels[i],
        )
}

/// The colours of tile `t` over rows `0..height`, row by row within the tile:
/// `pixel(x, y)` for each column `x` of the tile and each row `y`.
pub fn render_tile<F: Fn(u32, u32) -> ColorRgb>(t: Tile, height: u32, pixel: &F) -> (r: Vec<
    ColorRgb,
>)
    requires
        t.column_start <= t.column_end,
        forall|x: u32, y: u32| #[trigger] pixel.requires((x, y)),
    ensures
        tile_rendered(*pixel, t, height, r@),
{
    let tw: u32 = t.column_end - t.column_start;
    let mut v: Vec<ColorRgb> = Vec::new();
    let mut y: u32 = 0;
    while y < height
        invariant
            t.column_start <= t.column_end,
            tw == tile_width(t),
            y <= height,
            v@.len() == y * tw,
            forall|x: u32, y: u32| #[trigger] pixel.requires((x, y)),
            forall|p: int|
                0 <= p < v@.len() ==> pixel.ensures(
                    ((t.column_start + p % tile_width(t)) as u32, (p / tile_width(t)) as u32),
                    #[trigger] v@[p],
                ),
        decreases height - y,
    {
        let mut x: u32 = t.column_start;
        while x < t.column_end
            invariant
                t.column_start <= x <= t.column_end,
                tw == tile_width(t),
                y < height,
                v@.len() == y * tw + (x - t.column_start),
                forall|x: u32, y: u32| #[trigger] pixel.requires((x, y)),
                forall|p: int|
                    0 <= p < v@.len() ==> pixel.ensures(
                        ((t.column_start + p % tile_width(t)) as u32, (p / tile_width(t)) as u32),
                        #[trigger] v@[p],
                    ),
            decreases t.column_end - x,
        {
            let c = pixel(x, y);
            proof {
                let p = y * tw + (x - t.column_start);
                assert(y * tw == tw * y) by (nonlinear_arith);
                lemma_fundamental_div_mod_converse(p, tw as int, y as int, x - t.column_start);
            }
            v.push(c);
            x = x + 1;
        }
        proof {
            assert(y * tw + tw == (y + 1) * tw) by (nonlinear_arith);
        }
        y = y + 1;
    }
    proof {
        assert(y * tw == tile_width(t) * height) by (nonlinear_arith)
            requires y == height, tw == tile_width(t);
    }
    v
}

/// Renders a `width` by `height` image with `pixel(x, y)` the colour of the pixel at
/// column `x`, row `y`, computing it tile by tile over `threads` equal column tiles
/// and merging each tile into a black canvas.
pub fn render<F: Fn(u32, u32) -> ColorRgb>(width: u32, height: u32, threads: u32, pixel: &F) -> (r:
    Result<Canvas, RenderError>)
    requires
        forall|x: u32, y: u32| #[trigger] pixel.requires((x, y)),
    ensures
        r == Err::<Canvas, RenderError>(RenderError::Partition(PartitionError::NoWorkers))
            <==> threads == 0,
        r == Err::<Canvas, RenderError>(RenderError::Partition(PartitionError::Indivisible))
            <==> (threads > 0 && width % threads != 0),
        r == Err::<Canvas, RenderError>(RenderError::TooLarge) <==> (threads > 0 && width % threads
            == 0 && (3 * width > usize::MAX || 3 * width * height > usize::MAX)),
        r matches Ok(c) ==> canvas_size(c) == (width, height) && image_rendered(
            *pixel,
            width,
            height,
            canvas_pixels(c),
        ),
{
    let tiles = match partition(width, threads) {
        Ok(v) => v,
        Err(e) => {
            return Err(RenderError::Partition(e));
        },
    };
    let mut canvas = match Canvas::new(width, height) {
        Some(c) => c,
        None => {
            return Err(RenderError::TooLarge);
        },
    };
    let ghost w = width as int;
    let ghost tw = (width / threads) as int;
    proof {
        assert(threads * tw == width) by (nonlinear_arith)
            requires tw == (width / threads) as int, width % threads == 0, threads > 0;
    }
    let mut k: usize = 0;
    proof {
        assert forall|i: int|
            0 <= i < width * height && i % w < k * tw implies pixel.ensures(
            ((i % w) as u32, (i / w) as u32),
            #[trigger] canvas_pixels(canvas)[i],
        ) by {
            assert(w > 0) by (nonlinear_arith)
                requires 0 <= i < w * height, w >= 0;
            assert(i % w >= 0);
        }
    }
    while k < tiles.len()
        invariant
            threads > 0,
            width % threads == 0,
            w == width,
            tw == (width / threads) as int,
            threads * tw == width,
            k <= threads,
            tiles@.len() == threads,
            forall|j: int| 0 <= j < threads ==> #[trigger] tiles@[j] == tile_spec(width, threads, j),
            forall|x: u32, y: u32| #[trigger] pixel.requires((x, y)),
            canvas_size(canvas) == (width, height),
            canvas_pixels(canvas).len() == width * height,
            forall|i: int|
                0 <= i < width * height && i % w < k * tw ==> pixel.ensures(
                    ((i % w) as u32, (i / w) as u32),
                    #[trigger] canvas_pixels(canvas)[i],
                ),
        decreases threads - k,
    {
        let t = tiles[k];
        proof {
            assert(t == tile_spec(width, threads, k as int));
            assert(k * tw + tw == (k + 1) * tw && (k + 1) * tw <= threads * tw && 0 <= k * tw)
                by (nonlinear_arith)
                requires k < threads, tw >= 0;
            assert(t.column_start == k * tw);
            assert(t.column_end == (k + 1) * tw);
            assert(t.column_start <= t.column_end <= width);
        }
        let colors = render_tile(t, height, pixel);
        let ghost before = canvas_pixels(canvas);
        let res = merge_part(&mut canvas, t, &colors);
        assert(colors@.len() == tile_width(t) * height);
        proof {
            if let Err(e) = res {
                match e {
                    MergeError::TileOutOfBounds => {},
                    MergeError::WrongLength => {},
                }
            }
        }
        proof {
            assert forall|i: int|
                0 <= i < width * height && i % w < (k + 1) * tw implies pixel.ensures(
                ((i % w) as u32, (i / w) as u32),
                #[trigger] canvas_pixels(canvas)[i],
            ) by {
                if in_tile(i % w, t) {
                    lemma_tile_index_inverse(i, w, height as int, t);
                    let p = tile_index(i, w, t);
                    assert(pixel.ensures(
                        ((t.column_start + p % tile_width(t)) as u32, (p / tile_width(t)) as u32),
                        colors@[p],
                    ));
                }
            }
        }
        k = k + 1;
    }
    proof {
        assert forall|i: int| 0 <= i < canvas_pixels(canvas).len() implies pixel.ensures(
            ((i % width as int) as u32, (i / width as int) as u32),
            #[trigger] canvas_pixels(canvas)[i],
        ) by {
            assert(w > 0) by (nonlinear_arith)
                requires 0 <= i < w * height, w >= 0;
            assert(i % w < w);
            assert(i % w < k * tw);
        }
    }
    Ok(canvas)
}

/// Rendering does not depend on how many tiles the image is split into: where
/// `pixel` gives one colour for each pixel, renderings with any numbers of tiles
/// hold the same pixels.
pub proof fn lemma_render_independent_of_tiles<F: Fn(u32, u32) -> ColorRgb>(
    pixel: F,
    width: u32,
    height: u32,
    a: Seq<ColorRgb>,
    b: Seq<ColorRgb>,
)
    requires
        forall|x: u32, y: u32, c: ColorRgb, d: ColorRgb|
            pixel.ensures((x, y), c) && pixel.ensures((x, y), d) ==> c == d,
        image_rendered(pixel, width, height, a),
        image_rendered(pixel, width, height, b),
    ensures
        a == b,
{
    assert forall|i: int| 0 <= i < a.len() implies a[i] == b[i] by {
        assert(pixel.ensures(((i % width as int) as u32, (i / width as int) as u32), a[i]));
        assert(pixel.ensures(((i % width as int) as u32, (i / width as int) as u32), b[i]));
    }
    assert(a =~= b);
}

/// Rendering a tile is repeatable: where `pixel` gives one colour for each pixel,
/// two renderings of the same tile over the same rows hold the same colours.
pub proof fn lemma_render_tile_repeatable<F: Fn(u32, u32) -> ColorRgb>(
    pixel: F,
    t: Tile,
    height: u32,
    a: Seq<ColorRgb>,
    b: Seq<ColorRgb>,
)
    requires
        forall|x: u32, y: u32, c: ColorRgb, d: ColorRgb|
            pixel.ensures((x, y), c) && pixel.ensures((x, y), d) ==> c == d,
        tile_rendered(pixel, t, height, a),
        tile_rendered(pixel, t, height, b),
    ensures
        a == b,
{
    assert forall|p: int| 0 <= p < a.len() implies a[p] == b[p] by {
        let args = ((t.column_start + p % tile_width(t)) as u32, (p / tile_width(t)) as u32);
        assert(pixel.ensures(args, a[p]));
        assert(pixel.ensures(args, b[p]));
    }
    assert(a =~= b);
}

} // verus!
