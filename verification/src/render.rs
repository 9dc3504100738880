//! From pixel codes to a raster image.
//!
//! Each pixel code becomes its palette colour, and each pixel becomes a
//! square of `scale` by `scale` pixels of that colour, so that the raster is
//! `64 * scale` pixels wide and high.

use vstd::prelude::*;
use crate::dna::{codes_in_range, is_grid, rows_of, GRID_SIDE};
use crate::imaging::{encode_png, png_bytes};
use crate::palette::{Palette, Rgb};

verus! {

/// The largest scale: the raster's bytes must be countable in 32 bits.
pub const MAX_SCALE: usize = 512;

/// The scale of an upscaled image.
pub const UPSCALE: usize = 10;

/// Channel `channel` of a colour: 0 is red, 1 is green, 2 is blue.
pub open spec fn channel_of(color: Rgb, channel: int) -> u8 {
    if channel == 0 {
        color.r
    } else if channel == 1 {
        color.g
    } else {
        color.b
    }
}

/// The bytes of the raster of `rows` at `scale`: three bytes for each
/// pixel, row after row. The pixel in row `y` and column `x` of the raster
/// has the colour of the code in row `y / scale` and column `x / scale` of
/// the grid.
pub open spec fn raster(palette: Seq<Rgb>, rows: Seq<Seq<u8>>, scale: int) -> Seq<u8> {
    let side = GRID_SIDE * scale;
    Seq::new(
        (side * side * 3) as nat,
        |i: int|
            {
                let pixel = i / 3;
                let y = pixel / side;
                let x = pixel % side;
                channel_of(palette[rows[y / scale][x / scale] as int], i % 3)
            },
    )
}

/// Byte `3 * (y * side + x) + channel` is channel `channel` of the pixel in
/// row `y` and column `x`.
pub proof fn lemma_raster_position(side: int, y: int, x: int, channel: int)
    requires
        0 < side,
        0 <= y,
        0 <= x < side,
        0 <= channel < 3,
    ensures
        (3 * (y * side + x) + channel) / 3 == y * side + x,
        (3 * (y * side + x) + channel) % 3 == channel,
        (y * side + x) / side == y,
        (y * side + x) % side == x,
        0 <= y * side + x,
{
    vstd::arithmetic::div_mod::lemma_fundamental_div_mod_converse(y * side + x, side, y, x);
    assert(0 <= y * side) by (nonlinear_arith)
        requires
            0 <= y,
            0 < side,
    ;
}

/// Paints the raster of `rows` at `scale`.
pub fn raster_pixels(rows: &Vec<Vec<u8>>, scale: usize, palette: &Palette) -> (rgb: Vec<u8>)
    requires
        is_grid(rows_of(rows@)),
        codes_in_range(rows_of(rows@)),
        0 < scale <= MAX_SCALE,
    ensures
        rgb@ == raster(palette@, rows_of(rows@), scale as int),
        rgb@.len() == (GRID_SIDE * scale) * (GRID_SIDE * scale) * 3,
{
    let side: usize = GRID_SIDE * scale;
    let ghost grid = rows_of(rows@);
    let ghost wanted = raster(palette@, grid, scale as int);
    let mut rgb: Vec<u8> = Vec::new();
    let mut y: usize = 0;
    assert(side * side * 3 <= 3 * 32768 * 32768) by (nonlinear_arith)
        requires
            side <= 32768,
    ;
    while y < side
        invariant
            y <= side,
            side == GRID_SIDE * scale,
            0 < scale <= MAX_SCALE,
            grid == rows_of(rows@),
            is_grid(grid),
            codes_in_range(grid),
            wanted == raster(palette@, grid, scale as int),
            wanted.len() == side * side * 3,
            rgb@.len() == 3 * (y * side),
            rgb@.len() <= wanted.len(),
            forall|i: int| 0 <= i < rgb@.len() ==> rgb@[i] == wanted[i],
        decreases side - y,
    {
        proof {
            assert(y / scale < GRID_SIDE) by (nonlinear_arith)
                requires
                    y < GRID_SIDE * scale,
                    0 < scale,
            ;
            assert(3 * (y * side) <= side * side * 3) by (nonlinear_arith)
                requires
                    y < side,
            ;
        }
        let row = &rows[y / scale];
        assert(row@ == grid[y as int / scale as int]);
        let mut x: usize = 0;
        while x < side
            invariant
                x <= side,
                y < side,
                side == GRID_SIDE * scale,
                0 < scale <= MAX_SCALE,
                is_grid(grid),
                codes_in_range(grid),
                y / scale < GRID_SIDE,
                row@ == grid[y as int / scale as int],
                wanted == raster(palette@, grid, scale as int),
                wanted.len() == side * side * 3,
                rgb@.len() == 3 * (y * side + x),
                rgb@.len() <= wanted.len(),
                forall|i: int| 0 <= i < rgb@.len() ==> rgb@[i] == wanted[i],
            decreases side - x,
        {
            proof {
                assert(x / scale < GRID_SIDE) by (nonlinear_arith)
                    requires
                        x < GRID_SIDE * scale,
                        0 < scale,
                ;
                lemma_raster_position(side as int, y as int, x as int, 0);
                lemma_raster_position(side as int, y as int, x as int, 1);
                lemma_raster_position(side as int, y as int, x as int, 2);
                assert(3 * (y * side + x) + 3 <= side * side * 3) by (nonlinear_arith)
                    requires
                        y < side,
                        x < side,
                ;
            }
            let code = row[x / scale];
            let color = palette.color(code);
            let ghost before = rgb@;
            rgb.push(color.r);
            rgb.push(color.g);
            rgb.push(color.b);
            proof {
                let at = 3 * (y * side + x);
                assert forall|i: int| 0 <= i < rgb@.len() implies rgb@[i] == wanted[i] by {
                    if i < at {
                        assert(rgb@[i] == before[i]);
                    } else {
                        assert(i == at || i == at + 1 || i == at + 2);
                    }
                }
                assert(3 * (y * side + (x + 1)) == at + 3) by (nonlinear_arith)
                    requires
                        at == 3 * (y * side + x),
                ;
            }
            x += 1;
        }
        proof {
            assert(3 * ((y + 1) * side) == 3 * (y * side + side)) by (nonlinear_arith);
            assert(3 * ((y + 1) * side) <= side * side * 3) by (nonlinear_arith)
                requires
                    y < side,
            ;
        }
        y += 1;
    }
    proof {
        assert(3 * (side * side) == side * side * 3) by (nonlinear_arith);
        assert(rgb@ =~= wanted);
    }
    rgb
}

/// What rendering `rows` at `scale` gives: the PNG file of the raster.
pub open spec fn rendered(palette: Seq<Rgb>, rows: Seq<Seq<u8>>, scale: int) -> Option<Seq<u8>> {
    png_bytes(
        (GRID_SIDE * scale) as u32,
        (GRID_SIDE * scale) as u32,
        raster(palette, rows, scale),
    )
}

/// What an optional byte vector holds.
pub open spec fn bytes_view(bytes: Option<Vec<u8>>) -> Option<Seq<u8>> {
    match bytes {
        Some(bytes) => Some(bytes@),
        None => None,
    }
}

/// Renders `rows` at `scale` as a PNG file; `None` where the encoder
/// refuses the image.
pub fn rasterize(rows: &Vec<Vec<u8>>, scale: usize, palette: &Palette) -> (png: Option<Vec<u8>>)
    requires
        is_grid(rows_of(rows@)),
        codes_in_range(rows_of(rows@)),
        0 < scale <= MAX_SCALE,
    ensures
        bytes_view(png) == rendered(palette@, rows_of(rows@), scale as int),
{
    let side: usize = GRID_SIDE * scale;
    let rgb = raster_pixels(rows, scale, palette);
    encode_png(side as u32, side as u32, rgb)
}

/// Renders pixel rows as a PNG file, at scale 10 when `upscale` is set and
/// at scale 1 otherwise.
pub fn render(data: &Vec<Vec<u8>>, upscale: bool, palette: &Palette) -> (png: Option<Vec<u8>>)
    requires
        is_grid(rows_of(data@)),
        codes_in_range(rows_of(data@)),
    ensures
        bytes_view(png) == rendered(
            palette@,
            rows_of(data@),
            if upscale {
                UPSCALE as int
            } else {
                1
            },
        ),
{
    let scale: usize = if upscale { UPSCALE } else { 1 };
    rasterize(data, scale, palette)
}

} // verus!
