//! The codec as a drawing tool uses it: pixel rows in, text or image out,
//! and back.

use vstd::prelude::*;
use crate::dna::{
    bits_rows, bytes_bits, codes_in_range, flat_text, is_flat_text, is_grid, rows_bits, rows_of,
    Dna, GRID_SIDE, TEXT_LEN,
};
use crate::encoding::base64_bytes;
use crate::palette::Palette;
use crate::parse::{answers, is_parsed, parse, rows_view, ParseImageError, ParseImageResponse};
use crate::render::{bytes_view, render, rendered, UPSCALE};

verus! {

/// Whether `data` is 64 rows of 64 pixel codes.
pub fn is_pixel_grid(data: &Vec<Vec<u8>>) -> (ok: bool)
    ensures
        ok == is_grid(rows_of(data@)),
{
    if data.len() != GRID_SIDE {
        return false;
    }
    let mut y: usize = 0;
    while y < GRID_SIDE
        invariant
            y <= GRID_SIDE,
            data@.len() == GRID_SIDE,
            forall|r: int| 0 <= r < y ==> (#[trigger] rows_of(data@)[r]).len() == GRID_SIDE,
        decreases GRID_SIDE - y,
    {
        if data[y].len() != GRID_SIDE {
            assert(rows_of(data@)[y as int].len() != GRID_SIDE);
            return false;
        }
        y += 1;
    }
    true
}

/// Whether every pixel code of `data` is below 64.
pub fn has_valid_codes(data: &Vec<Vec<u8>>) -> (ok: bool)
    ensures
        ok == codes_in_range(rows_of(data@)),
{
    let mut y: usize = 0;
    while y < data.len()
        invariant
            y <= data.len(),
            forall|r: int, c: int|
                0 <= r < y && 0 <= c < rows_of(data@)[r].len() ==> #[trigger] rows_of(
                    data@,
                )[r][c] < 64,
        decreases data.len() - y,
    {
        let row = &data[y];
        let mut x: usize = 0;
        while x < row.len()
            invariant
                x <= row.len(),
                y < data.len(),
                row@ == rows_of(data@)[y as int],
                forall|c: int| 0 <= c < x ==> #[trigger] row@[c] < 64,
            decreases row.len() - x,
        {
            if row[x] >= 64 {
                assert(!(rows_of(data@)[y as int][x as int] < 64));
                return false;
            }
            x += 1;
        }
        y += 1;
    }
    true
}

/// Decodes a flat encoding to pixel rows; `None` for malformed input.
pub fn decode_dna(dna: &str) -> (data: Option<Vec<Vec<u8>>>)
    ensures
        data.is_some() <==> is_flat_text(dna@),
        data matches Some(rows) ==> {
            &&& rows_of(rows@) == bits_rows(bytes_bits(base64_bytes(dna@).unwrap()))
            &&& is_grid(rows_of(rows@))
            &&& codes_in_range(rows_of(rows@))
            &&& dna@.len() == TEXT_LEN
        },
{
    match Dna::from_base64(dna) {
        Some(dna) => Some(dna.to_data()),
        None => None,
    }
}

/// Encodes pixel rows as a flat encoding.
pub fn encode_dna(data: Vec<Vec<u8>>) -> (text: String)
    requires
        is_grid(rows_of(data@)),
    ensures
        text@ == flat_text(rows_bits(rows_of(data@))),
        text@.len() == TEXT_LEN,
        is_flat_text(text@),
{
    Dna::from_data(data).to_base64()
}

/// Renders pixel rows as a PNG file, at scale 10 when `upscale` is set and
/// at scale 1 otherwise; `None` where the encoder refuses the image.
pub fn render_image(data: &Vec<Vec<u8>>, upscale: bool, palette: &Palette) -> (png: Option<
    Vec<u8>,
>)
    requires
        is_grid(rows_of(data@)),
        codes_in_range(rows_of(data@)),
    ensures
        bytes_view(png) == rendered(
            palette@,
            rows_of(data@),
            if upscale {
                UPSCALE as int
            } else {
                1
            },
        ),
{
    render(data, upscale, palette)
}

/// Reads the image file `bytes` with the extension `ext` and answers with a
/// status word: `ok` with the pixel rows, or the word of the error.
pub fn parse_image(ext: &str, bytes: &Vec<u8>, palette: &Palette) -> (response: ParseImageResponse)
    ensures
        exists|outcome: Result<Seq<Seq<u8>>, ParseImageError>|
            #[trigger] answers(response.status@, rows_view(response.data), outcome) && is_parsed(
                outcome,
                ext@,
                bytes@,
                palette@,
            ),
{
    parse(ext, bytes, palette)
}

} // verus!
