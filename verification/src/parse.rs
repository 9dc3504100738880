//! From a raster image to pixel codes.
//!
//! An image file is taken in one of three containers, named by the file's
//! extension. It must be 64 by 64 pixels, and every pixel must have a colour
//! of the palette.

use vstd::prelude::*;
use vstd::string::*;
use crate::dna::{codes_in_range, is_grid, rows_of, GRID_SIDE, PIXEL_COUNT};
use crate::imaging::{
    bmp_pixels, bmp_size, jpeg_size, png_pixels, png_size, read_bmp_pixels, read_bmp_size,
    read_jpeg_pixels, read_jpeg_size, read_png_pixels, read_png_size,
};
use crate::palette::{code_of, has_color, is_palette, lemma_code_of, Palette, Rgb};
use crate::render::{channel_of, raster};

verus! {

/// Bytes of the pixels of a 64 by 64 image, three to a pixel.
pub const RASTER_BYTES: usize = 12_288;

/// The containers that are read.
#[derive(Debug, Clone, Copy, PartialEq, Eq)]
pub enum ImageExtension {
    Png,
    Jpeg,
    Bmp,
}

/// Why an image was not taken.
#[derive(Debug, Clone, Copy, PartialEq, Eq)]
pub enum ParseImageError {
    /// The extension names no container that is read.
    UnsupportedExtension,
    /// The file is not an image of the container that its extension names.
    DecodeError,
    /// The image is not 64 by 64 pixels.
    WrongDimensions,
    /// A pixel has a colour that the palette has not.
    WrongPalette,
}

/// What is answered to a request to read an image: a status word, and the
/// pixel rows when the status is `ok`.
#[derive(Debug)]
pub struct ParseImageResponse {
    pub status: String,
    pub data: Option<Vec<Vec<u8>>>,
}

/// The container that the extension `ext` names.
pub open spec fn extension_of(ext: Seq<char>) -> Option<ImageExtension> {
    if ext == "png"@ {
        Some(ImageExtension::Png)
    } else if ext == "jpg"@ || ext == "jpeg"@ {
        Some(ImageExtension::Jpeg)
    } else if ext == "bmp"@ {
        Some(ImageExtension::Bmp)
    } else {
        None
    }
}

/// The width and height that the header of an image file gives.
pub open spec fn image_size(format: ImageExtension, bytes: Seq<u8>) -> Option<(u32, u32)> {
    match format {
        ImageExtension::Png => png_size(bytes),
        ImageExtension::Jpeg => jpeg_size(bytes),
        ImageExtension::Bmp => bmp_size(bytes),
    }
}

/// `pixels` can be what decoding the image file `bytes` gives: for PNG and
/// BMP the pixels of the file; for JPEG, whose decoder works by the
/// machine, whatever came.
pub open spec fn is_decoding(format: ImageExtension, bytes: Seq<u8>, pixels: Option<Seq<u8>>) -> bool {
    match format {
        ImageExtension::Png => pixels == png_pixels(bytes),
        ImageExtension::Jpeg => true,
        ImageExtension::Bmp => pixels == bmp_pixels(bytes),
    }
}

/// The colour of pixel `k` of a raster.
pub open spec fn pixel_color(rgb: Seq<u8>, k: int) -> Rgb {
    Rgb { r: rgb[3 * k], g: rgb[3 * k + 1], b: rgb[3 * k + 2] }
}

/// Every pixel of a 64 by 64 raster has a colour of the palette.
pub open spec fn all_in_palette(palette: Seq<Rgb>, rgb: Seq<u8>) -> bool {
    forall|k: int| 0 <= k < PIXEL_COUNT ==> has_color(palette, #[trigger] pixel_color(rgb, k))
}

/// The pixel rows of a 64 by 64 raster: the code of each pixel's colour.
/// `None` where a pixel has a colour that the palette has not.
pub open spec fn quantized(palette: Seq<Rgb>, rgb: Seq<u8>) -> Option<Seq<Seq<u8>>> {
    if all_in_palette(palette, rgb) {
        Some(
            Seq::new(
                GRID_SIDE as nat,
                |y: int|
                    Seq::new(
                        GRID_SIDE as nat,
                        |x: int| code_of(palette, pixel_color(rgb, 64 * y + x)).unwrap(),
                    ),
            ),
        )
    } else {
        None
    }
}

/// What the decoded pixels of an image of 64 by 64 pixels give: the pixel
/// rows, `DecodeError` where there are no pixels or not 64 by 64 of them,
/// `WrongPalette` where a pixel has a colour that the palette has not.
pub open spec fn quantized_result(pixels: Option<Seq<u8>>, palette: Seq<Rgb>) -> Result<
    Seq<Seq<u8>>,
    ParseImageError,
> {
    match pixels {
        None => Err(ParseImageError::DecodeError),
        Some(rgb) => if rgb.len() != RASTER_BYTES {
            Err(ParseImageError::DecodeError)
        } else {
            match quantized(palette, rgb) {
                Some(rows) => Ok(rows),
                None => Err(ParseImageError::WrongPalette),
            }
        },
    }
}

/// What reading the image file `bytes` with the extension `ext` gives,
/// where decoding it gives `pixels`.
pub open spec fn parsed(
    ext: Seq<char>,
    bytes: Seq<u8>,
    palette: Seq<Rgb>,
    pixels: Option<Seq<u8>>,
) -> Result<Seq<Seq<u8>>, ParseImageError> {
    match extension_of(ext) {
        None => Err(ParseImageError::UnsupportedExtension),
        Some(format) => match image_size(format, bytes) {
            None => Err(ParseImageError::DecodeError),
            Some(size) => if size != (64u32, 64u32) {
                Err(ParseImageError::WrongDimensions)
            } else {
                quantized_result(pixels, palette)
            },
        },
    }
}

/// `outcome` is what reading the image file `bytes` with the extension
/// `ext` can come to: what its pixels give, for pixels that decoding it
/// can give.
pub open spec fn is_parsed(
    outcome: Result<Seq<Seq<u8>>, ParseImageError>,
    ext: Seq<char>,
    bytes: Seq<u8>,
    palette: Seq<Rgb>,
) -> bool {
    exists|pixels: Option<Seq<u8>>|
        outcome == #[trigger] parsed(ext, bytes, palette, pixels) && (extension_of(ext) matches Some(
            format,
        ) ==> is_decoding(format, bytes, pixels))
}

/// `status` and `data` answer for `outcome`: the status word of the
/// outcome, and the pixel rows where there are any.
pub open spec fn answers(
    status: Seq<char>,
    data: Option<Seq<Seq<u8>>>,
    outcome: Result<Seq<Seq<u8>>, ParseImageError>,
) -> bool {
    &&& status == status_of(outcome)
    &&& data == match outcome {
        Ok(rows) => Some(rows),
        Err(_) => None,
    }
}

/// What optional bytes hold.
pub open spec fn bytes_of(bytes: Option<Vec<u8>>) -> Option<Seq<u8>> {
    match bytes {
        Some(bytes) => Some(bytes@),
        None => None,
    }
}

/// What optional pixel rows hold.
pub open spec fn rows_view(rows: Option<Vec<Vec<u8>>>) -> Option<Seq<Seq<u8>>> {
    match rows {
        Some(rows) => Some(rows_of(rows@)),
        None => None,
    }
}

/// What a result of pixel rows holds.
pub open spec fn rows_result(rows: Result<Vec<Vec<u8>>, ParseImageError>) -> Result<
    Seq<Seq<u8>>,
    ParseImageError,
> {
    match rows {
        Ok(rows) => Ok(rows_of(rows@)),
        Err(error) => Err(error),
    }
}

/// The status word of a result.
pub open spec fn status_of(result: Result<Seq<Seq<u8>>, ParseImageError>) -> Seq<char> {
    match result {
        Ok(_) => "ok"@,
        Err(ParseImageError::UnsupportedExtension) => "unsupported_extension"@,
        Err(ParseImageError::DecodeError) => "decode_error"@,
        Err(ParseImageError::WrongDimensions) => "wrong_dimensions"@,
        Err(ParseImageError::WrongPalette) => "wrong_palette"@,
    }
}

/// Reading the raster that was painted at scale 1 from pixel rows gives
/// the rows back, for every 64 by 64 grid of codes below 64.
pub proof fn law_raster_round_trip(palette: Seq<Rgb>, rows: Seq<Seq<u8>>)
    requires
        is_palette(palette),
        is_grid(rows),
        codes_in_range(rows),
    ensures
        raster(palette, rows, 1).len() == RASTER_BYTES,
        quantized(palette, raster(palette, rows, 1)) == Some(rows),
{
    let rgb = raster(palette, rows, 1);
    assert forall|k: int| 0 <= k < PIXEL_COUNT implies #[trigger] pixel_color(rgb, k)
        == palette[rows[k / 64][k % 64] as int] by {
        let color = palette[rows[k / 64][k % 64] as int];
        assert(rgb[3 * k] == channel_of(color, 0));
        assert(rgb[3 * k + 1] == channel_of(color, 1));
        assert(rgb[3 * k + 2] == channel_of(color, 2));
    }
    assert forall|k: int| 0 <= k < PIXEL_COUNT implies has_color(
        palette,
        #[trigger] pixel_color(rgb, k),
    ) by {
        let code = rows[k / 64][k % 64] as int;
        assert(palette[code] == pixel_color(rgb, k));
    }
    let back = quantized(palette, rgb).unwrap();
    assert forall|y: int| 0 <= y < GRID_SIDE implies #[trigger] back[y] == rows[y] by {
        assert forall|x: int| 0 <= x < GRID_SIDE implies back[y][x] == rows[y][x] by {
            let k = 64 * y + x;
            assert(pixel_color(rgb, k) == palette[rows[k / 64][k % 64] as int]);
            lemma_code_of(palette, rows[y][x] as int);
        }
        assert(back[y] =~= rows[y]);
    }
    assert(back =~= rows);
}

impl ImageExtension {
    /// The container that the extension `s` names: `png`, `jpg` or `jpeg`,
    /// or `bmp`.
    pub fn from_str(s: &str) -> (format: Result<ImageExtension, ParseImageError>)
        ensures
            match format {
                Ok(f) => extension_of(s@) == Some(f),
                Err(error) => extension_of(s@).is_none() && error
                    == ParseImageError::UnsupportedExtension,
            },
    {
        let ext = s.to_owned();
        if ext == "png".to_owned() {
            Ok(ImageExtension::Png)
        } else if ext == "jpg".to_owned() || ext == "jpeg".to_owned() {
            Ok(ImageExtension::Jpeg)
        } else if ext == "bmp".to_owned() {
            Ok(ImageExtension::Bmp)
        } else {
            Err(ParseImageError::UnsupportedExtension)
        }
    }

    /// The width and height that the header of the file gives, if it has
    /// the header of this container.
    pub fn dimensions(&self, bytes: &Vec<u8>) -> (size: Option<(u32, u32)>)
        ensures
            size == image_size(*self, bytes@),
    {
        match self {
            ImageExtension::Png => read_png_size(bytes),
            ImageExtension::Jpeg => read_jpeg_size(bytes),
            ImageExtension::Bmp => read_bmp_size(bytes),
        }
    }

    /// The pixels of the file as red, green and blue bytes, if it is an
    /// image of this container. The decoders allocate by the size that the
    /// file's header gives, so the header must give 64 by 64 pixels.
    fn decode(&self, bytes: &Vec<u8>) -> (rgb: Option<Vec<u8>>)
        requires
            image_size(*self, bytes@) == Some((64u32, 64u32)),
        ensures
            is_decoding(*self, bytes@, bytes_of(rgb)),
    {
        match self {
            ImageExtension::Png => read_png_pixels(bytes),
            ImageExtension::Jpeg => read_jpeg_pixels(bytes),
            ImageExtension::Bmp => read_bmp_pixels(bytes),
        }
    }
}

/// Reads the pixel rows of a 64 by 64 raster: the code of each pixel's
/// colour. Returns `None` where a pixel has a colour that the palette has
/// not.
pub fn quantize_pixels(rgb: &Vec<u8>, palette: &Palette) -> (rows: Option<Vec<Vec<u8>>>)
    requires
        rgb@.len() == RASTER_BYTES,
    ensures
        rows_view(rows) == quantized(palette@, rgb@),
        rows matches Some(r) ==> is_grid(rows_of(r@)) && codes_in_range(rows_of(r@)),
{
    let mut rows: Vec<Vec<u8>> = Vec::new();
    let mut y: usize = 0;
    while y < GRID_SIDE
        invariant
            y <= GRID_SIDE,
            rgb@.len() == RASTER_BYTES,
            rows@.len() == y,
            forall|k: int| 0 <= k < 64 * y ==> has_color(palette@, #[trigger] pixel_color(rgb@, k)),
            forall|r: int|
                0 <= r < y ==> (#[trigger] rows@[r])@.len() == GRID_SIDE && forall|c: int|
                    0 <= c < GRID_SIDE ==> code_of(palette@, pixel_color(rgb@, 64 * r + c))
                        == Some(#[trigger] rows@[r]@[c]) && rows@[r]@[c] < 64,
        decreases GRID_SIDE - y,
    {
        let mut row: Vec<u8> = Vec::new();
        let mut x: usize = 0;
        while x < GRID_SIDE
            invariant
                x <= GRID_SIDE,
                y < GRID_SIDE,
                rgb@.len() == RASTER_BYTES,
                row@.len() == x,
                forall|k: int|
                    0 <= k < 64 * y + x ==> has_color(palette@, #[trigger] pixel_color(rgb@, k)),
                forall|c: int|
                    0 <= c < x ==> code_of(palette@, pixel_color(rgb@, 64 * y + c)) == Some(
                        #[trigger] row@[c],
                    ) && row@[c] < 64,
            decreases GRID_SIDE - x,
        {
            let at: usize = 3 * (64 * y + x);
            let color = Rgb { r: rgb[at], g: rgb[at + 1], b: rgb[at + 2] };
            assert(color == pixel_color(rgb@, 64 * y + x));
            match palette.code(color) {
                Some(code) => {
                    row.push(code);
                },
                None => {
                    return None;
                },
            }
            x += 1;
        }
        rows.push(row);
        y += 1;
    }
    proof {
        let wanted = quantized(palette@, rgb@).unwrap();
        assert forall|r: int| 0 <= r < GRID_SIDE implies rows_of(rows@)[r] == #[trigger] wanted[r] by {
            assert(rows@[r]@ =~= wanted[r]);
        }
        assert(rows_of(rows@) =~= wanted);
        assert forall|r: int, c: int|
            0 <= r < rows_of(rows@).len() && 0 <= c < rows_of(rows@)[r].len() implies
            #[trigger] rows_of(rows@)[r][c] < 64 by {
            assert(rows@[r]@[c] < 64);
        }
    }
    Some(rows)
}

/// Reads the pixel rows from the decoded pixels of an image of 64 by 64
/// pixels.
///
/// Fails with `DecodeError` where there are no pixels or not 64 by 64 of
/// them, and with `WrongPalette` where a pixel has a colour that the
/// palette has not.
pub fn quantize_decoded(pixels: Option<Vec<u8>>, palette: &Palette) -> (rows: Result<
    Vec<Vec<u8>>,
    ParseImageError,
>)
    ensures
        rows_result(rows) == quantized_result(bytes_of(pixels), palette@),
        rows matches Ok(r) ==> is_grid(rows_of(r@)) && codes_in_range(rows_of(r@)),
{
    let rgb = match pixels {
        Some(rgb) => rgb,
        None => {
            return Err(ParseImageError::DecodeError);
        },
    };
    if rgb.len() != RASTER_BYTES {
        return Err(ParseImageError::DecodeError);
    }
    match quantize_pixels(&rgb, palette) {
        Some(rows) => Ok(rows),
        None => Err(ParseImageError::WrongPalette),
    }
}

/// Reads the pixel rows of the image file `bytes` with the extension `ext`.
///
/// Fails with `UnsupportedExtension` when the extension names no container
/// that is read; with `DecodeError` when the file is not an image of that
/// container; with `WrongDimensions` when the image is not 64 by 64 pixels;
/// with `WrongPalette` when a pixel has a colour that the palette has not.
pub fn try_parse(ext: &str, bytes: &Vec<u8>, palette: &Palette) -> (rows: Result<
    Vec<Vec<u8>>,
    ParseImageError,
>)
    ensures
        is_parsed(rows_result(rows), ext@, bytes@, palette@),
        rows matches Ok(r) ==> is_grid(rows_of(r@)) && codes_in_range(rows_of(r@)),
{
    let format = match ImageExtension::from_str(ext) {
        Ok(format) => format,
        Err(error) => {
            proof {
                assert(rows_result(Err(error)) == parsed(ext@, bytes@, palette@, None));
            }
            return Err(error);
        },
    };
    let (width, height) = match format.dimensions(bytes) {
        Some(size) => size,
        None => {
            proof {
                let pixels = witness_pixels(format, bytes@);
                assert(rows_result(Err(ParseImageError::DecodeError)) == parsed(
                    ext@,
                    bytes@,
                    palette@,
                    pixels,
                ));
            }
            return Err(ParseImageError::DecodeError);
        },
    };
    if width != 64 || height != 64 {
        proof {
            let pixels = witness_pixels(format, bytes@);
            assert(rows_result(Err(ParseImageError::WrongDimensions)) == parsed(
                ext@,
                bytes@,
                palette@,
                pixels,
            ));
        }
        return Err(ParseImageError::WrongDimensions);
    }
    let pixels = format.decode(bytes);
    let ghost decoded = bytes_of(pixels);
    let rows = quantize_decoded(pixels, palette);
    proof {
        assert(rows_result(rows) == parsed(ext@, bytes@, palette@, decoded));
    }
    rows
}

/// Pixels that decoding the image file `bytes` can give.
pub open spec fn witness_pixels(format: ImageExtension, bytes: Seq<u8>) -> Option<Seq<u8>> {
    match format {
        ImageExtension::Png => png_pixels(bytes),
        ImageExtension::Jpeg => None,
        ImageExtension::Bmp => bmp_pixels(bytes),
    }
}

/// Reads the image file `bytes` with the extension `ext` and answers with a
/// status word: `ok` with the pixel rows, or the word of the error.
pub fn parse(ext: &str, bytes: &Vec<u8>, palette: &Palette) -> (response: ParseImageResponse)
    ensures
        exists|outcome: Result<Seq<Seq<u8>>, ParseImageError>|
            #[trigger] answers(response.status@, rows_view(response.data), outcome) && is_parsed(
                outcome,
                ext@,
                bytes@,
                palette@,
            ),
{
    let result = try_parse(ext, bytes, palette);
    let ghost outcome = rows_result(result);
    let response = match result {
        Ok(rows) => ParseImageResponse { status: "ok".to_owned(), data: Some(rows) },
        Err(error) => {
            let status = match error {
                ParseImageError::UnsupportedExtension => "unsupported_extension",
                ParseImageError::DecodeError => "decode_error",
                ParseImageError::WrongDimensions => "wrong_dimensions",
                ParseImageError::WrongPalette => "wrong_palette",
            };
            ParseImageResponse { status: status.to_owned(), data: None }
        },
    };
    proof {
        assert(answers(response.status@, rows_view(response.data), outcome));
    }
    response
}

} // verus!
