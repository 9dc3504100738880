use image::codecs::bmp::BmpEncoder;
use image::codecs::jpeg::JpegEncoder;
use image::codecs::png::PngEncoder;
use image::{ExtendedColorType, ImageEncoder, ImageFormat, RgbImage};
use pixel_dna::codec::{
    decode_dna, encode_dna, has_valid_codes, is_pixel_grid, parse_image, render_image,
};
use pixel_dna::dna::Dna;
use pixel_dna::palette::{codes, colors, colors_map, Palette, PaletteError, Rgb};
use pixel_dna::parse::{
    parse, quantize_decoded, quantize_pixels, try_parse, ImageExtension, ParseImageError,
    RASTER_BYTES,
};
use pixel_dna::pipeline;
use pixel_dna::render::{raster_pixels, rasterize, render};

fn shade(code: usize) -> Rgb {
    Rgb { r: (code * 4) as u8, g: (255 - code * 3) as u8, b: ((code * 37) % 256) as u8 }
}

fn hex_entries() -> Vec<String> {
    (0..64)
        .map(|code| {
            let color = shade(code);
            format!("{:02x}{:02X}{:02x}", color.r, color.g, color.b)
        })
        .collect()
}

fn palette() -> Palette {
    Palette::from_hex(&hex_entries()).unwrap()
}

fn patterned_grid() -> Vec<Vec<u8>> {
    (0..64u32)
        .map(|y| (0..64u32).map(|x| ((y * 5 + x * 3 + x * y) % 64) as u8).collect())
        .collect()
}

fn raw_raster(grid: &[Vec<u8>]) -> Vec<u8> {
    let mut rgb = Vec::new();
    for row in grid {
        for code in row {
            let color = shade(*code as usize);
            rgb.extend_from_slice(&[color.r, color.g, color.b]);
        }
    }
    rgb
}

fn encoded(rgb: &[u8], width: u32, height: u32, format: ImageFormat) -> Vec<u8> {
    let mut bytes = Vec::new();
    match format {
        ImageFormat::Png => PngEncoder::new(&mut bytes)
            .write_image(rgb, width, height, ExtendedColorType::Rgb8)
            .unwrap(),
        ImageFormat::Bmp => BmpEncoder::new(&mut bytes)
            .write_image(rgb, width, height, ExtendedColorType::Rgb8)
            .unwrap(),
        _ => JpegEncoder::new_with_quality(&mut bytes, 100)
            .write_image(rgb, width, height, ExtendedColorType::Rgb8)
            .unwrap(),
    }
    bytes
}

fn decoded(png: &[u8]) -> RgbImage {
    image::load_from_memory_with_format(png, ImageFormat::Png).unwrap().to_rgb8()
}

#[test]
fn palette_is_read_from_hexadecimal_entries() {
    let palette = palette();
    assert_eq!(palette.table().len(), 64);
    for code in 0..64usize {
        assert_eq!(palette.color(code as u8), shade(code));
    }
    assert_eq!(colors_map(&vec!["ff8000".to_string()]), Ok(vec![Rgb { r: 255, g: 128, b: 0 }]));
    assert_eq!(colors_map(&Vec::new()), Ok(Vec::new()));
}

#[test]
fn codes_and_colours_correspond_one_to_one() {
    let palette = palette();
    for code in 0..64u8 {
        assert_eq!(palette.code(palette.color(code)), Some(code));
    }
    for a in 0..64u8 {
        for b in 0..a {
            assert_ne!(palette.color(a), palette.color(b));
        }
    }
    assert_eq!(palette.code(Rgb { r: 1, g: 2, b: 3 }), None);
}

#[test]
fn tables_list_codes_and_colours_in_order_of_code() {
    let table = colors_map(&hex_entries()).unwrap();
    let forward = colors(&table);
    let inverse = codes(&table);
    assert_eq!(forward.len(), 64);
    assert_eq!(inverse.len(), 64);
    for code in 0..64usize {
        assert_eq!(forward[code], (code as u8, shade(code)));
        assert_eq!(inverse[code], (shade(code), code as u8));
    }
}

#[test]
fn entries_that_are_no_colours_are_refused() {
    for bad in ["", "12345", "1234567", "gg0000", "#ff000", "ff 000"] {
        let mut entries = hex_entries();
        entries[10] = bad.to_string();
        assert_eq!(Palette::from_hex(&entries).err(), Some(PaletteError::InvalidColor), "{:?}", bad);
        assert_eq!(colors_map(&entries).err(), Some(PaletteError::InvalidColor));
    }
}

#[test]
fn tables_of_another_size_are_refused() {
    let mut entries = hex_entries();
    entries.pop();
    assert_eq!(Palette::from_hex(&entries).err(), Some(PaletteError::WrongSize));
    let mut entries = hex_entries();
    entries.push("010203".to_string());
    assert_eq!(Palette::from_hex(&entries).err(), Some(PaletteError::WrongSize));
    assert_eq!(Palette::new(Vec::new()).err(), Some(PaletteError::WrongSize));
    let many: Vec<String> = (0..257).map(|i| format!("{:06x}", i * 1000)).collect();
    assert_eq!(colors_map(&many).err(), Some(PaletteError::TooManyColors));
    assert_eq!(Palette::from_hex(&many).err(), Some(PaletteError::TooManyColors));
    let most: Vec<String> = (0..256).map(|i| format!("{:06x}", i * 1000)).collect();
    assert_eq!(colors_map(&most).unwrap().len(), 256);
}

#[test]
fn a_colour_that_occurs_twice_is_refused() {
    let mut entries = hex_entries();
    entries[63] = entries[0].to_uppercase();
    assert_eq!(Palette::from_hex(&entries).err(), Some(PaletteError::Duplicate));
    let mut table: Vec<Rgb> = (0..64).map(shade).collect();
    table[5] = table[40];
    assert_eq!(Palette::new(table).err(), Some(PaletteError::Duplicate));
}

#[test]
fn zero_grid_renders_as_an_image_of_the_first_colour() {
    let zero = Dna::from_base64(&"A".repeat(4096)).unwrap();
    let png = rasterize(&zero.to_data(), 1, &palette()).unwrap();
    let image = decoded(&png);
    assert_eq!(image.dimensions(), (64, 64));
    let first = shade(0);
    assert!(image.pixels().all(|pixel| pixel.0 == [first.r, first.g, first.b]));
}

#[test]
fn raster_at_scale_one_is_one_colour_for_each_code() {
    let grid = patterned_grid();
    let rgb = raster_pixels(&grid, 1, &palette());
    assert_eq!(rgb.len(), RASTER_BYTES);
    assert_eq!(rgb, raw_raster(&grid));
}

#[test]
fn raster_at_scale_three_repeats_each_pixel() {
    let grid = patterned_grid();
    let rgb = raster_pixels(&grid, 3, &palette());
    assert_eq!(rgb.len(), 192 * 192 * 3);
    for (y, x) in [(0usize, 0usize), (1, 2), (2, 3), (3, 2), (100, 57), (191, 191), (95, 96)] {
        let color = shade(grid[y / 3][x / 3] as usize);
        let at = 3 * (y * 192 + x);
        assert_eq!(&rgb[at..at + 3], &[color.r, color.g, color.b], "pixel {} {}", y, x);
    }
}

#[test]
fn upscaled_image_is_ten_times_as_large() {
    let grid = patterned_grid();
    let png = render(&grid, true, &palette()).unwrap();
    let image = decoded(&png);
    assert_eq!(image.dimensions(), (640, 640));
    for (x, y) in [(0u32, 0u32), (9, 9), (10, 9), (9, 10), (325, 17), (639, 639)] {
        let color = shade(grid[(y / 10) as usize][(x / 10) as usize] as usize);
        assert_eq!(image.get_pixel(x, y).0, [color.r, color.g, color.b], "pixel {} {}", x, y);
    }
    let plain = decoded(&render(&grid, false, &palette()).unwrap());
    assert_eq!(plain.dimensions(), (64, 64));
    assert_eq!(plain.into_raw(), raw_raster(&grid));
}

#[test]
fn grid_renders_at_scale_ten() {
    let grid = patterned_grid();
    let dna = Dna::from_data(grid.clone());
    let png = pipeline::render(dna, &palette()).unwrap();
    assert_eq!(png, render(&grid, true, &palette()).unwrap());
    assert_eq!(render_image(&grid, true, &palette()).unwrap(), png);
}

#[test]
fn rendered_image_reads_back_as_the_grid() {
    let grid = patterned_grid();
    let png = render(&grid, false, &palette()).unwrap();
    assert_eq!(try_parse("png", &png, &palette()), Ok(grid.clone()));
    let response = parse("png", &png, &palette());
    assert_eq!(response.status, "ok");
    assert_eq!(response.data, Some(grid.clone()));
    let response = parse_image("png", &png, &palette());
    assert_eq!(response.status, "ok");
    assert_eq!(response.data, Some(grid));
}

#[test]
fn raster_reads_back_as_the_grid() {
    let grid = patterned_grid();
    let rgb = raster_pixels(&grid, 1, &palette());
    assert_eq!(quantize_pixels(&rgb, &palette()), Some(grid));
}

#[test]
fn bitmap_images_are_read() {
    let grid = patterned_grid();
    let bmp = encoded(&raw_raster(&grid), 64, 64, ImageFormat::Bmp);
    assert_eq!(try_parse("bmp", &bmp, &palette()), Ok(grid));
    assert_eq!(ImageExtension::Bmp.dimensions(&bmp), Some((64, 64)));
}

#[test]
fn jpeg_images_are_read_under_both_extensions() {
    let color = shade(0);
    let flat: Vec<u8> = (0..4096).flat_map(|_| [color.r, color.g, color.b]).collect();
    let jpeg = encoded(&flat, 64, 64, ImageFormat::Jpeg);
    assert_eq!(ImageExtension::Jpeg.dimensions(&jpeg), Some((64, 64)));
    let read = try_parse("jpg", &jpeg, &palette());
    assert!(matches!(read, Ok(_) | Err(ParseImageError::WrongPalette)), "{:?}", read);
    assert_eq!(try_parse("jpeg", &jpeg, &palette()), read);
    let small = encoded(&flat[..32 * 32 * 3], 32, 32, ImageFormat::Jpeg);
    assert_eq!(try_parse("jpg", &small, &palette()), Err(ParseImageError::WrongDimensions));
}

#[test]
fn extensions_name_the_containers() {
    assert_eq!(ImageExtension::from_str("png"), Ok(ImageExtension::Png));
    assert_eq!(ImageExtension::from_str("jpg"), Ok(ImageExtension::Jpeg));
    assert_eq!(ImageExtension::from_str("jpeg"), Ok(ImageExtension::Jpeg));
    assert_eq!(ImageExtension::from_str("bmp"), Ok(ImageExtension::Bmp));
    for other in ["", "PNG", "gif", ".png", "png ", "webp"] {
        assert_eq!(
            ImageExtension::from_str(other),
            Err(ParseImageError::UnsupportedExtension),
            "{:?}",
            other
        );
    }
}

#[test]
fn unknown_extension_is_unsupported() {
    let png = render(&patterned_grid(), false, &palette()).unwrap();
    assert_eq!(try_parse("gif", &png, &palette()), Err(ParseImageError::UnsupportedExtension));
    let response = parse("gif", &png, &palette());
    assert_eq!(response.status, "unsupported_extension");
    assert_eq!(response.data, None);
}

#[test]
fn file_of_another_container_is_a_decode_error() {
    let png = render(&patterned_grid(), false, &palette()).unwrap();
    assert_eq!(try_parse("bmp", &png, &palette()), Err(ParseImageError::DecodeError));
    assert_eq!(try_parse("jpg", &png, &palette()), Err(ParseImageError::DecodeError));
    assert_eq!(try_parse("png", &Vec::new(), &palette()), Err(ParseImageError::DecodeError));
    assert_eq!(parse("png", &vec![1, 2, 3], &palette()).status, "decode_error");
}

#[test]
fn truncated_file_is_a_decode_error() {
    let mut png = render(&patterned_grid(), false, &palette()).unwrap();
    png.truncate(png.len() / 2);
    assert_eq!(try_parse("png", &png, &palette()), Err(ParseImageError::DecodeError));
}

#[test]
fn image_of_another_size_has_wrong_dimensions() {
    let color = shade(1);
    let small: Vec<u8> = (0..32 * 32).flat_map(|_| [color.r, color.g, color.b]).collect();
    let png = encoded(&small, 32, 32, ImageFormat::Png);
    assert_eq!(try_parse("png", &png, &palette()), Err(ParseImageError::WrongDimensions));
    assert_eq!(parse("png", &png, &palette()).status, "wrong_dimensions");
    let wide: Vec<u8> = (0..128 * 64).flat_map(|_| [color.r, color.g, color.b]).collect();
    let png = encoded(&wide, 128, 64, ImageFormat::Png);
    assert_eq!(try_parse("png", &png, &palette()), Err(ParseImageError::WrongDimensions));
    let upscaled = render(&patterned_grid(), true, &palette()).unwrap();
    assert_eq!(try_parse("png", &upscaled, &palette()), Err(ParseImageError::WrongDimensions));
}

#[test]
fn colour_outside_the_palette_is_a_wrong_palette() {
    let mut rgb = raw_raster(&patterned_grid());
    rgb[3 * 4095] = 1;
    rgb[3 * 4095 + 1] = 2;
    rgb[3 * 4095 + 2] = 3;
    assert_eq!(quantize_pixels(&rgb, &palette()), None);
    let png = encoded(&rgb, 64, 64, ImageFormat::Png);
    assert_eq!(try_parse("png", &png, &palette()), Err(ParseImageError::WrongPalette));
    assert_eq!(parse("png", &png, &palette()).status, "wrong_palette");
}

#[test]
fn text_and_rows_convert_both_ways() {
    let grid = patterned_grid();
    let text = encode_dna(grid.clone());
    assert_eq!(text.len(), 4096);
    assert_eq!(decode_dna(&text), Some(grid));
    assert_eq!(decode_dna("AAAA"), None);
    assert_eq!(decode_dna("?"), None);
}

#[test]
fn grids_are_told_from_other_rows() {
    let grid = patterned_grid();
    assert!(is_pixel_grid(&grid));
    assert!(has_valid_codes(&grid));
    let mut short = grid.clone();
    short.pop();
    assert!(!is_pixel_grid(&short));
    let mut ragged = grid.clone();
    ragged[63].push(0);
    assert!(!is_pixel_grid(&ragged));
    let mut ragged = grid.clone();
    ragged[0].pop();
    assert!(!is_pixel_grid(&ragged));
    assert!(!is_pixel_grid(&Vec::new()));
    let mut high = grid.clone();
    high[63][63] = 64;
    assert!(is_pixel_grid(&high));
    assert!(!has_valid_codes(&high));
    assert!(has_valid_codes(&Vec::new()));
}

#[test]
fn decoded_pixels_are_read_or_refused() {
    let grid = patterned_grid();
    assert_eq!(quantize_decoded(Some(raw_raster(&grid)), &palette()), Ok(grid.clone()));
    assert_eq!(quantize_decoded(None, &palette()), Err(ParseImageError::DecodeError));
    assert_eq!(quantize_decoded(Some(vec![0; 12]), &palette()), Err(ParseImageError::DecodeError));
    let mut off = raw_raster(&grid);
    off[0] = off[0].wrapping_add(1);
    off[1] = off[1].wrapping_add(1);
    assert_eq!(quantize_decoded(Some(off), &palette()), Err(ParseImageError::WrongPalette));
}
