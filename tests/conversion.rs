use img_to_array::pipeline::{palette_capacity, write_image_data, write_palette};
use img_to_array::{render, ColourFormat, Config, ConvertError, Image, Rgb};

fn cfg(colour_format: ColourFormat, palette_size: u8) -> Config {
    Config {
        image_path: String::from("image.png"),
        palette_path: None,
        output_path: String::from("output.c"),
        colour_format,
        palette_size,
    }
}

fn image_of(width: u32, height: u32, rgb: &[(u8, u8, u8)]) -> Image {
    let mut samples = Vec::new();
    for (r, g, b) in rgb.iter() {
        samples.extend_from_slice(&[*b, *g, *r, 255]);
    }
    Image::from_bgra(width, height, &samples).unwrap()
}

fn many_colours(n: u32) -> Image {
    let rgb: Vec<(u8, u8, u8)> = (0..n).map(|i| ((i >> 8) as u8, (i & 0xff) as u8, 7)).collect();
    image_of(n, 1, &rgb)
}

#[test]
fn two_pixel_image_rgb565() {
    let img = image_of(2, 1, &[(255, 0, 0), (0, 255, 0)]);
    let text = render(&cfg(ColourFormat::RGB565, 8), &img, None).unwrap();
    let expected = "#include <stdint.h>\n\nconst uint16_t palette[2] PROGMEM = {\n    0xF800, 0x07E0, \n};\n\nconst uint8_t image_data[2] PROGMEM = {\n    0,1,\n};\n";
    assert_eq!(text, expected);
}

#[test]
fn two_pixel_image_rgb888_wide_index() {
    let img = image_of(1, 3, &[(0, 255, 0), (1, 2, 3), (0, 255, 0)]);
    let text = render(&cfg(ColourFormat::RGB, 32), &img, None).unwrap();
    let expected = "#include <stdint.h>\n\nconst uint32_t palette[2] PROGMEM = {\n    0x00FF00, 0x010203, \n};\n\nconst uint32_t image_data[3] PROGMEM = {\n    0,1,0,\n};\n";
    assert_eq!(text, expected);
}

#[test]
fn palette_image_missing_a_colour() {
    let img = image_of(3, 1, &[(1, 1, 1), (9, 9, 9), (2, 2, 2)]);
    let pal = image_of(2, 1, &[(2, 2, 2), (1, 1, 1)]);
    assert_eq!(
        render(&cfg(ColourFormat::RGB565, 8), &img, Some(&pal)),
        Err(ConvertError::ColourNotInPalette { colour: Rgb(0x090909) })
    );
}

#[test]
fn palette_image_orders_the_palette() {
    let img = image_of(2, 1, &[(1, 1, 1), (2, 2, 2)]);
    let pal = image_of(3, 1, &[(2, 2, 2), (5, 5, 5), (1, 1, 1)]);
    let text = render(&cfg(ColourFormat::RGB, 8), &img, Some(&pal)).unwrap();
    let expected = "#include <stdint.h>\n\nconst uint32_t palette[3] PROGMEM = {\n    0x020202, 0x050505, 0x010101, \n};\n\nconst uint8_t image_data[2] PROGMEM = {\n    2,0,\n};\n";
    assert_eq!(text, expected);
}

#[test]
fn three_hundred_colours_overflow_eight_bits() {
    let img = many_colours(300);
    assert_eq!(
        render(&cfg(ColourFormat::RGB565, 8), &img, None),
        Err(ConvertError::PaletteOverflow { capacity: 256 })
    );
    let text = render(&cfg(ColourFormat::RGB565, 16), &img, None).unwrap();
    assert!(text.contains("const uint16_t palette[300] PROGMEM"));
    assert!(text.contains("const uint16_t image_data[300] PROGMEM"));
}

#[test]
fn exactly_capacity_colours_fit() {
    let img = many_colours(256);
    assert!(render(&cfg(ColourFormat::RGB, 8), &img, None).is_ok());
    let img = many_colours(257);
    assert_eq!(
        render(&cfg(ColourFormat::RGB, 8), &img, None),
        Err(ConvertError::PaletteOverflow { capacity: 256 })
    );
}

#[test]
fn explicit_palette_has_no_capacity() {
    let img = many_colours(300);
    assert!(render(&cfg(ColourFormat::RGB, 8), &img, Some(&img)).is_ok());
}

#[test]
fn capacities_by_index_width() {
    assert_eq!(palette_capacity(8), 256);
    assert_eq!(palette_capacity(16), 65536);
    assert_eq!(palette_capacity(32), 4294967296);
    assert_eq!(palette_capacity(7), 0);
}

#[test]
fn image_from_samples() {
    let img = Image::from_bgra(2, 1, &vec![0, 0, 255, 255, 0, 255, 0, 255]).unwrap();
    assert_eq!(img.pixels, vec![Rgb(0xFF0000), Rgb(0x00FF00)]);
    assert!(Image::from_bgra(2, 1, &vec![0, 0, 255, 255]).is_none());
    assert!(Image::from_bgra(1, 1, &vec![0, 0, 255, 255, 0]).is_none());
    assert!(Image::from_bgra(0, 0, &Vec::new()).is_some());
}

#[test]
fn image_from_decoded_buffer() {
    let buffer = image::RgbImage::from_raw(2, 1, vec![255, 0, 0, 0, 255, 0]).unwrap();
    let img = Image::from_dynamic(&image::DynamicImage::ImageRgb8(buffer));
    assert_eq!((img.width, img.height), (2, 1));
    assert_eq!(img.pixels, vec![Rgb(0xFF0000), Rgb(0x00FF00)]);
}

#[test]
fn error_messages() {
    assert_eq!(
        ConvertError::PaletteOverflow { capacity: 256 }.message(),
        "Image file has too many colours for a palette of 256 colours"
    );
    assert_eq!(
        ConvertError::ColourNotInPalette { colour: Rgb(0x0A0B0C) }.message(),
        "Colour 0x0A0B0C isn't present in the palette"
    );
}

#[test]
fn palette_array_alone() {
    let mut out = String::new();
    write_palette(&mut out, &cfg(ColourFormat::RGB565, 8), &vec![Rgb(0x0000FF), Rgb(0xFFFFFF)]);
    assert_eq!(out, "\nconst uint16_t palette[2] PROGMEM = {\n    0x001F, 0xFFFF, \n};\n");
}

#[test]
fn image_data_array_alone() {
    let img = image_of(3, 1, &[(0, 0, 2), (0, 0, 1), (0, 0, 2)]);
    let mut out = String::from("#");
    let r = write_image_data(&mut out, &cfg(ColourFormat::RGB, 16), &img, &vec![Rgb(1), Rgb(2)]);
    assert_eq!(r, Ok(()));
    assert_eq!(out, "#\nconst uint16_t image_data[3] PROGMEM = {\n    1,0,1,\n};\n");
    let mut out = String::from("#");
    let r = write_image_data(&mut out, &cfg(ColourFormat::RGB, 16), &img, &vec![Rgb(1)]);
    assert_eq!(r, Err(ConvertError::ColourNotInPalette { colour: Rgb(2) }));
    assert_eq!(out, "#");
}

#[test]
fn empty_palette_array_keeps_blank_line() {
    let mut out = String::new();
    write_palette(&mut out, &cfg(ColourFormat::RGB565, 8), &Vec::new());
    assert_eq!(out, "\nconst uint16_t palette[0] PROGMEM = {\n\n};\n");
    let mut out = String::new();
    write_palette(&mut out, &cfg(ColourFormat::RGB, 8), &Vec::new());
    assert_eq!(out, "\nconst uint32_t palette[0] PROGMEM = {\n\n};\n");
}

#[test]
fn empty_image_converts() {
    let img = Image::from_bgra(0, 0, &Vec::new()).unwrap();
    let text = render(&cfg(ColourFormat::RGB565, 8), &img, None).unwrap();
    let expected = "#include <stdint.h>\n\nconst uint16_t palette[0] PROGMEM = {\n\n};\n\nconst uint8_t image_data[0] PROGMEM = {\n};\n";
    assert_eq!(text, expected);
}

#[test]
fn index_array_count_is_width_times_height() {
    let img = image_of(2, 2, &[(1, 1, 1), (2, 2, 2), (2, 2, 2), (1, 1, 1)]);
    let text = render(&cfg(ColourFormat::RGB, 16), &img, None).unwrap();
    assert!(text.ends_with("\nconst uint16_t image_data[4] PROGMEM = {\n    0,1,1,0,\n};\n"));
}
