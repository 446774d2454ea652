//! The whole conversion: palette, indices, and the text of both arrays.

use vstd::prelude::*;

use crate::config::{ColourFormat, Config};
use crate::color::{pack_rgb, rgb565_of, Rgb, Rgb565};
use crate::emit::{
    array_text, dec_digits, declaration, emit_array, emit_declaration, push_dec, LiteralStyle,
};
use crate::error::ConvertError;
use crate::palette::{
    build_palette, covers, first_seen, index_pixels, is_first_index, is_first_missing,
    lemma_first_seen_covers, lemma_overflow_iff_too_many_colours, lemma_palette_first_seen, overflows,
};

verus! {

/// A decoded image: its size and its pixels, row by row.
#[derive(Debug)]
pub struct Image {
    pub width: u32,
    pub height: u32,
    pub pixels: Vec<Rgb>,
}

/// The colours of a buffer of blue, green, red and alpha samples, four per pixel.
pub open spec fn pixels_of_bgra(samples: Seq<u8>) -> Seq<Rgb> {
    Seq::new(
        samples.len() / 4,
        |i: int|
            Rgb(
                pack_rgb(
                    samples[4 * i + 2] as int,
                    samples[4 * i + 1] as int,
                    samples[4 * i] as int,
                ) as u32,
            ),
    )
}

impl Image {
    /// The image holds one pixel for each position of its `width` by `height` grid.
    pub open spec fn wf(&self) -> bool {
        self.pixels@.len() == self.width * self.height
    }

    /// An image of `width` by `height` pixels from its samples, four per pixel
    /// (blue, green, red, alpha), row by row; `None` when the number of samples
    /// does not match the size.
    pub fn from_bgra(width: u32, height: u32, samples: &Vec<u8>) -> (r: Option<Image>)
        ensures
            r is Some <==> samples@.len() == 4 * width * height,
            r is Some ==> r->Some_0.width == width && r->Some_0.height == height
                && r->Some_0.pixels@ == pixels_of_bgra(samples@) && r->Some_0.wf(),
    {
        assert(width * height <= 0xffff_ffff * 0xffff_ffff) by (nonlinear_arith)
            requires
                width <= 0xffff_ffff,
                height <= 0xffff_ffff,
        ;
        let n: u64 = width as u64 * height as u64;
        let len = samples.len();
        let ghost area: int = width * height;
        assert(4 * width * height == 4 * area) by (nonlinear_arith)
            requires
                area == width * height,
        ;
        if len % 4 != 0 || (len / 4) as u64 != n {
            return None;
        }
        let mut pixels: Vec<Rgb> = Vec::new();
        let mut b: usize = 0;
        while len - b >= 4
            invariant
                len == samples@.len(),
                len % 4 == 0,
                b <= len,
                b == 4 * pixels@.len(),
                pixels@ =~= pixels_of_bgra(samples@).take(pixels@.len() as int),
            decreases len - b,
        {
            let c = Rgb::from_bgra([samples[b], samples[b + 1], samples[b + 2], samples[b + 3]]);
            pixels.push(c);
            b += 4;
        }
        assert(pixels@.len() == len / 4);
        assert(pixels@.len() == width * height);
        assert(pixels_of_bgra(samples@).take(pixels@.len() as int) =~= pixels_of_bgra(samples@));
        Some(Image { width, height, pixels })
    }
}

#[verifier::external_type_specification]
#[verifier::external_body]
pub struct ExDynamicImage(image::DynamicImage);

/// Relies on image's `DynamicImage::to_bgra8`, read out with
/// `ImageBuffer::dimensions` and `ImageBuffer::into_raw`: a fresh buffer of the
/// image's size holding four samples (blue, green, red, alpha) per pixel.
#[verifier::external_body]
fn bgra_samples(img: &image::DynamicImage) -> (r: (u32, u32, Vec<u8>))
    ensures
        r.2@.len() == 4 * r.0 * r.1,
{
    let buffer = img.to_bgra8();
    let (width, height) = buffer.dimensions();
    (width, height, buffer.into_raw())
}

impl Image {
    /// The pixels of a decoded image, row by row.
    pub fn from_dynamic(img: &image::DynamicImage) -> (r: Image)
        ensures
            r.wf(),
    {
        let (width, height, samples) = bgra_samples(img);
        match Image::from_bgra(width, height, &samples) {
            Some(image) => {
                assert(image.pixels@.len() == width * height) by (nonlinear_arith)
                    requires
                        image.pixels@.len() == samples@.len() / 4,
                        samples@.len() == 4 * width * height,
                ;
                image
            },
            None => {
                // the buffer always matches the size it came with
                assert(false);
                Image { width: 0, height: 0, pixels: Vec::new() }
            },
        }
    }
}

/// The most colours a derived palette may hold for an index width in bits.
pub open spec fn capacity_of(palette_size: u8) -> u64 {
    if palette_size == 8 {
        256
    } else if palette_size == 16 {
        65536
    } else if palette_size == 32 {
        4294967296
    } else {
        0
    }
}

/// The most colours a derived palette may hold for an index width in bits.
pub fn palette_capacity(palette_size: u8) -> (r: u64)
    ensures
        r == capacity_of(palette_size),
{
    if palette_size == 8 {
        256
    } else if palette_size == 16 {
        65536
    } else if palette_size == 32 {
        4294967296
    } else {
        0
    }
}

/// The number written for a palette colour.
pub open spec fn colour_value(format: ColourFormat, c: Rgb) -> u64 {
    match format {
        ColourFormat::RGB565 => rgb565_of(c.0) as u64,
        ColourFormat::RGB => c.0 as u64,
    }
}

/// How palette colours are written.
pub open spec fn palette_style(format: ColourFormat) -> LiteralStyle {
    match format {
        ColourFormat::RGB565 => LiteralStyle::Hex4,
        ColourFormat::RGB => LiteralStyle::Hex6,
    }
}

/// The C type of a palette element.
pub open spec fn palette_ctype(format: ColourFormat) -> Seq<char> {
    match format {
        ColourFormat::RGB565 => "uint16_t"@,
        ColourFormat::RGB => "uint32_t"@,
    }
}

/// The C type of an index element.
pub open spec fn index_ctype(palette_size: u8) -> Seq<char> {
    "uint"@ + dec_digits(palette_size as nat) + "_t"@
}

/// The first position of `c` in `palette`.
pub open spec fn position_of(palette: Seq<Rgb>, c: Rgb) -> int {
    choose|k: int| is_first_index(palette, c, k)
}

/// The palette index of each pixel.
pub open spec fn index_values(palette: Seq<Rgb>, pixels: Seq<Rgb>) -> Seq<u64> {
    Seq::new(pixels.len(), |i: int| position_of(palette, pixels[i]) as u64)
}

/// The palette array. With no colours the braces hold one empty line.
pub open spec fn palette_text(format: ColourFormat, palette: Seq<Rgb>) -> Seq<char> {
    if palette.len() == 0 {
        declaration(palette_ctype(format), "palette"@, 0) + "\n};\n"@
    } else {
        array_text(
            palette_ctype(format),
            "palette"@,
            palette_style(format),
            palette.map_values(|c: Rgb| colour_value(format, c)),
        )
    }
}

/// The index array: the palette index of each pixel.
pub open spec fn image_data_text(palette_size: u8, palette: Seq<Rgb>, pixels: Seq<Rgb>) -> Seq<
    char,
> {
    array_text(
        index_ctype(palette_size),
        "image_data"@,
        LiteralStyle::Decimal,
        index_values(palette, pixels),
    )
}

/// The text of the output: the header, then the palette array, then the
/// index array.
pub open spec fn output_text(
    format: ColourFormat,
    palette_size: u8,
    palette: Seq<Rgb>,
    pixels: Seq<Rgb>,
) -> Seq<char> {
    "#include <stdint.h>\n"@ + palette_text(format, palette) + image_data_text(
        palette_size,
        palette,
        pixels,
    )
}

/// What a conversion gives: the palette comes from the palette image when
/// there is one, else from the image itself, and then holds at most
/// `capacity_of(palette_size)` colours; every pixel must find its colour in it.
/// A palette image is taken as it is: its size is not held to the index width.
pub open spec fn conversion(
    format: ColourFormat,
    palette_size: u8,
    pixels: Seq<Rgb>,
    palette_pixels: Option<Seq<Rgb>>,
) -> Result<Seq<char>, ConvertError> {
    let source = match palette_pixels {
        Some(p) => p,
        None => pixels,
    };
    let capacity = match palette_pixels {
        Some(_) => None,
        None => Some(capacity_of(palette_size)),
    };
    let palette = first_seen(source);
    if overflows(source, capacity) {
        Err(ConvertError::PaletteOverflow { capacity: capacity->Some_0 })
    } else if !covers(palette, pixels) {
        Err(
            ConvertError::ColourNotInPalette {
                colour: pixels[choose|k: int| is_first_missing(palette, pixels, k)],
            },
        )
    } else {
        Ok(output_text(format, palette_size, palette, pixels))
    }
}

proof fn lemma_first_index_unique(palette: Seq<Rgb>, c: Rgb, k: int)
    requires
        is_first_index(palette, c, k),
    ensures
        position_of(palette, c) == k,
{
    let j = position_of(palette, c);
    assert(is_first_index(palette, c, j));
    if j < k {
        assert(palette[j] != c);
    }
    if k < j {
        assert(palette[k] != c);
    }
}

proof fn lemma_first_missing_unique(palette: Seq<Rgb>, pixels: Seq<Rgb>, k: int)
    requires
        is_first_missing(palette, pixels, k),
    ensures
        (choose|j: int| is_first_missing(palette, pixels, j)) == k,
{
    let j = choose|j: int| is_first_missing(palette, pixels, j);
    assert(is_first_missing(palette, pixels, j));
    if j < k {
        assert(pixels.take(k)[j] == pixels[j]);
    }
    if k < j {
        assert(pixels.take(j)[k] == pixels[k]);
    }
}

/// Appends the palette array: each colour of `palette` in the configured
/// colour format (see `palette_text`).
pub fn write_palette(output: &mut String, config: &Config, palette: &Vec<Rgb>)
    ensures
        final(output)@ == old(output)@ + palette_text(config.colour_format, palette@),
{
    let format = config.colour_format;
    if palette.len() == 0 {
        match format {
            ColourFormat::RGB565 => emit_declaration(output, "uint16_t", "palette", 0),
            ColourFormat::RGB => emit_declaration(output, "uint32_t", "palette", 0),
        }
        output.append("\n};\n");
        return;
    }
    let mut colours: Vec<u64> = Vec::new();
    let mut i: usize = 0;
    while i < palette.len()
        invariant
            i <= palette.len(),
            colours@ =~= palette@.take(i as int).map_values(|c: Rgb| colour_value(format, c)),
        decreases palette.len() - i,
    {
        let v: u64 = match format {
            ColourFormat::RGB565 => Rgb565::from_rgb(&palette[i]).0 as u64,
            ColourFormat::RGB => palette[i].0 as u64,
        };
        colours.push(v);
        i += 1;
    }
    assert(palette@.take(palette@.len() as int) =~= palette@);
    match format {
        ColourFormat::RGB565 => emit_array(output, "uint16_t", "palette", LiteralStyle::Hex4, &colours),
        ColourFormat::RGB => emit_array(output, "uint32_t", "palette", LiteralStyle::Hex6, &colours),
    }
}

/// Appends the index array: the position in `palette` of each pixel's colour,
/// in elements of the configured index width, `width * height` of them. Fails, leaving `output` as it
/// was, on the first pixel whose colour the palette lacks.
pub fn write_image_data(output: &mut String, config: &Config, image: &Image, palette: &Vec<Rgb>) -> (r:
    Result<(), ConvertError>)
    requires
        image.wf(),
    ensures
        r is Ok <==> covers(palette@, image.pixels@),
        r is Ok ==> final(output)@ == old(output)@ + image_data_text(
            config.palette_size,
            palette@,
            image.pixels@,
        ),
        r is Err ==> final(output)@ == old(output)@ && r->Err_0 == (ConvertError::ColourNotInPalette {
            colour: image.pixels@[choose|k: int| is_first_missing(palette@, image.pixels@, k)],
        }),
{
    let positions = match index_pixels(&image.pixels, palette) {
        Ok(v) => v,
        Err(e) => {
            proof {
                let k = choose|k: int|
                    is_first_missing(palette@, image.pixels@, k) && e == (
                    ConvertError::ColourNotInPalette { colour: image.pixels@[k] });
                lemma_first_missing_unique(palette@, image.pixels@, k);
            }
            return Err(e);
        },
    };
    let mut indices: Vec<u64> = Vec::new();
    let mut j: usize = 0;
    while j < positions.len()
        invariant
            j <= positions.len(),
            positions@.len() == image.pixels@.len(),
            forall|m: int|
                0 <= m < image.pixels@.len() ==> is_first_index(
                    palette@,
                    image.pixels@[m],
                    #[trigger] positions@[m] as int,
                ),
            indices@ =~= index_values(palette@, image.pixels@).take(j as int),
        decreases positions.len() - j,
    {
        proof {
            lemma_first_index_unique(palette@, image.pixels@[j as int], positions@[j as int] as int);
        }
        indices.push(positions[j] as u64);
        j += 1;
    }
    assert(index_values(palette@, image.pixels@).take(positions@.len() as int) =~= index_values(
        palette@,
        image.pixels@,
    ));
    let mut ctype = String::new();
    ctype.append("uint");
    push_dec(&mut ctype, config.palette_size as u64);
    ctype.append("_t");
    emit_array(output, ctype.as_str(), "image_data", LiteralStyle::Decimal, &indices);
    Ok(())
}

/// Converts an image into the text of its palette and index arrays (see
/// `conversion`). With `palette_source` the palette is that image's colours and
/// has no capacity; without, it is the image's own colours, at most
/// `capacity_of(config.palette_size)` of them.
pub fn render(config: &Config, image: &Image, palette_source: Option<&Image>) -> (r: Result<
    String,
    ConvertError,
>)
    requires
        image.wf(),
    ensures
        ({
            let palette_pixels = match palette_source {
                Some(p) => Some(p.pixels@),
                None => None,
            };
            let expected = conversion(
                config.colour_format,
                config.palette_size,
                image.pixels@,
                palette_pixels,
            );
            &&& r is Ok <==> expected is Ok
            &&& r is Ok ==> r->Ok_0@ == expected->Ok_0
            &&& r is Err ==> r->Err_0 == expected->Err_0
        }),
{
    let (source, capacity) = match palette_source {
        Some(p) => (&p.pixels, None),
        None => (&image.pixels, Some(palette_capacity(config.palette_size))),
    };
    let palette = match build_palette(source, capacity) {
        Ok(p) => p,
        Err(e) => return Err(e),
    };
    proof {
        if palette_source is None {
            lemma_first_seen_covers(image.pixels@);
        }
    }
    let mut output = String::new();
    output.append("#include <stdint.h>\n");
    write_palette(&mut output, config, &palette);
    match write_image_data(&mut output, config, image, &palette) {
        Ok(()) => Ok(output),
        Err(e) => Err(e),
    }
}

/// A palette derived from an image covers every pixel of that image, so a
/// conversion without a palette image fails only when the palette overflows.
pub proof fn lemma_derived_palette_covers(format: ColourFormat, palette_size: u8, pixels: Seq<Rgb>)
    ensures
        covers(first_seen(pixels), pixels),
        !overflows(pixels, Some(capacity_of(palette_size))) ==> conversion(
            format,
            palette_size,
            pixels,
            None,
        ) is Ok,
{
    lemma_first_seen_covers(pixels);
}

/// Without a palette image, a conversion succeeds exactly when the image has
/// at most `capacity_of(palette_size)` distinct colours. The palette then has
/// one entry per distinct colour, and every pixel's index lies within it.
pub proof fn lemma_conversion_within_capacity(
    format: ColourFormat,
    palette_size: u8,
    pixels: Seq<Rgb>,
)
    ensures
        conversion(format, palette_size, pixels, None) is Ok <==> pixels.to_set().len()
            <= capacity_of(palette_size),
        first_seen(pixels).len() == pixels.to_set().len(),
        forall|i: int|
            0 <= i < pixels.len() ==> 0 <= position_of(first_seen(pixels), #[trigger] pixels[i])
                < first_seen(pixels).len(),
{
    let fs = first_seen(pixels);
    lemma_overflow_iff_too_many_colours(pixels, capacity_of(palette_size));
    lemma_first_seen_covers(pixels);
    lemma_palette_first_seen(pixels);
    fs.unique_seq_to_set();
    assert(fs.to_set() =~= pixels.to_set());
    assert forall|i: int| 0 <= i < pixels.len() implies 0 <= position_of(fs, #[trigger] pixels[i])
        < fs.len() by {
        let c = pixels[i];
        assert(fs.contains(c));
        let k = choose|k: int| 0 <= k < fs.len() && fs[k] == c;
        assert forall|j: int| 0 <= j < k implies fs[j] != c by {
            assert(fs[j] != fs[k]);
        }
        assert(is_first_index(fs, c, k));
        lemma_first_index_unique(fs, c, k);
    }
}

} // verus!
