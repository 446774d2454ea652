//! The parameters of a conversion, and the rules that turn command-line
//! option values into them.

use vstd::prelude::*;

verus! {

/// How palette colours are written out.
#[derive(Debug, Clone, Copy, PartialEq, Eq, Structural)]
pub enum ColourFormat {
    /// 16-bit RGB565 values.
    RGB565,
    /// 24-bit RGB values.
    RGB,
}

/// The parameters of one conversion.
#[derive(Debug)]
pub struct Config {
    pub image_path: String,
    pub palette_path: Option<String>,
    pub output_path: String,
    pub colour_format: ColourFormat,
    /// The width in bits of one palette index: 8, 16 or 32.
    pub palette_size: u8,
}

/// Why option values give no configuration.
#[derive(Debug)]
pub enum ConfigError {
    /// Help was asked for instead of a conversion.
    HelpRequested,
    /// Not exactly one image path was given.
    MissingImage,
    /// The colour format named is none of the known ones.
    UnknownColourFormat { format: String },
    /// The palette size named is none of 8, 16 and 32.
    UnknownPaletteSize { size: String },
}

/// The colour format that a name stands for.
pub open spec fn colour_format_of(name: Seq<char>) -> Option<ColourFormat> {
    if name == "RGB565"@ || name == "565"@ {
        Some(ColourFormat::RGB565)
    } else if name == "RGB"@ || name == "RGB888"@ || name == "888"@ {
        Some(ColourFormat::RGB)
    } else {
        None
    }
}

/// The index width that a name stands for.
pub open spec fn palette_size_of(name: Seq<char>) -> Option<u8> {
    if name == "8"@ {
        Some(8u8)
    } else if name == "16"@ {
        Some(16u8)
    } else if name == "32"@ {
        Some(32u8)
    } else {
        None
    }
}

fn is(s: &String, lit: &str) -> (r: bool)
    ensures
        r == (s@ == lit@),
{
    *s == String::from_str(lit)
}

/// The colour format that a name stands for (see `colour_format_of`).
pub fn parse_colour_format(name: &String) -> (r: Option<ColourFormat>)
    ensures
        r == colour_format_of(name@),
{
    if is(name, "RGB565") || is(name, "565") {
        Some(ColourFormat::RGB565)
    } else if is(name, "RGB") || is(name, "RGB888") || is(name, "888") {
        Some(ColourFormat::RGB)
    } else {
        None
    }
}

/// The index width that a name stands for (see `palette_size_of`).
pub fn parse_palette_size(name: &String) -> (r: Option<u8>)
    ensures
        r == palette_size_of(name@),
{
    if is(name, "8") {
        Some(8)
    } else if is(name, "16") {
        Some(16)
    } else if is(name, "32") {
        Some(32)
    } else {
        None
    }
}

/// Builds the configuration from parsed command-line options: `help` for the
/// help flag, `free` for the arguments that are no option, and the values of
/// the colour (`-c`), palette size (`--palsize`), palette (`-p`) and output
/// (`-o`) options. The output defaults to `output.c`, the colour format to
/// RGB565 and the palette size to 8.
pub fn config_from_options(
    help: bool,
    free: Vec<String>,
    colour: Option<String>,
    palsize: Option<String>,
    palette: Option<String>,
    output: Option<String>,
) -> (r: Result<Config, ConfigError>)
    ensures
        help ==> r is Err && r->Err_0 is HelpRequested,
        !help && free@.len() != 1 ==> r is Err && r->Err_0 is MissingImage,
        !help && free@.len() == 1 && colour is Some && colour_format_of(colour->Some_0@) is None
            ==> r is Err && r->Err_0 is UnknownColourFormat && r->Err_0->format@ == colour->Some_0@,
        !help && free@.len() == 1 && !(colour is Some && colour_format_of(colour->Some_0@) is None)
            && palsize is Some && palette_size_of(palsize->Some_0@) is None ==> r is Err
            && r->Err_0 is UnknownPaletteSize && r->Err_0->size@ == palsize->Some_0@,
        r is Ok ==> {
            &&& !help && free@.len() == 1
            &&& r->Ok_0.image_path@ == free@[0]@
            &&& r->Ok_0.palette_path == palette
            &&& r->Ok_0.output_path@ == match output {
                Some(o) => o@,
                None => "output.c"@,
            }
            &&& r->Ok_0.colour_format == match colour {
                Some(c) => colour_format_of(c@)->Some_0,
                None => ColourFormat::RGB565,
            }
            &&& r->Ok_0.palette_size == match palsize {
                Some(p) => palette_size_of(p@)->Some_0,
                None => 8u8,
            }
        },
        !help && free@.len() == 1 && !(colour is Some && colour_format_of(colour->Some_0@) is None)
            && !(palsize is Some && palette_size_of(palsize->Some_0@) is None) ==> r is Ok,
{
    if help {
        return Err(ConfigError::HelpRequested);
    }
    if free.len() != 1 {
        return Err(ConfigError::MissingImage);
    }
    let output_path = match output {
        Some(o) => o,
        None => String::from_str("output.c"),
    };
    let colour_format = match colour {
        Some(c) => match parse_colour_format(&c) {
            Some(f) => f,
            None => return Err(ConfigError::UnknownColourFormat { format: c }),
        },
        None => ColourFormat::RGB565,
    };
    let palette_size = match palsize {
        Some(p) => match parse_palette_size(&p) {
            Some(n) => n,
            None => return Err(ConfigError::UnknownPaletteSize { size: p }),
        },
        None => 8,
    };
    let image_path = free[0].clone();
    Ok(Config { image_path, palette_path: palette, output_path, colour_format, palette_size })
}

} // verus!
