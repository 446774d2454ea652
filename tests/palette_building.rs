use img_to_array::palette::{build_palette, index_pixels, list_colours};
use img_to_array::{ConvertError, Rgb};

fn colours(v: &[u32]) -> Vec<Rgb> {
    v.iter().map(|c| Rgb(*c)).collect()
}

#[test]
fn list_colours_keeps_first_seen_order() {
    let pixels = colours(&[5, 3, 5, 7, 3, 3, 9, 5]);
    assert_eq!(list_colours(&pixels), colours(&[5, 3, 7, 9]));
}

#[test]
fn list_colours_of_nothing() {
    assert_eq!(list_colours(&Vec::new()), Vec::<Rgb>::new());
}

#[test]
fn build_palette_capacity_bounds() {
    let pixels = colours(&[1, 2, 3, 2, 1]);
    assert_eq!(build_palette(&pixels, Some(3)), Ok(colours(&[1, 2, 3])));
    assert_eq!(build_palette(&pixels, Some(2)), Err(ConvertError::PaletteOverflow { capacity: 2 }));
    assert_eq!(build_palette(&pixels, None), Ok(colours(&[1, 2, 3])));
    assert_eq!(build_palette(&Vec::new(), Some(0)), Ok(Vec::new()));
    assert_eq!(build_palette(&pixels, Some(0)), Err(ConvertError::PaletteOverflow { capacity: 0 }));
}

#[test]
fn index_pixels_against_palette() {
    let palette = colours(&[10, 20, 30]);
    let pixels = colours(&[30, 10, 10, 20]);
    assert_eq!(index_pixels(&pixels, &palette), Ok(vec![2, 0, 0, 1]));
}

#[test]
fn index_pixels_takes_first_position() {
    let palette = colours(&[10, 20, 10]);
    assert_eq!(index_pixels(&colours(&[10, 20]), &palette), Ok(vec![0, 1]));
}

#[test]
fn index_pixels_reports_first_missing() {
    let palette = colours(&[10, 20]);
    let pixels = colours(&[10, 40, 30, 40]);
    assert_eq!(
        index_pixels(&pixels, &palette),
        Err(ConvertError::ColourNotInPalette { colour: Rgb(40) })
    );
}

#[test]
fn own_palette_resolves_every_pixel() {
    let pixels = colours(&[7, 7, 1, 9, 1, 4, 9]);
    let palette = build_palette(&pixels, Some(256)).unwrap();
    let indices = index_pixels(&pixels, &palette).unwrap();
    for (i, k) in indices.iter().enumerate() {
        assert_eq!(palette[*k], pixels[i]);
    }
}
