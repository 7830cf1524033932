use unblur::{Image, ImageBlur, Pixel, CHAR_HEIGHT, CHAR_WIDTH, SIGMA_STEPS};

fn px(r: u8, g: u8, b: u8, a: u8) -> Pixel {
    Pixel { r, g, b, a }
}

fn sentinel() -> Pixel {
    px(0, 0, 0, 255)
}

fn cell_image(cols: &[Vec<Pixel>]) -> Image {
    let mut pixels = Vec::new();
    for y in 0..CHAR_HEIGHT {
        for x in 0..CHAR_WIDTH {
            if x < cols.len() {
                pixels.push(cols[x][y]);
            } else {
                pixels.push(sentinel());
            }
        }
    }
    Image::new(CHAR_WIDTH, CHAR_HEIGHT, pixels)
}

fn solid_col(p: Pixel) -> Vec<Pixel> {
    vec![p; CHAR_HEIGHT]
}

/// Lays cell-sized rasters side by side into one single-line raster.
fn line_image(cells: &[Image]) -> Image {
    let width = cells.len() * CHAR_WIDTH;
    let mut pixels = Vec::new();
    for y in 0..CHAR_HEIGHT {
        for x in 0..width {
            let cell = &cells[x / CHAR_WIDTH];
            pixels.push(cell.pixels[y * CHAR_WIDTH + x % CHAR_WIDTH]);
        }
    }
    Image::new(width, CHAR_HEIGHT, pixels)
}

fn copies(glyphs: &[Image], n: usize) -> Vec<Vec<Image>> {
    let mut sets = Vec::new();
    for _ in 0..n {
        sets.push(glyphs.iter().map(|g| g.duplicate()).collect());
    }
    sets
}

#[test]
fn zero_blur_round_trips_two_letters() {
    // Degrading "AB" with no blur and recovering must reproduce "AB": with
    // the unblurred glyph sets, calibration succeeds at the first strength.
    let glyph_a = cell_image(&[solid_col(px(100, 100, 100, 255))]);
    let glyph_b = cell_image(&[
        solid_col(px(100, 100, 100, 255)),
        solid_col(px(30, 200, 30, 255)),
    ]);
    let img = line_image(&[glyph_a.duplicate(), glyph_b.duplicate()]);
    let sets = copies(&[glyph_a, glyph_b], SIGMA_STEPS);
    let alph = vec!['A', 'B'];
    assert_eq!(img.unblur_text(&sets, &alph), "AB");
}

#[test]
fn blank_cell_recovers_space_when_alphabet_has_blank_glyph() {
    // The alphabet holds exactly one character whose rendering is entirely
    // sentinel-colored; a blank cell must come back as a space, never as no
    // character at all.
    let glyph_a = cell_image(&[solid_col(px(100, 100, 100, 255))]);
    let blank_glyph = cell_image(&[]);
    let img = line_image(&[glyph_a.duplicate(), cell_image(&[])]);
    let sets = copies(&[glyph_a, blank_glyph], SIGMA_STEPS);
    let alph = vec!['a', ' '];
    assert_eq!(img.unblur_text(&sets, &alph), "a ");
}

#[test]
fn exhausted_calibration_yields_empty_result() {
    // No strength ever matches the first cell strictly, so calibration is
    // abandoned and nothing is recovered.
    let glyph = cell_image(&[solid_col(px(100, 0, 0, 255))]);
    let cell = cell_image(&[solid_col(px(200, 0, 0, 255))]);
    let img = line_image(&[cell.duplicate(), cell.duplicate()]);
    let sets = copies(&[glyph], SIGMA_STEPS);
    let alph = vec!['a'];
    assert_eq!(img.unblur_text(&sets, &alph), "");
}

#[test]
fn calibrated_strength_is_found_and_reused() {
    // Only the set at one strength index matches the raster; calibration
    // must discover it on the first cell and classify the rest with it.
    let wrong = cell_image(&[solid_col(px(100, 0, 0, 255))]);
    let right_a = cell_image(&[solid_col(px(10, 20, 30, 255))]);
    let right_b = cell_image(&[
        solid_col(px(10, 20, 30, 255)),
        solid_col(px(40, 50, 60, 255)),
    ]);
    let mut sets = copies(&[wrong.duplicate(), wrong.duplicate()], SIGMA_STEPS);
    sets[7] = vec![right_a.duplicate(), right_b.duplicate()];
    let img = line_image(&[right_a, right_b]);
    let alph = vec!['A', 'B'];
    assert_eq!(img.unblur_text(&sets, &alph), "AB");
}

#[test]
fn unresolved_cells_are_silently_omitted() {
    // The second cell matches nothing at the calibrated strength: it is
    // skipped without a placeholder, shortening the result.
    let glyph_a = cell_image(&[solid_col(px(100, 100, 100, 255))]);
    let stranger = cell_image(&[
        solid_col(px(1, 2, 3, 255)),
        solid_col(px(1, 2, 3, 255)),
        solid_col(px(1, 2, 3, 255)),
    ]);
    let img = line_image(&[glyph_a.duplicate(), stranger, glyph_a.duplicate()]);
    let sets = copies(&[glyph_a], SIGMA_STEPS);
    let alph = vec!['a'];
    assert_eq!(img.unblur_text(&sets, &alph), "aa");
}

#[test]
fn lines_are_walked_top_to_bottom() {
    // Two lines of one cell each: the first line calibrates, the second is
    // classified at the calibrated strength.
    let glyph_a = cell_image(&[solid_col(px(100, 100, 100, 255))]);
    let glyph_b = cell_image(&[
        solid_col(px(100, 100, 100, 255)),
        solid_col(px(30, 200, 30, 255)),
    ]);
    let mut pixels = Vec::new();
    for cell in [&glyph_a, &glyph_b] {
        pixels.extend(cell.pixels.iter().copied());
    }
    let img = Image::new(CHAR_WIDTH, 2 * CHAR_HEIGHT, pixels);
    let sets = copies(&[glyph_a, glyph_b], SIGMA_STEPS);
    let alph = vec!['A', 'B'];
    assert_eq!(img.unblur_text(&sets, &alph), "AB");
}

#[test]
fn raster_smaller_than_a_cell_recovers_nothing() {
    let img = Image::new(3, 3, vec![px(5, 5, 5, 255); 9]);
    let glyph = cell_image(&[]);
    let sets = copies(&[glyph], SIGMA_STEPS);
    let alph = vec![' '];
    assert_eq!(img.unblur_text(&sets, &alph), "");
}
