use unblur::{alphabet, find_character, Image, Pixel, CHAR_HEIGHT, CHAR_WIDTH};

fn px(r: u8, g: u8, b: u8, a: u8) -> Pixel {
    Pixel { r, g, b, a }
}

fn sentinel() -> Pixel {
    px(0, 0, 0, 255)
}

/// Builds one cell-sized raster from its leading columns; missing columns
/// are filled with sentinel pixels.
fn cell_image(cols: &[Vec<Pixel>]) -> Image {
    let mut pixels = Vec::new();
    for y in 0..CHAR_HEIGHT {
        for x in 0..CHAR_WIDTH {
            if x < cols.len() {
                pixels.push(cols[x][y]);
            } else {
                pixels.push(sentinel());
            }
        }
    }
    Image::new(CHAR_WIDTH, CHAR_HEIGHT, pixels)
}

fn solid_col(p: Pixel) -> Vec<Pixel> {
    vec![p; CHAR_HEIGHT]
}

#[test]
fn alphabet_order_and_contents() {
    let a = alphabet();
    assert_eq!(a.len(), 92);
    assert_eq!(a[0], 'a');
    assert_eq!(a[25], 'z');
    assert_eq!(a[26], 'A');
    assert_eq!(a[52], '0');
    assert_eq!(a[61], '9');
    assert_eq!(a[62], ' ');
    assert_eq!(a[91], '|');
}

#[test]
fn glyph_against_itself_is_accepted_strictly() {
    let ga = cell_image(&[solid_col(px(50, 60, 70, 255))]);
    let gb = cell_image(&[solid_col(px(200, 10, 10, 255))]);
    let img = cell_image(&[solid_col(px(200, 10, 10, 255))]);
    let glyphs = vec![ga, gb];
    let alph = vec!['a', 'b'];
    let r = find_character(0, 0, &img, &glyphs, &alph, true);
    assert_eq!(r, Some('b'));
}

#[test]
fn empty_against_empty_resolves_to_space() {
    // One glyph renders entirely sentinel-colored, and the cell is blank:
    // both trim to nothing, which is the space character, in either mode.
    let blank_glyph = cell_image(&[]);
    let other = cell_image(&[solid_col(px(90, 90, 90, 255))]);
    let img = cell_image(&[]);
    let glyphs = vec![other.duplicate(), blank_glyph.duplicate()];
    let alph = vec!['x', 'y'];
    assert_eq!(find_character(0, 0, &img, &glyphs, &alph, true), Some(' '));
    assert_eq!(find_character(0, 0, &img, &glyphs, &alph, false), Some(' '));
}

#[test]
fn tie_breaks_to_later_alphabet_position() {
    // Two identical candidates: the later one must win.
    let p = px(120, 30, 40, 255);
    let g1 = cell_image(&[solid_col(p)]);
    let g2 = cell_image(&[solid_col(p)]);
    let worse = cell_image(&[solid_col(px(255, 255, 255, 255))]);
    let img = cell_image(&[solid_col(p)]);
    let glyphs = vec![g1, worse, g2];
    let alph = vec!['x', 'w', 'y'];
    assert_eq!(find_character(0, 0, &img, &glyphs, &alph, true), Some('y'));
}

#[test]
fn length_mismatch_is_no_candidate() {
    let one_col = cell_image(&[solid_col(px(10, 10, 10, 255))]);
    let two_cols = cell_image(&[
        solid_col(px(10, 10, 10, 255)),
        solid_col(px(10, 10, 10, 255)),
    ]);
    let glyphs = vec![two_cols];
    let alph = vec!['a'];
    assert_eq!(find_character(0, 0, &one_col, &glyphs, &alph, true), None);
    assert_eq!(find_character(0, 0, &one_col, &glyphs, &alph, false), None);
}

#[test]
fn loose_acceptance_boundary_at_seventy_percent() {
    // One retained column is 25 pixels; each match is worth 4 percent.
    // 18 matches give 72 (accepted loosely), 17 give 68 (rejected).
    let good = px(100, 0, 0, 255);
    let bad = px(130, 0, 0, 255); // distance 30: no match in either mode
    let glyph = cell_image(&[solid_col(good)]);

    let mut col = vec![good; CHAR_HEIGHT];
    for slot in col.iter_mut().take(7) {
        *slot = bad;
    }
    let cell72 = cell_image(&[col.clone()]);
    let glyphs = vec![glyph.duplicate()];
    let alph = vec!['a'];
    assert_eq!(find_character(0, 0, &cell72, &glyphs, &alph, false), Some('a'));
    assert_eq!(find_character(0, 0, &cell72, &glyphs, &alph, true), None);

    for slot in col.iter_mut().take(8) {
        *slot = bad;
    }
    let cell68 = cell_image(&[col]);
    assert_eq!(find_character(0, 0, &cell68, &glyphs, &alph, false), None);
}

#[test]
fn strict_acceptance_needs_every_pixel() {
    let good = px(100, 0, 0, 255);
    let near = px(104, 0, 0, 255); // distance 4: matches strictly
    let off = px(120, 0, 0, 255); // distance 20: matches in no mode
    let glyph = cell_image(&[solid_col(good)]);
    let glyphs = vec![glyph.duplicate()];
    let alph = vec!['a'];

    let all_near = cell_image(&[solid_col(near)]);
    assert_eq!(find_character(0, 0, &all_near, &glyphs, &alph, true), Some('a'));

    let mut col = vec![good; CHAR_HEIGHT];
    col[0] = off;
    let almost = cell_image(&[col]);
    assert_eq!(find_character(0, 0, &almost, &glyphs, &alph, true), None);
    assert_eq!(find_character(0, 0, &almost, &glyphs, &alph, false), Some('a'));
}

#[test]
fn distance_sums_signed_channel_differences() {
    // The channel differences are summed before the absolute value, so +5 on
    // one channel cancels -5 on another: these pixels are a strict match,
    // although each differs on two channels.
    let a = px(5, 0, 0, 255);
    let b = px(0, 5, 0, 255);
    let glyph = cell_image(&[solid_col(a)]);
    let cell = cell_image(&[solid_col(b)]);
    let glyphs = vec![glyph];
    let alph = vec!['a'];
    assert_eq!(find_character(0, 0, &cell, &glyphs, &alph, true), Some('a'));
}
