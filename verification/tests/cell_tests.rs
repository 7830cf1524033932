use unblur::{Image, Pixel, CHAR_HEIGHT, CHAR_WIDTH};

fn px(r: u8, g: u8, b: u8, a: u8) -> Pixel {
    Pixel { r, g, b, a }
}

fn sentinel() -> Pixel {
    px(0, 0, 0, 255)
}

fn cell_image(cols: &[Vec<Pixel>]) -> Image {
    let mut pixels = Vec::new();
    for y in 0..CHAR_HEIGHT {
        for x in 0..CHAR_WIDTH {
            if x < cols.len() {
                pixels.push(cols[x][y]);
            } else {
                pixels.push(sentinel());
            }
        }
    }
    Image::new(CHAR_WIDTH, CHAR_HEIGHT, pixels)
}

#[test]
fn blank_cell_extracts_empty() {
    let img = cell_image(&[]);
    assert_eq!(img.extract_cell(0, 0), Vec::new());
}

#[test]
fn extraction_is_column_major_and_stops_at_blank() {
    let mut col0 = vec![sentinel(); CHAR_HEIGHT];
    col0[0] = px(10, 20, 30, 255);
    col0[24] = px(40, 50, 60, 255);
    let img = cell_image(&[col0.clone()]);
    let got = img.extract_cell(0, 0);
    assert_eq!(got, col0);
}

#[test]
fn everything_after_first_blank_column_is_dropped() {
    let marked = {
        let mut c = vec![sentinel(); CHAR_HEIGHT];
        c[3] = px(200, 0, 0, 255);
        c
    };
    let blank = vec![sentinel(); CHAR_HEIGHT];
    // Content after an all-sentinel column is cut off with it.
    let img = cell_image(&[marked.clone(), blank, marked.clone()]);
    let got = img.extract_cell(0, 0);
    assert_eq!(got, marked);
}

#[test]
fn full_cell_extraction_round_trips() {
    // A cell with no blank column is returned whole; rebuilding a raster
    // from that result and extracting again changes nothing (trimming an
    // already-trimmed cell is a no-op).
    let mut pixels = Vec::new();
    for y in 0..CHAR_HEIGHT {
        for x in 0..CHAR_WIDTH {
            pixels.push(px((x + 1) as u8, (y + 1) as u8, 7, 255));
        }
    }
    let img = Image::new(CHAR_WIDTH, CHAR_HEIGHT, pixels);
    let first = img.extract_cell(0, 0);
    assert_eq!(first.len(), CHAR_WIDTH * CHAR_HEIGHT);

    // first is column-major; rebuild the same raster row-major.
    let mut rebuilt = Vec::new();
    for y in 0..CHAR_HEIGHT {
        for x in 0..CHAR_WIDTH {
            rebuilt.push(first[x * CHAR_HEIGHT + y]);
        }
    }
    let img2 = Image::new(CHAR_WIDTH, CHAR_HEIGHT, rebuilt);
    let second = img2.extract_cell(0, 0);
    assert_eq!(second, first);
}

#[test]
fn cells_are_addressed_by_line_and_column() {
    // A 2x1 grid of cells; each cell has a single distinct first column.
    let mut pixels = Vec::new();
    for _y in 0..CHAR_HEIGHT {
        for x in 0..(2 * CHAR_WIDTH) {
            if x == 0 {
                pixels.push(px(11, 0, 0, 255));
            } else if x == CHAR_WIDTH {
                pixels.push(px(22, 0, 0, 255));
            } else {
                pixels.push(sentinel());
            }
        }
    }
    let img = Image::new(2 * CHAR_WIDTH, CHAR_HEIGHT, pixels);
    let left = img.extract_cell(0, 0);
    let right = img.extract_cell(0, 1);
    assert_eq!(left, vec![px(11, 0, 0, 255); CHAR_HEIGHT]);
    assert_eq!(right, vec![px(22, 0, 0, 255); CHAR_HEIGHT]);
}
