use std::collections::HashMap;

use bdsup::bdsup::PgsError;
use bdsup::image::{GrayAlphaImage, LumaA};
use bdsup::render::render_into_image;
use bdsup::window_adapter::ImageWindow;

fn px(luma: u8, alpha: u8) -> LumaA {
    LumaA { luma, alpha }
}

fn palette() -> HashMap<u8, LumaA> {
    let mut p = HashMap::new();
    p.insert(1, px(10, 255));
    p.insert(2, px(20, 255));
    p.insert(3, px(30, 128));
    p.insert(4, px(40, 0));
    p
}

/// Encodes rows of color ids, one directive per pixel (a color id 1 to 255 as itself, a 0 as a
/// one-pixel transparent run), with an end-of-line escape after each row.
fn encode_rows(rows: &[Vec<u8>]) -> Vec<u8> {
    let mut out = Vec::new();
    for row in rows {
        for &c in row {
            if c == 0 {
                out.extend_from_slice(&[0, 0x01]);
            } else {
                out.push(c);
            }
        }
        out.extend_from_slice(&[0, 0]);
    }
    out
}

/// Encodes rows with the run escapes: runs of a color use the color-run variants, runs of
/// transparency the transparent variants, short runs the one-byte lengths.
fn encode_rows_with_runs(rows: &[Vec<u8>]) -> Vec<u8> {
    let mut out = Vec::new();
    for row in rows {
        let mut i = 0;
        while i < row.len() {
            let c = row[i];
            let mut n = 1;
            while i + n < row.len() && row[i + n] == c && n < 0x3FFF {
                n += 1;
            }
            match (c, n < 64) {
                (0, true) => out.extend_from_slice(&[0, n as u8]),
                (0, false) => out.extend_from_slice(&[0, 0x40 | (n >> 8) as u8, n as u8]),
                (_, true) => out.extend_from_slice(&[0, 0x80 | n as u8, c]),
                (_, false) => out.extend_from_slice(&[0, 0xC0 | (n >> 8) as u8, n as u8, c]),
            }
            i += n;
        }
        out.extend_from_slice(&[0, 0]);
    }
    out
}

fn decode(rows: usize, cols: usize, data: &[u8]) -> Result<GrayAlphaImage, PgsError> {
    let mut image = GrayAlphaImage::new(cols as u32, rows as u32);
    let mut window = ImageWindow::new(&image);
    render_into_image(&mut window, &mut image, 0, 0, &palette(), data)?;
    Ok(image)
}

fn expected(c: u8) -> (u8, u8) {
    match c {
        1 => (10, 255),
        2 => (20, 255),
        3 => (30, 128),
        _ => (0, 0),
    }
}

fn check_round_trip(rows: &[Vec<u8>], data: &[u8]) {
    let img = decode(rows.len(), rows[0].len(), data).unwrap();
    for (y, row) in rows.iter().enumerate() {
        for (x, &c) in row.iter().enumerate() {
            let p = img.get_pixel(x as u32, y as u32);
            assert_eq!((p.luma, p.alpha), expected(c), "pixel ({}, {})", x, y);
        }
    }
}

fn sample_rows() -> Vec<Vec<u8>> {
    vec![
        vec![1, 1, 0, 2, 2, 2, 0, 0],
        vec![0, 0, 0, 0, 0, 0, 0, 0],
        vec![3, 1, 2, 3, 4, 0, 1, 1],
    ]
}

#[test]
fn encoded_bitmap_decodes_to_the_same_grid() {
    let rows = sample_rows();
    check_round_trip(&rows, &encode_rows(&rows));
    check_round_trip(&rows, &encode_rows_with_runs(&rows));
}

#[test]
fn long_runs_use_two_byte_lengths() {
    let mut row = vec![2u8; 100];
    row.extend(vec![0u8; 70]);
    row.extend(vec![1u8; 3]);
    let rows = vec![row.clone(), row];
    let data = encode_rows_with_runs(&rows);
    assert_eq!(&data[..4], &[0, 0xC0, 100, 2]);
    assert_eq!(&data[4..7], &[0, 0x40, 70]);
    check_round_trip(&rows, &data);
}

#[test]
fn end_of_line_escape_resets_the_column() {
    // Two pixels, end of line, one pixel: the third pixel lands at the start of row 1.
    let img = decode(2, 3, &[1, 2, 0, 0, 1]).unwrap();
    let at = |x: u32, y: u32| {
        let p = img.get_pixel(x, y);
        (p.luma, p.alpha)
    };
    assert_eq!(at(0, 0), (10, 255));
    assert_eq!(at(1, 0), (20, 255));
    assert_eq!(at(2, 0), (0, 0));
    assert_eq!(at(0, 1), (10, 255));
    assert_eq!(at(1, 1), (0, 0));
}

#[test]
fn pixels_past_the_window_are_dropped() {
    // Five pixels in a row of a 3-wide image: the last two fall outside.
    let img = decode(2, 3, &[1, 1, 1, 2, 2]).unwrap();
    assert_eq!(img.get_pixel(2, 0).luma, 10);
    assert_eq!(img.get_pixel(0, 1).alpha, 0);
}

#[test]
fn truncated_escapes_are_rle_errors() {
    assert_eq!(decode(1, 1, &[0]).err(), Some(PgsError::RleFormatError));
    assert_eq!(decode(1, 1, &[0, 0x41]).err(), Some(PgsError::RleFormatError));
    assert_eq!(decode(1, 1, &[0, 0x81]).err(), Some(PgsError::RleFormatError));
    assert_eq!(decode(1, 1, &[0, 0xC0, 1]).err(), Some(PgsError::RleFormatError));
}

#[test]
fn unknown_colors_are_missing_color_errors() {
    let mut image = GrayAlphaImage::new(2, 2);
    let mut window = ImageWindow::new(&image);
    let r = render_into_image(&mut window, &mut image, 4, 12, &palette(), &[1, 9]);
    assert_eq!(r, Err(PgsError::MissingColor { color_id: 9, palette_id: 4, composition_number: 12 }));
    let mut window = ImageWindow::new(&image);
    let r = render_into_image(&mut window, &mut image, 4, 12, &palette(), &[0, 0x82, 7]);
    assert_eq!(r, Err(PgsError::MissingColor { color_id: 7, palette_id: 4, composition_number: 12 }));
}

#[test]
fn write_outside_the_image_is_dropped() {
    let mut image = GrayAlphaImage::new(4, 4);
    let window = ImageWindow::with_window(2, 2, 10, 10);
    window.put_pixel(&mut image, 1, 1, px(50, 255));
    window.put_pixel(&mut image, 2, 1, px(60, 255));
    window.put_pixel(&mut image, 1, 2, px(70, 255));
    assert_eq!(image.get_pixel(3, 3), px(50, 255));
    assert_eq!(image.get_pixel(2, 3), px(0, 0));
    assert_eq!(image.get_pixel(3, 2), px(0, 0));
    for y in 0..4 {
        for x in 0..4 {
            if (x, y) != (3, 3) {
                assert_eq!(image.get_pixel(x, y), px(0, 0));
            }
        }
    }
}

#[test]
fn transparent_pixel_never_overwrites() {
    let mut image = GrayAlphaImage::new(3, 3);
    let window = ImageWindow::new(&image);
    window.put_pixel(&mut image, 1, 1, px(90, 255));
    window.put_pixel(&mut image, 1, 1, px(0, 0));
    window.put_pixel(&mut image, 1, 1, px(200, 0));
    assert_eq!(image.get_pixel(1, 1), px(90, 255));
}

#[test]
fn crop_origin_moves_and_drops_coordinates() {
    let mut image = GrayAlphaImage::new(6, 6);
    let window = ImageWindow::with_window_cropped(1, 1, 2, 2, 3, 2);
    assert_eq!((window.get_width(), window.get_height()), (2, 2));
    window.put_pixel(&mut image, 2, 2, px(1, 255));
    window.put_pixel(&mut image, 3, 1, px(2, 255));
    window.put_pixel(&mut image, 3, 2, px(3, 255));
    window.put_pixel(&mut image, 4, 3, px(4, 255));
    window.put_pixel(&mut image, 5, 3, px(5, 255));
    assert_eq!(image.get_pixel(1, 1), px(3, 255));
    assert_eq!(image.get_pixel(2, 2), px(4, 255));
    assert_eq!(image.get_pixel(3, 2), px(0, 0));
    assert_eq!(image.get_pixel(0, 0), px(0, 0));
}

#[test]
fn cursor_moves_along_rows() {
    let mut image = GrayAlphaImage::new(3, 2);
    let mut window = ImageWindow::new(&image);
    window.push_pixel(&mut image, px(1, 255));
    window.push_pixel(&mut image, px(2, 255));
    window.end_line();
    window.push_pixel(&mut image, px(3, 255));
    assert_eq!(image.get_pixel(0, 0), px(1, 255));
    assert_eq!(image.get_pixel(1, 0), px(2, 255));
    assert_eq!(image.get_pixel(0, 1), px(3, 255));
    assert_eq!(image.get_pixel(1, 1), px(0, 0));
}

#[test]
fn new_image_is_transparent() {
    let image = GrayAlphaImage::new(5, 7);
    assert_eq!((image.width(), image.height()), (5, 7));
    assert_eq!(image.get_pixel(4, 6), px(0, 0));
    let mut image = image;
    image.put_pixel(4, 6, px(8, 9));
    assert_eq!(image.get_pixel(4, 6), px(8, 9));
    assert_eq!(image.get_pixel(3, 6), px(0, 0));
}

#[test]
fn crop_keeps_the_smallest_box_around_content() {
    let mut image = GrayAlphaImage::new(10, 8);
    image.put_pixel(3, 2, px(50, 255));
    image.put_pixel(6, 4, px(60, 10));
    image.put_pixel(2, 5, px(70, 255));
    image.put_pixel(9, 7, px(80, 0));
    let c = bdsup::image::crop_image(&image);
    assert_eq!((c.width(), c.height()), (5, 4));
    assert_eq!(c.get_pixel(1, 0), px(50, 255));
    assert_eq!(c.get_pixel(4, 2), px(60, 10));
    assert_eq!(c.get_pixel(0, 3), px(70, 255));
    assert_eq!(c.get_pixel(0, 0), px(0, 0));
}

#[test]
fn crop_of_a_transparent_image_is_empty() {
    let mut image = GrayAlphaImage::new(4, 4);
    image.put_pixel(1, 1, px(99, 0));
    let c = bdsup::image::crop_image(&image);
    assert_eq!((c.width(), c.height()), (0, 0));
}

#[test]
fn pixels_before_a_failed_escape_stay_drawn() {
    let mut image = GrayAlphaImage::new(4, 1);
    let mut window = ImageWindow::new(&image);
    let r = render_into_image(&mut window, &mut image, 0, 0, &palette(), &[1, 2, 0, 0x83]);
    assert_eq!(r, Err(PgsError::RleFormatError));
    assert_eq!(image.get_pixel(0, 0), px(10, 255));
    assert_eq!(image.get_pixel(1, 0), px(20, 255));
    assert_eq!(image.get_pixel(2, 0), px(0, 0));
    // The window's cursor stands after the two pixels drawn.
    window.push_pixel(&mut image, px(7, 255));
    assert_eq!(image.get_pixel(2, 0), px(7, 255));
}

#[test]
fn pixels_before_a_missing_color_stay_drawn() {
    let mut image = GrayAlphaImage::new(4, 1);
    let mut window = ImageWindow::new(&image);
    let r = render_into_image(&mut window, &mut image, 1, 2, &palette(), &[2, 0, 0x82, 1, 9, 3]);
    assert_eq!(r, Err(PgsError::MissingColor { color_id: 9, palette_id: 1, composition_number: 2 }));
    assert_eq!(image.get_pixel(0, 0), px(20, 255));
    assert_eq!(image.get_pixel(2, 0), px(10, 255));
    assert_eq!(image.get_pixel(3, 0), px(0, 0));
}
