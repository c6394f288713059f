use bdsup::vobs::{
    parse_control, parse_data, parse_frame, parse_idx, parse_palette, ControlData, Coordinates,
    IdxData, Rgb, SubsError,
};

fn gray_palette() -> [Rgb; 16] {
    let mut p = [Rgb { r: 0, g: 0, b: 0 }; 16];
    for (i, c) in p.iter_mut().enumerate() {
        let v = (i as u8) * 16;
        *c = Rgb { r: v, g: v, b: v + 1 };
    }
    p
}

#[test]
fn control_sequence_commands() {
    // Header (4 bytes), then one sequence at offset 4 that points at itself.
    let mut data = vec![0, 0, 0, 4];
    data.extend_from_slice(&[0x00, 0x20, 0x00, 0x04]);
    data.extend_from_slice(&[0x00, 0x01]);
    data.extend_from_slice(&[0x03, 0x12, 0x34]);
    data.extend_from_slice(&[0x04, 0xF0, 0x0F]);
    data.extend_from_slice(&[0x05, 0x00, 0x10, 0x1F, 0x00, 0x20, 0x2F]);
    data.extend_from_slice(&[0x06, 0x00, 0x30, 0x00, 0x40]);
    data.push(0xFF);
    let c = parse_control(&data, 4).unwrap();
    assert!(c.force);
    assert_eq!(c.start_time, Some(0x20));
    assert_eq!(c.stop_time, None);
    assert_eq!(c.color_palette, Some([1, 2, 3, 4]));
    assert_eq!(c.alpha_palette, Some([15, 0, 0, 15]));
    assert_eq!(c.coordinates, Some(Coordinates { x1: 1, x2: 0x01F, y1: 2, y2: 0x02F }));
    assert_eq!(c.rle_offsets, Some((0x30, 0x40)));
}

#[test]
fn control_sequences_are_chained() {
    // First sequence at 4 starts display and points at the second at 11, which stops it.
    let mut data = vec![0, 0, 0, 4];
    data.extend_from_slice(&[0x00, 0x00, 0x00, 0x0B, 0x01, 0xFF, 0xAA]);
    data.extend_from_slice(&[0x01, 0x00, 0x00, 0x0B, 0x02, 0xFF]);
    let c = parse_control(&data, 4).unwrap();
    assert_eq!(c.start_time, Some(0));
    assert_eq!(c.stop_time, Some(0x100));
}

#[test]
fn bad_control_sequences_are_rejected() {
    // Unknown command.
    assert!(parse_control(&[0, 0, 0, 0, 0x07, 0xFF], 0).is_none());
    // Cut short before the end command.
    assert!(parse_control(&[0, 0, 0, 0, 0x01], 0).is_none());
    // A palette command with one byte left.
    assert!(parse_control(&[0, 0, 0, 0, 0x03, 0x12], 0).is_none());
    // Two sequences pointing at each other never end.
    let data = [0, 0, 0, 6, 0x01, 0xFF, 0, 0, 0, 0, 0x02, 0xFF];
    assert!(parse_control(&data, 0).is_none());
    // Cursor past the data.
    assert!(parse_control(&[0, 0, 0, 0, 0xFF], 3).is_none());
}

fn small_control(even: u16, odd: u16) -> ControlData {
    ControlData {
        force: false,
        start_time: None,
        stop_time: None,
        color_palette: Some([3, 2, 1, 0]),
        alpha_palette: Some([15, 14, 13, 12]),
        coordinates: Some(Coordinates { x1: 10, x2: 13, y1: 20, y2: 21 }),
        rle_offsets: Some((even, odd)),
    }
}

#[test]
fn bitmap_rows_come_from_two_fields() {
    // Even row: run of 2 in color 1 (code 0x9), then a run to the end of the line in color 2
    // (code 0x0002). Odd row: run of 4 in color 3 (code 0x13).
    let data = [0x90, 0x00, 0x20, 0x13];
    let img = parse_data(&gray_palette(), small_control(0, 3), &data).unwrap();
    assert_eq!((img.width(), img.height()), (4, 2));
    // Local color c is palette entry colors[3 - c], with alpha alphas[3 - c].
    let p = img.get_pixel(1, 0);
    assert_eq!((p.r, p.g, p.b, p.a), (16, 16, 17, 13));
    let p = img.get_pixel(3, 0);
    assert_eq!((p.r, p.a), (32, 14));
    let p = img.get_pixel(0, 1);
    assert_eq!((p.r, p.a), (48, 15));
}

#[test]
fn bad_bitmaps_are_rejected() {
    let data = [0x90, 0x00, 0x20, 0x13];
    let mut c = small_control(0, 3);
    c.alpha_palette = None;
    assert!(parse_data(&gray_palette(), c, &data).is_none());
    // An offset past the data.
    assert!(parse_data(&gray_palette(), small_control(0, 4), &data).is_none());
    // A run past the end of the row: 5 pixels of color 0 (code 0x14).
    assert!(parse_data(&gray_palette(), small_control(0, 0), &[0x14, 0x14]).is_none());
    // A palette index of 16 or more.
    let mut c = small_control(0, 3);
    c.color_palette = Some([3, 2, 16, 0]);
    assert!(parse_data(&gray_palette(), c, &data).is_none());
}

#[test]
fn frame_header_gives_the_control_offset() {
    let mut data = vec![0, 0, 0, 8];
    data.extend_from_slice(&[0x90, 0x00, 0x20, 0x13]);
    data.extend_from_slice(&[0x00, 0x00, 0x00, 0x08]);
    data.extend_from_slice(&[0x03, 0x32, 0x10, 0x04, 0xFE, 0xDC]);
    data.extend_from_slice(&[0x05, 0x00, 0xA0, 0x0D, 0x01, 0x40, 0x15]);
    data.extend_from_slice(&[0x06, 0x00, 0x04, 0x00, 0x07, 0xFF]);
    let idx = IdxData { palette: gray_palette() };
    let img = parse_frame(&idx, &data).unwrap();
    assert_eq!((img.width(), img.height()), (4, 2));
    assert_eq!(img.get_pixel(0, 0).r, 16);
    assert_eq!(parse_frame(&idx, &[0, 0, 0]).err(), Some(SubsError::InvalidFrameHeader));
    assert_eq!(parse_frame(&idx, &[0, 0, 0, 9]).err(), Some(SubsError::InvalidControl));
    let mut no_area = vec![0, 0, 0, 4, 0, 0, 0, 4, 0xFF];
    no_area.push(0);
    assert_eq!(parse_frame(&idx, &no_area).err(), Some(SubsError::InvalidFrame));
}

#[test]
fn palette_lists_hex_colors() {
    let p = parse_palette(b"000000, ff8000 ,0A0b0C").unwrap();
    assert_eq!(p[0], Rgb { r: 0, g: 0, b: 0 });
    assert_eq!(p[1], Rgb { r: 255, g: 128, b: 0 });
    assert_eq!(p[2], Rgb { r: 10, g: 11, b: 12 });
    assert_eq!(p[15], Rgb { r: 0, g: 0, b: 0 });
    assert!(parse_palette(b"00000").is_none());
    assert!(parse_palette(b"00000g").is_none());
    assert!(parse_palette(b"000000,").is_none());
    let seventeen = vec!["112233"; 17].join(",");
    assert!(parse_palette(seventeen.as_bytes()).is_none());
    let sixteen = vec!["112233"; 16].join(",");
    assert_eq!(parse_palette(sixteen.as_bytes()).unwrap()[15], Rgb { r: 0x11, g: 0x22, b: 0x33 });
}

#[test]
fn index_file_palette_line() {
    let text = b"# VobSub index file\nsize: 720x480\npalette: 000000, 101010, 202020\r\nid: en\n";
    let idx = parse_idx(text).unwrap();
    assert_eq!(idx.palette[2], Rgb { r: 0x20, g: 0x20, b: 0x20 });
    assert_eq!(parse_idx(b"size: 720x480\n").err(), Some(SubsError::InvalidIdx));
    assert_eq!(parse_idx(b"no separator\npalette: 000000").err(), Some(SubsError::InvalidIdx));
    assert_eq!(parse_idx(b"palette: 0000").err(), Some(SubsError::InvalidIdx));
    assert!(parse_idx(b"  # comment\npalette: 00ff00").is_ok());
}
