use bdsup::bdsup::{PgsError, PgsParser};
use bdsup::display_set::{read_display_set, reassemble_objects};
use bdsup::segments::{parse_ods, parse_pcs, parse_pds, parse_wds};
use bdsup::image::GrayAlphaImage;
use bdsup::pgs_types::{CompositionState, LastInSequence, ObjectDefinition};

fn segment(kind: u8, payload: &[u8]) -> Vec<u8> {
    let mut out = vec![kind, (payload.len() >> 8) as u8, payload.len() as u8];
    out.extend_from_slice(payload);
    out
}

fn palette_segment(id: u8, entries: &[(u8, u8, u8)]) -> Vec<u8> {
    let mut p = vec![id, 0];
    for &(color, luma, alpha) in entries {
        p.extend_from_slice(&[color, luma, 128, 128, alpha]);
    }
    segment(0x14, &p)
}

fn window_segment(windows: &[(u8, u16, u16, u16, u16)]) -> Vec<u8> {
    let mut p = vec![windows.len() as u8];
    for &(id, x, y, w, h) in windows {
        p.push(id);
        for v in [x, y, w, h] {
            p.extend_from_slice(&v.to_be_bytes());
        }
    }
    segment(0x17, &p)
}

fn object_segment(id: u16, flags: u8, width: u16, height: u16, rle: &[u8]) -> Vec<u8> {
    let mut p = id.to_be_bytes().to_vec();
    p.push(0);
    p.push(flags);
    let len = (rle.len() + 4) as u32;
    p.extend_from_slice(&len.to_be_bytes()[1..]);
    p.extend_from_slice(&width.to_be_bytes());
    p.extend_from_slice(&height.to_be_bytes());
    p.extend_from_slice(rle);
    segment(0x15, &p)
}

/// Composition objects as (object id, window id, x, y).
fn composition_segment(
    width: u16,
    height: u16,
    number: u16,
    state: u8,
    palette_id: u8,
    objects: &[(u16, u8, u16, u16)],
) -> Vec<u8> {
    let mut p = Vec::new();
    p.extend_from_slice(&width.to_be_bytes());
    p.extend_from_slice(&height.to_be_bytes());
    p.push(0x10);
    p.extend_from_slice(&number.to_be_bytes());
    p.push(state);
    p.push(0);
    p.push(palette_id);
    p.push(objects.len() as u8);
    for &(oid, wid, x, y) in objects {
        p.extend_from_slice(&oid.to_be_bytes());
        p.push(wid);
        p.push(0);
        p.extend_from_slice(&x.to_be_bytes());
        p.extend_from_slice(&y.to_be_bytes());
    }
    segment(0x16, &p)
}

fn end_segment() -> Vec<u8> {
    segment(0x80, &[])
}

fn frame(parts: &[Vec<u8>]) -> Vec<u8> {
    parts.concat()
}

fn scenario_frame() -> Vec<u8> {
    frame(&[
        palette_segment(0, &[(1, 200, 255)]),
        window_segment(&[(0, 10, 10, 20, 20)]),
        // A 4 by 2 block of color 1: one row of literal pixels, one row as a run.
        object_segment(0, 0x03, 4, 2, &[1, 1, 1, 1, 0, 0, 0, 0x84, 1, 0, 0]),
        composition_segment(100, 100, 1, 0x80, 0, &[(0, 0, 0, 0)]),
        end_segment(),
    ])
}

fn pixel(img: &GrayAlphaImage, x: u32, y: u32) -> (u8, u8) {
    let p = img.get_pixel(x, y);
    (p.luma, p.alpha)
}

#[test]
fn end_to_end_block_is_drawn_in_its_window() {
    let mut parser = PgsParser::new();
    let img = parser.process_mkv_frame(&scenario_frame()).unwrap().unwrap();
    assert_eq!(img.width(), 100);
    assert_eq!(img.height(), 100);
    for y in 0..100 {
        for x in 0..100 {
            let inside = (10..14).contains(&x) && (10..12).contains(&y);
            let expected = if inside { (200, 255) } else { (0, 0) };
            assert_eq!(pixel(&img, x, y), expected, "pixel ({}, {})", x, y);
        }
    }
}

#[test]
fn display_set_without_composition_is_a_format_error() {
    let mut parser = PgsParser::new();
    let f = frame(&[palette_segment(0, &[(1, 200, 255)]), end_segment()]);
    assert_eq!(parser.process_mkv_frame(&f).err(), Some(PgsError::FormatError));
}

#[test]
fn overlong_segment_length_is_a_format_error() {
    let mut f = vec![0x14, 0x00, 0x10];
    f.extend_from_slice(&[0, 0, 1, 2, 3]);
    assert_eq!(read_display_set(&f).err(), Some(PgsError::FormatError));
    let mut parser = PgsParser::new();
    assert_eq!(parser.process_mkv_frame(&f).err(), Some(PgsError::FormatError));
}

#[test]
fn truncated_header_and_unknown_segment_are_format_errors() {
    assert_eq!(read_display_set(&[0x16, 0x00]).err(), Some(PgsError::FormatError));
    assert_eq!(read_display_set(&[]).err(), Some(PgsError::FormatError));
    let f = frame(&[segment(0x42, &[1, 2]), end_segment()]);
    assert_eq!(read_display_set(&f).err(), Some(PgsError::FormatError));
    let f = frame(&[composition_segment(10, 10, 1, 0x20, 0, &[]), end_segment()]);
    assert_eq!(read_display_set(&f).err(), Some(PgsError::FormatError));
}

#[test]
fn segments_split_at_their_length_fields() {
    let f = scenario_frame();
    let ds = read_display_set(&f).unwrap();
    assert_eq!(ds.pds.len(), 1);
    assert_eq!(ds.wds.len(), 1);
    assert_eq!(ds.ods.len(), 1);
    assert_eq!(ds.pcs.width, 100);
    assert_eq!(ds.pcs.composition_objects.len(), 1);
    assert_eq!(ds.ods[0].rle_data, vec![1, 1, 1, 1, 0, 0, 0, 0x84, 1, 0, 0]);
    // Bytes after the end segment are not read.
    let mut longer = f.clone();
    longer.extend_from_slice(&[0xFF, 0xFF]);
    assert!(read_display_set(&longer).is_ok());
}

#[test]
fn fragmented_object_is_joined_within_a_display_set() {
    let f = frame(&[
        palette_segment(0, &[(1, 200, 255)]),
        window_segment(&[(0, 0, 0, 20, 20)]),
        object_segment(7, 0x01, 4, 2, &[1, 1]),
        object_segment(7, 0x00, 4, 2, &[1, 1, 0, 0]),
        object_segment(7, 0x02, 4, 2, &[0, 0x84, 1]),
        composition_segment(30, 30, 1, 0x80, 0, &[(7, 0, 0, 0)]),
        end_segment(),
    ]);
    let ds = read_display_set(&f).unwrap();
    assert_eq!(ds.ods.len(), 1);
    assert_eq!(ds.ods[0].object_id, 7);
    assert_eq!(ds.ods[0].rle_data, vec![1, 1, 1, 1, 0, 0, 0, 0x84, 1]);
    let mut parser = PgsParser::new();
    let img = parser.process_mkv_frame(&f).unwrap().unwrap();
    assert_eq!(pixel(&img, 3, 1), (200, 255));
    assert_eq!(pixel(&img, 4, 1), (0, 0));
}

#[test]
fn pending_object_is_flushed_at_end_of_display_set() {
    let f = frame(&[
        object_segment(3, 0x01, 1, 1, &[5]),
        composition_segment(10, 10, 1, 0x80, 0, &[]),
        end_segment(),
    ]);
    let ds = read_display_set(&f).unwrap();
    assert_eq!(ds.ods.len(), 1);
    assert_eq!(ds.ods[0].rle_data, vec![5]);
}

fn object(id: u16, first: bool, last: bool, rle: Vec<u8>) -> ObjectDefinition {
    ObjectDefinition {
        object_id: id,
        object_version: 0,
        last_in_sequence: LastInSequence { first_in_sequence: first, last_in_sequence: last },
        object_data_length: 0,
        width: 1,
        height: 1,
        rle_data: rle,
    }
}

#[test]
fn whole_object_is_kept_as_is() {
    let out = reassemble_objects(vec![object(1, true, true, vec![9, 8, 7])]);
    assert_eq!(out.len(), 1);
    assert_eq!(out[0].object_id, 1);
    assert_eq!(out[0].rle_data, vec![9, 8, 7]);
}

#[test]
fn first_middle_last_are_concatenated() {
    let out = reassemble_objects(vec![
        object(2, true, false, vec![1, 2]),
        object(2, false, false, vec![3]),
        object(2, false, true, vec![4, 5]),
    ]);
    assert_eq!(out.len(), 1);
    assert_eq!(out[0].rle_data, vec![1, 2, 3, 4, 5]);
}

#[test]
fn stray_continuations_are_dropped() {
    let out = reassemble_objects(vec![
        object(1, false, true, vec![1]),
        object(1, false, false, vec![2]),
        object(4, true, true, vec![3]),
    ]);
    assert_eq!(out.len(), 1);
    assert_eq!(out[0].object_id, 4);
    // A new first segment flushes the pending object before it.
    let out = reassemble_objects(vec![object(1, true, false, vec![1]), object(2, true, true, vec![2])]);
    assert_eq!(out.len(), 2);
    assert_eq!(out[0].object_id, 1);
    assert_eq!(out[1].object_id, 2);
}

#[test]
fn epoch_start_forgets_earlier_objects() {
    let mut parser = PgsParser::new();
    parser.process_mkv_frame(&scenario_frame()).unwrap();
    // A new epoch that defines a palette and a window but references the old object 0.
    let f = frame(&[
        palette_segment(0, &[(1, 200, 255)]),
        window_segment(&[(0, 10, 10, 20, 20)]),
        composition_segment(100, 100, 2, 0x80, 0, &[(0, 0, 0, 0)]),
        end_segment(),
    ]);
    assert_eq!(
        parser.process_mkv_frame(&f).err(),
        Some(PgsError::MissingObject { object_id: 0, composition_number: 2 })
    );
    // Without an epoch start the cached palette, window and object are still used.
    let mut parser = PgsParser::new();
    parser.process_mkv_frame(&scenario_frame()).unwrap();
    let f = frame(&[composition_segment(100, 100, 2, 0x00, 0, &[(0, 0, 1, 1)]), end_segment()]);
    let img = parser.process_mkv_frame(&f).unwrap().unwrap();
    assert_eq!(pixel(&img, 11, 11), (200, 255));
    assert_eq!(pixel(&img, 10, 10), (0, 0));
}

#[test]
fn epoch_start_forgets_earlier_palettes_and_windows() {
    let mut parser = PgsParser::new();
    parser.process_mkv_frame(&scenario_frame()).unwrap();
    let f = frame(&[composition_segment(100, 100, 3, 0x80, 0, &[(0, 0, 0, 0)]), end_segment()]);
    assert_eq!(
        parser.process_mkv_frame(&f).err(),
        Some(PgsError::MissingPalette { palette_id: 0, composition_number: 3 })
    );
    let mut parser = PgsParser::new();
    parser.process_mkv_frame(&scenario_frame()).unwrap();
    let f = frame(&[
        palette_segment(0, &[(1, 200, 255)]),
        object_segment(0, 0x03, 1, 1, &[1]),
        composition_segment(100, 100, 4, 0x80, 0, &[(0, 0, 0, 0)]),
        end_segment(),
    ]);
    assert_eq!(
        parser.process_mkv_frame(&f).err(),
        Some(PgsError::MissingWindow { window_id: 0, composition_number: 4 })
    );
}

#[test]
fn acquisition_point_accumulates_objects() {
    let mut parser = PgsParser::new();
    let first = frame(&[
        palette_segment(0, &[(1, 100, 255), (2, 150, 255), (3, 250, 255)]),
        window_segment(&[(0, 0, 0, 50, 50)]),
        object_segment(10, 0x03, 1, 1, &[1]),
        object_segment(11, 0x03, 1, 1, &[2]),
        object_segment(12, 0x03, 1, 1, &[3]),
        composition_segment(50, 50, 5, 0x80, 0, &[(10, 0, 0, 0), (11, 0, 1, 0)]),
        end_segment(),
    ]);
    let img = parser.process_mkv_frame(&first).unwrap().unwrap();
    assert_eq!(pixel(&img, 0, 0), (100, 255));
    assert_eq!(pixel(&img, 1, 0), (150, 255));
    assert_eq!(pixel(&img, 2, 0), (0, 0));
    let second = frame(&[composition_segment(50, 50, 6, 0x40, 0, &[(12, 0, 2, 0)]), end_segment()]);
    let img = parser.process_mkv_frame(&second).unwrap().unwrap();
    assert_eq!(pixel(&img, 0, 0), (100, 255));
    assert_eq!(pixel(&img, 1, 0), (150, 255));
    assert_eq!(pixel(&img, 2, 0), (250, 255));
    // The running composition takes the new composition number.
    let third = frame(&[composition_segment(50, 50, 7, 0x40, 0, &[(99, 0, 0, 0)]), end_segment()]);
    assert_eq!(
        parser.process_mkv_frame(&third).err(),
        Some(PgsError::MissingObject { object_id: 99, composition_number: 7 })
    );
}

#[test]
fn normal_state_replaces_the_running_composition() {
    let mut parser = PgsParser::new();
    parser.process_mkv_frame(&scenario_frame()).unwrap();
    let f = frame(&[composition_segment(100, 100, 2, 0x00, 0, &[]), end_segment()]);
    let img = parser.process_mkv_frame(&f).unwrap().unwrap();
    assert_eq!(pixel(&img, 10, 10), (0, 0));
}

#[test]
fn acquisition_point_without_running_composition_becomes_it() {
    let mut parser = PgsParser::new();
    let f = frame(&[
        palette_segment(0, &[(1, 200, 255)]),
        window_segment(&[(0, 0, 0, 5, 5)]),
        object_segment(0, 0x03, 1, 1, &[1]),
        composition_segment(5, 5, 1, 0x40, 0, &[(0, 0, 0, 0)]),
        end_segment(),
    ]);
    let img = parser.process_mkv_frame(&f).unwrap().unwrap();
    assert_eq!(pixel(&img, 0, 0), (200, 255));
}

#[test]
fn missing_color_reports_ids() {
    let mut parser = PgsParser::new();
    let f = frame(&[
        palette_segment(2, &[(1, 200, 255)]),
        window_segment(&[(0, 0, 0, 5, 5)]),
        object_segment(0, 0x03, 1, 1, &[1, 9]),
        composition_segment(5, 5, 8, 0x80, 2, &[(0, 0, 0, 0)]),
        end_segment(),
    ]);
    assert_eq!(
        parser.process_mkv_frame(&f).err(),
        Some(PgsError::MissingColor { color_id: 9, palette_id: 2, composition_number: 8 })
    );
}

#[test]
fn truncated_escape_is_an_rle_error() {
    let mut parser = PgsParser::new();
    let f = frame(&[
        palette_segment(0, &[(1, 200, 255)]),
        window_segment(&[(0, 0, 0, 5, 5)]),
        object_segment(0, 0x03, 1, 1, &[1, 0, 0x81]),
        composition_segment(5, 5, 1, 0x80, 0, &[(0, 0, 0, 0)]),
        end_segment(),
    ]);
    assert_eq!(parser.process_mkv_frame(&f).err(), Some(PgsError::RleFormatError));
}

#[test]
fn format_error_leaves_the_cache_as_it_was() {
    let mut parser = PgsParser::new();
    parser.process_mkv_frame(&scenario_frame()).unwrap();
    let bad = frame(&[composition_segment(1, 1, 9, 0x80, 0, &[]), vec![0x80, 0, 5]]);
    assert_eq!(parser.process_mkv_frame(&bad).err(), Some(PgsError::FormatError));
    let f = frame(&[composition_segment(100, 100, 2, 0x00, 0, &[(0, 0, 0, 0)]), end_segment()]);
    let img = parser.process_mkv_frame(&f).unwrap().unwrap();
    assert_eq!(pixel(&img, 13, 11), (200, 255));
}

#[test]
fn cropped_composition_object_shows_only_the_crop() {
    let mut parser = PgsParser::new();
    let mut pcs = Vec::new();
    pcs.extend_from_slice(&20u16.to_be_bytes());
    pcs.extend_from_slice(&20u16.to_be_bytes());
    pcs.push(0x10);
    pcs.extend_from_slice(&1u16.to_be_bytes());
    pcs.push(0x80);
    pcs.push(0);
    pcs.push(0);
    pcs.push(1);
    pcs.extend_from_slice(&[0, 0, 0, 0x80, 0, 2, 0, 3]);
    // Crop origin (1, 0), size 2 by 1.
    pcs.extend_from_slice(&[0, 1, 0, 0, 0, 2, 0, 1]);
    let f = frame(&[
        palette_segment(0, &[(1, 10, 255), (2, 20, 255), (3, 30, 255), (4, 40, 255)]),
        window_segment(&[(0, 5, 5, 10, 10)]),
        object_segment(0, 0x03, 4, 2, &[1, 2, 3, 4, 0, 0, 1, 2, 3, 4]),
        segment(0x16, &pcs),
        end_segment(),
    ]);
    let img = parser.process_mkv_frame(&f).unwrap().unwrap();
    // Placed at window (5, 5) plus offset (2, 3).
    assert_eq!(pixel(&img, 7, 8), (20, 255));
    assert_eq!(pixel(&img, 8, 8), (30, 255));
    assert_eq!(pixel(&img, 9, 8), (0, 0));
    assert_eq!(pixel(&img, 6, 8), (0, 0));
    assert_eq!(pixel(&img, 7, 9), (0, 0));
}

#[test]
fn window_segment_decodes_records() {
    let p = [2, 1, 0, 10, 0, 20, 0, 30, 0, 40, 2, 1, 0, 0, 1, 0, 2, 0, 3, 99];
    let ws = parse_wds(&p).unwrap();
    assert_eq!(ws.len(), 2);
    assert_eq!((ws[0].window_id, ws[0].horizontal_pos, ws[0].vertical_pos), (1, 10, 20));
    assert_eq!((ws[0].width, ws[0].height), (30, 40));
    assert_eq!((ws[1].window_id, ws[1].horizontal_pos, ws[1].vertical_pos), (2, 256, 1));
    assert_eq!((ws[1].width, ws[1].height), (2, 3));
    assert_eq!(parse_wds(&p[..15]).err(), Some(PgsError::FormatError));
    assert_eq!(parse_wds(&[]).err(), Some(PgsError::FormatError));
}

#[test]
fn palette_segment_decodes_entries() {
    let p = [3, 1, 5, 16, 128, 129, 200, 6, 17, 130, 131, 0];
    let pal = parse_pds(&p).unwrap();
    assert_eq!((pal.palette_id, pal.palette_version), (3, 1));
    assert_eq!(pal.entries.len(), 2);
    assert_eq!(pal.entries[0].palette_entry_id, 5);
    assert_eq!(pal.entries[0].luminance, 16);
    assert_eq!(pal.entries[0].color_diff_red, 128);
    assert_eq!(pal.entries[0].color_diff_blue, 129);
    assert_eq!(pal.entries[0].transparency, 200);
    assert_eq!(pal.entries[1].transparency, 0);
    assert_eq!(parse_pds(&p[..10]).err(), Some(PgsError::FormatError));
    assert_eq!(parse_pds(&[3]).err(), Some(PgsError::FormatError));
    assert_eq!(parse_pds(&[3, 0]).unwrap().entries.len(), 0);
}

#[test]
fn object_segment_decodes_fields() {
    let p = [0x01, 0x02, 7, 0x03, 0, 0, 9, 0, 3, 0, 2, 1, 2, 3];
    let o = parse_ods(&p).unwrap();
    assert_eq!(o.object_id, 0x0102);
    assert_eq!(o.object_version, 7);
    assert!(o.last_in_sequence.first_in_sequence && o.last_in_sequence.last_in_sequence);
    assert_eq!(o.last_in_sequence.bits(), 0x03);
    assert_eq!(o.object_data_length, 5);
    assert_eq!((o.width, o.height), (3, 2));
    assert_eq!(o.rle_data, vec![1, 2, 3]);
    // Bits other than the two flags carry nothing.
    let mut other = p;
    other[3] = 0xFD;
    let o = parse_ods(&other).unwrap();
    assert!(o.last_in_sequence.first_in_sequence && !o.last_in_sequence.last_in_sequence);
    assert_eq!(o.last_in_sequence.bits(), 0x01);
    assert_eq!(parse_ods(&p[..10]).err(), Some(PgsError::FormatError));
    let first = parse_ods(&[0, 1, 0, 0x01, 0, 0, 0, 0, 1, 0, 1]).unwrap();
    assert!(first.last_in_sequence.first_in_sequence && !first.last_in_sequence.last_in_sequence);
    assert_eq!(first.object_data_length, 0);
    assert!(first.rle_data.is_empty());
    let neither = parse_ods(&[0, 1, 0, 0x40, 0, 0, 0, 0, 1, 0, 1]).unwrap();
    assert!(!neither.last_in_sequence.first_in_sequence && !neither.last_in_sequence.last_in_sequence);
    assert_eq!(LastInSequence::from_bits(0x02).bits(), 0x02);
    assert_eq!(LastInSequence::from_bits(0x82).bits(), 0x02);
}

#[test]
fn composition_segment_decodes_fields() {
    let mut p = vec![0x07, 0x80, 0x04, 0x38, 0x10, 0x00, 0x05, 0x40, 0x01, 0x03, 2];
    p.extend_from_slice(&[0, 1, 2, 0x00, 0, 10, 0, 20]);
    p.extend_from_slice(&[0, 2, 3, 0x80, 0, 11, 0, 21, 0, 1, 0, 2, 0, 3, 0, 4]);
    let pcs = parse_pcs(&p).unwrap();
    assert_eq!((pcs.width, pcs.height, pcs.frame_rate), (1920, 1080, 0x10));
    assert_eq!(pcs.composition_number, 5);
    assert_eq!(pcs.composition_state, CompositionState::AcquisitionPoint);
    assert!(pcs.palette_update_flag);
    assert_eq!(pcs.palette_id, 3);
    assert_eq!(pcs.composition_objects.len(), 2);
    let a = pcs.composition_objects[0];
    assert_eq!((a.object_id, a.window_id, a.object_cropped_flag), (1, 2, false));
    assert_eq!((a.object_horizontal_pos, a.object_vertical_pos), (10, 20));
    assert_eq!((a.object_cropping_width, a.object_cropping_height), (0, 0));
    let b = pcs.composition_objects[1];
    assert!(b.object_cropped_flag);
    assert_eq!((b.object_cropping_horizontal_pos, b.object_cropping_vertical_pos), (1, 2));
    assert_eq!((b.object_cropping_width, b.object_cropping_height), (3, 4));
    assert_eq!(parse_pcs(&p[..p.len() - 1]).err(), Some(PgsError::FormatError));
    let mut normal = p[..11].to_vec();
    normal[10] = 0;
    normal[7] = 0x00;
    assert_eq!(parse_pcs(&normal).unwrap().composition_state, CompositionState::Normal);
    normal[7] = 0x80;
    assert_eq!(parse_pcs(&normal).unwrap().composition_state, CompositionState::EpochStart);
    normal[7] = 0x81;
    assert_eq!(parse_pcs(&normal).err(), Some(PgsError::FormatError));
}
