//! The segments of a PGS display set, and the records they decode to.
use vstd::prelude::*;
use crate::bdsup::PgsError;
use crate::binary_reader::{PacketReader, u16_at};
use crate::pgs_types::{
    CompositionObject, CompositionState, LastInSequence, ObjectDefinition, ObjectDefinitionView,
    PaletteDefinition, PaletteDefinitionView, PaletteEntry, PresentationComposition,
    PresentationCompositionView, SingleWindowDefinition, sequence_flags,
};

verus! {

pub(crate) fn read_u8_field(reader: &mut PacketReader) -> (r: Result<u8, PgsError>)
    ensures
        final(reader).data() == old(reader).data(),
        final(reader).pos() <= final(reader).data().len(),
        match r {
            Ok(b) => old(reader).pos() < old(reader).data().len() && b == old(reader).data()[old(
                reader,
            ).pos()] && final(reader).pos() == old(reader).pos() + 1,
            Err(e) => e == PgsError::FormatError && old(reader).pos() >= old(reader).data().len(),
        },
{
    match reader.read_u8() {
        Some(b) => Ok(b),
        None => Err(PgsError::FormatError),
    }
}

pub(crate) fn read_u16_field(reader: &mut PacketReader) -> (r: Result<u16, PgsError>)
    ensures
        final(reader).data() == old(reader).data(),
        final(reader).pos() <= final(reader).data().len(),
        match r {
            Ok(v) => old(reader).pos() + 2 <= old(reader).data().len() && v == u16_at(
                old(reader).data(),
                old(reader).pos(),
            ) && final(reader).pos() == old(reader).pos() + 2,
            Err(e) => e == PgsError::FormatError && old(reader).pos() + 2 > old(reader).data().len(),
        },
{
    match reader.read_u16() {
        Some(v) => Ok(v),
        None => Err(PgsError::FormatError),
    }
}

/// The window record that starts at byte `i`.
pub open spec fn window_at(s: Seq<u8>, i: int) -> SingleWindowDefinition {
    SingleWindowDefinition {
        window_id: s[i],
        horizontal_pos: u16_at(s, i + 1) as u16,
        vertical_pos: u16_at(s, i + 3) as u16,
        width: u16_at(s, i + 5) as u16,
        height: u16_at(s, i + 7) as u16,
    }
}

/// A window segment: a count, then that many 9-byte window records; bytes after them are
/// ignored.
pub open spec fn spec_wds(s: Seq<u8>) -> Option<Seq<SingleWindowDefinition>> {
    if s.len() >= 1 && s.len() >= 1 + 9 * (s[0] as int) {
        Some(Seq::new(s[0] as nat, |k: int| window_at(s, 1 + 9 * k)))
    } else {
        None
    }
}

/// Decodes a window segment's payload.
pub fn parse_wds(data: &[u8]) -> (r: Result<Vec<SingleWindowDefinition>, PgsError>)
    ensures
        match r {
            Ok(ws) => spec_wds(data@) == Some(ws@),
            Err(e) => spec_wds(data@) is None && e == PgsError::FormatError,
        },
{
    let mut reader = PacketReader::new(data);
    let num_windows = read_u8_field(&mut reader)?;
    let mut windows: Vec<SingleWindowDefinition> = Vec::new();
    let mut i: u8 = 0;
    while i < num_windows
        invariant
            reader.data() == data@,
            data@.len() >= 1,
            num_windows == data@[0],
            i <= num_windows,
            reader.pos() == 1 + 9 * i,
            reader.pos() <= data@.len(),
            windows@ == Seq::new(i as nat, |k: int| window_at(data@, 1 + 9 * k)),
        decreases num_windows - i,
    {
        let window_id = read_u8_field(&mut reader)?;
        let horizontal_pos = read_u16_field(&mut reader)?;
        let vertical_pos = read_u16_field(&mut reader)?;
        let width = read_u16_field(&mut reader)?;
        let height = read_u16_field(&mut reader)?;
        windows.push(SingleWindowDefinition { window_id, horizontal_pos, vertical_pos, width, height });
        i = i + 1;
        assert(windows@ =~= Seq::new(i as nat, |k: int| window_at(data@, 1 + 9 * k)));
    }
    Ok(windows)
}

/// The palette entry record that starts at byte `i`.
pub open spec fn entry_at(s: Seq<u8>, i: int) -> PaletteEntry {
    PaletteEntry {
        palette_entry_id: s[i],
        luminance: s[i + 1],
        color_diff_red: s[i + 2],
        color_diff_blue: s[i + 3],
        transparency: s[i + 4],
    }
}

/// A palette segment: id and version, then 5-byte entries up to the end of the segment.
pub open spec fn spec_pds(s: Seq<u8>) -> Option<PaletteDefinitionView> {
    if s.len() >= 2 && (s.len() - 2) % 5 == 0 {
        Some(
            PaletteDefinitionView {
                palette_id: s[0],
                palette_version: s[1],
                entries: Seq::new(((s.len() - 2) / 5) as nat, |k: int| entry_at(s, 2 + 5 * k)),
            },
        )
    } else {
        None
    }
}

/// Decodes a palette segment's payload.
pub fn parse_pds(data: &[u8]) -> (r: Result<PaletteDefinition, PgsError>)
    ensures
        match r {
            Ok(p) => spec_pds(data@) == Some(p@),
            Err(e) => spec_pds(data@) is None && e == PgsError::FormatError,
        },
{
    let mut reader = PacketReader::new(data);
    let palette_id = read_u8_field(&mut reader)?;
    let palette_version = read_u8_field(&mut reader)?;
    let mut entries: Vec<PaletteEntry> = Vec::new();
    loop
        invariant
            reader.data() == data@,
            data@.len() >= 2,
            palette_id == data@[0],
            palette_version == data@[1],
            reader.pos() == 2 + 5 * entries@.len(),
            reader.pos() <= data@.len(),
            entries@ == Seq::new(entries@.len(), |k: int| entry_at(data@, 2 + 5 * k)),
        ensures
            reader.pos() == data@.len(),
        decreases data@.len() - reader.pos(),
    {
        let palette_entry_id = match reader.read_u8() {
            Some(b) => b,
            None => {
                break;
            },
        };
        let luminance = read_u8_field(&mut reader)?;
        let color_diff_red = read_u8_field(&mut reader)?;
        let color_diff_blue = read_u8_field(&mut reader)?;
        let transparency = read_u8_field(&mut reader)?;
        entries.push(
            PaletteEntry {
                palette_entry_id,
                luminance,
                color_diff_red,
                color_diff_blue,
                transparency,
            },
        );
        assert(entries@ =~= Seq::new(entries@.len(), |k: int| entry_at(data@, 2 + 5 * k)));
    }
    let ghost n = entries@.len();
    assert((5 * n) % 5 == 0 && (5 * n) / 5 == n) by (nonlinear_arith);
    let r = PaletteDefinition { palette_id, palette_version, entries };
    assert(spec_pds(data@) == Some(r@));
    Ok(r)
}

/// The big-endian 24-bit value of the three bytes from `i`.
pub open spec fn u24_at(s: Seq<u8>, i: int) -> int {
    s[i] as int * 65536 + s[i + 1] as int * 256 + s[i + 2] as int
}

/// An object segment: id, version, sequence flags, the declared data length (which counts the
/// width and height that follow), width, height, and then this segment's share of the
/// run-length data, up to the end of the segment.
pub open spec fn spec_ods(s: Seq<u8>) -> Option<ObjectDefinitionView> {
    if s.len() >= 11 {
        Some(
            ObjectDefinitionView {
                object_id: u16_at(s, 0) as u16,
                object_version: s[2],
                last_in_sequence: sequence_flags(s[3]),
                object_data_length: if u24_at(s, 4) >= 4 {
                    (u24_at(s, 4) - 4) as u32
                } else {
                    0
                },
                width: u16_at(s, 7) as u16,
                height: u16_at(s, 9) as u16,
                rle_data: s.subrange(11, s.len() as int),
            },
        )
    } else {
        None
    }
}

/// Decodes an object segment's payload.
pub fn parse_ods(data: &[u8]) -> (r: Result<ObjectDefinition, PgsError>)
    ensures
        match r {
            Ok(o) => spec_ods(data@) == Some(o@),
            Err(e) => spec_ods(data@) is None && e == PgsError::FormatError,
        },
{
    let mut reader = PacketReader::new(data);
    let object_id = read_u16_field(&mut reader)?;
    let object_version = read_u8_field(&mut reader)?;
    let flags = read_u8_field(&mut reader)?;
    let len_bytes = match reader.take_bytes(3) {
        Some(b) => b,
        None => {
            return Err(PgsError::FormatError);
        },
    };
    let declared: u32 = (len_bytes[0] as u32) * 65536 + (len_bytes[1] as u32) * 256
        + (len_bytes[2] as u32);
    let object_data_length: u32 = if declared >= 4 {
        declared - 4
    } else {
        0
    };
    let width = read_u16_field(&mut reader)?;
    let height = read_u16_field(&mut reader)?;
    let rest = reader.get_remaining_bytes();
    let rle = match reader.take_bytes(rest) {
        Some(b) => b,
        None => {
            return Err(PgsError::FormatError);
        },
    };
    let last_in_sequence = LastInSequence::from_bits(flags);
    let rle_data = vstd::slice::slice_to_vec(rle);
    let r = ObjectDefinition {
        object_id,
        object_version,
        last_in_sequence,
        object_data_length,
        width,
        height,
        rle_data,
    };
    assert(spec_ods(data@) == Some(r@));
    Ok(r)
}

/// The composition state that a state byte names.
pub open spec fn composition_state_of(b: u8) -> Option<CompositionState> {
    if b == 0x00 {
        Some(CompositionState::Normal)
    } else if b == 0x40 {
        Some(CompositionState::AcquisitionPoint)
    } else if b == 0x80 {
        Some(CompositionState::EpochStart)
    } else {
        None
    }
}

/// Whether the composition object record at `i` carries a crop rectangle.
pub open spec fn object_cropped_at(s: Seq<u8>, i: int) -> bool {
    s[i + 3] >= 0x80
}

/// Bytes in the composition object record at `i`: 8, and 8 more for a crop rectangle.
pub open spec fn object_size_at(s: Seq<u8>, i: int) -> int {
    if object_cropped_at(s, i) {
        16
    } else {
        8
    }
}

/// The composition object record that starts at byte `i`.
pub open spec fn composition_object_at(s: Seq<u8>, i: int) -> CompositionObject {
    let cropped = object_cropped_at(s, i);
    CompositionObject {
        object_id: u16_at(s, i) as u16,
        window_id: s[i + 2],
        object_cropped_flag: cropped,
        object_horizontal_pos: u16_at(s, i + 4) as u16,
        object_vertical_pos: u16_at(s, i + 6) as u16,
        object_cropping_horizontal_pos: if cropped {
            u16_at(s, i + 8) as u16
        } else {
            0
        },
        object_cropping_vertical_pos: if cropped {
            u16_at(s, i + 10) as u16
        } else {
            0
        },
        object_cropping_width: if cropped {
            u16_at(s, i + 12) as u16
        } else {
            0
        },
        object_cropping_height: if cropped {
            u16_at(s, i + 14) as u16
        } else {
            0
        },
    }
}

/// The `n` composition object records that follow one another from byte `i`, if they all fit.
pub open spec fn composition_objects_from(s: Seq<u8>, i: int, n: nat) -> Option<
    Seq<CompositionObject>,
>
    decreases n,
{
    if n == 0 {
        Some(Seq::empty())
    } else if i < 0 || i + 4 > s.len() || i + object_size_at(s, i) > s.len() {
        None
    } else {
        match composition_objects_from(s, i + object_size_at(s, i), (n - 1) as nat) {
            Some(rest) => Some(seq![composition_object_at(s, i)] + rest),
            None => None,
        }
    }
}

/// `done` followed by the records of `rest`, if there are any.
pub open spec fn prepend_objects(done: Seq<CompositionObject>, rest: Option<Seq<CompositionObject>>) -> Option<
    Seq<CompositionObject>,
> {
    match rest {
        Some(r) => Some(done + r),
        None => None,
    }
}

/// A composition segment: an 11-byte header, then as many composition object records as the
/// header's last byte counts; bytes after them are ignored.
pub open spec fn spec_pcs(s: Seq<u8>) -> Option<PresentationCompositionView> {
    if s.len() >= 11 && composition_state_of(s[7]) is Some {
        match composition_objects_from(s, 11, s[10] as nat) {
            Some(objects) => Some(
                PresentationCompositionView {
                    width: u16_at(s, 0) as u16,
                    height: u16_at(s, 2) as u16,
                    frame_rate: s[4],
                    composition_number: u16_at(s, 5) as u16,
                    composition_state: composition_state_of(s[7])->0,
                    palette_update_flag: s[8] > 0,
                    palette_id: s[9],
                    composition_objects: objects,
                },
            ),
            None => None,
        }
    } else {
        None
    }
}

fn parse_composition_state(b: u8) -> (r: Result<CompositionState, PgsError>)
    ensures
        match r {
            Ok(st) => composition_state_of(b) == Some(st),
            Err(e) => composition_state_of(b) is None && e == PgsError::FormatError,
        },
{
    match b {
        0x00 => Ok(CompositionState::Normal),
        0x40 => Ok(CompositionState::AcquisitionPoint),
        0x80 => Ok(CompositionState::EpochStart),
        _ => Err(PgsError::FormatError),
    }
}

/// Decodes a composition segment's payload.
pub fn parse_pcs(data: &[u8]) -> (r: Result<PresentationComposition, PgsError>)
    ensures
        match r {
            Ok(p) => spec_pcs(data@) == Some(p@),
            Err(e) => spec_pcs(data@) is None && e == PgsError::FormatError,
        },
{
    let mut reader = PacketReader::new(data);
    let width = read_u16_field(&mut reader)?;
    let height = read_u16_field(&mut reader)?;
    let frame_rate = read_u8_field(&mut reader)?;
    let composition_number = read_u16_field(&mut reader)?;
    let state_byte = read_u8_field(&mut reader)?;
    let composition_state = parse_composition_state(state_byte)?;
    let palette_update_flag = read_u8_field(&mut reader)? > 0;
    let palette_id = read_u8_field(&mut reader)?;
    let count = read_u8_field(&mut reader)?;
    let ghost s = data@;
    let mut composition_objects: Vec<CompositionObject> = Vec::new();
    let mut i: u8 = 0;
    while i < count
        invariant
            s == data@,
            reader.data() == s,
            s.len() >= 11,
            width == u16_at(s, 0),
            height == u16_at(s, 2),
            frame_rate == s[4],
            composition_number == u16_at(s, 5),
            composition_state_of(s[7]) == Some(composition_state),
            palette_update_flag == (s[8] > 0),
            palette_id == s[9],
            count == s[10],
            i <= count,
            11 <= reader.pos() <= s.len(),
            composition_objects_from(s, 11, count as nat) == prepend_objects(
                composition_objects@,
                composition_objects_from(s, reader.pos(), (count - i) as nat),
            ),
        decreases count - i,
    {
        let ghost start = reader.pos();
        assert(start + 4 > s.len() || start + object_size_at(s, start) > s.len()
            ==> composition_objects_from(s, start, (count - i) as nat) is None);
        let object_id = read_u16_field(&mut reader)?;
        let window_id = read_u8_field(&mut reader)?;
        let object_cropped_flag = read_u8_field(&mut reader)? >= 0x80;
        let object_horizontal_pos = read_u16_field(&mut reader)?;
        let object_vertical_pos = read_u16_field(&mut reader)?;
        let mut object_cropping_horizontal_pos: u16 = 0;
        let mut object_cropping_vertical_pos: u16 = 0;
        let mut object_cropping_width: u16 = 0;
        let mut object_cropping_height: u16 = 0;
        if object_cropped_flag {
            object_cropping_horizontal_pos = read_u16_field(&mut reader)?;
            object_cropping_vertical_pos = read_u16_field(&mut reader)?;
            object_cropping_width = read_u16_field(&mut reader)?;
            object_cropping_height = read_u16_field(&mut reader)?;
        }
        let object = CompositionObject {
            object_id,
            window_id,
            object_cropped_flag,
            object_horizontal_pos,
            object_vertical_pos,
            object_cropping_horizontal_pos,
            object_cropping_vertical_pos,
            object_cropping_width,
            object_cropping_height,
        };
        assert(object == composition_object_at(s, start));
        let ghost before = composition_objects@;
        composition_objects.push(object);
        i = i + 1;
        assert(before + (seq![object] + composition_objects_from(s, reader.pos(), (count - i) as nat)->0)
            =~= composition_objects@ + composition_objects_from(s, reader.pos(), (count - i) as nat)->0);
    }
    assert(composition_objects_from(s, reader.pos(), 0) == Some(Seq::<CompositionObject>::empty()));
    assert(composition_objects@ + Seq::<CompositionObject>::empty() =~= composition_objects@);
    let r = PresentationComposition {
        width,
        height,
        frame_rate,
        composition_number,
        composition_state,
        palette_update_flag,
        palette_id,
        composition_objects,
    };
    Ok(r)
}

} // verus!
