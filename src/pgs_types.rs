//! The records that the segments of a PGS display set decode to.
use vstd::prelude::*;

verus! {

#[derive(Clone, Copy, Debug, PartialEq, Eq, Structural)]
pub struct SingleWindowDefinition {
    pub window_id: u8,
    pub horizontal_pos: u16,
    pub vertical_pos: u16,
    pub width: u16,
    pub height: u16,
}

#[derive(Clone, Copy, Debug, PartialEq, Eq, Structural)]
pub struct PaletteEntry {
    pub palette_entry_id: u8,
    pub luminance: u8,
    pub color_diff_red: u8,
    pub color_diff_blue: u8,
    pub transparency: u8,
}

#[derive(Clone, Copy, Debug, PartialEq, Eq, Structural)]
pub enum CompositionState {
    Normal,
    AcquisitionPoint,
    EpochStart,
}

/// The flag bit (bit 0) of an object segment that opens a fragmented object.
pub const FIRST_IN_SEQUENCE: u8 = 0x01;

/// The flag bit (bit 1) of an object segment that closes a fragmented object.
pub const LAST_IN_SEQUENCE: u8 = 0x02;

/// The sequence flags of an object segment; both set means an unfragmented object.
#[derive(Clone, Copy, Debug, PartialEq, Eq, Structural)]
pub struct LastInSequence {
    pub first_in_sequence: bool,
    pub last_in_sequence: bool,
}

/// The flags that a flag byte holds: bit 0 is first-in-sequence, bit 1 last-in-sequence; the
/// other bits carry nothing.
pub open spec fn sequence_flags(b: u8) -> LastInSequence {
    LastInSequence { first_in_sequence: b % 2 == 1, last_in_sequence: (b / 2) % 2 == 1 }
}

impl LastInSequence {
    /// The flags of a flag byte.
    pub fn from_bits(b: u8) -> (r: LastInSequence)
        ensures
            r == sequence_flags(b),
    {
        LastInSequence { first_in_sequence: b % 2 == 1, last_in_sequence: (b / 2) % 2 == 1 }
    }

    /// The flag byte of these flags, with no other bit set.
    pub fn bits(&self) -> (r: u8)
        ensures
            sequence_flags(r) == *self,
            r < 4,
    {
        let first: u8 = if self.first_in_sequence {
            FIRST_IN_SEQUENCE
        } else {
            0
        };
        let last: u8 = if self.last_in_sequence {
            LAST_IN_SEQUENCE
        } else {
            0
        };
        first + last
    }
}

#[derive(Clone, Copy, Debug, PartialEq, Eq, Structural)]
pub struct CompositionObject {
    pub object_id: u16,
    pub window_id: u8,
    pub object_cropped_flag: bool,
    pub object_horizontal_pos: u16,
    pub object_vertical_pos: u16,
    pub object_cropping_horizontal_pos: u16,
    pub object_cropping_vertical_pos: u16,
    pub object_cropping_width: u16,
    pub object_cropping_height: u16,
}

#[derive(Clone, Debug)]
pub struct PresentationComposition {
    pub width: u16,
    pub height: u16,
    pub frame_rate: u8,
    pub composition_number: u16,
    pub composition_state: CompositionState,
    pub palette_update_flag: bool,
    pub palette_id: u8,
    pub composition_objects: Vec<CompositionObject>,
}

pub struct PresentationCompositionView {
    pub width: u16,
    pub height: u16,
    pub frame_rate: u8,
    pub composition_number: u16,
    pub composition_state: CompositionState,
    pub palette_update_flag: bool,
    pub palette_id: u8,
    pub composition_objects: Seq<CompositionObject>,
}

impl View for PresentationComposition {
    type V = PresentationCompositionView;

    open spec fn view(&self) -> PresentationCompositionView {
        PresentationCompositionView {
            width: self.width,
            height: self.height,
            frame_rate: self.frame_rate,
            composition_number: self.composition_number,
            composition_state: self.composition_state,
            palette_update_flag: self.palette_update_flag,
            palette_id: self.palette_id,
            composition_objects: self.composition_objects@,
        }
    }
}

#[derive(Clone, Debug)]
pub struct ObjectDefinition {
    pub object_id: u16,
    pub object_version: u8,
    pub last_in_sequence: LastInSequence,
    /// The declared length of the whole object's bitmap data, without its width and height.
    pub object_data_length: u32,
    pub width: u16,
    pub height: u16,
    pub rle_data: Vec<u8>,
}

pub struct ObjectDefinitionView {
    pub object_id: u16,
    pub object_version: u8,
    pub last_in_sequence: LastInSequence,
    pub object_data_length: u32,
    pub width: u16,
    pub height: u16,
    pub rle_data: Seq<u8>,
}

impl View for ObjectDefinition {
    type V = ObjectDefinitionView;

    open spec fn view(&self) -> ObjectDefinitionView {
        ObjectDefinitionView {
            object_id: self.object_id,
            object_version: self.object_version,
            last_in_sequence: self.last_in_sequence,
            object_data_length: self.object_data_length,
            width: self.width,
            height: self.height,
            rle_data: self.rle_data@,
        }
    }
}

#[derive(Clone, Debug)]
pub struct PaletteDefinition {
    pub palette_id: u8,
    pub palette_version: u8,
    pub entries: Vec<PaletteEntry>,
}

pub struct PaletteDefinitionView {
    pub palette_id: u8,
    pub palette_version: u8,
    pub entries: Seq<PaletteEntry>,
}

impl View for PaletteDefinition {
    type V = PaletteDefinitionView;

    open spec fn view(&self) -> PaletteDefinitionView {
        PaletteDefinitionView {
            palette_id: self.palette_id,
            palette_version: self.palette_version,
            entries: self.entries@,
        }
    }
}

#[derive(Clone, Debug)]
pub struct PgsDisplaySet {
    pub pcs: PresentationComposition,
    pub wds: Vec<SingleWindowDefinition>,
    pub pds: Vec<PaletteDefinition>,
    pub ods: Vec<ObjectDefinition>,
}

pub struct PgsDisplaySetView {
    pub pcs: PresentationCompositionView,
    pub wds: Seq<SingleWindowDefinition>,
    pub pds: Seq<PaletteDefinitionView>,
    pub ods: Seq<ObjectDefinitionView>,
}

impl View for PgsDisplaySet {
    type V = PgsDisplaySetView;

    open spec fn view(&self) -> PgsDisplaySetView {
        PgsDisplaySetView {
            pcs: self.pcs@,
            wds: self.wds@,
            pds: self.pds@.map_values(|p: PaletteDefinition| p@),
            ods: self.ods@.map_values(|o: ObjectDefinition| o@),
        }
    }
}

} // verus!
