//! Splitting a frame into segments, reassembling fragmented objects, and collecting a
//! display set.
use vstd::prelude::*;
use crate::bdsup::PgsError;
use crate::binary_reader::{PacketReader, u16_at};
use crate::pgs_types::{
    ObjectDefinition, ObjectDefinitionView, PaletteDefinition, PaletteDefinitionView,
    PgsDisplaySet, PgsDisplaySetView, PresentationComposition, PresentationCompositionView,
    SingleWindowDefinition,
};
use crate::segments::{
    parse_ods, parse_pcs, parse_pds, parse_wds, read_u16_field, read_u8_field, spec_ods, spec_pcs,
    spec_pds, spec_wds,
};

verus! {

/// Segment type code of a palette definition.
pub const PGS_SEGMENT_TYPE_PDS: u8 = 0x14;

/// Segment type code of an object definition.
pub const PGS_SEGMENT_TYPE_ODS: u8 = 0x15;

/// Segment type code of a presentation composition.
pub const PGS_SEGMENT_TYPE_PCS: u8 = 0x16;

/// Segment type code of a window definition.
pub const PGS_SEGMENT_TYPE_WDS: u8 = 0x17;

/// Segment type code of the end of a display set.
pub const PGS_SEGMENT_TYPE_END: u8 = 0x80;

pub open spec fn objects_view(v: Seq<ObjectDefinition>) -> Seq<ObjectDefinitionView> {
    v.map_values(|o: ObjectDefinition| o@)
}

pub open spec fn palettes_view(v: Seq<PaletteDefinition>) -> Seq<PaletteDefinitionView> {
    v.map_values(|p: PaletteDefinition| p@)
}

pub open spec fn pending_view(o: Option<ObjectDefinition>) -> Option<ObjectDefinitionView> {
    match o {
        Some(d) => Some(d@),
        None => None,
    }
}

pub open spec fn composition_view(o: Option<PresentationComposition>) -> Option<
    PresentationCompositionView,
> {
    match o {
        Some(p) => Some(p@),
        None => None,
    }
}

/// The finished objects, with the pending one, if any, after them.
pub open spec fn flushed(ods: Seq<ObjectDefinitionView>, pending: Option<ObjectDefinitionView>) -> Seq<
    ObjectDefinitionView,
> {
    match pending {
        Some(p) => ods.push(p),
        None => ods,
    }
}

/// `o` with `more` appended to its run-length data.
pub open spec fn with_more_data(o: ObjectDefinitionView, more: Seq<u8>) -> ObjectDefinitionView {
    ObjectDefinitionView { rle_data: o.rle_data + more, ..o }
}

/// The finished objects and the pending one after one more object segment `o` arrives.
pub open spec fn reassemble_step(
    ods: Seq<ObjectDefinitionView>,
    pending: Option<ObjectDefinitionView>,
    o: ObjectDefinitionView,
) -> (Seq<ObjectDefinitionView>, Option<ObjectDefinitionView>) {
    let first = o.last_in_sequence.first_in_sequence;
    let last = o.last_in_sequence.last_in_sequence;
    if first && last {
        (flushed(ods, pending).push(o), None)
    } else if first {
        (flushed(ods, pending), Some(o))
    } else if last {
        match pending {
            Some(p) => (ods.push(with_more_data(p, o.rle_data)), None),
            None => (ods, None),
        }
    } else {
        match pending {
            Some(p) => (ods, Some(with_more_data(p, o.rle_data))),
            None => (ods, None),
        }
    }
}

/// The objects that the segments `segs` complete, after `ods` and `pending`; an object still
/// pending at the end is kept.
pub open spec fn reassemble_from(
    ods: Seq<ObjectDefinitionView>,
    pending: Option<ObjectDefinitionView>,
    segs: Seq<ObjectDefinitionView>,
) -> Seq<ObjectDefinitionView>
    decreases segs.len(),
{
    if segs.len() == 0 {
        flushed(ods, pending)
    } else {
        let (ods2, pending2) = reassemble_step(ods, pending, segs[0]);
        reassemble_from(ods2, pending2, segs.drop_first())
    }
}

/// The objects that the object segments `segs`, in this order, make up.
pub open spec fn reassemble(segs: Seq<ObjectDefinitionView>) -> Seq<ObjectDefinitionView> {
    reassemble_from(Seq::empty(), None, segs)
}

/// Takes in one more object segment: it completes an object, opens one, adds to the pending
/// one, or is dropped, as its sequence flags say.
fn add_object_segment(
    ods: &mut Vec<ObjectDefinition>,
    pending: &mut Option<ObjectDefinition>,
    o: ObjectDefinition,
)
    ensures
        (objects_view(final(ods)@), pending_view(*final(pending))) == reassemble_step(
            objects_view(old(ods)@),
            pending_view(*old(pending)),
            o@,
        ),
{
    let mut o = o;
    let first = o.last_in_sequence.first_in_sequence;
    let last = o.last_in_sequence.last_in_sequence;
    let ghost ods0 = objects_view(ods@);
    if first {
        match pending.take() {
            Some(p) => {
                ods.push(p);
            },
            None => {},
        }
        assert(objects_view(ods@) =~= flushed(ods0, pending_view(*old(pending))));
        if last {
            ods.push(o);
            assert(objects_view(ods@) =~= flushed(ods0, pending_view(*old(pending))).push(o@));
        } else {
            *pending = Some(o);
        }
    } else {
        match pending.take() {
            Some(p) => {
                let mut p = p;
                let ghost p0 = p@;
                let ghost more = o.rle_data@;
                p.rle_data.append(&mut o.rle_data);
                assert(p@ == with_more_data(p0, more));
                if last {
                    ods.push(p);
                    assert(objects_view(ods@) =~= ods0.push(p@));
                } else {
                    *pending = Some(p);
                }
            },
            None => {},
        }
    }
}

/// Merges object segments into objects: a segment flagged first and last is a whole object;
/// one flagged first opens an object that the following unflagged segments extend and the next
/// one flagged last closes. Segments that continue no open object are dropped, and an object
/// left open at the end is kept as it stands.
pub fn reassemble_objects(segments: Vec<ObjectDefinition>) -> (r: Vec<ObjectDefinition>)
    ensures
        objects_view(r@) == reassemble(objects_view(segments@)),
{
    let mut segments = segments;
    let ghost all = objects_view(segments@);
    let mut ods: Vec<ObjectDefinition> = Vec::new();
    let mut pending: Option<ObjectDefinition> = None;
    assert(objects_view(ods@) =~= Seq::<ObjectDefinitionView>::empty());
    while segments.len() > 0
        invariant
            reassemble(all) == reassemble_from(
                objects_view(ods@),
                pending_view(pending),
                objects_view(segments@),
            ),
        decreases segments.len(),
    {
        let ghost rest = objects_view(segments@);
        let o = segments.remove(0);
        assert(objects_view(segments@) =~= rest.drop_first());
        add_object_segment(&mut ods, &mut pending, o);
    }
    match pending.take() {
        Some(p) => {
            ods.push(p);
        },
        None => {},
    }
    proof {
        assert(objects_view(segments@) =~= Seq::<ObjectDefinitionView>::empty());
    }
    assert(objects_view(ods@) =~= reassemble(all));
    ods
}

/// What the segments of a display set read so far have given.
#[verifier::ext_equal]
pub struct DisplaySetProgress {
    pub pcs: Option<PresentationCompositionView>,
    pub wds: Seq<SingleWindowDefinition>,
    pub pds: Seq<PaletteDefinitionView>,
    pub ods: Seq<ObjectDefinitionView>,
    pub pending: Option<ObjectDefinitionView>,
}

pub open spec fn no_progress() -> DisplaySetProgress {
    DisplaySetProgress {
        pcs: None,
        wds: Seq::empty(),
        pds: Seq::empty(),
        ods: Seq::empty(),
        pending: None,
    }
}

/// The progress after one more segment, of type `ty`; `None` where the segment does not decode.
pub open spec fn segment_step(st: DisplaySetProgress, ty: u8, payload: Seq<u8>) -> Option<
    DisplaySetProgress,
> {
    if ty == PGS_SEGMENT_TYPE_PDS {
        match spec_pds(payload) {
            Some(p) => Some(DisplaySetProgress { pds: st.pds.push(p), ..st }),
            None => None,
        }
    } else if ty == PGS_SEGMENT_TYPE_ODS {
        match spec_ods(payload) {
            Some(o) => {
                let (ods, pending) = reassemble_step(st.ods, st.pending, o);
                Some(DisplaySetProgress { ods, pending, ..st })
            },
            None => None,
        }
    } else if ty == PGS_SEGMENT_TYPE_PCS {
        match spec_pcs(payload) {
            Some(p) => Some(DisplaySetProgress { pcs: Some(p), ..st }),
            None => None,
        }
    } else if ty == PGS_SEGMENT_TYPE_WDS {
        match spec_wds(payload) {
            Some(w) => Some(DisplaySetProgress { wds: st.wds + w, ..st }),
            None => None,
        }
    } else {
        None
    }
}

/// Whether a whole segment header, and the payload whose length it declares, start at `pos`.
pub open spec fn segment_fits(s: Seq<u8>, pos: int) -> bool {
    0 <= pos && pos + 3 <= s.len() && pos + 3 + u16_at(s, pos + 1) <= s.len()
}

/// Where the segment that starts at `pos` ends.
pub open spec fn segment_end(s: Seq<u8>, pos: int) -> int {
    pos + 3 + u16_at(s, pos + 1)
}

/// The payload of the segment that starts at `pos`.
pub open spec fn segment_payload(s: Seq<u8>, pos: int) -> Seq<u8> {
    s.subrange(pos + 3, segment_end(s, pos))
}

/// The display set that the segments from `pos` complete, after progress `st`: segments are
/// read up to the first end segment, which needs a composition to have been read; an object
/// still pending there is kept.
pub open spec fn display_set_from(s: Seq<u8>, pos: int, st: DisplaySetProgress) -> Option<
    PgsDisplaySetView,
>
    decreases s.len() - pos,
{
    if !segment_fits(s, pos) {
        None
    } else if s[pos] == PGS_SEGMENT_TYPE_END {
        match st.pcs {
            Some(pcs) => Some(
                PgsDisplaySetView {
                    pcs,
                    wds: st.wds,
                    pds: st.pds,
                    ods: flushed(st.ods, st.pending),
                },
            ),
            None => None,
        }
    } else {
        match segment_step(st, s[pos], segment_payload(s, pos)) {
            Some(next) => display_set_from(s, segment_end(s, pos), next),
            None => None,
        }
    }
}

/// The display set that a frame's bytes hold, or `None` where they do not decode.
pub open spec fn spec_display_set(s: Seq<u8>) -> Option<PgsDisplaySetView> {
    display_set_from(s, 0, no_progress())
}

pub open spec fn progress_of(
    pcs: Option<PresentationComposition>,
    wds: Seq<SingleWindowDefinition>,
    pds: Seq<PaletteDefinition>,
    ods: Seq<ObjectDefinition>,
    pending: Option<ObjectDefinition>,
) -> DisplaySetProgress {
    DisplaySetProgress {
        pcs: composition_view(pcs),
        wds,
        pds: palettes_view(pds),
        ods: objects_view(ods),
        pending: pending_view(pending),
    }
}

/// Reads the segments of one display set, up to its end segment.
pub fn read_display_set(data: &[u8]) -> (r: Result<PgsDisplaySet, PgsError>)
    ensures
        match r {
            Ok(ds) => spec_display_set(data@) == Some(ds@),
            Err(e) => spec_display_set(data@) is None && e == PgsError::FormatError,
        },
{
    let ghost s = data@;
    let mut reader = PacketReader::new(data);
    let mut pcs: Option<PresentationComposition> = None;
    let mut wds: Vec<SingleWindowDefinition> = Vec::new();
    let mut pds: Vec<PaletteDefinition> = Vec::new();
    let mut ods: Vec<ObjectDefinition> = Vec::new();
    let mut current_ods: Option<ObjectDefinition> = None;
    assert(progress_of(pcs, wds@, pds@, ods@, current_ods) =~= no_progress());
    loop
        invariant
            s == data@,
            reader.data() == s,
            0 <= reader.pos() <= s.len(),
            spec_display_set(s) == display_set_from(
                s,
                reader.pos(),
                progress_of(pcs, wds@, pds@, ods@, current_ods),
            ),
        decreases s.len() - reader.pos(),
    {
        let ghost pos = reader.pos();
        let ghost st = progress_of(pcs, wds@, pds@, ods@, current_ods);
        let segment_type = read_u8_field(&mut reader)?;
        let segment_size = read_u16_field(&mut reader)?;
        let payload = match reader.take_bytes(segment_size as usize) {
            Some(b) => b,
            None => {
                return Err(PgsError::FormatError);
            },
        };
        assert(segment_fits(s, pos));
        assert(payload@ == segment_payload(s, pos));
        assert(reader.pos() == segment_end(s, pos));
        if segment_type == PGS_SEGMENT_TYPE_PDS {
            let p = parse_pds(payload)?;
            pds.push(p);
            assert(palettes_view(pds@) =~= st.pds.push(p@));
        } else if segment_type == PGS_SEGMENT_TYPE_ODS {
            let o = parse_ods(payload)?;
            add_object_segment(&mut ods, &mut current_ods, o);
        } else if segment_type == PGS_SEGMENT_TYPE_PCS {
            let p = parse_pcs(payload)?;
            pcs = Some(p);
        } else if segment_type == PGS_SEGMENT_TYPE_WDS {
            let mut w = parse_wds(payload)?;
            wds.append(&mut w);
        } else if segment_type == PGS_SEGMENT_TYPE_END {
            let pcs = match pcs {
                Some(p) => p,
                None => {
                    return Err(PgsError::FormatError);
                },
            };
            match current_ods.take() {
                Some(o) => {
                    ods.push(o);
                },
                None => {},
            }
            let r = PgsDisplaySet { pcs, wds, pds, ods };
            assert(r@.ods =~= flushed(st.ods, st.pending));
            return Ok(r);
        } else {
            return Err(PgsError::FormatError);
        }
        assert(progress_of(pcs, wds@, pds@, ods@, current_ods) =~= segment_step(
            st,
            segment_type,
            payload@,
        )->0);
    }
}

/// The three header bytes of a segment of type `ty` with an `n`-byte payload.
pub open spec fn segment_header(ty: u8, n: u16) -> Seq<u8> {
    seq![ty, (n / 256) as u8, (n % 256) as u8]
}

/// A segment is split off at its declared length: its payload is exactly the bytes that its
/// length field counts, and the next segment starts right after them.
pub proof fn lemma_segment_split(ty: u8, payload: Seq<u8>, rest: Seq<u8>)
    requires
        payload.len() <= u16::MAX,
    ensures
        ({
            let s = segment_header(ty, payload.len() as u16) + payload + rest;
            &&& segment_fits(s, 0)
            &&& segment_payload(s, 0) == payload
            &&& segment_end(s, 0) == 3 + payload.len()
            &&& s.subrange(segment_end(s, 0), s.len() as int) == rest
        }),
{
    let s = segment_header(ty, payload.len() as u16) + payload + rest;
    assert(u16_at(s, 1) == payload.len());
    assert(segment_payload(s, 0) =~= payload);
    assert(s.subrange(segment_end(s, 0), s.len() as int) =~= rest);
}

/// A frame whose first segment declares a longer payload than the frame holds does not decode.
pub proof fn lemma_overlong_segment_rejected(s: Seq<u8>)
    requires
        s.len() >= 3,
        3 + u16_at(s, 1) > s.len(),
    ensures
        spec_display_set(s) is None,
{
}

/// An object segment flagged both first and last is an object of its own, as it is.
pub proof fn lemma_whole_object(o: ObjectDefinitionView)
    requires
        o.last_in_sequence.first_in_sequence,
        o.last_in_sequence.last_in_sequence,
    ensures
        reassemble(seq![o]) == seq![o],
{
    reveal_with_fuel(reassemble_from, 2);
    assert(seq![o].drop_first() =~= Seq::<ObjectDefinitionView>::empty());
    assert(Seq::<ObjectDefinitionView>::empty().push(o) =~= seq![o]);
}

/// A first, a middle and a last segment, in this order, make one object: that of the first
/// segment, with the run-length data of the three one after the other.
pub proof fn lemma_fragments_joined(a: ObjectDefinitionView, b: ObjectDefinitionView, c: ObjectDefinitionView)
    requires
        a.last_in_sequence.first_in_sequence && !a.last_in_sequence.last_in_sequence,
        !b.last_in_sequence.first_in_sequence && !b.last_in_sequence.last_in_sequence,
        !c.last_in_sequence.first_in_sequence && c.last_in_sequence.last_in_sequence,
    ensures
        reassemble(seq![a, b, c]) == seq![
            ObjectDefinitionView { rle_data: a.rle_data + b.rle_data + c.rle_data, ..a },
        ],
{
    reveal_with_fuel(reassemble_from, 4);
    let s = seq![a, b, c];
    assert(s.drop_first() =~= seq![b, c]);
    assert(seq![b, c].drop_first() =~= seq![c]);
    assert(seq![c].drop_first() =~= Seq::<ObjectDefinitionView>::empty());
    assert(Seq::<ObjectDefinitionView>::empty().push(
        with_more_data(with_more_data(a, b.rle_data), c.rle_data),
    ) =~= seq![ObjectDefinitionView { rle_data: a.rle_data + b.rle_data + c.rle_data, ..a }]);
}


/// A segment of type `ty` with payload `p`, as it stands in a frame.
pub open spec fn segment_bytes(ty: u8, p: Seq<u8>) -> Seq<u8> {
    segment_header(ty, p.len() as u16) + p
}

/// The segments `segs`, each a type and a payload, one after the other.
pub open spec fn frame_bytes(segs: Seq<(u8, Seq<u8>)>) -> Seq<u8>
    decreases segs.len(),
{
    if segs.len() == 0 {
        Seq::empty()
    } else {
        segment_bytes(segs[0].0, segs[0].1) + frame_bytes(segs.drop_first())
    }
}

/// Whether every segment of `segs` has a payload that its length field can count and is not
/// an end segment.
pub open spec fn well_framed(segs: Seq<(u8, Seq<u8>)>) -> bool {
    forall|i: int|
        0 <= i < segs.len() ==> (#[trigger] segs[i]).1.len() <= u16::MAX && segs[i].0
            != PGS_SEGMENT_TYPE_END
}

/// The progress after the segments `segs`, in order, or `None` where one does not decode.
pub open spec fn steps(st: DisplaySetProgress, segs: Seq<(u8, Seq<u8>)>) -> Option<DisplaySetProgress>
    decreases segs.len(),
{
    if segs.len() == 0 {
        Some(st)
    } else {
        match segment_step(st, segs[0].0, segs[0].1) {
            Some(next) => steps(next, segs.drop_first()),
            None => None,
        }
    }
}

/// The display set that an end segment makes of progress `st`.
pub open spec fn finish(st: DisplaySetProgress) -> Option<PgsDisplaySetView> {
    match st.pcs {
        Some(pcs) => Some(
            PgsDisplaySetView { pcs, wds: st.wds, pds: st.pds, ods: flushed(st.ods, st.pending) },
        ),
        None => None,
    }
}

/// The objects of the object segments of `segs` that decode, in order.
pub open spec fn objects_of(segs: Seq<(u8, Seq<u8>)>) -> Seq<ObjectDefinitionView>
    decreases segs.len(),
{
    if segs.len() == 0 {
        Seq::empty()
    } else if segs[0].0 == PGS_SEGMENT_TYPE_ODS && spec_ods(segs[0].1) is Some {
        seq![spec_ods(segs[0].1)->0] + objects_of(segs.drop_first())
    } else {
        objects_of(segs.drop_first())
    }
}

proof fn lemma_well_framed_rest(segs: Seq<(u8, Seq<u8>)>)
    requires
        well_framed(segs),
        segs.len() > 0,
    ensures
        well_framed(segs.drop_first()),
{
    assert forall|i: int| 0 <= i < segs.len() - 1 implies (#[trigger] segs.drop_first()[i]).1.len()
        <= u16::MAX && segs.drop_first()[i].0 != PGS_SEGMENT_TYPE_END by {
        assert(segs.drop_first()[i] == segs[i + 1]);
    }
}

proof fn lemma_segments_from(s: Seq<u8>, pos: int, st: DisplaySetProgress, segs: Seq<(u8, Seq<u8>)>)
    requires
        well_framed(segs),
        0 <= pos,
        pos + frame_bytes(segs).len() <= s.len(),
        s.subrange(pos, pos + frame_bytes(segs).len()) == frame_bytes(segs),
    ensures
        display_set_from(s, pos, st) == match steps(st, segs) {
            Some(st2) => display_set_from(s, pos + frame_bytes(segs).len(), st2),
            None => None,
        },
    decreases segs.len(),
{
    if segs.len() > 0 {
        let (ty, p) = segs[0];
        assert(segs[0].1.len() <= u16::MAX && segs[0].0 != PGS_SEGMENT_TYPE_END);
        let f = frame_bytes(segs);
        let b = segment_bytes(ty, p);
        let rest = segs.drop_first();
        assert(f == b + frame_bytes(rest));
        assert(s[pos] == f[0]);
        assert(s[pos + 1] == f[1]);
        assert(s[pos + 2] == f[2]);
        assert(u16_at(s, pos + 1) == p.len());
        assert(segment_payload(s, pos) =~= p) by {
            assert forall|i: int| 0 <= i < p.len() implies segment_payload(s, pos)[i] == p[i] by {
                assert(s[pos + 3 + i] == f[3 + i]);
            }
        }
        let k = b.len() as int;
        assert(s.subrange(pos + k, pos + k + frame_bytes(rest).len()) =~= frame_bytes(rest)) by {
            assert(s.subrange(pos + k, pos + k + frame_bytes(rest).len()) =~= f.subrange(
                k,
                f.len() as int,
            ));
        }
        lemma_well_framed_rest(segs);
        match segment_step(st, ty, p) {
            Some(next) => {
                lemma_segments_from(s, pos + k, next, rest);
            },
            None => {},
        }
    }
}

/// A frame made of segments whose length fields count their payloads, then an end segment, is
/// split at exactly those lengths: it decodes to what the segments, read in order, give, and
/// nothing after the end segment is read.
pub proof fn lemma_frame_split(segs: Seq<(u8, Seq<u8>)>, end_payload: Seq<u8>, rest: Seq<u8>)
    requires
        well_framed(segs),
        end_payload.len() <= u16::MAX,
    ensures
        spec_display_set(
            frame_bytes(segs) + segment_bytes(PGS_SEGMENT_TYPE_END, end_payload) + rest,
        ) == match steps(no_progress(), segs) {
            Some(st) => finish(st),
            None => None,
        },
{
    let f = frame_bytes(segs);
    let s = f + segment_bytes(PGS_SEGMENT_TYPE_END, end_payload) + rest;
    assert(s.subrange(0, f.len() as int) =~= f);
    lemma_segments_from(s, 0, no_progress(), segs);
    let e = f.len() as int;
    assert(s[e] == PGS_SEGMENT_TYPE_END);
    assert(u16_at(s, e + 1) == end_payload.len());
}

/// A frame whose segments are well formed up to one whose length field points past the end of
/// the frame does not decode.
pub proof fn lemma_overlong_segment_after_others(
    segs: Seq<(u8, Seq<u8>)>,
    ty: u8,
    len: u16,
    tail: Seq<u8>,
)
    requires
        well_framed(segs),
        tail.len() < len,
    ensures
        spec_display_set(frame_bytes(segs) + segment_header(ty, len) + tail) is None,
{
    let f = frame_bytes(segs);
    let s = f + segment_header(ty, len) + tail;
    assert(s.subrange(0, f.len() as int) =~= f);
    lemma_segments_from(s, 0, no_progress(), segs);
    let e = f.len() as int;
    assert(u16_at(s, e + 1) == len);
}

proof fn lemma_steps_objects(st: DisplaySetProgress, segs: Seq<(u8, Seq<u8>)>)
    requires
        steps(st, segs) is Some,
    ensures
        ({
            let st2 = steps(st, segs)->0;
            flushed(st2.ods, st2.pending) == reassemble_from(st.ods, st.pending, objects_of(segs))
        }),
    decreases segs.len(),
{
    if segs.len() == 0 {
        assert(reassemble_from(st.ods, st.pending, Seq::empty()) == flushed(st.ods, st.pending));
    } else {
        let (ty, p) = segs[0];
        let next = segment_step(st, ty, p)->0;
        lemma_steps_objects(next, segs.drop_first());
        if ty == PGS_SEGMENT_TYPE_ODS {
            let o = spec_ods(p)->0;
            let objs = objects_of(segs);
            assert(objs == seq![o] + objects_of(segs.drop_first()));
            assert(objs.drop_first() =~= objects_of(segs.drop_first()));
        }
    }
}

/// The objects of a decoded frame are its object segments, in order, reassembled: a segment
/// flagged first and last is an object as it is, and first, middle and last segments are
/// joined into one.
pub proof fn lemma_frame_objects(segs: Seq<(u8, Seq<u8>)>, end_payload: Seq<u8>, rest: Seq<u8>)
    requires
        well_framed(segs),
        end_payload.len() <= u16::MAX,
        spec_display_set(
            frame_bytes(segs) + segment_bytes(PGS_SEGMENT_TYPE_END, end_payload) + rest,
        ) is Some,
    ensures
        spec_display_set(
            frame_bytes(segs) + segment_bytes(PGS_SEGMENT_TYPE_END, end_payload) + rest,
        )->0.ods == reassemble(objects_of(segs)),
        objects_of(segs).len() == 1 && objects_of(
            segs,
        )[0].last_in_sequence.first_in_sequence && objects_of(
            segs,
        )[0].last_in_sequence.last_in_sequence ==> spec_display_set(
            frame_bytes(segs) + segment_bytes(PGS_SEGMENT_TYPE_END, end_payload) + rest,
        )->0.ods == objects_of(segs),
        ({
            let o = objects_of(segs);
            o.len() == 3 && o[0].last_in_sequence.first_in_sequence
                && !o[0].last_in_sequence.last_in_sequence
                && !o[1].last_in_sequence.first_in_sequence
                && !o[1].last_in_sequence.last_in_sequence
                && !o[2].last_in_sequence.first_in_sequence
                && o[2].last_in_sequence.last_in_sequence ==> spec_display_set(
                frame_bytes(segs) + segment_bytes(PGS_SEGMENT_TYPE_END, end_payload) + rest,
            )->0.ods == seq![
                ObjectDefinitionView {
                    rle_data: o[0].rle_data + o[1].rle_data + o[2].rle_data,
                    ..o[0]
                },
            ]
        }),
{
    lemma_frame_split(segs, end_payload, rest);
    lemma_steps_objects(no_progress(), segs);
    let o = objects_of(segs);
    if o.len() == 1 && o[0].last_in_sequence.first_in_sequence
        && o[0].last_in_sequence.last_in_sequence {
        lemma_whole_object(o[0]);
        assert(o =~= seq![o[0]]);
    }
    if o.len() == 3 {
        assert(o =~= seq![o[0], o[1], o[2]]);
        if o[0].last_in_sequence.first_in_sequence && !o[0].last_in_sequence.last_in_sequence
            && !o[1].last_in_sequence.first_in_sequence
            && !o[1].last_in_sequence.last_in_sequence
            && !o[2].last_in_sequence.first_in_sequence
            && o[2].last_in_sequence.last_in_sequence {
            lemma_fragments_joined(o[0], o[1], o[2]);
        }
    }
}

} // verus!
