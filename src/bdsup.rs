//! The decoder of a stream of PGS (HDMV presentation graphics) subtitle frames: what it keeps
//! from frame to frame, and how it draws the running composition.
use vstd::prelude::*;
use std::collections::HashMap;
use crate::display_set::{
    composition_view, objects_view, palettes_view, read_display_set, spec_display_set,
};
use crate::image::{GrayAlphaImage, ImageView, LumaA, transparent};
use crate::render::{render_into_image, spec_render};
use crate::window_adapter::{ImageWindow, WindowView};
use crate::pgs_types::{
    CompositionObject, CompositionState, ObjectDefinition, ObjectDefinitionView,
    PaletteDefinition, PaletteDefinitionView, PaletteEntry, PgsDisplaySet, PgsDisplaySetView,
    PresentationComposition, PresentationCompositionView, SingleWindowDefinition,
};

verus! {

broadcast use vstd::std_specs::hash::group_hash_axioms;

/// Why a frame could not be decoded or drawn.
#[derive(Clone, Copy, Debug, PartialEq, Eq, Structural)]
pub enum PgsError {
    /// The running composition's palette is not cached.
    MissingPalette { palette_id: u8, composition_number: u16 },
    /// An object's bitmap uses a color that its palette lacks.
    MissingColor { color_id: u8, palette_id: u8, composition_number: u16 },
    /// A composition object names an object that is not cached.
    MissingObject { object_id: u16, composition_number: u16 },
    /// A composition object names a window that is not cached.
    MissingWindow { window_id: u8, composition_number: u16 },
    /// A run-length escape is cut short.
    RleFormatError,
    /// The frame's segments are malformed.
    FormatError,
}

/// What a decoder holds between frames: the running composition and the cached windows,
/// palettes (palette id to color id to color) and objects.
#[verifier::ext_equal]
pub struct DecoderState {
    pub running: Option<PresentationCompositionView>,
    pub windows: Map<u8, SingleWindowDefinition>,
    pub palettes: Map<u8, Map<u8, LumaA>>,
    pub objects: Map<u16, ObjectDefinitionView>,
}

/// The color that a palette entry gives: its luminance, and its transparency as alpha.
pub open spec fn entry_color(e: PaletteEntry) -> LumaA {
    LumaA { luma: e.luminance, alpha: e.transparency }
}

/// `m` with the entries `es` set, in order.
pub open spec fn merge_entries(m: Map<u8, LumaA>, es: Seq<PaletteEntry>) -> Map<u8, LumaA>
    decreases es.len(),
{
    if es.len() == 0 {
        m
    } else {
        merge_entries(m.insert(es[0].palette_entry_id, entry_color(es[0])), es.drop_first())
    }
}

/// The palette with id `id` in `t`, or an empty one.
pub open spec fn palette_or_empty(t: Map<u8, Map<u8, LumaA>>, id: u8) -> Map<u8, LumaA> {
    if t.contains_key(id) {
        t[id]
    } else {
        Map::empty()
    }
}

/// `t` with the entries of each palette of `pds` set in the palette of its id, in order.
pub open spec fn merge_palettes(t: Map<u8, Map<u8, LumaA>>, pds: Seq<PaletteDefinitionView>) -> Map<
    u8,
    Map<u8, LumaA>,
>
    decreases pds.len(),
{
    if pds.len() == 0 {
        t
    } else {
        let p = pds[0];
        merge_palettes(
            t.insert(p.palette_id, merge_entries(palette_or_empty(t, p.palette_id), p.entries)),
            pds.drop_first(),
        )
    }
}

/// `t` with each window of `wds` stored under its id, in order.
pub open spec fn insert_windows(t: Map<u8, SingleWindowDefinition>, wds: Seq<SingleWindowDefinition>) -> Map<
    u8,
    SingleWindowDefinition,
>
    decreases wds.len(),
{
    if wds.len() == 0 {
        t
    } else {
        insert_windows(t.insert(wds[0].window_id, wds[0]), wds.drop_first())
    }
}

/// `t` with each object of `ods` stored under its id, in order.
pub open spec fn insert_objects(t: Map<u16, ObjectDefinitionView>, ods: Seq<ObjectDefinitionView>) -> Map<
    u16,
    ObjectDefinitionView,
>
    decreases ods.len(),
{
    if ods.len() == 0 {
        t
    } else {
        insert_objects(t.insert(ods[0].object_id, ods[0]), ods.drop_first())
    }
}

/// The running composition after `pcs` arrives: an acquisition point adds its objects to a
/// running composition and takes over its number; otherwise `pcs` replaces it.
pub open spec fn next_running(
    running: Option<PresentationCompositionView>,
    pcs: PresentationCompositionView,
) -> Option<PresentationCompositionView> {
    match running {
        Some(r) => if pcs.composition_state == CompositionState::AcquisitionPoint {
            Some(
                PresentationCompositionView {
                    composition_number: pcs.composition_number,
                    composition_objects: r.composition_objects + pcs.composition_objects,
                    ..r
                },
            )
        } else {
            Some(pcs)
        },
        None => Some(pcs),
    }
}

/// The state after taking in display set `ds`: an epoch start first empties the caches; the
/// display set's palettes, windows and objects are then stored, and the running composition
/// is updated.
pub open spec fn absorb(st: DecoderState, ds: PgsDisplaySetView) -> DecoderState {
    let epoch = ds.pcs.composition_state == CompositionState::EpochStart;
    DecoderState {
        running: next_running(st.running, ds.pcs),
        windows: insert_windows(if epoch { Map::empty() } else { st.windows }, ds.wds),
        palettes: merge_palettes(if epoch { Map::empty() } else { st.palettes }, ds.pds),
        objects: insert_objects(if epoch { Map::empty() } else { st.objects }, ds.ods),
    }
}

/// The window that composition object `o` is drawn through, given the window `win` it names.
pub open spec fn object_window(win: SingleWindowDefinition, o: CompositionObject) -> WindowView {
    let x = (win.horizontal_pos + o.object_horizontal_pos) as u32;
    let y = (win.vertical_pos + o.object_vertical_pos) as u32;
    if o.object_cropped_flag {
        WindowView {
            x_cursor: 0,
            y_cursor: 0,
            x,
            y,
            width: o.object_cropping_width as u32,
            height: o.object_cropping_height as u32,
            crop_origin: Some(
                (o.object_cropping_horizontal_pos as u32, o.object_cropping_vertical_pos as u32),
            ),
        }
    } else {
        WindowView {
            x_cursor: 0,
            y_cursor: 0,
            x,
            y,
            width: win.width as u32,
            height: win.height as u32,
            crop_origin: None,
        }
    }
}

/// The image after drawing the composition objects `objs` of `pcs` in order onto `img`.
pub open spec fn render_objects(
    st: DecoderState,
    pcs: PresentationCompositionView,
    pal: Map<u8, LumaA>,
    img: ImageView,
    objs: Seq<CompositionObject>,
) -> Result<ImageView, PgsError>
    decreases objs.len(),
{
    if objs.len() == 0 {
        Ok(img)
    } else {
        let o = objs[0];
        if !st.objects.contains_key(o.object_id) {
            Err(
                PgsError::MissingObject {
                    object_id: o.object_id,
                    composition_number: pcs.composition_number,
                },
            )
        } else if !st.windows.contains_key(o.window_id) {
            Err(
                PgsError::MissingWindow {
                    window_id: o.window_id,
                    composition_number: pcs.composition_number,
                },
            )
        } else {
            let out = spec_render(
                object_window(st.windows[o.window_id], o),
                img,
                pal,
                pcs.palette_id,
                pcs.composition_number,
                st.objects[o.object_id].rle_data,
            );
            match out.error {
                None => render_objects(st, pcs, pal, out.image, objs.drop_first()),
                Some(e) => Err(e),
            }
        }
    }
}

/// A fully transparent `width` by `height` image.
pub open spec fn blank(width: u16, height: u16) -> ImageView {
    ImageView {
        width: width as nat,
        height: height as nat,
        pixels: Seq::new((width * height) as nat, |i: int| transparent()),
    }
}

/// The image of the running composition, if there is one.
pub open spec fn render_state(st: DecoderState) -> Result<Option<ImageView>, PgsError> {
    match st.running {
        None => Ok(None),
        Some(pcs) => if !st.palettes.contains_key(pcs.palette_id) {
            Err(
                PgsError::MissingPalette {
                    palette_id: pcs.palette_id,
                    composition_number: pcs.composition_number,
                },
            )
        } else {
            match render_objects(
                st,
                pcs,
                st.palettes[pcs.palette_id],
                blank(pcs.width, pcs.height),
                pcs.composition_objects,
            ) {
                Ok(img) => Ok(Some(img)),
                Err(e) => Err(e),
            }
        },
    }
}

/// A decoder of a stream of PGS frames, which keeps what the frames define from one to the next.
pub struct PgsParser {
    running_pcs: Option<PresentationComposition>,
    window_table: HashMap<u8, SingleWindowDefinition>,
    palette_table: HashMap<u8, HashMap<u8, LumaA>>,
    object_table: HashMap<u16, ObjectDefinition>,
}

impl View for PgsParser {
    type V = DecoderState;

    closed spec fn view(&self) -> DecoderState {
        DecoderState {
            running: composition_view(self.running_pcs),
            windows: self.window_table@,
            palettes: self.palette_table@.map_values(|m: HashMap<u8, LumaA>| m@),
            objects: self.object_table@.map_values(|o: ObjectDefinition| o@),
        }
    }
}

impl PgsParser {
    /// A decoder with nothing cached and no running composition.
    pub fn new() -> (r: Self)
        ensures
            r@ == (DecoderState {
                running: None,
                windows: Map::empty(),
                palettes: Map::empty(),
                objects: Map::empty(),
            }),
    {
        let r = PgsParser {
            running_pcs: None,
            window_table: HashMap::new(),
            palette_table: HashMap::new(),
            object_table: HashMap::new(),
        };
        assert(r@ =~= (DecoderState {
            running: None,
            windows: Map::empty(),
            palettes: Map::empty(),
            objects: Map::empty(),
        }));
        r
    }

    fn merge_palette(&mut self, palette: &PaletteDefinition)
        ensures
            final(self)@ == (DecoderState {
                palettes: old(self)@.palettes.insert(
                    palette.palette_id,
                    merge_entries(
                        palette_or_empty(old(self)@.palettes, palette.palette_id),
                        palette@.entries,
                    ),
                ),
                ..old(self)@
            }),
    {
        let ghost t0 = self@.palettes;
        let mut stored = match self.palette_table.remove(&palette.palette_id) {
            Some(m) => m,
            None => HashMap::new(),
        };
        assert(stored@ == palette_or_empty(t0, palette.palette_id));
        let ghost es = palette.entries@;
        let mut j: usize = 0;
        assert(es.subrange(0, es.len() as int) =~= es);
        while j < palette.entries.len()
            invariant
                es == palette.entries@,
                j <= es.len(),
                merge_entries(palette_or_empty(t0, palette.palette_id), es) == merge_entries(
                    stored@,
                    es.subrange(j as int, es.len() as int),
                ),
            decreases es.len() - j,
        {
            let e = palette.entries[j];
            assert(es.subrange(j as int, es.len() as int).drop_first() =~= es.subrange(
                j + 1,
                es.len() as int,
            ));
            stored.insert(e.palette_entry_id, LumaA { luma: e.luminance, alpha: e.transparency });
            j = j + 1;
        }
        assert(es.subrange(j as int, es.len() as int) =~= Seq::<PaletteEntry>::empty());
        self.palette_table.insert(palette.palette_id, stored);
        assert(self@.palettes =~= t0.insert(
            palette.palette_id,
            merge_entries(palette_or_empty(t0, palette.palette_id), es),
        ));
        assert(self@ =~= (DecoderState {
            palettes: old(self)@.palettes.insert(
                palette.palette_id,
                merge_entries(palette_or_empty(old(self)@.palettes, palette.palette_id), es),
            ),
            ..old(self)@
        }));
    }

    /// Takes in a decoded display set: the cache update and running composition update that
    /// `absorb` describes.
    fn absorb_display_set(&mut self, ds: PgsDisplaySet)
        ensures
            final(self)@ == absorb(old(self)@, ds@),
    {
        let ghost d = ds@;
        let PgsDisplaySet { pcs, wds, pds, ods } = ds;
        let epoch = pcs.composition_state == CompositionState::EpochStart;
        if epoch {
            self.window_table.clear();
            self.palette_table.clear();
            self.object_table.clear();
            assert(self@.palettes =~= Map::empty());
            assert(self@.objects =~= Map::empty());
        }
        let ghost st1 = self@;
        let mut i: usize = 0;
        assert(d.pds.subrange(0, d.pds.len() as int) =~= d.pds);
        while i < pds.len()
            invariant
                palettes_view(pds@) == d.pds,
                i <= pds@.len(),
                self@.running == st1.running,
                self@.windows == st1.windows,
                self@.objects == st1.objects,
                merge_palettes(st1.palettes, d.pds) == merge_palettes(
                    self@.palettes,
                    d.pds.subrange(i as int, d.pds.len() as int),
                ),
            decreases pds@.len() - i,
        {
            let palette = &pds[i];
            assert(d.pds.subrange(i as int, d.pds.len() as int).drop_first() =~= d.pds.subrange(
                i + 1,
                d.pds.len() as int,
            ));
            self.merge_palette(palette);
            i = i + 1;
        }
        assert(d.pds.subrange(i as int, d.pds.len() as int) =~= Seq::<PaletteDefinitionView>::empty());
        let mut i: usize = 0;
        assert(d.wds.subrange(0, d.wds.len() as int) =~= d.wds);
        while i < wds.len()
            invariant
                wds@ == d.wds,
                i <= wds@.len(),
                self@.running == st1.running,
                self@.objects == st1.objects,
                self@.palettes == merge_palettes(st1.palettes, d.pds),
                insert_windows(st1.windows, d.wds) == insert_windows(
                    self@.windows,
                    d.wds.subrange(i as int, d.wds.len() as int),
                ),
            decreases wds@.len() - i,
        {
            let w = wds[i];
            assert(d.wds.subrange(i as int, d.wds.len() as int).drop_first() =~= d.wds.subrange(
                i + 1,
                d.wds.len() as int,
            ));
            self.window_table.insert(w.window_id, w);
            i = i + 1;
        }
        assert(d.wds.subrange(i as int, d.wds.len() as int) =~= Seq::<SingleWindowDefinition>::empty());
        let mut ods = ods;
        while ods.len() > 0
            invariant
                self@.running == st1.running,
                self@.windows == insert_windows(st1.windows, d.wds),
                self@.palettes == merge_palettes(st1.palettes, d.pds),
                insert_objects(st1.objects, d.ods) == insert_objects(
                    self@.objects,
                    objects_view(ods@),
                ),
            decreases ods@.len(),
        {
            let ghost rest = objects_view(ods@);
            let o = ods.remove(0);
            assert(objects_view(ods@) =~= rest.drop_first());
            let ghost t = self@.objects;
            self.object_table.insert(o.object_id, o);
            assert(self@.objects =~= t.insert(o@.object_id, o@));
        }
        assert(objects_view(ods@) =~= Seq::<ObjectDefinitionView>::empty());
        let mut pcs = pcs;
        if pcs.composition_state == CompositionState::AcquisitionPoint {
            match self.running_pcs.take() {
                Some(running) => {
                    let mut running = running;
                    running.composition_number = pcs.composition_number;
                    running.composition_objects.append(&mut pcs.composition_objects);
                    self.running_pcs = Some(running);
                },
                None => {
                    self.running_pcs = Some(pcs);
                },
            }
        } else {
            self.running_pcs = Some(pcs);
        }
        assert(self@ =~= absorb(old(self)@, d));
    }

    /// Draws the running composition, if there is one.
    fn render(&self) -> (r: Result<Option<GrayAlphaImage>, PgsError>)
        ensures
            match render_state(self@) {
                Ok(Some(img)) => r is Ok && r->Ok_0 is Some && r->Ok_0->0@ == img,
                Ok(None) => r is Ok && r->Ok_0 is None,
                Err(e) => r is Err && r->Err_0 == e,
            },
    {
        let pcs = match &self.running_pcs {
            Some(p) => p,
            None => {
                return Ok(None);
            },
        };
        let palette = match self.palette_table.get(&pcs.palette_id) {
            Some(p) => p,
            None => {
                return Err(
                    PgsError::MissingPalette {
                        palette_id: pcs.palette_id,
                        composition_number: pcs.composition_number,
                    },
                );
            },
        };
        let ghost st = self@;
        let ghost pv = pcs@;
        let ghost pal = palette@;
        assert(pal == st.palettes[pv.palette_id]);
        let w = pcs.width;
        let h = pcs.height;
        assert(w as int * h as int <= 0xffff_ffff) by (nonlinear_arith)
            requires
                w <= 0xffff,
                h <= 0xffff,
        ;
        let mut image = GrayAlphaImage::new(w as u32, h as u32);
        assert(image@ == blank(w, h));
        let ghost objs = pcs.composition_objects@;
        assert(objs.subrange(0, objs.len() as int) =~= objs);
        let mut i: usize = 0;
        while i < pcs.composition_objects.len()
            invariant
                st == self@,
                pv == pcs@,
                objs == pcs.composition_objects@,
                pal == palette@,
                st.running == Some(pv),
                st.palettes.contains_key(pv.palette_id),
                st.palettes[pv.palette_id] == pal,
                w == pv.width,
                h == pv.height,
                i <= objs.len(),
                render_objects(st, pv, pal, blank(w, h), objs) == render_objects(
                    st,
                    pv,
                    pal,
                    image@,
                    objs.subrange(i as int, objs.len() as int),
                ),
            decreases objs.len() - i,
        {
            let object = pcs.composition_objects[i];
            assert(objs.subrange(i as int, objs.len() as int).drop_first() =~= objs.subrange(
                i + 1,
                objs.len() as int,
            ));
            assert(objs.subrange(i as int, objs.len() as int)[0] == object);
            let object_def = match self.object_table.get(&object.object_id) {
                Some(o) => o,
                None => {
                    assert(!st.objects.contains_key(object.object_id));
                    return Err(
                        PgsError::MissingObject {
                            object_id: object.object_id,
                            composition_number: pcs.composition_number,
                        },
                    );
                },
            };
            assert(st.objects.contains_key(object.object_id));
            assert(st.objects[object.object_id] == object_def@);
            let window_def = match self.window_table.get(&object.window_id) {
                Some(wd) => wd,
                None => {
                    return Err(
                        PgsError::MissingWindow {
                            window_id: object.window_id,
                            composition_number: pcs.composition_number,
                        },
                    );
                },
            };
            let x: u32 = window_def.horizontal_pos as u32 + object.object_horizontal_pos as u32;
            let y: u32 = window_def.vertical_pos as u32 + object.object_vertical_pos as u32;
            let mut window = if object.object_cropped_flag {
                ImageWindow::with_window_cropped(
                    x,
                    y,
                    object.object_cropping_width as u32,
                    object.object_cropping_height as u32,
                    object.object_cropping_horizontal_pos as u32,
                    object.object_cropping_vertical_pos as u32,
                )
            } else {
                ImageWindow::with_window(x, y, window_def.width as u32, window_def.height as u32)
            };
            assert(window@ == object_window(*window_def, object));
            render_into_image(
                &mut window,
                &mut image,
                pcs.palette_id,
                pcs.composition_number,
                palette,
                &object_def.rle_data,
            )?;
            i = i + 1;
        }
        assert(objs.subrange(i as int, objs.len() as int) =~= Seq::<CompositionObject>::empty());
        Ok(Some(image))
    }

    /// Decodes one frame's bytes, a display set, and takes it in; then returns the image of the
    /// running composition, if there is one. A frame that does not decode leaves the decoder as
    /// it was; a missing palette, color, object or window is reported after the frame has been
    /// taken in.
    pub fn process_mkv_frame(&mut self, data: &[u8]) -> (r: Result<Option<GrayAlphaImage>, PgsError>)
        ensures
            match spec_display_set(data@) {
                None => r is Err && r->Err_0 == PgsError::FormatError && final(self)@ == old(self)@,
                Some(ds) => final(self)@ == absorb(old(self)@, ds) && match render_state(
                    final(self)@,
                ) {
                    Ok(Some(img)) => r is Ok && r->Ok_0 is Some && r->Ok_0->0@ == img,
                    Ok(None) => r is Ok && r->Ok_0 is None,
                    Err(e) => r is Err && r->Err_0 == e,
                },
            },
    {
        let display_set = read_display_set(data)?;
        self.absorb_display_set(display_set);
        self.render()
    }
}

proof fn lemma_insert_windows_keys(t: Map<u8, SingleWindowDefinition>, wds: Seq<SingleWindowDefinition>, id: u8)
    ensures
        insert_windows(t, wds).contains_key(id) <==> (t.contains_key(id) || exists|k: int|
            0 <= k < wds.len() && (#[trigger] wds[k]).window_id == id),
    decreases wds.len(),
{
    if wds.len() > 0 {
        let t2 = t.insert(wds[0].window_id, wds[0]);
        lemma_insert_windows_keys(t2, wds.drop_first(), id);
        if exists|k: int| 0 <= k < wds.len() && (#[trigger] wds[k]).window_id == id {
            let k = choose|k: int| 0 <= k < wds.len() && (#[trigger] wds[k]).window_id == id;
            if k > 0 {
                assert(wds.drop_first()[k - 1] == wds[k]);
            }
        }
        if exists|k: int| 0 <= k < wds.len() - 1 && (#[trigger] wds.drop_first()[k]).window_id == id {
            let k = choose|k: int| 0 <= k < wds.len() - 1 && (#[trigger] wds.drop_first()[k]).window_id == id;
            assert(wds[k + 1] == wds.drop_first()[k]);
        }
    }
}

proof fn lemma_insert_objects_keys(t: Map<u16, ObjectDefinitionView>, ods: Seq<ObjectDefinitionView>, id: u16)
    ensures
        insert_objects(t, ods).contains_key(id) <==> (t.contains_key(id) || exists|k: int|
            0 <= k < ods.len() && (#[trigger] ods[k]).object_id == id),
    decreases ods.len(),
{
    if ods.len() > 0 {
        let t2 = t.insert(ods[0].object_id, ods[0]);
        lemma_insert_objects_keys(t2, ods.drop_first(), id);
        if exists|k: int| 0 <= k < ods.len() && (#[trigger] ods[k]).object_id == id {
            let k = choose|k: int| 0 <= k < ods.len() && (#[trigger] ods[k]).object_id == id;
            if k > 0 {
                assert(ods.drop_first()[k - 1] == ods[k]);
            }
        }
        if exists|k: int| 0 <= k < ods.len() - 1 && (#[trigger] ods.drop_first()[k]).object_id == id {
            let k = choose|k: int| 0 <= k < ods.len() - 1 && (#[trigger] ods.drop_first()[k]).object_id == id;
            assert(ods[k + 1] == ods.drop_first()[k]);
        }
    }
}

proof fn lemma_merge_palettes_keys(t: Map<u8, Map<u8, LumaA>>, pds: Seq<PaletteDefinitionView>, id: u8)
    ensures
        merge_palettes(t, pds).contains_key(id) <==> (t.contains_key(id) || exists|k: int|
            0 <= k < pds.len() && (#[trigger] pds[k]).palette_id == id),
    decreases pds.len(),
{
    if pds.len() > 0 {
        let p = pds[0];
        let t2 = t.insert(p.palette_id, merge_entries(palette_or_empty(t, p.palette_id), p.entries));
        lemma_merge_palettes_keys(t2, pds.drop_first(), id);
        if exists|k: int| 0 <= k < pds.len() && (#[trigger] pds[k]).palette_id == id {
            let k = choose|k: int| 0 <= k < pds.len() && (#[trigger] pds[k]).palette_id == id;
            if k > 0 {
                assert(pds.drop_first()[k - 1] == pds[k]);
            }
        }
        if exists|k: int| 0 <= k < pds.len() - 1 && (#[trigger] pds.drop_first()[k]).palette_id == id {
            let k = choose|k: int| 0 <= k < pds.len() - 1 && (#[trigger] pds.drop_first()[k]).palette_id == id;
            assert(pds[k + 1] == pds.drop_first()[k]);
        }
    }
}

/// After a display set that starts an epoch, the caches hold only the palettes, windows and
/// objects that this display set defines: every id cached before and not defined again is gone.
pub proof fn lemma_epoch_start_forgets(st: DecoderState, ds: PgsDisplaySetView, window_id: u8, palette_id: u8, object_id: u16)
    requires
        ds.pcs.composition_state == CompositionState::EpochStart,
    ensures
        absorb(st, ds).windows.contains_key(window_id) <==> exists|k: int|
            0 <= k < ds.wds.len() && (#[trigger] ds.wds[k]).window_id == window_id,
        absorb(st, ds).palettes.contains_key(palette_id) <==> exists|k: int|
            0 <= k < ds.pds.len() && (#[trigger] ds.pds[k]).palette_id == palette_id,
        absorb(st, ds).objects.contains_key(object_id) <==> exists|k: int|
            0 <= k < ds.ods.len() && (#[trigger] ds.ods[k]).object_id == object_id,
{
    lemma_insert_windows_keys(Map::empty(), ds.wds, window_id);
    lemma_merge_palettes_keys(Map::empty(), ds.pds, palette_id);
    lemma_insert_objects_keys(Map::empty(), ds.ods, object_id);
}

/// A running composition whose palette is not cached, or whose first object or that object's
/// window is not cached, renders to the matching missing-reference error.
pub proof fn lemma_missing_reference_reported(st: DecoderState)
    requires
        st.running is Some,
    ensures
        ({
            let pcs = st.running->0;
            let objs = pcs.composition_objects;
            &&& !st.palettes.contains_key(pcs.palette_id) ==> render_state(st) == Err::<
                Option<ImageView>,
                PgsError,
            >(
                PgsError::MissingPalette {
                    palette_id: pcs.palette_id,
                    composition_number: pcs.composition_number,
                },
            )
            &&& (st.palettes.contains_key(pcs.palette_id) && objs.len() > 0
                && !st.objects.contains_key(objs[0].object_id)) ==> render_state(st) == Err::<
                Option<ImageView>,
                PgsError,
            >(
                PgsError::MissingObject {
                    object_id: objs[0].object_id,
                    composition_number: pcs.composition_number,
                },
            )
            &&& (st.palettes.contains_key(pcs.palette_id) && objs.len() > 0
                && st.objects.contains_key(objs[0].object_id) && !st.windows.contains_key(
                objs[0].window_id,
            )) ==> render_state(st) == Err::<Option<ImageView>, PgsError>(
                PgsError::MissingWindow {
                    window_id: objs[0].window_id,
                    composition_number: pcs.composition_number,
                },
            )
        }),
{
}

/// An acquisition point on top of a running composition keeps that composition, takes over the
/// new composition number, and adds the new objects after the ones already there.
pub proof fn lemma_acquisition_point_accumulates(st: DecoderState, ds: PgsDisplaySetView)
    requires
        st.running is Some,
        ds.pcs.composition_state == CompositionState::AcquisitionPoint,
    ensures
        absorb(st, ds).running == Some(
            PresentationCompositionView {
                composition_number: ds.pcs.composition_number,
                composition_objects: st.running->0.composition_objects
                    + ds.pcs.composition_objects,
                ..st.running->0
            },
        ),
{
}


/// Whether display set `ds` defines a palette with id `id`.
pub open spec fn defines_palette(ds: PgsDisplaySetView, id: u8) -> bool {
    exists|k: int| 0 <= k < ds.pds.len() && (#[trigger] ds.pds[k]).palette_id == id
}

/// Whether display set `ds` defines a window with id `id`.
pub open spec fn defines_window(ds: PgsDisplaySetView, id: u8) -> bool {
    exists|k: int| 0 <= k < ds.wds.len() && (#[trigger] ds.wds[k]).window_id == id
}

/// Whether display set `ds` defines an object with id `id`.
pub open spec fn defines_object(ds: PgsDisplaySetView, id: u16) -> bool {
    exists|k: int| 0 <= k < ds.ods.len() && (#[trigger] ds.ods[k]).object_id == id
}

/// After a display set that starts an epoch, a later display set that replaces the running
/// composition (it is no acquisition point) and refers to a palette, object or window that
/// only earlier epochs defined gets the matching missing-reference error: its palette is
/// checked first, then its first object, then that object's window.
pub proof fn lemma_pre_epoch_reference_missing(
    st: DecoderState,
    ds1: PgsDisplaySetView,
    ds2: PgsDisplaySetView,
)
    requires
        ds1.pcs.composition_state == CompositionState::EpochStart,
        ds2.pcs.composition_state != CompositionState::AcquisitionPoint,
    ensures
        ({
            let st2 = absorb(absorb(st, ds1), ds2);
            let pcs = ds2.pcs;
            let objs = pcs.composition_objects;
            &&& (!defines_palette(ds1, pcs.palette_id) && !defines_palette(ds2, pcs.palette_id))
                ==> render_state(st2) == Err::<Option<ImageView>, PgsError>(
                PgsError::MissingPalette {
                    palette_id: pcs.palette_id,
                    composition_number: pcs.composition_number,
                },
            )
            &&& (st2.palettes.contains_key(pcs.palette_id) && objs.len() > 0 && !defines_object(
                ds1,
                objs[0].object_id,
            ) && !defines_object(ds2, objs[0].object_id)) ==> render_state(st2) == Err::<
                Option<ImageView>,
                PgsError,
            >(
                PgsError::MissingObject {
                    object_id: objs[0].object_id,
                    composition_number: pcs.composition_number,
                },
            )
            &&& (st2.palettes.contains_key(pcs.palette_id) && objs.len() > 0
                && st2.objects.contains_key(objs[0].object_id) && !defines_window(
                ds1,
                objs[0].window_id,
            ) && !defines_window(ds2, objs[0].window_id)) ==> render_state(st2) == Err::<
                Option<ImageView>,
                PgsError,
            >(
                PgsError::MissingWindow {
                    window_id: objs[0].window_id,
                    composition_number: pcs.composition_number,
                },
            )
        }),
{
    let st1 = absorb(st, ds1);
    let st2 = absorb(st1, ds2);
    let pcs = ds2.pcs;
    let objs = pcs.composition_objects;
    let epoch2 = pcs.composition_state == CompositionState::EpochStart;
    assert(st2.running == Some(pcs));
    lemma_epoch_start_forgets(st, ds1, 0, pcs.palette_id, 0);
    lemma_merge_palettes_keys(
        if epoch2 {
            Map::empty()
        } else {
            st1.palettes
        },
        ds2.pds,
        pcs.palette_id,
    );
    if objs.len() > 0 {
        lemma_epoch_start_forgets(st, ds1, objs[0].window_id, 0, objs[0].object_id);
        lemma_insert_objects_keys(
            if epoch2 {
                Map::empty()
            } else {
                st1.objects
            },
            ds2.ods,
            objs[0].object_id,
        );
        lemma_insert_windows_keys(
            if epoch2 {
                Map::empty()
            } else {
                st1.windows
            },
            ds2.wds,
            objs[0].window_id,
        );
    }
    lemma_missing_reference_reported(st2);
}


/// Whether one of the palettes `pds` with id `pid` has an entry with color id `c`.
pub open spec fn defines_color(pds: Seq<PaletteDefinitionView>, pid: u8, c: u8) -> bool {
    exists|k: int, j: int|
        0 <= k < pds.len() && pds[k].palette_id == pid && 0 <= j < pds[k].entries.len()
            && (#[trigger] pds[k].entries[j]).palette_entry_id == c
}

proof fn lemma_merge_entries_keys(m: Map<u8, LumaA>, es: Seq<PaletteEntry>, c: u8)
    ensures
        merge_entries(m, es).contains_key(c) <==> (m.contains_key(c) || exists|j: int|
            0 <= j < es.len() && (#[trigger] es[j]).palette_entry_id == c),
    decreases es.len(),
{
    if es.len() > 0 {
        lemma_merge_entries_keys(m.insert(es[0].palette_entry_id, entry_color(es[0])), es.drop_first(), c);
        if exists|j: int| 0 <= j < es.len() && (#[trigger] es[j]).palette_entry_id == c {
            let j = choose|j: int| 0 <= j < es.len() && (#[trigger] es[j]).palette_entry_id == c;
            if j > 0 {
                assert(es.drop_first()[j - 1] == es[j]);
            }
        }
        if exists|j: int| 0 <= j < es.len() - 1 && (#[trigger] es.drop_first()[j]).palette_entry_id == c {
            let j = choose|j: int| 0 <= j < es.len() - 1 && (#[trigger] es.drop_first()[j]).palette_entry_id == c;
            assert(es[j + 1] == es.drop_first()[j]);
        }
    }
}

proof fn lemma_merge_palettes_colors(t: Map<u8, Map<u8, LumaA>>, pds: Seq<PaletteDefinitionView>, pid: u8, c: u8)
    requires
        merge_palettes(t, pds).contains_key(pid),
    ensures
        merge_palettes(t, pds)[pid].contains_key(c) <==> ((t.contains_key(pid) && t[pid].contains_key(c))
            || defines_color(pds, pid, c)),
    decreases pds.len(),
{
    if pds.len() > 0 {
        let p = pds[0];
        let t2 = t.insert(p.palette_id, merge_entries(palette_or_empty(t, p.palette_id), p.entries));
        let rest = pds.drop_first();
        lemma_merge_palettes_keys(t2, rest, pid);
        lemma_merge_palettes_colors(t2, rest, pid, c);
        lemma_merge_entries_keys(palette_or_empty(t, p.palette_id), p.entries, c);
        if defines_color(pds, pid, c) {
            let (k, j) = choose|k: int, j: int|
                0 <= k < pds.len() && pds[k].palette_id == pid && 0 <= j < pds[k].entries.len()
                    && (#[trigger] pds[k].entries[j]).palette_entry_id == c;
            if k > 0 {
                assert(rest[k - 1] == pds[k]);
                assert(rest[k - 1].entries[j].palette_entry_id == c);
            }
        }
        if defines_color(rest, pid, c) {
            let (k, j) = choose|k: int, j: int|
                0 <= k < rest.len() && rest[k].palette_id == pid && 0 <= j < rest[k].entries.len()
                    && (#[trigger] rest[k].entries[j]).palette_entry_id == c;
            assert(pds[k + 1] == rest[k]);
            assert(pds[k + 1].entries[j].palette_entry_id == c);
        }
    }
}

/// After a display set that starts an epoch, each cached palette holds exactly the color ids
/// that this display set's palettes with its id define.
pub proof fn lemma_epoch_start_forgets_colors(st: DecoderState, ds: PgsDisplaySetView, pid: u8, c: u8)
    requires
        ds.pcs.composition_state == CompositionState::EpochStart,
        absorb(st, ds).palettes.contains_key(pid),
    ensures
        absorb(st, ds).palettes[pid].contains_key(c) <==> defines_color(ds.pds, pid, c),
{
    lemma_merge_palettes_colors(Map::empty(), ds.pds, pid, c);
}

} // verus!
