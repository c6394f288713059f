//! Decoding of an object's run-length bitmap into a window of an image.
use vstd::prelude::*;
use std::collections::HashMap;
use crate::bdsup::PgsError;
use crate::binary_reader::PacketReader;
use crate::image::{
    GrayAlphaImage, ImageView, LumaA, lemma_pixel_index_in_bounds, lemma_pixel_index_injective,
    pixel_index, transparent,
};
use crate::window_adapter::{ImageWindow, WindowView, advance, end_line_spec, push_spec};

verus! {

broadcast use vstd::std_specs::hash::group_hash_axioms;

/// The window and image after pushing `n` pixels `p`.
pub open spec fn push_run(w: WindowView, img: ImageView, p: LumaA, n: nat) -> (WindowView, ImageView)
    decreases n,
{
    if n == 0 {
        (w, img)
    } else {
        let (w2, img2) = push_spec(w, img, p);
        push_run(w2, img2, p, (n - 1) as nat)
    }
}

pub open spec fn missing_color(c: u8, palette_id: u8, composition_number: u16) -> PgsError {
    PgsError::MissingColor { color_id: c, palette_id, composition_number }
}

/// Where decoding run-length data stops: the window and image at that point, and the error
/// that stopped it, if one did.
pub struct RleOutcome {
    pub window: WindowView,
    pub image: ImageView,
    pub error: Option<PgsError>,
}

pub open spec fn rle_done(w: WindowView, img: ImageView) -> RleOutcome {
    RleOutcome { window: w, image: img, error: None }
}

pub open spec fn rle_failed(w: WindowView, img: ImageView, e: PgsError) -> RleOutcome {
    RleOutcome { window: w, image: img, error: Some(e) }
}

/// The window and image after decoding the run-length data `s` from byte `pos` on with the
/// colors of `pal`:
/// - a byte 1 to 255 is one pixel of that color;
/// - a byte 0 starts an escape whose next byte, the follower, has a 2-bit code on top and a
///   6-bit value below: code 0 is a run of `value` transparent pixels, code 1 one of
///   `value * 256 + next byte`, code 2 a run of `value` pixels of the color in the next byte,
///   code 3 one of `value * 256 + next byte` pixels of the color in the byte after it;
/// - a follower of 0 also ends the line (and is a run of no pixels).
/// A color missing from `pal` and an escape cut short are errors; decoding stops there, with
/// the window and image as the directives before it left them.
pub open spec fn rle_from(
    w: WindowView,
    img: ImageView,
    pal: Map<u8, LumaA>,
    palette_id: u8,
    composition_number: u16,
    s: Seq<u8>,
    pos: int,
) -> RleOutcome
    decreases s.len() - pos,
{
    if pos < 0 || pos >= s.len() {
        rle_done(w, img)
    } else if s[pos] != 0 {
        let c = s[pos];
        if !pal.contains_key(c) {
            rle_failed(w, img, missing_color(c, palette_id, composition_number))
        } else {
            let (w2, img2) = push_spec(w, img, pal[c]);
            rle_from(w2, img2, pal, palette_id, composition_number, s, pos + 1)
        }
    } else if pos + 1 >= s.len() {
        rle_failed(w, img, PgsError::RleFormatError)
    } else {
        let follower = s[pos + 1];
        let w1 = if follower == 0 {
            end_line_spec(w)
        } else {
            w
        };
        let code = follower / 64;
        let value = follower % 64;
        if code == 0 {
            let (w2, img2) = push_run(w1, img, transparent(), value as nat);
            rle_from(w2, img2, pal, palette_id, composition_number, s, pos + 2)
        } else if pos + 2 >= s.len() {
            rle_failed(w1, img, PgsError::RleFormatError)
        } else if code == 1 {
            let n = value as nat * 256 + s[pos + 2] as nat;
            let (w2, img2) = push_run(w1, img, transparent(), n);
            rle_from(w2, img2, pal, palette_id, composition_number, s, pos + 3)
        } else if code == 2 {
            let c = s[pos + 2];
            if !pal.contains_key(c) {
                rle_failed(w1, img, missing_color(c, palette_id, composition_number))
            } else {
                let (w2, img2) = push_run(w1, img, pal[c], value as nat);
                rle_from(w2, img2, pal, palette_id, composition_number, s, pos + 3)
            }
        } else if pos + 3 >= s.len() {
            rle_failed(w1, img, PgsError::RleFormatError)
        } else {
            let n = value as nat * 256 + s[pos + 2] as nat;
            let c = s[pos + 3];
            if !pal.contains_key(c) {
                rle_failed(w1, img, missing_color(c, palette_id, composition_number))
            } else {
                let (w2, img2) = push_run(w1, img, pal[c], n);
                rle_from(w2, img2, pal, palette_id, composition_number, s, pos + 4)
            }
        }
    }
}

/// The run-length data `s` decoded from its start.
pub open spec fn spec_render(
    w: WindowView,
    img: ImageView,
    pal: Map<u8, LumaA>,
    palette_id: u8,
    composition_number: u16,
    s: Seq<u8>,
) -> RleOutcome {
    rle_from(w, img, pal, palette_id, composition_number, s, 0)
}

fn push_pixels(window: &mut ImageWindow, image: &mut GrayAlphaImage, pixel: LumaA, n: u16)
    ensures
        (final(window)@, final(image)@) == push_run(old(window)@, old(image)@, pixel, n as nat),
{
    let mut k: u16 = 0;
    while k < n
        invariant
            k <= n,
            push_run(old(window)@, old(image)@, pixel, n as nat) == push_run(
                window@,
                image@,
                pixel,
                (n - k) as nat,
            ),
        decreases n - k,
    {
        window.push_pixel(image, pixel);
        k = k + 1;
    }
}

fn lookup_color(
    palette: &HashMap<u8, LumaA>,
    c: u8,
    palette_id: u8,
    composition_number: u16,
) -> (r: Result<LumaA, PgsError>)
    ensures
        match r {
            Ok(p) => palette@.contains_key(c) && p == palette@[c],
            Err(e) => !palette@.contains_key(c) && e == missing_color(c, palette_id, composition_number),
        },
{
    match palette.get(&c) {
        Some(p) => Ok(*p),
        None => Err(PgsError::MissingColor { color_id: c, palette_id, composition_number }),
    }
}

fn rle_byte(reader: &mut PacketReader) -> (r: Result<u8, PgsError>)
    ensures
        final(reader).data() == old(reader).data(),
        final(reader).pos() <= final(reader).data().len(),
        match r {
            Ok(b) => old(reader).pos() < old(reader).data().len() && b == old(reader).data()[old(
                reader,
            ).pos()] && final(reader).pos() == old(reader).pos() + 1,
            Err(e) => e == PgsError::RleFormatError && old(reader).pos() >= old(
                reader,
            ).data().len(),
        },
{
    match reader.read_u8() {
        Some(b) => Ok(b),
        None => Err(PgsError::RleFormatError),
    }
}

/// Decodes the run-length data `data` into `window` of `image`, with the colors of `palette`.
pub fn render_into_image(
    window: &mut ImageWindow,
    image: &mut GrayAlphaImage,
    palette_id: u8,
    composition_number: u16,
    palette: &HashMap<u8, LumaA>,
    data: &[u8],
) -> (r: Result<(), PgsError>)
    ensures
        ({
            let out = spec_render(
                old(window)@,
                old(image)@,
                palette@,
                palette_id,
                composition_number,
                data@,
            );
            &&& final(window)@ == out.window
            &&& final(image)@ == out.image
            &&& match out.error {
                None => r is Ok,
                Some(e) => r == Err::<(), PgsError>(e),
            }
        }),
{
    let ghost s = data@;
    let ghost pal = palette@;
    let mut reader = PacketReader::new(data);
    loop
        invariant
            s == data@,
            pal == palette@,
            reader.data() == s,
            0 <= reader.pos() <= s.len(),
            spec_render(old(window)@, old(image)@, pal, palette_id, composition_number, s) == rle_from(
                window@,
                image@,
                pal,
                palette_id,
                composition_number,
                s,
                reader.pos(),
            ),
        decreases s.len() - reader.pos(),
    {
        let leader = match reader.read_u8() {
            Some(b) => b,
            None => {
                return Ok(());
            },
        };
        if leader != 0 {
            let color = lookup_color(palette, leader, palette_id, composition_number)?;
            window.push_pixel(image, color);
        } else {
            let follower = rle_byte(&mut reader)?;
            if follower == 0 {
                window.end_line();
            }
            let code = follower / 64;
            let value = follower % 64;
            if code == 0 {
                push_pixels(window, image, LumaA { luma: 0, alpha: 0 }, value as u16);
            } else if code == 1 {
                let low = rle_byte(&mut reader)?;
                let n: u16 = (value as u16) * 256 + low as u16;
                push_pixels(window, image, LumaA { luma: 0, alpha: 0 }, n);
            } else if code == 2 {
                let c = rle_byte(&mut reader)?;
                let color = lookup_color(palette, c, palette_id, composition_number)?;
                push_pixels(window, image, color, value as u16);
            } else {
                let low = rle_byte(&mut reader)?;
                let n: u16 = (value as u16) * 256 + low as u16;
                let c = rle_byte(&mut reader)?;
                let color = lookup_color(palette, c, palette_id, composition_number)?;
                push_pixels(window, image, color, n);
            }
        }
    }
}


/// The color of color id `c`: transparent for 0, else the palette's.
pub open spec fn pixel_color(pal: Map<u8, LumaA>, c: u8) -> LumaA {
    if c == 0 {
        transparent()
    } else {
        pal[c]
    }
}

/// A simple run-length encoding of one pixel: a color id 1 to 255 as itself, a 0 as a run of
/// one transparent pixel.
pub open spec fn encode_pixel(c: u8) -> Seq<u8> {
    if c == 0 {
        seq![0u8, 1u8]
    } else {
        seq![c]
    }
}

/// A row of color ids encoded pixel by pixel, closed by an end-of-line escape.
pub open spec fn encode_row(row: Seq<u8>) -> Seq<u8>
    decreases row.len(),
{
    if row.len() == 0 {
        seq![0u8, 0u8]
    } else {
        encode_pixel(row[0]) + encode_row(row.drop_first())
    }
}

/// Rows of color ids encoded one after the other.
pub open spec fn encode_rows(rows: Seq<Seq<u8>>) -> Seq<u8>
    decreases rows.len(),
{
    if rows.len() == 0 {
        Seq::empty()
    } else {
        encode_row(rows[0]) + encode_rows(rows.drop_first())
    }
}

/// The window and image after pushing the pixels of `row` in order and then ending the line.
pub open spec fn paint_row(w: WindowView, img: ImageView, pal: Map<u8, LumaA>, row: Seq<u8>) -> (
    WindowView,
    ImageView,
)
    decreases row.len(),
{
    if row.len() == 0 {
        (end_line_spec(w), img)
    } else {
        let (w2, img2) = push_spec(w, img, pixel_color(pal, row[0]));
        paint_row(w2, img2, pal, row.drop_first())
    }
}

/// The window and image after painting `rows` one after the other.
pub open spec fn paint_rows(w: WindowView, img: ImageView, pal: Map<u8, LumaA>, rows: Seq<Seq<u8>>) -> (
    WindowView,
    ImageView,
)
    decreases rows.len(),
{
    if rows.len() == 0 {
        (w, img)
    } else {
        let (w2, img2) = paint_row(w, img, pal, rows[0]);
        paint_rows(w2, img2, pal, rows.drop_first())
    }
}

/// Whether every nonzero color id of `row` is in the palette.
pub open spec fn row_colors_known(pal: Map<u8, LumaA>, row: Seq<u8>) -> bool {
    forall|x: int| 0 <= x < row.len() && row[x] != 0 ==> pal.contains_key(#[trigger] row[x])
}

proof fn lemma_decode_pixel(
    w: WindowView,
    img: ImageView,
    pal: Map<u8, LumaA>,
    palette_id: u8,
    composition_number: u16,
    s: Seq<u8>,
    pos: int,
    c: u8,
)
    requires
        0 <= pos,
        pos + encode_pixel(c).len() <= s.len(),
        s.subrange(pos, pos + encode_pixel(c).len()) == encode_pixel(c),
        c != 0 ==> pal.contains_key(c),
    ensures
        ({
            let (w2, img2) = push_spec(w, img, pixel_color(pal, c));
            rle_from(w, img, pal, palette_id, composition_number, s, pos) == rle_from(
                w2,
                img2,
                pal,
                palette_id,
                composition_number,
                s,
                pos + encode_pixel(c).len(),
            )
        }),
{
    let e = encode_pixel(c);
    assert(s[pos] == e[0]);
    if c == 0 {
        assert(s[pos + 1] == e[1]);
        let (w2, img2) = push_spec(w, img, transparent());
        assert(push_run(w, img, transparent(), 1) == push_run(w2, img2, transparent(), 0));
    }
}

proof fn lemma_decode_row(
    w: WindowView,
    img: ImageView,
    pal: Map<u8, LumaA>,
    palette_id: u8,
    composition_number: u16,
    s: Seq<u8>,
    pos: int,
    row: Seq<u8>,
)
    requires
        0 <= pos,
        pos + encode_row(row).len() <= s.len(),
        s.subrange(pos, pos + encode_row(row).len()) == encode_row(row),
        row_colors_known(pal, row),
    ensures
        ({
            let (w2, img2) = paint_row(w, img, pal, row);
            rle_from(w, img, pal, palette_id, composition_number, s, pos) == rle_from(
                w2,
                img2,
                pal,
                palette_id,
                composition_number,
                s,
                pos + encode_row(row).len(),
            )
        }),
    decreases row.len(),
{
    let e = encode_row(row);
    if row.len() == 0 {
        assert(s[pos] == e[0]);
        assert(s[pos + 1] == e[1]);
        assert(push_run(end_line_spec(w), img, transparent(), 0) == (end_line_spec(w), img));
    } else {
        let c = row[0];
        let rest = row.drop_first();
        let k = encode_pixel(c).len() as int;
        assert(e == encode_pixel(c) + encode_row(rest));
        assert(s.subrange(pos, pos + k) =~= encode_pixel(c)) by {
            assert(s.subrange(pos, pos + k) =~= e.subrange(0, k));
        }
        assert(c != 0 ==> pal.contains_key(c)) by {
            assert(row[0] == c);
        }
        lemma_decode_pixel(w, img, pal, palette_id, composition_number, s, pos, c);
        let (w2, img2) = push_spec(w, img, pixel_color(pal, c));
        assert(s.subrange(pos + k, pos + k + encode_row(rest).len()) =~= encode_row(rest)) by {
            assert(s.subrange(pos + k, pos + k + encode_row(rest).len()) =~= e.subrange(
                k,
                e.len() as int,
            ));
        }
        assert(row_colors_known(pal, rest)) by {
            assert forall|x: int| 0 <= x < rest.len() && rest[x] != 0 implies pal.contains_key(
                #[trigger] rest[x],
            ) by {
                assert(rest[x] == row[x + 1]);
            }
        }
        lemma_decode_row(w2, img2, pal, palette_id, composition_number, s, pos + k, rest);
    }
}

proof fn lemma_decode_rows(
    w: WindowView,
    img: ImageView,
    pal: Map<u8, LumaA>,
    palette_id: u8,
    composition_number: u16,
    s: Seq<u8>,
    pos: int,
    rows: Seq<Seq<u8>>,
)
    requires
        0 <= pos,
        pos + encode_rows(rows).len() <= s.len(),
        s.subrange(pos, pos + encode_rows(rows).len()) == encode_rows(rows),
        forall|y: int| 0 <= y < rows.len() ==> row_colors_known(pal, #[trigger] rows[y]),
    ensures
        ({
            let (w2, img2) = paint_rows(w, img, pal, rows);
            rle_from(w, img, pal, palette_id, composition_number, s, pos) == rle_from(
                w2,
                img2,
                pal,
                palette_id,
                composition_number,
                s,
                pos + encode_rows(rows).len(),
            )
        }),
    decreases rows.len(),
{
    if rows.len() > 0 {
        let e = encode_rows(rows);
        let first = rows[0];
        let rest = rows.drop_first();
        let k = encode_row(first).len() as int;
        assert(e == encode_row(first) + encode_rows(rest));
        assert(s.subrange(pos, pos + k) =~= encode_row(first)) by {
            assert(s.subrange(pos, pos + k) =~= e.subrange(0, k));
        }
        lemma_decode_row(w, img, pal, palette_id, composition_number, s, pos, first);
        let (w2, img2) = paint_row(w, img, pal, first);
        assert(s.subrange(pos + k, pos + k + encode_rows(rest).len()) =~= encode_rows(rest)) by {
            assert(s.subrange(pos + k, pos + k + encode_rows(rest).len()) =~= e.subrange(
                k,
                e.len() as int,
            ));
        }
        assert forall|y: int| 0 <= y < rest.len() implies row_colors_known(pal, #[trigger] rest[y]) by {
            assert(rest[y] == rows[y + 1]);
        }
        lemma_decode_rows(w2, img2, pal, palette_id, composition_number, s, pos + k, rest);
    }
}

/// Decoding an encoded bitmap gives back its pixels: rows of color ids encoded with
/// `encode_rows` (literal color bytes, one-pixel transparent runs and an end-of-line escape
/// after each row) decode without error to exactly the pushes of their pixels' colors in
/// raster order, with the cursor moved to the start of the next row after each row.
pub proof fn lemma_rle_round_trip(
    w: WindowView,
    img: ImageView,
    pal: Map<u8, LumaA>,
    palette_id: u8,
    composition_number: u16,
    rows: Seq<Seq<u8>>,
)
    requires
        forall|y: int| 0 <= y < rows.len() ==> row_colors_known(pal, #[trigger] rows[y]),
    ensures
        spec_render(w, img, pal, palette_id, composition_number, encode_rows(rows)) == rle_done(
            paint_rows(w, img, pal, rows).0,
            paint_rows(w, img, pal, rows).1,
        ),
{
    let s = encode_rows(rows);
    assert(s.subrange(0, s.len() as int) =~= s);
    lemma_decode_rows(w, img, pal, palette_id, composition_number, s, 0, rows);
}


/// Whether `w` is a window onto the whole of `img`, placed at its top left corner, uncropped.
pub open spec fn whole_image_window(w: WindowView, img: ImageView) -> bool {
    &&& w.x == 0
    &&& w.y == 0
    &&& w.crop_origin is None
    &&& w.width == img.width
    &&& w.height == img.height
}

/// The pixel at (`x`, `y`) after painting `row` from column `x0` of row `y0` onto `img`.
pub open spec fn row_expected(
    img: ImageView,
    pal: Map<u8, LumaA>,
    row: Seq<u8>,
    x0: int,
    y0: int,
    x: int,
    y: int,
) -> LumaA {
    if y == y0 && x0 <= x < x0 + row.len() && pixel_color(pal, row[x - x0]).alpha != 0 {
        pixel_color(pal, row[x - x0])
    } else {
        img.pixels[pixel_index(img.width as int, x, y)]
    }
}

/// The pixel at (`x`, `y`) after painting `rows` from row `y0` on onto `img`: the color of the
/// bitmap's pixel where it has one that is not fully transparent, else what was there.
pub open spec fn rows_expected(
    img: ImageView,
    pal: Map<u8, LumaA>,
    rows: Seq<Seq<u8>>,
    y0: int,
    x: int,
    y: int,
) -> LumaA {
    if y0 <= y < y0 + rows.len() && 0 <= x < rows[y - y0].len() && pixel_color(
        pal,
        rows[y - y0][x],
    ).alpha != 0 {
        pixel_color(pal, rows[y - y0][x])
    } else {
        img.pixels[pixel_index(img.width as int, x, y)]
    }
}

proof fn lemma_paint_row_grid(w: WindowView, img: ImageView, pal: Map<u8, LumaA>, row: Seq<u8>)
    requires
        whole_image_window(w, img),
        img.pixels.len() == img.width * img.height,
        img.width < u32::MAX,
        w.x_cursor + row.len() <= img.width,
        w.y_cursor < img.height,
    ensures
        ({
            let (w2, img2) = paint_row(w, img, pal, row);
            &&& w2 == WindowView { x_cursor: 0, y_cursor: advance(w.y_cursor), ..w }
            &&& img2.width == img.width
            &&& img2.height == img.height
            &&& img2.pixels.len() == img.pixels.len()
            &&& forall|x: int, y: int|
                0 <= x < img.width && 0 <= y < img.height ==> img2.pixels[pixel_index(
                    img.width as int,
                    x,
                    y,
                )] == #[trigger] row_expected(
                    img,
                    pal,
                    row,
                    w.x_cursor as int,
                    w.y_cursor as int,
                    x,
                    y,
                )
        }),
    decreases row.len(),
{
    let x0 = w.x_cursor as int;
    let y0 = w.y_cursor as int;
    if row.len() > 0 {
        let p = pixel_color(pal, row[0]);
        let (w1, img1) = push_spec(w, img, p);
        lemma_pixel_index_in_bounds(img.width as int, img.height as int, x0, y0);
        assert(w1.x_cursor == x0 + 1);
        let rest = row.drop_first();
        lemma_paint_row_grid(w1, img1, pal, rest);
        let (w2, img2) = paint_row(w1, img1, pal, rest);
        assert forall|x: int, y: int| 0 <= x < img.width && 0 <= y < img.height implies img2.pixels[pixel_index(
            img.width as int,
            x,
            y,
        )] == #[trigger] row_expected(img, pal, row, x0, y0, x, y) by {
            assert(img2.pixels[pixel_index(img.width as int, x, y)] == row_expected(
                img1,
                pal,
                rest,
                x0 + 1,
                y0,
                x,
                y,
            ));
            lemma_pixel_index_in_bounds(img.width as int, img.height as int, x, y);
            if (x, y) != (x0, y0) {
                lemma_pixel_index_injective(img.width as int, x, y, x0, y0);
                if y == y0 && x0 + 1 <= x < x0 + row.len() {
                    assert(rest[x - (x0 + 1)] == row[x - x0]);
                }
            }
        }
    }
}

proof fn lemma_paint_rows_grid(w: WindowView, img: ImageView, pal: Map<u8, LumaA>, rows: Seq<Seq<u8>>)
    requires
        whole_image_window(w, img),
        img.pixels.len() == img.width * img.height,
        img.width < u32::MAX,
        img.height < u32::MAX,
        w.x_cursor == 0,
        w.y_cursor + rows.len() <= img.height,
        forall|y: int| 0 <= y < rows.len() ==> (#[trigger] rows[y]).len() <= img.width,
    ensures
        ({
            let (w2, img2) = paint_rows(w, img, pal, rows);
            &&& img2.width == img.width
            &&& img2.height == img.height
            &&& img2.pixels.len() == img.pixels.len()
            &&& forall|x: int, y: int|
                0 <= x < img.width && 0 <= y < img.height ==> img2.pixels[pixel_index(
                    img.width as int,
                    x,
                    y,
                )] == #[trigger] rows_expected(img, pal, rows, w.y_cursor as int, x, y)
        }),
    decreases rows.len(),
{
    let y0 = w.y_cursor as int;
    if rows.len() > 0 {
        let first = rows[0];
        let rest = rows.drop_first();
        lemma_paint_row_grid(w, img, pal, first);
        let (w1, img1) = paint_row(w, img, pal, first);
        assert forall|y: int| 0 <= y < rest.len() implies (#[trigger] rest[y]).len() <= img.width by {
            assert(rest[y] == rows[y + 1]);
        }
        lemma_paint_rows_grid(w1, img1, pal, rest);
        let (w2, img2) = paint_rows(w1, img1, pal, rest);
        assert forall|x: int, y: int| 0 <= x < img.width && 0 <= y < img.height implies img2.pixels[pixel_index(
            img.width as int,
            x,
            y,
        )] == #[trigger] rows_expected(img, pal, rows, y0, x, y) by {
            assert(img2.pixels[pixel_index(img.width as int, x, y)] == rows_expected(
                img1,
                pal,
                rest,
                y0 + 1,
                x,
                y,
            ));
            assert(img1.pixels[pixel_index(img.width as int, x, y)] == row_expected(
                img,
                pal,
                first,
                0,
                y0,
                x,
                y,
            ));
            if y0 + 1 <= y < y0 + rows.len() {
                assert(rest[y - (y0 + 1)] == rows[y - y0]);
            }
        }
    }
}

/// Decoding an encoded bitmap gives back its pixel grid: rows of color ids (each no wider than
/// the image, together no taller), encoded with `encode_rows` and decoded from the top left
/// corner of a window onto the whole image, leave at (`x`, `y`) the color of the bitmap's
/// pixel there unless that color is fully transparent, and leave every other pixel as it was.
pub proof fn lemma_rle_round_trip_grid(
    w: WindowView,
    img: ImageView,
    pal: Map<u8, LumaA>,
    palette_id: u8,
    composition_number: u16,
    rows: Seq<Seq<u8>>,
)
    requires
        whole_image_window(w, img),
        w.x_cursor == 0,
        w.y_cursor == 0,
        img.pixels.len() == img.width * img.height,
        img.width < u32::MAX,
        img.height < u32::MAX,
        rows.len() <= img.height,
        forall|y: int| 0 <= y < rows.len() ==> (#[trigger] rows[y]).len() <= img.width,
        forall|y: int| 0 <= y < rows.len() ==> row_colors_known(pal, #[trigger] rows[y]),
    ensures
        spec_render(w, img, pal, palette_id, composition_number, encode_rows(rows)).error is None,
        ({
            let img2 = spec_render(w, img, pal, palette_id, composition_number, encode_rows(rows)).image;
            &&& img2.width == img.width
            &&& img2.height == img.height
            &&& forall|x: int, y: int|
                0 <= x < img.width && 0 <= y < img.height ==> img2.pixels[pixel_index(
                    img.width as int,
                    x,
                    y,
                )] == #[trigger] rows_expected(img, pal, rows, 0, x, y)
        }),
{
    lemma_rle_round_trip(w, img, pal, palette_id, composition_number, rows);
    lemma_paint_rows_grid(w, img, pal, rows);
}

} // verus!
