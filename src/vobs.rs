//! Pieces of a decoder for VobSub (DVD) subtitle frames, whose bitmaps are run-length coded
//! over 4-bit nibbles.
use vstd::prelude::*;
use crate::binary_reader::u16_at;
use crate::image::{Rgba, RgbaImage, RgbaImageView, pixel_index};

verus! {

#[derive(Clone, Copy, Debug, PartialEq, Eq, Structural)]
pub enum SubsError {
    InvalidIdx,
    InvalidFrameHeader,
    InvalidControl,
    InvalidFrame,
}

#[derive(Clone, Copy, Debug, PartialEq, Eq, Structural)]
pub struct Coordinates {
    pub x1: u16,
    pub x2: u16,
    pub y1: u16,
    pub y2: u16,
}

/// The nibble at nibble index `i` of `s`: the high half of each byte comes first.
pub open spec fn nibble_at(s: Seq<u8>, i: int) -> u8 {
    if i % 2 == 0 {
        (s[i / 2] / 16) as u8
    } else {
        (s[i / 2] % 16) as u8
    }
}

/// Cursor-style reading of a byte slice as a stream of nibbles.
pub struct NibbleStream<'a> {
    pos: usize,
    high: bool,
    data: &'a [u8],
}

impl<'a> NibbleStream<'a> {
    /// The bytes read over.
    pub closed spec fn data(&self) -> Seq<u8> {
        self.data@
    }

    /// How many nibbles have been read or skipped.
    pub closed spec fn cursor(&self) -> int {
        if self.high {
            2 * self.pos
        } else {
            2 * self.pos + 1
        }
    }

    #[verifier::type_invariant]
    spec fn inv(self) -> bool {
        &&& self.pos <= self.data@.len()
        &&& !self.high ==> self.pos < self.data@.len()
    }

    /// A stream at the first nibble of `data`.
    pub fn new(data: &'a [u8]) -> (r: Self)
        ensures
            r.data() == data@,
            r.cursor() == 0,
    {
        NibbleStream { pos: 0, high: true, data }
    }

    /// Moves on to a byte boundary, skipping a nibble if the cursor is in the middle of a byte.
    pub fn byte_align(&mut self)
        ensures
            final(self).data() == old(self).data(),
            final(self).cursor() == if old(self).cursor() % 2 == 0 {
                old(self).cursor()
            } else {
                old(self).cursor() + 1
            },
    {
        proof {
            use_type_invariant(&*self);
        }
        if !self.high && self.pos < self.data.len() {
            *self = NibbleStream { pos: self.pos + 1, high: true, data: self.data };
        }
    }

    /// The next nibble, or `None` at the end of the data.
    pub fn take_nibble(&mut self) -> (r: Option<u8>)
        ensures
            final(self).data() == old(self).data(),
            match r {
                Some(n) => old(self).cursor() < 2 * old(self).data().len() && n == nibble_at(
                    old(self).data(),
                    old(self).cursor(),
                ) && final(self).cursor() == old(self).cursor() + 1,
                None => old(self).cursor() >= 2 * old(self).data().len() && final(self).cursor()
                    == old(self).cursor(),
            },
    {
        proof {
            use_type_invariant(&*self);
        }
        if self.pos >= self.data.len() {
            return None;
        }
        let byte = self.data[self.pos];
        if self.high {
            *self = NibbleStream { pos: self.pos, high: false, data: self.data };
            Some(byte / 16)
        } else {
            *self = NibbleStream { pos: self.pos + 1, high: true, data: self.data };
            Some(byte % 16)
        }
    }
}

/// One run of a VobSub bitmap line: `length` pixels of local color `color` (0 to 3); a length
/// of 0 runs to the end of the line.
#[derive(Clone, Copy, Debug, PartialEq, Eq, Structural)]
pub struct Rle {
    pub length: u32,
    pub color: u8,
}

/// The run code that starts at nibble `i` of `s`, and how many nibbles it takes: one nibble
/// of 4 or more; a nibble 1 to 3 and one more; a 0 and a nibble of 4 or more and one more;
/// or a 0, a nibble 0 to 3 and two more. `None` where the data ends first.
pub open spec fn run_code_at(s: Seq<u8>, i: int) -> Option<(int, int)> {
    let n = 2 * s.len();
    let n1 = nibble_at(s, i) as int;
    if i + 1 > n {
        None
    } else if n1 >= 4 {
        Some((n1, 1))
    } else if n1 >= 1 {
        if i + 2 > n {
            None
        } else {
            Some((n1 * 16 + nibble_at(s, i + 1) as int, 2))
        }
    } else if i + 2 > n {
        None
    } else {
        let n2 = nibble_at(s, i + 1) as int;
        if n2 >= 4 {
            if i + 3 > n {
                None
            } else {
                Some((n2 * 16 + nibble_at(s, i + 2) as int, 3))
            }
        } else if i + 4 > n {
            None
        } else {
            Some(
                (n2 * 256 + nibble_at(s, i + 2) as int * 16 + nibble_at(s, i + 3) as int, 4),
            )
        }
    }
}

/// The run that a run code stands for: its top bits are the length, its two low bits the
/// color.
pub open spec fn run_of(code: int) -> Rle {
    Rle { length: (code / 4) as u32, color: (code % 4) as u8 }
}

/// Reads the next run code of a bitmap line.
pub fn read_rle(nibble_stream: &mut NibbleStream) -> (r: Option<Rle>)
    ensures
        final(nibble_stream).data() == old(nibble_stream).data(),
        0 <= final(nibble_stream).cursor(),
        match run_code_at(old(nibble_stream).data(), old(nibble_stream).cursor()) {
            Some((code, used)) => r == Some(run_of(code)) && final(nibble_stream).cursor() == old(
                nibble_stream,
            ).cursor() + used,
            None => r is None,
        },
{
    let n1 = nibble_stream.take_nibble()?;
    let code: u16 = if n1 >= 4 {
        n1 as u16
    } else if n1 >= 1 {
        let n2 = nibble_stream.take_nibble()?;
        (n1 as u16) * 16 + n2 as u16
    } else {
        let n2 = nibble_stream.take_nibble()?;
        if n2 >= 4 {
            let n3 = nibble_stream.take_nibble()?;
            (n2 as u16) * 16 + n3 as u16
        } else {
            let n3 = nibble_stream.take_nibble()?;
            let n4 = nibble_stream.take_nibble()?;
            (n2 as u16) * 256 + (n3 as u16) * 16 + n4 as u16
        }
    };
    Some(Rle { length: (code / 4) as u32, color: (code % 4) as u8 })
}


/// The display control data of a VobSub frame, from its control sequences.
#[derive(Clone, Copy, Debug)]
pub struct ControlData {
    pub force: bool,
    pub start_time: Option<u16>,
    pub stop_time: Option<u16>,
    pub color_palette: Option<[u8; 4]>,
    pub alpha_palette: Option<[u8; 4]>,
    pub coordinates: Option<Coordinates>,
    pub rle_offsets: Option<(u16, u16)>,
}

pub struct ControlDataView {
    pub force: bool,
    pub start_time: Option<u16>,
    pub stop_time: Option<u16>,
    pub color_palette: Option<Seq<u8>>,
    pub alpha_palette: Option<Seq<u8>>,
    pub coordinates: Option<Coordinates>,
    pub rle_offsets: Option<(u16, u16)>,
}

pub open spec fn four_view(a: Option<[u8; 4]>) -> Option<Seq<u8>> {
    match a {
        Some(v) => Some(v@),
        None => None,
    }
}

impl View for ControlData {
    type V = ControlDataView;

    open spec fn view(&self) -> ControlDataView {
        ControlDataView {
            force: self.force,
            start_time: self.start_time,
            stop_time: self.stop_time,
            color_palette: four_view(self.color_palette),
            alpha_palette: four_view(self.alpha_palette),
            coordinates: self.coordinates,
            rle_offsets: self.rle_offsets,
        }
    }
}

pub open spec fn empty_control() -> ControlDataView {
    ControlDataView {
        force: false,
        start_time: None,
        stop_time: None,
        color_palette: None,
        alpha_palette: None,
        coordinates: None,
        rle_offsets: None,
    }
}

/// The four nibbles of the two bytes at `i`, high half first.
pub open spec fn four_nibbles(s: Seq<u8>, i: int) -> Seq<u8> {
    seq![
        (s[i] / 16) as u8,
        (s[i] % 16) as u8,
        (s[i + 1] / 16) as u8,
        (s[i + 1] % 16) as u8,
    ]
}

/// The display area whose four 12-bit coordinates are packed in the six bytes at `i`.
pub open spec fn coordinates_at(s: Seq<u8>, i: int) -> Coordinates {
    Coordinates {
        x1: (u16_at(s, i) / 16) as u16,
        x2: ((s[i + 1] % 16) as int * 256 + s[i + 2] as int) as u16,
        y1: (u16_at(s, i + 3) / 16) as u16,
        y2: ((s[i + 4] % 16) as int * 256 + s[i + 5] as int) as u16,
    }
}

/// The control data after the commands from byte `pos` up to an end command, in a sequence
/// whose time is `time`: 0x00 forces display, 0x01 and 0x02 take the time as start and stop,
/// 0x03 and 0x04 set the color and alpha indices from the next two bytes, 0x05 the display
/// area from the next six, 0x06 the offsets of the two fields' bitmaps from the next four,
/// and 0xFF ends the sequence. `None` where the data ends first or a command is unknown.
pub open spec fn control_commands(s: Seq<u8>, pos: int, time: u16, c: ControlDataView) -> Option<
    ControlDataView,
>
    decreases s.len() - pos,
{
    if pos < 0 || pos >= s.len() {
        None
    } else {
        let cmd = s[pos];
        if cmd == 0x00 {
            control_commands(s, pos + 1, time, ControlDataView { force: true, ..c })
        } else if cmd == 0x01 {
            control_commands(s, pos + 1, time, ControlDataView { start_time: Some(time), ..c })
        } else if cmd == 0x02 {
            control_commands(s, pos + 1, time, ControlDataView { stop_time: Some(time), ..c })
        } else if cmd == 0x03 || cmd == 0x04 {
            if pos + 3 > s.len() {
                None
            } else if cmd == 0x03 {
                control_commands(
                    s,
                    pos + 3,
                    time,
                    ControlDataView { color_palette: Some(four_nibbles(s, pos + 1)), ..c },
                )
            } else {
                control_commands(
                    s,
                    pos + 3,
                    time,
                    ControlDataView { alpha_palette: Some(four_nibbles(s, pos + 1)), ..c },
                )
            }
        } else if cmd == 0x05 {
            if s.len() <= pos + 6 {
                None
            } else {
                control_commands(
                    s,
                    pos + 7,
                    time,
                    ControlDataView { coordinates: Some(coordinates_at(s, pos + 1)), ..c },
                )
            }
        } else if cmd == 0x06 {
            if s.len() <= pos + 4 {
                None
            } else {
                control_commands(
                    s,
                    pos + 5,
                    time,
                    ControlDataView {
                        rle_offsets: Some(
                            (u16_at(s, pos + 1) as u16, u16_at(s, pos + 3) as u16),
                        ),
                        ..c
                    },
                )
            }
        } else if cmd == 0xFF {
            Some(c)
        } else {
            None
        }
    }
}

/// The control data after the chain of control sequences from byte `cursor`: each starts with
/// its time and the offset of the next sequence, the last one pointing at itself. At most
/// `fuel` sequences are read.
pub open spec fn control_sequences(s: Seq<u8>, cursor: int, c: ControlDataView, fuel: nat) -> Option<
    ControlDataView,
>
    decreases fuel,
{
    if fuel == 0 || cursor < 0 || s.len() <= cursor + 4 {
        None
    } else {
        match control_commands(s, cursor + 4, u16_at(s, cursor) as u16, c) {
            None => None,
            Some(c2) => if u16_at(s, cursor + 2) == cursor {
                Some(c2)
            } else {
                control_sequences(s, u16_at(s, cursor + 2), c2, (fuel - 1) as nat)
            },
        }
    }
}

/// The control data of the sequences that start at byte `cursor`. A sequence takes at least
/// five bytes, so a chain of more sequences than the data has bytes comes back to one it has
/// read and would never end: it is rejected.
pub open spec fn spec_control(s: Seq<u8>, cursor: int) -> Option<ControlDataView> {
    control_sequences(s, cursor, empty_control(), s.len())
}

fn read_four_nibbles(data: &[u8], at: usize) -> (r: [u8; 4])
    requires
        at + 2 <= data.len(),
    ensures
        r@ == four_nibbles(data@, at as int),
{
    let mut nibbles = NibbleStream::new(&data[at..at + 2]);
    let a = match nibbles.take_nibble() {
        Some(n) => n,
        None => 0,
    };
    let b = match nibbles.take_nibble() {
        Some(n) => n,
        None => 0,
    };
    let c = match nibbles.take_nibble() {
        Some(n) => n,
        None => 0,
    };
    let d = match nibbles.take_nibble() {
        Some(n) => n,
        None => 0,
    };
    let r = [a, b, c, d];
    assert(r@ =~= four_nibbles(data@, at as int));
    r
}

fn be16(hi: u8, lo: u8) -> (r: u16)
    ensures
        r == hi as int * 256 + lo as int,
{
    (hi as u16) * 256 + lo as u16
}

/// Runs the commands of one control sequence from byte `pos`, up to its end command.
#[verifier::rlimit(50)]
fn run_commands(data: &[u8], pos: usize, offset_time: u16, initial: ControlData) -> (r: Option<
    ControlData,
>)
    ensures
        match r {
            Some(c) => control_commands(data@, pos as int, offset_time, initial@) == Some(c@),
            None => control_commands(data@, pos as int, offset_time, initial@) is None,
        },
{
    let ghost s = data@;
    let ghost c0 = initial@;
    let ghost target = control_commands(s, pos as int, offset_time, c0);
    let mut control = initial;
    let mut cursor = pos;
    loop
        invariant
            s == data@,
            c0 == initial@,
            target == control_commands(s, pos as int, offset_time, c0),
            target == control_commands(s, cursor as int, offset_time, control@),
        ensures
            target == Some(control@),
        decreases s.len() - cursor,
    {
        if data.len() <= cursor {
            return None;
        }
        let command = data[cursor];
        if command == 0x00 {
            control.force = true;
            cursor = cursor + 1;
        } else if command == 0x01 {
            control.start_time = Some(offset_time);
            cursor = cursor + 1;
        } else if command == 0x02 {
            control.stop_time = Some(offset_time);
            cursor = cursor + 1;
        } else if command == 0x03 || command == 0x04 {
            if data.len() - cursor < 3 {
                return None;
            }
            let four = read_four_nibbles(data, cursor + 1);
            if command == 0x03 {
                control.color_palette = Some(four);
            } else {
                control.alpha_palette = Some(four);
            }
            cursor = cursor + 3;
        } else if command == 0x05 {
            if data.len() - cursor <= 6 {
                return None;
            }
            let coordinates = Coordinates {
                x1: be16(data[cursor + 1], data[cursor + 2]) / 16,
                x2: ((data[cursor + 2] % 16) as u16) * 256 + data[cursor + 3] as u16,
                y1: be16(data[cursor + 4], data[cursor + 5]) / 16,
                y2: ((data[cursor + 5] % 16) as u16) * 256 + data[cursor + 6] as u16,
            };
            control.coordinates = Some(coordinates);
            cursor = cursor + 7;
        } else if command == 0x06 {
            if data.len() - cursor <= 4 {
                return None;
            }
            let evens = be16(data[cursor + 1], data[cursor + 2]);
            let odds = be16(data[cursor + 3], data[cursor + 4]);
            control.rle_offsets = Some((evens, odds));
            cursor = cursor + 5;
        } else if command == 0xFF {
            break;
        } else {
            return None;
        }
    }
    Some(control)
}

/// Reads the control sequences of a VobSub frame from byte `cursor` on.
pub fn parse_control(data: &[u8], cursor_start: usize) -> (r: Option<ControlData>)
    ensures
        match r {
            Some(c) => spec_control(data@, cursor_start as int) == Some(c@),
            None => spec_control(data@, cursor_start as int) is None,
        },
{
    let ghost s = data@;
    let mut control = ControlData {
        force: false,
        start_time: None,
        stop_time: None,
        color_palette: None,
        alpha_palette: None,
        coordinates: None,
        rle_offsets: None,
    };
    let ghost target = spec_control(s, cursor_start as int);
    let mut cursor = cursor_start;
    let mut fuel: usize = data.len();
    assert(control@ == empty_control());
    loop
        invariant
            s == data@,
            target == spec_control(s, cursor_start as int),
            target == control_sequences(s, cursor as int, control@, fuel as nat),
        decreases fuel,
    {
        if fuel == 0 || data.len() <= cursor || data.len() - cursor <= 4 {
            return None;
        }
        let this_sequence = cursor;
        let offset_time = be16(data[cursor], data[cursor + 1]);
        let next_control = be16(data[cursor + 2], data[cursor + 3]);
        control = match run_commands(data, cursor + 4, offset_time, control) {
            Some(c) => c,
            None => {
                return None;
            },
        };
        if next_control as usize == this_sequence {
            return Some(control);
        }
        cursor = next_control as usize;
        fuel = fuel - 1;
    }
}


/// A color of the 16-color palette that a VobSub track declares.
#[derive(Clone, Copy, Debug, PartialEq, Eq, Structural)]
pub struct Rgb {
    pub r: u8,
    pub g: u8,
    pub b: u8,
}

/// The image after `n` pixels `p` from column `x` of row `y` on.
pub open spec fn paint_span(img: RgbaImageView, x: int, y: int, n: nat, p: Rgba) -> RgbaImageView
    decreases n,
{
    if n == 0 {
        img
    } else {
        paint_span(
            RgbaImageView {
                pixels: img.pixels.update(pixel_index(img.width as int, x, y), p),
                ..img
            },
            x + 1,
            y,
            (n - 1) as nat,
            p,
        )
    }
}

/// The nibble cursor `c` moved on to a byte boundary.
pub open spec fn aligned(c: int) -> int {
    if c % 2 == 0 {
        c
    } else {
        c + 1
    }
}

/// The color that local color `color` (0 to 3) stands for, or `None` where its palette index
/// is not below 16. The local color and alpha tables list color 3 first.
pub open spec fn local_color(pal: Seq<Rgb>, colors: Seq<u8>, alphas: Seq<u8>, color: int) -> Option<Rgba> {
    let idx = colors[3 - color];
    if idx >= 16 {
        None
    } else {
        let c = pal[idx as int];
        Some(Rgba { r: c.r, g: c.g, b: c.b, a: alphas[3 - color] })
    }
}

/// Decoding the rest of row `y` from column `x`, with runs read from nibble `c` of `t`: the
/// nibble cursor after the row and the image. A run of length 0 runs to the end of the row
/// and moves the cursor to a byte boundary; a run past the end of the row is an error.
pub open spec fn line_from(
    t: Seq<u8>,
    c: int,
    width: int,
    x: int,
    y: int,
    pal: Seq<Rgb>,
    colors: Seq<u8>,
    alphas: Seq<u8>,
    img: RgbaImageView,
) -> Option<(int, RgbaImageView)>
    decreases width - x,
{
    if x >= width {
        Some((c, img))
    } else {
        match run_code_at(t, c) {
            None => None,
            Some((code, used)) => {
                let run = run_of(code);
                if run.length > width - x {
                    None
                } else {
                    let n = if run.length == 0 {
                        width - x
                    } else {
                        run.length as int
                    };
                    let c2 = if run.length == 0 {
                        aligned(c + used)
                    } else {
                        c + used
                    };
                    match local_color(pal, colors, alphas, run.color as int) {
                        None => None,
                        Some(p) => line_from(
                            t,
                            c2,
                            width,
                            x + n,
                            y,
                            pal,
                            colors,
                            alphas,
                            paint_span(img, x, y, n as nat, p),
                        ),
                    }
                }
            },
        }
    }
}

/// Decoding rows `y` and on: even rows read from `t0`, odd rows from `t1`.
pub open spec fn rows_from(
    t0: Seq<u8>,
    t1: Seq<u8>,
    c0: int,
    c1: int,
    y: int,
    width: int,
    height: int,
    pal: Seq<Rgb>,
    colors: Seq<u8>,
    alphas: Seq<u8>,
    img: RgbaImageView,
) -> Option<RgbaImageView>
    decreases height - y,
{
    if y >= height {
        Some(img)
    } else if y % 2 == 0 {
        match line_from(t0, c0, width, 0, y, pal, colors, alphas, img) {
            None => None,
            Some((c, img2)) => rows_from(t0, t1, c, c1, y + 1, width, height, pal, colors, alphas, img2),
        }
    } else {
        match line_from(t1, c1, width, 0, y, pal, colors, alphas, img) {
            None => None,
            Some((c, img2)) => rows_from(t0, t1, c0, c, y + 1, width, height, pal, colors, alphas, img2),
        }
    }
}

/// The image of a VobSub frame: its size comes from the display area of the control data, and
/// its rows from the two interlaced run-length fields that start at the control data's
/// offsets. `None` where a part of the control data is missing, the area is reversed or goes
/// past the 12-bit coordinate range, an offset is past the data, or a row does not decode.
pub open spec fn spec_parse_data(pal: Seq<Rgb>, control: ControlDataView, s: Seq<u8>) -> Option<
    RgbaImageView,
> {
    match (control.color_palette, control.alpha_palette, control.coordinates, control.rle_offsets) {
        (Some(colors), Some(alphas), Some(area), Some((even, odd))) => {
            if area.x2 < area.x1 || area.y2 < area.y1 || area.x2 > 0xFFF || area.y2 > 0xFFF
                || s.len() <= even || s.len() <= odd {
                None
            } else {
                let width = area.x2 - area.x1 + 1;
                let height = area.y2 - area.y1 + 1;
                rows_from(
                    s.subrange(even as int, s.len() as int),
                    s.subrange(odd as int, s.len() as int),
                    0,
                    0,
                    0,
                    width,
                    height,
                    pal,
                    colors,
                    alphas,
                    RgbaImageView {
                        width: width as nat,
                        height: height as nat,
                        pixels: Seq::new(
                            (width * height) as nat,
                            |i: int| Rgba { r: 0, g: 0, b: 0, a: 0 },
                        ),
                    },
                )
            }
        },
        _ => None,
    }
}

fn decode_line(
    stream: &mut NibbleStream,
    image: &mut RgbaImage,
    y: u32,
    palette: &[Rgb; 16],
    colors: [u8; 4],
    alphas: [u8; 4],
) -> (r: bool)
    requires
        0 <= old(stream).cursor(),
        y < old(image)@.height,
    ensures
        final(stream).data() == old(stream).data(),
        0 <= final(stream).cursor(),
        final(image)@.width == old(image)@.width,
        final(image)@.height == old(image)@.height,
        match line_from(
            old(stream).data(),
            old(stream).cursor(),
            old(image)@.width as int,
            0,
            y as int,
            palette@,
            colors@,
            alphas@,
            old(image)@,
        ) {
            Some((c, img)) => r && final(stream).cursor() == c && final(image)@ == img,
            None => !r,
        },
{
    let ghost t = stream.data();
    let ghost target = line_from(
        t,
        stream.cursor(),
        image@.width as int,
        0,
        y as int,
        palette@,
        colors@,
        alphas@,
        image@,
    );
    let width = image.width();
    let mut x: u32 = 0;
    while x < width
        invariant
            t == stream.data(),
            t == old(stream).data(),
            0 <= stream.cursor(),
            width == image@.width,
            width == old(image)@.width,
            image@.height == old(image)@.height,
            y < image@.height,
            x <= width,
            target == line_from(
                old(stream).data(),
                old(stream).cursor(),
                old(image)@.width as int,
                0,
                y as int,
                palette@,
                colors@,
                alphas@,
                old(image)@,
            ),
            target == line_from(
                t,
                stream.cursor(),
                width as int,
                x as int,
                y as int,
                palette@,
                colors@,
                alphas@,
                image@,
            ),
        decreases width - x,
    {
        let run = match read_rle(stream) {
            Some(r) => r,
            None => {
                return false;
            },
        };
        if run.length > width - x {
            return false;
        }
        let mut length = run.length;
        if length == 0 {
            stream.byte_align();
            length = width - x;
        }
        let idx = colors[3 - run.color as usize];
        let alpha = alphas[3 - run.color as usize];
        if idx >= 16 {
            return false;
        }
        let c = palette[idx as usize];
        let pixel = Rgba { r: c.r, g: c.g, b: c.b, a: alpha };
        let ghost start = image@;
        let ghost x0 = x;
        let mut k: u32 = 0;
        while k < length
            invariant
                t == stream.data(),
                t == old(stream).data(),
                0 <= stream.cursor(),
                width == image@.width,
                width == old(image)@.width,
                image@.height == old(image)@.height,
                y < image@.height,
                target == line_from(
                    old(stream).data(),
                    old(stream).cursor(),
                    old(image)@.width as int,
                    0,
                    y as int,
                    palette@,
                    colors@,
                    alphas@,
                    old(image)@,
                ),
                target == line_from(
                    t,
                    stream.cursor(),
                    width as int,
                    x0 + length,
                    y as int,
                    palette@,
                    colors@,
                    alphas@,
                    paint_span(start, x0 as int, y as int, length as nat, pixel),
                ),
                k <= length,
                x0 + length <= width,
                x == x0 + k,
                paint_span(start, x0 as int, y as int, length as nat, pixel) == paint_span(
                    image@,
                    x as int,
                    y as int,
                    (length - k) as nat,
                    pixel,
                ),
            decreases length - k,
        {
            image.put_pixel(x, y, pixel);
            x = x + 1;
            k = k + 1;
        }
        assert(image@ == paint_span(start, x0 as int, y as int, length as nat, pixel));
    }
    true
}

/// Decodes the bitmap of a VobSub frame with the track's palette and the frame's control data.
pub fn parse_data(palette: &[Rgb; 16], control: ControlData, data: &[u8]) -> (r: Option<RgbaImage>)
    ensures
        match spec_parse_data(palette@, control@, data@) {
            Some(img) => r is Some && r->0@ == img,
            None => r is None,
        },
{
    let colors = match control.color_palette {
        Some(c) => c,
        None => {
            return None;
        },
    };
    let alphas = match control.alpha_palette {
        Some(a) => a,
        None => {
            return None;
        },
    };
    let area = match control.coordinates {
        Some(a) => a,
        None => {
            return None;
        },
    };
    let (even, odd) = match control.rle_offsets {
        Some(o) => o,
        None => {
            return None;
        },
    };
    if area.x2 < area.x1 || area.y2 < area.y1 || area.x2 > 0xFFF || area.y2 > 0xFFF {
        return None;
    }
    if data.len() <= even as usize || data.len() <= odd as usize {
        return None;
    }
    let width: u32 = (area.x2 - area.x1) as u32 + 1;
    let height: u32 = (area.y2 - area.y1) as u32 + 1;
    assert(width as int * height as int <= 0x1000 * 0x1000) by (nonlinear_arith)
        requires
            width <= 0x1000,
            height <= 0x1000,
    ;
    let mut image = RgbaImage::new(width, height);
    let mut even_stream = NibbleStream::new(&data[even as usize..data.len()]);
    let mut odd_stream = NibbleStream::new(&data[odd as usize..data.len()]);
    let ghost t0 = even_stream.data();
    let ghost t1 = odd_stream.data();
    let ghost target = spec_parse_data(palette@, control@, data@);
    let mut y: u32 = 0;
    while y < height
        invariant
            t0 == even_stream.data(),
            t1 == odd_stream.data(),
            0 <= even_stream.cursor(),
            0 <= odd_stream.cursor(),
            image@.width == width,
            image@.height == height,
            y <= height,
            target == spec_parse_data(palette@, control@, data@),
            target == rows_from(
                t0,
                t1,
                even_stream.cursor(),
                odd_stream.cursor(),
                y as int,
                width as int,
                height as int,
                palette@,
                colors@,
                alphas@,
                image@,
            ),
        decreases height - y,
    {
        let ok = if y % 2 == 0 {
            decode_line(&mut even_stream, &mut image, y, palette, colors, alphas)
        } else {
            decode_line(&mut odd_stream, &mut image, y, palette, colors, alphas)
        };
        if !ok {
            return None;
        }
        y = y + 1;
    }
    Some(image)
}


/// What a VobSub index file gives: the track's 16-color palette.
#[derive(Clone, Copy, Debug)]
pub struct IdxData {
    pub palette: [Rgb; 16],
}

/// The image of a VobSub frame: a 4-byte header whose second half is the offset of the control
/// sequences, which say how to decode the bitmap data.
pub open spec fn spec_parse_frame(pal: Seq<Rgb>, s: Seq<u8>) -> Result<RgbaImageView, SubsError> {
    if s.len() < 4 {
        Err(SubsError::InvalidFrameHeader)
    } else {
        match spec_control(s, u16_at(s, 2)) {
            None => Err(SubsError::InvalidControl),
            Some(control) => match spec_parse_data(pal, control, s) {
                None => Err(SubsError::InvalidFrame),
                Some(img) => Ok(img),
            },
        }
    }
}

/// Decodes a VobSub frame into an image, with the track's palette.
pub fn parse_frame(idx: &IdxData, file_data: &[u8]) -> (r: Result<RgbaImage, SubsError>)
    ensures
        match spec_parse_frame(idx.palette@, file_data@) {
            Ok(img) => r is Ok && r->Ok_0@ == img,
            Err(e) => r is Err && r->Err_0 == e,
        },
{
    if file_data.len() < 4 {
        return Err(SubsError::InvalidFrameHeader);
    }
    let control_offset = be16(file_data[2], file_data[3]);
    let control = match parse_control(file_data, control_offset as usize) {
        Some(c) => c,
        None => {
            return Err(SubsError::InvalidControl);
        },
    };
    match parse_data(&idx.palette, control, file_data) {
        Some(img) => Ok(img),
        None => Err(SubsError::InvalidFrame),
    }
}


/// The value of an ASCII hex digit, either case.
pub open spec fn hex_digit(c: u8) -> Option<u8> {
    if 48 <= c <= 57 {
        Some((c - 48) as u8)
    } else if 97 <= c <= 102 {
        Some((c - 87) as u8)
    } else if 65 <= c <= 70 {
        Some((c - 55) as u8)
    } else {
        None
    }
}

/// The byte that the two hex digits at `i` spell.
pub open spec fn hex_byte_at(s: Seq<u8>, i: int) -> u8 {
    (hex_digit(s[i])->0 * 16 + hex_digit(s[i + 1])->0) as u8
}

/// The color that six hex digits spell, red first; `None` for anything else.
pub open spec fn hex_rgb(s: Seq<u8>) -> Option<Rgb> {
    if s.len() == 6 && forall|i: int| 0 <= i < 6 ==> (#[trigger] hex_digit(s[i])) is Some {
        Some(Rgb { r: hex_byte_at(s, 0), g: hex_byte_at(s, 2), b: hex_byte_at(s, 4) })
    } else {
        None
    }
}

/// Relies on hex::decode_to_slice: it succeeds exactly when the input has two hex digits (of
/// either case) per output byte, and then writes the bytes they spell, in order.
#[verifier::external_body]
fn decode_hex_rgb(digits: &[u8]) -> (r: Option<Rgb>)
    ensures
        r == hex_rgb(digits@),
{
    let mut out = [0u8; 3];
    match hex::decode_to_slice(digits, &mut out) {
        Ok(()) => Some(Rgb { r: out[0], g: out[1], b: out[2] }),
        Err(_) => None,
    }
}

/// Whether `c` is an ASCII whitespace character.
pub open spec fn is_space(c: u8) -> bool {
    c == 32 || (9 <= c <= 13)
}

/// Where the text from `i` on starts once leading whitespace is skipped.
pub open spec fn skip_spaces(s: Seq<u8>, i: int) -> int
    decreases s.len() - i,
{
    if i < 0 || i >= s.len() || !is_space(s[i]) {
        i
    } else {
        skip_spaces(s, i + 1)
    }
}

/// Where the text before `j` ends once trailing whitespace after `i` is dropped.
pub open spec fn drop_spaces(s: Seq<u8>, i: int, j: int) -> int
    decreases j - i,
{
    if j <= i || j > s.len() || !is_space(s[j - 1]) {
        j
    } else {
        drop_spaces(s, i, j - 1)
    }
}

/// The first byte `sep` at or after `i`, or the end of `s`.
pub open spec fn find_byte(s: Seq<u8>, i: int, sep: u8) -> int
    decreases s.len() - i,
{
    if i < 0 || i >= s.len() {
        s.len() as int
    } else if s[i] == sep {
        i
    } else {
        find_byte(s, i + 1, sep)
    }
}

/// The palette after the comma-separated colors from byte `start` on, the one at `start`
/// going to entry `i`: each is six hex digits, with whitespace around them allowed.
pub open spec fn palette_from(s: Seq<u8>, start: int, i: int, pal: Seq<Rgb>) -> Option<Seq<Rgb>>
    decreases s.len() - start,
    via palette_from_decreases
{
    let end = find_byte(s, start, 44);
    let seg = s.subrange(start, end);
    let from = skip_spaces(seg, 0);
    let to = drop_spaces(seg, from, seg.len() as int);
    if i < 0 || i >= 16 || start < 0 || start > s.len() {
        None
    } else {
        match hex_rgb(seg.subrange(from, to)) {
            None => None,
            Some(c) => if end >= s.len() {
                Some(pal.update(i, c))
            } else {
                palette_from(s, end + 1, i + 1, pal.update(i, c))
            },
        }
    }
}

proof fn lemma_find_byte_bounds(s: Seq<u8>, i: int, sep: u8)
    requires
        0 <= i,
    ensures
        i <= find_byte(s, i, sep) || i > s.len(),
        find_byte(s, i, sep) <= s.len(),
        find_byte(s, i, sep) < s.len() ==> s[find_byte(s, i, sep)] == sep,
    decreases s.len() - i,
{
    if i < s.len() && s[i] != sep {
        lemma_find_byte_bounds(s, i + 1, sep);
    }
}

#[via_fn]
proof fn palette_from_decreases(s: Seq<u8>, start: int, i: int, pal: Seq<Rgb>) {
    if start >= 0 {
        lemma_find_byte_bounds(s, start, 44);
    }
}

/// The palette that a list of up to 16 comma-separated colors gives; entries not listed stay
/// black.
pub open spec fn spec_palette(s: Seq<u8>) -> Option<Seq<Rgb>> {
    palette_from(s, 0, 0, Seq::new(16, |i: int| Rgb { r: 0, g: 0, b: 0 }))
}

fn skip_spaces_at(s: &[u8], i: usize) -> (r: usize)
    requires
        i <= s@.len(),
    ensures
        r == skip_spaces(s@, i as int),
        i <= r <= s@.len(),
{
    let mut k = i;
    while k < s.len() && (s[k] == 32 || (9 <= s[k] && s[k] <= 13))
        invariant
            i <= k <= s@.len(),
            skip_spaces(s@, i as int) == skip_spaces(s@, k as int),
        decreases s@.len() - k,
    {
        k = k + 1;
    }
    k
}

fn drop_spaces_at(s: &[u8], i: usize, j: usize) -> (r: usize)
    requires
        i <= j <= s@.len(),
    ensures
        r == drop_spaces(s@, i as int, j as int),
        i <= r <= j,
{
    let mut k = j;
    while k > i && (s[k - 1] == 32 || (9 <= s[k - 1] && s[k - 1] <= 13))
        invariant
            i <= k <= j,
            j <= s@.len(),
            drop_spaces(s@, i as int, j as int) == drop_spaces(s@, i as int, k as int),
        decreases k,
    {
        k = k - 1;
    }
    k
}

fn find_byte_at(s: &[u8], i: usize, sep: u8) -> (r: usize)
    requires
        i <= s@.len(),
    ensures
        r == find_byte(s@, i as int, sep),
        i <= r <= s@.len(),
{
    let mut k = i;
    while k < s.len() && s[k] != sep
        invariant
            i <= k <= s@.len(),
            find_byte(s@, i as int, sep) == find_byte(s@, k as int, sep),
        decreases s@.len() - k,
    {
        k = k + 1;
    }
    k
}

/// Reads a palette of up to 16 comma-separated colors, each six hex digits.
pub fn parse_palette(palette: &[u8]) -> (r: Option<[Rgb; 16]>)
    ensures
        match spec_palette(palette@) {
            Some(p) => r is Some && r->0@ == p,
            None => r is None,
        },
{
    let ghost s = palette@;
    let mut colors = [Rgb { r: 0, g: 0, b: 0 }; 16];
    assert(colors@ =~= Seq::new(16, |i: int| Rgb { r: 0, g: 0, b: 0 }));
    let ghost target = spec_palette(s);
    let mut start: usize = 0;
    let mut i: usize = 0;
    loop
        invariant
            s == palette@,
            start <= s.len(),
            target == spec_palette(s),
            target == palette_from(s, start as int, i as int, colors@),
        decreases s.len() - start,
    {
        if i >= 16 {
            return None;
        }
        let end = find_byte_at(palette, start, 44);
        let seg = &palette[start..end];
        let from = skip_spaces_at(seg, 0);
        let to = drop_spaces_at(seg, from, seg.len());
        let c = match decode_hex_rgb(&seg[from..to]) {
            Some(c) => c,
            None => {
                return None;
            },
        };
        colors[i] = c;
        if end >= palette.len() {
            return Some(colors);
        }
        start = end + 1;
        i = i + 1;
    }
}


/// Where the first ": " of `line` at or after `k` starts, if there is one.
pub open spec fn find_key_sep(line: Seq<u8>, k: int) -> Option<int>
    decreases line.len() - k,
{
    if k < 0 || k + 1 >= line.len() {
        None
    } else if line[k] == 58 && line[k + 1] == 32 {
        Some(k)
    } else {
        find_key_sep(line, k + 1)
    }
}

/// The key of the palette line of an index file.
pub open spec fn palette_key() -> Seq<u8> {
    seq![112u8, 97u8, 108u8, 101u8, 116u8, 116u8, 101u8]
}

/// The palette of an index file, from its lines from byte `start` on: a line whose first
/// non-blank character is `#` is a comment; every other line is a `key: value` pair, and the
/// first whose key is `palette` gives the palette. A line with no `: `, or no palette line at
/// all, is an error.
pub open spec fn idx_from(s: Seq<u8>, start: int) -> Result<Seq<Rgb>, SubsError>
    decreases s.len() + 1 - start,
    via idx_from_decreases
{
    if start < 0 || start > s.len() {
        Err(SubsError::InvalidIdx)
    } else {
        let end = find_byte(s, start, 10);
        let line = s.subrange(start, end);
        let lead = skip_spaces(line, 0);
        if 0 <= lead < line.len() && line[lead] == 35 {
            idx_from(s, end + 1)
        } else {
            match find_key_sep(line, 0) {
                None => Err(SubsError::InvalidIdx),
                Some(k) => if line.subrange(0, k) == palette_key() {
                    match spec_palette(line.subrange(k + 2, line.len() as int)) {
                        Some(p) => Ok(p),
                        None => Err(SubsError::InvalidIdx),
                    }
                } else {
                    idx_from(s, end + 1)
                },
            }
        }
    }
}

#[via_fn]
proof fn idx_from_decreases(s: Seq<u8>, start: int) {
    if start >= 0 {
        lemma_find_byte_bounds(s, start, 10);
    }
}

pub open spec fn spec_parse_idx(s: Seq<u8>) -> Result<Seq<Rgb>, SubsError> {
    idx_from(s, 0)
}

fn find_key_sep_at(line: &[u8]) -> (r: Option<usize>)
    ensures
        match r {
            Some(k) => find_key_sep(line@, 0) == Some(k as int) && k + 1 < line@.len(),
            None => find_key_sep(line@, 0) is None,
        },
{
    let mut k: usize = 0;
    while line.len() > 1 && k < line.len() - 1
        invariant
            find_key_sep(line@, 0) == find_key_sep(line@, k as int),
        decreases line@.len() - k,
    {
        if line[k] == 58 && line[k + 1] == 32 {
            return Some(k);
        }
        k = k + 1;
    }
    None
}

fn is_palette_key(key: &[u8]) -> (r: bool)
    ensures
        r == (key@ == palette_key()),
{
    let ok = key.len() == 7 && key[0] == 112 && key[1] == 97 && key[2] == 108 && key[3] == 101
        && key[4] == 116 && key[5] == 116 && key[6] == 101;
    if ok {
        assert(key@ =~= palette_key());
    } else {
        assert(key@ != palette_key()) by {
            if key@ == palette_key() {
                assert(key@[0] == palette_key()[0]);
                assert(key@[6] == palette_key()[6]);
            }
        }
    }
    ok
}

/// Reads the palette of a VobSub index file.
pub fn parse_idx(data: &[u8]) -> (r: Result<IdxData, SubsError>)
    ensures
        match spec_parse_idx(data@) {
            Ok(p) => r is Ok && r->Ok_0.palette@ == p,
            Err(e) => r is Err && r->Err_0 == e,
        },
{
    let ghost s = data@;
    let ghost target = spec_parse_idx(s);
    let mut start: usize = 0;
    loop
        invariant
            s == data@,
            start <= s.len(),
            target == spec_parse_idx(s),
            target == idx_from(s, start as int),
        decreases s.len() + 1 - start,
    {
        let end = find_byte_at(data, start, 10);
        let line = &data[start..end];
        assert(line@ == s.subrange(start as int, end as int));
        let lead = skip_spaces_at(line, 0);
        if lead < line.len() && line[lead] == 35 {
            assert(idx_from(s, start as int) == idx_from(s, end + 1));
            if end >= data.len() {
                return Err(SubsError::InvalidIdx);
            }
            start = end + 1;
        } else {
            let k = match find_key_sep_at(line) {
                Some(k) => k,
                None => {
                    assert(idx_from(s, start as int) == Err::<Seq<Rgb>, SubsError>(
                        SubsError::InvalidIdx,
                    ));
                    return Err(SubsError::InvalidIdx);
                },
            };
            if is_palette_key(&line[0..k]) {
                return match parse_palette(&line[k + 2..line.len()]) {
                    Some(palette) => Ok(IdxData { palette }),
                    None => Err(SubsError::InvalidIdx),
                };
            }
            assert(idx_from(s, start as int) == idx_from(s, end + 1));
            if end >= data.len() {
                return Err(SubsError::InvalidIdx);
            }
            start = end + 1;
        }
    }
}

} // verus!
