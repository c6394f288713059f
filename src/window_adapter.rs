//! A rectangular window onto an image, written to pixel by pixel in raster order.
use vstd::prelude::*;
use crate::image::{GrayAlphaImage, ImageView, LumaA, lemma_pixel_index_in_bounds, pixel_index};

verus! {

/// The state of a window: its raster cursor, its placement and size in the image, and the
/// origin of the crop applied to the coordinates written into it.
pub struct WindowView {
    pub x_cursor: u32,
    pub y_cursor: u32,
    pub x: u32,
    pub y: u32,
    pub width: u32,
    pub height: u32,
    pub crop_origin: Option<(u32, u32)>,
}

/// Where a pixel written at window coordinate (`x`, `y`) lands in the image, if the crop and
/// the window's bounds keep it.
pub open spec fn window_target(w: WindowView, x: int, y: int) -> Option<(int, int)> {
    let (lx, ly, kept) = match w.crop_origin {
        Some((cx, cy)) => (x - cx, y - cy, x >= cx && y >= cy),
        None => (x, y, true),
    };
    if kept && lx < w.width && ly < w.height {
        Some((lx + w.x, ly + w.y))
    } else {
        None
    }
}

/// The image after writing `p` at window coordinate (`x`, `y`): only a pixel that lands inside
/// the image and is not fully transparent changes it.
pub open spec fn put_spec(w: WindowView, img: ImageView, x: int, y: int, p: LumaA) -> ImageView {
    match window_target(w, x, y) {
        Some((ax, ay)) => if ax < img.width && ay < img.height && p.alpha != 0 {
            ImageView {
                width: img.width,
                height: img.height,
                pixels: img.pixels.update(pixel_index(img.width as int, ax, ay), p),
            }
        } else {
            img
        },
        None => img,
    }
}

/// A cursor coordinate moved on by one; it stays put at the largest value.
pub open spec fn advance(c: u32) -> u32 {
    if c < u32::MAX {
        (c + 1) as u32
    } else {
        c
    }
}

pub open spec fn push_spec(w: WindowView, img: ImageView, p: LumaA) -> (WindowView, ImageView) {
    (
        WindowView { x_cursor: advance(w.x_cursor), ..w },
        put_spec(w, img, w.x_cursor as int, w.y_cursor as int, p),
    )
}

pub open spec fn end_line_spec(w: WindowView) -> WindowView {
    WindowView { x_cursor: 0, y_cursor: advance(w.y_cursor), ..w }
}

pub struct ImageWindow {
    x_cursor: u32,
    y_cursor: u32,
    x: u32,
    y: u32,
    width: u32,
    height: u32,
    crop_origin: Option<(u32, u32)>,
}

impl View for ImageWindow {
    type V = WindowView;

    closed spec fn view(&self) -> WindowView {
        WindowView {
            x_cursor: self.x_cursor,
            y_cursor: self.y_cursor,
            x: self.x,
            y: self.y,
            width: self.width,
            height: self.height,
            crop_origin: self.crop_origin,
        }
    }
}

impl ImageWindow {
    /// A window that covers the whole of `image`.
    pub fn new(image: &GrayAlphaImage) -> (r: Self)
        ensures
            r@ == (WindowView {
                x_cursor: 0,
                y_cursor: 0,
                x: 0,
                y: 0,
                width: image@.width as u32,
                height: image@.height as u32,
                crop_origin: None,
            }),
    {
        ImageWindow {
            x_cursor: 0,
            y_cursor: 0,
            x: 0,
            y: 0,
            width: image.width(),
            height: image.height(),
            crop_origin: None,
        }
    }

    /// A `width` by `height` window whose top left corner is at (`x`, `y`) in the image.
    pub fn with_window(x: u32, y: u32, width: u32, height: u32) -> (r: Self)
        ensures
            r@ == (WindowView { x_cursor: 0, y_cursor: 0, x, y, width, height, crop_origin: None }),
    {
        ImageWindow { x_cursor: 0, y_cursor: 0, x, y, width, height, crop_origin: None }
    }

    /// Like `with_window`, but the coordinates written are first moved by the crop origin
    /// (`crop_x`, `crop_y`); those above or left of it are dropped.
    pub fn with_window_cropped(
        x: u32,
        y: u32,
        width: u32,
        height: u32,
        crop_x: u32,
        crop_y: u32,
    ) -> (r: Self)
        ensures
            r@ == (WindowView {
                x_cursor: 0,
                y_cursor: 0,
                x,
                y,
                width,
                height,
                crop_origin: Some((crop_x, crop_y)),
            }),
    {
        ImageWindow {
            x_cursor: 0,
            y_cursor: 0,
            x,
            y,
            width,
            height,
            crop_origin: Some((crop_x, crop_y)),
        }
    }

    /// The window's width.
    pub fn get_width(&self) -> (r: u32)
        ensures
            r == self@.width,
    {
        self.width
    }

    /// The window's height.
    pub fn get_height(&self) -> (r: u32)
        ensures
            r == self@.height,
    {
        self.height
    }

    /// Writes `pixel` at window coordinate (`x`, `y`), dropping it where the crop, the window
    /// or the image leave it out, or where it is fully transparent.
    pub fn put_pixel(&self, image: &mut GrayAlphaImage, x: u32, y: u32, pixel: LumaA)
        ensures
            final(image)@ == put_spec(self@, old(image)@, x as int, y as int, pixel),
    {
        let mut x = x;
        let mut y = y;
        match self.crop_origin {
            Some((crop_x, crop_y)) => {
                if x < crop_x || y < crop_y {
                    return;
                }
                x = x - crop_x;
                y = y - crop_y;
            },
            None => {},
        }
        if x >= self.width || y >= self.height {
            return;
        }
        let ax: u64 = x as u64 + self.x as u64;
        let ay: u64 = y as u64 + self.y as u64;
        if ax >= image.width() as u64 || ay >= image.height() as u64 {
            return;
        }
        if pixel.alpha != 0 {
            image.put_pixel(ax as u32, ay as u32, pixel);
        }
    }

    /// Writes `pixel` at the cursor and moves the cursor one column on.
    pub fn push_pixel(&mut self, image: &mut GrayAlphaImage, pixel: LumaA)
        ensures
            (final(self)@, final(image)@) == push_spec(old(self)@, old(image)@, pixel),
    {
        self.put_pixel(image, self.x_cursor, self.y_cursor, pixel);
        if self.x_cursor < u32::MAX {
            self.x_cursor = self.x_cursor + 1;
        }
    }

    /// Moves the cursor to the start of the next row.
    pub fn end_line(&mut self)
        ensures
            final(self)@ == end_line_spec(old(self)@),
    {
        self.x_cursor = 0;
        if self.y_cursor < u32::MAX {
            self.y_cursor = self.y_cursor + 1;
        }
    }
}

/// A write that lands outside the image, or whose pixel is fully transparent, leaves the image
/// as it was; any other write changes the one pixel it lands on and no other.
pub proof fn lemma_put_only_touches_its_target(
    w: WindowView,
    img: ImageView,
    x: int,
    y: int,
    p: LumaA,
)
    requires
        img.pixels.len() == img.width * img.height,
        0 <= x,
        0 <= y,
    ensures
        match window_target(w, x, y) {
            Some((ax, ay)) => {
                &&& (ax >= img.width || ay >= img.height || p.alpha == 0) ==> put_spec(
                    w,
                    img,
                    x,
                    y,
                    p,
                ) == img
                &&& forall|i: int|
                    0 <= i < img.pixels.len() && i != pixel_index(img.width as int, ax, ay)
                        ==> #[trigger] put_spec(
                        w,
                        img,
                        x,
                        y,
                        p,
                    ).pixels[i] == img.pixels[i]
            },
            None => put_spec(w, img, x, y, p) == img,
        },
        p.alpha == 0 ==> put_spec(w, img, x, y, p) == img,
        put_spec(w, img, x, y, p).width == img.width,
        put_spec(w, img, x, y, p).height == img.height,
{
    match window_target(w, x, y) {
        Some((ax, ay)) => {
            if ax < img.width && ay < img.height && p.alpha != 0 {
                lemma_pixel_index_in_bounds(img.width as int, img.height as int, ax, ay);
            }
        },
        None => {},
    }
}

} // verus!
