//! A grayscale-plus-alpha bitmap stored row by row.
use vstd::prelude::*;

verus! {

/// One pixel: 8-bit luminance and 8-bit alpha.
#[derive(Clone, Copy, Debug, PartialEq, Eq, Structural)]
pub struct LumaA {
    pub luma: u8,
    pub alpha: u8,
}

/// The fully transparent black pixel that a new image is filled with.
pub open spec fn transparent() -> LumaA {
    LumaA { luma: 0, alpha: 0 }
}

/// What a bitmap holds: its size and its pixels, row after row.
pub struct ImageView {
    pub width: nat,
    pub height: nat,
    pub pixels: Seq<LumaA>,
}

/// Index of the pixel at column `x` and row `y` in a row-major bitmap of the given width.
pub open spec fn pixel_index(width: int, x: int, y: int) -> int {
    y * width + x
}

pub proof fn lemma_pixel_index_in_bounds(width: int, height: int, x: int, y: int)
    requires
        0 <= x < width,
        0 <= y < height,
    ensures
        0 <= y * width <= pixel_index(width, x, y) < width * height,
{
    assert(0 <= y * width <= y * width + x < width * height) by (nonlinear_arith)
        requires
            0 <= x < width,
            0 <= y < height,
    ;
}

/// A grayscale image with an alpha channel.
pub struct GrayAlphaImage {
    width: u32,
    height: u32,
    pixels: Vec<LumaA>,
}

impl View for GrayAlphaImage {
    type V = ImageView;

    closed spec fn view(&self) -> ImageView {
        ImageView { width: self.width as nat, height: self.height as nat, pixels: self.pixels@ }
    }
}

impl GrayAlphaImage {
    #[verifier::type_invariant]
    spec fn inv(self) -> bool {
        &&& self.pixels@.len() == self.width as int * self.height as int
        &&& self.width as int * self.height as int <= usize::MAX
    }

    /// A `width` by `height` image, fully transparent.
    pub fn new(width: u32, height: u32) -> (r: Self)
        requires
            width as int * height as int <= usize::MAX,
        ensures
            r@.width == width,
            r@.height == height,
            r@.pixels == Seq::new((width * height) as nat, |i: int| transparent()),
    {
        let n: usize = (width as usize) * (height as usize);
        let pixels = vec![LumaA { luma: 0, alpha: 0 }; n];
        let r = GrayAlphaImage { width, height, pixels };
        assert(r@.pixels =~= Seq::new((width * height) as nat, |i: int| transparent()));
        r
    }

    /// The image's width.
    pub fn width(&self) -> (r: u32)
        ensures
            r == self@.width,
    {
        self.width
    }

    /// The image's height.
    pub fn height(&self) -> (r: u32)
        ensures
            r == self@.height,
    {
        self.height
    }

    /// The pixel at column `x` of row `y`.
    pub fn get_pixel(&self, x: u32, y: u32) -> (r: LumaA)
        requires
            x < self@.width,
            y < self@.height,
        ensures
            r == self@.pixels[pixel_index(self@.width as int, x as int, y as int)],
    {
        proof {
            use_type_invariant(self);
            lemma_pixel_index_in_bounds(self.width as int, self.height as int, x as int, y as int);
        }
        let i: usize = (y as usize) * (self.width as usize) + (x as usize);
        self.pixels[i]
    }

    /// Sets the pixel at column `x` of row `y`.
    pub fn put_pixel(&mut self, x: u32, y: u32, pixel: LumaA)
        requires
            x < old(self)@.width,
            y < old(self)@.height,
        ensures
            final(self)@.width == old(self)@.width,
            final(self)@.height == old(self)@.height,
            final(self)@.pixels == old(self)@.pixels.update(
                pixel_index(old(self)@.width as int, x as int, y as int),
                pixel,
            ),
    {
        proof {
            use_type_invariant(&*self);
            lemma_pixel_index_in_bounds(self.width as int, self.height as int, x as int, y as int);
        }
        let i: usize = (y as usize) * (self.width as usize) + (x as usize);
        self.pixels[i] = pixel;
    }
}


/// One pixel: 8-bit red, green, blue and alpha.
#[derive(Clone, Copy, Debug, PartialEq, Eq, Structural)]
pub struct Rgba {
    pub r: u8,
    pub g: u8,
    pub b: u8,
    pub a: u8,
}

/// What a color image holds: its size and its pixels, row after row.
pub struct RgbaImageView {
    pub width: nat,
    pub height: nat,
    pub pixels: Seq<Rgba>,
}

/// A color image with an alpha channel.
pub struct RgbaImage {
    width: u32,
    height: u32,
    pixels: Vec<Rgba>,
}

impl View for RgbaImage {
    type V = RgbaImageView;

    closed spec fn view(&self) -> RgbaImageView {
        RgbaImageView { width: self.width as nat, height: self.height as nat, pixels: self.pixels@ }
    }
}

impl RgbaImage {
    #[verifier::type_invariant]
    spec fn inv(self) -> bool {
        &&& self.pixels@.len() == self.width as int * self.height as int
        &&& self.width as int * self.height as int <= usize::MAX
    }

    /// A `width` by `height` image, fully transparent black.
    pub fn new(width: u32, height: u32) -> (r: Self)
        requires
            width as int * height as int <= usize::MAX,
        ensures
            r@.width == width,
            r@.height == height,
            r@.pixels == Seq::new((width * height) as nat, |i: int| Rgba { r: 0, g: 0, b: 0, a: 0 }),
    {
        let n: usize = (width as usize) * (height as usize);
        let pixels = vec![Rgba { r: 0, g: 0, b: 0, a: 0 }; n];
        let r = RgbaImage { width, height, pixels };
        assert(r@.pixels =~= Seq::new((width * height) as nat, |i: int| Rgba { r: 0, g: 0, b: 0, a: 0 }));
        r
    }

    /// The image's width.
    pub fn width(&self) -> (r: u32)
        ensures
            r == self@.width,
    {
        self.width
    }

    /// The image's height.
    pub fn height(&self) -> (r: u32)
        ensures
            r == self@.height,
    {
        self.height
    }

    /// The pixel at column `x` of row `y`.
    pub fn get_pixel(&self, x: u32, y: u32) -> (r: Rgba)
        requires
            x < self@.width,
            y < self@.height,
        ensures
            r == self@.pixels[pixel_index(self@.width as int, x as int, y as int)],
    {
        proof {
            use_type_invariant(self);
            lemma_pixel_index_in_bounds(self.width as int, self.height as int, x as int, y as int);
        }
        let i: usize = (y as usize) * (self.width as usize) + (x as usize);
        self.pixels[i]
    }

    /// Sets the pixel at column `x` of row `y`.
    pub fn put_pixel(&mut self, x: u32, y: u32, pixel: Rgba)
        requires
            x < old(self)@.width,
            y < old(self)@.height,
        ensures
            final(self)@.width == old(self)@.width,
            final(self)@.height == old(self)@.height,
            final(self)@.pixels == old(self)@.pixels.update(
                pixel_index(old(self)@.width as int, x as int, y as int),
                pixel,
            ),
    {
        proof {
            use_type_invariant(&*self);
            lemma_pixel_index_in_bounds(self.width as int, self.height as int, x as int, y as int);
        }
        let i: usize = (y as usize) * (self.width as usize) + (x as usize);
        self.pixels[i] = pixel;
    }
}


/// Distinct pixels of a row-major bitmap have distinct indices.
pub proof fn lemma_pixel_index_injective(width: int, x1: int, y1: int, x2: int, y2: int)
    requires
        0 <= x1 < width,
        0 <= x2 < width,
        0 <= y1,
        0 <= y2,
        (x1, y1) != (x2, y2),
    ensures
        pixel_index(width, x1, y1) != pixel_index(width, x2, y2),
{
    if y1 < y2 {
        assert(y1 * width + width <= y2 * width) by (nonlinear_arith)
            requires
                y1 < y2,
                0 <= width,
        ;
    } else if y2 < y1 {
        assert(y2 * width + width <= y1 * width) by (nonlinear_arith)
            requires
                y2 < y1,
                0 <= width,
        ;
    }
}

/// Whether the pixel at (`x`, `y`) is not fully transparent.
pub open spec fn opaque_at(img: ImageView, x: int, y: int) -> bool {
    img.pixels[pixel_index(img.width as int, x, y)].alpha > 0
}

/// Whether the image holds a pixel that is not fully transparent.
pub open spec fn has_content(img: ImageView) -> bool {
    exists|x: int, y: int| 0 <= x < img.width && 0 <= y < img.height && #[trigger] opaque_at(img, x, y)
}

/// Whether columns `x1` to `x2` and rows `y1` to `y2` are the smallest rectangle that holds
/// every pixel of the image that is not fully transparent.
pub open spec fn is_content_box(img: ImageView, x1: int, y1: int, x2: int, y2: int) -> bool {
    &&& 0 <= x1 <= x2 < img.width
    &&& 0 <= y1 <= y2 < img.height
    &&& forall|x: int, y: int|
        0 <= x < img.width && 0 <= y < img.height && #[trigger] opaque_at(img, x, y) ==> x1 <= x
            <= x2 && y1 <= y <= y2
    &&& exists|y: int| 0 <= y < img.height && #[trigger] opaque_at(img, x1, y)
    &&& exists|y: int| 0 <= y < img.height && #[trigger] opaque_at(img, x2, y)
    &&& exists|x: int| 0 <= x < img.width && #[trigger] opaque_at(img, x, y1)
    &&& exists|x: int| 0 <= x < img.width && #[trigger] opaque_at(img, x, y2)
}

/// Whether `r` is the part of `img` from column `x1` and row `y1` on, `r`'s size.
pub open spec fn is_part_of(r: ImageView, img: ImageView, x1: int, y1: int) -> bool {
    forall|x: int, y: int|
        0 <= x < r.width && 0 <= y < r.height ==> r.pixels[pixel_index(r.width as int, x, y)]
            == #[trigger] img.pixels[pixel_index(img.width as int, x + x1, y + y1)]
}

/// Whether the pixel at (`x`, `y`) comes before the pixel at (`cx`, `cy`) in raster order.
pub open spec fn scanned_before(x: int, y: int, cx: int, cy: int) -> bool {
    y < cy || (y == cy && x < cx)
}

/// The smallest part of `image` that holds all its pixels that are not fully transparent; an
/// empty image where there are none.
pub fn crop_image(image: &GrayAlphaImage) -> (r: GrayAlphaImage)
    ensures
        !has_content(image@) ==> r@.width == 0 && r@.height == 0,
        has_content(image@) ==> exists|x1: int, y1: int, x2: int, y2: int|
            #[trigger] is_content_box(image@, x1, y1, x2, y2) && r@.width == x2 - x1 + 1
                && r@.height == y2 - y1 + 1 && is_part_of(r@, image@, x1, y1),
{
    proof {
        use_type_invariant(image);
    }
    let ghost img = image@;
    let width = image.width();
    let height = image.height();
    let mut bounds: Option<(u32, u32, u32, u32)> = None;
    let ghost mut wy_left: int = 0;
    let ghost mut wy_right: int = 0;
    let ghost mut wx_bottom: int = 0;
    let ghost mut wx_top: int = 0;
    let mut y: u32 = 0;
    while y < height
        invariant
            img == image@,
            width == img.width,
            height == img.height,
            img.pixels.len() == width * height,
            y <= height,
            match bounds {
                None => forall|px: int, py: int|
                    0 <= px < width && 0 <= py < y ==> !#[trigger] opaque_at(img, px, py),
                Some((x1, y1, x2, y2)) => {
                    &&& x1 <= x2 < width
                    &&& y1 <= y2 < y
                    &&& forall|px: int, py: int|
                        0 <= px < width && 0 <= py < y && #[trigger] opaque_at(img, px, py)
                            ==> x1 <= px <= x2 && y1 <= py <= y2
                    &&& 0 <= wy_left < y && opaque_at(img, x1 as int, wy_left)
                    &&& 0 <= wy_right < y && opaque_at(img, x2 as int, wy_right)
                    &&& 0 <= wx_top < width && opaque_at(img, wx_top, y1 as int)
                    &&& 0 <= wx_bottom < width && opaque_at(img, wx_bottom, y2 as int)
                },
            },
        decreases height - y,
    {
        let mut x: u32 = 0;
        while x < width
            invariant
                img == image@,
                width == img.width,
                height == img.height,
                img.pixels.len() == width * height,
                y < height,
                x <= width,
                match bounds {
                    None => forall|px: int, py: int|
                        0 <= px < width && 0 <= py <= y && scanned_before(px, py, x as int, y as int)
                            ==> !#[trigger] opaque_at(img, px, py),
                    Some((x1, y1, x2, y2)) => {
                        &&& x1 <= x2 < width
                        &&& y1 <= y2 <= y
                        &&& forall|px: int, py: int|
                            0 <= px < width && 0 <= py <= y && scanned_before(px, py, x as int, y as int)
                                && #[trigger] opaque_at(img, px, py) ==> x1 <= px <= x2 && y1 <= py
                                <= y2
                        &&& 0 <= wy_left <= y && opaque_at(img, x1 as int, wy_left)
                        &&& 0 <= wy_right <= y && opaque_at(img, x2 as int, wy_right)
                        &&& 0 <= wx_top < width && opaque_at(img, wx_top, y1 as int)
                        &&& 0 <= wx_bottom < width && opaque_at(img, wx_bottom, y2 as int)
                    },
                },
            decreases width - x,
        {
            let pixel = image.get_pixel(x, y);
            if pixel.alpha > 0 {
                match bounds {
                    Some((x1, y1, x2, y2)) => {
                        let mut nx1 = x1;
                        let mut nx2 = x2;
                        if x1 > x {
                            nx1 = x;
                            proof {
                                wy_left = y as int;
                            }
                        }
                        if x2 < x {
                            nx2 = x;
                            proof {
                                wy_right = y as int;
                            }
                        }
                        if y2 < y {
                            proof {
                                wx_bottom = x as int;
                            }
                        }
                        bounds = Some((nx1, y1, nx2, y));
                    },
                    None => {
                        bounds = Some((x, y, x, y));
                        proof {
                            wy_left = y as int;
                            wy_right = y as int;
                            wx_top = x as int;
                            wx_bottom = x as int;
                        }
                    },
                }
            }
            x = x + 1;
        }
        y = y + 1;
    }
    match bounds {
        None => {
            assert(!has_content(img));
            GrayAlphaImage::new(0, 0)
        },
        Some((x1, y1, x2, y2)) => {
            assert(is_content_box(img, x1 as int, y1 as int, x2 as int, y2 as int));
            let nw: u32 = x2 + 1 - x1;
            let nh: u32 = y2 + 1 - y1;
            assert(nw as int * nh as int <= width as int * height as int) by (nonlinear_arith)
                requires
                    nw <= width,
                    nh <= height,
            ;
            let mut out = GrayAlphaImage::new(nw, nh);
            let mut ny: u32 = 0;
            while ny < nh
                invariant
                    img == image@,
                    width == img.width,
                    height == img.height,
                    x1 + nw <= width,
                    y1 + nh <= height,
                    out@.width == nw,
                    out@.height == nh,
                    out@.pixels.len() == nw * nh,
                    ny <= nh,
                    forall|px: int, py: int|
                        0 <= px < nw && 0 <= py < ny ==> out@.pixels[pixel_index(nw as int, px, py)]
                            == #[trigger] img.pixels[pixel_index(width as int, px + x1, py + y1)],
                decreases nh - ny,
            {
                let mut nx: u32 = 0;
                while nx < nw
                    invariant
                        img == image@,
                        width == img.width,
                        height == img.height,
                        x1 + nw <= width,
                        y1 + nh <= height,
                        out@.width == nw,
                        out@.height == nh,
                        out@.pixels.len() == nw * nh,
                        ny < nh,
                        nx <= nw,
                        forall|px: int, py: int|
                            0 <= px < nw && 0 <= py <= ny && scanned_before(px, py, nx as int, ny as int)
                                ==> out@.pixels[pixel_index(nw as int, px, py)]
                                == #[trigger] img.pixels[pixel_index(width as int, px + x1, py + y1)],
                    decreases nw - nx,
                {
                    let p = image.get_pixel(x1 + nx, y1 + ny);
                    let ghost before = out@.pixels;
                    out.put_pixel(nx, ny, p);
                    proof {
                        lemma_pixel_index_in_bounds(nw as int, nh as int, nx as int, ny as int);
                        assert forall|px: int, py: int|
                            0 <= px < nw && 0 <= py <= ny && scanned_before(
                                px,
                                py,
                                nx + 1,
                                ny as int,
                            ) implies out@.pixels[pixel_index(nw as int, px, py)]
                            == #[trigger] img.pixels[pixel_index(width as int, px + x1, py + y1)] by {
                            if (px, py) != (nx as int, ny as int) {
                                lemma_pixel_index_injective(nw as int, px, py, nx as int, ny as int);
                                lemma_pixel_index_in_bounds(nw as int, nh as int, px, py);
                            }
                        }
                    }
                    nx = nx + 1;
                }
                ny = ny + 1;
            }
            out
        },
    }
}

} // verus!
