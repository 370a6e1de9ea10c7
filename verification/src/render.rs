//! Render a QR code into a grid of pixels or into text.
//!
//! The renderer knows the modules of a symbol as a list of booleans, row
//! after row, `true` for a dark module. Around the symbol it can leave a
//! quiet zone of light modules, and it draws every module as a square of
//! pixels.

pub mod utf8;

use vstd::prelude::*;
use vstd::string::StringExecFns;

verus! {

/// A pixel which can support black and white colors.
pub trait BlankAndWhitePixel: Sized {
    /// The colour of a dark module unless another is chosen.
    spec fn black() -> Self;

    /// The colour of a light module unless another is chosen.
    spec fn white() -> Self;

    /// The width and the height of a module in pixels unless others are
    /// chosen.
    spec fn unit_size() -> int;

    /// Gives the colour of a dark module unless another is chosen.
    fn black_color() -> (r: Self)
        ensures
            r == Self::black(),
    ;

    /// Gives the colour of a light module unless another is chosen.
    fn white_color() -> (r: Self)
        ensures
            r == Self::white(),
    ;

    /// Gives the width and the height of a module in pixels unless others
    /// are chosen.
    fn default_unit_size() -> (r: u32)
        ensures
            r == Self::unit_size(),
    ;
}

/// A grey value: 0 is black and 255 is white.
impl BlankAndWhitePixel for u8 {
    open spec fn black() -> u8 {
        0
    }

    open spec fn white() -> u8 {
        255
    }

    open spec fn unit_size() -> int {
        8
    }

    fn black_color() -> u8 {
        0
    }

    fn white_color() -> u8 {
        255
    }

    fn default_unit_size() -> u32 {
        8
    }
}

/// Red, green and blue.
impl BlankAndWhitePixel for [u8; 3] {
    open spec fn black() -> [u8; 3] {
        [0u8, 0u8, 0u8]
    }

    open spec fn white() -> [u8; 3] {
        [255u8, 255u8, 255u8]
    }

    open spec fn unit_size() -> int {
        8
    }

    fn black_color() -> [u8; 3] {
        [0, 0, 0]
    }

    fn white_color() -> [u8; 3] {
        [255, 255, 255]
    }

    fn default_unit_size() -> u32 {
        8
    }
}

/// Red, green, blue and opacity.
impl BlankAndWhitePixel for [u8; 4] {
    open spec fn black() -> [u8; 4] {
        [0u8, 0u8, 0u8, 255u8]
    }

    open spec fn white() -> [u8; 4] {
        [255u8, 255u8, 255u8, 255u8]
    }

    open spec fn unit_size() -> int {
        8
    }

    fn black_color() -> [u8; 4] {
        [0, 0, 0, 255]
    }

    fn white_color() -> [u8; 4] {
        [255, 255, 255, 255]
    }

    fn default_unit_size() -> u32 {
        8
    }
}

/// A QR code renderer. This is a builder type which converts a bool-vector
/// into an image.
pub struct Renderer<P: BlankAndWhitePixel> {
    content: Vec<bool>,
    modules_count: u32,  // <- we call it `modules_count` here to avoid ambiguity of `width`.
    quiet_zone: u32,
    module_width: u32,
    module_height: u32,
    dark_color: P,
    light_color: P,
    has_quiet_zone: bool,
}

/// What a renderer is made of.
pub struct RendererView<P> {
    /// The modules of the symbol, row after row; `true` is dark.
    pub content: Seq<bool>,
    /// The number of modules in a row of the symbol.
    pub modules_count: int,
    /// The width of the quiet zone in modules.
    pub quiet_zone: int,
    /// The width of a module in pixels.
    pub module_width: int,
    /// The height of a module in pixels.
    pub module_height: int,
    /// The colour of the dark modules.
    pub dark_color: P,
    /// The colour of the light modules.
    pub light_color: P,
    /// Whether the quiet zone is drawn.
    pub has_quiet_zone: bool,
}

impl<P> RendererView<P> {
    /// The width of the quiet zone that is drawn.
    pub open spec fn margin(self) -> int {
        if self.has_quiet_zone {
            self.quiet_zone
        } else {
            0
        }
    }

    /// The number of modules in a row of the picture, the quiet zone
    /// included.
    pub open spec fn width(self) -> int {
        self.modules_count + 2 * self.margin()
    }

    /// The module at a place of the picture is dark: the place lies in the
    /// symbol and the module of the symbol there is dark.
    pub open spec fn is_dark(self, x: int, y: int) -> bool {
        let qz = self.margin();
        let w = self.modules_count;
        qz <= x < w + qz && qz <= y < w + qz && self.content[(y - qz) * w + (x - qz)]
    }

    /// The number of pixels in a row of the picture.
    pub open spec fn real_width(self) -> int {
        self.width() * self.module_width
    }

    /// The number of rows of pixels of the picture.
    pub open spec fn real_height(self) -> int {
        self.width() * self.module_height
    }

    /// The colour of the pixel in column `px` of row `py`: the dark colour
    /// where the module that the pixel belongs to is dark, and the light
    /// colour elsewhere.
    pub open spec fn pixel(self, px: int, py: int) -> P {
        if self.is_dark(px / self.module_width, py / self.module_height) {
            self.dark_color
        } else {
            self.light_color
        }
    }

    /// The pixels of the picture, row after row.
    pub open spec fn pixels(self) -> Seq<P> {
        Seq::new(
            (self.real_width() * self.real_height()) as nat,
            |k: int| self.pixel(k % self.real_width(), k / self.real_width()),
        )
    }

    /// The text of the first `n` modules of row `y`.
    pub open spec fn row_text(self, y: int, n: int, on: Seq<char>, off: Seq<char>) -> Seq<char>
        decreases n,
    {
        if n <= 0 {
            Seq::empty()
        } else {
            self.row_text(y, n - 1, on, off) + if self.is_dark(n - 1, y) {
                on
            } else {
                off
            }
        }
    }

    /// The text of the first `n` rows: every module is written as `on` or
    /// as `off`, and every row ends with a line feed.
    pub open spec fn text(self, n: int, on: Seq<char>, off: Seq<char>) -> Seq<char>
        decreases n,
    {
        if n <= 0 {
            Seq::empty()
        } else {
            self.text(n - 1, on, off) + self.row_text(n - 1, self.width(), on, off) + seq!['\n']
        }
    }
}

impl<P: BlankAndWhitePixel> View for Renderer<P> {
    type V = RendererView<P>;

    /// What the renderer is made of.
    closed spec fn view(&self) -> RendererView<P> {
        RendererView {
            content: self.content@,
            modules_count: self.modules_count as int,
            quiet_zone: self.quiet_zone as int,
            module_width: self.module_width as int,
            module_height: self.module_height as int,
            dark_color: self.dark_color,
            light_color: self.light_color,
            has_quiet_zone: self.has_quiet_zone,
        }
    }
}

impl<P: BlankAndWhitePixel> Renderer<P> {
    /// The renderer has a module for every place of the symbol.
    pub open spec fn wf(&self) -> bool {
        &&& 0 <= self@.modules_count <= u32::MAX
        &&& 0 <= self@.quiet_zone <= u32::MAX
        &&& 0 <= self@.module_width <= u32::MAX
        &&& 0 <= self@.module_height <= u32::MAX
        &&& self@.content.len() == self@.modules_count * self@.modules_count
    }

    /// The picture can be drawn: a module takes at least one pixel each way,
    /// and the width and the height of the picture fit 32 bits.
    pub open spec fn can_draw(&self) -> bool {
        &&& 1 <= self@.module_width
        &&& 1 <= self@.module_height
        &&& self@.real_width() <= u32::MAX
        &&& self@.real_height() <= u32::MAX
    }

    /// Creates a new renderer. The modules are drawn in the size and in the
    /// colours that the kind of pixel has for it, with the quiet zone.
    pub fn new(content: &[bool], modules_count: usize, quiet_zone: u32) -> (r: Renderer<P>)
        requires
            modules_count * modules_count == content.len(),
            modules_count <= u32::MAX,
        ensures
            r.wf(),
            r@ == (RendererView {
                content: content@,
                modules_count: modules_count as int,
                quiet_zone: quiet_zone as int,
                module_width: P::unit_size(),
                module_height: P::unit_size(),
                dark_color: P::black(),
                light_color: P::white(),
                has_quiet_zone: true,
            }),
    {
        let mut copy: Vec<bool> = Vec::new();
        let mut i: usize = 0;
        while i < content.len()
            invariant
                i <= content.len(),
                copy@ =~= content@.take(i as int),
            decreases content.len() - i,
        {
            copy.push(content[i]);
            i += 1;
        }
        assert(content@.take(content.len() as int) =~= content@);
        let size = P::default_unit_size();
        Renderer {
            content: copy,
            modules_count: modules_count as u32,
            quiet_zone,
            module_width: size,
            module_height: size,
            dark_color: P::black_color(),
            light_color: P::white_color(),
            has_quiet_zone: true,
        }
    }

    /// Sets color of a dark module. Default is opaque black.
    pub fn dark_color(&mut self, color: P) -> (r: &mut Self)
        ensures
            r@ == (RendererView { dark_color: color, ..old(self)@ }),
            *final(self) == *final(r),
    {
        self.dark_color = color;
        self
    }

    /// Sets color of a light module. Default is opaque white.
    pub fn light_color(&mut self, color: P) -> (r: &mut Self)
        ensures
            r@ == (RendererView { light_color: color, ..old(self)@ }),
            *final(self) == *final(r),
    {
        self.light_color = color;
        self
    }

    /// Whether to include the quiet zone in the generated image.
    pub fn quiet_zone(&mut self, has_quiet_zone: bool) -> (r: &mut Self)
        ensures
            r@ == (RendererView { has_quiet_zone: has_quiet_zone, ..old(self)@ }),
            *final(self) == *final(r),
    {
        self.has_quiet_zone = has_quiet_zone;
        self
    }

    /// Sets the size of each module in pixels. Default is 8px.
    pub fn module_size(&mut self, size: u32) -> (r: &mut Self)
        ensures
            r@ == (RendererView {
                module_width: size as int,
                module_height: size as int,
                ..old(self)@
            }),
            *final(self) == *final(r),
    {
        self.module_width = size;
        self.module_height = size;
        self
    }

    /// Sets the width and the height of each module in pixels.
    pub fn module_dimensions(&mut self, width: u32, height: u32) -> (r: &mut Self)
        ensures
            r@ == (RendererView {
                module_width: width as int,
                module_height: height as int,
                ..old(self)@
            }),
            *final(self) == *final(r),
    {
        self.module_width = width;
        self.module_height = height;
        self
    }

    /// Sets the minimal total image width (and thus height) in pixels,
    /// including the quiet zone if applicable. The renderer will try to find
    /// the dimension as small as possible, such that each module in the QR
    /// code has uniform size (no distortion).
    ///
    /// For instance, a version 1 QR code has 19 modules across including the
    /// quiet zone. If we request an image of width ≥200px, we get that each
    /// module's size should be 11px, so the actual image size will be 209px.
    pub fn min_width(&mut self, width: u32) -> (r: &mut Self)
        requires
            1 <= old(self)@.width() <= u32::MAX,
        ensures
            r@ == (RendererView {
                module_width: (width + old(self)@.width() - 1) / old(self)@.width(),
                module_height: (width + old(self)@.width() - 1) / old(self)@.width(),
                ..old(self)@
            }),
            *final(self) == *final(r),
    {
        let quiet_zone: u64 = if self.has_quiet_zone {
            2 * (self.quiet_zone as u64)
        } else {
            0
        };
        let width_in_modules: u64 = self.modules_count as u64 + quiet_zone;
        let module_size = (width as u64 + width_in_modules - 1) / width_in_modules;
        assert(module_size <= width) by (nonlinear_arith)
            requires
                module_size == (width + width_in_modules - 1) / (width_in_modules as int),
                width_in_modules >= 1,
                width >= 0,
        ;
        self.module_size(module_size as u32)
    }

    /// Gives the width and the height of the picture in pixels where a
    /// picture can be drawn, and nothing where it cannot.
    pub fn dimensions(&self) -> (r: Option<(u32, u32)>)
        requires
            self.wf(),
        ensures
            self.can_draw() ==> r == Some((self@.real_width() as u32, self@.real_height() as u32)),
            !self.can_draw() ==> r.is_none(),
    {
        if self.module_width == 0 || self.module_height == 0 {
            return None;
        }
        let qz: u64 = if self.has_quiet_zone {
            self.quiet_zone as u64
        } else {
            0
        };
        let width: u64 = self.modules_count as u64 + 2 * qz;
        assert(width * self.module_width <= 0x3_0000_0000 * 0x1_0000_0000) by (nonlinear_arith)
            requires
                0 <= width <= 0x3_0000_0000,
                0 <= self.module_width <= 0x1_0000_0000,
        ;
        assert(width * self.module_height <= 0x3_0000_0000 * 0x1_0000_0000) by (nonlinear_arith)
            requires
                0 <= width <= 0x3_0000_0000,
                0 <= self.module_height <= 0x1_0000_0000,
        ;
        let real_width = width as u128 * self.module_width as u128;
        let real_height = width as u128 * self.module_height as u128;
        if real_width > u32::MAX as u128 || real_height > u32::MAX as u128 {
            None
        } else {
            Some((real_width as u32, real_height as u32))
        }
    }

    /// Tells whether the module at a place of the picture is dark.
    pub fn module_is_dark(&self, x: u32, y: u32) -> (r: bool)
        requires
            self.wf(),
            x < self@.width(),
            y < self@.width(),
        ensures
            r == self@.is_dark(x as int, y as int),
    {
        let qz = if self.has_quiet_zone {
            self.quiet_zone
        } else {
            0
        };
        let w = self.modules_count;
        if qz <= x && x - qz < w && qz <= y && y - qz < w {
            let col = (x - qz) as usize;
            let row = (y - qz) as usize;
            let n = w as usize;
            assert(0 <= row * n <= row * n + col < n * n) by (nonlinear_arith)
                requires
                    0 <= col < n,
                    0 <= row < n,
            ;
            assert(n * n == self.content.len());
            self.content[row * n + col]
        } else {
            false
        }
    }

    /// Renders the QR code into String: `on_str` for a dark module and
    /// `off_str` for a light one, a line feed at the end of every row.
    pub fn to_string(&self, on_str: &str, off_str: &str) -> (r: String)
        requires
            self.wf(),
            self@.width() <= u32::MAX,
        ensures
            r@ == self@.text(self@.width(), on_str@, off_str@),
    {
        let w = self.modules_count;
        let qz = if self.has_quiet_zone {
            self.quiet_zone
        } else {
            0
        };
        let width = w + 2 * qz;
        let mut str = String::new();
        let mut y: u32 = 0;
        while y < width
            invariant
                y <= width,
                self.wf(),
                width == self@.width(),
                str@ == self@.text(y as int, on_str@, off_str@),
            decreases width - y,
        {
            let ghost before = str@;
            let mut x: u32 = 0;
            while x < width
                invariant
                    x <= width,
                    y < width,
                    self.wf(),
                    width == self@.width(),
                    str@ == before + self@.row_text(y as int, x as int, on_str@, off_str@),
                decreases width - x,
            {
                let ghost row = self@.row_text(y as int, x as int, on_str@, off_str@);
                if self.module_is_dark(x, y) {
                    str.append(on_str);
                    assert(str@ =~= before + (row + on_str@));
                } else {
                    str.append(off_str);
                    assert(str@ =~= before + (row + off_str@));
                }
                x += 1;
            }
            proof {
                reveal_strlit("\n");
                assert("\n"@ =~= seq!['\n']);
            }
            str.append("\n");
            assert(str@ =~= self@.text(y + 1, on_str@, off_str@));
            y += 1;
        }
        str
    }
}

impl<P: BlankAndWhitePixel + Copy> Renderer<P> {
    /// Gives the colour of a pixel of the picture.
    pub fn pixel_at(&self, px: u32, py: u32) -> (r: P)
        requires
            self.wf(),
            self.can_draw(),
            px < self@.real_width(),
            py < self@.real_height(),
        ensures
            r == self@.pixel(px as int, py as int),
    {
        proof {
            lemma_module_of_pixel(px as int, self@.module_width, self@.width());
            lemma_module_of_pixel(py as int, self@.module_height, self@.width());
        }
        if self.module_is_dark(px / self.module_width, py / self.module_height) {
            self.dark_color
        } else {
            self.light_color
        }
    }

    /// Renders the QR code into the pixels of an image, row after row.
    pub fn to_pixels(&self) -> (r: Vec<P>)
        requires
            self.wf(),
            self.can_draw(),
        ensures
            r@ == self@.pixels(),
    {
        let (real_width, real_height) = match self.dimensions() {
            Some(d) => d,
            None => (0, 0),
        };
        let ghost target = self@.pixels();
        proof {
            assert(0 <= real_width * real_height) by (nonlinear_arith)
                requires
                    0 <= real_width,
                    0 <= real_height,
            ;
        }
        let mut out: Vec<P> = Vec::new();
        let mut py: u32 = 0;
        while py < real_height
            invariant
                py <= real_height,
                self.wf(),
                self.can_draw(),
                real_width == self@.real_width(),
                real_height == self@.real_height(),
                target == self@.pixels(),
                out.len() == py * real_width,
                out.len() <= real_width * real_height,
                target.len() == real_width * real_height,
                forall|k: int| 0 <= k < out.len() ==> out@[k] == target[k],
            decreases real_height - py,
        {
            let mut px: u32 = 0;
            while px < real_width
                invariant
                    px <= real_width,
                    py < real_height,
                    self.wf(),
                    self.can_draw(),
                    real_width == self@.real_width(),
                    real_height == self@.real_height(),
                    target == self@.pixels(),
                    out.len() == py * real_width + px,
                    out.len() <= real_width * real_height,
                    target.len() == real_width * real_height,
                    forall|k: int| 0 <= k < out.len() ==> out@[k] == target[k],
                decreases real_width - px,
            {
                proof {
                    lemma_pixel_index(real_width as int, real_height as int, px as int, py as int);
                }
                out.push(self.pixel_at(px, py));
                px += 1;
            }
            proof {
                assert(py * real_width + real_width == (py + 1) * real_width) by (nonlinear_arith);
            }
            py += 1;
        }
        proof {
            assert(real_height * real_width == real_width * real_height) by (nonlinear_arith);
        }
        assert(out@ =~= target);
        out
    }
}

//------------------------------------------------------------------------------
// Images
/// A grey image: an image buffer of the `image` crate whose pixels are one
/// byte each.
#[verifier::external_body]
pub struct GrayImage {
    buffer: image::ImageBuffer<image::Luma<u8>, Vec<u8>>,
}

/// The grey values of the pixels of an image, row after row.
pub uninterp spec fn gray_pixels(image: GrayImage) -> Seq<u8>;

/// The number of pixels in a row of an image.
pub uninterp spec fn gray_width(image: GrayImage) -> int;

/// Creates an image of the given size whose pixels are all zero.
///
/// This is `ImageBuffer::new` of the `image` crate. It panics where the
/// number of pixels is more than a `Vec` can hold.
#[verifier::external_body]
fn new_gray_image(width: u32, height: u32) -> (r: GrayImage)
    requires
        width * height <= isize::MAX,
    ensures
        gray_width(r) == width,
        gray_pixels(r) == Seq::new((width * height) as nat, |i: int| 0u8),
{
    GrayImage { buffer: image::ImageBuffer::new(width, height) }
}

/// Sets the pixel in column `x` of row `y` of an image.
///
/// This is `ImageBuffer::put_pixel` of the `image` crate. It panics where
/// the place is not in the image.
#[verifier::external_body]
fn put_gray_pixel(image: &mut GrayImage, x: u32, y: u32, value: u8)
    requires
        x < gray_width(*old(image)),
        y * gray_width(*old(image)) + x < gray_pixels(*old(image)).len(),
    ensures
        gray_width(*final(image)) == gray_width(*old(image)),
        gray_pixels(*final(image)) == gray_pixels(*old(image)).update(
            y * gray_width(*old(image)) + x,
            value,
        ),
{
    image.buffer.put_pixel(x, y, image::Luma([value]));
}

/// Gives the width and the height of an image.
///
/// This is `ImageBuffer::dimensions` of the `image` crate.
#[verifier::external_body]
fn gray_dimensions(image: &GrayImage) -> (r: (u32, u32))
    ensures
        r.0 == gray_width(*image),
        r.0 * r.1 == gray_pixels(*image).len(),
{
    image.buffer.dimensions()
}

/// Takes the pixels out of an image.
///
/// This is `ImageBuffer::into_raw` of the `image` crate, which returns the
/// underlying buffer.
#[verifier::external_body]
fn gray_into_raw(image: GrayImage) -> (r: Vec<u8>)
    ensures
        r@ == gray_pixels(image),
{
    image.buffer.into_raw()
}

impl GrayImage {
    /// The width and the height of the image.
    pub fn dimensions(&self) -> (r: (u32, u32))
        ensures
            r.0 == gray_width(*self),
            r.0 * r.1 == gray_pixels(*self).len(),
    {
        gray_dimensions(self)
    }

    /// The grey values of the pixels, row after row.
    pub fn into_raw(self) -> (r: Vec<u8>)
        ensures
            r@ == gray_pixels(self),
    {
        gray_into_raw(self)
    }
}

impl Renderer<u8> {
    /// Renders the QR code into an image.
    pub fn to_image(&self) -> (r: GrayImage)
        requires
            self.wf(),
            self.can_draw(),
            self@.real_width() * self@.real_height() <= isize::MAX,
        ensures
            gray_width(r) == self@.real_width(),
            gray_pixels(r) == self@.pixels(),
    {
        let (real_width, real_height) = match self.dimensions() {
            Some(d) => d,
            None => (0, 0),
        };
        let ghost target = self@.pixels();
        let ghost n = real_width * real_height;
        proof {
            assert(0 <= real_width * real_height) by (nonlinear_arith)
                requires
                    0 <= real_width,
                    0 <= real_height,
            ;
        }
        let mut image = new_gray_image(real_width, real_height);
        let mut py: u32 = 0;
        while py < real_height
            invariant
                py <= real_height,
                self.wf(),
                self.can_draw(),
                real_width == self@.real_width(),
                real_height == self@.real_height(),
                target == self@.pixels(),
                n == real_width * real_height,
                gray_width(image) == real_width,
                gray_pixels(image).len() == n,
                forall|k: int| 0 <= k < py * real_width ==> gray_pixels(image)[k] == target[k],
            decreases real_height - py,
        {
            let mut px: u32 = 0;
            while px < real_width
                invariant
                    px <= real_width,
                    py < real_height,
                    self.wf(),
                    self.can_draw(),
                    real_width == self@.real_width(),
                    real_height == self@.real_height(),
                    target == self@.pixels(),
                    n == real_width * real_height,
                    gray_width(image) == real_width,
                    gray_pixels(image).len() == n,
                    forall|k: int|
                        0 <= k < py * real_width + px ==> gray_pixels(image)[k] == target[k],
                decreases real_width - px,
            {
                proof {
                    lemma_pixel_index(real_width as int, real_height as int, px as int, py as int);
                }
                put_gray_pixel(&mut image, px, py, self.pixel_at(px, py));
                px += 1;
            }
            proof {
                assert(py * real_width + real_width == (py + 1) * real_width) by (nonlinear_arith);
            }
            py += 1;
        }
        proof {
            assert(real_height * real_width == real_width * real_height) by (nonlinear_arith);
        }
        assert(gray_pixels(image) =~= target);
        image
    }
}

/// A pixel of a picture has a place in the list of its pixels.
pub proof fn lemma_pixel_index(w: int, h: int, x: int, y: int)
    requires
        0 <= x < w,
        0 <= y < h,
    ensures
        0 <= y * w + x < w * h,
        (y * w + x) % w == x,
        (y * w + x) / w == y,
{
    assert(0 <= y * w + x < w * h) by (nonlinear_arith)
        requires
            0 <= x < w,
            0 <= y < h,
    ;
    vstd::arithmetic::div_mod::lemma_fundamental_div_mod_converse(y * w + x, w, y, x);
}

/// A pixel of a row of `width` modules, each `size` pixels wide, belongs to
/// one of the modules.
pub proof fn lemma_module_of_pixel(p: int, size: int, width: int)
    requires
        size >= 1,
        0 <= p < width * size,
    ensures
        0 <= p / size < width,
{
    assert(0 <= p / size < width) by (nonlinear_arith)
        requires
            size >= 1,
            0 <= p < width * size,
    ;
}

} // verus!
