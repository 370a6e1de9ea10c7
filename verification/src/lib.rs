//! QR code and Micro QR code encoder.
//!
//! The crate turns binary data into the module matrix of a QR code symbol:
//! the data is split into segments and packed into a bit stream, the bit
//! stream is protected with Reed-Solomon codewords, and both are placed on a
//! canvas that is then masked. Every function carries a contract that is
//! checked by Verus.

pub mod bits;
pub mod canvas;
pub mod cast;
pub mod charset;
pub mod ec;
pub mod galois;
pub mod mask;
pub mod optimize;
pub mod pattern;
pub mod penalty;
pub mod render;
pub mod types;

pub use crate::types::{Color, EcLevel, QrResult, Version};

use crate::bits::{
    all_too_long, bytes_of, encode_auto, encoding_in, is_smallest_fit, lemma_segments_bits_len,
    no_fit, segments_bits, terminated, Bits,
};
use crate::canvas::{
    is_best_mask, lemma_width, masked_modules, with_data, with_function_patterns, Canvas, Module,
};
use crate::ec::{
    construct_codewords, data_bits, data_blocks, ec_blocks, has_half_codeword, interleaved,
    lemma_limit_is_largest, lemma_micro_layout, spec_block_layout, spec_data_bits,
};
use crate::mask::candidate_patterns;
use crate::optimize::{
    chosen_segments, is_optimal, is_segmentation, lemma_segments_in_range,
    lemma_total_len_lower_bound, optimize, total_len, Segment,
};
use crate::pattern::spec_is_functional;
use crate::penalty::lemma_cell_index;
use crate::render::{BlankAndWhitePixel, Renderer, RendererView};
use crate::types::QrError;
use vstd::prelude::*;

verus! {

//------------------------------------------------------------------------------
// What a symbol is
/// The modules of the symbol of a bit stream before a mask pattern is
/// applied: the function patterns, and on the other coordinates the data
/// codewords of the bit stream and their error correction codewords, block
/// by block interleaved.
pub open spec fn symbol_modules(version: Version, ec_level: EcLevel, bits: Seq<bool>) -> Seq<
    Module,
> {
    let w = version.spec_width();
    let layout = spec_block_layout(version, ec_level)->Ok_0;
    with_data(
        version,
        has_half_codeword(version),
        interleaved(data_blocks(bytes_of(bits), layout)),
        interleaved(ec_blocks(bytes_of(bits), layout)),
        with_function_patterns(version, Seq::new((w * w) as nat, |k: int| Module::Empty)),
    )
}

/// The colours are those of the symbol of a bit stream: its modules under
/// the mask pattern that gives them the least penalty, the first of these
/// where several do.
pub open spec fn is_symbol(
    colors: Seq<Color>,
    version: Version,
    ec_level: EcLevel,
    bits: Seq<bool>,
) -> bool {
    exists|i: int|
        is_best_mask(version, ec_level, symbol_modules(version, ec_level, bits), i) && colors
            == (#[trigger] masked_modules(
            version,
            ec_level,
            candidate_patterns(version)[i],
            symbol_modules(version, ec_level, bits),
        )).map_values(|m: Module| m.color())
}

/// The text of the first `n` modules of row `y` of a symbol of width `w`.
pub open spec fn debug_row(colors: Seq<Color>, w: int, y: int, n: int, on: char, off: char) -> Seq<
    char,
>
    decreases n,
{
    if n <= 0 {
        Seq::empty()
    } else {
        debug_row(colors, w, y, n - 1, on, off).push(
            if colors[y * w + n - 1] == Color::Dark {
                on
            } else {
                off
            },
        )
    }
}

/// The text of the first `n` rows of a symbol of width `w`: a character for
/// every module, and a line feed between two rows.
pub open spec fn debug_text(colors: Seq<Color>, w: int, n: int, on: char, off: char) -> Seq<char>
    decreases n,
{
    if n <= 0 {
        Seq::empty()
    } else if n == 1 {
        debug_row(colors, w, 0, w, on, off)
    } else {
        debug_text(colors, w, n - 1, on, off).push('\n') + debug_row(colors, w, n - 1, w, on, off)
    }
}

/// Appends a character to a string.
///
/// This is `String::push` of the standard library, which appends the given
/// character to the end of the string.
#[verifier::external_body]
fn push_char(s: &mut String, c: char)
    ensures
        final(s)@ == old(s)@.push(c),
{
    s.push(c);
}

//------------------------------------------------------------------------------
// QrCode
/// The encoded QR code symbol.
#[derive(Clone)]
pub struct QrCode {
    content: Vec<Color>,
    version: Version,
    ec_level: EcLevel,
    width: usize,
}

impl View for QrCode {
    type V = Seq<Color>;

    /// The colours of the modules, row after row.
    closed spec fn view(&self) -> Seq<Color> {
        self.content@
    }
}

impl QrCode {
    /// The version of the symbol.
    pub closed spec fn spec_version(&self) -> Version {
        self.version
    }

    /// The error correction level of the symbol.
    pub closed spec fn spec_ec_level(&self) -> EcLevel {
        self.ec_level
    }

    /// The number of modules in a row of the symbol.
    pub closed spec fn spec_width(&self) -> int {
        self.width as int
    }

    /// The symbol is well formed: its version exists at its level, its
    /// width and its height are those of the version, and it has a colour
    /// for every coordinate.
    pub open spec fn wf(&self) -> bool {
        &&& spec_block_layout(self.spec_version(), self.spec_ec_level()) is Ok
        &&& self.spec_width() == self.spec_version().spec_width()
        &&& self.spec_width() == self.spec_version().spec_height()
        &&& self@.len() == self.spec_width() * self.spec_width()
    }

    /// The symbol is the one that shows a bit stream in a version at a
    /// level.
    pub open spec fn describes(&self, version: Version, ec_level: EcLevel, bits: Seq<bool>) -> bool {
        &&& self.wf()
        &&& self.spec_version() == version
        &&& self.spec_ec_level() == ec_level
        &&& is_symbol(self@, version, ec_level, bits)
    }

    /// What the constructors make of bits that may be an error: the error,
    /// or the symbol of the bits terminated and padded to the number of data
    /// bits of the version.
    pub open spec fn encodes(
        r: QrResult<QrCode>,
        version: Version,
        ec_level: EcLevel,
        capacity: int,
        bits: Result<Seq<bool>, QrError>,
    ) -> bool {
        match bits {
            Ok(b) => r is Ok && r->Ok_0.describes(
                version,
                ec_level,
                terminated(b, version, capacity),
            ),
            Err(e) => r is Err && r->Err_0 == e,
        }
    }

    /// Constructs a new QR code which automatically encodes the given data.
    ///
    /// This method uses the "medium" error correction level and automatically
    /// chooses the smallest QR code.
    ///
    /// Returns `DataTooLong` if the data does not fit a QR code of version
    /// 40.
    pub fn new(data: &[u8]) -> (r: QrResult<QrCode>)
        ensures
            match r {
                Ok(code) => is_smallest_fit(data@, EcLevel::M, code.spec_version())
                    && code.describes(
                    code.spec_version(),
                    EcLevel::M,
                    encoding_in(data@, EcLevel::M, code.spec_version()),
                ),
                Err(e) => e == QrError::DataTooLong && forall|u: int|
                    1 <= u <= 40 ==> #[trigger] no_fit(data@, Version::Normal(u as i16), EcLevel::M),
            },
    {
        QrCode::with_error_correction_level(data, EcLevel::M)
    }

    /// Constructs a new QR code which automatically encodes the given data at
    /// a specific error correction level.
    ///
    /// This method automatically chooses the smallest QR code.
    ///
    /// Returns `DataTooLong` if the data does not fit a QR code of version
    /// 40 at the level.
    pub fn with_error_correction_level(data: &[u8], ec_level: EcLevel) -> (r: QrResult<QrCode>)
        ensures
            match r {
                Ok(code) => is_smallest_fit(data@, ec_level, code.spec_version())
                    && code.describes(
                    code.spec_version(),
                    ec_level,
                    encoding_in(data@, ec_level, code.spec_version()),
                ),
                Err(e) => e == QrError::DataTooLong && forall|u: int|
                    1 <= u <= 40 ==> #[trigger] no_fit(data@, Version::Normal(u as i16), ec_level),
            },
    {
        let bits = match encode_auto(data, ec_level) {
            Ok(bits) => bits,
            Err(e) => {
                return Err(e);
            },
        };
        let ghost stream = bits@;
        let ghost version = bits.spec_version();
        proof {
            let capacity = spec_data_bits(version, ec_level)->Ok_0;
            assert(stream.len() == capacity);
            assert(terminated(stream, version, capacity) =~= stream);
        }
        QrCode::with_bits(bits, ec_level)
    }

    /// Constructs a new QR code for the given version and error correction
    /// level.
    ///
    /// This method can also be used to generate Micro QR code.
    ///
    /// Returns `InvalidVersion` if the version does not exist at the level.
    /// Returns `DataTooLong` if no way to cut the data into segments fits the
    /// symbol. Otherwise the data is cut into the segments that are chosen
    /// for it, which take the fewest bits; where these have no bits in the
    /// version, the result is their error, and else the symbol that shows
    /// them.
    pub fn with_version(data: &[u8], version: Version, ec_level: EcLevel) -> (r: QrResult<QrCode>)
        ensures
            match spec_data_bits(version, ec_level) {
                Ok(capacity) => if all_too_long(data@, version, capacity) {
                    r is Err && r->Err_0 == QrError::DataTooLong
                } else {
                    &&& is_optimal(
                        data@,
                        chosen_segments(data@, version, data@.len() as int),
                        version,
                    )
                    &&& QrCode::encodes(
                        r,
                        version,
                        ec_level,
                        capacity,
                        segments_bits(
                            version,
                            data@,
                            chosen_segments(data@, version, data@.len() as int),
                        ),
                    )
                },
                Err(_) => r is Err && r->Err_0 == QrError::InvalidVersion,
            },
    {
        let capacity = match data_bits(version, ec_level) {
            Ok(c) => c,
            Err(_) => {
                return Err(QrError::InvalidVersion);
            },
        };
        let ghost n = data@.len() as int;
        if data.len() > capacity / 3 {
            proof {
                assert forall|s: Seq<Segment>| #[trigger]
                    is_segmentation(data@, s, n) implies total_len(s, version) > capacity by {
                    lemma_total_len_lower_bound(data@, s, n, version);
                }
            }
            return Err(QrError::DataTooLong);
        }
        let (segs, total) = optimize(data, version);
        if total > capacity as u128 {
            return Err(QrError::DataTooLong);
        }
        proof {
            lemma_segments_in_range(data@, segs@, n);
            lemma_limit_is_largest(version, ec_level);
            if segments_bits(version, data@, segs@) is Ok {
                lemma_segments_bits_len(version, data@, segs@);
            }
        }
        let mut bits = Bits::new(version);
        match bits.push_segments(data, segs.as_slice()) {
            Ok(()) => {},
            Err(e) => {
                proof {
                    assert(QrCode::encodes(
                        Err(e),
                        version,
                        ec_level,
                        capacity as int,
                        segments_bits(version, data@, segs@),
                    ));
                }
                return Err(e);
            },
        }
        let r = QrCode::with_bits(bits, ec_level);
        proof {
            assert(QrCode::encodes(
                r,
                version,
                ec_level,
                capacity as int,
                segments_bits(version, data@, segs@),
            ));
        }
        r
    }

    /// Constructs a new QR code with encoded bits.
    ///
    /// Use this method only if there are very special need to manipulate the
    /// raw bits before encoding. Some examples are:
    ///
    /// * Encode data using specific character set with ECI
    /// * Use the FNC1 modes
    /// * Avoid the optimal segmentation algorithm
    ///
    /// The bits are terminated and padded here where that has not been done.
    ///
    /// Returns `InvalidVersion` if the version of the bits does not exist at
    /// the level, and `DataTooLong` if the symbol does not hold the bits.
    pub fn with_bits(bits: Bits, ec_level: EcLevel) -> (r: QrResult<QrCode>)
        ensures
            match spec_data_bits(bits.spec_version(), ec_level) {
                Ok(capacity) => if bits@.len() > capacity {
                    r is Err && r->Err_0 == QrError::DataTooLong
                } else {
                    r is Ok && r->Ok_0.describes(
                        bits.spec_version(),
                        ec_level,
                        terminated(bits@, bits.spec_version(), capacity),
                    )
                },
                Err(e) => r is Err && r->Err_0 == e,
            },
    {
        let ghost given = bits@;
        let mut bits = bits;
        match bits.push_terminator(ec_level) {
            Ok(()) => {},
            Err(e) => {
                return Err(e);
            },
        }
        let version = bits.version();
        let ghost stream = bits@;
        let ghost layout = spec_block_layout(version, ec_level)->Ok_0;
        proof {
            lemma_width(version);
            if version is Micro {
                lemma_micro_layout(version, ec_level);
            }
            assert(bytes_of(stream).len() == layout.data_len());
        }
        let data = bits.into_bytes();
        let (encoded_data, ec_data) = match construct_codewords(data.as_slice(), version, ec_level) {
            Ok(codewords) => codewords,
            Err(e) => {
                return Err(e);
            },
        };
        let mut canvas = Canvas::new(version, ec_level);
        proof {
            let w = version.spec_width();
            assert(canvas@ =~= Seq::new((w * w) as nat, |k: int| Module::Empty));
        }
        canvas.draw_all_functional_patterns();
        canvas.draw_data(encoded_data.as_slice(), ec_data.as_slice());
        proof {
            assert(canvas@ == symbol_modules(version, ec_level, stream));
        }
        let canvas = canvas.apply_best_mask();
        let width = version.width() as usize;
        let content = canvas.into_colors();
        let code = QrCode { content, version, ec_level, width };
        proof {
            assert(is_symbol(code@, version, ec_level, stream));
        }
        Ok(code)
    }

    /// Gets the version of this QR code.
    pub fn version(&self) -> (r: Version)
        ensures
            r == self.spec_version(),
    {
        self.version
    }

    /// Gets the error correction level of this QR code.
    pub fn error_correction_level(&self) -> (r: EcLevel)
        ensures
            r == self.spec_ec_level(),
    {
        self.ec_level
    }

    /// Gets the number of modules per side, i.e. the width of this QR code.
    ///
    /// The width here does not contain the quiet zone paddings.
    pub fn width(&self) -> (r: usize)
        ensures
            r == self.spec_width(),
    {
        self.width
    }

    /// Gets the maximum number of allowed erratic modules can be introduced
    /// before the data becomes corrupted. Note that errors should not be
    /// introduced to functional modules.
    pub fn max_allowed_errors(&self) -> (r: usize)
        requires
            self.wf(),
        ensures
            r == spec_block_layout(self.spec_version(), self.spec_ec_level())->Ok_0.ec_len / 2,
    {
        match crate::ec::max_allowed_errors(self.version, self.ec_level) {
            Ok(n) => n,
            Err(_) => 0,
        }
    }

    /// Checks whether a module at coordinate (x, y) is a functional module or
    /// not.
    ///
    /// The coordinate must lie in the symbol.
    pub fn is_functional(&self, x: usize, y: usize) -> (r: bool)
        requires
            self.wf(),
            x < self.spec_width(),
            y < self.spec_width(),
        ensures
            r == spec_is_functional(self.spec_version(), x as int, y as int),
    {
        proof {
            lemma_width(self.version);
        }
        crate::pattern::is_functional(self.version, self.version.width(), x as i16, y as i16)
    }

    /// Gets the colour of the module at a coordinate of the symbol.
    pub fn get(&self, x: usize, y: usize) -> (r: Color)
        requires
            self.wf(),
            x < self.spec_width(),
            y < self.spec_width(),
        ensures
            r == self@[y * self.spec_width() + x],
    {
        proof {
            lemma_width(self.version);
            lemma_cell_index(self.width as int, x as int, y as int);
        }
        assert(y * self.width <= 177 * 177) by (nonlinear_arith)
            requires
                y < self.width,
                self.width <= 177,
        ;
        self.content[y * self.width + x]
    }

    /// Converts the QR code into a human-readable string. This is mainly for
    /// debugging only.
    pub fn to_debug_str(&self, on_char: char, off_char: char) -> (r: String)
        requires
            self.wf(),
        ensures
            r@ == debug_text(self@, self.spec_width(), self.spec_width(), on_char, off_char),
    {
        proof {
            lemma_width(self.version);
        }
        let w = self.width;
        let mut out = String::new();
        let mut y: usize = 0;
        while y < w
            invariant
                y <= w,
                self.wf(),
                w == self.spec_width(),
                11 <= w <= 177,
                out@ == debug_text(self@, w as int, y as int, on_char, off_char),
            decreases w - y,
        {
            if y > 0 {
                push_char(&mut out, '\n');
            }
            let ghost before = out@;
            let mut x: usize = 0;
            while x < w
                invariant
                    x <= w,
                    y < w,
                    self.wf(),
                    w == self.spec_width(),
                    11 <= w <= 177,
                    out@ =~= before + debug_row(
                        self@,
                        w as int,
                        y as int,
                        x as int,
                        on_char,
                        off_char,
                    ),
                decreases w - x,
            {
                let c = match self.get(x, y) {
                    Color::Dark => on_char,
                    Color::Light => off_char,
                };
                push_char(&mut out, c);
                x += 1;
            }
            y += 1;
        }
        out
    }

    /// Converts the QR code to a vector of booleans. Each entry represents the
    /// color of the module, with "true" means dark and "false" means light.
    pub fn to_vec(&self) -> (r: Vec<bool>)
        ensures
            r@ == self@.map_values(|c: Color| c == Color::Dark),
    {
        let mut out: Vec<bool> = Vec::new();
        let mut k: usize = 0;
        while k < self.content.len()
            invariant
                k <= self.content.len(),
                out@ =~= self.content@.take(k as int).map_values(|c: Color| c == Color::Dark),
            decreases self.content.len() - k,
        {
            out.push(
                match self.content[k] {
                    Color::Dark => true,
                    Color::Light => false,
                },
            );
            k += 1;
        }
        assert(self.content@.take(self.content.len() as int) =~= self.content@);
        out
    }

    /// Converts the QR code to a vector of booleans. Each entry represents the
    /// color of the module, with "true" means dark and "false" means light.
    pub fn into_vec(self) -> (r: Vec<bool>)
        ensures
            r@ == self@.map_values(|c: Color| c == Color::Dark),
    {
        self.to_vec()
    }

    /// Converts the QR code to a vector of colors.
    pub fn to_colors(&self) -> (r: Vec<Color>)
        ensures
            r@ == self@,
    {
        let mut out: Vec<Color> = Vec::new();
        let mut k: usize = 0;
        while k < self.content.len()
            invariant
                k <= self.content.len(),
                out@ =~= self.content@.take(k as int),
            decreases self.content.len() - k,
        {
            out.push(self.content[k]);
            k += 1;
        }
        assert(self.content@.take(self.content.len() as int) =~= self.content@);
        out
    }

    /// Converts the QR code to a vector of colors.
    pub fn into_colors(self) -> (r: Vec<Color>)
        ensures
            r@ == self@,
    {
        self.content
    }

    /// Renders the QR code into an image. The result is an image builder,
    /// which you may do some additional configuration before copying it into
    /// a concrete image. The quiet zone is two modules wide for a Micro QR
    /// code and four for another symbol.
    pub fn render<P: BlankAndWhitePixel>(&self) -> (r: Renderer<P>)
        requires
            self.wf(),
        ensures
            r.wf(),
            r@ == (RendererView {
                content: self@.map_values(|c: Color| c == Color::Dark),
                modules_count: self.spec_width(),
                quiet_zone: if self.spec_version() is Micro {
                    2int
                } else {
                    4int
                },
                module_width: P::unit_size(),
                module_height: P::unit_size(),
                dark_color: P::black(),
                light_color: P::white(),
                has_quiet_zone: true,
            }),
    {
        proof {
            lemma_width(self.version);
        }
        let quiet_zone = if self.version.is_micro() {
            2
        } else {
            4
        };
        let dark = self.to_vec();
        Renderer::new(dark.as_slice(), self.width, quiet_zone)
    }
}

/// A symbol is as wide and as high as its version is, and it has a module
/// for every coordinate.
pub proof fn lemma_symbol_size(code: &QrCode)
    requires
        code.wf(),
    ensures
        code.spec_width() == code.spec_version().spec_width(),
        code.spec_width() == code.spec_version().spec_height(),
        code@.len() == code.spec_version().spec_width() * code.spec_version().spec_height(),
        11 <= code.spec_width() <= 177,
{
    lemma_width(code.spec_version());
}

impl core::ops::Index<(usize, usize)> for QrCode {
    type Output = Color;

    /// The colour of the module in column `x` and row `y`.
    fn index(&self, index: (usize, usize)) -> (r: &Color)
        ensures
            *r == self@[index.1 * self.spec_width() + index.0],
    {
        proof {
            lemma_width(self.version);
            lemma_cell_index(self.width as int, index.0 as int, index.1 as int);
        }
        assert(index.1 * self.width <= 177 * 177) by (nonlinear_arith)
            requires
                index.1 < self.width,
                self.width <= 177,
        ;
        &self.content[index.1 * self.width + index.0]
    }
}

impl vstd::std_specs::core::IndexSpecImpl<(usize, usize)> for QrCode {
    open spec fn index_req(&self, index: &(usize, usize)) -> bool {
        self.wf() && index.0 < self.spec_width() && index.1 < self.spec_width()
    }
}

} // verus!
