//! The `canvas` module puts raw bits into the QR code canvas.
//!
//! The modules of a canvas stand in a list, row after row: the module at
//! column `x` and row `y` of a canvas of width `w` is number `y * w + x`.

use crate::ec::{has_half_codeword, spec_block_layout};
use crate::mask::{
    candidate_patterns, format_info, format_number, lemma_format_number_exists, patterns_of,
    MaskPattern,
};
use crate::pattern::{
    fixed_module, fixed_module_at, format_info_module, format_info_module_at, in_symbol,
    is_functional, spec_is_functional, timing_line,
};
use crate::penalty::{compute_total_penalty_score, lemma_cell_index, total_penalty};
use crate::types::{Color, EcLevel, Version};
use vstd::prelude::*;

verus! {

//------------------------------------------------------------------------------
// Modules
/// The color of a module (pixel) in the QR code.
#[derive(PartialEq, Eq, Clone, Copy, Debug, Structural)]
pub enum Module {
    /// The module is empty.
    Empty,
    /// The module is of functional patterns which cannot be masked, or pixels
    /// which have been masked.
    Masked(Color),
    /// The module is of data and error correction bits before masking.
    Unmasked(Color),
}

impl Module {
    /// The module is dark. An empty module is not.
    pub open spec fn spec_is_dark(self) -> bool {
        self == Module::Masked(Color::Dark) || self == Module::Unmasked(Color::Dark)
    }

    /// The colour of the module. An empty module is light.
    pub open spec fn color(self) -> Color {
        match self {
            Module::Empty => Color::Light,
            Module::Masked(c) | Module::Unmasked(c) => c,
        }
    }

    /// The module after masking: an empty module turns into a masked one
    /// that is dark where the mask inverts, a data module is inverted where
    /// the mask inverts, and a masked module stays as it is.
    pub open spec fn spec_mask(self, should_invert: bool) -> Module {
        match self {
            Module::Empty => Module::Masked(Color::of_bit(should_invert)),
            Module::Unmasked(c) => Module::Masked(
                if should_invert {
                    c.inverted()
                } else {
                    c
                },
            ),
            Module::Masked(c) => Module::Masked(c),
        }
    }

    /// Checks whether a module is dark.
    pub fn is_dark(self) -> (r: bool)
        ensures
            r == self.spec_is_dark(),
    {
        match self {
            Module::Masked(Color::Dark) | Module::Unmasked(Color::Dark) => true,
            _ => false,
        }
    }

    /// Gives the colour of the module.
    pub fn to_color(self) -> (r: Color)
        ensures
            r == self.color(),
    {
        match self {
            Module::Empty => Color::Light,
            Module::Masked(c) | Module::Unmasked(c) => c,
        }
    }

    /// Apply a mask to the unmasked modules.
    pub fn mask(self, should_invert: bool) -> (r: Module)
        ensures
            r == self.spec_mask(should_invert),
    {
        match (self, should_invert) {
            (Module::Empty, true) => Module::Masked(Color::Dark),
            (Module::Empty, false) => Module::Masked(Color::Light),
            (Module::Unmasked(c), true) => Module::Masked(c.invert()),
            (Module::Unmasked(c), false) | (Module::Masked(c), _) => Module::Masked(c),
        }
    }
}

//------------------------------------------------------------------------------
// What stands on a canvas
/// The module of a function pattern at a coordinate before a mask pattern is
/// chosen: the format information is still all light.
pub open spec fn function_module(version: Version, x: int, y: int) -> Option<Color> {
    if fixed_module(version, x, y).is_some() {
        fixed_module(version, x, y)
    } else {
        format_info_module(version, 0, x, y)
    }
}

/// The modules of a canvas after the function patterns are drawn on it.
pub open spec fn with_function_patterns(version: Version, m: Seq<Module>) -> Seq<Module> {
    let w = version.spec_width();
    Seq::new(
        m.len(),
        |k: int|
            match function_module(version, k % w, k / w) {
                Some(c) => Module::Masked(c),
                None => m[k],
            },
    )
}

/// The column of the module that is `side` steps to the left in column pair
/// `p`. The pairs are counted from the right edge; the column of the vertical
/// timing pattern of a QR code belongs to no pair.
pub open spec fn zigzag_column(version: Version, p: int, side: int) -> int {
    let right = version.spec_width() - 1 - 2 * p;
    (if version is Normal && right <= 6 {
        right - 1
    } else {
        right
    }) - side
}

/// The row of step `r` in column pair `p`: the pairs are walked upwards and
/// downwards in turn, first upwards, two steps to a row.
pub open spec fn zigzag_row(version: Version, p: int, r: int) -> int {
    if p % 2 == 0 {
        version.spec_width() - 1 - r / 2
    } else {
        r / 2
    }
}

/// The coordinate of step `t` of the walk on which the data is placed: from
/// the bottom right corner upwards through two columns, the right one first
/// in each row, then downwards through the next two columns, and so on to the
/// left.
pub open spec fn zigzag(version: Version, t: int) -> (int, int) {
    let steps = 2 * version.spec_width();
    (zigzag_column(version, t / steps, (t % steps) % 2), zigzag_row(version, t / steps, t % steps))
}

/// The step of the walk that comes to a coordinate.
pub open spec fn zigzag_index(version: Version, x: int, y: int) -> int {
    let w = version.spec_width();
    let from_right = w - 1 - (if version is Normal && x < 6 {
        x + 1
    } else {
        x
    });
    let p = from_right / 2;
    let row = if p % 2 == 0 {
        w - 1 - y
    } else {
        y
    };
    p * (2 * w) + 2 * row + from_right % 2
}

/// The number of coordinates without a function pattern among the first `t`
/// steps of the walk.
pub open spec fn rank_upto(version: Version, t: int) -> int
    decreases t,
{
    if t <= 0 {
        0
    } else {
        rank_upto(version, t - 1) + if spec_is_functional(
            version,
            zigzag(version, t - 1).0,
            zigzag(version, t - 1).1,
        ) {
            0int
        } else {
            1int
        }
    }
}

/// Bit `i` of the codewords of a symbol: the bits of the data codewords, the
/// highest bit of each first, then those of the error correction codewords.
/// Where `half`, the last data codeword has its four high bits only. Behind
/// the last codeword there is no bit.
pub open spec fn codeword_bit(data: Seq<u8>, ec: Seq<u8>, half: bool, i: int) -> Option<bool> {
    let data_bits = 8 * data.len() - if half && data.len() > 0 {
        4int
    } else {
        0int
    };
    if 0 <= i < data_bits {
        Some((data[i / 8] >> ((7 - i % 8) as u8)) & 1 == 1)
    } else if data_bits <= i < data_bits + 8 * ec.len() {
        Some((ec[(i - data_bits) / 8] >> ((7 - (i - data_bits) % 8) as u8)) & 1 == 1)
    } else {
        None
    }
}

/// The data module that shows bit `i` of the codewords; it is empty where
/// the codewords have no such bit.
pub open spec fn data_module(data: Seq<u8>, ec: Seq<u8>, half: bool, i: int) -> Module {
    match codeword_bit(data, ec, half, i) {
        Some(b) => Module::Unmasked(Color::of_bit(b)),
        None => Module::Empty,
    }
}

/// The modules of a canvas after the codewords are placed on it: a
/// coordinate without a function pattern shows the bit whose number is the
/// number of such coordinates that the walk passes before it.
pub open spec fn with_data(
    version: Version,
    half: bool,
    data: Seq<u8>,
    ec: Seq<u8>,
    m: Seq<Module>,
) -> Seq<Module> {
    let w = version.spec_width();
    Seq::new(
        m.len(),
        |k: int|
            if spec_is_functional(version, k % w, k / w) {
                m[k]
            } else {
                data_module(
                    data,
                    ec,
                    half,
                    rank_upto(version, zigzag_index(version, k % w, k / w)),
                )
            },
    )
}

/// The modules of a canvas after a mask pattern is applied: the format
/// information tells the level and the pattern, and every other module is
/// masked.
pub open spec fn masked_modules(
    version: Version,
    ec_level: EcLevel,
    pattern: MaskPattern,
    m: Seq<Module>,
) -> Seq<Module> {
    let w = version.spec_width();
    Seq::new(
        m.len(),
        |k: int|
            match format_info_module(
                version,
                format_number(version, ec_level, pattern).unwrap(),
                k % w,
                k / w,
            ) {
                Some(c) => Module::Masked(c),
                None => m[k].spec_mask(pattern.covers(k % w, k / w)),
            },
    )
}

/// Candidate `i` of the mask patterns of the version gives the modules `m`
/// the least penalty, and every candidate before it gives more.
pub open spec fn is_best_mask(version: Version, ec_level: EcLevel, m: Seq<Module>, i: int) -> bool {
    let candidates = candidate_patterns(version);
    &&& 0 <= i < candidates.len()
    &&& forall|j: int|
        0 <= j < candidates.len() ==> total_penalty(
            version,
            masked_modules(version, ec_level, candidates[i], m),
        ) <= total_penalty(version, #[trigger] masked_modules(version, ec_level, candidates[j], m))
    &&& forall|j: int|
        0 <= j < i ==> total_penalty(
            version,
            masked_modules(version, ec_level, candidates[i], m),
        ) < total_penalty(version, #[trigger] masked_modules(version, ec_level, candidates[j], m))
}

/// Only one mask pattern is the best for the modules of a symbol: the rule
/// that the first of several patterns with the least penalty wins leaves no
/// choice.
pub proof fn lemma_best_mask_is_unique(
    version: Version,
    ec_level: EcLevel,
    m: Seq<Module>,
    i: int,
    j: int,
)
    requires
        is_best_mask(version, ec_level, m, i),
        is_best_mask(version, ec_level, m, j),
    ensures
        i == j,
{
    let candidates = candidate_patterns(version);
    if i < j {
        assert(total_penalty(version, masked_modules(version, ec_level, candidates[j], m))
            < total_penalty(version, masked_modules(version, ec_level, candidates[i], m)));
        assert(total_penalty(version, masked_modules(version, ec_level, candidates[i], m))
            <= total_penalty(version, masked_modules(version, ec_level, candidates[j], m)));
    } else if j < i {
        assert(total_penalty(version, masked_modules(version, ec_level, candidates[i], m))
            < total_penalty(version, masked_modules(version, ec_level, candidates[j], m)));
        assert(total_penalty(version, masked_modules(version, ec_level, candidates[j], m))
            <= total_penalty(version, masked_modules(version, ec_level, candidates[i], m)));
    }
}

/// The width of a symbol is odd and lies between 11 and 177.
pub proof fn lemma_width(version: Version)
    requires
        version.is_supported(),
    ensures
        11 <= version.spec_width() <= 177,
        version.spec_width() % 2 == 1,
        version.width_fits(),
{
}

/// After the last module of a row comes the first of the next.
pub proof fn lemma_next_row(w: int, y: int)
    ensures
        y * w + w == (y + 1) * w,
{
    assert(y * w + w == (y + 1) * w) by (nonlinear_arith);
}

/// The column of the vertical timing pattern holds function patterns only.
pub proof fn lemma_timing_column(version: Version, x: int, y: int)
    requires
        version.is_supported(),
        in_symbol(version, x, y),
        x == timing_line(version),
    ensures
        spec_is_functional(version, x, y),
{
}

/// A coordinate beside the column of the vertical timing pattern lies on
/// the walk.
pub proof fn lemma_zigzag_index_in_range(version: Version, x: int, y: int)
    requires
        version.is_supported(),
        in_symbol(version, x, y),
        x != timing_line(version),
    ensures
        0 <= zigzag_index(version, x, y) < (version.spec_width() - 1) / 2 * (2
            * version.spec_width()),
{
    let w = version.spec_width();
    let from_right = w - 1 - (if version is Normal && x < 6 {
        x + 1
    } else {
        x
    });
    let p = from_right / 2;
    let pairs = (w - 1) / 2;
    assert(0 <= p <= pairs - 1);
    assert(0 <= p * (2 * w) && p * (2 * w) + 2 * w <= pairs * (2 * w)) by (nonlinear_arith)
        requires
            0 <= p <= pairs - 1,
            w > 0,
    ;
}

/// Step `r` of column pair `p` is step `p * 2w + r` of the walk.
pub proof fn lemma_zigzag_step(version: Version, p: int, r: int)
    requires
        version.is_supported(),
        0 <= p,
        0 <= r < 2 * version.spec_width(),
    ensures
        zigzag(version, p * (2 * version.spec_width()) + r) == (
            zigzag_column(version, p, r % 2),
            zigzag_row(version, p, r),
        ),
{
    let steps = 2 * version.spec_width();
    vstd::arithmetic::div_mod::lemma_fundamental_div_mod_converse(p * steps + r, steps, p, r);
}

/// The number of coordinates without a function pattern grows by one with a
/// step to such a coordinate, and not at all with another step.
pub proof fn lemma_rank_step(version: Version, t: int, x: int, y: int)
    requires
        0 <= t,
        zigzag(version, t) == (x, y),
    ensures
        rank_upto(version, t + 1) == rank_upto(version, t) + if spec_is_functional(
            version,
            x,
            y,
        ) {
            0int
        } else {
            1int
        },
        0 <= rank_upto(version, t) <= t,
    decreases t,
{
    if t > 0 {
        let prev = zigzag(version, t - 1);
        lemma_rank_step(version, t - 1, prev.0, prev.1);
    }
}

/// Gives the data module that shows a bit of the codewords.
pub fn codeword_module(data: &[u8], ec: &[u8], half: bool, i: usize) -> (r: Module)
    requires
        8 * data.len() + 8 * ec.len() <= usize::MAX,
    ensures
        r == data_module(data@, ec@, half, i as int),
{
    let data_bits: usize = 8 * data.len() - if half && data.len() > 0 {
        4
    } else {
        0
    };
    if i < data_bits {
        let byte = data[i / 8];
        Module::Unmasked(Color::from_bit((byte >> ((7 - i % 8) as u8)) & 1 == 1))
    } else if i - data_bits < 8 * ec.len() {
        let byte = ec[(i - data_bits) / 8];
        Module::Unmasked(Color::from_bit((byte >> ((7 - (i - data_bits) % 8) as u8)) & 1 == 1))
    } else {
        Module::Empty
    }
}

/// Computes the step of the walk that comes to a coordinate without a
/// function pattern.
pub fn step_of(version: Version, x: i16, y: i16) -> (t: usize)
    requires
        version.is_supported(),
        in_symbol(version, x as int, y as int),
        !spec_is_functional(version, x as int, y as int),
    ensures
        t == zigzag_index(version, x as int, y as int),
        t < (version.spec_width() - 1) / 2 * (2 * version.spec_width()),
{
    proof {
        lemma_width(version);
        if x == timing_line(version) {
            lemma_timing_column(version, x as int, y as int);
        }
        lemma_zigzag_index_in_range(version, x as int, y as int);
    }
    let w = version.width();
    let from_right = w - 1 - (if version.is_normal() && x < 6 {
        x + 1
    } else {
        x
    });
    let pair = from_right / 2;
    let row = if pair % 2 == 0 {
        w - 1 - y
    } else {
        y
    };
    let steps = 2 * w;
    assert(0 <= pair * steps <= 177 * 354) by (nonlinear_arith)
        requires
            0 <= pair <= 177,
            0 <= steps <= 354,
    ;
    (pair as usize) * (steps as usize) + 2 * (row as usize) + (from_right % 2) as usize
}

/// Walks the columns of a symbol and notes for every step the data module
/// that the step would show if its coordinate had no function pattern.
pub fn walk(version: Version, data: &[u8], ec: &[u8]) -> (placed: Vec<Module>)
    requires
        version.is_supported(),
        8 * data.len() + 8 * ec.len() <= usize::MAX,
    ensures
        placed.len() == (version.spec_width() - 1) / 2 * (2 * version.spec_width()),
        forall|t: int|
            0 <= t < placed.len() ==> placed@[t] == data_module(
                data@,
                ec@,
                has_half_codeword(version),
                rank_upto(version, t),
            ),
{
    proof {
        lemma_width(version);
    }
    let w = version.width();
    let half = match version {
        Version::Micro(1) | Version::Micro(3) => true,
        _ => false,
    };
    let normal = version.is_normal();
    let pairs = (w - 1) / 2;
    let steps = 2 * w;
    let mut placed: Vec<Module> = Vec::new();
    let mut rank: usize = 0;
    let mut p: i16 = 0;
    while p < pairs
        invariant
            0 <= p <= pairs,
            pairs == (w - 1) / 2,
            steps == 2 * w,
            version.is_supported(),
            normal == (version is Normal),
            w == version.spec_width(),
            11 <= w <= 177,
            half == has_half_codeword(version),
            8 * data.len() + 8 * ec.len() <= usize::MAX,
            placed.len() == p * steps,
            rank == rank_upto(version, placed.len() as int),
            rank <= placed.len(),
            forall|t: int|
                0 <= t < placed.len() ==> placed@[t] == data_module(
                    data@,
                    ec@,
                    half,
                    rank_upto(version, t),
                ),
        decreases pairs - p,
    {
        let right = w - 1 - 2 * p;
        let right = if normal && right <= 6 {
            right - 1
        } else {
            right
        };
        let mut r: i16 = 0;
        while r < steps
            invariant
                0 <= r <= steps,
                0 <= p < pairs,
                pairs == (w - 1) / 2,
                steps == 2 * w,
                version.is_supported(),
                w == version.spec_width(),
                11 <= w <= 177,
                half == has_half_codeword(version),
                8 * data.len() + 8 * ec.len() <= usize::MAX,
                right == zigzag_column(version, p as int, 0),
                1 <= right < w,
                placed.len() == p * steps + r,
                rank == rank_upto(version, placed.len() as int),
                rank <= placed.len(),
                forall|t: int|
                    0 <= t < placed.len() ==> placed@[t] == data_module(
                        data@,
                        ec@,
                        half,
                        rank_upto(version, t),
                    ),
            decreases steps - r,
        {
            let x = right - r % 2;
            let y = if p % 2 == 0 {
                w - 1 - r / 2
            } else {
                r / 2
            };
            proof {
                lemma_zigzag_step(version, p as int, r as int);
                lemma_rank_step(version, placed.len() as int, x as int, y as int);
            }
            let ghost before = placed.len();
            placed.push(codeword_module(data, ec, half, rank));
            if !is_functional(version, w, x, y) {
                assert(rank <= before);
                assert(placed.len() == before + 1);
                rank += 1;
            }
            r += 1;
        }
        proof {
            assert(p * steps + steps == (p + 1) * steps) by (nonlinear_arith);
        }
        p += 1;
    }
    placed
}

/// The walk comes to every coordinate beside the column of the vertical
/// timing pattern.
pub proof fn lemma_zigzag_of_index(version: Version, x: int, y: int)
    requires
        version.is_supported(),
        in_symbol(version, x, y),
        x != timing_line(version),
    ensures
        zigzag(version, zigzag_index(version, x, y)) == (x, y),
{
    let w = version.spec_width();
    let from_right = w - 1 - (if version is Normal && x < 6 {
        x + 1
    } else {
        x
    });
    let p = from_right / 2;
    let row = if p % 2 == 0 {
        w - 1 - y
    } else {
        y
    };
    let r = 2 * row + from_right % 2;
    lemma_zigzag_step(version, p, r);
}

/// Every coordinate of a symbol that holds no function pattern is a step of
/// the walk, so the function patterns and the places of the data together
/// fill the symbol.
pub proof fn lemma_data_coordinates_are_walked(version: Version, x: int, y: int)
    requires
        version.is_supported(),
        in_symbol(version, x, y),
        !spec_is_functional(version, x, y),
    ensures
        0 <= zigzag_index(version, x, y) < (version.spec_width() - 1) / 2 * (2
            * version.spec_width()),
        zigzag(version, zigzag_index(version, x, y)) == (x, y),
{
    if x == timing_line(version) {
        lemma_timing_column(version, x, y);
    } else {
        lemma_zigzag_index_in_range(version, x, y);
        lemma_zigzag_of_index(version, x, y);
    }
}

/// Every step of the walk is a coordinate of the symbol, and no two steps
/// come to the same coordinate.
pub proof fn lemma_walk_is_one_to_one(version: Version, t: int)
    requires
        version.is_supported(),
        0 <= t < (version.spec_width() - 1) / 2 * (2 * version.spec_width()),
    ensures
        in_symbol(version, zigzag(version, t).0, zigzag(version, t).1),
        zigzag_index(version, zigzag(version, t).0, zigzag(version, t).1) == t,
{
    let w = version.spec_width();
    let steps = 2 * w;
    let pairs = (w - 1) / 2;
    let p = t / steps;
    let r = t % steps;
    vstd::arithmetic::div_mod::lemma_fundamental_div_mod(t, steps);
    assert(0 <= p < pairs) by (nonlinear_arith)
        requires
            0 <= t < pairs * steps,
            steps > 0,
            p == t / steps,
    ;
    assert(steps * p == p * steps) by (nonlinear_arith);
}

//------------------------------------------------------------------------------
// Canvas
/// `Canvas` is an intermediate helper structure to render error-corrected
/// data into a QR code.
#[derive(Clone)]
pub struct Canvas {
    /// The width and height of the canvas (cached as it is needed
    /// frequently).
    width: i16,
    /// The version of the QR code.
    version: Version,
    /// The error correction level of the QR code.
    ec_level: EcLevel,
    /// The modules of the QR code. Modules are arranged in left-to-right,
    /// then top-to-bottom order.
    modules: Vec<Module>,
}

impl View for Canvas {
    type V = Seq<Module>;

    /// The modules of the canvas, row after row.
    closed spec fn view(&self) -> Seq<Module> {
        self.modules@
    }
}

impl Canvas {
    /// The version of the symbol.
    pub closed spec fn spec_version(&self) -> Version {
        self.version
    }

    /// The error correction level of the symbol.
    pub closed spec fn spec_ec_level(&self) -> EcLevel {
        self.ec_level
    }

    /// The width that the canvas keeps.
    pub closed spec fn spec_width(&self) -> int {
        self.width as int
    }

    /// The canvas is well formed: its version exists at its level, its width
    /// is that of the version, and it has a module for every coordinate.
    pub open spec fn wf(&self) -> bool {
        &&& spec_block_layout(self.spec_version(), self.spec_ec_level()) is Ok
        &&& self.spec_width() == self.spec_version().spec_width()
        &&& self@.len() == self.spec_width() * self.spec_width()
    }

    /// The module at a coordinate.
    pub open spec fn module_at(&self, x: int, y: int) -> Module {
        self@[y * self.spec_width() + x]
    }

    /// Constructs a new canvas big enough for a QR code of the given version.
    /// All its modules are empty.
    pub fn new(version: Version, ec_level: EcLevel) -> (r: Canvas)
        requires
            spec_block_layout(version, ec_level) is Ok,
        ensures
            r.wf(),
            r.spec_version() == version,
            r.spec_ec_level() == ec_level,
            forall|k: int| 0 <= k < r@.len() ==> r@[k] == Module::Empty,
    {
        proof {
            lemma_width(version);
        }
        let width = version.width();
        let w = width as usize;
        assert(w * w <= 177 * 177) by (nonlinear_arith)
            requires
                w <= 177,
        ;
        let n = w * w;
        let mut modules: Vec<Module> = Vec::new();
        let mut k: usize = 0;
        while k < n
            invariant
                k <= n,
                modules.len() == k,
                forall|t: int| 0 <= t < k ==> modules@[t] == Module::Empty,
            decreases n - k,
        {
            modules.push(Module::Empty);
            k += 1;
        }
        Canvas { width, version, ec_level, modules }
    }

    /// The version of the symbol.
    pub fn version(&self) -> (r: Version)
        ensures
            r == self.spec_version(),
    {
        self.version
    }

    /// The error correction level of the symbol.
    pub fn ec_level(&self) -> (r: EcLevel)
        ensures
            r == self.spec_ec_level(),
    {
        self.ec_level
    }

    /// The width of the canvas.
    pub fn width(&self) -> (r: i16)
        ensures
            r == self.spec_width(),
    {
        self.width
    }

    /// Obtains a module at the given coordinates. For convenience, negative
    /// coordinates will wrap around.
    pub fn get(&self, x: i16, y: i16) -> (r: Module)
        requires
            self.wf(),
            -self.spec_width() <= x < self.spec_width(),
            -self.spec_width() <= y < self.spec_width(),
        ensures
            r == self.module_at(
                if x < 0 {
                    x + self.spec_width()
                } else {
                    x as int
                },
                if y < 0 {
                    y + self.spec_width()
                } else {
                    y as int
                },
            ),
    {
        proof {
            lemma_width(self.version);
        }
        let x = if x < 0 {
            x + self.width
        } else {
            x
        } as usize;
        let y = if y < 0 {
            y + self.width
        } else {
            y
        } as usize;
        let w = self.width as usize;
        proof {
            lemma_cell_index(w as int, x as int, y as int);
        }
        assert(y * w <= 177 * 177) by (nonlinear_arith)
            requires
                y < w,
                w <= 177,
        ;
        self.modules[y * w + x]
    }

    /// Sets the color of a functional module at the given coordinates. For
    /// convenience, negative coordinates will wrap around.
    pub fn put(&mut self, x: i16, y: i16, color: Color)
        requires
            old(self).wf(),
            -old(self).spec_width() <= x < old(self).spec_width(),
            -old(self).spec_width() <= y < old(self).spec_width(),
        ensures
            final(self).wf(),
            final(self).spec_version() == old(self).spec_version(),
            final(self).spec_ec_level() == old(self).spec_ec_level(),
            final(self)@ == old(self)@.update(
                (if y < 0 {
                    y + old(self).spec_width()
                } else {
                    y as int
                }) * old(self).spec_width() + (if x < 0 {
                    x + old(self).spec_width()
                } else {
                    x as int
                }),
                Module::Masked(color),
            ),
    {
        proof {
            lemma_width(self.version);
        }
        let x = if x < 0 {
            x + self.width
        } else {
            x
        } as usize;
        let y = if y < 0 {
            y + self.width
        } else {
            y
        } as usize;
        let w = self.width as usize;
        proof {
            lemma_cell_index(w as int, x as int, y as int);
        }
        assert(y * w <= 177 * 177) by (nonlinear_arith)
            requires
                y < w,
                w <= 177,
        ;
        self.modules[y * w + x] = Module::Masked(color);
    }

    //--------------------------------------------------------------------------
    // Function patterns
    /// Draws every function pattern on the canvas: the finder patterns with
    /// their separators, the timing patterns, the alignment patterns and the
    /// version information, and the format information as if all its bits
    /// were zero. The other modules stay as they are.
    pub fn draw_all_functional_patterns(&mut self)
        requires
            old(self).wf(),
        ensures
            final(self).wf(),
            final(self).spec_version() == old(self).spec_version(),
            final(self).spec_ec_level() == old(self).spec_ec_level(),
            final(self)@ == with_function_patterns(old(self).spec_version(), old(self)@),
    {
        proof {
            lemma_width(self.version);
        }
        let w = self.width;
        let ghost target = with_function_patterns(self.version, self.modules@);
        let mut out: Vec<Module> = Vec::new();
        let mut y: i16 = 0;
        while y < w
            invariant
                0 <= y <= w,
                self.wf(),
                w == self.spec_width(),
                11 <= w <= 177,
                target == with_function_patterns(self.version, self.modules@),
                out.len() == y * w,
                forall|k: int| 0 <= k < out.len() ==> out@[k] == target[k],
            decreases w - y,
        {
            let mut x: i16 = 0;
            while x < w
                invariant
                    0 <= x <= w,
                    0 <= y < w,
                    self.wf(),
                    w == self.spec_width(),
                    11 <= w <= 177,
                    target == with_function_patterns(self.version, self.modules@),
                    out.len() == y * w + x,
                    forall|k: int| 0 <= k < out.len() ==> out@[k] == target[k],
                decreases w - x,
            {
                proof {
                    lemma_cell_index(w as int, x as int, y as int);
                }
                let module = match fixed_module_at(self.version, x, y) {
                    Some(c) => Module::Masked(c),
                    None => match format_info_module_at(self.version, 0, x, y) {
                        Some(c) => Module::Masked(c),
                        None => self.modules[out.len()],
                    },
                };
                out.push(module);
                x += 1;
            }
            proof {
                lemma_next_row(w as int, y as int);
            }
            y += 1;
        }
        assert(out@ =~= target);
        self.modules = out;
    }

    //--------------------------------------------------------------------------
    // Data
    /// Draws the encoded data and error correction codes to the empty
    /// modules: bit after bit on the coordinates without a function pattern,
    /// in the order of the walk. Where the codewords end before the walk
    /// does, the modules left over are empty.
    pub fn draw_data(&mut self, data: &[u8], ec: &[u8])
        requires
            old(self).wf(),
            8 * data.len() + 8 * ec.len() <= usize::MAX,
        ensures
            final(self).wf(),
            final(self).spec_version() == old(self).spec_version(),
            final(self).spec_ec_level() == old(self).spec_ec_level(),
            final(self)@ == with_data(
                old(self).spec_version(),
                has_half_codeword(old(self).spec_version()),
                data@,
                ec@,
                old(self)@,
            ),
    {
        proof {
            lemma_width(self.version);
        }
        let w = self.width;
        let version = self.version;
        let ghost half = has_half_codeword(version);
        // Walk the columns and note the module of every step.
        let placed = walk(version, data, ec);
        // Put the modules where they belong.
        let ghost target = with_data(version, half, data@, ec@, self.modules@);
        let mut out: Vec<Module> = Vec::new();
        let mut y: i16 = 0;
        while y < w
            invariant
                0 <= y <= w,
                self.wf(),
                version == self.version,
                w == self.spec_width(),
                11 <= w <= 177,
                half == has_half_codeword(version),
                placed.len() == (w - 1) / 2 * (2 * w),
                forall|t: int|
                    0 <= t < placed.len() ==> placed@[t] == data_module(
                        data@,
                        ec@,
                        half,
                        rank_upto(version, t),
                    ),
                target == with_data(version, half, data@, ec@, self.modules@),
                out.len() == y * w,
                forall|k: int| 0 <= k < out.len() ==> out@[k] == target[k],
            decreases w - y,
        {
            let mut x: i16 = 0;
            while x < w
                invariant
                    0 <= x <= w,
                    0 <= y < w,
                    self.wf(),
                    version == self.version,
                    w == self.spec_width(),
                    11 <= w <= 177,
                    half == has_half_codeword(version),
                    placed.len() == (w - 1) / 2 * (2 * w),
                    forall|t: int|
                        0 <= t < placed.len() ==> placed@[t] == data_module(
                            data@,
                            ec@,
                            half,
                            rank_upto(version, t),
                        ),
                    target == with_data(version, half, data@, ec@, self.modules@),
                    out.len() == y * w + x,
                    forall|k: int| 0 <= k < out.len() ==> out@[k] == target[k],
                decreases w - x,
            {
                proof {
                    lemma_cell_index(w as int, x as int, y as int);
                }
                let module = if is_functional(version, w, x, y) {
                    self.modules[out.len()]
                } else {
                    placed[step_of(version, x, y)]
                };
                out.push(module);
                x += 1;
            }
            proof {
                lemma_next_row(w as int, y as int);
            }
            y += 1;
        }
        assert(out@ =~= target);
        self.modules = out;
    }

    //--------------------------------------------------------------------------
    // Masking
    /// Computes the modules of the canvas under a mask pattern.
    fn masked(&self, pattern: MaskPattern) -> (out: Vec<Module>)
        requires
            self.wf(),
            format_number(self.spec_version(), self.spec_ec_level(), pattern).is_some(),
        ensures
            out@ == masked_modules(self.spec_version(), self.spec_ec_level(), pattern, self@),
    {
        proof {
            lemma_width(self.version);
        }
        let w = self.width;
        let number = format_info(self.version, self.ec_level, pattern);
        let ghost target = masked_modules(self.version, self.ec_level, pattern, self.modules@);
        let mut out: Vec<Module> = Vec::new();
        let mut y: i16 = 0;
        while y < w
            invariant
                0 <= y <= w,
                self.wf(),
                w == self.spec_width(),
                11 <= w <= 177,
                Some(number) == format_number(self.version, self.ec_level, pattern),
                target == masked_modules(self.version, self.ec_level, pattern, self.modules@),
                out.len() == y * w,
                forall|k: int| 0 <= k < out.len() ==> out@[k] == target[k],
            decreases w - y,
        {
            let mut x: i16 = 0;
            while x < w
                invariant
                    0 <= x <= w,
                    0 <= y < w,
                    self.wf(),
                    w == self.spec_width(),
                    11 <= w <= 177,
                    Some(number) == format_number(self.version, self.ec_level, pattern),
                    target == masked_modules(self.version, self.ec_level, pattern, self.modules@),
                    out.len() == y * w + x,
                    forall|k: int| 0 <= k < out.len() ==> out@[k] == target[k],
                decreases w - x,
            {
                proof {
                    lemma_cell_index(w as int, x as int, y as int);
                }
                let module = match format_info_module_at(self.version, number, x, y) {
                    Some(c) => Module::Masked(c),
                    None => self.modules[out.len()].mask(pattern.inverts(x, y)),
                };
                out.push(module);
                x += 1;
            }
            proof {
                lemma_next_row(w as int, y as int);
            }
            y += 1;
        }
        assert(out@ =~= target);
        out
    }

    /// Applies a mask to the canvas. This method will also draw the format
    /// info patterns.
    pub fn apply_mask(&mut self, pattern: MaskPattern)
        requires
            old(self).wf(),
            format_number(old(self).spec_version(), old(self).spec_ec_level(), pattern).is_some(),
        ensures
            final(self).wf(),
            final(self).spec_version() == old(self).spec_version(),
            final(self).spec_ec_level() == old(self).spec_ec_level(),
            final(self)@ == masked_modules(
                old(self).spec_version(),
                old(self).spec_ec_level(),
                pattern,
                old(self)@,
            ),
    {
        let out = self.masked(pattern);
        self.modules = out;
    }

    /// Computes the penalty score of the canvas.
    pub fn compute_total_penalty_scores(&self) -> (r: u32)
        requires
            self.wf(),
        ensures
            r == total_penalty(self.spec_version(), self@),
    {
        compute_total_penalty_score(self.version, &self.modules)
    }

    /// Construct a new canvas and apply the best masking that gives the
    /// lowest penalty score. Of two mask patterns with the same score the
    /// one that is tried first is kept.
    pub fn apply_best_mask(&self) -> (r: Canvas)
        requires
            self.wf(),
        ensures
            r.wf(),
            r.spec_version() == self.spec_version(),
            r.spec_ec_level() == self.spec_ec_level(),
            exists|i: int|
                is_best_mask(self.spec_version(), self.spec_ec_level(), self@, i) && r@
                    == #[trigger] masked_modules(
                    self.spec_version(),
                    self.spec_ec_level(),
                    candidate_patterns(self.spec_version())[i],
                    self@,
                ),
    {
        let patterns = patterns_of(self.version);
        let ghost candidates = candidate_patterns(self.version);
        proof {
            lemma_format_number_exists(self.version, self.ec_level, 0);
        }
        let mut best = self.masked(patterns[0]);
        let mut best_score = compute_total_penalty_score(self.version, &best);
        let ghost mut chosen: int = 0;
        let mut i: usize = 1;
        while i < patterns.len()
            invariant
                1 <= i <= patterns.len(),
                self.wf(),
                patterns@ == candidates,
                candidates == candidate_patterns(self.version),
                0 <= chosen < i,
                best@ == masked_modules(
                    self.version,
                    self.ec_level,
                    candidates[chosen],
                    self.modules@,
                ),
                best_score == total_penalty(self.version, best@),
                forall|j: int|
                    0 <= j < i ==> best_score <= total_penalty(
                        self.version,
                        #[trigger] masked_modules(
                            self.version,
                            self.ec_level,
                            candidates[j],
                            self.modules@,
                        ),
                    ),
                forall|j: int|
                    0 <= j < chosen ==> best_score < total_penalty(
                        self.version,
                        #[trigger] masked_modules(
                            self.version,
                            self.ec_level,
                            candidates[j],
                            self.modules@,
                        ),
                    ),
            decreases patterns.len() - i,
        {
            proof {
                lemma_format_number_exists(self.version, self.ec_level, i as int);
            }
            let candidate = self.masked(patterns[i]);
            let score = compute_total_penalty_score(self.version, &candidate);
            if score < best_score {
                best = candidate;
                best_score = score;
                proof {
                    chosen = i as int;
                }
            }
            i += 1;
        }
        proof {
            assert(is_best_mask(self.version, self.ec_level, self.modules@, chosen));
        }
        Canvas { width: self.width, version: self.version, ec_level: self.ec_level, modules: best }
    }

    /// Convert the modules into a vector of colors.
    pub fn into_colors(self) -> (r: Vec<Color>)
        ensures
            r@ == self@.map_values(|m: Module| m.color()),
    {
        let mut out: Vec<Color> = Vec::new();
        let mut k: usize = 0;
        while k < self.modules.len()
            invariant
                k <= self.modules.len(),
                out@ =~= self.modules@.take(k as int).map_values(|m: Module| m.color()),
            decreases self.modules.len() - k,
        {
            out.push(self.modules[k].to_color());
            k += 1;
        }
        assert(self.modules@.take(self.modules.len() as int) =~= self.modules@);
        out
    }
}

} // verus!
