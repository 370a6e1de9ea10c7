//! The penalty scores by which the mask pattern of a symbol is chosen.
//!
//! The modules of a symbol of width `w` stand in a list, row after row. A
//! line is a row or a column; a position on a line is counted from the left
//! or from the top.

use crate::canvas::Module;
use crate::types::Version;
use vstd::prelude::*;

verus! {

//------------------------------------------------------------------------------
// Modules on lines
/// The module at a coordinate is dark.
pub open spec fn dark_at(m: Seq<Module>, w: int, x: int, y: int) -> bool {
    m[y * w + x].spec_is_dark()
}

/// The module at position `j` of line `i` is dark. The line is row `i` if
/// `horizontal`, else column `i`.
pub open spec fn line_dark(m: Seq<Module>, w: int, horizontal: bool, i: int, j: int) -> bool {
    if horizontal {
        dark_at(m, w, j, i)
    } else {
        dark_at(m, w, i, j)
    }
}

/// A coordinate of a symbol has a place in the list of its modules.
pub proof fn lemma_cell_index(w: int, x: int, y: int)
    requires
        0 <= x < w,
        0 <= y < w,
    ensures
        0 <= y * w + x < w * w,
        (y * w + x) % w == x,
        (y * w + x) / w == y,
{
    assert(0 <= y * w + x < w * w) by (nonlinear_arith)
        requires
            0 <= x < w,
            0 <= y < w,
    ;
    vstd::arithmetic::div_mod::lemma_fundamental_div_mod_converse(y * w + x, w, y, x);
}

/// Tells whether the module at a coordinate is dark.
pub fn is_dark_at(modules: &Vec<Module>, w: usize, x: usize, y: usize) -> (r: bool)
    requires
        w <= 177,
        modules.len() == w * w,
        x < w,
        y < w,
    ensures
        r == dark_at(modules@, w as int, x as int, y as int),
{
    proof {
        lemma_cell_index(w as int, x as int, y as int);
    }
    assert(y * w <= 177 * 177) by (nonlinear_arith)
        requires
            y < w,
            w <= 177,
    ;
    modules[y * w + x].is_dark()
}

/// Tells whether the module at a position of a line is dark.
pub fn is_line_dark(modules: &Vec<Module>, w: usize, horizontal: bool, i: usize, j: usize) -> (r:
    bool)
    requires
        w <= 177,
        modules.len() == w * w,
        i < w,
        j < w,
    ensures
        r == line_dark(modules@, w as int, horizontal, i as int, j as int),
{
    if horizontal {
        is_dark_at(modules, w, j, i)
    } else {
        is_dark_at(modules, w, i, j)
    }
}

//------------------------------------------------------------------------------
// Adjacent modules of one colour
/// The number of modules of one colour in a row that end at position `j` of
/// a line.
pub open spec fn run_len(m: Seq<Module>, w: int, horizontal: bool, i: int, j: int) -> int
    decreases j,
{
    if j <= 0 || line_dark(m, w, horizontal, i, j) != line_dark(m, w, horizontal, i, j - 1) {
        1
    } else {
        run_len(m, w, horizontal, i, j - 1) + 1
    }
}

/// The penalty of `n` modules of one colour in a row: none below five, three
/// for five, and one more for each module more.
pub open spec fn run_score(n: int) -> int {
    if n >= 5 {
        n - 2
    } else {
        0
    }
}

/// The penalties of the runs of one colour that end before position `j` of
/// a line of `w` modules. A run ends where the next module has the other
/// colour, and at the end of the line.
pub open spec fn line_runs(m: Seq<Module>, w: int, horizontal: bool, i: int, j: int) -> int
    decreases j,
{
    if j <= 0 {
        0
    } else {
        line_runs(m, w, horizontal, i, j - 1) + if j == w || line_dark(m, w, horizontal, i, j)
            != line_dark(m, w, horizontal, i, j - 1) {
            run_score(run_len(m, w, horizontal, i, j - 1))
        } else {
            0
        }
    }
}

/// The penalties of the runs of one colour in the first `n` rows, or
/// columns.
pub open spec fn adjacent_penalty(m: Seq<Module>, w: int, horizontal: bool, n: int) -> int
    decreases n,
{
    if n <= 0 {
        0
    } else {
        adjacent_penalty(m, w, horizontal, n - 1) + line_runs(m, w, horizontal, n - 1, w)
    }
}

/// A run that ends at position `j` has at most `j + 1` modules, and the
/// runs before position `j` cost at most 177 each.
pub proof fn lemma_run_bounds(m: Seq<Module>, w: int, horizontal: bool, i: int, j: int)
    requires
        0 <= j <= w <= 177,
    ensures
        1 <= run_len(m, w, horizontal, i, j) <= j + 1,
        0 <= line_runs(m, w, horizontal, i, j) <= 177 * j,
    decreases j,
{
    if j > 0 {
        lemma_run_bounds(m, w, horizontal, i, j - 1);
    }
}

/// Computes the penalty of the runs of at least five modules of one colour
/// in the rows, or in the columns.
pub fn compute_adjacent_penalty_score(modules: &Vec<Module>, w: usize, horizontal: bool) -> (r:
    u32)
    requires
        1 <= w <= 177,
        modules.len() == w * w,
    ensures
        r == adjacent_penalty(modules@, w as int, horizontal, w as int),
        r <= 5545233,
{
    let mut total: u32 = 0;
    let mut i: usize = 0;
    while i < w
        invariant
            i <= w,
            1 <= w <= 177,
            modules.len() == w * w,
            total == adjacent_penalty(modules@, w as int, horizontal, i as int),
            total <= 31329 * i,
        decreases w - i,
    {
        let mut score: u32 = 0;
        let mut run: u32 = 1;
        let mut last = is_line_dark(modules, w, horizontal, i, 0);
        let mut j: usize = 1;
        while j < w
            invariant
                1 <= j <= w,
                1 <= w <= 177,
                i < w,
                modules.len() == w * w,
                last == line_dark(modules@, w as int, horizontal, i as int, j - 1),
                run == run_len(modules@, w as int, horizontal, i as int, j - 1),
                score == line_runs(modules@, w as int, horizontal, i as int, j - 1),
            decreases w - j,
        {
            proof {
                lemma_run_bounds(modules@, w as int, horizontal, i as int, j - 1);
                lemma_run_bounds(modules@, w as int, horizontal, i as int, j as int);
            }
            let dark = is_line_dark(modules, w, horizontal, i, j);
            if dark == last {
                run += 1;
            } else {
                if run >= 5 {
                    score += run - 2;
                }
                run = 1;
                last = dark;
            }
            j += 1;
        }
        proof {
            lemma_run_bounds(modules@, w as int, horizontal, i as int, w - 1);
            lemma_run_bounds(modules@, w as int, horizontal, i as int, w as int);
        }
        if run >= 5 {
            score += run - 2;
        }
        total += score;
        i += 1;
    }
    total
}

//------------------------------------------------------------------------------
// Blocks of one colour
/// The four modules of the block of two by two modules whose top left corner
/// is at the coordinate have one colour.
pub open spec fn is_block(m: Seq<Module>, w: int, x: int, y: int) -> bool {
    dark_at(m, w, x, y) == dark_at(m, w, x + 1, y) && dark_at(m, w, x, y) == dark_at(
        m,
        w,
        x,
        y + 1,
    ) && dark_at(m, w, x, y) == dark_at(m, w, x + 1, y + 1)
}

/// Three for each block of one colour whose top left corner is in row `y`
/// and in one of the first `n` columns.
pub open spec fn blocks_in_row(m: Seq<Module>, w: int, y: int, n: int) -> int
    decreases n,
{
    if n <= 0 {
        0
    } else {
        blocks_in_row(m, w, y, n - 1) + if is_block(m, w, n - 1, y) {
            3int
        } else {
            0int
        }
    }
}

/// Three for each block of two by two modules of one colour whose top left
/// corner is in one of the first `n` rows. Blocks that overlap count each.
pub open spec fn block_penalty(m: Seq<Module>, w: int, n: int) -> int
    decreases n,
{
    if n <= 0 {
        0
    } else {
        block_penalty(m, w, n - 1) + blocks_in_row(m, w, n - 1, w - 1)
    }
}

/// Computes the penalty of the blocks of two by two modules of one colour.
pub fn compute_block_penalty_score(modules: &Vec<Module>, w: usize) -> (r: u32)
    requires
        1 <= w <= 177,
        modules.len() == w * w,
    ensures
        r == block_penalty(modules@, w as int, w - 1),
        r <= 93987,
{
    let mut total: u32 = 0;
    let mut y: usize = 0;
    while y < w - 1
        invariant
            y <= w - 1,
            1 <= w <= 177,
            modules.len() == w * w,
            total == block_penalty(modules@, w as int, y as int),
            total <= 531 * y,
        decreases w - 1 - y,
    {
        let mut score: u32 = 0;
        let mut x: usize = 0;
        while x < w - 1
            invariant
                x <= w - 1,
                y < w - 1,
                1 <= w <= 177,
                modules.len() == w * w,
                score == blocks_in_row(modules@, w as int, y as int, x as int),
                score <= 3 * x,
            decreases w - 1 - x,
        {
            let this = is_dark_at(modules, w, x, y);
            let right = is_dark_at(modules, w, x + 1, y);
            let bottom = is_dark_at(modules, w, x, y + 1);
            let bottom_right = is_dark_at(modules, w, x + 1, y + 1);
            if this == right && this == bottom && this == bottom_right {
                score += 3;
            }
            x += 1;
        }
        total += score;
        y += 1;
    }
    total
}

//------------------------------------------------------------------------------
// Look-alikes of the finder pattern
/// The module at a position of a line is light, or the position is off the
/// line.
pub open spec fn light_or_outside(m: Seq<Module>, w: int, horizontal: bool, i: int, j: int) -> bool {
    j < 0 || j >= w || !line_dark(m, w, horizontal, i, j)
}

/// The four positions from `j` on are light or off the line.
pub open spec fn four_light(m: Seq<Module>, w: int, horizontal: bool, i: int, j: int) -> bool {
    light_or_outside(m, w, horizontal, i, j) && light_or_outside(m, w, horizontal, i, j + 1)
        && light_or_outside(m, w, horizontal, i, j + 2) && light_or_outside(
        m,
        w,
        horizontal,
        i,
        j + 3,
    )
}

/// The seven modules from position `j` on are dark, light, three dark, light
/// and dark, as across the middle of a finder pattern, and four light
/// modules stand before them or behind them.
pub open spec fn is_finder_like(m: Seq<Module>, w: int, horizontal: bool, i: int, j: int) -> bool {
    &&& line_dark(m, w, horizontal, i, j)
    &&& !line_dark(m, w, horizontal, i, j + 1)
    &&& line_dark(m, w, horizontal, i, j + 2)
    &&& line_dark(m, w, horizontal, i, j + 3)
    &&& line_dark(m, w, horizontal, i, j + 4)
    &&& !line_dark(m, w, horizontal, i, j + 5)
    &&& line_dark(m, w, horizontal, i, j + 6)
    &&& (four_light(m, w, horizontal, i, j - 4) || four_light(m, w, horizontal, i, j + 7))
}

/// Forty for each look-alike of the finder pattern that starts at one of the
/// first `n` positions of a line.
pub open spec fn finder_in_line(m: Seq<Module>, w: int, horizontal: bool, i: int, n: int) -> int
    decreases n,
{
    if n <= 0 {
        0
    } else {
        finder_in_line(m, w, horizontal, i, n - 1) + if is_finder_like(
            m,
            w,
            horizontal,
            i,
            n - 1,
        ) {
            40int
        } else {
            0int
        }
    }
}

/// Forty for each look-alike of the finder pattern in the first `n` rows, or
/// columns.
pub open spec fn finder_penalty(m: Seq<Module>, w: int, horizontal: bool, n: int) -> int
    decreases n,
{
    if n <= 0 {
        0
    } else {
        finder_penalty(m, w, horizontal, n - 1) + finder_in_line(m, w, horizontal, n - 1, w - 6)
    }
}

/// Tells whether the four positions from `j` on are light or off the line.
pub fn is_four_light(modules: &Vec<Module>, w: usize, horizontal: bool, i: usize, j: i32) -> (r:
    bool)
    requires
        1 <= w <= 177,
        modules.len() == w * w,
        i < w,
        -4 <= j <= 200,
    ensures
        r == four_light(modules@, w as int, horizontal, i as int, j as int),
{
    let mut k: i32 = 0;
    while k < 4
        invariant
            0 <= k <= 4,
            1 <= w <= 177,
            modules.len() == w * w,
            i < w,
            -4 <= j <= 200,
            forall|t: int|
                0 <= t < k ==> #[trigger] light_or_outside(
                    modules@,
                    w as int,
                    horizontal,
                    i as int,
                    j + t,
                ),
        decreases 4 - k,
    {
        let p = j + k;
        if p >= 0 && (p as usize) < w && is_line_dark(modules, w, horizontal, i, p as usize) {
            assert(!light_or_outside(modules@, w as int, horizontal, i as int, j + k));
            return false;
        }
        k += 1;
    }
    assert(light_or_outside(modules@, w as int, horizontal, i as int, j + 0));
    assert(light_or_outside(modules@, w as int, horizontal, i as int, j + 1));
    assert(light_or_outside(modules@, w as int, horizontal, i as int, j + 2));
    assert(light_or_outside(modules@, w as int, horizontal, i as int, j + 3));
    true
}

/// Computes the penalty of the look-alikes of the finder pattern in the
/// rows, or in the columns.
pub fn compute_finder_penalty_score(modules: &Vec<Module>, w: usize, horizontal: bool) -> (r: u32)
    requires
        7 <= w <= 177,
        modules.len() == w * w,
    ensures
        r == finder_penalty(modules@, w as int, horizontal, w as int),
        r <= 1253160,
{
    let mut total: u32 = 0;
    let mut i: usize = 0;
    while i < w
        invariant
            i <= w,
            7 <= w <= 177,
            modules.len() == w * w,
            total == finder_penalty(modules@, w as int, horizontal, i as int),
            total <= 7080 * i,
        decreases w - i,
    {
        let mut score: u32 = 0;
        let mut j: usize = 0;
        while j < w - 6
            invariant
                j <= w - 6,
                i < w,
                7 <= w <= 177,
                modules.len() == w * w,
                score == finder_in_line(modules@, w as int, horizontal, i as int, j as int),
                score <= 40 * j,
            decreases w - 6 - j,
        {
            if is_line_dark(modules, w, horizontal, i, j) && !is_line_dark(
                modules,
                w,
                horizontal,
                i,
                j + 1,
            ) && is_line_dark(modules, w, horizontal, i, j + 2) && is_line_dark(
                modules,
                w,
                horizontal,
                i,
                j + 3,
            ) && is_line_dark(modules, w, horizontal, i, j + 4) && !is_line_dark(
                modules,
                w,
                horizontal,
                i,
                j + 5,
            ) && is_line_dark(modules, w, horizontal, i, j + 6) && (is_four_light(
                modules,
                w,
                horizontal,
                i,
                j as i32 - 4,
            ) || is_four_light(modules, w, horizontal, i, j as i32 + 7)) {
                score += 40;
            }
            j += 1;
        }
        total += score;
        i += 1;
    }
    total
}

//------------------------------------------------------------------------------
// Balance of dark and light
/// The number of dark modules among the first `n`.
pub open spec fn dark_count(m: Seq<Module>, n: int) -> int
    decreases n,
{
    if n <= 0 {
        0
    } else {
        dark_count(m, n - 1) + if m[n - 1].spec_is_dark() {
            1int
        } else {
            0int
        }
    }
}

/// Ten for each full five percent by which the share of dark modules among
/// `total` differs from one half.
pub open spec fn balance_score(dark: int, total: int) -> int {
    let off = if 20 * dark < 10 * total {
        10 * total - 20 * dark
    } else {
        20 * dark - 10 * total
    };
    10 * (off / total)
}

/// The penalty for the imbalance of dark and light modules.
pub open spec fn balance_penalty(m: Seq<Module>) -> int {
    balance_score(dark_count(m, m.len() as int), m.len() as int)
}

/// Computes the penalty for the imbalance of dark and light modules.
pub fn compute_balance_penalty_score(modules: &Vec<Module>) -> (r: u32)
    requires
        1 <= modules.len() <= 177 * 177,
    ensures
        r == balance_penalty(modules@),
        r <= 100,
{
    let n = modules.len();
    let mut dark: usize = 0;
    let mut k: usize = 0;
    while k < n
        invariant
            k <= n,
            n == modules.len(),
            dark == dark_count(modules@, k as int),
            dark <= k,
        decreases n - k,
    {
        if modules[k].is_dark() {
            dark += 1;
        }
        k += 1;
    }
    let off = if 20 * dark < 10 * n {
        10 * n - 20 * dark
    } else {
        20 * dark - 10 * n
    };
    assert(off / n <= 10) by (nonlinear_arith)
        requires
            0 <= off <= 10 * n,
            n >= 1,
    ;
    (10 * (off / n)) as u32
}

//------------------------------------------------------------------------------
// Light sides of a Micro QR code
/// The number of light modules among the positions 1 to `n - 1` of a line.
pub open spec fn light_count(m: Seq<Module>, w: int, horizontal: bool, i: int, n: int) -> int
    decreases n,
{
    if n <= 1 {
        0
    } else {
        light_count(m, w, horizontal, i, n - 1) + if line_dark(m, w, horizontal, i, n - 1) {
            0int
        } else {
            1int
        }
    }
}

/// The penalty of a Micro QR code: the light modules of the bottom row and
/// of the right column are counted without the first module of each, and the
/// greater count weighs sixteen times the lesser. The fewer dark modules
/// stand on the two sides, the greater the penalty.
pub open spec fn light_side_penalty(m: Seq<Module>, w: int) -> int {
    let h = light_count(m, w, true, w - 1, w);
    let v = light_count(m, w, false, w - 1, w);
    h + v + 15 * if h < v {
        v
    } else {
        h
    }
}

/// Computes the penalty of a Micro QR code.
pub fn compute_light_side_penalty_score(modules: &Vec<Module>, w: usize) -> (r: u32)
    requires
        1 <= w <= 177,
        modules.len() == w * w,
    ensures
        r == light_side_penalty(modules@, w as int),
        r <= 3009,
{
    let mut h: u32 = 0;
    let mut v: u32 = 0;
    let mut j: usize = 1;
    while j < w
        invariant
            1 <= j <= w,
            1 <= w <= 177,
            modules.len() == w * w,
            h == light_count(modules@, w as int, true, w - 1, j as int),
            v == light_count(modules@, w as int, false, w - 1, j as int),
            h <= j,
            v <= j,
        decreases w - j,
    {
        if !is_line_dark(modules, w, true, w - 1, j) {
            h += 1;
        }
        if !is_line_dark(modules, w, false, w - 1, j) {
            v += 1;
        }
        j += 1;
    }
    h + v + 15 * if h < v {
        v
    } else {
        h
    }
}

//------------------------------------------------------------------------------
// Total
/// The penalty of the modules of a symbol. For a QR code it is the sum of
/// four penalties: for runs of one colour in rows and columns, for blocks of
/// one colour, for look-alikes of the finder pattern in rows and columns,
/// and for the imbalance of dark and light. A Micro QR code is judged by
/// its bottom row and right column.
pub open spec fn total_penalty(version: Version, m: Seq<Module>) -> int {
    let w = version.spec_width();
    if version is Normal {
        adjacent_penalty(m, w, true, w) + adjacent_penalty(m, w, false, w) + block_penalty(
            m,
            w,
            w - 1,
        ) + finder_penalty(m, w, true, w) + finder_penalty(m, w, false, w) + balance_penalty(m)
    } else {
        light_side_penalty(m, w)
    }
}

/// Computes the penalty of the modules of a symbol.
pub fn compute_total_penalty_score(version: Version, modules: &Vec<Module>) -> (r: u32)
    requires
        version.is_supported(),
        modules.len() == version.spec_width() * version.spec_width(),
    ensures
        r == total_penalty(version, modules@),
{
    let w = version.width() as usize;
    assert(w * w <= 177 * 177 && w * w >= 1) by (nonlinear_arith)
        requires
            11 <= w <= 177,
    ;
    if version.is_normal() {
        let s1_a = compute_adjacent_penalty_score(modules, w, true);
        let s1_b = compute_adjacent_penalty_score(modules, w, false);
        let s2 = compute_block_penalty_score(modules, w);
        let s3_a = compute_finder_penalty_score(modules, w, true);
        let s3_b = compute_finder_penalty_score(modules, w, false);
        let s4 = compute_balance_penalty_score(modules);
        s1_a + s1_b + s2 + s3_a + s3_b + s4
    } else {
        compute_light_side_penalty_score(modules, w)
    }
}

} // verus!
