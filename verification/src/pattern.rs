//! The function patterns of a symbol: what stands at a coordinate that holds
//! no data.
//!
//! A coordinate is a column `x` and a row `y`, both counted from zero at the
//! top left corner of the symbol.

use crate::types::{Color, Version};
use vstd::prelude::*;

verus! {

/// The coordinates of the centres of the alignment patterns of each QR code
/// version, the same for columns and rows. Version `v` has `v / 7 + 2` of
/// them, but version 1 has none; the rest of a row is zero.
pub const ALIGNMENT_PATTERN_POSITIONS: [[i16; 7]; 40] = [
    [0, 0, 0, 0, 0, 0, 0],  // version 1
    [6, 18, 0, 0, 0, 0, 0],  // version 2
    [6, 22, 0, 0, 0, 0, 0],  // version 3
    [6, 26, 0, 0, 0, 0, 0],  // version 4
    [6, 30, 0, 0, 0, 0, 0],  // version 5
    [6, 34, 0, 0, 0, 0, 0],  // version 6
    [6, 22, 38, 0, 0, 0, 0],  // version 7
    [6, 24, 42, 0, 0, 0, 0],  // version 8
    [6, 26, 46, 0, 0, 0, 0],  // version 9
    [6, 28, 50, 0, 0, 0, 0],  // version 10
    [6, 30, 54, 0, 0, 0, 0],  // version 11
    [6, 32, 58, 0, 0, 0, 0],  // version 12
    [6, 34, 62, 0, 0, 0, 0],  // version 13
    [6, 26, 46, 66, 0, 0, 0],  // version 14
    [6, 26, 48, 70, 0, 0, 0],  // version 15
    [6, 26, 50, 74, 0, 0, 0],  // version 16
    [6, 30, 54, 78, 0, 0, 0],  // version 17
    [6, 30, 56, 82, 0, 0, 0],  // version 18
    [6, 30, 58, 86, 0, 0, 0],  // version 19
    [6, 34, 62, 90, 0, 0, 0],  // version 20
    [6, 28, 50, 72, 94, 0, 0],  // version 21
    [6, 26, 50, 74, 98, 0, 0],  // version 22
    [6, 30, 54, 78, 102, 0, 0],  // version 23
    [6, 28, 54, 80, 106, 0, 0],  // version 24
    [6, 32, 58, 84, 110, 0, 0],  // version 25
    [6, 30, 58, 86, 114, 0, 0],  // version 26
    [6, 34, 62, 90, 118, 0, 0],  // version 27
    [6, 26, 50, 74, 98, 122, 0],  // version 28
    [6, 30, 54, 78, 102, 126, 0],  // version 29
    [6, 26, 52, 78, 104, 130, 0],  // version 30
    [6, 30, 56, 82, 108, 134, 0],  // version 31
    [6, 34, 60, 86, 112, 138, 0],  // version 32
    [6, 30, 58, 86, 114, 142, 0],  // version 33
    [6, 34, 62, 90, 118, 146, 0],  // version 34
    [6, 30, 54, 78, 102, 126, 150],  // version 35
    [6, 24, 50, 76, 102, 128, 154],  // version 36
    [6, 28, 54, 80, 106, 132, 158],  // version 37
    [6, 32, 58, 84, 110, 136, 162],  // version 38
    [6, 26, 54, 82, 110, 138, 166],  // version 39
    [6, 30, 58, 86, 114, 142, 170],  // version 40
];

/// The version information of the QR code versions 7 to 40: the six bits of
/// the version followed by twelve check bits.
pub const VERSION_INFOS: [u32; 34] = [
    0x07c94, 0x085bc, 0x09a99, 0x0a4d3, 0x0bbf6, 0x0c762, 0x0d847, 0x0e60d, 0x0f928, 0x10b78,
    0x1145d, 0x12a17, 0x13532, 0x149a6, 0x15683, 0x168c9, 0x177ec, 0x18ec4, 0x191e1, 0x1afab,
    0x1b08e, 0x1cc1a, 0x1d33f, 0x1ed75, 0x1f250, 0x209d5, 0x216f0, 0x228ba, 0x2379f, 0x24b0b,
    0x2542e, 0x26a64, 0x27541, 0x28c69,
];

/// The coordinate lies in the symbol of the version.
pub open spec fn in_symbol(version: Version, x: int, y: int) -> bool {
    0 <= x < version.spec_width() && 0 <= y < version.spec_width()
}

/// The distance between two numbers.
pub open spec fn distance(a: int, b: int) -> int {
    if a < b {
        b - a
    } else {
        a - b
    }
}

/// The number of the square ring around a centre on which a coordinate lies.
pub open spec fn ring(x: int, y: int, cx: int, cy: int) -> int {
    if distance(x, cx) < distance(y, cy) {
        distance(y, cy)
    } else {
        distance(x, cx)
    }
}

//------------------------------------------------------------------------------
// Finder patterns
/// The colour of a ring of a finder pattern: a dark centre of three by three
/// modules, a light ring, a dark ring, and the light separator around them.
pub open spec fn finder_ring(d: int) -> Color {
    if d == 2 || d == 4 {
        Color::Light
    } else {
        Color::Dark
    }
}

/// The module of a finder pattern or its separator at a coordinate. A QR
/// code has finder patterns in three corners and a Micro QR code in one.
pub open spec fn finder_module(version: Version, x: int, y: int) -> Option<Color> {
    let w = version.spec_width();
    if x <= 7 && y <= 7 {
        Some(finder_ring(ring(x, y, 3, 3)))
    } else if version is Normal && x >= w - 8 && y <= 7 {
        Some(finder_ring(ring(x, y, w - 4, 3)))
    } else if version is Normal && x <= 7 && y >= w - 8 {
        Some(finder_ring(ring(x, y, 3, w - 4)))
    } else {
        None
    }
}

//------------------------------------------------------------------------------
// Timing patterns
/// The row and the column of the timing patterns: 6 in a QR code, 0 in a
/// Micro QR code.
pub open spec fn timing_line(version: Version) -> int {
    if version is Normal {
        6
    } else {
        0
    }
}

/// The module of a timing pattern at a coordinate. The timing patterns run
/// along one row and one column from the finder pattern to the finder pattern
/// opposite, or to the edge in a Micro QR code; their modules are dark at
/// even positions.
pub open spec fn timing_module(version: Version, x: int, y: int) -> Option<Color> {
    let w = version.spec_width();
    let last = if version is Normal {
        w - 9
    } else {
        w - 1
    };
    if y == timing_line(version) && 8 <= x <= last {
        Some(Color::of_bit(x % 2 == 0))
    } else if x == timing_line(version) && 8 <= y <= last {
        Some(Color::of_bit(y % 2 == 0))
    } else {
        None
    }
}

//------------------------------------------------------------------------------
// Alignment patterns
/// The number of centre coordinates of the alignment patterns of a version.
pub open spec fn alignment_count(version: Version) -> int {
    match version {
        Version::Normal(v) => if 2 <= v <= 40 {
            v / 7 + 2
        } else {
            0
        },
        _ => 0,
    }
}

/// The first of the first `k` centre coordinates that is at most two away
/// from `c`, with the offset of `c` from it.
pub open spec fn alignment_near(version: Version, c: int, k: int) -> Option<(int, int)>
    decreases k,
{
    if k <= 0 {
        None
    } else {
        match alignment_near(version, c, k - 1) {
            Some(r) => Some(r),
            None => {
                let centre = ALIGNMENT_PATTERN_POSITIONS[version->Normal_0 - 1][k - 1] as int;
                if distance(c, centre) <= 2 {
                    Some((k - 1, c - centre))
                } else {
                    None
                }
            },
        }
    }
}

/// The module of an alignment pattern at a coordinate. An alignment pattern
/// is a dark module in a light ring in a dark ring. Its centre has one of the
/// centre coordinates as column and one as row; there is none where a finder
/// pattern stands.
pub open spec fn alignment_module(version: Version, x: int, y: int) -> Option<Color> {
    let n = alignment_count(version);
    match (alignment_near(version, x, n), alignment_near(version, y, n)) {
        (Some((i, dx)), Some((j, dy))) => if (i == 0 && j == 0) || (i == 0 && j == n - 1) || (i
            == n - 1 && j == 0) {
            None
        } else {
            Some(Color::of_bit(ring(dx, dy, 0, 0) != 1))
        },
        _ => None,
    }
}

//------------------------------------------------------------------------------
// Version information
/// The place of a coordinate in the version information, counted from the
/// highest of its 18 bits. The QR code versions from 7 on show their version
/// information twice, in a block of six by three modules left of the top
/// right finder pattern and in one above the bottom left finder pattern.
pub open spec fn version_info_place(version: Version, x: int, y: int) -> Option<int> {
    let w = version.spec_width();
    match version {
        Version::Normal(v) => if v < 7 {
            None
        } else if x <= 5 && w - 11 <= y <= w - 9 {
            Some((5 - x) * 3 + (w - 9 - y))
        } else if y <= 5 && w - 11 <= x <= w - 9 {
            Some((5 - y) * 3 + (w - 9 - x))
        } else {
            None
        },
        _ => None,
    }
}

/// The module of the version information at a coordinate.
pub open spec fn version_info_module(version: Version, x: int, y: int) -> Option<Color> {
    match version_info_place(version, x, y) {
        Some(i) => Some(
            Color::of_bit(
                (VERSION_INFOS[version->Normal_0 - 7] >> ((17 - i) as u32)) & 1 == 1,
            ),
        ),
        None => None,
    }
}

//------------------------------------------------------------------------------
// Format information
/// The place of a coordinate in the format information, counted from the
/// highest of its 15 bits. A QR code shows its format information twice:
/// around the top left finder pattern, and split between the bottom left and
/// the top right one. A Micro QR code shows it once.
pub open spec fn format_info_place(version: Version, x: int, y: int) -> Option<int> {
    let w = version.spec_width();
    if version is Normal {
        if y == 8 && x <= 5 {
            Some(x)
        } else if y == 8 && x == 7 {
            Some(6)
        } else if y == 8 && x == 8 {
            Some(7)
        } else if x == 8 && y == 7 {
            Some(8)
        } else if x == 8 && y <= 5 {
            Some(14 - y)
        } else if x == 8 && y >= w - 7 {
            Some(w - 1 - y)
        } else if y == 8 && x >= w - 8 {
            Some(x - w + 15)
        } else {
            None
        }
    } else {
        if y == 8 && 1 <= x <= 8 {
            Some(x - 1)
        } else if x == 8 && 1 <= y <= 7 {
            Some(15 - y)
        } else {
            None
        }
    }
}

/// The module next to the bottom left finder pattern of a QR code that is
/// always dark.
pub open spec fn is_dark_module(version: Version, x: int, y: int) -> bool {
    version is Normal && x == 8 && y == version.spec_width() - 8
}

/// The module of the format information at a coordinate for a format number
/// of 15 bits, and the module that is always dark.
pub open spec fn format_info_module(version: Version, number: u16, x: int, y: int) -> Option<
    Color,
> {
    if is_dark_module(version, x, y) {
        Some(Color::Dark)
    } else {
        match format_info_place(version, x, y) {
            Some(i) => Some(Color::of_bit((number >> ((14 - i) as u16)) & 1 == 1)),
            None => None,
        }
    }
}

//------------------------------------------------------------------------------
// All function patterns
/// The module of a function pattern other than the format information at a
/// coordinate.
pub open spec fn fixed_module(version: Version, x: int, y: int) -> Option<Color> {
    if finder_module(version, x, y).is_some() {
        finder_module(version, x, y)
    } else if timing_module(version, x, y).is_some() {
        timing_module(version, x, y)
    } else if alignment_module(version, x, y).is_some() {
        alignment_module(version, x, y)
    } else {
        version_info_module(version, x, y)
    }
}

/// The coordinate holds a module of a function pattern: of a finder pattern
/// or its separator, of a timing pattern, of an alignment pattern, of the
/// format information or of the version information. Every other coordinate
/// holds a bit of the data.
pub open spec fn spec_is_functional(version: Version, x: int, y: int) -> bool {
    fixed_module(version, x, y).is_some() || format_info_module(version, 0, x, y).is_some()
}

/// Finds the first centre coordinate of an alignment pattern that is at most
/// two away from `c`.
pub fn alignment_offset(version: Version, c: i16) -> (r: Option<(usize, i16)>)
    requires
        version.is_supported(),
        0 <= c < version.spec_width(),
    ensures
        match alignment_near(version, c as int, alignment_count(version)) {
            Some((i, d)) => r == Some((i as usize, d as i16)) && 0 <= i < alignment_count(version)
                && -2 <= d <= 2,
            None => r.is_none(),
        },
{
    match version {
        Version::Normal(v) => {
            if v < 2 {
                return None;
            }
            let n = (v / 7 + 2) as usize;
            let mut k: usize = 0;
            while k < n
                invariant
                    k <= n,
                    n == alignment_count(version),
                    2 <= v <= 40,
                    version == Version::Normal(v),
                    0 <= c < version.spec_width(),
                    alignment_near(version, c as int, k as int).is_none(),
                decreases n - k,
            {
                let centre = ALIGNMENT_PATTERN_POSITIONS[(v - 1) as usize][k];
                proof {
                    lemma_alignment_row(v as int);
                    assert(0 <= ALIGNMENT_PATTERN_POSITIONS[v - 1][k as int] <= 170);
                }
                if -2 <= c - centre && c - centre <= 2 {
                    proof {
                        lemma_alignment_found(version, c as int, k as int + 1, n as int);
                    }
                    return Some((k, c - centre));
                }
                k += 1;
            }
            None
        },
        _ => None,
    }
}

/// A centre coordinate that is found among the first `k` is found among the
/// first `n`.
pub proof fn lemma_alignment_found(version: Version, c: int, k: int, n: int)
    requires
        0 <= k <= n,
        alignment_near(version, c, k).is_some(),
    ensures
        alignment_near(version, c, n) == alignment_near(version, c, k),
    decreases n - k,
{
    if k < n {
        lemma_alignment_found(version, c, k, n - 1);
    }
}

/// The centre coordinates of a version lie between 0 and 170.
pub proof fn lemma_alignment_row(v: int)
    requires
        1 <= v <= 40,
    ensures
        forall|k: int|
            0 <= k < 7 ==> 0 <= #[trigger] ALIGNMENT_PATTERN_POSITIONS[v - 1][k] <= 170,
{
    let row = ALIGNMENT_PATTERN_POSITIONS[v - 1];
    assert(0 <= row[0] <= 170 && 0 <= row[1] <= 170 && 0 <= row[2] <= 170 && 0 <= row[3] <= 170
        && 0 <= row[4] <= 170 && 0 <= row[5] <= 170 && 0 <= row[6] <= 170);
}

/// Gives the module of a finder pattern or its separator at a coordinate, if
/// there is one.
pub fn finder_module_at(version: Version, x: i16, y: i16) -> (r: Option<Color>)
    requires
        version.is_supported(),
        in_symbol(version, x as int, y as int),
    ensures
        r == finder_module(version, x as int, y as int),
{
    let w = version.width();
    let normal = version.is_normal();
    let centre: Option<(i16, i16)> = if x <= 7 && y <= 7 {
        Some((3, 3))
    } else if normal && x >= w - 8 && y <= 7 {
        Some((w - 4, 3))
    } else if normal && x <= 7 && y >= w - 8 {
        Some((3, w - 4))
    } else {
        None
    };
    match centre {
        Some((cx, cy)) => {
            let dx = if x < cx {
                cx - x
            } else {
                x - cx
            };
            let dy = if y < cy {
                cy - y
            } else {
                y - cy
            };
            let d = if dx < dy {
                dy
            } else {
                dx
            };
            Some(
                if d == 2 || d == 4 {
                    Color::Light
                } else {
                    Color::Dark
                },
            )
        },
        None => None,
    }
}

/// Gives the module of a timing pattern at a coordinate, if there is one.
pub fn timing_module_at(version: Version, x: i16, y: i16) -> (r: Option<Color>)
    requires
        version.is_supported(),
        in_symbol(version, x as int, y as int),
    ensures
        r == timing_module(version, x as int, y as int),
{
    let w = version.width();
    let normal = version.is_normal();
    let line: i16 = if normal {
        6
    } else {
        0
    };
    let last = if normal {
        w - 9
    } else {
        w - 1
    };
    if y == line && 8 <= x && x <= last {
        Some(Color::from_bit(x % 2 == 0))
    } else if x == line && 8 <= y && y <= last {
        Some(Color::from_bit(y % 2 == 0))
    } else {
        None
    }
}

/// Gives the module of an alignment pattern at a coordinate, if there is
/// one.
pub fn alignment_module_at(version: Version, x: i16, y: i16) -> (r: Option<Color>)
    requires
        version.is_supported(),
        in_symbol(version, x as int, y as int),
    ensures
        r == alignment_module(version, x as int, y as int),
{
    let (i, dx) = match alignment_offset(version, x) {
        Some(found) => found,
        None => {
            return None;
        },
    };
    let (j, dy) = match alignment_offset(version, y) {
        Some(found) => found,
        None => {
            return None;
        },
    };
    let n = match version {
        Version::Normal(v) => (v / 7 + 2) as usize,
        _ => 0,
    };
    if (i == 0 && j == 0) || (i == 0 && j == n - 1) || (i == n - 1 && j == 0) {
        return None;
    }
    let ax = if dx < 0 {
        -dx
    } else {
        dx
    };
    let ay = if dy < 0 {
        -dy
    } else {
        dy
    };
    let d = if ax < ay {
        ay
    } else {
        ax
    };
    Some(Color::from_bit(d != 1))
}

/// Gives the module of the version information at a coordinate, if there is
/// one.
pub fn version_info_module_at(version: Version, x: i16, y: i16) -> (r: Option<Color>)
    requires
        version.is_supported(),
        in_symbol(version, x as int, y as int),
    ensures
        r == version_info_module(version, x as int, y as int),
{
    let w = version.width();
    match version {
        Version::Normal(v) => {
            if v < 7 {
                return None;
            }
            let place: Option<i16> = if x <= 5 && w - 11 <= y && y <= w - 9 {
                Some((5 - x) * 3 + (w - 9 - y))
            } else if y <= 5 && w - 11 <= x && x <= w - 9 {
                Some((5 - y) * 3 + (w - 9 - x))
            } else {
                None
            };
            match place {
                Some(i) => {
                    let info = VERSION_INFOS[(v - 7) as usize];
                    Some(Color::from_bit((info >> ((17 - i) as u32)) & 1 == 1))
                },
                None => None,
            }
        },
        _ => None,
    }
}

/// Gives the module of a function pattern other than the format information
/// at a coordinate, if there is one.
pub fn fixed_module_at(version: Version, x: i16, y: i16) -> (r: Option<Color>)
    requires
        version.is_supported(),
        in_symbol(version, x as int, y as int),
    ensures
        r == fixed_module(version, x as int, y as int),
{
    let finder = finder_module_at(version, x, y);
    if finder.is_some() {
        return finder;
    }
    let timing = timing_module_at(version, x, y);
    if timing.is_some() {
        return timing;
    }
    let alignment = alignment_module_at(version, x, y);
    if alignment.is_some() {
        return alignment;
    }
    version_info_module_at(version, x, y)
}

/// Gives the module of the format information at a coordinate for a format
/// number, if there is one.
pub fn format_info_module_at(version: Version, number: u16, x: i16, y: i16) -> (r: Option<Color>)
    requires
        version.is_supported(),
        in_symbol(version, x as int, y as int),
    ensures
        r == format_info_module(version, number, x as int, y as int),
{
    let w = version.width();
    let place: Option<i16> = if version.is_normal() {
        if x == 8 && y == w - 8 {
            return Some(Color::Dark);
        }
        if y == 8 && x <= 5 {
            Some(x)
        } else if y == 8 && x == 7 {
            Some(6)
        } else if y == 8 && x == 8 {
            Some(7)
        } else if x == 8 && y == 7 {
            Some(8)
        } else if x == 8 && y <= 5 {
            Some(14 - y)
        } else if x == 8 && y >= w - 7 {
            Some(w - 1 - y)
        } else if y == 8 && x >= w - 8 {
            Some(x - w + 15)
        } else {
            None
        }
    } else {
        if y == 8 && 1 <= x && x <= 8 {
            Some(x - 1)
        } else if x == 8 && 1 <= y && y <= 7 {
            Some(15 - y)
        } else {
            None
        }
    };
    match place {
        Some(i) => Some(Color::from_bit((number >> ((14 - i) as u16)) & 1 == 1)),
        None => None,
    }
}

/// Checks whether a module at coordinate (x, y) is a functional module or
/// not. A negative coordinate counts from the right or from the bottom.
///
/// The finder patterns with their separators and the format information
/// fill squares in the corners, and the timing patterns run along one row
/// and one column; what is left are the alignment patterns and the version
/// information.
pub fn is_functional(version: Version, width: i16, x: i16, y: i16) -> (r: bool)
    requires
        version.is_supported(),
        width == version.spec_width(),
        -width <= x < width,
        -width <= y < width,
    ensures
        r == spec_is_functional(
            version,
            if x < 0 {
                x + width
            } else {
                x as int
            },
            if y < 0 {
                y + width
            } else {
                y as int
            },
        ),
{
    let x = if x < 0 {
        x + width
    } else {
        x
    };
    let y = if y < 0 {
        y + width
    } else {
        y
    };
    let in_corner = match version {
        Version::Normal(_) => x == 6 || y == 6 || (x < 9 && y < 9) || (x < 9 && y >= width - 8)
            || (x >= width - 8 && y < 9),
        _ => x == 0 || y == 0 || (x < 9 && y < 9),
    };
    if in_corner {
        proof {
            lemma_corner_is_functional(version, x as int, y as int);
        }
        true
    } else {
        proof {
            lemma_outside_corner(version, x as int, y as int);
        }
        fixed_module_at(version, x, y).is_some()
    }
}

/// The squares in the corners and the lines of the timing patterns hold
/// function patterns only.
pub proof fn lemma_corner_is_functional(version: Version, x: int, y: int)
    requires
        version.is_supported(),
        in_symbol(version, x, y),
        if version is Normal {
            x == 6 || y == 6 || (x < 9 && y < 9) || (x < 9 && y >= version.spec_width() - 8) || (x
                >= version.spec_width() - 8 && y < 9)
        } else {
            x == 0 || y == 0 || (x < 9 && y < 9)
        },
    ensures
        spec_is_functional(version, x, y),
{
}

/// Outside the squares in the corners there is no format information.
pub proof fn lemma_outside_corner(version: Version, x: int, y: int)
    requires
        version.is_supported(),
        in_symbol(version, x, y),
        !(if version is Normal {
            x == 6 || y == 6 || (x < 9 && y < 9) || (x < 9 && y >= version.spec_width() - 8) || (x
                >= version.spec_width() - 8 && y < 9)
        } else {
            x == 0 || y == 0 || (x < 9 && y < 9)
        }),
    ensures
        format_info_module(version, 0, x, y).is_none(),
{
}

} // verus!
