//! The mask patterns and the format information that names them.

use crate::ec::{spec_block_layout, BLOCK_TABLE};
use crate::types::{EcLevel, Version};
use vstd::prelude::*;

verus! {

/// The mask patterns. Since QR code and Micro QR code do not use the same
/// pattern number, we name them according to their shape instead of the
/// number.
#[derive(Debug, Copy, Clone, PartialEq, Eq, Structural)]
pub enum MaskPattern {
    /// QR code pattern 000: `(x + y) % 2 == 0`.
    Checkerboard,
    /// QR code pattern 001: `y % 2 == 0`.
    HorizontalLines,
    /// QR code pattern 010: `x % 3 == 0`.
    VerticalLines,
    /// QR code pattern 011: `(x + y) % 3 == 0`.
    DiagonalLines,
    /// QR code pattern 100: `((x/3) + (y/2)) % 2 == 0`.
    LargeCheckerboard,
    /// QR code pattern 101: `(x*y)%2 + (x*y)%3 == 0`.
    Fields,
    /// QR code pattern 110: `((x*y)%2 + (x*y)%3) % 2 == 0`.
    Diamonds,
    /// QR code pattern 111: `((x+y)%2 + (x*y)%3) % 2 == 0`.
    Meadow,
}

/// The format information of a QR code for each of its 32 format numbers:
/// the two bits of the level and the three of the mask pattern, followed by
/// ten check bits, the whole masked with 101010000010010.
pub const FORMAT_INFOS_QR: [u16; 32] = [
    0x5412, 0x5125, 0x5e7c, 0x5b4b, 0x45f9, 0x40ce, 0x4f97, 0x4aa0, 0x77c4, 0x72f3, 0x7daa, 0x789d,
    0x662f, 0x6318, 0x6c41, 0x6976, 0x1689, 0x13be, 0x1ce7, 0x19d0, 0x0762, 0x0255, 0x0d0c, 0x083b,
    0x355f, 0x3068, 0x3f31, 0x3a06, 0x24b4, 0x2183, 0x2eda, 0x2bed,
];

/// The format information of a Micro QR code for each of its 32 format
/// numbers: the three bits of the symbol number and the two of the mask
/// pattern, followed by ten check bits, the whole masked with
/// 100010001000101.
pub const FORMAT_INFOS_MICRO_QR: [u16; 32] = [
    0x4445, 0x4172, 0x4e2b, 0x4b1c, 0x55ae, 0x5099, 0x5fc0, 0x5af7, 0x6793, 0x62a4, 0x6dfd, 0x68ca,
    0x7678, 0x734f, 0x7c16, 0x7921, 0x06de, 0x03e9, 0x0cb0, 0x0987, 0x1735, 0x1202, 0x1d5b, 0x186c,
    0x2508, 0x203f, 0x2f66, 0x2a51, 0x34e3, 0x31d4, 0x3e8d, 0x3bba,
];

/// The two bits that stand for a level in the format information of a QR
/// code.
pub open spec fn level_bits(ec_level: EcLevel) -> int {
    match ec_level {
        EcLevel::L => 1,
        EcLevel::M => 0,
        EcLevel::Q => 3,
        EcLevel::H => 2,
    }
}

/// The number of a Micro QR code version at a level in the format
/// information; versions and levels that do not go together have none.
pub open spec fn micro_symbol_number(a: int, ec_level: EcLevel) -> Option<int> {
    match ec_level {
        EcLevel::L => if a == 1 {
            Some(0)
        } else if a == 2 {
            Some(1)
        } else if a == 3 {
            Some(3)
        } else if a == 4 {
            Some(5)
        } else {
            None
        },
        EcLevel::M => if a == 2 {
            Some(2)
        } else if a == 3 {
            Some(4)
        } else if a == 4 {
            Some(6)
        } else {
            None
        },
        EcLevel::Q => if a == 4 {
            Some(7)
        } else {
            None
        },
        EcLevel::H => None,
    }
}

impl MaskPattern {
    /// The number of the pattern in a QR code.
    pub open spec fn id(self) -> int {
        match self {
            MaskPattern::Checkerboard => 0,
            MaskPattern::HorizontalLines => 1,
            MaskPattern::VerticalLines => 2,
            MaskPattern::DiagonalLines => 3,
            MaskPattern::LargeCheckerboard => 4,
            MaskPattern::Fields => 5,
            MaskPattern::Diamonds => 6,
            MaskPattern::Meadow => 7,
        }
    }

    /// The number of the pattern in a Micro QR code, which has four of the
    /// patterns.
    pub open spec fn micro_id(self) -> Option<int> {
        match self {
            MaskPattern::HorizontalLines => Some(0),
            MaskPattern::LargeCheckerboard => Some(1),
            MaskPattern::Diamonds => Some(2),
            MaskPattern::Meadow => Some(3),
            _ => None,
        }
    }

    /// The pattern inverts the data module at the coordinate.
    pub open spec fn covers(self, x: int, y: int) -> bool {
        match self {
            MaskPattern::Checkerboard => (x + y) % 2 == 0,
            MaskPattern::HorizontalLines => y % 2 == 0,
            MaskPattern::VerticalLines => x % 3 == 0,
            MaskPattern::DiagonalLines => (x + y) % 3 == 0,
            MaskPattern::LargeCheckerboard => ((y / 2) + (x / 3)) % 2 == 0,
            MaskPattern::Fields => (x * y) % 2 + (x * y) % 3 == 0,
            MaskPattern::Diamonds => ((x * y) % 2 + (x * y) % 3) % 2 == 0,
            MaskPattern::Meadow => ((x + y) % 2 + (x * y) % 3) % 2 == 0,
        }
    }

    /// Tells whether the pattern inverts the data module at a coordinate.
    pub fn inverts(self, x: i16, y: i16) -> (r: bool)
        requires
            0 <= x <= 176,
            0 <= y <= 176,
        ensures
            r == self.covers(x as int, y as int),
    {
        let x = x as i32;
        let y = y as i32;
        assert(0 <= x * y <= 176 * 176) by (nonlinear_arith)
            requires
                0 <= x <= 176,
                0 <= y <= 176,
        ;
        match self {
            MaskPattern::Checkerboard => (x + y) % 2 == 0,
            MaskPattern::HorizontalLines => y % 2 == 0,
            MaskPattern::VerticalLines => x % 3 == 0,
            MaskPattern::DiagonalLines => (x + y) % 3 == 0,
            MaskPattern::LargeCheckerboard => ((y / 2) + (x / 3)) % 2 == 0,
            MaskPattern::Fields => (x * y) % 2 + (x * y) % 3 == 0,
            MaskPattern::Diamonds => ((x * y) % 2 + (x * y) % 3) % 2 == 0,
            MaskPattern::Meadow => ((x + y) % 2 + (x * y) % 3) % 2 == 0,
        }
    }
}

/// The mask patterns of a version in the order in which they are tried: all
/// eight in a QR code, four in a Micro QR code.
pub open spec fn candidate_patterns(version: Version) -> Seq<MaskPattern> {
    if version is Normal {
        seq![
            MaskPattern::Checkerboard,
            MaskPattern::HorizontalLines,
            MaskPattern::VerticalLines,
            MaskPattern::DiagonalLines,
            MaskPattern::LargeCheckerboard,
            MaskPattern::Fields,
            MaskPattern::Diamonds,
            MaskPattern::Meadow,
        ]
    } else {
        seq![
            MaskPattern::HorizontalLines,
            MaskPattern::LargeCheckerboard,
            MaskPattern::Diamonds,
            MaskPattern::Meadow,
        ]
    }
}

/// The format information of a symbol: the 15 bits that tell the level and
/// the mask pattern. There is none for a Micro QR code with a pattern or a
/// level that it does not have.
pub open spec fn format_number(version: Version, ec_level: EcLevel, pattern: MaskPattern) -> Option<
    u16,
> {
    match version {
        Version::Normal(_) => Some(FORMAT_INFOS_QR[level_bits(ec_level) * 8 + pattern.id()]),
        Version::Micro(a) => match (micro_symbol_number(a as int, ec_level), pattern.micro_id()) {
            (Some(s), Some(p)) => Some(FORMAT_INFOS_MICRO_QR[s * 4 + p]),
            _ => None,
        },
        _ => None,
    }
}

/// A version that exists at a level has a format number for each of its
/// mask patterns.
pub proof fn lemma_format_number_exists(version: Version, ec_level: EcLevel, i: int)
    requires
        spec_block_layout(version, ec_level) is Ok,
        0 <= i < candidate_patterns(version).len(),
    ensures
        format_number(version, ec_level, candidate_patterns(version)[i]).is_some(),
{
    if version is Micro {
        let row = version.table_index()->Some_0;
        let col = ec_level.index();
        assert(40 <= row < 44);
        assert(0 <= col < 4);
        assert(BLOCK_TABLE[row][col].0);
    }
}

/// Looks up the format information of a symbol.
pub fn format_info(version: Version, ec_level: EcLevel, pattern: MaskPattern) -> (r: u16)
    requires
        format_number(version, ec_level, pattern).is_some(),
    ensures
        Some(r) == format_number(version, ec_level, pattern),
{
    match version {
        Version::Normal(_) => {
            let level: usize = match ec_level {
                EcLevel::L => 1,
                EcLevel::M => 0,
                EcLevel::Q => 3,
                EcLevel::H => 2,
            };
            let id: usize = match pattern {
                MaskPattern::Checkerboard => 0,
                MaskPattern::HorizontalLines => 1,
                MaskPattern::VerticalLines => 2,
                MaskPattern::DiagonalLines => 3,
                MaskPattern::LargeCheckerboard => 4,
                MaskPattern::Fields => 5,
                MaskPattern::Diamonds => 6,
                MaskPattern::Meadow => 7,
            };
            FORMAT_INFOS_QR[level * 8 + id]
        },
        Version::Micro(a) => {
            let symbol: usize = match (a, ec_level) {
                (1, EcLevel::L) => 0,
                (2, EcLevel::L) => 1,
                (2, EcLevel::M) => 2,
                (3, EcLevel::L) => 3,
                (3, EcLevel::M) => 4,
                (4, EcLevel::L) => 5,
                (4, EcLevel::M) => 6,
                _ => 7,
            };
            let id: usize = match pattern {
                MaskPattern::HorizontalLines => 0,
                MaskPattern::LargeCheckerboard => 1,
                MaskPattern::Diamonds => 2,
                _ => 3,
            };
            FORMAT_INFOS_MICRO_QR[symbol * 4 + id]
        },
        Version::RectMicro(..) => 0,
    }
}

/// Lists the mask patterns of a version in the order in which they are
/// tried.
pub fn patterns_of(version: Version) -> (r: Vec<MaskPattern>)
    ensures
        r@ == candidate_patterns(version),
{
    let mut r: Vec<MaskPattern> = Vec::new();
    if version.is_normal() {
        r.push(MaskPattern::Checkerboard);
        r.push(MaskPattern::HorizontalLines);
        r.push(MaskPattern::VerticalLines);
        r.push(MaskPattern::DiagonalLines);
        r.push(MaskPattern::LargeCheckerboard);
        r.push(MaskPattern::Fields);
        r.push(MaskPattern::Diamonds);
        r.push(MaskPattern::Meadow);
    } else {
        r.push(MaskPattern::HorizontalLines);
        r.push(MaskPattern::LargeCheckerboard);
        r.push(MaskPattern::Diamonds);
        r.push(MaskPattern::Meadow);
    }
    assert(r@ =~= candidate_patterns(version));
    r
}

} // verus!
