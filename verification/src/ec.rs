//! The `ec` module applies the Reed-Solomon error correction codes.

use crate::galois::{
    alpha_pow, eval, generator, generator_polynomial, gf_mul, lemma_eval_leading_zeros,
    lemma_eval_scaled, lemma_eval_sum, lemma_generator_roots, lemma_generator_shape,
    lemma_mul_zero_one, multiply,
};
use crate::types::{EcLevel, QrError, QrResult, Version};
use vstd::prelude::*;

verus! {

//------------------------------------------------------------------------------
// Block structure
/// How the codewords of a symbol are divided into blocks: every block gets
/// `ec_len` error correction codewords; the first `count1` blocks hold
/// `size1` data codewords each and the `count2` blocks after them hold
/// `size2` each.
#[derive(Debug, Copy, Clone)]
pub struct BlockLayout {
    pub ec_len: usize,
    pub size1: usize,
    pub count1: usize,
    pub size2: usize,
    pub count2: usize,
}

impl BlockLayout {
    /// The number of blocks.
    pub open spec fn blocks(self) -> int {
        self.count1 + self.count2
    }

    /// The number of data codewords of the symbol.
    pub open spec fn data_len(self) -> int {
        self.size1 * self.count1 + self.size2 * self.count2
    }

    /// The number of data codewords of block `i`.
    pub open spec fn block_size(self, i: int) -> int {
        if i < self.count1 {
            self.size1 as int
        } else {
            self.size2 as int
        }
    }

    /// The position in the data of the first codeword of block `i`.
    pub open spec fn block_start(self, i: int) -> int {
        if i < self.count1 {
            self.size1 * i
        } else {
            self.size1 * self.count1 + self.size2 * (i - self.count1)
        }
    }

    /// Every field fits a byte, as the entries of the table do.
    pub open spec fn is_small(self) -> bool {
        &&& self.ec_len <= 255
        &&& self.size1 <= 255
        &&& self.count1 <= 255
        &&& self.size2 <= 255
        &&& self.count2 <= 255
    }
}

/// The block structure of each version at each error correction level, as
/// (error correction codewords per block, data codewords per block of the
/// first group, blocks of the first group, data codewords per block of the
/// second group, blocks of the second group).
///
/// The first 40 rows are the QR code versions 1 to 40 and the last 4 the
/// Micro QR code versions 1 to 4. The flag in front of an entry tells whether
/// the version exists at that level.
pub const BLOCK_TABLE: [[(bool, (u8, u8, u8, u8, u8)); 4]; 44] = [
    // Version 1
    [
        (true, (7, 19, 1, 0, 0)),
        (true, (10, 16, 1, 0, 0)),
        (true, (13, 13, 1, 0, 0)),
        (true, (17, 9, 1, 0, 0)),
    ],
    // Version 2
    [
        (true, (10, 34, 1, 0, 0)),
        (true, (16, 28, 1, 0, 0)),
        (true, (22, 22, 1, 0, 0)),
        (true, (28, 16, 1, 0, 0)),
    ],
    // Version 3
    [
        (true, (15, 55, 1, 0, 0)),
        (true, (26, 44, 1, 0, 0)),
        (true, (18, 17, 2, 0, 0)),
        (true, (22, 13, 2, 0, 0)),
    ],
    // Version 4
    [
        (true, (20, 80, 1, 0, 0)),
        (true, (18, 32, 2, 0, 0)),
        (true, (26, 24, 2, 0, 0)),
        (true, (16, 9, 4, 0, 0)),
    ],
    // Version 5
    [
        (true, (26, 108, 1, 0, 0)),
        (true, (24, 43, 2, 0, 0)),
        (true, (18, 15, 2, 16, 2)),
        (true, (22, 11, 2, 12, 2)),
    ],
    // Version 6
    [
        (true, (18, 68, 2, 0, 0)),
        (true, (16, 27, 4, 0, 0)),
        (true, (24, 19, 4, 0, 0)),
        (true, (28, 15, 4, 0, 0)),
    ],
    // Version 7
    [
        (true, (20, 78, 2, 0, 0)),
        (true, (18, 31, 4, 0, 0)),
        (true, (18, 14, 2, 15, 4)),
        (true, (26, 13, 4, 14, 1)),
    ],
    // Version 8
    [
        (true, (24, 97, 2, 0, 0)),
        (true, (22, 38, 2, 39, 2)),
        (true, (22, 18, 4, 19, 2)),
        (true, (26, 14, 4, 15, 2)),
    ],
    // Version 9
    [
        (true, (30, 116, 2, 0, 0)),
        (true, (22, 36, 3, 37, 2)),
        (true, (20, 16, 4, 17, 4)),
        (true, (24, 12, 4, 13, 4)),
    ],
    // Version 10
    [
        (true, (18, 68, 2, 69, 2)),
        (true, (26, 43, 4, 44, 1)),
        (true, (24, 19, 6, 20, 2)),
        (true, (28, 15, 6, 16, 2)),
    ],
    // Version 11
    [
        (true, (20, 81, 4, 0, 0)),
        (true, (30, 50, 1, 51, 4)),
        (true, (28, 22, 4, 23, 4)),
        (true, (24, 12, 3, 13, 8)),
    ],
    // Version 12
    [
        (true, (24, 92, 2, 93, 2)),
        (true, (22, 36, 6, 37, 2)),
        (true, (26, 20, 4, 21, 6)),
        (true, (28, 14, 7, 15, 4)),
    ],
    // Version 13
    [
        (true, (26, 107, 4, 0, 0)),
        (true, (22, 37, 8, 38, 1)),
        (true, (24, 20, 8, 21, 4)),
        (true, (22, 11, 12, 12, 4)),
    ],
    // Version 14
    [
        (true, (30, 115, 3, 116, 1)),
        (true, (24, 40, 4, 41, 5)),
        (true, (20, 16, 11, 17, 5)),
        (true, (24, 12, 11, 13, 5)),
    ],
    // Version 15
    [
        (true, (22, 87, 5, 88, 1)),
        (true, (24, 41, 5, 42, 5)),
        (true, (30, 24, 5, 25, 7)),
        (true, (24, 12, 11, 13, 7)),
    ],
    // Version 16
    [
        (true, (24, 98, 5, 99, 1)),
        (true, (28, 45, 7, 46, 3)),
        (true, (24, 19, 15, 20, 2)),
        (true, (30, 15, 3, 16, 13)),
    ],
    // Version 17
    [
        (true, (28, 107, 1, 108, 5)),
        (true, (28, 46, 10, 47, 1)),
        (true, (28, 22, 1, 23, 15)),
        (true, (28, 14, 2, 15, 17)),
    ],
    // Version 18
    [
        (true, (30, 120, 5, 121, 1)),
        (true, (26, 43, 9, 44, 4)),
        (true, (28, 22, 17, 23, 1)),
        (true, (28, 14, 2, 15, 19)),
    ],
    // Version 19
    [
        (true, (28, 113, 3, 114, 4)),
        (true, (26, 44, 3, 45, 11)),
        (true, (26, 21, 17, 22, 4)),
        (true, (26, 13, 9, 14, 16)),
    ],
    // Version 20
    [
        (true, (28, 107, 3, 108, 5)),
        (true, (26, 41, 3, 42, 13)),
        (true, (30, 24, 15, 25, 5)),
        (true, (28, 15, 15, 16, 10)),
    ],
    // Version 21
    [
        (true, (28, 116, 4, 117, 4)),
        (true, (26, 42, 17, 0, 0)),
        (true, (28, 22, 17, 23, 6)),
        (true, (30, 16, 19, 17, 6)),
    ],
    // Version 22
    [
        (true, (28, 111, 2, 112, 7)),
        (true, (28, 46, 17, 0, 0)),
        (true, (30, 24, 7, 25, 16)),
        (true, (24, 13, 34, 0, 0)),
    ],
    // Version 23
    [
        (true, (30, 121, 4, 122, 5)),
        (true, (28, 47, 4, 48, 14)),
        (true, (30, 24, 11, 25, 14)),
        (true, (30, 15, 16, 16, 14)),
    ],
    // Version 24
    [
        (true, (30, 117, 6, 118, 4)),
        (true, (28, 45, 6, 46, 14)),
        (true, (30, 24, 11, 25, 16)),
        (true, (30, 16, 30, 17, 2)),
    ],
    // Version 25
    [
        (true, (26, 106, 8, 107, 4)),
        (true, (28, 47, 8, 48, 13)),
        (true, (30, 24, 7, 25, 22)),
        (true, (30, 15, 22, 16, 13)),
    ],
    // Version 26
    [
        (true, (28, 114, 10, 115, 2)),
        (true, (28, 46, 19, 47, 4)),
        (true, (28, 22, 28, 23, 6)),
        (true, (30, 16, 33, 17, 4)),
    ],
    // Version 27
    [
        (true, (30, 122, 8, 123, 4)),
        (true, (28, 45, 22, 46, 3)),
        (true, (30, 23, 8, 24, 26)),
        (true, (30, 15, 12, 16, 28)),
    ],
    // Version 28
    [
        (true, (30, 117, 3, 118, 10)),
        (true, (28, 45, 3, 46, 23)),
        (true, (30, 24, 4, 25, 31)),
        (true, (30, 15, 11, 16, 31)),
    ],
    // Version 29
    [
        (true, (30, 116, 7, 117, 7)),
        (true, (28, 45, 21, 46, 7)),
        (true, (30, 23, 1, 24, 37)),
        (true, (30, 15, 19, 16, 26)),
    ],
    // Version 30
    [
        (true, (30, 115, 5, 116, 10)),
        (true, (28, 47, 19, 48, 10)),
        (true, (30, 24, 15, 25, 25)),
        (true, (30, 15, 23, 16, 25)),
    ],
    // Version 31
    [
        (true, (30, 115, 13, 116, 3)),
        (true, (28, 46, 2, 47, 29)),
        (true, (30, 24, 42, 25, 1)),
        (true, (30, 15, 23, 16, 28)),
    ],
    // Version 32
    [
        (true, (30, 115, 17, 0, 0)),
        (true, (28, 46, 10, 47, 23)),
        (true, (30, 24, 10, 25, 35)),
        (true, (30, 15, 19, 16, 35)),
    ],
    // Version 33
    [
        (true, (30, 115, 17, 116, 1)),
        (true, (28, 46, 14, 47, 21)),
        (true, (30, 24, 29, 25, 19)),
        (true, (30, 15, 11, 16, 46)),
    ],
    // Version 34
    [
        (true, (30, 115, 13, 116, 6)),
        (true, (28, 46, 14, 47, 23)),
        (true, (30, 24, 44, 25, 7)),
        (true, (30, 16, 59, 17, 1)),
    ],
    // Version 35
    [
        (true, (30, 121, 12, 122, 7)),
        (true, (28, 47, 12, 48, 26)),
        (true, (30, 24, 39, 25, 14)),
        (true, (30, 15, 22, 16, 41)),
    ],
    // Version 36
    [
        (true, (30, 121, 6, 122, 14)),
        (true, (28, 47, 6, 48, 34)),
        (true, (30, 24, 46, 25, 10)),
        (true, (30, 15, 2, 16, 64)),
    ],
    // Version 37
    [
        (true, (30, 122, 17, 123, 4)),
        (true, (28, 46, 29, 47, 14)),
        (true, (30, 24, 49, 25, 10)),
        (true, (30, 15, 24, 16, 46)),
    ],
    // Version 38
    [
        (true, (30, 122, 4, 123, 18)),
        (true, (28, 46, 13, 47, 32)),
        (true, (30, 24, 48, 25, 14)),
        (true, (30, 15, 42, 16, 32)),
    ],
    // Version 39
    [
        (true, (30, 117, 20, 118, 4)),
        (true, (28, 47, 40, 48, 7)),
        (true, (30, 24, 43, 25, 22)),
        (true, (30, 15, 10, 16, 67)),
    ],
    // Version 40
    [
        (true, (30, 118, 19, 119, 6)),
        (true, (28, 47, 18, 48, 31)),
        (true, (30, 24, 34, 25, 34)),
        (true, (30, 15, 20, 16, 61)),
    ],
    // Micro version M1
    [
        (true, (2, 3, 1, 0, 0)),
        (false, (0, 0, 0, 0, 0)),
        (false, (0, 0, 0, 0, 0)),
        (false, (0, 0, 0, 0, 0)),
    ],
    // Micro version M2
    [
        (true, (5, 5, 1, 0, 0)),
        (true, (6, 4, 1, 0, 0)),
        (false, (0, 0, 0, 0, 0)),
        (false, (0, 0, 0, 0, 0)),
    ],
    // Micro version M3
    [
        (true, (6, 11, 1, 0, 0)),
        (true, (8, 9, 1, 0, 0)),
        (false, (0, 0, 0, 0, 0)),
        (false, (0, 0, 0, 0, 0)),
    ],
    // Micro version M4
    [
        (true, (8, 16, 1, 0, 0)),
        (true, (10, 14, 1, 0, 0)),
        (true, (14, 10, 1, 0, 0)),
        (false, (0, 0, 0, 0, 0)),
    ],
];

/// The row of the block table for a version and a level as a layout.
pub open spec fn layout_of(entry: (u8, u8, u8, u8, u8)) -> BlockLayout {
    BlockLayout {
        ec_len: entry.0 as usize,
        size1: entry.1 as usize,
        count1: entry.2 as usize,
        size2: entry.3 as usize,
        count2: entry.4 as usize,
    }
}

/// The block structure of a version at a level, or `InvalidVersion` where
/// the version does not exist at that level.
pub open spec fn spec_block_layout(version: Version, ec_level: EcLevel) -> QrResult<BlockLayout> {
    match version.spec_fetch(ec_level, BLOCK_TABLE@) {
        Ok(entry) => Ok(layout_of(entry)),
        Err(e) => Err(e),
    }
}

/// Whether the last data codeword of the version has four bits only.
pub open spec fn has_half_codeword(version: Version) -> bool {
    version == Version::Micro(1) || version == Version::Micro(3)
}

/// The number of data bits of a version at a level.
pub open spec fn spec_data_bits(version: Version, ec_level: EcLevel) -> QrResult<int> {
    match spec_block_layout(version, ec_level) {
        Ok(layout) => Ok(
            8 * layout.data_len() - if has_half_codeword(version) {
                4int
            } else {
                0int
            },
        ),
        Err(e) => Err(e),
    }
}

/// Looks up the block structure of a version at a level.
pub fn block_layout(version: Version, ec_level: EcLevel) -> (r: QrResult<BlockLayout>)
    ensures
        r == spec_block_layout(version, ec_level),
        r is Ok ==> r->Ok_0.is_small(),
{
    match version.fetch(ec_level, BLOCK_TABLE.as_slice()) {
        Ok(entry) => Ok(
            BlockLayout {
                ec_len: entry.0 as usize,
                size1: entry.1 as usize,
                count1: entry.2 as usize,
                size2: entry.3 as usize,
                count2: entry.4 as usize,
            },
        ),
        Err(e) => Err(e),
    }
}

/// The number of error correction codewords of each block of a version at a
/// level.
pub fn ec_codewords_per_block(version: Version, ec_level: EcLevel) -> (r: QrResult<usize>)
    ensures
        match spec_block_layout(version, ec_level) {
            Ok(layout) => r == Ok::<usize, QrError>(layout.ec_len),
            Err(e) => r == Err::<usize, QrError>(e),
        },
{
    match block_layout(version, ec_level) {
        Ok(layout) => Ok(layout.ec_len),
        Err(e) => Err(e),
    }
}

/// The number of data bits that a symbol of a version holds at a level: eight
/// for each data codeword, but four for the last data codeword of the Micro QR
/// code versions 1 and 3.
pub fn data_bits(version: Version, ec_level: EcLevel) -> (r: QrResult<usize>)
    ensures
        match spec_data_bits(version, ec_level) {
            Ok(n) => r == Ok::<usize, QrError>(n as usize) && 0 <= n <= 8 * 2 * 255 * 255,
            Err(e) => r == Err::<usize, QrError>(e),
        },
{
    match block_layout(version, ec_level) {
        Ok(layout) => {
            assert(layout.size1 * layout.count1 <= 255 * 255) by (nonlinear_arith)
                requires
                    layout.size1 <= 255,
                    layout.count1 <= 255,
            ;
            assert(layout.size2 * layout.count2 <= 255 * 255) by (nonlinear_arith)
                requires
                    layout.size2 <= 255,
                    layout.count2 <= 255,
            ;
            let total = layout.size1 * layout.count1 + layout.size2 * layout.count2;
            let half = match version {
                Version::Micro(1) | Version::Micro(3) => true,
                _ => false,
            };
            if half {
                proof {
                    lemma_micro_layout(version, ec_level);
                    assert(layout.size1 * layout.count1 == layout.size1) by (nonlinear_arith)
                        requires
                            layout.count1 == 1,
                    ;
                }
                Ok(8 * total - 4)
            } else {
                Ok(8 * total)
            }
        },
        Err(e) => Err(e),
    }
}

/// A Micro QR code has one block, and that block is not empty.
pub proof fn lemma_micro_layout(version: Version, ec_level: EcLevel)
    requires
        version is Micro,
        spec_block_layout(version, ec_level) is Ok,
    ensures
        spec_block_layout(version, ec_level)->Ok_0.count1 == 1,
        spec_block_layout(version, ec_level)->Ok_0.count2 == 0,
        spec_block_layout(version, ec_level)->Ok_0.size1 >= 3,
{
    let row = version.table_index()->Some_0;
    let col = ec_level.index();
    assert(40 <= row < 44);
    assert(0 <= col < 4);
}

/// The number of data codewords that an entry of the block table stands
/// for.
pub open spec fn entry_data_len(row: int, col: int) -> int {
    let e = BLOCK_TABLE[row][col].1;
    e.1 * e.2 + e.3 * e.4
}

/// What the proofs use of an entry of the block table: a QR code exists at
/// every level and a Micro QR code at the lowest; where a version exists at a level it exists at the lowest
/// level and holds no more there than at the lowest; and the QR codes up to
/// version 9 hold at most 232 data codewords, those up to version 26 at most
/// 1370, and no symbol more than 2956.
pub open spec fn entry_is_sound(row: int, col: int) -> bool {
    &&& row < 40 || col == 0 ==> BLOCK_TABLE[row][col].0
    &&& BLOCK_TABLE[row][col].0 ==> {
        &&& BLOCK_TABLE[row][0].0
        &&& 3 <= entry_data_len(row, col) <= entry_data_len(row, 0)
        &&& entry_data_len(row, 0) <= (if row < 9 {
            232int
        } else if row < 26 {
            1370int
        } else if row < 40 {
            2956int
        } else {
            16int
        })
    }
}

/// The number of data codewords of an entry whose fields are known.
pub proof fn lemma_entry(row: int, col: int, size1: int, count1: int, size2: int, count2: int)
    requires
        0 <= row < 44,
        0 <= col < 4,
        BLOCK_TABLE[row][col].1.1 == size1,
        BLOCK_TABLE[row][col].1.2 == count1,
        BLOCK_TABLE[row][col].1.3 == size2,
        BLOCK_TABLE[row][col].1.4 == count2,
    ensures
        entry_data_len(row, col) == size1 * count1 + size2 * count2,
{
}

/// Every entry of a row of the block table is sound.
pub proof fn lemma_table_row(row: int)
    requires
        0 <= row < 44,
    ensures
        forall|col: int| 0 <= col < 4 ==> entry_is_sound(row, col),
{
    if row == 0 {
        lemma_entry(0, 0, 19, 1, 0, 0);
        lemma_entry(0, 1, 16, 1, 0, 0);
        lemma_entry(0, 2, 13, 1, 0, 0);
        lemma_entry(0, 3, 9, 1, 0, 0);
    }
    if row == 1 {
        lemma_entry(1, 0, 34, 1, 0, 0);
        lemma_entry(1, 1, 28, 1, 0, 0);
        lemma_entry(1, 2, 22, 1, 0, 0);
        lemma_entry(1, 3, 16, 1, 0, 0);
    }
    if row == 2 {
        lemma_entry(2, 0, 55, 1, 0, 0);
        lemma_entry(2, 1, 44, 1, 0, 0);
        lemma_entry(2, 2, 17, 2, 0, 0);
        lemma_entry(2, 3, 13, 2, 0, 0);
    }
    if row == 3 {
        lemma_entry(3, 0, 80, 1, 0, 0);
        lemma_entry(3, 1, 32, 2, 0, 0);
        lemma_entry(3, 2, 24, 2, 0, 0);
        lemma_entry(3, 3, 9, 4, 0, 0);
    }
    if row == 4 {
        lemma_entry(4, 0, 108, 1, 0, 0);
        lemma_entry(4, 1, 43, 2, 0, 0);
        lemma_entry(4, 2, 15, 2, 16, 2);
        lemma_entry(4, 3, 11, 2, 12, 2);
    }
    if row == 5 {
        lemma_entry(5, 0, 68, 2, 0, 0);
        lemma_entry(5, 1, 27, 4, 0, 0);
        lemma_entry(5, 2, 19, 4, 0, 0);
        lemma_entry(5, 3, 15, 4, 0, 0);
    }
    if row == 6 {
        lemma_entry(6, 0, 78, 2, 0, 0);
        lemma_entry(6, 1, 31, 4, 0, 0);
        lemma_entry(6, 2, 14, 2, 15, 4);
        lemma_entry(6, 3, 13, 4, 14, 1);
    }
    if row == 7 {
        lemma_entry(7, 0, 97, 2, 0, 0);
        lemma_entry(7, 1, 38, 2, 39, 2);
        lemma_entry(7, 2, 18, 4, 19, 2);
        lemma_entry(7, 3, 14, 4, 15, 2);
    }
    if row == 8 {
        lemma_entry(8, 0, 116, 2, 0, 0);
        lemma_entry(8, 1, 36, 3, 37, 2);
        lemma_entry(8, 2, 16, 4, 17, 4);
        lemma_entry(8, 3, 12, 4, 13, 4);
    }
    if row == 9 {
        lemma_entry(9, 0, 68, 2, 69, 2);
        lemma_entry(9, 1, 43, 4, 44, 1);
        lemma_entry(9, 2, 19, 6, 20, 2);
        lemma_entry(9, 3, 15, 6, 16, 2);
    }
    if row == 10 {
        lemma_entry(10, 0, 81, 4, 0, 0);
        lemma_entry(10, 1, 50, 1, 51, 4);
        lemma_entry(10, 2, 22, 4, 23, 4);
        lemma_entry(10, 3, 12, 3, 13, 8);
    }
    if row == 11 {
        lemma_entry(11, 0, 92, 2, 93, 2);
        lemma_entry(11, 1, 36, 6, 37, 2);
        lemma_entry(11, 2, 20, 4, 21, 6);
        lemma_entry(11, 3, 14, 7, 15, 4);
    }
    if row == 12 {
        lemma_entry(12, 0, 107, 4, 0, 0);
        lemma_entry(12, 1, 37, 8, 38, 1);
        lemma_entry(12, 2, 20, 8, 21, 4);
        lemma_entry(12, 3, 11, 12, 12, 4);
    }
    if row == 13 {
        lemma_entry(13, 0, 115, 3, 116, 1);
        lemma_entry(13, 1, 40, 4, 41, 5);
        lemma_entry(13, 2, 16, 11, 17, 5);
        lemma_entry(13, 3, 12, 11, 13, 5);
    }
    if row == 14 {
        lemma_entry(14, 0, 87, 5, 88, 1);
        lemma_entry(14, 1, 41, 5, 42, 5);
        lemma_entry(14, 2, 24, 5, 25, 7);
        lemma_entry(14, 3, 12, 11, 13, 7);
    }
    if row == 15 {
        lemma_entry(15, 0, 98, 5, 99, 1);
        lemma_entry(15, 1, 45, 7, 46, 3);
        lemma_entry(15, 2, 19, 15, 20, 2);
        lemma_entry(15, 3, 15, 3, 16, 13);
    }
    if row == 16 {
        lemma_entry(16, 0, 107, 1, 108, 5);
        lemma_entry(16, 1, 46, 10, 47, 1);
        lemma_entry(16, 2, 22, 1, 23, 15);
        lemma_entry(16, 3, 14, 2, 15, 17);
    }
    if row == 17 {
        lemma_entry(17, 0, 120, 5, 121, 1);
        lemma_entry(17, 1, 43, 9, 44, 4);
        lemma_entry(17, 2, 22, 17, 23, 1);
        lemma_entry(17, 3, 14, 2, 15, 19);
    }
    if row == 18 {
        lemma_entry(18, 0, 113, 3, 114, 4);
        lemma_entry(18, 1, 44, 3, 45, 11);
        lemma_entry(18, 2, 21, 17, 22, 4);
        lemma_entry(18, 3, 13, 9, 14, 16);
    }
    if row == 19 {
        lemma_entry(19, 0, 107, 3, 108, 5);
        lemma_entry(19, 1, 41, 3, 42, 13);
        lemma_entry(19, 2, 24, 15, 25, 5);
        lemma_entry(19, 3, 15, 15, 16, 10);
    }
    if row == 20 {
        lemma_entry(20, 0, 116, 4, 117, 4);
        lemma_entry(20, 1, 42, 17, 0, 0);
        lemma_entry(20, 2, 22, 17, 23, 6);
        lemma_entry(20, 3, 16, 19, 17, 6);
    }
    if row == 21 {
        lemma_entry(21, 0, 111, 2, 112, 7);
        lemma_entry(21, 1, 46, 17, 0, 0);
        lemma_entry(21, 2, 24, 7, 25, 16);
        lemma_entry(21, 3, 13, 34, 0, 0);
    }
    if row == 22 {
        lemma_entry(22, 0, 121, 4, 122, 5);
        lemma_entry(22, 1, 47, 4, 48, 14);
        lemma_entry(22, 2, 24, 11, 25, 14);
        lemma_entry(22, 3, 15, 16, 16, 14);
    }
    if row == 23 {
        lemma_entry(23, 0, 117, 6, 118, 4);
        lemma_entry(23, 1, 45, 6, 46, 14);
        lemma_entry(23, 2, 24, 11, 25, 16);
        lemma_entry(23, 3, 16, 30, 17, 2);
    }
    if row == 24 {
        lemma_entry(24, 0, 106, 8, 107, 4);
        lemma_entry(24, 1, 47, 8, 48, 13);
        lemma_entry(24, 2, 24, 7, 25, 22);
        lemma_entry(24, 3, 15, 22, 16, 13);
    }
    if row == 25 {
        lemma_entry(25, 0, 114, 10, 115, 2);
        lemma_entry(25, 1, 46, 19, 47, 4);
        lemma_entry(25, 2, 22, 28, 23, 6);
        lemma_entry(25, 3, 16, 33, 17, 4);
    }
    if row == 26 {
        lemma_entry(26, 0, 122, 8, 123, 4);
        lemma_entry(26, 1, 45, 22, 46, 3);
        lemma_entry(26, 2, 23, 8, 24, 26);
        lemma_entry(26, 3, 15, 12, 16, 28);
    }
    if row == 27 {
        lemma_entry(27, 0, 117, 3, 118, 10);
        lemma_entry(27, 1, 45, 3, 46, 23);
        lemma_entry(27, 2, 24, 4, 25, 31);
        lemma_entry(27, 3, 15, 11, 16, 31);
    }
    if row == 28 {
        lemma_entry(28, 0, 116, 7, 117, 7);
        lemma_entry(28, 1, 45, 21, 46, 7);
        lemma_entry(28, 2, 23, 1, 24, 37);
        lemma_entry(28, 3, 15, 19, 16, 26);
    }
    if row == 29 {
        lemma_entry(29, 0, 115, 5, 116, 10);
        lemma_entry(29, 1, 47, 19, 48, 10);
        lemma_entry(29, 2, 24, 15, 25, 25);
        lemma_entry(29, 3, 15, 23, 16, 25);
    }
    if row == 30 {
        lemma_entry(30, 0, 115, 13, 116, 3);
        lemma_entry(30, 1, 46, 2, 47, 29);
        lemma_entry(30, 2, 24, 42, 25, 1);
        lemma_entry(30, 3, 15, 23, 16, 28);
    }
    if row == 31 {
        lemma_entry(31, 0, 115, 17, 0, 0);
        lemma_entry(31, 1, 46, 10, 47, 23);
        lemma_entry(31, 2, 24, 10, 25, 35);
        lemma_entry(31, 3, 15, 19, 16, 35);
    }
    if row == 32 {
        lemma_entry(32, 0, 115, 17, 116, 1);
        lemma_entry(32, 1, 46, 14, 47, 21);
        lemma_entry(32, 2, 24, 29, 25, 19);
        lemma_entry(32, 3, 15, 11, 16, 46);
    }
    if row == 33 {
        lemma_entry(33, 0, 115, 13, 116, 6);
        lemma_entry(33, 1, 46, 14, 47, 23);
        lemma_entry(33, 2, 24, 44, 25, 7);
        lemma_entry(33, 3, 16, 59, 17, 1);
    }
    if row == 34 {
        lemma_entry(34, 0, 121, 12, 122, 7);
        lemma_entry(34, 1, 47, 12, 48, 26);
        lemma_entry(34, 2, 24, 39, 25, 14);
        lemma_entry(34, 3, 15, 22, 16, 41);
    }
    if row == 35 {
        lemma_entry(35, 0, 121, 6, 122, 14);
        lemma_entry(35, 1, 47, 6, 48, 34);
        lemma_entry(35, 2, 24, 46, 25, 10);
        lemma_entry(35, 3, 15, 2, 16, 64);
    }
    if row == 36 {
        lemma_entry(36, 0, 122, 17, 123, 4);
        lemma_entry(36, 1, 46, 29, 47, 14);
        lemma_entry(36, 2, 24, 49, 25, 10);
        lemma_entry(36, 3, 15, 24, 16, 46);
    }
    if row == 37 {
        lemma_entry(37, 0, 122, 4, 123, 18);
        lemma_entry(37, 1, 46, 13, 47, 32);
        lemma_entry(37, 2, 24, 48, 25, 14);
        lemma_entry(37, 3, 15, 42, 16, 32);
    }
    if row == 38 {
        lemma_entry(38, 0, 117, 20, 118, 4);
        lemma_entry(38, 1, 47, 40, 48, 7);
        lemma_entry(38, 2, 24, 43, 25, 22);
        lemma_entry(38, 3, 15, 10, 16, 67);
    }
    if row == 39 {
        lemma_entry(39, 0, 118, 19, 119, 6);
        lemma_entry(39, 1, 47, 18, 48, 31);
        lemma_entry(39, 2, 24, 34, 25, 34);
        lemma_entry(39, 3, 15, 20, 16, 61);
    }
    if row == 40 {
        lemma_entry(40, 0, 3, 1, 0, 0);
        lemma_entry(40, 1, 0, 0, 0, 0);
        lemma_entry(40, 2, 0, 0, 0, 0);
        lemma_entry(40, 3, 0, 0, 0, 0);
    }
    if row == 41 {
        lemma_entry(41, 0, 5, 1, 0, 0);
        lemma_entry(41, 1, 4, 1, 0, 0);
        lemma_entry(41, 2, 0, 0, 0, 0);
        lemma_entry(41, 3, 0, 0, 0, 0);
    }
    if row == 42 {
        lemma_entry(42, 0, 11, 1, 0, 0);
        lemma_entry(42, 1, 9, 1, 0, 0);
        lemma_entry(42, 2, 0, 0, 0, 0);
        lemma_entry(42, 3, 0, 0, 0, 0);
    }
    if row == 43 {
        lemma_entry(43, 0, 16, 1, 0, 0);
        lemma_entry(43, 1, 14, 1, 0, 0);
        lemma_entry(43, 2, 10, 1, 0, 0);
        lemma_entry(43, 3, 0, 0, 0, 0);
    }
}

/// A QR code exists at every level. It holds at most 1856 data bits up to
/// version 9, at most 10960 up to version 26 and at most 23648 in all.
pub proof fn lemma_capacity_class(v: i16, ec_level: EcLevel)
    requires
        1 <= v <= 40,
    ensures
        spec_data_bits(Version::Normal(v), ec_level) is Ok,
        0 <= spec_data_bits(Version::Normal(v), ec_level)->Ok_0 <= (if v <= 9 {
            1856int
        } else if v <= 26 {
            10960int
        } else {
            23648int
        }),
{
    let row = (v - 1) as int;
    let col = ec_level.index();
    lemma_table_row(row);
    assert(entry_is_sound(row, col));
}

/// Every version that has tables exists at the lowest level.
pub proof fn lemma_supported_has_capacity(version: Version)
    requires
        version.is_supported(),
    ensures
        spec_data_bits(version, EcLevel::L) is Ok,
{
    let row = version.table_index()->Some_0;
    lemma_table_row(row);
    assert(entry_is_sound(row, 0));
}

/// No level holds more data bits than the lowest, and no symbol more than
/// 23648.
pub proof fn lemma_limit_is_largest(version: Version, ec_level: EcLevel)
    requires
        spec_data_bits(version, ec_level) is Ok,
    ensures
        spec_data_bits(version, EcLevel::L) is Ok,
        0 <= spec_data_bits(version, ec_level)->Ok_0 <= spec_data_bits(version, EcLevel::L)->Ok_0
            <= 23648,
{
    let row = version.table_index()->Some_0;
    let col = ec_level.index();
    lemma_table_row(row);
    assert(entry_is_sound(row, col));
    assert(entry_is_sound(row, 0));
}

//------------------------------------------------------------------------------
// Error correction primitive
/// A polynomial of `k` zero coefficients.
pub open spec fn zeros(k: nat) -> Seq<u8> {
    Seq::new(k, |i: int| 0u8)
}

/// The remainder of `(d * x + b) * x^k` modulo the generator `gen` of degree
/// `k`, where `rem` is the remainder of `d * x^k`.
pub open spec fn rs_step(rem: Seq<u8>, b: u8, gen: Seq<u8>) -> Seq<u8> {
    Seq::new(
        rem.len(),
        |i: int|
            (if i + 1 < rem.len() {
                rem[i + 1]
            } else {
                0u8
            }) ^ gf_mul(b ^ rem[0], gen[i + 1]),
    )
}

/// The error correction codewords of a block of data codewords: the
/// remainder of the data polynomial times `x^k` modulo the generator
/// polynomial of degree `k`.
pub open spec fn rs_remainder(data: Seq<u8>, k: nat) -> Seq<u8>
    decreases data.len(),
{
    if data.len() == 0 {
        zeros(k)
    } else {
        rs_step(rs_remainder(data.drop_last(), k), data.last(), generator(k))
    }
}

/// A block gets `k` error correction codewords.
pub proof fn lemma_remainder_len(data: Seq<u8>, k: nat)
    ensures
        rs_remainder(data, k).len() == k,
    decreases data.len(),
{
    if data.len() > 0 {
        lemma_remainder_len(data.drop_last(), k);
    }
}

/// The data codewords of a block followed by its error correction codewords
/// form a polynomial that vanishes at every root `x^i`, `i < k`, of the
/// generator polynomial: the block is a codeword of the Reed-Solomon code.
pub proof fn lemma_codeword_roots(data: Seq<u8>, k: nat, i: nat)
    requires
        i < k,
    ensures
        eval(data + rs_remainder(data, k), alpha_pow(i)) == 0,
    decreases data.len(),
{
    let x = alpha_pow(i);
    let g = generator(k);
    let u = data + rs_remainder(data, k);
    lemma_generator_shape(k);
    lemma_remainder_len(data, k);
    if data.len() == 0 {
        lemma_eval_leading_zeros(Seq::<u8>::empty(), u, k, x);
    } else {
        let d = data.drop_last();
        let b = data.last();
        let rem = rs_remainder(d, k);
        let n = d.len() as int;
        lemma_remainder_len(d, k);
        lemma_codeword_roots(d, k, i);
        let t = d + rem;
        let tx = t.push(0u8);
        assert(tx.drop_last() =~= t);
        lemma_mul_zero_one(x);
        assert(0u8 ^ 0u8 == 0u8) by (bit_vector);
        assert(eval(tx, x) == 0);
        let f = b ^ rem[0];
        let sg = Seq::new(g.len(), |j: int| gf_mul(f, g[j]));
        lemma_eval_scaled(f, g, sg, x);
        lemma_generator_roots(k, i);
        lemma_mul_zero_one(f);
        assert(eval(sg, x) == 0);
        let s = Seq::new(
            (n + k + 1) as nat,
            |j: int|
                if j < n {
                    0u8
                } else {
                    sg[j - n]
                },
        );
        lemma_eval_leading_zeros(sg, s, n as nat, x);
        assert forall|j: int| 0 <= j < u.len() implies #[trigger] u[j] == tx[j] ^ s[j] by {
            let a = tx[j];
            if j < n {
                assert(a ^ 0u8 == a) by (bit_vector);
            } else if j == n {
                let r0 = rem[0];
                assert(r0 ^ (b ^ r0) == b) by (bit_vector);
            } else {
                assert(u[j] == rs_remainder(data, k)[j - n - 1]);
            }
        }
        lemma_eval_sum(tx, s, u, x);
    }
}

/// Creates the error correction codewords of a block of data codewords.
pub fn create_error_correction_code(data: &[u8], ec_code_size: usize) -> (res: Vec<u8>)
    requires
        ec_code_size < usize::MAX,
    ensures
        res@ == rs_remainder(data@, ec_code_size as nat),
{
    let gen = generator_polynomial(ec_code_size);
    proof {
        lemma_generator_shape(ec_code_size as nat);
    }
    let mut rem: Vec<u8> = Vec::new();
    let mut j: usize = 0;
    while j < ec_code_size
        invariant
            j <= ec_code_size,
            rem@ =~= zeros(j as nat),
        decreases ec_code_size - j,
    {
        rem.push(0);
        j += 1;
    }
    let mut i: usize = 0;
    assert(data@.take(0) =~= Seq::<u8>::empty());
    while i < data.len()
        invariant
            i <= data.len(),
            ec_code_size < usize::MAX,
            gen@ == generator(ec_code_size as nat),
            gen.len() == ec_code_size + 1,
            rem.len() == ec_code_size,
            rem@ == rs_remainder(data@.take(i as int), ec_code_size as nat),
        decreases data.len() - i,
    {
        let b = data[i];
        let ghost step = rs_step(rem@, b, gen@);
        let mut next: Vec<u8> = Vec::new();
        let mut t: usize = 0;
        while t < ec_code_size
            invariant
                t <= ec_code_size,
                ec_code_size < usize::MAX,
                gen.len() == ec_code_size + 1,
                rem.len() == ec_code_size,
                step == rs_step(rem@, b, gen@),
                next@ =~= step.take(t as int),
            decreases ec_code_size - t,
        {
            let carry: u8 = if t + 1 < ec_code_size {
                rem[t + 1]
            } else {
                0
            };
            let f = b ^ rem[0];
            next.push(carry ^ multiply(f, gen[t + 1]));
            t += 1;
        }
        proof {
            assert(next@ =~= step);
            assert(data@.take(i + 1).drop_last() =~= data@.take(i as int));
            assert(data@.take(i + 1).last() == b);
        }
        rem = next;
        i += 1;
    }
    assert(data@.take(data.len() as int) =~= data@);
    rem
}

//------------------------------------------------------------------------------
// Interleave support
/// The data codewords of each block: the data is cut into the blocks of the
/// first group and then those of the second.
pub open spec fn data_blocks(data: Seq<u8>, layout: BlockLayout) -> Seq<Seq<u8>> {
    Seq::new(
        layout.blocks() as nat,
        |i: int| data.subrange(layout.block_start(i), layout.block_start(i) + layout.block_size(i)),
    )
}

/// The error correction codewords of each block.
pub open spec fn ec_blocks(data: Seq<u8>, layout: BlockLayout) -> Seq<Seq<u8>> {
    Seq::new(
        layout.blocks() as nat,
        |i: int| rs_remainder(data_blocks(data, layout)[i], layout.ec_len as nat),
    )
}

/// The codewords at position `c` of the first `b` blocks, in the order of the
/// blocks; a block shorter than that has none.
pub open spec fn column(blocks: Seq<Seq<u8>>, c: int, b: nat) -> Seq<u8>
    decreases b,
{
    if b == 0 {
        Seq::empty()
    } else {
        let before = column(blocks, c, (b - 1) as nat);
        if c < blocks[b - 1].len() {
            before.push(blocks[b - 1][c])
        } else {
            before
        }
    }
}

/// The codewords at the first `c` positions of all blocks, position by
/// position.
pub open spec fn interleaved_rows(blocks: Seq<Seq<u8>>, c: nat) -> Seq<u8>
    decreases c,
{
    if c == 0 {
        Seq::empty()
    } else {
        interleaved_rows(blocks, (c - 1) as nat) + column(blocks, c - 1, blocks.len())
    }
}

/// The codewords of the blocks in the order in which they are placed in the
/// symbol: the first codeword of every block, then the second of every
/// block, and so on up to the length of the last block, which is the
/// longest.
pub open spec fn interleaved(blocks: Seq<Seq<u8>>) -> Seq<u8> {
    if blocks.len() == 0 {
        Seq::empty()
    } else {
        interleaved_rows(blocks, blocks.last().len())
    }
}

/// The contents of a list of blocks.
pub open spec fn block_views(blocks: Seq<Vec<u8>>) -> Seq<Seq<u8>> {
    Seq::new(blocks.len(), |i: int| blocks[i]@)
}

/// Interleaves the codewords of the blocks.
pub fn interleave(blocks: &Vec<Vec<u8>>) -> (res: Vec<u8>)
    ensures
        res@ == interleaved(block_views(blocks@)),
        blocks.len() > 0 ==> res.len() <= blocks@.last().len() * blocks.len(),
        blocks.len() == 0 ==> res.len() == 0,
{
    let n = blocks.len();
    let mut res: Vec<u8> = Vec::new();
    if n == 0 {
        return res;
    }
    let ghost views = block_views(blocks@);
    let rows = blocks[n - 1].len();
    let mut c: usize = 0;
    while c < rows
        invariant
            c <= rows,
            n == blocks.len(),
            views == block_views(blocks@),
            res@ == interleaved_rows(views, c as nat),
            res.len() <= c * n,
        decreases rows - c,
    {
        let ghost start = res@;
        let mut b: usize = 0;
        while b < n
            invariant
                b <= n,
                c < rows,
                n == blocks.len(),
                views == block_views(blocks@),
                res@ == start + column(views, c as int, b as nat),
                res.len() <= c * n + b,
            decreases n - b,
        {
            if c < blocks[b].len() {
                res.push(blocks[b][c]);
                assert(res@ =~= start + column(views, c as int, (b + 1) as nat));
            }
            b += 1;
        }
        proof {
            assert(c * n + n == (c + 1) * n) by (nonlinear_arith);
        }
        c += 1;
    }
    proof {
        assert(c * n <= rows * n) by (nonlinear_arith)
            requires
                c <= rows,
        ;
    }
    res
}

//------------------------------------------------------------------------------
// QR code error correction
/// The blocks of a layout follow one another in the data and fill it.
pub proof fn lemma_block_bounds(layout: BlockLayout, i: int)
    requires
        0 <= i < layout.blocks(),
    ensures
        0 <= layout.block_start(i),
        layout.block_start(i + 1) == layout.block_start(i) + layout.block_size(i),
        layout.block_start(i + 1) <= layout.data_len(),
        layout.block_start(layout.blocks()) == layout.data_len(),
{
    let s1 = layout.size1 as int;
    let c1 = layout.count1 as int;
    let s2 = layout.size2 as int;
    let c2 = layout.count2 as int;
    assert(s1 * (i + 1) == s1 * i + s1) by (nonlinear_arith);
    assert(s2 * (i + 1 - c1) == s2 * (i - c1) + s2) by (nonlinear_arith);
    assert(s2 * (c1 - c1) == 0) by (nonlinear_arith);
    assert(0 <= s1 * i) by (nonlinear_arith)
        requires
            0 <= s1,
            0 <= i,
    ;
    assert(0 <= s2 * c2) by (nonlinear_arith)
        requires
            0 <= s2,
            0 <= c2,
    ;
    if i < c1 {
        assert(s1 * (i + 1) <= s1 * c1) by (nonlinear_arith)
            requires
                0 <= s1,
                i + 1 <= c1,
        ;
    } else {
        assert(0 <= s2 * (i - c1)) by (nonlinear_arith)
            requires
                0 <= s2,
                0 <= i - c1,
        ;
        assert(s2 * (i + 1 - c1) <= s2 * c2) by (nonlinear_arith)
            requires
                0 <= s2,
                i + 1 - c1 <= c2,
        ;
    }
}

/// Constructs data and error correction codewords ready to be put in the QR
/// code matrix.
///
/// The data must hold exactly the data codewords of the version at the
/// level.
pub fn construct_codewords(rawbits: &[u8], version: Version, ec_level: EcLevel) -> (r: QrResult<
    (Vec<u8>, Vec<u8>),
>)
    requires
        spec_block_layout(version, ec_level) is Ok ==> rawbits.len() == spec_block_layout(
            version,
            ec_level,
        )->Ok_0.data_len(),
    ensures
        match spec_block_layout(version, ec_level) {
            Ok(layout) => {
                &&& r is Ok
                &&& r->Ok_0.0@ == interleaved(data_blocks(rawbits@, layout))
                &&& r->Ok_0.1@ == interleaved(ec_blocks(rawbits@, layout))
                &&& r->Ok_0.0.len() <= 130050
                &&& r->Ok_0.1.len() <= 130050
            },
            Err(e) => r is Err && r->Err_0 == e,
        },
{
    let layout = match block_layout(version, ec_level) {
        Ok(layout) => layout,
        Err(e) => {
            return Err(e);
        },
    };
    let blocks_count = layout.count1 + layout.count2;
    let ghost expected = data_blocks(rawbits@, layout);
    let ghost expected_ec = ec_blocks(rawbits@, layout);

    // Divide the data into blocks and generate the error correction codes.
    let mut blocks: Vec<Vec<u8>> = Vec::new();
    let mut ec_codes: Vec<Vec<u8>> = Vec::new();
    let mut start: usize = 0;
    let mut i: usize = 0;
    while i < blocks_count
        invariant
            i <= blocks_count,
            blocks_count == layout.blocks(),
            layout.is_small(),
            rawbits.len() == layout.data_len(),
            start == layout.block_start(i as int),
            start <= rawbits.len(),
            expected == data_blocks(rawbits@, layout),
            expected_ec == ec_blocks(rawbits@, layout),
            blocks.len() == i,
            ec_codes.len() == i,
            block_views(blocks@) =~= expected.take(i as int),
            block_views(ec_codes@) =~= expected_ec.take(i as int),
        decreases blocks_count - i,
    {
        let size = if i < layout.count1 {
            layout.size1
        } else {
            layout.size2
        };
        proof {
            lemma_block_bounds(layout, i as int);
        }
        let mut block: Vec<u8> = Vec::new();
        let mut t: usize = 0;
        while t < size
            invariant
                t <= size,
                start + size <= rawbits.len(),
                block@ =~= rawbits@.subrange(start as int, start + t),
            decreases size - t,
        {
            block.push(rawbits[start + t]);
            t += 1;
        }
        let ec = create_error_correction_code(block.as_slice(), layout.ec_len);
        let ghost old_blocks = blocks@;
        let ghost old_ec_codes = ec_codes@;
        proof {
            assert(block@ == expected[i as int]);
            assert(ec@ == expected_ec[i as int]);
        }
        blocks.push(block);
        ec_codes.push(ec);
        proof {
            assert forall|j: int| 0 <= j < i + 1 implies block_views(blocks@)[j] == expected.take(
                i + 1,
            )[j] by {
                if j < i {
                    assert(block_views(old_blocks)[j] == expected.take(i as int)[j]);
                }
            }
            assert forall|j: int| 0 <= j < i + 1 implies block_views(ec_codes@)[j]
                == expected_ec.take(i + 1)[j] by {
                if j < i {
                    assert(block_views(old_ec_codes)[j] == expected_ec.take(i as int)[j]);
                }
            }
        }
        start += size;
        i += 1;
    }
    proof {
        assert(block_views(blocks@) =~= expected);
        assert(block_views(ec_codes@) =~= expected_ec);
    }
    let blocks_vec = interleave(&blocks);
    let ec_vec = interleave(&ec_codes);
    proof {
        if blocks.len() > 0 {
            let last = blocks_count - 1;
            assert(blocks@.last()@ == expected[last]);
            assert(ec_codes@.last()@ == expected_ec[last]);
            lemma_remainder_len(expected[last], layout.ec_len as nat);
            lemma_block_bounds(layout, last as int);
            assert(expected[last].len() == layout.block_size(last as int));
            let rows = blocks@.last().len();
            let ec_rows = ec_codes@.last().len();
            assert(rows * blocks_count <= 255 * 510) by (nonlinear_arith)
                requires
                    rows <= 255,
                    blocks_count <= 510,
            ;
            assert(ec_rows * blocks_count <= 255 * 510) by (nonlinear_arith)
                requires
                    ec_rows <= 255,
                    blocks_count <= 510,
            ;
        }
    }
    Ok((blocks_vec, ec_vec))
}

/// Computes the maximum allowed number of erratic modules can be introduced to
/// the QR code, before the data becomes truly corrupted: half the number of
/// error correction codewords of a block.
pub fn max_allowed_errors(version: Version, ec_level: EcLevel) -> (r: QrResult<usize>)
    ensures
        match spec_block_layout(version, ec_level) {
            Ok(layout) => r == Ok::<usize, QrError>((layout.ec_len / 2) as usize),
            Err(e) => r == Err::<usize, QrError>(e),
        },
{
    match ec_codewords_per_block(version, ec_level) {
        Ok(ec_len) => Ok(ec_len / 2),
        Err(e) => Err(e),
    }
}

/// Every block of a symbol, followed by its error correction codewords,
/// vanishes at the roots of the generator polynomial.
pub proof fn lemma_blocks_are_codewords(data: Seq<u8>, layout: BlockLayout, b: int, i: nat)
    requires
        0 <= b < layout.blocks(),
        i < layout.ec_len,
    ensures
        eval(data_blocks(data, layout)[b] + ec_blocks(data, layout)[b], alpha_pow(i)) == 0,
{
    lemma_codeword_roots(data_blocks(data, layout)[b], layout.ec_len as nat, i);
}

} // verus!
