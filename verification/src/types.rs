//! The types shared by every stage of the encoder: errors, module colours,
//! error correction levels, symbol versions and data modes.

use core::cmp::Ordering;
use vstd::prelude::*;
use vstd::std_specs::cmp::PartialOrdSpecImpl;

verus! {

//------------------------------------------------------------------------------
// QrResult
/// `QrError` encodes the error encountered when generating a QR code.
#[derive(Debug, PartialEq, Eq, Copy, Clone, Structural)]
pub enum QrError {
    /// The data is too long to encode into a QR code for the given version.
    DataTooLong,
    /// The provided version / error correction level combination is invalid.
    InvalidVersion,
    /// Some characters in the data cannot be supported by the provided QR code
    /// version.
    UnsupportedCharacterSet,
    /// The provided ECI designator is invalid. A valid designator should be
    /// between 0 and 999999.
    InvalidEciDesignator,
    /// A character not belonging to the character set is found.
    InvalidCharacter,
}

impl QrError {
    /// A short description of the error.
    pub fn message(self) -> (msg: &'static str)
        ensures
            msg@ == match self {
                QrError::DataTooLong => "data too long"@,
                QrError::InvalidVersion => "invalid version"@,
                QrError::UnsupportedCharacterSet => "unsupported character set"@,
                QrError::InvalidEciDesignator => "invalid ECI designator"@,
                QrError::InvalidCharacter => "invalid character"@,
            },
    {
        match self {
            QrError::DataTooLong => "data too long",
            QrError::InvalidVersion => "invalid version",
            QrError::UnsupportedCharacterSet => "unsupported character set",
            QrError::InvalidEciDesignator => "invalid ECI designator",
            QrError::InvalidCharacter => "invalid character",
        }
    }
}

/// `QrResult` is a convenient alias for a QR code generation result.
pub type QrResult<T> = Result<T, QrError>;

//------------------------------------------------------------------------------
// Color
/// The color of a module.
#[derive(Copy, Clone, PartialEq, Eq, Hash, Debug, Structural)]
pub enum Color {
    /// The module is light colored.
    Light,
    /// The module is dark colored.
    Dark,
}

impl Color {
    /// Selects a value according to color of the module: `dark` for a dark
    /// module, `light` for a light one.
    pub fn select<T>(self, dark: T, light: T) -> (r: T)
        ensures
            r == if self == Color::Dark {
                dark
            } else {
                light
            },
    {
        match self {
            Color::Light => light,
            Color::Dark => dark,
        }
    }

    /// The opposite colour.
    pub open spec fn inverted(self) -> Color {
        match self {
            Color::Light => Color::Dark,
            Color::Dark => Color::Light,
        }
    }

    /// The colour that stands for a bit: dark for one, light for zero.
    pub open spec fn of_bit(bit: bool) -> Color {
        if bit {
            Color::Dark
        } else {
            Color::Light
        }
    }

    /// Whether the module is dark.
    pub open spec fn is_dark(self) -> bool {
        self == Color::Dark
    }

    /// Turns a bit into a colour: dark for one, light for zero.
    pub fn from_bit(bit: bool) -> (r: Color)
        ensures
            r == Color::of_bit(bit),
    {
        if bit {
            Color::Dark
        } else {
            Color::Light
        }
    }

    /// Returns the opposite colour.
    pub fn invert(self) -> (r: Color)
        ensures
            r == self.inverted(),
    {
        match self {
            Color::Light => Color::Dark,
            Color::Dark => Color::Light,
        }
    }
}

impl core::ops::Not for Color {
    type Output = Color;

    /// The opposite colour.
    fn not(self) -> (r: Color) {
        self.invert()
    }
}

impl vstd::std_specs::ops::NotSpecImpl for Color {
    open spec fn obeys_not_spec() -> bool {
        true
    }

    open spec fn not_req(self) -> bool {
        true
    }

    open spec fn not_spec(self) -> Color {
        self.inverted()
    }
}

//------------------------------------------------------------------------------
// Error correction level
/// The error correction level. It allows the encoded information to be
/// recovered even if parts of the code are damaged.
#[derive(Debug, PartialEq, Eq, Copy, Clone, PartialOrd, Ord, Structural)]
pub enum EcLevel {
    /// Low error correction. Allows up to 7% of wrong blocks.
    L,
    /// Medium error correction (default). Allows up to 15% of wrong blocks.
    M,
    /// "Quartile" error correction. Allows up to 25% of wrong blocks.
    Q,
    /// High error correction. Allows up to 30% of wrong blocks.
    H,
}

impl EcLevel {
    /// The position of the level in the order L, M, Q, H, which is the column
    /// of the level in every table.
    pub open spec fn index(self) -> int {
        match self {
            EcLevel::L => 0,
            EcLevel::M => 1,
            EcLevel::Q => 2,
            EcLevel::H => 3,
        }
    }

    /// Returns the column of the level in every table.
    pub fn ordinal(self) -> (r: usize)
        ensures
            r == self.index(),
    {
        match self {
            EcLevel::L => 0,
            EcLevel::M => 1,
            EcLevel::Q => 2,
            EcLevel::H => 3,
        }
    }
}

//------------------------------------------------------------------------------
// Version
/// In QR code terminology, `Version` means the size of the generated image.
/// Larger version means the size of code is larger, and therefore can carry
/// more information.
///
/// The smallest version is `Version::Normal(1)` of size 21×21, and the largest
/// is `Version::Normal(40)` of size 177×177.
#[derive(Debug, PartialEq, Eq, Copy, Clone, Structural)]
pub enum Version {
    /// A normal QR code version. The parameter should be between 1 and 40.
    Normal(i16),
    /// A Micro QR code version. The parameter should be between 1 and 4.
    Micro(i16),
    /// A rMQR code version. The first parameter represents the height and
    /// should be 7, 9, 11, 13, 15, or 17. The second parameter represents the
    /// width and should be 27, 43, 59, 77, 99, or 139. 27 can only be used with
    /// 11, or 13.
    RectMicro(i16, i16),
}

/// The position of a height among the heights of rMQR symbols.
pub open spec fn rect_micro_height_rank(h: int) -> Option<int> {
    if h == 7 {
        Some(0)
    } else if h == 9 {
        Some(1)
    } else if h == 11 {
        Some(2)
    } else if h == 13 {
        Some(3)
    } else if h == 15 {
        Some(4)
    } else if h == 17 {
        Some(5)
    } else {
        None
    }
}

/// The position of a width among the widths of rMQR symbols.
pub open spec fn rect_micro_width_rank(w: int) -> Option<int> {
    if w == 27 {
        Some(0)
    } else if w == 43 {
        Some(1)
    } else if w == 59 {
        Some(2)
    } else if w == 77 {
        Some(3)
    } else if w == 99 {
        Some(4)
    } else if w == 139 {
        Some(5)
    } else {
        None
    }
}

impl Version {
    /// The version names a symbol that exists: a QR code of version 1 to 40,
    /// a Micro QR code of version 1 to 4, or an rMQR code of a listed size.
    pub open spec fn is_valid(self) -> bool {
        match self {
            Version::Normal(v) => 1 <= v <= 40,
            Version::Micro(v) => 1 <= v <= 4,
            Version::RectMicro(..) => self.spec_rect_micro_index().is_some(),
        }
    }

    /// The version is one that the encoder has tables for: a QR code of
    /// version 1 to 40 or a Micro QR code of version 1 to 4.
    pub open spec fn is_supported(self) -> bool {
        match self {
            Version::Normal(v) => 1 <= v <= 40,
            Version::Micro(v) => 1 <= v <= 4,
            Version::RectMicro(..) => false,
        }
    }

    /// The width can be computed in 16 bits.
    pub open spec fn width_fits(self) -> bool {
        match self {
            Version::Normal(v) => -8192 <= v <= 8187,
            Version::Micro(v) => -16384 <= v <= 16379,
            Version::RectMicro(..) => true,
        }
    }

    /// The number of modules in a row of the symbol.
    pub open spec fn spec_width(self) -> int {
        match self {
            Version::Normal(v) => v * 4 + 17,
            Version::Micro(v) => v * 2 + 9,
            Version::RectMicro(_, w) => w as int,
        }
    }

    /// The number of modules in a column of the symbol.
    pub open spec fn spec_height(self) -> int {
        match self {
            Version::RectMicro(h, _) => h as int,
            _ => self.spec_width(),
        }
    }

    /// The row of the version in a table of all versions: QR codes first,
    /// then Micro QR codes, then rMQR codes ordered by height and width.
    pub open spec fn table_index(self) -> Option<int> {
        match self {
            Version::Normal(v) => if 1 <= v <= 40 {
                Some(v - 1)
            } else {
                None
            },
            Version::Micro(v) => if 1 <= v <= 4 {
                Some(v + 39)
            } else {
                None
            },
            Version::RectMicro(..) => match self.spec_rect_micro_index() {
                Some(i) => Some(i + 44),
                None => None,
            },
        }
    }

    /// The position of an rMQR version among the 32 rMQR sizes, ordered by
    /// height and then by width. The width 27 exists only for the heights 11
    /// and 13.
    pub open spec fn spec_rect_micro_index(self) -> Option<int> {
        match self {
            Version::RectMicro(h, w) => match (
                rect_micro_height_rank(h as int),
                rect_micro_width_rank(w as int),
            ) {
                (Some(r), Some(c)) => if r == 2 {
                    Some(10 + c)
                } else if r == 3 {
                    Some(16 + c)
                } else if c == 0 {
                    None
                } else if r == 0 {
                    Some(c - 1)
                } else if r == 1 {
                    Some(4 + c)
                } else if r == 4 {
                    Some(21 + c)
                } else {
                    Some(26 + c)
                },
                _ => None,
            },
            _ => None,
        }
    }

    /// The number of bits of the mode indicator.
    pub open spec fn spec_mode_bits_count(self) -> int {
        match self {
            Version::Normal(_) => 4,
            Version::Micro(a) => a - 1,
            Version::RectMicro(..) => 3,
        }
    }

    /// Gets the number of horizontally-arranged "modules" on each size of the
    /// QR code, i.e. the width of the code.
    ///
    /// Except for rMQR code, the width is the same as the height.
    pub fn width(self) -> (r: i16)
        requires
            self.width_fits(),
        ensures
            r == self.spec_width(),
    {
        match self {
            Version::Normal(v) => v * 4 + 17,
            Version::Micro(v) => v * 2 + 9,
            Version::RectMicro(_, w) => w,
        }
    }

    /// Gets the number of vertically-arranged "modules" on each size of the QR
    /// code, i.e. the height of the code.
    ///
    /// Except for rMQR code, the height is the same as the width.
    pub fn height(self) -> (r: i16)
        requires
            self.width_fits(),
        ensures
            r == self.spec_height(),
    {
        if let Version::RectMicro(h, _) = self {
            h
        } else {
            self.width()
        }
    }

    /// Obtains an object from a hard-coded table.
    ///
    /// The table has one row for each version: the first 40 rows correspond
    /// to QR code versions 1 to 40, the next 4 to Micro QR code versions 1 to
    /// 4, and the last 32 to rMQR codes. Each row holds one entry for each
    /// error correction level, in the order L, M, Q, H. An entry is a flag
    /// and a value; the flag is `false` where the version does not exist at
    /// that level.
    ///
    /// Returns `Err(QrError::InvalidVersion)` if the version is not one of
    /// these, if the table has no row for it, or if the flag of its entry is
    /// `false`.
    pub fn fetch<T: Copy>(self, ec_level: EcLevel, table: &[[(bool, T); 4]]) -> (r: QrResult<T>)
        ensures
            r == Version::spec_fetch(self, ec_level, table@),
    {
        let row = match self {
            Version::Normal(v) => {
                if 1 <= v && v <= 40 {
                    (v - 1) as usize
                } else {
                    return Err(QrError::InvalidVersion);
                }
            },
            Version::Micro(v) => {
                if 1 <= v && v <= 4 {
                    (v + 39) as usize
                } else {
                    return Err(QrError::InvalidVersion);
                }
            },
            Version::RectMicro(..) => {
                match self.rect_micro_index() {
                    Ok(index) => index + 44,
                    Err(_) => {
                        return Err(QrError::InvalidVersion);
                    },
                }
            },
        };
        if row >= table.len() {
            return Err(QrError::InvalidVersion);
        }
        let (present, obj) = table[row][ec_level.ordinal()];
        if present {
            Ok(obj)
        } else {
            Err(QrError::InvalidVersion)
        }
    }

    /// The entry of a table for a version and a level, or `InvalidVersion`
    /// where there is none.
    pub open spec fn spec_fetch<T>(self, ec_level: EcLevel, table: Seq<[(bool, T); 4]>) -> QrResult<
        T,
    > {
        match self.table_index() {
            Some(row) => if row < table.len() {
                if table[row][ec_level.index()].0 {
                    Ok(table[row][ec_level.index()].1)
                } else {
                    Err(QrError::InvalidVersion)
                }
            } else {
                Err(QrError::InvalidVersion)
            },
            None => Err(QrError::InvalidVersion),
        }
    }

    /// Tells whether the encoder has tables for the version.
    pub fn supported(self) -> (r: bool)
        ensures
            r == self.is_supported(),
    {
        match self {
            Version::Normal(v) => 1 <= v && v <= 40,
            Version::Micro(v) => 1 <= v && v <= 4,
            Version::RectMicro(..) => false,
        }
    }

    /// The number of bits needed to encode the mode indicator.
    pub fn mode_bits_count(self) -> (r: usize)
        requires
            self is Micro ==> self.is_valid(),
        ensures
            r == self.spec_mode_bits_count(),
    {
        match self {
            Version::Normal(_) => 4,
            Version::Micro(a) => (a - 1) as usize,
            Version::RectMicro(..) => 3,
        }
    }

    /// Checks whether is version refers to a normal QR code.
    pub fn is_normal(self) -> (r: bool)
        ensures
            r == (self is Normal),
    {
        matches!(self, Version::Normal(_))
    }

    /// Checks whether is version refers to a Micro QR code.
    pub fn is_micro(self) -> (r: bool)
        ensures
            r == (self is Micro),
    {
        matches!(self, Version::Micro(_))
    }

    /// Checks whether is version refers to a rMQR code.
    pub fn is_rect_micro(self) -> (r: bool)
        ensures
            r == self.spec_rect_micro_index().is_some(),
    {
        self.rect_micro_index().is_ok()
    }

    /// Gets the index of the version of the rMQR code.
    pub fn rect_micro_index(self) -> (r: QrResult<usize>)
        ensures
            match self.spec_rect_micro_index() {
                Some(i) => r == Ok::<usize, QrError>(i as usize) && 0 <= i < 32,
                None => r == Err::<usize, QrError>(QrError::InvalidVersion),
            },
    {
        match self {
            Version::RectMicro(7, 43) => Ok(0),
            Version::RectMicro(7, 59) => Ok(1),
            Version::RectMicro(7, 77) => Ok(2),
            Version::RectMicro(7, 99) => Ok(3),
            Version::RectMicro(7, 139) => Ok(4),
            Version::RectMicro(9, 43) => Ok(5),
            Version::RectMicro(9, 59) => Ok(6),
            Version::RectMicro(9, 77) => Ok(7),
            Version::RectMicro(9, 99) => Ok(8),
            Version::RectMicro(9, 139) => Ok(9),
            Version::RectMicro(11, 27) => Ok(10),
            Version::RectMicro(11, 43) => Ok(11),
            Version::RectMicro(11, 59) => Ok(12),
            Version::RectMicro(11, 77) => Ok(13),
            Version::RectMicro(11, 99) => Ok(14),
            Version::RectMicro(11, 139) => Ok(15),
            Version::RectMicro(13, 27) => Ok(16),
            Version::RectMicro(13, 43) => Ok(17),
            Version::RectMicro(13, 59) => Ok(18),
            Version::RectMicro(13, 77) => Ok(19),
            Version::RectMicro(13, 99) => Ok(20),
            Version::RectMicro(13, 139) => Ok(21),
            Version::RectMicro(15, 43) => Ok(22),
            Version::RectMicro(15, 59) => Ok(23),
            Version::RectMicro(15, 77) => Ok(24),
            Version::RectMicro(15, 99) => Ok(25),
            Version::RectMicro(15, 139) => Ok(26),
            Version::RectMicro(17, 43) => Ok(27),
            Version::RectMicro(17, 59) => Ok(28),
            Version::RectMicro(17, 77) => Ok(29),
            Version::RectMicro(17, 99) => Ok(30),
            Version::RectMicro(17, 139) => Ok(31),
            _ => Err(QrError::InvalidVersion),
        }
    }

    /// Gets the index in ascending order of width.
    pub fn rect_micro_width_index(self) -> (r: QrResult<usize>)
        ensures
            match self {
                Version::RectMicro(_, w) => match rect_micro_width_rank(w as int) {
                    Some(i) => r == Ok::<usize, QrError>(i as usize),
                    None => r == Err::<usize, QrError>(QrError::InvalidVersion),
                },
                _ => r == Err::<usize, QrError>(QrError::InvalidVersion),
            },
    {
        match self {
            Version::RectMicro(_, 27) => Ok(0),
            Version::RectMicro(_, 43) => Ok(1),
            Version::RectMicro(_, 59) => Ok(2),
            Version::RectMicro(_, 77) => Ok(3),
            Version::RectMicro(_, 99) => Ok(4),
            Version::RectMicro(_, 139) => Ok(5),
            _ => Err(QrError::InvalidVersion),
        }
    }
}

//------------------------------------------------------------------------------
// Mode indicator
/// The mode indicator, which specifies the character set of the encoded data.
#[derive(Debug, PartialEq, Eq, Copy, Clone, Structural)]
pub enum Mode {
    /// The data contains only characters 0 to 9.
    Numeric,
    /// The data contains only uppercase letters (A–Z), numbers (0–9) and a few
    /// punctuations marks (space, `$`, `%`, `*`, `+`, `-`, `.`, `/`, `:`).
    Alphanumeric,
    /// The data contains arbitrary binary data.
    Byte,
    /// The data contains Shift-JIS-encoded double-byte text.
    Kanji,
}

/// How two modes relate in the partial order of modes.
#[derive(Debug, PartialEq, Eq, Copy, Clone, Structural)]
pub enum ModeOrder {
    /// The first mode supports fewer characters than the second.
    Less,
    /// The two modes are the same.
    Equal,
    /// The first mode supports more characters than the second.
    Greater,
    /// Neither mode supports all characters of the other.
    Incomparable,
}

/// The number of bits of the character count of each mode in each rMQR
/// version, in the order Numeric, Alphanumeric, Byte, Kanji.
pub const RMQR_LENGTH_BITS_COUNT: [[usize; 4]; 32] = [
    [4, 3, 3, 2],  // R7x43
    [5, 5, 4, 3],  // R7x59
    [6, 5, 5, 4],  // R7x77
    [7, 6, 5, 5],  // R7x99
    [7, 6, 6, 5],  // R7x139
    [5, 5, 4, 3],  // R9x43
    [6, 5, 5, 4],  // R9x59
    [7, 6, 5, 5],  // R9x77
    [7, 6, 6, 5],  // R9x99
    [8, 7, 6, 6],  // R9x139
    [4, 4, 3, 2],  // R11x27
    [6, 5, 5, 4],  // R11x43
    [7, 6, 5, 5],  // R11x59
    [7, 6, 6, 5],  // R11x77
    [8, 7, 6, 6],  // R11x99
    [8, 7, 7, 6],  // R11x139
    [5, 5, 4, 3],  // R13x27
    [6, 6, 5, 5],  // R13x43
    [7, 6, 6, 5],  // R13x59
    [7, 7, 6, 6],  // R13x77
    [8, 7, 7, 6],  // R13x99
    [8, 8, 7, 7],  // R13x139
    [7, 6, 6, 5],  // R15x43
    [7, 7, 6, 5],  // R15x59
    [8, 7, 7, 6],  // R15x77
    [8, 7, 7, 6],  // R15x99
    [9, 8, 7, 7],  // R15x139
    [7, 6, 6, 5],  // R17x43
    [8, 7, 6, 6],  // R17x59
    [8, 7, 7, 6],  // R17x77
    [8, 8, 7, 6],  // R17x99
    [9, 8, 8, 7],  // R17x139
];

impl Mode {
    /// The column of the mode in a table of modes.
    pub open spec fn index(self) -> int {
        match self {
            Mode::Numeric => 0,
            Mode::Alphanumeric => 1,
            Mode::Byte => 2,
            Mode::Kanji => 3,
        }
    }

    /// The number of bits of the character count of a segment.
    pub open spec fn spec_length_bits_count(self, version: Version) -> int {
        match version {
            Version::Micro(a) => match self {
                Mode::Numeric => 2 + a,
                Mode::Alphanumeric | Mode::Byte => 1 + a,
                Mode::Kanji => a as int,
            },
            Version::Normal(v) => if 1 <= v <= 9 {
                match self {
                    Mode::Numeric => 10,
                    Mode::Alphanumeric => 9,
                    Mode::Byte | Mode::Kanji => 8,
                }
            } else if 10 <= v <= 26 {
                match self {
                    Mode::Numeric => 12,
                    Mode::Alphanumeric => 11,
                    Mode::Byte => 16,
                    Mode::Kanji => 10,
                }
            } else {
                match self {
                    Mode::Numeric => 14,
                    Mode::Alphanumeric => 13,
                    Mode::Byte => 16,
                    Mode::Kanji => 12,
                }
            },
            Version::RectMicro(..) => {
                let row = match version.spec_rect_micro_index() {
                    Some(i) => i,
                    None => 31,
                };
                RMQR_LENGTH_BITS_COUNT[row][self.index()] as int
            },
        }
    }

    /// The number of bits that the characters of a segment take.
    pub open spec fn spec_data_bits_count(self, raw_data_len: int) -> int {
        match self {
            Mode::Numeric => (raw_data_len * 10 + 2) / 3,
            Mode::Alphanumeric => (raw_data_len * 11 + 1) / 2,
            Mode::Byte => raw_data_len * 8,
            Mode::Kanji => raw_data_len * 13,
        }
    }

    /// `self` supports every character that `other` supports.
    pub open spec fn includes(self, other: Mode) -> bool {
        self == other || self == Mode::Byte || (self == Mode::Alphanumeric && other
            == Mode::Numeric)
    }

    /// The narrowest mode that includes both modes.
    pub open spec fn join(self, other: Mode) -> Mode {
        if self.includes(other) {
            self
        } else if other.includes(self) {
            other
        } else {
            Mode::Byte
        }
    }

    /// How `self` relates to `other`.
    pub open spec fn spec_compare(self, other: Mode) -> ModeOrder {
        if self == other {
            ModeOrder::Equal
        } else if other.includes(self) {
            ModeOrder::Less
        } else if self.includes(other) {
            ModeOrder::Greater
        } else {
            ModeOrder::Incomparable
        }
    }

    /// Computes the number of bits needed to encode the data length.
    ///
    /// In a Micro QR code the count grows with the version; a mode that the
    /// version does not support still has a count here.
    pub fn length_bits_count(self, version: Version) -> (r: usize)
        requires
            version is Micro ==> version.is_valid(),
        ensures
            r == self.spec_length_bits_count(version),
    {
        match version {
            Version::Micro(a) => {
                let a = a as usize;
                match self {
                    Mode::Numeric => 2 + a,
                    Mode::Alphanumeric | Mode::Byte => 1 + a,
                    Mode::Kanji => a,
                }
            },
            Version::Normal(1..=9) => match self {
                Mode::Numeric => 10,
                Mode::Alphanumeric => 9,
                Mode::Byte | Mode::Kanji => 8,
            },
            Version::Normal(10..=26) => match self {
                Mode::Numeric => 12,
                Mode::Alphanumeric => 11,
                Mode::Byte => 16,
                Mode::Kanji => 10,
            },
            Version::Normal(_) => match self {
                Mode::Numeric => 14,
                Mode::Alphanumeric => 13,
                Mode::Byte => 16,
                Mode::Kanji => 12,
            },
            Version::RectMicro(..) => {
                let index = match version.rect_micro_index() {
                    Ok(i) => i,
                    Err(_) => 31,
                };
                match self {
                    Mode::Numeric => RMQR_LENGTH_BITS_COUNT[index][0],
                    Mode::Alphanumeric => RMQR_LENGTH_BITS_COUNT[index][1],
                    Mode::Byte => RMQR_LENGTH_BITS_COUNT[index][2],
                    Mode::Kanji => RMQR_LENGTH_BITS_COUNT[index][3],
                }
            },
        }
    }

    /// Computes the number of bits needed to some data of a given raw length.
    ///
    /// Note that in Kanji mode, the `raw_data_len` is the number of Kanjis,
    /// i.e. half the total size of bytes.
    pub fn data_bits_count(self, raw_data_len: usize) -> (r: usize)
        requires
            raw_data_len * 13 + 2 <= usize::MAX,
        ensures
            r == self.spec_data_bits_count(raw_data_len as int),
    {
        match self {
            Mode::Numeric => (raw_data_len * 10 + 2) / 3,
            Mode::Alphanumeric => (raw_data_len * 11 + 1) / 2,
            Mode::Byte => raw_data_len * 8,
            Mode::Kanji => raw_data_len * 13,
        }
    }

    /// Tells how `self` relates to `other` in the partial order of modes:
    /// `Numeric` is below `Alphanumeric`, every mode is below `Byte`, and
    /// `Kanji` is comparable to `Byte` only.
    pub fn compare(self, other: Mode) -> (r: ModeOrder)
        ensures
            r == self.spec_compare(other),
    {
        match (self, other) {
            (Mode::Numeric, Mode::Numeric) | (Mode::Alphanumeric, Mode::Alphanumeric) | (
                Mode::Byte,
                Mode::Byte,
            ) | (Mode::Kanji, Mode::Kanji) => ModeOrder::Equal,
            (Mode::Numeric, Mode::Alphanumeric) | (_, Mode::Byte) => ModeOrder::Less,
            (Mode::Alphanumeric, Mode::Numeric) | (Mode::Byte, _) => ModeOrder::Greater,
            _ => ModeOrder::Incomparable,
        }
    }

    /// Find the lowest common mode which both modes are compatible with.
    #[must_use]
    pub fn max(self, other: Mode) -> (r: Mode)
        ensures
            r == self.join(other),
            r.includes(self),
            r.includes(other),
            forall|m: Mode| m.includes(self) && m.includes(other) ==> #[trigger] m.includes(r),
    {
        match self.compare(other) {
            ModeOrder::Greater => self,
            ModeOrder::Less | ModeOrder::Equal => other,
            ModeOrder::Incomparable => Mode::Byte,
        }
    }
}

/// The modes are partially ordered by the characters that they support:
/// every mode includes itself, two modes that include each other are one,
/// and a mode includes what a mode that it includes does. The numeric and
/// the alphanumeric mode do not compare with the Kanji mode.
pub proof fn lemma_mode_order(a: Mode, b: Mode, c: Mode)
    ensures
        a.includes(a),
        a.includes(b) && b.includes(a) ==> a == b,
        a.includes(b) && b.includes(c) ==> a.includes(c),
        Mode::Byte.includes(a),
        !Mode::Kanji.includes(Mode::Numeric) && !Mode::Numeric.includes(Mode::Kanji),
        !Mode::Kanji.includes(Mode::Alphanumeric) && !Mode::Alphanumeric.includes(Mode::Kanji),
{
}

impl PartialOrd for Mode {
    /// Defines a partial ordering between modes. If `a <= b`, then `b` contains
    /// a superset of all characters supported by `a`.
    fn partial_cmp(&self, other: &Mode) -> (r: Option<Ordering>) {
        match self.compare(*other) {
            ModeOrder::Equal => Some(Ordering::Equal),
            ModeOrder::Less => Some(Ordering::Less),
            ModeOrder::Greater => Some(Ordering::Greater),
            ModeOrder::Incomparable => None,
        }
    }
}

impl PartialOrdSpecImpl for Mode {
    open spec fn obeys_partial_cmp_spec() -> bool {
        true
    }

    open spec fn partial_cmp_spec(&self, other: &Mode) -> Option<Ordering> {
        match self.spec_compare(*other) {
            ModeOrder::Equal => Some(Ordering::Equal),
            ModeOrder::Less => Some(Ordering::Less),
            ModeOrder::Greater => Some(Ordering::Greater),
            ModeOrder::Incomparable => None,
        }
    }
}

} // verus!
