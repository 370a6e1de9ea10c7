//! The character sets of the data modes and the numbers that stand for their
//! characters.

use crate::types::Mode;
use vstd::prelude::*;

verus! {

/// The byte is one of the digits `0` to `9`.
pub open spec fn is_digit(b: u8) -> bool {
    0x30 <= b <= 0x39
}

/// The number of a character of the alphanumeric set: the digits, the upper
/// case letters, and the nine symbols space, `$`, `%`, `*`, `+`, `-`, `.`,
/// `/`, `:` count from 0 to 44. Other bytes have no number.
pub open spec fn alphanumeric_value(b: u8) -> Option<int> {
    if 0x30 <= b <= 0x39 {
        Some(b - 0x30)
    } else if 0x41 <= b <= 0x5a {
        Some(b - 0x41 + 10)
    } else if b == 0x20 {
        Some(36)
    } else if b == 0x24 {
        Some(37)
    } else if b == 0x25 {
        Some(38)
    } else if b == 0x2a {
        Some(39)
    } else if b == 0x2b {
        Some(40)
    } else if b == 0x2d {
        Some(41)
    } else if b == 0x2e {
        Some(42)
    } else if b == 0x2f {
        Some(43)
    } else if b == 0x3a {
        Some(44)
    } else {
        None
    }
}

/// The two bytes are a double-byte character of Shift JIS that the Kanji
/// mode can hold: a code from 0x8140 to 0x9ffc or from 0xe040 to 0xebbf whose
/// second byte is between 0x40 and 0xfc and is not 0x7f.
pub open spec fn is_kanji_pair(hi: u8, lo: u8) -> bool {
    &&& 0x40 <= lo <= 0xfc
    &&& lo != 0x7f
    &&& (0x81 <= hi <= 0x9f || 0xe0 <= hi <= 0xea || (hi == 0xeb && lo <= 0xbf))
}

/// The 13-bit number of a double-byte character.
pub open spec fn kanji_value(hi: u8, lo: u8) -> int {
    let cp = hi * 256 + lo;
    let bytes = if cp < 0xe040 {
        cp - 0x8140
    } else {
        cp - 0xc140
    };
    (bytes / 256) * 0xc0 + bytes % 256
}

/// The mode can hold the data: every byte is in its character set, and for
/// the Kanji mode the bytes pair up into double-byte characters.
pub open spec fn mode_accepts(mode: Mode, data: Seq<u8>) -> bool {
    match mode {
        Mode::Numeric => forall|i: int| 0 <= i < data.len() ==> is_digit(#[trigger] data[i]),
        Mode::Alphanumeric => forall|i: int|
            0 <= i < data.len() ==> alphanumeric_value(#[trigger] data[i]).is_some(),
        Mode::Byte => true,
        Mode::Kanji => data.len() % 2 == 0 && forall|k: int|
            0 <= k < data.len() / 2 ==> is_kanji_pair(#[trigger] data[2 * k], data[2 * k + 1]),
    }
}

/// The number of characters in data of a length: in the Kanji mode two bytes
/// make a character.
pub open spec fn char_count(mode: Mode, len: int) -> int {
    if mode == Mode::Kanji {
        len / 2
    } else {
        len
    }
}

/// Tells whether a byte is a digit.
pub fn digit(b: u8) -> (r: bool)
    ensures
        r == is_digit(b),
{
    0x30 <= b && b <= 0x39
}

/// Gives the number of a character of the alphanumeric set.
pub fn alphanumeric_digit(b: u8) -> (r: Option<u16>)
    ensures
        match alphanumeric_value(b) {
            Some(v) => r == Some(v as u16) && 0 <= v < 45,
            None => r.is_none(),
        },
{
    if 0x30 <= b && b <= 0x39 {
        Some((b - 0x30) as u16)
    } else if 0x41 <= b && b <= 0x5a {
        Some((b - 0x41) as u16 + 10)
    } else if b == 0x20 {
        Some(36)
    } else if b == 0x24 {
        Some(37)
    } else if b == 0x25 {
        Some(38)
    } else if b == 0x2a {
        Some(39)
    } else if b == 0x2b {
        Some(40)
    } else if b == 0x2d {
        Some(41)
    } else if b == 0x2e {
        Some(42)
    } else if b == 0x2f {
        Some(43)
    } else if b == 0x3a {
        Some(44)
    } else {
        None
    }
}

/// Tells whether two bytes are a double-byte character of the Kanji mode.
pub fn kanji_pair(hi: u8, lo: u8) -> (r: bool)
    ensures
        r == is_kanji_pair(hi, lo),
{
    0x40 <= lo && lo <= 0xfc && lo != 0x7f && ((0x81 <= hi && hi <= 0x9f) || (0xe0 <= hi && hi
        <= 0xea) || (hi == 0xeb && lo <= 0xbf))
}

/// Computes the 13-bit number of a double-byte character.
pub fn kanji_number(hi: u8, lo: u8) -> (r: u16)
    requires
        is_kanji_pair(hi, lo),
    ensures
        r == kanji_value(hi, lo),
        r < 8192,
{
    let cp: u16 = (hi as u16) * 256 + (lo as u16);
    let bytes: u16 = if cp < 0xe040 {
        cp - 0x8140
    } else {
        cp - 0xc140
    };
    (bytes / 256) * 0xc0 + bytes % 256
}

/// Tells whether a mode can hold the data.
#[verifier::loop_isolation(false)]
pub fn accepts(mode: Mode, data: &[u8]) -> (r: bool)
    ensures
        r == mode_accepts(mode, data@),
{
    match mode {
        Mode::Numeric => {
            let mut i: usize = 0;
            while i < data.len()
                invariant
                    i <= data.len(),
                    forall|j: int| 0 <= j < i ==> is_digit(#[trigger] data@[j]),
                decreases data.len() - i,
            {
                if !digit(data[i]) {
                    assert(!is_digit(data@[i as int]));
                    return false;
                }
                i += 1;
            }
            true
        },
        Mode::Alphanumeric => {
            let mut i: usize = 0;
            while i < data.len()
                invariant
                    i <= data.len(),
                    forall|j: int| 0 <= j < i ==> alphanumeric_value(#[trigger] data@[j]).is_some(),
                decreases data.len() - i,
            {
                if alphanumeric_digit(data[i]).is_none() {
                    assert(alphanumeric_value(data@[i as int]).is_none());
                    return false;
                }
                i += 1;
            }
            true
        },
        Mode::Byte => true,
        Mode::Kanji => {
            if data.len() % 2 != 0 {
                return false;
            }
            let pairs = data.len() / 2;
            let mut k: usize = 0;
            while k < pairs
                invariant
                    k <= pairs,
                    pairs == data.len() / 2,
                    data.len() % 2 == 0,
                    forall|j: int|
                        0 <= j < k ==> is_kanji_pair(#[trigger] data@[2 * j], data@[2 * j + 1]),
                decreases pairs - k,
            {
                if !kanji_pair(data[2 * k], data[2 * k + 1]) {
                    assert(!is_kanji_pair(data@[2 * (k as int)], data@[2 * (k as int) + 1]));
                    return false;
                }
                k += 1;
            }
            true
        },
    }
}

} // verus!
