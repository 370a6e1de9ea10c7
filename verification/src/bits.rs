//! The `bits` module encodes binary data into raw bits used in a QR code.

use crate::charset::{
    accepts, alphanumeric_digit, alphanumeric_value, char_count, is_digit, is_kanji_pair,
    kanji_number, kanji_value, mode_accepts,
};
use crate::ec::{
    data_bits, lemma_capacity_class, lemma_limit_is_largest, lemma_supported_has_capacity,
    spec_data_bits,
};
use crate::optimize::{
    chosen_segments, is_optimal, is_segmentation, lemma_chosen_same_class,
    lemma_digits_single_segment, lemma_header_bound, lemma_segmentation_drop_last,
    lemma_segments_in_range, lemma_total_len_lower_bound, lemma_total_len_same_class, optimize,
    segment_len, total_len, version_class, Segment,
};
use vstd::slice::slice_subrange;
use crate::types::{EcLevel, Mode, QrError, QrResult, Version};
use vstd::prelude::*;

verus! {

//------------------------------------------------------------------------------
// Numbers as bits
/// The `n` low bits of a number, the highest of them first.
pub open spec fn bits_of(number: u16, n: nat) -> Seq<bool> {
    Seq::new(n, |i: int| (number >> ((n - 1 - i) as u16)) & 1 == 1)
}

/// Two to the power `n`.
pub open spec fn two_pow(n: nat) -> nat
    decreases n,
{
    if n == 0 {
        1
    } else {
        2 * two_pow((n - 1) as nat)
    }
}

/// The value that a bit adds to a byte in which it has the given weight; a
/// position past the end of the bits counts as a zero bit.
pub open spec fn bit_value(bits: Seq<bool>, k: int, weight: int) -> int {
    if 0 <= k < bits.len() && bits[k] {
        weight
    } else {
        0
    }
}

/// Byte `i` of a bit stream: eight bits, the highest first.
pub open spec fn byte_of(bits: Seq<bool>, i: int) -> int {
    bit_value(bits, 8 * i, 128) + bit_value(bits, 8 * i + 1, 64) + bit_value(bits, 8 * i + 2, 32)
        + bit_value(bits, 8 * i + 3, 16) + bit_value(bits, 8 * i + 4, 8) + bit_value(
        bits,
        8 * i + 5,
        4,
    ) + bit_value(bits, 8 * i + 6, 2) + bit_value(bits, 8 * i + 7, 1)
}

/// The bytes of a bit stream. The last byte is filled up with zero bits.
pub open spec fn bytes_of(bits: Seq<bool>) -> Seq<u8> {
    Seq::new(((bits.len() + 7) / 8) as nat, |i: int| byte_of(bits, i) as u8)
}

/// What a checked push makes of a bit stream: the bits with `extra` behind
/// them, or the error that `extra` is, or `DataTooLong` where the result
/// would be longer than `limit`.
pub open spec fn appended(bits: Seq<bool>, extra: Result<Seq<bool>, QrError>, limit: int) -> Result<
    Seq<bool>,
    QrError,
> {
    match extra {
        Ok(e) => if bits.len() + e.len() > limit {
            Err(QrError::DataTooLong)
        } else {
            Ok(bits + e)
        },
        Err(e) => Err(e),
    }
}

/// A computed list of bits, or an error, is the one described.
pub open spec fn is_bits(r: QrResult<Vec<bool>>, s: Result<Seq<bool>, QrError>) -> bool {
    match s {
        Ok(b) => r is Ok && r->Ok_0@ == b,
        Err(e) => r is Err && r->Err_0 == e,
    }
}

/// Appends the `n` low bits of a number to a list of bits, the highest first.
pub fn append_number(out: &mut Vec<bool>, n: usize, number: u16)
    requires
        n <= 16,
    ensures
        final(out)@ == old(out)@ + bits_of(number, n as nat),
{
    let mut i: usize = 0;
    while i < n
        invariant
            i <= n,
            n <= 16,
            out@ =~= old(out)@ + bits_of(number, n as nat).take(i as int),
        decreases n - i,
    {
        let k = (n - 1 - i) as u16;
        out.push((number >> k) & 1 == 1);
        i += 1;
    }
    assert(bits_of(number, n as nat).take(n as int) =~= bits_of(number, n as nat));
}

/// Powers of two grow, and the sixteenth is 65536.
pub proof fn lemma_two_pow_grows(a: nat, b: nat)
    requires
        a <= b,
    ensures
        1 <= two_pow(a) <= two_pow(b),
        two_pow(16) == 65536,
    decreases b,
{
    reveal_with_fuel(two_pow, 17);
    if a < b {
        lemma_two_pow_grows(a, (b - 1) as nat);
    } else if a > 0 {
        lemma_two_pow_grows((a - 1) as nat, (a - 1) as nat);
    }
}

/// Some powers of two.
pub proof fn lemma_two_pow_values()
    ensures
        two_pow(8) == 256,
        two_pow(9) == 512,
        two_pow(10) == 1024,
        two_pow(11) == 2048,
        two_pow(12) == 4096,
        two_pow(13) == 8192,
        two_pow(14) == 16384,
        two_pow(16) == 65536,
{
    reveal_with_fuel(two_pow, 17);
}

/// Computes two to the power `n`.
pub fn power_of_two(n: usize) -> (r: usize)
    requires
        n <= 16,
    ensures
        r == two_pow(n as nat),
        r <= 65536,
{
    let mut r: usize = 1;
    let mut i: usize = 0;
    proof {
        lemma_two_pow_grows(0, 16);
    }
    while i < n
        invariant
            i <= n,
            n <= 16,
            r == two_pow(i as nat),
            r <= 65536,
        decreases n - i,
    {
        proof {
            lemma_two_pow_grows((i + 1) as nat, 16);
        }
        r = 2 * r;
        i += 1;
    }
    r
}

/// Gives the value that a bit adds to a byte in which it has the given
/// weight. The bit is number `offset` behind bit `base`.
fn weigh(bits: &Vec<bool>, base: usize, offset: usize, weight: u8) -> (r: u8)
    requires
        base < bits.len(),
    ensures
        r == bit_value(bits@, base + offset, weight as int),
{
    if offset < bits.len() - base && bits[base + offset] {
        weight
    } else {
        0
    }
}

/// Packs eight bits of a list of bits into a byte.
pub fn byte_at(bits: &Vec<bool>, i: usize) -> (r: u8)
    requires
        8 * i < bits.len(),
    ensures
        r == byte_of(bits@, i as int),
{
    let base = 8 * i;
    let b0 = weigh(bits, base, 0, 128);
    let b1 = weigh(bits, base, 1, 64);
    let b2 = weigh(bits, base, 2, 32);
    let b3 = weigh(bits, base, 3, 16);
    let b4 = weigh(bits, base, 4, 8);
    let b5 = weigh(bits, base, 5, 4);
    let b6 = weigh(bits, base, 6, 2);
    let b7 = weigh(bits, base, 7, 1);
    b0 + b1 + b2 + b3 + b4 + b5 + b6 + b7
}

//------------------------------------------------------------------------------
// Mode indicator
/// An "extended" mode indicator, includes all indicators supported by QR code
/// beyond those bearing data.
#[derive(Debug, PartialEq, Eq, Copy, Clone, Structural)]
pub enum ExtendedMode {
    /// ECI mode indicator, to introduce an ECI designator.
    Eci,
    /// The normal mode to introduce data.
    Data(Mode),
    /// FNC-1 mode in the first position.
    Fnc1First,
    /// FNC-1 mode in the second position.
    Fnc1Second,
    /// Structured append.
    StructuredAppend,
}

/// The number of a data mode in a Micro QR code.
pub open spec fn micro_mode_number(mode: Mode) -> u16 {
    match mode {
        Mode::Numeric => 0,
        Mode::Alphanumeric => 1,
        Mode::Byte => 2,
        Mode::Kanji => 3,
    }
}

/// The four-bit number of a mode in a QR code.
pub open spec fn normal_mode_number(mode: ExtendedMode) -> u16 {
    match mode {
        ExtendedMode::Data(Mode::Numeric) => 0b0001,
        ExtendedMode::Data(Mode::Alphanumeric) => 0b0010,
        ExtendedMode::Data(Mode::Byte) => 0b0100,
        ExtendedMode::Data(Mode::Kanji) => 0b1000,
        ExtendedMode::Eci => 0b0111,
        ExtendedMode::Fnc1First => 0b0101,
        ExtendedMode::Fnc1Second => 0b1001,
        ExtendedMode::StructuredAppend => 0b0011,
    }
}

/// Whether the Micro QR code of version `a` has the mode: version 1 is
/// numeric only, version 2 adds the alphanumeric mode, and versions 3 and 4
/// have all four.
pub open spec fn micro_supports(a: int, mode: Mode) -> bool {
    match mode {
        Mode::Numeric => true,
        Mode::Alphanumeric => a >= 2,
        Mode::Byte | Mode::Kanji => a >= 3,
    }
}

/// The bits of the mode indicator of a version. A QR code has four; a Micro
/// QR code of version `a` has `a - 1` and knows the data modes only. A
/// version without tables gives `InvalidVersion`, and a mode that the
/// version does not have `UnsupportedCharacterSet`.
pub open spec fn mode_indicator(version: Version, mode: ExtendedMode) -> Result<
    Seq<bool>,
    QrError,
> {
    match version {
        Version::Normal(v) => if 1 <= v <= 40 {
            Ok(bits_of(normal_mode_number(mode), 4))
        } else {
            Err(QrError::InvalidVersion)
        },
        Version::Micro(a) => if 1 <= a <= 4 {
            match mode {
                ExtendedMode::Data(m) => if micro_supports(a as int, m) {
                    Ok(bits_of(micro_mode_number(m), (a - 1) as nat))
                } else {
                    Err(QrError::UnsupportedCharacterSet)
                },
                _ => Err(QrError::UnsupportedCharacterSet),
            }
        } else {
            Err(QrError::InvalidVersion)
        },
        Version::RectMicro(..) => Err(QrError::InvalidVersion),
    }
}

/// Bits followed by more bits, where there are bits.
pub open spec fn followed_by(r: Result<Seq<bool>, QrError>, more: Seq<bool>) -> Result<
    Seq<bool>,
    QrError,
> {
    match r {
        Ok(b) => Ok(b + more),
        Err(e) => Err(e),
    }
}

/// Computes the bits of a mode indicator.
pub fn mode_indicator_bits(version: Version, mode: ExtendedMode) -> (r: QrResult<Vec<bool>>)
    ensures
        is_bits(r, mode_indicator(version, mode)),
{
    let mut out: Vec<bool> = Vec::new();
    match version {
        Version::Normal(v) => {
            if 1 <= v && v <= 40 {
                let number: u16 = match mode {
                    ExtendedMode::Data(Mode::Numeric) => 0b0001,
                    ExtendedMode::Data(Mode::Alphanumeric) => 0b0010,
                    ExtendedMode::Data(Mode::Byte) => 0b0100,
                    ExtendedMode::Data(Mode::Kanji) => 0b1000,
                    ExtendedMode::Eci => 0b0111,
                    ExtendedMode::Fnc1First => 0b0101,
                    ExtendedMode::Fnc1Second => 0b1001,
                    ExtendedMode::StructuredAppend => 0b0011,
                };
                append_number(&mut out, 4, number);
                assert(out@ =~= bits_of(number, 4));
                Ok(out)
            } else {
                Err(QrError::InvalidVersion)
            }
        },
        Version::Micro(a) => {
            if 1 <= a && a <= 4 {
                match mode {
                    ExtendedMode::Data(m) => {
                        let (number, from): (u16, i16) = match m {
                            Mode::Numeric => (0, 1),
                            Mode::Alphanumeric => (1, 2),
                            Mode::Byte => (2, 3),
                            Mode::Kanji => (3, 3),
                        };
                        if a >= from {
                            append_number(&mut out, (a - 1) as usize, number);
                            assert(out@ =~= bits_of(number, (a - 1) as nat));
                            Ok(out)
                        } else {
                            Err(QrError::UnsupportedCharacterSet)
                        }
                    },
                    _ => Err(QrError::UnsupportedCharacterSet),
                }
            } else {
                Err(QrError::InvalidVersion)
            }
        },
        Version::RectMicro(..) => Err(QrError::InvalidVersion),
    }
}

//------------------------------------------------------------------------------
// ECI
/// The bits of an ECI designator behind its mode indicator: one byte for a
/// designator up to 127, two bytes that start with the bits 10 up to 16383,
/// and three bytes that start with 110 up to 999999. A greater designator
/// gives `InvalidEciDesignator`.
pub open spec fn eci_bits(version: Version, designator: u32) -> Result<Seq<bool>, QrError> {
    match mode_indicator(version, ExtendedMode::Eci) {
        Ok(ind) => if designator <= 127 {
            Ok(ind + bits_of(designator as u16, 8))
        } else if designator <= 16383 {
            Ok(ind + bits_of(0b10, 2) + bits_of(designator as u16, 14))
        } else if designator <= 999999 {
            Ok(
                ind + bits_of(0b110, 3) + bits_of((designator >> 16) as u16, 5) + bits_of(
                    (designator & 0xffff) as u16,
                    16,
                ),
            )
        } else {
            Err(QrError::InvalidEciDesignator)
        },
        Err(e) => Err(e),
    }
}

/// Computes the bits of an ECI designator behind its mode indicator.
pub fn eci_designator_bits(version: Version, designator: u32) -> (r: QrResult<Vec<bool>>)
    ensures
        is_bits(r, eci_bits(version, designator)),
{
    let mut out = match mode_indicator_bits(version, ExtendedMode::Eci) {
        Ok(out) => out,
        Err(e) => {
            return Err(e);
        },
    };
    if designator <= 127 {
        append_number(&mut out, 8, designator as u16);
        Ok(out)
    } else if designator <= 16383 {
        append_number(&mut out, 2, 0b10);
        append_number(&mut out, 14, designator as u16);
        Ok(out)
    } else if designator <= 999999 {
        assert(designator >> 16 <= 0xffff) by (bit_vector);
        assert(designator & 0xffff <= 0xffff) by (bit_vector);
        append_number(&mut out, 3, 0b110);
        append_number(&mut out, 5, (designator >> 16) as u16);
        append_number(&mut out, 16, (designator & 0xffff) as u16);
        Ok(out)
    } else {
        Err(QrError::InvalidEciDesignator)
    }
}

//------------------------------------------------------------------------------
// Data of the four modes
/// The bits of digits: three digits make a number of ten bits; two digits
/// left over make one of seven bits and a single digit one of four.
pub open spec fn numeric_bits(data: Seq<u8>) -> Seq<bool>
    decreases data.len(),
{
    if data.len() == 0 {
        Seq::empty()
    } else if data.len() == 1 {
        bits_of((data[0] - 0x30) as u16, 4)
    } else if data.len() == 2 {
        bits_of(((data[0] - 0x30) * 10 + (data[1] - 0x30)) as u16, 7)
    } else {
        bits_of(((data[0] - 0x30) * 100 + (data[1] - 0x30) * 10 + (data[2] - 0x30)) as u16, 10)
            + numeric_bits(data.skip(3))
    }
}

/// The bits of alphanumeric characters: two characters make a number of
/// eleven bits, their values weighted 45 and 1; a single character left over
/// makes one of six bits.
pub open spec fn alphanumeric_bits(data: Seq<u8>) -> Seq<bool>
    decreases data.len(),
{
    if data.len() == 0 {
        Seq::empty()
    } else if data.len() == 1 {
        bits_of(alphanumeric_value(data[0]).unwrap() as u16, 6)
    } else {
        bits_of(
            (alphanumeric_value(data[0]).unwrap() * 45 + alphanumeric_value(
                data[1],
            ).unwrap()) as u16,
            11,
        ) + alphanumeric_bits(data.skip(2))
    }
}

/// The bits of bytes: eight each.
pub open spec fn byte_bits(data: Seq<u8>) -> Seq<bool>
    decreases data.len(),
{
    if data.len() == 0 {
        Seq::empty()
    } else {
        bits_of(data[0] as u16, 8) + byte_bits(data.skip(1))
    }
}

/// The bits of double-byte characters: thirteen each.
pub open spec fn kanji_bits(data: Seq<u8>) -> Seq<bool>
    decreases data.len(),
{
    if data.len() < 2 {
        Seq::empty()
    } else {
        bits_of(kanji_value(data[0], data[1]) as u16, 13) + kanji_bits(data.skip(2))
    }
}

/// The bits of the characters of a segment.
pub open spec fn data_bits_of(mode: Mode, data: Seq<u8>) -> Seq<bool> {
    match mode {
        Mode::Numeric => numeric_bits(data),
        Mode::Alphanumeric => alphanumeric_bits(data),
        Mode::Byte => byte_bits(data),
        Mode::Kanji => kanji_bits(data),
    }
}

/// The characters of a segment take as many bits as `data_bits_count` says.
pub proof fn lemma_data_bits_len(mode: Mode, data: Seq<u8>)
    requires
        mode == Mode::Kanji ==> data.len() % 2 == 0,
    ensures
        data_bits_of(mode, data).len() == mode.spec_data_bits_count(
            char_count(mode, data.len() as int),
        ),
    decreases data.len(),
{
    match mode {
        Mode::Numeric => {
            if data.len() >= 3 {
                lemma_data_bits_len(mode, data.skip(3));
            }
        },
        Mode::Alphanumeric => {
            if data.len() >= 2 {
                lemma_data_bits_len(mode, data.skip(2));
            }
        },
        Mode::Byte => {
            if data.len() >= 1 {
                lemma_data_bits_len(mode, data.skip(1));
            }
        },
        Mode::Kanji => {
            if data.len() >= 2 {
                lemma_data_bits_len(mode, data.skip(2));
            }
        },
    }
}

/// Appends the bits of digits.
pub fn append_numeric(out: &mut Vec<bool>, data: &[u8])
    requires
        mode_accepts(Mode::Numeric, data@),
    ensures
        final(out)@ == old(out)@ + numeric_bits(data@),
{
    let mut i: usize = 0;
    assert(data@.skip(0) =~= data@);
    while i < data.len()
        invariant
            i <= data.len(),
            mode_accepts(Mode::Numeric, data@),
            out@ + numeric_bits(data@.skip(i as int)) =~= old(out)@ + numeric_bits(data@),
        decreases data.len() - i,
    {
        let rest = data.len() - i;
        let ghost tail = data@.skip(i as int);
        let ghost before = out@;
        assert(is_digit(data@[i as int]));
        let d0: u16 = (data[i] - 0x30) as u16;
        if rest >= 3 {
            assert(is_digit(data@[i + 1]));
            assert(is_digit(data@[i + 2]));
            let d1: u16 = (data[i + 1] - 0x30) as u16;
            let d2: u16 = (data[i + 2] - 0x30) as u16;
            append_number(out, 10, d0 * 100 + d1 * 10 + d2);
            assert(tail.skip(3) =~= data@.skip(i + 3));
            assert(out@ + numeric_bits(data@.skip(i + 3)) =~= before + numeric_bits(tail));
            i += 3;
        } else if rest == 2 {
            assert(is_digit(data@[i + 1]));
            let d1: u16 = (data[i + 1] - 0x30) as u16;
            append_number(out, 7, d0 * 10 + d1);
            assert(data@.skip(i + 2).len() == 0);
            assert(out@ + numeric_bits(data@.skip(i + 2)) =~= before + numeric_bits(tail));
            i += 2;
        } else {
            append_number(out, 4, d0);
            assert(data@.skip(i + 1).len() == 0);
            assert(out@ + numeric_bits(data@.skip(i + 1)) =~= before + numeric_bits(tail));
            i += 1;
        }
    }
    assert(out@ + numeric_bits(data@.skip(i as int)) =~= out@);
}

/// Appends the bits of alphanumeric characters.
pub fn append_alphanumeric(out: &mut Vec<bool>, data: &[u8])
    requires
        mode_accepts(Mode::Alphanumeric, data@),
    ensures
        final(out)@ == old(out)@ + alphanumeric_bits(data@),
{
    let mut i: usize = 0;
    assert(data@.skip(0) =~= data@);
    while i < data.len()
        invariant
            i <= data.len(),
            mode_accepts(Mode::Alphanumeric, data@),
            out@ + alphanumeric_bits(data@.skip(i as int)) =~= old(out)@ + alphanumeric_bits(
                data@,
            ),
        decreases data.len() - i,
    {
        let rest = data.len() - i;
        let ghost tail = data@.skip(i as int);
        let ghost before = out@;
        assert(alphanumeric_value(data@[i as int]).is_some());
        let v0: u16 = match alphanumeric_digit(data[i]) {
            Some(v) => v,
            None => 0,
        };
        if rest >= 2 {
            assert(alphanumeric_value(data@[i + 1]).is_some());
            let v1: u16 = match alphanumeric_digit(data[i + 1]) {
                Some(v) => v,
                None => 0,
            };
            append_number(out, 11, v0 * 45 + v1);
            assert(tail.skip(2) =~= data@.skip(i + 2));
            assert(out@ + alphanumeric_bits(data@.skip(i + 2)) =~= before + alphanumeric_bits(
                tail,
            ));
            i += 2;
        } else {
            append_number(out, 6, v0);
            assert(data@.skip(i + 1).len() == 0);
            assert(out@ + alphanumeric_bits(data@.skip(i + 1)) =~= before + alphanumeric_bits(
                tail,
            ));
            i += 1;
        }
    }
    assert(out@ + alphanumeric_bits(data@.skip(i as int)) =~= out@);
}

/// Appends the bits of bytes.
pub fn append_bytes(out: &mut Vec<bool>, data: &[u8])
    ensures
        final(out)@ == old(out)@ + byte_bits(data@),
{
    let mut i: usize = 0;
    assert(data@.skip(0) =~= data@);
    while i < data.len()
        invariant
            i <= data.len(),
            out@ + byte_bits(data@.skip(i as int)) =~= old(out)@ + byte_bits(data@),
        decreases data.len() - i,
    {
        let ghost tail = data@.skip(i as int);
        let ghost before = out@;
        append_number(out, 8, data[i] as u16);
        assert(tail.skip(1) =~= data@.skip(i + 1));
        assert(out@ + byte_bits(data@.skip(i + 1)) =~= before + byte_bits(tail));
        i += 1;
    }
    assert(out@ + byte_bits(data@.skip(i as int)) =~= out@);
}

/// Appends the bits of double-byte characters.
pub fn append_kanji(out: &mut Vec<bool>, data: &[u8])
    requires
        mode_accepts(Mode::Kanji, data@),
    ensures
        final(out)@ == old(out)@ + kanji_bits(data@),
{
    let mut i: usize = 0;
    assert(data@.skip(0) =~= data@);
    while i < data.len()
        invariant
            i <= data.len(),
            i % 2 == 0,
            mode_accepts(Mode::Kanji, data@),
            out@ + kanji_bits(data@.skip(i as int)) =~= old(out)@ + kanji_bits(data@),
        decreases data.len() - i,
    {
        let ghost tail = data@.skip(i as int);
        let ghost before = out@;
        let ghost k = (i / 2) as int;
        assert(is_kanji_pair(data@[2 * k], data@[2 * k + 1]));
        append_number(out, 13, kanji_number(data[i], data[i + 1]));
        assert(tail.skip(2) =~= data@.skip(i + 2));
        assert(out@ + kanji_bits(data@.skip(i + 2)) =~= before + kanji_bits(tail));
        i += 2;
    }
    assert(out@ + kanji_bits(data@.skip(i as int)) =~= out@);
}

//------------------------------------------------------------------------------
// Segments
/// The bits of a segment: the mode indicator, the number of characters in as
/// many bits as the mode has for it in the version, and the characters.
///
/// There are none where the version has no mode indicator for the mode
/// (`InvalidVersion`, `UnsupportedCharacterSet`), where the mode cannot hold
/// the data (`InvalidCharacter`), and where the number of characters does
/// not fit its bits (`DataTooLong`).
pub open spec fn segment_bits(version: Version, mode: Mode, data: Seq<u8>) -> Result<
    Seq<bool>,
    QrError,
> {
    match mode_indicator(version, ExtendedMode::Data(mode)) {
        Ok(ind) => if !mode_accepts(mode, data) {
            Err(QrError::InvalidCharacter)
        } else if char_count(mode, data.len() as int) >= two_pow(
            mode.spec_length_bits_count(version) as nat,
        ) {
            Err(QrError::DataTooLong)
        } else {
            Ok(
                ind + bits_of(
                    char_count(mode, data.len() as int) as u16,
                    mode.spec_length_bits_count(version) as nat,
                ) + data_bits_of(mode, data),
            )
        },
        Err(e) => Err(e),
    }
}

/// A segment has as many bits as `segment_len` says.
pub proof fn lemma_segment_bits_len(version: Version, mode: Mode, data: Seq<u8>)
    requires
        segment_bits(version, mode, data) is Ok,
    ensures
        segment_bits(version, mode, data)->Ok_0.len() == segment_len(
            version,
            mode,
            char_count(mode, data.len() as int),
        ),
{
    lemma_data_bits_len(mode, data);
}

/// Computes the bits of a segment.
pub fn segment(version: Version, mode: Mode, data: &[u8]) -> (r: QrResult<Vec<bool>>)
    ensures
        is_bits(r, segment_bits(version, mode, data@)),
{
    let mut out = match mode_indicator_bits(version, ExtendedMode::Data(mode)) {
        Ok(out) => out,
        Err(e) => {
            return Err(e);
        },
    };
    if !accepts(mode, data) {
        return Err(QrError::InvalidCharacter);
    }
    let count = match mode {
        Mode::Kanji => data.len() / 2,
        _ => data.len(),
    };
    let width = mode.length_bits_count(version);
    if count >= power_of_two(width) {
        return Err(QrError::DataTooLong);
    }
    append_number(&mut out, width, count as u16);
    match mode {
        Mode::Numeric => append_numeric(&mut out, data),
        Mode::Alphanumeric => append_alphanumeric(&mut out, data),
        Mode::Byte => append_bytes(&mut out, data),
        Mode::Kanji => append_kanji(&mut out, data),
    }
    Ok(out)
}

/// The bits of a list of segments of the data, one after another. Where a
/// segment has no bits, the error of the first such segment comes out.
pub open spec fn segments_bits(version: Version, data: Seq<u8>, segs: Seq<Segment>) -> Result<
    Seq<bool>,
    QrError,
>
    decreases segs.len(),
{
    if segs.len() == 0 {
        Ok(Seq::empty())
    } else {
        match segments_bits(version, data, segs.drop_last()) {
            Ok(b) => match segment_bits(
                version,
                segs.last().mode,
                data.subrange(segs.last().begin as int, segs.last().end as int),
            ) {
                Ok(x) => Ok(b + x),
                Err(e) => Err(e),
            },
            Err(e) => Err(e),
        }
    }
}

/// Where the first segments of a list have no bits, the list has none, for
/// the same reason.
pub proof fn lemma_segments_error_stays(
    version: Version,
    data: Seq<u8>,
    segs: Seq<Segment>,
    k: int,
)
    requires
        0 <= k <= segs.len(),
        segments_bits(version, data, segs.take(k)) is Err,
    ensures
        segments_bits(version, data, segs) == segments_bits(version, data, segs.take(k)),
    decreases segs.len() - k,
{
    if k == segs.len() {
        assert(segs.take(k) =~= segs);
    } else {
        assert(segs.take(k + 1).drop_last() =~= segs.take(k));
        lemma_segments_error_stays(version, data, segs, k + 1);
    }
}

/// The bits of a list of segments are as many as `total_len` says.
pub proof fn lemma_segments_bits_len(version: Version, data: Seq<u8>, segs: Seq<Segment>)
    requires
        segments_bits(version, data, segs) is Ok,
        forall|i: int| 0 <= i < segs.len() ==> (#[trigger] segs[i]).begin <= segs[i].end <= data.len(),
    ensures
        segments_bits(version, data, segs)->Ok_0.len() == total_len(segs, version),
    decreases segs.len(),
{
    if segs.len() > 0 {
        let last = segs.last();
        let rest = segs.drop_last();
        assert(last == segs[segs.len() - 1]);
        assert forall|i: int| 0 <= i < rest.len() implies (#[trigger] rest[i]).begin
            <= rest[i].end <= data.len() by {
            assert(rest[i] == segs[i]);
        }
        lemma_segments_bits_len(version, data, rest);
        let piece = data.subrange(last.begin as int, last.end as int);
        lemma_segment_bits_len(version, last.mode, piece);
        assert(piece.len() == last.end - last.begin);
    }
}

/// Data that holds digits only is encoded as one numeric segment, and never
/// split: the bits of the segmentation that takes the fewest bits are those of
/// the numeric segment of all the data. They are as many as the mode
/// indicator, the character count and the digits take.
pub proof fn lemma_digits_encoding(version: Version, data: Seq<u8>, segs: Seq<Segment>)
    requires
        version is Micro ==> version.is_valid(),
        mode_accepts(Mode::Numeric, data),
        1 <= data.len() <= usize::MAX,
        is_optimal(data, segs, version),
    ensures
        segs =~= seq![Segment { mode: Mode::Numeric, begin: 0, end: data.len() as usize }],
        segments_bits(version, data, segs) == segment_bits(version, Mode::Numeric, data),
        segment_bits(version, Mode::Numeric, data) is Ok ==> segment_bits(
            version,
            Mode::Numeric,
            data,
        )->Ok_0.len() == version.spec_mode_bits_count() + Mode::Numeric.spec_length_bits_count(
            version,
        ) + Mode::Numeric.spec_data_bits_count(data.len() as int),
{
    lemma_digits_single_segment(data, segs, version);
    assert(segs.drop_last() =~= Seq::<Segment>::empty());
    assert(data.subrange(0, data.len() as int) =~= data);
    assert(segments_bits(version, data, segs.drop_last()) == Ok::<Seq<bool>, QrError>(
        Seq::<bool>::empty(),
    ));
    if segment_bits(version, Mode::Numeric, data) is Ok {
        let x = segment_bits(version, Mode::Numeric, data)->Ok_0;
        assert(Seq::<bool>::empty() + x =~= x);
        lemma_segment_bits_len(version, Mode::Numeric, data);
    }
}

/// Every way to cut the data into segments takes more than `room` bits in
/// the version.
pub open spec fn all_too_long(data: Seq<u8>, version: Version, room: int) -> bool {
    forall|s: Seq<Segment>| #[trigger]
        is_segmentation(data, s, data.len() as int) ==> total_len(s, version) > room
}

/// The data does not fit a symbol of the version at the level, however it is
/// cut into segments.
pub open spec fn no_fit(data: Seq<u8>, version: Version, ec_level: EcLevel) -> bool {
    match spec_data_bits(version, ec_level) {
        Ok(capacity) => all_too_long(data, version, capacity),
        Err(_) => true,
    }
}

/// A segment that fits a QR code has a character count that fits its field.
pub proof fn lemma_count_fits(v: i16, mode: Mode, chars: int, capacity: int)
    requires
        1 <= v <= 40,
        0 <= chars,
        segment_len(Version::Normal(v), mode, chars) <= capacity,
        capacity <= (if v <= 9 {
            1856int
        } else if v <= 26 {
            10960int
        } else {
            23648int
        }),
    ensures
        chars < two_pow(mode.spec_length_bits_count(Version::Normal(v)) as nat),
{
    lemma_two_pow_values();
}

/// A segmentation that fits a QR code at some level has bits: no character
/// count is too great for its field. The bits are as many as `total_len`
/// says.
pub proof fn lemma_fitting_segments_encode(
    v: i16,
    ec_level: EcLevel,
    data: Seq<u8>,
    segs: Seq<Segment>,
    end: int,
)
    requires
        1 <= v <= 40,
        is_segmentation(data, segs, end),
        total_len(segs, Version::Normal(v)) <= spec_data_bits(Version::Normal(v), ec_level)->Ok_0,
    ensures
        segments_bits(Version::Normal(v), data, segs) is Ok,
        segments_bits(Version::Normal(v), data, segs)->Ok_0.len() == total_len(
            segs,
            Version::Normal(v),
        ),
        0 <= total_len(segs, Version::Normal(v)),
    decreases segs.len(),
{
    let version = Version::Normal(v);
    let capacity = spec_data_bits(version, ec_level)->Ok_0;
    lemma_capacity_class(v, ec_level);
    if segs.len() > 0 {
        let last = segs.last();
        let rest = segs.drop_last();
        lemma_segmentation_drop_last(data, segs, end);
        lemma_header_bound(version, last.mode);
        lemma_total_len_lower_bound(data, rest, last.begin as int, version);
        let piece = data.subrange(last.begin as int, last.end as int);
        assert(piece.len() == last.end - last.begin);
        let chars = char_count(last.mode, piece.len() as int);
        assert(last.spec_encoded_len(version) == segment_len(version, last.mode, chars));
        assert(0 <= last.spec_encoded_len(version));
        lemma_fitting_segments_encode(v, ec_level, data, rest, last.begin as int);
        lemma_count_fits(v, last.mode, chars, capacity);
        assert(mode_indicator(version, ExtendedMode::Data(last.mode)) is Ok);
        assert(segment_bits(version, last.mode, piece) is Ok);
        lemma_segment_bits_len(version, last.mode, piece);
    }
}

//------------------------------------------------------------------------------
// Terminator
/// The number of zero bits that end the data: four in a QR code and three,
/// five, seven or nine in the Micro QR code versions 1 to 4.
pub open spec fn terminator_size(version: Version) -> int {
    match version {
        Version::Micro(a) => a * 2 + 1,
        _ => 4,
    }
}

/// Bit `pos`, counted from the highest, of pad byte `k`: the pad bytes are
/// 11101100 and 00010001 in turn.
pub open spec fn pad_byte_bit(k: int, pos: int) -> bool {
    if k % 2 == 0 {
        pos == 0 || pos == 1 || pos == 2 || pos == 4 || pos == 5
    } else {
        pos == 3 || pos == 7
    }
}

/// The bit at position `i` behind `len` bits of data in a symbol that holds
/// `capacity` bits: the terminator, cut short where the symbol is full, and
/// zeros up to the end of the byte; then pad bytes as long as whole bytes
/// fit; then zeros, which are the four bits of a last half codeword.
pub open spec fn padding_bit(len: int, terminator: int, capacity: int, i: int) -> bool {
    let t = if terminator < capacity - len {
        terminator
    } else {
        capacity - len
    };
    let boundary = (len + t + 7) / 8 * 8;
    if i < boundary {
        false
    } else if boundary + 8 * ((i - boundary) / 8 + 1) <= capacity {
        pad_byte_bit((i - boundary) / 8, (i - boundary) % 8)
    } else {
        false
    }
}

/// The bits of a symbol of the version with `capacity` data bits: the data
/// bits followed by the terminator and the padding.
pub open spec fn terminated(bits: Seq<bool>, version: Version, capacity: int) -> Seq<bool> {
    Seq::new(
        capacity as nat,
        |i: int|
            if i < bits.len() {
                bits[i]
            } else {
                padding_bit(bits.len() as int, terminator_size(version), capacity, i)
            },
    )
}

/// Computes a bit of a pad byte.
pub fn pad_bit(k: usize, pos: usize) -> (r: bool)
    ensures
        r == pad_byte_bit(k as int, pos as int),
{
    if k % 2 == 0 {
        pos == 0 || pos == 1 || pos == 2 || pos == 4 || pos == 5
    } else {
        pos == 3 || pos == 7
    }
}

/// The data fits a symbol of the version at the level: the segmentation that
/// is chosen for it has bits, and no more than the symbol holds.
pub open spec fn fits_version(data: Seq<u8>, version: Version, ec_level: EcLevel) -> bool {
    &&& is_optimal(data, chosen_segments(data, version, data.len() as int), version)
    &&& spec_data_bits(version, ec_level) is Ok
    &&& total_len(chosen_segments(data, version, data.len() as int), version) <= spec_data_bits(
        version,
        ec_level,
    )->Ok_0
    &&& segments_bits(version, data, chosen_segments(data, version, data.len() as int)) is Ok
}

/// The version is the smallest QR code version that the data fits at the
/// level.
pub open spec fn is_smallest_fit(data: Seq<u8>, ec_level: EcLevel, version: Version) -> bool {
    &&& version is Normal
    &&& 1 <= version->Normal_0 <= 40
    &&& fits_version(data, version, ec_level)
    &&& forall|u: int|
        1 <= u < version->Normal_0 ==> #[trigger] no_fit(data, Version::Normal(u as i16), ec_level)
}

/// The bits of the data in a symbol of the version at the level: the bits of
/// the segments that are chosen for the data, terminated and padded.
pub open spec fn encoding_in(data: Seq<u8>, ec_level: EcLevel, version: Version) -> Seq<bool> {
    terminated(
        segments_bits(version, data, chosen_segments(data, version, data.len() as int))->Ok_0,
        version,
        spec_data_bits(version, ec_level)->Ok_0,
    )
}

//------------------------------------------------------------------------------
// Bits
/// The `Bits` structure stores the encoded data for a QR code.
pub struct Bits {
    data: Vec<bool>,
    version: Version,
}

impl View for Bits {
    type V = Seq<bool>;

    /// The bits pushed so far, in order.
    closed spec fn view(&self) -> Seq<bool> {
        self.data@
    }
}

impl Bits {
    /// The version of the symbol that the bits are meant for.
    pub closed spec fn spec_version(&self) -> Version {
        self.version
    }

    /// The largest number of data bits of a symbol of the version, which is
    /// the number at the lowest error correction level. No checked push
    /// makes the bit stream longer than this.
    pub open spec fn spec_limit(version: Version) -> int {
        match spec_data_bits(version, EcLevel::L) {
            Ok(n) => n,
            Err(_) => 0,
        }
    }

    /// The outcome of a checked push of `extra`: on success the bits are the
    /// old bits followed by `extra`; on an error nothing has changed.
    pub open spec fn pushed(
        before: &Bits,
        after: &Bits,
        r: QrResult<()>,
        extra: Result<Seq<bool>, QrError>,
    ) -> bool {
        &&& after.spec_version() == before.spec_version()
        &&& match appended(before@, extra, Bits::spec_limit(before.spec_version())) {
            Ok(b) => r is Ok && after@ == b,
            Err(e) => r == Err::<(), QrError>(e) && after@ == before@,
        }
    }

    /// Constructs a new, empty bits structure.
    pub fn new(version: Version) -> (r: Bits)
        ensures
            r@ == Seq::<bool>::empty(),
            r.spec_version() == version,
    {
        Bits { data: Vec::new(), version }
    }

    /// Pushes an N-bit big-endian integer to the end of the bits: the `n`
    /// low bits of `number`, the highest of them first.
    pub fn push_number(&mut self, n: usize, number: u16)
        requires
            n <= 16,
        ensures
            final(self)@ == old(self)@ + bits_of(number, n as nat),
            final(self).spec_version() == old(self).spec_version(),
    {
        append_number(&mut self.data, n, number);
    }

    /// Convert the bits into a bytes vector. Eight bits make a byte, the
    /// first of them the highest; the last byte is filled up with zeros.
    pub fn into_bytes(self) -> (r: Vec<u8>)
        ensures
            r@ == bytes_of(self@),
    {
        let n = self.data.len();
        let count = n / 8 + (if n % 8 == 0 {
            0
        } else {
            1
        });
        let mut res: Vec<u8> = Vec::new();
        let mut i: usize = 0;
        while i < count
            invariant
                i <= count,
                n == self.data.len(),
                count == (n + 7) / 8,
                res@ =~= bytes_of(self.data@).take(i as int),
            decreases count - i,
        {
            let byte = byte_at(&self.data, i);
            res.push(byte);
            i += 1;
        }
        res
    }

    /// Total number of bits currently pushed.
    pub fn len(&self) -> (r: usize)
        ensures
            r == self@.len(),
    {
        self.data.len()
    }

    /// Whether there are any bits pushed.
    pub fn is_empty(&self) -> (r: bool)
        ensures
            r == (self@.len() == 0),
    {
        self.data.len() == 0
    }

    /// The maximum number of bits allowed by the provided QR code version and
    /// error correction level.
    ///
    /// Returns `Err(QrError::InvalidVersion)` if it is not valid to use the
    /// `ec_level` for the given version (e.g. `Version::Micro(1)` with
    /// `EcLevel::H`).
    pub fn max_len(&self, ec_level: EcLevel) -> (r: QrResult<usize>)
        ensures
            match spec_data_bits(self.spec_version(), ec_level) {
                Ok(n) => r == Ok::<usize, QrError>(n as usize) && 0 <= n <= 8 * 2 * 255 * 255,
                Err(e) => r == Err::<usize, QrError>(e),
            },
    {
        data_bits(self.version, ec_level)
    }

    /// Version of the QR code.
    pub fn version(&self) -> (r: Version)
        ensures
            r == self.spec_version(),
    {
        self.version
    }

    /// The largest number of bits that a checked push lets the bit stream
    /// reach.
    pub fn limit(&self) -> (r: usize)
        ensures
            r == Bits::spec_limit(self.spec_version()),
    {
        match data_bits(self.version, EcLevel::L) {
            Ok(n) => n,
            Err(_) => 0,
        }
    }

    /// Appends computed bits if that does not make the bit stream longer than
    /// the version allows; hands on the error if there are no bits.
    fn push_checked(&mut self, extra: QrResult<Vec<bool>>, s: Ghost<Result<Seq<bool>, QrError>>) -> (r:
        QrResult<()>)
        requires
            is_bits(extra, s@),
        ensures
            Bits::pushed(old(self), final(self), r, s@),
    {
        match extra {
            Ok(bits) => {
                let limit = self.limit();
                if bits.len() > limit || self.data.len() > limit - bits.len() {
                    Err(QrError::DataTooLong)
                } else {
                    let ghost before = self.data@;
                    let mut i: usize = 0;
                    while i < bits.len()
                        invariant
                            i <= bits.len(),
                            self.version == old(self).version,
                            before == old(self).data@,
                            before.len() + bits.len() <= limit,
                            self.data@ =~= before + bits@.take(i as int),
                        decreases bits.len() - i,
                    {
                        self.data.push(bits[i]);
                        i += 1;
                    }
                    assert(bits@.take(bits.len() as int) =~= bits@);
                    Ok(())
                }
            },
            Err(e) => Err(e),
        }
    }

    /// Push the mode indicator to the end of the bits.
    ///
    /// If the mode is not supported in the provided version, this method
    /// returns `Err(QrError::UnsupportedCharacterSet)`.
    pub fn push_mode_indicator(&mut self, mode: ExtendedMode) -> (r: QrResult<()>)
        ensures
            Bits::pushed(old(self), final(self), r, mode_indicator(old(self).spec_version(), mode)),
    {
        let extra = mode_indicator_bits(self.version, mode);
        self.push_checked(extra, Ghost(mode_indicator(self.version, mode)))
    }

    /// Push an ECI (Extended Channel Interpretation) designator to the bits.
    ///
    /// An ECI designator is a 6-digit number to specify the character set of
    /// the following binary data.
    ///
    /// If the QR code version does not support ECI, this method will return
    /// `Err(QrError::UnsupportedCharacterSet)`.
    ///
    /// If the designator is outside of the expected range, this method will
    /// return `Err(QrError::InvalidECIDesignator)`.
    pub fn push_eci_designator(&mut self, eci_designator: u32) -> (r: QrResult<()>)
        ensures
            Bits::pushed(
                old(self),
                final(self),
                r,
                eci_bits(old(self).spec_version(), eci_designator),
            ),
    {
        let extra = eci_designator_bits(self.version, eci_designator);
        self.push_checked(extra, Ghost(eci_bits(self.version, eci_designator)))
    }

    /// Encodes a numeric string to the bits.
    ///
    /// The data should only contain the characters 0 to 9.
    pub fn push_numeric_data(&mut self, data: &[u8]) -> (r: QrResult<()>)
        ensures
            Bits::pushed(
                old(self),
                final(self),
                r,
                segment_bits(old(self).spec_version(), Mode::Numeric, data@),
            ),
    {
        let extra = segment(self.version, Mode::Numeric, data);
        self.push_checked(extra, Ghost(segment_bits(self.version, Mode::Numeric, data@)))
    }

    /// Encodes an alphanumeric string to the bits.
    ///
    /// The data should only contain the characters A to Z (excluding
    /// lowercase), 0 to 9, space, `$`, `%`, `*`, `+`, `-`, `.`, `/` or `:`.
    pub fn push_alphanumeric_data(&mut self, data: &[u8]) -> (r: QrResult<()>)
        ensures
            Bits::pushed(
                old(self),
                final(self),
                r,
                segment_bits(old(self).spec_version(), Mode::Alphanumeric, data@),
            ),
    {
        let extra = segment(self.version, Mode::Alphanumeric, data);
        self.push_checked(extra, Ghost(segment_bits(self.version, Mode::Alphanumeric, data@)))
    }

    /// Encodes 8-bit byte data to the bits.
    pub fn push_byte_data(&mut self, data: &[u8]) -> (r: QrResult<()>)
        ensures
            Bits::pushed(
                old(self),
                final(self),
                r,
                segment_bits(old(self).spec_version(), Mode::Byte, data@),
            ),
    {
        let extra = segment(self.version, Mode::Byte, data);
        self.push_checked(extra, Ghost(segment_bits(self.version, Mode::Byte, data@)))
    }

    /// Encodes Shift JIS double-byte data to the bits.
    pub fn push_kanji_data(&mut self, data: &[u8]) -> (r: QrResult<()>)
        ensures
            Bits::pushed(
                old(self),
                final(self),
                r,
                segment_bits(old(self).spec_version(), Mode::Kanji, data@),
            ),
    {
        let extra = segment(self.version, Mode::Kanji, data);
        self.push_checked(extra, Ghost(segment_bits(self.version, Mode::Kanji, data@)))
    }

    /// Encodes an indicator that the following data are formatted according
    /// to the UCC/EAN Application Identifiers standard.
    pub fn push_fnc1_first_position(&mut self) -> (r: QrResult<()>)
        ensures
            Bits::pushed(
                old(self),
                final(self),
                r,
                mode_indicator(old(self).spec_version(), ExtendedMode::Fnc1First),
            ),
    {
        self.push_mode_indicator(ExtendedMode::Fnc1First)
    }

    /// Encodes an indicator that the following data are formatted in
    /// accordance with specific industry or application specifications
    /// previously agreed with AIM International, followed by the eight bits
    /// of the application indicator.
    pub fn push_fnc1_second_position(&mut self, application_indicator: u8) -> (r: QrResult<()>)
        ensures
            Bits::pushed(
                old(self),
                final(self),
                r,
                followed_by(
                    mode_indicator(old(self).spec_version(), ExtendedMode::Fnc1Second),
                    bits_of(application_indicator as u16, 8),
                ),
            ),
    {
        let extra = match mode_indicator_bits(self.version, ExtendedMode::Fnc1Second) {
            Ok(mut out) => {
                append_number(&mut out, 8, application_indicator as u16);
                Ok(out)
            },
            Err(e) => Err(e),
        };
        self.push_checked(
            extra,
            Ghost(
                followed_by(
                    mode_indicator(self.version, ExtendedMode::Fnc1Second),
                    bits_of(application_indicator as u16, 8),
                ),
            ),
        )
    }

    /// Pushes the ending bits to indicate no more data: the terminator, then
    /// the padding up to the number of data bits of the version at the
    /// level.
    ///
    /// Returns `InvalidVersion` if the version does not exist at the level
    /// and `DataTooLong` if there are more bits than the symbol holds.
    #[verifier::rlimit(50)]
    pub fn push_terminator(&mut self, ec_level: EcLevel) -> (r: QrResult<()>)
        ensures
            final(self).spec_version() == old(self).spec_version(),
            match spec_data_bits(old(self).spec_version(), ec_level) {
                Ok(capacity) => if old(self)@.len() > capacity {
                    r == Err::<(), QrError>(QrError::DataTooLong) && final(self)@ == old(self)@
                } else {
                    r is Ok && final(self)@ == terminated(
                        old(self)@,
                        old(self).spec_version(),
                        capacity,
                    )
                },
                Err(e) => r == Err::<(), QrError>(e) && final(self)@ == old(self)@,
            },
    {
        let capacity = match self.max_len(ec_level) {
            Ok(c) => c,
            Err(e) => {
                return Err(e);
            },
        };
        let cur = self.data.len();
        if cur > capacity {
            return Err(QrError::DataTooLong);
        }
        let term: usize = match self.version {
            Version::Micro(a) => (a as usize) * 2 + 1,
            _ => 4,
        };
        let room = capacity - cur;
        let t = if term < room {
            term
        } else {
            room
        };
        let boundary = (cur + t + 7) / 8 * 8;
        let stop = if boundary < capacity {
            boundary
        } else {
            capacity
        };
        let ghost goal = terminated(old(self)@, self.version, capacity as int);
        assert(self.data@ =~= goal.take(cur as int));
        while self.data.len() < stop
            invariant
                cur <= self.data.len() <= stop,
                stop <= capacity,
                stop <= boundary,
                self.version == old(self).version,
                cur == old(self).data@.len(),
                term == terminator_size(self.version),
                t == (if term < capacity - cur {
                    term
                } else {
                    (capacity - cur) as usize
                }),
                boundary == (cur + t + 7) / 8 * 8,
                goal == terminated(old(self)@, self.version, capacity as int),
                self.data@ =~= goal.take(self.data.len() as int),
            decreases stop - self.data.len(),
        {
            self.data.push(false);
        }
        let mut k: usize = 0;
        while capacity - self.data.len() >= 8
            invariant
                self.data.len() <= capacity,
                stop == boundary ==> self.data.len() == boundary + 8 * k,
                stop != boundary ==> self.data.len() == capacity,
                stop <= capacity,
                self.version == old(self).version,
                cur == old(self).data@.len(),
                cur <= boundary,
                term == terminator_size(self.version),
                t == (if term < capacity - cur {
                    term
                } else {
                    (capacity - cur) as usize
                }),
                boundary == (cur + t + 7) / 8 * 8,
                goal == terminated(old(self)@, self.version, capacity as int),
                self.data@ =~= goal.take(self.data.len() as int),
            decreases capacity - self.data.len(),
        {
            let mut pos: usize = 0;
            while pos < 8
                invariant
                    pos <= 8,
                    self.data.len() == boundary + 8 * k + pos,
                    boundary + 8 * (k + 1) <= capacity,
                    self.version == old(self).version,
                    cur == old(self).data@.len(),
                    cur <= boundary,
                    term == terminator_size(self.version),
                    t == (if term < capacity - cur {
                        term
                    } else {
                        (capacity - cur) as usize
                    }),
                    boundary == (cur + t + 7) / 8 * 8,
                    goal == terminated(old(self)@, self.version, capacity as int),
                    self.data@ =~= goal.take(self.data.len() as int),
                decreases 8 - pos,
            {
                self.data.push(pad_bit(k, pos));
                pos += 1;
            }
            k += 1;
        }
        while self.data.len() < capacity
            invariant
                self.data.len() <= capacity,
                stop == boundary ==> boundary + 8 * k <= self.data.len() < boundary + 8 * k + 8
                    && boundary + 8 * (k + 1) > capacity,
                stop != boundary ==> self.data.len() == capacity,
                self.version == old(self).version,
                cur == old(self).data@.len(),
                cur <= boundary,
                term == terminator_size(self.version),
                t == (if term < capacity - cur {
                    term
                } else {
                    (capacity - cur) as usize
                }),
                boundary == (cur + t + 7) / 8 * 8,
                goal == terminated(old(self)@, self.version, capacity as int),
                self.data@ =~= goal.take(self.data.len() as int),
            decreases capacity - self.data.len(),
        {
            self.data.push(false);
        }
        assert(goal.take(capacity as int) =~= goal);
        Ok(())
    }

    /// Push a segmented data to the bits, one segment after another.
    ///
    /// The segments must lie in the data.
    pub fn push_segments(&mut self, data: &[u8], segments: &[Segment]) -> (r: QrResult<()>)
        requires
            forall|i: int|
                0 <= i < segments.len() ==> (#[trigger] segments[i]).begin <= segments[i].end
                    <= data.len(),
        ensures
            Bits::pushed(
                old(self),
                final(self),
                r,
                segments_bits(old(self).spec_version(), data@, segments@),
            ),
    {
        let mut all: Vec<bool> = Vec::new();
        let mut i: usize = 0;
        let ghost version = self.version;
        assert(segments@.take(0) =~= Seq::<Segment>::empty());
        while i < segments.len()
            invariant
                i <= segments.len(),
                self.version == version,
                forall|t: int|
                    0 <= t < segments.len() ==> (#[trigger] segments[t]).begin <= segments[t].end
                        <= data.len(),
                segments_bits(version, data@, segments@.take(i as int)) == Ok::<
                    Seq<bool>,
                    QrError,
                >(all@),
            decreases segments.len() - i,
        {
            let seg = segments[i];
            assert(segments@.take(i + 1).drop_last() =~= segments@.take(i as int));
            assert(segments@.take(i + 1).last() == seg);
            let piece = slice_subrange(data, seg.begin, seg.end);
            match segment(self.version, seg.mode, piece) {
                Ok(bits) => {
                    let ghost before = all@;
                    let mut t: usize = 0;
                    while t < bits.len()
                        invariant
                            t <= bits.len(),
                            all@ =~= before + bits@.take(t as int),
                        decreases bits.len() - t,
                    {
                        all.push(bits[t]);
                        t += 1;
                    }
                    assert(bits@.take(bits.len() as int) =~= bits@);
                },
                Err(e) => {
                    proof {
                        lemma_segments_error_stays(version, data@, segments@, i + 1);
                    }
                    return Err(e);
                },
            }
            i += 1;
        }
        assert(segments@.take(segments.len() as int) =~= segments@);
        self.push_checked(Ok(all), Ghost(segments_bits(version, data@, segments@)))
    }

    /// Pushes the data to the bits, after using the optimal segmentation.
    ///
    /// A version without tables gives `InvalidVersion`. Where no way to cut
    /// the data into segments fits the room that is left up to the largest
    /// number of data bits of the version, the result is `DataTooLong`.
    /// Otherwise the segments that are chosen for the data, which take the
    /// fewest bits, are pushed as `push_segments` does it.
    pub fn push_optimal_data(&mut self, data: &[u8]) -> (r: QrResult<()>)
        ensures
            final(self).spec_version() == old(self).spec_version(),
            !old(self).spec_version().is_supported() ==> r == Err::<(), QrError>(
                QrError::InvalidVersion,
            ) && final(self)@ == old(self)@,
            old(self).spec_version().is_supported() ==> if all_too_long(
                data@,
                old(self).spec_version(),
                Bits::spec_limit(old(self).spec_version()) - old(self)@.len(),
            ) {
                r == Err::<(), QrError>(QrError::DataTooLong) && final(self)@ == old(self)@
            } else {
                &&& is_optimal(
                    data@,
                    chosen_segments(data@, old(self).spec_version(), data@.len() as int),
                    old(self).spec_version(),
                )
                &&& Bits::pushed(
                    old(self),
                    final(self),
                    r,
                    segments_bits(
                        old(self).spec_version(),
                        data@,
                        chosen_segments(data@, old(self).spec_version(), data@.len() as int),
                    ),
                )
            },
    {
        if !self.version.supported() {
            return Err(QrError::InvalidVersion);
        }
        let ghost version = self.version;
        let ghost n = data@.len() as int;
        let limit = self.limit();
        let cur = self.data.len();
        proof {
            lemma_supported_has_capacity(version);
            lemma_limit_is_largest(version, EcLevel::L);
        }
        if cur > limit || data.len() > (limit - cur) / 3 {
            proof {
                assert forall|s: Seq<Segment>| #[trigger]
                    is_segmentation(data@, s, n) implies total_len(s, version) > limit - cur by {
                    lemma_total_len_lower_bound(data@, s, n, version);
                }
            }
            return Err(QrError::DataTooLong);
        }
        let (segs, total) = optimize(data, self.version);
        if total > (limit - cur) as u128 {
            return Err(QrError::DataTooLong);
        }
        proof {
            lemma_segments_in_range(data@, segs@, n);
        }
        self.push_segments(data, segs.as_slice())
    }
}

/// Automatically determines the minimum version to store the data, and encode
/// the result.
///
/// This method will not consider any Micro QR code versions.
///
/// Returns `Err(QrError::DataTooLong)` if the data does not fit a QR code of
/// version 40 at the level.
#[verifier::rlimit(60)]
pub fn encode_auto(data: &[u8], ec_level: EcLevel) -> (r: QrResult<Bits>)
    ensures
        match r {
            Ok(bits) => is_smallest_fit(data@, ec_level, bits.spec_version()) && bits@
                == encoding_in(data@, ec_level, bits.spec_version()),
            Err(e) => e == QrError::DataTooLong && forall|u: int|
                1 <= u <= 40 ==> #[trigger] no_fit(data@, Version::Normal(u as i16), ec_level),
        },
{
    let ghost n = data@.len() as int;
    if data.len() > 7882 {
        proof {
            assert forall|u: int| 1 <= u <= 40 implies #[trigger] no_fit(
                data@,
                Version::Normal(u as i16),
                ec_level,
            ) by {
                let version = Version::Normal(u as i16);
                lemma_capacity_class(u as i16, ec_level);
                assert forall|s: Seq<Segment>| #[trigger]
                    is_segmentation(data@, s, n) implies total_len(s, version) > spec_data_bits(
                    version,
                    ec_level,
                )->Ok_0 by {
                    lemma_total_len_lower_bound(data@, s, n, version);
                }
            }
        }
        return Err(QrError::DataTooLong);
    }
    let mut segs: Vec<Segment> = Vec::new();
    let mut total: u128 = 0;
    let ghost mut rep: i16 = 1;
    let mut v: i16 = 1;
    while v <= 40
        invariant
            1 <= v <= 41,
            n == data@.len(),
            n <= 7882,
            forall|u: int|
                1 <= u < v ==> #[trigger] no_fit(data@, Version::Normal(u as i16), ec_level),
            v != 1 && v != 10 && v != 27 ==> {
                &&& 1 <= rep <= 40
                &&& version_class(rep as int) == version_class(v as int)
                &&& segs@ == chosen_segments(data@, Version::Normal(rep), n)
                &&& is_optimal(data@, segs@, Version::Normal(rep))
                &&& total == total_len(segs@, Version::Normal(rep))
            },
        decreases 41 - v,
    {
        let version = Version::Normal(v);
        if v == 1 || v == 10 || v == 27 {
            let (s, t) = optimize(data, version);
            segs = s;
            total = t;
            proof {
                rep = v;
            }
        }
        proof {
            lemma_total_len_same_class(segs@, rep, v);
            lemma_chosen_same_class(data@, rep, v, n);
            assert forall|other: Seq<Segment>| #[trigger]
                is_segmentation(data@, other, n) implies total_len(segs@, version) <= total_len(
                other,
                version,
            ) by {
                lemma_total_len_same_class(other, rep, v);
            }
            assert(is_optimal(data@, segs@, version));
            lemma_capacity_class(v, ec_level);
        }
        match data_bits(version, ec_level) {
            Ok(capacity) => {
                if total <= capacity as u128 {
                    proof {
                        lemma_fitting_segments_encode(v, ec_level, data@, segs@, n);
                        lemma_limit_is_largest(version, ec_level);
                        lemma_segments_in_range(data@, segs@, n);
                    }
                    let mut bits = Bits::new(version);
                    match bits.push_segments(data, segs.as_slice()) {
                        Ok(()) => {},
                        Err(e) => {
                            return Err(e);
                        },
                    }
                    match bits.push_terminator(ec_level) {
                        Ok(()) => {},
                        Err(e) => {
                            return Err(e);
                        },
                    }
                    proof {
                        assert(is_smallest_fit(data@, ec_level, bits.spec_version()));
                    }
                    return Ok(bits);
                }
            },
            Err(_) => {},
        }
        v += 1;
    }
    Err(QrError::DataTooLong)
}

} // verus!
