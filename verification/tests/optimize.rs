use qrcode::cast::{As, Truncate};
use qrcode::charset::{accepts, alphanumeric_digit, digit, kanji_number, kanji_pair};
use qrcode::optimize::{optimal_segments, optimize, segment_cost, total_encoded_len, Segment};
use qrcode::types::{Mode, Version};

const MODES: [Mode; 4] = [Mode::Numeric, Mode::Alphanumeric, Mode::Byte, Mode::Kanji];

/// The least number of bits of any segmentation, found by trying every last segment.
fn least_cost(data: &[u8], version: Version) -> usize {
    let n = data.len();
    let mut best = vec![usize::MAX; n + 1];
    best[0] = 0;
    for i in 1..=n {
        for j in 0..i {
            for mode in MODES {
                if accepts(mode, &data[j..i]) {
                    let seg = Segment { mode, begin: j, end: i };
                    best[i] = best[i].min(best[j] + seg.encoded_len(version));
                }
            }
        }
    }
    best[n]
}

fn check_segmentation(data: &[u8], version: Version) -> Vec<Segment> {
    let segs = optimal_segments(data, version);
    let mut at = 0;
    for seg in &segs {
        assert_eq!(seg.begin, at);
        assert!(seg.begin < seg.end);
        assert!(accepts(seg.mode, &data[seg.begin..seg.end]));
        at = seg.end;
    }
    assert_eq!(at, data.len());
    let total = total_encoded_len(&segs, version);
    assert_eq!(total, least_cost(data, version));
    let (same, cost) = optimize(data, version);
    assert_eq!(same, segs);
    assert_eq!(cost, total as u128);
    segs
}

#[test]
fn test_optimal_segments_examples() {
    let versions = [Version::Normal(1), Version::Normal(10), Version::Normal(27), Version::Micro(2), Version::Micro(4), Version::RectMicro(13, 77)];
    let inputs: [&[u8]; 12] = [
        b"",
        b"1",
        b"01234567",
        b"ABC",
        b"abc",
        b"A1B2C3D4E5",
        b"0123456789ABCDEF0123456789abcdef0123456789",
        b"Golden ratio \xcf\x86 = 1.6180339887498948482045868343656381177203091798057628621354486227052604628189024497072072041893911374......",
        b"\x93\x5f\xe4\xaa\x93\x5f\xe4\xaa",
        b"\x93\x5f1\xe4\xaa12345\x93\x5f\xe4\xaaAB",
        b"HTTP://EXAMPLE.COM/12345678/index.html?q=1",
        b"\x81\x40\x81\x40\x81\x40\x81\x40\x81\x40\x81",
    ];
    for version in versions {
        for input in inputs {
            check_segmentation(input, version);
        }
    }
}

#[test]
fn test_optimal_segments_shapes() {
    let v = Version::Normal(1);
    assert_eq!(optimal_segments(b"", v), vec![]);
    assert_eq!(optimal_segments(b"01234567", v), vec![Segment { mode: Mode::Numeric, begin: 0, end: 8 }]);
    assert_eq!(optimal_segments(b"HELLO WORLD", v), vec![Segment { mode: Mode::Alphanumeric, begin: 0, end: 11 }]);
    assert_eq!(optimal_segments(b"hello", v), vec![Segment { mode: Mode::Byte, begin: 0, end: 5 }]);
    assert_eq!(optimal_segments(b"\x93\x5f\xe4\xaa", v), vec![Segment { mode: Mode::Kanji, begin: 0, end: 4 }]);
    // A few digits among letters are not worth a segment of their own ...
    assert_eq!(optimal_segments(b"AB12CD", v), vec![Segment { mode: Mode::Alphanumeric, begin: 0, end: 6 }]);
    // ... but many digits are.
    assert_eq!(
        optimal_segments(b"ABCDE0123456789012345678901234567890", v),
        vec![Segment { mode: Mode::Alphanumeric, begin: 0, end: 5 }, Segment { mode: Mode::Numeric, begin: 5, end: 36 }]
    );
    assert_eq!(
        optimal_segments(b"abc0123456789012345678901234567890", v),
        vec![Segment { mode: Mode::Byte, begin: 0, end: 3 }, Segment { mode: Mode::Numeric, begin: 3, end: 34 }]
    );
}

#[test]
fn test_digits_make_one_segment() {
    for version in [Version::Normal(1), Version::Normal(40), Version::Micro(1), Version::Micro(3), Version::RectMicro(7, 43)] {
        for n in 1..40usize {
            let data = vec![b'0' + (n % 10) as u8; n];
            let segs = check_segmentation(&data, version);
            assert_eq!(segs, vec![Segment { mode: Mode::Numeric, begin: 0, end: n }]);
            let header = version.mode_bits_count() + Mode::Numeric.length_bits_count(version);
            assert_eq!(total_encoded_len(&segs, version), header + Mode::Numeric.data_bits_count(n));
        }
    }
}

#[test]
fn test_segment_cost() {
    let v = Version::Normal(1);
    assert_eq!(segment_cost(v, Mode::Numeric, 8), 4 + 10 + 27);
    assert_eq!(segment_cost(v, Mode::Alphanumeric, 5), 4 + 9 + 28);
    assert_eq!(segment_cost(v, Mode::Byte, 3), 4 + 8 + 24);
    assert_eq!(segment_cost(v, Mode::Kanji, 4), 4 + 8 + 26);
    assert_eq!(segment_cost(Version::Micro(2), Mode::Numeric, 8), 1 + 4 + 27);
    assert_eq!(Segment { mode: Mode::Kanji, begin: 3, end: 9 }.encoded_len(Version::Normal(12)), 4 + 10 + 39);
    assert_eq!(Segment { mode: Mode::Byte, begin: 3, end: 3 }.encoded_len(Version::Normal(12)), 4 + 16);
    assert_eq!(total_encoded_len(&[], v), 0);
}

#[test]
fn test_charsets() {
    for b in 0..=255u8 {
        assert_eq!(digit(b), b.is_ascii_digit());
        let expected = b"0123456789ABCDEFGHIJKLMNOPQRSTUVWXYZ $%*+-./:".iter().position(|c| *c == b).map(|p| p as u16);
        assert_eq!(alphanumeric_digit(b), expected);
    }
    assert!(kanji_pair(0x81, 0x40));
    assert!(kanji_pair(0x9f, 0xfc));
    assert!(kanji_pair(0xe0, 0x40));
    assert!(kanji_pair(0xeb, 0xbf));
    assert!(!kanji_pair(0xeb, 0xc0));
    assert!(!kanji_pair(0x80, 0x40));
    assert!(!kanji_pair(0xa0, 0x40));
    assert!(!kanji_pair(0xec, 0x40));
    assert!(!kanji_pair(0x81, 0x3f));
    assert!(!kanji_pair(0x81, 0x7f));
    assert!(!kanji_pair(0x81, 0xfd));
    assert_eq!(kanji_number(0x81, 0x40), 0);
    assert_eq!(kanji_number(0x93, 0x5f), 0x0d9f);
    assert_eq!(kanji_number(0xe4, 0xaa), 0x1aaa);
    assert_eq!(kanji_number(0xeb, 0xbf), 0x1fff);
    assert!(accepts(Mode::Numeric, b""));
    assert!(accepts(Mode::Kanji, b""));
    assert!(accepts(Mode::Numeric, b"0123456789"));
    assert!(!accepts(Mode::Numeric, b"0123456789A"));
    assert!(accepts(Mode::Alphanumeric, b"AZ09 $%*+-./:"));
    assert!(!accepts(Mode::Alphanumeric, b"az"));
    assert!(accepts(Mode::Byte, b"\x00\xff"));
    assert!(accepts(Mode::Kanji, b"\x93\x5f\xe4\xaa"));
    assert!(!accepts(Mode::Kanji, b"\x93\x5f\xe4"));
    assert!(!accepts(Mode::Kanji, b"\x93\x5f00"));
}

#[test]
fn test_casts() {
    assert_eq!(0x1234u16.truncate_as_u8(), 0x34);
    assert_eq!(0xffu16.truncate_as_u8(), 0xff);
    assert_eq!(177i16.as_usize(), 177);
    assert_eq!(177i16.as_u16(), 177);
    assert_eq!((-5i16).as_isize(), -5);
    assert_eq!((-5i16).as_i16(), -5);
    assert_eq!(40u32.as_i16(), 40);
    assert_eq!(40u32.as_u32(), 40);
    assert_eq!(40usize.as_u32(), 40);
    assert_eq!(40usize.as_i16(), 40);
    assert_eq!(40isize.as_usize(), 40);
    assert_eq!(40isize.as_u16(), 40);
}
