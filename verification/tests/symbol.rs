use qrcode::bits::Bits;
use qrcode::ec::construct_codewords;
use qrcode::mask::{format_info, patterns_of};
use qrcode::types::QrError;
use qrcode::{Color, EcLevel, QrCode, Version};

#[test]
fn test_annex_i_qr() {
    // This uses the ISO Annex I as test vector.
    let code = QrCode::with_version(b"01234567", Version::Normal(1), EcLevel::M).unwrap();
    assert_eq!(
        &*code.to_debug_str('#', '.'),
        "\
         #######..#.##.#######\n\
         #.....#..####.#.....#\n\
         #.###.#.#.....#.###.#\n\
         #.###.#.##....#.###.#\n\
         #.###.#.#.###.#.###.#\n\
         #.....#.#...#.#.....#\n\
         #######.#.#.#.#######\n\
         ........#..##........\n\
         #.#####..#..#.#####..\n\
         ...#.#.##.#.#..#.##..\n\
         ..#...##.#.#.#..#####\n\
         ....#....#.....####..\n\
         ...######..#.#..#....\n\
         ........#.#####..##..\n\
         #######..##.#.##.....\n\
         #.....#.#.#####...#.#\n\
         #.###.#.#...#..#.##..\n\
         #.###.#.##..#..#.....\n\
         #.###.#.#.##.#..#.#..\n\
         #.....#........##.##.\n\
         #######.####.#..#.#.."
    );
}

#[test]
fn test_annex_i_micro_qr() {
    let code = QrCode::with_version(b"01234567", Version::Micro(2), EcLevel::L).unwrap();
    assert_eq!(
        &*code.to_debug_str('#', '.'),
        "\
         #######.#.#.#\n\
         #.....#.###.#\n\
         #.###.#..##.#\n\
         #.###.#..####\n\
         #.###.#.###..\n\
         #.....#.#...#\n\
         #######..####\n\
         .........##..\n\
         ##.#....#...#\n\
         .##.#.#.#.#.#\n\
         ###..#######.\n\
         ...#.#....##.\n\
         ###.#..##.###"
    );
}

#[test]
fn test_new_chooses_smallest_version() {
    let code = QrCode::new(b"01234567").unwrap();
    assert_eq!(code.version(), Version::Normal(1));
    assert_eq!(code.error_correction_level(), EcLevel::M);
    // The same symbol as the one asked for by version.
    let other = QrCode::with_version(b"01234567", Version::Normal(1), EcLevel::M).unwrap();
    assert_eq!(code.to_colors(), other.to_colors());
}

#[test]
fn test_width_and_height_follow_version() {
    let versions = [
        (Version::Normal(1), EcLevel::L),
        (Version::Normal(2), EcLevel::H),
        (Version::Normal(7), EcLevel::Q),
        (Version::Normal(40), EcLevel::M),
        (Version::Micro(1), EcLevel::L),
        (Version::Micro(4), EcLevel::Q),
    ];
    for (version, level) in versions {
        let code = QrCode::with_version(b"123", version, level).unwrap();
        assert_eq!(code.width(), version.width() as usize);
        assert_eq!(code.width(), version.height() as usize);
        assert_eq!(code.to_colors().len(), code.width() * code.width());
        assert_eq!(code.to_vec().len(), code.width() * code.width());
        assert_eq!(code.version(), version);
        assert_eq!(code.error_correction_level(), level);
    }
}

#[test]
fn test_data_too_long_for_largest_version() {
    // Version 40 at level H holds 1273 bytes.
    let data = vec![0xa5u8; 1274];
    let r = QrCode::with_version(&data, Version::Normal(40), EcLevel::H);
    assert_eq!(r.err(), Some(QrError::DataTooLong));
    let fits = vec![0xa5u8; 1273];
    assert!(QrCode::with_version(&fits, Version::Normal(40), EcLevel::H).is_ok());
}

#[test]
fn test_auto_data_too_long() {
    // Version 40 at level L holds 2953 bytes.
    let data = vec![0xa5u8; 2954];
    assert_eq!(QrCode::with_error_correction_level(&data, EcLevel::L).err(), Some(QrError::DataTooLong));
    let fits = vec![0xa5u8; 2953];
    let code = QrCode::with_error_correction_level(&fits, EcLevel::L).unwrap();
    assert_eq!(code.version(), Version::Normal(40));
    let huge = vec![b'1'; 100000];
    assert_eq!(QrCode::new(&huge).err(), Some(QrError::DataTooLong));
}

#[test]
fn test_level_missing_in_micro_version() {
    assert_eq!(QrCode::with_version(b"1", Version::Micro(1), EcLevel::M).err(), Some(QrError::InvalidVersion));
    assert_eq!(QrCode::with_version(b"1", Version::Micro(1), EcLevel::H).err(), Some(QrError::InvalidVersion));
    assert_eq!(QrCode::with_version(b"1", Version::Micro(2), EcLevel::Q).err(), Some(QrError::InvalidVersion));
    assert_eq!(QrCode::with_version(b"1", Version::Micro(4), EcLevel::H).err(), Some(QrError::InvalidVersion));
    assert!(QrCode::with_version(b"1", Version::Micro(4), EcLevel::Q).is_ok());
}

#[test]
fn test_invalid_versions() {
    assert_eq!(QrCode::with_version(b"1", Version::Normal(0), EcLevel::L).err(), Some(QrError::InvalidVersion));
    assert_eq!(QrCode::with_version(b"1", Version::Normal(41), EcLevel::L).err(), Some(QrError::InvalidVersion));
    assert_eq!(QrCode::with_version(b"1", Version::Micro(5), EcLevel::L).err(), Some(QrError::InvalidVersion));
    assert_eq!(QrCode::with_version(b"1", Version::RectMicro(7, 43), EcLevel::M).err(), Some(QrError::InvalidVersion));
}

#[test]
fn test_unsupported_character_set_in_micro() {
    // Version M1 is numeric only, M2 has no byte mode.
    assert_eq!(QrCode::with_version(b"A", Version::Micro(1), EcLevel::L).err(), Some(QrError::UnsupportedCharacterSet));
    assert_eq!(QrCode::with_version(b"a", Version::Micro(2), EcLevel::L).err(), Some(QrError::UnsupportedCharacterSet));
    assert!(QrCode::with_version(b"a", Version::Micro(3), EcLevel::L).is_ok());
}

#[test]
fn test_with_bits_terminates() {
    // Bits that were terminated and bits that were not give one symbol.
    let mut a = Bits::new(Version::Normal(1));
    a.push_numeric_data(b"01234567").unwrap();
    let mut b = Bits::new(Version::Normal(1));
    b.push_numeric_data(b"01234567").unwrap();
    b.push_terminator(EcLevel::M).unwrap();
    let x = QrCode::with_bits(a, EcLevel::M).unwrap();
    let y = QrCode::with_bits(b, EcLevel::M).unwrap();
    assert_eq!(x.to_colors(), y.to_colors());
    let z = QrCode::with_version(b"01234567", Version::Normal(1), EcLevel::M).unwrap();
    assert_eq!(x.to_colors(), z.to_colors());
}

#[test]
fn test_with_bits_errors() {
    let mut bits = Bits::new(Version::Normal(1));
    bits.push_byte_data(b"0123456789").unwrap();
    // 4 + 8 + 80 bits do not fit the 72 data bits of level H.
    assert_eq!(QrCode::with_bits(bits, EcLevel::H).err(), Some(QrError::DataTooLong));
    let bits = Bits::new(Version::Micro(1));
    assert_eq!(QrCode::with_bits(bits, EcLevel::Q).err(), Some(QrError::InvalidVersion));
}

#[test]
fn test_max_allowed_errors_of_symbol() {
    let code = QrCode::with_version(b"01234567", Version::Normal(1), EcLevel::M).unwrap();
    assert_eq!(code.max_allowed_errors(), 5);
    let code = QrCode::with_version(b"01234567", Version::Micro(2), EcLevel::L).unwrap();
    assert_eq!(code.max_allowed_errors(), 2);
}

#[test]
fn test_is_functional_of_symbol() {
    let code = QrCode::with_version(b"01234567", Version::Normal(1), EcLevel::M).unwrap();
    // Finder pattern, separator, timing pattern, format information, dark module.
    assert!(code.is_functional(0, 0));
    assert!(code.is_functional(7, 7));
    assert!(code.is_functional(10, 6));
    assert!(code.is_functional(6, 10));
    assert!(code.is_functional(8, 8));
    assert!(code.is_functional(8, 13));
    assert!(code.is_functional(20, 8));
    // Data.
    assert!(!code.is_functional(20, 20));
    assert!(!code.is_functional(9, 0));
    assert!(!code.is_functional(9, 9));
    assert!(!code.is_functional(0, 9));
    let count = (0..21).flat_map(|y| (0..21).map(move |x| (x, y))).filter(|&(x, y)| !code.is_functional(x, y)).count();
    // 26 codewords of eight bits.
    assert_eq!(count, 208);
}

#[test]
fn test_get_and_colors_agree() {
    let code = QrCode::with_version(b"01234567", Version::Normal(1), EcLevel::M).unwrap();
    let colors = code.to_colors();
    let bools = code.to_vec();
    for y in 0..21 {
        for x in 0..21 {
            assert_eq!(code.get(x, y), colors[y * 21 + x]);
            assert_eq!(code[(x, y)], colors[y * 21 + x]);
            assert_eq!(bools[y * 21 + x], colors[y * 21 + x] == Color::Dark);
        }
    }
    assert_eq!(code.get(0, 0), Color::Dark);
    assert_eq!(code.get(7, 0), Color::Light);
    let other = QrCode::with_version(b"01234567", Version::Normal(1), EcLevel::M).unwrap();
    assert_eq!(other.into_colors(), colors);
    let other = QrCode::with_version(b"01234567", Version::Normal(1), EcLevel::M).unwrap();
    assert_eq!(other.into_vec(), bools);
}

#[test]
fn test_render_of_symbol() {
    let code = QrCode::with_version(b"01234567", Version::Micro(2), EcLevel::L).unwrap();
    let mut renderer = code.render::<u8>();
    let text = renderer.quiet_zone(false).to_string("#", ".");
    let expected = format!("{}\n", code.to_debug_str('#', '.'));
    assert_eq!(text, expected);
    // The quiet zone of a Micro QR code is two modules wide, that of a QR code four.
    let text = code.render::<u8>().to_string("#", ".");
    assert_eq!(text.lines().count(), 17);
    assert_eq!(text.lines().next().unwrap(), ".................");
    let code = QrCode::with_version(b"01234567", Version::Normal(1), EcLevel::M).unwrap();
    let text = code.render::<u8>().to_string("#", ".");
    assert_eq!(text.lines().count(), 29);
}

#[test]
fn test_clone_keeps_the_symbol() {
    let code = QrCode::with_version(b"01234567", Version::Normal(1), EcLevel::M).unwrap();
    let copy = code.clone();
    assert_eq!(copy.version(), code.version());
    assert_eq!(copy.width(), code.width());
    assert_eq!(copy.into_colors(), code.to_colors());
}

/// Reads the codewords back from a symbol: finds the mask pattern in the format information,
/// walks the columns two by two from the right edge, and takes the mask off every data module.
fn read_codewords(code: &QrCode) -> Vec<u8> {
    let version = code.version();
    let level = code.error_correction_level();
    let w = code.width();
    let normal = version.is_normal();
    let dark = |x: usize, y: usize| code.get(x, y) == Color::Dark;
    let places: Vec<(usize, usize)> = if normal {
        vec![(0, 8), (1, 8), (2, 8), (3, 8), (4, 8), (5, 8), (7, 8), (8, 8), (8, 7), (8, 5), (8, 4), (8, 3), (8, 2), (8, 1), (8, 0)]
    } else {
        vec![(1, 8), (2, 8), (3, 8), (4, 8), (5, 8), (6, 8), (7, 8), (8, 8), (8, 7), (8, 6), (8, 5), (8, 4), (8, 3), (8, 2), (8, 1)]
    };
    let shown = places.iter().fold(0u16, |acc, &(x, y)| acc << 1 | dark(x, y) as u16);
    let masks: Vec<_> = patterns_of(version).into_iter().filter(|p| format_info(version, level, *p) == shown).collect();
    assert_eq!(masks.len(), 1);
    let mask = masks[0];
    if normal {
        // The second copy of the format information and the dark module.
        let copy: Vec<(usize, usize)> = (0..7).map(|t| (8, w - 1 - t)).chain((0..8).map(|t| (w - 8 + t, 8))).collect();
        assert_eq!(copy.iter().fold(0u16, |acc, &(x, y)| acc << 1 | dark(x, y) as u16), shown);
        assert!(dark(8, w - 8));
    }
    let mut bits = Vec::new();
    let mut right = w as isize - 1;
    let mut upward = true;
    while right > 0 {
        if normal && right == 6 {
            right -= 1;
        }
        for step in 0..w {
            let y = if upward { w - 1 - step } else { step };
            for x in [right as usize, right as usize - 1] {
                if !code.is_functional(x, y) {
                    bits.push(dark(x, y) != mask.inverts(x as i16, y as i16));
                }
            }
        }
        right -= 2;
        upward = !upward;
    }
    bits.chunks(8).filter(|c| c.len() == 8).map(|c| c.iter().fold(0u8, |acc, b| acc << 1 | *b as u8)).collect()
}

#[test]
fn test_codewords_can_be_read_back() {
    let text = b"The quick brown fox jumps over the lazy dog 0123456789 THE QUICK BROWN FOX JUMPS OVER THE LAZY DOG";
    let cases = [
        (Version::Normal(1), EcLevel::H, 5),
        (Version::Normal(2), EcLevel::L, 30),
        (Version::Normal(5), EcLevel::Q, 50),
        (Version::Normal(7), EcLevel::M, 98),
        (Version::Normal(10), EcLevel::H, 98),
        (Version::Normal(14), EcLevel::L, 98),
        (Version::Normal(21), EcLevel::Q, 98),
        (Version::Normal(32), EcLevel::M, 98),
        (Version::Normal(40), EcLevel::H, 98),
        (Version::Micro(2), EcLevel::M, 0),
        (Version::Micro(4), EcLevel::Q, 6),
    ];
    for (version, level, n) in cases {
        let data = if n == 0 { &b"12345"[..] } else { &text[..n] };
        let code = QrCode::with_version(data, version, level).unwrap();
        let mut bits = Bits::new(version);
        bits.push_optimal_data(data).unwrap();
        bits.push_terminator(level).unwrap();
        let (mut expected, ec) = construct_codewords(&bits.into_bytes(), version, level).unwrap();
        expected.extend_from_slice(&ec);
        let read = read_codewords(&code);
        assert_eq!(read.len(), expected.len(), "{:?}", version);
        assert_eq!(read, expected, "{:?}", version);
    }
}

#[test]
fn test_version_information_is_shown() {
    // From version 7 on the symbol shows six bits of its version and twelve check bits, twice.
    for v in [7i16, 12, 23, 40] {
        let code = QrCode::with_version(b"VERSION", Version::Normal(v), EcLevel::M).unwrap();
        let w = code.width();
        let mut below = 0u32;
        let mut beside = 0u32;
        for i in (0..18).rev() {
            below = below << 1 | (code.get(i / 3, w - 11 + i % 3) == Color::Dark) as u32;
            beside = beside << 1 | (code.get(w - 11 + i % 3, i / 3) == Color::Dark) as u32;
        }
        assert_eq!(below >> 12, v as u32);
        assert_eq!(below, beside);
        let mut rest = below;
        for i in (12..18).rev() {
            if rest >> i & 1 == 1 {
                rest ^= 0x1f25 << (i - 12);
            }
        }
        assert_eq!(rest, 0);
    }
}
