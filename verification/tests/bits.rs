use qrcode::bits::{encode_auto, Bits, ExtendedMode};
use qrcode::optimize::Segment;
use qrcode::types::{EcLevel, Mode, QrError, Version};

#[test]
fn test_push_number() {
    let mut bits = Bits::new(Version::Normal(1));
    bits.push_number(3, 0b010); // 0:0 .. 0:3
    bits.push_number(3, 0b110); // 0:3 .. 0:6
    bits.push_number(3, 0b101); // 0:6 .. 1:1
    bits.push_number(7, 0b001_1010); // 1:1 .. 2:0
    bits.push_number(4, 0b1100); // 2:0 .. 2:4
    bits.push_number(12, 0b1011_0110_1101); // 2:4 .. 4:0
    bits.push_number(10, 0b01_1001_0001); // 4:0 .. 5:2
    bits.push_number(15, 0b111_0010_1110_0011); // 5:2 .. 7:1
    assert_eq!(bits.len(), 57);
    assert!(!bits.is_empty());
    let bytes = bits.into_bytes();
    assert_eq!(bytes, vec![0x5a, 0x9a, 0xcb, 0x6d, 0x64, 0x79, 0x71, 0x80]);
}

#[test]
fn test_push_number_keeps_low_bits() {
    let mut bits = Bits::new(Version::Normal(1));
    bits.push_number(4, 0xffff);
    bits.push_number(0, 0xffff);
    bits.push_number(16, 0x1234);
    assert_eq!(bits.len(), 20);
    assert_eq!(bits.into_bytes(), vec![0xf1, 0x23, 0x40]);
}

#[test]
fn test_new_bits_are_empty() {
    let bits = Bits::new(Version::Micro(3));
    assert!(bits.is_empty());
    assert_eq!(bits.len(), 0);
    assert_eq!(bits.version(), Version::Micro(3));
    assert_eq!(bits.into_bytes(), Vec::<u8>::new());
}

#[test]
fn test_max_len() {
    assert_eq!(Bits::new(Version::Normal(1)).max_len(EcLevel::L), Ok(152));
    assert_eq!(Bits::new(Version::Normal(1)).max_len(EcLevel::H), Ok(72));
    assert_eq!(Bits::new(Version::Normal(40)).max_len(EcLevel::L), Ok(23648));
    assert_eq!(Bits::new(Version::Normal(40)).max_len(EcLevel::H), Ok(10208));
    assert_eq!(Bits::new(Version::Micro(1)).max_len(EcLevel::L), Ok(20));
    assert_eq!(Bits::new(Version::Micro(2)).max_len(EcLevel::M), Ok(32));
    assert_eq!(Bits::new(Version::Micro(3)).max_len(EcLevel::L), Ok(84));
    assert_eq!(Bits::new(Version::Micro(3)).max_len(EcLevel::M), Ok(68));
    assert_eq!(Bits::new(Version::Micro(4)).max_len(EcLevel::Q), Ok(80));
    assert_eq!(Bits::new(Version::Micro(1)).max_len(EcLevel::H), Err(QrError::InvalidVersion));
    assert_eq!(Bits::new(Version::Normal(41)).max_len(EcLevel::L), Err(QrError::InvalidVersion));
    assert_eq!(Bits::new(Version::RectMicro(7, 43)).max_len(EcLevel::M), Err(QrError::InvalidVersion));
    assert_eq!(Bits::new(Version::Normal(1)).limit(), 152);
    assert_eq!(Bits::new(Version::Normal(0)).limit(), 0);
}

#[test]
fn test_push_mode_indicator() {
    let mut bits = Bits::new(Version::Normal(1));
    bits.push_mode_indicator(ExtendedMode::Data(Mode::Byte)).unwrap();
    bits.push_mode_indicator(ExtendedMode::Eci).unwrap();
    bits.push_mode_indicator(ExtendedMode::StructuredAppend).unwrap();
    bits.push_mode_indicator(ExtendedMode::Data(Mode::Kanji)).unwrap();
    assert_eq!(bits.into_bytes(), vec![0x47, 0x38]);
    let mut bits = Bits::new(Version::Micro(4));
    bits.push_mode_indicator(ExtendedMode::Data(Mode::Kanji)).unwrap();
    bits.push_mode_indicator(ExtendedMode::Data(Mode::Alphanumeric)).unwrap();
    assert_eq!(bits.len(), 6);
    assert_eq!(bits.into_bytes(), vec![0b011_001_00]);
    let mut bits = Bits::new(Version::Micro(1));
    bits.push_mode_indicator(ExtendedMode::Data(Mode::Numeric)).unwrap();
    assert_eq!(bits.len(), 0);
}

#[test]
fn test_push_mode_indicator_errors() {
    let mut bits = Bits::new(Version::Micro(2));
    assert_eq!(bits.push_mode_indicator(ExtendedMode::Data(Mode::Byte)), Err(QrError::UnsupportedCharacterSet));
    assert_eq!(bits.push_mode_indicator(ExtendedMode::Eci), Err(QrError::UnsupportedCharacterSet));
    assert_eq!(bits.push_fnc1_first_position(), Err(QrError::UnsupportedCharacterSet));
    assert_eq!(bits.len(), 0);
    let mut bits = Bits::new(Version::Micro(1));
    assert_eq!(bits.push_mode_indicator(ExtendedMode::Data(Mode::Alphanumeric)), Err(QrError::UnsupportedCharacterSet));
    let mut bits = Bits::new(Version::Normal(41));
    assert_eq!(bits.push_mode_indicator(ExtendedMode::Data(Mode::Numeric)), Err(QrError::InvalidVersion));
    let mut bits = Bits::new(Version::RectMicro(7, 43));
    assert_eq!(bits.push_mode_indicator(ExtendedMode::Data(Mode::Numeric)), Err(QrError::InvalidVersion));
}

#[test]
fn test_push_eci_designator() {
    let mut bits = Bits::new(Version::Normal(1));
    assert_eq!(bits.push_eci_designator(9), Ok(()));
    assert_eq!(bits.into_bytes(), vec![0x70, 0x90]);
    let mut bits = Bits::new(Version::Normal(1));
    assert_eq!(bits.push_eci_designator(899), Ok(()));
    assert_eq!(bits.into_bytes(), vec![0x78, 0x38, 0x30]);
    let mut bits = Bits::new(Version::Normal(1));
    assert_eq!(bits.push_eci_designator(400000), Ok(()));
    assert_eq!(bits.into_bytes(), vec![0x7c, 0x61, 0xa8, 0x00]);
    let mut bits = Bits::new(Version::Normal(1));
    assert_eq!(bits.push_eci_designator(999999), Ok(()));
    assert_eq!(bits.len(), 28);
}

#[test]
fn test_push_eci_designator_errors() {
    let mut bits = Bits::new(Version::Normal(1));
    assert_eq!(bits.push_eci_designator(1000000), Err(QrError::InvalidEciDesignator));
    assert_eq!(bits.len(), 0);
    let mut bits = Bits::new(Version::Micro(4));
    assert_eq!(bits.push_eci_designator(9), Err(QrError::UnsupportedCharacterSet));
    assert_eq!(bits.push_eci_designator(1000000), Err(QrError::UnsupportedCharacterSet));
}

#[test]
fn test_push_fnc1() {
    let mut bits = Bits::new(Version::Normal(1));
    bits.push_fnc1_first_position().unwrap();
    bits.push_fnc1_second_position(0xa5).unwrap();
    assert_eq!(bits.into_bytes(), vec![0x59, 0xa5]);
}

#[test]
fn test_push_numeric_data() {
    let mut bits = Bits::new(Version::Normal(1));
    assert_eq!(bits.push_numeric_data(b"01234567"), Ok(()));
    assert_eq!(bits.len(), 41);
    assert_eq!(bits.into_bytes(), vec![0x10, 0x20, 0x0c, 0x56, 0x61, 0x80]);
    let mut bits = Bits::new(Version::Micro(2));
    assert_eq!(bits.push_numeric_data(b"01234567"), Ok(()));
    assert_eq!(bits.len(), 32);
    assert_eq!(bits.into_bytes(), vec![0x40, 0x18, 0xac, 0xc3]);
    // One digit and two digits left over.
    let mut bits = Bits::new(Version::Normal(1));
    assert_eq!(bits.push_numeric_data(b"1234"), Ok(()));
    assert_eq!(bits.len(), 4 + 10 + 14);
    let mut bits = Bits::new(Version::Normal(1));
    assert_eq!(bits.push_numeric_data(b"12345"), Ok(()));
    assert_eq!(bits.len(), 4 + 10 + 17);
    assert_eq!(bits.into_bytes(), vec![0x10, 0x14, 0x7b, 0x5a]);
}

#[test]
fn test_push_alphanumeric_data() {
    let mut bits = Bits::new(Version::Normal(1));
    assert_eq!(bits.push_alphanumeric_data(b"AC-42"), Ok(()));
    assert_eq!(bits.len(), 41);
    assert_eq!(bits.into_bytes(), vec![0x20, 0x29, 0xce, 0xe7, 0x21, 0x00]);
}

#[test]
fn test_push_byte_data() {
    let mut bits = Bits::new(Version::Normal(1));
    assert_eq!(bits.push_byte_data(b"\x12\x34\x56\x78\x9a\xbc\xde\xf0"), Ok(()));
    assert_eq!(bits.into_bytes(), vec![0x40, 0x81, 0x23, 0x45, 0x67, 0x89, 0xab, 0xcd, 0xef, 0x00]);
}

#[test]
fn test_push_kanji_data() {
    let mut bits = Bits::new(Version::Normal(1));
    assert_eq!(bits.push_kanji_data(b"\x93\x5f\xe4\xaa"), Ok(()));
    assert_eq!(bits.into_bytes(), vec![0x80, 0x26, 0xcf, 0xea, 0xa8]);
}

#[test]
fn test_invalid_characters() {
    let mut bits = Bits::new(Version::Normal(1));
    assert_eq!(bits.push_numeric_data(b"12a"), Err(QrError::InvalidCharacter));
    assert_eq!(bits.push_alphanumeric_data(b"abc"), Err(QrError::InvalidCharacter));
    assert_eq!(bits.push_kanji_data(b"\x93"), Err(QrError::InvalidCharacter));
    assert_eq!(bits.push_kanji_data(b"\x93\x5f\xe4"), Err(QrError::InvalidCharacter));
    assert_eq!(bits.push_kanji_data(b"ab"), Err(QrError::InvalidCharacter));
    assert_eq!(bits.push_kanji_data(b"\xeb\xc0"), Err(QrError::InvalidCharacter));
    assert_eq!(bits.push_kanji_data(b"\x81\x7f"), Err(QrError::InvalidCharacter));
    // Nothing was pushed.
    assert_eq!(bits.len(), 0);
}

#[test]
fn test_data_too_long_for_length_field() {
    // The character count of the byte mode has 8 bits up to version 9.
    let mut bits = Bits::new(Version::Normal(9));
    assert_eq!(bits.push_byte_data(&[0u8; 256]), Err(QrError::DataTooLong));
    assert_eq!(bits.len(), 0);
    // 255 bytes fit the field but not the symbol.
    assert_eq!(bits.push_byte_data(&[0u8; 255]), Err(QrError::DataTooLong));
    assert_eq!(bits.push_byte_data(&[0u8; 230]), Ok(()));
    assert_eq!(bits.len(), 4 + 8 + 8 * 230);
    // Only 4 bits are left of the 1856.
    assert_eq!(bits.push_numeric_data(b"1"), Err(QrError::DataTooLong));
    assert_eq!(bits.len(), 4 + 8 + 8 * 230);
}

#[test]
fn test_push_terminator_annex_i() {
    let mut bits = Bits::new(Version::Normal(1));
    bits.push_numeric_data(b"01234567").unwrap();
    assert_eq!(bits.push_terminator(EcLevel::M), Ok(()));
    assert_eq!(bits.len(), 128);
    assert_eq!(
        bits.into_bytes(),
        vec![0x10, 0x20, 0x0c, 0x56, 0x61, 0x80, 0xec, 0x11, 0xec, 0x11, 0xec, 0x11, 0xec, 0x11, 0xec, 0x11]
    );
}

#[test]
fn test_push_terminator_micro() {
    let mut bits = Bits::new(Version::Micro(2));
    bits.push_numeric_data(b"01234567").unwrap();
    assert_eq!(bits.push_terminator(EcLevel::L), Ok(()));
    assert_eq!(bits.len(), 40);
    assert_eq!(bits.into_bytes(), vec![0x40, 0x18, 0xac, 0xc3, 0x00]);

    // No room for the terminator.
    let mut bits = Bits::new(Version::Micro(1));
    bits.push_numeric_data(b"99999").unwrap();
    assert_eq!(bits.len(), 20);
    assert_eq!(bits.push_terminator(EcLevel::L), Ok(()));
    assert_eq!(bits.len(), 20);
    assert_eq!(bits.into_bytes(), vec![0xbf, 0x3e, 0x30]);

    // A terminator cut short.
    let mut bits = Bits::new(Version::Micro(1));
    bits.push_numeric_data(b"9999").unwrap();
    assert_eq!(bits.push_terminator(EcLevel::L), Ok(()));
    assert_eq!(bits.len(), 20);
    assert_eq!(bits.into_bytes(), vec![0x9f, 0x3c, 0x80]);

    // The half codeword at the end stays zero.
    let mut bits = Bits::new(Version::Micro(1));
    bits.push_numeric_data(b"999").unwrap();
    assert_eq!(bits.push_terminator(EcLevel::L), Ok(()));
    assert_eq!(bits.len(), 20);
    assert_eq!(bits.into_bytes(), vec![0x7f, 0x38, 0x00]);

    // A pad byte before the half codeword.
    let mut bits = Bits::new(Version::Micro(1));
    bits.push_numeric_data(b"").unwrap();
    assert_eq!(bits.push_terminator(EcLevel::L), Ok(()));
    assert_eq!(bits.len(), 20);
    assert_eq!(bits.into_bytes(), vec![0x00, 0xec, 0x00]);
}

#[test]
fn test_push_terminator_errors() {
    let mut bits = Bits::new(Version::Normal(1));
    bits.push_byte_data(b"0123456789").unwrap();
    assert_eq!(bits.push_terminator(EcLevel::H), Err(QrError::DataTooLong));
    assert_eq!(bits.len(), 92);
    assert_eq!(bits.push_terminator(EcLevel::Q), Ok(()));
    assert_eq!(bits.len(), 104);
    let mut bits = Bits::new(Version::Micro(2));
    assert_eq!(bits.push_terminator(EcLevel::Q), Err(QrError::InvalidVersion));
}

#[test]
fn test_push_segments() {
    let data = b"12345ABCDE\x80\x81";
    let segments = [
        Segment { mode: Mode::Numeric, begin: 0, end: 5 },
        Segment { mode: Mode::Alphanumeric, begin: 5, end: 10 },
        Segment { mode: Mode::Byte, begin: 10, end: 12 },
    ];
    let mut bits = Bits::new(Version::Normal(2));
    assert_eq!(bits.push_segments(data, &segments), Ok(()));
    let mut other = Bits::new(Version::Normal(2));
    other.push_numeric_data(b"12345").unwrap();
    other.push_alphanumeric_data(b"ABCDE").unwrap();
    other.push_byte_data(b"\x80\x81").unwrap();
    assert_eq!(bits.len(), other.len());
    assert_eq!(bits.into_bytes(), other.into_bytes());
    // The error of the first segment that has none of its own bits.
    let wrong = [
        Segment { mode: Mode::Numeric, begin: 0, end: 5 },
        Segment { mode: Mode::Numeric, begin: 5, end: 10 },
        Segment { mode: Mode::Kanji, begin: 10, end: 11 },
    ];
    let mut bits = Bits::new(Version::Normal(2));
    assert_eq!(bits.push_segments(data, &wrong), Err(QrError::InvalidCharacter));
    assert_eq!(bits.len(), 0);
}

#[test]
fn test_push_optimal_data() {
    let mut bits = Bits::new(Version::Normal(1));
    assert_eq!(bits.push_optimal_data(b"01234567"), Ok(()));
    assert_eq!(bits.len(), 41);
    assert_eq!(bits.into_bytes(), vec![0x10, 0x20, 0x0c, 0x56, 0x61, 0x80]);
    let mut bits = Bits::new(Version::Normal(1));
    assert_eq!(bits.push_optimal_data(b"AC-42"), Ok(()));
    assert_eq!(bits.into_bytes(), vec![0x20, 0x29, 0xce, 0xe7, 0x21, 0x00]);
    let mut bits = Bits::new(Version::Normal(1));
    assert_eq!(bits.push_optimal_data(b""), Ok(()));
    assert_eq!(bits.len(), 0);
}

#[test]
fn test_push_optimal_data_errors() {
    let mut bits = Bits::new(Version::Normal(1));
    assert_eq!(bits.push_optimal_data(&[b'1'; 42]), Err(QrError::DataTooLong));
    assert_eq!(bits.push_optimal_data(&[0xa5; 10000]), Err(QrError::DataTooLong));
    assert_eq!(bits.len(), 0);
    // 41 digits take 4 + 10 + 137 = 151 of the 152 bits.
    assert_eq!(bits.push_optimal_data(&[b'1'; 41]), Ok(()));
    assert_eq!(bits.len(), 151);
    let mut bits = Bits::new(Version::Micro(1));
    assert_eq!(bits.push_optimal_data(b"A"), Err(QrError::UnsupportedCharacterSet));
    let mut bits = Bits::new(Version::Normal(41));
    assert_eq!(bits.push_optimal_data(b"1"), Err(QrError::InvalidVersion));
    let mut bits = Bits::new(Version::RectMicro(7, 43));
    assert_eq!(bits.push_optimal_data(b"1"), Err(QrError::InvalidVersion));
}

#[test]
fn test_digits_are_one_numeric_segment() {
    for n in 1..60usize {
        let data = vec![b'7'; n];
        let mut bits = Bits::new(Version::Normal(3));
        bits.push_optimal_data(&data).unwrap();
        assert_eq!(bits.len(), 4 + 10 + Mode::Numeric.data_bits_count(n));
        let mut one = Bits::new(Version::Normal(3));
        one.push_numeric_data(&data).unwrap();
        assert_eq!(bits.into_bytes(), one.into_bytes());
    }
}

#[test]
fn test_encode_auto() {
    let bits = encode_auto(b"01234567", EcLevel::M).unwrap();
    assert_eq!(bits.version(), Version::Normal(1));
    assert_eq!(bits.len(), 128);
    // 17 bytes are the most that version 1 holds at level L.
    let bits = encode_auto(&[0xa5; 17], EcLevel::L).unwrap();
    assert_eq!(bits.version(), Version::Normal(1));
    assert_eq!(bits.len(), 152);
    let bits = encode_auto(&[0xa5; 18], EcLevel::L).unwrap();
    assert_eq!(bits.version(), Version::Normal(2));
    assert_eq!(bits.len(), 272);
    // Version 9 holds 230 bytes and version 10, with a longer character count, 271.
    let bits = encode_auto(&[0xa5; 230], EcLevel::L).unwrap();
    assert_eq!(bits.version(), Version::Normal(9));
    let bits = encode_auto(&[0xa5; 231], EcLevel::L).unwrap();
    assert_eq!(bits.version(), Version::Normal(10));
    let bits = encode_auto(&[0xa5; 271], EcLevel::L).unwrap();
    assert_eq!(bits.version(), Version::Normal(10));
    let bits = encode_auto(&[0xa5; 272], EcLevel::L).unwrap();
    assert_eq!(bits.version(), Version::Normal(11));
    // 7089 digits fill version 40.
    let bits = encode_auto(&[b'8'; 7089], EcLevel::L).unwrap();
    assert_eq!(bits.version(), Version::Normal(40));
    assert_eq!(encode_auto(&[b'8'; 7090], EcLevel::L).err(), Some(QrError::DataTooLong));
    let bits = encode_auto(b"", EcLevel::H).unwrap();
    assert_eq!(bits.version(), Version::Normal(1));
    assert_eq!(bits.into_bytes(), vec![0x00, 0xec, 0x11, 0xec, 0x11, 0xec, 0x11, 0xec, 0x11]);
}
