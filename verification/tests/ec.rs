use qrcode::ec::{
    block_layout, construct_codewords, create_error_correction_code, data_bits, ec_codewords_per_block, interleave,
    max_allowed_errors,
};
use qrcode::galois::{generator_polynomial, mul_x, multiply};
use qrcode::types::{EcLevel, QrError, Version};

#[test]
fn test_multiply() {
    assert_eq!(multiply(0, 0x53), 0);
    assert_eq!(multiply(0x53, 0), 0);
    assert_eq!(multiply(1, 0x53), 0x53);
    assert_eq!(multiply(0x53, 1), 0x53);
    assert_eq!(multiply(2, 128), 29);
    assert_eq!(multiply(128, 2), 29);
    assert_eq!(multiply(0x53, 0xca), 143);
    assert_eq!(mul_x(1), 2);
    assert_eq!(mul_x(0x80), 0x1d);
    assert_eq!(mul_x(0xff), 0xe3);
}

#[test]
fn test_field_laws() {
    for a in 0..=255u8 {
        for b in [0u8, 1, 2, 3, 0x1d, 0x53, 0x80, 0xca, 0xff] {
            assert_eq!(multiply(a, b), multiply(b, a));
            for c in [0u8, 1, 7, 0x8e, 0xff] {
                assert_eq!(multiply(a, b ^ c), multiply(a, b) ^ multiply(a, c));
                assert_eq!(multiply(multiply(a, b), c), multiply(a, multiply(b, c)));
            }
        }
    }
    // The element 2 is primitive: its powers come back to 1 after 255 steps and not before.
    let mut x = 1u8;
    for i in 1..=255 {
        x = mul_x(x);
        assert_eq!(x == 1, i == 255);
    }
}

#[test]
fn test_generator_polynomial() {
    assert_eq!(generator_polynomial(0), vec![1]);
    assert_eq!(generator_polynomial(1), vec![1, 1]);
    assert_eq!(generator_polynomial(2), vec![1, 3, 2]);
    assert_eq!(generator_polynomial(7), vec![1, 127, 122, 154, 164, 11, 68, 117]);
    assert_eq!(generator_polynomial(10), vec![1, 216, 194, 159, 111, 199, 94, 95, 113, 157, 193]);
}

#[test]
fn test_poly_mod_1() {
    let res = create_error_correction_code(b" [\x0bx\xd1r\xdcMC@\xec\x11\xec\x11\xec\x11", 10);
    assert_eq!(&*res, b"\xc4#'w\xeb\xd7\xe7\xe2]\x17");
}

#[test]
fn test_error_correction_annex_i() {
    let data = [0x10, 0x20, 0x0c, 0x56, 0x61, 0x80, 0xec, 0x11, 0xec, 0x11, 0xec, 0x11, 0xec, 0x11, 0xec, 0x11];
    let res = create_error_correction_code(&data, 10);
    assert_eq!(res, vec![0xa5, 0x24, 0xd4, 0xc1, 0xed, 0x36, 0xc7, 0x87, 0x2c, 0x55]);
}

#[test]
fn test_error_correction_edges() {
    assert_eq!(create_error_correction_code(b"", 3), vec![0, 0, 0]);
    assert_eq!(create_error_correction_code(b"abc", 0), Vec::<u8>::new());
    assert_eq!(create_error_correction_code(&[0, 0, 0, 0], 5), vec![0; 5]);
}

fn evaluate(polynomial: &[u8], x: u8) -> u8 {
    polynomial.iter().fold(0, |acc, c| multiply(acc, x) ^ c)
}

#[test]
fn test_codewords_vanish_at_roots() {
    let data: Vec<u8> = (0..40u32).map(|i| (i * 37 + 11) as u8).collect();
    for k in 1..=30usize {
        let ec = create_error_correction_code(&data, k);
        assert_eq!(ec.len(), k);
        let mut codeword = data.clone();
        codeword.extend_from_slice(&ec);
        let mut root = 1u8;
        for _ in 0..k {
            assert_eq!(evaluate(&codeword, root), 0);
            root = mul_x(root);
        }
        // The next power is no root of this word.
        assert_ne!(evaluate(&codeword, root), 0);
    }
}

#[test]
fn test_interleave() {
    let blocks = vec![b"1234".to_vec(), b"5678".to_vec(), b"abcdef".to_vec(), b"ghijkl".to_vec()];
    assert_eq!(&*interleave(&blocks), b"15ag26bh37ci48djekfl");
    assert_eq!(interleave(&Vec::new()), Vec::<u8>::new());
    assert_eq!(&*interleave(&vec![b"xyz".to_vec()]), b"xyz");
}

#[test]
fn test_block_layout() {
    let layout = block_layout(Version::Normal(1), EcLevel::M).unwrap();
    assert_eq!((layout.ec_len, layout.size1, layout.count1, layout.size2, layout.count2), (10, 16, 1, 0, 0));
    let layout = block_layout(Version::Normal(5), EcLevel::Q).unwrap();
    assert_eq!((layout.ec_len, layout.size1, layout.count1, layout.size2, layout.count2), (18, 15, 2, 16, 2));
    let layout = block_layout(Version::Normal(40), EcLevel::H).unwrap();
    assert_eq!((layout.ec_len, layout.size1, layout.count1, layout.size2, layout.count2), (30, 15, 20, 16, 61));
    let layout = block_layout(Version::Micro(3), EcLevel::M).unwrap();
    assert_eq!((layout.ec_len, layout.size1, layout.count1, layout.size2, layout.count2), (8, 9, 1, 0, 0));
    assert_eq!(block_layout(Version::Micro(3), EcLevel::Q).err(), Some(QrError::InvalidVersion));
    assert_eq!(block_layout(Version::RectMicro(7, 43), EcLevel::M).err(), Some(QrError::InvalidVersion));
}

#[test]
fn test_data_bits() {
    assert_eq!(data_bits(Version::Normal(1), EcLevel::M), Ok(128));
    assert_eq!(data_bits(Version::Normal(5), EcLevel::Q), Ok(496));
    assert_eq!(data_bits(Version::Micro(1), EcLevel::L), Ok(20));
    assert_eq!(data_bits(Version::Micro(3), EcLevel::M), Ok(68));
    assert_eq!(data_bits(Version::Micro(4), EcLevel::H), Err(QrError::InvalidVersion));
}

#[test]
fn test_total_codewords_of_every_version() {
    // The data and error correction codewords fill the data modules of the symbol but for a few bits.
    let modules = [
        208, 359, 567, 807, 1079, 1383, 1568, 1936, 2336, 2768, 3232, 3728, 4256, 4651, 5243, 5867, 6523, 7211, 7931,
        8683, 9252, 10068, 10916, 11796, 12708, 13652, 14628, 15371, 16411, 17483, 18587, 19723, 20891, 22091, 23008,
        24272, 25568, 26896, 28256, 29648,
    ];
    for v in 1..=40i16 {
        for level in [EcLevel::L, EcLevel::M, EcLevel::Q, EcLevel::H] {
            let layout = block_layout(Version::Normal(v), level).unwrap();
            let data = layout.size1 * layout.count1 + layout.size2 * layout.count2;
            let total = data + layout.ec_len * (layout.count1 + layout.count2);
            assert_eq!(total, modules[(v - 1) as usize] / 8);
            assert_eq!(data_bits(Version::Normal(v), level), Ok(8 * data));
            if layout.count2 > 0 {
                assert_eq!(layout.size2, layout.size1 + 1);
            }
        }
    }
}

#[test]
fn test_construct_codewords_single_block() {
    let msg = b" [\x0bx\xd1r\xdcMC@\xec\x11\xec\x11\xec\x11";
    let (blocks_vec, ec_vec) = construct_codewords(msg, Version::Normal(1), EcLevel::M).unwrap();
    assert_eq!(&*blocks_vec, msg);
    assert_eq!(&*ec_vec, b"\xc4#'w\xeb\xd7\xe7\xe2]\x17");
}

#[test]
fn test_construct_codewords_multiple_blocks() {
    // Version 5 at level Q: two blocks of 15 and two blocks of 16 data codewords.
    let msg: Vec<u8> = (0..62u8).collect();
    let (data, ec) = construct_codewords(&msg, Version::Normal(5), EcLevel::Q).unwrap();
    let blocks = [&msg[0..15], &msg[15..30], &msg[30..46], &msg[46..62]];
    let mut expected = Vec::new();
    for i in 0..16 {
        for b in &blocks {
            if i < b.len() {
                expected.push(b[i]);
            }
        }
    }
    assert_eq!(data, expected);
    assert_eq!(data[..8], [0, 15, 30, 46, 1, 16, 31, 47]);
    assert_eq!(data[60..], [45, 61]);
    let codes: Vec<Vec<u8>> = blocks.iter().map(|b| create_error_correction_code(b, 18)).collect();
    let mut expected = Vec::new();
    for i in 0..18 {
        for c in &codes {
            expected.push(c[i]);
        }
    }
    assert_eq!(ec, expected);
    assert_eq!(ec.len(), 72);
}

#[test]
fn test_construct_codewords_invalid_version() {
    assert_eq!(construct_codewords(b"", Version::Micro(1), EcLevel::H).err(), Some(QrError::InvalidVersion));
    assert_eq!(construct_codewords(b"", Version::Normal(41), EcLevel::L).err(), Some(QrError::InvalidVersion));
}

#[test]
fn test_max_allowed_errors() {
    assert_eq!(max_allowed_errors(Version::Normal(1), EcLevel::L), Ok(3));
    assert_eq!(max_allowed_errors(Version::Normal(1), EcLevel::M), Ok(5));
    assert_eq!(max_allowed_errors(Version::Normal(1), EcLevel::Q), Ok(6));
    assert_eq!(max_allowed_errors(Version::Normal(1), EcLevel::H), Ok(8));
    assert_eq!(max_allowed_errors(Version::Normal(40), EcLevel::H), Ok(15));
    assert_eq!(max_allowed_errors(Version::Micro(1), EcLevel::L), Ok(1));
    assert_eq!(max_allowed_errors(Version::Micro(2), EcLevel::L), Ok(2));
    assert_eq!(max_allowed_errors(Version::Micro(4), EcLevel::Q), Ok(7));
    assert_eq!(max_allowed_errors(Version::Micro(4), EcLevel::H), Err(QrError::InvalidVersion));
    assert_eq!(max_allowed_errors(Version::Normal(0), EcLevel::L), Err(QrError::InvalidVersion));
    for v in 1..=40i16 {
        for level in [EcLevel::L, EcLevel::M, EcLevel::Q, EcLevel::H] {
            let per_block = ec_codewords_per_block(Version::Normal(v), level).unwrap();
            assert_eq!(max_allowed_errors(Version::Normal(v), level), Ok(per_block / 2));
        }
    }
}
