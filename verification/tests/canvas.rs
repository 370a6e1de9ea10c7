use qrcode::canvas::{codeword_module, Canvas, Module};
use qrcode::mask::{format_info, patterns_of, MaskPattern};
use qrcode::pattern::{alignment_offset, fixed_module_at, format_info_module_at, is_functional};
use qrcode::penalty::{
    compute_adjacent_penalty_score, compute_balance_penalty_score, compute_block_penalty_score,
    compute_finder_penalty_score, compute_light_side_penalty_score, compute_total_penalty_score,
};
use qrcode::types::{Color, EcLevel, Version};

fn picture(canvas: &Canvas) -> String {
    let w = canvas.width();
    let mut out = String::new();
    for y in 0..w {
        for x in 0..w {
            out.push(match canvas.get(x, y) {
                Module::Empty => '?',
                Module::Masked(Color::Light) => '.',
                Module::Masked(Color::Dark) => '#',
                Module::Unmasked(Color::Light) => '-',
                Module::Unmasked(Color::Dark) => '*',
            });
        }
        out.push('\n');
    }
    out
}

#[test]
fn test_new_canvas_is_empty() {
    let c = Canvas::new(Version::Normal(1), EcLevel::L);
    assert_eq!(c.width(), 21);
    assert_eq!(c.version(), Version::Normal(1));
    assert_eq!(c.ec_level(), EcLevel::L);
    for y in 0..21 {
        for x in 0..21 {
            assert_eq!(c.get(x, y), Module::Empty);
        }
    }
}

#[test]
fn test_put_and_get_wrap_around() {
    let mut c = Canvas::new(Version::Normal(1), EcLevel::L);
    c.put(0, 0, Color::Dark);
    c.put(-1, -7, Color::Dark);
    c.put(3, -2, Color::Light);
    assert_eq!(c.get(0, 0), Module::Masked(Color::Dark));
    assert_eq!(c.get(-21, -21), Module::Masked(Color::Dark));
    assert_eq!(c.get(20, 14), Module::Masked(Color::Dark));
    assert_eq!(c.get(3, 19), Module::Masked(Color::Light));
    assert_eq!(c.get(1, 0), Module::Empty);
    assert_eq!(c.get(0, 1), Module::Empty);
}

#[test]
fn test_function_patterns_version_1() {
    let mut c = Canvas::new(Version::Normal(1), EcLevel::L);
    c.draw_all_functional_patterns();
    assert_eq!(
        picture(&c),
        "\
         #######..????.#######\n\
         #.....#..????.#.....#\n\
         #.###.#..????.#.###.#\n\
         #.###.#..????.#.###.#\n\
         #.###.#..????.#.###.#\n\
         #.....#..????.#.....#\n\
         #######.#.#.#.#######\n\
         .........????........\n\
         ......#..????........\n\
         ??????.??????????????\n\
         ??????#??????????????\n\
         ??????.??????????????\n\
         ??????#??????????????\n\
         ........#????????????\n\
         #######..????????????\n\
         #.....#..????????????\n\
         #.###.#..????????????\n\
         #.###.#..????????????\n\
         #.###.#..????????????\n\
         #.....#..????????????\n\
         #######..????????????\n"
    );
}

#[test]
fn test_function_patterns_micro_1() {
    let mut c = Canvas::new(Version::Micro(1), EcLevel::L);
    c.draw_all_functional_patterns();
    assert_eq!(
        picture(&c),
        "\
         #######.#.#\n\
         #.....#..??\n\
         #.###.#..??\n\
         #.###.#..??\n\
         #.###.#..??\n\
         #.....#..??\n\
         #######..??\n\
         .........??\n\
         #........??\n\
         .??????????\n\
         #??????????\n"
    );
}

#[test]
fn test_function_patterns_version_7() {
    let mut c = Canvas::new(Version::Normal(7), EcLevel::L);
    c.draw_all_functional_patterns();
    let p = picture(&c);
    let rows: Vec<&str> = p.lines().collect();
    assert_eq!(rows.len(), 45);
    // The version information 000111110010010100 beside the top right finder pattern ...
    assert_eq!(rows[0], "#######..?????????????????????????..#.#######");
    assert_eq!(rows[1], "#.....#..?????????????????????????.#..#.....#");
    assert_eq!(rows[2], "#.###.#..?????????????????????????.#..#.###.#");
    assert_eq!(rows[3], "#.###.#..?????????????????????????.##.#.###.#");
    assert_eq!(rows[4], "#.###.#..???????????#####?????????###.#.###.#");
    assert_eq!(rows[5], "#.....#..???????????#...#?????????....#.....#");
    assert_eq!(rows[6], "#######.#.#.#.#.#.#.#.#.#.#.#.#.#.#.#.#######");
    assert_eq!(rows[7], ".........???????????#...#????????????........");
    assert_eq!(rows[8], "......#..???????????#####????????????........");
    // ... and above the bottom left one.
    assert_eq!(&rows[34][..8], "....#.#?");
    assert_eq!(&rows[35][..8], ".####..?");
    assert_eq!(&rows[36][..8], "#..##.#?");
    // Alignment patterns in the middle of the left edge, in the centre and near the bottom right corner.
    assert_eq!(&rows[20][..10], "????#####?");
    assert_eq!(&rows[22][..10], "????#.#.#?");
    assert_eq!(&rows[22][18..27], "??#.#.#??");
    assert_eq!(&rows[38][35..42], "?#.#.#?");
    assert_eq!(&rows[36][35..42], "?#####?");
    assert_eq!(&rows[37][35..42], "?#...#?");
}

#[test]
fn test_data_modules_of_every_version() {
    let modules = [
        208, 359, 567, 807, 1079, 1383, 1568, 1936, 2336, 2768, 3232, 3728, 4256, 4651, 5243, 5867, 6523, 7211, 7931,
        8683, 9252, 10068, 10916, 11796, 12708, 13652, 14628, 15371, 16411, 17483, 18587, 19723, 20891, 22091, 23008,
        24272, 25568, 26896, 28256, 29648,
    ];
    for v in 1..=40i16 {
        let version = Version::Normal(v);
        let w = version.width();
        let mut free = 0;
        for y in 0..w {
            for x in 0..w {
                if !is_functional(version, w, x, y) {
                    free += 1;
                }
            }
        }
        assert_eq!(free, modules[(v - 1) as usize], "version {}", v);
    }
    let micro = [36, 80, 132, 192];
    for a in 1..=4i16 {
        let version = Version::Micro(a);
        let w = version.width();
        let free = (0..w).flat_map(|y| (0..w).map(move |x| (x, y))).filter(|&(x, y)| !is_functional(version, w, x, y)).count();
        assert_eq!(free, micro[(a - 1) as usize]);
    }
}

#[test]
fn test_is_functional_matches_drawing() {
    for version in [Version::Normal(1), Version::Normal(2), Version::Normal(7), Version::Normal(14), Version::Micro(2)] {
        let mut c = Canvas::new(version, EcLevel::L);
        c.draw_all_functional_patterns();
        let w = c.width();
        for y in 0..w {
            for x in 0..w {
                let drawn = c.get(x, y) != Module::Empty;
                assert_eq!(is_functional(version, w, x, y), drawn);
                assert_eq!(is_functional(version, w, x - w, y - w), drawn);
                let fixed = fixed_module_at(version, x, y);
                let format = format_info_module_at(version, 0, x, y);
                assert_eq!(fixed.is_some() || format.is_some(), drawn);
            }
        }
    }
}

#[test]
fn test_alignment_offset() {
    assert_eq!(alignment_offset(Version::Normal(1), 6), None);
    assert_eq!(alignment_offset(Version::Micro(4), 6), None);
    assert_eq!(alignment_offset(Version::Normal(2), 6), Some((0, 0)));
    assert_eq!(alignment_offset(Version::Normal(2), 16), Some((1, -2)));
    assert_eq!(alignment_offset(Version::Normal(2), 20), Some((1, 2)));
    assert_eq!(alignment_offset(Version::Normal(2), 21), None);
    assert_eq!(alignment_offset(Version::Normal(40), 170), Some((6, 0)));
    assert_eq!(alignment_offset(Version::Normal(40), 59), Some((2, 1)));
    assert_eq!(alignment_offset(Version::Normal(32), 112), Some((4, 0)));
}

#[test]
fn test_draw_data_version_1() {
    let mut c = Canvas::new(Version::Normal(1), EcLevel::L);
    c.draw_all_functional_patterns();
    // The first 24 bits climb the two columns at the right edge from the bottom, the right
    // column first in every row; the next 24 bits come down the two columns beside them.
    c.draw_data(b"\x2d\x1f\x22\x08", b"\xff\xff");
    assert_eq!(
        picture(&c),
        "\
         #######..????.#######\n\
         #.....#..????.#.....#\n\
         #.###.#..????.#.###.#\n\
         #.###.#..????.#.###.#\n\
         #.###.#..????.#.###.#\n\
         #.....#..????.#.....#\n\
         #######.#.#.#.#######\n\
         .........????........\n\
         ......#..????........\n\
         ??????.??????????---*\n\
         ??????#??????????----\n\
         ??????.??????????-*-*\n\
         ??????#??????????----\n\
         ........#????????****\n\
         #######..????????****\n\
         #.....#..????????***-\n\
         #.###.#..????????**--\n\
         #.###.#..????????***-\n\
         #.###.#..????????****\n\
         #.....#..????????**-*\n\
         #######..????????**--\n"
    );
}

#[test]
fn test_draw_data_half_codeword() {
    // In version M1 the third data codeword has four bits: twenty data bits climb the two
    // columns at the right edge, and the sixteen error correction bits fill the two bottom rows.
    let mut c = Canvas::new(Version::Micro(1), EcLevel::L);
    c.draw_all_functional_patterns();
    c.draw_data(b"\x6e\x5d\xe2", b"\x2b\x63");
    assert_eq!(
        picture(&c),
        "\
         #######.#.#\n\
         #.....#..-*\n\
         #.###.#..**\n\
         #.###.#..*-\n\
         #.###.#..**\n\
         #.....#..*-\n\
         #######..*-\n\
         .........-*\n\
         #........**\n\
         .***-**---*\n\
         #---*-*-**-\n"
    );
}

#[test]
fn test_codeword_module() {
    let data = [0b1000_0001u8, 0b0101_0000];
    let ec = [0b0000_0001u8];
    assert_eq!(codeword_module(&data, &ec, false, 0), Module::Unmasked(Color::Dark));
    assert_eq!(codeword_module(&data, &ec, false, 1), Module::Unmasked(Color::Light));
    assert_eq!(codeword_module(&data, &ec, false, 7), Module::Unmasked(Color::Dark));
    assert_eq!(codeword_module(&data, &ec, false, 9), Module::Unmasked(Color::Dark));
    assert_eq!(codeword_module(&data, &ec, false, 16), Module::Unmasked(Color::Light));
    assert_eq!(codeword_module(&data, &ec, false, 23), Module::Unmasked(Color::Dark));
    assert_eq!(codeword_module(&data, &ec, false, 24), Module::Empty);
    // With a half codeword the error correction follows four bits earlier.
    assert_eq!(codeword_module(&data, &ec, true, 11), Module::Unmasked(Color::Dark));
    assert_eq!(codeword_module(&data, &ec, true, 12), Module::Unmasked(Color::Light));
    assert_eq!(codeword_module(&data, &ec, true, 19), Module::Unmasked(Color::Dark));
    assert_eq!(codeword_module(&data, &ec, true, 20), Module::Empty);
}

#[test]
fn test_mask_patterns() {
    let expected: [(MaskPattern, [&str; 6]); 8] = [
        (MaskPattern::Checkerboard, ["#.#.#.", ".#.#.#", "#.#.#.", ".#.#.#", "#.#.#.", ".#.#.#"]),
        (MaskPattern::HorizontalLines, ["######", "......", "######", "......", "######", "......"]),
        (MaskPattern::VerticalLines, ["#..#..", "#..#..", "#..#..", "#..#..", "#..#..", "#..#.."]),
        (MaskPattern::DiagonalLines, ["#..#..", "..#..#", ".#..#.", "#..#..", "..#..#", ".#..#."]),
        (MaskPattern::LargeCheckerboard, ["###...", "###...", "...###", "...###", "###...", "###..."]),
        (MaskPattern::Fields, ["######", "#.....", "#..#..", "#.#.#.", "#..#..", "#....."]),
        (MaskPattern::Diamonds, ["######", "###...", "##.##.", "#.#.#.", "#.##.#", "#...##"]),
        (MaskPattern::Meadow, ["#.#.#.", "...###", "#...##", ".#.#.#", "###...", ".###.."]),
    ];
    for (pattern, rows) in expected {
        for y in 0..6i16 {
            let row: String = (0..6i16).map(|x| if pattern.inverts(x, y) { '#' } else { '.' }).collect();
            assert_eq!(row, rows[y as usize], "{:?} row {}", pattern, y);
        }
    }
}

#[test]
fn test_module_mask() {
    assert_eq!(Module::Empty.mask(true), Module::Masked(Color::Dark));
    assert_eq!(Module::Empty.mask(false), Module::Masked(Color::Light));
    assert_eq!(Module::Unmasked(Color::Dark).mask(true), Module::Masked(Color::Light));
    assert_eq!(Module::Unmasked(Color::Dark).mask(false), Module::Masked(Color::Dark));
    assert_eq!(Module::Unmasked(Color::Light).mask(true), Module::Masked(Color::Dark));
    assert_eq!(Module::Masked(Color::Light).mask(true), Module::Masked(Color::Light));
    assert_eq!(Module::Masked(Color::Dark).mask(true), Module::Masked(Color::Dark));
    assert!(Module::Masked(Color::Dark).is_dark());
    assert!(Module::Unmasked(Color::Dark).is_dark());
    assert!(!Module::Empty.is_dark());
    assert!(!Module::Masked(Color::Light).is_dark());
    assert_eq!(Module::Empty.to_color(), Color::Light);
    assert_eq!(Module::Unmasked(Color::Dark).to_color(), Color::Dark);
}

#[test]
fn test_format_info() {
    assert_eq!(format_info(Version::Normal(1), EcLevel::M, MaskPattern::Checkerboard), 0x5412);
    assert_eq!(format_info(Version::Normal(1), EcLevel::L, MaskPattern::Checkerboard), 0x77c4);
    assert_eq!(format_info(Version::Normal(9), EcLevel::H, MaskPattern::Meadow), 0x083b);
    assert_eq!(format_info(Version::Normal(9), EcLevel::Q, MaskPattern::Fields), 0x2183);
    assert_eq!(format_info(Version::Micro(1), EcLevel::L, MaskPattern::HorizontalLines), 0x4445);
    assert_eq!(format_info(Version::Micro(2), EcLevel::L, MaskPattern::LargeCheckerboard), 0x5099);
    assert_eq!(format_info(Version::Micro(4), EcLevel::Q, MaskPattern::Meadow), 0x3bba);
    assert_eq!(patterns_of(Version::Normal(3)).len(), 8);
    assert_eq!(
        patterns_of(Version::Micro(3)),
        vec![MaskPattern::HorizontalLines, MaskPattern::LargeCheckerboard, MaskPattern::Diamonds, MaskPattern::Meadow]
    );
}

#[test]
fn test_format_info_is_a_code_word() {
    // Every format information is a multiple of x^10 + x^8 + x^5 + x^4 + x^2 + x + 1 under its mask.
    fn remainder(mut word: u32) -> u32 {
        for i in (10..15).rev() {
            if word >> i & 1 == 1 {
                word ^= 0x537 << (i - 10);
            }
        }
        word
    }
    let mut seen = Vec::new();
    for level in [EcLevel::L, EcLevel::M, EcLevel::Q, EcLevel::H] {
        for pattern in patterns_of(Version::Normal(1)) {
            let info = format_info(Version::Normal(1), level, pattern) as u32;
            assert_eq!(remainder(info ^ 0x5412), 0);
            assert!(!seen.contains(&info));
            seen.push(info);
        }
    }
    let micro = [(1, EcLevel::L), (2, EcLevel::L), (2, EcLevel::M), (3, EcLevel::L), (3, EcLevel::M), (4, EcLevel::L), (4, EcLevel::M), (4, EcLevel::Q)];
    for (number, (a, level)) in micro.iter().enumerate() {
        for (id, pattern) in patterns_of(Version::Micro(*a)).into_iter().enumerate() {
            let info = format_info(Version::Micro(*a), *level, pattern) as u32;
            assert_eq!(remainder(info ^ 0x4445), 0);
            assert_eq!((info ^ 0x4445) >> 10, (number * 4 + id) as u32);
        }
    }
}

#[test]
fn test_apply_mask_draws_format_info() {
    let mut c = Canvas::new(Version::Micro(1), EcLevel::L);
    c.draw_all_functional_patterns();
    c.apply_mask(MaskPattern::Diamonds);
    // The format information 100111000101011 runs along row 8 and up column 8; the empty
    // modules are dark where the product of column and row is a multiple of six, or is odd
    // and leaves the remainder one when divided by three.
    assert_eq!(format_info(Version::Micro(1), EcLevel::L, MaskPattern::Diamonds), 0x4e2b);
    assert_eq!(
        picture(&c),
        "\
         #######.#.#\n\
         #.....#.#..\n\
         #.###.#.###\n\
         #.###.#...#\n\
         #.###.#.##.\n\
         #.....#...#\n\
         #######.###\n\
         ...........\n\
         ##..###..##\n\
         ..#.#.#.#.#\n\
         #.##.##.##.\n"
    );
}

fn masked(version: Version, level: EcLevel, data: &[u8], ec: &[u8], pattern: MaskPattern) -> Canvas {
    let mut c = Canvas::new(version, level);
    c.draw_all_functional_patterns();
    c.draw_data(data, ec);
    c.apply_mask(pattern);
    c
}

fn modules_of(c: &Canvas) -> Vec<Module> {
    let w = c.width();
    (0..w).flat_map(|y| (0..w).map(move |x| (x, y))).map(|(x, y)| c.get(x, y)).collect()
}

#[test]
fn test_best_mask_has_least_penalty() {
    let cases: [(Version, EcLevel, usize, usize); 4] = [
        (Version::Normal(1), EcLevel::M, 16, 10),
        (Version::Normal(2), EcLevel::L, 34, 10),
        (Version::Micro(2), EcLevel::L, 5, 5),
        (Version::Micro(4), EcLevel::Q, 10, 14),
    ];
    for (seed, (version, level, n_data, n_ec)) in cases.into_iter().enumerate() {
        let data: Vec<u8> = (0..n_data).map(|i| (i * 73 + seed * 11 + 5) as u8).collect();
        let ec: Vec<u8> = (0..n_ec).map(|i| (i * 151 + seed * 29 + 3) as u8).collect();
        let mut c = Canvas::new(version, level);
        c.draw_all_functional_patterns();
        c.draw_data(&data, &ec);
        let best = c.apply_best_mask();
        let best_score = best.compute_total_penalty_scores();
        let mut first = None;
        for pattern in patterns_of(version) {
            let candidate = masked(version, level, &data, &ec, pattern);
            let score = candidate.compute_total_penalty_scores();
            assert!(best_score <= score);
            assert_eq!(score, compute_total_penalty_score(version, &modules_of(&candidate)));
            if score == best_score && first.is_none() {
                first = Some(modules_of(&candidate));
            }
        }
        assert_eq!(first, Some(modules_of(&best)));
        let colors = best.into_colors();
        assert_eq!(colors.len(), (version.width() as usize) * (version.width() as usize));
    }
}

fn grid(rows: &[&str]) -> (Vec<Module>, usize) {
    let w = rows.len();
    let mut m = Vec::new();
    for row in rows {
        assert_eq!(row.len(), w);
        for c in row.chars() {
            m.push(Module::Masked(if c == '#' { Color::Dark } else { Color::Light }));
        }
    }
    (m, w)
}

#[test]
fn test_adjacent_penalty() {
    let (m, w) = grid(&[
        "#####..",
        "#.#.#.#",
        "######.",
        "#######",
        ".#.#.#.",
        "#......",
        "..##..#",
    ]);
    // Rows: 3 + 4 + 5 + 4 (six light modules).
    assert_eq!(compute_adjacent_penalty_score(&m, w, true), 3 + 4 + 5 + 4);
    // Columns: none has five in a row.
    assert_eq!(compute_adjacent_penalty_score(&m, w, false), 0);
    let (m, w) = grid(&["#......", "#......", "#......", "#......", "#......", ".......", "......."]);
    assert_eq!(compute_adjacent_penalty_score(&m, w, false), 3 + 6 * 5);
    assert_eq!(compute_adjacent_penalty_score(&m, w, true), 5 * 4 + 2 * 5);
}

#[test]
fn test_block_penalty() {
    let (m, w) = grid(&[
        "##.....",
        "##.....",
        "..#.#.#",
        ".#.#.#.",
        "#.#.#.#",
        ".#.###.",
        "#.#.##.",
    ]);
    // One dark block, four light blocks in the top right corner, one dark block at the bottom.
    assert_eq!(compute_block_penalty_score(&m, w), 3 * (1 + 4 + 1));
}

#[test]
fn test_finder_penalty() {
    let row = "#.###.#....";
    let filler = "#.#.#.#.#.#";
    let rows = [row, filler, filler, filler, filler, filler, filler, filler, filler, filler, filler];
    let (m, w) = grid(&rows);
    // The first row looks like a finder pattern with four light modules behind it; in front of it
    // is the edge. It counts once.
    assert_eq!(compute_finder_penalty_score(&m, w, true), 40);
    assert_eq!(compute_finder_penalty_score(&m, w, false), 0);
    let row = "....#.###.#";
    let rows = [filler, row, filler, filler, filler, filler, filler, filler, filler, filler, filler];
    let (m, w) = grid(&rows);
    assert_eq!(compute_finder_penalty_score(&m, w, true), 40);
    let row = "#.#.###.#.#";
    let rows = [filler, row, filler, filler, filler, filler, filler, filler, filler, filler, filler];
    let (m, w) = grid(&rows);
    assert_eq!(compute_finder_penalty_score(&m, w, true), 0);
}

#[test]
fn test_balance_penalty() {
    let all = |dark: usize, total: usize| -> Vec<Module> {
        (0..total).map(|i| Module::Masked(if i < dark { Color::Dark } else { Color::Light })).collect()
    };
    assert_eq!(compute_balance_penalty_score(&all(50, 100)), 0);
    assert_eq!(compute_balance_penalty_score(&all(54, 100)), 0);
    assert_eq!(compute_balance_penalty_score(&all(55, 100)), 10);
    assert_eq!(compute_balance_penalty_score(&all(45, 100)), 10);
    assert_eq!(compute_balance_penalty_score(&all(46, 100)), 0);
    assert_eq!(compute_balance_penalty_score(&all(40, 100)), 20);
    assert_eq!(compute_balance_penalty_score(&all(0, 100)), 100);
    assert_eq!(compute_balance_penalty_score(&all(100, 100)), 100);
    assert_eq!(compute_balance_penalty_score(&all(213, 441)), 0);
    assert_eq!(compute_balance_penalty_score(&all(287, 441)), 30);
}

#[test]
fn test_light_side_penalty() {
    let (m, w) = grid(&[
        "#######",
        "#.....#",
        "#......",
        "#.....#",
        "#......",
        "#.....#",
        "##.#.#.",
    ]);
    // The bottom row has three light modules behind its first, the right column three.
    assert_eq!(compute_light_side_penalty_score(&m, w), 3 + 3 + 15 * 3);
    let (m, w) = grid(&[".......", ".......", ".......", ".......", ".......", ".......", "......."]);
    assert_eq!(compute_light_side_penalty_score(&m, w), 6 + 6 + 15 * 6);
    let (m, w) = grid(&["......#", "......#", "......#", "......#", "......#", "......#", "......#"]);
    assert_eq!(compute_light_side_penalty_score(&m, w), 5 + 0 + 15 * 5);
}
