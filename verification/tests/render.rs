use qrcode::render::utf8::Unicode1x2;
use qrcode::render::Renderer;
use qrcode::{EcLevel, QrCode, Version};

#[test]
fn test_render_luma8_unsized() {
    let image = Renderer::<u8>::new(
        &[
            false, true, true, //
            true, false, false, //
            false, true, false,
        ],
        3,
        1,
    )
    .module_size(1)
    .to_image();

    let expected = [
        255, 255, 255, 255, 255,
        255, 255,   0,   0, 255,
        255,   0, 255, 255, 255,
        255, 255,   0, 255, 255,
        255, 255, 255, 255, 255,
    ];
    assert_eq!(image.into_raw(), expected);
}

#[test]
fn test_render_rgba_unsized() {
    let image = Renderer::<[u8; 4]>::new(
        &[
            false, true, //
            true, true,
        ],
        2,
        1,
    )
    .module_size(1)
    .to_pixels();

    let expected: &[u8] = &[
        255,255,255,255, 255,255,255,255, 255,255,255,255, 255,255,255,255,
        255,255,255,255, 255,255,255,255,   0,  0,  0,255, 255,255,255,255,
        255,255,255,255,   0,  0,  0,255,   0,  0,  0,255, 255,255,255,255,
        255,255,255,255, 255,255,255,255, 255,255,255,255, 255,255,255,255,
    ];

    assert_eq!(image.concat(), expected);
}

#[test]
fn test_render_resized() {
    let image = Renderer::<u8>::new(
        &[
            true, false, //
            false, true,
        ],
        2,
        1,
    )
    .min_width(10)
    .to_image();

    let expected: &[u8] = &[
        255,255,255, 255,255,255, 255,255,255, 255,255,255,
        255,255,255, 255,255,255, 255,255,255, 255,255,255,
        255,255,255, 255,255,255, 255,255,255, 255,255,255,

        255,255,255,   0,  0,  0, 255,255,255, 255,255,255,
        255,255,255,   0,  0,  0, 255,255,255, 255,255,255,
        255,255,255,   0,  0,  0, 255,255,255, 255,255,255,

        255,255,255, 255,255,255,   0,  0,  0, 255,255,255,
        255,255,255, 255,255,255,   0,  0,  0, 255,255,255,
        255,255,255, 255,255,255,   0,  0,  0, 255,255,255,

        255,255,255, 255,255,255, 255,255,255, 255,255,255,
        255,255,255, 255,255,255, 255,255,255, 255,255,255,
        255,255,255, 255,255,255, 255,255,255, 255,255,255,
    ];

    assert_eq!(image.dimensions(), (12, 12));
    assert_eq!(image.into_raw(), expected);
}

#[test]
fn test_render_min_width() {
    // Nineteen modules across: for at least 200 pixels a module takes 11.
    let content = vec![false; 11 * 11];
    let mut renderer = Renderer::<u8>::new(&content, 11, 4);
    let image = renderer.min_width(200).to_pixels();
    assert_eq!(image.len(), 209 * 209);
    let image = renderer.min_width(209).to_pixels();
    assert_eq!(image.len(), 209 * 209);
    let image = renderer.min_width(210).to_pixels();
    assert_eq!(image.len(), 228 * 228);
    let image = renderer.quiet_zone(false).min_width(22).to_pixels();
    assert_eq!(image.len(), 22 * 22);
}

#[test]
fn test_render_colors() {
    let image = Renderer::<[u8; 3]>::new(&[true], 1, 1).module_size(1).dark_color([0, 0, 128]).light_color([224, 224, 224]).to_pixels();
    let g = [224, 224, 224];
    assert_eq!(image, vec![g, g, g, g, [0, 0, 128], g, g, g, g]);
    let image = Renderer::<[u8; 3]>::new(&[true], 1, 1).module_size(2).quiet_zone(false).to_pixels();
    assert_eq!(image, vec![[0, 0, 0]; 4]);
}

#[test]
fn test_render_to_string() {
    let content = [true, false, false, true];
    let text = Renderer::<u8>::new(&content, 2, 1).to_string("##", "  ");
    assert_eq!(text, "        \n  ##    \n    ##  \n        \n");
    let text = Renderer::<u8>::new(&content, 2, 1).quiet_zone(false).to_string("#", ".");
    assert_eq!(text, "#.\n.#\n");
    let text = Renderer::<u8>::new(&content, 2, 0).to_string("1", "0");
    assert_eq!(text, "10\n01\n");
    let text = Renderer::<u8>::new(&[], 0, 0).to_string("1", "0");
    assert_eq!(text, "");
}

#[test]
fn test_module_is_dark() {
    let content = [true, false, false, true];
    let renderer = Renderer::<u8>::new(&content, 2, 3);
    assert!(renderer.module_is_dark(3, 3));
    assert!(!renderer.module_is_dark(4, 3));
    assert!(renderer.module_is_dark(4, 4));
    assert!(!renderer.module_is_dark(0, 0));
    assert!(!renderer.module_is_dark(7, 7));
    assert!(!renderer.module_is_dark(5, 4));
}

#[test]
fn test_render_image_and_pixels_agree() {
    let content = [true, false, true, false, false, true, true, true, false];
    let mut renderer = Renderer::<u8>::new(&content, 3, 2);
    renderer.module_dimensions(3, 2).dark_color(7).light_color(200);
    assert_eq!(renderer.dimensions(), Some((21, 14)));
    let pixels = renderer.to_pixels();
    let image = renderer.to_image();
    assert_eq!(image.dimensions(), (21, 14));
    assert_eq!(image.into_raw(), pixels);
    assert_eq!(pixels.len(), 21 * 14);
    assert_eq!(pixels.iter().filter(|p| **p == 7).count(), 5 * 6);
    // The module in the top left corner of the symbol.
    assert_eq!(pixels[4 * 21 + 6], 7);
    assert_eq!(pixels[5 * 21 + 8], 7);
    assert_eq!(pixels[4 * 21 + 9], 200);
    assert_eq!(pixels[3 * 21 + 6], 200);
    assert_eq!(renderer.pixel_at(6, 4), 7);
    assert_eq!(renderer.pixel_at(5, 4), 200);
}

#[test]
fn test_render_dimensions() {
    let content = [true];
    let mut renderer = Renderer::<u8>::new(&content, 1, 4);
    assert_eq!(renderer.dimensions(), Some((72, 72)));
    assert_eq!(renderer.module_size(0).dimensions(), None);
    assert_eq!(renderer.module_dimensions(1, 0).dimensions(), None);
    assert_eq!(renderer.module_size(u32::MAX).dimensions(), None);
    assert_eq!(renderer.quiet_zone(false).dimensions(), Some((u32::MAX, u32::MAX)));
    let mut renderer = Renderer::<u8>::new(&content, 1, u32::MAX);
    assert_eq!(renderer.dimensions(), None);
    assert_eq!(renderer.quiet_zone(false).dimensions(), Some((8, 8)));
}

#[test]
fn test_render_to_utf8_string() {
    let colors = &[true, false, false, true];
    let image: String = Renderer::<Unicode1x2>::new(colors, 2, 1).build();

    assert_eq!(&image, " \u{2584}  \n  \u{2580} ");

    let image2 = Renderer::<Unicode1x2>::new(colors, 2, 1).module_dimensions(2, 2).build();

    assert_eq!(&image2, "        \n  \u{2588}\u{2588}    \n    \u{2588}\u{2588}  \n        ");
}

#[test]
fn integration_render_utf8_1x2() {
    let code = QrCode::with_version(b"12345678", Version::Micro(2), EcLevel::L).unwrap();
    let image = code
        .render::<Unicode1x2>()
        .dark_color(Unicode1x2::Light)
        .light_color(Unicode1x2::Dark)
        .module_dimensions(1, 1)
        .build();
    assert_eq!("█████████████████\n██ ▄▄▄▄▄ █▄▀▄█▄██\n██ █   █ █   █ ██\n██ █▄▄▄█ █▄▄██▀██\n██▄▄▄▄▄▄▄█▄▄▄▀ ██\n██▄ ▀ ▀ ▀▄▄  ████\n██▄▄▀▄█ ▀▀▀ ▀▄▄██\n██▄▄▄█▄▄█▄██▄█▄██\n▀▀▀▀▀▀▀▀▀▀▀▀▀▀▀▀▀", image);
}

#[test]
fn test_render_utf8_odd_height() {
    let colors = &[true, true, true, true, false, true, true, true, true];
    let image = Renderer::<Unicode1x2>::new(colors, 3, 0).build();
    assert_eq!(&image, "\u{2588}\u{2580}\u{2588}\n\u{2580}\u{2580}\u{2580}");
    assert_eq!(Unicode1x2::Dark.value(), 1);
    assert_eq!(Unicode1x2::Light.value(), 0);
    assert_eq!(Unicode1x2::parse_2_bits(&0), " ");
    assert_eq!(Unicode1x2::parse_2_bits(&1), "\u{2584}");
    assert_eq!(Unicode1x2::parse_2_bits(&2), "\u{2580}");
    assert_eq!(Unicode1x2::parse_2_bits(&3), "\u{2588}");
}
