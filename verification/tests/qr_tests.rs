use weylus::qr::{encode_gray_png, qr_picture, qr_symbol, render_symbol, GrayImage, QrPictureError, QrSymbol};

const PNG_MAGIC: [u8; 8] = [0x89, b'P', b'N', b'G', 0x0d, 0x0a, 0x1a, 0x0a];

#[test]
fn symbol_matches_qrcode_crate() {
    let link = "http://192.168.1.20:1701?password=a%20b";
    let sym = qr_symbol(link).unwrap();
    let code = qrcode::QrCode::new(link.as_bytes()).unwrap();
    assert_eq!(sym.width(), code.width());
    let dark: Vec<bool> = code.to_colors().iter().map(|c| *c == qrcode::Color::Dark).collect();
    assert_eq!(sym.dark(), &dark);
}

#[test]
fn too_long_link_has_no_symbol() {
    let link = "x".repeat(5000);
    assert!(qr_symbol(&link).is_none());
    assert_eq!(qr_picture(&link).err(), Some(QrPictureError::Encoding));
}

#[test]
fn rendering_layout() {
    let sym = qr_symbol("http://10.0.0.2:1701").unwrap();
    let w = sym.width();
    let img = render_symbol(&sym);
    let side = ((w + 8) * 8) as u32;
    assert_eq!((img.width, img.height), (side, side));
    assert_eq!(img.pixels.len(), (side * side) as usize);
    for my in 0..w {
        for mx in 0..w {
            let expect = if sym.dark()[my * w + mx] { 0 } else { 255 };
            for (dx, dy) in [(0, 0), (7, 7), (3, 5)] {
                let x = (mx + 4) * 8 + dx;
                let y = (my + 4) * 8 + dy;
                assert_eq!(img.pixels[y * side as usize + x], expect);
            }
        }
    }
}

#[test]
fn rendering_matches_qrcode_crate() {
    let link = "http://[fe80::1]:1701";
    let sym = qr_symbol(link).unwrap();
    let img = render_symbol(&sym);
    let reference = qrcode::QrCode::new(link.as_bytes()).unwrap().render::<image::Luma<u8>>().build();
    assert_eq!(img.width, reference.width());
    assert_eq!(img.pixels, reference.into_raw());
}

#[test]
fn law_picture_has_white_border() {
    let img = render_symbol(&qr_symbol("abc").unwrap());
    let side = img.width as usize;
    for i in 0..side {
        for j in 0..32 {
            assert_eq!(img.pixels[j * side + i], 255);
            assert_eq!(img.pixels[i * side + j], 255);
            assert_eq!(img.pixels[(side - 1 - j) * side + i], 255);
            assert_eq!(img.pixels[i * side + side - 1 - j], 255);
        }
    }
}

#[test]
fn law_module_is_a_square() {
    let sym = qr_symbol("square").unwrap();
    let img = render_symbol(&sym);
    let side = img.width as usize;
    let w = sym.width();
    for (mx, my) in [(0, 0), (w - 1, 0), (5, 9)] {
        let first = img.pixels[((my + 4) * 8) * side + (mx + 4) * 8];
        for dy in 0..8 {
            for dx in 0..8 {
                assert_eq!(img.pixels[((my + 4) * 8 + dy) * side + (mx + 4) * 8 + dx], first);
            }
        }
    }
}

#[test]
fn png_of_a_gray_picture() {
    let img = GrayImage { width: 2, height: 2, pixels: vec![0, 255, 255, 0] };
    let png = encode_gray_png(&img).unwrap();
    assert_eq!(&png[..8], &PNG_MAGIC);
    assert!(png.len() > 8 + 4);
    let mut expected = Vec::new();
    image::codecs::png::PngEncoder::new(&mut expected)
        .encode(&img.pixels, 2, 2, image::ColorType::L8)
        .unwrap();
    assert_eq!(png, expected);
}

#[test]
fn png_refuses_wrong_pixel_count() {
    let img = GrayImage { width: 3, height: 3, pixels: vec![0; 4] };
    assert_eq!(encode_gray_png(&img).err(), Some(QrPictureError::Png));
}

#[test]
fn picture_of_a_link() {
    let link = "http://192.168.1.20:1701";
    let pic = qr_picture(link).unwrap();
    let sym = qr_symbol(link).unwrap();
    let side = ((sym.width() + 8) * 8) as u32;
    assert_eq!((pic.width, pic.height), (side, side));
    assert_eq!(&pic.png[..8], &PNG_MAGIC);
    let mut expected = Vec::new();
    let raw = qrcode::QrCode::new(link.as_bytes()).unwrap().render::<image::Luma<u8>>().build();
    image::DynamicImage::ImageLuma8(raw).write_to(&mut expected, image::ImageOutputFormat::Png).unwrap();
    assert_eq!(pic.png, expected);
}

#[test]
fn symbol_construction_checks_shape() {
    assert!(QrSymbol::new(21, vec![false; 441]).is_some());
    assert!(QrSymbol::new(21, vec![false; 440]).is_none());
    assert!(QrSymbol::new(20, vec![false; 400]).is_none());
    let s = QrSymbol::new(21, vec![true; 441]).unwrap();
    let img = render_symbol(&s);
    assert_eq!(img.pixels[(32 * 232) + 32], 0);
    assert_eq!(img.pixels[0], 255);
}

#[test]
fn png_refuses_empty_picture() {
    let img = GrayImage { width: 0, height: 4, pixels: vec![] };
    assert_eq!(encode_gray_png(&img).err(), Some(QrPictureError::Png));
}

#[test]
fn link_longer_than_any_qr_code() {
    let link = "1".repeat(8000);
    assert!(qr_symbol(&link).is_none());
    assert_eq!(qr_picture(&link).err(), Some(QrPictureError::Encoding));
}
