use sl_viewer::texture_cache::DecodedRgbaImage;
use sl_viewer::texture_decode::{
    decode_png_rgba8, decode_texture_rgba8, rgba_from_jp2, Jp2Component, Jp2Image,
    TextureDecodeError,
};

fn openjpeg(bytes: &[u8]) -> Option<DecodedRgbaImage> {
    let j2k = jpeg2k::Image::from_bytes(bytes).ok()?;
    let rgba = image::DynamicImage::try_from(&j2k).ok()?.to_rgba8();
    Some(DecodedRgbaImage { width: rgba.width(), height: rgba.height(), rgba: rgba.into_raw() })
}

fn jp2(bytes: &[u8]) -> Option<Jp2Image> {
    let img = justjp2::decode(bytes).ok()?;
    Some(Jp2Image {
        width: img.width,
        height: img.height,
        components: img
            .components
            .into_iter()
            .map(|c| Jp2Component { data: c.data, width: c.width, height: c.height, precision: c.precision, signed: c.signed })
            .collect(),
    })
}

fn no_openjpeg(_: &[u8]) -> Option<DecodedRgbaImage> {
    None
}

fn component(data: Vec<i32>, width: u32, height: u32, precision: u32, signed: bool) -> Jp2Component {
    Jp2Component { data, width, height, precision, signed }
}

#[test]
fn decode_texture_rgba8_decodes_png() {
    let image = image::RgbaImage::from_raw(1, 1, vec![1, 2, 3, 255]).expect("valid image");
    let mut bytes = Vec::new();
    image
        .write_to(&mut std::io::Cursor::new(&mut bytes), image::ImageFormat::Png)
        .expect("encode png");

    let decoded = decode_texture_rgba8(&bytes, openjpeg, jp2).expect("png should decode");
    assert_eq!(decoded.width, 1);
    assert_eq!(decoded.height, 1);
    assert_eq!(decoded.rgba, vec![1, 2, 3, 255]);
}

#[test]
fn decode_texture_rgba8_rejects_unsupported_bytes() {
    let err = decode_texture_rgba8(b"not-an-image", openjpeg, jp2).expect_err("must reject invalid bytes");
    assert!(matches!(err, TextureDecodeError::Unsupported));
}

#[test]
fn decode_png_rgba8_reports_unsupported_as_text() {
    let err = decode_png_rgba8(b"not-an-image", openjpeg, jp2).expect_err("must reject invalid bytes");
    assert_eq!(err, "unsupported image format");
}

#[test]
fn decode_texture_rgba8_decodes_generated_jpeg2000() {
    let pixels: Vec<i32> = (0..16).map(|v| v * 16).collect();
    let source = justjp2::Image {
        width: 4,
        height: 4,
        components: (0..3)
            .map(|_| justjp2::Component {
                data: pixels.clone(),
                width: 4,
                height: 4,
                precision: 8,
                signed: false,
                dx: 1,
                dy: 1,
            })
            .collect(),
    };
    let bytes = justjp2::encode(&source, &justjp2::EncodeParams::default()).expect("encode jp2");
    let decoded = decode_texture_rgba8(&bytes, openjpeg, jp2).expect("jpeg2000 should decode");
    assert_eq!(decoded.width, 4);
    assert_eq!(decoded.height, 4);
    assert_eq!(decoded.rgba.len(), 4 * 4 * 4);

    // Without OpenJPEG, the justjp2 components are resampled to RGBA.
    let fallback = decode_texture_rgba8(&bytes, no_openjpeg, jp2).expect("justjp2 fallback should decode");
    let resampled = rgba_from_jp2(&jp2(&bytes).expect("justjp2 decodes")).expect("usable");
    assert_eq!(fallback.width, 4);
    assert_eq!(fallback.height, 4);
    assert_eq!(fallback.rgba, resampled.rgba);
    assert_eq!(fallback.rgba[3], 255);
}

#[test]
fn jp2_single_component_fills_rgb_and_opaque_alpha() {
    let img = Jp2Image { width: 2, height: 1, components: vec![component(vec![0, 255], 2, 1, 8, false)] };
    let decoded = rgba_from_jp2(&img).expect("usable");
    assert_eq!(decoded.rgba, vec![0, 0, 0, 255, 255, 255, 255, 255]);
}

#[test]
fn jp2_signed_and_wide_samples_are_scaled() {
    let img = Jp2Image {
        width: 2,
        height: 1,
        components: vec![
            component(vec![-128, 127], 2, 1, 8, true),
            component(vec![65535, 32768], 2, 1, 16, false),
            component(vec![1, 0], 2, 1, 0, false),
            component(vec![300, -5], 2, 1, 8, false),
        ],
    };
    let decoded = rgba_from_jp2(&img).expect("usable");
    assert_eq!(decoded.rgba, vec![0, 255, 255, 255, 255, 127, 0, 0]);
}

#[test]
fn jp2_subsampled_component_is_stretched() {
    let img = Jp2Image {
        width: 2,
        height: 2,
        components: vec![
            component(vec![10, 20, 30, 40], 2, 2, 8, false),
            component(vec![99], 1, 1, 8, false),
            component(vec![], 2, 2, 8, false),
        ],
    };
    let decoded = rgba_from_jp2(&img).expect("usable");
    assert_eq!(
        decoded.rgba,
        vec![10, 99, 0, 255, 20, 99, 0, 255, 30, 99, 0, 255, 40, 99, 0, 255]
    );
}

#[test]
fn jp2_without_components_or_size_is_unsupported() {
    let empty = Jp2Image { width: 2, height: 2, components: vec![] };
    assert_eq!(rgba_from_jp2(&empty).unwrap_err(), TextureDecodeError::Unsupported);
    let flat = Jp2Image { width: 0, height: 2, components: vec![component(vec![1], 1, 1, 8, false)] };
    assert_eq!(rgba_from_jp2(&flat).unwrap_err(), TextureDecodeError::Unsupported);
}
