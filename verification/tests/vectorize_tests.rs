use covecto::config::{Engine, VectorizeRequest};
use covecto::image::RgbaImage;
use covecto::{auto_select_engine, vectorize};

fn image_from_fn(width: u32, height: u32, f: impl Fn(u32, u32) -> [u8; 4]) -> RgbaImage {
    let mut data = Vec::new();
    for y in 0..height {
        for x in 0..width {
            data.extend_from_slice(&f(x, y));
        }
    }
    RgbaImage::from_raw(width, height, data).unwrap()
}

#[test]
fn test_auto_select_small_icon() {
    // 16x16 icon with 4 colors → PixelExact
    let img = RgbaImage::from_pixel(16, 16, [255, 0, 0, 255]);
    assert!(matches!(auto_select_engine(&img), Engine::PixelExact));
}

#[test]
fn test_auto_select_large_photo() {
    // 512x512 with many colors (gradient) → Spline
    let img = image_from_fn(512, 512, |x, y| {
        let r = (x * 255 / 512) as u8;
        let g = (y * 255 / 512) as u8;
        [r, g, 128, 255]
    });
    assert!(matches!(auto_select_engine(&img), Engine::Spline));
}

#[test]
fn test_vectorize_pixel_exact() {
    let img = RgbaImage::from_pixel(8, 8, [255, 0, 0, 255]);
    let req = VectorizeRequest::new(img).with_engine(Engine::PixelExact);
    let result = vectorize(&req).unwrap();
    assert!(result.svg.contains("<svg"));
    assert!(result.svg.contains("<path"));
    assert_eq!(result.engine_used, Engine::PixelExact);
}

#[test]
fn test_vectorize_spline() {
    let img = RgbaImage::from_pixel(8, 8, [255, 0, 0, 255]);
    let req = VectorizeRequest::new(img).with_engine(Engine::Spline);
    let result = vectorize(&req).unwrap();
    assert!(result.svg.contains("<svg"));
    assert_eq!(result.engine_used, Engine::Spline);
}

#[test]
fn test_vectorize_auto() {
    let img = RgbaImage::from_pixel(16, 16, [255, 0, 0, 255]);
    let req = VectorizeRequest::new(img).with_engine(Engine::Auto);
    let result = vectorize(&req).unwrap();
    assert!(result.svg.contains("<svg"));
}
