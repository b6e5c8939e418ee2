use covecto::config::{Engine, OptimizeConfig, OptimizePreset, VectorizeConfig, VectorizeRequest};
use covecto::engine::pixel_exact;
use covecto::engine::spline::{spline_settings, to_color_image};
use covecto::config::{ColorMode, HierarchicalMode, PathSimplifyMode, SplinePreset};
use covecto::error::Error;
use covecto::image::RgbaImage;
use covecto::{count_svg_paths, count_unique_colors, vectorize};

fn image(width: u32, height: u32, pixels: &[[u8; 4]]) -> RgbaImage {
    let data: Vec<u8> = pixels.iter().flat_map(|p| p.iter().copied()).collect();
    RgbaImage::from_raw(width, height, data).unwrap()
}

#[test]
fn pixel_exact_single_pixel_document() {
    let img = image(1, 1, &[[255, 0, 0, 255]]);
    let svg = pixel_exact::vectorize(&img).unwrap();
    assert_eq!(
        svg,
        "<svg width=\"1\" height=\"1\" xmlns=\"http://www.w3.org/2000/svg\"><path fill=\"#ff0000\" d=\"M0,0v1h1v-1Z\"/></svg>\n"
    );
}

#[test]
fn pixel_exact_straight_runs_are_one_command() {
    let img = image(3, 1, &[[255, 0, 0, 255], [255, 0, 0, 255], [255, 0, 0, 255]]);
    let svg = pixel_exact::vectorize(&img).unwrap();
    assert_eq!(
        svg,
        "<svg width=\"3\" height=\"1\" xmlns=\"http://www.w3.org/2000/svg\"><path fill=\"#ff0000\" d=\"M0,0v1h3v-1Z\"/></svg>\n"
    );
}

#[test]
fn pixel_exact_every_piece_starts_absolute() {
    let img = image(3, 1, &[[255, 0, 0, 255], [0, 0, 0, 0], [255, 0, 0, 255]]);
    let svg = pixel_exact::vectorize(&img).unwrap();
    assert!(svg.contains("d=\"M0,0v1h1v-1ZM2,0v1h1v-1Z\""), "{svg}");
    for d in svg.split("d=\"").skip(1) {
        let data = d.split('"').next().unwrap();
        assert!(data.chars().all(|c| "Mhv Z,-0123456789".contains(c)), "{data}");
    }
}

#[test]
fn spline_output_is_determined_without_all_key_colors() {
    let pixels = [
        [10, 20, 30, 255], [10, 20, 30, 255], [0, 0, 0, 0], [200, 100, 50, 255],
        [10, 20, 30, 255], [0, 0, 0, 0], [0, 0, 0, 0], [200, 100, 50, 255],
    ];
    let mut config = VectorizeConfig::default();
    config.engine = Engine::Spline;
    config.optimize = false;
    let a = vectorize(&VectorizeRequest::new(image(4, 2, &pixels)).with_config(config.clone())).unwrap();
    let b = vectorize(&VectorizeRequest::new(image(4, 2, &pixels)).with_config(config)).unwrap();
    assert_eq!(a.svg, b.svg);
}

#[test]
fn pixel_exact_transparent_image_has_no_paths() {
    let img = image(2, 1, &[[1, 2, 3, 0], [4, 5, 6, 0]]);
    let svg = pixel_exact::vectorize(&img).unwrap();
    assert_eq!(svg, "<svg width=\"2\" height=\"1\" xmlns=\"http://www.w3.org/2000/svg\"></svg>\n");
}

#[test]
fn pixel_exact_opacity_matches_float_formatting() {
    for a in 1u8..255 {
        let img = image(1, 1, &[[0, 0, 255, a]]);
        let svg = pixel_exact::vectorize(&img).unwrap();
        let expected = format!("<g fill-opacity=\"{:.3}\">", a as f32 / 255.0);
        assert!(svg.contains(&expected), "alpha {a}: {svg}");
    }
}

#[test]
fn pixel_exact_keeps_every_opaque_color() {
    // law: every non-transparent color gets a path; transparent pixels get none
    let img = image(3, 1, &[[10, 20, 30, 255], [0, 0, 0, 0], [200, 100, 50, 128]]);
    let svg = pixel_exact::vectorize(&img).unwrap();
    assert_eq!(count_svg_paths(&svg), 2);
    assert!(svg.contains("fill=\"#0a141e\""));
    assert!(svg.contains("fill=\"#c86432\""));
}

#[test]
fn pixel_exact_path_data_is_rectilinear() {
    // law: path data holds only M/m, h, v, Z, digits, commas and minus signs
    let img = image(3, 3, &[
        [1, 1, 1, 255], [2, 2, 2, 255], [1, 1, 1, 255],
        [2, 2, 2, 255], [1, 1, 1, 255], [2, 2, 2, 255],
        [1, 1, 1, 255], [2, 2, 2, 255], [1, 1, 1, 255],
    ]);
    let svg = pixel_exact::vectorize(&img).unwrap();
    for part in svg.split(" d=\"").skip(1) {
        let data = part.split('"').next().unwrap();
        assert!(data.chars().all(|c| "MmhvZ,-0123456789".contains(c)), "{data}");
    }
}

#[test]
fn unique_colors_counts_distinct_colors() {
    let img = image(2, 2, &[[1, 2, 3, 4], [1, 2, 3, 4], [9, 9, 9, 9], [1, 2, 3, 5]]);
    assert_eq!(count_unique_colors(&img), 3);
}

#[test]
fn unique_colors_samples_large_images() {
    // 300x300 = 90000 pixels > 65536: every (90000 / 65536) = 1st pixel is sampled
    let img = RgbaImage::from_pixel(300, 300, [7, 7, 7, 7]);
    assert_eq!(count_unique_colors(&img), 1);
}

#[test]
fn auto_picks_pixel_exact_for_large_flat_image() {
    let img = RgbaImage::from_pixel(300, 300, [7, 7, 7, 255]);
    assert_eq!(covecto::auto_select_engine(&img), Engine::PixelExact);
    let empty = RgbaImage::from_pixel(0, 5, [0, 0, 0, 0]);
    assert_eq!(covecto::auto_select_engine(&empty), Engine::PixelExact);
}

#[test]
fn count_paths_counts_non_overlapping_occurrences() {
    assert_eq!(count_svg_paths("<path/><path/><pat"), 2);
    assert_eq!(count_svg_paths(""), 0);
}

#[test]
fn vectorize_reports_metadata() {
    let img = image(2, 1, &[[255, 0, 0, 255], [0, 255, 0, 255]]);
    let req = VectorizeRequest::new(img).with_engine(Engine::PixelExact).with_optimize(false);
    let result = vectorize(&req).unwrap();
    assert_eq!(result.engine_used, Engine::PixelExact);
    assert_eq!(result.metadata.input_size, (2, 1));
    assert_eq!(result.metadata.svg_byte_size, result.svg.len());
    assert_eq!(result.metadata.path_count, 2);
}

#[test]
fn vectorize_without_optimization_returns_engine_output() {
    let img = image(1, 1, &[[255, 0, 0, 255]]);
    let raw = pixel_exact::vectorize(&img).unwrap();
    let req = VectorizeRequest::new(img).with_engine(Engine::PixelExact).with_optimize(false);
    assert_eq!(vectorize(&req).unwrap().svg, raw);
}

#[test]
fn vectorize_with_optimization_ends_with_one_newline() {
    let img = image(1, 1, &[[255, 0, 0, 255]]);
    let req = VectorizeRequest::new(img).with_engine(Engine::PixelExact).with_optimize_config(OptimizeConfig {
        preset: OptimizePreset::Default,
        multipass: true,
        multipass_iterations: 3,
    });
    let result = vectorize(&req).unwrap();
    assert!(result.svg.ends_with("</svg>\n"));
    assert!(!result.svg.ends_with("\n\n"));
}

#[test]
fn pixel_exact_document_is_ascii_and_always_optimizes() {
    // law: the pixel-exact document is ASCII, so every preset optimizes it
    let pixels = [
        [255, 0, 0, 255], [0, 255, 0, 128], [255, 0, 0, 255],
        [0, 0, 255, 1], [0, 0, 0, 0], [17, 34, 51, 255],
    ];
    let raw = pixel_exact::vectorize(&image(3, 2, &pixels)).unwrap();
    assert!(raw.is_ascii());
    for preset in [OptimizePreset::Default, OptimizePreset::Safe, OptimizePreset::Off] {
        for multipass in [false, true] {
            let req = VectorizeRequest::new(image(3, 2, &pixels)).with_engine(Engine::PixelExact).with_optimize(true)
                .with_optimize_config(OptimizeConfig { preset, multipass, multipass_iterations: 4 });
            let out = vectorize(&req).unwrap();
            assert!(out.svg.is_ascii());
            assert!(out.svg.len() <= raw.len() + 1);
        }
    }
}

#[test]
fn spline_output_has_vtracer_frame() {
    let img = RgbaImage::from_pixel(3, 2, [0, 0, 255, 255]);
    let req = VectorizeRequest::new(img).with_engine(Engine::Spline).with_optimize(false);
    let result = vectorize(&req).unwrap();
    assert!(result.svg.starts_with(
        "<?xml version=\"1.0\" encoding=\"UTF-8\"?>\n<!-- Generator: visioncortex VTracer 0.6.5 -->\n<svg version=\"1.1\" xmlns=\"http://www.w3.org/2000/svg\" width=\"3\" height=\"2\">\n"
    ));
    assert!(result.svg.ends_with("</svg>\n"));
}

#[test]
fn spline_settings_carry_the_path_mode() {
    let mut config = VectorizeConfig::default();
    assert_eq!(spline_settings(&config).mode, PathSimplifyMode::Spline);
    config.path_simplify_mode = Some(PathSimplifyMode::Polygon);
    assert_eq!(spline_settings(&config).mode, PathSimplifyMode::Polygon);
    config.path_simplify_mode = Some(PathSimplifyMode::Off);
    assert_eq!(spline_settings(&config).mode, PathSimplifyMode::Off);
    config.spline_preset = Some(SplinePreset::Photo);
    assert_eq!(spline_settings(&config).mode, PathSimplifyMode::Spline);
}

#[test]
fn spline_polygon_mode_draws_no_curves() {
    let mut pixels = vec![[255u8, 255, 255, 255]; 64];
    for i in [18, 19, 20, 26, 27, 28, 34, 35, 36] {
        pixels[i] = [0, 0, 0, 255];
    }
    let img = image(8, 8, &pixels);
    let mut config = VectorizeConfig::default();
    config.engine = Engine::Spline;
    config.optimize = false;
    config.color_mode = Some(ColorMode::Binary);
    config.path_simplify_mode = Some(PathSimplifyMode::Polygon);
    let req = VectorizeRequest::new(img).with_config(config);
    let out = vectorize(&req).unwrap();
    assert!(!out.svg.contains('C'), "{}", out.svg);
}

#[test]
fn spline_settings_follow_preset_then_overrides() {
    let mut config = VectorizeConfig::default();
    let d = spline_settings(&config);
    assert_eq!((d.filter_speckle, d.color_precision, d.layer_difference, d.corner_threshold), (4, 6, 16, 60));
    assert_eq!((d.max_iterations, d.splice_threshold, d.path_precision), (10, 45, Some(2)));
    config.color_precision = Some(3);
    config.hierarchical = Some(HierarchicalMode::Cutout);
    let o = spline_settings(&config);
    assert_eq!(o.color_precision, 3);
    assert_eq!(o.hierarchical, HierarchicalMode::Cutout);
    config.spline_preset = Some(SplinePreset::Photo);
    let p = spline_settings(&config);
    assert_eq!((p.filter_speckle, p.color_precision, p.layer_difference, p.corner_threshold), (10, 8, 48, 180));
    config.spline_preset = Some(SplinePreset::Bw);
    assert_eq!(spline_settings(&config).color_mode, ColorMode::Binary);
}

#[test]
fn color_image_copies_pixels() {
    let img = image(2, 1, &[[1, 2, 3, 4], [5, 6, 7, 8]]);
    assert_eq!(to_color_image(&img), vec![1, 2, 3, 4, 5, 6, 7, 8]);
}

#[test]
fn image_from_raw_checks_length() {
    assert!(RgbaImage::from_raw(2, 2, vec![0; 15]).is_none());
    let img = RgbaImage::from_raw(2, 2, vec![0; 16]).unwrap();
    assert_eq!((img.width(), img.height(), img.as_raw().len()), (2, 2, 16));
}

#[test]
fn error_messages() {
    assert_eq!(Error::InvalidEngine("x".to_string()).message(), "Invalid engine: x");
    assert_eq!(Error::Vtracer("boom".to_string()).message(), "vtracer error: boom");
    assert_eq!(
        Error::ImageTooLarge { width: 10, height: 20, max_w: 5, max_h: 6 }.message(),
        "Image too large: 10x20 exceeds maximum 5x6"
    );
    assert_eq!(Error::UnsupportedFormat("xyz".to_string()).message(), "Unsupported image format: xyz");
    assert_eq!(Error::BadRequest("no".to_string()).message(), "Invalid request: no");
}

/// Corners of each subpath of pixel-exact path data (`M`/`m`, `h`, `v`, `Z`).
fn subpaths(d: &str) -> Vec<Vec<(i64, i64)>> {
    let chars: Vec<char> = d.chars().collect();
    let mut i = 0;
    let mut number = |i: &mut usize| -> i64 {
        let start = *i;
        if chars[*i] == '-' {
            *i += 1;
        }
        while *i < chars.len() && chars[*i].is_ascii_digit() {
            *i += 1;
        }
        chars[start..*i].iter().collect::<String>().parse().unwrap()
    };
    let mut out: Vec<Vec<(i64, i64)>> = Vec::new();
    let mut start = (0i64, 0i64);
    let mut cur = (0i64, 0i64);
    while i < chars.len() {
        let c = chars[i];
        i += 1;
        match c {
            'M' | 'm' => {
                let dx = number(&mut i);
                if chars[i] == ',' {
                    i += 1;
                }
                let dy = number(&mut i);
                start = if c == 'M' { (dx, dy) } else { (start.0 + dx, start.1 + dy) };
                cur = start;
                out.push(vec![cur]);
            }
            'h' => {
                cur.0 += number(&mut i);
                out.last_mut().unwrap().push(cur);
            }
            'v' => {
                cur.1 += number(&mut i);
                out.last_mut().unwrap().push(cur);
            }
            'Z' => cur = start,
            _ => panic!("unexpected {c}"),
        }
    }
    out
}

/// Winding number of closed polylines around the point (x + ½, y + ½).
fn winding(paths: &[Vec<(i64, i64)>], x: i64, y: i64) -> i64 {
    let mut w = 0;
    for p in paths {
        for i in 0..p.len() {
            let (a, b) = (p[i], p[(i + 1) % p.len()]);
            if a.0 == b.0 && a.0 > x {
                if a.1 <= y && y < b.1 {
                    w -= 1;
                } else if b.1 <= y && y < a.1 {
                    w += 1;
                }
            }
        }
    }
    w
}

#[test]
fn pixel_exact_reproduces_every_pixel() {
    // law: each color's path winds once around exactly the pixels of that color
    let (w, h) = (5u32, 4u32);
    let mut pixels = Vec::new();
    for y in 0..h {
        for x in 0..w {
            let v = ((x * 7 + y * 3 + x * y) % 4) as u8;
            let alpha = if v == 3 { 0 } else if v == 2 { 100 } else { 255 };
            pixels.push([v * 60, 10, 200 - v * 50, alpha]);
        }
    }
    let img = image(w, h, &pixels);
    let svg = pixel_exact::vectorize(&img).unwrap();
    let mut colors = Vec::new();
    for part in svg.split("<path fill=\"#").skip(1) {
        let hex = &part[..6];
        let data = part.split(" d=\"").nth(1).unwrap().split('"').next().unwrap();
        colors.push((hex.to_string(), subpaths(data)));
    }
    for y in 0..h as i64 {
        for x in 0..w as i64 {
            let p = pixels[(y * w as i64 + x) as usize];
            let hex = format!("{:02x}{:02x}{:02x}", p[0], p[1], p[2]);
            for (c, paths) in &colors {
                let expected = if p[3] != 0 && *c == hex { 1 } else { 0 };
                assert_eq!(winding(paths, x, y), expected, "pixel ({x}, {y}) color {c}");
            }
        }
    }
}
