use covecto::api::{
    config_from_params, create_app_state, health_response, is_file_field, optimize_upload, OptimizeParams,
    VectorizeParams,
};
use covecto::cli::{is_image_file, output_extension, parse_opt_preset, parse_output_format, VectorizeOpts};
use covecto::config::{
    apply_profile, ColorMode, Engine, HierarchicalMode, OptimizePreset, PathSimplifyMode, SplinePreset,
    VectorizeConfig,
};
use covecto::error::{load_image_from_bytes, Error};
use covecto::export::{convert_output, OutputFormat};
use covecto::optimize::optimize_svg;

#[test]
fn engine_names() {
    assert_eq!(Engine::parse("PIXEL-EXACT").unwrap(), Engine::PixelExact);
    assert_eq!(Engine::parse("pixel_exact").unwrap(), Engine::PixelExact);
    assert_eq!(Engine::parse("Curve").unwrap(), Engine::Spline);
    assert_eq!("auto".parse::<Engine>().unwrap(), Engine::Auto);
    match Engine::parse("bogus") {
        Err(Error::InvalidEngine(m)) => assert_eq!(m, "bogus"),
        other => panic!("{other:?}"),
    }
}

#[test]
fn engine_name_round_trip() {
    // law: an engine's name parses back to it
    for e in [Engine::PixelExact, Engine::Spline, Engine::Auto] {
        assert_eq!(Engine::parse(&e.to_string()).unwrap(), e);
    }
}

#[test]
fn mode_names() {
    assert_eq!(ColorMode::parse("BW").unwrap(), ColorMode::Binary);
    assert_eq!(HierarchicalMode::parse("cutout").unwrap(), HierarchicalMode::Cutout);
    assert_eq!(PathSimplifyMode::parse("None").unwrap(), PathSimplifyMode::Off);
    assert_eq!(SplinePreset::parse("poster").unwrap(), SplinePreset::Poster);
    match ColorMode::parse("grey") {
        Err(Error::InvalidConfig(m)) => assert_eq!(m, "Unknown color mode: grey"),
        other => panic!("{other:?}"),
    }
    match PathSimplifyMode::parse("x") {
        Err(Error::InvalidConfig(m)) => assert_eq!(m, "Unknown path simplify mode: x"),
        other => panic!("{other:?}"),
    }
}

#[test]
fn profiles() {
    // law: unknown profiles change nothing; known ones pick the spline engine
    let base = VectorizeConfig::default();
    let mut c = base.clone();
    apply_profile("sketchy", &mut c);
    assert_eq!(c.engine, base.engine);
    assert_eq!(c.color_precision, None);
    apply_profile("LOGO", &mut c);
    assert_eq!(c.engine, Engine::Spline);
    assert_eq!(c.color_precision, Some(8));
    assert_eq!(c.hierarchical, Some(HierarchicalMode::Cutout));
    assert_eq!(c.optimize_config, base.optimize_config);
    apply_profile("lineart", &mut c);
    assert_eq!(c.color_mode, Some(ColorMode::Binary));
    assert_eq!(c.splice_threshold, Some(60));
}

#[test]
fn output_formats() {
    // law: a format's extension parses back to it
    for f in [OutputFormat::Svg, OutputFormat::Pdf, OutputFormat::Eps] {
        assert_eq!(parse_output_format(output_extension(&f)).unwrap(), f);
    }
    assert_eq!(OutputFormat::parse("PDF").unwrap(), OutputFormat::Pdf);
    match OutputFormat::parse("png") {
        Err(Error::InvalidConfig(m)) => assert_eq!(m, "Unknown output format: png. Use: svg, pdf, eps"),
        other => panic!("{other:?}"),
    }
    assert_eq!(OutputFormat::Pdf.extension(), "pdf");
}

#[test]
fn conversion_of_bad_svg_fails() {
    match convert_output("not an svg", OutputFormat::Pdf) {
        Err(Error::Conversion(m)) => assert!(m.starts_with("SVG parse error: "), "{m}"),
        other => panic!("{other:?}"),
    }
    assert!(matches!(convert_output("not an svg", OutputFormat::Eps), Err(Error::Conversion(_))));
    let (bytes, ct) = convert_output("not an svg", OutputFormat::Svg).unwrap();
    assert_eq!((bytes.as_slice(), ct.as_str()), (&b"not an svg"[..], "image/svg+xml"));
}

#[test]
fn eps_writes_colors_and_opacity() {
    let svg = r##"<svg xmlns="http://www.w3.org/2000/svg" width="10" height="20"><rect width="5" height="5" fill="#ff8000" fill-opacity="0.5"/></svg>"##;
    let (bytes, _) = convert_output(svg, OutputFormat::Eps).unwrap();
    let s = String::from_utf8(bytes).unwrap();
    assert!(s.starts_with("%!PS-Adobe-3.0 EPSF-3.0\n%%BoundingBox: 0 0 10.00 20.00\n%%EndComments\n\n0.00 20.00 translate\n1 -1 scale\n\n"), "{s}");
    assert!(s.contains("1.0000 0.5020 0.0000 setrgbcolor\n0.5000 setopacity\nfill\n"), "{s}");
    assert!(s.ends_with("\nshowpage\n%%EOF\n"));
}

#[test]
fn pdf_has_header() {
    let svg = r#"<svg xmlns="http://www.w3.org/2000/svg" width="10" height="10"><rect width="5" height="5"/></svg>"#;
    let (bytes, ct) = convert_output(svg, OutputFormat::Pdf).unwrap();
    assert_eq!(ct, "application/pdf");
    assert!(bytes.starts_with(b"%PDF-1.7\n"));
}

#[test]
fn optimize_none_preset_is_identity() {
    // law: the none preset returns its input unchanged
    let svg = "<?xml version=\"1.0\"?>\n<svg><!-- c --></svg>  ";
    let config = covecto::config::OptimizeConfig { preset: OptimizePreset::Off, multipass: true, multipass_iterations: 4 };
    assert_eq!(optimize_svg(svg, &config).unwrap(), svg);
}

#[test]
fn multipass_is_not_longer_than_one_pass() {
    // law: multipass output is never longer than a single pass
    let svg = "<svg><g></g><g> </g><path d=\"M1.500 2.000\" fill=\"\"/></svg>";
    let one = covecto::config::OptimizeConfig { preset: OptimizePreset::Default, multipass: false, multipass_iterations: 5 };
    let many = covecto::config::OptimizeConfig { multipass: true, ..one };
    let a = optimize_svg(svg, &one).unwrap();
    let b = optimize_svg(svg, &many).unwrap();
    assert!(b.len() <= a.len());
}

#[test]
fn ascii_optimization_grows_by_at_most_the_final_newline() {
    // law: an ASCII SVG optimizes without fail to at most one byte more
    let bare = "<svg/>";
    let out = optimize_svg(bare, &covecto::config::OptimizeConfig::default()).unwrap();
    assert_eq!(out, "<svg/>\n");
    assert_eq!(out.len(), bare.len() + 1);
    let svg = "<?xml version=\"1.0\"?>\n<!-- c -->\n<svg><path d=\"M1.500 2.000\" class=\"\"/></svg>\n";
    for preset in [OptimizePreset::Default, OptimizePreset::Safe] {
        for multipass in [false, true] {
            let config = covecto::config::OptimizeConfig { preset, multipass, multipass_iterations: 3 };
            let out = optimize_svg(svg, &config).unwrap();
            assert!(out.is_ascii());
            assert!(out.len() <= svg.len() + 1);
        }
    }
}

#[test]
fn load_image_errors() {
    match load_image_from_bytes(b"whatever", Some("xyz")) {
        Err(Error::UnsupportedFormat(m)) => assert_eq!(m, "xyz"),
        other => panic!("{:?}", other.map(|_| ())),
    }
    assert!(matches!(load_image_from_bytes(b"not an image", None), Err(Error::ImageDecode(_))));
    assert!(matches!(load_image_from_bytes(b"not an image", Some("PNG")), Err(Error::ImageDecode(_))));
}

#[test]
fn load_image_decodes_png() {
    let buf = image::RgbaImage::from_raw(2, 1, vec![1, 2, 3, 255, 4, 5, 6, 128]).unwrap();
    let mut png = std::io::Cursor::new(Vec::new());
    buf.write_to(&mut png, image::ImageFormat::Png).unwrap();
    let bytes = png.into_inner();
    for hint in [None, Some("png")] {
        let img = load_image_from_bytes(&bytes, hint).unwrap();
        assert_eq!((img.width(), img.height()), (2, 1));
        assert_eq!(img.as_raw(), &vec![1, 2, 3, 255, 4, 5, 6, 128]);
    }
}

#[test]
fn app_state_counts_requests() {
    let mut state = create_app_state();
    assert_eq!(state.request_count(), 0);
    state.record_request(12);
    state.record_request(30);
    assert_eq!(state.request_count(), 2);
    assert_eq!(state.total_processing_ms(), 42);
}

#[test]
fn health_says_ok() {
    let h = health_response("1.2.3");
    assert_eq!((h.status.as_str(), h.version.as_str()), ("ok", "1.2.3"));
}

#[test]
fn form_fields_become_a_configuration() {
    assert!(is_file_field("file") && is_file_field("") && !is_file_field("engine"));
    let mut p = VectorizeParams::new();
    p.set_field("engine", "spline".to_string());
    p.set_field("optimize", "false".to_string());
    p.set_field("color_precision", "-3".to_string());
    p.set_field("filter_speckle", "+7".to_string());
    p.set_field("path_precision", "-1".to_string());
    p.set_field("max_iterations", "99999999999999999999999".to_string());
    p.set_field("color_mode", "nonsense".to_string());
    p.set_field("optimize_preset", "Safe".to_string());
    p.set_field("unknown", "1".to_string());
    assert_eq!(p.color_precision, Some(-3));
    assert_eq!(p.filter_speckle, Some(7));
    assert_eq!(p.path_precision, None);
    assert_eq!(p.max_iterations, None);
    let c = config_from_params(&p).unwrap();
    assert_eq!(c.engine, Engine::Spline);
    assert!(!c.optimize);
    assert_eq!(c.color_mode, None);
    // the API's preset names are case-sensitive: "Safe" is the default preset
    assert_eq!(c.optimize_config.preset, OptimizePreset::Default);
    assert_eq!(c.optimize_config.multipass_iterations, 10);
    p.set_field("profile", "photo".to_string());
    assert_eq!(config_from_params(&p).unwrap().color_precision, Some(10));
    p.set_field("engine", "warp".to_string());
    match config_from_params(&p) {
        Err(Error::BadRequest(m)) => assert_eq!(m, "Invalid engine: warp"),
        other => panic!("{:?}", other.map(|_| ())),
    }
}

#[test]
fn optimize_uploads() {
    let mut p = OptimizeParams::new();
    p.set_field("preset", "none".to_string());
    p.set_field("multipass", "yes".to_string());
    assert!(!p.multipass);
    let out = optimize_upload(b"<svg> </svg>".to_vec(), &p).unwrap();
    assert_eq!((out.svg.as_str(), out.original_size, out.optimized_size), ("<svg> </svg>", 12, 12));
    match optimize_upload(vec![0xff, 0xfe], &p) {
        Err(Error::BadRequest(m)) => assert!(m.starts_with("Invalid UTF-8: "), "{m}"),
        other => panic!("{:?}", other.map(|_| ())),
    }
}

#[test]
fn command_line_options() {
    assert_eq!(parse_opt_preset("SAFE"), OptimizePreset::Safe);
    assert_eq!(parse_opt_preset("anything"), OptimizePreset::Default);
    assert!(is_image_file(Some("JPEG")) && is_image_file(Some("tif")) && !is_image_file(Some("svg")) && !is_image_file(None));
    let opts = VectorizeOpts {
        engine: "auto".to_string(),
        preset: Some("bw".to_string()),
        profile: None,
        color_precision: Some(5),
        filter_speckle: None,
        corner_threshold: None,
        splice_threshold: None,
        color_mode: None,
        hierarchical: Some("stacked".to_string()),
        path_simplify: None,
        layer_difference: None,
        max_iterations: None,
        path_precision: None,
        optimize: true,
        optimize_preset: "none".to_string(),
        multipass: false,
        multipass_iterations: 10,
    };
    let c = opts.to_config().unwrap();
    assert_eq!(c.spline_preset, Some(SplinePreset::Bw));
    assert_eq!(c.hierarchical, Some(HierarchicalMode::Stacked));
    assert_eq!(c.optimize_config.preset, OptimizePreset::Off);
    let bad = VectorizeOpts { color_mode: Some("sepia".to_string()), ..opts };
    match bad.to_config() {
        Err(Error::InvalidConfig(m)) => assert_eq!(m, "Unknown color mode: sepia"),
        other => panic!("{:?}", other.map(|_| ())),
    }
}
