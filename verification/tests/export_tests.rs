use covecto::export::{convert_output, OutputFormat};

const SAMPLE_SVG: &str = r#"<svg xmlns="http://www.w3.org/2000/svg" width="100" height="100" viewBox="0 0 100 100">
        <rect x="10" y="10" width="80" height="80" fill="red" stroke="blue" stroke-width="2"/>
        <circle cx="50" cy="50" r="30" fill="green"/>
    </svg>"#;

#[test]
fn test_output_format_parse() {
    assert_eq!("svg".parse::<OutputFormat>().unwrap(), OutputFormat::Svg);
    assert_eq!("pdf".parse::<OutputFormat>().unwrap(), OutputFormat::Pdf);
    assert_eq!("eps".parse::<OutputFormat>().unwrap(), OutputFormat::Eps);
    assert!("xyz".parse::<OutputFormat>().is_err());
}

#[test]
fn test_output_format_content_type() {
    assert_eq!(OutputFormat::Svg.content_type(), "image/svg+xml");
    assert_eq!(OutputFormat::Pdf.content_type(), "application/pdf");
    assert_eq!(OutputFormat::Eps.content_type(), "application/eps");
}

#[test]
fn test_svg_passthrough() {
    let (bytes, ct) = convert_output(SAMPLE_SVG, OutputFormat::Svg).unwrap();
    assert_eq!(ct, "image/svg+xml");
    assert!(bytes.starts_with(b"<svg"));
}

#[test]
fn test_svg_to_pdf() {
    let (bytes, ct) = convert_output(SAMPLE_SVG, OutputFormat::Pdf).unwrap();
    assert_eq!(ct, "application/pdf");
    // PDF files start with %PDF
    assert!(bytes.starts_with(b"%PDF"));
}

#[test]
fn test_svg_to_eps() {
    let (bytes, ct) = convert_output(SAMPLE_SVG, OutputFormat::Eps).unwrap();
    assert_eq!(ct, "application/eps");
    let s = String::from_utf8(bytes).unwrap();
    assert!(s.starts_with("%!PS-Adobe-3.0 EPSF-3.0"));
    assert!(s.contains("%%BoundingBox:"));
    assert!(s.contains("showpage"));
}

#[test]
fn test_eps_contains_paths() {
    let (bytes, _) = convert_output(SAMPLE_SVG, OutputFormat::Eps).unwrap();
    let s = String::from_utf8(bytes).unwrap();
    // Should contain PostScript drawing commands
    assert!(s.contains("newpath") || s.contains("moveto"));
}

#[test]
fn eps_transformed_paths_restore_the_matrix() {
    let svg = r#"<svg xmlns="http://www.w3.org/2000/svg" width="20" height="20"><g transform="translate(5,5)"><rect width="4" height="4" fill="red"/></g><rect width="2" height="2" fill="blue"/></svg>"#;
    let (bytes, _) = convert_output(svg, OutputFormat::Eps).unwrap();
    let s = String::from_utf8(bytes).unwrap();
    assert!(!s.contains("concatmatrix"), "{s}");
    assert!(s.contains("gsave\n[") && s.contains("] concat\n"), "{s}");
    assert_eq!(s.matches("gsave").count(), s.matches("grestore").count());
    let restore = s.find("grestore").unwrap();
    let blue = s.find("0.0000 0.0000 1.0000 setrgbcolor").unwrap();
    assert!(restore < blue, "{s}");
}

#[test]
fn eps_colors_are_channel_fractions_with_four_decimals() {
    for c in [0u8, 1, 2, 51, 127, 128, 200, 254, 255] {
        let svg = format!(
            "<svg xmlns=\"http://www.w3.org/2000/svg\" width=\"2\" height=\"2\"><rect width=\"2\" height=\"2\" fill=\"rgb({c},0,0)\"/></svg>"
        );
        let (bytes, _) = convert_output(&svg, OutputFormat::Eps).unwrap();
        let s = String::from_utf8(bytes).unwrap();
        let n = (c as u32 * 20000 + 255) / 510;
        let expected = format!("{}.{:04} 0.0000 0.0000 setrgbcolor", n / 10000, n % 10000);
        assert!(s.contains(&expected), "{c}: {s}");
    }
    for c in 0u8..=255 {
        let n = (c as u32 * 20000 + 255) / 510;
        assert_eq!(format!("{:.4}", c as f32 / 255.0), format!("{}.{:04}", n / 10000, n % 10000));
    }
}
