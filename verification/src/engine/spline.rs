//! Spline vectorization engine (vtracer-backed): color quantization, contour
//! tracing and Bézier fitting are vtracer's; which parameters it is given is
//! decided here.
use vstd::prelude::*;
use crate::config::{ColorMode, HierarchicalMode, PathSimplifyMode, SplinePreset, VectorizeConfig};
use crate::error::Error;
use crate::image::RgbaImage;
use crate::text::nat_text;
use visioncortex::PathSimplifyMode as VPathMode;
use vtracer::{ColorImage, ColorMode as VColorMode, Config as VConfig, Hierarchical as VHierarchical, Preset as VPreset};

verus! {

/// The tracing parameters handed to vtracer, as plain values. (vtracer's
/// minimum path length is its own default: it is not set from here.)
#[derive(Debug, Clone, Copy, PartialEq, Eq, Structural)]
pub struct SplineSettings {
    pub color_mode: ColorMode,
    pub hierarchical: HierarchicalMode,
    pub filter_speckle: usize,
    pub color_precision: i32,
    pub layer_difference: i32,
    pub corner_threshold: i32,
    pub max_iterations: usize,
    pub splice_threshold: i32,
    pub path_precision: Option<u32>,
    pub mode: PathSimplifyMode,
}

/// vtracer's default parameters (`Config::default`).
pub open spec fn vtracer_defaults() -> SplineSettings {
    SplineSettings {
        color_mode: ColorMode::Color,
        hierarchical: HierarchicalMode::Stacked,
        filter_speckle: 4,
        color_precision: 6,
        layer_difference: 16,
        corner_threshold: 60,
        max_iterations: 10,
        splice_threshold: 45,
        path_precision: Some(2),
        mode: PathSimplifyMode::Spline,
    }
}

/// vtracer's parameters for a preset (`Config::from_preset`).
pub open spec fn vtracer_preset(p: SplinePreset) -> SplineSettings {
    match p {
        SplinePreset::Bw => SplineSettings { color_mode: ColorMode::Binary, ..vtracer_defaults() },
        SplinePreset::Poster => SplineSettings { color_precision: 8, ..vtracer_defaults() },
        SplinePreset::Photo => SplineSettings {
            filter_speckle: 10,
            color_precision: 8,
            layer_difference: 48,
            corner_threshold: 180,
            ..vtracer_defaults()
        },
    }
}

/// The value of an override, or the fallback where none is given.
pub open spec fn or_else<T>(o: Option<T>, fallback: T) -> T {
    match o {
        Some(v) => v,
        None => fallback,
    }
}

/// The parameters a configuration selects: a preset's wholesale, else
/// vtracer's defaults with each given knob overriding its own.
pub open spec fn spline_settings_of(c: VectorizeConfig) -> SplineSettings {
    match c.spline_preset {
        Some(p) => vtracer_preset(p),
        None => {
            let d = vtracer_defaults();
            SplineSettings {
                color_mode: or_else(c.color_mode, d.color_mode),
                hierarchical: or_else(c.hierarchical, d.hierarchical),
                filter_speckle: or_else(c.filter_speckle, d.filter_speckle),
                color_precision: or_else(c.color_precision, d.color_precision),
                layer_difference: or_else(c.layer_difference, d.layer_difference),
                corner_threshold: or_else(c.corner_threshold, d.corner_threshold),
                max_iterations: or_else(c.max_iterations, d.max_iterations),
                splice_threshold: or_else(c.splice_threshold, d.splice_threshold),
                path_precision: match c.path_precision {
                    Some(v) => Some(v),
                    None => d.path_precision,
                },
                mode: or_else(c.path_simplify_mode, d.mode),
            }
        },
    }
}

/// Parameters on which vtracer runs without panicking: the speckle area
/// `filter_speckle²` and the precision loss `8 - color_precision` fit their
/// integer types; in color mode the color clusterer's assertion that the
/// loss is below 8 holds and the loss is no negative shift of a color byte;
/// the smoothing loop's assertion `max_iterations > 0` holds; and where
/// paths are simplified their fractional coordinates are written with at
/// most 65 535 decimals, the most that a run-time formatting precision
/// takes without panicking.
pub open spec fn settings_sound(s: SplineSettings) -> bool {
    &&& s.filter_speckle * s.filter_speckle <= usize::MAX
    &&& 8 - s.color_precision <= i32::MAX
    &&& (s.color_mode == ColorMode::Color ==> 0 < s.color_precision <= 8)
    &&& s.max_iterations > 0
    &&& (s.mode != PathSimplifyMode::Off ==> (s.path_precision matches Some(p) ==> p <= 65535))
}

/// visioncortex numbers the clusters of a binary image with a 16-bit index
/// and panics once it reaches 65 535; an image of fewer pixels cannot get
/// there, since each new cluster starts at a pixel of its own.
pub open spec fn binary_fits(s: SplineSettings, width: int, height: int) -> bool {
    s.color_mode == ColorMode::Binary ==> width * height < 65535
}

/// Pixel `i` of the RGBA bytes has the color `(r, g, b)`, whatever its alpha.
pub open spec fn pixel_rgb_is(pixels: Seq<u8>, i: int, r: u8, g: u8, b: u8) -> bool {
    &&& 0 <= i
    &&& 4 * i + 3 < pixels.len()
    &&& pixels[4 * i] == r
    &&& pixels[4 * i + 1] == g
    &&& pixels[4 * i + 2] == b
}

/// Some pixel has the color `(r, g, b)`.
pub open spec fn rgb_occurs(pixels: Seq<u8>, r: u8, g: u8, b: u8) -> bool {
    exists|i: int| #[trigger] pixel_rgb_is(pixels, i, r, g, b)
}

/// Every color that vtracer tries first as the key for transparent pixels
/// (red, green, blue, yellow, cyan, magenta) occurs in the image. Only then
/// does vtracer go on to random colors, or fail.
pub open spec fn key_colors_all_used(pixels: Seq<u8>) -> bool {
    &&& rgb_occurs(pixels, 255, 0, 0)
    &&& rgb_occurs(pixels, 0, 255, 0)
    &&& rgb_occurs(pixels, 0, 0, 255)
    &&& rgb_occurs(pixels, 255, 255, 0)
    &&& rgb_occurs(pixels, 0, 255, 255)
    &&& rgb_occurs(pixels, 255, 0, 255)
}

/// vtracer's work does not rest on chance: a binary image, or a color image
/// that leaves one of the fixed key colors unused.
pub open spec fn vtracer_determined(pixels: Seq<u8>, s: SplineSettings) -> bool {
    s.color_mode == ColorMode::Binary || !key_colors_all_used(pixels)
}

/// The SVG vtracer writes for an image (RGBA bytes, width, height) under
/// the given parameters, where its work does not rest on chance (see
/// `vtracer_determined`).
pub uninterp spec fn vtracer_output(pixels: Seq<u8>, width: nat, height: nat, s: SplineSettings) -> Seq<char>;

/// The first lines vtracer writes for an image of the given size.
pub open spec fn vtracer_svg_head(width: nat, height: nat) -> Seq<char> {
    "<?xml version=\"1.0\" encoding=\"UTF-8\"?>\n<!-- Generator: visioncortex VTracer 0.6.5 -->\n<svg version=\"1.1\" xmlns=\"http://www.w3.org/2000/svg\" width=\""@
        + nat_text(width) + "\" height=\""@ + nat_text(height) + "\">\n"@
}

/// `svg` is a document as vtracer writes it for an image of this size: its
/// head (see `vtracer_svg_head`), then the paths, then `</svg>` and a newline.
pub open spec fn vtracer_svg(svg: Seq<char>, width: nat, height: nat) -> bool {
    let head = vtracer_svg_head(width, height);
    &&& svg.len() >= head.len() + 7
    &&& svg.take(head.len() as int) == head
    &&& svg.skip(svg.len() - 7) == "</svg>\n"@
}

/// `vtracer::Config::default()`, read back as plain values: its source sets
/// exactly the values of `vtracer_defaults`.
#[verifier::external_body]
fn vtracer_default_settings() -> (r: SplineSettings)
    ensures
        r == vtracer_defaults(),
{
    let c = VConfig::default();
    SplineSettings {
        color_mode: match c.color_mode { VColorMode::Color => ColorMode::Color, VColorMode::Binary => ColorMode::Binary },
        hierarchical: match c.hierarchical { VHierarchical::Stacked => HierarchicalMode::Stacked, VHierarchical::Cutout => HierarchicalMode::Cutout },
        filter_speckle: c.filter_speckle,
        color_precision: c.color_precision,
        layer_difference: c.layer_difference,
        corner_threshold: c.corner_threshold,
        max_iterations: c.max_iterations,
        splice_threshold: c.splice_threshold,
        path_precision: c.path_precision,
        mode: match c.mode { VPathMode::Spline => PathSimplifyMode::Spline, VPathMode::Polygon => PathSimplifyMode::Polygon, VPathMode::None => PathSimplifyMode::Off },
    }
}

/// `vtracer::Config::from_preset`, read back as plain values: its source
/// sets exactly the values of `vtracer_preset`.
#[verifier::external_body]
fn vtracer_preset_settings(p: SplinePreset) -> (r: SplineSettings)
    ensures
        r == vtracer_preset(p),
{
    let c = VConfig::from_preset(match p { SplinePreset::Bw => VPreset::Bw, SplinePreset::Poster => VPreset::Poster, SplinePreset::Photo => VPreset::Photo });
    SplineSettings {
        color_mode: match c.color_mode { VColorMode::Color => ColorMode::Color, VColorMode::Binary => ColorMode::Binary },
        hierarchical: match c.hierarchical { VHierarchical::Stacked => HierarchicalMode::Stacked, VHierarchical::Cutout => HierarchicalMode::Cutout },
        filter_speckle: c.filter_speckle,
        color_precision: c.color_precision,
        layer_difference: c.layer_difference,
        corner_threshold: c.corner_threshold,
        max_iterations: c.max_iterations,
        splice_threshold: c.splice_threshold,
        path_precision: c.path_precision,
        mode: match c.mode { VPathMode::Spline => PathSimplifyMode::Spline, VPathMode::Polygon => PathSimplifyMode::Polygon, VPathMode::None => PathSimplifyMode::Off },
    }
}

/// `vtracer::convert` on an RGBA image with the given parameters (its
/// minimum path length left at vtracer's default), the SVG written
/// out by its `Display`. From vtracer's source: the text starts with the XML
/// declaration, the generator comment and the `<svg>` element of the image's
/// size, and ends with `</svg>`; it fails only in color mode, when no color
/// unused by the image can be found to key transparent pixels with: the
/// six fixed key colors first, then random ones. Where its work does not
/// rest on chance (`vtracer_determined`), it succeeds and its SVG is named
/// `vtracer_output`: the color clusters are then found by a fixed
/// procedure whose hash sets are sorted before use. Which SVG comes out
/// otherwise is not stated. The inputs on which it panics are left out: unsound
/// parameters (`settings_sound`) and binary images large enough to run out
/// of cluster numbers (`binary_fits`).
#[verifier::external_body]
fn vtracer_convert(pixels: Vec<u8>, width: usize, height: usize, s: &SplineSettings) -> (r: Result<String, String>)
    requires
        pixels@.len() == width * height * 4,
        settings_sound(*s),
        binary_fits(*s, width as int, height as int),
    ensures
        r matches Ok(svg) ==> vtracer_svg(svg@, width as nat, height as nat),
        r matches Err(m) ==> s.color_mode == ColorMode::Color && m@ == "unable to find unused color in image to use as key"@,
        r matches Err(m) ==> !vtracer_determined(pixels@, *s),
        r matches Ok(svg) ==> (vtracer_determined(pixels@, *s) ==> svg@ == vtracer_output(pixels@, width as nat, height as nat, *s)),
{
    let config = VConfig {
        color_mode: match s.color_mode { ColorMode::Color => VColorMode::Color, ColorMode::Binary => VColorMode::Binary },
        hierarchical: match s.hierarchical { HierarchicalMode::Stacked => VHierarchical::Stacked, HierarchicalMode::Cutout => VHierarchical::Cutout },
        filter_speckle: s.filter_speckle,
        color_precision: s.color_precision,
        layer_difference: s.layer_difference,
        corner_threshold: s.corner_threshold,
        max_iterations: s.max_iterations,
        splice_threshold: s.splice_threshold,
        path_precision: s.path_precision,
        mode: match s.mode { PathSimplifyMode::Spline => VPathMode::Spline, PathSimplifyMode::Polygon => VPathMode::Polygon, PathSimplifyMode::Off => VPathMode::None },
        ..VConfig::default()
    };
    vtracer::convert(ColorImage { pixels, width, height }, config).map(|svg| svg.to_string())
}

/// The parameters handed to vtracer for a configuration.
pub fn spline_settings(config: &VectorizeConfig) -> (r: SplineSettings)
    ensures
        r == spline_settings_of(*config),
{
    if let Some(preset) = config.spline_preset {
        return vtracer_preset_settings(preset);
    }
    let mut s = vtracer_default_settings();
    if let Some(cm) = config.color_mode {
        s.color_mode = cm;
    }
    if let Some(v) = config.color_precision {
        s.color_precision = v;
    }
    if let Some(v) = config.filter_speckle {
        s.filter_speckle = v;
    }
    if let Some(v) = config.corner_threshold {
        s.corner_threshold = v;
    }
    if let Some(v) = config.splice_threshold {
        s.splice_threshold = v;
    }
    if let Some(v) = config.layer_difference {
        s.layer_difference = v;
    }
    if let Some(v) = config.max_iterations {
        s.max_iterations = v;
    }
    if let Some(v) = config.path_precision {
        s.path_precision = Some(v);
    }
    if let Some(h) = config.hierarchical {
        s.hierarchical = h;
    }
    if let Some(m) = config.path_simplify_mode {
        s.mode = m;
    }
    s
}

/// The image's pixels in the layout vtracer reads: `r, g, b, a` per pixel,
/// rows top to bottom.
pub fn to_color_image(img: &RgbaImage) -> (pixels: Vec<u8>)
    ensures
        pixels@ == img.spec_data(),
        pixels@.len() == img.spec_width() as int * img.spec_height() as int * 4,
{
    let raw = img.as_raw();
    let mut pixels: Vec<u8> = Vec::new();
    let mut i: usize = 0;
    while i < raw.len()
        invariant
            raw@ == img.spec_data(),
            raw@.len() == img.spec_width() as int * img.spec_height() as int * 4,
            i <= raw.len(),
            pixels@ == raw@.take(i as int),
        decreases raw.len() - i,
    {
        pixels.push(raw[i]);
        proof {
            assert(raw@.take(i as int).push(raw@[i as int]) =~= raw@.take(i + 1));
        }
        i = i + 1;
    }
    proof {
        assert(raw@.take(raw.len() as int) =~= raw@);
    }
    pixels
}

/// Vectorizes an image with vtracer under the configuration's parameters.
/// On success the SVG is vtracer's, for an image of this size: the one it
/// writes for these pixels and parameters wherever that does not rest on
/// chance. vtracer's failure comes back as `Error::Vtracer` with its
/// message; it needs a color image holding all six fixed key colors.
pub fn vectorize(img: &RgbaImage, config: &VectorizeConfig) -> (r: Result<String, Error>)
    requires
        settings_sound(spline_settings_of(*config)),
        binary_fits(spline_settings_of(*config), img.spec_width() as int, img.spec_height() as int),
    ensures
        r matches Ok(svg) ==> vtracer_svg(svg@, img.spec_width() as nat, img.spec_height() as nat),
        r matches Err(e) ==> spline_settings_of(*config).color_mode == ColorMode::Color && key_colors_all_used(
            img.spec_data(),
        ),
        r matches Err(e) ==> (e matches Error::Vtracer(m) && m@ == "unable to find unused color in image to use as key"@),
        vtracer_determined(img.spec_data(), spline_settings_of(*config)) ==> (r matches Ok(svg) && svg@ == vtracer_output(
            img.spec_data(),
            img.spec_width() as nat,
            img.spec_height() as nat,
            spline_settings_of(*config),
        )),
{
    let pixels = to_color_image(img);
    let settings = spline_settings(config);
    let w: usize = img.width() as usize;
    let h: usize = img.height() as usize;
    match vtracer_convert(pixels, w, h, &settings) {
        Ok(svg) => Ok(svg),
        Err(m) => Err(Error::Vtracer(m)),
    }
}

} // verus!
