//! The command line's rules: how its options become a configuration, which
//! output format and extension it writes, which files it takes as images.
use vstd::prelude::*;
use crate::config::{
    apply_profile, color_mode_named, engine_named, hierarchical_named, path_simplify_named,
    profile_applied, spline_preset_named, ColorMode, Engine, HierarchicalMode, OptimizeConfig,
    OptimizePreset, PathSimplifyMode, SplinePreset, VectorizeConfig,
};
use crate::error::Error;
use crate::export::{extension_of, format_named, OutputFormat};
use crate::text::{chars_of, lower_eq, lower_equals};

verus! {

/// Parses an engine name (`Engine::parse`).
pub fn parse_engine(s: &str) -> (r: Result<Engine, Error>)
    ensures
        match engine_named(s@) {
            Some(e) => r == Ok::<Engine, Error>(e),
            None => r matches Err(Error::InvalidEngine(m)) && m@ == s@,
        },
{
    Engine::parse(s)
}

/// Parses a spline preset name (`SplinePreset::parse`).
pub fn parse_spline_preset(s: &str) -> (r: Result<SplinePreset, Error>)
    ensures
        match spline_preset_named(s@) {
            Some(m) => r == Ok::<SplinePreset, Error>(m),
            None => r matches Err(Error::InvalidConfig(m)) && m@ == "Unknown spline preset: "@ + s@,
        },
{
    SplinePreset::parse(s)
}

/// Parses a color mode name (`ColorMode::parse`).
pub fn parse_color_mode(s: &str) -> (r: Result<ColorMode, Error>)
    ensures
        match color_mode_named(s@) {
            Some(m) => r == Ok::<ColorMode, Error>(m),
            None => r matches Err(Error::InvalidConfig(m)) && m@ == "Unknown color mode: "@ + s@,
        },
{
    ColorMode::parse(s)
}

/// Parses a hierarchical mode name (`HierarchicalMode::parse`).
pub fn parse_hierarchical(s: &str) -> (r: Result<HierarchicalMode, Error>)
    ensures
        match hierarchical_named(s@) {
            Some(m) => r == Ok::<HierarchicalMode, Error>(m),
            None => r matches Err(Error::InvalidConfig(m)) && m@ == "Unknown hierarchical mode: "@ + s@,
        },
{
    HierarchicalMode::parse(s)
}

/// Parses a path simplification mode name (`PathSimplifyMode::parse`).
pub fn parse_path_simplify(s: &str) -> (r: Result<PathSimplifyMode, Error>)
    ensures
        match path_simplify_named(s@) {
            Some(m) => r == Ok::<PathSimplifyMode, Error>(m),
            None => r matches Err(Error::InvalidConfig(m)) && m@ == "Unknown path simplify mode: "@ + s@,
        },
{
    PathSimplifyMode::parse(s)
}

/// The optimization preset the command line's name selects, ignoring case:
/// `safe`, `none`, and `default` for anything else.
pub open spec fn cli_opt_preset(s: Seq<char>) -> OptimizePreset {
    if lower_eq(s, "safe"@) {
        OptimizePreset::Safe
    } else if lower_eq(s, "none"@) {
        OptimizePreset::Off
    } else {
        OptimizePreset::Default
    }
}

/// See `cli_opt_preset`.
pub fn parse_opt_preset(s: &str) -> (r: OptimizePreset)
    ensures
        r == cli_opt_preset(s@),
{
    let v = chars_of(s);
    if lower_equals(&v, "safe") {
        OptimizePreset::Safe
    } else if lower_equals(&v, "none") {
        OptimizePreset::Off
    } else {
        OptimizePreset::Default
    }
}

/// Parses an output format name (`OutputFormat::parse`).
pub fn parse_output_format(s: &str) -> (r: Result<OutputFormat, Error>)
    ensures
        match format_named(s@) {
            Some(f) => r == Ok::<OutputFormat, Error>(f),
            None => r matches Err(Error::InvalidConfig(m)) && m@ == "Unknown output format: "@ + s@
                + ". Use: svg, pdf, eps"@,
        },
{
    OutputFormat::parse(s)
}

/// The extension of files written in a format.
pub fn output_extension(format: &OutputFormat) -> (r: &'static str)
    ensures
        r@ == extension_of(*format),
{
    format.extension()
}

/// The extensions, matched ignoring case, of the files a directory run
/// takes as images.
pub open spec fn image_extension(e: Seq<char>) -> bool {
    ||| lower_eq(e, "png"@) ||| lower_eq(e, "jpg"@) ||| lower_eq(e, "jpeg"@) ||| lower_eq(e, "webp"@)
    ||| lower_eq(e, "bmp"@) ||| lower_eq(e, "gif"@) ||| lower_eq(e, "tiff"@) ||| lower_eq(e, "tif"@)
    ||| lower_eq(e, "avif"@)
}

/// Whether a file with this extension (`None` for none) is taken as an
/// image (see `image_extension`).
pub fn is_image_file(extension: Option<&str>) -> (r: bool)
    ensures
        r == (extension matches Some(e) && image_extension(e@)),
{
    match extension {
        None => false,
        Some(e) => {
            let v = chars_of(e);
            lower_equals(&v, "png") || lower_equals(&v, "jpg") || lower_equals(&v, "jpeg") || lower_equals(&v, "webp")
                || lower_equals(&v, "bmp") || lower_equals(&v, "gif") || lower_equals(&v, "tiff") || lower_equals(
                &v,
                "tif",
            ) || lower_equals(&v, "avif")
        },
    }
}

/// The `vectorize` command's options that make the configuration. (The
/// minimum path length option is a floating-point number and is not held
/// here.)
pub struct VectorizeOpts {
    pub engine: String,
    pub preset: Option<String>,
    pub profile: Option<String>,
    pub color_precision: Option<i32>,
    pub filter_speckle: Option<usize>,
    pub corner_threshold: Option<i32>,
    pub splice_threshold: Option<i32>,
    pub color_mode: Option<String>,
    pub hierarchical: Option<String>,
    pub path_simplify: Option<String>,
    pub layer_difference: Option<i32>,
    pub max_iterations: Option<usize>,
    pub path_precision: Option<u32>,
    pub optimize: bool,
    pub optimize_preset: String,
    pub multipass: bool,
    pub multipass_iterations: usize,
}

/// An optional name parsed by `named`: `Ok(None)` without a name, `Err` for
/// a name `named` does not know.
pub open spec fn opt_named<T>(s: Option<String>, named: spec_fn(Seq<char>) -> Option<T>) -> Option<Option<T>> {
    match s {
        None => Some(None),
        Some(t) => match named(t@) {
            Some(v) => Some(Some(v)),
            None => None,
        },
    }
}

/// The configuration the options give before any profile, or the first
/// option (in the order engine, preset, color mode, hierarchical mode, path
/// simplification) that names nothing.
pub open spec fn opts_base_config(o: VectorizeOpts) -> Option<VectorizeConfig> {
    match (
        engine_named(o.engine@),
        opt_named(o.preset, |s: Seq<char>| spline_preset_named(s)),
        opt_named(o.color_mode, |s: Seq<char>| color_mode_named(s)),
        opt_named(o.hierarchical, |s: Seq<char>| hierarchical_named(s)),
        opt_named(o.path_simplify, |s: Seq<char>| path_simplify_named(s)),
    ) {
        (Some(engine), Some(spline_preset), Some(color_mode), Some(hierarchical), Some(path_simplify_mode)) => Some(
            VectorizeConfig {
                engine,
                optimize: o.optimize,
                optimize_config: OptimizeConfig {
                    preset: cli_opt_preset(o.optimize_preset@),
                    multipass: o.multipass,
                    multipass_iterations: o.multipass_iterations,
                },
                spline_preset,
                color_precision: o.color_precision,
                filter_speckle: o.filter_speckle,
                corner_threshold: o.corner_threshold,
                splice_threshold: o.splice_threshold,
                color_mode,
                hierarchical,
                path_simplify_mode,
                layer_difference: o.layer_difference,
                max_iterations: o.max_iterations,
                path_precision: o.path_precision,
            },
        ),
        _ => None,
    }
}

/// The configuration the options give: the base configuration with the
/// profile, if any, applied over it.
pub open spec fn opts_config(o: VectorizeOpts) -> Option<VectorizeConfig> {
    match opts_base_config(o) {
        Some(c) => match o.profile {
            Some(p) => Some(profile_applied(p@, c)),
            None => Some(c),
        },
        None => None,
    }
}

/// The error for options that name nothing: that of the first unknown name
/// (see `opts_base_config` for the order).
pub open spec fn opts_failure(o: VectorizeOpts, e: Error) -> bool {
    if engine_named(o.engine@) is None {
        e matches Error::InvalidEngine(m) && m@ == o.engine@
    } else if opt_named(o.preset, |s: Seq<char>| spline_preset_named(s)) is None {
        e matches Error::InvalidConfig(m) && m@ == "Unknown spline preset: "@ + o.preset->0@
    } else if opt_named(o.color_mode, |s: Seq<char>| color_mode_named(s)) is None {
        e matches Error::InvalidConfig(m) && m@ == "Unknown color mode: "@ + o.color_mode->0@
    } else if opt_named(o.hierarchical, |s: Seq<char>| hierarchical_named(s)) is None {
        e matches Error::InvalidConfig(m) && m@ == "Unknown hierarchical mode: "@ + o.hierarchical->0@
    } else {
        e matches Error::InvalidConfig(m) && m@ == "Unknown path simplify mode: "@ + o.path_simplify->0@
    }
}

impl VectorizeOpts {
    /// The configuration the options give (see `opts_config`); the error is
    /// the one the first unknown name gives.
    pub fn to_config(&self) -> (r: Result<VectorizeConfig, Error>)
        ensures
            match opts_config(*self) {
                Some(c) => r matches Ok(rc) && rc == c,
                None => r is Err,
            },
            r matches Err(e) ==> opts_failure(*self, e),
    {
        let engine = match parse_engine(self.engine.as_str()) {
            Ok(e) => e,
            Err(e) => return Err(e),
        };
        let spline_preset = match &self.preset {
            None => None,
            Some(s) => match parse_spline_preset(s.as_str()) {
                Ok(p) => Some(p),
                Err(e) => return Err(e),
            },
        };
        let color_mode = match &self.color_mode {
            None => None,
            Some(s) => match parse_color_mode(s.as_str()) {
                Ok(m) => Some(m),
                Err(e) => return Err(e),
            },
        };
        let hierarchical = match &self.hierarchical {
            None => None,
            Some(s) => match parse_hierarchical(s.as_str()) {
                Ok(m) => Some(m),
                Err(e) => return Err(e),
            },
        };
        let path_simplify_mode = match &self.path_simplify {
            None => None,
            Some(s) => match parse_path_simplify(s.as_str()) {
                Ok(m) => Some(m),
                Err(e) => return Err(e),
            },
        };
        let mut config = VectorizeConfig {
            engine,
            optimize: self.optimize,
            optimize_config: OptimizeConfig {
                preset: parse_opt_preset(self.optimize_preset.as_str()),
                multipass: self.multipass,
                multipass_iterations: self.multipass_iterations,
            },
            spline_preset,
            color_precision: self.color_precision,
            filter_speckle: self.filter_speckle,
            corner_threshold: self.corner_threshold,
            splice_threshold: self.splice_threshold,
            color_mode,
            hierarchical,
            path_simplify_mode,
            layer_difference: self.layer_difference,
            max_iterations: self.max_iterations,
            path_precision: self.path_precision,
        };
        if let Some(profile) = &self.profile {
            apply_profile(profile.as_str(), &mut config);
        }
        Ok(config)
    }
}

} // verus!
